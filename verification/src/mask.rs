//! Binary segmentation masks: square-kernel dilation and pixel blackout.
//!
//! A mask is a row-major sequence of `width * height` cells; a cell counts as
//! set when it holds exactly `1`.  Frames are row-major RGBA buffers of
//! `width * height * 4` bytes.

use vstd::prelude::*;
use vstd::arithmetic::div_mod::lemma_fundamental_div_mod;
use vstd::arithmetic::div_mod::lemma_fundamental_div_mod_converse;

verus! {

/// The value of cell `k` of the line that starts at `start` and advances by
/// `stride` per cell.
pub open spec fn cell(m: Seq<u8>, start: int, stride: int, k: int) -> u8 {
    m[start + k * stride]
}

/// True when some cell of the line within `half` steps of `pos` (and inside
/// `0..len`) is set.
pub open spec fn line_hit(m: Seq<u8>, start: int, stride: int, len: int, pos: int, half: int) -> bool {
    exists|k: int| pos - half <= k <= pos + half && 0 <= k < len && #[trigger] cell(m, start, stride, k) == 1
}

/// The cell at column `x` of row `y` in a row-major grid of width `w`.
pub open spec fn at(m: Seq<u8>, w: int, y: int, x: int) -> u8 {
    m[y * w + x]
}

/// Byte `c` of pixel `p` in an RGBA buffer.
pub open spec fn pixel_byte(s: Seq<u8>, p: int, c: int) -> u8 {
    s[4 * p + c]
}

/// `1` when `b` holds, `0` otherwise.
pub open spec fn flag(b: bool) -> u8 {
    if b { 1u8 } else { 0u8 }
}

/// One horizontal sliding-window pass: a cell becomes set when a set cell of
/// the same row lies at most `half` columns away.
pub open spec fn horizontal_pass(m: Seq<u8>, w: int, h: int, half: int) -> Seq<u8> {
    Seq::new((w * h) as nat, |i: int| flag(line_hit(m, (i / w) * w, 1, w, i % w, half)))
}

/// One vertical sliding-window pass: a cell becomes set when a set cell of
/// the same column lies at most `half` rows away.
pub open spec fn vertical_pass(m: Seq<u8>, w: int, h: int, half: int) -> Seq<u8> {
    Seq::new((w * h) as nat, |i: int| flag(line_hit(m, i % w, w, h, i / w, half)))
}

/// One dilation step: the horizontal pass followed by the vertical pass.
pub open spec fn dilate_step(m: Seq<u8>, w: int, h: int, half: int) -> Seq<u8> {
    vertical_pass(horizontal_pass(m, w, h, half), w, h, half)
}

/// `n` dilation steps applied to `m`.
pub open spec fn dilate_iterated(m: Seq<u8>, w: int, h: int, half: int, n: nat) -> Seq<u8>
    decreases n,
{
    if n == 0 {
        m
    } else {
        dilate_step(dilate_iterated(m, w, h, half, (n - 1) as nat), w, h, half)
    }
}

/// What `dilate_mask` returns: the empty mask for an empty input or a frame
/// without area, else `iterations` dilation steps with a square kernel of
/// side `kernel_size` (half-width `kernel_size / 2`).
pub open spec fn dilated_mask(m: Seq<u8>, w: int, h: int, kernel_size: int, iterations: nat) -> Seq<u8> {
    if m.len() == 0 || w == 0 || h == 0 {
        Seq::empty()
    } else {
        dilate_iterated(m, w, h, kernel_size / 2, iterations)
    }
}

/// The number of set cells among cells `lo..hi` of a line.
pub open spec fn ones_in(m: Seq<u8>, start: int, stride: int, lo: int, hi: int) -> nat
    decreases hi - lo,
{
    if hi <= lo {
        0
    } else {
        ones_in(m, start, stride, lo, hi - 1) + (if cell(m, start, stride, hi - 1) == 1 { 1nat } else { 0nat })
    }
}

proof fn lemma_ones_drop_front(m: Seq<u8>, start: int, stride: int, lo: int, hi: int)
    requires
        lo < hi,
    ensures
        ones_in(m, start, stride, lo, hi) == (if cell(m, start, stride, lo) == 1 { 1nat } else { 0nat })
            + ones_in(m, start, stride, lo + 1, hi),
    decreases hi - lo,
{
    if lo + 1 < hi {
        lemma_ones_drop_front(m, start, stride, lo, hi - 1);
        assert(ones_in(m, start, stride, lo + 1, hi) == ones_in(m, start, stride, lo + 1, hi - 1) + (if cell(
            m,
            start,
            stride,
            hi - 1,
        ) == 1 {
            1nat
        } else {
            0nat
        }));
    } else {
        assert(ones_in(m, start, stride, lo, lo) == 0);
        assert(ones_in(m, start, stride, lo + 1, hi) == 0);
    }
}

proof fn lemma_ones_bound(m: Seq<u8>, start: int, stride: int, lo: int, hi: int)
    ensures
        lo <= hi ==> ones_in(m, start, stride, lo, hi) <= hi - lo,
        hi <= lo ==> ones_in(m, start, stride, lo, hi) == 0,
    decreases hi - lo,
{
    if lo < hi {
        lemma_ones_bound(m, start, stride, lo, hi - 1);
    }
}

proof fn lemma_ones_positive(m: Seq<u8>, start: int, stride: int, lo: int, hi: int)
    ensures
        ones_in(m, start, stride, lo, hi) > 0 <==> exists|k: int|
            lo <= k < hi && #[trigger] cell(m, start, stride, k) == 1,
    decreases hi - lo,
{
    if lo < hi {
        lemma_ones_positive(m, start, stride, lo, hi - 1);
        if ones_in(m, start, stride, lo, hi) > 0 {
            if cell(m, start, stride, hi - 1) == 1 {
            } else {
                let k = choose|k: int| lo <= k < hi - 1 && #[trigger] cell(m, start, stride, k) == 1;
                assert(lo <= k < hi && cell(m, start, stride, k) == 1);
            }
        } else {
            assert forall|k: int| lo <= k < hi implies #[trigger] cell(m, start, stride, k) != 1 by {
                if k < hi - 1 {
                    if cell(m, start, stride, k) == 1 {
                        assert(lo <= k < hi - 1);
                    }
                }
            }
        }
    }
}

/// Window bounds used by the sliding loops: cells `lo..hi` around `pos`.
pub open spec fn window_lo(pos: int, half: int) -> int {
    if pos >= half { pos - half } else { 0 }
}

pub open spec fn window_hi(pos: int, half: int, len: int) -> int {
    if pos + half + 1 < len { pos + half + 1 } else { len }
}

proof fn lemma_window_hit(m: Seq<u8>, start: int, stride: int, len: int, pos: int, half: int)
    requires
        0 <= pos < len,
        half >= 0,
    ensures
        ones_in(m, start, stride, window_lo(pos, half), window_hi(pos, half, len)) > 0
            <==> line_hit(m, start, stride, len, pos, half),
{
    let lo = window_lo(pos, half);
    let hi = window_hi(pos, half, len);
    lemma_ones_positive(m, start, stride, lo, hi);
    if line_hit(m, start, stride, len, pos, half) {
        let k = choose|k: int|
            pos - half <= k <= pos + half && 0 <= k < len && #[trigger] cell(m, start, stride, k) == 1;
        assert(lo <= k < hi);
    }
    if ones_in(m, start, stride, lo, hi) > 0 {
        let k = choose|k: int| lo <= k < hi && #[trigger] cell(m, start, stride, k) == 1;
        assert(pos - half <= k <= pos + half && 0 <= k < len);
    }
}

pub proof fn lemma_cell_index(w: int, h: int, y: int, x: int)
    requires
        0 <= y < h,
        0 <= x < w,
    ensures
        0 <= y * w + x < w * h,
        y * w + w <= w * h,
        (y * w + x) / w == y,
        (y * w + x) % w == x,
{
    assert(0 <= y * w) by (nonlinear_arith)
        requires
            0 <= y,
            0 <= w,
    ;
    assert(y * w <= (h - 1) * w) by (nonlinear_arith)
        requires
            0 <= y < h,
            0 <= w,
    ;
    assert((h - 1) * w + w == w * h) by (nonlinear_arith);
    lemma_fundamental_div_mod_converse(y * w + x, w, y, x);
}

pub proof fn lemma_index_split(i: int, w: int, h: int)
    requires
        0 <= i < w * h,
        w > 0,
    ensures
        0 <= i / w < h,
        0 <= i % w < w,
        i == (i / w) * w + i % w,
{
    lemma_fundamental_div_mod(i, w);
    assert((i / w) * w == w * (i / w)) by (nonlinear_arith);
    assert(0 <= i % w < w) by (nonlinear_arith)
        requires
            w > 0,
            i == w * (i / w) + i % w,
            i >= 0,
    {
        vstd::arithmetic::div_mod::lemma_mod_bound(i, w);
    }
    assert(0 <= i / w < h) by (nonlinear_arith)
        requires
            w > 0,
            i == (i / w) * w + i % w,
            0 <= i % w < w,
            0 <= i < w * h,
    ;
}

/// The horizontal pass computed row by row with a running window count.
fn horizontal_pass_exec(src: &Vec<u8>, width: usize, height: usize, half: usize) -> (out: Vec<u8>)
    requires
        width > 0,
        height > 0,
        width * height <= usize::MAX,
        src.len() >= width * height,
        width + half <= usize::MAX,
    ensures
        out@ == horizontal_pass(src@, width as int, height as int, half as int),
{
    let ghost w = width as int;
    let ghost h = height as int;
    let ghost hh = half as int;
    let ghost target = horizontal_pass(src@, w, h, hh);
    let total = width * height;
    let mut out: Vec<u8> = vec![0u8; total];
    let mut y: usize = 0;
    let mut row: usize = 0;
    while y < height
        invariant
            w == width as int,
            h == height as int,
            hh == half as int,
            target == horizontal_pass(src@, w, h, hh),
            width > 0,
            height > 0,
            total == width * height,
            src.len() >= total,
            width + half <= usize::MAX,
            y <= height,
            row == y * width,
            row <= total,
            out.len() == total,
            forall|i: int| 0 <= i < row ==> out@[i] == target[i],
            forall|i: int| row <= i < total ==> out@[i] == 0,
        decreases height - y,
    {
        proof {
            lemma_cell_index(w, h, y as int, 0);
        }
        let mut active: usize = 0;
        let init_last = if half < width - 1 { half } else { width - 1 };
        let mut x: usize = 0;
        while x <= init_last
            invariant
                init_last < width,
                x <= init_last + 1,
                row + width <= total,
                src.len() >= total,
                active == ones_in(src@, row as int, 1, 0, x as int),
                active <= x,
            decreases init_last + 1 - x,
        {
            if src[row + x] == 1 {
                active = active + 1;
            }
            x = x + 1;
        }
        assert(init_last as int + 1 == window_hi(0, hh, w));
        let mut x: usize = 0;
        while x < width
            invariant
                w == width as int,
                h == height as int,
                hh == half as int,
                target == horizontal_pass(src@, w, h, hh),
                width > 0,
                y < height,
                total == width * height,
                row == y * width,
                row + width <= total,
                src.len() >= total,
                width + half <= usize::MAX,
                x <= width,
                out.len() == total,
                active == ones_in(src@, row as int, 1, window_lo(x as int, hh), window_hi(x as int, hh, w)),
                active <= width,
                forall|i: int| 0 <= i < row + x ==> out@[i] == target[i],
                forall|i: int| row + x <= i < total ==> out@[i] == 0,
            decreases width - x,
        {
            let ghost lo = window_lo(x as int, hh);
            let ghost hi = window_hi(x as int, hh, w);
            proof {
                lemma_window_hit(src@, row as int, 1, w, x as int, hh);
                lemma_cell_index(w, h, y as int, x as int);
                assert(((row + x) as int / w) * w == row as int);
                assert(target[row + x] == flag(line_hit(src@, row as int, 1, w, x as int, hh)));
            }
            if active > 0 {
                out[row + x] = 1;
            }
            assert(out@[row + x] == target[row + x]);
            if x >= half {
                let out_x = x - half;
                proof {
                    lemma_ones_drop_front(src@, row as int, 1, lo, hi);
                }
                if src[row + out_x] == 1 {
                    active = active - 1;
                }
            } else {
                assert(window_lo(x as int + 1, hh) == 0);
            }
            let ghost mid = active;
            assert(mid == ones_in(src@, row as int, 1, window_lo(x as int + 1, hh), hi));
            let in_x = x + half + 1;
            if in_x < width {
                if src[row + in_x] == 1 {
                    active = active + 1;
                }
                assert(window_hi(x as int + 1, hh, w) == hi + 1);
            } else {
                assert(window_hi(x as int + 1, hh, w) == hi);
            }
            proof {
                lemma_ones_bound(src@, row as int, 1, window_lo(x as int + 1, hh), window_hi(x as int + 1, hh, w));
            }
            x = x + 1;
        }
        proof {
            lemma_cell_index(w, h, y as int, 0);
        }
        row = row + width;
        y = y + 1;
        assert(row == y * width) by (nonlinear_arith)
            requires
                row == (y - 1) * width + width,
        ;
    }
    assert(row == total) by (nonlinear_arith)
        requires
            row == y * width,
            y == height,
            total == width * height,
    ;
    assert(out@ =~= target);
    out
}

/// The vertical pass computed column by column with a running window count.
fn vertical_pass_exec(src: &Vec<u8>, width: usize, height: usize, half: usize) -> (out: Vec<u8>)
    requires
        width > 0,
        height > 0,
        width * height <= usize::MAX,
        src.len() >= width * height,
        height + half <= usize::MAX,
    ensures
        out@ == vertical_pass(src@, width as int, height as int, half as int),
{
    let ghost w = width as int;
    let ghost h = height as int;
    let ghost hh = half as int;
    let ghost target = vertical_pass(src@, w, h, hh);
    let total = width * height;
    let mut out: Vec<u8> = vec![0u8; total];
    let mut x: usize = 0;
    while x < width
        invariant
            w == width as int,
            h == height as int,
            hh == half as int,
            target == vertical_pass(src@, w, h, hh),
            width > 0,
            height > 0,
            total == width * height,
            src.len() >= total,
            height + half <= usize::MAX,
            x <= width,
            out.len() == total,
            forall|i: int| 0 <= i < total ==> out@[i] == (if i % w < x { target[i] } else { 0 }),
        decreases width - x,
    {
        let mut active: usize = 0;
        let init_last = if half < height - 1 { half } else { height - 1 };
        let mut y: usize = 0;
        while y <= init_last
            invariant
                w == width as int,
                h == height as int,
                width > 0,
                x < width,
                init_last < height,
                y <= init_last + 1,
                total == width * height,
                src.len() >= total,
                active == ones_in(src@, x as int, w, 0, y as int),
                active <= y,
            decreases init_last + 1 - y,
        {
            proof {
                lemma_cell_index(w, h, y as int, x as int);
            }
            if src[y * width + x] == 1 {
                active = active + 1;
            }
            y = y + 1;
        }
        assert(init_last as int + 1 == window_hi(0, hh, h));
        let mut y: usize = 0;
        while y < height
            invariant
                w == width as int,
                h == height as int,
                hh == half as int,
                target == vertical_pass(src@, w, h, hh),
                width > 0,
                height > 0,
                x < width,
                y <= height,
                total == width * height,
                src.len() >= total,
                height + half <= usize::MAX,
                out.len() == total,
                active == ones_in(src@, x as int, w, window_lo(y as int, hh), window_hi(y as int, hh, h)),
                active <= height,
                forall|i: int| 0 <= i < total ==> out@[i] == (if i % w < x || (i % w == x && i / w < y) {
                    target[i]
                } else {
                    0
                }),
            decreases height - y,
        {
            let ghost lo = window_lo(y as int, hh);
            let ghost hi = window_hi(y as int, hh, h);
            proof {
                lemma_window_hit(src@, x as int, w, h, y as int, hh);
                lemma_cell_index(w, h, y as int, x as int);
            }
            let idx = y * width + x;
            assert(target[idx as int] == flag(line_hit(src@, x as int, w, h, y as int, hh)));
            let ghost before = out@;
            if active > 0 {
                out[idx] = 1;
            }
            proof {
                assert forall|i: int| 0 <= i < total implies out@[i] == (if i % w < x || (i % w == x
                    && i / w < y + 1) {
                    target[i]
                } else {
                    0
                }) by {
                    lemma_index_split(i, w, h);
                    if i % w == x && i / w == y {
                        assert(i == idx);
                    } else {
                        if i == idx {
                            assert(i % w == x && i / w == y);
                        }
                    }
                }
            }
            if y >= half {
                let out_y = y - half;
                proof {
                    lemma_ones_drop_front(src@, x as int, w, lo, hi);
                    lemma_cell_index(w, h, out_y as int, x as int);
                }
                if src[out_y * width + x] == 1 {
                    active = active - 1;
                }
            } else {
                assert(window_lo(y as int + 1, hh) == 0);
            }
            let in_y = y + half + 1;
            if in_y < height {
                proof {
                    lemma_cell_index(w, h, in_y as int, x as int);
                }
                if src[in_y * width + x] == 1 {
                    active = active + 1;
                }
                assert(window_hi(y as int + 1, hh, h) == hi + 1);
            } else {
                assert(window_hi(y as int + 1, hh, h) == hi);
            }
            proof {
                lemma_ones_bound(src@, x as int, w, window_lo(y as int + 1, hh), window_hi(y as int + 1, hh, h));
            }
            y = y + 1;
        }
        proof {
            assert forall|i: int| 0 <= i < total implies out@[i] == (if i % w < x + 1 {
                target[i]
            } else {
                0
            }) by {
                lemma_index_split(i, w, h);
            }
        }
        x = x + 1;
    }
    proof {
        assert forall|i: int| 0 <= i < total implies out@[i] == target[i] by {
            lemma_index_split(i, w, h);
        }
    }
    assert(out@ =~= target);
    out
}

/// Dilates a binary mask with a square kernel of side `kernel_size`,
/// `iterations` times.  Each iteration is a horizontal sliding-window pass
/// followed by a vertical one; cells holding `1` count as set, and the
/// result holds only `0` and `1`.  An empty mask, or a frame without area,
/// gives an empty result.
pub fn dilate_mask(mask: &[u8], width: usize, height: usize, kernel_size: usize, iterations: usize) -> (r: Vec<u8>)
    requires
        iterations > 0 && mask.len() > 0 && width > 0 && height > 0 ==> {
            &&& width * height <= usize::MAX
            &&& mask.len() >= width * height
            &&& width + kernel_size / 2 <= usize::MAX
            &&& height + kernel_size / 2 <= usize::MAX
        },
    ensures
        r@ == dilated_mask(mask@, width as int, height as int, kernel_size as int, iterations as nat),
{
    if mask.len() == 0 || width == 0 || height == 0 {
        return Vec::new();
    }
    let mut output = vstd::slice::slice_to_vec(mask);
    let half = kernel_size / 2;
    if iterations == 0 {
        return output;
    }
    let mut i: usize = 0;
    while i < iterations
        invariant
            width > 0,
            height > 0,
            mask.len() > 0,
            width * height <= usize::MAX,
            width + half <= usize::MAX,
            height + half <= usize::MAX,
            half == kernel_size / 2,
            i <= iterations,
            iterations > 0 ==> output.len() >= width * height,
            output@ == dilate_iterated(mask@, width as int, height as int, half as int, i as nat),
        decreases iterations - i,
    {
        let temp = horizontal_pass_exec(&output, width, height, half);
        let next = vertical_pass_exec(&temp, width, height, half);
        output = next;
        i = i + 1;
    }
    output
}

/// Blacks out every pixel whose mask cell is set: its RGBA bytes become
/// `(0, 0, 0, 255)`; every other byte keeps its value.
pub fn apply_mask_blackout(rgba: &mut [u8], mask: &[u8], width: usize, height: usize)
    requires
        width * height * 4 <= usize::MAX,
        old(rgba).len() == width * height * 4,
        mask.len() >= width * height,
    ensures
        final(rgba).len() == old(rgba).len(),
        forall|p: int, c: int|
            0 <= p < width * height && 0 <= c < 4 ==> #[trigger] pixel_byte(final(rgba)@, p, c) == if mask@[p] == 1 {
                if c == 3 { 255u8 } else { 0u8 }
            } else {
                pixel_byte(old(rgba)@, p, c)
            },
{
    let total = width * height;
    let mut p: usize = 0;
    while p < total
        invariant
            total == width * height,
            total * 4 <= usize::MAX,
            rgba.len() == old(rgba).len(),
            old(rgba).len() == total * 4,
            mask.len() >= total,
            p <= total,
            forall|q: int, c: int|
                0 <= q < total && 0 <= c < 4 ==> #[trigger] pixel_byte(rgba@, q, c) == if q < p && mask@[q] == 1 {
                    if c == 3 { 255u8 } else { 0u8 }
                } else {
                    pixel_byte(old(rgba)@, q, c)
                },
        decreases total - p,
    {
        let ghost before = rgba@;
        if mask[p] == 1 {
            let px = p * 4;
            rgba[px] = 0;
            rgba[px + 1] = 0;
            rgba[px + 2] = 0;
            rgba[px + 3] = 255;
        }
        proof {
            assert forall|q: int, c: int|
                0 <= q < total && 0 <= c < 4 implies #[trigger] pixel_byte(rgba@, q, c) == if q < p + 1 && mask@[q] == 1 {
                    if c == 3 { 255u8 } else { 0u8 }
                } else {
                    pixel_byte(old(rgba)@, q, c)
                } by {
                assert(pixel_byte(before, q, c) == if q < p && mask@[q] == 1 {
                    if c == 3 { 255u8 } else { 0u8 }
                } else {
                    pixel_byte(old(rgba)@, q, c)
                });
                if q != p {
                    assert(4 * q + c != 4 * p && 4 * q + c != 4 * p + 1 && 4 * q + c != 4 * p + 2 && 4 * q
                        + c != 4 * p + 3);
                    assert(pixel_byte(rgba@, q, c) == pixel_byte(before, q, c));
                }
            }
        }
        p = p + 1;
    }
}

// ---------------------------------------------------------------------------
// Laws of a dilation step
// ---------------------------------------------------------------------------

/// A dilation step is the square-window dilation: the cell at `(x, y)` is set
/// afterwards exactly when some set cell lies at most `half` rows and at most
/// `half` columns away from it.
pub proof fn lemma_dilate_step_square_window(m: Seq<u8>, w: int, h: int, half: int, y: int, x: int)
    requires
        w > 0,
        h > 0,
        half >= 0,
        m.len() >= w * h,
        0 <= y < h,
        0 <= x < w,
    ensures
        dilate_step(m, w, h, half)[y * w + x] == 1 <==> exists|yy: int, xx: int|
            y - half <= yy <= y + half && 0 <= yy < h && x - half <= xx <= x + half && 0 <= xx < w
                && #[trigger] at(m, w, yy, xx) == 1,
{
    let t = horizontal_pass(m, w, h, half);
    lemma_cell_index(w, h, y, x);
    let i = y * w + x;
    assert(dilate_step(m, w, h, half)[i] == flag(line_hit(t, x, w, h, y, half)));
    if line_hit(t, x, w, h, y, half) {
        let k = choose|k: int| y - half <= k <= y + half && 0 <= k < h && #[trigger] cell(t, x, w, k) == 1;
        lemma_cell_index(w, h, k, x);
        assert(x + k * w == k * w + x);
        assert(t[k * w + x] == 1);
        assert(line_hit(m, k * w, 1, w, x, half));
        let j = choose|j: int| x - half <= j <= x + half && 0 <= j < w && #[trigger] cell(m, k * w, 1, j) == 1;
        assert(j * 1 == j);
        assert(at(m, w, k, j) == 1);
    }
    if exists|yy: int, xx: int|
        y - half <= yy <= y + half && 0 <= yy < h && x - half <= xx <= x + half && 0 <= xx < w
            && #[trigger] at(m, w, yy, xx) == 1 {
        let (yy, xx) = choose|yy: int, xx: int|
            y - half <= yy <= y + half && 0 <= yy < h && x - half <= xx <= x + half && 0 <= xx < w
                && #[trigger] at(m, w, yy, xx) == 1;
        lemma_cell_index(w, h, yy, x);
        assert(m[yy * w + xx] == 1);
        assert(cell(m, yy * w, 1, xx) == 1);
        assert(line_hit(m, yy * w, 1, w, x, half));
        assert(t[yy * w + x] == 1);
        assert(cell(t, x, w, yy) == 1);
    }
}

/// A dilation step never clears a set cell, and its result holds only `0`
/// and `1`.
pub proof fn lemma_dilate_step_extensive(m: Seq<u8>, w: int, h: int, half: int, i: int)
    requires
        w > 0,
        h > 0,
        half >= 0,
        m.len() >= w * h,
        0 <= i < w * h,
    ensures
        m[i] == 1 ==> dilate_step(m, w, h, half)[i] == 1,
        dilate_step(m, w, h, half)[i] == 0 || dilate_step(m, w, h, half)[i] == 1,
{
    lemma_index_split(i, w, h);
    let y = i / w;
    let x = i % w;
    lemma_dilate_step_square_window(m, w, h, half, y, x);
    if m[i] == 1 {
        assert(at(m, w, y, x) == 1);
    }
}

proof fn lemma_dilate_iterated_len(m: Seq<u8>, w: int, h: int, half: int, n: nat)
    requires
        w > 0,
        h > 0,
        m.len() >= w * h,
    ensures
        dilate_iterated(m, w, h, half, n).len() >= w * h,
{
    if n > 0 {
        assert(w * h >= 0) by (nonlinear_arith)
            requires
                w > 0,
                h > 0,
        ;
    }
}

/// `n` dilation steps are the square-window dilation of radius `n * half`:
/// the cell at `(x, y)` is set afterwards exactly when some set cell of the
/// original mask lies at most `n * half` rows and at most `n * half` columns
/// away from it.
pub proof fn lemma_dilate_iterated_square_window(m: Seq<u8>, w: int, h: int, half: int, n: nat, y: int, x: int)
    requires
        w > 0,
        h > 0,
        half >= 0,
        m.len() >= w * h,
        0 <= y < h,
        0 <= x < w,
    ensures
        dilate_iterated(m, w, h, half, n)[y * w + x] == 1 <==> exists|yy: int, xx: int|
            y - n * half <= yy <= y + n * half && 0 <= yy < h && x - n * half <= xx <= x + n * half && 0 <= xx
                < w && #[trigger] at(m, w, yy, xx) == 1,
    decreases n,
{
    let r = n * half;
    if n == 0 {
        assert(r == 0);
        if dilate_iterated(m, w, h, half, n)[y * w + x] == 1 {
            assert(at(m, w, y, x) == 1);
        }
    } else {
        let k = (n - 1) as nat;
        let d = dilate_iterated(m, w, h, half, k);
        let rk = k * half;
        assert(r == rk + half) by (nonlinear_arith)
            requires
                r == n * half,
                rk == k * half,
                k == n - 1,
        ;
        assert(rk >= 0) by (nonlinear_arith)
            requires
                rk == k * half,
                k >= 0,
                half >= 0,
        ;
        lemma_dilate_iterated_len(m, w, h, half, k);
        lemma_dilate_step_square_window(d, w, h, half, y, x);
        assert(dilate_iterated(m, w, h, half, n) == dilate_step(d, w, h, half));
        if dilate_iterated(m, w, h, half, n)[y * w + x] == 1 {
            let (y1, x1) = choose|y1: int, x1: int|
                y - half <= y1 <= y + half && 0 <= y1 < h && x - half <= x1 <= x + half && 0 <= x1 < w
                    && #[trigger] at(d, w, y1, x1) == 1;
            lemma_dilate_iterated_square_window(m, w, h, half, k, y1, x1);
            let (y2, x2) = choose|y2: int, x2: int|
                y1 - rk <= y2 <= y1 + rk && 0 <= y2 < h && x1 - rk <= x2 <= x1 + rk && 0 <= x2 < w
                    && #[trigger] at(m, w, y2, x2) == 1;
            assert(y - r <= y2 <= y + r && x - r <= x2 <= x + r);
        }
        if exists|yy: int, xx: int|
            y - r <= yy <= y + r && 0 <= yy < h && x - r <= xx <= x + r && 0 <= xx < w && #[trigger] at(
                m,
                w,
                yy,
                xx,
            ) == 1 {
            let (y2, x2) = choose|yy: int, xx: int|
                y - r <= yy <= y + r && 0 <= yy < h && x - r <= xx <= x + r && 0 <= xx < w && #[trigger] at(
                    m,
                    w,
                    yy,
                    xx,
                ) == 1;
            let y1 = if y2 > y + half { y + half } else if y2 < y - half { y - half } else { y2 };
            let x1 = if x2 > x + half { x + half } else if x2 < x - half { x - half } else { x2 };
            lemma_dilate_iterated_square_window(m, w, h, half, k, y1, x1);
            assert(at(m, w, y2, x2) == 1);
            assert(y1 - rk <= y2 <= y1 + rk && x1 - rk <= x2 <= x1 + rk);
            assert(d[y1 * w + x1] == 1);
            assert(at(d, w, y1, x1) == 1);
        }
    }
}

/// What `dilate_mask` computes, for every number of iterations: on a
/// non-empty `w` by `h` mask, the cell at `(x, y)` of the result is set
/// exactly when some set cell of the input lies at most
/// `iterations * (kernel_size / 2)` rows and at most that many columns away
/// from it. Each iteration widens the reach by `kernel_size / 2`; none is
/// skipped.
pub proof fn lemma_dilated_mask_square_window(
    m: Seq<u8>,
    w: int,
    h: int,
    kernel_size: int,
    iterations: nat,
    y: int,
    x: int,
)
    requires
        w > 0,
        h > 0,
        kernel_size >= 0,
        m.len() >= w * h,
        0 <= y < h,
        0 <= x < w,
    ensures
        dilated_mask(m, w, h, kernel_size, iterations)[y * w + x] == 1 <==> exists|yy: int, xx: int|
            y - iterations * (kernel_size / 2) <= yy <= y + iterations * (kernel_size / 2) && 0 <= yy < h && x
                - iterations * (kernel_size / 2) <= xx <= x + iterations * (kernel_size / 2) && 0 <= xx < w
                && #[trigger] at(m, w, yy, xx) == 1,
{
    lemma_cell_index(w, h, y, x);
    assert(m.len() > 0);
    lemma_dilate_iterated_square_window(m, w, h, kernel_size / 2, iterations, y, x);
}

} // verus!
