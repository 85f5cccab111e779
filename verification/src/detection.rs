//! Blacking out detected bounding boxes in an RGBA frame.

use vstd::prelude::*;
use crate::mask::{pixel_byte, lemma_cell_index, lemma_index_split};

verus! {

/// An axis-aligned box in pixel coordinates: top-left corner `(x, y)`,
/// width `w` and height `h`.
#[derive(Debug, Clone, Copy)]
pub struct BoundingBox {
    pub x: u32,
    pub y: u32,
    pub w: u32,
    pub h: u32,
}

/// A frame filter that blacks out each of `boxes`, grown by `margin` pixels
/// on every side and clipped to the frame.
pub struct BoundingBoxBlackout {
    pub boxes: Vec<BoundingBox>,
    pub margin: u32,
}

/// Why a frame could not be filtered.
#[derive(Debug, PartialEq, Eq)]
pub enum FrameError {
    /// The buffer does not hold `width * height * 4` bytes.
    SizeMismatch { expected: usize, actual: usize },
}

/// The value byte `c` of a blacked-out pixel takes: opaque black.
pub open spec fn black_byte(c: int) -> u8 {
    if c == 3 { 255u8 } else { 0u8 }
}

/// A `u32` value read as an `i32` (values above `i32::MAX` wrap around to
/// negative ones).
pub open spec fn wrap_i32(v: int) -> int {
    if v > i32::MAX { v - 0x1_0000_0000 } else { v }
}

/// True when pixel `(px, py)` lies inside box `b` grown by `margin`, with
/// the box's edges and the margin read as `i32`.
pub open spec fn box_covers(b: BoundingBox, margin: int, px: int, py: int) -> bool {
    &&& wrap_i32(b.x as int) - wrap_i32(margin) <= px < wrap_i32(b.x + b.w) + wrap_i32(margin)
    &&& wrap_i32(b.y as int) - wrap_i32(margin) <= py < wrap_i32(b.y + b.h) + wrap_i32(margin)
}

/// True when one of the first `n` boxes, grown by `margin`, covers `(px, py)`.
pub open spec fn covered(boxes: Seq<BoundingBox>, n: int, margin: int, px: int, py: int) -> bool {
    exists|j: int| 0 <= j < n && #[trigger] box_covers(boxes[j], margin, px, py)
}

/// True when growing the box stays within the arithmetic the filter
/// performs: the far edges fit a `u32`, and the grown edges, computed on
/// the `i32` readings, fit an `i32`.
pub open spec fn box_fits(b: BoundingBox, margin: int) -> bool {
    &&& b.x + b.w <= u32::MAX
    &&& b.y + b.h <= u32::MAX
    &&& i32::MIN <= wrap_i32(b.x as int) - wrap_i32(margin) <= i32::MAX
    &&& i32::MIN <= wrap_i32(b.y as int) - wrap_i32(margin) <= i32::MAX
    &&& i32::MIN <= wrap_i32(b.x + b.w) + wrap_i32(margin) <= i32::MAX
    &&& i32::MIN <= wrap_i32(b.y + b.h) + wrap_i32(margin) <= i32::MAX
}

/// `v` clamped into `0..=hi`.
pub open spec fn clip(v: int, hi: int) -> int {
    if v < 0 { 0 } else if v > hi { hi } else { v }
}

/// True when the rows the filter draws for box `b` keep their byte
/// positions within `i32`: the last drawn row ends at most at `i32::MAX`.
/// A box that clips to nothing draws nothing.
pub open spec fn box_rows_fit(b: BoundingBox, margin: int, width: int, height: int) -> bool {
    let x0 = clip(wrap_i32(b.x as int) - wrap_i32(margin), width);
    let x1 = clip(wrap_i32(b.x + b.w) + wrap_i32(margin), width);
    let y0 = clip(wrap_i32(b.y as int) - wrap_i32(margin), height);
    let y1 = clip(wrap_i32(b.y + b.h) + wrap_i32(margin), height);
    x0 < x1 && y0 < y1 ==> ((y1 - 1) * width + x1) * 4 <= i32::MAX
}

/// `v` read as an `i32`, widened to `i64`.
fn wrap_to_i32(v: u32) -> (r: i64)
    ensures
        r == wrap_i32(v as int),
{
    if v > 0x7fff_ffff {
        v as i64 - 0x1_0000_0000i64
    } else {
        v as i64
    }
}

/// The frame after blacking out: a pixel inside some grown box becomes opaque
/// black, every other byte is unchanged.
pub open spec fn blacked_out(old: Seq<u8>, new: Seq<u8>, boxes: Seq<BoundingBox>, margin: int, width: int, height: int) -> bool {
    &&& new.len() == old.len()
    &&& forall|p: int, c: int|
        0 <= p < width * height && 0 <= c < 4 ==> #[trigger] pixel_byte(new, p, c) == if covered(
            boxes,
            boxes.len() as int,
            margin,
            p % width,
            p / width,
        ) {
            black_byte(c)
        } else {
            pixel_byte(old, p, c)
        }
}

/// Blacks out the rectangle of pixels `x0..x1` by `y0..y1`.
fn blacken_rect(rgba: &mut [u8], width: usize, height: usize, x0: usize, x1: usize, y0: usize, y1: usize)
    requires
        width > 0,
        width * height * 4 <= usize::MAX,
        old(rgba).len() == width * height * 4,
        x0 <= x1 <= width,
        y0 <= y1 <= height,
    ensures
        final(rgba).len() == old(rgba).len(),
        forall|p: int, c: int|
            0 <= p < width * height && 0 <= c < 4 ==> #[trigger] pixel_byte(final(rgba)@, p, c) == if x0 <= p
                % (width as int) < x1 && y0 <= p / (width as int) < y1 {
                black_byte(c)
            } else {
                pixel_byte(old(rgba)@, p, c)
            },
{
    let ghost w = width as int;
    let ghost h = height as int;
    let ghost total = w * h;
    let mut y: usize = y0;
    while y < y1
        invariant
            w == width as int,
            h == height as int,
            total == w * h,
            width > 0,
            width * height * 4 <= usize::MAX,
            rgba.len() == old(rgba).len(),
            old(rgba).len() == width * height * 4,
            x0 <= x1 <= width,
            y0 <= y <= y1 <= height,
            forall|p: int, c: int|
                0 <= p < total && 0 <= c < 4 ==> #[trigger] pixel_byte(rgba@, p, c) == if x0 <= p % w < x1 && y0
                    <= p / w < y {
                    black_byte(c)
                } else {
                    pixel_byte(old(rgba)@, p, c)
                },
        decreases y1 - y,
    {
        let mut x: usize = x0;
        while x < x1
            invariant
                w == width as int,
                h == height as int,
                total == w * h,
                width > 0,
                width * height * 4 <= usize::MAX,
                rgba.len() == old(rgba).len(),
                old(rgba).len() == width * height * 4,
                x0 <= x <= x1 <= width,
                y0 <= y < y1 <= height,
                forall|p: int, c: int|
                    0 <= p < total && 0 <= c < 4 ==> #[trigger] pixel_byte(rgba@, p, c) == if (x0 <= p % w < x1
                        && y0 <= p / w < y) || (p / w == y && x0 <= p % w < x) {
                        black_byte(c)
                    } else {
                        pixel_byte(old(rgba)@, p, c)
                    },
            decreases x1 - x,
        {
            proof {
                lemma_cell_index(w, h, y as int, x as int);
                assert((y as int * w + x as int) * 4 + 4 <= total * 4) by (nonlinear_arith)
                    requires
                        y as int * w + x as int + 1 <= total,
                ;
            }
            let p = y * width + x;
            let ghost before = rgba@;
            let px = p * 4;
            rgba[px] = 0;
            rgba[px + 1] = 0;
            rgba[px + 2] = 0;
            rgba[px + 3] = 255;
            proof {
                assert forall|q: int, c: int| 0 <= q < total && 0 <= c < 4 implies #[trigger] pixel_byte(
                    rgba@,
                    q,
                    c,
                ) == if (x0 <= q % w < x1 && y0 <= q / w < y) || (q / w == y && x0 <= q % w < x + 1) {
                    black_byte(c)
                } else {
                    pixel_byte(old(rgba)@, q, c)
                } by {
                    assert(pixel_byte(before, q, c) == if (x0 <= q % w < x1 && y0 <= q / w < y) || (q / w == y
                        && x0 <= q % w < x) {
                        black_byte(c)
                    } else {
                        pixel_byte(old(rgba)@, q, c)
                    });
                    lemma_index_split(q, w, h);
                    if q == p {
                    } else {
                        assert(4 * q + c != 4 * p && 4 * q + c != 4 * p + 1 && 4 * q + c != 4 * p + 2 && 4 * q
                            + c != 4 * p + 3);
                        assert(pixel_byte(rgba@, q, c) == pixel_byte(before, q, c));
                        if q / w == y && q % w == x {
                            assert(q == q / w * w + q % w);
                        }
                    }
                }
            }
            x = x + 1;
        }
        proof {
            assert forall|p: int, c: int| 0 <= p < total && 0 <= c < 4 implies #[trigger] pixel_byte(rgba@, p, c)
                == if x0 <= p % w < x1 && y0 <= p / w < y + 1 {
                black_byte(c)
            } else {
                pixel_byte(old(rgba)@, p, c)
            } by {
                lemma_index_split(p, w, h);
            }
        }
        y = y + 1;
    }
}

/// Clamps `v` into `0..=hi`.
fn clamp_i64(v: i64, hi: i64) -> (r: i64)
    requires
        hi >= 0,
    ensures
        r == (if v < 0 { 0 } else if v > hi { hi } else { v }),
{
    if v < 0 {
        0
    } else if v > hi {
        hi
    } else {
        v
    }
}

impl BoundingBoxBlackout {
    /// True when every box stays within the filter's signed 32-bit
    /// arithmetic on a `width` by `height` frame: growing it does not
    /// overflow, and the rows it draws keep their byte positions in range.
    pub open spec fn fits(&self, width: int, height: int) -> bool {
        forall|j: int|
            0 <= j < self.boxes@.len() ==> #[trigger] box_fits(self.boxes@[j], self.margin as int) && box_rows_fit(
                self.boxes@[j],
                self.margin as int,
                width,
                height,
            )
    }

    /// Blacks out every box of `self.boxes` (grown by `self.margin`, clipped
    /// to the frame) in the RGBA frame `rgba` of `width` by `height` pixels.
    /// A buffer whose length is not `width * height * 4` is refused and left
    /// untouched. Box edges and the margin are read as `i32`, as the pixel
    /// arithmetic reads them. The frame's byte count must fit a `u32`, and
    /// on a frame of the right size each box must stay within that
    /// arithmetic (`fits`).
    pub fn filter_frame(&self, rgba: &mut [u8], width: u32, height: u32) -> (r: Result<(), FrameError>)
        requires
            width * height * 4 <= u32::MAX,
            old(rgba).len() == width * height * 4 ==> self.fits(width as int, height as int),
        ensures
            old(rgba).len() != width * height * 4 ==> r == Err::<(), FrameError>(
                FrameError::SizeMismatch { expected: (width * height * 4) as usize, actual: old(rgba).len() },
            ) && final(rgba)@ == old(rgba)@,
            old(rgba).len() == width * height * 4 ==> r is Ok && blacked_out(
                old(rgba)@,
                final(rgba)@,
                self.boxes@,
                self.margin as int,
                width as int,
                height as int,
            ),
    {
        let w = width as usize;
        let h = height as usize;
        proof {
            assert(w * h * 4 <= u32::MAX);
        }
        let expected = w * h * 4;
        if rgba.len() != expected {
            return Err(FrameError::SizeMismatch { expected, actual: rgba.len() });
        }
        if w == 0 {
            proof {
                assert(w * h == 0) by (nonlinear_arith)
                    requires
                        w == 0,
                ;
            }
            return Ok(());
        }
        let ghost gw = w as int;
        let ghost gh = h as int;
        let ghost total = gw * gh;
        let margin = wrap_to_i32(self.margin);
        let wi = w as i64;
        let hi = h as i64;
        let mut i: usize = 0;
        while i < self.boxes.len()
            invariant
                gw == w as int,
                gh == h as int,
                total == gw * gh,
                w > 0,
                w * h * 4 <= u32::MAX,
                rgba.len() == old(rgba).len(),
                old(rgba).len() == w * h * 4,
                margin == wrap_i32(self.margin as int),
                wi == w as int,
                hi == h as int,
                self.fits(w as int, h as int),
                i <= self.boxes.len(),
                forall|p: int, c: int|
                    0 <= p < total && 0 <= c < 4 ==> #[trigger] pixel_byte(rgba@, p, c) == if covered(
                        self.boxes@,
                        i as int,
                        self.margin as int,
                        p % gw,
                        p / gw,
                    ) {
                        black_byte(c)
                    } else {
                        pixel_byte(old(rgba)@, p, c)
                    },
            decreases self.boxes.len() - i,
        {
            let b = self.boxes[i];
            proof {
                assert(box_fits(self.boxes@[i as int], self.margin as int));
            }
            let x0 = clamp_i64(wrap_to_i32(b.x) - margin, wi);
            let y0 = clamp_i64(wrap_to_i32(b.y) - margin, hi);
            let x1 = clamp_i64(wrap_to_i32(b.x + b.w) + margin, wi);
            let y1 = clamp_i64(wrap_to_i32(b.y + b.h) + margin, hi);
            let ghost before = rgba@;
            if x0 < x1 && y0 < y1 {
                blacken_rect(rgba, w, h, x0 as usize, x1 as usize, y0 as usize, y1 as usize);
            }
            proof {
                assert forall|p: int, c: int| 0 <= p < total && 0 <= c < 4 implies #[trigger] pixel_byte(
                    rgba@,
                    p,
                    c,
                ) == if covered(self.boxes@, i as int + 1, self.margin as int, p % gw, p / gw) {
                    black_byte(c)
                } else {
                    pixel_byte(old(rgba)@, p, c)
                } by {
                    lemma_index_split(p, gw, gh);
                    let px = p % gw;
                    let py = p / gw;
                    assert(pixel_byte(before, p, c) == if covered(self.boxes@, i as int, self.margin as int, px, py) {
                        black_byte(c)
                    } else {
                        pixel_byte(old(rgba)@, p, c)
                    });
                    let now = box_covers(self.boxes@[i as int], self.margin as int, px, py);
                    assert(now <==> (x0 <= px < x1 && y0 <= py < y1));
                    if covered(self.boxes@, i as int + 1, self.margin as int, px, py) {
                        if !now {
                            let j = choose|j: int|
                                0 <= j < i + 1 && #[trigger] box_covers(self.boxes@[j], self.margin as int, px, py);
                            assert(j < i);
                        }
                    } else {
                        assert(!now);
                        if covered(self.boxes@, i as int, self.margin as int, px, py) {
                            let j = choose|j: int|
                                0 <= j < i && #[trigger] box_covers(self.boxes@[j], self.margin as int, px, py);
                            assert(0 <= j < i + 1);
                        }
                    }
                    if now {
                        assert(covered(self.boxes@, i as int + 1, self.margin as int, px, py)) by {
                            assert(box_covers(self.boxes@[i as int], self.margin as int, px, py));
                        }
                    }
                }
            }
            i = i + 1;
        }
        Ok(())
    }
}

/// Blacking out is idempotent: blacking out the same boxes in a frame
/// that was already blacked out changes nothing.
pub proof fn lemma_blackout_idempotent(
    frame: Seq<u8>,
    once: Seq<u8>,
    twice: Seq<u8>,
    boxes: Seq<BoundingBox>,
    margin: int,
    width: int,
    height: int,
)
    requires
        width >= 0,
        height >= 0,
        frame.len() == width * height * 4,
        blacked_out(frame, once, boxes, margin, width, height),
        blacked_out(once, twice, boxes, margin, width, height),
    ensures
        twice == once,
{
    assert forall|k: int| 0 <= k < once.len() implies #[trigger] twice[k] == once[k] by {
        let p = k / 4;
        let c = k % 4;
        assert(0 <= p < width * height);
        assert(4 * p + c == k);
        assert(pixel_byte(twice, p, c) == pixel_byte(once, p, c));
    }
    assert(twice =~= once);
}

/// The grown box in ordinary coordinates: when the box's edges and the
/// margin fit an `i32`, pixel `(px, py)` is covered exactly when it lies
/// within `margin` pixels of the box, `x - margin <= px < x + w + margin` and
/// likewise for rows. Without a margin that is the box itself.
pub proof fn lemma_box_covers_plain(b: BoundingBox, margin: int, px: int, py: int)
    requires
        0 <= margin <= i32::MAX,
        b.x + b.w <= i32::MAX,
        b.y + b.h <= i32::MAX,
    ensures
        box_covers(b, margin, px, py) <==> (b.x - margin <= px < b.x + b.w + margin && b.y - margin <= py < b.y
            + b.h + margin),
        box_covers(b, 0, px, py) <==> (b.x <= px < b.x + b.w && b.y <= py < b.y + b.h),
{
}

} // verus!
