//! The layout of the DOM feature tensor: which tag slot a node's tag
//! selects, and how the node rows are truncated or padded into a
//! fixed-width, row-major tensor.

use vstd::prelude::*;
use crate::text::str_eq;

verus! {

/// The HTML tags that get a slot of their own, in slot order.
pub open spec fn tag_list() -> Seq<Seq<char>> {
    seq![
        "div"@, "p"@, "span"@, "a"@, "img"@, "button"@, "input"@, "li"@, "ul"@, "ol"@, "h1"@,
        "h2"@, "h3"@, "h4"@, "h5"@, "h6"@, "section"@, "article"@, "nav"@, "header"@,
        "footer"@,
    ]
}

/// The number of tags in `tag_list`.
pub const TAG_COUNT: usize = 21usize;

/// The width of the tag part of a feature row.
pub const TAG_SLOTS: usize = 20usize;

/// The tag in slot `i` of the list.
fn tag_at(i: usize) -> (r: &'static str)
    requires
        i < TAG_COUNT,
    ensures
        r@ == tag_list()[i as int],
{
    match i {
        0 => "div",
        1 => "p",
        2 => "span",
        3 => "a",
        4 => "img",
        5 => "button",
        6 => "input",
        7 => "li",
        8 => "ul",
        9 => "ol",
        10 => "h1",
        11 => "h2",
        12 => "h3",
        13 => "h4",
        14 => "h5",
        15 => "h6",
        16 => "section",
        17 => "article",
        18 => "nav",
        19 => "header",
        _ => "footer",
    }
}

/// The position of a tag in the list: the first slot that holds it, or
/// `None` for a tag that is not listed.
pub fn tag_index(tag: &str) -> (r: Option<usize>)
    ensures
        match r {
            Some(i) => i < TAG_COUNT && tag_list()[i as int] == tag@ && forall|j: int|
                0 <= j < i ==> #[trigger] tag_list()[j] != tag@,
            None => forall|j: int| 0 <= j < TAG_COUNT ==> #[trigger] tag_list()[j] != tag@,
        },
{
    let mut i: usize = 0;
    while i < TAG_COUNT
        invariant
            i <= TAG_COUNT,
            forall|j: int| 0 <= j < i ==> #[trigger] tag_list()[j] != tag@,
        decreases TAG_COUNT - i,
    {
        if str_eq(tag_at(i), tag) {
            return Some(i);
        }
        i = i + 1;
    }
    None
}

/// A row of `len` slots, all `zero` but slot `index`, which holds `one`.
pub open spec fn one_hot_spec<T>(index: Option<usize>, len: nat, one: T, zero: T) -> Seq<T> {
    Seq::new(
        len,
        |j: int|
            if index == Some(j as usize) {
                one
            } else {
                zero
            },
    )
}

/// The one-hot row for a slot index (all `zero` for `None`).
pub fn one_hot<T: Copy>(index: Option<usize>, len: usize, one: T, zero: T) -> (r: Vec<T>)
    requires
        index matches Some(i) ==> i < len,
    ensures
        r@ == one_hot_spec(index, len as nat, one, zero),
{
    let mut v: Vec<T> = Vec::new();
    let mut j: usize = 0;
    while j < len
        invariant
            j <= len,
            v@ =~= one_hot_spec(index, len as nat, one, zero).subrange(0, j as int),
        decreases len - j,
    {
        let is_hot = match index {
            Some(i) => i == j,
            None => false,
        };
        if is_hot {
            v.push(one);
        } else {
            v.push(zero);
        }
        j = j + 1;
    }
    v
}

/// Row `i` of the tensor: the node's features cut or padded with `zero` to
/// `width` slots; a row past the last node is all `zero`.
pub open spec fn padded_row<T>(rows: Seq<Seq<T>>, i: int, width: nat, zero: T) -> Seq<T> {
    Seq::new(
        width,
        |j: int|
            if i < rows.len() && j < rows[i].len() {
                rows[i][j]
            } else {
                zero
            },
    )
}

/// The rows one after another.
pub open spec fn concat_rows<T>(rows: Seq<Seq<T>>) -> Seq<T>
    decreases rows.len(),
{
    if rows.len() == 0 {
        Seq::empty()
    } else {
        concat_rows(rows.drop_last()) + rows.last()
    }
}

/// The tensor: `count` rows of `width` slots each.
pub open spec fn tensor_spec<T>(rows: Seq<Seq<T>>, count: nat, width: nat, zero: T) -> Seq<T> {
    concat_rows(Seq::new(count, |i: int| padded_row(rows, i, width, zero)))
}

/// The views of the rows.
pub open spec fn row_views<T>(rows: Seq<Vec<T>>) -> Seq<Seq<T>> {
    rows.map_values(|r: Vec<T>| r@)
}

/// The tensor of `count` rows of `width` slots, in row-major order, that
/// the node rows fill: row `i` holds node `i`'s features cut or padded to
/// `width`, and rows past the last node are all `zero`.
pub fn lay_out_rows<T: Copy>(rows: &Vec<Vec<T>>, count: usize, width: usize, zero: T) -> (r: Vec<T>)
    ensures
        r@ == tensor_spec(row_views(rows@), count as nat, width as nat, zero),
{
    let ghost all = Seq::new(count as nat, |i: int| padded_row(row_views(rows@), i, width as nat, zero));
    let mut out: Vec<T> = Vec::new();
    let mut i: usize = 0;
    while i < count
        invariant
            i <= count,
            all == Seq::new(count as nat, |i: int| padded_row(row_views(rows@), i, width as nat, zero)),
            out@ == concat_rows(all.subrange(0, i as int)),
        decreases count - i,
    {
        let ghost before = out@;
        let mut j: usize = 0;
        while j < width
            invariant
                i < count,
                j <= width,
                all == Seq::new(count as nat, |i: int| padded_row(row_views(rows@), i, width as nat, zero)),
                before == concat_rows(all.subrange(0, i as int)),
                out@ =~= before + padded_row(row_views(rows@), i as int, width as nat, zero).subrange(0, j as int),
            decreases width - j,
        {
            let value = if i < rows.len() && j < rows[i].len() {
                rows[i][j]
            } else {
                zero
            };
            proof {
                if i < rows.len() {
                    assert(row_views(rows@)[i as int] == rows@[i as int]@);
                }
            }
            out.push(value);
            j = j + 1;
        }
        proof {
            let next = all.subrange(0, i as int + 1);
            assert(next.drop_last() =~= all.subrange(0, i as int));
            assert(padded_row(row_views(rows@), i as int, width as nat, zero).subrange(0, width as int)
                =~= padded_row(row_views(rows@), i as int, width as nat, zero));
        }
        i = i + 1;
    }
    assert(all.subrange(0, count as int) =~= all);
    out
}

/// The tag slots, in order: `div`, `p`, `span`, `a`, `img`, `button`,
/// `input`, `li`, `ul`, `ol`, `h1` to `h6`, `section`, `article`, `nav`,
/// `header`, `footer`; so `tag_index` gives each of these tags its place in
/// that order (`li` is slot 7, `ul` slot 8, `footer` slot 20).
pub proof fn lemma_tag_slots()
    ensures
        tag_list().len() == 21,
        tag_list()[0] == "div"@,
        tag_list()[1] == "p"@,
        tag_list()[2] == "span"@,
        tag_list()[3] == "a"@,
        tag_list()[4] == "img"@,
        tag_list()[5] == "button"@,
        tag_list()[6] == "input"@,
        tag_list()[7] == "li"@,
        tag_list()[8] == "ul"@,
        tag_list()[9] == "ol"@,
        tag_list()[10] == "h1"@,
        tag_list()[11] == "h2"@,
        tag_list()[12] == "h3"@,
        tag_list()[13] == "h4"@,
        tag_list()[14] == "h5"@,
        tag_list()[15] == "h6"@,
        tag_list()[16] == "section"@,
        tag_list()[17] == "article"@,
        tag_list()[18] == "nav"@,
        tag_list()[19] == "header"@,
        tag_list()[20] == "footer"@,
{
}

proof fn lemma_concat_uniform_rows<T>(s: Seq<Seq<T>>, w: int)
    requires
        w >= 0,
        forall|k: int| 0 <= k < s.len() ==> (#[trigger] s[k]).len() == w,
    ensures
        concat_rows(s).len() == s.len() * w,
        forall|i: int, j: int|
            0 <= i < s.len() && 0 <= j < w ==> concat_rows(s)[i * w + j] == #[trigger] s[i][j],
    decreases s.len(),
{
    if s.len() > 0 {
        let p = s.drop_last();
        assert forall|k: int| 0 <= k < p.len() implies (#[trigger] p[k]).len() == w by {
            assert(p[k] == s[k]);
        }
        lemma_concat_uniform_rows(p, w);
        let n = s.len() as int;
        assert(s.len() * w == p.len() * w + w) by (nonlinear_arith)
            requires
                p.len() == n - 1,
                s.len() == n,
        ;
        assert forall|i: int, j: int| 0 <= i < s.len() && 0 <= j < w implies concat_rows(s)[i * w + j]
            == #[trigger] s[i][j] by {
            if i < n - 1 {
                assert(i * w + j < p.len() * w) by (nonlinear_arith)
                    requires
                        0 <= i < n - 1,
                        0 <= j < w,
                        p.len() == n - 1,
                ;
                assert(0 <= i * w) by (nonlinear_arith)
                    requires
                        0 <= i,
                        0 <= w,
                ;
                assert(p[i] == s[i]);
            } else {
                assert(i * w == p.len() * w) by (nonlinear_arith)
                    requires
                        i == n - 1,
                        p.len() == n - 1,
                ;
            }
        }
    }
}

/// The tensor's layout: it holds `count * width` values, and the value at
/// row `i`, column `j` (position `i * width + j`) is column `j` of node
/// row `i` when that node and column exist, `zero` otherwise. Rows are never
/// shifted: a short node row is padded, a long one cut, a missing one zero.
pub proof fn lemma_tensor_layout<T>(rows: Seq<Seq<T>>, count: nat, width: nat, zero: T, i: int, j: int)
    requires
        0 <= i < count,
        0 <= j < width,
    ensures
        tensor_spec(rows, count, width, zero).len() == count * width,
        tensor_spec(rows, count, width, zero)[i * width + j] == (if i < rows.len() && j < rows[i].len() {
            rows[i][j]
        } else {
            zero
        }),
{
    let s = Seq::new(count, |k: int| padded_row(rows, k, width, zero));
    assert forall|k: int| 0 <= k < s.len() implies (#[trigger] s[k]).len() == width by {
        assert(s[k] == padded_row(rows, k, width, zero));
    }
    lemma_concat_uniform_rows(s, width as int);
    assert(s[i][j] == padded_row(rows, i, width, zero)[j]);
}

} // verus!
