//! Comparisons and splitting on UTF-8 text, by its bytes.

use vstd::prelude::*;
use vstd::utf8::*;
use vstd::string::StrSliceExecFns;

verus! {

broadcast use {vstd::utf8::encode_utf8_valid_utf8, vstd::utf8::encode_utf8_decode_utf8};

/// True when `a` and `b` hold the same characters.
pub fn str_eq(a: &str, b: &str) -> (r: bool)
    ensures
        r == (a@ == b@),
{
    let x = a.as_bytes();
    let y = b.as_bytes();
    proof {
        if encode_utf8(a@) == encode_utf8(b@) {
            assert(decode_utf8(encode_utf8(a@)) == a@);
            assert(decode_utf8(encode_utf8(b@)) == b@);
        }
    }
    if x.len() != y.len() {
        return false;
    }
    let mut i: usize = 0;
    while i < x.len()
        invariant
            x.len() == y.len(),
            x@ == encode_utf8(a@),
            y@ == encode_utf8(b@),
            i <= x.len(),
            forall|j: int| 0 <= j < i ==> x@[j] == y@[j],
        decreases x.len() - i,
    {
        if x[i] != y[i] {
            return false;
        }
        i = i + 1;
    }
    assert(x@ =~= y@);
    true
}

/// True when the characters of `s` begin with those of `prefix`.
pub fn starts_with(s: &str, prefix: &str) -> (r: bool)
    ensures
        r == (prefix@.len() <= s@.len() && s@.subrange(0, prefix@.len() as int) == prefix@),
{
    let n = prefix.unicode_len();
    let m = s.unicode_len();
    if n > m {
        return false;
    }
    let mut i: usize = 0;
    while i < n
        invariant
            n == prefix@.len(),
            m == s@.len(),
            n <= m,
            i <= n,
            forall|j: int| 0 <= j < i ==> s@[j] == prefix@[j],
        decreases n - i,
    {
        if s.get_char(i) != prefix.get_char(i) {
            return false;
        }
        i = i + 1;
    }
    assert(s@.subrange(0, n as int) =~= prefix@);
    true
}

/// After a byte below `0x80` in valid UTF-8, the next position is a
/// character boundary.
pub proof fn lemma_boundary_after_ascii(b: Seq<u8>, i: int)
    requires
        valid_utf8(b),
        0 <= i < b.len(),
        b[i] < 0x80,
    ensures
        is_char_boundary(b, i + 1),
    decreases b.len(),
{
    is_char_boundary_iff_not_is_continuation_byte(b, i);
    let l = length_of_first_scalar(b);
    let pop = pop_first_scalar(b);
    assert(valid_first_scalar(b) && valid_utf8(pop));
    assert(1 <= l <= 4 && l <= b.len());
    if i == 0 {
        assert(l == 1);
        assert(is_char_boundary(pop, 0));
        assert(is_char_boundary(b, 1));
    } else {
        assert(is_char_boundary(b, i) == is_char_boundary(pop, i - l));
        if i - l < 0 {
            assert(!is_char_boundary(pop, i - l));
        }
        assert(pop[i - l] == b[i]);
        lemma_boundary_after_ascii(pop, i - l);
        assert(is_char_boundary(b, i + 1) == is_char_boundary(pop, i + 1 - l));
    }
}

/// The copy of bytes `start..end` of `s`, where both positions sit next to
/// an ASCII byte or at an end of the text.
pub fn ascii_delimited_piece(s: &str, start: usize, end: usize) -> (r: String)
    requires
        start <= end <= encode_utf8(s@).len(),
        start == 0 || encode_utf8(s@)[start - 1] < 0x80,
        end == encode_utf8(s@).len() || encode_utf8(s@)[end as int] < 0x80,
    ensures
        encode_utf8(r@) == encode_utf8(s@).subrange(start as int, end as int),
{
    let ghost b = encode_utf8(s@);
    proof {
        if start > 0 {
            lemma_boundary_after_ascii(b, start - 1);
        }
    }
    let (_, tail) = s.split_at(start);
    proof {
        valid_utf8_split(b, start as int);
        let t = encode_utf8(tail@);
        if end as int == b.len() {
            is_char_boundary_start_end_of_seq(t);
        } else {
            assert(t[end - start] == b[end as int]);
            is_char_boundary_iff_not_is_continuation_byte(t, end - start);
        }
    }
    let (piece, _) = tail.split_at(end - start);
    assert(encode_utf8(piece@) =~= b.subrange(start as int, end as int));
    piece.to_owned()
}

/// Where the piece that ends at position `n` starts, pieces being delimited
/// by byte `sep`.
pub open spec fn piece_start(b: Seq<u8>, sep: u8, n: int) -> int
    decreases n,
{
    if n <= 0 {
        0
    } else if b[n - 1] == sep {
        n
    } else {
        piece_start(b, sep, n - 1)
    }
}

/// The pieces that a `sep` among the first `n` bytes closes, as byte ranges.
pub open spec fn closed_pieces(b: Seq<u8>, sep: u8, n: int) -> Seq<(int, int)>
    decreases n,
{
    if n <= 0 {
        Seq::empty()
    } else if b[n - 1] == sep {
        closed_pieces(b, sep, n - 1).push((piece_start(b, sep, n - 1), n - 1))
    } else {
        closed_pieces(b, sep, n - 1)
    }
}

/// The pieces of `b` between occurrences of `sep`, empty ones included, as
/// byte ranges in order: one more piece than there are separators.
pub open spec fn split_ranges(b: Seq<u8>, sep: u8) -> Seq<(int, int)> {
    closed_pieces(b, sep, b.len() as int).push((piece_start(b, sep, b.len() as int), b.len() as int))
}

proof fn lemma_piece_start(b: Seq<u8>, sep: u8, n: int)
    requires
        0 <= n <= b.len(),
    ensures
        0 <= piece_start(b, sep, n) <= n,
        piece_start(b, sep, n) == 0 || b[piece_start(b, sep, n) - 1] == sep,
    decreases n,
{
    if n > 0 && b[n - 1] != sep {
        lemma_piece_start(b, sep, n - 1);
    }
}

/// Splits `s` at every occurrence of the ASCII byte `sep`; each piece is
/// returned as a string, empty pieces included.
pub fn split_ascii(s: &str, sep: u8) -> (r: Vec<String>)
    requires
        sep < 0x80,
    ensures
        r.len() == split_ranges(encode_utf8(s@), sep).len(),
        forall|k: int|
            #![trigger r@[k]]
            0 <= k < r.len() ==> encode_utf8(r@[k]@) == encode_utf8(s@).subrange(
                split_ranges(encode_utf8(s@), sep)[k].0,
                split_ranges(encode_utf8(s@), sep)[k].1,
            ),
{
    let ghost b = encode_utf8(s@);
    let bytes = s.as_bytes();
    let len = bytes.len();
    let mut out: Vec<String> = Vec::new();
    let mut start: usize = 0;
    let mut i: usize = 0;
    while i < len
        invariant
            b == encode_utf8(s@),
            bytes@ == b,
            len == b.len(),
            sep < 0x80,
            i <= len,
            start <= i,
            start == piece_start(b, sep, i as int),
            out.len() == closed_pieces(b, sep, i as int).len(),
            forall|k: int|
                #![trigger out@[k]]
                0 <= k < out.len() ==> encode_utf8(out@[k]@) == b.subrange(
                    closed_pieces(b, sep, i as int)[k].0,
                    closed_pieces(b, sep, i as int)[k].1,
                ),
        decreases len - i,
    {
        proof {
            lemma_piece_start(b, sep, i as int);
        }
        if bytes[i] == sep {
            assert(b[i as int] == sep);
            assert(start == 0 || b[start - 1] < 0x80);
            assert(closed_pieces(b, sep, i + 1) == closed_pieces(b, sep, i as int).push((start as int, i as int)));
            let piece = ascii_delimited_piece(s, start, i);
            let ghost prev = out@;
            out.push(piece);
            proof {
                assert forall|k: int|
                    #![trigger out@[k]]
                    0 <= k < out.len() implies encode_utf8(out@[k]@) == b.subrange(
                        closed_pieces(b, sep, i + 1)[k].0,
                        closed_pieces(b, sep, i + 1)[k].1,
                    ) by {
                    if k < prev.len() {
                        assert(out@[k] == prev[k]);
                    }
                }
            }
            start = i + 1;
        }
        i = i + 1;
    }
    proof {
        lemma_piece_start(b, sep, len as int);
    }
    let last = ascii_delimited_piece(s, start, len);
    let ghost prev = out@;
    out.push(last);
    proof {
        let ranges = split_ranges(b, sep);
        assert forall|k: int|
            #![trigger out@[k]]
            0 <= k < out.len() implies encode_utf8(out@[k]@) == b.subrange(ranges[k].0, ranges[k].1) by {
            if k < prev.len() {
                assert(out@[k] == prev[k]);
            }
        }
    }
    out
}

/// ASCII lowercase of a byte.
pub open spec fn ascii_lower(b: u8) -> u8 {
    if 65 <= b <= 90 { (b + 32) as u8 } else { b }
}

/// True when `a` and `b` are equal up to ASCII case: the same number of
/// bytes, equal after mapping ASCII uppercase letters to lowercase.
pub open spec fn eq_ascii_case_insensitive(a: Seq<u8>, b: Seq<u8>) -> bool {
    a.len() == b.len() && forall|i: int| 0 <= i < a.len() ==> ascii_lower(#[trigger] a[i]) == ascii_lower(b[i])
}

/// Checks that two strings are an ASCII case-insensitive match.
pub fn eq_ignore_ascii_case(a: &str, b: &str) -> (r: bool)
    ensures
        r == eq_ascii_case_insensitive(encode_utf8(a@), encode_utf8(b@)),
{
    let x = a.as_bytes();
    let y = b.as_bytes();
    if x.len() != y.len() {
        return false;
    }
    let mut i: usize = 0;
    while i < x.len()
        invariant
            x.len() == y.len(),
            x@ == encode_utf8(a@),
            y@ == encode_utf8(b@),
            i <= x.len(),
            forall|j: int| 0 <= j < i ==> ascii_lower(#[trigger] x@[j]) == ascii_lower(y@[j]),
        decreases x.len() - i,
    {
        let p = x[i];
        let q = y[i];
        let lp = if 65 <= p && p <= 90 { p + 32 } else { p };
        let lq = if 65 <= q && q <= 90 { q + 32 } else { q };
        if lp != lq {
            return false;
        }
        i = i + 1;
    }
    true
}

/// The given pieces of `b`, with a `sep` between each two.
pub open spec fn rejoined_pieces(b: Seq<u8>, sep: u8, pieces: Seq<(int, int)>) -> Seq<u8>
    decreases pieces.len(),
{
    if pieces.len() == 0 {
        Seq::empty()
    } else if pieces.len() == 1 {
        b.subrange(pieces[0].0, pieces[0].1)
    } else {
        rejoined_pieces(b, sep, pieces.drop_last()) + seq![sep] + b.subrange(pieces.last().0, pieces.last().1)
    }
}

proof fn lemma_piece_run(b: Seq<u8>, sep: u8, n: int)
    requires
        0 <= n <= b.len(),
    ensures
        forall|j: int| piece_start(b, sep, n) <= j < n ==> #[trigger] b[j] != sep,
    decreases n,
{
    if n > 0 && b[n - 1] != sep {
        lemma_piece_run(b, sep, n - 1);
    }
}

proof fn lemma_pieces_upto(b: Seq<u8>, sep: u8, n: int)
    requires
        0 <= n <= b.len(),
    ensures
        rejoined_pieces(b, sep, closed_pieces(b, sep, n).push((piece_start(b, sep, n), n))) == b.subrange(0, n),
        forall|k: int, j: int|
            #![trigger closed_pieces(b, sep, n).push((piece_start(b, sep, n), n))[k], b[j]]
            0 <= k < closed_pieces(b, sep, n).len() + 1 && closed_pieces(b, sep, n).push(
                (piece_start(b, sep, n), n),
            )[k].0 <= j < closed_pieces(b, sep, n).push((piece_start(b, sep, n), n))[k].1 ==> b[j] != sep,
    decreases n,
{
    let c = closed_pieces(b, sep, n);
    let l = c.push((piece_start(b, sep, n), n));
    lemma_piece_start(b, sep, n);
    lemma_piece_run(b, sep, n);
    assert(l.drop_last() =~= c);
    if n == 0 {
        assert(b.subrange(0, 0) =~= Seq::<u8>::empty());
        assert(rejoined_pieces(b, sep, l) =~= Seq::<u8>::empty());
    } else {
        lemma_pieces_upto(b, sep, n - 1);
        lemma_piece_start(b, sep, n - 1);
        let pc = closed_pieces(b, sep, n - 1);
        let p = pc.push((piece_start(b, sep, n - 1), n - 1));
        let rs = piece_start(b, sep, n - 1);
        let t = b.subrange(rs, n - 1);
        assert(p.drop_last() =~= pc);
        assert(b.subrange(0, n) =~= b.subrange(0, n - 1).push(b[n - 1]));
        if b[n - 1] == sep {
            assert(c == p);
            assert(b.subrange(n, n) =~= Seq::<u8>::empty());
            assert(rejoined_pieces(b, sep, l) =~= rejoined_pieces(b, sep, p) + seq![sep] + Seq::<u8>::empty());
        } else {
            assert(c == pc);
            assert(b.subrange(rs, n) =~= t.push(b[n - 1]));
            if c.len() == 0 {
                assert(rejoined_pieces(b, sep, p) == t);
                assert(rejoined_pieces(b, sep, l) == b.subrange(rs, n));
            } else {
                let r = rejoined_pieces(b, sep, c);
                assert(rejoined_pieces(b, sep, p) == r + seq![sep] + t);
                assert(rejoined_pieces(b, sep, l) == r + seq![sep] + b.subrange(rs, n));
                assert(r + seq![sep] + t.push(b[n - 1]) =~= (r + seq![sep] + t).push(b[n - 1]));
            }
        }
        assert forall|k: int, j: int|
            #![trigger l[k], b[j]]
            0 <= k < c.len() + 1 && l[k].0 <= j < l[k].1 implies b[j] != sep by {
            if k < c.len() {
                assert(l[k] == c[k]);
                if b[n - 1] == sep {
                    assert(p[k] == c[k]);
                } else {
                    assert(p[k] == c[k]);
                }
            }
        }
    }
}

/// Splitting loses nothing: there is one piece more than there are
/// separators, no piece holds the separator, and the pieces joined with the
/// separator give the text back.
pub proof fn lemma_split_rejoins(b: Seq<u8>, sep: u8)
    ensures
        split_ranges(b, sep).len() >= 1,
        rejoined_pieces(b, sep, split_ranges(b, sep)) == b,
        forall|k: int, j: int|
            #![trigger split_ranges(b, sep)[k], b[j]]
            0 <= k < split_ranges(b, sep).len() && split_ranges(b, sep)[k].0 <= j < split_ranges(b, sep)[k].1
                ==> b[j] != sep,
{
    lemma_pieces_upto(b, sep, b.len() as int);
    assert(b.subrange(0, b.len() as int) =~= b);
}

/// Matching up to ASCII case folds exactly the letters `A` to `Z` onto `a`
/// to `z`: it is reflexive and symmetric, an upper-case letter matches its
/// lower-case form, and two different bytes that are not such a pair never
/// match.
pub proof fn lemma_ascii_case_match(a: Seq<u8>, b: Seq<u8>, x: u8, y: u8)
    ensures
        eq_ascii_case_insensitive(a, a),
        eq_ascii_case_insensitive(a, b) == eq_ascii_case_insensitive(b, a),
        65 <= x <= 90 ==> ascii_lower(x) == x + 32,
        !(65 <= x <= 90) ==> ascii_lower(x) == x,
        ascii_lower(x) == ascii_lower(y) <==> (x == y || (65 <= x <= 90 && y == x + 32) || (65 <= y <= 90 && x
            == y + 32)),
{
}

} // verus!
