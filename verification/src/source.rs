//! Sources of raw text chunks, and the in-memory plain-text source.

use vstd::prelude::*;
use vstd::utf8::*;
use crate::types::{Offset, RawChunk, ReaderResult};
use crate::text::lemma_boundary_after_ascii;

verus! {

broadcast use vstd::utf8::encode_utf8_valid_utf8;

/// Outcome of a `try_pull_chunk` operation.
#[derive(Debug, Clone, PartialEq)]
pub enum PullOutcome {
    /// A raw chunk was pulled.
    Chunk(RawChunk),
    /// No chunk was available within the timeout.
    Empty,
    /// The source has reached the end of the document.
    Eos,
}

/// A source of raw text chunks.
pub trait TextSource: Send + Sync {
    /// Try to pull the next raw chunk within the given timeout.
    fn try_pull_chunk(&mut self, timeout: std::time::Duration) -> PullOutcome;

    /// Seek to a byte offset of the document; the next pull returns the
    /// chunk at or after it.
    fn seek(&mut self, offset: Offset) -> ReaderResult<()>;
}

/// The newline byte.
pub open spec fn is_newline(b: u8) -> bool {
    b == 10
}

/// Where the run of non-newline bytes that ends at position `n` starts.
pub open spec fn run_start(b: Seq<u8>, n: int) -> int
    decreases n,
{
    if n <= 0 {
        0
    } else if is_newline(b[n - 1]) {
        n
    } else {
        run_start(b, n - 1)
    }
}

/// The lines (byte ranges `start..end`, newline excluded, empty ones
/// included) that a newline among the first `n` bytes closes, in order.
pub open spec fn closed_lines(b: Seq<u8>, n: int) -> Seq<(int, int)>
    decreases n,
{
    if n <= 0 {
        Seq::empty()
    } else if is_newline(b[n - 1]) {
        closed_lines(b, n - 1).push((run_start(b, n - 1), n - 1))
    } else {
        closed_lines(b, n - 1)
    }
}

/// The lines of the first `n` bytes: those a newline closes, then the
/// (possibly empty) line that runs up to position `n`.
pub open spec fn lines_upto(b: Seq<u8>, n: int) -> Seq<(int, int)> {
    closed_lines(b, n).push((run_start(b, n), n))
}

/// The lines of `b`: the pieces between `\n` bytes, as byte ranges, in
/// order, empty ones included. A text with `m` newlines has `m + 1` lines;
/// the empty text has one empty line.
pub open spec fn split_lines(b: Seq<u8>) -> Seq<(int, int)> {
    lines_upto(b, b.len() as int)
}

/// The offset of line `k` in the document with newlines removed: the summed
/// lengths of the lines before it.
pub open spec fn line_offset(lines: Seq<(int, int)>, k: int) -> int
    decreases k,
{
    if k <= 0 {
        0
    } else {
        line_offset(lines, k - 1) + (lines[k - 1].1 - lines[k - 1].0)
    }
}

/// The end offset of line `k` in the document with newlines removed.
pub open spec fn line_end(lines: Seq<(int, int)>, k: int) -> int {
    line_offset(lines, k + 1)
}

/// True when line `k` is reached by a seek to `target`: it ends after
/// `target`, or starts at or after it.
pub open spec fn reaches(lines: Seq<(int, int)>, k: int, target: int) -> bool {
    line_end(lines, k) > target || line_offset(lines, k) >= target
}

/// True when `pos` is where a seek to `target` leaves the source: the first
/// line that ends after `target` or starts at or after it, or past the last
/// line when there is none.
pub open spec fn seek_position(lines: Seq<(int, int)>, target: int, pos: int) -> bool {
    &&& 0 <= pos <= lines.len()
    &&& forall|k: int| 0 <= k < pos ==> !#[trigger] reaches(lines, k, target)
    &&& pos < lines.len() ==> reaches(lines, pos, target)
}

/// True when `ranges` and `offsets` record `lines` of `b`: each line's byte
/// range and its offset, every line ending before `limit` and delimited by
/// newlines.
pub open spec fn lines_recorded(
    b: Seq<u8>,
    ranges: Seq<(usize, usize)>,
    offsets: Seq<Offset>,
    lines: Seq<(int, int)>,
    limit: int,
) -> bool {
    &&& ranges.len() == lines.len()
    &&& offsets.len() == lines.len()
    &&& forall|k: int|
        0 <= k < lines.len() ==> {
            &&& #[trigger] ranges[k].0 == lines[k].0
            &&& ranges[k].1 == lines[k].1
            &&& offsets[k].0 == line_offset(lines, k)
            &&& lines[k].0 <= lines[k].1 < limit
            &&& (lines[k].0 == 0 || is_newline(b[lines[k].0 - 1]))
            &&& is_newline(b[lines[k].1])
            &&& line_end(lines, k) <= lines[k].1
        }
}

/// A source over a plain text held in memory.
///
/// The text is split at its newlines into lines (newlines dropped, empty
/// lines kept), each returned as one raw chunk. A chunk's offset counts the
/// bytes of the lines before it, so the chunks tile the text with its
/// newlines removed, and joined with newlines they give the text back.
pub struct LocalFileSource {
    content: String,
    line_offsets: Vec<Offset>,
    line_ranges: Vec<(usize, usize)>,
    current_idx: usize,
}

impl LocalFileSource {
    /// The characters of the text.
    pub closed spec fn text(&self) -> Seq<char> {
        self.content@
    }

    /// The lines of the text, as byte ranges.
    pub open spec fn lines(&self) -> Seq<(int, int)> {
        split_lines(encode_utf8(self.text()))
    }

    /// The index of the next line to return.
    pub closed spec fn position(&self) -> int {
        self.current_idx as int
    }

    /// The position is never before the first line.
    pub proof fn lemma_position_nonneg(&self)
        ensures
            0 <= self.position(),
    {
    }

    #[verifier::type_invariant]
    closed spec fn well_formed(&self) -> bool {
        let b = encode_utf8(self.content@);
        let lines = split_lines(b);
        &&& b.len() <= usize::MAX
        &&& self.line_ranges@.len() == lines.len()
        &&& self.line_offsets@.len() == lines.len()
        &&& forall|k: int|
            0 <= k < lines.len() ==> {
                &&& #[trigger] self.line_ranges@[k].0 == lines[k].0
                &&& self.line_ranges@[k].1 == lines[k].1
                &&& self.line_offsets@[k].0 == line_offset(lines, k)
                &&& lines[k].0 <= lines[k].1 <= b.len()
                &&& (lines[k].0 == 0 || is_newline(b[lines[k].0 - 1]))
                &&& (lines[k].1 == b.len() || is_newline(b[lines[k].1]))
                &&& line_end(lines, k) <= b.len()
            }
    }

    /// Builds a source over `content`, positioned at its first line.
    pub fn from_content(content: String) -> (r: LocalFileSource)
        ensures
            r.text() == content@,
            r.position() == 0,
    {
        let ghost b = encode_utf8(content@);
        let bytes = content.as_str().as_bytes();
        let len = bytes.len();
        let mut line_ranges: Vec<(usize, usize)> = Vec::new();
        let mut line_offsets: Vec<Offset> = Vec::new();
        let mut start: usize = 0;
        let mut acc: u64 = 0;
        let mut i: usize = 0;
        while i < len
            invariant
                bytes@ == b,
                len == b.len(),
                i <= len,
                start <= i,
                start == run_start(b, i as int),
                acc <= start,
                acc == line_offset(closed_lines(b, i as int), closed_lines(b, i as int).len() as int),
                lines_recorded(b, line_ranges@, line_offsets@, closed_lines(b, i as int), i as int),
            decreases len - i,
        {
            let ghost prev = closed_lines(b, i as int);
            let ghost start0 = start;
            assert(start == 0 || is_newline(b[start - 1])) by {
                lemma_run_start(b, i as int);
            }
            if bytes[i] == 10 {
                let ghost next = prev.push((start as int, i as int));
                assert(closed_lines(b, i + 1) == next);
                let ghost old_ranges = line_ranges@;
                let ghost old_offsets = line_offsets@;
                line_ranges.push((start, i));
                line_offsets.push(Offset(acc));
                proof {
                    lemma_record_push(b, old_ranges, old_offsets, prev, i as int, start as int, i as int, acc as int);
                    assert(line_ranges@ == old_ranges.push((start, i)));
                    assert(line_offsets@ == old_offsets.push(Offset(acc)));
                }
                acc = acc + (i - start) as u64;
                start = i + 1;
            }
            proof {
                if !is_newline(b[i as int]) {
                    assert(closed_lines(b, i + 1) == prev);
                    lemma_record_widen(b, line_ranges@, line_offsets@, prev, i as int, i + 1);
                }
            }
            assert(lines_recorded(b, line_ranges@, line_offsets@, closed_lines(b, i + 1), i + 1));
            i = i + 1;
        }
        let ghost closed = closed_lines(b, len as int);
        let ghost lines = split_lines(b);
        assert(start == 0 || is_newline(b[start - 1])) by {
            lemma_run_start(b, len as int);
        }
        let ghost old_ranges = line_ranges@;
        let ghost old_offsets = line_offsets@;
        line_ranges.push((start, len));
        line_offsets.push(Offset(acc));
        proof {
            assert(lines == closed.push((start as int, len as int)));
            assert(lines.drop_last() =~= closed);
            assert forall|k: int| 0 <= k < closed.len() implies line_offset(lines, k) == line_offset(closed, k)
                && line_end(lines, k) == line_end(closed, k) by {
                lemma_line_offset_prefix(lines, k);
                lemma_line_offset_prefix(lines, k + 1);
            }
            lemma_line_offset_prefix(lines, closed.len() as int);
            assert forall|k: int| 0 <= k < lines.len() implies {
                &&& #[trigger] line_ranges@[k].0 == lines[k].0
                &&& line_ranges@[k].1 == lines[k].1
                &&& line_offsets@[k].0 == line_offset(lines, k)
                &&& lines[k].0 <= lines[k].1 <= b.len()
                &&& (lines[k].0 == 0 || is_newline(b[lines[k].0 - 1]))
                &&& (lines[k].1 == b.len() || is_newline(b[lines[k].1]))
                &&& line_end(lines, k) <= b.len()
            } by {
                if k < closed.len() {
                    assert(old_ranges[k].0 == closed[k].0);
                    assert(line_ranges@[k] == old_ranges[k]);
                    assert(line_offsets@[k] == old_offsets[k]);
                }
            }
        }
        LocalFileSource { content, line_offsets, line_ranges, current_idx: 0 }
    }

    /// The number of lines.
    pub fn line_count(&self) -> (r: usize)
        ensures
            r == self.lines().len(),
    {
        proof {
            use_type_invariant(self);
        }
        self.line_offsets.len()
    }

    /// The full text.
    pub fn content(&self) -> (r: &str)
        ensures
            r@ == self.text(),
    {
        self.content.as_str()
    }
}

impl TextSource for LocalFileSource {
    /// Returns the line at the current position as a raw chunk (generation
    /// 0) and advances, or `Eos` once every line has been returned.
    fn try_pull_chunk(&mut self, _timeout: std::time::Duration) -> (r: PullOutcome)
        ensures
            final(self).text() == old(self).text(),
            old(self).position() >= old(self).lines().len() ==> r is Eos && final(self).position() == old(
                self,
            ).position(),
            old(self).position() < old(self).lines().len() ==> {
                let lines = old(self).lines();
                let k = old(self).position();
                &&& final(self).position() == k + 1
                &&& r matches PullOutcome::Chunk(c)
                &&& c.offset.0 == line_offset(lines, k)
                &&& encode_utf8(c.data@) == encode_utf8(old(self).text()).subrange(lines[k].0, lines[k].1)
                &&& c.generation == 0
            },
    {
        proof {
            use_type_invariant(&*self);
        }
        let idx = self.current_idx;
        if idx >= self.line_ranges.len() {
            return PullOutcome::Eos;
        }
        let (start, end) = self.line_ranges[idx];
        let offset = self.line_offsets[idx];
        let s = self.content.as_str();
        let ghost b = encode_utf8(self.content@);
        let ghost lines = split_lines(b);
        proof {
            assert(self.line_ranges@[idx as int].0 == lines[idx as int].0);
            if start > 0 {
                lemma_boundary_after_ascii(b, start - 1);
            }
        }
        let (_, tail) = s.split_at(start);
        proof {
            vstd::utf8::valid_utf8_split(b, start as int);
            let t = encode_utf8(tail@);
            if end as int == b.len() {
                vstd::utf8::is_char_boundary_start_end_of_seq(t);
            } else {
                assert(t[end - start] == b[end as int]);
                vstd::utf8::is_char_boundary_iff_not_is_continuation_byte(t, end - start);
            }
        }
        let (piece, _) = tail.split_at(end - start);
        assert(encode_utf8(piece@) =~= b.subrange(start as int, end as int));
        let data = piece.to_owned();
        assert(self.well_formed());
        self.current_idx = idx + 1;
        PullOutcome::Chunk(RawChunk { offset, data, generation: 0 })
    }

    /// Positions the source at the first line that ends after `offset` or
    /// starts at or after it (past the last line when there is none); never
    /// fails.
    fn seek(&mut self, offset: Offset) -> (r: ReaderResult<()>)
        ensures
            r is Ok,
            final(self).text() == old(self).text(),
            seek_position(old(self).lines(), offset.0 as int, final(self).position()),
    {
        let k = self.first_line_reaching(offset.0);
        proof {
            use_type_invariant(&*self);
        }
        assert(self.well_formed());
        self.current_idx = k;
        Ok(())
    }
}

impl LocalFileSource {
    /// The index of the first line that ends after `target` or starts at or
    /// after it, or the number of lines when there is none.
    fn first_line_reaching(&self, target: u64) -> (k: usize)
        ensures
            seek_position(self.lines(), target as int, k as int),
    {
        proof {
            use_type_invariant(self);
        }
        let ghost lines = self.lines();
        let ghost ranges = self.line_ranges@;
        let ghost offsets = self.line_offsets@;
        assert forall|j: int|
            #![trigger ranges[j]]
            0 <= j < lines.len() implies ranges[j].0 == lines[j].0 && ranges[j].1 == lines[j].1 && offsets[j].0
                == line_offset(lines, j) && lines[j].0 <= lines[j].1 && line_end(lines, j) <= usize::MAX by {
            assert(self.line_ranges@[j].0 == lines[j].0);
        }
        let n = self.line_ranges.len();
        let mut k: usize = 0;
        while k < n
            invariant_except_break
                n == lines.len(),
                ranges == self.line_ranges@,
                offsets == self.line_offsets@,
                k <= n,
                ranges.len() == lines.len(),
                offsets.len() == lines.len(),
                forall|j: int|
                    #![trigger ranges[j]]
                    0 <= j < lines.len() ==> ranges[j].0 == lines[j].0 && ranges[j].1 == lines[j].1 && offsets[j].0
                        == line_offset(lines, j) && lines[j].0 <= lines[j].1 && line_end(lines, j) <= usize::MAX,
            invariant
                forall|j: int| 0 <= j < k ==> !#[trigger] reaches(lines, j, target as int),
            ensures
                k <= n,
                forall|j: int| 0 <= j < k ==> !#[trigger] reaches(lines, j, target as int),
                k < n ==> reaches(lines, k as int, target as int),
            decreases n - k,
        {
            let (s, e) = self.line_ranges[k];
            assert(ranges[k as int].0 == lines[k as int].0);
            assert(usize::MAX <= u64::MAX);
            let start = self.line_offsets[k].0;
            let end = start + (e - s) as u64;
            if end > target || start >= target {
                break;
            }
            k = k + 1;
        }
        k
    }
}

proof fn lemma_closed_lines_ordered(b: Seq<u8>, n: int)
    ensures
        forall|k: int|
            #![trigger closed_lines(b, n)[k]]
            0 <= k < closed_lines(b, n).len() ==> 0 <= closed_lines(b, n)[k].0 <= closed_lines(b, n)[k].1 < n,
    decreases n,
{
    if n > 0 {
        lemma_closed_lines_ordered(b, n - 1);
        let prev = closed_lines(b, n - 1);
        lemma_run_start_bounds(b, n - 1);
        assert forall|k: int|
            #![trigger closed_lines(b, n)[k]]
            0 <= k < closed_lines(b, n).len() implies 0 <= closed_lines(b, n)[k].0 <= closed_lines(b, n)[k].1
                < n by {
            if k < prev.len() {
                assert(closed_lines(b, n)[k] == prev[k]);
            }
        }
    }
}

proof fn lemma_run_start_bounds(b: Seq<u8>, n: int)
    ensures
        0 <= run_start(b, n),
        n >= 0 ==> run_start(b, n) <= n,
    decreases n,
{
    if n > 0 && !is_newline(b[n - 1]) {
        lemma_run_start_bounds(b, n - 1);
    }
}

/// Every line of a text is a byte range within it, start before end.
pub proof fn lemma_split_lines_within(b: Seq<u8>)
    ensures
        forall|k: int|
            #![trigger split_lines(b)[k]]
            0 <= k < split_lines(b).len() ==> 0 <= split_lines(b)[k].0 <= split_lines(b)[k].1 <= b.len(),
{
    let c = closed_lines(b, b.len() as int);
    lemma_closed_lines_ordered(b, b.len() as int);
    lemma_run_start_bounds(b, b.len() as int);
    assert forall|k: int|
        #![trigger split_lines(b)[k]]
        0 <= k < split_lines(b).len() implies 0 <= split_lines(b)[k].0 <= split_lines(b)[k].1 <= b.len() by {
        if k < c.len() {
            assert(split_lines(b)[k] == c[k]);
        }
    }
}

proof fn lemma_line_offset_grows(lines: Seq<(int, int)>, i: int, j: int)
    requires
        0 <= i <= j <= lines.len(),
        forall|k: int| #![trigger lines[k]] 0 <= k < lines.len() ==> lines[k].0 <= lines[k].1,
    ensures
        line_offset(lines, i) <= line_offset(lines, j),
    decreases j - i,
{
    if i < j {
        lemma_line_offset_grows(lines, i, j - 1);
        assert(lines[j - 1].0 <= lines[j - 1].1);
    }
}

/// Seeking to the offset at which a line starts, where no earlier line
/// starts there too (earlier lines at the same offset are empty), leaves the
/// source at that line, so the next pull returns it.
pub proof fn lemma_seek_to_line_offset(text: Seq<char>, k: int, pos: int)
    requires
        0 <= k < split_lines(encode_utf8(text)).len(),
        k == 0 || line_offset(split_lines(encode_utf8(text)), k - 1) < line_offset(
            split_lines(encode_utf8(text)),
            k,
        ),
        seek_position(split_lines(encode_utf8(text)), line_offset(split_lines(encode_utf8(text)), k), pos),
    ensures
        pos == k,
{
    let lines = split_lines(encode_utf8(text));
    lemma_split_lines_within(encode_utf8(text));
    let target = line_offset(lines, k);
    assert(reaches(lines, k, target));
    if pos < k {
        lemma_line_offset_grows(lines, pos + 1, k);
        lemma_line_offset_grows(lines, pos, k - 1);
        assert(!reaches(lines, pos, target));
    }
    if pos > k {
        assert(!reaches(lines, k, target));
    }
}

/// A seek to offset 0 leaves the source where a new one starts, at its
/// first line: pulls after it repeat the document from the beginning.
pub proof fn lemma_seek_to_zero_restarts(text: Seq<char>, pos: int)
    requires
        seek_position(split_lines(encode_utf8(text)), 0, pos),
    ensures
        pos == 0,
{
    let lines = split_lines(encode_utf8(text));
    if pos > 0 {
        assert(reaches(lines, 0, 0));
        assert(!reaches(lines, 0, 0));
    }
}

proof fn lemma_record_widen(
    b: Seq<u8>,
    ranges: Seq<(usize, usize)>,
    offsets: Seq<Offset>,
    lines: Seq<(int, int)>,
    limit: int,
    limit2: int,
)
    requires
        lines_recorded(b, ranges, offsets, lines, limit),
        limit <= limit2,
    ensures
        lines_recorded(b, ranges, offsets, lines, limit2),
{
}

proof fn lemma_record_push(
    b: Seq<u8>,
    ranges: Seq<(usize, usize)>,
    offsets: Seq<Offset>,
    lines: Seq<(int, int)>,
    limit: int,
    s: int,
    e: int,
    acc: int,
)
    requires
        lines_recorded(b, ranges, offsets, lines, limit),
        limit <= e + 1,
        0 <= s <= e < b.len(),
        s == 0 || is_newline(b[s - 1]),
        is_newline(b[e]),
        acc == line_offset(lines, lines.len() as int),
        acc <= s,
        0 <= acc <= u64::MAX,
        e <= usize::MAX,
    ensures
        lines_recorded(
            b,
            ranges.push((s as usize, e as usize)),
            offsets.push(Offset(acc as u64)),
            lines.push((s, e)),
            e + 1,
        ),
        line_offset(lines.push((s, e)), lines.len() as int + 1) == acc + (e - s),
{
    let next = lines.push((s, e));
    let r2 = ranges.push((s as usize, e as usize));
    let o2 = offsets.push(Offset(acc as u64));
    assert(next.drop_last() =~= lines);
    lemma_line_offset_prefix(next, lines.len() as int);
    assert forall|k: int| 0 <= k < lines.len() implies line_offset(next, k) == line_offset(lines, k)
        && line_end(next, k) == line_end(lines, k) by {
        lemma_line_offset_prefix(next, k);
        lemma_line_offset_prefix(next, k + 1);
    }
    assert forall|k: int| 0 <= k < next.len() implies {
        &&& #[trigger] r2[k].0 == next[k].0
        &&& r2[k].1 == next[k].1
        &&& o2[k].0 == line_offset(next, k)
        &&& next[k].0 <= next[k].1 < e + 1
        &&& (next[k].0 == 0 || is_newline(b[next[k].0 - 1]))
        &&& is_newline(b[next[k].1])
        &&& line_end(next, k) <= next[k].1
    } by {
        if k < lines.len() {
            assert(ranges[k].0 == lines[k].0);
        }
    }
}

proof fn lemma_run_start(b: Seq<u8>, n: int)
    requires
        0 <= n <= b.len(),
    ensures
        0 <= run_start(b, n) <= n,
        run_start(b, n) == 0 || is_newline(b[run_start(b, n) - 1]),
        forall|j: int| run_start(b, n) <= j < n ==> !is_newline(#[trigger] b[j]),
    decreases n,
{
    if n > 0 && !is_newline(b[n - 1]) {
        lemma_run_start(b, n - 1);
    }
}

proof fn lemma_line_offset_prefix(lines: Seq<(int, int)>, k: int)
    requires
        0 <= k <= lines.len(),
    ensures
        forall|n: int| k <= n <= lines.len() ==> line_offset(lines.subrange(0, n), k) == line_offset(lines, k),
        lines.len() > 0 && k < lines.len() ==> line_offset(lines.drop_last(), k) == line_offset(lines, k),
    decreases k,
{
    if k > 0 {
        lemma_line_offset_prefix(lines, k - 1);
        assert forall|n: int| k <= n <= lines.len() implies line_offset(lines.subrange(0, n), k) == line_offset(
            lines,
            k,
        ) by {
            assert(lines.subrange(0, n)[k - 1] == lines[k - 1]);
        }
        if lines.len() > 0 && k < lines.len() {
            assert(lines.drop_last()[k - 1] == lines[k - 1]);
        }
    }
}

/// The bytes of `b` with every newline removed.
pub open spec fn without_newlines(b: Seq<u8>) -> Seq<u8>
    decreases b.len(),
{
    if b.len() == 0 {
        Seq::empty()
    } else if is_newline(b.last()) {
        without_newlines(b.drop_last())
    } else {
        without_newlines(b.drop_last()).push(b.last())
    }
}

/// The bytes of the given lines of `b`, one after another.
pub open spec fn joined_lines(b: Seq<u8>, lines: Seq<(int, int)>) -> Seq<u8>
    decreases lines.len(),
{
    if lines.len() == 0 {
        Seq::empty()
    } else {
        joined_lines(b, lines.drop_last()) + b.subrange(lines.last().0, lines.last().1)
    }
}

/// The bytes of the given lines of `b`, with a newline between each two.
pub open spec fn rejoined_lines(b: Seq<u8>, lines: Seq<(int, int)>) -> Seq<u8>
    decreases lines.len(),
{
    if lines.len() == 0 {
        Seq::empty()
    } else if lines.len() == 1 {
        b.subrange(lines[0].0, lines[0].1)
    } else {
        rejoined_lines(b, lines.drop_last()) + seq![10u8] + b.subrange(lines.last().0, lines.last().1)
    }
}

proof fn lemma_prefix_tiles(b: Seq<u8>, n: int)
    requires
        0 <= n <= b.len(),
    ensures
        joined_lines(b, lines_upto(b, n)) == without_newlines(b.subrange(0, n)),
        rejoined_lines(b, lines_upto(b, n)) == b.subrange(0, n),
    decreases n,
{
    let l = lines_upto(b, n);
    let c = closed_lines(b, n);
    lemma_run_start(b, n);
    assert(l.drop_last() =~= c);
    assert(l.last() == (run_start(b, n), n));
    if n == 0 {
        assert(b.subrange(0, 0) =~= Seq::<u8>::empty());
        assert(l.len() == 1);
        assert(c.len() == 0);
        assert(joined_lines(b, c) =~= Seq::<u8>::empty());
        assert(joined_lines(b, l) =~= Seq::<u8>::empty());
        assert(rejoined_lines(b, l) =~= Seq::<u8>::empty());
    } else {
        lemma_prefix_tiles(b, n - 1);
        lemma_run_start(b, n - 1);
        let pre = b.subrange(0, n);
        assert(pre.drop_last() =~= b.subrange(0, n - 1));
        assert(pre.last() == b[n - 1]);
        let p = lines_upto(b, n - 1);
        let rs = run_start(b, n - 1);
        let t = b.subrange(rs, n - 1);
        assert(p.drop_last() =~= closed_lines(b, n - 1));
        assert(p.last() == (rs, n - 1));
        let jp = joined_lines(b, closed_lines(b, n - 1));
        assert(joined_lines(b, p) == jp + t);
        if is_newline(b[n - 1]) {
            assert(c == p);
            assert(b.subrange(n, n) =~= Seq::<u8>::empty());
            assert(joined_lines(b, l) =~= joined_lines(b, c));
            assert(l.len() > 1);
            assert(rejoined_lines(b, l) =~= rejoined_lines(b, p) + seq![10u8] + Seq::<u8>::empty());
            assert(b.subrange(0, n) =~= b.subrange(0, n - 1).push(b[n - 1]));
        } else {
            assert(c == closed_lines(b, n - 1));
            assert(run_start(b, n) == rs);
            assert(b.subrange(rs, n) =~= t.push(b[n - 1]));
            assert(joined_lines(b, l) =~= jp + t.push(b[n - 1]));
            assert(jp + t.push(b[n - 1]) =~= (jp + t).push(b[n - 1]));
            if c.len() == 0 {
                assert(rejoined_lines(b, p) == t);
                assert(rejoined_lines(b, l) == b.subrange(rs, n));
            } else {
                let r = rejoined_lines(b, c);
                assert(rejoined_lines(b, p) == r + seq![10u8] + t);
                assert(rejoined_lines(b, l) == r + seq![10u8] + b.subrange(rs, n));
                assert(r + seq![10u8] + t.push(b[n - 1]) =~= (r + seq![10u8] + t).push(b[n - 1]));
            }
            assert(b.subrange(0, n) =~= b.subrange(0, n - 1).push(b[n - 1]));
        }
    }
}

/// The lines of a text, one after another, are the text with its newlines
/// removed: the chunks a source returns tile that text.
pub proof fn lemma_lines_tile_text(b: Seq<u8>)
    ensures
        joined_lines(b, split_lines(b)) == without_newlines(b),
{
    lemma_prefix_tiles(b, b.len() as int);
    assert(b.subrange(0, b.len() as int) =~= b);
}

/// A text has one line more than it has newlines, no line holds a newline,
/// and the lines joined with newlines give the text back: each line, empty
/// ones included, is one chunk.
pub proof fn lemma_lines_rejoin_text(b: Seq<u8>)
    ensures
        split_lines(b).len() >= 1,
        rejoined_lines(b, split_lines(b)) == b,
        forall|k: int, j: int|
            #![trigger split_lines(b)[k], b[j]]
            0 <= k < split_lines(b).len() && split_lines(b)[k].0 <= j < split_lines(b)[k].1 ==> !is_newline(b[j]),
{
    lemma_prefix_tiles(b, b.len() as int);
    assert(b.subrange(0, b.len() as int) =~= b);
    lemma_lines_free_of_newlines(b, b.len() as int);
    lemma_split_lines_within(b);
}

proof fn lemma_lines_free_of_newlines(b: Seq<u8>, n: int)
    requires
        0 <= n <= b.len(),
    ensures
        forall|k: int, j: int|
            #![trigger lines_upto(b, n)[k], b[j]]
            0 <= k < lines_upto(b, n).len() && lines_upto(b, n)[k].0 <= j < lines_upto(b, n)[k].1 ==> !is_newline(
                b[j],
            ),
    decreases n,
{
    lemma_run_start(b, n);
    lemma_closed_lines_ordered(b, n);
    if n > 0 {
        lemma_lines_free_of_newlines(b, n - 1);
        let l = lines_upto(b, n);
        let p = lines_upto(b, n - 1);
        let c = closed_lines(b, n);
        assert forall|k: int, j: int|
            #![trigger l[k], b[j]]
            0 <= k < l.len() && l[k].0 <= j < l[k].1 implies !is_newline(b[j]) by {
            if k < c.len() {
                assert(l[k] == c[k]);
                if is_newline(b[n - 1]) {
                    assert(c == p);
                    assert(p[k] == c[k]);
                } else {
                    assert(c == closed_lines(b, n - 1));
                    assert(p[k] == c[k]);
                }
            }
        }
    }
}

/// Each chunk starts where the one before it ends: the first line starts at
/// offset 0, and line `k + 1` starts the byte length of line `k` after line
/// `k`.
pub proof fn lemma_chunks_contiguous(b: Seq<u8>, k: int)
    requires
        0 <= k < split_lines(b).len(),
    ensures
        line_offset(split_lines(b), 0) == 0,
        line_offset(split_lines(b), k + 1) == line_offset(split_lines(b), k) + b.subrange(
            split_lines(b)[k].0,
            split_lines(b)[k].1,
        ).len(),
{
    lemma_split_lines_within(b);
}

/// The offset of line `k` is the number of bytes in the lines before it, so
/// each chunk starts where the one before it ends.
pub proof fn lemma_line_offset_counts_earlier_lines(b: Seq<u8>, k: int)
    requires
        0 <= k <= split_lines(b).len(),
    ensures
        line_offset(split_lines(b), k) == joined_lines(b, split_lines(b).subrange(0, k)).len(),
    decreases k,
{
    let lines = split_lines(b);
    if k == 0 {
        assert(lines.subrange(0, 0) =~= Seq::<(int, int)>::empty());
    } else {
        lemma_line_offset_counts_earlier_lines(b, k - 1);
        lemma_split_lines_within(b);
        let sub = lines.subrange(0, k);
        assert(sub.drop_last() =~= lines.subrange(0, k - 1));
        assert(sub.last() == lines[k - 1]);
    }
}

} // verus!
