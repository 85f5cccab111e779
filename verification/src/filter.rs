//! Text filters that turn raw chunks into processed chunks.

use vstd::prelude::*;
use crate::types::{ProcessedChunk, RawChunk, ReaderResult};

verus! {

/// What `str::to_uppercase` returns for a string with characters `s`.
pub uninterp spec fn uppercase_of(s: Seq<char>) -> Seq<char>;

/// The ASCII uppercase of a character: `a` to `z` become `A` to `Z`.
pub open spec fn ascii_upper_char(c: char) -> char {
    if 97 <= (c as u32) <= 122 { ((c as u32) - 32) as char } else { c }
}

/// True when every character of `s` is ASCII.
pub open spec fn is_ascii_text(s: Seq<char>) -> bool {
    forall|i: int| 0 <= i < s.len() ==> (#[trigger] s[i] as u32) < 128
}

/// Calls `str::to_uppercase`; the result is named `uppercase_of` of the
/// input's characters. The Unicode uppercase mapping is not stated beyond
/// ASCII, where it maps `a` to `z` to `A` to `Z` and keeps the rest.
#[verifier::external_body]
fn to_uppercase_string(s: &str) -> (r: String)
    ensures
        r@ == uppercase_of(s@),
        is_ascii_text(s@) ==> r@ == s@.map_values(|c: char| ascii_upper_char(c)),
{
    s.to_uppercase()
}

/// A filter that processes raw text chunks.
///
/// Implementations are expected to be stateless or internally synchronised,
/// as they may be called concurrently from the worker thread.
pub trait TextFilter: Send + Sync {
    /// Process a raw chunk and produce a processed chunk with the same
    /// offset; its data may have a different length.
    fn process(&self, raw: &RawChunk) -> (r: ReaderResult<ProcessedChunk>)
        ensures
            r matches Ok(p) ==> p.offset == raw.offset,
    ;
}

/// A filter that converts the raw text to uppercase.
#[derive(Debug)]
pub struct UppercaseFilter;

impl UppercaseFilter {
    /// The filter.
    pub fn new() -> (r: UppercaseFilter)
        ensures
            r == UppercaseFilter,
    {
        UppercaseFilter
    }
}

impl Default for UppercaseFilter {
    fn default() -> (r: UppercaseFilter)
        ensures
            r == UppercaseFilter,
    {
        UppercaseFilter
    }
}

impl TextFilter for UppercaseFilter {
    /// Always succeeds with the uppercased data, keeping offset and
    /// generation; ASCII text has `a` to `z` turned into `A` to `Z`.
    fn process(&self, raw: &RawChunk) -> (r: ReaderResult<ProcessedChunk>)
        ensures
            r matches Ok(p) && p.offset == raw.offset && p.data@ == uppercase_of(raw.data@) && p.generation
                == raw.generation && (is_ascii_text(raw.data@) ==> p.data@ == raw.data@.map_values(
                |c: char| ascii_upper_char(c),
            )),
    {
        let transformed = to_uppercase_string(raw.data.as_str());
        Ok(ProcessedChunk { offset: raw.offset, data: transformed, generation: raw.generation })
    }
}

/// A filter that returns the raw chunk unchanged.
#[derive(Debug)]
pub struct NoopFilter;

impl NoopFilter {
    /// The filter.
    pub fn new() -> (r: NoopFilter)
        ensures
            r == NoopFilter,
    {
        NoopFilter
    }
}

impl Default for NoopFilter {
    fn default() -> (r: NoopFilter)
        ensures
            r == NoopFilter,
    {
        NoopFilter
    }
}

impl TextFilter for NoopFilter {
    /// Always succeeds with a copy of the raw data, keeping offset and
    /// generation.
    fn process(&self, raw: &RawChunk) -> (r: ReaderResult<ProcessedChunk>)
        ensures
            r matches Ok(p) && p.offset == raw.offset && p.data@ == raw.data@ && p.generation == raw.generation,
    {
        Ok(ProcessedChunk::new(raw.offset, raw.data.as_str(), raw.generation))
    }
}

} // verus!
