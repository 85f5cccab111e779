//! The text buffer abstraction: raw and processed chunks of a document,
//! with offsets that shift as processed chunks replace raw ones.

use vstd::prelude::*;
use crate::types::{Offset, RawChunk, ProcessedChunk, ReaderResult};

verus! {

/// A buffer that manages the document's raw and processed state.
///
/// It keeps a contiguous processed document. A processed chunk replaces the
/// raw range that starts at its offset and shifts every later offset by the
/// difference in length. It also remembers the raw offsets, so that a
/// position in the processed document can be traced back to the source.
pub trait TextBuffer: Send + Sync {
    /// Inserts a raw chunk at its original offset, pending processing;
    /// `BufferFull` when the buffer's capacity is exceeded.
    fn insert_raw(&mut self, chunk: RawChunk) -> ReaderResult<()>;

    /// Replaces the raw chunk that starts at `chunk.offset` with the
    /// processed data and shifts the later chunks; `Internal` when no raw
    /// chunk starts there.
    fn apply_processed(&mut self, chunk: ProcessedChunk) -> ReaderResult<()>;

    /// The processed text from `from` to `to`, in shifted coordinates;
    /// `OffsetOutOfBounds` for an invalid range.
    fn read_range(&self, from: Offset, to: Offset) -> ReaderResult<String>;

    /// The raw offset that a processed offset comes from;
    /// `OffsetOutOfBounds` outside the processed document.
    fn translate_to_raw(&self, processed_offset: Offset) -> ReaderResult<Offset>;

    /// Discards the chunks that end before `threshold` and those of seek
    /// generations other than `generation`, and returns them.
    fn flush_before(&mut self, threshold: Offset, generation: u64) -> Vec<RawChunk>;
}

} // verus!
