//! Core data types and errors of the text processing pipeline.

use vstd::prelude::*;
use vstd::utf8::encode_utf8;

verus! {

/// The number of UTF-8 bytes that encode `s`.
pub open spec fn byte_len(s: Seq<char>) -> nat {
    encode_utf8(s).len()
}

/// A byte offset in the source document.
/// Offsets are always in UTF-8 bytes, not characters or grapheme clusters.
#[derive(Debug, Clone, Copy, PartialEq, Eq, Structural, PartialOrd, Ord, Hash)]
pub struct Offset(pub u64);

impl Offset {
    /// The offset as a `usize` (truncated where `usize` is narrower).
    pub fn as_usize(&self) -> (r: usize)
        ensures
            r == self.0 as usize,
    {
        self.0 as usize
    }

    /// The offset as a `u64`.
    pub fn as_u64(&self) -> (r: u64)
        ensures
            r == self.0,
    {
        self.0
    }
}

impl From<u64> for Offset {
    /// The offset of byte `v`.
    fn from(v: u64) -> (r: Offset) {
        Offset(v)
    }
}

impl vstd::std_specs::convert::FromSpecImpl<u64> for Offset {
    open spec fn obeys_from_spec() -> bool {
        true
    }

    open spec fn from_spec(v: u64) -> Offset {
        Offset(v)
    }
}

impl From<usize> for Offset {
    /// The offset of byte `v`.
    fn from(v: usize) -> (r: Offset) {
        Offset(v as u64)
    }
}

impl vstd::std_specs::convert::FromSpecImpl<usize> for Offset {
    open spec fn obeys_from_spec() -> bool {
        true
    }

    open spec fn from_spec(v: usize) -> Offset {
        Offset(v as u64)
    }
}

/// A raw (unprocessed) text chunk with its starting offset and the seek
/// generation it was read in.
#[derive(Debug, Clone, PartialEq)]
pub struct RawChunk {
    pub offset: Offset,
    pub data: String,
    pub generation: u64,
}

impl RawChunk {
    /// A raw chunk holding a copy of `data`.
    pub fn new(offset: Offset, data: &str, generation: u64) -> (r: RawChunk)
        ensures
            r.offset == offset,
            r.data@ == data@,
            r.generation == generation,
    {
        RawChunk { offset, data: data.to_owned(), generation }
    }

    /// The end offset (exclusive) of this chunk: its offset plus the byte
    /// length of its data.
    pub fn end_offset(&self) -> (r: Offset)
        requires
            self.offset.0 + byte_len(self.data@) <= u64::MAX,
            byte_len(self.data@) <= usize::MAX,
        ensures
            r.0 == self.offset.0 + byte_len(self.data@),
    {
        let len = self.data.as_str().len();
        Offset(self.offset.0 + len as u64)
    }
}

/// A processed text chunk with its starting offset and the seek generation
/// of the raw chunk it came from.
#[derive(Debug, Clone, PartialEq)]
pub struct ProcessedChunk {
    pub offset: Offset,
    pub data: String,
    pub generation: u64,
}

impl ProcessedChunk {
    /// A processed chunk holding a copy of `data`.
    pub fn new(offset: Offset, data: &str, generation: u64) -> (r: ProcessedChunk)
        ensures
            r.offset == offset,
            r.data@ == data@,
            r.generation == generation,
    {
        ProcessedChunk { offset, data: data.to_owned(), generation }
    }

    /// The end offset (exclusive) of this chunk.
    pub fn end_offset(&self) -> (r: Offset)
        requires
            self.offset.0 + byte_len(self.data@) <= u64::MAX,
            byte_len(self.data@) <= usize::MAX,
        ensures
            r.0 == self.offset.0 + byte_len(self.data@),
    {
        let len = self.data.as_str().len();
        Offset(self.offset.0 + len as u64)
    }
}

/// The state of a chunk within a buffer.
#[derive(Debug, Clone, PartialEq)]
pub enum ChunkState {
    /// Raw data waiting to be processed.
    Raw(RawChunk),
    /// Currently being processed by the worker.
    Processing,
    /// Processed data ready for display.
    Ready(ProcessedChunk),
}

impl ChunkState {
    /// The offset of the chunk if it is `Raw` or `Ready`.
    pub fn offset(&self) -> (r: Option<Offset>)
        ensures
            r == match self {
                ChunkState::Raw(c) => Some(c.offset),
                ChunkState::Ready(c) => Some(c.offset),
                ChunkState::Processing => None::<Offset>,
            },
    {
        match self {
            ChunkState::Raw(c) => Some(c.offset),
            ChunkState::Ready(c) => Some(c.offset),
            ChunkState::Processing => None,
        }
    }

    /// The data if available (`Raw` or `Ready`).
    pub fn data(&self) -> (r: Option<&str>)
        ensures
            match self {
                ChunkState::Raw(c) => r matches Some(d) && d@ == c.data@,
                ChunkState::Ready(c) => r matches Some(d) && d@ == c.data@,
                ChunkState::Processing => r is None,
            },
    {
        match self {
            ChunkState::Raw(c) => Some(c.data.as_str()),
            ChunkState::Ready(c) => Some(c.data.as_str()),
            ChunkState::Processing => None,
        }
    }
}

/// Declares `std::io::Error`, which `ReaderError::Io` carries.
#[verifier::external_type_specification]
#[verifier::external_body]
pub struct ExIoError(std::io::Error);

/// Errors of the reader pipeline.
#[derive(Debug)]
pub enum ReaderError {
    /// An I/O error.
    Io(std::io::Error),
    /// An offset outside the document (the offset, the document length).
    OffsetOutOfBounds(Offset, Offset),
    /// Invalid UTF-8 at an offset.
    InvalidUtf8(Offset, String),
    /// A PDF could not be parsed.
    PdfParse(String),
    /// A filter failed.
    Filter(String),
    /// A seek failed.
    Seek(String),
    /// A buffer could not take a chunk at an offset.
    BufferFull(Offset),
    /// An internal error.
    Internal(String),
}

/// Result type using `ReaderError`.
pub type ReaderResult<T> = Result<T, ReaderError>;

} // verus!
