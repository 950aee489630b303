//! Errors of the archive.
use vstd::prelude::*;

verus! {

/// Why an index object was refused.
#[derive(Clone, Copy, Debug, PartialEq, Eq, Structural)]
pub enum IndexError {
    /// The object is shorter than its header.
    Truncated,
    /// The header's magic number or version is not the expected one.
    BadHeader,
    /// The header's length differs from the length of the payload.
    BadLength,
    /// The header's checksum differs from the checksum of the payload.
    BadChecksum,
    /// The payload is not a map that the map library accepts.
    BadBytes,
}

/// The description of an index error.
pub open spec fn index_error_text(e: IndexError) -> Seq<char> {
    match e {
        IndexError::Truncated => "index object shorter than its header"@,
        IndexError::BadHeader => "index header magic or version invalid"@,
        IndexError::BadLength => "invalid index data length"@,
        IndexError::BadChecksum => "invalid index data checksum"@,
        IndexError::BadBytes => "invalid index bytes"@,
    }
}

impl IndexError {
    /// A human-readable description.
    pub fn message(&self) -> (r: &'static str)
        ensures
            r@ == index_error_text(*self),
    {
        match self {
            IndexError::Truncated => "index object shorter than its header",
            IndexError::BadHeader => "index header magic or version invalid",
            IndexError::BadLength => "invalid index data length",
            IndexError::BadChecksum => "invalid index data checksum",
            IndexError::BadBytes => "invalid index bytes",
        }
    }
}

/// An error of an archive operation.
#[derive(Debug, PartialEq, Eq)]
pub enum Error {
    /// No stored segment covers the frame.
    FrameNotFound(u64),
    /// An index object is corrupt.
    InvalidIndex(IndexError),
    /// While restoring, no segment holds the frames before the given one.
    MissingSegment(u64),
    /// A frame shows a page number that no page has.
    InvalidPageNo(u32),
    /// A file operation failed.
    Io(String),
    /// The object store failed; `context` says during which request.
    Unhandled { source: String, context: String },
    /// The operation is declared but not available.
    Unimplemented,
}

} // verus!
