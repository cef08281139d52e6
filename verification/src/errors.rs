//! Structured error values for archive reading and writing.

use vstd::prelude::*;

verus! {

/// The category of an error, with the context needed to act on it.
///
/// Recoverable conditions (a rejected end-of-central-directory candidate)
/// carry the best-guess offset so callers can restart scanning on a prefix.
#[derive(Debug, Clone, PartialEq, Eq)]
pub enum ErrorKind {
    /// A record did not start with the expected 4-byte signature.
    InvalidSignature { expected: u32, actual: u32 },
    /// Streamed data did not match the recorded CRC-32.
    InvalidChecksum { expected: u32, actual: u32 },
    /// Streamed data did not match the recorded size.
    InvalidSize { expected: u64, actual: u64 },
    /// An argument or a field was outside what the format allows.
    InvalidInput { msg: String },
    /// Bytes that were required to be UTF-8 were not.
    InvalidUtf8,
    /// The end of the data was reached before a record was complete.
    Eof,
    /// A caller-supplied buffer was smaller than the operation requires.
    BufferTooSmall,
    /// No end-of-central-directory record was found. When a candidate
    /// signature was seen but rejected, its offset is attached so the search
    /// can resume over the prefix that ends before it.
    MissingEndOfCentralDirectory { eocd_offset: Option<u64> },
    /// A ZIP64 sentinel was seen but no ZIP64 end-of-central-directory
    /// locator precedes the end-of-central-directory record.
    MissingZip64EndOfCentralDirectory,
    /// The end-of-central-directory record is malformed.
    InvalidEndOfCentralDirectory,
}

/// An error raised while reading or writing an archive.
#[derive(Debug, Clone, PartialEq, Eq)]
pub struct Error {
    pub kind: ErrorKind,
}

impl Error {
    /// Wraps an [`ErrorKind`] into an [`Error`].
    pub fn from_kind(kind: ErrorKind) -> (r: Error)
        ensures
            r.kind == kind,
    {
        Error { kind }
    }

    /// The category of this error.
    pub fn kind(&self) -> (r: &ErrorKind)
        ensures
            r == &self.kind,
    {
        &self.kind
    }

    /// The offset of the rejected end-of-central-directory candidate, when
    /// this error carries one.
    pub fn eocd_offset(&self) -> (r: Option<u64>)
        ensures
            r == (match self.kind {
                ErrorKind::MissingEndOfCentralDirectory { eocd_offset } => eocd_offset,
                _ => None::<u64>,
            }),
    {
        match &self.kind {
            ErrorKind::MissingEndOfCentralDirectory { eocd_offset } => *eocd_offset,
            _ => None,
        }
    }
}

} // verus!
