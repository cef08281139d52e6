//! A low-level ZIP archive library: locate, iterate and synthesize ZIP
//! archives (including ZIP64) without performing any compression itself.
//!
//! The write side emits local file headers, data descriptors, the central
//! directory and the end-of-central-directory records into an in-memory byte
//! buffer, promoting sizes, offsets and entry counts to ZIP64 when the 32-bit
//! thresholds are crossed. The read side scans a byte slice backwards for the
//! end-of-central-directory record (tolerating prelude data and trailing
//! garbage), iterates central directory headers with ZIP64 sentinel
//! promotion, and resolves entries to their local headers and data ranges.
//! Compression codecs are composed by the caller around the raw byte pipes.

use vstd::prelude::*;

pub mod archive;
pub mod crc;
pub mod errors;
pub mod extra_fields;
pub mod headers;
pub mod locator;
pub mod path;
pub mod reader_at;
pub mod time;
pub mod utils;
pub mod writer;

verus! {

pub use archive::CompressionMethod;
pub use archive::CrcVerifier;
pub use archive::ZipArchive;
pub use archive::ZipArchiveEntryWayfinder;
pub use archive::ZipEntries;
pub use archive::ZipEntry;
pub use archive::ZipSliceEntry;
pub use crc::crc32;
pub use errors::Error;
pub use errors::ErrorKind;
pub use headers::Header;
pub use locator::locate_eocd;
pub use reader_at::RangeReader;
pub use reader_at::ReaderAt;
pub use writer::DataDescriptorOutput;
pub use writer::ZipArchiveWriter;
pub use writer::ZipArchiveWriterBuilder;
pub use writer::ZipDataWriter;
pub use writer::ZipDirBuilder;
pub use writer::ZipEntryWriter;
pub use writer::ZipFileBuilder;

/// Recommended minimum size in bytes for caller-supplied scratch buffers.
pub const RECOMMENDED_BUFFER_SIZE: usize = 8192;

} // verus!
