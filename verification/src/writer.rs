//! The archive writer state machine: stream-only emission of local file
//! headers, entry payloads, data descriptors, the central directory and the
//! end-of-central-directory records, with automatic ZIP64 promotion when the
//! 32-bit thresholds are crossed.
//!
//! Every write lands in an in-memory byte buffer owned by
//! [`ZipArchiveWriter`]; [`ZipArchiveWriter::finish`] hands the finished
//! archive bytes back. Nothing is ever seeked back and patched: sizes and
//! checksums travel in data descriptors, so the bytes can be streamed out
//! as they are produced.

use crate::archive::CompressionMethod;
use crate::crc::{crc32_chunk_with_table, crc32_steps, crc32_table};
use crate::errors::{Error, ErrorKind};
use crate::extra_fields::{
    spec_fields_bytes, spec_filtered_bytes, ExtraFieldId, ExtraFieldsContainer, FieldSpec,
};
use crate::headers::Header;
use crate::path::ZipFilePath;
use crate::time::{DosDateTime, UtcDateTime};
use crate::utils::{push_bytes, push_u16le, push_u32le, push_u64le};
use vstd::bytes::{
    lemma_auto_spec_u16_to_from_le_bytes, lemma_auto_spec_u32_to_from_le_bytes,
    lemma_auto_spec_u64_to_from_le_bytes, spec_u16_to_le_bytes, spec_u32_to_le_bytes,
    spec_u64_to_le_bytes,
};
use vstd::prelude::*;
use vstd::slice::slice_subrange;
use vstd::string::StringSliceAdditionalSpecFns;

verus! {

/// General-purpose flag bit 3: sizes and CRC follow in a data descriptor.
pub const FLAG_DATA_DESCRIPTOR: u16 = 0x08;

/// General-purpose flag bit 11: the file name is UTF-8.
pub const FLAG_UTF8_ENCODING: u16 = 0x800;

/// One central-directory entry the writer has recorded, as specification
/// data: exactly what [`spec_cdh_bytes`] will emit for it.
pub ghost struct CdEntry {
    pub name: Seq<u8>,
    pub method_id: u16,
    pub lho: u64,
    pub compressed_size: u64,
    pub uncompressed_size: u64,
    pub crc: u32,
    pub flags: u16,
    pub dos_time: u16,
    pub dos_date: u16,
    pub unix_mode: Option<u32>,
    pub central_extras: Seq<u8>,
}

/// This entry's sizes or offset force ZIP64 treatment.
pub open spec fn spec_entry_needs_zip64(e: CdEntry) -> bool {
    e.compressed_size >= 0xFFFFFFFF || e.uncompressed_size >= 0xFFFFFFFF || e.lho >= 0xFFFFFFFF
}

/// The archive as a whole needs the ZIP64 end-of-central-directory records.
pub open spec fn spec_archive_needs_zip64(es: Seq<CdEntry>, cd_offset: int) -> bool {
    ||| es.len() >= 0xFFFF
    ||| cd_offset >= 0xFFFFFFFF
    ||| exists|i: int| 0 <= i < es.len() && spec_entry_needs_zip64(#[trigger] es[i])
}

/// The smaller of an unsigned value and a cap.
pub open spec fn spec_cap32(x: u64) -> u32 {
    if x >= 0xFFFFFFFF {
        0xFFFFFFFFu32
    } else {
        x as u32
    }
}

/// The version-needed field a local file header is written with: 4.5 when
/// the entry's local header offset already guarantees ZIP64 treatment, 2.0
/// otherwise (sizes are not yet known when the header is emitted).
pub open spec fn spec_lfh_version(lho: int) -> u16 {
    if lho >= 0xFFFFFFFF {
        45u16
    } else {
        20u16
    }
}

/// The bytes of a local file header for `name` (sizes and CRC zero: the
/// authoritative values travel in the data descriptor or central directory).
pub open spec fn spec_lfh_bytes(
    name: Seq<u8>,
    version_needed: u16,
    flags: u16,
    method_id: u16,
    dos_time: u16,
    dos_date: u16,
    local_extras: Seq<u8>,
) -> Seq<u8> {
    spec_u32_to_le_bytes(0x04034b50) + spec_u16_to_le_bytes(version_needed) + spec_u16_to_le_bytes(flags)
        + spec_u16_to_le_bytes(method_id) + spec_u16_to_le_bytes(dos_time) + spec_u16_to_le_bytes(
        dos_date,
    ) + spec_u32_to_le_bytes(0) + spec_u32_to_le_bytes(0) + spec_u32_to_le_bytes(0)
        + spec_u16_to_le_bytes(name.len() as u16) + spec_u16_to_le_bytes(
        local_extras.len() as u16,
    ) + name + local_extras
}

/// The bytes of a data descriptor: 64-bit sizes when either size reaches
/// the ZIP64 sentinel range or the entry is already ZIP64-tagged by its
/// local header offset, 32-bit sizes otherwise.
pub open spec fn spec_dd_bytes(crc: u32, compressed: u64, uncompressed: u64, lho: u64) -> Seq<
    u8,
> {
    spec_u32_to_le_bytes(0x08074b50) + spec_u32_to_le_bytes(crc) + if spec_needs_zip64_values(
        compressed,
        uncompressed,
        lho,
    ) {
        spec_u64_to_le_bytes(compressed) + spec_u64_to_le_bytes(uncompressed)
    } else {
        spec_u32_to_le_bytes(compressed as u32) + spec_u32_to_le_bytes(uncompressed as u32)
    }
}

/// The bytes of one central directory header.
pub open spec fn spec_cdh_bytes(e: CdEntry) -> Seq<u8> {
    let version_needed: u16 = if spec_entry_needs_zip64(e) {
        45u16
    } else {
        20u16
    };
    let vmb_hi: u16 = if e.unix_mode is Some {
        3u16
    } else {
        0u16
    };
    let ext_attrs: u32 = match e.unix_mode {
        Some(m) => m << 16,
        None => 0u32,
    };
    spec_u32_to_le_bytes(0x02014b50) + spec_u16_to_le_bytes((vmb_hi * 256 + version_needed) as u16)
        + spec_u16_to_le_bytes(version_needed) + spec_u16_to_le_bytes(e.flags)
        + spec_u16_to_le_bytes(e.method_id) + spec_u16_to_le_bytes(e.dos_time)
        + spec_u16_to_le_bytes(e.dos_date) + spec_u32_to_le_bytes(e.crc) + spec_u32_to_le_bytes(
        spec_cap32(e.compressed_size),
    ) + spec_u32_to_le_bytes(spec_cap32(e.uncompressed_size)) + spec_u16_to_le_bytes(
        e.name.len() as u16,
    ) + spec_u16_to_le_bytes(e.central_extras.len() as u16) + spec_u16_to_le_bytes(0)
        + spec_u16_to_le_bytes(0) + spec_u16_to_le_bytes(0) + spec_u32_to_le_bytes(ext_attrs)
        + spec_u32_to_le_bytes(spec_cap32(e.lho)) + e.name + e.central_extras
}

/// The bytes of the whole central directory, in entry order.
pub open spec fn spec_cd_bytes(es: Seq<CdEntry>) -> Seq<u8>
    decreases es.len(),
{
    if es.len() == 0 {
        Seq::empty()
    } else {
        spec_cdh_bytes(es[0]) + spec_cd_bytes(es.skip(1))
    }
}

/// The 56 bytes of the ZIP64 end-of-central-directory record.
pub open spec fn spec_zip64_eocd_bytes(entries: u64, cd_size: u64, cd_offset: u64) -> Seq<u8> {
    spec_u32_to_le_bytes(0x06064b50) + spec_u64_to_le_bytes(44) + spec_u16_to_le_bytes(45)
        + spec_u16_to_le_bytes(45) + spec_u32_to_le_bytes(0) + spec_u32_to_le_bytes(0)
        + spec_u64_to_le_bytes(entries) + spec_u64_to_le_bytes(entries) + spec_u64_to_le_bytes(
        cd_size,
    ) + spec_u64_to_le_bytes(cd_offset)
}

/// The 20 bytes of the ZIP64 end-of-central-directory locator.
pub open spec fn spec_zip64_locator_bytes(zip64_eocd_offset: u64) -> Seq<u8> {
    spec_u32_to_le_bytes(0x07064b50) + spec_u32_to_le_bytes(0) + spec_u64_to_le_bytes(
        zip64_eocd_offset,
    ) + spec_u32_to_le_bytes(1)
}

/// The 22 bytes of the end-of-central-directory record (no comment).
pub open spec fn spec_eocd_bytes(entries16: u16, cd_size32: u32, cd_offset32: u32) -> Seq<u8> {
    spec_u32_to_le_bytes(0x06054b50) + spec_u16_to_le_bytes(0) + spec_u16_to_le_bytes(0)
        + spec_u16_to_le_bytes(entries16) + spec_u16_to_le_bytes(entries16) + spec_u32_to_le_bytes(
        cd_size32,
    ) + spec_u32_to_le_bytes(cd_offset32) + spec_u16_to_le_bytes(0)
}

/// The full epilogue the writer emits after the entries: central directory,
/// ZIP64 records when needed, and the end-of-central-directory record.
pub open spec fn spec_epilogue_bytes(es: Seq<CdEntry>, cd_offset: int) -> Seq<u8> {
    let cd = spec_cd_bytes(es);
    let cd_size = cd.len() as int;
    let entries16: u16 = if es.len() >= 0xFFFF {
        0xFFFFu16
    } else {
        es.len() as u16
    };
    let cd_size32: u32 = if cd_size >= 0xFFFFFFFF {
        0xFFFFFFFFu32
    } else {
        cd_size as u32
    };
    let cd_offset32: u32 = if cd_offset >= 0xFFFFFFFF {
        0xFFFFFFFFu32
    } else {
        cd_offset as u32
    };
    cd + (if spec_archive_needs_zip64(es, cd_offset) {
        spec_zip64_eocd_bytes(es.len() as u64, cd_size as u64, cd_offset as u64)
            + spec_zip64_locator_bytes((cd_offset + cd_size) as u64)
    } else {
        Seq::<u8>::empty()
    }) + spec_eocd_bytes(entries16, cd_size32, cd_offset32)
}

/// One recorded entry awaiting the central directory flush.
#[derive(Debug)]
struct FileHeader {
    name: Vec<u8>,
    method_id: u16,
    local_header_offset: u64,
    compressed_size: u64,
    uncompressed_size: u64,
    crc: u32,
    flags: u16,
    dos_time: u16,
    dos_date: u16,
    unix_permissions: Option<u32>,
    extra_fields: ExtraFieldsContainer,
}

impl FileHeader {
    /// The central-directory entry this record will emit.
    spec fn view_entry(&self) -> CdEntry {
        CdEntry {
            name: self.name@,
            method_id: self.method_id,
            lho: self.local_header_offset,
            compressed_size: self.compressed_size,
            uncompressed_size: self.uncompressed_size,
            crc: self.crc,
            flags: self.flags,
            dos_time: self.dos_time,
            dos_date: self.dos_date,
            unix_mode: self.unix_permissions,
            central_extras: spec_filtered_bytes(self.extra_fields.fields(), Header(2)),
        }
    }

    spec fn wf(&self) -> bool {
        &&& self.extra_fields.wf()
        &&& self.name@.len() <= 0xFFFF
    }
}

/// Builds a [`ZipArchiveWriter`].
#[derive(Debug, Clone, Copy)]
pub struct ZipArchiveWriterBuilder {
    count: u64,
    capacity: usize,
}

impl ZipArchiveWriterBuilder {
    /// The configured starting offset.
    pub closed spec fn spec_offset(&self) -> u64 {
        self.count
    }

    /// Creates a builder with offset zero.
    pub fn new() -> (r: ZipArchiveWriterBuilder)
        ensures
            r.spec_offset() == 0,
    {
        ZipArchiveWriterBuilder { count: 0, capacity: 0 }
    }

    /// Sets the anticipated number of files to optimize memory allocation.
    pub fn with_capacity(self, capacity: usize) -> (r: ZipArchiveWriterBuilder)
        ensures
            r.spec_offset() == self.spec_offset(),
    {
        ZipArchiveWriterBuilder { count: self.count, capacity }
    }

    /// Sets the starting offset for writing: the number of prelude bytes
    /// that precede the archive in its container. Recording it is required
    /// for ZIP64 archives written after a prelude, since their offsets are
    /// absolute.
    pub fn with_offset(self, offset: u64) -> (r: ZipArchiveWriterBuilder)
        ensures
            r.spec_offset() == offset,
    {
        ZipArchiveWriterBuilder { count: offset, capacity: self.capacity }
    }

    /// Builds a [`ZipArchiveWriter`] that starts counting at the configured
    /// offset.
    pub fn build(&self) -> (r: ZipArchiveWriter)
        ensures
            r.wf(),
            r.written() == Seq::<u8>::empty(),
            r.entries() == Seq::<CdEntry>::empty(),
            r.start_offset() == self.spec_offset(),
    {
        let r = ZipArchiveWriter {
            out: Vec::with_capacity(self.capacity),
            start: self.count,
            files: Vec::new(),
        };
        proof {
            assert(r.entries() =~= Seq::<CdEntry>::empty());
        }
        r
    }
}

/// Writes a ZIP archive into an owned byte buffer, entry by entry, with no
/// seeking back.
#[derive(Debug)]
pub struct ZipArchiveWriter {
    out: Vec<u8>,
    start: u64,
    files: Vec<FileHeader>,
}

impl ZipArchiveWriter {
    /// The bytes of the archive written so far (the prelude, if any, is not
    /// part of them: the caller owns it).
    pub closed spec fn written(&self) -> Seq<u8> {
        self.out@
    }

    /// The declared offset at which the archive starts inside its
    /// container.
    pub closed spec fn start_offset(&self) -> u64 {
        self.start
    }

    /// The central-directory entries recorded so far.
    pub closed spec fn entries(&self) -> Seq<CdEntry> {
        Seq::new(self.files@.len(), |i: int| self.files@[i].view_entry())
    }

    /// The stream position: declared start plus bytes written.
    pub open spec fn count_spec(&self) -> int {
        self.start_offset() + self.written().len()
    }

    /// Internal invariant.
    pub closed spec fn wf(&self) -> bool {
        &&& self.start + self.out@.len() <= u64::MAX
        &&& forall|i: int| 0 <= i < self.files@.len() ==> (#[trigger] self.files@[i]).wf()
    }

    /// Creates a builder for configuring the writer.
    pub fn builder() -> (r: ZipArchiveWriterBuilder)
        ensures
            r.spec_offset() == 0,
    {
        ZipArchiveWriterBuilder::new()
    }

    /// Creates a writer with no prelude offset.
    pub fn new() -> (r: ZipArchiveWriter)
        ensures
            r.wf(),
            r.written() == Seq::<u8>::empty(),
            r.entries() == Seq::<CdEntry>::empty(),
            r.start_offset() == 0,
    {
        ZipArchiveWriterBuilder::new().build()
    }

    /// The stream position (declared start plus bytes written).
    pub fn count(&self) -> (r: u64)
        requires
            self.wf(),
        ensures
            r == self.count_spec(),
    {
        self.start + self.out.len() as u64
    }

    /// Creates a builder for adding a new file entry named `name`; the
    /// entry is written when the builder's `create` is called with this
    /// writer.
    pub fn new_file<'a>(name: &'a str) -> (r: ZipFileBuilder<'a>)
        ensures
            r.wf(),
            r@ == (BuilderView {
                name: name.spec_bytes(),
                method: CompressionMethod::Store,
                mtime: None,
                perms: None,
                fields: Seq::empty(),
            }),
    {
        ZipFileBuilder {
            name,
            compression_method: CompressionMethod::Store,
            modification_time: None,
            unix_permissions: None,
            extra_fields: ExtraFieldsContainer::new(),
        }
    }

    /// Creates a builder for adding a new directory entry named `name`
    /// (the name must end with `/`); the entry is written when the
    /// builder's `create` is called with this writer.
    pub fn new_dir<'a>(name: &'a str) -> (r: ZipDirBuilder<'a>)
        ensures
            r.wf(),
            r@ == (BuilderView {
                name: name.spec_bytes(),
                method: CompressionMethod::Store,
                mtime: None,
                perms: None,
                fields: Seq::empty(),
            }),
    {
        ZipDirBuilder {
            name,
            modification_time: None,
            unix_permissions: None,
            extra_fields: ExtraFieldsContainer::new(),
        }
    }

    /// Appends one local file header.
    fn write_local_header(
        &mut self,
        name: &[u8],
        version_needed: u16,
        flags: u16,
        method_id: u16,
        dos_time: u16,
        dos_date: u16,
        extra_fields: &ExtraFieldsContainer,
    )
        requires
            old(self).wf(),
            extra_fields.wf(),
            name@.len() <= 0xFFFF,
            old(self).count_spec() + 30 + name@.len() + 0x10000 <= u64::MAX,
        ensures
            final(self).wf(),
            final(self).start_offset() == old(self).start_offset(),
            final(self).entries() == old(self).entries(),
            final(self).written() == old(self).written() + spec_lfh_bytes(
                name@,
                version_needed,
                flags,
                method_id,
                dos_time,
                dos_date,
                spec_filtered_bytes(extra_fields.fields(), Header(1)),
            ),
    {
        proof {
            lemma_auto_spec_u16_to_from_le_bytes();
            lemma_auto_spec_u32_to_from_le_bytes();
        }
        push_u32le(&mut self.out, 0x04034b50);
        push_u16le(&mut self.out, version_needed);
        push_u16le(&mut self.out, flags);
        push_u16le(&mut self.out, method_id);
        push_u16le(&mut self.out, dos_time);
        push_u16le(&mut self.out, dos_date);
        push_u32le(&mut self.out, 0);
        push_u32le(&mut self.out, 0);
        push_u32le(&mut self.out, 0);
        push_u16le(&mut self.out, name.len() as u16);
        let local_len = extra_fields.local_size();
        push_u16le(&mut self.out, local_len);
        push_bytes(&mut self.out, name);
        extra_fields.write_extra_fields(&mut self.out, Header::local());
        proof {
            assert(final(self).written() =~= old(self).written() + spec_lfh_bytes(
                name@,
                version_needed,
                flags,
                method_id,
                dos_time,
                dos_date,
                spec_filtered_bytes(extra_fields.fields(), Header(1)),
            ));
            assert(final(self).entries() =~= old(self).entries());
        }
    }

    /// Finishes the archive: flushes the central directory, the ZIP64
    /// end-of-central-directory record and locator when any threshold was
    /// crossed, and the end-of-central-directory record, and returns the
    /// archive's bytes.
    #[verifier::rlimit(100)]
    #[verifier::spinoff_prover]
    pub fn finish(self) -> (r: Vec<u8>)
        requires
            self.wf(),
            self.count_spec() + spec_cd_bytes(self.entries()).len() + 98 <= u64::MAX,
        ensures
            r@ == self.written() + spec_epilogue_bytes(self.entries(), self.count_spec()),
    {
        let ghost es = self.entries();
        let ghost base = self.written();
        proof {
            lemma_auto_spec_u16_to_from_le_bytes();
            lemma_auto_spec_u32_to_from_le_bytes();
            lemma_auto_spec_u64_to_from_le_bytes();
        }
        let mut out = self.out;
        let files = self.files;
        let start = self.start;
        let cd_offset: u64 = start + out.len() as u64;
        let total_entries: usize = files.len();
        let mut any64 = false;
        let mut i: usize = 0;
        while i < total_entries
            invariant
                total_entries == files@.len(),
                es.len() == files@.len(),
                forall|j: int| 0 <= j < es.len() ==> es[j] == #[trigger] files@[j].view_entry(),
                i <= total_entries,
                any64 == exists|j: int|
                    0 <= j < i && spec_entry_needs_zip64(#[trigger] es[j]),
            decreases total_entries - i,
        {
            let f = &files[i];
            proof {
                assert(es[i as int] == files@[i as int].view_entry());
            }
            if f.compressed_size >= 0xFFFFFFFF || f.uncompressed_size >= 0xFFFFFFFF
                || f.local_header_offset >= 0xFFFFFFFF {
                proof {
                    assert(spec_entry_needs_zip64(es[i as int]));
                }
                any64 = true;
            }
            i += 1;
        }
        proof {
            lemma_cd_bytes_concat(es.take(0), es.skip(0));
            assert(es.take(0) =~= Seq::<CdEntry>::empty());
            assert(es.skip(0) =~= es);
            assert(spec_cd_bytes(es.take(0)) =~= Seq::<u8>::empty());
            assert(out@ =~= base + spec_cd_bytes(es.take(0)));
        }
        let mut idx: usize = 0;
        while idx < total_entries
            invariant
                total_entries == files@.len(),
                es.len() == files@.len(),
                forall|j: int| 0 <= j < es.len() ==> es[j] == #[trigger] files@[j].view_entry(),
                forall|j: int| 0 <= j < files@.len() ==> (#[trigger] files@[j]).wf(),
                idx <= total_entries,
                out@ == base + spec_cd_bytes(es.take(idx as int)),
                base.len() + start + spec_cd_bytes(es).len() + 98 <= u64::MAX,
                spec_cd_bytes(es.take(idx as int)).len() <= spec_cd_bytes(es).len(),
            decreases total_entries - idx,
        {
            let ghost out0 = out@;
            let f = &files[idx];
            let ghost e = es[idx as int];
            proof {
                assert(es[idx as int] == files@[idx as int].view_entry());
            }
            push_cdh(&mut out, f);
            proof {
                assert(out@ =~= out0 + spec_cdh_bytes(e));
                assert(es.take(idx as int).push(e) =~= es.take(idx as int + 1));
                lemma_cd_bytes_push(es.take(idx as int), e);
                assert(out@ =~= base + spec_cd_bytes(es.take(idx as int + 1)));
                lemma_cd_bytes_concat(es.take(idx as int + 1), es.skip(idx as int + 1));
                assert(es.take(idx as int + 1) + es.skip(idx as int + 1) =~= es);
            }
            idx += 1;
        }
        proof {
            assert(es.take(es.len() as int) =~= es);
        }
        let cd_end: u64 = start + out.len() as u64;
        let cd_size: u64 = cd_end - cd_offset;
        let needs_zip64 = total_entries >= 0xFFFF || cd_offset >= 0xFFFFFFFF || any64;
        if needs_zip64 {
            let zip64_eocd_offset: u64 = start + out.len() as u64;
            push_u32le(&mut out, 0x06064b50);
            push_u64le(&mut out, 44);
            push_u16le(&mut out, 45);
            push_u16le(&mut out, 45);
            push_u32le(&mut out, 0);
            push_u32le(&mut out, 0);
            push_u64le(&mut out, total_entries as u64);
            push_u64le(&mut out, total_entries as u64);
            push_u64le(&mut out, cd_size);
            push_u64le(&mut out, cd_offset);
            push_u32le(&mut out, 0x07064b50);
            push_u32le(&mut out, 0);
            push_u64le(&mut out, zip64_eocd_offset);
            push_u32le(&mut out, 1);
        }
        let entries16: u16 = if total_entries >= 0xFFFF {
            0xFFFF
        } else {
            total_entries as u16
        };
        let cd_size32: u32 = cap32(cd_size);
        let cd_offset32: u32 = cap32(cd_offset);
        push_u32le(&mut out, 0x06054b50);
        push_u16le(&mut out, 0);
        push_u16le(&mut out, 0);
        push_u16le(&mut out, entries16);
        push_u16le(&mut out, entries16);
        push_u32le(&mut out, cd_size32);
        push_u32le(&mut out, cd_offset32);
        push_u16le(&mut out, 0);
        proof {
            assert(out@ =~= base + spec_epilogue_bytes(es, self.count_spec()));
        }
        out
    }
}

/// Appends one central directory header for `f`.
#[verifier::rlimit(100)]
#[verifier::spinoff_prover]
fn push_cdh(out: &mut Vec<u8>, f: &FileHeader)
    requires
        f.wf(),
    ensures
        final(out)@ == old(out)@ + spec_cdh_bytes(f.view_entry()),
{
    proof {
        lemma_auto_spec_u16_to_from_le_bytes();
        lemma_auto_spec_u32_to_from_le_bytes();
    }
    let needs = f.compressed_size >= 0xFFFFFFFF || f.uncompressed_size >= 0xFFFFFFFF
        || f.local_header_offset >= 0xFFFFFFFF;
    let version_needed: u16 = if needs {
        45
    } else {
        20
    };
    let vmb_hi: u16 = match &f.unix_permissions {
        Some(_) => 3,
        None => 0,
    };
    let version_made_by: u16 = vmb_hi * 256 + version_needed;
    let ext_attrs: u32 = match &f.unix_permissions {
        Some(m) => *m << 16,
        None => 0,
    };
    push_u32le(out, 0x02014b50);
    push_u16le(out, version_made_by);
    push_u16le(out, version_needed);
    push_u16le(out, f.flags);
    push_u16le(out, f.method_id);
    push_u16le(out, f.dos_time);
    push_u16le(out, f.dos_date);
    push_u32le(out, f.crc);
    push_u32le(out, cap32(f.compressed_size));
    push_u32le(out, cap32(f.uncompressed_size));
    push_u16le(out, f.name.len() as u16);
    push_u16le(out, f.extra_fields.central_size());
    push_u16le(out, 0);
    push_u16le(out, 0);
    push_u16le(out, 0);
    push_u32le(out, ext_attrs);
    push_u32le(out, cap32(f.local_header_offset));
    push_bytes(out, f.name.as_slice());
    f.extra_fields.write_extra_fields(out, Header::central());
    proof {
        assert(final(out)@ =~= old(out)@ + spec_cdh_bytes(f.view_entry()));
    }
}

/// The smaller of a `u64` and the 32-bit sentinel.
fn cap32(x: u64) -> (r: u32)
    ensures
        r == spec_cap32(x),
{
    if x >= 0xFFFFFFFF {
        0xFFFFFFFF
    } else {
        x as u32
    }
}

/// The central directory of a concatenation is the concatenation of the
/// central directories.
proof fn lemma_cd_bytes_concat(a: Seq<CdEntry>, b: Seq<CdEntry>)
    ensures
        spec_cd_bytes(a + b) == spec_cd_bytes(a) + spec_cd_bytes(b),
    decreases a.len(),
{
    if a.len() == 0 {
        assert(a + b =~= b);
        assert(spec_cd_bytes(a) =~= Seq::<u8>::empty());
        assert(spec_cd_bytes(a + b) =~= spec_cd_bytes(a) + spec_cd_bytes(b));
    } else {
        assert((a + b)[0] == a[0]);
        assert((a + b).skip(1) =~= a.skip(1) + b);
        lemma_cd_bytes_concat(a.skip(1), b);
        assert(spec_cd_bytes(a + b) =~= spec_cd_bytes(a) + spec_cd_bytes(b));
    }
}

/// Appending an entry appends its header bytes.
proof fn lemma_cd_bytes_push(es: Seq<CdEntry>, e: CdEntry)
    ensures
        spec_cd_bytes(es.push(e)) == spec_cd_bytes(es) + spec_cdh_bytes(e),
    decreases es.len(),
{
    if es.len() == 0 {
        assert(es.push(e)[0] == e);
        assert(es.push(e).skip(1) =~= Seq::<CdEntry>::empty());
        assert(spec_cd_bytes(Seq::<CdEntry>::empty()) =~= Seq::<u8>::empty());
        assert(spec_cd_bytes(es.push(e)) =~= spec_cd_bytes(es) + spec_cdh_bytes(e));
    } else {
        assert(es.push(e)[0] == es[0]);
        assert(es.push(e).skip(1) =~= es.skip(1).push(e));
        lemma_cd_bytes_push(es.skip(1), e);
        assert(spec_cd_bytes(es.push(e)) =~= spec_cd_bytes(es) + spec_cdh_bytes(e));
    }
}

/// The observable state of an entry builder.
pub ghost struct BuilderView {
    pub name: Seq<u8>,
    pub method: CompressionMethod,
    pub mtime: Option<UtcDateTime>,
    pub perms: Option<u32>,
    pub fields: Seq<FieldSpec>,
}

/// A builder for a new file entry: set options, then `create` it in a
/// [`ZipArchiveWriter`].
#[derive(Debug)]
pub struct ZipFileBuilder<'a> {
    name: &'a str,
    compression_method: CompressionMethod,
    modification_time: Option<UtcDateTime>,
    unix_permissions: Option<u32>,
    extra_fields: ExtraFieldsContainer,
}

impl<'a> ZipFileBuilder<'a> {
    /// The options set so far.
    pub closed spec fn view(&self) -> BuilderView {
        BuilderView {
            name: self.name.spec_bytes(),
            method: self.compression_method,
            mtime: self.modification_time,
            perms: self.unix_permissions,
            fields: self.extra_fields.fields(),
        }
    }

    pub closed spec fn wf(&self) -> bool {
        &&& self.extra_fields.wf()
        &&& match self.modification_time {
            Some(dt) => dt.wf(),
            None => true,
        }
    }

    /// Sets the compression method recorded for the entry (the caller
    /// compresses; the library only records the id).
    #[must_use]
    pub fn compression_method(self, compression_method: CompressionMethod) -> (r: ZipFileBuilder<
        'a,
    >)
        requires
            self.wf(),
        ensures
            r.wf(),
            r@ == (BuilderView { method: compression_method, ..self@ }),
    {
        ZipFileBuilder { compression_method, ..self }
    }

    /// Sets the modification time; an extended timestamp extra field will
    /// carry it in the central directory.
    #[must_use]
    pub fn last_modified(self, modification_time: UtcDateTime) -> (r: ZipFileBuilder<'a>)
        requires
            self.wf(),
            modification_time.wf(),
        ensures
            r.wf(),
            r@ == (BuilderView { mtime: Some(modification_time), ..self@ }),
    {
        ZipFileBuilder { modification_time: Some(modification_time), ..self }
    }

    /// Sets the Unix permissions; the entry will carry them in its external
    /// attributes with a Unix creator system.
    #[must_use]
    pub fn unix_permissions(self, permissions: u32) -> (r: ZipFileBuilder<'a>)
        requires
            self.wf(),
        ensures
            r.wf(),
            r@ == (BuilderView { perms: Some(permissions), ..self@ }),
    {
        ZipFileBuilder { unix_permissions: Some(permissions), ..self }
    }

    /// Adds an extra field to this entry, destined for the given header
    /// location(s). Fails when the location's running total would exceed
    /// 65535 bytes; no deduplication is performed.
    pub fn extra_field(self, id: ExtraFieldId, data: &[u8], location: Header) -> (r: Result<
        ZipFileBuilder<'a>,
        Error,
    >)
        requires
            self.wf(),
            data@.len() + 4 <= usize::MAX,
            spec_fields_bytes(self@.fields).len() + 4 + data@.len() <= usize::MAX,
        ensures
            4 + data@.len() + crate::extra_fields::spec_current_size(self@.fields, location)
                <= 0xFFFF ==> (r matches Ok(b) && b.wf() && b@ == (BuilderView {
                fields: self@.fields.push(FieldSpec { id: id.0, data: data@, loc: location }),
                ..self@
            })),
            4 + data@.len() + crate::extra_fields::spec_current_size(self@.fields, location)
                > 0xFFFF ==> (r matches Err(e) && e.kind matches ErrorKind::InvalidInput { .. }),
    {
        let mut s = self;
        match s.extra_fields.add_field(id, data, location) {
            Ok(_) => Ok(s),
            Err(e) => Err(e),
        }
    }

    /// Writes the local file header for this entry into `archive` and
    /// returns the writer for the entry's (compressed) content.
    ///
    /// Fails with `InvalidInput` when the name (with trailing slashes
    /// trimmed) is longer than 65535 bytes, or when a modification time is
    /// set and the central extras cannot take the 9-byte extended timestamp
    /// field; the archive is unchanged on failure.
    #[verifier::rlimit(100)]
    pub fn create(self, archive: &mut ZipArchiveWriter) -> (r: Result<ZipEntryWriter, Error>)
        requires
            self.wf(),
            old(archive).wf(),
            old(archive).count_spec() + 30 + self@.name.len() + 0x20000 <= u64::MAX,
            spec_fields_bytes(self@.fields).len() + 9 <= usize::MAX,
        ensures
            final(archive).wf(),
            final(archive).start_offset() == old(archive).start_offset(),
            final(archive).entries() == old(archive).entries(),
            r matches Err(_) ==> final(archive).written() == old(archive).written(),
            r is Err <==> spec_trim_slashes(self@.name).len() > 0xFFFF || (self@.mtime is Some && 9
                + crate::extra_fields::spec_current_size(self@.fields, Header(2)) > 0xFFFF),
            r matches Err(e) ==> e.kind matches ErrorKind::InvalidInput { .. },
            r matches Ok(w) ==> {
                let name = spec_trim_slashes(self@.name);
                let flags = spec_entry_flags(name);
                &&& w.wf()
                &&& w@ == (EntryView {
                    compressed_bytes: 0,
                    name: name,
                    lho: old(archive).count_spec() as u64,
                    method_id: self@.method.spec_id(),
                    flags: flags,
                    dos_time: spec_mtime_dos_time(self@.mtime),
                    dos_date: spec_mtime_dos_date(self@.mtime),
                    unix_mode: self@.perms,
                    fields: spec_fields_with_timestamp(self@.fields, self@.mtime),
                })
                &&& final(archive).written() == old(archive).written() + spec_lfh_bytes(
                    name,
                    spec_lfh_version(old(archive).count_spec()),
                    flags,
                    self@.method.spec_id(),
                    spec_mtime_dos_time(self@.mtime),
                    spec_mtime_dos_date(self@.mtime),
                    spec_filtered_bytes(self@.fields, Header(1)),
                )
            },
    {
        proof {
            lemma_auto_spec_u32_to_from_le_bytes();
        }
        let name_bytes = self.name.as_bytes();
        let trimmed = trim_trailing_slashes(name_bytes);
        if trimmed.len() > 0xFFFF {
            return Err(
                Error::from_kind(ErrorKind::InvalidInput { msg: "file name too long".to_string() }),
            );
        }
        let mut extra_fields = self.extra_fields;
        let (dos_time, dos_date) = match &self.modification_time {
            Some(dt) => {
                let unix = dt.to_unix();
                let unix32: u32 = if unix > 0xFFFFFFFFi64 {
                    0xFFFFFFFFu32
                } else {
                    unix as u32
                };
                let mut ts: Vec<u8> = Vec::new();
                ts.push(1u8);
                push_u32le(&mut ts, unix32);
                proof {
                    assert(ts@ =~= seq![1u8] + spec_u32_to_le_bytes(unix32));
                }
                match extra_fields.add_field(
                    ExtraFieldId::extended_timestamp(),
                    ts.as_slice(),
                    Header::central(),
                ) {
                    Ok(_) => {},
                    Err(e) => {
                        return Err(e);
                    },
                }
                DosDateTime::from_utc(dt).into_parts()
            },
            None => (0u16, 0u16),
        };
        let path = ZipFilePath::from_bytes(trimmed);
        let flags: u16 = if path.needs_utf8_encoding() {
            0x808
        } else {
            0x8
        };
        let local_header_offset = archive.count();
        let version_needed: u16 = if local_header_offset >= 0xFFFFFFFF {
            45
        } else {
            20
        };
        let method_id = self.compression_method.as_id();
        archive.write_local_header(
            trimmed,
            version_needed,
            flags,
            method_id,
            dos_time,
            dos_date,
            &extra_fields,
        );
        proof {
            if self.modification_time is Some {
                assert(2u8 & 1u8 == 0) by (bit_vector);
                crate::extra_fields::lemma_filtered_push(
                    self@.fields,
                    FieldSpec {
                        id: 0x5455,
                        data: seq![1u8] + spec_u32_to_le_bytes(
                            spec_mtime_unix32(self.modification_time->Some_0),
                        ),
                        loc: Header(2),
                    },
                    Header(1),
                );
                assert(spec_filtered_bytes(
                    spec_fields_with_timestamp(self@.fields, self@.mtime),
                    Header(1),
                ) =~= spec_filtered_bytes(self@.fields, Header(1)));
            }
        }
        let mut name_vec: Vec<u8> = Vec::new();
        push_bytes(&mut name_vec, trimmed);
        Ok(
            ZipEntryWriter {
                compressed_bytes: 0,
                name: name_vec,
                local_header_offset,
                method_id,
                flags,
                dos_time,
                dos_date,
                unix_permissions: self.unix_permissions,
                extra_fields,
            },
        )
    }
}

/// The flags a file entry is written with: the data-descriptor bit, plus
/// the UTF-8 bit when the name carries a non-ASCII byte.
pub open spec fn spec_entry_flags(name: Seq<u8>) -> u16 {
    if exists|i: int| 0 <= i < name.len() && #[trigger] name[i] >= 0x80 {
        0x808u16
    } else {
        0x8u16
    }
}

/// The flags a directory entry is written with: only the UTF-8 bit, when
/// needed.
pub open spec fn spec_dir_flags(name: Seq<u8>) -> u16 {
    if exists|i: int| 0 <= i < name.len() && #[trigger] name[i] >= 0x80 {
        0x800u16
    } else {
        0u16
    }
}

/// `name` with every trailing `/` removed.
pub open spec fn spec_trim_slashes(name: Seq<u8>) -> Seq<u8>
    decreases name.len(),
{
    if name.len() > 0 && name[name.len() - 1] == 47 {
        spec_trim_slashes(name.drop_last())
    } else {
        name
    }
}

/// The DOS time field the writer records for an optional modification
/// time.
pub open spec fn spec_mtime_dos_time(mtime: Option<UtcDateTime>) -> u16 {
    match mtime {
        Some(dt) => crate::time::spec_dos_time(
            dt.spec_year() as int,
            dt.spec_hour() as int,
            dt.spec_minute() as int,
            dt.spec_second() as int,
        ),
        None => 0,
    }
}

/// The DOS date field the writer records for an optional modification
/// time.
pub open spec fn spec_mtime_dos_date(mtime: Option<UtcDateTime>) -> u16 {
    match mtime {
        Some(dt) => crate::time::spec_dos_date(
            dt.spec_year() as int,
            dt.spec_month() as int,
            dt.spec_day() as int,
        ),
        None => 0,
    }
}

/// The saturated 32-bit unix time an extended timestamp records.
pub open spec fn spec_mtime_unix32(dt: UtcDateTime) -> u32 {
    if dt.spec_to_unix() > 0xFFFFFFFF {
        0xFFFFFFFFu32
    } else {
        dt.spec_to_unix() as u32
    }
}

/// The entry's extra fields after the writer has appended the automatic
/// central-directory extended timestamp (when a modification time is set).
pub open spec fn spec_fields_with_timestamp(
    fields: Seq<FieldSpec>,
    mtime: Option<UtcDateTime>,
) -> Seq<FieldSpec> {
    match mtime {
        Some(dt) => fields.push(
            FieldSpec {
                id: 0x5455,
                data: seq![1u8] + spec_u32_to_le_bytes(spec_mtime_unix32(dt)),
                loc: Header(2),
            },
        ),
        None => fields,
    }
}

/// The observable state of an entry writer.
pub ghost struct EntryView {
    pub compressed_bytes: u64,
    pub name: Seq<u8>,
    pub lho: u64,
    pub method_id: u16,
    pub flags: u16,
    pub dos_time: u16,
    pub dos_date: u16,
    pub unix_mode: Option<u32>,
    pub fields: Seq<FieldSpec>,
}

/// A writer for one file entry's (compressed) content. Bytes handed to
/// [`ZipEntryWriter::write`] go into the archive verbatim: the caller
/// compresses, the library counts.
#[derive(Debug)]
pub struct ZipEntryWriter {
    compressed_bytes: u64,
    name: Vec<u8>,
    local_header_offset: u64,
    method_id: u16,
    flags: u16,
    dos_time: u16,
    dos_date: u16,
    unix_permissions: Option<u32>,
    extra_fields: ExtraFieldsContainer,
}

impl ZipEntryWriter {
    /// The recorded state of the entry.
    pub closed spec fn view(&self) -> EntryView {
        EntryView {
            compressed_bytes: self.compressed_bytes,
            name: self.name@,
            lho: self.local_header_offset,
            method_id: self.method_id,
            flags: self.flags,
            dos_time: self.dos_time,
            dos_date: self.dos_date,
            unix_mode: self.unix_permissions,
            fields: self.extra_fields.fields(),
        }
    }

    pub closed spec fn wf(&self) -> bool {
        &&& self.extra_fields.wf()
        &&& self.name@.len() <= 0xFFFF
    }

    /// The number of bytes written through this entry so far.
    pub fn compressed_bytes(&self) -> (r: u64)
        ensures
            r == self@.compressed_bytes,
    {
        self.compressed_bytes
    }

    /// Appends `buf` to the archive as entry content, verbatim.
    pub fn write(&mut self, archive: &mut ZipArchiveWriter, buf: &[u8]) -> (n: usize)
        requires
            old(self).wf(),
            old(archive).wf(),
            old(archive).count_spec() + buf@.len() <= u64::MAX,
            old(self)@.compressed_bytes + buf@.len() <= u64::MAX,
        ensures
            final(self).wf(),
            final(archive).wf(),
            n == buf@.len(),
            final(archive).written() == old(archive).written() + buf@,
            final(archive).entries() == old(archive).entries(),
            final(archive).start_offset() == old(archive).start_offset(),
            final(self)@ == (EntryView {
                compressed_bytes: (old(self)@.compressed_bytes + buf@.len()) as u64,
                ..old(self)@
            }),
    {
        push_bytes(&mut archive.out, buf);
        self.compressed_bytes = self.compressed_bytes + buf.len() as u64;
        proof {
            assert(final(archive).entries() =~= old(archive).entries());
        }
        buf.len()
    }

    /// Writes the entry's data descriptor and records the entry for the
    /// central directory, returning the compressed byte count. `output`
    /// comes from the [`ZipDataWriter`] that tracked the uncompressed
    /// bytes; the compressed size it carries is replaced by this entry's
    /// own count.
    ///
    /// Fails with `InvalidInput` (after the descriptor is written, with no
    /// entry recorded) when the entry needs a ZIP64 extra field and the
    /// central extras cannot take it.
    #[verifier::rlimit(100)]
    pub fn finish(self, archive: &mut ZipArchiveWriter, output: DataDescriptorOutput) -> (r:
        Result<u64, Error>)
        requires
            self.wf(),
            old(archive).wf(),
            old(archive).count_spec() + 64 <= u64::MAX,
            spec_fields_bytes(self@.fields).len() + 28 <= usize::MAX,
        ensures
            final(archive).wf(),
            final(archive).start_offset() == old(archive).start_offset(),
            final(archive).written() == old(archive).written() + spec_dd_bytes(
                output.crc,
                self@.compressed_bytes,
                output.uncompressed_size,
                self@.lho,
            ),
            ({
                let fields2 = spec_fields_with_zip64(
                    self@.fields,
                    self@.compressed_bytes,
                    output.uncompressed_size,
                    self@.lho,
                );
                let overflow = spec_needs_zip64_values(
                    self@.compressed_bytes,
                    output.uncompressed_size,
                    self@.lho,
                ) && 4 + spec_zip64_data(
                    self@.compressed_bytes,
                    output.uncompressed_size,
                    self@.lho,
                ).len() + crate::extra_fields::spec_current_size(self@.fields, Header(2)) > 0xFFFF;
                &&& (r is Err <==> overflow)
                &&& (r matches Err(e) ==> e.kind matches ErrorKind::InvalidInput { .. }
                    && final(archive).entries() == old(archive).entries())
                &&& (r matches Ok(n) ==> n == self@.compressed_bytes && final(archive).entries()
                    == old(archive).entries().push(
                    CdEntry {
                        name: self@.name,
                        method_id: self@.method_id,
                        lho: self@.lho,
                        compressed_size: self@.compressed_bytes,
                        uncompressed_size: output.uncompressed_size,
                        crc: output.crc,
                        flags: self@.flags,
                        dos_time: self@.dos_time,
                        dos_date: self@.dos_date,
                        unix_mode: self@.unix_mode,
                        central_extras: spec_filtered_bytes(fields2, Header(2)),
                    },
                ))
            }),
    {
        let compressed = self.compressed_bytes;
        let uncompressed = output.uncompressed_size;
        proof {
            lemma_auto_spec_u32_to_from_le_bytes();
            lemma_auto_spec_u64_to_from_le_bytes();
        }
        let needs_zip64 = compressed >= 0xFFFFFFFF || uncompressed >= 0xFFFFFFFF
            || self.local_header_offset >= 0xFFFFFFFF;
        push_u32le(&mut archive.out, 0x08074b50);
        push_u32le(&mut archive.out, output.crc);
        if needs_zip64 {
            push_u64le(&mut archive.out, compressed);
            push_u64le(&mut archive.out, uncompressed);
        } else {
            push_u32le(&mut archive.out, compressed as u32);
            push_u32le(&mut archive.out, uncompressed as u32);
        }
        proof {
            assert(archive.out@ =~= old(archive).written() + spec_dd_bytes(
                output.crc,
                compressed,
                uncompressed,
                self.local_header_offset,
            ));
        }
        let mut extra_fields = self.extra_fields;
        if needs_zip64 {
            let mut sink: Vec<u8> = Vec::new();
            if uncompressed >= 0xFFFFFFFF {
                push_u64le(&mut sink, uncompressed);
            }
            if compressed >= 0xFFFFFFFF {
                push_u64le(&mut sink, compressed);
            }
            if self.local_header_offset >= 0xFFFFFFFF {
                push_u64le(&mut sink, self.local_header_offset);
            }
            proof {
                assert(sink@ =~= spec_zip64_data(
                    compressed,
                    uncompressed,
                    self.local_header_offset,
                ));
            }
            match extra_fields.add_field(ExtraFieldId::zip64(), sink.as_slice(), Header::central())
            {
                Ok(_) => {},
                Err(e) => {
                    proof {
                        assert(final(archive).entries() =~= old(archive).entries());
                    }
                    return Err(e);
                },
            }
        }
        let fh = FileHeader {
            name: self.name,
            method_id: self.method_id,
            local_header_offset: self.local_header_offset,
            compressed_size: compressed,
            uncompressed_size: uncompressed,
            crc: output.crc,
            flags: self.flags,
            dos_time: self.dos_time,
            dos_date: self.dos_date,
            unix_permissions: self.unix_permissions,
            extra_fields,
        };
        archive.files.push(fh);
        proof {
            let fields2 = spec_fields_with_zip64(
                self@.fields,
                self@.compressed_bytes,
                output.uncompressed_size,
                self@.lho,
            );
            assert(final(archive).entries() =~= old(archive).entries().push(
                CdEntry {
                    name: self@.name,
                    method_id: self@.method_id,
                    lho: self@.lho,
                    compressed_size: self@.compressed_bytes,
                    uncompressed_size: output.uncompressed_size,
                    crc: output.crc,
                    flags: self@.flags,
                    dos_time: self@.dos_time,
                    dos_date: self@.dos_date,
                    unix_mode: self@.unix_mode,
                    central_extras: spec_filtered_bytes(fields2, Header(2)),
                },
            ));
        }
        Ok(compressed)
    }
}

/// These sizes or this offset force ZIP64 treatment for an entry.
pub open spec fn spec_needs_zip64_values(compressed: u64, uncompressed: u64, lho: u64) -> bool {
    compressed >= 0xFFFFFFFF || uncompressed >= 0xFFFFFFFF || lho >= 0xFFFFFFFF
}

/// The body of the ZIP64 extra field for the given values: the overflowed
/// ones only, in the order uncompressed, compressed, offset.
pub open spec fn spec_zip64_data(compressed: u64, uncompressed: u64, lho: u64) -> Seq<u8> {
    (if uncompressed >= 0xFFFFFFFF {
        spec_u64_to_le_bytes(uncompressed)
    } else {
        Seq::<u8>::empty()
    }) + (if compressed >= 0xFFFFFFFF {
        spec_u64_to_le_bytes(compressed)
    } else {
        Seq::<u8>::empty()
    }) + (if lho >= 0xFFFFFFFF {
        spec_u64_to_le_bytes(lho)
    } else {
        Seq::<u8>::empty()
    })
}

/// The entry's extra fields after the writer has appended the automatic
/// ZIP64 field (when sizes or offset overflow their 32-bit fields).
pub open spec fn spec_fields_with_zip64(
    fields: Seq<FieldSpec>,
    compressed: u64,
    uncompressed: u64,
    lho: u64,
) -> Seq<FieldSpec> {
    if spec_needs_zip64_values(compressed, uncompressed, lho) {
        fields.push(
            FieldSpec {
                id: 0x0001,
                data: spec_zip64_data(compressed, uncompressed, lho),
                loc: Header(2),
            },
        )
    } else {
        fields
    }
}

/// Trims every trailing `/` from `name`.
fn trim_trailing_slashes<'a>(name: &'a [u8]) -> (r: &'a [u8])
    ensures
        r@ == spec_trim_slashes(name@),
{
    let mut end = name.len();
    proof {
        assert(name@.take(name@.len() as int) =~= name@);
    }
    while end > 0 && name[end - 1] == 47
        invariant
            end <= name@.len(),
            spec_trim_slashes(name@) == spec_trim_slashes(name@.take(end as int)),
        decreases end,
    {
        proof {
            assert(name@.take(end as int).drop_last() =~= name@.take(end - 1));
        }
        end = end - 1;
    }
    let r = slice_subrange(name, 0, end);
    proof {
        if end > 0 {
            assert(name@.take(end as int)[end - 1] == name@[end - 1]);
        }
        assert(spec_trim_slashes(name@.take(end as int)) == name@.take(end as int));
    }
    r
}

/// Contains what the data descriptor records: CRC-32 and sizes.
#[derive(Debug, Clone)]
pub struct DataDescriptorOutput {
    pub crc: u32,
    pub compressed_size: u64,
    pub uncompressed_size: u64,
}

impl DataDescriptorOutput {
    /// The CRC-32 of the uncompressed data.
    pub fn crc(&self) -> (r: u32)
        ensures
            r == self.crc,
    {
        self.crc
    }

    /// The uncompressed size of the data.
    pub fn uncompressed_size(&self) -> (r: u64)
        ensures
            r == self.uncompressed_size,
    {
        self.uncompressed_size
    }
}

/// A builder for a directory entry: set options, then `create` it in a
/// [`ZipArchiveWriter`].
#[derive(Debug)]
pub struct ZipDirBuilder<'a> {
    name: &'a str,
    modification_time: Option<UtcDateTime>,
    unix_permissions: Option<u32>,
    extra_fields: ExtraFieldsContainer,
}

impl<'a> ZipDirBuilder<'a> {
    /// The options set so far (directories always use `Store`).
    pub closed spec fn view(&self) -> BuilderView {
        BuilderView {
            name: self.name.spec_bytes(),
            method: CompressionMethod::Store,
            mtime: self.modification_time,
            perms: self.unix_permissions,
            fields: self.extra_fields.fields(),
        }
    }

    pub closed spec fn wf(&self) -> bool {
        &&& self.extra_fields.wf()
        &&& match self.modification_time {
            Some(dt) => dt.wf(),
            None => true,
        }
    }

    /// Sets the modification time for the directory entry.
    #[must_use]
    pub fn last_modified(self, modification_time: UtcDateTime) -> (r: ZipDirBuilder<'a>)
        requires
            self.wf(),
            modification_time.wf(),
        ensures
            r.wf(),
            r@ == (BuilderView { mtime: Some(modification_time), ..self@ }),
    {
        ZipDirBuilder { modification_time: Some(modification_time), ..self }
    }

    /// Sets the Unix permissions for the directory entry.
    #[must_use]
    pub fn unix_permissions(self, permissions: u32) -> (r: ZipDirBuilder<'a>)
        requires
            self.wf(),
        ensures
            r.wf(),
            r@ == (BuilderView { perms: Some(permissions), ..self@ }),
    {
        ZipDirBuilder { unix_permissions: Some(permissions), ..self }
    }

    /// Adds an extra field to this directory entry. See
    /// [`ZipFileBuilder::extra_field`].
    pub fn extra_field(self, id: ExtraFieldId, data: &[u8], location: Header) -> (r: Result<
        ZipDirBuilder<'a>,
        Error,
    >)
        requires
            self.wf(),
            data@.len() + 4 <= usize::MAX,
            spec_fields_bytes(self@.fields).len() + 4 + data@.len() <= usize::MAX,
        ensures
            4 + data@.len() + crate::extra_fields::spec_current_size(self@.fields, location)
                <= 0xFFFF ==> (r matches Ok(b) && b.wf() && b@ == (BuilderView {
                fields: self@.fields.push(FieldSpec { id: id.0, data: data@, loc: location }),
                ..self@
            })),
            4 + data@.len() + crate::extra_fields::spec_current_size(self@.fields, location)
                > 0xFFFF ==> (r matches Err(e) && e.kind matches ErrorKind::InvalidInput { .. }),
    {
        let mut s = self;
        match s.extra_fields.add_field(id, data, location) {
            Ok(_) => Ok(s),
            Err(e) => Err(e),
        }
    }

    /// Writes the directory entry (local header only: directories carry no
    /// data and no data descriptor) and records it for the central
    /// directory.
    ///
    /// Fails with `InvalidInput` when the name does not end with `/`, when
    /// it is longer than 65535 bytes, or when a modification time is set
    /// and the central extras cannot take the 9-byte extended timestamp
    /// field; the archive is unchanged on failure.
    #[verifier::rlimit(100)]
    pub fn create(self, archive: &mut ZipArchiveWriter) -> (r: Result<(), Error>)
        requires
            self.wf(),
            old(archive).wf(),
            old(archive).count_spec() + 30 + self@.name.len() + 0x20000 <= u64::MAX,
            spec_fields_bytes(self@.fields).len() + 9 <= usize::MAX,
        ensures
            final(archive).wf(),
            final(archive).start_offset() == old(archive).start_offset(),
            r matches Err(e) ==> *final(archive) == *old(archive) && e.kind
                matches ErrorKind::InvalidInput { .. },
            r is Err <==> !(self@.name.len() > 0 && self@.name[self@.name.len() - 1] == 47)
                || self@.name.len() > 0xFFFF || (self@.mtime is Some && 9
                + crate::extra_fields::spec_current_size(self@.fields, Header(2)) > 0xFFFF),
            r is Ok ==> {
                let name = self@.name;
                let flags = spec_dir_flags(name);
                let fields2 = spec_fields_with_timestamp(self@.fields, self@.mtime);
                &&& final(archive).written() == old(archive).written() + spec_lfh_bytes(
                    name,
                    spec_lfh_version(old(archive).count_spec()),
                    flags,
                    0,
                    spec_mtime_dos_time(self@.mtime),
                    spec_mtime_dos_date(self@.mtime),
                    spec_filtered_bytes(self@.fields, Header(1)),
                )
                &&& final(archive).entries() == old(archive).entries().push(
                    CdEntry {
                        name: name,
                        method_id: 0,
                        lho: old(archive).count_spec() as u64,
                        compressed_size: 0,
                        uncompressed_size: 0,
                        crc: 0,
                        flags: flags,
                        dos_time: spec_mtime_dos_time(self@.mtime),
                        dos_date: spec_mtime_dos_date(self@.mtime),
                        unix_mode: self@.perms,
                        central_extras: spec_filtered_bytes(fields2, Header(2)),
                    },
                )
            },
    {
        proof {
            lemma_auto_spec_u32_to_from_le_bytes();
        }
        let name_bytes = self.name.as_bytes();
        let path = ZipFilePath::from_bytes(name_bytes);
        if !path.is_dir() {
            return Err(
                Error::from_kind(ErrorKind::InvalidInput { msg: "not a directory".to_string() }),
            );
        }
        if name_bytes.len() > 0xFFFF {
            return Err(
                Error::from_kind(
                    ErrorKind::InvalidInput { msg: "directory name too long".to_string() },
                ),
            );
        }
        let mut extra_fields = self.extra_fields;
        let (dos_time, dos_date) = match &self.modification_time {
            Some(dt) => {
                let unix = dt.to_unix();
                let unix32: u32 = if unix > 0xFFFFFFFFi64 {
                    0xFFFFFFFFu32
                } else {
                    unix as u32
                };
                let mut ts: Vec<u8> = Vec::new();
                ts.push(1u8);
                push_u32le(&mut ts, unix32);
                proof {
                    assert(ts@ =~= seq![1u8] + spec_u32_to_le_bytes(unix32));
                }
                match extra_fields.add_field(
                    ExtraFieldId::extended_timestamp(),
                    ts.as_slice(),
                    Header::central(),
                ) {
                    Ok(_) => {},
                    Err(e) => {
                        return Err(e);
                    },
                }
                DosDateTime::from_utc(dt).into_parts()
            },
            None => (0u16, 0u16),
        };
        let flags: u16 = if path.needs_utf8_encoding() {
            0x800
        } else {
            0
        };
        let local_header_offset = archive.count();
        let version_needed: u16 = if local_header_offset >= 0xFFFFFFFF {
            45
        } else {
            20
        };
        archive.write_local_header(
            name_bytes,
            version_needed,
            flags,
            0,
            dos_time,
            dos_date,
            &extra_fields,
        );
        proof {
            if self.modification_time is Some {
                assert(2u8 & 1u8 == 0) by (bit_vector);
                crate::extra_fields::lemma_filtered_push(
                    self@.fields,
                    FieldSpec {
                        id: 0x5455,
                        data: seq![1u8] + spec_u32_to_le_bytes(
                            spec_mtime_unix32(self.modification_time->Some_0),
                        ),
                        loc: Header(2),
                    },
                    Header(1),
                );
                assert(spec_filtered_bytes(
                    spec_fields_with_timestamp(self@.fields, self@.mtime),
                    Header(1),
                ) =~= spec_filtered_bytes(self@.fields, Header(1)));
            }
        }
        let mut name_vec: Vec<u8> = Vec::new();
        push_bytes(&mut name_vec, name_bytes);
        let fh = FileHeader {
            name: name_vec,
            method_id: 0,
            local_header_offset,
            compressed_size: 0,
            uncompressed_size: 0,
            crc: 0,
            flags,
            dos_time,
            dos_date,
            unix_permissions: self.unix_permissions,
            extra_fields,
        };
        archive.files.push(fh);
        proof {
            let fields2 = spec_fields_with_timestamp(self@.fields, self@.mtime);
            assert(final(archive).entries() =~= old(archive).entries().push(
                CdEntry {
                    name: self@.name,
                    method_id: 0,
                    lho: old(archive).count_spec() as u64,
                    compressed_size: 0,
                    uncompressed_size: 0,
                    crc: 0,
                    flags: spec_dir_flags(self@.name),
                    dos_time: spec_mtime_dos_time(self@.mtime),
                    dos_date: spec_mtime_dos_date(self@.mtime),
                    unix_mode: self@.perms,
                    central_extras: spec_filtered_bytes(fields2, Header(2)),
                },
            ));
        }
        Ok(())
    }
}

/// A writer for the uncompressed data of a file entry: it forwards bytes
/// into the entry and tracks the running CRC-32 and byte count that the
/// data descriptor needs.
pub struct ZipDataWriter {
    inner: ZipEntryWriter,
    uncompressed_bytes: u64,
    crc: u32,
    table: Vec<u32>,
    processed: Ghost<Seq<u8>>,
}

impl ZipDataWriter {
    /// The state of the wrapped entry writer.
    pub closed spec fn inner_view(&self) -> EntryView {
        self.inner.view()
    }

    /// The bytes fed through this writer so far.
    pub closed spec fn processed(&self) -> Seq<u8> {
        self.processed@
    }

    pub closed spec fn wf(&self) -> bool {
        &&& self.inner.wf()
        &&& self.uncompressed_bytes == self.processed@.len()
        &&& self.crc == crate::crc::spec_crc32(self.processed@)
        &&& self.table@.len() == 256
        &&& forall|i: int| 0 <= i < 256 ==> self.table@[i] == crc32_steps(i as u32, 8)
    }

    /// Wraps an entry writer.
    pub fn new(inner: ZipEntryWriter) -> (r: ZipDataWriter)
        requires
            inner.wf(),
        ensures
            r.wf(),
            r.inner_view() == inner@,
            r.processed() == Seq::<u8>::empty(),
    {
        let table = crc32_table();
        proof {
            assert(!(0u32) == 0xFFFFFFFFu32 && !(0xFFFFFFFFu32) == 0u32) by (bit_vector);
            assert(crate::crc::crc32_fold(!(0u32), Seq::<u8>::empty()) == !(0u32));
            assert(crate::crc::spec_crc32(Seq::<u8>::empty()) == 0);
        }
        ZipDataWriter { inner, uncompressed_bytes: 0, crc: 0, table, processed: Ghost(Seq::empty()) }
    }

    /// Writes `buf` through to the entry (and so to the archive), updating
    /// the running CRC-32 and count.
    pub fn write(&mut self, archive: &mut ZipArchiveWriter, buf: &[u8]) -> (n: usize)
        requires
            old(self).wf(),
            old(archive).wf(),
            old(archive).count_spec() + buf@.len() <= u64::MAX,
            old(self).inner_view().compressed_bytes + buf@.len() <= u64::MAX,
            old(self).processed().len() + buf@.len() <= u64::MAX,
        ensures
            final(self).wf(),
            final(archive).wf(),
            n == buf@.len(),
            final(archive).written() == old(archive).written() + buf@,
            final(archive).entries() == old(archive).entries(),
            final(archive).start_offset() == old(archive).start_offset(),
            final(self).processed() == old(self).processed() + buf@,
            final(self).inner_view() == (EntryView {
                compressed_bytes: (old(self).inner_view().compressed_bytes + buf@.len()) as u64,
                ..old(self).inner_view()
            }),
    {
        let n = self.inner.write(archive, buf);
        self.uncompressed_bytes = self.uncompressed_bytes + n as u64;
        self.crc = crc32_chunk_with_table(buf, self.crc, &self.table);
        proof {
            crate::crc::lemma_crc32_chunked(old(self).processed@, buf@, 0);
        }
        self.processed = Ghost(self.processed@ + buf@);
        n
    }

    /// A mutable reference to the wrapped entry writer.
    pub fn get_mut(&mut self) -> (r: &mut ZipEntryWriter)
        requires
            old(self).wf(),
        ensures
            r@ == old(self).inner_view(),
            final(self).inner_view() == final(r)@,
            final(self).processed() == old(self).processed(),
            final(r).wf() ==> final(self).wf(),
    {
        &mut self.inner
    }

    /// Hands back the entry writer together with the CRC-32 and
    /// uncompressed size for [`ZipEntryWriter::finish`].
    pub fn finish(self) -> (r: (ZipEntryWriter, DataDescriptorOutput))
        requires
            self.wf(),
        ensures
            r.0.wf(),
            r.0@ == self.inner_view(),
            r.1.crc == crate::crc::spec_crc32(self.processed()),
            r.1.uncompressed_size == self.processed().len(),
            r.1.compressed_size == 0,
    {
        let output = DataDescriptorOutput {
            crc: self.crc,
            compressed_size: 0,
            uncompressed_size: self.uncompressed_bytes,
        };
        (self.inner, output)
    }
}

} // verus!

verus! {

/// ZIP64-threshold law: whenever an archive crosses a ZIP64 threshold —
/// its entry count reaches 65535, its central directory starts at or past
/// 2^32, or any entry's sizes or offset reach 2^32 — the emitted epilogue
/// carries the ZIP64 end-of-central-directory record and locator between
/// the central directory and the end-of-central-directory record, and each
/// 16/32-bit end-of-central-directory field whose value crossed its
/// threshold carries its sentinel. (Each overflowing central-directory
/// header field carries its sentinel by [`spec_cdh_bytes`] capping through
/// [`spec_cap32`], with the true values in that entry's ZIP64 extra
/// field.)
pub proof fn lemma_zip64_threshold(es: Seq<CdEntry>, cd_offset: int)
    requires
        0 <= cd_offset,
        spec_archive_needs_zip64(es, cd_offset),
    ensures
        ({
            let cd = spec_cd_bytes(es);
            spec_epilogue_bytes(es, cd_offset) == cd + spec_zip64_eocd_bytes(
                es.len() as u64,
                cd.len() as u64,
                cd_offset as u64,
            ) + spec_zip64_locator_bytes((cd_offset + cd.len()) as u64) + spec_eocd_bytes(
                if es.len() >= 0xFFFF {
                    0xFFFFu16
                } else {
                    es.len() as u16
                },
                if cd.len() >= 0xFFFFFFFF {
                    0xFFFFFFFFu32
                } else {
                    cd.len() as u32
                },
                if cd_offset >= 0xFFFFFFFF {
                    0xFFFFFFFFu32
                } else {
                    cd_offset as u32
                },
            )
        }),
        forall|i: int|
            0 <= i < es.len() && (#[trigger] es[i]).compressed_size >= 0xFFFFFFFF ==> spec_cap32(
                es[i].compressed_size,
            ) == 0xFFFFFFFF,
        forall|i: int|
            0 <= i < es.len() && (#[trigger] es[i]).uncompressed_size >= 0xFFFFFFFF ==> spec_cap32(
                es[i].uncompressed_size,
            ) == 0xFFFFFFFF,
        forall|i: int|
            0 <= i < es.len() && (#[trigger] es[i]).lho >= 0xFFFFFFFF ==> spec_cap32(es[i].lho)
                == 0xFFFFFFFF,
{
    let cd = spec_cd_bytes(es);
    assert(spec_epilogue_bytes(es, cd_offset) =~= cd + spec_zip64_eocd_bytes(
        es.len() as u64,
        cd.len() as u64,
        cd_offset as u64,
    ) + spec_zip64_locator_bytes((cd_offset + cd.len()) as u64) + spec_eocd_bytes(
        if es.len() >= 0xFFFF {
            0xFFFFu16
        } else {
            es.len() as u16
        },
        if cd.len() >= 0xFFFFFFFF {
            0xFFFFFFFFu32
        } else {
            cd.len() as u32
        },
        if cd_offset >= 0xFFFFFFFF {
            0xFFFFFFFFu32
        } else {
            cd_offset as u32
        },
    ));
}

} // verus!

verus! {

/// Record round trip, central directory side: the header bytes the writer
/// emits for an entry read back, field by field at the reader's offsets,
/// as exactly the recorded entry — signature, fixed fields, name and
/// extras.
pub proof fn lemma_cdh_parse(e: CdEntry)
    requires
        e.name.len() <= 0xFFFF,
        e.central_extras.len() <= 0xFFFF,
    ensures
        ({
            let b = spec_cdh_bytes(e);
            let nl = e.name.len() as int;
            let el = e.central_extras.len() as int;
            &&& b.len() == 46 + nl + el
            &&& crate::locator::spec_u32_at(b, 0) == 0x02014b50
            &&& crate::locator::spec_u16_at(b, 8) == e.flags
            &&& crate::locator::spec_u16_at(b, 10) == e.method_id
            &&& crate::locator::spec_u16_at(b, 12) == e.dos_time
            &&& crate::locator::spec_u16_at(b, 14) == e.dos_date
            &&& crate::locator::spec_u32_at(b, 16) == e.crc
            &&& crate::locator::spec_u32_at(b, 20) == spec_cap32(e.compressed_size)
            &&& crate::locator::spec_u32_at(b, 24) == spec_cap32(e.uncompressed_size)
            &&& crate::locator::spec_u16_at(b, 28) == nl
            &&& crate::locator::spec_u16_at(b, 30) == el
            &&& crate::locator::spec_u16_at(b, 32) == 0
            &&& crate::locator::spec_u16_at(b, 34) == 0
            &&& crate::locator::spec_u32_at(b, 42) == spec_cap32(e.lho)
            &&& b.subrange(46, 46 + nl) == e.name
            &&& b.subrange(46 + nl, 46 + nl + el) == e.central_extras
        }),
{
    lemma_auto_spec_u16_to_from_le_bytes();
    lemma_auto_spec_u32_to_from_le_bytes();
    let b = spec_cdh_bytes(e);
    let nl = e.name.len() as int;
    let el = e.central_extras.len() as int;
    let version_needed: u16 = if spec_entry_needs_zip64(e) {
        45u16
    } else {
        20u16
    };
    let vmb_hi: u16 = if e.unix_mode is Some {
        3u16
    } else {
        0u16
    };
    let ext_attrs: u32 = match e.unix_mode {
        Some(m) => m << 16,
        None => 0u32,
    };
    assert(b.subrange(0, 4) =~= spec_u32_to_le_bytes(0x02014b50));
    assert(b.subrange(8, 10) =~= spec_u16_to_le_bytes(e.flags));
    assert(b.subrange(10, 12) =~= spec_u16_to_le_bytes(e.method_id));
    assert(b.subrange(12, 14) =~= spec_u16_to_le_bytes(e.dos_time));
    assert(b.subrange(14, 16) =~= spec_u16_to_le_bytes(e.dos_date));
    assert(b.subrange(16, 20) =~= spec_u32_to_le_bytes(e.crc));
    assert(b.subrange(20, 24) =~= spec_u32_to_le_bytes(spec_cap32(e.compressed_size)));
    assert(b.subrange(24, 28) =~= spec_u32_to_le_bytes(spec_cap32(e.uncompressed_size)));
    assert(b.subrange(28, 30) =~= spec_u16_to_le_bytes(e.name.len() as u16));
    assert(b.subrange(30, 32) =~= spec_u16_to_le_bytes(e.central_extras.len() as u16));
    assert(b.subrange(32, 34) =~= spec_u16_to_le_bytes(0));
    assert(b.subrange(34, 36) =~= spec_u16_to_le_bytes(0));
    assert(b.subrange(42, 46) =~= spec_u32_to_le_bytes(spec_cap32(e.lho)));
    assert(b.subrange(46, 46 + nl) =~= e.name);
    assert(b.subrange(46 + nl, 46 + nl + el) =~= e.central_extras);
}

/// Record round trip, local header side: the local file header bytes the
/// writer emits read back, at the resolver's offsets, as the name and
/// extras lengths it needs to locate the entry's data.
pub proof fn lemma_lfh_parse(
    name: Seq<u8>,
    version_needed: u16,
    flags: u16,
    method_id: u16,
    dos_time: u16,
    dos_date: u16,
    local_extras: Seq<u8>,
)
    requires
        name.len() <= 0xFFFF,
        local_extras.len() <= 0xFFFF,
    ensures
        ({
            let b = spec_lfh_bytes(
                name,
                version_needed,
                flags,
                method_id,
                dos_time,
                dos_date,
                local_extras,
            );
            let nl = name.len() as int;
            let el = local_extras.len() as int;
            &&& b.len() == 30 + nl + el
            &&& crate::locator::spec_u32_at(b, 0) == 0x04034b50
            &&& crate::locator::spec_u16_at(b, 4) == version_needed
            &&& crate::locator::spec_u16_at(b, 6) == flags
            &&& crate::locator::spec_u16_at(b, 8) == method_id
            &&& crate::locator::spec_u16_at(b, 26) == nl
            &&& crate::locator::spec_u16_at(b, 28) == el
            &&& b.subrange(30, 30 + nl) == name
            &&& b.subrange(30 + nl, 30 + nl + el) == local_extras
        }),
{
    lemma_auto_spec_u16_to_from_le_bytes();
    lemma_auto_spec_u32_to_from_le_bytes();
    let b = spec_lfh_bytes(name, version_needed, flags, method_id, dos_time, dos_date, local_extras);
    let nl = name.len() as int;
    let el = local_extras.len() as int;
    assert(b.subrange(0, 4) =~= spec_u32_to_le_bytes(0x04034b50));
    assert(b.subrange(4, 6) =~= spec_u16_to_le_bytes(version_needed));
    assert(b.subrange(6, 8) =~= spec_u16_to_le_bytes(flags));
    assert(b.subrange(8, 10) =~= spec_u16_to_le_bytes(method_id));
    assert(b.subrange(26, 28) =~= spec_u16_to_le_bytes(name.len() as u16));
    assert(b.subrange(28, 30) =~= spec_u16_to_le_bytes(local_extras.len() as u16));
    assert(b.subrange(30, 30 + nl) =~= name);
    assert(b.subrange(30 + nl, 30 + nl + el) =~= local_extras);
}

/// Anchor round trip: whatever bytes precede it, the epilogue the writer
/// emits ends in a credible end-of-central-directory record at the last
/// 22 bytes, and no credible record lies after it. With the locator's
/// contract — it returns the largest credible offset — locating a finished
/// archive (behind any prelude) anchors exactly on the record the writer
/// wrote.
pub proof fn lemma_epilogue_anchors(prefix: Seq<u8>, es: Seq<CdEntry>, cd_offset: int)
    ensures
        ({
            let out = prefix + spec_epilogue_bytes(es, cd_offset);
            &&& out.len() >= 22
            &&& crate::locator::spec_eocd_valid_at(out, out.len() - 22)
            &&& forall|j: int| out.len() - 22 < j ==> !crate::locator::spec_eocd_valid_at(out, j)
        }),
{
    lemma_auto_spec_u16_to_from_le_bytes();
    lemma_auto_spec_u32_to_from_le_bytes();
    lemma_auto_spec_u64_to_from_le_bytes();
    let out = prefix + spec_epilogue_bytes(es, cd_offset);
    let pos = out.len() - 22;
    assert(out.subrange(pos, pos + 4) =~= spec_u32_to_le_bytes(0x06054b50));
    assert(out.subrange(pos + 20, pos + 22) =~= spec_u16_to_le_bytes(0));
    assert(crate::locator::spec_eocd_valid_at(out, pos));
}

} // verus!

verus! {

/// Anchor read-back law, plain (non-ZIP64) archives: behind any prelude,
/// the finished archive's end-of-central-directory record is the largest
/// credible one, its entry count, directory size and directory offset
/// fields read back as exactly the written values, and the whole
/// arrangement satisfies [`crate::archive::spec_plain_anchor_at`] — so by
/// [`crate::archive::ZipArchive::from_slice`]'s forced-success clause,
/// locating the container succeeds, anchors on the written record, and
/// recovers a base offset equal to the prelude's length.
pub proof fn lemma_finish_locates(prelude: Seq<u8>, written: Seq<u8>, es: Seq<CdEntry>)
    requires
        !spec_archive_needs_zip64(es, written.len() as int),
        spec_cd_bytes(es).len() < 0xFFFFFFFF,
    ensures
        ({
            let out = prelude + (written + spec_epilogue_bytes(es, written.len() as int));
            let pos = out.len() - 22;
            &&& pos == prelude.len() + written.len() + spec_cd_bytes(es).len()
            &&& crate::locator::spec_eocd_valid_at(out, pos)
            &&& (forall|j: int| pos < j ==> !crate::locator::spec_eocd_valid_at(out, j))
            &&& crate::locator::spec_u16_at(out, pos + 4) == 0
            &&& crate::locator::spec_u16_at(out, pos + 6) == 0
            &&& crate::locator::spec_u16_at(out, pos + 8) == es.len()
            &&& crate::locator::spec_u16_at(out, pos + 10) == es.len()
            &&& crate::locator::spec_u32_at(out, pos + 12) == spec_cd_bytes(es).len()
            &&& crate::locator::spec_u32_at(out, pos + 16) == written.len()
            &&& crate::archive::spec_plain_anchor_at(out, pos)
            &&& pos - crate::locator::spec_u32_at(out, pos + 12) - crate::locator::spec_u32_at(
                out,
                pos + 16,
            ) == prelude.len()
        }),
{
    lemma_auto_spec_u16_to_from_le_bytes();
    lemma_auto_spec_u32_to_from_le_bytes();
    let ep = spec_epilogue_bytes(es, written.len() as int);
    let out = prelude + (written + ep);
    assert(out =~= (prelude + written) + ep);
    lemma_epilogue_anchors(prelude + written, es, written.len() as int);
    let cd = spec_cd_bytes(es);
    let pos = out.len() - 22;
    let entries16: u16 = es.len() as u16;
    let cd_size32: u32 = cd.len() as u32;
    let cd_offset32: u32 = written.len() as u32;
    assert(out =~= (prelude + written) + cd + spec_eocd_bytes(entries16, cd_size32, cd_offset32));
    assert(out.subrange(pos + 4, pos + 6) =~= spec_u16_to_le_bytes(0));
    assert(out.subrange(pos + 6, pos + 8) =~= spec_u16_to_le_bytes(0));
    assert(out.subrange(pos + 8, pos + 10) =~= spec_u16_to_le_bytes(entries16));
    assert(out.subrange(pos + 10, pos + 12) =~= spec_u16_to_le_bytes(entries16));
    assert(out.subrange(pos + 12, pos + 16) =~= spec_u32_to_le_bytes(cd_size32));
    assert(out.subrange(pos + 16, pos + 20) =~= spec_u32_to_le_bytes(cd_offset32));
    assert(crate::archive::spec_plain_anchor_at(out, pos));
}

} // verus!

verus! {

/// Concatenated-archives law: when two finished archives follow one
/// another (each allowed its own prelude), the whole file's largest
/// credible end-of-central-directory record is the second archive's final
/// record, and the prefix that ends where the second archive's prelude
/// begins anchors on the first archive's final record. With the locator's
/// contract, locating the whole file yields the second archive and
/// re-locating the prefix yields the first.
pub proof fn lemma_concatenated_archives(
    first_prelude: Seq<u8>,
    first_es: Seq<CdEntry>,
    first_cd_offset: int,
    second_prelude: Seq<u8>,
    second_es: Seq<CdEntry>,
    second_cd_offset: int,
)
    ensures
        ({
            let first = first_prelude + spec_epilogue_bytes(first_es, first_cd_offset);
            let out = first + second_prelude + spec_epilogue_bytes(second_es, second_cd_offset);
            &&& crate::locator::spec_eocd_valid_at(out, out.len() - 22)
            &&& (forall|j: int|
                out.len() - 22 < j ==> !crate::locator::spec_eocd_valid_at(out, j))
            &&& crate::locator::spec_eocd_valid_at(
                out.subrange(0, first.len() as int),
                first.len() - 22,
            )
            &&& (forall|j: int|
                first.len() - 22 < j ==> !crate::locator::spec_eocd_valid_at(
                    out.subrange(0, first.len() as int),
                    j,
                ))
        }),
{
    let first = first_prelude + spec_epilogue_bytes(first_es, first_cd_offset);
    let out = first + second_prelude + spec_epilogue_bytes(second_es, second_cd_offset);
    assert(out =~= (first + second_prelude) + spec_epilogue_bytes(second_es, second_cd_offset));
    lemma_epilogue_anchors(first + second_prelude, second_es, second_cd_offset);
    lemma_epilogue_anchors(first_prelude, first_es, first_cd_offset);
    assert(out.subrange(0, first.len() as int) =~= first);
}

} // verus!

verus! {

/// Anchor read-back law, ZIP64 archives: behind any prelude, a finished
/// archive that puts a sentinel into its plain end-of-central-directory
/// record (entry count at 65535, or a directory size or offset at 2^32)
/// satisfies [`crate::archive::spec_zip64_anchor_at`]: the record is the
/// largest credible one, the ZIP64 locator and record before it read back
/// the written entry count, directory size and offset, and the observed
/// ZIP64 record position minus the recorded one is the prelude's length.
/// By [`crate::archive::ZipArchive::from_slice`]'s forced-success clause,
/// locating the container then succeeds with exactly those promoted
/// values. (An archive pushed to ZIP64 only by one entry's sizes leaves
/// the plain record sentinel-free; readers that probe on sentinels do not
/// reach its ZIP64 records, so no such claim is made for it.)
#[verifier::rlimit(100)]
#[verifier::spinoff_prover]
pub proof fn lemma_finish_locates_zip64(prelude: Seq<u8>, written: Seq<u8>, es: Seq<CdEntry>)
    requires
        spec_archive_needs_zip64(es, written.len() as int),
        es.len() >= 0xFFFF || written.len() >= 0xFFFFFFFF || spec_cd_bytes(es).len()
            >= 0xFFFFFFFF,
        es.len() <= u64::MAX,
        written.len() + spec_cd_bytes(es).len() + 98 <= u64::MAX,
    ensures
        ({
            let out = prelude + (written + spec_epilogue_bytes(es, written.len() as int));
            let cd = spec_cd_bytes(es);
            let pos = out.len() - 22;
            let rec = pos - 76;
            &&& pos == prelude.len() + written.len() + cd.len() + 76
            &&& crate::locator::spec_eocd_valid_at(out, pos)
            &&& (forall|j: int| pos < j ==> !crate::locator::spec_eocd_valid_at(out, j))
            &&& crate::locator::spec_u64_at(out, rec + 32) == es.len()
            &&& crate::locator::spec_u64_at(out, rec + 40) == cd.len()
            &&& crate::locator::spec_u64_at(out, rec + 48) == written.len()
            &&& rec - crate::locator::spec_u64_at(out, pos - 12) == prelude.len()
            &&& crate::archive::spec_zip64_anchor_at(out, pos)
        }),
{
    lemma_auto_spec_u16_to_from_le_bytes();
    lemma_auto_spec_u32_to_from_le_bytes();
    lemma_auto_spec_u64_to_from_le_bytes();
    let ep = spec_epilogue_bytes(es, written.len() as int);
    let out = prelude + (written + ep);
    assert(out =~= (prelude + written) + ep);
    lemma_epilogue_anchors(prelude + written, es, written.len() as int);
    let cd = spec_cd_bytes(es);
    let pos = out.len() - 22;
    let rec = pos - 76;
    let entries16: u16 = if es.len() >= 0xFFFF {
        0xFFFFu16
    } else {
        es.len() as u16
    };
    let cd_size32: u32 = if cd.len() >= 0xFFFFFFFF {
        0xFFFFFFFFu32
    } else {
        cd.len() as u32
    };
    let cd_offset32: u32 = if written.len() >= 0xFFFFFFFF {
        0xFFFFFFFFu32
    } else {
        written.len() as u32
    };
    assert(out =~= (prelude + written) + cd + spec_zip64_eocd_bytes(
        es.len() as u64,
        cd.len() as u64,
        written.len() as u64,
    ) + spec_zip64_locator_bytes((written.len() + cd.len()) as u64) + spec_eocd_bytes(
        entries16,
        cd_size32,
        cd_offset32,
    ));
    assert(out.subrange(pos + 4, pos + 6) =~= spec_u16_to_le_bytes(0));
    assert(out.subrange(pos + 6, pos + 8) =~= spec_u16_to_le_bytes(0));
    assert(out.subrange(pos + 8, pos + 10) =~= spec_u16_to_le_bytes(entries16));
    assert(out.subrange(pos + 10, pos + 12) =~= spec_u16_to_le_bytes(entries16));
    assert(out.subrange(pos + 12, pos + 16) =~= spec_u32_to_le_bytes(cd_size32));
    assert(out.subrange(pos + 16, pos + 20) =~= spec_u32_to_le_bytes(cd_offset32));
    assert(out.subrange(pos - 20, pos - 16) =~= spec_u32_to_le_bytes(0x07064b50));
    assert(out.subrange(pos - 12, pos - 4) =~= spec_u64_to_le_bytes(
        (written.len() + cd.len()) as u64,
    ));
    assert(out.subrange(rec, rec + 4) =~= spec_u32_to_le_bytes(0x06064b50));
    assert(out.subrange(rec + 32, rec + 40) =~= spec_u64_to_le_bytes(es.len() as u64));
    assert(out.subrange(rec + 40, rec + 48) =~= spec_u64_to_le_bytes(cd.len() as u64));
    assert(out.subrange(rec + 48, rec + 56) =~= spec_u64_to_le_bytes(written.len() as u64));
    assert(crate::archive::spec_zip64_anchor_at(out, pos));
}

} // verus!
