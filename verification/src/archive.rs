//! The archive-level vocabulary: record signatures, sentinel values and
//! compression method identifiers, plus the read-side archive view over a
//! byte slice: the located end-of-central-directory anchor, the central
//! directory iterator with ZIP64 sentinel promotion, the per-entry local
//! header resolver, and the CRC verifier.

use crate::crc::{crc32_chunk_with_table, crc32_steps, crc32_table, spec_crc32};
use crate::errors::{Error, ErrorKind};
use crate::extra_fields::{
    spec_has_tlv, spec_parse_tlvs, spec_tlv_len, ExtraFields, FieldSpec,
};
use crate::headers::Header;
use crate::locator::{
    locate_eocd, spec_eocd_valid_at, spec_u16_at, spec_u32_at, spec_u64_at,
};
use crate::path::ZipFilePath;
use crate::time::{DosDateTime, UtcDateTime, ZipDateTimeKind};
use crate::utils::{le_u16_at, le_u32_at, le_u64_at};
use vstd::prelude::*;
use vstd::slice::slice_subrange;

verus! {

/// Signature of a local file header.
pub const LOCAL_HEADER_SIGNATURE: u32 = 0x04034b50;

/// Signature of a central directory header.
pub const CENTRAL_HEADER_SIGNATURE: u32 = 0x02014b50;

/// Signature of the end-of-central-directory record.
pub const END_OF_CENTRAL_DIR_SIGNATURE: u32 = 0x06054b50;

/// Signature of the ZIP64 end-of-central-directory record.
pub const END_OF_CENTRAL_DIR_SIGNATURE64: u32 = 0x06064b50;

/// Signature of the ZIP64 end-of-central-directory locator.
pub const END_OF_CENTRAL_DIR_LOCATOR_SIGNATURE: u32 = 0x07064b50;

/// Signature of a data descriptor.
pub const DATA_DESCRIPTOR_SIGNATURE: u32 = 0x08074b50;

/// The 32-bit sentinel that sends readers to the ZIP64 extra field.
pub const ZIP64_SENTINEL_U32: u32 = 0xFFFFFFFF;

/// The 16-bit sentinel that sends readers to the ZIP64 records.
pub const ZIP64_SENTINEL_U16: u16 = 0xFFFF;

/// How an entry's data is compressed. The library never compresses or
/// decompresses itself: the id is carried for the caller's codec.
#[derive(Debug, Clone, Copy, PartialEq, Eq, Structural, Hash)]
pub enum CompressionMethod {
    Store,
    Deflate,
    Deflate64,
    Bzip2,
    Lzma,
    Zstd,
    Xz,
    Unknown(u16),
}

impl CompressionMethod {
    /// The wire id of this method.
    pub open spec fn spec_id(self) -> u16 {
        match self {
            CompressionMethod::Store => 0,
            CompressionMethod::Deflate => 8,
            CompressionMethod::Deflate64 => 9,
            CompressionMethod::Bzip2 => 12,
            CompressionMethod::Lzma => 14,
            CompressionMethod::Zstd => 93,
            CompressionMethod::Xz => 95,
            CompressionMethod::Unknown(id) => id,
        }
    }

    /// The wire id of this method.
    pub fn as_id(self) -> (r: u16)
        ensures
            r == self.spec_id(),
    {
        match self {
            CompressionMethod::Store => 0,
            CompressionMethod::Deflate => 8,
            CompressionMethod::Deflate64 => 9,
            CompressionMethod::Bzip2 => 12,
            CompressionMethod::Lzma => 14,
            CompressionMethod::Zstd => 93,
            CompressionMethod::Xz => 95,
            CompressionMethod::Unknown(id) => id,
        }
    }

    /// The method named by a wire id: the named variant for a known id,
    /// `Unknown` otherwise.
    pub fn from_id(id: u16) -> (r: CompressionMethod)
        ensures
            r.spec_id() == id,
            r == (match id {
                0u16 => CompressionMethod::Store,
                8u16 => CompressionMethod::Deflate,
                9u16 => CompressionMethod::Deflate64,
                12u16 => CompressionMethod::Bzip2,
                14u16 => CompressionMethod::Lzma,
                93u16 => CompressionMethod::Zstd,
                95u16 => CompressionMethod::Xz,
                _ => CompressionMethod::Unknown(id),
            }),
    {
        if id == 0 {
            CompressionMethod::Store
        } else if id == 8 {
            CompressionMethod::Deflate
        } else if id == 9 {
            CompressionMethod::Deflate64
        } else if id == 12 {
            CompressionMethod::Bzip2
        } else if id == 14 {
            CompressionMethod::Lzma
        } else if id == 93 {
            CompressionMethod::Zstd
        } else if id == 95 {
            CompressionMethod::Xz
        } else {
            CompressionMethod::Unknown(id)
        }
    }
}

/// The first TLV with the given id, if any.
pub open spec fn spec_find_tlv(tlvs: Seq<(u16, Seq<u8>)>, id: u16) -> Option<Seq<u8>>
    decreases tlvs.len(),
{
    if tlvs.len() == 0 {
        None
    } else if tlvs[0].0 == id {
        Some(tlvs[0].1)
    } else {
        spec_find_tlv(tlvs.skip(1), id)
    }
}

/// Walks the TLVs in `extras` and returns the body of the first one whose
/// id is `id`.
pub fn find_extra_field<'x>(extras: &'x [u8], id: u16) -> (r: Option<&'x [u8]>)
    ensures
        r matches Some(b) ==> spec_find_tlv(spec_parse_tlvs(extras@), id) == Some(b@),
        r is None ==> spec_find_tlv(spec_parse_tlvs(extras@), id) is None,
{
    let mut iter = ExtraFields::new(extras);
    loop
        invariant
            spec_find_tlv(spec_parse_tlvs(extras@), id) == spec_find_tlv(
                spec_parse_tlvs(iter.remaining()),
                id,
            ),
        ensures
            spec_walk_exhausted(extras@, id, iter.remaining()),
        decreases iter.remaining().len(),
    {
        let ghost rem = iter.remaining();
        match iter.next() {
            Some((field_id, body)) => {
                proof {
                    assert(spec_parse_tlvs(rem)[0] == (
                        crate::extra_fields::spec_head_id(rem),
                        crate::extra_fields::spec_head_body(rem),
                    ));
                    assert(spec_parse_tlvs(rem).skip(1) =~= spec_parse_tlvs(
                        rem.skip(spec_tlv_len(rem)),
                    ));
                }
                if field_id.as_u16() == id {
                    return Some(body);
                }
            },
            None => {
                proof {
                    assert(spec_parse_tlvs(iter.remaining()) =~= Seq::<(u16, Seq<u8>)>::empty());
                }
                break ;
            },
        }
    }
    None
}

/// What holds when the TLV walk ends without a match.
pub open spec fn spec_walk_exhausted(extras: Seq<u8>, id: u16, rem: Seq<u8>) -> bool {
    spec_find_tlv(spec_parse_tlvs(extras), id) == spec_find_tlv(spec_parse_tlvs(rem), id)
        && !spec_has_tlv(rem)
}

/// The ZIP64-promoted values of a central directory header: each 32-bit
/// field that carries its sentinel is replaced by the next value drawn from
/// the ZIP64 extra field body, in the order uncompressed size, compressed
/// size, local header offset, disk; a field whose value is missing from the
/// body keeps its (widened) sentinel. The result is (uncompressed,
/// compressed, local header offset, disk).
pub open spec fn spec_promoted(
    extras: Seq<u8>,
    uncompressed32: u32,
    compressed32: u32,
    lho32: u32,
    disk16: u16,
) -> (u64, u64, u64, u32) {
    match spec_find_tlv(spec_parse_tlvs(extras), 0x0001) {
        None => (uncompressed32 as u64, compressed32 as u64, lho32 as u64, disk16 as u32),
        Some(b) => {
            let off_u = 0int;
            let off_c = off_u + (if uncompressed32 == 0xFFFFFFFF {
                8int
            } else {
                0int
            });
            let off_l = off_c + (if compressed32 == 0xFFFFFFFF {
                8int
            } else {
                0int
            });
            let off_d = off_l + (if lho32 == 0xFFFFFFFF {
                8int
            } else {
                0int
            });
            let u = if uncompressed32 == 0xFFFFFFFF && off_u + 8 <= b.len() {
                spec_u64_at(b, off_u)
            } else {
                uncompressed32 as u64
            };
            let c = if compressed32 == 0xFFFFFFFF && off_c + 8 <= b.len() {
                spec_u64_at(b, off_c)
            } else {
                compressed32 as u64
            };
            let l = if lho32 == 0xFFFFFFFF && off_l + 8 <= b.len() {
                spec_u64_at(b, off_l)
            } else {
                lho32 as u64
            };
            let d = if disk16 == 0xFFFF && off_d + 4 <= b.len() {
                spec_u32_at(b, off_d)
            } else {
                disk16 as u32
            };
            (u, c, l, d)
        },
    }
}

/// Applies ZIP64 sentinel promotion to the 32-bit header fields, reading
/// the overriding values from the ZIP64 extra field in `extras`.
pub fn promote_zip64(
    extras: &[u8],
    uncompressed32: u32,
    compressed32: u32,
    lho32: u32,
    disk16: u16,
) -> (r: (u64, u64, u64, u32))
    ensures
        r == spec_promoted(extras@, uncompressed32, compressed32, lho32, disk16),
{
    match find_extra_field(extras, 0x0001) {
        None => (uncompressed32 as u64, compressed32 as u64, lho32 as u64, disk16 as u32),
        Some(b) => {
            let blen = b.len();
            let off_u: usize = 0;
            let off_c: usize = off_u + (if uncompressed32 == 0xFFFFFFFF {
                8
            } else {
                0
            });
            let off_l: usize = off_c + (if compressed32 == 0xFFFFFFFF {
                8
            } else {
                0
            });
            let off_d: usize = off_l + (if lho32 == 0xFFFFFFFF {
                8
            } else {
                0
            });
            let u: u64 = if uncompressed32 == 0xFFFFFFFF && off_u + 8 <= blen {
                le_u64_at(b, off_u)
            } else {
                uncompressed32 as u64
            };
            let c: u64 = if compressed32 == 0xFFFFFFFF && off_c + 8 <= blen {
                le_u64_at(b, off_c)
            } else {
                compressed32 as u64
            };
            let l: u64 = if lho32 == 0xFFFFFFFF && off_l + 8 <= blen {
                le_u64_at(b, off_l)
            } else {
                lho32 as u64
            };
            let d: u32 = if disk16 == 0xFFFF && off_d + 4 <= blen {
                le_u32_at(b, off_d)
            } else {
                disk16 as u32
            };
            (u, c, l, d)
        },
    }
}

/// A credible, maximal, self-consistent plain (non-ZIP64)
/// end-of-central-directory record stands at `off` of `data`: the largest
/// offset passing the comment-length check, with single-disk fields,
/// matching entry counts, no ZIP64 sentinel, and a directory that fits
/// before the record. On such data [`ZipArchive::from_slice`] succeeds.
pub open spec fn spec_plain_anchor_at(data: Seq<u8>, off: int) -> bool {
    &&& spec_eocd_valid_at(data, off)
    &&& forall|j: int| off < j <= data.len() - 4 ==> !spec_eocd_valid_at(data, j)
    &&& crate::locator::spec_scan_floor(data.len() as int) <= off
    &&& spec_u16_at(data, off + 4) == 0
    &&& spec_u16_at(data, off + 6) == 0
    &&& spec_u16_at(data, off + 8) == spec_u16_at(data, off + 10)
    &&& spec_u16_at(data, off + 10) != 0xFFFF
    &&& spec_u32_at(data, off + 12) != 0xFFFFFFFF
    &&& spec_u32_at(data, off + 16) != 0xFFFFFFFF
    &&& spec_u32_at(data, off + 12) + spec_u32_at(data, off + 16) <= off
}

/// Two maximal credible records are the same record.
proof fn lemma_anchor_unique(data: Seq<u8>, off: int, o: int)
    requires
        spec_eocd_valid_at(data, off),
        forall|j: int| off < j <= data.len() - 4 ==> !spec_eocd_valid_at(data, j),
        spec_eocd_valid_at(data, o),
        forall|j: int| o < j <= data.len() - 4 ==> !spec_eocd_valid_at(data, j),
    ensures
        off == o,
{
    if off < o {
        assert(!spec_eocd_valid_at(data, o));
    }
    if off > o {
        assert(!spec_eocd_valid_at(data, off));
    }
}

/// The end-of-central-directory record at `off` carries a ZIP64 sentinel
/// in one of its count, size, offset or disk fields.
pub open spec fn spec_eocd_has_sentinel(data: Seq<u8>, off: int) -> bool {
    ||| spec_u16_at(data, off + 10) == 0xFFFF
    ||| spec_u32_at(data, off + 12) == 0xFFFFFFFF
    ||| spec_u32_at(data, off + 16) == 0xFFFFFFFF
    ||| spec_u16_at(data, off + 4) == 0xFFFF
    ||| spec_u16_at(data, off + 6) == 0xFFFF
}

/// A credible, maximal end-of-central-directory record stands at `off`
/// with a ZIP64 sentinel, single-disk fields, matching counts, and the
/// ZIP64 locator and record before it in place and self-consistent. On
/// such data [`ZipArchive::from_slice`] succeeds with the values promoted
/// from the ZIP64 record.
pub open spec fn spec_zip64_anchor_at(data: Seq<u8>, off: int) -> bool {
    let rec = off - 76;
    let declared = spec_u64_at(data, off - 12);
    let cd_size = spec_u64_at(data, rec + 40);
    let cd_offset = spec_u64_at(data, rec + 48);
    &&& spec_eocd_valid_at(data, off)
    &&& (forall|j: int| off < j <= data.len() - 4 ==> !spec_eocd_valid_at(data, j))
    &&& crate::locator::spec_scan_floor(data.len() as int) <= off
    &&& (spec_u16_at(data, off + 4) == 0 || spec_u16_at(data, off + 4) == 0xFFFF)
    &&& (spec_u16_at(data, off + 6) == 0 || spec_u16_at(data, off + 6) == 0xFFFF)
    &&& spec_u16_at(data, off + 8) == spec_u16_at(data, off + 10)
    &&& spec_eocd_has_sentinel(data, off)
    &&& off >= 76
    &&& spec_u32_at(data, off - 20) == 0x07064b50
    &&& spec_u32_at(data, rec) == 0x06064b50
    &&& declared <= rec
    &&& cd_offset <= off
    &&& cd_size <= off - cd_offset
    &&& rec - declared <= off - cd_offset - cd_size
}

/// A ZIP archive located inside a byte slice: the anchor the
/// end-of-central-directory locator found, with ZIP64 promotion applied and
/// the base offset (prelude length) resolved.
#[derive(Debug, Clone, Copy)]
pub struct ZipArchive<'a> {
    data: &'a [u8],
    eocd_offset: u64,
    cd_offset: u64,
    cd_size: u64,
    entries_hint: u64,
    base_offset: u64,
    comment_len: u16,
    is_zip64: bool,
}

impl<'a> ZipArchive<'a> {
    /// The underlying bytes.
    pub closed spec fn spec_data(&self) -> Seq<u8> {
        self.data@
    }

    /// The absolute offset of the end-of-central-directory signature.
    pub closed spec fn spec_eocd_offset(&self) -> u64 {
        self.eocd_offset
    }

    /// The declared central-directory offset (after ZIP64 promotion),
    /// relative to the archive's own coordinate system.
    pub closed spec fn spec_cd_offset(&self) -> u64 {
        self.cd_offset
    }

    /// The declared central-directory size in bytes (after ZIP64
    /// promotion).
    pub closed spec fn spec_cd_size(&self) -> u64 {
        self.cd_size
    }

    /// The declared entry count (after ZIP64 promotion).
    pub closed spec fn spec_entries_hint(&self) -> u64 {
        self.entries_hint
    }

    /// The distance by which the archive is shifted inside its container.
    pub closed spec fn spec_base_offset(&self) -> u64 {
        self.base_offset
    }

    /// Whether ZIP64 records supplied the anchor values.
    pub closed spec fn spec_is_zip64(&self) -> bool {
        self.is_zip64
    }

    /// Internal invariant: the anchor is consistent with the data.
    pub closed spec fn wf(&self) -> bool {
        &&& spec_eocd_valid_at(self.data@, self.eocd_offset as int)
        &&& self.eocd_offset + 22 + self.comment_len == self.data@.len()
        &&& self.base_offset + self.cd_offset + self.cd_size <= self.eocd_offset
    }

    /// Locates the archive inside `data`: scans backwards for the
    /// end-of-central-directory record, validates it, follows the ZIP64
    /// records when sentinels demand it, and resolves the base offset.
    ///
    /// Fails with `MissingEndOfCentralDirectory` (carrying the best
    /// candidate offset) when the scan finds no credible record, with
    /// `MissingZip64EndOfCentralDirectory` when sentinels point at ZIP64
    /// records that are not there, and with
    /// `InvalidEndOfCentralDirectory` when the record's disks, counts or
    /// offsets are inconsistent with the data.
    pub fn from_slice(data: &'a [u8]) -> (r: Result<ZipArchive<'a>, Error>)
        ensures
            r matches Ok(a) ==> {
                &&& a.wf()
                &&& a.spec_data() == data@
                &&& spec_eocd_valid_at(data@, a.spec_eocd_offset() as int)
                &&& forall|j: int|
                    a.spec_eocd_offset() < j <= data@.len() - 4 ==> !spec_eocd_valid_at(data@, j)
                &&& (!a.spec_is_zip64() ==> {
                    &&& a.spec_entries_hint() == spec_u16_at(
                        data@,
                        a.spec_eocd_offset() + 10,
                    ) as u64
                    &&& a.spec_cd_size() == spec_u32_at(data@, a.spec_eocd_offset() + 12) as u64
                    &&& a.spec_cd_offset() == spec_u32_at(data@, a.spec_eocd_offset() + 16) as u64
                    &&& a.spec_base_offset() == a.spec_eocd_offset() - a.spec_cd_size()
                        - a.spec_cd_offset()
                })
                &&& (a.spec_is_zip64() <==> spec_eocd_has_sentinel(
                    data@,
                    a.spec_eocd_offset() as int,
                ))
                &&& (a.spec_is_zip64() ==> {
                    let rec = a.spec_eocd_offset() - 76;
                    &&& a.spec_eocd_offset() >= 76
                    &&& spec_u32_at(data@, a.spec_eocd_offset() - 20) == 0x07064b50
                    &&& spec_u32_at(data@, rec) == 0x06064b50
                    &&& a.spec_entries_hint() == spec_u64_at(data@, rec + 32)
                    &&& a.spec_cd_size() == spec_u64_at(data@, rec + 40)
                    &&& a.spec_cd_offset() == spec_u64_at(data@, rec + 48)
                    &&& a.spec_base_offset() == rec - spec_u64_at(
                        data@,
                        a.spec_eocd_offset() - 12,
                    )
                })
            },
            r matches Err(e) ==> (e.kind matches ErrorKind::MissingEndOfCentralDirectory { .. }
                || e.kind == ErrorKind::MissingZip64EndOfCentralDirectory || e.kind
                == ErrorKind::InvalidEndOfCentralDirectory),
            forall|off: int|
                #[trigger] spec_plain_anchor_at(data@, off) ==> (r matches Ok(a)
                    && a.spec_eocd_offset() == off),
            forall|off: int|
                #[trigger] spec_zip64_anchor_at(data@, off) ==> (r matches Ok(a)
                    && a.spec_eocd_offset() == off),
    {
        let len = data.len();
        let off_u64 = match locate_eocd(data) {
            Ok(o) => o,
            Err(e) => {
                proof {
                    assert forall|off: int| !#[trigger] spec_plain_anchor_at(data@, off) by {
                        if spec_plain_anchor_at(data@, off) {
                            assert(spec_eocd_valid_at(data@, off));
                        }
                    }
                    assert forall|off: int| !#[trigger] spec_zip64_anchor_at(data@, off) by {
                        if spec_zip64_anchor_at(data@, off) {
                            assert(spec_eocd_valid_at(data@, off));
                        }
                    }
                }
                return Err(e);
            },
        };
        proof {
            assert forall|off: int| #[trigger] spec_plain_anchor_at(data@, off) implies off
                == off_u64 by {
                lemma_anchor_unique(data@, off, off_u64 as int);
            }
            assert forall|off: int| #[trigger] spec_zip64_anchor_at(data@, off) implies off
                == off_u64 by {
                lemma_anchor_unique(data@, off, off_u64 as int);
            }
        }
        let off = off_u64 as usize;
        let disk_num = le_u16_at(data, off + 4);
        let disk_cd = le_u16_at(data, off + 6);
        let entries_disk = le_u16_at(data, off + 8);
        let entries_total = le_u16_at(data, off + 10);
        let cd_size32 = le_u32_at(data, off + 12);
        let cd_offset32 = le_u32_at(data, off + 16);
        let comment_len = le_u16_at(data, off + 20);
        if !(disk_num == 0 || disk_num == 0xFFFF) || !(disk_cd == 0 || disk_cd == 0xFFFF) {
            return Err(Error::from_kind(ErrorKind::InvalidEndOfCentralDirectory));
        }
        if entries_disk != entries_total {
            return Err(Error::from_kind(ErrorKind::InvalidEndOfCentralDirectory));
        }
        let sentinel = entries_total == 0xFFFF || cd_size32 == 0xFFFFFFFF || cd_offset32
            == 0xFFFFFFFF || disk_num == 0xFFFF || disk_cd == 0xFFFF;
        if sentinel {
            if off < 76 {
                return Err(Error::from_kind(ErrorKind::MissingZip64EndOfCentralDirectory));
            }
            let loc_pos = off - 20;
            if le_u32_at(data, loc_pos) != 0x07064b50 {
                return Err(Error::from_kind(ErrorKind::MissingZip64EndOfCentralDirectory));
            }
            let declared = le_u64_at(data, loc_pos + 8);
            let rec_pos = off - 76;
            if le_u32_at(data, rec_pos) != 0x06064b50 {
                return Err(Error::from_kind(ErrorKind::MissingZip64EndOfCentralDirectory));
            }
            if declared > rec_pos as u64 {
                return Err(Error::from_kind(ErrorKind::InvalidEndOfCentralDirectory));
            }
            let base_offset = rec_pos as u64 - declared;
            let entries_hint = le_u64_at(data, rec_pos + 32);
            let cd_size = le_u64_at(data, rec_pos + 40);
            let cd_offset = le_u64_at(data, rec_pos + 48);
            if cd_offset > off_u64 || cd_size > off_u64 - cd_offset || base_offset > off_u64
                - cd_offset - cd_size {
                return Err(Error::from_kind(ErrorKind::InvalidEndOfCentralDirectory));
            }
            Ok(
                ZipArchive {
                    data,
                    eocd_offset: off_u64,
                    cd_offset,
                    cd_size,
                    entries_hint,
                    base_offset,
                    comment_len,
                    is_zip64: true,
                },
            )
        } else {
            let cd_size = cd_size32 as u64;
            let cd_offset = cd_offset32 as u64;
            if cd_size + cd_offset > off_u64 {
                return Err(Error::from_kind(ErrorKind::InvalidEndOfCentralDirectory));
            }
            let base_offset = off_u64 - cd_size - cd_offset;
            Ok(
                ZipArchive {
                    data,
                    eocd_offset: off_u64,
                    cd_offset,
                    cd_size,
                    entries_hint: entries_total as u64,
                    base_offset,
                    comment_len,
                    is_zip64: false,
                },
            )
        }
    }

    /// The absolute offset of the end-of-central-directory signature.
    pub fn eocd_offset(&self) -> (r: u64)
        ensures
            r == self.spec_eocd_offset(),
    {
        self.eocd_offset
    }

    /// The absolute offset of the central directory.
    pub fn directory_offset(&self) -> (r: u64)
        requires
            self.wf(),
        ensures
            r == self.spec_base_offset() + self.spec_cd_offset(),
    {
        self.base_offset + self.cd_offset
    }

    /// The declared number of entries.
    pub fn entries_hint(&self) -> (r: u64)
        ensures
            r == self.spec_entries_hint(),
    {
        self.entries_hint
    }

    /// The base offset: the length of the prelude that precedes the
    /// archive inside its container.
    pub fn base_offset(&self) -> (r: u64)
        ensures
            r == self.spec_base_offset(),
    {
        self.base_offset
    }

    /// The offset one past the archive's last byte (the end of the
    /// end-of-central-directory record and its comment).
    pub fn end_offset(&self) -> (r: u64)
        requires
            self.wf(),
        ensures
            r == self.spec_data().len(),
    {
        let _n: usize = self.data.len();
        self.eocd_offset + 22 + self.comment_len as u64
    }

    /// The archive comment bytes.
    pub fn comment(&self) -> (r: &'a [u8])
        requires
            self.wf(),
        ensures
            r@ == self.spec_data().subrange(
                self.spec_eocd_offset() + 22,
                self.spec_data().len() as int,
            ),
    {
        let n: usize = self.data.len();
        slice_subrange(self.data, self.eocd_offset as usize + 22, n)
    }

    /// An iterator over the central directory entries.
    pub fn entries(&self) -> (r: ZipEntries<'a>)
        requires
            self.wf(),
        ensures
            r.spec_data() == self.spec_data(),
            r.spec_pos() == self.spec_base_offset() + self.spec_cd_offset(),
            r.spec_remaining() == self.spec_entries_hint(),
            r.spec_base() == self.spec_base_offset(),
    {
        ZipEntries {
            data: self.data,
            pos: self.base_offset + self.cd_offset,
            remaining: self.entries_hint,
            base: self.base_offset,
        }
    }

    /// Resolves a wayfinder to its local file header and compressed data
    /// range.
    ///
    /// Fails with `InvalidSignature` when no local file header lies at the
    /// recorded offset, and with `Eof` when the header or the data range
    /// runs past the end of the slice.
    pub fn get_entry(&self, wayfinder: ZipArchiveEntryWayfinder) -> (r: Result<
        ZipSliceEntry<'a>,
        Error,
    >)
        requires
            self.wf(),
        ensures
            r matches Ok(e) ==> {
                let p = self.spec_base_offset() + wayfinder.local_header_offset;
                let nl = spec_u16_at(self.spec_data(), p + 26) as int;
                let el = spec_u16_at(self.spec_data(), p + 28) as int;
                let start = p + 30 + nl + el;
                &&& p + 30 <= self.spec_data().len()
                &&& spec_u32_at(self.spec_data(), p) == 0x04034b50
                &&& e.spec_claims() == wayfinder
                &&& e.spec_data() == self.spec_data().subrange(
                    start,
                    start + wayfinder.compressed_size,
                )
                &&& e.spec_lfh_extras() == self.spec_data().subrange(p + 30 + nl, p + 30 + nl + el)
            },
            r matches Err(e) ==> (e.kind matches ErrorKind::InvalidSignature { .. } || e.kind
                == ErrorKind::Eof),
            ({
                let p = self.spec_base_offset() + wayfinder.local_header_offset;
                let nl = spec_u16_at(self.spec_data(), p + 26) as int;
                let el = spec_u16_at(self.spec_data(), p + 28) as int;
                (p + 30 <= self.spec_data().len() && spec_u32_at(self.spec_data(), p)
                    == 0x04034b50 && p + 30 + nl + el + wayfinder.compressed_size
                    <= self.spec_data().len()) ==> r is Ok
            }),
    {
        let dlen: usize = self.data.len();
        let len = data_len_u64(self.data);
        let lho = wayfinder.local_header_offset;
        if lho > len || self.base_offset > len - lho {
            return Err(Error::from_kind(ErrorKind::Eof));
        }
        let p64 = self.base_offset + lho;
        if len - p64 < 30 {
            return Err(Error::from_kind(ErrorKind::Eof));
        }
        let p = p64 as usize;
        let sig = le_u32_at(self.data, p);
        if sig != 0x04034b50 {
            return Err(
                Error::from_kind(
                    ErrorKind::InvalidSignature { expected: 0x04034b50, actual: sig },
                ),
            );
        }
        let name_len = le_u16_at(self.data, p + 26) as usize;
        let extra_len = le_u16_at(self.data, p + 28) as usize;
        if dlen - p - 30 < name_len || dlen - p - 30 - name_len < extra_len {
            return Err(Error::from_kind(ErrorKind::Eof));
        }
        let extras_start = p + 30 + name_len;
        let start = extras_start + extra_len;
        if wayfinder.compressed_size > (dlen - start) as u64 {
            return Err(Error::from_kind(ErrorKind::Eof));
        }
        let data_slice = slice_subrange(
            self.data,
            start,
            start + wayfinder.compressed_size as usize,
        );
        let extras_slice = slice_subrange(self.data, extras_start, extras_start + extra_len);
        Ok(ZipSliceEntry { claims: wayfinder, data: data_slice, lfh_extras: extras_slice })
    }
}

/// The length of a slice as a `u64`.
fn data_len_u64(data: &[u8]) -> (r: u64)
    ensures
        r == data@.len(),
        data@.len() <= u64::MAX,
{
    data.len() as u64
}

/// A handle that locates one entry's local header and data without
/// re-reading the central directory: the promoted offset, sizes, checksum
/// and method of the entry.
#[derive(Debug, Clone, Copy, PartialEq, Eq, Structural)]
pub struct ZipArchiveEntryWayfinder {
    pub local_header_offset: u64,
    pub compressed_size: u64,
    pub uncompressed_size: u64,
    pub crc: u32,
    pub method_id: u16,
}

/// One parsed central directory header, with ZIP64 sentinel promotion
/// applied. The slices borrow from the archive's bytes (zero copy).
#[derive(Debug, Clone, Copy)]
pub struct ZipEntry<'a> {
    /// Version made by (creator system in the high byte).
    pub version_made_by: u16,
    /// Minimum version needed to extract.
    pub version_needed: u16,
    /// General-purpose flags.
    pub flags: u16,
    /// Compression method id.
    pub method_id: u16,
    /// DOS modification time.
    pub dos_time: u16,
    /// DOS modification date.
    pub dos_date: u16,
    /// CRC-32 of the uncompressed data.
    pub crc: u32,
    /// Compressed size (promoted).
    pub compressed_size: u64,
    /// Uncompressed size (promoted).
    pub uncompressed_size: u64,
    /// Local header offset (promoted), relative to the archive start.
    pub local_header_offset: u64,
    /// Disk number (promoted; this library requires single-disk archives).
    pub disk: u32,
    /// Internal attributes.
    pub internal_attrs: u16,
    /// External attributes (Unix mode in the high 16 bits for Unix
    /// creators).
    pub external_attrs: u32,
    /// The raw name bytes.
    pub name: &'a [u8],
    /// The raw central extras bytes.
    pub extras: &'a [u8],
    /// The raw comment bytes.
    pub comment: &'a [u8],
    /// The archive's base offset (prelude length).
    pub base_offset: u64,
}

impl<'a> ZipEntry<'a> {
    /// The entry's file path, as raw bytes.
    pub fn file_path(&self) -> (r: ZipFilePath<'a>)
        ensures
            r.bytes() == self.name@,
    {
        ZipFilePath::from_bytes(self.name)
    }

    /// True when the entry denotes a directory (its name ends with `/`).
    pub fn is_dir(&self) -> (r: bool)
        ensures
            r == (self.name@.len() > 0 && self.name@[self.name@.len() - 1] == 47),
    {
        ZipFilePath::from_bytes(self.name).is_dir()
    }

    /// The entry's compression method.
    pub fn compression_method(&self) -> (r: CompressionMethod)
        ensures
            r.spec_id() == self.method_id,
    {
        CompressionMethod::from_id(self.method_id)
    }

    /// The entry's local header offset relative to the archive start.
    pub fn local_header_offset(&self) -> (r: u64)
        ensures
            r == self.local_header_offset,
    {
        self.local_header_offset
    }

    /// The recorded CRC-32 of the uncompressed data.
    pub fn crc32(&self) -> (r: u32)
        ensures
            r == self.crc,
    {
        self.crc
    }

    /// The promoted uncompressed size.
    pub fn uncompressed_size_hint(&self) -> (r: u64)
        ensures
            r == self.uncompressed_size,
    {
        self.uncompressed_size
    }

    /// The promoted compressed size.
    pub fn compressed_size_hint(&self) -> (r: u64)
        ensures
            r == self.compressed_size,
    {
        self.compressed_size
    }

    /// An iterator over the entry's central-directory extra fields.
    pub fn extra_fields(&self) -> (r: ExtraFields<'a>)
        ensures
            r.remaining() == self.extras@,
    {
        ExtraFields::new(self.extras)
    }

    /// The handle needed to jump to this entry's local header later.
    pub fn wayfinder(&self) -> (r: ZipArchiveEntryWayfinder)
        ensures
            r == (ZipArchiveEntryWayfinder {
                local_header_offset: self.local_header_offset,
                compressed_size: self.compressed_size,
                uncompressed_size: self.uncompressed_size,
                crc: self.crc,
                method_id: self.method_id,
            }),
    {
        ZipArchiveEntryWayfinder {
            local_header_offset: self.local_header_offset,
            compressed_size: self.compressed_size,
            uncompressed_size: self.uncompressed_size,
            crc: self.crc,
            method_id: self.method_id,
        }
    }

    /// The entry's modification time: the UTC time of an extended
    /// timestamp extra field carrying a modification time when one is
    /// present, else the unpacked (local, two-second) DOS fields.
    pub fn last_modified(&self) -> (r: ZipDateTimeKind)
        ensures
            (match spec_find_tlv(spec_parse_tlvs(self.extras@), 0x5455) {
                Some(b) => {
                    if b.len() >= 5 && b[0] & 1 == 1 {
                        (r matches ZipDateTimeKind::Utc(dt) && dt.wf() && dt.spec_to_unix()
                            == spec_u32_at(b, 1) as int)
                    } else {
                        r == ZipDateTimeKind::Local(
                            crate::time::spec_dos_to_local(self.dos_time, self.dos_date),
                        )
                    }
                },
                None => r == ZipDateTimeKind::Local(
                    crate::time::spec_dos_to_local(self.dos_time, self.dos_date),
                ),
            }),
            r matches ZipDateTimeKind::Local(dt) ==> dt.wf(),
    {
        match find_extra_field(self.extras, 0x5455) {
            Some(b) => {
                if b.len() >= 5 && {
                    let flag = b[0];
                    flag & 1 == 1
                } {
                    let unix = le_u32_at(b, 1);
                    ZipDateTimeKind::Utc(UtcDateTime::from_unix(unix))
                } else {
                    ZipDateTimeKind::Local(
                        DosDateTime::from_parts(self.dos_time, self.dos_date).to_local(),
                    )
                }
            },
            None => ZipDateTimeKind::Local(
                DosDateTime::from_parts(self.dos_time, self.dos_date).to_local(),
            ),
        }
    }
}

/// A streaming iterator over the central directory headers of a
/// [`ZipArchive`].
#[derive(Debug, Clone, Copy)]
pub struct ZipEntries<'a> {
    data: &'a [u8],
    pos: u64,
    remaining: u64,
    base: u64,
}

impl<'a> ZipEntries<'a> {
    /// The underlying bytes.
    pub closed spec fn spec_data(&self) -> Seq<u8> {
        self.data@
    }

    /// The absolute offset of the next central directory header.
    pub closed spec fn spec_pos(&self) -> u64 {
        self.pos
    }

    /// How many entries are still to be yielded.
    pub closed spec fn spec_remaining(&self) -> u64 {
        self.remaining
    }

    /// The archive's base offset.
    pub closed spec fn spec_base(&self) -> u64 {
        self.base
    }

    /// Parses the next central directory header, or returns `None` when
    /// the declared entry count is exhausted.
    ///
    /// Fails with `InvalidSignature` when the bytes at the cursor are not
    /// a central directory header, and with `Eof` when the header or its
    /// variable tail runs past the end of the data.
    pub fn next_entry(&mut self) -> (r: Result<Option<ZipEntry<'a>>, Error>)
        ensures
            final(self).spec_data() == old(self).spec_data(),
            final(self).spec_base() == old(self).spec_base(),
            old(self).spec_remaining() == 0 ==> (r matches Ok(o) && o is None && *final(self)
                == *old(self)),
            r matches Ok(o) ==> o matches Some(e) ==> {
                let d = old(self).spec_data();
                let p = old(self).spec_pos() as int;
                let nl = spec_u16_at(d, p + 28) as int;
                let el = spec_u16_at(d, p + 30) as int;
                let cl = spec_u16_at(d, p + 32) as int;
                &&& old(self).spec_remaining() > 0
                &&& p + 46 + nl + el + cl <= d.len()
                &&& spec_u32_at(d, p) == 0x02014b50
                &&& e.version_made_by == spec_u16_at(d, p + 4)
                &&& e.version_needed == spec_u16_at(d, p + 6)
                &&& e.flags == spec_u16_at(d, p + 8)
                &&& e.method_id == spec_u16_at(d, p + 10)
                &&& e.dos_time == spec_u16_at(d, p + 12)
                &&& e.dos_date == spec_u16_at(d, p + 14)
                &&& e.crc == spec_u32_at(d, p + 16)
                &&& e.name@ == d.subrange(p + 46, p + 46 + nl)
                &&& e.extras@ == d.subrange(p + 46 + nl, p + 46 + nl + el)
                &&& e.comment@ == d.subrange(p + 46 + nl + el, p + 46 + nl + el + cl)
                &&& e.internal_attrs == spec_u16_at(d, p + 36)
                &&& e.external_attrs == spec_u32_at(d, p + 38)
                &&& (e.uncompressed_size, e.compressed_size, e.local_header_offset, e.disk)
                    == spec_promoted(
                    e.extras@,
                    spec_u32_at(d, p + 24),
                    spec_u32_at(d, p + 20),
                    spec_u32_at(d, p + 42),
                    spec_u16_at(d, p + 34),
                )
                &&& e.base_offset == old(self).spec_base()
                &&& final(self).spec_pos() == p + 46 + nl + el + cl
                &&& final(self).spec_remaining() == old(self).spec_remaining() - 1
            },
            r matches Err(e) ==> (e.kind matches ErrorKind::InvalidSignature { .. } || e.kind
                == ErrorKind::Eof),
            ({
                let d = old(self).spec_data();
                let p = old(self).spec_pos() as int;
                let nl = spec_u16_at(d, p + 28) as int;
                let el = spec_u16_at(d, p + 30) as int;
                let cl = spec_u16_at(d, p + 32) as int;
                (old(self).spec_remaining() > 0 && p + 46 <= d.len() && spec_u32_at(d, p)
                    == 0x02014b50 && p + 46 + nl + el + cl <= d.len()) ==> (r matches Ok(o)
                    && o is Some)
            }),
    {
        if self.remaining == 0 {
            return Ok(None);
        }
        let dlen: usize = self.data.len();
        let len = data_len_u64(self.data);
        if self.pos > len || len - self.pos < 46 {
            return Err(Error::from_kind(ErrorKind::Eof));
        }
        let p = self.pos as usize;
        let sig = le_u32_at(self.data, p);
        if sig != 0x02014b50 {
            return Err(
                Error::from_kind(
                    ErrorKind::InvalidSignature { expected: 0x02014b50, actual: sig },
                ),
            );
        }
        let version_made_by = le_u16_at(self.data, p + 4);
        let version_needed = le_u16_at(self.data, p + 6);
        let flags = le_u16_at(self.data, p + 8);
        let method_id = le_u16_at(self.data, p + 10);
        let dos_time = le_u16_at(self.data, p + 12);
        let dos_date = le_u16_at(self.data, p + 14);
        let crc = le_u32_at(self.data, p + 16);
        let compressed32 = le_u32_at(self.data, p + 20);
        let uncompressed32 = le_u32_at(self.data, p + 24);
        let name_len = le_u16_at(self.data, p + 28) as usize;
        let extra_len = le_u16_at(self.data, p + 30) as usize;
        let comment_len = le_u16_at(self.data, p + 32) as usize;
        let disk16 = le_u16_at(self.data, p + 34);
        let internal_attrs = le_u16_at(self.data, p + 36);
        let external_attrs = le_u32_at(self.data, p + 38);
        let lho32 = le_u32_at(self.data, p + 42);
        if dlen - p - 46 < name_len || dlen - p - 46 - name_len < extra_len || dlen - p - 46
            - name_len - extra_len < comment_len {
            return Err(Error::from_kind(ErrorKind::Eof));
        }
        let name = slice_subrange(self.data, p + 46, p + 46 + name_len);
        let extras = slice_subrange(self.data, p + 46 + name_len, p + 46 + name_len + extra_len);
        let comment = slice_subrange(
            self.data,
            p + 46 + name_len + extra_len,
            p + 46 + name_len + extra_len + comment_len,
        );
        let promoted = promote_zip64(extras, uncompressed32, compressed32, lho32, disk16);
        let entry = ZipEntry {
            version_made_by,
            version_needed,
            flags,
            method_id,
            dos_time,
            dos_date,
            crc,
            compressed_size: promoted.1,
            uncompressed_size: promoted.0,
            local_header_offset: promoted.2,
            disk: promoted.3,
            internal_attrs,
            external_attrs,
            name,
            extras,
            comment,
            base_offset: self.base,
        };
        self.pos = self.pos + 46 + name_len as u64 + extra_len as u64 + comment_len as u64;
        self.remaining = self.remaining - 1;
        Ok(Some(entry))
    }
}

/// One resolved entry of a slice-backed archive: its compressed data range
/// and local-header extras, with the central directory's claims about it.
#[derive(Debug, Clone, Copy)]
pub struct ZipSliceEntry<'a> {
    /// What the central directory claims about this entry.
    pub claims: ZipArchiveEntryWayfinder,
    data: &'a [u8],
    lfh_extras: &'a [u8],
}

impl<'a> ZipSliceEntry<'a> {
    /// What the central directory claims about this entry.
    pub closed spec fn spec_claims(&self) -> ZipArchiveEntryWayfinder {
        self.claims
    }

    /// The compressed data bytes.
    pub closed spec fn spec_data(&self) -> Seq<u8> {
        self.data@
    }

    /// The local file header's extras bytes.
    pub closed spec fn spec_lfh_extras(&self) -> Seq<u8> {
        self.lfh_extras@
    }

    /// The entry's compressed data.
    pub fn data(&self) -> (r: &'a [u8])
        ensures
            r@ == self.spec_data(),
    {
        self.data
    }

    /// An iterator over the local file header's extra fields (these may be
    /// richer than the central directory's).
    pub fn extra_fields(&self) -> (r: ExtraFields<'a>)
        ensures
            r.remaining() == self.spec_lfh_extras(),
    {
        ExtraFields::new(self.lfh_extras)
    }

    /// Checks the entry's (uncompressed) bytes against the recorded CRC-32
    /// and size. For entries stored without compression the entry's own
    /// data can be passed directly; for compressed entries, pass the
    /// decompressed bytes.
    pub fn verify(&self, uncompressed: &[u8]) -> (r: Result<(), Error>)
        ensures
            r is Ok <==> spec_crc32(uncompressed@) == self.spec_claims().crc
                && uncompressed@.len() == self.spec_claims().uncompressed_size,
            r matches Err(e) ==> (e.kind matches ErrorKind::InvalidChecksum { expected, actual }
                && expected == self.spec_claims().crc && actual == spec_crc32(uncompressed@)) || (
            e.kind matches ErrorKind::InvalidSize { expected, actual } && expected
                == self.spec_claims().uncompressed_size && actual == uncompressed@.len()),
    {
        let _len: usize = uncompressed.len();
        let mut verifier = CrcVerifier::new(self.claims.crc, self.claims.uncompressed_size);
        let _n: usize = verifier.update(uncompressed);
        verifier.finish()
    }
}

/// A running CRC-32 and size check against expected totals: feed the
/// uncompressed bytes through [`CrcVerifier::update`] and settle the
/// account with [`CrcVerifier::finish`].
pub struct CrcVerifier {
    expected_crc: u32,
    expected_size: u64,
    crc: u32,
    count: u64,
    table: Vec<u32>,
    processed: Ghost<Seq<u8>>,
}

impl CrcVerifier {
    /// The bytes fed through so far.
    pub closed spec fn processed(&self) -> Seq<u8> {
        self.processed@
    }

    pub closed spec fn spec_expected_crc(&self) -> u32 {
        self.expected_crc
    }

    pub closed spec fn spec_expected_size(&self) -> u64 {
        self.expected_size
    }

    pub closed spec fn wf(&self) -> bool {
        &&& self.count == self.processed@.len()
        &&& self.crc == spec_crc32(self.processed@)
        &&& self.table@.len() == 256
        &&& forall|i: int| 0 <= i < 256 ==> self.table@[i] == crc32_steps(i as u32, 8)
    }

    /// A verifier expecting the given CRC-32 and byte count.
    pub fn new(expected_crc: u32, expected_size: u64) -> (r: CrcVerifier)
        ensures
            r.wf(),
            r.processed() == Seq::<u8>::empty(),
            r.spec_expected_crc() == expected_crc,
            r.spec_expected_size() == expected_size,
    {
        let table = crc32_table();
        proof {
            assert(!(0u32) == 0xFFFFFFFFu32 && !(0xFFFFFFFFu32) == 0u32) by (bit_vector);
            assert(crate::crc::crc32_fold(!(0u32), Seq::<u8>::empty()) == !(0u32));
            assert(spec_crc32(Seq::<u8>::empty()) == 0);
        }
        CrcVerifier {
            expected_crc,
            expected_size,
            crc: 0,
            count: 0,
            table,
            processed: Ghost(Seq::empty()),
        }
    }

    /// Feeds bytes through the running checksum.
    pub fn update(&mut self, buf: &[u8]) -> (n: usize)
        requires
            old(self).wf(),
            old(self).processed().len() + buf@.len() <= u64::MAX,
        ensures
            final(self).wf(),
            n == buf@.len(),
            final(self).processed() == old(self).processed() + buf@,
            final(self).spec_expected_crc() == old(self).spec_expected_crc(),
            final(self).spec_expected_size() == old(self).spec_expected_size(),
    {
        self.crc = crc32_chunk_with_table(buf, self.crc, &self.table);
        self.count = self.count + buf.len() as u64;
        proof {
            crate::crc::lemma_crc32_chunked(old(self).processed@, buf@, 0);
        }
        self.processed = Ghost(self.processed@ + buf@);
        buf.len()
    }

    /// Settles the account: `Ok` exactly when the bytes fed through match
    /// the expected CRC-32 and size; mismatches fail with
    /// `InvalidChecksum` or `InvalidSize` carrying the expected and
    /// observed values.
    pub fn finish(&self) -> (r: Result<(), Error>)
        requires
            self.wf(),
        ensures
            r is Ok <==> spec_crc32(self.processed()) == self.spec_expected_crc()
                && self.processed().len() == self.spec_expected_size(),
            r matches Err(e) ==> (e.kind matches ErrorKind::InvalidChecksum { expected, actual }
                && expected == self.spec_expected_crc() && actual == spec_crc32(self.processed()))
                || (e.kind matches ErrorKind::InvalidSize { expected, actual } && expected
                == self.spec_expected_size() && actual == self.processed().len()),
    {
        if self.crc != self.expected_crc {
            return Err(
                Error::from_kind(
                    ErrorKind::InvalidChecksum { expected: self.expected_crc, actual: self.crc },
                ),
            );
        }
        if self.count != self.expected_size {
            return Err(
                Error::from_kind(
                    ErrorKind::InvalidSize { expected: self.expected_size, actual: self.count },
                ),
            );
        }
        Ok(())
    }
}

} // verus!

verus! {

/// `spec_find_tlv` over a list free of `id`, extended by one final pair
/// carrying `id`, finds that final pair.
proof fn lemma_find_tlv_append(tlvs: Seq<(u16, Seq<u8>)>, id: u16, body: Seq<u8>)
    requires
        forall|i: int| 0 <= i < tlvs.len() ==> (#[trigger] tlvs[i]).0 != id,
    ensures
        spec_find_tlv(tlvs + seq![(id, body)], id) == Some(body),
    decreases tlvs.len(),
{
    if tlvs.len() == 0 {
        assert(tlvs + seq![(id, body)] =~= seq![(id, body)]);
        assert((tlvs + seq![(id, body)])[0] == (id, body));
    } else {
        assert((tlvs + seq![(id, body)])[0] == tlvs[0]);
        assert((tlvs + seq![(id, body)]).skip(1) =~= tlvs.skip(1) + seq![(id, body)]);
        assert(forall|i: int| 0 <= i < tlvs.skip(1).len() ==> tlvs.skip(1)[i] == tlvs[i + 1]);
        lemma_find_tlv_append(tlvs.skip(1), id, body);
    }
}

/// No pair of the matching list carries `id` when no field for the filter
/// does.
proof fn lemma_matching_free_of_id(fields: Seq<FieldSpec>, filter: Header, id: u16)
    requires
        forall|j: int|
            0 <= j < fields.len() ==> !((#[trigger] fields[j]).id == id && fields[j].loc.0
                & filter.0 != 0),
    ensures
        forall|i: int|
            0 <= i < crate::extra_fields::spec_matching_tlvs(fields, filter).len() ==> (
            #[trigger] crate::extra_fields::spec_matching_tlvs(fields, filter)[i]).0 != id,
    decreases fields.len(),
{
    if fields.len() > 0 {
        assert(forall|i: int|
            0 <= i < fields.skip(1).len() ==> fields.skip(1)[i] == fields[i + 1]);
        lemma_matching_free_of_id(fields.skip(1), filter, id);
        let m = crate::extra_fields::spec_matching_tlvs(fields, filter);
        let mrest = crate::extra_fields::spec_matching_tlvs(fields.skip(1), filter);
        let head: Seq<(u16, Seq<u8>)> = if fields[0].loc.0 & filter.0 != 0 {
            seq![(fields[0].id, fields[0].data)]
        } else {
            Seq::empty()
        };
        assert(m == head + mrest);
        assert forall|i: int| 0 <= i < m.len() implies (#[trigger] m[i]).0 != id by {
            if i < head.len() {
                assert(m[i] == head[0]);
            } else {
                assert(m[i] == mrest[i - head.len()]);
            }
        }
    }
}

/// Sentinel-promotion round trip: an entry the writer records with ZIP64
/// treatment — capped 32-bit fields plus a ZIP64 extra field appended to
/// its central extras — promotes back to exactly the recorded 64-bit
/// values. The one input left out: a caller-supplied central extra field
/// that itself uses the ZIP64 id 0x0001, since promotion reads the first
/// such field.
pub proof fn lemma_promotion_round_trip(
    fields: Seq<crate::extra_fields::FieldSpec>,
    compressed: u64,
    uncompressed: u64,
    lho: u64,
)
    requires
        crate::writer::spec_needs_zip64_values(compressed, uncompressed, lho),
        forall|i: int|
            0 <= i < fields.len() ==> (#[trigger] fields[i]).data.len() <= 0xFFFF,
        forall|i: int|
            0 <= i < fields.len() ==> !((#[trigger] fields[i]).id == 0x0001 && fields[i].loc.0 & 2
                != 0),
    ensures
        ({
            let extras = crate::extra_fields::spec_filtered_bytes(
                crate::writer::spec_fields_with_zip64(fields, compressed, uncompressed, lho),
                crate::headers::Header(2),
            );
            spec_promoted(
                extras,
                crate::writer::spec_cap32(uncompressed),
                crate::writer::spec_cap32(compressed),
                crate::writer::spec_cap32(lho),
                0,
            ) == (uncompressed, compressed, lho, 0u32)
        }),
{
    vstd::bytes::lemma_auto_spec_u64_to_from_le_bytes();
    let h2 = crate::headers::Header(2);
    let zdata = crate::writer::spec_zip64_data(compressed, uncompressed, lho);
    let zf = crate::extra_fields::FieldSpec { id: 0x0001, data: zdata, loc: h2 };
    let fields2 = fields.push(zf);
    assert(zdata.len() <= 24);
    assert(forall|i: int|
        0 <= i < fields2.len() ==> (#[trigger] fields2[i]).data.len() <= 0xFFFF) by {
        assert(forall|i: int| 0 <= i < fields.len() ==> fields2[i] == fields[i]);
        assert(fields2[fields.len() as int] == zf);
    }
    crate::extra_fields::lemma_filtered_parse(fields2, h2);
    crate::extra_fields::lemma_matching_push(fields, zf, h2);
    assert(2u8 & 2u8 != 0) by (bit_vector);
    let m = crate::extra_fields::spec_matching_tlvs(fields, h2);
    lemma_matching_free_of_id(fields, h2, 0x0001);
    assert(crate::extra_fields::spec_matching_tlvs(fields2, h2) =~= m + seq![(0x0001u16, zdata)]);
    lemma_find_tlv_append(m, 0x0001, zdata);
    let extras = crate::extra_fields::spec_filtered_bytes(fields2, h2);
    assert(spec_find_tlv(spec_parse_tlvs(extras), 0x0001) == Some(zdata));
    let u32v = crate::writer::spec_cap32(uncompressed);
    let c32v = crate::writer::spec_cap32(compressed);
    let l32v = crate::writer::spec_cap32(lho);
    let off_c = if uncompressed >= 0xFFFFFFFF {
        8int
    } else {
        0int
    };
    let off_l = off_c + (if compressed >= 0xFFFFFFFF {
        8int
    } else {
        0int
    });
    if uncompressed >= 0xFFFFFFFF {
        assert(zdata.subrange(0, 8) =~= vstd::bytes::spec_u64_to_le_bytes(uncompressed));
    }
    if compressed >= 0xFFFFFFFF {
        assert(zdata.subrange(off_c, off_c + 8) =~= vstd::bytes::spec_u64_to_le_bytes(compressed));
    }
    if lho >= 0xFFFFFFFF {
        assert(zdata.subrange(off_l, off_l + 8) =~= vstd::bytes::spec_u64_to_le_bytes(lho));
    }
}

} // verus!
