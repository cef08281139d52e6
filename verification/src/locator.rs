//! The end-of-central-directory locator: a backwards scan that recovers the
//! archive anchor even when the archive sits behind prelude bytes, is
//! concatenated with other archives, or is followed by trailing data that
//! contains false signature bytes.

use crate::errors::{Error, ErrorKind};
use crate::reader_at::spec_min;
use crate::utils::{le_u16_at, le_u32_at};
use vstd::bytes::{spec_u16_from_le_bytes, spec_u32_from_le_bytes, spec_u64_from_le_bytes};
use vstd::prelude::*;

verus! {

/// The little-endian `u16` at byte offset `i` of `data`.
pub open spec fn spec_u16_at(data: Seq<u8>, i: int) -> u16 {
    spec_u16_from_le_bytes(data.subrange(i, i + 2))
}

/// The little-endian `u32` at byte offset `i` of `data`.
pub open spec fn spec_u32_at(data: Seq<u8>, i: int) -> u32 {
    spec_u32_from_le_bytes(data.subrange(i, i + 4))
}

/// The little-endian `u64` at byte offset `i` of `data`.
pub open spec fn spec_u64_at(data: Seq<u8>, i: int) -> u64 {
    spec_u64_from_le_bytes(data.subrange(i, i + 8))
}

/// An end-of-central-directory signature lies at offset `i`.
pub open spec fn spec_eocd_sig_at(data: Seq<u8>, i: int) -> bool {
    0 <= i && i + 4 <= data.len() && spec_u32_at(data, i) == 0x06054b50
}

/// A credible end-of-central-directory record lies at offset `i`: the
/// signature is there, the fixed record fits, and the declared comment
/// length reaches exactly to the end of the data.
pub open spec fn spec_eocd_valid_at(data: Seq<u8>, i: int) -> bool {
    &&& spec_eocd_sig_at(data, i)
    &&& i + 22 <= data.len()
    &&& spec_u16_at(data, i + 20) == data.len() - i - 22
}

/// The lowest offset the backwards scan reaches: the record plus the
/// largest possible comment span 65557 bytes (22 + 65535).
pub open spec fn spec_scan_floor(len: int) -> int {
    if len >= 65557 {
        len - 65557
    } else {
        0
    }
}

/// Scans `data` backwards for the end-of-central-directory record.
///
/// Returns the largest offset in the scan window whose record passes the
/// comment-length check. When only bare signatures are found (collisions in
/// trailing data), fails with `MissingEndOfCentralDirectory` carrying the
/// largest such offset, so the caller can retry on the prefix that ends
/// before it; with no signature at all, the carried offset is `None`.
pub fn locate_eocd(data: &[u8]) -> (r: Result<u64, Error>)
    ensures
        r matches Ok(off) ==> {
            &&& spec_scan_floor(data@.len() as int) <= off as int <= data@.len() - 22
            &&& spec_eocd_valid_at(data@, off as int)
            &&& forall|j: int|
                off < j <= data@.len() - 4 ==> !spec_eocd_valid_at(data@, j)
        },
        r matches Err(e) ==> (match e.kind {
            ErrorKind::MissingEndOfCentralDirectory { eocd_offset } => {
                &&& forall|j: int|
                    spec_scan_floor(data@.len() as int) <= j <= data@.len() - 4
                        ==> !spec_eocd_valid_at(data@, j)
                &&& (match eocd_offset {
                    Some(off) => {
                        &&& spec_eocd_sig_at(data@, off as int)
                        &&& forall|j: int|
                            off < j <= data@.len() - 4 ==> !spec_eocd_sig_at(data@, j)
                    },
                    None => forall|j: int|
                        spec_scan_floor(data@.len() as int) <= j <= data@.len() - 4
                            ==> !spec_eocd_sig_at(data@, j),
                })
            },
            _ => false,
        }),
{
    let len = data.len();
    if len < 4 {
        return Err(
            Error::from_kind(ErrorKind::MissingEndOfCentralDirectory { eocd_offset: None }),
        );
    }
    let lo: usize = if len >= 65557 {
        len - 65557
    } else {
        0
    };
    let mut candidate: Option<u64> = None;
    let mut pos: usize = len - 4;
    loop
        invariant
            len == data@.len(),
            len >= 4,
            lo == spec_scan_floor(len as int),
            lo <= pos <= len - 4,
            forall|j: int| pos < j <= len - 4 ==> !spec_eocd_valid_at(data@, j),
            match candidate {
                Some(off) => {
                    &&& spec_eocd_sig_at(data@, off as int)
                    &&& forall|j: int| off < j <= len - 4 ==> !spec_eocd_sig_at(data@, j)
                },
                None => forall|j: int| pos < j <= len - 4 ==> !spec_eocd_sig_at(data@, j),
            },
        ensures
            len == data@.len(),
            spec_scan_exhausted(data@, lo as int, candidate),
        decreases pos,
    {
        let sig = le_u32_at(data, pos);
        if sig == 0x06054b50 {
            if len >= 22 && pos <= len - 22 {
                let comment_len = le_u16_at(data, pos + 20) as usize;
                if comment_len == len - pos - 22 {
                    proof {
                        assert(spec_eocd_valid_at(data@, pos as int));
                    }
                    return Ok(pos as u64);
                }
            }
            if candidate.is_none() {
                candidate = Some(pos as u64);
            }
        }
        proof {
            assert(!spec_eocd_valid_at(data@, pos as int)) by {
                if spec_eocd_valid_at(data@, pos as int) {
                    assert(spec_u32_at(data@, pos as int) == 0x06054b50);
                }
            }
        }
        if pos == lo {
            break ;
        }
        pos -= 1;
    }
    Err(Error::from_kind(ErrorKind::MissingEndOfCentralDirectory { eocd_offset: candidate }))
}

/// What holds when the backwards scan has exhausted its window without an
/// exact match: no credible record anywhere in the window, and `candidate`
/// is the largest bare signature, if any.
pub open spec fn spec_scan_exhausted(data: Seq<u8>, lo: int, candidate: Option<u64>) -> bool {
    &&& forall|j: int| lo <= j <= data.len() - 4 ==> !spec_eocd_valid_at(data, j)
    &&& (match candidate {
        Some(off) => {
            &&& spec_eocd_sig_at(data, off as int)
            &&& forall|j: int| off < j <= data.len() - 4 ==> !spec_eocd_sig_at(data, j)
        },
        None => forall|j: int| lo <= j <= data.len() - 4 ==> !spec_eocd_sig_at(data, j),
    })
}

} // verus!

verus! {

/// Prelude-shift law: for any prelude `p` and archive bytes `a`, an
/// end-of-central-directory candidate at offset `i` of `a` is credible in
/// `p + a` at offset `p.len() + i` exactly when it is credible in `a`
/// alone (and likewise for bare signatures). With
/// [`locate_eocd`]'s contract — it returns the largest credible offset —
/// the anchor of an archive found behind a prelude is the archive's own
/// anchor shifted by the prelude's length.
pub proof fn lemma_eocd_shift(p: Seq<u8>, a: Seq<u8>, i: int)
    requires
        0 <= i,
    ensures
        spec_eocd_sig_at(p + a, p.len() + i) <==> spec_eocd_sig_at(a, i),
        spec_eocd_valid_at(p + a, p.len() + i) <==> spec_eocd_valid_at(a, i),
{
    if i + 4 <= a.len() {
        assert((p + a).subrange(p.len() + i, p.len() + i + 4) =~= a.subrange(i, i + 4));
    }
    if i + 22 <= a.len() {
        assert((p + a).subrange(p.len() + i + 20, p.len() + i + 22) =~= a.subrange(
            i + 20,
            i + 22,
        ));
    }
}

} // verus!

verus! {

/// Locates the end-of-central-directory record of the first `size` bytes
/// of a [`ReaderAt`]'s content, scanning backwards through the
/// caller-supplied buffer.
///
/// The buffer must be at least [`crate::RECOMMENDED_BUFFER_SIZE`] bytes:
/// a shorter buffer fails with `BufferTooSmall` without touching the
/// content. The scan covers the last `min(size, buffer.len())` bytes of
/// the `size`-byte prefix; as with [`locate_eocd`], the largest credible
/// record wins and a bare signature is reported for recovery.
pub fn locate_eocd_in_reader<R: crate::reader_at::ReaderAt>(
    reader: &R,
    buffer: &mut Vec<u8>,
    size: u64,
) -> (r: Result<u64, Error>)
    requires
        size <= reader.data().len(),
    ensures
        (r matches Err(e) && e.kind == ErrorKind::BufferTooSmall) <==> old(buffer)@.len()
            < crate::RECOMMENDED_BUFFER_SIZE,
        old(buffer)@.len() < crate::RECOMMENDED_BUFFER_SIZE ==> final(buffer)@ == old(buffer)@,
        ({
            let prefix = reader.data().subrange(0, size as int);
            let window = spec_min(spec_min(size as int, old(buffer)@.len() as int), 65557);
            let start = size - window;
            old(buffer)@.len() >= crate::RECOMMENDED_BUFFER_SIZE ==> {
                &&& (r matches Ok(off) ==> {
                    &&& start <= off <= size
                    &&& spec_eocd_valid_at(prefix, off as int)
                    &&& forall|j: int| off < j <= size - 4 ==> !spec_eocd_valid_at(prefix, j)
                })
                &&& (r matches Err(e) ==> e.kind matches
                    ErrorKind::MissingEndOfCentralDirectory { .. })
                &&& (r matches Err(e) ==> (match e.kind {
                    ErrorKind::MissingEndOfCentralDirectory { eocd_offset } => {
                        &&& (forall|j: int|
                            start <= j <= size - 4 ==> !spec_eocd_valid_at(prefix, j))
                        &&& (match eocd_offset {
                            Some(c) => {
                                &&& spec_eocd_sig_at(prefix, c as int)
                                &&& forall|j: int|
                                    c < j <= size - 4 ==> !spec_eocd_sig_at(prefix, j)
                            },
                            None => forall|j: int|
                                start <= j <= size - 4 ==> !spec_eocd_sig_at(prefix, j),
                        })
                    },
                    _ => false,
                }))
            }
        }),
{
    if buffer.len() < crate::RECOMMENDED_BUFFER_SIZE {
        return Err(Error::from_kind(ErrorKind::BufferTooSmall));
    }
    let blen = buffer.len();
    let mut window: u64 = if size <= blen as u64 {
        size
    } else {
        blen as u64
    };
    if window > 65557 {
        window = 65557;
    }
    let start: u64 = size - window;
    let n = crate::reader_at::try_read_at_least_at(reader, buffer, window as usize, start);
    let window_slice = vstd::slice::slice_subrange(buffer.as_slice(), 0, window as usize);
    let ghost prefix = reader.data().subrange(0, size as int);
    proof {
        assert(window_slice@ =~= prefix.subrange(start as int, size as int));
        assert(prefix =~= prefix.subrange(0, start as int) + window_slice@);
    }
    let r = locate_eocd(window_slice);
    proof {
        let head = prefix.subrange(0, start as int);
        match &r {
            Ok(off) => {
                let off = *off;
                lemma_eocd_shift(head, window_slice@, off as int);
                assert forall|j: int| start + off < j <= size - 4 implies !spec_eocd_valid_at(
                    prefix,
                    j,
                ) by {
                    lemma_eocd_shift(head, window_slice@, j - start);
                }
            },
            Err(e) => {
                assert forall|j: int| start <= j <= size - 4 implies !spec_eocd_valid_at(
                    prefix,
                    j,
                ) by {
                    lemma_eocd_shift(head, window_slice@, j - start);
                }
                match e.kind {
                    ErrorKind::MissingEndOfCentralDirectory { eocd_offset: Some(c) } => {
                        lemma_eocd_shift(head, window_slice@, c as int);
                        assert forall|j: int| start + c < j <= size - 4 implies !spec_eocd_sig_at(
                            prefix,
                            j,
                        ) by {
                            lemma_eocd_shift(head, window_slice@, j - start);
                        }
                    },
                    ErrorKind::MissingEndOfCentralDirectory { eocd_offset: None } => {
                        assert forall|j: int| start <= j <= size - 4 implies !spec_eocd_sig_at(
                            prefix,
                            j,
                        ) by {
                            lemma_eocd_shift(head, window_slice@, j - start);
                        }
                    },
                    _ => {},
                }
            },
        }
    }
    match r {
        Ok(off) => Ok(start + off),
        Err(e) => {
            match e.kind() {
                ErrorKind::MissingEndOfCentralDirectory { eocd_offset } => {
                    match eocd_offset {
                        Some(c) => Err(
                            Error::from_kind(
                                ErrorKind::MissingEndOfCentralDirectory {
                                    eocd_offset: Some(start + *c),
                                },
                            ),
                        ),
                        None => Err(
                            Error::from_kind(
                                ErrorKind::MissingEndOfCentralDirectory { eocd_offset: None },
                            ),
                        ),
                    }
                },
                _ => Err(
                    Error::from_kind(
                        ErrorKind::MissingEndOfCentralDirectory { eocd_offset: None },
                    ),
                ),
            }
        },
    }
}

} // verus!
