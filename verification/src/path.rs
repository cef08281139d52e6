//! ZIP file paths: raw name bytes with the minimum of validation needed for
//! safety. Paths are surfaced as raw bytes; rejection of dangerous names
//! (absolute paths, `..` components, NUL bytes, backslashes) happens only on
//! an explicit [`ZipFilePath::try_normalize`].

use crate::errors::{Error, ErrorKind};
use vstd::prelude::*;
use vstd::string::StringSliceAdditionalSpecFns;

verus! {

/// Byte value of `/`.
pub open spec fn spec_slash() -> u8 {
    47
}

/// Byte value of `.`.
pub open spec fn spec_dot() -> u8 {
    46
}

/// A `..` path component starts at `i`.
pub open spec fn spec_dotdot_at(bytes: Seq<u8>, i: int) -> bool {
    &&& 0 <= i
    &&& i + 2 <= bytes.len()
    &&& (i == 0 || bytes[i - 1] == spec_slash())
    &&& bytes[i] == spec_dot()
    &&& bytes[i + 1] == spec_dot()
    &&& (i + 2 == bytes.len() || bytes[i + 2] == spec_slash())
}

/// The name is safe to map onto a file system path: relative, free of NUL
/// bytes and backslashes, and without parent-directory components.
pub open spec fn spec_path_safe(bytes: Seq<u8>) -> bool {
    &&& forall|i: int| 0 <= i < bytes.len() ==> #[trigger] bytes[i] != 0
    &&& forall|i: int| 0 <= i < bytes.len() ==> #[trigger] bytes[i] != 92
    &&& (bytes.len() > 0 ==> bytes[0] != spec_slash())
    &&& forall|i: int| !#[trigger] spec_dotdot_at(bytes, i)
}

/// A file path stored in an archive: raw bytes, exposed as such.
#[derive(Debug, Clone, Copy)]
pub struct ZipFilePath<'a> {
    raw: &'a [u8],
}

impl<'a> ZipFilePath<'a> {
    /// The raw name bytes.
    pub closed spec fn bytes(&self) -> Seq<u8> {
        self.raw@
    }

    /// Wraps raw name bytes.
    #[inline]
    pub fn from_bytes(raw: &'a [u8]) -> (r: Self)
        ensures
            r.bytes() == raw@,
    {
        ZipFilePath { raw }
    }

    /// Wraps the bytes of a string name.
    #[inline]
    pub fn from_str(name: &'a str) -> (r: Self)
        ensures
            r.bytes() == name.spec_bytes(),
    {
        ZipFilePath { raw: name.as_bytes() }
    }

    /// The raw name bytes.
    #[inline]
    pub fn as_bytes(&self) -> (r: &'a [u8])
        ensures
            r@ == self.bytes(),
    {
        self.raw
    }

    /// The length of the name in bytes.
    #[inline]
    pub fn len(&self) -> (r: usize)
        ensures
            r == self.bytes().len(),
    {
        self.raw.len()
    }

    /// True when the name denotes a directory (it ends with `/`).
    pub fn is_dir(&self) -> (r: bool)
        ensures
            r == (self.bytes().len() > 0 && self.bytes()[self.bytes().len() - 1] == spec_slash()),
    {
        let n = self.raw.len();
        n > 0 && self.raw[n - 1] == 47
    }

    /// True when the name carries any non-ASCII byte, so that flag bit 11
    /// (UTF-8 encoding) must be set for it.
    pub fn needs_utf8_encoding(&self) -> (r: bool)
        ensures
            r == exists|i: int| 0 <= i < self.bytes().len() && #[trigger] self.bytes()[i] >= 0x80,
    {
        let n = self.raw.len();
        let mut i: usize = 0;
        while i < n
            invariant
                i <= n,
                n == self.bytes().len(),
                forall|k: int| 0 <= k < i ==> #[trigger] self.bytes()[k] < 0x80,
            decreases n - i,
        {
            if self.raw[i] >= 0x80 {
                return true;
            }
            i += 1;
        }
        false
    }

    /// Checks that the name is valid UTF-8 and safe to use as a relative
    /// file-system path, and hands the bytes back; rejects bytes that are
    /// not UTF-8 with `InvalidUtf8`, and absolute paths, `..` components,
    /// NUL bytes and backslashes with `InvalidInput`.
    pub fn try_normalize(&self) -> (r: Result<&'a [u8], Error>)
        ensures
            r is Ok <==> vstd::utf8::valid_utf8(self.bytes()) && spec_path_safe(self.bytes()),
            r matches Ok(b) ==> b@ == self.bytes(),
            (r matches Err(e) && e.kind is InvalidUtf8) <==> !vstd::utf8::valid_utf8(
                self.bytes(),
            ),
            r matches Err(e) ==> (e.kind is InvalidUtf8 || (e.kind
                matches ErrorKind::InvalidInput { .. } && !spec_path_safe(self.bytes()))),
    {
        if !check_utf8(self.raw) {
            return Err(Error::from_kind(ErrorKind::InvalidUtf8));
        }
        let n = self.raw.len();
        if n > 0 && self.raw[0] == 47 {
            return Err(
                Error::from_kind(ErrorKind::InvalidInput { msg: "absolute path".to_string() }),
            );
        }
        let mut i: usize = 0;
        while i < n
            invariant
                i <= n,
                n == self.bytes().len(),
                vstd::utf8::valid_utf8(self.bytes()),
                n > 0 ==> self.bytes()[0] != spec_slash(),
                forall|k: int| 0 <= k < i ==> #[trigger] self.bytes()[k] != 0,
                forall|k: int| 0 <= k < i ==> #[trigger] self.bytes()[k] != 92,
                forall|k: int| 0 <= k < i ==> !#[trigger] spec_dotdot_at(self.bytes(), k),
            decreases n - i,
        {
            let b = self.raw[i];
            if b == 0 {
                return Err(
                    Error::from_kind(
                        ErrorKind::InvalidInput { msg: "NUL byte in path".to_string() },
                    ),
                );
            }
            if b == 92 {
                return Err(
                    Error::from_kind(
                        ErrorKind::InvalidInput { msg: "backslash in path".to_string() },
                    ),
                );
            }
            if b == 46 && (i == 0 || self.raw[i - 1] == 47) && i + 1 < n && self.raw[i + 1] == 46
                && (i + 2 == n || self.raw[i + 2] == 47) {
                proof {
                    assert(spec_dotdot_at(self.bytes(), i as int));
                }
                return Err(
                    Error::from_kind(
                        ErrorKind::InvalidInput { msg: "parent directory component in path".to_string() },
                    ),
                );
            }
            proof {
                assert(!spec_dotdot_at(self.bytes(), i as int));
            }
            i += 1;
        }
        proof {
            assert forall|k: int| !#[trigger] spec_dotdot_at(self.bytes(), k) by {
                if spec_dotdot_at(self.bytes(), k) {
                    assert(0 <= k && k + 2 <= n);
                    assert(k < n);
                }
            }
        }
        Ok(self.raw)
    }
}

} // verus!

verus! {

/// Checks whether `bytes` form a valid UTF-8 encoding, one scalar at a
/// time.
pub fn check_utf8(bytes: &[u8]) -> (r: bool)
    ensures
        r == vstd::utf8::valid_utf8(bytes@),
{
    let n = bytes.len();
    let mut i: usize = 0;
    while i < n
        invariant
            i <= n,
            n == bytes@.len(),
            vstd::utf8::partial_valid_utf8(bytes@, i as int),
        decreases n - i,
    {
        let ghost suffix = bytes@.subrange(i as int, n as int);
        proof {
            assert(suffix.len() > 0);
            assert(suffix[0] == bytes@[i as int]);
        }
        let b0 = bytes[i];
        if b0 < 0x80 {
            proof {
                assert(vstd::utf8::is_leading_byte_width_1(suffix[0]));
                assert(vstd::utf8::codepoint_width_1(b0) == (b0 & 0x7F) as u32);
                assert((b0 & 0x7F) <= 0x7F) by (bit_vector);
                assert(vstd::utf8::valid_first_scalar(suffix));
                assert(vstd::utf8::length_of_first_scalar(suffix) == 1);
                vstd::utf8::partial_valid_utf8_extend(bytes@, i as int);
            }
            i += 1;
        } else if b0 < 0xC0 {
            proof {
                lemma_first_scalar_invalid(bytes@, i as int);
            }
            return false;
        } else if b0 < 0xE0 {
            if i + 1 >= n || !is_continuation(bytes[i + 1]) || b0 < 0xC2 {
                proof {
                    if i + 1 < n {
                        assert(suffix[1] == bytes@[i as int + 1]);
                    }
                    if b0 < 0xC2 && i + 1 < n && vstd::utf8::is_continuation_byte(
                        bytes@[i as int + 1],
                    ) {
                        let b1 = bytes@[i as int + 1];
                        assert((((b0 & 0x1F) as u32) << 6 | ((b1 & 0x3F) as u32)) < 0x80)
                            by (bit_vector)
                            requires
                                0xC0 <= b0 < 0xC2,
                        ;
                    }
                    lemma_first_scalar_invalid(bytes@, i as int);
                }
                return false;
            }
            let b1 = bytes[i + 1];
            proof {
                assert(suffix[1] == bytes@[i as int + 1]);
                assert((((b0 & 0x1F) as u32) << 6 | ((b1 & 0x3F) as u32)) >= 0x80 && (((b0 & 0x1F)
                    as u32) << 6 | ((b1 & 0x3F) as u32)) <= 0x7FF) by (bit_vector)
                    requires
                        0xC2 <= b0 <= 0xDF,
                ;
                assert(vstd::utf8::valid_first_scalar(suffix));
                assert(vstd::utf8::length_of_first_scalar(suffix) == 2);
                vstd::utf8::partial_valid_utf8_extend(bytes@, i as int);
            }
            i += 2;
        } else if b0 < 0xF0 {
            if n - i < 3 || !is_continuation(bytes[i + 1]) || !is_continuation(bytes[i + 2]) {
                proof {
                    if i + 1 < n {
                        assert(suffix[1] == bytes@[i as int + 1]);
                    }
                    if i + 2 < n {
                        assert(suffix[2] == bytes@[i as int + 2]);
                    }
                    lemma_first_scalar_invalid(bytes@, i as int);
                }
                return false;
            }
            let b1 = bytes[i + 1];
            let b2 = bytes[i + 2];
            let cp_ok = !(b0 == 0xE0 && b1 < 0xA0) && !(b0 == 0xED && b1 >= 0xA0);
            if !cp_ok {
                proof {
                    assert(suffix[1] == bytes@[i as int + 1]);
                    assert(suffix[2] == bytes@[i as int + 2]);
                    if b0 == 0xE0 && b1 < 0xA0 {
                        assert((((b0 & 0x0F) as u32) << 12 | ((b1 & 0x3F) as u32) << 6 | ((b2
                            & 0x3F) as u32)) < 0x800) by (bit_vector)
                            requires
                                b0 == 0xE0,
                                0x80 <= b1 < 0xA0,
                        ;
                    }
                    if b0 == 0xED && b1 >= 0xA0 {
                        assert(0xD800 <= (((b0 & 0x0F) as u32) << 12 | ((b1 & 0x3F) as u32) << 6 | (
                        (b2 & 0x3F) as u32)) && (((b0 & 0x0F) as u32) << 12 | ((b1 & 0x3F) as u32)
                            << 6 | ((b2 & 0x3F) as u32)) <= 0xDFFF) by (bit_vector)
                            requires
                                b0 == 0xED,
                                0xA0 <= b1 <= 0xBF,
                        ;
                    }
                    lemma_first_scalar_invalid(bytes@, i as int);
                }
                return false;
            }
            proof {
                assert(suffix[1] == bytes@[i as int + 1]);
                assert(suffix[2] == bytes@[i as int + 2]);
                assert((((b0 & 0x0F) as u32) << 12 | ((b1 & 0x3F) as u32) << 6 | ((b2 & 0x3F)
                    as u32)) >= 0x800 && !(0xD800 <= (((b0 & 0x0F) as u32) << 12 | ((b1 & 0x3F)
                    as u32) << 6 | ((b2 & 0x3F) as u32)) <= 0xDFFF)) by (bit_vector)
                    requires
                        0xE0 <= b0 <= 0xEF,
                        0x80 <= b1 <= 0xBF,
                        !(b0 == 0xE0 && b1 < 0xA0),
                        !(b0 == 0xED && b1 >= 0xA0),
                ;
                assert(vstd::utf8::valid_first_scalar(suffix));
                assert(vstd::utf8::length_of_first_scalar(suffix) == 3);
                vstd::utf8::partial_valid_utf8_extend(bytes@, i as int);
            }
            i += 3;
        } else if b0 < 0xF8 {
            if n - i < 4 || !is_continuation(bytes[i + 1]) || !is_continuation(bytes[i + 2])
                || !is_continuation(bytes[i + 3]) {
                proof {
                    if i + 1 < n {
                        assert(suffix[1] == bytes@[i as int + 1]);
                    }
                    if i + 2 < n {
                        assert(suffix[2] == bytes@[i as int + 2]);
                    }
                    if i + 3 < n {
                        assert(suffix[3] == bytes@[i as int + 3]);
                    }
                    lemma_first_scalar_invalid(bytes@, i as int);
                }
                return false;
            }
            let b1 = bytes[i + 1];
            let b2 = bytes[i + 2];
            let b3 = bytes[i + 3];
            let cp_ok = !(b0 == 0xF0 && b1 < 0x90) && b0 < 0xF5 && !(b0 == 0xF4 && b1 >= 0x90);
            if !cp_ok {
                proof {
                    assert(suffix[1] == bytes@[i as int + 1]);
                    assert(suffix[2] == bytes@[i as int + 2]);
                    assert(suffix[3] == bytes@[i as int + 3]);
                    if b0 == 0xF0 && b1 < 0x90 {
                        assert((((b0 & 0x07) as u32) << 18 | ((b1 & 0x3F) as u32) << 12 | ((b2
                            & 0x3F) as u32) << 6 | ((b3 & 0x3F) as u32)) < 0x10000) by (bit_vector)
                            requires
                                b0 == 0xF0,
                                0x80 <= b1 < 0x90,
                        ;
                    }
                    if b0 >= 0xF5 {
                        assert((((b0 & 0x07) as u32) << 18 | ((b1 & 0x3F) as u32) << 12 | ((b2
                            & 0x3F) as u32) << 6 | ((b3 & 0x3F) as u32)) > 0x10FFFF) by (bit_vector)
                            requires
                                0xF5 <= b0 <= 0xF7,
                        ;
                    } else if b0 == 0xF4 && b1 >= 0x90 {
                        assert((((b0 & 0x07) as u32) << 18 | ((b1 & 0x3F) as u32) << 12 | ((b2
                            & 0x3F) as u32) << 6 | ((b3 & 0x3F) as u32)) > 0x10FFFF) by (bit_vector)
                            requires
                                b0 == 0xF4,
                                0x90 <= b1 <= 0xBF,
                        ;
                    }
                    lemma_first_scalar_invalid(bytes@, i as int);
                }
                return false;
            }
            proof {
                assert(suffix[1] == bytes@[i as int + 1]);
                assert(suffix[2] == bytes@[i as int + 2]);
                assert(suffix[3] == bytes@[i as int + 3]);
                assert(0x10000 <= (((b0 & 0x07) as u32) << 18 | ((b1 & 0x3F) as u32) << 12 | ((b2
                    & 0x3F) as u32) << 6 | ((b3 & 0x3F) as u32)) && (((b0 & 0x07) as u32) << 18 | (
                (b1 & 0x3F) as u32) << 12 | ((b2 & 0x3F) as u32) << 6 | ((b3 & 0x3F) as u32))
                    <= 0x10FFFF) by (bit_vector)
                    requires
                        0xF0 <= b0 <= 0xF7,
                        0x80 <= b1 <= 0xBF,
                        !(b0 == 0xF0 && b1 < 0x90),
                        b0 < 0xF5,
                        !(b0 == 0xF4 && b1 >= 0x90),
                ;
                assert(vstd::utf8::valid_first_scalar(suffix));
                assert(vstd::utf8::length_of_first_scalar(suffix) == 4);
                vstd::utf8::partial_valid_utf8_extend(bytes@, i as int);
            }
            i += 4;
        } else {
            proof {
                lemma_first_scalar_invalid(bytes@, i as int);
            }
            return false;
        }
    }
    proof {
        assert(bytes@.subrange(0, n as int) =~= bytes@);
    }
    true
}

/// True for a UTF-8 continuation byte (10xxxxxx).
fn is_continuation(b: u8) -> (r: bool)
    ensures
        r == vstd::utf8::is_continuation_byte(b),
{
    0x80 <= b && b <= 0xBF
}

/// A valid prefix followed by a suffix that does not start with a valid
/// scalar makes the whole sequence invalid.
proof fn lemma_first_scalar_invalid(bytes: Seq<u8>, i: int)
    requires
        0 <= i < bytes.len(),
        vstd::utf8::partial_valid_utf8(bytes, i),
        !vstd::utf8::valid_first_scalar(bytes.subrange(i, bytes.len() as int)),
    ensures
        !vstd::utf8::valid_utf8(bytes),
{
    let suffix = bytes.subrange(i, bytes.len() as int);
    assert(!vstd::utf8::valid_utf8(suffix));
    vstd::utf8::partial_valid_partial_invalid_utf8(bytes, i);
}

} // verus!
