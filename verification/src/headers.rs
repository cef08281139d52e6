//! Selection of which ZIP headers (local, central, or both) a piece of
//! per-entry metadata is written to.

use vstd::prelude::*;

verus! {

/// Specifies which ZIP headers to place data in.
///
/// The ZIP format allows different extra-field data in the local file header
/// versus the central directory header. The default is to place data in both.
#[derive(Debug, Clone, Copy, PartialEq, Eq, Structural, Hash)]
pub struct Header(pub u8);

impl Header {
    /// Include data only in the local file header.
    #[inline]
    pub fn local() -> (r: Header)
        ensures
            r.0 == 0b01,
    {
        Header(0b01)
    }

    /// Include data only in the central directory.
    #[inline]
    pub fn central() -> (r: Header)
        ensures
            r.0 == 0b10,
    {
        Header(0b10)
    }

    #[inline]
    pub fn new(value: u8) -> (r: Header)
        ensures
            r.0 == value,
    {
        Header(value)
    }

    /// True when the selection includes the local file header.
    #[inline]
    pub fn includes_local(self) -> (r: bool)
        ensures
            r == self.spec_includes_local(),
    {
        self.0 & 0b01 != 0
    }

    /// True when the selection includes the central directory.
    #[inline]
    pub fn includes_central(self) -> (r: bool)
        ensures
            r == self.spec_includes_central(),
    {
        self.0 & 0b10 != 0
    }

    /// True when the two selections share at least one header location.
    #[inline]
    pub fn intersects(self, other: Header) -> (r: bool)
        ensures
            r == ((self.0 & other.0) != 0),
    {
        (self.0 & other.0) != 0
    }

    pub open spec fn spec_includes_local(self) -> bool {
        self.0 & 0b01 != 0
    }

    pub open spec fn spec_includes_central(self) -> bool {
        self.0 & 0b10 != 0
    }

    /// Bitwise union of two selections.
    #[inline]
    pub fn or(self, rhs: Header) -> (r: Header)
        ensures
            r.0 == (self.0 | rhs.0),
    {
        Header(self.0 | rhs.0)
    }

    /// Bitwise intersection of two selections.
    #[inline]
    pub fn and(self, rhs: Header) -> (r: Header)
        ensures
            r.0 == (self.0 & rhs.0),
    {
        Header(self.0 & rhs.0)
    }
}

impl Default for Header {
    /// The default places data in both the local and the central header.
    fn default() -> (r: Header)
        ensures
            r.0 == 0b11,
    {
        Header(0b11)
    }
}

} // verus!
