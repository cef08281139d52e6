//! Offset-addressable reading: the [`ReaderAt`] capability, in-memory
//! implementations over byte slices and vectors, and [`RangeReader`], a
//! sequential view over a byte range of a [`ReaderAt`].

use crate::errors::{Error, ErrorKind};
use vstd::prelude::*;

verus! {

/// The smaller of two mathematical integers.
pub open spec fn spec_min(a: int, b: int) -> int {
    if a <= b {
        a
    } else {
        b
    }
}

/// Provides reading bytes at a specific offset.
///
/// Unlike a sequential reader, methods take `&self`, so several entries of
/// one archive can be read concurrently. The `data` spec function is the
/// byte content the reader exposes; `read_at` fills the prefix of the
/// caller's buffer with as many bytes from `offset` as buffer and content
/// allow, clipping at the end of the content (an out-of-range offset reads
/// zero bytes, it is not an error).
pub trait ReaderAt: Sized {
    /// The full byte content this reader exposes.
    spec fn data(&self) -> Seq<u8>;

    /// Reads bytes starting at `offset` into the front of `buf`, returning
    /// how many were read.
    fn read_at(&self, buf: &mut Vec<u8>, offset: u64) -> (n: usize)
        ensures
            final(buf)@.len() == old(buf)@.len(),
            n as int == spec_min(
                old(buf)@.len() as int,
                self.data().len() - spec_min(self.data().len() as int, offset as int),
            ),
            ({
                let skip = spec_min(self.data().len() as int, offset as int);
                &&& (forall|i: int|
                    0 <= i < n ==> #[trigger] final(buf)@[i] == self.data()[skip + i])
                &&& (forall|i: int|
                    n <= i < old(buf)@.len() ==> #[trigger] final(buf)@[i] == old(buf)@[i])
            }),
    ;

    /// Fills all of `buf` from `offset`, or fails with `Eof` when the
    /// content ends first.
    fn read_exact_at(&self, buf: &mut Vec<u8>, offset: u64) -> (r: Result<(), Error>)
        ensures
            final(buf)@.len() == old(buf)@.len(),
            (r is Ok <==> (old(buf)@.len() == 0 || offset as int + old(buf)@.len()
                <= self.data().len())),
            r is Ok ==> final(buf)@ == self.data().subrange(
                spec_min(self.data().len() as int, offset as int),
                spec_min(self.data().len() as int, offset as int) + old(buf)@.len(),
            ),
            r matches Err(e) ==> e.kind == ErrorKind::Eof,
    {
        let n = self.read_at(buf, offset);
        if n == buf.len() {
            proof {
                let skip = spec_min(self.data().len() as int, offset as int);
                assert(final(buf)@ =~= self.data().subrange(skip, skip + old(buf)@.len()));
            }
            Ok(())
        } else {
            Err(Error::from_kind(ErrorKind::Eof))
        }
    }
}

impl<'a> ReaderAt for &'a [u8] {
    open spec fn data(&self) -> Seq<u8> {
        self@
    }

    fn read_at(&self, buf: &mut Vec<u8>, offset: u64) -> (n: usize) {
        let len = self.len();
        let skip: usize = if offset >= len as u64 {
            len
        } else {
            offset as usize
        };
        let avail = len - skip;
        let want = buf.len();
        let n = if avail <= want {
            avail
        } else {
            want
        };
        let mut i: usize = 0;
        while i < n
            invariant
                i <= n,
                n <= buf@.len(),
                skip + n <= self@.len(),
                self@.len() <= usize::MAX,
                buf@.len() == old(buf)@.len(),
                forall|k: int| 0 <= k < i ==> #[trigger] buf@[k] == self@[skip + k],
                forall|k: int| i <= k < old(buf)@.len() ==> #[trigger] buf@[k] == old(buf)@[k],
            decreases n - i,
        {
            let b = self[skip + i];
            buf[i] = b;
            i += 1;
        }
        n
    }
}

impl ReaderAt for Vec<u8> {
    open spec fn data(&self) -> Seq<u8> {
        self@
    }

    fn read_at(&self, buf: &mut Vec<u8>, offset: u64) -> (n: usize) {
        let mut s = self.as_slice();
        s.read_at(buf, offset)
    }
}

/// Reads at least `size` bytes from `offset` into the front of `buffer`,
/// stopping early only when the content ends: the result is the number of
/// bytes read, `min(buffer.len(), size)` or more unless the end was hit.
pub fn try_read_at_least_at<T: ReaderAt>(
    reader: &T,
    buffer: &mut Vec<u8>,
    size: usize,
    offset: u64,
) -> (n: usize)
    ensures
        final(buffer)@.len() == old(buffer)@.len(),
        n as int == spec_min(
            old(buffer)@.len() as int,
            reader.data().len() - spec_min(reader.data().len() as int, offset as int),
        ),
        ({
            let skip = spec_min(reader.data().len() as int, offset as int);
            forall|i: int| 0 <= i < n ==> #[trigger] final(buffer)@[i] == reader.data()[skip + i]
        }),
{
    reader.read_at(buffer, offset)
}

/// Reads at least `size` bytes from `offset` into the front of `buffer`.
///
/// Fails with `BufferTooSmall` (without touching the content) when the
/// supplied buffer is shorter than `size`, and with `Eof` when fewer than
/// `size` bytes lie between `offset` and the end of the content.
pub fn read_at_least_at<T: ReaderAt>(
    reader: &T,
    buffer: &mut Vec<u8>,
    size: usize,
    offset: u64,
) -> (r: Result<usize, Error>)
    ensures
        final(buffer)@.len() == old(buffer)@.len(),
        old(buffer)@.len() < size <==> (r matches Err(e) && e.kind == ErrorKind::BufferTooSmall),
        old(buffer)@.len() < size ==> final(buffer)@ == old(buffer)@,
        old(buffer)@.len() >= size && size > 0 && offset as int + size > reader.data().len() <==> (
        r matches Err(e) && e.kind == ErrorKind::Eof),
        (r matches Ok(n) <==> old(buffer)@.len() >= size && (size == 0 || offset as int + size
            <= reader.data().len())),
        r matches Ok(n) ==> {
            let skip = spec_min(reader.data().len() as int, offset as int);
            &&& n as int == spec_min(old(buffer)@.len() as int, reader.data().len() - skip)
            &&& n >= size
            &&& (forall|i: int|
                0 <= i < n ==> #[trigger] final(buffer)@[i] == reader.data()[skip + i])
        },
{
    if buffer.len() < size {
        return Err(Error::from_kind(ErrorKind::BufferTooSmall));
    }
    let read = try_read_at_least_at(reader, buffer, size, offset);
    if read < size {
        return Err(Error::from_kind(ErrorKind::Eof));
    }
    Ok(read)
}

/// A reader over the byte range `[offset, end_offset)` of a [`ReaderAt`],
/// presenting it as a sequential stream.
#[derive(Debug, Clone)]
pub struct RangeReader<R> {
    archive: R,
    offset: u64,
    end_offset: u64,
}

impl<R> RangeReader<R> {
    /// The current read position within the underlying content.
    pub closed spec fn spec_position(&self) -> u64 {
        self.offset
    }

    /// The end bound of the range.
    pub closed spec fn spec_end(&self) -> u64 {
        self.end_offset
    }

    /// The underlying reader.
    pub closed spec fn spec_inner(&self) -> &R {
        &self.archive
    }

    /// The position never passes the end bound.
    pub closed spec fn wf(&self) -> bool {
        self.offset <= self.end_offset
    }

    /// Creates a reader over `[start, end)` of `archive`.
    #[inline]
    pub fn new(archive: R, start: u64, end: u64) -> (r: RangeReader<R>)
        requires
            start <= end,
        ensures
            r.wf(),
            r.spec_position() == start,
            r.spec_end() == end,
            r.spec_inner() == &archive,
    {
        RangeReader { archive, offset: start, end_offset: end }
    }

    /// Returns the current read position within the range.
    #[inline]
    pub fn position(&self) -> (r: u64)
        ensures
            r == self.spec_position(),
    {
        self.offset
    }

    /// Returns the bytes still expected between the position and the end of
    /// the range (which may exceed what the underlying content can supply).
    #[inline]
    pub fn remaining(&self) -> (r: u64)
        requires
            self.wf(),
        ensures
            r == self.spec_end() - self.spec_position(),
    {
        self.end_offset - self.offset
    }

    /// Returns the end offset of the range.
    #[inline]
    pub fn end_offset(&self) -> (r: u64)
        ensures
            r == self.spec_end(),
    {
        self.end_offset
    }

    /// Returns a reference to the underlying reader.
    #[inline]
    pub fn get_ref(&self) -> (r: &R)
        ensures
            r == self.spec_inner(),
    {
        &self.archive
    }

    /// Consumes the reader and returns the underlying reader.
    #[inline]
    pub fn into_inner(self) -> (r: R)
        ensures
            r == *self.spec_inner(),
    {
        self.archive
    }
}

impl<R: ReaderAt> RangeReader<R> {
    /// Reads the next bytes of the range into the front of `buf`, advancing
    /// the position by the number of bytes read. Reads stop at the range
    /// end and at the end of the underlying content, whichever comes first.
    pub fn read(&mut self, buf: &mut Vec<u8>) -> (n: usize)
        requires
            old(self).wf(),
        ensures
            final(self).wf(),
            final(buf)@.len() == old(buf)@.len(),
            final(self).spec_end() == old(self).spec_end(),
            final(self).spec_inner() == old(self).spec_inner(),
            ({
                let d = old(self).spec_inner().data();
                let want = spec_min(
                    old(buf)@.len() as int,
                    old(self).spec_end() - old(self).spec_position(),
                );
                let skip = spec_min(d.len() as int, old(self).spec_position() as int);
                &&& n as int == spec_min(want, d.len() - skip)
                &&& final(self).spec_position() == old(self).spec_position() + n
                &&& (forall|i: int| 0 <= i < n ==> #[trigger] final(buf)@[i] == d[skip + i])
            }),
    {
        let remaining = self.remaining();
        let want: usize = if (buf.len() as u64) <= remaining {
            buf.len()
        } else {
            remaining as usize
        };
        let mut tmp: Vec<u8> = vec![0u8; want];
        let n = self.archive.read_at(&mut tmp, self.offset);
        let mut i: usize = 0;
        while i < n
            invariant
                i <= n,
                n <= tmp@.len(),
                tmp@.len() == want,
                want <= buf@.len(),
                buf@.len() == old(buf)@.len(),
                forall|k: int| 0 <= k < i ==> #[trigger] buf@[k] == tmp@[k],
            decreases n - i,
        {
            let b = tmp[i];
            buf[i] = b;
            i += 1;
        }
        self.offset = self.offset + n as u64;
        n
    }
}

} // verus!
