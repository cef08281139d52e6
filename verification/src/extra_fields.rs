//! Extra fields: the TLV (id, length, value) records that ZIP local and
//! central headers carry, an iterator over their raw encoding, and the
//! writer-side container that routes each field to its header locations.

use crate::errors::{Error, ErrorKind};
use crate::headers::Header;
use crate::utils::{le_u16_at, push_bytes, push_u16le};
use vstd::bytes::{lemma_auto_spec_u16_to_from_le_bytes, spec_u16_from_le_bytes, spec_u16_to_le_bytes};
use vstd::prelude::*;
use vstd::slice::slice_subrange;

verus! {

/// A numeric identifier for an extra field in a ZIP archive.
#[derive(Debug, Clone, Copy, PartialEq, Eq, Structural, Hash)]
pub struct ExtraFieldId(pub u16);

impl ExtraFieldId {
    /// The ZIP64 extended information extra field (0x0001).
    #[inline]
    pub fn zip64() -> (r: ExtraFieldId)
        ensures
            r.0 == 0x0001,
    {
        ExtraFieldId(0x0001)
    }

    /// The extended timestamp extra field (0x5455).
    #[inline]
    pub fn extended_timestamp() -> (r: ExtraFieldId)
        ensures
            r.0 == 0x5455,
    {
        ExtraFieldId(0x5455)
    }

    /// Wraps a raw `u16` extra field ID.
    #[inline]
    pub fn new(id: u16) -> (r: ExtraFieldId)
        ensures
            r.0 == id,
    {
        ExtraFieldId(id)
    }

    /// Returns the raw `u16` value of the extra field ID.
    #[inline]
    pub fn as_u16(self) -> (r: u16)
        ensures
            r == self.0,
    {
        self.0
    }
}

/// One extra field as the writer records it: its id, its body, and which
/// header locations it is destined for.
pub ghost struct FieldSpec {
    pub id: u16,
    pub data: Seq<u8>,
    pub loc: Header,
}

/// The wire encoding of one TLV: 2-byte id, 2-byte length, then the body.
pub open spec fn spec_tlv(id: u16, data: Seq<u8>) -> Seq<u8> {
    spec_u16_to_le_bytes(id) + spec_u16_to_le_bytes(data.len() as u16) + data
}

/// Total encoded length of the TLV at the head of `data` (only meaningful
/// when `data` has at least the 4 header bytes).
pub open spec fn spec_tlv_len(data: Seq<u8>) -> int {
    4 + spec_u16_from_le_bytes(data.subrange(2, 4))
}

/// True when a complete TLV sits at the head of `data`.
pub open spec fn spec_has_tlv(data: Seq<u8>) -> bool {
    data.len() >= 4 && spec_tlv_len(data) <= data.len()
}

/// The id of the TLV at the head of `data`.
pub open spec fn spec_head_id(data: Seq<u8>) -> u16 {
    spec_u16_from_le_bytes(data.subrange(0, 2))
}

/// The body of the TLV at the head of `data`.
pub open spec fn spec_head_body(data: Seq<u8>) -> Seq<u8> {
    data.subrange(4, spec_tlv_len(data))
}

/// Parses `data` as a sequence of TLVs, stopping at the first incomplete one.
pub open spec fn spec_parse_tlvs(data: Seq<u8>) -> Seq<(u16, Seq<u8>)>
    decreases data.len(),
{
    if spec_has_tlv(data) {
        seq![(spec_head_id(data), spec_head_body(data))] + spec_parse_tlvs(
            data.skip(spec_tlv_len(data)),
        )
    } else {
        Seq::empty()
    }
}

/// True when `data` is a whole number of TLVs with nothing left over.
pub open spec fn spec_tlvs_complete(data: Seq<u8>) -> bool
    decreases data.len(),
{
    if data.len() == 0 {
        true
    } else if spec_has_tlv(data) {
        spec_tlvs_complete(data.skip(spec_tlv_len(data)))
    } else {
        false
    }
}

/// The concatenated encoding of a sequence of fields.
pub open spec fn spec_fields_bytes(fields: Seq<FieldSpec>) -> Seq<u8>
    decreases fields.len(),
{
    if fields.len() == 0 {
        Seq::empty()
    } else {
        spec_tlv(fields[0].id, fields[0].data) + spec_fields_bytes(fields.skip(1))
    }
}

/// The concatenated encoding of the fields whose location intersects
/// `filter`, in declaration order.
pub open spec fn spec_filtered_bytes(fields: Seq<FieldSpec>, filter: Header) -> Seq<u8>
    decreases fields.len(),
{
    if fields.len() == 0 {
        Seq::empty()
    } else {
        (if fields[0].loc.0 & filter.0 != 0 {
            spec_tlv(fields[0].id, fields[0].data)
        } else {
            Seq::empty()
        }) + spec_filtered_bytes(fields.skip(1), filter)
    }
}

/// An iterator over the raw TLV encoding of extra fields.
///
/// If malformed or truncated data is encountered, it stops yielding entries;
/// [`ExtraFields::remaining_bytes`] then exposes what was left unparsed.
#[derive(Debug, Clone, Copy)]
pub struct ExtraFields<'a> {
    data: &'a [u8],
}

impl<'a> ExtraFields<'a> {
    /// The bytes not yet consumed.
    pub closed spec fn remaining(&self) -> Seq<u8> {
        self.data@
    }

    /// Creates a new iterator over the extra fields in `data`.
    #[inline]
    pub fn new(data: &'a [u8]) -> (r: Self)
        ensures
            r.remaining() == data@,
    {
        ExtraFields { data }
    }

    /// Returns the remaining unparsed bytes.
    #[inline]
    pub fn remaining_bytes(&self) -> (r: &'a [u8])
        ensures
            r@ == self.remaining(),
    {
        self.data
    }

    /// Yields the next whole TLV (header plus body), or `None` when no
    /// complete TLV heads the remaining bytes.
    pub fn next_data(&mut self) -> (r: Option<&'a [u8]>)
        ensures
            spec_has_tlv(old(self).remaining()) ==> {
                let l = spec_tlv_len(old(self).remaining());
                &&& r matches Some(chunk) && chunk@ == old(self).remaining().take(l)
                &&& final(self).remaining() == old(self).remaining().skip(l)
            },
            !spec_has_tlv(old(self).remaining()) ==> r is None && final(self).remaining() == old(
                self,
            ).remaining(),
    {
        let scratch = self.data;
        if scratch.len() < 4 {
            return None;
        }
        let size = le_u16_at(scratch, 2) as usize;
        let total_field_len = size + 4;
        if scratch.len() < total_field_len {
            return None;
        }
        let body = slice_subrange(scratch, 0, total_field_len);
        let rest = slice_subrange(scratch, total_field_len, scratch.len());
        // Only advance once we have the entire entry
        self.data = rest;
        Some(body)
    }

    /// Yields the id and body of the next TLV, or `None` when no complete
    /// TLV heads the remaining bytes.
    pub fn next(&mut self) -> (r: Option<(ExtraFieldId, &'a [u8])>)
        ensures
            spec_has_tlv(old(self).remaining()) ==> {
                let rem = old(self).remaining();
                &&& r matches Some((id, body)) && id.0 == spec_head_id(rem) && body@
                    == spec_head_body(rem)
                &&& final(self).remaining() == rem.skip(spec_tlv_len(rem))
            },
            !spec_has_tlv(old(self).remaining()) ==> r is None && final(self).remaining() == old(
                self,
            ).remaining(),
    {
        let next_chunk = match self.next_data() {
            Some(c) => c,
            None => {
                return None;
            },
        };
        let kind = le_u16_at(next_chunk, 0);
        let body = slice_subrange(next_chunk, 4, next_chunk.len());
        proof {
            let rem = old(self).remaining();
            assert(rem.take(spec_tlv_len(rem)).subrange(0, 2) =~= rem.subrange(0, 2));
            assert(rem.take(spec_tlv_len(rem)).subrange(4, spec_tlv_len(rem)) =~= rem.subrange(
                4,
                spec_tlv_len(rem),
            ));
        }
        Some((ExtraFieldId(kind), body))
    }
}

/// A stack-first vector that avoids heap allocation for small amounts of
/// data: up to `N` elements are stored inline before promotion to a `Vec`.
#[derive(Debug, Clone)]
pub enum StackVec<T, const N: usize> where T: Copy {
    /// Inline storage for up to N elements
    Small { data: [T; N], len: u8 },
    /// Heap storage for more elements
    Large(Vec<T>),
}

impl<T, const N: usize> StackVec<T, N> where T: Copy {
    /// The elements held, in order.
    pub closed spec fn view(&self) -> Seq<T> {
        match self {
            StackVec::Small { data, len } => data@.take(*len as int),
            StackVec::Large(v) => v@,
        }
    }

    /// Inline storage is in bounds.
    pub closed spec fn wf(&self) -> bool {
        &&& N <= 255
        &&& match self {
            StackVec::Small { data, len } => *len as int <= N,
            StackVec::Large(_) => true,
        }
    }

    /// An empty vector. `default_val` fills the unused inline slots.
    pub fn new(default_val: T) -> (r: Self)
        requires
            N <= 255,
        ensures
            r.wf(),
            r.view() == Seq::<T>::empty(),
    {
        let r = StackVec::Small { data: [default_val;N], len: 0 };
        proof {
            assert(r.view() =~= Seq::<T>::empty());
        }
        r
    }

    /// Appends one element, promoting to heap storage when the inline
    /// capacity is exhausted.
    pub fn push(&mut self, item: T)
        requires
            old(self).wf(),
        ensures
            final(self).wf(),
            final(self).view() == old(self).view().push(item),
    {
        match self {
            StackVec::Large(vec) => {
                vec.push(item);
            },
            StackVec::Small { data, len } => {
                let mut arr: [T; N] = *data;
                let l: u8 = *len;
                if (l as usize) < N {
                    arr[l as usize] = item;
                    *data = arr;
                    *len = l + 1;
                    proof {
                        assert(final(self).view() =~= old(self).view().push(item));
                    }
                } else {
                    let mut vec: Vec<T> = Vec::new();
                    let mut j: usize = 0;
                    while j < N
                        invariant
                            j <= N,
                            vec@ == arr@.take(j as int),
                        decreases N - j,
                    {
                        vec.push(arr[j]);
                        proof {
                            assert(arr@.take(j + 1) =~= arr@.take(j as int).push(arr@[j as int]));
                        }
                        j += 1;
                    }
                    vec.push(item);
                    proof {
                        assert(arr@.take(N as int) =~= arr@);
                    }
                    *self = StackVec::Large(vec);
                    proof {
                        assert(final(self).view() =~= old(self).view().push(item));
                    }
                }
            },
        }
    }

    /// The elements as a slice.
    pub fn as_slice(&self) -> (r: &[T])
        requires
            self.wf(),
        ensures
            r@ == self.view(),
    {
        match self {
            StackVec::Small { data, len } => {
                let s = data.as_slice();
                let r = slice_subrange(s, 0, *len as usize);
                proof {
                    assert(r@ =~= self.view());
                }
                r
            },
            StackVec::Large(vec) => vec.as_slice(),
        }
    }
}

impl<const N: usize> StackVec<u8, N> {
    /// Appends every byte of `slice`, promoting to heap storage when the
    /// inline capacity would be exceeded.
    pub fn extend_from_slice(&mut self, slice: &[u8])
        requires
            old(self).wf(),
            old(self).view().len() + slice@.len() <= usize::MAX,
        ensures
            final(self).wf(),
            final(self).view() == old(self).view() + slice@,
    {
        match self {
            StackVec::Large(vec) => {
                push_bytes(vec, slice);
            },
            StackVec::Small { data, len } => {
                let mut arr: [u8; N] = *data;
                let l: u8 = *len;
                if (l as usize) + slice.len() <= N {
                    let mut j: usize = 0;
                    while j < slice.len()
                        invariant
                            j <= slice@.len(),
                            l as int + slice@.len() <= N <= 255,
                            arr@.len() == N,
                            arr@.take(l as int) == old(self).view(),
                            arr@.subrange(l as int, l as int + j as int) =~= slice@.take(j as int),
                        decreases slice@.len() - j,
                    {
                        arr[(l as usize) + j] = slice[j];
                        proof {
                            assert(arr@.take(l as int) =~= old(self).view());
                            assert(arr@.subrange(l as int, l as int + j + 1) =~= slice@.take(
                                j + 1,
                            ));
                        }
                        j += 1;
                    }
                    *data = arr;
                    *len = l + slice.len() as u8;
                    proof {
                        let sl = slice@.len() as int;
                        assert(arr@.subrange(l as int, l as int + sl) =~= slice@);
                        assert(final(self).view() == arr@.take(l as int + sl));
                        assert(arr@.take(l as int + sl) =~= arr@.take(l as int) + arr@.subrange(
                            l as int,
                            l as int + sl,
                        ));
                        assert(final(self).view() =~= old(self).view() + slice@);
                    }
                } else {
                    let mut vec: Vec<u8> = Vec::new();
                    let mut j: usize = 0;
                    while j < l as usize
                        invariant
                            j <= l as int <= N,
                            arr@.len() == N,
                            vec@ == arr@.take(j as int),
                        decreases l - j,
                    {
                        vec.push(arr[j]);
                        proof {
                            assert(arr@.take(j + 1) =~= arr@.take(j as int).push(arr@[j as int]));
                        }
                        j += 1;
                    }
                    proof {
                        assert(arr@.take(l as int) =~= old(self).view());
                    }
                    push_bytes(&mut vec, slice);
                    *self = StackVec::Large(vec);
                    proof {
                        assert(final(self).view() =~= old(self).view() + slice@);
                    }
                }
            },
        }
    }
}

/// Appending one encoded TLV to a well-formed TLV buffer parses as the old
/// fields plus the new one.
proof fn lemma_parse_append(buf: Seq<u8>, id: u16, data: Seq<u8>)
    requires
        spec_tlvs_complete(buf),
        data.len() <= 0xFFFF,
    ensures
        spec_tlvs_complete(buf + spec_tlv(id, data)),
        spec_parse_tlvs(buf + spec_tlv(id, data)) == spec_parse_tlvs(buf).push((id, data)),
    decreases buf.len(),
{
    let enc = spec_tlv(id, data);
    if buf.len() == 0 {
        lemma_tlv_head(id, data, Seq::empty());
        assert(buf + enc =~= enc + Seq::<u8>::empty());
        assert(spec_tlvs_complete(Seq::<u8>::empty()));
        assert((buf + enc).skip(spec_tlv_len(buf + enc)) =~= Seq::<u8>::empty());
        assert(spec_tlvs_complete(buf + enc));
        assert(spec_parse_tlvs((buf + enc).skip(spec_tlv_len(buf + enc))) =~= Seq::<(
            u16,
            Seq<u8>,
        )>::empty());
        assert(spec_parse_tlvs(buf + enc) =~= spec_parse_tlvs(buf).push((id, data)));
    } else {
        let l = spec_tlv_len(buf);
        assert((buf + enc).subrange(2, 4) =~= buf.subrange(2, 4));
        assert((buf + enc).subrange(0, 2) =~= buf.subrange(0, 2));
        assert((buf + enc).subrange(4, l) =~= buf.subrange(4, l));
        assert((buf + enc).skip(l) =~= buf.skip(l) + enc);
        lemma_parse_append(buf.skip(l), id, data);
        assert(spec_tlvs_complete(buf + enc));
        assert(spec_parse_tlvs(buf + enc) =~= spec_parse_tlvs(buf).push((id, data)));
    }
}

/// The encoding of one TLV followed by `rest` starts with exactly that TLV.
proof fn lemma_tlv_head(id: u16, data: Seq<u8>, rest: Seq<u8>)
    requires
        data.len() <= 0xFFFF,
    ensures
        ({
            let enc = spec_tlv(id, data) + rest;
            &&& spec_has_tlv(enc)
            &&& spec_tlv_len(enc) == 4 + data.len()
            &&& spec_head_id(enc) == id
            &&& spec_head_body(enc) == data
            &&& enc.take(spec_tlv_len(enc)) == spec_tlv(id, data)
            &&& enc.skip(spec_tlv_len(enc)) == rest
        }),
{
    lemma_auto_spec_u16_to_from_le_bytes();
    let enc = spec_tlv(id, data) + rest;
    assert(enc.subrange(2, 4) =~= spec_u16_to_le_bytes(data.len() as u16));
    assert(spec_tlv_len(enc) == 4 + data.len());
    assert(enc.subrange(0, 2) =~= spec_u16_to_le_bytes(id));
    assert(enc.subrange(4, spec_tlv_len(enc)) =~= data);
    assert(enc.take(spec_tlv_len(enc)) =~= spec_tlv(id, data));
    assert(enc.skip(spec_tlv_len(enc)) =~= rest);
}

/// Appending a field appends its encoding.
proof fn lemma_fields_bytes_push(fields: Seq<FieldSpec>, f: FieldSpec)
    ensures
        spec_fields_bytes(fields.push(f)) == spec_fields_bytes(fields) + spec_tlv(f.id, f.data),
    decreases fields.len(),
{
    if fields.len() == 0 {
        assert(fields.push(f)[0] == f);
        assert(fields.push(f).skip(1) =~= Seq::<FieldSpec>::empty());
        assert(spec_fields_bytes(Seq::<FieldSpec>::empty()) =~= Seq::<u8>::empty());
        assert(spec_fields_bytes(fields.push(f)) =~= spec_fields_bytes(fields) + spec_tlv(
            f.id,
            f.data,
        ));
    } else {
        assert(fields.push(f)[0] == fields[0]);
        assert(fields.push(f).skip(1) =~= fields.skip(1).push(f));
        lemma_fields_bytes_push(fields.skip(1), f);
        assert(spec_fields_bytes(fields.push(f)) =~= spec_fields_bytes(fields) + spec_tlv(
            f.id,
            f.data,
        ));
    }
}

/// Appending a field appends its encoding to the side(s) it selects.
pub proof fn lemma_filtered_push(fields: Seq<FieldSpec>, f: FieldSpec, filter: Header)
    ensures
        spec_filtered_bytes(fields.push(f), filter) == spec_filtered_bytes(fields, filter) + (
        if f.loc.0 & filter.0 != 0 {
            spec_tlv(f.id, f.data)
        } else {
            Seq::<u8>::empty()
        }),
    decreases fields.len(),
{
    let tail = if f.loc.0 & filter.0 != 0 {
        spec_tlv(f.id, f.data)
    } else {
        Seq::<u8>::empty()
    };
    if fields.len() == 0 {
        assert(fields.push(f)[0] == f);
        assert(fields.push(f).skip(1) =~= Seq::<FieldSpec>::empty());
        assert(spec_filtered_bytes(Seq::<FieldSpec>::empty(), filter) =~= Seq::<u8>::empty());
        assert(spec_filtered_bytes(fields.push(f), filter) =~= spec_filtered_bytes(fields, filter)
            + tail);
    } else {
        assert(fields.push(f)[0] == fields[0]);
        assert(fields.push(f).skip(1) =~= fields.skip(1).push(f));
        lemma_filtered_push(fields.skip(1), f, filter);
        assert(spec_filtered_bytes(fields.push(f), filter) =~= spec_filtered_bytes(fields, filter)
            + tail);
    }
}

/// When every field matches the filter, filtering changes nothing.
proof fn lemma_filtered_all(fields: Seq<FieldSpec>, filter: Header)
    requires
        forall|i: int| 0 <= i < fields.len() ==> (#[trigger] fields[i].loc.0) & filter.0 != 0,
    ensures
        spec_filtered_bytes(fields, filter) == spec_fields_bytes(fields),
    decreases fields.len(),
{
    if fields.len() > 0 {
        assert(forall|i: int|
            0 <= i < fields.skip(1).len() ==> (#[trigger] fields.skip(1)[i].loc.0) & filter.0
                != 0) by {
            assert(forall|i: int|
                0 <= i < fields.skip(1).len() ==> fields.skip(1)[i] == fields[i + 1]);
        }
        lemma_filtered_all(fields.skip(1), filter);
    }
}

/// The larger running side-total among the sides `loc` selects (what another
/// field for `loc` would have to fit beside).
pub open spec fn spec_current_size(fields: Seq<FieldSpec>, loc: Header) -> int {
    let l = if loc.0 & 1 != 0 {
        spec_filtered_bytes(fields, Header(1)).len() as int
    } else {
        0
    };
    let c = if loc.0 & 2 != 0 {
        spec_filtered_bytes(fields, Header(2)).len() as int
    } else {
        0
    };
    if l >= c {
        l
    } else {
        c
    }
}

/// Writer-side store of extra fields: one flat TLV buffer plus each field's
/// header location, with the running per-location byte totals.
#[derive(Debug)]
pub struct ExtraFieldsContainer {
    entries: StackVec<Header, 5>,
    data_buffer: StackVec<u8, 15>,
    local_size: u16,
    central_size: u16,
    uniform: bool,
}

impl ExtraFieldsContainer {
    /// The fields added so far, in insertion order.
    pub closed spec fn fields(&self) -> Seq<FieldSpec> {
        Seq::new(
            spec_parse_tlvs(self.data_buffer.view()).len() as nat,
            |i: int|
                FieldSpec {
                    id: spec_parse_tlvs(self.data_buffer.view())[i].0,
                    data: spec_parse_tlvs(self.data_buffer.view())[i].1,
                    loc: self.entries.view()[i],
                },
        )
    }

    /// Internal invariant: the buffer is the exact encoding of the fields,
    /// the location list matches, and the side totals are correct.
    pub closed spec fn wf(&self) -> bool {
        &&& self.entries.wf()
        &&& self.data_buffer.wf()
        &&& spec_tlvs_complete(self.data_buffer.view())
        &&& spec_parse_tlvs(self.data_buffer.view()).len() == self.entries.view().len()
        &&& self.data_buffer.view() == spec_fields_bytes(self.fields())
        &&& self.local_size as int == spec_filtered_bytes(self.fields(), Header(1)).len()
        &&& self.central_size as int == spec_filtered_bytes(self.fields(), Header(2)).len()
        &&& (self.uniform <==> (forall|i: int|
            0 <= i < self.fields().len() ==> (#[trigger] self.fields()[i].loc.0) & 3 == 3))
        &&& forall|i: int|
            0 <= i < self.fields().len() ==> (#[trigger] self.fields()[i]).data.len() <= 0xFFFF
    }

    /// An empty container.
    pub fn new() -> (r: ExtraFieldsContainer)
        ensures
            r.wf(),
            r.fields() == Seq::<FieldSpec>::empty(),
    {
        let r = ExtraFieldsContainer {
            entries: StackVec::new(Header::new(0)),
            data_buffer: StackVec::new(0u8),
            local_size: 0,
            central_size: 0,
            uniform: true,
        };
        proof {
            assert(r.fields() =~= Seq::<FieldSpec>::empty());
            assert(r.data_buffer.view() =~= spec_fields_bytes(r.fields()));
            assert(spec_filtered_bytes(r.fields(), Header(1)) =~= Seq::<u8>::empty());
            assert(spec_filtered_bytes(r.fields(), Header(2)) =~= Seq::<u8>::empty());
        }
        r
    }

    /// The total encoded size of the fields destined for the local header.
    pub fn local_size(&self) -> (r: u16)
        requires
            self.wf(),
        ensures
            r as int == spec_filtered_bytes(self.fields(), Header(1)).len(),
    {
        self.local_size
    }

    /// The total encoded size of the fields destined for the central
    /// directory.
    pub fn central_size(&self) -> (r: u16)
        requires
            self.wf(),
        ensures
            r as int == spec_filtered_bytes(self.fields(), Header(2)).len(),
    {
        self.central_size
    }

    /// Records one extra field for the given header location(s).
    ///
    /// Fails with `InvalidInput` when the running total of any header
    /// location the field selects would exceed 65535 bytes. A location
    /// selecting no header stores the field without counting it anywhere:
    /// it is never emitted. No deduplication is performed: adding the same
    /// id twice yields two TLVs in declaration order.
    pub fn add_field(&mut self, id: ExtraFieldId, data: &[u8], location: Header) -> (r: Result<
        (),
        Error,
    >)
        requires
            old(self).wf(),
            data@.len() + 4 <= usize::MAX,
            spec_fields_bytes(old(self).fields()).len() + 4 + data@.len() <= usize::MAX,
        ensures
            final(self).wf(),
            4 + data@.len() + spec_current_size(old(self).fields(), location) > 0xFFFF ==> {
                &&& *final(self) == *old(self)
                &&& r matches Err(e) && e.kind matches ErrorKind::InvalidInput { .. }
            },
            4 + data@.len() + spec_current_size(old(self).fields(), location) <= 0xFFFF ==> {
                &&& r is Ok
                &&& final(self).fields() == old(self).fields().push(
                    FieldSpec { id: id.0, data: data@, loc: location },
                )
            },
    {
        let size_delta: usize = 4 + data.len();
        let mut current_size: u16 = 0;
        if location.includes_local() {
            current_size = self.local_size;
        }
        if location.includes_central() && self.central_size > current_size {
            current_size = self.central_size;
        }
        if size_delta > 0xFFFF - current_size as usize {
            return Err(
                Error::from_kind(
                    ErrorKind::InvalidInput { msg: "extra field data too large".to_string() },
                ),
            );
        }
        let ghost f = FieldSpec { id: id.0, data: data@, loc: location };
        let ghost old_fields = self.fields();
        let mut hdr: Vec<u8> = Vec::new();
        push_u16le(&mut hdr, id.as_u16());
        push_u16le(&mut hdr, data.len() as u16);
        proof {
            lemma_auto_spec_u16_to_from_le_bytes();
        }
        self.data_buffer.extend_from_slice(hdr.as_slice());
        self.data_buffer.extend_from_slice(data);
        self.entries.push(location);
        if location.includes_local() {
            self.local_size = self.local_size + size_delta as u16;
        }
        if location.includes_central() {
            self.central_size = self.central_size + size_delta as u16;
        }
        self.uniform = self.uniform && location.includes_local() && location.includes_central();
        proof {
            assert(self.data_buffer.view() =~= spec_fields_bytes(old_fields) + spec_tlv(
                id.0,
                data@,
            ));
            lemma_parse_append(spec_fields_bytes(old_fields), id.0, data@);
            assert(self.fields() =~= old_fields.push(f));
            lemma_fields_bytes_push(old_fields, f);
            lemma_filtered_push(old_fields, f, Header(1));
            lemma_filtered_push(old_fields, f, Header(2));
            let lb = location.0;
            assert(lb & 3 == 3 <==> (lb & 1 != 0 && lb & 2 != 0)) by (bit_vector);
            assert(lb & 3 != 0 <==> (lb & 1 != 0 || lb & 2 != 0)) by (bit_vector);
            assert(forall|i: int|
                0 <= i < old_fields.len() ==> old_fields.push(f)[i] == old_fields[i]);
            assert(spec_tlvs_complete(final(self).data_buffer.view()));
            assert(spec_parse_tlvs(final(self).data_buffer.view()).len() == final(self).entries.view().len());
            assert(final(self).data_buffer.view() == spec_fields_bytes(final(self).fields()));
            assert(final(self).local_size as int == spec_filtered_bytes(
                final(self).fields(),
                Header(1),
            ).len());
            assert(final(self).central_size as int == spec_filtered_bytes(
                final(self).fields(),
                Header(2),
            ).len());
            let nf = old_fields.push(f);
            if final(self).uniform {
                assert forall|i: int| 0 <= i < nf.len() implies (#[trigger] nf[i].loc.0) & 3
                    == 3 by {
                    if i < old_fields.len() {
                        assert(nf[i] == old_fields[i]);
                    } else {
                        assert(nf[i] == f);
                    }
                }
            } else {
                if !old(self).uniform {
                    assert(exists|j: int|
                        0 <= j < old_fields.len() && (#[trigger] old_fields[j].loc.0) & 3 != 3) by {
                        if (forall|i: int|
                            0 <= i < old_fields.len() ==> (#[trigger] old_fields[i].loc.0) & 3
                                == 3) {
                            assert(false);
                        }
                    }
                    let j = choose|j: int|
                        0 <= j < old_fields.len() && (#[trigger] old_fields[j].loc.0) & 3 != 3;
                    assert(nf[j] == old_fields[j]);
                    assert(!(forall|i: int|
                        0 <= i < nf.len() ==> (#[trigger] nf[i].loc.0) & 3 == 3));
                } else {
                    assert(f.loc.0 & 3 != 3);
                    assert(nf[old_fields.len() as int] == f);
                    assert(!(forall|i: int|
                        0 <= i < nf.len() ==> (#[trigger] nf[i].loc.0) & 3 == 3));
                }
            }
            assert(final(self).uniform <==> (forall|i: int|
                0 <= i < final(self).fields().len() ==> (#[trigger] final(self).fields()[i].loc.0)
                    & 3 == 3));
            assert(forall|i: int|
                0 <= i < final(self).fields().len() ==> (#[trigger] final(self).fields()[i]).data.len() <= 0xFFFF);
            assert(final(self).wf());
        }
        Ok(())
    }

    /// Appends to `out` the encoding of every stored field whose location
    /// intersects `filter`, in insertion order.
    pub fn write_extra_fields(&self, out: &mut Vec<u8>, filter: Header)
        requires
            self.wf(),
        ensures
            final(out)@ == old(out)@ + spec_filtered_bytes(self.fields(), filter),
    {
        if filter.0 == 0b01 && self.local_size == 0 {
            // No local fields to write
            proof {
                assert(spec_filtered_bytes(self.fields(), filter) =~= Seq::<u8>::empty());
                assert(old(out)@ + spec_filtered_bytes(self.fields(), filter) =~= old(out)@);
            }
        } else if filter.0 == 0b10 && self.central_size == 0 {
            // No central fields to write
            proof {
                assert(spec_filtered_bytes(self.fields(), filter) =~= Seq::<u8>::empty());
                assert(old(out)@ + spec_filtered_bytes(self.fields(), filter) =~= old(out)@);
            }
        } else if self.uniform && (filter.0 & 0b11 != 0) {
            // Every field goes to both headers: dump the buffer wholesale.
            proof {
                let fs = self.fields();
                assert forall|i: int| 0 <= i < fs.len() implies (#[trigger] fs[i].loc.0) & filter.0
                    != 0 by {
                    let a = fs[i].loc.0;
                    let fb = filter.0;
                    assert(a & 3 == 3 && fb & 3 != 0 ==> a & fb != 0) by (bit_vector);
                }
                lemma_filtered_all(fs, filter);
            }
            push_bytes(out, self.data_buffer.as_slice());
        } else {
            self.write_extra_fields_iter(out, filter);
        }
    }

    /// The slow path of [`Self::write_extra_fields`]: walk the TLVs and copy
    /// the ones whose location intersects the filter.
    fn write_extra_fields_iter(&self, out: &mut Vec<u8>, filter: Header)
        requires
            self.wf(),
        ensures
            final(out)@ == old(out)@ + spec_filtered_bytes(self.fields(), filter),
    {
        let ghost fs = self.fields();
        let entries_slice = self.entries.as_slice();
        let mut iter = ExtraFields::new(self.data_buffer.as_slice());
        let mut idx: usize = 0;
        proof {
            assert(fs.skip(0) =~= fs);
        }
        while idx < entries_slice.len()
            invariant
                self.wf(),
                fs == self.fields(),
                idx <= fs.len(),
                entries_slice@ == self.entries.view(),
                entries_slice@.len() == fs.len(),
                iter.remaining() == spec_fields_bytes(fs.skip(idx as int)),
                out@ == old(out)@ + spec_filtered_bytes(fs.take(idx as int), filter),
            decreases entries_slice@.len() - idx,
        {
            let ghost f = fs[idx as int];
            proof {
                assert(fs.skip(idx as int)[0] == f);
                assert(fs.skip(idx as int).skip(1) =~= fs.skip(idx as int + 1));
                lemma_tlv_head(f.id, f.data, spec_fields_bytes(fs.skip(idx as int + 1)));
                assert(spec_fields_bytes(fs.skip(idx as int)) == spec_tlv(f.id, f.data)
                    + spec_fields_bytes(fs.skip(idx as int + 1)));
            }
            match iter.next_data() {
                Some(extra_field) => {
                    let entry = entries_slice[idx];
                    if entry.intersects(filter) {
                        push_bytes(out, extra_field);
                    }
                    proof {
                        assert(fs.take(idx as int).push(f) =~= fs.take(idx as int + 1));
                        lemma_filtered_push(fs.take(idx as int), f, filter);
                    }
                },
                None => {
                    proof {
                        assert(false);
                    }
                },
            }
            idx += 1;
        }
        proof {
            assert(fs.take(fs.len() as int) =~= fs);
        }
    }
}

} // verus!

verus! {

/// The (id, body) pairs of the fields whose location intersects `filter`,
/// in insertion order.
pub open spec fn spec_matching_tlvs(fields: Seq<FieldSpec>, filter: Header) -> Seq<(u16, Seq<u8>)>
    decreases fields.len(),
{
    if fields.len() == 0 {
        Seq::empty()
    } else {
        (if fields[0].loc.0 & filter.0 != 0 {
            seq![(fields[0].id, fields[0].data)]
        } else {
            Seq::empty()
        }) + spec_matching_tlvs(fields.skip(1), filter)
    }
}

/// Extras-routing law: the bytes emitted for a header location parse back
/// as exactly the fields whose location intersects that filter, with their
/// ids and bodies in insertion order. So a field's TLV stands in the
/// central-directory extras iff its location includes the central header,
/// in the local-header extras iff it includes the local header; ordering
/// equals insertion order; and adding the same id twice yields two TLVs.
pub proof fn lemma_filtered_parse(fields: Seq<FieldSpec>, filter: Header)
    requires
        forall|i: int| 0 <= i < fields.len() ==> (#[trigger] fields[i]).data.len() <= 0xFFFF,
    ensures
        spec_tlvs_complete(spec_filtered_bytes(fields, filter)),
        spec_parse_tlvs(spec_filtered_bytes(fields, filter)) == spec_matching_tlvs(fields, filter),
    decreases fields.len(),
{
    if fields.len() == 0 {
        assert(spec_parse_tlvs(spec_filtered_bytes(fields, filter)) =~= spec_matching_tlvs(
            fields,
            filter,
        ));
    } else {
        let f = fields[0];
        let rest = spec_filtered_bytes(fields.skip(1), filter);
        assert(forall|i: int|
            0 <= i < fields.skip(1).len() ==> fields.skip(1)[i] == fields[i + 1]);
        lemma_filtered_parse(fields.skip(1), filter);
        if f.loc.0 & filter.0 != 0 {
            lemma_tlv_head(f.id, f.data, rest);
            let enc = spec_tlv(f.id, f.data) + rest;
            assert(spec_filtered_bytes(fields, filter) == enc);
            assert(spec_parse_tlvs(enc) =~= spec_matching_tlvs(fields, filter));
        } else {
            assert(spec_filtered_bytes(fields, filter) =~= rest);
            assert(spec_matching_tlvs(fields, filter) =~= spec_matching_tlvs(
                fields.skip(1),
                filter,
            ));
        }
    }
}

/// Appending a field appends its (id, body) pair to the matching list of
/// the side(s) it selects.
pub proof fn lemma_matching_push(fields: Seq<FieldSpec>, f: FieldSpec, filter: Header)
    ensures
        spec_matching_tlvs(fields.push(f), filter) == spec_matching_tlvs(fields, filter) + (
        if f.loc.0 & filter.0 != 0 {
            seq![(f.id, f.data)]
        } else {
            Seq::<(u16, Seq<u8>)>::empty()
        }),
    decreases fields.len(),
{
    let tail = if f.loc.0 & filter.0 != 0 {
        seq![(f.id, f.data)]
    } else {
        Seq::<(u16, Seq<u8>)>::empty()
    };
    if fields.len() == 0 {
        assert(fields.push(f)[0] == f);
        assert(fields.push(f).skip(1) =~= Seq::<FieldSpec>::empty());
        assert(spec_matching_tlvs(Seq::<FieldSpec>::empty(), filter) =~= Seq::<(
            u16,
            Seq<u8>,
        )>::empty());
        assert(spec_matching_tlvs(fields.push(f), filter) =~= spec_matching_tlvs(fields, filter)
            + tail);
    } else {
        assert(fields.push(f)[0] == fields[0]);
        assert(fields.push(f).skip(1) =~= fields.skip(1).push(f));
        lemma_matching_push(fields.skip(1), f, filter);
        assert(spec_matching_tlvs(fields.push(f), filter) =~~= spec_matching_tlvs(fields, filter)
            + tail);
    }
}

} // verus!
