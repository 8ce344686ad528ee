//! Entry and alias table records: their packed little-endian byte layout and
//! the bounds-checked decoding of single records out of an archive buffer.
use vstd::prelude::*;
use vstd::bytes::*;
use vstd::slice::slice_subrange;

use crate::pak_error::PakError;
use crate::pak_header::PakHeader;

verus! {

/// Packed size in bytes of one entry record: u16 resource id + u32 offset.
pub const PAK_ENTRY_SIZE: usize = 6;

/// Packed size in bytes of one alias record: u16 resource id + u16 entry index.
pub const PAK_ALIAS_SIZE: usize = 4;

/// One entry of the offset table: a resource id and the byte offset where the
/// resource begins inside the archive.
#[derive(Clone, Copy, Debug, PartialEq, Eq, Structural)]
pub struct PakEntry {
    pub resource_id: u16,
    pub offset: u32,
}

/// One alias record: an alias resource id and the zero-based index of the
/// entry-table position it resolves to.
#[derive(Clone, Copy, Debug, PartialEq, Eq, Structural)]
pub struct PakAlias {
    pub resource_id: u16,
    pub entry_index: u16,
}


/// The capability set every packed record and header shares: decode from the
/// start of a buffer, serialize back, and construct fresh.
pub trait PakBase {
    fn from_buf(buf: &[u8]) -> Result<Self, PakError> where Self: Sized;

    fn as_bytes(&self) -> Vec<u8>;

    fn new() -> Self where Self: Sized;
}

/// Records that can also be decoded from any byte position of a buffer.
pub trait PakBaseOffset: PakBase {
    fn from_buf_offset(buf: &[u8], offset: usize) -> Result<Self, PakError> where Self: Sized;
}

/// The 6-byte little-endian serialization of an entry record.
pub open spec fn spec_entry_bytes(e: PakEntry) -> Seq<u8> {
    spec_u16_to_le_bytes(e.resource_id) + spec_u32_to_le_bytes(e.offset)
}

/// The entry record encoded in the 6 bytes of `b` starting at `pos`.
pub open spec fn spec_entry_of_bytes(b: Seq<u8>, pos: int) -> PakEntry {
    PakEntry {
        resource_id: spec_u16_from_le_bytes(b.subrange(pos, pos + 2)),
        offset: spec_u32_from_le_bytes(b.subrange(pos + 2, pos + 6)),
    }
}

/// The 4-byte little-endian serialization of an alias record.
pub open spec fn spec_alias_bytes(a: PakAlias) -> Seq<u8> {
    spec_u16_to_le_bytes(a.resource_id) + spec_u16_to_le_bytes(a.entry_index)
}

/// The alias record encoded in the 4 bytes of `b` starting at `pos`.
pub open spec fn spec_alias_of_bytes(b: Seq<u8>, pos: int) -> PakAlias {
    PakAlias {
        resource_id: spec_u16_from_le_bytes(b.subrange(pos, pos + 2)),
        entry_index: spec_u16_from_le_bytes(b.subrange(pos + 2, pos + 4)),
    }
}

/// Decoding the serialization of an entry gives the entry back.
pub proof fn lemma_entry_bytes_roundtrip(e: PakEntry)
    ensures
        spec_entry_bytes(e).len() == 6,
        spec_entry_of_bytes(spec_entry_bytes(e), 0) == e,
{
    lemma_auto_spec_u16_to_from_le_bytes();
    lemma_auto_spec_u32_to_from_le_bytes();
    assert(spec_entry_bytes(e).subrange(0, 2) =~= spec_u16_to_le_bytes(e.resource_id));
    assert(spec_entry_bytes(e).subrange(2, 6) =~= spec_u32_to_le_bytes(e.offset));
}

/// Decoding the serialization of an alias gives the alias back.
pub proof fn lemma_alias_bytes_roundtrip(a: PakAlias)
    ensures
        spec_alias_bytes(a).len() == 4,
        spec_alias_of_bytes(spec_alias_bytes(a), 0) == a,
{
    lemma_auto_spec_u16_to_from_le_bytes();
    assert(spec_alias_bytes(a).subrange(0, 2) =~= spec_u16_to_le_bytes(a.resource_id));
    assert(spec_alias_bytes(a).subrange(2, 4) =~= spec_u16_to_le_bytes(a.entry_index));
}

/// What reading one entry record at `offset` out of `b` yields: the record,
/// or the bounds failure that stops it.
pub open spec fn spec_read_entry(b: Seq<u8>, offset: int) -> Result<PakEntry, PakError> {
    if b.len() < offset {
        Err(PakError::PakEntryOrAliasOffsetOverflow(b.len() as usize, offset as usize))
    } else if b.len() - offset < PAK_ENTRY_SIZE {
        Err(
            PakError::PakEntryOrAliasSizeNotEnough(
                (b.len() - offset) as usize,
                PAK_ENTRY_SIZE as usize,
            ),
        )
    } else {
        Ok(spec_entry_of_bytes(b, offset))
    }
}

/// What reading one alias record at `offset` out of `b` yields.
pub open spec fn spec_read_alias(b: Seq<u8>, offset: int) -> Result<PakAlias, PakError> {
    if b.len() < offset {
        Err(PakError::PakEntryOrAliasOffsetOverflow(b.len() as usize, offset as usize))
    } else if b.len() - offset < PAK_ALIAS_SIZE {
        Err(
            PakError::PakEntryOrAliasSizeNotEnough(
                (b.len() - offset) as usize,
                PAK_ALIAS_SIZE as usize,
            ),
        )
    } else {
        Ok(spec_alias_of_bytes(b, offset))
    }
}

impl PakBase for PakEntry {
    /// Decodes the record stored at the start of `buf`.
    fn from_buf(buf: &[u8]) -> (r: Result<PakEntry, PakError>)
        ensures
            r == spec_read_entry(buf@, 0),
    {
        <PakEntry as PakBaseOffset>::from_buf_offset(buf, 0)
    }

    /// The packed little-endian bytes of the record.
    fn as_bytes(&self) -> (r: Vec<u8>)
        ensures
            r@ == spec_entry_bytes(*self),
    {
        let mut v = u16_to_le_bytes(self.resource_id);
        let mut tail = u32_to_le_bytes(self.offset);
        v.append(&mut tail);
        v
    }

    /// A fresh record with both fields zero.
    fn new() -> (r: PakEntry)
        ensures
            r.resource_id == 0 && r.offset == 0,
    {
        PakEntry { resource_id: 0, offset: 0 }
    }
}

impl PakBaseOffset for PakEntry {
    /// Decodes the record stored at byte position `offset` of `buf`, checking
    /// that the buffer still holds a whole record there.
    fn from_buf_offset(buf: &[u8], offset: usize) -> (r: Result<PakEntry, PakError>)
        ensures
            r == spec_read_entry(buf@, offset as int),
    {
        let len = buf.len();
        if len < offset {
            return Err(PakError::PakEntryOrAliasOffsetOverflow(len, offset));
        }
        let remaining_size = len - offset;
        if remaining_size < PAK_ENTRY_SIZE {
            return Err(PakError::PakEntryOrAliasSizeNotEnough(remaining_size, PAK_ENTRY_SIZE));
        }
        let resource_id = u16_from_le_bytes(slice_subrange(buf, offset, offset + 2));
        let off = u32_from_le_bytes(slice_subrange(buf, offset + 2, offset + 6));
        Ok(PakEntry { resource_id, offset: off })
    }
}

impl Default for PakEntry {
    fn default() -> (r: PakEntry)
        ensures
            r.resource_id == 0 && r.offset == 0,
    {
        <PakEntry as PakBase>::new()
    }
}

impl PakBase for PakAlias {
    /// Decodes the record stored at the start of `buf`.
    fn from_buf(buf: &[u8]) -> (r: Result<PakAlias, PakError>)
        ensures
            r == spec_read_alias(buf@, 0),
    {
        <PakAlias as PakBaseOffset>::from_buf_offset(buf, 0)
    }

    /// The packed little-endian bytes of the record.
    fn as_bytes(&self) -> (r: Vec<u8>)
        ensures
            r@ == spec_alias_bytes(*self),
    {
        let mut v = u16_to_le_bytes(self.resource_id);
        let mut tail = u16_to_le_bytes(self.entry_index);
        v.append(&mut tail);
        v
    }

    /// A fresh record with both fields zero.
    fn new() -> (r: PakAlias)
        ensures
            r.resource_id == 0 && r.entry_index == 0,
    {
        PakAlias { resource_id: 0, entry_index: 0 }
    }
}

impl PakBaseOffset for PakAlias {
    /// Decodes the record stored at byte position `offset` of `buf`, checking
    /// that the buffer still holds a whole record there.
    fn from_buf_offset(buf: &[u8], offset: usize) -> (r: Result<PakAlias, PakError>)
        ensures
            r == spec_read_alias(buf@, offset as int),
    {
        let len = buf.len();
        if len < offset {
            return Err(PakError::PakEntryOrAliasOffsetOverflow(len, offset));
        }
        let remaining_size = len - offset;
        if remaining_size < PAK_ALIAS_SIZE {
            return Err(PakError::PakEntryOrAliasSizeNotEnough(remaining_size, PAK_ALIAS_SIZE));
        }
        let resource_id = u16_from_le_bytes(slice_subrange(buf, offset, offset + 2));
        let entry_index = u16_from_le_bytes(slice_subrange(buf, offset + 2, offset + 4));
        Ok(PakAlias { resource_id, entry_index })
    }
}

impl Default for PakAlias {
    fn default() -> (r: PakAlias)
        ensures
            r.resource_id == 0 && r.entry_index == 0,
    {
        <PakAlias as PakBase>::new()
    }
}

/// What reading a run of `alias_count` alias records at `offset` yields:
/// the records, or the failure of the run's bounds check.
pub open spec fn spec_read_alias_slice(b: Seq<u8>, offset: int, alias_count: u16) -> Result<
    Seq<PakAlias>,
    PakError,
> {
    if alias_count == 0 {
        Ok(Seq::empty())
    } else if b.len() < offset {
        Err(PakError::PakAliasOffsetOverflow(b.len() as usize, offset as usize))
    } else if b.len() - offset < PAK_ALIAS_SIZE * alias_count {
        Err(
            PakError::PakAliasSizeNotEnough(
                (b.len() - offset) as usize,
                (PAK_ALIAS_SIZE * alias_count) as usize,
            ),
        )
    } else {
        Ok(Seq::new(alias_count as nat, |i: int| spec_alias_of_bytes(b, offset + 4 * i)))
    }
}

/// Reads the alias table of `header` out of `buf`.
pub fn pak_parse_alias(header: &PakHeader, buf: &[u8]) -> (r: Result<Vec<PakAlias>, PakError>)
    ensures
        match r {
            Ok(v) => spec_read_alias_slice(
                buf@,
                header.spec_alias_offset(),
                header.spec_alias_count(),
            ) == Ok::<Seq<PakAlias>, PakError>(v@),
            Err(e) => spec_read_alias_slice(
                buf@,
                header.spec_alias_offset(),
                header.spec_alias_count(),
            ) == Err::<Seq<PakAlias>, PakError>(e),
        },
{
    let alias_count = header.read_alias_count();
    let offset = header.alias_offset();
    pak_read_alias_slice(buf, offset, alias_count)
}

/// Reads `alias_count` alias records that start at `offset` in `buf`.
/// No resource at all is an error elsewhere, but no alias is fine.
pub fn pak_read_alias_slice(buf: &[u8], offset: usize, alias_count: u16) -> (r: Result<
    Vec<PakAlias>,
    PakError,
>)
    ensures
        match r {
            Ok(v) => spec_read_alias_slice(buf@, offset as int, alias_count) == Ok::<
                Seq<PakAlias>,
                PakError,
            >(v@),
            Err(e) => spec_read_alias_slice(buf@, offset as int, alias_count) == Err::<
                Seq<PakAlias>,
                PakError,
            >(e),
        },
{
    let mut vec: Vec<PakAlias> = Vec::new();
    if alias_count == 0 {
        assert(vec@ =~= Seq::<PakAlias>::empty());
        return Ok(vec);
    }
    let len = buf.len();
    if len < offset {
        return Err(PakError::PakAliasOffsetOverflow(len, offset));
    }
    let remaining_size = len - offset;
    let required_size = PAK_ALIAS_SIZE * (alias_count as usize);
    if remaining_size < required_size {
        return Err(PakError::PakAliasSizeNotEnough(remaining_size, required_size));
    }
    let mut i: usize = 0;
    while i < alias_count as usize
        invariant
            i <= alias_count,
            alias_count > 0,
            len == buf@.len(),
            offset + PAK_ALIAS_SIZE * (alias_count as int) <= len,
            vec@.len() == i,
            forall|j: int|
                0 <= j < i ==> vec@[j] == spec_alias_of_bytes(buf@, offset + 4 * j),
        decreases alias_count as int - i,
    {
        let pos = offset + PAK_ALIAS_SIZE * i;
        let resource_id = u16_from_le_bytes(slice_subrange(buf, pos, pos + 2));
        let entry_index = u16_from_le_bytes(slice_subrange(buf, pos + 2, pos + 4));
        vec.push(PakAlias { resource_id, entry_index });
        i = i + 1;
    }
    assert(vec@ =~= Seq::new(
        alias_count as nat,
        |i: int| spec_alias_of_bytes(buf@, offset + 4 * i),
    ));
    Ok(vec)
}

} // verus!
