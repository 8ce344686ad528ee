//! The two fixed archive header layouts and the version dispatch that picks
//! between them.
use vstd::prelude::*;
use vstd::bytes::*;
use vstd::slice::slice_subrange;

use crate::pak_def::{PakBase, PAK_ENTRY_SIZE};
use crate::pak_error::PakError;

verus! {

/// Byte length of the leading version field shared by both layouts.
pub const PAK_VERSION_SIZE: usize = 4;

pub const PAK_VERSION_V5: u32 = 5;

pub const PAK_VERSION_V4: u32 = 4;

/// Packed size of the v5 header layout.
pub const PAK_HEADER_V5_SIZE: usize = 12;

/// Packed size of the v4 header layout.
pub const PAK_HEADER_V4_SIZE: usize = 9;

/// v5 header: uint32 version, uint8 encoding, 3 bytes padding,
/// uint16 resource_count, uint16 alias_count.
#[derive(Clone, Copy, Debug)]
pub struct PakHeaderV5 {
    pub version: u32,
    pub encoding: u8,
    pub _padding: [u8; 3],
    pub resource_count: u16,
    pub alias_count: u16,
}

/// v4 header: uint32 version, uint32 resource_count, uint8 encoding.
#[derive(Clone, Copy, Debug)]
pub struct PakHeaderV4 {
    pub version: u32,
    pub resource_count: u32,
    pub encoding: u8,
}

/// The packed 12-byte serialization of a v5 header.
pub open spec fn spec_header_v5_bytes(h: PakHeaderV5) -> Seq<u8> {
    spec_u32_to_le_bytes(h.version) + seq![h.encoding] + seq![
        h._padding[0],
        h._padding[1],
        h._padding[2],
    ] + spec_u16_to_le_bytes(h.resource_count) + spec_u16_to_le_bytes(h.alias_count)
}

/// The packed 9-byte serialization of a v4 header.
pub open spec fn spec_header_v4_bytes(h: PakHeaderV4) -> Seq<u8> {
    spec_u32_to_le_bytes(h.version) + spec_u32_to_le_bytes(h.resource_count) + seq![h.encoding]
}

/// The v5 header encoded in the first 12 bytes of `b`.
pub open spec fn spec_header_v5_of_bytes(b: Seq<u8>) -> PakHeaderV5 {
    PakHeaderV5 {
        version: spec_u32_from_le_bytes(b.subrange(0, 4)),
        encoding: b[4],
        _padding: [b[5], b[6], b[7]],
        resource_count: spec_u16_from_le_bytes(b.subrange(8, 10)),
        alias_count: spec_u16_from_le_bytes(b.subrange(10, 12)),
    }
}

/// The v4 header encoded in the first 9 bytes of `b`.
pub open spec fn spec_header_v4_of_bytes(b: Seq<u8>) -> PakHeaderV4 {
    PakHeaderV4 {
        version: spec_u32_from_le_bytes(b.subrange(0, 4)),
        resource_count: spec_u32_from_le_bytes(b.subrange(4, 8)),
        encoding: b[8],
    }
}

/// What parsing a v5 header from `b` yields.
pub open spec fn spec_header_v5_parse(b: Seq<u8>) -> Result<PakHeaderV5, PakError> {
    if b.len() < PAK_HEADER_V5_SIZE {
        Err(PakError::V5HeaderSizeNotEnough(b.len() as usize, PAK_HEADER_V5_SIZE as usize))
    } else if spec_header_v5_of_bytes(b).version != PAK_VERSION_V5 {
        Err(PakError::VersionMisMatch(spec_header_v5_of_bytes(b).version, PAK_VERSION_V5))
    } else {
        Ok(spec_header_v5_of_bytes(b))
    }
}

/// What parsing a v4 header from `b` yields.
pub open spec fn spec_header_v4_parse(b: Seq<u8>) -> Result<PakHeaderV4, PakError> {
    if b.len() < PAK_HEADER_V4_SIZE {
        Err(PakError::V4HeaderSizeNotEnough(b.len() as usize, PAK_HEADER_V4_SIZE as usize))
    } else if spec_header_v4_of_bytes(b).version != PAK_VERSION_V4 {
        Err(PakError::VersionMisMatch(spec_header_v4_of_bytes(b).version, PAK_VERSION_V4))
    } else {
        Ok(spec_header_v4_of_bytes(b))
    }
}

impl PakBase for PakHeaderV5 {
    /// A fresh v5 header with zero counts and zero padding.
    fn new() -> (r: PakHeaderV5)
        ensures
            r == (PakHeaderV5 {
                version: PAK_VERSION_V5,
                encoding: 0,
                _padding: [0, 0, 0],
                resource_count: 0,
                alias_count: 0,
            }),
    {
        PakHeaderV5 {
            version: PAK_VERSION_V5,
            encoding: 0,
            _padding: [0, 0, 0],
            resource_count: 0,
            alias_count: 0,
        }
    }

    /// Parses the 12-byte v5 layout from the start of `buf`, re-checking that
    /// the version field really holds 5.
    fn from_buf(buf: &[u8]) -> (r: Result<PakHeaderV5, PakError>)
        ensures
            r == spec_header_v5_parse(buf@),
    {
        if buf.len() < PAK_HEADER_V5_SIZE {
            return Err(PakError::V5HeaderSizeNotEnough(buf.len(), PAK_HEADER_V5_SIZE));
        }
        let version = u32_from_le_bytes(slice_subrange(buf, 0, 4));
        let encoding = *vstd::slice::slice_index_get(buf, 4);
        let p0 = *vstd::slice::slice_index_get(buf, 5);
        let p1 = *vstd::slice::slice_index_get(buf, 6);
        let p2 = *vstd::slice::slice_index_get(buf, 7);
        let resource_count = u16_from_le_bytes(slice_subrange(buf, 8, 10));
        let alias_count = u16_from_le_bytes(slice_subrange(buf, 10, 12));
        let header = PakHeaderV5 {
            version,
            encoding,
            _padding: [p0, p1, p2],
            resource_count,
            alias_count,
        };
        if version != PAK_VERSION_V5 {
            return Err(PakError::VersionMisMatch(version, PAK_VERSION_V5));
        }
        assert(header == spec_header_v5_of_bytes(buf@));
        Ok(header)
    }

    /// The packed 12 bytes of the header.
    fn as_bytes(&self) -> (r: Vec<u8>)
        ensures
            r@ == spec_header_v5_bytes(*self),
    {
        let mut v = u32_to_le_bytes(self.version);
        v.push(self.encoding);
        v.push(self._padding[0]);
        v.push(self._padding[1]);
        v.push(self._padding[2]);
        let mut rc = u16_to_le_bytes(self.resource_count);
        v.append(&mut rc);
        let mut ac = u16_to_le_bytes(self.alias_count);
        v.append(&mut ac);
        assert(v@ =~= spec_header_v5_bytes(*self));
        v
    }
}

impl Default for PakHeaderV5 {
    fn default() -> (r: PakHeaderV5)
        ensures
            r == (PakHeaderV5 {
                version: PAK_VERSION_V5,
                encoding: 0,
                _padding: [0, 0, 0],
                resource_count: 0,
                alias_count: 0,
            }),
    {
        PakHeaderV5::new()
    }
}

impl PakBase for PakHeaderV4 {
    /// A fresh v4 header with a zero count.
    fn new() -> (r: PakHeaderV4)
        ensures
            r == (PakHeaderV4 { version: PAK_VERSION_V4, resource_count: 0, encoding: 0 }),
    {
        PakHeaderV4 { version: PAK_VERSION_V4, resource_count: 0, encoding: 0 }
    }

    /// Parses the 9-byte v4 layout from the start of `buf`, re-checking that
    /// the version field really holds 4.
    fn from_buf(buf: &[u8]) -> (r: Result<PakHeaderV4, PakError>)
        ensures
            r == spec_header_v4_parse(buf@),
    {
        if buf.len() < PAK_HEADER_V4_SIZE {
            return Err(PakError::V4HeaderSizeNotEnough(buf.len(), PAK_HEADER_V4_SIZE));
        }
        let version = u32_from_le_bytes(slice_subrange(buf, 0, 4));
        let resource_count = u32_from_le_bytes(slice_subrange(buf, 4, 8));
        let encoding = *vstd::slice::slice_index_get(buf, 8);
        let header = PakHeaderV4 { version, resource_count, encoding };
        if version != PAK_VERSION_V4 {
            return Err(PakError::VersionMisMatch(version, PAK_VERSION_V4));
        }
        assert(header == spec_header_v4_of_bytes(buf@));
        Ok(header)
    }

    /// The packed 9 bytes of the header.
    fn as_bytes(&self) -> (r: Vec<u8>)
        ensures
            r@ == spec_header_v4_bytes(*self),
    {
        let mut v = u32_to_le_bytes(self.version);
        let mut rc = u32_to_le_bytes(self.resource_count);
        v.append(&mut rc);
        v.push(self.encoding);
        assert(v@ =~= spec_header_v4_bytes(*self));
        v
    }
}

impl Default for PakHeaderV4 {
    fn default() -> (r: PakHeaderV4)
        ensures
            r == (PakHeaderV4 { version: PAK_VERSION_V4, resource_count: 0, encoding: 0 }),
    {
        PakHeaderV4::new()
    }
}

/// A parsed archive header: the closed choice between the two layouts.
#[derive(Clone, Copy, Debug)]
pub enum PakHeader {
    V5(PakHeaderV5),
    V4(PakHeaderV4),
}

impl PakHeader {
    /// The value of the version field.
    pub open spec fn spec_version(self) -> u32 {
        match self {
            PakHeader::V5(h) => h.version,
            PakHeader::V4(h) => h.version,
        }
    }

    /// The value of the encoding field.
    pub open spec fn spec_encoding(self) -> u8 {
        match self {
            PakHeader::V5(h) => h.encoding,
            PakHeader::V4(h) => h.encoding,
        }
    }

    /// The resource count, widened to u32 for the v5 layout.
    pub open spec fn spec_resource_count(self) -> u32 {
        match self {
            PakHeader::V5(h) => h.resource_count as u32,
            PakHeader::V4(h) => h.resource_count,
        }
    }

    /// The alias count; the v4 layout has no alias table and reads as 0.
    pub open spec fn spec_alias_count(self) -> u16 {
        match self {
            PakHeader::V5(h) => h.alias_count,
            PakHeader::V4(_) => 0,
        }
    }

    /// The packed size of the concrete layout.
    pub open spec fn spec_size(self) -> int {
        match self {
            PakHeader::V5(_) => PAK_HEADER_V5_SIZE as int,
            PakHeader::V4(_) => PAK_HEADER_V4_SIZE as int,
        }
    }

    /// The byte size of the entry table, sentinel entry included.
    pub open spec fn spec_resource_size(self) -> int {
        (self.spec_resource_count() + 1) * PAK_ENTRY_SIZE
    }

    /// The byte size of the alias table.
    pub open spec fn spec_alias_size(self) -> int {
        self.spec_alias_count() * crate::pak_def::PAK_ALIAS_SIZE
    }

    /// Where the alias table begins: right after the entry table for v5,
    /// right after the header for v4.
    pub open spec fn spec_alias_offset(self) -> int {
        match self {
            PakHeader::V5(_) => self.spec_size() + self.spec_resource_size(),
            PakHeader::V4(_) => self.spec_size(),
        }
    }

    /// The packed serialization of the concrete layout.
    pub open spec fn spec_bytes(self) -> Seq<u8> {
        match self {
            PakHeader::V5(h) => spec_header_v5_bytes(h),
            PakHeader::V4(h) => spec_header_v4_bytes(h),
        }
    }

    pub fn read_version(&self) -> (r: u32)
        ensures
            r == self.spec_version(),
    {
        match self {
            PakHeader::V5(h) => h.version,
            PakHeader::V4(h) => h.version,
        }
    }

    pub fn write_version(&mut self, version: u32)
        ensures
            final(self).spec_version() == version,
            (*final(self)) is V5 <==> (*old(self)) is V5,
            final(self).spec_encoding() == old(self).spec_encoding(),
            final(self).spec_resource_count() == old(self).spec_resource_count(),
            final(self).spec_alias_count() == old(self).spec_alias_count(),
    {
        match self {
            PakHeader::V5(h) => h.version = version,
            PakHeader::V4(h) => h.version = version,
        }
    }

    pub fn read_encoding(&self) -> (r: u8)
        ensures
            r == self.spec_encoding(),
    {
        match self {
            PakHeader::V5(h) => h.encoding,
            PakHeader::V4(h) => h.encoding,
        }
    }

    pub fn write_encoding(&mut self, encoding: u8)
        ensures
            *final(self) == (match *old(self) {
                PakHeader::V5(h) => PakHeader::V5(PakHeaderV5 { encoding, ..h }),
                PakHeader::V4(h) => PakHeader::V4(PakHeaderV4 { encoding, ..h }),
            }),
            final(self).spec_encoding() == encoding,
            (*final(self)) is V5 <==> (*old(self)) is V5,
            final(self).spec_version() == old(self).spec_version(),
            final(self).spec_resource_count() == old(self).spec_resource_count(),
            final(self).spec_alias_count() == old(self).spec_alias_count(),
            final(self).spec_size() == old(self).spec_size(),
    {
        match self {
            PakHeader::V5(h) => h.encoding = encoding,
            PakHeader::V4(h) => h.encoding = encoding,
        }
    }

    pub fn read_resource_count(&self) -> (r: u32)
        ensures
            r == self.spec_resource_count(),
    {
        match self {
            PakHeader::V5(h) => h.resource_count as u32,
            PakHeader::V4(h) => h.resource_count,
        }
    }

    /// Stores a resource count. The v5 layout keeps only a u16 field, so
    /// there the low 16 bits are stored.
    pub fn write_resource_count(&mut self, resource_count: u32)
        ensures
            *final(self) == (match *old(self) {
                PakHeader::V5(h) => PakHeader::V5(
                    PakHeaderV5 { resource_count: (resource_count & 0xFFFF) as u16, ..h },
                ),
                PakHeader::V4(h) => PakHeader::V4(PakHeaderV4 { resource_count, ..h }),
            }),
            final(self).spec_resource_count() == match *old(self) {
                PakHeader::V5(_) => resource_count & 0xFFFF,
                PakHeader::V4(_) => resource_count,
            },
            (*final(self)) is V5 <==> (*old(self)) is V5,
            final(self).spec_version() == old(self).spec_version(),
            final(self).spec_encoding() == old(self).spec_encoding(),
            final(self).spec_alias_count() == old(self).spec_alias_count(),
            final(self).spec_size() == old(self).spec_size(),
    {
        match self {
            PakHeader::V5(h) => {
                assert(resource_count & 0xFFFF <= 0xFFFF) by (bit_vector);
                let low = resource_count & 0xFFFF;
                h.resource_count = low as u16;
            },
            PakHeader::V4(h) => h.resource_count = resource_count,
        }
    }

    pub fn read_alias_count(&self) -> (r: u16)
        ensures
            r == self.spec_alias_count(),
    {
        match self {
            PakHeader::V5(h) => h.alias_count,
            PakHeader::V4(_) => 0,
        }
    }

    /// Stores an alias count. The v4 layout has no alias field at all, so
    /// writing one there is an invalid operation and is ruled out.
    pub fn write_alias_count(&mut self, alias_count: u16)
        requires
            (*old(self)) is V5,
        ensures
            *final(self) == (match *old(self) {
                PakHeader::V5(h) => PakHeader::V5(PakHeaderV5 { alias_count, ..h }),
                PakHeader::V4(h) => PakHeader::V4(h),
            }),
            final(self).spec_alias_count() == alias_count,
            (*final(self)) is V5,
            final(self).spec_version() == old(self).spec_version(),
            final(self).spec_encoding() == old(self).spec_encoding(),
            final(self).spec_resource_count() == old(self).spec_resource_count(),
            final(self).spec_size() == old(self).spec_size(),
    {
        match self {
            PakHeader::V5(h) => h.alias_count = alias_count,
            PakHeader::V4(_) => {},
        }
    }

    pub fn size(&self) -> (r: usize)
        ensures
            r == self.spec_size(),
    {
        match self {
            PakHeader::V5(_) => PAK_HEADER_V5_SIZE,
            PakHeader::V4(_) => PAK_HEADER_V4_SIZE,
        }
    }

    /// The byte size of the entry table, sentinel included.
    pub fn resource_size(&self) -> (r: usize)
        requires
            self.spec_resource_size() <= usize::MAX,
        ensures
            r == self.spec_resource_size(),
    {
        let count = self.read_resource_count();
        (count as usize + 1) * PAK_ENTRY_SIZE
    }

    /// The byte size of the alias table.
    pub fn alias_size(&self) -> (r: usize)
        ensures
            r == self.spec_alias_size(),
    {
        (self.read_alias_count() as usize) * crate::pak_def::PAK_ALIAS_SIZE
    }

    pub fn alias_offset(&self) -> (r: usize)
        ensures
            r == self.spec_alias_offset(),
    {
        match self {
            PakHeader::V5(_) => self.size() + self.resource_size(),
            PakHeader::V4(_) => self.size(),
        }
    }

    /// The packed serialization of the concrete layout.
    pub fn as_bytes(&self) -> (r: Vec<u8>)
        ensures
            r@ == self.spec_bytes(),
    {
        match self {
            PakHeader::V5(h) => h.as_bytes(),
            PakHeader::V4(h) => h.as_bytes(),
        }
    }
}

/// What reading the leading version field of `b` yields.
pub open spec fn spec_get_version(b: Seq<u8>) -> Result<u32, PakError> {
    if b.len() < PAK_VERSION_SIZE {
        Err(PakError::VersionSizeNotEnough(b.len() as usize, PAK_VERSION_SIZE as usize))
    } else {
        Ok(spec_u32_from_le_bytes(b.subrange(0, 4)))
    }
}

/// Reads the 4-byte little-endian version field at the start of the archive.
pub fn pak_get_version(buf: &[u8]) -> (r: Result<u32, PakError>)
    ensures
        r == spec_get_version(buf@),
{
    if buf.len() < PAK_VERSION_SIZE {
        return Err(PakError::VersionSizeNotEnough(buf.len(), PAK_VERSION_SIZE));
    }
    Ok(u32_from_le_bytes(slice_subrange(buf, 0, 4)))
}

/// What parsing the header of `b` yields: dispatch on the version field,
/// then the matching fixed layout.
pub open spec fn spec_read_header(b: Seq<u8>) -> Result<PakHeader, PakError> {
    match spec_get_version(b) {
        Ok(version) => {
            if version == PAK_VERSION_V5 {
                match spec_header_v5_parse(b) {
                    Ok(h) => Ok(PakHeader::V5(h)),
                    Err(e) => Err(e),
                }
            } else if version == PAK_VERSION_V4 {
                match spec_header_v4_parse(b) {
                    Ok(h) => Ok(PakHeader::V4(h)),
                    Err(e) => Err(e),
                }
            } else {
                Err(PakError::UnsupportedVersion(version))
            }
        },
        Err(e) => Err(e),
    }
}

/// Parses the archive header: reads the version field and dispatches to the
/// layout it selects; any other version is unsupported.
pub fn pak_read_header(buf: &[u8]) -> (r: Result<PakHeader, PakError>)
    ensures
        r == spec_read_header(buf@),
{
    let version = match pak_get_version(buf) {
        Ok(v) => v,
        Err(e) => {
            return Err(e);
        },
    };
    if version == PAK_VERSION_V5 {
        match PakHeaderV5::from_buf(buf) {
            Ok(h) => Ok(PakHeader::V5(h)),
            Err(e) => Err(e),
        }
    } else if version == PAK_VERSION_V4 {
        match PakHeaderV4::from_buf(buf) {
            Ok(h) => Ok(PakHeader::V4(h)),
            Err(e) => Err(e),
        }
    } else {
        Err(PakError::UnsupportedVersion(version))
    }
}

} // verus!
