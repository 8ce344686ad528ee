//! The closed set of failures the codec can report.
use vstd::prelude::*;

use crate::pak_index::PakIndexStatus;

verus! {

/// Every failure of the codec, with its diagnostic context.
///
/// Offending manifest tokens are carried as the raw bytes that were read, so
/// that no failure path depends on the input being valid text.
#[derive(Debug)]
pub enum PakError {
    Unknown,
    /// actual, expected
    VersionSizeNotEnough(usize, usize),
    /// version
    UnsupportedVersion(u32),
    /// actual, expected
    VersionMisMatch(u32, u32),
    /// actual, expected
    V4HeaderSizeNotEnough(usize, usize),
    /// actual, expected
    V5HeaderSizeNotEnough(usize, usize),
    /// buffer length, offset
    PakEntryOrAliasOffsetOverflow(usize, usize),
    /// actual, expected
    PakEntryOrAliasSizeNotEnough(usize, usize),
    PakZeroResourceCount,
    /// buffer length, offset
    PakAliasOffsetOverflow(usize, usize),
    /// actual, expected
    PakAliasSizeNotEnough(usize, usize),
    PakNotChromiumBrotli,
    PakChromiumBrotliSizeNotEnough(usize),
    /// offending line
    PakIndexParseError(Vec<u8>),
    /// section name
    PakIndexUnknownTag(Vec<u8>),
    /// status, key, value
    PakIndexUnknownProperty(PakIndexStatus, Vec<u8>, Vec<u8>),
    /// version token
    PakIndexBadVersion(Vec<u8>),
    /// encoding token
    PakIndexBadEncoding(Vec<u8>),
    /// resource id token
    PakIndexBadResourceId(Vec<u8>),
    /// version
    PakIndexAliasNotSupported(u32),
    /// key, value
    PakIndexAliasBadResourceId(Vec<u8>, Vec<u8>),
    /// key, value
    PakIndexAliasBadEntryIndex(Vec<u8>, Vec<u8>),
    /// status, line
    PakIndexUnknownAction(PakIndexStatus, Vec<u8>),
    /// resource_id, offset
    PakPackResourceOffsetOverflow(u16, usize),
}

} // verus!
