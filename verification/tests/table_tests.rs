use pak::pak_def::{pak_read_alias_slice, PakAlias, PakBase, PakBaseOffset, PakEntry};
use pak::pak_error::PakError;
use pak::pak_file::pak_parse_files;
use pak::pak_header::pak_read_header;

/// A v5 archive with two resources (ids 10 and 11, 100 and 50 bytes) and no
/// aliases: 12-byte header, 18-byte entry table, then the payloads.
fn two_resource_archive() -> Vec<u8> {
    let mut buf = vec![5u8, 0, 0, 0, 0, 0, 0, 0, 2, 0, 0, 0];
    let entries = [(10u16, 30u32), (11, 130), (0, 180)];
    for (id, off) in entries {
        buf.extend_from_slice(&id.to_le_bytes());
        buf.extend_from_slice(&off.to_le_bytes());
    }
    buf.extend_from_slice(&[1u8; 100]);
    buf.extend_from_slice(&[2u8; 50]);
    assert_eq!(buf.len(), 180);
    buf
}

#[test]
fn entry_from_buf_offset() {
    let mut buf = vec![0u8; 3];
    buf.extend_from_slice(&7u16.to_le_bytes());
    buf.extend_from_slice(&0x01020304u32.to_le_bytes());
    let e = PakEntry::from_buf_offset(&buf, 3).unwrap();
    assert_eq!(e.resource_id, 7);
    assert_eq!(e.offset, 0x01020304);
    assert_eq!(e.as_bytes(), &buf[3..9]);
}

#[test]
fn entry_read_bounds_errors() {
    let buf = [0u8; 8];
    let e = PakEntry::from_buf_offset(&buf, 9).unwrap_err();
    assert!(matches!(e, PakError::PakEntryOrAliasOffsetOverflow(8, 9)));
    let e = PakEntry::from_buf_offset(&buf, 4).unwrap_err();
    assert!(matches!(e, PakError::PakEntryOrAliasSizeNotEnough(4, 6)));
}

#[test]
fn alias_from_buf() {
    let mut buf = Vec::new();
    buf.extend_from_slice(&3u16.to_le_bytes());
    buf.extend_from_slice(&1u16.to_le_bytes());
    let a = PakAlias::from_buf(&buf).unwrap();
    assert_eq!(a.resource_id, 3);
    assert_eq!(a.entry_index, 1);
    assert_eq!(a.as_bytes(), buf);
}

#[test]
fn parse_files_two_resources() {
    let buf = two_resource_archive();
    let header = pak_read_header(&buf).unwrap();
    let files = pak_parse_files(&header, &buf).unwrap();
    assert_eq!(files.len(), 2);
    assert_eq!((files[0].id, files[0].begin, files[0].end), (10, 30, 130));
    assert_eq!((files[1].id, files[1].begin, files[1].end), (11, 130, 180));
    // the ranges tile the payload region without overlap
    assert_eq!(files[0].end, files[1].begin);
    assert_eq!(&buf[files[0].begin..files[0].end], &[1u8; 100]);
    assert_eq!(&buf[files[1].begin..files[1].end], &[2u8; 50]);
}

#[test]
fn parse_files_zero_resources_rejected() {
    let buf = vec![5u8, 0, 0, 0, 0, 0, 0, 0, 0, 0, 0, 0];
    let header = pak_read_header(&buf).unwrap();
    let e = pak_parse_files(&header, &buf).unwrap_err();
    assert!(matches!(e, PakError::PakZeroResourceCount));
}

#[test]
fn parse_files_truncated_table() {
    let mut buf = vec![5u8, 0, 0, 0, 0, 0, 0, 0, 2, 0, 0, 0];
    buf.extend_from_slice(&[0u8; 10]);  // not enough room for three entries
    let header = pak_read_header(&buf).unwrap();
    let e = pak_parse_files(&header, &buf).unwrap_err();
    assert!(matches!(e, PakError::PakEntryOrAliasSizeNotEnough(..)));
}

#[test]
fn parse_files_offset_past_buffer() {
    let mut buf = vec![5u8, 0, 0, 0, 0, 0, 0, 0, 1, 0, 0, 0];
    for (id, off) in [(10u16, 24u32), (0, 999)] {
        buf.extend_from_slice(&id.to_le_bytes());
        buf.extend_from_slice(&off.to_le_bytes());
    }
    let header = pak_read_header(&buf).unwrap();
    let e = pak_parse_files(&header, &buf).unwrap_err();
    assert!(matches!(e, PakError::PakEntryOrAliasOffsetOverflow(24, 999)));
}

#[test]
fn parse_files_decreasing_offsets_rejected() {
    let mut buf = vec![5u8, 0, 0, 0, 0, 0, 0, 0, 1, 0, 0, 0];
    for (id, off) in [(10u16, 24u32), (0, 20)] {
        buf.extend_from_slice(&id.to_le_bytes());
        buf.extend_from_slice(&off.to_le_bytes());
    }
    let header = pak_read_header(&buf).unwrap();
    let e = pak_parse_files(&header, &buf).unwrap_err();
    assert!(matches!(e, PakError::PakEntryOrAliasOffsetOverflow(24, 24)));
}

#[test]
fn alias_slice_empty_is_fine() {
    let v = pak_read_alias_slice(&[], 100, 0).unwrap();
    assert!(v.is_empty());
}

#[test]
fn alias_slice_reads_records() {
    let mut buf = vec![0u8; 4];
    for (id, idx) in [(7u16, 0u16), (8, 1)] {
        buf.extend_from_slice(&id.to_le_bytes());
        buf.extend_from_slice(&idx.to_le_bytes());
    }
    let v = pak_read_alias_slice(&buf, 4, 2).unwrap();
    assert_eq!(v.len(), 2);
    assert_eq!((v[0].resource_id, v[0].entry_index), (7, 0));
    assert_eq!((v[1].resource_id, v[1].entry_index), (8, 1));
}

#[test]
fn alias_slice_bounds_errors() {
    let e = pak_read_alias_slice(&[0u8; 4], 8, 1).unwrap_err();
    assert!(matches!(e, PakError::PakAliasOffsetOverflow(4, 8)));
    let e = pak_read_alias_slice(&[0u8; 4], 2, 1).unwrap_err();
    assert!(matches!(e, PakError::PakAliasSizeNotEnough(2, 4)));
}
