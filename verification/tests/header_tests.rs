use pak::pak_def::PakBase;
use pak::pak_error::PakError;
use pak::pak_header::{pak_get_version, pak_read_header, PakHeader, PakHeaderV4, PakHeaderV5};

fn v5_bytes(encoding: u8, resource_count: u16, alias_count: u16) -> Vec<u8> {
    let mut v = vec![5u8, 0, 0, 0, encoding, 0, 0, 0];
    v.extend_from_slice(&resource_count.to_le_bytes());
    v.extend_from_slice(&alias_count.to_le_bytes());
    v
}

#[test]
fn get_version_reads_first_four_bytes() {
    assert_eq!(pak_get_version(&[5, 0, 0, 0, 99]).unwrap(), 5);
    assert_eq!(pak_get_version(&[0x2C, 1, 0, 0]).unwrap(), 0x12C);
}

#[test]
fn get_version_short_buffer_fails() {
    let e = pak_get_version(&[5, 0, 0]).unwrap_err();
    assert!(matches!(e, PakError::VersionSizeNotEnough(3, 4)));
}

#[test]
fn read_header_v5() {
    let buf = v5_bytes(1, 7, 2);
    match pak_read_header(&buf).unwrap() {
        PakHeader::V5(h) => {
            assert_eq!(h.version, 5);
            assert_eq!(h.encoding, 1);
            assert_eq!(h.resource_count, 7);
            assert_eq!(h.alias_count, 2);
        }
        PakHeader::V4(_) => panic!("expected the v5 layout"),
    }
}

#[test]
fn read_header_v4() {
    let mut buf = vec![4u8, 0, 0, 0];
    buf.extend_from_slice(&300u32.to_le_bytes());
    buf.push(9);
    match pak_read_header(&buf).unwrap() {
        PakHeader::V4(h) => {
            assert_eq!(h.version, 4);
            assert_eq!(h.resource_count, 300);
            assert_eq!(h.encoding, 9);
        }
        PakHeader::V5(_) => panic!("expected the v4 layout"),
    }
}

#[test]
fn read_header_unsupported_version() {
    let buf = [7u8, 0, 0, 0, 0, 0, 0, 0, 0, 0, 0, 0];
    let e = pak_read_header(&buf).unwrap_err();
    assert!(matches!(e, PakError::UnsupportedVersion(7)));
}

#[test]
fn read_header_v5_too_short() {
    let buf = [5u8, 0, 0, 0, 0, 0, 0, 0, 0];
    let e = pak_read_header(&buf).unwrap_err();
    assert!(matches!(e, PakError::V5HeaderSizeNotEnough(9, 12)));
}

#[test]
fn read_header_v4_too_short() {
    let buf = [4u8, 0, 0, 0, 0, 0];
    let e = pak_read_header(&buf).unwrap_err();
    assert!(matches!(e, PakError::V4HeaderSizeNotEnough(6, 9)));
}

#[test]
fn from_buf_version_mismatch() {
    let mut buf = vec![4u8, 0, 0, 0];
    buf.extend_from_slice(&[0u8; 8]);
    let e = PakHeaderV5::from_buf(&buf).unwrap_err();
    assert!(matches!(e, PakError::VersionMisMatch(4, 5)));
    let mut buf = vec![5u8, 0, 0, 0];
    buf.extend_from_slice(&[0u8; 5]);
    let e = PakHeaderV4::from_buf(&buf).unwrap_err();
    assert!(matches!(e, PakError::VersionMisMatch(5, 4)));
}

#[test]
fn header_bytes_roundtrip() {
    let buf = v5_bytes(3, 10, 4);
    let header = pak_read_header(&buf).unwrap();
    assert_eq!(header.as_bytes(), buf);
    assert_eq!(header.size(), 12);
    assert_eq!(header.resource_size(), (10 + 1) * 6);
    assert_eq!(header.alias_size(), 4 * 4);
    assert_eq!(header.alias_offset(), 12 + 11 * 6);
}

#[test]
fn v4_header_has_no_alias_region() {
    let h = PakHeader::V4(PakHeaderV4::new());
    assert_eq!(h.read_alias_count(), 0);
    assert_eq!(h.alias_offset(), 9);
    assert_eq!(h.size(), 9);
}

#[test]
fn header_setters() {
    let mut h = PakHeader::V5(PakHeaderV5::new());
    h.write_encoding(8);
    h.write_resource_count(70000);  // only the low 16 bits fit the v5 field
    h.write_alias_count(3);
    assert_eq!(h.read_encoding(), 8);
    assert_eq!(h.read_resource_count(), 70000 & 0xFFFF);
    assert_eq!(h.read_alias_count(), 3);
    let mut h4 = PakHeader::V4(PakHeaderV4::new());
    h4.write_resource_count(70000);
    assert_eq!(h4.read_resource_count(), 70000);
}
