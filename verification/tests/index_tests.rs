use pak::pak_def::{PakAlias, PakBase};
use pak::pak_error::PakError;
use pak::pak_header::{PakHeader, PakHeaderV5};
use pak::pak_index::{
    number_digit_count_u16, parse_u16_bytes, parse_u32_bytes, parse_u8_bytes, PakIndex,
    PakIndexCompression, PakIndexEntry, PakIndexRef,
};

fn parse(text: &str) -> Result<PakIndex, PakError> {
    PakIndex::from_ini_buf(text.as_bytes())
}

#[test]
fn number_digit_count_u16_test() {
    for i in 0..u16::MAX {
        let digits = number_digit_count_u16(i);
        assert_eq!(i.to_string().len(), digits);
    }
}

#[test]
fn parse_decimal_like_from_str() {
    assert_eq!(parse_u16_bytes(b"5"), Some(5));
    assert_eq!(parse_u16_bytes(b"+5"), Some(5));
    assert_eq!(parse_u16_bytes(b"0065535"), Some(65535));
    assert_eq!(parse_u16_bytes(b"65536"), None);
    assert_eq!(parse_u16_bytes(b""), None);
    assert_eq!(parse_u16_bytes(b"+"), None);
    assert_eq!(parse_u16_bytes(b"12x"), None);
    assert_eq!(parse_u8_bytes(b"255"), Some(255));
    assert_eq!(parse_u8_bytes(b"256"), None);
    assert_eq!(parse_u32_bytes(b"4294967295"), Some(4294967295));
    assert_eq!(parse_u32_bytes(b"4294967296"), None);
}

#[test]
fn compression_suffix_handling() {
    assert_eq!(PakIndexCompression::Raw.to_suffix(), ":::Raw");
    assert_eq!(PakIndexCompression::BrotliCompressed.to_suffix(), ":::BrotliCompressed");
    assert!(matches!(
        PakIndexCompression::of_file_name("a.br:::BrotliCompressed"),
        PakIndexCompression::BrotliCompressed
    ));
    assert!(matches!(PakIndexCompression::of_file_name("a.br"), PakIndexCompression::Raw));
    let mut name = String::from("a.br:::BrotliCompressed");
    PakIndexCompression::strip_suffix(&mut name);
    assert_eq!(name, "a.br");
    let mut name = String::from("b.txt:::Raw");
    PakIndexCompression::strip_suffix(&mut name);
    assert_eq!(name, "b.txt");
    let mut name = String::from("plain");
    PakIndexCompression::strip_suffix(&mut name);
    assert_eq!(name, "plain");
}

#[test]
fn manifest_entry_with_brotli_suffix() {
    let idx = parse("[Global]\r\nversion=5\r\nencoding=0\r\n\r\n[Resources]\r\n5=5.br:::BrotliCompressed\r\n")
        .unwrap();
    assert_eq!(idx.entry_vec.len(), 1);
    let e = &idx.entry_vec[0];
    assert_eq!(e.resource_id, 5);
    assert_eq!(e.file_name, "5.br");
    assert!(matches!(e.compression, PakIndexCompression::BrotliCompressed));
}

#[test]
fn manifest_full_parse() {
    let idx = parse(
        "[Global]\r\nversion=5\r\nencoding=1\r\n\r\n[Resources]\r\n10=10.png\r\n11=11\r\n\r\n[Alias]\r\n99=0\r\n",
    )
    .unwrap();
    assert_eq!(idx.header.read_version(), 5);
    assert_eq!(idx.header.read_encoding(), 1);
    assert_eq!(idx.header.read_resource_count(), 2);
    assert_eq!(idx.header.read_alias_count(), 1);
    assert_eq!(idx.entry_vec[0].file_name, "10.png");
    assert_eq!(idx.entry_vec[1].file_name, "11");
    assert_eq!(idx.alias_vec[0].resource_id, 99);
    assert_eq!(idx.alias_vec[0].entry_index, 0);
}

#[test]
fn manifest_version_4_and_alias_always_fails() {
    // the alias section of a v4 manifest is rejected, never silently dropped
    let e = parse("[Global]\r\nversion=4\r\nencoding=0\r\n\r\n[Resources]\r\n1=1\r\n\r\n[Alias]\r\n2=0\r\n")
        .unwrap_err();
    assert!(matches!(e, PakError::PakIndexAliasNotSupported(4)));
}

#[test]
fn manifest_alias_before_version_4_still_fails() {
    // aliases collected before the version is known are rejected at the end
    let e = parse("[Alias]\r\n2=0\r\n[Global]\r\nversion=4\r\nencoding=0\r\n").unwrap_err();
    assert!(matches!(e, PakError::PakIndexAliasNotSupported(4)));
}

#[test]
fn manifest_comments_and_blanks_skipped() {
    let idx = parse(";note\r\n[Global]\r\nversion=4\r\nencoding=0\r\n\r\n[Resources]\r\n1=a\r\n").unwrap();
    assert_eq!(idx.header.read_version(), 4);
    assert_eq!(idx.entry_vec.len(), 1);
}

#[test]
fn manifest_lf_only_lines_accepted() {
    let idx = parse("[Global]\nversion=5\nencoding=0\n\n[Resources]\n1=a\n").unwrap();
    assert_eq!(idx.entry_vec.len(), 1);
}

#[test]
fn manifest_grammar_errors() {
    let e = parse("[Broken\r\n").unwrap_err();
    assert!(matches!(e, PakError::PakIndexParseError(_)));
    let e = parse("[Bogus]\r\n").unwrap_err();
    assert!(matches!(e, PakError::PakIndexUnknownTag(_)));
    let e = parse("key=value\r\n").unwrap_err();
    assert!(matches!(e, PakError::PakIndexUnknownProperty(..)));
    let e = parse("[Global]\r\ncolor=red\r\n").unwrap_err();
    assert!(matches!(e, PakError::PakIndexUnknownProperty(..)));
    let e = parse("[Global]\r\nversion=abc\r\n").unwrap_err();
    assert!(matches!(e, PakError::PakIndexBadVersion(_)));
    let e = parse("[Global]\r\nversion=6\r\n").unwrap_err();
    assert!(matches!(e, PakError::UnsupportedVersion(6)));
    let e = parse("[Global]\r\nencoding=300\r\n").unwrap_err();
    assert!(matches!(e, PakError::PakIndexBadEncoding(_)));
    let e = parse("[Global]\r\nversion=5\r\n[Resources]\r\nabc=x\r\n").unwrap_err();
    assert!(matches!(e, PakError::PakIndexBadResourceId(_)));
    let e = parse("[Global]\r\nversion=5\r\n[Alias]\r\nabc=1\r\n").unwrap_err();
    assert!(matches!(e, PakError::PakIndexAliasBadResourceId(..)));
    let e = parse("[Global]\r\nversion=5\r\n[Alias]\r\n1=abc\r\n").unwrap_err();
    assert!(matches!(e, PakError::PakIndexAliasBadEntryIndex(..)));
    let e = parse("[Global]\r\nstray\r\n").unwrap_err();
    assert!(matches!(e, PakError::PakIndexUnknownAction(..)));
}

#[test]
fn manifest_non_text_file_name_rejected() {
    let mut buf = b"[Global]\r\nversion=5\r\nencoding=0\r\n\r\n[Resources]\r\n1=".to_vec();
    buf.push(0xFF);
    buf.extend_from_slice(b"\r\n");
    let e = PakIndex::from_ini_buf(&buf).unwrap_err();
    assert!(matches!(e, PakError::PakIndexParseError(_)));
}

#[test]
fn manifest_serialization_layout() {
    let mut header = PakHeaderV5::new();
    header.encoding = 2;
    header.resource_count = 2;
    header.alias_count = 1;
    let entries = vec![
        PakIndexEntry {
            resource_id: 10,
            file_name: String::from("10.png"),
            compression: PakIndexCompression::Raw,
        },
        PakIndexEntry {
            resource_id: 11,
            file_name: String::from("11.br"),
            compression: PakIndexCompression::BrotliCompressed,
        },
    ];
    let aliases = vec![PakAlias { resource_id: 99, entry_index: 1 }];
    let header = PakHeader::V5(header);
    let index_ref = PakIndexRef { header: &header, entry_slice: &entries, alias_slice: &aliases };
    let expected = "[Global]\r\nversion=5\r\nencoding=2\r\n\r\n[Resources]\r\n10=10.png\r\n11=11.br:::BrotliCompressed\r\n\r\n[Alias]\r\n99=1\r\n";
    assert_eq!(index_ref.to_ini_bytes(), expected.as_bytes());
    // the capacity estimate covers the real length (it rounds the section
    // bookkeeping up)
    assert!(index_ref.calc_ini_byte_size() >= expected.len());
}

#[test]
fn manifest_serialization_without_aliases_omits_section() {
    let header = PakHeader::V5(PakHeaderV5::new());
    let entries: Vec<PakIndexEntry> = Vec::new();
    let aliases: Vec<PakAlias> = Vec::new();
    let index_ref = PakIndexRef { header: &header, entry_slice: &entries, alias_slice: &aliases };
    let expected = "[Global]\r\nversion=5\r\nencoding=0\r\n\r\n[Resources]\r\n";
    assert_eq!(index_ref.to_ini_bytes(), expected.as_bytes());
}

#[test]
fn manifest_serialize_parse_roundtrip() {
    let text = "[Global]\r\nversion=5\r\nencoding=7\r\n\r\n[Resources]\r\n1=a.png\r\n2=b.br:::BrotliCompressed\r\n\r\n[Alias]\r\n3=0\r\n";
    let idx = parse(text).unwrap();
    let back = idx.as_pak_index_ref().to_ini_bytes();
    assert_eq!(back, text.as_bytes());
}

#[test]
fn manifest_raw_suffix_accepted_but_never_emitted() {
    let idx = parse("[Global]\r\nversion=5\r\nencoding=0\r\n\r\n[Resources]\r\n1=a.txt:::Raw\r\n").unwrap();
    assert_eq!(idx.entry_vec[0].file_name, "a.txt");
    assert!(matches!(idx.entry_vec[0].compression, PakIndexCompression::Raw));
    let back = idx.as_pak_index_ref().to_ini_bytes();
    assert_eq!(
        back,
        b"[Global]\r\nversion=5\r\nencoding=0\r\n\r\n[Resources]\r\n1=a.txt\r\n"
    );
}
