use pak::pak_brotli::brotli_calculate_decompressed_size;
use pak::pak_error::PakError;
use pak::pak_file_io::pak_chromium_brotli_envelope;
use pak::pak_file_type::{
    pak_get_chromium_brotli_decompressed_size, pak_get_file_type, PakFileCompression,
};

/// A hand-assembled brotli stream holding one uncompressed meta-block of 300
/// bytes: window bits, a non-last meta-block with MLEN 300 copied verbatim,
/// then an empty last meta-block.
fn brotli_stream_of_300_bytes() -> Vec<u8> {
    let mut v = vec![0xB0u8, 0x12, 0x10];
    for i in 0..300u32 {
        v.push((i % 251) as u8);
    }
    v.push(0x03);
    v
}

#[test]
fn classify_png() {
    let t = pak_get_file_type(&[0x89, 0x50, 0x4E, 0x47, 0x0D, 0x0A, 0x1A, 0x0A, 1, 2, 3]);
    assert_eq!(t.ext_name, ".png");
    assert!(matches!(t.compression, PakFileCompression::NoCompression));
}

#[test]
fn classify_js_comment() {
    let t = pak_get_file_type(b"// a script");
    assert_eq!(t.ext_name, ".js");
}

#[test]
fn classify_json_brace() {
    let t = pak_get_file_type(b"{\"k\":1}");
    assert_eq!(t.ext_name, ".json");
}

#[test]
fn classify_html_doctype() {
    let t = pak_get_file_type(b"<!doctype html><html>");
    assert_eq!(t.ext_name, ".html");
}

#[test]
fn classify_gzip() {
    let t = pak_get_file_type(&[0x1F, 0x8B, 0x08]);
    assert_eq!(t.ext_name, ".gz");
    assert!(matches!(t.compression, PakFileCompression::Gzip));
}

#[test]
fn classify_chromium_brotli() {
    let t = pak_get_file_type(&[0x1E, 0x9B, 0x2C, 0x01]);
    assert_eq!(t.ext_name, ".br");
    assert!(matches!(t.compression, PakFileCompression::ChromiumBrotli));
}

#[test]
fn classify_unknown() {
    let t = pak_get_file_type(&[0x00, 0x01, 0x02]);
    assert_eq!(t.ext_name, "");
    assert!(t.identifier.is_empty());
    assert!(matches!(t.compression, PakFileCompression::NoCompression));
}

#[test]
fn classify_same_prefix_same_result() {
    // the classifier reads only the leading bytes: identical 16-byte
    // prefixes classify identically
    let mut a = b"<svg width='1'>".to_vec();
    let mut b = a.clone();
    a.extend_from_slice(b"abc");
    b.extend_from_slice(b"xyz123");
    let ta = pak_get_file_type(&a);
    let tb = pak_get_file_type(&b);
    assert_eq!(ta.ext_name, tb.ext_name);
    assert_eq!(ta.identifier, tb.identifier);
    assert_eq!(ta.ext_name, ".svg");
}

#[test]
fn brotli_size_field_roundtrip() {
    let env = pak_chromium_brotli_envelope(300, b"payload");
    assert_eq!(&env[..8], &[0x1E, 0x9B, 0x2C, 0x01, 0x00, 0x00, 0x00, 0x00]);
    assert_eq!(&env[8..], b"payload");
    assert_eq!(pak_get_chromium_brotli_decompressed_size(&env).unwrap(), 300);
}

#[test]
fn brotli_size_field_errors() {
    let e = pak_get_chromium_brotli_decompressed_size(&[0x00, 0x9B, 1, 2, 3, 4, 5, 6]).unwrap_err();
    assert!(matches!(e, PakError::PakNotChromiumBrotli));
    let e = pak_get_chromium_brotli_decompressed_size(&[0x1E, 0x9B, 1]).unwrap_err();
    assert!(matches!(e, PakError::PakChromiumBrotliSizeNotEnough(3)));
}

#[test]
fn size_probe_counts_decompressed_bytes() {
    // probing the compression of a 300-byte sequence counts 300 bytes
    let stream = brotli_stream_of_300_bytes();
    assert_eq!(brotli_calculate_decompressed_size(&stream), 300);
}

#[test]
fn size_probe_rejected_stream_counts_zero() {
    assert_eq!(brotli_calculate_decompressed_size(&[0xFF, 0xFF, 0xFF, 0xFF]), 0);
}
