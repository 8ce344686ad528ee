use pak::pak_file_io::{pak_resource_archive_bytes, PakFileContent};
use pak::pak_index::PakIndex;
use pak::pak_pack::pak_pack_index_vec;
use pak::pak_unpack::pak_unpack_plan;

/// A v5 archive: header, entry table with sentinel, optional alias table,
/// then the payloads back to back.
fn build_archive(
    encoding: u8,
    resources: &[(u16, Vec<u8>)],
    aliases: &[(u16, u16)],
) -> Vec<u8> {
    let mut buf = vec![5u8, 0, 0, 0, encoding, 0, 0, 0];
    buf.extend_from_slice(&(resources.len() as u16).to_le_bytes());
    buf.extend_from_slice(&(aliases.len() as u16).to_le_bytes());
    let base = 12 + 6 * (resources.len() + 1) + 4 * aliases.len();
    let mut offset = base as u32;
    for (id, content) in resources {
        buf.extend_from_slice(&id.to_le_bytes());
        buf.extend_from_slice(&offset.to_le_bytes());
        offset += content.len() as u32;
    }
    buf.extend_from_slice(&0u16.to_le_bytes());
    buf.extend_from_slice(&offset.to_le_bytes());
    for (id, index) in aliases {
        buf.extend_from_slice(&id.to_le_bytes());
        buf.extend_from_slice(&index.to_le_bytes());
    }
    for (_, content) in resources {
        buf.extend_from_slice(content);
    }
    buf
}

/// Unpacks an archive to (file name, file bytes) pairs and the manifest,
/// then packs those back the way the pack pipeline would.
fn unpack_then_pack(archive: &[u8]) -> Vec<u8> {
    let plan = pak_unpack_plan(archive).unwrap();
    // what unpack would write to disk, one file per resource
    let mut disk: Vec<(String, Vec<u8>)> = Vec::new();
    for (i, range) in plan.ranges.iter().enumerate() {
        let name = plan.index.entry_vec[i].file_name.clone();
        disk.push((name, archive[range.begin..range.end].to_vec()));
    }
    // the pack direction starts from the written manifest
    let index = PakIndex::from_ini_buf(&plan.index_bytes).unwrap();
    assert_eq!(index.entry_vec.len(), disk.len());
    let mut pak_files: Vec<PakFileContent> = Vec::new();
    for (i, entry) in index.entry_vec.iter().enumerate() {
        assert_eq!(&disk[i].0, &entry.file_name);
        pak_files.push(PakFileContent {
            resource_id: entry.resource_id,
            content: pak_resource_archive_bytes(entry, disk[i].1.clone()),
        });
    }
    pak_pack_index_vec(&index, &pak_files).unwrap()
}

#[test]
fn unpack_writes_plain_names_and_manifest() {
    // two unclassifiable resources of 100 and 50 bytes: files "10" and "11"
    // with extension-free names, and the exact manifest lines
    let archive = build_archive(0, &[(10, vec![1u8; 100]), (11, vec![2u8; 50])], &[]);
    assert_eq!(archive[..12], [5, 0, 0, 0, 0, 0, 0, 0, 2, 0, 0, 0]);
    let plan = pak_unpack_plan(&archive).unwrap();
    assert_eq!(plan.index.entry_vec.len(), 2);
    assert_eq!(plan.index.entry_vec[0].file_name, "10");
    assert_eq!(plan.index.entry_vec[1].file_name, "11");
    assert_eq!((plan.ranges[0].begin, plan.ranges[0].end), (30, 130));
    assert_eq!((plan.ranges[1].begin, plan.ranges[1].end), (130, 180));
    assert_eq!(
        plan.index_bytes,
        b"[Global]\r\nversion=5\r\nencoding=0\r\n\r\n[Resources]\r\n10=10\r\n11=11\r\n"
    );
}

#[test]
fn pack_after_unpack_reproduces_archive() {
    let archive = build_archive(
        3,
        &[(10, vec![7u8; 40]), (11, b"plain text body".to_vec())],
        &[(99, 0), (100, 1)],
    );
    let packed = unpack_then_pack(&archive);
    assert_eq!(packed, archive);
}

#[test]
fn pack_after_unpack_reproduces_brotli_envelope() {
    // a resource wrapped in the chromium brotli envelope: a stream of 300
    // decompressed bytes, so the size field reads 0x12C
    let mut stream = vec![0xB0u8, 0x12, 0x10];
    for i in 0..300u32 {
        stream.push((i % 251) as u8);
    }
    stream.push(0x03);
    let mut enveloped = vec![0x1E, 0x9B, 0x2C, 0x01, 0x00, 0x00, 0x00, 0x00];
    enveloped.extend_from_slice(&stream);
    let archive = build_archive(0, &[(12, enveloped), (13, vec![9u8; 5])], &[]);

    let plan = pak_unpack_plan(&archive).unwrap();
    // the envelope is detected, named ".br", tagged, and stripped
    assert_eq!(plan.index.entry_vec[0].file_name, "12.br");
    assert_eq!(
        &archive[plan.ranges[0].begin..plan.ranges[0].end],
        &stream[..]
    );
    assert!(plan
        .index_bytes
        .windows(b"12=12.br:::BrotliCompressed\r\n".len())
        .any(|w| w == b"12=12.br:::BrotliCompressed\r\n"));

    // repacking probes the stream back to 300 bytes and rebuilds the
    // identical envelope
    let packed = unpack_then_pack(&archive);
    assert_eq!(packed, archive);
}

#[test]
fn unpack_rejects_bad_header() {
    assert!(pak_unpack_plan(&[9u8, 0, 0, 0, 0, 0, 0, 0, 0, 0, 0, 0]).is_err());
    assert!(pak_unpack_plan(&[5u8, 0]).is_err());
}
