//! Per-resource byte handling for both directions: naming and envelope
//! stripping when resources leave an archive, and envelope reconstruction
//! when file contents are packed back in.
use vstd::prelude::*;
use vstd::string::StringSliceAdditionalSpecFns;

use crate::pak_brotli::{brotli_calculate_decompressed_size, brotli_decompressed_size_of};
use crate::pak_file::PakFile;
use crate::pak_file_type::{
    pak_get_file_type, spec_classify, PakFileCompression, BROTLI_HEADER_SIZE,
};
use crate::pak_index::{
    push_dec_u32, spec_dec_digits, spec_string_bytes, PakIndexCompression, PakIndexEntry,
};

verus! {

/// The bytes of one resource as they will sit inside a packed archive.
pub struct PakFileContent {
    pub resource_id: u16,
    pub content: Vec<u8>,
}

/// A 64-bit count truncated to the envelope's 6-byte little-endian size
/// field.
pub open spec fn spec_le6_bytes(x: u64) -> Seq<u8> {
    seq![
        (x & 0xFF) as u8,
        ((x >> 8) & 0xFF) as u8,
        ((x >> 16) & 0xFF) as u8,
        ((x >> 24) & 0xFF) as u8,
        ((x >> 32) & 0xFF) as u8,
        ((x >> 40) & 0xFF) as u8,
    ]
}

/// A chromium brotli envelope: the 2-byte magic, the 6-byte little-endian
/// decompressed size, then the raw compressed payload unchanged.
pub open spec fn spec_brotli_envelope(size: u64, content: Seq<u8>) -> Seq<u8> {
    seq![0x1Eu8, 0x9Bu8] + spec_le6_bytes(size) + content
}

/// Builds the chromium brotli envelope around a compressed payload, with the
/// given decompressed size in the 6-byte size field.
pub fn pak_chromium_brotli_envelope(size: u64, content: &[u8]) -> (r: Vec<u8>)
    ensures
        r@ == spec_brotli_envelope(size, content@),
{
    let mut v: Vec<u8> = Vec::new();
    v.push(0x1E);
    v.push(0x9B);
    proof {
        assert((size & 0xFF) <= 0xFF) by (bit_vector);
        assert(((size >> 8) & 0xFF) <= 0xFF) by (bit_vector);
        assert(((size >> 16) & 0xFF) <= 0xFF) by (bit_vector);
        assert(((size >> 24) & 0xFF) <= 0xFF) by (bit_vector);
        assert(((size >> 32) & 0xFF) <= 0xFF) by (bit_vector);
        assert(((size >> 40) & 0xFF) <= 0xFF) by (bit_vector);
    }
    v.push((size & 0xFF) as u8);
    v.push(((size >> 8) & 0xFF) as u8);
    v.push(((size >> 16) & 0xFF) as u8);
    v.push(((size >> 24) & 0xFF) as u8);
    v.push(((size >> 32) & 0xFF) as u8);
    v.push(((size >> 40) & 0xFF) as u8);
    let ghost head = v@;
    let mut tail = vstd::slice::slice_to_vec(content);
    v.append(&mut tail);
    proof {
        assert(head =~= seq![0x1Eu8, 0x9Bu8] + spec_le6_bytes(size));
        assert(v@ =~= spec_brotli_envelope(size, content@));
    }
    v
}

/// Reading the size field back out of a built envelope returns the size it
/// was built with, as far as the 6-byte field can hold it.
pub proof fn lemma_envelope_size_roundtrip(size: u64, content: Seq<u8>)
    ensures
        crate::pak_file_type::spec_chromium_brotli_size(spec_brotli_envelope(size, content))
            == Ok::<u64, crate::pak_error::PakError>((size & 0xFFFF_FFFF_FFFF) as u64),
{
    let env = spec_brotli_envelope(size, content);
    let field = env.subrange(2, 8);
    assert(field =~= spec_le6_bytes(size));
    assert((size & 0xFF) <= 0xFF) by (bit_vector);
    assert(((size >> 8) & 0xFF) <= 0xFF) by (bit_vector);
    assert(((size >> 16) & 0xFF) <= 0xFF) by (bit_vector);
    assert(((size >> 24) & 0xFF) <= 0xFF) by (bit_vector);
    assert(((size >> 32) & 0xFF) <= 0xFF) by (bit_vector);
    assert(((size >> 40) & 0xFF) <= 0xFF) by (bit_vector);
    let b0 = (size & 0xFF) as u8;
    let b1 = ((size >> 8) & 0xFF) as u8;
    let b2 = ((size >> 16) & 0xFF) as u8;
    let b3 = ((size >> 24) & 0xFF) as u8;
    let b4 = ((size >> 32) & 0xFF) as u8;
    let b5 = ((size >> 40) & 0xFF) as u8;
    let s5 = seq![b5];
    let s4 = seq![b4] + s5;
    let s3 = seq![b3] + s4;
    let s2 = seq![b2] + s3;
    let s1 = seq![b1] + s2;
    let s0 = seq![b0] + s1;
    assert(field =~= s0);
    assert(s0.drop_first() =~= s1);
    assert(s1.drop_first() =~= s2);
    assert(s2.drop_first() =~= s3);
    assert(s3.drop_first() =~= s4);
    assert(s4.drop_first() =~= s5);
    assert(s5.drop_first() =~= Seq::<u8>::empty());
    assert(crate::pak_file_type::spec_le_bytes_nat(Seq::<u8>::empty()) == 0);
    assert(crate::pak_file_type::spec_le_bytes_nat(s5) == b5 as nat + 256
        * crate::pak_file_type::spec_le_bytes_nat(s5.drop_first()));
    assert(crate::pak_file_type::spec_le_bytes_nat(s4) == b4 as nat + 256
        * crate::pak_file_type::spec_le_bytes_nat(s5));
    assert(crate::pak_file_type::spec_le_bytes_nat(s3) == b3 as nat + 256
        * crate::pak_file_type::spec_le_bytes_nat(s4));
    assert(crate::pak_file_type::spec_le_bytes_nat(s2) == b2 as nat + 256
        * crate::pak_file_type::spec_le_bytes_nat(s3));
    assert(crate::pak_file_type::spec_le_bytes_nat(s1) == b1 as nat + 256
        * crate::pak_file_type::spec_le_bytes_nat(s2));
    assert(crate::pak_file_type::spec_le_bytes_nat(s0) == b0 as nat + 256
        * crate::pak_file_type::spec_le_bytes_nat(s1));
    let v = crate::pak_file_type::spec_le_bytes_nat(field);
    assert(v == b0 + 256 * (b1 + 256 * (b2 + 256 * (b3 + 256 * (b4 + 256 * (b5 as nat))))));
    assert((size & 0xFF) + 256 * (((size >> 8) & 0xFF) + 256 * (((size >> 16) & 0xFF) + 256 * ((
    (size >> 24) & 0xFF) + 256 * (((size >> 32) & 0xFF) + 256 * ((size >> 40) & 0xFF))))) == (size
        & 0xFFFF_FFFF_FFFF)) by (bit_vector);
}

impl PakFileCompression {
    /// The manifest compression tag this content kind is recorded as: only
    /// the chromium brotli envelope is tracked; everything else, a gzip
    /// stream included, is stored and restored as raw bytes.
    pub fn as_index_compression(&self) -> (r: PakIndexCompression)
        ensures
            r == (if *self is ChromiumBrotli {
                PakIndexCompression::BrotliCompressed
            } else {
                PakIndexCompression::Raw
            }),
    {
        match self {
            PakFileCompression::ChromiumBrotli => PakIndexCompression::BrotliCompressed,
            _ => PakIndexCompression::Raw,
        }
    }
}

/// The bytes a resource contributes to a packed archive: raw file contents
/// as they are, or the reconstructed envelope around a still-compressed
/// payload, with the decompressed size recomputed by probing.
pub fn pak_resource_archive_bytes(entry: &PakIndexEntry, file_content: Vec<u8>) -> (r: Vec<u8>)
    ensures
        r@ == match entry.compression {
            PakIndexCompression::Raw => file_content@,
            PakIndexCompression::BrotliCompressed => spec_brotli_envelope(
                brotli_decompressed_size_of(file_content@),
                file_content@,
            ),
        },
{
    match entry.compression {
        PakIndexCompression::Raw => file_content,
        PakIndexCompression::BrotliCompressed => {
            let size = brotli_calculate_decompressed_size(file_content.as_slice());
            pak_chromium_brotli_envelope(size, file_content.as_slice())
        },
    }
}

/// Every rendered decimal digit is an ASCII byte.
proof fn lemma_dec_digits_ascii(n: nat)
    ensures
        forall|i: int|
            0 <= i < spec_dec_digits(n).len() ==> 0x30 <= #[trigger] spec_dec_digits(n)[i] <= 0x39,
    decreases n,
{
    if n >= 10 {
        lemma_dec_digits_ascii(n / 10);
        let d = spec_dec_digits(n / 10);
        assert forall|i: int| 0 <= i < spec_dec_digits(n).len() implies 0x30 <= #[trigger] spec_dec_digits(
            n,
        )[i] <= 0x39 by {
            if i < d.len() {
                assert(spec_dec_digits(n)[i] == d[i]);
            } else {
                assert(spec_dec_digits(n)[i] == (0x30 + n % 10) as u8);
            }
        }
    }
}

/// A byte sequence of ASCII bytes is valid UTF-8.
proof fn lemma_ascii_bytes_valid_utf8(s: Seq<u8>)
    requires
        forall|i: int| 0 <= i < s.len() ==> #[trigger] s[i] < 0x80,
    ensures
        vstd::utf8::valid_utf8(s),
{
    assert(forall|i: int|
        0 <= i < s.len() ==> #[trigger] vstd::utf8::is_leading_byte_width_1(s[i]));
    assert(s.subrange(0, 0) =~= Seq::<u8>::empty());
    assert(vstd::utf8::valid_utf8(Seq::<u8>::empty()));
    assert(vstd::utf8::partial_valid_utf8(s, 0));
    vstd::utf8::partial_valid_utf8_extend_ascii_block(s, 0, s.len() as int);
    assert(s.subrange(0, s.len() as int) =~= s);
}

/// The on-disk file name of an extracted resource: its id in decimal, with
/// the classified extension appended.
pub fn pak_resource_file_name(id: u16, ext: &str) -> (r: String)
    ensures
        spec_string_bytes(r) == spec_dec_digits(id as nat) + ext.spec_bytes(),
{
    let mut bytes: Vec<u8> = Vec::new();
    push_dec_u32(&mut bytes, id as u32);
    proof {
        assert(bytes@ =~= spec_dec_digits(id as nat));
        lemma_dec_digits_ascii(id as nat);
        lemma_ascii_bytes_valid_utf8(bytes@);
        broadcast use vstd::utf8::encode_utf8_valid_utf8;
        broadcast use vstd::utf8::valid_utf8_concat;
    }
    let ghost digits = bytes@;
    let mut tail = ext.as_bytes_vec();
    bytes.append(&mut tail);
    proof {
        assert(vstd::utf8::valid_utf8(digits));
        assert(vstd::utf8::valid_utf8(ext.spec_bytes()));
        assert(vstd::utf8::valid_utf8(digits + ext.spec_bytes()));
    }
    match crate::pak_index::string_from_utf8(bytes) {
        Some(s) => s,
        None => {
            proof {
                assert(false);
            }
            String::new()
        },
    }
}

/// Everything unpack decides about one extracted resource: the manifest
/// entry it becomes and the byte range of what gets written to disk.
pub struct PakFilePlan {
    pub entry: PakIndexEntry,
    pub begin: usize,
    pub end: usize,
}

/// The ghost image of that decision.
pub ghost struct SpecFilePlan {
    pub resource_id: u16,
    pub name: Seq<u8>,
    pub compression: PakIndexCompression,
    pub begin: int,
    pub end: int,
}

/// What unpack decides for the resource `file` of the archive `b`.
pub open spec fn spec_plan_file(file: PakFile, b: Seq<u8>) -> SpecFilePlan {
    let content = b.subrange(file.begin as int, file.end as int);
    let rule = spec_classify(content);
    let stripped = rule.comp is ChromiumBrotli && content.len() > BROTLI_HEADER_SIZE;
    SpecFilePlan {
        resource_id: file.id,
        name: spec_dec_digits(file.id as nat) + vstd::utf8::encode_utf8(rule.ext),
        compression: if rule.comp is ChromiumBrotli {
            PakIndexCompression::BrotliCompressed
        } else {
            PakIndexCompression::Raw
        },
        begin: file.begin + (if stripped {
            BROTLI_HEADER_SIZE as int
        } else {
            0
        }),
        end: file.end as int,
    }
}

/// Whether the executable plan `p` records exactly the ghost decision `m`.
pub open spec fn spec_plan_matches(p: PakFilePlan, m: SpecFilePlan) -> bool {
    &&& p.entry.resource_id == m.resource_id
    &&& spec_string_bytes(p.entry.file_name) == m.name
    &&& p.entry.compression == m.compression
    &&& p.begin == m.begin
    &&& p.end == m.end
}

/// Decides how one extracted resource leaves the archive: classifies its
/// bytes, strips the chromium brotli envelope header when one is present,
/// and names the output file after the id and the classified extension.
pub fn pak_plan_file(pak_file: &PakFile, buf: &[u8]) -> (r: PakFilePlan)
    requires
        pak_file.begin <= pak_file.end <= buf@.len(),
    ensures
        spec_plan_matches(r, spec_plan_file(*pak_file, buf@)),
{
    let content = vstd::slice::slice_subrange(buf, pak_file.begin, pak_file.end);
    let file_type = pak_get_file_type(content);
    let mut begin = pak_file.begin;
    // strip the chromium brotli envelope header
    if matches!(file_type.compression, PakFileCompression::ChromiumBrotli) && content.len()
        > BROTLI_HEADER_SIZE {
        begin = begin + BROTLI_HEADER_SIZE;
    }
    let file_name = pak_resource_file_name(pak_file.id, file_type.ext_name);
    let entry = PakIndexEntry {
        resource_id: pak_file.id,
        file_name,
        compression: file_type.compression.as_index_compression(),
    };
    PakFilePlan { entry, begin, end: pak_file.end }
}

} // verus!
