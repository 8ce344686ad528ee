//! Magic-byte content classification: an ordered rule table scanned
//! top-to-bottom, where the first matching prefix decides the extension and
//! the compression kind of a resource.
use vstd::prelude::*;

use crate::pak_error::PakError;

verus! {

/// The compression kind a magic prefix reveals.
#[derive(Clone, Copy, Debug, PartialEq, Eq, Structural)]
pub enum PakFileCompression {
    NoCompression,
    Gzip,
    ChromiumBrotli,
}

/// One classification rule: the magic prefix, the extension it assigns and
/// the compression kind it reveals.
pub struct PakFileType {
    pub ext_name: &'static str,
    pub identifier: Vec<u8>,
    pub compression: PakFileCompression,
}

/// The ghost image of one rule.
pub ghost struct SpecFileRule {
    pub ext: Seq<char>,
    pub ident: Seq<u8>,
    pub comp: PakFileCompression,
}

/// Whether `p` is a prefix of `b`.
pub open spec fn spec_starts_with(b: Seq<u8>, p: Seq<u8>) -> bool {
    p.len() <= b.len() && b.subrange(0, p.len() as int) == p
}

/// The rule that classifies content no rule matches: empty extension, no
/// compression.
pub open spec fn spec_unknown_rule() -> SpecFileRule {
    SpecFileRule { ext: Seq::empty(), ident: Seq::empty(), comp: PakFileCompression::NoCompression }
}

/// The fixed, ordered rule table. Short ambiguous text prefixes stand after
/// the more specific binary magics, and order decides ties.
pub open spec fn spec_file_rules() -> Seq<SpecFileRule> {
    seq![
        SpecFileRule {
            ext: seq!['.', 'p', 'n', 'g'],
            ident: seq![0x89u8, 0x50, 0x4E, 0x47, 0x0D, 0x0A, 0x1A, 0x0A],
            comp: PakFileCompression::NoCompression,
        },
        SpecFileRule {
            ext: seq!['.', 'h', 't', 'm', 'l'],
            ident: seq![
                0x3Cu8,
                0x21,
                0x64,
                0x6F,
                0x63,
                0x74,
                0x79,
                0x70,
                0x65,
                0x20,
                0x68,
                0x74,
                0x6D,
                0x6C,
                0x3E,
            ],
            comp: PakFileCompression::NoCompression,
        },
        SpecFileRule {
            ext: seq!['.', 'h', 't', 'm', 'l'],
            ident: seq![
                0x3Cu8,
                0x21,
                0x44,
                0x4F,
                0x43,
                0x54,
                0x59,
                0x50,
                0x45,
                0x20,
                0x68,
                0x74,
                0x6D,
                0x6C,
                0x3E,
            ],
            comp: PakFileCompression::NoCompression,
        },
        SpecFileRule {
            ext: seq!['.', 'h', 't', 'm', 'l'],
            ident: seq![0x3Cu8, 0x68, 0x74, 0x6D, 0x6C, 0x3E],
            comp: PakFileCompression::NoCompression,
        },
        SpecFileRule {
            ext: seq!['.', 'h', 't', 'm', 'l'],
            ident: seq![0x3Cu8, 0x21, 0x2D, 0x2D],
            comp: PakFileCompression::NoCompression,
        },
        SpecFileRule {
            ext: seq!['.', 'h', 't', 'm', 'l'],
            ident: seq![0x3Cu8, 0x6C, 0x69, 0x6E, 0x6B, 0x20],
            comp: PakFileCompression::NoCompression,
        },
        SpecFileRule {
            ext: seq!['.', 's', 'v', 'g'],
            ident: seq![0x3Cu8, 0x73, 0x76, 0x67, 0x20],
            comp: PakFileCompression::NoCompression,
        },
        SpecFileRule {
            ext: seq!['.', 'j', 's'],
            ident: seq![0x2Fu8, 0x2F, 0x20],
            comp: PakFileCompression::NoCompression,
        },
        SpecFileRule {
            ext: seq!['.', 'j', 's'],
            ident: seq![0x28u8, 0x66, 0x75, 0x6E, 0x63, 0x74, 0x69, 0x6F, 0x6E],
            comp: PakFileCompression::NoCompression,
        },
        SpecFileRule {
            ext: seq!['.', 'c', 's', 's'],
            ident: seq![0x2Fu8, 0x2A],
            comp: PakFileCompression::NoCompression,
        },
        SpecFileRule {
            ext: seq!['.', 'g', 'z'],
            ident: seq![0x1Fu8, 0x8B],
            comp: PakFileCompression::Gzip,
        },
        SpecFileRule {
            ext: seq!['.', 'b', 'r'],
            ident: seq![0x1Eu8, 0x9B],
            comp: PakFileCompression::ChromiumBrotli,
        },
        SpecFileRule {
            ext: seq!['.', 'g', 'i', 'f'],
            ident: seq![0x47u8, 0x49, 0x46, 0x38, 0x39, 0x61],
            comp: PakFileCompression::NoCompression,
        },
        SpecFileRule {
            ext: seq!['.', 'g', 'i', 'f'],
            ident: seq![0x47u8, 0x49, 0x46, 0x38, 0x37, 0x61],
            comp: PakFileCompression::NoCompression,
        },
        SpecFileRule {
            ext: seq!['.', 'p', 'n', 'g'],
            ident: seq![0x89u8, 0x50, 0x4E, 0x47, 0x0D, 0x0A, 0x1A, 0x0A],
            comp: PakFileCompression::NoCompression,
        },
        SpecFileRule {
            ext: seq!['.', 'j', 'p', 'g'],
            ident: seq![0xFFu8, 0xD8],
            comp: PakFileCompression::NoCompression,
        },
        SpecFileRule {
            ext: seq!['.', 'j', 's', 'o', 'n'],
            ident: seq![0x7Bu8],
            comp: PakFileCompression::NoCompression,
        },
    ]
}

/// First-match scan of the rule table from rule `i` on.
pub open spec fn spec_classify_from(b: Seq<u8>, i: int) -> SpecFileRule
    decreases spec_file_rules().len() - i,
{
    if i < 0 || i >= spec_file_rules().len() {
        spec_unknown_rule()
    } else if spec_starts_with(b, spec_file_rules()[i].ident) {
        spec_file_rules()[i]
    } else {
        spec_classify_from(b, i + 1)
    }
}

/// The rule that classifies `b`: the first whose magic prefix matches, or
/// the unknown rule.
pub open spec fn spec_classify(b: Seq<u8>) -> SpecFileRule {
    spec_classify_from(b, 0)
}

impl PakFileType {
    /// Whether this rule's magic prefix matches the start of `buf`.
    pub fn starts_with(&self, buf: &[u8]) -> (r: bool)
        ensures
            r == spec_starts_with(buf@, self.identifier@),
    {
        let n = self.identifier.len();
        if n > buf.len() {
            return false;
        }
        let mut i: usize = 0;
        while i < n
            invariant
                i <= n,
                n == self.identifier@.len(),
                n <= buf@.len(),
                forall|j: int| 0 <= j < i ==> buf@[j] == self.identifier@[j],
            decreases n - i,
        {
            if *vstd::slice::slice_index_get(buf, i) != self.identifier[i] {
                assert(buf@.subrange(0, n as int)[i as int] != self.identifier@[i as int]);
                return false;
            }
            i = i + 1;
        }
        assert(buf@.subrange(0, n as int) =~= self.identifier@);
        true
    }
}

/// Builds the rule table as executable data, in the fixed order the
/// classifier scans it.
pub fn pak_file_types() -> (r: Vec<PakFileType>)
    ensures
        r@.len() == spec_file_rules().len(),
        forall|i: int|
            0 <= i < r@.len() ==> {
                &&& (#[trigger] r@[i]).ext_name@ == spec_file_rules()[i].ext
                &&& r@[i].identifier@ == spec_file_rules()[i].ident
                &&& r@[i].compression == spec_file_rules()[i].comp
            },
{
    let mut v: Vec<PakFileType> = Vec::new();
    let png = ".png";
    let html = ".html";
    proof {
        reveal_strlit(".png");
        reveal_strlit(".html");
        reveal_strlit(".svg");
        reveal_strlit(".js");
        reveal_strlit(".css");
        reveal_strlit(".gz");
        reveal_strlit(".br");
        reveal_strlit(".gif");
        reveal_strlit(".jpg");
        reveal_strlit(".json");
    }
    let mut id: Vec<u8> = Vec::new();
    id.push(0x89);
    id.push(0x50);
    id.push(0x4E);
    id.push(0x47);
    id.push(0x0D);
    id.push(0x0A);
    id.push(0x1A);
    id.push(0x0A);
    assert(id@ =~= spec_file_rules()[0].ident);
    v.push(PakFileType { ext_name: png, identifier: id, compression: PakFileCompression::NoCompression });
    let mut id: Vec<u8> = Vec::new();
    id.push(0x3C);
    id.push(0x21);
    id.push(0x64);
    id.push(0x6F);
    id.push(0x63);
    id.push(0x74);
    id.push(0x79);
    id.push(0x70);
    id.push(0x65);
    id.push(0x20);
    id.push(0x68);
    id.push(0x74);
    id.push(0x6D);
    id.push(0x6C);
    id.push(0x3E);
    assert(id@ =~= spec_file_rules()[1].ident);
    v.push(PakFileType { ext_name: html, identifier: id, compression: PakFileCompression::NoCompression });
    let mut id: Vec<u8> = Vec::new();
    id.push(0x3C);
    id.push(0x21);
    id.push(0x44);
    id.push(0x4F);
    id.push(0x43);
    id.push(0x54);
    id.push(0x59);
    id.push(0x50);
    id.push(0x45);
    id.push(0x20);
    id.push(0x68);
    id.push(0x74);
    id.push(0x6D);
    id.push(0x6C);
    id.push(0x3E);
    assert(id@ =~= spec_file_rules()[2].ident);
    v.push(PakFileType { ext_name: html, identifier: id, compression: PakFileCompression::NoCompression });
    let mut id: Vec<u8> = Vec::new();
    id.push(0x3C);
    id.push(0x68);
    id.push(0x74);
    id.push(0x6D);
    id.push(0x6C);
    id.push(0x3E);
    assert(id@ =~= spec_file_rules()[3].ident);
    v.push(PakFileType { ext_name: html, identifier: id, compression: PakFileCompression::NoCompression });
    let mut id: Vec<u8> = Vec::new();
    id.push(0x3C);
    id.push(0x21);
    id.push(0x2D);
    id.push(0x2D);
    assert(id@ =~= spec_file_rules()[4].ident);
    v.push(PakFileType { ext_name: html, identifier: id, compression: PakFileCompression::NoCompression });
    let mut id: Vec<u8> = Vec::new();
    id.push(0x3C);
    id.push(0x6C);
    id.push(0x69);
    id.push(0x6E);
    id.push(0x6B);
    id.push(0x20);
    assert(id@ =~= spec_file_rules()[5].ident);
    v.push(PakFileType { ext_name: html, identifier: id, compression: PakFileCompression::NoCompression });
    let mut id: Vec<u8> = Vec::new();
    id.push(0x3C);
    id.push(0x73);
    id.push(0x76);
    id.push(0x67);
    id.push(0x20);
    assert(id@ =~= spec_file_rules()[6].ident);
    v.push(PakFileType { ext_name: ".svg", identifier: id, compression: PakFileCompression::NoCompression });
    let mut id: Vec<u8> = Vec::new();
    id.push(0x2F);
    id.push(0x2F);
    id.push(0x20);
    assert(id@ =~= spec_file_rules()[7].ident);
    v.push(PakFileType { ext_name: ".js", identifier: id, compression: PakFileCompression::NoCompression });
    let mut id: Vec<u8> = Vec::new();
    id.push(0x28);
    id.push(0x66);
    id.push(0x75);
    id.push(0x6E);
    id.push(0x63);
    id.push(0x74);
    id.push(0x69);
    id.push(0x6F);
    id.push(0x6E);
    assert(id@ =~= spec_file_rules()[8].ident);
    v.push(PakFileType { ext_name: ".js", identifier: id, compression: PakFileCompression::NoCompression });
    let mut id: Vec<u8> = Vec::new();
    id.push(0x2F);
    id.push(0x2A);
    assert(id@ =~= spec_file_rules()[9].ident);
    v.push(PakFileType { ext_name: ".css", identifier: id, compression: PakFileCompression::NoCompression });
    let mut id: Vec<u8> = Vec::new();
    id.push(0x1F);
    id.push(0x8B);
    assert(id@ =~= spec_file_rules()[10].ident);
    v.push(PakFileType { ext_name: ".gz", identifier: id, compression: PakFileCompression::Gzip });
    let mut id: Vec<u8> = Vec::new();
    id.push(0x1E);
    id.push(0x9B);
    assert(id@ =~= spec_file_rules()[11].ident);
    v.push(
        PakFileType {
            ext_name: ".br",
            identifier: id,
            compression: PakFileCompression::ChromiumBrotli,
        },
    );
    let mut id: Vec<u8> = Vec::new();
    id.push(0x47);
    id.push(0x49);
    id.push(0x46);
    id.push(0x38);
    id.push(0x39);
    id.push(0x61);
    assert(id@ =~= spec_file_rules()[12].ident);
    v.push(PakFileType { ext_name: ".gif", identifier: id, compression: PakFileCompression::NoCompression });
    let mut id: Vec<u8> = Vec::new();
    id.push(0x47);
    id.push(0x49);
    id.push(0x46);
    id.push(0x38);
    id.push(0x37);
    id.push(0x61);
    assert(id@ =~= spec_file_rules()[13].ident);
    v.push(PakFileType { ext_name: ".gif", identifier: id, compression: PakFileCompression::NoCompression });
    let mut id: Vec<u8> = Vec::new();
    id.push(0x89);
    id.push(0x50);
    id.push(0x4E);
    id.push(0x47);
    id.push(0x0D);
    id.push(0x0A);
    id.push(0x1A);
    id.push(0x0A);
    assert(id@ =~= spec_file_rules()[14].ident);
    v.push(PakFileType { ext_name: png, identifier: id, compression: PakFileCompression::NoCompression });
    let mut id: Vec<u8> = Vec::new();
    id.push(0xFF);
    id.push(0xD8);
    assert(id@ =~= spec_file_rules()[15].ident);
    v.push(PakFileType { ext_name: ".jpg", identifier: id, compression: PakFileCompression::NoCompression });
    let mut id: Vec<u8> = Vec::new();
    id.push(0x7B);
    assert(id@ =~= spec_file_rules()[16].ident);
    v.push(
        PakFileType { ext_name: ".json", identifier: id, compression: PakFileCompression::NoCompression },
    );
    v
}

/// The rule returned when no magic prefix matches.
pub fn pak_file_type_unknown() -> (r: PakFileType)
    ensures
        r.ext_name@ == spec_unknown_rule().ext,
        r.identifier@ == spec_unknown_rule().ident,
        r.compression == spec_unknown_rule().comp,
{
    let empty = "";
    let id: Vec<u8> = Vec::new();
    proof {
        reveal_strlit("");
        assert(id@ =~= Seq::<u8>::empty());
        assert(empty@ =~= Seq::<char>::empty());
    }
    PakFileType { ext_name: empty, identifier: id, compression: PakFileCompression::NoCompression }
}

/// Classifies the start of `buf` against the rule table: the first matching
/// rule wins; no match yields the unknown rule.
pub fn pak_get_file_type(buf: &[u8]) -> (r: PakFileType)
    ensures
        r.ext_name@ == spec_classify(buf@).ext,
        r.identifier@ == spec_classify(buf@).ident,
        r.compression == spec_classify(buf@).comp,
{
    let table = pak_file_types();
    let n = table.len();
    let mut i: usize = 0;
    while i < n
        invariant
            i <= n,
            n == spec_file_rules().len(),
            table@.len() == n,
            forall|j: int|
                0 <= j < n ==> {
                    &&& (#[trigger] table@[j]).ext_name@ == spec_file_rules()[j].ext
                    &&& table@[j].identifier@ == spec_file_rules()[j].ident
                    &&& table@[j].compression == spec_file_rules()[j].comp
                },
            spec_classify_from(buf@, i as int) == spec_classify(buf@),
        decreases n - i,
    {
        let candidate = &table[i];
        if candidate.starts_with(buf) {
            return PakFileType {
                ext_name: candidate.ext_name,
                identifier: candidate.identifier.clone(),
                compression: candidate.compression,
            };
        }
        i = i + 1;
    }
    pak_file_type_unknown()
}

/// Determinism of the classifier in its strongest useful form: the result
/// depends on the first 16 bytes of the content alone. Two inputs that agree
/// on those bytes classify identically.
pub proof fn lemma_classify_prefix(a: Seq<u8>, b: Seq<u8>)
    requires
        a.len() >= 16,
        b.len() >= 16,
        a.subrange(0, 16) == b.subrange(0, 16),
    ensures
        spec_classify(a) == spec_classify(b),
{
    lemma_classify_from_prefix(a, b, 0);
}

proof fn lemma_classify_from_prefix(a: Seq<u8>, b: Seq<u8>, i: int)
    requires
        a.len() >= 16,
        b.len() >= 16,
        a.subrange(0, 16) == b.subrange(0, 16),
        0 <= i <= spec_file_rules().len(),
    ensures
        spec_classify_from(a, i) == spec_classify_from(b, i),
    decreases spec_file_rules().len() - i,
{
    if i < spec_file_rules().len() {
        let p = spec_file_rules()[i].ident;
        assert(p.len() <= 16);
        assert forall|j: int| 0 <= j < p.len() implies a[j] == b[j] by {
            assert(a.subrange(0, 16)[j] == a[j]);
            assert(b.subrange(0, 16)[j] == b[j]);
            assert(a.subrange(0, 16)[j] == b.subrange(0, 16)[j]);
        }
        if spec_starts_with(a, p) {
            assert(b.subrange(0, p.len() as int) =~= p);
        }
        if spec_starts_with(b, p) {
            assert(a.subrange(0, p.len() as int) =~= p);
        }
        lemma_classify_from_prefix(a, b, i + 1);
    }
}

/// Size in bytes of the chromium brotli envelope header: 2 magic bytes and a
/// 6-byte little-endian decompressed size.
pub const BROTLI_HEADER_SIZE: usize = 8;

/// Whether `b` starts with the two chromium brotli magic bytes.
pub open spec fn spec_is_chromium_brotli(b: Seq<u8>) -> bool {
    b.len() >= 2 && b[0] == 0x1E && b[1] == 0x9B
}

/// The value of `s` read as a little-endian unsigned integer.
pub open spec fn spec_le_bytes_nat(s: Seq<u8>) -> nat
    decreases s.len(),
{
    if s.len() == 0 {
        0
    } else {
        s[0] as nat + 256 * spec_le_bytes_nat(s.drop_first())
    }
}

/// 256 to the power `n`.
pub open spec fn pow256(n: nat) -> nat
    decreases n,
{
    if n == 0 {
        1
    } else {
        256 * pow256((n - 1) as nat)
    }
}

/// A little-endian value is bounded by 256 to the number of its bytes.
pub proof fn lemma_le_bytes_nat_bound(s: Seq<u8>)
    ensures
        spec_le_bytes_nat(s) < pow256(s.len()),
    decreases s.len(),
{
    if s.len() > 0 {
        lemma_le_bytes_nat_bound(s.drop_first());
    }
}

/// What reading the envelope's size field of `b` yields: the 48-bit
/// little-endian count after the magic, or why it cannot be read.
pub open spec fn spec_chromium_brotli_size(b: Seq<u8>) -> Result<u64, PakError> {
    if !spec_is_chromium_brotli(b) {
        Err(PakError::PakNotChromiumBrotli)
    } else if b.len() < BROTLI_HEADER_SIZE {
        Err(PakError::PakChromiumBrotliSizeNotEnough(b.len() as usize))
    } else {
        Ok(spec_le_bytes_nat(b.subrange(2, 8)) as u64)
    }
}

/// Reads the decompressed-size field out of a chromium brotli envelope: the
/// 6 bytes after the magic, little-endian.
pub fn pak_get_chromium_brotli_decompressed_size(buf: &[u8]) -> (r: Result<u64, PakError>)
    ensures
        r == spec_chromium_brotli_size(buf@),
{
    if !(buf.len() >= 2 && *vstd::slice::slice_index_get(buf, 0) == 0x1E
        && *vstd::slice::slice_index_get(buf, 1) == 0x9B) {
        return Err(PakError::PakNotChromiumBrotli);
    }
    if buf.len() < BROTLI_HEADER_SIZE {
        return Err(PakError::PakChromiumBrotliSizeNotEnough(buf.len()));
    }
    proof {
        lemma_pow256_values();
    }
    let mut acc: u64 = 0;
    let mut idx: usize = 6;
    while idx > 0
        invariant
            idx <= 6,
            buf@.len() >= 8,
            acc == spec_le_bytes_nat(buf@.subrange(2 + idx, 8)),
            acc < pow256((6 - idx) as nat),
            pow256(6) == 0x1000000000000,
        decreases idx,
    {
        idx = idx - 1;
        let byte = *vstd::slice::slice_index_get(buf, 2 + idx);
        proof {
            lemma_pow256_values();
            lemma_le_bytes_nat_bound(buf@.subrange(2 + idx + 1, 8));
            assert(buf@.subrange(2 + idx, 8).drop_first() =~= buf@.subrange(2 + idx + 1, 8));
            assert(buf@.subrange(2 + idx, 8)[0] == buf@[2 + idx]);
        }
        acc = acc * 256 + (byte as u64);
    }
    proof {
        assert(buf@.subrange(2, 8) =~= buf@.subrange(2 + 0int, 8));
    }
    Ok(acc)
}

proof fn lemma_pow256_values()
    ensures
        pow256(0) == 1,
        pow256(1) == 0x100,
        pow256(2) == 0x10000,
        pow256(3) == 0x1000000,
        pow256(4) == 0x100000000,
        pow256(5) == 0x10000000000,
        pow256(6) == 0x1000000000000,
{
    assert(pow256(0) == 1);
    assert(pow256(1) == 256 * pow256(0));
    assert(pow256(2) == 256 * pow256(1));
    assert(pow256(3) == 256 * pow256(2));
    assert(pow256(4) == 256 * pow256(3));
    assert(pow256(5) == 256 * pow256(4));
    assert(pow256(6) == 256 * pow256(5));
}


/// Every extension the rule table can assign is plain ASCII text with no
/// line break, and never ends in the letters that could make a file name
/// look compression-tagged.
pub proof fn lemma_classify_ext_wf(b: Seq<u8>)
    ensures
        ({
            let ext = spec_classify(b).ext;
            &&& vstd::utf8::is_ascii_chars(ext)
            &&& forall|j: int| 0 <= j < ext.len() ==> (#[trigger] ext[j]) != '\r' && ext[j] != '\n'
            &&& ext.len() > 0 ==> ext.last() != 'w' && ext.last() != 'd'
        }),
{
    lemma_classify_from_ext_wf(b, 0);
}

proof fn lemma_classify_from_ext_wf(b: Seq<u8>, i: int)
    requires
        0 <= i <= spec_file_rules().len(),
    ensures
        ({
            let ext = spec_classify_from(b, i).ext;
            &&& vstd::utf8::is_ascii_chars(ext)
            &&& forall|j: int| 0 <= j < ext.len() ==> (#[trigger] ext[j]) != '\r' && ext[j] != '\n'
            &&& ext.len() > 0 ==> ext.last() != 'w' && ext.last() != 'd'
        }),
    decreases spec_file_rules().len() - i,
{
    if i < spec_file_rules().len() {
        lemma_classify_from_ext_wf(b, i + 1);
    }
}

} // verus!
