//! The textual sidecar manifest: serialization of an index to the fixed
//! section grammar, and the line-oriented parse back.
//!
//! Grammar (CRLF line endings, case-sensitive keys, fixed section order):
//! a `[Global]` section with `version` and `encoding` properties, a
//! `[Resources]` section with one `resource_id=file_name` line per resource
//! (optionally tagged with a compression suffix), and an optional `[Alias]`
//! section with `resource_id=entry_index` lines.
use vstd::prelude::*;
use vstd::string::StringSliceAdditionalSpecFns;
use vstd::string::StrSliceExecFns;

use crate::pak_def::{PakAlias, PakBase};
use crate::pak_error::PakError;
use crate::pak_header::{PakHeader, PakHeaderV4, PakHeaderV5, PAK_VERSION_V4, PAK_VERSION_V5};

verus! {

/// Which manifest section the parser is currently inside.
#[derive(Clone, Copy, Debug)]
pub enum PakIndexStatus {
    Init,
    Global,
    Resource,
    Alias,
}

/// Whether a resource sits in the archive as raw bytes or wrapped in the
/// chromium brotli envelope.
#[derive(Clone, Copy, Debug, PartialEq, Eq, Structural)]
pub enum PakIndexCompression {
    Raw,
    BrotliCompressed,
}

/// One manifest resource line: id, on-disk file name, compression tag.
#[derive(Debug)]
pub struct PakIndexEntry {
    pub resource_id: u16,
    pub file_name: String,
    pub compression: PakIndexCompression,
}

/// The UTF-8 bytes of a string, as they stand in a serialized manifest.
pub open spec fn spec_string_bytes(s: String) -> Seq<u8> {
    vstd::utf8::encode_utf8(s@)
}

// ---------------------------------------------------------------------------
// Decimal rendering
// ---------------------------------------------------------------------------
/// The ASCII decimal digits of `n`, most significant first.
pub open spec fn spec_dec_digits(n: nat) -> Seq<u8>
    decreases n,
{
    if n < 10 {
        seq![(0x30 + n) as u8]
    } else {
        spec_dec_digits(n / 10).push((0x30 + n % 10) as u8)
    }
}

/// Appends the decimal digits of `x` to `out`.
pub fn push_dec_u32(out: &mut Vec<u8>, x: u32)
    ensures
        final(out)@ == old(out)@ + spec_dec_digits(x as nat),
    decreases x,
{
    if x < 10 {
        out.push(0x30 + (x as u8));
        assert(final(out)@ =~= old(out)@ + spec_dec_digits(x as nat));
    } else {
        push_dec_u32(out, x / 10);
        let d = (x % 10) as u8;
        out.push(0x30 + d);
        assert(final(out)@ =~= old(out)@ + spec_dec_digits(x as nat));
    }
}

/// How many decimal digits `n` renders to, for `n` up to five digits.
proof fn lemma_dec_digits_len_u16(n: nat)
    requires
        n <= 65535,
    ensures
        n < 10 ==> spec_dec_digits(n).len() == 1,
        10 <= n < 100 ==> spec_dec_digits(n).len() == 2,
        100 <= n < 1000 ==> spec_dec_digits(n).len() == 3,
        1000 <= n < 10000 ==> spec_dec_digits(n).len() == 4,
        10000 <= n ==> spec_dec_digits(n).len() == 5,
    decreases n,
{
    if n >= 10 {
        lemma_dec_digits_len_u16(n / 10);
    }
}

/// Number of decimal digits of `x`: a branch cascade, kept because it is
/// measurably faster than rendering and measuring.
pub fn number_digit_count_u16(x: u16) -> (r: usize)
    ensures
        r == spec_dec_digits(x as nat).len(),
{
    proof {
        lemma_dec_digits_len_u16(x as nat);
    }
    if x >= 1000u16 {
        if x >= 10000u16 {
            return 5;
        }
        return 4;
    }
    if x >= 10u16 {
        if x >= 100u16 {
            return 3;
        }
        return 2;
    }
    return 1;
}

// ---------------------------------------------------------------------------
// Decimal parsing, as the integer from_str routines accept it: an optional
// leading '+', then one or more digits, and the value within range.
// ---------------------------------------------------------------------------
/// Whether every byte of `s` is an ASCII digit.
pub open spec fn spec_all_digits(s: Seq<u8>) -> bool {
    forall|i: int| 0 <= i < s.len() ==> 0x30 <= #[trigger] s[i] <= 0x39
}

/// The value of the digit string `s`, most significant digit first.
pub open spec fn spec_dec_value(s: Seq<u8>) -> int
    decreases s.len(),
{
    if s.len() == 0 {
        0
    } else {
        10 * spec_dec_value(s.drop_last()) + (s.last() - 0x30)
    }
}

/// What parsing `s` as an unsigned decimal integer yields, before any range
/// check: the digit string after an optional '+', or nothing.
pub open spec fn spec_parse_uint(s: Seq<u8>) -> Option<int> {
    let t = if s.len() > 0 && s[0] == 0x2B {
        s.drop_first()
    } else {
        s
    };
    if t.len() > 0 && spec_all_digits(t) {
        Some(spec_dec_value(t))
    } else {
        None
    }
}

/// What parsing `s` as an unsigned decimal capped at `cap` yields.
pub open spec fn spec_parse_uint_capped(s: Seq<u8>, cap: int) -> Option<u64> {
    match spec_parse_uint(s) {
        Some(n) => if 0 <= n <= cap {
            Some(n as u64)
        } else {
            None
        },
        None => None,
    }
}

proof fn lemma_dec_value_nonneg(s: Seq<u8>)
    requires
        spec_all_digits(s),
    ensures
        spec_dec_value(s) >= 0,
    decreases s.len(),
{
    if s.len() > 0 {
        assert(spec_all_digits(s.drop_last())) by {
            assert(forall|i: int|
                0 <= i < s.len() - 1 ==> s.drop_last()[i] == #[trigger] s[i]);
        }
        lemma_dec_value_nonneg(s.drop_last());
    }
}

/// Extending a digit string can only grow its value.
proof fn lemma_dec_value_prefix(t: Seq<u8>, m: int)
    requires
        spec_all_digits(t),
        0 <= m <= t.len(),
    ensures
        spec_dec_value(t.take(m)) <= spec_dec_value(t),
    decreases t.len() - m,
{
    assert(spec_all_digits(t.take(m))) by {
        assert(forall|i: int| 0 <= i < m ==> t.take(m)[i] == #[trigger] t[i]);
    }
    if m == t.len() {
        assert(t.take(m) =~= t);
    } else {
        lemma_dec_value_prefix(t, m + 1);
        let u = t.take(m + 1);
        assert(u.drop_last() =~= t.take(m));
        lemma_dec_value_nonneg(t.take(m));
        assert(spec_dec_value(u) == 10 * spec_dec_value(t.take(m)) + (u.last() - 0x30));
        assert(u.last() == t[m]);
    }
}

/// Parses an unsigned decimal with the shape the integer from_str routines
/// accept, rejecting any value above `cap`.
fn parse_uint_capped(s: &[u8], cap: u64) -> (r: Option<u64>)
    requires
        cap <= u32::MAX,
    ensures
        r == spec_parse_uint_capped(s@, cap as int),
{
    let ghost whole = s@;
    let len = s.len();
    let start: usize = if len > 0 && *vstd::slice::slice_index_get(s, 0) == 0x2B {
        1
    } else {
        0
    };
    let ghost t = if whole.len() > 0 && whole[0] == 0x2B {
        whole.drop_first()
    } else {
        whole
    };
    assert(t.len() == len - start);
    assert(forall|j: int| 0 <= j < t.len() ==> t[j] == whole[start + j]);
    if len == start {
        return None;
    }
    let mut acc: u64 = 0;
    let mut i: usize = start;
    while i < len
        invariant
            whole == s@,
            t == (if whole.len() > 0 && whole[0] == 0x2B {
                whole.drop_first()
            } else {
                whole
            }),
            start == (if whole.len() > 0 && whole[0] == 0x2B {
                1int
            } else {
                0int
            }),
            start <= i <= len,
            len == whole.len(),
            t.len() == len - start,
            forall|j: int| 0 <= j < t.len() ==> t[j] == whole[start + j],
            spec_all_digits(t.take(i - start)),
            acc == spec_dec_value(t.take(i - start)),
            acc <= cap,
            cap <= u32::MAX,
        decreases len - i,
    {
        let b = *vstd::slice::slice_index_get(s, i);
        if !(0x30 <= b && b <= 0x39) {
            assert(t[i - start] == b);
            assert(!spec_all_digits(t));
            return None;
        }
        let d = (b - 0x30) as u64;
        let next = acc * 10 + d;
        proof {
            let m = i - start;
            assert(t.take(m + 1).drop_last() =~= t.take(m));
            assert(t.take(m + 1).last() == t[m]);
            assert(spec_all_digits(t.take(m + 1))) by {
                assert(forall|j: int| 0 <= j < m + 1 ==> t.take(m + 1)[j] == #[trigger] t[j]);
            }
        }
        if next > cap {
            proof {
                let m = i - start;
                if spec_all_digits(t) {
                    lemma_dec_value_prefix(t, m + 1);
                    assert(spec_dec_value(t) >= spec_dec_value(t.take(m + 1)));
                    assert(spec_dec_value(t.take(m + 1)) == next);
                }
            }
            return None;
        }
        acc = next;
        i = i + 1;
    }
    assert(t.take(len - start) =~= t);
    Some(acc)
}

/// Parses a u32 the way u32::from_str does, as an option.
pub fn parse_u32_bytes(s: &[u8]) -> (r: Option<u32>)
    ensures
        r == match spec_parse_uint_capped(s@, u32::MAX as int) {
            Some(n) => Some(n as u32),
            None => None::<u32>,
        },
{
    match parse_uint_capped(s, 0xFFFF_FFFF) {
        Some(n) => Some(n as u32),
        None => None,
    }
}

/// Parses a u16 the way u16::from_str does, as an option.
pub fn parse_u16_bytes(s: &[u8]) -> (r: Option<u16>)
    ensures
        r == match spec_parse_uint_capped(s@, u16::MAX as int) {
            Some(n) => Some(n as u16),
            None => None::<u16>,
        },
{
    match parse_uint_capped(s, 0xFFFF) {
        Some(n) => Some(n as u16),
        None => None,
    }
}

/// Parses a u8 the way u8::from_str does, as an option.
pub fn parse_u8_bytes(s: &[u8]) -> (r: Option<u8>)
    ensures
        r == match spec_parse_uint_capped(s@, u8::MAX as int) {
            Some(n) => Some(n as u8),
            None => None::<u8>,
        },
{
    match parse_uint_capped(s, 0xFF) {
        Some(n) => Some(n as u8),
        None => None,
    }
}

// ---------------------------------------------------------------------------
// The fixed byte strings of the grammar
// ---------------------------------------------------------------------------
/// "\r\n"
pub open spec fn spec_crlf() -> Seq<u8> {
    seq![13u8, 10u8]
}

/// "Global"
pub open spec fn spec_global_tag() -> Seq<u8> {
    seq![0x47u8, 0x6C, 0x6F, 0x62, 0x61, 0x6C]
}

/// "Resources"
pub open spec fn spec_res_tag() -> Seq<u8> {
    seq![0x52u8, 0x65, 0x73, 0x6F, 0x75, 0x72, 0x63, 0x65, 0x73]
}

/// "Alias"
pub open spec fn spec_alias_tag() -> Seq<u8> {
    seq![0x41u8, 0x6C, 0x69, 0x61, 0x73]
}

/// "version"
pub open spec fn spec_version_key() -> Seq<u8> {
    seq![0x76u8, 0x65, 0x72, 0x73, 0x69, 0x6F, 0x6E]
}

/// "encoding"
pub open spec fn spec_encoding_key() -> Seq<u8> {
    seq![0x65u8, 0x6E, 0x63, 0x6F, 0x64, 0x69, 0x6E, 0x67]
}

/// ":::BrotliCompressed"
pub open spec fn spec_suffix_brotli() -> Seq<u8> {
    seq![
        0x3Au8,
        0x3A,
        0x3A,
        0x42,
        0x72,
        0x6F,
        0x74,
        0x6C,
        0x69,
        0x43,
        0x6F,
        0x6D,
        0x70,
        0x72,
        0x65,
        0x73,
        0x73,
        0x65,
        0x64,
    ]
}

/// ":::Raw"
pub open spec fn spec_suffix_raw() -> Seq<u8> {
    seq![0x3Au8, 0x3A, 0x3A, 0x52, 0x61, 0x77]
}

/// "Global" as bytes.
pub fn global_tag_vec() -> (r: Vec<u8>)
    ensures
        r@ == spec_global_tag(),
{
    let mut v: Vec<u8> = Vec::new();
    v.push(0x47);
    v.push(0x6C);
    v.push(0x6F);
    v.push(0x62);
    v.push(0x61);
    v.push(0x6C);
    assert(v@ =~= spec_global_tag());
    v
}

/// "Resources" as bytes.
pub fn res_tag_vec() -> (r: Vec<u8>)
    ensures
        r@ == spec_res_tag(),
{
    let mut v: Vec<u8> = Vec::new();
    v.push(0x52);
    v.push(0x65);
    v.push(0x73);
    v.push(0x6F);
    v.push(0x75);
    v.push(0x72);
    v.push(0x63);
    v.push(0x65);
    v.push(0x73);
    assert(v@ =~= spec_res_tag());
    v
}

/// "Alias" as bytes.
pub fn alias_tag_vec() -> (r: Vec<u8>)
    ensures
        r@ == spec_alias_tag(),
{
    let mut v: Vec<u8> = Vec::new();
    v.push(0x41);
    v.push(0x6C);
    v.push(0x69);
    v.push(0x61);
    v.push(0x73);
    assert(v@ =~= spec_alias_tag());
    v
}

/// "version" as bytes.
pub fn version_key_vec() -> (r: Vec<u8>)
    ensures
        r@ == spec_version_key(),
{
    let mut v: Vec<u8> = Vec::new();
    v.push(0x76);
    v.push(0x65);
    v.push(0x72);
    v.push(0x73);
    v.push(0x69);
    v.push(0x6F);
    v.push(0x6E);
    assert(v@ =~= spec_version_key());
    v
}

/// "encoding" as bytes.
pub fn encoding_key_vec() -> (r: Vec<u8>)
    ensures
        r@ == spec_encoding_key(),
{
    let mut v: Vec<u8> = Vec::new();
    v.push(0x65);
    v.push(0x6E);
    v.push(0x63);
    v.push(0x6F);
    v.push(0x64);
    v.push(0x69);
    v.push(0x6E);
    v.push(0x67);
    assert(v@ =~= spec_encoding_key());
    v
}

/// ":::BrotliCompressed" as bytes.
pub fn suffix_brotli_vec() -> (r: Vec<u8>)
    ensures
        r@ == spec_suffix_brotli(),
{
    let mut v: Vec<u8> = Vec::new();
    v.push(0x3A);
    v.push(0x3A);
    v.push(0x3A);
    v.push(0x42);
    v.push(0x72);
    v.push(0x6F);
    v.push(0x74);
    v.push(0x6C);
    v.push(0x69);
    v.push(0x43);
    v.push(0x6F);
    v.push(0x6D);
    v.push(0x70);
    v.push(0x72);
    v.push(0x65);
    v.push(0x73);
    v.push(0x73);
    v.push(0x65);
    v.push(0x64);
    assert(v@ =~= spec_suffix_brotli());
    v
}

/// ":::Raw" as bytes.
pub fn suffix_raw_vec() -> (r: Vec<u8>)
    ensures
        r@ == spec_suffix_raw(),
{
    let mut v: Vec<u8> = Vec::new();
    v.push(0x3A);
    v.push(0x3A);
    v.push(0x3A);
    v.push(0x52);
    v.push(0x61);
    v.push(0x77);
    assert(v@ =~= spec_suffix_raw());
    v
}

// ---------------------------------------------------------------------------
// Byte-string comparison helpers
// ---------------------------------------------------------------------------
/// Whether two byte strings hold the same bytes.
pub fn bytes_eq(a: &[u8], pat: &[u8]) -> (r: bool)
    ensures
        r == (a@ == pat@),
{
    if a.len() != pat.len() {
        assert(a@.len() != pat@.len());
        return false;
    }
    let n = a.len();
    let mut i: usize = 0;
    while i < n
        invariant
            i <= n,
            n == a@.len(),
            n == pat@.len(),
            forall|j: int| 0 <= j < i ==> a@[j] == pat@[j],
        decreases n - i,
    {
        if *vstd::slice::slice_index_get(a, i) != *vstd::slice::slice_index_get(pat, i) {
            return false;
        }
        i = i + 1;
    }
    assert(a@ =~= pat@);
    true
}

/// Whether `p` is a suffix of `b`.
pub open spec fn spec_ends_with(b: Seq<u8>, p: Seq<u8>) -> bool {
    p.len() <= b.len() && b.subrange(b.len() - p.len(), b.len() as int) == p
}

/// Whether `a` ends with the bytes of `pat`.
pub fn bytes_ends_with(a: &[u8], pat: &[u8]) -> (r: bool)
    ensures
        r == spec_ends_with(a@, pat@),
{
    let n = pat.len();
    if n > a.len() {
        return false;
    }
    let base = a.len() - n;
    let mut i: usize = 0;
    while i < n
        invariant
            i <= n,
            n == pat@.len(),
            base == a@.len() - n,
            base + n <= usize::MAX,
            n <= a@.len(),
            forall|j: int| 0 <= j < i ==> a@[base + j] == pat@[j],
        decreases n - i,
    {
        if *vstd::slice::slice_index_get(a, base + i) != *vstd::slice::slice_index_get(pat, i) {
            assert(a@.subrange(a@.len() - n, a@.len() as int)[i as int] != pat@[i as int]);
            return false;
        }
        i = i + 1;
    }
    assert(a@.subrange(a@.len() - n, a@.len() as int) =~= pat@);
    true
}


// ---------------------------------------------------------------------------
// Compression tagging of file names
// ---------------------------------------------------------------------------
/// Relies on std's String::from_utf8: it returns Ok exactly on valid UTF-8
/// input, and the returned string is built from exactly those bytes.
#[verifier::external_body]
pub(crate) fn string_from_utf8(v: Vec<u8>) -> (r: Option<String>)
    ensures
        r is Some <==> vstd::utf8::valid_utf8(v@),
        r matches Some(s) ==> spec_string_bytes(s) == v@,
{
    String::from_utf8(v).ok()
}

/// Appends every byte of `s` to `out`.
pub(crate) fn push_all(out: &mut Vec<u8>, s: &[u8])
    ensures
        final(out)@ == old(out)@ + s@,
{
    let n = s.len();
    let mut i: usize = 0;
    while i < n
        invariant
            i <= n,
            n == s@.len(),
            out@ == old(out)@ + s@.take(i as int),
        decreases n - i,
    {
        out.push(*vstd::slice::slice_index_get(s, i));
        proof {
            assert(old(out)@ + s@.take(i as int) + seq![s@[i as int]] =~= old(out)@ + s@.take(
                i + 1,
            ));
        }
        i = i + 1;
    }
    assert(out@ =~= old(out)@ + s@);
}

/// The name left after stripping a recognized compression suffix: a ":::Raw"
/// ending goes first, else a ":::BrotliCompressed" ending, else nothing.
pub open spec fn spec_strip_name(b: Seq<u8>) -> Seq<u8> {
    if spec_ends_with(b, spec_suffix_raw()) {
        b.take(b.len() - spec_suffix_raw().len())
    } else if spec_ends_with(b, spec_suffix_brotli()) {
        b.take(b.len() - spec_suffix_brotli().len())
    } else {
        b
    }
}

/// The compression a file name declares: tagged if and only if it ends with
/// the ":::BrotliCompressed" suffix.
pub open spec fn spec_compression_of_name(b: Seq<u8>) -> PakIndexCompression {
    if spec_ends_with(b, spec_suffix_brotli()) {
        PakIndexCompression::BrotliCompressed
    } else {
        PakIndexCompression::Raw
    }
}

impl PakIndexCompression {
    /// The textual suffix that tags this compression state in a manifest.
    pub fn to_suffix(&self) -> (r: &'static str)
        ensures
            r.spec_bytes() == match *self {
                PakIndexCompression::Raw => spec_suffix_raw(),
                PakIndexCompression::BrotliCompressed => spec_suffix_brotli(),
            },
    {
        match self {
            PakIndexCompression::Raw => {
                let lit = ":::Raw";
                proof {
                    reveal_strlit(":::Raw");
                    assert(vstd::utf8::is_ascii_chars(lit@));
                    vstd::string::is_ascii_spec_bytes(lit);
                    assert(lit.spec_bytes() =~= spec_suffix_raw());
                }
                lit
            },
            PakIndexCompression::BrotliCompressed => {
                let lit = ":::BrotliCompressed";
                proof {
                    reveal_strlit(":::BrotliCompressed");
                    assert(vstd::utf8::is_ascii_chars(lit@));
                    vstd::string::is_ascii_spec_bytes(lit);
                    assert(lit.spec_bytes() =~= spec_suffix_brotli());
                }
                lit
            },
        }
    }

    /// Removes a recognized compression suffix from the end of `file_name`,
    /// if one is there.
    pub fn strip_suffix(file_name: &mut String)
        ensures
            spec_string_bytes(*final(file_name)) == spec_strip_name(spec_string_bytes(*old(file_name))),
    {
        let bytes = file_name.as_str().as_bytes();
        let raw = suffix_raw_vec();
        let brotli = suffix_brotli_vec();
        let keep: usize = if bytes_ends_with(bytes, raw.as_slice()) {
            bytes.len() - raw.len()
        } else if bytes_ends_with(bytes, brotli.as_slice()) {
            bytes.len() - brotli.len()
        } else {
            return ;
        };
        proof {
            broadcast use vstd::utf8::encode_utf8_valid_utf8;

            let b = spec_string_bytes(*file_name);
            assert(vstd::utf8::valid_utf8(b));
            assert(b[keep as int] == 0x3A);
            assert(!vstd::utf8::is_continuation_byte(0x3A)) by (bit_vector);
            vstd::utf8::is_char_boundary_iff_not_is_continuation_byte(b, keep as int);
            vstd::utf8::valid_utf8_split(b, keep as int);
            assert(vstd::utf8::valid_utf8(b.subrange(0, keep as int)));
        }
        let mut prefix = file_name.as_str().as_bytes_vec();
        prefix.truncate(keep);
        assert(prefix@ =~= spec_string_bytes(*file_name).take(keep as int));
        match string_from_utf8(prefix) {
            Some(stripped) => {
                *file_name = stripped;
            },
            None => {
                proof {
                    assert(false);
                }
            },
        }
    }

    /// The compression state a manifest file name declares.
    pub fn of_file_name(file_name: &str) -> (r: PakIndexCompression)
        ensures
            r == spec_compression_of_name(file_name.spec_bytes()),
    {
        let brotli = suffix_brotli_vec();
        if bytes_ends_with(file_name.as_bytes(), brotli.as_slice()) {
            PakIndexCompression::BrotliCompressed
        } else {
            PakIndexCompression::Raw
        }
    }
}

// ---------------------------------------------------------------------------
// The index and its serialization
// ---------------------------------------------------------------------------
/// A borrowed view of an index: header, resource entries and aliases, as the
/// serializer consumes them.
pub struct PakIndexRef<'a> {
    pub header: &'a PakHeader,
    pub entry_slice: &'a [PakIndexEntry],
    pub alias_slice: &'a [PakAlias],
}

/// An owned index: the parsed manifest, ready to drive a pack.
#[derive(Debug)]
pub struct PakIndex {
    pub header: PakHeader,
    pub entry_vec: Vec<PakIndexEntry>,
    pub alias_vec: Vec<PakAlias>,
}

/// One serialized resource line: `id=name[suffix]\r\n`.
pub open spec fn spec_entry_line(id: u16, name: Seq<u8>, comp: PakIndexCompression) -> Seq<u8> {
    spec_dec_digits(id as nat) + seq![0x3Du8] + name + (if comp is BrotliCompressed {
        spec_suffix_brotli()
    } else {
        Seq::<u8>::empty()
    }) + spec_crlf()
}

/// The serialized resource lines, in order.
pub open spec fn spec_entry_lines(entries: Seq<PakIndexEntry>) -> Seq<u8>
    decreases entries.len(),
{
    if entries.len() == 0 {
        Seq::empty()
    } else {
        spec_entry_lines(entries.drop_last()) + spec_entry_line(
            entries.last().resource_id,
            spec_string_bytes(entries.last().file_name),
            entries.last().compression,
        )
    }
}

/// One serialized alias line: `id=index\r\n`.
pub open spec fn spec_alias_line(a: PakAlias) -> Seq<u8> {
    spec_dec_digits(a.resource_id as nat) + seq![0x3Du8] + spec_dec_digits(a.entry_index as nat)
        + spec_crlf()
}

/// The serialized alias lines, in order.
pub open spec fn spec_alias_lines(aliases: Seq<PakAlias>) -> Seq<u8>
    decreases aliases.len(),
{
    if aliases.len() == 0 {
        Seq::empty()
    } else {
        spec_alias_lines(aliases.drop_last()) + spec_alias_line(aliases.last())
    }
}

/// The fixed opening of every manifest: the `[Global]` section with version
/// and encoding, a blank line, and the `[Resources]` header line.
pub open spec fn spec_manifest_head(header: PakHeader) -> Seq<u8> {
    seq![0x5Bu8] + spec_global_tag() + seq![0x5Du8] + spec_crlf() + spec_version_key() + seq![
        0x3Du8,
    ] + spec_dec_digits(header.spec_version() as nat) + spec_crlf() + spec_encoding_key() + seq![
        0x3Du8,
    ] + spec_dec_digits(header.spec_encoding() as nat) + spec_crlf() + spec_crlf() + seq![0x5Bu8]
        + spec_res_tag() + seq![0x5Du8] + spec_crlf()
}

/// The complete serialized manifest. The `[Alias]` section is omitted
/// entirely when there is no alias.
pub open spec fn spec_manifest_bytes(
    header: PakHeader,
    entries: Seq<PakIndexEntry>,
    aliases: Seq<PakAlias>,
) -> Seq<u8> {
    spec_manifest_head(header) + spec_entry_lines(entries) + (if aliases.len() == 0 {
        Seq::<u8>::empty()
    } else {
        spec_crlf() + seq![0x5Bu8] + spec_alias_tag() + seq![0x5Du8] + spec_crlf()
            + spec_alias_lines(aliases)
    })
}

/// Appends `[tag]\r\n`.
fn push_tag_line(out: &mut Vec<u8>, tag: &Vec<u8>)
    ensures
        final(out)@ == old(out)@ + seq![0x5Bu8] + tag@ + seq![0x5Du8] + spec_crlf(),
{
    out.push(0x5B);
    push_all(out, tag.as_slice());
    out.push(0x5D);
    out.push(13);
    out.push(10);
    assert(final(out)@ =~= old(out)@ + seq![0x5Bu8] + tag@ + seq![0x5Du8] + spec_crlf());
}

/// Appends `key=value\r\n` for a numeric value.
fn push_num_property(out: &mut Vec<u8>, key: &Vec<u8>, value: u32)
    ensures
        final(out)@ == old(out)@ + key@ + seq![0x3Du8] + spec_dec_digits(value as nat)
            + spec_crlf(),
{
    push_all(out, key.as_slice());
    out.push(0x3D);
    push_dec_u32(out, value);
    out.push(13);
    out.push(10);
    assert(final(out)@ =~= old(out)@ + key@ + seq![0x3Du8] + spec_dec_digits(value as nat)
        + spec_crlf());
}

/// Bytes one resource entry adds to the capacity estimate.
pub open spec fn spec_entry_calc(e: PakIndexEntry) -> int {
    spec_dec_digits(e.resource_id as nat).len() + 3 + spec_string_bytes(e.file_name).len() + (
    if e.compression is BrotliCompressed {
        spec_suffix_brotli().len() as int
    } else {
        0
    })
}

/// Bytes the resource entries add to the capacity estimate.
pub open spec fn spec_entries_calc(entries: Seq<PakIndexEntry>) -> int
    decreases entries.len(),
{
    if entries.len() == 0 {
        0
    } else {
        spec_entries_calc(entries.drop_last()) + spec_entry_calc(entries.last())
    }
}

/// Bytes one alias adds to the capacity estimate.
pub open spec fn spec_alias_calc(a: PakAlias) -> int {
    spec_dec_digits(a.resource_id as nat).len() + 3 + spec_dec_digits(
        a.entry_index as nat,
    ).len() as int
}

/// Bytes the aliases add to the capacity estimate.
pub open spec fn spec_aliases_calc(aliases: Seq<PakAlias>) -> int
    decreases aliases.len(),
{
    if aliases.len() == 0 {
        0
    } else {
        spec_aliases_calc(aliases.drop_last()) + spec_alias_calc(aliases.last())
    }
}

/// The capacity estimate for a serialized manifest. It counts one digit for
/// the version and encoding values and rounds the section bookkeeping up,
/// so it is an estimate and not always the exact length.
pub open spec fn spec_calc_ini_byte_size(
    entries: Seq<PakIndexEntry>,
    aliases: Seq<PakAlias>,
) -> int {
    spec_global_tag().len() + spec_res_tag().len() + 12 + spec_version_key().len() + 4
        + spec_encoding_key().len() + 4 + (if aliases.len() == 0 {
        0
    } else {
        spec_alias_tag().len() + 8
    }) + spec_entries_calc(entries) + spec_aliases_calc(aliases)
}

proof fn lemma_entry_calc_nonneg(e: PakIndexEntry)
    ensures
        spec_entry_calc(e) >= 0,
{
}

proof fn lemma_entries_calc_nonneg(entries: Seq<PakIndexEntry>)
    ensures
        spec_entries_calc(entries) >= 0,
    decreases entries.len(),
{
    if entries.len() > 0 {
        lemma_entries_calc_nonneg(entries.drop_last());
        lemma_entry_calc_nonneg(entries.last());
    }
}

proof fn lemma_entries_calc_prefix(entries: Seq<PakIndexEntry>, m: int)
    requires
        0 <= m <= entries.len(),
    ensures
        spec_entries_calc(entries.take(m)) <= spec_entries_calc(entries),
        spec_entries_calc(entries.take(m)) >= 0,
    decreases entries.len() - m,
{
    lemma_entries_calc_nonneg(entries.take(m));
    if m == entries.len() {
        assert(entries.take(m) =~= entries);
    } else {
        lemma_entries_calc_prefix(entries, m + 1);
        let u = entries.take(m + 1);
        assert(u.drop_last() =~= entries.take(m));
        lemma_entry_calc_nonneg(u.last());
    }
}

proof fn lemma_aliases_calc_nonneg(aliases: Seq<PakAlias>)
    ensures
        spec_aliases_calc(aliases) >= 0,
    decreases aliases.len(),
{
    if aliases.len() > 0 {
        lemma_aliases_calc_nonneg(aliases.drop_last());
    }
}

proof fn lemma_aliases_calc_prefix(aliases: Seq<PakAlias>, m: int)
    requires
        0 <= m <= aliases.len(),
    ensures
        spec_aliases_calc(aliases.take(m)) <= spec_aliases_calc(aliases),
        spec_aliases_calc(aliases.take(m)) >= 0,
    decreases aliases.len() - m,
{
    lemma_aliases_calc_nonneg(aliases.take(m));
    if m == aliases.len() {
        assert(aliases.take(m) =~= aliases);
    } else {
        lemma_aliases_calc_prefix(aliases, m + 1);
        let u = aliases.take(m + 1);
        assert(u.drop_last() =~= aliases.take(m));
    }
}

impl<'a> PakIndexRef<'a> {
    /// A capacity estimate for the serialized manifest, so the byte vector
    /// can be allocated in one piece.
    pub fn calc_ini_byte_size(&self) -> (r: usize)
        requires
            spec_calc_ini_byte_size(self.entry_slice@, self.alias_slice@) <= usize::MAX,
        ensures
            r == spec_calc_ini_byte_size(self.entry_slice@, self.alias_slice@),
    {
        proof {
            lemma_entries_calc_prefix(self.entry_slice@, self.entry_slice@.len() as int);
            lemma_aliases_calc_prefix(self.alias_slice@, self.alias_slice@.len() as int);
        }
        // 12: []\r\n * 2 + \r\n\r\n
        let mut buf_size: usize = 6 + 9 + 12;
        // 4: = \r\n + version number
        buf_size = buf_size + 7 + 4;
        // 4: = \r\n + encoding number
        buf_size = buf_size + 8 + 4;
        if !self.alias_slice.is_empty() {
            // 8: \r\n\r\n + []\r\n
            buf_size = buf_size + 5 + 8;
        }
        let n = self.entry_slice.len();
        let mut i: usize = 0;
        while i < n
            invariant
                i <= n,
                n == self.entry_slice@.len(),
                buf_size == spec_calc_ini_byte_size(self.entry_slice@, self.alias_slice@)
                    - spec_entries_calc(self.entry_slice@) - spec_aliases_calc(self.alias_slice@)
                    + spec_entries_calc(self.entry_slice@.take(i as int)),
                spec_calc_ini_byte_size(self.entry_slice@, self.alias_slice@) <= usize::MAX,
            decreases n - i,
        {
            let entry = &self.entry_slice[i];
            proof {
                lemma_entries_calc_prefix(self.entry_slice@, i + 1);
                lemma_aliases_calc_prefix(self.alias_slice@, self.alias_slice@.len() as int);
                assert(self.entry_slice@.take(i + 1).drop_last() =~= self.entry_slice@.take(
                    i as int,
                ));
            }
            // 3: =\r\n
            buf_size = buf_size + number_digit_count_u16(entry.resource_id) + 3;
            buf_size = buf_size + entry.file_name.as_str().len();
            if matches!(entry.compression, PakIndexCompression::BrotliCompressed) {
                buf_size = buf_size + 19;
            }
            i = i + 1;
        }
        proof {
            assert(self.entry_slice@.take(n as int) =~= self.entry_slice@);
        }
        let m = self.alias_slice.len();
        let mut j: usize = 0;
        while j < m
            invariant
                j <= m,
                m == self.alias_slice@.len(),
                buf_size == spec_calc_ini_byte_size(self.entry_slice@, self.alias_slice@)
                    - spec_aliases_calc(self.alias_slice@) + spec_aliases_calc(
                    self.alias_slice@.take(j as int),
                ),
                spec_calc_ini_byte_size(self.entry_slice@, self.alias_slice@) <= usize::MAX,
            decreases m - j,
        {
            let alias = &self.alias_slice[j];
            proof {
                lemma_aliases_calc_prefix(self.alias_slice@, j + 1);
                assert(self.alias_slice@.take(j + 1).drop_last() =~= self.alias_slice@.take(
                    j as int,
                ));
            }
            // 3: =\r\n
            buf_size = buf_size + number_digit_count_u16(alias.resource_id) + 3;
            buf_size = buf_size + number_digit_count_u16(alias.entry_index);
            j = j + 1;
        }
        proof {
            assert(self.alias_slice@.take(m as int) =~= self.alias_slice@);
        }
        buf_size
    }

    /// Serializes the index to manifest bytes, in the exact grammar the
    /// parser reads back.
    pub fn to_ini_bytes(&self) -> (r: Vec<u8>)
        ensures
            r@ == spec_manifest_bytes(*self.header, self.entry_slice@, self.alias_slice@),
    {
        let mut vec: Vec<u8> = Vec::new();
        // [Global]\r\n
        let gtag = global_tag_vec();
        push_tag_line(&mut vec, &gtag);
        // version=?\r\n
        let vkey = version_key_vec();
        push_num_property(&mut vec, &vkey, self.header.read_version());
        // encoding=?\r\n
        let ekey = encoding_key_vec();
        push_num_property(&mut vec, &ekey, self.header.read_encoding() as u32);
        // \r\n
        vec.push(13);
        vec.push(10);
        // [Resources]\r\n
        let rtag = res_tag_vec();
        push_tag_line(&mut vec, &rtag);
        assert(vec@ =~= spec_manifest_head(*self.header));
        // {resource_id}={file_name}\r\n
        let n = self.entry_slice.len();
        let mut i: usize = 0;
        let suffix = suffix_brotli_vec();
        while i < n
            invariant
                i <= n,
                n == self.entry_slice@.len(),
                suffix@ == spec_suffix_brotli(),
                vec@ == spec_manifest_head(*self.header) + spec_entry_lines(
                    self.entry_slice@.take(i as int),
                ),
            decreases n - i,
        {
            let ghost prior = vec@;
            let entry = &self.entry_slice[i];
            push_dec_u32(&mut vec, entry.resource_id as u32);
            vec.push(0x3D);
            push_all(&mut vec, entry.file_name.as_str().as_bytes());
            if matches!(entry.compression, PakIndexCompression::BrotliCompressed) {
                push_all(&mut vec, suffix.as_slice());
            }
            vec.push(13);
            vec.push(10);
            proof {
                let e = self.entry_slice@[i as int];
                assert(vec@ =~= prior + spec_entry_line(
                    e.resource_id,
                    spec_string_bytes(e.file_name),
                    e.compression,
                ));
                assert(self.entry_slice@.take(i + 1).drop_last() =~= self.entry_slice@.take(
                    i as int,
                ));
                assert(self.entry_slice@.take(i + 1).last() == e);
                assert(prior + spec_entry_line(
                    e.resource_id,
                    spec_string_bytes(e.file_name),
                    e.compression,
                ) =~= spec_manifest_head(*self.header) + spec_entry_lines(
                    self.entry_slice@.take(i + 1),
                ));
            }
            i = i + 1;
        }
        proof {
            assert(self.entry_slice@.take(n as int) =~= self.entry_slice@);
        }
        if self.alias_slice.is_empty() {
            proof {
                assert(vec@ =~= spec_manifest_bytes(
                    *self.header,
                    self.entry_slice@,
                    self.alias_slice@,
                ));
            }
            return vec;
        }
        // \r\n
        vec.push(13);
        vec.push(10);
        // [Alias]\r\n
        let atag = alias_tag_vec();
        push_tag_line(&mut vec, &atag);
        let ghost alias_head = spec_manifest_head(*self.header) + spec_entry_lines(
            self.entry_slice@,
        ) + spec_crlf() + seq![0x5Bu8] + spec_alias_tag() + seq![0x5Du8] + spec_crlf();
        assert(vec@ =~= alias_head);
        // {resource_id}={entry_index}\r\n
        let m = self.alias_slice.len();
        let mut j: usize = 0;
        while j < m
            invariant
                j <= m,
                m == self.alias_slice@.len(),
                alias_head == spec_manifest_head(*self.header) + spec_entry_lines(
                    self.entry_slice@,
                ) + spec_crlf() + seq![0x5Bu8] + spec_alias_tag() + seq![0x5Du8] + spec_crlf(),
                vec@ == alias_head + spec_alias_lines(self.alias_slice@.take(j as int)),
            decreases m - j,
        {
            let ghost prior = vec@;
            let alias = &self.alias_slice[j];
            push_dec_u32(&mut vec, alias.resource_id as u32);
            vec.push(0x3D);
            push_dec_u32(&mut vec, alias.entry_index as u32);
            vec.push(13);
            vec.push(10);
            proof {
                let a = self.alias_slice@[j as int];
                assert(vec@ =~= prior + spec_alias_line(a));
                assert(self.alias_slice@.take(j + 1).drop_last() =~= self.alias_slice@.take(
                    j as int,
                ));
                assert(self.alias_slice@.take(j + 1).last() == a);
                assert(prior + spec_alias_line(a) =~= alias_head + spec_alias_lines(
                    self.alias_slice@.take(j + 1),
                ));
            }
            j = j + 1;
        }
        proof {
            assert(self.alias_slice@.take(m as int) =~= self.alias_slice@);
            assert(vec@ =~= spec_manifest_bytes(
                *self.header,
                self.entry_slice@,
                self.alias_slice@,
            ));
        }
        vec
    }
}

impl PakIndex {
    /// Borrows the index as the serializer's view of it.
    pub fn as_pak_index_ref(&self) -> (r: PakIndexRef)
        ensures
            *r.header == self.header,
            r.entry_slice@ == self.entry_vec@,
            r.alias_slice@ == self.alias_vec@,
    {
        PakIndexRef {
            header: &self.header,
            entry_slice: self.entry_vec.as_slice(),
            alias_slice: self.alias_vec.as_slice(),
        }
    }
}



// ---------------------------------------------------------------------------
// The manifest parser
// ---------------------------------------------------------------------------
/// Whether `b` ends a line: carriage return or line feed.
pub open spec fn spec_is_nl(b: u8) -> bool {
    b == 13 || b == 10
}

/// The first position at or after `pos` holding a newline byte, or the end.
pub open spec fn spec_find_nl(b: Seq<u8>, pos: int) -> int
    decreases b.len() - pos,
{
    if pos >= b.len() {
        b.len() as int
    } else if spec_is_nl(b[pos]) {
        pos
    } else {
        spec_find_nl(b, pos + 1)
    }
}

/// The first position at or after `pos` holding `t`, or the end.
pub open spec fn spec_find_byte(b: Seq<u8>, pos: int, t: u8) -> int
    decreases b.len() - pos,
{
    if pos >= b.len() {
        b.len() as int
    } else if b[pos] == t {
        pos
    } else {
        spec_find_byte(b, pos + 1, t)
    }
}

/// The position after the line terminator at `i`: one optional carriage
/// return, then one optional line feed.
pub open spec fn spec_skip_nl(b: Seq<u8>, i: int) -> int {
    let j = if i < b.len() && b[i] == 13 {
        i + 1
    } else {
        i
    };
    if j < b.len() && b[j] == 10 {
        j + 1
    } else {
        j
    }
}

proof fn lemma_find_nl_ge(b: Seq<u8>, pos: int)
    requires
        0 <= pos <= b.len(),
    ensures
        spec_find_nl(b, pos) >= pos,
        spec_find_nl(b, pos) <= b.len(),
        spec_find_nl(b, pos) == pos && pos < b.len() ==> spec_is_nl(b[pos]),
    decreases b.len() - pos,
{
    if pos < b.len() && !spec_is_nl(b[pos]) {
        lemma_find_nl_ge(b, pos + 1);
    }
}

/// One parsed manifest resource, at the level of raw bytes.
pub ghost struct SpecIndexEntry {
    pub resource_id: u16,
    pub name: Seq<u8>,
    pub compression: PakIndexCompression,
}

/// The parser's running state: current section, global properties, and what
/// has been collected so far.
pub ghost struct SpecIndexState {
    pub status: PakIndexStatus,
    pub version: u32,
    pub encoding: u8,
    pub entries: Seq<SpecIndexEntry>,
    pub aliases: Seq<PakAlias>,
}

/// The failures the manifest parser can report, at the level of raw bytes.
pub ghost enum SpecIndexErr {
    Parse(Seq<u8>),
    UnknownTag(Seq<u8>),
    UnknownProperty(PakIndexStatus, Seq<u8>, Seq<u8>),
    BadVersion(Seq<u8>),
    BadEncoding(Seq<u8>),
    UnsupportedVersion(u32),
    BadResourceId(Seq<u8>),
    AliasNotSupported(u32),
    AliasBadResourceId(Seq<u8>, Seq<u8>),
    AliasBadEntryIndex(Seq<u8>, Seq<u8>),
    UnknownAction(PakIndexStatus, Seq<u8>),
}

/// Whether the executable error `e` reports exactly the ghost failure `m`.
pub open spec fn spec_err_matches(e: PakError, m: SpecIndexErr) -> bool {
    match m {
        SpecIndexErr::Parse(t) => e matches PakError::PakIndexParseError(v) && v@ == t,
        SpecIndexErr::UnknownTag(t) => e matches PakError::PakIndexUnknownTag(v) && v@ == t,
        SpecIndexErr::UnknownProperty(st, k, val) => e matches PakError::PakIndexUnknownProperty(
            s2,
            kv,
            vv,
        ) && s2 == st && kv@ == k && vv@ == val,
        SpecIndexErr::BadVersion(t) => e matches PakError::PakIndexBadVersion(v) && v@ == t,
        SpecIndexErr::BadEncoding(t) => e matches PakError::PakIndexBadEncoding(v) && v@ == t,
        SpecIndexErr::UnsupportedVersion(u) => e matches PakError::UnsupportedVersion(u2) && u2
            == u,
        SpecIndexErr::BadResourceId(t) => e matches PakError::PakIndexBadResourceId(v) && v@ == t,
        SpecIndexErr::AliasNotSupported(u) => e matches PakError::PakIndexAliasNotSupported(u2)
            && u2 == u,
        SpecIndexErr::AliasBadResourceId(k, val) => e matches PakError::PakIndexAliasBadResourceId(
            kv,
            vv,
        ) && kv@ == k && vv@ == val,
        SpecIndexErr::AliasBadEntryIndex(k, val) => e matches PakError::PakIndexAliasBadEntryIndex(
            kv,
            vv,
        ) && kv@ == k && vv@ == val,
        SpecIndexErr::UnknownAction(st, l) => e matches PakError::PakIndexUnknownAction(s2, v)
            && s2 == st && v@ == l,
    }
}

/// The state before any line is read.
pub open spec fn spec_init_state() -> SpecIndexState {
    SpecIndexState {
        status: PakIndexStatus::Init,
        version: 0,
        encoding: 0,
        entries: Seq::empty(),
        aliases: Seq::empty(),
    }
}

/// What one manifest line does to the parser state. Blank lines and comment
/// lines are skipped; section lines switch the section; property lines add
/// to it; anything else aborts the parse.
pub open spec fn spec_line_step(st: SpecIndexState, line: Seq<u8>) -> Result<
    SpecIndexState,
    SpecIndexErr,
> {
    if line.len() == 0 {
        Ok(st)
    } else if line[0] == 0x3B {
        Ok(st)
    } else if line[0] == 0x5B {
        if line.last() != 0x5D {
            Err(SpecIndexErr::Parse(line))
        } else {
            let name = line.subrange(1, line.len() - 1);
            if name == spec_global_tag() {
                Ok(SpecIndexState { status: PakIndexStatus::Global, ..st })
            } else if name == spec_res_tag() {
                Ok(SpecIndexState { status: PakIndexStatus::Resource, ..st })
            } else if name == spec_alias_tag() {
                Ok(SpecIndexState { status: PakIndexStatus::Alias, ..st })
            } else {
                Err(SpecIndexErr::UnknownTag(name))
            }
        }
    } else {
        let eq = spec_find_byte(line, 0, 0x3D);
        if eq < line.len() {
            let key = line.subrange(0, eq);
            let value = line.subrange(eq + 1, line.len() as int);
            match st.status {
                PakIndexStatus::Init => Err(
                    SpecIndexErr::UnknownProperty(PakIndexStatus::Init, key, value),
                ),
                PakIndexStatus::Global => {
                    if key == spec_version_key() {
                        match spec_parse_uint_capped(value, u32::MAX as int) {
                            Some(n) => if n == PAK_VERSION_V4 || n == PAK_VERSION_V5 {
                                Ok(SpecIndexState { version: n as u32, ..st })
                            } else {
                                Err(SpecIndexErr::UnsupportedVersion(n as u32))
                            },
                            None => Err(SpecIndexErr::BadVersion(value)),
                        }
                    } else if key == spec_encoding_key() {
                        match spec_parse_uint_capped(value, u8::MAX as int) {
                            Some(n) => Ok(SpecIndexState { encoding: n as u8, ..st }),
                            None => Err(SpecIndexErr::BadEncoding(value)),
                        }
                    } else {
                        Err(SpecIndexErr::UnknownProperty(PakIndexStatus::Global, key, value))
                    }
                },
                PakIndexStatus::Resource => {
                    match spec_parse_uint_capped(key, u16::MAX as int) {
                        None => Err(SpecIndexErr::BadResourceId(key)),
                        Some(id) => {
                            let name = spec_strip_name(value);
                            if vstd::utf8::valid_utf8(name) {
                                Ok(
                                    SpecIndexState {
                                        entries: st.entries.push(
                                            SpecIndexEntry {
                                                resource_id: id as u16,
                                                name,
                                                compression: spec_compression_of_name(value),
                                            },
                                        ),
                                        ..st
                                    },
                                )
                            } else {
                                Err(SpecIndexErr::Parse(value))
                            }
                        },
                    }
                },
                PakIndexStatus::Alias => {
                    if st.version == PAK_VERSION_V4 {
                        Err(SpecIndexErr::AliasNotSupported(PAK_VERSION_V4))
                    } else {
                        match spec_parse_uint_capped(key, u16::MAX as int) {
                            None => Err(SpecIndexErr::AliasBadResourceId(key, value)),
                            Some(rid) => match spec_parse_uint_capped(value, u16::MAX as int) {
                                None => Err(SpecIndexErr::AliasBadEntryIndex(key, value)),
                                Some(idx) => Ok(
                                    SpecIndexState {
                                        aliases: st.aliases.push(
                                            PakAlias {
                                                resource_id: rid as u16,
                                                entry_index: idx as u16,
                                            },
                                        ),
                                        ..st
                                    },
                                ),
                            },
                        }
                    }
                },
            }
        } else {
            Err(SpecIndexErr::UnknownAction(st.status, line))
        }
    }
}

/// What parsing the manifest from `pos` on does to the state `st`: one line
/// at a time, stopping at the first failing line.
pub open spec fn spec_parse_ini(b: Seq<u8>, pos: int, st: SpecIndexState) -> Result<
    SpecIndexState,
    SpecIndexErr,
>
    decreases b.len() - pos,
    via spec_parse_ini_decreases
{
    if pos >= b.len() {
        Ok(st)
    } else {
        let i = spec_find_nl(b, pos);
        match spec_line_step(st, b.subrange(pos, i)) {
            Err(e) => Err(e),
            Ok(st2) => spec_parse_ini(b, spec_skip_nl(b, i), st2),
        }
    }
}

#[via_fn]
proof fn spec_parse_ini_decreases(b: Seq<u8>, pos: int, st: SpecIndexState) {
    if pos < b.len() {
        lemma_find_nl_ge_total(b, pos);
    }
}

proof fn lemma_find_nl_ge_total(b: Seq<u8>, pos: int)
    requires
        pos < b.len(),
    ensures
        spec_find_nl(b, pos) >= pos,
        spec_find_nl(b, pos) <= b.len(),
        spec_skip_nl(b, spec_find_nl(b, pos)) > pos,
        spec_skip_nl(b, spec_find_nl(b, pos)) <= b.len(),
    decreases b.len() - pos,
{
    if !spec_is_nl(b[pos]) {
        if pos + 1 < b.len() {
            lemma_find_nl_ge_total(b, pos + 1);
        } else {
            assert(spec_find_nl(b, pos + 1) == b.len());
        }
    }
}

/// The header that a finished parse derives: counts from what was collected,
/// the layout from the version property.
pub open spec fn spec_built_header(st: SpecIndexState) -> PakHeader {
    let rc = (((st.entries.len() as u64) & 0xFFFFFFFF) as u32);
    let ac = (((st.aliases.len() as u64) & 0xFFFF) as u16);
    if st.version == PAK_VERSION_V5 {
        PakHeader::V5(
            PakHeaderV5 {
                version: PAK_VERSION_V5,
                encoding: st.encoding,
                _padding: [0, 0, 0],
                resource_count: (rc & 0xFFFF) as u16,
                alias_count: ac,
            },
        )
    } else {
        PakHeader::V4(
            PakHeaderV4 { version: PAK_VERSION_V4, resource_count: rc, encoding: st.encoding },
        )
    }
}

/// A parsed manifest: the derived header and everything collected.
pub ghost struct SpecManifest {
    pub header: PakHeader,
    pub entries: Seq<SpecIndexEntry>,
    pub aliases: Seq<PakAlias>,
}

/// What parsing a whole manifest yields. Aliases demand the v5 layout: a
/// manifest whose version is not 5 but which collected aliases is rejected,
/// never silently stripped.
pub open spec fn spec_from_ini(b: Seq<u8>) -> Result<SpecManifest, SpecIndexErr> {
    match spec_parse_ini(b, 0, spec_init_state()) {
        Err(e) => Err(e),
        Ok(st) => {
            if st.version != PAK_VERSION_V5 && st.aliases.len() > 0 {
                Err(SpecIndexErr::AliasNotSupported(st.version))
            } else {
                Ok(
                    SpecManifest {
                        header: spec_built_header(st),
                        entries: st.entries,
                        aliases: st.aliases,
                    },
                )
            }
        },
    }
}

/// The ghost image of the entries collected so far.
pub open spec fn spec_entries_of(v: Seq<PakIndexEntry>) -> Seq<SpecIndexEntry> {
    Seq::new(
        v.len(),
        |i: int|
            SpecIndexEntry {
                resource_id: v[i].resource_id,
                name: spec_string_bytes(v[i].file_name),
                compression: v[i].compression,
            },
    )
}

/// Finds the next newline byte at or after `pos`.
fn find_nl(buf: &[u8], pos: usize) -> (r: usize)
    requires
        pos <= buf@.len(),
    ensures
        r == spec_find_nl(buf@, pos as int),
        pos <= r <= buf@.len(),
{
    let n = buf.len();
    let mut i: usize = pos;
    while i < n
        invariant
            pos <= i <= n,
            n == buf@.len(),
            spec_find_nl(buf@, pos as int) == spec_find_nl(buf@, i as int),
        decreases n - i,
    {
        let b = *vstd::slice::slice_index_get(buf, i);
        if b == 13 || b == 10 {
            proof {
                lemma_find_nl_ge(buf@, pos as int);
            }
            return i;
        }
        i = i + 1;
    }
    proof {
        lemma_find_nl_ge(buf@, pos as int);
    }
    n
}

/// Finds the first `=` in `line`, or its end.
fn find_eq(line: &[u8]) -> (r: usize)
    ensures
        r == spec_find_byte(line@, 0, 0x3D),
        r <= line@.len(),
        r < line@.len() ==> line@[r as int] == 0x3D,
{
    let n = line.len();
    let mut i: usize = 0;
    while i < n
        invariant
            i <= n,
            n == line@.len(),
            spec_find_byte(line@, 0, 0x3D) == spec_find_byte(line@, i as int, 0x3D),
        decreases n - i,
    {
        if *vstd::slice::slice_index_get(line, i) == 0x3D {
            return i;
        }
        i = i + 1;
    }
    n
}

/// Steps past the line terminator at `i`: one optional carriage return and
/// one optional line feed.
fn skip_nl(buf: &[u8], i: usize) -> (r: usize)
    requires
        i <= buf@.len(),
    ensures
        r == spec_skip_nl(buf@, i as int),
        i <= r <= buf@.len(),
        i < buf@.len() && spec_is_nl(buf@[i as int]) ==> r > i,
{
    let n = buf.len();
    let mut j = i;
    if j < n && *vstd::slice::slice_index_get(buf, j) == 13 {
        j = j + 1;
    }
    if j < n && *vstd::slice::slice_index_get(buf, j) == 10 {
        j = j + 1;
    }
    j
}

impl PakIndex {
    /// Parses a manifest. The whole text must parse; the first offending
    /// line aborts with its error, and nothing partial is returned.
    #[verifier::rlimit(60)]
    #[verifier::spinoff_prover]
    pub fn from_ini_buf(buf: &[u8]) -> (r: Result<PakIndex, PakError>)
        ensures
            match r {
                Ok(idx) => match spec_from_ini(buf@) {
                    Ok(m) => {
                        &&& idx.header == m.header
                        &&& spec_entries_of(idx.entry_vec@) == m.entries
                        &&& idx.alias_vec@ == m.aliases
                    },
                    Err(_) => false,
                },
                Err(e) => match spec_from_ini(buf@) {
                    Ok(_) => false,
                    Err(me) => spec_err_matches(e, me),
                },
            },
    {
        let gtag = global_tag_vec();
        let rtag = res_tag_vec();
        let atag = alias_tag_vec();
        let vkey = version_key_vec();
        let ekey = encoding_key_vec();
        let sfx_brotli = suffix_brotli_vec();
        let sfx_raw = suffix_raw_vec();
        let mut status = PakIndexStatus::Init;
        let mut entry_vec: Vec<PakIndexEntry> = Vec::new();
        let mut alias_vec: Vec<PakAlias> = Vec::new();
        let mut version: u32 = 0;
        let mut encoding: u8 = 0;
        let mut pos: usize = 0;
        proof {
            assert(spec_entries_of(entry_vec@) =~= Seq::<SpecIndexEntry>::empty());
        }
        while pos < buf.len()
            invariant
                pos <= buf@.len(),
                gtag@ == spec_global_tag(),
                rtag@ == spec_res_tag(),
                atag@ == spec_alias_tag(),
                vkey@ == spec_version_key(),
                ekey@ == spec_encoding_key(),
                sfx_brotli@ == spec_suffix_brotli(),
                sfx_raw@ == spec_suffix_raw(),
                spec_parse_ini(buf@, 0, spec_init_state()) == spec_parse_ini(
                    buf@,
                    pos as int,
                    SpecIndexState {
                        status,
                        version,
                        encoding,
                        entries: spec_entries_of(entry_vec@),
                        aliases: alias_vec@,
                    },
                ),
            decreases buf@.len() - pos,
        {
            let ghost st_cur = SpecIndexState {
                status,
                version,
                encoding,
                entries: spec_entries_of(entry_vec@),
                aliases: alias_vec@,
            };
            let nl = find_nl(buf, pos);
            let line = vstd::slice::slice_subrange(buf, pos, nl);
            let n = line.len();
            if n == 0 {
                // blank line
            } else if *vstd::slice::slice_index_get(line, 0) == 0x3B {
                // comment line
            } else if *vstd::slice::slice_index_get(line, 0) == 0x5B {
                if *vstd::slice::slice_index_get(line, n - 1) != 0x5D {
                    assert(line@.last() != 0x5D);
                    return Err(PakError::PakIndexParseError(vstd::slice::slice_to_vec(line)));
                }
                let name = vstd::slice::slice_subrange(line, 1, n - 1);
                if bytes_eq(name, gtag.as_slice()) {
                    status = PakIndexStatus::Global;
                } else if bytes_eq(name, rtag.as_slice()) {
                    status = PakIndexStatus::Resource;
                } else if bytes_eq(name, atag.as_slice()) {
                    status = PakIndexStatus::Alias;
                } else {
                    return Err(PakError::PakIndexUnknownTag(vstd::slice::slice_to_vec(name)));
                }
            } else {
                let eq = find_eq(line);
                if eq < n {
                    let key = vstd::slice::slice_subrange(line, 0, eq);
                    let value = vstd::slice::slice_subrange(line, eq + 1, n);
                    match status {
                        PakIndexStatus::Init => {
                            return Err(
                                PakError::PakIndexUnknownProperty(
                                    status,
                                    vstd::slice::slice_to_vec(key),
                                    vstd::slice::slice_to_vec(value),
                                ),
                            );
                        },
                        PakIndexStatus::Global => {
                            if bytes_eq(key, vkey.as_slice()) {
                                match parse_u32_bytes(value) {
                                    Some(v) => {
                                        if v == PAK_VERSION_V4 || v == PAK_VERSION_V5 {
                                            version = v;
                                        } else {
                                            return Err(PakError::UnsupportedVersion(v));
                                        }
                                    },
                                    None => {
                                        return Err(
                                            PakError::PakIndexBadVersion(
                                                vstd::slice::slice_to_vec(value),
                                            ),
                                        );
                                    },
                                }
                            } else if bytes_eq(key, ekey.as_slice()) {
                                match parse_u8_bytes(value) {
                                    Some(e) => {
                                        encoding = e;
                                    },
                                    None => {
                                        return Err(
                                            PakError::PakIndexBadEncoding(
                                                vstd::slice::slice_to_vec(value),
                                            ),
                                        );
                                    },
                                }
                            } else {
                                return Err(
                                    PakError::PakIndexUnknownProperty(
                                        status,
                                        vstd::slice::slice_to_vec(key),
                                        vstd::slice::slice_to_vec(value),
                                    ),
                                );
                            }
                        },
                        PakIndexStatus::Resource => {
                            let resource_id = match parse_u16_bytes(key) {
                                Some(num) => num,
                                None => {
                                    return Err(
                                        PakError::PakIndexBadResourceId(
                                            vstd::slice::slice_to_vec(key),
                                        ),
                                    );
                                },
                            };
                            let compression = if bytes_ends_with(value, sfx_brotli.as_slice()) {
                                PakIndexCompression::BrotliCompressed
                            } else {
                                PakIndexCompression::Raw
                            };
                            let keep: usize = if bytes_ends_with(value, sfx_raw.as_slice()) {
                                value.len() - sfx_raw.len()
                            } else if bytes_ends_with(value, sfx_brotli.as_slice()) {
                                value.len() - sfx_brotli.len()
                            } else {
                                value.len()
                            };
                            let name_bytes = vstd::slice::slice_to_vec(
                                vstd::slice::slice_subrange(value, 0, keep),
                            );
                            assert(name_bytes@ =~= spec_strip_name(value@));
                            match string_from_utf8(name_bytes) {
                                Some(file_name) => {
                                    let ghost prior = spec_entries_of(entry_vec@);
                                    entry_vec.push(
                                        PakIndexEntry { resource_id, file_name, compression },
                                    );
                                    proof {
                                        assert(spec_entries_of(entry_vec@) =~= prior.push(
                                            SpecIndexEntry {
                                                resource_id,
                                                name: spec_strip_name(value@),
                                                compression,
                                            },
                                        ));
                                    }
                                },
                                None => {
                                    return Err(
                                        PakError::PakIndexParseError(
                                            vstd::slice::slice_to_vec(value),
                                        ),
                                    );
                                },
                            }
                        },
                        PakIndexStatus::Alias => {
                            if version == PAK_VERSION_V4 {
                                return Err(PakError::PakIndexAliasNotSupported(version));
                            }
                            let resource_id = match parse_u16_bytes(key) {
                                Some(num) => num,
                                None => {
                                    return Err(
                                        PakError::PakIndexAliasBadResourceId(
                                            vstd::slice::slice_to_vec(key),
                                            vstd::slice::slice_to_vec(value),
                                        ),
                                    );
                                },
                            };
                            let entry_index = match parse_u16_bytes(value) {
                                Some(num) => num,
                                None => {
                                    return Err(
                                        PakError::PakIndexAliasBadEntryIndex(
                                            vstd::slice::slice_to_vec(key),
                                            vstd::slice::slice_to_vec(value),
                                        ),
                                    );
                                },
                            };
                            alias_vec.push(PakAlias { resource_id, entry_index });
                        },
                    }
                } else {
                    return Err(
                        PakError::PakIndexUnknownAction(status, vstd::slice::slice_to_vec(line)),
                    );
                }
            }
            proof {
                lemma_find_nl_ge(buf@, pos as int);
            }
            pos = skip_nl(buf, nl);
        }
        let ghost st_end = SpecIndexState {
            status,
            version,
            encoding,
            entries: spec_entries_of(entry_vec@),
            aliases: alias_vec@,
        };
        assert(spec_parse_ini(buf@, 0, spec_init_state()) == Ok::<SpecIndexState, SpecIndexErr>(
            st_end,
        ));
        if alias_vec.len() > 0 && version != PAK_VERSION_V5 {
            return Err(PakError::PakIndexAliasNotSupported(version));
        }
        let mut header = if version == PAK_VERSION_V5 {
            PakHeader::V5(PakHeaderV5::new())
        } else {
            // any other collected version value derives the v4 layout
            PakHeader::V4(PakHeaderV4::new())
        };
        header.write_encoding(encoding);
        let full: u64 = entry_vec.len() as u64;
        assert(full & 0xFFFFFFFF <= 0xFFFFFFFF) by (bit_vector);
        let rc: u32 = (full & 0xFFFFFFFF) as u32;
        header.write_resource_count(rc);
        if alias_vec.len() > 0 {
            let af: u64 = alias_vec.len() as u64;
            assert(af & 0xFFFF <= 0xFFFF) by (bit_vector);
            let ac: u16 = (af & 0xFFFF) as u16;
            header.write_alias_count(ac);
            assert(header == spec_built_header(st_end));
        } else {
            proof {
                let z: u64 = st_end.aliases.len() as u64;
                assert(z == 0);
                assert((z & 0xFFFF) as u16 == 0) by (bit_vector)
                    requires
                        z == 0,
                ;
            }
            assert(header == spec_built_header(st_end));
        }
        Ok(PakIndex { header, entry_vec, alias_vec })
    }
}



/// Version gating of aliases: a manifest can never parse successfully into
/// a v4 index that carries aliases. Either an alias line is hit while the
/// version reads 4 and the parse stops there, or aliases were collected
/// before a version other than 5 was known, and the finished parse is
/// rejected; aliases are never silently dropped.
pub proof fn lemma_version_gating(b: Seq<u8>)
    ensures
        spec_from_ini(b) matches Ok(m) ==> (m.aliases.len() == 0 || m.header is V5),
        (spec_parse_ini(b, 0, spec_init_state()) matches Ok(st) && st.version != PAK_VERSION_V5
            && st.aliases.len() > 0) ==> spec_from_ini(b) == Err::<SpecManifest, SpecIndexErr>(
            SpecIndexErr::AliasNotSupported(
                spec_parse_ini(b, 0, spec_init_state())->Ok_0.version,
            ),
        ),
{
}


// ---------------------------------------------------------------------------
// Round trip: a serialized manifest parses back to what was serialized
// ---------------------------------------------------------------------------
/// Rendered digits are digits.
pub(crate) proof fn lemma_dec_digits_are_digits(n: nat)
    ensures
        spec_dec_digits(n).len() >= 1,
        spec_all_digits(spec_dec_digits(n)),
    decreases n,
{
    if n >= 10 {
        lemma_dec_digits_are_digits(n / 10);
        let d = spec_dec_digits(n / 10);
        assert forall|i: int| 0 <= i < spec_dec_digits(n).len() implies 0x30 <= #[trigger] spec_dec_digits(
            n,
        )[i] <= 0x39 by {
            if i < d.len() {
                assert(spec_dec_digits(n)[i] == d[i]);
            } else {
                assert(spec_dec_digits(n)[i] == (0x30 + n % 10) as u8);
            }
        }
    }
}

/// Reading rendered digits back gives the rendered value.
proof fn lemma_dec_value_roundtrip(n: nat)
    ensures
        spec_dec_value(spec_dec_digits(n)) == n,
    decreases n,
{
    if n < 10 {
        assert(spec_dec_value(Seq::<u8>::empty()) == 0);
        assert(spec_dec_digits(n).drop_last() =~= Seq::<u8>::empty());
        assert(spec_dec_digits(n).last() == (0x30 + n) as u8);
    } else {
        lemma_dec_value_roundtrip(n / 10);
        assert(spec_dec_digits(n).drop_last() =~= spec_dec_digits(n / 10));
        assert(spec_dec_digits(n).last() == (0x30 + n % 10) as u8);
        assert(n == 10 * (n / 10) + n % 10) by (nonlinear_arith);
        assert(spec_dec_value(spec_dec_digits(n)) == 10 * spec_dec_value(spec_dec_digits(n / 10))
            + (spec_dec_digits(n).last() - 0x30));
    }
}

/// Rendered digits parse back as an unsigned decimal within any cap the
/// value meets.
proof fn lemma_parse_dec_digits(n: nat, cap: int)
    requires
        n <= cap,
    ensures
        spec_parse_uint_capped(spec_dec_digits(n), cap) == Some((n as u64)),
{
    lemma_dec_digits_are_digits(n);
    lemma_dec_value_roundtrip(n);
    assert(spec_dec_digits(n)[0] != 0x2B);
}

proof fn lemma_find_byte_exact(b: Seq<u8>, pos: int, t: u8, i: int)
    requires
        0 <= pos <= i <= b.len(),
        forall|j: int| pos <= j < i ==> b[j] != t,
        i < b.len() ==> b[i] == t,
    ensures
        spec_find_byte(b, pos, t) == i,
    decreases i - pos,
{
    if pos < i {
        lemma_find_byte_exact(b, pos + 1, t, i);
    }
}

proof fn lemma_find_nl_exact(b: Seq<u8>, pos: int, i: int)
    requires
        0 <= pos <= i <= b.len(),
        forall|j: int| pos <= j < i ==> !spec_is_nl(#[trigger] b[j]),
        i < b.len() ==> spec_is_nl(b[i]),
    ensures
        spec_find_nl(b, pos) == i,
    decreases i - pos,
{
    if pos < i {
        lemma_find_nl_exact(b, pos + 1, i);
    }
}

/// One step of the manifest parse, when the bytes at `pos` are a known
/// newline-free line followed by CRLF.
proof fn lemma_parse_ini_line(b: Seq<u8>, pos: int, st: SpecIndexState, line: Seq<u8>)
    requires
        0 <= pos,
        pos + line.len() + 2 <= b.len(),
        b.subrange(pos, pos + line.len()) == line,
        forall|j: int| 0 <= j < line.len() ==> !spec_is_nl(#[trigger] line[j]),
        b[pos + line.len()] == 13,
        b[pos + line.len() + 1] == 10,
    ensures
        spec_parse_ini(b, pos, st) == match spec_line_step(st, line) {
            Err(e) => Err::<SpecIndexState, SpecIndexErr>(e),
            Ok(st2) => spec_parse_ini(b, pos + line.len() + 2, st2),
        },
{
    assert forall|j: int| pos <= j < pos + line.len() implies !spec_is_nl(#[trigger] b[j]) by {
        assert(b[j] == line[j - pos]);
    }
    lemma_find_nl_exact(b, pos, pos + line.len());
    assert(spec_skip_nl(b, pos + line.len()) == pos + line.len() + 2);
}


/// A manifest entry that survives the round trip: its name holds no line
/// break, and an untagged name does not end in a compression suffix that the
/// parser would strip or reinterpret.
pub open spec fn spec_entry_wf(e: PakIndexEntry) -> bool {
    let name = spec_string_bytes(e.file_name);
    &&& forall|j: int| 0 <= j < name.len() ==> !spec_is_nl(#[trigger] name[j])
    &&& e.compression is Raw ==> !spec_ends_with(name, spec_suffix_raw()) && !spec_ends_with(
        name,
        spec_suffix_brotli(),
    )
}

proof fn lemma_entry_lines_front(es: Seq<PakIndexEntry>)
    requires
        es.len() > 0,
    ensures
        spec_entry_lines(es) == spec_entry_line(
            es[0].resource_id,
            spec_string_bytes(es[0].file_name),
            es[0].compression,
        ) + spec_entry_lines(es.drop_first()),
    decreases es.len(),
{
    let head = spec_entry_line(
        es[0].resource_id,
        spec_string_bytes(es[0].file_name),
        es[0].compression,
    );
    if es.len() == 1 {
        assert(es.drop_last() =~= Seq::<PakIndexEntry>::empty());
        assert(es.drop_first() =~= Seq::<PakIndexEntry>::empty());
        assert(spec_entry_lines(es) =~= head + spec_entry_lines(es.drop_first()));
    } else {
        lemma_entry_lines_front(es.drop_last());
        assert(es.drop_last()[0] == es[0]);
        assert(es.drop_last().drop_first() =~= es.drop_first().drop_last());
        assert(es.drop_first().last() == es.last());
        assert(spec_entry_lines(es) == spec_entry_lines(es.drop_last()) + spec_entry_line(
            es.last().resource_id,
            spec_string_bytes(es.last().file_name),
            es.last().compression,
        ));
        assert(spec_entry_lines(es) =~= head + spec_entry_lines(es.drop_first()));
    }
}

proof fn lemma_alias_lines_front(aliases: Seq<PakAlias>)
    requires
        aliases.len() > 0,
    ensures
        spec_alias_lines(aliases) == spec_alias_line(aliases[0]) + spec_alias_lines(
            aliases.drop_first(),
        ),
    decreases aliases.len(),
{
    let head = spec_alias_line(aliases[0]);
    if aliases.len() == 1 {
        assert(aliases.drop_last() =~= Seq::<PakAlias>::empty());
        assert(aliases.drop_first() =~= Seq::<PakAlias>::empty());
        assert(spec_alias_lines(aliases) =~= head + spec_alias_lines(aliases.drop_first()));
    } else {
        lemma_alias_lines_front(aliases.drop_last());
        assert(aliases.drop_last()[0] == aliases[0]);
        assert(aliases.drop_last().drop_first() =~= aliases.drop_first().drop_last());
        assert(aliases.drop_first().last() == aliases.last());
        assert(spec_alias_lines(aliases) =~= head + spec_alias_lines(aliases.drop_first()));
    }
}

/// What one serialized resource line does to a parser sitting in the
/// resources section: it appends exactly the entry it serializes.
proof fn lemma_step_entry_line(st: SpecIndexState, e: PakIndexEntry)
    requires
        st.status is Resource,
        spec_entry_wf(e),
    ensures
        ({
            let name = spec_string_bytes(e.file_name);
            let line = spec_dec_digits(e.resource_id as nat) + seq![0x3Du8] + name + (
            if e.compression is BrotliCompressed {
                spec_suffix_brotli()
            } else {
                Seq::<u8>::empty()
            });
            spec_line_step(st, line) == Ok::<SpecIndexState, SpecIndexErr>(
                SpecIndexState {
                    entries: st.entries.push(
                        SpecIndexEntry {
                            resource_id: e.resource_id,
                            name,
                            compression: e.compression,
                        },
                    ),
                    ..st
                },
            )
        }),
{
    broadcast use vstd::utf8::encode_utf8_valid_utf8;

    let name = spec_string_bytes(e.file_name);
    let sfx = if e.compression is BrotliCompressed {
        spec_suffix_brotli()
    } else {
        Seq::<u8>::empty()
    };
    let dd = spec_dec_digits(e.resource_id as nat);
    let line = dd + seq![0x3Du8] + name + sfx;
    lemma_dec_digits_are_digits(e.resource_id as nat);
    assert(line[0] == dd[0]);
    assert(0x30 <= line[0] <= 0x39);
    // the first '=' ends the id
    assert forall|j: int| 0 <= j < dd.len() implies line[j] != 0x3D by {
        assert(line[j] == dd[j]);
    }
    assert(line[dd.len() as int] == 0x3D);
    lemma_find_byte_exact(line, 0, 0x3D, dd.len() as int);
    let key = line.subrange(0, dd.len() as int);
    let value = line.subrange(dd.len() as int + 1, line.len() as int);
    assert(key =~= dd);
    assert(value =~= name + sfx);
    lemma_parse_dec_digits(e.resource_id as nat, u16::MAX as int);
    assert(spec_parse_uint_capped(key, u16::MAX as int) == Some((e.resource_id as u64)));
    // the suffix decides the tag and is stripped back off
    if e.compression is BrotliCompressed {
        assert(value.subrange(value.len() - 19, value.len() as int) =~= spec_suffix_brotli());
        assert(spec_ends_with(value, spec_suffix_brotli()));
        if spec_ends_with(value, spec_suffix_raw()) {
            assert(value.subrange(value.len() - 6, value.len() as int)[0] == 0x3A);
            assert(value[value.len() - 6] == spec_suffix_brotli()[13]);
            assert(false);
        }
        assert(spec_strip_name(value) =~= name);
        assert(spec_compression_of_name(value) == e.compression);
    } else {
        assert(value =~= name);
        assert(spec_strip_name(value) == name);
        assert(spec_compression_of_name(value) == e.compression);
    }
    assert(vstd::utf8::valid_utf8(name));
}

/// What one serialized alias line does to a parser sitting in the alias
/// section of a v5 manifest: it appends exactly the alias it serializes.
proof fn lemma_step_alias_line(st: SpecIndexState, a: PakAlias)
    requires
        st.status is Alias,
        st.version != PAK_VERSION_V4,
    ensures
        ({
            let line = spec_dec_digits(a.resource_id as nat) + seq![0x3Du8] + spec_dec_digits(
                a.entry_index as nat,
            );
            spec_line_step(st, line) == Ok::<SpecIndexState, SpecIndexErr>(
                SpecIndexState { aliases: st.aliases.push(a), ..st },
            )
        }),
{
    let dd = spec_dec_digits(a.resource_id as nat);
    let vv = spec_dec_digits(a.entry_index as nat);
    let line = dd + seq![0x3Du8] + vv;
    lemma_dec_digits_are_digits(a.resource_id as nat);
    lemma_dec_digits_are_digits(a.entry_index as nat);
    assert(line[0] == dd[0]);
    assert(0x30 <= line[0] <= 0x39);
    assert forall|j: int| 0 <= j < dd.len() implies line[j] != 0x3D by {
        assert(line[j] == dd[j]);
    }
    assert(line[dd.len() as int] == 0x3D);
    lemma_find_byte_exact(line, 0, 0x3D, dd.len() as int);
    let key = line.subrange(0, dd.len() as int);
    let value = line.subrange(dd.len() as int + 1, line.len() as int);
    assert(key =~= dd);
    assert(value =~= vv);
    lemma_parse_dec_digits(a.resource_id as nat, u16::MAX as int);
    lemma_parse_dec_digits(a.entry_index as nat, u16::MAX as int);
}


/// Parsing the serialized resource lines from the resources section appends
/// exactly the serialized entries.
#[verifier::rlimit(60)]
#[verifier::spinoff_prover]
proof fn lemma_parse_entry_lines(b: Seq<u8>, pos: int, st: SpecIndexState, es: Seq<PakIndexEntry>)
    requires
        st.status is Resource,
        forall|i: int| 0 <= i < es.len() ==> spec_entry_wf(#[trigger] es[i]),
        0 <= pos,
        pos + spec_entry_lines(es).len() <= b.len(),
        b.subrange(pos, pos + spec_entry_lines(es).len()) == spec_entry_lines(es),
    ensures
        spec_parse_ini(b, pos, st) == spec_parse_ini(
            b,
            pos + spec_entry_lines(es).len(),
            SpecIndexState { entries: st.entries + spec_entries_of(es), ..st },
        ),
    decreases es.len(),
{
    if es.len() == 0 {
        assert(st.entries + spec_entries_of(es) =~= st.entries);
        assert(SpecIndexState { entries: st.entries + spec_entries_of(es), ..st } == st);
    } else {
        let e = es[0];
        let name = spec_string_bytes(e.file_name);
        let sfx = if e.compression is BrotliCompressed {
            spec_suffix_brotli()
        } else {
            Seq::<u8>::empty()
        };
        let dd = spec_dec_digits(e.resource_id as nat);
        let line = dd + seq![0x3Du8] + name + sfx;
        let full = spec_entry_line(e.resource_id, name, e.compression);
        lemma_entry_lines_front(es);
        assert(full =~= line + spec_crlf());
        lemma_dec_digits_are_digits(e.resource_id as nat);
        assert forall|j: int| 0 <= j < line.len() implies !spec_is_nl(#[trigger] line[j]) by {
            if j < dd.len() {
                assert(line[j] == dd[j]);
                assert(0x30 <= line[j] <= 0x39);
            } else if j == dd.len() {
                assert(line[j] == 0x3D);
            } else if j < dd.len() + 1 + name.len() {
                assert(line[j] == name[j - dd.len() - 1]);
            } else {
                assert(line[j] == spec_suffix_brotli()[j - dd.len() - 1 - name.len()]);
                assert(!spec_is_nl(line[j]));
            }
        }
        assert(b.subrange(pos, pos + line.len()) =~= line);
        let ghost lines = spec_entry_lines(es);
        assert(lines.len() >= line.len() + 2);
        assert(b[pos + line.len()] == b.subrange(pos, pos + lines.len())[line.len() as int]);
        assert(lines[line.len() as int] == full[line.len() as int]);
        assert(full[line.len() as int] == 13);
        assert(b[pos + line.len() + 1] == b.subrange(pos, pos + lines.len())[line.len() as int + 1]);
        assert(lines[line.len() as int + 1] == full[line.len() as int + 1]);
        assert(full[line.len() as int + 1] == 10);
        lemma_parse_ini_line(b, pos, st, line);
        lemma_step_entry_line(st, e);
        let st2 = SpecIndexState {
            entries: st.entries.push(
                SpecIndexEntry { resource_id: e.resource_id, name, compression: e.compression },
            ),
            ..st
        };
        let pos2 = pos + full.len();
        assert(pos2 == pos + line.len() + 2);
        let rest = es.drop_first();
        let rl = spec_entry_lines(rest);
        assert forall|k: int| 0 <= k < rl.len() implies b[pos2 + k] == rl[k] by {
            assert(b[pos2 + k] == b.subrange(pos, pos + lines.len())[full.len() as int + k]);
            assert(lines[full.len() as int + k] == rl[k]);
        }
        assert(b.subrange(pos2, pos2 + rl.len()) =~= rl);
        lemma_parse_entry_lines(b, pos2, st2, rest);
        assert(st2.entries + spec_entries_of(rest) =~= st.entries + spec_entries_of(es));
    }
}

/// Parsing the serialized alias lines from the alias section of a manifest
/// whose version is not 4 appends exactly the serialized aliases.
#[verifier::rlimit(60)]
#[verifier::spinoff_prover]
proof fn lemma_parse_alias_lines(b: Seq<u8>, pos: int, st: SpecIndexState, aliases: Seq<PakAlias>)
    requires
        st.status is Alias,
        st.version != PAK_VERSION_V4,
        0 <= pos,
        pos + spec_alias_lines(aliases).len() <= b.len(),
        b.subrange(pos, pos + spec_alias_lines(aliases).len()) == spec_alias_lines(aliases),
    ensures
        spec_parse_ini(b, pos, st) == spec_parse_ini(
            b,
            pos + spec_alias_lines(aliases).len(),
            SpecIndexState { aliases: st.aliases + aliases, ..st },
        ),
    decreases aliases.len(),
{
    if aliases.len() == 0 {
        assert(st.aliases + aliases =~= st.aliases);
        assert(SpecIndexState { aliases: st.aliases + aliases, ..st } == st);
    } else {
        let a = aliases[0];
        let dd = spec_dec_digits(a.resource_id as nat);
        let vv = spec_dec_digits(a.entry_index as nat);
        let line = dd + seq![0x3Du8] + vv;
        let full = spec_alias_line(a);
        lemma_alias_lines_front(aliases);
        assert(full =~= line + spec_crlf());
        lemma_dec_digits_are_digits(a.resource_id as nat);
        lemma_dec_digits_are_digits(a.entry_index as nat);
        assert forall|j: int| 0 <= j < line.len() implies !spec_is_nl(#[trigger] line[j]) by {
            if j < dd.len() {
                assert(line[j] == dd[j]);
                assert(0x30 <= line[j] <= 0x39);
            } else if j == dd.len() {
                assert(line[j] == 0x3D);
            } else {
                assert(line[j] == vv[j - dd.len() - 1]);
                assert(0x30 <= line[j] <= 0x39);
            }
        }
        assert(b.subrange(pos, pos + line.len()) =~= line);
        let ghost lines = spec_alias_lines(aliases);
        assert(lines.len() >= line.len() + 2);
        assert(b[pos + line.len()] == b.subrange(pos, pos + lines.len())[line.len() as int]);
        assert(lines[line.len() as int] == full[line.len() as int]);
        assert(full[line.len() as int] == 13);
        assert(b[pos + line.len() + 1] == b.subrange(pos, pos + lines.len())[line.len() as int + 1]);
        assert(lines[line.len() as int + 1] == full[line.len() as int + 1]);
        assert(full[line.len() as int + 1] == 10);
        lemma_parse_ini_line(b, pos, st, line);
        lemma_step_alias_line(st, a);
        let st2 = SpecIndexState { aliases: st.aliases.push(a), ..st };
        let pos2 = pos + full.len();
        assert(pos2 == pos + line.len() + 2);
        let rest = aliases.drop_first();
        let rl = spec_alias_lines(rest);
        assert forall|k: int| 0 <= k < rl.len() implies b[pos2 + k] == rl[k] by {
            assert(b[pos2 + k] == b.subrange(pos, pos + lines.len())[full.len() as int + k]);
            assert(lines[full.len() as int + k] == rl[k]);
        }
        assert(b.subrange(pos2, pos2 + rl.len()) =~= rl);
        lemma_parse_alias_lines(b, pos2, st2, rest);
        assert(st2.aliases + rest =~= st.aliases + aliases);
    }
}


/// One line step read off a concatenation decomposition of the whole text.
proof fn lemma_parse_line_concat(
    b: Seq<u8>,
    pre: Seq<u8>,
    line: Seq<u8>,
    post: Seq<u8>,
    st: SpecIndexState,
)
    requires
        b == pre + (line + spec_crlf()) + post,
        forall|j: int| 0 <= j < line.len() ==> !spec_is_nl(#[trigger] line[j]),
    ensures
        spec_parse_ini(b, pre.len() as int, st) == match spec_line_step(st, line) {
            Err(e) => Err::<SpecIndexState, SpecIndexErr>(e),
            Ok(st2) => spec_parse_ini(b, pre.len() + line.len() + 2int, st2),
        },
{
    let pos = pre.len() as int;
    assert(b.subrange(pos, pos + line.len()) =~= line);
    assert(b[pos + line.len()] == 13);
    assert(b[pos + line.len() as int + 1] == 10);
    lemma_parse_ini_line(b, pos, st, line);
}

/// An index whose header agrees byte-for-byte with what its entry and alias
/// lists say: the version field matches the layout, the counts match the
/// lists, and the v5 padding is clear.
pub open spec fn spec_index_wf(
    header: PakHeader,
    entries: Seq<PakIndexEntry>,
    aliases: Seq<PakAlias>,
) -> bool {
    match header {
        PakHeader::V5(h) => {
            &&& h.version == PAK_VERSION_V5
            &&& h._padding == [0u8, 0u8, 0u8]
            &&& h.resource_count == entries.len()
            &&& h.alias_count == aliases.len()
        },
        PakHeader::V4(h) => {
            &&& h.version == PAK_VERSION_V4
            &&& h.resource_count == entries.len()
            &&& aliases.len() == 0
        },
    }
}

/// Parsing the fixed manifest head leaves the parser in the resources
/// section with the serialized version and encoding.
#[verifier::rlimit(100)]
#[verifier::spinoff_prover]
proof fn lemma_parse_head(b: Seq<u8>, header: PakHeader, rest: Seq<u8>)
    requires
        b == spec_manifest_head(header) + rest,
        header.spec_version() == PAK_VERSION_V4 || header.spec_version() == PAK_VERSION_V5,
    ensures
        spec_parse_ini(b, 0, spec_init_state()) == spec_parse_ini(
            b,
            spec_manifest_head(header).len() as int,
            SpecIndexState {
                status: PakIndexStatus::Resource,
                version: header.spec_version(),
                encoding: header.spec_encoding(),
                entries: Seq::empty(),
                aliases: Seq::empty(),
            },
        ),
{
    let version = header.spec_version();
    let encoding = header.spec_encoding();
    let dv = spec_dec_digits(version as nat);
    let de = spec_dec_digits(encoding as nat);
    let crlf = spec_crlf();
    let l1 = seq![0x5Bu8] + spec_global_tag() + seq![0x5Du8];
    let l2 = spec_version_key() + seq![0x3Du8] + dv;
    let l3 = spec_encoding_key() + seq![0x3Du8] + de;
    let l4 = Seq::<u8>::empty();
    let l5 = seq![0x5Bu8] + spec_res_tag() + seq![0x5Du8];
    lemma_dec_digits_are_digits(version as nat);
    lemma_dec_digits_are_digits(encoding as nat);

    // [Global]
    let pre1 = Seq::<u8>::empty();
    assert(b =~= pre1 + (l1 + crlf) + (b.subrange(10, b.len() as int)));
    let st0 = spec_init_state();
    assert(l1.last() == 0x5D);
    assert(l1.subrange(1, l1.len() - 1) =~= spec_global_tag());
    lemma_parse_line_concat(b, pre1, l1, b.subrange(10, b.len() as int), st0);
    let st1 = SpecIndexState { status: PakIndexStatus::Global, ..st0 };
    assert(spec_line_step(st0, l1) == Ok::<SpecIndexState, SpecIndexErr>(st1));

    // version=?
    let pre2 = pre1 + (l1 + crlf);
    assert(b =~= pre2 + (l2 + crlf) + b.subrange((pre2.len() + l2.len() + 2) as int, b.len() as int));
    assert forall|j: int| 0 <= j < l2.len() implies !spec_is_nl(#[trigger] l2[j]) by {
        if j < 7 {
            assert(l2[j] == spec_version_key()[j]);
        } else if j == 7 {
            assert(l2[j] == 0x3D);
        } else {
            assert(l2[j] == dv[j - 8]);
            assert(0x30 <= l2[j] <= 0x39);
        }
    }
    lemma_parse_line_concat(
        b,
        pre2,
        l2,
        b.subrange((pre2.len() + l2.len() + 2) as int, b.len() as int),
        st1,
    );
    assert forall|j: int| 0 <= j < 7 implies l2[j] != 0x3D by {
        assert(l2[j] == spec_version_key()[j]);
    }
    assert(l2[7] == 0x3D);
    lemma_find_byte_exact(l2, 0, 0x3D, 7);
    assert(l2.subrange(0, 7) =~= spec_version_key());
    assert(l2.subrange(8, l2.len() as int) =~= dv);
    lemma_parse_dec_digits(version as nat, u32::MAX as int);
    let st2 = SpecIndexState { version, ..st1 };
    assert(spec_line_step(st1, l2) == Ok::<SpecIndexState, SpecIndexErr>(st2));

    // encoding=?
    let pre3 = pre2 + (l2 + crlf);
    assert(b =~= pre3 + (l3 + crlf) + b.subrange((pre3.len() + l3.len() + 2) as int, b.len() as int));
    assert forall|j: int| 0 <= j < l3.len() implies !spec_is_nl(#[trigger] l3[j]) by {
        if j < 8 {
            assert(l3[j] == spec_encoding_key()[j]);
        } else if j == 8 {
            assert(l3[j] == 0x3D);
        } else {
            assert(l3[j] == de[j - 9]);
            assert(0x30 <= l3[j] <= 0x39);
        }
    }
    lemma_parse_line_concat(
        b,
        pre3,
        l3,
        b.subrange((pre3.len() + l3.len() + 2) as int, b.len() as int),
        st2,
    );
    assert forall|j: int| 0 <= j < 8 implies l3[j] != 0x3D by {
        assert(l3[j] == spec_encoding_key()[j]);
    }
    assert(l3[8] == 0x3D);
    lemma_find_byte_exact(l3, 0, 0x3D, 8);
    assert(l3.subrange(0, 8) =~= spec_encoding_key());
    assert(l3.subrange(9, l3.len() as int) =~= de);
    lemma_parse_dec_digits(encoding as nat, u8::MAX as int);
    let st3 = SpecIndexState { encoding, ..st2 };
    assert(spec_line_step(st2, l3) == Ok::<SpecIndexState, SpecIndexErr>(st3));

    // blank separator
    let pre4 = pre3 + (l3 + crlf);
    assert(b =~= pre4 + (l4 + crlf) + b.subrange((pre4.len() + 2) as int, b.len() as int));
    lemma_parse_line_concat(b, pre4, l4, b.subrange((pre4.len() + 2) as int, b.len() as int), st3);
    assert(spec_line_step(st3, l4) == Ok::<SpecIndexState, SpecIndexErr>(st3));

    // [Resources]
    let pre5 = pre4 + (l4 + crlf);
    assert(b =~= pre5 + (l5 + crlf) + rest);
    assert(l5.last() == 0x5D);
    assert(l5.subrange(1, l5.len() - 1) =~= spec_res_tag());
    lemma_parse_line_concat(b, pre5, l5, rest, st3);
    let st5 = SpecIndexState { status: PakIndexStatus::Resource, ..st3 };
    assert(spec_line_step(st3, l5) == Ok::<SpecIndexState, SpecIndexErr>(st5));
    assert((pre5 + (l5 + crlf)).len() == spec_manifest_head(header).len());
}

/// Parsing the serialized alias section, from the resources section of a
/// manifest whose version is not 4, collects exactly the aliases.
#[verifier::rlimit(100)]
#[verifier::spinoff_prover]
proof fn lemma_parse_alias_section(
    b: Seq<u8>,
    pre: Seq<u8>,
    st: SpecIndexState,
    aliases: Seq<PakAlias>,
)
    requires
        st.version != PAK_VERSION_V4,
        aliases.len() > 0,
        b == pre + (spec_crlf() + seq![0x5Bu8] + spec_alias_tag() + seq![0x5Du8] + spec_crlf()
            + spec_alias_lines(aliases)),
    ensures
        spec_parse_ini(b, pre.len() as int, st) == Ok::<SpecIndexState, SpecIndexErr>(
            SpecIndexState {
                status: PakIndexStatus::Alias,
                aliases: st.aliases + aliases,
                ..st
            },
        ),
{
    let crlf = spec_crlf();
    let l4 = Seq::<u8>::empty();
    let l8 = seq![0x5Bu8] + spec_alias_tag() + seq![0x5Du8];
    let al = spec_alias_lines(aliases);
    // blank separator
    assert(b =~= pre + (l4 + crlf) + b.subrange((pre.len() + 2) as int, b.len() as int));
    lemma_parse_line_concat(b, pre, l4, b.subrange((pre.len() + 2) as int, b.len() as int), st);
    assert(spec_line_step(st, l4) == Ok::<SpecIndexState, SpecIndexErr>(st));
    // [Alias]
    let pre8 = pre + (l4 + crlf);
    assert(b =~= pre8 + (l8 + crlf) + al);
    assert(l8.last() == 0x5D);
    assert(l8.subrange(1, l8.len() - 1) =~= spec_alias_tag());
    lemma_parse_line_concat(b, pre8, l8, al, st);
    let st8 = SpecIndexState { status: PakIndexStatus::Alias, ..st };
    assert(spec_line_step(st, l8) == Ok::<SpecIndexState, SpecIndexErr>(st8));
    // the alias lines
    let pre9 = pre8 + (l8 + crlf);
    assert(b.subrange(pre9.len() as int, (pre9.len() + al.len()) as int) =~= al);
    lemma_parse_alias_lines(b, pre9.len() as int, st8, aliases);
    let st9 = SpecIndexState { aliases: st8.aliases + aliases, ..st8 };
    assert(pre9.len() + al.len() == b.len());
    assert(spec_parse_ini(b, (pre9.len() + al.len()) as int, st9) == Ok::<
        SpecIndexState,
        SpecIndexErr,
    >(st9));
    assert(st9 == SpecIndexState {
        status: PakIndexStatus::Alias,
        aliases: st.aliases + aliases,
        ..st
    });
}

/// Round trip of the manifest: parsing a serialized index gives back
/// exactly the header, entries and aliases that were serialized.
#[verifier::rlimit(100)]
#[verifier::spinoff_prover]
pub proof fn lemma_manifest_roundtrip(
    header: PakHeader,
    entries: Seq<PakIndexEntry>,
    aliases: Seq<PakAlias>,
)
    requires
        spec_index_wf(header, entries, aliases),
        forall|i: int| 0 <= i < entries.len() ==> spec_entry_wf(#[trigger] entries[i]),
    ensures
        spec_from_ini(spec_manifest_bytes(header, entries, aliases)) == Ok::<
            SpecManifest,
            SpecIndexErr,
        >(SpecManifest { header, entries: spec_entries_of(entries), aliases }),
{
    let b = spec_manifest_bytes(header, entries, aliases);
    let version = header.spec_version();
    let encoding = header.spec_encoding();
    let el = spec_entry_lines(entries);
    let crlf = spec_crlf();
    let tail = if aliases.len() == 0 {
        Seq::<u8>::empty()
    } else {
        crlf + seq![0x5Bu8] + spec_alias_tag() + seq![0x5Du8] + crlf + spec_alias_lines(aliases)
    };
    let head = spec_manifest_head(header);
    assert(b =~= head + (el + tail));
    lemma_parse_head(b, header, el + tail);
    let st5 = SpecIndexState {
        status: PakIndexStatus::Resource,
        version,
        encoding,
        entries: Seq::empty(),
        aliases: Seq::empty(),
    };
    // the resource lines
    assert(b.subrange(head.len() as int, (head.len() + el.len()) as int) =~= el);
    lemma_parse_entry_lines(b, head.len() as int, st5, entries);
    let st6 = SpecIndexState { entries: st5.entries + spec_entries_of(entries), ..st5 };
    assert(st6.entries =~= spec_entries_of(entries));
    let pos7: int = (head.len() + el.len()) as int;
    let st_end: SpecIndexState;
    if aliases.len() == 0 {
        assert(pos7 == b.len());
        st_end = st6;
        assert(spec_parse_ini(b, pos7, st6) == Ok::<SpecIndexState, SpecIndexErr>(st6));
    } else {
        let pre7 = head + el;
        assert(pre7.len() == pos7);
        assert(b =~= pre7 + (crlf + seq![0x5Bu8] + spec_alias_tag() + seq![0x5Du8] + crlf
            + spec_alias_lines(aliases)));
        lemma_parse_alias_section(b, pre7, st6, aliases);
        st_end = SpecIndexState {
            status: PakIndexStatus::Alias,
            aliases: st6.aliases + aliases,
            ..st6
        };
        assert(st_end.aliases =~= aliases);
    }
    assert(spec_parse_ini(b, 0, spec_init_state()) == Ok::<SpecIndexState, SpecIndexErr>(st_end));

    // the finished parse derives the serialized header back
    assert(!(st_end.version != PAK_VERSION_V5 && st_end.aliases.len() > 0));
    let z: u64 = entries.len() as u64;
    let w: u64 = aliases.len() as u64;
    match header {
        PakHeader::V5(h) => {
            assert(z <= 0xFFFF && w <= 0xFFFF);
            assert((((z & 0xFFFFFFFF) as u32) & 0xFFFF) as u16 == z as u16) by (bit_vector)
                requires
                    z <= 0xFFFF,
            ;
            assert((w & 0xFFFF) as u16 == w as u16) by (bit_vector)
                requires
                    w <= 0xFFFF,
            ;
            assert(spec_built_header(st_end) == header);
        },
        PakHeader::V4(h) => {
            assert(z <= 0xFFFFFFFF);
            assert(((z & 0xFFFFFFFF) as u32) == z as u32) by (bit_vector)
                requires
                    z <= 0xFFFFFFFF,
            ;
            assert(spec_built_header(st_end) == header);
        },
    }
}

} // verus!
