//! The unpack orchestrator: everything the codec decides about an archive
//! buffer, leaving only the actual file writes to the caller.
use vstd::prelude::*;

use crate::pak_brotli::brotli_decompressed_size_of;
use crate::pak_def::{pak_parse_alias, spec_read_alias_slice};
use crate::pak_error::PakError;
use crate::pak_file::{pak_parse_files, spec_parse_files, PakFile};
use crate::pak_file_io::{pak_plan_file, spec_brotli_envelope, spec_plan_file, PakFileContent};
use crate::pak_file_type::{spec_classify, BROTLI_HEADER_SIZE};
use crate::pak_header::{pak_read_header, spec_read_header};
use crate::pak_index::{
    spec_entries_of, spec_entry_wf, spec_from_ini, spec_index_wf, spec_manifest_bytes,
    spec_string_bytes, PakIndex, PakIndexCompression, PakIndexEntry, SpecIndexErr, SpecManifest,
};
use crate::pak_pack::{spec_pack_bytes, spec_pack_overflow, spec_packed_file_view};

verus! {

/// The sidecar manifest's on-disk file name.
pub fn pak_index_ini_name() -> (r: &'static str)
    ensures
        r@ == "pak_index.ini"@,
{
    "pak_index.ini"
}

/// Everything unpack derives from an archive buffer: the index (driving the
/// manifest), one byte range per resource to write under the entry's file
/// name, and the serialized manifest itself.
pub struct PakUnpackPlan {
    pub index: PakIndex,
    pub ranges: Vec<PakFile>,
    pub index_bytes: Vec<u8>,
}

/// Whether manifest entry `e` and write range `rg` record exactly what
/// unpack decides for the resource `file` of the archive `b`.
pub open spec fn spec_unpack_entry_ok(
    e: PakIndexEntry,
    rg: PakFile,
    file: PakFile,
    b: Seq<u8>,
) -> bool {
    let m = spec_plan_file(file, b);
    &&& e.resource_id == m.resource_id
    &&& spec_string_bytes(e.file_name) == m.name
    &&& e.compression == m.compression
    &&& rg.id == m.resource_id
    &&& rg.begin == m.begin
    &&& rg.end == m.end
}

/// What the unpack plan must say, given what header, entry-table and
/// alias-table parsing yielded.
pub open spec fn spec_unpack_plan_ok(plan: PakUnpackPlan, b: Seq<u8>) -> bool {
    match spec_read_header(b) {
        Err(_) => false,
        Ok(header) => match spec_parse_files(header, b) {
            Err(_) => false,
            Ok(files) => match spec_read_alias_slice(
                b,
                header.spec_alias_offset(),
                header.spec_alias_count(),
            ) {
                Err(_) => false,
                Ok(aliases) => {
                    &&& plan.index.header == header
                    &&& plan.index.alias_vec@ == aliases
                    &&& plan.index.entry_vec@.len() == files.len()
                    &&& plan.ranges@.len() == files.len()
                    &&& forall|i: int|
                        0 <= i < files.len() ==> spec_unpack_entry_ok(
                            #[trigger] plan.index.entry_vec@[i],
                            plan.ranges@[i],
                            files[i],
                            b,
                        )
                    &&& plan.index_bytes@ == spec_manifest_bytes(
                        header,
                        plan.index.entry_vec@,
                        aliases,
                    )
                },
            },
        },
    }
}

/// The first failure of the unpack pipeline on `b`, in the order the stages
/// run: header, entry table, alias table.
pub open spec fn spec_unpack_err(b: Seq<u8>) -> Option<PakError> {
    match spec_read_header(b) {
        Err(e) => Some(e),
        Ok(header) => match spec_parse_files(header, b) {
            Err(e) => Some(e),
            Ok(_) => match spec_read_alias_slice(
                b,
                header.spec_alias_offset(),
                header.spec_alias_count(),
            ) {
                Err(e) => Some(e),
                Ok(_) => None,
            },
        },
    }
}

/// Derives the whole unpack plan from an archive buffer: parses the header,
/// extracts the resources, decides each one's name, compression tag and
/// write range, parses the alias table, and serializes the manifest.
pub fn pak_unpack_plan(pak_buf: &[u8]) -> (r: Result<PakUnpackPlan, PakError>)
    ensures
        match r {
            Ok(plan) => spec_unpack_err(pak_buf@) is None && spec_unpack_plan_ok(plan, pak_buf@),
            Err(e) => spec_unpack_err(pak_buf@) == Some(e),
        },
{
    let header = match pak_read_header(pak_buf) {
        Ok(h) => h,
        Err(e) => {
            return Err(e);
        },
    };
    let files = match pak_parse_files(&header, pak_buf) {
        Ok(f) => f,
        Err(e) => {
            return Err(e);
        },
    };
    proof {
        crate::pak_file::lemma_parse_files_tile(header, pak_buf@, files@);
    }
    let mut entry_vec: Vec<PakIndexEntry> = Vec::new();
    let mut ranges: Vec<PakFile> = Vec::new();
    let n = files.len();
    let mut i: usize = 0;
    while i < n
        invariant
            i <= n,
            n == files@.len(),
            forall|j: int|
                0 <= j < n ==> (#[trigger] files@[j]).begin <= files@[j].end <= pak_buf@.len(),
            entry_vec@.len() == i,
            ranges@.len() == i,
            forall|j: int|
                0 <= j < i ==> spec_unpack_entry_ok(
                    #[trigger] entry_vec@[j],
                    ranges@[j],
                    files@[j],
                    pak_buf@,
                ),
        decreases n - i,
    {
        let file = files[i];
        let plan = pak_plan_file(&file, pak_buf);
        let ghost pe = plan.entry;
        let ghost pr = PakFile { id: plan.entry.resource_id, begin: plan.begin, end: plan.end };
        let ghost prior_entries = entry_vec@;
        let ghost prior_ranges = ranges@;
        ranges.push(PakFile { id: plan.entry.resource_id, begin: plan.begin, end: plan.end });
        entry_vec.push(plan.entry);
        proof {
            assert(spec_unpack_entry_ok(pe, pr, files@[i as int], pak_buf@));
            assert forall|j: int| 0 <= j < i + 1 implies spec_unpack_entry_ok(
                #[trigger] entry_vec@[j],
                ranges@[j],
                files@[j],
                pak_buf@,
            ) by {
                if j < i {
                    assert(entry_vec@[j] == prior_entries[j]);
                    assert(ranges@[j] == prior_ranges[j]);
                } else {
                    assert(entry_vec@[j] == pe);
                    assert(ranges@[j] == pr);
                }
            }
        }
        i = i + 1;
    }
    let alias_vec = match pak_parse_alias(&header, pak_buf) {
        Ok(a) => a,
        Err(e) => {
            return Err(e);
        },
    };
    let index = PakIndex { header, entry_vec, alias_vec };
    let index_bytes = index.as_pak_index_ref().to_ini_bytes();
    Ok(PakUnpackPlan { index, ranges, index_bytes })
}


/// A name unpack derives (decimal id plus classified extension) is safe
/// manifest material: free of line breaks, and, when untagged, free of a
/// trailing compression suffix.
#[verifier::rlimit(100)]
#[verifier::spinoff_prover]
proof fn lemma_plan_name_wf(e: PakIndexEntry, id: u16, content: Seq<u8>)
    requires
        ({
            let rule = spec_classify(content);
            &&& spec_string_bytes(e.file_name) == crate::pak_index::spec_dec_digits(id as nat)
                + vstd::utf8::encode_utf8(rule.ext)
            &&& e.compression == (if rule.comp is ChromiumBrotli {
                PakIndexCompression::BrotliCompressed
            } else {
                PakIndexCompression::Raw
            })
        }),
    ensures
        spec_entry_wf(e),
{
    broadcast use vstd::utf8::is_ascii_chars_encode_utf8;

    let rule = spec_classify(content);
    let ext = rule.ext;
    crate::pak_file_type::lemma_classify_ext_wf(content);
    crate::pak_index::lemma_dec_digits_are_digits(id as nat);
    let name = spec_string_bytes(e.file_name);
    let dd = crate::pak_index::spec_dec_digits(id as nat);
    let eb = vstd::utf8::encode_utf8(ext);
    assert(name == dd + eb);
    assert forall|j: int| 0 <= j < name.len() implies !crate::pak_index::spec_is_nl(
        #[trigger] name[j],
    ) by {
        if j < dd.len() {
            assert(name[j] == dd[j]);
            assert(0x30 <= name[j] <= 0x39);
        } else {
            assert(name[j] == eb[j - dd.len()]);
            assert(eb[j - dd.len()] == ext[j - dd.len()] as u8);
            assert(ext[j - dd.len()] != '\r' && ext[j - dd.len()] != '\n');
            assert(('\r' as u8) == 13 && ('\n' as u8) == 10);
            assert(ext[j - dd.len()] <= '\u{7f}');
        }
    }
    // a Raw-tagged name never ends in a compression suffix: its last byte is
    // a digit or an extension letter, never 'w' or 'd'
    if e.compression is Raw {
        let last = name[name.len() - 1];
        if ext.len() == 0 {
            assert(eb.len() == 0);
            assert(name =~= dd);
            assert(0x30 <= last <= 0x39);
        } else {
            assert(last == eb[eb.len() - 1]);
            assert(last == ext[ext.len() - 1] as u8);
            assert(ext.last() != 'w' && ext.last() != 'd');
            assert(last != 0x77 && last != 0x64);
        }
        if crate::pak_index::spec_ends_with(name, crate::pak_index::spec_suffix_raw()) {
            assert(name.subrange(name.len() - 6, name.len() as int)[5] == last);
            assert(crate::pak_index::spec_suffix_raw()[5] == 0x77);
            assert(false);
        }
        if crate::pak_index::spec_ends_with(name, crate::pak_index::spec_suffix_brotli()) {
            assert(name.subrange(name.len() - 19, name.len() as int)[18] == last);
            assert(crate::pak_index::spec_suffix_brotli()[18] == 0x64);
            assert(false);
        }
    }
}

/// The whole pipeline round trip, pack after unpack: take an archive packed
/// from a well-formed header, contents and aliases, where every resource the
/// classifier sees as a chromium brotli envelope is longer than the 8-byte
/// envelope header and carries the probed decompressed size of its payload
/// in its size field. Whatever entry list unpack derives for that archive,
/// and whatever archive bytes are rebuilt from the files unpack writes to
/// disk, the written manifest parses back to the same index, and repacking
/// reproduces the archive byte for byte.
#[verifier::rlimit(100)]
#[verifier::spinoff_prover]
pub proof fn lemma_archive_roundtrip(
    header: crate::pak_header::PakHeader,
    files: Seq<PakFileContent>,
    aliases: Seq<crate::pak_def::PakAlias>,
    entry_vec: Seq<PakIndexEntry>,
    repacked: Seq<PakFileContent>,
)
    requires
        crate::pak_pack::spec_header_wf(header),
        header is V5 ==> header->V5_0._padding == [0u8, 0u8, 0u8],
        header.spec_resource_count() == files.len(),
        header.spec_alias_count() == aliases.len(),
        files.len() > 0,
        spec_pack_overflow(header, files, 0) is None,
        forall|i: int|
            0 <= i < files.len() ==> {
                let c = (#[trigger] files[i]).content@;
                spec_classify(c).comp is ChromiumBrotli ==> c.len() > BROTLI_HEADER_SIZE && c
                    == spec_brotli_envelope(
                    brotli_decompressed_size_of(
                        c.subrange(BROTLI_HEADER_SIZE as int, c.len() as int),
                    ),
                    c.subrange(BROTLI_HEADER_SIZE as int, c.len() as int),
                )
            },
        entry_vec.len() == files.len(),
        forall|i: int|
            0 <= i < files.len() ==> {
                let m = spec_plan_file(
                    spec_packed_file_view(header, files, i),
                    spec_pack_bytes(header, files, aliases),
                );
                &&& (#[trigger] entry_vec[i]).resource_id == m.resource_id
                &&& spec_string_bytes(entry_vec[i].file_name) == m.name
                &&& entry_vec[i].compression == m.compression
            },
        repacked.len() == files.len(),
        forall|i: int|
            0 <= i < files.len() ==> {
                let b = spec_pack_bytes(header, files, aliases);
                let m = spec_plan_file(spec_packed_file_view(header, files, i), b);
                let disk = b.subrange(m.begin, m.end);
                &&& (#[trigger] repacked[i]).resource_id == entry_vec[i].resource_id
                &&& repacked[i].content@ == match entry_vec[i].compression {
                    PakIndexCompression::Raw => disk,
                    PakIndexCompression::BrotliCompressed => spec_brotli_envelope(
                        brotli_decompressed_size_of(disk),
                        disk,
                    ),
                }
            },
    ensures
        spec_from_ini(spec_manifest_bytes(header, entry_vec, aliases)) == Ok::<
            SpecManifest,
            SpecIndexErr,
        >(SpecManifest { header, entries: spec_entries_of(entry_vec), aliases }),
        spec_pack_bytes(header, repacked, aliases) == spec_pack_bytes(header, files, aliases),
{
    let b = spec_pack_bytes(header, files, aliases);
    crate::pak_pack::lemma_pack_parse_roundtrip(header, files, aliases);
    let fv = Seq::new(files.len(), |i: int| spec_packed_file_view(header, files, i));
    crate::pak_file::lemma_parse_files_tile(header, b, fv);

    // every derived manifest entry survives the manifest round trip
    assert forall|i: int| 0 <= i < entry_vec.len() implies spec_entry_wf(
        #[trigger] entry_vec[i],
    ) by {
        let view = spec_packed_file_view(header, files, i);
        assert(fv[i] == view);
        assert(view.begin <= view.end <= b.len());
        let c = b.subrange(view.begin as int, view.end as int);
        assert(c == files[i].content@);
        lemma_plan_name_wf(entry_vec[i], view.id, c);
    }
    assert(spec_index_wf(header, entry_vec, aliases));
    crate::pak_index::lemma_manifest_roundtrip(header, entry_vec, aliases);

    // the rebuilt contents are the packed contents
    assert forall|i: int| 0 <= i < files.len() implies (#[trigger] repacked[i]).resource_id == (
    #[trigger] files[i]).resource_id && repacked[i].content@ == files[i].content@ by {
        let view = spec_packed_file_view(header, files, i);
        assert(fv[i] == view);
        assert(view.begin <= view.end <= b.len());
        let c = b.subrange(view.begin as int, view.end as int);
        assert(c == files[i].content@);
        let m = spec_plan_file(view, b);
        let disk = b.subrange(m.begin, m.end);
        let rule = spec_classify(c);
        if rule.comp is ChromiumBrotli {
            let payload = c.subrange(BROTLI_HEADER_SIZE as int, c.len() as int);
            assert(spec_classify(files[i].content@).comp is ChromiumBrotli);
            assert(files[i].content@.len() > BROTLI_HEADER_SIZE);
            assert(c.len() > BROTLI_HEADER_SIZE);
            assert(m.begin == view.begin + BROTLI_HEADER_SIZE);
            assert(disk =~= payload);
            assert(entry_vec[i].compression is BrotliCompressed);
            assert(repacked[i].content@ == spec_brotli_envelope(
                brotli_decompressed_size_of(payload),
                payload,
            ));
            assert(repacked[i].content@ == c);
        } else {
            assert(m.begin == view.begin as int);
            assert(disk =~= c);
            assert(entry_vec[i].compression is Raw);
            assert(repacked[i].content@ == c);
        }
        assert(repacked[i].resource_id == view.id);
    }
    crate::pak_pack::lemma_pack_bytes_congruence(header, repacked, files, aliases);
}

} // verus!
