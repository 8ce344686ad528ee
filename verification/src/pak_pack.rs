//! The pack orchestrator: laying out header, entry table, alias table and
//! resource payloads as one archive byte string, with cumulative offsets.
use vstd::prelude::*;

use crate::pak_def::{
    lemma_alias_bytes_roundtrip, lemma_entry_bytes_roundtrip, spec_alias_bytes, spec_alias_of_bytes,
    spec_entry_bytes, spec_entry_of_bytes, spec_read_alias_slice, spec_read_entry, PakAlias,
    PakBase, PakEntry, PAK_ENTRY_SIZE,
};
use crate::pak_error::PakError;
use crate::pak_file::spec_parse_files_rec;
use crate::pak_file_io::PakFileContent;
use crate::pak_header::PakHeader;
use crate::pak_index::{push_all, PakIndex};

verus! {

/// Total byte length of the first `k` resource contents.
pub open spec fn spec_files_size(files: Seq<PakFileContent>, k: int) -> int
    decreases k,
{
    if k <= 0 {
        0
    } else {
        spec_files_size(files, k - 1) + files[k - 1].content@.len()
    }
}

/// Where resource data begins: after the header, the entry table and the
/// alias table.
pub open spec fn spec_data_base(header: PakHeader) -> int {
    header.spec_size() + header.spec_resource_size() + header.spec_alias_size()
}

/// The archive offset of resource `i`: the data base plus everything packed
/// before it.
pub open spec fn spec_pack_offset(header: PakHeader, files: Seq<PakFileContent>, i: int) -> int {
    spec_data_base(header) + spec_files_size(files, i)
}

/// The entry-table record for resource `i`.
pub open spec fn spec_pack_entry(header: PakHeader, files: Seq<PakFileContent>, i: int) -> PakEntry {
    PakEntry {
        resource_id: files[i].resource_id,
        offset: spec_pack_offset(header, files, i) as u32,
    }
}

/// The sentinel record: id 0, offset at the end of the last resource.
pub open spec fn spec_pack_sentinel(header: PakHeader, files: Seq<PakFileContent>) -> PakEntry {
    PakEntry {
        resource_id: 0,
        offset: spec_pack_offset(header, files, files.len() as int) as u32,
    }
}

/// The serialized entry-table records of the first `k` resources.
pub open spec fn spec_entry_rows(header: PakHeader, files: Seq<PakFileContent>, k: int) -> Seq<u8>
    decreases k,
{
    if k <= 0 {
        Seq::empty()
    } else {
        spec_entry_rows(header, files, k - 1) + spec_entry_bytes(
            spec_pack_entry(header, files, k - 1),
        )
    }
}

/// The serialized alias-table records of the first `k` aliases.
pub open spec fn spec_alias_rows(aliases: Seq<PakAlias>, k: int) -> Seq<u8>
    decreases k,
{
    if k <= 0 {
        Seq::empty()
    } else {
        spec_alias_rows(aliases, k - 1) + spec_alias_bytes(aliases[k - 1])
    }
}

/// The concatenated contents of the first `k` resources.
pub open spec fn spec_payload_bytes(files: Seq<PakFileContent>, k: int) -> Seq<u8>
    decreases k,
{
    if k <= 0 {
        Seq::empty()
    } else {
        spec_payload_bytes(files, k - 1) + files[k - 1].content@
    }
}

/// The complete packed archive: header bytes, one entry per resource plus
/// the sentinel, the alias table, then all payloads in entry order.
pub open spec fn spec_pack_bytes(
    header: PakHeader,
    files: Seq<PakFileContent>,
    aliases: Seq<PakAlias>,
) -> Seq<u8> {
    header.spec_bytes() + spec_entry_rows(header, files, files.len() as int) + spec_entry_bytes(
        spec_pack_sentinel(header, files),
    ) + spec_alias_rows(aliases, aliases.len() as int) + spec_payload_bytes(
        files,
        files.len() as int,
    )
}

/// The first offset, scanning resources in order and then the sentinel, that
/// does not fit the 32-bit entry field; with the id it would be recorded
/// under.
pub open spec fn spec_pack_overflow(
    header: PakHeader,
    files: Seq<PakFileContent>,
    i: int,
) -> Option<PakError>
    decreases files.len() - i + 1,
{
    let off = spec_pack_offset(header, files, i);
    if off > u32::MAX {
        Some(
            PakError::PakPackResourceOffsetOverflow(
                if i < files.len() {
                    files[i].resource_id
                } else {
                    0
                },
                off as usize,
            ),
        )
    } else if i >= files.len() {
        None
    } else {
        spec_pack_overflow(header, files, i + 1)
    }
}

/// Packs an index and the per-resource archive bytes into one archive.
///
/// The header's counts must agree with what is being packed, and the whole
/// archive must fit in memory; any entry offset beyond the 32-bit range
/// fails with the offending resource id.
#[verifier::rlimit(30)]
#[verifier::spinoff_prover]
pub fn pak_pack_index_vec(pak_index: &PakIndex, pak_files: &Vec<PakFileContent>) -> (r: Result<
    Vec<u8>,
    PakError,
>)
    requires
        pak_index.header.spec_resource_count() == pak_files@.len(),
        pak_index.header.spec_alias_count() == pak_index.alias_vec@.len(),
        spec_pack_offset(pak_index.header, pak_files@, pak_files@.len() as int) <= usize::MAX,
    ensures
        match r {
            Ok(v) => spec_pack_overflow(pak_index.header, pak_files@, 0) is None && v@
                == spec_pack_bytes(pak_index.header, pak_files@, pak_index.alias_vec@),
            Err(e) => spec_pack_overflow(pak_index.header, pak_files@, 0) == Some(e),
        },
{
    let pak_header = &pak_index.header;
    let header_size = pak_header.size();
    proof {
        lemma_files_size_nonneg(pak_files@, pak_files@.len() as int);
    }
    let resource_size = pak_header.resource_size();
    let alias_size = pak_header.alias_size();
    let mut vec: Vec<u8> = Vec::new();
    let mut header_bytes = pak_header.as_bytes();
    vec.append(&mut header_bytes);

    // resource entries, with cumulative offsets
    let resource_base_offset = header_size + resource_size + alias_size;
    let mut resource_offset = resource_base_offset;
    let n = pak_files.len();
    let mut i: usize = 0;
    while i < n
        invariant
            i <= n,
            n == pak_files@.len(),
            resource_offset == spec_pack_offset(pak_index.header, pak_files@, i as int),
            spec_pack_offset(pak_index.header, pak_files@, n as int) <= usize::MAX,
            vec@ == pak_index.header.spec_bytes() + spec_entry_rows(
                pak_index.header,
                pak_files@,
                i as int,
            ),
            spec_pack_overflow(pak_index.header, pak_files@, 0) == spec_pack_overflow(
                pak_index.header,
                pak_files@,
                i as int,
            ),
        decreases n - i,
    {
        proof {
            lemma_files_size_mono(pak_files@, i as int, n as int);
        }
        if resource_offset > u32::MAX as usize {
            return Err(
                PakError::PakPackResourceOffsetOverflow(
                    pak_files[i].resource_id,
                    resource_offset,
                ),
            );
        }
        let entry = PakEntry {
            resource_id: pak_files[i].resource_id,
            offset: resource_offset as u32,
        };
        let ghost prior = vec@;
        let mut row = entry.as_bytes();
        vec.append(&mut row);
        proof {
            assert(prior + spec_entry_bytes(entry) =~= pak_index.header.spec_bytes()
                + spec_entry_rows(pak_index.header, pak_files@, i + 1));
        }
        proof {
            lemma_files_size_mono(pak_files@, i + 1, n as int);
            assert(spec_files_size(pak_files@, i + 1) == spec_files_size(pak_files@, i as int)
                + pak_files@[i as int].content@.len());
        }
        resource_offset = resource_offset + pak_files[i].content.len();
        i = i + 1;
    }
    if resource_offset > u32::MAX as usize {
        return Err(PakError::PakPackResourceOffsetOverflow(0, resource_offset));
    }
    let sentinel = PakEntry { resource_id: 0, offset: resource_offset as u32 };
    let ghost prior = vec@;
    let mut row = sentinel.as_bytes();
    vec.append(&mut row);
    proof {
        assert(vec@ =~= prior + spec_entry_bytes(sentinel));
    }
    let ghost after_entries = pak_index.header.spec_bytes() + spec_entry_rows(
        pak_index.header,
        pak_files@,
        n as int,
    ) + spec_entry_bytes(spec_pack_sentinel(pak_index.header, pak_files@));
    assert(vec@ =~= after_entries);

    // alias table
    let m = pak_index.alias_vec.len();
    let mut j: usize = 0;
    while j < m
        invariant
            j <= m,
            m == pak_index.alias_vec@.len(),
            after_entries == pak_index.header.spec_bytes() + spec_entry_rows(
                pak_index.header,
                pak_files@,
                pak_files@.len() as int,
            ) + spec_entry_bytes(spec_pack_sentinel(pak_index.header, pak_files@)),
            vec@ == after_entries + spec_alias_rows(pak_index.alias_vec@, j as int),
        decreases m - j,
    {
        let ghost prior = vec@;
        let mut row = pak_index.alias_vec[j].as_bytes();
        vec.append(&mut row);
        proof {
            assert(vec@ =~= prior + spec_alias_bytes(pak_index.alias_vec@[j as int]));
            assert(prior + spec_alias_bytes(pak_index.alias_vec@[j as int]) =~= after_entries
                + spec_alias_rows(pak_index.alias_vec@, j + 1));
        }
        j = j + 1;
    }
    let ghost after_aliases = after_entries + spec_alias_rows(
        pak_index.alias_vec@,
        pak_index.alias_vec@.len() as int,
    );
    assert(vec@ =~= after_aliases);

    // payloads, in entry order
    let mut k: usize = 0;
    while k < n
        invariant
            k <= n,
            n == pak_files@.len(),
            after_aliases == pak_index.header.spec_bytes() + spec_entry_rows(
                pak_index.header,
                pak_files@,
                pak_files@.len() as int,
            ) + spec_entry_bytes(spec_pack_sentinel(pak_index.header, pak_files@))
                + spec_alias_rows(pak_index.alias_vec@, pak_index.alias_vec@.len() as int),
            vec@ == after_aliases + spec_payload_bytes(pak_files@, k as int),
        decreases n - k,
    {
        let ghost prior = vec@;
        push_all(&mut vec, pak_files[k].content.as_slice());
        proof {
            assert(prior + pak_files@[k as int].content@ =~= after_aliases + spec_payload_bytes(
                pak_files@,
                k + 1,
            ));
        }
        k = k + 1;
    }
    proof {
        assert(vec@ =~= spec_pack_bytes(pak_index.header, pak_files@, pak_index.alias_vec@));
    }
    Ok(vec)
}

proof fn lemma_files_size_nonneg(files: Seq<PakFileContent>, k: int)
    ensures
        spec_files_size(files, k) >= 0,
    decreases k,
{
    if k > 0 {
        lemma_files_size_nonneg(files, k - 1);
    }
}

/// Packed sizes only grow as more resources are counted.
proof fn lemma_files_size_mono(files: Seq<PakFileContent>, i: int, k: int)
    requires
        0 <= i <= k,
    ensures
        spec_files_size(files, i) <= spec_files_size(files, k),
    decreases k - i,
{
    if i < k {
        lemma_files_size_mono(files, i, k - 1);
    }
}


// ---------------------------------------------------------------------------
// Round trip: a packed archive parses back to what was packed
// ---------------------------------------------------------------------------
/// A header whose version field agrees with its layout.
pub open spec fn spec_header_wf(header: PakHeader) -> bool {
    match header {
        PakHeader::V5(h) => h.version == crate::pak_header::PAK_VERSION_V5,
        PakHeader::V4(h) => h.version == crate::pak_header::PAK_VERSION_V4,
    }
}

proof fn lemma_header_bytes_len(header: PakHeader)
    ensures
        header.spec_bytes().len() == header.spec_size(),
{
    vstd::bytes::lemma_auto_spec_u32_to_from_le_bytes();
    vstd::bytes::lemma_auto_spec_u16_to_from_le_bytes();
}

proof fn lemma_entry_rows_len(header: PakHeader, files: Seq<PakFileContent>, k: int)
    requires
        k >= 0,
    ensures
        spec_entry_rows(header, files, k).len() == PAK_ENTRY_SIZE * k,
    decreases k,
{
    vstd::bytes::lemma_auto_spec_u32_to_from_le_bytes();
    vstd::bytes::lemma_auto_spec_u16_to_from_le_bytes();
    if k > 0 {
        lemma_entry_rows_len(header, files, k - 1);
    }
}

proof fn lemma_entry_rows_at(header: PakHeader, files: Seq<PakFileContent>, k: int, i: int)
    requires
        0 <= i < k,
    ensures
        spec_entry_rows(header, files, k).subrange(
            PAK_ENTRY_SIZE * i,
            PAK_ENTRY_SIZE * i + PAK_ENTRY_SIZE,
        ) == spec_entry_bytes(spec_pack_entry(header, files, i)),
    decreases k,
{
    lemma_entry_rows_len(header, files, k - 1);
    lemma_entry_bytes_roundtrip(spec_pack_entry(header, files, k - 1));
    if i < k - 1 {
        lemma_entry_rows_at(header, files, k - 1, i);
        assert(spec_entry_rows(header, files, k).subrange(
            PAK_ENTRY_SIZE * i,
            PAK_ENTRY_SIZE * i + PAK_ENTRY_SIZE,
        ) =~= spec_entry_rows(header, files, k - 1).subrange(
            PAK_ENTRY_SIZE * i,
            PAK_ENTRY_SIZE * i + PAK_ENTRY_SIZE,
        ));
    } else {
        assert(spec_entry_rows(header, files, k).subrange(
            PAK_ENTRY_SIZE * i,
            PAK_ENTRY_SIZE * i + PAK_ENTRY_SIZE,
        ) =~= spec_entry_bytes(spec_pack_entry(header, files, i)));
    }
}

proof fn lemma_alias_rows_len(aliases: Seq<PakAlias>, k: int)
    requires
        k >= 0,
    ensures
        spec_alias_rows(aliases, k).len() == crate::pak_def::PAK_ALIAS_SIZE * k,
    decreases k,
{
    vstd::bytes::lemma_auto_spec_u16_to_from_le_bytes();
    if k > 0 {
        lemma_alias_rows_len(aliases, k - 1);
    }
}

proof fn lemma_alias_rows_at(aliases: Seq<PakAlias>, k: int, i: int)
    requires
        0 <= i < k,
    ensures
        spec_alias_rows(aliases, k).subrange(4 * i, 4 * i + 4) == spec_alias_bytes(aliases[i]),
    decreases k,
{
    lemma_alias_rows_len(aliases, k - 1);
    lemma_alias_bytes_roundtrip(aliases[k - 1]);
    if i < k - 1 {
        lemma_alias_rows_at(aliases, k - 1, i);
        assert(spec_alias_rows(aliases, k).subrange(4 * i, 4 * i + 4) =~= spec_alias_rows(
            aliases,
            k - 1,
        ).subrange(4 * i, 4 * i + 4));
    } else {
        assert(spec_alias_rows(aliases, k).subrange(4 * i, 4 * i + 4) =~= spec_alias_bytes(
            aliases[i],
        ));
    }
}

proof fn lemma_payload_len(files: Seq<PakFileContent>, k: int)
    requires
        k >= 0,
    ensures
        spec_payload_bytes(files, k).len() == spec_files_size(files, k),
        spec_files_size(files, k) >= 0,
    decreases k,
{
    if k > 0 {
        lemma_payload_len(files, k - 1);
    }
}

proof fn lemma_payload_at(files: Seq<PakFileContent>, k: int, i: int)
    requires
        0 <= i < k,
    ensures
        spec_payload_bytes(files, k).subrange(
            spec_files_size(files, i),
            spec_files_size(files, i + 1),
        ) == files[i].content@,
    decreases k,
{
    lemma_payload_len(files, k - 1);
    lemma_payload_len(files, i);
    lemma_files_size_mono(files, i + 1, k);
    if i < k - 1 {
        lemma_payload_at(files, k - 1, i);
        lemma_files_size_mono(files, i + 1, k - 1);
        assert(spec_payload_bytes(files, k).subrange(
            spec_files_size(files, i),
            spec_files_size(files, i + 1),
        ) =~= spec_payload_bytes(files, k - 1).subrange(
            spec_files_size(files, i),
            spec_files_size(files, i + 1),
        ));
    } else {
        assert(spec_payload_bytes(files, k).subrange(
            spec_files_size(files, i),
            spec_files_size(files, i + 1),
        ) =~= files[i].content@);
    }
}

/// With no overflow reported, every cumulative offset fits the 32-bit field.
proof fn lemma_overflow_none_bounds(header: PakHeader, files: Seq<PakFileContent>, i: int)
    requires
        0 <= i <= files.len(),
        spec_pack_overflow(header, files, i) is None,
    ensures
        forall|j: int|
            i <= j <= files.len() ==> #[trigger] spec_pack_offset(header, files, j) <= u32::MAX,
    decreases files.len() - i,
{
    if i < files.len() {
        lemma_overflow_none_bounds(header, files, i + 1);
    }
}

/// The resource view the entry table of a packed archive describes: each id
/// with its canonical byte range.
pub open spec fn spec_packed_file_view(
    header: PakHeader,
    files: Seq<PakFileContent>,
    i: int,
) -> crate::pak_file::PakFile {
    crate::pak_file::PakFile {
        id: files[i].resource_id,
        begin: spec_pack_offset(header, files, i) as usize,
        end: spec_pack_offset(header, files, i + 1) as usize,
    }
}

proof fn lemma_pack_rec_parse(
    header: PakHeader,
    files: Seq<PakFileContent>,
    aliases: Seq<PakAlias>,
    b: Seq<u8>,
    i: int,
)
    requires
        spec_header_wf(header),
        header.spec_resource_count() == files.len(),
        header.spec_alias_count() == aliases.len(),
        files.len() > 0,
        spec_pack_overflow(header, files, 0) is None,
        b == spec_pack_bytes(header, files, aliases),
        0 <= i <= files.len(),
    ensures
        spec_parse_files_rec(
            b,
            header.spec_size() + PAK_ENTRY_SIZE * (i + 1),
            spec_pack_entry_or_sentinel(header, files, i),
            (files.len() - i) as nat,
        ) == Ok::<Seq<crate::pak_file::PakFile>, PakError>(
            Seq::new((files.len() - i) as nat, |j: int| spec_packed_file_view(header, files, i + j)),
        ),
    decreases files.len() - i,
{
    let n = files.len() as int;
    let hs = header.spec_size();
    lemma_header_bytes_len(header);
    lemma_entry_rows_len(header, files, n);
    lemma_entry_bytes_roundtrip(spec_pack_sentinel(header, files));
    lemma_alias_rows_len(aliases, aliases.len() as int);
    lemma_payload_len(files, n);
    lemma_overflow_none_bounds(header, files, 0);
    let base = hs + PAK_ENTRY_SIZE * (i + 1);
    let k = (n - i) as nat;
    if i == n {
        assert(spec_parse_files_rec(b, base, spec_pack_entry_or_sentinel(header, files, i), 0)
            == Ok::<Seq<crate::pak_file::PakFile>, PakError>(Seq::empty()));
        assert(Seq::new(0, |j: int| spec_packed_file_view(header, files, i + j)) =~= Seq::<
            crate::pak_file::PakFile,
        >::empty());
    } else {
        // the record at table position i + 1 reads back
        let next = spec_pack_entry_or_sentinel(header, files, i + 1);
        lemma_packed_entry_read(header, files, aliases, b, i + 1);
        assert(spec_read_entry(b, base) == Ok::<PakEntry, PakError>(next));
        let prev = spec_pack_entry_or_sentinel(header, files, i);
        lemma_files_size_mono(files, i, i + 1);
        lemma_files_size_mono(files, i + 1, n);
        lemma_files_size_nonneg(files, i);
        assert(next.offset <= b.len());
        assert(prev.offset <= next.offset);
        lemma_pack_rec_parse(header, files, aliases, b, i + 1);
        let rest = Seq::new(
            (n - i - 1) as nat,
            |j: int| spec_packed_file_view(header, files, i + 1 + j),
        );
        assert(seq![
            crate::pak_file::spec_file_of(prev, next),
        ] + rest =~= Seq::new(k, |j: int| spec_packed_file_view(header, files, i + j)));
    }
}

/// The entry record at table position `i` (the sentinel at position
/// `files.len()`).
pub open spec fn spec_pack_entry_or_sentinel(
    header: PakHeader,
    files: Seq<PakFileContent>,
    i: int,
) -> PakEntry {
    if i < files.len() {
        spec_pack_entry(header, files, i)
    } else {
        spec_pack_sentinel(header, files)
    }
}

/// Reading table position `i` out of a packed archive yields its record.
proof fn lemma_packed_entry_read(
    header: PakHeader,
    files: Seq<PakFileContent>,
    aliases: Seq<PakAlias>,
    b: Seq<u8>,
    i: int,
)
    requires
        b == spec_pack_bytes(header, files, aliases),
        0 <= i <= files.len(),
    ensures
        spec_read_entry(b, header.spec_size() + PAK_ENTRY_SIZE * i) == Ok::<PakEntry, PakError>(
            spec_pack_entry_or_sentinel(header, files, i),
        ),
{
    let n = files.len() as int;
    let hs = header.spec_size();
    lemma_header_bytes_len(header);
    lemma_entry_rows_len(header, files, n);
    lemma_alias_rows_len(aliases, aliases.len() as int);
    lemma_payload_len(files, n);
    let pos = hs + PAK_ENTRY_SIZE * i;
    let row = if i < n {
        lemma_entry_rows_at(header, files, n, i);
        spec_entry_bytes(spec_pack_entry(header, files, i))
    } else {
        spec_entry_bytes(spec_pack_sentinel(header, files))
    };
    lemma_entry_bytes_roundtrip(spec_pack_entry_or_sentinel(header, files, i));
    assert(b.subrange(pos, pos + PAK_ENTRY_SIZE) =~= row);
    assert(spec_entry_of_bytes(b, pos).resource_id == spec_entry_of_bytes(row, 0).resource_id) by {
        assert(b.subrange(pos, pos + 2) =~= row.subrange(0, 2));
    }
    assert(spec_entry_of_bytes(b, pos).offset == spec_entry_of_bytes(row, 0).offset) by {
        assert(b.subrange(pos + 2, pos + 6) =~= row.subrange(2, 6));
    }
}

/// Round trip of the binary layout: an archive packed from a well-formed
/// header, resource contents and aliases parses back to exactly them: the
/// same header, one extracted resource per packed content with its id and
/// its exact bytes, and the same alias table.
#[verifier::rlimit(100)]
#[verifier::spinoff_prover]
pub proof fn lemma_pack_parse_roundtrip(
    header: PakHeader,
    files: Seq<PakFileContent>,
    aliases: Seq<PakAlias>,
)
    requires
        spec_header_wf(header),
        header.spec_resource_count() == files.len(),
        header.spec_alias_count() == aliases.len(),
        files.len() > 0,
        spec_pack_overflow(header, files, 0) is None,
    ensures
        ({
            let b = spec_pack_bytes(header, files, aliases);
            &&& crate::pak_header::spec_read_header(b) == Ok::<PakHeader, PakError>(header)
            &&& spec_read_alias_slice(b, header.spec_alias_offset(), header.spec_alias_count())
                == Ok::<Seq<PakAlias>, PakError>(aliases)
            &&& crate::pak_file::spec_parse_files(header, b) == Ok::<
                Seq<crate::pak_file::PakFile>,
                PakError,
            >(Seq::new(files.len(), |i: int| spec_packed_file_view(header, files, i)))
            &&& forall|i: int|
                0 <= i < files.len() ==> b.subrange(
                    spec_packed_file_view(header, files, i).begin as int,
                    spec_packed_file_view(header, files, i).end as int,
                ) == (#[trigger] files[i]).content@
        }),
{
    let b = spec_pack_bytes(header, files, aliases);
    let n = files.len() as int;
    let m = aliases.len() as int;
    let hs = header.spec_size();
    vstd::bytes::lemma_auto_spec_u32_to_from_le_bytes();
    vstd::bytes::lemma_auto_spec_u16_to_from_le_bytes();
    lemma_header_bytes_len(header);
    lemma_entry_rows_len(header, files, n);
    lemma_alias_rows_len(aliases, m);
    lemma_payload_len(files, n);
    lemma_overflow_none_bounds(header, files, 0);
    lemma_files_size_nonneg(files, n);
    let hb = header.spec_bytes();
    assert(b.subrange(0, hs) =~= hb);

    // the header reads back
    assert(b.subrange(0, 4) =~= hb.subrange(0, 4));
    match header {
        PakHeader::V5(h) => {
            assert(hb.subrange(0, 4) =~= vstd::bytes::spec_u32_to_le_bytes(h.version));
            assert(crate::pak_header::spec_get_version(b) == Ok::<u32, PakError>(h.version));
            assert(b.subrange(8, 10) =~= vstd::bytes::spec_u16_to_le_bytes(h.resource_count));
            assert(b.subrange(10, 12) =~= vstd::bytes::spec_u16_to_le_bytes(h.alias_count));
            assert(b[4] == h.encoding && b[5] == h._padding[0] && b[6] == h._padding[1] && b[7]
                == h._padding[2]);
            assert(crate::pak_header::spec_header_v5_of_bytes(b)._padding =~= h._padding);
            assert(crate::pak_header::spec_header_v5_of_bytes(b) == h);
            assert(crate::pak_header::spec_read_header(b) == Ok::<PakHeader, PakError>(header));
        },
        PakHeader::V4(h) => {
            assert(hb.subrange(0, 4) =~= vstd::bytes::spec_u32_to_le_bytes(h.version));
            assert(crate::pak_header::spec_get_version(b) == Ok::<u32, PakError>(h.version));
            assert(b.subrange(4, 8) =~= vstd::bytes::spec_u32_to_le_bytes(h.resource_count));
            assert(b[8] == h.encoding);
            assert(crate::pak_header::spec_header_v4_of_bytes(b) == h);
            assert(crate::pak_header::spec_read_header(b) == Ok::<PakHeader, PakError>(header));
        },
    }

    // the entry table reads back
    lemma_packed_entry_read(header, files, aliases, b, 0);
    lemma_pack_rec_parse(header, files, aliases, b, 0);
    assert(Seq::new((n - 0) as nat, |j: int| spec_packed_file_view(header, files, 0 + j)) =~= Seq::new(
        files.len(),
        |i: int| spec_packed_file_view(header, files, i),
    ));

    // the alias table reads back
    let ao = header.spec_alias_offset();
    if m == 0 {
        assert(spec_read_alias_slice(b, ao, header.spec_alias_count()) == Ok::<
            Seq<PakAlias>,
            PakError,
        >(Seq::empty()));
        assert(aliases =~= Seq::<PakAlias>::empty());
    } else {
        assert(header is V5);
        assert(ao == hs + PAK_ENTRY_SIZE * (n + 1));
        assert(b.len() - ao >= 4 * m);
        assert forall|j: int| 0 <= j < m implies spec_alias_of_bytes(b, ao + 4 * j) == aliases[j] by {
            lemma_alias_rows_at(aliases, m, j);
            lemma_alias_bytes_roundtrip(aliases[j]);
            let row = spec_alias_bytes(aliases[j]);
            assert(b.subrange(ao + 4 * j, ao + 4 * j + 2) =~= row.subrange(0, 2));
            assert(b.subrange(ao + 4 * j + 2, ao + 4 * j + 4) =~= row.subrange(2, 4));
        }
        assert(Seq::new(aliases.len(), |j: int| spec_alias_of_bytes(b, ao + 4 * j)) =~= aliases);
    }

    // each packed content sits exactly in its entry's byte range
    let data_base = spec_data_base(header);
    assert forall|i: int| 0 <= i < n implies b.subrange(
        spec_packed_file_view(header, files, i).begin as int,
        spec_packed_file_view(header, files, i).end as int,
    ) == (#[trigger] files[i]).content@ by {
        lemma_payload_at(files, n, i);
        lemma_files_size_mono(files, i, i + 1);
        lemma_files_size_mono(files, i + 1, n);
        lemma_files_size_nonneg(files, i);
        assert(b.subrange(data_base + spec_files_size(files, i), data_base + spec_files_size(
            files,
            i + 1,
        )) =~= spec_payload_bytes(files, n).subrange(
            spec_files_size(files, i),
            spec_files_size(files, i + 1),
        ));
    }
}



/// The packed bytes depend only on each resource's id and content bytes:
/// two file lists that agree pointwise pack identically.
pub proof fn lemma_pack_bytes_congruence(
    header: PakHeader,
    f1: Seq<PakFileContent>,
    f2: Seq<PakFileContent>,
    aliases: Seq<PakAlias>,
)
    requires
        f1.len() == f2.len(),
        forall|i: int|
            0 <= i < f1.len() ==> (#[trigger] f1[i]).resource_id == (#[trigger] f2[i]).resource_id
                && f1[i].content@ == f2[i].content@,
    ensures
        spec_pack_bytes(header, f1, aliases) == spec_pack_bytes(header, f2, aliases),
{
    let n = f1.len() as int;
    lemma_files_size_congruence(f1, f2, n);
    lemma_entry_rows_congruence(header, f1, f2, n);
    lemma_payload_congruence(f1, f2, n);
    assert(spec_pack_sentinel(header, f1) == spec_pack_sentinel(header, f2));
}

proof fn lemma_files_size_congruence(f1: Seq<PakFileContent>, f2: Seq<PakFileContent>, k: int)
    requires
        f1.len() == f2.len(),
        k <= f1.len(),
        forall|i: int|
            0 <= i < f1.len() ==> (#[trigger] f1[i]).resource_id == (#[trigger] f2[i]).resource_id
                && f1[i].content@ == f2[i].content@,
    ensures
        spec_files_size(f1, k) == spec_files_size(f2, k),
    decreases k,
{
    if k > 0 {
        lemma_files_size_congruence(f1, f2, k - 1);
    }
}

proof fn lemma_entry_rows_congruence(
    header: PakHeader,
    f1: Seq<PakFileContent>,
    f2: Seq<PakFileContent>,
    k: int,
)
    requires
        f1.len() == f2.len(),
        k <= f1.len(),
        forall|i: int|
            0 <= i < f1.len() ==> (#[trigger] f1[i]).resource_id == (#[trigger] f2[i]).resource_id
                && f1[i].content@ == f2[i].content@,
    ensures
        spec_entry_rows(header, f1, k) == spec_entry_rows(header, f2, k),
    decreases k,
{
    if k > 0 {
        lemma_entry_rows_congruence(header, f1, f2, k - 1);
        lemma_files_size_congruence(f1, f2, k - 1);
    }
}

proof fn lemma_payload_congruence(f1: Seq<PakFileContent>, f2: Seq<PakFileContent>, k: int)
    requires
        f1.len() == f2.len(),
        k <= f1.len(),
        forall|i: int|
            0 <= i < f1.len() ==> (#[trigger] f1[i]).resource_id == (#[trigger] f2[i]).resource_id
                && f1[i].content@ == f2[i].content@,
    ensures
        spec_payload_bytes(f1, k) == spec_payload_bytes(f2, k),
    decreases k,
{
    if k > 0 {
        lemma_payload_congruence(f1, f2, k - 1);
    }
}

} // verus!
