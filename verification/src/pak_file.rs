//! File-boundary extraction: walking the sentinel-terminated entry table and
//! deriving each resource's byte range inside the archive buffer.
use vstd::prelude::*;

use crate::pak_def::{spec_read_entry, PakBaseOffset, PakEntry, PAK_ENTRY_SIZE};
use crate::pak_error::PakError;
use crate::pak_header::PakHeader;

verus! {

/// One extracted resource: its id and the byte range `[begin, end)` it
/// occupies inside the archive buffer. The range never owns the bytes.
#[derive(Clone, Copy, Debug, PartialEq, Eq, Structural)]
pub struct PakFile {
    pub id: u16,
    pub begin: usize,
    pub end: usize,
}

/// The resource spanned by two consecutive entries: the earlier entry names
/// it and its range runs up to the later entry's offset.
pub open spec fn spec_file_of(prev: PakEntry, cur: PakEntry) -> PakFile {
    PakFile { id: prev.resource_id, begin: prev.offset as usize, end: cur.offset as usize }
}

/// What walking `k` further entries at `base` yields, `prev` being the entry
/// just before them: one resource per consecutive pair, or the first failure.
/// An entry offset past the buffer end, or one smaller than its predecessor,
/// is rejected as an offset overflow.
pub open spec fn spec_parse_files_rec(
    b: Seq<u8>,
    base: int,
    prev: PakEntry,
    k: nat,
) -> Result<Seq<PakFile>, PakError>
    decreases k,
{
    if k == 0 {
        Ok(Seq::empty())
    } else {
        match spec_read_entry(b, base) {
            Err(e) => Err(e),
            Ok(cur) => {
                if cur.offset > b.len() {
                    Err(
                        PakError::PakEntryOrAliasOffsetOverflow(
                            b.len() as usize,
                            cur.offset as usize,
                        ),
                    )
                } else if prev.offset > cur.offset {
                    Err(
                        PakError::PakEntryOrAliasOffsetOverflow(
                            b.len() as usize,
                            prev.offset as usize,
                        ),
                    )
                } else {
                    match spec_parse_files_rec(b, base + PAK_ENTRY_SIZE, cur, (k - 1) as nat) {
                        Err(e) => Err(e),
                        Ok(rest) => Ok(seq![spec_file_of(prev, cur)] + rest),
                    }
                }
            },
        }
    }
}

/// What extracting all resources of `header` out of `b` yields: the
/// `resource_count + 1` entries after the header read pairwise, the sentinel
/// consumed only as the end marker of the last resource.
pub open spec fn spec_parse_files(header: PakHeader, b: Seq<u8>) -> Result<Seq<PakFile>, PakError> {
    if header.spec_resource_count() == 0 {
        Err(PakError::PakZeroResourceCount)
    } else {
        match spec_read_entry(b, header.spec_size()) {
            Err(e) => Err(e),
            Ok(first) => spec_parse_files_rec(
                b,
                header.spec_size() + PAK_ENTRY_SIZE,
                first,
                header.spec_resource_count() as nat,
            ),
        }
    }
}

/// Extracts the resources of `header` from the archive buffer: reads
/// `resource_count + 1` entries starting right after the header and emits one
/// id + byte range per consecutive pair.
pub fn pak_parse_files(header: &PakHeader, buf: &[u8]) -> (r: Result<Vec<PakFile>, PakError>)
    ensures
        match r {
            Ok(v) => spec_parse_files(*header, buf@) == Ok::<Seq<PakFile>, PakError>(v@),
            Err(e) => spec_parse_files(*header, buf@) == Err::<Seq<PakFile>, PakError>(e),
        },
{
    let count = header.read_resource_count();
    if count == 0 {
        return Err(PakError::PakZeroResourceCount);
    }
    let mut prev = match PakEntry::from_buf_offset(buf, header.size()) {
        Ok(e) => e,
        Err(e) => {
            return Err(e);
        },
    };
    let mut base: usize = header.size() + PAK_ENTRY_SIZE;
    let mut vec: Vec<PakFile> = Vec::new();
    let mut i: u32 = 0;
    while i < count
        invariant
            i <= count,
            vec@.len() == i,
            base <= buf@.len() || i == 0,
            spec_parse_files(*header, buf@) == (match spec_parse_files_rec(
                buf@,
                base as int,
                prev,
                (count - i) as nat,
            ) {
                Ok(rest) => Ok::<Seq<PakFile>, PakError>(vec@ + rest),
                Err(e) => Err::<Seq<PakFile>, PakError>(e),
            }),
        decreases count - i,
    {
        let cur = match PakEntry::from_buf_offset(buf, base) {
            Ok(e) => e,
            Err(e) => {
                return Err(e);
            },
        };
        if cur.offset as usize > buf.len() {
            return Err(PakError::PakEntryOrAliasOffsetOverflow(buf.len(), cur.offset as usize));
        }
        if prev.offset > cur.offset {
            return Err(PakError::PakEntryOrAliasOffsetOverflow(buf.len(), prev.offset as usize));
        }
        let ghost prior = vec@;
        vec.push(PakFile { id: prev.resource_id, begin: prev.offset as usize, end: cur.offset as usize });
        proof {
            let k = (count - i) as nat;
            let head = seq![spec_file_of(prev, cur)];
            assert(vec@ =~= prior + head);
            assert(spec_parse_files_rec(buf@, base as int, prev, k) == (
            match spec_parse_files_rec(buf@, base + PAK_ENTRY_SIZE, cur, (k - 1) as nat) {
                Ok(rest) => Ok::<Seq<PakFile>, PakError>(head + rest),
                Err(e) => Err::<Seq<PakFile>, PakError>(e),
            }));
            let res0 = spec_parse_files_rec(buf@, base + PAK_ENTRY_SIZE, cur, (k - 1) as nat);
            if res0 is Ok {
                let rest = res0->Ok_0;
                assert(prior + (head + rest) =~= vec@ + rest);
            }
        }
        prev = cur;
        base = base + PAK_ENTRY_SIZE;
        i = i + 1;
    }
    proof {
        assert(vec@ + Seq::<PakFile>::empty() =~= vec@);
    }
    Ok(vec)
}

proof fn lemma_parse_files_rec_props(b: Seq<u8>, base: int, prev: PakEntry, k: nat)
    requires
        spec_parse_files_rec(b, base, prev, k) is Ok,
    ensures
        ({
            let files = spec_parse_files_rec(b, base, prev, k)->Ok_0;
            &&& files.len() == k
            &&& forall|i: int|
                0 <= i < files.len() ==> (#[trigger] files[i]).begin <= files[i].end <= b.len()
            &&& forall|i: int|
                0 <= i < files.len() - 1 ==> (#[trigger] files[i]).end == files[i + 1].begin
            &&& k > 0 ==> files[0].begin == prev.offset
        }),
    decreases k,
{
    if k > 0 {
        let cur = spec_read_entry(b, base)->Ok_0;
        lemma_parse_files_rec_props(b, base + PAK_ENTRY_SIZE, cur, (k - 1) as nat);
    }
}

/// The extracted ranges tile the archive: each range lies inside the buffer
/// and ends exactly where the next one begins, so no two resources overlap.
pub proof fn lemma_parse_files_tile(header: PakHeader, b: Seq<u8>, files: Seq<PakFile>)
    requires
        spec_parse_files(header, b) == Ok::<Seq<PakFile>, PakError>(files),
    ensures
        files.len() == header.spec_resource_count(),
        forall|i: int|
            0 <= i < files.len() ==> (#[trigger] files[i]).begin <= files[i].end <= b.len(),
        forall|i: int|
            0 <= i < files.len() - 1 ==> (#[trigger] files[i]).end == files[i + 1].begin,
        forall|i: int, j: int|
            0 <= i < j < files.len() ==> (#[trigger] files[i]).end <= (#[trigger] files[j]).begin,
{
    let first = spec_read_entry(b, header.spec_size())->Ok_0;
    lemma_parse_files_rec_props(
        b,
        header.spec_size() + PAK_ENTRY_SIZE,
        first,
        header.spec_resource_count() as nat,
    );
    assert forall|i: int, j: int| 0 <= i < j < files.len() implies (#[trigger] files[i]).end <= (
    #[trigger] files[j]).begin by {
        lemma_files_chain(files, b, i, j);
    }
}

proof fn lemma_files_chain(files: Seq<PakFile>, b: Seq<u8>, i: int, j: int)
    requires
        0 <= i < j < files.len(),
        forall|m: int| 0 <= m < files.len() ==> (#[trigger] files[m]).begin <= files[m].end,
        forall|m: int| 0 <= m < files.len() - 1 ==> (#[trigger] files[m]).end == files[m + 1].begin,
    ensures
        files[i].end <= files[j].begin,
    decreases j - i,
{
    if i + 1 == j {
        assert(files[i].end == files[i + 1].begin);
    } else {
        lemma_files_chain(files, b, i, j - 1);
        assert(files[j - 1].end == files[j].begin);
    }
}

} // verus!
