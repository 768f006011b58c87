//! Which overflow blobs are taken, said of their bytes.

use vstd::prelude::*;

use super::classifier_laws::{lemma_bits_differ, lemma_same_bits};
use super::header::SeriesHeaderV3;
use super::hot::kind_bit_of;
use super::overflow_laws::{
    blob_entry_law, blob_entry_start, lemma_entries_read, lemma_entries_stored, sound_entries,
    stores_blob, stores_entry,
};
use super::reader::{
    bound_blob_result, entries_mask, physical_blob_result, physical_entries_result,
    plan_blob_result, ChunkLocatorSource, PlannedSeries,
};
use super::root_binding::Schema7OverflowBlobFacts;
use crate::bytes::u32_at;
use crate::chunk::overflow::{entry_before, ChunkOverflowRootV2, OverflowChunkEntryV1};
use crate::chunk::ChunkKind;
use crate::error::ErrorKind;

verus! {

/// One of the first `n` entries is of this kind.
pub open spec fn entry_of_kind(entries: Seq<OverflowChunkEntryV1>, n: nat, kind: ChunkKind) -> bool {
    exists|i: int| 0 <= i < n && (#[trigger] entries[i]).kind == kind
}

/// The mask has the bits of the kinds of the entries, and no others.
pub open spec fn masks_entries(mask: u8, entries: Seq<OverflowChunkEntryV1>) -> bool {
    mask < 32 && forall|kind: ChunkKind|
        mask & #[trigger] kind_bit_of(kind.code_of()) != 0 <==> entry_of_kind(
            entries,
            entries.len(),
            kind,
        )
}

proof fn lemma_entry_bits(entries: Seq<OverflowChunkEntryV1>, n: nat, kind: ChunkKind)
    requires
        n <= entries.len(),
    ensures
        entries_mask(entries, n) < 32,
        entries_mask(entries, n) & kind_bit_of(kind.code_of()) != 0 <==> entry_of_kind(
            entries,
            n,
            kind,
        ),
    decreases n,
{
    let bit = kind_bit_of(kind.code_of());
    if n == 0 {
        assert(0u8 & bit == 0) by (bit_vector);
    } else {
        lemma_entry_bits(entries, (n - 1) as nat, kind);
        let before = entries_mask(entries, (n - 1) as nat);
        let last = kind_bit_of(entries[n - 1].kind.code_of());
        assert((before | last) & bit != 0 <==> before & bit != 0 || last & bit != 0)
            by (bit_vector);
        assert(before < 32 && last <= 16 ==> before | last < 32) by (bit_vector);
        lemma_bits_differ(entries[n - 1].kind, kind);
        if entry_of_kind(entries, n, kind) {
            let i = choose|i: int| 0 <= i < n && (#[trigger] entries[i]).kind == kind;
            if i < n - 1 {
                assert(entry_of_kind(entries, (n - 1) as nat, kind));
            }
        }
        if entry_of_kind(entries, (n - 1) as nat, kind) {
            let i = choose|i: int| 0 <= i < n - 1 && (#[trigger] entries[i]).kind == kind;
            assert(entries[i].kind == kind && i < n);
        }
        if entries[n - 1].kind == kind {
            assert(entry_of_kind(entries, n, kind));
        }
    }
}

/// The mask of entries is the one that has the bits of their kinds, and no others.
pub proof fn entry_mask_law(mask: u8, entries: Seq<OverflowChunkEntryV1>)
    ensures
        mask == entries_mask(entries, entries.len()) <==> masks_entries(mask, entries),
{
    let own = entries_mask(entries, entries.len());
    assert forall|kind: ChunkKind|
        own & #[trigger] kind_bit_of(kind.code_of()) != 0 <==> entry_of_kind(
            entries,
            entries.len(),
            kind,
        ) by {
        lemma_entry_bits(entries, entries.len(), kind);
    }
    lemma_entry_bits(entries, entries.len(), ChunkKind::Float);
    if masks_entries(mask, entries) {
        lemma_same_bits(mask, own);
    }
}

/// A blob of one chunk that a hot record has room for would not be stored.
pub open spec fn needs_blob(header: SeriesHeaderV3, entries: Seq<OverflowChunkEntryV1>) -> bool {
    ||| entries.len() > 1
    ||| entries[0].max_time_ms - header.segment_start_ms >= 0x1_0000_0000
    ||| entries[0].offset >= 0x1_0000_0000
    ||| entries[0].scalar_lane_len >= 0x20_0000
}

/// The header and the root of the chunk index are of one segment, and the facts are the root's.
pub open spec fn facts_of_index(
    header: SeriesHeaderV3,
    root: ChunkOverflowRootV2,
    facts: Schema7OverflowBlobFacts,
) -> bool {
    &&& header.num_series == root.series_count
    &&& header.chunk_index_file_len == root.file_len
    &&& header.chunk_index_root_crc32c == root.root_crc32c
    &&& facts.root_len == 64
    &&& facts.blobs_offset == 64
    &&& facts.blob_count == root.blob_count
    &&& facts.blobs_len == root.blobs_len
    &&& facts.file_len == root.file_len
}

/// The bytes at this place of the chunk index are the blob of a series with these chunks.
pub open spec fn sound_blob(
    header: SeriesHeaderV3,
    root: ChunkOverflowRootV2,
    blob_offset: u64,
    bytes: Seq<u8>,
    chunk_file_lens: [u64; 2],
    entries: Seq<OverflowChunkEntryV1>,
) -> bool {
    &&& 64 <= blob_offset
    &&& blob_offset + bytes.len() <= 64 + root.blobs_len <= u64::MAX
    &&& blob_offset + bytes.len() <= root.file_len
    &&& u32_at(bytes, 8) < root.series_count
    &&& stores_blob(bytes, u32_at(bytes, 8), entries)
    &&& sound_entries(header, chunk_file_lens, entries)
    &&& needs_blob(header, entries)
}

proof fn lemma_entries_rise(
    header: SeriesHeaderV3,
    bytes: Seq<u8>,
    chunk_file_lens: [u64; 2],
    n: nat,
)
    requires
        blob_entry_start(n as int) <= bytes.len(),
        physical_entries_result(header, bytes, chunk_file_lens, n) is Ok,
    ensures
        ({
            let entries = physical_entries_result(header, bytes, chunk_file_lens, n)->Ok_0;
            forall|i: int, j: int|
                0 <= i < j < n ==> entry_before(#[trigger] entries[i], #[trigger] entries[j])
        }),
    decreases n,
{
    if n > 0 {
        lemma_entries_rise(header, bytes, chunk_file_lens, (n - 1) as nat);
        lemma_entries_stored(header, bytes, chunk_file_lens, n);
        lemma_entries_stored(header, bytes, chunk_file_lens, (n - 1) as nat);
        let before = physical_entries_result(
            header,
            bytes,
            chunk_file_lens,
            (n - 1) as nat,
        )->Ok_0;
        let entries = physical_entries_result(header, bytes, chunk_file_lens, n)->Ok_0;
        if n > 1 {
            assert(stores_entry(bytes, n - 2, before[n - 2]));
            blob_entry_law(bytes, n - 2, before[n - 2]);
            assert(entry_before(before[n - 2], entries[n - 1]));
        }
        assert forall|i: int, j: int| 0 <= i < j < n implies entry_before(
            #[trigger] entries[i],
            #[trigger] entries[j],
        ) by {
            assert(entries[i] == before[i]);
            if j < n - 1 {
                assert(entries[j] == before[j]);
            } else if i < n - 2 {
                assert(entry_before(before[i], before[n - 2]));
            }
        }
    }
}

/// A blob is taken exactly when its bytes store sound chunks under the checksum and it lies
/// among the blobs of its index; the series, the number and kinds of the chunks, and the chunks
/// themselves are those that the bytes store.
pub proof fn physical_blob_law(
    header: SeriesHeaderV3,
    root: ChunkOverflowRootV2,
    facts: Schema7OverflowBlobFacts,
    blob_offset: u64,
    bytes: Seq<u8>,
    chunk_file_lens: [u64; 2],
    entries: Seq<OverflowChunkEntryV1>,
)
    ensures
        ({
            let result = physical_blob_result(
                header,
                root,
                facts,
                blob_offset,
                bytes,
                chunk_file_lens,
            );
            &&& result is Ok && result->Ok_0.1 == entries <==> facts_of_index(header, root, facts)
                && sound_blob(header, root, blob_offset, bytes, chunk_file_lens, entries)
            &&& result is Ok && result->Ok_0.1 == entries ==> {
                &&& result->Ok_0.0.series_ref == u32_at(bytes, 8)
                &&& result->Ok_0.0.chunk_count == entries.len()
                &&& masks_entries(result->Ok_0.0.kind_mask, entries)
            }
        }),
{
    let result = physical_blob_result(header, root, facts, blob_offset, bytes, chunk_file_lens);
    if result is Ok && result->Ok_0.1 == entries {
        let count = u32_at(bytes, 12) as nat;
        lemma_entries_stored(header, bytes, chunk_file_lens, count);
        lemma_entries_rise(header, bytes, chunk_file_lens, count);
        entry_mask_law(result->Ok_0.0.kind_mask, entries);
    }
    if facts_of_index(header, root, facts) && sound_blob(
        header,
        root,
        blob_offset,
        bytes,
        chunk_file_lens,
        entries,
    ) {
        lemma_entries_read(
            header,
            bytes,
            chunk_file_lens,
            u32_at(bytes, 8),
            entries,
            entries.len(),
        );
        assert(entries.take(entries.len() as int) =~= entries);
    }
}

/// The bytes are the blob that a planned series names: the series, the length and the number of
/// chunks are the ones planned, and the mask of the series names the kinds of the chunks.
pub open spec fn blob_of_series(
    header: SeriesHeaderV3,
    root: ChunkOverflowRootV2,
    planned: PlannedSeries,
    bytes: Seq<u8>,
    chunk_file_lens: [u64; 2],
) -> bool {
    match planned.chunks {
        ChunkLocatorSource::Inline(_) => false,
        ChunkLocatorSource::Overflow { locator, expected_kind_mask } => {
            &&& planned.series_ref < header.num_series
            &&& locator.series_ref == planned.series_ref
            &&& expected_kind_mask == planned.kind_mask
            &&& u32_at(bytes, 8) == planned.series_ref
            &&& u32_at(bytes, 12) == locator.chunk_count
            &&& bytes.len() == locator.blob_len
            &&& exists|entries: Seq<OverflowChunkEntryV1>|
                #[trigger] sound_blob(
                    header,
                    root,
                    locator.blob_offset,
                    bytes,
                    chunk_file_lens,
                    entries,
                ) && masks_entries(planned.kind_mask, entries)
        },
    }
}

/// The blob of a planned series is taken exactly when it is the one that the series names, and
/// the series' chunks are then planned.
pub proof fn series_blob_law(
    bytes: Seq<u8>,
    header: SeriesHeaderV3,
    root: ChunkOverflowRootV2,
    facts: Schema7OverflowBlobFacts,
    planned: PlannedSeries,
    chunk_file_lens: [u64; 2],
)
    ensures
        ({
            let blob = bound_blob_result(bytes, header, root, facts, planned, chunk_file_lens);
            &&& blob is Ok <==> facts_of_index(header, root, facts) && blob_of_series(
                header,
                root,
                planned,
                bytes,
                chunk_file_lens,
            )
            &&& blob is Ok ==> {
                &&& blob->Ok_0.bytes == bytes
                &&& plan_blob_result(
                    header,
                    root,
                    facts,
                    planned,
                    blob->Ok_0,
                    chunk_file_lens,
                ) is Ok
            }
            &&& blob is Err ==> blob->Err_0.kind == ErrorKind::InvalidData
        }),
{
    let blob = bound_blob_result(bytes, header, root, facts, planned, chunk_file_lens);
    lemma_blob_kind(header, bytes, chunk_file_lens, u32_at(bytes, 12) as nat);
    if let ChunkLocatorSource::Overflow { locator, expected_kind_mask } = planned.chunks {
        let physical = physical_blob_result(
            header,
            root,
            facts,
            locator.blob_offset,
            bytes,
            chunk_file_lens,
        );
        if blob is Ok {
            let entries = physical->Ok_0.1;
            physical_blob_law(
                header,
                root,
                facts,
                locator.blob_offset,
                bytes,
                chunk_file_lens,
                entries,
            );
            assert(sound_blob(header, root, locator.blob_offset, bytes, chunk_file_lens, entries));
        }
        if facts_of_index(header, root, facts) && blob_of_series(
            header,
            root,
            planned,
            bytes,
            chunk_file_lens,
        ) {
            let entries = choose|entries: Seq<OverflowChunkEntryV1>|
                #[trigger] sound_blob(
                    header,
                    root,
                    locator.blob_offset,
                    bytes,
                    chunk_file_lens,
                    entries,
                ) && masks_entries(planned.kind_mask, entries);
            physical_blob_law(
                header,
                root,
                facts,
                locator.blob_offset,
                bytes,
                chunk_file_lens,
                entries,
            );
            entry_mask_law(planned.kind_mask, entries);
            entry_mask_law(physical->Ok_0.0.kind_mask, entries);
        }
    }
}

proof fn lemma_blob_kind(
    header: SeriesHeaderV3,
    bytes: Seq<u8>,
    chunk_file_lens: [u64; 2],
    n: nat,
)
    ensures
        physical_entries_result(header, bytes, chunk_file_lens, n) matches Err(error)
            ==> error.kind == ErrorKind::InvalidData,
    decreases n,
{
    if n > 0 {
        lemma_blob_kind(header, bytes, chunk_file_lens, (n - 1) as nat);
    }
}

} // verus!
