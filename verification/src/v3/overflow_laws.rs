//! What an overflow blob gives back, said of its bytes and of the chunks that
//! were classified.

use vstd::prelude::*;

use super::classifier::{
    bind_locator_result, classify_result, mask_of, FinalChunkIndexEntryV3,
    SeriesClassifierInputV3,
};
use super::classifier_laws::{classified_series_law, overflow_entries_law, same_chunk, sound_chunk};
use super::header::SeriesHeaderV3;
use super::reader::{
    bound_blob_result, entries_mask, physical_blob_result, physical_entries_result,
    plan_blob_result, planned_series_result, ChunkLocatorSource, PlannedSeries,
};
use super::reader_laws::bound_blob_law;
use super::root_binding::Schema7OverflowBlobFacts;
use crate::bytes::{u16_at, u32_at, u64_at};
use crate::checksum::crc32c_of;
use crate::chunk::overflow::{
    blob_facts_result, crc_without, entry_before, entry_result, entry_slot,
    ChunkOverflowBlobLocatorV1, ChunkOverflowRootV2, OverflowChunkEntryV1,
    CHUNK_OVERFLOW_BLOB_V1_MAGIC,
};
use crate::chunk::{kind_of, ChunkIndexEntry, IndexedChunkAuthentication, IndexedChunkLocator};
use crate::error::Error;

verus! {

/// Where an entry of a blob begins.
pub open spec fn blob_entry_start(i: int) -> int {
    32 + 44 * i
}

/// The bytes of a blob hold an entry at its place.
pub open spec fn stores_entry(bytes: Seq<u8>, i: int, entry: OverflowChunkEntryV1) -> bool {
    let at = blob_entry_start(i);
    &&& bytes[at] == entry.file_id
    &&& kind_of(bytes[at + 1]) == Some(entry.kind)
    &&& u16_at(bytes, at + 2) == 0
    &&& u64_at(bytes, at + 4) == entry.min_time_ms
    &&& u64_at(bytes, at + 12) == entry.max_time_ms
    &&& u64_at(bytes, at + 20) == entry.offset
    &&& u32_at(bytes, at + 28) == entry.length
    &&& u32_at(bytes, at + 32) == entry.scalar_lane_offset
    &&& u32_at(bytes, at + 36) == entry.scalar_lane_len
    &&& u32_at(bytes, at + 40) == entry.indexed_prefix_crc32c
}

/// The chunk of an entry has room for its header and for its scalar lane, which
/// follows the header where there is one.
pub open spec fn lane_in_chunk(entry: OverflowChunkEntryV1) -> bool {
    if entry.scalar_lane_len == 0 {
        entry.scalar_lane_offset == 0 && 40 <= entry.length
    } else {
        entry.scalar_lane_offset == 40 && 16 <= entry.scalar_lane_len && 40
            + entry.scalar_lane_len <= entry.length
    }
}

/// An entry is read from a blob exactly where its bytes hold it.
pub proof fn blob_entry_law(bytes: Seq<u8>, i: int, entry: OverflowChunkEntryV1)
    requires
        0 <= i,
        blob_entry_start(i + 1) <= bytes.len(),
    ensures
        entry_result(entry_slot(bytes, i)) == Ok::<OverflowChunkEntryV1, Error>(entry)
            <==> stores_entry(bytes, i, entry) && lane_in_chunk(entry),
{
    let at = blob_entry_start(i);
    let slot = entry_slot(bytes, i);
    assert(slot[0] == bytes[at] && slot[1] == bytes[at + 1]);
    assert(u16_at(slot, 2) == u16_at(bytes, at + 2));
    assert(u64_at(slot, 4) == u64_at(bytes, at + 4));
    assert(u64_at(slot, 12) == u64_at(bytes, at + 12));
    assert(u64_at(slot, 20) == u64_at(bytes, at + 20));
    assert(u32_at(slot, 28) == u32_at(bytes, at + 28));
    assert(u32_at(slot, 32) == u32_at(bytes, at + 32));
    assert(u32_at(slot, 36) == u32_at(bytes, at + 36));
    assert(u32_at(slot, 40) == u32_at(bytes, at + 40));
}

/// The bytes are a blob of a series: its header with its own checksum, then its
/// entries and nothing else.
pub open spec fn stores_blob(
    bytes: Seq<u8>,
    series_ref: u32,
    entries: Seq<OverflowChunkEntryV1>,
) -> bool {
    &&& bytes.len() == blob_entry_start(entries.len() as int)
    &&& 0 < entries.len()
    &&& bytes.len() <= u32::MAX
    &&& u32_at(bytes, 0) == CHUNK_OVERFLOW_BLOB_V1_MAGIC
    &&& u16_at(bytes, 4) == 1
    &&& u16_at(bytes, 6) == 0
    &&& u32_at(bytes, 8) == series_ref
    &&& u32_at(bytes, 12) == entries.len()
    &&& u32_at(bytes, 16) == bytes.len()
    &&& u64_at(bytes, 20) == 0
    &&& u32_at(bytes, 28) == crc_without(bytes, 28)
    &&& forall|i: int| 0 <= i < entries.len() ==> stores_entry(bytes, i, #[trigger] entries[i])
}

/// An entry lies in the segment and in its file.
pub open spec fn entry_inside(
    header: SeriesHeaderV3,
    chunk_file_lens: [u64; 2],
    entry: OverflowChunkEntryV1,
) -> bool {
    &&& header.segment_start_ms <= entry.min_time_ms <= entry.max_time_ms < header.segment_end_ms
    &&& entry.file_id < 2
    &&& entry.offset + entry.length <= chunk_file_lens@[entry.file_id as int]
}

/// Entries that can stand in a blob: inside their segment, with their lanes, and
/// in strict order.
pub open spec fn sound_entries(
    header: SeriesHeaderV3,
    chunk_file_lens: [u64; 2],
    entries: Seq<OverflowChunkEntryV1>,
) -> bool {
    &&& forall|i: int|
        0 <= i < entries.len() ==> entry_inside(header, chunk_file_lens, #[trigger] entries[i])
            && lane_in_chunk(entries[i])
    &&& forall|i: int, j: int|
        0 <= i < j < entries.len() ==> entry_before(#[trigger] entries[i], #[trigger] entries[j])
}

pub(super) proof fn lemma_entries_read(
    header: SeriesHeaderV3,
    bytes: Seq<u8>,
    chunk_file_lens: [u64; 2],
    series_ref: u32,
    entries: Seq<OverflowChunkEntryV1>,
    n: nat,
)
    requires
        n <= entries.len(),
        stores_blob(bytes, series_ref, entries),
        sound_entries(header, chunk_file_lens, entries),
    ensures
        physical_entries_result(header, bytes, chunk_file_lens, n) == Ok::<
            Seq<OverflowChunkEntryV1>,
            Error,
        >(entries.take(n as int)),
    decreases n,
{
    if n == 0 {
        assert(entries.take(0) =~= Seq::empty());
    } else {
        lemma_entries_read(
            header,
            bytes,
            chunk_file_lens,
            series_ref,
            entries,
            (n - 1) as nat,
        );
        assert(stores_entry(bytes, n - 1, entries[n - 1]));
        blob_entry_law(bytes, n - 1, entries[n - 1]);
        if n > 1 {
            assert(stores_entry(bytes, n - 2, entries[n - 2]));
            blob_entry_law(bytes, n - 2, entries[n - 2]);
            assert(entry_before(entries[n - 2], entries[n - 1]));
        }
        assert(entry_inside(header, chunk_file_lens, entries[n - 1]));
        assert(entries.take(n as int) =~= entries.take(n - 1).push(entries[n - 1]));
    }
}

pub(super) proof fn lemma_entries_stored(
    header: SeriesHeaderV3,
    bytes: Seq<u8>,
    chunk_file_lens: [u64; 2],
    n: nat,
)
    requires
        blob_entry_start(n as int) <= bytes.len(),
        physical_entries_result(header, bytes, chunk_file_lens, n) is Ok,
    ensures
        ({
            let entries = physical_entries_result(header, bytes, chunk_file_lens, n)->Ok_0;
            &&& entries.len() == n
            &&& forall|i: int|
                0 <= i < n ==> stores_entry(bytes, i, #[trigger] entries[i]) && entry_inside(
                    header,
                    chunk_file_lens,
                    entries[i],
                ) && lane_in_chunk(entries[i])
        }),
    decreases n,
{
    if n > 0 {
        lemma_entries_stored(header, bytes, chunk_file_lens, (n - 1) as nat);
        let before = physical_entries_result(
            header,
            bytes,
            chunk_file_lens,
            (n - 1) as nat,
        )->Ok_0;
        let entries = physical_entries_result(header, bytes, chunk_file_lens, n)->Ok_0;
        let last = entries[n - 1];
        blob_entry_law(bytes, n - 1, last);
        assert forall|i: int| 0 <= i < n implies stores_entry(bytes, i, #[trigger] entries[i])
            && entry_inside(header, chunk_file_lens, entries[i]) && lane_in_chunk(entries[i]) by {
            if i < n - 1 {
                assert(entries[i] == before[i]);
            }
        }
    }
}

/// A locator names the chunk of the entry at a place of a blob.
pub open spec fn locates_entry(
    locator: IndexedChunkLocator,
    series_ref: u32,
    bytes: Seq<u8>,
    i: int,
) -> bool {
    let at = blob_entry_start(i);
    &&& locator.series_ref == series_ref
    &&& locator.entry.file_id == bytes[at]
    &&& kind_of(bytes[at + 1]) == Some(locator.entry.kind)
    &&& locator.entry.flags == 0
    &&& locator.entry.min_time_ms == u64_at(bytes, at + 4)
    &&& locator.entry.max_time_ms == u64_at(bytes, at + 12)
    &&& locator.entry.offset == u64_at(bytes, at + 20)
    &&& locator.entry.length == u32_at(bytes, at + 28)
    &&& locator.entry.scalar_lane_offset == u32_at(bytes, at + 32)
    &&& locator.entry.scalar_lane_len == u32_at(bytes, at + 36)
    &&& locator.authentication == (IndexedChunkAuthentication::Schema7 {
        indexed_prefix_crc32c: u32_at(bytes, at + 40),
    })
}

/// Locator `i` of a planned blob has the file, kind, times, place, lane and
/// checksum that stand in entry `i` of the bytes, and there is one for every
/// chunk that the header of the blob counts.
pub proof fn planned_blob_law(
    bytes: Seq<u8>,
    header: SeriesHeaderV3,
    root: ChunkOverflowRootV2,
    blob_facts: Schema7OverflowBlobFacts,
    planned: PlannedSeries,
    chunk_file_lens: [u64; 2],
)
    requires
        bound_blob_result(bytes, header, root, blob_facts, planned, chunk_file_lens) is Ok,
    ensures
        ({
            let blob = bound_blob_result(
                bytes,
                header,
                root,
                blob_facts,
                planned,
                chunk_file_lens,
            )->Ok_0;
            let plan = plan_blob_result(header, root, blob_facts, planned, blob, chunk_file_lens);
            &&& plan is Ok
            &&& u32_at(bytes, 8) == planned.series_ref
            &&& plan->Ok_0.locators.len() == u32_at(bytes, 12)
            &&& forall|i: int|
                0 <= i < plan->Ok_0.locators.len() ==> locates_entry(
                    #[trigger] plan->Ok_0.locators[i],
                    planned.series_ref,
                    bytes,
                    i,
                )
        }),
{
    bound_blob_law(bytes, header, root, blob_facts, planned, chunk_file_lens);
    let blob = bound_blob_result(
        bytes,
        header,
        root,
        blob_facts,
        planned,
        chunk_file_lens,
    )->Ok_0;
    let plan = plan_blob_result(header, root, blob_facts, planned, blob, chunk_file_lens)->Ok_0;
    let facts = blob_facts_result(bytes, root, blob.blob_offset)->Ok_0;
    lemma_entries_stored(header, bytes, chunk_file_lens, facts.chunk_count as nat);
    let entries = physical_entries_result(
        header,
        bytes,
        chunk_file_lens,
        facts.chunk_count as nat,
    )->Ok_0;
    assert forall|i: int| 0 <= i < plan.locators.len() implies locates_entry(
        #[trigger] plan.locators[i],
        planned.series_ref,
        bytes,
        i,
    ) by {
        assert(stores_entry(bytes, i, entries[i]));
    }
}

proof fn lemma_same_mask(
    entries: Seq<OverflowChunkEntryV1>,
    chunks: Seq<FinalChunkIndexEntryV3>,
    n: nat,
)
    requires
        n <= entries.len() == chunks.len(),
        forall|i: int|
            0 <= i < entries.len() ==> (#[trigger] entries[i]).kind == chunks[i].entry.kind,
    ensures
        entries_mask(entries, n) == mask_of(chunks, n),
    decreases n,
{
    if n > 0 {
        lemma_same_mask(entries, chunks, (n - 1) as nat);
        assert(entries[n - 1].kind == chunks[n - 1].entry.kind);
    }
}

/// The two roots of a segment belong together, and the facts are theirs.
pub open spec fn bound_chunk_index(
    header: SeriesHeaderV3,
    root: ChunkOverflowRootV2,
    facts: Schema7OverflowBlobFacts,
) -> bool {
    &&& header.num_series == root.series_count
    &&& header.chunk_index_file_len == root.file_len
    &&& header.chunk_index_root_crc32c == root.root_crc32c
    &&& 64 + root.blobs_len == root.file_len
    &&& facts.root_len == 64
    &&& facts.blobs_offset == 64
    &&& facts.blob_count == root.blob_count
    &&& facts.blobs_len == root.blobs_len
    &&& facts.file_len == root.file_len
}

/// The locator of a classified chunk: the entry that was handed in, without its
/// flags, under the checksum of its prefix.
pub open spec fn locator_of_chunk(
    series_ref: u32,
    chunk: FinalChunkIndexEntryV3,
) -> IndexedChunkLocator {
    IndexedChunkLocator {
        series_ref,
        entry: ChunkIndexEntry { flags: 0, ..*chunk.entry },
        authentication: IndexedChunkAuthentication::Schema7 {
            indexed_prefix_crc32c: crc32c_of(chunk.indexed_prefix@),
        },
    }
}

/// The classified entries can stand in a blob of their segment.
proof fn lemma_classified_entries(input: SeriesClassifierInputV3, header: SeriesHeaderV3)
    requires
        classify_result(input) is Ok,
        classify_result(input)->Ok_0 is Overflow,
        header.segment_start_ms == input.segment_start_ms,
        header.segment_end_ms == input.segment_end_ms,
    ensures
        ({
            let pending = classify_result(input)->Ok_0->Overflow_0;
            &&& sound_entries(header, input.chunk_file_lens, pending.entries)
            &&& entries_mask(pending.entries, pending.entries.len()) == input.kind_mask
            &&& input.chunks@.len() == pending.entries.len()
        }),
{
    let pending = classify_result(input)->Ok_0->Overflow_0;
    let chunks = input.chunks@;
    classified_series_law(input);
    overflow_entries_law(input);
    assert forall|i: int| 0 <= i < pending.entries.len() implies entry_inside(
        header,
        input.chunk_file_lens,
        #[trigger] pending.entries[i],
    ) && lane_in_chunk(pending.entries[i]) by {
        assert(same_chunk(pending.entries[i], chunks[i]));
        assert(sound_chunk(input, chunks[i]));
    }
    assert forall|i: int, j: int| 0 <= i < j < pending.entries.len() implies entry_before(
        #[trigger] pending.entries[i],
        #[trigger] pending.entries[j],
    ) by {
        assert(same_chunk(pending.entries[i], chunks[i]));
        assert(same_chunk(pending.entries[j], chunks[j]));
        let a = chunks[i];
        let b = chunks[j];
    }
    assert forall|i: int| 0 <= i < pending.entries.len() implies (
    #[trigger] pending.entries[i]).kind == chunks[i].entry.kind by {
        assert(same_chunk(pending.entries[i], chunks[i]));
    }
    lemma_same_mask(pending.entries, chunks, chunks.len());
}

/// The chunks of a series that was classified as overflow and stored are planned
/// as they were handed in: locator `i` names the bytes, kind and time range of
/// chunk `i`, under the checksum of its prefix.
pub proof fn stored_overflow_law(
    input: SeriesClassifierInputV3,
    header: SeriesHeaderV3,
    root: ChunkOverflowRootV2,
    facts: Schema7OverflowBlobFacts,
    locator: ChunkOverflowBlobLocatorV1,
    bytes: Seq<u8>,
)
    requires
        classify_result(input) is Ok,
        classify_result(input)->Ok_0 is Overflow,
        header.segment_start_ms == input.segment_start_ms,
        header.segment_end_ms == input.segment_end_ms,
        input.series_ref < header.num_series,
        bound_chunk_index(header, root, facts),
        stores_blob(
            bytes,
            input.series_ref,
            classify_result(input)->Ok_0->Overflow_0.entries,
        ),
        locator.series_ref == input.series_ref,
        locator.chunk_count == input.chunks@.len(),
        locator.blob_len == bytes.len(),
        64 <= locator.blob_offset,
        locator.blob_offset + bytes.len() <= root.file_len,
    ensures
        ({
            let pending = classify_result(input)->Ok_0->Overflow_0;
            let record = bind_locator_result(pending, locator, root.file_len);
            let planned = planned_series_result(header, input.series_ref, record->Ok_0);
            let blob = bound_blob_result(
                bytes,
                header,
                root,
                facts,
                planned->Ok_0,
                input.chunk_file_lens,
            );
            let plan = plan_blob_result(
                header,
                root,
                facts,
                planned->Ok_0,
                blob->Ok_0,
                input.chunk_file_lens,
            );
            &&& record is Ok
            &&& planned is Ok
            &&& planned->Ok_0.series_ref == input.series_ref
            &&& planned->Ok_0.kind_mask == input.kind_mask
            &&& planned->Ok_0.cold_labels.keyset_id == input.keyset_id
            &&& planned->Ok_0.cold_labels.row == input.row
            &&& planned->Ok_0.expected_label_identity == input.series_id
            &&& planned->Ok_0.chunks == (ChunkLocatorSource::Overflow {
                locator,
                expected_kind_mask: input.kind_mask,
            })
            &&& blob is Ok
            &&& plan is Ok
            &&& plan->Ok_0.locators.len() == input.chunks@.len()
            &&& forall|i: int|
                0 <= i < input.chunks@.len() ==> #[trigger] plan->Ok_0.locators[i]
                    == locator_of_chunk(input.series_ref, input.chunks@[i])
            &&& plan->Ok_0.series_spans.len() == 1
            &&& plan->Ok_0.series_spans[0].series_ref == input.series_ref
            &&& plan->Ok_0.series_spans[0].start == 0
            &&& plan->Ok_0.series_spans[0].len == input.chunks@.len()
        }),
{
    let pending = classify_result(input)->Ok_0->Overflow_0;
    let entries = pending.entries;
    lemma_classified_entries(input, header);
    overflow_entries_law(input);
    lemma_entries_read(
        header,
        bytes,
        input.chunk_file_lens,
        input.series_ref,
        entries,
        entries.len(),
    );
    assert(entries.take(entries.len() as int) =~= entries);
    assert(physical_blob_result(
        header,
        root,
        facts,
        locator.blob_offset,
        bytes,
        input.chunk_file_lens,
    ) is Ok);
    let record = bind_locator_result(pending, locator, root.file_len)->Ok_0;
    let planned = planned_series_result(header, input.series_ref, record)->Ok_0;
    assert(bound_blob_result(
        bytes,
        header,
        root,
        facts,
        planned,
        input.chunk_file_lens,
    ) is Ok);
    planned_blob_law(bytes, header, root, facts, planned, input.chunk_file_lens);
    bound_blob_law(bytes, header, root, facts, planned, input.chunk_file_lens);
    let blob = bound_blob_result(
        bytes,
        header,
        root,
        facts,
        planned,
        input.chunk_file_lens,
    )->Ok_0;
    let plan = plan_blob_result(
        header,
        root,
        facts,
        planned,
        blob,
        input.chunk_file_lens,
    )->Ok_0;
    assert forall|i: int| 0 <= i < input.chunks@.len() implies #[trigger] plan.locators[i]
        == locator_of_chunk(input.series_ref, input.chunks@[i]) by {
        assert(locates_entry(plan.locators[i], input.series_ref, bytes, i));
        assert(stores_entry(bytes, i, entries[i]));
        assert(same_chunk(entries[i], input.chunks@[i]));
    }
}

} // verus!
