//! What holds of every metadata plan.

use vstd::prelude::*;

use super::classifier::{
    chunks_result, classify_result, locator_result, SeriesClassifierInputV3,
};
use super::cold_reader::{cold_charge_result, cold_page_result};
use super::header::SeriesHeaderV3;
use super::hot::{
    context_of, decode_record_result, record_result, SeriesHotV3, SeriesHotV3Context,
};
use super::page::{page_bytes_result, record_area, record_slot};
use super::reader::{
    admit_hot_page_result, admitted_records_result, bound_blob_result, cached_record_result,
    lemma_physical_entries_len, page_facts_result, page_refs_result, physical_blob_result,
    plan_blob_result, plan_page_result, planned_list_result, planned_series_result,
    raw_charge_result, sorted_page_refs_result, CachedHotPage, ChunkLocatorSource, PlannedSeries,
};
use super::root::{SeriesColdPageDescriptorV1, SeriesHotPageDescriptorV1};
use super::root_binding::{Schema7OverflowBlobFacts, Schema7SeriesPageFacts};
use crate::checksum::crc32c_of;
use crate::chunk::overflow::ChunkOverflowRootV2;
use crate::chunk::{ChunkIndexEntry, IndexedChunkAuthentication, IndexedChunkLocator};

verus! {

proof fn lemma_admitted(
    encoded: Seq<u8>,
    context: SeriesHotV3Context,
    num_keysets: u32,
    n: nat,
    i: int,
)
    requires
        0 <= i < n,
        admitted_records_result(encoded, context, num_keysets, n) is Ok,
    ensures
        decode_record_result(record_slot(encoded, i), context) is Ok,
        decode_record_result(record_slot(encoded, i), context)->Ok_0.keyset_id < num_keysets,
    decreases n,
{
    if i < n - 1 {
        lemma_admitted(encoded, context, num_keysets, (n - 1) as nat, i);
    }
}

/// The record of every series of an admitted page can be read back, and names
/// a keyset of the header.
pub proof fn admitted_record_law(
    header: SeriesHeaderV3,
    page_index: u32,
    descriptor: SeriesHotPageDescriptorV1,
    bytes: Seq<u8>,
    chunk_file_lens: [u64; 2],
    series_ref: u32,
)
    requires
        admit_hot_page_result(header, page_index, descriptor, bytes, chunk_file_lens) is Ok,
        descriptor.first_series_ref <= series_ref < descriptor.first_series_ref
            + descriptor.record_count,
    ensures
        ({
            let page = CachedHotPage { header, page_index, descriptor, chunk_file_lens, bytes };
            let record = cached_record_result(page, series_ref);
            &&& record is Ok
            &&& record->Ok_0.keyset_id < header.num_keysets
            &&& record_result(record->Ok_0, context_of(header, chunk_file_lens)) is Ok
        }),
{
    let page = CachedHotPage { header, page_index, descriptor, chunk_file_lens, bytes };
    let page_header = page_bytes_result(header, page_index, descriptor, bytes)->Ok_0;
    let count = page_header.record_count as int;
    let i = series_ref - descriptor.first_series_ref;
    let encoded = record_area(bytes, count);
    let context = context_of(header, chunk_file_lens);
    lemma_admitted(encoded, context, header.num_keysets, count as nat, i);
    assert(record_slot(encoded, i) =~= bytes.subrange(24 + 40 * i, 24 + 40 * i + 40));
    reveal(decode_record_result);
}

/// A record that is valid in the segment of the header can be planned.
proof fn lemma_planned(
    header: SeriesHeaderV3,
    series_ref: u32,
    record: SeriesHotV3,
    chunk_file_lens: [u64; 2],
)
    requires
        record_result(record, context_of(header, chunk_file_lens)) is Ok,
    ensures
        planned_series_result(header, series_ref, record) is Ok,
        planned_series_result(header, series_ref, record)->Ok_0.series_ref == series_ref,
{
}

proof fn lemma_refs_belong(descriptor: SeriesHotPageDescriptorV1, refs: Seq<u32>, n: nat, i: int)
    requires
        0 <= i < n,
        page_refs_result(descriptor, refs, n) is Ok,
    ensures
        descriptor.first_series_ref <= refs[i] < descriptor.first_series_ref
            + descriptor.record_count,
    decreases n,
{
    if i < n - 1 {
        lemma_refs_belong(descriptor, refs, (n - 1) as nat, i);
    }
}

proof fn lemma_list_planned(
    header: SeriesHeaderV3,
    page_index: u32,
    descriptor: SeriesHotPageDescriptorV1,
    bytes: Seq<u8>,
    chunk_file_lens: [u64; 2],
    refs: Seq<u32>,
    n: nat,
)
    requires
        n <= refs.len(),
        admit_hot_page_result(header, page_index, descriptor, bytes, chunk_file_lens) is Ok,
        page_refs_result(descriptor, refs, refs.len()) is Ok,
    ensures
        ({
            let page = CachedHotPage { header, page_index, descriptor, chunk_file_lens, bytes };
            let list = planned_list_result(header, page, refs, n);
            &&& list is Ok
            &&& list->Ok_0.len() == n
            &&& forall|i: int|
                0 <= i < n ==> (#[trigger] list->Ok_0[i]).series_ref == refs[i]
                    && list->Ok_0[i].cold_labels.keyset_id < header.num_keysets
        }),
    decreases n,
{
    if n > 0 {
        let page = CachedHotPage { header, page_index, descriptor, chunk_file_lens, bytes };
        lemma_list_planned(
            header,
            page_index,
            descriptor,
            bytes,
            chunk_file_lens,
            refs,
            (n - 1) as nat,
        );
        lemma_refs_belong(descriptor, refs, refs.len(), n - 1);
        admitted_record_law(
            header,
            page_index,
            descriptor,
            bytes,
            chunk_file_lens,
            refs[n - 1],
        );
        let record = cached_record_result(page, refs[n - 1])->Ok_0;
        lemma_planned(header, refs[n - 1], record, chunk_file_lens);
    }
}

/// Every sorted selection of an admitted page is planned: one plan for each
/// selected series, in the order of the selection.
pub proof fn planned_page_law(
    header: SeriesHeaderV3,
    page_facts: Schema7SeriesPageFacts,
    page_index: u32,
    descriptor: SeriesHotPageDescriptorV1,
    bytes: Seq<u8>,
    chunk_file_lens: [u64; 2],
    refs: Seq<u32>,
)
    requires
        admit_hot_page_result(header, page_index, descriptor, bytes, chunk_file_lens) is Ok,
        page_facts_result(header, page_facts) is Ok,
        sorted_page_refs_result(descriptor, refs) is Ok,
    ensures
        ({
            let page = CachedHotPage { header, page_index, descriptor, chunk_file_lens, bytes };
            let plan = plan_page_result(
                header,
                page_facts,
                page_index,
                descriptor,
                page,
                chunk_file_lens,
                refs,
            );
            &&& plan is Ok
            &&& plan->Ok_0.len() == refs.len()
            &&& forall|i: int|
                0 <= i < refs.len() ==> (#[trigger] plan->Ok_0[i]).series_ref == refs[i]
                    && plan->Ok_0[i].cold_labels.keyset_id < header.num_keysets
        }),
{
    lemma_list_planned(
        header,
        page_index,
        descriptor,
        bytes,
        chunk_file_lens,
        refs,
        refs.len(),
    );
}

/// A blob that was bound to a plan is mapped: one locator for every chunk that
/// the hot record counts, all of the planned series, in one span.
pub proof fn bound_blob_law(
    bytes: Seq<u8>,
    header: SeriesHeaderV3,
    root: ChunkOverflowRootV2,
    blob_facts: Schema7OverflowBlobFacts,
    planned: PlannedSeries,
    chunk_file_lens: [u64; 2],
)
    requires
        bound_blob_result(bytes, header, root, blob_facts, planned, chunk_file_lens) is Ok,
    ensures
        ({
            let blob = bound_blob_result(
                bytes,
                header,
                root,
                blob_facts,
                planned,
                chunk_file_lens,
            )->Ok_0;
            let plan = plan_blob_result(header, root, blob_facts, planned, blob, chunk_file_lens);
            &&& plan is Ok
            &&& planned.chunks is Overflow
            &&& plan->Ok_0.locators.len() == planned.chunks->locator.chunk_count
            &&& plan->Ok_0.series_spans.len() == 1
            &&& plan->Ok_0.series_spans[0].series_ref == planned.series_ref
            &&& plan->Ok_0.series_spans[0].start == 0
            &&& plan->Ok_0.series_spans[0].len == plan->Ok_0.locators.len()
            &&& forall|i: int|
                0 <= i < plan->Ok_0.locators.len() ==> (#[trigger] plan->Ok_0.locators[i]).series_ref
                    == planned.series_ref
        }),
{
    let blob = bound_blob_result(
        bytes,
        header,
        root,
        blob_facts,
        planned,
        chunk_file_lens,
    )->Ok_0;
    let (identity, entries) = physical_blob_result(
        header,
        root,
        blob_facts,
        blob.blob_offset,
        bytes,
        chunk_file_lens,
    )->Ok_0;
    lemma_physical_entries_len(header, bytes, chunk_file_lens, identity.chunk_count as nat);
}

/// The one chunk of a series that was classified as inline is planned as it
/// was handed in: its locator names the same bytes and time range, under the
/// checksum of its prefix.
pub proof fn classified_inline_law(input: SeriesClassifierInputV3, header: SeriesHeaderV3)
    requires
        classify_result(input) is Ok,
        classify_result(input)->Ok_0 is Inline,
        header.segment_start_ms == input.segment_start_ms,
    ensures
        ({
            let record = classify_result(input)->Ok_0->Inline_0;
            let chunk = input.chunks@[0];
            let plan = planned_series_result(header, input.series_ref, record);
            &&& plan is Ok
            &&& plan->Ok_0.series_ref == input.series_ref
            &&& plan->Ok_0.kind_mask == input.kind_mask
            &&& plan->Ok_0.cold_labels.keyset_id == input.keyset_id
            &&& plan->Ok_0.cold_labels.row == input.row
            &&& plan->Ok_0.expected_label_identity == input.series_id
            &&& plan->Ok_0.chunks == ChunkLocatorSource::Inline(
                IndexedChunkLocator {
                    series_ref: input.series_ref,
                    entry: ChunkIndexEntry { flags: 0, ..*chunk.entry },
                    authentication: IndexedChunkAuthentication::Schema7 {
                        indexed_prefix_crc32c: crc32c_of(chunk.indexed_prefix@),
                    },
                },
            )
        }),
{
    assert(chunks_result(input, 1) is Ok);
    assert(chunks_result(input, 0) is Ok);
    assert(locator_result(input, input.chunks@[0]) is Ok);
}

/// An admitted hot page is charged exactly what was declared for it.
pub proof fn hot_page_charge_law(
    header: SeriesHeaderV3,
    page_index: u32,
    descriptor: SeriesHotPageDescriptorV1,
    bytes: Seq<u8>,
    chunk_file_lens: [u64; 2],
    fixed: nat,
    declared: &'static str,
    measured: &'static str,
)
    requires
        admit_hot_page_result(header, page_index, descriptor, bytes, chunk_file_lens) is Ok,
        raw_charge_result(fixed, 16_384, declared) is Ok,
    ensures
        raw_charge_result(fixed, bytes.len(), measured) == raw_charge_result(
            fixed,
            16_384,
            declared,
        ),
{
}

/// An authentic cold page is charged exactly what was declared for it.
pub proof fn cold_page_charge_law(
    header: SeriesHeaderV3,
    page_index: u32,
    descriptor: SeriesColdPageDescriptorV1,
    bytes: Seq<u8>,
)
    requires
        cold_page_result(header, page_index, descriptor, bytes) is Ok,
    ensures
        cold_charge_result(bytes.len()) == cold_charge_result(descriptor.page_len as nat),
{
}

/// A blob that was bound to a plan is charged exactly what was declared for the
/// locator of that plan.
pub proof fn blob_charge_law(
    bytes: Seq<u8>,
    header: SeriesHeaderV3,
    root: ChunkOverflowRootV2,
    blob_facts: Schema7OverflowBlobFacts,
    planned: PlannedSeries,
    chunk_file_lens: [u64; 2],
    fixed: nat,
    declared: &'static str,
    measured: &'static str,
)
    requires
        bound_blob_result(bytes, header, root, blob_facts, planned, chunk_file_lens) is Ok,
        planned.chunks is Overflow,
        raw_charge_result(fixed, planned.chunks->locator.blob_len as nat, declared) is Ok,
    ensures
        raw_charge_result(fixed, bytes.len(), measured) == raw_charge_result(
            fixed,
            planned.chunks->locator.blob_len as nat,
            declared,
        ),
{
}

} // verus!
