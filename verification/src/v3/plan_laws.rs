//! What a plan holds, said of the bytes of the hot page that it was made from.

use vstd::prelude::*;

use super::header::{section_layout_law, SeriesHeaderV3};
use super::header_laws::{sound_header, sound_header_law};
use super::hot::{
    context_of, decode_record_result, SeriesHotLocationV3, SeriesHotV3, SeriesHotV3Context,
};
use super::page::{record_area, record_slot};
use super::reader::{
    admit_hot_page_result, admitted_records_result, cached_record_result, page_facts_result,
    page_refs_result, plan_page_result, planned_list_result, planned_series_result,
    sorted_page_refs_result, CachedHotPage, ChunkLocatorSource, PlannedSeries,
};
use super::reader_laws::planned_page_law;
use super::record_laws::{
    authentic_bytes_law, describes_page, page_header_at, record_at, record_bytes_law, sound_record,
};
use super::root::SeriesHotPageDescriptorV1;
use super::root_binding::Schema7SeriesPageFacts;
use crate::checksum::crc32c_of;
use crate::chunk::{kind_of, IndexedChunkAuthentication};
use crate::error::Error;

verus! {

/// A plan locates the chunks of a record: the one chunk itself, at the times that
/// count from the start of the segment, or the blob that lists them.
pub open spec fn plans_chunks(
    header: SeriesHeaderV3,
    series_ref: u32,
    record: SeriesHotV3,
    chunks: ChunkLocatorSource,
) -> bool {
    match (record.location, chunks) {
        (SeriesHotLocationV3::Inline(inline), ChunkLocatorSource::Inline(locator)) => {
            let entry = locator.entry;
            &&& locator.series_ref == series_ref
            &&& locator.authentication == (IndexedChunkAuthentication::Schema7 {
                indexed_prefix_crc32c: inline.indexed_prefix_crc32c,
            })
            &&& entry.file_id == inline.file_id
            &&& kind_of(inline.chunk_kind) == Some(entry.kind)
            &&& entry.flags == 0
            &&& entry.min_time_ms == header.segment_start_ms + inline.min_time_delta_ms
            &&& entry.max_time_ms == header.segment_start_ms + inline.max_time_delta_ms
            &&& entry.offset == inline.file_offset
            &&& entry.length == inline.chunk_length
            &&& entry.scalar_lane_len == inline.scalar_lane_len
            &&& entry.scalar_lane_offset == (if inline.scalar_lane_len == 0 {
                0
            } else {
                40int
            })
        },
        (
            SeriesHotLocationV3::Overflow(overflow),
            ChunkLocatorSource::Overflow { locator, expected_kind_mask },
        ) => {
            &&& locator.series_ref == series_ref
            &&& locator.blob_offset == overflow.blob_offset
            &&& locator.blob_len == overflow.blob_len
            &&& locator.chunk_count == overflow.chunk_count
            &&& expected_kind_mask == record.kind_mask
        },
        _ => false,
    }
}

/// A plan is made from a record: it has its kinds, its identity, its row and its
/// chunks.
pub open spec fn plans_record(
    header: SeriesHeaderV3,
    series_ref: u32,
    record: SeriesHotV3,
    planned: PlannedSeries,
) -> bool {
    &&& planned.series_ref == series_ref
    &&& planned.kind_mask == record.kind_mask
    &&& planned.expected_label_identity == record.series_id
    &&& planned.cold_labels.keyset_id == record.keyset_id
    &&& planned.cold_labels.row == record.row
    &&& plans_chunks(header, series_ref, record, planned.chunks)
}

/// The segment that the header describes, for the records of its pages.
pub open spec fn segment_of(
    header: SeriesHeaderV3,
    chunk_file_lens: [u64; 2],
) -> SeriesHotV3Context {
    SeriesHotV3Context {
        segment_start_ms: header.segment_start_ms,
        segment_end_ms: header.segment_end_ms,
        chunk_file_lens,
        chunk_index_file_len: header.chunk_index_file_len,
    }
}

/// A plan is made from every record, and every record that is sound in its
/// segment has one.
pub proof fn planned_record_law(
    header: SeriesHeaderV3,
    series_ref: u32,
    record: SeriesHotV3,
    chunk_file_lens: [u64; 2],
)
    ensures
        ({
            let planned = planned_series_result(header, series_ref, record);
            &&& planned matches Ok(planned) ==> plans_record(header, series_ref, record, planned)
            &&& sound_record(record, segment_of(header, chunk_file_lens)) ==> planned is Ok
        }),
{
}

/// The record of a series stands at its place in a page.
pub open spec fn page_holds(
    bytes: Seq<u8>,
    first_series_ref: u32,
    series_ref: u32,
    record: SeriesHotV3,
) -> bool {
    let at = 24 + 40 * (series_ref - first_series_ref);
    record_at(bytes.subrange(at, at + 40), record)
}

/// What is true of every record of an admitted page.
pub open spec fn admissible(
    header: SeriesHeaderV3,
    chunk_file_lens: [u64; 2],
    record: SeriesHotV3,
) -> bool {
    sound_record(record, segment_of(header, chunk_file_lens)) && record.keyset_id
        < header.num_keysets
}

proof fn lemma_admitted_each(
    encoded: Seq<u8>,
    context: SeriesHotV3Context,
    num_keysets: u32,
    n: nat,
)
    requires
        40 * n <= encoded.len(),
    ensures
        admitted_records_result(encoded, context, num_keysets, n) is Ok <==> forall|i: int|
            0 <= i < n ==> {
                let record = decode_record_result(#[trigger] record_slot(encoded, i), context);
                record is Ok && record->Ok_0.keyset_id < num_keysets
            },
    decreases n,
{
    if n > 0 {
        lemma_admitted_each(encoded, context, num_keysets, (n - 1) as nat);
        let last = record_slot(encoded, n - 1);
        if admitted_records_result(encoded, context, num_keysets, n) is Ok {
            assert forall|i: int| 0 <= i < n implies {
                let record = decode_record_result(#[trigger] record_slot(encoded, i), context);
                record is Ok && record->Ok_0.keyset_id < num_keysets
            } by {
                if i == n - 1 {
                    assert(record_slot(encoded, i) == last);
                }
            }
        }
        if forall|i: int|
            0 <= i < n ==> {
                let record = decode_record_result(#[trigger] record_slot(encoded, i), context);
                record is Ok && record->Ok_0.keyset_id < num_keysets
            } {
            assert(decode_record_result(last, context) is Ok);
        }
    }
}

/// A page with these records is admitted: where they are sound, name keysets of
/// the segment, and stand in authentic bytes.
pub proof fn admitted_page_law(
    header: SeriesHeaderV3,
    page_index: u32,
    descriptor: SeriesHotPageDescriptorV1,
    bytes: Seq<u8>,
    chunk_file_lens: [u64; 2],
    records: Seq<SeriesHotV3>,
)
    requires
        sound_header(header),
        bytes.len() == 16_384,
        describes_page(
            header,
            page_index,
            descriptor.first_series_ref,
            descriptor.record_count,
        ),
        crc32c_of(bytes) == descriptor.page_crc32c,
        page_header_at(
            bytes,
            page_index,
            descriptor.first_series_ref,
            descriptor.record_count,
        ),
        forall|i: int|
            24 + 40 * descriptor.record_count <= i < 16_384 ==> #[trigger] bytes[i] == 0,
        records.len() == descriptor.record_count,
        forall|i: int|
            0 <= i < records.len() ==> page_holds(
                bytes,
                0,
                i as u32,
                #[trigger] records[i],
            ) && admissible(header, chunk_file_lens, records[i]),
    ensures
        admit_hot_page_result(header, page_index, descriptor, bytes, chunk_file_lens) is Ok,
{
    authentic_bytes_law(header, page_index, descriptor, bytes);
    let context = context_of(header, chunk_file_lens);
    let count = descriptor.record_count as nat;
    let encoded = record_area(bytes, count as int);
    assert forall|i: int| 0 <= i < count implies {
        let record = decode_record_result(#[trigger] record_slot(encoded, i), context);
        record is Ok && record->Ok_0.keyset_id < header.num_keysets
    } by {
        let at = 24 + 40 * i;
        assert(record_slot(encoded, i) =~= bytes.subrange(at, at + 40));
        assert(page_holds(bytes, 0, i as u32, records[i]));
        record_bytes_law(record_slot(encoded, i), records[i], context);
    }
    lemma_admitted_each(encoded, context, header.num_keysets, count);
}

proof fn lemma_plan_list(header: SeriesHeaderV3, page: CachedHotPage, refs: Seq<u32>, n: nat)
    requires
        n <= refs.len(),
        planned_list_result(header, page, refs, n) is Ok,
    ensures
        ({
            let list = planned_list_result(header, page, refs, n)->Ok_0;
            &&& list.len() == n
            &&& forall|i: int|
                0 <= i < n ==> cached_record_result(page, #[trigger] refs[i]) is Ok
                    && planned_series_result(
                    header,
                    refs[i],
                    cached_record_result(page, refs[i])->Ok_0,
                ) == Ok::<PlannedSeries, Error>(list[i])
        }),
    decreases n,
{
    if n > 0 {
        lemma_plan_list(header, page, refs, (n - 1) as nat);
        let before = planned_list_result(header, page, refs, (n - 1) as nat)->Ok_0;
        let list = planned_list_result(header, page, refs, n)->Ok_0;
        assert(list == before.push(list.last()));
        assert forall|i: int| 0 <= i < n implies cached_record_result(page, #[trigger] refs[i])
            is Ok && planned_series_result(
            header,
            refs[i],
            cached_record_result(page, refs[i])->Ok_0,
        ) == Ok::<PlannedSeries, Error>(list[i]) by {
            if i < n - 1 {
                assert(list[i] == before[i]);
            }
        }
    }
}

/// Every planned series has the number that was selected at its place, and is
/// made from the record that stands at the place of that number in the page.
pub proof fn planned_bytes_law(
    header: SeriesHeaderV3,
    page_facts: Schema7SeriesPageFacts,
    page_index: u32,
    descriptor: SeriesHotPageDescriptorV1,
    bytes: Seq<u8>,
    chunk_file_lens: [u64; 2],
    refs: Seq<u32>,
    i: int,
)
    requires
        ({
            let page = CachedHotPage { header, page_index, descriptor, chunk_file_lens, bytes };
            plan_page_result(
                header,
                page_facts,
                page_index,
                descriptor,
                page,
                chunk_file_lens,
                refs,
            ) is Ok
        }),
        0 <= i < refs.len(),
    ensures
        ({
            let page = CachedHotPage { header, page_index, descriptor, chunk_file_lens, bytes };
            let plan = plan_page_result(
                header,
                page_facts,
                page_index,
                descriptor,
                page,
                chunk_file_lens,
                refs,
            )->Ok_0;
            &&& plan.len() == refs.len()
            &&& descriptor.first_series_ref <= refs[i] < descriptor.first_series_ref
                + descriptor.record_count
            &&& exists|record: SeriesHotV3| #[trigger]
                page_holds(bytes, descriptor.first_series_ref, refs[i], record) && sound_record(
                    record,
                    segment_of(header, chunk_file_lens),
                ) && plans_record(header, refs[i], record, plan[i])
        }),
{
    let page = CachedHotPage { header, page_index, descriptor, chunk_file_lens, bytes };
    let plan = plan_page_result(
        header,
        page_facts,
        page_index,
        descriptor,
        page,
        chunk_file_lens,
        refs,
    )->Ok_0;
    lemma_plan_list(header, page, refs, refs.len());
    assert(planned_series_result(
        header,
        refs[i],
        cached_record_result(page, refs[i])->Ok_0,
    ) == Ok::<PlannedSeries, Error>(plan[i]));
    let record = cached_record_result(page, refs[i])->Ok_0;
    let at = 24 + 40 * (refs[i] - descriptor.first_series_ref);
    record_bytes_law(
        bytes.subrange(at, at + 40),
        record,
        context_of(header, chunk_file_lens),
    );
    planned_record_law(header, refs[i], record, chunk_file_lens);
    assert(page_holds(bytes, descriptor.first_series_ref, refs[i], record));
}

/// Two records that stand in the same bytes are the same record.
proof fn lemma_one_record(
    bytes: Seq<u8>,
    a: SeriesHotV3,
    b: SeriesHotV3,
    context: SeriesHotV3Context,
)
    requires
        bytes.len() == 40,
        record_at(bytes, a),
        record_at(bytes, b),
        sound_record(a, context),
        sound_record(b, context),
    ensures
        a == b,
{
    record_bytes_law(bytes, a, context);
    record_bytes_law(bytes, b, context);
}

/// The facts of a segment are those of its header.
pub open spec fn facts_of_header(header: SeriesHeaderV3, facts: Schema7SeriesPageFacts) -> bool {
    &&& facts.root_len == header.hot_pages_offset
    &&& facts.hot_page_count == header.page_count
    &&& facts.hot_pages_offset == header.hot_pages_offset
    &&& facts.hot_pages_len == header.hot_pages_len
    &&& facts.cold_page_count == header.cold_page_count
    &&& facts.cold_pages_offset == header.keysets_offset
    &&& facts.cold_pages_len == header.file_len - header.keysets_offset
    &&& facts.file_len == header.file_len
}

/// The facts of a sound header are accepted, and no others.
pub proof fn page_facts_law(header: SeriesHeaderV3, facts: Schema7SeriesPageFacts)
    requires
        sound_header(header),
    ensures
        page_facts_result(header, facts) is Ok <==> facts_of_header(header, facts),
{
    sound_header_law(header);
    section_layout_law(header);
}

/// The selection names series of a page, each once, in order.
pub open spec fn selects_page(
    first_series_ref: u32,
    record_count: u32,
    refs: Seq<u32>,
) -> bool {
    &&& forall|i: int|
        0 <= i < refs.len() ==> first_series_ref <= #[trigger] refs[i] < first_series_ref
            + record_count
    &&& forall|i: int, j: int|
        0 <= i < j < refs.len() ==> #[trigger] refs[i] < #[trigger] refs[j]
}

proof fn lemma_selection(descriptor: SeriesHotPageDescriptorV1, refs: Seq<u32>, n: nat)
    requires
        n <= refs.len(),
    ensures
        page_refs_result(descriptor, refs, n) is Ok <==> selects_page(
            descriptor.first_series_ref,
            descriptor.record_count,
            refs.take(n as int),
        ),
    decreases n,
{
    let taken = refs.take(n as int);
    if n > 0 {
        lemma_selection(descriptor, refs, (n - 1) as nat);
        let before = refs.take(n - 1);
        if page_refs_result(descriptor, refs, n) is Ok {
            assert forall|i: int| 0 <= i < taken.len() implies descriptor.first_series_ref
                <= #[trigger] taken[i] < descriptor.first_series_ref + descriptor.record_count by {
                if i < n - 1 {
                    assert(before[i] == taken[i]);
                }
            }
            assert forall|i: int, j: int| 0 <= i < j < taken.len() implies #[trigger] taken[i]
                < #[trigger] taken[j] by {
                if j < n - 1 {
                    assert(before[i] == taken[i] && before[j] == taken[j]);
                } else if i < n - 2 {
                    assert(before[i] == taken[i] && before[n - 2] == taken[n - 2]);
                }
            }
        }
        if selects_page(descriptor.first_series_ref, descriptor.record_count, taken) {
            assert forall|i: int| 0 <= i < before.len() implies descriptor.first_series_ref
                <= #[trigger] before[i] < descriptor.first_series_ref
                + descriptor.record_count by {
                assert(before[i] == taken[i]);
            }
            assert forall|i: int, j: int| 0 <= i < j < before.len() implies #[trigger] before[i]
                < #[trigger] before[j] by {
                assert(before[i] == taken[i] && before[j] == taken[j]);
            }
            assert(taken[n - 1] == refs[n - 1]);
            if n > 1 {
                assert(taken[n - 2] < taken[n - 1]);
            }
        }
    }
}

/// A selection is accepted exactly where it names series of the page, each once,
/// in order.
pub proof fn page_selection_law(descriptor: SeriesHotPageDescriptorV1, refs: Seq<u32>)
    requires
        descriptor.first_series_ref + descriptor.record_count <= u32::MAX,
    ensures
        sorted_page_refs_result(descriptor, refs) is Ok <==> selects_page(
            descriptor.first_series_ref,
            descriptor.record_count,
            refs,
        ),
{
    lemma_selection(descriptor, refs, refs.len());
    assert(refs.take(refs.len() as int) =~= refs);
}

/// The plan of an admitted page that holds these records: every selection of the
/// page is planned, and the plan of a series is made from its own record.
pub proof fn planned_records_law(
    header: SeriesHeaderV3,
    page_facts: Schema7SeriesPageFacts,
    page_index: u32,
    descriptor: SeriesHotPageDescriptorV1,
    bytes: Seq<u8>,
    chunk_file_lens: [u64; 2],
    refs: Seq<u32>,
    records: Seq<SeriesHotV3>,
)
    requires
        sound_header(header),
        facts_of_header(header, page_facts),
        admit_hot_page_result(header, page_index, descriptor, bytes, chunk_file_lens) is Ok,
        selects_page(descriptor.first_series_ref, descriptor.record_count, refs),
        records.len() == descriptor.record_count,
        forall|k: int|
            0 <= k < records.len() ==> page_holds(bytes, 0, k as u32, #[trigger] records[k])
                && admissible(header, chunk_file_lens, records[k]),
    ensures
        ({
            let page = CachedHotPage { header, page_index, descriptor, chunk_file_lens, bytes };
            let plan = plan_page_result(
                header,
                page_facts,
                page_index,
                descriptor,
                page,
                chunk_file_lens,
                refs,
            );
            &&& plan is Ok
            &&& plan->Ok_0.len() == refs.len()
            &&& forall|i: int|
                0 <= i < refs.len() ==> plans_record(
                    header,
                    refs[i],
                    records[refs[i] - descriptor.first_series_ref],
                    #[trigger] plan->Ok_0[i],
                )
        }),
{
    authentic_bytes_law(header, page_index, descriptor, bytes);
    page_facts_law(header, page_facts);
    page_selection_law(descriptor, refs);
    planned_page_law(
        header,
        page_facts,
        page_index,
        descriptor,
        bytes,
        chunk_file_lens,
        refs,
    );
    let page = CachedHotPage { header, page_index, descriptor, chunk_file_lens, bytes };
    let plan = plan_page_result(
        header,
        page_facts,
        page_index,
        descriptor,
        page,
        chunk_file_lens,
        refs,
    )->Ok_0;
    assert forall|i: int| 0 <= i < refs.len() implies plans_record(
        header,
        refs[i],
        records[refs[i] - descriptor.first_series_ref],
        #[trigger] plan[i],
    ) by {
        planned_bytes_law(
            header,
            page_facts,
            page_index,
            descriptor,
            bytes,
            chunk_file_lens,
            refs,
            i,
        );
        let record = choose|record: SeriesHotV3| #[trigger]
            page_holds(bytes, descriptor.first_series_ref, refs[i], record) && sound_record(
                record,
                segment_of(header, chunk_file_lens),
            ) && plans_record(header, refs[i], record, plan[i]);
        let k = refs[i] - descriptor.first_series_ref;
        assert(page_holds(bytes, 0, k as u32, records[k]));
        let at = 24 + 40 * k;
        lemma_one_record(
            bytes.subrange(at, at + 40),
            record,
            records[k],
            segment_of(header, chunk_file_lens),
        );
    }
}

} // verus!
