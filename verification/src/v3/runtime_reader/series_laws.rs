//! What a session plans and hands out, said of the bytes of its artifacts.

use vstd::prelude::*;

use super::labels::{label_overflow, verified_outcome, CanonicalLabelSelection};
use super::materialize::{
    encoded_series_outcome, series_outcome, GovernedVerifiedEncodedSeries, GovernedVerifiedSeries,
    VerifiedSeries,
};
use super::overflow::plan_overflow_result;
use super::roots::{hot_page_result, plan_hot_result};
use super::{BoundRoots, MetadataSession, Schema7MetadataReaderError};
use crate::bytes::{u32_at, u64_at};
use crate::error::Message;
use crate::symbols::{
    canonical_bytes, hashes_to, resolve_labels_result, resolved_labels, without_metric_name,
    LabelText, Symbols,
};
use crate::v3::header::section_layout_law;
use crate::v3::header_laws::sound_header_law;
use crate::v3::hot::{SeriesHotLocationV3, SeriesHotV3};
use crate::v3::overflow_laws::{locates_entry, planned_blob_law};
use crate::v3::plan_laws::{
    page_facts_law, page_holds, page_selection_law, planned_bytes_law, plans_record, segment_of,
    selects_page,
};
use crate::v3::reader::{bound_blob_result, CachedHotPage, PlannedSeries, SeriesChunkSpan};
use crate::v3::reader_laws::{bound_blob_law, planned_page_law};
use crate::v3::record_laws::{authentic_bytes_law, sound_record};

verus! {

/// Where the record of a series stands in the series file.
pub open spec fn record_start(roots: BoundRoots, page_index: u32, series_ref: u32) -> int {
    roots.series.header.hot_pages_offset + 16_384 * page_index + 24 + 40 * (series_ref - 409
        * page_index)
}

/// The plan of a series has the number that was selected at its place, and the
/// identity, row and kinds that the series file stores for that number.
pub open spec fn plans_stored(
    session: MetadataSession,
    roots: BoundRoots,
    page_index: u32,
    series_ref: u32,
    planned: PlannedSeries,
) -> bool {
    let at = record_start(roots, page_index, series_ref);
    &&& planned.series_ref == series_ref
    &&& planned.expected_label_identity == u64_at(session.series, at)
    &&& planned.cold_labels.keyset_id == u32_at(session.series, at + 8)
    &&& planned.cold_labels.row == u32_at(session.series, at + 12)
    &&& planned.kind_mask == u32_at(session.series, at + 16) % 32
    &&& planned.kind_mask >= 1
}

proof fn lemma_mask_bits(word: u32, mask: u8, kind: u8, file: u8, lane: u32)
    requires
        mask < 32,
        word == mask + 32 * kind + 256 * file + 512 + 2_048 * lane,
    ensures
        word % 32 == mask,
{
    let rest = kind + 8 * file + 16 + 64 * lane;
    assert(word == 32 * rest + mask);
}

/// A session plans exactly the selections of an authentic page, and the plan of a
/// series is what the series file stores for it.
pub proof fn planned_session_law(
    session: MetadataSession,
    roots: BoundRoots,
    page_index: u32,
    refs: Seq<u32>,
)
    requires
        roots.wf(),
        session.series.len() <= u64::MAX,
        refs.len() * vstd::layout::size_of::<PlannedSeries>() <= usize::MAX,
    ensures
        ({
            let plan = plan_hot_result(session, roots, page_index, refs);
            &&& plan is Ok <==> {
                &&& session.generation == roots.generation
                &&& hot_page_result(session, roots, page_index) is Ok
                &&& selects_page(
                    roots.series.hot[page_index as int].first_series_ref,
                    roots.series.hot[page_index as int].record_count,
                    refs,
                )
            }
            &&& plan matches Ok(plan) ==> {
                &&& plan.len() == refs.len()
                &&& forall|i: int|
                    0 <= i < refs.len() ==> plans_stored(
                        session,
                        roots,
                        page_index,
                        refs[i],
                        #[trigger] plan[i],
                    )
            }
        }),
{
    let header = roots.series.header;
    sound_header_law(header);
    section_layout_law(header);
    if hot_page_result(session, roots, page_index) is Ok {
        let page = hot_page_result(session, roots, page_index)->Ok_0;
        let descriptor = page.descriptor;
        authentic_bytes_law(header, page_index, descriptor, page.bytes);
        page_facts_law(header, roots.series_pages);
        assert(409 * page_index <= 409 * (header.page_count - 1));
        page_selection_law(descriptor, refs);
        assert(page == (CachedHotPage {
            header,
            page_index,
            descriptor,
            chunk_file_lens: session.chunk_file_lens,
            bytes: page.bytes,
        }));
        if selects_page(descriptor.first_series_ref, descriptor.record_count, refs) {
            planned_page_law(
                header,
                roots.series_pages,
                page_index,
                descriptor,
                page.bytes,
                session.chunk_file_lens,
                refs,
            );
        }
        if let Ok(plan) = plan_hot_result(session, roots, page_index, refs) {
            assert forall|i: int| 0 <= i < refs.len() implies plans_stored(
                session,
                roots,
                page_index,
                refs[i],
                #[trigger] plan[i],
            ) by {
                planned_bytes_law(
                    header,
                    roots.series_pages,
                    page_index,
                    descriptor,
                    page.bytes,
                    session.chunk_file_lens,
                    refs,
                    i,
                );
                lemma_plan_stored(session, roots, page_index, page, refs[i], plan[i]);
            }
            if refs.len() == 0 {
                assert(plan =~= Seq::empty());
            } else {
                planned_bytes_law(
                    header,
                    roots.series_pages,
                    page_index,
                    descriptor,
                    page.bytes,
                    session.chunk_file_lens,
                    refs,
                    0,
                );
            }
        }
    }
}

proof fn lemma_plan_stored(
    session: MetadataSession,
    roots: BoundRoots,
    page_index: u32,
    page: CachedHotPage,
    series_ref: u32,
    planned: PlannedSeries,
)
    requires
        ({
            let start = roots.series.header.hot_pages_offset + 16_384 * page_index;
            &&& start + 16_384 <= session.series.len()
            &&& page.bytes == session.series.subrange(start, start + 16_384)
        }),
        page.descriptor.first_series_ref == 409 * page_index,
        page.descriptor.record_count <= 409,
        page.descriptor.first_series_ref <= series_ref < page.descriptor.first_series_ref
            + page.descriptor.record_count,
        exists|record: SeriesHotV3| #[trigger]
            page_holds(page.bytes, page.descriptor.first_series_ref, series_ref, record)
                && sound_record(record, segment_of(page.header, page.chunk_file_lens))
                && plans_record(page.header, series_ref, record, planned),
    ensures
        plans_stored(session, roots, page_index, series_ref, planned),
{
    let record = choose|record: SeriesHotV3| #[trigger]
        page_holds(page.bytes, page.descriptor.first_series_ref, series_ref, record)
            && sound_record(record, segment_of(page.header, page.chunk_file_lens))
            && plans_record(page.header, series_ref, record, planned);
    let inner = 24 + 40 * (series_ref - page.descriptor.first_series_ref);
    let at = record_start(roots, page_index, series_ref);
    let slot = page.bytes.subrange(inner, inner + 40);
    assert(slot =~= session.series.subrange(at, at + 40));
    assert(u64_at(slot, 0) == u64_at(session.series, at));
    assert(u32_at(slot, 8) == u32_at(session.series, at + 8));
    assert(u32_at(slot, 12) == u32_at(session.series, at + 12));
    assert(u32_at(slot, 16) == u32_at(session.series, at + 16));
    match record.location {
        SeriesHotLocationV3::Inline(inline) => {
            lemma_mask_bits(
                u32_at(slot, 16),
                record.kind_mask,
                inline.chunk_kind,
                inline.file_id,
                inline.scalar_lane_len,
            );
        },
        SeriesHotLocationV3::Overflow(_) => {},
    }
}

/// What every verified series keeps of its plan: its number, its identity and its
/// kinds, whatever is selected of its labels.
pub open spec fn keeps_plan<L>(
    planned: PlannedSeries,
    selection: CanonicalLabelSelection,
    row_len: nat,
    series: VerifiedSeries<L>,
) -> bool {
    &&& series.series_ref == planned.series_ref
    &&& series.series_id == planned.expected_label_identity
    &&& series.kind_mask == planned.kind_mask
    &&& series.labels_complete <==> selection is All
    &&& series.integrity_checked_label_count == row_len
}

/// A verified series is the planned one. Every label of its row was hashed to its
/// identity, the labels are the selected ones, and the identity without the
/// metric name is there exactly where it was asked for.
pub proof fn verified_series_law<H: Fn(&[u8]) -> u64>(
    hash: H,
    symbols: Symbols,
    planned: PlannedSeries,
    row: Seq<(u32, u32)>,
    selection: CanonicalLabelSelection,
    result: Result<GovernedVerifiedSeries, Schema7MetadataReaderError>,
)
    requires
        series_outcome(hash, symbols, planned, Ok(row), selection, result),
        result is Ok,
    ensures
        ({
            let series = result->Ok_0@;
            let texts = resolved_labels(symbols, row);
            &&& keeps_plan(planned, selection, row.len(), series)
            &&& hashes_to(hash, canonical_bytes(texts), series.series_id)
            &&& series.labels == selection.selected(texts)
            &&& series.metric_name_dropped_series_id is Some <==> selection.derives()
            &&& series.metric_name_dropped_series_id matches Some(dropped) ==> hashes_to(
                hash,
                canonical_bytes(without_metric_name(texts)),
                dropped,
            )
        }),
{
}

/// The same of a series in its symbols.
pub proof fn verified_encoded_law<H: Fn(&[u8]) -> u64>(
    hash: H,
    symbols: Symbols,
    planned: PlannedSeries,
    row: Seq<(u32, u32)>,
    selection: CanonicalLabelSelection,
    result: Result<GovernedVerifiedEncodedSeries, Schema7MetadataReaderError>,
)
    requires
        encoded_series_outcome(hash, symbols, planned, Ok(row), selection, result),
        result is Ok,
    ensures
        ({
            let series = result->Ok_0@;
            let texts = resolved_labels(symbols, row);
            &&& keeps_plan(planned, selection, row.len(), series)
            &&& hashes_to(hash, canonical_bytes(texts), series.series_id)
            &&& series.labels == selection.selected_ids(symbols, row)
            &&& series.metric_name_dropped_series_id is Some <==> selection.derives()
            &&& series.metric_name_dropped_series_id matches Some(dropped) ==> hashes_to(
                hash,
                canonical_bytes(without_metric_name(texts)),
                dropped,
            )
        }),
{
}

/// A series that a session planned and verified has the number that was selected,
/// and the identity and the kinds that the series file stores for it.
pub proof fn materialized_session_law<H: Fn(&[u8]) -> u64>(
    session: MetadataSession,
    roots: BoundRoots,
    page_index: u32,
    refs: Seq<u32>,
    i: int,
    hash: H,
    symbols: Symbols,
    row: Seq<(u32, u32)>,
    selection: CanonicalLabelSelection,
    series: Result<GovernedVerifiedSeries, Schema7MetadataReaderError>,
    encoded: Result<GovernedVerifiedEncodedSeries, Schema7MetadataReaderError>,
)
    requires
        roots.wf(),
        session.series.len() <= u64::MAX,
        refs.len() * vstd::layout::size_of::<PlannedSeries>() <= usize::MAX,
        plan_hot_result(session, roots, page_index, refs) is Ok,
        0 <= i < refs.len(),
        ({
            let planned = plan_hot_result(session, roots, page_index, refs)->Ok_0[i];
            &&& series_outcome(hash, symbols, planned, Ok(row), selection, series)
            &&& encoded_series_outcome(hash, symbols, planned, Ok(row), selection, encoded)
        }),
    ensures
        ({
            let at = record_start(roots, page_index, refs[i]);
            &&& series matches Ok(series) ==> {
                &&& series@.series_ref == refs[i]
                &&& series@.series_id == u64_at(session.series, at)
                &&& series@.kind_mask == u32_at(session.series, at + 16) % 32
            }
            &&& encoded matches Ok(encoded) ==> {
                &&& encoded@.series_ref == refs[i]
                &&& encoded@.series_id == u64_at(session.series, at)
                &&& encoded@.kind_mask == u32_at(session.series, at + 16) % 32
            }
        }),
{
    planned_session_law(session, roots, page_index, refs);
    let plan = plan_hot_result(session, roots, page_index, refs)->Ok_0;
    assert(plans_stored(session, roots, page_index, refs[i], plan[i]));
}

/// The labels of a row exist, and whatever the hash answers for their canonical
/// bytes is the identity that is expected.
pub open spec fn intact_row<H: Fn(&[u8]) -> u64>(
    hash: H,
    symbols: Symbols,
    expected: u64,
    row: Seq<(u32, u32)>,
) -> bool {
    &&& forall|k: int|
        0 <= k < row.len() ==> (#[trigger] row[k]).0 < symbols.values.len() && row[k].1
            < symbols.values.len()
    &&& forall|id: u64| #[trigger]
        hashes_to(hash, canonical_bytes(resolved_labels(symbols, row)), id) ==> id == expected
}

proof fn lemma_row_resolves(symbols: Symbols, row: Seq<(u32, u32)>, n: nat)
    requires
        n <= row.len(),
        forall|k: int|
            0 <= k < row.len() ==> (#[trigger] row[k]).0 < symbols.values.len() && row[k].1
                < symbols.values.len(),
    ensures
        resolve_labels_result(symbols, row, n) is Ok,
    decreases n,
{
    if n > 0 {
        lemma_row_resolves(symbols, row, (n - 1) as nat);
        assert(row[n - 1].0 < symbols.values.len());
    }
}

/// An intact row is never blamed on an artifact: in its symbols it is always
/// verified, and its texts are refused for nothing but a charge that does not fit
/// its counter.
pub proof fn intact_row_law<H: Fn(&[u8]) -> u64>(
    hash: H,
    symbols: Symbols,
    planned: PlannedSeries,
    row: Seq<(u32, u32)>,
    selection: CanonicalLabelSelection,
    series: Result<GovernedVerifiedSeries, Schema7MetadataReaderError>,
    encoded: Result<GovernedVerifiedEncodedSeries, Schema7MetadataReaderError>,
)
    requires
        intact_row(hash, symbols, planned.expected_label_identity, row),
        series_outcome(hash, symbols, planned, Ok(row), selection, series),
        encoded_series_outcome(hash, symbols, planned, Ok(row), selection, encoded),
    ensures
        encoded is Ok,
        series matches Err(error) ==> error is Planning || error == label_overflow(),
{
    lemma_row_resolves(symbols, row, row.len());
}

/// A row that hashes to another identity than the planned one is never handed
/// out.
pub proof fn foreign_row_law<H: Fn(&[u8]) -> u64>(
    hash: H,
    symbols: Symbols,
    planned: PlannedSeries,
    row: Seq<(u32, u32)>,
    selection: CanonicalLabelSelection,
    series: Result<GovernedVerifiedSeries, Schema7MetadataReaderError>,
    encoded: Result<GovernedVerifiedEncodedSeries, Schema7MetadataReaderError>,
)
    requires
        !hashes_to(
            hash,
            canonical_bytes(resolved_labels(symbols, row)),
            planned.expected_label_identity,
        ),
        series_outcome(hash, symbols, planned, Ok(row), selection, series),
        encoded_series_outcome(hash, symbols, planned, Ok(row), selection, encoded),
    ensures
        series is Err,
        encoded is Err,
{
}

/// Labels are refused for an identity that the hash gave and that is not the one expected; the
/// error blames the series file and has both.
pub proof fn mismatched_identity_law<H: Fn(&[u8]) -> u64, T>(
    hash: H,
    labels: Seq<LabelText>,
    expected: u64,
    derives: bool,
    selected: T,
    result: Result<(T, Option<u64>), Schema7MetadataReaderError>,
)
    requires
        verified_outcome(hash, labels, expected, derives, selected, result),
    ensures
        result matches Err(error) ==> {
            &&& error matches Schema7MetadataReaderError::Cache(fault)
            &&& fault.files is Series
            &&& fault.error.kind is InvalidData
            &&& fault.error.message matches Message::Mismatch { expected: wanted, actual, .. }
            &&& wanted == expected
            &&& actual != expected
            &&& hashes_to(hash, canonical_bytes(labels), actual)
        },
        result matches Ok((found, _)) ==> found == selected && hashes_to(
            hash,
            canonical_bytes(labels),
            expected,
        ),
{
}

/// The chunks of a series that a session planned from an overflow blob: locator
/// `i` names what entry `i` of that blob stores in the chunk index.
pub proof fn planned_chunks_law(
    session: MetadataSession,
    roots: BoundRoots,
    planned_generation: u64,
    planned: PlannedSeries,
)
    requires
        roots.wf(),
        plan_overflow_result(session, roots, planned_generation, planned) is Ok,
    ensures
        ({
            let batch = plan_overflow_result(session, roots, planned_generation, planned)->Ok_0;
            let locator = planned.chunks->locator;
            let start = locator.blob_offset as int;
            let bytes = session.chunk_index.subrange(start, start + locator.blob_len);
            &&& session.generation == roots.generation == planned_generation
            &&& planned.chunks is Overflow
            &&& start + locator.blob_len <= session.chunk_index.len()
            &&& batch.locators.len() == locator.chunk_count == u32_at(bytes, 12)
            &&& u32_at(bytes, 8) == planned.series_ref
            &&& forall|i: int|
                0 <= i < batch.locators.len() ==> locates_entry(
                    #[trigger] batch.locators[i],
                    planned.series_ref,
                    bytes,
                    i,
                )
            &&& batch.series_spans == seq![
                SeriesChunkSpan {
                    series_ref: planned.series_ref,
                    start: 0,
                    len: batch.locators.len() as u32,
                },
            ]
        }),
{
    let locator = planned.chunks->locator;
    let start = locator.blob_offset as int;
    let bytes = session.chunk_index.subrange(start, start + locator.blob_len);
    assert(bound_blob_result(
        bytes,
        roots.series.header,
        roots.overflow,
        roots.overflow_blobs,
        planned,
        session.chunk_file_lens,
    ) is Ok);
    planned_blob_law(
        bytes,
        roots.series.header,
        roots.overflow,
        roots.overflow_blobs,
        planned,
        session.chunk_file_lens,
    );
    bound_blob_law(
        bytes,
        roots.series.header,
        roots.overflow,
        roots.overflow_blobs,
        planned,
        session.chunk_file_lens,
    );
}

} // verus!
