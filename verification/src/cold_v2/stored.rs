//! What the reader gives back of a file to which a plan was appended.

use vstd::prelude::*;

use super::blocks::width_total;
use super::lookup::{
    dict_lookup_law, keyset_lookup_law, row_code_law, row_lookup_law, ColdSection, ColdStream,
};
use super::plan::{
    append_sections_result, heads_of, plan_result, section_offsets_result, sections_bytes,
    SeriesColdV2SectionOffsets,
};
use super::plan_laws::{lemma_sorted_stable, plan_rows_law, written_plan_law};
use super::canonical::{sorted_labels, stable_sorted};
use super::planner::sorted_rows;
use super::reader::{code_result, value_range_result, value_result};
use super::shapes::keys_of;
use crate::entry::SeriesEntry;
use crate::error::Error;

verus! {

/// A file as a stream: a range gives the bytes that stand there, and an error
/// of the reader is reported as it is.
pub open spec fn file_stream(
    file: Seq<u8>,
    offsets: SeriesColdV2SectionOffsets,
    num_keysets: u32,
    num_value_dicts: u32,
) -> ColdStream<Error> {
    ColdStream {
        read: |start: u64, end: u64| Ok(file.subrange(start as int, end as int)),
        fail: |error: Error| error,
        keysets: ColdSection {
            offset: offsets.keysets,
            end: offsets.value_dicts,
            count: num_keysets,
        },
        value_dicts: ColdSection {
            offset: offsets.value_dicts,
            end: offsets.keyset_blocks,
            count: num_value_dicts,
        },
        keyset_blocks: ColdSection {
            offset: offsets.keyset_blocks,
            end: offsets.end,
            count: num_keysets,
        },
    }
}

/// Label `j` of the series at a keyset and a row, read function by function: the
/// keyset, the block, the packed row, the code in it, the dictionary of the key
/// and the value at the code.
pub open spec fn stored_label(
    stream: ColdStream<Error>,
    keyset_id: u32,
    row: u32,
    j: int,
    missing: Error,
) -> Result<(u32, u32), Error> {
    match stream.keyset(keyset_id) {
        Err(error) => Err(error),
        Ok(keys) => match stream.block(keyset_id) {
            Err(error) => Err(error),
            Ok(block) => match stream.row(block, row, missing) {
                Err(error) => Err(error),
                Ok(packed) => match code_result(
                    packed,
                    width_total(block.widths, j as nat) as usize,
                    block.widths[j],
                ) {
                    Err(error) => Err(error),
                    Ok(code) => match stream.find(
                        keys[j],
                        0,
                        stream.value_dicts.count,
                        missing,
                    ) {
                        Err(error) => Err(error),
                        Ok((meta, _)) => match value_range_result(meta, code) {
                            Err(error) => Err(error),
                            Ok(range) => match (stream.read)(range.start, range.end) {
                                Err(error) => Err(error),
                                Ok(bytes) => match value_result(bytes, meta, code) {
                                    Err(error) => Err(error),
                                    Ok(value) => Ok((keys[j], value)),
                                },
                            },
                        },
                    },
                },
            },
        },
    }
}

/// The labels of a series are read from the file: as many as the row has, and
/// each one as it stands in the row.
pub open spec fn labels_stored(
    stream: ColdStream<Error>,
    keyset_id: u32,
    row: u32,
    labels: Seq<(u32, u32)>,
) -> bool {
    &&& stream.keyset(keyset_id) == Ok::<Seq<u32>, Error>(keys_of(labels))
    &&& forall|j: int, missing: Error|
        0 <= j < labels.len() ==> #[trigger] stored_label(stream, keyset_id, row, j, missing)
            == Ok::<(u32, u32), Error>(labels[j])
}

/// What is appended to a file is read back: for every row of the plan, the keyset
/// and the packed row that the plan names give the labels of the row.
pub proof fn appended_rows_law(
    heads: Seq<(u64, u8)>,
    rows: Seq<Seq<(u32, u32)>>,
    before: Seq<u8>,
    i: int,
)
    requires
        plan_result(heads, rows) is Ok,
        before.len() <= u64::MAX,
        section_offsets_result(plan_result(heads, rows)->Ok_0.lengths, before.len() as u64) is Ok,
        0 <= i < rows.len(),
    ensures
        ({
            let plan = plan_result(heads, rows)->Ok_0;
            let offsets = section_offsets_result(plan.lengths, before.len() as u64)->Ok_0;
            let file = before + sections_bytes(plan, offsets);
            let at = plan.series_rows[i];
            &&& offsets.end - offsets.keysets <= usize::MAX ==> append_sections_result(
                plan,
                before.len(),
                offsets,
            ) == Ok::<(), Error>(())
            &&& labels_stored(
                file_stream(file, offsets, plan.num_keysets, plan.num_value_dicts),
                at.keyset_id,
                at.row,
                rows[i],
            )
        }),
{
    let plan = plan_result(heads, rows)->Ok_0;
    let offset = before.len() as u64;
    let offsets = section_offsets_result(plan.lengths, offset)->Ok_0;
    let written = sections_bytes(plan, offsets);
    let file = before + written;
    let stream = file_stream(file, offsets, plan.num_keysets, plan.num_value_dicts);
    let at = plan.series_rows[i];
    let labels = rows[i];
    written_plan_law(heads, rows, offset);
    plan_rows_law(heads, rows, i);
    assert(stream.holds(plan, offsets)) by {
        assert forall|start: u64, end: u64|
            offsets.keysets <= start <= end <= offsets.end implies #[trigger] (stream.read)(
            start,
            end,
        ) == Ok::<Seq<u8>, Error>(
            written.subrange(start - offsets.keysets, end - offsets.keysets),
        ) by {
            assert(file.subrange(start as int, end as int) =~= written.subrange(
                start - offsets.keysets,
                end - offsets.keysets,
            ));
        }
    }
    keyset_lookup_law(heads, rows, offset, stream, at.keyset_id);
    assert forall|j: int, missing: Error| 0 <= j < labels.len() implies #[trigger] stored_label(
        stream,
        at.keyset_id,
        at.row,
        j,
        missing,
    ) == Ok::<(u32, u32), Error>(labels[j]) by {
        row_lookup_law(heads, rows, offset, stream, i, missing);
        row_code_law(heads, rows, offset, i, j);
        dict_lookup_law(heads, rows, offset, stream, i, j, missing);
        assert(keys_of(labels)[j] == labels[j].0);
    }
}

/// A plan that is built from entries and appended to a file at its end gives
/// back, for every entry, its labels in the order of their keys.
pub proof fn appended_entries_law(entries: Seq<SeriesEntry>, before: Seq<u8>, i: int)
    requires
        plan_result(heads_of(entries), sorted_rows(entries)) is Ok,
        before.len() <= u64::MAX,
        section_offsets_result(
            plan_result(heads_of(entries), sorted_rows(entries))->Ok_0.lengths,
            before.len() as u64,
        ) is Ok,
        0 <= i < entries.len(),
    ensures
        ({
            let plan = plan_result(heads_of(entries), sorted_rows(entries))->Ok_0;
            let offsets = section_offsets_result(plan.lengths, before.len() as u64)->Ok_0;
            let file = before + sections_bytes(plan, offsets);
            let at = plan.series_rows[i];
            &&& offsets.end - offsets.keysets <= usize::MAX ==> append_sections_result(
                plan,
                before.len(),
                offsets,
            ) == Ok::<(), Error>(())
            &&& at.series_id == entries[i].series_id
            &&& at.kind_mask == entries[i].kind_mask
            &&& stable_sorted(entries[i].labels@, sorted_labels(entries[i].labels@))
            &&& labels_stored(
                file_stream(file, offsets, plan.num_keysets, plan.num_value_dicts),
                at.keyset_id,
                at.row,
                sorted_labels(entries[i].labels@),
            )
        }),
{
    let heads = heads_of(entries);
    let rows = sorted_rows(entries);
    appended_rows_law(heads, rows, before, i);
    plan_rows_law(heads, rows, i);
    lemma_sorted_stable(entries[i].labels@);
}

} // verus!
