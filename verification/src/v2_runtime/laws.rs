//! What a session gives back of a segment whose cold stream holds a plan.

use vstd::prelude::*;

use super::chunk_index::{ChunkDirectory, Schema6ChunkIndexReaderError};
use super::cold::{
    cold_stream6, dict_result, label_ids_result, label_prefix_result, value_sym_result,
};
use super::entries::{
    entries_outcome, is_history, materialize_request_result, next_outcome, read_outcome,
    step_outcome, EntryLabels, Progress,
};
use super::metadata::{request_result, routing_result, valid_entry};
use super::root::Schema6SeriesRootV2;
use super::verified::{rows6_result, verified6_of};
use super::{corrupt6, GovernedSchema6SeriesRoot, Schema6SeriesReaderError, SeriesSession6};
use crate::cold_v2::blocks::{
    dict_values, lemma_row_bytes_len, lemma_widths_packable, row_bytes, width_total, widths_of,
};
use crate::cold_v2::lookup::{
    dict_lookup_law, dict_read, keyset_lookup_law, row_code_law, row_lookup_law,
};
use crate::cold_v2::plan::{
    plan_result, row_codes, section_offsets_result, sections_bytes, value_code, ColdPlan,
    SeriesColdV2SectionOffsets,
};
use crate::cold_v2::plan_laws::plan_rows_law;
use crate::cold_v2::reader::{value_range_result, ValueDictMeta};
use crate::cold_v2::shapes::keys_of;
use crate::symbols::{
    canonical_bytes, hashes_to, resolve_labels_result, resolved_labels, GovernedSymbolReaderError,
    Symbols,
};

verus! {

/// The segment holds a plan at these offsets, and nothing behind it.
pub open spec fn stores_plan6(
    session: SeriesSession6,
    root: Schema6SeriesRootV2,
    plan: ColdPlan,
    offsets: SeriesColdV2SectionOffsets,
) -> bool {
    let header = root.header;
    &&& header.keysets_offset == offsets.keysets
    &&& header.value_dicts_offset == offsets.value_dicts
    &&& header.keyset_blocks_offset == offsets.keyset_blocks
    &&& header.meta_offset == offsets.end == session.series.len()
    &&& header.num_keysets == plan.num_keysets
    &&& header.num_value_dicts == plan.num_value_dicts
    &&& session.series.subrange(header.keysets_offset as int, header.meta_offset as int)
        == sections_bytes(plan, offsets)
}

/// The segment holds the cold stream of these rows, and nothing behind it.
pub open spec fn stores_rows6(
    session: SeriesSession6,
    root: Schema6SeriesRootV2,
    heads: Seq<(u64, u8)>,
    rows: Seq<Seq<(u32, u32)>>,
) -> bool {
    let plan = plan_result(heads, rows)->Ok_0;
    let offsets = section_offsets_result(plan.lengths, root.header.keysets_offset);
    &&& plan_result(heads, rows) is Ok
    &&& offsets is Ok
    &&& stores_plan6(session, root, plan, offsets->Ok_0)
}

proof fn lemma_stream6_holds(
    session: SeriesSession6,
    root: Schema6SeriesRootV2,
    plan: ColdPlan,
    offsets: SeriesColdV2SectionOffsets,
)
    requires
        stores_plan6(session, root, plan, offsets),
    ensures
        cold_stream6(session, root).holds(plan, offsets),
{
    let header = root.header;
    let stream = cold_stream6(session, root);
    assert forall|start: u64, end: u64|
        offsets.keysets <= start <= end <= offsets.end implies #[trigger] (stream.read)(start, end)
        == Ok::<Seq<u8>, Schema6SeriesReaderError>(
        sections_bytes(plan, offsets).subrange(start - offsets.keysets, end - offsets.keysets),
    ) by {
        assert(session.series.subrange(
            header.keysets_offset as int,
            header.meta_offset as int,
        ).subrange(start - offsets.keysets, end - offsets.keysets) =~= session.series.subrange(
            start as int,
            end as int,
        ));
    }
}

/// A dictionary that the stream gives back gives back every value.
proof fn lemma_dict6_read(
    session: SeriesSession6,
    root: Schema6SeriesRootV2,
    key: u32,
    values: Seq<u32>,
    found: (ValueDictMeta, u64),
    code: u32,
)
    requires
        cold_stream6(session, root).find(
            key,
            0,
            root.header.num_value_dicts,
            corrupt6("schema-6 value dictionary is missing"),
        ) == Ok::<(ValueDictMeta, u64), Schema6SeriesReaderError>(found),
        dict_read(cold_stream6(session, root), key, values, found),
        code < values.len(),
    ensures
        dict_result(session, root, key) == Ok::<ValueDictMeta, Schema6SeriesReaderError>(found.0),
        value_sym_result(session, found.0, code) == Ok::<u32, Schema6SeriesReaderError>(
            values[code as int],
        ),
{
    reveal(dict_result);
    let stream = cold_stream6(session, root);
    let range = value_range_result(found.0, code);
    assert((stream.read)(range->Ok_0.start, range->Ok_0.end) == super::series_range_result(
        session.series,
        range->Ok_0.start,
        range->Ok_0.end,
    ));
}

/// The dictionary of every label is read back.
proof fn lemma_dictionary6(
    session: SeriesSession6,
    root: Schema6SeriesRootV2,
    heads: Seq<(u64, u8)>,
    rows: Seq<Seq<(u32, u32)>>,
    i: int,
    j: int,
)
    requires
        stores_rows6(session, root, heads, rows),
        0 <= i < rows.len(),
        0 <= j < rows[i].len(),
    ensures
        ({
            let dicts = plan_result(heads, rows)->Ok_0.value_dicts;
            let values = dict_values(dicts, dicts.len(), rows[i][j].0);
            let code = value_code(dicts, rows[i][j].0, rows[i][j].1);
            let meta = dict_result(session, root, rows[i][j].0);
            &&& values is Some
            &&& 0 < values->Some_0.len() <= u32::MAX
            &&& meta is Ok
            &&& meta->Ok_0.cardinality == values->Some_0.len()
            &&& value_sym_result(session, meta->Ok_0, code) == Ok::<
                u32,
                Schema6SeriesReaderError,
            >(rows[i][j].1)
        }),
{
    let plan = plan_result(heads, rows)->Ok_0;
    let offset = root.header.keysets_offset;
    let offsets = section_offsets_result(plan.lengths, offset)->Ok_0;
    let stream = cold_stream6(session, root);
    let missing = corrupt6("schema-6 value dictionary is missing");
    let key = rows[i][j].0;
    lemma_stream6_holds(session, root, plan, offsets);
    dict_lookup_law(heads, rows, offset, stream, i, j, missing);
    let values = dict_values(plan.value_dicts, plan.value_dicts.len(), key)->Some_0;
    lemma_dict6_read(
        session,
        root,
        key,
        values,
        stream.find(key, 0, plan.num_value_dicts, missing)->Ok_0,
        value_code(plan.value_dicts, key, rows[i][j].1),
    );
}

/// The first labels of a stored row are read back.
proof fn lemma_label_prefix(
    session: SeriesSession6,
    root: Schema6SeriesRootV2,
    heads: Seq<(u64, u8)>,
    rows: Seq<Seq<(u32, u32)>>,
    i: int,
    n: nat,
)
    requires
        stores_rows6(session, root, heads, rows),
        0 <= i < rows.len(),
        n <= rows[i].len(),
    ensures
        ({
            let dicts = plan_result(heads, rows)->Ok_0.value_dicts;
            let keys = keys_of(rows[i]);
            let widths = widths_of(keys, dicts);
            let packed = row_bytes(row_codes(rows[i], dicts), widths, widths.len());
            &&& label_prefix_result(session, root, keys, widths, packed, n) == Ok::<
                (Seq<(u32, u32)>, usize),
                Schema6SeriesReaderError,
            >((rows[i].take(n as int), width_total(widths, n) as usize))
            &&& width_total(widths, n) <= u32::MAX
        }),
    decreases n,
{
    let dicts = plan_result(heads, rows)->Ok_0.value_dicts;
    let keys = keys_of(rows[i]);
    if n == 0 {
        assert(rows[i].take(0) =~= Seq::empty());
    } else {
        let j = n - 1;
        lemma_label_prefix(session, root, heads, rows, i, j as nat);
        lemma_dictionary6(session, root, heads, rows, i, j);
        row_code_law(heads, rows, root.header.keysets_offset, i, j);
        assert(keys[j] == rows[i][j].0);
        assert(rows[i].take(n as int) =~= rows[i].take(j).push(rows[i][j]));
    }
}

/// A row whose parts are read is read as a whole.
proof fn lemma_row6_read(
    session: SeriesSession6,
    root: Schema6SeriesRootV2,
    keyset_id: u32,
    row: u32,
    keys: Seq<u32>,
    packed: Seq<u8>,
    labels: Seq<(u32, u32)>,
)
    requires
        ({
            let stream = cold_stream6(session, root);
            let block = stream.block(keyset_id);
            &&& stream.keyset(keyset_id) == Ok::<Seq<u32>, Schema6SeriesReaderError>(keys)
            &&& block is Ok
            &&& block->Ok_0.key_count == keys.len()
            &&& stream.row(
                block->Ok_0,
                row,
                corrupt6("schema-6 series row is out of bounds"),
            ) == Ok::<Seq<u8>, Schema6SeriesReaderError>(packed)
            &&& label_prefix_result(
                session,
                root,
                keys,
                block->Ok_0.widths,
                packed,
                keys.len(),
            ) == Ok::<(Seq<(u32, u32)>, usize), Schema6SeriesReaderError>(
                (labels, packed.len() as usize),
            )
            &&& packed.len() <= usize::MAX
        }),
    ensures
        label_ids_result(session, root, keyset_id, row) == Ok::<
            Seq<(u32, u32)>,
            Schema6SeriesReaderError,
        >(labels),
{
    reveal(label_ids_result);
}

/// The labels of every series of a stored plan are read back: the row that its
/// table entry names gives exactly the symbols that were planned for it.
pub proof fn stored_labels_law(
    session: SeriesSession6,
    root: Schema6SeriesRootV2,
    heads: Seq<(u64, u8)>,
    rows: Seq<Seq<(u32, u32)>>,
    i: int,
)
    requires
        stores_rows6(session, root, heads, rows),
        0 <= i < rows.len(),
    ensures
        label_ids_result(
            session,
            root,
            plan_result(heads, rows)->Ok_0.series_rows[i].keyset_id,
            plan_result(heads, rows)->Ok_0.series_rows[i].row,
        ) == Ok::<Seq<(u32, u32)>, Schema6SeriesReaderError>(rows[i]),
{
    let plan = plan_result(heads, rows)->Ok_0;
    let offset = root.header.keysets_offset;
    let offsets = section_offsets_result(plan.lengths, offset)->Ok_0;
    let stream = cold_stream6(session, root);
    let at = plan.series_rows[i];
    let keys = keys_of(rows[i]);
    let widths = widths_of(keys, plan.value_dicts);
    let absent = corrupt6("schema-6 series row is out of bounds");
    lemma_stream6_holds(session, root, plan, offsets);
    plan_rows_law(heads, rows, i);
    keyset_lookup_law(heads, rows, offset, stream, at.keyset_id);
    row_lookup_law(heads, rows, offset, stream, i, absent);
    lemma_label_prefix(session, root, heads, rows, i, rows[i].len());
    let packed = row_bytes(row_codes(rows[i], plan.value_dicts), widths, widths.len());
    lemma_widths_packable(keys, plan.value_dicts);
    lemma_row_bytes_len(row_codes(rows[i], plan.value_dicts), widths, widths.len());
    assert(rows[i].take(rows[i].len() as int) =~= rows[i]);
    lemma_row6_read(session, root, at.keyset_id, at.row, keys, packed, rows[i]);
}

/// A root or a chunk index of another generation gives no routing and no
/// materialization, whatever the segment holds.
pub proof fn foreign_request_law(
    session: SeriesSession6,
    root: GovernedSchema6SeriesRoot,
    directory: ChunkDirectory,
    symbols: Symbols,
    refs: Seq<u32>,
    output_size: nat,
)
    requires
        root.generation != session.generation || directory.generation != session.generation,
    ensures
        ({
            let refused = if root.generation != session.generation {
                Schema6SeriesReaderError::ForeignSegmentGeneration
            } else {
                Schema6SeriesReaderError::ChunkIndex(
                    Schema6ChunkIndexReaderError::ForeignSegmentGeneration,
                )
            };
            &&& routing_result(session, root, directory, refs) matches Err(error) && error
                == refused
            &&& materialize_request_result(
                session,
                root,
                directory,
                symbols,
                refs,
                output_size,
            ) matches Err(error) && error == refused
        }),
{
}

/// Symbols of another generation give no materialization, whatever the segment
/// holds.
pub proof fn foreign_symbols6_law(
    session: SeriesSession6,
    root: GovernedSchema6SeriesRoot,
    directory: ChunkDirectory,
    symbols: Symbols,
    refs: Seq<u32>,
    output_size: nat,
)
    requires
        request_result(session, root, directory) is Ok,
        symbols.generation != session.generation,
    ensures
        materialize_request_result(session, root, directory, symbols, refs, output_size) == Err::<
            (),
            Schema6SeriesReaderError,
        >(
            Schema6SeriesReaderError::Symbols(
                GovernedSymbolReaderError::ForeignSegmentGeneration,
            ),
        ),
{
}

proof fn lemma_rows_of(
    session: SeriesSession6,
    root: Schema6SeriesRootV2,
    directory: ChunkDirectory,
    refs: Seq<u32>,
    n: nat,
)
    requires
        n <= refs.len(),
        rows6_result(session, root, directory, refs, n) is Ok,
    ensures
        ({
            let rows = rows6_result(session, root, directory, refs, n)->Ok_0;
            &&& rows.len() == n
            &&& forall|i: int|
                0 <= i < n ==> label_ids_result(
                    session,
                    root,
                    valid_entry(session, root, refs[i]).keyset_id,
                    valid_entry(session, root, refs[i]).row,
                ) == Ok::<Seq<(u32, u32)>, Schema6SeriesReaderError>(#[trigger] rows[i])
        }),
    decreases n,
{
    if n > 0 {
        lemma_rows_of(session, root, directory, refs, (n - 1) as nat);
    }
}

/// A series that is requested twice is handed out twice, alike.
pub proof fn duplicate_request_law(
    session: SeriesSession6,
    root: Schema6SeriesRootV2,
    directory: ChunkDirectory,
    symbols: Symbols,
    refs: Seq<u32>,
    i: int,
    j: int,
)
    requires
        rows6_result(session, root, directory, refs, refs.len()) is Ok,
        0 <= i < refs.len(),
        0 <= j < refs.len(),
        refs[i] == refs[j],
    ensures
        ({
            let rows = rows6_result(session, root, directory, refs, refs.len())->Ok_0;
            let series = verified6_of(session, root, symbols, refs, rows);
            series[i] == series[j]
        }),
{
    lemma_rows_of(session, root, directory, refs, refs.len());
}

/// A returned entry is the requested one: it has the fields of its valid table
/// entry, the labels of its row, and the identity of these labels.
pub open spec fn requested_entry<H: Fn(&[u8]) -> u64>(
    hash: H,
    session: SeriesSession6,
    root: Schema6SeriesRootV2,
    symbols: Symbols,
    series_ref: u32,
    returned: (u32, EntryLabels),
) -> bool {
    let entry = valid_entry(session, root, series_ref);
    let labels = returned.1.labels;
    &&& returned.0 == series_ref
    &&& returned.1.series_id == entry.series_id
    &&& returned.1.kind_mask == entry.kind_mask
    &&& returned.1.chunk_index == entry.chunk_index
    &&& label_ids_result(session, root, entry.keyset_id, entry.row) == Ok::<
        Seq<(u32, u32)>,
        Schema6SeriesReaderError,
    >(labels)
    &&& resolve_labels_result(symbols, labels, labels.len()) is Ok
    &&& hashes_to(hash, canonical_bytes(resolved_labels(symbols, labels)), entry.series_id)
}

proof fn lemma_history<H: Fn(&[u8]) -> u64>(
    hash: H,
    session: SeriesSession6,
    root: Schema6SeriesRootV2,
    directory: ChunkDirectory,
    symbols: Symbols,
    refs: Seq<u32>,
    history: Seq<Progress>,
    n: int,
)
    requires
        is_history(hash, session, root, directory, symbols, refs, history),
        0 <= n < history.len(),
        n <= refs.len(),
        history[n] is Ok,
    ensures
        history[n]->Ok_0.len() == n,
        forall|i: int|
            0 <= i < n ==> requested_entry(
                hash,
                session,
                root,
                symbols,
                refs[i],
                #[trigger] history[n]->Ok_0[i],
            ),
    decreases n,
{
    if n > 0 {
        assert(step_outcome(
            hash,
            session,
            root,
            directory,
            symbols,
            refs[n - 1],
            history[n - 1],
            history[n],
        ));
        lemma_history(hash, session, root, directory, symbols, refs, history, n - 1);
        reveal(next_outcome);
    }
}

/// Every entry that a read gives is the requested one, in the order of the
/// request; a series that is requested twice is given twice, alike.
pub proof fn read_batch_law<H: Fn(&[u8]) -> u64>(
    hash: H,
    session: SeriesSession6,
    root: Schema6SeriesRootV2,
    directory: ChunkDirectory,
    symbols: Symbols,
    refs: Seq<u32>,
    list: Seq<(u32, EntryLabels)>,
)
    requires
        read_outcome(hash, session, root, directory, symbols, refs, Ok(list)),
    ensures
        list.len() == refs.len(),
        forall|i: int|
            0 <= i < refs.len() ==> requested_entry(
                hash,
                session,
                root,
                symbols,
                refs[i],
                #[trigger] list[i],
            ),
        forall|i: int, j: int|
            0 <= i < refs.len() && 0 <= j < refs.len() && refs[i] == refs[j]
                ==> #[trigger] list[i] == #[trigger] list[j],
{
    reveal(entries_outcome);
    let history = choose|history: Seq<Progress>|
        {
            &&& #[trigger] is_history(hash, session, root, directory, symbols, refs, history)
            &&& history.len() == refs.len() + 1
            &&& history[refs.len() as int] == Ok::<
                Seq<(u32, EntryLabels)>,
                Schema6SeriesReaderError,
            >(list)
        };
    lemma_history(
        hash,
        session,
        root,
        directory,
        symbols,
        refs,
        history,
        refs.len() as int,
    );
}

/// A read of a segment that stores a plan gives back the planned labels of every
/// requested series, empty ones too.
pub proof fn stored_batch_law<H: Fn(&[u8]) -> u64>(
    hash: H,
    session: SeriesSession6,
    root: Schema6SeriesRootV2,
    directory: ChunkDirectory,
    symbols: Symbols,
    heads: Seq<(u64, u8)>,
    rows: Seq<Seq<(u32, u32)>>,
    refs: Seq<u32>,
    list: Seq<(u32, EntryLabels)>,
)
    requires
        stores_rows6(session, root, heads, rows),
        forall|i: int|
            0 <= i < refs.len() ==> {
                let at = plan_result(heads, rows)->Ok_0.series_rows[#[trigger] refs[i] as int];
                let entry = valid_entry(session, root, refs[i]);
                refs[i] < rows.len() && entry.keyset_id == at.keyset_id && entry.row == at.row
            },
        read_outcome(hash, session, root, directory, symbols, refs, Ok(list)),
    ensures
        list.len() == refs.len(),
        forall|i: int|
            0 <= i < refs.len() ==> (#[trigger] list[i]).0 == refs[i] && list[i].1.labels
                == rows[refs[i] as int],
{
    read_batch_law(hash, session, root, directory, symbols, refs, list);
    assert forall|i: int| 0 <= i < refs.len() implies (#[trigger] list[i]).0 == refs[i]
        && list[i].1.labels == rows[refs[i] as int] by {
        assert(requested_entry(hash, session, root, symbols, refs[i], list[i]));
        stored_labels_law(session, root, heads, rows, refs[i] as int);
    }
}

/// One row whose labels hash to another identity than the stored one, such as a
/// valid row of another series, makes the whole read fail.
pub proof fn substituted_row_law<H: Fn(&[u8]) -> u64>(
    hash: H,
    session: SeriesSession6,
    root: Schema6SeriesRootV2,
    directory: ChunkDirectory,
    symbols: Symbols,
    refs: Seq<u32>,
    result: Progress,
    i: int,
)
    requires
        0 <= i < refs.len(),
        ({
            let entry = valid_entry(session, root, refs[i]);
            let labels = label_ids_result(session, root, entry.keyset_id, entry.row);
            labels is Ok && !hashes_to(
                hash,
                canonical_bytes(resolved_labels(symbols, labels->Ok_0)),
                entry.series_id,
            )
        }),
        read_outcome(hash, session, root, directory, symbols, refs, result),
    ensures
        result is Err,
{
    if let Ok(list) = result {
        read_batch_law(hash, session, root, directory, symbols, refs, list);
        assert(requested_entry(hash, session, root, symbols, refs[i], list[i]));
    }
}

} // verus!
