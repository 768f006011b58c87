//! What a session gives back of a segment whose cold stream holds a plan.

use vstd::prelude::*;

use super::cold::{
    cold_range_result, cold_stream, corrupt, dictionary_result, keyset_plan_result, page_of,
    pages_result, row_prefix_result, value_symbols_result,
};
use super::materialize::{planned_row_result, series_row_result};
use super::roots::load_cold_page_result;
use super::{provenance_result, BoundRoots, MetadataSession, Schema7MetadataReaderError};
use crate::cold_v2::blocks::{
    dict_values, lemma_row_bytes_len, lemma_widths_packable, row_bytes, width_total, widths_of,
};
use crate::cold_v2::lookup::{
    dict_lookup_law, dict_read, keyset_lookup_law, row_code_law, row_lookup_law,
};
use crate::cold_v2::plan::{
    plan_result, row_codes, section_offsets_result, sections_bytes, value_code, ColdPlan,
    SeriesColdV2SectionOffsets,
};
use crate::cold_v2::plan_laws::{lemma_corpus, plan_rows_law};
use crate::cold_v2::reader::{strictly_increasing, ValueDictMeta};
use crate::cold_v2::shapes::{dict_has, has_label, keys_of};
use crate::checksum::crc32c_of;
use crate::symbols::{resolve_labels_result, Symbols};
use crate::v3::cold_reader::ColdPage;
use crate::v3::header::{cold_page_cover_law, section_layout_law};
use crate::v3::reader::PlannedSeries;

verus! {

/// Every cold page of the segment is authentic.
pub open spec fn authentic_cold(session: MetadataSession, roots: BoundRoots) -> bool {
    forall|page_index: u32|
        page_index < roots.series.header.cold_page_count ==> #[trigger] load_cold_page_result(
            session,
            roots,
            page_index,
        ) is Ok
}

/// The segment holds a plan at these offsets, and nothing behind it.
pub open spec fn stores_plan(
    session: MetadataSession,
    roots: BoundRoots,
    plan: ColdPlan,
    offsets: SeriesColdV2SectionOffsets,
) -> bool {
    let header = roots.series.header;
    &&& header.keysets_offset == offsets.keysets
    &&& header.value_dicts_offset == offsets.value_dicts
    &&& header.keyset_blocks_offset == offsets.keyset_blocks
    &&& header.file_len == offsets.end
    &&& header.num_keysets == plan.num_keysets
    &&& header.num_value_dicts == plan.num_value_dicts
    &&& header.file_len == session.series.len() <= usize::MAX
    &&& session.series.subrange(header.keysets_offset as int, header.file_len as int)
        == sections_bytes(plan, offsets)
}

/// The segment holds the cold stream of these rows, and nothing behind it.
pub open spec fn stores_rows(
    session: MetadataSession,
    roots: BoundRoots,
    heads: Seq<(u64, u8)>,
    rows: Seq<Seq<(u32, u32)>>,
) -> bool {
    let plan = plan_result(heads, rows)->Ok_0;
    let offsets = section_offsets_result(plan.lengths, roots.series.header.keysets_offset);
    &&& plan_result(heads, rows) is Ok
    &&& offsets is Ok
    &&& stores_plan(session, roots, plan, offsets->Ok_0)
}

/// Every symbol of the rows exists.
pub open spec fn symbols_cover(rows: Seq<Seq<(u32, u32)>>, symbol_count: nat) -> bool {
    forall|i: int, j: int|
        0 <= i < rows.len() && 0 <= j < rows[i].len() ==> (#[trigger] rows[i][j]).0 < symbol_count
            && rows[i][j].1 < symbol_count
}

/// A page whose bytes have the checksum that the root stores is authentic.
pub proof fn authentic_page_law(session: MetadataSession, roots: BoundRoots, page_index: u32)
    requires
        roots.wf(),
        provenance_result(session, roots.generation) is Ok,
        page_index < roots.series.header.cold_page_count,
        roots.series.header.file_len <= session.series.len(),
        ({
            let start = roots.series.header.keysets_offset + page_index * 16_384;
            let descriptor = roots.series.cold[page_index as int];
            descriptor.page_crc32c == crc32c_of(
                session.series.subrange(start, start + descriptor.page_len),
            )
        }),
    ensures
        load_cold_page_result(session, roots, page_index) is Ok,
{
    section_layout_law(roots.series.header);
    cold_page_cover_law(roots.series.header, page_index);
}

/// A page whose bytes have another checksum than the root stores is refused.
pub proof fn corrupt_page_law(session: MetadataSession, roots: BoundRoots, page_index: u32)
    requires
        roots.wf(),
        provenance_result(session, roots.generation) is Ok,
        page_index < roots.series.header.cold_page_count,
        roots.series.header.file_len <= session.series.len(),
        ({
            let start = roots.series.header.keysets_offset + page_index * 16_384;
            let descriptor = roots.series.cold[page_index as int];
            descriptor.page_crc32c != crc32c_of(
                session.series.subrange(start, start + descriptor.page_len),
            )
        }),
    ensures
        load_cold_page_result(session, roots, page_index) == Err::<
            ColdPage,
            Schema7MetadataReaderError,
        >(corrupt("series v3 cold page CRC mismatch")),
{
    section_layout_law(roots.series.header);
    cold_page_cover_law(roots.series.header, page_index);
}

/// No byte of a range is returned where a page that it touches is refused.
pub proof fn refused_range_law(
    session: MetadataSession,
    roots: BoundRoots,
    start: u64,
    end: u64,
    page_index: u32,
)
    requires
        roots.wf(),
        roots.series.header.keysets_offset <= start < end <= roots.series.header.file_len,
        page_of(roots.series.header, start as int) <= page_index <= page_of(
            roots.series.header,
            end - 1,
        ),
        load_cold_page_result(session, roots, page_index) is Err,
    ensures
        cold_range_result(session, roots, start, end) is Err,
{
    let first = page_of(roots.series.header, start as int);
    let last = page_of(roots.series.header, end - 1);
    lemma_pages_refused(session, roots, first, (last - first + 1) as nat, page_index);
}

proof fn lemma_pages_refused(
    session: MetadataSession,
    roots: BoundRoots,
    first: int,
    n: nat,
    page_index: u32,
)
    requires
        first <= page_index < first + n,
        load_cold_page_result(session, roots, page_index) is Err,
    ensures
        pages_result(session, roots, first, n) is Err,
    decreases n,
{
    if page_index < first + n - 1 {
        lemma_pages_refused(session, roots, first, (n - 1) as nat, page_index);
    } else {
        assert((first + n - 1) as u32 == page_index);
    }
}

proof fn lemma_pages_load(session: MetadataSession, roots: BoundRoots, first: int, n: nat)
    requires
        authentic_cold(session, roots),
        0 <= first,
        first + n <= roots.series.header.cold_page_count,
    ensures
        pages_result(session, roots, first, n) is Ok,
    decreases n,
{
    if n > 0 {
        lemma_pages_load(session, roots, first, (n - 1) as nat);
        assert(load_cold_page_result(session, roots, (first + n - 1) as u32) is Ok);
    }
}

/// Every range of an authentic cold stream is read.
pub proof fn authentic_range_law(
    session: MetadataSession,
    roots: BoundRoots,
    start: u64,
    end: u64,
)
    requires
        roots.wf(),
        provenance_result(session, roots.generation) is Ok,
        authentic_cold(session, roots),
        roots.series.header.keysets_offset <= start <= end <= roots.series.header.file_len,
        roots.series.header.file_len <= session.series.len() <= usize::MAX,
    ensures
        cold_range_result(session, roots, start, end) == Ok::<
            Seq<u8>,
            Schema7MetadataReaderError,
        >(session.series.subrange(start as int, end as int)),
{
    let header = roots.series.header;
    if start == end {
        assert(session.series.subrange(start as int, end as int) =~= Seq::empty());
    } else {
        section_layout_law(header);
        cold_page_cover_law(header, (header.cold_page_count - 1) as u32);
        let first = page_of(header, start as int);
        let last = page_of(header, end - 1);
        lemma_pages_load(session, roots, first, (last - first + 1) as nat);
    }
}

proof fn lemma_stream_holds(
    session: MetadataSession,
    roots: BoundRoots,
    plan: ColdPlan,
    offsets: SeriesColdV2SectionOffsets,
)
    requires
        roots.wf(),
        provenance_result(session, roots.generation) is Ok,
        authentic_cold(session, roots),
        stores_plan(session, roots, plan, offsets),
    ensures
        cold_stream(session, roots).holds(plan, offsets),
{
    let header = roots.series.header;
    let stream = cold_stream(session, roots);
    assert forall|start: u64, end: u64|
        offsets.keysets <= start <= end <= offsets.end implies #[trigger] (stream.read)(start, end)
        == Ok::<Seq<u8>, Schema7MetadataReaderError>(
        sections_bytes(plan, offsets).subrange(start - offsets.keysets, end - offsets.keysets),
    ) by {
        authentic_range_law(session, roots, start, end);
        assert(session.series.subrange(
            header.keysets_offset as int,
            header.file_len as int,
        ).subrange(start - offsets.keysets, end - offsets.keysets) =~= session.series.subrange(
            start as int,
            end as int,
        ));
    }
}

proof fn lemma_values_ok(symbol_count: nat, values: Seq<u32>, n: nat)
    requires
        n <= values.len(),
        strictly_increasing(values),
        forall|i: int| 0 <= i < values.len() ==> #[trigger] values[i] < symbol_count,
    ensures
        value_symbols_result(symbol_count, values, n) is Ok,
    decreases n,
{
    if n > 0 {
        lemma_values_ok(symbol_count, values, (n - 1) as nat);
        if n >= 2 {
            assert(values[n - 2] < values[n - 1]);
        }
    }
}

/// A dictionary that the stream gives back is a dictionary of symbols.
proof fn lemma_dictionary_read(
    session: MetadataSession,
    roots: BoundRoots,
    symbol_count: nat,
    key: u32,
    values: Seq<u32>,
    found: (ValueDictMeta, u64),
)
    requires
        cold_stream(session, roots).find(
            key,
            0,
            roots.series.header.num_value_dicts,
            corrupt("schema-7 value dictionary is missing"),
        ) == Ok::<(ValueDictMeta, u64), Schema7MetadataReaderError>(found),
        dict_read(cold_stream(session, roots), key, values, found),
        strictly_increasing(values),
        forall|i: int| 0 <= i < values.len() ==> #[trigger] values[i] < symbol_count,
    ensures
        dictionary_result(session, roots, symbol_count, key) == Ok::<
            Seq<u32>,
            Schema7MetadataReaderError,
        >(values),
{
    reveal(dictionary_result);
    let stream = cold_stream(session, roots);
    let (meta, end) = found;
    assert((stream.read)(meta.values_offset, end) == cold_range_result(
        session,
        roots,
        meta.values_offset,
        end,
    ));
    lemma_values_ok(symbol_count, values, values.len());
}

/// Every value of a planned dictionary is a symbol of the rows.
proof fn lemma_values_symbols(
    heads: Seq<(u64, u8)>,
    rows: Seq<Seq<(u32, u32)>>,
    symbol_count: nat,
    key: u32,
    values: Seq<u32>,
)
    requires
        plan_result(heads, rows) is Ok,
        symbols_cover(rows, symbol_count),
        plan_result(heads, rows)->Ok_0.value_dicts.contains((key, values)),
    ensures
        forall|i: int| 0 <= i < values.len() ==> #[trigger] values[i] < symbol_count,
{
    let dicts = plan_result(heads, rows)->Ok_0.value_dicts;
    lemma_corpus(heads, rows);
    assert forall|v: int| 0 <= v < values.len() implies #[trigger] values[v] < symbol_count by {
        let d = dicts.index_of((key, values));
        assert(dicts[d].0 == key && dicts[d].1 == values);
        assert(values.contains(values[v]));
        assert(dict_has(dicts, key, values[v]));
        assert(has_label(rows, key, values[v]));
    }
}

/// The dictionary of every label is read back.
proof fn lemma_dictionary(
    session: MetadataSession,
    roots: BoundRoots,
    heads: Seq<(u64, u8)>,
    rows: Seq<Seq<(u32, u32)>>,
    symbol_count: nat,
    i: int,
    j: int,
)
    requires
        roots.wf(),
        provenance_result(session, roots.generation) is Ok,
        authentic_cold(session, roots),
        stores_rows(session, roots, heads, rows),
        symbols_cover(rows, symbol_count),
        0 <= i < rows.len(),
        0 <= j < rows[i].len(),
    ensures
        ({
            let dicts = plan_result(heads, rows)->Ok_0.value_dicts;
            let values = dict_values(dicts, dicts.len(), rows[i][j].0);
            let code = value_code(dicts, rows[i][j].0, rows[i][j].1);
            &&& values is Some
            &&& code < values->Some_0.len() <= u32::MAX
            &&& values->Some_0[code as int] == rows[i][j].1
            &&& dictionary_result(session, roots, symbol_count, rows[i][j].0) == Ok::<
                Seq<u32>,
                Schema7MetadataReaderError,
            >(values->Some_0)
        }),
{
    let plan = plan_result(heads, rows)->Ok_0;
    let offset = roots.series.header.keysets_offset;
    let offsets = section_offsets_result(plan.lengths, offset)->Ok_0;
    let stream = cold_stream(session, roots);
    let missing = corrupt("schema-7 value dictionary is missing");
    let key = rows[i][j].0;
    lemma_stream_holds(session, roots, plan, offsets);
    dict_lookup_law(heads, rows, offset, stream, i, j, missing);
    let values = dict_values(plan.value_dicts, plan.value_dicts.len(), key)->Some_0;
    lemma_values_symbols(heads, rows, symbol_count, key, values);
    lemma_dictionary_read(
        session,
        roots,
        symbol_count,
        key,
        values,
        stream.find(key, 0, plan.num_value_dicts, missing)->Ok_0,
    );
}

/// The first labels of a stored row are read back.
proof fn lemma_row_prefix(
    session: MetadataSession,
    roots: BoundRoots,
    heads: Seq<(u64, u8)>,
    rows: Seq<Seq<(u32, u32)>>,
    symbol_count: nat,
    i: int,
    n: nat,
)
    requires
        roots.wf(),
        provenance_result(session, roots.generation) is Ok,
        authentic_cold(session, roots),
        stores_rows(session, roots, heads, rows),
        symbols_cover(rows, symbol_count),
        0 <= i < rows.len(),
        n <= rows[i].len(),
    ensures
        ({
            let dicts = plan_result(heads, rows)->Ok_0.value_dicts;
            let keys = keys_of(rows[i]);
            let widths = widths_of(keys, dicts);
            let packed = row_bytes(row_codes(rows[i], dicts), widths, widths.len());
            &&& row_prefix_result(session, roots, symbol_count, keys, widths, packed, n) == Ok::<
                (Seq<(u32, u32)>, usize),
                Schema7MetadataReaderError,
            >((rows[i].take(n as int), width_total(widths, n) as usize))
            &&& width_total(widths, n) <= u32::MAX
        }),
    decreases n,
{
    let dicts = plan_result(heads, rows)->Ok_0.value_dicts;
    let keys = keys_of(rows[i]);
    let widths = widths_of(keys, dicts);
    if n == 0 {
        assert(rows[i].take(0) =~= Seq::empty());
    } else {
        let j = n - 1;
        lemma_row_prefix(session, roots, heads, rows, symbol_count, i, j as nat);
        lemma_dictionary(session, roots, heads, rows, symbol_count, i, j);
        row_code_law(heads, rows, roots.series.header.keysets_offset, i, j);
        assert(keys[j] == rows[i][j].0);
        assert(rows[i].take(n as int) =~= rows[i].take(j).push(rows[i][j]));
    }
}

/// A row whose parts are read is read as a whole.
proof fn lemma_row_read(
    session: MetadataSession,
    roots: BoundRoots,
    symbol_count: nat,
    planned: PlannedSeries,
    keys: Seq<u32>,
    packed: Seq<u8>,
    labels: Seq<(u32, u32)>,
)
    requires
        ({
            let stream = cold_stream(session, roots);
            let block = stream.block(planned.cold_labels.keyset_id);
            &&& stream.keyset(planned.cold_labels.keyset_id) == Ok::<
                Seq<u32>,
                Schema7MetadataReaderError,
            >(keys)
            &&& forall|k: int| 0 <= k < keys.len() ==> #[trigger] keys[k] < symbol_count
            &&& block is Ok
            &&& block->Ok_0.key_count == keys.len()
            &&& stream.row(
                block->Ok_0,
                planned.cold_labels.row,
                corrupt("schema-7 series cold row is out of bounds"),
            ) == Ok::<Seq<u8>, Schema7MetadataReaderError>(packed)
            &&& row_prefix_result(
                session,
                roots,
                symbol_count,
                keys,
                block->Ok_0.widths,
                packed,
                keys.len(),
            ) == Ok::<(Seq<(u32, u32)>, usize), Schema7MetadataReaderError>(
                (labels, packed.len() as usize),
            )
            &&& packed.len() <= usize::MAX
        }),
    ensures
        planned_row_result(session, roots, symbol_count, planned) == Ok::<
            Seq<(u32, u32)>,
            Schema7MetadataReaderError,
        >(labels),
{
    reveal(keyset_plan_result);
}

/// The labels of every series of a stored plan are read back: the row that its
/// hot record names gives exactly the symbols that were planned for it.
pub proof fn stored_row_law(
    session: MetadataSession,
    roots: BoundRoots,
    heads: Seq<(u64, u8)>,
    rows: Seq<Seq<(u32, u32)>>,
    symbol_count: nat,
    i: int,
    planned: PlannedSeries,
)
    requires
        roots.wf(),
        provenance_result(session, roots.generation) is Ok,
        authentic_cold(session, roots),
        stores_rows(session, roots, heads, rows),
        symbols_cover(rows, symbol_count),
        0 <= i < rows.len(),
        planned.cold_labels.keyset_id == plan_result(
            heads,
            rows,
        )->Ok_0.series_rows[i].keyset_id,
        planned.cold_labels.row == plan_result(heads, rows)->Ok_0.series_rows[i].row,
    ensures
        planned_row_result(session, roots, symbol_count, planned) == Ok::<
            Seq<(u32, u32)>,
            Schema7MetadataReaderError,
        >(rows[i]),
{
    let plan = plan_result(heads, rows)->Ok_0;
    let offset = roots.series.header.keysets_offset;
    let offsets = section_offsets_result(plan.lengths, offset)->Ok_0;
    let stream = cold_stream(session, roots);
    let at = plan.series_rows[i];
    let keys = keys_of(rows[i]);
    let widths = widths_of(keys, plan.value_dicts);
    let absent = corrupt("schema-7 series cold row is out of bounds");
    lemma_stream_holds(session, roots, plan, offsets);
    plan_rows_law(heads, rows, i);
    keyset_lookup_law(heads, rows, offset, stream, at.keyset_id);
    row_lookup_law(heads, rows, offset, stream, i, absent);
    assert forall|k: int| 0 <= k < keys.len() implies #[trigger] keys[k] < symbol_count by {
        assert(rows[i][k].0 < symbol_count);
    }
    lemma_row_prefix(session, roots, heads, rows, symbol_count, i, rows[i].len());
    let packed = row_bytes(row_codes(rows[i], plan.value_dicts), widths, widths.len());
    lemma_widths_packable(keys, plan.value_dicts);
    lemma_row_bytes_len(row_codes(rows[i], plan.value_dicts), widths, widths.len());
    assert(rows[i].take(rows[i].len() as int) =~= rows[i]);
    lemma_row_read(session, roots, symbol_count, planned, keys, packed, rows[i]);
}

/// A stored series is materialized from exactly its labels, where everything
/// belongs to one generation.
pub proof fn stored_series_law(
    session: MetadataSession,
    roots: BoundRoots,
    heads: Seq<(u64, u8)>,
    rows: Seq<Seq<(u32, u32)>>,
    symbols: Symbols,
    i: int,
    planned: PlannedSeries,
)
    requires
        roots.wf(),
        session.generation == roots.generation == symbols.generation,
        authentic_cold(session, roots),
        stores_rows(session, roots, heads, rows),
        symbols_cover(rows, symbols.values.len()),
        0 <= i < rows.len(),
        planned.cold_labels.keyset_id == plan_result(
            heads,
            rows,
        )->Ok_0.series_rows[i].keyset_id,
        planned.cold_labels.row == plan_result(heads, rows)->Ok_0.series_rows[i].row,
    ensures
        series_row_result(session, roots, symbols, session.generation, planned) == Ok::<
            Seq<(u32, u32)>,
            Schema7MetadataReaderError,
        >(rows[i]),
        resolve_labels_result(symbols, rows[i], rows[i].len()) is Ok,
{
    stored_row_law(session, roots, heads, rows, symbols.values.len(), i, planned);
    lemma_resolves(symbols, rows, i, rows[i].len());
}

proof fn lemma_resolves(symbols: Symbols, rows: Seq<Seq<(u32, u32)>>, i: int, n: nat)
    requires
        symbols_cover(rows, symbols.values.len()),
        0 <= i < rows.len(),
        n <= rows[i].len(),
    ensures
        resolve_labels_result(symbols, rows[i], n) is Ok,
    decreases n,
{
    if n > 0 {
        lemma_resolves(symbols, rows, i, (n - 1) as nat);
        assert(rows[i][n - 1].0 < symbols.values.len());
    }
}

} // verus!
