//! Which artifact an error blames.

use vstd::prelude::*;

use super::cold::{
    cold_range_result, cold_stream, corrupt, dictionary_result, keyset_plan_result, page_of,
    pages_result, row_labels_result, row_prefix_result, value_symbols_result,
};
use super::materialize::{planned_row_result, series_row_result};
use super::overflow::load_blob_result;
use super::roots::{
    bind_roots_result, hot_page_result, load_cold_page_result, load_roots_result, plan_hot_result,
};
use super::{BoundRoots, MetadataSession, RootPins, Schema7MetadataReaderError};
use crate::cold_v2::lookup::{ColdSection, ColdStream};
use crate::cold_v2::reader::{value_dict_values_result, KeySetBlock};
use crate::error::Error;
use crate::health::{FaultyFiles, SegmentFile};
use crate::symbols::Symbols;
use crate::v3::reader::PlannedSeries;

verus! {

/// A result does not blame an artifact other than these.
pub open spec fn blames_only<T>(
    files: FaultyFiles,
    result: Result<T, Schema7MetadataReaderError>,
) -> bool {
    result matches Err(Schema7MetadataReaderError::Cache(fault)) ==> fault.files == files
}

proof fn lemma_pages(session: MetadataSession, roots: BoundRoots, first: int, n: nat)
    ensures
        blames_only(FaultyFiles::Series, pages_result(session, roots, first, n)),
    decreases n,
{
    if n > 0 {
        lemma_pages(session, roots, first, (n - 1) as nat);
    }
}

proof fn lemma_range(session: MetadataSession, roots: BoundRoots, start: u64, end: u64)
    ensures
        blames_only(FaultyFiles::Series, cold_range_result(session, roots, start, end)),
{
    let header = roots.series.header;
    let first = page_of(header, start as int);
    let last = page_of(header, end - 1);
    lemma_pages(session, roots, first, (last - first + 1) as nat);
}

/// What a stream reports blames the series artifact alone.
spec fn blames_series(stream: ColdStream<Schema7MetadataReaderError>) -> bool {
    &&& forall|start: u64, end: u64|
        blames_only(FaultyFiles::Series, #[trigger] (stream.read)(start, end))
    &&& forall|error: Error|
        blames_only::<()>(FaultyFiles::Series, Err(#[trigger] (stream.fail)(error)))
}

proof fn lemma_stream(session: MetadataSession, roots: BoundRoots)
    ensures
        blames_series(cold_stream(session, roots)),
{
    let stream = cold_stream(session, roots);
    assert forall|start: u64, end: u64|
        blames_only(FaultyFiles::Series, #[trigger] (stream.read)(start, end)) by {
        lemma_range(session, roots, start, end);
    }
}

proof fn lemma_entry_range(
    stream: ColdStream<Schema7MetadataReaderError>,
    section: ColdSection,
    index: u32,
)
    requires
        blames_series(stream),
    ensures
        blames_only(FaultyFiles::Series, stream.entry_range(section, index)),
{
}

proof fn lemma_keyset(stream: ColdStream<Schema7MetadataReaderError>, keyset_id: u32)
    requires
        blames_series(stream),
    ensures
        blames_only(FaultyFiles::Series, stream.keyset(keyset_id)),
        blames_only(FaultyFiles::Series, stream.block(keyset_id)),
{
    lemma_entry_range(stream, stream.keysets, keyset_id);
    lemma_entry_range(stream, stream.keyset_blocks, keyset_id);
}

proof fn lemma_find(
    stream: ColdStream<Schema7MetadataReaderError>,
    key: u32,
    low: u32,
    high: u32,
    missing: Schema7MetadataReaderError,
)
    requires
        blames_series(stream),
        blames_only::<()>(FaultyFiles::Series, Err(missing)),
    ensures
        blames_only(FaultyFiles::Series, stream.find(key, low, high, missing)),
    decreases high - low,
{
    if low < high {
        let mid = (low + (high - low) / 2) as u32;
        reveal(ColdStream::dict_meta);
        lemma_entry_range(stream, stream.value_dicts, mid);
        lemma_find(stream, key, (mid + 1) as u32, high, missing);
        lemma_find(stream, key, low, mid, missing);
    }
}

proof fn lemma_value_symbols(symbol_count: nat, values: Seq<u32>, n: nat)
    ensures
        blames_only(FaultyFiles::Series, value_symbols_result(symbol_count, values, n)),
    decreases n,
{
    if n > 0 {
        lemma_value_symbols(symbol_count, values, (n - 1) as nat);
    }
}

proof fn lemma_dictionary(
    session: MetadataSession,
    roots: BoundRoots,
    symbol_count: nat,
    key_sym: u32,
)
    ensures
        blames_only(
            FaultyFiles::Series,
            dictionary_result(session, roots, symbol_count, key_sym),
        ),
{
    reveal(dictionary_result);
    let stream = cold_stream(session, roots);
    let missing = corrupt("schema-7 value dictionary is missing");
    lemma_stream(session, roots);
    lemma_find(stream, key_sym, 0, roots.series.header.num_value_dicts, missing);
    if stream.find(key_sym, 0, roots.series.header.num_value_dicts, missing) is Ok {
        let (meta, end) = stream.find(
            key_sym,
            0,
            roots.series.header.num_value_dicts,
            missing,
        )->Ok_0;
        lemma_range(session, roots, meta.values_offset, end);
        if cold_range_result(session, roots, meta.values_offset, end) is Ok {
            let values = value_dict_values_result(
                cold_range_result(session, roots, meta.values_offset, end)->Ok_0,
                meta,
            );
            if values is Ok {
                lemma_value_symbols(symbol_count, values->Ok_0, values->Ok_0.len());
            }
        }
    }
}

proof fn lemma_row_prefix(
    session: MetadataSession,
    roots: BoundRoots,
    symbol_count: nat,
    keys: Seq<u32>,
    widths: Seq<u8>,
    row: Seq<u8>,
    n: nat,
)
    ensures
        blames_only(
            FaultyFiles::Series,
            row_prefix_result(session, roots, symbol_count, keys, widths, row, n),
        ),
    decreases n,
{
    if n > 0 {
        lemma_row_prefix(session, roots, symbol_count, keys, widths, row, (n - 1) as nat);
        lemma_dictionary(session, roots, symbol_count, keys[n - 1]);
    }
}

proof fn lemma_row_labels(
    session: MetadataSession,
    roots: BoundRoots,
    symbol_count: nat,
    keys: Seq<u32>,
    block: KeySetBlock,
    row_index: u32,
)
    ensures
        blames_only(
            FaultyFiles::Series,
            row_labels_result(session, roots, symbol_count, keys, block, row_index),
        ),
{
    let stream = cold_stream(session, roots);
    let absent = corrupt("schema-7 series cold row is out of bounds");
    lemma_stream(session, roots);
    if stream.row(block, row_index, absent) is Ok {
        lemma_row_prefix(
            session,
            roots,
            symbol_count,
            keys,
            block.widths,
            stream.row(block, row_index, absent)->Ok_0,
            keys.len(),
        );
    }
}

/// Pages, ranges, plans and rows blame the series artifact alone: a row that
/// names a symbol which does not exist is no fault of the symbols.
pub proof fn series_fault_law(
    session: MetadataSession,
    roots: BoundRoots,
    page_index: u32,
    refs: Seq<u32>,
    start: u64,
    end: u64,
    symbols: Symbols,
    planned_generation: u64,
    planned: PlannedSeries,
)
    ensures
        blames_only(FaultyFiles::Series, hot_page_result(session, roots, page_index)),
        blames_only(FaultyFiles::Series, plan_hot_result(session, roots, page_index, refs)),
        blames_only(FaultyFiles::Series, load_cold_page_result(session, roots, page_index)),
        blames_only(FaultyFiles::Series, cold_range_result(session, roots, start, end)),
        blames_only(
            FaultyFiles::Series,
            series_row_result(session, roots, symbols, planned_generation, planned),
        ),
{
    lemma_range(session, roots, start, end);
    let count = symbols.values.len();
    let keyset_id = planned.cold_labels.keyset_id;
    reveal(keyset_plan_result);
    lemma_stream(session, roots);
    lemma_keyset(cold_stream(session, roots), keyset_id);
    if keyset_plan_result(session, roots, count, keyset_id) is Ok {
        let (keys, block) = keyset_plan_result(session, roots, count, keyset_id)->Ok_0;
        lemma_row_labels(session, roots, count, keys, block, planned.cold_labels.row);
    }
    assert(blames_only(
        FaultyFiles::Series,
        planned_row_result(session, roots, count, planned),
    ));
}

/// Loading the roots blames the artifact whose root it is; roots that do not fit
/// each other are blamed on both artifacts.
pub proof fn root_fault_law(session: MetadataSession, pins: RootPins)
    ensures
        load_roots_result(session) matches Err(error) ==> {
            &&& error matches Schema7MetadataReaderError::Cache(fault)
            &&& fault.files !is Both
        },
        blames_only(FaultyFiles::Both, bind_roots_result(session, pins)),
{
}

/// Loading a blob never blames the series artifact alone.
pub proof fn blob_fault_law(
    session: MetadataSession,
    roots: BoundRoots,
    planned_generation: u64,
    planned: PlannedSeries,
)
    ensures
        load_blob_result(session, roots, planned_generation, planned) matches Err(
            Schema7MetadataReaderError::Cache(fault),
        ) ==> fault.files.has(SegmentFile::ChunkIndex),
{
}

} // verus!
