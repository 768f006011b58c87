//! What a batch of series holds, said of the bytes of the table.

use vstd::prelude::*;

use super::chunk_index::ChunkDirectory;
use super::cold::label_ids_result;
use super::entries::{
    entries_outcome, is_history, materialize_request_result, next_outcome, read_outcome,
    step_outcome, EntryLabels, Progress,
};
use super::laws::{read_batch_law, requested_entry, stored_labels_law, stores_rows6};
use super::metadata::valid_entry;
use super::table::refs_result;
use super::table_laws::{
    entry_start, lemma_refs_valid, request_fits, same_ranges, same_segment, sound_entry_law,
    sound_request, sound_table_law, stored_id, stored_kinds, stored_range,
};
use super::verified::{
    batch6_outcome, batch_symbols_result, identified, identities_outcome, row_symbols_result,
    rows6_result, verified6_of, VerifiedSeries6,
};
use super::{load_root6_result, GovernedSchema6SeriesRoot, Schema6SeriesReaderError, SeriesSession6};
use crate::bytes::u32_at;
use crate::cold_v2::plan::plan_result;
use crate::symbols::{
    canonical_bytes, hashes_to, resolve_labels_result, resolved_labels, Symbols,
};

verus! {

/// Materialization is admitted exactly where everything belongs to one segment
/// and the table is sound for every requested series.
pub proof fn admitted_batch_law(
    session: SeriesSession6,
    root: GovernedSchema6SeriesRoot,
    directory: ChunkDirectory,
    symbols: Symbols,
    refs: Seq<u32>,
    output_size: nat,
)
    requires
        load_root6_result(session) == Ok::<GovernedSchema6SeriesRoot, Schema6SeriesReaderError>(
            root,
        ),
        session.series.len() <= usize::MAX,
        request_fits(refs.len(), output_size),
    ensures
        materialize_request_result(session, root, directory, symbols, refs, output_size) is Ok
            <==> same_segment(session, root, directory) && symbols.generation == session.generation
            && sound_request(session, root.value, refs),
{
    let num_series = root.value.header.num_series;
    lemma_refs_valid(num_series, refs, refs.len());
    if refs_result(num_series, refs, refs.len()) is Ok {
        sound_table_law(session, root, refs, output_size);
    } else {
        assert(!sound_request(session, root.value, refs));
    }
}

/// The row of symbols that the table names for a series.
pub open spec fn stored_row_result(
    session: SeriesSession6,
    root: GovernedSchema6SeriesRoot,
    series_ref: u32,
) -> Result<Seq<(u32, u32)>, Schema6SeriesReaderError> {
    label_ids_result(
        session,
        root.value,
        u32_at(session.series, entry_start(series_ref) + 24),
        u32_at(session.series, entry_start(series_ref) + 28),
    )
}

/// Every series that a read gives has the number that was asked for at its place,
/// the identity, kinds and range that the table stores for that number, and the
/// labels of the row that the table names, which hash to the identity.
pub proof fn read_series_law<H: Fn(&[u8]) -> u64>(
    hash: H,
    session: SeriesSession6,
    root: GovernedSchema6SeriesRoot,
    directory: ChunkDirectory,
    symbols: Symbols,
    refs: Seq<u32>,
    list: Seq<(u32, EntryLabels)>,
)
    requires
        load_root6_result(session) == Ok::<GovernedSchema6SeriesRoot, Schema6SeriesReaderError>(
            root,
        ),
        session.series.len() <= usize::MAX,
        sound_request(session, root.value, refs),
        read_outcome(hash, session, root.value, directory, symbols, refs, Ok(list)),
    ensures
        list.len() == refs.len(),
        forall|i: int|
            0 <= i < refs.len() ==> {
                &&& (#[trigger] list[i]).0 == refs[i]
                &&& list[i].1.series_id == stored_id(session.series, refs[i])
                &&& list[i].1.kind_mask == stored_kinds(session.series, refs[i])
                &&& list[i].1.chunk_index == stored_range(session.series, refs[i])
                &&& stored_row_result(session, root, refs[i]) == Ok::<
                    Seq<(u32, u32)>,
                    Schema6SeriesReaderError,
                >(list[i].1.labels)
                &&& hashes_to(
                    hash,
                    canonical_bytes(resolved_labels(symbols, list[i].1.labels)),
                    list[i].1.series_id,
                )
            },
{
    read_batch_law(hash, session, root.value, directory, symbols, refs, list);
    assert forall|i: int| 0 <= i < refs.len() implies {
        &&& (#[trigger] list[i]).0 == refs[i]
        &&& list[i].1.series_id == stored_id(session.series, refs[i])
        &&& list[i].1.kind_mask == stored_kinds(session.series, refs[i])
        &&& list[i].1.chunk_index == stored_range(session.series, refs[i])
        &&& stored_row_result(session, root, refs[i]) == Ok::<
            Seq<(u32, u32)>,
            Schema6SeriesReaderError,
        >(list[i].1.labels)
        &&& hashes_to(
            hash,
            canonical_bytes(resolved_labels(symbols, list[i].1.labels)),
            list[i].1.series_id,
        )
    } by {
        assert(refs[i] < root.value.header.num_series);
        sound_entry_law(session, root, refs[i]);
        assert(requested_entry(hash, session, root.value, symbols, refs[i], list[i]));
    }
}

proof fn lemma_rows(
    session: SeriesSession6,
    root: GovernedSchema6SeriesRoot,
    directory: ChunkDirectory,
    refs: Seq<u32>,
    n: nat,
)
    requires
        load_root6_result(session) == Ok::<GovernedSchema6SeriesRoot, Schema6SeriesReaderError>(
            root,
        ),
        session.series.len() <= usize::MAX,
        sound_request(session, root.value, refs),
        n <= refs.len(),
    ensures
        ({
            let rows = rows6_result(session, root.value, directory, refs, n);
            &&& rows matches Ok(rows) ==> {
                &&& rows.len() == n
                &&& forall|i: int|
                    0 <= i < n ==> stored_row_result(session, root, refs[i]) == Ok::<
                        Seq<(u32, u32)>,
                        Schema6SeriesReaderError,
                    >(#[trigger] rows[i])
                &&& forall|i: int|
                    0 <= i < n ==> (#[trigger] refs[i]) < directory.ranges.len()
                        && directory.ranges[refs[i] as int] == stored_range(
                        session.series,
                        refs[i],
                    )
            }
            &&& (forall|i: int|
                0 <= i < n ==> (#[trigger] refs[i]) < directory.ranges.len()
                    && directory.ranges[refs[i] as int] == stored_range(session.series, refs[i])
                    && stored_row_result(session, root, refs[i]) is Ok) ==> rows is Ok
        }),
    decreases n,
{
    if n > 0 {
        lemma_rows(session, root, directory, refs, (n - 1) as nat);
        assert(refs[n - 1] < root.value.header.num_series);
        sound_entry_law(session, root, refs[n - 1]);
        if let Ok(rows) = rows6_result(session, root.value, directory, refs, n) {
            let before = rows6_result(
                session,
                root.value,
                directory,
                refs,
                (n - 1) as nat,
            )->Ok_0;
            assert forall|i: int| 0 <= i < n implies stored_row_result(session, root, refs[i])
                == Ok::<Seq<(u32, u32)>, Schema6SeriesReaderError>(#[trigger] rows[i]) by {
                if i < n - 1 {
                    assert(rows[i] == before[i]);
                }
            }
        }
    }
}

/// Series `i` of a verified batch is series `i` of the request, whatever else is
/// requested with it: it has the identity, kinds and range that the table stores
/// for that number, and the texts of the row that the table names, which hash to
/// the identity.
pub proof fn verified_batch_law<H: Fn(&[u8]) -> u64>(
    hash: H,
    session: SeriesSession6,
    root: GovernedSchema6SeriesRoot,
    directory: ChunkDirectory,
    symbols: Symbols,
    refs: Seq<u32>,
    values: Seq<VerifiedSeries6>,
    charge: u64,
)
    requires
        load_root6_result(session) == Ok::<GovernedSchema6SeriesRoot, Schema6SeriesReaderError>(
            root,
        ),
        session.series.len() <= usize::MAX,
        sound_request(session, root.value, refs),
        batch6_outcome(
            hash,
            session,
            root.value,
            directory,
            symbols,
            refs,
            Ok((values, charge)),
        ),
    ensures
        values.len() == refs.len(),
        same_ranges(session, directory, refs),
        forall|i: int|
            0 <= i < refs.len() ==> {
                let row = stored_row_result(session, root, refs[i]);
                &&& (#[trigger] values[i]).series_ref == refs[i]
                &&& values[i].series_id == stored_id(session.series, refs[i])
                &&& values[i].kind_mask == stored_kinds(session.series, refs[i])
                &&& values[i].chunk_index == stored_range(session.series, refs[i])
                &&& row is Ok
                &&& values[i].labels.len() == row->Ok_0.len()
                &&& forall|k: int|
                    0 <= k < values[i].labels.len() ==> {
                        &&& row->Ok_0[k].0 < symbols.values.len()
                        &&& row->Ok_0[k].1 < symbols.values.len()
                        &&& (#[trigger] values[i].labels[k]).0
                            == symbols.values[row->Ok_0[k].0 as int]
                        &&& values[i].labels[k].1 == symbols.values[row->Ok_0[k].1 as int]
                    }
                &&& hashes_to(hash, canonical_bytes(values[i].labels), values[i].series_id)
            },
{
    lemma_rows(session, root, directory, refs, refs.len());
    let rows = rows6_result(session, root.value, directory, refs, refs.len())->Ok_0;
    lemma_symbols_known(symbols.values.len(), refs, rows, refs.len());
    assert forall|i: int| 0 <= i < refs.len() implies {
        let row = stored_row_result(session, root, refs[i]);
        &&& (#[trigger] values[i]).series_ref == refs[i]
        &&& values[i].series_id == stored_id(session.series, refs[i])
        &&& values[i].kind_mask == stored_kinds(session.series, refs[i])
        &&& values[i].chunk_index == stored_range(session.series, refs[i])
        &&& row is Ok
        &&& values[i].labels.len() == row->Ok_0.len()
        &&& forall|k: int|
            0 <= k < values[i].labels.len() ==> {
                &&& row->Ok_0[k].0 < symbols.values.len()
                &&& row->Ok_0[k].1 < symbols.values.len()
                &&& (#[trigger] values[i].labels[k]).0 == symbols.values[row->Ok_0[k].0 as int]
                &&& values[i].labels[k].1 == symbols.values[row->Ok_0[k].1 as int]
            }
        &&& hashes_to(hash, canonical_bytes(values[i].labels), values[i].series_id)
    } by {
        assert(refs[i] < root.value.header.num_series);
        sound_entry_law(session, root, refs[i]);
        assert(identified(hash, values[i]));
        assert forall|k: int| 0 <= k < values[i].labels.len() implies rows[i][k].0
            < symbols.values.len() && rows[i][k].1 < symbols.values.len() && (
        #[trigger] values[i].labels[k]).0 == symbols.values[rows[i][k].0 as int]
            && values[i].labels[k].1 == symbols.values[rows[i][k].1 as int] by {
            assert(rows[i][k] == rows[i][k]);
        }
    }
}

proof fn lemma_row_known(symbol_count: nat, series_ref: u32, row: Seq<(u32, u32)>, n: nat)
    requires
        n <= row.len(),
    ensures
        row_symbols_result(symbol_count, series_ref, row, n) is Ok <==> forall|k: int|
            0 <= k < n ==> (#[trigger] row[k]).0 < symbol_count && row[k].1 < symbol_count,
    decreases n,
{
    if n > 0 {
        lemma_row_known(symbol_count, series_ref, row, (n - 1) as nat);
    }
}

proof fn lemma_symbols_known(
    symbol_count: nat,
    refs: Seq<u32>,
    rows: Seq<Seq<(u32, u32)>>,
    n: nat,
)
    requires
        n <= rows.len() == refs.len(),
    ensures
        batch_symbols_result(symbol_count, refs, rows, n) is Ok <==> forall|i: int, k: int|
            0 <= i < n && 0 <= k < rows[i].len() ==> (#[trigger] rows[i][k]).0 < symbol_count
                && rows[i][k].1 < symbol_count,
    decreases n,
{
    if n > 0 {
        lemma_symbols_known(symbol_count, refs, rows, (n - 1) as nat);
        lemma_row_known(symbol_count, refs[n - 1], rows[n - 1], rows[n - 1].len());
        if batch_symbols_result(symbol_count, refs, rows, n) is Ok {
            assert forall|i: int, k: int|
                0 <= i < n && 0 <= k < rows[i].len() implies (#[trigger] rows[i][k]).0
                < symbol_count && rows[i][k].1 < symbol_count by {}
        } else if batch_symbols_result(symbol_count, refs, rows, (n - 1) as nat) is Ok {
            let k = choose|k: int|
                0 <= k < rows[n - 1].len() && !((#[trigger] rows[n - 1][k]).0 < symbol_count
                    && rows[n - 1][k].1 < symbol_count);
            assert(0 <= k < rows[n - 1].len());
        }
    }
}

/// The row of a series can be read, all its symbols exist, and whatever the hash
/// answers for its canonical bytes is the identity that the table stores.
pub open spec fn intact_series<H: Fn(&[u8]) -> u64>(
    hash: H,
    session: SeriesSession6,
    root: GovernedSchema6SeriesRoot,
    symbols: Symbols,
    series_ref: u32,
) -> bool {
    let row = stored_row_result(session, root, series_ref);
    &&& row is Ok
    &&& forall|k: int|
        0 <= k < row->Ok_0.len() ==> (#[trigger] row->Ok_0[k]).0 < symbols.values.len()
            && row->Ok_0[k].1 < symbols.values.len()
    &&& forall|id: u64| #[trigger]
        hashes_to(hash, canonical_bytes(resolved_labels(symbols, row->Ok_0)), id) ==> id
            == stored_id(session.series, series_ref)
}

/// A batch of intact series is refused for nothing but a charge that does not
/// fit its counter.
pub proof fn intact_batch_law<H: Fn(&[u8]) -> u64>(
    hash: H,
    session: SeriesSession6,
    root: GovernedSchema6SeriesRoot,
    directory: ChunkDirectory,
    symbols: Symbols,
    refs: Seq<u32>,
    result: Result<(Seq<VerifiedSeries6>, u64), Schema6SeriesReaderError>,
)
    requires
        load_root6_result(session) == Ok::<GovernedSchema6SeriesRoot, Schema6SeriesReaderError>(
            root,
        ),
        session.series.len() <= usize::MAX,
        sound_request(session, root.value, refs),
        same_ranges(session, directory, refs),
        forall|i: int|
            0 <= i < refs.len() ==> intact_series(hash, session, root, symbols, #[trigger] refs[i]),
        batch6_outcome(hash, session, root.value, directory, symbols, refs, result),
    ensures
        result matches Err(error) ==> error is Planning,
{
    lemma_rows(session, root, directory, refs, refs.len());
    assert forall|i: int| 0 <= i < refs.len() implies (#[trigger] refs[i])
        < directory.ranges.len() && directory.ranges[refs[i] as int] == stored_range(
        session.series,
        refs[i],
    ) && stored_row_result(session, root, refs[i]) is Ok by {
        assert(intact_series(hash, session, root, symbols, refs[i]));
    }
    let rows = rows6_result(session, root.value, directory, refs, refs.len())->Ok_0;
    assert forall|i: int, k: int| 0 <= i < refs.len() && 0 <= k < rows[i].len() implies (
    #[trigger] rows[i][k]).0 < symbols.values.len() && rows[i][k].1 < symbols.values.len() by {
        assert(intact_series(hash, session, root, symbols, refs[i]));
        assert(stored_row_result(session, root, refs[i])->Ok_0 == rows[i]);
    }
    lemma_symbols_known(symbols.values.len(), refs, rows, refs.len());
    let series = verified6_of(session, root.value, symbols, refs, rows);
    if result is Err && result->Err_0 !is Planning {
        assert(identities_outcome(hash, series, Err(result->Err_0)));
        let (k, actual) = choose|k: int, actual: u64|
            {
                &&& 0 <= k < series.len()
                &&& forall|j: int| 0 <= j < k ==> identified(hash, #[trigger] series[j])
                &&& #[trigger] hashes_to(hash, canonical_bytes(series[k].labels), actual)
                &&& actual != series[k].series_id
            };
        assert(intact_series(hash, session, root, symbols, refs[k]));
        assert(stored_row_result(session, root, refs[k])->Ok_0 == rows[k]);
        assert(refs[k] < root.value.header.num_series);
        sound_entry_law(session, root, refs[k]);
        assert(false);
    }
}

proof fn lemma_resolvable(symbols: Symbols, row: Seq<(u32, u32)>, n: nat)
    requires
        n <= row.len(),
        forall|k: int|
            0 <= k < row.len() ==> (#[trigger] row[k]).0 < symbols.values.len() && row[k].1
                < symbols.values.len(),
    ensures
        resolve_labels_result(symbols, row, n) is Ok,
    decreases n,
{
    if n > 0 {
        lemma_resolvable(symbols, row, (n - 1) as nat);
        assert(row[n - 1].0 < symbols.values.len());
    }
}

proof fn lemma_intact_history<H: Fn(&[u8]) -> u64>(
    hash: H,
    session: SeriesSession6,
    root: GovernedSchema6SeriesRoot,
    directory: ChunkDirectory,
    symbols: Symbols,
    refs: Seq<u32>,
    history: Seq<Progress>,
    n: int,
)
    requires
        load_root6_result(session) == Ok::<GovernedSchema6SeriesRoot, Schema6SeriesReaderError>(
            root,
        ),
        session.series.len() <= usize::MAX,
        sound_request(session, root.value, refs),
        same_ranges(session, directory, refs),
        forall|i: int|
            0 <= i < refs.len() ==> intact_series(hash, session, root, symbols, #[trigger] refs[i]),
        is_history(hash, session, root.value, directory, symbols, refs, history),
        0 <= n < history.len(),
        n <= refs.len(),
    ensures
        history[n] is Ok,
    decreases n,
{
    if n > 0 {
        lemma_intact_history(hash, session, root, directory, symbols, refs, history, n - 1);
        let series_ref = refs[n - 1];
        let entry = valid_entry(session, root.value, series_ref);
        assert(step_outcome(
            hash,
            session,
            root.value,
            directory,
            symbols,
            series_ref,
            history[n - 1],
            history[n],
        ));
        reveal(next_outcome);
        assert(series_ref < root.value.header.num_series);
        sound_entry_law(session, root, series_ref);
        assert(intact_series(hash, session, root, symbols, series_ref));
        let row = stored_row_result(session, root, series_ref)->Ok_0;
        lemma_resolvable(symbols, row, row.len());
    }
}

/// A read of intact series is refused for nothing but a charge that does not fit
/// its counter.
pub proof fn intact_read_law<H: Fn(&[u8]) -> u64>(
    hash: H,
    session: SeriesSession6,
    root: GovernedSchema6SeriesRoot,
    directory: ChunkDirectory,
    symbols: Symbols,
    refs: Seq<u32>,
    result: Progress,
)
    requires
        load_root6_result(session) == Ok::<GovernedSchema6SeriesRoot, Schema6SeriesReaderError>(
            root,
        ),
        session.series.len() <= usize::MAX,
        sound_request(session, root.value, refs),
        same_ranges(session, directory, refs),
        forall|i: int|
            0 <= i < refs.len() ==> intact_series(hash, session, root, symbols, #[trigger] refs[i]),
        read_outcome(hash, session, root.value, directory, symbols, refs, result),
    ensures
        result matches Err(error) ==> error is Planning,
{
    reveal(entries_outcome);
    if entries_outcome(
        hash,
        session,
        root.value,
        directory,
        symbols,
        refs,
        refs.len(),
        result,
    ) {
        let history = choose|history: Seq<Progress>|
            {
                &&& #[trigger] is_history(
                    hash,
                    session,
                    root.value,
                    directory,
                    symbols,
                    refs,
                    history,
                )
                &&& history.len() == refs.len() + 1
                &&& history[refs.len() as int] == result
            };
        lemma_intact_history(
            hash,
            session,
            root,
            directory,
            symbols,
            refs,
            history,
            refs.len() as int,
        );
    }
}

/// A verified batch of a segment that stores a plan gives back the texts of the
/// planned labels of every requested series, empty ones too.
pub proof fn stored_texts_law<H: Fn(&[u8]) -> u64>(
    hash: H,
    session: SeriesSession6,
    root: GovernedSchema6SeriesRoot,
    directory: ChunkDirectory,
    symbols: Symbols,
    heads: Seq<(u64, u8)>,
    rows: Seq<Seq<(u32, u32)>>,
    refs: Seq<u32>,
    values: Seq<VerifiedSeries6>,
    charge: u64,
)
    requires
        load_root6_result(session) == Ok::<GovernedSchema6SeriesRoot, Schema6SeriesReaderError>(
            root,
        ),
        session.series.len() <= usize::MAX,
        sound_request(session, root.value, refs),
        stores_rows6(session, root.value, heads, rows),
        forall|i: int|
            0 <= i < refs.len() ==> {
                let at = plan_result(heads, rows)->Ok_0.series_rows[#[trigger] refs[i] as int];
                &&& refs[i] < rows.len()
                &&& u32_at(session.series, entry_start(refs[i]) + 24) == at.keyset_id
                &&& u32_at(session.series, entry_start(refs[i]) + 28) == at.row
            },
        batch6_outcome(
            hash,
            session,
            root.value,
            directory,
            symbols,
            refs,
            Ok((values, charge)),
        ),
    ensures
        values.len() == refs.len(),
        forall|i: int, k: int|
            0 <= i < refs.len() && 0 <= k < values[i].labels.len() ==> (
            #[trigger] values[i].labels[k]).0 == symbols.values[rows[refs[i] as int][k].0 as int]
                && values[i].labels[k].1 == symbols.values[rows[refs[i] as int][k].1 as int],
        forall|i: int|
            0 <= i < refs.len() ==> (#[trigger] values[i]).labels.len()
                == rows[refs[i] as int].len(),
{
    verified_batch_law(hash, session, root, directory, symbols, refs, values, charge);
    assert forall|i: int| 0 <= i < refs.len() implies stored_row_result(
        session,
        root,
        #[trigger] refs[i],
    ) == Ok::<Seq<(u32, u32)>, Schema6SeriesReaderError>(rows[refs[i] as int]) by {
        stored_labels_law(session, root.value, heads, rows, refs[i] as int);
    }
    assert forall|i: int, k: int|
        0 <= i < refs.len() && 0 <= k < values[i].labels.len() implies (
    #[trigger] values[i].labels[k]).0 == symbols.values[rows[refs[i] as int][k].0 as int]
        && values[i].labels[k].1 == symbols.values[rows[refs[i] as int][k].1 as int] by {
        assert(values[i].series_ref == refs[i]);
    }
    assert forall|i: int| 0 <= i < refs.len() implies (#[trigger] values[i]).labels.len()
        == rows[refs[i] as int].len() by {
        assert(values[i].series_ref == refs[i]);
    }
}

} // verus!
