//! What the errors of a refused batch say.

use vstd::prelude::*;

use super::entries::identity6_outcome;
use super::verified::{
    batch_symbols_result, identities_outcome, row_symbols_result, VerifiedSeries6,
};
use super::Schema6SeriesReaderError;
use crate::error::{ErrorKind, Message};
use crate::symbols::{
    canonical_bytes, hashes_to, resolve_labels_result, resolved_labels, Symbols,
};

verus! {

/// The symbol of a row at a place in reading order: the name of a label, then its value.
pub open spec fn symbol_read(row: Seq<(u32, u32)>, p: int) -> u32 {
    if p % 2 == 0 {
        row[p / 2].0
    } else {
        row[p / 2].1
    }
}

/// The first symbol of a row that the segment does not have stands at this place.
pub open spec fn first_unknown(symbol_count: nat, row: Seq<(u32, u32)>, p: int) -> bool {
    &&& 0 <= p < 2 * row.len()
    &&& symbol_read(row, p) >= symbol_count
    &&& forall|q: int| 0 <= q < p ==> #[trigger] symbol_read(row, q) < symbol_count
}

/// The segment has every symbol of a row.
pub open spec fn all_known(symbol_count: nat, row: Seq<(u32, u32)>) -> bool {
    forall|p: int| 0 <= p < 2 * row.len() ==> #[trigger] symbol_read(row, p) < symbol_count
}

/// The error names a series and one of its symbols.
pub open spec fn names_symbol(
    error: Schema6SeriesReaderError,
    series_ref: u32,
    symbol_id: u32,
) -> bool {
    &&& error matches Schema6SeriesReaderError::Cache(error)
    &&& error.kind == ErrorKind::InvalidData
    &&& error.message == (Message::SymbolOutOfRange { series_ref, symbol_id })
}

proof fn lemma_row_symbols(symbol_count: nat, series_ref: u32, row: Seq<(u32, u32)>, n: nat)
    requires
        n <= row.len(),
    ensures
        row_symbols_result(symbol_count, series_ref, row, n) is Ok <==> forall|p: int|
            0 <= p < 2 * n ==> #[trigger] symbol_read(row, p) < symbol_count,
        row_symbols_result(symbol_count, series_ref, row, n) matches Err(error) ==> exists|p: int|
            p < 2 * n && #[trigger] first_unknown(symbol_count, row, p) && names_symbol(
                error,
                series_ref,
                symbol_read(row, p),
            ),
    decreases n,
{
    if n > 0 {
        let m = (n - 1) as nat;
        let name = 2 * (n - 1);
        lemma_row_symbols(symbol_count, series_ref, row, m);
        assert(symbol_read(row, name) == row[m as int].0);
        assert(symbol_read(row, name + 1) == row[m as int].1);
        if row_symbols_result(symbol_count, series_ref, row, m) is Ok {
            if row[m as int].0 >= symbol_count {
                assert(first_unknown(symbol_count, row, name));
            } else if row[m as int].1 >= symbol_count {
                assert forall|q: int| 0 <= q < name + 1 implies #[trigger] symbol_read(row, q)
                    < symbol_count by {
                    if q == name {
                    }
                }
                assert(first_unknown(symbol_count, row, name + 1));
            } else {
                assert forall|p: int| 0 <= p < 2 * n implies #[trigger] symbol_read(row, p)
                    < symbol_count by {
                    if p >= name {
                        assert(p == name || p == name + 1);
                    }
                }
            }
        } else {
            let p = choose|p: int|
                p < 2 * m && #[trigger] first_unknown(symbol_count, row, p) && names_symbol(
                    row_symbols_result(symbol_count, series_ref, row, m)->Err_0,
                    series_ref,
                    symbol_read(row, p),
                );
            assert(first_unknown(symbol_count, row, p));
        }
    }
}

/// The symbols of a batch are taken exactly when the segment has them all; else the error names
/// the first row with one that it does not have, and the first such symbol of that row.
pub proof fn refused_symbol_law(symbol_count: nat, refs: Seq<u32>, rows: Seq<Seq<(u32, u32)>>, n: nat)
    requires
        n <= refs.len() == rows.len(),
    ensures
        batch_symbols_result(symbol_count, refs, rows, n) is Ok <==> forall|i: int|
            0 <= i < n ==> all_known(symbol_count, #[trigger] rows[i]),
        batch_symbols_result(symbol_count, refs, rows, n) matches Err(error) ==> exists|
            i: int,
            p: int,
        |
            {
                &&& 0 <= i < n
                &&& forall|k: int| 0 <= k < i ==> all_known(symbol_count, #[trigger] rows[k])
                &&& #[trigger] first_unknown(symbol_count, rows[i], p)
                &&& names_symbol(error, refs[i], symbol_read(rows[i], p))
            },
    decreases n,
{
    if n > 0 {
        let m = (n - 1) as nat;
        let last = rows[m as int];
        refused_symbol_law(symbol_count, refs, rows, m);
        lemma_row_symbols(symbol_count, refs[m as int], last, last.len());
        if batch_symbols_result(symbol_count, refs, rows, m) is Ok {
            if batch_symbols_result(symbol_count, refs, rows, n) is Ok {
                assert forall|i: int| 0 <= i < n implies all_known(
                    symbol_count,
                    #[trigger] rows[i],
                ) by {
                    if i == m {
                    }
                }
            } else {
                let error = batch_symbols_result(symbol_count, refs, rows, n)->Err_0;
                let p = choose|p: int|
                    p < 2 * last.len() && #[trigger] first_unknown(symbol_count, last, p)
                        && names_symbol(error, refs[m as int], symbol_read(last, p));
                assert(first_unknown(symbol_count, rows[m as int], p));
            }
        }
    }
}

/// The error says that the row has another identity than its entry stores, and both.
pub open spec fn names_identities(
    error: Schema6SeriesReaderError,
    expected: u64,
    actual: u64,
) -> bool {
    &&& error matches Schema6SeriesReaderError::Cache(error)
    &&& error.kind == ErrorKind::InvalidData
    &&& error.message matches Message::Mismatch { expected: wanted, actual: found, .. }
    &&& wanted == expected
    &&& found == actual
    &&& wanted != found
}

/// Labels that resolve are refused for nothing but an identity that the hash gave and that is not
/// the one stored, and the error has both; a hash that can only give the stored one lets them
/// pass.
pub proof fn mismatched_row_law<H: Fn(&[u8]) -> u64>(
    hash: H,
    symbols: Symbols,
    expected: u64,
    labels: Seq<(u32, u32)>,
    result: Result<(), Schema6SeriesReaderError>,
)
    requires
        identity6_outcome(hash, symbols, expected, labels, result),
        resolve_labels_result(symbols, labels, labels.len()) is Ok,
    ensures
        ({
            let bytes = canonical_bytes(resolved_labels(symbols, labels));
            &&& result matches Err(error) ==> exists|actual: u64| #[trigger]
                hashes_to(hash, bytes, actual) && names_identities(error, expected, actual)
            &&& result is Ok ==> hashes_to(hash, bytes, expected)
        }),
{
}

/// A batch is refused for the first series whose labels the hash gave another identity than its
/// entry stores, and the error has both.
pub proof fn mismatched_batch_law<H: Fn(&[u8]) -> u64>(
    hash: H,
    series: Seq<VerifiedSeries6>,
    result: Result<(), Schema6SeriesReaderError>,
)
    requires
        identities_outcome(hash, series, result),
    ensures
        result matches Err(error) ==> exists|k: int, actual: u64|
            {
                &&& 0 <= k < series.len()
                &&& #[trigger] hashes_to(hash, canonical_bytes(series[k].labels), actual)
                &&& names_identities(error, series[k].series_id, actual)
                &&& forall|j: int|
                    0 <= j < k ==> hashes_to(
                        hash,
                        canonical_bytes((#[trigger] series[j]).labels),
                        series[j].series_id,
                    )
            },
        result is Ok ==> forall|j: int|
            0 <= j < series.len() ==> hashes_to(
                hash,
                canonical_bytes((#[trigger] series[j]).labels),
                series[j].series_id,
            ),
{
}

} // verus!
