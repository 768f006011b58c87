//! Fully verified series of a batch, with their labels as text.

use core::mem::size_of;

use vstd::prelude::*;

use super::chunk_index::{
    directory_of, directory_range_result, ChunkDirectory, ChunkIndexContext,
    GovernedSchema6ChunkIndexRoot, GovernedSchema6ChunkIndexSession,
};
use super::cold::label_ids_result;
use super::entries::{identity6_mismatch, materialize_request_result, verify_stored_identity};
use super::metadata::{ranges_result, valid_entry};
use super::occurrences::{
    add_occurrence, has_position, lists_positions, occurrences_end, occurrences_start,
    positions_before, symbol_at, Position, SymbolOccurrence,
};
use super::root::{Schema6SeriesRootV2, SeriesTableEntryV2};
use super::scratch::{list_bytes6, ran_out6, reserve6, reserve_both6};
use super::table::{work_holds, TableWork};
use super::{
    provenance6_result, GovernedSchema6SeriesRoot, GovernedSchema6SeriesSession,
    Schema6SeriesReaderError, SeriesSession6,
};
use crate::budget::{answers, grants};
use crate::capacity::{string_capacity, vec_capacity};
use crate::chunk::ChunkIndexRange;
use crate::cold_v2::reader::strictly_increasing;
use crate::error::{input_error, invalid_input, Error, ErrorKind, Message};
use crate::symbols::{
    canonical_bytes, hash_bytes, hashes_all, hashes_to, label_texts, lemma_canonical_push,
    label_charge, lemma_capacity_push, push_label, resolved_labels, texts_fit, CanonicalComponent,
    GovernedSymbolSession, LabelText, Symbols,
};

verus! {

/// One series whose stable identity is exposed only after the complete label
/// row and every required same-generation symbol have been materialized and
/// verified against the stored fingerprint.
#[derive(Debug, PartialEq, Eq)]
pub struct Schema6VerifiedSeries {
    series_ref: u32,
    series_id: u64,
    kind_mask: u8,
    chunk_index: ChunkIndexRange,
    labels: Vec<(String, String)>,
}

/// A verified series with its labels as a sequence of texts.
pub struct VerifiedSeries6 {
    pub series_ref: u32,
    pub series_id: u64,
    pub kind_mask: u8,
    pub chunk_index: ChunkIndexRange,
    pub labels: Seq<LabelText>,
}

impl View for Schema6VerifiedSeries {
    type V = VerifiedSeries6;

    closed spec fn view(&self) -> VerifiedSeries6 {
        VerifiedSeries6 {
            series_ref: self.series_ref,
            series_id: self.series_id,
            kind_mask: self.kind_mask,
            chunk_index: self.chunk_index,
            labels: label_texts(self.labels@),
        }
    }
}

impl Schema6VerifiedSeries {
    pub fn series_ref(&self) -> (series_ref: u32)
        ensures
            series_ref == self@.series_ref,
    {
        self.series_ref
    }

    pub fn series_id(&self) -> (series_id: u64)
        ensures
            series_id == self@.series_id,
    {
        self.series_id
    }

    pub fn kind_mask(&self) -> (kind_mask: u8)
        ensures
            kind_mask == self@.kind_mask,
    {
        self.kind_mask
    }

    pub fn chunk_index(&self) -> (range: ChunkIndexRange)
        ensures
            range == self@.chunk_index,
    {
        self.chunk_index
    }

    pub fn labels(&self) -> (labels: &[(String, String)])
        ensures
            label_texts(labels@) == self@.labels,
    {
        &self.labels
    }
}

pub open spec fn series_views(values: Seq<Schema6VerifiedSeries>) -> Seq<VerifiedSeries6> {
    Seq::new(values.len(), |i: int| values[i]@)
}

/// Ordered verified series. Duplicate requested series remain duplicate output.
#[derive(Debug)]
pub struct GovernedSchema6VerifiedSeriesBatch {
    generation: u64,
    values: Vec<Schema6VerifiedSeries>,
    charge: u64,
}

/// Verified series as a sequence.
pub struct VerifiedBatch6 {
    pub generation: u64,
    pub values: Seq<VerifiedSeries6>,
}

impl View for GovernedSchema6VerifiedSeriesBatch {
    type V = VerifiedBatch6;

    closed spec fn view(&self) -> VerifiedBatch6 {
        VerifiedBatch6 { generation: self.generation, values: series_views(self.values@) }
    }
}

impl GovernedSchema6VerifiedSeriesBatch {
    pub fn len(&self) -> (len: usize)
        ensures
            len == self@.values.len(),
    {
        self.values.len()
    }

    pub fn is_empty(&self) -> (empty: bool)
        ensures
            empty == (self@.values.len() == 0),
    {
        self.values.len() == 0
    }

    /// The bytes that the batch is charged with.
    pub closed spec fn charge(self) -> u64 {
        self.charge
    }

    /// The bytes that the batch is charged with: the capacities of its vectors
    /// and of every text.
    pub fn charged_bytes(&self) -> (charge: u64)
        ensures
            charge == self.charge(),
    {
        self.charge
    }
}

/// The size of a verified series, without its labels.
pub closed spec fn verified_series_size() -> nat {
    vstd::layout::size_of::<Schema6VerifiedSeries>()
}

/// What an allocator gave to the labels of a series: the room of their list, and
/// the bytes of every text.
pub type LabelCapacities = (usize, Seq<(usize, usize)>);

/// What an allocator gave to the labels of these series is enough for them.
pub open spec fn batch_fits(
    values: Seq<VerifiedSeries6>,
    capacities: Seq<LabelCapacities>,
) -> bool {
    &&& capacities.len() == values.len()
    &&& forall|k: int|
        0 <= k < values.len() ==> {
            &&& (#[trigger] capacities[k]).0 >= values[k].labels.len()
            &&& texts_fit(values[k].labels, capacities[k].1)
        }
}

/// The bytes of the labels of series.
pub open spec fn labels_charge(capacities: Seq<LabelCapacities>) -> nat
    decreases capacities.len(),
{
    if capacities.len() == 0 {
        0
    } else {
        labels_charge(capacities.drop_last()) + label_charge(
            capacities.last().0,
            capacities.last().1,
        )
    }
}

/// The bytes of owned series: a list with room for so many series, and their
/// labels.
pub open spec fn batch_charge(list: usize, capacities: Seq<LabelCapacities>) -> nat {
    list as nat * verified_series_size() + labels_charge(capacities)
}

/// The charge of series is that of the capacities that they were given, or an
/// error where these add up to too much.
pub open spec fn batch_charged(values: Seq<VerifiedSeries6>, charge: Result<u64, Error>) -> bool {
    exists|list: usize, capacities: Seq<LabelCapacities>|
        {
            &&& list >= values.len()
            &&& batch_fits(values, capacities)
            &&& charge == sum_result(#[trigger] batch_charge(list, capacities))
        }
}

/// A sum of charged bytes, where it can be counted.
pub open spec fn sum_result(bytes: nat) -> Result<u64, Error> {
    if bytes > u64::MAX {
        Err(input_error("schema-6 verified output charge overflows"))
    } else {
        Ok(bytes as u64)
    }
}

/// A sum that is lost once it cannot be counted.
spec fn counted(sum: Option<u64>, bytes: nat) -> bool {
    match sum {
        Some(total) => total == bytes,
        None => bytes > u64::MAX,
    }
}

/// Adds bytes to a sum.
fn add_counted(sum: Option<u64>, bytes: u64) -> (total: Option<u64>)
    ensures
        forall|before: nat| #[trigger] counted(sum, before) ==> counted(total, before + bytes as nat),
{
    match sum {
        Some(total) => total.checked_add(bytes),
        None => None,
    }
}

/// Adds the capacities of the list of labels and of every text to a sum.
fn add_label_bytes(sum: Option<u64>, labels: &Vec<(String, String)>) -> (total: Option<u64>)
    ensures
        forall|before: nat| #[trigger]
            counted(sum, before) ==> exists|capacities: LabelCapacities|
                {
                    &&& capacities.0 >= labels@.len()
                    &&& #[trigger] texts_fit(label_texts(labels@), capacities.1)
                    &&& counted(total, before + label_charge(capacities.0, capacities.1))
                },
{
    let ghost named = label_texts(labels@);
    let size: usize = size_of::<(String, String)>();
    let list: usize = vec_capacity(labels);
    let mut total: Option<u64> = add_counted(sum, (list * size) as u64);
    let ghost mut texts: Seq<(usize, usize)> = Seq::empty();
    let mut j: usize = 0;
    assert(named.take(0) =~= Seq::empty());
    while j < labels.len()
        invariant
            j <= labels@.len(),
            size == vstd::layout::size_of::<(String, String)>(),
            named == label_texts(labels@),
            texts_fit(named.take(j as int), texts),
            forall|before: nat| #[trigger]
                counted(sum, before) ==> counted(total, before + label_charge(list, texts)),
        decreases labels@.len() - j,
    {
        let name_bytes: usize = string_capacity(&labels[j].0);
        let value_bytes: usize = string_capacity(&labels[j].1);
        let with_name: Option<u64> = add_counted(total, name_bytes as u64);
        let with_value: Option<u64> = add_counted(with_name, value_bytes as u64);
        proof {
            lemma_capacity_push(texts, (name_bytes, value_bytes));
            assert(named.take(j + 1) =~= named.take(j as int).push(named[j as int]));
            assert forall|before: nat| #[trigger] counted(sum, before) implies counted(
                with_value,
                before + label_charge(list, texts.push((name_bytes, value_bytes))),
            ) by {
                let now = before + label_charge(list, texts);
                assert(counted(total, now));
                assert(counted(with_name, now + name_bytes as nat));
            }
            texts = texts.push((name_bytes, value_bytes));
        }
        total = with_value;
        j += 1;
    }
    proof {
        assert(named.take(labels@.len() as int) =~= named);
        assert forall|before: nat| #[trigger] counted(sum, before) implies exists|
            capacities: LabelCapacities,
        |
            {
                &&& capacities.0 >= labels@.len()
                &&& #[trigger] texts_fit(label_texts(labels@), capacities.1)
                &&& counted(total, before + label_charge(capacities.0, capacities.1))
            } by {
            let capacities: LabelCapacities = (list, texts);
            assert(texts_fit(label_texts(labels@), capacities.1));
        }
    }
    total
}

/// The bytes of owned series, at their capacities.
pub fn verified_output_bytes(values: &Vec<Schema6VerifiedSeries>) -> (charge: Result<u64, Error>)
    ensures
        batch_charged(series_views(values@), charge),
{
    let ghost series = series_views(values@);
    let size: usize = size_of::<Schema6VerifiedSeries>();
    let list: usize = vec_capacity(values);
    let mut total: Option<u64> = Some((list * size) as u64);
    let ghost mut capacities: Seq<LabelCapacities> = Seq::empty();
    let mut i: usize = 0;
    assert(series.take(0) =~= Seq::empty());
    while i < values.len()
        invariant
            i <= values@.len(),
            series == series_views(values@),
            batch_fits(series.take(i as int), capacities),
            counted(total, batch_charge(list, capacities)),
        decreases values@.len() - i,
    {
        let ghost before = batch_charge(list, capacities);
        let labels = &values[i].labels;
        let next: Option<u64> = add_label_bytes(total, labels);
        proof {
            let found = choose|found: LabelCapacities|
                {
                    &&& found.0 >= labels@.len()
                    &&& #[trigger] texts_fit(label_texts(labels@), found.1)
                    &&& counted(next, before + label_charge(found.0, found.1))
                };
            assert(capacities.push(found).drop_last() =~= capacities);
            assert(series[i as int].labels == label_texts(labels@));
            capacities = capacities.push(found);
        }
        total = next;
        i += 1;
    }
    assert(series.take(values@.len() as int) =~= series);
    match total {
        Some(total) => Ok(total),
        None => Err(invalid_input("schema-6 verified output charge overflows")),
    }
}

/// A requested series whose labels are still symbols.
#[derive(Debug)]
pub struct PendingVerifiedSeries {
    series_ref: u32,
    table_entry: SeriesTableEntryV2,
    encoded_labels: Vec<(u32, u32)>,
}

/// The size of a pending series, which a request declares per series.
pub open spec fn pending_size() -> nat {
    vstd::layout::size_of::<PendingVerifiedSeries>()
}

/// The label rows of the first `n` requested series, or the first error.
pub open spec fn rows6_result(
    session: SeriesSession6,
    root: Schema6SeriesRootV2,
    directory: ChunkDirectory,
    refs: Seq<u32>,
    n: nat,
) -> Result<Seq<Seq<(u32, u32)>>, Schema6SeriesReaderError>
    decreases n,
{
    if n == 0 {
        Ok(Seq::empty())
    } else {
        let entry = valid_entry(session, root, refs[n - 1]);
        match rows6_result(session, root, directory, refs, (n - 1) as nat) {
            Err(error) => Err(error),
            Ok(rows) => match directory_range_result(directory, refs[n - 1], entry.chunk_index) {
                Err(error) => Err(Schema6SeriesReaderError::ChunkIndex(error)),
                Ok(_) => match label_ids_result(session, root, entry.keyset_id, entry.row) {
                    Err(error) => Err(error),
                    Ok(labels) => Ok(rows.push(labels)),
                },
            },
        }
    }
}

pub open spec fn symbol_error(series_ref: u32, symbol_id: u32) -> Schema6SeriesReaderError {
    Schema6SeriesReaderError::Cache(
        Error {
            kind: ErrorKind::InvalidData,
            message: Message::SymbolOutOfRange { series_ref, symbol_id },
        },
    )
}

/// The first `n` labels of a series have symbols, or the first error.
pub open spec fn row_symbols_result(
    symbol_count: nat,
    series_ref: u32,
    row: Seq<(u32, u32)>,
    n: nat,
) -> Result<(), Schema6SeriesReaderError>
    decreases n,
{
    if n == 0 {
        Ok(())
    } else {
        match row_symbols_result(symbol_count, series_ref, row, (n - 1) as nat) {
            Err(error) => Err(error),
            Ok(_) => if row[n - 1].0 >= symbol_count {
                Err(symbol_error(series_ref, row[n - 1].0))
            } else if row[n - 1].1 >= symbol_count {
                Err(symbol_error(series_ref, row[n - 1].1))
            } else {
                Ok(())
            },
        }
    }
}

/// The labels of the first `n` series have symbols, or the first error.
pub open spec fn batch_symbols_result(
    symbol_count: nat,
    refs: Seq<u32>,
    rows: Seq<Seq<(u32, u32)>>,
    n: nat,
) -> Result<(), Schema6SeriesReaderError>
    decreases n,
{
    if n == 0 {
        Ok(())
    } else {
        match batch_symbols_result(symbol_count, refs, rows, (n - 1) as nat) {
            Err(error) => Err(error),
            Ok(_) => row_symbols_result(symbol_count, refs[n - 1], rows[n - 1], rows[n - 1].len()),
        }
    }
}

/// The verified series of a request, in its order.
pub open spec fn verified6_of(
    session: SeriesSession6,
    root: Schema6SeriesRootV2,
    symbols: Symbols,
    refs: Seq<u32>,
    rows: Seq<Seq<(u32, u32)>>,
) -> Seq<VerifiedSeries6> {
    Seq::new(
        refs.len(),
        |i: int|
            VerifiedSeries6 {
                series_ref: refs[i],
                series_id: valid_entry(session, root, refs[i]).series_id,
                kind_mask: valid_entry(session, root, refs[i]).kind_mask,
                chunk_index: valid_entry(session, root, refs[i]).chunk_index,
                labels: resolved_labels(symbols, rows[i]),
            },
    )
}

/// The labels of a series reproduce its stored identity.
pub open spec fn identified<H: Fn(&[u8]) -> u64>(hash: H, series: VerifiedSeries6) -> bool {
    hashes_to(hash, canonical_bytes(series.labels), series.series_id)
}

/// What verifying the identities of a batch gives: all of its series, or the
/// error of the first series that has another identity.
pub open spec fn identities_outcome<H: Fn(&[u8]) -> u64>(
    hash: H,
    series: Seq<VerifiedSeries6>,
    result: Result<(), Schema6SeriesReaderError>,
) -> bool {
    match result {
        Ok(_) => forall|k: int| 0 <= k < series.len() ==> identified(hash, #[trigger] series[k]),
        Err(error) => exists|k: int, actual: u64|
            {
                &&& 0 <= k < series.len()
                &&& forall|j: int| 0 <= j < k ==> identified(hash, #[trigger] series[j])
                &&& #[trigger] hashes_to(hash, canonical_bytes(series[k].labels), actual)
                &&& actual != series[k].series_id
                &&& error == Schema6SeriesReaderError::Cache(
                    identity6_mismatch(series[k].series_id, actual),
                )
            },
    }
}

/// What materializing a verified batch gives, and what it is charged with,
/// whatever capacities it is given.
pub open spec fn batch6_outcome<H: Fn(&[u8]) -> u64>(
    hash: H,
    session: SeriesSession6,
    root: Schema6SeriesRootV2,
    directory: ChunkDirectory,
    symbols: Symbols,
    refs: Seq<u32>,
    result: Result<(Seq<VerifiedSeries6>, u64), Schema6SeriesReaderError>,
) -> bool {
    match rows6_result(session, root, directory, refs, refs.len()) {
        Err(error) => result == Err::<(Seq<VerifiedSeries6>, u64), Schema6SeriesReaderError>(error),
        Ok(rows) => match batch_symbols_result(symbols.values.len(), refs, rows, refs.len()) {
            Err(error) => result == Err::<(Seq<VerifiedSeries6>, u64), Schema6SeriesReaderError>(error),
            Ok(_) => {
                let series = verified6_of(session, root, symbols, refs, rows);
                exists|charge: Result<u64, Error>|
                    {
                        &&& #[trigger] batch_charged(series, charge)
                        &&& match charge {
                            Err(error) => result == Err::<
                                (Seq<VerifiedSeries6>, u64),
                                Schema6SeriesReaderError,
                            >(Schema6SeriesReaderError::Planning(error)),
                            Ok(bytes) => {
                                &&& identities_outcome(
                                    hash,
                                    series,
                                    match result {
                                        Ok(_) => Ok(()),
                                        Err(error) => Err(error),
                                    },
                                )
                                &&& result matches Ok(values) ==> values == (series, bytes)
                            },
                        }
                    }
            },
        },
    }
}

/// A batch with what it is charged with.
pub open spec fn batch6_result(
    result: Result<GovernedSchema6VerifiedSeriesBatch, Schema6SeriesReaderError>,
) -> Result<(Seq<VerifiedSeries6>, u64), Schema6SeriesReaderError> {
    match result {
        Ok(batch) => Ok((batch@.values, batch.charge())),
        Err(error) => Err(error),
    }
}

proof fn lemma_rows6_error(
    session: SeriesSession6,
    root: Schema6SeriesRootV2,
    directory: ChunkDirectory,
    refs: Seq<u32>,
    n: nat,
    m: nat,
)
    requires
        n <= m,
        rows6_result(session, root, directory, refs, n) is Err,
    ensures
        rows6_result(session, root, directory, refs, m) == rows6_result(
            session,
            root,
            directory,
            refs,
            n,
        ),
    decreases m,
{
    if n < m {
        lemma_rows6_error(session, root, directory, refs, n, (m - 1) as nat);
    }
}

proof fn lemma_row_symbols_error(
    symbol_count: nat,
    series_ref: u32,
    row: Seq<(u32, u32)>,
    n: nat,
    m: nat,
)
    requires
        n <= m,
        row_symbols_result(symbol_count, series_ref, row, n) is Err,
    ensures
        row_symbols_result(symbol_count, series_ref, row, m) == row_symbols_result(
            symbol_count,
            series_ref,
            row,
            n,
        ),
    decreases m,
{
    if n < m {
        lemma_row_symbols_error(symbol_count, series_ref, row, n, (m - 1) as nat);
    }
}

proof fn lemma_batch_symbols_error(
    symbol_count: nat,
    refs: Seq<u32>,
    rows: Seq<Seq<(u32, u32)>>,
    n: nat,
    m: nat,
)
    requires
        n <= m,
        batch_symbols_result(symbol_count, refs, rows, n) is Err,
    ensures
        batch_symbols_result(symbol_count, refs, rows, m) == batch_symbols_result(
            symbol_count,
            refs,
            rows,
            n,
        ),
    decreases m,
{
    if n < m {
        lemma_batch_symbols_error(symbol_count, refs, rows, n, (m - 1) as nat);
    }
}

/// The identity of a label row.
pub fn canonical_label_identity<H: Fn(&[u8]) -> u64>(hash: &H, labels: &[(String, String)]) -> (id:
    u64)
    requires
        hashes_all(*hash),
    ensures
        hashes_to(*hash, canonical_bytes(label_texts(labels@)), id),
{
    let ghost named = label_texts(labels@);
    let mut bytes: Vec<u8> = Vec::new();
    let mut i: usize = 0;
    assert(named.take(0) =~= Seq::empty());
    while i < labels.len()
        invariant
            i <= labels@.len(),
            named == label_texts(labels@),
            bytes@ == canonical_bytes(named.take(i as int)),
        decreases labels@.len() - i,
    {
        proof {
            assert(named.take(i + 1) =~= named.take(i as int).push(named[i as int]));
            lemma_canonical_push(named.take(i as int), named[i as int]);
        }
        push_label(&mut bytes, &labels[i].0, &labels[i].1);
        i += 1;
    }
    assert(named.take(i as int) =~= named);
    hash_bytes(hash, &bytes)
}

/// The pending series are those of the first requests.
spec fn pending_holds(
    session: SeriesSession6,
    root: Schema6SeriesRootV2,
    refs: Seq<u32>,
    rows: Seq<Seq<(u32, u32)>>,
    pending: Seq<PendingVerifiedSeries>,
) -> bool {
    &&& rows.len() == pending.len() <= refs.len()
    &&& forall|i: int|
        0 <= i < pending.len() ==> {
            &&& (#[trigger] pending[i]).series_ref == refs[i]
            &&& pending[i].table_entry == valid_entry(session, root, refs[i])
            &&& pending[i].encoded_labels@ == rows[i]
        }
}

/// The routing fields of a verified series are those of the pending series.
spec fn same_head(value: Schema6VerifiedSeries, pending: PendingVerifiedSeries) -> bool {
    &&& value.series_ref == pending.series_ref
    &&& value.series_id == pending.table_entry.series_id
    &&& value.kind_mask == pending.table_entry.kind_mask
    &&& value.chunk_index == pending.table_entry.chunk_index
}

/// The series have the shape of the rows, and the pending series' routing fields.
spec fn shaped(
    rows: Seq<Seq<(u32, u32)>>,
    pending: Seq<PendingVerifiedSeries>,
    values: Seq<Schema6VerifiedSeries>,
) -> bool {
    &&& values.len() == rows.len() == pending.len()
    &&& forall|i: int|
        0 <= i < values.len() ==> {
            &&& (#[trigger] values[i]).labels@.len() == rows[i].len()
            &&& same_head(values[i], pending[i])
        }
}

/// The text of a label component.
spec fn text_at(values: Seq<Schema6VerifiedSeries>, position: Position) -> Seq<char> {
    match position.2 {
        CanonicalComponent::Name => values[position.0].labels@[position.1].0@,
        CanonicalComponent::Value => values[position.0].labels@[position.1].1@,
    }
}

/// The first `n` occurrences hold the text of their symbol.
spec fn filled(
    symbols: Symbols,
    occurrences: Seq<SymbolOccurrence>,
    values: Seq<Schema6VerifiedSeries>,
    n: int,
) -> bool {
    forall|p: int|
        0 <= p < n ==> text_at(values, (#[trigger] occurrences[p]).position())
            == symbols.values[occurrences[p].symbol_id as int]
}

/// A filled position holds the text of its symbol.
proof fn lemma_position_filled(
    rows: Seq<Seq<(u32, u32)>>,
    symbols: Symbols,
    unique: Seq<u32>,
    occurrences: Seq<SymbolOccurrence>,
    values: Seq<Schema6VerifiedSeries>,
    position: Position,
)
    requires
        lists_positions(rows, positions_before(rows, rows.len() as int, 0), unique, occurrences),
        filled(symbols, occurrences, values, occurrences.len() as int),
        has_position(rows, position),
    ensures
        text_at(values, position) == symbols.values[symbol_at(rows, position) as int],
{
    reveal(lists_positions);
    assert(positions_before(rows, rows.len() as int, 0).contains(position));
    let p = choose|p: int|
        0 <= p < occurrences.len() && (#[trigger] occurrences[p]).position() == position;
    assert(occurrences[p].symbol_id == symbol_at(rows, position));
}

/// Lists the symbols that a batch needs and the components that need them.
fn plan_occurrences(
    pending: &Vec<PendingVerifiedSeries>,
    Ghost(rows): Ghost<Seq<Seq<(u32, u32)>>>,
) -> (plan: (Vec<u32>, Vec<SymbolOccurrence>))
    requires
        rows.len() == pending@.len(),
        forall|i: int|
            0 <= i < pending@.len() ==> (#[trigger] pending@[i]).encoded_labels@ == rows[i],
    ensures
        lists_positions(
            rows,
            positions_before(rows, rows.len() as int, 0),
            plan.0@,
            plan.1@,
        ),
{
    let mut unique_symbol_ids: Vec<u32> = Vec::new();
    let mut occurrences: Vec<SymbolOccurrence> = Vec::new();
    let mut series_index: usize = 0;
    proof {
        reveal(lists_positions);
        assert(positions_before(rows, 0, 0) =~= Set::empty());
    }
    while series_index < pending.len()
        invariant
            series_index <= pending@.len() == rows.len(),
            forall|i: int|
                0 <= i < pending@.len() ==> (#[trigger] pending@[i]).encoded_labels@ == rows[i],
            lists_positions(
                rows,
                positions_before(rows, series_index as int, 0),
                unique_symbol_ids@,
                occurrences@,
            ),
        decreases pending@.len() - series_index,
    {
        let labels = &pending[series_index].encoded_labels;
        let ghost s = series_index as int;
        let mut label_index: usize = 0;
        assert(labels@ == rows[s]);
        while label_index < labels.len()
            invariant
                label_index <= labels@.len(),
                s == series_index < rows.len(),
                labels@ == rows[s],
                lists_positions(
                    rows,
                    positions_before(rows, s, label_index as int),
                    unique_symbol_ids@,
                    occurrences@,
                ),
            decreases labels@.len() - label_index,
        {
            let (name_sym, value_sym) = labels[label_index];
            let ghost done = positions_before(rows, s, label_index as int);
            let name = SymbolOccurrence {
                symbol_id: name_sym,
                series_index,
                label_index,
                component: CanonicalComponent::Name,
            };
            let value = SymbolOccurrence {
                symbol_id: value_sym,
                series_index,
                label_index,
                component: CanonicalComponent::Value,
            };
            add_occurrence(
                &mut unique_symbol_ids,
                &mut occurrences,
                name,
                Ghost(rows),
                Ghost(done),
            );
            add_occurrence(
                &mut unique_symbol_ids,
                &mut occurrences,
                value,
                Ghost(rows),
                Ghost(done.insert(name.position())),
            );
            proof {
                let now = done.insert(name.position()).insert(value.position());
                let next = positions_before(rows, s, label_index + 1);
                assert forall|position: Position|
                    now.contains(position) == next.contains(position) by {
                    if position.0 == s && position.1 == label_index {
                        match position.2 {
                            CanonicalComponent::Name => assert(position == name.position()),
                            CanonicalComponent::Value => assert(position == value.position()),
                        }
                    }
                }
                assert(now =~= next);
            }
            label_index += 1;
        }
        assert(positions_before(rows, s, rows[s].len() as int) =~= positions_before(
            rows,
            s + 1,
            0,
        ));
        series_index += 1;
    }
    (unique_symbol_ids, occurrences)
}

/// The series of a batch before their text is known.
fn blank_series(
    pending: &Vec<PendingVerifiedSeries>,
    Ghost(rows): Ghost<Seq<Seq<(u32, u32)>>>,
) -> (values: Vec<Schema6VerifiedSeries>)
    requires
        rows.len() == pending@.len(),
        forall|i: int|
            0 <= i < pending@.len() ==> (#[trigger] pending@[i]).encoded_labels@ == rows[i],
    ensures
        shaped(rows, pending@, values@),
{
    let mut values: Vec<Schema6VerifiedSeries> = Vec::with_capacity(pending.len());
    let mut i: usize = 0;
    while i < pending.len()
        invariant
            i <= pending@.len() == rows.len(),
            values@.len() == i,
            forall|k: int|
                0 <= k < pending@.len() ==> (#[trigger] pending@[k]).encoded_labels@ == rows[k],
            forall|k: int|
                0 <= k < i ==> {
                    &&& (#[trigger] values@[k]).labels@.len() == rows[k].len()
                    &&& same_head(values@[k], pending@[k])
                },
        decreases pending@.len() - i,
    {
        let value = &pending[i];
        let mut labels: Vec<(String, String)> = Vec::with_capacity(value.encoded_labels.len());
        let mut j: usize = 0;
        while j < value.encoded_labels.len()
            invariant
                j == labels@.len() <= value.encoded_labels@.len(),
            decreases value.encoded_labels@.len() - j,
        {
            labels.push((String::new(), String::new()));
            j += 1;
        }
        assert(pending@[i as int].encoded_labels@ == rows[i as int]);
        values.push(
            Schema6VerifiedSeries {
                series_ref: value.series_ref,
                series_id: value.table_entry.series_id,
                kind_mask: value.table_entry.kind_mask,
                chunk_index: value.table_entry.chunk_index,
                labels,
            },
        );
        i += 1;
    }
    values
}

/// The series with another text at one position.
spec fn with_text(
    before: Seq<Schema6VerifiedSeries>,
    after: Seq<Schema6VerifiedSeries>,
    position: Position,
    text: String,
) -> bool {
    let (s, l, component) = position;
    let label = before[s].labels@[l];
    &&& after.len() == before.len()
    &&& forall|i: int| 0 <= i < before.len() && i != s ==> #[trigger] after[i] == before[i]
    &&& after[s].series_ref == before[s].series_ref
    &&& after[s].series_id == before[s].series_id
    &&& after[s].kind_mask == before[s].kind_mask
    &&& after[s].chunk_index == before[s].chunk_index
    &&& after[s].labels@ == before[s].labels@.update(
        l,
        match component {
            CanonicalComponent::Name => (text, label.1),
            CanonicalComponent::Value => (label.0, text),
        },
    )
}

/// The text of a label component, for writing.
fn canonical_component_mut(
    values: &mut Vec<Schema6VerifiedSeries>,
    occurrence: SymbolOccurrence,
) -> (result: Result<&mut String, Error>)
    ensures
        ({
            let s = occurrence.series_index as int;
            let l = occurrence.label_index as int;
            if s < old(values)@.len() && l < old(values)@[s].labels@.len() {
                result matches Ok(target) && with_text(
                    old(values)@,
                    final(values)@,
                    occurrence.position(),
                    *final(target),
                )
            } else {
                result matches Err(error) && error == input_error(
                    "schema-6 canonical string occurrence is out of bounds",
                )
            }
        }),
{
    if occurrence.series_index >= values.len() || occurrence.label_index
        >= values[occurrence.series_index].labels.len() {
        return Err(invalid_input("schema-6 canonical string occurrence is out of bounds"));
    }
    let label = &mut values[occurrence.series_index].labels[occurrence.label_index];
    match occurrence.component {
        CanonicalComponent::Name => Ok(&mut label.0),
        CanonicalComponent::Value => Ok(&mut label.1),
    }
}

/// Writes the text of an occurrence's symbol.
fn write_occurrence(
    symbols: Ghost<Symbols>,
    text: &String,
    occurrences: &Vec<SymbolOccurrence>,
    at: usize,
    values: &mut Vec<Schema6VerifiedSeries>,
    Ghost(rows): Ghost<Seq<Seq<(u32, u32)>>>,
    Ghost(pending): Ghost<Seq<PendingVerifiedSeries>>,
    Ghost(unique): Ghost<Seq<u32>>,
) -> (result: Result<(), Error>)
    requires
        at < occurrences@.len(),
        lists_positions(
            rows,
            positions_before(rows, rows.len() as int, 0),
            unique,
            occurrences@,
        ),
        shaped(rows, pending, old(values)@),
        filled(symbols@, occurrences@, old(values)@, at as int),
        text@ == symbols@.values[occurrences@[at as int].symbol_id as int],
    ensures
        result is Ok,
        shaped(rows, pending, final(values)@),
        filled(symbols@, occurrences@, final(values)@, at + 1),
{
    let ghost before = values@;
    let occurrence = occurrences[at];
    proof {
        reveal(lists_positions);
        assert(has_position(rows, occurrences@[at as int].position()));
        assert(before[occurrence.series_index as int].labels@.len()
            == rows[occurrence.series_index as int].len());
    }
    let target = canonical_component_mut(values, occurrence)?;
    *target = text.clone();
    proof {
        let after = values@;
        assert forall|i: int| 0 <= i < after.len() implies {
            &&& (#[trigger] after[i]).labels@.len() == rows[i].len()
            &&& same_head(after[i], pending[i])
        } by {
            assert(before[i].labels@.len() == rows[i].len());
            if i != occurrence.series_index {
                assert(after[i] == before[i]);
            }
        }
        assert forall|p: int| 0 <= p < at + 1 implies text_at(
            after,
            (#[trigger] occurrences@[p]).position(),
        ) == symbols@.values[occurrences@[p].symbol_id as int] by {
            let position = occurrences@[p].position();
            assert(has_position(rows, position));
            if p < at {
                assert(occurrences@[p].position() != occurrences@[at as int].position());
                if position.0 != occurrence.series_index {
                    assert(after[position.0] == before[position.0]);
                }
            }
        }
    }
    Ok(())
}

/// How many names and values the first `n` rows have.
spec fn component_total(pending: Seq<PendingVerifiedSeries>, n: nat) -> nat
    decreases n,
{
    if n == 0 {
        0
    } else {
        component_total(pending, (n - 1) as nat) + 2 * pending[n - 1].encoded_labels@.len()
    }
}

proof fn lemma_component_total(pending: Seq<PendingVerifiedSeries>, n: nat, m: nat)
    requires
        n <= m,
    ensures
        component_total(pending, n) <= component_total(pending, m),
    decreases m,
{
    if n < m {
        lemma_component_total(pending, n, (m - 1) as nat);
    }
}

/// Counts the names and values of a batch, as far as they can be counted.
fn component_count(pending: &Vec<PendingVerifiedSeries>) -> (count: usize)
    ensures
        count == component_total(pending@, pending@.len()) || count == usize::MAX
            <= component_total(pending@, pending@.len()),
{
    let mut count: usize = 0;
    let mut i: usize = 0;
    while i < pending.len()
        invariant
            i <= pending@.len(),
            count == component_total(pending@, i as nat),
        decreases pending@.len() - i,
    {
        let labels: usize = pending[i].encoded_labels.len();
        proof {
            lemma_component_total(pending@, (i + 1) as nat, pending@.len());
        }
        count = match labels.checked_mul(2) {
            Some(components) => match count.checked_add(components) {
                Some(total) => total,
                None => {
                    return usize::MAX;
                },
            },
            None => {
                return usize::MAX;
            },
        };
        i += 1;
    }
    count
}

/// Asks for the memory of the verified series and of their label lists.
fn reserve_outputs<R: Fn(u64) -> bool>(pending: &Vec<PendingVerifiedSeries>, reserve: &R) -> (
result: Result<(), Schema6SeriesReaderError>)
    requires
        answers(*reserve),
    ensures
        result is Ok || ran_out6(*reserve, result),
{
    reserve6(reserve, list_bytes6::<Schema6VerifiedSeries>(pending.len()))?;
    let mut i: usize = 0;
    while i < pending.len()
        invariant
            i <= pending@.len(),
            answers(*reserve),
        decreases pending@.len() - i,
    {
        reserve6(reserve, list_bytes6::<(String, String)>(pending[i].encoded_labels.len()))?;
        i += 1;
    }
    Ok(())
}

/// Resolves every symbol once and writes its text wherever it occurs.
fn resolve_occurrences<R: Fn(u64) -> bool>(
    symbols: &GovernedSymbolSession,
    unique_symbol_ids: &Vec<u32>,
    occurrences: &Vec<SymbolOccurrence>,
    values: &mut Vec<Schema6VerifiedSeries>,
    Ghost(rows): Ghost<Seq<Seq<(u32, u32)>>>,
    Ghost(pending): Ghost<Seq<PendingVerifiedSeries>>,
    reserve: &R,
) -> (result: Result<(), Schema6SeriesReaderError>)
    requires
        answers(*reserve),
        lists_positions(
            rows,
            positions_before(rows, rows.len() as int, 0),
            unique_symbol_ids@,
            occurrences@,
        ),
        shaped(rows, pending, old(values)@),
        forall|i: int, j: int|
            0 <= i < rows.len() && 0 <= j < rows[i].len() ==> (#[trigger] rows[i][j]).0
                < symbols@.values.len() && rows[i][j].1 < symbols@.values.len(),
    ensures
        result is Ok || ran_out6(*reserve, result),
        shaped(rows, pending, final(values)@),
        result is Ok ==> filled(
            symbols@,
            occurrences@,
            final(values)@,
            occurrences@.len() as int,
        ),
{
    let ghost unique = unique_symbol_ids@;
    let ghost all = positions_before(rows, rows.len() as int, 0);
    let mut u: usize = 0;
    let ghost mut written: int = 0;
    proof {
        lemma_plan(rows, all, unique, occurrences@);
    }
    while u < unique_symbol_ids.len()
        invariant
            u <= unique_symbol_ids@.len(),
            answers(*reserve),
            unique == unique_symbol_ids@,
            all == positions_before(rows, rows.len() as int, 0),
            lists_positions(rows, all, unique, occurrences@),
            sorted_plan(unique, occurrences@),
            shaped(rows, pending, values@),
            0 <= written <= occurrences@.len(),
            filled(symbols@, occurrences@, values@, written),
            divides(unique, occurrences@, u as int, written),
            forall|i: int, j: int|
                0 <= i < rows.len() && 0 <= j < rows[i].len() ==> (#[trigger] rows[i][j]).0
                    < symbols@.values.len() && rows[i][j].1 < symbols@.values.len(),
        decreases unique_symbol_ids@.len() - u,
    {
        let symbol_id: u32 = unique_symbol_ids[u];
        proof {
            lemma_symbol_known(rows, all, unique, occurrences@, symbols@, u as int);
        }
        let text = match symbols.resolve(symbol_id) {
            Ok(text) => text,
            Err(error) => {
                return Err(Schema6SeriesReaderError::Symbols(error));
            },
        };
        let start: usize = occurrences_start(occurrences, symbol_id);
        let end: usize = occurrences_end(occurrences, symbol_id);
        proof {
            lemma_symbol_span(unique, occurrences@, u as int, written, start as int, end as int);
        }
        if start == end {
            return Err(
                Schema6SeriesReaderError::Planning(
                    invalid_input("schema-6 resolved symbol has no materialization occurrence"),
                ),
            );
        }
        let mut at: usize = start;
        while at < end
            invariant
                start <= at <= end <= occurrences@.len(),
                answers(*reserve),
                all == positions_before(rows, rows.len() as int, 0),
                lists_positions(rows, all, unique, occurrences@),
                shaped(rows, pending, values@),
                filled(symbols@, occurrences@, values@, at as int),
                forall|p: int|
                    start <= p < end ==> (#[trigger] occurrences@[p]).symbol_id == symbol_id,
                text@ == symbols@.values[symbol_id as int],
            decreases end - at,
        {
            assert(occurrences@[at as int].symbol_id == symbol_id);
            reserve6(reserve, text.as_str().as_bytes().len() as u64)?;
            match write_occurrence(
                Ghost(symbols@),
                text,
                occurrences,
                at,
                values,
                Ghost(rows),
                Ghost(pending),
                Ghost(unique),
            ) {
                Ok(_) => {},
                Err(error) => {
                    return Err(Schema6SeriesReaderError::Planning(error));
                },
            }
            at += 1;
        }
        proof {
            written = end as int;
        }
        u += 1;
    }
    Ok(())
}

/// The plan is sorted, and every occurrence has a listed symbol.
spec fn sorted_plan(unique: Seq<u32>, occurrences: Seq<SymbolOccurrence>) -> bool {
    &&& strictly_increasing(unique)
    &&& forall|p: int, q: int|
        0 <= p < q < occurrences.len() ==> (#[trigger] occurrences[p]).symbol_id <= (
        #[trigger] occurrences[q]).symbol_id
    &&& forall|p: int|
        0 <= p < occurrences.len() ==> unique.contains((#[trigger] occurrences[p]).symbol_id)
}

/// The first `written` occurrences are those of the first `u` symbols.
spec fn divides(
    unique: Seq<u32>,
    occurrences: Seq<SymbolOccurrence>,
    u: int,
    written: int,
) -> bool {
    &&& 0 <= written <= occurrences.len()
    &&& u >= unique.len() ==> written == occurrences.len()
    &&& u < unique.len() ==> forall|p: int|
        0 <= p < occurrences.len() ==> (p < written <==> (#[trigger] occurrences[p]).symbol_id
            < unique[u])
}

proof fn lemma_plan(
    rows: Seq<Seq<(u32, u32)>>,
    all: Set<Position>,
    unique: Seq<u32>,
    occurrences: Seq<SymbolOccurrence>,
)
    requires
        lists_positions(rows, all, unique, occurrences),
    ensures
        sorted_plan(unique, occurrences),
        divides(unique, occurrences, 0, 0),
{
    reveal(lists_positions);
    assert(sorted_plan(unique, occurrences));
    if occurrences.len() > 0 {
        assert(unique.contains(occurrences[0].symbol_id));
    }
    if unique.len() > 0 {
        assert forall|p: int| 0 <= p < occurrences.len() implies unique[0] <= (
        #[trigger] occurrences[p]).symbol_id by {
            let v = unique.index_of(occurrences[p].symbol_id);
            assert(unique[v] == occurrences[p].symbol_id);
        }
    }
}

/// A listed symbol exists where the symbols of the rows exist.
proof fn lemma_symbol_known(
    rows: Seq<Seq<(u32, u32)>>,
    all: Set<Position>,
    unique: Seq<u32>,
    occurrences: Seq<SymbolOccurrence>,
    symbols: Symbols,
    u: int,
)
    requires
        lists_positions(rows, all, unique, occurrences),
        0 <= u < unique.len(),
        forall|i: int, j: int|
            0 <= i < rows.len() && 0 <= j < rows[i].len() ==> (#[trigger] rows[i][j]).0
                < symbols.values.len() && rows[i][j].1 < symbols.values.len(),
    ensures
        unique[u] < symbols.values.len(),
        exists|p: int|
            0 <= p < occurrences.len() && (#[trigger] occurrences[p]).symbol_id == unique[u],
{
    reveal(lists_positions);
    let p = choose|p: int|
        0 <= p < occurrences.len() && (#[trigger] occurrences[p]).symbol_id == unique[u];
    let position = occurrences[p].position();
    assert(has_position(rows, position));
    assert(rows[position.0][position.1].0 < symbols.values.len());
}

/// The occurrences of a symbol follow those of the symbols before it, and there
/// is at least one.
proof fn lemma_symbol_span(
    unique: Seq<u32>,
    occurrences: Seq<SymbolOccurrence>,
    u: int,
    written: int,
    start: int,
    end: int,
)
    requires
        sorted_plan(unique, occurrences),
        0 <= u < unique.len(),
        divides(unique, occurrences, u, written),
        exists|p: int|
            0 <= p < occurrences.len() && (#[trigger] occurrences[p]).symbol_id == unique[u],
        0 <= start <= occurrences.len(),
        forall|p: int| 0 <= p < start ==> (#[trigger] occurrences[p]).symbol_id < unique[u],
        forall|p: int|
            start <= p < occurrences.len() ==> unique[u] <= (#[trigger] occurrences[p]).symbol_id,
        0 <= end <= occurrences.len(),
        forall|p: int| 0 <= p < end ==> (#[trigger] occurrences[p]).symbol_id <= unique[u],
        forall|p: int|
            end <= p < occurrences.len() ==> unique[u] < (#[trigger] occurrences[p]).symbol_id,
    ensures
        start == written,
        start < end,
        forall|p: int|
            start <= p < end ==> (#[trigger] occurrences[p]).symbol_id == unique[u],
        divides(unique, occurrences, u + 1, end),
{
    if written < start {
        assert(occurrences[written].symbol_id < unique[u]);
    }
    if start < written {
        assert(unique[u] <= occurrences[start].symbol_id);
    }
    let p0 = choose|p: int|
        0 <= p < occurrences.len() && (#[trigger] occurrences[p]).symbol_id == unique[u];
    assert(start <= p0 < end);
    assert forall|p: int| end <= p < occurrences.len() implies u + 1 < unique.len() && unique[u + 1]
        <= (#[trigger] occurrences[p]).symbol_id by {
        let v = unique.index_of(occurrences[p].symbol_id);
        assert(unique[v] == occurrences[p].symbol_id);
        assert(u < v);
    }
    if end < occurrences.len() {
        assert(unique[u] < occurrences[end].symbol_id);
    }
    if u + 1 < unique.len() {
        assert(unique[u] < unique[u + 1]);
    }
}

impl<'a> GovernedSchema6SeriesSession<'a> {
    /// Reads the label rows of requested series.
    fn collect_pending<R: Fn(u64) -> bool>(
        &self,
        root: &GovernedSchema6SeriesRoot,
        chunk_index: ChunkIndexContext<'_>,
        work: &TableWork,
        series_refs: &[u32],
        reserve: &R,
    ) -> (result: Result<Vec<PendingVerifiedSeries>, Schema6SeriesReaderError>)
        requires
            work_holds(self@, root.value, series_refs@, *work),
            answers(*reserve),
        ensures
            ran_out6(*reserve, result) || match rows6_result(
                self@,
                root.value,
                chunk_index@,
                series_refs@,
                series_refs@.len(),
            ) {
                Err(error) => result == Err::<
                    Vec<PendingVerifiedSeries>,
                    Schema6SeriesReaderError,
                >(error),
                Ok(rows) => result is Ok && result->Ok_0@.len() == series_refs@.len()
                    && pending_holds(
                    self@,
                    root.value,
                    series_refs@,
                    rows,
                    result->Ok_0@,
                ),
            },
    {
        let mut pending: Vec<PendingVerifiedSeries> = Vec::with_capacity(series_refs.len());
        let ghost mut rows: Seq<Seq<(u32, u32)>> = Seq::empty();
        let mut i: usize = 0;
        while i < series_refs.len()
            invariant
                i <= series_refs@.len(),
                answers(*reserve),
                pending@.len() == i,
                work_holds(self@, root.value, series_refs@, *work),
                ranges_result(self@, root.value, chunk_index@, series_refs@, i as nat) is Ok,
                rows6_result(self@, root.value, chunk_index@, series_refs@, i as nat) == Ok::<
                    Seq<Seq<(u32, u32)>>,
                    Schema6SeriesReaderError,
                >(rows),
                pending_holds(self@, root.value, series_refs@, rows, pending@),
            decreases series_refs@.len() - i,
        {
            proof {
                let next = (i + 1) as nat;
                if rows6_result(self@, root.value, chunk_index@, series_refs@, next) is Err {
                    lemma_rows6_error(
                        self@,
                        root.value,
                        chunk_index@,
                        series_refs@,
                        next,
                        series_refs@.len(),
                    );
                }
            }
            let table_entry = self.routed_entry(root, chunk_index, work, series_refs, i)?;
            let encoded_labels = self.decode_label_ids(root, table_entry, reserve)?;
            proof {
                rows = rows.push(encoded_labels@);
            }
            pending.push(
                PendingVerifiedSeries { series_ref: series_refs[i], table_entry, encoded_labels },
            );
            i += 1;
        }
        Ok(pending)
    }

    /// Checks that every label of a series has symbols.
    fn check_row_symbols(
        &self,
        symbols: &GovernedSymbolSession,
        series_ref: u32,
        row: &[(u32, u32)],
    ) -> (result: Result<(), Schema6SeriesReaderError>)
        ensures
            result == row_symbols_result(symbols@.values.len(), series_ref, row@, row@.len()),
            result is Ok ==> forall|j: int|
                0 <= j < row@.len() ==> (#[trigger] row@[j]).0 < symbols@.values.len()
                    && row@[j].1 < symbols@.values.len(),
    {
        let mut j: usize = 0;
        while j < row.len()
            invariant
                j <= row@.len(),
                row_symbols_result(symbols@.values.len(), series_ref, row@, j as nat) is Ok,
                forall|k: int|
                    0 <= k < j ==> (#[trigger] row@[k]).0 < symbols@.values.len() && row@[k].1
                        < symbols@.values.len(),
            decreases row@.len() - j,
        {
            let (name_sym, value_sym) = row[j];
            proof {
                let next = (j + 1) as nat;
                if row_symbols_result(symbols@.values.len(), series_ref, row@, next) is Err {
                    lemma_row_symbols_error(
                        symbols@.values.len(),
                        series_ref,
                        row@,
                        next,
                        row@.len(),
                    );
                }
            }
            if name_sym as usize >= symbols.len() {
                return Err(self.missing_symbol(series_ref, name_sym));
            }
            if value_sym as usize >= symbols.len() {
                return Err(self.missing_symbol(series_ref, value_sym));
            }
            j += 1;
        }
        Ok(())
    }

    fn missing_symbol(&self, series_ref: u32, symbol_id: u32) -> (error: Schema6SeriesReaderError)
        ensures
            error == symbol_error(series_ref, symbol_id),
    {
        self.record_series_error(
            Error {
                kind: ErrorKind::InvalidData,
                message: Message::SymbolOutOfRange { series_ref, symbol_id },
            },
        )
    }

    /// Checks the symbols of a batch.
    fn check_batch_symbols(
        &self,
        symbols: &GovernedSymbolSession,
        pending: &Vec<PendingVerifiedSeries>,
        Ghost(refs): Ghost<Seq<u32>>,
        Ghost(rows): Ghost<Seq<Seq<(u32, u32)>>>,
        Ghost(session): Ghost<SeriesSession6>,
        Ghost(root): Ghost<Schema6SeriesRootV2>,
    ) -> (result: Result<(), Schema6SeriesReaderError>)
        requires
            pending_holds(session, root, refs, rows, pending@),
            pending@.len() == refs.len(),
        ensures
            result == batch_symbols_result(symbols@.values.len(), refs, rows, refs.len()),
            result is Ok ==> forall|i: int, j: int|
                0 <= i < rows.len() && 0 <= j < rows[i].len() ==> (#[trigger] rows[i][j]).0
                    < symbols@.values.len() && rows[i][j].1 < symbols@.values.len(),
    {
        let ghost count = symbols@.values.len();
        let mut i: usize = 0;
        while i < pending.len()
            invariant
                i <= pending@.len() == refs.len(),
                count == symbols@.values.len(),
                pending_holds(session, root, refs, rows, pending@),
                batch_symbols_result(count, refs, rows, i as nat) is Ok,
                forall|k: int, j: int|
                    0 <= k < i && 0 <= j < rows[k].len() ==> (#[trigger] rows[k][j]).0 < count
                        && rows[k][j].1 < count,
            decreases pending@.len() - i,
        {
            let value = &pending[i];
            assert(pending@[i as int].series_ref == refs[i as int]);
            proof {
                let next = (i + 1) as nat;
                if batch_symbols_result(count, refs, rows, next) is Err {
                    lemma_batch_symbols_error(count, refs, rows, next, refs.len());
                }
            }
            self.check_row_symbols(symbols, value.series_ref, &value.encoded_labels)?;
            i += 1;
        }
        Ok(())
    }

    /// Owns the text of a batch whose symbols exist. Symbols shared by several
    /// labels are resolved once.
    fn resolve_batch<R: Fn(u64) -> bool>(
        &self,
        root: &GovernedSchema6SeriesRoot,
        symbols: &GovernedSymbolSession,
        pending: &Vec<PendingVerifiedSeries>,
        Ghost(refs): Ghost<Seq<u32>>,
        Ghost(rows): Ghost<Seq<Seq<(u32, u32)>>>,
        reserve: &R,
    ) -> (result: Result<Vec<Schema6VerifiedSeries>, Schema6SeriesReaderError>)
        requires
            answers(*reserve),
            pending_holds(self@, root.value, refs, rows, pending@),
            pending@.len() == refs.len(),
            forall|i: int, j: int|
                0 <= i < rows.len() && 0 <= j < rows[i].len() ==> (#[trigger] rows[i][j]).0
                    < symbols@.values.len() && rows[i][j].1 < symbols@.values.len(),
        ensures
            result is Ok || ran_out6(*reserve, result),
            result matches Ok(values) ==> series_views(values@) == verified6_of(
                self@,
                root.value,
                symbols@,
                refs,
                rows,
            ),
    {
        let ghost expected = verified6_of(self@, root.value, symbols@, refs, rows);
        let (unique_symbol_ids, occurrences) = plan_occurrences(pending, Ghost(rows));
        reserve_outputs(pending, reserve)?;
        let mut values = blank_series(pending, Ghost(rows));
        resolve_occurrences(
            symbols,
            &unique_symbol_ids,
            &occurrences,
            &mut values,
            Ghost(rows),
            Ghost(pending@),
            reserve,
        )?;
        proof {
            assert forall|i: int| 0 <= i < values@.len() implies (#[trigger] values@[i])@
                == expected[i] by {
                assert(pending@[i].series_ref == refs[i]);
                assert(same_head(values@[i], pending@[i]));
                assert forall|j: int| 0 <= j < rows[i].len() implies (
                #[trigger] values@[i].labels@[j]).0@ == symbols@.values[rows[i][j].0 as int]
                    && values@[i].labels@[j].1@ == symbols@.values[rows[i][j].1 as int] by {
                    lemma_position_filled(
                        rows,
                        symbols@,
                        unique_symbol_ids@,
                        occurrences@,
                        values@,
                        (i, j, CanonicalComponent::Name),
                    );
                    lemma_position_filled(
                        rows,
                        symbols@,
                        unique_symbol_ids@,
                        occurrences@,
                        values@,
                        (i, j, CanonicalComponent::Value),
                    );
                }
                assert(label_texts(values@[i].labels@) =~= expected[i].labels);
            }
            assert(series_views(values@) =~= expected);
        }
        Ok(values)
    }

    /// Verifies the identities of a batch.
    fn verify_identities<H: Fn(&[u8]) -> u64>(
        &self,
        hash: &H,
        values: &Vec<Schema6VerifiedSeries>,
    ) -> (result: Result<(), Schema6SeriesReaderError>)
        requires
            hashes_all(*hash),
        ensures
            identities_outcome(*hash, series_views(values@), result),
    {
        let ghost series = series_views(values@);
        let mut k: usize = 0;
        while k < values.len()
            invariant
                k <= values@.len(),
                hashes_all(*hash),
                series == series_views(values@),
                forall|j: int| 0 <= j < k ==> identified(*hash, #[trigger] series[j]),
            decreases values@.len() - k,
        {
            let value = &values[k];
            let actual_series_id: u64 = canonical_label_identity(hash, &value.labels);
            assert(series[k as int].labels == label_texts(value.labels@));
            assert(hashes_to(*hash, canonical_bytes(series[k as int].labels), actual_series_id));
            verify_stored_identity(value.series_id, actual_series_id)?;
            k += 1;
        }
        Ok(())
    }

    /// Materializes complete label rows and exposes their stored identities
    /// only after all required same-generation symbols reproduce the canonical
    /// fingerprints.
    pub fn materialize_verified<H: Fn(&[u8]) -> u64>(
        &self,
        root: &GovernedSchema6SeriesRoot,
        chunk_index: &GovernedSchema6ChunkIndexSession,
        chunk_index_root: &GovernedSchema6ChunkIndexRoot,
        symbols: &GovernedSymbolSession,
        hash: &H,
        series_refs: &[u32],
    ) -> (result: Result<GovernedSchema6VerifiedSeriesBatch, Schema6SeriesReaderError>)
        requires
            root.of(self@),
            hashes_all(*hash),
        ensures
            match materialize_request_result(
                self@,
                *root,
                directory_of(chunk_index@, *chunk_index_root),
                symbols@,
                series_refs@,
                pending_size(),
            ) {
                Err(error) => result == Err::<
                    GovernedSchema6VerifiedSeriesBatch,
                    Schema6SeriesReaderError,
                >(error),
                Ok(_) => batch6_outcome(
                    *hash,
                    self@,
                    root.value,
                    directory_of(chunk_index@, *chunk_index_root),
                    symbols@,
                    series_refs@,
                    batch6_result(result),
                ),
            },
            result matches Ok(batch) ==> batch@.generation == self@.generation,
    {
        self.materialize_verified_within(
            root,
            ChunkIndexContext::new(chunk_index, chunk_index_root),
            symbols,
            hash,
            series_refs,
            &grants,
        )
    }

    /// Materializes and verifies requested series with memory that is asked for.
    pub(super) fn materialize_verified_within<H: Fn(&[u8]) -> u64, R: Fn(u64) -> bool>(
        &self,
        root: &GovernedSchema6SeriesRoot,
        chunk_index: ChunkIndexContext<'_>,
        symbols: &GovernedSymbolSession,
        hash: &H,
        series_refs: &[u32],
        reserve: &R,
    ) -> (result: Result<GovernedSchema6VerifiedSeriesBatch, Schema6SeriesReaderError>)
        requires
            root.of(self@),
            hashes_all(*hash),
            answers(*reserve),
        ensures
            ran_out6(*reserve, result) || match materialize_request_result(
                self@,
                *root,
                chunk_index@,
                symbols@,
                series_refs@,
                pending_size(),
            ) {
                Err(error) => result == Err::<
                    GovernedSchema6VerifiedSeriesBatch,
                    Schema6SeriesReaderError,
                >(error),
                Ok(_) => batch6_outcome(
                    *hash,
                    self@,
                    root.value,
                    chunk_index@,
                    symbols@,
                    series_refs@,
                    batch6_result(result),
                ),
            },
            result matches Ok(batch) ==> batch@.generation == self@.generation,
    {
        let work = self.request_materialization::<PendingVerifiedSeries>(
            root,
            chunk_index,
            symbols,
            series_refs,
            reserve,
        )?;
        let pending = self.collect_pending(root, chunk_index, &work, series_refs, reserve)?;
        let ghost refs = series_refs@;
        let ghost rows = rows6_result(
            self@,
            root.value,
            chunk_index@,
            refs,
            refs.len(),
        )->Ok_0;
        let components: usize = component_count(&pending);
        reserve_both6(
            reserve,
            list_bytes6::<u32>(components),
            list_bytes6::<SymbolOccurrence>(components),
        )?;
        self.check_batch_symbols(
            symbols,
            &pending,
            Ghost(refs),
            Ghost(rows),
            Ghost(self@),
            Ghost(root.value),
        )?;
        let values = self.resolve_batch(
            root,
            symbols,
            &pending,
            Ghost(refs),
            Ghost(rows),
            reserve,
        )?;
        let output_bytes = verified_output_bytes(&values);
        assert(batch_charged(series_views(values@), output_bytes));
        let charge: u64 = match output_bytes {
            Ok(charge) => charge,
            Err(error) => {
                return Err(Schema6SeriesReaderError::Planning(error));
            },
        };
        self.verify_identities(hash, &values)?;
        Ok(
            GovernedSchema6VerifiedSeriesBatch {
                generation: self.artifacts.generation,
                values,
                charge,
            },
        )
    }

    /// The verified series of this generation.
    pub fn verified_series<'b>(&self, values: &'b GovernedSchema6VerifiedSeriesBatch) -> (result: Result<
        &'b [Schema6VerifiedSeries],
        Schema6SeriesReaderError,
    >)
        ensures
            match provenance6_result(self@, values@.generation) {
                Err(error) => result == Err::<
                    &'b [Schema6VerifiedSeries],
                    Schema6SeriesReaderError,
                >(error),
                Ok(_) => result is Ok && series_views(result->Ok_0@) == values@.values,
            },
    {
        self.ensure_provenance(values.generation)?;
        Ok(&values.values)
    }
}

} // verus!
