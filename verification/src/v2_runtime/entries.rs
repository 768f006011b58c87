//! Requested series with their labels, whose identities were verified.

use core::mem::size_of;

use vstd::prelude::*;

use super::chunk_index::{
    directory_of, directory_range_result, ChunkDirectory, ChunkIndexContext,
    GovernedSchema6ChunkIndexRoot, GovernedSchema6ChunkIndexSession,
};
use super::cold::label_ids_result;
use super::metadata::{ranges_result, request_result, valid_entry};
use super::root::{Schema6SeriesRootV2, SeriesTableEntryV2};
use super::scratch::ran_out6;
use super::table::{refs_result, table_request_result, work_holds};
use super::{
    provenance6_result, GovernedSchema6SeriesRoot, GovernedSchema6SeriesSession,
    Schema6SeriesReaderError, SeriesSession6,
};
use crate::budget::{answers, grants};
use crate::capacity::vec_capacity;
use crate::chunk::ChunkIndexRange;
use crate::entry::SeriesEntry;
use crate::error::{input_error, invalid_input, Error, ErrorKind, Message};
use crate::symbols::{
    canonical_bytes, hash_bytes, hashes_all, hashes_to, lemma_canonical_push, lemma_resolve_error,
    push_label, resolve_labels_result, resolved_labels, symbol_generation_result,
    GovernedSymbolSession, Symbols,
};

verus! {

/// An entry with its labels as a sequence.
pub struct EntryLabels {
    pub series_id: u64,
    pub kind_mask: u8,
    pub chunk_index: ChunkIndexRange,
    pub labels: Seq<(u32, u32)>,
}

impl View for SeriesEntry {
    type V = EntryLabels;

    open spec fn view(&self) -> EntryLabels {
        EntryLabels {
            series_id: self.series_id,
            kind_mask: self.kind_mask,
            chunk_index: self.chunk_index,
            labels: self.labels@,
        }
    }
}

pub open spec fn entries_view(values: Seq<(u32, SeriesEntry)>) -> Seq<(u32, EntryLabels)> {
    Seq::new(values.len(), |i: int| (values[i].0, values[i].1@))
}

/// Ordered series with their labels.
#[derive(Debug)]
pub struct GovernedSchema6SeriesEntries {
    generation: u64,
    values: Vec<(u32, SeriesEntry)>,
    charge: u64,
}

/// Series with their labels as a sequence.
pub struct EntryBatch {
    pub generation: u64,
    pub values: Seq<(u32, EntryLabels)>,
    pub charge: u64,
}

impl View for GovernedSchema6SeriesEntries {
    type V = EntryBatch;

    closed spec fn view(&self) -> EntryBatch {
        EntryBatch {
            generation: self.generation,
            values: entries_view(self.values@),
            charge: self.charge,
        }
    }
}

impl GovernedSchema6SeriesEntries {
    /// The logical bytes of the output and its label lists, at their
    /// capacities.
    pub fn charged_bytes(&self) -> (charge: u64)
        ensures
            charge == self@.charge,
    {
        self.charge
    }
}

/// The room that an allocator gave to the label lists of entries is enough for
/// them.
pub open spec fn lists_fit(values: Seq<(u32, EntryLabels)>, capacities: Seq<usize>) -> bool {
    &&& capacities.len() == values.len()
    &&& forall|k: int|
        0 <= k < values.len() ==> (#[trigger] capacities[k]) >= values[k].1.labels.len()
}

/// The bytes of label lists of these capacities.
pub open spec fn list_bytes(capacities: Seq<usize>) -> nat
    decreases capacities.len(),
{
    if capacities.len() == 0 {
        0
    } else {
        list_bytes(capacities.drop_last()) + capacities.last() as nat * vstd::layout::size_of::<
            (u32, u32),
        >()
    }
}

/// The label lists of entries are charged with their capacities.
pub open spec fn labels_charged(values: Seq<(u32, EntryLabels)>, bytes: nat) -> bool {
    exists|capacities: Seq<usize>| #[trigger]
        lists_fit(values, capacities) && bytes == list_bytes(capacities)
}

/// The bytes of entries: their list at its capacity, and their label lists.
pub open spec fn entries_bytes(values: Seq<(u32, EntryLabels)>, bytes: nat) -> bool {
    exists|capacity: usize, labels: nat|
        {
            &&& capacity >= values.len()
            &&& #[trigger] labels_charged(values, labels)
            &&& bytes == labels + #[trigger] entry_list_bytes(capacity)
        }
}

/// The bytes of a list with room for so many entries.
pub open spec fn entry_list_bytes(capacity: usize) -> nat {
    capacity as nat * vstd::layout::size_of::<(u32, SeriesEntry)>()
}

/// The bytes of entries whose label lists take these bytes.
fn charge_entries(values: &Vec<(u32, SeriesEntry)>, label_bytes: u64) -> (result: Result<
    u64,
    Schema6SeriesReaderError,
>)
    requires
        labels_charged(entries_view(values@), label_bytes as nat),
    ensures
        exists|bytes: nat|
            {
                &&& #[trigger] entries_bytes(entries_view(values@), bytes)
                &&& result == (if bytes > u64::MAX {
                    Err(output_overflow6())
                } else {
                    Ok(bytes as u64)
                })
            },
{
    let capacity: usize = vec_capacity(values);
    let output_bytes: u64 = (capacity * size_of::<(u32, SeriesEntry)>()) as u64;
    proof {
        assert(output_bytes == entry_list_bytes(capacity));
        assert(entries_bytes(entries_view(values@), label_bytes as nat + output_bytes as nat));
    }
    match output_bytes.checked_add(label_bytes) {
        Some(charge) => Ok(charge),
        None => Err(
            Schema6SeriesReaderError::Planning(
                invalid_input("schema-6 series output charge overflows"),
            ),
        ),
    }
}

/// The charge is the bytes of the entries.
pub open spec fn entries_charged(values: Seq<(u32, EntryLabels)>, charge: u64) -> bool {
    entries_bytes(values, charge as nat)
}

/// The error of a row that has another identity than its table entry stores.
pub open spec fn identity6_mismatch(expected: u64, actual: u64) -> Error {
    Error {
        kind: ErrorKind::InvalidData,
        message: Message::Mismatch {
            what: "schema-6 series identity mismatch",
            expected,
            actual,
        },
    }
}

/// Checks that a row has the identity that its table entry stores.
pub fn verify_stored_identity(expected_series_id: u64, actual_series_id: u64) -> (result: Result<
    (),
    Schema6SeriesReaderError,
>)
    ensures
        result == (if actual_series_id != expected_series_id {
            Err(
                Schema6SeriesReaderError::Cache(
                    identity6_mismatch(expected_series_id, actual_series_id),
                ),
            )
        } else {
            Ok(())
        }),
{
    if actual_series_id != expected_series_id {
        return Err(
            Schema6SeriesReaderError::Cache(
                Error {
                    kind: ErrorKind::InvalidData,
                    message: Message::Mismatch {
                        what: "schema-6 series identity mismatch",
                        expected: expected_series_id,
                        actual: actual_series_id,
                    },
                },
            ),
        );
    }
    Ok(())
}

/// What verifying the identity of a row of symbols gives.
pub open spec fn identity6_outcome<H: Fn(&[u8]) -> u64>(
    hash: H,
    symbols: Symbols,
    expected_series_id: u64,
    labels: Seq<(u32, u32)>,
    result: Result<(), Schema6SeriesReaderError>,
) -> bool {
    match resolve_labels_result(symbols, labels, labels.len()) {
        Err(error) => result == Err::<(), Schema6SeriesReaderError>(
            Schema6SeriesReaderError::Symbols(error),
        ),
        Ok(_) => exists|actual: u64| #[trigger]
            hashes_to(hash, canonical_bytes(resolved_labels(symbols, labels)), actual) && result
                == (if actual != expected_series_id {
                Err(
                    Schema6SeriesReaderError::Cache(
                        identity6_mismatch(expected_series_id, actual),
                    ),
                )
            } else {
                Ok(())
            }),
    }
}

/// What materializing a valid table entry gives.
pub open spec fn entry_outcome<H: Fn(&[u8]) -> u64>(
    hash: H,
    session: SeriesSession6,
    root: Schema6SeriesRootV2,
    symbols: Symbols,
    entry: SeriesTableEntryV2,
    result: Result<EntryLabels, Schema6SeriesReaderError>,
) -> bool {
    match label_ids_result(session, root, entry.keyset_id, entry.row) {
        Err(error) => result == Err::<EntryLabels, Schema6SeriesReaderError>(error),
        Ok(labels) => exists|verified: Result<(), Schema6SeriesReaderError>| #[trigger]
            identity6_outcome(hash, symbols, entry.series_id, labels, verified) && result
                == match verified {
                Err(error) => Err(error),
                Ok(_) => Ok(
                    EntryLabels {
                        series_id: entry.series_id,
                        kind_mask: entry.kind_mask,
                        chunk_index: entry.chunk_index,
                        labels,
                    },
                ),
            },
    }
}

pub open spec fn entry_view(result: Result<SeriesEntry, Schema6SeriesReaderError>) -> Result<
    EntryLabels,
    Schema6SeriesReaderError,
> {
    match result {
        Ok(entry) => Ok(entry@),
        Err(error) => Err(error),
    }
}

/// A list so far, or the error that stopped it.
pub type Progress = Result<Seq<(u32, EntryLabels)>, Schema6SeriesReaderError>;

/// What the next requested series makes of the progress so far.
pub open spec fn step_outcome<H: Fn(&[u8]) -> u64>(
    hash: H,
    session: SeriesSession6,
    root: Schema6SeriesRootV2,
    directory: ChunkDirectory,
    symbols: Symbols,
    series_ref: u32,
    before: Progress,
    after: Progress,
) -> bool {
    match before {
        Err(error) => after == before,
        Ok(list) => next_outcome(
            hash,
            session,
            root,
            directory,
            symbols,
            series_ref,
            list,
            after,
        ),
    }
}

/// The progress before and after every requested series.
pub open spec fn is_history<H: Fn(&[u8]) -> u64>(
    hash: H,
    session: SeriesSession6,
    root: Schema6SeriesRootV2,
    directory: ChunkDirectory,
    symbols: Symbols,
    refs: Seq<u32>,
    history: Seq<Progress>,
) -> bool {
    &&& history.len() > 0
    &&& history[0] == Ok::<Seq<(u32, EntryLabels)>, Schema6SeriesReaderError>(Seq::empty())
    &&& forall|k: int|
        0 <= k < history.len() - 1 ==> step_outcome(
            hash,
            session,
            root,
            directory,
            symbols,
            #[trigger] refs[k],
            history[k],
            history[k + 1],
        )
}

/// What materializing the first `n` requested series gives: each is checked
/// against the chunk index and verified before the next.
#[verifier::opaque]
pub open spec fn entries_outcome<H: Fn(&[u8]) -> u64>(
    hash: H,
    session: SeriesSession6,
    root: Schema6SeriesRootV2,
    directory: ChunkDirectory,
    symbols: Symbols,
    refs: Seq<u32>,
    n: nat,
    result: Progress,
) -> bool {
    exists|history: Seq<Progress>|
        {
            &&& #[trigger] is_history(hash, session, root, directory, symbols, refs, history)
            &&& history.len() == n + 1
            &&& history[n as int] == result
        }
}

/// The capacities of what was materialized add up to more than can be charged:
/// the label lists of the series so far, or all of the output.
pub open spec fn entries_overflow<H: Fn(&[u8]) -> u64>(
    hash: H,
    session: SeriesSession6,
    root: Schema6SeriesRootV2,
    directory: ChunkDirectory,
    symbols: Symbols,
    refs: Seq<u32>,
    error: Schema6SeriesReaderError,
) -> bool {
    ||| {
        &&& error == label_overflow6()
        &&& exists|n: nat, list: Seq<(u32, EntryLabels)>, bytes: nat|
            {
                &&& n <= refs.len()
                &&& #[trigger] entries_outcome(
                    hash,
                    session,
                    root,
                    directory,
                    symbols,
                    refs,
                    n,
                    Ok(list),
                )
                &&& #[trigger] labels_charged(list, bytes)
                &&& bytes > u64::MAX
            }
    }
    ||| {
        &&& error == output_overflow6()
        &&& exists|list: Seq<(u32, EntryLabels)>, bytes: nat|
            {
                &&& entries_outcome(
                    hash,
                    session,
                    root,
                    directory,
                    symbols,
                    refs,
                    refs.len(),
                    Ok(list),
                )
                &&& #[trigger] entries_bytes(list, bytes)
                &&& bytes > u64::MAX
            }
    }
}

/// The error of label lists that add up to more bytes than can be charged.
pub open spec fn label_overflow6() -> Schema6SeriesReaderError {
    Schema6SeriesReaderError::Planning(input_error("schema-6 materialized-label charge overflows"))
}

/// The error of an output that adds up to more bytes than can be charged.
pub open spec fn output_overflow6() -> Schema6SeriesReaderError {
    Schema6SeriesReaderError::Planning(input_error("schema-6 series output charge overflows"))
}

/// What materializing requested series gives, whatever capacities they are given.
pub open spec fn read_outcome<H: Fn(&[u8]) -> u64>(
    hash: H,
    session: SeriesSession6,
    root: Schema6SeriesRootV2,
    directory: ChunkDirectory,
    symbols: Symbols,
    refs: Seq<u32>,
    result: Progress,
) -> bool {
    ||| entries_outcome(hash, session, root, directory, symbols, refs, refs.len(), result)
    ||| result is Err && entries_overflow(
        hash,
        session,
        root,
        directory,
        symbols,
        refs,
        result->Err_0,
    )
}

/// What the next requested series adds to a list.
#[verifier::opaque]
pub open spec fn next_outcome<H: Fn(&[u8]) -> u64>(
    hash: H,
    session: SeriesSession6,
    root: Schema6SeriesRootV2,
    directory: ChunkDirectory,
    symbols: Symbols,
    series_ref: u32,
    list: Seq<(u32, EntryLabels)>,
    result: Result<Seq<(u32, EntryLabels)>, Schema6SeriesReaderError>,
) -> bool {
    let entry = valid_entry(session, root, series_ref);
    match directory_range_result(directory, series_ref, entry.chunk_index) {
        Err(error) => result == Err::<Seq<(u32, EntryLabels)>, Schema6SeriesReaderError>(
            Schema6SeriesReaderError::ChunkIndex(error),
        ),
        Ok(_) => exists|one: Result<EntryLabels, Schema6SeriesReaderError>| #[trigger]
            entry_outcome(hash, session, root, symbols, entry, one) && result == extended(
                list,
                series_ref,
                one,
            ),
    }
}

/// A list with one more series, or the error that stopped it.
pub open spec fn extended(
    list: Seq<(u32, EntryLabels)>,
    series_ref: u32,
    one: Result<EntryLabels, Schema6SeriesReaderError>,
) -> Progress {
    match one {
        Err(error) => Err(error),
        Ok(labels) => Ok(list.push((series_ref, labels))),
    }
}

/// Everything that a materialization needs belongs to one generation, every
/// series exists and every table entry is valid, or the first reason why not.
pub open spec fn materialize_request_result(
    session: SeriesSession6,
    root: GovernedSchema6SeriesRoot,
    directory: ChunkDirectory,
    symbols: Symbols,
    refs: Seq<u32>,
    output_size: nat,
) -> Result<(), Schema6SeriesReaderError> {
    if request_result(session, root, directory) is Err {
        request_result(session, root, directory)
    } else if symbol_generation_result(symbols, session.generation) is Err {
        Err(
            Schema6SeriesReaderError::Symbols(
                symbol_generation_result(symbols, session.generation)->Err_0,
            ),
        )
    } else if refs_result(root.value.header.num_series, refs, refs.len()) is Err {
        refs_result(root.value.header.num_series, refs, refs.len())
    } else {
        table_request_result(session, root.value, refs, output_size)
    }
}

proof fn lemma_entries_step<H: Fn(&[u8]) -> u64>(
    hash: H,
    session: SeriesSession6,
    root: Schema6SeriesRootV2,
    directory: ChunkDirectory,
    symbols: Symbols,
    refs: Seq<u32>,
    n: nat,
    before: Progress,
    after: Progress,
)
    requires
        entries_outcome(hash, session, root, directory, symbols, refs, n, before),
        step_outcome(hash, session, root, directory, symbols, refs[n as int], before, after),
    ensures
        entries_outcome(hash, session, root, directory, symbols, refs, n + 1, after),
{
    reveal(entries_outcome);
    let history = choose|history: Seq<Progress>|
        {
            &&& #[trigger] is_history(hash, session, root, directory, symbols, refs, history)
            &&& history.len() == n + 1
            &&& history[n as int] == before
        };
    let longer = history.push(after);
    assert forall|k: int| 0 <= k < longer.len() - 1 implies step_outcome(
        hash,
        session,
        root,
        directory,
        symbols,
        #[trigger] refs[k],
        longer[k],
        longer[k + 1],
    ) by {
        if k < n {
            assert(longer[k] == history[k]);
            assert(longer[k + 1] == history[k + 1]);
        }
    }
    assert(is_history(hash, session, root, directory, symbols, refs, longer));
}

proof fn lemma_entries_error<H: Fn(&[u8]) -> u64>(
    hash: H,
    session: SeriesSession6,
    root: Schema6SeriesRootV2,
    directory: ChunkDirectory,
    symbols: Symbols,
    refs: Seq<u32>,
    n: nat,
    m: nat,
    error: Schema6SeriesReaderError,
)
    requires
        n <= m,
        entries_outcome(hash, session, root, directory, symbols, refs, n, Err(error)),
    ensures
        entries_outcome(hash, session, root, directory, symbols, refs, m, Err(error)),
    decreases m,
{
    if n < m {
        lemma_entries_error(
            hash,
            session,
            root,
            directory,
            symbols,
            refs,
            n,
            (m - 1) as nat,
            error,
        );
        lemma_entries_step(
            hash,
            session,
            root,
            directory,
            symbols,
            refs,
            (m - 1) as nat,
            Err(error),
            Err(error),
        );
    }
}

/// Before the first series nothing is listed.
proof fn lemma_entries_start<H: Fn(&[u8]) -> u64>(
    hash: H,
    session: SeriesSession6,
    root: Schema6SeriesRootV2,
    directory: ChunkDirectory,
    symbols: Symbols,
    refs: Seq<u32>,
)
    ensures
        entries_outcome(hash, session, root, directory, symbols, refs, 0, Ok(Seq::empty())),
{
    reveal(entries_outcome);
    let start: Progress = Ok(Seq::empty());
    assert(is_history(hash, session, root, directory, symbols, refs, seq![start]));
}

impl<'a> GovernedSchema6SeriesSession<'a> {
    /// Verifies that the symbols of a row reproduce a stored identity.
    pub fn verify_series_identity<H: Fn(&[u8]) -> u64>(
        &self,
        symbols: &GovernedSymbolSession,
        hash: &H,
        expected_series_id: u64,
        labels: &[(u32, u32)],
    ) -> (result: Result<(), Schema6SeriesReaderError>)
        requires
            hashes_all(*hash),
        ensures
            identity6_outcome(*hash, symbols@, expected_series_id, labels@, result),
    {
        let ghost named = resolved_labels(symbols@, labels@);
        let mut bytes: Vec<u8> = Vec::new();
        let mut i: usize = 0;
        assert(named.take(0) =~= Seq::empty());
        while i < labels.len()
            invariant
                i <= labels@.len(),
                named == resolved_labels(symbols@, labels@),
                resolve_labels_result(symbols@, labels@, i as nat) is Ok,
                bytes@ == canonical_bytes(named.take(i as int)),
            decreases labels@.len() - i,
        {
            let (key_sym, value_sym) = labels[i];
            proof {
                if resolve_labels_result(symbols@, labels@, (i + 1) as nat) is Err {
                    lemma_resolve_error(symbols@, labels@, (i + 1) as nat, labels@.len());
                }
                assert(named.take(i + 1) =~= named.take(i as int).push(named[i as int]));
                lemma_canonical_push(named.take(i as int), named[i as int]);
            }
            let key = match symbols.resolve(key_sym) {
                Ok(key) => key,
                Err(error) => {
                    return Err(Schema6SeriesReaderError::Symbols(error));
                },
            };
            let value = match symbols.resolve(value_sym) {
                Ok(value) => value,
                Err(error) => {
                    return Err(Schema6SeriesReaderError::Symbols(error));
                },
            };
            push_label(&mut bytes, key, value);
            i += 1;
        }
        assert(named.take(i as int) =~= named);
        let actual_series_id: u64 = hash_bytes(hash, &bytes);
        assert(hashes_to(*hash, canonical_bytes(named), actual_series_id));
        verify_stored_identity(expected_series_id, actual_series_id)
    }

    /// Materializes a valid table entry.
    pub fn materialize_entry<H: Fn(&[u8]) -> u64, R: Fn(u64) -> bool>(
        &self,
        root: &GovernedSchema6SeriesRoot,
        symbols: &GovernedSymbolSession,
        hash: &H,
        table_entry: SeriesTableEntryV2,
        reserve: &R,
    ) -> (result: Result<SeriesEntry, Schema6SeriesReaderError>)
        requires
            hashes_all(*hash),
            answers(*reserve),
        ensures
            ran_out6(*reserve, result) || entry_outcome(
                *hash,
                self@,
                root.value,
                symbols@,
                table_entry,
                entry_view(result),
            ),
    {
        let labels = self.decode_label_ids(root, table_entry, reserve)?;
        let verified = self.verify_series_identity(
            symbols,
            hash,
            table_entry.series_id,
            &labels,
        );
        assert(identity6_outcome(
            *hash,
            symbols@,
            table_entry.series_id,
            labels@,
            verified,
        ));
        verified?;
        Ok(
            SeriesEntry {
                series_id: table_entry.series_id,
                kind_mask: table_entry.kind_mask,
                chunk_index: table_entry.chunk_index,
                labels,
            },
        )
    }

    /// Checks a materialization request and reads its table spans.
    pub(super) fn request_materialization<T>(
        &self,
        root: &GovernedSchema6SeriesRoot,
        chunk_index: ChunkIndexContext<'_>,
        symbols: &GovernedSymbolSession,
        series_refs: &[u32],
        reserve: &impl Fn(u64) -> bool,
    ) -> (result: Result<super::table::TableWork, Schema6SeriesReaderError>)
        requires
            root.of(self@),
            answers(*reserve),
        ensures
            ran_out6(*reserve, result) || match materialize_request_result(
                self@,
                *root,
                chunk_index@,
                symbols@,
                series_refs@,
                vstd::layout::size_of::<T>(),
            ) {
                Err(error) => result == Err::<super::table::TableWork, Schema6SeriesReaderError>(
                    error,
                ),
                Ok(_) => result is Ok && work_holds(
                    self@,
                    root.value,
                    series_refs@,
                    result->Ok_0,
                ),
            },
    {
        self.bind_request(root, chunk_index)?;
        match symbols.ensure_same_generation(self.artifacts.generation) {
            Ok(_) => {},
            Err(error) => {
                return Err(Schema6SeriesReaderError::Symbols(error));
            },
        }
        self.validate_series_refs(root, series_refs)?;
        self.request_table::<T>(root, series_refs, reserve)
    }

    /// Materializes the next requested series.
    fn next_entry<H: Fn(&[u8]) -> u64, R: Fn(u64) -> bool>(
        &self,
        root: &GovernedSchema6SeriesRoot,
        chunk_index: ChunkIndexContext<'_>,
        symbols: &GovernedSymbolSession,
        hash: &H,
        work: &super::table::TableWork,
        series_refs: &[u32],
        i: usize,
        reserve: &R,
    ) -> (result: Result<SeriesEntry, Schema6SeriesReaderError>)
        requires
            hashes_all(*hash),
            answers(*reserve),
            work_holds(self@, root.value, series_refs@, *work),
            i < series_refs@.len(),
            ranges_result(self@, root.value, chunk_index@, series_refs@, i as nat) is Ok,
        ensures
            result is Ok ==> ranges_result(
                self@,
                root.value,
                chunk_index@,
                series_refs@,
                (i + 1) as nat,
            ) is Ok,
            ran_out6(*reserve, result) || forall|list: Seq<(u32, EntryLabels)>|
                next_outcome(
                    *hash,
                    self@,
                    root.value,
                    chunk_index@,
                    symbols@,
                    series_refs@[i as int],
                    list,
                    #[trigger] extended(list, series_refs@[i as int], entry_view(result)),
                ),
    {
        proof {
            reveal(next_outcome);
        }
        let table_entry = self.routed_entry(root, chunk_index, work, series_refs, i)?;
        let materialized = self.materialize_entry(root, symbols, hash, table_entry, reserve);
        assert(ran_out6(*reserve, materialized) || entry_outcome(
            *hash,
            self@,
            root.value,
            symbols@,
            table_entry,
            entry_view(materialized),
        ));
        materialized
    }

    /// Materializes requested series one after the other, and counts the bytes
    /// of their label lists.
    fn collect_entries<H: Fn(&[u8]) -> u64, R: Fn(u64) -> bool>(
        &self,
        root: &GovernedSchema6SeriesRoot,
        chunk_index: ChunkIndexContext<'_>,
        symbols: &GovernedSymbolSession,
        hash: &H,
        work: &super::table::TableWork,
        series_refs: &[u32],
        reserve: &R,
    ) -> (result: Result<(Vec<(u32, SeriesEntry)>, u64), Schema6SeriesReaderError>)
        requires
            hashes_all(*hash),
            answers(*reserve),
            work_holds(self@, root.value, series_refs@, *work),
        ensures
            ran_out6(*reserve, result) || read_outcome(
                *hash,
                self@,
                root.value,
                chunk_index@,
                symbols@,
                series_refs@,
                match result {
                    Ok((values, _)) => Ok(entries_view(values@)),
                    Err(error) => Err(error),
                },
            ),
            result matches Ok((values, bytes)) ==> {
                &&& labels_charged(entries_view(values@), bytes as nat)
                &&& entries_outcome(
                    *hash,
                    self@,
                    root.value,
                    chunk_index@,
                    symbols@,
                    series_refs@,
                    series_refs@.len(),
                    Ok(entries_view(values@)),
                )
            },
    {
        let mut values: Vec<(u32, SeriesEntry)> = Vec::with_capacity(series_refs.len());
        let mut label_bytes: u64 = 0;
        let ghost mut capacities: Seq<usize> = Seq::empty();
        let ghost count = series_refs@.len();
        let mut i: usize = 0;
        proof {
            assert(entries_view(values@) =~= Seq::empty());
            assert(lists_fit(entries_view(values@), capacities));
            lemma_entries_start(
                *hash,
                self@,
                root.value,
                chunk_index@,
                symbols@,
                series_refs@,
            );
        }
        while i < series_refs.len()
            invariant
                i <= count,
                count == series_refs@.len(),
                hashes_all(*hash),
                answers(*reserve),
                lists_fit(entries_view(values@), capacities),
                label_bytes == list_bytes(capacities),
                work_holds(self@, root.value, series_refs@, *work),
                ranges_result(self@, root.value, chunk_index@, series_refs@, i as nat) is Ok,
                entries_outcome(
                    *hash,
                    self@,
                    root.value,
                    chunk_index@,
                    symbols@,
                    series_refs@,
                    i as nat,
                    Ok(entries_view(values@)),
                ),
            decreases count - i,
        {
            let ghost before = entries_view(values@);
            let ghost next = (i + 1) as nat;
            let materialized = self.next_entry(
                root,
                chunk_index,
                symbols,
                hash,
                work,
                series_refs,
                i,
                reserve,
            );
            let ghost out = ran_out6(*reserve, materialized);
            proof {
                if !out {
                    lemma_entries_step(
                        *hash,
                        self@,
                        root.value,
                        chunk_index@,
                        symbols@,
                        series_refs@,
                        i as nat,
                        Ok(before),
                        extended(before, series_refs@[i as int], entry_view(materialized)),
                    );
                }
            }
            let entry = match materialized {
                Ok(entry) => entry,
                Err(error) => {
                    proof {
                        if !out {
                            lemma_entries_error(
                                *hash,
                                self@,
                                root.value,
                                chunk_index@,
                                symbols@,
                                series_refs@,
                                next,
                                count,
                                error,
                            );
                        }
                    }
                    return Err(error);
                },
            };
            let label_capacity: usize = vec_capacity(&entry.labels);
            let label_total = label_bytes.checked_add(
                (label_capacity * size_of::<(u32, u32)>()) as u64,
            );
            let series_ref: u32 = series_refs[i];
            let ghost entry_labels = entry@;
            let ghost after = before.push((series_ref, entry_labels));
            values.push((series_ref, entry));
            assert(entries_view(values@) =~= after);
            proof {
                assert(capacities.push(label_capacity).drop_last() =~= capacities);
                capacities = capacities.push(label_capacity);
                assert(lists_fit(after, capacities));
            }
            label_bytes = match label_total {
                Some(total) => total,
                None => {
                    assert(labels_charged(after, list_bytes(capacities)));
                    return Err(
                        Schema6SeriesReaderError::Planning(
                            invalid_input("schema-6 materialized-label charge overflows"),
                        ),
                    );
                },
            };
            i += 1;
        }
        Ok((values, label_bytes))
    }

    /// Materializes requested series in the order of the request.
    pub fn read_entries<H: Fn(&[u8]) -> u64>(
        &self,
        root: &GovernedSchema6SeriesRoot,
        chunk_index: &GovernedSchema6ChunkIndexSession,
        chunk_index_root: &GovernedSchema6ChunkIndexRoot,
        symbols: &GovernedSymbolSession,
        hash: &H,
        series_refs: &[u32],
    ) -> (result: Result<GovernedSchema6SeriesEntries, Schema6SeriesReaderError>)
        requires
            root.of(self@),
            hashes_all(*hash),
        ensures
            match materialize_request_result(
                self@,
                *root,
                directory_of(chunk_index@, *chunk_index_root),
                symbols@,
                series_refs@,
                vstd::layout::size_of::<(u32, SeriesEntry)>(),
            ) {
                Err(error) => result == Err::<
                    GovernedSchema6SeriesEntries,
                    Schema6SeriesReaderError,
                >(error),
                Ok(_) => read_outcome(
                    *hash,
                    self@,
                    root.value,
                    directory_of(chunk_index@, *chunk_index_root),
                    symbols@,
                    series_refs@,
                    match result {
                        Ok(entries) => Ok(entries@.values),
                        Err(error) => Err(error),
                    },
                ),
            },
            result matches Ok(entries) ==> entries@.generation == self@.generation
                && entries_charged(entries@.values, entries@.charge),
    {
        self.read_entries_within(
            root,
            ChunkIndexContext::new(chunk_index, chunk_index_root),
            symbols,
            hash,
            series_refs,
            &grants,
        )
    }

    /// Materializes requested series with memory that is asked for.
    pub(super) fn read_entries_within<H: Fn(&[u8]) -> u64, R: Fn(u64) -> bool>(
        &self,
        root: &GovernedSchema6SeriesRoot,
        chunk_index: ChunkIndexContext<'_>,
        symbols: &GovernedSymbolSession,
        hash: &H,
        series_refs: &[u32],
        reserve: &R,
    ) -> (result: Result<GovernedSchema6SeriesEntries, Schema6SeriesReaderError>)
        requires
            root.of(self@),
            hashes_all(*hash),
            answers(*reserve),
        ensures
            ran_out6(*reserve, result) || match materialize_request_result(
                self@,
                *root,
                chunk_index@,
                symbols@,
                series_refs@,
                vstd::layout::size_of::<(u32, SeriesEntry)>(),
            ) {
                Err(error) => result == Err::<
                    GovernedSchema6SeriesEntries,
                    Schema6SeriesReaderError,
                >(error),
                Ok(_) => read_outcome(
                    *hash,
                    self@,
                    root.value,
                    chunk_index@,
                    symbols@,
                    series_refs@,
                    match result {
                        Ok(entries) => Ok(entries@.values),
                        Err(error) => Err(error),
                    },
                ),
            },
            result matches Ok(entries) ==> entries@.generation == self@.generation
                && entries_charged(entries@.values, entries@.charge),
    {
        let work = self.request_materialization::<(u32, SeriesEntry)>(
            root,
            chunk_index,
            symbols,
            series_refs,
            reserve,
        )?;
        let (values, label_bytes) = self.collect_entries(
            root,
            chunk_index,
            symbols,
            hash,
            &work,
            series_refs,
            reserve,
        )?;
        let charge: u64 = charge_entries(&values, label_bytes)?;
        Ok(
            GovernedSchema6SeriesEntries {
                generation: self.artifacts.generation,
                values,
                charge,
            },
        )
    }

    /// The entries of this generation.
    pub fn entries<'b>(&self, values: &'b GovernedSchema6SeriesEntries) -> (result: Result<
        &'b [(u32, SeriesEntry)],
        Schema6SeriesReaderError,
    >)
        ensures
            match provenance6_result(self@, values@.generation) {
                Err(error) => result == Err::<
                    &'b [(u32, SeriesEntry)],
                    Schema6SeriesReaderError,
                >(error),
                Ok(_) => result is Ok && entries_view(result->Ok_0@) == values@.values,
            },
    {
        self.ensure_provenance(values.generation)?;
        Ok(&values.values)
    }
}

} // verus!
