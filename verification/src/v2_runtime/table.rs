//! Reading the series table in coalesced spans.

use core::mem::size_of;

use vstd::prelude::*;

use super::root::{
    decode_series_table_entry, table_entry_result, valid_entry_result,
    validate_series_table_entry, Schema6SeriesRootV2, SeriesHeader, SeriesTableEntryV2,
    SERIES_TABLE_ENTRY_LEN,
};
use super::scratch::{ran_out6, reserve6};
use super::{
    load_root6_result, recorded6, GovernedSchema6SeriesRoot, GovernedSchema6SeriesSession,
    Schema6SeriesReaderError, SeriesSession6,
};
use crate::budget::answers;
use crate::capacity::vec_capacity;
use crate::cold_v2::reader::strictly_increasing;
use crate::cold_v2::shapes::{find_value, Slot};
use crate::error::{
    data_error, eof_error, input_error, invalid_data, invalid_input, unexpected_eof, Error,
};

verus! {

/// The bytes of a list of this many elements of a size.
pub open spec fn list_bytes_result(size: nat, capacity: nat, message: &'static str) -> Result<
    u64,
    Error,
> {
    if capacity * size > usize::MAX {
        Err(input_error(message))
    } else {
        Ok((capacity * size) as u64)
    }
}

pub fn checked_vec_bytes<T>(capacity: usize, message: &'static str) -> (result: Result<u64, Error>)
    ensures
        result == list_bytes_result(vstd::layout::size_of::<T>(), capacity as nat, message),
{
    match capacity.checked_mul(size_of::<T>()) {
        Some(bytes) => Ok(bytes as u64),
        None => Err(invalid_input(message)),
    }
}

pub fn checked_len_mul(value: usize, multiplier: usize, message: &'static str) -> (result: Result<
    u64,
    Error,
>)
    ensures
        result == list_bytes_result(multiplier as nat, value as nat, message),
{
    match value.checked_mul(multiplier) {
        Some(bytes) => Ok(bytes as u64),
        None => Err(invalid_input(message)),
    }
}

/// The bytes of a value and its list.
pub open spec fn owned_bytes_result(fixed: nat, size: nat, capacity: nat) -> Result<u64, Error> {
    match list_bytes_result(size, capacity, "schema-6 cached allocation charge overflows") {
        Err(error) => Err(error),
        Ok(bytes) => if fixed + bytes > u64::MAX {
            Err(data_error("schema-6 cached allocation charge overflows"))
        } else {
            Ok((fixed + bytes) as u64)
        },
    }
}

pub fn checked_struct_and_vec_bytes<S, T>(capacity: usize) -> (result: Result<u64, Error>)
    ensures
        result == owned_bytes_result(
            vstd::layout::size_of::<S>(),
            vstd::layout::size_of::<T>(),
            capacity as nat,
        ),
{
    let bytes: u64 = checked_vec_bytes::<T>(
        capacity,
        "schema-6 cached allocation charge overflows",
    )?;
    match (size_of::<S>() as u64).checked_add(bytes) {
        Some(bytes) => Ok(bytes),
        None => Err(invalid_data("schema-6 cached allocation charge overflows")),
    }
}

/// Consecutive entries of the series table.
#[derive(Debug)]
pub struct ValidatedSeriesTableSpan {
    pub first_ref: u32,
    pub entries: Vec<SeriesTableEntryV2>,
}

/// Where a span of the table stands.
#[derive(Debug, Clone, Copy, PartialEq, Eq, Structural)]
pub struct TableSpanPlan {
    pub first_ref: u32,
    pub entry_count: usize,
    pub offset: u64,
    pub length: u64,
}

/// A span that was read.
#[derive(Debug)]
pub struct LoadedTableSpan {
    pub first_ref: u32,
    pub entry_count: usize,
    pub value: ValidatedSeriesTableSpan,
}

/// The spans that cover the requested series.
#[derive(Debug)]
pub struct TableWork {
    pub valid_refs: Vec<u32>,
    pub plans: Vec<TableSpanPlan>,
    pub loaded: Vec<LoadedTableSpan>,
}

impl ValidatedSeriesTableSpan {
    /// The logical bytes of the span, at the capacity of its list.
    pub fn charged_bytes(&self) -> (result: Result<u64, Error>)
        ensures
            exists|capacity: usize|
                capacity >= self.entries@.len() && result == #[trigger] owned_bytes_result(
                    vstd::layout::size_of::<ValidatedSeriesTableSpan>(),
                    vstd::layout::size_of::<SeriesTableEntryV2>(),
                    capacity as nat,
                ),
    {
        checked_struct_and_vec_bytes::<Self, SeriesTableEntryV2>(vec_capacity(&self.entries))
    }

    /// The entry of a series.
    pub fn entry(&self, series_ref: u32) -> (entry: Option<SeriesTableEntryV2>)
        ensures
            entry == (if self.first_ref <= series_ref < self.first_ref + self.entries@.len() {
                Some(self.entries@[series_ref - self.first_ref])
            } else {
                None
            }),
    {
        if series_ref < self.first_ref {
            return None;
        }
        let index: usize = (series_ref - self.first_ref) as usize;
        if index < self.entries.len() {
            Some(self.entries[index])
        } else {
            None
        }
    }
}

/// The bytes of the three lists of a table work.
pub open spec fn work_bytes_result(refs: nat, plans: nat, spans: nat) -> Result<u64, Error> {
    match (
        list_bytes_result(
            vstd::layout::size_of::<u32>(),
            refs,
            "schema-6 valid-ref charge overflows",
        ),
        list_bytes_result(
            vstd::layout::size_of::<TableSpanPlan>(),
            plans,
            "schema-6 table-plan charge overflows",
        ),
        list_bytes_result(
            vstd::layout::size_of::<LoadedTableSpan>(),
            spans,
            "schema-6 table-pin charge overflows",
        ),
    ) {
        (Err(error), _, _) => Err(error),
        (_, Err(error), _) => Err(error),
        (Ok(a), Ok(b), c) => if c is Err || a + b + c->Ok_0 > u64::MAX {
            Err(input_error("schema-6 table working-set charge overflows"))
        } else {
            Ok((a + b + c->Ok_0) as u64)
        },
    }
}

fn work_bytes(refs: usize, plans: usize, spans: usize) -> (result: Result<u64, Error>)
    ensures
        result == work_bytes_result(refs as nat, plans as nat, spans as nat),
{
    let ref_bytes: u64 = checked_vec_bytes::<u32>(refs, "schema-6 valid-ref charge overflows")?;
    let plan_bytes: u64 = checked_vec_bytes::<TableSpanPlan>(
        plans,
        "schema-6 table-plan charge overflows",
    )?;
    let span_bytes: u64 = match checked_vec_bytes::<LoadedTableSpan>(
        spans,
        "schema-6 table-pin charge overflows",
    ) {
        Ok(bytes) => bytes,
        Err(_) => {
            return Err(invalid_input("schema-6 table working-set charge overflows"));
        },
    };
    match ref_bytes.checked_add(plan_bytes) {
        Some(bytes) => match bytes.checked_add(span_bytes) {
            Some(bytes) => Ok(bytes),
            None => Err(invalid_input("schema-6 table working-set charge overflows")),
        },
        None => Err(invalid_input("schema-6 table working-set charge overflows")),
    }
}

/// The bytes that a request for this many series declares.
pub open spec fn work_upper_result(output: nat, count: nat) -> Result<u64, Error> {
    match work_bytes_result(count, count, count) {
        Err(error) => Err(error),
        Ok(work) => {
            let bytes = list_bytes_result(output, count, "schema-6 output charge overflows");
            if bytes is Err || work + bytes->Ok_0 > u64::MAX {
                Err(input_error("schema-6 table working-set charge overflows"))
            } else {
                Ok((work + bytes->Ok_0) as u64)
            }
        },
    }
}

pub fn checked_table_work_upper<T>(valid_count: usize) -> (result: Result<u64, Error>)
    ensures
        result == work_upper_result(vstd::layout::size_of::<T>(), valid_count as nat),
{
    let work: u64 = work_bytes(valid_count, valid_count, valid_count)?;
    let output: u64 = match checked_vec_bytes::<T>(
        valid_count,
        "schema-6 output charge overflows",
    ) {
        Ok(bytes) => bytes,
        Err(_) => {
            return Err(invalid_input("schema-6 table working-set charge overflows"));
        },
    };
    match work.checked_add(output) {
        Some(bytes) => Ok(bytes),
        None => Err(invalid_input("schema-6 table working-set charge overflows")),
    }
}

/// The first `n` entries of a span, or the first error.
pub open spec fn span_prefix_result(
    bytes: Seq<u8>,
    header: SeriesHeader,
    chunk_index_data_start: u64,
    chunk_index_file_len: u64,
    n: nat,
) -> Result<Seq<SeriesTableEntryV2>, Error>
    decreases n,
{
    if n == 0 {
        Ok(Seq::empty())
    } else {
        match span_prefix_result(
            bytes,
            header,
            chunk_index_data_start,
            chunk_index_file_len,
            (n - 1) as nat,
        ) {
            Err(error) => Err(error),
            Ok(entries) => match checked_entry_result(
                bytes.subrange(40 * (n - 1), 40 * (n - 1) + 40),
                header,
                chunk_index_data_start,
                chunk_index_file_len,
            ) {
                Err(error) => Err(error),
                Ok(entry) => Ok(entries.push(entry)),
            },
        }
    }
}

/// A decoded and validated table entry.
pub open spec fn checked_entry_result(
    bytes: Seq<u8>,
    header: SeriesHeader,
    chunk_index_data_start: u64,
    chunk_index_file_len: u64,
) -> Result<SeriesTableEntryV2, Error> {
    match table_entry_result(bytes) {
        Err(error) => Err(error),
        Ok(entry) => match valid_entry_result(
            entry,
            header,
            chunk_index_data_start,
            chunk_index_file_len,
        ) {
            Err(error) => Err(error),
            Ok(_) => Ok(entry),
        },
    }
}

/// The entries of a span.
pub open spec fn span_result(
    bytes: Seq<u8>,
    first_ref: u32,
    entry_count: nat,
    header: SeriesHeader,
    chunk_index_data_start: u64,
    chunk_index_file_len: u64,
) -> Result<Seq<SeriesTableEntryV2>, Error> {
    if entry_count * 40 > usize::MAX {
        Err(data_error("schema-6 series table span length overflows"))
    } else if bytes.len() < entry_count * 40 {
        Err(eof_error("schema-6 series table span is truncated"))
    } else if bytes.len() > entry_count * 40 {
        Err(data_error("schema-6 series table span has trailing bytes"))
    } else if first_ref + entry_count > u64::MAX {
        Err(data_error("schema-6 series table ref range overflows"))
    } else if first_ref + entry_count > header.num_series {
        Err(data_error("schema-6 series table span exceeds the declared series count"))
    } else {
        span_prefix_result(
            bytes,
            header,
            chunk_index_data_start,
            chunk_index_file_len,
            entry_count,
        )
    }
}

proof fn lemma_span_prefix_error(
    bytes: Seq<u8>,
    header: SeriesHeader,
    data_start: u64,
    file_len: u64,
    n: nat,
    m: nat,
)
    requires
        n <= m,
        span_prefix_result(bytes, header, data_start, file_len, n) is Err,
    ensures
        span_prefix_result(bytes, header, data_start, file_len, m) == span_prefix_result(
            bytes,
            header,
            data_start,
            file_len,
            n,
        ),
    decreases m,
{
    if n < m {
        lemma_span_prefix_error(bytes, header, data_start, file_len, n, (m - 1) as nat);
    }
}

/// Decodes and validates the entries of an exact span.
pub fn decode_series_table_span(
    bytes: &[u8],
    first_ref: u32,
    entry_count: usize,
    header: SeriesHeader,
    chunk_index_data_start: u64,
    chunk_index_file_len: u64,
) -> (result: Result<ValidatedSeriesTableSpan, Error>)
    ensures
        match span_result(
            bytes@,
            first_ref,
            entry_count as nat,
            header,
            chunk_index_data_start,
            chunk_index_file_len,
        ) {
            Err(error) => result == Err::<ValidatedSeriesTableSpan, Error>(error),
            Ok(entries) => result is Ok && result->Ok_0.first_ref == first_ref
                && result->Ok_0.entries@ == entries,
        },
{
    assert(bytes@.len() == bytes.len());
    let expected_len: usize = match entry_count.checked_mul(SERIES_TABLE_ENTRY_LEN as usize) {
        Some(len) => len,
        None => {
            return Err(invalid_data("schema-6 series table span length overflows"));
        },
    };
    if bytes.len() < expected_len {
        return Err(unexpected_eof("schema-6 series table span is truncated"));
    }
    if bytes.len() > expected_len {
        return Err(invalid_data("schema-6 series table span has trailing bytes"));
    }
    let end_ref: u64 = match (first_ref as u64).checked_add(entry_count as u64) {
        Some(end) => end,
        None => {
            return Err(invalid_data("schema-6 series table ref range overflows"));
        },
    };
    if end_ref > header.num_series as u64 {
        return Err(
            invalid_data("schema-6 series table span exceeds the declared series count"),
        );
    }
    let mut entries: Vec<SeriesTableEntryV2> = Vec::with_capacity(entry_count);
    let mut k: usize = 0;
    assert(entries@ =~= Seq::empty());
    while k < entry_count
        invariant
            k <= entry_count,
            bytes@.len() == entry_count * 40 <= usize::MAX,
            first_ref + entry_count <= header.num_series,
            span_prefix_result(
                bytes@,
                header,
                chunk_index_data_start,
                chunk_index_file_len,
                k as nat,
            ) == Ok::<Seq<SeriesTableEntryV2>, Error>(entries@),
        decreases entry_count - k,
    {
        let start: usize = k * 40;
        let slot = &bytes[start..start + 40];
        proof {
            if span_prefix_result(
                bytes@,
                header,
                chunk_index_data_start,
                chunk_index_file_len,
                (k + 1) as nat,
            ) is Err {
                lemma_span_prefix_error(
                    bytes@,
                    header,
                    chunk_index_data_start,
                    chunk_index_file_len,
                    (k + 1) as nat,
                    entry_count as nat,
                );
            }
        }
        let entry = decode_series_table_entry(slot)?;
        validate_series_table_entry(entry, header, chunk_index_data_start, chunk_index_file_len)?;
        entries.push(entry);
        k += 1;
    }
    Ok(ValidatedSeriesTableSpan { first_ref, entries })
}

/// The table entry of a series, decoded and validated.
#[verifier::opaque]
pub open spec fn entry_of_result(session: SeriesSession6, root: Schema6SeriesRootV2, series_ref: u32) -> Result<
    SeriesTableEntryV2,
    Error,
> {
    checked_entry_result(
        session.series.subrange(64 + 40 * series_ref, 64 + 40 * series_ref + 40),
        root.header,
        root.chunk_index_data_start,
        root.chunk_index_file_len,
    )
}

/// The first of the requested series, by number, whose entry is refused.
pub open spec fn is_first_refused(
    session: SeriesSession6,
    root: Schema6SeriesRootV2,
    refs: Seq<u32>,
    series_ref: u32,
) -> bool {
    &&& refs.contains(series_ref)
    &&& entry_of_result(session, root, series_ref) is Err
    &&& forall|other: u32| #[trigger]
        refs.contains(other) && other < series_ref ==> entry_of_result(session, root, other) is Ok
}

/// Every requested entry is valid, or the error of the first series, by number,
/// whose entry is refused.
pub open spec fn entries_result(
    session: SeriesSession6,
    root: Schema6SeriesRootV2,
    refs: Seq<u32>,
) -> Result<(), Error> {
    if exists|series_ref: u32| is_first_refused(session, root, refs, series_ref) {
        Err(
            entry_of_result(
                session,
                root,
                choose|series_ref: u32| is_first_refused(session, root, refs, series_ref),
            )->Err_0,
        )
    } else {
        Ok(())
    }
}

/// Where the run of consecutive numbers that reaches `i` ends.
pub open spec fn run_end(refs: Seq<u32>, i: int) -> int
    decreases refs.len() - i,
{
    if 0 < i < refs.len() && refs[i] == refs[i - 1] + 1 {
        run_end(refs, i + 1)
    } else {
        i
    }
}

/// The span of a run of consecutive series.
pub open spec fn span_plan(refs: Seq<u32>, start: int, end: int) -> TableSpanPlan {
    TableSpanPlan {
        first_ref: refs[start],
        entry_count: (end - start) as usize,
        offset: (64 + 40 * refs[start]) as u64,
        length: (40 * (end - start)) as u64,
    }
}

/// The spans of the runs from `start` on: one span for every maximal run of
/// consecutive series.
pub open spec fn span_plans(refs: Seq<u32>, start: int) -> Seq<TableSpanPlan>
    decreases refs.len() - start,
{
    if 0 <= start < refs.len() {
        let end = run_end(refs, start + 1);
        if end <= start || end > refs.len() {
            Seq::empty()
        } else {
            seq![span_plan(refs, start, end)] + span_plans(refs, end)
        }
    } else {
        Seq::empty()
    }
}

/// A span is too long to be counted in bytes.
pub open spec fn long_span(plans: Seq<TableSpanPlan>) -> bool {
    exists|p: int| 0 <= p < plans.len() && (#[trigger] plans[p]).entry_count * 40 > usize::MAX
}

/// The numbers, in order and without repetition.
pub open spec fn is_sorted_set(sorted: Seq<u32>, refs: Seq<u32>) -> bool {
    &&& strictly_increasing(sorted)
    &&& forall|value: u32| #[trigger] sorted.contains(value) <==> refs.contains(value)
}

proof fn lemma_run_end(refs: Seq<u32>, start: int, i: int)
    requires
        strictly_increasing(refs),
        0 <= start < i <= refs.len(),
        forall|k: int| start <= k < i ==> #[trigger] refs[k] == refs[start] + (k - start),
    ensures
        start < i <= run_end(refs, i) <= refs.len(),
        forall|k: int|
            start <= k < run_end(refs, i) ==> #[trigger] refs[k] == refs[start] + (k - start),
    decreases refs.len() - i,
{
    if i < refs.len() && refs[i] == refs[i - 1] + 1 {
        assert(refs[i - 1] == refs[start] + (i - 1 - start));
        lemma_run_end(refs, start, i + 1);
    }
}

/// Sorts numbers and drops repetitions.
fn sorted_set(series_refs: &[u32]) -> (sorted: Vec<u32>)
    ensures
        is_sorted_set(sorted@, series_refs@),
        sorted@.len() <= series_refs@.len(),
{
    let mut sorted: Vec<u32> = Vec::with_capacity(series_refs.len());
    let mut i: usize = 0;
    while i < series_refs.len()
        invariant
            i <= series_refs@.len(),
            sorted@.len() <= i,
            strictly_increasing(sorted@),
            forall|value: u32| #[trigger]
                sorted@.contains(value) <==> series_refs@.take(i as int).contains(value),
        decreases series_refs@.len() - i,
    {
        let value: u32 = series_refs[i];
        let ghost before = sorted@;
        let ghost seen = series_refs@.take(i as int);
        let slot = find_value(&sorted, value);
        match slot {
            Slot::Found(_) => {},
            Slot::Missing(at) => {
                sorted.insert(at, value);
            },
        }
        proof {
            let now = series_refs@.take(i + 1);
            assert(now =~= seen.push(value));
            match slot {
                Slot::Found(at) => {
                    assert(before[at as int] == value);
                },
                Slot::Missing(at) => {
                    assert(sorted@ == before.insert(at as int, value));
                    assert(sorted@[at as int] == value);
                    assert forall|a: int, b: int| 0 <= a < b < sorted@.len() implies sorted@[a]
                        < sorted@[b] by {
                        let from_a = if a < at { a } else { a - 1 };
                        let from_b = if b < at { b } else { b - 1 };
                        if a != at && b != at {
                            assert(before[from_a] < before[from_b]);
                        }
                    }
                },
            }
            assert forall|other: u32| #[trigger] sorted@.contains(other) <==> now.contains(
                other,
            ) by {
                if before.contains(other) {
                    let k = before.index_of(other);
                    match slot {
                        Slot::Found(_) => {},
                        Slot::Missing(at) => {
                            let to = if k < at { k } else { k + 1 };
                            assert(sorted@[to] == other);
                        },
                    }
                }
                if sorted@.contains(other) && other != value {
                    let k = sorted@.index_of(other);
                    match slot {
                        Slot::Found(_) => {},
                        Slot::Missing(at) => {
                            let from = if k < at { k } else { k - 1 };
                            assert(before[from] == other);
                        },
                    }
                }
                if seen.contains(other) {
                    let k = seen.index_of(other);
                    assert(now[k] == other);
                }
                assert(now[i as int] == value);
                if now.contains(other) && other != value {
                    let k = now.index_of(other);
                    assert(seen[k] == other);
                }
            }
        }
        i += 1;
    }
    assert(series_refs@.take(i as int) =~= series_refs@);
    sorted
}

impl<'a> GovernedSchema6SeriesSession<'a> {
    /// Plans one table span for every maximal run of requested series.
    pub fn prepare_table_work(&self, root: &GovernedSchema6SeriesRoot, series_refs: &[u32]) -> (result:
        Result<TableWork, Schema6SeriesReaderError>)
        requires
            root.value.header.series_table_offset == 64,
        ensures
            exists|sorted: Seq<u32>|
                {
                    &&& #[trigger] is_sorted_set(sorted, series_refs@)
                    &&& if long_span(span_plans(sorted, 0)) {
                        result == Err::<TableWork, Schema6SeriesReaderError>(
                            Schema6SeriesReaderError::Planning(
                                input_error("schema-6 table span length overflows"),
                            ),
                        )
                    } else {
                        &&& result is Ok
                        &&& result->Ok_0.valid_refs@ == sorted
                        &&& result->Ok_0.plans@ == span_plans(sorted, 0)
                        &&& result->Ok_0.loaded@.len() == 0
                    }
                },
    {
        let valid_refs: Vec<u32> = sorted_set(series_refs);
        let ghost sorted = valid_refs@;
        let mut plans: Vec<TableSpanPlan> = Vec::with_capacity(valid_refs.len());
        let mut start: usize = 0;
        assert(is_sorted_set(sorted, series_refs@));
        assert(plans@ + span_plans(sorted, 0) =~= span_plans(sorted, 0));
        while start < valid_refs.len()
            invariant
                start <= sorted.len(),
                sorted == valid_refs@,
                is_sorted_set(sorted, series_refs@),
                root.value.header.series_table_offset == 64,
                plans@ + span_plans(sorted, start as int) == span_plans(sorted, 0),
                forall|p: int|
                    0 <= p < plans@.len() ==> (#[trigger] plans@[p]).entry_count * 40
                        <= usize::MAX,
            decreases sorted.len() - start,
        {
            let first_ref: u32 = valid_refs[start];
            let mut end: usize = start + 1;
            while end < valid_refs.len() && valid_refs[end] == valid_refs[end - 1].saturating_add(1)
                invariant
                    start < end <= sorted.len(),
                    sorted == valid_refs@,
                    strictly_increasing(sorted),
                    run_end(sorted, start + 1) == run_end(sorted, end as int),
                decreases sorted.len() - end,
            {
                assert(sorted[end - 1] < sorted[end as int]);
                end += 1;
            }
            proof {
                if end < sorted.len() {
                    assert(sorted[end - 1] < sorted[end as int]);
                }
                assert(run_end(sorted, end as int) == end);
            }
            let entry_count: usize = end - start;
            let ghost plan = span_plan(sorted, start as int, end as int);
            let ghost rest = span_plans(sorted, end as int);
            assert(span_plans(sorted, start as int) == seq![plan] + rest);
            let length: u64 = match checked_len_mul(
                entry_count,
                SERIES_TABLE_ENTRY_LEN as usize,
                "schema-6 table span length overflows",
            ) {
                Ok(length) => length,
                Err(error) => {
                    proof {
                        let all = span_plans(sorted, 0);
                        let p = plans@.len() as int;
                        assert(all[p] == plan);
                        assert(all[p].entry_count * 40 > usize::MAX);
                    }
                    return Err(Schema6SeriesReaderError::Planning(error));
                },
            };
            let offset: u64 = root.value.header.series_table_offset + first_ref as u64
                * SERIES_TABLE_ENTRY_LEN;
            let ghost before = plans@;
            plans.push(TableSpanPlan { first_ref, entry_count, offset, length });
            assert(plans@ + rest =~= before + (seq![plan] + rest));
            start = end;
        }
        assert(plans@ + Seq::<TableSpanPlan>::empty() =~= plans@);
        Ok(TableWork { valid_refs, plans, loaded: Vec::new() })
    }
}

/// A span that holds a series.
pub open spec fn in_span(span: LoadedTableSpan, series_ref: u32) -> bool {
    span.first_ref <= series_ref < span.first_ref + span.entry_count
}

impl TableWork {
    /// The loaded spans are in order, and each is the span that it was read as.
    pub open spec fn wf(self) -> bool {
        &&& forall|p: int, q: int|
            0 <= p < q < self.loaded@.len() ==> (#[trigger] self.loaded@[p]).first_ref
                + self.loaded@[p].entry_count <= (#[trigger] self.loaded@[q]).first_ref
        &&& forall|p: int|
            0 <= p < self.loaded@.len() ==> (#[trigger] self.loaded@[p]).value.first_ref
                == self.loaded@[p].first_ref && self.loaded@[p].value.entries@.len()
                == self.loaded@[p].entry_count
    }

    /// The logical bytes of the three lists, at their capacities.
    pub fn temporary_bytes(&self) -> (result: Result<u64, Error>)
        ensures
            exists|refs: usize, plans: usize, spans: usize|
                {
                    &&& refs >= self.valid_refs@.len()
                    &&& plans >= self.plans@.len()
                    &&& spans >= self.loaded@.len()
                    &&& result == #[trigger] work_bytes_result(
                        refs as nat,
                        plans as nat,
                        spans as nat,
                    )
                },
    {
        let refs: usize = vec_capacity(&self.valid_refs);
        let plans: usize = vec_capacity(&self.plans);
        let spans: usize = vec_capacity(&self.loaded);
        work_bytes(refs, plans, spans)
    }

    /// The entry of a requested series.
    pub fn entry(&self, series_ref: u32) -> (result: Result<SeriesTableEntryV2, Error>)
        requires
            self.wf(),
        ensures
            match result {
                Ok(entry) => exists|p: int|
                    {
                        &&& 0 <= p < self.loaded@.len()
                        &&& in_span(#[trigger] self.loaded@[p], series_ref)
                        &&& entry == self.loaded@[p].value.entries@[series_ref
                            - self.loaded@[p].first_ref]
                    },
                Err(error) => {
                    &&& forall|p: int|
                        0 <= p < self.loaded@.len() ==> !in_span(
                            #[trigger] self.loaded@[p],
                            series_ref,
                        )
                    &&& error == (if forall|p: int|
                        0 <= p < self.loaded@.len() ==> (#[trigger] self.loaded@[p]).first_ref
                            + self.loaded@[p].entry_count <= series_ref {
                        data_error("schema-6 requested series table entry is missing")
                    } else {
                        data_error("schema-6 requested series table entry is outside its span")
                    })
                },
            },
    {
        let mut low: usize = 0;
        let mut high: usize = self.loaded.len();
        while low < high
            invariant
                low <= high <= self.loaded@.len(),
                self.wf(),
                forall|p: int|
                    0 <= p < low ==> (#[trigger] self.loaded@[p]).first_ref
                        + self.loaded@[p].entry_count <= series_ref,
                forall|p: int|
                    high <= p < self.loaded@.len() ==> series_ref < (
                    #[trigger] self.loaded@[p]).first_ref + self.loaded@[p].entry_count,
            decreases high - low,
        {
            let mid: usize = low + (high - low) / 2;
            let span = &self.loaded[mid];
            let before: bool = match (series_ref as usize).checked_sub(span.first_ref as usize) {
                Some(distance) => distance >= span.entry_count,
                None => false,
            };
            if before {
                low = mid + 1;
            } else {
                high = mid;
            }
        }
        if low >= self.loaded.len() {
            return Err(invalid_data("schema-6 requested series table entry is missing"));
        }
        let ghost at = self.loaded@[low as int];
        match self.loaded[low].value.entry(series_ref) {
            Some(entry) => {
                assert(in_span(self.loaded@[low as int], series_ref));
                Ok(entry)
            },
            None => Err(
                invalid_data("schema-6 requested series table entry is outside its span"),
            ),
        }
    }
}

/// The loaded spans hold the valid entries of these series and no others.
pub open spec fn work_holds(
    session: SeriesSession6,
    root: Schema6SeriesRootV2,
    refs: Seq<u32>,
    work: TableWork,
) -> bool {
    &&& work.wf()
    &&& forall|p: int, i: int|
        0 <= p < work.loaded@.len() && 0 <= i < work.loaded@[p].entry_count ==> entry_of_result(
            session,
            root,
            (work.loaded@[p].first_ref + i) as u32,
        ) == Ok::<SeriesTableEntryV2, Error>(#[trigger] work.loaded@[p].value.entries@[i])
    &&& forall|series_ref: u32| #[trigger]
        refs.contains(series_ref) ==> exists|p: int|
            0 <= p < work.loaded@.len() && in_span(#[trigger] work.loaded@[p], series_ref)
}

pub proof fn lemma_first_refused(
    session: SeriesSession6,
    root: Schema6SeriesRootV2,
    refs: Seq<u32>,
    series_ref: u32,
)
    requires
        is_first_refused(session, root, refs, series_ref),
    ensures
        entries_result(session, root, refs) == Err::<(), Error>(
            entry_of_result(session, root, series_ref)->Err_0,
        ),
{
    let chosen = choose|series_ref: u32| is_first_refused(session, root, refs, series_ref);
    assert(is_first_refused(session, root, refs, chosen));
    if chosen < series_ref {
        assert(refs.contains(chosen));
    } else if series_ref < chosen {
        assert(refs.contains(series_ref));
    }
}

/// The first refused entry of a span that is refused.
proof fn lemma_span_refused(
    bytes: Seq<u8>,
    header: SeriesHeader,
    data_start: u64,
    file_len: u64,
    n: nat,
) -> (k: int)
    requires
        span_prefix_result(bytes, header, data_start, file_len, n) is Err,
    ensures
        0 <= k < n,
        checked_entry_result(
            bytes.subrange(40 * k, 40 * k + 40),
            header,
            data_start,
            file_len,
        ) is Err,
        span_prefix_result(bytes, header, data_start, file_len, n)->Err_0
            == checked_entry_result(
            bytes.subrange(40 * k, 40 * k + 40),
            header,
            data_start,
            file_len,
        )->Err_0,
        forall|i: int|
            0 <= i < k ==> checked_entry_result(
                #[trigger] bytes.subrange(40 * i, 40 * i + 40),
                header,
                data_start,
                file_len,
            ) is Ok,
    decreases n,
{
    if span_prefix_result(bytes, header, data_start, file_len, (n - 1) as nat) is Err {
        lemma_span_refused(bytes, header, data_start, file_len, (n - 1) as nat)
    } else {
        lemma_span_ok(bytes, header, data_start, file_len, (n - 1) as nat);
        n - 1
    }
}

/// The entries of a span that is valid.
proof fn lemma_span_ok(
    bytes: Seq<u8>,
    header: SeriesHeader,
    data_start: u64,
    file_len: u64,
    n: nat,
)
    requires
        span_prefix_result(bytes, header, data_start, file_len, n) is Ok,
    ensures
        span_prefix_result(bytes, header, data_start, file_len, n)->Ok_0.len() == n,
        forall|i: int|
            0 <= i < n ==> checked_entry_result(
                #[trigger] bytes.subrange(40 * i, 40 * i + 40),
                header,
                data_start,
                file_len,
            ) == Ok::<SeriesTableEntryV2, Error>(
                span_prefix_result(bytes, header, data_start, file_len, n)->Ok_0[i],
            ),
    decreases n,
{
    if n > 0 {
        lemma_span_ok(bytes, header, data_start, file_len, (n - 1) as nat);
    }
}

/// What a valid root says of where the table stands.
pub proof fn table_bounds_law(session: SeriesSession6, root: GovernedSchema6SeriesRoot)
    requires
        load_root6_result(session) == Ok::<GovernedSchema6SeriesRoot, Schema6SeriesReaderError>(
            root,
        ),
        session.series.len() <= u64::MAX,
    ensures
        root.value.header.series_table_offset == 64,
        64 + 40 * root.value.header.num_series == root.value.header.keysets_offset,
        root.value.header.keysets_offset <= root.value.header.value_dicts_offset
            <= root.value.header.keyset_blocks_offset <= root.value.header.meta_offset,
        root.value.header.meta_offset == session.series.len(),
{
}

impl<'a> GovernedSchema6SeriesSession<'a> {
    /// Reads and validates one span of the table.
    fn load_table_span<R: Fn(u64) -> bool>(
        &self,
        root: &GovernedSchema6SeriesRoot,
        plan: TableSpanPlan,
        reserve: &R,
    ) -> (result: Result<LoadedTableSpan, Schema6SeriesReaderError>)
        requires
            answers(*reserve),
            load_root6_result(self@) == Ok::<
                GovernedSchema6SeriesRoot,
                Schema6SeriesReaderError,
            >(*root),
            plan.offset == 64 + 40 * plan.first_ref,
            plan.length == 40 * plan.entry_count <= usize::MAX,
            plan.first_ref + plan.entry_count <= root.value.header.num_series,
        ensures
            ran_out6(*reserve, result) || match result {
                Ok(span) => {
                    &&& span.first_ref == plan.first_ref == span.value.first_ref
                    &&& span.entry_count == plan.entry_count == span.value.entries@.len()
                    &&& forall|i: int|
                        0 <= i < plan.entry_count ==> entry_of_result(
                            self@,
                            root.value,
                            (plan.first_ref + i) as u32,
                        ) == Ok::<SeriesTableEntryV2, Error>(#[trigger] span.value.entries@[i])
                },
                Err(error) => exists|k: u32|
                    {
                        let refused = #[trigger] entry_of_result(
                            self@,
                            root.value,
                            (plan.first_ref + k) as u32,
                        );
                        &&& k < plan.entry_count
                        &&& refused is Err
                        &&& error == Schema6SeriesReaderError::Cache(refused->Err_0)
                        &&& forall|i: u32|
                            i < k ==> #[trigger] entry_of_result(
                                self@,
                                root.value,
                                (plan.first_ref + i) as u32,
                            ) is Ok
                    },
            },
    {
        let declared: u64 = match checked_struct_and_vec_bytes::<
            ValidatedSeriesTableSpan,
            SeriesTableEntryV2,
        >(plan.entry_count) {
            Ok(declared) => declared,
            Err(_) => u64::MAX,
        };
        reserve6(reserve, declared)?;
        assert(self.artifacts.series@.len() == self.artifacts.series.len());
        proof {
            reveal(entry_of_result);
            table_bounds_law(self@, *root);
        }
        let bytes = self.read_series_range(plan.offset, plan.offset + plan.length)?;
        let header = root.value.header;
        let ghost data_start = root.value.chunk_index_data_start;
        let ghost file_len = root.value.chunk_index_file_len;
        let ghost series = self@.series;
        assert forall|i: int| 0 <= i < plan.entry_count implies #[trigger] bytes@.subrange(
            40 * i,
            40 * i + 40,
        ) == series.subrange(
            64 + 40 * (plan.first_ref + i) as u32,
            64 + 40 * (plan.first_ref + i) as u32 + 40,
        ) by {
            assert(bytes@.subrange(40 * i, 40 * i + 40) =~= series.subrange(
                64 + 40 * (plan.first_ref + i) as u32,
                64 + 40 * (plan.first_ref + i) as u32 + 40,
            ));
        }
        let decoded = decode_series_table_span(
            bytes,
            plan.first_ref,
            plan.entry_count,
            header,
            root.value.chunk_index_data_start,
            root.value.chunk_index_file_len,
        );
        proof {
            let count = plan.entry_count as nat;
            let prefix = span_prefix_result(bytes@, header, data_start, file_len, count);
            if prefix is Err {
                let k = lemma_span_refused(bytes@, header, data_start, file_len, count);
                let refused = entry_of_result(self@, root.value, (plan.first_ref + k as u32) as u32);
                assert(bytes@.subrange(40 * k, 40 * k + 40) == series.subrange(
                    64 + 40 * (plan.first_ref + k) as u32,
                    64 + 40 * (plan.first_ref + k) as u32 + 40,
                ));
                assert(refused is Err);
                assert forall|i: u32| i < k implies #[trigger] entry_of_result(
                    self@,
                    root.value,
                    (plan.first_ref + i) as u32,
                ) is Ok by {
                    let slot = bytes@.subrange(40 * i as int, 40 * i as int + 40);
                    assert(checked_entry_result(slot, header, data_start, file_len) is Ok);
                }
            } else {
                lemma_span_ok(bytes@, header, data_start, file_len, count);
                assert forall|i: int| 0 <= i < count implies entry_of_result(
                    self@,
                    root.value,
                    (plan.first_ref + i) as u32,
                ) == Ok::<SeriesTableEntryV2, Error>(#[trigger] prefix->Ok_0[i]) by {
                    let slot = bytes@.subrange(40 * i, 40 * i + 40);
                    assert(checked_entry_result(slot, header, data_start, file_len) == Ok::<
                        SeriesTableEntryV2,
                        Error,
                    >(prefix->Ok_0[i]));
                }
            }
        }
        let value = self.record_series_result(decoded)?;
        Ok(
            LoadedTableSpan {
                first_ref: plan.first_ref,
                entry_count: plan.entry_count,
                value,
            },
        )
    }
}

/// The spans that were loaded so far: they hold the first `start` series.
#[verifier::opaque]
spec fn spans_hold(
    session: SeriesSession6,
    root: Schema6SeriesRootV2,
    sorted: Seq<u32>,
    start: int,
    loaded: Seq<LoadedTableSpan>,
) -> bool {
    &&& forall|p: int, q: int|
        0 <= p < q < loaded.len() ==> (#[trigger] loaded[p]).first_ref + loaded[p].entry_count <= (
        #[trigger] loaded[q]).first_ref
    &&& forall|p: int|
        0 <= p < loaded.len() ==> (#[trigger] loaded[p]).value.first_ref == loaded[p].first_ref
            && loaded[p].value.entries@.len() == loaded[p].entry_count && (start > 0
            && loaded[p].first_ref + loaded[p].entry_count <= sorted[start - 1] + 1)
    &&& forall|p: int, i: int|
        0 <= p < loaded.len() && 0 <= i < loaded[p].entry_count ==> entry_of_result(
            session,
            root,
            (loaded[p].first_ref + i) as u32,
        ) == Ok::<SeriesTableEntryV2, Error>(#[trigger] loaded[p].value.entries@[i])
    &&& forall|k: int|
        0 <= k < start ==> exists|p: int|
            0 <= p < loaded.len() && in_span(#[trigger] loaded[p], #[trigger] sorted[k])
}

/// Every series of the loaded spans has a valid entry.
proof fn lemma_held_valid(
    session: SeriesSession6,
    root: Schema6SeriesRootV2,
    sorted: Seq<u32>,
    start: int,
    loaded: Seq<LoadedTableSpan>,
    k: int,
)
    requires
        spans_hold(session, root, sorted, start, loaded),
        0 <= k < start,
    ensures
        entry_of_result(session, root, sorted[k]) is Ok,
{
    reveal(spans_hold);
    let p = choose|p: int| 0 <= p < loaded.len() && in_span(#[trigger] loaded[p], sorted[k]);
    let i = sorted[k] - loaded[p].first_ref;
    assert(entry_of_result(session, root, (loaded[p].first_ref + i) as u32) == Ok::<
        SeriesTableEntryV2,
        Error,
    >(loaded[p].value.entries@[i]));
}

/// One more span holds the next run.
proof fn lemma_span_held(
    session: SeriesSession6,
    root: Schema6SeriesRootV2,
    sorted: Seq<u32>,
    start: int,
    end: int,
    loaded: Seq<LoadedTableSpan>,
    span: LoadedTableSpan,
)
    requires
        strictly_increasing(sorted),
        0 <= start < end <= sorted.len(),
        forall|k: int| start <= k < end ==> #[trigger] sorted[k] == sorted[start] + (k - start),
        spans_hold(session, root, sorted, start, loaded),
        span.first_ref == sorted[start] == span.value.first_ref,
        span.entry_count == end - start == span.value.entries@.len(),
        forall|i: int|
            0 <= i < span.entry_count ==> entry_of_result(
                session,
                root,
                (span.first_ref + i) as u32,
            ) == Ok::<SeriesTableEntryV2, Error>(#[trigger] span.value.entries@[i]),
    ensures
        spans_hold(session, root, sorted, end, loaded.push(span)),
{
    reveal(spans_hold);
    let after = loaded.push(span);
    if start > 0 {
        assert(sorted[start - 1] < sorted[start]);
        assert(sorted[start - 1] < sorted[end - 1]);
    }
    assert(sorted[end - 1] == sorted[start] + (end - 1 - start));
    assert forall|k: int| 0 <= k < end implies exists|p: int|
        0 <= p < after.len() && in_span(#[trigger] after[p], #[trigger] sorted[k]) by {
        if k < start {
            let p = choose|p: int|
                0 <= p < loaded.len() && in_span(#[trigger] loaded[p], sorted[k]);
            assert(in_span(after[p], sorted[k]));
        } else {
            assert(in_span(after[loaded.len() as int], sorted[k]));
        }
    }
    assert forall|p: int, i: int|
        0 <= p < after.len() && 0 <= i < after[p].entry_count implies entry_of_result(
        session,
        root,
        (after[p].first_ref + i) as u32,
    ) == Ok::<SeriesTableEntryV2, Error>(#[trigger] after[p].value.entries@[i]) by {
        if p < loaded.len() {
            assert(after[p] == loaded[p]);
        }
    }
}

/// The next plan is that of the next run.
proof fn lemma_next_plan(sorted: Seq<u32>, start: int, plans: Seq<TableSpanPlan>, p: int)
    requires
        strictly_increasing(sorted),
        0 <= start <= sorted.len() <= usize::MAX,
        0 <= p < plans.len(),
        plans.skip(p) == span_plans(sorted, start),
    ensures
        start < sorted.len(),
        ({
            let end = run_end(sorted, start + 1);
            &&& start < end <= sorted.len()
            &&& plans[p] == span_plan(sorted, start, end)
            &&& plans.skip(p + 1) == span_plans(sorted, end)
            &&& sorted[end - 1] == sorted[start] + (end - 1 - start)
            &&& forall|k: int|
                start <= k < end ==> #[trigger] sorted[k] == sorted[start] + (k - start)
        }),
{
    assert(plans.skip(p)[0] == plans[p]);
    assert(span_plans(sorted, start).len() == plans.len() - p);
    assert(start < sorted.len());
    lemma_run_end(sorted, start, start + 1);
    let end = run_end(sorted, start + 1);
    let rest = span_plans(sorted, end);
    assert(span_plans(sorted, start) == seq![span_plan(sorted, start, end)] + rest);
    assert(plans.skip(p + 1) =~= plans.skip(p).skip(1));
    assert((seq![span_plan(sorted, start, end)] + rest).skip(1) =~= rest);
    assert(sorted[end - 1] == sorted[start] + (end - 1 - start));
}

/// A refused entry of a run whose earlier series are valid is the first one.
proof fn lemma_run_refused(
    session: SeriesSession6,
    root: Schema6SeriesRootV2,
    sorted: Seq<u32>,
    start: int,
    end: int,
    loaded: Seq<LoadedTableSpan>,
    k: u32,
)
    requires
        strictly_increasing(sorted),
        0 <= start < end <= sorted.len(),
        start + k < end,
        forall|i: int| start <= i < end ==> #[trigger] sorted[i] == sorted[start] + (i - start),
        spans_hold(session, root, sorted, start, loaded),
        entry_of_result(session, root, (sorted[start] + k) as u32) is Err,
        forall|i: u32|
            i < k ==> #[trigger] entry_of_result(
                session,
                root,
                (sorted[start] + i) as u32,
            ) is Ok,
    ensures
        entries_result(session, root, sorted) == Err::<(), Error>(
            entry_of_result(session, root, (sorted[start] + k) as u32)->Err_0,
        ),
{
    let bad = sorted[start + k];
    assert(bad == sorted[start] + k);
    assert(sorted.contains(bad));
    assert forall|other: u32| #[trigger]
        sorted.contains(other) && other < bad implies entry_of_result(
        session,
        root,
        other,
    ) is Ok by {
        let at = sorted.index_of(other);
        assert(sorted[at] == other);
        if at >= start + k {
            assert(at == start + k || sorted[start + k] < sorted[at]);
        } else if at < start {
            lemma_held_valid(session, root, sorted, start, loaded, at);
        } else {
            let i = (at - start) as u32;
            assert(sorted[at] == sorted[start] + (at - start));
            assert(entry_of_result(session, root, (sorted[start] + i) as u32) is Ok);
        }
    }
    lemma_first_refused(session, root, sorted, bad);
}

impl<'a> GovernedSchema6SeriesSession<'a> {
    /// Reads and validates the planned spans.
    pub fn load_table_spans<R: Fn(u64) -> bool>(
        &self,
        root: &GovernedSchema6SeriesRoot,
        work: &mut TableWork,
        reserve: &R,
    ) -> (result: Result<(), Schema6SeriesReaderError>)
        requires
            answers(*reserve),
            load_root6_result(self@) == Ok::<
                GovernedSchema6SeriesRoot,
                Schema6SeriesReaderError,
            >(*root),
            strictly_increasing(old(work).valid_refs@),
            forall|k: int|
                0 <= k < old(work).valid_refs@.len() ==> #[trigger] old(work).valid_refs@[k]
                    < root.value.header.num_series,
            old(work).plans@ == span_plans(old(work).valid_refs@, 0),
            !long_span(old(work).plans@),
        ensures
            final(work).valid_refs@ == old(work).valid_refs@,
            final(work).plans@ == old(work).plans@,
            ran_out6(*reserve, result) || result == recorded6(
                entries_result(self@, root.value, old(work).valid_refs@),
            ),
            result is Ok ==> work_holds(
                self@,
                root.value,
                old(work).valid_refs@,
                *final(work),
            ),
    {
        let ghost sorted = work.valid_refs@;
        let ghost plans = work.plans@;
        let ghost value = root.value;
        let mut loaded: Vec<LoadedTableSpan> = Vec::with_capacity(work.plans.len());
        let mut p: usize = 0;
        let ghost mut start: int = 0;
        assert(plans.skip(0) =~= plans);
        assert(spans_hold(self@, value, sorted, start, loaded@)) by {
            reveal(spans_hold);
        }
        assert(work.valid_refs@.len() == work.valid_refs.len());
        while p < work.plans.len()
            invariant
                p <= plans.len(),
                answers(*reserve),
                plans == work.plans@,
                plans == old(work).plans@,
                sorted == work.valid_refs@,
                sorted == old(work).valid_refs@,
                value == root.value,
                load_root6_result(self@) == Ok::<
                    GovernedSchema6SeriesRoot,
                    Schema6SeriesReaderError,
                >(*root),
                strictly_increasing(sorted),
                forall|k: int|
                    0 <= k < sorted.len() ==> #[trigger] sorted[k] < value.header.num_series,
                !long_span(plans),
                0 <= start <= sorted.len() <= usize::MAX,
                plans.skip(p as int) == span_plans(sorted, start),
                spans_hold(self@, value, sorted, start, loaded@),
            decreases plans.len() - p,
        {
            let plan = work.plans[p];
            let ghost end = run_end(sorted, start + 1);
            proof {
                lemma_next_plan(sorted, start, plans, p as int);
                assert(plans[p as int].entry_count * 40 <= usize::MAX);
            }
            let span_result = self.load_table_span(root, plan, reserve);
            let ghost out = ran_out6(*reserve, span_result);
            match span_result {
                Ok(span) => {
                    proof {
                        lemma_span_held(self@, value, sorted, start, end, loaded@, span);
                        start = end;
                    }
                    loaded.push(span);
                },
                Err(error) => {
                    proof {
                        let k = choose|k: u32|
                            {
                                let refused = #[trigger] entry_of_result(
                                    self@,
                                    value,
                                    (plan.first_ref + k) as u32,
                                );
                                &&& k < plan.entry_count
                                &&& refused is Err
                                &&& error == Schema6SeriesReaderError::Cache(refused->Err_0)
                                &&& forall|i: u32|
                                    i < k ==> #[trigger] entry_of_result(
                                        self@,
                                        value,
                                        (plan.first_ref + i) as u32,
                                    ) is Ok
                            };
                        if !out {
                            lemma_run_refused(self@, value, sorted, start, end, loaded@, k);
                        }
                    }
                    return Err(error);
                },
            }
            p += 1;
        }
        proof {
            reveal(spans_hold);
            assert(plans.skip(p as int).len() == 0);
            if start < sorted.len() {
                lemma_run_end(sorted, start, start + 1);
                assert(span_plans(sorted, start).len() > 0);
            }
            assert forall|series_ref: u32| sorted.contains(series_ref) implies entry_of_result(
                self@,
                value,
                series_ref,
            ) is Ok && exists|p: int|
                0 <= p < loaded@.len() && in_span(#[trigger] loaded@[p], series_ref) by {
                let k = sorted.index_of(series_ref);
                assert(sorted[k] == series_ref);
                lemma_held_valid(self@, value, sorted, start, loaded@, k);
            }
        }
        work.loaded = loaded;
        Ok(())
    }
}

/// Coalescing loses nothing and adds nothing: the spans hold exactly the
/// requested series, and no two of them could be one.
pub proof fn span_cover_law(sorted: Seq<u32>, value: u32)
    requires
        strictly_increasing(sorted),
        sorted.len() <= usize::MAX,
    ensures
        sorted.contains(value) <==> exists|p: int|
            0 <= p < span_plans(sorted, 0).len() && (#[trigger] span_plans(sorted, 0)[p]).first_ref
                <= value < span_plans(sorted, 0)[p].first_ref + span_plans(sorted, 0)[p].entry_count,
        forall|p: int|
            0 <= p < span_plans(sorted, 0).len() - 1 ==> (#[trigger] span_plans(
                sorted,
                0,
            )[p]).first_ref + span_plans(sorted, 0)[p].entry_count < span_plans(
                sorted,
                0,
            )[p + 1].first_ref,
{
    lemma_cover(sorted, 0, value);
    if sorted.contains(value) {
        let k = sorted.index_of(value);
        assert(sorted[k] == value);
    }
}

spec fn plan_has(plan: TableSpanPlan, value: u32) -> bool {
    plan.first_ref <= value < plan.first_ref + plan.entry_count
}

proof fn lemma_cover(sorted: Seq<u32>, start: int, value: u32)
    requires
        strictly_increasing(sorted),
        0 <= start <= sorted.len(),
        sorted.len() <= usize::MAX,
    ensures
        (exists|k: int| start <= k < sorted.len() && #[trigger] sorted[k] == value) <==> exists|p: int|
            0 <= p < span_plans(sorted, start).len() && plan_has(
                #[trigger] span_plans(sorted, start)[p],
                value,
            ),
        start < sorted.len() ==> span_plans(sorted, start).len() > 0 && span_plans(
            sorted,
            start,
        )[0].first_ref == sorted[start],
        forall|p: int|
            0 <= p < span_plans(sorted, start).len() - 1 ==> (#[trigger] span_plans(
                sorted,
                start,
            )[p]).first_ref + span_plans(sorted, start)[p].entry_count < span_plans(
                sorted,
                start,
            )[p + 1].first_ref,
    decreases sorted.len() - start,
{
    if start < sorted.len() {
        lemma_run_end(sorted, start, start + 1);
        let end = run_end(sorted, start + 1);
        let first = span_plan(sorted, start, end);
        let rest = span_plans(sorted, end);
        let all = span_plans(sorted, start);
        assert(all == seq![first] + rest);
        lemma_cover(sorted, end, value);
        lemma_run_stops(sorted, start + 1);
        assert(sorted[end - 1] == sorted[start] + (end - 1 - start));
        if end < sorted.len() {
            assert(sorted[end - 1] < sorted[end]);
            assert(rest[0].first_ref == sorted[end]);
        }
        assert forall|p: int| 0 <= p < all.len() - 1 implies (#[trigger] all[p]).first_ref
            + all[p].entry_count < all[p + 1].first_ref by {
            if p > 0 {
                assert(all[p] == rest[p - 1]);
            }
            assert(all[p + 1] == rest[p]);
        }
        if exists|k: int| start <= k < sorted.len() && #[trigger] sorted[k] == value {
            let k = choose|k: int| start <= k < sorted.len() && #[trigger] sorted[k] == value;
            if k < end {
                assert(sorted[k] == sorted[start] + (k - start));
                assert(plan_has(all[0], value));
            } else {
                let p = choose|p: int| 0 <= p < rest.len() && plan_has(#[trigger] rest[p], value);
                assert(all[p + 1] == rest[p]);
                assert(plan_has(all[p + 1], value));
            }
        }
        if exists|p: int| 0 <= p < all.len() && plan_has(#[trigger] all[p], value) {
            let p = choose|p: int| 0 <= p < all.len() && plan_has(#[trigger] all[p], value);
            if p == 0 {
                let k = start + (value - sorted[start]);
                assert(sorted[k] == sorted[start] + (k - start));
                assert(sorted[k] == value);
            } else {
                assert(all[p] == rest[p - 1]);
                assert(plan_has(rest[p - 1], value));
                let k = choose|k: int| end <= k < sorted.len() && #[trigger] sorted[k] == value;
                assert(sorted[k] == value);
            }
        }
    }
}

/// A run ends where the next number does not follow.
proof fn lemma_run_stops(sorted: Seq<u32>, i: int)
    requires
        0 < i <= sorted.len(),
    ensures
        i <= run_end(sorted, i) <= sorted.len(),
        run_end(sorted, i) < sorted.len() ==> sorted[run_end(sorted, i)] != sorted[run_end(
            sorted,
            i,
        ) - 1] + 1,
    decreases sorted.len() - i,
{
    if i < sorted.len() && sorted[i] == sorted[i - 1] + 1 {
        lemma_run_stops(sorted, i + 1);
    }
}

/// The numbers of a request, in order and without repetition.
pub open spec fn sorted_refs(refs: Seq<u32>) -> Seq<u32> {
    choose|sorted: Seq<u32>| is_sorted_set(sorted, refs)
}

/// There is one way to sort numbers without repetition.
proof fn lemma_sorted_unique(a: Seq<u32>, b: Seq<u32>, n: int)
    requires
        strictly_increasing(a),
        strictly_increasing(b),
        forall|value: u32| #[trigger] a.contains(value) <==> b.contains(value),
        0 <= n <= a.len(),
    ensures
        n <= b.len(),
        forall|i: int| 0 <= i < n ==> a[i] == b[i],
    decreases n,
{
    if n > 0 {
        lemma_sorted_unique(a, b, n - 1);
        let value = a[n - 1];
        assert(a.contains(value));
        let at = b.index_of(value);
        assert(b[at] == value);
        if at < n - 1 {
            assert(a[at] < a[n - 1]);
        }
        if at > n - 1 {
            let other = b[n - 1];
            assert(b.contains(other));
            assert(a.contains(other));
            let from = a.index_of(other);
            assert(a[from] == other);
            assert(b[n - 1] < b[at]);
            if from < n - 1 {
                assert(b[from] < b[n - 1]);
            } else if from > n - 1 {
                assert(a[n - 1] < a[from]);
            }
        }
    }
}

/// A sorted request is the sorted request.
pub proof fn sorted_refs_law(sorted: Seq<u32>, refs: Seq<u32>)
    requires
        is_sorted_set(sorted, refs),
    ensures
        sorted_refs(refs) == sorted,
{
    let chosen = sorted_refs(refs);
    assert forall|value: u32| #[trigger] sorted.contains(value) <==> chosen.contains(value) by {
        assert(sorted.contains(value) <==> refs.contains(value));
    }
    assert forall|value: u32| #[trigger] chosen.contains(value) <==> sorted.contains(value) by {
        assert(chosen.contains(value) <==> refs.contains(value));
    }
    lemma_sorted_unique(sorted, chosen, sorted.len() as int);
    lemma_sorted_unique(chosen, sorted, chosen.len() as int);
    assert(chosen =~= sorted);
}

/// The order of a request does not matter for which entries are valid.
proof fn lemma_entries_sorted(
    session: SeriesSession6,
    root: Schema6SeriesRootV2,
    sorted: Seq<u32>,
    refs: Seq<u32>,
)
    requires
        is_sorted_set(sorted, refs),
    ensures
        entries_result(session, root, sorted) == entries_result(session, root, refs),
{
    assert forall|series_ref: u32|
        is_first_refused(session, root, sorted, series_ref) <==> is_first_refused(
            session,
            root,
            refs,
            series_ref,
        ) by {
        assert(sorted.contains(series_ref) <==> refs.contains(series_ref));
        if is_first_refused(session, root, sorted, series_ref) {
            assert forall|other: u32| #[trigger]
                refs.contains(other) && other < series_ref implies entry_of_result(
                session,
                root,
                other,
            ) is Ok by {
                assert(sorted.contains(other));
            }
        }
        if is_first_refused(session, root, refs, series_ref) {
            assert forall|other: u32| #[trigger]
                sorted.contains(other) && other < series_ref implies entry_of_result(
                session,
                root,
                other,
            ) is Ok by {
                assert(refs.contains(other));
            }
        }
    }
    if exists|series_ref: u32| is_first_refused(session, root, sorted, series_ref) {
        let series_ref = choose|series_ref: u32|
            is_first_refused(session, root, sorted, series_ref);
        lemma_first_refused(session, root, sorted, series_ref);
        lemma_first_refused(session, root, refs, series_ref);
    } else {
        if exists|series_ref: u32| is_first_refused(session, root, refs, series_ref) {
            let series_ref = choose|series_ref: u32|
                is_first_refused(session, root, refs, series_ref);
            assert(is_first_refused(session, root, sorted, series_ref));
        }
    }
}

/// The requested entries can be read, or why not.
pub open spec fn table_request_result(
    session: SeriesSession6,
    root: Schema6SeriesRootV2,
    refs: Seq<u32>,
    output_size: nat,
) -> Result<(), Schema6SeriesReaderError> {
    if work_upper_result(output_size, refs.len()) is Err {
        Err(
            Schema6SeriesReaderError::Planning(
                work_upper_result(output_size, refs.len())->Err_0,
            ),
        )
    } else if long_span(span_plans(sorted_refs(refs), 0)) {
        Err(
            Schema6SeriesReaderError::Planning(
                input_error("schema-6 table span length overflows"),
            ),
        )
    } else {
        recorded6(entries_result(session, root, refs))
    }
}

/// The first `n` requested series exist, or the first error.
pub open spec fn refs_result(num_series: u32, refs: Seq<u32>, n: nat) -> Result<
    (),
    Schema6SeriesReaderError,
>
    decreases n,
{
    if n == 0 {
        Ok(())
    } else {
        match refs_result(num_series, refs, (n - 1) as nat) {
            Err(error) => Err(error),
            Ok(_) => if refs[n - 1] >= num_series {
                Err(
                    Schema6SeriesReaderError::InvalidSeriesRef {
                        series_ref: refs[n - 1],
                        num_series,
                    },
                )
            } else {
                Ok(())
            },
        }
    }
}

proof fn lemma_refs_error(num_series: u32, refs: Seq<u32>, n: nat, m: nat)
    requires
        n <= m,
        refs_result(num_series, refs, n) is Err,
    ensures
        refs_result(num_series, refs, m) == refs_result(num_series, refs, n),
    decreases m,
{
    if n < m {
        lemma_refs_error(num_series, refs, n, (m - 1) as nat);
    }
}

impl<'a> GovernedSchema6SeriesSession<'a> {
    /// Checks that every requested series exists.
    pub fn validate_series_refs(&self, root: &GovernedSchema6SeriesRoot, series_refs: &[u32]) -> (result:
        Result<(), Schema6SeriesReaderError>)
        ensures
            result == refs_result(
                root.value.header.num_series,
                series_refs@,
                series_refs@.len(),
            ),
            result is Ok ==> forall|i: int|
                0 <= i < series_refs@.len() ==> #[trigger] series_refs@[i]
                    < root.value.header.num_series,
    {
        let num_series: u32 = root.num_series();
        let mut i: usize = 0;
        while i < series_refs.len()
            invariant
                i <= series_refs@.len(),
                num_series == root.value.header.num_series,
                refs_result(num_series, series_refs@, i as nat) is Ok,
                forall|k: int| 0 <= k < i ==> #[trigger] series_refs@[k] < num_series,
            decreases series_refs@.len() - i,
        {
            let series_ref: u32 = series_refs[i];
            if series_ref >= num_series {
                proof {
                    lemma_refs_error(
                        num_series,
                        series_refs@,
                        (i + 1) as nat,
                        series_refs@.len(),
                    );
                }
                return Err(Schema6SeriesReaderError::InvalidSeriesRef { series_ref, num_series });
            }
            i += 1;
        }
        Ok(())
    }

    /// Reads the table spans of a request.
    pub(super) fn request_table<T>(
        &self,
        root: &GovernedSchema6SeriesRoot,
        series_refs: &[u32],
        reserve: &impl Fn(u64) -> bool,
    ) -> (result: Result<TableWork, Schema6SeriesReaderError>)
        requires
            answers(*reserve),
            load_root6_result(self@) == Ok::<
                GovernedSchema6SeriesRoot,
                Schema6SeriesReaderError,
            >(*root),
            forall|i: int|
                0 <= i < series_refs@.len() ==> #[trigger] series_refs@[i]
                    < root.value.header.num_series,
        ensures
            ran_out6(*reserve, result) || match table_request_result(
                self@,
                root.value,
                series_refs@,
                vstd::layout::size_of::<T>(),
            ) {
                Err(error) => result == Err::<TableWork, Schema6SeriesReaderError>(error),
                Ok(_) => result is Ok && work_holds(
                    self@,
                    root.value,
                    series_refs@,
                    result->Ok_0,
                ),
            },
    {
        match checked_table_work_upper::<T>(series_refs.len()) {
            Ok(_) => {},
            Err(error) => {
                return Err(Schema6SeriesReaderError::Planning(error));
            },
        }
        assert(self.artifacts.series@.len() == self.artifacts.series.len());
        proof {
            table_bounds_law(self@, *root);
        }
        let prepared = self.prepare_table_work(root, series_refs);
        let ghost sorted = choose|sorted: Seq<u32>|
            {
                &&& #[trigger] is_sorted_set(sorted, series_refs@)
                &&& if long_span(span_plans(sorted, 0)) {
                    prepared == Err::<TableWork, Schema6SeriesReaderError>(
                        Schema6SeriesReaderError::Planning(
                            input_error("schema-6 table span length overflows"),
                        ),
                    )
                } else {
                    &&& prepared is Ok
                    &&& prepared->Ok_0.valid_refs@ == sorted
                    &&& prepared->Ok_0.plans@ == span_plans(sorted, 0)
                    &&& prepared->Ok_0.loaded@.len() == 0
                }
            };
        proof {
            sorted_refs_law(sorted, series_refs@);
            lemma_entries_sorted(self@, root.value, sorted, series_refs@);
        }
        let mut work = prepared?;
        assert forall|k: int| 0 <= k < sorted.len() implies #[trigger] sorted[k]
            < root.value.header.num_series by {
            assert(sorted.contains(sorted[k]));
            let i = series_refs@.index_of(sorted[k]);
            assert(series_refs@[i] == sorted[k]);
        }
        self.load_table_spans(root, &mut work, reserve)?;
        assert forall|series_ref: u32| #[trigger] series_refs@.contains(series_ref) implies exists|
            p: int,
        | 0 <= p < work.loaded@.len() && in_span(#[trigger] work.loaded@[p], series_ref) by {
            assert(sorted.contains(series_ref));
        }
        Ok(work)
    }

    /// The valid entry of a requested series.
    pub(super) fn requested_entry(
        &self,
        root: &GovernedSchema6SeriesRoot,
        work: &TableWork,
        series_ref: u32,
        Ghost(refs): Ghost<Seq<u32>>,
    ) -> (result: Result<SeriesTableEntryV2, Schema6SeriesReaderError>)
        requires
            work_holds(self@, root.value, refs, *work),
            refs.contains(series_ref),
        ensures
            result is Ok,
            entry_of_result(self@, root.value, series_ref) == Ok::<SeriesTableEntryV2, Error>(
                result->Ok_0,
            ),
    {
        let found = work.entry(series_ref);
        proof {
            let p = choose|p: int|
                0 <= p < work.loaded@.len() && in_span(#[trigger] work.loaded@[p], series_ref);
            assert(in_span(work.loaded@[p], series_ref));
            let entry = found->Ok_0;
            let q = choose|q: int|
                {
                    &&& 0 <= q < work.loaded@.len()
                    &&& in_span(#[trigger] work.loaded@[q], series_ref)
                    &&& entry == work.loaded@[q].value.entries@[series_ref
                        - work.loaded@[q].first_ref]
                };
            let i = series_ref - work.loaded@[q].first_ref;
            assert(entry_of_result(
                self@,
                root.value,
                (work.loaded@[q].first_ref + i) as u32,
            ) == Ok::<SeriesTableEntryV2, Error>(work.loaded@[q].value.entries@[i]));
        }
        self.record_series_result(found)
    }
}

} // verus!
