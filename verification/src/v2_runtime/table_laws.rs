//! What is handed out of a segment, said of the bytes of its table.

use vstd::prelude::*;

use super::chunk_index::ChunkDirectory;
use super::metadata::{ranges_result, routing_result, Schema6SeriesRoutingMetadata};
use super::root::{table_entry_fields, Schema6SeriesRootV2};
use super::table::{
    entries_result, entry_of_result, is_first_refused, is_sorted_set, lemma_first_refused,
    long_span, refs_result, run_end, sorted_refs, span_plans, table_request_result,
    work_upper_result, LoadedTableSpan, TableSpanPlan,
};
use super::{load_root6_result, GovernedSchema6SeriesRoot, Schema6SeriesReaderError, SeriesSession6};
use crate::bytes::{u16_at, u32_at, u64_at};
use crate::chunk::ChunkIndexRange;
use crate::cold_v2::reader::strictly_increasing;
use crate::v3::classifier::VALID_KIND_MASK;

verus! {

/// Where the table entry of a series begins.
pub open spec fn entry_start(series_ref: u32) -> int {
    64 + 40 * series_ref
}

/// The identity that the table stores for a series.
pub open spec fn stored_id(series: Seq<u8>, series_ref: u32) -> u64 {
    u64_at(series, entry_start(series_ref))
}

/// The kinds that the table stores for a series.
pub open spec fn stored_kinds(series: Seq<u8>, series_ref: u32) -> u8 {
    series[entry_start(series_ref) + 8]
}

/// The chunk-index range that the table stores for a series.
pub open spec fn stored_range(series: Seq<u8>, series_ref: u32) -> ChunkIndexRange {
    ChunkIndexRange {
        offset: u64_at(series, entry_start(series_ref) + 12),
        len: u32_at(series, entry_start(series_ref) + 20),
    }
}

/// The range skips some whole entries behind the directory and then holds some.
pub open spec fn holds_entries(
    range: ChunkIndexRange,
    num_series: u32,
    skipped: nat,
    count: nat,
) -> bool {
    range.offset == 12 + 8 * (num_series + 1) + 40 * skipped && range.len == 40 * count
}

/// The table says of a series what can be true of one: at least one known kind,
/// a keyset of the file, no metadata, and whole entries of the chunk index.
pub open spec fn sound_entry(
    session: SeriesSession6,
    num_series: u32,
    num_keysets: u32,
    series_ref: u32,
) -> bool {
    let series = session.series;
    let at = entry_start(series_ref);
    let range = stored_range(series, series_ref);
    &&& 1 <= series[at + 8] < 32
    &&& series[at + 9] == 0
    &&& u16_at(series, at + 10) == 0
    &&& u32_at(series, at + 24) < num_keysets
    &&& u32_at(series, at + 32) == 0
    &&& u32_at(series, at + 36) == 0
    &&& range.offset + range.len <= session.chunk_index_len
    &&& exists|skipped: nat, count: nat| #[trigger]
        holds_entries(range, num_series, skipped, count)
}

proof fn lemma_known_kinds(kinds: u8)
    ensures
        (kinds == 0 || kinds & !VALID_KIND_MASK != 0) <==> !(1 <= kinds < 32),
{
    assert((kinds == 0 || kinds & !VALID_KIND_MASK != 0) <==> !(1 <= kinds && kinds < 32)) by (bit_vector);
}

proof fn lemma_root_facts(session: SeriesSession6, root: GovernedSchema6SeriesRoot)
    requires
        load_root6_result(session) == Ok::<GovernedSchema6SeriesRoot, Schema6SeriesReaderError>(
            root,
        ),
        session.series.len() <= u64::MAX,
    ensures
        root.value.chunk_index_data_start == 12 + 8 * (root.value.header.num_series + 1),
        root.value.chunk_index_file_len == session.chunk_index_len,
        64 + 40 * root.value.header.num_series <= session.series.len(),
{
}

proof fn lemma_stored_fields(series: Seq<u8>, series_ref: u32)
    requires
        entry_start(series_ref) + 40 <= series.len(),
    ensures
        ({
            let at = entry_start(series_ref);
            let bytes = series.subrange(at, at + 40);
            &&& bytes.len() == 40
            &&& bytes[8] == series[at + 8]
            &&& bytes[9] == series[at + 9]
            &&& u16_at(bytes, 10) == u16_at(series, at + 10)
            &&& u64_at(bytes, 0) == u64_at(series, at)
            &&& u64_at(bytes, 12) == u64_at(series, at + 12)
            &&& u32_at(bytes, 20) == u32_at(series, at + 20)
            &&& u32_at(bytes, 24) == u32_at(series, at + 24)
            &&& u32_at(bytes, 28) == u32_at(series, at + 28)
            &&& u32_at(bytes, 32) == u32_at(series, at + 32)
            &&& u32_at(bytes, 36) == u32_at(series, at + 36)
        }),
{
}

proof fn lemma_whole_entries(range: ChunkIndexRange, num_series: u32)
    ensures
        ({
            let first = 12 + 8 * (num_series + 1);
            (range.offset >= first && (range.offset - first) % 40 == 0 && range.len % 40 == 0)
                <==> exists|skipped: nat, count: nat| #[trigger]
                holds_entries(range, num_series, skipped, count)
        }),
{
    let first = 12 + 8 * (num_series + 1);
    if range.offset >= first && (range.offset - first) % 40 == 0 && range.len % 40 == 0 {
        let skipped = ((range.offset - first) / 40) as nat;
        let count = (range.len / 40) as nat;
        assert(holds_entries(range, num_series, skipped, count));
    }
}

/// A table entry is accepted exactly where it is sound, with the fields that the
/// table stores: any whole number of chunk-index entries, wherever they stand.
pub proof fn sound_entry_law(
    session: SeriesSession6,
    root: GovernedSchema6SeriesRoot,
    series_ref: u32,
)
    requires
        load_root6_result(session) == Ok::<GovernedSchema6SeriesRoot, Schema6SeriesReaderError>(
            root,
        ),
        session.series.len() <= u64::MAX,
        series_ref < root.value.header.num_series,
    ensures
        ({
            let header = root.value.header;
            let entry = entry_of_result(session, root.value, series_ref);
            let at = entry_start(series_ref);
            &&& entry is Ok <==> sound_entry(
                session,
                header.num_series,
                header.num_keysets,
                series_ref,
            )
            &&& entry matches Ok(entry) ==> {
                &&& entry.series_id == stored_id(session.series, series_ref)
                &&& entry.kind_mask == stored_kinds(session.series, series_ref)
                &&& entry.chunk_index == stored_range(session.series, series_ref)
                &&& entry.keyset_id == u32_at(session.series, at + 24)
                &&& entry.row == u32_at(session.series, at + 28)
            }
        }),
{
    lemma_root_facts(session, root);
    lemma_sound_entry(session, root.value, series_ref);
}

proof fn lemma_sound_entry(session: SeriesSession6, root: Schema6SeriesRootV2, series_ref: u32)
    requires
        root.chunk_index_data_start == 12 + 8 * (root.header.num_series + 1),
        root.chunk_index_file_len == session.chunk_index_len,
        entry_start(series_ref) + 40 <= session.series.len(),
    ensures
        ({
            let entry = entry_of_result(session, root, series_ref);
            let at = entry_start(series_ref);
            &&& entry is Ok <==> sound_entry(
                session,
                root.header.num_series,
                root.header.num_keysets,
                series_ref,
            )
            &&& entry matches Ok(entry) ==> {
                &&& entry.series_id == stored_id(session.series, series_ref)
                &&& entry.kind_mask == stored_kinds(session.series, series_ref)
                &&& entry.chunk_index == stored_range(session.series, series_ref)
                &&& entry.keyset_id == u32_at(session.series, at + 24)
                &&& entry.row == u32_at(session.series, at + 28)
            }
        }),
{
    let at = entry_start(series_ref);
    lemma_stored_fields(session.series, series_ref);
    lemma_known_kinds(session.series[at + 8]);
    lemma_whole_entries(stored_range(session.series, series_ref), root.header.num_series);
    let bytes = session.series.subrange(at, at + 40);
    reveal(entry_of_result);
    assert(table_entry_fields(bytes).kind_mask == session.series[at + 8]);
    assert(table_entry_fields(bytes).chunk_index == stored_range(session.series, series_ref));
}

/// A strictly increasing list with one more number.
proof fn lemma_insert(sorted: Seq<u32>, value: u32) -> (grown: Seq<u32>)
    requires
        strictly_increasing(sorted),
    ensures
        strictly_increasing(grown),
        forall|other: u32| #[trigger]
            grown.contains(other) <==> sorted.contains(other) || other == value,
    decreases sorted.len(),
{
    if sorted.len() == 0 || sorted.last() < value {
        let grown = sorted.push(value);
        assert forall|other: u32| #[trigger]
            grown.contains(other) <==> sorted.contains(other) || other == value by {
            if sorted.contains(other) {
                assert(grown[sorted.index_of(other)] == other);
            }
            assert(grown[sorted.len() as int] == value);
        }
        grown
    } else if sorted.last() == value {
        assert(sorted[sorted.len() - 1] == value);
        sorted
    } else {
        let start = sorted.drop_last();
        let inner = lemma_insert(start, value);
        let grown = inner.push(sorted.last());
        assert forall|i: int, j: int| 0 <= i < j < grown.len() implies grown[i] < grown[j] by {
            if j == inner.len() {
                assert(inner.contains(inner[i]));
                if start.contains(inner[i]) {
                    assert(sorted[start.index_of(inner[i])] < sorted[sorted.len() - 1]);
                }
            }
        }
        assert forall|other: u32| #[trigger]
            grown.contains(other) <==> sorted.contains(other) || other == value by {
            if grown.contains(other) {
                let at = grown.index_of(other);
                if at < inner.len() {
                    assert(inner[at] == other);
                    assert(inner.contains(other));
                    if start.contains(other) {
                        assert(sorted[start.index_of(other)] == other);
                    }
                } else {
                    assert(sorted[sorted.len() - 1] == other);
                }
            }
            if sorted.contains(other) || other == value {
                if sorted.contains(other) && sorted.index_of(other) == sorted.len() - 1 {
                    assert(grown[inner.len() as int] == other);
                } else {
                    if sorted.contains(other) {
                        assert(start[sorted.index_of(other)] == other);
                        assert(start.contains(other));
                    }
                    assert(inner.contains(other));
                    assert(grown[inner.index_of(other)] == other);
                }
            }
        }
        grown
    }
}

/// Every request can be sorted.
proof fn lemma_sorted(refs: Seq<u32>)
    ensures
        is_sorted_set(sorted_refs(refs), refs),
{
    let sorted = lemma_sorted_prefix(refs, refs.len());
    assert(refs.take(refs.len() as int) =~= refs);
    assert(is_sorted_set(sorted, refs));
}

proof fn lemma_sorted_prefix(refs: Seq<u32>, n: nat) -> (sorted: Seq<u32>)
    requires
        n <= refs.len(),
    ensures
        is_sorted_set(sorted, refs.take(n as int)),
    decreases n,
{
    if n == 0 {
        Seq::empty()
    } else {
        let before = lemma_sorted_prefix(refs, (n - 1) as nat);
        let sorted = lemma_insert(before, refs[n - 1]);
        let now = refs.take(n as int);
        let earlier = refs.take(n - 1);
        assert forall|value: u32| #[trigger] sorted.contains(value) <==> now.contains(value) by {
            assert(before.contains(value) <==> earlier.contains(value));
            if earlier.contains(value) {
                assert(now[earlier.index_of(value)] == value);
            }
            if now.contains(value) && now.index_of(value) < n - 1 {
                assert(earlier[now.index_of(value)] == value);
            }
            assert(now[n - 1] == refs[n - 1]);
        }
        sorted
    }
}

proof fn lemma_sorted_room(sorted: Seq<u32>, bound: nat, n: nat)
    requires
        strictly_increasing(sorted),
        n <= sorted.len(),
        forall|i: int| 0 <= i < sorted.len() ==> #[trigger] sorted[i] < bound,
    ensures
        n <= bound,
        n > 0 ==> sorted[n - 1] >= n - 1,
    decreases n,
{
    if n > 0 {
        lemma_sorted_room(sorted, bound, (n - 1) as nat);
        if n > 1 {
            assert(sorted[n - 2] < sorted[n - 1]);
        }
        assert(sorted[n - 1] < bound);
    }
}

proof fn lemma_run_inside(sorted: Seq<u32>, i: int)
    requires
        0 < i <= sorted.len(),
    ensures
        i <= run_end(sorted, i) <= sorted.len(),
    decreases sorted.len() - i,
{
    if i < sorted.len() && sorted[i] == sorted[i - 1] + 1 {
        lemma_run_inside(sorted, i + 1);
    }
}

proof fn lemma_short_spans(sorted: Seq<u32>, start: int, p: int)
    requires
        0 <= start <= sorted.len() <= usize::MAX,
        0 <= p < span_plans(sorted, start).len(),
    ensures
        span_plans(sorted, start)[p].entry_count <= sorted.len(),
    decreases sorted.len() - start,
{
    if start < sorted.len() {
        let end = run_end(sorted, start + 1);
        lemma_run_inside(sorted, start + 1);
        if p > 0 {
            lemma_short_spans(sorted, end, p - 1);
        }
    }
}

/// The working set of a request fits the memory of the machine.
pub open spec fn request_fits(count: nat, output_size: nat) -> bool {
    count * (vstd::layout::size_of::<u32>() + vstd::layout::size_of::<TableSpanPlan>()
        + vstd::layout::size_of::<LoadedTableSpan>() + output_size) <= usize::MAX
}

proof fn lemma_request_fits(count: nat, output_size: nat)
    requires
        request_fits(count, output_size),
    ensures
        work_upper_result(output_size, count) is Ok,
{
    let a = vstd::layout::size_of::<u32>();
    let b = vstd::layout::size_of::<TableSpanPlan>();
    let c = vstd::layout::size_of::<LoadedTableSpan>();
    assert(count * (a + b + c + output_size) == count * a + count * b + count * c + count
        * output_size) by (nonlinear_arith);
    assert(count * a >= 0 && count * b >= 0 && count * c >= 0 && count * output_size >= 0)
        by (nonlinear_arith);
}

/// Every requested series exists, and the table says of it what can be true.
pub open spec fn sound_request(
    session: SeriesSession6,
    root: Schema6SeriesRootV2,
    refs: Seq<u32>,
) -> bool {
    forall|i: int|
        0 <= i < refs.len() ==> (#[trigger] refs[i]) < root.header.num_series && sound_entry(
            session,
            root.header.num_series,
            root.header.num_keysets,
            refs[i],
        )
}

pub(super) proof fn lemma_refs_valid(num_series: u32, refs: Seq<u32>, n: nat)
    requires
        n <= refs.len(),
    ensures
        refs_result(num_series, refs, n) is Ok <==> forall|i: int|
            0 <= i < n ==> #[trigger] refs[i] < num_series,
    decreases n,
{
    if n > 0 {
        lemma_refs_valid(num_series, refs, (n - 1) as nat);
    }
}

/// A request that names a series which does not exist is refused by the first
/// such number, and by how many series there are.
pub proof fn missing_series_law(num_series: u32, refs: Seq<u32>, i: int)
    requires
        0 <= i < refs.len(),
        refs[i] >= num_series,
        forall|j: int| 0 <= j < i ==> #[trigger] refs[j] < num_series,
    ensures
        refs_result(num_series, refs, refs.len()) == Err::<(), Schema6SeriesReaderError>(
            Schema6SeriesReaderError::InvalidSeriesRef { series_ref: refs[i], num_series },
        ),
{
    lemma_refs_valid(num_series, refs, i as nat);
    lemma_missing(num_series, refs, i, refs.len());
}

proof fn lemma_missing(num_series: u32, refs: Seq<u32>, i: int, n: nat)
    requires
        0 <= i < n <= refs.len(),
        refs[i] >= num_series,
        refs_result(num_series, refs, i as nat) is Ok,
    ensures
        refs_result(num_series, refs, n) == Err::<(), Schema6SeriesReaderError>(
            Schema6SeriesReaderError::InvalidSeriesRef { series_ref: refs[i], num_series },
        ),
    decreases n,
{
    if i < n - 1 {
        lemma_missing(num_series, refs, i, (n - 1) as nat);
    }
}

/// The smallest refused number of a request, at or below a refused one.
proof fn lemma_refused(
    session: SeriesSession6,
    root: Schema6SeriesRootV2,
    refs: Seq<u32>,
    series_ref: u32,
)
    requires
        refs.contains(series_ref),
        entry_of_result(session, root, series_ref) is Err,
    ensures
        entries_result(session, root, refs) is Err,
    decreases series_ref,
{
    if is_first_refused(session, root, refs, series_ref) {
        lemma_first_refused(session, root, refs, series_ref);
    } else {
        let other = choose|other: u32| #[trigger]
            refs.contains(other) && other < series_ref && entry_of_result(session, root, other)
                is Err;
        lemma_refused(session, root, refs, other);
    }
}

/// The table of a request is read exactly where the request is sound.
pub proof fn sound_table_law(
    session: SeriesSession6,
    root: GovernedSchema6SeriesRoot,
    refs: Seq<u32>,
    output_size: nat,
)
    requires
        load_root6_result(session) == Ok::<GovernedSchema6SeriesRoot, Schema6SeriesReaderError>(
            root,
        ),
        session.series.len() <= usize::MAX,
        request_fits(refs.len(), output_size),
        forall|i: int| 0 <= i < refs.len() ==> #[trigger] refs[i] < root.value.header.num_series,
    ensures
        table_request_result(session, root.value, refs, output_size) is Ok <==> sound_request(
            session,
            root.value,
            refs,
        ),
{
    let num_series = root.value.header.num_series;
    let sorted = sorted_refs(refs);
    lemma_request_fits(refs.len(), output_size);
    lemma_root_facts(session, root);
    lemma_sorted(refs);
    assert forall|i: int| 0 <= i < sorted.len() implies #[trigger] sorted[i] < num_series by {
        assert(sorted.contains(sorted[i]));
        let at = refs.index_of(sorted[i]);
        assert(refs[at] < num_series);
    }
    lemma_sorted_room(sorted, num_series as nat, sorted.len());
    assert forall|p: int| 0 <= p < span_plans(sorted, 0).len() implies (#[trigger] span_plans(
        sorted,
        0,
    )[p]).entry_count * 40 <= usize::MAX by {
        lemma_short_spans(sorted, 0, p);
    }
    assert(!long_span(span_plans(sorted, 0)));
    if sound_request(session, root.value, refs) {
        assert forall|series_ref: u32| !is_first_refused(session, root.value, refs, series_ref) by {
            if refs.contains(series_ref) {
                assert(refs[refs.index_of(series_ref)] == series_ref);
                sound_entry_law(session, root, series_ref);
            }
        }
    } else {
        let i = choose|i: int|
            0 <= i < refs.len() && !((#[trigger] refs[i]) < num_series && sound_entry(
                session,
                num_series,
                root.value.header.num_keysets,
                refs[i],
            ));
        assert(refs[i] < num_series);
        sound_entry_law(session, root, refs[i]);
        assert(refs.contains(refs[i]));
        lemma_refused(session, root.value, refs, refs[i]);
    }
}

/// The chunk index belongs to the segment and stores the same range for every
/// requested series.
pub open spec fn same_ranges(
    session: SeriesSession6,
    directory: ChunkDirectory,
    refs: Seq<u32>,
) -> bool {
    forall|i: int|
        0 <= i < refs.len() ==> (#[trigger] refs[i]) < directory.ranges.len()
            && directory.ranges[refs[i] as int] == stored_range(session.series, refs[i])
}

proof fn lemma_same_ranges(
    session: SeriesSession6,
    root: GovernedSchema6SeriesRoot,
    directory: ChunkDirectory,
    refs: Seq<u32>,
    n: nat,
)
    requires
        load_root6_result(session) == Ok::<GovernedSchema6SeriesRoot, Schema6SeriesReaderError>(
            root,
        ),
        session.series.len() <= usize::MAX,
        sound_request(session, root.value, refs),
        n <= refs.len(),
    ensures
        ranges_result(session, root.value, directory, refs, n) is Ok <==> forall|i: int|
            0 <= i < n ==> (#[trigger] refs[i]) < directory.ranges.len()
                && directory.ranges[refs[i] as int] == stored_range(session.series, refs[i]),
    decreases n,
{
    if n > 0 {
        lemma_same_ranges(session, root, directory, refs, (n - 1) as nat);
        assert(refs[n - 1] < root.value.header.num_series);
        sound_entry_law(session, root, refs[n - 1]);
    }
}

/// Root and chunk index are those of the session, for the same number of series.
pub open spec fn same_segment(
    session: SeriesSession6,
    root: GovernedSchema6SeriesRoot,
    directory: ChunkDirectory,
) -> bool {
    &&& session.generation == root.generation == directory.generation == directory.root.generation
    &&& directory.root.num_series == root.value.header.num_series
}

/// A routing request succeeds exactly where everything belongs to one segment,
/// the table is sound for every requested series, and the chunk index stores the
/// same ranges. Then series `i` of the answer has the kinds and the range that
/// the table stores for series `i` of the request.
pub proof fn routed_request_law(
    session: SeriesSession6,
    root: GovernedSchema6SeriesRoot,
    directory: ChunkDirectory,
    refs: Seq<u32>,
)
    requires
        load_root6_result(session) == Ok::<GovernedSchema6SeriesRoot, Schema6SeriesReaderError>(
            root,
        ),
        session.series.len() <= usize::MAX,
        request_fits(refs.len(), vstd::layout::size_of::<(u32, Schema6SeriesRoutingMetadata)>()),
    ensures
        ({
            let routing = routing_result(session, root, directory, refs);
            &&& routing is Ok <==> same_segment(session, root, directory) && sound_request(
                session,
                root.value,
                refs,
            ) && same_ranges(session, directory, refs)
            &&& routing matches Ok(values) ==> {
                &&& values.len() == refs.len()
                &&& forall|i: int|
                    0 <= i < refs.len() ==> {
                        &&& (#[trigger] values[i]).0 == refs[i]
                        &&& values[i].1.kind_mask == stored_kinds(session.series, refs[i])
                        &&& values[i].1.chunk_index == stored_range(session.series, refs[i])
                    }
            }
        }),
{
    let num_series = root.value.header.num_series;
    lemma_refs_valid(num_series, refs, refs.len());
    if refs_result(num_series, refs, refs.len()) is Ok {
        sound_table_law(
            session,
            root,
            refs,
            vstd::layout::size_of::<(u32, Schema6SeriesRoutingMetadata)>(),
        );
        if sound_request(session, root.value, refs) {
            lemma_same_ranges(session, root, directory, refs, refs.len());
            assert forall|i: int| 0 <= i < refs.len() implies {
                let entry = #[trigger] entry_of_result(session, root.value, refs[i]);
                entry is Ok && entry->Ok_0.kind_mask == stored_kinds(session.series, refs[i])
                    && entry->Ok_0.chunk_index == stored_range(session.series, refs[i])
            } by {
                sound_entry_law(session, root, refs[i]);
            }
        }
    } else {
        assert(!sound_request(session, root.value, refs));
    }
}

} // verus!
