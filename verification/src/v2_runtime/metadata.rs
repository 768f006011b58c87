//! Chunk routing of requested series, without their identities.

use core::mem::size_of;

use vstd::prelude::*;

use super::chunk_index::{
    directory_count_result, directory_generation_result, directory_of, directory_range_result,
    ChunkDirectory, ChunkIndexContext, GovernedSchema6ChunkIndexRoot,
    GovernedSchema6ChunkIndexSession,
};
use super::root::{Schema6SeriesRootV2, SeriesTableEntryV2};
use super::scratch::ran_out6;
use super::table::{entry_of_result, refs_result, table_request_result, work_holds, TableWork};
use super::{
    provenance6_result, GovernedSchema6SeriesRoot, GovernedSchema6SeriesSession,
    Schema6SeriesReaderError, SeriesSession6,
};
use crate::budget::{answers, grants};
use crate::capacity::vec_capacity;
use crate::chunk::ChunkIndexRange;

verus! {

/// What may be consumed of a series before its labels have been verified.
#[derive(Debug, Clone, Copy, PartialEq, Eq, Structural)]
pub struct Schema6SeriesRoutingMetadata {
    pub kind_mask: u8,
    pub chunk_index: ChunkIndexRange,
}

/// Ordered routing output. Duplicate requested series remain duplicate output.
/// Stable series identity is deliberately absent.
#[derive(Debug)]
pub struct GovernedSchema6SeriesMetadata {
    generation: u64,
    values: Vec<(u32, Schema6SeriesRoutingMetadata)>,
    charge: u64,
}

/// Routing output as a sequence.
pub struct RoutingBatch {
    pub generation: u64,
    pub values: Seq<(u32, Schema6SeriesRoutingMetadata)>,
    pub charge: u64,
}

impl View for GovernedSchema6SeriesMetadata {
    type V = RoutingBatch;

    closed spec fn view(&self) -> RoutingBatch {
        RoutingBatch { generation: self.generation, values: self.values@, charge: self.charge }
    }
}

impl GovernedSchema6SeriesMetadata {
    /// The logical bytes of the output, at the capacity of its list.
    pub fn charged_bytes(&self) -> (charge: u64)
        ensures
            charge == self@.charge,
    {
        self.charge
    }
}

/// The root, the chunk index and the request belong together, or the first
/// reason why not.
pub open spec fn request_result(
    session: SeriesSession6,
    root: GovernedSchema6SeriesRoot,
    directory: ChunkDirectory,
) -> Result<(), Schema6SeriesReaderError> {
    if provenance6_result(session, root.generation) is Err {
        provenance6_result(session, root.generation)
    } else if directory_generation_result(directory, session.generation) is Err {
        Err(
            Schema6SeriesReaderError::ChunkIndex(
                directory_generation_result(directory, session.generation)->Err_0,
            ),
        )
    } else if directory_count_result(directory, root.value.header.num_series) is Err {
        Err(
            Schema6SeriesReaderError::ChunkIndex(
                directory_count_result(directory, root.value.header.num_series)->Err_0,
            ),
        )
    } else {
        Ok(())
    }
}

/// The entry of a requested series, once all entries are known to be valid.
pub open spec fn valid_entry(session: SeriesSession6, root: Schema6SeriesRootV2, series_ref: u32) -> SeriesTableEntryV2 {
    entry_of_result(session, root, series_ref)->Ok_0
}

/// The chunk ranges of the first `n` requested series are their own, or the
/// first error.
pub open spec fn ranges_result(
    session: SeriesSession6,
    root: Schema6SeriesRootV2,
    directory: ChunkDirectory,
    refs: Seq<u32>,
    n: nat,
) -> Result<(), Schema6SeriesReaderError>
    decreases n,
{
    if n == 0 {
        Ok(())
    } else {
        match ranges_result(session, root, directory, refs, (n - 1) as nat) {
            Err(error) => Err(error),
            Ok(_) => match directory_range_result(
                directory,
                refs[n - 1],
                valid_entry(session, root, refs[n - 1]).chunk_index,
            ) {
                Err(error) => Err(Schema6SeriesReaderError::ChunkIndex(error)),
                Ok(_) => Ok(()),
            },
        }
    }
}

pub proof fn lemma_ranges_error(
    session: SeriesSession6,
    root: Schema6SeriesRootV2,
    directory: ChunkDirectory,
    refs: Seq<u32>,
    n: nat,
    m: nat,
)
    requires
        n <= m,
        ranges_result(session, root, directory, refs, n) is Err,
    ensures
        ranges_result(session, root, directory, refs, m) == ranges_result(
            session,
            root,
            directory,
            refs,
            n,
        ),
    decreases m,
{
    if n < m {
        lemma_ranges_error(session, root, directory, refs, n, (m - 1) as nat);
    }
}

/// The routing of requested series.
pub open spec fn routing_result(
    session: SeriesSession6,
    root: GovernedSchema6SeriesRoot,
    directory: ChunkDirectory,
    refs: Seq<u32>,
) -> Result<Seq<(u32, Schema6SeriesRoutingMetadata)>, Schema6SeriesReaderError> {
    let table = table_request_result(
        session,
        root.value,
        refs,
        vstd::layout::size_of::<(u32, Schema6SeriesRoutingMetadata)>(),
    );
    let ranges = ranges_result(session, root.value, directory, refs, refs.len());
    if request_result(session, root, directory) is Err {
        Err(request_result(session, root, directory)->Err_0)
    } else if refs_result(root.value.header.num_series, refs, refs.len()) is Err {
        Err(refs_result(root.value.header.num_series, refs, refs.len())->Err_0)
    } else if table is Err {
        Err(table->Err_0)
    } else if ranges is Err {
        Err(ranges->Err_0)
    } else {
        Ok(routing_of(session, root.value, refs))
    }
}

/// Every requested series with its routing, in the order of the request.
pub open spec fn routing_of(
    session: SeriesSession6,
    root: Schema6SeriesRootV2,
    refs: Seq<u32>,
) -> Seq<(u32, Schema6SeriesRoutingMetadata)> {
    Seq::new(
        refs.len(),
        |i: int|
            (
                refs[i],
                Schema6SeriesRoutingMetadata {
                    kind_mask: valid_entry(session, root, refs[i]).kind_mask,
                    chunk_index: valid_entry(session, root, refs[i]).chunk_index,
                },
            ),
    )
}

impl<'a> GovernedSchema6SeriesSession<'a> {
    /// Checks that the root and the chunk index belong to this session.
    pub(super) fn bind_request(
        &self,
        root: &GovernedSchema6SeriesRoot,
        chunk_index: ChunkIndexContext<'_>,
    ) -> (result: Result<(), Schema6SeriesReaderError>)
        ensures
            result == request_result(self@, *root, chunk_index@),
    {
        self.ensure_provenance(root.generation)?;
        match chunk_index.ensure_same_generation(self.artifacts.generation) {
            Ok(_) => {},
            Err(error) => {
                return Err(Schema6SeriesReaderError::ChunkIndex(error));
            },
        }
        match chunk_index.bind_series_count(root.num_series()) {
            Ok(_) => Ok(()),
            Err(error) => Err(Schema6SeriesReaderError::ChunkIndex(error)),
        }
    }

    /// The valid entry of a requested series, whose chunk range is its own.
    pub(super) fn routed_entry(
        &self,
        root: &GovernedSchema6SeriesRoot,
        chunk_index: ChunkIndexContext<'_>,
        work: &TableWork,
        series_refs: &[u32],
        i: usize,
    ) -> (result: Result<SeriesTableEntryV2, Schema6SeriesReaderError>)
        requires
            work_holds(self@, root.value, series_refs@, *work),
            i < series_refs@.len(),
            ranges_result(self@, root.value, chunk_index@, series_refs@, i as nat) is Ok,
        ensures
            match ranges_result(
                self@,
                root.value,
                chunk_index@,
                series_refs@,
                (i + 1) as nat,
            ) {
                Ok(_) => result == Ok::<SeriesTableEntryV2, Schema6SeriesReaderError>(
                    valid_entry(self@, root.value, series_refs@[i as int]),
                ),
                Err(error) => result == Err::<SeriesTableEntryV2, Schema6SeriesReaderError>(
                    error,
                ),
            },
    {
        let series_ref: u32 = series_refs[i];
        assert(series_refs@.contains(series_ref));
        let entry = self.requested_entry(root, work, series_ref, Ghost(series_refs@))?;
        match chunk_index.validate_series_range(series_ref, entry.chunk_index) {
            Ok(_) => Ok(entry),
            Err(error) => Err(Schema6SeriesReaderError::ChunkIndex(error)),
        }
    }

    /// Reads the chunk routing of requested series.
    pub fn read_metadata_entries(
        &self,
        root: &GovernedSchema6SeriesRoot,
        chunk_index: &GovernedSchema6ChunkIndexSession,
        chunk_index_root: &GovernedSchema6ChunkIndexRoot,
        series_refs: &[u32],
    ) -> (result: Result<GovernedSchema6SeriesMetadata, Schema6SeriesReaderError>)
        requires
            root.of(self@),
        ensures
            match routing_result(
                self@,
                *root,
                directory_of(chunk_index@, *chunk_index_root),
                series_refs@,
            ) {
                Err(error) => result == Err::<
                    GovernedSchema6SeriesMetadata,
                    Schema6SeriesReaderError,
                >(error),
                Ok(values) => result is Ok && result->Ok_0@.generation == self@.generation
                    && result->Ok_0@.values == values,
            },
            result matches Ok(metadata) ==> exists|capacity: usize|
                capacity >= metadata@.values.len() && metadata@.charge == #[trigger] (capacity
                    * vstd::layout::size_of::<(u32, Schema6SeriesRoutingMetadata)>()),
    {
        self.read_metadata_entries_within(
            root,
            ChunkIndexContext::new(chunk_index, chunk_index_root),
            series_refs,
            &grants,
        )
    }

    /// Reads the chunk routing of requested series with memory that is asked for.
    pub(super) fn read_metadata_entries_within<R: Fn(u64) -> bool>(
        &self,
        root: &GovernedSchema6SeriesRoot,
        chunk_index: ChunkIndexContext<'_>,
        series_refs: &[u32],
        reserve: &R,
    ) -> (result: Result<GovernedSchema6SeriesMetadata, Schema6SeriesReaderError>)
        requires
            root.of(self@),
            answers(*reserve),
        ensures
            ran_out6(*reserve, result) || match routing_result(
                self@,
                *root,
                chunk_index@,
                series_refs@,
            ) {
                Err(error) => result == Err::<
                    GovernedSchema6SeriesMetadata,
                    Schema6SeriesReaderError,
                >(error),
                Ok(values) => result is Ok && result->Ok_0@.generation == self@.generation
                    && result->Ok_0@.values == values,
            },
            result matches Ok(metadata) ==> exists|capacity: usize|
                capacity >= metadata@.values.len() && metadata@.charge == #[trigger] (capacity
                    * vstd::layout::size_of::<(u32, Schema6SeriesRoutingMetadata)>()),
    {
        self.bind_request(root, chunk_index)?;
        self.validate_series_refs(root, series_refs)?;
        let work = self.request_table::<(u32, Schema6SeriesRoutingMetadata)>(
            root,
            series_refs,
            reserve,
        )?;
        let mut values: Vec<(u32, Schema6SeriesRoutingMetadata)> = Vec::with_capacity(
            series_refs.len(),
        );
        let ghost expected = routing_of(self@, root.value, series_refs@);
        let mut i: usize = 0;
        assert(values@ =~= expected.take(0));
        while i < series_refs.len()
            invariant
                i <= series_refs@.len(),
                work_holds(self@, root.value, series_refs@, work),
                expected == routing_of(self@, root.value, series_refs@),
                values@ == expected.take(i as int),
                ranges_result(self@, root.value, chunk_index@, series_refs@, i as nat) is Ok,
                ranges_result(
                    self@,
                    root.value,
                    chunk_index@,
                    series_refs@,
                    series_refs@.len(),
                ) is Err ==> routing_result(self@, *root, chunk_index@, series_refs@) == Err::<
                    Seq<(u32, Schema6SeriesRoutingMetadata)>,
                    Schema6SeriesReaderError,
                >(
                    ranges_result(
                        self@,
                        root.value,
                        chunk_index@,
                        series_refs@,
                        series_refs@.len(),
                    )->Err_0,
                ),
            decreases series_refs@.len() - i,
        {
            proof {
                let next = (i + 1) as nat;
                if ranges_result(self@, root.value, chunk_index@, series_refs@, next) is Err {
                    lemma_ranges_error(
                        self@,
                        root.value,
                        chunk_index@,
                        series_refs@,
                        next,
                        series_refs@.len(),
                    );
                }
            }
            let entry = self.routed_entry(root, chunk_index, &work, series_refs, i)?;
            values.push(
                (
                    series_refs[i],
                    Schema6SeriesRoutingMetadata {
                        kind_mask: entry.kind_mask,
                        chunk_index: entry.chunk_index,
                    },
                ),
            );
            assert(values@ =~= expected.take(i + 1));
            i += 1;
        }
        assert(expected.take(i as int) =~= expected);
        let capacity: usize = vec_capacity(&values);
        let charge: u64 = (capacity * size_of::<(u32, Schema6SeriesRoutingMetadata)>()) as u64;
        Ok(
            GovernedSchema6SeriesMetadata {
                generation: self.artifacts.generation,
                values,
                charge,
            },
        )
    }

    /// The routing output of this generation.
    pub fn routing_entries<'b>(&self, values: &'b GovernedSchema6SeriesMetadata) -> (result: Result<
        &'b [(u32, Schema6SeriesRoutingMetadata)],
        Schema6SeriesReaderError,
    >)
        ensures
            match provenance6_result(self@, values@.generation) {
                Err(error) => result == Err::<
                    &'b [(u32, Schema6SeriesRoutingMetadata)],
                    Schema6SeriesReaderError,
                >(error),
                Ok(_) => result is Ok && result->Ok_0@ == values@.values,
            },
    {
        self.ensure_provenance(values.generation)?;
        Ok(&values.values)
    }
}

} // verus!
