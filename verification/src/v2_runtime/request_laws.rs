//! Which requests to a session of schema 6 are admitted, and how.

use vstd::prelude::*;

use super::chunk_index::ChunkDirectory;
use super::guard::{read_within, root_within, table_admission_result};
use super::root::Schema6SeriesRootV2;
use super::table::{refs_result, work_upper_result};
use super::{GovernedSchema6SeriesRoot, Schema6SeriesReaderError, SeriesSession6};
use crate::budget::answered;
use crate::health::ArtifactHealth;
use crate::symbols::Symbols;

verus! {

proof fn lemma_refs(num_series: u32, refs: Seq<u32>, n: nat)
    requires
        n <= refs.len(),
    ensures
        refs_result(num_series, refs, n) is Ok <==> forall|i: int|
            0 <= i < n ==> #[trigger] refs[i] < num_series,
    decreases n,
{
    if n > 0 {
        lemma_refs(num_series, refs, (n - 1) as nat);
        if refs_result(num_series, refs, n) is Ok {
            assert forall|i: int| 0 <= i < n implies #[trigger] refs[i] < num_series by {
                if i == n - 1 {
                }
            }
        } else if refs_result(num_series, refs, (n - 1) as nat) is Ok {
            assert(refs[n - 1] >= num_series);
        }
    }
}

/// A request is admitted exactly when root, chunk index and symbols are of the session's
/// generation, the index has as many series as the root, the root has every series that is asked
/// for, and the bytes to declare can be counted; those are declared.
pub proof fn admitted_request_law(
    session: SeriesSession6,
    root: GovernedSchema6SeriesRoot,
    directory: ChunkDirectory,
    symbols: Option<Symbols>,
    refs: Seq<u32>,
    output_size: nat,
)
    ensures
        ({
            let num_series = root.value.header.num_series;
            let declared = work_upper_result(output_size, refs.len());
            let admission = table_admission_result(
                session,
                root,
                directory,
                symbols,
                refs,
                output_size,
            );
            &&& admission is Ok <==> {
                &&& root.generation == session.generation
                &&& directory.generation == session.generation
                &&& directory.root.generation == session.generation
                &&& directory.root.num_series == num_series
                &&& symbols matches Some(symbols) ==> symbols.generation == session.generation
                &&& forall|i: int| 0 <= i < refs.len() ==> #[trigger] refs[i] < num_series
                &&& declared is Ok
            }
            &&& admission is Ok ==> admission->Ok_0 == declared->Ok_0
        }),
{
    lemma_refs(root.value.header.num_series, refs, refs.len());
}

/// The bytes that a request declares are asked for once, before anything is read: where they are
/// refused the error names them, and where they are granted a known fault of the series file is
/// the answer to a request that reads it. A request that was not admitted asks for nothing.
pub proof fn declared_request_law<R: Fn(u64) -> bool, T>(
    reserve: R,
    health: ArtifactHealth,
    admission: Result<u64, Schema6SeriesReaderError>,
    reads: bool,
    result: Result<T, Schema6SeriesReaderError>,
    rest: bool,
)
    requires
        read_within(reserve, health, admission, reads, result, rest),
    ensures
        admission matches Err(error) ==> result == Err::<T, Schema6SeriesReaderError>(error),
        admission matches Ok(declared) ==> {
            &&& !answered(reserve, declared, true) ==> result == Err::<T, Schema6SeriesReaderError>(
                Schema6SeriesReaderError::Budget { requested: declared },
            )
            &&& !answered(reserve, declared, false) && reads && health.series is Some
                ==> result == Err::<T, Schema6SeriesReaderError>(
                Schema6SeriesReaderError::Cache(health.series->Some_0),
            )
            &&& !answered(reserve, declared, false) && (!reads || health.series is None) ==> rest
        },
{
}

/// A known fault of the series file is the answer to loading the root; without one the room of
/// a root is asked for before the root is loaded.
pub proof fn declared_root6_law<R: Fn(u64) -> bool, T>(
    reserve: R,
    health: ArtifactHealth,
    result: Result<T, Schema6SeriesReaderError>,
    loaded: bool,
)
    requires
        root_within(reserve, health, result, loaded),
    ensures
        ({
            let declared = vstd::layout::size_of::<Schema6SeriesRootV2>() as u64;
            &&& health.series matches Some(error) ==> result == Err::<T, Schema6SeriesReaderError>(
                Schema6SeriesReaderError::Cache(error),
            )
            &&& health.series is None && !answered(reserve, declared, true) ==> result == Err::<
                T,
                Schema6SeriesReaderError,
            >(Schema6SeriesReaderError::Budget { requested: declared })
            &&& health.series is None && !answered(reserve, declared, false) ==> loaded
        }),
{
}

} // verus!
