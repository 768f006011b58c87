//! Which requests to a session are admitted, and what is asked for on their behalf.

use vstd::prelude::*;

use super::guard::{
    blob_request_result, cached_request_result, cold_request_result, declared_blob_result,
    declared_hot_result, declared_overflow_root, hot_request_result, loaded_within,
    locators_scratch_result, plan_scratch_result, row_request_result,
};
use super::{
    batch_bytes_result, provenance_result, BoundRoots, MetadataSession, Schema7MetadataReaderError,
};
use crate::budget::answered;
use crate::chunk::overflow::ChunkOverflowRootV2;
use crate::error::Error;
use crate::health::{ArtifactHealth, SegmentFile};
use crate::symbols::Symbols;
use crate::v3::reader::{
    ChunkLocatorSource, PlannedSeries, ValidatedOverflowBlob, ValidatedSeriesHotPage,
};
use crate::v3::root::{declared_root_result, SeriesRootV3};

verus! {

/// A page can be asked for exactly when the roots are of the session's generation and their
/// directory lists it, a blob exactly when roots and plan are and the series has one, a row
/// exactly when roots, plan and symbols are.
pub proof fn admitted_page_request_law(
    session: MetadataSession,
    roots: BoundRoots,
    page_index: u32,
    generation: u64,
    context_generation: u64,
    planned: PlannedSeries,
    symbols: Symbols,
)
    ensures
        provenance_result(session, generation) is Ok <==> session.generation == generation,
        hot_request_result(session, roots, page_index) is Ok <==> session.generation
            == roots.generation && page_index < roots.series.hot.len(),
        cold_request_result(session, roots, page_index) is Ok <==> session.generation
            == roots.generation && page_index < roots.series.cold.len(),
        blob_request_result(session, roots, generation, planned) is Ok <==> {
            &&& session.generation == roots.generation
            &&& session.generation == generation
            &&& planned.chunks is Overflow
        },
        row_request_result(session, roots, symbols, generation) is Ok <==> {
            &&& session.generation == roots.generation
            &&& session.generation == generation
            &&& session.generation == symbols.generation
        },
        cached_request_result(session, roots, symbols, context_generation, generation) is Ok <==> {
            &&& session.generation == roots.generation
            &&& session.generation == context_generation
            &&& session.generation == generation
            &&& session.generation == symbols.generation
        },
        hot_request_result(session, roots, page_index) matches Err(error) ==> error !is Cache,
        cold_request_result(session, roots, page_index) matches Err(error) ==> error !is Cache,
        blob_request_result(session, roots, generation, planned) matches Err(error) ==> error
            !is Cache,
        row_request_result(session, roots, symbols, generation) matches Err(error) ==> error
            !is Cache,
{
}

/// What is asked for is what will be held: a fixed part and the bytes of a page, blob or root,
/// or the lists that are handed out.
pub proof fn declared_amount_law(
    session: MetadataSession,
    roots: BoundRoots,
    generation: u64,
    planned: PlannedSeries,
    count: nat,
    root_len: u64,
)
    ensures
        declared_hot_result() matches Ok(bytes) ==> bytes == vstd::layout::size_of::<
            ValidatedSeriesHotPage,
        >() + 16_384,
        declared_hot_result() is Ok <==> vstd::layout::size_of::<ValidatedSeriesHotPage>() + 16_384
            <= usize::MAX,
        planned.chunks matches ChunkLocatorSource::Overflow { locator, .. } ==> {
            let declared = declared_blob_result(planned);
            let bytes = vstd::layout::size_of::<ValidatedOverflowBlob>() + locator.blob_len;
            let locators = locators_scratch_result(session, roots, generation, planned);
            &&& declared is Ok <==> bytes <= usize::MAX
            &&& declared is Ok ==> declared->Ok_0 == bytes
            &&& session.generation == roots.generation && session.generation == generation
                ==> locators == batch_bytes_result(locator.chunk_count as nat, 1)
        },
        session.generation == roots.generation ==> {
            let scratch = plan_scratch_result(session, roots, count);
            let bytes = count * vstd::layout::size_of::<PlannedSeries>();
            &&& scratch is Ok <==> bytes <= usize::MAX
            &&& scratch is Ok ==> scratch->Ok_0 == bytes
        },
        session.generation != roots.generation ==> plan_scratch_result(
            session,
            roots,
            count,
        ) is Err,
        declared_root_result(root_len) matches Ok(bytes) ==> bytes == vstd::layout::size_of::<
            SeriesRootV3,
        >() + root_len,
        declared_root_result(root_len) is Ok <==> vstd::layout::size_of::<SeriesRootV3>() + root_len
            <= u64::MAX,
        declared_overflow_root() is Ok,
        declared_overflow_root()->Ok_0 == vstd::layout::size_of::<ChunkOverflowRootV2>() as u64,
{
}

/// Before a load, a declared amount that cannot be counted is the error of the artifact, then a
/// known fault of it is the answer, then the amount is asked for: where it is refused the error
/// names it, and where it is granted the load follows.
pub proof fn declared_load_law<R: Fn(u64) -> bool, T>(
    reserve: R,
    health: ArtifactHealth,
    file: SegmentFile,
    declared: Result<u64, Error>,
    result: Result<T, Schema7MetadataReaderError>,
    loaded: bool,
)
    requires
        loaded_within(reserve, health, file, declared, result, loaded),
    ensures
        declared matches Err(error) ==> {
            &&& result matches Err(Schema7MetadataReaderError::Cache(fault))
            &&& fault.error == error
            &&& fault.files.has(file)
        },
        declared is Ok && health.fault_of(file) is Some ==> {
            &&& result matches Err(Schema7MetadataReaderError::Cache(fault))
            &&& fault.error == health.fault_of(file)->Some_0
            &&& fault.files.has(file)
        },
        declared matches Ok(bytes) ==> health.fault_of(file) is None ==> {
            &&& !answered(reserve, bytes, true) ==> result == Err::<T, Schema7MetadataReaderError>(
                Schema7MetadataReaderError::Budget { requested: bytes },
            )
            &&& !answered(reserve, bytes, false) ==> loaded
        },
{
}

} // verus!
