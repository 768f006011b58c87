//! A query session that keeps the faults it meets.

use core::mem::size_of;
use core::ops::Range;

use vstd::prelude::*;

use super::cached::{cached_row_result, Schema7MaterializationContext};
use super::cold::{cold_range_result, GovernedColdRange};
use super::labels::{symbol_result, symbolic, CanonicalLabelSelection};
use super::materialize::{
    encoded_series_outcome, series_outcome, series_row_result, GovernedVerifiedEncodedSeries,
    GovernedVerifiedSeries,
};
use super::overflow::{load_blob_result, plan_overflow_result, GovernedChunkLocatorBatch};
use super::profile::{advances, CanonicalLabelMaterializationProfile};
use super::roots::{
    bind_roots_result, hot_page_result, load_cold_page_result, load_roots_result,
    plan_hot_result, GovernedPlannedSeries, GovernedPlannedSeriesRef,
};
use super::scratch::{ran_out, refused, reserve_series_scratch};
use super::{
    batch_bytes_result, checked_batch_bytes, checked_vec_bytes, open_result, planning,
    planning_error, provenance_result, record_in, recorded_in, root_len_result, session_of,
    vec_bytes_result,
    BoundRoots, BoundSchema7Roots, MetadataSession, Schema7MetadataReader,
    Schema7MetadataReaderError, Schema7MetadataSession, Schema7RootPins, SegmentArtifacts,
};
use crate::budget::{answers, reserved_first};
use crate::chunk::overflow::ChunkOverflowRootV2;
use crate::error::Error;
use crate::health::{ArtifactFault, ArtifactHealth, FaultyFiles, SegmentFile};
use crate::symbols::{hashes_all, symbol_generation_result, GovernedSymbolSession, Symbols};
use crate::v3::cold_reader::{cold_charge_result, ValidatedSeriesColdPage};
use crate::v3::reader::{
    raw_charge_result, ChunkLocatorSource, PlannedSeries, ValidatedOverflowBlob,
    ValidatedSeriesHotPage,
};
use crate::v3::root::{declared_root_result, SeriesRootV3};
use crate::v3::root_binding::Schema7RootBindingContext;

verus! {

/// A read of an artifact is admitted, or refused with the fault that is known.
pub open spec fn refusal_result(health: ArtifactHealth, file: SegmentFile) -> Result<
    (),
    Schema7MetadataReaderError,
> {
    match health.refusal(file) {
        Ok(_) => Ok(()),
        Err(fault) => Err(Schema7MetadataReaderError::Cache(fault)),
    }
}

/// What an operation gives: the error of a request that names nothing to read,
/// then the fault of the artifact that it would read, then its own result.
pub open spec fn guarded<T>(
    health: ArtifactHealth,
    file: SegmentFile,
    request: Result<(), Schema7MetadataReaderError>,
    result: Result<T, Schema7MetadataReaderError>,
) -> Result<T, Schema7MetadataReaderError> {
    if request is Err {
        Err(request->Err_0)
    } else if refusal_result(health, file) is Err {
        Err(refusal_result(health, file)->Err_0)
    } else {
        result
    }
}

/// A request names something to read from the series artifact, and no fault of
/// the artifact is known.
pub open spec fn request_admitted(
    health: ArtifactHealth,
    request: Result<(), Schema7MetadataReaderError>,
) -> bool {
    request is Ok && refusal_result(health, SegmentFile::Series) is Ok
}

/// What is known of the artifacts after an operation.
pub open spec fn settled<T>(
    health: ArtifactHealth,
    result: Result<T, Schema7MetadataReaderError>,
) -> ArtifactHealth {
    match result {
        Err(Schema7MetadataReaderError::Cache(fault)) => health.with(fault),
        _ => health,
    }
}

/// Keeps the fault that an operation met.
pub fn settle<T>(
    health: &mut ArtifactHealth,
    result: Result<T, Schema7MetadataReaderError>,
) -> (returned: Result<T, Schema7MetadataReaderError>)
    ensures
        returned == result,
        *final(health) == settled(*old(health), result),
{
    if let Err(Schema7MetadataReaderError::Cache(fault)) = &result {
        health.record(*fault);
    }
    result
}

/// Admits a read of an artifact, or refuses it with the fault that is known.
pub fn check_read(health: &ArtifactHealth, file: SegmentFile) -> (result: Result<
    (),
    Schema7MetadataReaderError,
>)
    ensures
        result == refusal_result(*health, file),
{
    match health.check_readable(file) {
        Ok(_) => Ok(()),
        Err(fault) => Err(Schema7MetadataReaderError::Cache(fault)),
    }
}

/// Once a fault is known, no result changes it, and no operation reads the
/// artifact again.
pub proof fn sticky_refusal_law<T, U>(
    health: ArtifactHealth,
    file: SegmentFile,
    first: Result<T, Schema7MetadataReaderError>,
    request: Result<(), Schema7MetadataReaderError>,
    second: Result<U, Schema7MetadataReaderError>,
)
    requires
        first matches Err(Schema7MetadataReaderError::Cache(fault)) && fault.files.has(file)
            && fault.error.kind !is OutOfMemory,
    ensures
        guarded(settled(health, first), file, request, second) is Err,
        refusal_result(settled(settled(health, first), second), file) == refusal_result(
            settled(health, first),
            file,
        ),
{
}

/// An error that is not about the bytes of an artifact leaves every artifact
/// readable that was.
pub proof fn harmless_error_law<T>(
    health: ArtifactHealth,
    result: Result<T, Schema7MetadataReaderError>,
)
    requires
        result !is Err || result->Err_0 !is Cache,
    ensures
        settled(health, result) == health,
{
}

/// Refusing a read records nothing new.
pub proof fn refused_read_law<T>(
    health: ArtifactHealth,
    file: SegmentFile,
    request: Result<(), Schema7MetadataReaderError>,
    result: Result<T, Schema7MetadataReaderError>,
)
    requires
        request matches Err(error) ==> error !is Cache,
        request is Err || refusal_result(health, file) is Err,
    ensures
        settled(health, guarded(health, file, request, result)) == health,
{
}

/// The first fault of an artifact is the error of every later read of it; without one, a sound
/// request gets what the operation gives, and an unsound request its own error in either case.
pub proof fn recorded_error_law<T>(
    health: ArtifactHealth,
    fault: ArtifactFault,
    file: SegmentFile,
    request: Result<(), Schema7MetadataReaderError>,
    result: Result<T, Schema7MetadataReaderError>,
)
    ensures
        health.fault_of(file) is None && fault.files.has(file) && fault.error.kind !is OutOfMemory
            && request is Ok ==> {
            let later = guarded(
                settled(health, Err::<(), _>(Schema7MetadataReaderError::Cache(fault))),
                file,
                request,
                result,
            );
            &&& later matches Err(Schema7MetadataReaderError::Cache(known))
            &&& known.error == fault.error
            &&& known.files.has(file)
        },
        request is Ok && health.fault_of(file) is None ==> guarded(health, file, request, result)
            == result,
        request matches Err(error) ==> guarded(health, file, request, result) == Err::<
            T,
            Schema7MetadataReaderError,
        >(error),
        request_admitted(health, request) <==> request is Ok && health.series is None,
{
}

/// Whether the series root cannot be loaded.
pub open spec fn series_root_faulty(session: MetadataSession) -> bool {
    load_roots_result(session) matches Err(Schema7MetadataReaderError::Cache(fault))
        && fault.files is Series
}

/// The bytes that are asked for before the overflow root is loaded.
pub open spec fn declared_overflow_root() -> Result<u64, Error> {
    Ok(vstd::layout::size_of::<ChunkOverflowRootV2>() as u64)
}

/// What opening a segment gives. The lengths of the artifacts are checked before
/// anything is read, and the header of the segment before a root is.
pub open spec fn opened_within<R: Fn(u64) -> bool, T>(
    reserve: R,
    health: ArtifactHealth,
    artifacts: SegmentArtifacts,
    context: Schema7RootBindingContext,
    result: Result<T, Schema7MetadataReaderError>,
    opened: bool,
) -> bool {
    let series_fault = open_result(artifacts, context) matches Err(
        Schema7MetadataReaderError::Cache(fault),
    ) && fault.files is Series;
    let refusal = refusal_result(health, SegmentFile::Series);
    if artifacts.series@.len() != context.series_file_len || artifacts.chunk_index@.len()
        != context.chunk_index_file_len {
        opened
    } else if refusal is Err {
        result == Err::<T, Schema7MetadataReaderError>(refusal->Err_0)
    } else {
        match root_len_result(artifacts, context) {
            Err(error) => result == Err::<T, Schema7MetadataReaderError>(error),
            Ok(root_len) => loaded_within(
                reserve,
                health,
                SegmentFile::Series,
                declared_root_result(root_len),
                result,
                series_fault && opened || !series_fault && loaded_within(
                    reserve,
                    health,
                    SegmentFile::ChunkIndex,
                    declared_overflow_root(),
                    result,
                    opened,
                ),
            ),
        }
    }
}

/// A request of a hot page names one of this generation.
pub open spec fn hot_request_result(
    session: MetadataSession,
    roots: BoundRoots,
    page_index: u32,
) -> Result<(), Schema7MetadataReaderError> {
    if provenance_result(session, roots.generation) is Err {
        provenance_result(session, roots.generation)
    } else if page_index >= roots.series.hot.len() {
        Err(planning("schema-7 hot page index is out of range"))
    } else {
        Ok(())
    }
}

/// The bytes that a request of plans asks for: those of as many plans as series
/// are selected.
pub open spec fn plan_scratch_result(session: MetadataSession, roots: BoundRoots, count: nat) -> Result<
    u64,
    Schema7MetadataReaderError,
> {
    match provenance_result(session, roots.generation) {
        Err(error) => Err(error),
        Ok(_) => vec_bytes_result(
            vstd::layout::size_of::<PlannedSeries>(),
            count,
            "schema-7 planned-series allocation charge overflows",
        ),
    }
}

/// A request of a cold page names one of this generation.
pub open spec fn cold_request_result(
    session: MetadataSession,
    roots: BoundRoots,
    page_index: u32,
) -> Result<(), Schema7MetadataReaderError> {
    if provenance_result(session, roots.generation) is Err {
        provenance_result(session, roots.generation)
    } else if page_index >= roots.series.cold.len() {
        Err(planning("schema-7 cold page index is out of range"))
    } else {
        Ok(())
    }
}

/// A request of a blob names a series of this generation that has one.
pub open spec fn blob_request_result(
    session: MetadataSession,
    roots: BoundRoots,
    planned_generation: u64,
    planned: PlannedSeries,
) -> Result<(), Schema7MetadataReaderError> {
    if provenance_result(session, roots.generation) is Err {
        provenance_result(session, roots.generation)
    } else if provenance_result(session, planned_generation) is Err {
        provenance_result(session, planned_generation)
    } else if planned.chunks is Inline {
        Err(planning("schema-7 inline series has no overflow blob"))
    } else {
        Ok(())
    }
}

/// The bytes that a request of locators asks for: those of as many locators as
/// the blob has chunks, and of one span.
pub open spec fn locators_scratch_result(
    session: MetadataSession,
    roots: BoundRoots,
    planned_generation: u64,
    planned: PlannedSeries,
) -> Result<u64, Schema7MetadataReaderError> {
    match blob_request_result(session, roots, planned_generation, planned) {
        Err(error) => Err(error),
        Ok(_) => batch_bytes_result(planned.chunks->locator.chunk_count as nat, 1),
    }
}

/// The bytes that are asked for before a hot page is loaded.
pub open spec fn declared_hot_result() -> Result<u64, Error> {
    raw_charge_result(
        vstd::layout::size_of::<ValidatedSeriesHotPage>(),
        16_384,
        "schema-7 hot-page declared charge overflows",
    )
}

/// The bytes that are asked for before a blob is loaded.
pub open spec fn declared_blob_result(planned: PlannedSeries) -> Result<u64, Error> {
    raw_charge_result(
        vstd::layout::size_of::<ValidatedOverflowBlob>(),
        planned.chunks->locator.blob_len as nat,
        "schema-7 overflow-blob declared charge overflows",
    )
}

/// An operation loads a value of an artifact: the fault that is known of the
/// artifact comes first, then the memory for the value, then the load itself.
pub open spec fn loaded_within<R: Fn(u64) -> bool, T>(
    reserve: R,
    health: ArtifactHealth,
    file: SegmentFile,
    declared: Result<u64, Error>,
    result: Result<T, Schema7MetadataReaderError>,
    loaded: bool,
) -> bool {
    match recorded_in(FaultyFiles::only(file), declared) {
        Err(error) => result == Err::<T, Schema7MetadataReaderError>(error),
        Ok(bytes) => match refusal_result(health, file) {
            Err(error) => result == Err::<T, Schema7MetadataReaderError>(error),
            Ok(_) => reserved_first(reserve, bytes, refused(bytes), result, loaded),
        },
    }
}

/// A range of the cold stream that holds bytes, and can be read.
pub open spec fn range_reads(
    session: MetadataSession,
    roots: BoundRoots,
    start: u64,
    end: u64,
) -> bool {
    let header = roots.series.header;
    &&& provenance_result(session, roots.generation) is Ok
    &&& header.keysets_offset <= start < end <= header.file_len
    &&& end - start <= usize::MAX
}

/// Asks for the memory of a value that is loaded from an artifact, unless a fault
/// of the artifact is known.
fn prepare_load<R: Fn(u64) -> bool>(
    reserve: &R,
    health: &ArtifactHealth,
    file: SegmentFile,
    declared: Result<u64, Error>,
) -> (result: Result<(), Schema7MetadataReaderError>)
    requires
        answers(*reserve),
        declared matches Err(error) ==> error.kind is OutOfMemory,
    ensures
        loaded_within(*reserve, *health, file, declared, result, result is Ok),
        settled(*health, result) == *health,
{
    let files: FaultyFiles = match file {
        SegmentFile::Series => FaultyFiles::Series,
        SegmentFile::ChunkIndex => FaultyFiles::ChunkIndex,
    };
    let bytes: u64 = record_in(files, declared)?;
    check_read(health, file)?;
    reserve_series_scratch(reserve, bytes)
}

/// A request of a row names values of this generation alone.
pub open spec fn row_request_result(
    session: MetadataSession,
    roots: BoundRoots,
    symbols: Symbols,
    planned_generation: u64,
) -> Result<(), Schema7MetadataReaderError> {
    if provenance_result(session, roots.generation) is Err {
        provenance_result(session, roots.generation)
    } else if provenance_result(session, planned_generation) is Err {
        provenance_result(session, planned_generation)
    } else {
        symbolic(symbol_generation_result(symbols, session.generation))
    }
}

/// A request of a row with reuse names values of this generation alone.
pub open spec fn cached_request_result(
    session: MetadataSession,
    roots: BoundRoots,
    symbols: Symbols,
    context_generation: u64,
    planned_generation: u64,
) -> Result<(), Schema7MetadataReaderError> {
    if provenance_result(session, roots.generation) is Err {
        provenance_result(session, roots.generation)
    } else if provenance_result(session, context_generation) is Err {
        provenance_result(session, context_generation)
    } else {
        row_request_result(session, roots, symbols, planned_generation)
    }
}

/// A query session with what is known of its artifacts. A fault that it meets
/// stays: every later read of the artifact is refused with it.
#[derive(Debug, Clone, Copy)]
pub struct Schema7ReadGuard<'a> {
    session: Schema7MetadataSession<'a>,
    health: ArtifactHealth,
}

/// A guard with its artifacts as sequences.
pub struct GuardedSession {
    pub session: MetadataSession,
    pub health: ArtifactHealth,
}

impl<'a> View for Schema7ReadGuard<'a> {
    type V = GuardedSession;

    closed spec fn view(&self) -> GuardedSession {
        GuardedSession { session: self.session@, health: self.health }
    }
}

impl<'a> Schema7MetadataReader<'a> {
    /// Opens a segment whose artifacts may have known faults, and keeps the fault
    /// that it meets.
    pub fn open_guarded<R: Fn(u64) -> bool>(
        artifacts: SegmentArtifacts<'a>,
        context: Schema7RootBindingContext,
        health: &mut ArtifactHealth,
        reserve: &R,
    ) -> (result: Result<Self, Schema7MetadataReaderError>)
        requires
            answers(*reserve),
        ensures
            opened_within(
                *reserve,
                *old(health),
                artifacts,
                context,
                result,
                match open_result(artifacts, context) {
                    Err(error) => result == Err::<Self, Schema7MetadataReaderError>(error),
                    Ok(root_len) => result is Ok && result->Ok_0@ == session_of(
                        artifacts,
                        root_len,
                        context,
                    ),
                },
            ),
            result matches Ok(reader) ==> reader.identity() == artifacts.identity@,
            *final(health) == settled(*old(health), result),
    {
        assert(artifacts.series@.len() == artifacts.series.len());
        assert(artifacts.chunk_index@.len() == artifacts.chunk_index.len());
        let registered = artifacts.series.len() as u64 == context.series_file_len
            && artifacts.chunk_index.len() as u64 == context.chunk_index_file_len;
        if registered {
            check_read(health, SegmentFile::Series)?;
            if let Ok(root_len) = Self::read_root_len(artifacts, context) {
                prepare_load(
                    reserve,
                    health,
                    SegmentFile::Series,
                    SeriesRootV3::declared_max_bytes(root_len),
                )?;
            }
        }
        let result = Self::open(artifacts, context);
        let series_fault = match &result {
            Err(Schema7MetadataReaderError::Cache(fault)) => fault.files == FaultyFiles::Series,
            _ => false,
        };
        if registered && !series_fault {
            prepare_load(
                reserve,
                health,
                SegmentFile::ChunkIndex,
                Ok(size_of::<ChunkOverflowRootV2>() as u64),
            )?;
        }
        settle(health, result)
    }
}

impl<'a> Schema7ReadGuard<'a> {
    /// Guards a session with what is known of its artifacts.
    pub fn new(session: Schema7MetadataSession<'a>, health: ArtifactHealth) -> (guard: Self)
        ensures
            guard@.session == session@,
            guard@.health == health,
    {
        Self { session, health }
    }

    /// The session.
    pub fn session(&self) -> (session: Schema7MetadataSession<'a>)
        ensures
            session@ == self@.session,
    {
        self.session
    }

    /// What is known of the artifacts.
    pub fn health(&self) -> (health: ArtifactHealth)
        ensures
            health == self@.health,
    {
        self.health
    }

    /// Loads the two roots, one after the other.
    pub fn load_roots<R: Fn(u64) -> bool>(&mut self, reserve: &R) -> (result: Result<
        Schema7RootPins,
        Schema7MetadataReaderError,
    >)
        requires
            answers(*reserve),
        ensures
            loaded_within(
                *reserve,
                old(self)@.health,
                SegmentFile::Series,
                declared_root_result(old(self)@.session.root_len),
                result,
                if series_root_faulty(old(self)@.session) {
                    result == Err::<Schema7RootPins, Schema7MetadataReaderError>(
                        load_roots_result(old(self)@.session)->Err_0,
                    )
                } else {
                    loaded_within(
                        *reserve,
                        old(self)@.health,
                        SegmentFile::ChunkIndex,
                        declared_overflow_root(),
                        result,
                        match load_roots_result(old(self)@.session) {
                            Err(error) => result == Err::<
                                Schema7RootPins,
                                Schema7MetadataReaderError,
                            >(error),
                            Ok(roots) => result is Ok && result->Ok_0@ == roots && roots.wf(),
                        },
                    )
                },
            ),
            final(self)@.session == old(self)@.session,
            final(self)@.health == settled(old(self)@.health, result),
    {
        prepare_load(
            reserve,
            &self.health,
            SegmentFile::Series,
            SeriesRootV3::declared_max_bytes(self.session.root_len),
        )?;
        let result = self.session.load_roots();
        let series_fault = match &result {
            Err(Schema7MetadataReaderError::Cache(fault)) => fault.files == FaultyFiles::Series,
            _ => false,
        };
        if !series_fault {
            prepare_load(
                reserve,
                &self.health,
                SegmentFile::ChunkIndex,
                Ok(size_of::<ChunkOverflowRootV2>() as u64),
            )?;
        }
        settle(&mut self.health, result)
    }

    /// Cross-validates separately decoded roots. Roots that contradict each
    /// other are a fault of both artifacts.
    pub fn bind(&mut self, roots: Schema7RootPins) -> (result: Result<
        BoundSchema7Roots,
        Schema7MetadataReaderError,
    >)
        requires
            roots@.wf(),
        ensures
            match bind_roots_result(old(self)@.session, roots@) {
                Err(error) => result == Err::<BoundSchema7Roots, Schema7MetadataReaderError>(error),
                Ok(bound) => result is Ok && result->Ok_0@ == bound && bound.wf(),
            },
            final(self)@.session == old(self)@.session,
            final(self)@.health == settled(old(self)@.health, result),
    {
        settle(&mut self.health, self.session.bind(roots))
    }

    /// Loads and authenticates one exact fixed-size hot page.
    pub fn load_hot_page<R: Fn(u64) -> bool>(
        &mut self,
        roots: &BoundSchema7Roots,
        page_index: u32,
        reserve: &R,
    ) -> (result: Result<ValidatedSeriesHotPage, Schema7MetadataReaderError>)
        requires
            roots@.wf(),
            answers(*reserve),
        ensures
            match hot_request_result(old(self)@.session, roots@, page_index) {
                Err(error) => result == Err::<ValidatedSeriesHotPage, Schema7MetadataReaderError>(
                    error,
                ),
                Ok(_) => loaded_within(
                    *reserve,
                    old(self)@.health,
                    SegmentFile::Series,
                    declared_hot_result(),
                    result,
                    match hot_page_result(old(self)@.session, roots@, page_index) {
                        Err(error) => result == Err::<
                            ValidatedSeriesHotPage,
                            Schema7MetadataReaderError,
                        >(error),
                        Ok(page) => result is Ok && result->Ok_0@ == page,
                    },
                ),
            },
            final(self)@.session == old(self)@.session,
            final(self)@.health == settled(old(self)@.health, result),
    {
        self.session.ensure_bound_roots(roots)?;
        let descriptor = roots.hot_descriptor(page_index)?;
        prepare_load(
            reserve,
            &self.health,
            SegmentFile::Series,
            ValidatedSeriesHotPage::declared_max_bytes(descriptor),
        )?;
        settle(&mut self.health, self.session.load_hot_page(roots, page_index))
    }

    /// Plans selected series from one authenticated page. The memory for the plans
    /// is asked for before the page is looked at.
    pub fn plan_hot_page<R: Fn(u64) -> bool>(
        &mut self,
        roots: &BoundSchema7Roots,
        page_index: u32,
        selected_series_refs: &[u32],
        reserve: &R,
    ) -> (result: Result<GovernedPlannedSeries, Schema7MetadataReaderError>)
        requires
            roots@.wf(),
            answers(*reserve),
        ensures
            match plan_scratch_result(old(self)@.session, roots@, selected_series_refs@.len()) {
                Err(error) => result == Err::<GovernedPlannedSeries, Schema7MetadataReaderError>(
                    error,
                ),
                Ok(scratch) => reserved_first(
                    *reserve,
                    scratch,
                    refused(scratch),
                    result,
                    match hot_request_result(old(self)@.session, roots@, page_index) {
                        Err(error) => result == Err::<
                            GovernedPlannedSeries,
                            Schema7MetadataReaderError,
                        >(error),
                        Ok(_) => loaded_within(
                            *reserve,
                            old(self)@.health,
                            SegmentFile::Series,
                            declared_hot_result(),
                            result,
                            match plan_hot_result(
                                old(self)@.session,
                                roots@,
                                page_index,
                                selected_series_refs@,
                            ) {
                                Err(error) => result == Err::<
                                    GovernedPlannedSeries,
                                    Schema7MetadataReaderError,
                                >(error),
                                Ok(planned) => result is Ok && result->Ok_0@.generation
                                    == old(self)@.session.generation && result->Ok_0@.values
                                    == planned,
                            },
                        ),
                    },
                ),
            },
            result matches Ok(planned) ==> exists|capacity: usize|
                capacity >= planned@.values.len() && planned@.charge == #[trigger] (capacity
                    * vstd::layout::size_of::<PlannedSeries>()),
            final(self)@.session == old(self)@.session,
            final(self)@.health == settled(old(self)@.health, result),
    {
        self.session.ensure_bound_roots(roots)?;
        let scratch: u64 = checked_vec_bytes::<PlannedSeries>(
            selected_series_refs.len(),
            "schema-7 planned-series allocation charge overflows",
        )?;
        reserve_series_scratch(reserve, scratch)?;
        let descriptor = roots.hot_descriptor(page_index)?;
        prepare_load(
            reserve,
            &self.health,
            SegmentFile::Series,
            ValidatedSeriesHotPage::declared_max_bytes(descriptor),
        )?;
        settle(
            &mut self.health,
            self.session.plan_hot_page(roots, page_index, selected_series_refs),
        )
    }

    /// Loads and authenticates one exact cold-label page.
    pub fn load_cold_page<R: Fn(u64) -> bool>(
        &mut self,
        roots: &BoundSchema7Roots,
        page_index: u32,
        reserve: &R,
    ) -> (result: Result<ValidatedSeriesColdPage, Schema7MetadataReaderError>)
        requires
            roots@.wf(),
            answers(*reserve),
        ensures
            match cold_request_result(old(self)@.session, roots@, page_index) {
                Err(error) => result == Err::<ValidatedSeriesColdPage, Schema7MetadataReaderError>(
                    error,
                ),
                Ok(_) => loaded_within(
                    *reserve,
                    old(self)@.health,
                    SegmentFile::Series,
                    cold_charge_result(roots@.series.cold[page_index as int].page_len as nat),
                    result,
                    match load_cold_page_result(old(self)@.session, roots@, page_index) {
                        Err(error) => result == Err::<
                            ValidatedSeriesColdPage,
                            Schema7MetadataReaderError,
                        >(error),
                        Ok(page) => result is Ok && result->Ok_0@ == page,
                    },
                ),
            },
            final(self)@.session == old(self)@.session,
            final(self)@.health == settled(old(self)@.health, result),
    {
        self.session.ensure_bound_roots(roots)?;
        let descriptor = roots.cold_descriptor(page_index)?;
        prepare_load(
            reserve,
            &self.health,
            SegmentFile::Series,
            ValidatedSeriesColdPage::declared_max_bytes(descriptor),
        )?;
        settle(&mut self.health, self.session.load_cold_page(roots, page_index))
    }

    /// Returns one logical range of the cold stream, once every page that it
    /// touches is authentic. A range outside the stream is a fault of the series
    /// artifact.
    pub fn read_authenticated_cold_range<R: Fn(u64) -> bool>(
        &mut self,
        roots: &BoundSchema7Roots,
        range: Range<u64>,
        reserve: &R,
    ) -> (result: Result<GovernedColdRange, Schema7MetadataReaderError>)
        requires
            roots@.wf(),
            answers(*reserve),
        ensures
            ({
                let session = old(self)@.session;
                let refusal = refusal_result(old(self)@.health, SegmentFile::Series);
                let read = match cold_range_result(session, roots@, range.start, range.end) {
                    Err(error) => result == Err::<GovernedColdRange, Schema7MetadataReaderError>(
                        error,
                    ),
                    Ok(bytes) => result is Ok && result->Ok_0.wf() && result->Ok_0@ == bytes,
                };
                if range_reads(session, roots@, range.start, range.end) && refusal is Err {
                    result == Err::<GovernedColdRange, Schema7MetadataReaderError>(refusal->Err_0)
                } else {
                    ran_out(*reserve, result) || read
                }
            }),
            final(self)@.session == old(self)@.session,
            final(self)@.health == settled(old(self)@.health, result),
    {
        let header = roots.roots.series.header;
        let reads: bool = self.session.ensure_bound_roots(roots).is_ok() && header.keysets_offset
            <= range.start && range.start < range.end && range.end <= header.file_len && range.end
            - range.start <= usize::MAX as u64;
        if reads {
            check_read(&self.health, SegmentFile::Series)?;
        }
        settle(&mut self.health, self.session.read_authenticated_cold_range(roots, range, reserve))
    }

    /// Loads and fully validates one exact overflow blob. A blob that contradicts
    /// its hot record is a fault of both artifacts.
    pub fn load_overflow_blob<R: Fn(u64) -> bool>(
        &mut self,
        roots: &BoundSchema7Roots,
        planned: GovernedPlannedSeriesRef<'_>,
        reserve: &R,
    ) -> (result: Result<ValidatedOverflowBlob, Schema7MetadataReaderError>)
        requires
            answers(*reserve),
        ensures
            match blob_request_result(
                old(self)@.session,
                roots@,
                planned.spec_generation(),
                planned.planned(),
            ) {
                Err(error) => result == Err::<ValidatedOverflowBlob, Schema7MetadataReaderError>(
                    error,
                ),
                Ok(_) => loaded_within(
                    *reserve,
                    old(self)@.health,
                    SegmentFile::ChunkIndex,
                    declared_blob_result(planned.planned()),
                    result,
                    match load_blob_result(
                        old(self)@.session,
                        roots@,
                        planned.spec_generation(),
                        planned.planned(),
                    ) {
                        Err(error) => result == Err::<
                            ValidatedOverflowBlob,
                            Schema7MetadataReaderError,
                        >(error),
                        Ok(blob) => result is Ok && result->Ok_0@ == blob,
                    },
                ),
            },
            final(self)@.session == old(self)@.session,
            final(self)@.health == settled(old(self)@.health, result),
    {
        self.session.ensure_bound_roots(roots)?;
        self.session.ensure_provenance(planned.generation())?;
        let locator = match planned.value().chunks {
            ChunkLocatorSource::Inline(_) => {
                return Err(planning_error("schema-7 inline series has no overflow blob"));
            },
            ChunkLocatorSource::Overflow { locator, .. } => locator,
        };
        prepare_load(
            reserve,
            &self.health,
            SegmentFile::ChunkIndex,
            ValidatedOverflowBlob::declared_max_bytes(locator),
        )?;
        settle(&mut self.health, self.session.load_overflow_blob(roots, planned))
    }

    /// Resolves an overflow-backed series. The memory for the locators is asked for
    /// before the blob is looked at.
    pub fn plan_overflow_blob<R: Fn(u64) -> bool>(
        &mut self,
        roots: &BoundSchema7Roots,
        planned: GovernedPlannedSeriesRef<'_>,
        reserve: &R,
    ) -> (result: Result<GovernedChunkLocatorBatch, Schema7MetadataReaderError>)
        requires
            answers(*reserve),
        ensures
            match locators_scratch_result(
                old(self)@.session,
                roots@,
                planned.spec_generation(),
                planned.planned(),
            ) {
                Err(error) => result == Err::<GovernedChunkLocatorBatch, Schema7MetadataReaderError>(
                    error,
                ),
                Ok(scratch) => reserved_first(
                    *reserve,
                    scratch,
                    refused(scratch),
                    result,
                    loaded_within(
                        *reserve,
                        old(self)@.health,
                        SegmentFile::ChunkIndex,
                        declared_blob_result(planned.planned()),
                        result,
                        match plan_overflow_result(
                            old(self)@.session,
                            roots@,
                            planned.spec_generation(),
                            planned.planned(),
                        ) {
                            Err(error) => result == Err::<
                                GovernedChunkLocatorBatch,
                                Schema7MetadataReaderError,
                            >(error),
                            Ok(batch) => result is Ok && result->Ok_0@ == batch,
                        },
                    ),
                ),
            },
            result matches Ok(batch) ==> exists|locators: usize, spans: usize|
                {
                    &&& locators >= batch@.locators.len()
                    &&& spans >= batch@.series_spans.len()
                    &&& #[trigger] batch_bytes_result(locators as nat, spans as nat) == Ok::<
                        u64,
                        Schema7MetadataReaderError,
                    >(batch.charged())
                },
            final(self)@.session == old(self)@.session,
            final(self)@.health == settled(old(self)@.health, result),
    {
        self.session.ensure_bound_roots(roots)?;
        self.session.ensure_provenance(planned.generation())?;
        let locator = match planned.value().chunks {
            ChunkLocatorSource::Inline(_) => {
                return Err(planning_error("schema-7 inline series has no overflow blob"));
            },
            ChunkLocatorSource::Overflow { locator, .. } => locator,
        };
        let scratch: u64 = checked_batch_bytes(locator.chunk_count as usize, 1)?;
        reserve_series_scratch(reserve, scratch)?;
        prepare_load(
            reserve,
            &self.health,
            SegmentFile::ChunkIndex,
            ValidatedOverflowBlob::declared_max_bytes(locator),
        )?;
        settle(&mut self.health, self.session.plan_overflow_blob(roots, planned))
    }

    /// Materializes a planned series without reuse of decoded metadata. A row
    /// whose identity is not the stored one is a fault of the series artifact.
    pub fn materialize_verified_with_selection<H: Fn(&[u8]) -> u64, const DETAILED: bool>(
        &mut self,
        roots: &BoundSchema7Roots,
        symbols: &GovernedSymbolSession,
        hash: &H,
        planned: GovernedPlannedSeriesRef<'_>,
        selection: CanonicalLabelSelection<'_>,
        profile: &mut CanonicalLabelMaterializationProfile,
        reserve: &impl Fn(u64) -> bool,
    ) -> (result: Result<GovernedVerifiedSeries, Schema7MetadataReaderError>)
        requires
            roots@.wf(),
            hashes_all(*hash),
            answers(*reserve),
        ensures
            (request_admitted(
                old(self)@.health,
                row_request_result(
                    old(self)@.session,
                    roots@,
                    symbols@,
                    planned.spec_generation(),
                ),
            ) && ran_out(*reserve, result)) || series_outcome(
                *hash,
                symbols@,
                planned.planned(),
                guarded(
                    old(self)@.health,
                    SegmentFile::Series,
                    row_request_result(
                        old(self)@.session,
                        roots@,
                        symbols@,
                        planned.spec_generation(),
                    ),
                    series_row_result(
                        old(self)@.session,
                        roots@,
                        symbols@,
                        planned.spec_generation(),
                        planned.planned(),
                    ),
                ),
                selection,
                result,
            ),
            advances(*old(profile), *final(profile), DETAILED),
            final(self)@.session == old(self)@.session,
            final(self)@.health == settled(old(self)@.health, result),
    {
        self.session.ensure_bound_roots(roots)?;
        self.session.ensure_provenance(planned.generation())?;
        symbol_result(symbols.ensure_same_generation(self.session.artifacts.generation))?;
        check_read(&self.health, SegmentFile::Series)?;
        let result = self.session.materialize_verified_with_selection::<H, DETAILED>(
            roots,
            symbols,
            hash,
            planned,
            selection,
            profile,
            reserve,
        );
        settle(&mut self.health, result)
    }

    /// Verifies a planned series in its symbols without reuse of decoded
    /// metadata.
    pub fn materialize_verified_encoded_with_selection<H: Fn(&[u8]) -> u64, const DETAILED: bool>(
        &mut self,
        roots: &BoundSchema7Roots,
        symbols: &GovernedSymbolSession,
        hash: &H,
        planned: GovernedPlannedSeriesRef<'_>,
        selection: CanonicalLabelSelection<'_>,
        profile: &mut CanonicalLabelMaterializationProfile,
        reserve: &impl Fn(u64) -> bool,
    ) -> (result: Result<GovernedVerifiedEncodedSeries, Schema7MetadataReaderError>)
        requires
            roots@.wf(),
            hashes_all(*hash),
            answers(*reserve),
        ensures
            (request_admitted(
                old(self)@.health,
                row_request_result(
                    old(self)@.session,
                    roots@,
                    symbols@,
                    planned.spec_generation(),
                ),
            ) && ran_out(*reserve, result)) || encoded_series_outcome(
                *hash,
                symbols@,
                planned.planned(),
                guarded(
                    old(self)@.health,
                    SegmentFile::Series,
                    row_request_result(
                        old(self)@.session,
                        roots@,
                        symbols@,
                        planned.spec_generation(),
                    ),
                    series_row_result(
                        old(self)@.session,
                        roots@,
                        symbols@,
                        planned.spec_generation(),
                        planned.planned(),
                    ),
                ),
                selection,
                result,
            ),
            advances(*old(profile), *final(profile), DETAILED),
            final(self)@.session == old(self)@.session,
            final(self)@.health == settled(old(self)@.health, result),
    {
        self.session.ensure_bound_roots(roots)?;
        self.session.ensure_provenance(planned.generation())?;
        symbol_result(symbols.ensure_same_generation(self.session.artifacts.generation))?;
        check_read(&self.health, SegmentFile::Series)?;
        let result = self.session.materialize_verified_encoded_with_selection::<H, DETAILED>(
            roots,
            symbols,
            hash,
            planned,
            selection,
            profile,
            reserve,
        );
        settle(&mut self.health, result)
    }

    /// Materializes a planned series with the decoded metadata of a context.
    pub fn materialize_verified_selected_cached<H: Fn(&[u8]) -> u64, const DETAILED: bool>(
        &mut self,
        roots: &BoundSchema7Roots,
        symbols: &GovernedSymbolSession,
        hash: &H,
        context: &mut Schema7MaterializationContext,
        planned: GovernedPlannedSeriesRef<'_>,
        selection: CanonicalLabelSelection<'_>,
        profile: &mut CanonicalLabelMaterializationProfile,
        reserve: &impl Fn(u64) -> bool,
    ) -> (result: Result<GovernedVerifiedSeries, Schema7MetadataReaderError>)
        requires
            roots@.wf(),
            hashes_all(*hash),
            answers(*reserve),
            old(context).reflects(old(self)@.session, roots@, symbols@.values.len()),
        ensures
            final(context).reflects(old(self)@.session, roots@, symbols@.values.len()),
            final(context).spec_generation() == old(context).spec_generation(),
            (request_admitted(
                old(self)@.health,
                cached_request_result(
                    old(self)@.session,
                    roots@,
                    symbols@,
                    old(context).spec_generation(),
                    planned.spec_generation(),
                ),
            ) && ran_out(*reserve, result)) || series_outcome(
                *hash,
                symbols@,
                planned.planned(),
                guarded(
                    old(self)@.health,
                    SegmentFile::Series,
                    cached_request_result(
                        old(self)@.session,
                        roots@,
                        symbols@,
                        old(context).spec_generation(),
                        planned.spec_generation(),
                    ),
                    cached_row_result(
                        old(self)@.session,
                        roots@,
                        symbols@,
                        old(context).spec_generation(),
                        planned.spec_generation(),
                        planned.planned(),
                    ),
                ),
                selection,
                result,
            ),
            advances(*old(profile), *final(profile), DETAILED),
            final(self)@.session == old(self)@.session,
            final(self)@.health == settled(old(self)@.health, result),
    {
        self.session.ensure_bound_roots(roots)?;
        self.session.ensure_provenance(context.generation())?;
        self.session.ensure_provenance(planned.generation())?;
        symbol_result(symbols.ensure_same_generation(self.session.artifacts.generation))?;
        check_read(&self.health, SegmentFile::Series)?;
        let result = self.session.materialize_verified_selected_cached_impl::<H, DETAILED>(
            roots,
            symbols,
            hash,
            context,
            planned,
            selection,
            profile,
            reserve,
        );
        settle(&mut self.health, result)
    }

    /// Verifies a planned series in its symbols with the decoded metadata of a
    /// context.
    pub fn materialize_verified_encoded_selected_cached<H: Fn(&[u8]) -> u64, const DETAILED: bool>(
        &mut self,
        roots: &BoundSchema7Roots,
        symbols: &GovernedSymbolSession,
        hash: &H,
        context: &mut Schema7MaterializationContext,
        planned: GovernedPlannedSeriesRef<'_>,
        selection: CanonicalLabelSelection<'_>,
        profile: &mut CanonicalLabelMaterializationProfile,
        reserve: &impl Fn(u64) -> bool,
    ) -> (result: Result<GovernedVerifiedEncodedSeries, Schema7MetadataReaderError>)
        requires
            roots@.wf(),
            hashes_all(*hash),
            answers(*reserve),
            old(context).reflects(old(self)@.session, roots@, symbols@.values.len()),
        ensures
            final(context).reflects(old(self)@.session, roots@, symbols@.values.len()),
            final(context).spec_generation() == old(context).spec_generation(),
            (request_admitted(
                old(self)@.health,
                cached_request_result(
                    old(self)@.session,
                    roots@,
                    symbols@,
                    old(context).spec_generation(),
                    planned.spec_generation(),
                ),
            ) && ran_out(*reserve, result)) || encoded_series_outcome(
                *hash,
                symbols@,
                planned.planned(),
                guarded(
                    old(self)@.health,
                    SegmentFile::Series,
                    cached_request_result(
                        old(self)@.session,
                        roots@,
                        symbols@,
                        old(context).spec_generation(),
                        planned.spec_generation(),
                    ),
                    cached_row_result(
                        old(self)@.session,
                        roots@,
                        symbols@,
                        old(context).spec_generation(),
                        planned.spec_generation(),
                        planned.planned(),
                    ),
                ),
                selection,
                result,
            ),
            advances(*old(profile), *final(profile), DETAILED),
            final(self)@.session == old(self)@.session,
            final(self)@.health == settled(old(self)@.health, result),
    {
        self.session.ensure_bound_roots(roots)?;
        self.session.ensure_provenance(context.generation())?;
        self.session.ensure_provenance(planned.generation())?;
        symbol_result(symbols.ensure_same_generation(self.session.artifacts.generation))?;
        check_read(&self.health, SegmentFile::Series)?;
        let result = self.session.materialize_verified_encoded_selected_cached_impl::<H, DETAILED>(
            roots,
            symbols,
            hash,
            context,
            planned,
            selection,
            profile,
            reserve,
        );
        settle(&mut self.health, result)
    }
}

} // verus!
