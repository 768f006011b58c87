//! A query session that keeps the faults it meets.

use core::mem::size_of;

use vstd::prelude::*;

use super::chunk_index::{
    directory_of, ChunkDirectory, ChunkIndexContext, GovernedSchema6ChunkIndexRoot,
    GovernedSchema6ChunkIndexSession, Schema6ChunkIndexReaderError,
};
use super::entries::{
    entries_charged, materialize_request_result, read_outcome, GovernedSchema6SeriesEntries,
};
use super::metadata::{
    request_result, routing_result, GovernedSchema6SeriesMetadata, Schema6SeriesRoutingMetadata,
};
use super::root::Schema6SeriesRootV2;
use super::scratch::{ran_out6, refused6, reserve6};
use super::table::{checked_table_work_upper, refs_result, work_upper_result};
use super::verified::{
    batch6_outcome, batch6_result, pending_size, GovernedSchema6VerifiedSeriesBatch,
    PendingVerifiedSeries,
};
use super::{
    load_root6_result, session6_of, GovernedSchema6SeriesReader, GovernedSchema6SeriesRoot,
    GovernedSchema6SeriesSession, Schema6SegmentArtifacts, Schema6SeriesReaderError,
    SeriesSession6,
};
use crate::budget::{answers, reserved_first};
use crate::entry::SeriesEntry;
use crate::error::Error;
use crate::health::{ArtifactFault, ArtifactHealth, FaultyFiles, SegmentFile};
use crate::symbols::{hashes_all, symbol_generation_result, GovernedSymbolSession, Symbols};

verus! {

/// The artifact that an error blames, if any.
pub open spec fn fault6_of(error: Schema6SeriesReaderError) -> Option<ArtifactFault> {
    match error {
        Schema6SeriesReaderError::Cache(error) => Some(
            ArtifactFault { files: FaultyFiles::Series, error },
        ),
        Schema6SeriesReaderError::ChunkIndex(Schema6ChunkIndexReaderError::Cache(error)) => Some(
            ArtifactFault { files: FaultyFiles::ChunkIndex, error },
        ),
        _ => None,
    }
}

/// What is known of the artifacts after an operation.
pub open spec fn settled6<T>(
    health: ArtifactHealth,
    result: Result<T, Schema6SeriesReaderError>,
) -> ArtifactHealth {
    match result {
        Err(error) => match fault6_of(error) {
            Some(fault) => health.with(fault),
            None => health,
        },
        Ok(_) => health,
    }
}

/// A read of the series file is admitted, or refused with the fault that is
/// known. Where nothing is read, nothing is refused.
pub open spec fn refusal6_result(health: ArtifactHealth, reads: bool) -> Result<
    (),
    Schema6SeriesReaderError,
> {
    match health.series {
        Some(error) if reads => Err(Schema6SeriesReaderError::Cache(error)),
        _ => Ok(()),
    }
}

/// Keeps the fault that an operation met.
pub fn settle6<T>(
    health: &mut ArtifactHealth,
    result: Result<T, Schema6SeriesReaderError>,
) -> (returned: Result<T, Schema6SeriesReaderError>)
    ensures
        returned == result,
        *final(health) == settled6(*old(health), result),
{
    match &result {
        Err(Schema6SeriesReaderError::Cache(error)) => {
            health.record(ArtifactFault { files: FaultyFiles::Series, error: *error });
        },
        Err(Schema6SeriesReaderError::ChunkIndex(Schema6ChunkIndexReaderError::Cache(error))) => {
            health.record(ArtifactFault { files: FaultyFiles::ChunkIndex, error: *error });
        },
        _ => {},
    }
    result
}

/// Admits a read of the series file, or refuses it with the fault that is known.
pub fn check_read6(health: &ArtifactHealth, reads: bool) -> (result: Result<
    (),
    Schema6SeriesReaderError,
>)
    ensures
        result == refusal6_result(*health, reads),
{
    if reads {
        match health.check_readable(SegmentFile::Series) {
            Ok(_) => Ok(()),
            Err(fault) => Err(Schema6SeriesReaderError::Cache(fault.error)),
        }
    } else {
        Ok(())
    }
}

/// Once the series file has a fault, no result changes it, and every read of the
/// file is refused.
pub proof fn sticky_refusal6_law<T, U>(
    health: ArtifactHealth,
    first: Result<T, Schema6SeriesReaderError>,
    second: Result<U, Schema6SeriesReaderError>,
)
    requires
        first matches Err(Schema6SeriesReaderError::Cache(error)) && error.kind !is OutOfMemory,
    ensures
        refusal6_result(settled6(health, first), true) is Err,
        refusal6_result(settled6(settled6(health, first), second), true) == refusal6_result(
            settled6(health, first),
            true,
        ),
{
}

/// An error that is not about the bytes of an artifact, such as a series that
/// does not exist, leaves every artifact readable that was.
pub proof fn harmless_error6_law<T>(
    health: ArtifactHealth,
    result: Result<T, Schema6SeriesReaderError>,
)
    requires
        result matches Err(error) ==> fault6_of(error) is None,
    ensures
        settled6(health, result) == health,
{
}

/// Refusing a read records nothing new.
pub proof fn refused_read6_law(health: ArtifactHealth, reads: bool)
    ensures
        settled6(health, refusal6_result(health, reads)) == health,
{
}

/// The first fault of the series file is the error of every later read of it; a fault of the
/// chunk index, and a request without anything to read, are no reason to refuse.
pub proof fn recorded_error6_law(health: ArtifactHealth, error: Error, reads: bool)
    requires
        error.kind !is OutOfMemory,
    ensures
        health.series is None ==> refusal6_result(
            settled6(health, Err::<(), _>(Schema6SeriesReaderError::Cache(error))),
            true,
        ) == Err::<(), Schema6SeriesReaderError>(Schema6SeriesReaderError::Cache(error)),
        refusal6_result(
            settled6(
                health,
                Err::<(), _>(
                    Schema6SeriesReaderError::ChunkIndex(
                        Schema6ChunkIndexReaderError::Cache(error),
                    ),
                ),
            ),
            reads,
        ) == refusal6_result(health, reads),
        refusal6_result(health, false) is Ok,
        refusal6_result(ArtifactHealth::sound(), reads) is Ok,
{
}

/// The bytes that a request asks for, if it can be answered without regard to
/// what the series file holds: everything belongs to one generation, every
/// series exists, and the work can be charged.
pub open spec fn table_admission_result(
    session: SeriesSession6,
    root: GovernedSchema6SeriesRoot,
    directory: ChunkDirectory,
    symbols: Option<Symbols>,
    refs: Seq<u32>,
    output_size: nat,
) -> Result<u64, Schema6SeriesReaderError> {
    if request_result(session, root, directory) is Err {
        Err(request_result(session, root, directory)->Err_0)
    } else if symbols is Some && symbol_generation_result(
        symbols->Some_0,
        session.generation,
    ) is Err {
        Err(
            Schema6SeriesReaderError::Symbols(
                symbol_generation_result(symbols->Some_0, session.generation)->Err_0,
            ),
        )
    } else if refs_result(root.value.header.num_series, refs, refs.len()) is Err {
        Err(refs_result(root.value.header.num_series, refs, refs.len())->Err_0)
    } else {
        match work_upper_result(output_size, refs.len()) {
            Err(error) => Err(Schema6SeriesReaderError::Planning(error)),
            Ok(declared) => Ok(declared),
        }
    }
}

/// An operation loads the root: the fault that is known of the series file comes
/// first, then the memory for the root, then the load itself.
pub open spec fn root_within<R: Fn(u64) -> bool, T>(
    reserve: R,
    health: ArtifactHealth,
    result: Result<T, Schema6SeriesReaderError>,
    loaded: bool,
) -> bool {
    let declared = vstd::layout::size_of::<Schema6SeriesRootV2>() as u64;
    match refusal6_result(health, true) {
        Err(error) => result == Err::<T, Schema6SeriesReaderError>(error),
        Ok(_) => reserved_first(reserve, declared, refused6(declared), result, loaded),
    }
}

/// An operation asks for the bytes of an admitted request; then the fault that is
/// known of the series file comes, and then the read itself.
pub open spec fn read_within<R: Fn(u64) -> bool, T>(
    reserve: R,
    health: ArtifactHealth,
    admission: Result<u64, Schema6SeriesReaderError>,
    reads: bool,
    result: Result<T, Schema6SeriesReaderError>,
    rest: bool,
) -> bool {
    match admission {
        Err(error) => result == Err::<T, Schema6SeriesReaderError>(error),
        Ok(declared) => reserved_first(
            reserve,
            declared,
            refused6(declared),
            result,
            match refusal6_result(health, reads) {
                Err(error) => result == Err::<T, Schema6SeriesReaderError>(error),
                Ok(_) => rest,
            },
        ),
    }
}

/// A query session with what is known of its artifacts. A fault that it meets
/// stays: every later read of the series file is refused with it.
#[derive(Debug, Clone, Copy)]
pub struct Schema6ReadGuard<'a> {
    session: GovernedSchema6SeriesSession<'a>,
    health: ArtifactHealth,
}

/// A guard with its artifacts as sequences.
pub struct GuardedSession6 {
    pub session: SeriesSession6,
    pub health: ArtifactHealth,
}

impl<'a> View for Schema6ReadGuard<'a> {
    type V = GuardedSession6;

    closed spec fn view(&self) -> GuardedSession6 {
        GuardedSession6 { session: self.session@, health: self.health }
    }
}

impl<'a> GovernedSchema6SeriesReader<'a> {
    /// Opens a segment whose artifacts may have known faults, and keeps the fault
    /// that it meets.
    pub fn open_guarded<R: Fn(u64) -> bool>(
        artifacts: Schema6SegmentArtifacts<'a>,
        expected_num_series: u32,
        health: &mut ArtifactHealth,
        reserve: &R,
    ) -> (result: Result<Self, Schema6SeriesReaderError>)
        requires
            answers(*reserve),
        ensures
            root_within(
                *reserve,
                *old(health),
                result,
                match load_root6_result(session6_of(artifacts, expected_num_series)) {
                    Err(error) => result == Err::<Self, Schema6SeriesReaderError>(error),
                    Ok(_) => result is Ok && result->Ok_0@ == session6_of(
                        artifacts,
                        expected_num_series,
                    ),
                },
            ),
            result matches Ok(reader) ==> reader.identity() == artifacts.identity@,
            *final(health) == settled6(*old(health), result),
    {
        check_read6(health, true)?;
        reserve6(reserve, size_of::<Schema6SeriesRootV2>() as u64)?;
        settle6(health, Self::open(artifacts, expected_num_series))
    }
}

impl<'a> Schema6ReadGuard<'a> {
    /// Guards a session with what is known of its artifacts.
    pub fn new(session: GovernedSchema6SeriesSession<'a>, health: ArtifactHealth) -> (guard: Self)
        ensures
            guard@.session == session@,
            guard@.health == health,
    {
        Self { session, health }
    }

    /// The session.
    pub fn session(&self) -> (session: GovernedSchema6SeriesSession<'a>)
        ensures
            session@ == self@.session,
    {
        self.session
    }

    /// What is known of the artifacts.
    pub fn health(&self) -> (health: ArtifactHealth)
        ensures
            health == self@.health,
    {
        self.health
    }

    /// Loads the fixed root.
    pub fn load_root<R: Fn(u64) -> bool>(&mut self, reserve: &R) -> (result: Result<
        GovernedSchema6SeriesRoot,
        Schema6SeriesReaderError,
    >)
        requires
            answers(*reserve),
        ensures
            root_within(
                *reserve,
                old(self)@.health,
                result,
                result == load_root6_result(old(self)@.session),
            ),
            result matches Ok(root) ==> root.of(old(self)@.session),
            final(self)@.session == old(self)@.session,
            final(self)@.health == settled6(old(self)@.health, result),
    {
        check_read6(&self.health, true)?;
        reserve6(reserve, size_of::<Schema6SeriesRootV2>() as u64)?;
        settle6(&mut self.health, self.session.load_root())
    }

    /// Checks everything about a request but what the series file holds, and asks
    /// for its memory. A chunk index that has another number of series is a fault
    /// of the chunk index.
    fn check_request<T, R: Fn(u64) -> bool>(
        &mut self,
        root: &GovernedSchema6SeriesRoot,
        chunk_index: ChunkIndexContext<'_>,
        symbols: Option<&GovernedSymbolSession>,
        series_refs: &[u32],
        reserve: &R,
    ) -> (result: Result<(), Schema6SeriesReaderError>)
        requires
            answers(*reserve),
        ensures
            read_within(
                *reserve,
                old(self)@.health,
                table_admission_result(
                    old(self)@.session,
                    *root,
                    chunk_index@,
                    match symbols {
                        Some(symbols) => Some(symbols@),
                        None => None,
                    },
                    series_refs@,
                    vstd::layout::size_of::<T>(),
                ),
                series_refs@.len() > 0,
                result,
                result is Ok,
            ),
            final(self)@.session == old(self)@.session,
            final(self)@.health == settled6(old(self)@.health, result),
    {
        settle6(&mut self.health, self.session.bind_request(root, chunk_index))?;
        if let Some(symbols) = symbols {
            if let Err(error) = symbols.ensure_same_generation(
                self.session.artifacts.generation,
            ) {
                return Err(Schema6SeriesReaderError::Symbols(error));
            }
        }
        settle6(&mut self.health, self.session.validate_series_refs(root, series_refs))?;
        let declared: u64 = match checked_table_work_upper::<T>(series_refs.len()) {
            Ok(declared) => declared,
            Err(error) => {
                return Err(Schema6SeriesReaderError::Planning(error));
            },
        };
        reserve6(reserve, declared)?;
        check_read6(&self.health, series_refs.len() > 0)
    }

    /// Reads the chunk routing of requested series.
    pub fn read_metadata_entries<R: Fn(u64) -> bool>(
        &mut self,
        root: &GovernedSchema6SeriesRoot,
        chunk_index: &GovernedSchema6ChunkIndexSession,
        chunk_index_root: &GovernedSchema6ChunkIndexRoot,
        series_refs: &[u32],
        reserve: &R,
    ) -> (result: Result<GovernedSchema6SeriesMetadata, Schema6SeriesReaderError>)
        requires
            root.of(old(self)@.session),
            answers(*reserve),
        ensures
            read_within(
                *reserve,
                old(self)@.health,
                table_admission_result(
                    old(self)@.session,
                    *root,
                    directory_of(chunk_index@, *chunk_index_root),
                    None,
                    series_refs@,
                    vstd::layout::size_of::<(u32, Schema6SeriesRoutingMetadata)>(),
                ),
                series_refs@.len() > 0,
                result,
                ran_out6(*reserve, result) || match routing_result(
                    old(self)@.session,
                    *root,
                    directory_of(chunk_index@, *chunk_index_root),
                    series_refs@,
                ) {
                    Err(error) => result == Err::<
                        GovernedSchema6SeriesMetadata,
                        Schema6SeriesReaderError,
                    >(error),
                    Ok(routing) => result is Ok && result->Ok_0@.generation
                        == old(self)@.session.generation && result->Ok_0@.values == routing,
                },
            ),
            result matches Ok(metadata) ==> exists|capacity: usize|
                capacity >= metadata@.values.len() && metadata@.charge == #[trigger] (capacity
                    * vstd::layout::size_of::<(u32, Schema6SeriesRoutingMetadata)>()),
            final(self)@.session == old(self)@.session,
            final(self)@.health == settled6(old(self)@.health, result),
    {
        self.check_request::<(u32, Schema6SeriesRoutingMetadata), R>(
            root,
            ChunkIndexContext::new(chunk_index, chunk_index_root),
            None,
            series_refs,
            reserve,
        )?;
        settle6(
            &mut self.health,
            self.session.read_metadata_entries_within(
                root,
                ChunkIndexContext::new(chunk_index, chunk_index_root),
                series_refs,
                reserve,
            ),
        )
    }

    /// Materializes requested series in the order of the request.
    pub fn read_entries<H: Fn(&[u8]) -> u64, R: Fn(u64) -> bool>(
        &mut self,
        root: &GovernedSchema6SeriesRoot,
        chunk_index: &GovernedSchema6ChunkIndexSession,
        chunk_index_root: &GovernedSchema6ChunkIndexRoot,
        symbols: &GovernedSymbolSession,
        hash: &H,
        series_refs: &[u32],
        reserve: &R,
    ) -> (result: Result<GovernedSchema6SeriesEntries, Schema6SeriesReaderError>)
        requires
            root.of(old(self)@.session),
            hashes_all(*hash),
            answers(*reserve),
        ensures
            ({
                let size = vstd::layout::size_of::<(u32, SeriesEntry)>();
                read_within(
                    *reserve,
                    old(self)@.health,
                    table_admission_result(
                        old(self)@.session,
                        *root,
                        directory_of(chunk_index@, *chunk_index_root),
                        Some(symbols@),
                        series_refs@,
                        size,
                    ),
                    series_refs@.len() > 0,
                    result,
                    ran_out6(*reserve, result) || match materialize_request_result(
                        old(self)@.session,
                        *root,
                        directory_of(chunk_index@, *chunk_index_root),
                        symbols@,
                        series_refs@,
                        size,
                    ) {
                        Err(error) => result == Err::<
                            GovernedSchema6SeriesEntries,
                            Schema6SeriesReaderError,
                        >(error),
                        Ok(_) => read_outcome(
                            *hash,
                            old(self)@.session,
                            root.value,
                            directory_of(chunk_index@, *chunk_index_root),
                            symbols@,
                            series_refs@,
                            match result {
                                Ok(entries) => Ok(entries@.values),
                                Err(error) => Err(error),
                            },
                        ),
                    },
                )
            }),
            result matches Ok(entries) ==> entries@.generation == old(self)@.session.generation
                && entries_charged(entries@.values, entries@.charge),
            final(self)@.session == old(self)@.session,
            final(self)@.health == settled6(old(self)@.health, result),
    {
        self.check_request::<(u32, SeriesEntry), R>(
            root,
            ChunkIndexContext::new(chunk_index, chunk_index_root),
            Some(symbols),
            series_refs,
            reserve,
        )?;
        settle6(
            &mut self.health,
            self.session.read_entries_within(
                root,
                ChunkIndexContext::new(chunk_index, chunk_index_root),
                symbols,
                hash,
                series_refs,
                reserve,
            ),
        )
    }

    /// Materializes and verifies requested series as one batch.
    pub fn materialize_verified<H: Fn(&[u8]) -> u64, R: Fn(u64) -> bool>(
        &mut self,
        root: &GovernedSchema6SeriesRoot,
        chunk_index: &GovernedSchema6ChunkIndexSession,
        chunk_index_root: &GovernedSchema6ChunkIndexRoot,
        symbols: &GovernedSymbolSession,
        hash: &H,
        series_refs: &[u32],
        reserve: &R,
    ) -> (result: Result<GovernedSchema6VerifiedSeriesBatch, Schema6SeriesReaderError>)
        requires
            root.of(old(self)@.session),
            hashes_all(*hash),
            answers(*reserve),
        ensures
            read_within(
                *reserve,
                old(self)@.health,
                table_admission_result(
                    old(self)@.session,
                    *root,
                    directory_of(chunk_index@, *chunk_index_root),
                    Some(symbols@),
                    series_refs@,
                    pending_size(),
                ),
                series_refs@.len() > 0,
                result,
                ran_out6(*reserve, result) || match materialize_request_result(
                    old(self)@.session,
                    *root,
                    directory_of(chunk_index@, *chunk_index_root),
                    symbols@,
                    series_refs@,
                    pending_size(),
                ) {
                    Err(error) => result == Err::<
                        GovernedSchema6VerifiedSeriesBatch,
                        Schema6SeriesReaderError,
                    >(error),
                    Ok(_) => batch6_outcome(
                        *hash,
                        old(self)@.session,
                        root.value,
                        directory_of(chunk_index@, *chunk_index_root),
                        symbols@,
                        series_refs@,
                        batch6_result(result),
                    ),
                },
            ),
            result matches Ok(batch) ==> batch@.generation == old(self)@.session.generation,
            final(self)@.session == old(self)@.session,
            final(self)@.health == settled6(old(self)@.health, result),
    {
        self.check_request::<PendingVerifiedSeries, R>(
            root,
            ChunkIndexContext::new(chunk_index, chunk_index_root),
            Some(symbols),
            series_refs,
            reserve,
        )?;
        settle6(
            &mut self.health,
            self.session.materialize_verified_within(
                root,
                ChunkIndexContext::new(chunk_index, chunk_index_root),
                symbols,
                hash,
                series_refs,
                reserve,
            ),
        )
    }
}

} // verus!
