//! Loading and planning overflow blobs.

use vstd::prelude::*;

use super::roots::GovernedPlannedSeriesRef;
use super::{
    artifact_range_result, batch_bytes_result, checked_batch_bytes, planning, planning_error,
    provenance_result, read_artifact_range, record_in, recorded_in, BoundRoots, BoundSchema7Roots,
    MetadataSession, Schema7MetadataReaderError, Schema7MetadataSession,
};
use crate::chunk::IndexedChunkLocator;
use crate::health::FaultyFiles;
use crate::v3::reader::{
    bound_context_result, cached_blob_result, plan_blob_result, plan_schema7_decoded_overflow_blob,
    CachedBlob, ChunkLocatorSource, FlatChunkBatch, FlatChunkLocatorBatch, PlannedSeries,
    SeriesChunkSpan, ValidatedOverflowBlob,
};

verus! {

/// Overflow locators with the bytes that their lists are charged with.
#[derive(Debug)]
pub struct GovernedChunkLocatorBatch {
    value: FlatChunkLocatorBatch,
    charge: u64,
}

impl View for GovernedChunkLocatorBatch {
    type V = FlatChunkBatch;

    closed spec fn view(&self) -> FlatChunkBatch {
        self.value@
    }
}

impl GovernedChunkLocatorBatch {
    /// The bytes that the lists are charged with.
    pub closed spec fn charged(self) -> u64 {
        self.charge
    }

    pub fn locators(&self) -> (locators: &[IndexedChunkLocator])
        ensures
            locators@ == self@.locators,
    {
        self.value.locators()
    }

    pub fn series_spans(&self) -> (spans: &[SeriesChunkSpan])
        ensures
            spans@ == self@.series_spans,
    {
        self.value.series_spans()
    }

    pub fn charged_bytes(&self) -> (charge: u64)
        ensures
            charge == self.charged(),
    {
        self.charge
    }
}

/// The overflow blob of a planned series.
pub open spec fn load_blob_result(
    session: MetadataSession,
    roots: BoundRoots,
    planned_generation: u64,
    planned: PlannedSeries,
) -> Result<CachedBlob, Schema7MetadataReaderError> {
    if provenance_result(session, roots.generation) is Err {
        Err(provenance_result(session, roots.generation)->Err_0)
    } else if provenance_result(session, planned_generation) is Err {
        Err(provenance_result(session, planned_generation)->Err_0)
    } else {
        match planned.chunks {
            ChunkLocatorSource::Inline(_) => Err(
                planning("schema-7 inline series has no overflow blob"),
            ),
            ChunkLocatorSource::Overflow { locator, .. } => match recorded_in(
                FaultyFiles::ChunkIndex,
                artifact_range_result(
                    session.chunk_index,
                    locator.blob_offset,
                    locator.blob_len as u64,
                ),
            ) {
                Err(error) => Err(error),
                Ok(bytes) => match recorded_in(
                    FaultyFiles::ChunkIndex,
                    cached_blob_result(
                        bytes,
                        roots.series.header,
                        roots.overflow,
                        roots.overflow_blobs,
                        locator.blob_offset,
                        session.chunk_file_lens,
                    ),
                ) {
                    Err(error) => Err(error),
                    Ok(blob) => match recorded_in(
                        FaultyFiles::Both,
                        bound_context_result(
                            blob,
                            roots.series.header,
                            roots.overflow,
                            roots.overflow_blobs,
                            planned,
                            session.chunk_file_lens,
                        ),
                    ) {
                        Err(error) => Err(error),
                        Ok(_) => Ok(blob),
                    },
                },
            },
        }
    }
}

/// The locators of a series with an overflow blob.
pub open spec fn plan_overflow_result(
    session: MetadataSession,
    roots: BoundRoots,
    planned_generation: u64,
    planned: PlannedSeries,
) -> Result<FlatChunkBatch, Schema7MetadataReaderError> {
    if provenance_result(session, roots.generation) is Err {
        Err(provenance_result(session, roots.generation)->Err_0)
    } else if provenance_result(session, planned_generation) is Err {
        Err(provenance_result(session, planned_generation)->Err_0)
    } else {
        match planned.chunks {
            ChunkLocatorSource::Inline(_) => Err(
                planning("schema-7 inline series has no overflow blob"),
            ),
            ChunkLocatorSource::Overflow { locator, .. } => match batch_bytes_result(
                locator.chunk_count as nat,
                1,
            ) {
                Err(error) => Err(error),
                Ok(_) => match load_blob_result(session, roots, planned_generation, planned) {
                    Err(error) => Err(error),
                    Ok(blob) => match plan_blob_result(
                        roots.series.header,
                        roots.overflow,
                        roots.overflow_blobs,
                        planned,
                        blob,
                        session.chunk_file_lens,
                    ) {
                        Err(error) => Err(Schema7MetadataReaderError::Planning(error)),
                        Ok(batch) => Ok(batch),
                    },
                },
            },
        }
    }
}

impl<'a> Schema7MetadataSession<'a> {
    /// Loads and fully validates one exact overflow blob.
    pub fn load_overflow_blob(
        &self,
        roots: &BoundSchema7Roots,
        planned: GovernedPlannedSeriesRef<'_>,
    ) -> (result: Result<ValidatedOverflowBlob, Schema7MetadataReaderError>)
        ensures
            match load_blob_result(
                self@,
                roots@,
                planned.spec_generation(),
                planned.planned(),
            ) {
                Err(error) => result == Err::<ValidatedOverflowBlob, Schema7MetadataReaderError>(
                    error,
                ),
                Ok(blob) => result is Ok && result->Ok_0@ == blob,
            },
    {
        self.ensure_bound_roots(roots)?;
        self.ensure_provenance(planned.generation())?;
        let locator = match planned.value().chunks {
            ChunkLocatorSource::Inline(_) => {
                return Err(planning_error("schema-7 inline series has no overflow blob"));
            },
            ChunkLocatorSource::Overflow { locator, .. } => locator,
        };
        let bytes = record_in(
            FaultyFiles::ChunkIndex,
            read_artifact_range(
                self.artifacts.chunk_index,
                locator.blob_offset,
                locator.blob_len as u64,
            ),
        )?;
        let header = roots.roots.series.header;
        let blob = record_in(
            FaultyFiles::ChunkIndex,
            ValidatedOverflowBlob::decode_physical(
                bytes,
                header,
                &roots.roots.overflow,
                roots.overflow_blobs,
                locator.blob_offset,
                self.artifacts.chunk_file_lens,
            ),
        )?;
        record_in(
            FaultyFiles::Both,
            blob.validate_bound_context(
                header,
                &roots.roots.overflow,
                roots.overflow_blobs,
                planned.value(),
                self.artifacts.chunk_file_lens,
            ),
        )?;
        Ok(blob)
    }

    /// Resolves an overflow-backed series.
    pub fn plan_overflow_blob(
        &self,
        roots: &BoundSchema7Roots,
        planned: GovernedPlannedSeriesRef<'_>,
    ) -> (result: Result<GovernedChunkLocatorBatch, Schema7MetadataReaderError>)
        ensures
            match plan_overflow_result(
                self@,
                roots@,
                planned.spec_generation(),
                planned.planned(),
            ) {
                Err(error) => result == Err::<
                    GovernedChunkLocatorBatch,
                    Schema7MetadataReaderError,
                >(error),
                Ok(batch) => result is Ok && result->Ok_0@ == batch && exists|
                    locators: usize,
                    spans: usize,
                |
                    {
                        &&& locators >= batch.locators.len()
                        &&& spans >= batch.series_spans.len()
                        &&& #[trigger] batch_bytes_result(locators as nat, spans as nat) == Ok::<
                            u64,
                            Schema7MetadataReaderError,
                        >(result->Ok_0.charged())
                    },
            },
    {
        self.ensure_bound_roots(roots)?;
        self.ensure_provenance(planned.generation())?;
        let locator = match planned.value().chunks {
            ChunkLocatorSource::Inline(_) => {
                return Err(planning_error("schema-7 inline series has no overflow blob"));
            },
            ChunkLocatorSource::Overflow { locator, .. } => locator,
        };
        checked_batch_bytes(locator.chunk_count as usize, 1)?;
        let blob = self.load_overflow_blob(roots, planned)?;
        let planned_batch = plan_schema7_decoded_overflow_blob(
            roots.roots.series.header,
            &roots.roots.overflow,
            roots.overflow_blobs,
            planned.value(),
            &blob,
            self.artifacts.chunk_file_lens,
        );
        let value = match planned_batch {
            Ok(value) => value,
            Err(error) => {
                return Err(Schema7MetadataReaderError::Planning(error));
            },
        };
        let (locators, spans) = value.capacities();
        let charge: u64 = checked_batch_bytes(locators, spans)?;
        Ok(GovernedChunkLocatorBatch { value, charge })
    }
}

} // verus!
