//! What a session does with values of another segment generation.

use vstd::prelude::*;

use super::cold::cold_range_result;
use super::materialize::series_row_result;
use super::overflow::{load_blob_result, plan_overflow_result};
use super::roots::{bind_roots_result, hot_page_result, load_cold_page_result, plan_hot_result};
use super::{BoundRoots, MetadataSession, RootPins, Schema7MetadataReaderError};
use crate::symbols::{GovernedSymbolReaderError, Symbols};
use crate::v3::reader::PlannedSeries;

verus! {

/// Root pins of another generation are not bound, whatever the segment holds.
pub proof fn foreign_pins_law(session: MetadataSession, pins: RootPins)
    requires
        pins.generation != session.generation,
    ensures
        bind_roots_result(session, pins) == Err::<BoundRoots, Schema7MetadataReaderError>(
            Schema7MetadataReaderError::ForeignSegmentGeneration,
        ),
{
}

/// Bound roots of another generation give no page, no range, no plan, no row and
/// no blob, whatever the segment holds.
pub proof fn foreign_roots_law(
    session: MetadataSession,
    roots: BoundRoots,
    page_index: u32,
    refs: Seq<u32>,
    start: u64,
    end: u64,
    symbols: Symbols,
    planned_generation: u64,
    planned: PlannedSeries,
)
    requires
        roots.generation != session.generation,
    ensures
        ({
            let foreign = Schema7MetadataReaderError::ForeignSegmentGeneration;
            &&& hot_page_result(session, roots, page_index) matches Err(error) && error == foreign
            &&& plan_hot_result(session, roots, page_index, refs) matches Err(error) && error
                == foreign
            &&& load_cold_page_result(session, roots, page_index) matches Err(error) && error
                == foreign
            &&& cold_range_result(session, roots, start, end) matches Err(error) && error
                == foreign
            &&& series_row_result(
                session,
                roots,
                symbols,
                planned_generation,
                planned,
            ) matches Err(error) && error == foreign
            &&& load_blob_result(
                session,
                roots,
                planned_generation,
                planned,
            ) matches Err(error) && error == foreign
            &&& plan_overflow_result(
                session,
                roots,
                planned_generation,
                planned,
            ) matches Err(error) && error == foreign
        }),
{
}

/// A series that was planned in another generation gives no row and no blob,
/// whatever the segment holds.
pub proof fn foreign_plan_law(
    session: MetadataSession,
    roots: BoundRoots,
    symbols: Symbols,
    planned_generation: u64,
    planned: PlannedSeries,
)
    requires
        planned_generation != session.generation,
    ensures
        ({
            let foreign = Schema7MetadataReaderError::ForeignSegmentGeneration;
            &&& series_row_result(
                session,
                roots,
                symbols,
                planned_generation,
                planned,
            ) matches Err(error) && error == foreign
            &&& load_blob_result(
                session,
                roots,
                planned_generation,
                planned,
            ) matches Err(error) && error == foreign
            &&& plan_overflow_result(
                session,
                roots,
                planned_generation,
                planned,
            ) matches Err(error) && error == foreign
        }),
{
}

/// Symbols of another generation give no row, whatever the segment holds.
pub proof fn foreign_symbols_law(
    session: MetadataSession,
    roots: BoundRoots,
    symbols: Symbols,
    planned_generation: u64,
    planned: PlannedSeries,
)
    requires
        roots.generation == session.generation,
        planned_generation == session.generation,
        symbols.generation != session.generation,
    ensures
        series_row_result(session, roots, symbols, planned_generation, planned) == Err::<
            Seq<(u32, u32)>,
            Schema7MetadataReaderError,
        >(
            Schema7MetadataReaderError::Symbols(
                GovernedSymbolReaderError::ForeignSegmentGeneration,
            ),
        ),
{
}

} // verus!
