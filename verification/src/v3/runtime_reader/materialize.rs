//! Materializing verified series, with and without reuse of decoded metadata.

use vstd::prelude::*;

use super::cold::{keyset_plan_result, row_labels_result, DecodedKeysetPlan};
use super::labels::{
    encoded_outcome, labels_charged, materialized_outcome, symbol_result, texts_result,
    CanonicalLabelSelection,
};
use super::profile::{
    advances, detailed_stage_started, finish_materialization_profile,
    CanonicalLabelMaterializationProfile,
};
use super::roots::GovernedPlannedSeriesRef;
use super::scratch::{list_bytes, ran_out, reserve_series_scratch};
use super::{
    checked_vec_bytes, provenance_result, record, BoundRoots, BoundSchema7Roots, MetadataSession,
    Schema7MetadataReaderError, Schema7MetadataSession,
};
use crate::budget::{answers, grants};
use crate::capacity::vec_capacity;
use crate::cold_v2::reader::validate_keyset_block_key_count;
use crate::symbols::{
    hashes_all, label_texts, symbol_generation_result, GovernedSymbolSession,
    LabelText, Symbols,
};
use crate::v3::reader::PlannedSeries;

verus! {

/// Canonical labels and stable identity, returned only after the complete cold
/// row and every required symbol pass their integrity checks and reproduce the
/// stored fingerprint.
#[derive(Debug)]
pub struct GovernedVerifiedSeries {
    series_ref: u32,
    series_id: u64,
    metric_name_dropped_series_id: Option<u64>,
    kind_mask: u8,
    labels_complete: bool,
    integrity_checked_label_count: usize,
    labels: Vec<(String, String)>,
    charge: u64,
}

/// Fully verified canonical labels in their source-symbol representation.
///
/// This value becomes observable only after every referenced symbol has been
/// resolved and the complete canonical row has reproduced the authenticated
/// series identity.
#[derive(Debug)]
pub struct GovernedVerifiedEncodedSeries {
    series_ref: u32,
    series_id: u64,
    metric_name_dropped_series_id: Option<u64>,
    kind_mask: u8,
    labels_complete: bool,
    integrity_checked_label_count: usize,
    labels: Vec<(u32, u32)>,
    charge: u64,
}

/// A verified series whose labels are a sequence.
pub struct VerifiedSeries<L> {
    pub series_ref: u32,
    pub series_id: u64,
    pub metric_name_dropped_series_id: Option<u64>,
    pub kind_mask: u8,
    pub labels_complete: bool,
    pub integrity_checked_label_count: nat,
    pub labels: Seq<L>,
}

impl View for GovernedVerifiedSeries {
    type V = VerifiedSeries<LabelText>;

    closed spec fn view(&self) -> VerifiedSeries<LabelText> {
        VerifiedSeries {
            series_ref: self.series_ref,
            series_id: self.series_id,
            metric_name_dropped_series_id: self.metric_name_dropped_series_id,
            kind_mask: self.kind_mask,
            labels_complete: self.labels_complete,
            integrity_checked_label_count: self.integrity_checked_label_count as nat,
            labels: label_texts(self.labels@),
        }
    }
}

impl View for GovernedVerifiedEncodedSeries {
    type V = VerifiedSeries<(u32, u32)>;

    closed spec fn view(&self) -> VerifiedSeries<(u32, u32)> {
        VerifiedSeries {
            series_ref: self.series_ref,
            series_id: self.series_id,
            metric_name_dropped_series_id: self.metric_name_dropped_series_id,
            kind_mask: self.kind_mask,
            labels_complete: self.labels_complete,
            integrity_checked_label_count: self.integrity_checked_label_count as nat,
            labels: self.labels@,
        }
    }
}

impl GovernedVerifiedSeries {
    /// The bytes that the labels are charged with.
    pub closed spec fn charge(self) -> u64 {
        self.charge
    }

    /// The bytes that the labels are charged with: the capacities of the vector
    /// and of every text.
    pub fn charged_bytes(&self) -> (charge: u64)
        ensures
            charge == self.charge(),
    {
        self.charge
    }

    pub fn series_ref(&self) -> (series_ref: u32)
        ensures
            series_ref == self@.series_ref,
    {
        self.series_ref
    }

    pub fn series_id(&self) -> (series_id: u64)
        ensures
            series_id == self@.series_id,
    {
        self.series_id
    }

    pub fn metric_name_dropped_series_id(&self) -> (series_id: Option<u64>)
        ensures
            series_id == self@.metric_name_dropped_series_id,
    {
        self.metric_name_dropped_series_id
    }

    pub fn kind_mask(&self) -> (kind_mask: u8)
        ensures
            kind_mask == self@.kind_mask,
    {
        self.kind_mask
    }

    pub fn labels(&self) -> (labels: &[(String, String)])
        ensures
            label_texts(labels@) == self@.labels,
    {
        &self.labels
    }

    pub fn labels_complete(&self) -> (complete: bool)
        ensures
            complete == self@.labels_complete,
    {
        self.labels_complete
    }

    pub fn integrity_checked_label_count(&self) -> (count: usize)
        ensures
            count == self@.integrity_checked_label_count,
    {
        self.integrity_checked_label_count
    }
}

impl GovernedVerifiedEncodedSeries {
    /// The bytes that the complete row is charged with.
    pub closed spec fn charge(self) -> u64 {
        self.charge
    }

    /// The bytes that the complete row is charged with: the capacity of the
    /// vector that was decoded.
    pub fn charged_bytes(&self) -> (charge: u64)
        ensures
            charge == self.charge(),
    {
        self.charge
    }

    pub fn series_ref(&self) -> (series_ref: u32)
        ensures
            series_ref == self@.series_ref,
    {
        self.series_ref
    }

    pub fn series_id(&self) -> (series_id: u64)
        ensures
            series_id == self@.series_id,
    {
        self.series_id
    }

    pub fn metric_name_dropped_series_id(&self) -> (series_id: Option<u64>)
        ensures
            series_id == self@.metric_name_dropped_series_id,
    {
        self.metric_name_dropped_series_id
    }

    pub fn kind_mask(&self) -> (kind_mask: u8)
        ensures
            kind_mask == self@.kind_mask,
    {
        self.kind_mask
    }

    pub fn labels(&self) -> (labels: &[(u32, u32)])
        ensures
            labels@ == self@.labels,
    {
        &self.labels
    }

    pub fn labels_complete(&self) -> (complete: bool)
        ensures
            complete == self@.labels_complete,
    {
        self.labels_complete
    }

    pub fn integrity_checked_label_count(&self) -> (count: usize)
        ensures
            count == self@.integrity_checked_label_count,
    {
        self.integrity_checked_label_count
    }
}

/// The complete label row of a planned series, as symbols.
pub open spec fn series_row_result(
    session: MetadataSession,
    roots: BoundRoots,
    symbols: Symbols,
    planned_generation: u64,
    planned: PlannedSeries,
) -> Result<Seq<(u32, u32)>, Schema7MetadataReaderError> {
    let count = symbols.values.len();
    if provenance_result(session, roots.generation) is Err {
        Err(provenance_result(session, roots.generation)->Err_0)
    } else if provenance_result(session, planned_generation) is Err {
        Err(provenance_result(session, planned_generation)->Err_0)
    } else if symbol_generation_result(symbols, session.generation) is Err {
        Err(
            Schema7MetadataReaderError::Symbols(
                symbol_generation_result(symbols, session.generation)->Err_0,
            ),
        )
    } else {
        planned_row_result(session, roots, count, planned)
    }
}

/// The complete label row of a planned series, once everything is known to
/// belong to one generation.
pub open spec fn planned_row_result(
    session: MetadataSession,
    roots: BoundRoots,
    symbol_count: nat,
    planned: PlannedSeries,
) -> Result<Seq<(u32, u32)>, Schema7MetadataReaderError> {
    match keyset_plan_result(session, roots, symbol_count, planned.cold_labels.keyset_id) {
        Err(error) => Err(error),
        Ok((keys, block)) => row_labels_result(
            session,
            roots,
            symbol_count,
            keys,
            block,
            planned.cold_labels.row,
        ),
    }
}

/// The verified series that a planned series becomes.
pub open spec fn verified_of<L>(
    planned: PlannedSeries,
    selection: CanonicalLabelSelection,
    label_count: nat,
    labels: Seq<L>,
    dropped: Option<u64>,
) -> VerifiedSeries<L> {
    VerifiedSeries {
        series_ref: planned.series_ref,
        series_id: planned.expected_label_identity,
        metric_name_dropped_series_id: dropped,
        kind_mask: planned.kind_mask,
        labels_complete: selection is All,
        integrity_checked_label_count: label_count,
        labels,
    }
}

/// What materializing a row of symbols as a verified series gives.
pub open spec fn row_outcome<H: Fn(&[u8]) -> u64>(
    hash: H,
    symbols: Symbols,
    planned: PlannedSeries,
    row: Seq<(u32, u32)>,
    selection: CanonicalLabelSelection,
    result: Result<VerifiedSeries<LabelText>, Schema7MetadataReaderError>,
) -> bool {
    exists|labels: Result<(Seq<LabelText>, Option<u64>), Schema7MetadataReaderError>| #[trigger]
        materialized_outcome(
            hash,
            symbols,
            planned.expected_label_identity,
            row,
            selection,
            labels,
        ) && result == match labels {
            Err(error) => Err(error),
            Ok((texts, dropped)) => Ok(verified_of(planned, selection, row.len(), texts, dropped)),
        }
}

/// What verifying a row of symbols as a series gives.
pub open spec fn encoded_row_outcome<H: Fn(&[u8]) -> u64>(
    hash: H,
    symbols: Symbols,
    planned: PlannedSeries,
    row: Seq<(u32, u32)>,
    selection: CanonicalLabelSelection,
    result: Result<VerifiedSeries<(u32, u32)>, Schema7MetadataReaderError>,
) -> bool {
    exists|labels: Result<(Seq<(u32, u32)>, Option<u64>), Schema7MetadataReaderError>| #[trigger]
        encoded_outcome(
            hash,
            symbols,
            planned.expected_label_identity,
            row,
            selection,
            labels,
        ) && result == match labels {
            Err(error) => Err(error),
            Ok((ids, dropped)) => Ok(verified_of(planned, selection, row.len(), ids, dropped)),
        }
}

/// What materializing a planned series gives.
pub open spec fn series_outcome<H: Fn(&[u8]) -> u64>(
    hash: H,
    symbols: Symbols,
    planned: PlannedSeries,
    row: Result<Seq<(u32, u32)>, Schema7MetadataReaderError>,
    selection: CanonicalLabelSelection,
    result: Result<GovernedVerifiedSeries, Schema7MetadataReaderError>,
) -> bool {
    match row {
        Err(error) => result == Err::<GovernedVerifiedSeries, Schema7MetadataReaderError>(error),
        Ok(row) => {
            &&& row_outcome(
                hash,
                symbols,
                planned,
                row,
                selection,
                match result {
                    Ok(series) => Ok(series@),
                    Err(error) => Err(error),
                },
            )
            &&& result matches Ok(series) ==> labels_charged(
                selection,
                row.len(),
                series@.labels,
                series.charge(),
            )
        },
    }
}

/// What verifying a planned series in its symbols gives.
pub open spec fn encoded_series_outcome<H: Fn(&[u8]) -> u64>(
    hash: H,
    symbols: Symbols,
    planned: PlannedSeries,
    row: Result<Seq<(u32, u32)>, Schema7MetadataReaderError>,
    selection: CanonicalLabelSelection,
    result: Result<GovernedVerifiedEncodedSeries, Schema7MetadataReaderError>,
) -> bool {
    match row {
        Err(error) => result == Err::<
            GovernedVerifiedEncodedSeries,
            Schema7MetadataReaderError,
        >(error),
        Ok(row) => {
            &&& encoded_row_outcome(
                hash,
                symbols,
                planned,
                row,
                selection,
                match result {
                    Ok(series) => Ok(series@),
                    Err(error) => Err(error),
                },
            )
            &&& result matches Ok(series) ==> exists|capacity: usize|
                capacity >= row.len() && series.charge() == #[trigger] (capacity
                    * vstd::layout::size_of::<(u32, u32)>())
        },
    }
}

impl<'a> Schema7MetadataSession<'a> {
    /// Owns the selected labels of a row of symbols.
    pub(super) fn verified_series<H: Fn(&[u8]) -> u64, const DETAILED: bool>(
        &self,
        symbols: &GovernedSymbolSession,
        hash: &H,
        planned: &PlannedSeries,
        encoded_labels: &[(u32, u32)],
        selection: CanonicalLabelSelection<'_>,
        profile: &mut CanonicalLabelMaterializationProfile,
        reserve: &impl Fn(u64) -> bool,
    ) -> (result: Result<GovernedVerifiedSeries, Schema7MetadataReaderError>)
        requires
            hashes_all(*hash),
            answers(*reserve),
        ensures
            ran_out(*reserve, result) || series_outcome(
                *hash,
                symbols@,
                *planned,
                Ok(encoded_labels@),
                selection,
                result,
            ),
            advances(*old(profile), *final(profile), DETAILED),
    {
        let labels_result = self.materialize_and_verify_canonical_labels::<H, DETAILED>(
            symbols,
            hash,
            planned.expected_label_identity,
            encoded_labels,
            selection,
            profile,
            reserve,
        );
        let ghost outcome = texts_result(labels_result);
        assert(ran_out(*reserve, labels_result) || materialized_outcome(
            *hash,
            symbols@,
            planned.expected_label_identity,
            encoded_labels@,
            selection,
            outcome,
        ));
        let (labels, charge, metric_name_dropped_series_id) = labels_result?;
        Ok(
            GovernedVerifiedSeries {
                series_ref: planned.series_ref,
                series_id: planned.expected_label_identity,
                metric_name_dropped_series_id,
                kind_mask: planned.kind_mask,
                labels_complete: selection.labels_complete(),
                integrity_checked_label_count: encoded_labels.len(),
                labels,
                charge,
            },
        )
    }

    /// Keeps the selected symbols of a verified row.
    pub(super) fn verified_encoded_series<H: Fn(&[u8]) -> u64, const DETAILED: bool>(
        &self,
        symbols: &GovernedSymbolSession,
        hash: &H,
        planned: &PlannedSeries,
        row: Vec<(u32, u32)>,
        selection: CanonicalLabelSelection<'_>,
        profile: &mut CanonicalLabelMaterializationProfile,
    ) -> (result: Result<GovernedVerifiedEncodedSeries, Schema7MetadataReaderError>)
        requires
            hashes_all(*hash),
        ensures
            encoded_series_outcome(*hash, symbols@, *planned, Ok(row@), selection, result),
            advances(*old(profile), *final(profile), DETAILED),
    {
        let integrity_checked_label_count: usize = row.len();
        let capacity: usize = vec_capacity(&row);
        let charge: u64 = checked_vec_bytes::<(u32, u32)>(
            capacity,
            "schema-7 encoded-label allocation charge overflows",
        )?;
        let mut labels = row;
        let dropped = self.verify_and_select_encoded_labels::<H, DETAILED>(
            symbols,
            hash,
            planned.expected_label_identity,
            &mut labels,
            selection,
            profile,
        );
        let ghost outcome = match dropped {
            Ok(dropped) => Ok::<_, Schema7MetadataReaderError>((labels@, dropped)),
            Err(error) => Err(error),
        };
        assert(encoded_outcome(
            *hash,
            symbols@,
            planned.expected_label_identity,
            row@,
            selection,
            outcome,
        ));
        let metric_name_dropped_series_id: Option<u64> = dropped?;
        Ok(
            GovernedVerifiedEncodedSeries {
                series_ref: planned.series_ref,
                series_id: planned.expected_label_identity,
                metric_name_dropped_series_id,
                kind_mask: planned.kind_mask,
                labels_complete: selection.labels_complete(),
                integrity_checked_label_count,
                labels,
                charge,
            },
        )
    }

    /// Reads the complete label row of a planned series.
    pub(super) fn read_series_row<R: Fn(u64) -> bool>(
        &self,
        roots: &BoundSchema7Roots,
        symbols: &GovernedSymbolSession,
        planned: GovernedPlannedSeriesRef<'_>,
        reserve: &R,
    ) -> (result: Result<Vec<(u32, u32)>, Schema7MetadataReaderError>)
        requires
            roots@.wf(),
            answers(*reserve),
        ensures
            ran_out(*reserve, result) || match series_row_result(
                self@,
                roots@,
                symbols@,
                planned.spec_generation(),
                planned.planned(),
            ) {
                Err(error) => result == Err::<Vec<(u32, u32)>, Schema7MetadataReaderError>(error),
                Ok(row) => result is Ok && result->Ok_0@ == row,
            },
    {
        self.ensure_bound_roots(roots)?;
        self.ensure_provenance(planned.generation())?;
        symbol_result(symbols.ensure_same_generation(self.artifacts.generation))?;
        let locator = planned.value().cold_labels;
        proof {
            reveal(keyset_plan_result);
        }
        let keyset = self.load_keyset(roots, locator.keyset_id, reserve)?;
        self.validate_key_symbols(symbols, &keyset)?;
        reserve_series_scratch(reserve, list_bytes::<(u32, u32)>(keyset.len()))?;
        let block = self.load_keyset_block(roots, locator.keyset_id, reserve)?;
        record(validate_keyset_block_key_count(&block, keyset.len()))?;
        let plan = DecodedKeysetPlan { keyset, block };
        let mut dictionaries: Vec<(u32, Vec<u32>)> = Vec::new();
        let mut labels: Vec<(u32, u32)> = Vec::with_capacity(plan.keyset.len());
        self.decode_encoded_labels(
            roots,
            symbols,
            &plan,
            &mut dictionaries,
            locator.row,
            &mut labels,
            reserve,
        )?;
        Ok(labels)
    }

    /// Materializes one complete cold-label row and exposes its stable identity
    /// only after the same-generation symbols reproduce the fingerprint stored
    /// in the authenticated hot record.
    pub fn materialize_verified<H: Fn(&[u8]) -> u64>(
        &self,
        roots: &BoundSchema7Roots,
        symbols: &GovernedSymbolSession,
        hash: &H,
        planned: GovernedPlannedSeriesRef<'_>,
    ) -> (result: Result<GovernedVerifiedSeries, Schema7MetadataReaderError>)
        requires
            roots@.wf(),
            hashes_all(*hash),
        ensures
            series_outcome(
                *hash,
                symbols@,
                planned.planned(),
                series_row_result(
                    self@,
                    roots@,
                    symbols@,
                    planned.spec_generation(),
                    planned.planned(),
                ),
                CanonicalLabelSelection::All,
                result,
            ),
    {
        let mut profile = CanonicalLabelMaterializationProfile::default();
        self.materialize_verified_with_selection::<H, false>(
            roots,
            symbols,
            hash,
            planned,
            CanonicalLabelSelection::All,
            &mut profile,
            &grants,
        )
    }

    /// Checks the complete canonical row and its identity, but owns only labels
    /// whose names are requested.
    pub fn materialize_verified_selected<H: Fn(&[u8]) -> u64>(
        &self,
        roots: &BoundSchema7Roots,
        symbols: &GovernedSymbolSession,
        hash: &H,
        planned: GovernedPlannedSeriesRef<'_>,
        requested_label_names: &[String],
        derive_metric_name_dropped_identity: bool,
    ) -> (result: Result<GovernedVerifiedSeries, Schema7MetadataReaderError>)
        requires
            roots@.wf(),
            hashes_all(*hash),
        ensures
            series_outcome(
                *hash,
                symbols@,
                planned.planned(),
                series_row_result(
                    self@,
                    roots@,
                    symbols@,
                    planned.spec_generation(),
                    planned.planned(),
                ),
                (CanonicalLabelSelection::Requested {
                    names: requested_label_names,
                    derive_metric_name_dropped_identity,
                }),
                result,
            ),
    {
        let mut profile = CanonicalLabelMaterializationProfile::default();
        self.materialize_verified_with_selection::<H, false>(
            roots,
            symbols,
            hash,
            planned,
            CanonicalLabelSelection::Requested {
                names: requested_label_names,
                derive_metric_name_dropped_identity,
            },
            &mut profile,
            &grants,
        )
    }

    /// Materializes a planned series without reuse of decoded metadata.
    pub fn materialize_verified_with_selection<H: Fn(&[u8]) -> u64, const DETAILED: bool>(
        &self,
        roots: &BoundSchema7Roots,
        symbols: &GovernedSymbolSession,
        hash: &H,
        planned: GovernedPlannedSeriesRef<'_>,
        selection: CanonicalLabelSelection<'_>,
        profile: &mut CanonicalLabelMaterializationProfile,
        reserve: &impl Fn(u64) -> bool,
    ) -> (result: Result<GovernedVerifiedSeries, Schema7MetadataReaderError>)
        requires
            roots@.wf(),
            hashes_all(*hash),
            answers(*reserve),
        ensures
            ran_out(*reserve, result) || series_outcome(
                *hash,
                symbols@,
                planned.planned(),
                series_row_result(
                    self@,
                    roots@,
                    symbols@,
                    planned.spec_generation(),
                    planned.planned(),
                ),
                selection,
                result,
            ),
            advances(*old(profile), *final(profile), DETAILED),
    {
        let started = detailed_stage_started::<DETAILED>();
        let row = self.read_series_row(roots, symbols, planned, reserve)?;
        let verified = self.verified_series::<H, DETAILED>(
            symbols,
            hash,
            planned.value(),
            &row,
            selection,
            profile,
            reserve,
        )?;
        finish_materialization_profile(profile, &started);
        Ok(verified)
    }

    /// Verifies a planned series in its symbols without reuse of decoded
    /// metadata.
    pub fn materialize_verified_encoded_with_selection<H: Fn(&[u8]) -> u64, const DETAILED: bool>(
        &self,
        roots: &BoundSchema7Roots,
        symbols: &GovernedSymbolSession,
        hash: &H,
        planned: GovernedPlannedSeriesRef<'_>,
        selection: CanonicalLabelSelection<'_>,
        profile: &mut CanonicalLabelMaterializationProfile,
        reserve: &impl Fn(u64) -> bool,
    ) -> (result: Result<GovernedVerifiedEncodedSeries, Schema7MetadataReaderError>)
        requires
            roots@.wf(),
            hashes_all(*hash),
            answers(*reserve),
        ensures
            ran_out(*reserve, result) || encoded_series_outcome(
                *hash,
                symbols@,
                planned.planned(),
                series_row_result(
                    self@,
                    roots@,
                    symbols@,
                    planned.spec_generation(),
                    planned.planned(),
                ),
                selection,
                result,
            ),
            advances(*old(profile), *final(profile), DETAILED),
    {
        let started = detailed_stage_started::<DETAILED>();
        let row = self.read_series_row(roots, symbols, planned, reserve)?;
        let verified = self.verified_encoded_series::<H, DETAILED>(
            symbols,
            hash,
            planned.value(),
            row,
            selection,
            profile,
        )?;
        finish_materialization_profile(profile, &started);
        Ok(verified)
    }
}

} // verus!
