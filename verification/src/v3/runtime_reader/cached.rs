//! Lazy reuse of decoded cold metadata between the rows of a batch.

use vstd::prelude::*;

use super::cold::{cached_dictionaries, keyset_plan_result, DecodedKeysetPlan};
use super::labels::{symbol_result, CanonicalLabelSelection};
use super::materialize::{
    encoded_series_outcome, planned_row_result, series_outcome, series_row_result,
    GovernedVerifiedEncodedSeries, GovernedVerifiedSeries,
};
use super::profile::{
    advances, detailed_stage_started, finish_materialization_profile,
    CanonicalLabelMaterializationProfile,
};
use super::roots::GovernedPlannedSeriesRef;
use super::scratch::{list_bytes, ran_out, reserve_series_scratch};
use super::{
    checked_add_bytes, checked_vec_bytes, planning, provenance_result, vec_bytes_result,
    BoundRoots, BoundSchema7Roots, MetadataSession, Schema7MetadataReaderError,
    Schema7MetadataSession,
};
use crate::budget::{answered, answers, grants};
use crate::cold_v2::reader::KeySetBlock;
use crate::cold_v2::shapes::Slot;
use crate::symbols::{hashes_all, GovernedSymbolSession, Symbols};
use crate::v3::reader::PlannedSeries;

verus! {

/// A verified series and the time that verifying it took.
pub type ProfiledGovernedVerifiedSeries = (
    GovernedVerifiedSeries,
    CanonicalLabelMaterializationProfile,
);

/// A verified series in its symbols and the time that verifying it took.
pub type ProfiledGovernedVerifiedEncodedSeries = (
    GovernedVerifiedEncodedSeries,
    CanonicalLabelMaterializationProfile,
);

/// Lazy materialization state. Decoded cold metadata is reused after the first
/// visited row, while later rows and symbols remain untouched until the caller
/// actually advances to them.
#[derive(Debug)]
pub struct Schema7MaterializationContext {
    generation: u64,
    cache: Option<Schema7MaterializationCache>,
}

#[derive(Debug)]
struct Schema7MaterializationCache {
    plans: Vec<(u32, DecodedKeysetPlan)>,
    dictionaries: Vec<(u32, Vec<u32>)>,
    plan_capacity: usize,
}

/// Plans that were decoded before: sorted by keyset, and each what the stream
/// holds for its keyset.
spec fn cached_plans(
    session: MetadataSession,
    roots: BoundRoots,
    symbol_count: nat,
    plans: Seq<(u32, DecodedKeysetPlan)>,
) -> bool {
    &&& forall|i: int, j: int| 0 <= i < j < plans.len() ==> plans[i].0 < plans[j].0
    &&& forall|p: int|
        0 <= p < plans.len() ==> keyset_plan_result(
            session,
            roots,
            symbol_count,
            (#[trigger] plans[p]).0,
        ) == Ok::<(Seq<u32>, KeySetBlock), Schema7MetadataReaderError>(
            (plans[p].1.keyset@, plans[p].1.block@),
        )
}

impl Schema7MaterializationContext {
    /// The generation that the context belongs to.
    pub closed spec fn spec_generation(self) -> u64 {
        self.generation
    }

    /// Whether decoded metadata is kept.
    pub closed spec fn keeps(self) -> bool {
        self.cache is Some
    }

    /// What is kept is what the session reads.
    pub closed spec fn reflects(
        self,
        session: MetadataSession,
        roots: BoundRoots,
        symbol_count: nat,
    ) -> bool {
        self.cache matches Some(cache) ==> {
            &&& cached_plans(session, roots, symbol_count, cache.plans@)
            &&& cached_dictionaries(session, roots, symbol_count, cache.dictionaries@)
        }
    }

    /// The generation whose metadata is kept.
    pub fn generation(&self) -> (generation: u64)
        ensures
            generation == self.spec_generation(),
    {
        self.generation
    }

    /// Whether decoded metadata is kept.
    pub fn is_cached(&self) -> (cached: bool)
        ensures
            cached == self.keeps(),
    {
        self.cache.is_some()
    }
}

/// The bytes that a cache of these capacities declares.
pub open spec fn cache_bytes_result(plans: nat, dictionaries: nat) -> Result<
    u64,
    Schema7MetadataReaderError,
> {
    match vec_bytes_result(
        vstd::layout::size_of::<(u32, DecodedKeysetPlan)>(),
        plans,
        "schema-7 decoded keyset-plan allocation charge overflows",
    ) {
        Err(error) => Err(error),
        Ok(plan_bytes) => match vec_bytes_result(
            vstd::layout::size_of::<(u32, Vec<u32>)>(),
            dictionaries,
            "schema-7 decoded dictionary-cache allocation charge overflows",
        ) {
            Err(error) => Err(error),
            Ok(dictionary_bytes) => if plan_bytes + dictionary_bytes > u64::MAX {
                Err(planning("schema-7 materialization-cache allocation charge overflows"))
            } else {
                Ok((plan_bytes + dictionary_bytes) as u64)
            },
        },
    }
}

/// Finds the plan of a keyset in a sorted list.
fn find_plan(plans: &Vec<(u32, DecodedKeysetPlan)>, keyset_id: u32) -> (slot: Slot)
    requires
        forall|i: int, j: int| 0 <= i < j < plans@.len() ==> plans@[i].0 < plans@[j].0,
    ensures
        match slot {
            Slot::Found(p) => p < plans@.len() && plans@[p as int].0 == keyset_id,
            Slot::Missing(p) => {
                &&& p <= plans@.len()
                &&& forall|i: int| 0 <= i < p ==> (#[trigger] plans@[i]).0 < keyset_id
                &&& forall|i: int| p <= i < plans@.len() ==> keyset_id < (#[trigger] plans@[i]).0
            },
        },
{
    let mut low: usize = 0;
    let mut high: usize = plans.len();
    while low < high
        invariant
            low <= high <= plans@.len(),
            forall|i: int, j: int| 0 <= i < j < plans@.len() ==> plans@[i].0 < plans@[j].0,
            forall|i: int| 0 <= i < low ==> (#[trigger] plans@[i]).0 < keyset_id,
            forall|i: int| high <= i < plans@.len() ==> keyset_id < (#[trigger] plans@[i]).0,
        decreases high - low,
    {
        let mid: usize = low + (high - low) / 2;
        let found: u32 = plans[mid].0;
        if found == keyset_id {
            return Slot::Found(mid);
        }
        if found < keyset_id {
            low = mid + 1;
        } else {
            high = mid;
        }
    }
    Slot::Missing(low)
}

/// The row of a planned series, once the context is known to belong to the
/// generation of the session.
pub open spec fn cached_row_result(
    session: MetadataSession,
    roots: BoundRoots,
    symbols: Symbols,
    context_generation: u64,
    planned_generation: u64,
    planned: PlannedSeries,
) -> Result<Seq<(u32, u32)>, Schema7MetadataReaderError> {
    if provenance_result(session, roots.generation) is Err {
        Err(provenance_result(session, roots.generation)->Err_0)
    } else if provenance_result(session, context_generation) is Err {
        Err(provenance_result(session, context_generation)->Err_0)
    } else {
        series_row_result(session, roots, symbols, planned_generation, planned)
    }
}

/// A row that is read with reuse is the row that is read without.
pub proof fn cached_row_law(
    session: MetadataSession,
    roots: BoundRoots,
    symbols: Symbols,
    context_generation: u64,
    planned_generation: u64,
    planned: PlannedSeries,
)
    requires
        context_generation == session.generation,
    ensures
        cached_row_result(
            session,
            roots,
            symbols,
            context_generation,
            planned_generation,
            planned,
        ) == series_row_result(session, roots, symbols, planned_generation, planned),
{
}

impl<'a> Schema7MetadataSession<'a> {
    /// Creates lazy reuse state for one planned batch. If the memory for its
    /// bookkeeping is not granted, materialization remains correct and falls back
    /// to the scalar path.
    pub fn materialization_context<R: Fn(u64) -> bool>(
        &self,
        roots: &BoundSchema7Roots,
        planned_capacity: usize,
        reserve: &R,
    ) -> (result: Result<Schema7MaterializationContext, Schema7MetadataReaderError>)
        requires
            answers(*reserve),
        ensures
            ({
                let declared = cache_bytes_result(
                    planned_capacity as nat,
                    roots@.series.header.num_value_dicts as nat,
                );
                if provenance_result(self@, roots@.generation) is Err {
                    result == Err::<Schema7MaterializationContext, Schema7MetadataReaderError>(
                        provenance_result(self@, roots@.generation)->Err_0,
                    )
                } else if declared is Err {
                    result == Err::<Schema7MaterializationContext, Schema7MetadataReaderError>(
                        declared->Err_0,
                    )
                } else {
                    &&& result is Ok
                    &&& result->Ok_0.spec_generation() == self@.generation
                    &&& answered(*reserve, declared->Ok_0, result->Ok_0.keeps())
                    &&& forall|count: nat| #[trigger]
                        result->Ok_0.reflects(self@, roots@, count)
                }
            }),
    {
        self.ensure_bound_roots(roots)?;
        let dictionary_capacity: usize = roots.roots.series.header.num_value_dicts as usize;
        let declared: u64 = self.materialization_cache_bytes(planned_capacity, dictionary_capacity)?;
        let cache = if reserve(declared) {
            Some(
                Schema7MaterializationCache {
                    plans: Vec::new(),
                    dictionaries: Vec::new(),
                    plan_capacity: planned_capacity,
                },
            )
        } else {
            None
        };
        Ok(Schema7MaterializationContext { generation: self.artifacts.generation, cache })
    }

    fn materialization_cache_bytes(&self, planned_capacity: usize, dictionary_capacity: usize) -> (result:
        Result<u64, Schema7MetadataReaderError>)
        ensures
            result == cache_bytes_result(planned_capacity as nat, dictionary_capacity as nat),
    {
        let plan_bytes: u64 = checked_vec_bytes::<(u32, DecodedKeysetPlan)>(
            planned_capacity,
            "schema-7 decoded keyset-plan allocation charge overflows",
        )?;
        let dictionary_bytes: u64 = checked_vec_bytes::<(u32, Vec<u32>)>(
            dictionary_capacity,
            "schema-7 decoded dictionary-cache allocation charge overflows",
        )?;
        checked_add_bytes(
            plan_bytes,
            dictionary_bytes,
            "schema-7 materialization-cache allocation charge overflows",
        )
    }

    /// The plan of a keyset, from those that were decoded before where it is
    /// among them.
    fn cached_plan<R: Fn(u64) -> bool>(
        &self,
        roots: &BoundSchema7Roots,
        symbols: &GovernedSymbolSession,
        plans: &mut Vec<(u32, DecodedKeysetPlan)>,
        keyset_id: u32,
        reserve: &R,
    ) -> (result: Result<usize, Schema7MetadataReaderError>)
        requires
            roots@.wf(),
            cached_plans(self@, roots@, symbols@.values.len(), old(plans)@),
            answers(*reserve),
        ensures
            cached_plans(self@, roots@, symbols@.values.len(), final(plans)@),
            ran_out(*reserve, result) || match keyset_plan_result(
                self@,
                roots@,
                symbols@.values.len(),
                keyset_id,
            ) {
                Err(error) => result == Err::<usize, Schema7MetadataReaderError>(error),
                Ok((keys, block)) => result is Ok && result->Ok_0 < final(plans)@.len()
                    && final(plans)@[result->Ok_0 as int].1.keyset@ == keys
                    && final(plans)@[result->Ok_0 as int].1.block@ == block,
            },
    {
        let ghost count = symbols@.values.len();
        match find_plan(plans, keyset_id) {
            Slot::Found(index) => Ok(index),
            Slot::Missing(index) => {
                let plan = self.load_decoded_keyset_plan(roots, symbols, keyset_id, reserve)?;
                let ghost before = plans@;
                plans.insert(index, (keyset_id, plan));
                proof {
                    let after = plans@;
                    assert forall|i: int, j: int| 0 <= i < j < after.len() implies after[i].0
                        < after[j].0 by {
                        let a = if i < index { i } else { i - 1 };
                        let b = if j < index { j } else { j - 1 };
                        if i != index && j != index {
                            assert(before[a].0 < before[b].0);
                        } else if i == index {
                            assert(keyset_id < before[b].0);
                        } else {
                            assert(before[a].0 < keyset_id);
                        }
                    }
                    assert forall|p: int| 0 <= p < after.len() implies keyset_plan_result(
                        self@,
                        roots@,
                        count,
                        (#[trigger] after[p]).0,
                    ) == Ok::<(Seq<u32>, KeySetBlock), Schema7MetadataReaderError>(
                        (after[p].1.keyset@, after[p].1.block@),
                    ) by {
                        if p != index {
                            let from = if p < index { p } else { p - 1 };
                            assert(after[p] == before[from]);
                        }
                    }
                }
                Ok(index)
            },
        }
    }

    /// Reads a row with the decoded metadata of a cache.
    fn read_cached_row<R: Fn(u64) -> bool>(
        &self,
        roots: &BoundSchema7Roots,
        symbols: &GovernedSymbolSession,
        cache: &mut Schema7MaterializationCache,
        planned: &PlannedSeries,
        reserve: &R,
    ) -> (result: Result<Vec<(u32, u32)>, Schema7MetadataReaderError>)
        requires
            roots@.wf(),
            cached_plans(self@, roots@, symbols@.values.len(), old(cache).plans@),
            cached_dictionaries(self@, roots@, symbols@.values.len(), old(cache).dictionaries@),
            answers(*reserve),
        ensures
            cached_plans(self@, roots@, symbols@.values.len(), final(cache).plans@),
            cached_dictionaries(self@, roots@, symbols@.values.len(), final(cache).dictionaries@),
            ran_out(*reserve, result) || match planned_row_result(
                self@,
                roots@,
                symbols@.values.len(),
                *planned,
            ) {
                Err(error) => result == Err::<Vec<(u32, u32)>, Schema7MetadataReaderError>(error),
                Ok(row) => result is Ok && result->Ok_0@ == row,
            },
    {
        let plan_index: usize = self.cached_plan(
            roots,
            symbols,
            &mut cache.plans,
            planned.cold_labels.keyset_id,
            reserve,
        )?;
        reserve_series_scratch(
            reserve,
            list_bytes::<(u32, u32)>(cache.plans[plan_index].1.keyset.len()),
        )?;
        let mut labels: Vec<(u32, u32)> = Vec::with_capacity(
            cache.plans[plan_index].1.keyset.len(),
        );
        self.decode_encoded_labels(
            roots,
            symbols,
            &cache.plans[plan_index].1,
            &mut cache.dictionaries,
            planned.cold_labels.row,
            &mut labels,
            reserve,
        )?;
        Ok(labels)
    }

    /// Reads a row with the decoded metadata of a context. A context that has
    /// no room for another keyset gives its metadata up.
    fn read_context_row<R: Fn(u64) -> bool>(
        &self,
        roots: &BoundSchema7Roots,
        symbols: &GovernedSymbolSession,
        context: &mut Schema7MaterializationContext,
        planned: GovernedPlannedSeriesRef<'_>,
        reserve: &R,
    ) -> (result: Result<Vec<(u32, u32)>, Schema7MetadataReaderError>)
        requires
            roots@.wf(),
            old(context).reflects(self@, roots@, symbols@.values.len()),
            answers(*reserve),
        ensures
            final(context).reflects(self@, roots@, symbols@.values.len()),
            final(context).spec_generation() == old(context).spec_generation(),
            ran_out(*reserve, result) || match cached_row_result(
                self@,
                roots@,
                symbols@,
                old(context).spec_generation(),
                planned.spec_generation(),
                planned.planned(),
            ) {
                Err(error) => result == Err::<Vec<(u32, u32)>, Schema7MetadataReaderError>(error),
                Ok(row) => result is Ok && result->Ok_0@ == row,
            },
    {
        self.ensure_bound_roots(roots)?;
        self.ensure_provenance(context.generation)?;
        self.ensure_provenance(planned.generation())?;
        symbol_result(symbols.ensure_same_generation(self.artifacts.generation))?;
        let keyset_id: u32 = planned.value().cold_labels.keyset_id;
        let full = match &context.cache {
            Some(cache) => match find_plan(&cache.plans, keyset_id) {
                Slot::Found(_) => false,
                Slot::Missing(_) => cache.plans.len() >= cache.plan_capacity,
            },
            None => true,
        };
        if full {
            context.cache = None;
            return self.read_series_row(roots, symbols, planned, reserve);
        }
        match &mut context.cache {
            Some(cache) => self.read_cached_row(
                roots,
                symbols,
                cache,
                planned.value(),
                reserve,
            ),
            None => self.read_series_row(roots, symbols, planned, reserve),
        }
    }

    /// Materializes only the current series while retaining already decoded
    /// shared cold metadata for later series. A visitor that stops after this
    /// value therefore cannot observe corruption that belongs exclusively to an
    /// unvisited later row.
    pub fn materialize_verified_cached<H: Fn(&[u8]) -> u64>(
        &self,
        roots: &BoundSchema7Roots,
        symbols: &GovernedSymbolSession,
        hash: &H,
        context: &mut Schema7MaterializationContext,
        planned: GovernedPlannedSeriesRef<'_>,
    ) -> (result: Result<GovernedVerifiedSeries, Schema7MetadataReaderError>)
        requires
            roots@.wf(),
            hashes_all(*hash),
            old(context).reflects(self@, roots@, symbols@.values.len()),
        ensures
            final(context).reflects(self@, roots@, symbols@.values.len()),
            final(context).spec_generation() == old(context).spec_generation(),
            series_outcome(
                *hash,
                symbols@,
                planned.planned(),
                cached_row_result(
                    self@,
                    roots@,
                    symbols@,
                    old(context).spec_generation(),
                    planned.spec_generation(),
                    planned.planned(),
                ),
                CanonicalLabelSelection::All,
                result,
            ),
    {
        let mut profile = CanonicalLabelMaterializationProfile::default();
        self.materialize_verified_selected_cached_impl::<H, false>(
            roots,
            symbols,
            hash,
            context,
            planned,
            CanonicalLabelSelection::All,
            &mut profile,
            &grants,
        )
    }

    /// Cached counterpart to [`Self::materialize_verified_selected`]. Omitted
    /// labels are still decoded, checked, and part of the verified identity.
    pub fn materialize_verified_selected_cached<H: Fn(&[u8]) -> u64>(
        &self,
        roots: &BoundSchema7Roots,
        symbols: &GovernedSymbolSession,
        hash: &H,
        context: &mut Schema7MaterializationContext,
        planned: GovernedPlannedSeriesRef<'_>,
        requested_label_names: &[String],
        derive_metric_name_dropped_identity: bool,
    ) -> (result: Result<GovernedVerifiedSeries, Schema7MetadataReaderError>)
        requires
            roots@.wf(),
            hashes_all(*hash),
            old(context).reflects(self@, roots@, symbols@.values.len()),
        ensures
            final(context).reflects(self@, roots@, symbols@.values.len()),
            final(context).spec_generation() == old(context).spec_generation(),
            series_outcome(
                *hash,
                symbols@,
                planned.planned(),
                cached_row_result(
                    self@,
                    roots@,
                    symbols@,
                    old(context).spec_generation(),
                    planned.spec_generation(),
                    planned.planned(),
                ),
                (CanonicalLabelSelection::Requested {
                    names: requested_label_names,
                    derive_metric_name_dropped_identity,
                }),
                result,
            ),
    {
        let mut profile = CanonicalLabelMaterializationProfile::default();
        self.materialize_verified_selected_cached_impl::<H, false>(
            roots,
            symbols,
            hash,
            context,
            planned,
            CanonicalLabelSelection::Requested {
                names: requested_label_names,
                derive_metric_name_dropped_identity,
            },
            &mut profile,
            &grants,
        )
    }

    /// [`Self::materialize_verified_cached`] with the time that it took,
    /// attributed to stages.
    pub fn materialize_verified_cached_profiled<H: Fn(&[u8]) -> u64>(
        &self,
        roots: &BoundSchema7Roots,
        symbols: &GovernedSymbolSession,
        hash: &H,
        context: &mut Schema7MaterializationContext,
        planned: GovernedPlannedSeriesRef<'_>,
    ) -> (result: Result<ProfiledGovernedVerifiedSeries, Schema7MetadataReaderError>)
        requires
            roots@.wf(),
            hashes_all(*hash),
            old(context).reflects(self@, roots@, symbols@.values.len()),
        ensures
            final(context).reflects(self@, roots@, symbols@.values.len()),
            final(context).spec_generation() == old(context).spec_generation(),
            series_outcome(
                *hash,
                symbols@,
                planned.planned(),
                cached_row_result(
                    self@,
                    roots@,
                    symbols@,
                    old(context).spec_generation(),
                    planned.spec_generation(),
                    planned.planned(),
                ),
                CanonicalLabelSelection::All,
                match result {
                    Ok((series, _)) => Ok(series),
                    Err(error) => Err(error),
                },
            ),
    {
        let mut profile = CanonicalLabelMaterializationProfile::default();
        let verified = self.materialize_verified_selected_cached_impl::<H, true>(
            roots,
            symbols,
            hash,
            context,
            planned,
            CanonicalLabelSelection::All,
            &mut profile,
            &grants,
        )?;
        Ok((verified, profile))
    }

    /// [`Self::materialize_verified_selected_cached`] with the time that it
    /// took, attributed to stages.
    pub fn materialize_verified_selected_cached_profiled<H: Fn(&[u8]) -> u64>(
        &self,
        roots: &BoundSchema7Roots,
        symbols: &GovernedSymbolSession,
        hash: &H,
        context: &mut Schema7MaterializationContext,
        planned: GovernedPlannedSeriesRef<'_>,
        requested_label_names: &[String],
        derive_metric_name_dropped_identity: bool,
    ) -> (result: Result<ProfiledGovernedVerifiedSeries, Schema7MetadataReaderError>)
        requires
            roots@.wf(),
            hashes_all(*hash),
            old(context).reflects(self@, roots@, symbols@.values.len()),
        ensures
            final(context).reflects(self@, roots@, symbols@.values.len()),
            final(context).spec_generation() == old(context).spec_generation(),
            series_outcome(
                *hash,
                symbols@,
                planned.planned(),
                cached_row_result(
                    self@,
                    roots@,
                    symbols@,
                    old(context).spec_generation(),
                    planned.spec_generation(),
                    planned.planned(),
                ),
                (CanonicalLabelSelection::Requested {
                    names: requested_label_names,
                    derive_metric_name_dropped_identity,
                }),
                match result {
                    Ok((series, _)) => Ok(series),
                    Err(error) => Err(error),
                },
            ),
    {
        let mut profile = CanonicalLabelMaterializationProfile::default();
        let verified = self.materialize_verified_selected_cached_impl::<H, true>(
            roots,
            symbols,
            hash,
            context,
            planned,
            CanonicalLabelSelection::Requested {
                names: requested_label_names,
                derive_metric_name_dropped_identity,
            },
            &mut profile,
            &grants,
        )?;
        Ok((verified, profile))
    }

    /// Compact-label counterpart to [`Self::materialize_verified_cached`]. The
    /// complete row and all symbols are verified before source symbols are
    /// handed out.
    pub fn materialize_verified_encoded_cached<H: Fn(&[u8]) -> u64>(
        &self,
        roots: &BoundSchema7Roots,
        symbols: &GovernedSymbolSession,
        hash: &H,
        context: &mut Schema7MaterializationContext,
        planned: GovernedPlannedSeriesRef<'_>,
    ) -> (result: Result<GovernedVerifiedEncodedSeries, Schema7MetadataReaderError>)
        requires
            roots@.wf(),
            hashes_all(*hash),
            old(context).reflects(self@, roots@, symbols@.values.len()),
        ensures
            final(context).reflects(self@, roots@, symbols@.values.len()),
            final(context).spec_generation() == old(context).spec_generation(),
            encoded_series_outcome(
                *hash,
                symbols@,
                planned.planned(),
                cached_row_result(
                    self@,
                    roots@,
                    symbols@,
                    old(context).spec_generation(),
                    planned.spec_generation(),
                    planned.planned(),
                ),
                CanonicalLabelSelection::All,
                result,
            ),
    {
        let mut profile = CanonicalLabelMaterializationProfile::default();
        self.materialize_verified_encoded_selected_cached_impl::<H, false>(
            roots,
            symbols,
            hash,
            context,
            planned,
            CanonicalLabelSelection::All,
            &mut profile,
            &grants,
        )
    }

    /// Compact-label counterpart to
    /// [`Self::materialize_verified_selected_cached`].
    pub fn materialize_verified_encoded_selected_cached<H: Fn(&[u8]) -> u64>(
        &self,
        roots: &BoundSchema7Roots,
        symbols: &GovernedSymbolSession,
        hash: &H,
        context: &mut Schema7MaterializationContext,
        planned: GovernedPlannedSeriesRef<'_>,
        requested_label_names: &[String],
        derive_metric_name_dropped_identity: bool,
    ) -> (result: Result<GovernedVerifiedEncodedSeries, Schema7MetadataReaderError>)
        requires
            roots@.wf(),
            hashes_all(*hash),
            old(context).reflects(self@, roots@, symbols@.values.len()),
        ensures
            final(context).reflects(self@, roots@, symbols@.values.len()),
            final(context).spec_generation() == old(context).spec_generation(),
            encoded_series_outcome(
                *hash,
                symbols@,
                planned.planned(),
                cached_row_result(
                    self@,
                    roots@,
                    symbols@,
                    old(context).spec_generation(),
                    planned.spec_generation(),
                    planned.planned(),
                ),
                (CanonicalLabelSelection::Requested {
                    names: requested_label_names,
                    derive_metric_name_dropped_identity,
                }),
                result,
            ),
    {
        let mut profile = CanonicalLabelMaterializationProfile::default();
        self.materialize_verified_encoded_selected_cached_impl::<H, false>(
            roots,
            symbols,
            hash,
            context,
            planned,
            CanonicalLabelSelection::Requested {
                names: requested_label_names,
                derive_metric_name_dropped_identity,
            },
            &mut profile,
            &grants,
        )
    }

    /// [`Self::materialize_verified_encoded_cached`] with the time that it
    /// took, attributed to stages.
    pub fn materialize_verified_encoded_cached_profiled<H: Fn(&[u8]) -> u64>(
        &self,
        roots: &BoundSchema7Roots,
        symbols: &GovernedSymbolSession,
        hash: &H,
        context: &mut Schema7MaterializationContext,
        planned: GovernedPlannedSeriesRef<'_>,
    ) -> (result: Result<ProfiledGovernedVerifiedEncodedSeries, Schema7MetadataReaderError>)
        requires
            roots@.wf(),
            hashes_all(*hash),
            old(context).reflects(self@, roots@, symbols@.values.len()),
        ensures
            final(context).reflects(self@, roots@, symbols@.values.len()),
            final(context).spec_generation() == old(context).spec_generation(),
            encoded_series_outcome(
                *hash,
                symbols@,
                planned.planned(),
                cached_row_result(
                    self@,
                    roots@,
                    symbols@,
                    old(context).spec_generation(),
                    planned.spec_generation(),
                    planned.planned(),
                ),
                CanonicalLabelSelection::All,
                match result {
                    Ok((series, _)) => Ok(series),
                    Err(error) => Err(error),
                },
            ),
    {
        let mut profile = CanonicalLabelMaterializationProfile::default();
        let verified = self.materialize_verified_encoded_selected_cached_impl::<H, true>(
            roots,
            symbols,
            hash,
            context,
            planned,
            CanonicalLabelSelection::All,
            &mut profile,
            &grants,
        )?;
        Ok((verified, profile))
    }

    /// [`Self::materialize_verified_encoded_selected_cached`] with the time
    /// that it took, attributed to stages.
    pub fn materialize_verified_encoded_selected_cached_profiled<H: Fn(&[u8]) -> u64>(
        &self,
        roots: &BoundSchema7Roots,
        symbols: &GovernedSymbolSession,
        hash: &H,
        context: &mut Schema7MaterializationContext,
        planned: GovernedPlannedSeriesRef<'_>,
        requested_label_names: &[String],
        derive_metric_name_dropped_identity: bool,
    ) -> (result: Result<ProfiledGovernedVerifiedEncodedSeries, Schema7MetadataReaderError>)
        requires
            roots@.wf(),
            hashes_all(*hash),
            old(context).reflects(self@, roots@, symbols@.values.len()),
        ensures
            final(context).reflects(self@, roots@, symbols@.values.len()),
            final(context).spec_generation() == old(context).spec_generation(),
            encoded_series_outcome(
                *hash,
                symbols@,
                planned.planned(),
                cached_row_result(
                    self@,
                    roots@,
                    symbols@,
                    old(context).spec_generation(),
                    planned.spec_generation(),
                    planned.planned(),
                ),
                (CanonicalLabelSelection::Requested {
                    names: requested_label_names,
                    derive_metric_name_dropped_identity,
                }),
                match result {
                    Ok((series, _)) => Ok(series),
                    Err(error) => Err(error),
                },
            ),
    {
        let mut profile = CanonicalLabelMaterializationProfile::default();
        let verified = self.materialize_verified_encoded_selected_cached_impl::<H, true>(
            roots,
            symbols,
            hash,
            context,
            planned,
            CanonicalLabelSelection::Requested {
                names: requested_label_names,
                derive_metric_name_dropped_identity,
            },
            &mut profile,
            &grants,
        )?;
        Ok((verified, profile))
    }

    /// Reads a row with the decoded metadata of a context, and verifies it.
    fn cached_attempt<H: Fn(&[u8]) -> u64, const DETAILED: bool>(
        &self,
        roots: &BoundSchema7Roots,
        symbols: &GovernedSymbolSession,
        hash: &H,
        context: &mut Schema7MaterializationContext,
        planned: GovernedPlannedSeriesRef<'_>,
        selection: CanonicalLabelSelection<'_>,
        profile: &mut CanonicalLabelMaterializationProfile,
        reserve: &impl Fn(u64) -> bool,
    ) -> (result: Result<GovernedVerifiedSeries, Schema7MetadataReaderError>)
        requires
            roots@.wf(),
            hashes_all(*hash),
            old(context).reflects(self@, roots@, symbols@.values.len()),
            answers(*reserve),
        ensures
            final(context).reflects(self@, roots@, symbols@.values.len()),
            final(context).spec_generation() == old(context).spec_generation(),
            ran_out(*reserve, result) || series_outcome(
                *hash,
                symbols@,
                planned.planned(),
                cached_row_result(
                    self@,
                    roots@,
                    symbols@,
                    old(context).spec_generation(),
                    planned.spec_generation(),
                    planned.planned(),
                ),
                selection,
                result,
            ),
            advances(*old(profile), *final(profile), DETAILED),
    {
        let row = self.read_context_row(roots, symbols, context, planned, reserve)?;
        self.verified_series::<H, DETAILED>(
            symbols,
            hash,
            planned.value(),
            &row,
            selection,
            profile,
            reserve,
        )
    }

    /// Materializes a planned series with the decoded metadata of a context.
    /// Decoded metadata is an optimization: where memory is not granted, it is
    /// given up, and the series is materialized without it.
    pub fn materialize_verified_selected_cached_impl<H: Fn(&[u8]) -> u64, const DETAILED: bool>(
        &self,
        roots: &BoundSchema7Roots,
        symbols: &GovernedSymbolSession,
        hash: &H,
        context: &mut Schema7MaterializationContext,
        planned: GovernedPlannedSeriesRef<'_>,
        selection: CanonicalLabelSelection<'_>,
        profile: &mut CanonicalLabelMaterializationProfile,
        reserve: &impl Fn(u64) -> bool,
    ) -> (result: Result<GovernedVerifiedSeries, Schema7MetadataReaderError>)
        requires
            roots@.wf(),
            hashes_all(*hash),
            old(context).reflects(self@, roots@, symbols@.values.len()),
            answers(*reserve),
        ensures
            final(context).reflects(self@, roots@, symbols@.values.len()),
            final(context).spec_generation() == old(context).spec_generation(),
            ran_out(*reserve, result) || series_outcome(
                *hash,
                symbols@,
                planned.planned(),
                cached_row_result(
                    self@,
                    roots@,
                    symbols@,
                    old(context).spec_generation(),
                    planned.spec_generation(),
                    planned.planned(),
                ),
                selection,
                result,
            ),
            advances(*old(profile), *final(profile), DETAILED),
    {
        let started = detailed_stage_started::<DETAILED>();
        self.ensure_bound_roots(roots)?;
        self.ensure_provenance(context.generation)?;
        let attempt = self.cached_attempt::<H, DETAILED>(
            roots,
            symbols,
            hash,
            context,
            planned,
            selection,
            profile,
            reserve,
        );
        let out_of_memory = match &attempt {
            Err(Schema7MetadataReaderError::Budget { .. }) => true,
            _ => false,
        };
        if out_of_memory && context.cache.is_some() {
            context.cache = None;
            let verified = self.materialize_verified_with_selection::<H, DETAILED>(
                roots,
                symbols,
                hash,
                planned,
                selection,
                profile,
                reserve,
            )?;
            finish_materialization_profile(profile, &started);
            return Ok(verified);
        }
        let verified = attempt?;
        finish_materialization_profile(profile, &started);
        Ok(verified)
    }

    /// Reads a row with the decoded metadata of a context, and verifies it.
    fn cached_encoded_attempt<H: Fn(&[u8]) -> u64, const DETAILED: bool>(
        &self,
        roots: &BoundSchema7Roots,
        symbols: &GovernedSymbolSession,
        hash: &H,
        context: &mut Schema7MaterializationContext,
        planned: GovernedPlannedSeriesRef<'_>,
        selection: CanonicalLabelSelection<'_>,
        profile: &mut CanonicalLabelMaterializationProfile,
        reserve: &impl Fn(u64) -> bool,
    ) -> (result: Result<GovernedVerifiedEncodedSeries, Schema7MetadataReaderError>)
        requires
            roots@.wf(),
            hashes_all(*hash),
            old(context).reflects(self@, roots@, symbols@.values.len()),
            answers(*reserve),
        ensures
            final(context).reflects(self@, roots@, symbols@.values.len()),
            final(context).spec_generation() == old(context).spec_generation(),
            ran_out(*reserve, result) || encoded_series_outcome(
                *hash,
                symbols@,
                planned.planned(),
                cached_row_result(
                    self@,
                    roots@,
                    symbols@,
                    old(context).spec_generation(),
                    planned.spec_generation(),
                    planned.planned(),
                ),
                selection,
                result,
            ),
            advances(*old(profile), *final(profile), DETAILED),
    {
        let row = self.read_context_row(roots, symbols, context, planned, reserve)?;
        self.verified_encoded_series::<H, DETAILED>(
            symbols,
            hash,
            planned.value(),
            row,
            selection,
            profile,
        )
    }

    /// Verifies a planned series in its symbols with the decoded metadata of a
    /// context.
    /// Decoded metadata is an optimization: where memory is not granted, it is
    /// given up, and the series is materialized without it.
    pub fn materialize_verified_encoded_selected_cached_impl<H: Fn(&[u8]) -> u64, const DETAILED: bool>(
        &self,
        roots: &BoundSchema7Roots,
        symbols: &GovernedSymbolSession,
        hash: &H,
        context: &mut Schema7MaterializationContext,
        planned: GovernedPlannedSeriesRef<'_>,
        selection: CanonicalLabelSelection<'_>,
        profile: &mut CanonicalLabelMaterializationProfile,
        reserve: &impl Fn(u64) -> bool,
    ) -> (result: Result<GovernedVerifiedEncodedSeries, Schema7MetadataReaderError>)
        requires
            roots@.wf(),
            hashes_all(*hash),
            old(context).reflects(self@, roots@, symbols@.values.len()),
            answers(*reserve),
        ensures
            final(context).reflects(self@, roots@, symbols@.values.len()),
            final(context).spec_generation() == old(context).spec_generation(),
            ran_out(*reserve, result) || encoded_series_outcome(
                *hash,
                symbols@,
                planned.planned(),
                cached_row_result(
                    self@,
                    roots@,
                    symbols@,
                    old(context).spec_generation(),
                    planned.spec_generation(),
                    planned.planned(),
                ),
                selection,
                result,
            ),
            advances(*old(profile), *final(profile), DETAILED),
    {
        let started = detailed_stage_started::<DETAILED>();
        self.ensure_bound_roots(roots)?;
        self.ensure_provenance(context.generation)?;
        let attempt = self.cached_encoded_attempt::<H, DETAILED>(
            roots,
            symbols,
            hash,
            context,
            planned,
            selection,
            profile,
            reserve,
        );
        let out_of_memory = match &attempt {
            Err(Schema7MetadataReaderError::Budget { .. }) => true,
            _ => false,
        };
        if out_of_memory && context.cache.is_some() {
            context.cache = None;
            let verified = self.materialize_verified_encoded_with_selection::<H, DETAILED>(
                roots,
                symbols,
                hash,
                planned,
                selection,
                profile,
                reserve,
            )?;
            finish_materialization_profile(profile, &started);
            return Ok(verified);
        }
        let verified = attempt?;
        finish_materialization_profile(profile, &started);
        Ok(verified)
    }
}

} // verus!
