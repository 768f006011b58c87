//! Attribution of the time that materializing a row takes.

use std::time::Instant;

use vstd::prelude::*;

use crate::clock::{clock_elapsed, clock_now};

verus! {

/// Exclusive attribution for canonical rows, in nanoseconds.
///
/// The complete elapsed time of a materialization is partitioned across these
/// fields. Page reads and validation needed to reconstruct the row are charged
/// to `canonical_row_decode`, and symbol work to `symbol_resolution`.
#[derive(Debug, Clone, Copy, PartialEq, Eq, Structural)]
pub struct CanonicalLabelMaterializationProfile {
    pub canonical_row_decode: u64,
    pub symbol_resolution: u64,
    pub canonical_identity: u64,
    pub label_construction: u64,
}

pub open spec fn saturating_sum(a: int, b: int) -> int {
    if a + b > u64::MAX {
        u64::MAX as int
    } else {
        a + b
    }
}

pub open spec fn saturating_difference(a: int, b: int) -> int {
    if a < b {
        0
    } else {
        a - b
    }
}

/// Time is charged to a profile only where attribution is detailed, and what
/// was charged stays charged.
pub open spec fn advances(
    before: CanonicalLabelMaterializationProfile,
    after: CanonicalLabelMaterializationProfile,
    detailed: bool,
) -> bool {
    &&& !detailed ==> after == before
    &&& before.canonical_row_decode <= after.canonical_row_decode
    &&& before.symbol_resolution <= after.symbol_resolution
    &&& before.canonical_identity <= after.canonical_identity
    &&& before.label_construction <= after.label_construction
}

/// A profile with more time charged to the canonical identity.
pub open spec fn identity_charged(
    profile: CanonicalLabelMaterializationProfile,
    elapsed: u64,
) -> CanonicalLabelMaterializationProfile {
    CanonicalLabelMaterializationProfile {
        canonical_identity: saturating_sum(
            profile.canonical_identity as int,
            elapsed as int,
        ) as u64,
        ..profile
    }
}

/// A profile with more time charged to the construction of labels.
pub open spec fn construction_charged(
    profile: CanonicalLabelMaterializationProfile,
    elapsed: u64,
) -> CanonicalLabelMaterializationProfile {
    CanonicalLabelMaterializationProfile {
        label_construction: saturating_sum(
            profile.label_construction as int,
            elapsed as int,
        ) as u64,
        ..profile
    }
}

/// A profile with the time charged to symbol resolution that is left of the
/// elapsed time without the identity and construction time charged since
/// `before`.
pub open spec fn resolution_charged(
    profile: CanonicalLabelMaterializationProfile,
    before: CanonicalLabelMaterializationProfile,
    elapsed: u64,
) -> CanonicalLabelMaterializationProfile {
    CanonicalLabelMaterializationProfile {
        symbol_resolution: saturating_sum(
            profile.symbol_resolution as int,
            saturating_difference(
                elapsed as int,
                saturating_sum(
                    saturating_difference(
                        profile.canonical_identity as int,
                        before.canonical_identity as int,
                    ),
                    saturating_difference(
                        profile.label_construction as int,
                        before.label_construction as int,
                    ),
                ),
            ),
        ) as u64,
        ..profile
    }
}

/// A profile with the time charged to the row decode that no stage accounts for.
pub open spec fn row_charged(
    profile: CanonicalLabelMaterializationProfile,
    elapsed: u64,
) -> CanonicalLabelMaterializationProfile {
    CanonicalLabelMaterializationProfile {
        canonical_row_decode: saturating_sum(
            profile.canonical_row_decode as int,
            saturating_difference(elapsed as int, profile.stages()),
        ) as u64,
        ..profile
    }
}

/// The start of a stage, where attribution is detailed.
pub fn detailed_stage_started<const DETAILED: bool>() -> (started: Option<Instant>)
    ensures
        started is Some <==> DETAILED,
{
    if DETAILED {
        Some(clock_now())
    } else {
        None
    }
}

/// Charges the time since the start of a stage to the canonical identity.
/// Returns that time; a stage that was not started takes none.
pub fn finish_identity_stage(
    profile: &mut CanonicalLabelMaterializationProfile,
    started: &Option<Instant>,
) -> (charged: Option<u64>)
    ensures
        charged is Some <==> *started is Some,
        *final(profile) == (match charged {
            Some(elapsed) => identity_charged(*old(profile), elapsed),
            None => *old(profile),
        }),
        advances(*old(profile), *final(profile), *started is Some),
{
    match started {
        Some(started) => {
            let elapsed: u64 = clock_elapsed(started);
            profile.record_identity(elapsed);
            Some(elapsed)
        },
        None => None,
    }
}

/// Charges the time since the start of a stage to the construction of labels.
/// Returns that time; a stage that was not started takes none.
pub fn finish_construction_stage(
    profile: &mut CanonicalLabelMaterializationProfile,
    started: &Option<Instant>,
) -> (charged: Option<u64>)
    ensures
        charged is Some <==> *started is Some,
        *final(profile) == (match charged {
            Some(elapsed) => construction_charged(*old(profile), elapsed),
            None => *old(profile),
        }),
        advances(*old(profile), *final(profile), *started is Some),
{
    match started {
        Some(started) => {
            let elapsed: u64 = clock_elapsed(started);
            profile.record_construction(elapsed);
            Some(elapsed)
        },
        None => None,
    }
}

/// Charges the time since the start of a stage to symbol resolution, as far as
/// the stages within it do not account for it. Returns the time since that start;
/// a stage that was not started takes none.
pub fn finish_resolution_stage(
    profile: &mut CanonicalLabelMaterializationProfile,
    before: CanonicalLabelMaterializationProfile,
    started: &Option<Instant>,
) -> (charged: Option<u64>)
    ensures
        charged is Some <==> *started is Some,
        *final(profile) == (match charged {
            Some(elapsed) => resolution_charged(*old(profile), before, elapsed),
            None => *old(profile),
        }),
        advances(*old(profile), *final(profile), *started is Some),
{
    match started {
        Some(started) => {
            let elapsed: u64 = clock_elapsed(started);
            profile.record_resolution(before, elapsed);
            Some(elapsed)
        },
        None => None,
    }
}

/// Charges the rest of the time since the start of a row to the row decode.
/// Returns the time since that start; a row that was not started takes none.
pub fn finish_materialization_profile(
    profile: &mut CanonicalLabelMaterializationProfile,
    started: &Option<Instant>,
) -> (charged: Option<u64>)
    ensures
        charged is Some <==> *started is Some,
        *final(profile) == (match charged {
            Some(elapsed) => row_charged(*old(profile), elapsed),
            None => *old(profile),
        }),
        advances(*old(profile), *final(profile), *started is Some),
{
    match started {
        Some(started) => {
            let elapsed: u64 = clock_elapsed(started);
            profile.finish_row(elapsed);
            Some(elapsed)
        },
        None => None,
    }
}

impl Default for CanonicalLabelMaterializationProfile {
    fn default() -> (profile: Self)
        ensures
            profile == (CanonicalLabelMaterializationProfile {
                canonical_row_decode: 0,
                symbol_resolution: 0,
                canonical_identity: 0,
                label_construction: 0,
            }),
    {
        CanonicalLabelMaterializationProfile {
            canonical_row_decode: 0,
            symbol_resolution: 0,
            canonical_identity: 0,
            label_construction: 0,
        }
    }
}

impl CanonicalLabelMaterializationProfile {
    /// The sum of all stages.
    pub open spec fn stages(self) -> int {
        self.canonical_row_decode + self.symbol_resolution + self.canonical_identity
            + self.label_construction
    }

    /// The time that is attributed to a stage.
    pub fn attributed(self) -> (total: u64)
        ensures
            total == (if self.stages() > u64::MAX {
                u64::MAX as int
            } else {
                self.stages()
            }),
    {
        self.canonical_row_decode.saturating_add(self.symbol_resolution).saturating_add(
            self.canonical_identity,
        ).saturating_add(self.label_construction)
    }

    /// Charges time to the canonical identity.
    pub fn record_identity(&mut self, elapsed: u64)
        ensures
            *final(self) == identity_charged(*old(self), elapsed),
    {
        self.canonical_identity = self.canonical_identity.saturating_add(elapsed);
    }

    /// Charges time to the construction of labels.
    pub fn record_construction(&mut self, elapsed: u64)
        ensures
            *final(self) == construction_charged(*old(self), elapsed),
    {
        self.label_construction = self.label_construction.saturating_add(elapsed);
    }

    /// Charges to symbol resolution what is left of the elapsed time without the
    /// identity and construction time that was charged since `before`.
    pub fn record_resolution(&mut self, before: Self, elapsed: u64)
        ensures
            *final(self) == resolution_charged(*old(self), before, elapsed),
    {
        let attributed: u64 = self.canonical_identity.saturating_sub(
            before.canonical_identity,
        ).saturating_add(self.label_construction.saturating_sub(before.label_construction));
        self.symbol_resolution = self.symbol_resolution.saturating_add(
            elapsed.saturating_sub(attributed),
        );
    }

    /// Charges the time that no stage accounts for to the row decode.
    pub fn finish_row(&mut self, elapsed: u64)
        ensures
            *final(self) == row_charged(*old(self), elapsed),
    {
        let attributed: u64 = self.attributed();
        self.canonical_row_decode = self.canonical_row_decode.saturating_add(
            elapsed.saturating_sub(attributed),
        );
    }
}

/// A finished row accounts for exactly the elapsed time, where the stages took
/// no longer than that.
pub proof fn finished_row_law(
    before: CanonicalLabelMaterializationProfile,
    after: CanonicalLabelMaterializationProfile,
    elapsed: u64,
)
    requires
        before.stages() <= elapsed,
        after == row_charged(before, elapsed),
    ensures
        after.stages() == elapsed,
{
}

/// A finished stage adds its time to its own field and leaves the others; a field that cannot
/// hold the sum stays at the most that it can.
pub proof fn charged_stage_law(profile: CanonicalLabelMaterializationProfile, elapsed: u64)
    ensures
        ({
            let after = identity_charged(profile, elapsed);
            &&& profile.stages() + elapsed <= u64::MAX ==> after.stages() == profile.stages()
                + elapsed
            &&& profile.canonical_identity + elapsed > u64::MAX ==> after.canonical_identity
                == u64::MAX
            &&& after.canonical_row_decode == profile.canonical_row_decode
            &&& after.symbol_resolution == profile.symbol_resolution
            &&& after.label_construction == profile.label_construction
        }),
        ({
            let after = construction_charged(profile, elapsed);
            &&& profile.stages() + elapsed <= u64::MAX ==> after.stages() == profile.stages()
                + elapsed
            &&& profile.label_construction + elapsed > u64::MAX ==> after.label_construction
                == u64::MAX
            &&& after.canonical_row_decode == profile.canonical_row_decode
            &&& after.symbol_resolution == profile.symbol_resolution
            &&& after.canonical_identity == profile.canonical_identity
        }),
{
}

/// The time of resolving symbols is counted once: with what the stages within it added since
/// `before`, it is all of the elapsed time.
pub proof fn resolution_share_law(
    profile: CanonicalLabelMaterializationProfile,
    before: CanonicalLabelMaterializationProfile,
    elapsed: u64,
)
    requires
        before.canonical_identity <= profile.canonical_identity,
        before.label_construction <= profile.label_construction,
        profile.stages() + elapsed <= u64::MAX,
    ensures
        ({
            let after = resolution_charged(profile, before, elapsed);
            let within = profile.canonical_identity - before.canonical_identity
                + profile.label_construction - before.label_construction;
            &&& within <= elapsed ==> after.symbol_resolution - profile.symbol_resolution + within
                == elapsed
            &&& within > elapsed ==> after == profile
            &&& after.canonical_row_decode == profile.canonical_row_decode
            &&& after.canonical_identity == profile.canonical_identity
            &&& after.label_construction == profile.label_construction
        }),
{
}

/// Once the row is charged, the stages together account for all of the elapsed time.
pub proof fn complete_profile_law(profile: CanonicalLabelMaterializationProfile, elapsed: u64)
    ensures
        ({
            let after = row_charged(profile, elapsed);
            &&& profile.stages() <= elapsed ==> after.stages() == elapsed
            &&& profile.stages() > elapsed ==> after == profile
            &&& after.symbol_resolution == profile.symbol_resolution
            &&& after.canonical_identity == profile.canonical_identity
            &&& after.label_construction == profile.label_construction
        }),
{
}

} // verus!
