//! The series count of a segment, bound to its generation.

use vstd::prelude::*;

verus! {

/// How many series a segment generation has. Only a session that has validated
/// the root of that generation hands it out.
#[derive(Debug, Clone, Copy, PartialEq, Eq, Structural)]
pub struct GovernedSeriesCountBinding {
    pub generation: u64,
    pub num_series: u32,
}

impl GovernedSeriesCountBinding {
    pub fn num_series(&self) -> (count: u32)
        ensures
            count == self.num_series,
    {
        self.num_series
    }
}

} // verus!
