//! One series as the writer hands it in.

use vstd::prelude::*;

use crate::chunk::ChunkIndexRange;

verus! {

/// A series with its labels as pairs of symbol ids.
#[derive(Debug, Clone, PartialEq, Eq)]
pub struct SeriesEntry {
    pub series_id: u64,
    pub kind_mask: u8,
    pub chunk_index: ChunkIndexRange,
    pub labels: Vec<(u32, u32)>,
}

} // verus!
