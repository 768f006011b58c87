//! Chunk locators, the chunk-index artifact and the indexed chunk prefix, as
//! far as the series metadata reads them.

use vstd::prelude::*;

use crate::error::{data_error, invalid_data, Error};

pub mod overflow;
pub mod prefix;

verus! {

/// A byte range of the chunk index.
#[derive(Debug, Clone, Copy, PartialEq, Eq, Structural)]
pub struct ChunkIndexRange {
    pub offset: u64,
    pub len: u32,
}

/// What the samples of a chunk are.
#[derive(Debug, Clone, Copy, PartialEq, Eq, Structural)]
pub enum ChunkKind {
    Float,
    Int64,
    Histogram,
    ExponentialHistogram,
    Summary,
}

/// The only chunk flag: samples of a typed kind carry their start time.
pub const CHUNK_FLAG_HAS_START_TIME: u16 = 1;

impl ChunkKind {
    /// The number that stands for the kind in stored bytes.
    pub open spec fn code_of(self) -> u8 {
        match self {
            ChunkKind::Float => 0,
            ChunkKind::Int64 => 1,
            ChunkKind::Histogram => 2,
            ChunkKind::ExponentialHistogram => 3,
            ChunkKind::Summary => 4,
        }
    }

    pub fn code(self) -> (code: u8)
        ensures
            code == self.code_of(),
    {
        match self {
            ChunkKind::Float => 0,
            ChunkKind::Int64 => 1,
            ChunkKind::Histogram => 2,
            ChunkKind::ExponentialHistogram => 3,
            ChunkKind::Summary => 4,
        }
    }

    /// The encoding of the kind, as a stored number.
    pub open spec fn encoding_of(self) -> u8 {
        match self {
            ChunkKind::Float => 0,
            ChunkKind::Int64 => 1,
            _ => 2,
        }
    }

    /// Whether the samples follow a schema, and may have a scalar lane.
    pub open spec fn is_typed(self) -> bool {
        self.code_of() >= 2
    }
}

/// The kind that a stored number stands for.
pub open spec fn kind_of(code: u8) -> Option<ChunkKind> {
    if code == 0 {
        Some(ChunkKind::Float)
    } else if code == 1 {
        Some(ChunkKind::Int64)
    } else if code == 2 {
        Some(ChunkKind::Histogram)
    } else if code == 3 {
        Some(ChunkKind::ExponentialHistogram)
    } else if code == 4 {
        Some(ChunkKind::Summary)
    } else {
        None
    }
}

pub fn kind_from_code(code: u8) -> (kind: Option<ChunkKind>)
    ensures
        kind == kind_of(code),
{
    match code {
        0 => Some(ChunkKind::Float),
        1 => Some(ChunkKind::Int64),
        2 => Some(ChunkKind::Histogram),
        3 => Some(ChunkKind::ExponentialHistogram),
        4 => Some(ChunkKind::Summary),
        _ => None,
    }
}

/// Where one chunk stands, and what it covers.
#[derive(Debug, Clone, Copy, PartialEq, Eq, Structural)]
pub struct ChunkIndexEntry {
    pub file_id: u8,
    pub kind: ChunkKind,
    pub flags: u16,
    pub min_time_ms: u64,
    pub max_time_ms: u64,
    pub offset: u64,
    pub length: u32,
    pub scalar_lane_offset: u32,
    pub scalar_lane_len: u32,
}

/// What authenticates the bytes that a locator names.
#[derive(Debug, Clone, Copy, PartialEq, Eq, Structural)]
pub enum IndexedChunkAuthentication {
    /// The checksum of the indexed prefix.
    Schema7 { indexed_prefix_crc32c: u32 },
}

/// A chunk entry bound to its series and to what authenticates it.
#[derive(Debug, Clone, Copy, PartialEq, Eq, Structural)]
pub struct IndexedChunkLocator {
    pub series_ref: u32,
    pub entry: ChunkIndexEntry,
    pub authentication: IndexedChunkAuthentication,
}

pub open spec fn schema7_locator_result(
    series_ref: u32,
    entry: ChunkIndexEntry,
    indexed_prefix_crc32c: Option<u32>,
) -> Result<IndexedChunkLocator, Error> {
    match indexed_prefix_crc32c {
        None => Err(data_error("schema-7 chunk locator has no indexed-prefix crc")),
        Some(indexed_prefix_crc32c) => Ok(
            IndexedChunkLocator {
                series_ref,
                entry,
                authentication: IndexedChunkAuthentication::Schema7 { indexed_prefix_crc32c },
            },
        ),
    }
}

impl IndexedChunkLocator {
    /// A locator whose chunk is authenticated by its indexed prefix.
    pub fn try_schema7(
        series_ref: u32,
        entry: ChunkIndexEntry,
        indexed_prefix_crc32c: Option<u32>,
    ) -> (result: Result<Self, Error>)
        ensures
            result == schema7_locator_result(series_ref, entry, indexed_prefix_crc32c),
    {
        match indexed_prefix_crc32c {
            None => Err(invalid_data("schema-7 chunk locator has no indexed-prefix crc")),
            Some(indexed_prefix_crc32c) => Ok(
                Self {
                    series_ref,
                    entry,
                    authentication: IndexedChunkAuthentication::Schema7 { indexed_prefix_crc32c },
                },
            ),
        }
    }

    pub fn series_ref(&self) -> (series_ref: u32)
        ensures
            series_ref == self.series_ref,
    {
        self.series_ref
    }

    pub fn entry(&self) -> (entry: &ChunkIndexEntry)
        ensures
            *entry == self.entry,
    {
        &self.entry
    }

    pub fn authentication(&self) -> (authentication: IndexedChunkAuthentication)
        ensures
            authentication == self.authentication,
    {
        self.authentication
    }
}

} // verus!
