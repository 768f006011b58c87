//! What the series runtime reads of a chunk index: the range of every series.

use vstd::prelude::*;

use crate::chunk::ChunkIndexRange;
use crate::error::{data_error, invalid_data, Error};

verus! {

/// Failures of the chunk index.
#[derive(Debug, Clone, Copy, PartialEq, Eq)]
pub enum Schema6ChunkIndexReaderError {
    /// The chunk index does not fit the series file.
    Cache(Error),
    /// The chunk index belongs to another segment generation.
    ForeignSegmentGeneration,
}

/// The directory of a chunk index: one entry range per series.
#[derive(Debug)]
pub struct GovernedSchema6ChunkIndexSession {
    generation: u64,
    ranges: Vec<ChunkIndexRange>,
}

/// The root of a chunk index, which stays with the generation that it was loaded
/// for.
#[derive(Debug, Clone, Copy, PartialEq, Eq, Structural)]
pub struct GovernedSchema6ChunkIndexRoot {
    pub generation: u64,
    pub num_series: u64,
}

/// A chunk index with its ranges as a sequence.
pub struct ChunkIndex {
    pub generation: u64,
    pub ranges: Seq<ChunkIndexRange>,
}

impl View for GovernedSchema6ChunkIndexSession {
    type V = ChunkIndex;

    closed spec fn view(&self) -> ChunkIndex {
        ChunkIndex { generation: self.generation, ranges: self.ranges@ }
    }
}

/// A chunk index together with a root.
pub struct ChunkDirectory {
    pub generation: u64,
    pub root: GovernedSchema6ChunkIndexRoot,
    pub ranges: Seq<ChunkIndexRange>,
}

/// A chunk index that is read with a root.
pub open spec fn directory_of(
    chunk_index: ChunkIndex,
    root: GovernedSchema6ChunkIndexRoot,
) -> ChunkDirectory {
    ChunkDirectory { generation: chunk_index.generation, root, ranges: chunk_index.ranges }
}

/// What a request reads of a chunk index.
#[derive(Debug, Clone, Copy)]
pub struct ChunkIndexContext<'a> {
    session: &'a GovernedSchema6ChunkIndexSession,
    root: &'a GovernedSchema6ChunkIndexRoot,
}

impl<'a> View for ChunkIndexContext<'a> {
    type V = ChunkDirectory;

    closed spec fn view(&self) -> ChunkDirectory {
        directory_of(self.session@, *self.root)
    }
}

pub open spec fn directory_generation_result(directory: ChunkDirectory, generation: u64) -> Result<
    (),
    Schema6ChunkIndexReaderError,
> {
    if directory.generation == generation {
        Ok(())
    } else {
        Err(Schema6ChunkIndexReaderError::ForeignSegmentGeneration)
    }
}

pub open spec fn directory_count_result(directory: ChunkDirectory, num_series: u32) -> Result<
    (),
    Schema6ChunkIndexReaderError,
> {
    if directory.root.generation != directory.generation {
        Err(Schema6ChunkIndexReaderError::ForeignSegmentGeneration)
    } else if directory.root.num_series != num_series {
        Err(
            Schema6ChunkIndexReaderError::Cache(
                data_error("schema-6 chunk-index and series counts differ"),
            ),
        )
    } else {
        Ok(())
    }
}

pub open spec fn directory_range_result(
    directory: ChunkDirectory,
    series_ref: u32,
    range: ChunkIndexRange,
) -> Result<(), Schema6ChunkIndexReaderError> {
    if series_ref >= directory.ranges.len() || directory.ranges[series_ref as int] != range {
        Err(
            Schema6ChunkIndexReaderError::Cache(
                data_error("schema-6 chunk-index range does not belong to its series"),
            ),
        )
    } else {
        Ok(())
    }
}

impl GovernedSchema6ChunkIndexSession {
    pub fn new(generation: u64, ranges: Vec<ChunkIndexRange>) -> (session: Self)
        ensures
            session@ == (ChunkIndex { generation, ranges: ranges@ }),
    {
        Self { generation, ranges }
    }

    /// The root: how many series the chunk index has.
    pub fn load_root(&self) -> (root: GovernedSchema6ChunkIndexRoot)
        ensures
            root.generation == self@.generation,
            root.num_series == self@.ranges.len(),
    {
        assert(self.ranges@.len() == self.ranges.len());
        GovernedSchema6ChunkIndexRoot {
            generation: self.generation,
            num_series: self.ranges.len() as u64,
        }
    }
}

impl<'a> ChunkIndexContext<'a> {
    pub fn new(
        session: &'a GovernedSchema6ChunkIndexSession,
        root: &'a GovernedSchema6ChunkIndexRoot,
    ) -> (context: Self)
        ensures
            context@ == directory_of(session@, *root),
    {
        Self { session, root }
    }

    pub fn ensure_same_generation(&self, generation: u64) -> (result: Result<
        (),
        Schema6ChunkIndexReaderError,
    >)
        ensures
            result == directory_generation_result(self@, generation),
    {
        if self.session.generation == generation {
            Ok(())
        } else {
            Err(Schema6ChunkIndexReaderError::ForeignSegmentGeneration)
        }
    }

    /// Checks that the root is of this chunk index and counts this many series.
    pub fn bind_series_count(&self, num_series: u32) -> (result: Result<
        (),
        Schema6ChunkIndexReaderError,
    >)
        ensures
            result == directory_count_result(self@, num_series),
    {
        if self.root.generation != self.session.generation {
            return Err(Schema6ChunkIndexReaderError::ForeignSegmentGeneration);
        }
        if self.root.num_series != num_series as u64 {
            return Err(
                Schema6ChunkIndexReaderError::Cache(
                    invalid_data("schema-6 chunk-index and series counts differ"),
                ),
            );
        }
        Ok(())
    }

    /// Checks that a range is that of a series.
    pub fn validate_series_range(&self, series_ref: u32, range: ChunkIndexRange) -> (result: Result<
        (),
        Schema6ChunkIndexReaderError,
    >)
        ensures
            result == directory_range_result(self@, series_ref, range),
    {
        let ranges = &self.session.ranges;
        if series_ref as usize >= ranges.len() || ranges[series_ref as usize] != range {
            return Err(
                Schema6ChunkIndexReaderError::Cache(
                    invalid_data("schema-6 chunk-index range does not belong to its series"),
                ),
            );
        }
        Ok(())
    }
}

/// A chunk index serves the series of a segment exactly when it and its root are of the
/// segment's generation and it counts as many series; a range is a series' own exactly when the
/// index lists it at the series' place.
pub proof fn served_series_law(
    chunk_index: ChunkIndex,
    root: GovernedSchema6ChunkIndexRoot,
    generation: u64,
    num_series: u32,
    series_ref: u32,
    range: ChunkIndexRange,
)
    ensures
        ({
            let directory = directory_of(chunk_index, root);
            &&& directory_generation_result(directory, generation) is Ok <==> chunk_index.generation
                == generation
            &&& directory_count_result(directory, num_series) is Ok <==> root.generation
                == chunk_index.generation && root.num_series == num_series
            &&& directory_range_result(directory, series_ref, range) is Ok <==> {
                &&& series_ref < chunk_index.ranges.len()
                &&& chunk_index.ranges[series_ref as int].offset == range.offset
                &&& chunk_index.ranges[series_ref as int].len == range.len
            }
        }),
{
}

} // verus!
