//! Read-only runtime for `series.bin`, version 2.
//!
//! A reader keeps the artifacts of a registered segment. A query session reads
//! touched ranges of the series table and of the cold label stream. Version 2
//! has no page checksums: stable series identities are exposed only after the
//! labels of a series have been resolved and hashed.

use vstd::prelude::*;

use crate::count::GovernedSeriesCountBinding;
use crate::error::{data_error, eof_error, unexpected_eof, Error, ErrorKind, Message};
use crate::symbols::GovernedSymbolReaderError;

pub mod batch_laws;
pub mod charge_laws;
pub mod chunk_index;
pub mod cold;
pub mod entries;
pub mod error_laws;
pub mod guard;
pub mod laws;
pub mod metadata;
pub mod occurrences;
pub mod request_laws;
pub mod root;
pub mod root_laws;
pub mod row_laws;
pub mod scratch;
pub mod table;
pub mod table_laws;
pub mod verified;

use self::chunk_index::Schema6ChunkIndexReaderError;
use self::root::{
    decode_schema6_series_root_v2, root_v2_result, Schema6SeriesRootV2, SERIES_HEADER_LEN,
};

verus! {

/// Failures at the series boundary.
#[derive(Debug, Clone, Copy, PartialEq, Eq)]
pub enum Schema6SeriesReaderError {
    /// The bytes of the series file are not what they must be.
    Cache(Error),
    /// A request cannot be planned.
    Planning(Error),
    /// A value was decoded for another segment generation.
    ForeignSegmentGeneration,
    /// A series does not exist.
    InvalidSeriesRef { series_ref: u32, num_series: u32 },
    /// A symbol cannot be resolved.
    Symbols(GovernedSymbolReaderError),
    /// The chunk index does not fit.
    ChunkIndex(Schema6ChunkIndexReaderError),
    /// Memory that an operation asked for was not granted.
    Budget { requested: u64 },
}

pub open spec fn recorded6<T>(result: Result<T, Error>) -> Result<T, Schema6SeriesReaderError> {
    match result {
        Ok(value) => Ok(value),
        Err(error) => Err(Schema6SeriesReaderError::Cache(error)),
    }
}

/// An error in the bytes of the series file.
pub open spec fn corrupt6(text: &'static str) -> Schema6SeriesReaderError {
    Schema6SeriesReaderError::Cache(data_error(text))
}

/// The artifacts of a registered segment.
#[derive(Debug, Clone, Copy)]
pub struct Schema6SegmentArtifacts<'a> {
    pub identity: &'a str,
    pub generation: u64,
    pub series: &'a [u8],
    pub chunk_index_len: u64,
}

/// Long-lived owner of one segment.
#[derive(Debug, Clone, Copy)]
pub struct GovernedSchema6SeriesReader<'a> {
    artifacts: Schema6SegmentArtifacts<'a>,
    expected_num_series: u32,
}

/// Query-scoped reader of series metadata.
#[derive(Debug, Clone, Copy)]
pub struct GovernedSchema6SeriesSession<'a> {
    artifacts: Schema6SegmentArtifacts<'a>,
    expected_num_series: u32,
}

/// A session with its file as a sequence.
pub struct SeriesSession6 {
    pub generation: u64,
    pub series: Seq<u8>,
    pub chunk_index_len: u64,
    pub expected_num_series: u32,
}

pub open spec fn session6_of(
    artifacts: Schema6SegmentArtifacts,
    expected_num_series: u32,
) -> SeriesSession6 {
    SeriesSession6 {
        generation: artifacts.generation,
        series: artifacts.series@,
        chunk_index_len: artifacts.chunk_index_len,
        expected_num_series,
    }
}

impl<'a> View for GovernedSchema6SeriesReader<'a> {
    type V = SeriesSession6;

    closed spec fn view(&self) -> SeriesSession6 {
        session6_of(self.artifacts, self.expected_num_series)
    }
}

impl<'a> View for GovernedSchema6SeriesSession<'a> {
    type V = SeriesSession6;

    closed spec fn view(&self) -> SeriesSession6 {
        session6_of(self.artifacts, self.expected_num_series)
    }
}

/// A root of one generation.
#[derive(Debug, Clone, Copy, PartialEq, Eq, Structural)]
pub struct GovernedSchema6SeriesRoot {
    pub generation: u64,
    pub value: Schema6SeriesRootV2,
}

impl GovernedSchema6SeriesRoot {
    /// A root of the generation of a session is the root that it reads.
    pub open spec fn of(self, session: SeriesSession6) -> bool {
        self.generation == session.generation ==> load_root6_result(session) == Ok::<
            GovernedSchema6SeriesRoot,
            Schema6SeriesReaderError,
        >(self)
    }

    pub fn num_series(&self) -> (count: u32)
        ensures
            count == self.value.header.num_series,
    {
        self.value.num_series()
    }
}

pub open spec fn count_mismatch(expected: u32, actual: u32) -> Error {
    Error {
        kind: ErrorKind::InvalidData,
        message: Message::Mismatch {
            what: "schema-6 series count mismatch",
            expected: expected as u64,
            actual: actual as u64,
        },
    }
}

/// The bytes of a range of the series file.
pub open spec fn series_range_result(series: Seq<u8>, start: u64, end: u64) -> Result<
    Seq<u8>,
    Schema6SeriesReaderError,
> {
    if start > end || end > series.len() {
        Err(
            Schema6SeriesReaderError::Cache(eof_error("schema-6 artifact range is truncated")),
        )
    } else {
        Ok(series.subrange(start as int, end as int))
    }
}

/// The root that a session reads.
pub open spec fn load_root6_result(session: SeriesSession6) -> Result<
    GovernedSchema6SeriesRoot,
    Schema6SeriesReaderError,
> {
    match series_range_result(session.series, 0, 64) {
        Err(error) => Err(error),
        Ok(bytes) => match recorded6(
            root_v2_result(bytes, session.series.len() as u64, session.chunk_index_len),
        ) {
            Err(error) => Err(error),
            Ok(value) => if value.header.num_series != session.expected_num_series {
                Err(
                    Schema6SeriesReaderError::Cache(
                        count_mismatch(session.expected_num_series, value.header.num_series),
                    ),
                )
            } else {
                Ok(GovernedSchema6SeriesRoot { generation: session.generation, value })
            },
        },
    }
}

pub open spec fn provenance6_result(session: SeriesSession6, generation: u64) -> Result<
    (),
    Schema6SeriesReaderError,
> {
    if session.generation == generation {
        Ok(())
    } else {
        Err(Schema6SeriesReaderError::ForeignSegmentGeneration)
    }
}

impl<'a> GovernedSchema6SeriesReader<'a> {
    /// Opens a segment and validates the exact fixed root.
    pub fn open(artifacts: Schema6SegmentArtifacts<'a>, expected_num_series: u32) -> (result: Result<
        Self,
        Schema6SeriesReaderError,
    >)
        ensures
            match load_root6_result(session6_of(artifacts, expected_num_series)) {
                Err(error) => result == Err::<Self, Schema6SeriesReaderError>(error),
                Ok(_) => result is Ok && result->Ok_0@ == session6_of(
                    artifacts,
                    expected_num_series,
                ),
            },
            result matches Ok(reader) ==> reader.identity() == artifacts.identity@,
    {
        let session = GovernedSchema6SeriesSession { artifacts, expected_num_series };
        session.load_root()?;
        Ok(Self { artifacts, expected_num_series })
    }

    pub fn query_session(&self) -> (session: GovernedSchema6SeriesSession<'a>)
        ensures
            session@ == self@,
    {
        GovernedSchema6SeriesSession {
            artifacts: self.artifacts,
            expected_num_series: self.expected_num_series,
        }
    }

    /// The name under which the segment was registered.
    pub closed spec fn identity(self) -> Seq<char> {
        self.artifacts.identity@
    }

    pub fn segment_identity(&self) -> (identity: &'a str)
        ensures
            identity@ == self.identity(),
    {
        self.artifacts.identity
    }
}

impl<'a> GovernedSchema6SeriesSession<'a> {
    /// Reads a range of the series file.
    pub(crate) fn read_series_range(&self, start: u64, end: u64) -> (result: Result<
        &'a [u8],
        Schema6SeriesReaderError,
    >)
        ensures
            match series_range_result(self@.series, start, end) {
                Err(error) => result == Err::<&'a [u8], Schema6SeriesReaderError>(error),
                Ok(bytes) => result is Ok && result->Ok_0@ == bytes,
            },
    {
        let series = self.artifacts.series;
        assert(series@.len() == series.len());
        if start > end || end > series.len() as u64 {
            return Err(
                Schema6SeriesReaderError::Cache(
                    unexpected_eof("schema-6 artifact range is truncated"),
                ),
            );
        }
        Ok(&series[start as usize..end as usize])
    }

    /// Loads the fixed root.
    pub fn load_root(&self) -> (result: Result<
        GovernedSchema6SeriesRoot,
        Schema6SeriesReaderError,
    >)
        ensures
            result == load_root6_result(self@),
            result matches Ok(root) ==> root.of(self@),
    {
        let bytes = self.read_series_range(0, SERIES_HEADER_LEN)?;
        assert(self.artifacts.series@.len() == self.artifacts.series.len());
        let value = self.record_series_result(
            decode_schema6_series_root_v2(
                bytes,
                self.artifacts.series.len() as u64,
                self.artifacts.chunk_index_len,
            ),
        )?;
        if value.header.num_series != self.expected_num_series {
            return Err(
                self.record_series_error(
                    Error {
                        kind: ErrorKind::InvalidData,
                        message: Message::Mismatch {
                            what: "schema-6 series count mismatch",
                            expected: self.expected_num_series as u64,
                            actual: value.header.num_series as u64,
                        },
                    },
                ),
            );
        }
        Ok(GovernedSchema6SeriesRoot { generation: self.artifacts.generation, value })
    }

    /// How many series the segment has.
    pub fn series_count_binding(&self, root: &GovernedSchema6SeriesRoot) -> (result: Result<
        GovernedSeriesCountBinding,
        Schema6SeriesReaderError,
    >)
        ensures
            result == (match provenance6_result(self@, root.generation) {
                Err(error) => Err(error),
                Ok(_) => Ok::<GovernedSeriesCountBinding, Schema6SeriesReaderError>(
                    GovernedSeriesCountBinding {
                        generation: self@.generation,
                        num_series: root.value.header.num_series,
                    },
                ),
            }),
    {
        self.ensure_provenance(root.generation)?;
        Ok(
            GovernedSeriesCountBinding {
                generation: self.artifacts.generation,
                num_series: root.num_series(),
            },
        )
    }

    /// Checks that a value belongs to this segment generation.
    pub fn ensure_provenance(&self, generation: u64) -> (result: Result<
        (),
        Schema6SeriesReaderError,
    >)
        ensures
            result == provenance6_result(self@, generation),
    {
        if self.artifacts.generation == generation {
            Ok(())
        } else {
            Err(Schema6SeriesReaderError::ForeignSegmentGeneration)
        }
    }

    pub fn record_series_result<T>(&self, result: Result<T, Error>) -> (recorded: Result<
        T,
        Schema6SeriesReaderError,
    >)
        ensures
            recorded == recorded6(result),
    {
        match result {
            Ok(value) => Ok(value),
            Err(error) => Err(self.record_series_error(error)),
        }
    }

    pub fn record_series_error(&self, error: Error) -> (recorded: Schema6SeriesReaderError)
        ensures
            recorded == Schema6SeriesReaderError::Cache(error),
    {
        Schema6SeriesReaderError::Cache(error)
    }
}

} // verus!
