//! Runtime boundary for the series metadata of one segment.
//!
//! The long-lived reader keeps the artifacts of a registered segment and the
//! facts discovered when it was opened. A query session reads touched ranges
//! of those artifacts; every root, page and blob is authenticated before any
//! byte of it is used. Values that were decoded for one segment generation are
//! refused by the session of another.

use core::mem::size_of;

use vstd::prelude::*;

use super::header::{decode_header_result, header_result, SeriesHeaderV3, SERIES_HEADER_LEN_V3};
use super::reader::SeriesChunkSpan;
use super::root::{
    cold_canonical, cold_list_result, decode_root_result, hot_canonical, hot_list_result,
    SeriesColdPageDescriptorV1, SeriesHotPageDescriptorV1, SeriesRoot, SeriesRootV3,
};
use super::root_binding::{
    blob_facts_of, page_facts_of, Schema7OverflowBlobFacts, Schema7RootBindingContext,
    Schema7SeriesPageFacts,
};
use crate::chunk::overflow::ChunkOverflowRootV2;
use crate::chunk::IndexedChunkLocator;
use crate::health::{ArtifactFault, FaultyFiles};
use crate::symbols::GovernedSymbolReaderError;
use crate::error::{
    data_error, eof_error, input_error, invalid_data, invalid_input, unexpected_eof, Error,
};

pub mod cached;
pub mod charge_laws;
pub mod cold;
pub mod fault_laws;
pub mod guard;
pub mod labels;
pub mod laws;
pub mod materialize;
pub mod open_laws;
pub mod overflow;
pub mod profile;
pub mod provenance_laws;
pub mod request_laws;
pub mod roots;
pub mod row_laws;
pub mod scratch;
pub mod series_laws;

verus! {

/// Errors at the metadata boundary.
#[derive(Debug, Clone, Copy, PartialEq, Eq)]
pub enum Schema7MetadataReaderError {
    /// The bytes of an artifact are not what they must be.
    Cache(ArtifactFault),
    /// A request cannot be planned.
    Planning(Error),
    /// A value was decoded for another segment generation.
    ForeignSegmentGeneration,
    /// A symbol cannot be resolved.
    Symbols(GovernedSymbolReaderError),
    /// Memory that an operation asked for was not granted.
    Budget { requested: u64 },
}

/// An error about the bytes of some artifacts.
pub open spec fn fault_in(files: FaultyFiles, error: Error) -> Schema7MetadataReaderError {
    Schema7MetadataReaderError::Cache(ArtifactFault { files, error })
}

/// A result whose error is about the bytes of some artifacts.
pub open spec fn recorded_in<T>(files: FaultyFiles, result: Result<T, Error>) -> Result<
    T,
    Schema7MetadataReaderError,
> {
    match result {
        Ok(value) => Ok(value),
        Err(error) => Err(fault_in(files, error)),
    }
}

/// A result whose error is about the bytes of the series artifact.
pub open spec fn recorded<T>(result: Result<T, Error>) -> Result<T, Schema7MetadataReaderError> {
    recorded_in(FaultyFiles::Series, result)
}

pub fn record_in<T>(files: FaultyFiles, result: Result<T, Error>) -> (recorded_result: Result<
    T,
    Schema7MetadataReaderError,
>)
    ensures
        recorded_result == recorded_in(files, result),
{
    match result {
        Ok(value) => Ok(value),
        Err(error) => Err(Schema7MetadataReaderError::Cache(ArtifactFault { files, error })),
    }
}

pub fn record<T>(result: Result<T, Error>) -> (recorded_result: Result<
    T,
    Schema7MetadataReaderError,
>)
    ensures
        recorded_result == recorded(result),
{
    record_in(FaultyFiles::Series, result)
}

pub open spec fn planning(text: &'static str) -> Schema7MetadataReaderError {
    Schema7MetadataReaderError::Planning(input_error(text))
}

pub fn planning_error(message: &'static str) -> (error: Schema7MetadataReaderError)
    ensures
        error == planning(message),
{
    Schema7MetadataReaderError::Planning(planning_io(message))
}

pub fn planning_io(message: &'static str) -> (error: Error)
    ensures
        error == input_error(message),
{
    invalid_input(message)
}

/// The artifacts of a registered segment: which generation they belong to, the
/// bytes of the two metadata files, and the lengths of the two chunk files.
#[derive(Debug, Clone, Copy)]
pub struct SegmentArtifacts<'a> {
    pub identity: &'a str,
    pub generation: u64,
    pub series: &'a [u8],
    pub chunk_index: &'a [u8],
    pub chunk_file_lens: [u64; 2],
}

/// The bytes of a range of an artifact.
pub open spec fn artifact_range_result(bytes: Seq<u8>, offset: u64, len: u64) -> Result<
    Seq<u8>,
    Error,
> {
    if offset + len > bytes.len() {
        Err(eof_error("schema-7 artifact range is truncated"))
    } else {
        Ok(bytes.subrange(offset as int, offset + len))
    }
}

/// Reads a range of an artifact.
pub fn read_artifact_range<'a>(bytes: &'a [u8], offset: u64, len: u64) -> (result: Result<
    &'a [u8],
    Error,
>)
    ensures
        match artifact_range_result(bytes@, offset, len) {
            Ok(range) => result is Ok && result->Ok_0@ == range,
            Err(error) => result == Err::<&'a [u8], Error>(error),
        },
{
    assert(bytes@.len() == bytes.len());
    let end: u64 = match offset.checked_add(len) {
        Some(end) => end,
        None => {
            return Err(unexpected_eof("schema-7 artifact range is truncated"));
        },
    };
    if end > bytes.len() as u64 {
        return Err(unexpected_eof("schema-7 artifact range is truncated"));
    }
    Ok(&bytes[offset as usize..end as usize])
}

/// Long-lived reader of one segment. Query work first acquires a
/// [`Schema7MetadataSession`].
#[derive(Debug, Clone, Copy)]
pub struct Schema7MetadataReader<'a> {
    artifacts: SegmentArtifacts<'a>,
    root_len: u64,
    context: Schema7RootBindingContext,
}

/// Query-scoped reader of one segment.
#[derive(Debug, Clone, Copy)]
pub struct Schema7MetadataSession<'a> {
    artifacts: SegmentArtifacts<'a>,
    root_len: u64,
    context: Schema7RootBindingContext,
}

/// A session with its artifacts as sequences.
pub struct MetadataSession {
    pub generation: u64,
    pub series: Seq<u8>,
    pub chunk_index: Seq<u8>,
    pub chunk_file_lens: [u64; 2],
    pub root_len: u64,
    pub context: Schema7RootBindingContext,
}

pub open spec fn session_of(
    artifacts: SegmentArtifacts,
    root_len: u64,
    context: Schema7RootBindingContext,
) -> MetadataSession {
    MetadataSession {
        generation: artifacts.generation,
        series: artifacts.series@,
        chunk_index: artifacts.chunk_index@,
        chunk_file_lens: artifacts.chunk_file_lens,
        root_len,
        context,
    }
}

impl<'a> View for Schema7MetadataReader<'a> {
    type V = MetadataSession;

    closed spec fn view(&self) -> MetadataSession {
        session_of(self.artifacts, self.root_len, self.context)
    }
}

impl<'a> View for Schema7MetadataSession<'a> {
    type V = MetadataSession;

    closed spec fn view(&self) -> MetadataSession {
        session_of(self.artifacts, self.root_len, self.context)
    }
}

/// Decoded fixed roots of one generation.
#[derive(Debug)]
pub struct Schema7RootPins {
    generation: u64,
    series: SeriesRootV3,
    overflow: ChunkOverflowRootV2,
}

/// Roots that were bound to each other and to their segment.
#[derive(Debug)]
pub struct BoundSchema7Roots {
    roots: Schema7RootPins,
    series_pages: Schema7SeriesPageFacts,
    overflow_blobs: Schema7OverflowBlobFacts,
}

/// Root pins with the series root seen through its view.
pub struct RootPins {
    pub generation: u64,
    pub series: SeriesRoot,
    pub overflow: ChunkOverflowRootV2,
}

/// Bound roots with the series root seen through its view.
pub struct BoundRoots {
    pub generation: u64,
    pub series: SeriesRoot,
    pub overflow: ChunkOverflowRootV2,
    pub series_pages: Schema7SeriesPageFacts,
    pub overflow_blobs: Schema7OverflowBlobFacts,
}

impl View for Schema7RootPins {
    type V = RootPins;

    closed spec fn view(&self) -> RootPins {
        RootPins {
            generation: self.generation,
            series: self.series@,
            overflow: self.overflow,
        }
    }
}

impl View for BoundSchema7Roots {
    type V = BoundRoots;

    closed spec fn view(&self) -> BoundRoots {
        BoundRoots {
            generation: self.roots.generation,
            series: self.roots.series@,
            overflow: self.roots.overflow,
            series_pages: self.series_pages,
            overflow_blobs: self.overflow_blobs,
        }
    }
}

/// A root as the decoder hands it out: a valid header, and one canonical
/// descriptor for every page.
pub open spec fn root_wf(root: SeriesRoot) -> bool {
    &&& header_result(root.header) is Ok
    &&& root.hot.len() == root.header.page_count
    &&& root.cold.len() == root.header.cold_page_count
    &&& hot_canonical(root.header, root.hot)
    &&& cold_canonical(root.header, root.cold)
}

impl RootPins {
    pub open spec fn wf(self) -> bool {
        root_wf(self.series)
    }
}

impl BoundRoots {
    /// The facts are those of the roots.
    pub open spec fn wf(self) -> bool {
        &&& root_wf(self.series)
        &&& self.series_pages == page_facts_of(
            self.series.header,
            (self.series.header.file_len - self.series.header.keysets_offset) as u64,
        )
        &&& self.overflow_blobs == blob_facts_of(self.overflow)
    }
}

proof fn lemma_hot_list(bytes: Seq<u8>, header: SeriesHeaderV3, n: nat)
    requires
        n <= u32::MAX,
        hot_list_result(bytes, header, n) is Ok,
    ensures
        hot_list_result(bytes, header, n)->Ok_0.len() == n,
        hot_canonical(header, hot_list_result(bytes, header, n)->Ok_0),
    decreases n,
{
    if n > 0 {
        lemma_hot_list(bytes, header, (n - 1) as nat);
    }
}

proof fn lemma_cold_list(bytes: Seq<u8>, header: SeriesHeaderV3, n: nat)
    requires
        n <= u32::MAX,
        cold_list_result(bytes, header, n) is Ok,
    ensures
        cold_list_result(bytes, header, n)->Ok_0.len() == n,
        cold_canonical(header, cold_list_result(bytes, header, n)->Ok_0),
    decreases n,
{
    if n > 0 {
        lemma_cold_list(bytes, header, (n - 1) as nat);
    }
}

/// A decoded root is well formed.
pub proof fn decoded_root_law(bytes: Seq<u8>)
    requires
        decode_root_result(bytes) is Ok,
    ensures
        root_wf(decode_root_result(bytes)->Ok_0),
{
    let header = decode_root_result(bytes)->Ok_0.header;
    lemma_hot_list(bytes, header, header.page_count as nat);
    lemma_cold_list(bytes, header, header.cold_page_count as nat);
}

impl BoundSchema7Roots {
    pub fn series_root(&self) -> (root: &SeriesRootV3)
        ensures
            root@ == self@.series,
    {
        &self.roots.series
    }

    pub fn overflow_root(&self) -> (root: &ChunkOverflowRootV2)
        ensures
            *root == self@.overflow,
    {
        &self.roots.overflow
    }

    pub fn series_pages(&self) -> (facts: Schema7SeriesPageFacts)
        ensures
            facts == self@.series_pages,
    {
        self.series_pages
    }

    pub fn overflow_blobs(&self) -> (facts: Schema7OverflowBlobFacts)
        ensures
            facts == self@.overflow_blobs,
    {
        self.overflow_blobs
    }

    /// The descriptor of a hot page.
    pub fn hot_descriptor(&self, page_index: u32) -> (result: Result<
        SeriesHotPageDescriptorV1,
        Schema7MetadataReaderError,
    >)
        ensures
            result == (if page_index < self@.series.hot.len() {
                Ok(self@.series.hot[page_index as int])
            } else {
                Err(planning("schema-7 hot page index is out of range"))
            }),
    {
        if page_index as usize >= self.roots.series.hot_descriptors.len() {
            return Err(planning_error("schema-7 hot page index is out of range"));
        }
        Ok(self.roots.series.hot_descriptors[page_index as usize])
    }

    /// The descriptor of a cold page.
    pub fn cold_descriptor(&self, page_index: u32) -> (result: Result<
        SeriesColdPageDescriptorV1,
        Schema7MetadataReaderError,
    >)
        ensures
            result == (if page_index < self@.series.cold.len() {
                Ok(self@.series.cold[page_index as int])
            } else {
                Err(planning("schema-7 cold page index is out of range"))
            }),
    {
        if page_index as usize >= self.roots.series.cold_descriptors.len() {
            return Err(planning_error("schema-7 cold page index is out of range"));
        }
        Ok(self.roots.series.cold_descriptors[page_index as usize])
    }
}

/// The root length that the header of a segment names, or the first reason why
/// it names none.
pub open spec fn root_len_result(
    artifacts: SegmentArtifacts,
    context: Schema7RootBindingContext,
) -> Result<u64, Schema7MetadataReaderError> {
    let series = artifacts.series@;
    let header = decode_header_result(series.subrange(0, 176));
    if series.len() != context.series_file_len {
        Err(
            fault_in(
                FaultyFiles::Series,
                data_error("schema-7 series footer length does not match registered artifact"),
            ),
        )
    } else if artifacts.chunk_index@.len() != context.chunk_index_file_len {
        Err(
            fault_in(
                FaultyFiles::ChunkIndex,
                data_error("schema-7 chunk-index footer length does not match registered artifact"),
            ),
        )
    } else if series.len() < 176 {
        Err(fault_in(FaultyFiles::Series, eof_error("schema-7 artifact range is truncated")))
    } else if header is Err {
        Err(fault_in(FaultyFiles::Series, header->Err_0))
    } else if header->Ok_0.file_len != series.len() {
        Err(
            fault_in(
                FaultyFiles::Series,
                data_error("schema-7 series header length does not match registered artifact"),
            ),
        )
    } else {
        Ok(header->Ok_0.hot_pages_offset)
    }
}

/// The segment can be opened, or the first reason why not; then the root
/// length that its header names.
pub open spec fn open_result(artifacts: SegmentArtifacts, context: Schema7RootBindingContext) -> Result<
    u64,
    Schema7MetadataReaderError,
> {
    match root_len_result(artifacts, context) {
        Err(error) => Err(error),
        Ok(root_len) => match roots::bound_result(session_of(artifacts, root_len, context)) {
            Err(error) => Err(error),
            Ok(_) => Ok(root_len),
        },
    }
}

/// Checks that an artifact has the length that the footer gives.
pub fn validate_inventory_len(
    actual: u64,
    expected: u64,
    files: FaultyFiles,
    message: &'static str,
) -> (result: Result<(), Schema7MetadataReaderError>)
    ensures
        result == (if actual == expected {
            Ok(())
        } else {
            Err(fault_in(files, data_error(message)))
        }),
{
    if actual == expected {
        Ok(())
    } else {
        Err(
            Schema7MetadataReaderError::Cache(
                ArtifactFault { files, error: invalid_data(message) },
            ),
        )
    }
}

impl<'a> Schema7MetadataReader<'a> {
    /// Reads the root length from the header of a segment.
    fn read_root_len(artifacts: SegmentArtifacts<'a>, context: Schema7RootBindingContext) -> (result:
        Result<u64, Schema7MetadataReaderError>)
        ensures
            result == root_len_result(artifacts, context),
    {
        assert(artifacts.series@.len() == artifacts.series.len());
        assert(artifacts.chunk_index@.len() == artifacts.chunk_index.len());
        validate_inventory_len(
            artifacts.series.len() as u64,
            context.series_file_len,
            FaultyFiles::Series,
            "schema-7 series footer length does not match registered artifact",
        )?;
        validate_inventory_len(
            artifacts.chunk_index.len() as u64,
            context.chunk_index_file_len,
            FaultyFiles::ChunkIndex,
            "schema-7 chunk-index footer length does not match registered artifact",
        )?;
        let prefix = record(
            read_artifact_range(artifacts.series, 0, SERIES_HEADER_LEN_V3 as u64),
        )?;
        let header = record(SeriesHeaderV3::decode(prefix))?;
        if header.file_len != artifacts.series.len() as u64 {
            return record(
                Err(
                    invalid_data("schema-7 series header length does not match registered artifact"),
                ),
            );
        }
        Ok(header.hot_pages_offset)
    }

    /// Opens a segment and strictly validates both fixed roots.
    pub fn open(artifacts: SegmentArtifacts<'a>, context: Schema7RootBindingContext) -> (result:
        Result<Self, Schema7MetadataReaderError>)
        ensures
            match open_result(artifacts, context) {
                Err(error) => result == Err::<Self, Schema7MetadataReaderError>(error),
                Ok(root_len) => result is Ok && result->Ok_0@ == session_of(
                    artifacts,
                    root_len,
                    context,
                ),
            },
            result matches Ok(reader) ==> reader.identity() == artifacts.identity@,
    {
        let root_len: u64 = Self::read_root_len(artifacts, context)?;
        let session = Schema7MetadataSession { artifacts, root_len, context };
        let roots = session.load_roots()?;
        session.bind(roots)?;
        Ok(Self { artifacts, root_len, context })
    }

    pub fn query_session(&self) -> (session: Schema7MetadataSession<'a>)
        ensures
            session@ == self@,
    {
        Schema7MetadataSession {
            artifacts: self.artifacts,
            root_len: self.root_len,
            context: self.context,
        }
    }

    /// The name under which the segment was registered.
    pub closed spec fn identity(self) -> Seq<char> {
        self.artifacts.identity@
    }

    pub fn segment_identity(&self) -> (identity: &'a str)
        ensures
            identity@ == self.identity(),
    {
        self.artifacts.identity
    }

    pub fn root_len(&self) -> (len: u64)
        ensures
            len == self@.root_len,
    {
        self.root_len
    }
}

pub open spec fn provenance_result(session: MetadataSession, generation: u64) -> Result<
    (),
    Schema7MetadataReaderError,
> {
    if session.generation == generation {
        Ok(())
    } else {
        Err(Schema7MetadataReaderError::ForeignSegmentGeneration)
    }
}

impl<'a> Schema7MetadataSession<'a> {
    /// Checks that roots belong to this segment generation.
    pub fn ensure_bound_roots(&self, roots: &BoundSchema7Roots) -> (result: Result<
        (),
        Schema7MetadataReaderError,
    >)
        ensures
            result == provenance_result(self@, roots@.generation),
    {
        self.ensure_provenance(roots.roots.generation)
    }

    /// Checks that a value belongs to this segment generation.
    pub fn ensure_provenance(&self, generation: u64) -> (result: Result<
        (),
        Schema7MetadataReaderError,
    >)
        ensures
            result == provenance_result(self@, generation),
    {
        if self.artifacts.generation == generation {
            Ok(())
        } else {
            Err(Schema7MetadataReaderError::ForeignSegmentGeneration)
        }
    }
}

/// The bytes of a vector of this many elements of a size.
pub open spec fn vec_bytes_result(size: nat, len: nat, message: &'static str) -> Result<
    u64,
    Schema7MetadataReaderError,
> {
    if len * size > usize::MAX {
        Err(planning(message))
    } else {
        Ok((len * size) as u64)
    }
}

pub fn checked_vec_bytes<T>(len: usize, message: &'static str) -> (result: Result<
    u64,
    Schema7MetadataReaderError,
>)
    ensures
        result == vec_bytes_result(vstd::layout::size_of::<T>(), len as nat, message),
{
    match len.checked_mul(size_of::<T>()) {
        Some(bytes) => Ok(bytes as u64),
        None => Err(planning_error(message)),
    }
}

pub fn checked_add_bytes(left: u64, right: u64, message: &'static str) -> (result: Result<
    u64,
    Schema7MetadataReaderError,
>)
    ensures
        result == (if left + right > u64::MAX {
            Err(planning(message))
        } else {
            Ok((left + right) as u64)
        }),
{
    match left.checked_add(right) {
        Some(sum) => Ok(sum),
        None => Err(planning_error(message)),
    }
}

/// The bytes of a batch with these capacities.
pub open spec fn batch_bytes_result(locators: nat, spans: nat) -> Result<
    u64,
    Schema7MetadataReaderError,
> {
    match vec_bytes_result(
        vstd::layout::size_of::<IndexedChunkLocator>(),
        locators,
        "schema-7 locator allocation charge overflows",
    ) {
        Err(error) => Err(error),
        Ok(locator_bytes) => match vec_bytes_result(
            vstd::layout::size_of::<SeriesChunkSpan>(),
            spans,
            "schema-7 locator-span allocation charge overflows",
        ) {
            Err(error) => Err(error),
            Ok(span_bytes) => if locator_bytes + span_bytes > u64::MAX {
                Err(planning("schema-7 locator batch charge overflows"))
            } else {
                Ok((locator_bytes + span_bytes) as u64)
            },
        },
    }
}

pub fn checked_batch_bytes(locators: usize, spans: usize) -> (result: Result<
    u64,
    Schema7MetadataReaderError,
>)
    ensures
        result == batch_bytes_result(locators as nat, spans as nat),
{
    let locator_bytes: u64 = checked_vec_bytes::<IndexedChunkLocator>(
        locators,
        "schema-7 locator allocation charge overflows",
    )?;
    let span_bytes: u64 = checked_vec_bytes::<SeriesChunkSpan>(
        spans,
        "schema-7 locator-span allocation charge overflows",
    )?;
    match locator_bytes.checked_add(span_bytes) {
        Some(bytes) => Ok(bytes),
        None => Err(planning_error("schema-7 locator batch charge overflows")),
    }
}

} // verus!
