//! Pure metadata planning after touched-range authentication.
//!
//! These helpers own no file, cache, or runtime state. They use the hot-page
//! and overflow-blob codecs as the authentication and structural-validation
//! boundary, then turn the selected metadata into series and chunk plans.

use core::mem::size_of;

use vstd::prelude::*;

use super::classifier::{chunk_entry_fits_inline, fits_inline, kind_bit};
use super::header::{
    cold_bytes_result, SeriesHeaderV3, SERIES_HOT_PAGE_HEADER_LEN_V1, SERIES_HOT_PAGE_LEN_V1,
    SERIES_HOT_RECORD_LEN_V3,
};
use super::hot::{
    context_of, context_result, decode_record_result, kind_bit_of, InlineChunkV3,
    SeriesHotLocationV3, SeriesHotV3, SeriesHotV3Context,
};
use super::page::{
    page_bytes_result, record_area, record_slot, validate_series_hot_page_bytes_v1,
    SeriesHotPageHeaderV1,
};
use super::root::SeriesHotPageDescriptorV1;
use super::root_binding::{
    blob_facts_of, page_facts_of, Schema7OverflowBlobFacts, Schema7SeriesPageFacts,
};
use crate::bytes::copy_bytes;
use crate::capacity::vec_capacity;
use crate::chunk::overflow::{
    blob_facts_result, entry_result, entry_slot, ordered_entry_result, physical_blob_entry,
    physical_blob_facts, ChunkOverflowBlobLocatorV1, ChunkOverflowRootV2, OverflowChunkEntryV1,
    PhysicalBlobFacts,
};
use crate::chunk::{
    kind_from_code, kind_of, schema7_locator_result, ChunkIndexEntry, ChunkKind,
    IndexedChunkAuthentication, IndexedChunkLocator,
};
use crate::error::{data_error, invalid_data, memory_error, resource_error, vec_result, Error};

verus! {

/// The cold-label row addressed by one series.
#[derive(Debug, Clone, Copy, PartialEq, Eq, Structural)]
pub struct ColdLabelRowLocator {
    pub keyset_id: u32,
    pub row: u32,
}

/// Immediate or deferred source of exact chunk locators for one series.
#[derive(Debug, Clone, Copy, PartialEq, Eq, Structural)]
pub enum ChunkLocatorSource {
    Inline(IndexedChunkLocator),
    Overflow { locator: ChunkOverflowBlobLocatorV1, expected_kind_mask: u8 },
}

/// Compact metadata retained while a query plans one series.
#[derive(Debug, Clone, Copy, PartialEq, Eq, Structural)]
pub struct PlannedSeries {
    pub series_ref: u32,
    pub kind_mask: u8,
    pub cold_labels: ColdLabelRowLocator,
    pub chunks: ChunkLocatorSource,
    /// An expected fingerprint, not an authenticated stable identity: only the
    /// cold-label materializer consumes it.
    pub expected_label_identity: u64,
}

/// The contiguous locator range belonging to one series in a flat batch.
#[derive(Debug, Clone, Copy, PartialEq, Eq, Structural)]
pub struct SeriesChunkSpan {
    pub series_ref: u32,
    pub start: u32,
    pub len: u32,
}

/// Chunk locators without a vector for every selected series.
#[derive(Debug, PartialEq, Eq)]
pub struct FlatChunkLocatorBatch {
    pub locators: Vec<IndexedChunkLocator>,
    pub series_spans: Vec<SeriesChunkSpan>,
}

/// A batch with its lists as sequences.
pub struct FlatChunkBatch {
    pub locators: Seq<IndexedChunkLocator>,
    pub series_spans: Seq<SeriesChunkSpan>,
}

impl View for FlatChunkLocatorBatch {
    type V = FlatChunkBatch;

    open spec fn view(&self) -> FlatChunkBatch {
        FlatChunkBatch { locators: self.locators@, series_spans: self.series_spans@ }
    }
}

impl FlatChunkLocatorBatch {
    pub fn locators(&self) -> (locators: &[IndexedChunkLocator])
        ensures
            locators@ == self@.locators,
    {
        &self.locators
    }

    pub fn series_spans(&self) -> (spans: &[SeriesChunkSpan])
        ensures
            spans@ == self@.series_spans,
    {
        &self.series_spans
    }

    /// The capacities of both lists, for memory charges.
    pub fn capacities(&self) -> (capacities: (usize, usize))
        ensures
            capacities.0 >= self@.locators.len(),
            capacities.1 >= self@.series_spans.len(),
            capacities.0 * vstd::layout::size_of::<IndexedChunkLocator>() <= isize::MAX,
            capacities.1 * vstd::layout::size_of::<SeriesChunkSpan>() <= isize::MAX,
    {
        (vec_capacity(&self.locators), vec_capacity(&self.series_spans))
    }
}

/// The logical bytes of a value that owns this many raw bytes.
pub open spec fn raw_charge_result(fixed: nat, length: nat, message: &'static str) -> Result<
    u64,
    Error,
> {
    if fixed + length > usize::MAX {
        Err(memory_error(message))
    } else {
        Ok((fixed + length) as u64)
    }
}

pub fn charged_raw_bytes<Owner>(length: usize, message: &'static str) -> (result: Result<u64, Error>)
    ensures
        result == raw_charge_result(vstd::layout::size_of::<Owner>(), length as nat, message),
{
    match size_of::<Owner>().checked_add(length) {
        Some(bytes) => Ok(bytes as u64),
        None => Err(resource_error(message)),
    }
}

/// Every `u32` is a `usize`.
pub fn usize_from_u32(value: u32, _what: &'static str) -> (result: Result<usize, Error>)
    ensures
        result == Ok::<usize, Error>(value as usize),
{
    Ok(value as usize)
}

/// Compares the lengths of the two chunk files.
fn same_file_lens(a: [u64; 2], b: [u64; 2]) -> (same: bool)
    ensures
        same == (a == b),
{
    let same: bool = a[0] == b[0] && a[1] == b[1];
    proof {
        if same {
            assert(a@ =~= b@);
            assert(a =~= b);
        }
    }
    same
}

/// Cacheable authenticated hot page with the exact root, page, descriptor,
/// and chunk-file lengths used to validate its bytes.
#[derive(Debug, PartialEq, Eq)]
pub struct ValidatedSeriesHotPage {
    header: SeriesHeaderV3,
    page_index: u32,
    descriptor: SeriesHotPageDescriptorV1,
    chunk_file_lens: [u64; 2],
    bytes: Vec<u8>,
}

/// A cached hot page with its bytes as a sequence.
pub struct CachedHotPage {
    pub header: SeriesHeaderV3,
    pub page_index: u32,
    pub descriptor: SeriesHotPageDescriptorV1,
    pub chunk_file_lens: [u64; 2],
    pub bytes: Seq<u8>,
}

impl View for ValidatedSeriesHotPage {
    type V = CachedHotPage;

    closed spec fn view(&self) -> CachedHotPage {
        CachedHotPage {
            header: self.header,
            page_index: self.page_index,
            descriptor: self.descriptor,
            chunk_file_lens: self.chunk_file_lens,
            bytes: self.bytes@,
        }
    }
}

/// The first `n` records decode and name a keyset of the header, or the first
/// error.
pub open spec fn admitted_records_result(
    encoded: Seq<u8>,
    context: SeriesHotV3Context,
    num_keysets: u32,
    n: nat,
) -> Result<(), Error>
    decreases n,
{
    if n == 0 {
        Ok(())
    } else {
        match admitted_records_result(encoded, context, num_keysets, (n - 1) as nat) {
            Err(error) => Err(error),
            Ok(_) => match decode_record_result(record_slot(encoded, n - 1), context) {
                Err(error) => Err(error),
                Ok(record) => if record.keyset_id >= num_keysets {
                    Err(data_error("schema-7 hot record keyset ID is out of range"))
                } else {
                    Ok(())
                },
            },
        }
    }
}

/// A hot page can be admitted to the cache.
pub open spec fn admit_hot_page_result(
    header: SeriesHeaderV3,
    page_index: u32,
    descriptor: SeriesHotPageDescriptorV1,
    bytes: Seq<u8>,
    chunk_file_lens: [u64; 2],
) -> Result<(), Error> {
    match page_bytes_result(header, page_index, descriptor, bytes) {
        Err(error) => Err(error),
        Ok(page_header) => admitted_records_result(
            record_area(bytes, page_header.record_count as int),
            context_of(header, chunk_file_lens),
            header.num_keysets,
            page_header.record_count as nat,
        ),
    }
}

proof fn lemma_admitted_error(
    encoded: Seq<u8>,
    context: SeriesHotV3Context,
    num_keysets: u32,
    n: nat,
    m: nat,
)
    requires
        n <= m,
        admitted_records_result(encoded, context, num_keysets, n) is Err,
    ensures
        admitted_records_result(encoded, context, num_keysets, m) == admitted_records_result(
            encoded,
            context,
            num_keysets,
            n,
        ),
    decreases m,
{
    if n < m {
        lemma_admitted_error(encoded, context, num_keysets, n, (m - 1) as nat);
    }
}

/// Authenticates a hot page and checks every record of it.
///
/// Row bounds need authenticated cold keyset bytes and are checked when labels
/// are read. The keyset count is known from the root.
pub fn validate_hot_page_for_cache(
    header: SeriesHeaderV3,
    page_index: u32,
    descriptor: SeriesHotPageDescriptorV1,
    page_bytes: &[u8],
    chunk_file_lens: [u64; 2],
) -> (result: Result<(), Error>)
    ensures
        result == admit_hot_page_result(
            header,
            page_index,
            descriptor,
            page_bytes@,
            chunk_file_lens,
        ),
{
    let page = validate_series_hot_page_bytes_v1(
        header,
        page_index,
        descriptor,
        page_bytes,
        chunk_file_lens,
    )?;
    let ghost encoded = page.encoded_records@;
    let ghost context = page.context;
    let mut i: u32 = 0;
    while i < page.page_header.record_count
        invariant
            i <= page.page_header.record_count,
            page.wf(),
            encoded == page.encoded_records@,
            context == page.context,
            context == context_of(header, chunk_file_lens),
            page_bytes_result(header, page_index, descriptor, page_bytes@) == Ok::<
                SeriesHotPageHeaderV1,
                Error,
            >(page.page_header),
            encoded == record_area(page_bytes@, page.page_header.record_count as int),
            admitted_records_result(encoded, context, header.num_keysets, i as nat) is Ok,
        decreases page.page_header.record_count - i,
    {
        match page.record(i) {
            Err(error) => {
                proof {
                    lemma_admitted_error(
                        encoded,
                        context,
                        header.num_keysets,
                        (i + 1) as nat,
                        page.page_header.record_count as nat,
                    );
                }
                return Err(error);
            },
            Ok(record) => {
                if record.keyset_id >= header.num_keysets {
                    proof {
                        lemma_admitted_error(
                            encoded,
                            context,
                            header.num_keysets,
                            (i + 1) as nat,
                            page.page_header.record_count as nat,
                        );
                    }
                    return Err(invalid_data("schema-7 hot record keyset ID is out of range"));
                }
            },
        }
        i += 1;
    }
    Ok(())
}

/// A decoded hot page is the page it was decoded as.
pub open spec fn decoded_hot_page(
    result: Result<ValidatedSeriesHotPage, Error>,
    header: SeriesHeaderV3,
    page_index: u32,
    descriptor: SeriesHotPageDescriptorV1,
    bytes: Seq<u8>,
    chunk_file_lens: [u64; 2],
) -> bool {
    match admit_hot_page_result(header, page_index, descriptor, bytes, chunk_file_lens) {
        Err(error) => result == Err::<ValidatedSeriesHotPage, Error>(error),
        Ok(_) => result is Ok && result->Ok_0@ == (CachedHotPage {
            header,
            page_index,
            descriptor,
            chunk_file_lens,
            bytes,
        }),
    }
}

/// The record of a series in a cached page.
pub open spec fn cached_record_result(page: CachedHotPage, series_ref: u32) -> Result<
    SeriesHotV3,
    Error,
> {
    let index = series_ref - page.descriptor.first_series_ref;
    let start = 24 + 40 * index;
    if index < 0 {
        Err(data_error("schema-7 selected series ref precedes its hot page"))
    } else if index >= page.descriptor.record_count {
        Err(data_error("schema-7 selected series ref exceeds its hot page"))
    } else if start > usize::MAX {
        Err(data_error("schema-7 hot record offset overflows"))
    } else if start + 40 > usize::MAX {
        Err(data_error("schema-7 hot record end overflows"))
    } else if start + 40 > page.bytes.len() {
        Err(data_error("schema-7 cached hot record is truncated"))
    } else {
        match context_result(page.header, page.chunk_file_lens) {
            Err(error) => Err(error),
            Ok(context) => decode_record_result(page.bytes.subrange(start, start + 40), context),
        }
    }
}

impl ValidatedSeriesHotPage {
    /// Returns the exact final-allocation charge for one retained raw hot page.
    pub fn declared_max_bytes(_descriptor: SeriesHotPageDescriptorV1) -> (result: Result<u64, Error>)
        ensures
            result == raw_charge_result(
                vstd::layout::size_of::<ValidatedSeriesHotPage>(),
                16_384,
                "schema-7 hot-page declared charge overflows",
            ),
    {
        charged_raw_bytes::<Self>(
            SERIES_HOT_PAGE_LEN_V1,
            "schema-7 hot-page declared charge overflows",
        )
    }

    /// Validates borrowed bytes and copies them into an exact raw cache value.
    pub fn decode(
        header: SeriesHeaderV3,
        page_index: u32,
        descriptor: SeriesHotPageDescriptorV1,
        page_bytes: &[u8],
        chunk_file_lens: [u64; 2],
    ) -> (result: Result<Self, Error>)
        ensures
            decoded_hot_page(
                result,
                header,
                page_index,
                descriptor,
                page_bytes@,
                chunk_file_lens,
            ),
    {
        validate_hot_page_for_cache(header, page_index, descriptor, page_bytes, chunk_file_lens)?;
        Ok(
            Self {
                header,
                page_index,
                descriptor,
                chunk_file_lens,
                bytes: copy_bytes(page_bytes),
            },
        )
    }

    /// Validates and consumes a raw read allocation without keeping a second
    /// decoded record vector in the cache value.
    pub fn decode_owned(
        header: SeriesHeaderV3,
        page_index: u32,
        descriptor: SeriesHotPageDescriptorV1,
        page_bytes: Vec<u8>,
        chunk_file_lens: [u64; 2],
    ) -> (result: Result<Self, Error>)
        ensures
            decoded_hot_page(
                result,
                header,
                page_index,
                descriptor,
                page_bytes@,
                chunk_file_lens,
            ),
    {
        validate_hot_page_for_cache(header, page_index, descriptor, &page_bytes, chunk_file_lens)?;
        Ok(Self { header, page_index, descriptor, chunk_file_lens, bytes: page_bytes })
    }

    /// Returns the measured logical bytes owned by this cache value.
    pub fn charged_bytes(&self) -> (result: Result<u64, Error>)
        ensures
            result == raw_charge_result(
                vstd::layout::size_of::<ValidatedSeriesHotPage>(),
                self@.bytes.len(),
                "schema-7 hot-page charge overflows",
            ),
    {
        charged_raw_bytes::<Self>(self.bytes.len(), "schema-7 hot-page charge overflows")
    }

    /// The hot record of a series of the page.
    pub fn record(&self, series_ref: u32) -> (result: Result<SeriesHotV3, Error>)
        ensures
            result == cached_record_result(self@, series_ref),
    {
        assert(self.bytes@.len() == self.bytes.len());
        let record_index: u32 = match series_ref.checked_sub(self.descriptor.first_series_ref) {
            Some(index) => index,
            None => {
                return Err(invalid_data("schema-7 selected series ref precedes its hot page"));
            },
        };
        if record_index >= self.descriptor.record_count {
            return Err(invalid_data("schema-7 selected series ref exceeds its hot page"));
        }
        let record_offset: usize = match usize_from_u32(record_index, "hot record index")?.checked_mul(
            SERIES_HOT_RECORD_LEN_V3,
        ) {
            Some(offset) => match offset.checked_add(SERIES_HOT_PAGE_HEADER_LEN_V1) {
                Some(offset) => offset,
                None => {
                    return Err(invalid_data("schema-7 hot record offset overflows"));
                },
            },
            None => {
                return Err(invalid_data("schema-7 hot record offset overflows"));
            },
        };
        let record_end: usize = match record_offset.checked_add(SERIES_HOT_RECORD_LEN_V3) {
            Some(end) => end,
            None => {
                return Err(invalid_data("schema-7 hot record end overflows"));
            },
        };
        if record_end > self.bytes.len() {
            return Err(invalid_data("schema-7 cached hot record is truncated"));
        }
        let context = SeriesHotV3Context::from_header(self.header, self.chunk_file_lens)?;
        SeriesHotV3::decode(&self.bytes[record_offset..record_end], context)
    }
}

pub open spec fn page_facts_result(header: SeriesHeaderV3, facts: Schema7SeriesPageFacts) -> Result<
    (),
    Error,
> {
    if facts.root_len != header.hot_pages_offset || facts.hot_page_count != header.page_count
        || facts.hot_pages_offset != header.hot_pages_offset || facts.hot_pages_len
        != header.hot_pages_len || facts.cold_page_count != header.cold_page_count
        || facts.cold_pages_offset != header.keysets_offset {
        Err(data_error("schema-7 expected series page facts do not match the root"))
    } else {
        match cold_bytes_result(header) {
            Err(error) => Err(error),
            Ok(cold_pages_len) => if facts != page_facts_of(header, cold_pages_len) {
                Err(data_error("schema-7 expected series page facts do not match the root"))
            } else {
                Ok(())
            },
        }
    }
}

pub fn validate_series_page_facts(header: SeriesHeaderV3, facts: Schema7SeriesPageFacts) -> (result:
    Result<(), Error>)
    ensures
        result == page_facts_result(header, facts),
{
    if facts.root_len != header.hot_pages_offset || facts.hot_page_count != header.page_count
        || facts.hot_pages_offset != header.hot_pages_offset || facts.hot_pages_len
        != header.hot_pages_len || facts.cold_page_count != header.cold_page_count
        || facts.cold_pages_offset != header.keysets_offset || facts.cold_pages_len
        != header.cold_bytes_len()? || facts.file_len != header.file_len {
        return Err(invalid_data("schema-7 expected series page facts do not match the root"));
    }
    Ok(())
}

/// The first `n` refs belong to the page and increase, or the first error.
pub open spec fn page_refs_result(descriptor: SeriesHotPageDescriptorV1, refs: Seq<u32>, n: nat) -> Result<
    (),
    Error,
>
    decreases n,
{
    if n == 0 {
        Ok(())
    } else {
        match page_refs_result(descriptor, refs, (n - 1) as nat) {
            Err(error) => Err(error),
            Ok(_) => if refs[n - 1] < descriptor.first_series_ref || refs[n - 1]
                >= descriptor.first_series_ref + descriptor.record_count {
                Err(data_error("schema-7 selected series ref does not belong to its hot page"))
            } else if n > 1 && refs[n - 1] <= refs[n - 2] {
                Err(data_error("schema-7 selected series refs are not sorted and unique"))
            } else {
                Ok(())
            },
        }
    }
}

pub open spec fn sorted_page_refs_result(
    descriptor: SeriesHotPageDescriptorV1,
    refs: Seq<u32>,
) -> Result<(), Error> {
    if descriptor.first_series_ref + descriptor.record_count > u32::MAX {
        Err(data_error("schema-7 expected hot page range overflows"))
    } else {
        page_refs_result(descriptor, refs, refs.len())
    }
}

proof fn lemma_page_refs_error(
    descriptor: SeriesHotPageDescriptorV1,
    refs: Seq<u32>,
    n: nat,
    m: nat,
)
    requires
        n <= m,
        page_refs_result(descriptor, refs, n) is Err,
    ensures
        page_refs_result(descriptor, refs, m) == page_refs_result(descriptor, refs, n),
    decreases m,
{
    if n < m {
        lemma_page_refs_error(descriptor, refs, n, (m - 1) as nat);
    }
}

pub fn validate_sorted_unique_page_refs(descriptor: SeriesHotPageDescriptorV1, refs: &[u32]) -> (
result: Result<(), Error>)
    ensures
        result == sorted_page_refs_result(descriptor, refs@),
{
    let page_end: u32 = match descriptor.first_series_ref.checked_add(descriptor.record_count) {
        Some(end) => end,
        None => {
            return Err(invalid_data("schema-7 expected hot page range overflows"));
        },
    };
    let mut i: usize = 0;
    while i < refs.len()
        invariant
            i <= refs@.len(),
            page_end == descriptor.first_series_ref + descriptor.record_count,
            page_refs_result(descriptor, refs@, i as nat) is Ok,
        decreases refs@.len() - i,
    {
        let series_ref: u32 = refs[i];
        if series_ref < descriptor.first_series_ref || series_ref >= page_end {
            proof {
                lemma_page_refs_error(descriptor, refs@, (i + 1) as nat, refs@.len());
            }
            return Err(
                invalid_data("schema-7 selected series ref does not belong to its hot page"),
            );
        }
        if i > 0 && series_ref <= refs[i - 1] {
            proof {
                lemma_page_refs_error(descriptor, refs@, (i + 1) as nat, refs@.len());
            }
            return Err(invalid_data("schema-7 selected series refs are not sorted and unique"));
        }
        i += 1;
    }
    Ok(())
}

pub open spec fn chunk_kind_result(value: u8) -> Result<ChunkKind, Error> {
    match kind_of(value) {
        Some(kind) => Ok(kind),
        None => Err(data_error("schema-7 planned inline chunk kind is invalid")),
    }
}

pub fn chunk_kind(value: u8) -> (result: Result<ChunkKind, Error>)
    ensures
        result == chunk_kind_result(value),
{
    match kind_from_code(value) {
        Some(kind) => Ok(kind),
        None => Err(invalid_data("schema-7 planned inline chunk kind is invalid")),
    }
}

/// The locator of an inline chunk.
pub open spec fn inline_locator_result(
    header: SeriesHeaderV3,
    series_ref: u32,
    inline: InlineChunkV3,
) -> Result<IndexedChunkLocator, Error> {
    match chunk_kind_result(inline.chunk_kind) {
        Err(error) => Err(error),
        Ok(kind) => if header.segment_start_ms + inline.min_time_delta_ms > u64::MAX {
            Err(data_error("schema-7 inline minimum time overflows"))
        } else if header.segment_start_ms + inline.max_time_delta_ms > u64::MAX {
            Err(data_error("schema-7 inline maximum time overflows"))
        } else {
            schema7_locator_result(
                series_ref,
                ChunkIndexEntry {
                    file_id: inline.file_id,
                    kind,
                    flags: 0,
                    min_time_ms: (header.segment_start_ms + inline.min_time_delta_ms) as u64,
                    max_time_ms: (header.segment_start_ms + inline.max_time_delta_ms) as u64,
                    offset: inline.file_offset as u64,
                    length: inline.chunk_length,
                    scalar_lane_offset: inline.lane_offset(),
                    scalar_lane_len: inline.scalar_lane_len,
                },
                Some(inline.indexed_prefix_crc32c),
            )
        },
    }
}

pub fn inline_locator(header: SeriesHeaderV3, series_ref: u32, inline: InlineChunkV3) -> (result:
    Result<IndexedChunkLocator, Error>)
    ensures
        result == inline_locator_result(header, series_ref, inline),
{
    let kind = chunk_kind(inline.chunk_kind)?;
    let min_time_ms: u64 = match header.segment_start_ms.checked_add(
        inline.min_time_delta_ms as u64,
    ) {
        Some(time) => time,
        None => {
            return Err(invalid_data("schema-7 inline minimum time overflows"));
        },
    };
    let max_time_ms: u64 = match header.segment_start_ms.checked_add(
        inline.max_time_delta_ms as u64,
    ) {
        Some(time) => time,
        None => {
            return Err(invalid_data("schema-7 inline maximum time overflows"));
        },
    };
    IndexedChunkLocator::try_schema7(
        series_ref,
        ChunkIndexEntry {
            file_id: inline.file_id,
            kind,
            flags: 0,
            min_time_ms,
            max_time_ms,
            offset: inline.file_offset as u64,
            length: inline.chunk_length,
            scalar_lane_offset: inline.scalar_lane_offset(),
            scalar_lane_len: inline.scalar_lane_len,
        },
        Some(inline.indexed_prefix_crc32c),
    )
}

/// The locator of an overflow entry.
pub open spec fn locator_of(series_ref: u32, entry: OverflowChunkEntryV1) -> IndexedChunkLocator {
    IndexedChunkLocator {
        series_ref,
        entry: ChunkIndexEntry {
            file_id: entry.file_id,
            kind: entry.kind,
            flags: 0,
            min_time_ms: entry.min_time_ms,
            max_time_ms: entry.max_time_ms,
            offset: entry.offset,
            length: entry.length,
            scalar_lane_offset: entry.scalar_lane_offset,
            scalar_lane_len: entry.scalar_lane_len,
        },
        authentication: IndexedChunkAuthentication::Schema7 {
            indexed_prefix_crc32c: entry.indexed_prefix_crc32c,
        },
    }
}

pub fn indexed_locator(series_ref: u32, entry: &OverflowChunkEntryV1) -> (result: Result<
    IndexedChunkLocator,
    Error,
>)
    ensures
        result == Ok::<IndexedChunkLocator, Error>(locator_of(series_ref, *entry)),
{
    IndexedChunkLocator::try_schema7(
        series_ref,
        ChunkIndexEntry {
            file_id: entry.file_id,
            kind: entry.kind,
            flags: 0,
            min_time_ms: entry.min_time_ms,
            max_time_ms: entry.max_time_ms,
            offset: entry.offset,
            length: entry.length,
            scalar_lane_offset: entry.scalar_lane_offset,
            scalar_lane_len: entry.scalar_lane_len,
        },
        Some(entry.indexed_prefix_crc32c),
    )
}

/// The plan of one series from its hot record.
pub open spec fn planned_series_result(
    header: SeriesHeaderV3,
    series_ref: u32,
    record: SeriesHotV3,
) -> Result<PlannedSeries, Error> {
    let chunks: Result<ChunkLocatorSource, Error> = match record.location {
        SeriesHotLocationV3::Inline(inline) => match inline_locator_result(
            header,
            series_ref,
            inline,
        ) {
            Err(error) => Err(error),
            Ok(locator) => Ok(ChunkLocatorSource::Inline(locator)),
        },
        SeriesHotLocationV3::Overflow(overflow) => Ok(
            ChunkLocatorSource::Overflow {
                locator: ChunkOverflowBlobLocatorV1 {
                    series_ref,
                    blob_offset: overflow.blob_offset,
                    blob_len: overflow.blob_len,
                    chunk_count: overflow.chunk_count,
                },
                expected_kind_mask: record.kind_mask,
            },
        ),
    };
    match chunks {
        Err(error) => Err(error),
        Ok(chunks) => Ok(
            PlannedSeries {
                series_ref,
                kind_mask: record.kind_mask,
                cold_labels: ColdLabelRowLocator { keyset_id: record.keyset_id, row: record.row },
                chunks,
                expected_label_identity: record.series_id,
            },
        ),
    }
}

/// The plans of the first `n` selected series, or the first error.
pub open spec fn planned_list_result(
    header: SeriesHeaderV3,
    page: CachedHotPage,
    refs: Seq<u32>,
    n: nat,
) -> Result<Seq<PlannedSeries>, Error>
    decreases n,
{
    if n == 0 {
        Ok(Seq::empty())
    } else {
        match planned_list_result(header, page, refs, (n - 1) as nat) {
            Err(error) => Err(error),
            Ok(list) => match cached_record_result(page, refs[n - 1]) {
                Err(error) => Err(error),
                Ok(record) => match planned_series_result(header, refs[n - 1], record) {
                    Err(error) => Err(error),
                    Ok(planned) => Ok(list.push(planned)),
                },
            },
        }
    }
}

proof fn lemma_planned_error(
    header: SeriesHeaderV3,
    page: CachedHotPage,
    refs: Seq<u32>,
    n: nat,
    m: nat,
)
    requires
        n <= m,
        planned_list_result(header, page, refs, n) is Err,
    ensures
        planned_list_result(header, page, refs, m) == planned_list_result(header, page, refs, n),
    decreases m,
{
    if n < m {
        lemma_planned_error(header, page, refs, n, (m - 1) as nat);
    }
}

/// The plans of selected series from a cached page.
pub open spec fn plan_page_result(
    header: SeriesHeaderV3,
    page_facts: Schema7SeriesPageFacts,
    page_index: u32,
    descriptor: SeriesHotPageDescriptorV1,
    page: CachedHotPage,
    chunk_file_lens: [u64; 2],
    refs: Seq<u32>,
) -> Result<Seq<PlannedSeries>, Error> {
    if page_facts_result(header, page_facts) is Err {
        Err(page_facts_result(header, page_facts)->Err_0)
    } else if page_index >= page_facts.hot_page_count {
        Err(data_error("schema-7 planned hot page index is out of range"))
    } else if sorted_page_refs_result(descriptor, refs) is Err {
        Err(sorted_page_refs_result(descriptor, refs)->Err_0)
    } else if page.header != header || page.page_index != page_index || page.descriptor
        != descriptor || page.chunk_file_lens != chunk_file_lens {
        Err(
            data_error("schema-7 cached hot page decode context does not match the expected root"),
        )
    } else if page.bytes.len() != 16_384 {
        Err(data_error("schema-7 cached hot page does not have its exact physical length"))
    } else {
        planned_list_result(header, page, refs, refs.len())
    }
}

fn plan_series(header: SeriesHeaderV3, series_ref: u32, record: SeriesHotV3) -> (result: Result<
    PlannedSeries,
    Error,
>)
    ensures
        result == planned_series_result(header, series_ref, record),
{
    let chunks = match record.location {
        SeriesHotLocationV3::Inline(inline) => ChunkLocatorSource::Inline(
            inline_locator(header, series_ref, inline)?,
        ),
        SeriesHotLocationV3::Overflow(overflow) => ChunkLocatorSource::Overflow {
            locator: ChunkOverflowBlobLocatorV1 {
                series_ref,
                blob_offset: overflow.blob_offset,
                blob_len: overflow.blob_len,
                chunk_count: overflow.chunk_count,
            },
            expected_kind_mask: record.kind_mask,
        },
    };
    Ok(
        PlannedSeries {
            series_ref,
            kind_mask: record.kind_mask,
            cold_labels: ColdLabelRowLocator { keyset_id: record.keyset_id, row: record.row },
            chunks,
            expected_label_identity: record.series_id,
        },
    )
}

/// Plans selected series from an already authenticated hot-page cache value,
/// re-checking its root and descriptor identity on every use.
pub fn plan_schema7_decoded_hot_page(
    header: SeriesHeaderV3,
    page_facts: Schema7SeriesPageFacts,
    page_index: u32,
    descriptor: SeriesHotPageDescriptorV1,
    validated_page: &ValidatedSeriesHotPage,
    chunk_file_lens: [u64; 2],
    selected_series_refs: &[u32],
) -> (result: Result<Vec<PlannedSeries>, Error>)
    ensures
        vec_result(result) == plan_page_result(
            header,
            page_facts,
            page_index,
            descriptor,
            validated_page@,
            chunk_file_lens,
            selected_series_refs@,
        ),
{
    validate_series_page_facts(header, page_facts)?;
    if page_index >= page_facts.hot_page_count {
        return Err(invalid_data("schema-7 planned hot page index is out of range"));
    }
    validate_sorted_unique_page_refs(descriptor, selected_series_refs)?;
    if validated_page.header != header || validated_page.page_index != page_index
        || validated_page.descriptor != descriptor || !same_file_lens(
        validated_page.chunk_file_lens,
        chunk_file_lens,
    ) {
        return Err(
            invalid_data(
                "schema-7 cached hot page decode context does not match the expected root",
            ),
        );
    }
    if validated_page.bytes.len() != SERIES_HOT_PAGE_LEN_V1 {
        return Err(
            invalid_data("schema-7 cached hot page does not have its exact physical length"),
        );
    }
    let ghost page = validated_page@;
    let ghost refs = selected_series_refs@;
    let mut planned: Vec<PlannedSeries> = Vec::with_capacity(selected_series_refs.len());
    let mut i: usize = 0;
    assert(planned@ =~= Seq::empty());
    while i < selected_series_refs.len()
        invariant
            i <= refs.len(),
            page == validated_page@,
            refs == selected_series_refs@,
            planned_list_result(header, page, refs, i as nat) == Ok::<Seq<PlannedSeries>, Error>(
                planned@,
            ),
            plan_page_result(
                header,
                page_facts,
                page_index,
                descriptor,
                page,
                chunk_file_lens,
                refs,
            ) == planned_list_result(header, page, refs, refs.len()),
        decreases refs.len() - i,
    {
        let series_ref: u32 = selected_series_refs[i];
        let record = match validated_page.record(series_ref) {
            Ok(record) => record,
            Err(error) => {
                proof {
                    lemma_planned_error(header, page, refs, (i + 1) as nat, refs.len());
                }
                return Err(error);
            },
        };
        match plan_series(header, series_ref, record) {
            Ok(series) => {
                planned.push(series);
            },
            Err(error) => {
                proof {
                    lemma_planned_error(header, page, refs, (i + 1) as nat, refs.len());
                }
                return Err(error);
            },
        }
        i += 1;
    }
    Ok(planned)
}

/// Authenticates one complete hot page and plans a sorted-unique subset of its
/// series refs.
pub fn plan_schema7_hot_page(
    header: SeriesHeaderV3,
    page_facts: Schema7SeriesPageFacts,
    page_index: u32,
    descriptor: SeriesHotPageDescriptorV1,
    page_bytes: &[u8],
    chunk_file_lens: [u64; 2],
    selected_series_refs: &[u32],
) -> (result: Result<Vec<PlannedSeries>, Error>)
    ensures
        vec_result(result) == (match admit_hot_page_result(
            header,
            page_index,
            descriptor,
            page_bytes@,
            chunk_file_lens,
        ) {
            Err(error) => Err(error),
            Ok(_) => plan_page_result(
                header,
                page_facts,
                page_index,
                descriptor,
                (CachedHotPage {
                    header,
                    page_index,
                    descriptor,
                    chunk_file_lens,
                    bytes: page_bytes@,
                }),
                chunk_file_lens,
                selected_series_refs@,
            ),
        }),
{
    let page = ValidatedSeriesHotPage::decode(
        header,
        page_index,
        descriptor,
        page_bytes,
        chunk_file_lens,
    )?;
    plan_schema7_decoded_hot_page(
        header,
        page_facts,
        page_index,
        descriptor,
        &page,
        chunk_file_lens,
        selected_series_refs,
    )
}

/// Cacheable intrinsically authenticated physical overflow blob.
///
/// Hot-record identity is not part of admission. Every hit and miss is rebound
/// to its authenticated hot record through [`Self::validate_bound_context`] so
/// cache flight order cannot change corruption semantics.
#[derive(Debug, PartialEq, Eq)]
pub struct ValidatedOverflowBlob {
    header: SeriesHeaderV3,
    root: ChunkOverflowRootV2,
    blob_facts: Schema7OverflowBlobFacts,
    blob_offset: u64,
    series_ref: u32,
    chunk_count: u32,
    kind_mask: u8,
    chunk_file_lens: [u64; 2],
    bytes: Vec<u8>,
}

/// A cached blob with its bytes as a sequence.
pub struct CachedBlob {
    pub header: SeriesHeaderV3,
    pub root: ChunkOverflowRootV2,
    pub blob_facts: Schema7OverflowBlobFacts,
    pub blob_offset: u64,
    pub series_ref: u32,
    pub chunk_count: u32,
    pub kind_mask: u8,
    pub chunk_file_lens: [u64; 2],
    pub bytes: Seq<u8>,
}

impl View for ValidatedOverflowBlob {
    type V = CachedBlob;

    closed spec fn view(&self) -> CachedBlob {
        CachedBlob {
            header: self.header,
            root: self.root,
            blob_facts: self.blob_facts,
            blob_offset: self.blob_offset,
            series_ref: self.series_ref,
            chunk_count: self.chunk_count,
            kind_mask: self.kind_mask,
            chunk_file_lens: self.chunk_file_lens,
            bytes: self.bytes@,
        }
    }
}

/// Whose chunks a validated blob holds, how many, and of which kinds.
#[derive(Debug, Clone, Copy, PartialEq, Eq, Structural)]
pub struct PhysicalOverflowIdentity {
    pub series_ref: u32,
    pub chunk_count: u32,
    pub kind_mask: u8,
}

pub open spec fn overflow_facts_result(
    header: SeriesHeaderV3,
    root: ChunkOverflowRootV2,
    facts: Schema7OverflowBlobFacts,
) -> Result<(), Error> {
    if header.num_series != root.series_count || header.chunk_index_file_len != root.file_len
        || header.chunk_index_root_crc32c != root.root_crc32c || facts != blob_facts_of(root) {
        Err(data_error("schema-7 expected overflow blob facts do not match the bound roots"))
    } else {
        Ok(())
    }
}

pub fn validate_overflow_facts(
    header: SeriesHeaderV3,
    root: &ChunkOverflowRootV2,
    facts: Schema7OverflowBlobFacts,
) -> (result: Result<(), Error>)
    ensures
        result == overflow_facts_result(header, *root, facts),
{
    if header.num_series != root.series_count || header.chunk_index_file_len != root.file_len
        || header.chunk_index_root_crc32c != root.root_crc32c || facts.root_len != 64
        || facts.blob_count != root.blob_count || facts.blobs_offset != 64 || facts.blobs_len
        != root.blobs_len || facts.file_len != root.file_len {
        return Err(
            invalid_data("schema-7 expected overflow blob facts do not match the bound roots"),
        );
    }
    Ok(())
}

/// The overflow locator that a plan names, if it is one of the bound roots.
pub open spec fn expected_source_result(
    header: SeriesHeaderV3,
    root: ChunkOverflowRootV2,
    facts: Schema7OverflowBlobFacts,
    planned: PlannedSeries,
) -> Result<ChunkOverflowBlobLocatorV1, Error> {
    if overflow_facts_result(header, root, facts) is Err {
        Err(overflow_facts_result(header, root, facts)->Err_0)
    } else if planned.series_ref >= header.num_series {
        Err(data_error("schema-7 planned overflow series ref is out of range"))
    } else {
        match planned.chunks {
            ChunkLocatorSource::Inline(_) => Err(
                data_error("schema-7 planned series does not reference an overflow blob"),
            ),
            ChunkLocatorSource::Overflow { locator, expected_kind_mask } => {
                if locator.series_ref != planned.series_ref || expected_kind_mask
                    != planned.kind_mask {
                    Err(data_error("schema-7 planned overflow source does not match its series"))
                } else if locator.blob_offset + locator.blob_len > u64::MAX {
                    Err(data_error("schema-7 planned overflow blob range overflows"))
                } else if facts.blobs_offset + facts.blobs_len > u64::MAX {
                    Err(data_error("schema-7 expected overflow blob region overflows"))
                } else if locator.blob_offset < facts.blobs_offset || locator.blob_offset
                    + locator.blob_len > facts.blobs_offset + facts.blobs_len {
                    Err(data_error("schema-7 planned overflow blob exceeds expected blob facts"))
                } else {
                    Ok(locator)
                }
            },
        }
    }
}

pub fn validate_expected_overflow_source(
    header: SeriesHeaderV3,
    root: &ChunkOverflowRootV2,
    blob_facts: Schema7OverflowBlobFacts,
    planned: &PlannedSeries,
) -> (result: Result<ChunkOverflowBlobLocatorV1, Error>)
    ensures
        result == expected_source_result(header, *root, blob_facts, *planned),
{
    validate_overflow_facts(header, root, blob_facts)?;
    if planned.series_ref >= header.num_series {
        return Err(invalid_data("schema-7 planned overflow series ref is out of range"));
    }
    match planned.chunks {
        ChunkLocatorSource::Inline(_) => Err(
            invalid_data("schema-7 planned series does not reference an overflow blob"),
        ),
        ChunkLocatorSource::Overflow { locator, expected_kind_mask } => {
            if locator.series_ref != planned.series_ref || expected_kind_mask
                != planned.kind_mask {
                return Err(
                    invalid_data("schema-7 planned overflow source does not match its series"),
                );
            }
            let blob_end: u64 = match locator.blob_offset.checked_add(locator.blob_len as u64) {
                Some(end) => end,
                None => {
                    return Err(invalid_data("schema-7 planned overflow blob range overflows"));
                },
            };
            let facts_end: u64 = match blob_facts.blobs_offset.checked_add(blob_facts.blobs_len) {
                Some(end) => end,
                None => {
                    return Err(invalid_data("schema-7 expected overflow blob region overflows"));
                },
            };
            if locator.blob_offset < blob_facts.blobs_offset || blob_end > facts_end {
                return Err(
                    invalid_data("schema-7 planned overflow blob exceeds expected blob facts"),
                );
            }
            Ok(locator)
        },
    }
}

pub open spec fn overflow_entry_result(
    header: SeriesHeaderV3,
    entry: OverflowChunkEntryV1,
    chunk_file_lens: [u64; 2],
) -> Result<(), Error> {
    if entry.min_time_ms < header.segment_start_ms || entry.min_time_ms > entry.max_time_ms
        || entry.max_time_ms >= header.segment_end_ms {
        Err(data_error("schema-7 overflow chunk time range is outside its segment"))
    } else if entry.file_id > 1 {
        Err(data_error("schema-7 overflow chunk file ID is invalid"))
    } else if entry.offset + entry.length > u64::MAX {
        Err(data_error("schema-7 overflow chunk file range overflows"))
    } else if entry.offset + entry.length > chunk_file_lens@[entry.file_id as int] {
        Err(data_error("schema-7 overflow chunk file range is out of bounds"))
    } else {
        Ok(())
    }
}

pub fn validate_overflow_entry(
    header: SeriesHeaderV3,
    entry: &OverflowChunkEntryV1,
    chunk_file_lens: [u64; 2],
) -> (result: Result<(), Error>)
    ensures
        result == overflow_entry_result(header, *entry, chunk_file_lens),
{
    if entry.min_time_ms < header.segment_start_ms || entry.min_time_ms > entry.max_time_ms
        || entry.max_time_ms >= header.segment_end_ms {
        return Err(
            invalid_data("schema-7 overflow chunk time range is outside its segment"),
        );
    }
    if entry.file_id > 1 {
        return Err(invalid_data("schema-7 overflow chunk file ID is invalid"));
    }
    let file_len: u64 = chunk_file_lens[entry.file_id as usize];
    let chunk_end: u64 = match entry.offset.checked_add(entry.length as u64) {
        Some(end) => end,
        None => {
            return Err(invalid_data("schema-7 overflow chunk file range overflows"));
        },
    };
    if chunk_end > file_len {
        return Err(invalid_data("schema-7 overflow chunk file range is out of bounds"));
    }
    Ok(())
}

/// The first `n` entries of a blob, in order and inside the segment, or the
/// first error.
pub open spec fn physical_entries_result(
    header: SeriesHeaderV3,
    bytes: Seq<u8>,
    chunk_file_lens: [u64; 2],
    n: nat,
) -> Result<Seq<OverflowChunkEntryV1>, Error>
    decreases n,
{
    if n == 0 {
        Ok(Seq::empty())
    } else {
        match physical_entries_result(header, bytes, chunk_file_lens, (n - 1) as nat) {
            Err(error) => Err(error),
            Ok(list) => match ordered_entry_result(bytes, n - 1) {
                Err(error) => Err(error),
                Ok(entry) => match overflow_entry_result(header, entry, chunk_file_lens) {
                    Err(error) => Err(error),
                    Ok(_) => Ok(list.push(entry)),
                },
            },
        }
    }
}

proof fn lemma_physical_entries_error(
    header: SeriesHeaderV3,
    bytes: Seq<u8>,
    chunk_file_lens: [u64; 2],
    n: nat,
    m: nat,
)
    requires
        n <= m,
        physical_entries_result(header, bytes, chunk_file_lens, n) is Err,
    ensures
        physical_entries_result(header, bytes, chunk_file_lens, m) == physical_entries_result(
            header,
            bytes,
            chunk_file_lens,
            n,
        ),
    decreases m,
{
    if n < m {
        lemma_physical_entries_error(header, bytes, chunk_file_lens, n, (m - 1) as nat);
    }
}

/// The kinds of the first `n` entries, one bit for each.
pub open spec fn entries_mask(entries: Seq<OverflowChunkEntryV1>, n: nat) -> u8
    decreases n,
{
    if n == 0 {
        0
    } else {
        entries_mask(entries, (n - 1) as nat) | kind_bit_of(entries[n - 1].kind.code_of())
    }
}

/// A physical blob that holds the chunks of one series.
pub open spec fn physical_blob_result(
    header: SeriesHeaderV3,
    root: ChunkOverflowRootV2,
    facts: Schema7OverflowBlobFacts,
    blob_offset: u64,
    bytes: Seq<u8>,
    chunk_file_lens: [u64; 2],
) -> Result<(PhysicalOverflowIdentity, Seq<OverflowChunkEntryV1>), Error> {
    if overflow_facts_result(header, root, facts) is Err {
        Err(overflow_facts_result(header, root, facts)->Err_0)
    } else if blob_offset + bytes.len() > u64::MAX {
        Err(data_error("schema-7 overflow blob range overflows"))
    } else if facts.blobs_offset + facts.blobs_len > u64::MAX {
        Err(data_error("schema-7 expected overflow blob region overflows"))
    } else if blob_offset < facts.blobs_offset || blob_offset + bytes.len() > facts.blobs_offset
        + facts.blobs_len {
        Err(data_error("schema-7 physical overflow blob exceeds expected blob facts"))
    } else {
        match blob_facts_result(bytes, root, blob_offset) {
            Err(error) => Err(error),
            Ok(blob) => match physical_entries_result(
                header,
                bytes,
                chunk_file_lens,
                blob.chunk_count as nat,
            ) {
                Err(error) => Err(error),
                Ok(entries) => if blob.chunk_count == 1 && fits_inline(
                    header.segment_start_ms,
                    locator_of(blob.series_ref, entries[0]).entry,
                ) {
                    Err(data_error("schema-7 one-chunk overflow blob is noncanonical"))
                } else {
                    Ok(
                        (
                            PhysicalOverflowIdentity {
                                series_ref: blob.series_ref,
                                chunk_count: blob.chunk_count,
                                kind_mask: entries_mask(entries, entries.len()),
                            },
                            entries,
                        ),
                    )
                },
            },
        }
    }
}

/// Authenticates a physical blob and returns whose chunks it holds, and them.
pub fn validate_physical_overflow_blob(
    header: SeriesHeaderV3,
    root: &ChunkOverflowRootV2,
    blob_facts: Schema7OverflowBlobFacts,
    blob_offset: u64,
    blob_bytes: &[u8],
    chunk_file_lens: [u64; 2],
) -> (result: Result<(PhysicalOverflowIdentity, Vec<OverflowChunkEntryV1>), Error>)
    ensures
        match physical_blob_result(
            header,
            *root,
            blob_facts,
            blob_offset,
            blob_bytes@,
            chunk_file_lens,
        ) {
            Err(error) => result == Err::<
                (PhysicalOverflowIdentity, Vec<OverflowChunkEntryV1>),
                Error,
            >(error),
            Ok((identity, entries)) => result is Ok && result->Ok_0.0 == identity
                && result->Ok_0.1@ == entries,
        },
{
    assert(blob_bytes@.len() == blob_bytes.len());
    validate_overflow_facts(header, root, blob_facts)?;
    let blob_len: u64 = blob_bytes.len() as u64;
    let blob_end: u64 = match blob_offset.checked_add(blob_len) {
        Some(end) => end,
        None => {
            return Err(invalid_data("schema-7 overflow blob range overflows"));
        },
    };
    let facts_end: u64 = match blob_facts.blobs_offset.checked_add(blob_facts.blobs_len) {
        Some(end) => end,
        None => {
            return Err(invalid_data("schema-7 expected overflow blob region overflows"));
        },
    };
    if blob_offset < blob_facts.blobs_offset || blob_end > facts_end {
        return Err(
            invalid_data("schema-7 physical overflow blob exceeds expected blob facts"),
        );
    }
    let facts = physical_blob_facts(blob_bytes, root, blob_offset)?;
    let mut kind_mask: u8 = 0;
    let mut entries: Vec<OverflowChunkEntryV1> = Vec::with_capacity(facts.chunk_count as usize);
    let mut previous: Option<OverflowChunkEntryV1> = None;
    let mut i: u32 = 0;
    assert(entries@ =~= Seq::empty());
    while i < facts.chunk_count
        invariant
            i <= facts.chunk_count,
            blob_bytes@.len() == 32 + 44 * facts.chunk_count,
            entries@.len() == i,
            physical_entries_result(header, blob_bytes@, chunk_file_lens, i as nat) == Ok::<
                Seq<OverflowChunkEntryV1>,
                Error,
            >(entries@),
            kind_mask == entries_mask(entries@, i as nat),
            previous == (if i == 0 {
                None
            } else {
                match entry_result(entry_slot(blob_bytes@, i - 1)) {
                    Ok(entry) => Some(entry),
                    Err(_) => None,
                }
            }),
            blob_facts_result(blob_bytes@, *root, blob_offset) == Ok::<
                PhysicalBlobFacts,
                Error,
            >(facts),
            overflow_facts_result(header, *root, blob_facts) is Ok,
            blob_offset + blob_bytes@.len() <= u64::MAX,
            blob_facts.blobs_offset + blob_facts.blobs_len <= u64::MAX,
            blob_facts.blobs_offset <= blob_offset,
            blob_offset + blob_bytes@.len() <= blob_facts.blobs_offset + blob_facts.blobs_len,
        decreases facts.chunk_count - i,
    {
        let entry = match physical_blob_entry(blob_bytes, i, previous) {
            Ok(entry) => entry,
            Err(error) => {
                proof {
                    lemma_physical_entries_error(
                        header,
                        blob_bytes@,
                        chunk_file_lens,
                        (i + 1) as nat,
                        facts.chunk_count as nat,
                    );
                }
                return Err(error);
            },
        };
        match validate_overflow_entry(header, &entry, chunk_file_lens) {
            Ok(_) => {},
            Err(error) => {
                proof {
                    lemma_physical_entries_error(
                        header,
                        blob_bytes@,
                        chunk_file_lens,
                        (i + 1) as nat,
                        facts.chunk_count as nat,
                    );
                }
                return Err(error);
            },
        }
        let ghost before = entries@;
        kind_mask = kind_mask | kind_bit(entry.kind);
        entries.push(entry);
        previous = Some(entry);
        i += 1;
        proof {
            lemma_entries_mask_prefix(before, entries@, (i - 1) as nat);
        }
    }
    if facts.chunk_count == 1 {
        let sole = indexed_locator(facts.series_ref, &entries[0])?;
        if chunk_entry_fits_inline(header.segment_start_ms, sole.entry()) {
            return Err(invalid_data("schema-7 one-chunk overflow blob is noncanonical"));
        }
    }
    Ok(
        (
            PhysicalOverflowIdentity {
                series_ref: facts.series_ref,
                chunk_count: facts.chunk_count,
                kind_mask,
            },
            entries,
        ),
    )
}

proof fn lemma_entries_mask_prefix(
    a: Seq<OverflowChunkEntryV1>,
    b: Seq<OverflowChunkEntryV1>,
    n: nat,
)
    requires
        n <= a.len(),
        n <= b.len(),
        forall|i: int| 0 <= i < n ==> a[i] == b[i],
    ensures
        entries_mask(a, n) == entries_mask(b, n),
    decreases n,
{
    if n > 0 {
        lemma_entries_mask_prefix(a, b, (n - 1) as nat);
    }
}

/// The cache value of a physical blob.
pub open spec fn cached_blob_result(
    bytes: Seq<u8>,
    header: SeriesHeaderV3,
    root: ChunkOverflowRootV2,
    blob_facts: Schema7OverflowBlobFacts,
    blob_offset: u64,
    chunk_file_lens: [u64; 2],
) -> Result<CachedBlob, Error> {
    match physical_blob_result(header, root, blob_facts, blob_offset, bytes, chunk_file_lens) {
        Err(error) => Err(error),
        Ok((identity, _)) => Ok(
            CachedBlob {
                header,
                root,
                blob_facts,
                blob_offset,
                series_ref: identity.series_ref,
                chunk_count: identity.chunk_count,
                kind_mask: identity.kind_mask,
                chunk_file_lens,
                bytes,
            },
        ),
    }
}

/// A cached blob holds the chunks that a plan expects.
pub open spec fn bound_context_result(
    blob: CachedBlob,
    header: SeriesHeaderV3,
    root: ChunkOverflowRootV2,
    blob_facts: Schema7OverflowBlobFacts,
    planned: PlannedSeries,
    chunk_file_lens: [u64; 2],
) -> Result<(), Error> {
    match expected_source_result(header, root, blob_facts, planned) {
        Err(error) => Err(error),
        Ok(locator) => if blob.header != header || blob.root != root || blob.blob_facts
            != blob_facts || blob.blob_offset != locator.blob_offset || blob.bytes.len()
            != locator.blob_len || blob.chunk_file_lens != chunk_file_lens {
            Err(
                data_error(
                    "schema-7 cached overflow blob decode context does not match its bound root",
                ),
            )
        } else if blob.series_ref != locator.series_ref {
            Err(data_error("schema-7 overflow blob series_ref does not match hot record"))
        } else if blob.chunk_count != locator.chunk_count {
            Err(data_error("schema-7 overflow blob chunk count does not match hot record"))
        } else if blob.kind_mask != planned.kind_mask {
            Err(data_error("schema-7 overflow kind mask does not match its hot record"))
        } else {
            Ok(())
        },
    }
}

/// The cache value of a blob that a plan expects.
pub open spec fn bound_blob_result(
    bytes: Seq<u8>,
    header: SeriesHeaderV3,
    root: ChunkOverflowRootV2,
    blob_facts: Schema7OverflowBlobFacts,
    planned: PlannedSeries,
    chunk_file_lens: [u64; 2],
) -> Result<CachedBlob, Error> {
    match expected_source_result(header, root, blob_facts, planned) {
        Err(error) => Err(error),
        Ok(locator) => match cached_blob_result(
            bytes,
            header,
            root,
            blob_facts,
            locator.blob_offset,
            chunk_file_lens,
        ) {
            Err(error) => Err(error),
            Ok(blob) => match bound_context_result(
                blob,
                header,
                root,
                blob_facts,
                planned,
                chunk_file_lens,
            ) {
                Err(error) => Err(error),
                Ok(_) => Ok(blob),
            },
        },
    }
}

pub open spec fn blob_view(result: Result<ValidatedOverflowBlob, Error>) -> Result<
    CachedBlob,
    Error,
> {
    match result {
        Ok(blob) => Ok(blob@),
        Err(error) => Err(error),
    }
}

impl ValidatedOverflowBlob {
    /// Returns the exact final-allocation charge for one retained raw blob.
    pub fn declared_max_bytes(locator: ChunkOverflowBlobLocatorV1) -> (result: Result<u64, Error>)
        ensures
            result == raw_charge_result(
                vstd::layout::size_of::<ValidatedOverflowBlob>(),
                locator.blob_len as nat,
                "schema-7 overflow-blob declared charge overflows",
            ),
    {
        charged_raw_bytes::<Self>(
            usize_from_u32(locator.blob_len, "overflow blob length")?,
            "schema-7 overflow-blob declared charge overflows",
        )
    }

    /// Validates borrowed bytes and copies them into an exact raw cache value.
    pub fn decode_bound(
        blob_bytes: &[u8],
        header: SeriesHeaderV3,
        root: &ChunkOverflowRootV2,
        blob_facts: Schema7OverflowBlobFacts,
        planned: &PlannedSeries,
        chunk_file_lens: [u64; 2],
    ) -> (result: Result<Self, Error>)
        ensures
            blob_view(result) == bound_blob_result(
                blob_bytes@,
                header,
                *root,
                blob_facts,
                *planned,
                chunk_file_lens,
            ),
    {
        let locator = validate_expected_overflow_source(header, root, blob_facts, planned)?;
        let decoded = Self::decode_physical(
            blob_bytes,
            header,
            root,
            blob_facts,
            locator.blob_offset,
            chunk_file_lens,
        )?;
        decoded.validate_bound_context(header, root, blob_facts, planned, chunk_file_lens)?;
        Ok(decoded)
    }

    /// Validates borrowed physical bytes before allocating their exact raw
    /// cache representation.
    pub fn decode_physical(
        blob_bytes: &[u8],
        header: SeriesHeaderV3,
        root: &ChunkOverflowRootV2,
        blob_facts: Schema7OverflowBlobFacts,
        blob_offset: u64,
        chunk_file_lens: [u64; 2],
    ) -> (result: Result<Self, Error>)
        ensures
            blob_view(result) == cached_blob_result(
                blob_bytes@,
                header,
                *root,
                blob_facts,
                blob_offset,
                chunk_file_lens,
            ),
    {
        let (identity, _) = validate_physical_overflow_blob(
            header,
            root,
            blob_facts,
            blob_offset,
            blob_bytes,
            chunk_file_lens,
        )?;
        Ok(
            Self {
                header,
                root: *root,
                blob_facts,
                blob_offset,
                series_ref: identity.series_ref,
                chunk_count: identity.chunk_count,
                kind_mask: identity.kind_mask,
                chunk_file_lens,
                bytes: copy_bytes(blob_bytes),
            },
        )
    }

    /// Validates and consumes a raw read allocation without keeping a second
    /// decoded entry vector in the cache value.
    pub fn decode_bound_owned(
        blob_bytes: Vec<u8>,
        header: SeriesHeaderV3,
        root: &ChunkOverflowRootV2,
        blob_facts: Schema7OverflowBlobFacts,
        planned: &PlannedSeries,
        chunk_file_lens: [u64; 2],
    ) -> (result: Result<Self, Error>)
        ensures
            blob_view(result) == bound_blob_result(
                blob_bytes@,
                header,
                *root,
                blob_facts,
                *planned,
                chunk_file_lens,
            ),
    {
        let locator = validate_expected_overflow_source(header, root, blob_facts, planned)?;
        let decoded = Self::decode_physical_owned(
            blob_bytes,
            header,
            root,
            blob_facts,
            locator.blob_offset,
            chunk_file_lens,
        )?;
        decoded.validate_bound_context(header, root, blob_facts, planned, chunk_file_lens)?;
        Ok(decoded)
    }

    /// Validates and consumes one physical-range read without trusting
    /// identity copied from a hot record.
    pub fn decode_physical_owned(
        blob_bytes: Vec<u8>,
        header: SeriesHeaderV3,
        root: &ChunkOverflowRootV2,
        blob_facts: Schema7OverflowBlobFacts,
        blob_offset: u64,
        chunk_file_lens: [u64; 2],
    ) -> (result: Result<Self, Error>)
        ensures
            blob_view(result) == cached_blob_result(
                blob_bytes@,
                header,
                *root,
                blob_facts,
                blob_offset,
                chunk_file_lens,
            ),
    {
        let (identity, _) = validate_physical_overflow_blob(
            header,
            root,
            blob_facts,
            blob_offset,
            &blob_bytes,
            chunk_file_lens,
        )?;
        Ok(
            Self {
                header,
                root: *root,
                blob_facts,
                blob_offset,
                series_ref: identity.series_ref,
                chunk_count: identity.chunk_count,
                kind_mask: identity.kind_mask,
                chunk_file_lens,
                bytes: blob_bytes,
            },
        )
    }

    /// Returns the measured logical bytes owned by this cache value.
    pub fn charged_bytes(&self) -> (result: Result<u64, Error>)
        ensures
            result == raw_charge_result(
                vstd::layout::size_of::<ValidatedOverflowBlob>(),
                self@.bytes.len(),
                "schema-7 overflow-blob charge overflows",
            ),
    {
        charged_raw_bytes::<Self>(self.bytes.len(), "schema-7 overflow-blob charge overflows")
    }

    /// Rebinds a cache hit to the authenticated hot record and roots expected
    /// by the current query. A mismatch means two records alias the same
    /// physical cache range with incompatible identities.
    pub fn validate_bound_context(
        &self,
        header: SeriesHeaderV3,
        root: &ChunkOverflowRootV2,
        blob_facts: Schema7OverflowBlobFacts,
        planned: &PlannedSeries,
        chunk_file_lens: [u64; 2],
    ) -> (result: Result<(), Error>)
        ensures
            result == bound_context_result(
                self@,
                header,
                *root,
                blob_facts,
                *planned,
                chunk_file_lens,
            ),
    {
        let locator = validate_expected_overflow_source(header, root, blob_facts, planned)?;
        if self.header != header || self.root != *root || self.blob_facts != blob_facts
            || self.blob_offset != locator.blob_offset || self.bytes.len() != usize_from_u32(
            locator.blob_len,
            "overflow blob length",
        )? || !same_file_lens(self.chunk_file_lens, chunk_file_lens) {
            return Err(
                invalid_data(
                    "schema-7 cached overflow blob decode context does not match its bound root",
                ),
            );
        }
        if self.series_ref != locator.series_ref {
            return Err(
                invalid_data("schema-7 overflow blob series_ref does not match hot record"),
            );
        }
        if self.chunk_count != locator.chunk_count {
            return Err(
                invalid_data("schema-7 overflow blob chunk count does not match hot record"),
            );
        }
        if self.kind_mask != planned.kind_mask {
            return Err(
                invalid_data("schema-7 overflow kind mask does not match its hot record"),
            );
        }
        Ok(())
    }
}

/// The locators of a series, one for every entry of its blob, in order.
pub open spec fn batch_of(series_ref: u32, entries: Seq<OverflowChunkEntryV1>) -> FlatChunkBatch {
    FlatChunkBatch {
        locators: Seq::new(entries.len(), |i: int| locator_of(series_ref, entries[i])),
        series_spans: seq![SeriesChunkSpan { series_ref, start: 0, len: entries.len() as u32 }],
    }
}

/// The locators of a planned series from its cached blob.
pub open spec fn plan_blob_result(
    header: SeriesHeaderV3,
    root: ChunkOverflowRootV2,
    blob_facts: Schema7OverflowBlobFacts,
    planned: PlannedSeries,
    blob: CachedBlob,
    chunk_file_lens: [u64; 2],
) -> Result<FlatChunkBatch, Error> {
    if bound_context_result(blob, header, root, blob_facts, planned, chunk_file_lens) is Err {
        Err(
            bound_context_result(
                blob,
                header,
                root,
                blob_facts,
                planned,
                chunk_file_lens,
            )->Err_0,
        )
    } else {
        let locator = expected_source_result(header, root, blob_facts, planned)->Ok_0;
        match physical_blob_result(
            header,
            root,
            blob_facts,
            locator.blob_offset,
            blob.bytes,
            chunk_file_lens,
        ) {
            Err(error) => Err(error),
            Ok((identity, entries)) => if identity.series_ref != planned.series_ref
                || identity.chunk_count != locator.chunk_count || identity.kind_mask
                != planned.kind_mask {
                Err(data_error("schema-7 overflow blob identity changed after cache binding"))
            } else {
                Ok(batch_of(planned.series_ref, entries))
            },
        }
    }
}

pub open spec fn batch_view(result: Result<FlatChunkLocatorBatch, Error>) -> Result<
    FlatChunkBatch,
    Error,
> {
    match result {
        Ok(batch) => Ok(batch@),
        Err(error) => Err(error),
    }
}

/// How many entries a physical blob has.
pub proof fn lemma_physical_entries_len(
    header: SeriesHeaderV3,
    bytes: Seq<u8>,
    chunk_file_lens: [u64; 2],
    n: nat,
)
    requires
        physical_entries_result(header, bytes, chunk_file_lens, n) is Ok,
    ensures
        physical_entries_result(header, bytes, chunk_file_lens, n)->Ok_0.len() == n,
    decreases n,
{
    if n > 0 {
        lemma_physical_entries_len(header, bytes, chunk_file_lens, (n - 1) as nat);
    }
}

/// Maps an already authenticated overflow-blob cache value, re-checking root,
/// hot-record, and integration invariants on every use.
pub fn plan_schema7_decoded_overflow_blob(
    header: SeriesHeaderV3,
    root: &ChunkOverflowRootV2,
    blob_facts: Schema7OverflowBlobFacts,
    planned: &PlannedSeries,
    validated_blob: &ValidatedOverflowBlob,
    chunk_file_lens: [u64; 2],
) -> (result: Result<FlatChunkLocatorBatch, Error>)
    ensures
        batch_view(result) == plan_blob_result(
            header,
            *root,
            blob_facts,
            *planned,
            validated_blob@,
            chunk_file_lens,
        ),
{
    validated_blob.validate_bound_context(header, root, blob_facts, planned, chunk_file_lens)?;
    let locator = validate_expected_overflow_source(header, root, blob_facts, planned)?;
    let (identity, entries) = validate_physical_overflow_blob(
        header,
        root,
        blob_facts,
        locator.blob_offset,
        &validated_blob.bytes,
        chunk_file_lens,
    )?;
    proof {
        lemma_physical_entries_len(
            header,
            validated_blob@.bytes,
            chunk_file_lens,
            identity.chunk_count as nat,
        );
    }
    if identity.series_ref != planned.series_ref || identity.chunk_count != locator.chunk_count
        || identity.kind_mask != planned.kind_mask {
        return Err(
            invalid_data("schema-7 overflow blob identity changed after cache binding"),
        );
    }
    let mut locators: Vec<IndexedChunkLocator> = Vec::with_capacity(entries.len());
    let mut i: usize = 0;
    while i < entries.len()
        invariant
            i <= entries@.len(),
            locators@.len() == i,
            forall|k: int|
                0 <= k < i ==> #[trigger] locators@[k] == locator_of(
                    planned.series_ref,
                    entries@[k],
                ),
        decreases entries@.len() - i,
    {
        match indexed_locator(planned.series_ref, &entries[i]) {
            Ok(locator) => {
                locators.push(locator);
            },
            Err(error) => {
                return Err(error);
            },
        }
        i += 1;
    }
    let locator_count: u32 = match u32::try_from(locators.len()) {
        Ok(count) => count,
        Err(_) => {
            return Err(invalid_data("schema-7 overflow locator count exceeds u32"));
        },
    };
    let mut series_spans: Vec<SeriesChunkSpan> = Vec::with_capacity(1);
    series_spans.push(
        SeriesChunkSpan { series_ref: planned.series_ref, start: 0, len: locator_count },
    );
    proof {
        let batch = batch_of(planned.series_ref, entries@);
        assert(locators@ =~= batch.locators);
        assert(series_spans@ =~= batch.series_spans);
    }
    Ok(FlatChunkLocatorBatch { locators, series_spans })
}

/// Authenticates and maps the touched overflow blob referenced by one planned
/// series into a flat locator batch.
pub fn plan_schema7_overflow_blob(
    header: SeriesHeaderV3,
    root: &ChunkOverflowRootV2,
    blob_facts: Schema7OverflowBlobFacts,
    planned: &PlannedSeries,
    blob_bytes: &[u8],
    chunk_file_lens: [u64; 2],
) -> (result: Result<FlatChunkLocatorBatch, Error>)
    ensures
        batch_view(result) == (match bound_blob_result(
            blob_bytes@,
            header,
            *root,
            blob_facts,
            *planned,
            chunk_file_lens,
        ) {
            Err(error) => Err(error),
            Ok(blob) => plan_blob_result(
                header,
                *root,
                blob_facts,
                *planned,
                blob,
                chunk_file_lens,
            ),
        }),
{
    let blob = ValidatedOverflowBlob::decode_bound(
        blob_bytes,
        header,
        root,
        blob_facts,
        planned,
        chunk_file_lens,
    )?;
    plan_schema7_decoded_overflow_blob(header, root, blob_facts, planned, &blob, chunk_file_lens)
}

} // verus!
