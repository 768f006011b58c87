//! Pure classification of final chunk locators.
//!
//! Classification happens only after chunk bytes and their external indexed-
//! prefix CRCs are final. Invalid locators are rejected before deciding
//! between the inline and overflow representations; overflow is reserved for
//! valid multi-chunk series and valid inline-width exceptions.

use vstd::prelude::*;

use super::header::CHUNK_INDEX_ROOT_LEN_V2;
use super::hot::{
    kind_bit_of, record_result, InlineChunkV3, OverflowChunksV3, SeriesHotLocationV3, SeriesHotV3,
    SeriesHotV3Context, CHUNK_HEADER_LEN_V1, SERIES_HOT_SCALAR_LANE_LEN_MAX,
    TYPED_SCALAR_LANE_HEADER_LEN_V1,
};
use crate::checksum::{crc32c, crc32c_of};
use crate::chunk::overflow::{
    blob_len_of, checked_chunk_overflow_blob_len, ChunkOverflowBlobLocatorV1, ChunkOverflowBlobV1,
    OverflowChunkEntryV1,
};
use crate::chunk::prefix::{
    indexed_prefix_result, verify_schema7_indexed_prefix, Schema7ChunkPrefixExpectation,
};
use crate::chunk::{ChunkIndexEntry, ChunkKind};
use crate::error::{input_error, invalid_input, Error};

verus! {

pub const VALID_KIND_MASK: u8 = 0b1_1111;

/// One final chunk locator and its exact raw indexed prefix.
///
/// The prefix is borrowed from the final chunk bytes at the entry's file and
/// offset, after any series-major rewrite. Classification computes the
/// external CRC and verifies the exact chunk header plus the scalar header
/// when present; callers cannot supply decoded header facts or a CRC as proof.
#[derive(Debug, Clone, Copy)]
pub struct FinalChunkIndexEntryV3<'a> {
    pub entry: &'a ChunkIndexEntry,
    pub indexed_prefix: &'a [u8],
}

/// All deterministic inputs needed to classify one final series.
#[derive(Debug, Clone, Copy)]
pub struct SeriesClassifierInputV3<'a> {
    pub series_ref: u32,
    pub series_id: u64,
    pub keyset_id: u32,
    pub row: u32,
    pub kind_mask: u8,
    pub segment_start_ms: u64,
    pub segment_end_ms: u64,
    /// Exact footer-inventoried lengths of the two chunk files.
    pub chunk_file_lens: [u64; 2],
    pub chunks: &'a [FinalChunkIndexEntryV3<'a>],
}

/// Canonical result before overflow blob offsets are known.
#[derive(Debug, Clone, PartialEq, Eq)]
pub enum ClassifiedSeriesV3 {
    Inline(SeriesHotV3),
    Overflow(PendingOverflowSeriesV3),
}

/// Identity retained while all overflow blobs are encoded in series-ref order.
#[derive(Debug, Clone, PartialEq, Eq)]
pub struct PendingOverflowSeriesV3 {
    pub series_id: u64,
    pub keyset_id: u32,
    pub row: u32,
    pub kind_mask: u8,
    pub blob: ChunkOverflowBlobV1,
}

/// A pending overflow series with its chunks as a sequence.
pub struct PendingOverflow {
    pub series_id: u64,
    pub keyset_id: u32,
    pub row: u32,
    pub kind_mask: u8,
    pub series_ref: u32,
    pub entries: Seq<OverflowChunkEntryV1>,
}

impl View for PendingOverflowSeriesV3 {
    type V = PendingOverflow;

    open spec fn view(&self) -> PendingOverflow {
        PendingOverflow {
            series_id: self.series_id,
            keyset_id: self.keyset_id,
            row: self.row,
            kind_mask: self.kind_mask,
            series_ref: self.blob.series_ref,
            entries: self.blob.entries@,
        }
    }
}

/// A classification seen through its view.
pub enum Classified {
    Inline(SeriesHotV3),
    Overflow(PendingOverflow),
}

impl View for ClassifiedSeriesV3 {
    type V = Classified;

    open spec fn view(&self) -> Classified {
        match self {
            ClassifiedSeriesV3::Inline(record) => Classified::Inline(*record),
            ClassifiedSeriesV3::Overflow(pending) => Classified::Overflow(pending@),
        }
    }
}

pub open spec fn bind_locator_result(
    pending: PendingOverflow,
    locator: ChunkOverflowBlobLocatorV1,
    chunk_index_file_len: u64,
) -> Result<SeriesHotV3, Error> {
    let chunk_count = pending.entries.len();
    if chunk_count > u32::MAX {
        Err(input_error("schema-7 overflow chunk count exceeds u32"))
    } else if blob_len_of(chunk_count as u32) is None {
        Err(input_error("schema-7 overflow blob length exceeds u32"))
    } else if locator.series_ref != pending.series_ref || locator.chunk_count != chunk_count
        || locator.blob_len != blob_len_of(chunk_count as u32)->Some_0 {
        Err(input_error("schema-7 overflow locator does not match classified series"))
    } else if locator.blob_offset < 64 {
        Err(input_error("schema-7 overflow locator overlaps the chunk-index root"))
    } else if locator.blob_offset + locator.blob_len > u64::MAX {
        Err(input_error("schema-7 overflow locator range overflows"))
    } else if locator.blob_offset + locator.blob_len > chunk_index_file_len {
        Err(input_error("schema-7 overflow locator exceeds the chunk-index file"))
    } else {
        Ok(
            SeriesHotV3 {
                series_id: pending.series_id,
                keyset_id: pending.keyset_id,
                row: pending.row,
                kind_mask: pending.kind_mask,
                location: SeriesHotLocationV3::Overflow(
                    OverflowChunksV3 {
                        blob_offset: locator.blob_offset,
                        blob_len: locator.blob_len,
                        chunk_count: locator.chunk_count,
                    },
                ),
            },
        )
    }
}

impl PendingOverflowSeriesV3 {
    /// Binds the locator returned by the overflow encoder to the hot record.
    ///
    /// This checks the locator's series identity, count, exact length, and
    /// file bounds. The caller must pair it with the locator for this series
    /// from the same complete encoder output.
    pub fn bind_blob_locator(
        &self,
        locator: ChunkOverflowBlobLocatorV1,
        chunk_index_file_len: u64,
    ) -> (result: Result<SeriesHotV3, Error>)
        ensures
            result == bind_locator_result(self@, locator, chunk_index_file_len),
    {
        assert(self.blob.entries@.len() == self.blob.entries.len());
        let chunk_count: u32 = match u32::try_from(self.blob.entries.len()) {
            Ok(count) => count,
            Err(_) => {
                return Err(invalid_input("schema-7 overflow chunk count exceeds u32"));
            },
        };
        let blob_len: u32 = match checked_chunk_overflow_blob_len(chunk_count) {
            Some(len) => len,
            None => {
                return Err(invalid_input("schema-7 overflow blob length exceeds u32"));
            },
        };
        if locator.series_ref != self.blob.series_ref || locator.chunk_count != chunk_count
            || locator.blob_len != blob_len {
            return Err(invalid_input("schema-7 overflow locator does not match classified series"));
        }
        if locator.blob_offset < CHUNK_INDEX_ROOT_LEN_V2 {
            return Err(invalid_input("schema-7 overflow locator overlaps the chunk-index root"));
        }
        let blob_end: u64 = match locator.blob_offset.checked_add(locator.blob_len as u64) {
            Some(end) => end,
            None => {
                return Err(invalid_input("schema-7 overflow locator range overflows"));
            },
        };
        if blob_end > chunk_index_file_len {
            return Err(invalid_input("schema-7 overflow locator exceeds the chunk-index file"));
        }
        Ok(
            SeriesHotV3 {
                series_id: self.series_id,
                keyset_id: self.keyset_id,
                row: self.row,
                kind_mask: self.kind_mask,
                location: SeriesHotLocationV3::Overflow(
                    OverflowChunksV3 {
                        blob_offset: locator.blob_offset,
                        blob_len: locator.blob_len,
                        chunk_count: locator.chunk_count,
                    },
                ),
            },
        )
    }
}

pub open spec fn identity_result(input: SeriesClassifierInputV3) -> Result<(), Error> {
    if input.segment_start_ms >= input.segment_end_ms {
        Err(input_error("schema-7 segment bounds are invalid"))
    } else if input.kind_mask == 0 || input.kind_mask > 31 {
        Err(input_error("schema-7 series kind mask is invalid"))
    } else if input.chunks@.len() == 0 {
        Err(input_error("schema-7 series has no chunks"))
    } else {
        Ok(())
    }
}

/// What the prefix of a chunk must say, whose checksum is its own.
pub open spec fn prefix_expectation(
    series_ref: u32,
    entry: ChunkIndexEntry,
    indexed_prefix_crc32c: u32,
) -> Schema7ChunkPrefixExpectation {
    Schema7ChunkPrefixExpectation {
        series_ref,
        kind: entry.kind,
        min_time_ms: entry.min_time_ms,
        max_time_ms: entry.max_time_ms,
        length: entry.length,
        scalar_lane_offset: entry.scalar_lane_offset,
        scalar_lane_len: entry.scalar_lane_len,
        indexed_prefix_crc32c,
    }
}

/// The checksum of the prefix of a valid chunk, or the first error.
pub open spec fn locator_result(input: SeriesClassifierInputV3, chunk: FinalChunkIndexEntryV3) -> Result<
    u32,
    Error,
> {
    let entry = *chunk.entry;
    let crc = crc32c_of(chunk.indexed_prefix@);
    if entry.file_id > 1 {
        Err(input_error("schema-7 chunk file ID is invalid"))
    } else if entry.min_time_ms < input.segment_start_ms || entry.min_time_ms > entry.max_time_ms
        || entry.max_time_ms >= input.segment_end_ms {
        Err(input_error("schema-7 chunk time range is invalid"))
    } else if entry.length < 40 {
        Err(input_error("schema-7 chunk is shorter than its fixed header"))
    } else if entry.offset + entry.length > u64::MAX {
        Err(input_error("schema-7 chunk file range overflows"))
    } else if entry.offset + entry.length > input.chunk_file_lens@[entry.file_id as int] {
        Err(input_error("schema-7 chunk file range is out of bounds"))
    } else if !(entry.scalar_lane_offset == 0 && entry.scalar_lane_len == 0) && !(
    entry.scalar_lane_offset == 40 && entry.scalar_lane_len >= 16) {
        Err(input_error("schema-7 scalar lane locator is not canonical"))
    } else if entry.scalar_lane_len != 0 && 40 + entry.scalar_lane_len > u32::MAX {
        Err(input_error("schema-7 scalar lane range overflows"))
    } else if entry.scalar_lane_len != 0 && 40 + entry.scalar_lane_len > entry.length {
        Err(input_error("schema-7 scalar lane exceeds the chunk range"))
    } else {
        match indexed_prefix_result(
            prefix_expectation(input.series_ref, entry, crc),
            chunk.indexed_prefix@,
        ) {
            Err(error) => Err(error),
            Ok(verified) => if verified.flags != entry.flags {
                Err(
                    input_error("schema-7 chunk-index flags do not match the authenticated header"),
                )
            } else {
                Ok(crc)
            },
        }
    }
}

/// The chunk order: file, then time range, then offset.
pub open spec fn chunk_before(a: ChunkIndexEntry, b: ChunkIndexEntry) -> bool {
    a.file_id < b.file_id || a.file_id == b.file_id && (a.min_time_ms < b.min_time_ms
        || a.min_time_ms == b.min_time_ms && (a.max_time_ms < b.max_time_ms || a.max_time_ms
        == b.max_time_ms && a.offset < b.offset))
}

/// The first `n` chunks are valid and in order, or the first error.
pub open spec fn chunks_result(input: SeriesClassifierInputV3, n: nat) -> Result<(), Error>
    decreases n,
{
    if n == 0 {
        Ok(())
    } else {
        match chunks_result(input, (n - 1) as nat) {
            Err(error) => Err(error),
            Ok(_) => match locator_result(input, input.chunks@[n - 1]) {
                Err(error) => Err(error),
                Ok(_) => if n > 1 && !chunk_before(
                    *input.chunks@[n - 2].entry,
                    *input.chunks@[n - 1].entry,
                ) {
                    Err(input_error("schema-7 chunks are not strictly ordered and unique"))
                } else {
                    Ok(())
                },
            },
        }
    }
}

/// The kinds of the first `n` chunks, one bit for each.
pub open spec fn mask_of(chunks: Seq<FinalChunkIndexEntryV3>, n: nat) -> u8
    decreases n,
{
    if n == 0 {
        0
    } else {
        mask_of(chunks, (n - 1) as nat) | kind_bit_of(chunks[n - 1].entry.kind.code_of())
    }
}

/// The chunk can be located inside a hot record.
pub open spec fn fits_inline(segment_start_ms: u64, entry: ChunkIndexEntry) -> bool {
    &&& 0 <= entry.min_time_ms - segment_start_ms <= u32::MAX
    &&& 0 <= entry.max_time_ms - segment_start_ms <= u32::MAX
    &&& entry.offset <= u32::MAX
    &&& entry.scalar_lane_len <= SERIES_HOT_SCALAR_LANE_LEN_MAX
}

/// The inline location of a chunk that fits.
pub open spec fn inline_of(segment_start_ms: u64, entry: ChunkIndexEntry, crc: u32) -> InlineChunkV3 {
    InlineChunkV3 {
        chunk_kind: entry.kind.code_of(),
        file_id: entry.file_id,
        scalar_lane_len: entry.scalar_lane_len,
        min_time_delta_ms: (entry.min_time_ms - segment_start_ms) as u32,
        max_time_delta_ms: (entry.max_time_ms - segment_start_ms) as u32,
        file_offset: entry.offset as u32,
        chunk_length: entry.length,
        indexed_prefix_crc32c: crc,
    }
}

/// The overflow entry of a chunk.
pub open spec fn overflow_of(chunk: FinalChunkIndexEntryV3) -> OverflowChunkEntryV1 {
    OverflowChunkEntryV1 {
        file_id: chunk.entry.file_id,
        kind: chunk.entry.kind,
        min_time_ms: chunk.entry.min_time_ms,
        max_time_ms: chunk.entry.max_time_ms,
        offset: chunk.entry.offset,
        length: chunk.entry.length,
        scalar_lane_offset: chunk.entry.scalar_lane_offset,
        scalar_lane_len: chunk.entry.scalar_lane_len,
        indexed_prefix_crc32c: crc32c_of(chunk.indexed_prefix@),
    }
}

/// The classification of a series: inline exactly where it has one chunk that
/// fits a hot record.
pub open spec fn classify_result(input: SeriesClassifierInputV3) -> Result<Classified, Error> {
    let chunks = input.chunks@;
    if identity_result(input) is Err {
        Err(identity_result(input)->Err_0)
    } else if chunks.len() > u32::MAX {
        Err(input_error("schema-7 overflow chunk count exceeds u32"))
    } else if blob_len_of(chunks.len() as u32) is None {
        Err(input_error("schema-7 overflow blob length exceeds u32"))
    } else if chunks_result(input, chunks.len()) is Err {
        Err(chunks_result(input, chunks.len())->Err_0)
    } else if input.kind_mask != mask_of(chunks, chunks.len()) {
        Err(input_error("schema-7 series kind mask does not match its chunks"))
    } else if chunks.len() == 1 && fits_inline(input.segment_start_ms, *chunks[0].entry) {
        Ok(
            Classified::Inline(
                SeriesHotV3 {
                    series_id: input.series_id,
                    keyset_id: input.keyset_id,
                    row: input.row,
                    kind_mask: input.kind_mask,
                    location: SeriesHotLocationV3::Inline(
                        inline_of(
                            input.segment_start_ms,
                            *chunks[0].entry,
                            crc32c_of(chunks[0].indexed_prefix@),
                        ),
                    ),
                },
            ),
        )
    } else {
        Ok(
            Classified::Overflow(
                PendingOverflow {
                    series_id: input.series_id,
                    keyset_id: input.keyset_id,
                    row: input.row,
                    kind_mask: input.kind_mask,
                    series_ref: input.series_ref,
                    entries: Seq::new(chunks.len(), |i: int| overflow_of(chunks[i])),
                },
            ),
        )
    }
}

pub open spec fn classified_view(result: Result<ClassifiedSeriesV3, Error>) -> Result<
    Classified,
    Error,
> {
    match result {
        Ok(classified) => Ok(classified@),
        Err(error) => Err(error),
    }
}

proof fn lemma_chunks_error(input: SeriesClassifierInputV3, n: nat, m: nat)
    requires
        n <= m,
        chunks_result(input, n) is Err,
    ensures
        chunks_result(input, m) == chunks_result(input, n),
    decreases m,
{
    if n < m {
        lemma_chunks_error(input, n, (m - 1) as nat);
    }
}

proof fn lemma_single_mask(chunks: Seq<FinalChunkIndexEntryV3>)
    requires
        chunks.len() == 1,
    ensures
        mask_of(chunks, 1) == kind_bit_of(chunks[0].entry.kind.code_of()),
{
    let bit = kind_bit_of(chunks[0].entry.kind.code_of());
    assert(mask_of(chunks, 0) == 0u8);
    assert(mask_of(chunks, 1) == mask_of(chunks, 0) | bit);
    assert(0u8 | bit == bit) by (bit_vector);
}

/// A record that was classified as inline is valid in its segment.
pub proof fn inline_record_law(input: SeriesClassifierInputV3, chunk_index_file_len: u64)
    requires
        classify_result(input) is Ok,
        classify_result(input)->Ok_0 is Inline,
        chunk_index_file_len >= 64,
    ensures
        record_result(
            classify_result(input)->Ok_0->Inline_0,
            SeriesHotV3Context {
                segment_start_ms: input.segment_start_ms,
                segment_end_ms: input.segment_end_ms,
                chunk_file_lens: input.chunk_file_lens,
                chunk_index_file_len,
            },
        ) == Ok::<(), Error>(()),
{
    lemma_single_mask(input.chunks@);
    assert(chunks_result(input, 1) is Ok);
    assert(chunks_result(input, 0) is Ok);
    assert(locator_result(input, input.chunks@[0]) is Ok);
}

/// A record that was bound to its overflow blob is valid in its segment.
pub proof fn bound_record_law(
    input: SeriesClassifierInputV3,
    locator: ChunkOverflowBlobLocatorV1,
    chunk_index_file_len: u64,
)
    requires
        classify_result(input) is Ok,
        classify_result(input)->Ok_0 is Overflow,
        bind_locator_result(
            classify_result(input)->Ok_0->Overflow_0,
            locator,
            chunk_index_file_len,
        ) is Ok,
    ensures
        record_result(
            bind_locator_result(
                classify_result(input)->Ok_0->Overflow_0,
                locator,
                chunk_index_file_len,
            )->Ok_0,
            SeriesHotV3Context {
                segment_start_ms: input.segment_start_ms,
                segment_end_ms: input.segment_end_ms,
                chunk_file_lens: input.chunk_file_lens,
                chunk_index_file_len,
            },
        ) == Ok::<(), Error>(()),
{
}

/// Classifies one series without changing input order.
pub fn classify_series_v3(input: SeriesClassifierInputV3<'_>) -> (result: Result<
    ClassifiedSeriesV3,
    Error,
>)
    ensures
        classified_view(result) == classify_result(input),
{
    let ghost chunks = input.chunks@;
    assert(input.chunks@.len() == input.chunks.len());
    validate_series_identity(&input)?;
    let chunk_count: u32 = match u32::try_from(input.chunks.len()) {
        Ok(count) => count,
        Err(_) => {
            return Err(invalid_input("schema-7 overflow chunk count exceeds u32"));
        },
    };
    if checked_chunk_overflow_blob_len(chunk_count).is_none() {
        return Err(invalid_input("schema-7 overflow blob length exceeds u32"));
    }
    let mut expected_kind_mask: u8 = 0;
    let mut overflow_entries: Vec<OverflowChunkEntryV1> = Vec::new();
    let mut i: usize = 0;
    while i < input.chunks.len()
        invariant
            i <= input.chunks@.len(),
            chunks == input.chunks@,
            identity_result(input) is Ok,
            chunks.len() <= u32::MAX,
            blob_len_of(chunks.len() as u32) is Some,
            chunks_result(input, i as nat) is Ok,
            expected_kind_mask == mask_of(chunks, i as nat),
            overflow_entries@.len() == i,
            forall|k: int| 0 <= k < i ==> #[trigger] overflow_entries@[k] == overflow_of(chunks[k]),
        decreases input.chunks@.len() - i,
    {
        let chunk: &FinalChunkIndexEntryV3<'_> = &input.chunks[i];
        let indexed_prefix_crc32c: u32 = match validate_chunk_locator(&input, chunk) {
            Ok(crc) => crc,
            Err(error) => {
                proof {
                    lemma_chunks_error(input, (i + 1) as nat, chunks.len());
                }
                return Err(error);
            },
        };
        overflow_entries.push(overflow_entry(chunk, indexed_prefix_crc32c));
        expected_kind_mask = expected_kind_mask | kind_bit(chunk.entry.kind);
        if i > 0 && !comes_before(input.chunks[i - 1].entry, chunk.entry) {
            proof {
                lemma_chunks_error(input, (i + 1) as nat, chunks.len());
            }
            return Err(invalid_input("schema-7 chunks are not strictly ordered and unique"));
        }
        i += 1;
    }
    if input.kind_mask != expected_kind_mask {
        return Err(invalid_input("schema-7 series kind mask does not match its chunks"));
    }
    if input.chunks.len() == 1 {
        let crc: u32 = overflow_entries[0].indexed_prefix_crc32c;
        if let Some(inline) = inline_chunk(input.segment_start_ms, &input.chunks[0], crc) {
            let record = SeriesHotV3 {
                series_id: input.series_id,
                keyset_id: input.keyset_id,
                row: input.row,
                kind_mask: input.kind_mask,
                location: SeriesHotLocationV3::Inline(inline),
            };
            proof {
                inline_record_law(input, 64);
            }
            record.validate(
                SeriesHotV3Context {
                    segment_start_ms: input.segment_start_ms,
                    segment_end_ms: input.segment_end_ms,
                    chunk_file_lens: input.chunk_file_lens,
                    chunk_index_file_len: CHUNK_INDEX_ROOT_LEN_V2,
                },
            )?;
            return Ok(ClassifiedSeriesV3::Inline(record));
        }
    }
    assert(overflow_entries@ =~= Seq::new(chunks.len(), |i: int| overflow_of(chunks[i])));
    Ok(
        ClassifiedSeriesV3::Overflow(
            PendingOverflowSeriesV3 {
                series_id: input.series_id,
                keyset_id: input.keyset_id,
                row: input.row,
                kind_mask: input.kind_mask,
                blob: ChunkOverflowBlobV1 {
                    series_ref: input.series_ref,
                    entries: overflow_entries,
                },
            },
        ),
    )
}

pub fn validate_series_identity(input: &SeriesClassifierInputV3<'_>) -> (result: Result<(), Error>)
    ensures
        result == identity_result(*input),
{
    if input.segment_start_ms >= input.segment_end_ms {
        return Err(invalid_input("schema-7 segment bounds are invalid"));
    }
    if input.kind_mask == 0 || input.kind_mask > VALID_KIND_MASK {
        return Err(invalid_input("schema-7 series kind mask is invalid"));
    }
    if input.chunks.len() == 0 {
        return Err(invalid_input("schema-7 series has no chunks"));
    }
    Ok(())
}

/// Checks one locator against its segment, its file and its prefix, and
/// returns the checksum of the prefix.
pub fn validate_chunk_locator(
    input: &SeriesClassifierInputV3<'_>,
    chunk: &FinalChunkIndexEntryV3<'_>,
) -> (result: Result<u32, Error>)
    ensures
        result == locator_result(*input, *chunk),
{
    let entry = chunk.entry;
    if entry.file_id > 1 {
        return Err(invalid_input("schema-7 chunk file ID is invalid"));
    }
    if entry.min_time_ms < input.segment_start_ms || entry.min_time_ms > entry.max_time_ms
        || entry.max_time_ms >= input.segment_end_ms {
        return Err(invalid_input("schema-7 chunk time range is invalid"));
    }
    if entry.length < CHUNK_HEADER_LEN_V1 {
        return Err(invalid_input("schema-7 chunk is shorter than its fixed header"));
    }
    let chunk_end: u64 = match entry.offset.checked_add(entry.length as u64) {
        Some(end) => end,
        None => {
            return Err(invalid_input("schema-7 chunk file range overflows"));
        },
    };
    if chunk_end > input.chunk_file_lens[entry.file_id as usize] {
        return Err(invalid_input("schema-7 chunk file range is out of bounds"));
    }
    if entry.scalar_lane_offset == CHUNK_HEADER_LEN_V1 && entry.scalar_lane_len
        >= TYPED_SCALAR_LANE_HEADER_LEN_V1 {
        let scalar_end: u32 = match entry.scalar_lane_offset.checked_add(entry.scalar_lane_len) {
            Some(end) => end,
            None => {
                return Err(invalid_input("schema-7 scalar lane range overflows"));
            },
        };
        if scalar_end > entry.length {
            return Err(invalid_input("schema-7 scalar lane exceeds the chunk range"));
        }
    } else if entry.scalar_lane_offset != 0 || entry.scalar_lane_len != 0 {
        return Err(invalid_input("schema-7 scalar lane locator is not canonical"));
    }
    let indexed_prefix_crc32c: u32 = crc32c(chunk.indexed_prefix);
    let verified = verify_schema7_indexed_prefix(
        &Schema7ChunkPrefixExpectation {
            series_ref: input.series_ref,
            kind: entry.kind,
            min_time_ms: entry.min_time_ms,
            max_time_ms: entry.max_time_ms,
            length: entry.length,
            scalar_lane_offset: entry.scalar_lane_offset,
            scalar_lane_len: entry.scalar_lane_len,
            indexed_prefix_crc32c,
        },
        chunk.indexed_prefix,
    )?;
    if verified.flags != entry.flags {
        return Err(
            invalid_input("schema-7 chunk-index flags do not match the authenticated header"),
        );
    }
    Ok(indexed_prefix_crc32c)
}

pub fn inline_chunk(
    segment_start_ms: u64,
    chunk: &FinalChunkIndexEntryV3<'_>,
    indexed_prefix_crc32c: u32,
) -> (inline: Option<InlineChunkV3>)
    ensures
        inline == (if fits_inline(segment_start_ms, *chunk.entry) {
            Some(inline_of(segment_start_ms, *chunk.entry, indexed_prefix_crc32c))
        } else {
            None
        }),
{
    let entry = chunk.entry;
    if !chunk_entry_fits_inline(segment_start_ms, entry) {
        return None;
    }
    Some(
        InlineChunkV3 {
            chunk_kind: entry.kind.code(),
            file_id: entry.file_id,
            scalar_lane_len: entry.scalar_lane_len,
            min_time_delta_ms: (entry.min_time_ms - segment_start_ms) as u32,
            max_time_delta_ms: (entry.max_time_ms - segment_start_ms) as u32,
            file_offset: entry.offset as u32,
            chunk_length: entry.length,
            indexed_prefix_crc32c,
        },
    )
}

pub fn chunk_entry_fits_inline(segment_start_ms: u64, entry: &ChunkIndexEntry) -> (fits: bool)
    ensures
        fits == fits_inline(segment_start_ms, *entry),
{
    entry.min_time_ms >= segment_start_ms && entry.min_time_ms - segment_start_ms <= u32::MAX as u64
        && entry.max_time_ms >= segment_start_ms && entry.max_time_ms - segment_start_ms
        <= u32::MAX as u64 && entry.offset <= u32::MAX as u64 && entry.scalar_lane_len
        <= SERIES_HOT_SCALAR_LANE_LEN_MAX
}

pub fn overflow_entry(chunk: &FinalChunkIndexEntryV3<'_>, indexed_prefix_crc32c: u32) -> (entry:
    OverflowChunkEntryV1)
    ensures
        entry == (OverflowChunkEntryV1 { indexed_prefix_crc32c, ..overflow_of(*chunk) }),
{
    OverflowChunkEntryV1 {
        file_id: chunk.entry.file_id,
        kind: chunk.entry.kind,
        min_time_ms: chunk.entry.min_time_ms,
        max_time_ms: chunk.entry.max_time_ms,
        offset: chunk.entry.offset,
        length: chunk.entry.length,
        scalar_lane_offset: chunk.entry.scalar_lane_offset,
        scalar_lane_len: chunk.entry.scalar_lane_len,
        indexed_prefix_crc32c,
    }
}

/// The bit that stands for a kind in a kind mask.
pub fn kind_bit(kind: ChunkKind) -> (bit: u8)
    ensures
        bit == kind_bit_of(kind.code_of()),
{
    match kind {
        ChunkKind::Float => 1,
        ChunkKind::Int64 => 2,
        ChunkKind::Histogram => 4,
        ChunkKind::ExponentialHistogram => 8,
        ChunkKind::Summary => 16,
    }
}

/// What chunks are ordered by.
pub fn entry_order_key(entry: &ChunkIndexEntry) -> (key: (u8, u64, u64, u64))
    ensures
        key == (entry.file_id, entry.min_time_ms, entry.max_time_ms, entry.offset),
{
    (entry.file_id, entry.min_time_ms, entry.max_time_ms, entry.offset)
}

fn comes_before(a: &ChunkIndexEntry, b: &ChunkIndexEntry) -> (before: bool)
    ensures
        before == chunk_before(*a, *b),
{
    let (a_file, a_min, a_max, a_offset) = entry_order_key(a);
    let (b_file, b_min, b_max, b_offset) = entry_order_key(b);
    if a_file != b_file {
        a_file < b_file
    } else if a_min != b_min {
        a_min < b_min
    } else if a_max != b_max {
        a_max < b_max
    } else {
        a_offset < b_offset
    }
}

} // verus!
