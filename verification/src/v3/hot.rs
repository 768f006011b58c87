//! Hot records and hot pages of `series.bin` version 3.
//!
//! A hot record locates the chunks of one series, inline or through an
//! overflow blob, and names its cold label row. A hot page is a fixed header,
//! up to 409 records and zero padding, authenticated by its descriptor.

use vstd::prelude::*;

use super::header::{
    header_result, require_len, require_zero_u32, SeriesHeaderV3, CHUNK_INDEX_ROOT_LEN_V2,
    SERIES_HOT_RECORD_LEN_V3,
};
use crate::bytes::{put_u32, put_u64, read_u32, read_u64, u32_at, u64_at};
use crate::error::{data_error, invalid_data, Error};

verus! {

/// `SHP7` as a little-endian integer.
pub const SERIES_HOT_PAGE_MAGIC_V1: u32 = 0x3750_4853;

pub const SERIES_HOT_PAGE_VERSION_V1: u16 = 1;

/// Where the tag of a record stands in its control word.
pub const SERIES_HOT_TAG_SHIFT: u32 = 9;

/// The bits of the tag.
pub const SERIES_HOT_TAG_MASK: u32 = 0b11;

/// The tag of a record that holds its only chunk.
pub const SERIES_HOT_TAG_INLINE: u32 = 1;

/// The tag of a record whose chunks stand in a blob.
pub const SERIES_HOT_TAG_OVERFLOW: u32 = 2;

/// The bits of the kind mask, which begins the control word.
pub const SERIES_HOT_KIND_MASK: u32 = 0b1_1111;

/// Where the kind of an inline chunk stands in the control word.
pub const SERIES_HOT_CHUNK_KIND_SHIFT: u32 = 5;

/// The bits of the kind of an inline chunk.
pub const SERIES_HOT_CHUNK_KIND_MASK: u32 = 0b111;

/// Where the file of an inline chunk stands in the control word.
pub const SERIES_HOT_FILE_ID_SHIFT: u32 = 8;

/// Where the scalar lane length stands in the control word.
pub const SERIES_HOT_SCALAR_LANE_LEN_SHIFT: u32 = 11;

/// The longest scalar lane that a control word can hold.
pub const SERIES_HOT_SCALAR_LANE_LEN_MAX: u32 = 2_097_151;

pub const CHUNK_OVERFLOW_BLOB_HEADER_LEN_V1: u64 = 32;

pub const CHUNK_OVERFLOW_ENTRY_LEN_V1: u64 = 44;

pub const CHUNK_HEADER_LEN_V1: u32 = 40;

pub const TYPED_SCALAR_LANE_HEADER_LEN_V1: u32 = 16;

pub const CHUNK_KIND_FLOAT: u8 = 0;

pub const CHUNK_KIND_INT64: u8 = 1;

pub const CHUNK_KIND_HISTOGRAM: u8 = 2;

pub const CHUNK_KIND_EXPONENTIAL_HISTOGRAM: u8 = 3;

pub const CHUNK_KIND_SUMMARY: u8 = 4;

/// The segment facts a hot record is validated against.
#[derive(Debug, Clone, Copy, PartialEq, Eq)]
pub struct SeriesHotV3Context {
    pub segment_start_ms: u64,
    pub segment_end_ms: u64,
    pub chunk_file_lens: [u64; 2],
    pub chunk_index_file_len: u64,
}

/// The only chunk of a series, located inside its hot record.
#[derive(Debug, Clone, Copy, PartialEq, Eq, Structural)]
pub struct InlineChunkV3 {
    pub chunk_kind: u8,
    pub file_id: u8,
    pub scalar_lane_len: u32,
    pub min_time_delta_ms: u32,
    pub max_time_delta_ms: u32,
    pub file_offset: u32,
    pub chunk_length: u32,
    pub indexed_prefix_crc32c: u32,
}

/// The overflow blob that locates the chunks of a series.
#[derive(Debug, Clone, Copy, PartialEq, Eq, Structural)]
pub struct OverflowChunksV3 {
    pub blob_offset: u64,
    pub blob_len: u32,
    pub chunk_count: u32,
}

#[derive(Debug, Clone, Copy, PartialEq, Eq, Structural)]
pub enum SeriesHotLocationV3 {
    Inline(InlineChunkV3),
    Overflow(OverflowChunksV3),
}

/// One hot record.
#[derive(Debug, Clone, Copy, PartialEq, Eq, Structural)]
pub struct SeriesHotV3 {
    pub series_id: u64,
    pub keyset_id: u32,
    pub row: u32,
    pub kind_mask: u8,
    pub location: SeriesHotLocationV3,
}

/// The bit of a kind mask that stands for a chunk kind.
pub open spec fn kind_bit_of(chunk_kind: u8) -> u8 {
    if chunk_kind == 0 {
        1
    } else if chunk_kind == 1 {
        2
    } else if chunk_kind == 2 {
        4
    } else if chunk_kind == 3 {
        8
    } else {
        16
    }
}

pub open spec fn inline_result(
    kind_mask: u8,
    inline: InlineChunkV3,
    context: SeriesHotV3Context,
) -> Result<(), Error> {
    let min_time = context.segment_start_ms + inline.min_time_delta_ms;
    let max_time = context.segment_start_ms + inline.max_time_delta_ms;
    if inline.chunk_kind > 4 {
        Err(data_error("series v3 inline chunk kind is invalid"))
    } else if kind_mask != kind_bit_of(inline.chunk_kind) {
        Err(data_error("series v3 inline kind mask does not match chunk kind"))
    } else if inline.file_id > 1 {
        Err(data_error("series v3 inline file ID is invalid"))
    } else if inline.scalar_lane_len > SERIES_HOT_SCALAR_LANE_LEN_MAX {
        Err(data_error("series v3 inline scalar lane exceeds its field width"))
    } else if inline.scalar_lane_len != 0 && inline.scalar_lane_len < 16 {
        Err(data_error("series v3 inline scalar lane is shorter than its header"))
    } else if inline.scalar_lane_len != 0 && inline.chunk_kind < 2 {
        Err(data_error("series v3 inline scalar lane is invalid for its chunk kind"))
    } else if inline.chunk_length < 40 + inline.scalar_lane_len {
        Err(data_error("series v3 inline chunk does not cover its indexed prefix"))
    } else if min_time > u64::MAX {
        Err(data_error("series v3 inline minimum time overflow"))
    } else if max_time > u64::MAX {
        Err(data_error("series v3 inline maximum time overflow"))
    } else if min_time > max_time || max_time >= context.segment_end_ms {
        Err(data_error("series v3 inline time range is invalid"))
    } else if inline.file_offset + inline.chunk_length
        > context.chunk_file_lens@[inline.file_id as int] {
        Err(data_error("series v3 inline chunk range is out of bounds"))
    } else {
        Ok(())
    }
}

pub open spec fn overflow_result(overflow: OverflowChunksV3, context: SeriesHotV3Context) -> Result<
    (),
    Error,
> {
    let body_len = 44 * overflow.chunk_count;
    let blob_end = overflow.blob_offset + overflow.blob_len;
    if overflow.chunk_count == 0 {
        Err(data_error("series v3 overflow chunk count is zero"))
    } else if 32 + body_len > u32::MAX {
        Err(data_error("series v3 overflow blob exceeds u32"))
    } else if overflow.blob_len != 32 + body_len {
        Err(data_error("series v3 overflow blob length is noncanonical"))
    } else if overflow.blob_offset < 64 {
        Err(data_error("series v3 overflow blob overlaps its root"))
    } else if blob_end > u64::MAX {
        Err(data_error("series v3 overflow blob range overflow"))
    } else if blob_end > context.chunk_index_file_len {
        Err(data_error("series v3 overflow blob range is out of bounds"))
    } else {
        Ok(())
    }
}

pub open spec fn record_result(record: SeriesHotV3, context: SeriesHotV3Context) -> Result<
    (),
    Error,
> {
    if record.kind_mask == 0 || record.kind_mask > 31 {
        Err(data_error("series v3 kind mask is invalid"))
    } else if context.segment_start_ms >= context.segment_end_ms {
        Err(data_error("series v3 record segment bounds are invalid"))
    } else if context.chunk_index_file_len < 64 {
        Err(data_error("series v3 record chunk index is too short"))
    } else {
        match record.location {
            SeriesHotLocationV3::Inline(inline) => inline_result(
                record.kind_mask,
                inline,
                context,
            ),
            SeriesHotLocationV3::Overflow(overflow) => overflow_result(overflow, context),
        }
    }
}

/// The control word: kind mask in five bits, chunk kind in three, file id in
/// one, location tag in two, scalar lane length in the rest.
pub open spec fn control_of(record: SeriesHotV3) -> int {
    match record.location {
        SeriesHotLocationV3::Inline(inline) => record.kind_mask + 32 * inline.chunk_kind + 256
            * inline.file_id + 512 + 2_048 * inline.scalar_lane_len,
        SeriesHotLocationV3::Overflow(_) => record.kind_mask + 1_024,
    }
}

/// The bytes are the encoding of the record.
#[verifier::opaque]
pub open spec fn encodes_record(bytes: Seq<u8>, record: SeriesHotV3) -> bool {
    &&& bytes.len() == 40
    &&& u64_at(bytes, 0) == record.series_id
    &&& u32_at(bytes, 8) == record.keyset_id
    &&& u32_at(bytes, 12) == record.row
    &&& u32_at(bytes, 16) == control_of(record)
    &&& match record.location {
        SeriesHotLocationV3::Inline(inline) => {
            &&& u32_at(bytes, 20) == inline.min_time_delta_ms
            &&& u32_at(bytes, 24) == inline.max_time_delta_ms
            &&& u32_at(bytes, 28) == inline.file_offset
            &&& u32_at(bytes, 32) == inline.chunk_length
            &&& u32_at(bytes, 36) == inline.indexed_prefix_crc32c
        },
        SeriesHotLocationV3::Overflow(overflow) => {
            &&& u64_at(bytes, 20) == overflow.blob_offset
            &&& u32_at(bytes, 28) == overflow.blob_len
            &&& u32_at(bytes, 32) == overflow.chunk_count
            &&& u32_at(bytes, 36) == 0
        },
    }
}

/// The location that a record's bytes hold.
pub open spec fn location_fields(bytes: Seq<u8>) -> Result<SeriesHotLocationV3, Error> {
    let control = u32_at(bytes, 16);
    let tag = control / 512 % 4;
    if tag == 1 {
        Ok(
            SeriesHotLocationV3::Inline(
                InlineChunkV3 {
                    chunk_kind: (control / 32 % 8) as u8,
                    file_id: (control / 256 % 2) as u8,
                    scalar_lane_len: control / 2_048,
                    min_time_delta_ms: u32_at(bytes, 20),
                    max_time_delta_ms: u32_at(bytes, 24),
                    file_offset: u32_at(bytes, 28),
                    chunk_length: u32_at(bytes, 32),
                    indexed_prefix_crc32c: u32_at(bytes, 36),
                },
            ),
        )
    } else if tag == 2 {
        if control != control % 32 + 1_024 {
            Err(data_error("series v3 overflow record has nonzero inline control fields"))
        } else if u32_at(bytes, 36) != 0 {
            Err(data_error("series v3 overflow reserved0"))
        } else {
            Ok(
                SeriesHotLocationV3::Overflow(
                    OverflowChunksV3 {
                        blob_offset: u64_at(bytes, 20),
                        blob_len: u32_at(bytes, 28),
                        chunk_count: u32_at(bytes, 32),
                    },
                ),
            )
        }
    } else {
        Err(data_error("series v3 hot record tag is invalid"))
    }
}

/// The record that a byte sequence holds.
#[verifier::opaque]
pub open spec fn decode_record_result(bytes: Seq<u8>, context: SeriesHotV3Context) -> Result<
    SeriesHotV3,
    Error,
> {
    if bytes.len() != 40 {
        Err(data_error("series v3 hot record"))
    } else {
        match location_fields(bytes) {
            Err(error) => Err(error),
            Ok(location) => {
                let record = SeriesHotV3 {
                    series_id: u64_at(bytes, 0),
                    keyset_id: u32_at(bytes, 8),
                    row: u32_at(bytes, 12),
                    kind_mask: (u32_at(bytes, 16) % 32) as u8,
                    location,
                };
                match record_result(record, context) {
                    Err(error) => Err(error),
                    Ok(_) => Ok(record),
                }
            },
        }
    }
}

/// The record context of a header.
pub open spec fn context_of(header: SeriesHeaderV3, chunk_file_lens: [u64; 2]) -> SeriesHotV3Context {
    SeriesHotV3Context {
        segment_start_ms: header.segment_start_ms,
        segment_end_ms: header.segment_end_ms,
        chunk_file_lens,
        chunk_index_file_len: header.chunk_index_file_len,
    }
}

pub open spec fn context_result(header: SeriesHeaderV3, chunk_file_lens: [u64; 2]) -> Result<
    SeriesHotV3Context,
    Error,
> {
    match header_result(header) {
        Err(error) => Err(error),
        Ok(_) => Ok(context_of(header, chunk_file_lens)),
    }
}

impl SeriesHotV3Context {
    pub fn from_header(header: SeriesHeaderV3, chunk_file_lens: [u64; 2]) -> (result: Result<
        Self,
        Error,
    >)
        ensures
            result == context_result(header, chunk_file_lens),
    {
        header.validate()?;
        Ok(
            Self {
                segment_start_ms: header.segment_start_ms,
                segment_end_ms: header.segment_end_ms,
                chunk_file_lens,
                chunk_index_file_len: header.chunk_index_file_len,
            },
        )
    }
}

impl InlineChunkV3 {
    pub open spec fn lane_offset(self) -> u32 {
        if self.scalar_lane_len == 0 {
            0
        } else {
            40
        }
    }

    pub fn scalar_lane_offset(self) -> (offset: u32)
        ensures
            offset == self.lane_offset(),
    {
        if self.scalar_lane_len == 0 {
            0
        } else {
            CHUNK_HEADER_LEN_V1
        }
    }
}

impl SeriesHotV3 {
    /// Encodes a valid record.
    pub fn encode(self, context: SeriesHotV3Context) -> (result: Result<
        [u8; SERIES_HOT_RECORD_LEN_V3],
        Error,
    >)
        ensures
            match record_result(self, context) {
                Err(error) => result == Err::<[u8; SERIES_HOT_RECORD_LEN_V3], Error>(error),
                Ok(_) => result is Ok && encodes_record(result->Ok_0@, self),
            },
    {
        self.validate(context)?;
        let mut bytes = [0u8; SERIES_HOT_RECORD_LEN_V3];
        put_u64(&mut bytes, 0, self.series_id);
        put_u32(&mut bytes, 8, self.keyset_id);
        put_u32(&mut bytes, 12, self.row);
        match self.location {
            SeriesHotLocationV3::Inline(inline) => {
                let control: u32 = self.kind_mask as u32 + 32 * inline.chunk_kind as u32 + 256
                    * inline.file_id as u32 + 512 + 2_048 * inline.scalar_lane_len;
                put_u32(&mut bytes, 16, control);
                put_u32(&mut bytes, 20, inline.min_time_delta_ms);
                put_u32(&mut bytes, 24, inline.max_time_delta_ms);
                put_u32(&mut bytes, 28, inline.file_offset);
                put_u32(&mut bytes, 32, inline.chunk_length);
                put_u32(&mut bytes, 36, inline.indexed_prefix_crc32c);
            },
            SeriesHotLocationV3::Overflow(overflow) => {
                let control: u32 = self.kind_mask as u32 + 1_024;
                put_u32(&mut bytes, 16, control);
                put_u64(&mut bytes, 20, overflow.blob_offset);
                put_u32(&mut bytes, 28, overflow.blob_len);
                put_u32(&mut bytes, 32, overflow.chunk_count);
                put_u32(&mut bytes, 36, 0);
            },
        }
        proof {
            reveal(encodes_record);
        }
        Ok(bytes)
    }

    /// Decodes and validates a record.
    pub fn decode(bytes: &[u8], context: SeriesHotV3Context) -> (result: Result<Self, Error>)
        ensures
            result == decode_record_result(bytes@, context),
    {
        proof {
            reveal(decode_record_result);
        }
        require_len(bytes, SERIES_HOT_RECORD_LEN_V3, "series v3 hot record")?;
        let control: u32 = read_u32(bytes, 16);
        let kind_mask: u8 = (control % 32) as u8;
        let tag: u32 = control / 512 % 4;
        let location = if tag == SERIES_HOT_TAG_INLINE {
            SeriesHotLocationV3::Inline(
                InlineChunkV3 {
                    chunk_kind: (control / 32 % 8) as u8,
                    file_id: (control / 256 % 2) as u8,
                    scalar_lane_len: control / 2_048,
                    min_time_delta_ms: read_u32(bytes, 20),
                    max_time_delta_ms: read_u32(bytes, 24),
                    file_offset: read_u32(bytes, 28),
                    chunk_length: read_u32(bytes, 32),
                    indexed_prefix_crc32c: read_u32(bytes, 36),
                },
            )
        } else if tag == SERIES_HOT_TAG_OVERFLOW {
            if control != control % 32 + 1_024 {
                return Err(
                    invalid_data("series v3 overflow record has nonzero inline control fields"),
                );
            }
            require_zero_u32(read_u32(bytes, 36), "series v3 overflow reserved0")?;
            SeriesHotLocationV3::Overflow(
                OverflowChunksV3 {
                    blob_offset: read_u64(bytes, 20),
                    blob_len: read_u32(bytes, 28),
                    chunk_count: read_u32(bytes, 32),
                },
            )
        } else {
            return Err(invalid_data("series v3 hot record tag is invalid"));
        };
        let record = Self {
            series_id: read_u64(bytes, 0),
            keyset_id: read_u32(bytes, 8),
            row: read_u32(bytes, 12),
            kind_mask,
            location,
        };
        record.validate(context)?;
        Ok(record)
    }

    pub fn validate(self, context: SeriesHotV3Context) -> (result: Result<(), Error>)
        ensures
            result == record_result(self, context),
    {
        if self.kind_mask == 0 || self.kind_mask > 31 {
            return Err(invalid_data("series v3 kind mask is invalid"));
        }
        if context.segment_start_ms >= context.segment_end_ms {
            return Err(invalid_data("series v3 record segment bounds are invalid"));
        }
        if context.chunk_index_file_len < CHUNK_INDEX_ROOT_LEN_V2 {
            return Err(invalid_data("series v3 record chunk index is too short"));
        }
        match self.location {
            SeriesHotLocationV3::Inline(inline) => validate_inline(self.kind_mask, inline, context),
            SeriesHotLocationV3::Overflow(overflow) => validate_overflow(overflow, context),
        }
    }
}

pub fn validate_inline(kind_mask: u8, inline: InlineChunkV3, context: SeriesHotV3Context) -> (result:
    Result<(), Error>)
    ensures
        result == inline_result(kind_mask, inline, context),
{
    if inline.chunk_kind > CHUNK_KIND_SUMMARY {
        return Err(invalid_data("series v3 inline chunk kind is invalid"));
    }
    let expected_kind_mask: u8 = match inline.chunk_kind {
        CHUNK_KIND_FLOAT => 1,
        CHUNK_KIND_INT64 => 2,
        CHUNK_KIND_HISTOGRAM => 4,
        CHUNK_KIND_EXPONENTIAL_HISTOGRAM => 8,
        _ => 16,
    };
    if kind_mask != expected_kind_mask {
        return Err(invalid_data("series v3 inline kind mask does not match chunk kind"));
    }
    if inline.file_id > 1 {
        return Err(invalid_data("series v3 inline file ID is invalid"));
    }
    if inline.scalar_lane_len > SERIES_HOT_SCALAR_LANE_LEN_MAX {
        return Err(invalid_data("series v3 inline scalar lane exceeds its field width"));
    }
    if inline.scalar_lane_len != 0 && inline.scalar_lane_len < TYPED_SCALAR_LANE_HEADER_LEN_V1 {
        return Err(invalid_data("series v3 inline scalar lane is shorter than its header"));
    }
    if inline.scalar_lane_len != 0 && inline.chunk_kind < CHUNK_KIND_HISTOGRAM {
        return Err(invalid_data("series v3 inline scalar lane is invalid for its chunk kind"));
    }
    if inline.chunk_length < CHUNK_HEADER_LEN_V1 + inline.scalar_lane_len {
        return Err(invalid_data("series v3 inline chunk does not cover its indexed prefix"));
    }
    let min_time_ms: u64 = match context.segment_start_ms.checked_add(
        inline.min_time_delta_ms as u64,
    ) {
        Some(time) => time,
        None => {
            return Err(invalid_data("series v3 inline minimum time overflow"));
        },
    };
    let max_time_ms: u64 = match context.segment_start_ms.checked_add(
        inline.max_time_delta_ms as u64,
    ) {
        Some(time) => time,
        None => {
            return Err(invalid_data("series v3 inline maximum time overflow"));
        },
    };
    if min_time_ms > max_time_ms || max_time_ms >= context.segment_end_ms {
        return Err(invalid_data("series v3 inline time range is invalid"));
    }
    let chunk_end: u64 = inline.file_offset as u64 + inline.chunk_length as u64;
    if chunk_end > context.chunk_file_lens[inline.file_id as usize] {
        return Err(invalid_data("series v3 inline chunk range is out of bounds"));
    }
    Ok(())
}

pub fn validate_overflow(overflow: OverflowChunksV3, context: SeriesHotV3Context) -> (result:
    Result<(), Error>)
    ensures
        result == overflow_result(overflow, context),
{
    if overflow.chunk_count == 0 {
        return Err(invalid_data("series v3 overflow chunk count is zero"));
    }
    let body_len: u64 = overflow.chunk_count as u64 * CHUNK_OVERFLOW_ENTRY_LEN_V1;
    if body_len > u32::MAX as u64 - CHUNK_OVERFLOW_BLOB_HEADER_LEN_V1 {
        return Err(invalid_data("series v3 overflow blob exceeds u32"));
    }
    let expected_blob_len: u64 = CHUNK_OVERFLOW_BLOB_HEADER_LEN_V1 + body_len;
    if overflow.blob_len as u64 != expected_blob_len {
        return Err(invalid_data("series v3 overflow blob length is noncanonical"));
    }
    if overflow.blob_offset < CHUNK_INDEX_ROOT_LEN_V2 {
        return Err(invalid_data("series v3 overflow blob overlaps its root"));
    }
    let blob_end: u64 = match overflow.blob_offset.checked_add(overflow.blob_len as u64) {
        Some(end) => end,
        None => {
            return Err(invalid_data("series v3 overflow blob range overflow"));
        },
    };
    if blob_end > context.chunk_index_file_len {
        return Err(invalid_data("series v3 overflow blob range is out of bounds"));
    }
    Ok(())
}

/// The parts of an inline control word come apart again.
proof fn lemma_inline_control(kind: int, chunk: int, file: int, lane: int)
    requires
        0 <= kind < 32,
        0 <= chunk < 8,
        0 <= file < 2,
        0 <= lane,
    ensures
        ({
            let control = kind + 32 * chunk + 256 * file + 512 + 2_048 * lane;
            &&& control % 32 == kind
            &&& control / 32 % 8 == chunk
            &&& control / 256 % 2 == file
            &&& control / 512 % 4 == 1
            &&& control / 2_048 == lane
        }),
{
    let control = kind + 32 * chunk + 256 * file + 512 + 2_048 * lane;
    assert(control / 32 == chunk + 8 * file + 16 + 64 * lane);
    assert(control / 256 == file + 2 + 8 * lane);
    assert(control / 512 == 1 + 4 * lane);
}

/// A record that was encoded decodes to itself.
pub proof fn record_round_trip_law(
    bytes: Seq<u8>,
    record: SeriesHotV3,
    context: SeriesHotV3Context,
)
    requires
        record_result(record, context) is Ok,
        encodes_record(bytes, record),
    ensures
        decode_record_result(bytes, context) == Ok::<SeriesHotV3, Error>(record),
{
    reveal(decode_record_result);
    reveal(encodes_record);
    let control = u32_at(bytes, 16) as int;
    match record.location {
        SeriesHotLocationV3::Inline(inline) => {
            lemma_inline_control(
                record.kind_mask as int,
                inline.chunk_kind as int,
                inline.file_id as int,
                inline.scalar_lane_len as int,
            );
            assert(location_fields(bytes) == Ok::<SeriesHotLocationV3, Error>(record.location));
        },
        SeriesHotLocationV3::Overflow(_) => {
            assert(control / 512 == 2);
            assert(location_fields(bytes) == Ok::<SeriesHotLocationV3, Error>(record.location));
        },
    }
}

} // verus!
