//! The fixed header of `series.bin` version 3 and the layout it implies.

use vstd::prelude::*;

use crate::bytes::{
    lemma_u32_at_window, lemma_u32_bytes_value, put_u16, put_u32, put_u64, read_u16, read_u32,
    read_u64, splice, u16_at, u32_at, u32_bytes, u64_at,
};
use crate::cold_v2::reader::{
    table_minimum_result, validate_offset_table_minimum, ColdSectionName,
};
use crate::error::{data_error, invalid_data, Error};

verus! {

pub const SERIES_HEADER_LEN_V3: usize = 176;

pub const SERIES_DESCRIPTOR_LEN_V1: usize = 16;

pub const SERIES_HOT_PAGE_LEN_V1: usize = 16_384;

pub const SERIES_HOT_PAGE_HEADER_LEN_V1: usize = 24;

pub const SERIES_HOT_RECORD_LEN_V3: usize = 40;

pub const SERIES_HOT_RECORDS_PER_PAGE_V1: u32 = 409;

pub const SERIES_COLD_PAGE_LEN_V1: u64 = 16_384;

/// `SERI` as a little-endian integer.
pub const SERIES_MAGIC: u32 = 0x4952_4553;

pub const SERIES_VERSION_V3: u16 = 3;

pub const SERIES_ROOT_ALIGNMENT_V3: u64 = 4_096;

pub const SERIES_ROOT_CRC_OFFSET_V3: usize = 52;

pub const SERIES_ROOT_CRC_LEN_V3: usize = 4;

pub const CHUNK_INDEX_ROOT_LEN_V2: u64 = 64;

/// The independent facts that a header is built from.
#[derive(Debug, Clone, Copy, PartialEq, Eq, Structural)]
pub struct SeriesHeaderV3Params {
    pub num_series: u32,
    pub num_keysets: u32,
    pub num_value_dicts: u32,
    pub chunk_index_root_crc32c: u32,
    pub keysets_len: u64,
    pub value_dicts_len: u64,
    pub keyset_blocks_len: u64,
    pub segment_start_ms: u64,
    pub segment_end_ms: u64,
    pub chunk_index_file_len: u64,
}

/// The decoded fixed header.
#[derive(Debug, Clone, Copy, PartialEq, Eq, Structural)]
pub struct SeriesHeaderV3 {
    pub num_series: u32,
    pub page_count: u32,
    pub num_keysets: u32,
    pub num_value_dicts: u32,
    pub chunk_index_root_crc32c: u32,
    pub root_crc32c: u32,
    pub cold_page_count: u32,
    pub directory_offset: u64,
    pub directory_len: u64,
    pub hot_pages_offset: u64,
    pub hot_pages_len: u64,
    pub keysets_offset: u64,
    pub keysets_len: u64,
    pub value_dicts_offset: u64,
    pub value_dicts_len: u64,
    pub keyset_blocks_offset: u64,
    pub keyset_blocks_len: u64,
    pub segment_start_ms: u64,
    pub segment_end_ms: u64,
    pub chunk_index_file_len: u64,
    pub file_len: u64,
}

/// Everything in a header that follows from its counts and section lengths.
#[derive(Debug, Clone, Copy, PartialEq, Eq, Structural)]
pub struct DerivedSeriesLayoutV3 {
    pub page_count: u32,
    pub cold_page_count: u32,
    pub directory_offset: u64,
    pub directory_len: u64,
    pub hot_pages_offset: u64,
    pub hot_pages_len: u64,
    pub keysets_offset: u64,
    pub value_dicts_offset: u64,
    pub keyset_blocks_offset: u64,
    pub file_len: u64,
}

/// The least number of parts of size `divisor` that hold `value` units.
pub open spec fn ceil_div(value: int, divisor: int) -> int {
    if value == 0 {
        0
    } else {
        1 + (value - 1) / divisor
    }
}

/// The least multiple of `alignment` that is not less than `value`.
pub open spec fn align_up(value: int, alignment: int) -> int {
    if value % alignment == 0 {
        value
    } else {
        value + (alignment - value % alignment)
    }
}

pub open spec fn layout_result(
    num_series: u32,
    keysets_len: u64,
    value_dicts_len: u64,
    keyset_blocks_len: u64,
) -> Result<DerivedSeriesLayoutV3, Error> {
    let cold_bytes = keysets_len + value_dicts_len + keyset_blocks_len;
    let pages = ceil_div(num_series as int, 409);
    let cold_pages = ceil_div(cold_bytes, 16_384);
    let directory_len = 16 * (pages + cold_pages);
    let hot_offset = align_up(176 + directory_len, 4_096);
    let keysets_offset = hot_offset + 16_384 * pages;
    if cold_bytes > u64::MAX {
        Err(data_error("series v3 cold bytes overflow"))
    } else if cold_pages > u32::MAX {
        Err(data_error("series v3 cold page count exceeds u32"))
    } else {
        Ok(
            DerivedSeriesLayoutV3 {
                page_count: pages as u32,
                cold_page_count: cold_pages as u32,
                directory_offset: 176,
                directory_len: directory_len as u64,
                hot_pages_offset: hot_offset as u64,
                hot_pages_len: (16_384 * pages) as u64,
                keysets_offset: keysets_offset as u64,
                value_dicts_offset: (keysets_offset + keysets_len) as u64,
                keyset_blocks_offset: (keysets_offset + keysets_len + value_dicts_len) as u64,
                file_len: (keysets_offset + cold_bytes) as u64,
            },
        )
    }
}

/// The header agrees with the layout in every derived field.
pub open spec fn has_layout(header: SeriesHeaderV3, layout: DerivedSeriesLayoutV3) -> bool {
    &&& header.page_count == layout.page_count
    &&& header.cold_page_count == layout.cold_page_count
    &&& header.directory_offset == layout.directory_offset
    &&& header.directory_len == layout.directory_len
    &&& header.hot_pages_offset == layout.hot_pages_offset
    &&& header.hot_pages_len == layout.hot_pages_len
    &&& header.keysets_offset == layout.keysets_offset
    &&& header.value_dicts_offset == layout.value_dicts_offset
    &&& header.keyset_blocks_offset == layout.keyset_blocks_offset
    &&& header.file_len == layout.file_len
}

/// What validating a header answers.
pub open spec fn header_result(header: SeriesHeaderV3) -> Result<(), Error> {
    if header.segment_start_ms >= header.segment_end_ms {
        Err(data_error("series v3 segment bounds are invalid"))
    } else if header.chunk_index_file_len < 64 {
        Err(data_error("series v3 chunk index is shorter than its root"))
    } else if header.num_series != 0 && (header.num_keysets == 0 || header.num_keysets
        > header.num_series) {
        Err(data_error("series v3 nonempty table has an invalid keyset count"))
    } else {
        match table_minimum_result(
            header.keysets_len,
            header.num_keysets,
            ColdSectionName::Keysets,
        ) {
            Err(error) => Err(error),
            Ok(_) => match table_minimum_result(
                header.value_dicts_len,
                header.num_value_dicts,
                ColdSectionName::ValueDictionaries,
            ) {
                Err(error) => Err(error),
                Ok(_) => match table_minimum_result(
                    header.keyset_blocks_len,
                    header.num_keysets,
                    ColdSectionName::KeysetBlocks,
                ) {
                    Err(error) => Err(error),
                    Ok(_) => match layout_result(
                        header.num_series,
                        header.keysets_len,
                        header.value_dicts_len,
                        header.keyset_blocks_len,
                    ) {
                        Err(error) => Err(error),
                        Ok(layout) => if !has_layout(header, layout) {
                            Err(data_error("series v3 section layout is noncanonical"))
                        } else if header.num_series == 0 && (header.num_keysets != 0
                            || header.num_value_dicts != 0 || header.keysets_len != 8
                            || header.value_dicts_len != 8 || header.keyset_blocks_len != 8
                            || header.chunk_index_file_len != 64) {
                            Err(data_error("series v3 empty table is noncanonical"))
                        } else {
                            Ok(())
                        },
                    },
                },
            },
        }
    }
}

/// The header that a set of parameters stands for, under a given layout.
pub open spec fn header_of(params: SeriesHeaderV3Params, layout: DerivedSeriesLayoutV3) -> SeriesHeaderV3 {
    SeriesHeaderV3 {
        num_series: params.num_series,
        page_count: layout.page_count,
        num_keysets: params.num_keysets,
        num_value_dicts: params.num_value_dicts,
        chunk_index_root_crc32c: params.chunk_index_root_crc32c,
        root_crc32c: 0,
        cold_page_count: layout.cold_page_count,
        directory_offset: layout.directory_offset,
        directory_len: layout.directory_len,
        hot_pages_offset: layout.hot_pages_offset,
        hot_pages_len: layout.hot_pages_len,
        keysets_offset: layout.keysets_offset,
        keysets_len: params.keysets_len,
        value_dicts_offset: layout.value_dicts_offset,
        value_dicts_len: params.value_dicts_len,
        keyset_blocks_offset: layout.keyset_blocks_offset,
        keyset_blocks_len: params.keyset_blocks_len,
        segment_start_ms: params.segment_start_ms,
        segment_end_ms: params.segment_end_ms,
        chunk_index_file_len: params.chunk_index_file_len,
        file_len: layout.file_len,
    }
}

pub open spec fn new_header_result(params: SeriesHeaderV3Params) -> Result<SeriesHeaderV3, Error> {
    match layout_result(
        params.num_series,
        params.keysets_len,
        params.value_dicts_len,
        params.keyset_blocks_len,
    ) {
        Err(error) => Err(error),
        Ok(layout) => match header_result(header_of(params, layout)) {
            Err(error) => Err(error),
            Ok(_) => Ok(header_of(params, layout)),
        },
    }
}

/// The header fields that 176 bytes hold.
pub open spec fn header_fields(bytes: Seq<u8>) -> SeriesHeaderV3 {
    SeriesHeaderV3 {
        num_series: u32_at(bytes, 32),
        page_count: u32_at(bytes, 36),
        num_keysets: u32_at(bytes, 40),
        num_value_dicts: u32_at(bytes, 44),
        chunk_index_root_crc32c: u32_at(bytes, 48),
        root_crc32c: u32_at(bytes, 52),
        cold_page_count: u32_at(bytes, 60),
        directory_offset: u64_at(bytes, 64),
        directory_len: u64_at(bytes, 72),
        hot_pages_offset: u64_at(bytes, 80),
        hot_pages_len: u64_at(bytes, 88),
        keysets_offset: u64_at(bytes, 96),
        keysets_len: u64_at(bytes, 104),
        value_dicts_offset: u64_at(bytes, 112),
        value_dicts_len: u64_at(bytes, 120),
        keyset_blocks_offset: u64_at(bytes, 128),
        keyset_blocks_len: u64_at(bytes, 136),
        segment_start_ms: u64_at(bytes, 144),
        segment_end_ms: u64_at(bytes, 152),
        chunk_index_file_len: u64_at(bytes, 160),
        file_len: u64_at(bytes, 168),
    }
}

/// What the fixed words of a header answer: magic, version, flags and the
/// format's own sizes.
pub open spec fn header_preamble_result(bytes: Seq<u8>) -> Result<(), Error> {
    if bytes.len() != 176 {
        Err(data_error("series v3 header"))
    } else if u32_at(bytes, 0) != SERIES_MAGIC {
        Err(data_error("series v3 magic"))
    } else if u16_at(bytes, 4) != 3 {
        Err(data_error("series v3 version"))
    } else if u16_at(bytes, 6) != 0 {
        Err(data_error("series v3 flags"))
    } else if u32_at(bytes, 8) != 176 {
        Err(data_error("series v3 header length"))
    } else if u32_at(bytes, 12) != 16 {
        Err(data_error("series v3 descriptor length"))
    } else if u32_at(bytes, 16) != 16_384 {
        Err(data_error("series v3 hot page length"))
    } else if u32_at(bytes, 20) != 24 {
        Err(data_error("series v3 hot page header length"))
    } else if u32_at(bytes, 24) != 40 {
        Err(data_error("series v3 hot record length"))
    } else if u32_at(bytes, 28) != 409 {
        Err(data_error("series v3 records per page"))
    } else if u32_at(bytes, 56) != 16_384 {
        Err(data_error("series v3 cold page length"))
    } else {
        Ok(())
    }
}

/// The bytes are the encoding of the header: fixed words and every field.
#[verifier::opaque]
pub open spec fn encodes_header(bytes: Seq<u8>, header: SeriesHeaderV3) -> bool {
    header_preamble_result(bytes) is Ok && header_fields(bytes) == header
}

pub open spec fn decode_header_result(bytes: Seq<u8>) -> Result<SeriesHeaderV3, Error> {
    match header_preamble_result(bytes) {
        Err(error) => Err(error),
        Ok(_) => match header_result(header_fields(bytes)) {
            Err(error) => Err(error),
            Ok(_) => Ok(header_fields(bytes)),
        },
    }
}

pub open spec fn sum3_result(a: u64, b: u64, c: u64, message: &'static str) -> Result<u64, Error> {
    if a + b + c > u64::MAX {
        Err(data_error(message))
    } else {
        Ok((a + b + c) as u64)
    }
}

pub open spec fn cold_bytes_result(header: SeriesHeaderV3) -> Result<u64, Error> {
    sum3_result(
        header.keysets_len,
        header.value_dicts_len,
        header.keyset_blocks_len,
        "series v3 cold bytes overflow",
    )
}

/// How many records the hot page holds.
pub open spec fn hot_record_count_result(header: SeriesHeaderV3, page_index: u32) -> Result<
    u32,
    Error,
> {
    if page_index >= header.page_count {
        Err(data_error("series v3 hot page index is out of range"))
    } else if page_index * 409 > u32::MAX {
        Err(data_error("series v3 first series ref overflow"))
    } else if header.num_series - page_index * 409 < 409 {
        Ok((header.num_series - page_index * 409) as u32)
    } else {
        Ok(409)
    }
}

/// How many bytes the cold page holds.
pub open spec fn cold_page_len_result(header: SeriesHeaderV3, page_index: u32) -> Result<
    u32,
    Error,
> {
    let start = page_index * 16_384;
    if page_index >= header.cold_page_count {
        Err(data_error("series v3 cold page index is out of range"))
    } else {
        match cold_bytes_result(header) {
            Err(error) => Err(error),
            Ok(total) => if total < start {
                Err(data_error("series v3 cold page starts past EOF"))
            } else if total - start < 16_384 {
                Ok((total - start) as u32)
            } else {
                Ok(16_384)
            },
        }
    }
}

impl SeriesHeaderV3 {
    /// Builds the header that the parameters stand for and validates it.
    pub fn new(params: SeriesHeaderV3Params) -> (result: Result<Self, Error>)
        ensures
            result == new_header_result(params),
    {
        let layout = derive_layout(
            params.num_series,
            params.keysets_len,
            params.value_dicts_len,
            params.keyset_blocks_len,
        )?;
        let header = Self {
            num_series: params.num_series,
            page_count: layout.page_count,
            num_keysets: params.num_keysets,
            num_value_dicts: params.num_value_dicts,
            chunk_index_root_crc32c: params.chunk_index_root_crc32c,
            root_crc32c: 0,
            cold_page_count: layout.cold_page_count,
            directory_offset: layout.directory_offset,
            directory_len: layout.directory_len,
            hot_pages_offset: layout.hot_pages_offset,
            hot_pages_len: layout.hot_pages_len,
            keysets_offset: layout.keysets_offset,
            keysets_len: params.keysets_len,
            value_dicts_offset: layout.value_dicts_offset,
            value_dicts_len: params.value_dicts_len,
            keyset_blocks_offset: layout.keyset_blocks_offset,
            keyset_blocks_len: params.keyset_blocks_len,
            segment_start_ms: params.segment_start_ms,
            segment_end_ms: params.segment_end_ms,
            chunk_index_file_len: params.chunk_index_file_len,
            file_len: layout.file_len,
        };
        header.validate()?;
        Ok(header)
    }

    /// Encodes a valid header.
    pub fn encode(self) -> (result: Result<[u8; SERIES_HEADER_LEN_V3], Error>)
        ensures
            match header_result(self) {
                Err(error) => result == Err::<[u8; SERIES_HEADER_LEN_V3], Error>(error),
                Ok(_) => result is Ok && encodes_header(result->Ok_0@, self),
            },
    {
        self.validate()?;
        let mut bytes = [0u8; SERIES_HEADER_LEN_V3];
        put_u32(&mut bytes, 0, SERIES_MAGIC);
        put_u16(&mut bytes, 4, SERIES_VERSION_V3);
        put_u16(&mut bytes, 6, 0);
        put_u32(&mut bytes, 8, SERIES_HEADER_LEN_V3 as u32);
        put_u32(&mut bytes, 12, SERIES_DESCRIPTOR_LEN_V1 as u32);
        put_u32(&mut bytes, 16, SERIES_HOT_PAGE_LEN_V1 as u32);
        put_u32(&mut bytes, 20, SERIES_HOT_PAGE_HEADER_LEN_V1 as u32);
        put_u32(&mut bytes, 24, SERIES_HOT_RECORD_LEN_V3 as u32);
        put_u32(&mut bytes, 28, SERIES_HOT_RECORDS_PER_PAGE_V1);
        put_u32(&mut bytes, 32, self.num_series);
        put_u32(&mut bytes, 36, self.page_count);
        put_u32(&mut bytes, 40, self.num_keysets);
        put_u32(&mut bytes, 44, self.num_value_dicts);
        put_u32(&mut bytes, 48, self.chunk_index_root_crc32c);
        put_u32(&mut bytes, 52, self.root_crc32c);
        put_u32(&mut bytes, 56, SERIES_COLD_PAGE_LEN_V1 as u32);
        put_u32(&mut bytes, 60, self.cold_page_count);
        put_u64(&mut bytes, 64, self.directory_offset);
        put_u64(&mut bytes, 72, self.directory_len);
        put_u64(&mut bytes, 80, self.hot_pages_offset);
        put_u64(&mut bytes, 88, self.hot_pages_len);
        put_u64(&mut bytes, 96, self.keysets_offset);
        put_u64(&mut bytes, 104, self.keysets_len);
        put_u64(&mut bytes, 112, self.value_dicts_offset);
        put_u64(&mut bytes, 120, self.value_dicts_len);
        put_u64(&mut bytes, 128, self.keyset_blocks_offset);
        put_u64(&mut bytes, 136, self.keyset_blocks_len);
        put_u64(&mut bytes, 144, self.segment_start_ms);
        put_u64(&mut bytes, 152, self.segment_end_ms);
        put_u64(&mut bytes, 160, self.chunk_index_file_len);
        put_u64(&mut bytes, 168, self.file_len);
        proof {
            reveal(encodes_header);
        }
        Ok(bytes)
    }

    /// Decodes and validates a header.
    pub fn decode(bytes: &[u8]) -> (result: Result<Self, Error>)
        ensures
            result == decode_header_result(bytes@),
    {
        require_len(bytes, SERIES_HEADER_LEN_V3, "series v3 header")?;
        require_eq_u32(read_u32(bytes, 0), SERIES_MAGIC, "series v3 magic")?;
        require_eq_u16(read_u16(bytes, 4), SERIES_VERSION_V3, "series v3 version")?;
        require_zero_u16(read_u16(bytes, 6), "series v3 flags")?;
        require_eq_u32(
            read_u32(bytes, 8),
            SERIES_HEADER_LEN_V3 as u32,
            "series v3 header length",
        )?;
        require_eq_u32(
            read_u32(bytes, 12),
            SERIES_DESCRIPTOR_LEN_V1 as u32,
            "series v3 descriptor length",
        )?;
        require_eq_u32(
            read_u32(bytes, 16),
            SERIES_HOT_PAGE_LEN_V1 as u32,
            "series v3 hot page length",
        )?;
        require_eq_u32(
            read_u32(bytes, 20),
            SERIES_HOT_PAGE_HEADER_LEN_V1 as u32,
            "series v3 hot page header length",
        )?;
        require_eq_u32(
            read_u32(bytes, 24),
            SERIES_HOT_RECORD_LEN_V3 as u32,
            "series v3 hot record length",
        )?;
        require_eq_u32(
            read_u32(bytes, 28),
            SERIES_HOT_RECORDS_PER_PAGE_V1,
            "series v3 records per page",
        )?;
        require_eq_u32(
            read_u32(bytes, 56),
            SERIES_COLD_PAGE_LEN_V1 as u32,
            "series v3 cold page length",
        )?;
        let header = Self {
            num_series: read_u32(bytes, 32),
            page_count: read_u32(bytes, 36),
            num_keysets: read_u32(bytes, 40),
            num_value_dicts: read_u32(bytes, 44),
            chunk_index_root_crc32c: read_u32(bytes, 48),
            root_crc32c: read_u32(bytes, 52),
            cold_page_count: read_u32(bytes, 60),
            directory_offset: read_u64(bytes, 64),
            directory_len: read_u64(bytes, 72),
            hot_pages_offset: read_u64(bytes, 80),
            hot_pages_len: read_u64(bytes, 88),
            keysets_offset: read_u64(bytes, 96),
            keysets_len: read_u64(bytes, 104),
            value_dicts_offset: read_u64(bytes, 112),
            value_dicts_len: read_u64(bytes, 120),
            keyset_blocks_offset: read_u64(bytes, 128),
            keyset_blocks_len: read_u64(bytes, 136),
            segment_start_ms: read_u64(bytes, 144),
            segment_end_ms: read_u64(bytes, 152),
            chunk_index_file_len: read_u64(bytes, 160),
            file_len: read_u64(bytes, 168),
        };
        header.validate()?;
        Ok(header)
    }

    pub fn validate(self) -> (result: Result<(), Error>)
        ensures
            result == header_result(self),
    {
        if self.segment_start_ms >= self.segment_end_ms {
            return Err(invalid_data("series v3 segment bounds are invalid"));
        }
        if self.chunk_index_file_len < CHUNK_INDEX_ROOT_LEN_V2 {
            return Err(invalid_data("series v3 chunk index is shorter than its root"));
        }
        if self.num_series != 0 && (self.num_keysets == 0 || self.num_keysets > self.num_series) {
            return Err(invalid_data("series v3 nonempty table has an invalid keyset count"));
        }
        validate_offset_table_minimum(self.keysets_len, self.num_keysets, ColdSectionName::Keysets)?;
        validate_offset_table_minimum(
            self.value_dicts_len,
            self.num_value_dicts,
            ColdSectionName::ValueDictionaries,
        )?;
        validate_offset_table_minimum(
            self.keyset_blocks_len,
            self.num_keysets,
            ColdSectionName::KeysetBlocks,
        )?;
        let expected = derive_layout(
            self.num_series,
            self.keysets_len,
            self.value_dicts_len,
            self.keyset_blocks_len,
        )?;
        if self.page_count != expected.page_count || self.cold_page_count
            != expected.cold_page_count || self.directory_offset != expected.directory_offset
            || self.directory_len != expected.directory_len || self.hot_pages_offset
            != expected.hot_pages_offset || self.hot_pages_len != expected.hot_pages_len
            || self.keysets_offset != expected.keysets_offset || self.value_dicts_offset
            != expected.value_dicts_offset || self.keyset_blocks_offset
            != expected.keyset_blocks_offset || self.file_len != expected.file_len {
            return Err(invalid_data("series v3 section layout is noncanonical"));
        }
        if self.num_series == 0 && (self.num_keysets != 0 || self.num_value_dicts != 0
            || self.keysets_len != 8 || self.value_dicts_len != 8 || self.keyset_blocks_len != 8
            || self.chunk_index_file_len != CHUNK_INDEX_ROOT_LEN_V2) {
            return Err(invalid_data("series v3 empty table is noncanonical"));
        }
        Ok(())
    }

    pub fn cold_bytes_len(self) -> (result: Result<u64, Error>)
        ensures
            result == cold_bytes_result(self),
    {
        checked_sum3(
            self.keysets_len,
            self.value_dicts_len,
            self.keyset_blocks_len,
            "series v3 cold bytes overflow",
        )
    }

    /// The number of records on a hot page. The record table reaches every page
    /// that the header counts.
    pub fn expected_hot_record_count(self, page_index: u32) -> (result: Result<u32, Error>)
        requires
            page_index < self.page_count && page_index * 409 <= u32::MAX ==> page_index * 409
                <= self.num_series,
        ensures
            result == hot_record_count_result(self, page_index),
    {
        if page_index >= self.page_count {
            return Err(invalid_data("series v3 hot page index is out of range"));
        }
        match page_index.checked_mul(SERIES_HOT_RECORDS_PER_PAGE_V1) {
            None => Err(invalid_data("series v3 first series ref overflow")),
            Some(first) => {
                let remaining: u32 = self.num_series - first;
                if remaining < SERIES_HOT_RECORDS_PER_PAGE_V1 {
                    Ok(remaining)
                } else {
                    Ok(SERIES_HOT_RECORDS_PER_PAGE_V1)
                }
            },
        }
    }

    /// The number of bytes on a cold page: full pages, then the rest.
    pub fn expected_cold_page_len(self, page_index: u32) -> (result: Result<u32, Error>)
        ensures
            result == cold_page_len_result(self, page_index),
    {
        if page_index >= self.cold_page_count {
            return Err(invalid_data("series v3 cold page index is out of range"));
        }
        let start: u64 = page_index as u64 * SERIES_COLD_PAGE_LEN_V1;
        let total: u64 = self.cold_bytes_len()?;
        if total < start {
            return Err(invalid_data("series v3 cold page starts past EOF"));
        }
        let remaining: u64 = total - start;
        if remaining < SERIES_COLD_PAGE_LEN_V1 {
            Ok(remaining as u32)
        } else {
            Ok(SERIES_COLD_PAGE_LEN_V1 as u32)
        }
    }
}

/// Derives every offset and count of the file from its section lengths.
pub fn derive_layout(
    num_series: u32,
    keysets_len: u64,
    value_dicts_len: u64,
    keyset_blocks_len: u64,
) -> (result: Result<DerivedSeriesLayoutV3, Error>)
    ensures
        result == layout_result(num_series, keysets_len, value_dicts_len, keyset_blocks_len),
{
    let page_count: u32 = ceil_div_u64(
        num_series as u64,
        SERIES_HOT_RECORDS_PER_PAGE_V1 as u64,
    ) as u32;
    let cold_bytes_len: u64 = checked_sum3(
        keysets_len,
        value_dicts_len,
        keyset_blocks_len,
        "series v3 cold bytes overflow",
    )?;
    let cold_page_count: u32 = match u32::try_from(
        ceil_div_u64(cold_bytes_len, SERIES_COLD_PAGE_LEN_V1),
    ) {
        Ok(count) => count,
        Err(_) => {
            return Err(invalid_data("series v3 cold page count exceeds u32"));
        },
    };
    let directory_offset: u64 = SERIES_HEADER_LEN_V3 as u64;
    let descriptor_count: u64 = page_count as u64 + cold_page_count as u64;
    assert(SERIES_DESCRIPTOR_LEN_V1 as u64 == 16 && SERIES_HOT_PAGE_LEN_V1 as u64 == 16_384);
    let directory_len: u64 = descriptor_count * SERIES_DESCRIPTOR_LEN_V1 as u64;
    let hot_pages_offset: u64 = checked_align_up(
        directory_offset + directory_len,
        SERIES_ROOT_ALIGNMENT_V3,
    )?;
    let hot_pages_len: u64 = page_count as u64 * SERIES_HOT_PAGE_LEN_V1 as u64;
    let keysets_offset: u64 = hot_pages_offset + hot_pages_len;
    let value_dicts_offset: u64 = keysets_offset + keysets_len;
    let keyset_blocks_offset: u64 = value_dicts_offset + value_dicts_len;
    let file_len: u64 = keyset_blocks_offset + keyset_blocks_len;
    Ok(
        DerivedSeriesLayoutV3 {
            page_count,
            cold_page_count,
            directory_offset,
            directory_len,
            hot_pages_offset,
            hot_pages_len,
            keysets_offset,
            value_dicts_offset,
            keyset_blocks_offset,
            file_len,
        },
    )
}

pub fn checked_sum3(a: u64, b: u64, c: u64, message: &'static str) -> (result: Result<u64, Error>)
    ensures
        result == sum3_result(a, b, c, message),
{
    match a.checked_add(b) {
        None => Err(invalid_data(message)),
        Some(sum) => match sum.checked_add(c) {
            None => Err(invalid_data(message)),
            Some(sum) => Ok(sum),
        },
    }
}

pub fn checked_align_up(value: u64, alignment: u64) -> (result: Result<u64, Error>)
    requires
        alignment > 0,
    ensures
        result == (if align_up(value as int, alignment as int) > u64::MAX {
            Err(data_error("series v3 alignment overflow"))
        } else {
            Ok::<u64, Error>(align_up(value as int, alignment as int) as u64)
        }),
{
    let remainder: u64 = value % alignment;
    if remainder == 0 {
        Ok(value)
    } else {
        match value.checked_add(alignment - remainder) {
            Some(aligned) => Ok(aligned),
            None => Err(invalid_data("series v3 alignment overflow")),
        }
    }
}

pub fn ceil_div_u64(value: u64, divisor: u64) -> (count: u64)
    requires
        divisor > 0,
    ensures
        count == ceil_div(value as int, divisor as int),
{
    if value == 0 {
        0
    } else {
        assert((value - 1) / divisor as int <= value - 1) by (nonlinear_arith)
            requires
                value >= 1,
                divisor >= 1,
        ;
        1 + (value - 1) / divisor
    }
}

pub fn checked_usize(value: u64, name: &'static str) -> (result: Result<usize, Error>)
    ensures
        result == (if value > usize::MAX {
            Err(data_error(name))
        } else {
            Ok::<usize, Error>(value as usize)
        }),
{
    match usize::try_from(value) {
        Ok(value) => Ok(value),
        Err(_) => Err(invalid_data(name)),
    }
}

pub fn checked_u32(value: usize, name: &'static str) -> (result: Result<u32, Error>)
    ensures
        result == (if value > u32::MAX {
            Err(data_error(name))
        } else {
            Ok::<u32, Error>(value as u32)
        }),
{
    match u32::try_from(value) {
        Ok(value) => Ok(value),
        Err(_) => Err(invalid_data(name)),
    }
}

/// A buffer of zero bytes.
pub fn zeroed_vec(len: usize) -> (bytes: Vec<u8>)
    ensures
        bytes@ == Seq::new(len as nat, |i: int| 0u8),
{
    let bytes: Vec<u8> = vec![0u8; len];
    assert(bytes@ =~= Seq::new(len as nat, |i: int| 0u8));
    bytes
}

pub open spec fn require_result(condition: bool, name: &'static str) -> Result<(), Error> {
    if condition {
        Ok(())
    } else {
        Err(data_error(name))
    }
}

pub fn require_len(bytes: &[u8], expected: usize, name: &'static str) -> (result: Result<
    (),
    Error,
>)
    ensures
        result == require_result(bytes@.len() == expected, name),
{
    if bytes.len() != expected {
        return Err(invalid_data(name));
    }
    Ok(())
}

pub fn require_count(actual: usize, expected: u32, name: &'static str) -> (result: Result<
    (),
    Error,
>)
    ensures
        result == require_result(actual == expected, name),
{
    if actual != expected as usize {
        return Err(invalid_data(name));
    }
    Ok(())
}

pub fn require_eq_u16(actual: u16, expected: u16, name: &'static str) -> (result: Result<
    (),
    Error,
>)
    ensures
        result == require_result(actual == expected, name),
{
    if actual != expected {
        return Err(invalid_data(name));
    }
    Ok(())
}

pub fn require_eq_u32(actual: u32, expected: u32, name: &'static str) -> (result: Result<
    (),
    Error,
>)
    ensures
        result == require_result(actual == expected, name),
{
    if actual != expected {
        return Err(invalid_data(name));
    }
    Ok(())
}

pub fn require_zero_u16(value: u16, name: &'static str) -> (result: Result<(), Error>)
    ensures
        result == require_result(value == 0, name),
{
    require_eq_u16(value, 0, name)
}

pub fn require_zero_u32(value: u32, name: &'static str) -> (result: Result<(), Error>)
    ensures
        result == require_result(value == 0, name),
{
    require_eq_u32(value, 0, name)
}

/// A header that was encoded decodes to itself.
pub proof fn header_round_trip_law(bytes: Seq<u8>, header: SeriesHeaderV3)
    requires
        header_result(header) is Ok,
        encodes_header(bytes, header),
    ensures
        decode_header_result(bytes) == Ok::<SeriesHeaderV3, Error>(header),
{
    reveal(encodes_header);
}

/// A header that decodes is valid, and its bytes are an encoding of it.
pub proof fn header_decode_law(bytes: Seq<u8>)
    requires
        decode_header_result(bytes) is Ok,
    ensures
        header_result(decode_header_result(bytes)->Ok_0) is Ok,
        encodes_header(bytes, decode_header_result(bytes)->Ok_0),
{
    reveal(encodes_header);
}

/// The header with another root checksum.
pub open spec fn with_root_crc(header: SeriesHeaderV3, root_crc32c: u32) -> SeriesHeaderV3 {
    SeriesHeaderV3 { root_crc32c, ..header }
}

/// The checksum plays no part in whether a header is valid.
pub proof fn lemma_result_without_crc(header: SeriesHeaderV3, crc: u32)
    ensures
        header_result(with_root_crc(header, crc)) == header_result(header),
{
}

/// Storing a checksum in an encoded header replaces that field alone.
pub proof fn root_crc_field_law(bytes: Seq<u8>, header: SeriesHeaderV3, crc: u32)
    requires
        encodes_header(bytes, header),
    ensures
        encodes_header(splice(bytes, 52, u32_bytes(crc)), with_root_crc(header, crc)),
{
    reveal(encodes_header);
    let after = splice(bytes, 52, u32_bytes(crc));
    lemma_u32_bytes_value(crc);
    assert(after.subrange(52, 56) =~= u32_bytes(crc).subrange(0, 4));
    lemma_u32_at_window(after, 52, u32_bytes(crc), 0);
    assert(header_fields(after) == with_root_crc(header, crc));
    assert(header_preamble_result(after) == header_preamble_result(bytes));
}

/// The sections of a valid header follow each other without a gap: the root
/// ends at the next page boundary behind its directory, the hot pages follow
/// the root, the cold sections follow the hot pages and end the file.
pub proof fn section_layout_law(header: SeriesHeaderV3)
    requires
        header_result(header) is Ok,
    ensures
        header.directory_offset == 176,
        header.directory_len == 16 * (header.page_count + header.cold_page_count),
        header.hot_pages_offset % 4_096 == 0,
        header.directory_offset + header.directory_len <= header.hot_pages_offset
            < header.directory_offset + header.directory_len + 4_096,
        header.hot_pages_len == 16_384 * header.page_count,
        header.keysets_offset == header.hot_pages_offset + header.hot_pages_len,
        header.value_dicts_offset == header.keysets_offset + header.keysets_len,
        header.keyset_blocks_offset == header.value_dicts_offset + header.value_dicts_len,
        header.file_len == header.keyset_blocks_offset + header.keyset_blocks_len,
        cold_bytes_result(header) == Ok::<u64, Error>(
            (header.file_len - header.keysets_offset) as u64,
        ),
        header.cold_page_count >= 1,
{
    lemma_layout_fits(
        header.num_series,
        header.keysets_len,
        header.value_dicts_len,
        header.keyset_blocks_len,
    );
}

/// Every offset of a derived layout fits its field.
proof fn lemma_layout_fits(
    num_series: u32,
    keysets_len: u64,
    value_dicts_len: u64,
    keyset_blocks_len: u64,
)
    requires
        layout_result(num_series, keysets_len, value_dicts_len, keyset_blocks_len) is Ok,
    ensures
        ({
            let cold_bytes = keysets_len + value_dicts_len + keyset_blocks_len;
            let pages = ceil_div(num_series as int, 409);
            let cold_pages = ceil_div(cold_bytes, 16_384);
            let hot_offset = align_up(176 + 16 * (pages + cold_pages), 4_096);
            &&& 0 <= pages <= u32::MAX
            &&& 0 <= cold_pages
            &&& 176 + 16 * (pages + cold_pages) <= hot_offset
            &&& hot_offset + 16_384 * pages + cold_bytes <= u64::MAX
        }),
{
}

/// The hot pages of a valid header hold every series once: each page is full
/// but the last, which ends at the series count.
pub proof fn hot_page_cover_law(header: SeriesHeaderV3, page_index: u32)
    requires
        header_result(header) is Ok,
        page_index < header.page_count,
    ensures
        hot_record_count_result(header, page_index) is Ok,
        ({
            let count = hot_record_count_result(header, page_index)->Ok_0;
            &&& 1 <= count <= 409
            &&& page_index * 409 + count <= header.num_series
            &&& page_index + 1 < header.page_count ==> count == 409
            &&& page_index + 1 == header.page_count ==> page_index * 409 + count
                == header.num_series
        }),
{
}

/// The cold pages of a valid header hold every cold byte once: each page is
/// full but the last, which ends at the end of the cold bytes.
pub proof fn cold_page_cover_law(header: SeriesHeaderV3, page_index: u32)
    requires
        header_result(header) is Ok,
        page_index < header.cold_page_count,
    ensures
        cold_page_len_result(header, page_index) is Ok,
        ({
            let len = cold_page_len_result(header, page_index)->Ok_0;
            let total = cold_bytes_result(header)->Ok_0;
            &&& 1 <= len <= 16_384
            &&& page_index * 16_384 + len <= total
            &&& page_index + 1 < header.cold_page_count ==> len == 16_384
            &&& page_index + 1 == header.cold_page_count ==> page_index * 16_384 + len == total
        }),
{
}

} // verus!
