//! The fixed root and the series table of `series.bin`, version 2.

use vstd::prelude::*;

use crate::bytes::{read_u16, read_u32, read_u64, u16_at, u32_at, u64_at};
use crate::chunk::ChunkIndexRange;
use crate::cold_v2::reader::{
    table_minimum_result, validate_offset_table_minimum, ColdSectionName,
};
use crate::error::{
    data_error, eof_error, invalid_data, unexpected_eof, Error,
};
use crate::v3::classifier::VALID_KIND_MASK;
use crate::v3::header::SERIES_MAGIC;

verus! {

pub const SERIES_VERSION_V2: u16 = 2;

pub const SERIES_HEADER_LEN: u64 = 64;

pub const SERIES_TABLE_ENTRY_LEN: u64 = 40;

pub const CHUNK_INDEX_HEADER_LEN_V1: u64 = 12;

pub const CHUNK_INDEX_ENTRY_LEN_V1: u64 = 40;

/// The counts and section offsets of the header.
#[derive(Debug, Clone, Copy, PartialEq, Eq, Structural)]
pub struct SeriesHeader {
    pub num_series: u32,
    pub num_keysets: u32,
    pub num_value_dicts: u32,
    pub series_table_offset: u64,
    pub keysets_offset: u64,
    pub value_dicts_offset: u64,
    pub keyset_blocks_offset: u64,
    pub meta_offset: u64,
}

/// One entry of the series table.
#[derive(Debug, Clone, Copy, PartialEq, Eq, Structural)]
pub struct SeriesTableEntryV2 {
    pub series_id: u64,
    pub kind_mask: u8,
    pub chunk_index: ChunkIndexRange,
    pub keyset_id: u32,
    pub row: u32,
    pub meta_off: u32,
    pub meta_len: u32,
}

/// Immutable facts from the exact series root.
#[derive(Debug, Clone, Copy, PartialEq, Eq, Structural)]
pub struct Schema6SeriesRootV2 {
    pub header: SeriesHeader,
    pub series_file_len: u64,
    pub chunk_index_file_len: u64,
    pub chunk_index_data_start: u64,
}

impl Schema6SeriesRootV2 {
    /// The logical bytes of the root.
    pub fn charged_bytes(self) -> (charge: u64)
        ensures
            charge == vstd::layout::size_of::<Schema6SeriesRootV2>(),
    {
        core::mem::size_of::<Self>() as u64
    }

    pub fn num_series(&self) -> (count: u32)
        ensures
            count == self.header.num_series,
    {
        self.header.num_series
    }
}

pub open spec fn header_v2_fields(bytes: Seq<u8>) -> SeriesHeader {
    SeriesHeader {
        num_series: u32_at(bytes, 8),
        num_keysets: u32_at(bytes, 12),
        num_value_dicts: u32_at(bytes, 16),
        series_table_offset: u64_at(bytes, 24),
        keysets_offset: u64_at(bytes, 32),
        value_dicts_offset: u64_at(bytes, 40),
        keyset_blocks_offset: u64_at(bytes, 48),
        meta_offset: u64_at(bytes, 56),
    }
}

pub open spec fn header_v2_result(bytes: Seq<u8>) -> Result<SeriesHeader, Error> {
    let header = header_v2_fields(bytes);
    if bytes.len() < 64 {
        Err(eof_error("series v2 header is truncated"))
    } else if bytes.len() > 64 {
        Err(data_error("series v2 header has trailing bytes"))
    } else if u32_at(bytes, 0) != SERIES_MAGIC {
        Err(data_error("series v2 magic mismatch"))
    } else if u16_at(bytes, 4) != 2 {
        Err(data_error("series v2 version mismatch"))
    } else if u16_at(bytes, 6) != 0 {
        Err(data_error("series v2 flags are nonzero"))
    } else if u32_at(bytes, 20) != 0 {
        Err(data_error("series v2 reserved field is nonzero"))
    } else if header.series_table_offset != 64 {
        Err(data_error("series v2 table does not follow the header"))
    } else if header.keysets_offset > header.value_dicts_offset || header.value_dicts_offset
        > header.keyset_blocks_offset || header.keyset_blocks_offset > header.meta_offset {
        Err(data_error("series v2 sections are out of order"))
    } else {
        Ok(header)
    }
}

/// Decodes an exact header.
pub fn decode_series_header_v2(bytes: &[u8]) -> (result: Result<SeriesHeader, Error>)
    ensures
        result == header_v2_result(bytes@),
{
    if bytes.len() < SERIES_HEADER_LEN as usize {
        return Err(unexpected_eof("series v2 header is truncated"));
    }
    if bytes.len() > SERIES_HEADER_LEN as usize {
        return Err(invalid_data("series v2 header has trailing bytes"));
    }
    if read_u32(bytes, 0) != SERIES_MAGIC {
        return Err(invalid_data("series v2 magic mismatch"));
    }
    if read_u16(bytes, 4) != SERIES_VERSION_V2 {
        return Err(invalid_data("series v2 version mismatch"));
    }
    if read_u16(bytes, 6) != 0 {
        return Err(invalid_data("series v2 flags are nonzero"));
    }
    if read_u32(bytes, 20) != 0 {
        return Err(invalid_data("series v2 reserved field is nonzero"));
    }
    let header = SeriesHeader {
        num_series: read_u32(bytes, 8),
        num_keysets: read_u32(bytes, 12),
        num_value_dicts: read_u32(bytes, 16),
        series_table_offset: read_u64(bytes, 24),
        keysets_offset: read_u64(bytes, 32),
        value_dicts_offset: read_u64(bytes, 40),
        keyset_blocks_offset: read_u64(bytes, 48),
        meta_offset: read_u64(bytes, 56),
    };
    if header.series_table_offset != SERIES_HEADER_LEN {
        return Err(invalid_data("series v2 table does not follow the header"));
    }
    if header.keysets_offset > header.value_dicts_offset || header.value_dicts_offset
        > header.keyset_blocks_offset || header.keyset_blocks_offset > header.meta_offset {
        return Err(invalid_data("series v2 sections are out of order"));
    }
    Ok(header)
}

pub open spec fn table_entry_fields(bytes: Seq<u8>) -> SeriesTableEntryV2 {
    SeriesTableEntryV2 {
        series_id: u64_at(bytes, 0),
        kind_mask: bytes[8],
        chunk_index: ChunkIndexRange { offset: u64_at(bytes, 12), len: u32_at(bytes, 20) },
        keyset_id: u32_at(bytes, 24),
        row: u32_at(bytes, 28),
        meta_off: u32_at(bytes, 32),
        meta_len: u32_at(bytes, 36),
    }
}

pub open spec fn table_entry_result(bytes: Seq<u8>) -> Result<SeriesTableEntryV2, Error> {
    if bytes.len() != 40 {
        Err(data_error("series v2 table entry length is not exact"))
    } else if bytes[9] != 0 {
        Err(data_error("series v2 table entry flags are nonzero"))
    } else if u16_at(bytes, 10) != 0 {
        Err(data_error("series v2 table entry reserved field is nonzero"))
    } else {
        Ok(table_entry_fields(bytes))
    }
}

/// Decodes an exact table entry.
pub fn decode_series_table_entry(bytes: &[u8]) -> (result: Result<SeriesTableEntryV2, Error>)
    ensures
        result == table_entry_result(bytes@),
{
    if bytes.len() != SERIES_TABLE_ENTRY_LEN as usize {
        return Err(invalid_data("series v2 table entry length is not exact"));
    }
    if bytes[9] != 0 {
        return Err(invalid_data("series v2 table entry flags are nonzero"));
    }
    if read_u16(bytes, 10) != 0 {
        return Err(invalid_data("series v2 table entry reserved field is nonzero"));
    }
    Ok(
        SeriesTableEntryV2 {
            series_id: read_u64(bytes, 0),
            kind_mask: bytes[8],
            chunk_index: ChunkIndexRange { offset: read_u64(bytes, 12), len: read_u32(bytes, 20) },
            keyset_id: read_u32(bytes, 24),
            row: read_u32(bytes, 28),
            meta_off: read_u32(bytes, 32),
            meta_len: read_u32(bytes, 36),
        },
    )
}

/// Where the entries of a chunk index begin behind its directory.
pub open spec fn chunk_data_start(num_series: u32) -> int {
    12 + 8 * (num_series + 1)
}

/// The root of a series file, checked against the lengths of both files.
pub open spec fn root_v2_result(
    bytes: Seq<u8>,
    series_file_len: u64,
    chunk_index_file_len: u64,
) -> Result<Schema6SeriesRootV2, Error> {
    match header_v2_result(bytes) {
        Err(error) => Err(error),
        Ok(header) => if header.keysets_offset != 64 + 40 * header.num_series {
            Err(
                data_error("schema-6 keysets section does not immediately follow the series table"),
            )
        } else if header.meta_offset != series_file_len {
            Err(
                data_error("schema-6 metadata offset must equal the registered series file length"),
            )
        } else if header.num_keysets > header.num_series {
            Err(data_error("schema-6 keyset count is inconsistent"))
        } else if header.num_series != 0 && header.num_keysets == 0 {
            Err(data_error("non-empty schema-6 series file has no keysets"))
        } else if header.num_series == 0 && header.num_value_dicts != 0 {
            Err(data_error("empty schema-6 series file has value dictionaries"))
        } else {
            match (
                table_minimum_result(
                    (header.value_dicts_offset - header.keysets_offset) as u64,
                    header.num_keysets,
                    ColdSectionName::Keysets,
                ),
                table_minimum_result(
                    (header.keyset_blocks_offset - header.value_dicts_offset) as u64,
                    header.num_value_dicts,
                    ColdSectionName::ValueDictionaries,
                ),
                table_minimum_result(
                    (header.meta_offset - header.keyset_blocks_offset) as u64,
                    header.num_keysets,
                    ColdSectionName::KeysetBlocks,
                ),
            ) {
                (Err(error), _, _) => Err(error),
                (_, Err(error), _) => Err(error),
                (_, _, Err(error)) => Err(error),
                (Ok(_), Ok(_), Ok(_)) => if chunk_index_file_len < chunk_data_start(
                    header.num_series,
                ) {
                    Err(
                        eof_error(
                            "schema-6 chunk-index file is shorter than its offsets directory",
                        ),
                    )
                } else {
                    Ok(
                        Schema6SeriesRootV2 {
                            header,
                            series_file_len,
                            chunk_index_file_len,
                            chunk_index_data_start: chunk_data_start(header.num_series) as u64,
                        },
                    )
                },
            }
        },
    }
}

/// Decodes and validates the fixed root.
pub fn decode_schema6_series_root_v2(
    bytes: &[u8],
    series_file_len: u64,
    chunk_index_file_len: u64,
) -> (result: Result<Schema6SeriesRootV2, Error>)
    ensures
        result == root_v2_result(bytes@, series_file_len, chunk_index_file_len),
{
    let header = decode_series_header_v2(bytes)?;
    let canonical_keysets_offset: u64 = SERIES_HEADER_LEN + header.num_series as u64
        * SERIES_TABLE_ENTRY_LEN;
    if header.keysets_offset != canonical_keysets_offset {
        return Err(
            invalid_data("schema-6 keysets section does not immediately follow the series table"),
        );
    }
    if header.meta_offset != series_file_len {
        return Err(
            invalid_data("schema-6 metadata offset must equal the registered series file length"),
        );
    }
    if header.num_keysets > header.num_series {
        return Err(invalid_data("schema-6 keyset count is inconsistent"));
    }
    if header.num_series != 0 && header.num_keysets == 0 {
        return Err(invalid_data("non-empty schema-6 series file has no keysets"));
    }
    if header.num_series == 0 && header.num_value_dicts != 0 {
        return Err(invalid_data("empty schema-6 series file has value dictionaries"));
    }
    validate_offset_table_minimum(
        header.value_dicts_offset - header.keysets_offset,
        header.num_keysets,
        ColdSectionName::Keysets,
    )?;
    validate_offset_table_minimum(
        header.keyset_blocks_offset - header.value_dicts_offset,
        header.num_value_dicts,
        ColdSectionName::ValueDictionaries,
    )?;
    validate_offset_table_minimum(
        header.meta_offset - header.keyset_blocks_offset,
        header.num_keysets,
        ColdSectionName::KeysetBlocks,
    )?;
    let chunk_index_data_start: u64 = CHUNK_INDEX_HEADER_LEN_V1 + (header.num_series as u64 + 1) * 8;
    if chunk_index_file_len < chunk_index_data_start {
        return Err(
            unexpected_eof("schema-6 chunk-index file is shorter than its offsets directory"),
        );
    }
    Ok(
        Schema6SeriesRootV2 {
            header,
            series_file_len,
            chunk_index_file_len,
            chunk_index_data_start,
        },
    )
}

/// An entry is one of a series of this file.
pub open spec fn valid_entry_result(
    entry: SeriesTableEntryV2,
    header: SeriesHeader,
    chunk_index_data_start: u64,
    chunk_index_file_len: u64,
) -> Result<(), Error> {
    let range = entry.chunk_index;
    if entry.kind_mask == 0 || entry.kind_mask & !VALID_KIND_MASK != 0 {
        Err(data_error("schema-6 series kind mask is invalid"))
    } else if entry.keyset_id >= header.num_keysets {
        Err(data_error("schema-6 series keyset id is out of bounds"))
    } else if entry.meta_off != 0 || entry.meta_len != 0 {
        Err(data_error("schema-6 series metadata offset and length must be zero"))
    } else if range.offset < chunk_index_data_start {
        Err(
            data_error("schema-6 series chunk-index span starts inside the offsets directory"),
        )
    } else if (range.offset - chunk_index_data_start) % 40 != 0 {
        Err(data_error("schema-6 series chunk-index span offset is not entry aligned"))
    } else if range.len % 40 != 0 {
        Err(data_error("schema-6 series chunk-index span length is not entry aligned"))
    } else if range.offset + range.len > u64::MAX {
        Err(data_error("schema-6 series chunk-index span overflows"))
    } else if range.offset + range.len > chunk_index_file_len {
        Err(eof_error("schema-6 series chunk-index span exceeds the registered file"))
    } else {
        Ok(())
    }
}

/// Checks a table entry against the root.
pub fn validate_series_table_entry(
    entry: SeriesTableEntryV2,
    header: SeriesHeader,
    chunk_index_data_start: u64,
    chunk_index_file_len: u64,
) -> (result: Result<(), Error>)
    ensures
        result == valid_entry_result(entry, header, chunk_index_data_start, chunk_index_file_len),
{
    if entry.kind_mask == 0 || entry.kind_mask & !VALID_KIND_MASK != 0 {
        return Err(invalid_data("schema-6 series kind mask is invalid"));
    }
    if entry.keyset_id >= header.num_keysets {
        return Err(invalid_data("schema-6 series keyset id is out of bounds"));
    }
    if entry.meta_off != 0 || entry.meta_len != 0 {
        return Err(invalid_data("schema-6 series metadata offset and length must be zero"));
    }
    if entry.chunk_index.offset < chunk_index_data_start {
        return Err(
            invalid_data("schema-6 series chunk-index span starts inside the offsets directory"),
        );
    }
    if (entry.chunk_index.offset - chunk_index_data_start) % CHUNK_INDEX_ENTRY_LEN_V1 != 0 {
        return Err(invalid_data("schema-6 series chunk-index span offset is not entry aligned"));
    }
    if entry.chunk_index.len as u64 % CHUNK_INDEX_ENTRY_LEN_V1 != 0 {
        return Err(invalid_data("schema-6 series chunk-index span length is not entry aligned"));
    }
    let end: u64 = match entry.chunk_index.offset.checked_add(entry.chunk_index.len as u64) {
        Some(end) => end,
        None => {
            return Err(invalid_data("schema-6 series chunk-index span overflows"));
        },
    };
    if end > chunk_index_file_len {
        return Err(unexpected_eof("schema-6 series chunk-index span exceeds the registered file"));
    }
    Ok(())
}

} // verus!
