//! Which headers there are, said of their numbers and of their bytes.

use vstd::prelude::*;

use super::header::{
    align_up, ceil_div, cold_page_len_result, decode_header_result, encodes_header, header_fields,
    header_of, header_result, hot_record_count_result, layout_result, new_header_result,
    SeriesHeaderV3, SeriesHeaderV3Params, SERIES_MAGIC,
};
use crate::bytes::{u16_at, u32_at, u64_at};
use crate::error::Error;

verus! {

/// As many units as are needed to hold an amount, and no more.
pub open spec fn just_covers(units: int, unit: int, amount: int) -> bool {
    unit * (units - 1) < amount <= unit * units
}

/// The sections of a header follow each other: the directory, the hot pages on
/// the next boundary of 4096 bytes, the three sections of the cold stream.
pub open spec fn sections_follow(header: SeriesHeaderV3) -> bool {
    let directory_end = header.directory_offset + header.directory_len;
    &&& header.directory_offset == 176
    &&& header.directory_len == 16 * (header.page_count + header.cold_page_count)
    &&& header.hot_pages_offset % 4_096 == 0
    &&& directory_end <= header.hot_pages_offset < directory_end + 4_096
    &&& header.hot_pages_len == 16_384 * header.page_count
    &&& header.keysets_offset == header.hot_pages_offset + header.hot_pages_len
    &&& header.value_dicts_offset == header.keysets_offset + header.keysets_len
    &&& header.keyset_blocks_offset == header.value_dicts_offset + header.value_dicts_len
    &&& header.file_len == header.keyset_blocks_offset + header.keyset_blocks_len
}

/// The header of a segment: a time range, sections that hold at least their own
/// offsets, and just enough pages for its series and for its cold stream.
pub open spec fn sound_header(header: SeriesHeaderV3) -> bool {
    &&& header.segment_start_ms < header.segment_end_ms
    &&& header.chunk_index_file_len >= 64
    &&& header.keysets_len >= 8 * (header.num_keysets + 1)
    &&& header.value_dicts_len >= 8 * (header.num_value_dicts + 1)
    &&& header.keyset_blocks_len >= 8 * (header.num_keysets + 1)
    &&& if header.num_series == 0 {
        &&& header.num_keysets == 0
        &&& header.num_value_dicts == 0
        &&& header.keysets_len == 8
        &&& header.value_dicts_len == 8
        &&& header.keyset_blocks_len == 8
        &&& header.chunk_index_file_len == 64
        &&& header.page_count == 0
    } else {
        &&& 1 <= header.num_keysets <= header.num_series
        &&& just_covers(header.page_count as int, 409, header.num_series as int)
    }
    &&& just_covers(
        header.cold_page_count as int,
        16_384,
        header.file_len - header.keysets_offset,
    )
    &&& sections_follow(header)
}

proof fn lemma_covers(units: int, unit: int, amount: int)
    requires
        unit == 409 || unit == 16_384,
        amount > 0,
    ensures
        just_covers(units, unit, amount) <==> units == ceil_div(amount, unit),
{
    let n = ceil_div(amount, unit);
    let q = (amount - 1) / unit;
    vstd::arithmetic::div_mod::lemma_fundamental_div_mod(amount - 1, unit);
    vstd::arithmetic::div_mod::lemma_mod_bound(amount - 1, unit);
    assert(n == 1 + q);
    assert(unit * n == unit * q + unit) by (nonlinear_arith)
        requires
            n == 1 + q,
    ;
    if just_covers(units, unit, amount) && units != n {
        if units < n {
            assert(unit * units <= unit * (n - 1)) by (nonlinear_arith)
                requires
                    units <= n - 1,
                    unit > 0,
            ;
        } else {
            assert(unit * n <= unit * (units - 1)) by (nonlinear_arith)
                requires
                    n <= units - 1,
                    unit > 0,
            ;
        }
    }
}

proof fn lemma_aligned(at: int, end: int)
    requires
        0 <= at,
        0 <= end,
    ensures
        at % 4_096 == 0 && end <= at < end + 4_096 <==> at == align_up(end, 4_096),
{
}

/// A header is valid exactly where it is sound.
pub proof fn sound_header_law(header: SeriesHeaderV3)
    ensures
        header_result(header) is Ok <==> sound_header(header),
{
    let total = header.keysets_len + header.value_dicts_len + header.keyset_blocks_len;
    if header.num_series > 0 {
        lemma_covers(header.page_count as int, 409, header.num_series as int);
    }
    if total > 0 {
        lemma_covers(header.cold_page_count as int, 16_384, total);
    }
    lemma_aligned(
        header.hot_pages_offset as int,
        176 + 16 * (header.page_count + header.cold_page_count),
    );
    if sound_header(header) {
        assert(total == header.file_len - header.keysets_offset);
        let pages = ceil_div(header.num_series as int, 409);
        assert(pages == header.page_count);
        let cold_pages = ceil_div(total, 16_384);
        assert(cold_pages == header.cold_page_count);
    }
    if header_result(header) is Ok {
        let layout = layout_result(
            header.num_series,
            header.keysets_len,
            header.value_dicts_len,
            header.keyset_blocks_len,
        )->Ok_0;
        let pages = ceil_div(header.num_series as int, 409);
        let cold_pages = ceil_div(total, 16_384);
        assert(0 <= pages <= u32::MAX);
        assert(pages == layout.page_count);
        assert(cold_pages == layout.cold_page_count);
        assert(total <= 16_384 * cold_pages);
    }
}

/// The header is made for these parameters.
pub open spec fn has_params(header: SeriesHeaderV3, params: SeriesHeaderV3Params) -> bool {
    &&& header.num_series == params.num_series
    &&& header.num_keysets == params.num_keysets
    &&& header.num_value_dicts == params.num_value_dicts
    &&& header.chunk_index_root_crc32c == params.chunk_index_root_crc32c
    &&& header.keysets_len == params.keysets_len
    &&& header.value_dicts_len == params.value_dicts_len
    &&& header.keyset_blocks_len == params.keyset_blocks_len
    &&& header.segment_start_ms == params.segment_start_ms
    &&& header.segment_end_ms == params.segment_end_ms
    &&& header.chunk_index_file_len == params.chunk_index_file_len
    &&& header.root_crc32c == 0
}

/// A header is made exactly where a sound one has the parameters, and it is that
/// one.
pub proof fn new_header_law(params: SeriesHeaderV3Params, header: SeriesHeaderV3)
    ensures
        new_header_result(params) == Ok::<SeriesHeaderV3, Error>(header) <==> sound_header(header)
            && has_params(header, params),
{
    sound_header_law(header);
    if let Ok(layout) = layout_result(
        params.num_series,
        params.keysets_len,
        params.value_dicts_len,
        params.keyset_blocks_len,
    ) {
        sound_header_law(header_of(params, layout));
    }
}

/// The numbers of a header stand at their places in its bytes.
pub open spec fn header_at(bytes: Seq<u8>, header: SeriesHeaderV3) -> bool {
    &&& u32_at(bytes, 32) == header.num_series
    &&& u32_at(bytes, 36) == header.page_count
    &&& u32_at(bytes, 40) == header.num_keysets
    &&& u32_at(bytes, 44) == header.num_value_dicts
    &&& u32_at(bytes, 48) == header.chunk_index_root_crc32c
    &&& u32_at(bytes, 52) == header.root_crc32c
    &&& u32_at(bytes, 60) == header.cold_page_count
    &&& u64_at(bytes, 64) == header.directory_offset
    &&& u64_at(bytes, 72) == header.directory_len
    &&& u64_at(bytes, 80) == header.hot_pages_offset
    &&& u64_at(bytes, 88) == header.hot_pages_len
    &&& u64_at(bytes, 96) == header.keysets_offset
    &&& u64_at(bytes, 104) == header.keysets_len
    &&& u64_at(bytes, 112) == header.value_dicts_offset
    &&& u64_at(bytes, 120) == header.value_dicts_len
    &&& u64_at(bytes, 128) == header.keyset_blocks_offset
    &&& u64_at(bytes, 136) == header.keyset_blocks_len
    &&& u64_at(bytes, 144) == header.segment_start_ms
    &&& u64_at(bytes, 152) == header.segment_end_ms
    &&& u64_at(bytes, 160) == header.chunk_index_file_len
    &&& u64_at(bytes, 168) == header.file_len
}

/// The fixed words of a version 3 header.
pub open spec fn version_three(bytes: Seq<u8>) -> bool {
    &&& bytes.len() == 176
    &&& u32_at(bytes, 0) == SERIES_MAGIC
    &&& u16_at(bytes, 4) == 3
    &&& u16_at(bytes, 6) == 0
    &&& u32_at(bytes, 8) == 176
    &&& u32_at(bytes, 12) == 16
    &&& u32_at(bytes, 16) == 16_384
    &&& u32_at(bytes, 20) == 24
    &&& u32_at(bytes, 24) == 40
    &&& u32_at(bytes, 28) == 409
    &&& u32_at(bytes, 56) == 16_384
}

/// A header is written as, and read from, exactly the bytes that hold it.
pub proof fn header_bytes_law(bytes: Seq<u8>, header: SeriesHeaderV3)
    ensures
        encodes_header(bytes, header) <==> version_three(bytes) && header_at(bytes, header),
        decode_header_result(bytes) == Ok::<SeriesHeaderV3, Error>(header) <==> version_three(bytes)
            && header_at(bytes, header) && sound_header(header),
{
    reveal(encodes_header);
    sound_header_law(header);
    sound_header_law(header_fields(bytes));
    if header_at(bytes, header) {
        assert(header_fields(bytes) == header);
    }
}

/// Every page but the last is full: page `i` holds the records from `409 * i` on.
pub proof fn page_share_law(header: SeriesHeaderV3, page_index: u32)
    requires
        sound_header(header),
        page_index < header.page_count,
    ensures
        ({
            let rest = header.num_series - 409 * page_index;
            hot_record_count_result(header, page_index) == Ok::<u32, Error>(
                if rest < 409 {
                    rest as u32
                } else {
                    409
                },
            )
        }),
{
    assert(409 * page_index <= 409 * (header.page_count - 1));
}

/// Every page of the cold stream but the last is full.
pub proof fn cold_share_law(header: SeriesHeaderV3, page_index: u32)
    requires
        sound_header(header),
        page_index < header.cold_page_count,
    ensures
        ({
            let rest = header.file_len - header.keysets_offset - 16_384 * page_index;
            cold_page_len_result(header, page_index) == Ok::<u32, Error>(
                if rest < 16_384 {
                    rest as u32
                } else {
                    16_384
                },
            )
        }),
{
    assert(16_384 * page_index <= 16_384 * (header.cold_page_count - 1));
}

} // verus!
