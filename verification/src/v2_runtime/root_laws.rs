//! Which series files can be opened, said of their first bytes.

use vstd::prelude::*;

use super::{load_root6_result, SeriesSession6};
use crate::bytes::{u16_at, u32_at, u64_at};
use crate::v3::header::SERIES_MAGIC;

verus! {

/// A section between two offsets has room for its own offsets: one for each
/// entry, and the end of the last.
pub open spec fn holds_offsets(start: u64, end: u64, count: u32) -> bool {
    start + 8 * (count + 1) <= end
}

/// The fixed words of the header are those of a version 2 series file.
pub open spec fn version_two(series: Seq<u8>) -> bool {
    &&& u32_at(series, 0) == SERIES_MAGIC
    &&& u16_at(series, 4) == 2
    &&& u16_at(series, 6) == 0
    &&& u32_at(series, 20) == 0
    &&& u64_at(series, 24) == 64
}

/// The counts of the header agree with each other, with the number of series that
/// is expected, and with the length of the chunk index.
pub open spec fn sound_counts(session: SeriesSession6) -> bool {
    let num_series = u32_at(session.series, 8);
    let num_keysets = u32_at(session.series, 12);
    let num_dicts = u32_at(session.series, 16);
    &&& num_series == session.expected_num_series
    &&& num_keysets <= num_series
    &&& num_series > 0 ==> num_keysets > 0
    &&& num_series == 0 ==> num_dicts == 0
    &&& 12 + 8 * (num_series + 1) <= session.chunk_index_len
}

/// The sections follow the table and each other and end with the file.
pub open spec fn sound_sections(session: SeriesSession6) -> bool {
    let series = session.series;
    let keysets = u64_at(series, 32);
    let dicts = u64_at(series, 40);
    let blocks = u64_at(series, 48);
    &&& keysets == 64 + 40 * u32_at(series, 8)
    &&& holds_offsets(keysets, dicts, u32_at(series, 12))
    &&& holds_offsets(dicts, blocks, u32_at(series, 16))
    &&& holds_offsets(blocks, u64_at(series, 56), u32_at(series, 12))
    &&& u64_at(series, 56) == series.len()
}

/// A segment is opened exactly where its header is sound, and its root then holds
/// what the header says.
pub proof fn sound_root_law(session: SeriesSession6)
    requires
        session.series.len() <= u64::MAX,
    ensures
        ({
            let root = load_root6_result(session);
            let series = session.series;
            &&& root is Ok <==> series.len() >= 64 && version_two(series) && sound_counts(session)
                && sound_sections(session)
            &&& root matches Ok(root) ==> {
                &&& root.generation == session.generation
                &&& root.value.series_file_len == series.len()
                &&& root.value.chunk_index_file_len == session.chunk_index_len
                &&& root.value.header.num_series == u32_at(series, 8)
                &&& root.value.header.num_keysets == u32_at(series, 12)
                &&& root.value.header.num_value_dicts == u32_at(series, 16)
                &&& root.value.header.keysets_offset == u64_at(series, 32)
                &&& root.value.header.value_dicts_offset == u64_at(series, 40)
                &&& root.value.header.keyset_blocks_offset == u64_at(series, 48)
                &&& root.value.header.meta_offset == u64_at(series, 56)
            }
            &&& root matches Err(error) ==> error is Cache
            &&& series.len() < 64 ==> root->Err_0->Cache_0.kind is UnexpectedEof
        }),
{
    if session.series.len() >= 64 {
        lemma_header_fields(session.series);
    }
}

proof fn lemma_header_fields(series: Seq<u8>)
    requires
        series.len() >= 64,
    ensures
        ({
            let bytes = series.subrange(0, 64);
            &&& bytes.len() == 64
            &&& u32_at(bytes, 0) == u32_at(series, 0)
            &&& u16_at(bytes, 4) == u16_at(series, 4)
            &&& u16_at(bytes, 6) == u16_at(series, 6)
            &&& u32_at(bytes, 8) == u32_at(series, 8)
            &&& u32_at(bytes, 12) == u32_at(series, 12)
            &&& u32_at(bytes, 16) == u32_at(series, 16)
            &&& u32_at(bytes, 20) == u32_at(series, 20)
            &&& u64_at(bytes, 24) == u64_at(series, 24)
            &&& u64_at(bytes, 32) == u64_at(series, 32)
            &&& u64_at(bytes, 40) == u64_at(series, 40)
            &&& u64_at(bytes, 48) == u64_at(series, 48)
            &&& u64_at(bytes, 56) == u64_at(series, 56)
        }),
{
}

} // verus!
