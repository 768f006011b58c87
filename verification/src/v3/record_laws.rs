//! Which hot records and hot pages there are, said of their numbers and bytes.

use vstd::prelude::*;

use super::header::SeriesHeaderV3;
use super::header_laws::{page_share_law, sound_header, sound_header_law};
use super::hot::{
    context_of, decode_record_result, encodes_record, kind_bit_of, record_result,
    record_round_trip_law, InlineChunkV3, OverflowChunksV3, SeriesHotLocationV3, SeriesHotV3,
    SeriesHotV3Context, SERIES_HOT_PAGE_MAGIC_V1,
};
use super::page::{
    decode_page_header_result, encodable_page_result, encodes_page_header, page_bytes_result,
    records_result, SeriesHotPageHeaderV1,
};
use super::root::SeriesHotPageDescriptorV1;
use crate::bytes::{u16_at, u32_at, u64_at};
use crate::checksum::crc32c_of;
use crate::chunk::kind_of;
use crate::error::Error;

verus! {

/// The one chunk of a record: of the kind that the mask names, inside its segment
/// and its file, with room for its header and its lane.
pub open spec fn sound_inline(
    kind_mask: u8,
    inline: InlineChunkV3,
    context: SeriesHotV3Context,
) -> bool {
    &&& kind_of(inline.chunk_kind) is Some
    &&& kind_mask == kind_bit_of(inline.chunk_kind)
    &&& inline.file_id < 2
    &&& inline.scalar_lane_len == 0 || 16 <= inline.scalar_lane_len < 0x20_0000
        && inline.chunk_kind >= 2
    &&& 40 + inline.scalar_lane_len <= inline.chunk_length
    &&& inline.min_time_delta_ms <= inline.max_time_delta_ms
    &&& context.segment_start_ms + inline.max_time_delta_ms < context.segment_end_ms
    &&& inline.file_offset + inline.chunk_length
        <= context.chunk_file_lens@[inline.file_id as int]
}

/// The blob of a record: of its own length, between the root and the end of the
/// chunk index.
pub open spec fn sound_blob(overflow: OverflowChunksV3, context: SeriesHotV3Context) -> bool {
    &&& overflow.chunk_count > 0
    &&& overflow.blob_len == 32 + 44 * overflow.chunk_count
    &&& 64 <= overflow.blob_offset
    &&& overflow.blob_offset + overflow.blob_len <= context.chunk_index_file_len
}

/// A record of a series in its segment.
pub open spec fn sound_record(record: SeriesHotV3, context: SeriesHotV3Context) -> bool {
    &&& 1 <= record.kind_mask < 32
    &&& context.segment_start_ms < context.segment_end_ms
    &&& context.chunk_index_file_len >= 64
    &&& match record.location {
        SeriesHotLocationV3::Inline(inline) => sound_inline(record.kind_mask, inline, context),
        SeriesHotLocationV3::Overflow(overflow) => sound_blob(overflow, context),
    }
}

/// A record is valid exactly where it is sound.
pub proof fn sound_record_law(record: SeriesHotV3, context: SeriesHotV3Context)
    ensures
        record_result(record, context) is Ok <==> sound_record(record, context),
{
}

/// The numbers of a record stand at their places in its bytes. The word at 16
/// holds the kinds, and for a chunk in the record its kind, file and lane.
pub open spec fn record_at(bytes: Seq<u8>, record: SeriesHotV3) -> bool {
    &&& u64_at(bytes, 0) == record.series_id
    &&& u32_at(bytes, 8) == record.keyset_id
    &&& u32_at(bytes, 12) == record.row
    &&& match record.location {
        SeriesHotLocationV3::Inline(inline) => {
            &&& u32_at(bytes, 16) == record.kind_mask + 32 * inline.chunk_kind + 256
                * inline.file_id + 512 + 2_048 * inline.scalar_lane_len
            &&& u32_at(bytes, 20) == inline.min_time_delta_ms
            &&& u32_at(bytes, 24) == inline.max_time_delta_ms
            &&& u32_at(bytes, 28) == inline.file_offset
            &&& u32_at(bytes, 32) == inline.chunk_length
            &&& u32_at(bytes, 36) == inline.indexed_prefix_crc32c
        },
        SeriesHotLocationV3::Overflow(overflow) => {
            &&& u32_at(bytes, 16) == record.kind_mask + 1_024
            &&& u64_at(bytes, 20) == overflow.blob_offset
            &&& u32_at(bytes, 28) == overflow.blob_len
            &&& u32_at(bytes, 32) == overflow.chunk_count
            &&& u32_at(bytes, 36) == 0
        },
    }
}

proof fn lemma_control(control: u32)
    ensures
        control == control % 32 + 32 * (control / 32 % 8) + 256 * (control / 256 % 2) + 512 * (
        control / 512 % 4) + 2_048 * (control / 2_048),
{
    assert(control / 32 == control / 256 * 8 + control / 32 % 8) by (bit_vector);
    assert(control / 256 == control / 512 * 2 + control / 256 % 2) by (bit_vector);
    assert(control / 512 == control / 2_048 * 4 + control / 512 % 4) by (bit_vector);
}

/// A record is written as, and read from, exactly the bytes that hold it.
pub proof fn record_bytes_law(bytes: Seq<u8>, record: SeriesHotV3, context: SeriesHotV3Context)
    ensures
        encodes_record(bytes, record) <==> bytes.len() == 40 && record_at(bytes, record),
        decode_record_result(bytes, context) == Ok::<SeriesHotV3, Error>(record) <==> bytes.len()
            == 40 && record_at(bytes, record) && sound_record(record, context),
{
    reveal(encodes_record);
    sound_record_law(record, context);
    if bytes.len() == 40 && record_at(bytes, record) && sound_record(record, context) {
        record_round_trip_law(bytes, record, context);
    }
    if decode_record_result(bytes, context) == Ok::<SeriesHotV3, Error>(record) {
        reveal(decode_record_result);
        lemma_control(u32_at(bytes, 16));
    }
}

proof fn lemma_sound_records(
    records: Seq<SeriesHotV3>,
    context: SeriesHotV3Context,
    n: nat,
)
    requires
        n <= records.len(),
    ensures
        records_result(records, context, n) is Ok <==> forall|i: int|
            0 <= i < n ==> sound_record(#[trigger] records[i], context),
    decreases n,
{
    if n > 0 {
        lemma_sound_records(records, context, (n - 1) as nat);
        sound_record_law(records[n - 1], context);
    }
}

/// A page is written exactly where the header is sound, has this page, and the
/// records are those of the page, all sound.
pub proof fn written_page_law(
    header: SeriesHeaderV3,
    page_index: u32,
    records: Seq<SeriesHotV3>,
    chunk_file_lens: [u64; 2],
)
    ensures
        encodable_page_result(header, page_index, records, chunk_file_lens) is Ok <==> {
            &&& sound_header(header)
            &&& page_index < header.page_count
            &&& records.len() == (if header.num_series - 409 * page_index < 409 {
                header.num_series - 409 * page_index
            } else {
                409
            })
            &&& forall|i: int|
                0 <= i < records.len() ==> sound_record(
                    #[trigger] records[i],
                    SeriesHotV3Context {
                        segment_start_ms: header.segment_start_ms,
                        segment_end_ms: header.segment_end_ms,
                        chunk_file_lens,
                        chunk_index_file_len: header.chunk_index_file_len,
                    },
                )
        },
{
    sound_header_law(header);
    lemma_sound_records(records, context_of(header, chunk_file_lens), records.len());
    if sound_header(header) && page_index < header.page_count {
        page_share_law(header, page_index);
    }
}

/// The descriptor of a page: its place among the series, and how many it holds.
pub open spec fn describes_page(
    header: SeriesHeaderV3,
    page_index: u32,
    first_series_ref: u32,
    record_count: u32,
) -> bool {
    &&& page_index < header.page_count
    &&& first_series_ref == 409 * page_index
    &&& record_count == (if header.num_series - 409 * page_index < 409 {
        header.num_series - 409 * page_index
    } else {
        409
    })
}

/// The header of a hot page stands at its start.
pub open spec fn page_header_at(
    bytes: Seq<u8>,
    page_index: u32,
    first_series_ref: u32,
    record_count: u32,
) -> bool {
    &&& u32_at(bytes, 0) == SERIES_HOT_PAGE_MAGIC_V1
    &&& u16_at(bytes, 4) == 1
    &&& u16_at(bytes, 6) == 0
    &&& u32_at(bytes, 8) == page_index
    &&& u32_at(bytes, 12) == first_series_ref
    &&& u32_at(bytes, 16) == record_count
    &&& u32_at(bytes, 20) == 0
}

/// A page header is written as, and read from, exactly the bytes that hold it.
pub proof fn page_header_law(bytes: Seq<u8>, header: SeriesHotPageHeaderV1)
    ensures
        encodes_page_header(bytes, header) <==> bytes.len() == 24 && page_header_at(
            bytes,
            header.page_index,
            header.first_series_ref,
            header.record_count,
        ),
        decode_page_header_result(bytes) == Ok::<SeriesHotPageHeaderV1, Error>(header)
            <==> encodes_page_header(bytes, header),
{
}

/// The bytes of a page are authentic exactly where they have the checksum of the
/// descriptor, begin with the header that the descriptor names, and end in zeros
/// behind the records.
pub proof fn authentic_bytes_law(
    header: SeriesHeaderV3,
    page_index: u32,
    descriptor: SeriesHotPageDescriptorV1,
    bytes: Seq<u8>,
)
    ensures
        ({
            let page = page_bytes_result(header, page_index, descriptor, bytes);
            &&& page is Ok <==> {
                &&& sound_header(header)
                &&& bytes.len() == 16_384
                &&& describes_page(
                    header,
                    page_index,
                    descriptor.first_series_ref,
                    descriptor.record_count,
                )
                &&& crc32c_of(bytes) == descriptor.page_crc32c
                &&& page_header_at(
                    bytes,
                    page_index,
                    descriptor.first_series_ref,
                    descriptor.record_count,
                )
                &&& forall|i: int|
                    24 + 40 * descriptor.record_count <= i < 16_384 ==> #[trigger] bytes[i] == 0
            }
            &&& page matches Ok(page) ==> {
                &&& page.page_index == page_index
                &&& page.first_series_ref == descriptor.first_series_ref
                &&& page.record_count == descriptor.record_count
            }
        }),
{
    sound_header_law(header);
    if sound_header(header) && page_index < header.page_count {
        page_share_law(header, page_index);
        assert(409 * page_index <= 409 * (header.page_count - 1));
    }
    if bytes.len() == 16_384 {
        let start = bytes.subrange(0, 24);
        assert(u32_at(start, 0) == u32_at(bytes, 0));
        assert(u16_at(start, 4) == u16_at(bytes, 4));
        assert(u16_at(start, 6) == u16_at(bytes, 6));
        assert(u32_at(start, 8) == u32_at(bytes, 8));
        assert(u32_at(start, 12) == u32_at(bytes, 12));
        assert(u32_at(start, 16) == u32_at(bytes, 16));
        assert(u32_at(start, 20) == u32_at(bytes, 20));
    }
}

} // verus!
