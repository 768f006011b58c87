//! Which roots there are and which belong together, said of their bytes.

use vstd::prelude::*;

use super::cold_reader::cold_page_result;
use super::header::{section_layout_law, SeriesHeaderV3};
use super::header_laws::{
    cold_share_law, header_at, header_bytes_law, page_share_law, sound_header, sound_header_law,
    version_three,
};
use super::plan_laws::facts_of_header;
use super::record_laws::describes_page;
use super::root::{
    cold_descriptor_fields, cold_descriptor_result, cold_list_result, decode_cold_descriptor_result,
    decode_hot_descriptor_result, decode_root_result, descriptor_slot, hot_descriptor_fields,
    hot_descriptor_result, hot_list_result, root_crc_of, SeriesColdPageDescriptorV1,
    SeriesHotPageDescriptorV1, SeriesRoot,
};
use super::root_binding::{
    bind_result, Schema7OverflowBlobFacts, Schema7RootBindingContext, Schema7SeriesPageFacts,
};
use crate::bytes::{u16_at, u32_at, u64_at};
use crate::checksum::crc32c_of;
use crate::chunk::overflow::{
    crc_without, overflow_root_result, ChunkOverflowRootV2, CHUNK_OVERFLOW_ROOT_V2_MAGIC,
};
use crate::error::Error;

verus! {

/// The checksum of bytes in which the four bytes at a place count as zero.
pub open spec fn crc_with_hole(bytes: Seq<u8>, at: int) -> u32 {
    crc32c_of(
        Seq::new(
            bytes.len(),
            |i: int|
                if at <= i < at + 4 {
                    0u8
                } else {
                    bytes[i]
                },
        ),
    )
}

/// Both roots are protected by a checksum over all of their other bytes.
pub proof fn crc_hole_law(bytes: Seq<u8>, at: int)
    requires
        0 <= at,
        at + 4 <= bytes.len(),
    ensures
        crc_without(bytes, at) == crc_with_hole(bytes, at),
        at == 52 ==> root_crc_of(bytes) == crc_with_hole(bytes, 52),
{
    let holed = Seq::new(
        bytes.len(),
        |i: int|
            if at <= i < at + 4 {
                0u8
            } else {
                bytes[i]
            },
    );
    assert(bytes.subrange(0, at) + seq![0u8, 0u8, 0u8, 0u8] + bytes.subrange(
        at + 4,
        bytes.len() as int,
    ) =~= holed);
}

/// The descriptor of a hot page stands at its place in the directory.
pub open spec fn hot_at(
    bytes: Seq<u8>,
    header: SeriesHeaderV3,
    page_index: u32,
    descriptor: SeriesHotPageDescriptorV1,
) -> bool {
    let at = 176 + 16 * page_index;
    &&& u32_at(bytes, at) == descriptor.first_series_ref
    &&& u32_at(bytes, at + 4) == descriptor.record_count
    &&& u32_at(bytes, at + 8) == descriptor.page_crc32c
    &&& u32_at(bytes, at + 12) == 0
    &&& describes_page(
        header,
        page_index,
        descriptor.first_series_ref,
        descriptor.record_count,
    )
}

/// How much of the cold stream a page holds.
pub open spec fn cold_share(header: SeriesHeaderV3, page_index: u32) -> int {
    let rest = header.file_len - header.keysets_offset - 16_384 * page_index;
    if rest < 16_384 {
        rest
    } else {
        16_384
    }
}

/// The descriptor of a cold page stands behind those of the hot pages.
pub open spec fn cold_at(
    bytes: Seq<u8>,
    header: SeriesHeaderV3,
    page_index: u32,
    descriptor: SeriesColdPageDescriptorV1,
) -> bool {
    let at = 176 + 16 * (header.page_count + page_index);
    &&& u32_at(bytes, at) == descriptor.page_index == page_index
    &&& u32_at(bytes, at + 4) == descriptor.page_len == cold_share(header, page_index)
    &&& u32_at(bytes, at + 8) == descriptor.page_crc32c
    &&& u32_at(bytes, at + 12) == 0
}

/// The bytes are the root of a segment: its header, a descriptor for every page,
/// zeros up to the hot pages, and the checksum of all that.
pub open spec fn root_at(bytes: Seq<u8>, root: SeriesRoot) -> bool {
    let header = root.header;
    let directory = 176 + 16 * (header.page_count + header.cold_page_count);
    &&& bytes.len() == header.hot_pages_offset
    &&& sound_header(header)
    &&& version_three(bytes.subrange(0, 176))
    &&& header_at(bytes, header)
    &&& crc_with_hole(bytes, 52) == header.root_crc32c
    &&& root.hot.len() == header.page_count
    &&& root.cold.len() == header.cold_page_count
    &&& forall|i: int|
        0 <= i < root.hot.len() ==> hot_at(bytes, header, i as u32, #[trigger] root.hot[i])
    &&& forall|i: int|
        0 <= i < root.cold.len() ==> cold_at(bytes, header, i as u32, #[trigger] root.cold[i])
    &&& forall|i: int| directory <= i < bytes.len() ==> #[trigger] bytes[i] == 0
}

proof fn lemma_hot_slot(
    bytes: Seq<u8>,
    header: SeriesHeaderV3,
    page_index: u32,
    descriptor: SeriesHotPageDescriptorV1,
)
    requires
        sound_header(header),
        page_index < header.page_count,
        176 + 16 * (header.page_count + header.cold_page_count) <= bytes.len(),
    ensures
        hot_at(bytes, header, page_index, descriptor) <==> decode_hot_descriptor_result(
            descriptor_slot(bytes, page_index as int),
        ) == Ok::<SeriesHotPageDescriptorV1, Error>(descriptor) && hot_descriptor_result(
            descriptor,
            header,
            page_index,
        ) is Ok,
{
    let at = 176 + 16 * page_index;
    let slot = descriptor_slot(bytes, page_index as int);
    assert(slot.len() == 16);
    assert(u32_at(slot, 0) == u32_at(bytes, at));
    assert(u32_at(slot, 4) == u32_at(bytes, at + 4));
    assert(u32_at(slot, 8) == u32_at(bytes, at + 8));
    assert(u32_at(slot, 12) == u32_at(bytes, at + 12));
    page_share_law(header, page_index);
    assert(409 * page_index <= 409 * (header.page_count - 1));
    assert(hot_descriptor_fields(slot) == descriptor <==> {
        &&& u32_at(slot, 0) == descriptor.first_series_ref
        &&& u32_at(slot, 4) == descriptor.record_count
        &&& u32_at(slot, 8) == descriptor.page_crc32c
    });
}

proof fn lemma_cold_slot(
    bytes: Seq<u8>,
    header: SeriesHeaderV3,
    page_index: u32,
    descriptor: SeriesColdPageDescriptorV1,
)
    requires
        sound_header(header),
        page_index < header.cold_page_count,
        176 + 16 * (header.page_count + header.cold_page_count) <= bytes.len(),
    ensures
        cold_at(bytes, header, page_index, descriptor) <==> decode_cold_descriptor_result(
            descriptor_slot(bytes, header.page_count + page_index),
        ) == Ok::<SeriesColdPageDescriptorV1, Error>(descriptor) && cold_descriptor_result(
            descriptor,
            header,
            page_index,
        ) is Ok,
{
    let at = 176 + 16 * (header.page_count + page_index);
    let slot = descriptor_slot(bytes, header.page_count + page_index);
    assert(slot.len() == 16);
    assert(u32_at(slot, 0) == u32_at(bytes, at));
    assert(u32_at(slot, 4) == u32_at(bytes, at + 4));
    assert(u32_at(slot, 8) == u32_at(bytes, at + 8));
    assert(u32_at(slot, 12) == u32_at(bytes, at + 12));
    cold_share_law(header, page_index);
    assert(16_384 * page_index <= 16_384 * (header.cold_page_count - 1));
    assert(cold_descriptor_fields(slot) == descriptor <==> {
        &&& u32_at(slot, 0) == descriptor.page_index
        &&& u32_at(slot, 4) == descriptor.page_len
        &&& u32_at(slot, 8) == descriptor.page_crc32c
    });
}

proof fn lemma_hot_list(
    bytes: Seq<u8>,
    header: SeriesHeaderV3,
    hot: Seq<SeriesHotPageDescriptorV1>,
    n: nat,
)
    requires
        sound_header(header),
        n <= header.page_count,
        176 + 16 * (header.page_count + header.cold_page_count) <= bytes.len(),
    ensures
        hot_list_result(bytes, header, n) == Ok::<Seq<SeriesHotPageDescriptorV1>, Error>(hot)
            <==> hot.len() == n && forall|i: int|
            0 <= i < n ==> hot_at(bytes, header, i as u32, #[trigger] hot[i]),
    decreases n,
{
    if n == 0 {
        if hot.len() == 0 {
            assert(hot =~= Seq::empty());
        }
    } else {
        if hot.len() == n {
            let before = hot.drop_last();
            lemma_hot_list(bytes, header, before, (n - 1) as nat);
            lemma_hot_slot(bytes, header, (n - 1) as u32, hot[n - 1]);
            assert(hot =~= before.push(hot[n - 1]));
            if forall|i: int| 0 <= i < n ==> hot_at(bytes, header, i as u32, #[trigger] hot[i]) {
                assert forall|i: int| 0 <= i < n - 1 implies hot_at(
                    bytes,
                    header,
                    i as u32,
                    #[trigger] before[i],
                ) by {
                    assert(hot[i] == before[i]);
                }
            }
        }
        if let Ok(list) = hot_list_result(bytes, header, n) {
            let before = hot_list_result(bytes, header, (n - 1) as nat)->Ok_0;
            lemma_hot_list(bytes, header, before, (n - 1) as nat);
            lemma_hot_slot(bytes, header, (n - 1) as u32, list[n - 1]);
            assert(list == before.push(list.last()));
            if list == hot {
                assert(hot.drop_last() =~= before);
                assert forall|i: int| 0 <= i < n implies hot_at(
                    bytes,
                    header,
                    i as u32,
                    #[trigger] hot[i],
                ) by {
                    if i < n - 1 {
                        assert(hot[i] == before[i]);
                    }
                }
            }
        }
    }
}

proof fn lemma_cold_list(
    bytes: Seq<u8>,
    header: SeriesHeaderV3,
    cold: Seq<SeriesColdPageDescriptorV1>,
    n: nat,
)
    requires
        sound_header(header),
        n <= header.cold_page_count,
        176 + 16 * (header.page_count + header.cold_page_count) <= bytes.len(),
    ensures
        cold_list_result(bytes, header, n) == Ok::<Seq<SeriesColdPageDescriptorV1>, Error>(cold)
            <==> cold.len() == n && forall|i: int|
            0 <= i < n ==> cold_at(bytes, header, i as u32, #[trigger] cold[i]),
    decreases n,
{
    if n == 0 {
        if cold.len() == 0 {
            assert(cold =~= Seq::empty());
        }
    } else {
        if cold.len() == n {
            let before = cold.drop_last();
            lemma_cold_list(bytes, header, before, (n - 1) as nat);
            lemma_cold_slot(bytes, header, (n - 1) as u32, cold[n - 1]);
            assert(cold =~= before.push(cold[n - 1]));
            if forall|i: int| 0 <= i < n ==> cold_at(bytes, header, i as u32, #[trigger] cold[i]) {
                assert forall|i: int| 0 <= i < n - 1 implies cold_at(
                    bytes,
                    header,
                    i as u32,
                    #[trigger] before[i],
                ) by {
                    assert(cold[i] == before[i]);
                }
            }
        }
        if let Ok(list) = cold_list_result(bytes, header, n) {
            let before = cold_list_result(bytes, header, (n - 1) as nat)->Ok_0;
            lemma_cold_list(bytes, header, before, (n - 1) as nat);
            lemma_cold_slot(bytes, header, (n - 1) as u32, list[n - 1]);
            assert(list == before.push(list.last()));
            if list == cold {
                assert(cold.drop_last() =~= before);
                assert forall|i: int| 0 <= i < n implies cold_at(
                    bytes,
                    header,
                    i as u32,
                    #[trigger] cold[i],
                ) by {
                    if i < n - 1 {
                        assert(cold[i] == before[i]);
                    }
                }
            }
        }
    }
}

proof fn lemma_header_window(bytes: Seq<u8>, header: SeriesHeaderV3)
    requires
        bytes.len() >= 176,
    ensures
        header_at(bytes.subrange(0, 176), header) <==> header_at(bytes, header),
{
    let start = bytes.subrange(0, 176);
    assert(forall|at: int| 0 <= at <= 172 ==> #[trigger] u32_at(start, at) == u32_at(bytes, at));
    assert(forall|at: int| 0 <= at <= 168 ==> #[trigger] u64_at(start, at) == u64_at(bytes, at));
}

/// A root is read from exactly the bytes that are its root.
pub proof fn root_bytes_law(bytes: Seq<u8>, root: SeriesRoot)
    ensures
        decode_root_result(bytes) == Ok::<SeriesRoot, Error>(root) <==> root_at(bytes, root),
{
    let header = root.header;
    if bytes.len() >= 176 {
        let start = bytes.subrange(0, 176);
        header_bytes_law(start, header);
        lemma_header_window(bytes, header);
        crc_hole_law(bytes, 52);
    }
    if root_at(bytes, root) {
        lemma_hot_list(bytes, header, root.hot, header.page_count as nat);
        lemma_cold_list(bytes, header, root.cold, header.cold_page_count as nat);
    }
    if decode_root_result(bytes) == Ok::<SeriesRoot, Error>(root) {
        sound_header_law(header);
        section_layout_law(header);
        lemma_hot_list(bytes, header, root.hot, header.page_count as nat);
        lemma_cold_list(bytes, header, root.cold, header.cold_page_count as nat);
    }
}

/// The numbers of a chunk-index root stand at their places in its bytes.
pub open spec fn index_root_at(bytes: Seq<u8>, root: ChunkOverflowRootV2) -> bool {
    &&& bytes.len() == 64
    &&& u32_at(bytes, 0) == CHUNK_OVERFLOW_ROOT_V2_MAGIC
    &&& u16_at(bytes, 4) == 2
    &&& u16_at(bytes, 6) == 0
    &&& u32_at(bytes, 8) == root.series_count
    &&& u32_at(bytes, 12) == root.blob_count
    &&& u64_at(bytes, 16) == 64
    &&& u64_at(bytes, 24) == root.blobs_len
    &&& u64_at(bytes, 32) == root.file_len
    &&& u64_at(bytes, 40) == 0
    &&& u64_at(bytes, 48) == 0
    &&& u32_at(bytes, 56) == root.root_crc32c
    &&& u32_at(bytes, 60) == 0
    &&& crc_with_hole(bytes, 56) == root.root_crc32c
}

/// A chunk-index root is read from exactly the bytes that hold it, where its
/// blobs reach from the root to the end of the file and it counts no more of them
/// than series.
pub proof fn index_root_law(bytes: Seq<u8>, file_len: u64, root: ChunkOverflowRootV2)
    ensures
        overflow_root_result(bytes, file_len) == Ok::<ChunkOverflowRootV2, Error>(root) <==> {
            &&& index_root_at(bytes, root)
            &&& 64 + root.blobs_len == root.file_len == file_len
            &&& root.blob_count <= root.series_count
            &&& root.blob_count == 0 <==> root.blobs_len == 0
        },
{
    if bytes.len() == 64 {
        crc_hole_law(bytes, 56);
    }
}

/// Both roots belong to each other and to the segment that is expected.
pub open spec fn same_roots(
    header: SeriesHeaderV3,
    root: ChunkOverflowRootV2,
    context: Schema7RootBindingContext,
) -> bool {
    &&& context.segment_start_ms < context.segment_end_ms
    &&& header.num_series == root.series_count == context.series_count
    &&& header.chunk_index_file_len == root.file_len == context.chunk_index_file_len
    &&& header.chunk_index_root_crc32c == root.root_crc32c
    &&& header.file_len == context.series_file_len
    &&& header.segment_start_ms == context.segment_start_ms
    &&& header.segment_end_ms == context.segment_end_ms
}

/// Two roots are bound exactly where they belong together, and the facts are
/// those of the roots.
pub proof fn bound_roots_law(
    header: SeriesHeaderV3,
    root: ChunkOverflowRootV2,
    context: Schema7RootBindingContext,
    pages: Schema7SeriesPageFacts,
    blobs: Schema7OverflowBlobFacts,
)
    requires
        sound_header(header),
    ensures
        bind_result(header, root, context) == Ok::<
            (Schema7SeriesPageFacts, Schema7OverflowBlobFacts),
            Error,
        >((pages, blobs)) <==> {
            &&& same_roots(header, root, context)
            &&& facts_of_header(header, pages)
            &&& blobs.root_len == 64
            &&& blobs.blobs_offset == 64
            &&& blobs.blob_count == root.blob_count
            &&& blobs.blobs_len == root.blobs_len
            &&& blobs.file_len == root.file_len
        },
        bind_result(header, root, context) is Ok <==> same_roots(header, root, context),
{
    sound_header_law(header);
    section_layout_law(header);
}

/// A cold page is authentic exactly where it has the length and the checksum of
/// its descriptor, which is that of its share of the cold stream.
pub proof fn authentic_cold_law(
    header: SeriesHeaderV3,
    page_index: u32,
    descriptor: SeriesColdPageDescriptorV1,
    bytes: Seq<u8>,
)
    ensures
        cold_page_result(header, page_index, descriptor, bytes) is Ok <==> {
            &&& sound_header(header)
            &&& page_index < header.cold_page_count
            &&& descriptor.page_index == page_index
            &&& bytes.len() == descriptor.page_len == cold_share(header, page_index)
            &&& crc32c_of(bytes) == descriptor.page_crc32c
        },
{
    sound_header_law(header);
    if sound_header(header) && page_index < header.cold_page_count {
        cold_share_law(header, page_index);
        assert(16_384 * page_index <= 16_384 * (header.cold_page_count - 1));
    }
}

} // verus!
