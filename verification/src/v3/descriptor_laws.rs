//! Which descriptors, directories and decoded pages there are, said of the header and the bytes.

use vstd::prelude::*;

use super::header::{section_layout_law, SeriesHeaderV3};
use super::header_laws::{
    cold_share_law, header_at, header_bytes_law, page_share_law, sound_header, sound_header_law,
    version_three,
};
use super::hot::{context_of, decode_record_result, encodes_record, SeriesHotV3, SeriesHotV3Context};
use super::page::{
    accepts, decode_page_result, descriptor_of, encodes_page, page_header_result, record_area,
    record_list_result, record_slot, visit_outcome, SeriesHotPage, SeriesHotPageHeaderV1,
};
use super::plan_laws::{page_holds, segment_of};
use super::record_laws::{
    authentic_bytes_law, describes_page, page_header_at, page_header_law, record_bytes_law,
    sound_record,
};
use super::root::{
    cold_descriptor_result, decode_cold_descriptor_result, decode_hot_descriptor_result,
    descriptor_slot, encodable_root_result, encodes_cold_descriptor, encodes_hot_descriptor,
    encodes_root, hot_descriptor_result, new_cold_descriptor_result, SeriesColdPageDescriptorV1,
    SeriesHotPageDescriptorV1, SeriesRoot,
};
use super::root_laws::cold_share;
use crate::bytes::u32_at;
use crate::checksum::crc32c_of;
use crate::error::Error;

verus! {

/// A descriptor is sixteen bytes: two words for its place, the checksum of its page, and a zero.
pub proof fn descriptor_bytes_law(
    bytes: Seq<u8>,
    hot: SeriesHotPageDescriptorV1,
    cold: SeriesColdPageDescriptorV1,
)
    ensures
        encodes_hot_descriptor(bytes, hot) <==> {
            &&& bytes.len() == 16
            &&& u32_at(bytes, 0) == hot.first_series_ref
            &&& u32_at(bytes, 4) == hot.record_count
            &&& u32_at(bytes, 8) == hot.page_crc32c
            &&& u32_at(bytes, 12) == 0
        },
        decode_hot_descriptor_result(bytes) == Ok::<SeriesHotPageDescriptorV1, Error>(hot)
            <==> encodes_hot_descriptor(bytes, hot),
        encodes_cold_descriptor(bytes, cold) <==> {
            &&& bytes.len() == 16
            &&& u32_at(bytes, 0) == cold.page_index
            &&& u32_at(bytes, 4) == cold.page_len
            &&& u32_at(bytes, 8) == cold.page_crc32c
            &&& u32_at(bytes, 12) == 0
        },
        decode_cold_descriptor_result(bytes) == Ok::<SeriesColdPageDescriptorV1, Error>(cold)
            <==> encodes_cold_descriptor(bytes, cold),
{
}

/// The descriptor of a hot page names the first series of the page and how many it holds, that
/// of a cold page its number and its share of the stream; a page past the last has none.
pub proof fn sound_descriptor_law(
    header: SeriesHeaderV3,
    page_index: u32,
    hot: SeriesHotPageDescriptorV1,
    cold: SeriesColdPageDescriptorV1,
    crc: u32,
)
    requires
        sound_header(header),
    ensures
        hot_descriptor_result(hot, header, page_index) is Ok <==> describes_page(
            header,
            page_index,
            hot.first_series_ref,
            hot.record_count,
        ),
        cold_descriptor_result(cold, header, page_index) is Ok <==> {
            &&& page_index < header.cold_page_count
            &&& cold.page_index == page_index
            &&& cold.page_len == cold_share(header, page_index)
        },
        new_cold_descriptor_result(header, page_index, crc) is Ok <==> page_index
            < header.cold_page_count,
        new_cold_descriptor_result(header, page_index, crc) matches Ok(new) ==> {
            &&& cold_descriptor_result(new, header, page_index) is Ok
            &&& new.page_crc32c == crc
        },
{
    sound_header_law(header);
    section_layout_law(header);
    if page_index < header.page_count {
        page_share_law(header, page_index);
        assert(409 * page_index <= 409 * (header.page_count - 1));
    }
    if page_index < header.cold_page_count {
        cold_share_law(header, page_index);
    }
}

/// A root can be written exactly when its header is sound and its two directories describe every
/// page, each at its place.
pub proof fn written_root_law(root: SeriesRoot)
    requires
        root.header.hot_pages_offset <= usize::MAX,
    ensures
        encodable_root_result(root) is Ok <==> {
            &&& sound_header(root.header)
            &&& root.hot.len() == root.header.page_count
            &&& root.cold.len() == root.header.cold_page_count
            &&& forall|i: int|
                0 <= i < root.hot.len() ==> describes_page(
                    root.header,
                    i as u32,
                    (#[trigger] root.hot[i]).first_series_ref,
                    root.hot[i].record_count,
                )
            &&& forall|i: int|
                0 <= i < root.cold.len() ==> (#[trigger] root.cold[i]).page_index == i
                    && root.cold[i].page_len == cold_share(root.header, i as u32)
        },
{
    let header = root.header;
    sound_header_law(header);
    if sound_header(header) && root.hot.len() == header.page_count && root.cold.len()
        == header.cold_page_count {
        assert forall|i: int| 0 <= i < root.hot.len() implies (hot_descriptor_result(
            #[trigger] root.hot[i],
            header,
            i as u32,
        ) is Ok <==> describes_page(
            header,
            i as u32,
            root.hot[i].first_series_ref,
            root.hot[i].record_count,
        )) by {
            sound_descriptor_law(header, i as u32, root.hot[i], arbitrary(), 0);
        }
        assert forall|i: int| 0 <= i < root.cold.len() implies (cold_descriptor_result(
            #[trigger] root.cold[i],
            header,
            i as u32,
        ) is Ok <==> root.cold[i].page_index == i && root.cold[i].page_len == cold_share(
            header,
            i as u32,
        )) by {
            sound_descriptor_law(header, i as u32, arbitrary(), root.cold[i], 0);
        }
    }
}

/// The words of a descriptor stand at a place of the root.
pub open spec fn words_at(bytes: Seq<u8>, place: int, first: u32, second: u32, crc: u32) -> bool {
    let at = 176 + 16 * place;
    &&& u32_at(bytes, at) == first
    &&& u32_at(bytes, at + 4) == second
    &&& u32_at(bytes, at + 8) == crc
    &&& u32_at(bytes, at + 12) == 0
}

proof fn lemma_slot_words(bytes: Seq<u8>, place: int, at: int)
    requires
        0 <= place,
        176 + 16 * place + 16 <= bytes.len(),
        0 <= at <= 12,
    ensures
        u32_at(descriptor_slot(bytes, place), at) == u32_at(bytes, 176 + 16 * place + at),
{
}

proof fn lemma_slot(
    bytes: Seq<u8>,
    place: int,
    hot: SeriesHotPageDescriptorV1,
    cold: SeriesColdPageDescriptorV1,
)
    requires
        0 <= place,
        176 + 16 * place + 16 <= bytes.len(),
    ensures
        encodes_hot_descriptor(descriptor_slot(bytes, place), hot) <==> words_at(
            bytes,
            place,
            hot.first_series_ref,
            hot.record_count,
            hot.page_crc32c,
        ),
        encodes_cold_descriptor(descriptor_slot(bytes, place), cold) <==> words_at(
            bytes,
            place,
            cold.page_index,
            cold.page_len,
            cold.page_crc32c,
        ),
{
    lemma_slot_words(bytes, place, 0);
    lemma_slot_words(bytes, place, 4);
    lemma_slot_words(bytes, place, 8);
    lemma_slot_words(bytes, place, 12);
    descriptor_bytes_law(descriptor_slot(bytes, place), hot, cold);
}

/// The bytes of a root are its header, the descriptors of the hot pages, those of the cold pages,
/// and zeros up to where the hot pages begin.
pub proof fn root_layout_law(bytes: Seq<u8>, root: SeriesRoot)
    ensures
        encodes_root(bytes, root) <==> {
            &&& bytes.len() == root.header.hot_pages_offset
            &&& 176 + 16 * (root.hot.len() + root.cold.len()) <= bytes.len()
            &&& version_three(bytes.subrange(0, 176))
            &&& header_at(bytes.subrange(0, 176), root.header)
            &&& forall|i: int|
                0 <= i < root.hot.len() ==> words_at(
                    bytes,
                    i,
                    (#[trigger] root.hot[i]).first_series_ref,
                    root.hot[i].record_count,
                    root.hot[i].page_crc32c,
                )
            &&& forall|i: int|
                0 <= i < root.cold.len() ==> words_at(
                    bytes,
                    root.hot.len() + i,
                    (#[trigger] root.cold[i]).page_index,
                    root.cold[i].page_len,
                    root.cold[i].page_crc32c,
                )
            &&& forall|i: int|
                176 + 16 * (root.hot.len() + root.cold.len()) <= i < bytes.len()
                    ==> #[trigger] bytes[i] == 0
        },
{
    let hot = root.hot;
    let cold = root.cold;
    header_bytes_law(bytes.subrange(0, 176), root.header);
    if 176 + 16 * (hot.len() + cold.len()) <= bytes.len() {
        assert forall|i: int| 0 <= i < hot.len() implies (encodes_hot_descriptor(
            #[trigger] descriptor_slot(bytes, i),
            hot[i],
        ) <==> words_at(
            bytes,
            i,
            hot[i].first_series_ref,
            hot[i].record_count,
            hot[i].page_crc32c,
        )) by {
            lemma_slot(bytes, i, hot[i], arbitrary());
        }
        assert forall|i: int| 0 <= i < cold.len() implies (encodes_cold_descriptor(
            #[trigger] descriptor_slot(bytes, hot.len() + i),
            cold[i],
        ) <==> words_at(
            bytes,
            hot.len() + i,
            cold[i].page_index,
            cold[i].page_len,
            cold[i].page_crc32c,
        )) by {
            lemma_slot(bytes, hot.len() + i, arbitrary(), cold[i]);
        }
        if encodes_root(bytes, root) {
            assert forall|i: int| 0 <= i < hot.len() implies words_at(
                bytes,
                i,
                (#[trigger] hot[i]).first_series_ref,
                hot[i].record_count,
                hot[i].page_crc32c,
            ) by {
                assert(encodes_hot_descriptor(descriptor_slot(bytes, i), hot[i]));
            }
            assert forall|i: int| 0 <= i < cold.len() implies words_at(
                bytes,
                hot.len() + i,
                (#[trigger] cold[i]).page_index,
                cold[i].page_len,
                cold[i].page_crc32c,
            ) by {
                assert(encodes_cold_descriptor(descriptor_slot(bytes, hot.len() + i), cold[i]));
            }
        }
    }
}

proof fn lemma_record_list(
    bytes: Seq<u8>,
    count: nat,
    context: SeriesHotV3Context,
    records: Seq<SeriesHotV3>,
    n: nat,
)
    requires
        n <= count <= u32::MAX,
        24 + 40 * count <= bytes.len(),
    ensures
        record_list_result(record_area(bytes, count as int), context, n) == Ok::<
            Seq<SeriesHotV3>,
            Error,
        >(records) <==> {
            &&& records.len() == n
            &&& forall|i: int|
                0 <= i < n ==> page_holds(bytes, 0, i as u32, #[trigger] records[i])
                    && sound_record(records[i], context)
        },
    decreases n,
{
    let area = record_area(bytes, count as int);
    let result = record_list_result(area, context, n);
    if n == 0 {
        assert(records.len() == 0 ==> records =~= Seq::empty());
    } else {
        let m = (n - 1) as nat;
        let before = records.take(m as int);
        lemma_record_list(bytes, count, context, before, m);
        let at = (24 + 40 * m) as int;
        assert(record_slot(area, m as int) =~= bytes.subrange(at, at + 40));
        if result == Ok::<Seq<SeriesHotV3>, Error>(records) {
            let list = record_list_result(area, context, m)->Ok_0;
            lemma_record_list(bytes, count, context, list, m);
            assert(records == list.push(records[m as int]));
            assert(before =~= list);
            record_bytes_law(record_slot(area, m as int), records[m as int], context);
            assert forall|i: int| 0 <= i < n implies page_holds(
                bytes,
                0,
                i as u32,
                #[trigger] records[i],
            ) && sound_record(records[i], context) by {
                if i < m {
                    assert(before[i] == records[i]);
                } else {
                    assert(bytes.subrange(at, at + 40) == record_slot(area, i));
                }
            }
        }
        if records.len() == n && (forall|i: int|
            0 <= i < n ==> page_holds(bytes, 0, i as u32, #[trigger] records[i]) && sound_record(
                records[i],
                context,
            )) {
            assert forall|i: int| 0 <= i < m implies page_holds(
                bytes,
                0,
                i as u32,
                #[trigger] before[i],
            ) && sound_record(before[i], context) by {
                assert(before[i] == records[i]);
            }
            assert(page_holds(bytes, 0, m as u32, records[m as int]));
            record_bytes_law(record_slot(area, m as int), records[m as int], context);
            assert(records =~= before.push(records[m as int]));
        }
    }
}

/// A hot page decodes to these records exactly when it is the page of its descriptor and holds
/// them, all sound, one after the other.
pub proof fn decoded_page_law(
    header: SeriesHeaderV3,
    page_index: u32,
    descriptor: SeriesHotPageDescriptorV1,
    bytes: Seq<u8>,
    chunk_file_lens: [u64; 2],
    page: SeriesHotPage,
)
    ensures
        decode_page_result(header, page_index, descriptor, bytes, chunk_file_lens) == Ok::<
            SeriesHotPage,
            Error,
        >(page) <==> {
            &&& sound_header(header)
            &&& bytes.len() == 16_384
            &&& describes_page(
                header,
                page_index,
                descriptor.first_series_ref,
                descriptor.record_count,
            )
            &&& crc32c_of(bytes) == descriptor.page_crc32c
            &&& page_header_at(
                bytes,
                page_index,
                descriptor.first_series_ref,
                descriptor.record_count,
            )
            &&& forall|i: int|
                24 + 40 * descriptor.record_count <= i < 16_384 ==> #[trigger] bytes[i] == 0
            &&& page.header.page_index == page_index
            &&& page.header.first_series_ref == descriptor.first_series_ref
            &&& page.header.record_count == descriptor.record_count
            &&& page.records.len() == descriptor.record_count
            &&& forall|i: int|
                0 <= i < page.records.len() ==> page_holds(
                    bytes,
                    0,
                    i as u32,
                    #[trigger] page.records[i],
                ) && sound_record(page.records[i], segment_of(header, chunk_file_lens))
        },
{
    authentic_bytes_law(header, page_index, descriptor, bytes);
    if descriptor.record_count <= 409 && bytes.len() == 16_384 {
        lemma_record_list(
            bytes,
            descriptor.record_count as nat,
            context_of(header, chunk_file_lens),
            page.records,
            descriptor.record_count as nat,
        );
    }
}

/// A visit that ends well has met every record of the page, each under the number of its series.
pub proof fn visited_page_law<F: FnMut(u32, SeriesHotV3) -> Result<(), Error>>(
    header: SeriesHeaderV3,
    page_index: u32,
    descriptor: SeriesHotPageDescriptorV1,
    bytes: Seq<u8>,
    chunk_file_lens: [u64; 2],
    visit: F,
    i: int,
)
    requires
        visit_outcome(header, page_index, descriptor, bytes, chunk_file_lens, visit, Ok(())),
        0 <= i < descriptor.record_count,
    ensures
        exists|record: SeriesHotV3| #[trigger]
            page_holds(bytes, 0, i as u32, record) && sound_record(
                record,
                segment_of(header, chunk_file_lens),
            ) && accepts(visit, (409 * page_index + i) as u32, record),
{
    authentic_bytes_law(header, page_index, descriptor, bytes);
    let context = context_of(header, chunk_file_lens);
    let area = record_area(bytes, descriptor.record_count as int);
    let slot = record_slot(area, i);
    let record = decode_record_result(slot, context)->Ok_0;
    let at = 24 + 40 * i;
    assert(slot =~= bytes.subrange(at, at + 40));
    record_bytes_law(slot, record, context);
    assert(page_holds(bytes, 0, i as u32, record));
}

/// The bytes of a page are its header, its records one after the other, and zeros; its
/// descriptor has the first series, the number of records and the checksum of the bytes.
pub proof fn page_layout_law(bytes: Seq<u8>, page: SeriesHotPage)
    ensures
        encodes_page(bytes, page) <==> {
            &&& bytes.len() == 16_384
            &&& 24 + 40 * page.records.len() <= 16_384
            &&& page_header_at(
                bytes,
                page.header.page_index,
                page.header.first_series_ref,
                page.header.record_count,
            )
            &&& forall|i: int|
                0 <= i < page.records.len() ==> page_holds(
                    bytes,
                    0,
                    i as u32,
                    #[trigger] page.records[i],
                )
            &&& forall|i: int|
                24 + 40 * page.records.len() <= i < 16_384 ==> #[trigger] bytes[i] == 0
        },
        descriptor_of(page.header, bytes).first_series_ref == page.header.first_series_ref,
        descriptor_of(page.header, bytes).record_count == page.header.record_count,
        descriptor_of(page.header, bytes).page_crc32c == crc32c_of(bytes),
{
    if bytes.len() == 16_384 && 24 + 40 * page.records.len() <= 16_384 {
        let area = record_area(bytes, page.records.len() as int);
        page_header_law(bytes.subrange(0, 24), page.header);
        assert forall|i: int| 0 <= i < page.records.len() implies (encodes_record(
            #[trigger] record_slot(area, i),
            page.records[i],
        ) <==> page_holds(bytes, 0, i as u32, page.records[i])) by {
            let at = 24 + 40 * i;
            assert(record_slot(area, i) =~= bytes.subrange(at, at + 40));
            record_bytes_law(
                record_slot(area, i),
                page.records[i],
                arbitrary(),
            );
        }
        if encodes_page(bytes, page) {
            assert forall|i: int| 0 <= i < page.records.len() implies page_holds(
                bytes,
                0,
                i as u32,
                #[trigger] page.records[i],
            ) by {
                assert(encodes_record(record_slot(area, i), page.records[i]));
            }
        }
    }
}

/// The header of a page is taken exactly when it and the descriptor both say what the header of
/// the file says of the page.
pub proof fn sound_page_header_law(
    page_header: SeriesHotPageHeaderV1,
    header: SeriesHeaderV3,
    descriptor: SeriesHotPageDescriptorV1,
    page_index: u32,
)
    requires
        sound_header(header),
    ensures
        page_header_result(page_header, header, descriptor, page_index) is Ok <==> {
            &&& describes_page(
                header,
                page_index,
                descriptor.first_series_ref,
                descriptor.record_count,
            )
            &&& page_header.page_index == page_index
            &&& page_header.first_series_ref == descriptor.first_series_ref
            &&& page_header.record_count == descriptor.record_count
        },
{
    sound_descriptor_law(header, page_index, descriptor, arbitrary(), 0);
}

} // verus!
