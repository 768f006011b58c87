//! Page descriptors and the authenticated root of `series.bin` version 3.
//!
//! The root is the header, one descriptor per hot page, one per cold page and
//! zero padding up to the hot pages. Its checksum covers all of it, with the
//! checksum field itself read as zero.

use core::mem::size_of;
use vstd::prelude::*;

use super::header::{
    checked_u32, checked_usize, cold_page_len_result, decode_header_result, encodes_header,
    header_result, hot_record_count_result, require_count, cold_page_cover_law, hot_page_cover_law,
    lemma_result_without_crc, root_crc_field_law, section_layout_law, with_root_crc, require_len,
    require_zero_u32, zeroed_vec, SeriesHeaderV3, SERIES_DESCRIPTOR_LEN_V1, SERIES_HEADER_LEN_V3,
    SERIES_HOT_RECORDS_PER_PAGE_V1, SERIES_ROOT_CRC_LEN_V3, SERIES_ROOT_CRC_OFFSET_V3,
};
use crate::bytes::{put_u32, read_u32, splice, u32_at, u32_bytes};
use crate::capacity::vec_capacity;
use crate::checksum::{crc32c, crc32c_append, crc32c_of};
use crate::error::{vec_result, data_error, invalid_data, memory_error, resource_error, Error};

verus! {

/// Locates and authenticates one hot page.
#[derive(Debug, Clone, Copy, PartialEq, Eq, Structural)]
pub struct SeriesHotPageDescriptorV1 {
    pub first_series_ref: u32,
    pub record_count: u32,
    pub page_crc32c: u32,
}

/// Locates and authenticates one cold page.
#[derive(Debug, Clone, Copy, PartialEq, Eq, Structural)]
pub struct SeriesColdPageDescriptorV1 {
    pub page_index: u32,
    pub page_len: u32,
    pub page_crc32c: u32,
}

/// The record table reaches the page, if the header counts it.
pub open spec fn page_reached(header: SeriesHeaderV3, page_index: u32) -> bool {
    page_index < header.page_count && page_index * 409 <= u32::MAX ==> page_index * 409
        <= header.num_series
}

pub open spec fn hot_descriptor_fields(bytes: Seq<u8>) -> SeriesHotPageDescriptorV1 {
    SeriesHotPageDescriptorV1 {
        first_series_ref: u32_at(bytes, 0),
        record_count: u32_at(bytes, 4),
        page_crc32c: u32_at(bytes, 8),
    }
}

pub open spec fn encodes_hot_descriptor(
    bytes: Seq<u8>,
    descriptor: SeriesHotPageDescriptorV1,
) -> bool {
    bytes.len() == 16 && hot_descriptor_fields(bytes) == descriptor && u32_at(bytes, 12) == 0
}

pub open spec fn decode_hot_descriptor_result(bytes: Seq<u8>) -> Result<
    SeriesHotPageDescriptorV1,
    Error,
> {
    if bytes.len() != 16 {
        Err(data_error("series v3 hot descriptor"))
    } else if u32_at(bytes, 12) != 0 {
        Err(data_error("series v3 hot descriptor reserved0"))
    } else {
        Ok(hot_descriptor_fields(bytes))
    }
}

pub open spec fn hot_descriptor_result(
    descriptor: SeriesHotPageDescriptorV1,
    header: SeriesHeaderV3,
    page_index: u32,
) -> Result<(), Error> {
    if page_index * 409 > u32::MAX {
        Err(data_error("series v3 first series ref overflow"))
    } else if descriptor.first_series_ref != page_index * 409 {
        Err(data_error("series v3 hot descriptor is noncanonical"))
    } else {
        match hot_record_count_result(header, page_index) {
            Err(error) => Err(error),
            Ok(count) => if descriptor.record_count != count {
                Err(data_error("series v3 hot descriptor is noncanonical"))
            } else {
                Ok(())
            },
        }
    }
}

pub open spec fn cold_descriptor_fields(bytes: Seq<u8>) -> SeriesColdPageDescriptorV1 {
    SeriesColdPageDescriptorV1 {
        page_index: u32_at(bytes, 0),
        page_len: u32_at(bytes, 4),
        page_crc32c: u32_at(bytes, 8),
    }
}

pub open spec fn encodes_cold_descriptor(
    bytes: Seq<u8>,
    descriptor: SeriesColdPageDescriptorV1,
) -> bool {
    bytes.len() == 16 && cold_descriptor_fields(bytes) == descriptor && u32_at(bytes, 12) == 0
}

pub open spec fn decode_cold_descriptor_result(bytes: Seq<u8>) -> Result<
    SeriesColdPageDescriptorV1,
    Error,
> {
    if bytes.len() != 16 {
        Err(data_error("series v3 cold descriptor"))
    } else if u32_at(bytes, 12) != 0 {
        Err(data_error("series v3 cold descriptor reserved0"))
    } else {
        Ok(cold_descriptor_fields(bytes))
    }
}

pub open spec fn cold_descriptor_result(
    descriptor: SeriesColdPageDescriptorV1,
    header: SeriesHeaderV3,
    page_index: u32,
) -> Result<(), Error> {
    if descriptor.page_index != page_index {
        Err(data_error("series v3 cold descriptor is noncanonical"))
    } else {
        match cold_page_len_result(header, page_index) {
            Err(error) => Err(error),
            Ok(len) => if descriptor.page_len != len {
                Err(data_error("series v3 cold descriptor is noncanonical"))
            } else {
                Ok(())
            },
        }
    }
}

pub open spec fn new_cold_descriptor_result(
    header: SeriesHeaderV3,
    page_index: u32,
    page_crc32c: u32,
) -> Result<SeriesColdPageDescriptorV1, Error> {
    match cold_page_len_result(header, page_index) {
        Err(error) => Err(error),
        Ok(page_len) => Ok(SeriesColdPageDescriptorV1 { page_index, page_len, page_crc32c }),
    }
}

impl SeriesHotPageDescriptorV1 {
    pub fn encode(self) -> (bytes: [u8; SERIES_DESCRIPTOR_LEN_V1])
        ensures
            encodes_hot_descriptor(bytes@, self),
    {
        let mut bytes = [0u8; SERIES_DESCRIPTOR_LEN_V1];
        put_u32(&mut bytes, 0, self.first_series_ref);
        put_u32(&mut bytes, 4, self.record_count);
        put_u32(&mut bytes, 8, self.page_crc32c);
        put_u32(&mut bytes, 12, 0);
        bytes
    }

    pub fn decode(bytes: &[u8]) -> (result: Result<Self, Error>)
        ensures
            result == decode_hot_descriptor_result(bytes@),
    {
        require_len(bytes, SERIES_DESCRIPTOR_LEN_V1, "series v3 hot descriptor")?;
        require_zero_u32(read_u32(bytes, 12), "series v3 hot descriptor reserved0")?;
        Ok(
            Self {
                first_series_ref: read_u32(bytes, 0),
                record_count: read_u32(bytes, 4),
                page_crc32c: read_u32(bytes, 8),
            },
        )
    }

    /// Checks the descriptor against the page that the header implies.
    pub fn validate(self, header: SeriesHeaderV3, page_index: u32) -> (result: Result<(), Error>)
        requires
            page_reached(header, page_index),
        ensures
            result == hot_descriptor_result(self, header, page_index),
    {
        let expected_first: u32 = match page_index.checked_mul(SERIES_HOT_RECORDS_PER_PAGE_V1) {
            Some(first) => first,
            None => {
                return Err(invalid_data("series v3 first series ref overflow"));
            },
        };
        if self.first_series_ref != expected_first {
            return Err(invalid_data("series v3 hot descriptor is noncanonical"));
        }
        let expected_count: u32 = header.expected_hot_record_count(page_index)?;
        if self.record_count != expected_count {
            return Err(invalid_data("series v3 hot descriptor is noncanonical"));
        }
        Ok(())
    }
}

impl SeriesColdPageDescriptorV1 {
    /// The descriptor of a cold page with this checksum.
    pub fn new(header: SeriesHeaderV3, page_index: u32, page_crc32c: u32) -> (result: Result<
        Self,
        Error,
    >)
        ensures
            result == new_cold_descriptor_result(header, page_index, page_crc32c),
    {
        let descriptor = Self {
            page_index,
            page_len: header.expected_cold_page_len(page_index)?,
            page_crc32c,
        };
        descriptor.validate(header, page_index)?;
        Ok(descriptor)
    }

    pub fn encode(self) -> (bytes: [u8; SERIES_DESCRIPTOR_LEN_V1])
        ensures
            encodes_cold_descriptor(bytes@, self),
    {
        let mut bytes = [0u8; SERIES_DESCRIPTOR_LEN_V1];
        put_u32(&mut bytes, 0, self.page_index);
        put_u32(&mut bytes, 4, self.page_len);
        put_u32(&mut bytes, 8, self.page_crc32c);
        put_u32(&mut bytes, 12, 0);
        bytes
    }

    pub fn decode(bytes: &[u8]) -> (result: Result<Self, Error>)
        ensures
            result == decode_cold_descriptor_result(bytes@),
    {
        require_len(bytes, SERIES_DESCRIPTOR_LEN_V1, "series v3 cold descriptor")?;
        require_zero_u32(read_u32(bytes, 12), "series v3 cold descriptor reserved0")?;
        Ok(
            Self {
                page_index: read_u32(bytes, 0),
                page_len: read_u32(bytes, 4),
                page_crc32c: read_u32(bytes, 8),
            },
        )
    }

    /// Checks the descriptor against the page that the header implies.
    pub fn validate(self, header: SeriesHeaderV3, page_index: u32) -> (result: Result<(), Error>)
        ensures
            result == cold_descriptor_result(self, header, page_index),
    {
        if self.page_index != page_index {
            return Err(invalid_data("series v3 cold descriptor is noncanonical"));
        }
        let expected_len: u32 = header.expected_cold_page_len(page_index)?;
        if self.page_len != expected_len {
            return Err(invalid_data("series v3 cold descriptor is noncanonical"));
        }
        Ok(())
    }
}

/// The decoded root.
#[derive(Debug, PartialEq, Eq)]
pub struct SeriesRootV3 {
    pub header: SeriesHeaderV3,
    pub hot_descriptors: Vec<SeriesHotPageDescriptorV1>,
    pub cold_descriptors: Vec<SeriesColdPageDescriptorV1>,
}

/// A root with its descriptors as sequences.
pub struct SeriesRoot {
    pub header: SeriesHeaderV3,
    pub hot: Seq<SeriesHotPageDescriptorV1>,
    pub cold: Seq<SeriesColdPageDescriptorV1>,
}

impl View for SeriesRootV3 {
    type V = SeriesRoot;

    open spec fn view(&self) -> SeriesRoot {
        SeriesRoot {
            header: self.header,
            hot: self.hot_descriptors@,
            cold: self.cold_descriptors@,
        }
    }
}

/// The sixteen descriptor bytes at a directory position.
pub open spec fn descriptor_slot(bytes: Seq<u8>, position: int) -> Seq<u8> {
    bytes.subrange(176 + 16 * position, 176 + 16 * position + 16)
}

/// Where the directory of a root ends and its padding begins.
pub open spec fn directory_end(header: SeriesHeaderV3) -> int {
    176 + 16 * (header.page_count + header.cold_page_count)
}

/// The checksum of a root: its own field counts as zero.
pub open spec fn root_crc_of(bytes: Seq<u8>) -> u32 {
    crc32c_of(bytes.subrange(0, 52) + seq![0u8, 0u8, 0u8, 0u8] + bytes.subrange(56, bytes.len() as int))
}

/// The bytes are the encoding of the root, up to its checksum's value.
pub open spec fn encodes_root(bytes: Seq<u8>, root: SeriesRoot) -> bool {
    &&& bytes.len() == root.header.hot_pages_offset
    &&& 176 + 16 * (root.hot.len() + root.cold.len()) <= bytes.len()
    &&& encodes_header(bytes.subrange(0, 176), root.header)
    &&& forall|i: int|
        0 <= i < root.hot.len() ==> encodes_hot_descriptor(
            #[trigger] descriptor_slot(bytes, i),
            root.hot[i],
        )
    &&& forall|i: int|
        0 <= i < root.cold.len() ==> encodes_cold_descriptor(
            #[trigger] descriptor_slot(bytes, root.hot.len() + i),
            root.cold[i],
        )
    &&& forall|i: int|
        176 + 16 * (root.hot.len() + root.cold.len()) <= i < bytes.len() ==> #[trigger] bytes[i] == 0
}

/// Every hot descriptor is the one its position implies.
pub open spec fn hot_canonical(
    header: SeriesHeaderV3,
    hot: Seq<SeriesHotPageDescriptorV1>,
) -> bool {
    forall|i: int|
        0 <= i < hot.len() ==> hot_descriptor_result(#[trigger] hot[i], header, i as u32) is Ok
}

/// Every cold descriptor is the one its position implies.
pub open spec fn cold_canonical(
    header: SeriesHeaderV3,
    cold: Seq<SeriesColdPageDescriptorV1>,
) -> bool {
    forall|i: int|
        0 <= i < cold.len() ==> cold_descriptor_result(#[trigger] cold[i], header, i as u32) is Ok
}

/// Whether a root can be encoded.
pub open spec fn encodable_root_result(root: SeriesRoot) -> Result<(), Error> {
    match header_result(root.header) {
        Err(error) => Err(error),
        Ok(_) => if root.hot.len() != root.header.page_count {
            Err(data_error("series v3 hot descriptor count"))
        } else if root.cold.len() != root.header.cold_page_count {
            Err(data_error("series v3 cold descriptor count"))
        } else if !hot_canonical(root.header, root.hot) {
            Err(data_error("series v3 hot descriptor is noncanonical"))
        } else if !cold_canonical(root.header, root.cold) {
            Err(data_error("series v3 cold descriptor is noncanonical"))
        } else if root.header.hot_pages_offset > usize::MAX {
            Err(data_error("series v3 root length"))
        } else {
            Ok(())
        },
    }
}

pub open spec fn hot_list_result(bytes: Seq<u8>, header: SeriesHeaderV3, n: nat) -> Result<
    Seq<SeriesHotPageDescriptorV1>,
    Error,
>
    decreases n,
{
    if n == 0 {
        Ok(Seq::empty())
    } else {
        match hot_list_result(bytes, header, (n - 1) as nat) {
            Err(error) => Err(error),
            Ok(list) => match decode_hot_descriptor_result(descriptor_slot(bytes, n - 1)) {
                Err(error) => Err(error),
                Ok(descriptor) => match hot_descriptor_result(descriptor, header, (n - 1) as u32) {
                    Err(error) => Err(error),
                    Ok(_) => Ok(list.push(descriptor)),
                },
            },
        }
    }
}

pub open spec fn cold_list_result(bytes: Seq<u8>, header: SeriesHeaderV3, n: nat) -> Result<
    Seq<SeriesColdPageDescriptorV1>,
    Error,
>
    decreases n,
{
    if n == 0 {
        Ok(Seq::empty())
    } else {
        match cold_list_result(bytes, header, (n - 1) as nat) {
            Err(error) => Err(error),
            Ok(list) => match decode_cold_descriptor_result(
                descriptor_slot(bytes, header.page_count + n - 1),
            ) {
                Err(error) => Err(error),
                Ok(descriptor) => match cold_descriptor_result(descriptor, header, (n - 1) as u32) {
                    Err(error) => Err(error),
                    Ok(_) => Ok(list.push(descriptor)),
                },
            },
        }
    }
}

/// The header of a root whose checksum and padding are right.
pub open spec fn root_prefix_result(bytes: Seq<u8>) -> Result<SeriesHeaderV3, Error> {
    if bytes.len() < 176 {
        Err(data_error("series v3 root is shorter than its header"))
    } else {
        match decode_header_result(bytes.subrange(0, 176)) {
            Err(error) => Err(error),
            Ok(header) => if bytes.len() != header.hot_pages_offset {
                Err(data_error("series v3 root length"))
            } else if root_crc_of(bytes) != header.root_crc32c {
                Err(data_error("series v3 root CRC mismatch"))
            } else if exists|i: int|
                directory_end(header) <= i < bytes.len() && #[trigger] bytes[i] != 0 {
                Err(data_error("series v3 root padding is nonzero"))
            } else {
                Ok(header)
            },
        }
    }
}

/// The root that a byte sequence holds.
pub open spec fn decode_root_result(bytes: Seq<u8>) -> Result<SeriesRoot, Error> {
    match root_prefix_result(bytes) {
        Err(error) => Err(error),
        Ok(header) => match hot_list_result(bytes, header, header.page_count as nat) {
            Err(error) => Err(error),
            Ok(hot) => match cold_list_result(bytes, header, header.cold_page_count as nat) {
                Err(error) => Err(error),
                Ok(cold) => Ok(SeriesRoot { header, hot, cold }),
            },
        },
    }
}

/// A decoded root's result over its view.
pub open spec fn root_view(result: Result<SeriesRootV3, Error>) -> Result<SeriesRoot, Error> {
    match result {
        Ok(root) => Ok(root@),
        Err(error) => Err(error),
    }
}

/// Copies `source` over the bytes from `offset` on.
pub(crate) fn copy_into(bytes: &mut Vec<u8>, offset: usize, source: &[u8])
    requires
        offset + source@.len() <= old(bytes)@.len(),
    ensures
        final(bytes)@ == splice(old(bytes)@, offset as int, source@),
{
    let ghost before = bytes@;
    assert(bytes@.len() == bytes.len());
    let mut i: usize = 0;
    while i < source.len()
        invariant
            i <= source@.len(),
            offset + source@.len() <= before.len(),
            bytes@ == splice(before, offset as int, source@.take(i as int)),
        decreases source@.len() - i,
    {
        assert(bytes@.len() == bytes.len());
        bytes.set(offset + i, source[i]);
        i += 1;
        assert(bytes@ =~= splice(before, offset as int, source@.take(i as int)));
    }
    assert(source@.take(i as int) =~= source@);
}

pub fn compute_series_root_crc32c(bytes: &[u8]) -> (result: Result<u32, Error>)
    ensures
        result == (if bytes@.len() < 56 {
            Err(data_error("series v3 root is too short for its CRC"))
        } else {
            Ok::<u32, Error>(root_crc_of(bytes@))
        }),
{
    if bytes.len() < SERIES_ROOT_CRC_OFFSET_V3 + SERIES_ROOT_CRC_LEN_V3 {
        return Err(invalid_data("series v3 root is too short for its CRC"));
    }
    let crc: u32 = crc32c(&bytes[0..SERIES_ROOT_CRC_OFFSET_V3]);
    let zero = [0u8; SERIES_ROOT_CRC_LEN_V3];
    assert(zero@ =~= seq![0u8, 0u8, 0u8, 0u8]);
    let crc: u32 = crc32c_append(crc, &zero);
    Ok(
        crc32c_append(
            crc,
            &bytes[SERIES_ROOT_CRC_OFFSET_V3 + SERIES_ROOT_CRC_LEN_V3..bytes.len()],
        ),
    )
}

/// Checks that every descriptor is the one its position implies.
fn validate_descriptors(
    header: SeriesHeaderV3,
    hot_descriptors: &[SeriesHotPageDescriptorV1],
    cold_descriptors: &[SeriesColdPageDescriptorV1],
) -> (result: Result<(), Error>)
    requires
        header_result(header) is Ok,
        hot_descriptors@.len() == header.page_count,
        cold_descriptors@.len() == header.cold_page_count,
    ensures
        result == (if !hot_canonical(header, hot_descriptors@) {
            Err(data_error("series v3 hot descriptor is noncanonical"))
        } else if !cold_canonical(header, cold_descriptors@) {
            Err(data_error("series v3 cold descriptor is noncanonical"))
        } else {
            Ok::<(), Error>(())
        }),
{
    let mut page: usize = 0;
    while page < hot_descriptors.len()
        invariant
            page <= hot_descriptors@.len(),
            hot_descriptors@.len() == header.page_count,
            header_result(header) is Ok,
            forall|i: int|
                0 <= i < page ==> hot_descriptor_result(
                    #[trigger] hot_descriptors@[i],
                    header,
                    i as u32,
                ) is Ok,
        decreases hot_descriptors@.len() - page,
    {
        let page_index: u32 = checked_u32(page, "hot page index")?;
        proof {
            hot_page_cover_law(header, page_index);
        }
        let descriptor = hot_descriptors[page];
        assert(hot_descriptors@[page as int] == descriptor);
        descriptor.validate(header, page_index)?;
        page += 1;
    }
    let mut page: usize = 0;
    while page < cold_descriptors.len()
        invariant
            page <= cold_descriptors@.len(),
            cold_descriptors@.len() == header.cold_page_count,
            header_result(header) is Ok,
            hot_canonical(header, hot_descriptors@),
            forall|i: int|
                0 <= i < page ==> cold_descriptor_result(
                    #[trigger] cold_descriptors@[i],
                    header,
                    i as u32,
                ) is Ok,
        decreases cold_descriptors@.len() - page,
    {
        let page_index: u32 = checked_u32(page, "cold page index")?;
        proof {
            cold_page_cover_law(header, page_index);
        }
        let descriptor = cold_descriptors[page];
        assert(cold_descriptors@[page as int] == descriptor);
        descriptor.validate(header, page_index)?;
        page += 1;
    }
    Ok(())
}

/// A splice behind a directory position leaves the earlier slots as they are.
proof fn lemma_slots_kept(bytes: Seq<u8>, offset: int, patch: Seq<u8>)
    requires
        0 <= offset,
        offset + patch.len() <= bytes.len(),
    ensures
        forall|i: int|
            0 <= i && 176 + 16 * i + 16 <= offset ==> #[trigger] descriptor_slot(
                splice(bytes, offset, patch),
                i,
            ) == descriptor_slot(bytes, i),
        offset >= 176 ==> splice(bytes, offset, patch).subrange(0, 176) == bytes.subrange(0, 176),
{
    let after = splice(bytes, offset, patch);
    assert forall|i: int| 0 <= i && 176 + 16 * i + 16 <= offset implies #[trigger] descriptor_slot(
        after,
        i,
    ) == descriptor_slot(bytes, i) by {
        assert(descriptor_slot(after, i) =~= descriptor_slot(bytes, i));
    }
    if offset >= 176 {
        assert(after.subrange(0, 176) =~= bytes.subrange(0, 176));
    }
}

/// Storing a checksum in an encoded root changes the header's checksum and
/// nothing else, and leaves the checksum of the root as it is.
proof fn lemma_store_root_crc(bytes: Seq<u8>, root: SeriesRoot, crc: u32)
    requires
        encodes_root(bytes, root),
        bytes.len() >= 176,
    ensures
        encodes_root(
            splice(bytes, 52, u32_bytes(crc)),
            SeriesRoot { header: with_root_crc(root.header, crc), ..root },
        ),
        root_crc_of(splice(bytes, 52, u32_bytes(crc))) == root_crc_of(bytes),
{
    let after = splice(bytes, 52, u32_bytes(crc));
    let head = bytes.subrange(0, 176);
    let head_after = after.subrange(0, 176);
    assert(head_after =~= splice(head, 52, u32_bytes(crc)));
    root_crc_field_law(head, root.header, crc);
    assert forall|i: int| 0 <= i && 176 + 16 * i + 16 <= bytes.len() implies #[trigger]
    descriptor_slot(after, i) == descriptor_slot(bytes, i) by {
        assert(descriptor_slot(after, i) =~= descriptor_slot(bytes, i));
    }
    assert(after.subrange(0, 52) =~= bytes.subrange(0, 52));
    assert(after.subrange(56, after.len() as int) =~= bytes.subrange(56, bytes.len() as int));
}

/// Writes the header, the descriptors and the padding of a root.
fn write_root(
    header: SeriesHeaderV3,
    hot_descriptors: &[SeriesHotPageDescriptorV1],
    cold_descriptors: &[SeriesColdPageDescriptorV1],
    encoded_header: &[u8],
    root_len: usize,
) -> (bytes: Vec<u8>)
    requires
        hot_descriptors@.len() == header.page_count,
        cold_descriptors@.len() == header.cold_page_count,
        encodes_header(encoded_header@, header),
        encoded_header@.len() == 176,
        root_len == header.hot_pages_offset,
        directory_end(header) <= root_len,
    ensures
        encodes_root(
            bytes@,
            SeriesRoot { header, hot: hot_descriptors@, cold: cold_descriptors@ },
        ),
{
    let mut bytes: Vec<u8> = zeroed_vec(root_len);
    copy_into(&mut bytes, 0, encoded_header);
    assert(bytes@.subrange(0, 176) =~= encoded_header@);
    let mut cursor: usize = SERIES_HEADER_LEN_V3;
    let mut page: usize = 0;
    while page < hot_descriptors.len()
        invariant
            page <= hot_descriptors@.len(),
            hot_descriptors@.len() + cold_descriptors@.len() == header.page_count
                + header.cold_page_count,
            cursor == 176 + 16 * page,
            directory_end(header) <= bytes@.len(),
            bytes@.len() == header.hot_pages_offset,
            encodes_header(bytes@.subrange(0, 176), header),
            forall|i: int|
                0 <= i < page ==> encodes_hot_descriptor(
                    #[trigger] descriptor_slot(bytes@, i),
                    hot_descriptors@[i],
                ),
            forall|i: int| cursor <= i < bytes@.len() ==> #[trigger] bytes@[i] == 0,
        decreases hot_descriptors@.len() - page,
    {
        let ghost before = bytes@;
        let encoded = hot_descriptors[page].encode();
        assert(bytes@.len() == bytes.len());
        copy_into(&mut bytes, cursor, &encoded);
        proof {
            lemma_slots_kept(before, cursor as int, encoded@);
            assert(descriptor_slot(bytes@, page as int) =~= encoded@);
        }
        cursor += SERIES_DESCRIPTOR_LEN_V1;
        page += 1;
    }
    let mut page: usize = 0;
    while page < cold_descriptors.len()
        invariant
            page <= cold_descriptors@.len(),
            hot_descriptors@.len() + cold_descriptors@.len() == header.page_count
                + header.cold_page_count,
            cursor == 176 + 16 * (hot_descriptors@.len() + page),
            directory_end(header) <= bytes@.len(),
            bytes@.len() == header.hot_pages_offset,
            encodes_header(bytes@.subrange(0, 176), header),
            forall|i: int|
                0 <= i < hot_descriptors@.len() ==> encodes_hot_descriptor(
                    #[trigger] descriptor_slot(bytes@, i),
                    hot_descriptors@[i],
                ),
            forall|i: int|
                0 <= i < page ==> encodes_cold_descriptor(
                    #[trigger] descriptor_slot(bytes@, hot_descriptors@.len() + i),
                    cold_descriptors@[i],
                ),
            forall|i: int| cursor <= i < bytes@.len() ==> #[trigger] bytes@[i] == 0,
        decreases cold_descriptors@.len() - page,
    {
        let ghost before = bytes@;
        let encoded = cold_descriptors[page].encode();
        assert(bytes@.len() == bytes.len());
        copy_into(&mut bytes, cursor, &encoded);
        proof {
            lemma_slots_kept(before, cursor as int, encoded@);
            assert(descriptor_slot(bytes@, hot_descriptors@.len() + page) =~= encoded@);
        }
        cursor += SERIES_DESCRIPTOR_LEN_V1;
        page += 1;
    }
    bytes
}

/// Encodes a root and returns its header with the checksum filled in.
pub fn encode_series_root_v3(
    header: SeriesHeaderV3,
    hot_descriptors: &[SeriesHotPageDescriptorV1],
    cold_descriptors: &[SeriesColdPageDescriptorV1],
) -> (result: Result<(SeriesHeaderV3, Vec<u8>), Error>)
    ensures
        match encodable_root_result(
            SeriesRoot { header, hot: hot_descriptors@, cold: cold_descriptors@ },
        ) {
            Err(error) => result == Err::<(SeriesHeaderV3, Vec<u8>), Error>(error),
            Ok(_) => {
                &&& result is Ok
                &&& result->Ok_0.0 == with_root_crc(header, root_crc_of(result->Ok_0.1@))
                &&& encodes_root(
                    result->Ok_0.1@,
                    SeriesRoot {
                        header: result->Ok_0.0,
                        hot: hot_descriptors@,
                        cold: cold_descriptors@,
                    },
                )
            },
        },
{
    header.validate()?;
    require_count(hot_descriptors.len(), header.page_count, "series v3 hot descriptor count")?;
    require_count(
        cold_descriptors.len(),
        header.cold_page_count,
        "series v3 cold descriptor count",
    )?;
    validate_descriptors(header, hot_descriptors, cold_descriptors)?;

    let mut header = header;
    let ghost given = header;
    header.root_crc32c = 0;
    let root_len: usize = checked_usize(header.hot_pages_offset, "series v3 root length")?;
    proof {
        lemma_result_without_crc(given, 0);
        section_layout_law(header);
    }
    let encoded_header = header.encode()?;
    let mut bytes: Vec<u8> = write_root(
        header,
        hot_descriptors,
        cold_descriptors,
        &encoded_header,
        root_len,
    );
    let ghost root = SeriesRoot { header, hot: hot_descriptors@, cold: cold_descriptors@ };
    let root_crc32c: u32 = compute_series_root_crc32c(&bytes)?;
    proof {
        lemma_store_root_crc(bytes@, root, root_crc32c);
    }
    put_u32(&mut bytes, SERIES_ROOT_CRC_OFFSET_V3, root_crc32c);
    header.root_crc32c = root_crc32c;
    Ok((header, bytes))
}

/// A malformed descriptor makes the whole list malformed.
proof fn lemma_hot_list_error(bytes: Seq<u8>, header: SeriesHeaderV3, n: nat, m: nat)
    requires
        n <= m,
        hot_list_result(bytes, header, n) is Err,
    ensures
        hot_list_result(bytes, header, m) == hot_list_result(bytes, header, n),
    decreases m,
{
    if n < m {
        lemma_hot_list_error(bytes, header, n, (m - 1) as nat);
    }
}

/// A malformed descriptor makes the whole list malformed.
proof fn lemma_cold_list_error(bytes: Seq<u8>, header: SeriesHeaderV3, n: nat, m: nat)
    requires
        n <= m,
        cold_list_result(bytes, header, n) is Err,
    ensures
        cold_list_result(bytes, header, m) == cold_list_result(bytes, header, n),
    decreases m,
{
    if n < m {
        lemma_cold_list_error(bytes, header, n, (m - 1) as nat);
    }
}

/// Decodes one hot descriptor of the directory and checks its position.
fn decode_hot_slot(bytes: &[u8], header: SeriesHeaderV3, page_index: u32) -> (result: Result<
    SeriesHotPageDescriptorV1,
    Error,
>)
    requires
        header_result(header) is Ok,
        page_index < header.page_count,
        directory_end(header) <= bytes@.len(),
    ensures
        match decode_hot_descriptor_result(descriptor_slot(bytes@, page_index as int)) {
            Err(error) => result == Err::<SeriesHotPageDescriptorV1, Error>(error),
            Ok(descriptor) => match hot_descriptor_result(descriptor, header, page_index) {
                Err(error) => result == Err::<SeriesHotPageDescriptorV1, Error>(error),
                Ok(_) => result == Ok::<SeriesHotPageDescriptorV1, Error>(descriptor),
            },
        },
{
    proof {
        hot_page_cover_law(header, page_index);
    }
    assert(bytes@.len() == bytes.len());
    let start: usize = SERIES_HEADER_LEN_V3 + page_index as usize * SERIES_DESCRIPTOR_LEN_V1;
    let descriptor = SeriesHotPageDescriptorV1::decode(
        &bytes[start..start + SERIES_DESCRIPTOR_LEN_V1],
    )?;
    descriptor.validate(header, page_index)?;
    Ok(descriptor)
}

/// Decodes one cold descriptor of the directory and checks its position.
fn decode_cold_slot(bytes: &[u8], header: SeriesHeaderV3, page_index: u32) -> (result: Result<
    SeriesColdPageDescriptorV1,
    Error,
>)
    requires
        page_index < header.cold_page_count,
        directory_end(header) <= bytes@.len(),
    ensures
        match decode_cold_descriptor_result(
            descriptor_slot(bytes@, header.page_count + page_index),
        ) {
            Err(error) => result == Err::<SeriesColdPageDescriptorV1, Error>(error),
            Ok(descriptor) => match cold_descriptor_result(descriptor, header, page_index) {
                Err(error) => result == Err::<SeriesColdPageDescriptorV1, Error>(error),
                Ok(_) => result == Ok::<SeriesColdPageDescriptorV1, Error>(descriptor),
            },
        },
{
    assert(bytes@.len() == bytes.len());
    let position: usize = header.page_count as usize + page_index as usize;
    let start: usize = SERIES_HEADER_LEN_V3 + position * SERIES_DESCRIPTOR_LEN_V1;
    let descriptor = SeriesColdPageDescriptorV1::decode(
        &bytes[start..start + SERIES_DESCRIPTOR_LEN_V1],
    )?;
    descriptor.validate(header, page_index)?;
    Ok(descriptor)
}

/// Whether every byte from `start` on is zero.
pub(crate) fn all_zero_from(bytes: &[u8], start: usize) -> (zero: bool)
    requires
        start <= bytes@.len(),
    ensures
        zero == !(exists|i: int| start <= i < bytes@.len() && #[trigger] bytes@[i] != 0),
{
    let mut i: usize = start;
    while i < bytes.len()
        invariant
            start <= i <= bytes@.len(),
            forall|j: int| start <= j < i ==> #[trigger] bytes@[j] == 0,
        decreases bytes@.len() - i,
    {
        if bytes[i] != 0 {
            assert(bytes@[i as int] != 0);
            return false;
        }
        i += 1;
    }
    true
}

/// Decodes the hot descriptors of the directory.
fn decode_hot_list(bytes: &[u8], header: SeriesHeaderV3) -> (result: Result<
    Vec<SeriesHotPageDescriptorV1>,
    Error,
>)
    requires
        header_result(header) is Ok,
        directory_end(header) <= bytes@.len(),
    ensures
        vec_result(result) == hot_list_result(bytes@, header, header.page_count as nat),
{
    let mut descriptors: Vec<SeriesHotPageDescriptorV1> = Vec::with_capacity(
        header.page_count as usize,
    );
    let mut page_index: u32 = 0;
    while page_index < header.page_count
        invariant
            page_index <= header.page_count,
            header_result(header) is Ok,
            directory_end(header) <= bytes@.len(),
            hot_list_result(bytes@, header, page_index as nat) == Ok::<
                Seq<SeriesHotPageDescriptorV1>,
                Error,
            >(descriptors@),
        decreases header.page_count - page_index,
    {
        match decode_hot_slot(bytes, header, page_index) {
            Ok(descriptor) => {
                descriptors.push(descriptor);
            },
            Err(error) => {
                proof {
                    lemma_hot_list_error(
                        bytes@,
                        header,
                        (page_index + 1) as nat,
                        header.page_count as nat,
                    );
                }
                return Err(error);
            },
        }
        page_index += 1;
    }
    Ok(descriptors)
}

/// Decodes the cold descriptors of the directory.
fn decode_cold_list(bytes: &[u8], header: SeriesHeaderV3) -> (result: Result<
    Vec<SeriesColdPageDescriptorV1>,
    Error,
>)
    requires
        directory_end(header) <= bytes@.len(),
    ensures
        vec_result(result) == cold_list_result(bytes@, header, header.cold_page_count as nat),
{
    let mut descriptors: Vec<SeriesColdPageDescriptorV1> = Vec::with_capacity(
        header.cold_page_count as usize,
    );
    let mut page_index: u32 = 0;
    while page_index < header.cold_page_count
        invariant
            page_index <= header.cold_page_count,
            directory_end(header) <= bytes@.len(),
            cold_list_result(bytes@, header, page_index as nat) == Ok::<
                Seq<SeriesColdPageDescriptorV1>,
                Error,
            >(descriptors@),
        decreases header.cold_page_count - page_index,
    {
        match decode_cold_slot(bytes, header, page_index) {
            Ok(descriptor) => {
                descriptors.push(descriptor);
            },
            Err(error) => {
                proof {
                    lemma_cold_list_error(
                        bytes@,
                        header,
                        (page_index + 1) as nat,
                        header.cold_page_count as nat,
                    );
                }
                return Err(error);
            },
        }
        page_index += 1;
    }
    Ok(descriptors)
}

/// Decodes the header of a root and checks its checksum and padding.
fn decode_root_prefix(bytes: &[u8]) -> (result: Result<SeriesHeaderV3, Error>)
    ensures
        result == root_prefix_result(bytes@),
        result matches Ok(header) ==> header_result(header) is Ok && directory_end(header)
            <= bytes@.len(),
{
    if bytes.len() < SERIES_HEADER_LEN_V3 {
        return Err(invalid_data("series v3 root is shorter than its header"));
    }
    let header = SeriesHeaderV3::decode(&bytes[0..SERIES_HEADER_LEN_V3])?;
    if bytes.len() as u64 != header.hot_pages_offset {
        return Err(invalid_data("series v3 root length"));
    }
    let root_crc32c: u32 = compute_series_root_crc32c(bytes)?;
    if root_crc32c != header.root_crc32c {
        return Err(invalid_data("series v3 root CRC mismatch"));
    }
    proof {
        section_layout_law(header);
    }
    assert(bytes@.len() == bytes.len());
    let end: usize = SERIES_HEADER_LEN_V3 + header.directory_len as usize;
    if !all_zero_from(bytes, end) {
        return Err(invalid_data("series v3 root padding is nonzero"));
    }
    Ok(header)
}

/// Decodes, authenticates and validates a complete root.
pub fn decode_series_root_v3(bytes: &[u8]) -> (result: Result<SeriesRootV3, Error>)
    ensures
        root_view(result) == decode_root_result(bytes@),
{
    let header = decode_root_prefix(bytes)?;
    let hot_descriptors = decode_hot_list(bytes, header)?;
    let cold_descriptors = decode_cold_list(bytes, header)?;
    Ok(SeriesRootV3 { header, hot_descriptors, cold_descriptors })
}

/// The logical bytes of a root whose descriptor vectors have these capacities.
pub open spec fn root_charge_result(
    fixed: nat,
    hot_capacity: usize,
    cold_capacity: usize,
    text: &'static str,
) -> Result<u64, Error> {
    let charge = fixed + hot_capacity * vstd::layout::size_of::<SeriesHotPageDescriptorV1>()
        + cold_capacity * vstd::layout::size_of::<SeriesColdPageDescriptorV1>();
    if charge > usize::MAX {
        Err(memory_error(text))
    } else {
        Ok(charge as u64)
    }
}

/// The bytes that are declared for a root of this encoded length.
pub open spec fn declared_root_result(root_len: u64) -> Result<u64, Error> {
    if vstd::layout::size_of::<SeriesRootV3>() + root_len > u64::MAX {
        Err(memory_error("series v3 root declared charge overflows"))
    } else {
        Ok((vstd::layout::size_of::<SeriesRootV3>() + root_len) as u64)
    }
}

proof fn lemma_hot_count(bytes: Seq<u8>, header: SeriesHeaderV3, n: nat)
    requires
        hot_list_result(bytes, header, n) is Ok,
    ensures
        hot_list_result(bytes, header, n)->Ok_0.len() == n,
    decreases n,
{
    if n > 0 {
        lemma_hot_count(bytes, header, (n - 1) as nat);
    }
}

proof fn lemma_cold_count(bytes: Seq<u8>, header: SeriesHeaderV3, n: nat)
    requires
        cold_list_result(bytes, header, n) is Ok,
    ensures
        cold_list_result(bytes, header, n)->Ok_0.len() == n,
    decreases n,
{
    if n > 0 {
        lemma_cold_count(bytes, header, (n - 1) as nat);
    }
}

/// The bytes declared for an encoded root cover the decoded root, where a
/// descriptor takes no more room decoded than encoded, and the descriptor lists
/// hold exactly their count.
pub proof fn declared_root_law(bytes: Seq<u8>, text: &'static str)
    requires
        decode_root_result(bytes) is Ok,
        vstd::layout::size_of::<SeriesHotPageDescriptorV1>() <= 16,
        vstd::layout::size_of::<SeriesColdPageDescriptorV1>() <= 16,
        vstd::layout::size_of::<SeriesRootV3>() + bytes.len() <= usize::MAX,
    ensures
        ({
            let root = decode_root_result(bytes)->Ok_0;
            let declared = declared_root_result(bytes.len() as u64);
            let charged = root_charge_result(
                vstd::layout::size_of::<SeriesRootV3>(),
                root.hot.len() as usize,
                root.cold.len() as usize,
                text,
            );
            &&& root.hot.len() == root.header.page_count
            &&& root.cold.len() == root.header.cold_page_count
            &&& declared is Ok
            &&& charged is Ok
            &&& charged->Ok_0 <= declared->Ok_0
        }),
{
    let root = decode_root_result(bytes)->Ok_0;
    let header = root.header;
    let hot_size = vstd::layout::size_of::<SeriesHotPageDescriptorV1>();
    let cold_size = vstd::layout::size_of::<SeriesColdPageDescriptorV1>();
    lemma_hot_count(bytes, header, header.page_count as nat);
    lemma_cold_count(bytes, header, header.cold_page_count as nat);
    section_layout_law(header);
    assert(header.page_count * hot_size <= 16 * header.page_count) by (nonlinear_arith)
        requires
            hot_size <= 16,
    ;
    assert(header.cold_page_count * cold_size <= 16 * header.cold_page_count) by (nonlinear_arith)
        requires
            cold_size <= 16,
    ;
}

/// Adds the logical bytes of two descriptor vectors to a fixed size.
pub fn root_charge(fixed: usize, hot_capacity: usize, cold_capacity: usize, text: &'static str) -> (
result: Result<u64, Error>)
    ensures
        result == root_charge_result(fixed as nat, hot_capacity, cold_capacity, text),
{
    let hot_size: usize = size_of::<SeriesHotPageDescriptorV1>();
    let cold_size: usize = size_of::<SeriesColdPageDescriptorV1>();
    assert(hot_capacity * hot_size >= 0) by (nonlinear_arith);
    assert(cold_capacity * cold_size >= 0) by (nonlinear_arith);
    let hot_bytes: usize = match hot_capacity.checked_mul(hot_size) {
        Some(bytes) => bytes,
        None => {
            return Err(resource_error(text));
        },
    };
    let cold_bytes: usize = match cold_capacity.checked_mul(cold_size) {
        Some(bytes) => bytes,
        None => {
            return Err(resource_error(text));
        },
    };
    match fixed.checked_add(hot_bytes) {
        None => Err(resource_error(text)),
        Some(bytes) => match bytes.checked_add(cold_bytes) {
            None => Err(resource_error(text)),
            Some(bytes) => Ok(bytes as u64),
        },
    }
}

impl SeriesRootV3 {
    /// Conservative allocation bound for a root discovered from its fixed
    /// header: the encoded root covers every decoded descriptor.
    pub fn declared_max_bytes(root_len: u64) -> (result: Result<u64, Error>)
        ensures
            result == declared_root_result(root_len),
    {
        let fixed: u64 = size_of::<SeriesRootV3>() as u64;
        match fixed.checked_add(root_len) {
            Some(charge) => Ok(charge),
            None => Err(resource_error("series v3 root declared charge overflows")),
        }
    }

    /// The logical bytes owned by this root, at the capacities its descriptor
    /// vectors have.
    pub fn charged_bytes(&self) -> (result: Result<u64, Error>)
        ensures
            exists|hot_capacity: usize, cold_capacity: usize|
                hot_capacity >= self.hot_descriptors@.len() && cold_capacity
                    >= self.cold_descriptors@.len() && result == #[trigger] root_charge_result(
                    vstd::layout::size_of::<SeriesRootV3>(),
                    hot_capacity,
                    cold_capacity,
                    "series v3 root charge overflows",
                ),
    {
        let hot_capacity: usize = vec_capacity(&self.hot_descriptors);
        let cold_capacity: usize = vec_capacity(&self.cold_descriptors);
        root_charge(
            size_of::<SeriesRootV3>(),
            hot_capacity,
            cold_capacity,
            "series v3 root charge overflows",
        )
    }
}

/// The root that decoding an encoded root gives back.
pub proof fn root_round_trip_law(bytes: Seq<u8>, root: SeriesRoot)
    requires
        encodable_root_result(root) is Ok,
        encodes_root(bytes, root),
        root.header.root_crc32c == root_crc_of(bytes),
    ensures
        decode_root_result(bytes) == Ok::<SeriesRoot, Error>(root),
{
    let header = root.header;
    crate::v3::header::header_round_trip_law(bytes.subrange(0, 176), header);
    section_layout_law(header);
    lemma_hot_list(bytes, root, root.hot.len());
    lemma_cold_list(bytes, root, root.cold.len());
    assert(root.hot.take(root.hot.len() as int) =~= root.hot);
    assert(root.cold.take(root.cold.len() as int) =~= root.cold);
}

proof fn lemma_hot_list(bytes: Seq<u8>, root: SeriesRoot, n: nat)
    requires
        encodes_root(bytes, root),
        hot_canonical(root.header, root.hot),
        n <= root.hot.len(),
    ensures
        hot_list_result(bytes, root.header, n) == Ok::<Seq<SeriesHotPageDescriptorV1>, Error>(
            root.hot.take(n as int),
        ),
    decreases n,
{
    if n == 0 {
        assert(root.hot.take(0) =~= Seq::empty());
    } else {
        lemma_hot_list(bytes, root, (n - 1) as nat);
        assert(encodes_hot_descriptor(descriptor_slot(bytes, n - 1), root.hot[n - 1]));
        assert(root.hot.take(n - 1).push(root.hot[n - 1]) =~= root.hot.take(n as int));
    }
}

proof fn lemma_cold_list(bytes: Seq<u8>, root: SeriesRoot, n: nat)
    requires
        encodes_root(bytes, root),
        cold_canonical(root.header, root.cold),
        root.hot.len() == root.header.page_count,
        n <= root.cold.len(),
    ensures
        cold_list_result(bytes, root.header, n) == Ok::<Seq<SeriesColdPageDescriptorV1>, Error>(
            root.cold.take(n as int),
        ),
    decreases n,
{
    if n == 0 {
        assert(root.cold.take(0) =~= Seq::empty());
    } else {
        lemma_cold_list(bytes, root, (n - 1) as nat);
        assert(encodes_cold_descriptor(
            descriptor_slot(bytes, root.hot.len() + (n - 1)),
            root.cold[n - 1],
        ));
        assert(root.cold.take(n - 1).push(root.cold[n - 1]) =~= root.cold.take(n as int));
    }
}

} // verus!
