//! Authenticated pages of the cold label stream.

use chronoxide_series::error::{Error, ErrorKind};
use chronoxide_series::v3::cold_reader::ValidatedSeriesColdPage;
use chronoxide_series::v3::header::{
    SeriesHeaderV3, SeriesHeaderV3Params, SERIES_COLD_PAGE_LEN_V1,
};
use chronoxide_series::v3::root::SeriesColdPageDescriptorV1;
use crc32c::crc32c;

const SEGMENT_START_MS: u64 = 1_000;
const SEGMENT_END_MS: u64 = 2_000;

fn header_with_cold_lengths(
    keysets_len: u64,
    value_dicts_len: u64,
    keyset_blocks_len: u64,
) -> SeriesHeaderV3 {
    SeriesHeaderV3::new(SeriesHeaderV3Params {
        num_series: 1,
        num_keysets: 1,
        num_value_dicts: 1,
        chunk_index_root_crc32c: 0x1234_5678,
        keysets_len,
        value_dicts_len,
        keyset_blocks_len,
        segment_start_ms: SEGMENT_START_MS,
        segment_end_ms: SEGMENT_END_MS,
        chunk_index_file_len: 64,
    })
    .unwrap()
}

fn two_page_header() -> SeriesHeaderV3 {
    header_with_cold_lengths(SERIES_COLD_PAGE_LEN_V1, 16, 16)
}

fn page_bytes(len: usize, seed: u8) -> Vec<u8> {
    (0..len)
        .map(|index| seed.wrapping_add(index as u8))
        .collect()
}

fn assert_invalid(error: Error, expected: &str) {
    assert_eq!(error.kind(), ErrorKind::InvalidData);
    assert!(
        error.to_string().contains(expected),
        "unexpected error: {}",
        error.to_string()
    );
}

#[test]
fn authenticates_one_exact_full_cold_page_and_reports_its_charge() {
    let header = two_page_header();
    assert_eq!(header.cold_page_count, 2);
    let bytes = page_bytes(SERIES_COLD_PAGE_LEN_V1 as usize, 7);
    let descriptor = SeriesColdPageDescriptorV1::new(header, 0, crc32c(&bytes)).unwrap();

    let page = ValidatedSeriesColdPage::decode(header, 0, descriptor, &bytes).unwrap();
    let owned =
        ValidatedSeriesColdPage::decode_owned(header, 0, descriptor, bytes.clone()).unwrap();

    assert_eq!(page.bytes_for(header, 0, descriptor).unwrap(), bytes);
    assert_eq!(owned, page);
    assert_eq!(
        page.charged_bytes().unwrap(),
        (std::mem::size_of::<ValidatedSeriesColdPage>() + bytes.len()) as u64
    );
    assert_eq!(
        page.charged_bytes().unwrap(),
        ValidatedSeriesColdPage::declared_max_bytes(descriptor).unwrap()
    );
}

#[test]
fn final_page_has_its_exact_short_length_and_rejects_physical_padding() {
    let header = two_page_header();
    let bytes = page_bytes(32, 19);
    let descriptor = SeriesColdPageDescriptorV1::new(header, 1, crc32c(&bytes)).unwrap();
    assert_eq!(descriptor.page_len, 32);

    let page = ValidatedSeriesColdPage::decode(header, 1, descriptor, &bytes).unwrap();
    assert_eq!(page.bytes_for(header, 1, descriptor).unwrap(), bytes);

    assert_invalid(
        ValidatedSeriesColdPage::decode(header, 1, descriptor, &bytes[..31]).unwrap_err(),
        "length is not exact",
    );
    let padded = vec![0; SERIES_COLD_PAGE_LEN_V1 as usize];
    assert_invalid(
        ValidatedSeriesColdPage::decode(header, 1, descriptor, &padded).unwrap_err(),
        "length is not exact",
    );
}

#[test]
fn cache_hit_rejects_header_page_and_descriptor_substitution() {
    let header = header_with_cold_lengths(SERIES_COLD_PAGE_LEN_V1 * 2, 16, 16);
    assert_eq!(header.cold_page_count, 3);
    let bytes = page_bytes(SERIES_COLD_PAGE_LEN_V1 as usize, 23);
    let descriptor0 = SeriesColdPageDescriptorV1::new(header, 0, crc32c(&bytes)).unwrap();
    let page = ValidatedSeriesColdPage::decode(header, 0, descriptor0, &bytes).unwrap();

    let substituted_header = SeriesHeaderV3::new(SeriesHeaderV3Params {
        num_series: 1,
        num_keysets: 1,
        num_value_dicts: 1,
        chunk_index_root_crc32c: 0x1234_5678,
        keysets_len: SERIES_COLD_PAGE_LEN_V1 * 2,
        value_dicts_len: 16,
        keyset_blocks_len: 16,
        segment_start_ms: SEGMENT_START_MS + 1,
        segment_end_ms: SEGMENT_END_MS + 1,
        chunk_index_file_len: 64,
    })
    .unwrap();
    assert_invalid(
        page.bytes_for(substituted_header, 0, descriptor0)
            .unwrap_err(),
        "decode context does not match",
    );

    let descriptor1 = SeriesColdPageDescriptorV1::new(header, 1, crc32c(&bytes)).unwrap();
    assert_invalid(
        page.bytes_for(header, 1, descriptor1).unwrap_err(),
        "decode context does not match",
    );

    let other_bytes = page_bytes(SERIES_COLD_PAGE_LEN_V1 as usize, 29);
    let substituted_descriptor =
        SeriesColdPageDescriptorV1::new(header, 0, crc32c(&other_bytes)).unwrap();
    assert_invalid(
        page.bytes_for(header, 0, substituted_descriptor)
            .unwrap_err(),
        "decode context does not match",
    );
}

#[test]
fn corruption_and_noncanonical_descriptor_are_rejected_before_ownership() {
    let header = two_page_header();
    let bytes = page_bytes(SERIES_COLD_PAGE_LEN_V1 as usize, 31);
    let descriptor = SeriesColdPageDescriptorV1::new(header, 0, crc32c(&bytes)).unwrap();

    let mut corrupt = bytes.clone();
    corrupt[8_191] ^= 1;
    assert_invalid(
        ValidatedSeriesColdPage::decode(header, 0, descriptor, &corrupt).unwrap_err(),
        "CRC mismatch",
    );

    let wrong_index = SeriesColdPageDescriptorV1 {
        page_index: 1,
        ..descriptor
    };
    assert_invalid(
        ValidatedSeriesColdPage::decode(header, 0, wrong_index, &bytes).unwrap_err(),
        "descriptor is noncanonical",
    );

    let wrong_length = SeriesColdPageDescriptorV1 {
        page_len: descriptor.page_len - 1,
        ..descriptor
    };
    assert_invalid(
        ValidatedSeriesColdPage::decode(header, 0, wrong_length, &bytes).unwrap_err(),
        "descriptor is noncanonical",
    );
}
