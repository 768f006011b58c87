//! Decoding of cold section bytes.

use std::ops::Range;

use chronoxide_series::chunk::ChunkIndexRange;
use chronoxide_series::cold_v2::plan::{SeriesColdV2Plan, SeriesColdV2SectionOffsets};
use chronoxide_series::cold_v2::reader::{
    canonical_value_code_width, checked_offset_table_len, decode_entry_range,
    decode_keyset_block_meta, decode_keyset_entry, decode_offset_table, decode_value_dict_meta,
    decode_value_dict_value, decode_value_dict_values, keyset_block_header_range,
    keyset_block_row_range, keyset_block_widths_range, offset_pair_range, offset_table_range,
    read_value_code, validate_keyset_block_key_count, validate_offset_table_minimum,
    validate_value_code_width, value_dict_header_range, value_dict_value_range, ColdSectionName,
};
use chronoxide_series::entry::SeriesEntry;
use chronoxide_series::error::{Error, ErrorKind};

fn put_u32(bytes: &mut [u8], offset: usize, value: u32) {
    bytes[offset..offset + 4].copy_from_slice(&value.to_le_bytes());
}

fn put_u64(bytes: &mut [u8], offset: usize, value: u64) {
    bytes[offset..offset + 8].copy_from_slice(&value.to_le_bytes());
}

fn assert_invalid(error: Error, expected: &str) {
    assert_eq!(error.kind(), ErrorKind::InvalidData);
    assert!(
        error.to_string().contains(expected),
        "unexpected error: {}",
        error.to_string()
    );
}

#[test]
fn offset_tables_and_point_ranges_enforce_exact_section_bounds() {
    let mut table = vec![0; 24];
    put_u64(&mut table, 0, 124);
    put_u64(&mut table, 8, 132);
    put_u64(&mut table, 16, 144);

    assert_eq!(checked_offset_table_len(2).unwrap(), 24);
    assert_eq!(offset_table_range(100, 144, 2).unwrap(), 100..124);
    assert_eq!(offset_pair_range(100, 144, 2, 0).unwrap(), 100..116);
    assert_eq!(offset_pair_range(100, 144, 2, 1).unwrap(), 108..124);
    assert_eq!(
        decode_entry_range(&table[..16], 100, 144, 2, 0).unwrap(),
        124..132
    );
    assert_eq!(
        decode_entry_range(&table[8..], 100, 144, 2, 1).unwrap(),
        132..144
    );
    assert_eq!(
        decode_offset_table(&table, 100, 144, 2).unwrap(),
        vec![124, 132, 144]
    );
    assert_eq!(
        decode_offset_table(&108u64.to_le_bytes(), 100, 108, 0).unwrap(),
        vec![108]
    );

    assert_invalid(
        validate_offset_table_minimum(23, 2, ColdSectionName::Keysets).unwrap_err(),
        "shorter than its offset table",
    );
    let mut bad = table.clone();
    put_u64(&mut bad, 8, 124);
    assert_invalid(
        decode_offset_table(&bad, 100, 144, 2).unwrap_err(),
        "not strictly increasing",
    );
    assert_invalid(
        decode_entry_range(&table[..16], 100, 131, 2, 0).unwrap_err(),
        "bounds are invalid",
    );
    assert_invalid(
        decode_offset_table(&108u64.to_le_bytes(), 100, 109, 0).unwrap_err(),
        "empty offset table",
    );
}

#[test]
fn keysets_require_zero_reserved_exact_length_and_strict_keys() {
    let mut bytes = vec![0; 20];
    put_u32(&mut bytes, 0, 3);
    put_u32(&mut bytes, 8, 1);
    put_u32(&mut bytes, 12, 4);
    put_u32(&mut bytes, 16, 9);
    assert_eq!(
        decode_keyset_entry(&bytes, 200, 220).unwrap(),
        vec![1, 4, 9]
    );

    let mut bad = bytes.clone();
    put_u32(&mut bad, 4, 1);
    assert_invalid(
        decode_keyset_entry(&bad, 200, 220).unwrap_err(),
        "reserved field",
    );
    let mut bad = bytes.clone();
    put_u32(&mut bad, 16, 4);
    assert_invalid(
        decode_keyset_entry(&bad, 200, 220).unwrap_err(),
        "not strictly increasing",
    );
    assert_invalid(
        decode_keyset_entry(&bytes, 200, 219).unwrap_err(),
        "not exact",
    );
}

#[test]
fn dictionaries_enforce_shape_codes_and_width_boundaries() {
    let mut header = [0; 8];
    put_u32(&mut header, 0, 7);
    put_u32(&mut header, 4, 3);
    let meta = decode_value_dict_meta(&header, 300, 320).unwrap();
    assert_eq!(meta.key_sym, 7);
    assert_eq!(meta.values_offset, 308);
    assert_eq!(value_dict_header_range(300, 320).unwrap(), 300..308);
    assert_eq!(value_dict_value_range(meta, 2).unwrap(), 316..320);
    assert_eq!(
        decode_value_dict_values(&[1, 0, 0, 0, 5, 0, 0, 0, 9, 0, 0, 0], meta).unwrap(),
        vec![1, 5, 9]
    );
    assert_eq!(
        decode_value_dict_value(&9u32.to_le_bytes(), meta, 2).unwrap(),
        9
    );

    assert_invalid(
        decode_value_dict_value(&0u32.to_le_bytes(), meta, 3).unwrap_err(),
        "out of bounds",
    );
    assert_invalid(
        value_dict_header_range(300, 307).unwrap_err(),
        "exceeds its entry",
    );

    for (cardinality, width) in [
        (1, 0),
        (2, 1),
        (256, 1),
        (257, 2),
        (65_536, 2),
        (65_537, 4),
        (u32::MAX, 4),
    ] {
        assert_eq!(canonical_value_code_width(cardinality).unwrap(), width);
        validate_value_code_width(width, cardinality).unwrap();
    }
    assert_invalid(
        canonical_value_code_width(0).unwrap_err(),
        "cardinality is zero",
    );
    assert_invalid(
        validate_value_code_width(2, 256).unwrap_err(),
        "noncanonical",
    );
}

#[test]
fn keyset_blocks_require_exact_canonical_widths_and_data_shape() {
    let mut fixed = [0; 16];
    put_u32(&mut fixed, 0, 2);
    put_u32(&mut fixed, 4, 3);
    put_u32(&mut fixed, 8, 3);
    put_u32(&mut fixed, 12, 6);
    let block = decode_keyset_block_meta(&fixed, &[0, 1, 2], 400, 425).unwrap();
    assert_eq!(block.rows, 2);
    assert_eq!(block.data_offset, 419);
    assert_eq!(keyset_block_header_range(400, 425).unwrap(), 400..416);
    assert_eq!(
        keyset_block_widths_range(&fixed, 400, 425).unwrap(),
        416..419
    );
    assert_eq!(keyset_block_row_range(&block, 0).unwrap(), 419..422);
    assert_eq!(keyset_block_row_range(&block, 1).unwrap(), 422..425);
    validate_keyset_block_key_count(&block, 3).unwrap();

    assert_invalid(
        decode_keyset_block_meta(&fixed, &[0, 3, 0], 400, 425).unwrap_err(),
        "width is invalid",
    );
    assert_invalid(
        decode_keyset_block_meta(&fixed, &[0, 1, 1], 400, 425).unwrap_err(),
        "row length does not match",
    );
    let mut zero_rows = fixed;
    put_u32(&mut zero_rows, 0, 0);
    assert_invalid(
        decode_keyset_block_meta(&zero_rows, &[0, 1, 2], 400, 425).unwrap_err(),
        "has no rows",
    );
    assert_invalid(
        keyset_block_header_range(400, 415).unwrap_err(),
        "exceeds its entry",
    );
    assert_invalid(
        keyset_block_widths_range(&fixed, 400, 418).unwrap_err(),
        "widths exceed",
    );
    assert_invalid(
        keyset_block_row_range(&block, 2).unwrap_err(),
        "out of bounds",
    );

    let row = [7, 0x34, 0x12, 0xef, 0xcd, 0xab, 0x89];
    let mut cursor = 0;
    assert_eq!(read_value_code(&row, &mut cursor, 0).unwrap(), 0);
    assert_eq!(read_value_code(&row, &mut cursor, 1).unwrap(), 7);
    assert_eq!(read_value_code(&row, &mut cursor, 2).unwrap(), 0x1234);
    assert_eq!(read_value_code(&row, &mut cursor, 4).unwrap(), 0x89ab_cdef);
    assert_eq!(cursor, row.len());
}

fn entry_at(file: &[u8], start: u64, end: u64, count: u32, index: u32) -> Range<u64> {
    let pair = offset_pair_range(start, end, count, index).unwrap();
    decode_entry_range(bytes_at(file, pair), start, end, count, index).unwrap()
}

fn bytes_at(file: &[u8], range: Range<u64>) -> &[u8] {
    &file[range.start as usize..range.end as usize]
}

/// The labels of a series, read from a file with the functions of the reader.
fn stored_labels(
    file: &[u8],
    plan: &SeriesColdV2Plan,
    offsets: SeriesColdV2SectionOffsets,
    keyset_id: u32,
    row: u32,
) -> Vec<(u32, u32)> {
    let keyset_range =
        entry_at(file, offsets.keysets, offsets.value_dicts, plan.num_keysets(), keyset_id);
    let keys = decode_keyset_entry(
        bytes_at(file, keyset_range.clone()),
        keyset_range.start,
        keyset_range.end,
    )
    .unwrap();
    let block_range =
        entry_at(file, offsets.keyset_blocks, offsets.end, plan.num_keysets(), keyset_id);
    let fixed_range = keyset_block_header_range(block_range.start, block_range.end).unwrap();
    let fixed = bytes_at(file, fixed_range);
    let widths_range =
        keyset_block_widths_range(fixed, block_range.start, block_range.end).unwrap();
    let block = decode_keyset_block_meta(
        fixed,
        bytes_at(file, widths_range),
        block_range.start,
        block_range.end,
    )
    .unwrap();
    let packed = if block.row_len_bytes == 0 {
        &[]
    } else {
        bytes_at(file, keyset_block_row_range(&block, row).unwrap())
    };
    let mut cursor = 0;
    let mut labels = Vec::new();
    for (key, width) in keys.iter().zip(block.widths.iter()) {
        let code = read_value_code(packed, &mut cursor, *width).unwrap();
        let meta = (0..plan.num_value_dicts())
            .map(|dict| {
                let range = entry_at(
                    file,
                    offsets.value_dicts,
                    offsets.keyset_blocks,
                    plan.num_value_dicts(),
                    dict,
                );
                let header = value_dict_header_range(range.start, range.end).unwrap();
                decode_value_dict_meta(bytes_at(file, header), range.start, range.end).unwrap()
            })
            .find(|meta| meta.key_sym == *key)
            .unwrap();
        let value = value_dict_value_range(meta, code).unwrap();
        labels.push((
            *key,
            decode_value_dict_value(bytes_at(file, value), meta, code).unwrap(),
        ));
    }
    assert_eq!(cursor, packed.len());
    labels
}

#[test]
fn appended_sections_give_back_the_sorted_labels_of_every_entry() {
    let series = |series_id: u64, labels: Vec<(u32, u32)>| SeriesEntry {
        series_id,
        kind_mask: 1,
        chunk_index: ChunkIndexRange { offset: 0, len: 0 },
        labels,
    };
    let mut entries = vec![
        series(1, vec![(9, 30), (2, 7)]),
        series(2, vec![(2, 8), (9, 31)]),
        series(3, vec![]),
        series(4, vec![(5, 5)]),
    ];
    for value in 0..300 {
        entries.push(series(10 + value as u64, vec![(40, value), (3, 1)]));
    }
    let plan = SeriesColdV2Plan::build(&entries).unwrap();
    let offsets = plan.section_offsets_at(512).unwrap();
    let mut file = vec![0xee; 512];
    plan.append_sections_at(&mut file, offsets).unwrap();
    for (entry, at) in entries.iter().zip(plan.series_rows()) {
        let mut sorted = entry.labels.clone();
        sorted.sort();
        assert_eq!(at.series_id, entry.series_id);
        assert_eq!(stored_labels(&file, &plan, offsets, at.keyset_id, at.row), sorted);
    }
}
