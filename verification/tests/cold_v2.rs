//! Cold section planning and encoding.

use chronoxide_series::chunk::ChunkIndexRange;
use chronoxide_series::cold_v2::blocks::{
    keyset_blocks_section_len, write_keyset_blocks_section, ColdKeysetRows,
};
use chronoxide_series::cold_v2::encode::{
    keysets_section_len, value_code_width, value_dicts_section_len, write_keysets_section,
    write_value_code, write_value_dicts_section,
};
use chronoxide_series::cold_v2::plan::{
    SeriesColdV2Lengths, SeriesColdV2Plan, SeriesColdV2SectionOffsets, SeriesColdV2SeriesRow,
};
use chronoxide_series::entry::SeriesEntry;
use chronoxide_series::error::ErrorKind;

#[test]
fn empty_plan_encodes_schema7_canonical_rebased_sections() {
    let plan = SeriesColdV2Plan::build(&[]).unwrap();
    assert!(plan.series_rows().is_empty());
    assert_eq!(plan.num_series(), 0);
    assert_eq!(plan.num_keysets(), 0);
    assert_eq!(plan.num_value_dicts(), 0);
    assert_eq!(
        plan.lengths(),
        SeriesColdV2Lengths {
            keysets: 8,
            value_dicts: 8,
            keyset_blocks: 8,
        }
    );

    let offsets = plan.section_offsets_at(4_096).unwrap();
    assert_eq!(
        offsets,
        SeriesColdV2SectionOffsets {
            keysets: 4_096,
            value_dicts: 4_104,
            keyset_blocks: 4_112,
            end: 4_120,
        }
    );
    let mut bytes = vec![0; 4_096];
    plan.append_sections_at(&mut bytes, offsets).unwrap();
    assert_eq!(bytes.len(), 4_120);
    assert_eq!(
        u64::from_le_bytes(bytes[4_096..4_104].try_into().unwrap()),
        4_104
    );
    assert_eq!(
        u64::from_le_bytes(bytes[4_104..4_112].try_into().unwrap()),
        4_112
    );
    assert_eq!(
        u64::from_le_bytes(bytes[4_112..4_120].try_into().unwrap()),
        4_120
    );
}

#[test]
fn nonempty_plan_rebases_every_section_terminal_offset() {
    let entries = sample_entries();
    let plan = SeriesColdV2Plan::build(&entries).unwrap();
    assert_eq!(
        plan.series_rows(),
        &[
            SeriesColdV2SeriesRow {
                series_id: 1,
                kind_mask: 1,
                keyset_id: 0,
                row: 0,
            },
            SeriesColdV2SeriesRow {
                series_id: 2,
                kind_mask: 4,
                keyset_id: 0,
                row: 1,
            },
        ]
    );
    assert_eq!(plan.num_series(), 2);
    assert_eq!(
        plan.lengths(),
        SeriesColdV2Lengths {
            keysets: 32,
            value_dicts: 52,
            keyset_blocks: 36,
        }
    );
    let offsets = plan.section_offsets_at(20_480).unwrap();
    assert_eq!(offsets.keysets, 20_480);
    assert_eq!(offsets.value_dicts, 20_512);
    assert_eq!(offsets.keyset_blocks, 20_564);
    assert_eq!(offsets.end, 20_600);
    let mut bytes = vec![0; 20_480];
    plan.append_sections_at(&mut bytes, offsets).unwrap();

    assert_eq!(bytes.len() as u64, offsets.end);
    assert_eq!(read_u64(&bytes, offsets.keysets + 8), offsets.value_dicts);
    assert_eq!(
        read_u64(&bytes, offsets.value_dicts + 16),
        offsets.keyset_blocks
    );
    assert_eq!(read_u64(&bytes, offsets.keyset_blocks + 8), offsets.end);
}

#[test]
fn canonical_build_matches_generic_normalization_and_bytes_exactly() {
    let unsorted = sample_entries();
    let mut canonical = unsorted.clone();
    for entry in &mut canonical {
        entry.labels.sort_unstable_by_key(|(key, _)| *key);
    }

    let generic_plan = SeriesColdV2Plan::build(&unsorted).unwrap();
    let canonical_plan = SeriesColdV2Plan::build_canonical(&canonical).unwrap();
    assert_eq!(canonical_plan, generic_plan);

    let offsets = generic_plan.section_offsets_at(4_096).unwrap();
    let mut generic_bytes = vec![0; 4_096];
    generic_plan
        .append_sections_at(&mut generic_bytes, offsets)
        .unwrap();
    let mut canonical_bytes = vec![0; 4_096];
    canonical_plan
        .append_sections_at(&mut canonical_bytes, offsets)
        .unwrap();
    assert_eq!(canonical_bytes, generic_bytes);
}

#[test]
fn canonical_build_rejects_descending_label_keys() {
    let error = SeriesColdV2Plan::build_canonical(&sample_entries()).unwrap_err();
    assert_eq!(error.kind(), ErrorKind::InvalidData);
    assert_eq!(
        error.to_string(),
        "series label keys are not strictly increasing at row 0"
    );
}

#[test]
fn duplicate_label_keys_are_rejected_by_both_build_paths() {
    let entries = vec![SeriesEntry {
        series_id: 1,
        kind_mask: 1,
        chunk_index: ChunkIndexRange { offset: 7, len: 8 },
        labels: vec![(2, 20), (1, 10), (1, 11)],
    }];

    let generic_error = SeriesColdV2Plan::build(&entries).unwrap_err();
    assert_eq!(generic_error.kind(), ErrorKind::InvalidData);
    assert_eq!(
        generic_error.to_string(),
        "series label keys are not strictly increasing at row 0"
    );

    let mut canonical = entries;
    canonical[0].labels.sort_unstable_by_key(|(key, _)| *key);
    let canonical_error = SeriesColdV2Plan::build_canonical(&canonical).unwrap_err();
    assert_eq!(canonical_error.kind(), ErrorKind::InvalidData);
    assert_eq!(canonical_error.to_string(), generic_error.to_string());
}

#[test]
fn canonical_build_accepts_empty_corpus_and_empty_label_row() {
    let generic_empty = SeriesColdV2Plan::build(&[]).unwrap();
    let canonical_empty = SeriesColdV2Plan::build_canonical(&[]).unwrap();
    assert_eq!(canonical_empty, generic_empty);

    let entries = vec![SeriesEntry {
        series_id: 7,
        kind_mask: 2,
        chunk_index: ChunkIndexRange { offset: 9, len: 10 },
        labels: Vec::new(),
    }];
    let generic_row = SeriesColdV2Plan::build(&entries).unwrap();
    let canonical_row = SeriesColdV2Plan::build_canonical(&entries).unwrap();
    assert_eq!(canonical_row, generic_row);
    assert_eq!(
        canonical_row.series_rows(),
        &[SeriesColdV2SeriesRow {
            series_id: 7,
            kind_mask: 2,
            keyset_id: 0,
            row: 0,
        }]
    );
    assert_eq!(canonical_row.num_keysets(), 1);
    assert_eq!(canonical_row.num_value_dicts(), 0);
}

#[test]
fn interleaved_keysets_keep_independent_rows_and_zero_width_bytes() {
    let entries = vec![
        series_entry(1, Vec::new()),
        series_entry(2, vec![(1, 10), (2, 20)]),
        series_entry(3, Vec::new()),
        series_entry(4, vec![(1, 11), (2, 20)]),
    ];
    let plan = SeriesColdV2Plan::build_canonical(&entries).unwrap();
    assert_eq!(
        plan.series_rows(),
        &[
            cold_row(1, 0, 0),
            cold_row(2, 1, 0),
            cold_row(3, 0, 1),
            cold_row(4, 1, 1),
        ]
    );

    let offsets = plan.section_offsets_at(0).unwrap();
    let mut bytes = Vec::new();
    plan.append_sections_at(&mut bytes, offsets).unwrap();
    let first_block = read_u64(&bytes, offsets.keyset_blocks);
    let second_block = read_u64(&bytes, offsets.keyset_blocks + 8);
    assert_eq!(read_u64(&bytes, offsets.keyset_blocks + 16), offsets.end);

    assert_eq!(read_u32(&bytes, first_block), 2);
    assert_eq!(read_u32(&bytes, first_block + 4), 0);
    assert_eq!(read_u32(&bytes, first_block + 8), 0);
    assert_eq!(read_u32(&bytes, first_block + 12), 0);
    assert_eq!(second_block, first_block + 16);

    assert_eq!(read_u32(&bytes, second_block), 2);
    assert_eq!(read_u32(&bytes, second_block + 4), 2);
    assert_eq!(read_u32(&bytes, second_block + 8), 1);
    assert_eq!(read_u32(&bytes, second_block + 12), 2);
    let widths = usize::try_from(second_block + 16).unwrap();
    assert_eq!(&bytes[widths..widths + 2], &[1, 0]);
    assert_eq!(&bytes[widths + 2..widths + 4], &[0, 1]);
}

#[test]
fn multirow_singleton_keyset_retains_rows_without_encoded_data() {
    let entries = vec![
        series_entry(1, vec![(1, 10), (2, 20)]),
        series_entry(2, vec![(1, 10), (2, 20)]),
    ];
    let plan = SeriesColdV2Plan::build_canonical(&entries).unwrap();
    assert_eq!(plan.series_rows(), &[cold_row(1, 0, 0), cold_row(2, 0, 1)]);

    let offsets = plan.section_offsets_at(0).unwrap();
    let mut bytes = Vec::new();
    plan.append_sections_at(&mut bytes, offsets).unwrap();
    let block = read_u64(&bytes, offsets.keyset_blocks);
    assert_eq!(read_u32(&bytes, block), 2);
    assert_eq!(read_u32(&bytes, block + 4), 2);
    assert_eq!(read_u32(&bytes, block + 8), 0);
    assert_eq!(read_u32(&bytes, block + 12), 0);
    let widths = usize::try_from(block + 16).unwrap();
    assert_eq!(&bytes[widths..widths + 2], &[0, 0]);
    assert_eq!(offsets.end, block + 18);
}

#[test]
fn flat_keyset_rows_reject_malformed_code_counts() {
    let rows = ColdKeysetRows {
        row_count: 2,
        row_width: 2,
        codes: vec![0, 1, 2],
    };
    let error = rows.validate(None).unwrap_err();
    assert_eq!(error.kind(), ErrorKind::InvalidData);
    assert_eq!(error.to_string(), "keyset row code count mismatch");
}

#[test]
fn flat_keyset_rows_reject_overflow_and_unfilled_expected_rows() {
    let overflow = ColdKeysetRows::with_exact_capacity(usize::MAX, 2).unwrap_err();
    assert_eq!(overflow.kind(), ErrorKind::InvalidInput);
    assert_eq!(
        overflow.to_string(),
        "series keyset code count is too large"
    );

    let rows = ColdKeysetRows {
        row_count: 1,
        row_width: 0,
        codes: Vec::new(),
    };
    let mismatch = rows.validate(Some(2)).unwrap_err();
    assert_eq!(mismatch.kind(), ErrorKind::InvalidData);
    assert_eq!(mismatch.to_string(), "keyset row count mismatch");
}

#[test]
fn flat_keyset_blocks_match_frozen_all_widths_golden() {
    let keysets = vec![vec![], vec![1], vec![2], vec![3], vec![4]];
    let value_dicts = vec![
        (1, vec![0]),
        (2, (0..256).collect()),
        (3, (0..257).collect()),
        (4, (0..65_537).collect()),
    ];
    let rows = vec![
        ColdKeysetRows {
            row_count: 2,
            row_width: 0,
            codes: vec![],
        },
        ColdKeysetRows {
            row_count: 2,
            row_width: 1,
            codes: vec![0, 0],
        },
        ColdKeysetRows {
            row_count: 2,
            row_width: 1,
            codes: vec![0, 255],
        },
        ColdKeysetRows {
            row_count: 2,
            row_width: 1,
            codes: vec![0, 256],
        },
        ColdKeysetRows {
            row_count: 2,
            row_width: 1,
            codes: vec![0, 65_536],
        },
    ];

    let section_offset = 4_096;
    let mut actual = Vec::new();
    write_keyset_blocks_section(&mut actual, section_offset, &keysets, &rows, &value_dicts)
        .unwrap();

    let mut expected = Vec::new();
    for offset in [4_144u64, 4_160, 4_177, 4_196, 4_217, 4_242] {
        expected.extend_from_slice(&offset.to_le_bytes());
    }
    append_expected_block(&mut expected, 2, 0, 0, &[], &[]);
    append_expected_block(&mut expected, 2, 1, 0, &[0], &[]);
    append_expected_block(&mut expected, 2, 1, 1, &[1], &[0, 255]);
    append_expected_block(&mut expected, 2, 1, 2, &[2], &[0, 0, 0, 1]);
    append_expected_block(&mut expected, 2, 1, 4, &[4], &[0, 0, 0, 0, 0, 0, 1, 0]);
    assert_eq!(actual, expected);

    let len = keyset_blocks_section_len(&keysets, &rows, &value_dicts).unwrap();
    assert_eq!(len, 146);
    assert_eq!(actual.len() as u64, len);
    let terminal = 8 * keysets.len();
    assert_eq!(
        u64::from_le_bytes(actual[terminal..terminal + 8].try_into().unwrap()),
        section_offset + len
    );
}

#[test]
fn the_lengths_of_counted_sections_are_those_that_are_written() {
    let keysets = vec![vec![], vec![7], vec![1, 2, 3]];
    let mut bytes = Vec::new();
    write_keysets_section(&mut bytes, 1_000, &keysets).unwrap();
    let len = keysets_section_len(&keysets).unwrap();
    assert_eq!(len, 4 * 8 + 3 * 8 + 4 * 4);
    assert_eq!(bytes.len() as u64, len);
    assert_eq!(u64::from_le_bytes(bytes[24..32].try_into().unwrap()), 1_000 + len);

    let value_dicts = vec![(5, vec![9]), (6, vec![1, 4])];
    let mut bytes = Vec::new();
    write_value_dicts_section(&mut bytes, 2_000, &value_dicts).unwrap();
    let len = value_dicts_section_len(&value_dicts).unwrap();
    assert_eq!(len, 3 * 8 + 2 * 8 + 3 * 4);
    assert_eq!(bytes.len() as u64, len);
    assert_eq!(u64::from_le_bytes(bytes[16..24].try_into().unwrap()), 2_000 + len);
}

#[test]
fn value_code_width_and_encoding_boundaries_are_exact() {
    assert_eq!(value_code_width(0), 0);
    assert_eq!(value_code_width(1), 0);
    assert_eq!(value_code_width(2), 1);
    assert_eq!(value_code_width(256), 1);
    assert_eq!(value_code_width(257), 2);
    assert_eq!(value_code_width(65_536), 2);
    assert_eq!(value_code_width(65_537), 4);

    let mut bytes = Vec::new();
    write_value_code(&mut bytes, 0, 0).unwrap();
    write_value_code(&mut bytes, 255, 1).unwrap();
    write_value_code(&mut bytes, 65_535, 2).unwrap();
    write_value_code(&mut bytes, u32::MAX, 4).unwrap();
    assert_eq!(bytes, [255, 255, 255, 255, 255, 255, 255].as_slice());

    assert_eq!(
        write_value_code(&mut Vec::new(), 1, 0).unwrap_err().kind(),
        ErrorKind::InvalidData
    );
    assert_eq!(
        write_value_code(&mut Vec::new(), 256, 1)
            .unwrap_err()
            .kind(),
        ErrorKind::InvalidInput
    );
    assert_eq!(
        write_value_code(&mut Vec::new(), 65_536, 2)
            .unwrap_err()
            .kind(),
        ErrorKind::InvalidInput
    );
}

#[test]
fn plan_rejects_offset_overflow_and_noncanonical_layout() {
    let plan = SeriesColdV2Plan::build(&[]).unwrap();
    assert!(plan.section_offsets_at(u64::MAX - 7).is_err());

    let mut bytes = vec![0; 4_096];
    let mut offsets = plan.section_offsets_at(4_096).unwrap();
    offsets.value_dicts += 1;
    assert!(plan.append_sections_at(&mut bytes, offsets).is_err());
    assert_eq!(bytes.len(), 4_096);
}

#[test]
fn streaming_encoder_matches_append_bytes_exactly() {
    let plan = SeriesColdV2Plan::build(&sample_entries()).unwrap();
    let offsets = plan.section_offsets_at(20_480).unwrap();

    let mut complete_file = vec![0; 20_480];
    plan.append_sections_at(&mut complete_file, offsets)
        .unwrap();
    let expected = &complete_file[20_480..];

    let mut streamed = Vec::new();
    let bytes_written = plan.write_sections_at(&mut streamed, offsets).unwrap();
    assert_eq!(bytes_written, plan.lengths().total().unwrap());
    assert_eq!(usize::try_from(bytes_written).unwrap(), streamed.len());
    assert_eq!(streamed, expected);
}

fn sample_entries() -> Vec<SeriesEntry> {
    vec![
        SeriesEntry {
            series_id: 1,
            kind_mask: 1,
            chunk_index: ChunkIndexRange { offset: 7, len: 8 },
            labels: vec![(2, 20), (1, 10)],
        },
        SeriesEntry {
            series_id: 2,
            kind_mask: 4,
            chunk_index: ChunkIndexRange { offset: 9, len: 10 },
            labels: vec![(1, 11), (2, 20)],
        },
    ]
}

fn series_entry(series_id: u64, labels: Vec<(u32, u32)>) -> SeriesEntry {
    SeriesEntry {
        series_id,
        kind_mask: 1,
        chunk_index: ChunkIndexRange { offset: 0, len: 0 },
        labels,
    }
}

fn cold_row(series_id: u64, keyset_id: u32, row: u32) -> SeriesColdV2SeriesRow {
    SeriesColdV2SeriesRow {
        series_id,
        kind_mask: 1,
        keyset_id,
        row,
    }
}

fn append_expected_block(
    bytes: &mut Vec<u8>,
    rows: u32,
    key_count: u32,
    row_len: u32,
    widths: &[u8],
    data: &[u8],
) {
    bytes.extend_from_slice(&rows.to_le_bytes());
    bytes.extend_from_slice(&key_count.to_le_bytes());
    bytes.extend_from_slice(&row_len.to_le_bytes());
    bytes.extend_from_slice(&u32::try_from(data.len()).unwrap().to_le_bytes());
    bytes.extend_from_slice(widths);
    bytes.extend_from_slice(data);
}

fn read_u64(bytes: &[u8], offset: u64) -> u64 {
    let offset = usize::try_from(offset).unwrap();
    u64::from_le_bytes(bytes[offset..offset + 8].try_into().unwrap())
}

fn read_u32(bytes: &[u8], offset: u64) -> u32 {
    let offset = usize::try_from(offset).unwrap();
    u32::from_le_bytes(bytes[offset..offset + 4].try_into().unwrap())
}
