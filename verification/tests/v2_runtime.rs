//! The runtime boundary of a version 2 segment.

use std::cell::{Cell, RefCell};

use chronoxide_series::bytes::{put_u16, put_u32, put_u64, read_u32, read_u64};
use chronoxide_series::chunk::ChunkIndexRange;
use chronoxide_series::cold_v2::plan::SeriesColdV2Plan;
use chronoxide_series::entry::SeriesEntry;
use chronoxide_series::error::ErrorKind;
use chronoxide_series::health::{ArtifactHealth, SegmentFile};
use chronoxide_series::symbols::{GovernedSymbolReaderError, GovernedSymbolSession};
use chronoxide_series::v2_runtime::chunk_index::{
    GovernedSchema6ChunkIndexSession, Schema6ChunkIndexReaderError,
};
use chronoxide_series::v2_runtime::entries::GovernedSchema6SeriesEntries;
use chronoxide_series::v2_runtime::guard::Schema6ReadGuard;
use chronoxide_series::v2_runtime::metadata::GovernedSchema6SeriesMetadata;
use chronoxide_series::v2_runtime::root::{
    Schema6SeriesRootV2, SERIES_HEADER_LEN, SERIES_TABLE_ENTRY_LEN,
};
use chronoxide_series::v2_runtime::table::checked_table_work_upper;
use chronoxide_series::v2_runtime::verified::GovernedSchema6VerifiedSeriesBatch;
use chronoxide_series::v2_runtime::{
    GovernedSchema6SeriesReader, GovernedSchema6SeriesRoot, GovernedSchema6SeriesSession,
    Schema6SegmentArtifacts, Schema6SeriesReaderError,
};

const SERIES_KIND_FLOAT: u8 = 1;
const SERIES_KIND_HISTOGRAM: u8 = 4;
const SERIES_KIND_EXPONENTIAL_HISTOGRAM: u8 = 8;
const SERIES_KIND_SUMMARY: u8 = 16;

struct Fixture {
    identity: &'static str,
    generation: u64,
    series: Vec<u8>,
    chunk_ranges: Vec<ChunkIndexRange>,
    chunk_index_len: u64,
    entries: Vec<SeriesEntry>,
}

impl Fixture {
    fn artifacts(&self) -> Schema6SegmentArtifacts<'_> {
        Schema6SegmentArtifacts {
            identity: self.identity,
            generation: self.generation,
            series: &self.series,
            chunk_index_len: self.chunk_index_len,
        }
    }

    fn open(&self) -> GovernedSchema6SeriesReader<'_> {
        GovernedSchema6SeriesReader::open(self.artifacts(), self.entries.len() as u32)
            .expect("open governed schema-6 series reader")
    }

    fn symbol_session(&self) -> GovernedSymbolSession {
        GovernedSymbolSession::new(self.generation, fixture_symbols())
    }

    fn chunk_index_session(&self) -> GovernedSchema6ChunkIndexSession {
        GovernedSchema6ChunkIndexSession::new(self.generation, self.chunk_ranges.clone())
    }
}

fn default_entries() -> Vec<SeriesEntry> {
    // Four series imply a 52-byte v1 chunk-index root/directory. Each
    // pointer below is therefore exact, aligned, and within the fixture.
    let mut entries = vec![
        SeriesEntry {
            series_id: 0,
            kind_mask: SERIES_KIND_FLOAT,
            chunk_index: ChunkIndexRange { offset: 52, len: 40 },
            labels: vec![(1, 10), (2, 20)],
        },
        SeriesEntry {
            series_id: 0,
            kind_mask: SERIES_KIND_HISTOGRAM,
            chunk_index: ChunkIndexRange { offset: 92, len: 40 },
            labels: vec![(1, 11), (2, 20)],
        },
        SeriesEntry {
            series_id: 0,
            kind_mask: SERIES_KIND_EXPONENTIAL_HISTOGRAM,
            chunk_index: ChunkIndexRange { offset: 132, len: 40 },
            labels: vec![(3, 30)],
        },
        SeriesEntry {
            series_id: 0,
            kind_mask: SERIES_KIND_SUMMARY,
            chunk_index: ChunkIndexRange { offset: 172, len: 40 },
            labels: Vec::new(),
        },
    ];
    let symbols = fixture_symbols();
    for entry in &mut entries {
        entry.series_id = label_identity(&symbols, &entry.labels);
    }
    entries
}

fn fixture_symbols() -> Vec<String> {
    (0..=30).map(|symbol_id| format!("s{symbol_id:02}")).collect()
}

/// Lays out a version 2 file: the header, the series table, the cold stream.
fn build_series_bin_v2(entries: &[SeriesEntry]) -> Vec<u8> {
    let plan = SeriesColdV2Plan::build(entries).expect("plan cold stream");
    let table_end = SERIES_HEADER_LEN + SERIES_TABLE_ENTRY_LEN * entries.len() as u64;
    let offsets = plan.section_offsets_at(table_end).expect("cold offsets");
    let mut bytes = vec![0u8; table_end as usize];
    put_u32(&mut bytes, 0, 0x4952_4553);
    put_u16(&mut bytes, 4, 2);
    put_u32(&mut bytes, 8, plan.num_series());
    put_u32(&mut bytes, 12, plan.num_keysets());
    put_u32(&mut bytes, 16, plan.num_value_dicts());
    put_u64(&mut bytes, 24, SERIES_HEADER_LEN);
    put_u64(&mut bytes, 32, offsets.keysets);
    put_u64(&mut bytes, 40, offsets.value_dicts);
    put_u64(&mut bytes, 48, offsets.keyset_blocks);
    put_u64(&mut bytes, 56, offsets.end);
    for (index, (entry, row)) in entries.iter().zip(plan.series_rows()).enumerate() {
        let at = (SERIES_HEADER_LEN + SERIES_TABLE_ENTRY_LEN * index as u64) as usize;
        put_u64(&mut bytes, at, entry.series_id);
        bytes[at + 8] = entry.kind_mask;
        put_u64(&mut bytes, at + 12, entry.chunk_index.offset);
        put_u32(&mut bytes, at + 20, entry.chunk_index.len);
        put_u32(&mut bytes, at + 24, row.keyset_id);
        put_u32(&mut bytes, at + 28, row.row);
    }
    plan.append_sections_at(&mut bytes, offsets).expect("cold sections");
    bytes
}

fn fixture(
    identity: &'static str,
    generation: u64,
    entries: Vec<SeriesEntry>,
    mutate_series: impl FnOnce(&mut Vec<u8>),
) -> Fixture {
    let chunk_series_count = entries.len();
    fixture_with_chunk_series_count(
        identity,
        generation,
        entries,
        chunk_series_count,
        mutate_series,
    )
}

fn fixture_with_chunk_series_count(
    identity: &'static str,
    generation: u64,
    entries: Vec<SeriesEntry>,
    chunk_series_count: usize,
    mutate_series: impl FnOnce(&mut Vec<u8>),
) -> Fixture {
    let mut series = build_series_bin_v2(&entries);
    mutate_series(&mut series);
    let directory_len = 12 + 8 * (chunk_series_count as u64 + 1);
    let chunk_ranges = (0..chunk_series_count as u64)
        .map(|index| ChunkIndexRange { offset: directory_len + 40 * index, len: 40 })
        .collect::<Vec<_>>();
    Fixture {
        identity,
        generation,
        series,
        chunk_ranges,
        chunk_index_len: directory_len + 40 * chunk_series_count as u64,
        entries,
    }
}

fn standard_fixture(identity: &'static str) -> Fixture {
    fixture(identity, 1, default_entries(), |_| {})
}

fn read_metadata(
    fixture: &Fixture,
    session: &GovernedSchema6SeriesSession<'_>,
    root: &GovernedSchema6SeriesRoot,
    series_refs: &[u32],
) -> Result<GovernedSchema6SeriesMetadata, Schema6SeriesReaderError> {
    session.read_metadata_entries(
        root,
        &fixture.chunk_index_session(),
        &fixture.chunk_index_session().load_root(),
        series_refs,
    )
}

fn read_full_entries(
    fixture: &Fixture,
    session: &GovernedSchema6SeriesSession<'_>,
    root: &GovernedSchema6SeriesRoot,
    symbols: &GovernedSymbolSession,
    series_refs: &[u32],
) -> Result<GovernedSchema6SeriesEntries, Schema6SeriesReaderError> {
    session.read_entries(
        root,
        &fixture.chunk_index_session(),
        &fixture.chunk_index_session().load_root(),
        symbols,
        &xx_hash64,
        series_refs,
    )
}

fn read_verified(
    fixture: &Fixture,
    session: &GovernedSchema6SeriesSession<'_>,
    root: &GovernedSchema6SeriesRoot,
    symbols: &GovernedSymbolSession,
    series_refs: &[u32],
) -> Result<GovernedSchema6VerifiedSeriesBatch, Schema6SeriesReaderError> {
    session.materialize_verified(
        root,
        &fixture.chunk_index_session(),
        &fixture.chunk_index_session().load_root(),
        symbols,
        &xx_hash64,
        series_refs,
    )
}

/// Guards a session of artifacts in which no fault was seen.
fn guarded<'a>(session: GovernedSchema6SeriesSession<'a>) -> Schema6ReadGuard<'a> {
    Schema6ReadGuard::new(session, ArtifactHealth::new())
}

/// A budget that grants everything.
fn roomy(_bytes: u64) -> bool {
    true
}

/// A budget of which only this many bytes are left.
fn remaining(limit: u64) -> impl Fn(u64) -> bool {
    move |bytes: u64| bytes <= limit
}

fn structural(error: &Schema6SeriesReaderError) -> bool {
    match error {
        Schema6SeriesReaderError::Cache(error) => error.kind() == ErrorKind::InvalidData,
        _ => false,
    }
}

#[test]
fn v2_runtime_exact_root_and_coalesced_table_spans_are_cached_and_ordered() {
    let fixture = standard_fixture("schema6-series-cached");
    let reader = fixture.open();
    assert_eq!(reader.segment_identity(), "schema6-series-cached");

    let session = reader.query_session();
    let root = session.load_root().expect("reuse cached series root");
    assert_eq!(root.num_series(), 4);
    let metadata =
        read_metadata(&fixture, &session, &root, &[2, 0, 1, 1]).expect("read coalesced table span");
    let metadata_entries = session
        .routing_entries(&metadata)
        .expect("bind metadata to its session");
    assert_eq!(
        metadata_entries
            .iter()
            .map(|(series_ref, entry)| (*series_ref, entry.kind_mask, entry.chunk_index))
            .collect::<Vec<_>>(),
        vec![
            (2, fixture.entries[2].kind_mask, fixture.entries[2].chunk_index),
            (0, fixture.entries[0].kind_mask, fixture.entries[0].chunk_index),
            (1, fixture.entries[1].kind_mask, fixture.entries[1].chunk_index),
            (1, fixture.entries[1].kind_mask, fixture.entries[1].chunk_index),
        ]
    );
    assert_eq!(
        metadata.charged_bytes(),
        4 * std::mem::size_of_val(&metadata_entries[0]) as u64
    );

    let mut work = session
        .prepare_table_work(&root, &[2, 0, 1, 1])
        .expect("plan table spans");
    assert_eq!(work.valid_refs, vec![0, 1, 2]);
    assert_eq!(work.plans.len(), 1);
    assert_eq!(work.plans[0].length, 3 * SERIES_TABLE_ENTRY_LEN);
    session
        .load_table_spans(&root, &mut work, &roomy)
        .expect("load table spans");
    assert_eq!(work.entry(2).expect("third entry").row, 0);

    let second =
        read_metadata(&fixture, &session, &root, &[0, 1, 2]).expect("reuse exact table span");
    assert_eq!(session.routing_entries(&second).unwrap().len(), 3);
}

#[test]
fn v2_runtime_out_of_range_refs_fail_before_series_io_without_poisoning_the_series_artifact() {
    let fixture = standard_fixture("schema6-series-invalid-ref");
    let reader = fixture.open();
    let session = reader.query_session();
    let root = session.load_root().expect("load invalid-ref root");
    let mut guard = guarded(session);
    assert!(matches!(
        guard.read_metadata_entries(
            &root,
            &fixture.chunk_index_session(),
            &fixture.chunk_index_session().load_root(),
            &[0, 99],
            &roomy,
        ),
        Err(Schema6SeriesReaderError::InvalidSeriesRef {
            series_ref: 99,
            num_series: 4
        })
    ));
    assert_eq!(guard.health().sticky_artifacts(), 0);
}

#[test]
fn v2_runtime_independently_valid_same_generation_roots_must_have_the_same_series_count() {
    let fixture = fixture_with_chunk_series_count(
        "schema6-series-root-count-binding",
        1,
        default_entries(),
        3,
        |_| {},
    );
    let series_reader = fixture.open();
    let series_session = series_reader.query_session();
    let series_root = series_session
        .load_root()
        .expect("load independently valid series root");
    let chunk_session = fixture.chunk_index_session();

    let mut guard = guarded(series_session);
    let error = guard
        .read_metadata_entries(
            &series_root,
            &chunk_session,
            &chunk_session.load_root(),
            &[],
            &roomy,
        )
        .expect_err("same-generation roots with different counts must fail");
    assert!(matches!(
        error,
        Schema6SeriesReaderError::ChunkIndex(Schema6ChunkIndexReaderError::Cache(ref error))
            if error.kind() == ErrorKind::InvalidData
    ));
    assert_eq!(guard.health().sticky_artifacts(), 1);
    guard
        .health()
        .check_readable(SegmentFile::ChunkIndex)
        .expect_err("the chunk index carries the fault");
}

#[test]
fn v2_runtime_full_materialization_matches_legacy_reader_with_duplicates_and_empty_labels() {
    let fixture = standard_fixture("schema6-series-equivalence");
    let reader = fixture.open();
    let session = reader.query_session();
    let symbols = fixture.symbol_session();
    let root = session.load_root().expect("load series root");
    let refs = [3, 1, 1, 0, 2];
    let actual = read_full_entries(&fixture, &session, &root, &symbols, &refs)
        .expect("materialize governed schema-6 entries");
    let actual_entries = session
        .entries(&actual)
        .expect("bind series entries to their session");

    let expected = refs
        .iter()
        .map(|&series_ref| (series_ref, fixture.entries[series_ref as usize].clone()))
        .collect::<Vec<_>>();
    assert_eq!(actual_entries, expected.as_slice());
    assert!(actual_entries[0].1.labels.is_empty());
    assert_eq!(actual_entries[1].1.labels, vec![(1, 11), (2, 20)]);
    assert_eq!(actual_entries[2], actual_entries[1]);
    let labels = actual_entries.iter().map(|(_, entry)| entry.labels.capacity()).sum::<usize>();
    assert_eq!(
        actual.charged_bytes(),
        (5 * std::mem::size_of_val(&actual_entries[0]) + labels * std::mem::size_of::<(u32, u32)>())
            as u64
    );
}

#[test]
fn v2_runtime_table_and_touched_cold_corruption_are_sticky_but_resource_errors_are_not() {
    let table_corruption =
        fixture("schema6-series-table-corruption", 1, default_entries(), |bytes| {
            // First SeriesEntryV2.meta_len.
            bytes[SERIES_HEADER_LEN as usize + 36..SERIES_HEADER_LEN as usize + 40]
                .copy_from_slice(&1u32.to_le_bytes());
        });
    let reader = table_corruption.open();
    let session = reader.query_session();
    let root = session.load_root().expect("load corruption root");
    let directory = table_corruption.chunk_index_session();
    let mut guard = guarded(session);
    assert!(guard.read_metadata_entries(
        &root,
        &directory,
        &directory.load_root(),
        &[0],
        &roomy,
    ).is_err());
    assert!(guard.read_metadata_entries(
        &root,
        &directory,
        &directory.load_root(),
        &[0],
        &roomy,
    ).is_err());
    assert_eq!(guard.health().sticky_artifacts(), 1);
    assert!(guard.read_metadata_entries(
        &root,
        &directory,
        &directory.load_root(),
        &[1],
        &roomy,
    ).is_err());
    assert!(guard.read_metadata_entries(
        &root,
        &directory,
        &directory.load_root(),
        &[],
        &roomy,
    ).is_ok());

    let cold_corruption =
        fixture("schema6-series-cold-corruption", 1, default_entries(), |bytes| {
            // First SeriesEntryV2.row points beyond its keyset block.
            bytes[SERIES_HEADER_LEN as usize + 28..SERIES_HEADER_LEN as usize + 32]
                .copy_from_slice(&u32::MAX.to_le_bytes());
        });
    let reader = cold_corruption.open();
    let session = reader.query_session();
    let symbols = cold_corruption.symbol_session();
    let root = session.load_root().expect("load cold corruption root");
    let directory = cold_corruption.chunk_index_session();
    let mut guard = guarded(session);
    assert!(guard.read_entries(
        &root,
        &directory,
        &directory.load_root(),
        &symbols,
        &xx_hash64,
        &[0],
        &roomy,
    ).is_err());
    assert_eq!(guard.health().sticky_artifacts(), 1);

    let row_substitution =
        fixture("schema6-series-row-substitution", 1, default_entries(), |bytes| {
            // Series zero and one share a keyset. Point series zero at the
            // other valid row; only canonical identity verification can
            // distinguish this from a structurally valid row.
            bytes[SERIES_HEADER_LEN as usize + 28..SERIES_HEADER_LEN as usize + 32]
                .copy_from_slice(&1u32.to_le_bytes());
        });
    let reader = row_substitution.open();
    let session = reader.query_session();
    let symbols = row_substitution.symbol_session();
    let root = session.load_root().expect("load row-substitution root");
    let directory = row_substitution.chunk_index_session();
    let mut guard = guarded(session);
    assert!(guard.read_entries(
        &root,
        &directory,
        &directory.load_root(),
        &symbols,
        &xx_hash64,
        &[0],
        &roomy,
    ).is_err());
    assert_eq!(guard.health().sticky_artifacts(), 1);
}

#[test]
fn v2_runtime_reserved_fields_are_sticky_at_their_touched_boundaries() {
    let root_corruption =
        fixture("schema6-series-root-reserved", 1, default_entries(), |bytes| {
            // The fixed header's reserved u32 follows the three counts.
            bytes[20..24].copy_from_slice(&1u32.to_le_bytes());
        });
    let mut health = ArtifactHealth::new();
    let error = GovernedSchema6SeriesReader::open_guarded(
        root_corruption.artifacts(),
        root_corruption.entries.len() as u32,
        &mut health,
        &roomy,
    )
    .err()
    .expect("reserved root field must fail");
    assert!(structural(&error));
    assert_eq!(health.sticky_artifacts(), 1);

    let table_corruption =
        fixture("schema6-series-table-reserved", 1, default_entries(), |bytes| {
            // The first table entry's one-byte flags field follows kind_mask.
            bytes[SERIES_HEADER_LEN as usize + 9] = 1;
        });
    let reader = table_corruption.open();
    let session = reader.query_session();
    let root = session.load_root().expect("load table-reserved root");
    let directory = table_corruption.chunk_index_session();
    let mut guard = guarded(session);
    assert!(guard.read_metadata_entries(
        &root,
        &directory,
        &directory.load_root(),
        &[0],
        &roomy,
    ).is_err());
    assert_eq!(guard.health().sticky_artifacts(), 1);
}

#[test]
fn v2_runtime_lifecycle_and_generation_provenance_do_not_leak_guards_or_files() {
    let first = fixture("schema6-series-owner-first", 1, default_entries(), |_| {});
    let second = fixture("schema6-series-owner-second", 2, default_entries(), |_| {});
    let first_reader = first.open();
    let second_reader = second.open();
    let first_symbols = first.symbol_session();
    let second_symbols = second.symbol_session();
    let first_chunk_index = first.chunk_index_session();
    let first_session = first_reader.query_session();
    let first_root = first_session.load_root().expect("load first root");
    let values = first_session
        .read_metadata_entries(
            &first_root,
            &first_chunk_index,
            &first_chunk_index.load_root(),
            &[0],
        )
        .expect("load first metadata");
    first_session
        .routing_entries(&values)
        .expect("metadata matches first generation");
    let second_session = second_reader.query_session();
    assert!(matches!(
        second_session.routing_entries(&values),
        Err(Schema6SeriesReaderError::ForeignSegmentGeneration)
    ));
    assert!(matches!(
        second_session.series_count_binding(&first_root),
        Err(Schema6SeriesReaderError::ForeignSegmentGeneration)
    ));
    let second_chunk_index = second.chunk_index_session();
    assert!(matches!(
        first_session.read_metadata_entries(
            &first_root,
            &first_chunk_index,
            &second_chunk_index.load_root(),
            &[]
        ),
        Err(Schema6SeriesReaderError::ChunkIndex(
            Schema6ChunkIndexReaderError::ForeignSegmentGeneration
        ))
    ));
    assert!(matches!(
        first_session.read_metadata_entries(
            &first_root,
            &second_chunk_index,
            &second_chunk_index.load_root(),
            &[0],
        ),
        Err(Schema6SeriesReaderError::ChunkIndex(
            Schema6ChunkIndexReaderError::ForeignSegmentGeneration
        ))
    ));
    assert!(matches!(
        first_session.read_entries(
            &first_root,
            &first_chunk_index,
            &first_chunk_index.load_root(),
            &second_symbols,
            &xx_hash64,
            &[0]
        ),
        Err(Schema6SeriesReaderError::Symbols(
            GovernedSymbolReaderError::ForeignSegmentGeneration
        ))
    ));
    let entries = first_session
        .read_entries(
            &first_root,
            &first_chunk_index,
            &first_chunk_index.load_root(),
            &first_symbols,
            &xx_hash64,
            &[0],
        )
        .expect("matching symbol generation is accepted");
    assert!(matches!(
        second_session.entries(&entries),
        Err(Schema6SeriesReaderError::ForeignSegmentGeneration)
    ));
}

#[test]
fn v2_runtime_root_count_chunk_spans_and_truncation_are_strict() {
    let mismatch = standard_fixture("schema6-series-count-mismatch");
    let error = GovernedSchema6SeriesReader::open(mismatch.artifacts(), 5)
        .err()
        .expect("series count mismatch must fail");
    assert!(structural(&error));
    let Schema6SeriesReaderError::Cache(cause) = error else {
        panic!("expected a structural error");
    };
    assert_eq!(
        cause.to_string(),
        "schema-6 series count mismatch: expected=5 actual=4"
    );

    let invalid_span =
        fixture("schema6-series-invalid-chunk-span", 1, default_entries(), |bytes| {
            // First SeriesEntryV2.chunk_index_offset is inside the v1
            // directory and is only touched with the table entry.
            bytes[SERIES_HEADER_LEN as usize + 12..SERIES_HEADER_LEN as usize + 20]
                .copy_from_slice(&12u64.to_le_bytes());
        });
    let reader = invalid_span.open();
    let session = reader.query_session();
    let root = session.load_root().expect("load invalid-span root");
    let directory = invalid_span.chunk_index_session();
    let mut guard = guarded(session);
    assert!(guard.read_metadata_entries(
        &root,
        &directory,
        &directory.load_root(),
        &[0],
        &roomy,
    ).is_err());
    assert_eq!(guard.health().sticky_artifacts(), 1);

    let aliased_span =
        fixture("schema6-series-aliased-chunk-span", 1, default_entries(), |bytes| {
            // This is a valid aligned, in-bounds span, but it belongs to
            // series one rather than series zero.
            bytes[SERIES_HEADER_LEN as usize + 12..SERIES_HEADER_LEN as usize + 20]
                .copy_from_slice(&92u64.to_le_bytes());
        });
    let reader = aliased_span.open();
    let session = reader.query_session();
    let root = session.load_root().expect("load aliased-span root");
    let directory = aliased_span.chunk_index_session();
    let mut guard = guarded(session);
    assert!(matches!(
        guard.read_metadata_entries(&root, &directory, &directory.load_root(), &[0], &roomy),
        Err(Schema6SeriesReaderError::ChunkIndex(
            Schema6ChunkIndexReaderError::Cache(ref error)
        )) if error.kind() == ErrorKind::InvalidData
    ));

    assert_eq!(guard.health().sticky_artifacts(), 1);

    let mut truncation = standard_fixture("schema6-series-truncation");
    truncation.series.pop();
    let mut health = ArtifactHealth::new();
    assert!(GovernedSchema6SeriesReader::open_guarded(
        truncation.artifacts(),
        4,
        &mut health,
        &roomy,
    )
    .is_err());
    assert_eq!(health.sticky_artifacts(), 1);
}

fn replace_single_label_key(bytes: &mut [u8], series_ref: usize, replacement: u32) {
    let table_entry = SERIES_HEADER_LEN as usize + series_ref * SERIES_TABLE_ENTRY_LEN as usize;
    let keyset_id = read_u32(bytes, table_entry + 24) as usize;
    let keysets_offset = read_u64(bytes, 32) as usize;
    let keyset_offset = read_u64(bytes, keysets_offset + keyset_id * 8) as usize;
    assert_eq!(read_u32(bytes, keyset_offset), 1);
    let old_key = read_u32(bytes, keyset_offset + 8);
    bytes[keyset_offset + 8..keyset_offset + 12].copy_from_slice(&replacement.to_le_bytes());

    let value_dicts_offset = read_u64(bytes, 40) as usize;
    let num_value_dicts = read_u32(bytes, 16) as usize;
    let dict_offset = (0..num_value_dicts)
        .map(|dict_id| read_u64(bytes, value_dicts_offset + dict_id * 8) as usize)
        .find(|&offset| read_u32(bytes, offset) == old_key)
        .expect("matching value dictionary for single-label keyset");
    bytes[dict_offset..dict_offset + 4].copy_from_slice(&replacement.to_le_bytes());
}

#[test]
fn verified_batch_owns_canonical_labels_and_resolves_each_symbol_once() {
    let fixture = standard_fixture("schema6-series-verified");
    let reader = fixture.open();
    let session = reader.query_session();
    let root = session.load_root().expect("load verified series root");
    let symbols = fixture.symbol_session();
    let refs = [3, 1, 1, 0, 2];

    let result = read_verified(&fixture, &session, &root, &symbols, &refs)
        .expect("materialize verified schema-6 batch");
    assert_eq!(result.len(), refs.len());
    assert!(!result.is_empty());
    let values = session
        .verified_series(&result)
        .expect("bind verified values to their generation");
    assert_eq!(values.len(), refs.len());
    assert_eq!(values[0].series_ref(), 3);
    assert_eq!(values[0].series_id(), fixture.entries[3].series_id);
    assert_eq!(values[0].kind_mask(), fixture.entries[3].kind_mask);
    assert_eq!(values[0].chunk_index(), fixture.entries[3].chunk_index);
    assert!(values[0].labels().is_empty());
    assert_eq!(
        values[1].labels(),
        &[
            ("s01".to_string(), "s11".to_string()),
            ("s02".to_string(), "s20".to_string()),
        ]
    );
    assert_eq!(values[2], values[1]);
    assert_eq!(
        values[3].labels(),
        &[
            ("s01".to_string(), "s10".to_string()),
            ("s02".to_string(), "s20".to_string()),
        ]
    );
    assert_eq!(
        values[4].labels(),
        &[("s03".to_string(), "s30".to_string())]
    );
    let measured = values
        .iter()
        .map(|value| {
            std::mem::size_of_val(value)
                + value
                    .labels()
                    .iter()
                    .map(|(name, text)| {
                        std::mem::size_of::<(String, String)>() + name.capacity() + text.capacity()
                    })
                    .sum::<usize>()
        })
        .sum::<usize>();
    assert_eq!(result.charged_bytes(), measured as u64);
}

#[test]
fn verified_batch_rejects_foreign_symbol_generation_before_cold_io() {
    let first = fixture(
        "schema6-series-verified-generation-first",
        1,
        default_entries(),
        |_| {},
    );
    let second = fixture(
        "schema6-series-verified-generation-second",
        2,
        default_entries(),
        |_| {},
    );
    let reader = first.open();
    let session = reader.query_session();
    let root = session.load_root().expect("load first series root");
    let foreign_symbols = second.symbol_session();

    let chunk_index = first.chunk_index_session();
    let mut guard = guarded(session);
    assert!(matches!(
        guard.materialize_verified(
            &root,
            &chunk_index,
            &chunk_index.load_root(),
            &foreign_symbols,
            &xx_hash64,
            &[0],
            &roomy,
        ),
        Err(Schema6SeriesReaderError::Symbols(
            GovernedSymbolReaderError::ForeignSegmentGeneration
        ))
    ));
    assert_eq!(guard.health().sticky_artifacts(), 0);
}

#[test]
fn verified_batch_tiny_budget_refuses_before_cold_or_symbol_io_and_releases_scratch() {
    let fixture = standard_fixture("schema6-series-verified-budget");
    let reader = fixture.open();
    let mut guard = guarded(reader.query_session());
    let root = guard.load_root(&roomy).expect("load verified-budget root");
    let symbols = fixture.symbol_session();
    let chunk_index = fixture.chunk_index_session();
    let chunk_index_root = chunk_index.load_root();

    let competing = remaining(8192 - 8100);
    assert!(matches!(
        guard.materialize_verified(
            &root,
            &chunk_index,
            &chunk_index_root,
            &symbols,
            &xx_hash64,
            &[0, 1, 2],
            &competing,
        ),
        Err(Schema6SeriesReaderError::Budget { .. })
    ));
    assert_eq!(guard.health().sticky_artifacts(), 0);

    let retried = guard
        .materialize_verified(
            &root,
            &chunk_index,
            &chunk_index_root,
            &symbols,
            &xx_hash64,
            &[0, 1, 2],
            &remaining(8192),
        )
        .expect("budget refusal must be retryable without partial output");
    assert_eq!(retried.len(), 3);
}

#[test]
fn v2_runtime_tiny_budget_refuses_before_table_io_and_retry_succeeds() {
    let fixture = standard_fixture("schema6-series-budget");
    let reader = fixture.open();
    let mut guard = guarded(reader.query_session());
    let root = guard.load_root(&remaining(8192)).expect("load root");
    let chunk_index = fixture.chunk_index_session();
    let chunk_index_root = chunk_index.load_root();

    let error = guard
        .read_metadata_entries(
            &root,
            &chunk_index,
            &chunk_index_root,
            &[0, 1, 2],
            &remaining(8192 - 8100),
        )
        .expect_err("tiny budget must refuse before table I/O");
    assert!(matches!(error, Schema6SeriesReaderError::Budget { .. }));
    assert_eq!(guard.health().sticky_artifacts(), 0);

    let retried = guard
        .read_metadata_entries(
            &root,
            &chunk_index,
            &chunk_index_root,
            &[0, 1, 2],
            &remaining(8192),
        )
        .expect("budget refusal must be retryable");
    assert_eq!(guard.session().routing_entries(&retried).unwrap().len(), 3);
}

#[test]
fn refused_memory_names_the_bytes_that_the_request_declares() {
    let fixture = standard_fixture("schema6-series-declared");
    let reader = fixture.open();
    let mut guard = guarded(reader.query_session());
    let root = guard.load_root(&roomy).expect("load root");
    let symbols = fixture.symbol_session();
    let chunk_index = fixture.chunk_index_session();
    let chunk_index_root = chunk_index.load_root();
    let nothing = |_: u64| false;

    assert_eq!(
        guard.load_root(&nothing).unwrap_err(),
        Schema6SeriesReaderError::Budget {
            requested: std::mem::size_of::<Schema6SeriesRootV2>() as u64
        }
    );
    assert_eq!(
        guard
            .read_entries(
                &root,
                &chunk_index,
                &chunk_index_root,
                &symbols,
                &xx_hash64,
                &[0, 1],
                &nothing,
            )
            .unwrap_err(),
        Schema6SeriesReaderError::Budget {
            requested: checked_table_work_upper::<(u32, SeriesEntry)>(2).unwrap()
        }
    );
    // A request that is not valid asks for nothing.
    assert_eq!(
        guard
            .read_metadata_entries(&root, &chunk_index, &chunk_index_root, &[99], &nothing)
            .unwrap_err(),
        Schema6SeriesReaderError::InvalidSeriesRef { series_ref: 99, num_series: 4 }
    );
    assert_eq!(guard.health().sticky_artifacts(), 0);
}

#[test]
fn an_opened_version_two_segment_keeps_its_identity() {
    let fixture = standard_fixture("schema6-series-identity");
    assert_eq!(fixture.open().segment_identity(), "schema6-series-identity");
    let mut health = ArtifactHealth::new();
    let refused = GovernedSchema6SeriesReader::open_guarded(
        fixture.artifacts(),
        4,
        &mut health,
        &|_: u64| false,
    )
    .err();
    assert_eq!(
        refused,
        Some(Schema6SeriesReaderError::Budget {
            requested: std::mem::size_of::<Schema6SeriesRootV2>() as u64
        })
    );
    assert_eq!(health.sticky_artifacts(), 0);
    let reader =
        GovernedSchema6SeriesReader::open_guarded(fixture.artifacts(), 4, &mut health, &roomy)
            .expect("open a sound segment");
    assert_eq!(reader.segment_identity(), "schema6-series-identity");
}

#[test]
fn deferred_string_budget_refusal_is_nonsticky_and_releases_partial_output() {
    let fixture = standard_fixture("schema6-series-verified-deferred-budget");
    let reader = fixture.open();
    let mut guard = guarded(reader.query_session());
    let root = guard.load_root(&roomy).expect("load deferred-budget root");
    let symbols = fixture.symbol_session();
    let chunk_index = fixture.chunk_index_session();
    let chunk_index_root = chunk_index.load_root();
    let refs = [0];

    // Every text of the row holds three bytes: the first is granted, the second is not.
    let granted = Cell::new(0);
    let one_string = |bytes: u64| {
        if bytes != 3 {
            return true;
        }
        granted.set(granted.get() + 1);
        granted.get() <= 1
    };
    assert_eq!(
        guard
            .materialize_verified(
                &root,
                &chunk_index,
                &chunk_index_root,
                &symbols,
                &xx_hash64,
                &refs,
                &one_string,
            )
            .unwrap_err(),
        Schema6SeriesReaderError::Budget { requested: 3 }
    );
    assert_eq!(granted.get(), 2);
    assert_eq!(guard.health().sticky_artifacts(), 0);

    let retried = guard
        .materialize_verified(
            &root,
            &chunk_index,
            &chunk_index_root,
            &symbols,
            &xx_hash64,
            &refs,
            &roomy,
        )
        .expect("deferred budget refusal must be retryable");
    assert_eq!(retried.len(), 1);
}

#[test]
fn every_refused_request_of_a_batch_ends_it_without_a_fault() {
    let fixture = standard_fixture("schema6-series-refusals");
    let reader = fixture.open();
    let mut guard = guarded(reader.query_session());
    let root = guard.load_root(&roomy).expect("load root");
    let symbols = fixture.symbol_session();
    let chunk_index = fixture.chunk_index_session();
    let chunk_index_root = chunk_index.load_root();
    let mut granted = 0;
    loop {
        let asked = RefCell::new(Vec::new());
        let result = guard.materialize_verified(
            &root,
            &chunk_index,
            &chunk_index_root,
            &symbols,
            &xx_hash64,
            &[1, 2],
            &|bytes: u64| {
                asked.borrow_mut().push(bytes);
                asked.borrow().len() <= granted
            },
        );
        assert_eq!(guard.health().sticky_artifacts(), 0);
        match result {
            Ok(batch) => {
                assert_eq!(batch.len(), 2);
                break;
            }
            Err(error) => {
                assert_eq!(asked.borrow().len(), granted + 1);
                assert_eq!(
                    error,
                    Schema6SeriesReaderError::Budget { requested: asked.borrow()[granted] }
                );
                granted += 1;
            }
        }
    }
    // Besides the lists and the pages, each of the six texts is asked for.
    assert!(granted > 6);
}

#[test]
fn verified_identity_mismatch_is_sticky_series_corruption_without_partial_output() {
    let fixture = fixture("schema6-series-verified-identity", 1, default_entries(), |bytes| {
        bytes[SERIES_HEADER_LEN as usize..SERIES_HEADER_LEN as usize + 8]
            .copy_from_slice(&u64::MAX.to_le_bytes());
    });
    let reader = fixture.open();
    let session = reader.query_session();
    let root = session.load_root().expect("load identity root");
    let symbols = fixture.symbol_session();

    let directory = fixture.chunk_index_session();
    let mut guard = guarded(session);
    let error = guard
        .materialize_verified(
            &root,
            &directory,
            &directory.load_root(),
            &symbols,
            &xx_hash64,
            &[0],
            &roomy,
        )
        .unwrap_err();
    assert!(structural(&error));
    assert_eq!(guard.health().sticky_artifacts(), 1);
    assert!(guard
        .materialize_verified(
            &root,
            &directory,
            &directory.load_root(),
            &symbols,
            &xx_hash64,
            &[0],
            &roomy,
        )
        .is_err());

    // Identity disagreement belongs to series.bin; symbols.bin remains a
    // usable, separately governed artifact.
    symbols
        .resolve(1)
        .expect("series identity failure must not poison symbols");
}

#[test]
fn out_of_range_encoded_symbol_is_sticky_series_corruption_before_symbol_io() {
    let fixture = fixture(
        "schema6-series-verified-symbol-range",
        1,
        default_entries(),
        |bytes| replace_single_label_key(bytes, 2, 31),
    );
    let reader = fixture.open();
    let session = reader.query_session();
    let root = session.load_root().expect("load symbol-range root");
    let symbols = fixture.symbol_session();
    assert_eq!(
        symbols.len(),
        31,
        "symbol ID 31 is exactly one past the root"
    );

    let directory = fixture.chunk_index_session();
    let mut guard = guarded(session);
    let error = guard
        .materialize_verified(
            &root,
            &directory,
            &directory.load_root(),
            &symbols,
            &xx_hash64,
            &[2],
            &roomy,
        )
        .unwrap_err();
    assert!(structural(&error));
    assert_eq!(guard.health().sticky_artifacts(), 1);
    let Schema6SeriesReaderError::Cache(cause) = error else {
        panic!("expected a structural error");
    };
    assert_eq!(
        cause.to_string(),
        "schema-6 series ref 2 requires out-of-range symbol 31"
    );
    symbols
        .resolve(1)
        .expect("series corruption must not poison symbols.bin");
    assert!(guard
        .materialize_verified(
            &root,
            &directory,
            &directory.load_root(),
            &symbols,
            &xx_hash64,
            &[2],
            &roomy,
        )
        .is_err());
}

#[test]
fn verified_batch_accessor_rejects_foreign_generation_without_io_or_sticky_state() {
    let first = fixture("schema6-series-verified-batch-first", 1, default_entries(), |_| {});
    let second = fixture("schema6-series-verified-batch-second", 2, default_entries(), |_| {});
    let first_reader = first.open();
    let first_session = first_reader.query_session();
    let first_root = first_session.load_root().expect("load first series root");
    let first_symbols = first.symbol_session();
    let batch = read_verified(&first, &first_session, &first_root, &first_symbols, &[0])
        .expect("materialize first-generation verified batch");
    let second_reader = second.open();
    let second_session = second_reader.query_session();

    assert!(matches!(
        second_session.verified_series(&batch),
        Err(Schema6SeriesReaderError::ForeignSegmentGeneration)
    ));
}

const PRIME_1: u64 = 0x9e37_79b1_85eb_ca87;
const PRIME_2: u64 = 0xc2b2_ae3d_27d4_eb4f;
const PRIME_3: u64 = 0x1656_67b1_9e37_79f9;
const PRIME_4: u64 = 0x85eb_ca77_c2b2_ae63;
const PRIME_5: u64 = 0x27d4_eb2f_1656_67c5;

fn xx_round(lane: u64, word: u64) -> u64 {
    lane.wrapping_add(word.wrapping_mul(PRIME_2)).rotate_left(31).wrapping_mul(PRIME_1)
}

fn word_at(bytes: &[u8], at: usize) -> u64 {
    u64::from_le_bytes(bytes[at..at + 8].try_into().unwrap())
}

/// The 64-bit xxHash of the bytes, with seed zero.
fn xx_hash64(bytes: &[u8]) -> u64 {
    let mut at = 0;
    let mut hash = PRIME_5;
    if bytes.len() >= 32 {
        let mut lanes = [PRIME_1.wrapping_add(PRIME_2), PRIME_2, 0, 0u64.wrapping_sub(PRIME_1)];
        while at + 32 <= bytes.len() {
            for lane in &mut lanes {
                *lane = xx_round(*lane, word_at(bytes, at));
                at += 8;
            }
        }
        hash = lanes[0]
            .rotate_left(1)
            .wrapping_add(lanes[1].rotate_left(7))
            .wrapping_add(lanes[2].rotate_left(12))
            .wrapping_add(lanes[3].rotate_left(18));
        for lane in lanes {
            hash = (hash ^ xx_round(0, lane)).wrapping_mul(PRIME_1).wrapping_add(PRIME_4);
        }
    }
    hash = hash.wrapping_add(bytes.len() as u64);
    while at + 8 <= bytes.len() {
        hash = (hash ^ xx_round(0, word_at(bytes, at)))
            .rotate_left(27)
            .wrapping_mul(PRIME_1)
            .wrapping_add(PRIME_4);
        at += 8;
    }
    if at + 4 <= bytes.len() {
        let half = u32::from_le_bytes(bytes[at..at + 4].try_into().unwrap());
        hash = (hash ^ u64::from(half).wrapping_mul(PRIME_1))
            .rotate_left(23)
            .wrapping_mul(PRIME_2)
            .wrapping_add(PRIME_3);
        at += 4;
    }
    for byte in &bytes[at..] {
        hash = (hash ^ u64::from(*byte).wrapping_mul(PRIME_5))
            .rotate_left(11)
            .wrapping_mul(PRIME_1);
    }
    hash = (hash ^ (hash >> 33)).wrapping_mul(PRIME_2);
    hash = (hash ^ (hash >> 29)).wrapping_mul(PRIME_3);
    hash ^ (hash >> 32)
}

/// The identity of a label row of symbols.
fn label_identity(symbols: &[String], labels: &[(u32, u32)]) -> u64 {
    let mut bytes = Vec::new();
    for &(key_sym, value_sym) in labels {
        bytes.extend_from_slice(symbols[key_sym as usize].as_bytes());
        bytes.push(0);
        bytes.extend_from_slice(symbols[value_sym as usize].as_bytes());
        bytes.push(0xff);
    }
    xx_hash64(&bytes)
}
