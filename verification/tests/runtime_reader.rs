//! The runtime boundary of a version 3 segment.

use std::cell::{Cell, RefCell};

use chronoxide_series::bytes::{push_u16, push_u32, push_u64, put_u16, put_u32, put_u64};
use chronoxide_series::chunk::overflow::{
    checked_chunk_overflow_blob_len, ChunkOverflowBlobLocatorV1, ChunkOverflowBlobV1,
    ChunkOverflowRootV2, OverflowChunkEntryV1, CHUNK_OVERFLOW_BLOB_V1_MAGIC,
    CHUNK_OVERFLOW_ROOT_V2_LEN, CHUNK_OVERFLOW_ROOT_V2_MAGIC,
};
use chronoxide_series::chunk::{ChunkIndexRange, ChunkKind, IndexedChunkLocator};
use chronoxide_series::cold_v2::plan::SeriesColdV2Plan;
use chronoxide_series::entry::SeriesEntry;
use chronoxide_series::error::{Error, ErrorKind, Message};
use chronoxide_series::health::{ArtifactFault, ArtifactHealth, FaultyFiles, SegmentFile};
use chronoxide_series::symbols::{GovernedSymbolReaderError, GovernedSymbolSession};
use chronoxide_series::v3::header::{
    SeriesHeaderV3, SeriesHeaderV3Params, SERIES_COLD_PAGE_LEN_V1, SERIES_HEADER_LEN_V3,
    SERIES_HOT_PAGE_LEN_V1,
};
use chronoxide_series::v3::hot::{
    InlineChunkV3, OverflowChunksV3, SeriesHotLocationV3, SeriesHotV3,
};
use chronoxide_series::v3::page::encode_series_hot_page_v1;
use chronoxide_series::v3::cold_reader::ValidatedSeriesColdPage;
use chronoxide_series::v3::reader::{
    PlannedSeries, SeriesChunkSpan, ValidatedOverflowBlob, ValidatedSeriesHotPage,
};
use chronoxide_series::v3::root::{
    encode_series_root_v3, SeriesColdPageDescriptorV1, SeriesRootV3,
};
use chronoxide_series::v3::root_binding::Schema7RootBindingContext;
use chronoxide_series::v3::runtime_reader::guard::Schema7ReadGuard;
use chronoxide_series::v3::runtime_reader::labels::{charge_text, CanonicalLabelSelection};
use chronoxide_series::v3::runtime_reader::materialize::GovernedVerifiedSeries;
use chronoxide_series::v3::runtime_reader::profile::{
    detailed_stage_started, finish_construction_stage, finish_identity_stage,
    finish_materialization_profile, finish_resolution_stage, CanonicalLabelMaterializationProfile,
};
use chronoxide_series::v3::runtime_reader::roots::GovernedPlannedSeriesRef;
use chronoxide_series::v3::runtime_reader::{
    BoundSchema7Roots, Schema7MetadataReader, Schema7MetadataReaderError, Schema7MetadataSession,
    SegmentArtifacts,
};
use crc32c::crc32c;

const SEGMENT_START_MS: u64 = 1_000;
const SEGMENT_END_MS: u64 = 2_000;
const CHUNK_FILE_LENS: [u64; 2] = [256, 128];

#[test]
fn canonical_materialization_profile_partitions_outer_elapsed() {
    let mut profile = CanonicalLabelMaterializationProfile {
        canonical_row_decode: 1,
        symbol_resolution: 2,
        canonical_identity: 3,
        label_construction: 4,
    };

    profile.finish_row(25);

    assert_eq!(profile.canonical_row_decode, 16);
    assert_eq!(profile.attributed(), 25);
    profile.finish_row(20);
    assert_eq!(profile.attributed(), 25);
}

#[test]
fn a_charge_that_cannot_be_counted_is_refused() {
    assert_eq!(charge_text(3, 4), Ok(7));
    assert_eq!(charge_text(u64::MAX - 4, 4), Ok(u64::MAX));
    let Err(Schema7MetadataReaderError::Symbols(GovernedSymbolReaderError::Cache(error))) =
        charge_text(u64::MAX - 3, 4)
    else {
        panic!("an overflowing charge must be refused");
    };
    assert_eq!(error.kind(), ErrorKind::OutOfMemory);
    assert_eq!(error.to_string(), "schema-7 canonical-label charge overflows");
}

#[test]
fn a_finished_stage_charges_the_time_that_it_returns() {
    let start = CanonicalLabelMaterializationProfile {
        canonical_row_decode: 1,
        symbol_resolution: 2,
        canonical_identity: 3,
        label_construction: 4,
    };
    let unstarted = detailed_stage_started::<false>();
    let mut profile = start;
    assert_eq!(finish_identity_stage(&mut profile, &unstarted), None);
    assert_eq!(finish_construction_stage(&mut profile, &unstarted), None);
    assert_eq!(finish_resolution_stage(&mut profile, start, &unstarted), None);
    assert_eq!(finish_materialization_profile(&mut profile, &unstarted), None);
    assert_eq!(profile, start);

    let started = detailed_stage_started::<true>();
    let identity = finish_identity_stage(&mut profile, &started).expect("identity time");
    assert_eq!(profile.canonical_identity, 3 + identity);
    let construction =
        finish_construction_stage(&mut profile, &started).expect("construction time");
    assert_eq!(profile.label_construction, 4 + construction);
    let resolution =
        finish_resolution_stage(&mut profile, start, &started).expect("resolution time");
    assert_eq!(
        profile.symbol_resolution,
        2 + resolution.saturating_sub(identity + construction)
    );
    let attributed = profile.attributed();
    let row = finish_materialization_profile(&mut profile, &started).expect("row time");
    assert_eq!(profile.canonical_row_decode, 1 + row.saturating_sub(attributed));
}

struct Fixture {
    identity: &'static str,
    generation: u64,
    series: Vec<u8>,
    chunk_index: Vec<u8>,
    symbols: Vec<String>,
    context: Schema7RootBindingContext,
    root_len: u64,
    cold_bytes: Vec<u8>,
    entries: Vec<SeriesEntry>,
}

#[derive(Clone, Copy, Default)]
struct FixtureOptions {
    generation: u64,
    corrupt_header: bool,
    corrupt_series_root_suffix: bool,
    corrupt_hot: bool,
    corrupt_cold: bool,
    corrupt_overflow_root: bool,
    corrupt_blob: bool,
    duplicate_blob_locator: bool,
    identity_mismatch: bool,
    substitute_row: bool,
    multi_label: bool,
    cross_page_keyset: bool,
    corrupt_second_cold_page: bool,
    symbol_count_limit: Option<usize>,
}

impl Fixture {
    fn artifacts(&self) -> SegmentArtifacts<'_> {
        SegmentArtifacts {
            identity: self.identity,
            generation: self.generation,
            series: &self.series,
            chunk_index: &self.chunk_index,
            chunk_file_lens: CHUNK_FILE_LENS,
        }
    }

    fn open(&self) -> Schema7MetadataReader<'_> {
        Schema7MetadataReader::open(self.artifacts(), self.context)
            .expect("open strict schema-7 metadata reader")
    }

    fn symbol_session(&self) -> GovernedSymbolSession {
        GovernedSymbolSession::new(self.generation, self.symbols.clone())
    }
}

fn bound_roots(session: &Schema7MetadataSession<'_>) -> BoundSchema7Roots {
    let roots = session.load_roots().expect("load roots");
    session.bind(roots).expect("bind roots")
}

fn structural(error: &Schema7MetadataReaderError) -> bool {
    match error {
        Schema7MetadataReaderError::Cache(fault) => fault.error.kind() == ErrorKind::InvalidData,
        _ => false,
    }
}

/// The artifacts that an error blames.
fn blamed(error: &Schema7MetadataReaderError) -> FaultyFiles {
    match error {
        Schema7MetadataReaderError::Cache(fault) => fault.files,
        _ => panic!("error blames no artifact: {error:?}"),
    }
}

/// Guards a session of artifacts in which no fault was seen.
fn guarded<'a>(session: Schema7MetadataSession<'a>) -> Schema7ReadGuard<'a> {
    Schema7ReadGuard::new(session, ArtifactHealth::new())
}

/// A budget that grants everything.
fn roomy(_bytes: u64) -> bool {
    true
}

/// A budget that grants requests of no more than this many bytes.
fn capped(limit: u64) -> impl Fn(u64) -> bool {
    move |bytes: u64| bytes <= limit
}

fn materialize_selected(
    guard: &mut Schema7ReadGuard<'_>,
    bound: &BoundSchema7Roots,
    symbols: &GovernedSymbolSession,
    planned: GovernedPlannedSeriesRef<'_>,
    names: &[String],
) -> Result<GovernedVerifiedSeries, Schema7MetadataReaderError> {
    let mut profile = CanonicalLabelMaterializationProfile::default();
    guard.materialize_verified_with_selection::<_, false>(
        bound,
        symbols,
        &xx_hash64,
        planned,
        CanonicalLabelSelection::Requested { names, derive_metric_name_dropped_identity: false },
        &mut profile,
        &roomy,
    )
}

fn materialize<H: Fn(&[u8]) -> u64>(
    guard: &mut Schema7ReadGuard<'_>,
    bound: &BoundSchema7Roots,
    symbols: &GovernedSymbolSession,
    hash: &H,
    planned: GovernedPlannedSeriesRef<'_>,
) -> Result<GovernedVerifiedSeries, Schema7MetadataReaderError> {
    let mut profile = CanonicalLabelMaterializationProfile::default();
    guard.materialize_verified_with_selection::<H, false>(
        bound,
        symbols,
        hash,
        planned,
        CanonicalLabelSelection::All,
        &mut profile,
        &roomy,
    )
}

/// The bytes of owned labels whose list was reserved for exactly their count.
fn label_bytes(labels: &[(String, String)]) -> u64 {
    let list = labels.len() * std::mem::size_of::<(String, String)>();
    let texts = labels
        .iter()
        .map(|(name, value)| name.capacity() + value.capacity())
        .sum::<usize>();
    (list + texts) as u64
}

fn fixture(
    identity: &'static str,
    corrupt_header: bool,
    corrupt_hot: bool,
    corrupt_blob: bool,
) -> Fixture {
    fixture_with(
        identity,
        FixtureOptions {
            corrupt_header,
            corrupt_hot,
            corrupt_blob,
            ..FixtureOptions::default()
        },
    )
}

fn fixture_with(identity: &'static str, options: FixtureOptions) -> Fixture {
    let overflow_entries = vec![
        overflow_entry(64, SEGMENT_START_MS + 2),
        overflow_entry(104, SEGMENT_START_MS + 3),
    ];
    let mut chunk_index = encode_chunk_index_v2(
        2,
        &[ChunkOverflowBlobV1 {
            series_ref: 1,
            entries: overflow_entries,
        }],
    )
    .expect("encode schema-7 overflow index");
    let locator = chunk_index.blob_locators[0];

    let (symbols, entries) = if options.cross_page_keyset {
        cross_page_fixture_data()
    } else {
        let symbols = fixture_symbols();
        let entries = if options.multi_label {
            multi_label_fixture_entries(&symbols)
        } else {
            fixture_entries(&symbols)
        };
        (symbols, entries)
    };
    let cold = SeriesColdV2Plan::build(&entries).expect("build schema-7 cold fixture");
    let cold_lengths = cold.lengths();

    let header = SeriesHeaderV3::new(SeriesHeaderV3Params {
        num_series: 2,
        num_keysets: cold.num_keysets(),
        num_value_dicts: cold.num_value_dicts(),
        chunk_index_root_crc32c: chunk_index.root.root_crc32c,
        keysets_len: cold_lengths.keysets,
        value_dicts_len: cold_lengths.value_dicts,
        keyset_blocks_len: cold_lengths.keyset_blocks,
        segment_start_ms: SEGMENT_START_MS,
        segment_end_ms: SEGMENT_END_MS,
        chunk_index_file_len: chunk_index.root.file_len,
    })
    .expect("construct schema-7 series header");
    let cold_rows = cold.series_rows();
    let mut records = vec![
        SeriesHotV3 {
            series_id: entries[0].series_id,
            keyset_id: cold_rows[0].keyset_id,
            row: cold_rows[0].row,
            kind_mask: 1,
            location: SeriesHotLocationV3::Inline(InlineChunkV3 {
                chunk_kind: ChunkKind::Float.code(),
                file_id: 0,
                scalar_lane_len: 0,
                min_time_delta_ms: 0,
                max_time_delta_ms: 1,
                file_offset: 0,
                chunk_length: 40,
                indexed_prefix_crc32c: 0x1111_1111,
            }),
        },
        SeriesHotV3 {
            series_id: entries[1].series_id,
            keyset_id: cold_rows[1].keyset_id,
            row: cold_rows[1].row,
            kind_mask: 1,
            location: SeriesHotLocationV3::Overflow(OverflowChunksV3 {
                blob_offset: locator.blob_offset,
                blob_len: locator.blob_len,
                chunk_count: locator.chunk_count,
            }),
        },
    ];
    if options.identity_mismatch {
        records[0].series_id ^= 1;
    }
    if options.substitute_row {
        assert_eq!(records[0].keyset_id, records[1].keyset_id);
        records[0].row = records[1].row;
    }
    if options.duplicate_blob_locator {
        records[0].location = SeriesHotLocationV3::Overflow(OverflowChunksV3 {
            blob_offset: locator.blob_offset,
            blob_len: locator.blob_len,
            chunk_count: locator.chunk_count,
        });
    }
    let (hot_descriptor, mut hot_page) =
        encode_series_hot_page_v1(header, 0, &records, CHUNK_FILE_LENS)
            .expect("encode schema-7 hot page");
    let cold_offsets = cold
        .section_offsets_at(header.keysets_offset)
        .expect("derive schema-7 cold offsets");
    let mut cold_bytes = Vec::new();
    cold.write_sections_at(&mut cold_bytes, cold_offsets)
        .expect("encode schema-7 cold bytes");
    let cold_descriptors = cold_bytes
        .chunks(SERIES_COLD_PAGE_LEN_V1 as usize)
        .enumerate()
        .map(|(page_index, bytes)| {
            SeriesColdPageDescriptorV1::new(
                header,
                u32::try_from(page_index).expect("cold page index fits u32"),
                crc32c(bytes),
            )
            .expect("construct schema-7 cold descriptor")
        })
        .collect::<Vec<_>>();
    let (header, mut root) = encode_series_root_v3(header, &[hot_descriptor], &cold_descriptors)
        .expect("encode schema-7 series root");

    if options.corrupt_header {
        root[0] ^= 1;
    }
    if options.corrupt_series_root_suffix {
        root[SERIES_HEADER_LEN_V3] ^= 1;
    }
    if options.corrupt_hot {
        hot_page[8_192] ^= 1;
    }
    if options.corrupt_cold {
        cold_bytes[0] ^= 1;
    }
    if options.corrupt_second_cold_page {
        cold_bytes[SERIES_COLD_PAGE_LEN_V1 as usize] ^= 1;
    }
    if options.corrupt_overflow_root {
        chunk_index.bytes[0] ^= 1;
    }
    if options.corrupt_blob {
        let last = chunk_index.bytes.len() - 1;
        chunk_index.bytes[last] ^= 1;
    }

    let symbol_count = options.symbol_count_limit.unwrap_or(symbols.len());
    let symbols = symbols
        .get(..symbol_count)
        .expect("fixture symbol limit is in range")
        .to_vec();

    let mut series = root;
    series.extend_from_slice(&hot_page);
    series.extend_from_slice(&cold_bytes);
    assert_eq!(series.len() as u64, header.file_len);

    Fixture {
        identity,
        generation: options.generation,
        series,
        chunk_index: chunk_index.bytes,
        symbols,
        context: Schema7RootBindingContext {
            series_file_len: header.file_len,
            chunk_index_file_len: chunk_index.root.file_len,
            segment_start_ms: SEGMENT_START_MS,
            segment_end_ms: SEGMENT_END_MS,
            series_count: 2,
        },
        root_len: header.hot_pages_offset,
        cold_bytes,
        entries,
    }
}

fn fixture_symbols() -> Vec<String> {
    (0..=5).map(|symbol_id| format!("s{symbol_id:02}")).collect()
}

fn unnamed_entry(labels: Vec<(u32, u32)>) -> SeriesEntry {
    SeriesEntry {
        series_id: 0,
        kind_mask: 1,
        chunk_index: ChunkIndexRange { offset: 0, len: 0 },
        labels,
    }
}

fn identify(symbols: &[String], entries: &mut [SeriesEntry]) {
    for entry in entries {
        entry.series_id = label_identity(symbols, &entry.labels);
    }
}

fn fixture_entries(symbols: &[String]) -> Vec<SeriesEntry> {
    let mut entries = vec![unnamed_entry(vec![(1, 3)]), unnamed_entry(vec![(1, 4)])];
    identify(symbols, &mut entries);
    entries
}

fn multi_label_fixture_entries(symbols: &[String]) -> Vec<SeriesEntry> {
    let mut entries = fixture_entries(symbols);
    for entry in &mut entries {
        entry.labels.push((2, 5));
    }
    identify(symbols, &mut entries);
    entries
}

fn cross_page_fixture_data() -> (Vec<String>, Vec<SeriesEntry>) {
    let large_key_count: u32 = 4_087;
    let value_sym = large_key_count + 1;
    let symbols = (0..=value_sym)
        .map(|symbol_id| format!("s{symbol_id:04}"))
        .collect::<Vec<_>>();
    let mut entries = vec![
        unnamed_entry((0..large_key_count).map(|key_sym| (key_sym, value_sym)).collect()),
        unnamed_entry(vec![(large_key_count, value_sym)]),
    ];
    identify(&symbols, &mut entries);
    (symbols, entries)
}

fn overflow_entry(offset: u64, timestamp_ms: u64) -> OverflowChunkEntryV1 {
    OverflowChunkEntryV1 {
        file_id: 0,
        kind: ChunkKind::Float,
        min_time_ms: timestamp_ms,
        max_time_ms: timestamp_ms,
        offset,
        length: 40,
        scalar_lane_offset: 0,
        scalar_lane_len: 0,
        indexed_prefix_crc32c: offset as u32,
    }
}

#[test]
fn identity_hash_matches_reference_vectors() {
    assert_eq!(xx_hash64(b""), 0xef46_db37_51d8_e999);
    assert_eq!(xx_hash64(b"a"), 0xd24e_c4f1_a98c_6e5b);
    assert_eq!(xx_hash64(b"abc"), 0x44bc_2cf5_ad77_0999);
}

#[test]
fn open_stages_exact_root_ranges_and_warm_roots_issue_no_io() {
    let fixture = fixture("schema7-roots", false, false, false);
    let reader = fixture.open();

    assert_eq!(reader.segment_identity(), "schema7-roots");
    assert_eq!(reader.root_len(), fixture.root_len);

    let session = reader.query_session();
    let bound = bound_roots(&session);
    assert_eq!(bound.series_pages().root_len, fixture.root_len);
    assert_eq!(bound.overflow_blobs().root_len, 64);
}

#[test]
fn tiny_in_flight_budget_refuses_hot_page_before_io_without_poisoning() {
    let fixture = fixture("schema7-tiny-in-flight", false, false, false);
    let reader = fixture.open();
    let mut guard = guarded(reader.query_session());
    let constrained = capped(16 * 1024);
    let roots = guard.load_roots(&constrained).expect("load constrained roots");
    let bound = guard.bind(roots).expect("bind constrained roots");
    let before = guard.health();

    let error = guard
        .plan_hot_page(&bound, 0, &[0, 1], &constrained)
        .expect_err("hot-page scratch reservation must exceed the budget");
    assert!(matches!(error, Schema7MetadataReaderError::Budget { .. }));
    assert_eq!(guard.health(), before);
    assert_eq!(guard.health().sticky_artifacts(), 0);

    guard
        .plan_hot_page(&bound, 0, &[0, 1], &roomy)
        .expect("budget refusal must be retryable");
}

#[test]
fn memory_is_asked_for_in_order_and_only_after_the_request_is_valid() {
    let fixture = fixture("schema7-budget-order", false, false, false);
    let reader = fixture.open();
    let mut guard = guarded(reader.query_session());
    let asked: RefCell<Vec<u64>> = RefCell::new(Vec::new());
    let recording = |bytes: u64| {
        asked.borrow_mut().push(bytes);
        true
    };
    let roots = guard.load_roots(&recording).expect("load roots");
    assert_eq!(
        asked.borrow_mut().drain(..).collect::<Vec<u64>>(),
        vec![
            SeriesRootV3::declared_max_bytes(fixture.root_len).unwrap(),
            std::mem::size_of::<ChunkOverflowRootV2>() as u64,
        ]
    );
    let bound = guard.bind(roots).expect("bind roots");
    let page_bytes =
        ValidatedSeriesHotPage::declared_max_bytes(bound.hot_descriptor(0).unwrap()).unwrap();
    let planned = guard.plan_hot_page(&bound, 0, &[0, 1], &recording).expect("plan");
    assert_eq!(
        asked.borrow_mut().drain(..).collect::<Vec<u64>>(),
        vec![2 * std::mem::size_of::<PlannedSeries>() as u64, page_bytes]
    );
    guard
        .plan_overflow_blob(&bound, planned.get(1).unwrap(), &recording)
        .expect("resolve overflow series");
    assert_eq!(asked.borrow().len(), 2);
    assert_eq!(
        asked.borrow_mut().drain(..).next(),
        Some(
            2 * std::mem::size_of::<IndexedChunkLocator>() as u64
                + std::mem::size_of::<SeriesChunkSpan>() as u64
        )
    );

    let Err(Schema7MetadataReaderError::Planning(error)) =
        guard.load_hot_page(&bound, 1, &recording)
    else {
        panic!("a page that does not exist cannot be loaded");
    };
    assert_eq!(error.to_string(), "schema-7 hot page index is out of range");
    assert!(asked.borrow().is_empty());
    // The memory for the plans is asked for before the page is looked up.
    assert!(guard.plan_hot_page(&bound, 1, &[0], &recording).is_err());
    assert_eq!(
        asked.borrow_mut().drain(..).collect::<Vec<u64>>(),
        vec![std::mem::size_of::<PlannedSeries>() as u64]
    );
}

#[test]
fn refused_memory_is_reported_with_what_was_asked_for() {
    let fixture = fixture("schema7-budget-refused", false, false, false);
    let reader = fixture.open();
    let mut guard = guarded(reader.query_session());
    let bound = bound_roots(&guard.session());
    let planned = guard.plan_hot_page(&bound, 0, &[0, 1], &roomy).expect("plan");
    let nothing = |_: u64| false;
    let refused = |requested: usize| Schema7MetadataReaderError::Budget {
        requested: requested as u64,
    };
    let page = std::mem::size_of::<ValidatedSeriesHotPage>() + SERIES_HOT_PAGE_LEN_V1;
    assert_eq!(
        guard.load_roots(&nothing).unwrap_err(),
        refused(std::mem::size_of::<SeriesRootV3>() + fixture.root_len as usize)
    );
    assert_eq!(guard.load_hot_page(&bound, 0, &nothing).unwrap_err(), refused(page));
    assert_eq!(
        guard.plan_hot_page(&bound, 0, &[0], &nothing).unwrap_err(),
        refused(std::mem::size_of::<PlannedSeries>())
    );
    let cold = bound.cold_descriptor(0).unwrap().page_len as usize
        + std::mem::size_of::<ValidatedSeriesColdPage>();
    assert_eq!(guard.load_cold_page(&bound, 0, &nothing).unwrap_err(), refused(cold));
    let start = bound.series_pages().cold_pages_offset;
    assert_eq!(
        guard.read_authenticated_cold_range(&bound, start..start + 1, &nothing).unwrap_err(),
        refused(cold)
    );
    let routed = planned.get(1).unwrap();
    assert!(matches!(
        guard.load_overflow_blob(&bound, routed, &nothing).unwrap_err(),
        Schema7MetadataReaderError::Budget { .. }
    ));
    assert!(matches!(
        guard.plan_overflow_blob(&bound, routed, &nothing).unwrap_err(),
        Schema7MetadataReaderError::Budget { .. }
    ));
    assert_eq!(guard.health().sticky_artifacts(), 0);
    guard.load_roots(&roomy).expect("nothing was recorded");
}

#[test]
fn opening_asks_for_the_memory_of_both_roots() {
    let fixture = fixture("schema7-open-budget", false, false, false);
    let series_root = std::mem::size_of::<SeriesRootV3>() as u64 + fixture.root_len;
    let overflow_root = std::mem::size_of::<ChunkOverflowRootV2>() as u64;
    let asked = RefCell::new(Vec::new());
    let mut health = ArtifactHealth::new();
    let open = |health: &mut ArtifactHealth, limit: usize| {
        asked.borrow_mut().clear();
        Schema7MetadataReader::open_guarded(
            fixture.artifacts(),
            fixture.context,
            health,
            &|bytes: u64| {
                asked.borrow_mut().push(bytes);
                asked.borrow().len() <= limit
            },
        )
        .err()
    };
    assert_eq!(
        open(&mut health, 0),
        Some(Schema7MetadataReaderError::Budget { requested: series_root })
    );
    assert_eq!(
        open(&mut health, 1),
        Some(Schema7MetadataReaderError::Budget { requested: overflow_root })
    );
    assert_eq!(health.sticky_artifacts(), 0);
    assert_eq!(open(&mut health, 2), None);
    assert_eq!(*asked.borrow(), vec![series_root, overflow_root]);

    // A fault of the series root comes before the memory for the overflow root.
    let broken = fixture_with(
        "schema7-open-budget-broken",
        FixtureOptions { corrupt_series_root_suffix: true, ..FixtureOptions::default() },
    );
    let error = Schema7MetadataReader::open_guarded(
        broken.artifacts(),
        broken.context,
        &mut health,
        &|bytes: u64| bytes != overflow_root,
    )
    .expect_err("a corrupt series root");
    assert!(structural(&error));
    assert_eq!(health.sticky_artifacts(), 1);
}

#[test]
fn materialization_budget_refusal_precedes_cold_io_and_is_retryable() {
    let fixture = fixture("schema7-materialize-budget", false, false, false);
    let reader = fixture.open();
    let symbols = fixture.symbol_session();
    let mut guard = guarded(reader.query_session());
    let bound = bound_roots(&guard.session());
    let planned = guard
        .plan_hot_page(&bound, 0, &[0], &roomy)
        .expect("plan budget series");
    let routed = planned.get(0).expect("budget series plan");
    let asked = RefCell::new(Vec::new());
    let one_byte_left = |bytes: u64| {
        asked.borrow_mut().push(bytes);
        bytes <= 1
    };
    let mut profile = CanonicalLabelMaterializationProfile::default();
    let error = guard
        .materialize_verified_with_selection::<_, false>(
            &bound,
            &symbols,
            &xx_hash64,
            routed,
            CanonicalLabelSelection::All,
            &mut profile,
            &one_byte_left,
        )
        .expect_err("cold-range scratch must be refused before I/O");
    assert_eq!(asked.borrow().len(), 1);
    assert_eq!(error, Schema7MetadataReaderError::Budget { requested: asked.borrow()[0] });
    assert_eq!(guard.health().sticky_artifacts(), 0);

    let verified = materialize(&mut guard, &bound, &symbols, &xx_hash64, routed)
        .expect("budget refusal must be retryable");
    assert_eq!(verified.series_id(), fixture.entries[0].series_id);
}

#[test]
fn every_refused_request_of_a_row_ends_it_without_a_fault() {
    let fixture = fixture_with(
        "schema7-materialize-refusals",
        FixtureOptions { multi_label: true, ..FixtureOptions::default() },
    );
    let reader = fixture.open();
    let symbols = fixture.symbol_session();
    let mut guard = guarded(reader.query_session());
    let bound = bound_roots(&guard.session());
    let planned = guard.plan_hot_page(&bound, 0, &[0], &roomy).expect("plan");
    let routed = planned.get(0).expect("planned row");
    let mut granted = 0;
    loop {
        let asked = RefCell::new(Vec::new());
        let mut profile = CanonicalLabelMaterializationProfile::default();
        let result = guard.materialize_verified_with_selection::<_, false>(
            &bound,
            &symbols,
            &xx_hash64,
            routed,
            CanonicalLabelSelection::All,
            &mut profile,
            &|bytes: u64| {
                asked.borrow_mut().push(bytes);
                asked.borrow().len() <= granted
            },
        );
        assert_eq!(guard.health().sticky_artifacts(), 0);
        match result {
            Ok(verified) => {
                assert_eq!(verified.series_id(), fixture.entries[0].series_id);
                break;
            }
            Err(error) => {
                assert_eq!(asked.borrow().len(), granted + 1);
                assert_eq!(
                    error,
                    Schema7MetadataReaderError::Budget { requested: asked.borrow()[granted] }
                );
                granted += 1;
            }
        }
    }
    // Besides the lists and the pages, every text of the row is asked for.
    assert!(granted > 4);
}

#[test]
fn a_refused_reuse_falls_back_to_the_row_without_it() {
    let fixture = fixture("schema7-reuse-refused", false, false, false);
    let reader = fixture.open();
    let symbols = fixture.symbol_session();
    let mut guard = guarded(reader.query_session());
    let bound = bound_roots(&guard.session());
    let planned = guard.plan_hot_page(&bound, 0, &[0], &roomy).expect("plan");
    let routed = planned.get(0).expect("planned row");
    let mut context = guard
        .session()
        .materialization_context(&bound, planned.len(), &roomy)
        .expect("reuse state");
    assert!(context.is_cached());
    let first = Cell::new(true);
    let mut profile = CanonicalLabelMaterializationProfile::default();
    let verified = guard
        .materialize_verified_selected_cached::<_, false>(
            &bound,
            &symbols,
            &xx_hash64,
            &mut context,
            routed,
            CanonicalLabelSelection::All,
            &mut profile,
            &|_: u64| !first.replace(false),
        )
        .expect("the row is read without reuse");
    assert_eq!(verified.series_id(), fixture.entries[0].series_id);
    assert!(!context.is_cached());
    let refused = guard
        .materialize_verified_encoded_selected_cached::<_, false>(
            &bound,
            &symbols,
            &xx_hash64,
            &mut context,
            routed,
            CanonicalLabelSelection::All,
            &mut profile,
            &capped(0),
        )
        .expect_err("without reuse a refusal ends the row");
    assert!(matches!(refused, Schema7MetadataReaderError::Budget { .. }));
    assert_eq!(guard.health().sticky_artifacts(), 0);
}

#[test]
fn a_guarded_cold_range_keeps_the_fault_of_its_pages() {
    let fixture = fixture_with(
        "schema7-guarded-cold-range",
        FixtureOptions {
            cross_page_keyset: true,
            corrupt_second_cold_page: true,
            ..FixtureOptions::default()
        },
    );
    let reader = fixture.open();
    let mut guard = guarded(reader.query_session());
    let bound = bound_roots(&guard.session());
    let start = bound.series_pages().cold_pages_offset;
    let range = guard
        .read_authenticated_cold_range(&bound, start..start + 16, &roomy)
        .expect("a range of the sound page");
    assert_eq!(range.as_slice().unwrap(), &fixture.cold_bytes[..16]);
    assert!(guard
        .read_authenticated_cold_range(&bound, start..start, &roomy)
        .expect("an empty range")
        .as_slice()
        .unwrap()
        .is_empty());

    let boundary = start + SERIES_COLD_PAGE_LEN_V1;
    let error = guard
        .read_authenticated_cold_range(&bound, boundary - 1..boundary + 1, &roomy)
        .expect_err("a range over the corrupt page");
    assert!(structural(&error));
    assert_eq!(guard.health().sticky_artifacts(), 1);
    assert_eq!(
        guard
            .read_authenticated_cold_range(&bound, start..start + 16, &roomy)
            .expect_err("the series artifact stays refused"),
        error
    );

    let mut guard = guarded(reader.query_session());
    let outside = guard
        .read_authenticated_cold_range(&bound, start - 1..start, &roomy)
        .expect_err("a range outside the stream");
    assert!(structural(&outside));
    assert_eq!(guard.health().sticky_artifacts(), 1);
}

#[test]
fn an_opened_segment_keeps_its_identity() {
    let fixture = fixture("schema7-identity", false, false, false);
    assert_eq!(fixture.open().segment_identity(), "schema7-identity");
    let mut health = ArtifactHealth::new();
    let reader = Schema7MetadataReader::open_guarded(
        fixture.artifacts(),
        fixture.context,
        &mut health,
        &roomy,
    )
    .expect("open a sound segment");
    assert_eq!(reader.segment_identity(), "schema7-identity");
    assert_eq!(health.sticky_artifacts(), 0);
}

#[test]
fn foreign_roots_bounds_and_plans_are_rejected_before_io_or_poisoning() {
    let first = fixture_with(
        "schema7-provenance-a",
        FixtureOptions { generation: 1, ..FixtureOptions::default() },
    );
    let second = fixture_with(
        "schema7-provenance-b",
        FixtureOptions { generation: 2, ..FixtureOptions::default() },
    );
    let first_reader = first.open();
    let second_reader = second.open();
    let first_session = first_reader.query_session();
    let second_session = second_reader.query_session();
    let mut second_guard = guarded(second_session);

    let foreign_roots = first_session.load_roots().expect("first roots");
    let error = second_guard
        .bind(foreign_roots)
        .expect_err("foreign root pins must not bind");
    assert!(matches!(error, Schema7MetadataReaderError::ForeignSegmentGeneration));

    let first_bound = bound_roots(&first_session);
    let second_bound = bound_roots(&second_session);
    let series_count = first_session
        .series_count_binding(&first_bound)
        .expect("mint first schema-7 series-count capability");
    assert_eq!(series_count.num_series(), 2);
    let error = second_session
        .series_count_binding(&first_bound)
        .expect_err("foreign bound roots must not mint a series-count capability");
    assert!(matches!(error, Schema7MetadataReaderError::ForeignSegmentGeneration));
    let first_planned = first_session
        .plan_hot_page(&first_bound, 0, &[1])
        .expect("plan first overflow series");

    let error = second_guard
        .load_hot_page(&first_bound, 0, &roomy)
        .expect_err("foreign bound roots must not load a page");
    assert!(matches!(error, Schema7MetadataReaderError::ForeignSegmentGeneration));
    let error = second_guard
        .plan_overflow_blob(
            &second_bound,
            first_planned.get(0).expect("first planned overflow series"),
            &roomy,
        )
        .expect_err("foreign planned series must not resolve a blob");
    assert!(matches!(error, Schema7MetadataReaderError::ForeignSegmentGeneration));
    assert_eq!(second_guard.health().sticky_artifacts(), 0);
}

#[test]
fn exact_hot_cold_and_blob_ranges_are_cached_and_planner_output_is_governed() {
    let fixture = fixture("schema7-touched", false, false, false);
    let reader = fixture.open();
    let session = reader.query_session();
    let bound = bound_roots(&session);

    let planned = session
        .plan_hot_page(&bound, 0, &[0, 1])
        .expect("plan selected schema-7 series");
    assert_eq!(planned.len(), 2);
    assert!(!planned.is_empty());
    assert_eq!(planned.get(0).expect("first planned series").value().series_ref, 0);
    assert_eq!(planned.get(1).expect("second planned series").value().series_ref, 1);
    let page = session
        .load_hot_page(&bound, 0)
        .expect("load authenticated hot page");
    assert_eq!(
        page.charged_bytes().unwrap(),
        std::mem::size_of::<ValidatedSeriesHotPage>() as u64 + SERIES_HOT_PAGE_LEN_V1 as u64
    );

    let cold = session
        .load_cold_page(&bound, 0)
        .expect("load authenticated cold page");
    assert_eq!(
        cold.bytes_for(
            bound.series_root().header,
            0,
            bound.cold_descriptor(0).expect("cold descriptor"),
        )
        .expect("bind cold cache hit"),
        fixture.cold_bytes
    );

    let overflow = planned.get(1).expect("overflow planned series");
    let batch = session
        .plan_overflow_blob(&bound, overflow)
        .expect("plan authenticated overflow locators");
    assert_eq!(batch.locators().len(), 2);
    assert_eq!(batch.series_spans().len(), 1);
    let blob = session
        .load_overflow_blob(&bound, planned.get(1).expect("overflow planned series"))
        .expect("reuse authenticated overflow blob");
    assert_eq!(
        blob.charged_bytes().unwrap(),
        std::mem::size_of::<ValidatedOverflowBlob>() as u64 + 32 + 2 * 44
    );
}

#[test]
fn materialize_verified_returns_owned_canonical_labels_and_stable_identity() {
    let fixture = fixture("schema7-materialize", false, false, false);
    let expected = fixture_entries(&fixture_symbols());
    let reader = fixture.open();
    let symbols = fixture.symbol_session();
    let session = reader.query_session();
    let bound = bound_roots(&session);
    let planned = session
        .plan_hot_page(&bound, 0, &[0])
        .expect("plan materialized series");

    let verified = session
        .materialize_verified(
            &bound,
            &symbols,
            &xx_hash64,
            planned.get(0).expect("planned materialized series"),
        )
        .expect("materialize and verify canonical labels");
    assert_eq!(verified.series_ref(), 0);
    assert_eq!(verified.series_id(), expected[0].series_id);
    assert_eq!(verified.kind_mask(), expected[0].kind_mask);
    assert_eq!(verified.labels(), &[(String::from("s01"), String::from("s03"))]);
    assert_eq!(verified.charged_bytes(), label_bytes(verified.labels()));
    assert_eq!(verified.integrity_checked_label_count(), 1);

    let second = session
        .materialize_verified(
            &bound,
            &symbols,
            &xx_hash64,
            planned.get(0).expect("planned materialized series"),
        )
        .expect("repeat materialization from authenticated cache values");
    assert_eq!(second.series_id(), verified.series_id());
    assert_eq!(second.labels(), verified.labels());
}

#[test]
fn selective_materialization_owns_only_requested_labels_but_hashes_every_pair() {
    let fixture = fixture_with(
        "schema7-selective-materialization",
        FixtureOptions { multi_label: true, ..FixtureOptions::default() },
    );
    let expected = multi_label_fixture_entries(&fixture_symbols());
    let reader = fixture.open();
    let symbols = fixture.symbol_session();
    let session = reader.query_session();
    let bound = bound_roots(&session);
    let planned = session
        .plan_hot_page(&bound, 0, &[0])
        .expect("plan selectively materialized series");
    let mut context = session
        .materialization_context(&bound, planned.len(), &roomy)
        .expect("create selective materialization context");
    assert!(context.is_cached());
    let requested = vec![String::from("s02")];

    let selected = session
        .materialize_verified_selected_cached(
            &bound,
            &symbols,
            &xx_hash64,
            &mut context,
            planned.get(0).expect("planned selectively materialized series"),
            &requested,
            true,
        )
        .expect("selectively materialize and verify canonical labels");
    assert_eq!(selected.series_id(), expected[0].series_id);
    assert_eq!(
        selected.metric_name_dropped_series_id(),
        Some(expected[0].series_id),
        "this fixture has no __name__ pair, so the derived identity is unchanged"
    );
    assert!(!selected.labels_complete());
    assert_eq!(selected.labels(), &[(String::from("s02"), String::from("s05"))]);
    assert_eq!(selected.integrity_checked_label_count(), 2);

    let selected_without_derived_identity = session
        .materialize_verified_selected_cached(
            &bound,
            &symbols,
            &xx_hash64,
            &mut context,
            planned.get(0).expect("planned selectively materialized series"),
            &requested,
            false,
        )
        .expect("selectively materialize without an unused range identity");
    assert!(!selected_without_derived_identity.labels_complete());
    assert_eq!(
        selected_without_derived_identity.metric_name_dropped_series_id(),
        None
    );
    assert_eq!(
        selected_without_derived_identity.labels(),
        selected.labels()
    );

    let full = session
        .materialize_verified(
            &bound,
            &symbols,
            &xx_hash64,
            planned.get(0).expect("planned selectively materialized series"),
        )
        .expect("full wrapper must retain established behavior");
    assert!(full.labels_complete());
    assert_eq!(full.metric_name_dropped_series_id(), None);
    assert_eq!(full.labels().len(), 2);
    assert_eq!(selected.charged_bytes(), label_bytes(selected.labels()));
    assert_eq!(full.charged_bytes(), label_bytes(full.labels()));
    assert!(selected.charged_bytes() < full.charged_bytes());
}

#[test]
fn selective_materialization_cannot_hide_omitted_identity_mismatch() {
    let fixture = fixture_with(
        "schema7-selective-identity-mismatch",
        FixtureOptions {
            identity_mismatch: true,
            multi_label: true,
            ..FixtureOptions::default()
        },
    );
    let reader = fixture.open();
    let symbols = fixture.symbol_session();
    let session = reader.query_session();
    let bound = bound_roots(&session);
    let planned = session
        .plan_hot_page(&bound, 0, &[0])
        .expect("plan selectively omitted labels");
    let routed = planned.get(0).expect("planned mismatched series");
    let unguarded = session
        .materialize_verified_selected(&bound, &symbols, &xx_hash64, routed, &[], false)
        .expect_err("omitting every owned label must not bypass identity verification");

    let mut guard = guarded(session);
    let error = materialize_selected(&mut guard, &bound, &symbols, routed, &[])
        .expect_err("omitting every owned label must not bypass identity verification");
    assert!(structural(&error));
    assert_eq!(error, unguarded);
    assert_eq!(blamed(&error), FaultyFiles::Series);
    assert_eq!(guard.health().sticky_artifacts(), 1);

    let retried = materialize_selected(&mut guard, &bound, &symbols, routed, &[])
        .expect_err("sticky omitted-label identity corruption must gate retry");
    assert_eq!(retried, error);
    assert_eq!(
        guard.load_hot_page(&bound, 0, &roomy).expect_err("the series artifact stays refused"),
        error
    );
    assert_eq!(guard.health().sticky_artifacts(), 1);
}

#[test]
fn selective_materialization_cannot_hide_an_omitted_symbol_bounds_error() {
    let fixture = fixture_with(
        "schema7-selective-omitted-symbol-bounds",
        FixtureOptions {
            multi_label: true,
            symbol_count_limit: Some(5),
            ..FixtureOptions::default()
        },
    );
    let reader = fixture.open();
    let symbols = fixture.symbol_session();
    let session = reader.query_session();
    let bound = bound_roots(&session);
    let planned = session
        .plan_hot_page(&bound, 0, &[0])
        .expect("plan row with omitted out-of-bounds value symbol");
    let requested = vec![String::from("s01")];

    let routed = planned.get(0).expect("planned malformed row");
    let unguarded = session
        .materialize_verified_selected(&bound, &symbols, &xx_hash64, routed, &requested, false)
        .expect_err("an invalid omitted label symbol must fail complete row validation");

    let mut guard = guarded(session);
    let error = materialize_selected(&mut guard, &bound, &symbols, routed, &requested)
        .expect_err("an invalid omitted label symbol must fail complete row validation");
    assert!(structural(&error));
    assert_eq!(error, unguarded);
    assert_eq!(guard.health().sticky_artifacts(), 1);
    assert_eq!(
        materialize_selected(&mut guard, &bound, &symbols, routed, &requested)
            .expect_err("an omitted out-of-bounds symbol must gate retry"),
        error
    );
}

#[test]
fn lazy_materialization_reuses_decoded_cold_metadata_between_visited_rows() {
    let fixture = fixture("schema7-lazy-materialization-reuse", false, false, false);
    let reader = fixture.open();
    let symbols = fixture.symbol_session();
    let session = reader.query_session();
    let bound = bound_roots(&session);
    let planned = session
        .plan_hot_page(&bound, 0, &[0, 1])
        .expect("plan shared-keyset rows");
    let mut context = session
        .materialization_context(&bound, planned.len(), &roomy)
        .expect("create lazy materialization context");

    let first = session
        .materialize_verified_cached(
            &bound,
            &symbols,
            &xx_hash64,
            &mut context,
            planned.get(0).expect("first shared-keyset row"),
        )
        .expect("materialize first shared-keyset row");
    assert_eq!(first.series_id(), fixture.entries[0].series_id);
    let second = session
        .materialize_verified_cached(
            &bound,
            &symbols,
            &xx_hash64,
            &mut context,
            planned.get(1).expect("second shared-keyset row"),
        )
        .expect("materialize second shared-keyset row");
    assert_eq!(second.series_id(), fixture.entries[1].series_id);
}

#[test]
fn materialization_context_budget_refusal_falls_back_to_scalar_decode() {
    let fixture = fixture(
        "schema7-lazy-materialization-budget-fallback",
        false,
        false,
        false,
    );
    let reader = fixture.open();
    let symbols = fixture.symbol_session();
    let session = reader.query_session();
    let bound = bound_roots(&session);
    let planned = session
        .plan_hot_page(&bound, 0, &[0])
        .expect("plan budget fallback row");
    let mut context = session
        .materialization_context(&bound, planned.len(), &capped(1))
        .expect("context reservation refusal is an optimization fallback");
    assert!(!context.is_cached());

    let verified = session
        .materialize_verified_cached(
            &bound,
            &symbols,
            &xx_hash64,
            &mut context,
            planned.get(0).expect("budget fallback row"),
        )
        .expect("scalar fallback must materialize the row");
    assert_eq!(verified.series_id(), fixture.entries[0].series_id);
}

#[test]
fn materialization_context_propagates_planning_overflow() {
    let fixture = fixture(
        "schema7-materialization-context-overflow",
        false,
        false,
        false,
    );
    let reader = fixture.open();
    let session = reader.query_session();
    let bound = bound_roots(&session);

    let error = session
        .materialization_context(&bound, usize::MAX, &roomy)
        .err()
        .expect("planning overflow must not be swallowed as an optional cache miss");
    assert!(matches!(
        error,
        Schema7MetadataReaderError::Planning(ref error)
            if error.kind() == ErrorKind::InvalidInput
    ));
}

#[test]
fn materialize_verified_rejects_identity_mismatch_and_makes_it_sticky() {
    let fixture = fixture_with(
        "schema7-identity-mismatch",
        FixtureOptions { identity_mismatch: true, ..FixtureOptions::default() },
    );
    let reader = fixture.open();
    let symbols = fixture.symbol_session();
    let session = reader.query_session();
    let bound = bound_roots(&session);
    let mut guard = guarded(session);
    let planned = session
        .plan_hot_page(&bound, 0, &[0])
        .expect("plan mismatched identity series");

    let error = materialize(
            &mut guard,
            &bound,
            &symbols,
            &xx_hash64,
            planned.get(0).expect("planned mismatched series"),
        )
        .expect_err("mismatched stored identity must fail");
    assert!(structural(&error));
    assert_eq!(blamed(&error), FaultyFiles::Series);
    assert_eq!(guard.health().sticky_artifacts(), 1);

    materialize(
            &mut guard,
            &bound,
            &symbols,
            &xx_hash64,
            planned.get(0).expect("planned mismatched series"),
        )
        .expect_err("sticky identity corruption must gate retry");
}

#[test]
fn materialize_verified_rejects_warm_row_substitution_without_more_io() {
    let fixture = fixture_with(
        "schema7-row-substitution",
        FixtureOptions { substitute_row: true, ..FixtureOptions::default() },
    );
    let reader = fixture.open();
    let symbols = fixture.symbol_session();
    let session = reader.query_session();
    let bound = bound_roots(&session);
    let mut guard = guarded(session);
    let planned = session
        .plan_hot_page(&bound, 0, &[0, 1])
        .expect("plan substituted and canonical rows");

    let warmed = materialize(
            &mut guard,
            &bound,
            &symbols,
            &xx_hash64,
            planned.get(1).expect("canonical row plan"),
        )
        .expect("warm the shared row, dictionary, and symbol pages");
    assert_eq!(warmed.series_id(), fixture.entries[1].series_id);
    let error = materialize(
            &mut guard,
            &bound,
            &symbols,
            &xx_hash64,
            planned.get(0).expect("substituted row plan"),
        )
        .expect_err("valid row substitution must fail identity verification");
    assert!(structural(&error));
    assert_eq!(guard.health().sticky_artifacts(), 1);

    materialize(
            &mut guard,
            &bound,
            &symbols,
            &xx_hash64,
            planned.get(0).expect("substituted row plan"),
        )
        .expect_err("sticky substitution must gate retry");

    let refused = materialize(
        &mut guard,
        &bound,
        &symbols,
        &xx_hash64,
        planned.get(1).expect("canonical row plan"),
    )
    .expect_err("a known fault refuses a sound row too");
    assert!(structural(&refused));
}

#[test]
fn cross_page_keyset_materializes_only_after_both_pages_authenticate() {
    let fixture = fixture_with(
        "schema7-cross-page-keyset",
        FixtureOptions { cross_page_keyset: true, ..FixtureOptions::default() },
    );
    assert!(
        fixture.cold_bytes.len() > SERIES_COLD_PAGE_LEN_V1 as usize,
        "fixture must span at least two physical cold pages"
    );
    let reader = fixture.open();
    let symbols = fixture.symbol_session();
    let session = reader.query_session();
    let bound = bound_roots(&session);
    let planned = session
        .plan_hot_page(&bound, 0, &[1])
        .expect("plan cross-page keyset series");
    let verified = session
        .materialize_verified(
            &bound,
            &symbols,
            &xx_hash64,
            planned.get(0).expect("cross-page series plan"),
        )
        .expect("materialize cross-page keyset");
    assert_eq!(verified.series_id(), fixture.entries[1].series_id);
    assert_eq!(
        verified.labels(),
        &[(String::from("s4087"), String::from("s4088"))]
    );
}

#[test]
fn cross_page_keyset_corruption_is_sticky_before_any_row_is_returned() {
    let fixture = fixture_with(
        "schema7-cross-page-corruption",
        FixtureOptions {
            cross_page_keyset: true,
            corrupt_second_cold_page: true,
            ..FixtureOptions::default()
        },
    );
    let reader = fixture.open();
    let symbols = fixture.symbol_session();
    let session = reader.query_session();
    let bound = bound_roots(&session);
    let mut guard = guarded(session);
    let planned = session
        .plan_hot_page(&bound, 0, &[1])
        .expect("plan corrupt cross-page series");

    let error = materialize(
            &mut guard,
            &bound,
            &symbols,
            &xx_hash64,
            planned.get(0).expect("corrupt cross-page series plan"),
        )
        .expect_err("second intersected page CRC must reject the complete keyset");
    assert!(structural(&error));
    assert_eq!(guard.health().sticky_artifacts(), 1);
    materialize(
            &mut guard,
            &bound,
            &symbols,
            &xx_hash64,
            planned.get(0).expect("corrupt cross-page series plan"),
        )
        .expect_err("sticky cross-page corruption must gate retry");
}

#[test]
fn foreign_symbol_generation_is_rejected_before_cold_io_or_poisoning() {
    let first = fixture_with(
        "schema7-materialize-generation-a",
        FixtureOptions { generation: 1, ..FixtureOptions::default() },
    );
    let second = fixture_with(
        "schema7-materialize-generation-b",
        FixtureOptions { generation: 2, ..FixtureOptions::default() },
    );
    let reader = first.open();
    let foreign_symbols = second.symbol_session();
    let session = reader.query_session();
    let bound = bound_roots(&session);
    let mut guard = guarded(session);
    let planned = session
        .plan_hot_page(&bound, 0, &[0])
        .expect("plan generation series");

    let error = materialize(
            &mut guard,
            &bound,
            &foreign_symbols,
            &xx_hash64,
            planned.get(0).expect("generation series plan"),
        )
        .expect_err("foreign symbol session must not materialize labels");
    assert!(matches!(
        error,
        Schema7MetadataReaderError::Symbols(GovernedSymbolReaderError::ForeignSegmentGeneration)
    ));
    assert_eq!(guard.health().sticky_artifacts(), 0);
}

#[test]
fn out_of_range_key_symbol_is_sticky_series_corruption_not_symbol_corruption() {
    let fixture = fixture_with(
        "schema7-key-symbol-bound",
        FixtureOptions { symbol_count_limit: Some(1), ..FixtureOptions::default() },
    );
    let reader = fixture.open();
    let symbols = fixture.symbol_session();
    let session = reader.query_session();
    let bound = bound_roots(&session);
    let mut guard = guarded(session);
    let planned = session
        .plan_hot_page(&bound, 0, &[0])
        .expect("plan key-bound series");

    let error = materialize(
            &mut guard,
            &bound,
            &symbols,
            &xx_hash64,
            planned.get(0).expect("key-bound series plan"),
        )
        .expect_err("out-of-range key symbol must fail as series corruption");
    assert!(structural(&error));
    assert_eq!(guard.health().sticky_artifacts(), 1);
    guard
        .health()
        .check_readable(SegmentFile::Series)
        .expect_err("series artifact must carry the sticky key-symbol error");
    guard
        .health()
        .check_readable(SegmentFile::ChunkIndex)
        .expect("chunk index must remain healthy");
    symbols
        .resolve(0)
        .expect("symbols artifact must remain healthy");
    materialize(
            &mut guard,
            &bound,
            &symbols,
            &xx_hash64,
            planned.get(0).expect("key-bound series plan"),
        )
        .expect_err("sticky series corruption must gate retry");
}

#[test]
fn duplicate_hot_blob_range_is_sticky_on_a_cache_hit_without_more_io() {
    let fixture = fixture_with(
        "schema7-duplicate-blob-range",
        FixtureOptions { duplicate_blob_locator: true, ..FixtureOptions::default() },
    );
    let reader = fixture.open();
    let session = reader.query_session();
    let bound = bound_roots(&session);
    let mut guard = guarded(session);
    let planned = guard
        .plan_hot_page(&bound, 0, &[0, 1], &roomy)
        .expect("plan both aliased hot records");
    guard
        .load_overflow_blob(
            &bound,
            planned.get(1).expect("blob identity matching series"),
            &roomy,
        )
        .expect("admit intrinsically valid physical blob");

    let error = guard
        .load_overflow_blob(&bound, planned.get(0).expect("aliased hot record"), &roomy)
        .expect_err("incompatible hot-record alias must fail on cache hit");
    assert!(structural(&error));
    assert_eq!(blamed(&error), FaultyFiles::Both);
    assert_eq!(guard.health().sticky_artifacts(), 2);

    guard
        .load_overflow_blob(&bound, planned.get(0).expect("aliased hot record"), &roomy)
        .expect_err("cross-artifact corruption must gate retry");
    assert_eq!(guard.health().sticky_artifacts(), 2);
}

#[test]
fn cold_page_corruption_is_sticky_without_admission_or_resource_leaks() {
    let fixture = fixture_with(
        "schema7-bad-cold-page",
        FixtureOptions { corrupt_cold: true, ..FixtureOptions::default() },
    );
    let reader = fixture.open();
    let session = reader.query_session();
    let bound = bound_roots(&session);

    let mut guard = guarded(session);
    let error = guard
        .load_cold_page(&bound, 0, &roomy)
        .expect_err("cold-page CRC corruption must fail");
    assert!(structural(&error));
    assert_eq!(guard.health().sticky_artifacts(), 1);

    guard
        .load_cold_page(&bound, 0, &roomy)
        .expect_err("sticky cold-page corruption gates retry");
}

#[test]
fn bootstrap_decode_corruption_is_sticky_before_root_admission() {
    let fixture = fixture("schema7-bad-header", true, false, false);
    let mut health = ArtifactHealth::new();
    let error = match Schema7MetadataReader::open_guarded(
        fixture.artifacts(),
        fixture.context,
        &mut health,
        &roomy,
    ) {
        Ok(_) => panic!("corrupt fixed header must fail open"),
        Err(error) => error,
    };
    assert!(structural(&error));
    assert_eq!(health.sticky_artifacts(), 1);

    let refused = health
        .check_readable(SegmentFile::Series)
        .expect_err("sticky header corruption gates retry");
    assert_eq!(Schema7MetadataReaderError::Cache(refused), error);
    let retried = Schema7MetadataReader::open_guarded(
        fixture.artifacts(),
        fixture.context,
        &mut health,
        &roomy,
    )
    .expect_err("sticky header corruption gates another open");
    assert_eq!(retried, error);
}

#[test]
fn root_suffix_and_overflow_root_corruption_are_sticky_with_exact_reads() {
    let series_fixture = fixture_with(
        "schema7-bad-series-root-suffix",
        FixtureOptions { corrupt_series_root_suffix: true, ..FixtureOptions::default() },
    );
    let mut health = ArtifactHealth::new();
    let error = match Schema7MetadataReader::open_guarded(
        series_fixture.artifacts(),
        series_fixture.context,
        &mut health,
        &roomy,
    ) {
        Ok(_) => panic!("corrupt series-root suffix must fail open"),
        Err(error) => error,
    };
    assert!(structural(&error));
    assert_eq!(health.sticky_artifacts(), 1);
    health
        .check_readable(SegmentFile::Series)
        .expect_err("sticky series-root corruption gates retry");
    health
        .check_readable(SegmentFile::ChunkIndex)
        .expect("chunk index stays readable");

    let overflow_fixture = fixture_with(
        "schema7-bad-overflow-root",
        FixtureOptions { corrupt_overflow_root: true, ..FixtureOptions::default() },
    );
    let mut health = ArtifactHealth::new();
    let error = match Schema7MetadataReader::open_guarded(
        overflow_fixture.artifacts(),
        overflow_fixture.context,
        &mut health,
        &roomy,
    ) {
        Ok(_) => panic!("corrupt overflow root must fail open"),
        Err(error) => error,
    };
    assert!(structural(&error));
    assert_eq!(health.sticky_artifacts(), 1);
    health
        .check_readable(SegmentFile::ChunkIndex)
        .expect_err("sticky overflow-root corruption gates retry");
    health
        .check_readable(SegmentFile::Series)
        .expect("series artifact stays readable");
}

#[test]
fn touched_page_and_blob_corruption_are_sticky_and_never_admitted() {
    let bad_page = fixture("schema7-bad-page", false, true, false);
    let page_reader = bad_page.open();
    let mut guard = guarded(page_reader.query_session());
    let roots = guard.load_roots(&roomy).expect("load page roots");
    let bound = guard.bind(roots).expect("bind page roots");
    let first = guard
        .load_hot_page(&bound, 0, &roomy)
        .expect_err("hot-page CRC corruption must fail");
    assert!(structural(&first));
    assert_eq!(guard.health().sticky_artifacts(), 1);
    let retried = guard
        .load_hot_page(&bound, 0, &roomy)
        .expect_err("sticky hot-page corruption gates retry");
    assert_eq!(retried, first);
    assert_eq!(guard.load_cold_page(&bound, 0, &roomy).unwrap_err(), first);
    assert_eq!(guard.load_roots(&roomy).unwrap_err(), first);

    let bad_blob = fixture("schema7-bad-blob", false, false, true);
    let blob_reader = bad_blob.open();
    let mut guard = guarded(blob_reader.query_session());
    let roots = guard.load_roots(&roomy).expect("load blob roots");
    let bound = guard.bind(roots).expect("bind blob roots");
    let planned = guard
        .plan_hot_page(&bound, 0, &[1], &roomy)
        .expect("plan overflow series");
    let first = guard
        .load_overflow_blob(&bound, planned.get(0).expect("overflow planned series"), &roomy)
        .expect_err("overflow-blob CRC corruption must fail");
    assert!(structural(&first));
    assert_eq!(blamed(&first), FaultyFiles::ChunkIndex);
    assert_eq!(guard.health().sticky_artifacts(), 1);
    guard
        .load_overflow_blob(&bound, planned.get(0).expect("overflow planned series"), &roomy)
        .expect_err("sticky overflow corruption gates retry");
    assert_eq!(
        guard
            .plan_overflow_blob(&bound, planned.get(0).expect("overflow planned series"), &roomy)
            .unwrap_err(),
        first
    );
    guard
        .load_hot_page(&bound, 0, &roomy)
        .expect("series artifact stays readable");
}

#[test]
fn encoded_rows_keep_requested_symbols() {
    let fixture = fixture_with(
        "schema7-encoded",
        FixtureOptions { multi_label: true, ..FixtureOptions::default() },
    );
    let reader = fixture.open();
    let symbols = fixture.symbol_session();
    let session = reader.query_session();
    let bound = bound_roots(&session);
    let planned = session.plan_hot_page(&bound, 0, &[0, 1]).expect("plan rows");
    let mut context = session
        .materialization_context(&bound, planned.len(), &roomy)
        .expect("create context");

    let full = session
        .materialize_verified_encoded_cached(
            &bound,
            &symbols,
            &xx_hash64,
            &mut context,
            planned.get(0).expect("first row"),
        )
        .expect("encoded row");
    assert_eq!(full.labels(), &[(1, 3), (2, 5)]);
    assert!(full.labels_complete());
    let requested = vec![String::from("s01")];
    let selected = session
        .materialize_verified_encoded_selected_cached(
            &bound,
            &symbols,
            &xx_hash64,
            &mut context,
            planned.get(1).expect("second row"),
            &requested,
            true,
        )
        .expect("selected encoded row");
    assert_eq!(selected.labels(), &[(1, 4)]);
    assert_eq!(selected.series_ref(), 1);
    assert_eq!(selected.series_id(), fixture.entries[1].series_id);
    assert_eq!(
        selected.metric_name_dropped_series_id(),
        Some(fixture.entries[1].series_id)
    );
    assert_eq!(selected.integrity_checked_label_count(), 2);

    let mut profile = CanonicalLabelMaterializationProfile::default();
    let uncached = session
        .materialize_verified_encoded_with_selection::<_, false>(
            &bound,
            &symbols,
            &xx_hash64,
            planned.get(0).expect("first row"),
            CanonicalLabelSelection::All,
            &mut profile,
            &roomy,
        )
        .expect("row without a context");
    assert_eq!(uncached.labels(), full.labels());
    assert_eq!(profile, CanonicalLabelMaterializationProfile::default());
    assert_eq!(full.charged_bytes(), 2 * std::mem::size_of::<(u32, u32)>() as u64);
    assert_eq!(selected.charged_bytes(), 2 * std::mem::size_of::<(u32, u32)>() as u64);
}

#[test]
fn profiled_rows_are_the_rows_without_a_profile() {
    let fixture = fixture_with(
        "schema7-profiled",
        FixtureOptions { multi_label: true, ..FixtureOptions::default() },
    );
    let reader = fixture.open();
    let symbols = fixture.symbol_session();
    let session = reader.query_session();
    let bound = bound_roots(&session);
    let planned = session.plan_hot_page(&bound, 0, &[0, 1]).expect("plan rows");
    let mut context = session
        .materialization_context(&bound, planned.len(), &roomy)
        .expect("create context");
    let requested = vec![String::from("s02")];

    let (full, profile) = session
        .materialize_verified_cached_profiled(
            &bound,
            &symbols,
            &xx_hash64,
            &mut context,
            planned.get(0).expect("first row"),
        )
        .expect("profiled row");
    assert_eq!(full.series_id(), fixture.entries[0].series_id);
    assert_eq!(full.labels().len(), 2);
    assert!(profile.attributed() >= profile.canonical_row_decode);
    let (selected, _) = session
        .materialize_verified_selected_cached_profiled(
            &bound,
            &symbols,
            &xx_hash64,
            &mut context,
            planned.get(1).expect("second row"),
            &requested,
            true,
        )
        .expect("profiled selected row");
    assert_eq!(selected.labels(), &[(String::from("s02"), String::from("s05"))]);
    let (encoded, _) = session
        .materialize_verified_encoded_cached_profiled(
            &bound,
            &symbols,
            &xx_hash64,
            &mut context,
            planned.get(0).expect("first row"),
        )
        .expect("profiled encoded row");
    assert_eq!(encoded.labels(), &[(1, 3), (2, 5)]);
    let (encoded, _) = session
        .materialize_verified_encoded_selected_cached_profiled(
            &bound,
            &symbols,
            &xx_hash64,
            &mut context,
            planned.get(1).expect("second row"),
            &requested,
            false,
        )
        .expect("profiled selected encoded row");
    assert_eq!(encoded.labels(), &[(2, 5)]);
    assert_eq!(encoded.metric_name_dropped_series_id(), None);
}

#[test]
fn profile_stages_take_only_what_is_left() {
    let mut profile = CanonicalLabelMaterializationProfile::default();
    let before = profile;
    profile.record_identity(30);
    profile.record_construction(12);
    profile.record_resolution(before, 50);
    assert_eq!(profile.symbol_resolution, 8);
    profile.record_resolution(before, 40);
    assert_eq!(profile.symbol_resolution, 8);
    profile.finish_row(60);
    assert_eq!(profile.canonical_row_decode, 10);
    assert_eq!(profile.attributed(), 60);
    profile.record_identity(u64::MAX);
    assert_eq!(profile.canonical_identity, u64::MAX);
    assert_eq!(profile.attributed(), u64::MAX);
}

#[test]
fn dropping_the_metric_name_changes_the_identity_of_a_named_row() {
    let symbols = vec![
        String::from("__name__"),
        String::from("requests"),
        String::from("zone"),
        String::from("eu"),
    ];
    let labels = vec![(0, 1), (2, 3)];
    let expected = label_identity(&symbols, &labels);
    let dropped = label_identity(&symbols, &[(2, 3)]);
    assert_ne!(expected, dropped);
    let fixture = fixture("schema7-metric-name", false, false, false);
    let session = fixture.open().query_session();
    let symbols = GovernedSymbolSession::new(0, symbols);
    let names = vec![String::from("zone")];
    let selection = CanonicalLabelSelection::Requested {
        names: &names,
        derive_metric_name_dropped_identity: true,
    };
    let mut encoded = labels.clone();
    let mut profile = CanonicalLabelMaterializationProfile::default();
    assert_eq!(
        session.verify_and_select_encoded_labels::<_, true>(
            &symbols,
            &xx_hash64,
            expected,
            &mut encoded,
            selection,
            &mut profile,
        ),
        Ok(Some(dropped))
    );
    assert_eq!(encoded, vec![(2, 3)]);
    let (owned, charge, identity) = session
        .materialize_and_verify_canonical_labels::<_, true>(
            &symbols,
            &xx_hash64,
            expected,
            &labels,
            selection,
            &mut profile,
            &roomy,
        )
        .expect("text row");
    assert_eq!(owned, vec![(String::from("zone"), String::from("eu"))]);
    assert_eq!(identity, Some(dropped));
    let expected_charge = owned.capacity() * std::mem::size_of::<(String, String)>()
        + owned
            .iter()
            .map(|(name, value)| name.capacity() + value.capacity())
            .sum::<usize>();
    assert_eq!(charge, expected_charge as u64);
}

#[test]
fn cold_ranges_stay_inside_the_stream() {
    let fixture = fixture("schema7-cold-range", false, false, false);
    let session = fixture.open().query_session();
    let bound = bound_roots(&session);
    let start = bound.series_pages().cold_pages_offset;
    let end = bound.series_pages().file_len;
    let range = session
        .read_authenticated_cold_range(&bound, start..end, &roomy)
        .expect("complete cold stream");
    assert_eq!(range.as_slice().unwrap(), fixture.cold_bytes);
    assert_eq!(
        session
            .read_authenticated_cold_range_owned(&bound, start + 8..start + 12, &roomy)
            .unwrap(),
        fixture.cold_bytes[8..12].to_vec()
    );
    assert!(session.read_authenticated_cold_range(&bound, start - 1..end, &roomy).is_err());
    assert!(session.read_authenticated_cold_range(&bound, start..end + 1, &roomy).is_err());
}

#[test]
fn inventory_lengths_must_match_the_artifacts() {
    let fixture = fixture("schema7-inventory", false, false, false);
    let mut context = fixture.context;
    context.series_file_len += 1;
    let error = Schema7MetadataReader::open(fixture.artifacts(), context).unwrap_err();
    assert!(structural(&error));
    let mut context = fixture.context;
    context.chunk_index_file_len -= 1;
    let error = Schema7MetadataReader::open(fixture.artifacts(), context).unwrap_err();
    assert!(structural(&error));
    let session = fixture.open().query_session();
    let bound = bound_roots(&session);
    assert!(matches!(
        session.load_hot_page(&bound, 1),
        Err(Schema7MetadataReaderError::Planning(_))
    ));
    assert!(matches!(
        bound.cold_descriptor(1),
        Err(Schema7MetadataReaderError::Planning(_))
    ));
}

/// Reads a row with and without reuse, as text and as symbols, through a guard.
fn guarded_rows<H: Fn(&[u8]) -> u64>(
    fixture: &Fixture,
    hash: &H,
    health: ArtifactHealth,
) -> Vec<Result<u64, Schema7MetadataReaderError>> {
    let symbols = fixture.symbol_session();
    let session = fixture.open().query_session();
    let bound = bound_roots(&session);
    let planned = session.plan_hot_page(&bound, 0, &[0]).expect("plan a sound series");
    let mut context = session
        .materialization_context(&bound, 1, &capped(1 << 20))
        .expect("reuse state");
    let mut guard = Schema7ReadGuard::new(session, health);
    let mut profile = CanonicalLabelMaterializationProfile::default();
    let row = planned.get(0).expect("sound series plan");
    let all = CanonicalLabelSelection::All;
    vec![
        guard
            .materialize_verified_with_selection::<H, false>(
                &bound, &symbols, hash, row, all, &mut profile, &roomy,
            )
            .map(|series| series.series_id()),
        guard
            .materialize_verified_encoded_with_selection::<H, false>(
                &bound, &symbols, hash, row, all, &mut profile, &roomy,
            )
            .map(|series| series.series_id()),
        guard
            .materialize_verified_selected_cached::<H, false>(
                &bound, &symbols, hash, &mut context, row, all, &mut profile, &roomy,
            )
            .map(|series| series.series_id()),
        guard
            .materialize_verified_encoded_selected_cached::<H, false>(
                &bound, &symbols, hash, &mut context, row, all, &mut profile, &roomy,
            )
            .map(|series| series.series_id()),
    ]
}

#[test]
fn a_known_fault_refuses_every_row_of_its_artifact() {
    let fixture = fixture("schema7-known-fault", false, false, false);
    let sound = ArtifactHealth::new();
    let expected = fixture.entries[0].series_id;
    assert_eq!(guarded_rows(&fixture, &xx_hash64, sound), vec![Ok(expected); 4]);

    let mut index = ArtifactHealth::new();
    let error = Error { kind: ErrorKind::InvalidData, message: Message::Text("seen before") };
    index.record(ArtifactFault { files: FaultyFiles::ChunkIndex, error });
    assert_eq!(guarded_rows(&fixture, &xx_hash64, index), vec![Ok(expected); 4]);

    let mut series = ArtifactHealth::new();
    let fault = ArtifactFault { files: FaultyFiles::Series, error };
    series.record(fault);
    assert_eq!(
        guarded_rows(&fixture, &xx_hash64, series),
        vec![Err(Schema7MetadataReaderError::Cache(fault)); 4]
    );
}

#[derive(Debug)]
struct EncodedChunkIndexV2 {
    bytes: Vec<u8>,
    root: ChunkOverflowRootV2,
    blob_locators: Vec<ChunkOverflowBlobLocatorV1>,
}

/// Lays out a chunk index: the root, then every blob.
fn encode_chunk_index_v2(
    series_count: u32,
    blobs: &[ChunkOverflowBlobV1],
) -> Option<EncodedChunkIndexV2> {
    let mut bytes = vec![0u8; CHUNK_OVERFLOW_ROOT_V2_LEN];
    let mut blob_locators = Vec::new();
    for blob in blobs {
        let chunk_count = u32::try_from(blob.entries.len()).ok()?;
        let blob_len = checked_chunk_overflow_blob_len(chunk_count)?;
        blob_locators.push(ChunkOverflowBlobLocatorV1 {
            series_ref: blob.series_ref,
            blob_offset: bytes.len() as u64,
            blob_len,
            chunk_count,
        });
        let start = bytes.len();
        push_u32(&mut bytes, CHUNK_OVERFLOW_BLOB_V1_MAGIC);
        push_u16(&mut bytes, 1);
        push_u16(&mut bytes, 0);
        push_u32(&mut bytes, blob.series_ref);
        push_u32(&mut bytes, chunk_count);
        push_u32(&mut bytes, blob_len);
        push_u64(&mut bytes, 0);
        push_u32(&mut bytes, 0);
        for entry in &blob.entries {
            bytes.push(entry.file_id);
            bytes.push(entry.kind.code());
            push_u16(&mut bytes, 0);
            push_u64(&mut bytes, entry.min_time_ms);
            push_u64(&mut bytes, entry.max_time_ms);
            push_u64(&mut bytes, entry.offset);
            push_u32(&mut bytes, entry.length);
            push_u32(&mut bytes, entry.scalar_lane_offset);
            push_u32(&mut bytes, entry.scalar_lane_len);
            push_u32(&mut bytes, entry.indexed_prefix_crc32c);
        }
        let checksum = crc32c(&bytes[start..]);
        put_u32(&mut bytes, start + 28, checksum);
    }
    let file_len = bytes.len() as u64;
    let blobs_len = file_len - CHUNK_OVERFLOW_ROOT_V2_LEN as u64;
    let blob_count = u32::try_from(blobs.len()).ok()?;
    put_u32(&mut bytes, 0, CHUNK_OVERFLOW_ROOT_V2_MAGIC);
    put_u16(&mut bytes, 4, 2);
    put_u32(&mut bytes, 8, series_count);
    put_u32(&mut bytes, 12, blob_count);
    put_u64(&mut bytes, 16, CHUNK_OVERFLOW_ROOT_V2_LEN as u64);
    put_u64(&mut bytes, 24, blobs_len);
    put_u64(&mut bytes, 32, file_len);
    let root_crc32c = crc32c(&bytes[..CHUNK_OVERFLOW_ROOT_V2_LEN]);
    put_u32(&mut bytes, 56, root_crc32c);
    Some(EncodedChunkIndexV2 {
        bytes,
        root: ChunkOverflowRootV2 { series_count, blob_count, blobs_len, file_len, root_crc32c },
        blob_locators,
    })
}

const PRIME_1: u64 = 0x9e37_79b1_85eb_ca87;
const PRIME_2: u64 = 0xc2b2_ae3d_27d4_eb4f;
const PRIME_3: u64 = 0x1656_67b1_9e37_79f9;
const PRIME_4: u64 = 0x85eb_ca77_c2b2_ae63;
const PRIME_5: u64 = 0x27d4_eb2f_1656_67c5;

fn xx_round(lane: u64, word: u64) -> u64 {
    lane.wrapping_add(word.wrapping_mul(PRIME_2)).rotate_left(31).wrapping_mul(PRIME_1)
}

fn word_at(bytes: &[u8], at: usize) -> u64 {
    u64::from_le_bytes(bytes[at..at + 8].try_into().unwrap())
}

/// The 64-bit xxHash of the bytes, with seed zero.
fn xx_hash64(bytes: &[u8]) -> u64 {
    let mut at = 0;
    let mut hash = PRIME_5;
    if bytes.len() >= 32 {
        let mut lanes = [PRIME_1.wrapping_add(PRIME_2), PRIME_2, 0, 0u64.wrapping_sub(PRIME_1)];
        while at + 32 <= bytes.len() {
            for lane in &mut lanes {
                *lane = xx_round(*lane, word_at(bytes, at));
                at += 8;
            }
        }
        hash = lanes[0]
            .rotate_left(1)
            .wrapping_add(lanes[1].rotate_left(7))
            .wrapping_add(lanes[2].rotate_left(12))
            .wrapping_add(lanes[3].rotate_left(18));
        for lane in lanes {
            hash = (hash ^ xx_round(0, lane)).wrapping_mul(PRIME_1).wrapping_add(PRIME_4);
        }
    }
    hash = hash.wrapping_add(bytes.len() as u64);
    while at + 8 <= bytes.len() {
        hash = (hash ^ xx_round(0, word_at(bytes, at)))
            .rotate_left(27)
            .wrapping_mul(PRIME_1)
            .wrapping_add(PRIME_4);
        at += 8;
    }
    if at + 4 <= bytes.len() {
        let half = u32::from_le_bytes(bytes[at..at + 4].try_into().unwrap());
        hash = (hash ^ u64::from(half).wrapping_mul(PRIME_1))
            .rotate_left(23)
            .wrapping_mul(PRIME_2)
            .wrapping_add(PRIME_3);
        at += 4;
    }
    for byte in &bytes[at..] {
        hash = (hash ^ u64::from(*byte).wrapping_mul(PRIME_5))
            .rotate_left(11)
            .wrapping_mul(PRIME_1);
    }
    hash = (hash ^ (hash >> 33)).wrapping_mul(PRIME_2);
    hash = (hash ^ (hash >> 29)).wrapping_mul(PRIME_3);
    hash ^ (hash >> 32)
}

/// The identity of a label row of symbols.
fn label_identity(symbols: &[String], labels: &[(u32, u32)]) -> u64 {
    let mut bytes = Vec::new();
    for &(key_sym, value_sym) in labels {
        bytes.extend_from_slice(symbols[key_sym as usize].as_bytes());
        bytes.push(0);
        bytes.extend_from_slice(symbols[value_sym as usize].as_bytes());
        bytes.push(0xff);
    }
    xx_hash64(&bytes)
}
