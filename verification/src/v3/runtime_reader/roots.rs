//! Loading and binding roots, and loading and planning pages.

use vstd::prelude::*;

use super::{
    artifact_range_result, checked_vec_bytes, decoded_root_law, planning, provenance_result,
    read_artifact_range, record, record_in, recorded, recorded_in, vec_bytes_result, BoundRoots,
    BoundSchema7Roots, MetadataSession, RootPins, Schema7MetadataReaderError,
    Schema7MetadataSession, Schema7RootPins,
};
use crate::capacity::vec_capacity;
use crate::chunk::overflow::{
    decode_chunk_overflow_root_v2, overflow_root_result, CHUNK_OVERFLOW_ROOT_V2_LEN,
};
use crate::count::GovernedSeriesCountBinding;
use crate::health::FaultyFiles;
use crate::v3::cold_reader::{cold_page_result, ColdPage, ValidatedSeriesColdPage};
use crate::v3::header::{section_layout_law, SERIES_COLD_PAGE_LEN_V1, SERIES_HOT_PAGE_LEN_V1};
use crate::v3::reader::{
    admit_hot_page_result, plan_page_result, plan_schema7_decoded_hot_page, CachedHotPage,
    PlannedSeries, ValidatedSeriesHotPage,
};
use crate::v3::root::{decode_root_result, decode_series_root_v3};
use crate::v3::root_binding::{bind_result, Schema7RootBinding};

verus! {

/// The roots of the segment.
pub open spec fn load_roots_result(session: MetadataSession) -> Result<
    RootPins,
    Schema7MetadataReaderError,
> {
    match recorded(artifact_range_result(session.series, 0, session.root_len)) {
        Err(error) => Err(error),
        Ok(root_bytes) => match recorded(decode_root_result(root_bytes)) {
            Err(error) => Err(error),
            Ok(series) => match recorded_in(
                FaultyFiles::ChunkIndex,
                artifact_range_result(session.chunk_index, 0, 64),
            ) {
                Err(error) => Err(error),
                Ok(overflow_bytes) => match recorded_in(
                    FaultyFiles::ChunkIndex,
                    overflow_root_result(overflow_bytes, session.context.chunk_index_file_len),
                ) {
                    Err(error) => Err(error),
                    Ok(overflow) => Ok(
                        RootPins { generation: session.generation, series, overflow },
                    ),
                },
            },
        },
    }
}

/// Roots bound to each other and to the segment.
pub open spec fn bind_roots_result(session: MetadataSession, roots: RootPins) -> Result<
    BoundRoots,
    Schema7MetadataReaderError,
> {
    match provenance_result(session, roots.generation) {
        Err(error) => Err(error),
        Ok(_) => match recorded_in(
            FaultyFiles::Both,
            bind_result(roots.series.header, roots.overflow, session.context),
        ) {
            Err(error) => Err(error),
            Ok((series_pages, overflow_blobs)) => Ok(
                BoundRoots {
                    generation: roots.generation,
                    series: roots.series,
                    overflow: roots.overflow,
                    series_pages,
                    overflow_blobs,
                },
            ),
        },
    }
}

/// The bound roots of the segment.
pub open spec fn bound_result(session: MetadataSession) -> Result<
    BoundRoots,
    Schema7MetadataReaderError,
> {
    match load_roots_result(session) {
        Err(error) => Err(error),
        Ok(roots) => bind_roots_result(session, roots),
    }
}

/// Planned series that stay with the generation whose hot records they are.
#[derive(Debug)]
pub struct GovernedPlannedSeries {
    generation: u64,
    values: Vec<PlannedSeries>,
    charge: u64,
}

/// Planned series as a sequence.
pub struct PlannedBatch {
    pub generation: u64,
    pub values: Seq<PlannedSeries>,
    pub charge: u64,
}

impl View for GovernedPlannedSeries {
    type V = PlannedBatch;

    closed spec fn view(&self) -> PlannedBatch {
        PlannedBatch { generation: self.generation, values: self.values@, charge: self.charge }
    }
}

/// One planned series which cannot be detached from the generation that
/// integrity-checked its hot record.
#[derive(Debug, Clone, Copy)]
pub struct GovernedPlannedSeriesRef<'a> {
    generation: u64,
    value: &'a PlannedSeries,
}

impl<'a> GovernedPlannedSeriesRef<'a> {
    /// The generation of the plan.
    pub closed spec fn spec_generation(self) -> u64 {
        self.generation
    }

    /// The plan.
    pub closed spec fn planned(self) -> PlannedSeries {
        *self.value
    }

    pub fn generation(&self) -> (generation: u64)
        ensures
            generation == self.spec_generation(),
    {
        self.generation
    }

    pub fn value(&self) -> (value: &'a PlannedSeries)
        ensures
            *value == self.planned(),
    {
        self.value
    }
}

impl GovernedPlannedSeries {
    pub fn len(&self) -> (len: usize)
        ensures
            len == self@.values.len(),
    {
        self.values.len()
    }

    pub fn is_empty(&self) -> (empty: bool)
        ensures
            empty == (self@.values.len() == 0),
    {
        self.values.len() == 0
    }

    pub fn get(&self, index: usize) -> (planned: Option<GovernedPlannedSeriesRef<'_>>)
        ensures
            match planned {
                Some(planned) => index < self@.values.len() && planned.spec_generation()
                    == self@.generation && planned.planned() == self@.values[index as int],
                None => index >= self@.values.len(),
            },
    {
        if index < self.values.len() {
            Some(
                GovernedPlannedSeriesRef {
                    generation: self.generation,
                    value: &self.values[index],
                },
            )
        } else {
            None
        }
    }

    /// The logical bytes of the planned series, at the capacity of their list.
    pub fn charged_bytes(&self) -> (charge: u64)
        ensures
            charge == self@.charge,
    {
        self.charge
    }
}

/// An authenticated hot page of the segment.
pub open spec fn hot_page_result(session: MetadataSession, roots: BoundRoots, page_index: u32) -> Result<
    CachedHotPage,
    Schema7MetadataReaderError,
> {
    if provenance_result(session, roots.generation) is Err {
        Err(provenance_result(session, roots.generation)->Err_0)
    } else if page_index >= roots.series.hot.len() {
        Err(planning("schema-7 hot page index is out of range"))
    } else {
        let descriptor = roots.series.hot[page_index as int];
        match recorded(
            artifact_range_result(
                session.series,
                (roots.series_pages.hot_pages_offset + page_index * 16_384) as u64,
                16_384,
            ),
        ) {
            Err(error) => Err(error),
            Ok(bytes) => match recorded(
                admit_hot_page_result(
                    roots.series.header,
                    page_index,
                    descriptor,
                    bytes,
                    session.chunk_file_lens,
                ),
            ) {
                Err(error) => Err(error),
                Ok(_) => Ok(
                    CachedHotPage {
                        header: roots.series.header,
                        page_index,
                        descriptor,
                        chunk_file_lens: session.chunk_file_lens,
                        bytes,
                    },
                ),
            },
        }
    }
}

/// The plans of selected series of a hot page.
pub open spec fn plan_hot_result(
    session: MetadataSession,
    roots: BoundRoots,
    page_index: u32,
    refs: Seq<u32>,
) -> Result<Seq<PlannedSeries>, Schema7MetadataReaderError> {
    let declared = vec_bytes_result(
        vstd::layout::size_of::<PlannedSeries>(),
        refs.len(),
        "schema-7 planned-series allocation charge overflows",
    );
    if provenance_result(session, roots.generation) is Err {
        Err(provenance_result(session, roots.generation)->Err_0)
    } else if declared is Err {
        Err(declared->Err_0)
    } else {
        match hot_page_result(session, roots, page_index) {
            Err(error) => Err(error),
            Ok(page) => match plan_page_result(
                roots.series.header,
                roots.series_pages,
                page_index,
                page.descriptor,
                page,
                session.chunk_file_lens,
                refs,
            ) {
                Err(error) => Err(Schema7MetadataReaderError::Planning(error)),
                Ok(planned) => Ok(planned),
            },
        }
    }
}

/// An authenticated cold page of the segment.
pub open spec fn load_cold_page_result(
    session: MetadataSession,
    roots: BoundRoots,
    page_index: u32,
) -> Result<ColdPage, Schema7MetadataReaderError> {
    if provenance_result(session, roots.generation) is Err {
        Err(provenance_result(session, roots.generation)->Err_0)
    } else if page_index >= roots.series.cold.len() {
        Err(planning("schema-7 cold page index is out of range"))
    } else {
        let descriptor = roots.series.cold[page_index as int];
        match recorded(
            artifact_range_result(
                session.series,
                (roots.series_pages.cold_pages_offset + page_index * 16_384) as u64,
                descriptor.page_len as u64,
            ),
        ) {
            Err(error) => Err(error),
            Ok(bytes) => match recorded(
                cold_page_result(roots.series.header, page_index, descriptor, bytes),
            ) {
                Err(error) => Err(error),
                Ok(_) => Ok(
                    ColdPage { header: roots.series.header, page_index, descriptor, bytes },
                ),
            },
        }
    }
}

impl<'a> Schema7MetadataSession<'a> {
    /// Loads the two roots.
    pub fn load_roots(&self) -> (result: Result<Schema7RootPins, Schema7MetadataReaderError>)
        ensures
            match load_roots_result(self@) {
                Err(error) => result == Err::<Schema7RootPins, Schema7MetadataReaderError>(error),
                Ok(roots) => result is Ok && result->Ok_0@ == roots && roots.wf(),
            },
    {
        let root_bytes = record(read_artifact_range(self.artifacts.series, 0, self.root_len))?;
        let series = record(decode_series_root_v3(root_bytes))?;
        proof {
            decoded_root_law(root_bytes@);
        }
        let overflow_bytes = record_in(
            FaultyFiles::ChunkIndex,
            read_artifact_range(
                self.artifacts.chunk_index,
                0,
                CHUNK_OVERFLOW_ROOT_V2_LEN as u64,
            ),
        )?;
        let overflow = record_in(
            FaultyFiles::ChunkIndex,
            decode_chunk_overflow_root_v2(overflow_bytes, self.context.chunk_index_file_len),
        )?;
        Ok(Schema7RootPins { generation: self.artifacts.generation, series, overflow })
    }

    /// Cross-validates separately decoded roots.
    pub fn bind(&self, roots: Schema7RootPins) -> (result: Result<
        BoundSchema7Roots,
        Schema7MetadataReaderError,
    >)
        requires
            roots@.wf(),
        ensures
            match bind_roots_result(self@, roots@) {
                Err(error) => result == Err::<BoundSchema7Roots, Schema7MetadataReaderError>(error),
                Ok(bound) => result is Ok && result->Ok_0@ == bound && bound.wf(),
            },
    {
        self.ensure_provenance(roots.generation)?;
        let (series_pages, overflow_blobs) = record_in(
            FaultyFiles::Both,
            Schema7RootBinding::bind_decoded(&roots.series, &roots.overflow, self.context),
        )?;
        proof {
            section_layout_law(roots@.series.header);
        }
        Ok(BoundSchema7Roots { roots, series_pages, overflow_blobs })
    }

    /// How many series the segment has, once both roots have been
    /// cross-validated for this generation.
    pub fn series_count_binding(&self, roots: &BoundSchema7Roots) -> (result: Result<
        GovernedSeriesCountBinding,
        Schema7MetadataReaderError,
    >)
        ensures
            result == (match provenance_result(self@, roots@.generation) {
                Err(error) => Err(error),
                Ok(_) => Ok::<GovernedSeriesCountBinding, Schema7MetadataReaderError>(
                    GovernedSeriesCountBinding {
                        generation: self@.generation,
                        num_series: roots@.series.header.num_series,
                    },
                ),
            }),
    {
        self.ensure_bound_roots(roots)?;
        Ok(
            GovernedSeriesCountBinding {
                generation: self.artifacts.generation,
                num_series: roots.roots.series.header.num_series,
            },
        )
    }

    /// Loads and authenticates one exact fixed-size hot page.
    pub fn load_hot_page(&self, roots: &BoundSchema7Roots, page_index: u32) -> (result: Result<
        ValidatedSeriesHotPage,
        Schema7MetadataReaderError,
    >)
        requires
            roots@.wf(),
        ensures
            match hot_page_result(self@, roots@, page_index) {
                Err(error) => result == Err::<ValidatedSeriesHotPage, Schema7MetadataReaderError>(
                    error,
                ),
                Ok(page) => result is Ok && result->Ok_0@ == page,
            },
    {
        self.ensure_bound_roots(roots)?;
        let descriptor = roots.hot_descriptor(page_index)?;
        proof {
            section_layout_law(roots@.series.header);
        }
        let page_offset: u64 = roots.series_pages.hot_pages_offset + page_index as u64
            * SERIES_HOT_PAGE_LEN_V1 as u64;
        let bytes = record(
            read_artifact_range(
                self.artifacts.series,
                page_offset,
                SERIES_HOT_PAGE_LEN_V1 as u64,
            ),
        )?;
        record(
            ValidatedSeriesHotPage::decode(
                roots.roots.series.header,
                page_index,
                descriptor,
                bytes,
                self.artifacts.chunk_file_lens,
            ),
        )
    }

    /// Plans selected series from one authenticated page.
    pub fn plan_hot_page(
        &self,
        roots: &BoundSchema7Roots,
        page_index: u32,
        selected_series_refs: &[u32],
    ) -> (result: Result<GovernedPlannedSeries, Schema7MetadataReaderError>)
        requires
            roots@.wf(),
        ensures
            match plan_hot_result(self@, roots@, page_index, selected_series_refs@) {
                Err(error) => result == Err::<GovernedPlannedSeries, Schema7MetadataReaderError>(
                    error,
                ),
                Ok(planned) => result is Ok && result->Ok_0@.generation == self@.generation
                    && result->Ok_0@.values == planned,
            },
            result matches Ok(planned) ==> exists|capacity: usize|
                capacity >= planned@.values.len() && planned@.charge == #[trigger] (capacity
                    * vstd::layout::size_of::<PlannedSeries>()),
    {
        self.ensure_bound_roots(roots)?;
        checked_vec_bytes::<PlannedSeries>(
            selected_series_refs.len(),
            "schema-7 planned-series allocation charge overflows",
        )?;
        let descriptor = roots.hot_descriptor(page_index)?;
        let page = self.load_hot_page(roots, page_index)?;
        let values = match plan_schema7_decoded_hot_page(
            roots.roots.series.header,
            roots.series_pages,
            page_index,
            descriptor,
            &page,
            self.artifacts.chunk_file_lens,
            selected_series_refs,
        ) {
            Ok(values) => values,
            Err(error) => {
                return Err(Schema7MetadataReaderError::Planning(error));
            },
        };
        let capacity: usize = vec_capacity(&values);
        let charge: u64 = checked_vec_bytes::<PlannedSeries>(
            capacity,
            "schema-7 planned-series allocation charge overflows",
        )?;
        Ok(GovernedPlannedSeries { generation: self.artifacts.generation, values, charge })
    }

    /// Loads and authenticates one exact cold-label page.
    pub fn load_cold_page(&self, roots: &BoundSchema7Roots, page_index: u32) -> (result: Result<
        ValidatedSeriesColdPage,
        Schema7MetadataReaderError,
    >)
        requires
            roots@.wf(),
        ensures
            match load_cold_page_result(self@, roots@, page_index) {
                Err(error) => result == Err::<ValidatedSeriesColdPage, Schema7MetadataReaderError>(
                    error,
                ),
                Ok(page) => result is Ok && result->Ok_0@ == page,
            },
    {
        self.ensure_bound_roots(roots)?;
        let descriptor = roots.cold_descriptor(page_index)?;
        proof {
            section_layout_law(roots@.series.header);
            crate::v3::header::cold_page_cover_law(roots@.series.header, page_index);
        }
        let page_offset: u64 = roots.series_pages.cold_pages_offset + page_index as u64
            * SERIES_COLD_PAGE_LEN_V1;
        let bytes = record(
            read_artifact_range(
                self.artifacts.series,
                page_offset,
                descriptor.page_len as u64,
            ),
        )?;
        record(
            ValidatedSeriesColdPage::decode(
                roots.roots.series.header,
                page_index,
                descriptor,
                bytes,
            ),
        )
    }
}

} // verus!
