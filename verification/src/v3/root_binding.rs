//! Pure cross-artifact validation for the fixed roots of a segment.
//!
//! The individual codecs authenticate one exact `series.bin` root and one
//! exact `chunk_index.bin` root. This module binds those roots to each other
//! and to independently inventoried segment facts before a caller may use any
//! descriptor or locator.

use core::mem::size_of;

use vstd::prelude::*;

use super::header::{cold_bytes_result, section_layout_law, SeriesHeaderV3};
use super::root::{
    decode_root_result, decode_series_root_v3, root_charge, root_charge_result, SeriesRoot,
    SeriesRootV3,
};
use crate::capacity::vec_capacity;
use crate::chunk::overflow::{
    decode_chunk_overflow_root_v2, overflow_root_result, ChunkOverflowRootV2,
    CHUNK_OVERFLOW_ROOT_V2_LEN,
};
use crate::error::{data_error, invalid_data, Error};

verus! {

/// Independently validated context required to bind the roots.
#[derive(Debug, Clone, Copy, PartialEq, Eq, Structural)]
pub struct Schema7RootBindingContext {
    pub series_file_len: u64,
    pub chunk_index_file_len: u64,
    pub segment_start_ms: u64,
    pub segment_end_ms: u64,
    pub series_count: u32,
}

/// Derived immutable page ranges from an authenticated `series.bin` root.
#[derive(Debug, Clone, Copy, PartialEq, Eq, Structural)]
pub struct Schema7SeriesPageFacts {
    pub root_len: u64,
    pub hot_page_count: u32,
    pub hot_pages_offset: u64,
    pub hot_pages_len: u64,
    pub cold_page_count: u32,
    pub cold_pages_offset: u64,
    pub cold_pages_len: u64,
    pub file_len: u64,
}

/// Derived immutable blob ranges from an authenticated `chunk_index.bin` root.
#[derive(Debug, Clone, Copy, PartialEq, Eq, Structural)]
pub struct Schema7OverflowBlobFacts {
    pub root_len: u64,
    pub blob_count: u32,
    pub blobs_offset: u64,
    pub blobs_len: u64,
    pub file_len: u64,
}

/// Two authenticated roots bound to the same independently inventoried segment.
#[derive(Debug, PartialEq, Eq)]
pub struct Schema7RootBinding {
    series_root: SeriesRootV3,
    chunk_index_root: ChunkOverflowRootV2,
    series_pages: Schema7SeriesPageFacts,
    overflow_blobs: Schema7OverflowBlobFacts,
}

/// A binding with its series root seen through its view.
pub struct RootBinding {
    pub series_root: SeriesRoot,
    pub chunk_index_root: ChunkOverflowRootV2,
    pub series_pages: Schema7SeriesPageFacts,
    pub overflow_blobs: Schema7OverflowBlobFacts,
}

impl View for Schema7RootBinding {
    type V = RootBinding;

    closed spec fn view(&self) -> RootBinding {
        RootBinding {
            series_root: self.series_root@,
            chunk_index_root: self.chunk_index_root,
            series_pages: self.series_pages,
            overflow_blobs: self.overflow_blobs,
        }
    }
}

pub open spec fn segment_bounds_result(context: Schema7RootBindingContext) -> Result<(), Error> {
    if context.segment_start_ms >= context.segment_end_ms {
        Err(data_error("schema-7 expected segment bounds are invalid"))
    } else {
        Ok(())
    }
}

/// The page ranges of a header whose cold stream has this length.
pub open spec fn page_facts_of(header: SeriesHeaderV3, cold_pages_len: u64) -> Schema7SeriesPageFacts {
    Schema7SeriesPageFacts {
        root_len: header.hot_pages_offset,
        hot_page_count: header.page_count,
        hot_pages_offset: header.hot_pages_offset,
        hot_pages_len: header.hot_pages_len,
        cold_page_count: header.cold_page_count,
        cold_pages_offset: header.keysets_offset,
        cold_pages_len,
        file_len: header.file_len,
    }
}

/// The blob ranges of a chunk-index root.
pub open spec fn blob_facts_of(root: ChunkOverflowRootV2) -> Schema7OverflowBlobFacts {
    Schema7OverflowBlobFacts {
        root_len: 64,
        blob_count: root.blob_count,
        blobs_offset: 64,
        blobs_len: root.blobs_len,
        file_len: root.file_len,
    }
}

pub open spec fn bind_result(
    series: SeriesHeaderV3,
    root: ChunkOverflowRootV2,
    context: Schema7RootBindingContext,
) -> Result<(Schema7SeriesPageFacts, Schema7OverflowBlobFacts), Error> {
    if segment_bounds_result(context) is Err {
        Err(segment_bounds_result(context)->Err_0)
    } else if series.num_series != root.series_count {
        Err(data_error("schema-7 series and chunk-index root counts are not bound"))
    } else if series.chunk_index_file_len != root.file_len {
        Err(data_error("schema-7 series and chunk-index root lengths are not bound"))
    } else if series.chunk_index_root_crc32c != root.root_crc32c {
        Err(data_error("schema-7 series and chunk-index root CRCs are not bound"))
    } else if series.file_len != context.series_file_len {
        Err(data_error("schema-7 series root file length does not match footer inventory"))
    } else if series.chunk_index_file_len != context.chunk_index_file_len {
        Err(data_error("schema-7 series root chunk-index length does not match footer inventory"))
    } else if series.segment_start_ms != context.segment_start_ms || series.segment_end_ms
        != context.segment_end_ms {
        Err(data_error("schema-7 series root segment bounds do not match expected segment"))
    } else if series.num_series != context.series_count {
        Err(data_error("schema-7 series root count does not match expected segment"))
    } else {
        match cold_bytes_result(series) {
            Err(error) => Err(error),
            Ok(cold_pages_len) => Ok((page_facts_of(series, cold_pages_len), blob_facts_of(root))),
        }
    }
}

pub open spec fn decode_binding_result(
    series_root_bytes: Seq<u8>,
    chunk_index_root_bytes: Seq<u8>,
    context: Schema7RootBindingContext,
) -> Result<RootBinding, Error> {
    if segment_bounds_result(context) is Err {
        Err(segment_bounds_result(context)->Err_0)
    } else {
        match decode_root_result(series_root_bytes) {
            Err(error) => Err(error),
            Ok(series_root) => match overflow_root_result(
                chunk_index_root_bytes,
                context.chunk_index_file_len,
            ) {
                Err(error) => Err(error),
                Ok(chunk_index_root) => match bind_result(
                    series_root.header,
                    chunk_index_root,
                    context,
                ) {
                    Err(error) => Err(error),
                    Ok((series_pages, overflow_blobs)) => Ok(
                        RootBinding { series_root, chunk_index_root, series_pages, overflow_blobs },
                    ),
                },
            },
        }
    }
}

pub open spec fn binding_view(result: Result<Schema7RootBinding, Error>) -> Result<
    RootBinding,
    Error,
> {
    match result {
        Ok(binding) => Ok(binding@),
        Err(error) => Err(error),
    }
}

impl Schema7RootBinding {
    /// Decodes and binds two exact root byte ranges.
    ///
    /// The context lengths normally come from the canonical footer inventory;
    /// its segment bounds and series count come from independently validated
    /// segment metadata. The returned roots are safe to use for subsequent
    /// touched-range reads, but this does not authenticate any page or
    /// overflow blob body.
    pub fn decode(
        series_root_bytes: &[u8],
        chunk_index_root_bytes: &[u8],
        context: Schema7RootBindingContext,
    ) -> (result: Result<Self, Error>)
        ensures
            binding_view(result) == decode_binding_result(
                series_root_bytes@,
                chunk_index_root_bytes@,
                context,
            ),
    {
        // Context validation stands ahead of either decoder so malformed
        // caller context is reported before malformed bytes.
        validate_expected_segment_bounds(context)?;
        let series_root = decode_series_root_v3(series_root_bytes)?;
        let chunk_index_root = decode_chunk_overflow_root_v2(
            chunk_index_root_bytes,
            context.chunk_index_file_len,
        )?;
        let (series_pages, overflow_blobs) = Self::bind_decoded(
            &series_root,
            &chunk_index_root,
            context,
        )?;
        Ok(Self { series_root, chunk_index_root, series_pages, overflow_blobs })
    }

    /// Cross-validates separately decoded roots without cloning either root.
    pub fn bind_decoded(
        series_root: &SeriesRootV3,
        chunk_index_root: &ChunkOverflowRootV2,
        context: Schema7RootBindingContext,
    ) -> (result: Result<(Schema7SeriesPageFacts, Schema7OverflowBlobFacts), Error>)
        ensures
            result == bind_result(series_root@.header, *chunk_index_root, context),
    {
        validate_expected_segment_bounds(context)?;
        let series = series_root.header;
        if series.num_series != chunk_index_root.series_count {
            return Err(invalid_data("schema-7 series and chunk-index root counts are not bound"));
        }
        if series.chunk_index_file_len != chunk_index_root.file_len {
            return Err(invalid_data("schema-7 series and chunk-index root lengths are not bound"));
        }
        if series.chunk_index_root_crc32c != chunk_index_root.root_crc32c {
            return Err(invalid_data("schema-7 series and chunk-index root CRCs are not bound"));
        }
        if series.file_len != context.series_file_len {
            return Err(
                invalid_data("schema-7 series root file length does not match footer inventory"),
            );
        }
        if series.chunk_index_file_len != context.chunk_index_file_len {
            return Err(
                invalid_data(
                    "schema-7 series root chunk-index length does not match footer inventory",
                ),
            );
        }
        if series.segment_start_ms != context.segment_start_ms || series.segment_end_ms
            != context.segment_end_ms {
            return Err(
                invalid_data("schema-7 series root segment bounds do not match expected segment"),
            );
        }
        if series.num_series != context.series_count {
            return Err(invalid_data("schema-7 series root count does not match expected segment"));
        }
        if chunk_index_root.series_count != context.series_count {
            return Err(
                invalid_data("schema-7 chunk-index root count does not match expected segment"),
            );
        }
        let cold_pages_len: u64 = series.cold_bytes_len()?;
        let series_pages = Schema7SeriesPageFacts {
            root_len: series.hot_pages_offset,
            hot_page_count: series.page_count,
            hot_pages_offset: series.hot_pages_offset,
            hot_pages_len: series.hot_pages_len,
            cold_page_count: series.cold_page_count,
            cold_pages_offset: series.keysets_offset,
            cold_pages_len,
            file_len: series.file_len,
        };
        let overflow_blobs = Schema7OverflowBlobFacts {
            root_len: CHUNK_OVERFLOW_ROOT_V2_LEN as u64,
            blob_count: chunk_index_root.blob_count,
            blobs_offset: CHUNK_OVERFLOW_ROOT_V2_LEN as u64,
            blobs_len: chunk_index_root.blobs_len,
            file_len: chunk_index_root.file_len,
        };
        Ok((series_pages, overflow_blobs))
    }

    pub fn series_root(&self) -> (root: &SeriesRootV3)
        ensures
            root@ == self@.series_root,
    {
        &self.series_root
    }

    pub fn chunk_index_root(&self) -> (root: &ChunkOverflowRootV2)
        ensures
            *root == self@.chunk_index_root,
    {
        &self.chunk_index_root
    }

    pub fn series_pages(&self) -> (facts: Schema7SeriesPageFacts)
        ensures
            facts == self@.series_pages,
    {
        self.series_pages
    }

    pub fn overflow_blobs(&self) -> (facts: Schema7OverflowBlobFacts)
        ensures
            facts == self@.overflow_blobs,
    {
        self.overflow_blobs
    }

    /// Returns the logical bytes owned by this decoded cache value, at the
    /// capacities that the descriptor vectors have.
    ///
    /// The fixed charge covers the binding, both inline roots, the two vector
    /// headers, and the derived facts.
    pub fn charged_bytes(&self) -> (result: Result<u64, Error>)
        ensures
            exists|hot_capacity: usize, cold_capacity: usize|
                hot_capacity >= self@.series_root.hot.len() && cold_capacity
                    >= self@.series_root.cold.len() && result == #[trigger] root_charge_result(
                    vstd::layout::size_of::<Schema7RootBinding>(),
                    hot_capacity,
                    cold_capacity,
                    "schema-7 root binding charge exceeds the platform counter",
                ),
    {
        let hot_capacity: usize = vec_capacity(&self.series_root.hot_descriptors);
        let cold_capacity: usize = vec_capacity(&self.series_root.cold_descriptors);
        root_charge(
            size_of::<Schema7RootBinding>(),
            hot_capacity,
            cold_capacity,
            "schema-7 root binding charge exceeds the platform counter",
        )
    }
}

pub fn validate_expected_segment_bounds(context: Schema7RootBindingContext) -> (result: Result<
    (),
    Error,
>)
    ensures
        result == segment_bounds_result(context),
{
    if context.segment_start_ms >= context.segment_end_ms {
        return Err(invalid_data("schema-7 expected segment bounds are invalid"));
    }
    Ok(())
}

/// The ranges of bound roots tile their files: the hot pages follow the root,
/// the cold pages follow the hot pages and end the series file, and the blobs
/// follow their root and end the chunk index.
pub proof fn bound_ranges_law(
    series_root_bytes: Seq<u8>,
    chunk_index_root_bytes: Seq<u8>,
    context: Schema7RootBindingContext,
)
    requires
        decode_binding_result(series_root_bytes, chunk_index_root_bytes, context) is Ok,
    ensures
        ({
            let binding = decode_binding_result(
                series_root_bytes,
                chunk_index_root_bytes,
                context,
            )->Ok_0;
            let pages = binding.series_pages;
            let blobs = binding.overflow_blobs;
            &&& pages.root_len == series_root_bytes.len()
            &&& pages.hot_pages_offset == pages.root_len
            &&& pages.hot_pages_offset + pages.hot_pages_len == pages.cold_pages_offset
            &&& pages.cold_pages_offset + pages.cold_pages_len == pages.file_len
            &&& pages.file_len == context.series_file_len
            &&& blobs.blobs_offset == blobs.root_len
            &&& blobs.blobs_offset + blobs.blobs_len == blobs.file_len
            &&& blobs.file_len == context.chunk_index_file_len
        }),
{
    let root = decode_root_result(series_root_bytes)->Ok_0;
    section_layout_law(root.header);
}

} // verus!
