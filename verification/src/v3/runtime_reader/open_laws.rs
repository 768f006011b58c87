//! Which segments open and which of their pages and blobs load, said of the bytes of the
//! artifacts.

use vstd::prelude::*;

use super::overflow::{load_blob_result, plan_overflow_result};
use super::roots::{bound_result, hot_page_result, load_cold_page_result};
use super::{
    batch_bytes_result, open_result, session_of, BoundRoots, MetadataSession, SegmentArtifacts,
};
use crate::bytes::{u32_at, u64_at};
use crate::checksum::crc32c_of;
use crate::chunk::overflow::ChunkOverflowRootV2;
use crate::v3::blob_laws::{blob_of_series, facts_of_index, series_blob_law};
use crate::v3::header::{section_layout_law, SeriesHeaderV3};
use crate::v3::header_laws::{header_at, header_bytes_law, sound_header, sound_header_law};
use crate::v3::hot::SeriesHotV3;
use crate::v3::plan_laws::{admissible, admitted_page_law, facts_of_header, page_holds, segment_of};
use crate::v3::reader::{
    admit_hot_page_result, cached_record_result, CachedHotPage, ChunkLocatorSource, PlannedSeries,
};
use crate::v3::reader_laws::admitted_record_law;
use crate::v3::record_laws::{authentic_bytes_law, describes_page, page_header_at, record_bytes_law};
use crate::v3::root::{SeriesHotPageDescriptorV1, SeriesRoot};
use crate::v3::root_binding::{bind_result, Schema7RootBindingContext};
use crate::v3::root_laws::{
    authentic_cold_law, bound_roots_law, cold_share, index_root_at, index_root_law, root_at,
    root_bytes_law, same_roots,
};

verus! {

/// The artifacts begin with these two roots, which fit each other and what the segment was
/// registered with.
pub open spec fn begins_with(
    series: Seq<u8>,
    chunk_index: Seq<u8>,
    context: Schema7RootBindingContext,
    root: SeriesRoot,
    index: ChunkOverflowRootV2,
) -> bool {
    &&& series.len() == context.series_file_len
    &&& chunk_index.len() == context.chunk_index_file_len
    &&& root.header.hot_pages_offset <= series.len()
    &&& 64 <= chunk_index.len()
    &&& root_at(series.subrange(0, root.header.hot_pages_offset as int), root)
    &&& index_root_at(chunk_index.subrange(0, 64), index)
    &&& 64 + index.blobs_len == index.file_len
    &&& index.blob_count <= index.series_count
    &&& index.blob_count == 0 <==> index.blobs_len == 0
    &&& same_roots(root.header, index, context)
}

proof fn lemma_fixed_part(bytes: Seq<u8>, header: SeriesHeaderV3)
    requires
        bytes.len() >= 176,
        header_at(bytes, header),
    ensures
        header_at(bytes.subrange(0, 176), header),
{
    let fixed = bytes.subrange(0, 176);
    assert forall|at: int| 0 <= at <= 172 implies #[trigger] u32_at(fixed, at) == u32_at(
        bytes,
        at,
    ) by {}
    assert forall|at: int| 0 <= at <= 168 implies #[trigger] u64_at(fixed, at) == u64_at(
        bytes,
        at,
    ) by {
        assert(u32_at(fixed, at) == u32_at(bytes, at));
        assert(u32_at(fixed, at + 4) == u32_at(bytes, at + 4));
    }
}

proof fn lemma_opens(
    artifacts: SegmentArtifacts,
    context: Schema7RootBindingContext,
    root: SeriesRoot,
    index: ChunkOverflowRootV2,
)
    requires
        begins_with(artifacts.series@, artifacts.chunk_index@, context, root, index),
    ensures
        ({
            let root_len = root.header.hot_pages_offset;
            let bound = bound_result(session_of(artifacts, root_len, context));
            &&& open_result(artifacts, context) is Ok
            &&& open_result(artifacts, context)->Ok_0 == root_len
            &&& bound is Ok
            &&& bound->Ok_0.generation == artifacts.generation
            &&& bound->Ok_0.series == root
            &&& bound->Ok_0.overflow == index
            &&& facts_of_header(root.header, bound->Ok_0.series_pages)
            &&& facts_of_index(root.header, index, bound->Ok_0.overflow_blobs)
        }),
{
    let series = artifacts.series@;
    let root_len = root.header.hot_pages_offset as int;
    let root_bytes = series.subrange(0, root_len);
    let index_bytes = artifacts.chunk_index@.subrange(0, 64);
    root_bytes_law(root_bytes, root);
    index_root_law(index_bytes, context.chunk_index_file_len, index);
    assert(root_bytes.subrange(0, 176) =~= series.subrange(0, 176));
    let fixed = series.subrange(0, 176);
    lemma_fixed_part(root_bytes, root.header);
    header_bytes_law(fixed, root.header);
    let session = session_of(artifacts, root.header.hot_pages_offset, context);
    let bound = bound_result(session);
    let facts = bind_result(root.header, index, context);
    bound_roots_law(root.header, index, context, facts->Ok_0.0, facts->Ok_0.1);
}

/// A segment opens exactly when its artifacts begin with two roots that fit each other and what
/// the segment was registered with; the roots that a session of it binds are those.
pub proof fn opened_segment_law(
    artifacts: SegmentArtifacts,
    context: Schema7RootBindingContext,
    root: SeriesRoot,
    index: ChunkOverflowRootV2,
)
    ensures
        begins_with(artifacts.series@, artifacts.chunk_index@, context, root, index) ==> {
            let root_len = root.header.hot_pages_offset;
            let bound = bound_result(session_of(artifacts, root_len, context));
            &&& open_result(artifacts, context) is Ok
            &&& open_result(artifacts, context)->Ok_0 == root_len
            &&& bound is Ok
            &&& bound->Ok_0.generation == artifacts.generation
            &&& bound->Ok_0.series == root
            &&& bound->Ok_0.overflow == index
            &&& facts_of_header(root.header, bound->Ok_0.series_pages)
            &&& facts_of_index(root.header, index, bound->Ok_0.overflow_blobs)
        },
        open_result(artifacts, context) matches Ok(root_len) ==> {
            let bound = bound_result(session_of(artifacts, root_len, context));
            &&& bound is Ok
            &&& begins_with(
                artifacts.series@,
                artifacts.chunk_index@,
                context,
                bound->Ok_0.series,
                bound->Ok_0.overflow,
            )
        },
{
    if begins_with(artifacts.series@, artifacts.chunk_index@, context, root, index) {
        lemma_opens(artifacts, context, root, index);
    }
    if open_result(artifacts, context) is Ok {
        let series = artifacts.series@;
        let root_len = open_result(artifacts, context)->Ok_0;
        let bound = bound_result(session_of(artifacts, root_len, context))->Ok_0;
        let root_bytes = series.subrange(0, root_len as int);
        root_bytes_law(root_bytes, bound.series);
        index_root_law(
            artifacts.chunk_index@.subrange(0, 64),
            context.chunk_index_file_len,
            bound.overflow,
        );
        bound_roots_law(
            bound.series.header,
            bound.overflow,
            context,
            bound.series_pages,
            bound.overflow_blobs,
        );
    }
}

/// The bytes are the hot page with this descriptor, and hold these records, all sound in the
/// segment and with a keyset that the segment has.
pub open spec fn hot_page_at(
    header: SeriesHeaderV3,
    page_index: u32,
    descriptor: SeriesHotPageDescriptorV1,
    bytes: Seq<u8>,
    chunk_file_lens: [u64; 2],
    records: Seq<SeriesHotV3>,
) -> bool {
    &&& bytes.len() == 16_384
    &&& describes_page(header, page_index, descriptor.first_series_ref, descriptor.record_count)
    &&& crc32c_of(bytes) == descriptor.page_crc32c
    &&& page_header_at(bytes, page_index, descriptor.first_series_ref, descriptor.record_count)
    &&& forall|i: int|
        24 + 40 * descriptor.record_count <= i < 16_384 ==> #[trigger] bytes[i] == 0
    &&& records.len() == descriptor.record_count
    &&& forall|i: int|
        0 <= i < records.len() ==> page_holds(bytes, 0, i as u32, #[trigger] records[i])
            && admissible(header, chunk_file_lens, records[i])
}

/// The bytes are the hot page with this descriptor, whatever sound records they hold.
pub open spec fn is_hot_page(
    header: SeriesHeaderV3,
    page_index: u32,
    descriptor: SeriesHotPageDescriptorV1,
    bytes: Seq<u8>,
    chunk_file_lens: [u64; 2],
) -> bool {
    exists|records: Seq<SeriesHotV3>|
        hot_page_at(header, page_index, descriptor, bytes, chunk_file_lens, records)
}

/// A hot page is admitted exactly when it is the page of its descriptor and every record in it
/// is sound.
pub proof fn hot_page_law(
    header: SeriesHeaderV3,
    page_index: u32,
    descriptor: SeriesHotPageDescriptorV1,
    bytes: Seq<u8>,
    chunk_file_lens: [u64; 2],
)
    requires
        sound_header(header),
    ensures
        admit_hot_page_result(header, page_index, descriptor, bytes, chunk_file_lens) is Ok
            <==> is_hot_page(header, page_index, descriptor, bytes, chunk_file_lens),
{
    if admit_hot_page_result(header, page_index, descriptor, bytes, chunk_file_lens) is Ok {
        let page = CachedHotPage { header, page_index, descriptor, chunk_file_lens, bytes };
        let first = descriptor.first_series_ref;
        let records = Seq::new(
            descriptor.record_count as nat,
            |i: int| cached_record_result(page, (first + i) as u32)->Ok_0,
        );
        authentic_bytes_law(header, page_index, descriptor, bytes);
        assert(409 * page_index <= 409 * (header.page_count - 1));
        assert forall|i: int| 0 <= i < records.len() implies page_holds(
            bytes,
            0,
            i as u32,
            #[trigger] records[i],
        ) && admissible(header, chunk_file_lens, records[i]) by {
            let series_ref = (first + i) as u32;
            admitted_record_law(
                header,
                page_index,
                descriptor,
                bytes,
                chunk_file_lens,
                series_ref,
            );
            let at = 24 + 40 * i;
            record_bytes_law(
                bytes.subrange(at, at + 40),
                records[i],
                segment_of(header, chunk_file_lens),
            );
        }
        assert(hot_page_at(header, page_index, descriptor, bytes, chunk_file_lens, records));
    }
    if is_hot_page(header, page_index, descriptor, bytes, chunk_file_lens) {
        let records = choose|records: Seq<SeriesHotV3>|
            hot_page_at(header, page_index, descriptor, bytes, chunk_file_lens, records);
        admitted_page_law(header, page_index, descriptor, bytes, chunk_file_lens, records);
    }
}

/// A session loads a hot page of its own roots exactly when the directory lists the page and the
/// series file holds, where the hot pages begin and that many pages on, the page listed.
pub proof fn loaded_hot_page_law(session: MetadataSession, roots: BoundRoots, page_index: u32)
    requires
        roots.wf(),
        session.series.len() <= u64::MAX,
    ensures
        ({
            let header = roots.series.header;
            let start = header.hot_pages_offset + 16_384 * page_index;
            let page = hot_page_result(session, roots, page_index);
            &&& page is Ok <==> {
                &&& session.generation == roots.generation
                &&& page_index < roots.series.hot.len()
                &&& start + 16_384 <= session.series.len()
                &&& is_hot_page(
                    header,
                    page_index,
                    roots.series.hot[page_index as int],
                    session.series.subrange(start, start + 16_384),
                    session.chunk_file_lens,
                )
            }
            &&& page matches Ok(page) ==> page.bytes == session.series.subrange(
                start,
                start + 16_384,
            )
        }),
{
    let header = roots.series.header;
    let start = header.hot_pages_offset + 16_384 * page_index;
    sound_header_law(header);
    section_layout_law(header);
    if page_index < roots.series.hot.len() && start + 16_384 <= session.series.len() {
        hot_page_law(
            header,
            page_index,
            roots.series.hot[page_index as int],
            session.series.subrange(start, start + 16_384),
            session.chunk_file_lens,
        );
    }
}

/// A session loads a cold page of its own roots exactly when the directory lists the page and
/// the cold stream has, that many pages on, bytes with the checksum listed; the last page ends
/// with the file.
pub proof fn loaded_cold_page_law(session: MetadataSession, roots: BoundRoots, page_index: u32)
    requires
        roots.wf(),
        session.series.len() <= u64::MAX,
    ensures
        ({
            let header = roots.series.header;
            let start = header.keysets_offset + 16_384 * page_index;
            let end = start + cold_share(header, page_index);
            let page = load_cold_page_result(session, roots, page_index);
            &&& page is Ok <==> {
                &&& session.generation == roots.generation
                &&& page_index < roots.series.cold.len()
                &&& end <= session.series.len()
                &&& crc32c_of(session.series.subrange(start, end))
                    == roots.series.cold[page_index as int].page_crc32c
            }
            &&& page matches Ok(page) ==> page.bytes == session.series.subrange(start, end)
        }),
{
    let header = roots.series.header;
    let start = header.keysets_offset + 16_384 * page_index;
    let end = start + cold_share(header, page_index);
    sound_header_law(header);
    section_layout_law(header);
    if page_index < roots.series.cold.len() {
        let descriptor = roots.series.cold[page_index as int];
        authentic_cold_law(header, page_index, descriptor, session.series.subrange(start, end));
        assert(descriptor.page_index == page_index);
        assert(descriptor.page_len == cold_share(header, page_index));
    }
}

/// A session loads the blob of a series planned from its own roots exactly when the chunk index
/// holds, at the place planned, the blob that the series names.
pub proof fn loaded_blob_law(
    session: MetadataSession,
    roots: BoundRoots,
    generation: u64,
    planned: PlannedSeries,
)
    requires
        session.chunk_index.len() <= u64::MAX,
    ensures
        ({
            let blob = load_blob_result(session, roots, generation, planned);
            &&& blob is Ok <==> {
                &&& session.generation == roots.generation
                &&& session.generation == generation
                &&& facts_of_index(roots.series.header, roots.overflow, roots.overflow_blobs)
                &&& planned.chunks matches ChunkLocatorSource::Overflow { locator, .. }
                &&& locator.blob_offset + locator.blob_len <= session.chunk_index.len()
                &&& blob_of_series(
                    roots.series.header,
                    roots.overflow,
                    planned,
                    session.chunk_index.subrange(
                        locator.blob_offset as int,
                        locator.blob_offset + locator.blob_len,
                    ),
                    session.chunk_file_lens,
                )
            }
            &&& blob is Ok ==> {
                let plan = plan_overflow_result(session, roots, generation, planned);
                let count = planned.chunks->locator.chunk_count;
                plan is Ok <==> batch_bytes_result(count as nat, 1) is Ok
            }
        }),
{
    if let ChunkLocatorSource::Overflow { locator, .. } = planned.chunks {
        let bytes = session.chunk_index.subrange(
            locator.blob_offset as int,
            locator.blob_offset + locator.blob_len,
        );
        series_blob_law(
            bytes,
            roots.series.header,
            roots.overflow,
            roots.overflow_blobs,
            planned,
            session.chunk_file_lens,
        );
    }
}

} // verus!
