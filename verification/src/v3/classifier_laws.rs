//! What classification decides and keeps, said of the chunks that are handed in.

use vstd::prelude::*;

use super::classifier::{
    chunk_before, chunks_result, classify_result, locator_result, mask_of, FinalChunkIndexEntryV3,
    SeriesClassifierInputV3,
};
use super::hot::kind_bit_of;
use crate::bytes::{u16_at, u32_at, u64_at};
use crate::checksum::crc32c_of;
use crate::chunk::overflow::OverflowChunkEntryV1;
use crate::chunk::prefix::TYPED_SCALAR_LANE_MAGIC;
use crate::chunk::{kind_of, ChunkIndexEntry, ChunkKind};

verus! {

/// Whether chunks of a kind can have a scalar lane and a start time.
pub open spec fn typed(kind: ChunkKind) -> bool {
    kind is Histogram || kind is ExponentialHistogram || kind is Summary
}

/// The header that every chunk begins with says what its locator says.
pub open spec fn states_chunk(prefix: Seq<u8>, series_ref: u32, entry: ChunkIndexEntry) -> bool {
    &&& kind_of(prefix[0]) == Some(entry.kind)
    &&& prefix[1] == (if typed(entry.kind) {
        2
    } else if entry.kind is Int64 {
        1
    } else {
        0int
    })
    &&& u16_at(prefix, 2) == entry.flags
    &&& entry.flags == 0 || entry.flags == 1 && typed(entry.kind)
    &&& u32_at(prefix, 4) == series_ref
    &&& u64_at(prefix, 8) == entry.min_time_ms
    &&& u64_at(prefix, 16) == entry.max_time_ms
    &&& u32_at(prefix, 24) > 0
    &&& u32_at(prefix, 28) == 40 + entry.scalar_lane_len
    &&& u32_at(prefix, 28) + u32_at(prefix, 32) == entry.length
}

/// The header of a scalar lane says how long the lane is.
pub open spec fn states_lane(prefix: Seq<u8>, entry: ChunkIndexEntry) -> bool {
    &&& typed(entry.kind)
    &&& u32_at(prefix, 40) == TYPED_SCALAR_LANE_MAGIC
    &&& u16_at(prefix, 44) == 1
    &&& u16_at(prefix, 46) == 0
    &&& 16 + u32_at(prefix, 48) == entry.scalar_lane_len
}

/// A chunk lies in its segment and in its file, and its prefix states it.
pub open spec fn sound_chunk(
    input: SeriesClassifierInputV3,
    chunk: FinalChunkIndexEntryV3,
) -> bool {
    let entry = *chunk.entry;
    let prefix = chunk.indexed_prefix@;
    &&& entry.file_id < 2
    &&& input.segment_start_ms <= entry.min_time_ms <= entry.max_time_ms < input.segment_end_ms
    &&& entry.offset + entry.length <= input.chunk_file_lens@[entry.file_id as int]
    &&& states_chunk(prefix, input.series_ref, entry)
    &&& if entry.scalar_lane_len == 0 {
        prefix.len() == 40 && entry.scalar_lane_offset == 0
    } else {
        prefix.len() == 56 && entry.scalar_lane_offset == 40 && states_lane(prefix, entry)
    }
}

/// The codes of the kinds are the numbers from zero on, and the bit of a kind in
/// a mask is two to the power of its code.
pub proof fn kind_code_law(kind: ChunkKind, code: u8)
    ensures
        kind_of(code) is Some <==> code < 5,
        kind_of(code) == Some(kind) <==> kind.code_of() == code,
        kind_bit_of(0) == 1,
        code < 4 ==> kind_bit_of((code + 1) as u8) == 2 * kind_bit_of(code),
{
}

proof fn lemma_sound_chunk(input: SeriesClassifierInputV3, chunk: FinalChunkIndexEntryV3)
    ensures
        locator_result(input, chunk) is Ok <==> sound_chunk(input, chunk),
        locator_result(input, chunk) is Ok ==> locator_result(input, chunk)->Ok_0 == crc32c_of(
            chunk.indexed_prefix@,
        ),
{
    let entry = *chunk.entry;
    kind_code_law(entry.kind, chunk.indexed_prefix@[0]);
}

/// The chunks stand in strict order: by file, then by time range, then by offset.
pub open spec fn in_order(chunks: Seq<FinalChunkIndexEntryV3>, n: nat) -> bool {
    forall|i: int, j: int|
        0 <= i < j < n ==> {
            let a = *(#[trigger] chunks[i]).entry;
            let b = *(#[trigger] chunks[j]).entry;
            ||| a.file_id < b.file_id
            ||| a.file_id == b.file_id && a.min_time_ms < b.min_time_ms
            ||| a.file_id == b.file_id && a.min_time_ms == b.min_time_ms && a.max_time_ms
                < b.max_time_ms
            ||| a.file_id == b.file_id && a.min_time_ms == b.min_time_ms && a.max_time_ms
                == b.max_time_ms && a.offset < b.offset
        }
}

proof fn lemma_sound_chunks(input: SeriesClassifierInputV3, n: nat)
    requires
        n <= input.chunks@.len(),
    ensures
        chunks_result(input, n) is Ok <==> in_order(input.chunks@, n) && forall|i: int|
            0 <= i < n ==> sound_chunk(input, #[trigger] input.chunks@[i]),
    decreases n,
{
    if n > 0 {
        let chunks = input.chunks@;
        lemma_sound_chunks(input, (n - 1) as nat);
        lemma_sound_chunk(input, chunks[n - 1]);
        if chunks_result(input, n) is Ok && n > 1 {
            assert(chunk_before(*chunks[n - 2].entry, *chunks[n - 1].entry));
            assert forall|i: int, j: int| 0 <= i < j < n implies chunk_before(
                *(#[trigger] chunks[i]).entry,
                *(#[trigger] chunks[j]).entry,
            ) by {
                if j == n - 1 && i < n - 2 {
                    assert(chunk_before(*chunks[i].entry, *chunks[n - 2].entry));
                }
            }
        }
        if in_order(chunks, n) && n > 1 {
            assert(chunk_before(*chunks[n - 2].entry, *chunks[n - 1].entry));
            assert(in_order(chunks, (n - 1) as nat));
        }
    }
}

/// Some chunk is of this kind.
pub open spec fn has_kind(chunks: Seq<FinalChunkIndexEntryV3>, n: nat, kind: ChunkKind) -> bool {
    exists|i: int| 0 <= i < n && (#[trigger] chunks[i]).entry.kind == kind
}

/// The mask of chunks has the bit of a kind exactly where a chunk is of it, and no
/// other bits.
pub proof fn chunk_mask_law(chunks: Seq<FinalChunkIndexEntryV3>, n: nat, kind: ChunkKind)
    requires
        n <= chunks.len(),
    ensures
        mask_of(chunks, n) < 32,
        mask_of(chunks, n) & kind_bit_of(kind.code_of()) != 0 <==> has_kind(chunks, n, kind),
    decreases n,
{
    let bit = kind_bit_of(kind.code_of());
    if n == 0 {
        assert(0u8 & bit == 0) by (bit_vector);
    } else {
        chunk_mask_law(chunks, (n - 1) as nat, kind);
        let before = mask_of(chunks, (n - 1) as nat);
        let last = kind_bit_of(chunks[n - 1].entry.kind.code_of());
        assert((before | last) & bit != 0 <==> before & bit != 0 || last & bit != 0)
            by (bit_vector);
        assert(before < 32 && last <= 16 ==> before | last < 32) by (bit_vector);
        lemma_bits_differ(chunks[n - 1].entry.kind, kind);
        if has_kind(chunks, n, kind) {
            let i = choose|i: int| 0 <= i < n && (#[trigger] chunks[i]).entry.kind == kind;
            if i < n - 1 {
                assert(has_kind(chunks, (n - 1) as nat, kind));
            }
        }
        if has_kind(chunks, (n - 1) as nat, kind) {
            let i = choose|i: int| 0 <= i < n - 1 && (#[trigger] chunks[i]).entry.kind == kind;
            assert(chunks[i].entry.kind == kind && i < n);
        }
        if chunks[n - 1].entry.kind == kind {
            assert(has_kind(chunks, n, kind));
        }
    }
}

pub(super) proof fn lemma_bits_differ(a: ChunkKind, b: ChunkKind)
    ensures
        kind_bit_of(a.code_of()) & kind_bit_of(b.code_of()) != 0 <==> a == b,
{
    assert(1u8 & 1u8 == 1 && 2u8 & 2u8 == 2 && 4u8 & 4u8 == 4 && 8u8 & 8u8 == 8 && 16u8 & 16u8 == 16
        && 1u8 & 2u8 == 0 && 1u8 & 4u8 == 0 && 1u8 & 8u8 == 0 && 1u8 & 16u8 == 0 && 2u8 & 1u8 == 0
        && 2u8 & 4u8 == 0 && 2u8 & 8u8 == 0 && 2u8 & 16u8 == 0 && 4u8 & 1u8 == 0 && 4u8 & 2u8 == 0
        && 4u8 & 8u8 == 0 && 4u8 & 16u8 == 0 && 8u8 & 1u8 == 0 && 8u8 & 2u8 == 0 && 8u8 & 4u8 == 0
        && 8u8 & 16u8 == 0 && 16u8 & 1u8 == 0 && 16u8 & 2u8 == 0 && 16u8 & 4u8 == 0 && 16u8 & 8u8
        == 0) by (bit_vector);
}

/// Two masks with the bits of the same kinds are the same mask.
pub(super) proof fn lemma_same_bits(a: u8, b: u8)
    requires
        a < 32,
        b < 32,
        forall|kind: ChunkKind|
            a & #[trigger] kind_bit_of(kind.code_of()) != 0 <==> b & kind_bit_of(kind.code_of())
                != 0,
    ensures
        a == b,
{
    assert(a & kind_bit_of(ChunkKind::Float.code_of()) != 0 <==> b & kind_bit_of(
        ChunkKind::Float.code_of(),
    ) != 0);
    assert(a & kind_bit_of(ChunkKind::Int64.code_of()) != 0 <==> b & kind_bit_of(
        ChunkKind::Int64.code_of(),
    ) != 0);
    assert(a & kind_bit_of(ChunkKind::Histogram.code_of()) != 0 <==> b & kind_bit_of(
        ChunkKind::Histogram.code_of(),
    ) != 0);
    assert(a & kind_bit_of(ChunkKind::ExponentialHistogram.code_of()) != 0 <==> b & kind_bit_of(
        ChunkKind::ExponentialHistogram.code_of(),
    ) != 0);
    assert(a & kind_bit_of(ChunkKind::Summary.code_of()) != 0 <==> b & kind_bit_of(
        ChunkKind::Summary.code_of(),
    ) != 0);
    assert(a < 32 && b < 32 && (a & 1 != 0 <==> b & 1 != 0) && (a & 2 != 0 <==> b & 2 != 0) && (
    a & 4 != 0 <==> b & 4 != 0) && (a & 8 != 0 <==> b & 8 != 0) && (a & 16 != 0 <==> b & 16
        != 0) ==> a == b) by (bit_vector);
}

/// A mask names exactly the kinds of the chunks.
pub open spec fn names_kinds(kind_mask: u8, chunks: Seq<FinalChunkIndexEntryV3>) -> bool {
    kind_mask < 32 && forall|kind: ChunkKind|
        kind_mask & #[trigger] kind_bit_of(kind.code_of()) != 0 <==> has_kind(
            chunks,
            chunks.len(),
            kind,
        )
}

proof fn lemma_mask_named(a: u8, chunks: Seq<FinalChunkIndexEntryV3>)
    requires
        chunks.len() > 0,
    ensures
        a == mask_of(chunks, chunks.len()) <==> names_kinds(a, chunks),
        names_kinds(a, chunks) ==> a > 0,
{
    let b = mask_of(chunks, chunks.len());
    assert forall|kind: ChunkKind|
        b & #[trigger] kind_bit_of(kind.code_of()) != 0 <==> has_kind(
            chunks,
            chunks.len(),
            kind,
        ) by {
        chunk_mask_law(chunks, chunks.len(), kind);
    }
    chunk_mask_law(chunks, chunks.len(), chunks[0].entry.kind);
    let first = kind_bit_of(chunks[0].entry.kind.code_of());
    assert(has_kind(chunks, chunks.len(), chunks[0].entry.kind));
    assert(a == 0 ==> a & first == 0) by (bit_vector);
    if names_kinds(a, chunks) {
        lemma_same_bits(a, b);
    }
}

/// The fields of a hot record have room for the one chunk of a series.
pub open spec fn has_room(segment_start_ms: u64, entry: ChunkIndexEntry) -> bool {
    &&& entry.max_time_ms - segment_start_ms < 0x1_0000_0000
    &&& entry.offset < 0x1_0000_0000
    &&& entry.scalar_lane_len < 0x20_0000
}

/// A series is classified exactly where it has chunks, all sound and in order,
/// and its mask names their kinds.
pub proof fn classified_series_law(input: SeriesClassifierInputV3)
    ensures
        classify_result(input) is Ok <==> {
            &&& input.segment_start_ms < input.segment_end_ms
            &&& 0 < input.chunks@.len()
            &&& 32 + 44 * input.chunks@.len() <= u32::MAX
            &&& in_order(input.chunks@, input.chunks@.len())
            &&& forall|i: int|
                0 <= i < input.chunks@.len() ==> sound_chunk(input, #[trigger] input.chunks@[i])
            &&& names_kinds(input.kind_mask, input.chunks@)
        },
        classify_result(input) is Ok ==> (classify_result(input)->Ok_0 is Inline <==>
            input.chunks@.len() == 1 && has_room(input.segment_start_ms, *input.chunks@[0].entry)),
{
    let chunks = input.chunks@;
    if chunks.len() > 0 {
        lemma_sound_chunks(input, chunks.len());
        lemma_mask_named(input.kind_mask, chunks);
        if classify_result(input) is Ok && chunks.len() == 1 {
            assert(sound_chunk(input, chunks[0]));
        }
    }
}

/// An overflow entry locates the same chunk as the entry that was handed in.
pub open spec fn same_chunk(kept: OverflowChunkEntryV1, chunk: FinalChunkIndexEntryV3) -> bool {
    let prefix = chunk.indexed_prefix@;
    &&& kept.file_id == chunk.entry.file_id
    &&& kept.offset == chunk.entry.offset
    &&& kept.length == chunk.entry.length
    &&& kept.scalar_lane_offset == chunk.entry.scalar_lane_offset
    &&& kept.scalar_lane_len == chunk.entry.scalar_lane_len
    &&& kept.kind == chunk.entry.kind
    &&& kept.min_time_ms == chunk.entry.min_time_ms
    &&& kept.max_time_ms == chunk.entry.max_time_ms
    &&& kept.indexed_prefix_crc32c == crc32c_of(prefix)
    &&& kind_of(prefix[0]) == Some(kept.kind)
    &&& u64_at(prefix, 8) == kept.min_time_ms
    &&& u64_at(prefix, 16) == kept.max_time_ms
    &&& u32_at(prefix, 28) + u32_at(prefix, 32) == kept.length
}

/// Where classification gives an overflow, it keeps one entry for every chunk, in
/// order, with the place of that chunk and with the kind and time range that the
/// prefix of that chunk states; identity, row and kinds are those of the series.
pub proof fn overflow_entries_law(input: SeriesClassifierInputV3)
    requires
        classify_result(input) is Ok,
        classify_result(input)->Ok_0 is Overflow,
    ensures
        ({
            let pending = classify_result(input)->Ok_0->Overflow_0;
            &&& pending.series_ref == input.series_ref
            &&& pending.series_id == input.series_id
            &&& pending.keyset_id == input.keyset_id
            &&& pending.row == input.row
            &&& pending.kind_mask == input.kind_mask
            &&& pending.entries.len() == input.chunks@.len()
            &&& forall|i: int|
                0 <= i < pending.entries.len() ==> same_chunk(
                    #[trigger] pending.entries[i],
                    input.chunks@[i],
                )
        }),
{
    let pending = classify_result(input)->Ok_0->Overflow_0;
    classified_series_law(input);
    assert forall|i: int| 0 <= i < pending.entries.len() implies same_chunk(
        #[trigger] pending.entries[i],
        input.chunks@[i],
    ) by {
        assert(sound_chunk(input, input.chunks@[i]));
    }
}

/// Where classification gives a hot record, the record holds the one chunk: its
/// times count from the start of the segment, and its kind and time range are
/// those that the prefix of the chunk states.
pub proof fn inline_chunk_law(input: SeriesClassifierInputV3)
    requires
        classify_result(input) is Ok,
        classify_result(input)->Ok_0 is Inline,
    ensures
        ({
            let record = classify_result(input)->Ok_0->Inline_0;
            let inline = record.location->Inline_0;
            let chunk = input.chunks@[0];
            let prefix = chunk.indexed_prefix@;
            &&& input.chunks@.len() == 1
            &&& record.series_id == input.series_id
            &&& record.keyset_id == input.keyset_id
            &&& record.row == input.row
            &&& record.kind_mask == input.kind_mask
            &&& record.location is Inline
            &&& inline.chunk_kind == prefix[0]
            &&& inline.file_id == chunk.entry.file_id
            &&& inline.file_offset == chunk.entry.offset
            &&& inline.chunk_length == chunk.entry.length
            &&& inline.scalar_lane_len == chunk.entry.scalar_lane_len
            &&& input.segment_start_ms + inline.min_time_delta_ms == u64_at(prefix, 8)
            &&& input.segment_start_ms + inline.max_time_delta_ms == u64_at(prefix, 16)
            &&& inline.indexed_prefix_crc32c == crc32c_of(prefix)
            &&& inline.chunk_length == u32_at(prefix, 28) + u32_at(prefix, 32)
        }),
{
    classified_series_law(input);
    let chunk = input.chunks@[0];
    assert(sound_chunk(input, chunk));
    kind_code_law(chunk.entry.kind, chunk.indexed_prefix@[0]);
}

} // verus!
