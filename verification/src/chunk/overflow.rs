//! The chunk-index artifact: a fixed root, then one overflow blob for every
//! series whose chunks do not fit its hot record.

use vstd::prelude::*;

use super::{kind_from_code, kind_of, ChunkKind};
use crate::bytes::{read_u16, read_u32, read_u64, u16_at, u32_at, u64_at};
use crate::checksum::{crc32c, crc32c_append, crc32c_of};
use crate::error::{data_error, invalid_data, Error};

verus! {

pub const CHUNK_OVERFLOW_ROOT_V2_LEN: usize = 64;

pub const CHUNK_OVERFLOW_BLOB_V1_HEADER_LEN: usize = 32;

pub const CHUNK_OVERFLOW_BLOB_V1_ENTRY_LEN: usize = 44;

/// `CIX2` as a little-endian integer.
pub const CHUNK_OVERFLOW_ROOT_V2_MAGIC: u32 = 0x3258_4943;

/// `COB1` as a little-endian integer.
pub const CHUNK_OVERFLOW_BLOB_V1_MAGIC: u32 = 0x3142_4f43;

/// One chunk of an overflow blob.
#[derive(Debug, Clone, Copy, PartialEq, Eq, Structural)]
pub struct OverflowChunkEntryV1 {
    pub file_id: u8,
    pub kind: ChunkKind,
    pub min_time_ms: u64,
    pub max_time_ms: u64,
    pub offset: u64,
    pub length: u32,
    pub scalar_lane_offset: u32,
    pub scalar_lane_len: u32,
    pub indexed_prefix_crc32c: u32,
}

/// The chunks of one series, in order.
#[derive(Debug, Clone, PartialEq, Eq)]
pub struct ChunkOverflowBlobV1 {
    pub series_ref: u32,
    pub entries: Vec<OverflowChunkEntryV1>,
}

/// Where an overflow blob stands.
#[derive(Debug, Clone, Copy, PartialEq, Eq, Structural)]
pub struct ChunkOverflowBlobLocatorV1 {
    pub series_ref: u32,
    pub blob_offset: u64,
    pub blob_len: u32,
    pub chunk_count: u32,
}

/// The authenticated root of a chunk index.
#[derive(Debug, Clone, Copy, PartialEq, Eq, Structural)]
pub struct ChunkOverflowRootV2 {
    pub series_count: u32,
    pub blob_count: u32,
    pub blobs_len: u64,
    pub file_len: u64,
    pub root_crc32c: u32,
}

/// Whose chunks a physical blob holds, and how many.
#[derive(Debug, Clone, Copy, PartialEq, Eq, Structural)]
pub struct PhysicalBlobFacts {
    pub series_ref: u32,
    pub chunk_count: u32,
}

/// The exact length of a blob with this many chunks.
pub open spec fn blob_len_of(chunk_count: u32) -> Option<u32> {
    if 32 + 44 * chunk_count > u32::MAX {
        None
    } else {
        Some((32 + 44 * chunk_count) as u32)
    }
}

pub fn checked_chunk_overflow_blob_len(chunk_count: u32) -> (len: Option<u32>)
    ensures
        len == blob_len_of(chunk_count),
{
    let len: u64 = 32 + 44 * chunk_count as u64;
    if len > u32::MAX as u64 {
        None
    } else {
        Some(len as u32)
    }
}

/// The checksum of bytes in which four bytes count as zero.
pub open spec fn crc_without(bytes: Seq<u8>, at: int) -> u32 {
    crc32c_of(
        bytes.subrange(0, at) + seq![0u8, 0u8, 0u8, 0u8] + bytes.subrange(
            at + 4,
            bytes.len() as int,
        ),
    )
}

fn crc32c_without(bytes: &[u8], at: usize) -> (crc: u32)
    requires
        at + 4 <= bytes@.len(),
    ensures
        crc == crc_without(bytes@, at as int),
{
    assert(bytes@.len() == bytes.len());
    let zeros = [0u8; 4];
    let head: u32 = crc32c(&bytes[0..at]);
    let middle: u32 = crc32c_append(head, &zeros);
    proof {
        assert(zeros@ =~= seq![0u8, 0u8, 0u8, 0u8]);
    }
    crc32c_append(middle, &bytes[at + 4..bytes.len()])
}

pub open spec fn overflow_root_fields(bytes: Seq<u8>) -> ChunkOverflowRootV2 {
    ChunkOverflowRootV2 {
        series_count: u32_at(bytes, 8),
        blob_count: u32_at(bytes, 12),
        blobs_len: u64_at(bytes, 24),
        file_len: u64_at(bytes, 32),
        root_crc32c: u32_at(bytes, 56),
    }
}

pub open spec fn overflow_root_result(bytes: Seq<u8>, file_len: u64) -> Result<
    ChunkOverflowRootV2,
    Error,
> {
    let root = overflow_root_fields(bytes);
    if bytes.len() != 64 {
        Err(data_error("chunk index root length is not exact"))
    } else if crc_without(bytes, 56) != root.root_crc32c {
        Err(data_error("chunk index root crc mismatch"))
    } else if u32_at(bytes, 0) != CHUNK_OVERFLOW_ROOT_V2_MAGIC || u16_at(bytes, 4) != 2 {
        Err(data_error("chunk index root magic or version is invalid"))
    } else if u16_at(bytes, 6) != 0 || u64_at(bytes, 40) != 0 || u64_at(bytes, 48) != 0 || u32_at(
        bytes,
        60,
    ) != 0 {
        Err(data_error("chunk index root reserved fields are nonzero"))
    } else if u64_at(bytes, 16) != 64 || 64 + root.blobs_len != root.file_len {
        Err(data_error("chunk index root layout is noncanonical"))
    } else if root.blob_count > root.series_count || (root.blob_count == 0) != (root.blobs_len
        == 0) {
        Err(data_error("chunk index root blob count is invalid"))
    } else if root.file_len != file_len {
        Err(data_error("chunk index file length does not match root"))
    } else {
        Ok(root)
    }
}

/// Decodes and authenticates the root of a chunk index of this length.
pub fn decode_chunk_overflow_root_v2(bytes: &[u8], file_len: u64) -> (result: Result<
    ChunkOverflowRootV2,
    Error,
>)
    ensures
        result == overflow_root_result(bytes@, file_len),
{
    assert(bytes@.len() == bytes.len());
    if bytes.len() != CHUNK_OVERFLOW_ROOT_V2_LEN {
        return Err(invalid_data("chunk index root length is not exact"));
    }
    let root = ChunkOverflowRootV2 {
        series_count: read_u32(bytes, 8),
        blob_count: read_u32(bytes, 12),
        blobs_len: read_u64(bytes, 24),
        file_len: read_u64(bytes, 32),
        root_crc32c: read_u32(bytes, 56),
    };
    if crc32c_without(bytes, 56) != root.root_crc32c {
        return Err(invalid_data("chunk index root crc mismatch"));
    }
    if read_u32(bytes, 0) != CHUNK_OVERFLOW_ROOT_V2_MAGIC || read_u16(bytes, 4) != 2 {
        return Err(invalid_data("chunk index root magic or version is invalid"));
    }
    if read_u16(bytes, 6) != 0 || read_u64(bytes, 40) != 0 || read_u64(bytes, 48) != 0 || read_u32(
        bytes,
        60,
    ) != 0 {
        return Err(invalid_data("chunk index root reserved fields are nonzero"));
    }
    let canonical: bool = match root.blobs_len.checked_add(64) {
        Some(end) => end == root.file_len,
        None => false,
    };
    if read_u64(bytes, 16) != 64 || !canonical {
        return Err(invalid_data("chunk index root layout is noncanonical"));
    }
    if root.blob_count > root.series_count || (root.blob_count == 0) != (root.blobs_len == 0) {
        return Err(invalid_data("chunk index root blob count is invalid"));
    }
    if root.file_len != file_len {
        return Err(invalid_data("chunk index file length does not match root"));
    }
    Ok(root)
}

pub open spec fn blob_facts_result(
    bytes: Seq<u8>,
    root: ChunkOverflowRootV2,
    blob_offset: u64,
) -> Result<PhysicalBlobFacts, Error> {
    let series_ref = u32_at(bytes, 8);
    let chunk_count = u32_at(bytes, 12);
    if bytes.len() < 32 {
        Err(data_error("chunk overflow blob is shorter than its header"))
    } else if crc_without(bytes, 28) != u32_at(bytes, 28) {
        Err(data_error("chunk overflow blob crc mismatch"))
    } else if u32_at(bytes, 0) != CHUNK_OVERFLOW_BLOB_V1_MAGIC || u16_at(bytes, 4) != 1 {
        Err(data_error("chunk overflow blob magic or version is invalid"))
    } else if u16_at(bytes, 6) != 0 || u64_at(bytes, 20) != 0 {
        Err(data_error("chunk overflow blob reserved fields are nonzero"))
    } else if chunk_count == 0 {
        Err(data_error("chunk overflow blob has no chunks"))
    } else if bytes.len() != 32 + 44 * chunk_count || u32_at(bytes, 16) != bytes.len() {
        Err(data_error("chunk overflow blob length is noncanonical"))
    } else if series_ref >= root.series_count {
        Err(data_error("chunk overflow blob series ref is out of range"))
    } else if blob_offset < 64 || blob_offset + bytes.len() > root.file_len {
        Err(data_error("chunk overflow blob range is out of bounds"))
    } else {
        Ok(PhysicalBlobFacts { series_ref, chunk_count })
    }
}

/// Authenticates the bytes of a blob at its offset.
pub fn physical_blob_facts(bytes: &[u8], root: &ChunkOverflowRootV2, blob_offset: u64) -> (result:
    Result<PhysicalBlobFacts, Error>)
    ensures
        result == blob_facts_result(bytes@, *root, blob_offset),
{
    assert(bytes@.len() == bytes.len());
    if bytes.len() < CHUNK_OVERFLOW_BLOB_V1_HEADER_LEN {
        return Err(invalid_data("chunk overflow blob is shorter than its header"));
    }
    if crc32c_without(bytes, 28) != read_u32(bytes, 28) {
        return Err(invalid_data("chunk overflow blob crc mismatch"));
    }
    if read_u32(bytes, 0) != CHUNK_OVERFLOW_BLOB_V1_MAGIC || read_u16(bytes, 4) != 1 {
        return Err(invalid_data("chunk overflow blob magic or version is invalid"));
    }
    if read_u16(bytes, 6) != 0 || read_u64(bytes, 20) != 0 {
        return Err(invalid_data("chunk overflow blob reserved fields are nonzero"));
    }
    let series_ref: u32 = read_u32(bytes, 8);
    let chunk_count: u32 = read_u32(bytes, 12);
    if chunk_count == 0 {
        return Err(invalid_data("chunk overflow blob has no chunks"));
    }
    let len: u64 = 32 + 44 * chunk_count as u64;
    if bytes.len() as u64 != len || read_u32(bytes, 16) as u64 != len {
        return Err(invalid_data("chunk overflow blob length is noncanonical"));
    }
    if series_ref >= root.series_count {
        return Err(invalid_data("chunk overflow blob series ref is out of range"));
    }
    let in_file: bool = match blob_offset.checked_add(len) {
        Some(end) => blob_offset >= 64 && end <= root.file_len,
        None => false,
    };
    if !in_file {
        return Err(invalid_data("chunk overflow blob range is out of bounds"));
    }
    Ok(PhysicalBlobFacts { series_ref, chunk_count })
}

/// The bytes of entry `i` of a blob.
pub open spec fn entry_slot(bytes: Seq<u8>, i: int) -> Seq<u8> {
    bytes.subrange(32 + 44 * i, 32 + 44 * i + 44)
}

pub open spec fn entry_result(slot: Seq<u8>) -> Result<OverflowChunkEntryV1, Error> {
    let length = u32_at(slot, 28);
    let lane_offset = u32_at(slot, 32);
    let lane_len = u32_at(slot, 36);
    match kind_of(slot[1]) {
        None => Err(data_error("chunk overflow entry kind is invalid")),
        Some(kind) => if u16_at(slot, 2) != 0 {
            Err(data_error("chunk overflow entry reserved field is nonzero"))
        } else if length < 40 {
            Err(data_error("chunk overflow entry is shorter than the chunk header"))
        } else if !(lane_offset == 0 && lane_len == 0) && !(lane_offset == 40 && lane_len >= 16
            && 40 + lane_len <= length) {
            Err(data_error("chunk overflow entry scalar lane is not canonical"))
        } else {
            Ok(
                OverflowChunkEntryV1 {
                    file_id: slot[0],
                    kind,
                    min_time_ms: u64_at(slot, 4),
                    max_time_ms: u64_at(slot, 12),
                    offset: u64_at(slot, 20),
                    length,
                    scalar_lane_offset: lane_offset,
                    scalar_lane_len: lane_len,
                    indexed_prefix_crc32c: u32_at(slot, 40),
                },
            )
        },
    }
}

/// The chunk order: file, then time range, then offset.
pub open spec fn entry_before(a: OverflowChunkEntryV1, b: OverflowChunkEntryV1) -> bool {
    a.file_id < b.file_id || a.file_id == b.file_id && (a.min_time_ms < b.min_time_ms
        || a.min_time_ms == b.min_time_ms && (a.max_time_ms < b.max_time_ms || a.max_time_ms
        == b.max_time_ms && a.offset < b.offset))
}

/// Entry `i` of a blob, which must come behind the entry before it.
pub open spec fn ordered_entry_result(bytes: Seq<u8>, i: int) -> Result<
    OverflowChunkEntryV1,
    Error,
> {
    match entry_result(entry_slot(bytes, i)) {
        Err(error) => Err(error),
        Ok(entry) => if i > 0 && (entry_result(entry_slot(bytes, i - 1)) matches Ok(previous)
            && !entry_before(previous, entry)) {
            Err(data_error("chunk overflow blob entries are not strictly ordered"))
        } else {
            Ok(entry)
        },
    }
}

fn decode_entry(slot: &[u8]) -> (result: Result<OverflowChunkEntryV1, Error>)
    requires
        slot@.len() == 44,
    ensures
        result == entry_result(slot@),
{
    let kind: ChunkKind = match kind_from_code(slot[1]) {
        Some(kind) => kind,
        None => {
            return Err(invalid_data("chunk overflow entry kind is invalid"));
        },
    };
    if read_u16(slot, 2) != 0 {
        return Err(invalid_data("chunk overflow entry reserved field is nonzero"));
    }
    let length: u32 = read_u32(slot, 28);
    if length < 40 {
        return Err(invalid_data("chunk overflow entry is shorter than the chunk header"));
    }
    let lane_offset: u32 = read_u32(slot, 32);
    let lane_len: u32 = read_u32(slot, 36);
    if !(lane_offset == 0 && lane_len == 0) && !(lane_offset == 40 && lane_len >= 16 && lane_len
        <= length - 40) {
        return Err(invalid_data("chunk overflow entry scalar lane is not canonical"));
    }
    Ok(
        OverflowChunkEntryV1 {
            file_id: slot[0],
            kind,
            min_time_ms: read_u64(slot, 4),
            max_time_ms: read_u64(slot, 12),
            offset: read_u64(slot, 20),
            length,
            scalar_lane_offset: lane_offset,
            scalar_lane_len: lane_len,
            indexed_prefix_crc32c: read_u32(slot, 40),
        },
    )
}

fn comes_before(a: &OverflowChunkEntryV1, b: &OverflowChunkEntryV1) -> (before: bool)
    ensures
        before == entry_before(*a, *b),
{
    if a.file_id != b.file_id {
        a.file_id < b.file_id
    } else if a.min_time_ms != b.min_time_ms {
        a.min_time_ms < b.min_time_ms
    } else if a.max_time_ms != b.max_time_ms {
        a.max_time_ms < b.max_time_ms
    } else {
        a.offset < b.offset
    }
}

/// Decodes entry `i` of an authenticated blob.
pub(crate) fn physical_blob_entry(bytes: &[u8], i: u32, previous: Option<OverflowChunkEntryV1>) -> (result:
    Result<OverflowChunkEntryV1, Error>)
    requires
        32 + 44 * (i + 1) <= bytes@.len(),
        previous == (if i == 0 {
            None
        } else {
            match entry_result(entry_slot(bytes@, i - 1)) {
                Ok(entry) => Some(entry),
                Err(_) => None,
            }
        }),
    ensures
        result == ordered_entry_result(bytes@, i as int),
{
    assert(bytes@.len() == bytes.len());
    let start: usize = 32 + 44 * i as usize;
    let entry = decode_entry(&bytes[start..start + 44])?;
    if let Some(previous) = previous {
        if !comes_before(&previous, &entry) {
            return Err(invalid_data("chunk overflow blob entries are not strictly ordered"));
        }
    }
    Ok(entry)
}

} // verus!
