//! The indexed prefix of a chunk: its fixed header and, where the chunk has a
//! scalar lane, the header of that lane.

use vstd::prelude::*;

use super::{kind_of, ChunkKind, CHUNK_FLAG_HAS_START_TIME};
use crate::bytes::{read_u16, read_u32, read_u64, u16_at, u32_at, u64_at};
use crate::checksum::{crc32c, crc32c_of};
use crate::error::{data_error, invalid_data, Error, ErrorKind};

verus! {

/// `TSCL` as a little-endian integer.
pub const TYPED_SCALAR_LANE_MAGIC: u32 = 0x4c43_5354;

pub const TYPED_SCALAR_LANE_VERSION: u16 = 1;

/// What the indexed prefix of a chunk must say.
#[derive(Debug, Clone, Copy, PartialEq, Eq, Structural)]
pub struct Schema7ChunkPrefixExpectation {
    pub series_ref: u32,
    pub kind: ChunkKind,
    pub min_time_ms: u64,
    pub max_time_ms: u64,
    pub length: u32,
    pub scalar_lane_offset: u32,
    pub scalar_lane_len: u32,
    pub indexed_prefix_crc32c: u32,
}

/// What a verified prefix adds to its expectation.
#[derive(Debug, Clone, Copy, PartialEq, Eq, Structural)]
pub struct VerifiedChunkPrefix {
    pub flags: u16,
}

/// The scalar lane header that follows the chunk header.
pub open spec fn scalar_header_result(prefix: Seq<u8>, scalar_lane_len: u32) -> Result<(), Error> {
    if u32_at(prefix, 40) != TYPED_SCALAR_LANE_MAGIC {
        Err(data_error("schema-7 scalar lane magic is invalid"))
    } else if u16_at(prefix, 44) != 1 {
        Err(data_error("schema-7 scalar lane version is invalid"))
    } else if u16_at(prefix, 46) != 0 {
        Err(data_error("schema-7 scalar lane flags are invalid"))
    } else if u32_at(prefix, 48) + 16 != scalar_lane_len {
        Err(data_error("schema-7 scalar lane body length does not match its locator"))
    } else {
        Ok(())
    }
}

pub open spec fn indexed_prefix_result(
    expected: Schema7ChunkPrefixExpectation,
    prefix: Seq<u8>,
) -> Result<VerifiedChunkPrefix, Error> {
    let has_lane = expected.scalar_lane_len != 0;
    let flags = u16_at(prefix, 2);
    let header_len = 40 + expected.scalar_lane_len;
    if prefix.len() != (if has_lane {
        56
    } else {
        40int
    }) {
        Err(data_error("schema-7 indexed prefix length is not exact"))
    } else if crc32c_of(prefix) != expected.indexed_prefix_crc32c {
        Err(data_error("schema-7 indexed prefix crc mismatch"))
    } else if has_lane && !expected.kind.is_typed() {
        Err(data_error("schema-7 scalar lane is invalid for its chunk kind"))
    } else if prefix[0] != expected.kind.code_of() {
        Err(data_error("schema-7 chunk header kind does not match its locator"))
    } else if prefix[1] != expected.kind.encoding_of() {
        Err(data_error("schema-7 chunk header encoding is invalid for its kind"))
    } else if flags != 0 && !(expected.kind.is_typed() && flags == CHUNK_FLAG_HAS_START_TIME) {
        Err(data_error("schema-7 chunk header flags are invalid"))
    } else if u32_at(prefix, 4) != expected.series_ref {
        Err(data_error("schema-7 chunk header series ref does not match its locator"))
    } else if u64_at(prefix, 8) != expected.min_time_ms || u64_at(prefix, 16)
        != expected.max_time_ms {
        Err(data_error("schema-7 chunk header time range does not match its locator"))
    } else if u32_at(prefix, 24) == 0 {
        Err(data_error("schema-7 chunk header has no points"))
    } else if u32_at(prefix, 28) != header_len {
        Err(data_error("schema-7 chunk header length does not match its locator"))
    } else if header_len + u32_at(prefix, 32) != expected.length {
        Err(data_error("schema-7 chunk payload length does not match its locator"))
    } else if has_lane && scalar_header_result(prefix, expected.scalar_lane_len) is Err {
        Err(scalar_header_result(prefix, expected.scalar_lane_len)->Err_0)
    } else {
        Ok(VerifiedChunkPrefix { flags })
    }
}

fn is_typed(kind: ChunkKind) -> (typed: bool)
    ensures
        typed == kind.is_typed(),
{
    kind.code() >= 2
}

fn encoding_code(kind: ChunkKind) -> (code: u8)
    ensures
        code == kind.encoding_of(),
{
    match kind {
        ChunkKind::Float => 0,
        ChunkKind::Int64 => 1,
        _ => 2,
    }
}

fn verify_scalar_header(prefix: &[u8], scalar_lane_len: u32) -> (result: Result<(), Error>)
    requires
        prefix@.len() == 56,
    ensures
        result == scalar_header_result(prefix@, scalar_lane_len),
{
    if read_u32(prefix, 40) != TYPED_SCALAR_LANE_MAGIC {
        return Err(invalid_data("schema-7 scalar lane magic is invalid"));
    }
    if read_u16(prefix, 44) != TYPED_SCALAR_LANE_VERSION {
        return Err(invalid_data("schema-7 scalar lane version is invalid"));
    }
    if read_u16(prefix, 46) != 0 {
        return Err(invalid_data("schema-7 scalar lane flags are invalid"));
    }
    if read_u32(prefix, 48) as u64 + 16 != scalar_lane_len as u64 {
        return Err(invalid_data("schema-7 scalar lane body length does not match its locator"));
    }
    Ok(())
}

/// Authenticates an indexed prefix and checks it against its locator.
pub fn verify_schema7_indexed_prefix(
    expected: &Schema7ChunkPrefixExpectation,
    prefix: &[u8],
) -> (result: Result<VerifiedChunkPrefix, Error>)
    ensures
        result == indexed_prefix_result(*expected, prefix@),
{
    assert(prefix@.len() == prefix.len());
    let has_lane: bool = expected.scalar_lane_len != 0;
    let prefix_len: usize = if has_lane {
        56
    } else {
        40
    };
    if prefix.len() != prefix_len {
        return Err(invalid_data("schema-7 indexed prefix length is not exact"));
    }
    if crc32c(prefix) != expected.indexed_prefix_crc32c {
        return Err(invalid_data("schema-7 indexed prefix crc mismatch"));
    }
    if has_lane && !is_typed(expected.kind) {
        return Err(invalid_data("schema-7 scalar lane is invalid for its chunk kind"));
    }
    if prefix[0] != expected.kind.code() {
        return Err(invalid_data("schema-7 chunk header kind does not match its locator"));
    }
    if prefix[1] != encoding_code(expected.kind) {
        return Err(invalid_data("schema-7 chunk header encoding is invalid for its kind"));
    }
    let flags: u16 = read_u16(prefix, 2);
    if flags != 0 && !(is_typed(expected.kind) && flags == CHUNK_FLAG_HAS_START_TIME) {
        return Err(invalid_data("schema-7 chunk header flags are invalid"));
    }
    if read_u32(prefix, 4) != expected.series_ref {
        return Err(invalid_data("schema-7 chunk header series ref does not match its locator"));
    }
    if read_u64(prefix, 8) != expected.min_time_ms || read_u64(prefix, 16)
        != expected.max_time_ms {
        return Err(invalid_data("schema-7 chunk header time range does not match its locator"));
    }
    if read_u32(prefix, 24) == 0 {
        return Err(invalid_data("schema-7 chunk header has no points"));
    }
    let header_len: u64 = 40 + expected.scalar_lane_len as u64;
    if read_u32(prefix, 28) as u64 != header_len {
        return Err(invalid_data("schema-7 chunk header length does not match its locator"));
    }
    if header_len + read_u32(prefix, 32) as u64 != expected.length as u64 {
        return Err(invalid_data("schema-7 chunk payload length does not match its locator"));
    }
    if has_lane {
        verify_scalar_header(prefix, expected.scalar_lane_len)?;
    }
    Ok(VerifiedChunkPrefix { flags })
}

/// The bytes open a chunk like the one expected: kind, encoding, flags, series, time range,
/// points and lengths are those of the locator, in their places.
pub open spec fn opens_chunk(prefix: Seq<u8>, expected: Schema7ChunkPrefixExpectation) -> bool {
    &&& crc32c_of(prefix) == expected.indexed_prefix_crc32c
    &&& kind_of(prefix[0]) == Some(expected.kind)
    &&& prefix[1] == (if prefix[0] < 2 {
        prefix[0]
    } else {
        2
    })
    &&& u16_at(prefix, 2) == 0 || u16_at(prefix, 2) == 1 && prefix[0] >= 2
    &&& u32_at(prefix, 4) == expected.series_ref
    &&& u64_at(prefix, 8) == expected.min_time_ms
    &&& u64_at(prefix, 16) == expected.max_time_ms
    &&& u32_at(prefix, 24) >= 1
    &&& u32_at(prefix, 28) == 40 + expected.scalar_lane_len
    &&& u32_at(prefix, 32) == expected.length - u32_at(prefix, 28)
}

/// The bytes after the chunk header open a scalar lane of the length expected.
pub open spec fn opens_lane(prefix: Seq<u8>, scalar_lane_len: u32) -> bool {
    &&& prefix[0] >= 2
    &&& prefix.subrange(40, 44) == seq![0x54u8, 0x53, 0x43, 0x4c]
    &&& u16_at(prefix, 44) == 1
    &&& u16_at(prefix, 46) == 0
    &&& u32_at(prefix, 48) == scalar_lane_len - 16
}

/// A prefix is taken exactly when it opens the chunk that is expected and, where that has a
/// scalar lane, the lane; what is returned of it are its flags.
pub proof fn verified_prefix_law(expected: Schema7ChunkPrefixExpectation, prefix: Seq<u8>)
    ensures
        indexed_prefix_result(expected, prefix) is Ok <==> if expected.scalar_lane_len == 0 {
            prefix.len() == 40 && opens_chunk(prefix, expected)
        } else {
            prefix.len() == 56 && opens_chunk(prefix, expected) && opens_lane(
                prefix,
                expected.scalar_lane_len,
            )
        },
        indexed_prefix_result(expected, prefix) matches Ok(verified) ==> verified.flags == u16_at(
            prefix,
            2,
        ),
        indexed_prefix_result(expected, prefix) matches Err(error) ==> error.kind
            == ErrorKind::InvalidData,
{
    if prefix.len() == 56 {
        let magic = seq![0x54u8, 0x53, 0x43, 0x4c];
        let lane = prefix.subrange(40, 44);
        if u32_at(prefix, 40) == TYPED_SCALAR_LANE_MAGIC {
            assert(lane =~= magic);
        }
        if lane == magic {
            assert(prefix[40] == lane[0] && prefix[41] == lane[1] && prefix[42] == lane[2]
                && prefix[43] == lane[3]);
        }
    }
}

} // verus!
