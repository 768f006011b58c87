//! CRC-32C checksums, computed by the `crc32c` crate.

use vstd::prelude::*;

verus! {

/// The checksum that `crc32c::crc32c_append` returns for a previous checksum
/// and the bytes that follow.
pub uninterp spec fn crc32c_after(crc: u32, data: Seq<u8>) -> u32;

/// The checksum of a byte sequence: nothing precedes it.
pub open spec fn crc32c_of(data: Seq<u8>) -> u32 {
    crc32c_after(0, data)
}

/// Calls `crc32c::crc32c`, which is documented as `crc32c_append` from the
/// checksum zero.
#[verifier::external_body]
pub(crate) fn crc32c(data: &[u8]) -> (crc: u32)
    ensures
        crc == crc32c_of(data@),
{
    crc32c::crc32c(data)
}

/// Calls `crc32c::crc32c_append`. A checksum that was taken after some bytes
/// continues as the checksum of those bytes followed by `data`.
#[verifier::external_body]
pub(crate) fn crc32c_append(crc: u32, data: &[u8]) -> (next: u32)
    ensures
        next == crc32c_after(crc, data@),
        forall|start: u32, before: Seq<u8>| #[trigger]
            crc32c_after(start, before) == crc ==> next == crc32c_after(start, before + data@),
{
    crc32c::crc32c_append(crc, data)
}

} // verus!
