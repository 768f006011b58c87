//! Scratch memory that an operation asks for while it runs.

use core::mem::size_of;

use vstd::prelude::*;

use super::Schema7MetadataReaderError;
use crate::budget::{answered, answers};

verus! {

/// The error of memory that was not granted.
pub open spec fn refused(bytes: u64) -> Schema7MetadataReaderError {
    Schema7MetadataReaderError::Budget { requested: bytes }
}

/// The operation ended because memory that it asked for was not granted.
pub open spec fn ran_out<R: Fn(u64) -> bool, T>(
    reserve: R,
    result: Result<T, Schema7MetadataReaderError>,
) -> bool {
    result matches Err(Schema7MetadataReaderError::Budget { requested }) && answered(
        reserve,
        requested,
        false,
    )
}

/// Asks for memory.
pub fn reserve_series_scratch<R: Fn(u64) -> bool>(reserve: &R, bytes: u64) -> (result: Result<
    (),
    Schema7MetadataReaderError,
>)
    requires
        answers(*reserve),
    ensures
        answered(*reserve, bytes, result is Ok),
        result matches Err(error) ==> error == refused(bytes),
{
    let granted: bool = reserve(bytes);
    if granted {
        Ok(())
    } else {
        Err(Schema7MetadataReaderError::Budget { requested: bytes })
    }
}

/// The bytes of a list of this many elements, as far as they can be counted.
pub fn list_bytes<T>(count: usize) -> (bytes: u64)
    ensures
        bytes == (if count * vstd::layout::size_of::<T>() > u64::MAX {
            u64::MAX as int
        } else {
            count * vstd::layout::size_of::<T>()
        }),
{
    match (count as u64).checked_mul(size_of::<T>() as u64) {
        Some(bytes) => bytes,
        None => u64::MAX,
    }
}

} // verus!
