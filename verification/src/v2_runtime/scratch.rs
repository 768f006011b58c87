//! Scratch memory that an operation asks for while it runs.

use core::mem::size_of;

use vstd::prelude::*;

use super::Schema6SeriesReaderError;
use crate::budget::{answered, answers};

verus! {

/// The error of memory that was not granted.
pub open spec fn refused6(bytes: u64) -> Schema6SeriesReaderError {
    Schema6SeriesReaderError::Budget { requested: bytes }
}

/// The operation ended because memory that it asked for was not granted.
pub open spec fn ran_out6<R: Fn(u64) -> bool, T>(
    reserve: R,
    result: Result<T, Schema6SeriesReaderError>,
) -> bool {
    result matches Err(Schema6SeriesReaderError::Budget { requested }) && answered(
        reserve,
        requested,
        false,
    )
}

/// Asks for memory.
pub fn reserve6<R: Fn(u64) -> bool>(reserve: &R, bytes: u64) -> (result: Result<
    (),
    Schema6SeriesReaderError,
>)
    requires
        answers(*reserve),
    ensures
        answered(*reserve, bytes, result is Ok),
        result matches Err(error) ==> error == refused6(bytes),
{
    let granted: bool = reserve(bytes);
    if granted {
        Ok(())
    } else {
        Err(Schema6SeriesReaderError::Budget { requested: bytes })
    }
}

/// The bytes of a list of this many elements, as far as they can be counted.
pub fn list_bytes6<T>(count: usize) -> (bytes: u64)
    ensures
        bytes == (if count * vstd::layout::size_of::<T>() > u64::MAX {
            u64::MAX as int
        } else {
            count * vstd::layout::size_of::<T>()
        }),
{
    match (count as u64).checked_mul(size_of::<T>() as u64) {
        Some(bytes) => bytes,
        None => u64::MAX,
    }
}

/// Asks for the memory of two values at once.
pub fn reserve_both6<R: Fn(u64) -> bool>(reserve: &R, first: u64, second: u64) -> (result: Result<
    (),
    Schema6SeriesReaderError,
>)
    requires
        answers(*reserve),
    ensures
        ({
            let sum = if first + second > u64::MAX {
                u64::MAX
            } else {
                (first + second) as u64
            };
            &&& answered(*reserve, sum, result is Ok)
            &&& result matches Err(error) ==> error == refused6(sum)
        }),
{
    match first.checked_add(second) {
        Some(sum) => reserve6(reserve, sum),
        None => reserve6(reserve, u64::MAX),
    }
}

} // verus!
