//! Allocated capacities, for logical memory charges.

use vstd::prelude::*;
use vstd::utf8::encode_utf8;

verus! {

/// Calls `Vec::capacity`: the number of elements the vector can hold without
/// reallocating, which is never less than its length. A vector never holds more
/// than `isize::MAX` bytes: every operation that would allocate more panics. How
/// much more than the length the capacity is depends on the allocator and is
/// left open.
#[verifier::external_body]
pub(crate) fn vec_capacity<T>(values: &Vec<T>) -> (capacity: usize)
    ensures
        capacity >= values@.len(),
        capacity * vstd::layout::size_of::<T>() <= isize::MAX,
{
    values.capacity()
}

/// Calls `String::capacity`: the number of bytes the string can hold without
/// reallocating, which is never less than its length in bytes, and never more than
/// `isize::MAX`: every operation that would allocate more panics. How much more
/// than the length it is depends on the allocator and is left open.
#[verifier::external_body]
pub(crate) fn string_capacity(text: &String) -> (capacity: usize)
    ensures
        encode_utf8(text@).len() <= capacity <= isize::MAX,
{
    text.capacity()
}

} // verus!
