//! Memory that is asked for before it is taken.
//!
//! A budget is whatever answers a request for bytes: it grants them or not, and
//! may answer the same request differently each time.

use vstd::prelude::*;

verus! {

/// The budget takes every request.
pub open spec fn answers<R: Fn(u64) -> bool>(reserve: R) -> bool {
    forall|bytes: u64| call_requires(reserve, (bytes,))
}

/// The budget may answer a request for bytes in this way.
pub open spec fn answered<R: Fn(u64) -> bool>(reserve: R, bytes: u64, granted: bool) -> bool {
    call_ensures(reserve, (bytes,), granted)
}

/// The budget that grants every request.
pub fn grants(_bytes: u64) -> (granted: bool)
    ensures
        granted,
{
    true
}

/// An operation asks for bytes. Where they are not granted, it ends with the
/// refusal and does nothing else; where they are, the rest of it follows.
pub open spec fn reserved_first<R: Fn(u64) -> bool, T, E>(
    reserve: R,
    bytes: u64,
    refusal: E,
    result: Result<T, E>,
    rest: bool,
) -> bool {
    ||| answered(reserve, bytes, false) && result == Err::<T, E>(refusal)
    ||| answered(reserve, bytes, true) && rest
}

/// A budget that grants a request leaves an operation to its own result.
pub proof fn granted_request_law<R: Fn(u64) -> bool, T, E>(
    reserve: R,
    bytes: u64,
    refusal: E,
    result: Result<T, E>,
    rest: bool,
)
    requires
        !answered(reserve, bytes, false),
        reserved_first(reserve, bytes, refusal, result, rest),
    ensures
        rest,
{
}

/// A budget that refuses a request is all that the operation is about: its result
/// is the refusal.
pub proof fn refused_request_law<R: Fn(u64) -> bool, T, E>(
    reserve: R,
    bytes: u64,
    refusal: E,
    result: Result<T, E>,
    rest: bool,
)
    requires
        !answered(reserve, bytes, true),
        reserved_first(reserve, bytes, refusal, result, rest),
    ensures
        result == Err::<T, E>(refusal),
{
}

} // verus!
