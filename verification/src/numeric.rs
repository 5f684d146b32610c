//! The numeric constants of the resource type, as `num_traits` provides them.

use vstd::prelude::*;

verus! {

/// Calls `num_traits::Zero::zero` for `u64`. Trusted: the crate's
/// implementation for the primitive integers returns the literal `0`.
#[verifier::external_body]
pub(crate) fn zero() -> (r: u64)
    ensures
        r == 0,
{
    <u64 as num_traits::Zero>::zero()
}

/// Calls `num_traits::FromPrimitive::from_i16` for `u64`. Trusted: the
/// crate converts through `ToPrimitive::to_u64`, which yields the same
/// number for every `n` that is not negative and `None` for a negative one.
#[verifier::external_body]
pub(crate) fn from_i16(n: i16) -> (r: Option<u64>)
    ensures
        n >= 0 ==> r == Some(n as u64),
        n < 0 ==> r is None,
{
    <u64 as num_traits::FromPrimitive>::from_i16(n)
}

} // verus!
