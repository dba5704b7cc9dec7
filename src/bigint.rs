//! The arbitrary-precision integers of `ibig`, as seen by the proofs.
use ibig::IBig;
use vstd::prelude::*;

verus! {

#[verifier::external_type_specification]
#[verifier::external_body]
pub struct ExIBig(IBig);

/// The mathematical integer that an `IBig` holds.
pub uninterp spec fn int_of(x: IBig) -> int;

/// Relies on `From<u64> for IBig`: the value converted unchanged.
#[verifier::external_body]
pub(crate) fn big_from_u64(v: u64) -> (r: IBig)
    ensures
        int_of(r) == v as int,
{
    IBig::from(v)
}

/// Relies on `Add<&IBig> for &IBig`: the exact sum.
#[verifier::external_body]
pub(crate) fn big_add(a: &IBig, b: &IBig) -> (r: IBig)
    ensures
        int_of(r) == int_of(*a) + int_of(*b),
{
    a + b
}

/// Relies on `Mul<&IBig> for &IBig`: the exact product.
#[verifier::external_body]
pub(crate) fn big_mul(a: &IBig, b: &IBig) -> (r: IBig)
    ensures
        int_of(r) == int_of(*a) * int_of(*b),
{
    a * b
}

} // verus!
