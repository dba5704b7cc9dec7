//! Decimal digits of big integers and substring tests on bytes.
use crate::bigint::int_of;
use bstr::ByteSlice;
use ibig::IBig;
use vstd::prelude::*;

verus! {

/// The decimal form of `n` as ASCII bytes: no sign, no leading zeros, "0" for zero.
pub open spec fn decimal(n: nat) -> Seq<u8>
    decreases n,
{
    if n < 10 {
        seq![(n + 48) as u8]
    } else {
        decimal(n / 10).push((n % 10 + 48) as u8)
    }
}

/// `needle` occurs as a contiguous run somewhere in `hay`.
pub open spec fn contains_seq(hay: Seq<u8>, needle: Seq<u8>) -> bool {
    exists|i: int|
        0 <= i && i + needle.len() <= hay.len() && #[trigger] hay.subrange(i, i + needle.len())
            == needle
}

/// Relies on `Display for IBig`: base ten, a sign only for negative values, no
/// leading zeros; `String::into_bytes` then hands out its UTF-8 (here ASCII) bytes.
#[verifier::external_body]
pub(crate) fn big_decimal(x: &IBig) -> (r: Vec<u8>)
    requires
        int_of(*x) >= 0,
    ensures
        r@ == decimal(int_of(*x) as nat),
{
    x.to_string().into_bytes()
}

/// Relies on `bstr::ByteSlice::contains_str`: true exactly when `needle` is a
/// substring of `hay` (the empty needle is in every haystack).
#[verifier::external_body]
pub(crate) fn bytes_contain(hay: &[u8], needle: &[u8]) -> (r: bool)
    ensures
        r == contains_seq(hay@, needle@),
{
    hay.contains_str(needle)
}

/// Whether the decimal form of the non-negative `x` contains `needle`.
pub fn value_contains(x: &IBig, needle: &Vec<u8>) -> (r: bool)
    requires
        int_of(*x) >= 0,
    ensures
        r == contains_seq(decimal(int_of(*x) as nat), needle@),
{
    let d = big_decimal(x);
    bytes_contain(d.as_slice(), needle.as_slice())
}

} // verus!
