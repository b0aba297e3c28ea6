//! Arbitrary-precision naturals.
//!
//! The curves need intermediate products far beyond 128 bits. They are carried
//! in `num_bigint::BigUint`, which the verifier treats as an opaque value with
//! a mathematical meaning, `big_value`. Every function in this file is a thin
//! call into `num-bigint`; its contract is what that crate documents for the
//! call and is taken on trust, not proved.

use vstd::prelude::*;
use num_bigint::BigUint;
use num_traits::ToPrimitive;

verus! {

#[verifier::external_type_specification]
#[verifier::external_body]
pub struct ExBigUint(BigUint);

/// The natural number that a `BigUint` holds.
pub uninterp spec fn big_value(n: BigUint) -> nat;

/// `BigUint::from(u64)`: the big integer with the same value.
#[verifier::external_body]
pub(crate) fn big_from_u64(n: u64) -> (r: BigUint)
    ensures
        big_value(r) == n,
{
    BigUint::from(n)
}

/// `BigUint::from(u128)`: the big integer with the same value.
#[verifier::external_body]
pub(crate) fn big_from_u128(n: u128) -> (r: BigUint)
    ensures
        big_value(r) == n,
{
    BigUint::from(n)
}

/// `&BigUint + &BigUint`: the exact sum.
#[verifier::external_body]
pub(crate) fn big_add(a: &BigUint, b: &BigUint) -> (r: BigUint)
    ensures
        big_value(r) == big_value(*a) + big_value(*b),
{
    a + b
}

/// `&BigUint - &BigUint`: the exact difference. The subtraction panics when
/// the result would be negative, so the contract asks for `b <= a`.
#[verifier::external_body]
pub(crate) fn big_sub(a: &BigUint, b: &BigUint) -> (r: BigUint)
    requires
        big_value(*b) <= big_value(*a),
    ensures
        big_value(r) == big_value(*a) - big_value(*b),
{
    a - b
}

/// `&BigUint * &BigUint`: the exact product.
#[verifier::external_body]
pub(crate) fn big_mul(a: &BigUint, b: &BigUint) -> (r: BigUint)
    ensures
        big_value(r) == big_value(*a) * big_value(*b),
{
    a * b
}

/// `&BigUint / &BigUint`: the quotient rounded down. The division panics on
/// a zero divisor, so the contract asks for `b > 0`.
#[verifier::external_body]
pub(crate) fn big_div(a: &BigUint, b: &BigUint) -> (r: BigUint)
    requires
        big_value(*b) > 0,
    ensures
        big_value(r) == big_value(*a) / big_value(*b),
{
    a / b
}

/// `BigUint::sqrt`: the truncated principal square root.
#[verifier::external_body]
pub(crate) fn big_sqrt(a: &BigUint) -> (r: BigUint)
    ensures
        big_value(r) * big_value(r) <= big_value(*a),
        big_value(*a) < (big_value(r) + 1) * (big_value(r) + 1),
{
    a.sqrt()
}

/// `&BigUint <= &BigUint` through `PartialOrd`: the order of the values.
#[verifier::external_body]
pub(crate) fn big_le(a: &BigUint, b: &BigUint) -> (r: bool)
    ensures
        r == (big_value(*a) <= big_value(*b)),
{
    a <= b
}

/// `ToPrimitive::to_u64` on a `BigUint`: the value when it fits in 64 bits,
/// `None` when it does not.
#[verifier::external_body]
pub(crate) fn big_to_u64(a: &BigUint) -> (r: Option<u64>)
    ensures
        match r {
            Some(v) => v == big_value(*a),
            None => big_value(*a) > u64::MAX,
        },
{
    a.to_u64()
}

} // verus!
