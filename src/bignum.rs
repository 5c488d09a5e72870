//! Arbitrary-precision arithmetic on limb sequences, done by `num::BigUint`.
use vstd::prelude::*;
use num::bigint::BigUint;
use num::Integer;
use crate::limbs::{limbs_value, limbs64_value, decimal_digits};

verus! {

/// Relies on `BigUint::mod_floor` (through `from_slice` and `to_u32_digits`):
/// the remainder of `a` divided by `m`; it panics on a zero divisor.
#[verifier::external_body]
pub(crate) fn big_mod(a: &[u32], m: &[u32]) -> (r: Vec<u32>)
    requires
        limbs_value(m@) > 0,
    ensures
        limbs_value(r@) == limbs_value(a@) % limbs_value(m@),
{
    BigUint::from_slice(a).mod_floor(&BigUint::from_slice(m)).to_u32_digits()
}

/// Relies on `BigUint`'s `+` (through `from_slice` and `to_u32_digits`).
#[verifier::external_body]
pub(crate) fn big_add(a: &[u32], b: &[u32]) -> (r: Vec<u32>)
    ensures
        limbs_value(r@) == limbs_value(a@) + limbs_value(b@),
{
    (BigUint::from_slice(a) + BigUint::from_slice(b)).to_u32_digits()
}

/// Relies on `BigUint`'s `-` (through `from_slice` and `to_u32_digits`);
/// it panics when `b` is larger than `a`.
#[verifier::external_body]
pub(crate) fn big_sub(a: &[u32], b: &[u32]) -> (r: Vec<u32>)
    requires
        limbs_value(b@) <= limbs_value(a@),
    ensures
        limbs_value(r@) == limbs_value(a@) - limbs_value(b@),
{
    (BigUint::from_slice(a) - BigUint::from_slice(b)).to_u32_digits()
}

/// Relies on `BigUint`'s `*` (through `from_slice` and `to_u32_digits`).
#[verifier::external_body]
pub(crate) fn big_mul(a: &[u32], b: &[u32]) -> (r: Vec<u32>)
    ensures
        limbs_value(r@) == limbs_value(a@) * limbs_value(b@),
{
    (BigUint::from_slice(a) * BigUint::from_slice(b)).to_u32_digits()
}

/// Relies on `BigUint`'s `==` (through `from_slice`).
#[verifier::external_body]
pub(crate) fn big_eq(a: &[u32], b: &[u32]) -> (r: bool)
    ensures
        r == (limbs_value(a@) == limbs_value(b@)),
{
    BigUint::from_slice(a) == BigUint::from_slice(b)
}

/// Relies on `BigUint`'s `<` (through `from_slice`).
#[verifier::external_body]
pub(crate) fn big_lt(a: &[u32], b: &[u32]) -> (r: bool)
    ensures
        r == (limbs_value(a@) < limbs_value(b@)),
{
    BigUint::from_slice(a) < BigUint::from_slice(b)
}

/// Relies on `BigUint`'s `Display` (through `from_slice` and `to_string`):
/// the number in decimal, without leading zeros.
#[verifier::external_body]
pub(crate) fn big_to_decimal(a: &[u32]) -> (r: String)
    ensures
        r@ == decimal_digits(limbs_value(a@)),
{
    BigUint::from_slice(a).to_string()
}

/// Relies on `BigUint::iter_u64_digits` (through `from_slice`): the 64-bit
/// digits, least significant first, with no zero digit at the top.
#[verifier::external_body]
pub(crate) fn big_u64_digits(a: &[u32]) -> (r: Vec<u64>)
    ensures
        limbs64_value(r@) == limbs_value(a@),
        r@.len() == 0 || r@.last() != 0,
{
    BigUint::from_slice(a).iter_u64_digits().collect()
}

} // verus!
