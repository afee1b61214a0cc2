//! Natural numbers of any size. A number is held as its base 2^32 digits; every operation on
//! it is carried out by `num_bigint::BigUint`.

use num_bigint::BigUint;
use num_traits::{One, ToPrimitive, Zero};
use vstd::prelude::*;

verus! {

/// The number that base 2^32 digits stand for, least significant digit first.
pub open spec fn digits_value(digits: Seq<u32>) -> nat
    decreases digits.len(),
{
    if digits.len() == 0 {
        0
    } else {
        digits[0] as nat + 4294967296 * digits_value(digits.drop_first())
    }
}

/// A natural number of any size. Its view is the number itself.
#[derive(Debug)]
pub struct BigNat {
    digits: Vec<u32>,
}

impl View for BigNat {
    type V = nat;

    closed spec fn view(&self) -> nat {
        digits_value(self.digits@)
    }
}

impl Clone for BigNat {
    fn clone(&self) -> (r: Self)
        ensures
            r@ == self@,
    {
        BigNat { digits: self.digits.clone() }
    }
}

impl BigNat {
    /// The number with the given base 2^32 digits, least significant first.
    pub fn from_digits(digits: Vec<u32>) -> (r: BigNat)
        ensures
            r@ == digits_value(digits@),
    {
        BigNat { digits }
    }

    /// The base 2^32 digits held, least significant first.
    pub fn digits(&self) -> (r: &Vec<u32>)
        ensures
            digits_value(r@) == self@,
    {
        &self.digits
    }

    /// `BigUint::from` on a `u128`, read back with `BigUint::to_u32_digits`: the digits handed
    /// back stand for `n`.
    #[verifier::external_body]
    pub(crate) fn from_u128(n: u128) -> (r: BigNat)
        ensures
            r@ == n,
    {
        BigNat { digits: BigUint::from(n).to_u32_digits() }
    }

    /// `ToPrimitive::to_u128` of `BigUint`: the number as a `u128` where it fits, else `None`.
    #[verifier::external_body]
    pub(crate) fn to_u128(&self) -> (r: Option<u128>)
        ensures
            self@ <= u128::MAX ==> r == Some(self@ as u128),
            self@ > u128::MAX ==> r is None,
    {
        BigUint::from_slice(&self.digits).to_u128()
    }

    /// `Zero::is_zero` of `BigUint`: whether the number is zero.
    #[verifier::external_body]
    pub(crate) fn is_zero(&self) -> (r: bool)
        ensures
            r == (self@ == 0),
    {
        BigUint::from_slice(&self.digits).is_zero()
    }

    /// `One::is_one` of `BigUint`: whether the number is one.
    #[verifier::external_body]
    pub(crate) fn is_one(&self) -> (r: bool)
        ensures
            r == (self@ == 1),
    {
        BigUint::from_slice(&self.digits).is_one()
    }

    /// `BigUint`'s `>`: whether this number exceeds the other.
    #[verifier::external_body]
    pub(crate) fn gt(&self, other: &BigNat) -> (r: bool)
        ensures
            r == (self@ > other@),
    {
        BigUint::from_slice(&self.digits) > BigUint::from_slice(&other.digits)
    }

    /// `BigUint`'s `+`: the sum.
    #[verifier::external_body]
    pub(crate) fn add(&self, other: &BigNat) -> (r: BigNat)
        ensures
            r@ == self@ + other@,
    {
        let sum = BigUint::from_slice(&self.digits) + BigUint::from_slice(&other.digits);
        BigNat { digits: sum.to_u32_digits() }
    }

    /// `BigUint`'s `-`, which panics where the result would be negative: the difference.
    #[verifier::external_body]
    pub(crate) fn sub(&self, other: &BigNat) -> (r: BigNat)
        requires
            self@ >= other@,
        ensures
            r@ == self@ - other@,
    {
        let difference = BigUint::from_slice(&self.digits) - BigUint::from_slice(&other.digits);
        BigNat { digits: difference.to_u32_digits() }
    }

    /// `BigUint`'s `*`: the product.
    #[verifier::external_body]
    pub(crate) fn mul(&self, other: &BigNat) -> (r: BigNat)
        ensures
            r@ == self@ * other@,
    {
        let product = BigUint::from_slice(&self.digits) * BigUint::from_slice(&other.digits);
        BigNat { digits: product.to_u32_digits() }
    }

    /// `BigUint`'s `/`, which panics on a zero divisor: the quotient, rounded down.
    #[verifier::external_body]
    pub(crate) fn div(&self, other: &BigNat) -> (r: BigNat)
        requires
            other@ > 0,
        ensures
            r@ == self@ / other@,
    {
        let quotient = BigUint::from_slice(&self.digits) / BigUint::from_slice(&other.digits);
        BigNat { digits: quotient.to_u32_digits() }
    }

    /// `BigUint`'s `%`, which panics on a zero divisor: the remainder of the division.
    #[verifier::external_body]
    pub(crate) fn rem(&self, other: &BigNat) -> (r: BigNat)
        requires
            other@ > 0,
        ensures
            r@ == self@ % other@,
    {
        let remainder = BigUint::from_slice(&self.digits) % BigUint::from_slice(&other.digits);
        BigNat { digits: remainder.to_u32_digits() }
    }
}

} // verus!
