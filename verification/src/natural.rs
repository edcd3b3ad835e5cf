//! Natural numbers of any size, held as base 2^32 digits with the least
//! significant digit first.
//!
//! The arithmetic on them is done by `num_bigint::BigUint`; the functions of this
//! module hand digit vectors to it and take digit vectors back. Their contracts
//! are stated over [`digits_value`] and are taken on trust.

use num_bigint::BigUint;
use num_integer::Integer;
use vstd::prelude::*;

verus! {

/// The base of the digits.
pub open spec fn radix() -> nat {
    4294967296
}

/// The natural number that a digit sequence stands for: digit `i` counts
/// `radix()` to the power `i`. The empty sequence stands for zero, and leading
/// zero digits (at the end of the sequence) change nothing.
pub open spec fn digits_value(d: Seq<u32>) -> nat
    decreases d.len(),
{
    if d.len() == 0 {
        0
    } else {
        d[0] as nat + radix() * digits_value(d.skip(1))
    }
}

/// The digit sequence has no leading zero: it is empty, or its most
/// significant digit, which is its last, is not zero.
pub open spec fn trimmed(d: Seq<u32>) -> bool {
    d.len() == 0 || d[d.len() - 1] != 0
}

/// `g` is the greatest common divisor of `a` and `b`; of zero and zero it is zero.
pub open spec fn is_gcd(g: nat, a: nat, b: nat) -> bool {
    &&& g == 0 <==> (a == 0 && b == 0)
    &&& g > 0 ==> a % g == 0 && b % g == 0
    &&& g > 0 ==> forall|c: nat| c > 0 && #[trigger] (a % c) == 0 && b % c == 0 ==> c <= g
}

/// The value of the empty digit sequence is zero.
pub proof fn value_of_none()
    ensures
        digits_value(Seq::<u32>::empty()) == 0,
{
}

/// The value of a single digit is the digit.
pub proof fn value_of_one(lo: u32)
    ensures
        digits_value(seq![lo]) == lo,
{
    assert(seq![lo].skip(1) =~= Seq::<u32>::empty());
    assert(digits_value(Seq::<u32>::empty()) == 0);
    assert(seq![lo][0] == lo);
}

/// The value of two digits is the low digit plus `radix()` times the high one.
pub proof fn value_of_two(lo: u32, hi: u32)
    ensures
        digits_value(seq![lo, hi]) == lo + radix() * hi,
{
    assert(seq![lo, hi].skip(1) =~= seq![hi]);
    assert(seq![lo, hi][0] == lo);
    value_of_one(hi);
}

/// Calls `BigUint::from_slice` on both arguments, adds the two numbers with
/// `+` and returns `BigUint::to_u32_digits` of the sum. Claimed: the result
/// stands for the sum of what the arguments stand for, and has no leading
/// zero.
#[verifier::external_body]
pub(crate) fn digits_sum(a: &Vec<u32>, b: &Vec<u32>) -> (r: Vec<u32>)
    ensures
        digits_value(r@) == digits_value(a@) + digits_value(b@),
        trimmed(r@),
{
    (BigUint::from_slice(a) + BigUint::from_slice(b)).to_u32_digits()
}

/// Calls `BigUint::from_slice` on both arguments, subtracts the second number
/// from the first with `-` and returns `BigUint::to_u32_digits` of the
/// difference. `BigUint` panics where the second is larger, so that is left
/// out. Claimed: the result stands for the difference, and has no leading
/// zero.
#[verifier::external_body]
pub(crate) fn digits_difference(a: &Vec<u32>, b: &Vec<u32>) -> (r: Vec<u32>)
    requires
        digits_value(a@) >= digits_value(b@),
    ensures
        digits_value(r@) == digits_value(a@) - digits_value(b@),
        trimmed(r@),
{
    (BigUint::from_slice(a) - BigUint::from_slice(b)).to_u32_digits()
}

/// Calls `BigUint::from_slice` on both arguments, multiplies the two numbers
/// with `*` and returns `BigUint::to_u32_digits` of the product. Claimed: the
/// result stands for the product of what the arguments stand for, and has no
/// leading zero.
#[verifier::external_body]
pub(crate) fn digits_product(a: &Vec<u32>, b: &Vec<u32>) -> (r: Vec<u32>)
    ensures
        digits_value(r@) == digits_value(a@) * digits_value(b@),
        trimmed(r@),
{
    (BigUint::from_slice(a) * BigUint::from_slice(b)).to_u32_digits()
}

/// Calls `BigUint::from_slice` on both arguments, divides the first number by
/// the second with `/` and returns `BigUint::to_u32_digits` of the quotient.
/// `BigUint` panics on a zero divisor, so that is left out. Claimed: the result
/// stands for the quotient rounded down, and has no leading zero.
#[verifier::external_body]
pub(crate) fn digits_quotient(a: &Vec<u32>, b: &Vec<u32>) -> (r: Vec<u32>)
    requires
        digits_value(b@) > 0,
    ensures
        digits_value(r@) == digits_value(a@) / digits_value(b@),
        trimmed(r@),
{
    (BigUint::from_slice(a) / BigUint::from_slice(b)).to_u32_digits()
}

/// Calls `BigUint::from_slice` on both arguments and `num_integer::Integer::gcd`
/// on the two numbers, and returns `BigUint::to_u32_digits` of what it gives.
/// Claimed: the result stands for the greatest common divisor, and has no
/// leading zero.
#[verifier::external_body]
pub(crate) fn digits_gcd(a: &Vec<u32>, b: &Vec<u32>) -> (r: Vec<u32>)
    ensures
        is_gcd(digits_value(r@), digits_value(a@), digits_value(b@)),
        trimmed(r@),
{
    BigUint::from_slice(a).gcd(&BigUint::from_slice(b)).to_u32_digits()
}

/// Calls `BigUint::from_slice` on both arguments and compares the two numbers
/// with `<`. Claimed: the result says whether the first number is the smaller.
#[verifier::external_body]
pub(crate) fn digits_less(a: &Vec<u32>, b: &Vec<u32>) -> (r: bool)
    ensures
        r == (digits_value(a@) < digits_value(b@)),
{
    BigUint::from_slice(a) < BigUint::from_slice(b)
}

} // verus!
