//! Unbounded natural numbers, as `num_bigint::BigUint` provides them.
//!
//! Verus cannot look inside a `BigUint`. Everything the rest of the crate knows
//! about one goes through [`big_value`], the number that its digits spell, and
//! through the contracts of the functions below, which are trusted rather
//! than proved.

use num_bigint::{BigUint, TryFromBigIntError};
use vstd::prelude::*;

verus! {

/// `num_bigint::BigUint`, taken as it is: an unbounded natural number whose
/// inside Verus does not see.
#[verifier::external_type_specification]
#[verifier::external_body]
pub struct ExBigUint(BigUint);

/// `num_bigint::TryFromBigIntError`, the error of a conversion that does not
/// fit. It is only ever passed on; nothing is said of what it holds.
#[verifier::external_type_specification]
#[verifier::external_body]
#[verifier::reject_recursive_types(T)]
pub struct ExTryFromBigIntError<T>(TryFromBigIntError<T>);

/// The digits that a `BigUint` holds: those of its number in base 2^32, the
/// least significant first, as `BigUint::to_u32_digits` hands them out.
pub uninterp spec fn big_limbs(n: BigUint) -> Seq<u32>;

/// The number that digits in base 2^32 spell, the least significant first.
pub open spec fn limbs_value(limbs: Seq<u32>) -> nat
    decreases limbs.len(),
{
    if limbs.len() == 0 {
        0
    } else {
        limbs[0] as nat + 0x1_0000_0000 * limbs_value(limbs.drop_first())
    }
}

/// The number that a `BigUint` holds.
pub open spec fn big_value(n: BigUint) -> nat {
    limbs_value(big_limbs(n))
}

/// The character for a single decimal digit.
pub open spec fn digit_char(d: nat) -> char
    recommends
        d < 10,
{
    (d + 48) as char
}

/// The decimal representation of a number, most significant digit first,
/// without leading zeros; zero is written `0`.
pub open spec fn decimal(n: nat) -> Seq<char>
    decreases n,
{
    if n < 10 {
        seq![digit_char(n)]
    } else {
        decimal(n / 10).push(digit_char(n % 10))
    }
}

/// `BigUint::from` on a `usize`: the digits of the result spell the same
/// number.
#[verifier::external_body]
pub(crate) fn big_from_usize(x: usize) -> (r: BigUint)
    ensures
        limbs_value(big_limbs(r)) == x,
{
    BigUint::from(x)
}

/// `BigUint::clone`: the copy holds the same number.
pub assume_specification[ <BigUint as Clone>::clone ](a: &BigUint) -> (r: BigUint)
    ensures
        big_value(r) == big_value(*a),
;

/// `BigUint`'s `==`: true exactly when both hold the same number.
pub assume_specification[ <BigUint as PartialEq>::eq ](a: &BigUint, b: &BigUint) -> (r: bool)
    ensures
        r == (big_value(*a) == big_value(*b)),
;

/// `BigUint`'s `<`: the order of the numbers held.
#[verifier::external_body]
pub(crate) fn big_lt(a: &BigUint, b: &BigUint) -> (r: bool)
    ensures
        r == (big_value(*a) < big_value(*b)),
{
    a < b
}

/// `BigUint`'s `+=` with a borrowed right-hand side: the left side becomes the
/// sum.
#[verifier::external_body]
pub(crate) fn big_add_assign(a: &mut BigUint, b: &BigUint)
    ensures
        big_value(*final(a)) == big_value(*old(a)) + big_value(*b),
{
    *a += b;
}

/// `BigUint`'s `-=` with a borrowed right-hand side: the left side becomes the
/// difference. The operator panics when the right side is the larger one, so
/// callers must rule that out.
#[verifier::external_body]
pub(crate) fn big_sub_assign(a: &mut BigUint, b: &BigUint)
    requires
        big_value(*old(a)) >= big_value(*b),
    ensures
        big_value(*final(a)) == big_value(*old(a)) - big_value(*b),
{
    *a -= b;
}

/// `BigUint`'s `*=` with a borrowed right-hand side: the left side becomes the
/// product.
#[verifier::external_body]
pub(crate) fn big_mul_assign(a: &mut BigUint, b: &BigUint)
    ensures
        big_value(*final(a)) == big_value(*old(a)) * big_value(*b),
{
    *a *= b;
}

/// `usize::try_from` on a borrowed `BigUint`: the number itself where a
/// `usize` can hold it, and the crate's conversion error where none can.
#[verifier::external_body]
pub(crate) fn big_to_usize(a: &BigUint) -> (r: Result<usize, TryFromBigIntError<()>>)
    ensures
        r is Ok <==> big_value(*a) <= usize::MAX,
        r is Ok ==> r->Ok_0 == big_value(*a),
{
    usize::try_from(a)
}

/// `BigUint`'s `to_string`, which goes through its `Display`: the number in
/// decimal.
#[verifier::external_body]
pub(crate) fn big_to_string(a: &BigUint) -> (r: String)
    ensures
        r@ == decimal(big_value(*a)),
{
    a.to_string()
}

} // verus!
