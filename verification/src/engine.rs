//! The narrow boundary to the arbitrary-precision arithmetic engine.
//!
//! Every value of the library is backed by a [`num_bigint::BigInt`]. The
//! engine is called only through the wrappers below; each wrapper makes one
//! call and states, over the mathematical content `big_view`, what the
//! engine's documentation and source promise of that call. Everything built
//! on top of these wrappers is verified.
use crate::arith::gcd_int;
use crate::arith::reduced_den;
use crate::arith::reduced_num;
use vstd::prelude::*;

verus! {

#[verifier::external_type_specification]
#[verifier::external_body]
pub struct ExBigInt(num_bigint::BigInt);

/// The integer that a `BigInt` holds.
pub uninterp spec fn big_view(b: num_bigint::BigInt) -> int;

/// Relies on `BigInt: From<i64>`: an exact conversion.
#[verifier::external_body]
pub(crate) fn big_from_i64(v: i64) -> (r: num_bigint::BigInt)
    ensures
        big_view(r) == v as int,
{
    num_bigint::BigInt::from(v)
}

/// Relies on `BigInt: From<u64>`: an exact conversion.
#[verifier::external_body]
pub(crate) fn big_from_u64(v: u64) -> (r: num_bigint::BigInt)
    ensures
        big_view(r) == v as int,
{
    num_bigint::BigInt::from(v)
}

/// Relies on `BigInt: Clone`: a deep copy of the same integer.
#[verifier::external_body]
pub(crate) fn big_clone(a: &num_bigint::BigInt) -> (r: num_bigint::BigInt)
    ensures
        big_view(r) == big_view(*a),
{
    a.clone()
}

/// Relies on `BigInt: PartialEq`: equality of the held integers.
#[verifier::external_body]
pub(crate) fn big_eq(a: &num_bigint::BigInt, b: &num_bigint::BigInt) -> (r: bool)
    ensures
        r == (big_view(*a) == big_view(*b)),
{
    a == b
}

/// Relies on `BigInt: PartialOrd`: the numeric order of the held integers.
#[verifier::external_body]
pub(crate) fn big_lt(a: &num_bigint::BigInt, b: &num_bigint::BigInt) -> (r: bool)
    ensures
        r == (big_view(*a) < big_view(*b)),
{
    a < b
}

/// Relies on `num_traits::Zero::is_zero` for `BigInt`.
#[verifier::external_body]
pub(crate) fn big_is_zero(a: &num_bigint::BigInt) -> (r: bool)
    ensures
        r == (big_view(*a) == 0),
{
    num_traits::Zero::is_zero(a)
}

/// Relies on `&BigInt + &BigInt`: exact addition.
#[verifier::external_body]
pub(crate) fn big_add(a: &num_bigint::BigInt, b: &num_bigint::BigInt) -> (r: num_bigint::BigInt)
    ensures
        big_view(r) == big_view(*a) + big_view(*b),
{
    a + b
}

/// Relies on `&BigInt - &BigInt`: exact subtraction.
#[verifier::external_body]
pub(crate) fn big_sub(a: &num_bigint::BigInt, b: &num_bigint::BigInt) -> (r: num_bigint::BigInt)
    ensures
        big_view(r) == big_view(*a) - big_view(*b),
{
    a - b
}

/// Relies on `&BigInt * &BigInt`: exact multiplication.
#[verifier::external_body]
pub(crate) fn big_mul(a: &num_bigint::BigInt, b: &num_bigint::BigInt) -> (r: num_bigint::BigInt)
    ensures
        big_view(r) == big_view(*a) * big_view(*b),
{
    a * b
}

/// Relies on `-&BigInt`: exact negation.
#[verifier::external_body]
pub(crate) fn big_neg(a: &num_bigint::BigInt) -> (r: num_bigint::BigInt)
    ensures
        big_view(r) == -big_view(*a),
{
    -a
}

/// Relies on `num_integer::Integer::div_mod_floor` for `BigInt`: floored
/// division, so for a positive divisor the remainder lies in `[0, d)`.
/// Panics on a zero divisor, which the precondition rules out.
#[verifier::external_body]
pub(crate) fn big_div_mod_floor(a: &num_bigint::BigInt, d: &num_bigint::BigInt) -> (r: (
    num_bigint::BigInt,
    num_bigint::BigInt,
))
    requires
        big_view(*d) > 0,
    ensures
        big_view(*a) == big_view(r.0) * big_view(*d) + big_view(r.1),
        0 <= big_view(r.1) < big_view(*d),
{
    num_integer::Integer::div_mod_floor(a, d)
}

/// Relies on `&BigInt % &BigInt`: a remainder of truncated division, whose
/// sign follows the dividend. Nothing more is assumed of its sign on
/// negative dividends; callers must normalize the result themselves.
/// Panics on a zero divisor, which the precondition rules out.
#[verifier::external_body]
pub(crate) fn big_rem_trunc(a: &num_bigint::BigInt, m: &num_bigint::BigInt) -> (r:
    num_bigint::BigInt)
    requires
        big_view(*m) > 0,
    ensures
        big_view(r) % big_view(*m) == big_view(*a) % big_view(*m),
        -big_view(*m) < big_view(r) < big_view(*m),
        big_view(*a) >= 0 ==> big_view(r) >= 0,
{
    a % m
}

/// Relies on `num_integer::Integer::gcd` for `BigInt`: the greatest common
/// divisor, which "is always non-negative".
#[verifier::external_body]
pub(crate) fn big_gcd(a: &num_bigint::BigInt, b: &num_bigint::BigInt) -> (r: num_bigint::BigInt)
    ensures
        big_view(r) == gcd_int(big_view(*a), big_view(*b)),
{
    num_integer::Integer::gcd(a, b)
}

/// Relies on `num_traits::ToPrimitive::to_u64`: exact when the value fits,
/// which the precondition guarantees.
#[verifier::external_body]
pub(crate) fn big_to_u64(a: &num_bigint::BigInt) -> (r: u64)
    requires
        0 <= big_view(*a) <= u64::MAX,
    ensures
        r as int == big_view(*a),
{
    num_traits::ToPrimitive::to_u64(a).unwrap()
}

/// Relies on `num_traits::ToPrimitive::to_i64`. The wrapper saturates out of
/// range, and its contract promises an exact result only for values that fit
/// an `i64`; callers must re-widen and compare rather than trust the rest.
#[verifier::external_body]
pub(crate) fn big_to_i64_lossy(a: &num_bigint::BigInt) -> (r: i64)
    ensures
        i64::MIN <= big_view(*a) <= i64::MAX ==> r as int == big_view(*a),
{
    num_traits::ToPrimitive::to_i64(a).unwrap_or(i64::MAX)
}

/// Relies on `num_rational::BigRational::new` and `into_raw`: `new` panics on
/// a zero denominator (ruled out here) and otherwise "puts self into lowest
/// terms, with `denom` > 0" by dividing both parts by their gcd and moving
/// the sign to the numerator.
#[verifier::external_body]
pub(crate) fn rat_reduce(n: num_bigint::BigInt, d: num_bigint::BigInt) -> (r: (
    num_bigint::BigInt,
    num_bigint::BigInt,
))
    requires
        big_view(d) != 0,
    ensures
        big_view(r.0) == reduced_num(big_view(n), big_view(d)),
        big_view(r.1) == reduced_den(big_view(n), big_view(d)),
        big_view(r.1) > 0,
        gcd_int(big_view(r.0), big_view(r.1)) == 1,
        big_view(r.0) * big_view(d) == big_view(n) * big_view(r.1),
{
    let (rn, rd) = num_rational::BigRational::new(n, d).into_raw();
    (rn, rd)
}

/// Relies on `Rc::clone`: the copy points to the same allocation, so it
/// holds the same value; only a reference count changes.
#[verifier::external_body]
pub(crate) fn rc_clone_big(r: &std::rc::Rc<num_bigint::BigInt>) -> (o: std::rc::Rc<
    num_bigint::BigInt,
>)
    ensures
        o == *r,
{
    std::rc::Rc::clone(r)
}

/// Relies on `String: FromIterator<char>`: collecting chars in order.
#[verifier::external_body]
pub(crate) fn chars_to_string(v: &Vec<char>) -> (r: String)
    ensures
        r@ == v@,
{
    v.iter().collect()
}

} // verus!
