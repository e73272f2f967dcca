use vstd::arithmetic::div_mod::lemma_mod_bound;
use vstd::math::abs;
use vstd::prelude::*;

verus! {

/// The greatest common divisor of two natural numbers, by Euclid's rule,
/// with `gcd_nat(a, 0) == a`.
pub open spec fn gcd_nat(a: nat, b: nat) -> nat
    decreases b,
    via gcd_nat_decreases
{
    if b == 0 {
        a
    } else {
        gcd_nat(b, a % b)
    }
}

#[via_fn]
proof fn gcd_nat_decreases(a: nat, b: nat) {
    if b != 0 {
        lemma_mod_bound(a as int, b as int);
    }
}

/// The greatest common divisor of two integers: the non-negative
/// divisor of both magnitudes, with `gcd_int(a, 0) == abs(a)`.
pub open spec fn gcd_int(a: int, b: int) -> int {
    gcd_nat(abs(a) as nat, abs(b) as nat) as int
}

/// The numerator of the fraction `n / d` brought to lowest terms with a
/// positive denominator.
pub open spec fn reduced_num(n: int, d: int) -> int
    recommends
        d != 0,
{
    (if d < 0 {
        -n
    } else {
        n
    }) / gcd_int(n, d)
}

/// The denominator of the fraction `n / d` brought to lowest terms with a
/// positive denominator.
pub open spec fn reduced_den(n: int, d: int) -> int
    recommends
        d != 0,
{
    (abs(d) as int) / gcd_int(n, d)
}

/// The least common multiple of two integers, non-negative, with
/// `lcm_int(a, 0) == 0`.
pub open spec fn lcm_int(a: int, b: int) -> int {
    if a == 0 || b == 0 {
        0
    } else {
        (abs(a * b) as int) / gcd_int(a, b)
    }
}

/// A gcd with a non-zero argument is at least one.
pub proof fn lemma_gcd_pos(a: nat, b: nat)
    requires
        a != 0 || b != 0,
    ensures
        gcd_nat(a, b) >= 1,
    decreases b,
{
    if b == 0 {
    } else {
        lemma_mod_bound(a as int, b as int);
        lemma_gcd_pos(b, a % b);
    }
}

} // verus!
