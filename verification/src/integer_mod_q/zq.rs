//! [`Zq`] is an integer residue modulo a shared [`Modulus`], kept as the
//! canonical representative in `[0, modulus)`.
//!
//! Reduction is re-applied on every construction and every arithmetic
//! result; it never assumes the reduction primitive of the engine already
//! normalized the sign of its remainder.
use crate::engine::big_add;
use crate::engine::big_from_i64;
use crate::engine::big_mul;
use crate::engine::big_rem_trunc;
use crate::engine::big_sub;
use crate::engine::big_view;
use crate::error::MathError;
use crate::integer::z::Z;
use crate::integer_mod_q::modulus::modulus_wf;
use crate::integer_mod_q::modulus::Modulus;
use crate::text::find_first;
use crate::text::first_pos;
use crate::text::format_int_chars;
use crate::text::int_text;
use crate::text::int_text_value;
use crate::text::parse_int_str;
use crate::text::push_chars;
use crate::text::valid_int_text;
use crate::traits::Pow;
use vstd::arithmetic::div_mod::lemma_mod_add_multiples_vanish;
use vstd::arithmetic::div_mod::lemma_mod_bound;
use vstd::arithmetic::div_mod::lemma_mod_twice;
use vstd::arithmetic::div_mod::lemma_mul_mod_noop;
use vstd::arithmetic::div_mod::lemma_small_mod;
use vstd::arithmetic::power::pow;
use vstd::prelude::*;

verus! {

/// The canonical text of a residue: `<representative> mod <modulus>`.
pub open spec fn zq_text(v: int, m: int) -> Seq<char> {
    int_text(v, 10) + seq![' ', 'm', 'o', 'd', ' '] + int_text(m, 10)
}

/// A well-formed residue text: a decimal numeral, the separator ` mod `,
/// and a decimal numeral denoting a positive modulus.
pub open spec fn valid_zq_text(s: Seq<char>) -> bool {
    let p = first_pos(s, ' ');
    p + 5 <= s.len() && valid_int_text(s.take(p), 10) && s.subrange(p, p + 5) == seq![
        ' ',
        'm',
        'o',
        'd',
        ' ',
    ] && valid_int_text(s.skip(p + 5), 10) && int_text_value(s.skip(p + 5), 10) > 0
}

/// The value part a residue text denotes, before reduction.
pub open spec fn zq_text_value(s: Seq<char>) -> int {
    int_text_value(s.take(first_pos(s, ' ')), 10)
}

/// The modulus part a residue text denotes.
pub open spec fn zq_text_modulus(s: Seq<char>) -> int {
    int_text_value(s.skip(first_pos(s, ' ') + 5), 10)
}

/// An integer residue with a shared reference to its modulus context, in
/// canonical form.
#[derive(Debug)]
pub struct Zq {
    pub(crate) value: Z,
    pub(crate) modulus: Modulus,
}

impl View for Zq {
    type V = (int, int);

    closed spec fn view(&self) -> (int, int) {
        (self.value@, self.modulus@)
    }
}

/// The canonical-form invariant of [`Zq`]: the modulus is positive and the
/// representative lies in `[0, modulus)`.
pub open spec fn zq_wf(v: (int, int)) -> bool {
    v.1 > 0 && 0 <= v.0 < v.1
}

impl Clone for Zq {
    /// Deep-copies the representative and shares the modulus context.
    fn clone(&self) -> (r: Zq)
        ensures
            r@ == self@,
    {
        Zq { value: self.value.clone(), modulus: self.modulus.clone() }
    }
}

impl PartialEq for Zq {
    /// Two canonical residues are equal exactly when representative and
    /// modulus value are.
    fn eq(&self, other: &Zq) -> (r: bool) {
        self.value == other.value && self.modulus == other.modulus
    }
}

impl vstd::std_specs::cmp::PartialEqSpecImpl for Zq {
    open spec fn obeys_eq_spec() -> bool {
        true
    }

    open spec fn eq_spec(&self, other: &Zq) -> bool {
        self@ == other@
    }
}

/// Reduces any value to its canonical representative in `[0, m)`, as
/// `((v mod m) + m) mod m`, which is correct whatever sign the reduction
/// primitive gives its remainder on negative input.
pub(crate) fn reduce_big(v: &num_bigint::BigInt, m: &num_bigint::BigInt) -> (r: num_bigint::BigInt)
    requires
        big_view(*m) > 0,
    ensures
        big_view(r) == big_view(*v) % big_view(*m),
        0 <= big_view(r) < big_view(*m),
{
    let first = big_rem_trunc(v, m);
    let shifted = big_add(&first, m);
    let second = big_rem_trunc(&shifted, m);
    proof {
        let mv = big_view(*m);
        let vv = big_view(*v);
        let f = big_view(first);
        let sh = big_view(shifted);
        let out = big_view(second);
        lemma_mod_add_multiples_vanish(f, mv);
        assert(sh % mv == f % mv);
        lemma_small_mod(out as nat, mv as nat);
        lemma_mod_bound(vv, mv);
    }
    second
}

impl Zq {
    /// Builds the canonical residue of `value` under the given modulus
    /// context. The representative always satisfies
    /// `0 <= representative < modulus` and is congruent to `value`.
    pub fn from_z_modulus(value: &Z, modulus: Modulus) -> (r: Zq)
        requires
            modulus_wf(modulus@),
        ensures
            r@.0 == value@ % modulus@,
            r@.1 == modulus@,
            zq_wf(r@),
    {
        let reduced_rep = reduce_big(value.as_big(), modulus.as_big());
        proof {
            lemma_mod_bound(value@, modulus@);
        }
        Zq { value: Z::from_big(reduced_rep), modulus }
    }

    /// Moves the representative out as a plain integer.
    pub(crate) fn into_z(self) -> (r: Z)
        ensures
            r@ == self@.0,
    {
        self.value
    }

    /// Builds the canonical residue of `pair.0` modulo `pair.1`.
    ///
    /// Returns [`MathError::InvalidModulus`] exactly when the modulus is
    /// zero.
    pub fn try_from(pair: (i64, u64)) -> (r: Result<Zq, MathError>)
        ensures
            pair.1 == 0 ==> r == Err::<Zq, MathError>(MathError::InvalidModulus),
            pair.1 > 0 ==> r is Ok && r->Ok_0@ == ((pair.0 as int) % (pair.1 as int), pair.1 as int)
                && zq_wf(r->Ok_0@),
    {
        let modulus = match Modulus::from_u64(pair.1) {
            Ok(m) => m,
            Err(e) => {
                return Err(e);
            },
        };
        let value = Z::from_i64(pair.0);
        Ok(Zq::from_z_modulus(&value, modulus))
    }

    /// Creates the canonical residue a text of the form
    /// `<value> mod <modulus>` denotes; the value is reduced into
    /// `[0, modulus)`.
    ///
    /// Returns [`MathError::MalformedInput`] exactly when the text does not
    /// match the grammar with a positive modulus.
    pub fn from_str(s: &str) -> (r: Result<Zq, MathError>)
        ensures
            r is Ok <==> valid_zq_text(s@),
            r is Ok ==> r->Ok_0@ == (
                zq_text_value(s@) % zq_text_modulus(s@),
                zq_text_modulus(s@),
            ) && zq_wf(r->Ok_0@),
            r is Err ==> r == Err::<Zq, MathError>(MathError::MalformedInput),
    {
        let n: usize = s.unicode_len();
        let p: usize = find_first(s, ' ');
        if n < 5 || p > n - 5 {
            return Err(MathError::MalformedInput);
        }
        if s.get_char(p + 1) != 'm' || s.get_char(p + 2) != 'o' || s.get_char(p + 3) != 'd'
            || s.get_char(p + 4) != ' ' {
            proof {
                if valid_zq_text(s@) {
                    assert(s@.subrange(p as int, p + 5)[1] == 'm');
                    assert(s@.subrange(p as int, p + 5)[2] == 'o');
                    assert(s@.subrange(p as int, p + 5)[3] == 'd');
                    assert(s@.subrange(p as int, p + 5)[4] == ' ');
                }
            }
            return Err(MathError::MalformedInput);
        }
        proof {
            crate::text::lemma_first_pos_bounds(s@, ' ');
            assert(s@.subrange(p as int, p + 5) =~= seq![' ', 'm', 'o', 'd', ' ']);
        }
        let value_part = s.substring_char(0, p);
        let modulus_part = s.substring_char(p + 5, n);
        proof {
            assert(value_part@ == s@.take(p as int));
            assert(modulus_part@ == s@.skip(p + 5));
        }
        let value = match parse_int_str(value_part, 10) {
            Some(v) => v,
            None => {
                return Err(MathError::MalformedInput);
            },
        };
        let modulus = match Modulus::from_str(modulus_part) {
            Ok(m) => m,
            Err(_) => {
                return Err(MathError::MalformedInput);
            },
        };
        Ok(Zq::from_z_modulus(&Z::from_big(value), modulus))
    }

    /// Renders the canonical text `<representative> mod <modulus>`.
    pub fn to_string(&self) -> (r: String)
        ensures
            r@ == zq_text(self@.0, self@.1),
    {
        let mut out = format_int_chars(self.value.as_big(), 10);
        out.push(' ');
        out.push('m');
        out.push('o');
        out.push('d');
        out.push(' ');
        let m_chars = format_int_chars(self.modulus.as_big(), 10);
        push_chars(&mut out, &m_chars);
        proof {
            assert(out@ =~= zq_text(self@.0, self@.1));
        }
        crate::engine::chars_to_string(&out)
    }

    /// The canonical sum of two residues under one modulus.
    ///
    /// Returns [`MathError::ModulusMismatch`] exactly when the moduli have
    /// unequal values; never fails otherwise.
    pub fn try_add(&self, other: &Zq) -> (r: Result<Zq, MathError>)
        requires
            zq_wf(self@),
            zq_wf(other@),
        ensures
            self@.1 != other@.1 ==> r == Err::<Zq, MathError>(MathError::ModulusMismatch),
            self@.1 == other@.1 ==> r is Ok && r->Ok_0@ == (
                (self@.0 + other@.0) % self@.1,
                self@.1,
            ) && zq_wf(r->Ok_0@),
    {
        if !(self.modulus == other.modulus) {
            return Err(MathError::ModulusMismatch);
        }
        let raw = big_add(self.value.as_big(), other.value.as_big());
        let reduced_rep = reduce_big(&raw, self.modulus.as_big());
        proof {
            lemma_mod_bound((self@.0 + other@.0) as int, self@.1);
        }
        Ok(Zq { value: Z::from_big(reduced_rep), modulus: self.modulus.clone() })
    }

    /// The canonical difference of two residues under one modulus.
    ///
    /// Returns [`MathError::ModulusMismatch`] exactly when the moduli have
    /// unequal values; never fails otherwise.
    pub fn try_sub(&self, other: &Zq) -> (r: Result<Zq, MathError>)
        requires
            zq_wf(self@),
            zq_wf(other@),
        ensures
            self@.1 != other@.1 ==> r == Err::<Zq, MathError>(MathError::ModulusMismatch),
            self@.1 == other@.1 ==> r is Ok && r->Ok_0@ == (
                (self@.0 - other@.0) % self@.1,
                self@.1,
            ) && zq_wf(r->Ok_0@),
    {
        if !(self.modulus == other.modulus) {
            return Err(MathError::ModulusMismatch);
        }
        let raw = big_sub(self.value.as_big(), other.value.as_big());
        let reduced_rep = reduce_big(&raw, self.modulus.as_big());
        proof {
            lemma_mod_bound((self@.0 - other@.0) as int, self@.1);
        }
        Ok(Zq { value: Z::from_big(reduced_rep), modulus: self.modulus.clone() })
    }

    /// The canonical product of two residues under one modulus.
    ///
    /// Returns [`MathError::ModulusMismatch`] exactly when the moduli have
    /// unequal values; never fails otherwise.
    pub fn try_mul(&self, other: &Zq) -> (r: Result<Zq, MathError>)
        requires
            zq_wf(self@),
            zq_wf(other@),
        ensures
            self@.1 != other@.1 ==> r == Err::<Zq, MathError>(MathError::ModulusMismatch),
            self@.1 == other@.1 ==> r is Ok && r->Ok_0@ == (
                (self@.0 * other@.0) % self@.1,
                self@.1,
            ) && zq_wf(r->Ok_0@),
    {
        if !(self.modulus == other.modulus) {
            return Err(MathError::ModulusMismatch);
        }
        let raw = big_mul(self.value.as_big(), other.value.as_big());
        let reduced_rep = reduce_big(&raw, self.modulus.as_big());
        proof {
            lemma_mod_bound((self@.0 * other@.0) as int, self@.1);
        }
        Ok(Zq { value: Z::from_big(reduced_rep), modulus: self.modulus.clone() })
    }
}

impl Pow<u64> for Zq {
    type Output = Zq;

    open spec fn pow_req(&self, exp: u64) -> bool {
        zq_wf(self@)
    }

    /// Raises the residue to the given power by repeated reduced
    /// multiplication; always succeeds.
    fn pow(&self, exp: u64) -> (r: Result<Zq, MathError>)
        ensures
            r is Ok && r->Ok_0@ == (pow(self@.0, exp as nat) % self@.1, self@.1) && zq_wf(
                r->Ok_0@,
            ),
    {
        let m = self.modulus.as_big();
        let one = big_from_i64(1);
        let mut acc = reduce_big(&one, m);
        let mut i: u64 = 0;
        proof {
            assert(pow(self@.0, 0) == 1) by {
                vstd::arithmetic::power::lemma_pow0(self@.0);
            }
        }
        while i < exp
            invariant
                zq_wf(self@),
                i <= exp,
                big_view(*m) == self@.1,
                big_view(acc) == pow(self@.0, i as nat) % self@.1,
                0 <= big_view(acc) < self@.1,
            decreases exp - i,
        {
            let raw = big_mul(&acc, self.value.as_big());
            acc = reduce_big(&raw, m);
            proof {
                let b = self@.0;
                let mv = self@.1;
                lemma_mul_mod_noop(pow(b, i as nat), b, mv);
                assert(pow(b, (i + 1) as nat) == pow(b, i as nat) * b) by {
                    vstd::arithmetic::power::lemma_pow1(b);
                    vstd::arithmetic::power::lemma_pow_adds(b, i as nat, 1nat);
                }
                lemma_small_mod(b as nat, mv as nat);
                lemma_mod_twice(pow(b, i as nat) * b, mv);
            }
            i += 1;
        }
        proof {
            lemma_mod_bound(pow(self@.0, exp as nat), self@.1);
        }
        Ok(Zq { value: Z::from_big(acc), modulus: self.modulus.clone() })
    }
}

/// Canonical-form idempotence: the canonical text of a canonical residue is
/// well formed and re-parses to the same representative and modulus, so its
/// re-rendering is the identical text.
pub proof fn lemma_zq_canonical_idempotent(v: int, m: int)
    requires
        zq_wf((v, m)),
    ensures
        valid_zq_text(zq_text(v, m)),
        zq_text_value(zq_text(v, m)) % zq_text_modulus(zq_text(v, m)) == v,
        zq_text_modulus(zq_text(v, m)) == m,
{
    let t = zq_text(v, m);
    let a = int_text(v, 10);
    crate::text::lemma_int_text_round_trip(v, 10);
    crate::text::lemma_int_text_round_trip(m, 10);
    crate::text::lemma_int_text_no_char(v, 10, ' ');
    let p = a.len() as int;
    assert(t[p] == ' ');
    assert forall|k: int| 0 <= k < p implies t[k] != ' ' by {
        assert(t[k] == a[k]);
        assert(int_text(v, 10)[k] != ' ');
    }
    crate::text::lemma_first_pos_is(t, ' ', p);
    assert(t.take(p) =~= a);
    assert(t.subrange(p, p + 5) =~= seq![' ', 'm', 'o', 'd', ' ']);
    assert(t.skip(p + 5) =~= int_text(m, 10));
    assert(valid_zq_text(t));
    vstd::arithmetic::div_mod::lemma_small_mod(v as nat, m as nat);
}

} // verus!
