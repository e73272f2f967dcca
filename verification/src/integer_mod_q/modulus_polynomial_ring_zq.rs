//! [`ModulusPolynomialRingZq`] is the shared context object describing a
//! ring modulus: a positive prime modulus `q` together with a polynomial
//! whose coefficients are reduced modulo `q`.
//!
//! Like [`Modulus`](crate::integer_mod_q::modulus::Modulus) it is immutable
//! once constructed and shared by reference count among the ring elements
//! built from it.
use crate::error::MathError;
use crate::integer::poly_over_z::poly_z_text_coeffs;
use crate::integer::poly_over_z::trim_seq;
use crate::integer::poly_over_z::trimmed;
use crate::integer::poly_over_z::valid_poly_z_text;
use crate::integer::poly_over_z::z_seq_views;
use crate::integer::poly_over_z::PolyOverZ;
use crate::integer::z::Z;
use crate::integer_mod_q::modulus::Modulus;
use crate::integer_mod_q::zq::reduce_big;
use crate::text::find_first;
use crate::text::first_pos;
use crate::text::lemma_first_pos_bounds;
use crate::text::int_text_value;
use crate::text::valid_int_text;
use vstd::arithmetic::div_mod::lemma_mod_bound;
use vstd::prelude::*;

verus! {

/// The coefficients reduced into `[0, q)`.
pub open spec fn reduce_coeffs(c: Seq<int>, q: int) -> Seq<int> {
    Seq::new(c.len(), |i: int| c[i] % q)
}

/// A text of the shape `"<polynomial> mod <positive modulus>"`.
pub open spec fn ring_modulus_text_shape(s: Seq<char>) -> bool {
    let p = first_pos(s, 'm');
    &&& p >= 1
    &&& p + 4 <= s.len()
    &&& s.subrange(p - 1, p + 4) == seq![' ', 'm', 'o', 'd', ' ']
    &&& valid_poly_z_text(s.take(p - 1))
    &&& valid_int_text(s.skip(p + 4), 10)
    &&& int_text_value(s.skip(p + 4), 10) > 0
}

/// A well-formed ring-modulus text: the shape above, such that the
/// polynomial still has degree at least one once its coefficients are
/// reduced.
pub open spec fn valid_ring_modulus_text(s: Seq<char>) -> bool {
    ring_modulus_text_shape(s) && ring_modulus_text_coeffs(s).len() >= 2
}

/// The reduced, trimmed coefficients a ring-modulus text denotes.
pub open spec fn ring_modulus_text_coeffs(s: Seq<char>) -> Seq<int> {
    let p = first_pos(s, 'm');
    trim_seq(
        reduce_coeffs(
            trim_seq(poly_z_text_coeffs(s.take(p - 1))),
            int_text_value(s.skip(p + 4), 10),
        ),
    )
}

/// The modulus a ring-modulus text names.
pub open spec fn ring_modulus_text_q(s: Seq<char>) -> int {
    int_text_value(s.skip(first_pos(s, 'm') + 4), 10)
}

/// The shared context object for polynomial rings: the modulus `q` and the
/// reduced ring polynomial.
#[derive(Debug)]
pub struct ModulusPolynomialRingZq {
    pub(crate) q: Modulus,
    pub(crate) poly: PolyOverZ,
}

impl View for ModulusPolynomialRingZq {
    type V = (Seq<int>, int);

    closed spec fn view(&self) -> (Seq<int>, int) {
        (self.poly@, self.q@)
    }
}

/// The invariant of a ring modulus: a positive modulus and a trimmed
/// polynomial of degree at least one whose coefficients lie in `[0, q)`.
pub open spec fn ring_modulus_wf(v: (Seq<int>, int)) -> bool {
    &&& v.1 > 0
    &&& v.0.len() >= 2
    &&& trimmed(v.0)
    &&& forall|i: int| 0 <= i < v.0.len() ==> 0 <= #[trigger] v.0[i] < v.1
}

impl Clone for ModulusPolynomialRingZq {
    /// Shares the modulus context and deep-copies the polynomial; the copy
    /// denotes the same ring modulus.
    fn clone(&self) -> (r: ModulusPolynomialRingZq)
        ensures
            r@ == self@,
    {
        ModulusPolynomialRingZq { q: self.q.clone(), poly: self.poly.clone() }
    }
}

impl PartialEq for ModulusPolynomialRingZq {
    /// Two ring moduli are equal exactly when modulus value and polynomial
    /// are; identity of the shared context plays no part.
    fn eq(&self, other: &ModulusPolynomialRingZq) -> (r: bool) {
        self.q == other.q && self.poly == other.poly
    }
}

impl vstd::std_specs::cmp::PartialEqSpecImpl for ModulusPolynomialRingZq {
    open spec fn obeys_eq_spec() -> bool {
        true
    }

    open spec fn eq_spec(&self, other: &ModulusPolynomialRingZq) -> bool {
        self@ == other@
    }
}

impl ModulusPolynomialRingZq {
    /// Creates a ring modulus from a text of the form
    /// `"<count>  <c0> <c1> ... mod <q>"`, reducing every coefficient into
    /// `[0, q)` and trimming.
    ///
    /// Returns [`MathError::MalformedInput`] exactly when the text does not
    /// match the grammar with a positive modulus, and
    /// [`MathError::InvalidModulus`] exactly when it does but the reduced
    /// polynomial is degenerate, i.e. of degree less than one.
    pub fn from_str(s: &str) -> (r: Result<ModulusPolynomialRingZq, MathError>)
        ensures
            r is Ok <==> valid_ring_modulus_text(s@),
            r is Ok ==> r->Ok_0@ == (ring_modulus_text_coeffs(s@), ring_modulus_text_q(s@))
                && ring_modulus_wf(r->Ok_0@),
            !ring_modulus_text_shape(s@) ==> r == Err::<ModulusPolynomialRingZq, MathError>(
                MathError::MalformedInput,
            ),
            ring_modulus_text_shape(s@) && !valid_ring_modulus_text(s@) ==> r == Err::<
                ModulusPolynomialRingZq,
                MathError,
            >(MathError::InvalidModulus),
    {
        let n: usize = s.unicode_len();
        let p: usize = find_first(s, 'm');
        if p < 1 || n < 4 || p > n - 4 {
            proof {
                lemma_first_pos_bounds(s@, 'm');
            }
            return Err(MathError::MalformedInput);
        }
        if s.get_char(p - 1) != ' ' || s.get_char(p + 1) != 'o' || s.get_char(p + 2) != 'd'
            || s.get_char(p + 3) != ' ' {
            proof {
                if valid_ring_modulus_text(s@) {
                    assert(s@.subrange(p - 1, p + 4)[0] == ' ');
                    assert(s@.subrange(p - 1, p + 4)[2] == 'o');
                    assert(s@.subrange(p - 1, p + 4)[3] == 'd');
                    assert(s@.subrange(p - 1, p + 4)[4] == ' ');
                }
            }
            return Err(MathError::MalformedInput);
        }
        proof {
            lemma_first_pos_bounds(s@, 'm');
            assert(s@[p as int] == 'm');
            assert(s@.subrange(p - 1, p + 4) =~= seq![' ', 'm', 'o', 'd', ' ']);
        }
        let poly_part = s.substring_char(0, p - 1);
        let q_part = s.substring_char(p + 4, n);
        proof {
            assert(poly_part@ == s@.take(p - 1));
            assert(q_part@ == s@.skip(p + 4));
        }
        let raw_poly = match PolyOverZ::from_str(poly_part) {
            Ok(v) => v,
            Err(_) => {
                return Err(MathError::MalformedInput);
            },
        };
        let q = match Modulus::from_str(q_part) {
            Ok(v) => v,
            Err(_) => {
                return Err(MathError::MalformedInput);
            },
        };
        let ghost qm = q@;
        let mut reduced: Vec<Z> = Vec::new();
        let mut i: usize = 0;
        let raw_coeffs = raw_poly.into_coeffs();
        while i < raw_coeffs.len()
            invariant
                qm == q@,
                qm > 0,
                i <= raw_coeffs@.len(),
                reduced@.len() == i,
                forall|k: int| 0 <= k < i ==> z_seq_views(reduced@)[k] == z_seq_views(raw_coeffs@)[k]
                    % qm,
            decreases raw_coeffs@.len() - i,
        {
            let ghost prev = reduced@;
            let rep = reduce_big(raw_coeffs[i].as_big(), q.as_big());
            reduced.push(Z::from_big(rep));
            i += 1;
            proof {
                assert forall|k: int| 0 <= k < i implies z_seq_views(reduced@)[k] == z_seq_views(
                    raw_coeffs@,
                )[k] % qm by {
                    if k < i - 1 {
                        assert(reduced@[k] == prev[k]);
                        assert(z_seq_views(prev)[k] == z_seq_views(raw_coeffs@)[k] % qm);
                    }
                }
            }
        }
        proof {
            assert(z_seq_views(reduced@) =~= reduce_coeffs(z_seq_views(raw_coeffs@), qm));
        }
        let mut poly = PolyOverZ::from_coeffs(reduced);
        if poly.coeff_len() < 2 {
            return Err(MathError::InvalidModulus);
        }
        proof {
            crate::integer::poly_over_z::lemma_trim_seq(
                reduce_coeffs(z_seq_views(raw_coeffs@), qm),
            );
            assert forall|k: int| 0 <= k < poly@.len() implies 0 <= #[trigger] poly@[k] < qm by {
                assert(poly@[k] == reduce_coeffs(z_seq_views(raw_coeffs@), qm)[k]);
                lemma_mod_bound(z_seq_views(raw_coeffs@)[k], qm);
            }
        }
        Ok(ModulusPolynomialRingZq { q, poly })
    }

    /// The modulus `q` of the ring, as a fresh integer.
    pub fn get_q(&self) -> (r: Z)
        ensures
            r@ == self@.1,
    {
        Z::from_modulus(self.q.clone())
    }

    /// The reduced ring polynomial, as a fresh value.
    pub fn get_poly(&self) -> (r: PolyOverZ)
        ensures
            r@ == self@.0,
    {
        self.poly.clone()
    }
}

} // verus!
