//! [`Q`] is a rational number of arbitrary precision in canonical form:
//! numerator and denominator in lowest terms, denominator positive.
use crate::arith::gcd_int;
use crate::arith::gcd_nat;
use crate::arith::reduced_den;
use crate::arith::reduced_num;
use crate::engine::big_clone;
use crate::engine::big_eq;
use crate::engine::big_from_i64;
use crate::engine::big_mul;
use crate::engine::big_view;
use crate::engine::chars_to_string;
use crate::engine::rat_reduce;
use crate::error::MathError;
use crate::text::digit_val;
use crate::text::find_first;
use crate::text::first_pos;
use crate::text::format_int_chars;
use crate::text::int_text;
use crate::text::int_text_value;
use crate::text::parse_int_str;
use crate::text::valid_int_text;
use vstd::prelude::*;

verus! {

/// The unreduced numerator a rational text denotes: the part before the
/// first `/`, or the whole text where there is none.
pub open spec fn q_text_num(s: Seq<char>) -> int {
    let p = first_pos(s, '/');
    if p == s.len() {
        int_text_value(s, 10)
    } else {
        int_text_value(s.take(p), 10)
    }
}

/// The unreduced denominator a rational text denotes; `1` where the text
/// has no `/`.
pub open spec fn q_text_den(s: Seq<char>) -> int {
    let p = first_pos(s, '/');
    if p == s.len() {
        1
    } else {
        int_text_value(s.skip(p + 1), 10)
    }
}

/// A well-formed rational text: a decimal numeral, or two decimal numerals
/// joined by a single `/`.
pub open spec fn valid_q_text(s: Seq<char>) -> bool {
    let p = first_pos(s, '/');
    if p == s.len() {
        valid_int_text(s, 10)
    } else {
        valid_int_text(s.take(p), 10) && valid_int_text(s.skip(p + 1), 10)
    }
}

/// The canonical fraction equal to `n / d`: lowest terms, positive
/// denominator.
pub open spec fn reduced(n: int, d: int) -> (int, int) {
    (reduced_num(n, d), reduced_den(n, d))
}

/// The canonical text of the fraction `n / d`: the numerator alone where
/// the denominator is one.
pub open spec fn q_text(n: int, d: int) -> Seq<char> {
    if d == 1 {
        int_text(n, 10)
    } else {
        int_text(n, 10) + seq!['/'] + int_text(d, 10)
    }
}

/// A rational number in canonical form, owning its storage exclusively.
#[derive(Debug)]
pub struct Q {
    pub(crate) num: num_bigint::BigInt,
    pub(crate) den: num_bigint::BigInt,
}

impl View for Q {
    type V = (int, int);

    closed spec fn view(&self) -> (int, int) {
        (big_view(self.num), big_view(self.den))
    }
}

/// The canonical-form invariant of [`Q`]: the denominator is positive and
/// the fraction is in lowest terms. Every constructor establishes it and
/// every operation keeps it.
pub open spec fn q_wf(v: (int, int)) -> bool {
    v.1 > 0 && gcd_int(v.0, v.1) == 1
}

impl Clone for Q {
    /// Deep-copies the underlying storage; the copy denotes the same value.
    fn clone(&self) -> (r: Q)
        ensures
            r@ == self@,
    {
        Q { num: big_clone(&self.num), den: big_clone(&self.den) }
    }
}

impl PartialEq for Q {
    /// Two canonical rationals are equal exactly when their parts are.
    fn eq(&self, other: &Q) -> (r: bool) {
        big_eq(&self.num, &other.num) && big_eq(&self.den, &other.den)
    }
}

impl vstd::std_specs::cmp::PartialEqSpecImpl for Q {
    open spec fn obeys_eq_spec() -> bool {
        true
    }

    open spec fn eq_spec(&self, other: &Q) -> bool {
        self@ == other@
    }
}

impl Default for Q {
    /// Returns the rational zero, canonically `0/1`.
    fn default() -> (r: Q)
        ensures
            r@ == (0int, 1int),
            q_wf(r@),
    {
        proof {
            lemma_gcd_one_one();
        }
        Q { num: big_from_i64(0), den: big_from_i64(1) }
    }
}

/// Any integer and one are coprime.
proof fn lemma_gcd_one_one()
    ensures
        forall|n: int| #[trigger] gcd_int(n, 1) == 1,
{
    assert forall|n: int| #[trigger] gcd_int(n, 1) == 1 by {
        let a = vstd::math::abs(n);
        assert(gcd_nat(a, 1) == gcd_nat(1, a % 1));
        assert(a % 1 == 0) by {
            vstd::arithmetic::div_mod::lemma_mod_bound(a as int, 1);
        }
        assert(gcd_nat(1, 0) == 1);
    }
}

impl Q {
    /// Brings the fraction `n / d` to canonical form as a [`Q`].
    pub(crate) fn from_big_pair(n: num_bigint::BigInt, d: num_bigint::BigInt) -> (r: Q)
        requires
            big_view(d) != 0,
        ensures
            r@ == reduced(big_view(n), big_view(d)),
            q_wf(r@),
    {
        let nd = rat_reduce(n, d);
        Q { num: nd.0, den: nd.1 }
    }

    /// The rational zero, canonically `0/1`.
    pub fn zero() -> (r: Q)
        ensures
            r@ == (0int, 1int),
            q_wf(r@),
    {
        Q::default()
    }

    /// The rational one, canonically `1/1`.
    pub fn one() -> (r: Q)
        ensures
            r@ == (1int, 1int),
            q_wf(r@),
    {
        proof {
            lemma_gcd_one_one();
        }
        Q { num: big_from_i64(1), den: big_from_i64(1) }
    }

    /// The rational minus one, canonically `-1/1`.
    pub fn minus_one() -> (r: Q)
        ensures
            r@ == (-1int, 1int),
            q_wf(r@),
    {
        proof {
            lemma_gcd_one_one();
        }
        Q { num: big_from_i64(-1), den: big_from_i64(1) }
    }

    /// Creates the canonical rational equal to `numerator / denominator`.
    ///
    /// Returns [`MathError::RangeError`] exactly when the denominator is
    /// zero.
    pub fn try_from(pair: (&i64, &i64)) -> (r: Result<Q, MathError>)
        ensures
            *pair.1 == 0 ==> r == Err::<Q, MathError>(MathError::RangeError),
            *pair.1 != 0 ==> r is Ok && r->Ok_0@ == reduced(*pair.0 as int, *pair.1 as int)
                && q_wf(r->Ok_0@),
    {
        if *pair.1 == 0 {
            return Err(MathError::RangeError);
        }
        Ok(Q::from_big_pair(big_from_i64(*pair.0), big_from_i64(*pair.1)))
    }

    /// Creates the canonical rational a text denotes: a decimal numeral, or
    /// `<numerator>/<denominator>` with decimal numerals.
    ///
    /// Returns [`MathError::MalformedInput`] exactly when the text does not
    /// match that grammar or its denominator is zero.
    pub fn from_str(s: &str) -> (r: Result<Q, MathError>)
        ensures
            r is Ok <==> valid_q_text(s@) && q_text_den(s@) != 0,
            r is Ok ==> r->Ok_0@ == reduced(q_text_num(s@), q_text_den(s@)) && q_wf(r->Ok_0@),
            r is Err ==> r == Err::<Q, MathError>(MathError::MalformedInput),
    {
        let n: usize = s.unicode_len();
        let p: usize = find_first(s, '/');
        if p == n {
            match parse_int_str(s, 10) {
                Some(numerator) => {
                    proof {
                        lemma_gcd_one_one();
                        assert(reduced(q_text_num(s@), 1) == (q_text_num(s@), 1int)) by {
                            lemma_reduced_of_canonical(q_text_num(s@), 1);
                        }
                    }
                    Ok(Q { num: numerator, den: big_from_i64(1) })
                },
                None => Err(MathError::MalformedInput),
            }
        } else {
            let num_part = s.substring_char(0, p);
            let den_part = s.substring_char(p + 1, n);
            proof {
                assert(num_part@ == s@.take(p as int));
                assert(den_part@ == s@.skip(p + 1));
            }
            let numerator = match parse_int_str(num_part, 10) {
                Some(v) => v,
                None => {
                    return Err(MathError::MalformedInput);
                },
            };
            let denominator = match parse_int_str(den_part, 10) {
                Some(v) => v,
                None => {
                    return Err(MathError::MalformedInput);
                },
            };
            if crate::engine::big_is_zero(&denominator) {
                return Err(MathError::MalformedInput);
            }
            Ok(Q::from_big_pair(numerator, denominator))
        }
    }

    /// Whether the rational is zero.
    pub fn is_zero(&self) -> (r: bool)
        ensures
            r == (self@.0 == 0),
    {
        crate::engine::big_is_zero(&self.num)
    }

    /// Renders the canonical text of the rational: the numerator alone for
    /// denominator one, else `<numerator>/<denominator>`.
    pub fn to_string(&self) -> (r: String)
        requires
            q_wf(self@),
        ensures
            r@ == q_text(self@.0, self@.1),
    {
        let chars = self.to_chars();
        chars_to_string(&chars)
    }

    /// The canonical text of the rational, as characters.
    pub(crate) fn to_chars(&self) -> (r: Vec<char>)
        requires
            q_wf(self@),
        ensures
            r@ == q_text(self@.0, self@.1),
    {
        let one = big_from_i64(1);
        if big_eq(&self.den, &one) {
            let chars = format_int_chars(&self.num, 10);
            chars
        } else {
            let mut chars = format_int_chars(&self.num, 10);
            chars.push('/');
            let den_chars = format_int_chars(&self.den, 10);
            let mut k: usize = 0;
            while k < den_chars.len()
                invariant
                    k <= den_chars.len(),
                    chars@ =~= int_text(self@.0, 10) + seq!['/'] + den_chars@.take(k as int),
                    den_chars@ == int_text(self@.1, 10),
                decreases den_chars.len() - k,
            {
                chars.push(den_chars[k]);
                k += 1;
                proof {
                    assert(den_chars@.take(k as int) =~= den_chars@.take(k - 1).push(
                        den_chars@[k - 1],
                    ));
                }
            }
            proof {
                assert(den_chars@.take(den_chars@.len() as int) =~= den_chars@);
            }
            chars
        }
    }
}

/// A fraction already in canonical form reduces to itself.
pub proof fn lemma_reduced_of_canonical(n: int, d: int)
    requires
        q_wf((n, d)),
    ensures
        reduced(n, d) == (n, d),
{
    assert(gcd_int(n, d) == 1);
    assert(reduced_num(n, d) == n / 1);
    assert(reduced_den(n, d) == (vstd::math::abs(d) as int) / 1);
    assert(n / 1 == n) by {
        vstd::arithmetic::div_mod::lemma_fundamental_div_mod_converse_div(n, 1, n, 0);
    }
    assert((vstd::math::abs(d) as int) == d);
    assert(d / 1 == d) by {
        vstd::arithmetic::div_mod::lemma_fundamental_div_mod_converse_div(d, 1, d, 0);
    }
}

/// The unreduced sum of two fractions.
pub open spec fn rat_add(a: (int, int), b: (int, int)) -> (int, int) {
    (a.0 * b.1 + b.0 * a.1, a.1 * b.1)
}

/// The unreduced difference of two fractions.
pub open spec fn rat_sub(a: (int, int), b: (int, int)) -> (int, int) {
    (a.0 * b.1 - b.0 * a.1, a.1 * b.1)
}

/// The unreduced product of two fractions.
pub open spec fn rat_mul(a: (int, int), b: (int, int)) -> (int, int) {
    (a.0 * b.0, a.1 * b.1)
}

/// The product of two positive denominators is positive.
proof fn lemma_den_product_pos(a: int, b: int)
    requires
        a > 0,
        b > 0,
    ensures
        a * b > 0,
{
    vstd::arithmetic::mul::lemma_mul_strictly_positive(a, b);
}

impl core::ops::Add<&Q> for &Q {
    type Output = Q;

    /// The canonical borrowed-operand form; the result is again canonical.
    fn add(self, rhs: &Q) -> (r: Q)
        ensures
            r@ == reduced(rat_add(self@, rhs@).0, rat_add(self@, rhs@).1),
            q_wf(r@),
    {
        let left = big_mul(&self.num, &rhs.den);
        let right = big_mul(&rhs.num, &self.den);
        let n = crate::engine::big_add(&left, &right);
        let d = big_mul(&self.den, &rhs.den);
        proof {
            lemma_den_product_pos(self@.1, rhs@.1);
        }
        Q::from_big_pair(n, d)
    }
}

// Each operator impl carries its contract directly on its method; the
// matching vstd extension-trait impl below only supplies the operator's
// precondition (`add_req`) and claims nothing else (`obeys_add_spec` is
// false), so callers rely on the stated `ensures` alone.
impl vstd::std_specs::ops::AddSpecImpl<&Q> for &Q {
    open spec fn obeys_add_spec() -> bool {
        false
    }

    open spec fn add_req(self, rhs: &Q) -> bool {
        q_wf(self@) && q_wf(rhs@)
    }

    open spec fn add_spec(self, rhs: &Q) -> Q {
        vstd::pervasive::arbitrary()
    }
}

impl core::ops::Add<Q> for Q {
    type Output = Q;

    /// A forwarder to the canonical borrowed-operand form.
    fn add(self, rhs: Q) -> (r: Q)
        ensures
            r@ == reduced(rat_add(self@, rhs@).0, rat_add(self@, rhs@).1),
            q_wf(r@),
    {
        (&self).add(&rhs)
    }
}

impl vstd::std_specs::ops::AddSpecImpl<Q> for Q {
    open spec fn obeys_add_spec() -> bool {
        false
    }

    open spec fn add_req(self, rhs: Q) -> bool {
        q_wf(self@) && q_wf(rhs@)
    }

    open spec fn add_spec(self, rhs: Q) -> Q {
        vstd::pervasive::arbitrary()
    }
}

impl core::ops::Add<&Q> for Q {
    type Output = Q;

    /// A forwarder to the canonical borrowed-operand form.
    fn add(self, rhs: &Q) -> (r: Q)
        ensures
            r@ == reduced(rat_add(self@, rhs@).0, rat_add(self@, rhs@).1),
            q_wf(r@),
    {
        (&self).add(rhs)
    }
}

impl vstd::std_specs::ops::AddSpecImpl<&Q> for Q {
    open spec fn obeys_add_spec() -> bool {
        false
    }

    open spec fn add_req(self, rhs: &Q) -> bool {
        q_wf(self@) && q_wf(rhs@)
    }

    open spec fn add_spec(self, rhs: &Q) -> Q {
        vstd::pervasive::arbitrary()
    }
}

impl core::ops::Add<Q> for &Q {
    type Output = Q;

    /// A forwarder to the canonical borrowed-operand form.
    fn add(self, rhs: Q) -> (r: Q)
        ensures
            r@ == reduced(rat_add(self@, rhs@).0, rat_add(self@, rhs@).1),
            q_wf(r@),
    {
        self.add(&rhs)
    }
}

impl vstd::std_specs::ops::AddSpecImpl<Q> for &Q {
    open spec fn obeys_add_spec() -> bool {
        false
    }

    open spec fn add_req(self, rhs: Q) -> bool {
        q_wf(self@) && q_wf(rhs@)
    }

    open spec fn add_spec(self, rhs: Q) -> Q {
        vstd::pervasive::arbitrary()
    }
}

impl core::ops::Sub<&Q> for &Q {
    type Output = Q;

    /// The canonical borrowed-operand form; the result is again canonical.
    fn sub(self, rhs: &Q) -> (r: Q)
        ensures
            r@ == reduced(rat_sub(self@, rhs@).0, rat_sub(self@, rhs@).1),
            q_wf(r@),
    {
        let left = big_mul(&self.num, &rhs.den);
        let right = big_mul(&rhs.num, &self.den);
        let n = crate::engine::big_sub(&left, &right);
        let d = big_mul(&self.den, &rhs.den);
        proof {
            lemma_den_product_pos(self@.1, rhs@.1);
        }
        Q::from_big_pair(n, d)
    }
}

impl vstd::std_specs::ops::SubSpecImpl<&Q> for &Q {
    open spec fn obeys_sub_spec() -> bool {
        false
    }

    open spec fn sub_req(self, rhs: &Q) -> bool {
        q_wf(self@) && q_wf(rhs@)
    }

    open spec fn sub_spec(self, rhs: &Q) -> Q {
        vstd::pervasive::arbitrary()
    }
}

impl core::ops::Sub<Q> for Q {
    type Output = Q;

    /// A forwarder to the canonical borrowed-operand form.
    fn sub(self, rhs: Q) -> (r: Q)
        ensures
            r@ == reduced(rat_sub(self@, rhs@).0, rat_sub(self@, rhs@).1),
            q_wf(r@),
    {
        (&self).sub(&rhs)
    }
}

impl vstd::std_specs::ops::SubSpecImpl<Q> for Q {
    open spec fn obeys_sub_spec() -> bool {
        false
    }

    open spec fn sub_req(self, rhs: Q) -> bool {
        q_wf(self@) && q_wf(rhs@)
    }

    open spec fn sub_spec(self, rhs: Q) -> Q {
        vstd::pervasive::arbitrary()
    }
}

impl core::ops::Sub<&Q> for Q {
    type Output = Q;

    /// A forwarder to the canonical borrowed-operand form.
    fn sub(self, rhs: &Q) -> (r: Q)
        ensures
            r@ == reduced(rat_sub(self@, rhs@).0, rat_sub(self@, rhs@).1),
            q_wf(r@),
    {
        (&self).sub(rhs)
    }
}

impl vstd::std_specs::ops::SubSpecImpl<&Q> for Q {
    open spec fn obeys_sub_spec() -> bool {
        false
    }

    open spec fn sub_req(self, rhs: &Q) -> bool {
        q_wf(self@) && q_wf(rhs@)
    }

    open spec fn sub_spec(self, rhs: &Q) -> Q {
        vstd::pervasive::arbitrary()
    }
}

impl core::ops::Sub<Q> for &Q {
    type Output = Q;

    /// A forwarder to the canonical borrowed-operand form.
    fn sub(self, rhs: Q) -> (r: Q)
        ensures
            r@ == reduced(rat_sub(self@, rhs@).0, rat_sub(self@, rhs@).1),
            q_wf(r@),
    {
        self.sub(&rhs)
    }
}

impl vstd::std_specs::ops::SubSpecImpl<Q> for &Q {
    open spec fn obeys_sub_spec() -> bool {
        false
    }

    open spec fn sub_req(self, rhs: Q) -> bool {
        q_wf(self@) && q_wf(rhs@)
    }

    open spec fn sub_spec(self, rhs: Q) -> Q {
        vstd::pervasive::arbitrary()
    }
}

impl core::ops::Mul<&Q> for &Q {
    type Output = Q;

    /// The canonical borrowed-operand form; the result is again canonical.
    fn mul(self, rhs: &Q) -> (r: Q)
        ensures
            r@ == reduced(rat_mul(self@, rhs@).0, rat_mul(self@, rhs@).1),
            q_wf(r@),
    {
        let n = big_mul(&self.num, &rhs.num);
        let d = big_mul(&self.den, &rhs.den);
        proof {
            lemma_den_product_pos(self@.1, rhs@.1);
        }
        Q::from_big_pair(n, d)
    }
}

impl vstd::std_specs::ops::MulSpecImpl<&Q> for &Q {
    open spec fn obeys_mul_spec() -> bool {
        false
    }

    open spec fn mul_req(self, rhs: &Q) -> bool {
        q_wf(self@) && q_wf(rhs@)
    }

    open spec fn mul_spec(self, rhs: &Q) -> Q {
        vstd::pervasive::arbitrary()
    }
}

impl core::ops::Mul<Q> for Q {
    type Output = Q;

    /// A forwarder to the canonical borrowed-operand form.
    fn mul(self, rhs: Q) -> (r: Q)
        ensures
            r@ == reduced(rat_mul(self@, rhs@).0, rat_mul(self@, rhs@).1),
            q_wf(r@),
    {
        (&self).mul(&rhs)
    }
}

impl vstd::std_specs::ops::MulSpecImpl<Q> for Q {
    open spec fn obeys_mul_spec() -> bool {
        false
    }

    open spec fn mul_req(self, rhs: Q) -> bool {
        q_wf(self@) && q_wf(rhs@)
    }

    open spec fn mul_spec(self, rhs: Q) -> Q {
        vstd::pervasive::arbitrary()
    }
}

impl core::ops::Mul<&Q> for Q {
    type Output = Q;

    /// A forwarder to the canonical borrowed-operand form.
    fn mul(self, rhs: &Q) -> (r: Q)
        ensures
            r@ == reduced(rat_mul(self@, rhs@).0, rat_mul(self@, rhs@).1),
            q_wf(r@),
    {
        (&self).mul(rhs)
    }
}

impl vstd::std_specs::ops::MulSpecImpl<&Q> for Q {
    open spec fn obeys_mul_spec() -> bool {
        false
    }

    open spec fn mul_req(self, rhs: &Q) -> bool {
        q_wf(self@) && q_wf(rhs@)
    }

    open spec fn mul_spec(self, rhs: &Q) -> Q {
        vstd::pervasive::arbitrary()
    }
}

impl core::ops::Mul<Q> for &Q {
    type Output = Q;

    /// A forwarder to the canonical borrowed-operand form.
    fn mul(self, rhs: Q) -> (r: Q)
        ensures
            r@ == reduced(rat_mul(self@, rhs@).0, rat_mul(self@, rhs@).1),
            q_wf(r@),
    {
        self.mul(&rhs)
    }
}

impl vstd::std_specs::ops::MulSpecImpl<Q> for &Q {
    open spec fn obeys_mul_spec() -> bool {
        false
    }

    open spec fn mul_req(self, rhs: Q) -> bool {
        q_wf(self@) && q_wf(rhs@)
    }

    open spec fn mul_spec(self, rhs: Q) -> Q {
        vstd::pervasive::arbitrary()
    }
}

/// The canonical numeral of an integer contains no fraction bar.
proof fn lemma_int_text_no_slash(v: int, i: int)
    requires
        0 <= i < int_text(v, 10).len(),
    ensures
        int_text(v, 10)[i] != '/',
{
    crate::text::lemma_int_text_round_trip(v, 10);
    let t = int_text(v, 10);
    if t[0] == '-' {
        if i > 0 {
            assert(digit_val(t.skip(1)[i - 1], 10) >= 0);
            assert(digit_val('/', 10) == -1);
        }
    } else {
        assert(digit_val(t[i], 10) >= 0);
        assert(digit_val('/', 10) == -1);
    }
}

/// Canonical-form idempotence: the canonical text of a reduced fraction is
/// well formed, denotes that very pair again, and therefore re-renders to
/// the identical text.
pub proof fn lemma_q_canonical_idempotent(n: int, d: int)
    requires
        q_wf((n, d)),
    ensures
        valid_q_text(q_text(n, d)),
        q_text_den(q_text(n, d)) != 0,
        reduced(q_text_num(q_text(n, d)), q_text_den(q_text(n, d))) == (n, d),
{
    let t = q_text(n, d);
    crate::text::lemma_int_text_round_trip(n, 10);
    crate::text::lemma_int_text_round_trip(d, 10);
    if d == 1 {
        assert forall|k: int| 0 <= k < t.len() implies t[k] != '/' by {
            lemma_int_text_no_slash(n, k);
        }
        crate::text::lemma_first_pos_is(t, '/', t.len() as int);
        assert(q_text_num(t) == n);
        assert(q_text_den(t) == 1);
    } else {
        let a = int_text(n, 10);
        let b = int_text(d, 10);
        let p = a.len() as int;
        assert(t[p] == '/');
        assert forall|k: int| 0 <= k < p implies t[k] != '/' by {
            assert(t[k] == a[k]);
            lemma_int_text_no_slash(n, k);
        }
        crate::text::lemma_first_pos_is(t, '/', p);
        assert(t.take(p) =~= a);
        assert(t.skip(p + 1) =~= b);
        assert(q_text_num(t) == n);
        assert(q_text_den(t) == d);
    }
    lemma_reduced_of_canonical(n, d);
}

} // verus!
