//! [`PolyOverZ`] is a polynomial with integer coefficients in canonical
//! trimmed form: the coefficient at the highest stored index is never zero.
//!
//! The text grammar is `"<count>  <c0> <c1> ..."`: the coefficient count and
//! the coefficient list are separated by exactly two spaces, coefficients by
//! exactly one; the zero polynomial is written `0`.
use crate::engine::big_add;
use crate::engine::big_from_u64;
use crate::engine::big_lt;
use crate::engine::big_mul;
use crate::engine::big_to_u64;
use crate::engine::chars_to_string;
use crate::error::MathError;
use crate::integer::z::Z;
use crate::text::find_double_space;
use crate::text::find_first;
use crate::text::first_pos;
use crate::text::format_int_chars;
use crate::text::has_double_space;
use crate::text::int_text;
use crate::text::int_text_value;
use crate::text::lemma_first_pos_bounds;
use crate::text::lemma_sep_list_min_len;
use crate::text::parse_int_str;
use crate::text::push_chars;
use crate::text::sep_list_vals;
use crate::text::valid_int_text;
use crate::text::valid_sep_list;
use crate::traits::Evaluate;
use crate::traits::GetCoefficient;
use crate::traits::SetCoefficient;
use vstd::prelude::*;

verus! {

/// The views of a sequence of integers.
pub open spec fn z_seq_views(s: Seq<Z>) -> Seq<int> {
    Seq::new(s.len(), |i: int| s[i]@)
}

/// Whether a coefficient sequence is in canonical trimmed form.
pub open spec fn trimmed(s: Seq<int>) -> bool {
    s.len() == 0 || s.last() != 0
}

/// The canonical trimmed form of a coefficient sequence: the longest prefix
/// whose last element is not zero.
pub open spec fn trim_seq(s: Seq<int>) -> Seq<int>
    decreases s.len(),
{
    if s.len() == 0 || s.last() != 0 {
        s
    } else {
        trim_seq(s.drop_last())
    }
}

/// Trimming yields the canonical form: a trimmed prefix of the input, and
/// everything cut off was zero.
pub proof fn lemma_trim_seq(s: Seq<int>)
    ensures
        trimmed(trim_seq(s)),
        trim_seq(s).len() <= s.len(),
        forall|i: int| 0 <= i < trim_seq(s).len() ==> trim_seq(s)[i] == s[i],
        forall|i: int| trim_seq(s).len() <= i < s.len() ==> s[i] == 0,
    decreases s.len(),
{
    if s.len() == 0 || s.last() != 0 {
    } else {
        lemma_trim_seq(s.drop_last());
        assert(trim_seq(s) == trim_seq(s.drop_last()));
        assert forall|i: int| 0 <= i < trim_seq(s).len() implies trim_seq(s)[i] == s[i] by {
            assert(trim_seq(s)[i] == s.drop_last()[i]);
        }
        assert forall|i: int| trim_seq(s).len() <= i < s.len() implies s[i] == 0 by {
            if i < s.len() - 1 {
                assert(s.drop_last()[i] == 0);
            } else {
                assert(s.last() == 0);
            }
        }
    }
}

/// The token predicate of an integer coefficient.
pub open spec fn z_ok() -> spec_fn(Seq<char>) -> bool {
    |t: Seq<char>| valid_int_text(t, 10)
}

/// The value of an integer coefficient token.
pub open spec fn z_val() -> spec_fn(Seq<char>) -> int {
    |t: Seq<char>| int_text_value(t, 10)
}

/// A well-formed integer-polynomial text: `0`, or a count of at least one,
/// two spaces, and that many space-separated integer coefficients.
pub open spec fn valid_poly_z_text(s: Seq<char>) -> bool {
    let p = first_pos(s, ' ');
    if p == s.len() {
        s == seq!['0']
    } else {
        valid_int_text(s.take(p), 10) && int_text_value(s.take(p), 10) >= 1 && p + 1 < s.len()
            && s[p + 1] == ' ' && valid_sep_list(
            s.skip(p + 2),
            int_text_value(s.take(p), 10) as nat,
            z_ok(),
        )
    }
}

/// The coefficients an integer-polynomial text denotes, untrimmed.
pub open spec fn poly_z_text_coeffs(s: Seq<char>) -> Seq<int> {
    let p = first_pos(s, ' ');
    if p == s.len() {
        Seq::empty()
    } else {
        sep_list_vals(s.skip(p + 2), int_text_value(s.take(p), 10) as nat, z_val())
    }
}

/// The canonical text of a coefficient list: decimal numerals separated by
/// single spaces.
pub open spec fn z_list_text(s: Seq<int>) -> Seq<char>
    decreases s.len(),
{
    if s.len() == 0 {
        Seq::empty()
    } else if s.len() == 1 {
        int_text(s[0], 10)
    } else {
        z_list_text(s.drop_last()) + seq![' '] + int_text(s.last(), 10)
    }
}

/// The canonical text of a trimmed coefficient sequence.
pub open spec fn poly_z_text(c: Seq<int>) -> Seq<char> {
    if c.len() == 0 {
        seq!['0']
    } else {
        int_text(c.len() as int, 10) + seq![' ', ' '] + z_list_text(c)
    }
}

/// The value of a polynomial at a point.
pub open spec fn poly_eval(s: Seq<int>, x: int) -> int
    decreases s.len(),
{
    if s.len() == 0 {
        0
    } else {
        s[0] + x * poly_eval(s.skip(1), x)
    }
}

/// The coefficient sequence after setting index `i` to `v`, growing with
/// zeros as needed.
pub open spec fn set_padded(s: Seq<int>, i: int, v: int) -> Seq<int> {
    if i < s.len() {
        s.update(i, v)
    } else {
        s + Seq::new((i - s.len()) as nat, |k: int| 0int) + seq![v]
    }
}

/// A polynomial with integer coefficients, in canonical trimmed form.
#[derive(Debug)]
pub struct PolyOverZ {
    pub(crate) coeffs: Vec<Z>,
}

impl View for PolyOverZ {
    type V = Seq<int>;

    closed spec fn view(&self) -> Seq<int> {
        z_seq_views(self.coeffs@)
    }
}

impl Clone for PolyOverZ {
    /// Deep-copies every coefficient; the copy denotes the same polynomial.
    fn clone(&self) -> (r: PolyOverZ)
        ensures
            r@ == self@,
    {
        let mut coeffs: Vec<Z> = Vec::new();
        let mut i: usize = 0;
        while i < self.coeffs.len()
            invariant
                i <= self.coeffs.len(),
                z_seq_views(coeffs@) =~= z_seq_views(self.coeffs@).take(i as int),
                coeffs@.len() == i,
            decreases self.coeffs.len() - i,
        {
            coeffs.push(self.coeffs[i].clone());
            i += 1;
            proof {
                assert(z_seq_views(coeffs@) =~= z_seq_views(self.coeffs@).take(i as int));
            }
        }
        proof {
            assert(z_seq_views(self.coeffs@).take(self.coeffs@.len() as int) =~= z_seq_views(
                self.coeffs@,
            ));
        }
        PolyOverZ { coeffs }
    }
}

impl PartialEq for PolyOverZ {
    /// Two trimmed polynomials are equal exactly when their coefficient
    /// sequences are.
    fn eq(&self, other: &PolyOverZ) -> (r: bool) {
        if self.coeffs.len() != other.coeffs.len() {
            proof {
                assert(self@.len() != other@.len());
            }
            return false;
        }
        let mut i: usize = 0;
        while i < self.coeffs.len()
            invariant
                i <= self.coeffs.len(),
                self.coeffs@.len() == other.coeffs@.len(),
                forall|k: int| 0 <= k < i ==> z_seq_views(self.coeffs@)[k] == z_seq_views(
                    other.coeffs@,
                )[k],
            decreases self.coeffs.len() - i,
        {
            if !(self.coeffs[i] == other.coeffs[i]) {
                proof {
                    assert(self@[i as int] != other@[i as int]);
                }
                return false;
            }
            i += 1;
        }
        proof {
            assert(self@ =~= other@);
        }
        true
    }
}

impl vstd::std_specs::cmp::PartialEqSpecImpl for PolyOverZ {
    open spec fn obeys_eq_spec() -> bool {
        true
    }

    open spec fn eq_spec(&self, other: &PolyOverZ) -> bool {
        self@ == other@
    }
}

/// Removes trailing zero coefficients until the canonical trimmed form is
/// restored.
fn trim_vec(v: &mut Vec<Z>)
    ensures
        z_seq_views(final(v)@) == trim_seq(z_seq_views(old(v)@)),
{
    while v.len() > 0 && v[v.len() - 1].is_zero()
        invariant
            trim_seq(z_seq_views(v@)) == trim_seq(z_seq_views(old(v)@)),
        decreases v.len(),
    {
        let ghost before = z_seq_views(v@);
        v.pop();
        proof {
            assert(z_seq_views(v@) =~= before.drop_last());
        }
    }
    proof {
        let views = z_seq_views(v@);
        if v@.len() > 0 {
            assert(views.last() != 0);
        }
    }
}

impl PolyOverZ {
    /// Moves the coefficients out.
    pub(crate) fn into_coeffs(self) -> (r: Vec<Z>)
        ensures
            z_seq_views(r@) == self@,
    {
        self.coeffs
    }

    /// Wraps coefficients as a polynomial, trimming to canonical form.
    pub(crate) fn from_coeffs(coeffs: Vec<Z>) -> (r: PolyOverZ)
        ensures
            r@ == trim_seq(z_seq_views(coeffs@)),
            trimmed(r@),
    {
        let mut coeffs = coeffs;
        let ghost before = z_seq_views(coeffs@);
        trim_vec(&mut coeffs);
        proof {
            lemma_trim_seq(before);
        }
        PolyOverZ { coeffs }
    }

    /// The number of stored coefficients.
    pub(crate) fn coeff_len(&self) -> (r: usize)
        ensures
            r == self@.len(),
    {
        self.coeffs.len()
    }

    /// The zero polynomial, with no stored coefficients.
    pub fn zero() -> (r: PolyOverZ)
        ensures
            r@ == Seq::<int>::empty(),
            trimmed(r@),
    {
        proof {
            assert(z_seq_views(Seq::<Z>::empty()) =~= Seq::<int>::empty());
        }
        PolyOverZ { coeffs: Vec::new() }
    }

    /// Creates a polynomial from its text form `"<count>  <c0> <c1> ..."`,
    /// then trims trailing zero coefficients to canonical form.
    ///
    /// Fails exactly on text that does not match the grammar; the error is
    /// [`MathError::MissingSeparator`] where the text nowhere holds two
    /// spaces in a row, and [`MathError::MalformedInput`] otherwise.
    pub fn from_str(s: &str) -> (r: Result<PolyOverZ, MathError>)
        ensures
            r is Ok <==> valid_poly_z_text(s@),
            r is Ok ==> r->Ok_0@ == trim_seq(poly_z_text_coeffs(s@)) && trimmed(r->Ok_0@),
            r is Err ==> r->Err_0 == (if has_double_space(s@) {
                MathError::MalformedInput
            } else {
                MathError::MissingSeparator
            }),
    {
        let n: usize = s.unicode_len();
        let p: usize = find_first(s, ' ');
        if p == n {
            proof {
                lemma_first_pos_bounds(s@, ' ');
                if has_double_space(s@) {
                    let i = choose|i: int|
                        0 <= i && i + 1 < s@.len() && s@[i] == ' ' && #[trigger] s@[i + 1] == ' ';
                    assert(s@[i] == ' ');
                }
            }
            if n == 1 && s.get_char(0) == '0' {
                proof {
                    assert(s@ =~= seq!['0']);
                    assert(trim_seq(Seq::<int>::empty()) =~= Seq::<int>::empty());
                }
                return Ok(PolyOverZ::zero());
            }
            proof {
                assert(s@ != seq!['0']) by {
                    if s@ == seq!['0'] {
                        assert(s@.len() == 1);
                        assert(s@[0] == '0');
                    }
                }
            }
            return Err(MathError::MissingSeparator);
        }
        let err = if find_double_space(s) {
            MathError::MalformedInput
        } else {
            MathError::MissingSeparator
        };
        let count_part = s.substring_char(0, p);
        proof {
            assert(count_part@ == s@.take(p as int));
        }
        let count_big = match parse_int_str(count_part, 10) {
            Some(v) => v,
            None => {
                return Err(err);
            },
        };
        if p + 1 >= n {
            return Err(err);
        }
        if s.get_char(p + 1) != ' ' {
            return Err(err);
        }
        let one = big_from_u64(1);
        if big_lt(&count_big, &one) {
            return Err(err);
        }
        let n_big = big_from_u64(n as u64);
        let ghost k_spec = int_text_value(s@.take(p as int), 10) as nat;
        if big_lt(&n_big, &count_big) {
            proof {
                if valid_poly_z_text(s@) {
                    lemma_sep_list_min_len(s@.skip(p + 2), k_spec, z_ok());
                }
            }
            return Err(err);
        }
        let k64: u64 = big_to_u64(&count_big);
        let k: usize = k64 as usize;
        let mut coeffs: Vec<Z> = Vec::new();
        let mut pos: usize = p + 2;
        let mut rem: usize = k;
        proof {
            assert(valid_poly_z_text(s@) <==> valid_sep_list(
                s@.skip(pos as int),
                rem as nat,
                z_ok(),
            ));
        }
        while rem > 1
            invariant
                err == (if has_double_space(s@) {
                    MathError::MalformedInput
                } else {
                    MathError::MissingSeparator
                }),
                1 <= rem <= k,
                pos <= n,
                n == s@.len(),
                coeffs@.len() == k - rem,
                valid_poly_z_text(s@) <==> valid_sep_list(s@.skip(pos as int), rem as nat, z_ok()),
                valid_poly_z_text(s@) ==> poly_z_text_coeffs(s@) =~= z_seq_views(coeffs@)
                    + sep_list_vals(s@.skip(pos as int), rem as nat, z_val()),
            decreases rem,
        {
            let tail = s.substring_char(pos, n);
            proof {
                assert(tail@ == s@.skip(pos as int));
            }
            let q: usize = find_first(tail, ' ');
            if q == n - pos {
                proof {
                    assert(!valid_sep_list(s@.skip(pos as int), rem as nat, z_ok()));
                }
                return Err(err);
            }
            let token = tail.substring_char(0, q);
            proof {
                assert(token@ == tail@.take(q as int));
            }
            let coeff = match parse_int_str(token, 10) {
                Some(v) => v,
                None => {
                    proof {
                        assert(!valid_sep_list(s@.skip(pos as int), rem as nat, z_ok()));
                    }
                    return Err(err);
                },
            };
            let ghost old_views = z_seq_views(coeffs@);
            let ghost old_pos = pos as int;
            let ghost old_rem = rem as nat;
            coeffs.push(Z::from_big(coeff));
            pos = pos + q + 1;
            rem = rem - 1;
            proof {
                assert(z_seq_views(coeffs@) =~= old_views + seq![
                    int_text_value(tail@.take(q as int), 10),
                ]);
                assert(s@.skip(old_pos).skip(q + 1) =~= s@.skip(pos as int));
                if valid_poly_z_text(s@) {
                    assert(sep_list_vals(s@.skip(old_pos), old_rem, z_val()) == seq![
                        z_val()(tail@.take(q as int)),
                    ] + sep_list_vals(s@.skip(pos as int), rem as nat, z_val()));
                }
            }
        }
        let tail = s.substring_char(pos, n);
        proof {
            assert(tail@ == s@.skip(pos as int));
        }
        let coeff = match parse_int_str(tail, 10) {
            Some(v) => v,
            None => {
                return Err(err);
            },
        };
        let ghost old_views = z_seq_views(coeffs@);
        coeffs.push(Z::from_big(coeff));
        proof {
            assert(z_seq_views(coeffs@) =~= old_views + seq![int_text_value(tail@, 10)]);
            assert(poly_z_text_coeffs(s@) =~= z_seq_views(coeffs@));
        }
        let ghost untrimmed = z_seq_views(coeffs@);
        trim_vec(&mut coeffs);
        proof {
            lemma_trim_seq(untrimmed);
        }
        Ok(PolyOverZ { coeffs })
    }

    /// Renders the canonical text of the polynomial.
    pub fn to_string(&self) -> (r: String)
        requires
            trimmed(self@),
        ensures
            r@ == poly_z_text(self@),
    {
        if self.coeffs.len() == 0 {
            let out: Vec<char> = vec!['0'];
            proof {
                assert(out@ =~= seq!['0']);
            }
            return chars_to_string(&out);
        }
        let len_big = big_from_u64(self.coeffs.len() as u64);
        let mut out = format_int_chars(&len_big, 10);
        out.push(' ');
        out.push(' ');
        proof {
            assert(out@ =~= int_text(self@.len() as int, 10) + seq![' ', ' '] + z_list_text(
                self@.take(0),
            ));
        }
        let mut j: usize = 0;
        while j < self.coeffs.len()
            invariant
                j <= self.coeffs.len(),
                self@.len() == self.coeffs@.len(),
                out@ == int_text(self@.len() as int, 10) + seq![' ', ' '] + z_list_text(
                    self@.take(j as int),
                ),
            decreases self.coeffs.len() - j,
        {
            if j > 0 {
                out.push(' ');
            }
            let digits = format_int_chars(self.coeffs[j].as_big(), 10);
            push_chars(&mut out, &digits);
            proof {
                let t = self@.take(j + 1);
                assert(t.drop_last() =~= self@.take(j as int));
                assert(t.last() == self@[j as int]);
                assert(digits@ == int_text(self@[j as int], 10));
                if j == 0 {
                    assert(z_list_text(t) == int_text(self@[0], 10));
                } else {
                    assert(z_list_text(t) == z_list_text(self@.take(j as int)) + seq![' ']
                        + int_text(self@[j as int], 10));
                }
            }
            j += 1;
        }
        proof {
            assert(self@.take(self@.len() as int) =~= self@);
        }
        chars_to_string(&out)
    }
}

impl GetCoefficient<Z> for PolyOverZ {
    /// Returns the coefficient at the given index as a fresh value. An index
    /// at or beyond the stored length yields zero, which is not an error; a
    /// negative index yields [`MathError::RangeError`].
    fn get_coeff(&self, index: i64) -> (r: Result<Z, MathError>)
        ensures
            index < 0 ==> r == Err::<Z, MathError>(MathError::RangeError),
            index >= 0 ==> r is Ok && r->Ok_0@ == (if index < self@.len() {
                self@[index as int]
            } else {
                0int
            }),
    {
        if index < 0 {
            return Err(MathError::RangeError);
        }
        if index as u64 > usize::MAX as u64 {
            let stored = self.coeffs.len();
            proof {
                assert(self@.len() == stored as int);
            }
            return Ok(Z::zero());
        }
        let i = index as usize;
        if i < self.coeffs.len() {
            proof {
                assert(self@[i as int] == self.coeffs@[i as int]@);
            }
            Ok(self.coeffs[i].clone())
        } else {
            Ok(Z::zero())
        }
    }
}

impl SetCoefficient<Z> for PolyOverZ {
    /// Sets the coefficient at the given index, growing the storage with
    /// zeros as needed, and restores the canonical trimmed form. An index
    /// that is negative or not addressable on this machine yields
    /// [`MathError::RangeError`] and leaves the polynomial unchanged.
    fn set_coeff(&mut self, index: i64, value: Z) -> (r: Result<(), MathError>)
        ensures
            !(0 <= index <= usize::MAX) ==> r == Err::<(), MathError>(MathError::RangeError)
                && final(self)@ == old(self)@,
            0 <= index <= usize::MAX ==> r is Ok && final(self)@ == trim_seq(
                set_padded(old(self)@, index as int, value@),
            ) && trimmed(final(self)@),
    {
        if index < 0 {
            return Err(MathError::RangeError);
        }
        if index as u64 > usize::MAX as u64 {
            return Err(MathError::RangeError);
        }
        let i = index as usize;
        let ghost old_views = z_seq_views(self.coeffs@);
        if i < self.coeffs.len() {
            self.coeffs.set(i, value);
            proof {
                assert(z_seq_views(self.coeffs@) =~= old_views.update(i as int, value@));
            }
        } else {
            let mut grown: usize = self.coeffs.len();
            while grown < i
                invariant
                    old_views.len() <= grown <= i,
                    grown == self.coeffs@.len(),
                    forall|j: int| 0 <= j < old_views.len() ==> z_seq_views(#[trigger] self.coeffs@)[j]
                        == old_views[j],
                    forall|j: int| old_views.len() <= j < grown ==> z_seq_views(self.coeffs@)[j]
                        == 0,
                decreases i - grown,
            {
                let ghost prev = self.coeffs@;
                let zc = Z::zero();
                self.coeffs.push(zc);
                grown += 1;
                proof {
                    assert forall|j: int| 0 <= j < old_views.len() implies z_seq_views(
                        self.coeffs@,
                    )[j] == old_views[j] by {
                        assert(self.coeffs@[j] == prev[j]);
                        assert(z_seq_views(prev)[j] == old_views[j]);
                    }
                    assert forall|j: int|
                        old_views.len() <= j < grown implies z_seq_views(self.coeffs@)[j] == 0 by {
                        if j < grown - 1 {
                            assert(self.coeffs@[j] == prev[j]);
                            assert(z_seq_views(prev)[j] == 0);
                        } else {
                            assert(self.coeffs@[j]@ == 0);
                        }
                    }
                }
            }
            let ghost v = value@;
            let ghost prev = self.coeffs@;
            self.coeffs.push(value);
            proof {
                let ghost target = old_views + Seq::new((i - old_views.len()) as nat, |k: int| 0int)
                    + seq![v];
                assert(z_seq_views(self.coeffs@).len() == i + 1);
                assert(target.len() == i + 1);
                assert forall|j: int| 0 <= j < i + 1 implies z_seq_views(self.coeffs@)[j]
                    == target[j] by {
                    if j < old_views.len() {
                        assert(self.coeffs@[j] == prev[j]);
                        assert(z_seq_views(prev)[j] == old_views[j]);
                        assert(target[j] == old_views[j]);
                    } else if j < i {
                        assert(self.coeffs@[j] == prev[j]);
                        assert(z_seq_views(prev)[j] == 0);
                        assert(target[j] == 0);
                    } else {
                        assert(self.coeffs@[j]@ == v);
                        assert(target[j] == v);
                    }
                }
                assert(z_seq_views(self.coeffs@) =~= target);
            }
        }
        proof {
            lemma_trim_seq(z_seq_views(self.coeffs@));
        }
        trim_vec(&mut self.coeffs);
        Ok(())
    }
}

impl Evaluate<&Z, Z> for PolyOverZ {
    open spec fn evaluate_req(&self, value: &&Z) -> bool {
        true
    }

    /// Evaluates the polynomial at the given point by Horner's rule.
    fn evaluate(&self, value: &Z) -> (r: Z)
        ensures
            r@ == poly_eval(self@, value@),
    {
        let mut acc = Z::zero();
        let mut i: usize = self.coeffs.len();
        proof {
            assert(self@.skip(i as int) =~= Seq::<int>::empty());
        }
        while i > 0
            invariant
                i <= self.coeffs.len(),
                self@.len() == self.coeffs@.len(),
                acc@ == poly_eval(self@.skip(i as int), value@),
            decreases i,
        {
            i -= 1;
            let scaled = big_mul(value.as_big(), acc.as_big());
            let next = big_add(self.coeffs[i].as_big(), &scaled);
            acc = Z::from_big(next);
            proof {
                let t = self@.skip(i as int);
                assert(t.skip(1) =~= self@.skip(i + 1));
                assert(t[0] == self@[i as int]);
            }
        }
        proof {
            assert(self@.skip(0) =~= self@);
        }
        acc
    }
}

impl Evaluate<Z, Z> for PolyOverZ {
    open spec fn evaluate_req(&self, value: &Z) -> bool {
        true
    }

    /// A forwarder to the borrowed-operand form of `evaluate`.
    fn evaluate(&self, value: Z) -> (r: Z)
        ensures
            r@ == poly_eval(self@, value@),
    {
        Evaluate::<&Z, Z>::evaluate(self, &value)
    }
}

/// The canonical coefficient list read from the front: the first
/// coefficient's numeral, then a space and the rest.
proof fn lemma_z_list_text_front(c: Seq<int>)
    requires
        c.len() >= 1,
    ensures
        c.len() == 1 ==> z_list_text(c) == int_text(c[0], 10),
        c.len() > 1 ==> z_list_text(c) == int_text(c[0], 10) + seq![' '] + z_list_text(c.skip(1)),
    decreases c.len(),
{
    if c.len() == 1 {
    } else if c.len() == 2 {
        assert(c.drop_last() =~= seq![c[0]]);
        assert(c.skip(1) =~= seq![c[1]]);
        assert(z_list_text(seq![c[0]]) == int_text(c[0], 10));
        assert(z_list_text(seq![c[1]]) == int_text(c[1], 10));
        assert(z_list_text(c) == z_list_text(c.drop_last()) + seq![' '] + int_text(c.last(), 10));
        assert(z_list_text(c) =~= int_text(c[0], 10) + seq![' '] + z_list_text(c.skip(1)));
    } else {
        let d = c.drop_last();
        lemma_z_list_text_front(d);
        assert(z_list_text(c) == z_list_text(d) + seq![' '] + int_text(c.last(), 10));
        assert(z_list_text(d) == int_text(c[0], 10) + seq![' '] + z_list_text(d.skip(1)));
        assert(z_list_text(c.skip(1)) == z_list_text(d.skip(1)) + seq![' '] + int_text(
            c.last(),
            10,
        )) by {
            assert(c.skip(1).len() >= 2);
            assert(c.skip(1).drop_last() =~= d.skip(1));
            assert(c.skip(1).last() == c.last());
        }
        let head = int_text(c[0], 10);
        let mid = z_list_text(d.skip(1));
        let tail = int_text(c.last(), 10);
        assert(z_list_text(c) =~= head + seq![' '] + mid + seq![' '] + tail);
        assert(head + seq![' '] + z_list_text(c.skip(1)) =~= head + seq![' '] + mid + seq![' ']
            + tail);
        assert(z_list_text(c) == int_text(c[0], 10) + seq![' '] + z_list_text(c.skip(1)));
    }
}

/// The canonical coefficient list is a well-formed list of as many numeral
/// tokens, and reads back as the same coefficients.
proof fn lemma_z_list_round_trip(c: Seq<int>)
    requires
        c.len() >= 1,
    ensures
        valid_sep_list(z_list_text(c), c.len() as nat, z_ok()),
        sep_list_vals(z_list_text(c), c.len() as nat, z_val()) =~= c,
    decreases c.len(),
{
    let s = z_list_text(c);
    lemma_z_list_text_front(c);
    crate::text::lemma_int_text_round_trip(c[0], 10);
    crate::text::lemma_int_text_no_char(c[0], 10, ' ');
    let a = int_text(c[0], 10);
    if c.len() == 1 {
        assert(s == a);
        assert forall|k: int| 0 <= k < s.len() implies s[k] != ' ' by {
            assert(int_text(c[0], 10)[k] != ' ');
        }
        crate::text::lemma_first_pos_is(s, ' ', s.len() as int);
    } else {
        lemma_z_list_round_trip(c.skip(1));
        assert(s[a.len() as int] == ' ');
        assert forall|k: int| 0 <= k < a.len() implies s[k] != ' ' by {
            assert(s[k] == a[k]);
            assert(int_text(c[0], 10)[k] != ' ');
        }
        crate::text::lemma_first_pos_is(s, ' ', a.len() as int);
        let p = a.len() as int;
        assert(s.take(p) =~= a);
        assert(s.skip(p + 1) =~= z_list_text(c.skip(1)));
        assert(sep_list_vals(s, c.len() as nat, z_val()) =~= c);
    }
}

/// Canonical-form idempotence: the canonical text of a trimmed coefficient
/// sequence is well formed and re-parses, after trimming, to that very
/// sequence, so its re-rendering is the identical text.
pub proof fn lemma_poly_z_canonical_idempotent(c: Seq<int>)
    requires
        trimmed(c),
    ensures
        valid_poly_z_text(poly_z_text(c)),
        trim_seq(poly_z_text_coeffs(poly_z_text(c))) == c,
{
    let t = poly_z_text(c);
    if c.len() == 0 {
        assert(t == seq!['0']);
        assert(t[0] == '0');
        crate::text::lemma_first_pos_is(t, ' ', 1);
        assert(poly_z_text_coeffs(t) == Seq::<int>::empty());
        assert(trim_seq(Seq::<int>::empty()) =~= c);
    } else {
        let a = int_text(c.len() as int, 10);
        crate::text::lemma_int_text_round_trip(c.len() as int, 10);
        crate::text::lemma_int_text_no_char(c.len() as int, 10, ' ');
        lemma_z_list_round_trip(c);
        lemma_z_list_text_front(c);
        crate::text::lemma_int_text_round_trip(c[0], 10);
        assert(int_text(c[0], 10).len() >= 1);
        assert(z_list_text(c).len() >= 1);
        assert(t[a.len() as int] == ' ');
        assert forall|k: int| 0 <= k < a.len() implies t[k] != ' ' by {
            assert(t[k] == a[k]);
            assert(int_text(c.len() as int, 10)[k] != ' ');
        }
        crate::text::lemma_first_pos_is(t, ' ', a.len() as int);
        let p = a.len() as int;
        assert(t.take(p) =~= a);
        assert(t[p + 1] == ' ');
        assert(t.skip(p + 2) =~= z_list_text(c));
        assert(int_text_value(t.take(p), 10) == c.len());
        assert(valid_poly_z_text(t));
        assert(poly_z_text_coeffs(t) =~= c);
        assert(trim_seq(poly_z_text_coeffs(t)) == c);
    }
}

} // verus!
