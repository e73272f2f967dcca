//! [`PolyOverQ`] is a polynomial with rational coefficients, each in lowest
//! terms, in canonical trimmed form: the coefficient at the highest stored
//! index is never zero.
//!
//! The text grammar is that of [`crate::integer::poly_over_z::PolyOverZ`]
//! with rational coefficient tokens.
use crate::error::MathError;
use crate::integer::poly_over_z::trimmed;
use crate::rational::q::q_text;
use crate::rational::q::q_text_den;
use crate::rational::q::q_text_num;
use crate::rational::q::q_wf;
use crate::rational::q::reduced;
use crate::rational::q::valid_q_text;
use crate::rational::q::Q;
use crate::text::find_double_space;
use crate::text::find_first;
use crate::text::first_pos;
use crate::text::format_int_chars;
use crate::text::has_double_space;
use crate::text::int_text;
use crate::text::int_text_value;
use crate::text::lemma_first_pos_bounds;
use crate::text::lemma_sep_list_min_len;
use crate::text::parse_int_str;
use crate::text::push_chars;
use crate::text::sep_list_vals;
use crate::text::valid_int_text;
use crate::text::valid_sep_list;
use crate::engine::big_from_u64;
use crate::engine::big_lt;
use crate::engine::big_to_u64;
use crate::engine::chars_to_string;
use vstd::prelude::*;

verus! {

/// The views of a sequence of rationals.
pub open spec fn q_seq_views(s: Seq<Q>) -> Seq<(int, int)> {
    Seq::new(s.len(), |i: int| s[i]@)
}

/// Whether every coefficient of a rational sequence is in canonical form.
pub open spec fn q_seq_wf(s: Seq<(int, int)>) -> bool {
    forall|i: int| 0 <= i < s.len() ==> q_wf(#[trigger] s[i])
}

/// Whether a rational coefficient sequence is in canonical trimmed form.
pub open spec fn q_trimmed(s: Seq<(int, int)>) -> bool {
    s.len() == 0 || s.last().0 != 0
}

/// The canonical trimmed form of a rational coefficient sequence.
pub open spec fn q_trim_seq(s: Seq<(int, int)>) -> Seq<(int, int)>
    decreases s.len(),
{
    if s.len() == 0 || s.last().0 != 0 {
        s
    } else {
        q_trim_seq(s.drop_last())
    }
}

/// Trimming yields the canonical form: a trimmed prefix of the input, and
/// every coefficient cut off was zero.
pub proof fn lemma_q_trim_seq(s: Seq<(int, int)>)
    ensures
        q_trimmed(q_trim_seq(s)),
        q_trim_seq(s).len() <= s.len(),
        forall|i: int| 0 <= i < q_trim_seq(s).len() ==> q_trim_seq(s)[i] == s[i],
        forall|i: int| q_trim_seq(s).len() <= i < s.len() ==> s[i].0 == 0,
    decreases s.len(),
{
    if s.len() == 0 || s.last().0 != 0 {
    } else {
        lemma_q_trim_seq(s.drop_last());
        assert(q_trim_seq(s) == q_trim_seq(s.drop_last()));
        assert forall|i: int| 0 <= i < q_trim_seq(s).len() implies q_trim_seq(s)[i] == s[i] by {
            assert(q_trim_seq(s)[i] == s.drop_last()[i]);
        }
        assert forall|i: int| q_trim_seq(s).len() <= i < s.len() implies s[i].0 == 0 by {
            if i < s.len() - 1 {
                assert(s.drop_last()[i].0 == 0);
            } else {
                assert(s.last().0 == 0);
            }
        }
    }
}

/// The token predicate of a rational coefficient: a well-formed fraction
/// with a non-zero denominator.
pub open spec fn q_ok() -> spec_fn(Seq<char>) -> bool {
    |t: Seq<char>| valid_q_text(t) && q_text_den(t) != 0
}

/// The canonical value of a rational coefficient token.
pub open spec fn q_val() -> spec_fn(Seq<char>) -> (int, int) {
    |t: Seq<char>| reduced(q_text_num(t), q_text_den(t))
}

/// A well-formed rational-polynomial text: `0`, or a count of at least one,
/// two spaces, and that many space-separated rational coefficients.
pub open spec fn valid_poly_q_text(s: Seq<char>) -> bool {
    let p = first_pos(s, ' ');
    if p == s.len() {
        s == seq!['0']
    } else {
        valid_int_text(s.take(p), 10) && int_text_value(s.take(p), 10) >= 1 && p + 1 < s.len()
            && s[p + 1] == ' ' && valid_sep_list(
            s.skip(p + 2),
            int_text_value(s.take(p), 10) as nat,
            q_ok(),
        )
    }
}

/// The canonical coefficients a rational-polynomial text denotes, untrimmed:
/// each token is brought to lowest terms.
pub open spec fn poly_q_text_coeffs(s: Seq<char>) -> Seq<(int, int)> {
    let p = first_pos(s, ' ');
    if p == s.len() {
        Seq::empty()
    } else {
        sep_list_vals(s.skip(p + 2), int_text_value(s.take(p), 10) as nat, q_val())
    }
}

/// The canonical text of a rational coefficient list.
pub open spec fn q_list_text(s: Seq<(int, int)>) -> Seq<char>
    decreases s.len(),
{
    if s.len() == 0 {
        Seq::empty()
    } else if s.len() == 1 {
        q_text(s[0].0, s[0].1)
    } else {
        q_list_text(s.drop_last()) + seq![' '] + q_text(s.last().0, s.last().1)
    }
}

/// The canonical text of a trimmed rational coefficient sequence.
pub open spec fn poly_q_text(c: Seq<(int, int)>) -> Seq<char> {
    if c.len() == 0 {
        seq!['0']
    } else {
        int_text(c.len() as int, 10) + seq![' ', ' '] + q_list_text(c)
    }
}

/// A polynomial with rational coefficients, in canonical trimmed form with
/// every coefficient in lowest terms.
#[derive(Debug)]
pub struct PolyOverQ {
    pub(crate) coeffs: Vec<Q>,
}

impl View for PolyOverQ {
    type V = Seq<(int, int)>;

    closed spec fn view(&self) -> Seq<(int, int)> {
        q_seq_views(self.coeffs@)
    }
}

impl Clone for PolyOverQ {
    /// Deep-copies every coefficient; the copy denotes the same polynomial.
    fn clone(&self) -> (r: PolyOverQ)
        ensures
            r@ == self@,
    {
        let mut coeffs: Vec<Q> = Vec::new();
        let mut i: usize = 0;
        while i < self.coeffs.len()
            invariant
                i <= self.coeffs.len(),
                q_seq_views(coeffs@) =~= q_seq_views(self.coeffs@).take(i as int),
                coeffs@.len() == i,
            decreases self.coeffs.len() - i,
        {
            coeffs.push(self.coeffs[i].clone());
            i += 1;
            proof {
                assert(q_seq_views(coeffs@) =~= q_seq_views(self.coeffs@).take(i as int));
            }
        }
        proof {
            assert(q_seq_views(self.coeffs@).take(self.coeffs@.len() as int) =~= q_seq_views(
                self.coeffs@,
            ));
        }
        PolyOverQ { coeffs }
    }
}

impl PartialEq for PolyOverQ {
    /// Two canonical polynomials are equal exactly when their coefficient
    /// sequences are.
    fn eq(&self, other: &PolyOverQ) -> (r: bool) {
        if self.coeffs.len() != other.coeffs.len() {
            proof {
                assert(self@.len() != other@.len());
            }
            return false;
        }
        let mut i: usize = 0;
        while i < self.coeffs.len()
            invariant
                i <= self.coeffs.len(),
                self.coeffs@.len() == other.coeffs@.len(),
                forall|k: int| 0 <= k < i ==> q_seq_views(self.coeffs@)[k] == q_seq_views(
                    other.coeffs@,
                )[k],
            decreases self.coeffs.len() - i,
        {
            if !(self.coeffs[i] == other.coeffs[i]) {
                proof {
                    assert(self@[i as int] != other@[i as int]);
                }
                return false;
            }
            i += 1;
        }
        proof {
            assert(self@ =~= other@);
        }
        true
    }
}

impl vstd::std_specs::cmp::PartialEqSpecImpl for PolyOverQ {
    open spec fn obeys_eq_spec() -> bool {
        true
    }

    open spec fn eq_spec(&self, other: &PolyOverQ) -> bool {
        self@ == other@
    }
}

/// Removes trailing zero coefficients until the canonical trimmed form is
/// restored.
fn q_trim_vec(v: &mut Vec<Q>)
    ensures
        q_seq_views(final(v)@) == q_trim_seq(q_seq_views(old(v)@)),
{
    while v.len() > 0 && v[v.len() - 1].is_zero()
        invariant
            q_trim_seq(q_seq_views(v@)) == q_trim_seq(q_seq_views(old(v)@)),
        decreases v.len(),
    {
        let ghost before = q_seq_views(v@);
        v.pop();
        proof {
            assert(q_seq_views(v@) =~= before.drop_last());
        }
    }
    proof {
        let views = q_seq_views(v@);
        if v@.len() > 0 {
            assert(views.last().0 != 0);
        }
    }
}

impl PolyOverQ {
    /// The zero polynomial, with no stored coefficients.
    pub fn zero() -> (r: PolyOverQ)
        ensures
            r@ == Seq::<(int, int)>::empty(),
            q_trimmed(r@),
    {
        proof {
            assert(q_seq_views(Seq::<Q>::empty()) =~= Seq::<(int, int)>::empty());
        }
        PolyOverQ { coeffs: Vec::new() }
    }

    /// Creates a polynomial from its text form `"<count>  <c0> <c1> ..."`
    /// with rational coefficients, brings every coefficient to lowest terms
    /// and trims trailing zero coefficients to canonical form.
    ///
    /// Fails exactly on text that does not match the grammar; the error is
    /// [`MathError::MissingSeparator`] where the text nowhere holds two
    /// spaces in a row, and [`MathError::MalformedInput`] otherwise.
    pub fn from_str(s: &str) -> (r: Result<PolyOverQ, MathError>)
        ensures
            r is Ok <==> valid_poly_q_text(s@),
            r is Ok ==> r->Ok_0@ == q_trim_seq(poly_q_text_coeffs(s@)) && q_trimmed(r->Ok_0@)
                && q_seq_wf(r->Ok_0@),
            r is Err ==> r->Err_0 == (if has_double_space(s@) {
                MathError::MalformedInput
            } else {
                MathError::MissingSeparator
            }),
    {
        let n: usize = s.unicode_len();
        let p: usize = find_first(s, ' ');
        if p == n {
            proof {
                lemma_first_pos_bounds(s@, ' ');
                if has_double_space(s@) {
                    let i = choose|i: int|
                        0 <= i && i + 1 < s@.len() && s@[i] == ' ' && #[trigger] s@[i + 1] == ' ';
                    assert(s@[i] == ' ');
                }
            }
            if n == 1 && s.get_char(0) == '0' {
                proof {
                    assert(s@ =~= seq!['0']);
                    assert(q_trim_seq(Seq::<(int, int)>::empty()) =~= Seq::<(int, int)>::empty());
                }
                return Ok(PolyOverQ::zero());
            }
            proof {
                assert(s@ != seq!['0']) by {
                    if s@ == seq!['0'] {
                        assert(s@.len() == 1);
                        assert(s@[0] == '0');
                    }
                }
            }
            return Err(MathError::MissingSeparator);
        }
        let err = if find_double_space(s) {
            MathError::MalformedInput
        } else {
            MathError::MissingSeparator
        };
        let count_part = s.substring_char(0, p);
        proof {
            assert(count_part@ == s@.take(p as int));
        }
        let count_big = match parse_int_str(count_part, 10) {
            Some(v) => v,
            None => {
                return Err(err);
            },
        };
        if p + 1 >= n {
            return Err(err);
        }
        if s.get_char(p + 1) != ' ' {
            return Err(err);
        }
        let one = big_from_u64(1);
        if big_lt(&count_big, &one) {
            return Err(err);
        }
        let n_big = big_from_u64(n as u64);
        let ghost k_spec = int_text_value(s@.take(p as int), 10) as nat;
        if big_lt(&n_big, &count_big) {
            proof {
                if valid_poly_q_text(s@) {
                    lemma_q_token_nonempty();
                    lemma_sep_list_min_len(s@.skip(p + 2), k_spec, q_ok());
                }
            }
            return Err(err);
        }
        let k64: u64 = big_to_u64(&count_big);
        let k: usize = k64 as usize;
        let mut coeffs: Vec<Q> = Vec::new();
        let mut pos: usize = p + 2;
        let mut rem: usize = k;
        proof {
            assert(valid_poly_q_text(s@) <==> valid_sep_list(
                s@.skip(pos as int),
                rem as nat,
                q_ok(),
            ));
        }
        while rem > 1
            invariant
                err == (if has_double_space(s@) {
                    MathError::MalformedInput
                } else {
                    MathError::MissingSeparator
                }),
                1 <= rem <= k,
                pos <= n,
                n == s@.len(),
                coeffs@.len() == k - rem,
                q_seq_wf(q_seq_views(coeffs@)),
                valid_poly_q_text(s@) <==> valid_sep_list(s@.skip(pos as int), rem as nat, q_ok()),
                valid_poly_q_text(s@) ==> poly_q_text_coeffs(s@) =~= q_seq_views(coeffs@)
                    + sep_list_vals(s@.skip(pos as int), rem as nat, q_val()),
            decreases rem,
        {
            let tail = s.substring_char(pos, n);
            proof {
                assert(tail@ == s@.skip(pos as int));
            }
            let q: usize = find_first(tail, ' ');
            if q == n - pos {
                proof {
                    assert(!valid_sep_list(s@.skip(pos as int), rem as nat, q_ok()));
                }
                return Err(err);
            }
            let token = tail.substring_char(0, q);
            proof {
                assert(token@ == tail@.take(q as int));
            }
            let coeff = match Q::from_str(token) {
                Ok(v) => v,
                Err(_) => {
                    proof {
                        assert(!valid_sep_list(s@.skip(pos as int), rem as nat, q_ok()));
                    }
                    return Err(err);
                },
            };
            let ghost old_views = q_seq_views(coeffs@);
            let ghost old_pos = pos as int;
            let ghost old_rem = rem as nat;
            let ghost cv = coeff@;
            coeffs.push(coeff);
            pos = pos + q + 1;
            rem = rem - 1;
            proof {
                assert(q_seq_views(coeffs@) =~= old_views + seq![cv]);
                assert(s@.skip(old_pos).skip(q + 1) =~= s@.skip(pos as int));
                if valid_poly_q_text(s@) {
                    assert(sep_list_vals(s@.skip(old_pos), old_rem, q_val()) == seq![
                        q_val()(tail@.take(q as int)),
                    ] + sep_list_vals(s@.skip(pos as int), rem as nat, q_val()));
                }
            }
        }
        let tail = s.substring_char(pos, n);
        proof {
            assert(tail@ == s@.skip(pos as int));
        }
        let coeff = match Q::from_str(tail) {
            Ok(v) => v,
            Err(_) => {
                return Err(err);
            },
        };
        let ghost old_views = q_seq_views(coeffs@);
        let ghost cv = coeff@;
        coeffs.push(coeff);
        proof {
            assert(q_seq_views(coeffs@) =~= old_views + seq![cv]);
            assert(poly_q_text_coeffs(s@) =~= q_seq_views(coeffs@));
        }
        let ghost untrimmed = q_seq_views(coeffs@);
        q_trim_vec(&mut coeffs);
        proof {
            lemma_q_trim_seq(untrimmed);
            assert forall|i: int|
                0 <= i < q_trim_seq(untrimmed).len() implies q_wf(
                #[trigger] q_trim_seq(untrimmed)[i]) by {
                assert(q_trim_seq(untrimmed)[i] == untrimmed[i]);
            }
        }
        Ok(PolyOverQ { coeffs })
    }

    /// Renders the canonical text of the polynomial.
    pub fn to_string(&self) -> (r: String)
        requires
            q_trimmed(self@),
            q_seq_wf(self@),
        ensures
            r@ == poly_q_text(self@),
    {
        if self.coeffs.len() == 0 {
            let out: Vec<char> = vec!['0'];
            proof {
                assert(out@ =~= seq!['0']);
            }
            return chars_to_string(&out);
        }
        let len_big = big_from_u64(self.coeffs.len() as u64);
        let mut out = format_int_chars(&len_big, 10);
        out.push(' ');
        out.push(' ');
        proof {
            assert(out@ =~= int_text(self@.len() as int, 10) + seq![' ', ' '] + q_list_text(
                self@.take(0),
            ));
        }
        let mut j: usize = 0;
        while j < self.coeffs.len()
            invariant
                j <= self.coeffs.len(),
                self@.len() == self.coeffs@.len(),
                q_seq_wf(self@),
                out@ == int_text(self@.len() as int, 10) + seq![' ', ' '] + q_list_text(
                    self@.take(j as int),
                ),
            decreases self.coeffs.len() - j,
        {
            if j > 0 {
                out.push(' ');
            }
            proof {
                assert(q_wf(self@[j as int]));
                assert(self.coeffs@[j as int]@ == self@[j as int]);
            }
            let digits = self.coeffs[j].to_chars();
            push_chars(&mut out, &digits);
            proof {
                let t = self@.take(j + 1);
                assert(t.drop_last() =~= self@.take(j as int));
                assert(t.last() == self@[j as int]);
                if j == 0 {
                    assert(q_list_text(t) == q_text(self@[0].0, self@[0].1));
                } else {
                    assert(q_list_text(t) == q_list_text(self@.take(j as int)) + seq![' ']
                        + q_text(self@[j as int].0, self@[j as int].1));
                }
            }
            j += 1;
        }
        proof {
            assert(self@.take(self@.len() as int) =~= self@);
        }
        chars_to_string(&out)
    }
}

/// Every rational coefficient token has at least one character.
proof fn lemma_q_token_nonempty()
    ensures
        forall|t: Seq<char>| #[trigger] q_ok()(t) ==> t.len() >= 1,
{
    assert forall|t: Seq<char>| #[trigger] q_ok()(t) implies t.len() >= 1 by {
        lemma_first_pos_bounds(t, '/');
        let p = first_pos(t, '/');
        if p == t.len() {
            assert(valid_int_text(t, 10));
        } else {
            assert(valid_int_text(t.take(p), 10));
            assert(t.take(p).len() >= 1);
        }
    }
}

/// The canonical text of a reduced fraction holds no space.
proof fn lemma_q_text_no_space(n: int, d: int, k: int)
    requires
        q_wf((n, d)),
        0 <= k < q_text(n, d).len(),
    ensures
        q_text(n, d)[k] != ' ',
{
    crate::text::lemma_int_text_no_char(n, 10, ' ');
    crate::text::lemma_int_text_no_char(d, 10, ' ');
    let t = q_text(n, d);
    if d == 1 {
        assert(t[k] == int_text(n, 10)[k]);
    } else {
        let a = int_text(n, 10);
        let b = int_text(d, 10);
        if k < a.len() {
            assert(t[k] == a[k]);
        } else if k == a.len() {
            assert(t[k] == '/');
        } else {
            assert(t[k] == b[k - a.len() - 1]);
        }
    }
}

/// The canonical coefficient list read from the front.
proof fn lemma_q_list_text_front(c: Seq<(int, int)>)
    requires
        c.len() >= 1,
    ensures
        c.len() == 1 ==> q_list_text(c) == q_text(c[0].0, c[0].1),
        c.len() > 1 ==> q_list_text(c) == q_text(c[0].0, c[0].1) + seq![' '] + q_list_text(
            c.skip(1),
        ),
    decreases c.len(),
{
    if c.len() == 1 {
    } else if c.len() == 2 {
        assert(c.drop_last() =~= seq![c[0]]);
        assert(c.skip(1) =~= seq![c[1]]);
        assert(q_list_text(seq![c[0]]) == q_text(c[0].0, c[0].1));
        assert(q_list_text(seq![c[1]]) == q_text(c[1].0, c[1].1));
        assert(q_list_text(c) == q_list_text(c.drop_last()) + seq![' '] + q_text(
            c.last().0,
            c.last().1,
        ));
        assert(q_list_text(c) =~= q_text(c[0].0, c[0].1) + seq![' '] + q_list_text(c.skip(1)));
    } else {
        let d = c.drop_last();
        lemma_q_list_text_front(d);
        assert(q_list_text(c) == q_list_text(d) + seq![' '] + q_text(c.last().0, c.last().1));
        assert(q_list_text(d) == q_text(c[0].0, c[0].1) + seq![' '] + q_list_text(d.skip(1)));
        assert(q_list_text(c.skip(1)) == q_list_text(d.skip(1)) + seq![' '] + q_text(
            c.last().0,
            c.last().1,
        )) by {
            assert(c.skip(1).len() >= 2);
            assert(c.skip(1).drop_last() =~= d.skip(1));
            assert(c.skip(1).last() == c.last());
        }
        let head = q_text(c[0].0, c[0].1);
        let mid = q_list_text(d.skip(1));
        let tail = q_text(c.last().0, c.last().1);
        assert(q_list_text(c) =~= head + seq![' '] + mid + seq![' '] + tail);
        assert(head + seq![' '] + q_list_text(c.skip(1)) =~= head + seq![' '] + mid + seq![' ']
            + tail);
        assert(q_list_text(c) == q_text(c[0].0, c[0].1) + seq![' '] + q_list_text(c.skip(1)));
    }
}

/// The canonical coefficient list is a well-formed list of as many fraction
/// tokens, and reads back, reduced, as the same coefficients.
proof fn lemma_q_list_round_trip(c: Seq<(int, int)>)
    requires
        c.len() >= 1,
        q_seq_wf(c),
    ensures
        valid_sep_list(q_list_text(c), c.len() as nat, q_ok()),
        sep_list_vals(q_list_text(c), c.len() as nat, q_val()) =~= c,
    decreases c.len(),
{
    let s = q_list_text(c);
    lemma_q_list_text_front(c);
    assert(q_wf(c[0]));
    crate::rational::q::lemma_q_canonical_idempotent(c[0].0, c[0].1);
    let a = q_text(c[0].0, c[0].1);
    if c.len() == 1 {
        assert(s == a);
        assert forall|k: int| 0 <= k < s.len() implies s[k] != ' ' by {
            lemma_q_text_no_space(c[0].0, c[0].1, k);
        }
        crate::text::lemma_first_pos_is(s, ' ', s.len() as int);
    } else {
        assert(q_seq_wf(c.skip(1))) by {
            assert(forall|i: int| 0 <= i < c.skip(1).len() ==> c.skip(1)[i] == c[i + 1]);
            assert forall|i: int| 0 <= i < c.skip(1).len() implies q_wf(#[trigger] c.skip(1)[i])
                by {
                assert(q_wf(c[i + 1]));
            }
        }
        lemma_q_list_round_trip(c.skip(1));
        assert(s[a.len() as int] == ' ');
        assert forall|k: int| 0 <= k < a.len() implies s[k] != ' ' by {
            assert(s[k] == a[k]);
            lemma_q_text_no_space(c[0].0, c[0].1, k);
        }
        crate::text::lemma_first_pos_is(s, ' ', a.len() as int);
        let p = a.len() as int;
        assert(s.take(p) =~= a);
        assert(s.skip(p + 1) =~= q_list_text(c.skip(1)));
        assert(sep_list_vals(s, c.len() as nat, q_val()) =~= c);
    }
}

/// Canonical-form idempotence: the canonical text of a trimmed sequence of
/// reduced coefficients is well formed and re-parses, after reduction and
/// trimming, to that very sequence, so its re-rendering is the identical
/// text.
pub proof fn lemma_poly_q_canonical_idempotent(c: Seq<(int, int)>)
    requires
        q_trimmed(c),
        q_seq_wf(c),
    ensures
        valid_poly_q_text(poly_q_text(c)),
        q_trim_seq(poly_q_text_coeffs(poly_q_text(c))) == c,
{
    let t = poly_q_text(c);
    if c.len() == 0 {
        assert(t == seq!['0']);
        assert(t[0] == '0');
        crate::text::lemma_first_pos_is(t, ' ', 1);
        assert(poly_q_text_coeffs(t) == Seq::<(int, int)>::empty());
        assert(q_trim_seq(Seq::<(int, int)>::empty()) =~= c);
    } else {
        let a = int_text(c.len() as int, 10);
        crate::text::lemma_int_text_round_trip(c.len() as int, 10);
        crate::text::lemma_int_text_no_char(c.len() as int, 10, ' ');
        lemma_q_list_round_trip(c);
        lemma_q_list_text_front(c);
        assert(q_wf(c[0]));
        crate::rational::q::lemma_q_canonical_idempotent(c[0].0, c[0].1);
        assert(q_text(c[0].0, c[0].1).len() >= 1) by {
            crate::text::lemma_int_text_round_trip(c[0].0, 10);
        }
        assert(q_list_text(c).len() >= 1);
        assert(t[a.len() as int] == ' ');
        assert forall|k: int| 0 <= k < a.len() implies t[k] != ' ' by {
            assert(t[k] == a[k]);
            assert(int_text(c.len() as int, 10)[k] != ' ');
        }
        crate::text::lemma_first_pos_is(t, ' ', a.len() as int);
        let p = a.len() as int;
        assert(t.take(p) =~= a);
        assert(t[p + 1] == ' ');
        assert(t.skip(p + 2) =~= q_list_text(c));
        assert(int_text_value(t.take(p), 10) == c.len());
        assert(valid_poly_q_text(t));
        assert(poly_q_text_coeffs(t) =~= c);
        assert(q_trim_seq(poly_q_text_coeffs(t)) == c);
    }
}

/// The value of a rational polynomial at a rational point, by Horner's
/// rule, every intermediate result in canonical form.
pub open spec fn poly_q_eval(s: Seq<(int, int)>, x: (int, int)) -> (int, int)
    decreases s.len(),
{
    if s.len() == 0 {
        (0int, 1int)
    } else {
        let rest = poly_q_eval(s.skip(1), x);
        let scaled = crate::rational::q::rat_mul(x, rest);
        let scaled_red = reduced(scaled.0, scaled.1);
        let summed = crate::rational::q::rat_add(s[0], scaled_red);
        reduced(summed.0, summed.1)
    }
}

impl crate::traits::Evaluate<&Q, Q> for PolyOverQ {
    open spec fn evaluate_req(&self, value: &&Q) -> bool {
        q_seq_wf(self@) && q_wf((**value)@)
    }

    /// Evaluates the polynomial at the given point by Horner's rule; the
    /// result and every intermediate value are in lowest terms.
    fn evaluate(&self, value: &Q) -> (r: Q)
        ensures
            r@ == poly_q_eval(self@, value@),
            q_wf(r@),
    {
        let mut acc = Q::zero();
        let mut i: usize = self.coeffs.len();
        proof {
            assert(self@.skip(i as int) =~= Seq::<(int, int)>::empty());
        }
        while i > 0
            invariant
                q_seq_wf(self@),
                q_wf(value@),
                i <= self.coeffs.len(),
                self@.len() == self.coeffs@.len(),
                acc@ == poly_q_eval(self@.skip(i as int), value@),
                q_wf(acc@),
            decreases i,
        {
            i -= 1;
            let scaled = value * &acc;
            proof {
                assert(q_wf(self@[i as int]));
                assert(self.coeffs@[i as int]@ == self@[i as int]);
            }
            acc = &self.coeffs[i] + &scaled;
            proof {
                let t = self@.skip(i as int);
                assert(t.skip(1) =~= self@.skip(i + 1));
                assert(t[0] == self@[i as int]);
            }
        }
        proof {
            assert(self@.skip(0) =~= self@);
        }
        acc
    }
}

impl crate::traits::Evaluate<Q, Q> for PolyOverQ {
    open spec fn evaluate_req(&self, value: &Q) -> bool {
        q_seq_wf(self@) && q_wf((*value)@)
    }

    /// A forwarder to the borrowed-operand form of `evaluate`.
    fn evaluate(&self, value: Q) -> (r: Q)
        ensures
            r@ == poly_q_eval(self@, value@),
            q_wf(r@),
    {
        crate::traits::Evaluate::<&Q, Q>::evaluate(self, &value)
    }
}

impl crate::traits::GetCoefficient<Q> for PolyOverQ {
    /// Returns the coefficient at the given index as a fresh value. An index
    /// at or beyond the stored length yields zero, which is not an error; a
    /// negative index yields [`MathError::RangeError`].
    fn get_coeff(&self, index: i64) -> (r: Result<Q, MathError>)
        ensures
            index < 0 ==> r == Err::<Q, MathError>(MathError::RangeError),
            index >= 0 ==> r is Ok && r->Ok_0@ == (if index < self@.len() {
                self@[index as int]
            } else {
                (0int, 1int)
            }),
    {
        if index < 0 {
            return Err(MathError::RangeError);
        }
        if index as u64 > usize::MAX as u64 {
            let stored = self.coeffs.len();
            proof {
                assert(self@.len() == stored as int);
            }
            return Ok(Q::zero());
        }
        let i = index as usize;
        if i < self.coeffs.len() {
            proof {
                assert(self@[i as int] == self.coeffs@[i as int]@);
            }
            Ok(self.coeffs[i].clone())
        } else {
            Ok(Q::zero())
        }
    }
}

} // verus!
