//! [`MatZq`] is a matrix of residues under one shared [`Modulus`].
//!
//! The text grammar is a bracketed list of bracketed rows suffixed with
//! `" mod <modulus>"`, e.g. `[[1,2],[3,4]] mod 5`; a single space is
//! accepted after each comma on input. Every entry is reduced into
//! `[0, modulus)` when the matrix is built, so canonical output always
//! shows reduced representatives.
use crate::error::MathError;
use crate::integer::poly_over_z::z_ok;
use crate::integer::poly_over_z::z_seq_views;
use crate::integer::poly_over_z::z_val;
use crate::integer::z::Z;
use crate::integer_mod_q::modulus::modulus_wf;
use crate::integer_mod_q::modulus::Modulus;
use crate::integer_mod_q::zq::reduce_big;
use crate::text::find_first;
use crate::text::find_last;
use crate::text::first_pos;
use crate::text::format_int_chars;
use crate::text::int_text;
use crate::text::int_text_value;
use crate::text::last_pos;
use crate::text::lemma_first_pos_bounds;
use crate::text::lemma_last_pos_bounds;
use crate::text::digit_val;
use crate::text::parse_int_str;
use crate::text::push_chars;
use crate::text::valid_int_text;
use vstd::arithmetic::div_mod::lemma_mod_bound;
use vstd::prelude::*;

verus! {

/// A list of integer matrix entries separated by `,`, each optionally
/// followed by one space.
pub open spec fn z_entry_list_ok(s: Seq<char>) -> bool
    decreases s.len(),
    via z_entry_list_ok_decreases
{
    let p = first_pos(s, ',');
    if p == s.len() {
        z_ok()(s)
    } else {
        p + 1 < s.len() && z_ok()(s.take(p)) && (if s[p + 1] == ' ' {
            z_entry_list_ok(s.skip(p + 2))
        } else {
            z_entry_list_ok(s.skip(p + 1))
        })
    }
}

#[via_fn]
proof fn z_entry_list_ok_decreases(s: Seq<char>) {
    lemma_first_pos_bounds(s, ',');
}

/// The values of an integer matrix entry list, before reduction.
pub open spec fn z_entry_list_vals(s: Seq<char>) -> Seq<int>
    decreases s.len(),
    via z_entry_list_vals_decreases
{
    let p = first_pos(s, ',');
    if p == s.len() {
        seq![z_val()(s)]
    } else if p + 1 < s.len() && s[p + 1] == ' ' {
        seq![z_val()(s.take(p))] + z_entry_list_vals(s.skip(p + 2))
    } else {
        seq![z_val()(s.take(p))] + z_entry_list_vals(s.skip(p + 1))
    }
}

#[via_fn]
proof fn z_entry_list_vals_decreases(s: Seq<char>) {
    lemma_first_pos_bounds(s, ',');
}

/// A list of bracketed rows of integer entries separated by `,`.
pub open spec fn z_rows_ok(s: Seq<char>) -> bool
    decreases s.len(),
    via z_rows_ok_decreases
{
    let e = first_pos(s, ']');
    s.len() >= 2 && s[0] == '[' && e < s.len() && z_entry_list_ok(s.subrange(1, e)) && (if e + 1
        == s.len() {
        true
    } else {
        e + 2 < s.len() && s[e + 1] == ',' && (if s[e + 2] == ' ' {
            z_rows_ok(s.skip(e + 3))
        } else {
            z_rows_ok(s.skip(e + 2))
        })
    })
}

#[via_fn]
proof fn z_rows_ok_decreases(s: Seq<char>) {
    lemma_first_pos_bounds(s, ']');
}

/// The rows of unreduced entry values a row list denotes.
pub open spec fn z_rows_vals(s: Seq<char>) -> Seq<Seq<int>>
    decreases s.len(),
    via z_rows_vals_decreases
{
    let e = first_pos(s, ']');
    if e + 1 >= s.len() {
        seq![z_entry_list_vals(s.subrange(1, e))]
    } else if e + 2 < s.len() && s[e + 2] == ' ' {
        seq![z_entry_list_vals(s.subrange(1, e))] + z_rows_vals(s.skip(e + 3))
    } else {
        seq![z_entry_list_vals(s.subrange(1, e))] + z_rows_vals(s.skip(e + 2))
    }
}

#[via_fn]
proof fn z_rows_vals_decreases(s: Seq<char>) {
    lemma_first_pos_bounds(s, ']');
}

/// Whether a sequence of integer rows is rectangular with at least one row
/// and one column, within the dimensions the accessors can report.
pub open spec fn z_rect(v: Seq<Seq<int>>) -> bool {
    &&& v.len() >= 1
    &&& v.len() <= i64::MAX
    &&& v[0].len() >= 1
    &&& v[0].len() <= i64::MAX
    &&& forall|i: int| 0 <= i < v.len() ==> #[trigger] v[i].len() == v[0].len()
}

/// A well-formed residue matrix text: a bracketed list of equally long
/// bracketed rows, then `" mod "` and a positive modulus.
pub open spec fn valid_mat_zq_text(s: Seq<char>) -> bool {
    let e = last_pos(s, ']');
    &&& e >= 2
    &&& s[0] == '['
    &&& z_rows_ok(s.subrange(1, e))
    &&& z_rect(z_rows_vals(s.subrange(1, e)))
    &&& s.len() >= e + 6
    &&& s.subrange(e + 1, e + 6) == seq![' ', 'm', 'o', 'd', ' ']
    &&& valid_int_text(s.skip(e + 6), 10)
    &&& int_text_value(s.skip(e + 6), 10) > 0
}

/// The rows of unreduced entry values a residue matrix text denotes.
pub open spec fn mat_zq_text_vals(s: Seq<char>) -> Seq<Seq<int>> {
    z_rows_vals(s.subrange(1, last_pos(s, ']')))
}

/// The modulus a residue matrix text names.
pub open spec fn mat_zq_text_modulus(s: Seq<char>) -> int {
    int_text_value(s.skip(last_pos(s, ']') + 6), 10)
}

/// Every row of values reduced into `[0, m)`.
pub open spec fn reduce_rows(v: Seq<Seq<int>>, m: int) -> Seq<Seq<int>> {
    Seq::new(v.len(), |i: int| Seq::new(v[i].len(), |j: int| v[i][j] % m))
}

/// The well-formedness of a residue matrix: rectangular, positive modulus,
/// every representative in `[0, modulus)`.
pub open spec fn mat_zq_wf(v: (Seq<Seq<int>>, int)) -> bool {
    &&& z_rect(v.0)
    &&& v.1 > 0
    &&& forall|i: int, j: int|
        0 <= i < v.0.len() && 0 <= j < v.0[i].len() ==> 0 <= #[trigger] v.0[i][j] < v.1
}

/// The canonical text of one row's entries, joined by `,`.
pub open spec fn z_row_text(r: Seq<int>) -> Seq<char>
    decreases r.len(),
{
    if r.len() == 0 {
        Seq::empty()
    } else if r.len() == 1 {
        int_text(r[0], 10)
    } else {
        z_row_text(r.drop_last()) + seq![','] + int_text(r.last(), 10)
    }
}

/// The canonical text of the bracketed rows, joined by `,`.
pub open spec fn z_rows_text(v: Seq<Seq<int>>) -> Seq<char>
    decreases v.len(),
{
    if v.len() == 0 {
        Seq::empty()
    } else if v.len() == 1 {
        seq!['['] + z_row_text(v[0]) + seq![']']
    } else {
        z_rows_text(v.drop_last()) + seq![','] + (seq!['['] + z_row_text(v.last()) + seq![']'])
    }
}

/// The canonical text of a residue matrix, with its modulus suffix.
pub open spec fn mat_zq_text(v: (Seq<Seq<int>>, int)) -> Seq<char> {
    seq!['['] + z_rows_text(v.0) + seq![']'] + seq![' ', 'm', 'o', 'd', ' '] + int_text(v.1, 10)
}

/// A matrix of residues, stored by rows, with one shared modulus context.
#[derive(Debug)]
pub struct MatZq {
    pub(crate) rows: Vec<Vec<Z>>,
    pub(crate) modulus: Modulus,
}

impl View for MatZq {
    type V = (Seq<Seq<int>>, int);

    closed spec fn view(&self) -> (Seq<Seq<int>>, int) {
        (Seq::new(self.rows@.len(), |i: int| z_seq_views(self.rows@[i]@)), self.modulus@)
    }
}

/// Parses one row's integer entry list (the text between a row's brackets).
fn parse_z_entry_list(s: &str) -> (r: Option<Vec<Z>>)
    ensures
        r is Some <==> z_entry_list_ok(s@),
        r is Some ==> z_seq_views(r->0@) == z_entry_list_vals(s@),
    {
    let n: usize = s.unicode_len();
    let mut out: Vec<Z> = Vec::new();
    let mut pos: usize = 0;
    proof {
        assert(s@.skip(0) =~= s@);
    }
    loop
        invariant
            pos <= n,
            n == s@.len(),
            z_entry_list_ok(s@) <==> z_entry_list_ok(s@.skip(pos as int)),
            z_entry_list_ok(s@) ==> z_entry_list_vals(s@) =~= z_seq_views(out@)
                + z_entry_list_vals(s@.skip(pos as int)),
        decreases n - pos,
    {
        let tail = s.substring_char(pos, n);
        proof {
            assert(tail@ == s@.skip(pos as int));
        }
        let p: usize = find_first(tail, ',');
        if p == n - pos {
            let entry = match parse_int_str(tail, 10) {
                Some(v) => v,
                None => {
                    return None;
                },
            };
            let ghost old_views = z_seq_views(out@);
            out.push(Z::from_big(entry));
            proof {
                assert(z_seq_views(out@) =~= old_views + seq![int_text_value(tail@, 10)]);
                if z_entry_list_ok(s@) {
                    assert(z_entry_list_vals(s@.skip(pos as int)) == seq![z_val()(tail@)]);
                }
            }
            return Some(out);
        }
        let token = tail.substring_char(0, p);
        proof {
            assert(token@ == tail@.take(p as int));
        }
        let entry = match parse_int_str(token, 10) {
            Some(v) => v,
            None => {
                return None;
            },
        };
        if p + 1 >= n - pos {
            return None;
        }
        let step: usize = if tail.get_char(p + 1) == ' ' {
            2
        } else {
            1
        };
        let ghost old_views = z_seq_views(out@);
        let ghost old_pos = pos as int;
        out.push(Z::from_big(entry));
        pos = pos + p + step;
        proof {
            assert(z_seq_views(out@) =~= old_views + seq![int_text_value(tail@.take(p as int), 10)]);
            assert(s@.skip(old_pos).skip(p + step) =~= s@.skip(pos as int));
        }
    }
}

/// Parses a list of bracketed rows of integers.
fn parse_z_rows(s: &str) -> (r: Option<Vec<Vec<Z>>>)
    ensures
        r is Some <==> z_rows_ok(s@),
        r is Some ==> Seq::new(r->0@.len(), |i: int| z_seq_views(r->0@[i]@)) == z_rows_vals(s@),
    {
    let n: usize = s.unicode_len();
    let mut out: Vec<Vec<Z>> = Vec::new();
    let mut pos: usize = 0;
    proof {
        assert(s@.skip(0) =~= s@);
    }
    if n == 0 {
        return None;
    }
    loop
        invariant
            pos <= n,
            n == s@.len(),
            z_rows_ok(s@) <==> z_rows_ok(s@.skip(pos as int)),
            z_rows_ok(s@) ==> z_rows_vals(s@) =~= Seq::new(
                out@.len(),
                |i: int| z_seq_views(out@[i]@),
            ) + z_rows_vals(s@.skip(pos as int)),
        decreases n - pos,
    {
        let tail = s.substring_char(pos, n);
        proof {
            assert(tail@ == s@.skip(pos as int));
        }
        let e: usize = find_first(tail, ']');
        if e == n - pos || n - pos < 2 {
            proof {
                assert(!z_rows_ok(tail@));
            }
            return None;
        }
        if tail.get_char(0) != '[' {
            return None;
        }
        proof {
            lemma_first_pos_bounds(tail@, ']');
            assert(tail@[e as int] == ']');
            assert(e >= 1);
        }
        let row_body = tail.substring_char(1, e);
        proof {
            assert(row_body@ == tail@.subrange(1, e as int));
        }
        let row = match parse_z_entry_list(row_body) {
            Some(v) => v,
            None => {
                return None;
            },
        };
        let ghost old_rows = Seq::new(out@.len(), |i: int| z_seq_views(out@[i]@));
        let ghost rv = z_seq_views(row@);
        let ghost old_pos = pos as int;
        if e + 1 == n - pos {
            out.push(row);
            proof {
                let newrows = Seq::new(out@.len(), |i: int| z_seq_views(out@[i]@));
                assert(newrows =~= old_rows + seq![rv]);
                if z_rows_ok(s@) {
                    assert(z_rows_vals(s@.skip(old_pos)) == seq![
                        z_entry_list_vals(tail@.subrange(1, e as int)),
                    ]);
                }
            }
            return Some(out);
        }
        if e + 2 >= n - pos {
            return None;
        }
        if tail.get_char(e + 1) != ',' {
            return None;
        }
        let step: usize = if tail.get_char(e + 2) == ' ' {
            3
        } else {
            2
        };
        out.push(row);
        pos = pos + e + step;
        proof {
            let newrows = Seq::new(out@.len(), |i: int| z_seq_views(out@[i]@));
            assert(newrows =~= old_rows + seq![rv]);
            assert(s@.skip(old_pos).skip(e + step) =~= s@.skip(pos as int));
        }
    }
}

impl Clone for MatZq {
    /// Deep-copies every entry and shares the modulus context.
    fn clone(&self) -> (r: MatZq)
        ensures
            r@ == self@,
    {
        let mut rows: Vec<Vec<Z>> = Vec::new();
        let mut i: usize = 0;
        while i < self.rows.len()
            invariant
                i <= self.rows.len(),
                rows@.len() == i,
                forall|k: int| 0 <= k < i ==> z_seq_views(#[trigger] rows@[k]@) == z_seq_views(
                    self.rows@[k]@,
                ),
            decreases self.rows.len() - i,
        {
            let mut row: Vec<Z> = Vec::new();
            let mut j: usize = 0;
            while j < self.rows[i].len()
                invariant
                    i < self.rows@.len(),
                    j <= self.rows@[i as int]@.len(),
                    row@.len() == j,
                    z_seq_views(row@) =~= z_seq_views(self.rows@[i as int]@).take(j as int),
                decreases self.rows@[i as int]@.len() - j,
            {
                row.push(self.rows[i][j].clone());
                j += 1;
                proof {
                    assert(z_seq_views(row@) =~= z_seq_views(self.rows@[i as int]@).take(j as int));
                }
            }
            proof {
                assert(z_seq_views(self.rows@[i as int]@).take(self.rows@[i as int]@.len() as int)
                    =~= z_seq_views(self.rows@[i as int]@));
            }
            rows.push(row);
            i += 1;
        }
        let out = MatZq { rows, modulus: self.modulus.clone() };
        proof {
            assert(out@.0 =~= self@.0);
            assert(out@ == self@);
        }
        out
    }
}

impl PartialEq for MatZq {
    /// Two residue matrices are equal exactly when their representatives
    /// and modulus values are.
    fn eq(&self, other: &MatZq) -> (r: bool) {
        if !(self.modulus == other.modulus) {
            return false;
        }
        if self.rows.len() != other.rows.len() {
            proof {
                assert(self@.0.len() != other@.0.len());
            }
            return false;
        }
        let mut i: usize = 0;
        while i < self.rows.len()
            invariant
                i <= self.rows.len(),
                self.rows@.len() == other.rows@.len(),
                forall|k: int| 0 <= k < i ==> z_seq_views(#[trigger] self.rows@[k]@) == z_seq_views(
                    other.rows@[k]@,
                ),
            decreases self.rows.len() - i,
        {
            if self.rows[i].len() != other.rows[i].len() {
                proof {
                    assert(self@.0[i as int].len() != other@.0[i as int].len());
                }
                return false;
            }
            let mut j: usize = 0;
            while j < self.rows[i].len()
                invariant
                    i < self.rows@.len(),
                    self.rows@.len() == other.rows@.len(),
                    j <= self.rows@[i as int]@.len(),
                    self.rows@[i as int]@.len() == other.rows@[i as int]@.len(),
                    forall|k: int| 0 <= k < j ==> z_seq_views(self.rows@[i as int]@)[k]
                        == z_seq_views(#[trigger] other.rows@[i as int]@)[k],
                decreases self.rows@[i as int]@.len() - j,
            {
                if !(self.rows[i][j] == other.rows[i][j]) {
                    proof {
                        assert(self@.0[i as int][j as int] != other@.0[i as int][j as int]);
                    }
                    return false;
                }
                j += 1;
            }
            proof {
                assert(z_seq_views(self.rows@[i as int]@) =~= z_seq_views(
                    other.rows@[i as int]@,
                ));
            }
            i += 1;
        }
        proof {
            assert(self@.0 =~= other@.0);
        }
        true
    }
}

impl vstd::std_specs::cmp::PartialEqSpecImpl for MatZq {
    open spec fn obeys_eq_spec() -> bool {
        true
    }

    open spec fn eq_spec(&self, other: &MatZq) -> bool {
        self@ == other@
    }
}

impl MatZq {
    /// Creates a residue matrix from its text form
    /// `[[a,b],[c,d]] mod <modulus>`; every entry is reduced into
    /// `[0, modulus)`. A single space is accepted after each comma.
    ///
    /// Returns [`MathError::MalformedInput`] exactly on text that does not
    /// match the grammar with equally long rows and a positive modulus.
    pub fn from_str(s: &str) -> (r: Result<MatZq, MathError>)
        ensures
            r is Ok <==> valid_mat_zq_text(s@),
            r is Ok ==> r->Ok_0@ == (
                reduce_rows(mat_zq_text_vals(s@), mat_zq_text_modulus(s@)),
                mat_zq_text_modulus(s@),
            ) && mat_zq_wf(r->Ok_0@),
            r is Err ==> r == Err::<MatZq, MathError>(MathError::MalformedInput),
    {
        let n: usize = s.unicode_len();
        proof {
            lemma_last_pos_bounds(s@, ']');
        }
        let e: usize = match find_last(s, ']') {
            Some(v) => v,
            None => {
                return Err(MathError::MalformedInput);
            },
        };
        if e < 2 {
            return Err(MathError::MalformedInput);
        }
        if s.get_char(0) != '[' {
            return Err(MathError::MalformedInput);
        }
        if n < 6 || e > n - 6 {
            return Err(MathError::MalformedInput);
        }
        if s.get_char(e + 1) != ' ' || s.get_char(e + 2) != 'm' || s.get_char(e + 3) != 'o'
            || s.get_char(e + 4) != 'd' || s.get_char(e + 5) != ' ' {
            proof {
                if valid_mat_zq_text(s@) {
                    assert(s@.subrange(e + 1, e + 6)[0] == ' ');
                    assert(s@.subrange(e + 1, e + 6)[1] == 'm');
                    assert(s@.subrange(e + 1, e + 6)[2] == 'o');
                    assert(s@.subrange(e + 1, e + 6)[3] == 'd');
                    assert(s@.subrange(e + 1, e + 6)[4] == ' ');
                }
            }
            return Err(MathError::MalformedInput);
        }
        proof {
            assert(s@.subrange(e + 1, e + 6) =~= seq![' ', 'm', 'o', 'd', ' ']);
        }
        let modulus_part = s.substring_char(e + 6, n);
        proof {
            assert(modulus_part@ == s@.skip(e + 6));
        }
        let modulus = match Modulus::from_str(modulus_part) {
            Ok(m) => m,
            Err(_) => {
                return Err(MathError::MalformedInput);
            },
        };
        let body = s.substring_char(1, e);
        proof {
            assert(body@ == s@.subrange(1, e as int));
        }
        let raw = match parse_z_rows(body) {
            Some(v) => v,
            None => {
                return Err(MathError::MalformedInput);
            },
        };
        let ghost v = z_rows_vals(body@);
        proof {
            lemma_z_rows_len(body@);
        }
        let first_len = raw[0].len();
        if first_len == 0 {
            proof {
                assert(v[0].len() == 0);
                assert(!z_rect(v));
            }
            return Err(MathError::MalformedInput);
        }
        let mut i: usize = 1;
        while i < raw.len()
            invariant
                1 <= i <= raw@.len(),
                first_len == raw@[0]@.len(),
                v == z_rows_vals(s@.subrange(1, last_pos(s@, ']'))),
                v == Seq::new(raw@.len(), |k: int| z_seq_views(raw@[k]@)),
                forall|k: int| 0 <= k < i ==> #[trigger] raw@[k]@.len() == first_len,
            decreases raw@.len() - i,
        {
            if raw[i].len() != first_len {
                proof {
                    assert(v[i as int].len() == z_seq_views(raw@[i as int]@).len());
                    assert(v[0].len() == z_seq_views(raw@[0]@).len());
                    assert(!z_rect(v));
                }
                return Err(MathError::MalformedInput);
            }
            i += 1;
        }
        let max_dim: u64 = 0x7fff_ffff_ffff_ffff;
        if raw.len() as u64 > max_dim || first_len as u64 > max_dim {
            proof {
                assert(!z_rect(v));
            }
            return Err(MathError::MalformedInput);
        }
        proof {
            assert(z_rect(v));
        }
        // reduce every entry into canonical form
        let ghost m = modulus@;
        let mut rows: Vec<Vec<Z>> = Vec::new();
        let mut a: usize = 0;
        while a < raw.len()
            invariant
                modulus_wf(modulus@),
                m == modulus@,
                a <= raw@.len(),
                rows@.len() == a,
                v == Seq::new(raw@.len(), |k: int| z_seq_views(raw@[k]@)),
                forall|k: int| 0 <= k < a ==> z_seq_views(#[trigger] rows@[k]@) =~= Seq::new(
                    v[k].len(),
                    |j: int| v[k][j] % m,
                ),
            decreases raw@.len() - a,
        {
            let mut row: Vec<Z> = Vec::new();
            let mut b: usize = 0;
            while b < raw[a].len()
                invariant
                    modulus_wf(modulus@),
                    m == modulus@,
                    a < raw@.len(),
                    v == Seq::new(raw@.len(), |k: int| z_seq_views(raw@[k]@)),
                    b <= raw@[a as int]@.len(),
                    row@.len() == b,
                    forall|j: int| 0 <= j < b ==> z_seq_views(row@)[j] == v[a as int][j] % m,
                decreases raw@[a as int]@.len() - b,
            {
                let ghost prev = row@;
                let reduced_rep = reduce_big(raw[a][b].as_big(), modulus.as_big());
                row.push(Z::from_big(reduced_rep));
                b += 1;
                proof {
                    assert forall|j: int| 0 <= j < b implies z_seq_views(row@)[j] == v[a as int][j]
                        % m by {
                        if j < b - 1 {
                            assert(row@[j] == prev[j]);
                            assert(z_seq_views(prev)[j] == v[a as int][j] % m);
                        } else {
                            assert(z_seq_views(raw@[a as int]@)[j] == v[a as int][j]);
                        }
                    }
                }
            }
            rows.push(row);
            a += 1;
            proof {
                assert(z_seq_views(rows@[a - 1]@) =~= Seq::new(
                    v[a - 1].len(),
                    |j: int| v[a - 1][j] % m,
                ));
            }
        }
        let out = MatZq { rows, modulus };
        proof {
            assert(out@.0 =~= reduce_rows(v, m));
            assert(mat_zq_wf(out@)) by {
                assert forall|x: int| 0 <= x < out@.0.len() implies #[trigger] out@.0[x].len()
                    == out@.0[0].len() by {
                    assert(out@.0[x].len() == v[x].len());
                    assert(v[x].len() == v[0].len());
                }
                assert forall|x: int, y: int|
                    0 <= x < out@.0.len() && 0 <= y < out@.0[x].len() implies 0
                    <= #[trigger] out@.0[x][y] < out@.1 by {
                    assert(out@.0[x][y] == v[x][y] % m);
                    lemma_mod_bound(v[x][y], m);
                }
            }
        }
        Ok(out)
    }

    /// The canonical text of the matrix, as characters.
    pub(crate) fn to_chars(&self) -> (r: Vec<char>)
        requires
            mat_zq_wf(self@),
        ensures
            r@ == mat_zq_text(self@),
    {
        let mut out: Vec<char> = Vec::new();
        out.push('[');
        proof {
            assert(out@ =~= seq!['['] + z_rows_text(self@.0.take(0)));
        }
        let mut i: usize = 0;
        while i < self.rows.len()
            invariant
                mat_zq_wf(self@),
                i <= self.rows@.len(),
                self@.0.len() == self.rows@.len(),
                out@ == seq!['['] + z_rows_text(self@.0.take(i as int)),
            decreases self.rows@.len() - i,
        {
            if i > 0 {
                out.push(',');
            }
            out.push('[');
            let ghost row = self@.0[i as int];
            let mut j: usize = 0;
            let ghost before = out@;
            while j < self.rows[i].len()
                invariant
                    mat_zq_wf(self@),
                    i < self.rows@.len(),
                    self@.0.len() == self.rows@.len(),
                    row == self@.0[i as int],
                    j <= self.rows@[i as int]@.len(),
                    row.len() == self.rows@[i as int]@.len(),
                    out@ == before + z_row_text(row.take(j as int)),
                decreases self.rows@[i as int]@.len() - j,
            {
                if j > 0 {
                    out.push(',');
                }
                proof {
                    assert(self.rows@[i as int]@[j as int]@ == self@.0[i as int][j as int]);
                }
                let digits = format_int_chars(self.rows[i][j].as_big(), 10);
                push_chars(&mut out, &digits);
                proof {
                    let t = row.take(j + 1);
                    assert(t.drop_last() =~= row.take(j as int));
                    assert(t.last() == row[j as int]);
                    if j == 0 {
                        assert(z_row_text(t) == int_text(row[0], 10));
                        assert(out@ =~= before + z_row_text(t));
                    } else {
                        assert(z_row_text(t) == z_row_text(row.take(j as int)) + seq![',']
                            + int_text(row[j as int], 10));
                        assert(out@ =~= before + z_row_text(t));
                    }
                }
                j += 1;
            }
            out.push(']');
            i += 1;
            proof {
                assert(row.take(row.len() as int) =~= row);
                let t = self@.0.take(i as int);
                assert(t.drop_last() =~= self@.0.take(i - 1));
                assert(t.last() == self@.0[i - 1]);
                if i == 1 {
                    assert(z_rows_text(t) == seq!['['] + z_row_text(self@.0[0]) + seq![']']);
                    assert(out@ =~= seq!['['] + z_rows_text(t));
                } else {
                    assert(z_rows_text(t) == z_rows_text(self@.0.take(i - 1)) + seq![','] + (
                    seq!['['] + z_row_text(self@.0[i - 1]) + seq![']']));
                    assert(out@ =~= seq!['['] + z_rows_text(t));
                }
            }
        }
        out.push(']');
        out.push(' ');
        out.push('m');
        out.push('o');
        out.push('d');
        out.push(' ');
        let m_chars = format_int_chars(self.modulus.as_big(), 10);
        push_chars(&mut out, &m_chars);
        proof {
            assert(self@.0.take(self@.0.len() as int) =~= self@.0);
            assert(out@ =~= mat_zq_text(self@));
        }
        out
    }

    /// Renders the canonical text of the matrix: rows bracketed and joined
    /// by commas without spaces, then `" mod <modulus>"`, with every entry
    /// shown as its reduced representative.
    pub fn to_string(&self) -> (r: String)
        requires
            mat_zq_wf(self@),
        ensures
            r@ == mat_zq_text(self@),
    {
        let chars = self.to_chars();
        crate::engine::chars_to_string(&chars)
    }

    /// Serializes the matrix to the single-field object
    /// `{"matrix":"<canonical text>"}`.
    pub fn serialize(&self) -> (r: String)
        requires
            mat_zq_wf(self@),
        ensures
            r@ == crate::serialize::json_wrap(mat_zq_text(self@)),
    {
        let chars = self.to_chars();
        crate::serialize::json_build(&chars)
    }

    /// Deserializes a matrix from the single-field object form, rejecting a
    /// missing, renamed, duplicated or trailing field, a non-positive
    /// modulus, and any payload that fails the matrix grammar.
    pub fn deserialize(s: &str) -> (r: Result<MatZq, MathError>)
        ensures
            r is Ok <==> crate::serialize::json_shape(s@) && valid_mat_zq_text(
                crate::serialize::json_payload(s@),
            ),
            r is Ok ==> r->Ok_0@ == (
                reduce_rows(
                    mat_zq_text_vals(crate::serialize::json_payload(s@)),
                    mat_zq_text_modulus(crate::serialize::json_payload(s@)),
                ),
                mat_zq_text_modulus(crate::serialize::json_payload(s@)),
            ) && mat_zq_wf(r->Ok_0@),
            r is Err ==> r == Err::<MatZq, MathError>(MathError::MalformedInput),
    {
        let payload = match crate::serialize::json_check(s) {
            Some(p) => p,
            None => {
                return Err(MathError::MalformedInput);
            },
        };
        MatZq::from_str(payload)
    }

}

impl crate::traits::GetNumRows for MatZq {
    open spec fn rows_req(&self) -> bool {
        mat_zq_wf(self@)
    }

    /// Returns the number of rows.
    fn get_num_rows(&self) -> (r: i64)
        ensures
            r == self@.0.len(),
    {
        self.rows.len() as i64
    }
}

impl crate::traits::GetNumColumns for MatZq {
    open spec fn columns_req(&self) -> bool {
        mat_zq_wf(self@)
    }

    /// Returns the number of columns.
    fn get_num_columns(&self) -> (r: i64)
        ensures
            r == self@.0[0].len(),
    {
        proof {
            assert(self@.0[0].len() == z_seq_views(self.rows@[0]@).len());
        }
        self.rows[0].len() as i64
    }
}

impl crate::traits::GetEntry<Z> for MatZq {
    open spec fn get_entry_req(&self) -> bool {
        mat_zq_wf(self@)
    }

    /// Returns the representative at the given row and column as a fresh
    /// integer, or [`MathError::RangeError`] exactly when an index is
    /// negative or out of range.
    fn get_entry(&self, row: i64, column: i64) -> (r: Result<Z, MathError>)
        ensures
            !(0 <= row < self@.0.len() && 0 <= column < self@.0[0].len()) ==> r == Err::<
                Z,
                MathError,
            >(MathError::RangeError),
            0 <= row < self@.0.len() && 0 <= column < self@.0[0].len() ==> r is Ok && r->Ok_0@
                == self@.0[row as int][column as int],
    {
        if row < 0 || column < 0 {
            return Err(MathError::RangeError);
        }
        if row as u64 >= self.rows.len() as u64 {
            return Err(MathError::RangeError);
        }
        let i = row as usize;
        proof {
            assert(self@.0[i as int].len() == self@.0[0].len());
            assert(z_seq_views(self.rows@[i as int]@) == self@.0[i as int]);
        }
        if column as u64 >= self.rows[i].len() as u64 {
            return Err(MathError::RangeError);
        }
        let j = column as usize;
        Ok(self.rows[i][j].clone())
    }
}

impl crate::traits::SetEntry<Z> for MatZq {
    open spec fn set_entry_req(&self, value: &Z) -> bool {
        mat_zq_wf(self@)
    }

    /// Reduces the given value into `[0, modulus)` and stores it at the
    /// given row and column, or returns [`MathError::RangeError`] exactly
    /// when an index is negative or out of range, leaving the matrix
    /// unchanged.
    fn set_entry(&mut self, row: i64, column: i64, value: Z) -> (r: Result<(), MathError>)
        ensures
            !(0 <= row < old(self)@.0.len() && 0 <= column < old(self)@.0[0].len()) ==> r == Err::<
                (),
                MathError,
            >(MathError::RangeError) && final(self)@ == old(self)@,
            0 <= row < old(self)@.0.len() && 0 <= column < old(self)@.0[0].len() ==> r is Ok
                && final(self)@.1 == old(self)@.1 && final(self)@.0 == old(self)@.0.update(
                row as int,
                old(self)@.0[row as int].update(column as int, value@ % old(self)@.1),
            ) && mat_zq_wf(final(self)@),
    {
        if row < 0 || column < 0 {
            return Err(MathError::RangeError);
        }
        if row as u64 >= self.rows.len() as u64 {
            return Err(MathError::RangeError);
        }
        let i = row as usize;
        proof {
            assert(self@.0[i as int].len() == self@.0[0].len());
            assert(z_seq_views(self.rows@[i as int]@) == self@.0[i as int]);
        }
        if column as u64 >= self.rows[i].len() as u64 {
            return Err(MathError::RangeError);
        }
        let j = column as usize;
        let ghost before = self@.0;
        let ghost m = self@.1;
        let reduced_rep = reduce_big(value.as_big(), self.modulus.as_big());
        let mut new_row: Vec<Z> = Vec::new();
        let mut k: usize = 0;
        while k < self.rows[i].len()
            invariant
                i < self.rows@.len(),
                k <= self.rows@[i as int]@.len(),
                new_row@.len() == k,
                z_seq_views(new_row@) =~= z_seq_views(self.rows@[i as int]@).take(k as int),
            decreases self.rows@[i as int]@.len() - k,
        {
            new_row.push(self.rows[i][k].clone());
            k += 1;
            proof {
                assert(z_seq_views(new_row@) =~= z_seq_views(self.rows@[i as int]@).take(
                    k as int,
                ));
            }
        }
        proof {
            assert(z_seq_views(new_row@) =~= z_seq_views(self.rows@[i as int]@));
        }
        new_row.set(j, Z::from_big(reduced_rep));
        self.rows.set(i, new_row);
        proof {
            assert(z_seq_views(self.rows@[i as int]@) =~= before[i as int].update(
                j as int,
                value@ % m,
            ));
            assert(self@.0 =~= before.update(i as int, before[i as int].update(
                j as int,
                value@ % m,
            )));
            assert(mat_zq_wf(self@)) by {
                lemma_mod_bound(value@, m);
                assert forall|a: int| 0 <= a < self@.0.len() implies #[trigger] self@.0[a].len()
                    == self@.0[0].len() by {
                    assert(before[a].len() == before[0].len());
                }
                assert forall|a: int, b: int|
                    0 <= a < self@.0.len() && 0 <= b < self@.0[a].len() implies 0
                    <= #[trigger] self@.0[a][b] < self@.1 by {
                    if a == i as int && b == j as int {
                    } else {
                        assert(self@.0[a][b] == before[a][b]);
                        assert(before[a].len() == before[0].len());
                    }
                }
            }
        }
        Ok(())
    }
}

/// A row list always denotes at least one row.
proof fn lemma_z_rows_len(s: Seq<char>)
    ensures
        z_rows_vals(s).len() >= 1,
{
    lemma_first_pos_bounds(s, ']');
}

/// The canonical text of a row of representatives holds neither bracket,
/// comma-space, nor any character that is not a digit, sign or comma.
proof fn lemma_z_row_text_no_char(r: Seq<int>, c: char, k: int)
    requires
        digit_val(c, 10) == -1,
        c != '-',
        c != ',',
        0 <= k < z_row_text(r).len(),
    ensures
        z_row_text(r)[k] != c,
    decreases r.len(),
{
    if r.len() == 0 {
    } else if r.len() == 1 {
        crate::text::lemma_int_text_no_char(r[0], 10, c);
    } else {
        let head = z_row_text(r.drop_last());
        if k < head.len() {
            lemma_z_row_text_no_char(r.drop_last(), c, k);
        } else if k == head.len() {
        } else {
            crate::text::lemma_int_text_no_char(r.last(), 10, c);
            assert(z_row_text(r)[k] == int_text(r.last(), 10)[k - head.len() - 1]);
        }
    }
}

/// The canonical row read from the front: the first entry's numeral, then a
/// comma and the rest.
proof fn lemma_z_row_text_front(r: Seq<int>)
    requires
        r.len() >= 1,
    ensures
        r.len() == 1 ==> z_row_text(r) == int_text(r[0], 10),
        r.len() > 1 ==> z_row_text(r) == int_text(r[0], 10) + seq![','] + z_row_text(r.skip(1)),
    decreases r.len(),
{
    if r.len() == 1 {
    } else if r.len() == 2 {
        assert(r.drop_last() =~= seq![r[0]]);
        assert(r.skip(1) =~= seq![r[1]]);
        assert(z_row_text(seq![r[0]]) == int_text(r[0], 10));
        assert(z_row_text(seq![r[1]]) == int_text(r[1], 10));
        assert(z_row_text(r) == z_row_text(r.drop_last()) + seq![','] + int_text(r.last(), 10));
        assert(z_row_text(r) =~= int_text(r[0], 10) + seq![','] + z_row_text(r.skip(1)));
    } else {
        let d = r.drop_last();
        lemma_z_row_text_front(d);
        assert(z_row_text(r) == z_row_text(d) + seq![','] + int_text(r.last(), 10));
        assert(z_row_text(d) == int_text(r[0], 10) + seq![','] + z_row_text(d.skip(1)));
        assert(z_row_text(r.skip(1)) == z_row_text(d.skip(1)) + seq![','] + int_text(
            r.last(),
            10,
        )) by {
            assert(r.skip(1).len() >= 2);
            assert(r.skip(1).drop_last() =~= d.skip(1));
            assert(r.skip(1).last() == r.last());
        }
        let head = int_text(r[0], 10);
        let mid = z_row_text(d.skip(1));
        let tail = int_text(r.last(), 10);
        assert(z_row_text(r) =~= head + seq![','] + mid + seq![','] + tail);
        assert(head + seq![','] + z_row_text(r.skip(1)) =~= head + seq![','] + mid + seq![',']
            + tail);
        assert(z_row_text(r) == int_text(r[0], 10) + seq![','] + z_row_text(r.skip(1)));
    }
}

/// The canonical row text is a well-formed entry list denoting the same
/// values.
proof fn lemma_z_row_round_trip(r: Seq<int>)
    requires
        r.len() >= 1,
    ensures
        z_entry_list_ok(z_row_text(r)),
        z_entry_list_vals(z_row_text(r)) =~= r,
    decreases r.len(),
{
    let s = z_row_text(r);
    lemma_z_row_text_front(r);
    crate::text::lemma_int_text_round_trip(r[0], 10);
    crate::text::lemma_int_text_no_char(r[0], 10, ',');
    let a = int_text(r[0], 10);
    if r.len() == 1 {
        assert(s == a);
        assert forall|k: int| 0 <= k < s.len() implies s[k] != ',' by {
            assert(int_text(r[0], 10)[k] != ',');
        }
        crate::text::lemma_first_pos_is(s, ',', s.len() as int);
    } else {
        lemma_z_row_round_trip(r.skip(1));
        assert(s[a.len() as int] == ',');
        assert forall|k: int| 0 <= k < a.len() implies s[k] != ',' by {
            assert(s[k] == a[k]);
            assert(int_text(r[0], 10)[k] != ',');
        }
        crate::text::lemma_first_pos_is(s, ',', a.len() as int);
        let p = a.len() as int;
        assert(s.take(p) =~= a);
        assert(s.skip(p + 1) =~= z_row_text(r.skip(1)));
        assert(s[p + 1] != ' ') by {
            assert(s[p + 1] == z_row_text(r.skip(1))[0]);
            lemma_z_row_text_no_char(r.skip(1), ' ', 0);
        }
        assert(z_entry_list_vals(s) =~= r);
    }
}

/// The canonical rows read from the front: the first bracketed row, then a
/// comma and the rest.
proof fn lemma_z_rows_text_front(v: Seq<Seq<int>>)
    requires
        v.len() >= 1,
    ensures
        v.len() == 1 ==> z_rows_text(v) == seq!['['] + z_row_text(v[0]) + seq![']'],
        v.len() > 1 ==> z_rows_text(v) == seq!['['] + z_row_text(v[0]) + seq![']'] + seq![',']
            + z_rows_text(v.skip(1)),
    decreases v.len(),
{
    if v.len() == 1 {
    } else if v.len() == 2 {
        assert(v.drop_last() =~= seq![v[0]]);
        assert(v.skip(1) =~= seq![v[1]]);
        assert(z_rows_text(seq![v[0]]) == seq!['['] + z_row_text(v[0]) + seq![']']);
        assert(z_rows_text(seq![v[1]]) == seq!['['] + z_row_text(v[1]) + seq![']']);
        assert(z_rows_text(v) == z_rows_text(v.drop_last()) + seq![','] + (seq!['['] + z_row_text(
            v.last(),
        ) + seq![']']));
        assert(z_rows_text(v) =~= seq!['['] + z_row_text(v[0]) + seq![']'] + seq![',']
            + z_rows_text(v.skip(1)));
    } else {
        let d = v.drop_last();
        lemma_z_rows_text_front(d);
        assert(z_rows_text(v) == z_rows_text(d) + seq![','] + (seq!['['] + z_row_text(v.last())
            + seq![']']));
        assert(z_rows_text(d) == seq!['['] + z_row_text(v[0]) + seq![']'] + seq![','] + z_rows_text(
            d.skip(1),
        ));
        assert(z_rows_text(v.skip(1)) == z_rows_text(d.skip(1)) + seq![','] + (seq!['[']
            + z_row_text(v.last()) + seq![']'])) by {
            assert(v.skip(1).len() >= 2);
            assert(v.skip(1).drop_last() =~= d.skip(1));
            assert(v.skip(1).last() == v.last());
        }
        let head = seq!['['] + z_row_text(v[0]) + seq![']'];
        let mid = z_rows_text(d.skip(1));
        let tail = seq!['['] + z_row_text(v.last()) + seq![']'];
        assert(z_rows_text(v) =~= head + seq![','] + mid + seq![','] + tail);
        assert(head + seq![','] + z_rows_text(v.skip(1)) =~= head + seq![','] + mid + seq![',']
            + tail);
        assert(z_rows_text(v) == seq!['['] + z_row_text(v[0]) + seq![']'] + seq![','] + z_rows_text(
            v.skip(1),
        ));
    }
}

/// The canonical rows text is a well-formed row list denoting the same
/// rows of values.
proof fn lemma_z_rows_round_trip(v: Seq<Seq<int>>)
    requires
        v.len() >= 1,
        forall|i: int| 0 <= i < v.len() ==> #[trigger] v[i].len() >= 1,
    ensures
        z_rows_ok(z_rows_text(v)),
        z_rows_vals(z_rows_text(v)) =~= v,
    decreases v.len(),
{
    let s = z_rows_text(v);
    lemma_z_rows_text_front(v);
    lemma_z_row_round_trip(v[0]);
    let a = z_row_text(v[0]);
    let e: int = a.len() as int + 1;
    assert(s[0] == '[');
    assert(s[e] == ']');
    assert forall|k: int| 0 <= k < e implies s[k] != ']' by {
        if k >= 1 {
            assert(s[k] == a[k - 1]);
            lemma_z_row_text_no_char(v[0], ']', k - 1);
        }
    }
    crate::text::lemma_first_pos_is(s, ']', e);
    assert(s.subrange(1, e) =~= a);
    if v.len() == 1 {
        assert(e + 1 == s.len());
        assert(z_rows_vals(s) =~= v);
    } else {
        assert(forall|i: int| 0 <= i < v.skip(1).len() ==> v.skip(1)[i] == v[i + 1]);
        assert forall|i: int| 0 <= i < v.skip(1).len() implies #[trigger] v.skip(1)[i].len() >= 1
            by {
            assert(v[i + 1].len() >= 1);
        }
        lemma_z_rows_round_trip(v.skip(1));
        assert(s[e + 1] == ',');
        assert(s.skip(e + 2) =~= z_rows_text(v.skip(1)));
        assert(s[e + 2] == '[') by {
            assert(s[e + 2] == z_rows_text(v.skip(1))[0]);
        }
        assert(e + 2 < s.len());
        assert(z_rows_vals(s) =~= v);
    }
}

/// Canonical-form idempotence: the canonical text of a well-formed residue
/// matrix is well formed and re-parses, after reduction, to that very
/// matrix, so its re-rendering and re-serialization are identical.
pub proof fn lemma_mat_zq_canonical_idempotent(v: (Seq<Seq<int>>, int))
    requires
        mat_zq_wf(v),
    ensures
        valid_mat_zq_text(mat_zq_text(v)),
        reduce_rows(mat_zq_text_vals(mat_zq_text(v)), mat_zq_text_modulus(mat_zq_text(v))) == v.0,
        mat_zq_text_modulus(mat_zq_text(v)) == v.1,
{
    let t = mat_zq_text(v);
    let body = z_rows_text(v.0);
    let e: int = body.len() as int + 1;
    assert forall|i: int| 0 <= i < v.0.len() implies #[trigger] v.0[i].len() >= 1 by {
        assert(v.0[i].len() == v.0[0].len());
    }
    lemma_z_rows_round_trip(v.0);
    crate::text::lemma_int_text_round_trip(v.1, 10);
    crate::text::lemma_int_text_no_char(v.1, 10, ']');
    // the outer closing bracket is the last one: nothing after it is `]`
    assert(t[e] == ']');
    assert forall|k: int| e < k < t.len() implies t[k] != ']' by {
        if k < e + 6 {
            assert(t[k] == seq![' ', 'm', 'o', 'd', ' '][k - e - 1]);
        } else {
            assert(t[k] == int_text(v.1, 10)[k - e - 6]);
        }
    }
    crate::text::lemma_last_pos_is_pub(t, ']', e);
    assert(t.subrange(1, e) =~= body);
    assert(t.subrange(e + 1, e + 6) =~= seq![' ', 'm', 'o', 'd', ' ']);
    assert(t.skip(e + 6) =~= int_text(v.1, 10));
    assert(z_rect(z_rows_vals(body))) by {
        assert(z_rows_vals(body) =~= v.0);
    }
    assert(valid_mat_zq_text(t));
    assert(mat_zq_text_vals(t) =~= v.0);
    assert(mat_zq_text_modulus(t) == v.1);
    assert forall|i: int, j: int|
        0 <= i < v.0.len() && 0 <= j < v.0[i].len() implies #[trigger] reduce_rows(v.0, v.1)[i][j]
        == v.0[i][j] by {
        vstd::arithmetic::div_mod::lemma_small_mod(v.0[i][j] as nat, v.1 as nat);
    }
    assert(reduce_rows(mat_zq_text_vals(t), mat_zq_text_modulus(t)) =~~= v.0);
}

/// Serialization round trip: the serialized object of a well-formed residue
/// matrix deserializes back to that very matrix.
pub proof fn lemma_mat_zq_serialize_round_trip(v: (Seq<Seq<int>>, int))
    requires
        mat_zq_wf(v),
    ensures
        crate::serialize::json_shape(crate::serialize::json_wrap(mat_zq_text(v))),
        valid_mat_zq_text(crate::serialize::json_payload(crate::serialize::json_wrap(mat_zq_text(v)))),
        reduce_rows(
            mat_zq_text_vals(crate::serialize::json_payload(crate::serialize::json_wrap(mat_zq_text(v)))),
            mat_zq_text_modulus(
                crate::serialize::json_payload(crate::serialize::json_wrap(mat_zq_text(v))),
            ),
        ) == v.0,
{
    crate::serialize::lemma_json_wrap_shape(mat_zq_text(v));
    lemma_mat_zq_canonical_idempotent(v);
}

} // verus!
