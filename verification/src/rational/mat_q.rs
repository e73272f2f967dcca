//! [`MatQ`] is a matrix with rational entries of arbitrary precision, each
//! in lowest terms.
//!
//! The text grammar is a bracketed list of bracketed rows,
//! `[[a,b],[c,d]]`, with an optional single space after each comma on
//! input; canonical output has none. All rows must have equal length.
use crate::error::MathError;
use crate::rational::poly_over_q::q_ok;
use crate::rational::poly_over_q::q_seq_views;
use crate::rational::poly_over_q::q_seq_wf;
use crate::rational::poly_over_q::q_val;
use crate::rational::q::q_text;
use crate::rational::q::rat_mul;
use crate::rational::q::reduced;
use crate::rational::q::q_wf;
use crate::rational::q::Q;
use crate::text::find_first;
use crate::text::first_pos;
use crate::text::lemma_first_pos_bounds;
use crate::text::push_chars;
use vstd::prelude::*;

verus! {

/// A list of matrix entries separated by `,`, each optionally followed by
/// one space.
pub open spec fn q_entry_list_ok(s: Seq<char>) -> bool
    decreases s.len(),
    via q_entry_list_ok_decreases
{
    let p = first_pos(s, ',');
    if p == s.len() {
        q_ok()(s)
    } else {
        p + 1 < s.len() && q_ok()(s.take(p)) && (if s[p + 1] == ' ' {
            q_entry_list_ok(s.skip(p + 2))
        } else {
            q_entry_list_ok(s.skip(p + 1))
        })
    }
}

#[via_fn]
proof fn q_entry_list_ok_decreases(s: Seq<char>) {
    lemma_first_pos_bounds(s, ',');
}

/// The canonical values of a matrix entry list.
pub open spec fn q_entry_list_vals(s: Seq<char>) -> Seq<(int, int)>
    decreases s.len(),
    via q_entry_list_vals_decreases
{
    let p = first_pos(s, ',');
    if p == s.len() {
        seq![q_val()(s)]
    } else if p + 1 < s.len() && s[p + 1] == ' ' {
        seq![q_val()(s.take(p))] + q_entry_list_vals(s.skip(p + 2))
    } else {
        seq![q_val()(s.take(p))] + q_entry_list_vals(s.skip(p + 1))
    }
}

#[via_fn]
proof fn q_entry_list_vals_decreases(s: Seq<char>) {
    lemma_first_pos_bounds(s, ',');
}

/// A list of bracketed rows separated by `,`, each optionally followed by
/// one space; each row is `[` entries `]`.
pub open spec fn q_rows_ok(s: Seq<char>) -> bool
    decreases s.len(),
    via q_rows_ok_decreases
{
    let e = first_pos(s, ']');
    s.len() >= 2 && s[0] == '[' && e < s.len() && q_entry_list_ok(s.subrange(1, e)) && (if e + 1
        == s.len() {
        true
    } else {
        e + 2 < s.len() && s[e + 1] == ',' && (if s[e + 2] == ' ' {
            q_rows_ok(s.skip(e + 3))
        } else {
            q_rows_ok(s.skip(e + 2))
        })
    })
}

#[via_fn]
proof fn q_rows_ok_decreases(s: Seq<char>) {
    lemma_first_pos_bounds(s, ']');
}

/// The rows of entry values a row list denotes.
pub open spec fn q_rows_vals(s: Seq<char>) -> Seq<Seq<(int, int)>>
    decreases s.len(),
    via q_rows_vals_decreases
{
    let e = first_pos(s, ']');
    if e + 1 >= s.len() {
        seq![q_entry_list_vals(s.subrange(1, e))]
    } else if e + 2 < s.len() && s[e + 2] == ' ' {
        seq![q_entry_list_vals(s.subrange(1, e))] + q_rows_vals(s.skip(e + 3))
    } else {
        seq![q_entry_list_vals(s.subrange(1, e))] + q_rows_vals(s.skip(e + 2))
    }
}

#[via_fn]
proof fn q_rows_vals_decreases(s: Seq<char>) {
    lemma_first_pos_bounds(s, ']');
}

/// Whether a sequence of rows is rectangular with at least one row and one
/// column, within the dimensions the accessors can report.
pub open spec fn rect(v: Seq<Seq<(int, int)>>) -> bool {
    &&& v.len() >= 1
    &&& v.len() <= i64::MAX
    &&& v[0].len() >= 1
    &&& v[0].len() <= i64::MAX
    &&& forall|i: int| 0 <= i < v.len() ==> #[trigger] v[i].len() == v[0].len()
}

/// The well-formedness of a rational matrix: rectangular, every entry in
/// lowest terms.
pub open spec fn mat_q_wf(v: Seq<Seq<(int, int)>>) -> bool {
    &&& rect(v)
    &&& forall|i: int, j: int|
        0 <= i < v.len() && 0 <= j < v[i].len() ==> q_wf(#[trigger] v[i][j])
}

/// A well-formed rational matrix text: a bracketed list of equally long
/// bracketed rows.
pub open spec fn valid_mat_q_text(s: Seq<char>) -> bool {
    &&& s.len() >= 2
    &&& s[0] == '['
    &&& s.last() == ']'
    &&& q_rows_ok(s.subrange(1, s.len() - 1))
    &&& rect(q_rows_vals(s.subrange(1, s.len() - 1)))
}

/// The rows of canonical entry values a matrix text denotes.
pub open spec fn mat_q_text_vals(s: Seq<char>) -> Seq<Seq<(int, int)>> {
    q_rows_vals(s.subrange(1, s.len() - 1))
}

/// The canonical text of one row's entries, joined by `,`.
pub open spec fn q_row_text(r: Seq<(int, int)>) -> Seq<char>
    decreases r.len(),
{
    if r.len() == 0 {
        Seq::empty()
    } else if r.len() == 1 {
        q_text(r[0].0, r[0].1)
    } else {
        q_row_text(r.drop_last()) + seq![','] + q_text(r.last().0, r.last().1)
    }
}

/// The canonical text of the bracketed rows, joined by `,`.
pub open spec fn q_rows_text(v: Seq<Seq<(int, int)>>) -> Seq<char>
    decreases v.len(),
{
    if v.len() == 0 {
        Seq::empty()
    } else if v.len() == 1 {
        seq!['['] + q_row_text(v[0]) + seq![']']
    } else {
        q_rows_text(v.drop_last()) + seq![','] + (seq!['['] + q_row_text(v.last()) + seq![']'])
    }
}

/// The canonical text of a rational matrix.
pub open spec fn mat_q_text(v: Seq<Seq<(int, int)>>) -> Seq<char> {
    seq!['['] + q_rows_text(v) + seq![']']
}

/// A matrix with rational entries, stored by rows.
#[derive(Debug)]
pub struct MatQ {
    pub(crate) rows: Vec<Vec<Q>>,
}

impl View for MatQ {
    type V = Seq<Seq<(int, int)>>;

    closed spec fn view(&self) -> Seq<Seq<(int, int)>> {
        Seq::new(self.rows@.len(), |i: int| q_seq_views(self.rows@[i]@))
    }
}

/// Parses one row's entry list (the text between a row's brackets).
fn parse_q_entry_list(s: &str) -> (r: Option<Vec<Q>>)
    ensures
        r is Some <==> q_entry_list_ok(s@),
        r is Some ==> q_seq_views(r->0@) == q_entry_list_vals(s@),
        r is Some ==> q_seq_wf(q_seq_views(r->0@)),
    {
    let n: usize = s.unicode_len();
    let mut out: Vec<Q> = Vec::new();
    let mut pos: usize = 0;
    proof {
        assert(s@.skip(0) =~= s@);
    }
    loop
        invariant
            pos <= n,
            n == s@.len(),
            q_seq_wf(q_seq_views(out@)),
            q_entry_list_ok(s@) <==> q_entry_list_ok(s@.skip(pos as int)),
            q_entry_list_ok(s@) ==> q_entry_list_vals(s@) =~= q_seq_views(out@)
                + q_entry_list_vals(s@.skip(pos as int)),
        decreases n - pos,
    {
        let tail = s.substring_char(pos, n);
        proof {
            assert(tail@ == s@.skip(pos as int));
        }
        let p: usize = find_first(tail, ',');
        if p == n - pos {
            let entry = match Q::from_str(tail) {
                Ok(v) => v,
                Err(_) => {
                    return None;
                },
            };
            let ghost old_views = q_seq_views(out@);
            let ghost ev = entry@;
            out.push(entry);
            proof {
                assert(q_seq_views(out@) =~= old_views + seq![ev]);
                if q_entry_list_ok(s@) {
                    assert(q_entry_list_vals(s@.skip(pos as int)) == seq![q_val()(tail@)]);
                }
            }
            return Some(out);
        }
        let token = tail.substring_char(0, p);
        proof {
            assert(token@ == tail@.take(p as int));
        }
        let entry = match Q::from_str(token) {
            Ok(v) => v,
            Err(_) => {
                return None;
            },
        };
        if p + 1 >= n - pos {
            return None;
        }
        let step: usize = if tail.get_char(p + 1) == ' ' {
            2
        } else {
            1
        };
        let ghost old_views = q_seq_views(out@);
        let ghost old_pos = pos as int;
        let ghost ev = entry@;
        out.push(entry);
        pos = pos + p + step;
        proof {
            assert(q_seq_views(out@) =~= old_views + seq![ev]);
            assert(s@.skip(old_pos).skip(p + step) =~= s@.skip(pos as int));
        }
    }
}

/// Parses a list of bracketed rows (the text between the outer brackets).
fn parse_q_rows(s: &str) -> (r: Option<Vec<Vec<Q>>>)
    ensures
        r is Some <==> q_rows_ok(s@),
        r is Some ==> Seq::new(r->0@.len(), |i: int| q_seq_views(r->0@[i]@)) == q_rows_vals(s@),
        r is Some ==> forall|i: int|
            0 <= i < r->0@.len() ==> q_seq_wf(q_seq_views(#[trigger] r->0@[i]@)),
    {
    let n: usize = s.unicode_len();
    let mut out: Vec<Vec<Q>> = Vec::new();
    let mut pos: usize = 0;
    proof {
        if n == 0 {
            assert(!q_rows_ok(s@));
        }
    }
    if n == 0 {
        return None;
    }
    proof {
        assert(s@.skip(0) =~= s@);
    }
    loop
        invariant
            pos <= n,
            n == s@.len(),
            forall|i: int| 0 <= i < out@.len() ==> q_seq_wf(q_seq_views(#[trigger] out@[i]@)),
            q_rows_ok(s@) <==> q_rows_ok(s@.skip(pos as int)),
            q_rows_ok(s@) ==> q_rows_vals(s@) =~= Seq::new(
                out@.len(),
                |i: int| q_seq_views(out@[i]@),
            ) + q_rows_vals(s@.skip(pos as int)),
        decreases n - pos,
    {
        let tail = s.substring_char(pos, n);
        proof {
            assert(tail@ == s@.skip(pos as int));
        }
        let e: usize = find_first(tail, ']');
        if e == n - pos || n - pos < 2 {
            proof {
                assert(!q_rows_ok(tail@));
            }
            return None;
        }
        if tail.get_char(0) != '[' {
            return None;
        }
        proof {
            lemma_first_pos_bounds(tail@, ']');
            assert(tail@[e as int] == ']');
            assert(e >= 1);
        }
        let row_body = tail.substring_char(1, e);
        proof {
            assert(row_body@ == tail@.subrange(1, e as int));
        }
        let row = match parse_q_entry_list(row_body) {
            Some(v) => v,
            None => {
                return None;
            },
        };
        let ghost old_rows = Seq::new(out@.len(), |i: int| q_seq_views(out@[i]@));
        let ghost rv = q_seq_views(row@);
        let ghost old_pos = pos as int;
        if e + 1 == n - pos {
            out.push(row);
            proof {
                let newrows = Seq::new(out@.len(), |i: int| q_seq_views(out@[i]@));
                assert(newrows =~= old_rows + seq![rv]);
                if q_rows_ok(s@) {
                    assert(q_rows_vals(s@.skip(old_pos)) == seq![
                        q_entry_list_vals(tail@.subrange(1, e as int)),
                    ]);
                }
            }
            return Some(out);
        }
        if e + 2 >= n - pos {
            return None;
        }
        if tail.get_char(e + 1) != ',' {
            return None;
        }
        let step: usize = if tail.get_char(e + 2) == ' ' {
            3
        } else {
            2
        };
        out.push(row);
        pos = pos + e + step;
        proof {
            let newrows = Seq::new(out@.len(), |i: int| q_seq_views(out@[i]@));
            assert(newrows =~= old_rows + seq![rv]);
            assert(s@.skip(old_pos).skip(e + step) =~= s@.skip(pos as int));
        }
    }
}

impl MatQ {
    /// Creates a matrix from its text form `[[a,b],[c,d]]`; entries are
    /// brought to lowest terms. A single space is accepted after each comma.
    ///
    /// Returns [`MathError::MalformedInput`] exactly on text that does not
    /// match the grammar with equally long rows.
    pub fn from_str(s: &str) -> (r: Result<MatQ, MathError>)
        ensures
            r is Ok <==> valid_mat_q_text(s@),
            r is Ok ==> r->Ok_0@ == mat_q_text_vals(s@) && mat_q_wf(r->Ok_0@),
            r is Err ==> r == Err::<MatQ, MathError>(MathError::MalformedInput),
    {
        let n: usize = s.unicode_len();
        if n < 2 {
            return Err(MathError::MalformedInput);
        }
        if s.get_char(0) != '[' || s.get_char(n - 1) != ']' {
            return Err(MathError::MalformedInput);
        }
        let body = s.substring_char(1, n - 1);
        proof {
            assert(body@ == s@.subrange(1, s@.len() - 1));
        }
        let rows = match parse_q_rows(body) {
            Some(v) => v,
            None => {
                return Err(MathError::MalformedInput);
            },
        };
        let ghost v = q_rows_vals(body@);
        proof {
            lemma_q_rows_len(body@);
        }
        let first_len = rows[0].len();
        if first_len == 0 {
            proof {
                assert(v[0].len() == 0);
                assert(!rect(v));
            }
            return Err(MathError::MalformedInput);
        }
        let mut i: usize = 1;
        while i < rows.len()
            invariant
                1 <= i <= rows@.len(),
                first_len == rows@[0]@.len(),
                v == q_rows_vals(s@.subrange(1, s@.len() - 1)),
                v == Seq::new(rows@.len(), |k: int| q_seq_views(rows@[k]@)),
                n == s@.len(),
                n >= 2,
                s@[0] == '[',
                s@.last() == ']',
                q_rows_ok(s@.subrange(1, s@.len() - 1)),
                forall|k: int| 0 <= k < i ==> #[trigger] rows@[k]@.len() == first_len,
            decreases rows@.len() - i,
        {
            if rows[i].len() != first_len {
                proof {
                    assert(v[i as int].len() == q_seq_views(rows@[i as int]@).len());
                    assert(v[0].len() == q_seq_views(rows@[0]@).len());
                    assert(v[i as int].len() != v[0].len());
                    assert(!rect(v));
                }
                return Err(MathError::MalformedInput);
            }
            i += 1;
        }
        let rows_count = rows.len();
        let max_dim: u64 = 0x7fff_ffff_ffff_ffff;
        if rows_count as u64 > max_dim || first_len as u64 > max_dim {
            proof {
                assert(!rect(v));
            }
            return Err(MathError::MalformedInput);
        }
        proof {
            assert(rect(v));
            assert(Seq::new(rows@.len(), |i: int| q_seq_views(rows@[i]@)) == v);
            assert forall|a: int, b: int| 0 <= a < v.len() && 0 <= b < v[a].len() implies q_wf(
                #[trigger] v[a][b],
            ) by {
                assert(q_seq_wf(q_seq_views(rows@[a]@)));
                assert(q_seq_views(rows@[a]@) == v[a]);
                assert(q_wf(q_seq_views(rows@[a]@)[b]));
            }
        }
        Ok(MatQ { rows })
    }
}

/// A row list always denotes at least one row.
proof fn lemma_q_rows_len(s: Seq<char>)
    ensures
        q_rows_vals(s).len() >= 1,
{
    lemma_first_pos_bounds(s, ']');
}

/// Deep-copies one row of rationals.
pub(crate) fn clone_q_row(v: &Vec<Q>) -> (r: Vec<Q>)
    ensures
        q_seq_views(r@) == q_seq_views(v@),
{
    let mut out: Vec<Q> = Vec::new();
    let mut i: usize = 0;
    while i < v.len()
        invariant
            i <= v.len(),
            out@.len() == i,
            q_seq_views(out@) =~= q_seq_views(v@).take(i as int),
        decreases v.len() - i,
    {
        out.push(v[i].clone());
        i += 1;
        proof {
            assert(q_seq_views(out@) =~= q_seq_views(v@).take(i as int));
        }
    }
    proof {
        assert(q_seq_views(v@).take(v@.len() as int) =~= q_seq_views(v@));
    }
    out
}

impl Clone for MatQ {
    /// Deep-copies every entry; the copy denotes the same matrix.
    fn clone(&self) -> (r: MatQ)
        ensures
            r@ == self@,
    {
        let mut rows: Vec<Vec<Q>> = Vec::new();
        let mut i: usize = 0;
        while i < self.rows.len()
            invariant
                i <= self.rows.len(),
                rows@.len() == i,
                forall|k: int| 0 <= k < i ==> q_seq_views(#[trigger] rows@[k]@) == q_seq_views(
                    self.rows@[k]@,
                ),
            decreases self.rows.len() - i,
        {
            rows.push(clone_q_row(&self.rows[i]));
            i += 1;
        }
        let out = MatQ { rows };
        proof {
            assert(out@ =~= self@);
        }
        out
    }
}

impl PartialEq for MatQ {
    /// Two matrices are equal exactly when their rows of entries are.
    fn eq(&self, other: &MatQ) -> (r: bool) {
        if self.rows.len() != other.rows.len() {
            proof {
                assert(self@.len() != other@.len());
            }
            return false;
        }
        let mut i: usize = 0;
        while i < self.rows.len()
            invariant
                i <= self.rows.len(),
                self.rows@.len() == other.rows@.len(),
                forall|k: int| 0 <= k < i ==> q_seq_views(#[trigger] self.rows@[k]@) == q_seq_views(
                    other.rows@[k]@,
                ),
            decreases self.rows.len() - i,
        {
            if self.rows[i].len() != other.rows[i].len() {
                proof {
                    assert(self@[i as int].len() != other@[i as int].len());
                }
                return false;
            }
            let mut j: usize = 0;
            while j < self.rows[i].len()
                invariant
                    i < self.rows@.len(),
                    self.rows@.len() == other.rows@.len(),
                    j <= self.rows@[i as int]@.len(),
                    self.rows@[i as int]@.len() == other.rows@[i as int]@.len(),
                    forall|k: int| 0 <= k < j ==> q_seq_views(self.rows@[i as int]@)[k]
                        == q_seq_views(#[trigger] other.rows@[i as int]@)[k],
                decreases self.rows@[i as int]@.len() - j,
            {
                if !(self.rows[i][j] == other.rows[i][j]) {
                    proof {
                        assert(self@[i as int][j as int] != other@[i as int][j as int]);
                    }
                    return false;
                }
                j += 1;
            }
            proof {
                assert(q_seq_views(self.rows@[i as int]@) =~= q_seq_views(
                    other.rows@[i as int]@,
                ));
            }
            i += 1;
        }
        proof {
            assert(self@ =~= other@);
        }
        true
    }
}

impl vstd::std_specs::cmp::PartialEqSpecImpl for MatQ {
    open spec fn obeys_eq_spec() -> bool {
        true
    }

    open spec fn eq_spec(&self, other: &MatQ) -> bool {
        self@ == other@
    }
}

impl MatQ {
    /// The canonical text of the matrix, as characters.
    pub(crate) fn to_chars(&self) -> (r: Vec<char>)
        requires
            mat_q_wf(self@),
        ensures
            r@ == mat_q_text(self@),
    {
        let mut out: Vec<char> = Vec::new();
        out.push('[');
        proof {
            assert(out@ =~= seq!['['] + q_rows_text(self@.take(0)));
        }
        let mut i: usize = 0;
        while i < self.rows.len()
            invariant
                mat_q_wf(self@),
                i <= self.rows@.len(),
                self@.len() == self.rows@.len(),
                out@ == seq!['['] + q_rows_text(self@.take(i as int)),
            decreases self.rows@.len() - i,
        {
            if i > 0 {
                out.push(',');
            }
            out.push('[');
            let ghost row = self@[i as int];
            let mut j: usize = 0;
            let ghost before = out@;
            while j < self.rows[i].len()
                invariant
                    mat_q_wf(self@),
                    i < self.rows@.len(),
                    self@.len() == self.rows@.len(),
                    row == self@[i as int],
                    j <= self.rows@[i as int]@.len(),
                    row.len() == self.rows@[i as int]@.len(),
                    out@ == before + q_row_text(row.take(j as int)),
                decreases self.rows@[i as int]@.len() - j,
            {
                if j > 0 {
                    out.push(',');
                }
                proof {
                    assert(q_wf(self@[i as int][j as int]));
                    assert(self.rows@[i as int]@[j as int]@ == self@[i as int][j as int]);
                }
                let digits = self.rows[i][j].to_chars();
                push_chars(&mut out, &digits);
                proof {
                    let t = row.take(j + 1);
                    assert(t.drop_last() =~= row.take(j as int));
                    assert(t.last() == row[j as int]);
                    if j == 0 {
                        assert(q_row_text(t) == q_text(row[0].0, row[0].1));
                        assert(out@ =~= before + q_row_text(t));
                    } else {
                        assert(q_row_text(t) == q_row_text(row.take(j as int)) + seq![','] + q_text(
                            row[j as int].0,
                            row[j as int].1,
                        ));
                        assert(out@ =~= before + q_row_text(t));
                    }
                }
                j += 1;
            }
            out.push(']');
            i += 1;
            proof {
                assert(row.take(row.len() as int) =~= row);
                let t = self@.take(i as int);
                assert(t.drop_last() =~= self@.take(i - 1));
                assert(t.last() == self@[i - 1]);
                if i == 1 {
                    assert(q_rows_text(t) == seq!['['] + q_row_text(self@[0]) + seq![']']);
                    assert(out@ =~= seq!['['] + q_rows_text(t));
                } else {
                    assert(q_rows_text(t) == q_rows_text(self@.take(i - 1)) + seq![','] + (
                    seq!['['] + q_row_text(self@[i - 1]) + seq![']']));
                    assert(out@ =~= seq!['['] + q_rows_text(t));
                }
            }
        }
        out.push(']');
        proof {
            assert(self@.take(self@.len() as int) =~= self@);
            assert(out@ =~= mat_q_text(self@));
        }
        out
    }

    /// Renders the canonical text of the matrix: rows bracketed and joined
    /// by commas, without spaces.
    pub fn to_string(&self) -> (r: String)
        requires
            mat_q_wf(self@),
        ensures
            r@ == mat_q_text(self@),
    {
        let chars = self.to_chars();
        crate::engine::chars_to_string(&chars)
    }

    /// Serializes the matrix to the single-field object
    /// `{"matrix":"<canonical text>"}`.
    pub fn serialize(&self) -> (r: String)
        requires
            mat_q_wf(self@),
        ensures
            r@ == crate::serialize::json_wrap(mat_q_text(self@)),
    {
        let chars = self.to_chars();
        crate::serialize::json_build(&chars)
    }

    /// Deserializes a matrix from the single-field object form, rejecting a
    /// missing, renamed, duplicated or trailing field and any payload that
    /// fails the matrix grammar.
    pub fn deserialize(s: &str) -> (r: Result<MatQ, MathError>)
        ensures
            r is Ok <==> crate::serialize::json_shape(s@) && valid_mat_q_text(
                crate::serialize::json_payload(s@),
            ),
            r is Ok ==> r->Ok_0@ == mat_q_text_vals(crate::serialize::json_payload(s@))
                && mat_q_wf(r->Ok_0@),
            r is Err ==> r == Err::<MatQ, MathError>(MathError::MalformedInput),
    {
        let payload = match crate::serialize::json_check(s) {
            Some(p) => p,
            None => {
                return Err(MathError::MalformedInput);
            },
        };
        MatQ::from_str(payload)
    }

    /// Whether the matrix is a row vector, i.e. has exactly one row.
    pub fn is_row_vector(&self) -> (r: bool)
        ensures
            r == (self@.len() == 1),
    {
        self.rows.len() == 1
    }

    /// Whether the matrix is a column vector, i.e. has exactly one column.
    pub fn is_column_vector(&self) -> (r: bool)
        requires
            mat_q_wf(self@),
        ensures
            r == (self@[0].len() == 1),
    {
        proof {
            assert(self@[0].len() == q_seq_views(self.rows@[0]@).len());
        }
        self.rows[0].len() == 1
    }

    /// The transpose of the matrix.
    pub fn transpose(&self) -> (r: MatQ)
        requires
            mat_q_wf(self@),
        ensures
            r@.len() == self@[0].len(),
            forall|i: int| 0 <= i < r@.len() ==> #[trigger] r@[i].len() == self@.len(),
            forall|i: int, j: int|
                0 <= i < r@.len() && 0 <= j < self@.len() ==> #[trigger] r@[i][j] == self@[j][i],
            mat_q_wf(r@),
    {
        let cols = self.rows[0].len();
        let mut rows: Vec<Vec<Q>> = Vec::new();
        let mut j: usize = 0;
        while j < cols
            invariant
                mat_q_wf(self@),
                cols == self@[0].len(),
                j <= cols,
                rows@.len() == j,
                forall|a: int| 0 <= a < j ==> #[trigger] rows@[a]@.len() == self@.len(),
                forall|a: int, b: int|
                    0 <= a < j && 0 <= b < self@.len() ==> #[trigger] q_seq_views(rows@[a]@)[b]
                        == self@[b][a],
            decreases cols - j,
        {
            let mut new_row: Vec<Q> = Vec::new();
            let mut i: usize = 0;
            while i < self.rows.len()
                invariant
                    mat_q_wf(self@),
                    cols == self@[0].len(),
                    j < cols,
                    i <= self.rows@.len(),
                    self@.len() == self.rows@.len(),
                    new_row@.len() == i,
                    forall|b: int| 0 <= b < i ==> q_seq_views(new_row@)[b] == self@[b][j as int],
                decreases self.rows@.len() - i,
            {
                proof {
                    assert(self@[i as int].len() == self@[0].len());
                    assert(q_seq_views(self.rows@[i as int]@) == self@[i as int]);
                }
                let ghost prev = new_row@;
                new_row.push(self.rows[i][j].clone());
                i += 1;
                proof {
                    assert forall|b: int| 0 <= b < i implies q_seq_views(new_row@)[b] == self@[b][
                    j as int] by {
                        if b < i - 1 {
                            assert(new_row@[b] == prev[b]);
                            assert(q_seq_views(prev)[b] == self@[b][j as int]);
                        } else {
                            assert(new_row@[b]@ == self@[b][j as int]);
                        }
                    }
                }
            }
            rows.push(new_row);
            j += 1;
        }
        let out = MatQ { rows };
        proof {
            assert(out@.len() == self@[0].len());
            assert forall|i: int, jj: int|
                0 <= i < out@.len() && 0 <= jj < self@.len() implies #[trigger] out@[i][jj]
                == self@[jj][i] by {
                assert(q_seq_views(out.rows@[i]@)[jj] == self@[jj][i]);
            }
            assert(mat_q_wf(out@)) by {
                assert(out@.len() >= 1);
                assert(out@[0].len() == self@.len());
                assert forall|i: int| 0 <= i < out@.len() implies #[trigger] out@[i].len()
                    == out@[0].len() by {
                    assert(out@[i].len() == self@.len());
                }
                assert forall|i: int, b: int|
                    0 <= i < out@.len() && 0 <= b < out@[i].len() implies q_wf(
                    #[trigger] out@[i][b]) by {
                    assert(out@[i][b] == self@[b][i]);
                    assert(self@[b].len() == self@[0].len());
                    assert(q_wf(self@[b][i]));
                }
            }
        }
        out
    }
}

impl crate::traits::GetNumRows for MatQ {
    open spec fn rows_req(&self) -> bool {
        mat_q_wf(self@)
    }

    /// Returns the number of rows.
    fn get_num_rows(&self) -> (r: i64)
        ensures
            r == self@.len(),
    {
        self.rows.len() as i64
    }
}

impl crate::traits::GetNumColumns for MatQ {
    open spec fn columns_req(&self) -> bool {
        mat_q_wf(self@)
    }

    /// Returns the number of columns.
    fn get_num_columns(&self) -> (r: i64)
        ensures
            r == self@[0].len(),
    {
        proof {
            assert(self@[0].len() == q_seq_views(self.rows@[0]@).len());
        }
        self.rows[0].len() as i64
    }
}

impl crate::traits::GetEntry<Q> for MatQ {
    open spec fn get_entry_req(&self) -> bool {
        mat_q_wf(self@)
    }

    /// Returns the entry at the given row and column as a fresh value, or
    /// [`MathError::RangeError`] exactly when an index is negative or out
    /// of range.
    fn get_entry(&self, row: i64, column: i64) -> (r: Result<Q, MathError>)
        ensures
            !(0 <= row < self@.len() && 0 <= column < self@[0].len()) ==> r == Err::<Q, MathError>(
                MathError::RangeError,
            ),
            0 <= row < self@.len() && 0 <= column < self@[0].len() ==> r is Ok && r->Ok_0@
                == self@[row as int][column as int],
    {
        if row < 0 || column < 0 {
            return Err(MathError::RangeError);
        }
        if row as u64 >= self.rows.len() as u64 {
            return Err(MathError::RangeError);
        }
        let i = row as usize;
        proof {
            assert(self@[i as int].len() == self@[0].len());
            assert(q_seq_views(self.rows@[i as int]@) == self@[i as int]);
        }
        if column as u64 >= self.rows[i].len() as u64 {
            return Err(MathError::RangeError);
        }
        let j = column as usize;
        Ok(self.rows[i][j].clone())
    }
}

impl crate::traits::SetEntry<Q> for MatQ {
    open spec fn set_entry_req(&self, value: &Q) -> bool {
        mat_q_wf(self@) && q_wf(value@)
    }

    /// Sets the entry at the given row and column, or returns
    /// [`MathError::RangeError`] exactly when an index is negative or out
    /// of range, leaving the matrix unchanged.
    fn set_entry(&mut self, row: i64, column: i64, value: Q) -> (r: Result<(), MathError>)
        ensures
            !(0 <= row < old(self)@.len() && 0 <= column < old(self)@[0].len()) ==> r == Err::<
                (),
                MathError,
            >(MathError::RangeError) && final(self)@ == old(self)@,
            0 <= row < old(self)@.len() && 0 <= column < old(self)@[0].len() ==> r is Ok
                && final(self)@ == old(self)@.update(
                row as int,
                old(self)@[row as int].update(column as int, value@),
            ) && mat_q_wf(final(self)@),
    {
        if row < 0 || column < 0 {
            return Err(MathError::RangeError);
        }
        if row as u64 >= self.rows.len() as u64 {
            return Err(MathError::RangeError);
        }
        let i = row as usize;
        proof {
            assert(self@[i as int].len() == self@[0].len());
            assert(q_seq_views(self.rows@[i as int]@) == self@[i as int]);
        }
        if column as u64 >= self.rows[i].len() as u64 {
            return Err(MathError::RangeError);
        }
        let j = column as usize;
        let ghost before = self@;
        let mut new_row = clone_q_row(&self.rows[i]);
        new_row.set(j, value);
        self.rows.set(i, new_row);
        proof {
            assert(q_seq_views(self.rows@[i as int]@) =~= before[i as int].update(
                j as int,
                value@,
            ));
            assert(self@ =~= before.update(i as int, before[i as int].update(j as int, value@)));
            assert(mat_q_wf(self@)) by {
                assert forall|a: int| 0 <= a < self@.len() implies #[trigger] self@[a].len()
                    == self@[0].len() by {
                    assert(before[a].len() == before[0].len());
                }
                assert forall|a: int, b: int|
                    0 <= a < self@.len() && 0 <= b < self@[a].len() implies q_wf(
                    #[trigger] self@[a][b]) by {
                    if a == i as int && b == j as int {
                    } else {
                        assert(self@[a][b] == before[a][b]);
                        assert(before[a].len() == before[0].len());
                    }
                }
            }
        }
        Ok(())
    }
}

impl crate::traits::Concatenate for MatQ {
    type Output = MatQ;

    open spec fn concat_req(&self, other: &MatQ) -> bool {
        mat_q_wf(self@) && mat_q_wf(other@)
    }

    /// Stacks `self` on top of `other`.
    ///
    /// Returns [`MathError::DimensionError`] exactly when the column counts
    /// differ or the stacked matrix would outgrow the reportable dimensions;
    /// otherwise the rows of the result are those of `self` followed by
    /// those of `other`.
    fn concat_vertical(self, other: MatQ) -> (r: Result<MatQ, MathError>)
        ensures
            self@[0].len() != other@[0].len() || self@.len() + other@.len() > i64::MAX ==> r
                == Err::<MatQ, MathError>(MathError::DimensionError),
            self@[0].len() == other@[0].len() && self@.len() + other@.len() <= i64::MAX ==> r is Ok
                && r->Ok_0@ == self@ + other@ && mat_q_wf(r->Ok_0@),
    {
        proof {
            assert(self@[0].len() == q_seq_views(self.rows@[0]@).len());
            assert(other@[0].len() == q_seq_views(other.rows@[0]@).len());
        }
        if self.rows[0].len() != other.rows[0].len() {
            return Err(MathError::DimensionError);
        }
        let max_dim: u64 = 0x7fff_ffff_ffff_ffff;
        if self.rows.len() as u64 > max_dim - other.rows.len() as u64 {
            return Err(MathError::DimensionError);
        }
        let ghost av = self@;
        let ghost bv = other@;
        let mut rows = self.rows;
        let mut tail = other.rows;
        rows.append(&mut tail);
        let out = MatQ { rows };
        proof {
            assert(out@ =~= av + bv);
            assert(mat_q_wf(out@)) by {
                assert forall|a: int| 0 <= a < out@.len() implies #[trigger] out@[a].len()
                    == out@[0].len() by {
                    if a < av.len() {
                        assert(out@[a] == av[a]);
                        assert(av[a].len() == av[0].len());
                    } else {
                        assert(out@[a] == bv[a - av.len()]);
                        assert(bv[a - av.len()].len() == bv[0].len());
                    }
                }
                assert forall|a: int, b: int|
                    0 <= a < out@.len() && 0 <= b < out@[a].len() implies q_wf(
                    #[trigger] out@[a][b]) by {
                    if a < av.len() {
                        assert(out@[a] == av[a]);
                        assert(av[a].len() == av[0].len());
                    } else {
                        assert(out@[a] == bv[a - av.len()]);
                        assert(bv[a - av.len()].len() == bv[0].len());
                    }
                }
            }
        }
        Ok(out)
    }

    /// Joins `self` and `other` side by side.
    ///
    /// Returns [`MathError::DimensionError`] exactly when the row counts
    /// differ or the joined matrix would outgrow the reportable dimensions;
    /// otherwise each row of the result is the row of `self` followed by
    /// the row of `other`.
    fn concat_horizontal(self, other: MatQ) -> (r: Result<MatQ, MathError>)
        ensures
            self@.len() != other@.len() || self@[0].len() + other@[0].len() > i64::MAX ==> r
                == Err::<MatQ, MathError>(MathError::DimensionError),
            self@.len() == other@.len() && self@[0].len() + other@[0].len() <= i64::MAX ==> r is Ok
                && r->Ok_0@.len() == self@.len() && (forall|i: int|
                0 <= i < self@.len() ==> #[trigger] r->Ok_0@[i] == self@[i] + other@[i]) && mat_q_wf(
                r->Ok_0@,
            ),
    {
        if self.rows.len() != other.rows.len() {
            return Err(MathError::DimensionError);
        }
        proof {
            assert(self@[0].len() == q_seq_views(self.rows@[0]@).len());
            assert(other@[0].len() == q_seq_views(other.rows@[0]@).len());
        }
        let max_dim: u64 = 0x7fff_ffff_ffff_ffff;
        if self.rows[0].len() as u64 > max_dim - other.rows[0].len() as u64 {
            return Err(MathError::DimensionError);
        }
        let ghost av = self@;
        let ghost bv = other@;
        let mut rows: Vec<Vec<Q>> = Vec::new();
        let mut i: usize = 0;
        while i < self.rows.len()
            invariant
                mat_q_wf(av),
                mat_q_wf(bv),
                av == self@,
                bv == other@,
                self@.len() == self.rows@.len(),
                other@.len() == other.rows@.len(),
                self.rows@.len() == other.rows@.len(),
                i <= self.rows@.len(),
                rows@.len() == i,
                forall|k: int| 0 <= k < i ==> q_seq_views(#[trigger] rows@[k]@) == av[k] + bv[k],
            decreases self.rows@.len() - i,
        {
            let mut new_row = clone_q_row(&self.rows[i]);
            let mut extra = clone_q_row(&other.rows[i]);
            new_row.append(&mut extra);
            proof {
                assert(q_seq_views(new_row@) =~= av[i as int] + bv[i as int]);
            }
            rows.push(new_row);
            i += 1;
        }
        let out = MatQ { rows };
        proof {
            assert(out@.len() == av.len());
            assert forall|k: int| 0 <= k < av.len() implies #[trigger] out@[k] == av[k] + bv[k] by {
                assert(q_seq_views(out.rows@[k]@) == av[k] + bv[k]);
            }
            assert(mat_q_wf(out@)) by {
                assert(out@[0].len() == av[0].len() + bv[0].len());
                assert forall|a: int| 0 <= a < out@.len() implies #[trigger] out@[a].len()
                    == out@[0].len() by {
                    assert(out@[a] == av[a] + bv[a]);
                    assert(av[a].len() == av[0].len());
                    assert(bv[a].len() == bv[0].len());
                }
                assert forall|a: int, b: int|
                    0 <= a < out@.len() && 0 <= b < out@[a].len() implies q_wf(
                    #[trigger] out@[a][b]) by {
                    assert(out@[a] == av[a] + bv[a]);
                    assert(av[a].len() == av[0].len());
                    assert(bv[a].len() == bv[0].len());
                    if b < av[a].len() {
                        assert(out@[a][b] == av[a][b]);
                    } else {
                        assert(out@[a][b] == bv[a][b - av[a].len()]);
                    }
                }
            }
        }
        Ok(out)
    }
}

/// One row of a tensor product: every entry of `x` times every entry of
/// `y`, in lowest terms; the entry at `t` pairs `x[t / y.len()]` with
/// `y[t % y.len()]`.
pub open spec fn kron_row(x: Seq<(int, int)>, y: Seq<(int, int)>) -> Seq<(int, int)> {
    Seq::new(
        x.len() * y.len(),
        |t: int|
            {
                let p = rat_mul(x[t / y.len() as int], y[t % y.len() as int]);
                reduced(p.0, p.1)
            },
    )
}

impl crate::traits::Tensor for MatQ {
    open spec fn tensor_req(&self, other: &MatQ) -> bool {
        &&& mat_q_wf(self@)
        &&& mat_q_wf(other@)
        &&& self@.len() * other@.len() <= i64::MAX
        &&& self@[0].len() * other@[0].len() <= i64::MAX
    }

    /// Computes the tensor product: the row at `k` pairs row `k / other
    /// rows` of `self` with row `k % other rows` of `other`, entry by
    /// entry.
    fn tensor(&self, other: &MatQ) -> (r: MatQ)
        ensures
            r@.len() == self@.len() * other@.len(),
            forall|k: int|
                0 <= k < r@.len() ==> #[trigger] r@[k] == kron_row(
                    self@[k / other@.len() as int],
                    other@[k % other@.len() as int],
                ),
            mat_q_wf(r@),
    {
        let ra = self.rows.len();
        let rb = other.rows.len();
        let cb = other.rows[0].len();
        proof {
            assert(other@[0].len() == q_seq_views(other.rows@[0]@).len());
            lemma_mul_nonneg_le(ra as int, rb as int);
        }
        let mut rows: Vec<Vec<Q>> = Vec::new();
        let mut i1: usize = 0;
        while i1 < ra
            invariant
                self.tensor_req(other),
                ra == self@.len(),
                rb == other@.len(),
                cb == other@[0].len(),
                self@.len() == self.rows@.len(),
                other@.len() == other.rows@.len(),
                i1 <= ra,
                rows@.len() == i1 * rb,
                forall|k: int|
                    0 <= k < rows@.len() ==> q_seq_wf(q_seq_views(#[trigger] rows@[k]@)),
                forall|k: int|
                    0 <= k < rows@.len() ==> #[trigger] q_seq_views(rows@[k]@) == kron_row(
                        self@[k / rb as int],
                        other@[k % rb as int],
                    ),
            decreases ra - i1,
        {
            let mut i2: usize = 0;
            while i2 < rb
                invariant
                    self.tensor_req(other),
                    ra == self@.len(),
                    rb == other@.len(),
                    cb == other@[0].len(),
                    self@.len() == self.rows@.len(),
                    other@.len() == other.rows@.len(),
                    i1 < ra,
                    i2 <= rb,
                    rows@.len() == i1 * rb + i2,
                    forall|k: int|
                        0 <= k < rows@.len() ==> q_seq_wf(q_seq_views(#[trigger] rows@[k]@)),
                    forall|k: int|
                        0 <= k < rows@.len() ==> #[trigger] q_seq_views(rows@[k]@) == kron_row(
                            self@[k / rb as int],
                            other@[k % rb as int],
                        ),
                decreases rb - i2,
            {
                let ca = self.rows[i1].len();
                proof {
                    assert(self@[i1 as int].len() == q_seq_views(self.rows@[i1 as int]@).len());
                    assert(self@[i1 as int].len() == self@[0].len());
                    lemma_mul_nonneg_le(ca as int, cb as int);
                }
                let mut new_row: Vec<Q> = Vec::new();
                let mut j1: usize = 0;
                while j1 < ca
                    invariant
                        self.tensor_req(other),
                        ra == self@.len(),
                        rb == other@.len(),
                        cb == other@[0].len(),
                        self@.len() == self.rows@.len(),
                        other@.len() == other.rows@.len(),
                        i1 < ra,
                        i2 < rb,
                        ca == self@[i1 as int].len(),
                        ca == self@[0].len(),
                        j1 <= ca,
                        q_seq_wf(q_seq_views(new_row@)),
                        new_row@.len() == j1 * cb,
                        forall|t: int|
                            0 <= t < new_row@.len() ==> #[trigger] q_seq_views(new_row@)[t]
                                == kron_row(self@[i1 as int], other@[i2 as int])[t],
                    decreases ca - j1,
                {
                    let mut j2: usize = 0;
                    while j2 < cb
                        invariant
                            self.tensor_req(other),
                            ra == self@.len(),
                            rb == other@.len(),
                            cb == other@[0].len(),
                            self@.len() == self.rows@.len(),
                            other@.len() == other.rows@.len(),
                            i1 < ra,
                            i2 < rb,
                            ca == self@[i1 as int].len(),
                            ca == self@[0].len(),
                            j1 < ca,
                            j2 <= cb,
                            q_seq_wf(q_seq_views(new_row@)),
                            new_row@.len() == j1 * cb + j2,
                            forall|t: int|
                                0 <= t < new_row@.len() ==> #[trigger] q_seq_views(new_row@)[t]
                                    == kron_row(self@[i1 as int], other@[i2 as int])[t],
                        decreases cb - j2,
                    {
                        proof {
                            assert(other@[i2 as int].len() == other@[0].len());
                            assert(q_seq_views(self.rows@[i1 as int]@) == self@[i1 as int]);
                            assert(q_seq_views(other.rows@[i2 as int]@) == other@[i2 as int]);
                            assert(q_wf(self@[i1 as int][j1 as int]));
                            assert(q_wf(other@[i2 as int][j2 as int]));
                        }
                        let ghost prev = new_row@;
                        let ghost pv = (self@[i1 as int][j1 as int], other@[i2 as int][j2 as int]);
                        let product = &self.rows[i1][j1] * &other.rows[i2][j2];
                        new_row.push(product);
                        j2 += 1;
                        proof {
                            let t = prev.len() as int;
                            let x = self@[i1 as int];
                            let y = other@[i2 as int];
                            assert(y.len() == cb);
                            assert(x.len() == ca);
                            assert(t < ca * cb) by (nonlinear_arith)
                                requires
                                    t == j1 * (cb as int) + j2 - 1,
                                    0 <= j1 <= ca - 1,
                                    1 <= j2 <= cb,
                            ;
                            vstd::arithmetic::div_mod::lemma_fundamental_div_mod_converse_div(
                                t,
                                cb as int,
                                j1 as int,
                                j2 - 1,
                            );
                            vstd::arithmetic::div_mod::lemma_fundamental_div_mod_converse_mod(
                                t,
                                cb as int,
                                j1 as int,
                                j2 - 1,
                            );
                            assert(kron_row(x, y)[t] == {
                                let p = rat_mul(x[t / y.len() as int], y[t % y.len() as int]);
                                reduced(p.0, p.1)
                            });
                            assert(x[t / y.len() as int] == pv.0);
                            assert(y[t % y.len() as int] == pv.1);
                            assert(q_seq_views(new_row@)[t] == new_row@[t]@);
                            assert(kron_row(x, y)[t] == q_seq_views(new_row@)[t]);
                            assert forall|u: int|
                                0 <= u < new_row@.len() implies #[trigger] q_seq_views(new_row@)[u]
                                == kron_row(x, y)[u] by {
                                if u < t {
                                    assert(new_row@[u] == prev[u]);
                                    assert(q_seq_views(prev)[u] == kron_row(x, y)[u]);
                                }
                            }
                            assert forall|u: int|
                                0 <= u < new_row@.len() implies q_wf(
                                #[trigger] q_seq_views(new_row@)[u]) by {
                                if u < t {
                                    assert(new_row@[u] == prev[u]);
                                    assert(q_wf(q_seq_views(prev)[u]));
                                } else {
                                    assert(q_seq_views(new_row@)[u] == new_row@[u]@);
                                }
                            }
                        }
                    }
                    j1 += 1;
                    proof {
                        assert((j1 - 1) * cb + cb == j1 * cb) by (nonlinear_arith);
                    }
                }
                let ghost prev_rows = rows@;
                rows.push(new_row);
                i2 += 1;
                proof {
                    let k = prev_rows.len() as int;
                    vstd::arithmetic::div_mod::lemma_fundamental_div_mod_converse_div(
                        k,
                        rb as int,
                        i1 as int,
                        i2 - 1,
                    );
                    vstd::arithmetic::div_mod::lemma_fundamental_div_mod_converse_mod(
                        k,
                        rb as int,
                        i1 as int,
                        i2 - 1,
                    );
                    assert(q_seq_views(rows@[k]@) =~= kron_row(
                        self@[k / rb as int],
                        other@[k % rb as int],
                    ));
                    assert forall|u: int|
                        0 <= u < rows@.len() implies #[trigger] q_seq_views(rows@[u]@) == kron_row(
                        self@[u / rb as int],
                        other@[u % rb as int],
                    ) by {
                        if u < k {
                            assert(rows@[u] == prev_rows[u]);
                            assert(q_seq_views(prev_rows[u]@) == kron_row(
                                self@[u / rb as int],
                                other@[u % rb as int],
                            ));
                        }
                    }
                }
            }
            i1 += 1;
            proof {
                assert((i1 - 1) * rb + rb == i1 * rb) by (nonlinear_arith);
            }
        }
        let out = MatQ { rows };
        proof {
            lemma_kron_wf(self@, other@, out@);
            assert forall|k: int, t: int|
                0 <= k < out@.len() && 0 <= t < out@[k].len() implies q_wf(#[trigger] out@[k][t])
                by {
                assert(q_seq_wf(q_seq_views(out.rows@[k]@)));
                assert(q_wf(q_seq_views(out.rows@[k]@)[t]));
            }
        }
        out
    }
}

/// The product of two bounded non-negative lengths stays bounded.
proof fn lemma_mul_nonneg_le(a: int, b: int)
    requires
        a >= 0,
        b >= 0,
    ensures
        a * b >= 0,
        b >= 1 ==> a <= a * b,
{
    vstd::arithmetic::mul::lemma_mul_nonnegative(a, b);
    if b >= 1 {
        assert(a <= a * b) by (nonlinear_arith)
            requires
                a >= 0,
                b >= 1,
        ;
    }
}

/// A tensor product of well-formed matrices is rectangular.
proof fn lemma_kron_wf(a: Seq<Seq<(int, int)>>, b: Seq<Seq<(int, int)>>, r: Seq<Seq<(int, int)>>)
    requires
        mat_q_wf(a),
        mat_q_wf(b),
        a.len() * b.len() <= i64::MAX,
        a[0].len() * b[0].len() <= i64::MAX,
        r.len() == a.len() * b.len(),
        forall|k: int|
            0 <= k < r.len() ==> #[trigger] r[k] == kron_row(
                a[k / b.len() as int],
                b[k % b.len() as int],
            ),
    ensures
        rect(r),
{
    lemma_mul_nonneg_le(a.len() as int, b.len() as int);
    lemma_mul_nonneg_le(a[0].len() as int, b[0].len() as int);
    assert(r.len() >= 1) by {
        vstd::arithmetic::mul::lemma_mul_strictly_positive(a.len() as int, b.len() as int);
    }
    assert forall|k: int| 0 <= k < r.len() implies #[trigger] r[k].len() == a[0].len() * b[0].len()
        by {
        vstd::arithmetic::div_mod::lemma_mod_bound(k, b.len() as int);
        lemma_div_in_range(k, a.len() as int, b.len() as int);
        assert(a[k / b.len() as int].len() == a[0].len());
        assert(b[k % b.len() as int].len() == b[0].len());
    }
    assert(r[0].len() == a[0].len() * b[0].len());
}

/// A flat index below `a * b` has a quotient below `a` under `b`.
proof fn lemma_div_in_range(k: int, a: int, b: int)
    requires
        b >= 1,
        0 <= k < a * b,
    ensures
        0 <= k / b < a,
{
    vstd::arithmetic::div_mod::lemma_div_pos_is_pos(k, b);
    assert(k / b < a) by {
        if k / b >= a {
            vstd::arithmetic::div_mod::lemma_fundamental_div_mod(k, b);
            vstd::arithmetic::div_mod::lemma_mod_bound(k, b);
            assert(k == b * (k / b) + k % b);
            vstd::arithmetic::mul::lemma_mul_inequality(a, k / b, b);
            assert(a * b <= (k / b) * b) by (nonlinear_arith)
                requires
                    a <= k / b,
                    b >= 1,
            ;
            assert(b * (k / b) == (k / b) * b) by (nonlinear_arith);
        }
    }
}

/// The canonical text of a row of reduced fractions holds no bracket, no
/// space, and no other character that is not part of a fraction numeral or
/// a comma.
proof fn lemma_q_row_text_no_char(r: Seq<(int, int)>, c: char, k: int)
    requires
        crate::text::digit_val(c, 10) == -1,
        c != '-',
        c != ',',
        c != '/',
        forall|i: int| 0 <= i < r.len() ==> q_wf(#[trigger] r[i]),
        0 <= k < q_row_text(r).len(),
    ensures
        q_row_text(r)[k] != c,
    decreases r.len(),
{
    if r.len() == 0 {
    } else if r.len() == 1 {
        lemma_q_text_no_char(r[0].0, r[0].1, c, k);
    } else {
        let head = q_row_text(r.drop_last());
        assert(forall|i: int| 0 <= i < r.drop_last().len() ==> r.drop_last()[i] == r[i]);
        if k < head.len() {
            assert forall|i: int| 0 <= i < r.drop_last().len() implies q_wf(
                #[trigger] r.drop_last()[i]) by {
                assert(q_wf(r[i]));
            }
            lemma_q_row_text_no_char(r.drop_last(), c, k);
        } else if k == head.len() {
        } else {
            assert(q_wf(r.last()));
            lemma_q_text_no_char(r.last().0, r.last().1, c, k - head.len() - 1);
            assert(q_row_text(r)[k] == q_text(r.last().0, r.last().1)[k - head.len() - 1]);
        }
    }
}

/// A character that is neither a digit, a sign nor a fraction bar does not
/// occur in the canonical text of a reduced fraction.
proof fn lemma_q_text_no_char(n: int, d: int, c: char, k: int)
    requires
        crate::text::digit_val(c, 10) == -1,
        c != '-',
        c != '/',
        q_wf((n, d)),
        0 <= k < q_text(n, d).len(),
    ensures
        q_text(n, d)[k] != c,
{
    crate::text::lemma_int_text_no_char(n, 10, c);
    crate::text::lemma_int_text_no_char(d, 10, c);
    let t = q_text(n, d);
    if d == 1 {
        assert(t[k] == crate::text::int_text(n, 10)[k]);
    } else {
        let a = crate::text::int_text(n, 10);
        let b = crate::text::int_text(d, 10);
        if k < a.len() {
            assert(t[k] == a[k]);
        } else if k == a.len() {
            assert(t[k] == '/');
        } else {
            assert(t[k] == b[k - a.len() - 1]);
        }
    }
}

/// The canonical row read from the front: the first entry's fraction text,
/// then a comma and the rest.
proof fn lemma_q_row_text_front(r: Seq<(int, int)>)
    requires
        r.len() >= 1,
    ensures
        r.len() == 1 ==> q_row_text(r) == q_text(r[0].0, r[0].1),
        r.len() > 1 ==> q_row_text(r) == q_text(r[0].0, r[0].1) + seq![','] + q_row_text(
            r.skip(1),
        ),
    decreases r.len(),
{
    if r.len() == 1 {
    } else if r.len() == 2 {
        assert(r.drop_last() =~= seq![r[0]]);
        assert(r.skip(1) =~= seq![r[1]]);
        assert(q_row_text(seq![r[0]]) == q_text(r[0].0, r[0].1));
        assert(q_row_text(seq![r[1]]) == q_text(r[1].0, r[1].1));
        assert(q_row_text(r) == q_row_text(r.drop_last()) + seq![','] + q_text(
            r.last().0,
            r.last().1,
        ));
        assert(q_row_text(r) =~= q_text(r[0].0, r[0].1) + seq![','] + q_row_text(r.skip(1)));
    } else {
        let d = r.drop_last();
        lemma_q_row_text_front(d);
        assert(q_row_text(r) == q_row_text(d) + seq![','] + q_text(r.last().0, r.last().1));
        assert(q_row_text(d) == q_text(r[0].0, r[0].1) + seq![','] + q_row_text(d.skip(1)));
        assert(q_row_text(r.skip(1)) == q_row_text(d.skip(1)) + seq![','] + q_text(
            r.last().0,
            r.last().1,
        )) by {
            assert(r.skip(1).len() >= 2);
            assert(r.skip(1).drop_last() =~= d.skip(1));
            assert(r.skip(1).last() == r.last());
        }
        let head = q_text(r[0].0, r[0].1);
        let mid = q_row_text(d.skip(1));
        let tail = q_text(r.last().0, r.last().1);
        assert(q_row_text(r) =~= head + seq![','] + mid + seq![','] + tail);
        assert(head + seq![','] + q_row_text(r.skip(1)) =~= head + seq![','] + mid + seq![',']
            + tail);
        assert(q_row_text(r) == q_text(r[0].0, r[0].1) + seq![','] + q_row_text(r.skip(1)));
    }
}

/// The canonical row text is a well-formed entry list denoting the same
/// reduced entries.
proof fn lemma_q_row_round_trip(r: Seq<(int, int)>)
    requires
        r.len() >= 1,
        forall|i: int| 0 <= i < r.len() ==> q_wf(#[trigger] r[i]),
    ensures
        q_entry_list_ok(q_row_text(r)),
        q_entry_list_vals(q_row_text(r)) =~= r,
    decreases r.len(),
{
    let s = q_row_text(r);
    lemma_q_row_text_front(r);
    assert(q_wf(r[0]));
    crate::rational::q::lemma_q_canonical_idempotent(r[0].0, r[0].1);
    let a = q_text(r[0].0, r[0].1);
    if r.len() == 1 {
        assert(s == a);
        assert forall|k: int| 0 <= k < s.len() implies s[k] != ',' by {
            lemma_q_text_no_char(r[0].0, r[0].1, ',', k);
        }
        crate::text::lemma_first_pos_is(s, ',', s.len() as int);
    } else {
        assert(forall|i: int| 0 <= i < r.skip(1).len() ==> r.skip(1)[i] == r[i + 1]);
        assert forall|i: int| 0 <= i < r.skip(1).len() implies q_wf(#[trigger] r.skip(1)[i]) by {
            assert(q_wf(r[i + 1]));
        }
        lemma_q_row_round_trip(r.skip(1));
        assert(s[a.len() as int] == ',');
        assert forall|k: int| 0 <= k < a.len() implies s[k] != ',' by {
            assert(s[k] == a[k]);
            lemma_q_text_no_char(r[0].0, r[0].1, ',', k);
        }
        crate::text::lemma_first_pos_is(s, ',', a.len() as int);
        let p = a.len() as int;
        assert(s.take(p) =~= a);
        assert(s.skip(p + 1) =~= q_row_text(r.skip(1)));
        assert(s[p + 1] != ' ') by {
            assert(s[p + 1] == q_row_text(r.skip(1))[0]);
            lemma_q_row_text_no_char(r.skip(1), ' ', 0);
        }
        assert(q_entry_list_vals(s) =~= r);
    }
}

/// The canonical rows read from the front: the first bracketed row, then a
/// comma and the rest.
proof fn lemma_q_rows_text_front(v: Seq<Seq<(int, int)>>)
    requires
        v.len() >= 1,
    ensures
        v.len() == 1 ==> q_rows_text(v) == seq!['['] + q_row_text(v[0]) + seq![']'],
        v.len() > 1 ==> q_rows_text(v) == seq!['['] + q_row_text(v[0]) + seq![']'] + seq![',']
            + q_rows_text(v.skip(1)),
    decreases v.len(),
{
    if v.len() == 1 {
    } else if v.len() == 2 {
        assert(v.drop_last() =~= seq![v[0]]);
        assert(v.skip(1) =~= seq![v[1]]);
        assert(q_rows_text(seq![v[0]]) == seq!['['] + q_row_text(v[0]) + seq![']']);
        assert(q_rows_text(seq![v[1]]) == seq!['['] + q_row_text(v[1]) + seq![']']);
        assert(q_rows_text(v) == q_rows_text(v.drop_last()) + seq![','] + (seq!['['] + q_row_text(
            v.last(),
        ) + seq![']']));
        assert(q_rows_text(v) =~= seq!['['] + q_row_text(v[0]) + seq![']'] + seq![',']
            + q_rows_text(v.skip(1)));
    } else {
        let d = v.drop_last();
        lemma_q_rows_text_front(d);
        assert(q_rows_text(v) == q_rows_text(d) + seq![','] + (seq!['['] + q_row_text(v.last())
            + seq![']']));
        assert(q_rows_text(d) == seq!['['] + q_row_text(v[0]) + seq![']'] + seq![','] + q_rows_text(
            d.skip(1),
        ));
        assert(q_rows_text(v.skip(1)) == q_rows_text(d.skip(1)) + seq![','] + (seq!['[']
            + q_row_text(v.last()) + seq![']'])) by {
            assert(v.skip(1).len() >= 2);
            assert(v.skip(1).drop_last() =~= d.skip(1));
            assert(v.skip(1).last() == v.last());
        }
        let head = seq!['['] + q_row_text(v[0]) + seq![']'];
        let mid = q_rows_text(d.skip(1));
        let tail = seq!['['] + q_row_text(v.last()) + seq![']'];
        assert(q_rows_text(v) =~= head + seq![','] + mid + seq![','] + tail);
        assert(head + seq![','] + q_rows_text(v.skip(1)) =~= head + seq![','] + mid + seq![',']
            + tail);
        assert(q_rows_text(v) == seq!['['] + q_row_text(v[0]) + seq![']'] + seq![','] + q_rows_text(
            v.skip(1),
        ));
    }
}

/// The canonical rows text is a well-formed row list denoting the same rows.
proof fn lemma_q_rows_round_trip(v: Seq<Seq<(int, int)>>)
    requires
        v.len() >= 1,
        forall|i: int| 0 <= i < v.len() ==> #[trigger] v[i].len() >= 1,
        forall|i: int, j: int|
            0 <= i < v.len() && 0 <= j < v[i].len() ==> q_wf(#[trigger] v[i][j]),
    ensures
        q_rows_ok(q_rows_text(v)),
        q_rows_vals(q_rows_text(v)) =~~= v,
    decreases v.len(),
{
    let s = q_rows_text(v);
    lemma_q_rows_text_front(v);
    assert forall|j: int| 0 <= j < v[0].len() implies q_wf(#[trigger] v[0][j]) by {}
    lemma_q_row_round_trip(v[0]);
    let a = q_row_text(v[0]);
    let e: int = a.len() as int + 1;
    assert(s[0] == '[');
    assert(s[e] == ']');
    assert forall|k: int| 0 <= k < e implies s[k] != ']' by {
        if k >= 1 {
            assert(s[k] == a[k - 1]);
            lemma_q_row_text_no_char(v[0], ']', k - 1);
        }
    }
    crate::text::lemma_first_pos_is(s, ']', e);
    assert(s.subrange(1, e) =~= a);
    if v.len() == 1 {
        assert(e + 1 == s.len());
        assert(q_rows_vals(s) =~~= v);
    } else {
        assert(forall|i: int| 0 <= i < v.skip(1).len() ==> v.skip(1)[i] == v[i + 1]);
        assert forall|i: int| 0 <= i < v.skip(1).len() implies #[trigger] v.skip(1)[i].len() >= 1
            by {
            assert(v[i + 1].len() >= 1);
        }
        assert forall|i: int, j: int|
            0 <= i < v.skip(1).len() && 0 <= j < v.skip(1)[i].len() implies q_wf(
            #[trigger] v.skip(1)[i][j]) by {
            assert(q_wf(v[i + 1][j]));
        }
        lemma_q_rows_round_trip(v.skip(1));
        assert(s[e + 1] == ',');
        assert(s.skip(e + 2) =~= q_rows_text(v.skip(1)));
        assert(s[e + 2] == '[') by {
            assert(s[e + 2] == q_rows_text(v.skip(1))[0]);
        }
        assert(e + 2 < s.len());
        assert(q_rows_vals(s) =~~= v);
    }
}

/// Canonical-form idempotence: the canonical text of a well-formed rational
/// matrix is well formed and re-parses to that very matrix, so its
/// re-rendering and re-serialization are identical.
pub proof fn lemma_mat_q_canonical_idempotent(v: Seq<Seq<(int, int)>>)
    requires
        mat_q_wf(v),
    ensures
        valid_mat_q_text(mat_q_text(v)),
        mat_q_text_vals(mat_q_text(v)) == v,
{
    let t = mat_q_text(v);
    let body = q_rows_text(v);
    assert forall|i: int| 0 <= i < v.len() implies #[trigger] v[i].len() >= 1 by {
        assert(v[i].len() == v[0].len());
    }
    assert forall|i: int, j: int|
        0 <= i < v.len() && 0 <= j < v[i].len() implies q_wf(#[trigger] v[i][j]) by {}
    lemma_q_rows_round_trip(v);
    assert(t[0] == '[');
    assert(t.last() == ']');
    assert(t.subrange(1, t.len() - 1) =~= body);
    assert(q_rows_vals(body) =~~= v);
    assert(rect(q_rows_vals(body)));
    assert(valid_mat_q_text(t));
    assert(mat_q_text_vals(t) == q_rows_vals(body));
}

/// Serialization round trip: the serialized object of a well-formed
/// rational matrix deserializes back to that very matrix.
pub proof fn lemma_mat_q_serialize_round_trip(v: Seq<Seq<(int, int)>>)
    requires
        mat_q_wf(v),
    ensures
        crate::serialize::json_shape(crate::serialize::json_wrap(mat_q_text(v))),
        valid_mat_q_text(crate::serialize::json_payload(crate::serialize::json_wrap(mat_q_text(v)))),
        mat_q_text_vals(crate::serialize::json_payload(crate::serialize::json_wrap(mat_q_text(v))))
            == v,
{
    crate::serialize::lemma_json_wrap_shape(mat_q_text(v));
    lemma_mat_q_canonical_idempotent(v);
}

} // verus!
