//! The canonical text grammar for integers in bases 2 to 62.
//!
//! The alphabet is `0-9`, then `a-z` for the digit values 10 to 35, then
//! `A-Z` for 36 to 61. For bases up to 36 letter case is ignored on input;
//! output always uses the canonical alphabet. A numeral is an optional
//! leading `-` followed by at least one digit of the base; the canonical
//! numeral of a value has no leading zeros and is `0` for zero.
use crate::engine::big_add;
use crate::engine::big_clone;
use crate::engine::big_div_mod_floor;
use crate::engine::big_from_u64;
use crate::engine::big_is_zero;
use crate::engine::big_lt;
use crate::engine::big_mul;
use crate::engine::big_neg;
use crate::engine::big_to_u64;
use crate::engine::big_view;
use vstd::arithmetic::div_mod::lemma_div_decreases;
use vstd::arithmetic::div_mod::lemma_fundamental_div_mod;
use vstd::arithmetic::div_mod::lemma_fundamental_div_mod_converse_div;
use vstd::arithmetic::div_mod::lemma_fundamental_div_mod_converse_mod;
use vstd::arithmetic::div_mod::lemma_mod_bound;
use vstd::prelude::*;

verus! {

/// The canonical character of one digit value.
pub open spec fn digit_char(d: int) -> char
    recommends
        0 <= d < 62,
{
    if d < 10 {
        (('0' as int) + d) as char
    } else if d < 36 {
        (('a' as int) + (d - 10)) as char
    } else {
        (('A' as int) + (d - 36)) as char
    }
}

/// The value of one character as a digit of `base`, or `-1` where the
/// character is no such digit.
pub open spec fn digit_val(c: char, base: int) -> int {
    let v = if '0' <= c && c <= '9' {
        (c as int) - ('0' as int)
    } else if 'a' <= c && c <= 'z' {
        (c as int) - ('a' as int) + 10
    } else if 'A' <= c && c <= 'Z' {
        if base > 36 {
            (c as int) - ('A' as int) + 36
        } else {
            (c as int) - ('A' as int) + 10
        }
    } else {
        -1
    };
    if 0 <= v && v < base {
        v
    } else {
        -1
    }
}

/// The digits of `n` in `base`, most significant first; empty for zero.
pub open spec fn digits_of(n: nat, base: nat) -> Seq<char>
    recommends
        2 <= base,
    decreases n,
    via digits_of_decreases
{
    if n == 0 || base < 2 {
        Seq::empty()
    } else {
        digits_of(n / base, base).push(digit_char((n % base) as int))
    }
}

#[via_fn]
proof fn digits_of_decreases(n: nat, base: nat) {
    if n != 0 && base >= 2 {
        lemma_div_decreases(n as int, base as int);
    }
}

/// The canonical digit string of a non-negative value: `0` for zero,
/// otherwise the digits without leading zeros.
pub open spec fn nat_text(n: nat, base: nat) -> Seq<char> {
    if n == 0 {
        seq!['0']
    } else {
        digits_of(n, base)
    }
}

/// The canonical numeral of an integer: a leading `-` for negative values.
pub open spec fn int_text(v: int, base: nat) -> Seq<char> {
    if v < 0 {
        seq!['-'] + nat_text((-v) as nat, base)
    } else {
        nat_text(v as nat, base)
    }
}

/// The value denoted by a digit string, most significant digit first.
pub open spec fn digits_value(s: Seq<char>, base: int) -> int
    decreases s.len(),
{
    if s.len() == 0 {
        0
    } else {
        digits_value(s.drop_last(), base) * base + digit_val(s.last(), base)
    }
}

/// Whether every character of `s` is a digit of `base`.
pub open spec fn all_digits(s: Seq<char>, base: int) -> bool {
    forall|i: int| 0 <= i < s.len() ==> #[trigger] digit_val(s[i], base) >= 0
}

/// A well-formed numeral: an optional leading `-`, then at least one digit
/// of the base, and nothing else.
pub open spec fn valid_int_text(s: Seq<char>, base: int) -> bool {
    if s.len() > 0 && s[0] == '-' {
        s.len() >= 2 && all_digits(s.skip(1), base)
    } else {
        s.len() >= 1 && all_digits(s, base)
    }
}

/// The integer a well-formed numeral denotes.
pub open spec fn int_text_value(s: Seq<char>, base: int) -> int {
    if s.len() > 0 && s[0] == '-' {
        -digits_value(s.skip(1), base)
    } else {
        digits_value(s, base)
    }
}

/// The canonical character of a digit reads back as that digit.
proof fn lemma_digit_char_val(d: int, base: int)
    requires
        0 <= d < base <= 62,
        2 <= base,
    ensures
        digit_val(digit_char(d), base) == d,
        digit_char(d) != '-',
{
}

/// The digits of a value are digits of the base and read back as the value.
proof fn lemma_digits_of_value(n: nat, base: nat)
    requires
        2 <= base <= 62,
    ensures
        all_digits(digits_of(n, base), base as int),
        digits_value(digits_of(n, base), base as int) == n,
        n > 0 ==> digits_of(n, base).len() >= 1,
    decreases n,
{
    if n > 0 {
        lemma_div_decreases(n as int, base as int);
        lemma_mod_bound(n as int, base as int);
        lemma_fundamental_div_mod(n as int, base as int);
        lemma_digits_of_value(n / base, base);
        lemma_digit_char_val((n % base) as int, base as int);
        let rest = digits_of(n / base, base);
        let whole = digits_of(n, base);
        assert(whole == rest.push(digit_char((n % base) as int)));
        assert(whole.drop_last() =~= rest);
        assert(whole.last() == digit_char((n % base) as int));
        assert(digits_value(whole, base as int) == digits_value(rest, base as int) * (base as int)
            + digit_val(digit_char((n % base) as int), base as int));
        assert(digits_value(rest, base as int) == (n / base) as int);
        assert((n / base) as int == (n as int) / (base as int));
        assert((n % base) as int == (n as int) % (base as int));
        assert((n as int) == (base as int) * ((n as int) / (base as int)) + (n as int) % (
        base as int));
        assert((n / base) as int * (base as int) == (base as int) * ((n as int) / (base as int)))
            by (nonlinear_arith)
            requires
                (n / base) as int == (n as int) / (base as int),
        ;
        assert(all_digits(whole, base as int)) by {
            assert(forall|i: int|
                0 <= i < whole.len() ==> #[trigger] digit_val(whole[i], base as int) >= 0) by {
                assert(forall|i: int| 0 <= i < rest.len() ==> whole[i] == rest[i]);
            }
        }
    }
}

/// Round trip: the canonical numeral of any value is well formed and
/// denotes that value.
pub proof fn lemma_int_text_round_trip(v: int, base: nat)
    requires
        2 <= base <= 62,
    ensures
        valid_int_text(int_text(v, base), base as int),
        int_text_value(int_text(v, base), base as int) == v,
{
    let b = base as int;
    if v < 0 {
        let m = (-v) as nat;
        let t = nat_text(m, base);
        lemma_nat_text_value(m, base);
        let s = seq!['-'] + t;
        assert(s[0] == '-');
        assert(s.skip(1) =~= t);
        assert(s.len() >= 2);
    } else {
        let t = nat_text(v as nat, base);
        lemma_nat_text_value(v as nat, base);
        assert(t[0] != '-') by {
            if v == 0 {
            } else {
                lemma_first_digit_not_minus(v as nat, base);
            }
        }
    }
}

/// The canonical digit string of a non-negative value is non-empty, is all
/// digits, and denotes the value.
proof fn lemma_nat_text_value(n: nat, base: nat)
    requires
        2 <= base <= 62,
    ensures
        nat_text(n, base).len() >= 1,
        all_digits(nat_text(n, base), base as int),
        digits_value(nat_text(n, base), base as int) == n,
{
    if n == 0 {
        let s = seq!['0'];
        assert(s.drop_last() =~= Seq::<char>::empty());
        assert(s.last() == '0');
        assert(digit_val('0', base as int) == 0);
        assert(digits_value(s, base as int) == digits_value(Seq::<char>::empty(), base as int) * (
        base as int) + digit_val('0', base as int));
    } else {
        lemma_digits_of_value(n, base);
    }
}

/// A digit string never starts with a minus sign.
proof fn lemma_first_digit_not_minus(n: nat, base: nat)
    requires
        2 <= base <= 62,
        n > 0,
    ensures
        digits_of(n, base)[0] != '-',
    decreases n,
{
    lemma_div_decreases(n as int, base as int);
    lemma_mod_bound(n as int, base as int);
    let rest = digits_of(n / base, base);
    lemma_digit_char_val((n % base) as int, base as int);
    if rest.len() > 0 {
        lemma_first_digit_not_minus(n / base, base);
        assert(n / base > 0) by {
            if n / base == 0 {
                lemma_digits_of_value(n / base, base);
            }
        }
    }
}

/// One character converted to the digit value it has under `base`.
pub(crate) fn char_digit(c: char, base: u64) -> (r: Option<u64>)
    requires
        2 <= base <= 62,
    ensures
        r is Some ==> digit_val(c, base as int) == r->0 as int,
        r is None ==> digit_val(c, base as int) == -1,
{
    let u: u32 = c as u32;
    let v: i64 = if u >= 48 && u <= 57 {
        (u - 48) as i64
    } else if u >= 97 && u <= 122 {
        (u - 97 + 10) as i64
    } else if u >= 65 && u <= 90 {
        if base > 36 {
            (u - 65 + 36) as i64
        } else {
            (u - 65 + 10) as i64
        }
    } else {
        -1i64
    };
    if v >= 0 && (v as u64) < base {
        Some(v as u64)
    } else {
        None
    }
}

/// The canonical character of one digit value.
pub(crate) fn digit_to_char(d: u64) -> (c: char)
    requires
        d < 62,
    ensures
        c == digit_char(d as int),
{
    if d < 10 {
        (48u8 + d as u8) as char
    } else if d < 36 {
        (97u8 + (d - 10) as u8) as char
    } else {
        (65u8 + (d - 36) as u8) as char
    }
}

/// Parses a numeral in `base`; `None` exactly on text that does not match
/// the numeral grammar.
pub(crate) fn parse_int_str(s: &str, base: u64) -> (r: Option<num_bigint::BigInt>)
    requires
        2 <= base <= 62,
    ensures
        r is Some <==> valid_int_text(s@, base as int),
        r is Some ==> big_view(r->0) == int_text_value(s@, base as int),
{
    let n: usize = s.unicode_len();
    let mut neg: bool = false;
    if n > 0 {
        let c0: char = s.get_char(0);
        if c0 == '-' {
            neg = true;
        }
    }
    let start: usize = if neg {
        1
    } else {
        0
    };
    if n == start {
        return None;
    }
    let base_big = big_from_u64(base);
    let mut acc = big_from_u64(0);
    let mut i: usize = start;
    proof {
        assert(s@.subrange(start as int, i as int) =~= Seq::<char>::empty());
    }
    while i < n
        invariant
            2 <= base <= 62,
            start <= 1,
            start <= i <= n,
            n == s@.len(),
            start == 1 ==> s@[0] == '-',
            start == 0 && n > 0 ==> s@[0] != '-',
            big_view(base_big) == base as int,
            all_digits(s@.subrange(start as int, i as int), base as int),
            big_view(acc) == digits_value(s@.subrange(start as int, i as int), base as int),
        decreases n - i,
    {
        let c: char = s.get_char(i);
        let d: Option<u64> = char_digit(c, base);
        match d {
            None => {
                proof {
                    if valid_int_text(s@, base as int) {
                        if start == 1 {
                            assert(s@[0] == '-');
                            assert(all_digits(s@.skip(1), base as int));
                            assert(s@.skip(1)[i - 1] == s@[i as int]);
                            assert(digit_val(s@.skip(1)[i - 1], base as int) >= 0);
                            assert(false);
                        } else {
                            assert(s@[0] != '-');
                            assert(all_digits(s@, base as int));
                            assert(digit_val(s@[i as int], base as int) >= 0);
                            assert(false);
                        }
                    }
                }
                return None;
            },
            Some(dv) => {
                let step = big_mul(&acc, &base_big);
                acc = big_add(&step, &big_from_u64(dv));
                proof {
                    let prev = s@.subrange(start as int, i as int);
                    let cur = s@.subrange(start as int, i + 1 as int);
                    assert(cur.drop_last() =~= prev);
                    assert(cur.last() == s@[i as int]);
                    assert(all_digits(cur, base as int)) by {
                        assert(forall|k: int| 0 <= k < prev.len() ==> cur[k] == prev[k]);
                    }
                }
            },
        }
        i += 1;
    }
    let whole = Ghost(s@.subrange(start as int, n as int));
    proof {
        if start == 1 {
            assert(whole@ =~= s@.skip(1));
        } else {
            assert(whole@ =~= s@);
        }
    }
    if neg {
        Some(big_neg(&acc))
    } else {
        Some(acc)
    }
}

/// Writes the canonical digits of a positive value, most significant first.
pub(crate) fn format_nat_digits(v: &num_bigint::BigInt, base: u64) -> (r: Vec<char>)
    requires
        2 <= base <= 62,
        big_view(*v) >= 1,
    ensures
        r@ == digits_of(big_view(*v) as nat, base as nat),
{
    let base_big = big_from_u64(base);
    let mut m = big_clone(v);
    let mut rev: Vec<char> = Vec::new();
    while !big_is_zero(&m)
        invariant
            2 <= base <= 62,
            big_view(base_big) == base as int,
            0 <= big_view(m),
            digits_of(big_view(*v) as nat, base as nat) == digits_of(
                big_view(m) as nat,
                base as nat,
            ) + rev@.reverse(),
        decreases big_view(m),
    {
        let qr = big_div_mod_floor(&m, &base_big);
        let d: u64 = big_to_u64(&qr.1);
        let c: char = digit_to_char(d);
        proof {
            let mv = big_view(m);
            let qv = big_view(qr.0);
            let rv = big_view(qr.1);
            lemma_fundamental_div_mod_converse_div(mv, base as int, qv, rv);
            lemma_fundamental_div_mod_converse_mod(mv, base as int, qv, rv);
            assert(qv == mv / (base as int));
            assert(rv == mv % (base as int));
            assert((mv as nat) / (base as nat) == qv as nat);
            assert((mv as nat) % (base as nat) == rv as nat);
            assert(digits_of(mv as nat, base as nat) == digits_of(qv as nat, base as nat).push(
                digit_char(rv),
            ));
            assert(rev@.push(c).reverse() =~= seq![c] + rev@.reverse());
            assert(digits_of(qv as nat, base as nat) + rev@.push(c).reverse() =~= digits_of(
                mv as nat,
                base as nat,
            ) + rev@.reverse());
            lemma_div_decreases(mv, base as int);
        }
        rev.push(c);
        m = qr.0;
    }
    let ghost all = digits_of(big_view(*v) as nat, base as nat);
    proof {
        assert(all =~= rev@.reverse());
    }
    let mut out: Vec<char> = Vec::new();
    let mut j: usize = rev.len();
    while j > 0
        invariant
            j <= rev.len(),
            out@ =~= rev@.skip(j as int).reverse(),
        decreases j,
    {
        j -= 1;
        out.push(rev[j]);
        proof {
            assert(rev@.skip(j as int).reverse() =~= rev@.skip(j + 1 as int).reverse().push(
                rev@[j as int],
            ));
        }
    }
    proof {
        assert(rev@.skip(0) =~= rev@);
    }
    out
}

/// Writes the canonical numeral of any value in `base`.
pub(crate) fn format_int_chars(v: &num_bigint::BigInt, base: u64) -> (r: Vec<char>)
    requires
        2 <= base <= 62,
    ensures
        r@ == int_text(big_view(*v), base as nat),
{
    let zero = big_from_u64(0);
    if big_is_zero(v) {
        let out: Vec<char> = vec!['0'];
        proof {
            assert(out@ =~= seq!['0']);
        }
        return out;
    }
    if big_lt(v, &zero) {
        let m = big_neg(v);
        let digits = format_nat_digits(&m, base);
        let mut out: Vec<char> = Vec::new();
        out.push('-');
        let mut k: usize = 0;
        while k < digits.len()
            invariant
                k <= digits.len(),
                out@ =~= seq!['-'] + digits@.take(k as int),
            decreases digits.len() - k,
        {
            out.push(digits[k]);
            k += 1;
            proof {
                assert(digits@.take(k as int) =~= digits@.take(k - 1).push(digits@[k - 1]));
            }
        }
        proof {
            assert(digits@.take(digits@.len() as int) =~= digits@);
            assert(out@ =~= int_text(big_view(*v), base as nat));
        }
        out
    } else {
        let digits = format_nat_digits(v, base);
        proof {
            assert(digits@ =~= int_text(big_view(*v), base as nat));
        }
        digits
    }
}

/// The index of the first occurrence of `c` in `s`, or `s.len()` where `c`
/// does not occur.
pub open spec fn first_pos(s: Seq<char>, c: char) -> int
    decreases s.len(),
{
    if s.len() == 0 {
        0
    } else if s[0] == c {
        0
    } else {
        1 + first_pos(s.skip(1), c)
    }
}

/// `first_pos` is pinned down by what an index scan shows: no occurrence
/// before `i`, and either an occurrence at `i` or the end of the text.
pub proof fn lemma_first_pos_is(s: Seq<char>, c: char, i: int)
    requires
        0 <= i <= s.len(),
        forall|k: int| 0 <= k < i ==> s[k] != c,
        i == s.len() || s[i] == c,
    ensures
        first_pos(s, c) == i,
    decreases s.len(),
{
    if s.len() == 0 {
    } else if s[0] == c {
        assert(i == 0);
    } else {
        let t = s.skip(1);
        assert(forall|k: int| 0 <= k < i - 1 ==> t[k] == s[k + 1]);
        lemma_first_pos_is(t, c, i - 1);
    }
}

/// `first_pos` lands on an occurrence of `c`, or at the end where there is
/// none, and never skips one.
pub proof fn lemma_first_pos_bounds(s: Seq<char>, c: char)
    ensures
        0 <= first_pos(s, c) <= s.len(),
        first_pos(s, c) < s.len() ==> s[first_pos(s, c)] == c,
        forall|k: int| 0 <= k < first_pos(s, c) ==> s[k] != c,
    decreases s.len(),
{
    if s.len() == 0 {
    } else if s[0] == c {
    } else {
        let t = s.skip(1);
        lemma_first_pos_bounds(t, c);
        assert(forall|k: int| 0 <= k < t.len() ==> t[k] == s[k + 1]);
        assert forall|k: int| 0 <= k < first_pos(s, c) implies s[k] != c by {
            if k >= 1 {
                assert(t[k - 1] != c);
            }
        }
    }
}

/// Scans for the first occurrence of `c`, returning `s.len()` where there
/// is none.
pub(crate) fn find_first(s: &str, c: char) -> (r: usize)
    ensures
        r == first_pos(s@, c),
        r <= s@.len(),
{
    let n: usize = s.unicode_len();
    let mut i: usize = 0;
    while i < n
        invariant
            0 <= i <= n,
            n == s@.len(),
            forall|k: int| 0 <= k < i ==> s@[k] != c,
        decreases n - i,
    {
        let cur: char = s.get_char(i);
        if cur == c {
            proof {
                lemma_first_pos_is(s@, c, i as int);
            }
            return i;
        }
        i += 1;
    }
    proof {
        lemma_first_pos_is(s@, c, n as int);
    }
    n
}

/// A text of `k` tokens separated by single spaces, each accepted by `ok`.
pub open spec fn valid_sep_list(s: Seq<char>, k: nat, ok: spec_fn(Seq<char>) -> bool) -> bool
    decreases k,
{
    if k == 0 {
        false
    } else if k == 1 {
        ok(s)
    } else {
        let p = first_pos(s, ' ');
        p < s.len() && ok(s.take(p)) && valid_sep_list(s.skip(p + 1), (k - 1) as nat, ok)
    }
}

/// The values of `k` space-separated tokens, each read by `f`.
pub open spec fn sep_list_vals<V>(s: Seq<char>, k: nat, f: spec_fn(Seq<char>) -> V) -> Seq<V>
    decreases k,
{
    if k == 0 {
        Seq::empty()
    } else if k == 1 {
        seq![f(s)]
    } else {
        let p = first_pos(s, ' ');
        seq![f(s.take(p))] + sep_list_vals(s.skip(p + 1), (k - 1) as nat, f)
    }
}

/// A list of `k` tokens of at least one character each needs at least
/// `2k - 1` characters.
pub proof fn lemma_sep_list_min_len(s: Seq<char>, k: nat, ok: spec_fn(Seq<char>) -> bool)
    requires
        k >= 1,
        valid_sep_list(s, k, ok),
        forall|t: Seq<char>| #[trigger] ok(t) ==> t.len() >= 1,
    ensures
        s.len() >= 2 * k - 1,
    decreases k,
{
    if k == 1 {
        assert(ok(s));
    } else {
        let p = first_pos(s, ' ');
        lemma_first_pos_bounds(s, ' ');
        assert(ok(s.take(p)));
        lemma_sep_list_min_len(s.skip(p + 1), (k - 1) as nat, ok);
    }
}

/// Whether the text holds two spaces in a row anywhere.
pub open spec fn has_double_space(s: Seq<char>) -> bool {
    exists|i: int| 0 <= i && i + 1 < s.len() && s[i] == ' ' && #[trigger] s[i + 1] == ' '
}

/// Scans for two spaces in a row.
pub(crate) fn find_double_space(s: &str) -> (r: bool)
    ensures
        r == has_double_space(s@),
{
    let n: usize = s.unicode_len();
    if n < 2 {
        return false;
    }
    let mut i: usize = 0;
    while i + 1 < n
        invariant
            n == s@.len(),
            0 <= i,
            i + 1 <= n,
            forall|k: int| 0 <= k && k + 1 < i + 1 ==> !(s@[k] == ' ' && #[trigger] s@[k + 1]
                == ' '),
        decreases n - i,
    {
        let a: char = s.get_char(i);
        let b: char = s.get_char(i + 1);
        if a == ' ' && b == ' ' {
            return true;
        }
        i += 1;
    }
    false
}

/// Appends all characters of `src` to `dst`.
pub(crate) fn push_chars(dst: &mut Vec<char>, src: &Vec<char>)
    ensures
        final(dst)@ == old(dst)@ + src@,
{
    let mut k: usize = 0;
    while k < src.len()
        invariant
            k <= src.len(),
            dst@ =~= old(dst)@ + src@.take(k as int),
        decreases src.len() - k,
    {
        dst.push(src[k]);
        k += 1;
        proof {
            assert(src@.take(k as int) =~= src@.take(k - 1).push(src@[k - 1]));
        }
    }
    proof {
        assert(src@.take(src@.len() as int) =~= src@);
    }
}

/// The index of the last occurrence of `c` in `s`, or `-1` where `c` does
/// not occur.
pub open spec fn last_pos(s: Seq<char>, c: char) -> int
    decreases s.len(),
{
    if s.len() == 0 {
        -1
    } else if s.last() == c {
        s.len() - 1
    } else {
        last_pos(s.drop_last(), c)
    }
}

/// `last_pos` lands on an occurrence of `c` with none after it, or on `-1`
/// where there is none at all.
pub proof fn lemma_last_pos_bounds(s: Seq<char>, c: char)
    ensures
        -1 <= last_pos(s, c) < s.len(),
        last_pos(s, c) >= 0 ==> s[last_pos(s, c)] == c,
        forall|k: int| last_pos(s, c) < k < s.len() ==> s[k] != c,
    decreases s.len(),
{
    if s.len() == 0 {
    } else if s.last() == c {
    } else {
        lemma_last_pos_bounds(s.drop_last(), c);
        assert(forall|k: int| 0 <= k < s.len() - 1 ==> s[k] == s.drop_last()[k]);
    }
}

/// Scans for the last occurrence of `c`, returning `None` where there is
/// none.
pub(crate) fn find_last(s: &str, c: char) -> (r: Option<usize>)
    ensures
        r is Some <==> last_pos(s@, c) >= 0,
        r is Some ==> r->0 == last_pos(s@, c),
{
    let n: usize = s.unicode_len();
    let mut i: usize = n;
    while i > 0
        invariant
            i <= n,
            n == s@.len(),
            forall|k: int| i <= k < n ==> s@[k] != c,
        decreases i,
    {
        i -= 1;
        let cur: char = s.get_char(i);
        if cur == c {
            proof {
                lemma_last_pos_is(s@, c, i as int);
            }
            return Some(i);
        }
    }
    proof {
        lemma_last_pos_none(s@, c);
    }
    None
}

/// `last_pos` is pinned down by what a backward scan shows.
pub proof fn lemma_last_pos_is_pub(s: Seq<char>, c: char, i: int)
    requires
        0 <= i < s.len(),
        s[i] == c,
        forall|k: int| i < k < s.len() ==> s[k] != c,
    ensures
        last_pos(s, c) == i,
{
    lemma_last_pos_is(s, c, i);
}

/// `last_pos` is pinned down by what a backward scan shows.
proof fn lemma_last_pos_is(s: Seq<char>, c: char, i: int)
    requires
        0 <= i < s.len(),
        s[i] == c,
        forall|k: int| i < k < s.len() ==> s[k] != c,
    ensures
        last_pos(s, c) == i,
    decreases s.len(),
{
    if i == s.len() - 1 {
    } else {
        assert(s.last() != c);
        let t = s.drop_last();
        assert(forall|k: int| 0 <= k < t.len() ==> t[k] == s[k]);
        lemma_last_pos_is(t, c, i);
    }
}

/// A text without `c` anywhere has no last occurrence.
proof fn lemma_last_pos_none(s: Seq<char>, c: char)
    requires
        forall|k: int| 0 <= k < s.len() ==> s[k] != c,
    ensures
        last_pos(s, c) == -1,
    decreases s.len(),
{
    if s.len() > 0 {
        let t = s.drop_last();
        assert(forall|k: int| 0 <= k < t.len() ==> t[k] == s[k]);
        lemma_last_pos_none(t, c);
    }
}

/// The canonical numeral of an integer consists of digits after an optional
/// leading minus sign, so it never holds a character that is neither.
pub proof fn lemma_int_text_no_char(v: int, base: nat, c: char)
    requires
        2 <= base <= 62,
        digit_val(c, base as int) == -1,
        c != '-',
    ensures
        forall|i: int| 0 <= i < int_text(v, base).len() ==> #[trigger] int_text(v, base)[i] != c,
{
    lemma_int_text_round_trip(v, base);
    let t = int_text(v, base);
    assert forall|i: int| 0 <= i < t.len() implies t[i] != c by {
        if t[0] == '-' {
            if i > 0 {
                assert(digit_val(t.skip(1)[i - 1], base as int) >= 0);
            }
        } else {
            assert(digit_val(t[i], base as int) >= 0);
        }
    }
}

} // verus!
