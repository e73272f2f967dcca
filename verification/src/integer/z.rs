//! [`Z`] is an integer of arbitrary size.
use crate::engine::big_add;
use crate::engine::big_clone;
use crate::engine::big_div_mod_floor;
use crate::engine::big_eq;
use crate::engine::big_from_i64;
use crate::engine::big_from_u64;
use crate::engine::big_gcd;
use crate::engine::big_is_zero;
use crate::engine::big_lt;
use crate::engine::big_neg;
use crate::engine::big_to_i64_lossy;
use crate::engine::big_mul;
use crate::engine::big_sub;
use crate::engine::big_view;
use crate::engine::chars_to_string;
use crate::arith::gcd_int;
use crate::arith::gcd_nat;
use crate::arith::lcm_int;
use crate::arith::lemma_gcd_pos;
use crate::error::MathError;
use crate::integer_mod_q::modulus::Modulus;
use crate::integer_mod_q::zq::Zq;
use crate::text::format_int_chars;
use crate::text::int_text;
use crate::text::int_text_value;
use crate::text::parse_int_str;
use crate::text::valid_int_text;
use vstd::math::abs;
use vstd::prelude::*;

verus! {

/// An integer that can grow arbitrarily large, owning its storage
/// exclusively: cloning copies the storage deeply and two live values never
/// alias it.
#[derive(Debug)]
pub struct Z {
    pub(crate) value: num_bigint::BigInt,
}

impl View for Z {
    type V = int;

    closed spec fn view(&self) -> int {
        big_view(self.value)
    }
}

impl Clone for Z {
    /// Deep-copies the underlying storage; the copy denotes the same value.
    fn clone(&self) -> (r: Z)
        ensures
            r@ == self@,
    {
        Z { value: big_clone(&self.value) }
    }
}

impl PartialEq for Z {
    /// Two integers are equal exactly when they denote the same value.
    fn eq(&self, other: &Z) -> (r: bool) {
        big_eq(&self.value, &other.value)
    }
}

impl vstd::std_specs::cmp::PartialEqSpecImpl for Z {
    open spec fn obeys_eq_spec() -> bool {
        true
    }

    open spec fn eq_spec(&self, other: &Z) -> bool {
        self@ == other@
    }
}

impl Z {
    /// Wraps engine storage as an integer value, taking ownership of it.
    pub(crate) fn from_big(value: num_bigint::BigInt) -> (r: Z)
        ensures
            r@ == big_view(value),
    {
        Z { value }
    }

    /// The engine storage behind this integer.
    pub(crate) fn as_big(&self) -> (r: &num_bigint::BigInt)
        ensures
            big_view(*r) == self@,
    {
        &self.value
    }

    /// Create a new integer that can grow arbitrarily large, holding the
    /// given initial value.
    pub fn from_i64(value: i64) -> (r: Z)
        ensures
            r@ == value as int,
    {
        Z { value: big_from_i64(value) }
    }

    /// Create a new integer that can grow arbitrarily large, holding the
    /// given initial value.
    pub fn from_u64(value: u64) -> (r: Z)
        ensures
            r@ == value as int,
    {
        Z { value: big_from_u64(value) }
    }

    /// Create a new integer that can grow arbitrarily large, holding the
    /// given initial value.
    pub fn from_i32(value: i32) -> (r: Z)
        ensures
            r@ == value as int,
    {
        Z::from_i64(value as i64)
    }

    /// Create a new integer that can grow arbitrarily large, holding the
    /// given initial value.
    pub fn from_i16(value: i16) -> (r: Z)
        ensures
            r@ == value as int,
    {
        Z::from_i64(value as i64)
    }

    /// Create a new integer that can grow arbitrarily large, holding the
    /// given initial value.
    pub fn from_i8(value: i8) -> (r: Z)
        ensures
            r@ == value as int,
    {
        Z::from_i64(value as i64)
    }

    /// Create a new integer that can grow arbitrarily large, holding the
    /// given initial value.
    pub fn from_u32(value: u32) -> (r: Z)
        ensures
            r@ == value as int,
    {
        Z::from_u64(value as u64)
    }

    /// Create a new integer that can grow arbitrarily large, holding the
    /// given initial value.
    pub fn from_u16(value: u16) -> (r: Z)
        ensures
            r@ == value as int,
    {
        Z::from_u64(value as u64)
    }

    /// Create a new integer that can grow arbitrarily large, holding the
    /// given initial value.
    pub fn from_u8(value: u8) -> (r: Z)
        ensures
            r@ == value as int,
    {
        Z::from_u64(value as u64)
    }

    /// Whether the integer is zero.
    pub fn is_zero(&self) -> (r: bool)
        ensures
            r == (self@ == 0),
    {
        crate::engine::big_is_zero(&self.value)
    }

    /// The integer zero.
    pub fn zero() -> (r: Z)
        ensures
            r@ == 0,
    {
        Z::from_i64(0)
    }

    /// Create a [`Z`] from a string holding a numeral in the given base,
    /// which must lie between `2` and `62`.
    ///
    /// Returns [`MathError::RangeError`] exactly when the base is out of
    /// bounds, and [`MathError::MalformedInput`] exactly when the text is
    /// not an optional `-` followed by at least one digit of the base.
    pub fn from_str_b(s: &str, base: i32) -> (r: Result<Z, MathError>)
        ensures
            !(2 <= base <= 62) ==> r == Err::<Z, MathError>(MathError::RangeError),
            2 <= base <= 62 && !valid_int_text(s@, base as int) ==> r == Err::<Z, MathError>(
                MathError::MalformedInput,
            ),
            2 <= base <= 62 && valid_int_text(s@, base as int) ==> r is Ok && r->Ok_0@
                == int_text_value(s@, base as int),
    {
        if base < 2 || base > 62 {
            return Err(MathError::RangeError);
        }
        match parse_int_str(s, base as u64) {
            Some(value) => Ok(Z { value }),
            None => Err(MathError::MalformedInput),
        }
    }

    /// Create a [`Z`] from a decimal string, as [`Z::from_str_b`] with
    /// base `10`.
    pub fn from_str(s: &str) -> (r: Result<Z, MathError>)
        ensures
            !valid_int_text(s@, 10) ==> r == Err::<Z, MathError>(MathError::MalformedInput),
            valid_int_text(s@, 10) ==> r is Ok && r->Ok_0@ == int_text_value(s@, 10),
    {
        Z::from_str_b(s, 10)
    }

    /// Render the integer as its canonical numeral in the given base,
    /// which must lie between `2` and `62`.
    ///
    /// Returns [`MathError::RangeError`] exactly when the base is out of
    /// bounds; every value succeeds for every base in bounds.
    pub fn to_string_b(&self, base: i32) -> (r: Result<String, MathError>)
        ensures
            !(2 <= base <= 62) ==> r == Err::<String, MathError>(MathError::RangeError),
            2 <= base <= 62 ==> r is Ok && r->Ok_0@ == int_text(self@, base as nat),
    {
        if base < 2 || base > 62 {
            return Err(MathError::RangeError);
        }
        let chars = format_int_chars(&self.value, base as u64);
        Ok(chars_to_string(&chars))
    }

    /// Render the integer as its canonical decimal numeral.
    pub fn to_string(&self) -> (r: String)
        ensures
            r@ == int_text(self@, 10),
    {
        match self.to_string_b(10) {
            Ok(s) => s,
            Err(_) => String::new(),
        }
    }
}

impl core::ops::Add<&Z> for &Z {
    type Output = Z;

    /// The canonical borrowed-operand form; every other ownership form of
    /// this operator delegates here.
    fn add(self, rhs: &Z) -> (r: Z)
        ensures
            r@ == self@ + rhs@,
    {
        Z { value: big_add(&self.value, &rhs.value) }
    }
}

// Each operator impl carries its contract directly on its method; the
// matching vstd extension-trait impl below only supplies the operator's
// precondition (`add_req`) and claims nothing else (`obeys_add_spec` is
// false), so callers rely on the stated `ensures` alone.
impl vstd::std_specs::ops::AddSpecImpl<&Z> for &Z {
    open spec fn obeys_add_spec() -> bool {
        false
    }

    open spec fn add_req(self, rhs: &Z) -> bool {
        true
    }

    open spec fn add_spec(self, rhs: &Z) -> Z {
        vstd::pervasive::arbitrary()
    }
}

impl core::ops::Add<Z> for Z {
    type Output = Z;

    /// A forwarder to the canonical borrowed-operand form.
    fn add(self, rhs: Z) -> (r: Z)
        ensures
            r@ == self@ + rhs@,
    {
        (&self).add(&rhs)
    }
}

impl vstd::std_specs::ops::AddSpecImpl<Z> for Z {
    open spec fn obeys_add_spec() -> bool {
        false
    }

    open spec fn add_req(self, rhs: Z) -> bool {
        true
    }

    open spec fn add_spec(self, rhs: Z) -> Z {
        vstd::pervasive::arbitrary()
    }
}

impl core::ops::Add<&Z> for Z {
    type Output = Z;

    /// A forwarder to the canonical borrowed-operand form.
    fn add(self, rhs: &Z) -> (r: Z)
        ensures
            r@ == self@ + rhs@,
    {
        (&self).add(rhs)
    }
}

impl vstd::std_specs::ops::AddSpecImpl<&Z> for Z {
    open spec fn obeys_add_spec() -> bool {
        false
    }

    open spec fn add_req(self, rhs: &Z) -> bool {
        true
    }

    open spec fn add_spec(self, rhs: &Z) -> Z {
        vstd::pervasive::arbitrary()
    }
}

impl core::ops::Add<Z> for &Z {
    type Output = Z;

    /// A forwarder to the canonical borrowed-operand form.
    fn add(self, rhs: Z) -> (r: Z)
        ensures
            r@ == self@ + rhs@,
    {
        self.add(&rhs)
    }
}

impl vstd::std_specs::ops::AddSpecImpl<Z> for &Z {
    open spec fn obeys_add_spec() -> bool {
        false
    }

    open spec fn add_req(self, rhs: Z) -> bool {
        true
    }

    open spec fn add_spec(self, rhs: Z) -> Z {
        vstd::pervasive::arbitrary()
    }
}

impl core::ops::Add<&i64> for &Z {
    type Output = Z;

    /// The canonical form with the absorbed type on the right: the `i64` is
    /// widened into a [`Z`] and the canonical form does the work.
    fn add(self, rhs: &i64) -> (r: Z)
        ensures
            r@ == self@ + (*rhs as int),
    {
        let other = Z::from_i64(*rhs);
        self.add(&other)
    }
}

impl vstd::std_specs::ops::AddSpecImpl<&i64> for &Z {
    open spec fn obeys_add_spec() -> bool {
        false
    }

    open spec fn add_req(self, rhs: &i64) -> bool {
        true
    }

    open spec fn add_spec(self, rhs: &i64) -> Z {
        vstd::pervasive::arbitrary()
    }
}

impl core::ops::Add<i64> for Z {
    type Output = Z;

    /// A forwarder to the canonical borrowed-operand form.
    fn add(self, rhs: i64) -> (r: Z)
        ensures
            r@ == self@ + (rhs as int),
    {
        (&self).add(&rhs)
    }
}

impl vstd::std_specs::ops::AddSpecImpl<i64> for Z {
    open spec fn obeys_add_spec() -> bool {
        false
    }

    open spec fn add_req(self, rhs: i64) -> bool {
        true
    }

    open spec fn add_spec(self, rhs: i64) -> Z {
        vstd::pervasive::arbitrary()
    }
}

impl core::ops::Add<&i64> for Z {
    type Output = Z;

    /// A forwarder to the canonical borrowed-operand form.
    fn add(self, rhs: &i64) -> (r: Z)
        ensures
            r@ == self@ + (*rhs as int),
    {
        (&self).add(rhs)
    }
}

impl vstd::std_specs::ops::AddSpecImpl<&i64> for Z {
    open spec fn obeys_add_spec() -> bool {
        false
    }

    open spec fn add_req(self, rhs: &i64) -> bool {
        true
    }

    open spec fn add_spec(self, rhs: &i64) -> Z {
        vstd::pervasive::arbitrary()
    }
}

impl core::ops::Add<i64> for &Z {
    type Output = Z;

    /// A forwarder to the canonical borrowed-operand form.
    fn add(self, rhs: i64) -> (r: Z)
        ensures
            r@ == self@ + (rhs as int),
    {
        self.add(&rhs)
    }
}

impl vstd::std_specs::ops::AddSpecImpl<i64> for &Z {
    open spec fn obeys_add_spec() -> bool {
        false
    }

    open spec fn add_req(self, rhs: i64) -> bool {
        true
    }

    open spec fn add_spec(self, rhs: i64) -> Z {
        vstd::pervasive::arbitrary()
    }
}

impl core::ops::Add<&Z> for &i64 {
    type Output = Z;

    /// The canonical form with the absorbed type on the left: the `i64` is
    /// widened into a [`Z`] and the canonical form does the work.
    fn add(self, rhs: &Z) -> (r: Z)
        ensures
            r@ == (*self as int) + rhs@,
    {
        let lhs = Z::from_i64(*self);
        (&lhs).add(rhs)
    }
}

impl vstd::std_specs::ops::AddSpecImpl<&Z> for &i64 {
    open spec fn obeys_add_spec() -> bool {
        false
    }

    open spec fn add_req(self, rhs: &Z) -> bool {
        true
    }

    open spec fn add_spec(self, rhs: &Z) -> Z {
        vstd::pervasive::arbitrary()
    }
}

impl core::ops::Add<Z> for i64 {
    type Output = Z;

    /// A forwarder to the canonical borrowed-operand form.
    fn add(self, rhs: Z) -> (r: Z)
        ensures
            r@ == (self as int) + rhs@,
    {
        (&self).add(&rhs)
    }
}

impl vstd::std_specs::ops::AddSpecImpl<Z> for i64 {
    open spec fn obeys_add_spec() -> bool {
        false
    }

    open spec fn add_req(self, rhs: Z) -> bool {
        true
    }

    open spec fn add_spec(self, rhs: Z) -> Z {
        vstd::pervasive::arbitrary()
    }
}

impl core::ops::Add<&Z> for i64 {
    type Output = Z;

    /// A forwarder to the canonical borrowed-operand form.
    fn add(self, rhs: &Z) -> (r: Z)
        ensures
            r@ == (self as int) + rhs@,
    {
        (&self).add(rhs)
    }
}

impl vstd::std_specs::ops::AddSpecImpl<&Z> for i64 {
    open spec fn obeys_add_spec() -> bool {
        false
    }

    open spec fn add_req(self, rhs: &Z) -> bool {
        true
    }

    open spec fn add_spec(self, rhs: &Z) -> Z {
        vstd::pervasive::arbitrary()
    }
}

impl core::ops::Add<Z> for &i64 {
    type Output = Z;

    /// A forwarder to the canonical borrowed-operand form.
    fn add(self, rhs: Z) -> (r: Z)
        ensures
            r@ == (*self as int) + rhs@,
    {
        self.add(&rhs)
    }
}

impl vstd::std_specs::ops::AddSpecImpl<Z> for &i64 {
    open spec fn obeys_add_spec() -> bool {
        false
    }

    open spec fn add_req(self, rhs: Z) -> bool {
        true
    }

    open spec fn add_spec(self, rhs: Z) -> Z {
        vstd::pervasive::arbitrary()
    }
}

impl core::ops::Sub<&Z> for &Z {
    type Output = Z;

    /// The canonical borrowed-operand form; every other ownership form of
    /// this operator delegates here.
    fn sub(self, rhs: &Z) -> (r: Z)
        ensures
            r@ == self@ - rhs@,
    {
        Z { value: big_sub(&self.value, &rhs.value) }
    }
}

impl vstd::std_specs::ops::SubSpecImpl<&Z> for &Z {
    open spec fn obeys_sub_spec() -> bool {
        false
    }

    open spec fn sub_req(self, rhs: &Z) -> bool {
        true
    }

    open spec fn sub_spec(self, rhs: &Z) -> Z {
        vstd::pervasive::arbitrary()
    }
}

impl core::ops::Sub<Z> for Z {
    type Output = Z;

    /// A forwarder to the canonical borrowed-operand form.
    fn sub(self, rhs: Z) -> (r: Z)
        ensures
            r@ == self@ - rhs@,
    {
        (&self).sub(&rhs)
    }
}

impl vstd::std_specs::ops::SubSpecImpl<Z> for Z {
    open spec fn obeys_sub_spec() -> bool {
        false
    }

    open spec fn sub_req(self, rhs: Z) -> bool {
        true
    }

    open spec fn sub_spec(self, rhs: Z) -> Z {
        vstd::pervasive::arbitrary()
    }
}

impl core::ops::Sub<&Z> for Z {
    type Output = Z;

    /// A forwarder to the canonical borrowed-operand form.
    fn sub(self, rhs: &Z) -> (r: Z)
        ensures
            r@ == self@ - rhs@,
    {
        (&self).sub(rhs)
    }
}

impl vstd::std_specs::ops::SubSpecImpl<&Z> for Z {
    open spec fn obeys_sub_spec() -> bool {
        false
    }

    open spec fn sub_req(self, rhs: &Z) -> bool {
        true
    }

    open spec fn sub_spec(self, rhs: &Z) -> Z {
        vstd::pervasive::arbitrary()
    }
}

impl core::ops::Sub<Z> for &Z {
    type Output = Z;

    /// A forwarder to the canonical borrowed-operand form.
    fn sub(self, rhs: Z) -> (r: Z)
        ensures
            r@ == self@ - rhs@,
    {
        self.sub(&rhs)
    }
}

impl vstd::std_specs::ops::SubSpecImpl<Z> for &Z {
    open spec fn obeys_sub_spec() -> bool {
        false
    }

    open spec fn sub_req(self, rhs: Z) -> bool {
        true
    }

    open spec fn sub_spec(self, rhs: Z) -> Z {
        vstd::pervasive::arbitrary()
    }
}

impl core::ops::Sub<&i64> for &Z {
    type Output = Z;

    /// The canonical form with the absorbed type on the right: the `i64` is
    /// widened into a [`Z`] and the canonical form does the work.
    fn sub(self, rhs: &i64) -> (r: Z)
        ensures
            r@ == self@ - (*rhs as int),
    {
        let other = Z::from_i64(*rhs);
        self.sub(&other)
    }
}

impl vstd::std_specs::ops::SubSpecImpl<&i64> for &Z {
    open spec fn obeys_sub_spec() -> bool {
        false
    }

    open spec fn sub_req(self, rhs: &i64) -> bool {
        true
    }

    open spec fn sub_spec(self, rhs: &i64) -> Z {
        vstd::pervasive::arbitrary()
    }
}

impl core::ops::Sub<i64> for Z {
    type Output = Z;

    /// A forwarder to the canonical borrowed-operand form.
    fn sub(self, rhs: i64) -> (r: Z)
        ensures
            r@ == self@ - (rhs as int),
    {
        (&self).sub(&rhs)
    }
}

impl vstd::std_specs::ops::SubSpecImpl<i64> for Z {
    open spec fn obeys_sub_spec() -> bool {
        false
    }

    open spec fn sub_req(self, rhs: i64) -> bool {
        true
    }

    open spec fn sub_spec(self, rhs: i64) -> Z {
        vstd::pervasive::arbitrary()
    }
}

impl core::ops::Sub<&i64> for Z {
    type Output = Z;

    /// A forwarder to the canonical borrowed-operand form.
    fn sub(self, rhs: &i64) -> (r: Z)
        ensures
            r@ == self@ - (*rhs as int),
    {
        (&self).sub(rhs)
    }
}

impl vstd::std_specs::ops::SubSpecImpl<&i64> for Z {
    open spec fn obeys_sub_spec() -> bool {
        false
    }

    open spec fn sub_req(self, rhs: &i64) -> bool {
        true
    }

    open spec fn sub_spec(self, rhs: &i64) -> Z {
        vstd::pervasive::arbitrary()
    }
}

impl core::ops::Sub<i64> for &Z {
    type Output = Z;

    /// A forwarder to the canonical borrowed-operand form.
    fn sub(self, rhs: i64) -> (r: Z)
        ensures
            r@ == self@ - (rhs as int),
    {
        self.sub(&rhs)
    }
}

impl vstd::std_specs::ops::SubSpecImpl<i64> for &Z {
    open spec fn obeys_sub_spec() -> bool {
        false
    }

    open spec fn sub_req(self, rhs: i64) -> bool {
        true
    }

    open spec fn sub_spec(self, rhs: i64) -> Z {
        vstd::pervasive::arbitrary()
    }
}

impl core::ops::Sub<&Z> for &i64 {
    type Output = Z;

    /// The canonical form with the absorbed type on the left: the `i64` is
    /// widened into a [`Z`] and the canonical form does the work.
    fn sub(self, rhs: &Z) -> (r: Z)
        ensures
            r@ == (*self as int) - rhs@,
    {
        let lhs = Z::from_i64(*self);
        (&lhs).sub(rhs)
    }
}

impl vstd::std_specs::ops::SubSpecImpl<&Z> for &i64 {
    open spec fn obeys_sub_spec() -> bool {
        false
    }

    open spec fn sub_req(self, rhs: &Z) -> bool {
        true
    }

    open spec fn sub_spec(self, rhs: &Z) -> Z {
        vstd::pervasive::arbitrary()
    }
}

impl core::ops::Sub<Z> for i64 {
    type Output = Z;

    /// A forwarder to the canonical borrowed-operand form.
    fn sub(self, rhs: Z) -> (r: Z)
        ensures
            r@ == (self as int) - rhs@,
    {
        (&self).sub(&rhs)
    }
}

impl vstd::std_specs::ops::SubSpecImpl<Z> for i64 {
    open spec fn obeys_sub_spec() -> bool {
        false
    }

    open spec fn sub_req(self, rhs: Z) -> bool {
        true
    }

    open spec fn sub_spec(self, rhs: Z) -> Z {
        vstd::pervasive::arbitrary()
    }
}

impl core::ops::Sub<&Z> for i64 {
    type Output = Z;

    /// A forwarder to the canonical borrowed-operand form.
    fn sub(self, rhs: &Z) -> (r: Z)
        ensures
            r@ == (self as int) - rhs@,
    {
        (&self).sub(rhs)
    }
}

impl vstd::std_specs::ops::SubSpecImpl<&Z> for i64 {
    open spec fn obeys_sub_spec() -> bool {
        false
    }

    open spec fn sub_req(self, rhs: &Z) -> bool {
        true
    }

    open spec fn sub_spec(self, rhs: &Z) -> Z {
        vstd::pervasive::arbitrary()
    }
}

impl core::ops::Sub<Z> for &i64 {
    type Output = Z;

    /// A forwarder to the canonical borrowed-operand form.
    fn sub(self, rhs: Z) -> (r: Z)
        ensures
            r@ == (*self as int) - rhs@,
    {
        self.sub(&rhs)
    }
}

impl vstd::std_specs::ops::SubSpecImpl<Z> for &i64 {
    open spec fn obeys_sub_spec() -> bool {
        false
    }

    open spec fn sub_req(self, rhs: Z) -> bool {
        true
    }

    open spec fn sub_spec(self, rhs: Z) -> Z {
        vstd::pervasive::arbitrary()
    }
}

impl core::ops::Mul<&Z> for &Z {
    type Output = Z;

    /// The canonical borrowed-operand form; every other ownership form of
    /// this operator delegates here.
    fn mul(self, rhs: &Z) -> (r: Z)
        ensures
            r@ == self@ * rhs@,
    {
        Z { value: big_mul(&self.value, &rhs.value) }
    }
}

impl vstd::std_specs::ops::MulSpecImpl<&Z> for &Z {
    open spec fn obeys_mul_spec() -> bool {
        false
    }

    open spec fn mul_req(self, rhs: &Z) -> bool {
        true
    }

    open spec fn mul_spec(self, rhs: &Z) -> Z {
        vstd::pervasive::arbitrary()
    }
}

impl core::ops::Mul<Z> for Z {
    type Output = Z;

    /// A forwarder to the canonical borrowed-operand form.
    fn mul(self, rhs: Z) -> (r: Z)
        ensures
            r@ == self@ * rhs@,
    {
        (&self).mul(&rhs)
    }
}

impl vstd::std_specs::ops::MulSpecImpl<Z> for Z {
    open spec fn obeys_mul_spec() -> bool {
        false
    }

    open spec fn mul_req(self, rhs: Z) -> bool {
        true
    }

    open spec fn mul_spec(self, rhs: Z) -> Z {
        vstd::pervasive::arbitrary()
    }
}

impl core::ops::Mul<&Z> for Z {
    type Output = Z;

    /// A forwarder to the canonical borrowed-operand form.
    fn mul(self, rhs: &Z) -> (r: Z)
        ensures
            r@ == self@ * rhs@,
    {
        (&self).mul(rhs)
    }
}

impl vstd::std_specs::ops::MulSpecImpl<&Z> for Z {
    open spec fn obeys_mul_spec() -> bool {
        false
    }

    open spec fn mul_req(self, rhs: &Z) -> bool {
        true
    }

    open spec fn mul_spec(self, rhs: &Z) -> Z {
        vstd::pervasive::arbitrary()
    }
}

impl core::ops::Mul<Z> for &Z {
    type Output = Z;

    /// A forwarder to the canonical borrowed-operand form.
    fn mul(self, rhs: Z) -> (r: Z)
        ensures
            r@ == self@ * rhs@,
    {
        self.mul(&rhs)
    }
}

impl vstd::std_specs::ops::MulSpecImpl<Z> for &Z {
    open spec fn obeys_mul_spec() -> bool {
        false
    }

    open spec fn mul_req(self, rhs: Z) -> bool {
        true
    }

    open spec fn mul_spec(self, rhs: Z) -> Z {
        vstd::pervasive::arbitrary()
    }
}

impl core::ops::Mul<&i64> for &Z {
    type Output = Z;

    /// The canonical form with the absorbed type on the right: the `i64` is
    /// widened into a [`Z`] and the canonical form does the work.
    fn mul(self, rhs: &i64) -> (r: Z)
        ensures
            r@ == self@ * (*rhs as int),
    {
        let other = Z::from_i64(*rhs);
        self.mul(&other)
    }
}

impl vstd::std_specs::ops::MulSpecImpl<&i64> for &Z {
    open spec fn obeys_mul_spec() -> bool {
        false
    }

    open spec fn mul_req(self, rhs: &i64) -> bool {
        true
    }

    open spec fn mul_spec(self, rhs: &i64) -> Z {
        vstd::pervasive::arbitrary()
    }
}

impl core::ops::Mul<i64> for Z {
    type Output = Z;

    /// A forwarder to the canonical borrowed-operand form.
    fn mul(self, rhs: i64) -> (r: Z)
        ensures
            r@ == self@ * (rhs as int),
    {
        (&self).mul(&rhs)
    }
}

impl vstd::std_specs::ops::MulSpecImpl<i64> for Z {
    open spec fn obeys_mul_spec() -> bool {
        false
    }

    open spec fn mul_req(self, rhs: i64) -> bool {
        true
    }

    open spec fn mul_spec(self, rhs: i64) -> Z {
        vstd::pervasive::arbitrary()
    }
}

impl core::ops::Mul<&i64> for Z {
    type Output = Z;

    /// A forwarder to the canonical borrowed-operand form.
    fn mul(self, rhs: &i64) -> (r: Z)
        ensures
            r@ == self@ * (*rhs as int),
    {
        (&self).mul(rhs)
    }
}

impl vstd::std_specs::ops::MulSpecImpl<&i64> for Z {
    open spec fn obeys_mul_spec() -> bool {
        false
    }

    open spec fn mul_req(self, rhs: &i64) -> bool {
        true
    }

    open spec fn mul_spec(self, rhs: &i64) -> Z {
        vstd::pervasive::arbitrary()
    }
}

impl core::ops::Mul<i64> for &Z {
    type Output = Z;

    /// A forwarder to the canonical borrowed-operand form.
    fn mul(self, rhs: i64) -> (r: Z)
        ensures
            r@ == self@ * (rhs as int),
    {
        self.mul(&rhs)
    }
}

impl vstd::std_specs::ops::MulSpecImpl<i64> for &Z {
    open spec fn obeys_mul_spec() -> bool {
        false
    }

    open spec fn mul_req(self, rhs: i64) -> bool {
        true
    }

    open spec fn mul_spec(self, rhs: i64) -> Z {
        vstd::pervasive::arbitrary()
    }
}

impl core::ops::Mul<&Z> for &i64 {
    type Output = Z;

    /// The canonical form with the absorbed type on the left: the `i64` is
    /// widened into a [`Z`] and the canonical form does the work.
    fn mul(self, rhs: &Z) -> (r: Z)
        ensures
            r@ == (*self as int) * rhs@,
    {
        let lhs = Z::from_i64(*self);
        (&lhs).mul(rhs)
    }
}

impl vstd::std_specs::ops::MulSpecImpl<&Z> for &i64 {
    open spec fn obeys_mul_spec() -> bool {
        false
    }

    open spec fn mul_req(self, rhs: &Z) -> bool {
        true
    }

    open spec fn mul_spec(self, rhs: &Z) -> Z {
        vstd::pervasive::arbitrary()
    }
}

impl core::ops::Mul<Z> for i64 {
    type Output = Z;

    /// A forwarder to the canonical borrowed-operand form.
    fn mul(self, rhs: Z) -> (r: Z)
        ensures
            r@ == (self as int) * rhs@,
    {
        (&self).mul(&rhs)
    }
}

impl vstd::std_specs::ops::MulSpecImpl<Z> for i64 {
    open spec fn obeys_mul_spec() -> bool {
        false
    }

    open spec fn mul_req(self, rhs: Z) -> bool {
        true
    }

    open spec fn mul_spec(self, rhs: Z) -> Z {
        vstd::pervasive::arbitrary()
    }
}

impl core::ops::Mul<&Z> for i64 {
    type Output = Z;

    /// A forwarder to the canonical borrowed-operand form.
    fn mul(self, rhs: &Z) -> (r: Z)
        ensures
            r@ == (self as int) * rhs@,
    {
        (&self).mul(rhs)
    }
}

impl vstd::std_specs::ops::MulSpecImpl<&Z> for i64 {
    open spec fn obeys_mul_spec() -> bool {
        false
    }

    open spec fn mul_req(self, rhs: &Z) -> bool {
        true
    }

    open spec fn mul_spec(self, rhs: &Z) -> Z {
        vstd::pervasive::arbitrary()
    }
}

impl core::ops::Mul<Z> for &i64 {
    type Output = Z;

    /// A forwarder to the canonical borrowed-operand form.
    fn mul(self, rhs: Z) -> (r: Z)
        ensures
            r@ == (*self as int) * rhs@,
    {
        self.mul(&rhs)
    }
}

impl vstd::std_specs::ops::MulSpecImpl<Z> for &i64 {
    open spec fn obeys_mul_spec() -> bool {
        false
    }

    open spec fn mul_req(self, rhs: Z) -> bool {
        true
    }

    open spec fn mul_spec(self, rhs: Z) -> Z {
        vstd::pervasive::arbitrary()
    }
}

impl crate::traits::Distance<&Z> for Z {
    type Output = Z;

    /// Returns the absolute difference of the two values.
    fn distance(&self, other: &Z) -> (r: Z)
        ensures
            r@ == abs(self@ - other@),
    {
        let d = big_sub(&self.value, &other.value);
        let zero = big_from_i64(0);
        if big_lt(&d, &zero) {
            Z { value: big_neg(&d) }
        } else {
            Z { value: d }
        }
    }
}

impl crate::traits::Distance<Z> for Z {
    type Output = Z;

    /// A forwarder to the borrowed-operand form of `distance`.
    fn distance(&self, other: Z) -> (r: Z)
        ensures
            r@ == abs(self@ - other@),
    {
        crate::traits::Distance::<&Z>::distance(self, &other)
    }
}

impl crate::traits::Gcd<&Z> for Z {
    type Output = Z;

    /// Returns the greatest common divisor, non-negative, with
    /// `gcd(a, 0) == |a|`.
    fn gcd(&self, other: &Z) -> (r: Z)
        ensures
            r@ == gcd_int(self@, other@),
    {
        Z { value: big_gcd(&self.value, &other.value) }
    }
}

impl crate::traits::Gcd<Z> for Z {
    type Output = Z;

    /// A forwarder to the borrowed-operand form of `gcd`.
    fn gcd(&self, other: Z) -> (r: Z)
        ensures
            r@ == gcd_int(self@, other@),
    {
        crate::traits::Gcd::<&Z>::gcd(self, &other)
    }
}

impl crate::traits::Lcm<&Z> for Z {
    type Output = Z;

    /// Returns the least common multiple, non-negative, with
    /// `lcm(a, 0) == 0`.
    fn lcm(&self, other: &Z) -> (r: Z)
        ensures
            r@ == lcm_int(self@, other@),
    {
        let g = big_gcd(&self.value, &other.value);
        if big_is_zero(&g) {
            proof {
                if self@ != 0 || other@ != 0 {
                    lemma_gcd_pos(abs(self@), abs(other@));
                }
            }
            return Z::zero();
        }
        let p = big_mul(&self.value, &other.value);
        let zero = big_from_i64(0);
        let ap = if big_lt(&p, &zero) {
            big_neg(&p)
        } else {
            p
        };
        proof {
            if self@ == 0 || other@ == 0 {
                lemma_gcd_pos(abs(self@), abs(other@));
            }
        }
        proof {
            assert(big_view(ap) == abs(self@ * other@) as int);
        }
        let qr = big_div_mod_floor(&ap, &g);
        proof {
            vstd::arithmetic::div_mod::lemma_fundamental_div_mod_converse_div(
                big_view(ap),
                big_view(g),
                big_view(qr.0),
                big_view(qr.1),
            );
            assert(big_view(qr.0) == (abs(self@ * other@) as int) / gcd_int(self@, other@));
            if self@ == 0 || other@ == 0 {
                assert(self@ * other@ == 0) by (nonlinear_arith)
                    requires
                        self@ == 0 || other@ == 0,
                ;
                assert(big_view(ap) == 0);
                vstd::arithmetic::div_mod::lemma_fundamental_div_mod_converse_div(
                    0,
                    big_view(g),
                    0,
                    0,
                );
                assert(big_view(qr.0) == 0);
            }
        }
        Z { value: qr.0 }
    }
}

impl crate::traits::Lcm<Z> for Z {
    type Output = Z;

    /// A forwarder to the borrowed-operand form of `lcm`.
    fn lcm(&self, other: Z) -> (r: Z)
        ensures
            r@ == lcm_int(self@, other@),
    {
        crate::traits::Lcm::<&Z>::lcm(self, &other)
    }
}

impl crate::traits::Xgcd<&Z> for Z {
    type Output = (Z, Z, Z);

    /// Returns `(g, x, y)` with `g == gcd(self, other)` and
    /// `g == self * x + other * y`; the gcd and the Bezout identity are
    /// both proved of the result.
    fn xgcd(&self, other: &Z) -> (r: (Z, Z, Z))
        ensures
            r.0@ == gcd_int(self@, other@),
            r.0@ == self@ * r.1@ + other@ * r.2@,
    {
        let zero = big_from_i64(0);
        let a_neg = big_lt(&self.value, &zero);
        let b_neg = big_lt(&other.value, &zero);
        let mut r0 = if a_neg {
            big_neg(&self.value)
        } else {
            big_clone(&self.value)
        };
        let mut r1 = if b_neg {
            big_neg(&other.value)
        } else {
            big_clone(&other.value)
        };
        let ghost a0: int = abs(self@) as int;
        let ghost b0: int = abs(other@) as int;
        let mut s0 = big_from_i64(1);
        let mut t0 = big_from_i64(0);
        let mut s1 = big_from_i64(0);
        let mut t1 = big_from_i64(1);
        while !big_is_zero(&r1)
            invariant
                a0 == abs(self@),
                b0 == abs(other@),
                big_view(r0) >= 0,
                big_view(r1) >= 0,
                gcd_nat(big_view(r0) as nat, big_view(r1) as nat) == gcd_nat(
                    a0 as nat,
                    b0 as nat,
                ),
                big_view(r0) == a0 * big_view(s0) + b0 * big_view(t0),
                big_view(r1) == a0 * big_view(s1) + b0 * big_view(t1),
            decreases big_view(r1),
        {
            let qr = big_div_mod_floor(&r0, &r1);
            let s2 = big_sub(&s0, &big_mul(&qr.0, &s1));
            let t2 = big_sub(&t0, &big_mul(&qr.0, &t1));
            proof {
                let r0v = big_view(r0);
                let r1v = big_view(r1);
                let qv = big_view(qr.0);
                let remv = big_view(qr.1);
                vstd::arithmetic::div_mod::lemma_fundamental_div_mod_converse_mod(
                    r0v,
                    r1v,
                    qv,
                    remv,
                );
                assert((r0v as nat) % (r1v as nat) == remv as nat);
                assert(gcd_nat(r1v as nat, remv as nat) == gcd_nat(r0v as nat, r1v as nat));
                let s0v = big_view(s0);
                let t0v = big_view(t0);
                let s1v = big_view(s1);
                let t1v = big_view(t1);
                assert(remv == a0 * (s0v - qv * s1v) + b0 * (t0v - qv * t1v))
                    by (nonlinear_arith)
                    requires
                        r0v == a0 * s0v + b0 * t0v,
                        r1v == a0 * s1v + b0 * t1v,
                        remv == r0v - qv * r1v,
                ;
            }
            r0 = r1;
            s0 = s1;
            t0 = t1;
            r1 = qr.1;
            s1 = s2;
            t1 = t2;
        }
        let x = if a_neg {
            big_neg(&s0)
        } else {
            s0
        };
        let y = if b_neg {
            big_neg(&t0)
        } else {
            t0
        };
        proof {
            assert(a0 * big_view(s0) + b0 * big_view(t0) == self@ * big_view(x) + other@ * big_view(
                y,
            )) by (nonlinear_arith)
                requires
                    a0 == abs(self@),
                    b0 == abs(other@),
                    big_view(x) == if abs(self@) as int != self@ {
                        -big_view(s0)
                    } else {
                        big_view(s0)
                    },
                    big_view(y) == if abs(other@) as int != other@ {
                        -big_view(t0)
                    } else {
                        big_view(t0)
                    },
            ;
        }
        (Z { value: r0 }, Z { value: x }, Z { value: y })
    }
}

impl crate::traits::Xgcd<Z> for Z {
    type Output = (Z, Z, Z);

    /// A forwarder to the borrowed-operand form of `xgcd`.
    fn xgcd(&self, other: Z) -> (r: (Z, Z, Z))
        ensures
            r.0@ == gcd_int(self@, other@),
            r.0@ == self@ * r.1@ + other@ * r.2@,
    {
        crate::traits::Xgcd::<&Z>::xgcd(self, &other)
    }
}

impl Z {
    /// Narrows the value to an `i64`. The narrowing primitive of the engine
    /// may saturate, so the narrowed result is re-widened and compared
    /// against the original value rather than trusted; on mismatch the
    /// conversion fails.
    ///
    /// Succeeds exactly on values that fit an `i64`, returning the value;
    /// every other value yields [`MathError::ConversionError`].
    pub fn try_into_i64(&self) -> (r: Result<i64, MathError>)
        ensures
            r is Ok <==> i64::MIN <= self@ <= i64::MAX,
            r is Ok ==> r->Ok_0 as int == self@,
            r is Err ==> r == Err::<i64, MathError>(MathError::ConversionError),
    {
        let narrowed = big_to_i64_lossy(&self.value);
        let widened = Z::from_i64(narrowed);
        if big_eq(&widened.value, &self.value) {
            Ok(narrowed)
        } else {
            Err(MathError::ConversionError)
        }
    }
}

impl Z {
    /// Create a new integer holding the value of the given modulus context.
    pub fn from_modulus(value: Modulus) -> (r: Z)
        ensures
            r@ == value@,
    {
        Z { value: big_clone(value.as_big()) }
    }

    /// Create a new integer holding the representative of the given residue.
    pub fn from_zq(value: Zq) -> (r: Z)
        ensures
            r@ == value@.0,
    {
        value.into_z()
    }
}

impl From<i64> for Z {
    /// A forwarder to [`Z::from_i64`], which carries the conversion contract.
    fn from(value: i64) -> (r: Z) {
        Z::from_i64(value)
    }
}

impl vstd::std_specs::convert::FromSpecImpl<i64> for Z {
    open spec fn obeys_from_spec() -> bool {
        false
    }

    open spec fn from_spec(value: i64) -> Z {
        vstd::pervasive::arbitrary()
    }
}

impl From<i32> for Z {
    /// A forwarder to [`Z::from_i32`], which carries the conversion contract.
    fn from(value: i32) -> (r: Z) {
        Z::from_i32(value)
    }
}

impl vstd::std_specs::convert::FromSpecImpl<i32> for Z {
    open spec fn obeys_from_spec() -> bool {
        false
    }

    open spec fn from_spec(value: i32) -> Z {
        vstd::pervasive::arbitrary()
    }
}

impl From<i16> for Z {
    /// A forwarder to [`Z::from_i16`], which carries the conversion contract.
    fn from(value: i16) -> (r: Z) {
        Z::from_i16(value)
    }
}

impl vstd::std_specs::convert::FromSpecImpl<i16> for Z {
    open spec fn obeys_from_spec() -> bool {
        false
    }

    open spec fn from_spec(value: i16) -> Z {
        vstd::pervasive::arbitrary()
    }
}

impl From<i8> for Z {
    /// A forwarder to [`Z::from_i8`], which carries the conversion contract.
    fn from(value: i8) -> (r: Z) {
        Z::from_i8(value)
    }
}

impl vstd::std_specs::convert::FromSpecImpl<i8> for Z {
    open spec fn obeys_from_spec() -> bool {
        false
    }

    open spec fn from_spec(value: i8) -> Z {
        vstd::pervasive::arbitrary()
    }
}

impl From<u64> for Z {
    /// A forwarder to [`Z::from_u64`], which carries the conversion contract.
    fn from(value: u64) -> (r: Z) {
        Z::from_u64(value)
    }
}

impl vstd::std_specs::convert::FromSpecImpl<u64> for Z {
    open spec fn obeys_from_spec() -> bool {
        false
    }

    open spec fn from_spec(value: u64) -> Z {
        vstd::pervasive::arbitrary()
    }
}

impl From<u32> for Z {
    /// A forwarder to [`Z::from_u32`], which carries the conversion contract.
    fn from(value: u32) -> (r: Z) {
        Z::from_u32(value)
    }
}

impl vstd::std_specs::convert::FromSpecImpl<u32> for Z {
    open spec fn obeys_from_spec() -> bool {
        false
    }

    open spec fn from_spec(value: u32) -> Z {
        vstd::pervasive::arbitrary()
    }
}

impl From<u16> for Z {
    /// A forwarder to [`Z::from_u16`], which carries the conversion contract.
    fn from(value: u16) -> (r: Z) {
        Z::from_u16(value)
    }
}

impl vstd::std_specs::convert::FromSpecImpl<u16> for Z {
    open spec fn obeys_from_spec() -> bool {
        false
    }

    open spec fn from_spec(value: u16) -> Z {
        vstd::pervasive::arbitrary()
    }
}

impl From<u8> for Z {
    /// A forwarder to [`Z::from_u8`], which carries the conversion contract.
    fn from(value: u8) -> (r: Z) {
        Z::from_u8(value)
    }
}

impl vstd::std_specs::convert::FromSpecImpl<u8> for Z {
    open spec fn obeys_from_spec() -> bool {
        false
    }

    open spec fn from_spec(value: u8) -> Z {
        vstd::pervasive::arbitrary()
    }
}

impl From<Modulus> for Z {
    /// A forwarder to [`Z::from_modulus`], which carries the conversion contract.
    fn from(value: Modulus) -> (r: Z) {
        Z::from_modulus(value)
    }
}

impl vstd::std_specs::convert::FromSpecImpl<Modulus> for Z {
    open spec fn obeys_from_spec() -> bool {
        false
    }

    open spec fn from_spec(value: Modulus) -> Z {
        vstd::pervasive::arbitrary()
    }
}

impl From<Zq> for Z {
    /// A forwarder to [`Z::from_zq`], which carries the conversion contract.
    fn from(value: Zq) -> (r: Z) {
        Z::from_zq(value)
    }
}

impl vstd::std_specs::convert::FromSpecImpl<Zq> for Z {
    open spec fn obeys_from_spec() -> bool {
        false
    }

    open spec fn from_spec(value: Zq) -> Z {
        vstd::pervasive::arbitrary()
    }
}

/// Round trip: for every value and every base between 2 and 62, the
/// canonical numeral that [`Z::to_string_b`] renders is well formed and
/// [`Z::from_str_b`] reads it back as the same value.
pub proof fn lemma_z_text_round_trip(v: int, base: int)
    requires
        2 <= base <= 62,
    ensures
        valid_int_text(int_text(v, base as nat), base),
        int_text_value(int_text(v, base as nat), base) == v,
{
    crate::text::lemma_int_text_round_trip(v, base as nat);
}

/// Canonical-form idempotence: re-parsing a value's own canonical decimal
/// numeral yields a value whose re-rendering is the identical text.
pub proof fn lemma_z_canonical_idempotent(v: int)
    ensures
        valid_int_text(int_text(v, 10), 10),
        int_text(int_text_value(int_text(v, 10), 10), 10) == int_text(v, 10),
{
    crate::text::lemma_int_text_round_trip(v, 10);
}

} // verus!
