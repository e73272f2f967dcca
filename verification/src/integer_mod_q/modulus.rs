//! [`Modulus`] is an immutable, shared, reference-counted positive integer
//! modulus; any number of modular values may reference the same context, and
//! its storage is released when the last referent is dropped.
use crate::engine::big_eq;
use crate::engine::big_from_u64;
use crate::engine::big_is_zero;
use crate::engine::big_lt;
use crate::engine::big_view;
use crate::engine::rc_clone_big;
use crate::error::MathError;
use crate::text::int_text_value;
use crate::text::parse_int_str;
use crate::text::valid_int_text;
use vstd::prelude::*;

verus! {

/// A shared immutable modulus context. Two contexts compare equal by
/// modulus value, not identity.
#[derive(Debug)]
pub struct Modulus {
    pub(crate) m: std::rc::Rc<num_bigint::BigInt>,
}

impl View for Modulus {
    type V = int;

    closed spec fn view(&self) -> int {
        big_view(*self.m)
    }
}

/// The invariant of a modulus context: the modulus is positive.
pub open spec fn modulus_wf(m: int) -> bool {
    m > 0
}

impl Clone for Modulus {
    /// Shares the same context; only a reference count changes.
    fn clone(&self) -> (r: Modulus)
        ensures
            r@ == self@,
    {
        Modulus { m: rc_clone_big(&self.m) }
    }
}

impl PartialEq for Modulus {
    /// Contexts are equal exactly when their modulus values are.
    fn eq(&self, other: &Modulus) -> (r: bool) {
        big_eq(&self.m, &other.m)
    }
}

impl vstd::std_specs::cmp::PartialEqSpecImpl for Modulus {
    open spec fn obeys_eq_spec() -> bool {
        true
    }

    open spec fn eq_spec(&self, other: &Modulus) -> bool {
        self@ == other@
    }
}

impl Modulus {
    /// Wraps engine storage as a shared modulus context.
    pub(crate) fn from_big(value: num_bigint::BigInt) -> (r: Modulus)
        requires
            big_view(value) > 0,
        ensures
            r@ == big_view(value),
            modulus_wf(r@),
    {
        Modulus { m: std::rc::Rc::new(value) }
    }

    /// The modulus value behind this context.
    pub(crate) fn as_big(&self) -> (r: &num_bigint::BigInt)
        ensures
            big_view(*r) == self@,
    {
        &self.m
    }

    /// Creates a modulus context from a positive value.
    ///
    /// Returns [`MathError::InvalidModulus`] exactly when the value is zero.
    pub fn from_u64(value: u64) -> (r: Result<Modulus, MathError>)
        ensures
            value == 0 ==> r == Err::<Modulus, MathError>(MathError::InvalidModulus),
            value > 0 ==> r is Ok && r->Ok_0@ == value as int && modulus_wf(r->Ok_0@),
    {
        if value == 0 {
            return Err(MathError::InvalidModulus);
        }
        Ok(Modulus::from_big(big_from_u64(value)))
    }

    /// Creates a modulus context from a decimal numeral.
    ///
    /// Returns [`MathError::MalformedInput`] exactly when the text is not a
    /// decimal numeral, and [`MathError::InvalidModulus`] exactly when it
    /// denotes a value that is not positive.
    pub fn from_str(s: &str) -> (r: Result<Modulus, MathError>)
        ensures
            !valid_int_text(s@, 10) ==> r == Err::<Modulus, MathError>(MathError::MalformedInput),
            valid_int_text(s@, 10) && int_text_value(s@, 10) <= 0 ==> r == Err::<
                Modulus,
                MathError,
            >(MathError::InvalidModulus),
            valid_int_text(s@, 10) && int_text_value(s@, 10) > 0 ==> r is Ok && r->Ok_0@
                == int_text_value(s@, 10) && modulus_wf(r->Ok_0@),
    {
        let value = match parse_int_str(s, 10) {
            Some(v) => v,
            None => {
                return Err(MathError::MalformedInput);
            },
        };
        let zero = big_from_u64(0);
        if big_is_zero(&value) || big_lt(&value, &zero) {
            return Err(MathError::InvalidModulus);
        }
        Ok(Modulus::from_big(value))
    }
}

} // verus!
