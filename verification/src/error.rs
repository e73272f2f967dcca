use vstd::prelude::*;

verus! {

/// The typed failures of this library.
///
/// Every fallible operation reports exactly one of these kinds; none of the
/// library's verified functions panics on any input its contract admits.
#[derive(Clone, Copy, Debug, PartialEq, Eq, Structural)]
pub enum MathError {
    /// Text does not match the grammar of the type being parsed.
    MalformedInput,
    /// Polynomial text lacks the double-space separator after the count.
    MissingSeparator,
    /// An argument lies outside its declared bounds, e.g. a base outside
    /// `[2, 62]` or a negative index.
    RangeError,
    /// A modulus is zero or negative, or a ring modulus is degenerate.
    InvalidModulus,
    /// Two modular operands reference moduli of unequal value.
    ModulusMismatch,
    /// Matrix shapes do not match along the required axis.
    DimensionError,
    /// A value does not fit the requested narrower type.
    ConversionError,
}

} // verus!
