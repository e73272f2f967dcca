//! Arbitrary-precision rationals, and polynomials and matrices over them.
pub mod mat_q;
pub mod poly_over_q;
pub mod q;
