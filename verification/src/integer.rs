//! Arbitrary-precision integers and polynomials over them.
pub mod poly_over_z;
pub mod z;
