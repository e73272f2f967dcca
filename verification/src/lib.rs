//! Arbitrary-precision algebraic values with verified value semantics.
//!
//! The crate wraps a big-integer engine behind a narrow trusted boundary
//! ([`engine`]) and builds on it integers ([`integer::z::Z`]), rationals
//! ([`rational::q::Q`]), residues modulo a shared modulus
//! ([`integer_mod_q::zq::Zq`]), polynomials and matrices over them, together
//! with their canonical text codecs and a uniform arithmetic operator
//! surface. Canonical-form invariants — reduced fractions, trimmed
//! polynomials, residues in `[0, modulus)` — are established by every
//! constructor and kept by every mutation.
pub mod arith;
pub mod engine;
pub mod error;
pub mod integer;
pub mod integer_mod_q;
pub mod rational;
pub mod serialize;
pub mod text;
pub mod traits;
