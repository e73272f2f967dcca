//! Residues modulo a shared modulus, and matrices over them, together with
//! the shared modulus contexts themselves.
pub mod mat_zq;
pub mod modulus;
pub mod modulus_polynomial_ring_zq;
pub mod zq;
