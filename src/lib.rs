//! The generic round-by-round claim-reduction engine of a sumcheck-style
//! interactive proof over fields of characteristic two: round messages and
//! claims, the verifier's reductor and loop, an honest prover for products of
//! multilinear polynomials, and the laws that tie them together.
pub mod field;
pub mod polynomial;
pub mod multilinear;
pub mod evalcheck;
pub mod abstract_sumcheck;
pub mod sumcheck;
pub mod prover;
pub mod packed;
pub mod tower_simd;
