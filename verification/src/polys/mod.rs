//! Polynomials: multilinear extensions, the equality polynomial and univariate polynomials.
pub mod arith;
pub mod eq;
pub mod multilinear;
pub mod sums;
pub mod univariate;
