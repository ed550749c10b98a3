//! A Spartan proof system for rank-1 constraint systems with hash-based polynomial commitments.
//!
//! Witnesses are committed to by Merkle trees over the values of their multilinear extensions, with
//! Keccak-256 or Poseidon2 as hash. Two sum-checks reduce a constraint system to the value of the
//! witness at a point, and an evaluation argument shows that value.
#![allow(non_snake_case)]

pub mod completeness;
pub mod digest;
pub mod errors;
pub mod modular;
pub mod parallel;
pub mod polys;
pub mod primes;
pub mod provider;
pub mod proving;
pub mod r1cs;
pub mod soundness;
pub mod spartan;
pub mod sumcheck;
pub mod traits;
