//! Polynomial commitment schemes.
pub mod binding;
pub mod hash_mle_backend;
pub mod layers;
pub mod merkle_mle_pc;
pub mod merkle_mle_pc_p3;
pub mod merkle_tree;
pub mod sampling;
