//! Rank-1 constraint systems.
pub mod instance;
pub mod shape;
pub mod sparse;
