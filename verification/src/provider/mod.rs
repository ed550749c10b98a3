//! Scalar fields, transcripts and commitment schemes, and the engines that put them together.
use crate::traits::{Engine, SnarkEngine};
use goldi::F;
use pasta::pallas::PallasScalar;
use pasta::vesta::VestaScalar;
use pcs::merkle_mle_pc::HashMlePCS;
use pcs::merkle_mle_pc_p3::HashMlePcsP3;
use vstd::prelude::*;

pub mod goldi;
pub mod keccak;
pub mod pasta;
pub mod pcs;

verus! {

/// An implementation of the Spartan Engine trait with Pallas curve and Hash-MLE PCS (Keccak Merkle)
#[derive(Clone, Copy, Debug, PartialEq, Eq)]
pub struct PallasMerkleMleEngine;

impl Engine for PallasMerkleMleEngine {
    type Scalar = PallasScalar;
}

impl SnarkEngine for PallasMerkleMleEngine {
    type PCS = HashMlePCS<Self>;

    open spec fn hash_mle() -> bool {
        true
    }

    fn is_hash_mle() -> (r: bool) {
        true
    }
}

/// An implementation of the Spartan Engine trait with Vesta curve and Hash-MLE PCS
#[derive(Clone, Copy, Debug, PartialEq, Eq)]
pub struct VestaMerkleMleEngine;

impl Engine for VestaMerkleMleEngine {
    type Scalar = VestaScalar;
}

impl SnarkEngine for VestaMerkleMleEngine {
    type PCS = HashMlePCS<Self>;

    open spec fn hash_mle() -> bool {
        true
    }

    fn is_hash_mle() -> (r: bool) {
        true
    }
}

/// An implementation of the Spartan Engine trait with Goldilocks field and Hash-MLE PCS (Keccak)
#[derive(Clone, Copy, Debug, PartialEq, Eq)]
pub struct GoldilocksMerkleMleEngine;

impl Engine for GoldilocksMerkleMleEngine {
    type Scalar = F;
}

impl SnarkEngine for GoldilocksMerkleMleEngine {
    type PCS = HashMlePCS<Self>;

    open spec fn hash_mle() -> bool {
        true
    }

    fn is_hash_mle() -> (r: bool) {
        true
    }
}

/// An implementation of the Spartan Engine trait with Goldilocks field and Poseidon2 Hash-MLE PCS
#[derive(Clone, Copy, Debug, PartialEq, Eq)]
pub struct GoldilocksP3MerkleMleEngine;

impl Engine for GoldilocksP3MerkleMleEngine {
    type Scalar = F;
}

impl SnarkEngine for GoldilocksP3MerkleMleEngine {
    type PCS = HashMlePcsP3<Self>;

    open spec fn hash_mle() -> bool {
        true
    }

    fn is_hash_mle() -> (r: bool) {
        true
    }
}

} // verus!
