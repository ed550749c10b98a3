//! Merkle trees and authentication paths.
use spartan2::provider::pcs::hash_mle_backend::{BackendFfKeccak, BackendP3Poseidon2Goldi};
use spartan2::provider::pcs::merkle_mle_pc::{node_digest, Digest32, MerkleTree};
use spartan2::provider::pcs::merkle_tree::{height_of, is_power_of_two};
use spartan2::provider::GoldilocksP3MerkleMleEngine as E;

type K = BackendFfKeccak<E>;
type P = BackendP3Poseidon2Goldi<E>;

fn leaves(n: u8) -> Vec<Digest32> {
    (0..n).map(|i| Digest32([i; 32])).collect()
}

#[test]
fn the_root_hashes_pairs_upwards() {
    let l = leaves(4);
    let tree = MerkleTree::from_leaves::<E, K>(l.clone());
    let left = node_digest::<E, K>(&l[0], &l[1]);
    let right = node_digest::<E, K>(&l[2], &l[3]);
    assert_eq!(tree.root(), node_digest::<E, K>(&left, &right));
    let path = tree.open(2);
    assert_eq!(path.leaf_index, 2);
    assert_eq!(path.siblings, vec![l[3].0, left.0]);
}

#[test]
fn every_opening_verifies() {
    for n in [1u8, 2, 8, 32] {
        let l = leaves(n);
        let k = MerkleTree::from_leaves::<E, K>(l.clone());
        let p = MerkleTree::from_leaves::<E, P>(l.clone());
        for i in 0..n as usize {
            assert_eq!(k.open(i).siblings.len(), height_of(n as usize));
            assert!(MerkleTree::verify::<E, K>(&k.open(i), &l[i], &k.root()));
            assert!(MerkleTree::verify::<E, P>(&p.open(i), &l[i], &p.root()));
        }
    }
}

#[test]
fn other_leaves_and_positions_do_not_verify() {
    let l = leaves(8);
    let tree = MerkleTree::from_leaves::<E, K>(l.clone());
    let path = tree.open(3);
    assert!(!MerkleTree::verify::<E, K>(&path, &l[4], &tree.root()));
    let mut moved = path.clone();
    moved.leaf_index = 2;
    assert!(!MerkleTree::verify::<E, K>(&moved, &l[3], &tree.root()));
    let mut short = path.clone();
    short.siblings.pop();
    assert!(!MerkleTree::verify::<E, K>(&short, &l[3], &tree.root()));
    assert!(!MerkleTree::verify::<E, K>(&path, &l[3], &l[0]));
}

#[test]
fn a_single_leaf_is_its_root() {
    let l = leaves(1);
    let tree = MerkleTree::from_leaves::<E, K>(l.clone());
    assert_eq!(tree.root(), l[0]);
    assert!(tree.open(0).siblings.is_empty());
    assert_eq!(tree.open(9).leaf_index, 9);
}

#[test]
fn powers_of_two() {
    let powers: Vec<usize> = (0..70).filter(|n| is_power_of_two(*n)).collect();
    assert_eq!(powers, vec![1, 2, 4, 8, 16, 32, 64]);
    assert_eq!(height_of(64), 6);
}
