//! The Keccak scheme and its Merkle trees.
use rand::rngs::StdRng;
use rand::{Rng, SeedableRng};
use spartan2::polys::multilinear::MultilinearPolynomial;
use spartan2::provider::keccak::Keccak256Transcript;
use spartan2::provider::pcs::hash_mle_backend::{BackendFfKeccak, MleBackend};
use spartan2::provider::pcs::merkle_mle_pc::{
    fold_layer, leaf_digest, Digest32, HashMleBlind, HashMleEvaluationArgument, HashMlePCS,
    MerkleRoot, MerkleTree, Round,
};
use spartan2::provider::PallasMerkleMleEngine;
use spartan2::traits::{Engine, PCSEngineTrait};

type E = PallasMerkleMleEngine;
type Scalar = <E as Engine>::Scalar;
type DefaultBackend = BackendFfKeccak<E>;

fn rand_scalar(rng: &mut StdRng) -> Scalar {
    // sample in a tiny range (fast) then lift into field
    let x: u64 = rng.random();
    Scalar::from(x)
}

#[test]
fn test_leak_reduced_roundtrip() {
    let m = 8usize;
    let n = 1usize << m;
    let poly = (0..n).map(|i| Scalar::from(i as u64)).collect::<Vec<_>>();
    let point = (0..m)
        .map(|i| Scalar::from((i + 1) as u64))
        .collect::<Vec<_>>();

    let (ck, vk) = <HashMlePCS<E> as PCSEngineTrait<E>>::setup(b"test", n);
    let blind = <HashMlePCS<E> as PCSEngineTrait<E>>::blind(&ck, n);

    let mut tr = Keccak256Transcript::<E>::new(b"test");
    let com = <HashMlePCS<E> as PCSEngineTrait<E>>::commit(&ck, &poly, &blind, false).unwrap();
    let (eval, arg) =
        <HashMlePCS<E> as PCSEngineTrait<E>>::prove(&ck, &mut tr, &com, &poly, &blind, &point)
            .unwrap();

    let mut tr2 = Keccak256Transcript::<E>::new(b"test");
    <HashMlePCS<E> as PCSEngineTrait<E>>::verify(&vk, &mut tr2, &com, &point, &eval, &arg).unwrap();
}

#[test]
fn test_small_polynomial() {
    let m = 3usize;
    let n = 1usize << m; // 8 elements
    let poly = vec![
        Scalar::from(1u64),
        Scalar::from(2u64),
        Scalar::from(3u64),
        Scalar::from(4u64),
        Scalar::from(5u64),
        Scalar::from(6u64),
        Scalar::from(7u64),
        Scalar::from(8u64),
    ];
    let point = vec![Scalar::from(0u64), Scalar::from(1u64), Scalar::from(0u64)]; // Should evaluate to poly[2] = 3

    let (ck, vk) = <HashMlePCS<E> as PCSEngineTrait<E>>::setup(b"test_small", n);
    let blind = <HashMlePCS<E> as PCSEngineTrait<E>>::blind(&ck, n);

    let mut tr = Keccak256Transcript::<E>::new(b"test_small");
    let com = <HashMlePCS<E> as PCSEngineTrait<E>>::commit(&ck, &poly, &blind, false).unwrap();
    let (eval, arg) =
        <HashMlePCS<E> as PCSEngineTrait<E>>::prove(&ck, &mut tr, &com, &poly, &blind, &point)
            .unwrap();

    // Verify the evaluation is correct
    let expected_eval = Scalar::from(3u64);
    assert_eq!(eval, expected_eval);

    let mut tr2 = Keccak256Transcript::<E>::new(b"test_small");
    <HashMlePCS<E> as PCSEngineTrait<E>>::verify(&vk, &mut tr2, &com, &point, &eval, &arg).unwrap();
}

#[test]
fn test_random_polynomial() {
    let m = 6usize;
    let n = 1usize << m;
    let poly = (0..n)
        .map(|i| Scalar::from(i as u64 + 1))
        .collect::<Vec<_>>();
    let point = (0..m).map(|i| Scalar::from(i as u64)).collect::<Vec<_>>();

    let (ck, vk) = <HashMlePCS<E> as PCSEngineTrait<E>>::setup(b"test_random", n);
    let blind = <HashMlePCS<E> as PCSEngineTrait<E>>::blind(&ck, n);

    let mut tr = Keccak256Transcript::<E>::new(b"test_random");
    let com = <HashMlePCS<E> as PCSEngineTrait<E>>::commit(&ck, &poly, &blind, false).unwrap();
    let (eval, arg) =
        <HashMlePCS<E> as PCSEngineTrait<E>>::prove(&ck, &mut tr, &com, &poly, &blind, &point)
            .unwrap();

    // Verify against direct multilinear evaluation
    let mle = MultilinearPolynomial::new(poly.clone());
    let expected_eval = mle.evaluate(&point);
    assert_eq!(eval, expected_eval);

    let mut tr2 = Keccak256Transcript::<E>::new(b"test_random");
    <HashMlePCS<E> as PCSEngineTrait<E>>::verify(&vk, &mut tr2, &com, &point, &eval, &arg).unwrap();
}

#[test]
fn test_commitment_consistency() {
    let m = 4usize;
    let n = 1usize << m;
    let poly = (0..n)
        .map(|i| Scalar::from((i * i + 7) as u64))
        .collect::<Vec<_>>();

    let (ck, _vk) = <HashMlePCS<E> as PCSEngineTrait<E>>::setup(b"test_consistency", n);
    let blind = <HashMlePCS<E> as PCSEngineTrait<E>>::blind(&ck, n);

    // Commit to the same polynomial twice
    let com1 = <HashMlePCS<E> as PCSEngineTrait<E>>::commit(&ck, &poly, &blind, false).unwrap();
    let com2 = <HashMlePCS<E> as PCSEngineTrait<E>>::commit(&ck, &poly, &blind, false).unwrap();

    // Commitments should be identical
    assert_eq!(com1, com2);
}

#[test]
fn test_merkle_tree_operations() {
    // Test the internal Merkle tree functionality
    let leaves = vec![
        Digest32([1u8; 32]),
        Digest32([2u8; 32]),
        Digest32([3u8; 32]),
        Digest32([4u8; 32]),
    ];
    let tree = MerkleTree::from_leaves::<E, DefaultBackend>(leaves.clone());

    // Test opening and verification
    for i in 0..leaves.len() {
        let path = tree.open(i);
        assert!(MerkleTree::verify::<E, DefaultBackend>(
            &path,
            &leaves[i],
            &tree.root()
        ));
    }
}

#[test]
fn test_folding_correctness() {
    // Test that our folding matches the MultilinearPolynomial::bind_poly_var_top logic
    let poly = vec![
        Scalar::from(1u64),
        Scalar::from(2u64),
        Scalar::from(3u64),
        Scalar::from(4u64),
    ];
    let r = Scalar::from(7u64);

    let folded = fold_layer::<E>(&poly, &r);

    // Manual calculation using MultilinearPolynomial folding: left + r * (right - left)
    // where left is first half [1, 2] and right is second half [3, 4]
    let expected_0 = poly[0] + r * (poly[2] - poly[0]); // 1 + 7*(3-1) = 1 + 14 = 15
    let expected_1 = poly[1] + r * (poly[3] - poly[1]); // 2 + 7*(4-2) = 2 + 14 = 16

    assert_eq!(folded.len(), 2);
    assert_eq!(folded[0], expected_0);
    assert_eq!(folded[1], expected_1);
    assert_eq!(folded, vec![Scalar::from(15), Scalar::from(16)]);
}

#[test]
fn roundtrip_small_fixed() {
    let m = 5usize;
    let n = 1usize << m;
    let mut rng = StdRng::seed_from_u64(7);
    let poly: Vec<Scalar> = (0..n).map(|_| rand_scalar(&mut rng)).collect();
    let point: Vec<Scalar> = (0..m).map(|_| rand_scalar(&mut rng)).collect();

    let (ck, vk) = <HashMlePCS<E> as PCSEngineTrait<E>>::setup(b"test", n);
    let blind = HashMleBlind::<E>::default();
    let com = <HashMlePCS<E> as PCSEngineTrait<E>>::commit(&ck, &poly, &blind, false).unwrap();

    let mut tr_prove = Keccak256Transcript::<E>::new(b"t");
    let (eval, arg) = <HashMlePCS<E> as PCSEngineTrait<E>>::prove(
        &ck,
        &mut tr_prove,
        &com,
        &poly,
        &blind,
        &point,
    )
    .unwrap();

    let mut tr_verify = Keccak256Transcript::<E>::new(b"t");
    <HashMlePCS<E> as PCSEngineTrait<E>>::verify(&vk, &mut tr_verify, &com, &point, &eval, &arg)
        .unwrap();

    // cross-check against direct MLE evaluation
    let mle = MultilinearPolynomial::new(poly.clone());
    assert_eq!(eval, mle.evaluate(&point));
}

#[test]
fn commit_rejects_non_power_of_two() {
    let n = 12usize; // not a power of two
    let (ck, _vk) = <HashMlePCS<E> as PCSEngineTrait<E>>::setup(b"bad", n);
    let blind = HashMleBlind::<E>::default();
    let poly: Vec<Scalar> = (0..n).map(|i| Scalar::from(i as u64)).collect();
    let err = <HashMlePCS<E> as PCSEngineTrait<E>>::commit(&ck, &poly, &blind, false).unwrap_err();
    let msg = format!("{:?}", err);
    assert!(msg.contains("power of two"));
}

#[test]
fn prove_rejects_wrong_point_len() {
    let m = 4usize;
    let n = 1usize << m;
    let poly: Vec<Scalar> = (0..n).map(|i| Scalar::from(i as u64)).collect();
    let (ck, _vk) = <HashMlePCS<E> as PCSEngineTrait<E>>::setup(b"bad2", n);
    let blind = HashMleBlind::<E>::default();
    let com = <HashMlePCS<E> as PCSEngineTrait<E>>::commit(&ck, &poly, &blind, false).unwrap();
    let mut tr = Keccak256Transcript::<E>::new(b"p");
    // point too short
    let point: Vec<Scalar> = vec![Scalar::from(5u64); m - 1];
    assert!(<HashMlePCS<E> as PCSEngineTrait<E>>::prove(
        &ck, &mut tr, &com, &poly, &blind, &point
    )
    .is_err());
}

#[test]
fn tamper_layer_root_fails() {
    let m = 3usize;
    let n = 1usize << m;
    let poly: Vec<Scalar> = (0..n).map(|i| Scalar::from((i * i + 7) as u64)).collect();
    let point: Vec<Scalar> = vec![Scalar::from(2u64); m];
    let (ck, vk) = <HashMlePCS<E> as PCSEngineTrait<E>>::setup(b"tamper", n);
    let blind = HashMleBlind::<E>::default();
    let com = <HashMlePCS<E> as PCSEngineTrait<E>>::commit(&ck, &poly, &blind, false).unwrap();
    let mut tr = Keccak256Transcript::<E>::new(b"x");
    let (eval, mut arg) =
        <HashMlePCS<E> as PCSEngineTrait<E>>::prove(&ck, &mut tr, &com, &poly, &blind, &point)
            .unwrap();
    // flip a bit in an inner root
    arg.layer_roots[1].0[0] ^= 0x01;
    let mut tr_v = Keccak256Transcript::<E>::new(b"x");
    assert!(<HashMlePCS<E> as PCSEngineTrait<E>>::verify(
        &vk, &mut tr_v, &com, &point, &eval, &arg
    )
    .is_err());
}

fn leaves_of(values: &[Scalar]) -> Vec<Digest32> {
    values
        .iter()
        .map(|x| {
            let x_fe = <DefaultBackend as MleBackend<E>>::fe_from_ff(x);
            leaf_digest::<E, DefaultBackend>(&x_fe)
        })
        .collect()
}

#[test]
fn red_team_forged_chain_is_rejected_by_index_checks() {
    // A chain of layers that starts from another pair than the first one is rejected.
    let m = 3usize;
    let n = 1usize << m;
    let poly: Vec<Scalar> = (0..n).map(|i| Scalar::from((3 * i + 5) as u64)).collect();
    let point: Vec<Scalar> = vec![
        Scalar::from(7u64),
        Scalar::from(11u64),
        Scalar::from(13u64),
    ];
    let (ck, vk) = <HashMlePCS<E> as PCSEngineTrait<E>>::setup(b"forge", n);
    let blind = HashMleBlind::<E>::default();
    let com = <HashMlePCS<E> as PCSEngineTrait<E>>::commit(&ck, &poly, &blind, false).unwrap();

    // Layer 0: take pair at j != 0
    let j0 = 2usize;
    let half0 = n / 2;
    let a0 = poly[j0];
    let b0 = poly[j0 + half0];
    let next0 = a0 + point[0] * (b0 - a0);
    // Trees for L0..L3, each with only the constraint that index 0 equals our chosen "next"
    let t0 = MerkleTree::from_leaves::<E, DefaultBackend>(leaves_of(&poly));
    let root0 = MerkleRoot(t0.root().0);

    let zero = Scalar::zero();
    let l1 = vec![next0, zero, zero, zero];
    let t1 = MerkleTree::from_leaves::<E, DefaultBackend>(leaves_of(&l1));
    let root1 = MerkleRoot(t1.root().0);
    let a1 = l1[0];
    let b1 = l1[2];
    let next1 = a1 + point[1] * (b1 - a1);

    let l2 = vec![next1, zero];
    let t2 = MerkleTree::from_leaves::<E, DefaultBackend>(leaves_of(&l2));
    let root2 = MerkleRoot(t2.root().0);
    let a2 = l2[0];
    let b2 = l2[1];
    let next2 = a2 + point[2] * (b2 - a2);

    let t3 = MerkleTree::from_leaves::<E, DefaultBackend>(leaves_of(&[next2]));
    let root3 = MerkleRoot(t3.root().0);

    // Assemble a forged argument (note: indices j0 and j0+half0 at layer 0), without samples
    let arg = HashMleEvaluationArgument {
        layer_roots: vec![root0, root1, root2, root3],
        rounds: vec![
            Round {
                a: a0,
                b: b0,
                path_a: t0.open(j0),
                path_b: t0.open(j0 + half0),
                next: next0,
                path_next: t1.open(0),
            },
            Round {
                a: a1,
                b: b1,
                path_a: t1.open(0),
                path_b: t1.open(2),
                next: next1,
                path_next: t2.open(0),
            },
            Round {
                a: a2,
                b: b2,
                path_a: t2.open(0),
                path_b: t2.open(1),
                next: next2,
                path_next: t3.open(0),
            },
        ],
        samples: vec![vec![], vec![], vec![]],
    };
    let eval = next2; // bogus eval, not the true MLE eval

    let mut tr = Keccak256Transcript::<E>::new(b"forge");
    assert!(<HashMlePCS<E> as PCSEngineTrait<E>>::verify(
        &vk, &mut tr, &com, &point, &eval, &arg
    )
    .is_err());
}
