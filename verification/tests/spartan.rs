//! The proof system on a small constraint system.
use spartan2::errors::SpartanError;
use spartan2::provider::goldi::F;
use spartan2::provider::keccak::Keccak256Transcript;
use spartan2::provider::pcs::merkle_mle_pc::{HashMleCommitment, HashMlePCS};
use spartan2::provider::{
    GoldilocksMerkleMleEngine, GoldilocksP3MerkleMleEngine, PallasMerkleMleEngine,
    VestaMerkleMleEngine,
};
use spartan2::r1cs::instance::SplitR1CSInstance;
use spartan2::r1cs::shape::SplitR1CSShape;
use spartan2::spartan::{
    check_width, combine_claims, R1CSSNARK, SpartanProverKey, SpartanVerifierKey,
};
use spartan2::traits::{Engine, PCSEngineTrait, ScalarField, SnarkEngine};

type Triplets<E> = Vec<(usize, usize, <E as Engine>::Scalar)>;

fn s<E: SnarkEngine>(x: u64) -> E::Scalar {
    E::Scalar::from_u64(x)
}

/// `x^3 + x + 5 = y`: the variables are x, x^2, x^3 and y, and y is public.
fn cubic_matrices<E: SnarkEngine>() -> (Triplets<E>, Triplets<E>, Triplets<E>) {
    let (x, x_sq, x_cu, y, one, output) = (0, 1, 2, 3, 4, 5);
    let a = vec![
        (0, x, s::<E>(1)),
        (1, x_sq, s::<E>(1)),
        (2, x_cu, s::<E>(1)),
        (2, x, s::<E>(1)),
        (2, one, s::<E>(5)),
        (3, output, s::<E>(1)),
    ];
    let b = vec![
        (0, x, s::<E>(1)),
        (1, x, s::<E>(1)),
        (2, one, s::<E>(1)),
        (3, one, s::<E>(1)),
    ];
    let c = vec![
        (0, x_sq, s::<E>(1)),
        (1, x_cu, s::<E>(1)),
        (2, y, s::<E>(1)),
        (3, y, s::<E>(1)),
    ];
    (a, b, c)
}

fn cubic_shape<E: SnarkEngine>() -> SplitR1CSShape<E> {
    let (a, b, c) = cubic_matrices::<E>();
    SplitR1CSShape::new(E::PCS::width(), 4, 0, 0, 4, 1, 0, &a, &b, &c).unwrap()
}

fn cubic_keys<E: SnarkEngine>() -> (SpartanProverKey<E>, SpartanVerifierKey<E>) {
    match R1CSSNARK::<E>::setup(cubic_shape::<E>()) {
        Ok(keys) => keys,
        Err(e) => panic!("setup failed: {:?}", e),
    }
}

fn cubic_witness<E: SnarkEngine>() -> Vec<E::Scalar> {
    vec![s::<E>(2), s::<E>(4), s::<E>(8), s::<E>(15)]
}

fn test_snark_with<E: SnarkEngine>() {
    // produce keys
    let (pk, vk) = cubic_keys::<E>();

    // generate pre-processed state for proving
    let prep_snark = R1CSSNARK::<E>::prep_prove(&pk, &[], &[], false).ok().unwrap();

    // generate a witness and proof
    let public_values = [s::<E>(15)];
    let res = R1CSSNARK::<E>::prove(
        &pk,
        &prep_snark,
        &public_values,
        &cubic_witness::<E>(),
        false,
    );
    assert!(res.is_ok());
    let snark = res.ok().unwrap();

    // verify the SNARK
    let res = snark.verify(&vk);
    assert!(res.is_ok());
    let public = res.ok().unwrap();
    assert_eq!(public.len(), 1);
    assert!(public[0].same(&s::<E>(15)));
}

#[test]
fn test_snark() {
    test_snark_with::<PallasMerkleMleEngine>();
    test_snark_with::<VestaMerkleMleEngine>();
    test_snark_with::<GoldilocksMerkleMleEngine>();
    test_snark_with::<GoldilocksP3MerkleMleEngine>();
}

#[test]
fn test_transcript_fork_consistency() {
    // The inner sum-check and the evaluation argument run on transcripts of their own.
    type E = GoldilocksMerkleMleEngine;
    let (pk, vk) = cubic_keys::<E>();
    let prep_snark = R1CSSNARK::<E>::prep_prove(&pk, &[], &[], false).ok().unwrap();
    let proof = R1CSSNARK::<E>::prove(
        &pk,
        &prep_snark,
        &[s::<E>(15)],
        &cubic_witness::<E>(),
        false,
    )
    .ok()
    .unwrap();

    let res = proof.verify(&vk);
    assert!(
        res.is_ok(),
        "Transcript fork should prevent FS interleaving issues: {:?}",
        res.err()
    );
}

#[test]
fn sizes_are_reported() {
    let (pk, _vk) = cubic_keys::<GoldilocksMerkleMleEngine>();
    assert_eq!(pk.sizes(), [4, 0, 0, 4, 4, 0, 0, 4, 1, 0]);
}

#[test]
fn keys_of_different_shapes_have_different_digests() {
    type E = GoldilocksMerkleMleEngine;
    let (_pk, vk) = cubic_keys::<E>();
    let (_pk2, vk2) = cubic_keys::<E>();
    assert_eq!(vk.digest().unwrap(), vk2.digest().unwrap());

    let (a, b, mut c) = cubic_matrices::<E>();
    c[0].2 = s::<E>(2);
    let other = SplitR1CSShape::<E>::new(2, 4, 0, 0, 4, 1, 0, &a, &b, &c).unwrap();
    let (_pk3, vk3) = R1CSSNARK::<E>::setup(other).ok().unwrap();
    assert_ne!(vk.digest().unwrap(), vk3.digest().unwrap());
}

#[test]
fn a_wrong_witness_is_not_accepted() {
    type E = GoldilocksMerkleMleEngine;
    let (pk, vk) = cubic_keys::<E>();
    let prep = R1CSSNARK::<E>::prep_prove(&pk, &[], &[], false).ok().unwrap();
    let mut w = cubic_witness::<E>();
    w[2] = s::<E>(9);
    let proof = R1CSSNARK::<E>::prove(&pk, &prep, &[s::<E>(15)], &w, false).ok().unwrap();
    assert_eq!(proof.verify(&vk).unwrap_err(), SpartanError::InvalidSumcheckProof);

    // a wrong public value
    let proof = R1CSSNARK::<E>::prove(&pk, &prep, &[s::<E>(16)], &cubic_witness::<E>(), false)
        .ok()
        .unwrap();
    assert_eq!(proof.verify(&vk).unwrap_err(), SpartanError::InvalidSumcheckProof);
}

#[test]
fn a_proof_does_not_fit_another_key() {
    type E = GoldilocksMerkleMleEngine;
    let (pk, _vk) = cubic_keys::<E>();
    let (a, b, mut c) = cubic_matrices::<E>();
    c[0].2 = s::<E>(2);
    let other = SplitR1CSShape::<E>::new(2, 4, 0, 0, 4, 1, 0, &a, &b, &c).unwrap();
    let (_pk2, vk2) = R1CSSNARK::<E>::setup(other).ok().unwrap();
    let prep = R1CSSNARK::<E>::prep_prove(&pk, &[], &[], false).ok().unwrap();
    let proof =
        R1CSSNARK::<E>::prove(&pk, &prep, &[s::<E>(15)], &cubic_witness::<E>(), false).ok().unwrap();
    assert!(proof.verify(&vk2).is_err());
}

#[test]
fn wrong_lengths_are_refused() {
    type E = GoldilocksMerkleMleEngine;
    let (pk, _vk) = cubic_keys::<E>();
    let err = R1CSSNARK::<E>::prep_prove(&pk, &[s::<E>(1)], &[], false).err().unwrap();
    assert_eq!(err, SpartanError::InvalidWitnessLength);

    let prep = R1CSSNARK::<E>::prep_prove(&pk, &[], &[], false).ok().unwrap();
    let mut w = cubic_witness::<E>();
    w.pop();
    let err = R1CSSNARK::<E>::prove(&pk, &prep, &[s::<E>(15)], &w, false).err().unwrap();
    assert_eq!(err, SpartanError::InvalidWitnessLength);

    let err = R1CSSNARK::<E>::prove(&pk, &prep, &[], &cubic_witness::<E>(), false).err().unwrap();
    assert_eq!(err, SpartanError::InvalidWitnessLength);
}

/// Several public values stand behind a one; without any there is a one everywhere.
#[test]
fn public_values_of_any_number() {
    type E = GoldilocksMerkleMleEngine;
    let one = s::<E>(1);
    for public in [vec![], vec![s::<E>(6)], vec![s::<E>(2), s::<E>(3)]] {
        // w0 * w1 = w2 with w0 = 2, w1 = 3, w2 = 6
        let a = vec![(0, 0, one)];
        let b = vec![(0, 1, one)];
        let c = vec![(0, 2, one)];
        let shape = SplitR1CSShape::<E>::new(2, 1, 0, 0, 3, public.len(), 0, &a, &b, &c).unwrap();
        let (pk, vk) = R1CSSNARK::<E>::setup(shape).ok().unwrap();
        let prep = R1CSSNARK::<E>::prep_prove(&pk, &[], &[], false).ok().unwrap();
        let w = vec![s::<E>(2), s::<E>(3), s::<E>(6)];
        let proof = R1CSSNARK::<E>::prove(&pk, &prep, &public, &w, false).ok().unwrap();
        assert_eq!(proof.verify(&vk).unwrap(), public);
    }
}

#[test]
fn challenges_come_from_the_transcript() {
    type E = GoldilocksMerkleMleEngine;
    let one = s::<E>(1);
    // w0 * 1 = challenge
    let a = vec![(0, 0, one)];
    let b = vec![(0, 2, one)];
    let c = vec![(0, 3, one)];
    let shape = SplitR1CSShape::<E>::new(2, 1, 0, 0, 2, 0, 1, &a, &b, &c).unwrap();
    let (pk, vk) = R1CSSNARK::<E>::setup(shape).ok().unwrap();
    let prep = R1CSSNARK::<E>::prep_prove(&pk, &[], &[], false).ok().unwrap();
    let challenges = R1CSSNARK::<E>::challenges(&pk, &prep, &[]).unwrap();
    assert_eq!(challenges.len(), 1);
    let w = vec![challenges[0], s::<E>(0)];
    let proof = R1CSSNARK::<E>::prove(&pk, &prep, &[], &w, false).ok().unwrap();
    assert_eq!(proof.verify(&vk).unwrap(), vec![]);

    // a witness that does not follow the challenge
    let w = vec![challenges[0] + one, s::<E>(0)];
    let proof = R1CSSNARK::<E>::prove(&pk, &prep, &[], &w, false).ok().unwrap();
    assert_eq!(proof.verify(&vk).unwrap_err(), SpartanError::InvalidSumcheckProof);
}

#[test]
fn hash_based_schemes_take_a_single_piece() {
    type E = GoldilocksMerkleMleEngine;
    let one = s::<E>(1);
    let a = vec![(0, 0, one)];
    let shape = SplitR1CSShape::<E>::new(2, 1, 2, 0, 2, 0, 0, &a, &a, &a).unwrap();
    let (pk, _vk) = R1CSSNARK::<E>::setup(shape).ok().unwrap();
    let prep = R1CSSNARK::<E>::prep_prove(&pk, &[one, one], &[], false).ok().unwrap();
    let err = R1CSSNARK::<E>::prove(&pk, &prep, &[], &[one, one], false).err().unwrap();
    assert_eq!(
        err,
        SpartanError::InvalidInputLength {
            reason: "HashMlePCS: combine_blinds expects exactly one blind".to_string()
        }
    );
}

#[test]
fn hash_based_schemes_must_be_binary() {
    assert_eq!(check_width(true, 2), Ok(()));
    assert_eq!(check_width(false, 1024), Ok(()));
    assert_eq!(
        check_width(true, 1024),
        Err(SpartanError::InternalError {
            reason: "Hash-MLE PCS misconfigured: width()=1024 (expected 2)".to_string()
        })
    );
}

type G = GoldilocksMerkleMleEngine;

fn instance(
    shared: Option<HashMleCommitment<G>>,
    rest: HashMleCommitment<G>,
    public: u64,
    challenges: Vec<F>,
) -> SplitR1CSInstance<G> {
    SplitR1CSInstance {
        comm_W_shared: shared,
        comm_W_precommitted: None,
        comm_W_rest: rest,
        public_values: vec![F::from(public)],
        challenges,
    }
}

#[test]
fn instances_must_fit_their_shape() {
    let none: Vec<(usize, usize, F)> = vec![];
    // two shared variables, two others, one public value and one challenge
    let shape = SplitR1CSShape::<G>::new(2, 1, 2, 0, 2, 1, 1, &none, &none, &none).ok().unwrap();
    let (ck, _vk) = HashMlePCS::<G>::setup(b"i", 4);
    let blind = HashMlePCS::<G>::blind(&ck, 2);
    let comm = HashMlePCS::<G>::commit(&ck, &[F::from(1), F::from(2)], &blind, false).unwrap();

    // the challenge that belongs to the instance
    let mut t = Keccak256Transcript::<G>::new(b"i");
    t.absorb(b"public_values", &F::from(7));
    t.absorb(b"comm_W_shared", &comm);
    let challenge = t.squeeze(b"challenge").unwrap();
    t.absorb(b"comm_W_rest", &comm);

    let check = |u: &SplitR1CSInstance<G>| {
        let mut t = Keccak256Transcript::<G>::new(b"i");
        u.validate(&shape, &mut t)
    };
    let u = instance(Some(comm.clone()), comm.clone(), 7, vec![challenge]);
    let mut tv = Keccak256Transcript::<G>::new(b"i");
    assert_eq!(u.validate(&shape, &mut tv), Ok(()));
    assert_eq!(t.squeeze(b"end").unwrap(), tv.squeeze(b"end").unwrap());

    let u = instance(None, comm.clone(), 7, vec![challenge]);
    assert_eq!(
        check(&u),
        Err(SpartanError::ProofVerifyError { reason: "comm_W_shared is missing".to_string() })
    );
    let u = instance(Some(comm.clone()), comm.clone(), 8, vec![challenge]);
    assert_eq!(
        check(&u),
        Err(SpartanError::ProofVerifyError { reason: "Challenges do not match".to_string() })
    );
    let u = instance(Some(comm.clone()), comm.clone(), 7, vec![]);
    assert_eq!(
        check(&u),
        Err(SpartanError::InvalidInputLength {
            reason: "SplitR1CSInstance: wrong number of challenges".to_string()
        })
    );
    let mut u = instance(Some(comm.clone()), comm.clone(), 7, vec![challenge]);
    u.public_values.clear();
    assert_eq!(
        check(&u),
        Err(SpartanError::InvalidInputLength {
            reason: "SplitR1CSInstance: wrong number of public values".to_string()
        })
    );
    // a scheme that takes a single piece cannot put two together
    let u = instance(Some(comm.clone()), comm.clone(), 7, vec![challenge]);
    assert!(u.to_regular_instance().is_err());
    let u = instance(None, comm.clone(), 7, vec![challenge]);
    let regular = u.to_regular_instance().ok().unwrap();
    assert_eq!(regular.comm_W, comm);
    assert_eq!(regular.X, vec![F::from(7)]);
}

/// An engine that does not count as hash-based: it pads the vector that the matrices are
/// multiplied with instead of putting a public half behind the witness.
struct PlainEngine;

impl Engine for PlainEngine {
    type Scalar = F;
}

impl SnarkEngine for PlainEngine {
    type PCS = HashMlePCS<Self>;

    fn hash_mle() -> bool {
        false
    }

    fn is_hash_mle() -> bool {
        false
    }
}

#[test]
fn other_engines_pad_the_vector() {
    test_snark_with::<PlainEngine>();
    let (pk, vk) = cubic_keys::<PlainEngine>();
    let prep = R1CSSNARK::<PlainEngine>::prep_prove(&pk, &[], &[], false).ok().unwrap();
    let proof =
        R1CSSNARK::<PlainEngine>::prove(&pk, &prep, &[F::from(15)], &[F::zero(); 4], false)
            .ok()
            .unwrap();
    assert_eq!(proof.verify(&vk).unwrap_err(), SpartanError::InvalidSumcheckProof);
}

fn cubic_proof<E: SnarkEngine>() -> (R1CSSNARK<E>, SpartanVerifierKey<E>) {
    let (pk, vk) = cubic_keys::<E>();
    let prep = R1CSSNARK::<E>::prep_prove(&pk, &[], &[], false).ok().unwrap();
    let proof = R1CSSNARK::<E>::prove(&pk, &prep, &[s::<E>(15)], &cubic_witness::<E>(), false);
    (proof.ok().unwrap(), vk)
}

fn changed_claims_are_refused_with<E: SnarkEngine>() {
    for k in 0..3 {
        let (mut proof, vk) = cubic_proof::<E>();
        let one = s::<E>(1);
        let (a, b, c) = proof.claims_outer;
        proof.claims_outer = match k {
            0 => (a.plus(one), b, c),
            1 => (a, b.plus(one), c),
            _ => (a, b, c.plus(one)),
        };
        assert_eq!(proof.verify(&vk).err().unwrap(), SpartanError::InvalidSumcheckProof);
    }
}

#[test]
fn changed_claims_are_refused() {
    changed_claims_are_refused_with::<PallasMerkleMleEngine>();
    changed_claims_are_refused_with::<VestaMerkleMleEngine>();
    changed_claims_are_refused_with::<GoldilocksMerkleMleEngine>();
    changed_claims_are_refused_with::<GoldilocksP3MerkleMleEngine>();
    changed_claims_are_refused_with::<PlainEngine>();
}

#[test]
fn the_inner_sum_starts_from_the_claims() {
    // 2 + 10 * 3 + 100 * 5
    let claims = (F::from(2), F::from(3), F::from(5));
    assert_eq!(combine_claims(&claims, &F::from(10)), F::from(532));
    assert_eq!(combine_claims(&claims, &F::zero()), F::from(2));

    let (mut proof, vk) = cubic_proof::<PlainEngine>();
    assert!(proof.verify(&vk).is_ok());
    proof.claim_inner_sum = proof.claim_inner_sum + F::from(1);
    assert_eq!(proof.verify(&vk).err().unwrap(), SpartanError::InvalidSumcheckProof);

    // the same holds of the value of the witness
    let (mut proof, vk) = cubic_proof::<PlainEngine>();
    proof.eval_W = proof.eval_W + F::from(1);
    assert_eq!(proof.verify(&vk).err().unwrap(), SpartanError::InvalidSumcheckProof);
}

#[test]
fn a_state_of_another_key_is_refused() {
    type E = GoldilocksMerkleMleEngine;
    let (pk, _vk) = cubic_keys::<E>();
    let one = s::<E>(1);
    let a = vec![(0, 0, one)];
    let shape = SplitR1CSShape::<E>::new(2, 1, 2, 0, 2, 0, 0, &a, &a, &a).unwrap();
    let (pk2, _vk2) = R1CSSNARK::<E>::setup(shape).ok().unwrap();
    let prep = R1CSSNARK::<E>::prep_prove(&pk2, &[one, one], &[], false).ok().unwrap();
    let err = R1CSSNARK::<E>::prove(&pk, &prep, &[s::<E>(15)], &cubic_witness::<E>(), false)
        .err()
        .unwrap();
    assert_eq!(err, SpartanError::InvalidWitnessLength);
}

#[test]
fn one_state_serves_several_proofs() {
    type E = GoldilocksMerkleMleEngine;
    let (pk, vk) = cubic_keys::<E>();
    let prep = R1CSSNARK::<E>::prep_prove(&pk, &[], &[], false).ok().unwrap();
    for (x, y) in [(2u64, 15u64), (3, 35), (0, 5)] {
        let w = [s::<E>(x), s::<E>(x * x), s::<E>(x * x * x), s::<E>(y)];
        let proof = R1CSSNARK::<E>::prove(&pk, &prep, &[s::<E>(y)], &w, false).ok().unwrap();
        assert_eq!(proof.verify(&vk).unwrap(), vec![s::<E>(y)]);
    }
}

#[test]
fn padding_fills_rows() {
    type E = GoldilocksMerkleMleEngine;
    let none: Triplets<E> = vec![];
    let shape = SplitR1CSShape::<E>::new(2, 1, 3, 1, 1, 0, 0, &none, &none, &none).unwrap();
    let (pk, _vk) = R1CSSNARK::<E>::setup(shape).ok().unwrap();
    assert_eq!(pk.sizes(), [1, 3, 1, 1, 1, 4, 2, 2, 0, 0]);
}

#[test]
fn the_inputs_determine_the_proof() {
    let (one, _vk) = cubic_proof::<GoldilocksMerkleMleEngine>();
    let (two, _vk) = cubic_proof::<GoldilocksMerkleMleEngine>();
    assert_eq!(one.claims_outer, two.claims_outer);
    assert_eq!(one.claim_inner_sum, two.claim_inner_sum);
    assert_eq!(one.eval_W, two.eval_W);
    assert_eq!(one.eval_arg.layer_roots, two.eval_arg.layer_roots);
    assert_eq!(one.U.comm_W_rest, two.U.comm_W_rest);
}
