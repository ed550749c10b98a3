//! The transcript.
use spartan2::errors::SpartanError;
use spartan2::provider::goldi::F;
use spartan2::provider::keccak::Keccak256Transcript;
use spartan2::provider::pcs::merkle_mle_pc::{
    HashMleCommitment, HashMlePCS, HashMleVerifierKey, MerkleRoot, ZkMode,
};
use spartan2::provider::{GoldilocksMerkleMleEngine, PallasMerkleMleEngine};
use spartan2::traits::{Engine, PCSEngineTrait, ScalarField, TranscriptReprTrait};

type E = GoldilocksMerkleMleEngine;

fn keccak(data: &[u8]) -> [u8; 32] {
    <sha3::Keccak256 as sha3::Digest>::digest(data).into()
}

fn state_of(data: &[u8]) -> Vec<u8> {
    let mut lo = data.to_vec();
    lo.push(0);
    let mut hi = data.to_vec();
    hi.push(1);
    let mut out = keccak(&lo).to_vec();
    out.extend_from_slice(&keccak(&hi));
    out
}

#[test]
fn challenges_follow_the_absorbed_bytes() {
    let mut t = Keccak256Transcript::<E>::new(b"label");
    let state = state_of(b"NoTRlabel");

    t.absorb(b"x", &F::from(5));
    t.absorb_bytes(b"y", &[1, 2, 3]);
    let mut input = b"x".to_vec();
    input.extend_from_slice(&5u64.to_le_bytes());
    input.extend_from_slice(b"y");
    input.extend_from_slice(&[1, 2, 3]);
    input.extend_from_slice(b"NoDS");
    input.extend_from_slice(&0u16.to_le_bytes());
    input.extend_from_slice(&state);
    input.extend_from_slice(b"c");
    let output = state_of(&input);
    assert_eq!(t.squeeze(b"c").unwrap(), F::from_uniform(&output));

    // the next challenge starts from the new state, with nothing absorbed
    let mut input = b"NoDS".to_vec();
    input.extend_from_slice(&1u16.to_le_bytes());
    input.extend_from_slice(&output);
    input.extend_from_slice(b"d");
    assert_eq!(t.squeeze(b"d").unwrap(), F::from_uniform(&state_of(&input)));
}

#[test]
fn equal_transcripts_give_equal_challenges() {
    let mut a = Keccak256Transcript::<E>::new(b"same");
    let mut b = Keccak256Transcript::<E>::new(b"same");
    a.absorb(b"m", &F::from(1));
    b.absorb(b"m", &F::from(1));
    assert_eq!(a.squeeze_n(b"c", 5).unwrap(), b.squeeze_n(b"c", 5).unwrap());
    a.absorb(b"m", &F::from(2));
    b.absorb(b"m", &F::from(3));
    assert_ne!(a.squeeze(b"c").unwrap(), b.squeeze(b"c").unwrap());
}

#[test]
fn a_transcript_runs_out_of_challenges() {
    let mut t = Keccak256Transcript::<E>::new(b"long");
    assert_eq!(t.squeeze_n(b"c", 65535).unwrap().len(), 65535);
    assert_eq!(t.squeeze(b"c").unwrap_err(), SpartanError::InternalTranscriptError);
    assert_eq!(t.squeeze(b"c").unwrap_err(), SpartanError::InternalTranscriptError);

    // a prover on such a transcript reports it
    let (ck, _vk) = HashMlePCS::<E>::setup(b"x", 2);
    let blind = HashMlePCS::<E>::blind(&ck, 2);
    let poly = vec![F::from(1), F::from(2)];
    let comm = HashMlePCS::<E>::commit(&ck, &poly, &blind, false).unwrap();
    let err = HashMlePCS::<E>::prove(&ck, &mut t, &comm, &poly, &blind, &[F::from(3)])
        .err()
        .unwrap();
    assert_eq!(err, SpartanError::InternalTranscriptError);
}

#[test]
fn challenges_in_the_pallas_field() {
    type P = PallasMerkleMleEngine;
    let mut t = Keccak256Transcript::<P>::new(b"p");
    let mut input = b"NoDS".to_vec();
    input.extend_from_slice(&0u16.to_le_bytes());
    input.extend_from_slice(&state_of(b"NoTRp"));
    input.extend_from_slice(b"c");
    let expected = <P as Engine>::Scalar::from_digest(&state_of(&input));
    assert_eq!(t.squeeze(b"c").unwrap(), expected);
}

#[test]
fn commitments_and_keys_in_transcripts() {
    let comm = HashMleCommitment::<E> {
        base_root: MerkleRoot([7u8; 32]),
        mode: ZkMode::LeakReducedStreaming,
        _p: std::marker::PhantomData,
    };
    let mut bytes = b"mle/mode".to_vec();
    bytes.push(1);
    bytes.extend_from_slice(&[7u8; 32]);
    assert_eq!(comm.to_transcript_bytes(), bytes);

    let comm = HashMleCommitment::<E> {
        base_root: MerkleRoot::zero(),
        mode: ZkMode::LeakReduced,
        _p: std::marker::PhantomData,
    };
    let mut bytes = b"mle/mode".to_vec();
    bytes.push(0);
    bytes.extend_from_slice(&[0u8; 32]);
    assert_eq!(comm.to_transcript_bytes(), bytes);

    let vk = HashMleVerifierKey::<E> {
        branching: 2,
        zk_mode: ZkMode::LeakReducedStreaming,
        _p: std::marker::PhantomData,
    };
    assert_eq!(vk.to_transcript_bytes(), vec![2, 1]);
}
