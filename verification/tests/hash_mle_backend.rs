//! The hash backends.
use spartan2::provider::goldi::{F, GOLDILOCKS_MODULUS};
use spartan2::provider::pcs::hash_mle_backend::{
    poseidon2_hash_leaf, poseidon2_hash_node, BackendFfKeccak, BackendP3Poseidon2Goldi, Digest32,
    MleBackend, GF,
};
use spartan2::provider::{GoldilocksMerkleMleEngine, GoldilocksP3MerkleMleEngine};
use spartan2::traits::TranscriptReprTrait;

type K = BackendFfKeccak<GoldilocksMerkleMleEngine>;
type P = BackendP3Poseidon2Goldi<GoldilocksP3MerkleMleEngine>;

fn keccak(data: &[u8]) -> [u8; 32] {
    <sha3::Keccak256 as sha3::Digest>::digest(data).into()
}

#[test]
fn poseidon2_leaf_is_deterministic() {
    let x = GF::from_int(123456789);
    let d1 = poseidon2_hash_leaf(x);
    let d2 = poseidon2_hash_leaf(x);
    assert_eq!(d1, d2);
}

#[test]
fn poseidon2_node_is_deterministic() {
    let mut w = [GF::from_int(0); 8];
    for i in 0..8 {
        w[i] = GF::from_int(i as u64 + 1);
    }
    let d1 = poseidon2_hash_node(&w);
    let d2 = poseidon2_hash_node(&w);
    assert_eq!(d1, d2);
}

#[test]
fn poseidon2_mixes_its_state() {
    let leaf = poseidon2_hash_leaf(GF::from_int(5));
    // an untouched state would start with the domain word and the length
    assert_ne!(&leaf.0[8..16], &1u64.to_le_bytes());
    assert_ne!(leaf, poseidon2_hash_leaf(GF::from_int(6)));
    let l = Digest32([1u8; 32]);
    let r = Digest32([2u8; 32]);
    assert_ne!(P::node_hash(&l, &r), P::node_hash(&r, &l));
}

#[test]
fn keccak_backend_hashes_tagged_bytes() {
    let x = F::from(77);
    let mut data = b"mle/leaf".to_vec();
    data.extend_from_slice(&77u64.to_le_bytes());
    assert_eq!(K::leaf_hash(&x).0, keccak(&data));

    let l = Digest32([3u8; 32]);
    let r = Digest32([4u8; 32]);
    let mut data = b"mle/node".to_vec();
    data.extend_from_slice(&[3u8; 32]);
    data.extend_from_slice(&[4u8; 32]);
    assert_eq!(K::node_hash(&l, &r).0, keccak(&data));
}

#[test]
fn backends_agree_on_field_arithmetic() {
    let top = F::from(GOLDILOCKS_MODULUS - 1);
    for (x, y) in [
        (F::from(3), F::from(5)),
        (top, F::from(2)),
        (F::from(0), top),
        (top, top),
        (F::from(1 << 40), F::from(1 << 41)),
    ] {
        let (a, b) = (P::fe_from_ff(&x), P::fe_from_ff(&y));
        assert_eq!(P::fe_to_ff(&P::add(a, b)), K::add(x, y));
        assert_eq!(P::fe_to_ff(&P::sub(a, b)), K::sub(x, y));
        assert_eq!(P::fe_to_ff(&P::mul(a, b)), K::mul(x, y));
    }
    assert_eq!(P::fe_to_ff(&P::mul(P::fe_from_ff(&F::from(6)), P::fe_from_ff(&F::from(7)))), F::from(42));
    assert_eq!(P::fe_to_ff(&P::zero()), K::zero());
    assert_eq!(P::fe_to_ff(&P::one()), K::one());
    assert_eq!(GF::from_int(GOLDILOCKS_MODULUS + 3).as_canonical_u64(), 3);
}

#[test]
fn digests_enter_transcripts_as_they_are() {
    let d = Digest32([9u8; 32]);
    assert_eq!(d.to_transcript_bytes(), vec![9u8; 32]);
}
