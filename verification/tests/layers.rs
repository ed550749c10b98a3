//! What the verifiers refuse, the streaming mode and the drawing of positions.
use spartan2::errors::SpartanError;
use spartan2::provider::goldi::{F, GOLDILOCKS_MODULUS};
use spartan2::provider::keccak::Keccak256Transcript;
use spartan2::provider::pcs::merkle_mle_pc::{
    draw_index, HashMleBlind, HashMleCommitment, HashMleCommitmentKey, HashMleEvaluationArgument,
    HashMlePCS, HashMleVerifierKey, ZkMode, K_SAMPLES_PER_ROUND,
};
use spartan2::provider::pcs::merkle_mle_pc_p3::HashMlePcsP3;
use spartan2::provider::{GoldilocksMerkleMleEngine, GoldilocksP3MerkleMleEngine};
use spartan2::traits::PCSEngineTrait;

type K = GoldilocksMerkleMleEngine;
type P = GoldilocksP3MerkleMleEngine;

fn poly(n: usize) -> Vec<F> {
    (0..n).map(|i| F::from((i * i + 3) as u64)).collect()
}

fn point(m: usize) -> Vec<F> {
    (0..m).map(|i| F::from((5 * i + 2) as u64)).collect()
}

fn honest(
    m: usize,
) -> (
    HashMleVerifierKey<K>,
    HashMleCommitment<K>,
    F,
    HashMleEvaluationArgument<K>,
) {
    let (ck, vk) = HashMlePCS::<K>::setup(b"l", 1 << m);
    let blind = HashMlePCS::<K>::blind(&ck, 1 << m);
    let v = poly(1 << m);
    let comm = HashMlePCS::<K>::commit(&ck, &v, &blind, false).unwrap();
    let mut t = Keccak256Transcript::<K>::new(b"l");
    let (eval, arg) = HashMlePCS::<K>::prove(&ck, &mut t, &comm, &v, &blind, &point(m)).ok().unwrap();
    (vk, comm, eval, arg)
}

fn decide(
    vk: &HashMleVerifierKey<K>,
    comm: &HashMleCommitment<K>,
    m: usize,
    eval: &F,
    arg: &HashMleEvaluationArgument<K>,
) -> Result<(), SpartanError> {
    let mut t = Keccak256Transcript::<K>::new(b"l");
    HashMlePCS::<K>::verify(vk, &mut t, comm, &point(m), eval, arg)
}

#[test]
fn prover_and_verifier_leave_the_same_transcript() {
    let (ck, vk) = HashMlePCS::<K>::setup(b"l", 8);
    let blind = HashMlePCS::<K>::blind(&ck, 8);
    let v = poly(8);
    let comm = HashMlePCS::<K>::commit(&ck, &v, &blind, false).unwrap();
    let mut tp = Keccak256Transcript::<K>::new(b"l");
    let mut tv = Keccak256Transcript::<K>::new(b"l");
    let (eval, arg) =
        HashMlePCS::<K>::prove(&ck, &mut tp, &comm, &v, &blind, &point(3)).ok().unwrap();
    HashMlePCS::<K>::verify(&vk, &mut tv, &comm, &point(3), &eval, &arg).unwrap();
    assert_eq!(tp.squeeze(b"end").unwrap(), tv.squeeze(b"end").unwrap());
}

#[test]
fn refusals_of_the_keccak_scheme() {
    let m = 3;
    let (mut vk, comm, eval, mut arg) = honest(m);
    assert_eq!(decide(&vk, &comm, m, &eval, &arg), Ok(()));

    // another mode
    vk.zk_mode = ZkMode::LeakReducedStreaming;
    assert_eq!(decide(&vk, &comm, m, &eval, &arg), Err(SpartanError::InvalidPCS));
    vk.zk_mode = ZkMode::LeakReduced;

    // another arity
    vk.branching = 4;
    assert_eq!(decide(&vk, &comm, m, &eval, &arg), Err(SpartanError::InvalidPCS));
    vk.branching = 2;

    // wrong numbers of roots, rounds and samples
    let malformed = Err(SpartanError::InvalidInputLength {
        reason: "HashMlePCS::verify malformed argument".to_string(),
    });
    assert_eq!(decide(&vk, &comm, m + 1, &eval, &arg), malformed);
    let root = arg.layer_roots.pop().unwrap();
    assert_eq!(decide(&vk, &comm, m, &eval, &arg), malformed);
    arg.layer_roots.push(root);
    let round = arg.rounds.pop().unwrap();
    assert_eq!(decide(&vk, &comm, m, &eval, &arg), malformed);
    arg.rounds.push(round);
    let samples = arg.samples.pop().unwrap();
    assert_eq!(decide(&vk, &comm, m, &eval, &arg), malformed);
    arg.samples.push(samples);

    // a wrong number of samples in a round
    assert_eq!(K_SAMPLES_PER_ROUND, 48);
    let sample = arg.samples[1].pop().unwrap();
    assert_eq!(
        decide(&vk, &comm, m, &eval, &arg),
        Err(SpartanError::InvalidInputLength {
            reason: "HashMlePCS::verify round 1 has 47 samples, expected 48".to_string()
        })
    );
    arg.samples[1].push(sample);
    assert_eq!(decide(&vk, &comm, m, &eval, &arg), Ok(()));
}

#[test]
fn every_part_of_a_sample_is_checked() {
    let m = 3;
    let (vk, comm, eval, arg) = honest(m);
    let bad = Err(SpartanError::InvalidPCS);
    for part in 0..10 {
        let mut arg = HashMleEvaluationArgument::<K> {
            layer_roots: arg.layer_roots.clone(),
            rounds: arg.rounds.clone(),
            samples: arg.samples.clone(),
        };
        let s = &mut arg.samples[1][17];
        match part {
            0 => s.idx ^= 1,
            1 => s.a = s.a + F::one(),
            2 => s.b = s.b + F::one(),
            3 => s.next = s.next + F::one(),
            4 => s.path_a.leaf_index ^= 1,
            5 => s.path_b.leaf_index ^= 1,
            6 => s.path_next.leaf_index ^= 1,
            7 => s.path_a.siblings[0][3] ^= 1,
            8 => s.path_b.siblings[1][0] ^= 1,
            _ => s.path_next.siblings[0][31] ^= 1,
        }
        assert_eq!(decide(&vk, &comm, m, &eval, &arg), bad);
    }
}

#[test]
fn a_constant_accepts_any_value() {
    let (vk, comm, eval, arg) = honest(0);
    assert_eq!(eval, F::from(3));
    assert_eq!(arg.layer_roots.len(), 1);
    assert_eq!(decide(&vk, &comm, 0, &eval, &arg), Ok(()));
    assert_eq!(decide(&vk, &comm, 0, &F::from(4), &arg), Ok(()));
}

#[test]
fn reasons_name_the_lengths() {
    let (ck, _vk) = HashMlePCS::<K>::setup(b"l", 8);
    let blind = HashMleBlind::<K>::default();
    let v = poly(8);
    let comm = HashMlePCS::<K>::commit(&ck, &v, &blind, false).unwrap();
    let mut t = Keccak256Transcript::<K>::new(b"l");
    let err = HashMlePCS::<K>::prove(&ck, &mut t, &comm, &v, &blind, &point(4)).err().unwrap();
    assert_eq!(
        err,
        SpartanError::InvalidInputLength {
            reason: "HashMlePCS::prove expected 16 elements, got 8".to_string()
        }
    );
    let err = HashMlePCS::<K>::commit(&ck, &poly(3), &blind, false).unwrap_err();
    assert_eq!(
        err,
        SpartanError::InvalidInputLength {
            reason: "HashMlePCS: vector len must be power of two".to_string()
        }
    );
    assert!(HashMlePCS::<K>::commit(&ck, &[], &blind, false).is_err());

    let (ck, _vk) = HashMlePcsP3::<P>::setup(b"l", 8);
    let blind = HashMleBlind::<P>::default();
    let comm = HashMlePcsP3::<P>::commit(&ck, &v, &blind, false).unwrap();
    let mut t = Keccak256Transcript::<P>::new(b"l");
    let err = HashMlePcsP3::<P>::prove(&ck, &mut t, &comm, &v, &blind, &point(2)).err().unwrap();
    assert_eq!(
        err,
        SpartanError::InvalidInputLength {
            reason: "HashMlePCS_P3::prove expected 4 elements, got 8".to_string()
        }
    );
    let err = HashMlePcsP3::<P>::prove_streaming(&ck, &mut t, &comm, &v, &blind, &point(2))
        .err()
        .unwrap();
    assert_eq!(
        err,
        SpartanError::InvalidInputLength {
            reason: "HashMlePcsP3::prove_streaming expected 4 elements, got 8".to_string()
        }
    );
    let err = HashMlePcsP3::<P>::commit(&ck, &poly(3), &blind, false).unwrap_err();
    assert_eq!(
        err,
        SpartanError::InvalidInputLength {
            reason: "HashMlePCS_P3: vector len must be power of two".to_string()
        }
    );
}

#[test]
fn pieces_and_blinds() {
    let (ck, _vk) = HashMlePCS::<K>::setup(b"l", 4);
    let blind = HashMlePCS::<K>::blind(&ck, 4);
    let comm = HashMlePCS::<K>::commit(&ck, &poly(4), &blind, false).unwrap();
    let (part, back) = HashMlePCS::<K>::commit_partial(&ck, &poly(4), &blind, true).unwrap();
    assert_eq!(part, comm);
    assert_eq!(back, blind);
    assert_eq!(HashMlePCS::<K>::check_partial(&part, 4), Ok(()));
    assert_eq!(HashMlePCS::<K>::combine_partial(&[part.clone()]).unwrap(), comm);
    assert_eq!(
        HashMlePCS::<K>::combine_partial(&[part.clone(), part]).unwrap_err(),
        SpartanError::InvalidInputLength {
            reason: "HashMlePCS: combine_partial expects exactly one piece".to_string()
        }
    );
    assert_eq!(HashMlePCS::<K>::combine_blinds(&[blind.clone()]).unwrap(), blind);
    assert!(HashMlePCS::<K>::combine_blinds(&[]).is_err());
    assert_eq!(HashMlePCS::<K>::width(), 2);

    let (ck, _vk) = HashMlePcsP3::<P>::setup(b"l", 4);
    let blind = HashMlePcsP3::<P>::blind(&ck, 4);
    let (part, back) = HashMlePcsP3::<P>::commit_partial(&ck, &poly(4), &blind, true).unwrap();
    assert_eq!(HashMlePcsP3::<P>::check_partial(&part, 4), Ok(()));
    assert_eq!(
        HashMlePcsP3::<P>::combine_partial(&[]).unwrap_err(),
        SpartanError::InvalidInputLength {
            reason: "HashMlePCS_P3: combine_partial expects exactly one piece".to_string()
        }
    );
    assert_eq!(
        HashMlePcsP3::<P>::combine_blinds(&[back.clone(), back]).unwrap_err(),
        SpartanError::InvalidInputLength {
            reason: "HashMlePCS_P3: combine_blinds expects exactly one".to_string()
        }
    );
}

fn streaming_keys() -> (HashMleCommitmentKey<P>, HashMleVerifierKey<P>) {
    let ck = HashMleCommitmentKey {
        branching: 2,
        zk_mode: ZkMode::LeakReducedStreaming,
        _p: std::marker::PhantomData,
    };
    let vk = HashMleVerifierKey {
        branching: 2,
        zk_mode: ZkMode::LeakReducedStreaming,
        _p: std::marker::PhantomData,
    };
    (ck, vk)
}

#[test]
fn streaming_roundtrip() {
    let (ck, vk) = streaming_keys();
    let blind = HashMleBlind::<P>::default();
    for m in 0..=5usize {
        let v = poly(1 << m);
        let comm = HashMlePcsP3::<P>::commit(&ck, &v, &blind, false).unwrap();
        let mut tp = Keccak256Transcript::<P>::new(b"s");
        let mut tv = Keccak256Transcript::<P>::new(b"s");
        let (eval, mut arg) =
            HashMlePcsP3::<P>::prove(&ck, &mut tp, &comm, &v, &blind, &point(m)).ok().unwrap();
        HashMlePcsP3::<P>::verify(&vk, &mut tv, &comm, &point(m), &eval, &arg).unwrap();
        assert_eq!(tp.squeeze(b"end").unwrap(), tv.squeeze(b"end").unwrap());

        // the value does not depend on the mode
        let (ck2, _vk2) = HashMlePcsP3::<P>::setup(b"s", 1 << m);
        let comm2 = HashMlePcsP3::<P>::commit(&ck2, &v, &blind, false).unwrap();
        assert_eq!(comm2.base_root, comm.base_root);
        let mut t2 = Keccak256Transcript::<P>::new(b"s");
        let (eval2, _arg2) =
            HashMlePcsP3::<P>::prove(&ck2, &mut t2, &comm2, &v, &blind, &point(m)).ok().unwrap();
        assert_eq!(eval, eval2);
        assert_eq!(arg.layer_roots.len(), m + 1);
        if m == 0 {
            continue;
        }

        // a missing sample
        arg.samples[0].pop();
        let mut tv = Keccak256Transcript::<P>::new(b"s");
        assert_eq!(
            HashMlePcsP3::<P>::verify(&vk, &mut tv, &comm, &point(m), &eval, &arg),
            Err(SpartanError::InvalidPCS)
        );
    }
}

#[test]
fn a_streamed_constant_has_one_root() {
    let (ck, vk) = streaming_keys();
    let blind = HashMleBlind::<P>::default();
    let v = poly(1);
    let comm = HashMlePcsP3::<P>::commit(&ck, &v, &blind, false).unwrap();
    let mut tp = Keccak256Transcript::<P>::new(b"s");
    let (eval, arg) = HashMlePcsP3::<P>::prove(&ck, &mut tp, &comm, &v, &blind, &[]).ok().unwrap();
    assert_eq!(eval, F::from(3));
    assert_eq!(arg.layer_roots.len(), 1);
    assert_eq!(arg.layer_roots[0], comm.base_root);
    let mut tv = Keccak256Transcript::<P>::new(b"s");
    assert_eq!(HashMlePcsP3::<P>::verify(&vk, &mut tv, &comm, &[], &eval, &arg), Ok(()));
    assert_eq!(tp.squeeze(b"end").unwrap(), tv.squeeze(b"end").unwrap());
}

#[test]
fn drawn_positions_follow_the_challenges() {
    let mut t = Keccak256Transcript::<P>::new(b"d");
    let mut u = Keccak256Transcript::<P>::new(b"d");
    for bound in [1usize, 2, 3, 1000, 1 << 20] {
        let idx = draw_index::<P>(&mut t, b"i", bound).unwrap();
        let limit = GOLDILOCKS_MODULUS - GOLDILOCKS_MODULUS % bound as u64;
        let mut s = u.squeeze(b"i").unwrap().to_canonical_u64();
        while s >= limit {
            s = u.squeeze(b"i").unwrap().to_canonical_u64();
        }
        assert_eq!(idx as u64, s % bound as u64);
    }
    let _ = t.squeeze_n(b"c", 70000);
    assert_eq!(
        draw_index::<P>(&mut t, b"i", 2).unwrap_err(),
        SpartanError::InternalTranscriptError
    );
}
