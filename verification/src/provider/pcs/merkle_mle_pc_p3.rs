//! Hash-based multilinear commitment scheme over the Goldilocks field with Poseidon2 hashing.
//!
//! The scalars of the engine are Goldilocks elements; layers are folded and hashed in the field
//! of `p3_goldilocks`.
use super::hash_mle_backend::{same_bytes, BackendP3Poseidon2Goldi, MleBackend};
use super::layers::{
    self, check_rounds, check_samples, layer_tree, open_pair, open_samples, pow2_usize, root_bytes,
    tree_top, ArgumentModel, Schedule,
};
use super::merkle_mle_pc::{
    self, length_message, prove_layers, CommitmentModel, HashMleBlind, HashMleCommitment,
    HashMleCommitmentKey, HashMleEvaluationArgument, HashMleVerifierKey, MerkleRoot, MerkleTree,
    Round, SampleOpening, Unbiased, ZkMode, POLY_COM_LABEL, TAG_LAYER_ROOTS, TAG_ROOT_I,
    TAG_ROOT_IP1,
};
use super::merkle_tree::{self, is_power_of_two};
use crate::errors::{self, ErrorModel, SpartanError};
use crate::modular;
use crate::polys::multilinear::{self, copy_table, MultilinearPolynomial};
use crate::provider::goldi::F;
use crate::provider::keccak::{Keccak256Transcript, TranscriptModel};
use crate::traits::{self, Engine, PCSEngineTrait, ScalarField, TranscriptReprTrait};
use std::marker::PhantomData;
#[allow(unused_imports)]
use vstd::arithmetic::power2::*;
use vstd::prelude::*;
#[allow(unused_imports)]
use vstd::string::*;

verus! {

/// How a commitment's mode draws sample positions.
pub open spec fn mode_schedule(mode: ZkMode) -> Schedule {
    Schedule { unbiased: true, streaming: mode == ZkMode::LeakReducedStreaming }
}

/// What the verifier finds before it looks at the transcript.
pub open spec fn header_model<E: Engine>(
    vk: HashMleVerifierKey<E>,
    comm: CommitmentModel,
    m: nat,
    arg: ArgumentModel,
) -> Result<(), ErrorModel> {
    if vk.zk_mode != comm.mode {
        Err(ErrorModel::InvalidPCS)
    } else if !merkle_mle_pc::argument_shape(arg, m) {
        Err(ErrorModel::InvalidInputLength("HashMlePCS_P3::verify malformed argument"@))
    } else if vk.branching != 2 {
        Err(ErrorModel::InvalidPCS)
    } else {
        Ok(())
    }
}

/// What the verifier decides, and the transcript that is left.
pub open spec fn verify_model<E: Engine, B: MleBackend<E>>(
    vk: HashMleVerifierKey<E>,
    t: TranscriptModel,
    comm: CommitmentModel,
    point: Seq<int>,
    eval: int,
    arg: ArgumentModel,
) -> (Result<(), ErrorModel>, TranscriptModel) {
    let header = header_model::<E>(vk, comm, point.len(), arg);
    let s = mode_schedule(comm.mode);
    let start = merkle_mle_pc::bound_transcript(
        s,
        t,
        merkle_mle_pc::commitment_repr(comm),
        arg.layer_roots,
    );
    if header is Err {
        (header, t)
    } else if arg.layer_roots[0] != comm.base_root || !layers::rounds_ok::<E, B>(arg, point) {
        (Err(ErrorModel::InvalidPCS), start)
    } else {
        let w = layers::walk_layers::<E, B>(s, start, arg, point, point.len());
        if w.found is Err {
            (w.found, w.end)
        } else if merkle_mle_pc::final_ok(arg, eval) {
            (Ok(()), w.end)
        } else {
            (Err(ErrorModel::InvalidPCS), w.end)
        }
    }
}

/// Whether the verifier can decide: where it looks at samples, the positions of a layer are
/// machine words.
pub open spec fn verify_fits<E: Engine, B: MleBackend<E>>(
    vk: HashMleVerifierKey<E>,
    comm: CommitmentModel,
    point: Seq<int>,
    arg: ArgumentModel,
) -> bool {
    header_model::<E>(vk, comm, point.len(), arg) is Ok && arg.layer_roots[0] == comm.base_root
        && layers::rounds_ok::<E, B>(arg, point) ==> point.len() < usize::BITS
}

/// What the streaming prover makes.
pub open spec fn streaming_model<E: Engine, B: MleBackend<E>>(
    t: TranscriptModel,
    comm: Seq<u8>,
    poly: Seq<int>,
    point: Seq<int>,
) -> (Result<(int, ArgumentModel), ErrorModel>, TranscriptModel) {
    merkle_mle_pc::prove_model::<E, B>(
        mode_schedule(ZkMode::LeakReducedStreaming),
        "HashMlePcsP3::prove_streaming"@,
        t,
        comm,
        poly,
        point,
    )
}

/// The value between `a` and `b` at `r`, computed in the backend field.
fn fold_fe<E: Engine, B: MleBackend<E>>(a: B::FE, b: B::FE, r: B::FE) -> (v: B::FE)
    ensures
        B::fe_val(v) == multilinear::fold_pair(
            E::Scalar::modulus(),
            B::fe_val(a),
            B::fe_val(b),
            B::fe_val(r),
        ),
{
    let d = B::sub(b, a);
    let s = B::mul(r, d);
    proof {
        let p = E::Scalar::modulus();
        E::Scalar::lemma_modulus();
        let (x, y, z) = (B::fe_val(a), B::fe_val(b), B::fe_val(r));
        modular::lemma_cong_mod(p, y - x);
        modular::lemma_cong_mul(p, z, z, B::fe_val(d), y - x);
        modular::lemma_cong_mod(p, z * B::fe_val(d));
        modular::lemma_cong_add(p, x, x, B::fe_val(s), z * (y - x));
    }
    B::add(a, s)
}

/// Folds a layer in the backend field.
fn fold_layer_fe<E: Engine, B: MleBackend<E>>(v: &[B::FE], r: B::FE) -> (t: Vec<B::FE>)
    ensures
        layers::fe_vals::<E, B>(t@) == multilinear::fold(
            E::Scalar::modulus(),
            layers::fe_vals::<E, B>(v@),
            B::fe_val(r),
        ),
{
    let n: usize = v.len() / 2;
    let mut t: Vec<B::FE> = Vec::new();
    for i in 0..n
        invariant
            n == v@.len() / 2,
            t@.len() == i,
            forall|j: int|
                0 <= j < i ==> B::fe_val(#[trigger] t@[j]) == multilinear::fold_pair(
                    E::Scalar::modulus(),
                    B::fe_val(v@[j]),
                    B::fe_val(v@[j + n]),
                    B::fe_val(r),
                ),
    {
        t.push(fold_fe::<E, B>(v[i], v[i + n], r));
    }
    assert(layers::fe_vals::<E, B>(t@) =~= multilinear::fold(
        E::Scalar::modulus(),
        layers::fe_vals::<E, B>(v@),
        B::fe_val(r),
    ));
    t
}

/// Converts scalars to the backend field.
fn to_fe<E: Engine, B: MleBackend<E>>(v: &[E::Scalar]) -> (t: Vec<B::FE>)
    ensures
        layers::fe_vals::<E, B>(t@) == traits::vals(v@),
        t@.len() == v@.len(),
{
    let mut t: Vec<B::FE> = Vec::new();
    for i in 0..v.len()
        invariant
            t@.len() == i,
            forall|j: int| 0 <= j < i ==> B::fe_val(#[trigger] t@[j]) == v@[j].val(),
    {
        t.push(B::fe_from_ff(&v[i]));
    }
    assert(layers::fe_vals::<E, B>(t@) =~= traits::vals(v@));
    t
}

/// Hash-MLE PCS implementation using p3/Goldilocks + Poseidon2 backend
#[derive(Debug)]
pub struct HashMlePcsP3<E: Engine> {
    _p: PhantomData<E>,
}

impl<E: Engine<Scalar = F>> HashMlePcsP3<E> {
    /// What the prover makes of the polynomial `poly` and of `point`, and the transcript that is
    /// left: this scheme draws no randomness.
    pub open spec fn prove_of(
        ck: HashMleCommitmentKey<E>,
        t: TranscriptModel,
        comm: CommitmentModel,
        poly: Seq<int>,
        point: Seq<int>,
    ) -> (Result<(int, ArgumentModel), ErrorModel>, TranscriptModel) {
        match ck.zk_mode {
            ZkMode::LeakReducedStreaming => streaming_model::<E, BackendP3Poseidon2Goldi<E>>(
                t,
                merkle_mle_pc::commitment_repr(comm),
                poly,
                point,
            ),
            ZkMode::LeakReduced => merkle_mle_pc::prove_model::<E, BackendP3Poseidon2Goldi<E>>(
                mode_schedule(ZkMode::LeakReduced),
                "HashMlePCS_P3::prove"@,
                t,
                merkle_mle_pc::commitment_repr(comm),
                poly,
                point,
            ),
        }
    }
}

impl<E: Engine<Scalar = F>> PCSEngineTrait<E> for HashMlePcsP3<E> {
    type CommitmentKey = HashMleCommitmentKey<E>;

    type VerifierKey = HashMleVerifierKey<E>;

    type Commitment = HashMleCommitment<E>;

    type PartialCommitment = HashMleCommitment<E>;

    type Blind = HashMleBlind<E>;

    type EvaluationArgument = HashMleEvaluationArgument<E>;

    open spec fn width_of() -> nat {
        2
    }

    open spec fn commitment_bytes(comm: CommitmentModel) -> Seq<u8> {
        merkle_mle_pc::commitment_repr(comm)
    }

    open spec fn partial_bytes(comm: CommitmentModel) -> Seq<u8> {
        merkle_mle_pc::commitment_repr(comm)
    }

    proof fn lemma_commitment_bytes(comm: HashMleCommitment<E>) {
    }

    proof fn lemma_partial_bytes(comm: HashMleCommitment<E>) {
    }

    proof fn lemma_verify_defined(
        vk: HashMleVerifierKey<E>,
        comm: CommitmentModel,
        point: Seq<int>,
        arg: ArgumentModel,
    ) {
    }

    open spec fn are_keys(ck: HashMleCommitmentKey<E>, vk: HashMleVerifierKey<E>) -> bool {
        &&& ck.branching == 2
        &&& ck.zk_mode == ZkMode::LeakReduced
        &&& vk.branching == 2
        &&& vk.zk_mode == ZkMode::LeakReduced
    }

    open spec fn made_for(
        label: Seq<u8>,
        n: nat,
        ck: HashMleCommitmentKey<E>,
        vk: HashMleVerifierKey<E>,
    ) -> bool {
        // one pair of keys serves every label and every length
        Self::are_keys(ck, vk)
    }

    open spec fn is_blind(ck: HashMleCommitmentKey<E>, n: nat, blind: ()) -> bool {
        true
    }

    open spec fn commit_of(ck: HashMleCommitmentKey<E>, v: Seq<int>, blind: ()) -> Result<
        CommitmentModel,
        ErrorModel,
    > {
        merkle_mle_pc::commit_model::<E, BackendP3Poseidon2Goldi<E>>(
            ck.zk_mode,
            v,
            "HashMlePCS_P3: vector len must be power of two"@,
        )
    }

    open spec fn commit_partial_of(ck: HashMleCommitmentKey<E>, v: Seq<int>, blind: ()) -> Result<
        (CommitmentModel, ()),
        ErrorModel,
    > {
        match Self::commit_of(ck, v, blind) {
            Ok(c) => Ok((c, blind)),
            Err(e) => Err(e),
        }
    }

    open spec fn check_partial_of(comm: CommitmentModel, n: nat) -> Result<(), ErrorModel> {
        Ok(())
    }

    open spec fn combine_partial_of(parts: Seq<CommitmentModel>) -> Result<
        CommitmentModel,
        ErrorModel,
    > {
        merkle_mle_pc::combine_model(
            parts,
            "HashMlePCS_P3: combine_partial expects exactly one piece"@,
        )
    }

    open spec fn combine_blinds_of(blinds: Seq<()>) -> Result<(), ErrorModel> {
        merkle_mle_pc::combine_model(blinds, "HashMlePCS_P3: combine_blinds expects exactly one"@)
    }

    open spec fn proves(
        ck: HashMleCommitmentKey<E>,
        t: TranscriptModel,
        comm: CommitmentModel,
        poly: Seq<int>,
        blind: (),
        point: Seq<int>,
        outcome: Result<(int, ArgumentModel), ErrorModel>,
        end: TranscriptModel,
    ) -> bool {
        (outcome, end) == Self::prove_of(ck, t, comm, poly, point)
    }

    open spec fn verify_defined(
        vk: HashMleVerifierKey<E>,
        comm: CommitmentModel,
        point: Seq<int>,
        arg: ArgumentModel,
    ) -> bool {
        verify_fits::<E, BackendP3Poseidon2Goldi<E>>(vk, comm, point, arg)
    }

    open spec fn verify_of(
        vk: HashMleVerifierKey<E>,
        t: TranscriptModel,
        comm: CommitmentModel,
        point: Seq<int>,
        eval: int,
        arg: ArgumentModel,
    ) -> (Result<(), ErrorModel>, TranscriptModel) {
        verify_model::<E, BackendP3Poseidon2Goldi<E>>(vk, t, comm, point, eval, arg)
    }

    proof fn law_completeness(
        ck: HashMleCommitmentKey<E>,
        vk: HashMleVerifierKey<E>,
        t: TranscriptModel,
        comm: CommitmentModel,
        poly: Seq<int>,
        blind: (),
        point: Seq<int>,
        eval: int,
        arg: ArgumentModel,
        end: TranscriptModel,
    ) {
        let s = mode_schedule(ZkMode::LeakReduced);
        let roots = layers::chain_roots::<E, BackendP3Poseidon2Goldi<E>>(poly, point);
        let start = merkle_mle_pc::bound_transcript(s, t, merkle_mle_pc::commitment_repr(comm), roots);
        merkle_mle_pc::lemma_honest::<E, BackendP3Poseidon2Goldi<E>>(s, start, poly, point);
    }

    proof fn lemma_combine(
        ck: HashMleCommitmentKey<E>,
        pieces: Seq<Seq<int>>,
        blinds: Seq<()>,
        parts: Seq<CommitmentModel>,
        used: Seq<()>,
    ) {
        pieces.lemma_flatten_one_element();
        assert(Self::commit_partial_of(ck, pieces[0], blinds[0]) == Ok::<_, ErrorModel>(
            (parts[0], used[0]),
        ));
    }

    proof fn lemma_check_partial(
        ck: HashMleCommitmentKey<E>,
        v: Seq<int>,
        blind: (),
        comm: CommitmentModel,
        used: (),
    ) {
    }

    /// Arity of the multilinear domain (binary hypercube).
    /// For MLE commitments this MUST be 2.
    fn width() -> (r: usize) {
        2
    }

    fn setup(_label: &[u8], _n: usize) -> (r: (HashMleCommitmentKey<E>, HashMleVerifierKey<E>)) {
        let ck = HashMleCommitmentKey {
            branching: 2,
            zk_mode: ZkMode::LeakReduced,
            _p: PhantomData,
        };
        let vk = HashMleVerifierKey {
            branching: 2,
            zk_mode: ZkMode::LeakReduced,
            _p: PhantomData,
        };
        (ck, vk)
    }

    fn blind(_ck: &HashMleCommitmentKey<E>, _n: usize) -> (r: HashMleBlind<E>)
        ensures
            r == HashMleBlind::<E>::blank(),
    {
        HashMleBlind::default()
    }

    fn commit(
        ck: &HashMleCommitmentKey<E>,
        v_ff: &[E::Scalar],
        _blind: &HashMleBlind<E>,
        _is_small: bool,
    ) -> (r: Result<HashMleCommitment<E>, SpartanError>) {
        if !is_power_of_two(v_ff.len()) {
            return Err(
                SpartanError::InvalidInputLength {
                    reason: "HashMlePCS_P3: vector len must be power of two".to_string(),
                },
            );
        }
        // Convert leaves to p3 field and hash with Poseidon2
        let v = to_fe::<E, BackendP3Poseidon2Goldi<E>>(v_ff);
        let tree = layer_tree::<E, BackendP3Poseidon2Goldi<E>>(v.as_slice());
        let base_root = tree_top::<E, BackendP3Poseidon2Goldi<E>>(
            &tree,
            Ghost(traits::vals(v_ff@)),
        );
        Ok(HashMleCommitment { base_root, mode: ck.zk_mode, _p: PhantomData })
    }

    fn commit_partial(
        ck: &HashMleCommitmentKey<E>,
        v: &[E::Scalar],
        blind: &HashMleBlind<E>,
        is_small: bool,
    ) -> (r: Result<(HashMleCommitment<E>, HashMleBlind<E>), SpartanError>) {
        match Self::commit(ck, v, blind, is_small) {
            Ok(c) => Ok((c, blind.clone())),
            Err(e) => Err(e),
        }
    }

    fn check_partial(_comm: &HashMleCommitment<E>, _n: usize) -> (r: Result<(), SpartanError>) {
        Ok(())
    }

    fn copy_partial(comm: &HashMleCommitment<E>) -> (r: HashMleCommitment<E>) {
        comm.clone()
    }

    fn copy_blind(blind: &HashMleBlind<E>) -> (r: HashMleBlind<E>) {
        blind.clone()
    }

    fn combine_partial(partial_comms: &[HashMleCommitment<E>]) -> (r: Result<
        HashMleCommitment<E>,
        SpartanError,
    >) {
        if partial_comms.len() != 1 {
            return Err(
                SpartanError::InvalidInputLength {
                    reason: "HashMlePCS_P3: combine_partial expects exactly one piece".to_string(),
                },
            );
        }
        Ok(partial_comms[0].clone())
    }

    fn combine_blinds(blinds: &[HashMleBlind<E>]) -> (r: Result<HashMleBlind<E>, SpartanError>)
        ensures
            r matches Ok(blind) ==> blind == blinds@[0],
    {
        if blinds.len() != 1 {
            return Err(
                SpartanError::InvalidInputLength {
                    reason: "HashMlePCS_P3: combine_blinds expects exactly one".to_string(),
                },
            );
        }
        Ok(blinds[0].clone())
    }

    fn prove(
        ck: &HashMleCommitmentKey<E>,
        transcript: &mut Keccak256Transcript<E>,
        comm: &HashMleCommitment<E>,
        poly_ff: &[E::Scalar],
        blind: &HashMleBlind<E>,
        point_ff: &[E::Scalar],
    ) -> (r: Result<(E::Scalar, HashMleEvaluationArgument<E>), SpartanError>) {
        // Check if streaming mode is enabled
        if ck.zk_mode == ZkMode::LeakReducedStreaming {
            return HashMlePcsP3::<E>::prove_streaming(
                ck,
                transcript,
                comm,
                poly_ff,
                blind,
                point_ff,
            );
        }
        let n: usize = poly_ff.len();
        let m: usize = point_ff.len();
        if n != pow2_usize(m) {
            return Err(
                SpartanError::InvalidInputLength {
                    reason: length_message("HashMlePCS_P3::prove", m, n),
                },
            );
        }
        transcript.absorb(&POLY_COM_LABEL, comm);

        // Convert to p3 field for arithmetic
        let point = to_fe::<E, BackendP3Poseidon2Goldi<E>>(point_ff);
        let ghost v = traits::vals(poly_ff@);
        let ghost pt = traits::vals(point_ff@);
        let ghost p = E::Scalar::modulus();

        // Fold layers in p3 field
        let mut all_layers: Vec<Vec<<BackendP3Poseidon2Goldi<E> as MleBackend<E>>::FE>> =
            Vec::new();
        all_layers.push(to_fe::<E, BackendP3Poseidon2Goldi<E>>(poly_ff));
        for i in 0..m
            invariant
                m == point@.len(),
                m == pt.len(),
                pt == layers::fe_vals::<E, BackendP3Poseidon2Goldi<E>>(point@),
                p == E::Scalar::modulus(),
                all_layers@.len() == i + 1,
                forall|k: int|
                    0 <= k <= i ==> layers::fe_vals::<E, BackendP3Poseidon2Goldi<E>>(
                        (#[trigger] all_layers@[k])@,
                    ) == multilinear::layer(p, v, pt, k as nat),
        {
            assert(pt[i as int] == BackendP3Poseidon2Goldi::<E>::fe_val(point@[i as int]));
            let next = fold_layer_fe::<E, BackendP3Poseidon2Goldi<E>>(
                all_layers[i].as_slice(),
                point[i],
            );
            all_layers.push(next);
        }

        // Final eval is the single word at the top
        proof {
            E::Scalar::lemma_modulus();
            multilinear::lemma_vals_in_field(poly_ff@);
            multilinear::law_last_layer_is_evaluation(p, v, pt);
            let top = all_layers@[m as int]@;
            assert(layers::fe_vals::<E, BackendP3Poseidon2Goldi<E>>(top).len() == top.len());
        }
        let eval = BackendP3Poseidon2Goldi::<E>::fe_to_ff(&all_layers[m][0]);
        prove_layers::<E, BackendP3Poseidon2Goldi<E>, Unbiased>(
            transcript,
            &all_layers,
            eval,
            Ghost(v),
            Ghost(pt),
        )
    }

    fn verify(
        vk: &HashMleVerifierKey<E>,
        transcript: &mut Keccak256Transcript<E>,
        comm: &HashMleCommitment<E>,
        point: &[E::Scalar],
        eval: &E::Scalar,
        arg: &HashMleEvaluationArgument<E>,
    ) -> (r: Result<(), SpartanError>) {
        if vk.zk_mode != comm.mode {
            return Err(SpartanError::InvalidPCS);
        }
        let m: usize = point.len();
        if arg.rounds.len() != m || arg.samples.len() != m || arg.layer_roots.len() == 0
            || arg.layer_roots.len() - 1 != m {
            return Err(
                SpartanError::InvalidInputLength {
                    reason: "HashMlePCS_P3::verify malformed argument".to_string(),
                },
            );
        }
        // This PCS is binary Merkle
        if vk.branching != 2 {
            return Err(SpartanError::InvalidPCS);
        }
        transcript.absorb(&POLY_COM_LABEL, comm);

        // Choose transcript schedule based on mode
        let streaming = match comm.mode {
            ZkMode::LeakReduced => {
                transcript.absorb_bytes(&TAG_LAYER_ROOTS, root_bytes(&arg.layer_roots).as_slice());
                false
            },
            ZkMode::LeakReducedStreaming => {
                // no global absorb; the layers are absorbed one by one with their samples
                true
            },
        };

        // Layer 0 root must match the commitment's root
        if !same_bytes(&arg.layer_roots[0].0, &comm.base_root.0) {
            return Err(SpartanError::InvalidPCS);
        }
        // Per round: check memberships and fold equality using p3 backend
        if !check_rounds::<E, BackendP3Poseidon2Goldi<E>>(arg, point) {
            return Err(SpartanError::InvalidPCS);
        }
        // Verify random sample openings to link layers i -> i+1
        match check_samples::<E, BackendP3Poseidon2Goldi<E>, Unbiased>(
            transcript,
            arg,
            point,
            streaming,
        ) {
            Ok(()) => {},
            Err(e) => return Err(e),
        }
        // Final check for LeakReduced mode
        if m > 0 && !arg.rounds[m - 1].next.same(eval) {
            return Err(SpartanError::InvalidPCS);
        }
        Ok(())
    }
}

/// Additional methods for HashMlePcsP3
impl<E: Engine<Scalar = F>> HashMlePcsP3<E> {
    /// Streaming prove method for LeakReducedStreaming mode
    /// Processes layers pair-wise to reduce memory footprint
    pub fn prove_streaming(
        _ck: &HashMleCommitmentKey<E>,
        transcript: &mut Keccak256Transcript<E>,
        comm: &HashMleCommitment<E>,
        poly_ff: &[E::Scalar],
        _blind: &HashMleBlind<E>,
        point_ff: &[E::Scalar],
    ) -> (r: Result<(E::Scalar, HashMleEvaluationArgument<E>), SpartanError>)
        requires
            point_ff@.len() < usize::BITS,
        ensures
            ({
                let (proved, end) = streaming_model::<E, BackendP3Poseidon2Goldi<E>>(
                    old(transcript)@,
                    merkle_mle_pc::commitment_repr(comm@),
                    traits::vals(poly_ff@),
                    traits::vals(point_ff@),
                );
                &&& final(transcript)@ == end
                &&& match r {
                    Ok((eval, arg)) => proved == Ok::<(int, ArgumentModel), ErrorModel>(
                        (eval.val(), arg@),
                    ),
                    Err(e) => proved == Err::<(int, ArgumentModel), ErrorModel>(e@),
                }
            }),
    {
        let n: usize = poly_ff.len();
        let m: usize = point_ff.len();
        if n != pow2_usize(m) {
            return Err(
                SpartanError::InvalidInputLength {
                    reason: length_message("HashMlePcsP3::prove_streaming", m, n),
                },
            );
        }
        transcript.absorb(&POLY_COM_LABEL, comm);
        let ghost start = transcript@;

        // Convert to p3 field
        let point = to_fe::<E, BackendP3Poseidon2Goldi<E>>(point_ff);
        let ghost v = traits::vals(poly_ff@);
        let ghost pt = traits::vals(point_ff@);
        let ghost p = E::Scalar::modulus();
        let ghost s = mode_schedule(ZkMode::LeakReducedStreaming);
        let ghost roots = layers::chain_roots::<E, BackendP3Poseidon2Goldi<E>>(v, pt);

        // Use the polynomial's own evaluation method to get the correct result
        let mle = MultilinearPolynomial::new(copy_table(poly_ff));
        let eval = mle.evaluate(point_ff);

        let mut layer_roots: Vec<MerkleRoot> = Vec::new();
        let mut rounds: Vec<Round<E>> = Vec::new();
        let mut samples: Vec<Vec<SampleOpening<E>>> = Vec::new();

        // Start with the base layer
        let mut current_layer = to_fe::<E, BackendP3Poseidon2Goldi<E>>(poly_ff);

        // Process each layer pair (i, i+1) for streaming
        for i in 0..m
            invariant
                m == point@.len(),
                m == pt.len(),
                v.len() == pow2(pt.len()),
                pt == layers::fe_vals::<E, BackendP3Poseidon2Goldi<E>>(point@),
                p == E::Scalar::modulus(),
                s == mode_schedule(ZkMode::LeakReducedStreaming),
                roots == layers::chain_roots::<E, BackendP3Poseidon2Goldi<E>>(v, pt),
                layers::fe_vals::<E, BackendP3Poseidon2Goldi<E>>(current_layer@)
                    == multilinear::layer(p, v, pt, i as nat),
                merkle_mle_pc::roots_view(layer_roots@) == if i == 0 {
                    Seq::empty()
                } else {
                    roots.take(i + 1)
                },
                rounds@.len() == i,
                forall|k: int|
                    0 <= k < i ==> (#[trigger] rounds@[k])@ == layers::chain_pair::<
                        E,
                        BackendP3Poseidon2Goldi<E>,
                    >(v, pt, k, 0),
                start == old(transcript)@.absorb(POLY_COM_LABEL@, merkle_mle_pc::commitment_repr(comm@)),
                v == traits::vals(poly_ff@),
                pt == traits::vals(point_ff@),
                ({
                    let d = layers::draw_layers::<E>(s, start, roots, m as nat, i as nat);
                    &&& d.complete
                    &&& d.positions.len() == i
                    &&& transcript@ == d.end
                    &&& samples@.len() == i
                    &&& forall|k: int|
                        0 <= k < i ==> merkle_mle_pc::samples_view((#[trigger] samples@[k])@)
                            == layers::samples_at::<E, BackendP3Poseidon2Goldi<E>>(
                            multilinear::layer(p, v, pt, k as nat),
                            multilinear::layer(p, v, pt, (k + 1) as nat),
                            d.positions[k],
                        )
                }),
        {
            let ghost before = layers::draw_layers::<E>(s, start, roots, m as nat, i as nat);
            let ghost after = layers::draw_layers::<E>(s, start, roots, m as nat, (i + 1) as nat);
            let ghost cur = multilinear::layer(p, v, pt, i as nat);
            let ghost nxt = multilinear::layer(p, v, pt, (i + 1) as nat);
            proof {
                layers::lemma_layer_len(p, v, pt, i as nat);
                layers::lemma_layer_len(p, v, pt, (i + 1) as nat);
                layers::lemma_pow2_shape((m - i) as nat);
                layers::lemma_pow2_shape((m - i - 1) as nat);
                lemma_pow2_unfold((m - i) as nat);
                assert(current_layer@.len() == cur.len());
                assert(pt[i as int] == BackendP3Poseidon2Goldi::<E>::fe_val(point@[i as int]));
            }

            // Build tree for current layer
            let current_tree = layer_tree::<E, BackendP3Poseidon2Goldi<E>>(
                current_layer.as_slice(),
            );
            let current_root = tree_top::<E, BackendP3Poseidon2Goldi<E>>(
                &current_tree,
                Ghost(cur),
            );

            // Fold to next layer using p3 field arithmetic
            let next_layer = fold_layer_fe::<E, BackendP3Poseidon2Goldi<E>>(
                current_layer.as_slice(),
                point[i],
            );
            assert(layers::fe_vals::<E, BackendP3Poseidon2Goldi<E>>(next_layer@) == nxt);
            assert(next_layer@.len() == nxt.len());

            // Build tree for next layer
            let next_tree = layer_tree::<E, BackendP3Poseidon2Goldi<E>>(next_layer.as_slice());
            let next_root = tree_top::<E, BackendP3Poseidon2Goldi<E>>(&next_tree, Ghost(nxt));

            // Store roots for this layer pair
            let ghost old_roots = merkle_mle_pc::roots_view(layer_roots@);
            if i == 0 {
                layer_roots.push(current_root);
            }
            layer_roots.push(next_root);
            assert(current_root@ == roots[i as int]);
            assert(next_root@ == roots[i + 1]);
            proof {
                assert(roots.take(i + 2) =~= roots.take(i + 1).push(roots[i + 1]));
                if i == 0 {
                    assert(roots.take(1) =~= Seq::empty().push(roots[0]));
                }
                assert(merkle_mle_pc::roots_view(layer_roots@) =~= (if i == 0 {
                    old_roots.push(roots[0])
                } else {
                    old_roots
                }).push(roots[i + 1]));
            }

            // Absorb per-layer tags for streaming schedule
            transcript.absorb(&TAG_ROOT_I, &current_root);
            transcript.absorb(&TAG_ROOT_IP1, &next_root);

            // Generate samples for this layer pair
            let opened = open_samples::<E, BackendP3Poseidon2Goldi<E>, Unbiased>(
                transcript,
                current_layer.as_slice(),
                next_layer.as_slice(),
                &current_tree,
                &next_tree,
            );
            match opened {
                Ok(round_samples) => {
                    samples.push(round_samples);
                },
                Err(e) => {
                    proof {
                        layers::lemma_draw_layers_stops::<E>(
                            s,
                            start,
                            roots,
                            m as nat,
                            (i + 1) as nat,
                            m as nat,
                        );
                    }
                    return Err(e);
                },
            }
            proof {
                assert(after.positions.drop_last() =~= before.positions);
                assert forall|k: int| 0 <= k < i + 1 implies merkle_mle_pc::samples_view(
                    (#[trigger] samples@[k])@,
                ) == layers::samples_at::<E, BackendP3Poseidon2Goldi<E>>(
                    multilinear::layer(p, v, pt, k as nat),
                    multilinear::layer(p, v, pt, (k + 1) as nat),
                    after.positions[k],
                ) by {
                    if k < i {
                        assert(after.positions[k] == before.positions[k]);
                    }
                }
            }
            rounds.push(
                open_pair::<E, BackendP3Poseidon2Goldi<E>>(
                    current_layer.as_slice(),
                    next_layer.as_slice(),
                    &current_tree,
                    &next_tree,
                    0,
                ),
            );

            // Move to next iteration (discard current layer tree to save memory)
            current_layer = next_layer;
        }

        // A table of one value has a single layer, which no pair has covered
        if m == 0 {
            proof {
                layers::lemma_pow2_shape(0);
                assert(current_layer@.len() == v.len());
            }
            let only_tree = layer_tree::<E, BackendP3Poseidon2Goldi<E>>(current_layer.as_slice());
            layer_roots.push(tree_top::<E, BackendP3Poseidon2Goldi<E>>(&only_tree, Ghost(v)));
            assert(merkle_mle_pc::roots_view(layer_roots@) =~= roots.take(1));
        }
        let ghost d = layers::draw_layers::<E>(s, start, roots, m as nat, m as nat);
        let arg = HashMleEvaluationArgument { layer_roots, rounds, samples };
        proof {
            let goal = layers::chain_argument::<E, BackendP3Poseidon2Goldi<E>>(
                v,
                pt,
                d.positions,
            );
            assert(arg@.rounds =~= goal.rounds);
            assert(roots.take(m + 1) =~= roots);
            assert forall|k: int| 0 <= k < m implies arg@.samples[k] == goal.samples[k] by {
                assert(merkle_mle_pc::samples_view(arg.samples@[k]@) =~= goal.samples[k]);
            }
            assert(arg@.samples =~= goal.samples);
        }
        Ok((eval, arg))
    }
}

/// Completeness of the streaming mode: what the streaming prover makes for a committed polynomial,
/// the verifier accepts from the same transcript, which it leaves as the prover does.
pub proof fn law_streaming_completeness<E: Engine<Scalar = F>>(
    ck: HashMleCommitmentKey<E>,
    vk: HashMleVerifierKey<E>,
    t: TranscriptModel,
    comm: CommitmentModel,
    poly: Seq<int>,
    point: Seq<int>,
)
    requires
        ck.zk_mode == ZkMode::LeakReducedStreaming,
        vk.zk_mode == ZkMode::LeakReducedStreaming,
        vk.branching == 2,
        HashMlePcsP3::<E>::commit_of(ck, poly, ()) == Ok::<_, ErrorModel>(comm),
        poly.len() == pow2(point.len()),
        point.len() < usize::BITS,
        multilinear::in_field(E::Scalar::modulus(), poly),
        HashMlePcsP3::<E>::prove_of(ck, t, comm, poly, point).0 is Ok,
    ensures
        ({
            let (proved, end) = HashMlePcsP3::<E>::prove_of(ck, t, comm, poly, point);
            let (eval, arg) = proved->Ok_0;
            &&& eval == multilinear::mle_eval(E::Scalar::modulus(), poly, point)
            &&& HashMlePcsP3::<E>::verify_defined(vk, comm, point, arg)
            &&& HashMlePcsP3::<E>::verify_of(vk, t, comm, point, eval, arg) == (
                Ok::<(), ErrorModel>(()),
                end,
            )
        }),
{
    let s = mode_schedule(ZkMode::LeakReducedStreaming);
    let roots = layers::chain_roots::<E, BackendP3Poseidon2Goldi<E>>(poly, point);
    let start = merkle_mle_pc::bound_transcript(s, t, merkle_mle_pc::commitment_repr(comm), roots);
    merkle_mle_pc::lemma_honest::<E, BackendP3Poseidon2Goldi<E>>(s, start, poly, point);
}

/// Acceptance: the verifier accepts exactly if the argument has the right lengths, starts from the
/// committed root, opens every drawn position and position zero of every layer as it must be, and
/// leads to the claimed value.
pub proof fn law_verify_accepts_iff<E: Engine<Scalar = F>>(
    vk: HashMleVerifierKey<E>,
    t: TranscriptModel,
    comm: CommitmentModel,
    point: Seq<int>,
    eval: int,
    arg: ArgumentModel,
)
    ensures
        ({
            let m = point.len();
            let s = mode_schedule(comm.mode);
            let start = merkle_mle_pc::bound_transcript(
                s,
                t,
                merkle_mle_pc::commitment_repr(comm),
                arg.layer_roots,
            );
            let d = layers::draw_layers::<E>(s, start, arg.layer_roots, m, m);
            let (found, end) = verify_model::<E, BackendP3Poseidon2Goldi<E>>(
                vk,
                t,
                comm,
                point,
                eval,
                arg,
            );
            &&& found is Ok <==> {
                &&& vk.zk_mode == comm.mode
                &&& vk.branching == 2
                &&& merkle_mle_pc::argument_shape(arg, m)
                &&& arg.layer_roots[0] == comm.base_root
                &&& d.complete
                &&& forall|k: int|
                    0 <= k < m ==> layers::layer_samples_ok::<E, BackendP3Poseidon2Goldi<E>>(
                        arg,
                        point,
                        k,
                        #[trigger] d.positions[k],
                    )
                &&& layers::rounds_ok::<E, BackendP3Poseidon2Goldi<E>>(arg, point)
                &&& merkle_mle_pc::final_ok(arg, eval)
            }
            &&& found is Ok ==> end == d.end
        }),
{
    let s = mode_schedule(comm.mode);
    let start = merkle_mle_pc::bound_transcript(
        s,
        t,
        merkle_mle_pc::commitment_repr(comm),
        arg.layer_roots,
    );
    layers::law_walk_accepts_iff::<E, BackendP3Poseidon2Goldi<E>>(
        s,
        start,
        arg,
        point,
        point.len(),
    );
}

} // verus!
