//! Hash-based multilinear polynomial commitment scheme.
//!
//! A Merkle tree commits to the values of a multilinear polynomial. An evaluation argument reveals
//! a logarithmic number of values of the layers that lead to the evaluation.
pub use super::hash_mle_backend::Digest32;
pub use super::merkle_tree::{leaf_digest, node_digest, MerklePath, MerkleRoot, MerkleTree};
use super::hash_mle_backend::{self, same_bytes, BackendFfKeccak, MleBackend};
use super::layers::{
    self, check_rounds, check_samples, layer_tree, open_pair, open_samples, pow2_usize, root_bytes,
    tree_top, ArgumentModel, PairModel, SampleModel, SampleSource, Schedule,
};
use super::merkle_tree::{self, is_power_of_two};
use crate::errors::{self, push_decimal, ErrorModel, SpartanError};
use crate::polys::multilinear::{self, copy_table, fold_table, MultilinearPolynomial};
use crate::provider::goldi::F;
use crate::provider::keccak::{Keccak256Transcript, TranscriptModel};
use crate::traits::{self, Engine, PCSEngineTrait, ScalarField, TranscriptReprTrait};
use std::marker::PhantomData;
#[allow(unused_imports)]
use vstd::arithmetic::div_mod::*;
#[allow(unused_imports)]
use vstd::arithmetic::power2::*;
use vstd::prelude::*;
#[allow(unused_imports)]
use vstd::string::*;

verus! {

/// Domain tag of the mode in a commitment ("mle/mode").
pub const TAG_MODE: [u8; 8] = [109, 108, 101, 47, 109, 111, 100, 101];

/// Tag used for layer roots in the transcript ("mle/layer_roots").
pub const TAG_LAYER_ROOTS: [u8; 15] = [
    109, 108, 101, 47, 108, 97, 121, 101, 114, 95, 114, 111, 111, 116, 115,
];

/// Tag used for the root of a layer in the streaming schedule ("mle/root_i").
pub const TAG_ROOT_I: [u8; 10] = [109, 108, 101, 47, 114, 111, 111, 116, 95, 105];

/// Tag used for the root of the layer behind it ("mle/root_ip1").
pub const TAG_ROOT_IP1: [u8; 12] = [109, 108, 101, 47, 114, 111, 111, 116, 95, 105, 112, 49];

/// Label of a commitment in the transcript ("poly_com").
pub const POLY_COM_LABEL: [u8; 8] = [112, 111, 108, 121, 95, 99, 111, 109];

/// Label of the challenges that give sample positions ("mle/fold_sample").
pub const FOLD_SAMPLE_LABEL: [u8; 15] = [
    109, 108, 101, 47, 102, 111, 108, 100, 95, 115, 97, 109, 112, 108, 101,
];

/// Number of sample checks per round for layer consistency
pub const K_SAMPLES_PER_ROUND: usize = 48;

/// Zero-knowledge mode for the Hash-MLE PCS
#[derive(Clone, Copy, Debug, PartialEq, Eq, Structural)]
pub enum ZkMode {
    /// Leak-reduced mode: reveals O(m) dense fold values during evaluation
    LeakReduced,
    /// Leak-reduced mode whose transcript binds the layers pair by pair
    LeakReducedStreaming,
}

/// The byte that stands for a mode.
pub open spec fn mode_byte(mode: ZkMode) -> u8 {
    match mode {
        ZkMode::LeakReduced => 0,
        ZkMode::LeakReducedStreaming => 1,
    }
}

/// Commitment key for Hash-MLE PCS
#[derive(Debug)]
pub struct HashMleCommitmentKey<E: Engine> {
    /// Merkle arity (currently fixed to 2)
    pub branching: u8,
    /// ZK mode baked into this key
    pub zk_mode: ZkMode,
    /// Phantom data for the engine type
    pub _p: PhantomData<E>,
}

/// Verifier key for Hash-MLE PCS
#[derive(Debug)]
pub struct HashMleVerifierKey<E: Engine> {
    /// Branching factor of the Merkle tree
    pub branching: u8,
    /// Zero-knowledge mode
    pub zk_mode: ZkMode,
    /// Phantom data for the engine type
    pub _p: PhantomData<E>,
}

impl<E: Engine> TranscriptReprTrait for HashMleVerifierKey<E> {
    open spec fn transcript_repr(&self) -> Seq<u8> {
        seq![self.branching, mode_byte(self.zk_mode)]
    }

    fn to_transcript_bytes(&self) -> Vec<u8> {
        let mut out: Vec<u8> = Vec::new();
        out.push(self.branching);
        out.push(
            match self.zk_mode {
                ZkMode::LeakReduced => 0u8,
                ZkMode::LeakReducedStreaming => 1u8,
            },
        );
        assert(out@ =~= self.transcript_repr());
        out
    }
}

/// Commitment for Hash-MLE PCS
#[derive(Debug, PartialEq, Eq)]
pub struct HashMleCommitment<E: Engine> {
    /// Root of the base vector commitment (unmasked v in LeakReduced mode)
    pub base_root: MerkleRoot,
    /// Mode encoded into the commitment to avoid misuse across modes
    pub mode: ZkMode,
    /// Phantom data for the engine type
    pub _p: PhantomData<E>,
}

/// What a commitment says.
pub struct CommitmentModel {
    /// The root of the tree over the committed values.
    pub base_root: Seq<u8>,
    /// The mode.
    pub mode: ZkMode,
}

impl<E: Engine> View for HashMleCommitment<E> {
    type V = CommitmentModel;

    open spec fn view(&self) -> CommitmentModel {
        CommitmentModel { base_root: self.base_root@, mode: self.mode }
    }
}

impl<E: Engine> Clone for HashMleCommitment<E> {
    fn clone(&self) -> (r: Self)
        ensures
            r == *self,
    {
        HashMleCommitment { base_root: self.base_root, mode: self.mode, _p: PhantomData }
    }
}

/// The bytes that stand for a commitment in a transcript.
pub open spec fn commitment_repr(c: CommitmentModel) -> Seq<u8> {
    TAG_MODE@.push(mode_byte(c.mode)) + c.base_root
}

impl<E: Engine> TranscriptReprTrait for HashMleCommitment<E> {
    open spec fn transcript_repr(&self) -> Seq<u8> {
        commitment_repr(self@)
    }

    fn to_transcript_bytes(&self) -> Vec<u8> {
        let mut out: Vec<u8> = Vec::new();
        out.extend_from_slice(&TAG_MODE);
        out.push(
            match self.mode {
                ZkMode::LeakReduced => 0u8,
                ZkMode::LeakReducedStreaming => 1u8,
            },
        );
        out.extend_from_slice(&self.base_root.0);
        assert(out@ =~= commitment_repr(self@));
        out
    }
}

/// Blinding factor for Hash-MLE PCS
#[derive(Debug, PartialEq, Eq)]
pub struct HashMleBlind<E: Engine> {
    _phantom: PhantomData<E>,
}

impl<E: Engine> HashMleBlind<E> {
    /// The default blind. It hides nothing, and there is no other one.
    pub closed spec fn blank() -> Self {
        HashMleBlind { _phantom: PhantomData }
    }
}

impl<E: Engine> View for HashMleBlind<E> {
    type V = ();

    open spec fn view(&self) -> () {
        ()
    }
}

impl<E: Engine> Default for HashMleBlind<E> {
    fn default() -> (r: Self)
        ensures
            r == HashMleBlind::<E>::blank(),
    {
        HashMleBlind { _phantom: PhantomData }
    }
}

impl<E: Engine> Clone for HashMleBlind<E> {
    fn clone(&self) -> (r: Self)
        ensures
            r == *self,
    {
        HashMleBlind { _phantom: PhantomData }
    }
}

/// A single round of the Hash-MLE evaluation argument
pub struct Round<E: Engine> {
    /// Even evaluation value
    pub a: E::Scalar,
    /// Odd evaluation value
    pub b: E::Scalar,
    /// Merkle path for even evaluation
    pub path_a: MerklePath,
    /// Merkle path for odd evaluation
    pub path_b: MerklePath,
    /// Folded value for next layer (equals (1-r_i)*a + r_i*b)
    pub next: E::Scalar,
    /// Merkle path for the next layer
    pub path_next: MerklePath,
}

impl<E: Engine> View for Round<E> {
    type V = PairModel;

    open spec fn view(&self) -> PairModel {
        PairModel {
            a: self.a.val(),
            b: self.b.val(),
            next: self.next.val(),
            path_a: self.path_a@,
            path_b: self.path_b@,
            path_next: self.path_next@,
        }
    }
}

impl<E: Engine> Clone for Round<E> {
    fn clone(&self) -> (r: Self)
        ensures
            r@ == self@,
    {
        Round {
            a: self.a,
            b: self.b,
            path_a: self.path_a.clone(),
            path_b: self.path_b.clone(),
            next: self.next,
            path_next: self.path_next.clone(),
        }
    }
}

/// Sample opening for layer consistency checks
/// This links layer i to layer i+1 at a random position to prevent forged layers
pub struct SampleOpening<E: Engine> {
    /// Random index in the layer (< 2^{m-i-1})
    pub idx: u64,
    /// Value at position idx in layer i
    pub a: E::Scalar,
    /// Value at position idx + stride in layer i
    pub b: E::Scalar,
    /// Folded value at position idx in layer i+1
    pub next: E::Scalar,
    /// Merkle path for a
    pub path_a: MerklePath,
    /// Merkle path for b
    pub path_b: MerklePath,
    /// Merkle path for next
    pub path_next: MerklePath,
}

impl<E: Engine> View for SampleOpening<E> {
    type V = SampleModel;

    open spec fn view(&self) -> SampleModel {
        SampleModel {
            idx: self.idx as int,
            pair: PairModel {
                a: self.a.val(),
                b: self.b.val(),
                next: self.next.val(),
                path_a: self.path_a@,
                path_b: self.path_b@,
                path_next: self.path_next@,
            },
        }
    }
}

impl<E: Engine> Clone for SampleOpening<E> {
    fn clone(&self) -> (r: Self)
        ensures
            r@ == self@,
    {
        SampleOpening {
            idx: self.idx,
            a: self.a,
            b: self.b,
            next: self.next,
            path_a: self.path_a.clone(),
            path_b: self.path_b.clone(),
            path_next: self.path_next.clone(),
        }
    }
}

/// Evaluation argument: per-round pair openings and the next-layer single opening.
pub struct HashMleEvaluationArgument<E: Engine> {
    /// Layer roots carried here to avoid bloating the commitment
    pub layer_roots: Vec<MerkleRoot>,
    /// The openings at position zero, for each round
    pub rounds: Vec<Round<E>>,
    /// Sample openings to link consecutive layers (prevents forged layer attacks)
    pub samples: Vec<Vec<SampleOpening<E>>>,
}

/// What a sequence of roots says.
pub open spec fn roots_view(s: Seq<MerkleRoot>) -> Seq<Seq<u8>> {
    s.map_values(|r: MerkleRoot| r@)
}

/// What a sequence of rounds says.
pub open spec fn rounds_view<E: Engine>(s: Seq<Round<E>>) -> Seq<PairModel> {
    s.map_values(|r: Round<E>| r@)
}

/// What the samples of a layer say.
pub open spec fn samples_view<E: Engine>(s: Seq<SampleOpening<E>>) -> Seq<SampleModel> {
    s.map_values(|r: SampleOpening<E>| r@)
}

/// What the samples of all layers say.
pub open spec fn layers_view<E: Engine>(s: Seq<Vec<SampleOpening<E>>>) -> Seq<Seq<SampleModel>> {
    s.map_values(|r: Vec<SampleOpening<E>>| samples_view(r@))
}

impl<E: Engine> View for HashMleEvaluationArgument<E> {
    type V = ArgumentModel;

    open spec fn view(&self) -> ArgumentModel {
        ArgumentModel {
            layer_roots: roots_view(self.layer_roots@),
            rounds: rounds_view(self.rounds@),
            samples: layers_view(self.samples@),
        }
    }
}

/// Draws an integer in `0..bound` from the transcript without bias.
///
/// Challenges at or above the largest multiple of `bound` are thrown away, so that every integer
/// below `bound` stands for the same number of challenges.
pub fn draw_index<E: Engine<Scalar = F>>(
    transcript: &mut Keccak256Transcript<E>,
    label: &[u8],
    bound: usize,
) -> (r: Result<usize, SpartanError>)
    requires
        bound > 0,
    ensures
        ({
            let (idx, end) = layers::draw_unbiased::<E>(old(transcript)@, label@, bound as int);
            &&& final(transcript)@ == end
            &&& r is Ok <==> idx is Some
            &&& r matches Ok(x) ==> idx == Some(x as int)
            &&& r matches Err(e) ==> e@ == ErrorModel::InternalTranscriptError
        }),
{
    let p: u64 = crate::provider::goldi::GOLDILOCKS_MODULUS;
    let b: u64 = bound as u64;
    proof {
        lemma_mod_decreases(p as nat, b as nat);
    }
    let zone: u64 = p - p % b;
    let ghost start = transcript@;
    loop
        invariant
            bound > 0,
            b == bound,
            p == E::Scalar::modulus(),
            zone == p - p % b,
            layers::draw_unbiased::<E>(start, label@, bound as int) == layers::draw_unbiased::<E>(
                transcript@,
                label@,
                bound as int,
            ),
            start == old(transcript)@,
        decreases u16::MAX - transcript@.round,
    {
        let s = match transcript.squeeze(label) {
            Ok(s) => s,
            Err(e) => return Err(e),
        };
        let x: u64 = s.to_canonical_u64();
        if x < zone {
            return Ok((x % b) as usize);
        }
    }
}

/// A draw without bias gives every integer below `bound` the same number of challenges: those
/// that stand for `i` are `k * bound + i` for every `k` below `p / bound`.
pub proof fn law_draw_is_unbiased(p: int, bound: int, i: int, s: int)
    requires
        0 < bound <= p,
        0 <= i < bound,
    ensures
        0 <= s < p - p % bound && s % bound == i <==> exists|k: int|
            0 <= k < p / bound && s == #[trigger] (k * bound) + i,
{
    let zone = p - p % bound;
    lemma_fundamental_div_mod(p, bound);
    let n = p / bound;
    assert(zone == n * bound) by (nonlinear_arith)
        requires
            p == bound * n + p % bound,
            zone == p - p % bound,
    ;
    if 0 <= s < zone && s % bound == i {
        lemma_fundamental_div_mod(s, bound);
        let k = s / bound;
        assert(s == k * bound + i) by (nonlinear_arith)
            requires
                s == bound * k + s % bound,
                s % bound == i,
        ;
        assert(0 <= k < n) by (nonlinear_arith)
            requires
                0 <= s < n * bound,
                s == k * bound + i,
                0 <= i < bound,
        ;
    }
    if exists|k: int| 0 <= k < n && s == #[trigger] (k * bound) + i {
        let k = choose|k: int| 0 <= k < n && s == #[trigger] (k * bound) + i;
        lemma_mod_multiples_vanish(k, i, bound);
        lemma_small_mod(i as nat, bound as nat);
        assert(bound * k + i == s) by (nonlinear_arith)
            requires
                s == k * bound + i,
        ;
        assert(0 <= s < n * bound) by (nonlinear_arith)
            requires
                s == k * bound + i,
                0 <= k < n,
                0 <= i < bound,
        ;
    }
}

/// Fold one layer with a single r, halving the vector length.
/// This follows the same logic as `MultilinearPolynomial::bind_poly_var_top`
pub fn fold_layer<E: Engine>(v: &[E::Scalar], r: &E::Scalar) -> (t: Vec<E::Scalar>)
    ensures
        traits::vals(t@) == multilinear::fold(E::Scalar::modulus(), traits::vals(v@), r.val()),
{
    fold_table(v, r)
}

/// The positions of samples come from the first byte of a challenge.
pub struct FirstByte;

impl<E: Engine> SampleSource<E> for FirstByte {
    open spec fn unbiased() -> bool {
        false
    }

    fn next_position(transcript: &mut Keccak256Transcript<E>, bound: usize) -> (r: Result<
        usize,
        SpartanError,
    >) {
        let s = match transcript.squeeze(&FOLD_SAMPLE_LABEL) {
            Ok(s) => s,
            Err(e) => return Err(e),
        };
        let bytes = s.to_bytes();
        proof {
            E::Scalar::lemma_repr(s.val());
        }
        Ok(bytes[0] as usize % bound)
    }
}

/// The positions of samples are drawn without bias.
pub struct Unbiased;

impl<E: Engine<Scalar = F>> SampleSource<E> for Unbiased {
    open spec fn unbiased() -> bool {
        true
    }

    fn next_position(transcript: &mut Keccak256Transcript<E>, bound: usize) -> (r: Result<
        usize,
        SpartanError,
    >) {
        draw_index::<E>(transcript, &FOLD_SAMPLE_LABEL, bound)
    }
}

/// The commitment to the values `v` in the given mode; `reason` says why a length is refused.
pub open spec fn commit_model<E: Engine, B: MleBackend<E>>(
    mode: ZkMode,
    v: Seq<int>,
    reason: Seq<char>,
) -> Result<CommitmentModel, ErrorModel> {
    if merkle_tree::is_pow2(v.len()) {
        Ok(CommitmentModel { base_root: layers::layer_root::<E, B>(v), mode })
    } else {
        Err(ErrorModel::InvalidInputLength(reason))
    }
}

/// The only piece; `reason` says why another number of pieces is refused.
pub open spec fn combine_model<T>(parts: Seq<T>, reason: Seq<char>) -> Result<T, ErrorModel> {
    if parts.len() == 1 {
        Ok(parts[0])
    } else {
        Err(ErrorModel::InvalidInputLength(reason))
    }
}

/// Says that `2^m` values were expected and that there were `n`.
pub open spec fn length_reason(operation: Seq<char>, m: nat, n: nat) -> Seq<char> {
    operation + " expected "@ + errors::decimal(pow2(m)) + " elements, got "@ + errors::decimal(n)
}

/// Says that `2^m` values were expected and that there were `n`.
pub(crate) fn length_message(operation: &str, m: usize, n: usize) -> (text: String)
    requires
        m < usize::BITS,
    ensures
        text@ == length_reason(operation@, m as nat, n as nat),
{
    let mut text = operation.to_string();
    text.append(" expected ");
    push_decimal(&mut text, pow2_usize(m));
    text.append(" elements, got ");
    push_decimal(&mut text, n);
    text
}

/// The transcript from which the sample positions are drawn.
pub open spec fn bound_transcript(
    s: Schedule,
    t: TranscriptModel,
    comm: Seq<u8>,
    roots: Seq<Seq<u8>>,
) -> TranscriptModel {
    let committed = t.absorb(POLY_COM_LABEL@, comm);
    if s.streaming {
        committed
    } else {
        committed.absorb(TAG_LAYER_ROOTS@, roots.flatten_alt())
    }
}

/// What the prover makes of the values `poly` and of `point`, and the transcript that is left.
pub open spec fn prove_model<E: Engine, B: MleBackend<E>>(
    s: Schedule,
    operation: Seq<char>,
    t: TranscriptModel,
    comm: Seq<u8>,
    poly: Seq<int>,
    point: Seq<int>,
) -> (Result<(int, ArgumentModel), ErrorModel>, TranscriptModel) {
    let m = point.len();
    if poly.len() != pow2(m) {
        (
            Err(ErrorModel::InvalidInputLength(length_reason(operation, m, poly.len()))),
            t,
        )
    } else {
        let roots = layers::chain_roots::<E, B>(poly, point);
        let d = layers::draw_layers::<E>(s, bound_transcript(s, t, comm, roots), roots, m, m);
        if d.complete {
            (
                Ok(
                    (
                        multilinear::mle_eval(E::Scalar::modulus(), poly, point),
                        layers::chain_argument::<E, B>(poly, point, d.positions),
                    ),
                ),
                d.end,
            )
        } else {
            (Err(ErrorModel::InternalTranscriptError), d.end)
        }
    }
}

/// The lengths of an argument fit a point of `m` coordinates.
pub open spec fn argument_shape(arg: ArgumentModel, m: nat) -> bool {
    &&& arg.layer_roots.len() == m + 1
    &&& arg.rounds.len() == m
    &&& arg.samples.len() == m
}

/// The value that the last round leads to is `eval`; without rounds any value is.
pub open spec fn final_ok(arg: ArgumentModel, eval: int) -> bool {
    arg.rounds.len() > 0 ==> arg.rounds.last().next == eval
}

/// The first layer, from `i` on, without the right number of samples.
pub open spec fn first_short(samples: Seq<Seq<SampleModel>>, i: nat) -> Option<nat>
    decreases samples.len() - i,
{
    if i >= samples.len() {
        None
    } else if samples[i as int].len() != K_SAMPLES_PER_ROUND {
        Some(i)
    } else {
        first_short(samples, i + 1)
    }
}

/// Says that layer `i` has `n` samples.
pub open spec fn sample_count_reason(i: nat, n: nat) -> Seq<char> {
    "HashMlePCS::verify round "@ + errors::decimal(i) + " has "@ + errors::decimal(n)
        + " samples, expected "@ + errors::decimal(K_SAMPLES_PER_ROUND as nat)
}

/// Refuses the first layer without the right number of samples.
fn check_sample_counts<E: Engine>(samples: &Vec<Vec<SampleOpening<E>>>) -> (r: Result<
    (),
    SpartanError,
>)
    ensures
        errors::outcome(r) == match first_short(layers_view(samples@), 0) {
            Some(i) => Err::<(), ErrorModel>(
                ErrorModel::InvalidInputLength(
                    sample_count_reason(i, layers_view(samples@)[i as int].len()),
                ),
            ),
            None => Ok::<(), ErrorModel>(()),
        },
{
    let ghost all = layers_view(samples@);
    for i in 0..samples.len()
        invariant
            all == layers_view(samples@),
            first_short(all, 0) == first_short(all, i as nat),
    {
        let n: usize = samples[i].len();
        assert(all[i as int].len() == n);
        if n != K_SAMPLES_PER_ROUND {
            let mut reason = "HashMlePCS::verify round ".to_string();
            push_decimal(&mut reason, i);
            reason.append(" has ");
            push_decimal(&mut reason, n);
            reason.append(" samples, expected ");
            push_decimal(&mut reason, K_SAMPLES_PER_ROUND);
            return Err(SpartanError::InvalidInputLength { reason });
        }
    }
    Ok(())
}

/// The positions of all samples come from first bytes, and the roots are absorbed at once.
pub open spec fn byte_schedule() -> Schedule {
    Schedule { unbiased: false, streaming: false }
}

/// What the verifier finds before it looks at the opened pairs.
pub open spec fn header_model<E: Engine>(
    vk: HashMleVerifierKey<E>,
    comm: CommitmentModel,
    m: nat,
    arg: ArgumentModel,
) -> Result<(), ErrorModel> {
    if vk.zk_mode != comm.mode {
        Err(ErrorModel::InvalidPCS)
    } else if !argument_shape(arg, m) {
        Err(ErrorModel::InvalidInputLength("HashMlePCS::verify malformed argument"@))
    } else if first_short(arg.samples, 0) is Some {
        let i = first_short(arg.samples, 0)->Some_0;
        Err(
            ErrorModel::InvalidInputLength(
                sample_count_reason(i, arg.samples[i as int].len()),
            ),
        )
    } else if vk.branching != 2 {
        Err(ErrorModel::InvalidPCS)
    } else {
        Ok(())
    }
}

/// What the verifier decides, and the transcript that is left.
pub open spec fn verify_model<E: Engine, B: MleBackend<E>>(
    vk: HashMleVerifierKey<E>,
    t: TranscriptModel,
    comm: CommitmentModel,
    point: Seq<int>,
    eval: int,
    arg: ArgumentModel,
) -> (Result<(), ErrorModel>, TranscriptModel) {
    let header = header_model::<E>(vk, comm, point.len(), arg);
    let s = byte_schedule();
    let start = bound_transcript(s, t, commitment_repr(comm), arg.layer_roots);
    if header is Err {
        (header, t)
    } else if arg.layer_roots[0] != comm.base_root {
        (Err(ErrorModel::InvalidPCS), start)
    } else {
        let w = layers::walk_layers::<E, B>(s, start, arg, point, point.len());
        if w.found is Err {
            (w.found, w.end)
        } else if layers::rounds_ok::<E, B>(arg, point) && final_ok(arg, eval) {
            (Ok(()), w.end)
        } else {
            (Err(ErrorModel::InvalidPCS), w.end)
        }
    }
}

/// Whether the verifier can decide: where it looks at opened pairs, the positions of a layer are
/// machine words.
pub open spec fn verify_fits<E: Engine>(
    vk: HashMleVerifierKey<E>,
    comm: CommitmentModel,
    m: nat,
    arg: ArgumentModel,
) -> bool {
    header_model::<E>(vk, comm, m, arg) is Ok && arg.layer_roots[0] == comm.base_root ==> m
        < usize::BITS
}

/// Commits to all layers, binds their roots to the transcript and opens them at position zero and
/// at positions drawn from the transcript.
pub(crate) fn prove_layers<E: Engine, B: MleBackend<E>, S: SampleSource<E>>(
    transcript: &mut Keccak256Transcript<E>,
    all_layers: &Vec<Vec<B::FE>>,
    eval: E::Scalar,
    Ghost(v): Ghost<Seq<int>>,
    Ghost(pt): Ghost<Seq<int>>,
) -> (r: Result<(E::Scalar, HashMleEvaluationArgument<E>), SpartanError>)
    requires
        v.len() == pow2(pt.len()),
        all_layers@.len() == pt.len() + 1,
        forall|k: int|
            0 <= k <= pt.len() ==> layers::fe_vals::<E, B>((#[trigger] all_layers@[k])@)
                == multilinear::layer(E::Scalar::modulus(), v, pt, k as nat),
    ensures
        ({
            let roots = layers::chain_roots::<E, B>(v, pt);
            let s = Schedule { unbiased: S::unbiased(), streaming: false };
            let start = old(transcript)@.absorb(TAG_LAYER_ROOTS@, roots.flatten_alt());
            let d = layers::draw_layers::<E>(s, start, roots, pt.len(), pt.len());
            &&& final(transcript)@ == d.end
            &&& r is Ok <==> d.complete
            &&& r matches Ok((y, arg)) ==> {
                &&& y == eval
                &&& arg@ == layers::chain_argument::<E, B>(v, pt, d.positions)
            }
            &&& r matches Err(e) ==> e@ == ErrorModel::InternalTranscriptError
        }),
{
    let m: usize = all_layers.len() - 1;
    let ghost p = E::Scalar::modulus();
    let ghost roots = layers::chain_roots::<E, B>(v, pt);
    let ghost s = Schedule { unbiased: S::unbiased(), streaming: false };

    // Build trees and roots
    let mut trees: Vec<MerkleTree> = Vec::new();
    let mut layer_roots: Vec<MerkleRoot> = Vec::new();
    for i in 0..m + 1
        invariant
            m == pt.len(),
            p == E::Scalar::modulus(),
            v.len() == pow2(pt.len()),
            all_layers@.len() == m + 1,
            forall|k: int|
                0 <= k <= m ==> layers::fe_vals::<E, B>((#[trigger] all_layers@[k])@)
                    == multilinear::layer(p, v, pt, k as nat),
            roots == layers::chain_roots::<E, B>(v, pt),
            trees@.len() == i,
            layer_roots@.len() == i,
            forall|k: int|
                0 <= k < i ==> (#[trigger] trees@[k])@ == merkle_tree::tree_levels::<E, B>(
                    layers::leaves_of::<E, B>(multilinear::layer(p, v, pt, k as nat)),
                ),
            forall|k: int| 0 <= k < i ==> (#[trigger] layer_roots@[k])@ == roots[k],
    {
        let ghost values = multilinear::layer(p, v, pt, i as nat);
        proof {
            layers::lemma_layer_len(p, v, pt, i as nat);
            layers::lemma_pow2_shape((m - i) as nat);
            assert(layers::fe_vals::<E, B>(all_layers@[i as int]@) == values);
            assert(all_layers@[i as int]@.len() == values.len());
        }
        let tree = layer_tree::<E, B>(all_layers[i].as_slice());
        layer_roots.push(tree_top::<E, B>(&tree, Ghost(values)));
        trees.push(tree);
    }
    assert(roots_view(layer_roots@) =~= roots);
    transcript.absorb_bytes(&TAG_LAYER_ROOTS, root_bytes(&layer_roots).as_slice());
    let ghost start = transcript@;

    // Generate sample openings to link consecutive layers (prevents forged layer attacks)
    let mut samples: Vec<Vec<SampleOpening<E>>> = Vec::new();
    for i in 0..m
        invariant
            m == pt.len(),
            p == E::Scalar::modulus(),
            v.len() == pow2(pt.len()),
            all_layers@.len() == m + 1,
            forall|k: int|
                0 <= k <= m ==> layers::fe_vals::<E, B>((#[trigger] all_layers@[k])@)
                    == multilinear::layer(p, v, pt, k as nat),
            s == (Schedule { unbiased: S::unbiased(), streaming: false }),
            trees@.len() == m + 1,
            forall|k: int|
                0 <= k <= m ==> (#[trigger] trees@[k])@ == merkle_tree::tree_levels::<E, B>(
                    layers::leaves_of::<E, B>(multilinear::layer(p, v, pt, k as nat)),
                ),
            roots == layers::chain_roots::<E, B>(v, pt),
            start == old(transcript)@.absorb(TAG_LAYER_ROOTS@, roots.flatten_alt()),
            ({
                let d = layers::draw_layers::<E>(s, start, roots, m as nat, i as nat);
                &&& d.complete
                &&& d.positions.len() == i
                &&& transcript@ == d.end
                &&& samples@.len() == i
                &&& forall|k: int|
                    0 <= k < i ==> samples_view((#[trigger] samples@[k])@)
                        == layers::samples_at::<E, B>(
                        multilinear::layer(p, v, pt, k as nat),
                        multilinear::layer(p, v, pt, (k + 1) as nat),
                        d.positions[k],
                    )
            }),
    {
        let ghost before = layers::draw_layers::<E>(s, start, roots, m as nat, i as nat);
        let ghost after = layers::draw_layers::<E>(s, start, roots, m as nat, (i + 1) as nat);
        proof {
            layers::lemma_layer_len(p, v, pt, i as nat);
            layers::lemma_layer_len(p, v, pt, (i + 1) as nat);
            layers::lemma_pow2_shape((m - i) as nat);
            layers::lemma_pow2_shape((m - i - 1) as nat);
            lemma_pow2_unfold((m - i) as nat);
            assert(layers::fe_vals::<E, B>(all_layers@[i as int]@).len()
                == all_layers@[i as int]@.len());
            assert(layers::fe_vals::<E, B>(all_layers@[i + 1]@).len()
                == all_layers@[i + 1]@.len());
        }
        let opened = open_samples::<E, B, S>(
            transcript,
            all_layers[i].as_slice(),
            all_layers[i + 1].as_slice(),
            &trees[i],
            &trees[i + 1],
        );
        match opened {
            Ok(round_samples) => {
                samples.push(round_samples);
            },
            Err(e) => {
                proof {
                    layers::lemma_draw_layers_stops::<E>(
                        s,
                        start,
                        roots,
                        m as nat,
                        (i + 1) as nat,
                        m as nat,
                    );
                }
                return Err(e);
            },
        }
        assert(after.positions.drop_last() =~= before.positions);
        assert forall|k: int| 0 <= k < i + 1 implies samples_view((#[trigger] samples@[k])@)
            == layers::samples_at::<E, B>(
            multilinear::layer(p, v, pt, k as nat),
            multilinear::layer(p, v, pt, (k + 1) as nat),
            after.positions[k],
        ) by {
            if k < i {
                assert(after.positions[k] == before.positions[k]);
            }
        }
    }
    let ghost d = layers::draw_layers::<E>(s, start, roots, m as nat, m as nat);

    // Open the pair at position zero of each layer
    let mut rounds: Vec<Round<E>> = Vec::new();
    for i in 0..m
        invariant
            m == pt.len(),
            p == E::Scalar::modulus(),
            v.len() == pow2(pt.len()),
            all_layers@.len() == m + 1,
            forall|k: int|
                0 <= k <= m ==> layers::fe_vals::<E, B>((#[trigger] all_layers@[k])@)
                    == multilinear::layer(p, v, pt, k as nat),
            trees@.len() == m + 1,
            forall|k: int|
                0 <= k <= m ==> (#[trigger] trees@[k])@ == merkle_tree::tree_levels::<E, B>(
                    layers::leaves_of::<E, B>(multilinear::layer(p, v, pt, k as nat)),
                ),
            rounds@.len() == i,
            forall|k: int|
                0 <= k < i ==> (#[trigger] rounds@[k])@ == layers::chain_pair::<E, B>(v, pt, k, 0),
    {
        proof {
            layers::lemma_layer_len(p, v, pt, i as nat);
            layers::lemma_layer_len(p, v, pt, (i + 1) as nat);
            layers::lemma_pow2_shape((m - i) as nat);
            layers::lemma_pow2_shape((m - i - 1) as nat);
            lemma_pow2_unfold((m - i) as nat);
            assert(layers::fe_vals::<E, B>(all_layers@[i as int]@).len()
                == all_layers@[i as int]@.len());
            assert(layers::fe_vals::<E, B>(all_layers@[i + 1]@).len()
                == all_layers@[i + 1]@.len());
        }
        rounds.push(
            open_pair::<E, B>(
                all_layers[i].as_slice(),
                all_layers[i + 1].as_slice(),
                &trees[i],
                &trees[i + 1],
                0,
            ),
        );
    }
    let arg = HashMleEvaluationArgument { layer_roots, rounds, samples };
    proof {
        let goal = layers::chain_argument::<E, B>(v, pt, d.positions);
        assert(arg@.rounds =~= goal.rounds);
        assert(arg@.layer_roots =~= goal.layer_roots);
        assert forall|k: int| 0 <= k < m implies arg@.samples[k] == goal.samples[k] by {
            assert(samples_view(arg.samples@[k]@) =~= goal.samples[k]);
        }
        assert(arg@.samples =~= goal.samples);
    }
    Ok((eval, arg))
}

/// Hash-based multilinear polynomial commitment scheme
#[derive(Debug)]
pub struct HashMlePCS<E: Engine> {
    _p: PhantomData<E>,
}

impl<E: Engine> HashMlePCS<E> {
    /// What the prover makes of the polynomial `poly` and of `point`, and the transcript that is
    /// left: this scheme draws no randomness.
    pub open spec fn prove_of(
        ck: HashMleCommitmentKey<E>,
        t: TranscriptModel,
        comm: CommitmentModel,
        poly: Seq<int>,
        point: Seq<int>,
    ) -> (Result<(int, ArgumentModel), ErrorModel>, TranscriptModel) {
        prove_model::<E, BackendFfKeccak<E>>(
            byte_schedule(),
            "HashMlePCS::prove"@,
            t,
            commitment_repr(comm),
            poly,
            point,
        )
    }
}

impl<E: Engine> PCSEngineTrait<E> for HashMlePCS<E> {
    type CommitmentKey = HashMleCommitmentKey<E>;

    type VerifierKey = HashMleVerifierKey<E>;

    type Commitment = HashMleCommitment<E>;

    type PartialCommitment = HashMleCommitment<E>;

    type Blind = HashMleBlind<E>;

    type EvaluationArgument = HashMleEvaluationArgument<E>;

    open spec fn width_of() -> nat {
        2
    }

    open spec fn commitment_bytes(comm: CommitmentModel) -> Seq<u8> {
        commitment_repr(comm)
    }

    open spec fn partial_bytes(comm: CommitmentModel) -> Seq<u8> {
        commitment_repr(comm)
    }

    proof fn lemma_commitment_bytes(comm: HashMleCommitment<E>) {
    }

    proof fn lemma_partial_bytes(comm: HashMleCommitment<E>) {
    }

    proof fn lemma_verify_defined(
        vk: HashMleVerifierKey<E>,
        comm: CommitmentModel,
        point: Seq<int>,
        arg: ArgumentModel,
    ) {
    }

    open spec fn are_keys(ck: HashMleCommitmentKey<E>, vk: HashMleVerifierKey<E>) -> bool {
        &&& ck.branching == 2
        &&& ck.zk_mode == ZkMode::LeakReduced
        &&& vk.branching == 2
        &&& vk.zk_mode == ZkMode::LeakReduced
    }

    open spec fn made_for(
        label: Seq<u8>,
        n: nat,
        ck: HashMleCommitmentKey<E>,
        vk: HashMleVerifierKey<E>,
    ) -> bool {
        // one pair of keys serves every label and every length
        Self::are_keys(ck, vk)
    }

    open spec fn is_blind(ck: HashMleCommitmentKey<E>, n: nat, blind: ()) -> bool {
        true
    }

    open spec fn commit_of(ck: HashMleCommitmentKey<E>, v: Seq<int>, blind: ()) -> Result<
        CommitmentModel,
        ErrorModel,
    > {
        commit_model::<E, BackendFfKeccak<E>>(
            ck.zk_mode,
            v,
            "HashMlePCS: vector len must be power of two"@,
        )
    }

    open spec fn commit_partial_of(ck: HashMleCommitmentKey<E>, v: Seq<int>, blind: ()) -> Result<
        (CommitmentModel, ()),
        ErrorModel,
    > {
        match Self::commit_of(ck, v, blind) {
            Ok(c) => Ok((c, blind)),
            Err(e) => Err(e),
        }
    }

    open spec fn check_partial_of(comm: CommitmentModel, n: nat) -> Result<(), ErrorModel> {
        Ok(())
    }

    open spec fn combine_partial_of(parts: Seq<CommitmentModel>) -> Result<
        CommitmentModel,
        ErrorModel,
    > {
        combine_model(parts, "HashMlePCS: combine_partial expects exactly one piece"@)
    }

    open spec fn combine_blinds_of(blinds: Seq<()>) -> Result<(), ErrorModel> {
        combine_model(blinds, "HashMlePCS: combine_blinds expects exactly one blind"@)
    }

    open spec fn proves(
        ck: HashMleCommitmentKey<E>,
        t: TranscriptModel,
        comm: CommitmentModel,
        poly: Seq<int>,
        blind: (),
        point: Seq<int>,
        outcome: Result<(int, ArgumentModel), ErrorModel>,
        end: TranscriptModel,
    ) -> bool {
        (outcome, end) == Self::prove_of(ck, t, comm, poly, point)
    }

    open spec fn verify_defined(
        vk: HashMleVerifierKey<E>,
        comm: CommitmentModel,
        point: Seq<int>,
        arg: ArgumentModel,
    ) -> bool {
        verify_fits::<E>(vk, comm, point.len(), arg)
    }

    open spec fn verify_of(
        vk: HashMleVerifierKey<E>,
        t: TranscriptModel,
        comm: CommitmentModel,
        point: Seq<int>,
        eval: int,
        arg: ArgumentModel,
    ) -> (Result<(), ErrorModel>, TranscriptModel) {
        verify_model::<E, BackendFfKeccak<E>>(vk, t, comm, point, eval, arg)
    }

    proof fn law_completeness(
        ck: HashMleCommitmentKey<E>,
        vk: HashMleVerifierKey<E>,
        t: TranscriptModel,
        comm: CommitmentModel,
        poly: Seq<int>,
        blind: (),
        point: Seq<int>,
        eval: int,
        arg: ArgumentModel,
        end: TranscriptModel,
    ) {
        let m = point.len();
        let s = byte_schedule();
        let roots = layers::chain_roots::<E, BackendFfKeccak<E>>(poly, point);
        let start = bound_transcript(s, t, commitment_repr(comm), roots);
        let d = layers::draw_layers::<E>(s, start, roots, m, m);
        let arg = layers::chain_argument::<E, BackendFfKeccak<E>>(poly, point, d.positions);
        lemma_honest::<E, BackendFfKeccak<E>>(s, start, poly, point);
        lemma_no_short(arg.samples, 0);
    }

    proof fn lemma_combine(
        ck: HashMleCommitmentKey<E>,
        pieces: Seq<Seq<int>>,
        blinds: Seq<()>,
        parts: Seq<CommitmentModel>,
        used: Seq<()>,
    ) {
        pieces.lemma_flatten_one_element();
        assert(Self::commit_partial_of(ck, pieces[0], blinds[0]) == Ok::<_, ErrorModel>(
            (parts[0], used[0]),
        ));
    }

    proof fn lemma_check_partial(
        ck: HashMleCommitmentKey<E>,
        v: Seq<int>,
        blind: (),
        comm: CommitmentModel,
        used: (),
    ) {
    }

    /// Arity of the multilinear domain (binary hypercube).
    fn width() -> (r: usize) {
        2
    }

    fn setup(_label: &[u8], _n: usize) -> (r: (HashMleCommitmentKey<E>, HashMleVerifierKey<E>)) {
        let ck = HashMleCommitmentKey {
            branching: 2,
            zk_mode: ZkMode::LeakReduced,
            _p: PhantomData,
        };
        let vk = HashMleVerifierKey {
            branching: 2,
            zk_mode: ZkMode::LeakReduced,
            _p: PhantomData,
        };
        (ck, vk)
    }

    fn blind(_ck: &HashMleCommitmentKey<E>, _n: usize) -> (r: HashMleBlind<E>)
        ensures
            r == HashMleBlind::<E>::blank(),
    {
        HashMleBlind::default()
    }

    fn commit(
        ck: &HashMleCommitmentKey<E>,
        v: &[E::Scalar],
        _blind: &HashMleBlind<E>,
        _is_small: bool,
    ) -> (r: Result<HashMleCommitment<E>, SpartanError>) {
        if !is_power_of_two(v.len()) {
            return Err(
                SpartanError::InvalidInputLength {
                    reason: "HashMlePCS: vector len must be power of two".to_string(),
                },
            );
        }
        // Base layer leaves (unmasked in LeakReduced mode)
        let tree = layer_tree::<E, BackendFfKeccak<E>>(v);
        let ghost values = layers::fe_vals::<E, BackendFfKeccak<E>>(v@);
        assert(values =~= traits::vals(v@));
        let base_root = tree_top::<E, BackendFfKeccak<E>>(&tree, Ghost(values));
        Ok(HashMleCommitment { base_root, mode: ck.zk_mode, _p: PhantomData })
    }

    fn commit_partial(
        ck: &HashMleCommitmentKey<E>,
        v: &[E::Scalar],
        blind: &HashMleBlind<E>,
        is_small: bool,
    ) -> (r: Result<(HashMleCommitment<E>, HashMleBlind<E>), SpartanError>) {
        match Self::commit(ck, v, blind, is_small) {
            Ok(c) => Ok((c, blind.clone())),
            Err(e) => Err(e),
        }
    }

    fn check_partial(_comm: &HashMleCommitment<E>, _n: usize) -> (r: Result<(), SpartanError>) {
        Ok(())
    }

    fn copy_partial(comm: &HashMleCommitment<E>) -> (r: HashMleCommitment<E>) {
        comm.clone()
    }

    fn copy_blind(blind: &HashMleBlind<E>) -> (r: HashMleBlind<E>) {
        blind.clone()
    }

    fn combine_partial(partial_comms: &[HashMleCommitment<E>]) -> (r: Result<
        HashMleCommitment<E>,
        SpartanError,
    >) {
        if partial_comms.len() != 1 {
            return Err(
                SpartanError::InvalidInputLength {
                    reason: "HashMlePCS: combine_partial expects exactly one piece".to_string(),
                },
            );
        }
        Ok(partial_comms[0].clone())
    }

    fn combine_blinds(blinds: &[HashMleBlind<E>]) -> (r: Result<HashMleBlind<E>, SpartanError>)
        ensures
            r matches Ok(blind) ==> blind == blinds@[0],
    {
        if blinds.len() != 1 {
            return Err(
                SpartanError::InvalidInputLength {
                    reason: "HashMlePCS: combine_blinds expects exactly one blind".to_string(),
                },
            );
        }
        Ok(blinds[0].clone())
    }

    fn prove(
        _ck: &HashMleCommitmentKey<E>,
        transcript: &mut Keccak256Transcript<E>,
        comm: &HashMleCommitment<E>,
        poly: &[E::Scalar],
        _blind: &HashMleBlind<E>,
        point: &[E::Scalar],
    ) -> (r: Result<(E::Scalar, HashMleEvaluationArgument<E>), SpartanError>) {
        let n: usize = poly.len();
        let m: usize = point.len();
        if n != pow2_usize(m) {
            return Err(
                SpartanError::InvalidInputLength {
                    reason: length_message("HashMlePCS::prove", m, n),
                },
            );
        }
        transcript.absorb(&POLY_COM_LABEL, comm);

        // Use the polynomial's own evaluation method to get the correct result
        let mle = MultilinearPolynomial::new(copy_table(poly));
        let eval = mle.evaluate(point);

        // Build layers by binding variables one by one
        let mut all_layers: Vec<Vec<E::Scalar>> = Vec::new();
        all_layers.push(copy_table(poly));
        let ghost v = traits::vals(poly@);
        let ghost pt = traits::vals(point@);
        for i in 0..m
            invariant
                m == point@.len(),
                pt == traits::vals(point@),
                all_layers@.len() == i + 1,
                forall|k: int|
                    0 <= k <= i ==> traits::vals((#[trigger] all_layers@[k])@)
                        == multilinear::layer(E::Scalar::modulus(), v, pt, k as nat),
        {
            let next_layer = fold_layer::<E>(all_layers[i].as_slice(), &point[i]);
            all_layers.push(next_layer);
        }
        assert forall|k: int| 0 <= k <= m implies layers::fe_vals::<E, BackendFfKeccak<E>>(
            (#[trigger] all_layers@[k])@,
        ) == multilinear::layer(E::Scalar::modulus(), v, pt, k as nat) by {
            assert(layers::fe_vals::<E, BackendFfKeccak<E>>(all_layers@[k]@) =~= traits::vals(
                all_layers@[k]@,
            ));
        }
        prove_layers::<E, BackendFfKeccak<E>, FirstByte>(
            transcript,
            &all_layers,
            eval,
            Ghost(v),
            Ghost(pt),
        )
    }

    fn verify(
        vk: &HashMleVerifierKey<E>,
        transcript: &mut Keccak256Transcript<E>,
        comm: &HashMleCommitment<E>,
        point: &[E::Scalar],
        eval: &E::Scalar,
        arg: &HashMleEvaluationArgument<E>,
    ) -> (r: Result<(), SpartanError>) {
        if vk.zk_mode != comm.mode {
            return Err(SpartanError::InvalidPCS);
        }
        let m: usize = point.len();
        if arg.rounds.len() != m || arg.samples.len() != m || arg.layer_roots.len() == 0
            || arg.layer_roots.len() - 1 != m {
            return Err(
                SpartanError::InvalidInputLength {
                    reason: "HashMlePCS::verify malformed argument".to_string(),
                },
            );
        }
        // Check that each round has the expected number of samples
        match check_sample_counts(&arg.samples) {
            Ok(()) => {},
            Err(e) => return Err(e),
        }
        // This PCS is binary Merkle
        if vk.branching != 2 {
            return Err(SpartanError::InvalidPCS);
        }
        transcript.absorb(&POLY_COM_LABEL, comm);
        transcript.absorb_bytes(&TAG_LAYER_ROOTS, root_bytes(&arg.layer_roots).as_slice());

        // Layer 0 root must match the commitment's root
        if !same_bytes(&arg.layer_roots[0].0, &comm.base_root.0) {
            return Err(SpartanError::InvalidPCS);
        }
        // Verify sample openings to ensure layer consistency (prevents forged layer attacks)
        match check_samples::<E, BackendFfKeccak<E>, FirstByte>(transcript, arg, point, false) {
            Ok(()) => {},
            Err(e) => return Err(e),
        }
        // Per round: check memberships and fold equality
        if !check_rounds::<E, BackendFfKeccak<E>>(arg, point) {
            return Err(SpartanError::InvalidPCS);
        }
        // Final check for LeakReduced mode
        if m > 0 && !arg.rounds[m - 1].next.same(eval) {
            return Err(SpartanError::InvalidPCS);
        }
        Ok(())
    }
}

/// A chain whose samples are complete lacks none of them.
pub proof fn lemma_no_short(samples: Seq<Seq<SampleModel>>, i: nat)
    requires
        forall|k: int|
            0 <= k < samples.len() ==> (#[trigger] samples[k]).len() == K_SAMPLES_PER_ROUND,
    ensures
        first_short(samples, i) is None,
    decreases samples.len() - i,
{
    if i < samples.len() {
        lemma_no_short(samples, i + 1);
    }
}

/// The argument that opens the chain of layers passes every check.
pub proof fn lemma_honest<E: Engine, B: MleBackend<E>>(
    s: Schedule,
    start: TranscriptModel,
    poly: Seq<int>,
    point: Seq<int>,
)
    requires
        poly.len() == pow2(point.len()),
        multilinear::in_field(E::Scalar::modulus(), poly),
        layers::draw_layers::<E>(
            s,
            start,
            layers::chain_roots::<E, B>(poly, point),
            point.len(),
            point.len(),
        ).complete,
    ensures
        ({
            let m = point.len();
            let roots = layers::chain_roots::<E, B>(poly, point);
            let d = layers::draw_layers::<E>(s, start, roots, m, m);
            let arg = layers::chain_argument::<E, B>(poly, point, d.positions);
            &&& argument_shape(arg, m)
            &&& forall|k: int|
                0 <= k < m ==> (#[trigger] arg.samples[k]).len() == K_SAMPLES_PER_ROUND
            &&& arg.layer_roots[0] == layers::layer_root::<E, B>(poly)
            &&& layers::walk_layers::<E, B>(s, start, arg, point, m) == (layers::Walk {
                end: d.end,
                found: Ok(()),
            })
            &&& layers::rounds_ok::<E, B>(arg, point)
            &&& final_ok(arg, multilinear::mle_eval(E::Scalar::modulus(), poly, point))
        }),
{
    let m = point.len();
    let p = E::Scalar::modulus();
    E::Scalar::lemma_modulus();
    let roots = layers::chain_roots::<E, B>(poly, point);
    let d = layers::draw_layers::<E>(s, start, roots, m, m);
    let arg = layers::chain_argument::<E, B>(poly, point, d.positions);
    layers::lemma_walk_layers_ok::<E, B>(s, start, poly, point, m);
    layers::lemma_rounds_ok::<E, B>(poly, point, d.positions);
    layers::lemma_draw_layers_sizes::<E>(s, start, roots, m, m);
    multilinear::law_last_layer_is_evaluation(p, poly, point);
    if m > 0 {
        assert(arg.rounds.last() == layers::chain_pair::<E, B>(poly, point, m - 1, 0));
    }
}

/// Acceptance: the verifier accepts exactly if the argument has the right lengths, starts from the
/// committed root, opens every drawn position and position zero of every layer as it must be, and
/// leads to the claimed value.
pub proof fn law_verify_accepts_iff<E: Engine>(
    vk: HashMleVerifierKey<E>,
    t: TranscriptModel,
    comm: CommitmentModel,
    point: Seq<int>,
    eval: int,
    arg: ArgumentModel,
)
    ensures
        ({
            let m = point.len();
            let s = byte_schedule();
            let start = bound_transcript(s, t, commitment_repr(comm), arg.layer_roots);
            let d = layers::draw_layers::<E>(s, start, arg.layer_roots, m, m);
            let (found, end) = verify_model::<E, BackendFfKeccak<E>>(
                vk,
                t,
                comm,
                point,
                eval,
                arg,
            );
            &&& found is Ok <==> {
                &&& vk.zk_mode == comm.mode
                &&& vk.branching == 2
                &&& argument_shape(arg, m)
                &&& arg.layer_roots[0] == comm.base_root
                &&& d.complete
                &&& forall|k: int|
                    0 <= k < m ==> layers::layer_samples_ok::<E, BackendFfKeccak<E>>(
                        arg,
                        point,
                        k,
                        #[trigger] d.positions[k],
                    )
                &&& layers::rounds_ok::<E, BackendFfKeccak<E>>(arg, point)
                &&& final_ok(arg, eval)
            }
            &&& found is Ok ==> end == d.end
        }),
{
    let m = point.len();
    let s = byte_schedule();
    let start = bound_transcript(s, t, commitment_repr(comm), arg.layer_roots);
    let d = layers::draw_layers::<E>(s, start, arg.layer_roots, m, m);
    layers::law_walk_accepts_iff::<E, BackendFfKeccak<E>>(s, start, arg, point, m);
    if d.complete && argument_shape(arg, m) && forall|k: int|
        0 <= k < m ==> layers::layer_samples_ok::<E, BackendFfKeccak<E>>(
            arg,
            point,
            k,
            #[trigger] d.positions[k],
        ) {
        assert forall|k: int| 0 <= k < arg.samples.len() implies (#[trigger] arg.samples[k]).len()
            == K_SAMPLES_PER_ROUND by {
            assert(layers::layer_samples_ok::<E, BackendFfKeccak<E>>(
                arg,
                point,
                k,
                d.positions[k],
            ));
        }
        lemma_no_short(arg.samples, 0);
    }
}

/// A transcript tells commitments apart: the bytes of a commitment determine its mode and root.
pub proof fn law_commitment_bytes_bind(a: CommitmentModel, b: CommitmentModel)
    requires
        commitment_repr(a) == commitment_repr(b),
    ensures
        a == b,
{
    let x = commitment_repr(a);
    let y = commitment_repr(b);
    assert(x[8] == mode_byte(a.mode));
    assert(y[8] == mode_byte(b.mode));
    assert(a.base_root =~= x.skip(9));
    assert(b.base_root =~= y.skip(9));
}

/// The value that a prover returns is that of the multilinear polynomial, whatever the backend,
/// the schedule, the transcript and the commitment are.
pub proof fn law_value_is_multilinear<E: Engine, B: MleBackend<E>>(
    s: Schedule,
    operation: Seq<char>,
    t: TranscriptModel,
    comm: Seq<u8>,
    poly: Seq<int>,
    point: Seq<int>,
)
    requires
        prove_model::<E, B>(s, operation, t, comm, poly, point).0 is Ok,
    ensures
        prove_model::<E, B>(s, operation, t, comm, poly, point).0->Ok_0.0 == multilinear::mle_eval(
            E::Scalar::modulus(),
            poly,
            point,
        ),
{
}

/// The rounds of an honest argument are a chain: each one starts from the value that the round
/// before it leads to.
pub proof fn law_rounds_chain<E: Engine, B: MleBackend<E>>(
    poly: Seq<int>,
    point: Seq<int>,
    positions: Seq<Seq<int>>,
    i: int,
)
    requires
        0 <= i < point.len() - 1,
    ensures
        ({
            let arg = layers::chain_argument::<E, B>(poly, point, positions);
            &&& arg.rounds[i + 1].a == arg.rounds[i].next
            &&& arg.rounds[0].a == poly[0]
        }),
{
}

/// What is accepted is bound to the last root: it is the leaf digest of the value that the
/// argument leads to.
pub proof fn law_last_root_is_the_value<E: Engine, B: MleBackend<E>>(
    arg: ArgumentModel,
    point: Seq<int>,
    eval: int,
)
    requires
        argument_shape(arg, point.len()),
        point.len() > 0,
        layers::rounds_ok::<E, B>(arg, point),
        final_ok(arg, eval),
    ensures
        B::leaf_of(eval) == arg.layer_roots[point.len() as int],
{
    let last = point.len() - 1;
    assert(layers::round_ok::<E, B>(arg, point, last));
}

/// An accepted value is the value of the multilinear polynomial if the last root is the one that
/// the layers of the polynomial lead to and no two field elements have the same leaf digest.
pub proof fn law_accepted_value_is_the_evaluation<E: Engine, B: MleBackend<E>>(
    arg: ArgumentModel,
    poly: Seq<int>,
    point: Seq<int>,
    eval: int,
)
    requires
        argument_shape(arg, point.len()),
        point.len() > 0,
        poly.len() == pow2(point.len()),
        multilinear::in_field(E::Scalar::modulus(), poly),
        layers::rounds_ok::<E, B>(arg, point),
        final_ok(arg, eval),
        arg.layer_roots[point.len() as int] == layers::chain_roots::<E, B>(
            poly,
            point,
        )[point.len() as int],
        0 <= eval < E::Scalar::modulus(),
        forall|x: int, y: int|
            0 <= x < E::Scalar::modulus() && 0 <= y < E::Scalar::modulus() && #[trigger] B::leaf_of(
                x,
            ) == #[trigger] B::leaf_of(y) ==> x == y,
    ensures
        eval == multilinear::mle_eval(E::Scalar::modulus(), poly, point),
{
    let p = E::Scalar::modulus();
    let m = point.len();
    E::Scalar::lemma_modulus();
    law_last_root_is_the_value::<E, B>(arg, point, eval);
    multilinear::law_last_layer_is_evaluation(p, poly, point);
    let last = multilinear::layer(p, poly, point, m);
    assert(layers::leaves_of::<E, B>(last)[0] == B::leaf_of(last[0]));
    multilinear::lemma_fold_in_field(
        p,
        multilinear::layer(p, poly, point, (m - 1) as nat),
        point[m - 1],
    );
    assert(B::leaf_of(eval) == B::leaf_of(last[0]));
}

/// A transcript tells keys apart: the bytes of a verifier key determine its arity and its mode.
pub proof fn law_key_bytes_bind<E: Engine>(a: HashMleVerifierKey<E>, b: HashMleVerifierKey<E>)
    requires
        a.transcript_repr() == b.transcript_repr(),
    ensures
        a.branching == b.branching,
        a.zk_mode == b.zk_mode,
        a.transcript_repr().len() == 2,
{
    let x = a.transcript_repr();
    let y = b.transcript_repr();
    assert(x[0] == a.branching && x[1] == mode_byte(a.zk_mode));
    assert(y[0] == b.branching && y[1] == mode_byte(b.zk_mode));
}

/// The bytes of a commitment are the text `mle/mode`, a zero or, in the streaming mode, a one, and
/// the root; those of a verifier key are its arity and the same byte.
pub proof fn law_commitment_bytes<E: Engine>(c: CommitmentModel, vk: HashMleVerifierKey<E>)
    ensures
        hash_mle_backend::ascii(commitment_repr(c).take(8)) == "mle/mode"@,
        c.mode == ZkMode::LeakReduced ==> commitment_repr(c)[8] == 0,
        c.mode == ZkMode::LeakReducedStreaming ==> commitment_repr(c)[8] == 1,
        commitment_repr(c).skip(9) == c.base_root,
        vk.transcript_repr()[0] == vk.branching,
        vk.zk_mode == c.mode ==> vk.transcript_repr()[1] == commitment_repr(c)[8],
{
    reveal_strlit("mle/mode");
    assert(commitment_repr(c).take(8) =~= TAG_MODE@);
    assert(hash_mle_backend::ascii(TAG_MODE@) =~= "mle/mode"@);
    assert(commitment_repr(c).skip(9) =~= c.base_root);
}

/// The labels of the commitment scheme spell what they stand for.
pub proof fn law_labels()
    ensures
        hash_mle_backend::ascii(TAG_LAYER_ROOTS@) == "mle/layer_roots"@,
        hash_mle_backend::ascii(TAG_ROOT_I@) == "mle/root_i"@,
        hash_mle_backend::ascii(TAG_ROOT_IP1@) == "mle/root_ip1"@,
        hash_mle_backend::ascii(POLY_COM_LABEL@) == "poly_com"@,
        hash_mle_backend::ascii(FOLD_SAMPLE_LABEL@) == "mle/fold_sample"@,
{
    reveal_strlit("mle/layer_roots");
    reveal_strlit("mle/root_i");
    reveal_strlit("mle/root_ip1");
    reveal_strlit("poly_com");
    reveal_strlit("mle/fold_sample");
    assert(hash_mle_backend::ascii(TAG_LAYER_ROOTS@) =~= "mle/layer_roots"@);
    assert(hash_mle_backend::ascii(TAG_ROOT_I@) =~= "mle/root_i"@);
    assert(hash_mle_backend::ascii(TAG_ROOT_IP1@) =~= "mle/root_ip1"@);
    assert(hash_mle_backend::ascii(POLY_COM_LABEL@) =~= "poly_com"@);
    assert(hash_mle_backend::ascii(FOLD_SAMPLE_LABEL@) =~= "mle/fold_sample"@);
}

} // verus!
