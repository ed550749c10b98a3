//! Which positions are sampled, and when an argument can be made.
use super::hash_mle_backend::{BackendFfKeccak, BackendP3Poseidon2Goldi, MleBackend};
use super::layers::{self, ArgumentModel, Schedule};
use super::merkle_mle_pc::{
    self, CommitmentModel, HashMleCommitmentKey, HashMlePCS, FOLD_SAMPLE_LABEL,
};
use super::merkle_mle_pc_p3::{self, HashMlePcsP3};
use crate::errors::ErrorModel;
use crate::polys::multilinear;
use crate::provider::goldi::F;
use crate::provider::keccak::{self, TranscriptModel};
use crate::traits::{Engine, PCSEngineTrait, ScalarField};
#[allow(unused_imports)]
use vstd::arithmetic::div_mod::*;
#[allow(unused_imports)]
use vstd::arithmetic::power2::*;
use vstd::prelude::*;

verus! {

/// A draw without bias: a challenge `k * bound + i` with `k` below the number of whole multiples of
/// `bound` in the field gives `i`, and a challenge behind them is thrown away and the next one is
/// taken.
pub proof fn law_draw_rejects<E: Engine>(
    t: TranscriptModel,
    label: Seq<u8>,
    bound: int,
    k: int,
    i: int,
)
    requires
        0 < bound <= E::Scalar::modulus(),
        0 <= i < bound,
        0 <= k,
        t.round < 65535,
        E::Scalar::uniform_of(t.digest(label)) == k * bound + i,
    ensures
        k < E::Scalar::modulus() / bound ==> layers::draw_unbiased::<E>(t, label, bound) == (
            Some(i),
            t.squeeze(label),
        ),
        k >= E::Scalar::modulus() / bound ==> layers::draw_unbiased::<E>(t, label, bound)
            == layers::draw_unbiased::<E>(t.squeeze(label), label, bound),
{
    let p = E::Scalar::modulus();
    let s = k * bound + i;
    lemma_fundamental_div_mod(p, bound);
    lemma_mod_multiples_vanish(k, i, bound);
    lemma_small_mod(i as nat, bound as nat);
    assert(s % bound == i) by {
        assert(bound * k + i == s) by (nonlinear_arith)
            requires
                s == k * bound + i,
        ;
    }
    let n = p / bound;
    assert(p - p % bound == n * bound) by (nonlinear_arith)
        requires
            p == bound * n + p % bound,
    ;
    if k < n {
        assert(s < n * bound) by (nonlinear_arith)
            requires
                s == k * bound + i,
                k < n,
                i < bound,
                bound > 0,
        ;
    } else {
        assert(s >= n * bound) by (nonlinear_arith)
            requires
                s == k * bound + i,
                k >= n,
                i >= 0,
                bound > 0,
        ;
    }
}

/// A draw without bias gives no position only when the transcript is used up.
pub proof fn law_draw_fails_at_the_end<E: Engine>(t: TranscriptModel, label: Seq<u8>, bound: int)
    requires
        t.round <= 65535,
    ensures
        layers::draw_unbiased::<E>(t, label, bound).0 is None ==> layers::draw_unbiased::<E>(
            t,
            label,
            bound,
        ).1.round == 65535,
        layers::draw_unbiased::<E>(t, label, bound).1.round <= 65535,
    decreases u16::MAX - t.round,
{
    if t.can_squeeze() {
        law_draw_fails_at_the_end::<E>(t.squeeze(label), label, bound);
    }
}

/// Positions drawn from first bytes follow the challenges.
proof fn lemma_bytes_follow<E: Engine>(t: TranscriptModel, bound: int, n: nat)
    requires
        t.round <= 65535,
    ensures
        ({
            let d = layers::draw_many::<E>(false, t, bound, n);
            let c = keccak::squeeze_many::<E>(t, FOLD_SAMPLE_LABEL@, n);
            &&& d.complete == c.complete
            &&& d.end == c.end
            &&& d.complete ==> d.positions.len() == n && c.values.len() == n
            &&& d.complete ==> forall|j: int|
                0 <= j < n ==> #[trigger] d.positions[j] == E::Scalar::repr_of(
                    c.values[j],
                )[0] as int % bound
        }),
    decreases n,
{
    if n > 0 {
        lemma_bytes_follow::<E>(t, bound, (n - 1) as nat);
    }
}

/// Samples of the byte schedule: each layer takes the next 48 challenges, and the position that a
/// challenge gives is the first byte of its encoding, modulo half the length of the layer. All
/// positions can be drawn exactly if that many challenges are left.
pub proof fn law_byte_positions<E: Engine>(
    t: TranscriptModel,
    roots: Seq<Seq<u8>>,
    m: nat,
    i: nat,
)
    requires
        t.round <= 65535,
        i <= m,
    ensures
        ({
            let d = layers::draw_layers::<E>(merkle_mle_pc::byte_schedule(), t, roots, m, i);
            let c = keccak::squeeze_many::<E>(t, FOLD_SAMPLE_LABEL@, 48 * i);
            &&& d.complete <==> t.round + 48 * i <= 65535
            &&& d.complete ==> d.end == c.end && d.positions.len() == i && c.values.len() == 48 * i
            &&& d.complete ==> forall|k: int, j: int|
                0 <= k < i && 0 <= j < 48 ==> #[trigger] d.positions[k][j] == E::Scalar::repr_of(
                    c.values[48 * k + j],
                )[0] as int % pow2((m - k - 1) as nat) as int
            &&& !d.complete ==> d.end.round == 65535
        }),
    decreases i,
{
    let label = FOLD_SAMPLE_LABEL@;
    keccak::law_challenges::<E>(t, label, 48 * i);
    if i > 0 {
        let h = (i - 1) as nat;
        law_byte_positions::<E>(t, roots, m, h);
        let before = layers::draw_layers::<E>(merkle_mle_pc::byte_schedule(), t, roots, m, h);
        let d = layers::draw_layers::<E>(merkle_mle_pc::byte_schedule(), t, roots, m, i);
        let c = keccak::squeeze_many::<E>(t, label, 48 * i);
        let first = keccak::squeeze_many::<E>(t, label, 48 * h);
        keccak::law_challenges::<E>(t, label, 48 * h);
        if before.complete {
            let bound = pow2((m - i) as nat) as int;
            lemma_bytes_follow::<E>(before.end, bound, 48);
            keccak::law_challenges::<E>(before.end, label, 48);
            if d.complete {
                assert(48 * i == 48 * h + 48);
                keccak::law_challenges_add::<E>(t, label, 48 * h, 48);
                let more = keccak::squeeze_many::<E>(first.end, label, 48);
                assert forall|k: int, j: int| 0 <= k < i && 0 <= j < 48 implies #[trigger] d.positions[k][j]
                    == E::Scalar::repr_of(c.values[48 * k + j])[0] as int % pow2(
                    (m - k - 1) as nat,
                ) as int by {
                    if k < h {
                        assert(d.positions[k] == before.positions[k]);
                        assert(before.positions[k][j] == E::Scalar::repr_of(
                            first.values[48 * k + j],
                        )[0] as int % pow2((m - k - 1) as nat) as int);
                        assert(c.values[48 * k + j] == first.values[48 * k + j]);
                    } else {
                        let now = layers::draw_many::<E>(false, before.end, bound, 48);
                        assert(d.positions[k] == now.positions);
                        assert(now.positions[j] == E::Scalar::repr_of(more.values[j])[0] as int
                            % bound);
                        assert(c.values[48 * k + j] == more.values[j]);
                    }
                }
            }
        }
    }
}

/// Draws that stop have used the transcript up.
proof fn lemma_many_fail<E: Engine>(unbiased: bool, t: TranscriptModel, bound: int, n: nat)
    requires
        t.round <= 65535,
    ensures
        layers::draw_many::<E>(unbiased, t, bound, n).end.round <= 65535,
        !layers::draw_many::<E>(unbiased, t, bound, n).complete ==> layers::draw_many::<E>(
            unbiased,
            t,
            bound,
            n,
        ).end.round == 65535,
    decreases n,
{
    if n > 0 {
        lemma_many_fail::<E>(unbiased, t, bound, (n - 1) as nat);
        let before = layers::draw_many::<E>(unbiased, t, bound, (n - 1) as nat);
        law_draw_fails_at_the_end::<E>(before.end, FOLD_SAMPLE_LABEL@, bound);
    }
}

/// Positions can be drawn for all layers unless the transcript is used up.
pub proof fn law_positions_fail_at_the_end<E: Engine>(
    s: Schedule,
    t: TranscriptModel,
    roots: Seq<Seq<u8>>,
    m: nat,
    i: nat,
)
    requires
        t.round <= 65535,
    ensures
        layers::draw_layers::<E>(s, t, roots, m, i).end.round <= 65535,
        !layers::draw_layers::<E>(s, t, roots, m, i).complete ==> layers::draw_layers::<E>(
            s,
            t,
            roots,
            m,
            i,
        ).end.round == 65535,
    decreases i,
{
    if i > 0 {
        law_positions_fail_at_the_end::<E>(s, t, roots, m, (i - 1) as nat);
        let before = layers::draw_layers::<E>(s, t, roots, m, (i - 1) as nat);
        let start = layers::layer_absorb(s.streaming, before.end, roots, i - 1);
        lemma_many_fail::<E>(s.unbiased, start, pow2((m - i) as nat) as int, 48);
    }
}

/// The prover over Keccak-256 succeeds exactly if the polynomial has as many values as the point
/// asks for and 48 challenges are left for each coordinate. It then returns the value of the
/// multilinear polynomial and an argument with a root for every layer, the first one being the root
/// that the polynomial is committed to with, and a round and 48 samples for every coordinate.
pub proof fn law_prover_succeeds<E: Engine>(
    ck: HashMleCommitmentKey<E>,
    t: TranscriptModel,
    comm: CommitmentModel,
    poly: Seq<int>,
    point: Seq<int>,
    outcome: Result<(int, ArgumentModel), ErrorModel>,
    end: TranscriptModel,
)
    requires
        t.round <= 65535,
        HashMlePCS::<E>::proves(ck, t, comm, poly, (), point, outcome, end),
    ensures
        outcome is Ok <==> poly.len() == pow2(point.len()) && t.round + 48 * point.len() <= 65535,
        poly.len() != pow2(point.len()) ==> outcome == Err::<(int, ArgumentModel), ErrorModel>(
            ErrorModel::InvalidInputLength(
                merkle_mle_pc::length_reason("HashMlePCS::prove"@, point.len(), poly.len()),
            ),
        ) && end == t,
        poly.len() == pow2(point.len()) && outcome is Err ==> outcome == Err::<
            (int, ArgumentModel),
            ErrorModel,
        >(ErrorModel::InternalTranscriptError) && end.round == 65535,
        outcome matches Ok((eval, arg)) ==> {
            &&& eval == multilinear::mle_eval(E::Scalar::modulus(), poly, point)
            &&& arg.layer_roots.len() == point.len() + 1
            &&& arg.rounds.len() == point.len()
            &&& arg.samples.len() == point.len()
            &&& HashMlePCS::<E>::commit_of(ck, poly, ()) matches Ok(c) && c.base_root
                == arg.layer_roots[0]
            &&& forall|i: int| 0 <= i < point.len() ==> (#[trigger] arg.samples[i]).len() == 48
            &&& end.round == t.round + 48 * point.len()
        },
{
    let m = point.len();
    let s = merkle_mle_pc::byte_schedule();
    let roots = layers::chain_roots::<E, BackendFfKeccak<E>>(poly, point);
    let start = merkle_mle_pc::bound_transcript(s, t, merkle_mle_pc::commitment_repr(comm), roots);
    assert(start.round == t.round);
    law_byte_positions::<E>(start, roots, m, m);
    keccak::law_challenges::<E>(start, FOLD_SAMPLE_LABEL@, 48 * m);
    layers::lemma_pow2_shape(m);
    if outcome is Ok {
        layers::lemma_draw_layers_sizes::<E>(s, start, roots, m, m);
    }
}

/// The prover over Poseidon2 succeeds if the polynomial has as many values as the point asks for,
/// unless the transcript is used up before all positions are drawn. It then returns the value of
/// the multilinear polynomial and an argument with a root for every layer, the first one being the
/// root that the polynomial is committed to with, and a round and 48 samples for every coordinate.
pub proof fn law_prover_succeeds_p3<E: Engine<Scalar = F>>(
    ck: HashMleCommitmentKey<E>,
    t: TranscriptModel,
    comm: CommitmentModel,
    poly: Seq<int>,
    point: Seq<int>,
    outcome: Result<(int, ArgumentModel), ErrorModel>,
    end: TranscriptModel,
)
    requires
        t.round <= 65535,
        HashMlePcsP3::<E>::proves(ck, t, comm, poly, (), point, outcome, end),
    ensures
        poly.len() != pow2(point.len()) ==> outcome == Err::<(int, ArgumentModel), ErrorModel>(
            ErrorModel::InvalidInputLength(
                merkle_mle_pc::length_reason(
                    if ck.zk_mode == merkle_mle_pc::ZkMode::LeakReduced {
                        "HashMlePCS_P3::prove"@
                    } else {
                        "HashMlePcsP3::prove_streaming"@
                    },
                    point.len(),
                    poly.len(),
                ),
            ),
        ) && end == t,
        poly.len() == pow2(point.len()) && outcome is Err ==> outcome == Err::<
            (int, ArgumentModel),
            ErrorModel,
        >(ErrorModel::InternalTranscriptError) && end.round == 65535,
        outcome matches Ok((eval, arg)) ==> {
            &&& poly.len() == pow2(point.len())
            &&& eval == multilinear::mle_eval(<E::Scalar as ScalarField>::modulus(), poly, point)
            &&& arg.layer_roots.len() == point.len() + 1
            &&& arg.rounds.len() == point.len()
            &&& arg.samples.len() == point.len()
            &&& HashMlePcsP3::<E>::commit_of(ck, poly, ()) matches Ok(c) && c.base_root
                == arg.layer_roots[0]
            &&& forall|i: int| 0 <= i < point.len() ==> (#[trigger] arg.samples[i]).len() == 48
        },
{
    let m = point.len();
    let s = merkle_mle_pc_p3::mode_schedule(ck.zk_mode);
    let roots = layers::chain_roots::<E, BackendP3Poseidon2Goldi<E>>(poly, point);
    let start = merkle_mle_pc::bound_transcript(s, t, merkle_mle_pc::commitment_repr(comm), roots);
    assert(start.round == t.round);
    law_positions_fail_at_the_end::<E>(s, start, roots, m, m);
    layers::lemma_pow2_shape(m);
    if outcome is Ok {
        layers::lemma_draw_layers_sizes::<E>(s, start, roots, m, m);
    }
}

/// What the verifier draws from is bound to the commitment and to all roots: the prover and the
/// verifier absorb the label, the commitment and, outside the streaming mode, the roots.
pub proof fn law_positions_depend_on(
    s: Schedule,
    t: TranscriptModel,
    comm: Seq<u8>,
    roots: Seq<Seq<u8>>,
    other: Seq<Seq<u8>>,
)
    ensures
        ({
            let a = merkle_mle_pc::bound_transcript(s, t, comm, roots);
            let b = merkle_mle_pc::bound_transcript(s, t, comm, other);
            let whole = t.pending + merkle_mle_pc::POLY_COM_LABEL@ + comm;
            &&& a.round == t.round
            &&& a.state == t.state
            &&& s.streaming ==> a.pending == whole
            &&& !s.streaming ==> a.pending == whole + merkle_mle_pc::TAG_LAYER_ROOTS@
                + roots.flatten_alt()
            &&& !s.streaming && a == b ==> roots.flatten_alt() == other.flatten_alt()
        }),
{
    let a = merkle_mle_pc::bound_transcript(s, t, comm, roots);
    let b = merkle_mle_pc::bound_transcript(s, t, comm, other);
    let whole = t.pending + merkle_mle_pc::POLY_COM_LABEL@ + comm + merkle_mle_pc::TAG_LAYER_ROOTS@;
    if !s.streaming {
        let n = whole.len() as int;
        assert(a.pending.skip(n) =~= roots.flatten_alt());
        assert(b.pending.skip(n) =~= other.flatten_alt());
    }
}

/// In the streaming mode, and only there, the samples between two layers are drawn from a
/// transcript that has absorbed the roots of both layers, so that other roots are drawn from in
/// another way. The scheme over Poseidon2 draws without bias in both modes.
pub proof fn law_streaming_binds_roots<E: Engine>(
    mode: merkle_mle_pc::ZkMode,
    t: TranscriptModel,
    bound: int,
    roots: Seq<Seq<u8>>,
    other: Seq<Seq<u8>>,
    i: int,
)
    requires
        0 <= i < roots.len() - 1,
        0 <= i < other.len() - 1,
        roots[i].len() == other[i].len(),
    ensures
        ({
            let s = merkle_mle_pc_p3::mode_schedule(mode);
            let a = layers::layer_absorb(s.streaming, t, roots, i);
            let b = layers::layer_absorb(s.streaming, t, other, i);
            &&& a.round == t.round
            &&& a.state == t.state
            &&& mode == merkle_mle_pc::ZkMode::LeakReduced ==> a == t
            &&& mode == merkle_mle_pc::ZkMode::LeakReducedStreaming && a == b ==> roots[i]
                == other[i] && roots[i + 1] == other[i + 1]
            &&& layers::draw::<E>(s.unbiased, t, bound) == layers::draw_unbiased::<E>(
                t,
                FOLD_SAMPLE_LABEL@,
                bound,
            )
        }),
{
    let s = merkle_mle_pc_p3::mode_schedule(mode);
    let a = layers::layer_absorb(s.streaming, t, roots, i);
    let b = layers::layer_absorb(s.streaming, t, other, i);
    if s.streaming {
        let n = t.pending.len() + merkle_mle_pc::TAG_ROOT_I@.len();
        let k = n + roots[i].len();
        let l = k + merkle_mle_pc::TAG_ROOT_IP1@.len();
        assert(a.pending.subrange(n as int, k as int) =~= roots[i]);
        assert(b.pending.subrange(n as int, k as int) =~= other[i]);
        assert(a.pending.skip(l as int) =~= roots[i + 1]);
        assert(b.pending.skip(l as int) =~= other[i + 1]);
    }
}

/// Drawing positions goes on where it stopped: the next position is drawn from the transcript that
/// the draws before it have left, and the next layer from the one that the layers before it have
/// left, with 48 positions below half of its length.
pub proof fn law_draws_go_on<E: Engine>(
    s: Schedule,
    t: TranscriptModel,
    bound: int,
    n: nat,
    roots: Seq<Seq<u8>>,
    m: nat,
    i: nat,
)
    requires
        layers::draw_many::<E>(s.unbiased, t, bound, n + 1).complete,
        layers::draw_layers::<E>(s, t, roots, m, i + 1).complete,
    ensures
        ({
            let now = layers::draw_many::<E>(s.unbiased, t, bound, n);
            let more = layers::draw_many::<E>(s.unbiased, t, bound, n + 1);
            let (idx, end) = layers::draw::<E>(s.unbiased, now.end, bound);
            &&& now.complete
            &&& more.positions == now.positions + seq![idx->Some_0]
            &&& idx is Some
            &&& more.end == end
        }),
        ({
            let now = layers::draw_layers::<E>(s, t, roots, m, i);
            let more = layers::draw_layers::<E>(s, t, roots, m, i + 1);
            let start = layers::layer_absorb(s.streaming, now.end, roots, i as int);
            let next = layers::draw_many::<E>(
                s.unbiased,
                start,
                pow2((m - i - 1) as nat) as int,
                48,
            );
            &&& now.complete
            &&& next.complete
            &&& next.positions.len() == 48
            &&& more.positions == now.positions + seq![next.positions]
            &&& more.end == next.end
        }),
{
    let now = layers::draw_many::<E>(s.unbiased, t, bound, n);
    let more = layers::draw_many::<E>(s.unbiased, t, bound, n + 1);
    let idx = layers::draw::<E>(s.unbiased, now.end, bound).0;
    assert(more.positions =~= now.positions + seq![idx->Some_0]);
    let now = layers::draw_layers::<E>(s, t, roots, m, i);
    let more = layers::draw_layers::<E>(s, t, roots, m, i + 1);
    let start = layers::layer_absorb(s.streaming, now.end, roots, i as int);
    let below = pow2((m - i - 1) as nat) as int;
    let next = layers::draw_many::<E>(s.unbiased, start, below, 48);
    assert((m - (i + 1)) as nat == (m - i - 1) as nat);
    layers::lemma_draw_many_prefix::<E>(s.unbiased, start, below, 48, 48);
    assert(more.positions =~= now.positions + seq![next.positions]);
}

} // verus!
