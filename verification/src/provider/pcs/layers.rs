//! The chain of layers that an evaluation argument opens.
//!
//! Binding the variables of a table one after the other gives layers of half the length each; the
//! last one holds the value of the table's multilinear extension. Every layer is committed to by
//! a Merkle tree. An argument opens, between each layer and the next one, the pair at position
//! zero and the pairs at positions drawn from a transcript.
use super::hash_mle_backend::{same_bytes, Digest32, MleBackend};
use super::merkle_mle_pc::{
    self, HashMleEvaluationArgument, Round, SampleOpening, FOLD_SAMPLE_LABEL, K_SAMPLES_PER_ROUND,
    TAG_ROOT_I, TAG_ROOT_IP1,
};
use super::merkle_tree::{self, leaf_digest, MerklePath, MerkleRoot, MerkleTree, PathModel};
use crate::errors::{self, ErrorModel, SpartanError};
use crate::polys::multilinear::{self, fold_two};
use crate::provider::keccak::{Keccak256Transcript, TranscriptModel};
use crate::traits::{self, Engine, ScalarField};
#[allow(unused_imports)]
use vstd::arithmetic::div_mod::*;
#[allow(unused_imports)]
use vstd::arithmetic::power2::*;
use vstd::prelude::*;

verus! {

/// What an opened pair says: the values at a position of a layer, at the position half a layer
/// further, and at the same position of the next layer, each with its authentication path.
pub struct PairModel {
    /// The value in the first half of the layer.
    pub a: int,
    /// The value in the second half of the layer.
    pub b: int,
    /// The value in the next layer.
    pub next: int,
    /// The path of `a`.
    pub path_a: PathModel,
    /// The path of `b`.
    pub path_b: PathModel,
    /// The path of `next`.
    pub path_next: PathModel,
}

/// What a sample says: a position and the pair opened there.
pub struct SampleModel {
    /// The position.
    pub idx: int,
    /// The opened pair.
    pub pair: PairModel,
}

/// What an evaluation argument says.
pub struct ArgumentModel {
    /// The root of every layer.
    pub layer_roots: Seq<Seq<u8>>,
    /// The pair at position zero, for every layer but the last.
    pub rounds: Seq<PairModel>,
    /// The sampled pairs, for every layer but the last.
    pub samples: Seq<Seq<SampleModel>>,
}

/// How sample positions are drawn.
pub struct Schedule {
    /// Whether positions are drawn without bias, or from the first byte of a challenge.
    pub unbiased: bool,
    /// Whether the roots of two neighbouring layers are absorbed in front of their samples.
    pub streaming: bool,
}

/// The leaf digests of a layer.
pub open spec fn leaves_of<E: Engine, B: MleBackend<E>>(v: Seq<int>) -> Seq<Seq<u8>> {
    v.map_values(|x: int| B::leaf_of(x))
}

/// The root of the tree over a layer.
pub open spec fn layer_root<E: Engine, B: MleBackend<E>>(v: Seq<int>) -> Seq<u8> {
    merkle_tree::tree_root::<E, B>(leaves_of::<E, B>(v))
}

/// The authentication path of position `idx` of a layer.
pub open spec fn layer_path<E: Engine, B: MleBackend<E>>(v: Seq<int>, idx: int) -> PathModel {
    PathModel {
        leaf_index: idx,
        siblings: merkle_tree::tree_path::<E, B>(leaves_of::<E, B>(v), idx),
    }
}

/// The pair at position `idx` of the layers `cur` and `nxt`.
pub open spec fn pair_at<E: Engine, B: MleBackend<E>>(
    cur: Seq<int>,
    nxt: Seq<int>,
    idx: int,
) -> PairModel {
    let half = (cur.len() / 2) as int;
    PairModel {
        a: cur[idx],
        b: cur[idx + half],
        next: nxt[idx],
        path_a: layer_path::<E, B>(cur, idx),
        path_b: layer_path::<E, B>(cur, idx + half),
        path_next: layer_path::<E, B>(nxt, idx),
    }
}

/// The roots of all layers.
pub open spec fn chain_roots<E: Engine, B: MleBackend<E>>(v: Seq<int>, point: Seq<int>) -> Seq<
    Seq<u8>,
> {
    Seq::new(
        point.len() + 1,
        |i: int| layer_root::<E, B>(multilinear::layer(E::Scalar::modulus(), v, point, i as nat)),
    )
}

/// The pair at position `idx` of the layers `i` and `i + 1`.
pub open spec fn chain_pair<E: Engine, B: MleBackend<E>>(
    v: Seq<int>,
    point: Seq<int>,
    i: int,
    idx: int,
) -> PairModel {
    let p = E::Scalar::modulus();
    pair_at::<E, B>(
        multilinear::layer(p, v, point, i as nat),
        multilinear::layer(p, v, point, (i + 1) as nat),
        idx,
    )
}

/// The argument that opens the layers at position zero and at the given positions.
pub open spec fn chain_argument<E: Engine, B: MleBackend<E>>(
    v: Seq<int>,
    point: Seq<int>,
    positions: Seq<Seq<int>>,
) -> ArgumentModel {
    ArgumentModel {
        layer_roots: chain_roots::<E, B>(v, point),
        rounds: Seq::new(point.len(), |i: int| chain_pair::<E, B>(v, point, i, 0)),
        samples: Seq::new(
            point.len(),
            |i: int|
                Seq::new(
                    positions[i].len(),
                    |j: int|
                        SampleModel {
                            idx: positions[i][j],
                            pair: chain_pair::<E, B>(v, point, i, positions[i][j]),
                        },
                ),
        ),
    }
}

/// Draws an integer in `0..bound` without bias: a challenge at or above the largest multiple of
/// `bound` is thrown away. Gives no integer when the transcript is used up.
pub open spec fn draw_unbiased<E: Engine>(t: TranscriptModel, label: Seq<u8>, bound: int) -> (
    Option<int>,
    TranscriptModel,
)
    decreases u16::MAX - t.round,
{
    if !t.can_squeeze() {
        (None, t)
    } else {
        let p = E::Scalar::modulus();
        let s = E::Scalar::uniform_of(t.digest(label));
        if s < p - p % bound {
            (Some(s % bound), t.squeeze(label))
        } else {
            draw_unbiased::<E>(t.squeeze(label), label, bound)
        }
    }
}

/// Draws a position in `0..bound` from the first byte of a challenge.
pub open spec fn draw_byte<E: Engine>(t: TranscriptModel, label: Seq<u8>, bound: int) -> (
    Option<int>,
    TranscriptModel,
) {
    if !t.can_squeeze() {
        (None, t)
    } else {
        let s = E::Scalar::uniform_of(t.digest(label));
        (Some(E::Scalar::repr_of(s)[0] as int % bound), t.squeeze(label))
    }
}

/// Draws a position in `0..bound`.
pub open spec fn draw<E: Engine>(unbiased: bool, t: TranscriptModel, bound: int) -> (
    Option<int>,
    TranscriptModel,
) {
    if unbiased {
        draw_unbiased::<E>(t, FOLD_SAMPLE_LABEL@, bound)
    } else {
        draw_byte::<E>(t, FOLD_SAMPLE_LABEL@, bound)
    }
}

/// Positions drawn from a transcript.
pub struct Draws<T> {
    /// The positions.
    pub positions: Seq<T>,
    /// The transcript after the draws.
    pub end: TranscriptModel,
    /// Whether the transcript gave all the positions.
    pub complete: bool,
}

/// `k` positions in `0..bound`, drawn one after the other.
pub open spec fn draw_many<E: Engine>(
    unbiased: bool,
    t: TranscriptModel,
    bound: int,
    k: nat,
) -> Draws<int>
    decreases k,
{
    if k == 0 {
        Draws { positions: Seq::empty(), end: t, complete: true }
    } else {
        let before = draw_many::<E>(unbiased, t, bound, (k - 1) as nat);
        if !before.complete {
            before
        } else {
            let (idx, end) = draw::<E>(unbiased, before.end, bound);
            match idx {
                Some(idx) => Draws {
                    positions: before.positions.push(idx),
                    end,
                    complete: true,
                },
                None => Draws { end, complete: false, ..before },
            }
        }
    }
}

/// What is absorbed in front of the samples between the layers `i` and `i + 1`.
pub open spec fn layer_absorb(
    streaming: bool,
    t: TranscriptModel,
    roots: Seq<Seq<u8>>,
    i: int,
) -> TranscriptModel {
    if streaming {
        t.absorb(TAG_ROOT_I@, roots[i]).absorb(TAG_ROOT_IP1@, roots[i + 1])
    } else {
        t
    }
}

/// The sample positions of the first `i` of `m` layers.
pub open spec fn draw_layers<E: Engine>(
    s: Schedule,
    t: TranscriptModel,
    roots: Seq<Seq<u8>>,
    m: nat,
    i: nat,
) -> Draws<Seq<int>>
    decreases i,
{
    if i == 0 {
        Draws { positions: Seq::empty(), end: t, complete: true }
    } else {
        let before = draw_layers::<E>(s, t, roots, m, (i - 1) as nat);
        if !before.complete {
            before
        } else {
            let start = layer_absorb(s.streaming, before.end, roots, i - 1);
            let now = draw_many::<E>(
                s.unbiased,
                start,
                pow2((m - i) as nat) as int,
                K_SAMPLES_PER_ROUND as nat,
            );
            Draws {
                positions: before.positions.push(now.positions),
                end: now.end,
                complete: now.complete,
            }
        }
    }
}

/// The pair opened at position `idx` fits the roots of a layer of `2^depth` values and of the
/// next layer, and its values are folded with `r`.
pub open spec fn pair_ok<E: Engine, B: MleBackend<E>>(
    o: PairModel,
    root: Seq<u8>,
    next_root: Seq<u8>,
    depth: int,
    idx: int,
    r: int,
) -> bool {
    &&& depth > 0
    &&& o.path_a.siblings.len() == depth
    &&& o.path_b.siblings.len() == depth
    &&& o.path_next.siblings.len() == depth - 1
    &&& o.path_a.leaf_index == idx
    &&& o.path_b.leaf_index == idx + pow2((depth - 1) as nat)
    &&& o.path_next.leaf_index == idx
    &&& merkle_tree::path_root::<E, B>(
        B::leaf_of(o.a),
        o.path_a.leaf_index,
        o.path_a.siblings,
    ) == root
    &&& merkle_tree::path_root::<E, B>(
        B::leaf_of(o.b),
        o.path_b.leaf_index,
        o.path_b.siblings,
    ) == root
    &&& merkle_tree::path_root::<E, B>(
        B::leaf_of(o.next),
        o.path_next.leaf_index,
        o.path_next.siblings,
    ) == next_root
    &&& o.next == multilinear::fold_pair(E::Scalar::modulus(), o.a, o.b, r)
}

/// The pair at position zero of layer `i` is opened as it must be.
pub open spec fn round_ok<E: Engine, B: MleBackend<E>>(
    arg: ArgumentModel,
    point: Seq<int>,
    i: int,
) -> bool {
    pair_ok::<E, B>(
        arg.rounds[i],
        arg.layer_roots[i],
        arg.layer_roots[i + 1],
        point.len() - i,
        0,
        point[i],
    )
}

/// The pairs at position zero are opened as they must be.
pub open spec fn rounds_ok<E: Engine, B: MleBackend<E>>(arg: ArgumentModel, point: Seq<int>) -> bool {
    forall|i: int| 0 <= i < point.len() ==> #[trigger] round_ok::<E, B>(arg, point, i)
}

/// Sample `j` of layer `i` opens the pair at position `idx` as it must be.
pub open spec fn sample_ok<E: Engine, B: MleBackend<E>>(
    arg: ArgumentModel,
    point: Seq<int>,
    i: int,
    j: int,
    idx: int,
) -> bool {
    let s = arg.samples[i][j];
    &&& s.idx == idx
    &&& pair_ok::<E, B>(
        s.pair,
        arg.layer_roots[i],
        arg.layer_roots[i + 1],
        point.len() - i,
        idx,
        point[i],
    )
}

/// How far the check of samples came.
pub struct Walk {
    /// The transcript after the draws that were made.
    pub end: TranscriptModel,
    /// What the check found.
    pub found: Result<(), ErrorModel>,
}

/// The check of the first `k` samples of layer `i`.
pub open spec fn walk_samples<E: Engine, B: MleBackend<E>>(
    unbiased: bool,
    t: TranscriptModel,
    arg: ArgumentModel,
    point: Seq<int>,
    i: int,
    k: nat,
) -> Walk
    decreases k,
{
    if k == 0 {
        Walk { end: t, found: Ok(()) }
    } else {
        let before = walk_samples::<E, B>(unbiased, t, arg, point, i, (k - 1) as nat);
        if before.found is Err {
            before
        } else {
            let (idx, end) = draw::<E>(
                unbiased,
                before.end,
                pow2((point.len() - i - 1) as nat) as int,
            );
            match idx {
                None => Walk { end, found: Err(ErrorModel::InternalTranscriptError) },
                Some(idx) => if sample_ok::<E, B>(arg, point, i, k - 1, idx) {
                    Walk { end, found: Ok(()) }
                } else {
                    Walk { end, found: Err(ErrorModel::InvalidPCS) }
                },
            }
        }
    }
}

/// The check of the samples of the first `i` layers.
pub open spec fn walk_layers<E: Engine, B: MleBackend<E>>(
    s: Schedule,
    t: TranscriptModel,
    arg: ArgumentModel,
    point: Seq<int>,
    i: nat,
) -> Walk
    decreases i,
{
    if i == 0 {
        Walk { end: t, found: Ok(()) }
    } else {
        let before = walk_layers::<E, B>(s, t, arg, point, (i - 1) as nat);
        if before.found is Err {
            before
        } else if arg.samples[i - 1].len() != K_SAMPLES_PER_ROUND {
            Walk { found: Err(ErrorModel::InvalidPCS), ..before }
        } else {
            walk_samples::<E, B>(
                s.unbiased,
                layer_absorb(s.streaming, before.end, arg.layer_roots, i - 1),
                arg,
                point,
                i - 1,
                K_SAMPLES_PER_ROUND as nat,
            )
        }
    }
}

/// A power of two is one, and the tree over so many leaves is as high as the exponent.
pub proof fn lemma_pow2_shape(m: nat)
    ensures
        merkle_tree::is_pow2(pow2(m)),
        merkle_tree::height(pow2(m)) == m,
        pow2(m) > 0,
    decreases m,
{
    lemma2_to64();
    if m > 0 {
        lemma_pow2_shape((m - 1) as nat);
        lemma_pow2_unfold(m);
    }
}

/// A number that is a power of two is two to its height.
pub proof fn lemma_height_pow2(n: nat)
    requires
        merkle_tree::is_pow2(n),
    ensures
        n == pow2(merkle_tree::height(n)),
    decreases n,
{
    lemma2_to64();
    if n > 1 {
        lemma_height_pow2(n / 2);
        lemma_pow2_unfold(merkle_tree::height(n));
    }
}

/// A drawn position lies below the bound.
pub proof fn lemma_draw_range<E: Engine>(unbiased: bool, t: TranscriptModel, bound: int)
    requires
        bound > 0,
    ensures
        draw::<E>(unbiased, t, bound).0 matches Some(idx) ==> 0 <= idx < bound,
{
    if unbiased {
        lemma_unbiased_range::<E>(t, FOLD_SAMPLE_LABEL@, bound);
    }
}

/// An integer drawn without bias lies below the bound.
pub proof fn lemma_unbiased_range<E: Engine>(t: TranscriptModel, label: Seq<u8>, bound: int)
    requires
        bound > 0,
    ensures
        draw_unbiased::<E>(t, label, bound).0 matches Some(idx) ==> 0 <= idx < bound,
    decreases u16::MAX - t.round,
{
    if t.can_squeeze() {
        lemma_unbiased_range::<E>(t.squeeze(label), label, bound);
    }
}

/// Layer `i` of a table of `2^m` values holds `2^(m - i)` values.
pub proof fn lemma_layer_len(p: int, v: Seq<int>, point: Seq<int>, i: nat)
    requires
        v.len() == pow2(point.len()),
        i <= point.len(),
    ensures
        multilinear::layer(p, v, point, i).len() == pow2((point.len() - i) as nat),
    decreases i,
{
    if i > 0 {
        lemma_layer_len(p, v, point, (i - 1) as nat);
        lemma_pow2_unfold((point.len() - i + 1) as nat);
    }
}

/// A pair of the chain of layers passes the check.
pub proof fn lemma_chain_pair_ok<E: Engine, B: MleBackend<E>>(
    v: Seq<int>,
    point: Seq<int>,
    i: int,
    idx: int,
)
    requires
        v.len() == pow2(point.len()),
        0 <= i < point.len(),
        0 <= idx < pow2((point.len() - i - 1) as nat),
    ensures
        pair_ok::<E, B>(
            chain_pair::<E, B>(v, point, i, idx),
            chain_roots::<E, B>(v, point)[i],
            chain_roots::<E, B>(v, point)[i + 1],
            point.len() - i,
            idx,
            point[i],
        ),
{
    let p = E::Scalar::modulus();
    let m = point.len();
    let cur = multilinear::layer(p, v, point, i as nat);
    let nxt = multilinear::layer(p, v, point, (i + 1) as nat);
    lemma_layer_len(p, v, point, i as nat);
    lemma_layer_len(p, v, point, (i + 1) as nat);
    lemma_pow2_unfold((m - i) as nat);
    lemma_pow2_shape((m - i) as nat);
    lemma_pow2_shape((m - i - 1) as nat);
    let half = (cur.len() / 2) as int;
    assert(half == pow2((m - i - 1) as nat));
    merkle_tree::law_open_verifies::<E, B>(leaves_of::<E, B>(cur), idx);
    merkle_tree::law_open_verifies::<E, B>(leaves_of::<E, B>(cur), idx + half);
    merkle_tree::law_open_verifies::<E, B>(leaves_of::<E, B>(nxt), idx);
    assert(nxt == multilinear::fold(p, cur, point[i]));
}

/// The samples of layer `i` open the drawn positions of the chain.
pub open spec fn samples_follow<E: Engine, B: MleBackend<E>>(
    arg: ArgumentModel,
    v: Seq<int>,
    point: Seq<int>,
    i: int,
    positions: Seq<int>,
) -> bool {
    &&& arg.samples[i].len() == positions.len()
    &&& forall|j: int|
        0 <= j < positions.len() ==> (#[trigger] arg.samples[i][j]) == (SampleModel {
            idx: positions[j],
            pair: chain_pair::<E, B>(v, point, i, positions[j]),
        })
}

/// Fewer draws give the first positions of more draws.
pub proof fn lemma_draw_many_prefix<E: Engine>(
    unbiased: bool,
    t: TranscriptModel,
    bound: int,
    k: nat,
    n: nat,
)
    requires
        k <= n,
        draw_many::<E>(unbiased, t, bound, n).complete,
    ensures
        draw_many::<E>(unbiased, t, bound, k).complete,
        draw_many::<E>(unbiased, t, bound, k).positions.len() == k,
        draw_many::<E>(unbiased, t, bound, n).positions.len() == n,
        draw_many::<E>(unbiased, t, bound, k).positions == draw_many::<E>(
            unbiased,
            t,
            bound,
            n,
        ).positions.take(k as int),
    decreases n,
{
    let all = draw_many::<E>(unbiased, t, bound, n).positions;
    if n > 0 {
        let fewer = draw_many::<E>(unbiased, t, bound, (n - 1) as nat).positions;
        if k < n {
            lemma_draw_many_prefix::<E>(unbiased, t, bound, k, (n - 1) as nat);
            assert(fewer.take(k as int) =~= all.take(k as int));
        } else {
            lemma_draw_many_prefix::<E>(unbiased, t, bound, (n - 1) as nat, (n - 1) as nat);
            assert(all.take(k as int) =~= all);
        }
    } else {
        assert(all.take(0) =~= all);
    }
}

/// Samples that open the drawn positions of the chain pass the check.
pub proof fn lemma_walk_samples_ok<E: Engine, B: MleBackend<E>>(
    unbiased: bool,
    t: TranscriptModel,
    arg: ArgumentModel,
    v: Seq<int>,
    point: Seq<int>,
    i: int,
    k: nat,
    n: nat,
)
    requires
        v.len() == pow2(point.len()),
        0 <= i < point.len(),
        k <= n,
        arg.layer_roots == chain_roots::<E, B>(v, point),
        draw_many::<E>(unbiased, t, pow2((point.len() - i - 1) as nat) as int, n).complete,
        samples_follow::<E, B>(
            arg,
            v,
            point,
            i,
            draw_many::<E>(unbiased, t, pow2((point.len() - i - 1) as nat) as int, n).positions,
        ),
    ensures
        walk_samples::<E, B>(unbiased, t, arg, point, i, k) == (Walk {
            end: draw_many::<E>(unbiased, t, pow2((point.len() - i - 1) as nat) as int, k).end,
            found: Ok(()),
        }),
    decreases k,
{
    if k > 0 {
        let bound = pow2((point.len() - i - 1) as nat) as int;
        lemma_walk_samples_ok::<E, B>(unbiased, t, arg, v, point, i, (k - 1) as nat, n);
        lemma_draw_many_prefix::<E>(unbiased, t, bound, k, n);
        lemma_draw_many_prefix::<E>(unbiased, t, bound, (k - 1) as nat, n);
        let before = draw_many::<E>(unbiased, t, bound, (k - 1) as nat);
        let all = draw_many::<E>(unbiased, t, bound, n).positions;
        lemma_pow2_pos((point.len() - i - 1) as nat);
        lemma_draw_range::<E>(unbiased, before.end, bound);
        let idx = draw::<E>(unbiased, before.end, bound).0.unwrap();
        let now = draw_many::<E>(unbiased, t, bound, k).positions;
        assert(now[k - 1] == idx);
        assert(all[k - 1] == idx);
        lemma_chain_pair_ok::<E, B>(v, point, i, idx);
        assert(arg.samples[i][k - 1].idx == idx);
    }
}

/// Fewer layers give the first positions of more layers.
pub proof fn lemma_draw_layers_prefix<E: Engine>(
    s: Schedule,
    t: TranscriptModel,
    roots: Seq<Seq<u8>>,
    m: nat,
    i: nat,
    n: nat,
)
    requires
        i <= n,
        draw_layers::<E>(s, t, roots, m, n).complete,
    ensures
        draw_layers::<E>(s, t, roots, m, i).complete,
        draw_layers::<E>(s, t, roots, m, i).positions.len() == i,
        draw_layers::<E>(s, t, roots, m, n).positions.len() == n,
        draw_layers::<E>(s, t, roots, m, i).positions == draw_layers::<E>(
            s,
            t,
            roots,
            m,
            n,
        ).positions.take(i as int),
    decreases n,
{
    let all = draw_layers::<E>(s, t, roots, m, n).positions;
    if n > 0 {
        let fewer = draw_layers::<E>(s, t, roots, m, (n - 1) as nat).positions;
        if i < n {
            lemma_draw_layers_prefix::<E>(s, t, roots, m, i, (n - 1) as nat);
            assert(fewer.take(i as int) =~= all.take(i as int));
        } else {
            lemma_draw_layers_prefix::<E>(s, t, roots, m, (n - 1) as nat, (n - 1) as nat);
            assert(all.take(i as int) =~= all);
        }
    } else {
        assert(all.take(0) =~= all);
    }
}

/// Complete draws give the same number of positions for each layer.
pub proof fn lemma_draw_layers_sizes<E: Engine>(
    s: Schedule,
    t: TranscriptModel,
    roots: Seq<Seq<u8>>,
    m: nat,
    i: nat,
)
    requires
        draw_layers::<E>(s, t, roots, m, i).complete,
    ensures
        draw_layers::<E>(s, t, roots, m, i).positions.len() == i,
        forall|k: int|
            0 <= k < i ==> (#[trigger] draw_layers::<E>(s, t, roots, m, i).positions[k]).len()
                == K_SAMPLES_PER_ROUND,
    decreases i,
{
    if i > 0 {
        let before = draw_layers::<E>(s, t, roots, m, (i - 1) as nat);
        lemma_draw_layers_sizes::<E>(s, t, roots, m, (i - 1) as nat);
        let n = K_SAMPLES_PER_ROUND as nat;
        let start = layer_absorb(s.streaming, before.end, roots, i - 1);
        lemma_draw_many_prefix::<E>(s.unbiased, start, pow2((m - i) as nat) as int, n, n);
    }
}

/// The argument that opens the drawn positions of the chain passes the check of its samples,
/// which leaves the transcript where the draws left it.
pub proof fn lemma_walk_layers_ok<E: Engine, B: MleBackend<E>>(
    s: Schedule,
    t: TranscriptModel,
    v: Seq<int>,
    point: Seq<int>,
    i: nat,
)
    requires
        v.len() == pow2(point.len()),
        i <= point.len(),
        draw_layers::<E>(
            s,
            t,
            chain_roots::<E, B>(v, point),
            point.len(),
            point.len(),
        ).complete,
    ensures
        ({
            let m = point.len();
            let roots = chain_roots::<E, B>(v, point);
            let draws = draw_layers::<E>(s, t, roots, m, m);
            let arg = chain_argument::<E, B>(v, point, draws.positions);
            walk_layers::<E, B>(s, t, arg, point, i) == (Walk {
                end: draw_layers::<E>(s, t, roots, m, i).end,
                found: Ok(()),
            })
        }),
    decreases i,
{
    let m = point.len();
    let roots = chain_roots::<E, B>(v, point);
    let draws = draw_layers::<E>(s, t, roots, m, m);
    let arg = chain_argument::<E, B>(v, point, draws.positions);
    if i > 0 {
        let k = (i - 1) as nat;
        lemma_walk_layers_ok::<E, B>(s, t, v, point, k);
        lemma_draw_layers_prefix::<E>(s, t, roots, m, k, m);
        lemma_draw_layers_prefix::<E>(s, t, roots, m, i, m);
        let before = draw_layers::<E>(s, t, roots, m, k);
        let start = layer_absorb(s.streaming, before.end, roots, k as int);
        let bound = pow2((m - i) as nat) as int;
        let n = K_SAMPLES_PER_ROUND as nat;
        let now = draw_many::<E>(s.unbiased, start, bound, n);
        let upto = draw_layers::<E>(s, t, roots, m, i);
        assert(now.complete);
        assert(upto.positions[k as int] == now.positions);
        assert(draws.positions[k as int] == now.positions);
        lemma_draw_many_prefix::<E>(s.unbiased, start, bound, n, n);
        lemma_walk_samples_ok::<E, B>(s.unbiased, start, arg, v, point, k as int, n, n);
    }
}

/// The argument that opens the chain passes the check of its rounds.
pub proof fn lemma_rounds_ok<E: Engine, B: MleBackend<E>>(
    v: Seq<int>,
    point: Seq<int>,
    positions: Seq<Seq<int>>,
)
    requires
        v.len() == pow2(point.len()),
    ensures
        rounds_ok::<E, B>(chain_argument::<E, B>(v, point, positions), point),
{
    let arg = chain_argument::<E, B>(v, point, positions);
    assert forall|i: int| 0 <= i < point.len() implies #[trigger] round_ok::<E, B>(
        arg,
        point,
        i,
    ) by {
        lemma_pow2_pos((point.len() - i - 1) as nat);
        lemma_chain_pair_ok::<E, B>(v, point, i, 0);
    }
}

/// The check of the first `k` samples of a layer finds nothing wrong exactly if the transcript
/// gives `k` positions and every sample opens the pair at its position.
pub proof fn lemma_walk_samples_iff<E: Engine, B: MleBackend<E>>(
    unbiased: bool,
    t: TranscriptModel,
    arg: ArgumentModel,
    point: Seq<int>,
    i: int,
    k: nat,
)
    ensures
        ({
            let d = draw_many::<E>(unbiased, t, pow2((point.len() - i - 1) as nat) as int, k);
            let w = walk_samples::<E, B>(unbiased, t, arg, point, i, k);
            &&& w.found is Ok <==> d.complete && forall|j: int|
                0 <= j < k ==> sample_ok::<E, B>(arg, point, i, j, #[trigger] d.positions[j])
            &&& w.found is Ok ==> w.end == d.end
            &&& d.complete ==> d.positions.len() == k
        }),
    decreases k,
{
    if k > 0 {
        let bound = pow2((point.len() - i - 1) as nat) as int;
        lemma_walk_samples_iff::<E, B>(unbiased, t, arg, point, i, (k - 1) as nat);
        let before = draw_many::<E>(unbiased, t, bound, (k - 1) as nat);
        let d = draw_many::<E>(unbiased, t, bound, k);
        if d.complete {
            assert(d.positions.drop_last() =~= before.positions);
            assert forall|j: int| 0 <= j < k - 1 implies before.positions[j] == d.positions[j] by {}
            if walk_samples::<E, B>(unbiased, t, arg, point, i, k).found is Ok {
                assert forall|j: int| 0 <= j < k implies sample_ok::<E, B>(
                    arg,
                    point,
                    i,
                    j,
                    #[trigger] d.positions[j],
                ) by {
                    if j < k - 1 {
                        assert(sample_ok::<E, B>(arg, point, i, j, before.positions[j]));
                    }
                }
            }
            if forall|j: int|
                0 <= j < k ==> sample_ok::<E, B>(arg, point, i, j, #[trigger] d.positions[j]) {
                assert forall|j: int| 0 <= j < k - 1 implies sample_ok::<E, B>(
                    arg,
                    point,
                    i,
                    j,
                    #[trigger] before.positions[j],
                ) by {
                    assert(sample_ok::<E, B>(arg, point, i, j, d.positions[j]));
                }
                assert(sample_ok::<E, B>(arg, point, i, k - 1, d.positions[k - 1]));
            }
        }
    }
}

/// The samples of layer `i` open the pairs at the given positions.
pub open spec fn layer_samples_ok<E: Engine, B: MleBackend<E>>(
    arg: ArgumentModel,
    point: Seq<int>,
    i: int,
    positions: Seq<int>,
) -> bool {
    &&& arg.samples[i].len() == K_SAMPLES_PER_ROUND
    &&& forall|j: int|
        0 <= j < K_SAMPLES_PER_ROUND ==> sample_ok::<E, B>(
            arg,
            point,
            i,
            j,
            #[trigger] positions[j],
        )
}

/// The check of the samples of the first `i` layers finds nothing wrong exactly if the transcript
/// gives all positions and every sample opens the pair at its position.
pub proof fn law_walk_accepts_iff<E: Engine, B: MleBackend<E>>(
    s: Schedule,
    t: TranscriptModel,
    arg: ArgumentModel,
    point: Seq<int>,
    i: nat,
)
    ensures
        ({
            let d = draw_layers::<E>(s, t, arg.layer_roots, point.len(), i);
            let w = walk_layers::<E, B>(s, t, arg, point, i);
            &&& w.found is Ok <==> d.complete && forall|k: int|
                0 <= k < i ==> layer_samples_ok::<E, B>(arg, point, k, #[trigger] d.positions[k])
            &&& w.found is Ok ==> w.end == d.end
            &&& d.complete ==> d.positions.len() == i
        }),
    decreases i,
{
    if i > 0 {
        law_walk_accepts_iff::<E, B>(s, t, arg, point, (i - 1) as nat);
        let before = draw_layers::<E>(s, t, arg.layer_roots, point.len(), (i - 1) as nat);
        let d = draw_layers::<E>(s, t, arg.layer_roots, point.len(), i);
        let w = walk_layers::<E, B>(s, t, arg, point, i);
        let start = layer_absorb(s.streaming, before.end, arg.layer_roots, i - 1);
        lemma_walk_samples_iff::<E, B>(
            s.unbiased,
            start,
            arg,
            point,
            i - 1,
            K_SAMPLES_PER_ROUND as nat,
        );
        if d.complete {
            assert(d.positions.drop_last() =~= before.positions);
            if w.found is Ok {
                assert forall|k: int| 0 <= k < i implies layer_samples_ok::<E, B>(
                    arg,
                    point,
                    k,
                    #[trigger] d.positions[k],
                ) by {
                    if k < i - 1 {
                        assert(layer_samples_ok::<E, B>(arg, point, k, before.positions[k]));
                    }
                }
            }
            if forall|k: int|
                0 <= k < i ==> layer_samples_ok::<E, B>(arg, point, k, #[trigger] d.positions[k]) {
                assert forall|k: int| 0 <= k < i - 1 implies layer_samples_ok::<E, B>(
                    arg,
                    point,
                    k,
                    #[trigger] before.positions[k],
                ) by {
                    assert(layer_samples_ok::<E, B>(arg, point, k, d.positions[k]));
                }
                assert(layer_samples_ok::<E, B>(arg, point, i - 1, d.positions[i - 1]));
            }
        }
    }
}

/// A pair that passes the check against the root of a committed layer holds leaves of that layer,
/// or else its paths and those of the layer exhibit a collision of the hash of inner nodes.
pub proof fn law_opening_is_bound<E: Engine, B: MleBackend<E>>(
    o: PairModel,
    v: Seq<int>,
    next_root: Seq<u8>,
    depth: int,
    idx: int,
    r: int,
)
    requires
        depth > 0,
        v.len() == pow2(depth as nat),
        0 <= idx < pow2((depth - 1) as nat),
        pair_ok::<E, B>(o, layer_root::<E, B>(v), next_root, depth, idx, r),
    ensures
        ({
            let other = idx + pow2((depth - 1) as nat);
            let leaves = leaves_of::<E, B>(v);
            &&& B::leaf_of(o.a) == B::leaf_of(v[idx]) || merkle_tree::paths_clash::<E, B>(
                B::leaf_of(o.a),
                B::leaf_of(v[idx]),
                idx,
                o.path_a.siblings,
                merkle_tree::tree_path::<E, B>(leaves, idx),
            )
            &&& B::leaf_of(o.b) == B::leaf_of(v[other]) || merkle_tree::paths_clash::<E, B>(
                B::leaf_of(o.b),
                B::leaf_of(v[other]),
                other,
                o.path_b.siblings,
                merkle_tree::tree_path::<E, B>(leaves, other),
            )
        }),
{
    let half = pow2((depth - 1) as nat) as int;
    lemma_pow2_unfold(depth as nat);
    lemma_pow2_shape(depth as nat);
    let leaves = leaves_of::<E, B>(v);
    merkle_tree::law_open_verifies::<E, B>(leaves, idx);
    merkle_tree::law_open_verifies::<E, B>(leaves, idx + half);
    if B::leaf_of(o.a) != leaves[idx] {
        merkle_tree::law_position_binding::<E, B>(
            B::leaf_of(o.a),
            leaves[idx],
            idx,
            o.path_a.siblings,
            merkle_tree::tree_path::<E, B>(leaves, idx),
        );
    }
    if B::leaf_of(o.b) != leaves[idx + half] {
        merkle_tree::law_position_binding::<E, B>(
            B::leaf_of(o.b),
            leaves[idx + half],
            idx + half,
            o.path_b.siblings,
            merkle_tree::tree_path::<E, B>(leaves, idx + half),
        );
    }
}

/// A check of samples that found an error stays where it is.
pub proof fn lemma_walk_samples_stops<E: Engine, B: MleBackend<E>>(
    unbiased: bool,
    t: TranscriptModel,
    arg: ArgumentModel,
    point: Seq<int>,
    i: int,
    k: nat,
    n: nat,
)
    requires
        k <= n,
        walk_samples::<E, B>(unbiased, t, arg, point, i, k).found is Err,
    ensures
        walk_samples::<E, B>(unbiased, t, arg, point, i, n) == walk_samples::<E, B>(
            unbiased,
            t,
            arg,
            point,
            i,
            k,
        ),
    decreases n,
{
    if k < n {
        lemma_walk_samples_stops::<E, B>(unbiased, t, arg, point, i, k, (n - 1) as nat);
    }
}

/// A check of layers that found an error stays where it is.
pub proof fn lemma_walk_layers_stops<E: Engine, B: MleBackend<E>>(
    s: Schedule,
    t: TranscriptModel,
    arg: ArgumentModel,
    point: Seq<int>,
    i: nat,
    n: nat,
)
    requires
        i <= n,
        walk_layers::<E, B>(s, t, arg, point, i).found is Err,
    ensures
        walk_layers::<E, B>(s, t, arg, point, n) == walk_layers::<E, B>(s, t, arg, point, i),
    decreases n,
{
    if i < n {
        lemma_walk_layers_stops::<E, B>(s, t, arg, point, i, (n - 1) as nat);
    }
}

/// Draws that ran out of challenges stay where they are.
pub proof fn lemma_draw_many_stops<E: Engine>(
    unbiased: bool,
    t: TranscriptModel,
    bound: int,
    k: nat,
    n: nat,
)
    requires
        k <= n,
        !draw_many::<E>(unbiased, t, bound, k).complete,
    ensures
        draw_many::<E>(unbiased, t, bound, n) == draw_many::<E>(unbiased, t, bound, k),
    decreases n,
{
    if k < n {
        lemma_draw_many_stops::<E>(unbiased, t, bound, k, (n - 1) as nat);
    }
}

/// Draws of layers that ran out of challenges stay where they are.
pub proof fn lemma_draw_layers_stops<E: Engine>(
    s: Schedule,
    t: TranscriptModel,
    roots: Seq<Seq<u8>>,
    m: nat,
    i: nat,
    n: nat,
)
    requires
        i <= n,
        !draw_layers::<E>(s, t, roots, m, i).complete,
    ensures
        draw_layers::<E>(s, t, roots, m, n) == draw_layers::<E>(s, t, roots, m, i),
    decreases n,
{
    if i < n {
        lemma_draw_layers_stops::<E>(s, t, roots, m, i, (n - 1) as nat);
    }
}

/// A way to draw sample positions from a transcript.
pub trait SampleSource<E: Engine>: Sized {
    /// Whether positions are drawn without bias.
    spec fn unbiased() -> bool;

    /// Draws a position in `0..bound`.
    fn next_position(transcript: &mut Keccak256Transcript<E>, bound: usize) -> (r: Result<
        usize,
        SpartanError,
    >)
        requires
            bound > 0,
        ensures
            final(transcript)@ == draw::<E>(Self::unbiased(), old(transcript)@, bound as int).1,
            r is Ok <==> draw::<E>(Self::unbiased(), old(transcript)@, bound as int).0 is Some,
            r matches Ok(idx) ==> draw::<E>(
                Self::unbiased(),
                old(transcript)@,
                bound as int,
            ).0 == Some(idx as int),
            r matches Err(e) ==> e@ == ErrorModel::InternalTranscriptError,
    ;
}

/// The integers that the elements of a layer stand for.
pub open spec fn fe_vals<E: Engine, B: MleBackend<E>>(s: Seq<B::FE>) -> Seq<int> {
    s.map_values(|x: B::FE| B::fe_val(x))
}

/// The Merkle tree over a layer.
pub(crate) fn layer_tree<E: Engine, B: MleBackend<E>>(layer: &[B::FE]) -> (t: MerkleTree)
    requires
        merkle_tree::is_pow2(layer@.len()),
    ensures
        t@ == merkle_tree::tree_levels::<E, B>(leaves_of::<E, B>(fe_vals::<E, B>(layer@))),
{
    let mut leaves: Vec<Digest32> = Vec::new();
    for i in 0..layer.len()
        invariant
            leaves@.len() == i,
            forall|j: int|
                0 <= j < i ==> (#[trigger] leaves@[j])@ == B::leaf_of(B::fe_val(layer@[j])),
    {
        leaves.push(leaf_digest::<E, B>(&layer[i]));
    }
    assert(merkle_tree::level_view(leaves@) =~= leaves_of::<E, B>(fe_vals::<E, B>(layer@)));
    MerkleTree::from_leaves::<E, B>(leaves)
}

/// The root of the tree over a layer.
pub(crate) fn tree_top<E: Engine, B: MleBackend<E>>(
    tree: &MerkleTree,
    Ghost(v): Ghost<Seq<int>>,
) -> (r: MerkleRoot)
    requires
        merkle_tree::is_pow2(v.len()),
        tree@ == merkle_tree::tree_levels::<E, B>(leaves_of::<E, B>(v)),
    ensures
        r@ == layer_root::<E, B>(v),
{
    proof {
        merkle_tree::lemma_tree_levels_shape::<E, B>(leaves_of::<E, B>(v));
    }
    MerkleRoot(tree.root().0)
}

/// Opens the pair at position `idx`.
pub(crate) fn open_pair<E: Engine, B: MleBackend<E>>(
    cur: &[B::FE],
    nxt: &[B::FE],
    cur_tree: &MerkleTree,
    nxt_tree: &MerkleTree,
    idx: usize,
) -> (r: Round<E>)
    requires
        merkle_tree::is_pow2(cur@.len()),
        merkle_tree::is_pow2(nxt@.len()),
        cur@.len() == 2 * nxt@.len(),
        idx < nxt@.len(),
        cur_tree@ == merkle_tree::tree_levels::<E, B>(leaves_of::<E, B>(fe_vals::<E, B>(cur@))),
        nxt_tree@ == merkle_tree::tree_levels::<E, B>(leaves_of::<E, B>(fe_vals::<E, B>(nxt@))),
    ensures
        r@ == pair_at::<E, B>(fe_vals::<E, B>(cur@), fe_vals::<E, B>(nxt@), idx as int),
{
    let half: usize = nxt.len();
    proof {
        let below = leaves_of::<E, B>(fe_vals::<E, B>(cur@));
        let above = leaves_of::<E, B>(fe_vals::<E, B>(nxt@));
        merkle_tree::lemma_tree_levels_shape::<E, B>(below);
        merkle_tree::lemma_tree_levels_shape::<E, B>(above);
        merkle_tree::lemma_levels_path::<E, B>(below, idx as int);
        merkle_tree::lemma_levels_path::<E, B>(below, idx + half);
        merkle_tree::lemma_levels_path::<E, B>(above, idx as int);
    }
    Round {
        a: B::fe_to_ff(&cur[idx]),
        b: B::fe_to_ff(&cur[idx + half]),
        path_a: cur_tree.open(idx),
        path_b: cur_tree.open(idx + half),
        next: B::fe_to_ff(&nxt[idx]),
        path_next: nxt_tree.open(idx),
    }
}

/// The samples that open the layers `cur` and `nxt` at the given positions.
pub open spec fn samples_at<E: Engine, B: MleBackend<E>>(
    cur: Seq<int>,
    nxt: Seq<int>,
    positions: Seq<int>,
) -> Seq<SampleModel> {
    Seq::new(
        positions.len(),
        |j: int|
            SampleModel { idx: positions[j], pair: pair_at::<E, B>(cur, nxt, positions[j]) },
    )
}

/// Opens the layers `cur` and `nxt` at positions drawn from the transcript.
pub(crate) fn open_samples<E: Engine, B: MleBackend<E>, S: SampleSource<E>>(
    transcript: &mut Keccak256Transcript<E>,
    cur: &[B::FE],
    nxt: &[B::FE],
    cur_tree: &MerkleTree,
    nxt_tree: &MerkleTree,
) -> (r: Result<Vec<SampleOpening<E>>, SpartanError>)
    requires
        merkle_tree::is_pow2(cur@.len()),
        merkle_tree::is_pow2(nxt@.len()),
        cur@.len() == 2 * nxt@.len(),
        cur_tree@ == merkle_tree::tree_levels::<E, B>(leaves_of::<E, B>(fe_vals::<E, B>(cur@))),
        nxt_tree@ == merkle_tree::tree_levels::<E, B>(leaves_of::<E, B>(fe_vals::<E, B>(nxt@))),
    ensures
        ({
            let d = draw_many::<E>(
                S::unbiased(),
                old(transcript)@,
                nxt@.len() as int,
                K_SAMPLES_PER_ROUND as nat,
            );
            &&& final(transcript)@ == d.end
            &&& r is Ok <==> d.complete
            &&& r matches Ok(v) ==> merkle_mle_pc::samples_view(v@) == samples_at::<E, B>(
                fe_vals::<E, B>(cur@),
                fe_vals::<E, B>(nxt@),
                d.positions,
            )
            &&& r matches Err(e) ==> e@ == ErrorModel::InternalTranscriptError
        }),
{
    let stride: usize = nxt.len();
    let mut samples: Vec<SampleOpening<E>> = Vec::new();
    let ghost start = transcript@;
    let ghost a = fe_vals::<E, B>(cur@);
    let ghost b = fe_vals::<E, B>(nxt@);
    assert(merkle_mle_pc::samples_view(samples@) =~= samples_at::<E, B>(a, b, Seq::empty()));
    for k in 0..K_SAMPLES_PER_ROUND
        invariant
            stride > 0,
            stride == nxt@.len(),
            start == old(transcript)@,
            a == fe_vals::<E, B>(cur@),
            b == fe_vals::<E, B>(nxt@),
            merkle_tree::is_pow2(cur@.len()),
            merkle_tree::is_pow2(nxt@.len()),
            cur@.len() == 2 * nxt@.len(),
            cur_tree@ == merkle_tree::tree_levels::<E, B>(leaves_of::<E, B>(a)),
            nxt_tree@ == merkle_tree::tree_levels::<E, B>(leaves_of::<E, B>(b)),
            ({
                let d = draw_many::<E>(S::unbiased(), start, stride as int, k as nat);
                &&& d.complete
                &&& transcript@ == d.end
                &&& merkle_mle_pc::samples_view(samples@) == samples_at::<E, B>(a, b, d.positions)
            }),
    {
        let ghost before = draw_many::<E>(S::unbiased(), start, stride as int, k as nat);
        proof {
            lemma_draw_range::<E>(S::unbiased(), transcript@, stride as int);
        }
        let idx = match S::next_position(transcript, stride) {
            Ok(idx) => idx,
            Err(e) => {
                proof {
                    lemma_draw_many_stops::<E>(
                        S::unbiased(),
                        start,
                        stride as int,
                        (k + 1) as nat,
                        K_SAMPLES_PER_ROUND as nat,
                    );
                }
                return Err(e);
            },
        };
        let pair = open_pair::<E, B>(cur, nxt, cur_tree, nxt_tree, idx);
        let ghost old_samples = samples@;
        samples.push(
            SampleOpening {
                idx: idx as u64,
                a: pair.a,
                b: pair.b,
                next: pair.next,
                path_a: pair.path_a,
                path_b: pair.path_b,
                path_next: pair.path_next,
            },
        );
        proof {
            let now = draw_many::<E>(S::unbiased(), start, stride as int, (k + 1) as nat);
            assert(now.positions == before.positions.push(idx as int));
            assert(merkle_mle_pc::samples_view(samples@) =~= merkle_mle_pc::samples_view(
                old_samples,
            ).push(samples@.last()@));
            assert(merkle_mle_pc::samples_view(samples@) =~= samples_at::<E, B>(
                a,
                b,
                now.positions,
            ));
        }
    }
    Ok(samples)
}

/// Two to the power of `k`, where it fits.
pub(crate) fn shift_one(k: usize) -> (r: Option<u64>)
    ensures
        r is Some <==> pow2(k as nat) <= u64::MAX,
        r matches Some(x) ==> x == pow2(k as nat),
{
    let mut x: u64 = 1;
    proof {
        lemma2_to64();
    }
    for i in 0..k
        invariant
            x == pow2(i as nat),
    {
        proof {
            lemma_pow2_unfold((i + 1) as nat);
            if i + 1 < k {
                lemma_pow2_strictly_increases((i + 1) as nat, k as nat);
            }
        }
        if x > u64::MAX / 2 {
            return None;
        }
        x = 2 * x;
    }
    Some(x)
}

/// Whether a leaf that stands for `x` is at the end of `path` under `root`.
pub(crate) fn check_member<E: Engine, B: MleBackend<E>>(
    x: &E::Scalar,
    path: &MerklePath,
    root: &MerkleRoot,
) -> (r: bool)
    ensures
        r == (merkle_tree::path_root::<E, B>(
            B::leaf_of(x.val()),
            path@.leaf_index,
            path@.siblings,
        ) == root@),
{
    let leaf = leaf_digest::<E, B>(&B::fe_from_ff(x));
    MerkleTree::verify::<E, B>(path, &leaf, &Digest32(root.0))
}

/// Whether the values `a`, `b` and `next` are opened at position `idx` as they must be.
pub(crate) fn check_pair<E: Engine, B: MleBackend<E>>(
    values: (&E::Scalar, &E::Scalar, &E::Scalar),
    paths: (&MerklePath, &MerklePath, &MerklePath),
    roots: (&MerkleRoot, &MerkleRoot),
    depth: usize,
    idx: u64,
    r: &E::Scalar,
) -> (ok: bool)
    ensures
        ok == pair_ok::<E, B>(
            (PairModel {
                a: values.0.val(),
                b: values.1.val(),
                next: values.2.val(),
                path_a: paths.0@,
                path_b: paths.1@,
                path_next: paths.2@,
            }),
            roots.0@,
            roots.1@,
            depth as int,
            idx as int,
            r.val(),
        ),
{
    let (a, b, next) = values;
    let (path_a, path_b, path_next) = paths;
    if depth == 0 {
        return false;
    }
    // Depth / index sanity (prevents pair-swapping attacks)
    if path_a.siblings.len() != depth || path_b.siblings.len() != depth
        || path_next.siblings.len() != depth - 1 {
        return false;
    }
    let stride: u64 = match shift_one(depth - 1) {
        Some(x) => x,
        None => return false,
    };
    if idx > u64::MAX - stride {
        return false;
    }
    if path_a.leaf_index != idx || path_b.leaf_index != idx + stride || path_next.leaf_index
        != idx {
        return false;
    }
    // Verify Merkle memberships
    if !check_member::<E, B>(a, path_a, roots.0) || !check_member::<E, B>(b, path_b, roots.0)
        || !check_member::<E, B>(next, path_next, roots.1) {
        return false;
    }
    // Verify the fold equation: next = a + r * (b - a)
    let folded = fold_two(*a, *b, *r);
    folded.same(next)
}

/// Whether the pairs at position zero are opened as they must be.
pub(crate) fn check_rounds<E: Engine, B: MleBackend<E>>(
    arg: &HashMleEvaluationArgument<E>,
    point: &[E::Scalar],
) -> (ok: bool)
    requires
        arg@.layer_roots.len() == point@.len() + 1,
        arg@.rounds.len() == point@.len(),
    ensures
        ok == rounds_ok::<E, B>(arg@, traits::vals(point@)),
{
    let m: usize = point.len();
    let ghost pt = traits::vals(point@);
    for i in 0..m
        invariant
            m == point@.len(),
            pt == traits::vals(point@),
            arg@.layer_roots.len() == m + 1,
            arg@.rounds.len() == m,
            forall|k: int| 0 <= k < i ==> #[trigger] round_ok::<E, B>(arg@, pt, k),
    {
        let round = &arg.rounds[i];
        let ok = check_pair::<E, B>(
            (&round.a, &round.b, &round.next),
            (&round.path_a, &round.path_b, &round.path_next),
            (&arg.layer_roots[i], &arg.layer_roots[i + 1]),
            m - i,
            0,
            &point[i],
        );
        assert(ok == round_ok::<E, B>(arg@, pt, i as int));
        if !ok {
            return false;
        }
    }
    true
}

/// Two to the power of `k`.
pub(crate) fn pow2_usize(k: usize) -> (r: usize)
    requires
        k < usize::BITS,
    ensures
        r == pow2(k as nat),
{
    proof {
        vstd::bits::lemma_usize_pow2_no_overflow(k as nat);
        vstd::bits::lemma_usize_shl_is_mul(1, k);
    }
    1usize << k
}

/// Checks the samples of layer `i`.
fn check_layer<E: Engine, B: MleBackend<E>, S: SampleSource<E>>(
    transcript: &mut Keccak256Transcript<E>,
    arg: &HashMleEvaluationArgument<E>,
    point: &[E::Scalar],
    i: usize,
) -> (r: Result<(), SpartanError>)
    requires
        i < point@.len() < usize::BITS,
        arg@.layer_roots.len() == point@.len() + 1,
        arg@.samples.len() == point@.len(),
        arg@.samples[i as int].len() == K_SAMPLES_PER_ROUND,
    ensures
        ({
            let w = walk_samples::<E, B>(
                S::unbiased(),
                old(transcript)@,
                arg@,
                traits::vals(point@),
                i as int,
                K_SAMPLES_PER_ROUND as nat,
            );
            &&& final(transcript)@ == w.end
            &&& errors::outcome(r) == w.found
        }),
{
    let m: usize = point.len();
    let ghost pt = traits::vals(point@);
    let ghost start = transcript@;
    let stride: usize = pow2_usize(m - i - 1);
    proof {
        lemma_pow2_pos((m - i - 1) as nat);
    }
    for k in 0..K_SAMPLES_PER_ROUND
        invariant
            m == point@.len(),
            i < m,
            pt == traits::vals(point@),
            start == old(transcript)@,
            stride == pow2((m - i - 1) as nat),
            stride > 0,
            arg@.layer_roots.len() == m + 1,
            arg@.samples.len() == m,
            arg@.samples[i as int].len() == K_SAMPLES_PER_ROUND,
            walk_samples::<E, B>(S::unbiased(), start, arg@, pt, i as int, k as nat) == (Walk {
                end: transcript@,
                found: Ok(()),
            }),
    {
        let ghost before = transcript@;
        let ghost after = walk_samples::<E, B>(
            S::unbiased(),
            start,
            arg@,
            pt,
            i as int,
            (k + 1) as nat,
        );
        // Re-derive the same position from the transcript
        let found: Result<(), SpartanError> = match S::next_position(transcript, stride) {
            Err(e) => Err(e),
            Ok(idx) => {
                let sample = &arg.samples[i][k];
                assert(arg@.samples[i as int][k as int] == sample@);
                let ok = sample.idx == idx as u64 && check_pair::<E, B>(
                    (&sample.a, &sample.b, &sample.next),
                    (&sample.path_a, &sample.path_b, &sample.path_next),
                    (&arg.layer_roots[i], &arg.layer_roots[i + 1]),
                    m - i,
                    idx as u64,
                    &point[i],
                );
                assert(ok == sample_ok::<E, B>(arg@, pt, i as int, k as int, idx as int));
                if ok {
                    Ok(())
                } else {
                    Err(SpartanError::InvalidPCS)
                }
            },
        };
        assert(errors::outcome(found) == after.found);
        if found.is_err() {
            proof {
                lemma_walk_samples_stops::<E, B>(
                    S::unbiased(),
                    start,
                    arg@,
                    pt,
                    i as int,
                    (k + 1) as nat,
                    K_SAMPLES_PER_ROUND as nat,
                );
            }
            return found;
        }
    }
    Ok(())
}

/// Checks the samples of all layers.
pub(crate) fn check_samples<E: Engine, B: MleBackend<E>, S: SampleSource<E>>(
    transcript: &mut Keccak256Transcript<E>,
    arg: &HashMleEvaluationArgument<E>,
    point: &[E::Scalar],
    streaming: bool,
) -> (r: Result<(), SpartanError>)
    requires
        point@.len() < usize::BITS,
        arg@.layer_roots.len() == point@.len() + 1,
        arg@.samples.len() == point@.len(),
    ensures
        ({
            let w = walk_layers::<E, B>(
                (Schedule { unbiased: S::unbiased(), streaming }),
                old(transcript)@,
                arg@,
                traits::vals(point@),
                point@.len(),
            );
            &&& final(transcript)@ == w.end
            &&& errors::outcome(r) == w.found
        }),
{
    let m: usize = point.len();
    let ghost pt = traits::vals(point@);
    let ghost start = transcript@;
    let ghost s = Schedule { unbiased: S::unbiased(), streaming };
    for i in 0..m
        invariant
            m == point@.len(),
            m < usize::BITS,
            pt == traits::vals(point@),
            start == old(transcript)@,
            s == (Schedule { unbiased: S::unbiased(), streaming }),
            arg@.layer_roots.len() == m + 1,
            arg@.samples.len() == m,
            walk_layers::<E, B>(s, start, arg@, pt, i as nat) == (Walk {
                end: transcript@,
                found: Ok(()),
            }),
    {
        let ghost after = walk_layers::<E, B>(s, start, arg@, pt, (i + 1) as nat);
        let found: Result<(), SpartanError> = if arg.samples[i].len() != K_SAMPLES_PER_ROUND {
            Err(SpartanError::InvalidPCS)
        } else {
            if streaming {
                transcript.absorb(&TAG_ROOT_I, &arg.layer_roots[i]);
                transcript.absorb(&TAG_ROOT_IP1, &arg.layer_roots[i + 1]);
            }
            check_layer::<E, B, S>(transcript, arg, point, i)
        };
        assert(errors::outcome(found) == after.found);
        assert(transcript@ == after.end);
        if found.is_err() {
            proof {
                lemma_walk_layers_stops::<E, B>(s, start, arg@, pt, (i + 1) as nat, m as nat);
            }
            return found;
        }
    }
    Ok(())
}

/// The bytes of the roots, one after the other.
pub(crate) fn root_bytes(roots: &Vec<MerkleRoot>) -> (bytes: Vec<u8>)
    ensures
        bytes@ == merkle_mle_pc::roots_view(roots@).flatten_alt(),
{
    let ghost all = merkle_mle_pc::roots_view(roots@);
    let mut bytes: Vec<u8> = Vec::new();
    assert(all.take(0).flatten_alt() =~= Seq::<u8>::empty());
    for i in 0..roots.len()
        invariant
            all == merkle_mle_pc::roots_view(roots@),
            bytes@ == all.take(i as int).flatten_alt(),
    {
        bytes.extend_from_slice(&roots[i].0);
        assert(all.take(i + 1).drop_last() =~= all.take(i as int));
        assert(bytes@ =~= all.take(i + 1).flatten_alt());
    }
    assert(all.take(all.len() as int) =~= all);
    bytes
}

} // verus!
