//! What commitments and accepted arguments are bound to.
use super::hash_mle_backend::{self, BackendFfKeccak, BackendP3Poseidon2Goldi, MleBackend};
use super::layers::{self, ArgumentModel, Schedule};
use super::merkle_mle_pc::{
    self, CommitmentModel, HashMleCommitmentKey, HashMleEvaluationArgument, HashMlePCS,
    HashMleVerifierKey,
};
use super::merkle_mle_pc_p3::{self, HashMlePcsP3};
use super::merkle_tree;
use crate::errors::{self, ErrorModel};
use crate::modular;
use crate::polys::multilinear;
use crate::primes;
use crate::provider::goldi::F;
use crate::provider::keccak::{self, TranscriptModel};
use crate::traits::{Engine, PCSEngineTrait, ScalarField};
#[allow(unused_imports)]
use vstd::arithmetic::div_mod::*;
#[allow(unused_imports)]
use vstd::arithmetic::power2::*;
use vstd::prelude::*;

verus! {

/// A positive number is a power of two in the sense of the tree exactly if it is two to some power.
pub proof fn law_tree_sizes(n: nat)
    ensures
        merkle_tree::is_pow2(n) <==> exists|m: nat| n == #[trigger] pow2(m),
{
    if merkle_tree::is_pow2(n) {
        layers::lemma_height_pow2(n);
    }
    if exists|m: nat| n == #[trigger] pow2(m) {
        let m = choose|m: nat| n == #[trigger] pow2(m);
        layers::lemma_pow2_shape(m);
    }
}

/// The drawn positions lie in the first half of their layer.
proof fn lemma_positions_range<E: Engine>(
    s: Schedule,
    t: TranscriptModel,
    roots: Seq<Seq<u8>>,
    m: nat,
    i: nat,
    k: int,
    j: int,
)
    requires
        i <= m,
        layers::draw_layers::<E>(s, t, roots, m, i).complete,
        0 <= k < i,
        0 <= j < 48,
    ensures
        0 <= layers::draw_layers::<E>(s, t, roots, m, i).positions[k][j] < pow2(
            (m - k - 1) as nat,
        ),
    decreases i,
{
    let before = layers::draw_layers::<E>(s, t, roots, m, (i - 1) as nat);
    layers::lemma_draw_layers_prefix::<E>(s, t, roots, m, (i - 1) as nat, i);
    if k < i - 1 {
        lemma_positions_range::<E>(s, t, roots, m, (i - 1) as nat, k, j);
        assert(layers::draw_layers::<E>(s, t, roots, m, i).positions[k] == before.positions[k]);
    } else {
        let start = layers::layer_absorb(s.streaming, before.end, roots, i - 1);
        let bound = pow2((m - i) as nat) as int;
        lemma_pow2_pos((m - i) as nat);
        lemma_many_range::<E>(s.unbiased, start, bound, 48, j);
    }
}

/// Drawn positions lie below the bound.
proof fn lemma_many_range<E: Engine>(
    unbiased: bool,
    t: TranscriptModel,
    bound: int,
    n: nat,
    j: int,
)
    requires
        bound > 0,
        layers::draw_many::<E>(unbiased, t, bound, n).complete,
        0 <= j < n,
    ensures
        layers::draw_many::<E>(unbiased, t, bound, n).positions.len() == n,
        0 <= layers::draw_many::<E>(unbiased, t, bound, n).positions[j] < bound,
    decreases n,
{
    let before = layers::draw_many::<E>(unbiased, t, bound, (n - 1) as nat);
    layers::lemma_draw_many_prefix::<E>(unbiased, t, bound, n, n);
    layers::lemma_draw_many_prefix::<E>(unbiased, t, bound, (n - 1) as nat, n);
    layers::lemma_draw_range::<E>(unbiased, before.end, bound);
    if j < n - 1 {
        lemma_many_range::<E>(unbiased, t, bound, (n - 1) as nat, j);
    }
}

/// What an accepted argument shows: in every round, and in every one of the 48 samples of a round,
/// the value in the next layer is the fold `a + r (b - a)` of the two values in the layer, with the
/// coordinate of the point that belongs to the round, and the three values are leaves, at the
/// position and half a layer behind it, under the roots of the two layers. The first root is the
/// committed one and the last round leads to the claimed value.
pub proof fn law_accepted_values_fold<E: Engine>(
    vk: HashMleVerifierKey<E>,
    t: TranscriptModel,
    comm: CommitmentModel,
    point: Seq<int>,
    eval: int,
    arg: ArgumentModel,
    i: int,
    j: int,
)
    requires
        HashMlePCS::<E>::verify_of(vk, t, comm, point, eval, arg).0 is Ok,
        0 <= i < point.len(),
        0 <= j < 48,
    ensures
        vk.zk_mode == comm.mode,
        vk.branching == 2,
        arg.layer_roots.len() == point.len() + 1,
        arg.rounds.len() == point.len(),
        arg.samples.len() == point.len(),
        arg.samples[i].len() == 48,
        arg.layer_roots[0] == comm.base_root,
        arg.rounds[point.len() - 1].next == eval,
        ({
            let p = <E::Scalar as ScalarField>::modulus();
            let o = arg.rounds[i];
            let k = 0int;
            let half = pow2((point.len() - i - 1) as nat);
            &&& 0 <= k < half
            &&& o.next == (o.a + point[i] * (o.b - o.a)) % p
            &&& o.path_a.leaf_index == k
            &&& o.path_b.leaf_index == k + half
            &&& o.path_next.leaf_index == k
            &&& o.path_a.siblings.len() == point.len() - i
            &&& o.path_b.siblings.len() == point.len() - i
            &&& o.path_next.siblings.len() == point.len() - i - 1
            &&& merkle_tree::path_root::<E, BackendFfKeccak<E>>(
                BackendFfKeccak::<E>::leaf_of(o.a),
                k,
                o.path_a.siblings,
            ) == arg.layer_roots[i]
            &&& merkle_tree::path_root::<E, BackendFfKeccak<E>>(
                BackendFfKeccak::<E>::leaf_of(o.b),
                k + half,
                o.path_b.siblings,
            ) == arg.layer_roots[i]
            &&& merkle_tree::path_root::<E, BackendFfKeccak<E>>(
                BackendFfKeccak::<E>::leaf_of(o.next),
                k,
                o.path_next.siblings,
            ) == arg.layer_roots[i + 1]
        }),
        ({
            let p = <E::Scalar as ScalarField>::modulus();
            let o = arg.samples[i][j].pair;
            let k = arg.samples[i][j].idx;
            let half = pow2((point.len() - i - 1) as nat);
            &&& 0 <= k < half
            &&& o.next == (o.a + point[i] * (o.b - o.a)) % p
            &&& o.path_a.leaf_index == k
            &&& o.path_b.leaf_index == k + half
            &&& o.path_next.leaf_index == k
            &&& o.path_a.siblings.len() == point.len() - i
            &&& o.path_b.siblings.len() == point.len() - i
            &&& o.path_next.siblings.len() == point.len() - i - 1
            &&& merkle_tree::path_root::<E, BackendFfKeccak<E>>(
                BackendFfKeccak::<E>::leaf_of(o.a),
                k,
                o.path_a.siblings,
            ) == arg.layer_roots[i]
            &&& merkle_tree::path_root::<E, BackendFfKeccak<E>>(
                BackendFfKeccak::<E>::leaf_of(o.b),
                k + half,
                o.path_b.siblings,
            ) == arg.layer_roots[i]
            &&& merkle_tree::path_root::<E, BackendFfKeccak<E>>(
                BackendFfKeccak::<E>::leaf_of(o.next),
                k,
                o.path_next.siblings,
            ) == arg.layer_roots[i + 1]
        }),
{
    let m = point.len();
    let s = merkle_mle_pc::byte_schedule();
    let start = merkle_mle_pc::bound_transcript(
        s,
        t,
        merkle_mle_pc::commitment_repr(comm),
        arg.layer_roots,
    );
    let d = layers::draw_layers::<E>(s, start, arg.layer_roots, m, m);
    merkle_mle_pc::law_verify_accepts_iff::<E>(vk, t, comm, point, eval, arg);
    lemma_positions_range::<E>(s, start, arg.layer_roots, m, m, i, j);
    lemma_pow2_pos((m - i - 1) as nat);
    assert(layers::layer_samples_ok::<E, BackendFfKeccak<E>>(arg, point, i, d.positions[i]));
    assert(layers::sample_ok::<E, BackendFfKeccak<E>>(arg, point, i, j, d.positions[i][j]));
    assert(layers::round_ok::<E, BackendFfKeccak<E>>(arg, point, i));
}

/// What an argument accepted by the scheme over Poseidon2 shows: in every round, and in every one
/// of the 48 samples of a round, the value in the next layer is the fold `a + r (b - a)` of the two
/// values in the layer, with the coordinate of the point that belongs to the round, and the three
/// values are leaves, at the position and half a layer behind it, under the roots of the two
/// layers. The first root is the committed one and the last round leads to the claimed value.
pub proof fn law_accepted_values_fold_p3<E: Engine<Scalar = F>>(
    vk: HashMleVerifierKey<E>,
    t: TranscriptModel,
    comm: CommitmentModel,
    point: Seq<int>,
    eval: int,
    arg: ArgumentModel,
    i: int,
    j: int,
)
    requires
        HashMlePcsP3::<E>::verify_of(vk, t, comm, point, eval, arg).0 is Ok,
        0 <= i < point.len(),
        0 <= j < 48,
    ensures
        vk.zk_mode == comm.mode,
        vk.branching == 2,
        arg.layer_roots.len() == point.len() + 1,
        arg.rounds.len() == point.len(),
        arg.samples.len() == point.len(),
        arg.samples[i].len() == 48,
        arg.layer_roots[0] == comm.base_root,
        arg.rounds[point.len() - 1].next == eval,
        ({
            let p = <E::Scalar as ScalarField>::modulus();
            let o = arg.rounds[i];
            let k = 0int;
            let half = pow2((point.len() - i - 1) as nat);
            &&& 0 <= k < half
            &&& o.next == (o.a + point[i] * (o.b - o.a)) % p
            &&& o.path_a.leaf_index == k
            &&& o.path_b.leaf_index == k + half
            &&& o.path_next.leaf_index == k
            &&& o.path_a.siblings.len() == point.len() - i
            &&& o.path_b.siblings.len() == point.len() - i
            &&& o.path_next.siblings.len() == point.len() - i - 1
            &&& merkle_tree::path_root::<E, BackendP3Poseidon2Goldi<E>>(
                BackendP3Poseidon2Goldi::<E>::leaf_of(o.a),
                k,
                o.path_a.siblings,
            ) == arg.layer_roots[i]
            &&& merkle_tree::path_root::<E, BackendP3Poseidon2Goldi<E>>(
                BackendP3Poseidon2Goldi::<E>::leaf_of(o.b),
                k + half,
                o.path_b.siblings,
            ) == arg.layer_roots[i]
            &&& merkle_tree::path_root::<E, BackendP3Poseidon2Goldi<E>>(
                BackendP3Poseidon2Goldi::<E>::leaf_of(o.next),
                k,
                o.path_next.siblings,
            ) == arg.layer_roots[i + 1]
        }),
        ({
            let p = <E::Scalar as ScalarField>::modulus();
            let o = arg.samples[i][j].pair;
            let k = arg.samples[i][j].idx;
            let half = pow2((point.len() - i - 1) as nat);
            &&& 0 <= k < half
            &&& o.next == (o.a + point[i] * (o.b - o.a)) % p
            &&& o.path_a.leaf_index == k
            &&& o.path_b.leaf_index == k + half
            &&& o.path_next.leaf_index == k
            &&& o.path_a.siblings.len() == point.len() - i
            &&& o.path_b.siblings.len() == point.len() - i
            &&& o.path_next.siblings.len() == point.len() - i - 1
            &&& merkle_tree::path_root::<E, BackendP3Poseidon2Goldi<E>>(
                BackendP3Poseidon2Goldi::<E>::leaf_of(o.a),
                k,
                o.path_a.siblings,
            ) == arg.layer_roots[i]
            &&& merkle_tree::path_root::<E, BackendP3Poseidon2Goldi<E>>(
                BackendP3Poseidon2Goldi::<E>::leaf_of(o.b),
                k + half,
                o.path_b.siblings,
            ) == arg.layer_roots[i]
            &&& merkle_tree::path_root::<E, BackendP3Poseidon2Goldi<E>>(
                BackendP3Poseidon2Goldi::<E>::leaf_of(o.next),
                k,
                o.path_next.siblings,
            ) == arg.layer_roots[i + 1]
        }),
{
    let m = point.len();
    let s = merkle_mle_pc_p3::mode_schedule(comm.mode);
    let start = merkle_mle_pc::bound_transcript(
        s,
        t,
        merkle_mle_pc::commitment_repr(comm),
        arg.layer_roots,
    );
    let d = layers::draw_layers::<E>(s, start, arg.layer_roots, m, m);
    merkle_mle_pc_p3::law_verify_accepts_iff::<E>(vk, t, comm, point, eval, arg);
    lemma_positions_range::<E>(s, start, arg.layer_roots, m, m, i, j);
    lemma_pow2_pos((m - i - 1) as nat);
    assert(layers::layer_samples_ok::<E, BackendP3Poseidon2Goldi<E>>(arg, point, i, d.positions[i]));
    assert(layers::sample_ok::<E, BackendP3Poseidon2Goldi<E>>(arg, point, i, j, d.positions[i][j]));
    assert(layers::round_ok::<E, BackendP3Poseidon2Goldi<E>>(arg, point, i));
}

/// The leaves of a layer have 32 bytes.
proof fn lemma_leaves_len<E: Engine, B: MleBackend<E>>(v: Seq<int>)
    ensures
        B::collides() || forall|i: int|
            0 <= i < v.len() ==> (#[trigger] layers::leaves_of::<E, B>(v)[i]).len() == 32,
{
    if !B::collides() {
        assert forall|i: int| 0 <= i < v.len() implies (#[trigger] layers::leaves_of::<E, B>(
            v,
        )[i]).len() == 32 by {
            B::lemma_digest_len(v[i], Seq::empty(), Seq::empty());
        }
    }
}

/// The siblings on a path of a tree have 32 bytes.
proof fn lemma_path_len<E: Engine, B: MleBackend<E>>(level: Seq<Seq<u8>>, idx: int)
    requires
        merkle_tree::is_pow2(level.len()),
        0 <= idx < level.len(),
        forall|i: int| 0 <= i < level.len() ==> (#[trigger] level[i]).len() == 32,
    ensures
        B::collides() || forall|i: int|
            0 <= i < merkle_tree::tree_path::<E, B>(level, idx).len() ==> (
            #[trigger] merkle_tree::tree_path::<E, B>(level, idx)[i]).len() == 32,
    decreases level.len(),
{
    if level.len() > 1 && !B::collides() {
        let up = merkle_tree::parents::<E, B>(level);
        assert forall|i: int| 0 <= i < up.len() implies (#[trigger] up[i]).len() == 32 by {
            B::lemma_digest_len(0, level[2 * i], level[2 * i + 1]);
        }
        lemma_path_len::<E, B>(up, idx / 2);
        let path = merkle_tree::tree_path::<E, B>(level, idx);
        let rest = merkle_tree::tree_path::<E, B>(up, idx / 2);
        assert forall|i: int| 0 <= i < path.len() implies (#[trigger] path[i]).len() == 32 by {
            if i > 0 {
                assert(path[i] == rest[i - 1]);
            }
        }
    }
}

/// Two values that are opened at one position under one root are equal, unless the hash function
/// collides.
proof fn lemma_same_position<E: Engine, B: MleBackend<E>>(
    x: int,
    y: int,
    idx: int,
    path_x: Seq<Seq<u8>>,
    path_y: Seq<Seq<u8>>,
)
    requires
        0 <= x < E::Scalar::modulus(),
        0 <= y < E::Scalar::modulus(),
        path_x.len() == path_y.len(),
        forall|i: int| 0 <= i < path_x.len() ==> (#[trigger] path_x[i]).len() == 32,
        forall|i: int| 0 <= i < path_y.len() ==> (#[trigger] path_y[i]).len() == 32,
        merkle_tree::path_root::<E, B>(B::leaf_of(x), idx, path_x) == merkle_tree::path_root::<E, B>(
            B::leaf_of(y),
            idx,
            path_y,
        ),
    ensures
        x == y || B::collides(),
{
    B::lemma_digest_len(x, Seq::empty(), Seq::empty());
    B::lemma_digest_len(y, Seq::empty(), Seq::empty());
    if !B::collides() {
        B::lemma_alike(merkle_tree::path_root::<E, B>(B::leaf_of(x), idx, path_x));
        merkle_tree::law_path_binds::<E, B>(B::leaf_of(x), B::leaf_of(y), idx, path_x, path_y);
        B::law_leaf_binds(x, y);
    }
}

/// A value that is opened at a position under the root of a layer is the value of the layer there,
/// unless the hash function collides.
proof fn lemma_opened_value<E: Engine, B: MleBackend<E>>(
    x: int,
    idx: int,
    path: Seq<Seq<u8>>,
    v: Seq<int>,
    m: nat,
)
    requires
        0 <= x < E::Scalar::modulus(),
        multilinear::in_field(E::Scalar::modulus(), v),
        v.len() == pow2(m),
        0 <= idx < v.len(),
        path.len() == m,
        forall|i: int| 0 <= i < path.len() ==> (#[trigger] path[i]).len() == 32,
        merkle_tree::path_root::<E, B>(B::leaf_of(x), idx, path) == layers::layer_root::<E, B>(v),
    ensures
        x == v[idx] || B::collides(),
{
    let leaves = layers::leaves_of::<E, B>(v);
    layers::lemma_pow2_shape(m);
    merkle_tree::law_open_verifies::<E, B>(leaves, idx);
    lemma_leaves_len::<E, B>(v);
    if !B::collides() {
        lemma_path_len::<E, B>(leaves, idx);
        lemma_same_position::<E, B>(
            x,
            v[idx],
            idx,
            path,
            merkle_tree::tree_path::<E, B>(leaves, idx),
        );
    }
}

/// Layers of one length with one root are equal, unless the hash function collides.
proof fn lemma_same_layer<E: Engine, B: MleBackend<E>>(v: Seq<int>, w: Seq<int>)
    requires
        multilinear::in_field(E::Scalar::modulus(), v),
        multilinear::in_field(E::Scalar::modulus(), w),
        v.len() == w.len(),
        merkle_tree::is_pow2(v.len()),
        layers::layer_root::<E, B>(v) == layers::layer_root::<E, B>(w),
    ensures
        v == w || B::collides(),
{
    if !B::collides() {
        let (a, b) = (layers::leaves_of::<E, B>(v), layers::leaves_of::<E, B>(w));
        lemma_leaves_len::<E, B>(v);
        lemma_leaves_len::<E, B>(w);
        B::lemma_alike(layers::layer_root::<E, B>(v));
        merkle_tree::law_tree_binds::<E, B>(a, b);
        assert forall|i: int| 0 <= i < v.len() implies v[i] == w[i] by {
            assert(B::alike(a[i], b[i]));
            B::law_leaf_binds(v[i], w[i]);
        }
        assert(v =~= w);
    }
}

/// The values in an argument are field elements and its digests have 32 bytes.
pub open spec fn argument_fits(p: int, arg: ArgumentModel) -> bool {
    &&& forall|i: int| 0 <= i < arg.rounds.len() ==> pair_fits(p, #[trigger] arg.rounds[i])
    &&& forall|i: int, j: int|
        0 <= i < arg.samples.len() && 0 <= j < arg.samples[i].len() ==> pair_fits(
            p,
            (#[trigger] arg.samples[i][j]).pair,
        )
}

/// The values of a pair are field elements and its digests have 32 bytes.
pub open spec fn pair_fits(p: int, o: layers::PairModel) -> bool {
    &&& 0 <= o.a < p
    &&& 0 <= o.b < p
    &&& 0 <= o.next < p
    &&& forall|k: int|
        0 <= k < o.path_a.siblings.len() ==> (#[trigger] o.path_a.siblings[k]).len() == 32
    &&& forall|k: int|
        0 <= k < o.path_b.siblings.len() ==> (#[trigger] o.path_b.siblings[k]).len() == 32
    &&& forall|k: int|
        0 <= k < o.path_next.siblings.len() ==> (#[trigger] o.path_next.siblings[k]).len() == 32
}

/// What an argument says fits: its values are field elements and its digests have 32 bytes.
pub proof fn law_arguments_fit<E: Engine>(arg: HashMleEvaluationArgument<E>)
    ensures
        argument_fits(E::Scalar::modulus(), arg@),
{
    assert forall|i: int| 0 <= i < arg@.rounds.len() implies pair_fits(
        E::Scalar::modulus(),
        #[trigger] arg@.rounds[i],
    ) by {
        let o = arg.rounds@[i];
        assert(arg@.rounds[i] == o@);
        o.a.lemma_val();
        o.b.lemma_val();
        o.next.lemma_val();
    }
    assert forall|i: int, j: int|
        0 <= i < arg@.samples.len() && 0 <= j < arg@.samples[i].len() implies pair_fits(
        E::Scalar::modulus(),
        (#[trigger] arg@.samples[i][j]).pair,
    ) by {
        let o = arg.samples@[i]@[j];
        assert(arg@.samples[i][j] == o@);
        o.a.lemma_val();
        o.b.lemma_val();
        o.next.lemma_val();
    }
}

/// Commitments bind: two vectors of one length with one commitment over Keccak-256 are equal,
/// unless two inputs of the hash function are not told apart. A vector can be committed to exactly
/// if its length is a power of two.
pub proof fn law_commitment_binds<E: Engine>(
    ck: HashMleCommitmentKey<E>,
    v: Seq<int>,
    w: Seq<int>,
)
    requires
        multilinear::in_field(<E::Scalar as ScalarField>::modulus(), v),
        multilinear::in_field(<E::Scalar as ScalarField>::modulus(), w),
        v.len() == w.len(),
    ensures
        HashMlePCS::<E>::commit_of(ck, v, ()) is Ok <==> exists|m: nat|
            v.len() == #[trigger] pow2(m),
        HashMlePCS::<E>::commit_of(ck, v, ()) matches Ok(c) ==> c.mode == ck.zk_mode,
        HashMlePCS::<E>::commit_of(ck, v, ()) is Ok && HashMlePCS::<E>::commit_of(ck, v, ())
            == HashMlePCS::<E>::commit_of(ck, w, ()) ==> v == w || (exists|x: Seq<u8>, y: Seq<u8>|
            x != y && #[trigger] keccak::keccak256_of(x) == #[trigger] keccak::keccak256_of(y)) || (
        exists|x: Seq<u8>| (#[trigger] keccak::keccak256_of(x)).len() != 32),
{
    law_tree_sizes(v.len());
    if HashMlePCS::<E>::commit_of(ck, v, ()) is Ok && HashMlePCS::<E>::commit_of(ck, v, ())
        == HashMlePCS::<E>::commit_of(ck, w, ()) {
        lemma_same_layer::<E, BackendFfKeccak<E>>(v, w);
    }
}

/// Openings bind: an accepted argument for a committed vector opens the values of the vector over
/// Keccak-256, in the first round and in its samples, and every later round starts from the value
/// that the round before it leads to, unless two inputs of the hash function are not told apart.
pub proof fn law_openings_are_committed<E: Engine>(
    ck: HashMleCommitmentKey<E>,
    vk: HashMleVerifierKey<E>,
    t: TranscriptModel,
    comm: CommitmentModel,
    v: Seq<int>,
    point: Seq<int>,
    eval: int,
    arg: ArgumentModel,
    i: int,
    j: int,
)
    requires
        HashMlePCS::<E>::commit_of(ck, v, ()) == Ok::<_, ErrorModel>(comm),
        HashMlePCS::<E>::verify_of(vk, t, comm, point, eval, arg).0 is Ok,
        multilinear::in_field(<E::Scalar as ScalarField>::modulus(), v),
        argument_fits(<E::Scalar as ScalarField>::modulus(), arg),
        v.len() == pow2(point.len()),
        0 <= i < point.len(),
        0 <= j < 48,
    ensures
        ({
            let half = pow2((point.len() - 1) as nat) as int;
            let s = arg.samples[0][j];
            &&& arg.rounds[0].a == v[0]
            &&& arg.rounds[0].b == v[half]
            &&& s.pair.a == v[s.idx]
            &&& s.pair.b == v[s.idx + half]
            &&& i > 0 ==> arg.rounds[i].a == arg.rounds[i - 1].next
        }) || (exists|x: Seq<u8>, y: Seq<u8>|
            x != y && #[trigger] keccak::keccak256_of(x) == #[trigger] keccak::keccak256_of(y)) || (
        exists|x: Seq<u8>| (#[trigger] keccak::keccak256_of(x)).len() != 32),
{
    let half = pow2((point.len() - 1) as nat) as int;
    let s = arg.samples[0][j];
    law_accepted_values_fold::<E>(vk, t, comm, point, eval, arg, 0, j);
    law_accepted_values_fold::<E>(vk, t, comm, point, eval, arg, i, j);
    assert(pair_fits(<E::Scalar as ScalarField>::modulus(), arg.rounds[0]));
    assert(pair_fits(<E::Scalar as ScalarField>::modulus(), s.pair));
    lemma_pow2_unfold(point.len());
    let m = point.len();
    lemma_opened_value::<E, BackendFfKeccak<E>>(
        arg.rounds[0].a,
        0,
        arg.rounds[0].path_a.siblings,
        v,
        m,
    );
    lemma_opened_value::<E, BackendFfKeccak<E>>(
        arg.rounds[0].b,
        half,
        arg.rounds[0].path_b.siblings,
        v,
        m,
    );
    lemma_opened_value::<E, BackendFfKeccak<E>>(
        s.pair.a,
        s.idx,
        s.pair.path_a.siblings,
        v,
        m,
    );
    lemma_opened_value::<E, BackendFfKeccak<E>>(
        s.pair.b,
        s.idx + half,
        s.pair.path_b.siblings,
        v,
        m,
    );
    if i > 0 {
        law_accepted_values_fold::<E>(vk, t, comm, point, eval, arg, i - 1, j);
        let (o, q) = (arg.rounds[i], arg.rounds[i - 1]);
        assert(pair_fits(<E::Scalar as ScalarField>::modulus(), o));
        assert(pair_fits(<E::Scalar as ScalarField>::modulus(), q));
        lemma_same_position::<E, BackendFfKeccak<E>>(
            o.a,
            q.next,
            0,
            o.path_a.siblings,
            q.path_next.siblings,
        );
    }
}

/// The verifier over Keccak-256 refuses a commitment of another mode, an argument of other lengths,
/// and one that starts from another root or leads to another value, and says why.
pub proof fn law_refusals<E: Engine>(
    vk: HashMleVerifierKey<E>,
    t: TranscriptModel,
    comm: CommitmentModel,
    point: Seq<int>,
    eval: int,
    arg: ArgumentModel,
)
    ensures
        ({
            let (found, end) = HashMlePCS::<E>::verify_of(vk, t, comm, point, eval, arg);
            let shaped = arg.layer_roots.len() == point.len() + 1 && arg.rounds.len() == point.len()
                && arg.samples.len() == point.len();
            let sampled = forall|i: int|
                0 <= i < arg.samples.len() ==> (#[trigger] arg.samples[i]).len() == 48;
            &&& vk.zk_mode != comm.mode ==> found == Err::<(), ErrorModel>(ErrorModel::InvalidPCS)
            &&& vk.zk_mode != comm.mode || !shaped || vk.branching != 2 ==> end == t
            &&& shaped && arg.layer_roots[0] != comm.base_root ==> end.round == t.round
            &&& vk.zk_mode == comm.mode && !shaped ==> found == Err::<(), ErrorModel>(
                ErrorModel::InvalidInputLength("HashMlePCS::verify malformed argument"@),
            )
            &&& vk.zk_mode == comm.mode && shaped && !sampled ==> (found matches Err(
                ErrorModel::InvalidInputLength(_),
            ))
            &&& vk.zk_mode == comm.mode && shaped && sampled && (vk.branching != 2
                || arg.layer_roots[0] != comm.base_root) ==> found == Err::<(), ErrorModel>(
                ErrorModel::InvalidPCS,
            )
            &&& vk.zk_mode == comm.mode && shaped && sampled && found is Err ==> found == Err::<
                (),
                ErrorModel,
            >(ErrorModel::InvalidPCS) || found == Err::<(), ErrorModel>(
                ErrorModel::InternalTranscriptError,
            )
            &&& point.len() > 0 && shaped && arg.rounds[point.len() - 1].next != eval
                ==> found is Err
        }),
{
    let s = merkle_mle_pc::byte_schedule();
    let start = merkle_mle_pc::bound_transcript(
        s,
        t,
        merkle_mle_pc::commitment_repr(comm),
        arg.layer_roots,
    );
    lemma_walk_errors::<E, BackendFfKeccak<E>>(s, start, arg, point, point.len());
    lemma_short(arg.samples, 0);
}

/// The keys over Keccak-256 come in one mode, and only a single piece can be combined: it is what
/// comes out.
pub proof fn law_single_piece<E: Engine>(
    ck: HashMleCommitmentKey<E>,
    vk: HashMleVerifierKey<E>,
    parts: Seq<CommitmentModel>,
    blinds: Seq<()>,
    v: Seq<int>,
)
    ensures
        HashMlePCS::<E>::are_keys(ck, vk) ==> ck.zk_mode == merkle_mle_pc::ZkMode::LeakReduced
            && vk.zk_mode == merkle_mle_pc::ZkMode::LeakReduced && ck.branching == 2
            && vk.branching == 2,
        HashMlePCS::<E>::combine_partial_of(parts) is Ok <==> parts.len() == 1,
        HashMlePCS::<E>::combine_partial_of(parts) matches Err(e) ==> e
            == ErrorModel::InvalidInputLength(
            "HashMlePCS: combine_partial expects exactly one piece"@,
        ),
        HashMlePCS::<E>::combine_blinds_of(blinds) matches Err(e) ==> e
            == ErrorModel::InvalidInputLength(
            "HashMlePCS: combine_blinds expects exactly one blind"@,
        ),
        HashMlePCS::<E>::commit_partial_of(ck, v, ()) matches Err(e) ==> e
            == ErrorModel::InvalidInputLength("HashMlePCS: vector len must be power of two"@),
        parts.len() == 1 ==> HashMlePCS::<E>::combine_partial_of(parts) == Ok::<_, ErrorModel>(
            parts[0],
        ),
        HashMlePCS::<E>::combine_blinds_of(blinds) is Ok <==> blinds.len() == 1,
        HashMlePCS::<E>::commit_partial_of(ck, v, ()) is Ok <==> exists|m: nat|
            v.len() == #[trigger] pow2(m),
        HashMlePCS::<E>::commit_partial_of(ck, v, ()) matches Ok(c) ==> HashMlePCS::<E>::commit_of(
            ck,
            v,
            (),
        ) == Ok::<_, ErrorModel>(c.0),
{
    law_tree_sizes(v.len());
}

/// Commitments bind: two vectors of one length with one commitment over Poseidon2 are equal, unless
/// two inputs of the hash function are not told apart. A vector can be committed to exactly if its
/// length is a power of two.
pub proof fn law_commitment_binds_p3<E: Engine<Scalar = F>>(
    ck: HashMleCommitmentKey<E>,
    v: Seq<int>,
    w: Seq<int>,
)
    requires
        multilinear::in_field(<E::Scalar as ScalarField>::modulus(), v),
        multilinear::in_field(<E::Scalar as ScalarField>::modulus(), w),
        v.len() == w.len(),
    ensures
        HashMlePcsP3::<E>::commit_of(ck, v, ()) is Ok <==> exists|m: nat|
            v.len() == #[trigger] pow2(m),
        HashMlePcsP3::<E>::commit_of(ck, v, ()) matches Ok(c) ==> c.mode == ck.zk_mode,
        HashMlePcsP3::<E>::commit_of(ck, v, ()) is Ok && HashMlePcsP3::<E>::commit_of(ck, v, ())
            == HashMlePcsP3::<E>::commit_of(ck, w, ()) ==> v == w || (
        exists|x: Seq<u64>, y: Seq<u64>| #[trigger] hash_mle_backend::states_clash(x, y)),
{
    law_tree_sizes(v.len());
    if HashMlePcsP3::<E>::commit_of(ck, v, ()) is Ok && HashMlePcsP3::<E>::commit_of(ck, v, ())
        == HashMlePcsP3::<E>::commit_of(ck, w, ()) {
        lemma_same_layer::<E, BackendP3Poseidon2Goldi<E>>(v, w);
    }
}

/// Openings bind: an accepted argument for a committed vector opens the values of the vector over
/// Poseidon2, in the first round and in its samples, and every later round starts from the value
/// that the round before it leads to, unless two inputs of the hash function are not told apart.
pub proof fn law_openings_are_committed_p3<E: Engine<Scalar = F>>(
    ck: HashMleCommitmentKey<E>,
    vk: HashMleVerifierKey<E>,
    t: TranscriptModel,
    comm: CommitmentModel,
    v: Seq<int>,
    point: Seq<int>,
    eval: int,
    arg: ArgumentModel,
    i: int,
    j: int,
)
    requires
        HashMlePcsP3::<E>::commit_of(ck, v, ()) == Ok::<_, ErrorModel>(comm),
        HashMlePcsP3::<E>::verify_of(vk, t, comm, point, eval, arg).0 is Ok,
        multilinear::in_field(<E::Scalar as ScalarField>::modulus(), v),
        argument_fits(<E::Scalar as ScalarField>::modulus(), arg),
        v.len() == pow2(point.len()),
        0 <= i < point.len(),
        0 <= j < 48,
    ensures
        ({
            let half = pow2((point.len() - 1) as nat) as int;
            let s = arg.samples[0][j];
            &&& arg.rounds[0].a == v[0]
            &&& arg.rounds[0].b == v[half]
            &&& s.pair.a == v[s.idx]
            &&& s.pair.b == v[s.idx + half]
            &&& i > 0 ==> arg.rounds[i].a == arg.rounds[i - 1].next
        }) || (exists|x: Seq<u64>, y: Seq<u64>| #[trigger] hash_mle_backend::states_clash(x, y)),
{
    let half = pow2((point.len() - 1) as nat) as int;
    let s = arg.samples[0][j];
    law_accepted_values_fold_p3::<E>(vk, t, comm, point, eval, arg, 0, j);
    law_accepted_values_fold_p3::<E>(vk, t, comm, point, eval, arg, i, j);
    assert(pair_fits(<E::Scalar as ScalarField>::modulus(), arg.rounds[0]));
    assert(pair_fits(<E::Scalar as ScalarField>::modulus(), s.pair));
    lemma_pow2_unfold(point.len());
    let m = point.len();
    lemma_opened_value::<E, BackendP3Poseidon2Goldi<E>>(
        arg.rounds[0].a,
        0,
        arg.rounds[0].path_a.siblings,
        v,
        m,
    );
    lemma_opened_value::<E, BackendP3Poseidon2Goldi<E>>(
        arg.rounds[0].b,
        half,
        arg.rounds[0].path_b.siblings,
        v,
        m,
    );
    lemma_opened_value::<E, BackendP3Poseidon2Goldi<E>>(
        s.pair.a,
        s.idx,
        s.pair.path_a.siblings,
        v,
        m,
    );
    lemma_opened_value::<E, BackendP3Poseidon2Goldi<E>>(
        s.pair.b,
        s.idx + half,
        s.pair.path_b.siblings,
        v,
        m,
    );
    if i > 0 {
        law_accepted_values_fold_p3::<E>(vk, t, comm, point, eval, arg, i - 1, j);
        let (o, q) = (arg.rounds[i], arg.rounds[i - 1]);
        assert(pair_fits(<E::Scalar as ScalarField>::modulus(), o));
        assert(pair_fits(<E::Scalar as ScalarField>::modulus(), q));
        lemma_same_position::<E, BackendP3Poseidon2Goldi<E>>(
            o.a,
            q.next,
            0,
            o.path_a.siblings,
            q.path_next.siblings,
        );
    }
}

/// The verifier over Poseidon2 refuses a commitment of another mode, an argument of other lengths,
/// and one that starts from another root or leads to another value, and says why.
pub proof fn law_refusals_p3<E: Engine<Scalar = F>>(
    vk: HashMleVerifierKey<E>,
    t: TranscriptModel,
    comm: CommitmentModel,
    point: Seq<int>,
    eval: int,
    arg: ArgumentModel,
)
    ensures
        ({
            let (found, end) = HashMlePcsP3::<E>::verify_of(vk, t, comm, point, eval, arg);
            let shaped = arg.layer_roots.len() == point.len() + 1 && arg.rounds.len() == point.len()
                && arg.samples.len() == point.len();
            &&& vk.zk_mode != comm.mode ==> found == Err::<(), ErrorModel>(ErrorModel::InvalidPCS)
            &&& vk.zk_mode != comm.mode || !shaped || vk.branching != 2 ==> end == t
            &&& shaped && arg.layer_roots[0] != comm.base_root ==> end.round == t.round
            &&& vk.zk_mode == comm.mode && !shaped ==> found == Err::<(), ErrorModel>(
                ErrorModel::InvalidInputLength("HashMlePCS_P3::verify malformed argument"@),
            )
            &&& vk.zk_mode == comm.mode && shaped && (vk.branching != 2 || arg.layer_roots[0]
                != comm.base_root) ==> found == Err::<(), ErrorModel>(ErrorModel::InvalidPCS)
            &&& vk.zk_mode == comm.mode && shaped && found is Err ==> found == Err::<
                (),
                ErrorModel,
            >(ErrorModel::InvalidPCS) || found == Err::<(), ErrorModel>(
                ErrorModel::InternalTranscriptError,
            )
            &&& point.len() > 0 && shaped && arg.rounds[point.len() - 1].next != eval
                ==> found is Err
        }),
{
    let s = merkle_mle_pc_p3::mode_schedule(comm.mode);
    let start = merkle_mle_pc::bound_transcript(
        s,
        t,
        merkle_mle_pc::commitment_repr(comm),
        arg.layer_roots,
    );
    lemma_walk_errors::<E, BackendP3Poseidon2Goldi<E>>(s, start, arg, point, point.len());
}

/// The keys over Poseidon2 come in one mode, and only a single piece can be combined: it is what
/// comes out.
pub proof fn law_single_piece_p3<E: Engine<Scalar = F>>(
    ck: HashMleCommitmentKey<E>,
    vk: HashMleVerifierKey<E>,
    parts: Seq<CommitmentModel>,
    blinds: Seq<()>,
    v: Seq<int>,
)
    ensures
        HashMlePcsP3::<E>::are_keys(ck, vk) ==> ck.zk_mode == merkle_mle_pc::ZkMode::LeakReduced
            && vk.zk_mode == merkle_mle_pc::ZkMode::LeakReduced && ck.branching == 2
            && vk.branching == 2,
        HashMlePcsP3::<E>::combine_partial_of(parts) is Ok <==> parts.len() == 1,
        HashMlePcsP3::<E>::combine_partial_of(parts) matches Err(e) ==> e
            == ErrorModel::InvalidInputLength(
            "HashMlePCS_P3: combine_partial expects exactly one piece"@,
        ),
        HashMlePcsP3::<E>::combine_blinds_of(blinds) matches Err(e) ==> e
            == ErrorModel::InvalidInputLength(
            "HashMlePCS_P3: combine_blinds expects exactly one"@,
        ),
        HashMlePcsP3::<E>::commit_partial_of(ck, v, ()) matches Err(e) ==> e
            == ErrorModel::InvalidInputLength("HashMlePCS_P3: vector len must be power of two"@),
        parts.len() == 1 ==> HashMlePcsP3::<E>::combine_partial_of(parts) == Ok::<_, ErrorModel>(
            parts[0],
        ),
        HashMlePcsP3::<E>::combine_blinds_of(blinds) is Ok <==> blinds.len() == 1,
        HashMlePcsP3::<E>::commit_partial_of(ck, v, ()) is Ok <==> exists|m: nat|
            v.len() == #[trigger] pow2(m),
        HashMlePcsP3::<E>::commit_partial_of(ck, v, ()) matches Ok(c) ==> HashMlePcsP3::<E>::commit_of(
            ck,
            v,
            (),
        ) == Ok::<_, ErrorModel>(c.0),
{
    law_tree_sizes(v.len());
}

/// The check of samples finds a pair that is not as it must be, or the transcript used up.
proof fn lemma_walk_errors<E: Engine, B: MleBackend<E>>(
    s: Schedule,
    t: TranscriptModel,
    arg: ArgumentModel,
    point: Seq<int>,
    i: nat,
)
    ensures
        layers::walk_layers::<E, B>(s, t, arg, point, i).found matches Err(e) ==> e
            == ErrorModel::InvalidPCS || e == ErrorModel::InternalTranscriptError,
    decreases i,
{
    if i > 0 {
        lemma_walk_errors::<E, B>(s, t, arg, point, (i - 1) as nat);
        let before = layers::walk_layers::<E, B>(s, t, arg, point, (i - 1) as nat);
        let start = layers::layer_absorb(s.streaming, before.end, arg.layer_roots, i - 1);
        lemma_samples_errors::<E, B>(s.unbiased, start, arg, point, i - 1, 48);
    }
}

/// The check of the samples of a layer finds a pair that is not as it must be, or the transcript
/// used up.
proof fn lemma_samples_errors<E: Engine, B: MleBackend<E>>(
    unbiased: bool,
    t: TranscriptModel,
    arg: ArgumentModel,
    point: Seq<int>,
    i: int,
    k: nat,
)
    ensures
        layers::walk_samples::<E, B>(unbiased, t, arg, point, i, k).found matches Err(e) ==> e
            == ErrorModel::InvalidPCS || e == ErrorModel::InternalTranscriptError,
    decreases k,
{
    if k > 0 {
        lemma_samples_errors::<E, B>(unbiased, t, arg, point, i, (k - 1) as nat);
    }
}

/// A layer without the right number of samples is found exactly if there is one.
proof fn lemma_short(samples: Seq<Seq<layers::SampleModel>>, i: nat)
    ensures
        merkle_mle_pc::first_short(samples, i) is None <==> forall|k: int|
            i <= k < samples.len() ==> (#[trigger] samples[k]).len() == 48,
    decreases samples.len() - i,
{
    if i < samples.len() {
        lemma_short(samples, i + 1);
        if forall|k: int| i <= k < samples.len() ==> (#[trigger] samples[k]).len() == 48 {
            assert(samples[i as int].len() == 48);
        }
        if samples[i as int].len() == 48 && forall|k: int|
            i + 1 <= k < samples.len() ==> (#[trigger] samples[k]).len() == 48 {
            assert forall|k: int| i <= k < samples.len() implies (#[trigger] samples[k]).len()
                == 48 by {
                assert(k == i || i + 1 <= k);
            }
        }
    }
}

/// What is said of lengths: which number of values was expected and how many there were, and which
/// round has how many samples.
pub proof fn law_length_messages(operation: Seq<char>, m: nat, n: nat)
    ensures
        merkle_mle_pc::length_reason(operation, m, n) == operation + (" expected "@ + errors::decimal(pow2(m)))
            + (" elements, got "@ + errors::decimal(n)),
        merkle_mle_pc::sample_count_reason(m, n) == "HashMlePCS::verify round "@ + errors::decimal(m) + (
        " has "@ + errors::decimal(n)) + (" samples, expected "@ + errors::decimal(48)),
{
    assert(merkle_mle_pc::length_reason(operation, m, n) =~= operation + (" expected "@ + errors::decimal(
        pow2(m),
    )) + (" elements, got "@ + errors::decimal(n)));
    assert(merkle_mle_pc::sample_count_reason(m, n) =~= "HashMlePCS::verify round "@ + errors::decimal(m)
        + (" has "@ + errors::decimal(n)) + (" samples, expected "@ + errors::decimal(48)));
}

/// An argument fixes what it shows: accepted twice over Keccak-256, for whatever transcripts,
/// commitments, points and values, it belongs to the same root and the same value, and where the
/// points differ in a coordinate the two values of that round, and of its samples, are equal modulo
/// the prime.
pub proof fn law_argument_fits_one_point<E: Engine>(
    vk: HashMleVerifierKey<E>,
    t: TranscriptModel,
    comm: CommitmentModel,
    point: Seq<int>,
    eval: int,
    u: TranscriptModel,
    other: CommitmentModel,
    point2: Seq<int>,
    eval2: int,
    arg: ArgumentModel,
    i: int,
    j: int,
)
    requires
        HashMlePCS::<E>::verify_of(vk, t, comm, point, eval, arg).0 is Ok,
        HashMlePCS::<E>::verify_of(vk, u, other, point2, eval2, arg).0 is Ok,
        0 <= i < point.len(),
        0 <= j < 48,
        (point[i] - point2[i]) % <E::Scalar as ScalarField>::modulus() != 0,
    ensures
        comm == other,
        eval == eval2,
        point.len() == point2.len(),
        (arg.rounds[i].b - arg.rounds[i].a) % <E::Scalar as ScalarField>::modulus() == 0,
        (arg.samples[i][j].pair.b - arg.samples[i][j].pair.a) % <E::Scalar as ScalarField>::modulus()
            == 0,
{
    law_refusals::<E>(vk, t, comm, point, eval, arg);
    law_refusals::<E>(vk, u, other, point2, eval2, arg);
    law_accepted_values_fold::<E>(vk, t, comm, point, eval, arg, i, j);
    law_accepted_values_fold::<E>(vk, u, other, point2, eval2, arg, i, j);
    let (o, q) = (arg.rounds[i], arg.samples[i][j].pair);
    lemma_two_folds::<E::Scalar>(o.a, o.b, point[i], point2[i]);
    lemma_two_folds::<E::Scalar>(q.a, q.b, point[i], point2[i]);
}

/// An argument fixes what it shows: accepted twice over Poseidon2, for whatever transcripts,
/// commitments, points and values, it belongs to the same root and the same value, and where the
/// points differ in a coordinate the two values of that round, and of its samples, are equal modulo
/// the prime.
pub proof fn law_argument_fits_one_point_p3<E: Engine<Scalar = F>>(
    vk: HashMleVerifierKey<E>,
    t: TranscriptModel,
    comm: CommitmentModel,
    point: Seq<int>,
    eval: int,
    u: TranscriptModel,
    other: CommitmentModel,
    point2: Seq<int>,
    eval2: int,
    arg: ArgumentModel,
    i: int,
    j: int,
)
    requires
        HashMlePcsP3::<E>::verify_of(vk, t, comm, point, eval, arg).0 is Ok,
        HashMlePcsP3::<E>::verify_of(vk, u, other, point2, eval2, arg).0 is Ok,
        0 <= i < point.len(),
        0 <= j < 48,
        (point[i] - point2[i]) % <E::Scalar as ScalarField>::modulus() != 0,
    ensures
        comm == other,
        eval == eval2,
        point.len() == point2.len(),
        (arg.rounds[i].b - arg.rounds[i].a) % <E::Scalar as ScalarField>::modulus() == 0,
        (arg.samples[i][j].pair.b - arg.samples[i][j].pair.a) % <E::Scalar as ScalarField>::modulus()
            == 0,
{
    law_refusals_p3::<E>(vk, t, comm, point, eval, arg);
    law_refusals_p3::<E>(vk, u, other, point2, eval2, arg);
    law_accepted_values_fold_p3::<E>(vk, t, comm, point, eval, arg, i, j);
    law_accepted_values_fold_p3::<E>(vk, u, other, point2, eval2, arg, i, j);
    let (o, q) = (arg.rounds[i], arg.samples[i][j].pair);
    lemma_two_folds::<E::Scalar>(o.a, o.b, point[i], point2[i]);
    lemma_two_folds::<E::Scalar>(q.a, q.b, point[i], point2[i]);
}

/// Two values that fold to the same value in two ways are equal modulo the prime.
proof fn lemma_two_folds<S: ScalarField>(a: int, b: int, r: int, s: int)
    requires
        (a + r * (b - a)) % S::modulus() == (a + s * (b - a)) % S::modulus(),
        (r - s) % S::modulus() != 0,
    ensures
        (b - a) % S::modulus() == 0,
{
    let p = S::modulus();
    S::lemma_modulus();
    S::lemma_prime();
    let d = b - a;
    modular::lemma_cong_sub(p, a + r * d, a + s * d, a + s * d, a + s * d);
    lemma_small_mod(0, p as nat);
    assert(a + r * d - (a + s * d) == (r - s) * d) by (nonlinear_arith);
    modular::lemma_cong_mod(p, r - s);
    modular::lemma_cong_mul(p, (r - s) % p, r - s, d, d);
    lemma_mod_bound(r - s, p);
    primes::lemma_euclid(p, (r - s) % p, d);
}

} // verus!
