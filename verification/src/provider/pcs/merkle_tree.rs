//! Binary Merkle trees over a hash backend.
use super::hash_mle_backend::{same_bytes, Digest32, MleBackend};
use crate::traits::{Engine, TranscriptReprTrait};
#[allow(unused_imports)]
use vstd::arithmetic::div_mod::*;
#[allow(unused_imports)]
use vstd::arithmetic::power2::*;
use vstd::prelude::*;

verus! {

/// A Merkle tree root (32-byte hash)
#[derive(Clone, Copy, Debug, PartialEq, Eq)]
pub struct MerkleRoot(pub [u8; 32]);

impl View for MerkleRoot {
    type V = Seq<u8>;

    open spec fn view(&self) -> Seq<u8> {
        self.0@
    }
}

impl TranscriptReprTrait for MerkleRoot {
    open spec fn transcript_repr(&self) -> Seq<u8> {
        self@
    }

    fn to_transcript_bytes(&self) -> Vec<u8> {
        let mut bytes: Vec<u8> = Vec::new();
        bytes.extend_from_slice(&self.0);
        assert(bytes@ =~= self.0@);
        bytes
    }
}

impl MerkleRoot {
    /// The root made of zero bytes.
    pub fn zero() -> (r: MerkleRoot)
        ensures
            r@ == Seq::new(32, |i: int| 0u8),
    {
        let r = MerkleRoot([0u8; 32]);
        assert(r@ =~= Seq::new(32, |i: int| 0u8));
        r
    }
}

/// Authentication path for a Merkle tree leaf
#[derive(Debug, PartialEq, Eq)]
pub struct MerklePath {
    /// leaf index within the committed array (0-based)
    pub leaf_index: u64,
    /// authentication path (sibling digests, bottom-up)
    pub siblings: Vec<[u8; 32]>,
}

/// What an authentication path says.
pub struct PathModel {
    /// The position of the leaf.
    pub leaf_index: int,
    /// The sibling digests, bottom-up.
    pub siblings: Seq<Seq<u8>>,
}

impl View for MerklePath {
    type V = PathModel;

    open spec fn view(&self) -> PathModel {
        PathModel {
            leaf_index: self.leaf_index as int,
            siblings: self.siblings@.map_values(|d: [u8; 32]| d@),
        }
    }
}

impl Clone for MerklePath {
    fn clone(&self) -> (r: MerklePath)
        ensures
            r@ == self@,
    {
        let mut siblings: Vec<[u8; 32]> = Vec::new();
        for i in 0..self.siblings.len()
            invariant
                siblings@.len() == i,
                forall|j: int| 0 <= j < i ==> siblings@[j] == self.siblings@[j],
        {
            siblings.push(self.siblings[i]);
        }
        assert(siblings@ =~= self.siblings@);
        MerklePath { leaf_index: self.leaf_index, siblings }
    }
}

/// A positive integer without an odd factor above one.
pub open spec fn is_pow2(n: nat) -> bool
    decreases n,
{
    n == 1 || (n > 1 && n % 2 == 0 && is_pow2(n / 2))
}

/// Whether `n` is a power of two.
pub fn is_power_of_two(n: usize) -> (r: bool)
    ensures
        r == is_pow2(n as nat),
    decreases n,
{
    if n <= 1 {
        n == 1
    } else {
        n % 2 == 0 && is_power_of_two(n / 2)
    }
}

/// The level above `level`: every pair of neighbours is hashed together.
pub open spec fn parents<E: Engine, B: MleBackend<E>>(level: Seq<Seq<u8>>) -> Seq<Seq<u8>> {
    Seq::new(level.len() / 2, |i: int| B::node_of(level[2 * i], level[2 * i + 1]))
}

/// The digest at the top of the tree over `level`.
pub open spec fn tree_root<E: Engine, B: MleBackend<E>>(level: Seq<Seq<u8>>) -> Seq<u8>
    decreases level.len(),
{
    if level.len() <= 1 {
        level[0]
    } else {
        tree_root::<E, B>(parents::<E, B>(level))
    }
}

/// The position that shares its parent with `idx`.
pub open spec fn sibling(idx: int) -> int {
    if idx % 2 == 0 {
        idx + 1
    } else {
        idx - 1
    }
}

/// The siblings on the way from position `idx` of `level` to the top.
pub open spec fn tree_path<E: Engine, B: MleBackend<E>>(level: Seq<Seq<u8>>, idx: int) -> Seq<
    Seq<u8>,
>
    decreases level.len(),
{
    if level.len() <= 1 {
        Seq::empty()
    } else {
        seq![level[sibling(idx)]] + tree_path::<E, B>(parents::<E, B>(level), idx / 2)
    }
}

/// The parent of `cur` at position `idx` and its sibling.
pub open spec fn step_up<E: Engine, B: MleBackend<E>>(
    cur: Seq<u8>,
    idx: int,
    sib: Seq<u8>,
) -> Seq<u8> {
    if idx % 2 == 0 {
        B::node_of(cur, sib)
    } else {
        B::node_of(sib, cur)
    }
}

/// The digest reached from `cur` at position `idx` by climbing along `siblings`.
pub open spec fn path_root<E: Engine, B: MleBackend<E>>(
    cur: Seq<u8>,
    idx: int,
    siblings: Seq<Seq<u8>>,
) -> Seq<u8>
    decreases siblings.len(),
{
    if siblings.len() == 0 {
        cur
    } else {
        path_root::<E, B>(
            step_up::<E, B>(cur, idx, siblings[0]),
            idx / 2,
            siblings.drop_first(),
        )
    }
}

/// Every level of the tree over `level`, from the bottom to the top.
pub open spec fn tree_levels<E: Engine, B: MleBackend<E>>(level: Seq<Seq<u8>>) -> Seq<Seq<Seq<u8>>>
    decreases level.len(),
{
    if level.len() <= 1 {
        seq![level]
    } else {
        seq![level] + tree_levels::<E, B>(parents::<E, B>(level))
    }
}

/// The siblings of position `idx` on every level below the top.
pub open spec fn levels_path(levels: Seq<Seq<Seq<u8>>>, idx: int) -> Seq<Seq<u8>>
    decreases levels.len(),
{
    if levels.len() <= 1 {
        Seq::empty()
    } else {
        seq![levels[0][sibling(idx)]] + levels_path(levels.drop_first(), idx / 2)
    }
}

/// Each level has half as many digests as the one below, and the top one has a single digest.
pub open spec fn levels_shape(levels: Seq<Seq<Seq<u8>>>) -> bool
    decreases levels.len(),
{
    &&& levels.len() > 0
    &&& if levels.len() == 1 {
        levels[0].len() == 1
    } else {
        &&& levels[0].len() == 2 * levels[1].len()
        &&& levels_shape(levels.drop_first())
    }
}

/// The levels of a tree over a power of two of leaves have the shape of a tree.
pub proof fn lemma_tree_levels_shape<E: Engine, B: MleBackend<E>>(level: Seq<Seq<u8>>)
    requires
        is_pow2(level.len()),
    ensures
        levels_shape(tree_levels::<E, B>(level)),
        tree_levels::<E, B>(level)[0] == level,
        tree_levels::<E, B>(level).last().len() == 1,
        tree_levels::<E, B>(level).last()[0] == tree_root::<E, B>(level),
    decreases level.len(),
{
    if level.len() > 1 {
        let up = parents::<E, B>(level);
        lemma_tree_levels_shape::<E, B>(up);
        let levels = tree_levels::<E, B>(level);
        assert(levels.drop_first() =~= tree_levels::<E, B>(up));
    }
}

/// Reading the siblings off the levels of a tree gives its authentication path.
pub proof fn lemma_levels_path<E: Engine, B: MleBackend<E>>(level: Seq<Seq<u8>>, idx: int)
    requires
        is_pow2(level.len()),
    ensures
        levels_path(tree_levels::<E, B>(level), idx) == tree_path::<E, B>(level, idx),
    decreases level.len(),
{
    if level.len() > 1 {
        let up = parents::<E, B>(level);
        lemma_levels_path::<E, B>(up, idx / 2);
        let levels = tree_levels::<E, B>(level);
        assert(levels.drop_first() =~= tree_levels::<E, B>(up));
        lemma_tree_levels_shape::<E, B>(up);
    }
}

/// The length of an authentication path is the height of the tree.
pub open spec fn height(n: nat) -> nat
    decreases n,
{
    if n <= 1 {
        0
    } else {
        1 + height(n / 2)
    }
}

/// The height of a tree over `n` leaves.
pub fn height_of(n: usize) -> (r: usize)
    ensures
        r == height(n as nat),
        r <= n,
    decreases n,
{
    if n <= 1 {
        0
    } else {
        1 + height_of(n / 2)
    }
}

/// Climbing from a leaf along its authentication path reaches the root, and the path is as long
/// as the tree is high.
pub proof fn law_open_verifies<E: Engine, B: MleBackend<E>>(leaves: Seq<Seq<u8>>, idx: int)
    requires
        is_pow2(leaves.len()),
        0 <= idx < leaves.len(),
    ensures
        path_root::<E, B>(leaves[idx], idx, tree_path::<E, B>(leaves, idx)) == tree_root::<E, B>(
            leaves,
        ),
        tree_path::<E, B>(leaves, idx).len() == height(leaves.len()),
    decreases leaves.len(),
{
    if leaves.len() > 1 {
        let up = parents::<E, B>(leaves);
        law_open_verifies::<E, B>(up, idx / 2);
        let path = tree_path::<E, B>(leaves, idx);
        assert(path.drop_first() =~= tree_path::<E, B>(up, idx / 2));
        assert(up[idx / 2] == step_up::<E, B>(leaves[idx], idx, path[0]));
    }
}

/// The position of the ancestor `k` levels above position `idx`.
pub open spec fn ancestor(idx: int, k: nat) -> int
    decreases k,
{
    if k == 0 {
        idx
    } else {
        ancestor(idx, (k - 1) as nat) / 2
    }
}

/// The digest reached from `cur` at position `idx` by climbing `k` levels along `siblings`.
pub open spec fn climbed<E: Engine, B: MleBackend<E>>(
    cur: Seq<u8>,
    idx: int,
    siblings: Seq<Seq<u8>>,
    k: nat,
) -> Seq<u8>
    decreases k,
{
    if k == 0 {
        cur
    } else {
        step_up::<E, B>(
            climbed::<E, B>(cur, idx, siblings, (k - 1) as nat),
            ancestor(idx, (k - 1) as nat),
            siblings[k - 1],
        )
    }
}

/// On level `k` the two paths hold different pairs of digests that hash to the same parent.
pub open spec fn clash_at<E: Engine, B: MleBackend<E>>(
    a: Seq<u8>,
    b: Seq<u8>,
    idx: int,
    path_a: Seq<Seq<u8>>,
    path_b: Seq<Seq<u8>>,
    k: nat,
) -> bool {
    let cur_a = climbed::<E, B>(a, idx, path_a, k);
    let cur_b = climbed::<E, B>(b, idx, path_b, k);
    let at = ancestor(idx, k);
    &&& k < path_a.len()
    &&& cur_a != cur_b || path_a[k as int] != path_b[k as int]
    &&& step_up::<E, B>(cur_a, at, path_a[k as int]) == step_up::<E, B>(
        cur_b,
        at,
        path_b[k as int],
    )
}

/// The two paths exhibit a collision of the hash of inner nodes.
pub open spec fn paths_clash<E: Engine, B: MleBackend<E>>(
    a: Seq<u8>,
    b: Seq<u8>,
    idx: int,
    path_a: Seq<Seq<u8>>,
    path_b: Seq<Seq<u8>>,
) -> bool {
    exists|k: nat| clash_at::<E, B>(a, b, idx, path_a, path_b, k)
}

/// The ancestor of the parent.
proof fn lemma_ancestor(idx: int, k: nat)
    ensures
        ancestor(idx / 2, k) == ancestor(idx, k + 1),
    decreases k,
{
    reveal_with_fuel(ancestor, 2);
    if k > 0 {
        lemma_ancestor(idx, (k - 1) as nat);
    }
}

/// Climbing from the parent.
proof fn lemma_climbed_first<E: Engine, B: MleBackend<E>>(
    cur: Seq<u8>,
    idx: int,
    siblings: Seq<Seq<u8>>,
    k: nat,
)
    requires
        k < siblings.len(),
    ensures
        climbed::<E, B>(
            step_up::<E, B>(cur, idx, siblings[0]),
            idx / 2,
            siblings.drop_first(),
            k,
        ) == climbed::<E, B>(cur, idx, siblings, k + 1),
    decreases k,
{
    reveal_with_fuel(climbed, 2);
    if k > 0 {
        lemma_climbed_first::<E, B>(cur, idx, siblings, (k - 1) as nat);
        lemma_ancestor(idx, (k - 1) as nat);
        assert(siblings.drop_first()[k - 1] == siblings[k as int]);
    }
}

/// A path leads to the digest reached by climbing all of its levels.
pub proof fn lemma_path_root_climbed<E: Engine, B: MleBackend<E>>(
    cur: Seq<u8>,
    idx: int,
    siblings: Seq<Seq<u8>>,
)
    ensures
        path_root::<E, B>(cur, idx, siblings) == climbed::<E, B>(
            cur,
            idx,
            siblings,
            siblings.len(),
        ),
    decreases siblings.len(),
{
    if siblings.len() > 0 {
        let up = step_up::<E, B>(cur, idx, siblings[0]);
        lemma_path_root_climbed::<E, B>(up, idx / 2, siblings.drop_first());
        lemma_climbed_first::<E, B>(cur, idx, siblings, (siblings.len() - 1) as nat);
    }
}

/// Different digests that climb to the same digest clash on the way.
proof fn lemma_clash_below<E: Engine, B: MleBackend<E>>(
    a: Seq<u8>,
    b: Seq<u8>,
    idx: int,
    path_a: Seq<Seq<u8>>,
    path_b: Seq<Seq<u8>>,
    k: nat,
)
    requires
        k <= path_a.len(),
        a != b,
        climbed::<E, B>(a, idx, path_a, k) == climbed::<E, B>(b, idx, path_b, k),
    ensures
        paths_clash::<E, B>(a, b, idx, path_a, path_b),
    decreases k,
{
    if k > 0 {
        let j = (k - 1) as nat;
        if climbed::<E, B>(a, idx, path_a, j) == climbed::<E, B>(b, idx, path_b, j) {
            lemma_clash_below::<E, B>(a, b, idx, path_a, path_b, j);
        } else {
            assert(clash_at::<E, B>(a, b, idx, path_a, path_b, j));
        }
    }
}

/// Position binding: two different digests that climb from the same position to the same root
/// along paths of the same length hold, on some level of these paths, a collision of the node
/// hash.
pub proof fn law_position_binding<E: Engine, B: MleBackend<E>>(
    a: Seq<u8>,
    b: Seq<u8>,
    idx: int,
    path_a: Seq<Seq<u8>>,
    path_b: Seq<Seq<u8>>,
)
    requires
        path_a.len() == path_b.len(),
        path_root::<E, B>(a, idx, path_a) == path_root::<E, B>(b, idx, path_b),
        a != b,
    ensures
        paths_clash::<E, B>(a, b, idx, path_a, path_b),
{
    lemma_path_root_climbed::<E, B>(a, idx, path_a);
    lemma_path_root_climbed::<E, B>(b, idx, path_b);
    lemma_clash_below::<E, B>(a, b, idx, path_a, path_b, path_a.len());
}

/// A tree over one leaf is that leaf; a tree over two halves hashes the roots of the trees over the
/// halves, the left one first. A path into one half ends with the root of the other half.
pub proof fn law_tree_joins<E: Engine, B: MleBackend<E>>(
    d: Seq<u8>,
    left: Seq<Seq<u8>>,
    right: Seq<Seq<u8>>,
    i: int,
)
    requires
        is_pow2(left.len()),
        left.len() == right.len(),
        0 <= i < left.len(),
    ensures
        tree_root::<E, B>(seq![d]) == d,
        tree_path::<E, B>(seq![d], 0) == Seq::<Seq<u8>>::empty(),
        tree_root::<E, B>(left + right) == B::node_of(
            tree_root::<E, B>(left),
            tree_root::<E, B>(right),
        ),
        tree_path::<E, B>(left + right, i) == tree_path::<E, B>(left, i).push(
            tree_root::<E, B>(right),
        ),
        tree_path::<E, B>(left + right, left.len() + i) == tree_path::<E, B>(right, i).push(
            tree_root::<E, B>(left),
        ),
    decreases left.len(),
{
    let all = left + right;
    let up = parents::<E, B>(all);
    if left.len() == 1 {
        assert(up =~= seq![B::node_of(left[0], right[0])]);
        assert(tree_path::<E, B>(up, 0) =~= Seq::empty());
        assert(tree_root::<E, B>(all) == tree_root::<E, B>(up));
        assert(tree_root::<E, B>(up) == up[0]);
        assert(tree_path::<E, B>(all, i) =~= tree_path::<E, B>(left, i).push(right[0]));
        assert(tree_path::<E, B>(all, 1) =~= tree_path::<E, B>(right, i).push(left[0]));
    } else {
        let a = parents::<E, B>(left);
        let b = parents::<E, B>(right);
        assert(up =~= a + b) by {
            assert forall|k: int| 0 <= k < up.len() implies up[k] == (a + b)[k] by {
                if k >= a.len() {
                    assert(all[2 * k] == right[2 * (k - a.len())]);
                    assert(all[2 * k + 1] == right[2 * (k - a.len()) + 1]);
                }
            }
        }
        law_tree_joins::<E, B>(d, a, b, i / 2);
        assert(tree_root::<E, B>(all) == tree_root::<E, B>(up));
        assert(all[sibling(i)] == left[sibling(i)]);
        assert(all[sibling(left.len() + i)] == right[sibling(i)]);
        assert((left.len() + i) / 2 == a.len() + i / 2);
        assert(tree_path::<E, B>(all, i) =~= tree_path::<E, B>(left, i).push(
            tree_root::<E, B>(right),
        ));
        assert(tree_path::<E, B>(all, left.len() + i) =~= tree_path::<E, B>(right, i).push(
            tree_root::<E, B>(left),
        ));
    }
}

/// One more sibling hashes what the path has reached with it, on the side that the next bit of the
/// position tells; a path without siblings stays at its leaf.
pub proof fn law_path_extends<E: Engine, B: MleBackend<E>>(
    cur: Seq<u8>,
    idx: int,
    siblings: Seq<Seq<u8>>,
    next: Seq<u8>,
)
    requires
        idx >= 0,
    ensures
        path_root::<E, B>(cur, idx, Seq::empty()) == cur,
        path_root::<E, B>(cur, idx, siblings.push(next)) == if (idx / (pow2(
            siblings.len(),
        ) as int)) % 2 == 0 {
            B::node_of(path_root::<E, B>(cur, idx, siblings), next)
        } else {
            B::node_of(next, path_root::<E, B>(cur, idx, siblings))
        },
    decreases siblings.len(),
{
    let more = siblings.push(next);
    lemma2_to64();
    if siblings.len() == 0 {
        assert(more.drop_first() =~= Seq::empty());
        reveal_with_fuel(path_root, 2);
        assert(path_root::<E, B>(cur, idx, more) == step_up::<E, B>(cur, idx, next));
        assert(idx / (pow2(siblings.len()) as int) == idx);
    } else {
        let rest = siblings.drop_first();
        assert(more.drop_first() =~= rest.push(next));
        assert(more[0] == siblings[0]);
        law_path_extends::<E, B>(step_up::<E, B>(cur, idx, siblings[0]), idx / 2, rest, next);
        lemma_pow2_unfold(siblings.len());
        lemma_pow2_pos(rest.len());
        lemma_div_denominator(idx, 2, pow2(rest.len()) as int);
        assert(path_root::<E, B>(cur, idx, siblings) == path_root::<E, B>(
            step_up::<E, B>(cur, idx, siblings[0]),
            idx / 2,
            rest,
        ));
        assert(pow2(siblings.len()) == 2 * pow2(rest.len()));
        assert(idx / (pow2(siblings.len()) as int) == (idx / 2) / (pow2(rest.len()) as int));
    }
}

/// Trees bind: if two trees of one size have roots that are alike, all of their leaves are alike,
/// unless the hash function collides.
pub proof fn law_tree_binds<E: Engine, B: MleBackend<E>>(a: Seq<Seq<u8>>, b: Seq<Seq<u8>>)
    requires
        is_pow2(a.len()),
        a.len() == b.len(),
        forall|i: int| 0 <= i < a.len() ==> (#[trigger] a[i]).len() == 32,
        forall|i: int| 0 <= i < b.len() ==> (#[trigger] b[i]).len() == 32,
        B::alike(tree_root::<E, B>(a), tree_root::<E, B>(b)),
    ensures
        B::collides() || forall|i: int| 0 <= i < a.len() ==> B::alike(#[trigger] a[i], b[i]),
    decreases a.len(),
{
    if a.len() > 1 && !B::collides() {
        let up_a = parents::<E, B>(a);
        let up_b = parents::<E, B>(b);
        assert forall|i: int| 0 <= i < up_a.len() implies (#[trigger] up_a[i]).len() == 32
            && up_b[i].len() == 32 by {
            B::lemma_digest_len(0, a[2 * i], a[2 * i + 1]);
            B::lemma_digest_len(0, b[2 * i], b[2 * i + 1]);
        }
        assert forall|i: int| 0 <= i < up_b.len() implies (#[trigger] up_b[i]).len() == 32 by {
            assert(up_a[i].len() == 32);
        }
        law_tree_binds::<E, B>(up_a, up_b);
        assert forall|i: int| 0 <= i < a.len() implies B::alike(#[trigger] a[i], b[i]) by {
            let k = i / 2;
            assert(B::alike(up_a[k], up_b[k]));
            B::law_node_binds(a[2 * k], a[2 * k + 1], b[2 * k], b[2 * k + 1]);
            assert(i == 2 * k || i == 2 * k + 1);
        }
    }
}

/// Paths bind: if two paths of one length lead from one position to roots that are alike, what they
/// start from is alike, and so is every sibling, unless the hash function collides.
pub proof fn law_path_binds<E: Engine, B: MleBackend<E>>(
    a: Seq<u8>,
    b: Seq<u8>,
    idx: int,
    path_a: Seq<Seq<u8>>,
    path_b: Seq<Seq<u8>>,
)
    requires
        path_a.len() == path_b.len(),
        a.len() == 32,
        b.len() == 32,
        forall|i: int| 0 <= i < path_a.len() ==> (#[trigger] path_a[i]).len() == 32,
        forall|i: int| 0 <= i < path_b.len() ==> (#[trigger] path_b[i]).len() == 32,
        B::alike(path_root::<E, B>(a, idx, path_a), path_root::<E, B>(b, idx, path_b)),
    ensures
        B::collides() || (B::alike(a, b) && forall|i: int|
            0 <= i < path_a.len() ==> B::alike(#[trigger] path_a[i], path_b[i])),
    decreases path_a.len(),
{
    if path_a.len() > 0 && !B::collides() {
        let up_a = step_up::<E, B>(a, idx, path_a[0]);
        let up_b = step_up::<E, B>(b, idx, path_b[0]);
        B::lemma_digest_len(0, a, path_a[0]);
        B::lemma_digest_len(0, path_a[0], a);
        B::lemma_digest_len(0, b, path_b[0]);
        B::lemma_digest_len(0, path_b[0], b);
        let (rest_a, rest_b) = (path_a.drop_first(), path_b.drop_first());
        law_path_binds::<E, B>(up_a, up_b, idx / 2, rest_a, rest_b);
        if idx % 2 == 0 {
            B::law_node_binds(a, path_a[0], b, path_b[0]);
        } else {
            B::law_node_binds(path_a[0], a, path_b[0], b);
        }
        assert forall|i: int| 0 <= i < path_a.len() implies B::alike(
            #[trigger] path_a[i],
            path_b[i],
        ) by {
            if i > 0 {
                assert(B::alike(rest_a[i - 1], rest_b[i - 1]));
            }
        }
    }
}

/// Hash a leaf field element into a 32-byte digest using the specified backend
pub fn leaf_digest<E: Engine, B: MleBackend<E>>(x: &B::FE) -> (r: Digest32)
    ensures
        r@ == B::leaf_of(B::fe_val(*x)),
{
    B::leaf_hash(x)
}

/// Hash two child digests into a parent digest using the specified backend
pub fn node_digest<E: Engine, B: MleBackend<E>>(l: &Digest32, r: &Digest32) -> (d: Digest32)
    ensures
        d@ == B::node_of(l@, r@),
{
    B::node_hash(l, r)
}

/// The bytes of every digest on a level.
pub open spec fn level_view(level: Seq<Digest32>) -> Seq<Seq<u8>> {
    level.map_values(|d: Digest32| d@)
}

/// The bytes of every digest of a tree.
pub open spec fn levels_view(levels: Seq<Vec<Digest32>>) -> Seq<Seq<Seq<u8>>> {
    levels.map_values(|l: Vec<Digest32>| level_view(l@))
}

/// Merkle tree implementation using configurable hash backends
pub struct MerkleTree {
    /// All levels; the first one holds the leaves, the last one the root.
    layers: Vec<Vec<Digest32>>,
}

impl View for MerkleTree {
    type V = Seq<Seq<Seq<u8>>>;

    closed spec fn view(&self) -> Seq<Seq<Seq<u8>>> {
        levels_view(self.layers@)
    }
}

impl MerkleTree {
    /// The levels have the shape of a binary tree.
    #[verifier::type_invariant]
    spec fn is_tree(self) -> bool {
        levels_shape(levels_view(self.layers@))
    }

    /// Create a new Merkle tree from leaf digests using the specified backend
    pub fn from_leaves<E: Engine, B: MleBackend<E>>(leaves: Vec<Digest32>) -> (t: MerkleTree)
        requires
            is_pow2(leaves@.len()),
        ensures
            t@ == tree_levels::<E, B>(level_view(leaves@)),
    {
        let ghost bottom = level_view(leaves@);
        let ghost goal = tree_levels::<E, B>(bottom);
        let mut layers: Vec<Vec<Digest32>> = Vec::new();
        let mut cur = leaves;
        assert(levels_view(layers@) + tree_levels::<E, B>(level_view(cur@)) =~= goal);
        while cur.len() > 1
            invariant
                is_pow2(cur@.len()),
                levels_view(layers@) + tree_levels::<E, B>(level_view(cur@)) == goal,
            decreases cur@.len(),
        {
            let mut next: Vec<Digest32> = Vec::new();
            let n: usize = cur.len();
            let half: usize = n / 2;
            for i in 0..half
                invariant
                    n == cur@.len(),
                    half == n / 2,
                    next@.len() == i,
                    forall|j: int|
                        0 <= j < i ==> next@[j]@ == B::node_of(cur@[2 * j]@, cur@[2 * j + 1]@),
            {
                next.push(node_digest::<E, B>(&cur[2 * i], &cur[2 * i + 1]));
            }
            let ghost lower = level_view(cur@);
            let ghost before = levels_view(layers@);
            assert(level_view(next@) =~= parents::<E, B>(lower));
            layers.push(cur);
            assert(levels_view(layers@) =~= before.push(lower));
            cur = next;
            assert(levels_view(layers@) + tree_levels::<E, B>(level_view(cur@)) =~= before
                + tree_levels::<E, B>(lower));
        }
        let ghost before = levels_view(layers@);
        let ghost top = level_view(cur@);
        layers.push(cur);
        assert(levels_view(layers@) =~= before.push(top));
        assert(levels_view(layers@) =~= goal);
        proof {
            lemma_tree_levels_shape::<E, B>(bottom);
        }
        MerkleTree { layers }
    }

    /// Get the root digest of the Merkle tree
    pub fn root(&self) -> (r: Digest32)
        ensures
            r@ == self@.last()[0],
    {
        proof {
            use_type_invariant(self);
            lemma_shape_top(self@);
        }
        let top = self.layers.len() - 1;
        assert(self@[top as int] == level_view(self.layers@[top as int]@));
        self.layers[top][0]
    }

    /// Generate a Merkle proof for the leaf at the given index
    pub fn open(&self, leaf_index: usize) -> (path: MerklePath)
        requires
            leaf_index < self@[0].len() || self@.len() == 1,
        ensures
            path@ == (PathModel {
                leaf_index: leaf_index as int,
                siblings: levels_path(self@, leaf_index as int),
            }),
    {
        proof {
            use_type_invariant(self);
        }
        let n: usize = self.layers.len();
        let mut idx: usize = leaf_index;
        let mut siblings: Vec<[u8; 32]> = Vec::new();
        let ghost goal = levels_path(self@, leaf_index as int);
        let mut k: usize = 0;
        assert(self@.skip(0) =~= self@);
        while k + 1 < n
            invariant
                n == self.layers@.len(),
                n == self@.len(),
                k < n,
                levels_shape(self@.skip(k as int)),
                idx < self@[k as int].len() || k + 1 == n,
                siblings@.map_values(|d: [u8; 32]| d@) + levels_path(
                    self@.skip(k as int),
                    idx as int,
                ) == goal,
            decreases n - k,
        {
            let ghost rest = self@.skip(k as int);
            assert(rest.drop_first() =~= self@.skip(k + 1));
            assert(rest[1] == self@[k + 1]);
            proof {
                lemma_shape_even(rest);
            }
            assert(self@[k as int] == level_view(self.layers@[k as int]@));
            let sib: Digest32 = if idx % 2 == 0 {
                self.layers[k][idx + 1]
            } else {
                self.layers[k][idx - 1]
            };
            let ghost before = siblings@.map_values(|d: [u8; 32]| d@);
            siblings.push(sib.0);
            assert(siblings@.map_values(|d: [u8; 32]| d@) =~= before.push(sib@));
            assert(siblings@.map_values(|d: [u8; 32]| d@) + levels_path(
                rest.drop_first(),
                idx as int / 2,
            ) =~= before + levels_path(rest, idx as int));
            idx = idx / 2;
            k = k + 1;
        }
        assert(siblings@.map_values(|d: [u8; 32]| d@) =~= goal);
        MerklePath { leaf_index: leaf_index as u64, siblings }
    }

    /// Verify a Merkle proof using the specified backend
    pub fn verify<E: Engine, B: MleBackend<E>>(
        path: &MerklePath,
        leaf: &Digest32,
        root: &Digest32,
    ) -> (r: bool)
        ensures
            r == (path_root::<E, B>(leaf@, path@.leaf_index, path@.siblings) == root@),
    {
        let mut idx: u64 = path.leaf_index;
        let mut cur: Digest32 = *leaf;
        let ghost goal = path_root::<E, B>(leaf@, path@.leaf_index, path@.siblings);
        assert(path@.siblings.skip(0) =~= path@.siblings);
        for k in 0..path.siblings.len()
            invariant
                path_root::<E, B>(cur@, idx as int, path@.siblings.skip(k as int)) == goal,
        {
            let ghost rest = path@.siblings.skip(k as int);
            let sib = Digest32(path.siblings[k]);
            assert(rest[0] == sib@);
            assert(rest.drop_first() =~= path@.siblings.skip(k + 1));
            cur = if idx % 2 == 0 {
                node_digest::<E, B>(&cur, &sib)
            } else {
                node_digest::<E, B>(&sib, &cur)
            };
            idx = idx / 2;
        }
        same_bytes(&cur.0, &root.0)
    }
}

/// The top level holds a single digest.
proof fn lemma_shape_top(levels: Seq<Seq<Seq<u8>>>)
    requires
        levels_shape(levels),
    ensures
        levels.last().len() == 1,
    decreases levels.len(),
{
    if levels.len() > 1 {
        lemma_shape_top(levels.drop_first());
        assert(levels.drop_first().last() == levels.last());
    }
}

/// A level below the top holds a positive, even number of digests.
proof fn lemma_shape_even(levels: Seq<Seq<Seq<u8>>>)
    requires
        levels_shape(levels),
        levels.len() > 1,
    ensures
        levels[0].len() % 2 == 0,
        levels[0].len() == 2 * levels[1].len(),
        levels[0].len() > 0,
    decreases levels.len(),
{
    reveal_with_fuel(levels_shape, 2);
    let rest = levels.drop_first();
    assert(rest[0] == levels[1]);
    if rest.len() > 1 {
        lemma_shape_even(rest);
    }
}

/// What a transcript sees of a root or of a digest is its 32 bytes.
pub proof fn law_transcript_sees_the_bytes(a: MerkleRoot, b: MerkleRoot, c: Digest32, d: Digest32)
    ensures
        a.transcript_repr().len() == 32,
        a.transcript_repr() == b.transcript_repr() ==> a@ == b@,
        c.transcript_repr().len() == 32,
        c.transcript_repr() == d.transcript_repr() ==> c@ == d@,
        a@.len() == 32,
        c@.len() == 32,
{
}

} // verus!
