//! Backend interface for the hash-based commitment scheme: field bridge and digest.
//!
//! Two backends are available: one computes in the scalar field and hashes with Keccak-256, the
//! other one computes in the Goldilocks field of `p3_goldilocks` and hashes with Poseidon2.
use crate::provider::goldi::{F, GOLDILOCKS_MODULUS};
use crate::provider::keccak;
use crate::traits::{Engine, ScalarField, TranscriptReprTrait};
use std::marker::PhantomData;
#[allow(unused_imports)]
use vstd::arithmetic::div_mod::*;
#[allow(unused_imports)]
use vstd::arithmetic::mul::*;
use vstd::prelude::*;
#[allow(unused_imports)]
use vstd::string::*;

verus! {

/// 32-byte digest used by the Merkle tree / commitment
#[derive(Clone, Copy, Debug, PartialEq, Eq)]
pub struct Digest32(pub [u8; 32]);

impl View for Digest32 {
    type V = Seq<u8>;

    open spec fn view(&self) -> Seq<u8> {
        self.0@
    }
}

/// Whether two digests hold the same bytes.
pub fn same_bytes(a: &[u8; 32], b: &[u8; 32]) -> (r: bool)
    ensures
        r == (a@ == b@),
{
    for i in 0..32usize
        invariant
            forall|j: int| 0 <= j < i ==> a@[j] == b@[j],
    {
        if a[i] != b[i] {
            assert(a@[i as int] != b@[i as int]);
            return false;
        }
    }
    assert(a@ =~= b@);
    true
}

/// The first 32 bytes as an array.
fn array_of(bytes: &Vec<u8>) -> (r: [u8; 32])
    requires
        bytes@.len() == 32,
    ensures
        r@ == bytes@,
{
    let mut r: [u8; 32] = [0u8; 32];
    for i in 0..32usize
        invariant
            bytes@.len() == 32,
            forall|j: int| 0 <= j < i ==> r@[j] == bytes@[j],
    {
        r[i] = bytes[i];
    }
    assert(r@ =~= bytes@);
    r
}

impl TranscriptReprTrait for Digest32 {
    open spec fn transcript_repr(&self) -> Seq<u8> {
        self@
    }

    fn to_transcript_bytes(&self) -> Vec<u8> {
        let mut bytes: Vec<u8> = Vec::new();
        bytes.extend_from_slice(&self.0);
        assert(bytes@ =~= self.0@);
        bytes
    }
}

/// Backends are parameterized by the engine `E`, so they can see `E::Scalar` at the boundary.
pub trait MleBackend<E: Engine>: Sized {
    /// Internal field element type used by this backend.
    type FE: Copy;

    /// The integer that an internal field element stands for.
    spec fn fe_val(x: Self::FE) -> int;

    /// The digest of the leaf that holds the element that stands for `v`.
    spec fn leaf_of(v: int) -> Seq<u8>;

    /// The digest of the parent of two digests.
    spec fn node_of(l: Seq<u8>, r: Seq<u8>) -> Seq<u8>;

    /// Whether no later hash tells two digests apart.
    spec fn alike(a: Seq<u8>, b: Seq<u8>) -> bool;

    /// The hash function does not tell two of its inputs apart, or gives too short a digest.
    spec fn collides() -> bool;

    /// Digests have 32 bytes.
    proof fn lemma_digest_len(v: int, l: Seq<u8>, r: Seq<u8>)
        ensures
            Self::leaf_of(v).len() == 32 || Self::collides(),
            Self::node_of(l, r).len() == 32 || Self::collides(),
    ;

    /// Equal digests are alike.
    proof fn lemma_alike(a: Seq<u8>)
        ensures
            Self::alike(a, a),
    ;

    /// Leaves bind: two elements whose leaves are alike are equal, unless the hash function
    /// collides.
    proof fn law_leaf_binds(v: int, w: int)
        requires
            0 <= v < E::Scalar::modulus(),
            0 <= w < E::Scalar::modulus(),
            Self::alike(Self::leaf_of(v), Self::leaf_of(w)),
        ensures
            v == w || Self::collides(),
    ;

    /// Nodes bind: two pairs of digests whose parents are alike are alike on both sides, unless the
    /// hash function collides.
    proof fn law_node_binds(l: Seq<u8>, r: Seq<u8>, x: Seq<u8>, y: Seq<u8>)
        requires
            l.len() == 32,
            r.len() == 32,
            x.len() == 32,
            y.len() == 32,
            Self::alike(Self::node_of(l, r), Self::node_of(x, y)),
        ensures
            (Self::alike(l, x) && Self::alike(r, y)) || Self::collides(),
    ;

    /// Leaves and nodes are kept apart: none is alike to one of the other kind, unless the hash
    /// function collides.
    proof fn law_leaf_is_no_node(v: int, l: Seq<u8>, r: Seq<u8>)
        requires
            0 <= v < E::Scalar::modulus(),
            Self::alike(Self::leaf_of(v), Self::node_of(l, r)),
        ensures
            Self::collides(),
    ;

    /// Convert from the engine's scalar to the backend field.
    fn fe_from_ff(x: &E::Scalar) -> (r: Self::FE)
        ensures
            Self::fe_val(r) == x.val(),
    ;

    /// Convert from backend field back to the engine's scalar.
    fn fe_to_ff(x: &Self::FE) -> (r: E::Scalar)
        ensures
            r.val() == Self::fe_val(*x),
    ;

    /// The additive identity.
    fn zero() -> (r: Self::FE)
        ensures
            Self::fe_val(r) == 0,
    ;

    /// The multiplicative identity.
    fn one() -> (r: Self::FE)
        ensures
            Self::fe_val(r) == 1,
    ;

    /// The sum of two elements.
    fn add(a: Self::FE, b: Self::FE) -> (r: Self::FE)
        ensures
            Self::fe_val(r) == (Self::fe_val(a) + Self::fe_val(b)) % E::Scalar::modulus(),
    ;

    /// The difference of two elements.
    fn sub(a: Self::FE, b: Self::FE) -> (r: Self::FE)
        ensures
            Self::fe_val(r) == (Self::fe_val(a) - Self::fe_val(b)) % E::Scalar::modulus(),
    ;

    /// The product of two elements.
    fn mul(a: Self::FE, b: Self::FE) -> (r: Self::FE)
        ensures
            Self::fe_val(r) == (Self::fe_val(a) * Self::fe_val(b)) % E::Scalar::modulus(),
    ;

    /// Hash a leaf field element into a 32-byte digest.
    fn leaf_hash(x: &Self::FE) -> (r: Digest32)
        ensures
            r@ == Self::leaf_of(Self::fe_val(*x)),
    ;

    /// Hash/consolidate two child digests into a parent digest (2-to-1).
    fn node_hash(l: &Digest32, r: &Digest32) -> (d: Digest32)
        ensures
            d@ == Self::node_of(l@, r@),
    ;
}

/// Domain tag of leaves ("mle/leaf").
pub const TAG_LEAF: [u8; 8] = [109, 108, 101, 47, 108, 101, 97, 102];

/// Domain tag of inner nodes ("mle/node").
pub const TAG_NODE: [u8; 8] = [109, 108, 101, 47, 110, 111, 100, 101];

/// Computes in the scalar field and hashes with Keccak-256.
pub struct BackendFfKeccak<E: Engine>(PhantomData<E>);

impl<E: Engine> MleBackend<E> for BackendFfKeccak<E> {
    type FE = E::Scalar;

    open spec fn fe_val(x: E::Scalar) -> int {
        x.val()
    }

    open spec fn leaf_of(v: int) -> Seq<u8> {
        keccak::keccak256_of(TAG_LEAF@ + E::Scalar::repr_of(v))
    }

    open spec fn node_of(l: Seq<u8>, r: Seq<u8>) -> Seq<u8> {
        keccak::keccak256_of(TAG_NODE@ + l + r)
    }

    open spec fn alike(a: Seq<u8>, b: Seq<u8>) -> bool {
        a == b
    }

    open spec fn collides() -> bool {
        ||| exists|x: Seq<u8>, y: Seq<u8>|
            x != y && #[trigger] keccak::keccak256_of(x) == #[trigger] keccak::keccak256_of(y)
        ||| exists|x: Seq<u8>| (#[trigger] keccak::keccak256_of(x)).len() != 32
    }

    proof fn lemma_digest_len(v: int, l: Seq<u8>, r: Seq<u8>) {
        let leaf = TAG_LEAF@ + E::Scalar::repr_of(v);
        assert(keccak::keccak256_of(leaf) == Self::leaf_of(v));
        let node = TAG_NODE@ + l + r;
        assert(keccak::keccak256_of(node) == Self::node_of(l, r));
    }

    proof fn lemma_alike(a: Seq<u8>) {
    }

    proof fn law_leaf_binds(v: int, w: int) {
        let x = TAG_LEAF@ + E::Scalar::repr_of(v);
        let y = TAG_LEAF@ + E::Scalar::repr_of(w);
        assert(keccak::keccak256_of(x) == keccak::keccak256_of(y));
        if x == y {
            E::Scalar::law_encoding_is_injective(v, w);
            let n = TAG_LEAF@.len() as int;
            assert(x.skip(n) =~= E::Scalar::repr_of(v));
            assert(y.skip(n) =~= E::Scalar::repr_of(w));
        }
    }

    proof fn law_node_binds(l: Seq<u8>, r: Seq<u8>, x: Seq<u8>, y: Seq<u8>) {
        let a = TAG_NODE@ + l + r;
        let b = TAG_NODE@ + x + y;
        assert(keccak::keccak256_of(a) == keccak::keccak256_of(b));
        if a == b {
            let n = TAG_NODE@.len() as int;
            assert(a.subrange(n, n + 32) =~= l);
            assert(b.subrange(n, n + 32) =~= x);
            assert(a.subrange(n + 32, n + 64) =~= r);
            assert(b.subrange(n + 32, n + 64) =~= y);
        }
    }

    proof fn law_leaf_is_no_node(v: int, l: Seq<u8>, r: Seq<u8>) {
        let x = TAG_LEAF@ + E::Scalar::repr_of(v);
        let y = TAG_NODE@ + (l + r);
        assert(y =~= TAG_NODE@ + l + r);
        assert(keccak::keccak256_of(x) == keccak::keccak256_of(y));
        law_domains_are_separate(E::Scalar::repr_of(v), l + r, 0, Seq::empty());
    }

    fn fe_from_ff(x: &E::Scalar) -> E::Scalar {
        *x
    }

    fn fe_to_ff(x: &E::Scalar) -> E::Scalar {
        *x
    }

    fn zero() -> E::Scalar {
        E::Scalar::zero()
    }

    fn one() -> E::Scalar {
        E::Scalar::one()
    }

    fn add(a: E::Scalar, b: E::Scalar) -> E::Scalar {
        a.plus(b)
    }

    fn sub(a: E::Scalar, b: E::Scalar) -> E::Scalar {
        a.minus(b)
    }

    fn mul(a: E::Scalar, b: E::Scalar) -> E::Scalar {
        a.times(b)
    }

    fn leaf_hash(x: &E::Scalar) -> Digest32 {
        let mut input: Vec<u8> = Vec::new();
        input.extend_from_slice(&TAG_LEAF);
        let repr = x.to_bytes();
        input.extend_from_slice(repr.as_slice());
        assert(input@ =~= TAG_LEAF@ + E::Scalar::repr_of(x.val()));
        Digest32(keccak::keccak256(input.as_slice()))
    }

    fn node_hash(l: &Digest32, r: &Digest32) -> Digest32 {
        let mut input: Vec<u8> = Vec::new();
        input.extend_from_slice(&TAG_NODE);
        input.extend_from_slice(&l.0);
        input.extend_from_slice(&r.0);
        assert(input@ =~= TAG_NODE@ + l@ + r@);
        Digest32(keccak::keccak256(input.as_slice()))
    }
}

/// Poseidon2 width (Goldilocks, 64-bit prime): it fits the domain, the length and eight words.
pub const POSEIDON2_WIDTH: usize = 12;

/// Fixed seed to derive round constants deterministically (reproducible hash).
pub const POSEIDON2_PARAM_SEED_V1: u64 = 0x5_7045_3F1A_CB7D_12;

/// Domain of leaves, first word of the state.
pub const DOMAIN_LEAF: u64 = 0x_6C65_6166_2F6D_6C65;

/// Domain of inner nodes, first word of the state.
pub const DOMAIN_NODE: u64 = 0x_6E6F_6465_2F6D_6C65;

/// The state that the Poseidon2 permutation of width twelve over the Goldilocks field, with the
/// constants drawn from `seed`, maps `state` to.
pub uninterp spec fn poseidon2_of(seed: u64, state: Seq<u64>) -> Seq<u64>;

/// Permutes a state of twelve words.
///
/// Calls `p3_symmetric::Permutation::permute_mut` for `p3_goldilocks::Poseidon2Goldilocks<12>`,
/// built by `new_from_rng_128` from `rand_chacha::ChaCha8Rng::seed_from_u64(seed)`. The contract
/// says that the canonical words of the result are a function of the seed and the words; which
/// function is left to the name.
#[verifier::external_body]
fn poseidon2_permute(seed: u64, state: [u64; 12]) -> (r: [u64; 12])
    ensures
        r@ == poseidon2_of(seed, state@),
{
    let mut rng = <rand_chacha::ChaCha8Rng as rand::SeedableRng>::seed_from_u64(seed);
    let perm = p3_goldilocks::Poseidon2Goldilocks::<12>::new_from_rng_128(&mut rng);
    let mut s = state.map(
        <p3_goldilocks::Goldilocks as p3_field::integers::QuotientMap<u64>>::from_int,
    );
    p3_symmetric::Permutation::permute_mut(&perm, &mut s);
    s.map(|x| p3_field::PrimeField64::as_canonical_u64(&x))
}

/// The canonical word of the Goldilocks element that `word` reduces to.
///
/// Calls `QuotientMap::<u64>::from_int` and `PrimeField64::as_canonical_u64` of
/// `p3_goldilocks::Goldilocks`, which together reduce modulo the Goldilocks prime.
#[verifier::external_body]
fn gf_reduce(word: u64) -> (r: u64)
    ensures
        r == word % GOLDILOCKS_MODULUS,
{
    let x = <p3_goldilocks::Goldilocks as p3_field::integers::QuotientMap<u64>>::from_int(word);
    p3_field::PrimeField64::as_canonical_u64(&x)
}

/// The canonical word of the sum of two Goldilocks elements.
///
/// Calls `Add::add` of `p3_goldilocks::Goldilocks`, which adds modulo the Goldilocks prime.
#[verifier::external_body]
fn gf_add(a: u64, b: u64) -> (r: u64)
    ensures
        r == (a + b) % (GOLDILOCKS_MODULUS as int),
{
    let x = <p3_goldilocks::Goldilocks as p3_field::integers::QuotientMap<u64>>::from_int(a);
    let y = <p3_goldilocks::Goldilocks as p3_field::integers::QuotientMap<u64>>::from_int(b);
    p3_field::PrimeField64::as_canonical_u64(&(x + y))
}

/// The canonical word of the difference of two Goldilocks elements.
///
/// Calls `Sub::sub` of `p3_goldilocks::Goldilocks`, which subtracts modulo the Goldilocks prime.
#[verifier::external_body]
fn gf_sub(a: u64, b: u64) -> (r: u64)
    ensures
        r == (a - b) % (GOLDILOCKS_MODULUS as int),
{
    let x = <p3_goldilocks::Goldilocks as p3_field::integers::QuotientMap<u64>>::from_int(a);
    let y = <p3_goldilocks::Goldilocks as p3_field::integers::QuotientMap<u64>>::from_int(b);
    p3_field::PrimeField64::as_canonical_u64(&(x - y))
}

/// The canonical word of the product of two Goldilocks elements.
///
/// Calls `Mul::mul` of `p3_goldilocks::Goldilocks`, which multiplies modulo the Goldilocks prime.
#[verifier::external_body]
fn gf_mul(a: u64, b: u64) -> (r: u64)
    ensures
        r == (a * b) % (GOLDILOCKS_MODULUS as int),
{
    let x = <p3_goldilocks::Goldilocks as p3_field::integers::QuotientMap<u64>>::from_int(a);
    let y = <p3_goldilocks::Goldilocks as p3_field::integers::QuotientMap<u64>>::from_int(b);
    p3_field::PrimeField64::as_canonical_u64(&(x * y))
}

/// An element of the Goldilocks field of `p3_goldilocks`, held by its canonical word.
#[derive(Clone, Copy, Debug, PartialEq, Eq, Structural)]
pub struct GF(u64);

impl GF {
    /// The word is canonical.
    #[verifier::type_invariant]
    spec fn is_canonical(self) -> bool {
        self.0 < GOLDILOCKS_MODULUS
    }

    /// The word of this element.
    pub closed spec fn word(self) -> u64 {
        self.0
    }

    /// The element that `word` reduces to.
    pub fn from_int(word: u64) -> (r: GF)
        ensures
            r.word() == word % GOLDILOCKS_MODULUS,
    {
        GF(gf_reduce(word))
    }

    /// The canonical word of this element.
    pub fn as_canonical_u64(&self) -> (r: u64)
        ensures
            r == self.word(),
            r < GOLDILOCKS_MODULUS,
    {
        proof {
            use_type_invariant(self);
        }
        self.0
    }
}

/// The digest that the first four words of a state stand for.
pub open spec fn state_digest(state: Seq<u64>) -> Seq<u8> {
    vstd::bytes::spec_u64_to_le_bytes(state[0]) + vstd::bytes::spec_u64_to_le_bytes(state[1])
        + vstd::bytes::spec_u64_to_le_bytes(state[2]) + vstd::bytes::spec_u64_to_le_bytes(state[3])
}

/// The state that a leaf with the word `x` is hashed from.
pub open spec fn leaf_state(x: u64) -> Seq<u64> {
    seq![DOMAIN_LEAF, 1, x, 0, 0, 0, 0, 0, 0, 0, 0, 0]
}

/// The state that a node with eight words is hashed from.
pub open spec fn node_state(words: Seq<u64>) -> Seq<u64> {
    seq![DOMAIN_NODE, 8] + words + seq![0u64, 0]
}

/// Word `j` of a digest, reduced modulo the Goldilocks prime.
pub open spec fn digest_word(d: Seq<u8>, j: int) -> u64 {
    vstd::bytes::spec_u64_from_le_bytes(d.subrange(8 * j, 8 * j + 8)) % GOLDILOCKS_MODULUS
}

/// The words of two digests.
pub open spec fn digest_words(l: Seq<u8>, r: Seq<u8>) -> Seq<u64> {
    Seq::new(
        8,
        |k: int|
            if k < 4 {
                digest_word(l, k)
            } else {
                digest_word(r, k - 4)
            },
    )
}

/// Compress first 4 state words into 32 bytes (LE u64 each).
pub fn state4_to_digest32(state: &[u64; 12]) -> (r: Digest32)
    ensures
        r@ == state_digest(state@),
{
    let mut out: Vec<u8> = Vec::new();
    proof {
        vstd::bytes::lemma_auto_spec_u64_to_from_le_bytes();
    }
    let w0 = vstd::bytes::u64_to_le_bytes(state[0]);
    let w1 = vstd::bytes::u64_to_le_bytes(state[1]);
    let w2 = vstd::bytes::u64_to_le_bytes(state[2]);
    let w3 = vstd::bytes::u64_to_le_bytes(state[3]);
    out.extend_from_slice(w0.as_slice());
    out.extend_from_slice(w1.as_slice());
    out.extend_from_slice(w2.as_slice());
    out.extend_from_slice(w3.as_slice());
    assert(out@ =~= state_digest(state@));
    Digest32(array_of(&out))
}

/// Hash a single Goldilocks element as a Poseidon2 leaf.
/// State layout (width=12):
///   s[0] = DOMAIN_LEAF
///   s[1] = len = 1
///   s[2] = x
///   s[3..] = 0
pub fn poseidon2_hash_leaf(x: GF) -> (r: Digest32)
    ensures
        r@ == state_digest(poseidon2_of(POSEIDON2_PARAM_SEED_V1, leaf_state(x.word()))),
{
    let s: [u64; 12] = [DOMAIN_LEAF, 1, x.as_canonical_u64(), 0, 0, 0, 0, 0, 0, 0, 0, 0];
    assert(s@ =~= leaf_state(x.word()));
    let out = poseidon2_permute(POSEIDON2_PARAM_SEED_V1, s);
    state4_to_digest32(&out)
}

/// Hash two child digests into a parent digest.
/// Each child digest (32 bytes) is split into four LE u64s, reduced to Goldilocks words.
/// We expect exactly 8 words: [l0..l3, r0..r3].
/// State layout (width=12):
///   s[0] = DOMAIN_NODE
///   s[1] = len = 8
///   s[2..10] = words[0..8]
///   s[10..] = 0
pub fn poseidon2_hash_node(words: &[GF]) -> (r: Digest32)
    requires
        words@.len() == 8,
    ensures
        r@ == state_digest(
            poseidon2_of(
                POSEIDON2_PARAM_SEED_V1,
                node_state(words@.map_values(|x: GF| x.word())),
            ),
        ),
{
    let s: [u64; 12] = [
        DOMAIN_NODE,
        8,
        words[0].as_canonical_u64(),
        words[1].as_canonical_u64(),
        words[2].as_canonical_u64(),
        words[3].as_canonical_u64(),
        words[4].as_canonical_u64(),
        words[5].as_canonical_u64(),
        words[6].as_canonical_u64(),
        words[7].as_canonical_u64(),
        0,
        0,
    ];
    assert(s@ =~= node_state(words@.map_values(|x: GF| x.word())));
    let out = poseidon2_permute(POSEIDON2_PARAM_SEED_V1, s);
    state4_to_digest32(&out)
}

/// Two different states of twelve canonical words that are permuted to the same first four words.
pub open spec fn states_clash(s: Seq<u64>, t: Seq<u64>) -> bool {
    let x = poseidon2_of(POSEIDON2_PARAM_SEED_V1, s);
    let y = poseidon2_of(POSEIDON2_PARAM_SEED_V1, t);
    &&& s.len() == 12
    &&& t.len() == 12
    &&& s != t
    &&& forall|k: int| 0 <= k < 12 ==> #[trigger] s[k] < GOLDILOCKS_MODULUS
    &&& forall|k: int| 0 <= k < 12 ==> #[trigger] t[k] < GOLDILOCKS_MODULUS
    &&& forall|j: int|
        0 <= j < 4 ==> #[trigger] x[j] % GOLDILOCKS_MODULUS == y[j] % GOLDILOCKS_MODULUS
}

/// Appends the four words of a digest.
fn push_digest_words(words: &mut Vec<GF>, d: &Digest32)
    ensures
        final(words)@.len() == old(words)@.len() + 4,
        forall|k: int| 0 <= k < old(words)@.len() ==> final(words)@[k] == old(words)@[k],
        forall|j: int|
            0 <= j < 4 ==> final(words)@[old(words)@.len() + j].word() == digest_word(d@, j),
{
    let ghost before = words@;
    for j in 0..4usize
        invariant
            words@.len() == before.len() + j,
            forall|k: int| 0 <= k < before.len() ==> words@[k] == before[k],
            forall|i: int|
                0 <= i < j ==> words@[before.len() + i].word() == digest_word(d@, i),
    {
        let off: usize = 8 * j;
        let bytes: &[u8] = d.0.as_slice();
        let w: u64 = vstd::bytes::u64_from_le_bytes(&bytes[off..off + 8]);
        words.push(GF::from_int(w));
    }
}

/// Computes in the Goldilocks field of `p3_goldilocks` and hashes with Poseidon2.
pub struct BackendP3Poseidon2Goldi<E: Engine>(PhantomData<E>);

impl<E: Engine<Scalar = F>> MleBackend<E> for BackendP3Poseidon2Goldi<E> {
    type FE = GF;

    open spec fn fe_val(x: GF) -> int {
        x.word() as int
    }

    open spec fn leaf_of(v: int) -> Seq<u8> {
        state_digest(poseidon2_of(POSEIDON2_PARAM_SEED_V1, leaf_state(v as u64)))
    }

    open spec fn node_of(l: Seq<u8>, r: Seq<u8>) -> Seq<u8> {
        state_digest(poseidon2_of(POSEIDON2_PARAM_SEED_V1, node_state(digest_words(l, r))))
    }

    open spec fn alike(a: Seq<u8>, b: Seq<u8>) -> bool {
        forall|j: int| 0 <= j < 4 ==> digest_word(a, j) == #[trigger] digest_word(b, j)
    }

    open spec fn collides() -> bool {
        exists|s: Seq<u64>, t: Seq<u64>| #[trigger] states_clash(s, t)
    }

    proof fn lemma_digest_len(v: int, l: Seq<u8>, r: Seq<u8>) {
        vstd::bytes::lemma_auto_spec_u64_to_from_le_bytes();
    }

    proof fn lemma_alike(a: Seq<u8>) {
    }

    proof fn law_leaf_binds(v: int, w: int) {
        assert(<F as ScalarField>::modulus() == GOLDILOCKS_MODULUS);
        assert(v as u64 == v && w as u64 == w);
        law_leaf_state_determines_word(v as u64, w as u64);
        lemma_states_clash(leaf_state(v as u64), leaf_state(w as u64));
    }

    proof fn law_node_binds(l: Seq<u8>, r: Seq<u8>, x: Seq<u8>, y: Seq<u8>) {
        let (a, b) = (digest_words(l, r), digest_words(x, y));
        law_node_state_determines_words(a, b);
        lemma_states_clash(node_state(a), node_state(b));
        if node_state(a) == node_state(b) {
            assert forall|j: int| 0 <= j < 4 implies digest_word(l, j) == #[trigger] digest_word(
                x,
                j,
            ) by {
                assert(a[j] == b[j]);
            }
            assert forall|j: int| 0 <= j < 4 implies digest_word(r, j) == #[trigger] digest_word(
                y,
                j,
            ) by {
                assert(a[j + 4] == b[j + 4]);
            }
        }
    }

    proof fn law_leaf_is_no_node(v: int, l: Seq<u8>, r: Seq<u8>) {
        assert(<F as ScalarField>::modulus() == GOLDILOCKS_MODULUS);
        assert(v as u64 == v);
        let words = digest_words(l, r);
        law_domains_are_separate(Seq::empty(), Seq::empty(), v as u64, words);
        lemma_states_clash(leaf_state(v as u64), node_state(words));
    }

    fn fe_from_ff(x: &F) -> GF {
        let word: u64 = x.to_canonical_u64();
        proof {
            lemma_small_mod(word as nat, GOLDILOCKS_MODULUS as nat);
            assert(<F as ScalarField>::val(*x) == word);
        }
        GF::from_int(word)
    }

    fn fe_to_ff(x: &GF) -> F {
        let word: u64 = x.as_canonical_u64();
        proof {
            lemma_small_mod(word as nat, GOLDILOCKS_MODULUS as nat);
        }
        F::new(word)
    }

    fn zero() -> GF {
        GF::from_int(0)
    }

    fn one() -> GF {
        GF::from_int(1)
    }

    fn add(a: GF, b: GF) -> GF {
        GF(gf_add(a.0, b.0))
    }

    fn sub(a: GF, b: GF) -> GF {
        GF(gf_sub(a.0, b.0))
    }

    fn mul(a: GF, b: GF) -> GF {
        GF(gf_mul(a.0, b.0))
    }

    fn leaf_hash(x: &GF) -> Digest32 {
        poseidon2_hash_leaf(*x)
    }

    fn node_hash(l: &Digest32, r: &Digest32) -> Digest32 {
        let mut words: Vec<GF> = Vec::new();
        push_digest_words(&mut words, l);
        push_digest_words(&mut words, r);
        assert(words@.map_values(|x: GF| x.word()) =~= digest_words(l@, r@));
        poseidon2_hash_node(words.as_slice())
    }
}

/// Domain separation: no leaf is hashed from the same bytes as an inner node, and no leaf is
/// permuted from the same state as an inner node.
pub proof fn law_domains_are_separate(x: Seq<u8>, y: Seq<u8>, word: u64, words: Seq<u64>)
    ensures
        TAG_LEAF@ + x != TAG_NODE@ + y,
        leaf_state(word) != node_state(words),
{
    assert((TAG_LEAF@ + x)[4] == 108u8);
    assert((TAG_NODE@ + y)[4] == 110u8);
    assert(leaf_state(word)[0] == DOMAIN_LEAF);
    assert(node_state(words)[0] == DOMAIN_NODE);
}

/// A leaf is permuted from a state that holds its word: different words give different states.
pub proof fn law_leaf_state_determines_word(x: u64, y: u64)
    ensures
        leaf_state(x).len() == 12,
        leaf_state(x)[2] == x,
        leaf_state(x) == leaf_state(y) ==> x == y,
{
    assert(leaf_state(x)[2] == x);
    assert(leaf_state(y)[2] == y);
}

/// A node is permuted from a state that holds its eight words in their order: different words give
/// different states.
pub proof fn law_node_state_determines_words(a: Seq<u64>, b: Seq<u64>)
    requires
        a.len() == 8,
        b.len() == 8,
    ensures
        node_state(a).len() == 12,
        forall|j: int| 0 <= j < 8 ==> #[trigger] a[j] == node_state(a)[2 + j],
        node_state(a) == node_state(b) ==> a == b,
{
    assert forall|j: int| 0 <= j < 8 implies #[trigger] a[j] == node_state(a)[2 + j] by {}
    assert forall|j: int| 0 <= j < 8 implies #[trigger] b[j] == node_state(b)[2 + j] by {}
    if node_state(a) == node_state(b) {
        assert forall|j: int| 0 <= j < 8 implies a[j] == b[j] by {
            assert(node_state(a)[2 + j] == node_state(b)[2 + j]);
        }
        assert(a =~= b);
    }
}

/// A digest holds the first four words of a state, eight bytes each, and they are read back from it
/// reduced modulo the Goldilocks prime.
pub proof fn law_state_digest_words(state: Seq<u64>)
    ensures
        state_digest(state).len() == 32,
        forall|j: int|
            0 <= j < 4 ==> vstd::bytes::spec_u64_from_le_bytes(
                #[trigger] state_digest(state).subrange(8 * j, 8 * j + 8),
            ) == state[j],
        forall|j: int|
            0 <= j < 4 ==> #[trigger] digest_word(state_digest(state), j) == state[j]
                % 0xffff_ffff_0000_0001u64,
{
    vstd::bytes::lemma_auto_spec_u64_to_from_le_bytes();
    let d = state_digest(state);
    assert(d.subrange(0, 8) =~= vstd::bytes::spec_u64_to_le_bytes(state[0]));
    assert(d.subrange(8, 16) =~= vstd::bytes::spec_u64_to_le_bytes(state[1]));
    assert(d.subrange(16, 24) =~= vstd::bytes::spec_u64_to_le_bytes(state[2]));
    assert(d.subrange(24, 32) =~= vstd::bytes::spec_u64_to_le_bytes(state[3]));
    assert forall|j: int| 0 <= j < 4 implies vstd::bytes::spec_u64_from_le_bytes(
        #[trigger] d.subrange(8 * j, 8 * j + 8),
    ) == state[j] by {
        assert(j == 0 || j == 1 || j == 2 || j == 3);
    }
    assert forall|j: int| 0 <= j < 4 implies #[trigger] digest_word(d, j) == state[j]
        % 0xffff_ffff_0000_0001u64 by {
        assert(vstd::bytes::spec_u64_from_le_bytes(d.subrange(8 * j, 8 * j + 8)) == state[j]);
    }
}

/// States of canonical words whose digests have the same words are equal or clash.
proof fn lemma_states_clash(s: Seq<u64>, t: Seq<u64>)
    requires
        s.len() == 12,
        t.len() == 12,
        forall|k: int| 0 <= k < 12 ==> #[trigger] s[k] < GOLDILOCKS_MODULUS,
        forall|k: int| 0 <= k < 12 ==> #[trigger] t[k] < GOLDILOCKS_MODULUS,
        forall|j: int|
            0 <= j < 4 ==> digest_word(
                state_digest(poseidon2_of(POSEIDON2_PARAM_SEED_V1, s)),
                j,
            ) == #[trigger] digest_word(
                state_digest(poseidon2_of(POSEIDON2_PARAM_SEED_V1, t)),
                j,
            ),
    ensures
        s == t || states_clash(s, t),
{
    let x = poseidon2_of(POSEIDON2_PARAM_SEED_V1, s);
    let y = poseidon2_of(POSEIDON2_PARAM_SEED_V1, t);
    law_state_digest_words(x);
    law_state_digest_words(y);
    assert forall|j: int| 0 <= j < 4 implies #[trigger] x[j] % GOLDILOCKS_MODULUS == y[j]
        % GOLDILOCKS_MODULUS by {
        assert(digest_word(state_digest(x), j) == digest_word(state_digest(y), j));
    }
}

/// The characters that bytes stand for.
pub open spec fn ascii(bytes: Seq<u8>) -> Seq<char> {
    bytes.map_values(|b: u8| b as char)
}

/// What is hashed over Keccak-256: the text `mle/leaf` and the encoding of the element, or the text
/// `mle/node` and the two digests, the left one first.
pub proof fn law_keccak_inputs<E: Engine>(v: int, l: Seq<u8>, r: Seq<u8>)
    ensures
        exists|tag: Seq<u8>|
            ascii(tag) == "mle/leaf"@ && BackendFfKeccak::<E>::leaf_of(v)
                == #[trigger] keccak::keccak256_of(tag + E::Scalar::repr_of(v)),
        exists|tag: Seq<u8>|
            ascii(tag) == "mle/node"@ && BackendFfKeccak::<E>::node_of(l, r)
                == #[trigger] keccak::keccak256_of(tag + l + r),
{
    reveal_strlit("mle/leaf");
    reveal_strlit("mle/node");
    assert(ascii(TAG_LEAF@) =~= "mle/leaf"@);
    assert(ascii(TAG_NODE@) =~= "mle/node"@);
    assert(BackendFfKeccak::<E>::leaf_of(v) == keccak::keccak256_of(
        TAG_LEAF@ + E::Scalar::repr_of(v),
    ));
    assert(BackendFfKeccak::<E>::node_of(l, r) == keccak::keccak256_of(TAG_NODE@ + l + r));
}

/// What is permuted over Poseidon2: a domain, the number of words, the words, and zeros. The words
/// of a node are the four of the left digest and the four of the right one.
pub proof fn law_poseidon_inputs(x: u64, l: Seq<u8>, r: Seq<u8>, j: int)
    requires
        0 <= j < 4,
    ensures
        ({
            let leaf = leaf_state(x);
            let node = node_state(digest_words(l, r));
            &&& leaf[0] == 0x6C65_6166_2F6D_6C65
            &&& leaf[1] == 1
            &&& leaf[2] == x
            &&& forall|k: int| 3 <= k < 12 ==> #[trigger] leaf[k] == 0
            &&& node[0] == 0x6E6F_6465_2F6D_6C65
            &&& node[1] == 8
            &&& node[2 + j] == vstd::bytes::spec_u64_from_le_bytes(l.subrange(8 * j, 8 * j + 8))
                % 0xffff_ffff_0000_0001u64
            &&& node[6 + j] == vstd::bytes::spec_u64_from_le_bytes(r.subrange(8 * j, 8 * j + 8))
                % 0xffff_ffff_0000_0001u64
            &&& node[10] == 0
            &&& node[11] == 0
        }),
{
    let words = digest_words(l, r);
    assert(words[j] == digest_word(l, j));
    assert(words[4 + j] == digest_word(r, j));
}

} // verus!
