//! The Spartan proof system for rank-1 constraint systems.
//!
//! The outer sum-check reduces a constraint system to claims on the products of its matrices and
//! the witness, the inner one reduces these to the value of the witness at a point, and an
//! evaluation argument of the commitment scheme shows that value. The inner sum-check and the
//! evaluation argument run on transcripts of their own that fork from the main one.
use crate::digest::{self, compute_digest, SpartanDigest};
use crate::errors::{self, push_decimal, ErrorModel, SpartanError};
use crate::modular;
use crate::polys::arith::{add2, mul2, sub2};
use crate::polys::eq::{self, EqPolynomial};
use crate::polys::multilinear::{
    self, append_table, copy_table, pad_table, MultilinearPolynomial, SparsePolynomial,
};
use crate::polys::sums;
use crate::provider::keccak::{self, Keccak256Transcript, TranscriptModel};
use crate::provider::pcs::layers;
use crate::provider::{
    GoldilocksMerkleMleEngine, GoldilocksP3MerkleMleEngine, PallasMerkleMleEngine,
    VestaMerkleMleEngine,
};
use crate::provider::pcs::merkle_tree::{self, height_of};
use crate::r1cs::instance::{
    self, InstanceModel, PartialCommitment, PartialModel, SplitR1CSInstance, CHALLENGE_LABEL,
    COMM_W_PRECOMMITTED_LABEL, COMM_W_REST_LABEL, COMM_W_SHARED_LABEL, PUBLIC_VALUES_LABEL,
};
use crate::r1cs::shape::{self, ShapeModel, Sizes, SplitR1CSShape};
use crate::r1cs::sparse::{self, MatrixModel, SparseMatrix};
use crate::sumcheck::{self, SumcheckProof};
use crate::traits::{
    self, scalar_bytes, Engine, PCSEngineTrait, ScalarField, SnarkEngine, TranscriptReprTrait,
};
#[allow(unused_imports)]
use vstd::arithmetic::div_mod::*;
#[allow(unused_imports)]
use vstd::arithmetic::mul::*;
#[allow(unused_imports)]
use vstd::arithmetic::power2::*;
use vstd::prelude::*;
#[allow(unused_imports)]
use vstd::string::*;

verus! {

/// Label of the main transcript ("R1CSSNARK").
pub const SNARK_LABEL: [u8; 9] = [82, 49, 67, 83, 83, 78, 65, 82, 75];

/// Label of the transcript of the inner sum-check ("R1CSSNARK/inner").
pub const INNER_LABEL: [u8; 15] = [82, 49, 67, 83, 83, 78, 65, 82, 75, 47, 105, 110, 110, 101, 114];

/// Label of the transcript of the evaluation argument ("R1CSSNARK/pcs").
pub const PCS_LABEL: [u8; 13] = [82, 49, 67, 83, 83, 78, 65, 82, 75, 47, 112, 99, 115];

/// Label of the digest of the verifier key ("vk").
pub const VK_LABEL: [u8; 2] = [118, 107];

/// Label of the challenges of the outer sum-check ("t").
pub const TAU_LABEL: [u8; 1] = [116];

/// Label of the claims of the outer sum-check ("claims_outer").
pub const CLAIMS_OUTER_LABEL: [u8; 12] = [99, 108, 97, 105, 109, 115, 95, 111, 117, 116, 101, 114];

/// Label of the challenge that combines the matrices ("r").
pub const R_LABEL: [u8; 1] = [114];

/// Label of the challenge from which the transcripts fork ("anchor/inner+pcs").
pub const FORK_LABEL: [u8; 16] = [
    97, 110, 99, 104, 111, 114, 47, 105, 110, 110, 101, 114, 43, 112, 99, 115,
];

/// Label of that challenge in the forked transcripts ("anchor").
pub const ANCHOR_LABEL: [u8; 6] = [97, 110, 99, 104, 111, 114];

/// Label of the commitment key ("ck").
pub const CK_LABEL: [u8; 2] = [99, 107];

/// The commitment key of an engine.
pub type CommitmentKey<E> = <<E as SnarkEngine>::PCS as PCSEngineTrait<E>>::CommitmentKey;

/// The key of an engine with which evaluation arguments are verified.
pub type EvaluationKey<E> = <<E as SnarkEngine>::PCS as PCSEngineTrait<E>>::VerifierKey;

/// What an evaluation argument of an engine says.
pub type ArgumentOf<E> = <<<E as SnarkEngine>::PCS as PCSEngineTrait<E>>::EvaluationArgument as View>::V;

/// What a commitment of an engine says.
pub type CommitmentOf<E> = <<<E as SnarkEngine>::PCS as PCSEngineTrait<E>>::Commitment as View>::V;

/// What a blind of an engine says.
pub type BlindOf<E> = <<<E as SnarkEngine>::PCS as PCSEngineTrait<E>>::Blind as View>::V;

/// What the preparation of a proof gives for an engine.
pub type PrepOf<E> = PrepModel<PartialModel<E>, BlindOf<E>>;

/// What a proof of an engine says.
pub type ProofOf<E> = ProofModel<PartialModel<E>, ArgumentOf<E>>;

/// A type that represents the prover's key
pub struct SpartanProverKey<E: SnarkEngine> {
    ck: CommitmentKey<E>,
    S: SplitR1CSShape<E>,
    vk_digest: SpartanDigest,
}

impl<E: SnarkEngine> SpartanProverKey<E> {
    /// The commitment key.
    pub closed spec fn key(self) -> CommitmentKey<E> {
        self.ck
    }

    /// The shape of the constraint system.
    pub closed spec fn shape(self) -> ShapeModel {
        self.S@
    }

    /// The digest of the verifier's key.
    pub closed spec fn vk_digest(self) -> Seq<u8> {
        self.vk_digest@
    }

    /// Returns sizes associated with the SplitR1CSShape.
    /// It returns an array of 10 elements containing:
    /// [num_cons_unpadded, num_shared_unpadded, num_precommitted_unpadded, num_rest_unpadded,
    ///  num_cons, num_shared, num_precommitted, num_rest,
    ///  num_public, num_challenges]
    pub fn sizes(&self) -> (r: [usize; 10])
        ensures
            r@.map_values(|x: usize| x as nat) == seq![
                self.shape().unpadded.num_cons,
                self.shape().unpadded.num_shared,
                self.shape().unpadded.num_precommitted,
                self.shape().unpadded.num_rest,
                self.shape().sizes.num_cons,
                self.shape().sizes.num_shared,
                self.shape().sizes.num_precommitted,
                self.shape().sizes.num_rest,
                self.shape().sizes.num_public,
                self.shape().sizes.num_challenges,
            ],
    {
        self.S.sizes()
    }
}

/// A type that represents the verifier's key
pub struct SpartanVerifierKey<E: SnarkEngine> {
    vk_ee: EvaluationKey<E>,
    S: SplitR1CSShape<E>,
}

impl<E: SnarkEngine> SpartanVerifierKey<E> {
    /// The key with which evaluation arguments are verified.
    pub closed spec fn key(self) -> EvaluationKey<E> {
        self.vk_ee
    }

    /// The shape of the constraint system.
    pub closed spec fn shape(self) -> ShapeModel {
        self.S@
    }

    /// Returns the digest of the verifier's key.
    pub fn digest(&self) -> (r: Result<SpartanDigest, SpartanError>)
        ensures
            r matches Ok(d) && d@ == digest::digest_of::<E::Scalar>(
                self.key().transcript_repr(),
                self.shape(),
            ),
    {
        let bytes = self.vk_ee.to_transcript_bytes();
        Ok(compute_digest(&bytes, &self.S))
    }
}

/// The product of a vector and a matrix, filled up with zeros to `width` entries.
pub open spec fn columns_of<S: ScalarField>(m: MatrixModel, x: Seq<int>, width: nat) -> Seq<int> {
    Seq::new(width, |j: int| sparse::times_column(m, x, j) % S::modulus())
}

/// `t` holds the product of a vector and a matrix, filled up with zeros to `width` entries.
pub open spec fn is_columns<S: ScalarField>(
    t: Seq<S>,
    m: MatrixModel,
    x: Seq<S>,
    width: usize,
) -> bool {
    traits::vals(t) == columns_of::<S>(m, traits::vals(x), width as nat)
}

/// A vector has a component for each row, and there is room for each column.
pub open spec fn has_room<S: ScalarField>(m: MatrixModel, x: Seq<S>, width: usize) -> bool {
    x.len() >= m.rows.len() && width >= m.cols
}

/// The product of a vector and a matrix, filled up with zeros to `width` entries.
fn column_table<S: ScalarField>(m: &SparseMatrix<S>, x: &[S], width: usize) -> (t: Vec<S>)
    requires
        has_room(m@, x@, width),
    ensures
        is_columns(t@, m@, x@, width),
{
    let t = m.times_vec(x, width);
    assert(traits::vals(t@) =~= columns_of::<S>(m@, traits::vals(x@), width as nat));
    t
}

/// Binds "row" variables of (A, B, C) matrices viewed as 2d multilinear polynomials
pub(crate) fn compute_eval_table_sparse<E: Engine>(
    S: &SplitR1CSShape<E>,
    rx: &[E::Scalar],
) -> (r: (Vec<E::Scalar>, Vec<E::Scalar>, Vec<E::Scalar>))
    requires
        rx@.len() == S@.sizes.num_cons,
    ensures
        ({
            let width = 2 * S@.sizes.num_vars();
            let x = traits::vals(rx@);
            &&& traits::vals(r.0@) == columns_of::<E::Scalar>(S@.a, x, width)
            &&& traits::vals(r.1@) == columns_of::<E::Scalar>(S@.b, x, width)
            &&& traits::vals(r.2@) == columns_of::<E::Scalar>(S@.c, x, width)
        }),
{
    S.note_valid();
    let num_vars: usize = S.num_shared + S.num_precommitted + S.num_rest;
    let width: usize = 2 * num_vars;
    let (A, B, C) = (&S.A, &S.B, &S.C);
    let (A_evals, (B_evals, C_evals)) = rayon::join(
        || -> (t: Vec<E::Scalar>)
            requires
                has_room(A@, rx@, width),
            ensures
                is_columns(t@, A@, rx@, width)
            { column_table(A, rx, width) },
        || -> (p: (Vec<E::Scalar>, Vec<E::Scalar>))
            requires
                has_room(B@, rx@, width),
                has_room(C@, rx@, width),
            ensures
                is_columns(p.0@, B@, rx@, width),
                is_columns(p.1@, C@, rx@, width)
            {
                rayon::join(
                    || -> (t: Vec<E::Scalar>)
                        requires
                            has_room(B@, rx@, width),
                        ensures
                            is_columns(t@, B@, rx@, width)
                        { column_table(B, rx, width) },
                    || -> (t: Vec<E::Scalar>)
                        requires
                            has_room(C@, rx@, width),
                        ensures
                            is_columns(t@, C@, rx@, width)
                        { column_table(C, rx, width) },
                )
            },
    );
    (A_evals, B_evals, C_evals)
}

/// The table that the inner sum-check takes from the matrices: the rows are bound to `ex`, and the
/// matrices are combined with powers of `r`.
pub open spec fn abc_of<S: ScalarField>(s: ShapeModel, ex: Seq<int>, r: int) -> Seq<int> {
    Seq::new(
        2 * s.sizes.num_vars(),
        |j: int|
            (sparse::times_column(s.a, ex, j) + r * sparse::times_column(s.b, ex, j) + r * r
                * sparse::times_column(s.c, ex, j)) % S::modulus(),
    )
}

/// The public half of the table `Z` of a hash-based scheme: without public values it is one
/// everywhere, a single public value stands everywhere, and several stand behind a one.
pub open spec fn x_full(x: Seq<int>, n: nat) -> Seq<int> {
    if x.len() == 0 {
        Seq::new(n, |i: int| 1)
    } else if x.len() == 1 {
        Seq::new(n, |i: int| x[0])
    } else {
        multilinear::zero_padded(seq![1int] + x, n)
    }
}

/// The vector that the matrices are multiplied with.
pub open spec fn z_vector(w: Seq<int>, x: Seq<int>, challenges: Seq<int>) -> Seq<int> {
    w + seq![1int] + x + challenges
}

/// The table `Z` of the inner sum-check. A hash-based scheme gates the witness and the public half
/// by the first variable; other schemes use the vector that the matrices are multiplied with.
pub open spec fn z_table(
    hash_mle: bool,
    w: Seq<int>,
    x: Seq<int>,
    challenges: Seq<int>,
    num_vars: nat,
) -> Seq<int> {
    if hash_mle {
        w + x_full(x, num_vars)
    } else {
        multilinear::zero_padded(z_vector(w, x, challenges), 2 * num_vars)
    }
}

/// The sum of the products of the entries of two tables.
pub open spec fn dot(p: int, a: Seq<int>, b: Seq<int>) -> int {
    sums::sum(|i: int| a[i] * b[i], a.len()) % p
}

/// Combines the tables of the three matrices.
fn combine_tables<S: ScalarField>(
    a: &Vec<S>,
    b: &Vec<S>,
    c: &Vec<S>,
    r: &S,
    Ghost(s): Ghost<ShapeModel>,
    Ghost(ex): Ghost<Seq<int>>,
) -> (t: Vec<S>)
    requires
        traits::vals(a@) == columns_of::<S>(s.a, ex, 2 * s.sizes.num_vars()),
        traits::vals(b@) == columns_of::<S>(s.b, ex, 2 * s.sizes.num_vars()),
        traits::vals(c@) == columns_of::<S>(s.c, ex, 2 * s.sizes.num_vars()),
    ensures
        traits::vals(t@) == abc_of::<S>(s, ex, r.val()),
{
    let ghost p = S::modulus();
    let ghost goal = abc_of::<S>(s, ex, r.val());
    let ghost k = r.val();
    let n: usize = a.len();
    proof {
        S::lemma_modulus();
        assert(traits::vals(a@).len() == n);
        assert(traits::vals(b@).len() == b@.len());
        assert(traits::vals(c@).len() == c@.len());
    }
    let rr = mul2(*r, *r, Ghost(k), Ghost(k));
    let mut t: Vec<S> = Vec::new();
    for j in 0..n
        invariant
            n == a@.len(),
            n == b@.len(),
            n == c@.len(),
            n == 2 * s.sizes.num_vars(),
            p == S::modulus(),
            p > 1,
            k == r.val(),
            modular::cong(p, rr.val(), k * k),
            goal == abc_of::<S>(s, ex, k),
            traits::vals(a@) == columns_of::<S>(s.a, ex, 2 * s.sizes.num_vars()),
            traits::vals(b@) == columns_of::<S>(s.b, ex, 2 * s.sizes.num_vars()),
            traits::vals(c@) == columns_of::<S>(s.c, ex, 2 * s.sizes.num_vars()),
            t@.len() == j,
            forall|i: int| 0 <= i < j ==> (#[trigger] t@[i]).val() == goal[i],
    {
        let ghost xa = sparse::times_column(s.a, ex, j as int);
        let ghost xb = sparse::times_column(s.b, ex, j as int);
        let ghost xc = sparse::times_column(s.c, ex, j as int);
        proof {
            assert(traits::vals(a@)[j as int] == a@[j as int].val());
            assert(traits::vals(b@)[j as int] == b@[j as int].val());
            assert(traits::vals(c@)[j as int] == c@[j as int].val());
            modular::lemma_cong_mod(p, xa);
            modular::lemma_cong_mod(p, xb);
            modular::lemma_cong_mod(p, xc);
        }
        let second = mul2(*r, b[j], Ghost(k), Ghost(xb));
        let third = mul2(rr, c[j], Ghost(k * k), Ghost(xc));
        let two = add2(a[j], second, Ghost(xa), Ghost(k * xb));
        t.push(add2(two, third, Ghost(xa + k * xb), Ghost(k * k * xc)));
    }
    assert(traits::vals(t@) =~= goal);
    t
}

/// The public half of the table `Z` of a hash-based scheme.
fn public_table<S: ScalarField>(x: &Vec<S>, num_vars: usize) -> (t: Vec<S>)
    requires
        x@.len() < num_vars,
    ensures
        traits::vals(t@) == x_full(traits::vals(x@), num_vars as nat),
{
    let ghost goal = x_full(traits::vals(x@), num_vars as nat);
    if x.len() <= 1 {
        // no public inputs give one, a single one is constant
        let value = if x.len() == 0 {
            S::one()
        } else {
            x[0]
        };
        let mut t: Vec<S> = Vec::new();
        for i in 0..num_vars
            invariant
                t@.len() == i,
                forall|j: int| 0 <= j < i ==> #[trigger] t@[j] == value,
        {
            t.push(value);
        }
        assert(traits::vals(t@) =~= goal);
        t
    } else {
        // dense case: (1, X...), then zeros
        let mut head: Vec<S> = Vec::new();
        head.push(S::one());
        append_table(&mut head, x.as_slice());
        assert(traits::vals(head@) =~= seq![1int] + traits::vals(x@));
        pad_table(head.as_slice(), num_vars)
    }
}

/// The vector that the matrices are multiplied with.
fn build_z<S: ScalarField>(w: &Vec<S>, x: &Vec<S>, challenges: &Vec<S>) -> (z: Vec<S>)
    ensures
        traits::vals(z@) == z_vector(
            traits::vals(w@),
            traits::vals(x@),
            traits::vals(challenges@),
        ),
{
    let mut z: Vec<S> = Vec::new();
    append_table(&mut z, w.as_slice());
    z.push(S::one());
    append_table(&mut z, x.as_slice());
    append_table(&mut z, challenges.as_slice());
    assert(traits::vals(z@) =~= z_vector(
        traits::vals(w@),
        traits::vals(x@),
        traits::vals(challenges@),
    ));
    z
}

/// What the preparation of a proof gives.
pub struct PrepModel<V, B> {
    /// The shared and the precommitted variables.
    pub witness: Seq<int>,
    /// The commitment to the shared variables and its blind, where there are any.
    pub shared: Option<(V, B)>,
    /// The commitment to the precommitted variables and its blind, where there are any.
    pub precommitted: Option<(V, B)>,
}

/// A type that holds the pre-processed state for proving
pub struct PrepSNARK<E: SnarkEngine> {
    W: Vec<E::Scalar>,
    comm_W_shared: Option<PartialCommitment<E>>,
    r_W_shared: Option<<E::PCS as PCSEngineTrait<E>>::Blind>,
    comm_W_precommitted: Option<PartialCommitment<E>>,
    r_W_precommitted: Option<<E::PCS as PCSEngineTrait<E>>::Blind>,
}

impl<E: SnarkEngine> View for PrepSNARK<E> {
    type V = PrepOf<E>;

    closed spec fn view(&self) -> PrepOf<E> {
        PrepModel {
            witness: traits::vals(self.W@),
            shared: piece_view::<E>(self.comm_W_shared, self.r_W_shared),
            precommitted: piece_view::<E>(self.comm_W_precommitted, self.r_W_precommitted),
        }
    }
}

impl<E: SnarkEngine> PrepSNARK<E> {
    /// The number of shared and precommitted variables.
    pub fn len(&self) -> (n: usize)
        ensures
            n == self@.witness.len(),
    {
        self.W.len()
    }

    /// There is a blind for each commitment.
    #[verifier::type_invariant]
    spec fn has_blinds(self) -> bool {
        &&& self.comm_W_shared is Some <==> self.r_W_shared is Some
        &&& self.comm_W_precommitted is Some <==> self.r_W_precommitted is Some
    }
}

/// A commitment to a piece with its blind, where there is one.
pub open spec fn piece_view<E: SnarkEngine>(
    c: Option<PartialCommitment<E>>,
    b: Option<<E::PCS as PCSEngineTrait<E>>::Blind>,
) -> Option<(PartialModel<E>, BlindOf<E>)> {
    match (c, b) {
        (Some(c), Some(b)) => Some((c@, b@)),
        _ => None,
    }
}

/// The commitment of a piece, without its blind.
pub open spec fn commitment_part<V, B>(c: Option<(V, B)>) -> Option<V> {
    match c {
        Some(c) => Some(c.0),
        None => None,
    }
}

/// The commitment to a piece of the witness with the blind `b`, and the blind that belongs to it.
pub open spec fn piece_of<E: SnarkEngine>(
    ck: CommitmentKey<E>,
    v: Seq<int>,
    b: BlindOf<E>,
) -> Result<Option<(PartialModel<E>, BlindOf<E>)>, ErrorModel> {
    match E::PCS::commit_partial_of(ck, v, b) {
        Ok(c) => Ok(Some(c)),
        Err(e) => Err(e),
    }
}

/// What can come of a commitment to a piece of the witness: there is none for an empty piece, and
/// one with a fresh blind for another one.
pub open spec fn commits<E: SnarkEngine>(
    ck: CommitmentKey<E>,
    v: Seq<int>,
    outcome: Result<Option<(PartialModel<E>, BlindOf<E>)>, ErrorModel>,
) -> bool {
    if v.len() == 0 {
        outcome == Ok::<Option<(PartialModel<E>, BlindOf<E>)>, ErrorModel>(None)
    } else {
        exists|b: BlindOf<E>|
            E::PCS::is_blind(ck, v.len(), b) && outcome == #[trigger] piece_of::<E>(ck, v, b)
    }
}

/// What can come of the preparation of a proof for the shared and the precommitted variables.
pub open spec fn prepares<E: SnarkEngine>(
    ck: CommitmentKey<E>,
    s: ShapeModel,
    shared: Seq<int>,
    precommitted: Seq<int>,
    outcome: Result<PrepOf<E>, ErrorModel>,
) -> bool {
    let v1 = multilinear::zero_padded(shared, s.sizes.num_shared);
    let v2 = multilinear::zero_padded(precommitted, s.sizes.num_precommitted);
    if shared.len() != s.unpadded.num_shared || precommitted.len() != s.unpadded.num_precommitted {
        outcome == Err::<PrepOf<E>, ErrorModel>(ErrorModel::InvalidWitnessLength)
    } else {
        match outcome {
            Ok(prep) => {
                &&& prep.witness == v1 + v2
                &&& commits::<E>(ck, v1, Ok(prep.shared))
                &&& commits::<E>(ck, v2, Ok(prep.precommitted))
            },
            Err(e) => {
                ||| commits::<E>(ck, v1, Err(e))
                ||| {
                    &&& exists|c: Option<(PartialModel<E>, BlindOf<E>)>|
                        #[trigger] commits::<E>(ck, v1, Ok(c))
                    &&& commits::<E>(ck, v2, Err(e))
                }
            },
        }
    }
}

/// A transcript with the commitment to a piece, where there is one.
pub open spec fn absorb_piece<E: SnarkEngine>(
    t: TranscriptModel,
    label: Seq<u8>,
    c: Option<(PartialModel<E>, BlindOf<E>)>,
) -> TranscriptModel {
    match c {
        Some(c) => t.absorb(label, E::PCS::partial_bytes(c.0)),
        None => t,
    }
}

/// The transcript from which the challenges of a constraint system are drawn.
pub open spec fn challenge_transcript<E: SnarkEngine>(
    digest: Seq<u8>,
    prep: PrepOf<E>,
    public_values: Seq<int>,
) -> TranscriptModel {
    let t = TranscriptModel::start(SNARK_LABEL@).absorb(VK_LABEL@, digest).absorb(
        PUBLIC_VALUES_LABEL@,
        traits::scalar_reprs::<E::Scalar>(public_values),
    );
    absorb_piece::<E>(
        absorb_piece::<E>(t, COMM_W_SHARED_LABEL@, prep.shared),
        COMM_W_PRECOMMITTED_LABEL@,
        prep.precommitted,
    )
}

/// An instance with its witness, and the transcript that is bound to it.
pub struct Committed<V, B> {
    /// The instance.
    pub instance: InstanceModel<V>,
    /// The witness.
    pub witness: Seq<int>,
    /// The blind of the commitment to the witness.
    pub blind: B,
    /// The transcript.
    pub end: TranscriptModel,
}

/// The blind of a piece, where there is one.
pub open spec fn blind_part<V, B>(c: Option<(V, B)>) -> Seq<B> {
    match c {
        Some(c) => seq![c.1],
        None => Seq::empty(),
    }
}

/// The challenges on which the rest of the witness may depend, where the witness has the right
/// length.
pub open spec fn challenges_of<E: SnarkEngine>(
    s: ShapeModel,
    digest: Seq<u8>,
    prep: PrepOf<E>,
    public_values: Seq<int>,
    rest: Seq<int>,
) -> Result<keccak::Challenges, ErrorModel> {
    let c = keccak::squeeze_many::<E>(
        challenge_transcript::<E>(digest, prep, public_values),
        CHALLENGE_LABEL@,
        s.sizes.num_challenges,
    );
    if rest.len() != s.unpadded.num_rest || prep.witness.len() != s.sizes.num_shared
        + s.sizes.num_precommitted {
        Err(ErrorModel::InvalidWitnessLength)
    } else if !c.complete {
        Err(ErrorModel::InternalTranscriptError)
    } else {
        Ok(c)
    }
}

/// The instance for the given public values, the given rest of the witness and the blind `b` of
/// the rest.
pub open spec fn committed_of<E: SnarkEngine>(
    ck: CommitmentKey<E>,
    s: ShapeModel,
    prep: PrepOf<E>,
    public_values: Seq<int>,
    rest: Seq<int>,
    c: keccak::Challenges,
    b: BlindOf<E>,
) -> Result<Committed<PartialModel<E>, BlindOf<E>>, ErrorModel> {
    let padded = multilinear::zero_padded(rest, s.sizes.num_rest);
    match E::PCS::commit_partial_of(ck, padded, b) {
        Err(e) => Err(e),
        Ok((comm, used)) => match E::PCS::combine_blinds_of(
            blind_part(prep.shared) + blind_part(prep.precommitted) + seq![used],
        ) {
            Err(e) => Err(e),
            Ok(blind) => Ok(
                Committed {
                    instance: InstanceModel {
                        shared: commitment_part(prep.shared),
                        precommitted: commitment_part(prep.precommitted),
                        rest: comm,
                        public_values,
                        challenges: c.values,
                    },
                    witness: prep.witness + padded,
                    blind,
                    end: c.end.absorb(COMM_W_REST_LABEL@, E::PCS::partial_bytes(comm)),
                },
            ),
        },
    }
}

/// What the outer sum-check gives: its run, the claims on the three products, the challenge that
/// combines them and the challenge from which the transcripts fork.
pub struct OuterModel {
    /// The run of the prover.
    pub run: sumcheck::ProverRun,
    /// The challenge that combines the matrices.
    pub r: int,
    /// The challenge from which the transcripts fork.
    pub anchor: int,
}

/// The claims at the end of the outer sum-check.
pub open spec fn outer_claims(run: sumcheck::ProverRun) -> Seq<int> {
    seq![run.tables[1][0], run.tables[2][0], run.tables[3][0]]
}

/// The tables of the outer sum-check.
pub open spec fn outer_tables<S: ScalarField>(s: ShapeModel, tau: Seq<int>, z: Seq<int>) -> Seq<
    Seq<int>,
> {
    seq![
        eq::eq_table(S::modulus(), tau),
        shape::products::<S>(s.a, z),
        shape::products::<S>(s.b, z),
        shape::products::<S>(s.c, z),
    ]
}

/// The two challenges behind the outer sum-check, with the transcript in front of them.
pub open spec fn fork_of<E: Engine>(t: TranscriptModel) -> Result<(int, int), ErrorModel> {
    let t1 = t.squeeze(R_LABEL@);
    if !t.can_squeeze() || !t1.can_squeeze() {
        Err(ErrorModel::InternalTranscriptError)
    } else {
        Ok(
            (
                E::Scalar::uniform_of(t.digest(R_LABEL@)),
                E::Scalar::uniform_of(t1.digest(FORK_LABEL@)),
            ),
        )
    }
}

/// The transcript after the claims of the outer sum-check.
pub open spec fn claims_transcript<S: ScalarField>(
    t: TranscriptModel,
    claims: Seq<int>,
) -> TranscriptModel {
    t.absorb(CLAIMS_OUTER_LABEL@, traits::scalar_reprs::<S>(claims))
}

/// A transcript that forks from the main one.
pub open spec fn forked<S: ScalarField>(label: Seq<u8>, anchor: int) -> TranscriptModel {
    TranscriptModel::start(label).absorb(ANCHOR_LABEL@, S::repr_of(anchor))
}

/// What the outer sum-check gives for the vector `z`.
pub open spec fn outer_of<E: Engine>(s: ShapeModel, t: TranscriptModel, z: Seq<int>) -> Result<
    OuterModel,
    ErrorModel,
> {
    let n = merkle_tree::height(s.sizes.num_cons);
    let tau = keccak::squeeze_many::<E>(t, TAU_LABEL@, n);
    let run = sumcheck::prover_run::<E::Scalar>(
        outer_tables::<E::Scalar>(s, tau.values, z),
        0,
        tau.end,
        n,
    );
    if !tau.complete {
        Err(ErrorModel::InternalTranscriptError)
    } else if z.len() != s.sizes.num_cols() {
        Err(ErrorModel::InvalidWitnessLength)
    } else if !run.complete {
        Err(ErrorModel::InternalTranscriptError)
    } else {
        match fork_of::<E>(claims_transcript::<E::Scalar>(run.end, outer_claims(run))) {
            Err(e) => Err(e),
            Ok((r, anchor)) => Ok(OuterModel { run, r, anchor }),
        }
    }
}

/// What a proof says.
pub struct ProofModel<V, A> {
    /// The instance.
    pub instance: InstanceModel<V>,
    /// The compressed polynomials of the outer sum-check.
    pub outer: Seq<Seq<int>>,
    /// The claims at the end of the outer sum-check.
    pub claims: Seq<int>,
    /// The compressed polynomials of the inner sum-check.
    pub inner: Seq<Seq<int>>,
    /// The value of the witness.
    pub eval_w: int,
    /// The argument for that value.
    pub arg: A,
    /// The sum of the inner sum-check.
    pub inner_sum: int,
}

/// What is left to show once the two sum-checks are done: the value of the witness at a point.
pub struct Reduction<C> {
    /// The commitment to the witness.
    pub comm: C,
    /// The outer sum-check.
    pub outer: OuterModel,
    /// The sum of the inner sum-check.
    pub inner_sum: int,
    /// The inner sum-check.
    pub inner: sumcheck::ProverRun,
}

/// What the two sum-checks give for an instance, its witness `w` and the transcript bound to it.
pub open spec fn reduction_of<E: SnarkEngine>(
    s: ShapeModel,
    u: InstanceModel<PartialModel<E>>,
    w: Seq<int>,
    t: TranscriptModel,
) -> Result<Reduction<CommitmentOf<E>>, ErrorModel> {
    let p = E::Scalar::modulus();
    let x = u.public_values;
    match E::PCS::combine_partial_of(instance::parts(u)) {
        Err(e) => Err(e),
        Ok(comm) => match outer_of::<E>(s, t, z_vector(w, x, u.challenges)) {
            Err(e) => Err(e),
            Ok(outer) => {
                let n = merkle_tree::height(s.sizes.num_vars()) + 1;
                let abc = abc_of::<E::Scalar>(s, eq::eq_table(p, outer.run.point), outer.r);
                let z = z_table(E::hash_mle(), w, x, u.challenges, s.sizes.num_vars());
                let inner_sum = dot(p, abc, z);
                let inner = sumcheck::prover_run::<E::Scalar>(
                    seq![abc, z],
                    inner_sum,
                    forked::<E::Scalar>(INNER_LABEL@, outer.anchor),
                    n,
                );
                if !inner.complete {
                    Err(ErrorModel::InternalTranscriptError)
                } else {
                    Ok(Reduction { comm, outer, inner_sum, inner })
                }
            },
        },
    }
}

/// The proof that the sum-checks and an evaluation argument make up.
pub open spec fn proof_of<E: SnarkEngine>(
    u: InstanceModel<PartialModel<E>>,
    d: Reduction<CommitmentOf<E>>,
    argued: Result<(int, ArgumentOf<E>), ErrorModel>,
) -> Result<ProofOf<E>, ErrorModel> {
    match argued {
        Err(e) => Err(e),
        Ok((eval_w, arg)) => Ok(
            ProofModel {
                instance: u,
                outer: d.outer.run.polys,
                claims: outer_claims(d.outer.run),
                inner: d.inner.polys,
                eval_w,
                arg,
                inner_sum: d.inner_sum,
            },
        ),
    }
}

/// What can come of the evaluation argument on the fork of the transcript that belongs to it.
pub open spec fn argues<E: SnarkEngine>(
    ck: CommitmentKey<E>,
    d: Reduction<CommitmentOf<E>>,
    w: Seq<int>,
    blind: BlindOf<E>,
    argued: Result<(int, ArgumentOf<E>), ErrorModel>,
    end: TranscriptModel,
) -> bool {
    E::PCS::proves(
        ck,
        forked::<E::Scalar>(PCS_LABEL@, d.outer.anchor),
        d.comm,
        w,
        blind,
        d.inner.point.skip(1),
        argued,
        end,
    )
}

/// What the prover can make of a committed instance and its witness.
pub open spec fn relates<E: SnarkEngine>(
    ck: CommitmentKey<E>,
    s: ShapeModel,
    c: Committed<PartialModel<E>, BlindOf<E>>,
    outcome: Result<ProofOf<E>, ErrorModel>,
) -> bool {
    match reduction_of::<E>(s, c.instance, c.witness, c.end) {
        Err(e) => outcome == Err::<ProofOf<E>, ErrorModel>(e),
        Ok(d) => exists|argued: Result<(int, ArgumentOf<E>), ErrorModel>, end: TranscriptModel|
            #[trigger] argues::<E>(ck, d, c.witness, c.blind, argued, end) && outcome
                == proof_of::<E>(c.instance, d, argued),
    }
}

/// What the prover can make of public values and the rest of the witness with the blind `b` of the
/// rest.
pub open spec fn proves_with<E: SnarkEngine>(
    ck: CommitmentKey<E>,
    s: ShapeModel,
    prep: PrepOf<E>,
    public_values: Seq<int>,
    rest: Seq<int>,
    c: keccak::Challenges,
    b: BlindOf<E>,
    outcome: Result<ProofOf<E>, ErrorModel>,
) -> bool {
    match committed_of::<E>(ck, s, prep, public_values, rest, c, b) {
        Err(e) => outcome == Err::<ProofOf<E>, ErrorModel>(e),
        Ok(committed) => relates::<E>(ck, s, committed, outcome),
    }
}

/// What the prover can make of public values and the rest of the witness: a witness of the wrong
/// length is refused, and the rest of another one is committed to with a fresh blind.
pub open spec fn proves<E: SnarkEngine>(
    ck: CommitmentKey<E>,
    s: ShapeModel,
    digest: Seq<u8>,
    prep: PrepOf<E>,
    public_values: Seq<int>,
    rest: Seq<int>,
    outcome: Result<ProofOf<E>, ErrorModel>,
) -> bool {
    match challenges_of::<E>(s, digest, prep, public_values, rest) {
        Err(e) => outcome == Err::<ProofOf<E>, ErrorModel>(e),
        Ok(c) => exists|b: BlindOf<E>|
            E::PCS::is_blind(ck, s.sizes.num_rest, b) && #[trigger] proves_with::<E>(
                ck,
                s,
                prep,
                public_values,
                rest,
                c,
                b,
                outcome,
            ),
    }
}

/// The value of the public half of the table `Z` at a point.
pub open spec fn eval_x_of(
    p: int,
    hash_mle: bool,
    x: Seq<int>,
    num_vars: nat,
    point: Seq<int>,
) -> int {
    if !hash_mle {
        multilinear::mle_eval(
            p,
            multilinear::zero_padded(seq![1int] + x, num_vars),
            point,
        )
    } else if x.len() == 0 {
        1
    } else {
        multilinear::mle_eval(p, x_full(x, num_vars), point)
    }
}

/// The two points of the outer sum-check that the verifier draws for a proof: the one that the
/// tables are weighted with, and the one at which the sum-check ends.
pub open spec fn outer_points<E: SnarkEngine>(
    vk: EvaluationKey<E>,
    s: ShapeModel,
    pi: ProofOf<E>,
) -> (Seq<int>, Seq<int>) {
    let t = TranscriptModel::start(SNARK_LABEL@).absorb(
        VK_LABEL@,
        digest::digest_of::<E::Scalar>(vk.transcript_repr(), s),
    );
    let nx = merkle_tree::height(s.sizes.num_cons);
    let tau = keccak::squeeze_many::<E>(
        instance::validate_of::<E>(s.sizes, pi.instance, t).1,
        TAU_LABEL@,
        nx,
    );
    let outer = sumcheck::verify_of::<E::Scalar>(pi.outer, 0, nx, 3, tau.end).0;
    (tau.values, outer->Ok_0.1)
}

/// What the verifier decides: the public values, or why the proof is not accepted.
pub open spec fn verify_of<E: SnarkEngine>(
    vk: EvaluationKey<E>,
    s: ShapeModel,
    pi: ProofOf<E>,
) -> Result<Seq<int>, ErrorModel> {
    let p = E::Scalar::modulus();
    let u = pi.instance;
    let t = TranscriptModel::start(SNARK_LABEL@).absorb(
        VK_LABEL@,
        digest::digest_of::<E::Scalar>(vk.transcript_repr(), s),
    );
    let (valid, t0) = instance::validate_of::<E>(s.sizes, u, t);
    let nx = merkle_tree::height(s.sizes.num_cons);
    let ny = merkle_tree::height(s.sizes.num_vars()) + 1;
    let tau = keccak::squeeze_many::<E>(t0, TAU_LABEL@, nx);
    match valid {
        Err(e) => Err(e),
        Ok(()) => match E::PCS::combine_partial_of(instance::parts(u)) {
            Err(e) => Err(e),
            Ok(comm) => if !tau.complete {
                Err(ErrorModel::InternalTranscriptError)
            } else {
                let (outer, t1) = sumcheck::verify_of::<E::Scalar>(pi.outer, 0, nx, 3, tau.end);
                match outer {
                    Err(e) => Err(e),
                    Ok((last, rx)) => if last != (eq::eq_at(tau.values, rx) * (pi.claims[0]
                        * pi.claims[1] - pi.claims[2])) % p {
                        Err(ErrorModel::InvalidSumcheckProof)
                    } else {
                        match fork_of::<E>(claims_transcript::<E::Scalar>(t1, pi.claims)) {
                            Err(e) => Err(e),
                            Ok((r, anchor)) => verify_inner_of::<E>(
                                vk,
                                s,
                                pi,
                                comm,
                                rx,
                                r,
                                anchor,
                            ),
                        }
                    },
                }
            },
        },
    }
}

/// The claims of the outer sum-check, combined with powers of `r`.
pub open spec fn joint_claim(p: int, claims: Seq<int>, r: int) -> int {
    (claims[0] + r * claims[1] + r * r * claims[2]) % p
}

/// What the verifier decides about the inner sum-check and the evaluation argument.
///
/// Where the table `Z` is the vector that the matrices are multiplied with, the sum of the inner
/// sum-check must be the combination of the claims of the outer one.
pub open spec fn verify_inner_of<E: SnarkEngine>(
    vk: EvaluationKey<E>,
    s: ShapeModel,
    pi: ProofOf<E>,
    comm: CommitmentOf<E>,
    rx: Seq<int>,
    r: int,
    anchor: int,
) -> Result<Seq<int>, ErrorModel> {
    let p = E::Scalar::modulus();
    let x = pi.instance.public_values;
    let ny = merkle_tree::height(s.sizes.num_vars()) + 1;
    if !E::hash_mle() && pi.inner_sum != joint_claim(p, pi.claims, r) {
        Err(ErrorModel::InvalidSumcheckProof)
    } else {
        match sumcheck::verify_of::<E::Scalar>(
            pi.inner,
            pi.inner_sum,
            ny,
            2,
            forked::<E::Scalar>(INNER_LABEL@, anchor),
        ).0 {
            Err(e) => Err(e),
            Ok((last, ry)) => if last != (matrix_value::<E::Scalar>(s, rx, ry, r) * z_value(
                p,
                E::hash_mle(),
                pi.eval_w,
                x,
                s.sizes.num_vars(),
                ry,
            )) % p {
                Err(ErrorModel::InvalidSumcheckProof)
            } else {
                match E::PCS::verify_of(
                    vk,
                    forked::<E::Scalar>(PCS_LABEL@, anchor),
                    comm,
                    ry.skip(1),
                    pi.eval_w,
                    pi.arg,
                ).0 {
                    Err(e) => Err(e),
                    Ok(()) => Ok(x),
                }
            },
        }
    }
}

/// The value of the three matrices, combined with powers of `r`, at the points `rx` and `ry`.
pub open spec fn matrix_value<S: ScalarField>(
    s: ShapeModel,
    rx: Seq<int>,
    ry: Seq<int>,
    r: int,
) -> int {
    let p = S::modulus();
    let ex = eq::eq_table(p, rx);
    let ey = eq::eq_table(p, ry);
    sparse::bilinear(s.a, ex, ey) + r * sparse::bilinear(s.b, ex, ey) + r * r * sparse::bilinear(
        s.c,
        ex,
        ey,
    )
}

/// The value of the table `Z` at `ry`, given the value of the witness.
pub open spec fn z_value(
    p: int,
    hash_mle: bool,
    eval_w: int,
    x: Seq<int>,
    num_vars: nat,
    ry: Seq<int>,
) -> int {
    (1 - ry[0]) * eval_w + ry[0] * eval_x_of(p, hash_mle, x, num_vars, ry.skip(1))
}

/// A succinct proof of knowledge of a witness to an R1CS instance
/// The proof is produced using Spartan's combination of the sum-check and
/// the commitment to a vector viewed as a polynomial commitment
pub struct R1CSSNARK<E: SnarkEngine> {
    /// The instance.
    pub U: SplitR1CSInstance<E>,
    /// The outer sum-check.
    pub sc_proof_outer: SumcheckProof<E>,
    /// The claims at the end of the outer sum-check.
    pub claims_outer: (E::Scalar, E::Scalar, E::Scalar),
    /// The inner sum-check.
    pub sc_proof_inner: SumcheckProof<E>,
    /// The value of the witness.
    pub eval_W: E::Scalar,
    /// The argument for that value.
    pub eval_arg: <E::PCS as PCSEngineTrait<E>>::EvaluationArgument,
    /// The sum of the inner sum-check.
    pub claim_inner_sum: E::Scalar,
}

impl<E: SnarkEngine> View for R1CSSNARK<E> {
    type V = ProofOf<E>;

    open spec fn view(&self) -> ProofOf<E> {
        ProofModel {
            instance: self.U@,
            outer: self.sc_proof_outer@,
            claims: seq![
                self.claims_outer.0.val(),
                self.claims_outer.1.val(),
                self.claims_outer.2.val(),
            ],
            inner: self.sc_proof_inner@,
            eval_w: self.eval_W.val(),
            arg: self.eval_arg@,
            inner_sum: self.claim_inner_sum.val(),
        }
    }
}

/// Commits to a piece of the witness, where the piece is not empty.
fn commit_piece<E: SnarkEngine>(
    ck: &CommitmentKey<E>,
    v: &Vec<E::Scalar>,
    is_small: bool,
) -> (r: Result<
    (Option<PartialCommitment<E>>, Option<<E::PCS as PCSEngineTrait<E>>::Blind>),
    SpartanError,
>)
    ensures
        match r {
            Ok((c, b)) => {
                &&& commits::<E>(*ck, traits::vals(v@), Ok(piece_view::<E>(c, b)))
                &&& c is Some <==> b is Some
            },
            Err(e) => commits::<E>(*ck, traits::vals(v@), Err(e@)),
        },
{
    assert(traits::vals(v@).len() == v@.len());
    if v.len() == 0 {
        return Ok((None, None));
    }
    let blind = E::PCS::blind(ck, v.len());
    let ghost outcome = piece_of::<E>(*ck, traits::vals(v@), blind@);
    assert(commits::<E>(*ck, traits::vals(v@), outcome));
    match E::PCS::commit_partial(ck, v.as_slice(), &blind, is_small) {
        Ok((c, b)) => Ok((Some(c), Some(b))),
        Err(e) => Err(e),
    }
}

/// Absorbs the commitment to a piece, where there is one.
fn absorb_commitment<E: SnarkEngine>(
    transcript: &mut Keccak256Transcript<E>,
    label: &[u8],
    c: &Option<PartialCommitment<E>>,
    Ghost(piece): Ghost<Option<(PartialModel<E>, BlindOf<E>)>>,
)
    requires
        instance::option_view(*c) == commitment_part(piece),
    ensures
        final(transcript)@ == absorb_piece::<E>(old(transcript)@, label@, piece),
{
    match c {
        Some(c) => {
            proof {
                E::PCS::lemma_partial_bytes(*c);
            }
            transcript.absorb(label, c);
        },
        None => {},
    }
}

/// A copy of the commitment to a piece, where there is one.
fn copy_commitment<E: SnarkEngine>(c: &Option<PartialCommitment<E>>) -> (r: Option<
    PartialCommitment<E>,
>)
    ensures
        r == *c,
{
    match c {
        Some(c) => Some(E::PCS::copy_partial(c)),
        None => None,
    }
}

/// What the outer sum-check leaves to the rest of the proof.
struct Outer<E: Engine> {
    sc_proof: SumcheckProof<E>,
    r_x: Vec<E::Scalar>,
    claims: (E::Scalar, E::Scalar, E::Scalar),
    r: E::Scalar,
    anchor: E::Scalar,
}

/// Draws the two challenges behind the outer sum-check.
fn draw_fork<E: Engine>(transcript: &mut Keccak256Transcript<E>) -> (r: Result<
    (E::Scalar, E::Scalar),
    SpartanError,
>)
    ensures
        match r {
            Ok((r, anchor)) => fork_of::<E>(old(transcript)@) == Ok::<(int, int), ErrorModel>(
                (r.val(), anchor.val()),
            ),
            Err(e) => fork_of::<E>(old(transcript)@) == Err::<(int, int), ErrorModel>(e@),
        },
{
    let r = match transcript.squeeze(&R_LABEL) {
        Ok(r) => r,
        Err(e) => return Err(e),
    };
    // The anchor commits to the entire transcript up to this point.
    match transcript.squeeze(&FORK_LABEL) {
        Ok(anchor) => Ok((r, anchor)),
        Err(e) => Err(e),
    }
}

/// Starts a transcript that forks from the main one.
fn start_fork<E: Engine>(label: &[u8], anchor: &E::Scalar) -> (t: Keccak256Transcript<E>)
    ensures
        t@ == forked::<E::Scalar>(label@, anchor.val()),
{
    let mut t = Keccak256Transcript::<E>::new(label);
    let bytes = anchor.to_bytes();
    t.absorb_bytes(&ANCHOR_LABEL, bytes.as_slice());
    t
}

/// Absorbs the claims of the outer sum-check.
fn absorb_claims<E: Engine>(
    transcript: &mut Keccak256Transcript<E>,
    claims: &(E::Scalar, E::Scalar, E::Scalar),
)
    ensures
        final(transcript)@ == claims_transcript::<E::Scalar>(
            old(transcript)@,
            seq![claims.0.val(), claims.1.val(), claims.2.val()],
        ),
{
    let all: Vec<E::Scalar> = vec![claims.0, claims.1, claims.2];
    assert(traits::vals(all@) =~= seq![claims.0.val(), claims.1.val(), claims.2.val()]);
    let bytes = scalar_bytes(all.as_slice());
    transcript.absorb_bytes(&CLAIMS_OUTER_LABEL, bytes.as_slice());
}

/// The outer tables have one entry for each constraint.
proof fn lemma_outer_shape<S: ScalarField>(s: ShapeModel, tau: Seq<int>, z: Seq<int>)
    requires
        shape::shape_valid(s),
        tau.len() == merkle_tree::height(s.sizes.num_cons),
    ensures
        sumcheck::tables_shape(
            outer_tables::<S>(s, tau, z),
            merkle_tree::height(s.sizes.num_cons),
        ),
{
    layers::lemma_height_pow2(s.sizes.num_cons);
}

/// Proves the outer sum-check.
fn prove_outer<E: Engine>(
    S: &SplitR1CSShape<E>,
    transcript: &mut Keccak256Transcript<E>,
    z: &Vec<E::Scalar>,
) -> (r: Result<Outer<E>, SpartanError>)
    ensures
        match r {
            Ok(o) => {
                &&& outer_of::<E>(S@, old(transcript)@, traits::vals(z@)) matches Ok(m)
                &&& m.run.polys == o.sc_proof@
                &&& m.run.point == traits::vals(o.r_x@)
                &&& outer_claims(m.run) == seq![
                    o.claims.0.val(),
                    o.claims.1.val(),
                    o.claims.2.val(),
                ]
                &&& m.r == o.r.val()
                &&& m.anchor == o.anchor.val()
            },
            Err(e) => outer_of::<E>(S@, old(transcript)@, traits::vals(z@)) == Err::<
                OuterModel,
                ErrorModel,
            >(e@),
        },
{
    S.note_valid();
    let num_rounds_x: usize = height_of(S.num_cons);
    proof {
        layers::lemma_height_pow2(S@.sizes.num_cons);
    }
    let tau = match transcript.squeeze_n(&TAU_LABEL, num_rounds_x) {
        Ok(tau) => tau,
        Err(e) => return Err(e),
    };
    let ghost start = transcript@;
    let ghost taus = traits::vals(tau@);
    let table = EqPolynomial::new(tau).evals();
    let poly_tau = MultilinearPolynomial::new(table);
    assert(poly_tau@ =~= eq::eq_table(E::Scalar::modulus(), taus));
    let (Az, Bz, Cz) = match S.multiply_vec(z.as_slice()) {
        Ok(products) => products,
        Err(e) => return Err(e),
    };
    let poly_Az = MultilinearPolynomial::new(Az);
    let poly_Bz = MultilinearPolynomial::new(Bz);
    let poly_Cz = MultilinearPolynomial::new(Cz);
    let ghost tables = outer_tables::<E::Scalar>(S@, taus, traits::vals(z@));
    proof {
        assert(seq![poly_tau@, poly_Az@, poly_Bz@, poly_Cz@] =~= tables);
        lemma_outer_shape::<E::Scalar>(S@, taus, traits::vals(z@));
    }
    // the claim is zero
    let (sc_proof, r_x, claims_outer) = match SumcheckProof::prove_cubic_with_additive_term(
        &E::Scalar::zero(),
        num_rounds_x,
        poly_tau,
        poly_Az,
        poly_Bz,
        poly_Cz,
        transcript,
    ) {
        Ok(proved) => proved,
        Err(e) => return Err(e),
    };
    let ghost run = sumcheck::prover_run::<E::Scalar>(tables, 0, start, num_rounds_x as nat);
    proof {
        sumcheck::lemma_prover_tables::<E::Scalar>(
            tables,
            0,
            start,
            num_rounds_x as nat,
            num_rounds_x as nat,
        );
        let finals = sumcheck::entries(run.tables, 0);
        assert(traits::vals(claims_outer@).len() == claims_outer@.len());
        assert(finals.len() == 4);
        assert(finals[1] == claims_outer@[1].val());
        assert(finals[2] == claims_outer@[2].val());
        assert(finals[3] == claims_outer@[3].val());
    }
    // claims from the end of sum-check
    let claims = (claims_outer[1], claims_outer[2], claims_outer[3]);
    assert(outer_claims(run) =~= seq![claims.0.val(), claims.1.val(), claims.2.val()]);
    absorb_claims(transcript, &claims);
    match draw_fork(transcript) {
        Ok((r, anchor)) => Ok(Outer { sc_proof, r_x, claims, r, anchor }),
        Err(e) => Err(e),
    }
}

/// The sum of the products of the entries of two tables.
fn dot_product<S: ScalarField>(a: &Vec<S>, b: &Vec<S>) -> (v: S)
    requires
        a@.len() == b@.len(),
    ensures
        v.val() == dot(S::modulus(), traits::vals(a@), traits::vals(b@)),
{
    let ghost p = S::modulus();
    let ghost (x, y) = (traits::vals(a@), traits::vals(b@));
    let ghost f = |i: int| x[i] * y[i];
    let mut acc = S::zero();
    proof {
        S::lemma_modulus();
        lemma_small_mod(0, p as nat);
    }
    let n: usize = a.len();
    for i in 0..n
        invariant
            n == a@.len(),
            n == b@.len(),
            p == S::modulus(),
            p > 1,
            x == traits::vals(a@),
            y == traits::vals(b@),
            f == (|i: int| x[i] * y[i]),
            acc.val() == sums::sum(f, i as nat) % p,
    {
        let term = mul2(a[i], b[i], Ghost(x[i as int]), Ghost(y[i as int]));
        proof {
            modular::lemma_cong_mod(p, sums::sum(f, i as nat));
        }
        acc = add2(acc, term, Ghost(sums::sum(f, i as nat)), Ghost(x[i as int] * y[i as int]));
    }
    acc
}

/// The table `Z` of the inner sum-check.
fn build_z_table<E: SnarkEngine>(
    w: &Vec<E::Scalar>,
    x: &Vec<E::Scalar>,
    challenges: &Vec<E::Scalar>,
    num_vars: usize,
) -> (t: Vec<E::Scalar>)
    requires
        w@.len() == num_vars,
        x@.len() + challenges@.len() < num_vars,
        2 * num_vars <= usize::MAX,
    ensures
        traits::vals(t@) == z_table(
            E::hash_mle(),
            traits::vals(w@),
            traits::vals(x@),
            traits::vals(challenges@),
            num_vars as nat,
        ),
{
    if E::is_hash_mle() {
        // Z(y0, y) = (1 - y0) * W(y) + y0 * X(y), where y0 is the first variable
        let mut t: Vec<E::Scalar> = Vec::new();
        append_table(&mut t, w.as_slice());
        let public = public_table(x, num_vars);
        append_table(&mut t, public.as_slice());
        assert(traits::vals(t@) =~= traits::vals(w@) + x_full(
            traits::vals(x@),
            num_vars as nat,
        )) by {
            assert(traits::vals(public@) == x_full(traits::vals(x@), num_vars as nat));
            assert(traits::vals(w@ + public@) =~= traits::vals(w@) + traits::vals(public@));
        }
        t
    } else {
        let z = build_z(w, x, challenges);
        assert(traits::vals(z@).len() == z@.len());
        pad_table(z.as_slice(), 2 * num_vars)
    }
}

/// The tables of the inner sum-check have two entries for each variable.
proof fn lemma_inner_shape<S: ScalarField>(
    s: ShapeModel,
    hash_mle: bool,
    ex: Seq<int>,
    r: int,
    w: Seq<int>,
    x: Seq<int>,
    challenges: Seq<int>,
)
    requires
        shape::shape_valid(s),
        w.len() == s.sizes.num_vars(),
    ensures
        sumcheck::tables_shape(
            seq![
                abc_of::<S>(s, ex, r),
                z_table(hash_mle, w, x, challenges, s.sizes.num_vars()),
            ],
            merkle_tree::height(s.sizes.num_vars()) + 1,
        ),
{
    layers::lemma_height_pow2(s.sizes.num_vars());
    lemma_pow2_unfold(merkle_tree::height(s.sizes.num_vars()) + 1);
}

/// A height plus one is below the number of bits of a machine word where twice the number fits.
pub proof fn lemma_height_bits(n: nat)
    requires
        merkle_tree::is_pow2(n),
        2 * n <= usize::MAX,
    ensures
        merkle_tree::height(n) + 1 < usize::BITS,
        pow2(merkle_tree::height(n)) == n,
        pow2(merkle_tree::height(n) + 1) == 2 * n,
{
    let h = merkle_tree::height(n);
    layers::lemma_height_pow2(n);
    lemma_pow2_unfold(h + 1);
    lemma2_to64();
    lemma2_to64_rest();
    if h + 1 >= usize::BITS {
        if h + 1 > usize::BITS {
            lemma_pow2_strictly_increases(usize::BITS as nat, h + 1);
        }
        assert(pow2(usize::BITS as nat) > usize::MAX);
    }
}

/// What the check of the width of a scheme finds: a hash-based one must be binary.
pub open spec fn width_of(hash_mle: bool, width: nat) -> Result<(), ErrorModel> {
    if hash_mle && width != 2 {
        Err(
            ErrorModel::InternalError(
                "Hash-MLE PCS misconfigured: width()="@ + errors::decimal(width)
                    + " (expected 2)"@,
            ),
        )
    } else {
        Ok(())
    }
}

/// Checks the width of a scheme: a hash-based one must be binary.
pub fn check_width(hash_mle: bool, width: usize) -> (r: Result<(), SpartanError>)
    ensures
        errors::outcome(r) == width_of(hash_mle, width as nat),
{
    if hash_mle && width != 2 {
        let mut reason = "Hash-MLE PCS misconfigured: width()=".to_string();
        push_decimal(&mut reason, width);
        reason.append(" (expected 2)");
        return Err(SpartanError::InternalError { reason });
    }
    Ok(())
}

impl<E: SnarkEngine> R1CSSNARK<E> {
    /// Makes the keys for a shape.
    pub fn setup(S: SplitR1CSShape<E>) -> (r: Result<
        (SpartanProverKey<E>, SpartanVerifierKey<E>),
        SpartanError,
    >)
        ensures
            match r {
                Ok((pk, vk)) => {
                    &&& width_of(E::hash_mle(), E::PCS::width_of()) is Ok
                    &&& pk.shape() == S@
                    &&& vk.shape() == S@
                    &&& E::PCS::are_keys(pk.key(), vk.key())
                    &&& E::PCS::made_for(CK_LABEL@, S@.sizes.num_vars(), pk.key(), vk.key())
                    &&& pk.vk_digest() == digest::digest_of::<E::Scalar>(
                        vk.key().transcript_repr(),
                        S@,
                    )
                },
                Err(e) => width_of(E::hash_mle(), E::PCS::width_of()) == Err::<(), ErrorModel>(
                    e@,
                ),
            },
    {
        // Sanity: Hash-MLE PCS must be binary (only check for Hash-MLE engines)
        match check_width(E::is_hash_mle(), E::PCS::width()) {
            Ok(()) => {},
            Err(e) => return Err(e),
        }
        S.note_valid();
        let num_vars: usize = S.num_shared + S.num_precommitted + S.num_rest;
        let (ck, vk_ee) = E::PCS::setup(&CK_LABEL, num_vars);
        let vk = SpartanVerifierKey { vk_ee, S: S.clone() };
        match vk.digest() {
            Ok(vk_digest) => Ok((SpartanProverKey { ck, S, vk_digest }, vk)),
            Err(e) => Err(e),
        }
    }

    /// Prepares the SNARK for proving
    pub fn prep_prove(
        pk: &SpartanProverKey<E>,
        shared: &[E::Scalar],
        precommitted: &[E::Scalar],
        is_small: bool,
    ) -> (r: Result<PrepSNARK<E>, SpartanError>)
        ensures
            prepares::<E>(
                pk.key(),
                pk.shape(),
                traits::vals(shared@),
                traits::vals(precommitted@),
                errors::outcome_view(r),
            ),
    {
        pk.S.note_valid();
        let sizes = pk.S.sizes();
        let ghost all = sizes@.map_values(|x: usize| x as nat);
        assert(all[1] == sizes@[1] && all[2] == sizes@[2]);
        if shared.len() != sizes[1] || precommitted.len() != sizes[2] {
            return Err(SpartanError::InvalidWitnessLength);
        }
        let mut W = pad_table(shared, pk.S.num_shared);
        let rest = pad_table(precommitted, pk.S.num_precommitted);
        let (comm_W_shared, r_W_shared) = match commit_piece::<E>(&pk.ck, &W, is_small) {
            Ok(committed) => committed,
            Err(e) => return Err(e),
        };
        let (comm_W_precommitted, r_W_precommitted) = match commit_piece::<E>(
            &pk.ck,
            &rest,
            is_small,
        ) {
            Ok(committed) => committed,
            Err(e) => return Err(e),
        };
        let ghost first = W@;
        append_table(&mut W, rest.as_slice());
        assert(traits::vals(W@) =~= traits::vals(first) + traits::vals(rest@));
        Ok(
            PrepSNARK {
                W,
                comm_W_shared,
                r_W_shared,
                comm_W_precommitted,
                r_W_precommitted,
            },
        )
    }

    /// Starts the transcript of a proof.
    fn start_transcript(
        pk: &SpartanProverKey<E>,
        prep_snark: &PrepSNARK<E>,
        public_values: &[E::Scalar],
    ) -> (transcript: Keccak256Transcript<E>)
        ensures
            transcript@ == challenge_transcript::<E>(
                pk.vk_digest(),
                prep_snark@,
                traits::vals(public_values@),
            ),
    {
        proof {
            use_type_invariant(prep_snark);
        }
        let mut transcript = Keccak256Transcript::<E>::new(&SNARK_LABEL);
        transcript.absorb_bytes(&VK_LABEL, &pk.vk_digest);
        let bytes = scalar_bytes(public_values);
        transcript.absorb_bytes(&PUBLIC_VALUES_LABEL, bytes.as_slice());
        absorb_commitment::<E>(
            &mut transcript,
            &COMM_W_SHARED_LABEL,
            &prep_snark.comm_W_shared,
            Ghost(prep_snark@.shared),
        );
        absorb_commitment::<E>(
            &mut transcript,
            &COMM_W_PRECOMMITTED_LABEL,
            &prep_snark.comm_W_precommitted,
            Ghost(prep_snark@.precommitted),
        );
        transcript
    }

    /// The challenges on which the rest of a witness may depend.
    pub fn challenges(
        pk: &SpartanProverKey<E>,
        prep_snark: &PrepSNARK<E>,
        public_values: &[E::Scalar],
    ) -> (r: Result<Vec<E::Scalar>, SpartanError>)
        ensures
            ({
                let c = keccak::squeeze_many::<E>(
                    challenge_transcript::<E>(
                        pk.vk_digest(),
                        prep_snark@,
                        traits::vals(public_values@),
                    ),
                    CHALLENGE_LABEL@,
                    pk.shape().sizes.num_challenges,
                );
                &&& r is Ok <==> c.complete
                &&& r matches Ok(v) ==> traits::vals(v@) == c.values
                &&& r matches Err(e) ==> e@ == ErrorModel::InternalTranscriptError
            }),
    {
        pk.S.note_valid();
        let mut transcript = Self::start_transcript(pk, prep_snark, public_values);
        transcript.squeeze_n(&CHALLENGE_LABEL, pk.S.num_challenges)
    }

    /// Proves that the witness `W` satisfies the constraint system together with the instance.
    fn prove_relation(
        pk: &SpartanProverKey<E>,
        U: SplitR1CSInstance<E>,
        W: &Vec<E::Scalar>,
        r_W: &<E::PCS as PCSEngineTrait<E>>::Blind,
        transcript: &mut Keccak256Transcript<E>,
    ) -> (r: Result<Self, SpartanError>)
        requires
            W@.len() == pk.shape().sizes.num_vars(),
            U@.challenges.len() == pk.shape().sizes.num_challenges,
        ensures
            relates::<E>(
                pk.key(),
                pk.shape(),
                (Committed {
                    instance: U@,
                    witness: traits::vals(W@),
                    blind: r_W@,
                    end: old(transcript)@,
                }),
                errors::outcome_view(r),
            ),
    {
        let ghost s = pk.shape();
        let ghost p = E::Scalar::modulus();
        let ghost w = traits::vals(W@);
        pk.S.note_valid();
        let U_regular = match U.to_regular_instance() {
            Ok(u) => u,
            Err(e) => return Err(e),
        };
        let num_vars: usize = pk.S.num_shared + pk.S.num_precommitted + pk.S.num_rest;
        let num_rounds_y: usize = height_of(num_vars) + 1;
        proof {
            lemma_height_bits(num_vars as nat);
        }
        // outer sum-check
        let z = build_z(W, &U_regular.X, &U.challenges);
        assert(traits::vals(z@).len() == z@.len());
        let outer = match prove_outer(&pk.S, transcript, &z) {
            Ok(outer) => outer,
            Err(e) => return Err(e),
        };
        assert(U_regular.X@.len() == traits::vals(U_regular.X@).len());
        assert(U.challenges@.len() == traits::vals(U.challenges@).len());
        // Fork transcript streams from a single anchor to avoid interleaving
        let mut t_sc = start_fork::<E>(&INNER_LABEL, &outer.anchor);
        let mut t_pcs = start_fork::<E>(&PCS_LABEL, &outer.anchor);
        let ghost rx = traits::vals(outer.r_x@);
        let ghost ex = eq::eq_table(p, rx);
        proof {
            let m = outer_of::<E>(s, old(transcript)@, traits::vals(z@))->Ok_0;
            let n = merkle_tree::height(s.sizes.num_cons);
            let tau = keccak::squeeze_many::<E>(old(transcript)@, TAU_LABEL@, n);
            keccak::lemma_squeeze_many_len::<E>(old(transcript)@, TAU_LABEL@, n);
            sumcheck::lemma_prover_prefix::<E::Scalar>(
                outer_tables::<E::Scalar>(s, tau.values, traits::vals(z@)),
                0,
                tau.end,
                n,
                n,
            );
            layers::lemma_height_pow2(s.sizes.num_cons);
        }
        let evals_rx = EqPolynomial::<E::Scalar>::evals_from_points(outer.r_x.as_slice());
        assert(traits::vals(evals_rx@) =~= ex);
        let (evals_A, evals_B, evals_C) = compute_eval_table_sparse(&pk.S, evals_rx.as_slice());
        let poly_ABC = combine_tables(
            &evals_A,
            &evals_B,
            &evals_C,
            &outer.r,
            Ghost(s),
            Ghost(ex),
        );
        let poly_z = build_z_table::<E>(W, &U_regular.X, &U.challenges, num_vars);
        let ghost abc = abc_of::<E::Scalar>(s, ex, outer.r.val());
        let ghost zt = z_table(E::hash_mle(), w, U@.public_values, U@.challenges, num_vars as nat);
        proof {
            lemma_inner_shape::<E::Scalar>(
                s,
                E::hash_mle(),
                ex,
                outer.r.val(),
                w,
                U@.public_values,
                U@.challenges,
            );
            assert(traits::vals(poly_ABC@).len() == poly_ABC@.len());
            assert(traits::vals(poly_z@).len() == poly_z@.len());
            assert(seq![abc, zt][0].len() == seq![abc, zt][1].len());
        }
        // inner sum-check, whose claim is the true sum
        let claim_inner_sum = dot_product(&poly_ABC, &poly_z);
        let (sc_proof_inner, r_y, _claims_inner) = match SumcheckProof::prove_quad(
            &claim_inner_sum,
            num_rounds_y,
            MultilinearPolynomial::new(poly_ABC),
            MultilinearPolynomial::new(poly_z),
            &mut t_sc,
        ) {
            Ok(proved) => proved,
            Err(e) => return Err(e),
        };
        proof {
            sumcheck::lemma_prover_prefix::<E::Scalar>(
                seq![abc, zt],
                claim_inner_sum.val(),
                forked::<E::Scalar>(INNER_LABEL@, outer.anchor.val()),
                num_rounds_y as nat,
                num_rounds_y as nat,
            );
            assert(traits::vals(r_y@).len() == r_y@.len());
        }
        // y0 selects between W and X, and the other coordinates are the point of W
        let ry_no_gate = tail(&r_y);
        assert(traits::vals(ry_no_gate@) =~= traits::vals(r_y@).skip(1));
        let argued = E::PCS::prove(
            &pk.ck,
            &mut t_pcs,
            &U_regular.comm_W,
            W.as_slice(),
            r_W,
            ry_no_gate.as_slice(),
        );
        proof {
            let c = Committed {
                instance: U@,
                witness: w,
                blind: r_W@,
                end: old(transcript)@,
            };
            let d = reduction_of::<E>(s, c.instance, c.witness, c.end)->Ok_0;
            let proved = traits::proved_view(argued);
            assert(argues::<E>(pk.key(), d, c.witness, c.blind, proved, t_pcs@));
            assert(reduction_of::<E>(s, c.instance, c.witness, c.end) is Ok);
            assert(relates::<E>(pk.key(), s, c, proof_of::<E>(c.instance, d, proved)));
        }
        let (eval_W, eval_arg) = match argued {
            Ok(proved) => proved,
            Err(e) => return Err(e),
        };
        Ok(
            R1CSSNARK {
                U,
                sc_proof_outer: outer.sc_proof,
                claims_outer: outer.claims,
                sc_proof_inner,
                eval_W,
                eval_arg,
                claim_inner_sum,
            },
        )
    }

    /// Commits to the rest of the witness with the blind `blind` and proves the relation.
    fn prove_with(
        pk: &SpartanProverKey<E>,
        prep_snark: &PrepSNARK<E>,
        public_values: &[E::Scalar],
        padded: &Vec<E::Scalar>,
        challenges: Vec<E::Scalar>,
        blind: &<E::PCS as PCSEngineTrait<E>>::Blind,
        is_small: bool,
        transcript: &mut Keccak256Transcript<E>,
        Ghost(rest): Ghost<Seq<int>>,
    ) -> (r: Result<Self, SpartanError>)
        requires
            traits::vals(padded@) == multilinear::zero_padded(rest, pk.shape().sizes.num_rest),
            prep_snark@.witness.len() == pk.shape().sizes.num_shared
                + pk.shape().sizes.num_precommitted,
            challenges@.len() == pk.shape().sizes.num_challenges,
        ensures
            proves_with::<E>(
                pk.key(),
                pk.shape(),
                prep_snark@,
                traits::vals(public_values@),
                rest,
                (keccak::Challenges {
                    values: traits::vals(challenges@),
                    end: old(transcript)@,
                    complete: true,
                }),
                blind@,
                errors::outcome_view(r),
            ),
    {
        proof {
            use_type_invariant(prep_snark);
        }
        let (comm_W_rest, r_W_rest) = match E::PCS::commit_partial(
            &pk.ck,
            padded.as_slice(),
            blind,
            is_small,
        ) {
            Ok(committed) => committed,
            Err(e) => return Err(e),
        };
        // all blinds together give the blind of the witness
        let mut blinds: Vec<<E::PCS as PCSEngineTrait<E>>::Blind> = Vec::new();
        match &prep_snark.r_W_shared {
            Some(b) => blinds.push(E::PCS::copy_blind(b)),
            None => {},
        }
        match &prep_snark.r_W_precommitted {
            Some(b) => blinds.push(E::PCS::copy_blind(b)),
            None => {},
        }
        let ghost used = r_W_rest@;
        blinds.push(r_W_rest);
        assert(traits::views(blinds@) =~= blind_part(prep_snark@.shared) + blind_part(
            prep_snark@.precommitted,
        ) + seq![used]);
        let r_W = match E::PCS::combine_blinds(blinds.as_slice()) {
            Ok(r_W) => r_W,
            Err(e) => return Err(e),
        };
        proof {
            E::PCS::lemma_partial_bytes(comm_W_rest);
        }
        transcript.absorb(&COMM_W_REST_LABEL, &comm_W_rest);
        let mut W = copy_table(prep_snark.W.as_slice());
        let ghost first = W@;
        append_table(&mut W, padded.as_slice());
        assert(traits::vals(W@) =~= traits::vals(first) + traits::vals(padded@));
        assert(traits::vals(W@).len() == W@.len());
        let U = SplitR1CSInstance {
            comm_W_shared: copy_commitment::<E>(&prep_snark.comm_W_shared),
            comm_W_precommitted: copy_commitment::<E>(&prep_snark.comm_W_precommitted),
            comm_W_rest,
            public_values: copy_table(public_values),
            challenges,
        };
        Self::prove_relation(pk, U, &W, &r_W, transcript)
    }

    /// produces a succinct proof of satisfiability of an R1CS instance
    ///
    /// The witness is made of the variables that `prep_snark` holds and of `rest`, which may
    /// depend on the challenges that `challenges` returns.
    pub fn prove(
        pk: &SpartanProverKey<E>,
        prep_snark: &PrepSNARK<E>,
        public_values: &[E::Scalar],
        rest: &[E::Scalar],
        is_small: bool,
    ) -> (r: Result<Self, SpartanError>)
        ensures
            proves::<E>(
                pk.key(),
                pk.shape(),
                pk.vk_digest(),
                prep_snark@,
                traits::vals(public_values@),
                traits::vals(rest@),
                errors::outcome_view(r),
            ),
    {
        pk.S.note_valid();
        let sizes = pk.S.sizes();
        let ghost all = sizes@.map_values(|x: usize| x as nat);
        assert(all[3] == sizes@[3]);
        if rest.len() != sizes[3] || prep_snark.len() != pk.S.num_shared + pk.S.num_precommitted {
            return Err(SpartanError::InvalidWitnessLength);
        }
        let mut transcript = Self::start_transcript(pk, prep_snark, public_values);
        let challenges = match transcript.squeeze_n(&CHALLENGE_LABEL, pk.S.num_challenges) {
            Ok(challenges) => challenges,
            Err(e) => return Err(e),
        };
        let ghost drawn = challenges_of::<E>(
            pk.shape(),
            pk.vk_digest(),
            prep_snark@,
            traits::vals(public_values@),
            traits::vals(rest@),
        )->Ok_0;
        assert(traits::vals(challenges@).len() == challenges@.len());
        assert(drawn == keccak::Challenges {
            values: traits::vals(challenges@),
            end: transcript@,
            complete: true,
        });
        let padded = pad_table(rest, pk.S.num_rest);
        assert(traits::vals(padded@).len() == padded@.len());
        let blind = E::PCS::blind(&pk.ck, padded.len());
        let r = Self::prove_with(
            pk,
            prep_snark,
            public_values,
            &padded,
            challenges,
            &blind,
            is_small,
            &mut transcript,
            Ghost(traits::vals(rest@)),
        );
        assert(proves_with::<E>(
            pk.key(),
            pk.shape(),
            prep_snark@,
            traits::vals(public_values@),
            traits::vals(rest@),
            drawn,
            blind@,
            errors::outcome_view(r),
        ));
        r
    }
}

/// All entries but the first one.
fn tail<T: Copy>(v: &Vec<T>) -> (t: Vec<T>)
    requires
        v@.len() > 0,
    ensures
        t@ == v@.skip(1),
{
    let mut t: Vec<T> = Vec::new();
    for i in 1..v.len()
        invariant
            v@.len() > 0,
            t@ == v@.subrange(1, i as int),
    {
        t.push(v[i]);
        assert(t@ =~= v@.subrange(1, i + 1));
    }
    assert(t@ =~= v@.skip(1));
    t
}

/// `t` holds the values of the equality polynomial at `r` over all bit strings.
pub open spec fn is_eq_table<S: ScalarField>(t: Seq<S>, r: Seq<S>) -> bool {
    traits::vals(t) == eq::eq_table(S::modulus(), traits::vals(r))
}

/// There is room for the values of the equality polynomial at `r`.
pub open spec fn has_table<S: ScalarField>(r: Seq<S>) -> bool {
    pow2(r.len()) <= usize::MAX
}

/// The values of the equality polynomial at `r` over all bit strings.
fn eq_values<S: ScalarField>(r: &[S]) -> (t: Vec<S>)
    requires
        has_table(r@),
    ensures
        is_eq_table(t@, r@),
{
    let t = EqPolynomial::<S>::evals_from_points(r);
    assert(traits::vals(t@) =~= eq::eq_table(S::modulus(), traits::vals(r@)));
    t
}

/// Evaluates the three matrices, combined with powers of `r`, at the points `r_x` and `r_y`.
fn multi_evaluate<E: Engine>(
    S: &SplitR1CSShape<E>,
    r_x: &[E::Scalar],
    r_y: &[E::Scalar],
    r: &E::Scalar,
) -> (v: E::Scalar)
    requires
        pow2(r_x@.len()) == S@.sizes.num_cons,
        pow2(r_y@.len()) == 2 * S@.sizes.num_vars(),
    ensures
        modular::cong(
            E::Scalar::modulus(),
            v.val(),
            matrix_value::<E::Scalar>(S@, traits::vals(r_x@), traits::vals(r_y@), r.val()),
        ),
{
    S.note_valid();
    let (T_x, T_y) = rayon::join(
        || -> (t: Vec<E::Scalar>)
            requires
                has_table(r_x@),
            ensures
                is_eq_table(t@, r_x@)
            { eq_values(r_x) },
        || -> (t: Vec<E::Scalar>)
            requires
                has_table(r_y@),
            ensures
                is_eq_table(t@, r_y@)
            { eq_values(r_y) },
    );
    let ghost p = E::Scalar::modulus();
    let ghost ex = traits::vals(T_x@);
    let ghost ey = traits::vals(T_y@);
    proof {
        E::Scalar::lemma_modulus();
        assert(ex.len() == T_x@.len());
        assert(ey.len() == T_y@.len());
    }
    let a = S.A.evaluate_with_tables(T_x.as_slice(), T_y.as_slice());
    let b = S.B.evaluate_with_tables(T_x.as_slice(), T_y.as_slice());
    let c = S.C.evaluate_with_tables(T_x.as_slice(), T_y.as_slice());
    let ghost (xa, xb, xc) = (
        sparse::bilinear(S@.a, ex, ey),
        sparse::bilinear(S@.b, ex, ey),
        sparse::bilinear(S@.c, ex, ey),
    );
    let ghost k = r.val();
    proof {
        modular::lemma_cong_mod(p, xa);
        modular::lemma_cong_mod(p, xb);
        modular::lemma_cong_mod(p, xc);
    }
    let second = mul2(*r, b, Ghost(k), Ghost(xb));
    let rr = mul2(*r, *r, Ghost(k), Ghost(k));
    let third = mul2(rr, c, Ghost(k * k), Ghost(xc));
    let two = add2(a, second, Ghost(xa), Ghost(k * xb));
    add2(two, third, Ghost(xa + k * xb), Ghost(k * k * xc))
}

/// Combines the claims of the outer sum-check with powers of `r`.
pub fn combine_claims<S: ScalarField>(claims: &(S, S, S), r: &S) -> (v: S)
    ensures
        v.val() == joint_claim(
            S::modulus(),
            seq![claims.0.val(), claims.1.val(), claims.2.val()],
            r.val(),
        ),
{
    let (a, b, c) = *claims;
    let ghost (xa, xb, xc) = (a.val(), b.val(), c.val());
    let ghost k = r.val();
    proof {
        S::lemma_modulus();
    }
    let second = mul2(*r, b, Ghost(k), Ghost(xb));
    let rr = mul2(*r, *r, Ghost(k), Ghost(k));
    let third = mul2(rr, c, Ghost(k * k), Ghost(xc));
    let two = add2(a, second, Ghost(xa), Ghost(k * xb));
    add2(two, third, Ghost(xa + k * xb), Ghost(k * k * xc))
}

/// The value of the public half of the table `Z`.
fn evaluate_public<E: SnarkEngine>(
    x: &Vec<E::Scalar>,
    num_vars: usize,
    point: &Vec<E::Scalar>,
) -> (v: E::Scalar)
    requires
        x@.len() < num_vars,
        num_vars == pow2(point@.len()),
    ensures
        v.val() == eval_x_of(
            E::Scalar::modulus(),
            E::hash_mle(),
            traits::vals(x@),
            num_vars as nat,
            traits::vals(point@),
        ),
{
    if E::is_hash_mle() {
        if x.len() == 0 {
            E::Scalar::one()
        } else {
            let table = public_table(x, num_vars);
            assert(x_full(traits::vals(x@), num_vars as nat).len() == num_vars);
            MultilinearPolynomial::new(table).evaluate(point.as_slice())
        }
    } else {
        let mut head: Vec<E::Scalar> = Vec::new();
        head.push(E::Scalar::one());
        append_table(&mut head, x.as_slice());
        assert(traits::vals(head@) =~= seq![1int] + traits::vals(x@));
        SparsePolynomial::new(point.len(), head).evaluate(point.as_slice())
    }
}

impl<E: SnarkEngine> R1CSSNARK<E> {
    /// Checks the inner sum-check and the evaluation argument.
    fn verify_inner(
        &self,
        vk: &SpartanVerifierKey<E>,
        comm_W: &<E::PCS as PCSEngineTrait<E>>::Commitment,
        X: &Vec<E::Scalar>,
        r_x: &Vec<E::Scalar>,
        r: &E::Scalar,
        anchor: &E::Scalar,
    ) -> (result: Result<Vec<E::Scalar>, SpartanError>)
        requires
            pow2(r_x@.len()) == vk.shape().sizes.num_cons,
            X@.len() < vk.shape().sizes.num_vars(),
            traits::vals(X@) == self@.instance.public_values,
        ensures
            match result {
                Ok(v) => verify_inner_of::<E>(
                    vk.key(),
                    vk.shape(),
                    self@,
                    comm_W@,
                    traits::vals(r_x@),
                    r.val(),
                    anchor.val(),
                ) == Ok::<Seq<int>, ErrorModel>(traits::vals(v@)),
                Err(e) => verify_inner_of::<E>(
                    vk.key(),
                    vk.shape(),
                    self@,
                    comm_W@,
                    traits::vals(r_x@),
                    r.val(),
                    anchor.val(),
                ) == Err::<Seq<int>, ErrorModel>(e@),
            },
    {
        let ghost p = E::Scalar::modulus();
        let ghost s = vk.shape();
        vk.S.note_valid();
        let num_vars: usize = vk.S.num_shared + vk.S.num_precommitted + vk.S.num_rest;
        let num_rounds_y: usize = height_of(num_vars) + 1;
        proof {
            E::Scalar::lemma_modulus();
            lemma_height_bits(num_vars as nat);
        }
        // The inner sum-check starts from the claims of the outer one
        if !E::is_hash_mle() && !self.claim_inner_sum.same(
            &combine_claims(&self.claims_outer, r),
        ) {
            return Err(SpartanError::InvalidSumcheckProof);
        }
        // Use the same forks as the prover
        let mut t_sc = start_fork::<E>(&INNER_LABEL, anchor);
        let mut t_pcs = start_fork::<E>(&PCS_LABEL, anchor);
        let (claim_inner_final, r_y) = match self.sc_proof_inner.verify(
            self.claim_inner_sum,
            num_rounds_y,
            2,
            &mut t_sc,
        ) {
            Ok(verified) => verified,
            Err(e) => return Err(e),
        };
        let ghost ry = traits::vals(r_y@);
        proof {
            sumcheck::lemma_verifier_point::<E::Scalar>(
                self@.inner,
                self@.inner_sum,
                2,
                forked::<E::Scalar>(INNER_LABEL@, anchor.val()),
                num_rounds_y as nat,
            );
            assert(ry.len() == r_y@.len());
        }
        // y0 selects between W and X, which are evaluated at y1..
        let gate = r_y[0];
        let ry_no_gate = tail(&r_y);
        assert(traits::vals(ry_no_gate@) =~= ry.skip(1));
        // eval_Z = (1 - y0) * eval_W + y0 * eval_X
        let eval_X = evaluate_public::<E>(X, num_vars, &ry_no_gate);
        let ghost (g, ew, xv) = (gate.val(), self.eval_W.val(), eval_X.val());
        let rest = sub2(E::Scalar::one(), gate, Ghost(1), Ghost(g));
        let from_W = mul2(rest, self.eval_W, Ghost(1 - g), Ghost(ew));
        let from_X = mul2(gate, eval_X, Ghost(g), Ghost(xv));
        let eval_Z = add2(from_W, from_X, Ghost((1 - g) * ew), Ghost(g * xv));
        // compute evaluations of R1CS matrices
        let evals = multi_evaluate(&vk.S, r_x.as_slice(), r_y.as_slice(), r);
        let ghost mv = matrix_value::<E::Scalar>(s, traits::vals(r_x@), ry, r.val());
        let expected = mul2(evals, eval_Z, Ghost(mv), Ghost((1 - g) * ew + g * xv));
        if !claim_inner_final.same(&expected) {
            return Err(SpartanError::InvalidSumcheckProof);
        }
        proof {
            E::PCS::lemma_verify_defined(vk.key(), comm_W@, ry.skip(1), self@.arg);
        }
        match E::PCS::verify(
            &vk.vk_ee,
            &mut t_pcs,
            comm_W,
            ry_no_gate.as_slice(),
            &self.eval_W,
            &self.eval_arg,
        ) {
            Ok(()) => Ok(copy_table(X.as_slice())),
            Err(e) => Err(e),
        }
    }

    /// verifies a proof of satisfiability of an R1CS instance and returns its public values
    pub fn verify(&self, vk: &SpartanVerifierKey<E>) -> (result: Result<
        Vec<E::Scalar>,
        SpartanError,
    >)
        ensures
            match result {
                Ok(v) => verify_of::<E>(vk.key(), vk.shape(), self@) == Ok::<Seq<int>, ErrorModel>(
                    traits::vals(v@),
                ),
                Err(e) => verify_of::<E>(vk.key(), vk.shape(), self@) == Err::<
                    Seq<int>,
                    ErrorModel,
                >(e@),
            },
    {
        let ghost s = vk.shape();
        let ghost pi = self@;
        vk.S.note_valid();
        let mut transcript = Keccak256Transcript::<E>::new(&SNARK_LABEL);
        // append the digest of R1CS matrices
        let digest = match vk.digest() {
            Ok(digest) => digest,
            Err(e) => return Err(e),
        };
        transcript.absorb_bytes(&VK_LABEL, &digest);
        // validate the provided split R1CS instance and convert to regular instance
        match self.U.validate(&vk.S, &mut transcript) {
            Ok(()) => {},
            Err(e) => return Err(e),
        }
        let U_regular = match self.U.to_regular_instance() {
            Ok(u) => u,
            Err(e) => return Err(e),
        };
        let num_rounds_x: usize = height_of(vk.S.num_cons);
        proof {
            layers::lemma_height_pow2(s.sizes.num_cons);
            E::Scalar::lemma_modulus();
        }
        // outer sum-check
        let tau = match transcript.squeeze_n(&TAU_LABEL, num_rounds_x) {
            Ok(tau) => tau,
            Err(e) => return Err(e),
        };
        let ghost taus = traits::vals(tau@);
        let ghost before = transcript@;
        let (claim_outer_final, r_x) = match self.sc_proof_outer.verify(
            E::Scalar::zero(),
            num_rounds_x,
            3,
            &mut transcript,
        ) {
            Ok(verified) => verified,
            Err(e) => return Err(e),
        };
        let ghost rx = traits::vals(r_x@);
        proof {
            sumcheck::lemma_verifier_point::<E::Scalar>(
                pi.outer,
                0,
                3,
                before,
                num_rounds_x as nat,
            );
            assert(rx.len() == r_x@.len());
        }
        // verify claim_outer_final
        let (claim_Az, claim_Bz, claim_Cz) = self.claims_outer;
        let taus_bound_rx = EqPolynomial::new(tau).evaluate(r_x.as_slice());
        let ghost bound = eq::eq_at(taus, rx);
        let ghost (ca, cb, cc) = (claim_Az.val(), claim_Bz.val(), claim_Cz.val());
        proof {
            modular::lemma_cong_mod(E::Scalar::modulus(), bound);
        }
        let product = mul2(claim_Az, claim_Bz, Ghost(ca), Ghost(cb));
        let difference = sub2(product, claim_Cz, Ghost(ca * cb), Ghost(cc));
        let expected = mul2(taus_bound_rx, difference, Ghost(bound), Ghost(ca * cb - cc));
        if !claim_outer_final.same(&expected) {
            return Err(SpartanError::InvalidSumcheckProof);
        }
        absorb_claims(&mut transcript, &self.claims_outer);
        // inner sum-check
        let (r, anchor) = match draw_fork(&mut transcript) {
            Ok(drawn) => drawn,
            Err(e) => return Err(e),
        };
        assert(U_regular.X@.len() == traits::vals(U_regular.X@).len());
        self.verify_inner(vk, &U_regular.comm_W, &U_regular.X, &r_x, &r, &anchor)
    }
}

/// Widths: a scheme is refused for its width exactly if it is a hash-based one and the width is not
/// two, and the engines of this library are not.
pub proof fn law_widths(hash_mle: bool, width: nat)
    ensures
        width_of(hash_mle, width) is Err <==> hash_mle && width != 2,
        width_of(hash_mle, width) matches Err(e) ==> e == ErrorModel::InternalError(
            "Hash-MLE PCS misconfigured: width()="@ + (errors::decimal(width) + " (expected 2)"@),
        ),
        PallasMerkleMleEngine::hash_mle() && <PallasMerkleMleEngine as SnarkEngine>::PCS::width_of()
            == 2,
        VestaMerkleMleEngine::hash_mle() && <VestaMerkleMleEngine as SnarkEngine>::PCS::width_of()
            == 2,
        GoldilocksMerkleMleEngine::hash_mle()
            && <GoldilocksMerkleMleEngine as SnarkEngine>::PCS::width_of() == 2,
        GoldilocksP3MerkleMleEngine::hash_mle()
            && <GoldilocksP3MerkleMleEngine as SnarkEngine>::PCS::width_of() == 2,
{
    let head = "Hash-MLE PCS misconfigured: width()="@;
    assert(head + errors::decimal(width) + " (expected 2)"@ =~= head + (errors::decimal(width)
        + " (expected 2)"@));
}

/// The vector that the matrices are multiplied with, the table of the inner sum-check and the table
/// of the matrices, entry by entry.
///
/// The vector holds the witness, a one, the public values and the challenges. The table is the
/// witness and, in its upper half, what stands for the public values: a hash-based scheme repeats a
/// one or a single public value, and otherwise a one and the public values stand there, followed by
/// the challenges where the scheme is not a hash-based one, and by zeros.
pub proof fn law_tables<S: ScalarField>(
    s: ShapeModel,
    ex: Seq<int>,
    r: int,
    w: Seq<int>,
    x: Seq<int>,
    challenges: Seq<int>,
    i: int,
)
    requires
        w.len() == s.sizes.num_vars(),
        x.len() + challenges.len() < w.len(),
        0 <= i < 2 * w.len(),
    ensures
        ({
            let p = S::modulus();
            let n = w.len() as int;
            let k = i - n;
            let z = z_vector(w, x, challenges);
            let hashed = z_table(true, w, x, challenges, w.len());
            let plain = z_table(false, w, x, challenges, w.len());
            &&& z.len() == n + 1 + x.len() + challenges.len()
            &&& hashed.len() == 2 * n
            &&& plain.len() == 2 * n
            &&& i < n ==> z[i] == w[i] && hashed[i] == w[i] && plain[i] == w[i]
            &&& k == 0 ==> z[i] == 1 && plain[i] == 1
            &&& 0 < k <= x.len() ==> z[i] == x[k - 1] && plain[i] == x[k - 1]
            &&& x.len() < k <= x.len() + challenges.len() ==> z[i] == challenges[k - 1 - x.len()]
                && plain[i] == challenges[k - 1 - x.len()]
            &&& k > x.len() + challenges.len() ==> plain[i] == 0
            &&& k >= 0 && x.len() == 0 ==> hashed[i] == 1
            &&& k >= 0 && x.len() == 1 ==> hashed[i] == x[0]
            &&& k == 0 && x.len() > 1 ==> hashed[i] == 1
            &&& 0 < k <= x.len() && x.len() > 1 ==> hashed[i] == x[k - 1]
            &&& k > x.len() && x.len() > 1 ==> hashed[i] == 0
            &&& abc_of::<S>(s, ex, r).len() == 2 * n
            &&& abc_of::<S>(s, ex, r)[i] == (sparse::times_column(s.a, ex, i) + r
                * sparse::times_column(s.b, ex, i) + r * r * sparse::times_column(s.c, ex, i)) % p
        }),
{
}

/// Transcripts are kept apart: the main one and its two forks start from different states, unless
/// Keccak-256 fails, and a fork is bound to the challenge that it comes from.
pub proof fn law_forks_are_separate<S: ScalarField>(label: Seq<u8>, a: int, b: int)
    requires
        0 <= a < S::modulus(),
        0 <= b < S::modulus(),
    ensures
        ({
            let main = TranscriptModel::start(SNARK_LABEL@).state;
            let inner = TranscriptModel::start(INNER_LABEL@).state;
            let pcs = TranscriptModel::start(PCS_LABEL@).state;
            (main != inner && main != pcs && inner != pcs) || keccak::keccak256_fails()
        }),
        forked::<S>(label, a) == forked::<S>(label, b) ==> a == b,
        forked::<S>(label, a).state == TranscriptModel::start(label).state,
        forked::<S>(label, a).round == 0,
{
    assert(SNARK_LABEL@.len() != INNER_LABEL@.len());
    assert(SNARK_LABEL@.len() != PCS_LABEL@.len());
    assert(INNER_LABEL@.len() != PCS_LABEL@.len());
    if TranscriptModel::start(SNARK_LABEL@).state == TranscriptModel::start(INNER_LABEL@).state {
        keccak::law_start_binds(SNARK_LABEL@, INNER_LABEL@);
    }
    if TranscriptModel::start(SNARK_LABEL@).state == TranscriptModel::start(PCS_LABEL@).state {
        keccak::law_start_binds(SNARK_LABEL@, PCS_LABEL@);
    }
    if TranscriptModel::start(INNER_LABEL@).state == TranscriptModel::start(PCS_LABEL@).state {
        keccak::law_start_binds(INNER_LABEL@, PCS_LABEL@);
    }
    let (x, y) = (forked::<S>(label, a).pending, forked::<S>(label, b).pending);
    let n = ANCHOR_LABEL@.len() as int;
    assert(x.skip(n) =~= S::repr_of(a));
    assert(y.skip(n) =~= S::repr_of(b));
    S::law_encoding_is_injective(a, b);
}

} // verus!
