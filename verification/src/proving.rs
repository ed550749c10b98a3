//! When the prover succeeds.
use crate::errors::ErrorModel;
use crate::polys::multilinear;
use crate::provider::keccak::{self, TranscriptModel};
use crate::provider::pcs::merkle_mle_pc::HashMlePCS;
use crate::provider::pcs::{binding, layers, merkle_tree, sampling};
use crate::provider::GoldilocksP3MerkleMleEngine;
use crate::r1cs::instance::{self, PartialModel};
use crate::r1cs::shape::{self, ShapeModel};
use crate::spartan::{
    self, ArgumentOf, BlindOf, CommitmentKey, CommitmentOf, Committed, PrepOf, ProofOf,
};
use crate::sumcheck;
use crate::traits::{PCSEngineTrait, SnarkEngine};
#[allow(unused_imports)]
use vstd::arithmetic::power2::*;
use vstd::prelude::*;

verus! {

/// The number of pieces of a witness that are committed to: those that are not empty, and the last
/// one.
pub open spec fn piece_count(s: ShapeModel) -> nat {
    (if s.sizes.num_shared > 0 {
        1nat
    } else {
        0
    }) + (if s.sizes.num_precommitted > 0 {
        1nat
    } else {
        0
    }) + 1
}

/// The commitment scheme can do its part for a shape: it commits to a vector of `num_rest` values,
/// puts as many commitments and blinds together as the witness has pieces, and makes an argument
/// for a polynomial of `num_vars` values, or reports `excuse` in place of it.
pub open spec fn scheme_serves<E: SnarkEngine>(
    ck: CommitmentKey<E>,
    s: ShapeModel,
    excuse: Option<ErrorModel>,
) -> bool {
    &&& forall|v: Seq<int>, b: BlindOf<E>|
        v.len() == s.sizes.num_rest ==> #[trigger] E::PCS::commit_partial_of(ck, v, b) is Ok
    &&& forall|blinds: Seq<BlindOf<E>>|
        blinds.len() == piece_count(s) ==> #[trigger] E::PCS::combine_blinds_of(blinds) is Ok
    &&& forall|parts: Seq<PartialModel<E>>|
        parts.len() == piece_count(s) ==> #[trigger] E::PCS::combine_partial_of(parts) is Ok
    &&& forall|
        t: TranscriptModel,
        comm: CommitmentOf<E>,
        poly: Seq<int>,
        blind: BlindOf<E>,
        point: Seq<int>,
        outcome: Result<(int, ArgumentOf<E>), ErrorModel>,
        end: TranscriptModel,
    |
        t.round == 0 && poly.len() == s.sizes.num_vars() && poly.len() == pow2(point.len())
            && #[trigger] E::PCS::proves(ck, t, comm, poly, blind, point, outcome, end)
            ==> outcome is Ok || (excuse matches Some(e) && outcome == Err::<
            (int, ArgumentOf<E>),
            ErrorModel,
        >(e))
}

/// A piece that was committed to is there exactly if it is not empty.
proof fn lemma_piece_is_there<E: SnarkEngine>(
    ck: CommitmentKey<E>,
    v: Seq<int>,
    piece: Option<(PartialModel<E>, BlindOf<E>)>,
)
    requires
        spartan::commits::<E>(ck, v, Ok(piece)),
    ensures
        piece is Some <==> v.len() > 0,
{
    if v.len() > 0 {
        let outcome = Ok::<_, ErrorModel>(piece);
        let b = choose|b: BlindOf<E>|
            E::PCS::is_blind(ck, v.len(), b) && outcome == #[trigger] spartan::piece_of::<E>(
                ck,
                v,
                b,
            );
        assert(outcome == spartan::piece_of::<E>(ck, v, b));
    }
}

/// The prover succeeds: with a prepared state, as many public values as the shape has and a rest of
/// the length that the shape had before padding, it returns a proof, where the commitment scheme
/// does its part and the transcript has a challenge for each that the shape asks for, for each
/// round of the outer sum-check and its weights, and two more. It returns the error of the scheme
/// where the scheme has one.
pub proof fn law_prover_succeeds<E: SnarkEngine>(
    ck: CommitmentKey<E>,
    s: ShapeModel,
    digest: Seq<u8>,
    shared: Seq<int>,
    precommitted: Seq<int>,
    prep: PrepOf<E>,
    public_values: Seq<int>,
    rest: Seq<int>,
    excuse: Option<ErrorModel>,
    outcome: Result<ProofOf<E>, ErrorModel>,
)
    requires
        shape::shape_valid(s),
        scheme_serves::<E>(ck, s, excuse),
        spartan::prepares::<E>(ck, s, shared, precommitted, Ok(prep)),
        public_values.len() == s.sizes.num_public,
        rest.len() == s.unpadded.num_rest,
        s.sizes.num_challenges + 2 * merkle_tree::height(s.sizes.num_cons) + 2 <= 65535,
        spartan::proves::<E>(ck, s, digest, prep, public_values, rest, outcome),
    ensures
        outcome is Ok || (excuse matches Some(e) && outcome == Err::<ProofOf<E>, ErrorModel>(e)),
        outcome matches Ok(pi) ==> {
            &&& pi.instance.public_values == public_values
            &&& pi.instance.challenges == keccak::squeeze_many::<E>(
                spartan::challenge_transcript::<E>(digest, prep, public_values),
                instance::CHALLENGE_LABEL@,
                s.sizes.num_challenges,
            ).values
            &&& pi.instance.challenges.len() == s.sizes.num_challenges
            &&& pi.claims.len() == 3
            &&& pi.outer.len() == merkle_tree::height(s.sizes.num_cons)
            &&& pi.inner.len() == merkle_tree::height(s.sizes.num_vars()) + 1
        },
{
    let v1 = multilinear::zero_padded(shared, s.sizes.num_shared);
    let v2 = multilinear::zero_padded(precommitted, s.sizes.num_precommitted);
    let padded = multilinear::zero_padded(rest, s.sizes.num_rest);
    lemma_piece_is_there::<E>(ck, v1, prep.shared);
    lemma_piece_is_there::<E>(ck, v2, prep.precommitted);
    let t = spartan::challenge_transcript::<E>(digest, prep, public_values);
    assert(t.round == 0);
    keccak::law_challenges::<E>(t, instance::CHALLENGE_LABEL@, s.sizes.num_challenges);
    assert(prep.witness.len() == s.sizes.num_shared + s.sizes.num_precommitted);
    assert(spartan::challenges_of::<E>(s, digest, prep, public_values, rest) is Ok);
    let c = spartan::challenges_of::<E>(s, digest, prep, public_values, rest)->Ok_0;
    let b = choose|b: BlindOf<E>|
        E::PCS::is_blind(ck, s.sizes.num_rest, b) && #[trigger] spartan::proves_with::<E>(
            ck,
            s,
            prep,
            public_values,
            rest,
            c,
            b,
            outcome,
        );
    let made = E::PCS::commit_partial_of(ck, padded, b);
    assert(made is Ok);
    let used = made->Ok_0.1;
    let blinds = spartan::blind_part(prep.shared) + spartan::blind_part(prep.precommitted) + seq![
        used,
    ];
    assert(blinds.len() == piece_count(s));
    assert(E::PCS::combine_blinds_of(blinds) is Ok);
    let committed = spartan::committed_of::<E>(
        ck,
        s,
        prep,
        public_values,
        rest,
        c,
        b,
    )->Ok_0;
    lemma_relation_succeeds::<E>(ck, s, committed, excuse, outcome);
}

/// The part of the prover behind the commitment to the rest succeeds.
proof fn lemma_relation_succeeds<E: SnarkEngine>(
    ck: CommitmentKey<E>,
    s: ShapeModel,
    c: Committed<PartialModel<E>, BlindOf<E>>,
    excuse: Option<ErrorModel>,
    outcome: Result<ProofOf<E>, ErrorModel>,
)
    requires
        shape::shape_valid(s),
        scheme_serves::<E>(ck, s, excuse),
        c.instance.shared is Some <==> s.sizes.num_shared > 0,
        c.instance.precommitted is Some <==> s.sizes.num_precommitted > 0,
        c.instance.public_values.len() == s.sizes.num_public,
        c.instance.challenges.len() == s.sizes.num_challenges,
        c.witness.len() == s.sizes.num_vars(),
        c.end.round + 2 * merkle_tree::height(s.sizes.num_cons) + 2 <= 65535,
        spartan::relates::<E>(ck, s, c, outcome),
    ensures
        outcome is Ok || (excuse matches Some(e) && outcome == Err::<ProofOf<E>, ErrorModel>(e)),
        outcome matches Ok(pi) ==> {
            &&& pi.instance == c.instance
            &&& pi.claims.len() == 3
            &&& pi.outer.len() == merkle_tree::height(s.sizes.num_cons)
            &&& pi.inner.len() == merkle_tree::height(s.sizes.num_vars()) + 1
        },
{
    let u = c.instance;
    let w = c.witness;
    let parts = instance::parts(u);
    assert(parts.len() == piece_count(s));
    assert(E::PCS::combine_partial_of(parts) is Ok);
    let z = spartan::z_vector(w, u.public_values, u.challenges);
    assert(z.len() == s.sizes.num_cols());
    let n = merkle_tree::height(s.sizes.num_cons);
    let tau = keccak::squeeze_many::<E>(c.end, spartan::TAU_LABEL@, n);
    keccak::law_challenges::<E>(c.end, spartan::TAU_LABEL@, n);
    let tables = spartan::outer_tables::<E::Scalar>(s, tau.values, z);
    sumcheck::law_prover_comes_to_the_end::<E::Scalar>(tables, 0, tau.end, n);
    let run = sumcheck::prover_run::<E::Scalar>(tables, 0, tau.end, n);
    sumcheck::lemma_prover_prefix::<E::Scalar>(tables, 0, tau.end, n, n);
    assert(spartan::outer_of::<E>(s, c.end, z) is Ok);
    let outer = spartan::outer_of::<E>(s, c.end, z)->Ok_0;
    let m = merkle_tree::height(s.sizes.num_vars()) + 1;
    spartan::lemma_height_bits(s.sizes.num_vars());
    let p = <E::Scalar as crate::traits::ScalarField>::modulus();
    let abc = spartan::abc_of::<E::Scalar>(
        s,
        crate::polys::eq::eq_table(p, outer.run.point),
        outer.r,
    );
    let zt = spartan::z_table(
        E::hash_mle(),
        w,
        u.public_values,
        u.challenges,
        s.sizes.num_vars(),
    );
    let sum = spartan::dot(p, abc, zt);
    let fork = spartan::forked::<E::Scalar>(spartan::INNER_LABEL@, outer.anchor);
    sumcheck::law_prover_comes_to_the_end::<E::Scalar>(seq![abc, zt], sum, fork, m);
    sumcheck::lemma_prover_prefix::<E::Scalar>(seq![abc, zt], sum, fork, m, m);
    assert(spartan::reduction_of::<E>(s, u, w, c.end) is Ok);
    let d = spartan::reduction_of::<E>(s, u, w, c.end)->Ok_0;
    let (argued, end) = choose|
        argued: Result<(int, ArgumentOf<E>), ErrorModel>,
        end: TranscriptModel,
    |
        #[trigger] spartan::argues::<E>(ck, d, w, c.blind, argued, end) && outcome
            == spartan::proof_of::<E>(u, d, argued);
    let point = d.inner.point.skip(1);
    assert(point.len() == merkle_tree::height(s.sizes.num_vars()));
    assert(w.len() == pow2(point.len()));
    let pcs = spartan::forked::<E::Scalar>(spartan::PCS_LABEL@, d.outer.anchor);
    assert(pcs.round == 0);
    assert(E::PCS::proves(ck, pcs, d.comm, w, c.blind, point, argued, end));
}

/// The scheme over Keccak-256 does its part for every shape whose witness is a single piece.
pub proof fn law_keccak_scheme_serves<E: SnarkEngine<PCS = HashMlePCS<E>>>(
    ck: CommitmentKey<E>,
    s: ShapeModel,
)
    requires
        shape::shape_valid(s),
        s.sizes.num_shared == 0,
        s.sizes.num_precommitted == 0,
    ensures
        scheme_serves::<E>(ck, s, None),
{
    let n = s.sizes.num_vars();
    spartan::lemma_height_bits(n);
    binding::law_tree_sizes(n);
    assert forall|
        t: TranscriptModel,
        comm: CommitmentOf<E>,
        poly: Seq<int>,
        blind: BlindOf<E>,
        point: Seq<int>,
        outcome: Result<(int, ArgumentOf<E>), ErrorModel>,
        end: TranscriptModel,
    |
        t.round == 0 && poly.len() == n && poly.len() == pow2(point.len())
            && #[trigger] E::PCS::proves(
            ck,
            t,
            comm,
            poly,
            blind,
            point,
            outcome,
            end,
        ) implies outcome is Ok by {
        let h = merkle_tree::height(n);
        layers::lemma_pow2_shape(point.len());
        assert(point.len() == h);
        sampling::law_prover_succeeds::<E>(ck, t, comm, poly, point, outcome, end);
    }
}

/// The scheme over Poseidon2 does its part for every shape whose witness is a single piece, unless
/// the transcript is used up by challenges that are thrown away.
pub proof fn law_poseidon_scheme_serves(
    ck: CommitmentKey<GoldilocksP3MerkleMleEngine>,
    s: ShapeModel,
)
    requires
        shape::shape_valid(s),
        s.sizes.num_shared == 0,
        s.sizes.num_precommitted == 0,
    ensures
        scheme_serves::<GoldilocksP3MerkleMleEngine>(
            ck,
            s,
            Some(ErrorModel::InternalTranscriptError),
        ),
{
    let n = s.sizes.num_vars();
    binding::law_tree_sizes(n);
    assert forall|
        t: TranscriptModel,
        comm: CommitmentOf<GoldilocksP3MerkleMleEngine>,
        poly: Seq<int>,
        blind: BlindOf<GoldilocksP3MerkleMleEngine>,
        point: Seq<int>,
        outcome: Result<(int, ArgumentOf<GoldilocksP3MerkleMleEngine>), ErrorModel>,
        end: TranscriptModel,
    |
        t.round == 0 && poly.len() == n && poly.len() == pow2(point.len())
            && #[trigger] <GoldilocksP3MerkleMleEngine as SnarkEngine>::PCS::proves(
            ck,
            t,
            comm,
            poly,
            blind,
            point,
            outcome,
            end,
        ) implies outcome is Ok || outcome == Err::<
        (int, ArgumentOf<GoldilocksP3MerkleMleEngine>),
        ErrorModel,
    >(ErrorModel::InternalTranscriptError) by {
        sampling::law_prover_succeeds_p3::<GoldilocksP3MerkleMleEngine>(
            ck,
            t,
            comm,
            poly,
            point,
            outcome,
            end,
        );
    }
}

/// The prover of an engine over Keccak-256 returns a proof for every witness of the right lengths,
/// if the witness is a single piece and the challenges suffice.
pub proof fn law_keccak_prover_succeeds<E: SnarkEngine<PCS = HashMlePCS<E>>>(
    ck: CommitmentKey<E>,
    s: ShapeModel,
    digest: Seq<u8>,
    prepared: Result<PrepOf<E>, ErrorModel>,
    public_values: Seq<int>,
    rest: Seq<int>,
    outcome: Result<ProofOf<E>, ErrorModel>,
)
    requires
        shape::shape_valid(s),
        s.sizes.num_shared == 0,
        s.sizes.num_precommitted == 0,
        spartan::prepares::<E>(ck, s, Seq::empty(), Seq::empty(), prepared),
        public_values.len() == s.sizes.num_public,
        rest.len() == s.unpadded.num_rest,
        s.sizes.num_challenges + 2 * merkle_tree::height(s.sizes.num_cons) + 2 <= 65535,
        prepared matches Ok(prep) ==> spartan::proves::<E>(
            ck,
            s,
            digest,
            prep,
            public_values,
            rest,
            outcome,
        ),
    ensures
        prepared is Ok,
        outcome is Ok,
{
    law_preparation_succeeds::<E>(ck, s, Seq::empty(), Seq::empty(), prepared);
    law_keccak_scheme_serves::<E>(ck, s);
    law_prover_succeeds::<E>(
        ck,
        s,
        digest,
        Seq::empty(),
        Seq::empty(),
        prepared->Ok_0,
        public_values,
        rest,
        None,
        outcome,
    );
}

/// The prover of the engine over Poseidon2 returns a proof for every witness of the right lengths,
/// if the witness is a single piece and the challenges suffice; the only other outcome is that the
/// transcript is used up.
pub proof fn law_poseidon_prover_succeeds(
    ck: CommitmentKey<GoldilocksP3MerkleMleEngine>,
    s: ShapeModel,
    digest: Seq<u8>,
    prepared: Result<PrepOf<GoldilocksP3MerkleMleEngine>, ErrorModel>,
    public_values: Seq<int>,
    rest: Seq<int>,
    outcome: Result<ProofOf<GoldilocksP3MerkleMleEngine>, ErrorModel>,
)
    requires
        shape::shape_valid(s),
        s.sizes.num_shared == 0,
        s.sizes.num_precommitted == 0,
        spartan::prepares::<GoldilocksP3MerkleMleEngine>(
            ck,
            s,
            Seq::empty(),
            Seq::empty(),
            prepared,
        ),
        public_values.len() == s.sizes.num_public,
        rest.len() == s.unpadded.num_rest,
        s.sizes.num_challenges + 2 * merkle_tree::height(s.sizes.num_cons) + 2 <= 65535,
        prepared matches Ok(prep) ==> spartan::proves::<GoldilocksP3MerkleMleEngine>(
            ck,
            s,
            digest,
            prep,
            public_values,
            rest,
            outcome,
        ),
    ensures
        prepared is Ok,
        outcome is Ok || outcome == Err::<ProofOf<GoldilocksP3MerkleMleEngine>, ErrorModel>(
            ErrorModel::InternalTranscriptError,
        ),
{
    law_preparation_succeeds::<GoldilocksP3MerkleMleEngine>(
        ck,
        s,
        Seq::empty(),
        Seq::empty(),
        prepared,
    );
    law_poseidon_scheme_serves(ck, s);
    law_prover_succeeds::<GoldilocksP3MerkleMleEngine>(
        ck,
        s,
        digest,
        Seq::empty(),
        Seq::empty(),
        prepared->Ok_0,
        public_values,
        rest,
        Some(ErrorModel::InternalTranscriptError),
        outcome,
    );
}

/// Preparation fails only for vectors of other lengths than the shape had before padding, or where
/// a piece cannot be committed to. What is prepared is the two vectors, each filled up with zeros,
/// and a commitment to each that is not empty.
pub proof fn law_preparation_succeeds<E: SnarkEngine>(
    ck: CommitmentKey<E>,
    s: ShapeModel,
    shared: Seq<int>,
    precommitted: Seq<int>,
    outcome: Result<PrepOf<E>, ErrorModel>,
)
    requires
        shape::shape_valid(s),
        spartan::prepares::<E>(ck, s, shared, precommitted, outcome),
    ensures
        ({
            let fits = shared.len() == s.unpadded.num_shared && precommitted.len()
                == s.unpadded.num_precommitted;
            let v1 = shape::filled(shared, s.sizes.num_shared);
            let v2 = shape::filled(precommitted, s.sizes.num_precommitted);
            &&& !fits ==> outcome == Err::<PrepOf<E>, ErrorModel>(ErrorModel::InvalidWitnessLength)
            &&& fits && v1.len() == 0 && v2.len() == 0 ==> outcome is Ok
            &&& fits ==> (outcome matches Err(e) ==> {
                ||| exists|b: BlindOf<E>| #[trigger] E::PCS::commit_partial_of(ck, v1, b) == Err::<
                    (PartialModel<E>, BlindOf<E>),
                    ErrorModel,
                >(e)
                ||| exists|b: BlindOf<E>| #[trigger] E::PCS::commit_partial_of(ck, v2, b) == Err::<
                    (PartialModel<E>, BlindOf<E>),
                    ErrorModel,
                >(e)
            })
            &&& outcome matches Ok(prep) ==> {
                &&& fits
                &&& prep.witness == v1 + v2
                &&& prep.shared is Some <==> v1.len() > 0
                &&& prep.precommitted is Some <==> v2.len() > 0
                &&& prep.shared matches Some(c) ==> exists|b: BlindOf<E>|
                    #[trigger] E::PCS::commit_partial_of(ck, v1, b) == Ok::<_, ErrorModel>(c)
                &&& prep.precommitted matches Some(c) ==> exists|b: BlindOf<E>|
                    #[trigger] E::PCS::commit_partial_of(ck, v2, b) == Ok::<_, ErrorModel>(c)
            }
        }),
{
    let w1 = multilinear::zero_padded(shared, s.sizes.num_shared);
    let w2 = multilinear::zero_padded(precommitted, s.sizes.num_precommitted);
    if shared.len() == s.unpadded.num_shared && precommitted.len()
        == s.unpadded.num_precommitted {
        assert(w1 =~= shape::filled(shared, s.sizes.num_shared));
        assert(w2 =~= shape::filled(precommitted, s.sizes.num_precommitted));
        match outcome {
            Ok(prep) => {
                lemma_piece_source::<E>(ck, w1, Ok(prep.shared));
                lemma_piece_source::<E>(ck, w2, Ok(prep.precommitted));
            },
            Err(e) => {
                if spartan::commits::<E>(ck, w1, Err(e)) {
                    lemma_piece_source::<E>(ck, w1, Err(e));
                } else {
                    lemma_piece_source::<E>(ck, w2, Err(e));
                }
            },
        }
    }
}

/// What comes of a commitment to a piece comes from the commitment scheme.
proof fn lemma_piece_source<E: SnarkEngine>(
    ck: CommitmentKey<E>,
    v: Seq<int>,
    outcome: Result<Option<(PartialModel<E>, BlindOf<E>)>, ErrorModel>,
)
    requires
        spartan::commits::<E>(ck, v, outcome),
    ensures
        v.len() == 0 ==> outcome == Ok::<Option<(PartialModel<E>, BlindOf<E>)>, ErrorModel>(None),
        v.len() > 0 ==> match outcome {
            Ok(piece) => piece is Some && exists|b: BlindOf<E>|
                #[trigger] E::PCS::commit_partial_of(ck, v, b) == Ok::<_, ErrorModel>(
                    piece->Some_0,
                ),
            Err(e) => exists|b: BlindOf<E>| #[trigger] E::PCS::commit_partial_of(ck, v, b) == Err::<
                (PartialModel<E>, BlindOf<E>),
                ErrorModel,
            >(e),
        },
{
    if v.len() > 0 {
        let b = choose|b: BlindOf<E>|
            E::PCS::is_blind(ck, v.len(), b) && outcome == #[trigger] spartan::piece_of::<E>(
                ck,
                v,
                b,
            );
        assert(outcome == spartan::piece_of::<E>(ck, v, b));
        let made = E::PCS::commit_partial_of(ck, v, b);
        assert(made is Ok || made is Err);
    }
}

/// The prover refuses a prepared state or a rest of another length than the shape asks for, before
/// it does anything else; it never returns a proof for another number of public values than the
/// shape has; and it reports a transcript that does not give the challenges of the shape.
pub proof fn law_other_lengths_are_refused<E: SnarkEngine>(
    ck: CommitmentKey<E>,
    s: ShapeModel,
    digest: Seq<u8>,
    prep: PrepOf<E>,
    public_values: Seq<int>,
    rest: Seq<int>,
    outcome: Result<ProofOf<E>, ErrorModel>,
)
    requires
        shape::shape_valid(s),
        spartan::proves::<E>(ck, s, digest, prep, public_values, rest, outcome),
    ensures
        ({
            let fits = rest.len() == s.unpadded.num_rest && prep.witness.len()
                == s.sizes.num_shared + s.sizes.num_precommitted;
            &&& !fits ==> outcome == Err::<ProofOf<E>, ErrorModel>(ErrorModel::InvalidWitnessLength)
            &&& fits && s.sizes.num_challenges > 65535 ==> outcome == Err::<ProofOf<E>, ErrorModel>(
                ErrorModel::InternalTranscriptError,
            )
            &&& public_values.len() != s.sizes.num_public ==> outcome is Err
        }),
{
    let t = spartan::challenge_transcript::<E>(digest, prep, public_values);
    keccak::law_challenges::<E>(t, instance::CHALLENGE_LABEL@, s.sizes.num_challenges);
}

/// Why a prepared prover fails where the commitment scheme does its part: for another number of
/// public values than the shape has, as a witness of the wrong length, and for want of challenges
/// otherwise.
pub proof fn law_prover_refuses_with<E: SnarkEngine>(
    ck: CommitmentKey<E>,
    s: ShapeModel,
    digest: Seq<u8>,
    shared: Seq<int>,
    precommitted: Seq<int>,
    prep: PrepOf<E>,
    public_values: Seq<int>,
    rest: Seq<int>,
    excuse: Option<ErrorModel>,
    outcome: Result<ProofOf<E>, ErrorModel>,
)
    requires
        shape::shape_valid(s),
        scheme_serves::<E>(ck, s, excuse),
        spartan::prepares::<E>(ck, s, shared, precommitted, Ok(prep)),
        rest.len() == s.unpadded.num_rest,
        spartan::proves::<E>(ck, s, digest, prep, public_values, rest, outcome),
    ensures
        ({
            let n = s.sizes.num_challenges;
            let h = merkle_tree::height(s.sizes.num_cons);
            let weighted = n + h <= 65535;
            let counted = public_values.len() == s.sizes.num_public;
            &&& !weighted ==> outcome == Err::<ProofOf<E>, ErrorModel>(
                ErrorModel::InternalTranscriptError,
            )
            &&& weighted && !counted ==> outcome == Err::<ProofOf<E>, ErrorModel>(
                ErrorModel::InvalidWitnessLength,
            )
            &&& weighted && counted && n + 2 * h + 2 > 65535 ==> outcome == Err::<
                ProofOf<E>,
                ErrorModel,
            >(ErrorModel::InternalTranscriptError)
        }),
{
    let v1 = multilinear::zero_padded(shared, s.sizes.num_shared);
    let v2 = multilinear::zero_padded(precommitted, s.sizes.num_precommitted);
    let padded = multilinear::zero_padded(rest, s.sizes.num_rest);
    lemma_piece_is_there::<E>(ck, v1, prep.shared);
    lemma_piece_is_there::<E>(ck, v2, prep.precommitted);
    let t = spartan::challenge_transcript::<E>(digest, prep, public_values);
    assert(t.round == 0);
    keccak::law_challenges::<E>(t, instance::CHALLENGE_LABEL@, s.sizes.num_challenges);
    assert(prep.witness.len() == s.sizes.num_shared + s.sizes.num_precommitted);
    if s.sizes.num_challenges <= 65535 {
        assert(spartan::challenges_of::<E>(s, digest, prep, public_values, rest) is Ok);
        let c = spartan::challenges_of::<E>(s, digest, prep, public_values, rest)->Ok_0;
        let b = choose|b: BlindOf<E>|
            E::PCS::is_blind(ck, s.sizes.num_rest, b) && #[trigger] spartan::proves_with::<E>(
                ck,
                s,
                prep,
                public_values,
                rest,
                c,
                b,
                outcome,
            );
        let made = E::PCS::commit_partial_of(ck, padded, b);
        assert(made is Ok);
        let blinds = spartan::blind_part(prep.shared) + spartan::blind_part(prep.precommitted)
            + seq![made->Ok_0.1];
        assert(blinds.len() == piece_count(s));
        assert(E::PCS::combine_blinds_of(blinds) is Ok);
        let committed = spartan::committed_of::<E>(
            ck,
            s,
            prep,
            public_values,
            rest,
            c,
            b,
        )->Ok_0;
        let u = committed.instance;
        let parts = instance::parts(u);
        assert(parts.len() == piece_count(s));
        assert(E::PCS::combine_partial_of(parts) is Ok);
        let n = merkle_tree::height(s.sizes.num_cons);
        let z = spartan::z_vector(committed.witness, public_values, u.challenges);
        assert(z.len() == s.sizes.num_vars() + 1 + public_values.len() + s.sizes.num_challenges);
        let tau = keccak::squeeze_many::<E>(committed.end, spartan::TAU_LABEL@, n);
        keccak::law_challenges::<E>(committed.end, spartan::TAU_LABEL@, n);
        if tau.complete {
            let tables = spartan::outer_tables::<E::Scalar>(s, tau.values, z);
            sumcheck::law_prover_comes_to_the_end::<E::Scalar>(tables, 0, tau.end, n);
        }
    }
}

} // verus!
