//! Instances of constraint systems: commitments to the pieces of a witness and public values.
use super::shape::{Sizes, SplitR1CSShape};
use crate::digest;
use crate::errors::{self, ErrorModel, SpartanError};
use crate::polys::multilinear::copy_table;
use crate::provider::keccak::{self, Keccak256Transcript, TranscriptModel};
use crate::traits::{self, scalar_bytes, PCSEngineTrait, ScalarField, SnarkEngine};
use vstd::prelude::*;
#[allow(unused_imports)]
use vstd::string::*;

verus! {

/// Label of the public values in the transcript ("public_values").
pub const PUBLIC_VALUES_LABEL: [u8; 13] = [
    112, 117, 98, 108, 105, 99, 95, 118, 97, 108, 117, 101, 115,
];

/// Label of the commitment to the shared variables ("comm_W_shared").
pub const COMM_W_SHARED_LABEL: [u8; 13] = [
    99, 111, 109, 109, 95, 87, 95, 115, 104, 97, 114, 101, 100,
];

/// Label of the commitment to the precommitted variables ("comm_W_precommitted").
pub const COMM_W_PRECOMMITTED_LABEL: [u8; 19] = [
    99, 111, 109, 109, 95, 87, 95, 112, 114, 101, 99, 111, 109, 109, 105, 116, 116, 101, 100,
];

/// Label of the commitment to the other variables ("comm_W_rest").
pub const COMM_W_REST_LABEL: [u8; 11] = [99, 111, 109, 109, 95, 87, 95, 114, 101, 115, 116];

/// Label of the challenges that a constraint system uses ("challenge").
pub const CHALLENGE_LABEL: [u8; 9] = [99, 104, 97, 108, 108, 101, 110, 103, 101];

/// The commitment to a piece of a witness.
pub type PartialCommitment<E> = <<E as SnarkEngine>::PCS as PCSEngineTrait<E>>::PartialCommitment;

/// What the commitment to a piece of a witness says.
pub type PartialModel<E> = <PartialCommitment<E> as View>::V;

/// What an instance says.
pub struct InstanceModel<V> {
    /// The commitment to the shared variables.
    pub shared: Option<V>,
    /// The commitment to the precommitted variables.
    pub precommitted: Option<V>,
    /// The commitment to the other variables.
    pub rest: V,
    /// The public values.
    pub public_values: Seq<int>,
    /// The challenges.
    pub challenges: Seq<int>,
}

/// An instance of a constraint system whose witness is committed to in pieces.
pub struct SplitR1CSInstance<E: SnarkEngine> {
    /// The commitment to the shared variables, where there are any.
    pub comm_W_shared: Option<PartialCommitment<E>>,
    /// The commitment to the precommitted variables, where there are any.
    pub comm_W_precommitted: Option<PartialCommitment<E>>,
    /// The commitment to the other variables.
    pub comm_W_rest: PartialCommitment<E>,
    /// The public values.
    pub public_values: Vec<E::Scalar>,
    /// The challenges.
    pub challenges: Vec<E::Scalar>,
}

/// What an optional commitment says.
pub open spec fn option_view<T: View>(o: Option<T>) -> Option<T::V> {
    match o {
        Some(x) => Some(x@),
        None => None,
    }
}

impl<E: SnarkEngine> View for SplitR1CSInstance<E> {
    type V = InstanceModel<PartialModel<E>>;

    open spec fn view(&self) -> InstanceModel<PartialModel<E>> {
        InstanceModel {
            shared: option_view(self.comm_W_shared),
            precommitted: option_view(self.comm_W_precommitted),
            rest: self.comm_W_rest@,
            public_values: traits::vals(self.public_values@),
            challenges: traits::vals(self.challenges@),
        }
    }
}

/// An instance with a single commitment.
pub struct R1CSInstance<E: SnarkEngine> {
    /// The commitment to the witness.
    pub comm_W: <E::PCS as PCSEngineTrait<E>>::Commitment,
    /// The public values.
    pub X: Vec<E::Scalar>,
}

/// The commitments to the pieces of the witness.
pub open spec fn parts<V>(u: InstanceModel<V>) -> Seq<V> {
    let shared = match u.shared {
        Some(c) => seq![c],
        None => Seq::empty(),
    };
    let precommitted = match u.precommitted {
        Some(c) => seq![c],
        None => Seq::empty(),
    };
    shared + precommitted + seq![u.rest]
}

/// Binds the commitment to a piece that a shape of this size must have.
pub open spec fn bind_piece<E: SnarkEngine>(
    n: nat,
    c: Option<PartialModel<E>>,
    label: Seq<u8>,
    missing: Seq<char>,
    t: TranscriptModel,
) -> (Result<(), ErrorModel>, TranscriptModel) {
    if n == 0 {
        (Ok(()), t)
    } else {
        match c {
            None => (Err(ErrorModel::ProofVerifyError(missing)), t),
            Some(c) => match E::PCS::check_partial_of(c, n) {
                Err(e) => (Err(e), t),
                Ok(()) => (Ok(()), t.absorb(label, E::PCS::partial_bytes(c))),
            },
        }
    }
}

/// What the check of an instance against a shape finds, and the transcript that is left.
pub open spec fn validate_of<E: SnarkEngine>(
    s: Sizes,
    u: InstanceModel<PartialModel<E>>,
    t: TranscriptModel,
) -> (Result<(), ErrorModel>, TranscriptModel) {
    if u.public_values.len() != s.num_public {
        (
            Err(
                ErrorModel::InvalidInputLength(
                    "SplitR1CSInstance: wrong number of public values"@,
                ),
            ),
            t,
        )
    } else if u.challenges.len() != s.num_challenges {
        (
            Err(
                ErrorModel::InvalidInputLength("SplitR1CSInstance: wrong number of challenges"@),
            ),
            t,
        )
    } else {
        let t0 = t.absorb(
            PUBLIC_VALUES_LABEL@,
            traits::scalar_reprs::<E::Scalar>(u.public_values),
        );
        let (r1, t1) = bind_piece::<E>(
            s.num_shared,
            u.shared,
            COMM_W_SHARED_LABEL@,
            "comm_W_shared is missing"@,
            t0,
        );
        let (r2, t2) = bind_piece::<E>(
            s.num_precommitted,
            u.precommitted,
            COMM_W_PRECOMMITTED_LABEL@,
            "comm_W_precommitted is missing"@,
            t1,
        );
        let c = keccak::squeeze_many::<E>(t2, CHALLENGE_LABEL@, s.num_challenges);
        if r1 is Err {
            (r1, t1)
        } else if r2 is Err {
            (r2, t2)
        } else if !c.complete {
            (Err(ErrorModel::InternalTranscriptError), c.end)
        } else if c.values != u.challenges {
            (Err(ErrorModel::ProofVerifyError("Challenges do not match"@)), c.end)
        } else {
            match E::PCS::check_partial_of(u.rest, s.num_rest) {
                Err(e) => (Err(e), c.end),
                Ok(()) => (
                    Ok(()),
                    c.end.absorb(COMM_W_REST_LABEL@, E::PCS::partial_bytes(u.rest)),
                ),
            }
        }
    }
}

/// Binds the commitment to a piece that a shape of this size must have.
fn bind<E: SnarkEngine>(
    n: usize,
    c: &Option<PartialCommitment<E>>,
    label: &[u8],
    missing: &str,
    transcript: &mut Keccak256Transcript<E>,
) -> (r: Result<(), SpartanError>)
    ensures
        (errors::outcome(r), final(transcript)@) == bind_piece::<E>(
            n as nat,
            option_view(*c),
            label@,
            missing@,
            old(transcript)@,
        ),
{
    if n == 0 {
        return Ok(());
    }
    match c {
        None => Err(SpartanError::ProofVerifyError { reason: missing.to_string() }),
        Some(c) => match E::PCS::check_partial(c, n) {
            Err(e) => Err(e),
            Ok(()) => {
                proof {
                    E::PCS::lemma_partial_bytes(*c);
                }
                transcript.absorb(label, c);
                Ok(())
            },
        },
    }
}

/// Whether two vectors stand for the same integers.
pub(crate) fn same_scalars<S: ScalarField>(a: &Vec<S>, b: &Vec<S>) -> (r: bool)
    ensures
        r == (traits::vals(a@) == traits::vals(b@)),
{
    if a.len() != b.len() {
        assert(traits::vals(a@).len() != traits::vals(b@).len());
        return false;
    }
    for i in 0..a.len()
        invariant
            a@.len() == b@.len(),
            forall|j: int| 0 <= j < i ==> (#[trigger] a@[j]).val() == b@[j].val(),
    {
        if !a[i].same(&b[i]) {
            assert(traits::vals(a@)[i as int] != traits::vals(b@)[i as int]);
            return false;
        }
    }
    assert(traits::vals(a@) =~= traits::vals(b@));
    true
}

impl<E: SnarkEngine> SplitR1CSInstance<E> {
    /// Checks that the instance fits the shape, and binds it to the transcript.
    pub fn validate(
        &self,
        S: &SplitR1CSShape<E>,
        transcript: &mut Keccak256Transcript<E>,
    ) -> (r: Result<(), SpartanError>)
        ensures
            (errors::outcome(r), final(transcript)@) == validate_of::<E>(
                S@.sizes,
                self@,
                old(transcript)@,
            ),
    {
        S.note_valid();
        if self.public_values.len() != S.num_public {
            return Err(
                SpartanError::InvalidInputLength {
                    reason: "SplitR1CSInstance: wrong number of public values".to_string(),
                },
            );
        }
        if self.challenges.len() != S.num_challenges {
            return Err(
                SpartanError::InvalidInputLength {
                    reason: "SplitR1CSInstance: wrong number of challenges".to_string(),
                },
            );
        }
        let bytes = scalar_bytes(self.public_values.as_slice());
        transcript.absorb_bytes(&PUBLIC_VALUES_LABEL, bytes.as_slice());
        match bind::<E>(
            S.num_shared,
            &self.comm_W_shared,
            &COMM_W_SHARED_LABEL,
            "comm_W_shared is missing",
            transcript,
        ) {
            Ok(()) => {},
            Err(e) => return Err(e),
        }
        match bind::<E>(
            S.num_precommitted,
            &self.comm_W_precommitted,
            &COMM_W_PRECOMMITTED_LABEL,
            "comm_W_precommitted is missing",
            transcript,
        ) {
            Ok(()) => {},
            Err(e) => return Err(e),
        }
        // the challenges must be the ones that the transcript gives
        let challenges = match transcript.squeeze_n(&CHALLENGE_LABEL, S.num_challenges) {
            Ok(challenges) => challenges,
            Err(e) => return Err(e),
        };
        if !same_scalars(&challenges, &self.challenges) {
            return Err(
                SpartanError::ProofVerifyError { reason: "Challenges do not match".to_string() },
            );
        }
        match E::PCS::check_partial(&self.comm_W_rest, S.num_rest) {
            Ok(()) => {},
            Err(e) => return Err(e),
        }
        proof {
            E::PCS::lemma_partial_bytes(self.comm_W_rest);
        }
        transcript.absorb(&COMM_W_REST_LABEL, &self.comm_W_rest);
        Ok(())
    }

    /// Puts the commitments to the pieces together.
    pub fn to_regular_instance(&self) -> (r: Result<R1CSInstance<E>, SpartanError>)
        ensures
            match r {
                Ok(u) => {
                    &&& E::PCS::combine_partial_of(parts(self@)) == Ok::<_, ErrorModel>(u.comm_W@)
                    &&& traits::vals(u.X@) == self@.public_values
                },
                Err(e) => E::PCS::combine_partial_of(parts(self@)) == Err::<
                    <<E::PCS as PCSEngineTrait<E>>::Commitment as View>::V,
                    ErrorModel,
                >(e@),
            },
    {
        let mut partial_comms: Vec<PartialCommitment<E>> = Vec::new();
        match &self.comm_W_shared {
            Some(c) => partial_comms.push(E::PCS::copy_partial(c)),
            None => {},
        }
        match &self.comm_W_precommitted {
            Some(c) => partial_comms.push(E::PCS::copy_partial(c)),
            None => {},
        }
        partial_comms.push(E::PCS::copy_partial(&self.comm_W_rest));
        assert(traits::views(partial_comms@) =~= parts(self@));
        match E::PCS::combine_partial(partial_comms.as_slice()) {
            Ok(comm_W) => Ok(
                R1CSInstance {
                    comm_W,
                    X: copy_table(self.public_values.as_slice()),
                },
            ),
            Err(e) => Err(e),
        }
    }
}

/// The transcript after the commitment to a piece of `n` values; an empty piece leaves no trace.
pub open spec fn with_piece<E: SnarkEngine>(
    t: TranscriptModel,
    n: nat,
    label: Seq<u8>,
    c: Option<PartialModel<E>>,
) -> TranscriptModel {
    if n > 0 {
        t.absorb(label, E::PCS::partial_bytes(c->Some_0))
    } else {
        t
    }
}

/// An instance is valid exactly if it has as many public values and challenges as the shape, a
/// commitment that fits to each piece that is not empty, and the challenges that the transcript
/// gives after the public values and the first two commitments. The transcript that is left has
/// then absorbed the commitment to the last piece as well.
pub proof fn law_validates_exactly<E: SnarkEngine>(
    s: Sizes,
    u: InstanceModel<PartialModel<E>>,
    t: TranscriptModel,
)
    requires
        t.round <= 65535,
    ensures
        ({
            let (found, end) = validate_of::<E>(s, u, t);
            let told = t.absorb(
                PUBLIC_VALUES_LABEL@,
                traits::scalar_reprs::<E::Scalar>(u.public_values),
            );
            let one = with_piece::<E>(told, s.num_shared, COMM_W_SHARED_LABEL@, u.shared);
            let two = with_piece::<E>(
                one,
                s.num_precommitted,
                COMM_W_PRECOMMITTED_LABEL@,
                u.precommitted,
            );
            let c = keccak::squeeze_many::<E>(two, CHALLENGE_LABEL@, s.num_challenges);
            &&& found is Ok <==> {
                &&& u.public_values.len() == s.num_public
                &&& u.challenges.len() == s.num_challenges
                &&& s.num_shared > 0 ==> u.shared is Some && E::PCS::check_partial_of(
                    u.shared->Some_0,
                    s.num_shared,
                ) is Ok
                &&& s.num_precommitted > 0 ==> u.precommitted is Some && E::PCS::check_partial_of(
                    u.precommitted->Some_0,
                    s.num_precommitted,
                ) is Ok
                &&& t.round + s.num_challenges <= 65535
                &&& u.challenges == c.values
                &&& E::PCS::check_partial_of(u.rest, s.num_rest) is Ok
            }
            &&& found is Ok ==> end == c.end.absorb(
                COMM_W_REST_LABEL@,
                E::PCS::partial_bytes(u.rest),
            )
            &&& found is Ok ==> end.round == t.round + s.num_challenges
        }),
{
    let told = t.absorb(
        PUBLIC_VALUES_LABEL@,
        traits::scalar_reprs::<E::Scalar>(u.public_values),
    );
    let one = with_piece::<E>(told, s.num_shared, COMM_W_SHARED_LABEL@, u.shared);
    let two = with_piece::<E>(
        one,
        s.num_precommitted,
        COMM_W_PRECOMMITTED_LABEL@,
        u.precommitted,
    );
    keccak::law_challenges::<E>(two, CHALLENGE_LABEL@, s.num_challenges);
}

/// Challenges are not chosen: two valid instances with the same public values and the same
/// commitments to the first two pieces have the same challenges, and an instance that differs from
/// a valid one in its challenges alone is refused.
pub proof fn law_challenges_are_determined<E: SnarkEngine>(
    s: Sizes,
    u: InstanceModel<PartialModel<E>>,
    v: InstanceModel<PartialModel<E>>,
    t: TranscriptModel,
)
    requires
        validate_of::<E>(s, u, t).0 is Ok,
        v.public_values == u.public_values,
        v.shared == u.shared,
        v.precommitted == u.precommitted,
    ensures
        validate_of::<E>(s, v, t).0 is Ok ==> v.challenges == u.challenges,
        v.challenges != u.challenges && v.challenges.len() == u.challenges.len() ==> validate_of::<
            E,
        >(s, v, t).0 == Err::<(), ErrorModel>(
            ErrorModel::ProofVerifyError("Challenges do not match"@),
        ),
{
}

/// All pieces are combined, in their order: the shared one and the precommitted one, where they are
/// there, and the rest.
pub proof fn law_parts_in_order<V>(u: InstanceModel<V>)
    ensures
        parts(u).len() == 1 + (if u.shared is Some {
            1int
        } else {
            0
        }) + (if u.precommitted is Some {
            1int
        } else {
            0
        }),
        parts(u).last() == u.rest,
        u.shared matches Some(c) ==> parts(u)[0] == c,
        u.precommitted matches Some(c) ==> parts(u)[parts(u).len() - 2] == c,
{
}

/// Why an instance is refused: for the number of its public values, for that of its challenges, for
/// a commitment that is missing or does not fit, for challenges that the transcript does not give,
/// or because the transcript is used up, in this order.
pub proof fn law_refuses_with<E: SnarkEngine>(
    s: Sizes,
    u: InstanceModel<PartialModel<E>>,
    t: TranscriptModel,
)
    requires
        t.round <= 65535,
    ensures
        ({
            let found = validate_of::<E>(s, u, t).0;
            let counted = u.public_values.len() == s.num_public && u.challenges.len()
                == s.num_challenges;
            let first = s.num_shared == 0 || (u.shared matches Some(c) && E::PCS::check_partial_of(
                c,
                s.num_shared,
            ) is Ok);
            let second = s.num_precommitted == 0 || (u.precommitted matches Some(c)
                && E::PCS::check_partial_of(c, s.num_precommitted) is Ok);
            let drawn = t.round + s.num_challenges <= 65535;
            &&& u.public_values.len() != s.num_public ==> found == Err::<(), ErrorModel>(
                ErrorModel::InvalidInputLength(
                    "SplitR1CSInstance: wrong number of public values"@,
                ),
            )
            &&& u.public_values.len() == s.num_public && u.challenges.len() != s.num_challenges
                ==> found == Err::<(), ErrorModel>(
                ErrorModel::InvalidInputLength("SplitR1CSInstance: wrong number of challenges"@),
            )
            &&& counted && s.num_shared > 0 && u.shared is None ==> found == Err::<(), ErrorModel>(
                ErrorModel::ProofVerifyError("comm_W_shared is missing"@),
            )
            &&& counted && s.num_shared > 0 ==> (u.shared matches Some(c) ==> (
            E::PCS::check_partial_of(c, s.num_shared) matches Err(e) ==> found == Err::<
                (),
                ErrorModel,
            >(e)))
            &&& counted && first && s.num_precommitted > 0 && u.precommitted is None ==> found
                == Err::<(), ErrorModel>(
                ErrorModel::ProofVerifyError("comm_W_precommitted is missing"@),
            )
            &&& counted && first && s.num_precommitted > 0 ==> (u.precommitted matches Some(c) ==> (
            E::PCS::check_partial_of(c, s.num_precommitted) matches Err(e) ==> found == Err::<
                (),
                ErrorModel,
            >(e)))
            &&& counted && first && second && !drawn ==> found == Err::<(), ErrorModel>(
                ErrorModel::InternalTranscriptError,
            )
            &&& counted && first && second && drawn && found is Err ==> {
                ||| found == Err::<(), ErrorModel>(
                    ErrorModel::ProofVerifyError("Challenges do not match"@),
                )
                ||| found == E::PCS::check_partial_of(u.rest, s.num_rest)
            }
        }),
{
    let told = t.absorb(
        PUBLIC_VALUES_LABEL@,
        traits::scalar_reprs::<E::Scalar>(u.public_values),
    );
    let one = with_piece::<E>(told, s.num_shared, COMM_W_SHARED_LABEL@, u.shared);
    let two = with_piece::<E>(
        one,
        s.num_precommitted,
        COMM_W_PRECOMMITTED_LABEL@,
        u.precommitted,
    );
    keccak::law_challenges::<E>(two, CHALLENGE_LABEL@, s.num_challenges);
}

/// Two optional commitments with the same number of bytes, where a piece is not empty.
pub open spec fn as_long<E: SnarkEngine>(
    n: nat,
    c: Option<PartialModel<E>>,
    d: Option<PartialModel<E>>,
) -> bool {
    n > 0 ==> E::PCS::partial_bytes(c->Some_0).len() == E::PCS::partial_bytes(d->Some_0).len()
}

/// What follows is bound to the whole instance: two valid instances that leave the same transcript,
/// from the same one, have the same public values, the same challenges, and commitments with the
/// same bytes to all pieces that are not empty, unless Keccak-256 fails.
pub proof fn law_instance_is_bound<E: SnarkEngine>(
    s: Sizes,
    u: InstanceModel<PartialModel<E>>,
    v: InstanceModel<PartialModel<E>>,
    t: TranscriptModel,
)
    requires
        0 <= t.round <= 65535,
        t.state.len() == 64,
        validate_of::<E>(s, u, t).0 is Ok,
        validate_of::<E>(s, v, t).0 is Ok,
        validate_of::<E>(s, u, t).1 == validate_of::<E>(s, v, t).1,
        forall|k: int|
            0 <= k < u.public_values.len() ==> 0 <= #[trigger] u.public_values[k]
                < E::Scalar::modulus(),
        forall|k: int|
            0 <= k < v.public_values.len() ==> 0 <= #[trigger] v.public_values[k]
                < E::Scalar::modulus(),
        as_long::<E>(s.num_shared, u.shared, v.shared),
        as_long::<E>(s.num_precommitted, u.precommitted, v.precommitted),
        as_long::<E>(1, Some(u.rest), Some(v.rest)),
    ensures
        ({
            &&& u.public_values == v.public_values
            &&& u.challenges == v.challenges
            &&& s.num_shared > 0 ==> E::PCS::partial_bytes(u.shared->Some_0)
                == E::PCS::partial_bytes(v.shared->Some_0)
            &&& s.num_precommitted > 0 ==> E::PCS::partial_bytes(u.precommitted->Some_0)
                == E::PCS::partial_bytes(v.precommitted->Some_0)
            &&& E::PCS::partial_bytes(u.rest) == E::PCS::partial_bytes(v.rest)
        }) || keccak::keccak256_fails(),
{
    law_validates_exactly::<E>(s, u, t);
    law_validates_exactly::<E>(s, v, t);
    let (ra, rb) = (
        traits::scalar_reprs::<E::Scalar>(u.public_values),
        traits::scalar_reprs::<E::Scalar>(v.public_values),
    );
    let (ta, tb) = (t.absorb(PUBLIC_VALUES_LABEL@, ra), t.absorb(PUBLIC_VALUES_LABEL@, rb));
    let (oa, ob) = (
        with_piece::<E>(ta, s.num_shared, COMM_W_SHARED_LABEL@, u.shared),
        with_piece::<E>(tb, s.num_shared, COMM_W_SHARED_LABEL@, v.shared),
    );
    let (wa, wb) = (
        with_piece::<E>(oa, s.num_precommitted, COMM_W_PRECOMMITTED_LABEL@, u.precommitted),
        with_piece::<E>(ob, s.num_precommitted, COMM_W_PRECOMMITTED_LABEL@, v.precommitted),
    );
    let ca = keccak::squeeze_many::<E>(wa, CHALLENGE_LABEL@, s.num_challenges);
    let cb = keccak::squeeze_many::<E>(wb, CHALLENGE_LABEL@, s.num_challenges);
    keccak::law_challenges::<E>(wa, CHALLENGE_LABEL@, s.num_challenges);
    keccak::law_challenges::<E>(wb, CHALLENGE_LABEL@, s.num_challenges);
    let (xa, xb) = (E::PCS::partial_bytes(u.rest), E::PCS::partial_bytes(v.rest));
    // the commitment to the last piece
    let (pa, pb) = (ca.end.pending + COMM_W_REST_LABEL@, cb.end.pending + COMM_W_REST_LABEL@);
    assert(pa + xa == pb + xb);
    assert(pa.len() == pb.len());
    digest::lemma_split(pa, pb, xa, xb);
    digest::lemma_split(
        ca.end.pending,
        cb.end.pending,
        COMM_W_REST_LABEL@,
        COMM_W_REST_LABEL@,
    );
    assert(ca.end == cb.end);
    keccak::law_draws_bind::<E>(wa, wb, CHALLENGE_LABEL@, s.num_challenges);
    if wa == wb {
        lemma_piece_bound::<E>(
            oa,
            ob,
            s.num_precommitted,
            COMM_W_PRECOMMITTED_LABEL@,
            u.precommitted,
            v.precommitted,
        );
        lemma_piece_bound::<E>(
            ta,
            tb,
            s.num_shared,
            COMM_W_SHARED_LABEL@,
            u.shared,
            v.shared,
        );
        let head = t.pending + PUBLIC_VALUES_LABEL@;
        digest::lemma_split(head, head, ra, rb);
        digest::law_vector_bytes_bind::<E::Scalar>(u.public_values, v.public_values);
    }
}

/// A transcript is bound to the commitment to a piece, and to what was there before it.
proof fn lemma_piece_bound<E: SnarkEngine>(
    a: TranscriptModel,
    b: TranscriptModel,
    n: nat,
    label: Seq<u8>,
    c: Option<PartialModel<E>>,
    d: Option<PartialModel<E>>,
)
    requires
        as_long::<E>(n, c, d),
        with_piece::<E>(a, n, label, c) == with_piece::<E>(b, n, label, d),
    ensures
        a == b,
        n > 0 ==> E::PCS::partial_bytes(c->Some_0) == E::PCS::partial_bytes(d->Some_0),
{
    if n > 0 {
        let (x, y) = (E::PCS::partial_bytes(c->Some_0), E::PCS::partial_bytes(d->Some_0));
        let (p, q) = (a.pending + label, b.pending + label);
        assert(p + x == q + y);
        assert(p.len() == q.len());
        digest::lemma_split(p, q, x, y);
        digest::lemma_split(a.pending, b.pending, label, label);
        assert(a == b);
    }
}

} // verus!
