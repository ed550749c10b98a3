//! The interfaces that connect scalars, commitment schemes and the proof system.
use crate::errors::{self, ErrorModel, SpartanError};
use crate::polys::multilinear;
use crate::primes;
use crate::provider::keccak::{Keccak256Transcript, TranscriptModel};
#[allow(unused_imports)]
use vstd::arithmetic::power2::*;
use vstd::prelude::*;

verus! {

/// Values that can be absorbed by a transcript.
pub trait TranscriptReprTrait {
    /// The bytes that stand for this value in a transcript.
    spec fn transcript_repr(&self) -> Seq<u8>;

    /// Returns the bytes that stand for this value in a transcript.
    fn to_transcript_bytes(&self) -> (bytes: Vec<u8>)
        ensures
            bytes@ == self.transcript_repr(),
    ;
}

/// A prime field whose elements stand for the integers `0..modulus`.
///
/// Every operation is stated over the integers that its operands stand for.
pub trait ScalarField: Copy + Sized + Send + Sync {
    /// The number of elements.
    spec fn modulus() -> int;

    /// The integer in `0..modulus` that this element stands for.
    spec fn val(self) -> int;

    /// The encoding of the element that stands for `v`.
    spec fn repr_of(v: int) -> Seq<u8>;

    /// The integer that the element drawn from `digest` stands for.
    spec fn uniform_of(digest: Seq<u8>) -> int;

    /// An integer whose double leaves the remainder one.
    spec fn two_inv() -> int;

    /// An integer whose sixfold leaves the remainder one.
    spec fn six_inv() -> int;

    /// Facts about the modulus: it exceeds one, and two and six are invertible modulo it.
    proof fn lemma_modulus()
        ensures
            Self::modulus() > 1,
            (2 * Self::two_inv()) % Self::modulus() == 1,
            (6 * Self::six_inv()) % Self::modulus() == 1,
    ;

    /// The modulus is prime.
    proof fn lemma_prime()
        ensures
            primes::is_prime(Self::modulus()),
    ;

    /// The integer that an element stands for lies in `0..modulus`.
    proof fn lemma_val(self)
        ensures
            0 <= self.val() < Self::modulus(),
    ;

    /// The integer that a drawn element stands for lies in `0..modulus`.
    proof fn lemma_uniform(digest: Seq<u8>)
        ensures
            0 <= Self::uniform_of(digest) < Self::modulus(),
    ;

    /// An encoding is never empty.
    proof fn lemma_repr(v: int)
        ensures
            Self::repr_of(v).len() > 0,
    ;

    /// All elements are encoded in the same number of bytes, and an encoding tells which element it
    /// belongs to.
    proof fn law_encoding_is_injective(v: int, w: int)
        requires
            0 <= v < Self::modulus(),
            0 <= w < Self::modulus(),
        ensures
            Self::repr_of(v).len() == Self::repr_of(w).len(),
            Self::repr_of(v) == Self::repr_of(w) ==> v == w,
    ;

    /// The additive identity.
    fn zero() -> (r: Self)
        ensures
            r.val() == 0,
    ;

    /// The multiplicative identity.
    fn one() -> (r: Self)
        ensures
            r.val() == 1,
    ;

    /// The element that `x` reduces to.
    fn from_u64(x: u64) -> (r: Self)
        ensures
            r.val() == (x as int) % Self::modulus(),
    ;

    /// The sum of two elements.
    fn plus(self, rhs: Self) -> (r: Self)
        ensures
            r.val() == (self.val() + rhs.val()) % Self::modulus(),
    ;

    /// The difference of two elements.
    fn minus(self, rhs: Self) -> (r: Self)
        ensures
            r.val() == (self.val() - rhs.val()) % Self::modulus(),
    ;

    /// The product of two elements.
    fn times(self, rhs: Self) -> (r: Self)
        ensures
            r.val() == (self.val() * rhs.val()) % Self::modulus(),
    ;

    /// Half of the multiplicative identity.
    fn half() -> (r: Self)
        ensures
            r.val() == Self::two_inv() % Self::modulus(),
    ;

    /// A sixth of the multiplicative identity.
    fn sixth() -> (r: Self)
        ensures
            r.val() == Self::six_inv() % Self::modulus(),
    ;

    /// Whether two elements stand for the same integer.
    fn same(&self, other: &Self) -> (r: bool)
        ensures
            r == (self.val() == other.val()),
    ;

    /// The encoding of this element.
    fn to_bytes(&self) -> (bytes: Vec<u8>)
        ensures
            bytes@ == Self::repr_of(self.val()),
    ;

    /// The element drawn from a 64-byte digest.
    fn from_digest(digest: &[u8]) -> (r: Self)
        requires
            digest@.len() == 64,
        ensures
            r.val() == Self::uniform_of(digest@),
    ;
}

/// A choice of scalar field.
pub trait Engine: Sized {
    /// The field of the committed polynomials.
    type Scalar: ScalarField;
}

/// The integers that a sequence of scalars stands for.
pub open spec fn vals<S: ScalarField>(s: Seq<S>) -> Seq<int> {
    s.map_values(|x: S| x.val())
}

/// The encodings of the elements that stand for `v`, one after the other.
pub open spec fn scalar_reprs<S: ScalarField>(v: Seq<int>) -> Seq<u8> {
    v.map_values(|x: int| S::repr_of(x)).flatten_alt()
}

/// The encodings of scalars, one after the other.
pub(crate) fn scalar_bytes<S: ScalarField>(s: &[S]) -> (bytes: Vec<u8>)
    ensures
        bytes@ == scalar_reprs::<S>(vals(s@)),
{
    let ghost all = vals(s@).map_values(|x: int| S::repr_of(x));
    let mut bytes: Vec<u8> = Vec::new();
    assert(all.take(0).flatten_alt() =~= Seq::<u8>::empty());
    for i in 0..s.len()
        invariant
            all == vals(s@).map_values(|x: int| S::repr_of(x)),
            bytes@ == all.take(i as int).flatten_alt(),
    {
        let one = s[i].to_bytes();
        bytes.extend_from_slice(one.as_slice());
        assert(all.take(i + 1).drop_last() =~= all.take(i as int));
        assert(bytes@ =~= all.take(i + 1).flatten_alt());
    }
    assert(all.take(all.len() as int) =~= all);
    bytes
}

/// What a sequence of values says.
pub open spec fn views<T: View>(s: Seq<T>) -> Seq<T::V> {
    s.map_values(|x: T| x@)
}

/// What a prover reports, with the value, the argument and errors taken by what they say.
pub open spec fn proved_view<S: ScalarField, A: View>(r: Result<(S, A), SpartanError>) -> Result<
    (int, A::V),
    ErrorModel,
> {
    match r {
        Ok((eval, arg)) => Ok((eval.val(), arg@)),
        Err(e) => Err(e@),
    }
}

/// A polynomial commitment scheme for multilinear polynomials.
///
/// Polynomials are given by their values on bit strings, the first variable being matched with
/// the highest bit. What the operations compute is stated over integers and models.
pub trait PCSEngineTrait<E: Engine>: Sized {
    /// What the prover needs to commit.
    type CommitmentKey;

    /// What the verifier needs.
    type VerifierKey: TranscriptReprTrait;

    /// A commitment to a polynomial.
    type Commitment: View + TranscriptReprTrait;

    /// A commitment to a piece of a polynomial.
    type PartialCommitment: View + TranscriptReprTrait;

    /// The randomness of a commitment.
    type Blind: View;

    /// An argument that a committed polynomial takes a value at a point.
    type EvaluationArgument: View;

    /// The number that `width` returns.
    spec fn width_of() -> nat;

    /// The bytes that stand for a commitment in a transcript.
    spec fn commitment_bytes(comm: <Self::Commitment as View>::V) -> Seq<u8>;

    /// The bytes that stand for a commitment to a piece in a transcript.
    spec fn partial_bytes(comm: <Self::PartialCommitment as View>::V) -> Seq<u8>;

    /// A transcript sees of a commitment what the commitment says.
    proof fn lemma_commitment_bytes(comm: Self::Commitment)
        ensures
            comm.transcript_repr() == Self::commitment_bytes(comm@),
    ;

    /// A transcript sees of a commitment to a piece what the commitment says.
    proof fn lemma_partial_bytes(comm: Self::PartialCommitment)
        ensures
            comm.transcript_repr() == Self::partial_bytes(comm@),
    ;

    /// Two keys as a setup gives them.
    spec fn are_keys(ck: Self::CommitmentKey, vk: Self::VerifierKey) -> bool;

    /// Two keys as a setup gives them under `label` for polynomials of `n` values.
    spec fn made_for(
        label: Seq<u8>,
        n: nat,
        ck: Self::CommitmentKey,
        vk: Self::VerifierKey,
    ) -> bool;

    /// The blinds that can be made for `n` values.
    spec fn is_blind(ck: Self::CommitmentKey, n: nat, blind: <Self::Blind as View>::V) -> bool;

    /// The commitment to the values `v` with a blind.
    spec fn commit_of(
        ck: Self::CommitmentKey,
        v: Seq<int>,
        blind: <Self::Blind as View>::V,
    ) -> Result<<Self::Commitment as View>::V, ErrorModel>;

    /// The commitment to a piece with the values `v`, and the blind that belongs to it.
    spec fn commit_partial_of(
        ck: Self::CommitmentKey,
        v: Seq<int>,
        blind: <Self::Blind as View>::V,
    ) -> Result<(<Self::PartialCommitment as View>::V, <Self::Blind as View>::V), ErrorModel>;

    /// Whether a commitment can belong to a piece of `n` values.
    spec fn check_partial_of(
        comm: <Self::PartialCommitment as View>::V,
        n: nat,
    ) -> Result<(), ErrorModel>;

    /// The commitment to the values of all pieces.
    spec fn combine_partial_of(parts: Seq<<Self::PartialCommitment as View>::V>) -> Result<
        <Self::Commitment as View>::V,
        ErrorModel,
    >;

    /// The blind that belongs to all pieces.
    spec fn combine_blinds_of(blinds: Seq<<Self::Blind as View>::V>) -> Result<
        <Self::Blind as View>::V,
        ErrorModel,
    >;

    /// What the prover can make of the polynomial `poly` and of `point`: the value and an argument
    /// for it, or an error, and the transcript that is left. A scheme may draw randomness, and then
    /// there are several outcomes.
    spec fn proves(
        ck: Self::CommitmentKey,
        t: TranscriptModel,
        comm: <Self::Commitment as View>::V,
        poly: Seq<int>,
        blind: <Self::Blind as View>::V,
        point: Seq<int>,
        outcome: Result<(int, <Self::EvaluationArgument as View>::V), ErrorModel>,
        end: TranscriptModel,
    ) -> bool;

    /// Whether the verifier can decide on inputs of this size.
    spec fn verify_defined(
        vk: Self::VerifierKey,
        comm: <Self::Commitment as View>::V,
        point: Seq<int>,
        arg: <Self::EvaluationArgument as View>::V,
    ) -> bool;

    /// The verifier can decide on points with fewer coordinates than a machine word has bits.
    proof fn lemma_verify_defined(
        vk: Self::VerifierKey,
        comm: <Self::Commitment as View>::V,
        point: Seq<int>,
        arg: <Self::EvaluationArgument as View>::V,
    )
        requires
            point.len() < usize::BITS,
        ensures
            Self::verify_defined(vk, comm, point, arg),
    ;

    /// What the verifier decides, and the transcript that is left.
    spec fn verify_of(
        vk: Self::VerifierKey,
        t: TranscriptModel,
        comm: <Self::Commitment as View>::V,
        point: Seq<int>,
        eval: int,
        arg: <Self::EvaluationArgument as View>::V,
    ) -> (Result<(), ErrorModel>, TranscriptModel);

    /// Completeness: whatever the prover makes for a committed polynomial, the verifier accepts from
    /// the same transcript, which it leaves as the prover does, and the value is the one that the
    /// multilinear polynomial takes at the point.
    proof fn law_completeness(
        ck: Self::CommitmentKey,
        vk: Self::VerifierKey,
        t: TranscriptModel,
        comm: <Self::Commitment as View>::V,
        poly: Seq<int>,
        blind: <Self::Blind as View>::V,
        point: Seq<int>,
        eval: int,
        arg: <Self::EvaluationArgument as View>::V,
        end: TranscriptModel,
    )
        requires
            Self::are_keys(ck, vk),
            Self::commit_of(ck, poly, blind) == Ok::<_, ErrorModel>(comm),
            poly.len() == pow2(point.len()),
            point.len() < usize::BITS,
            multilinear::in_field(E::Scalar::modulus(), poly),
            Self::proves(ck, t, comm, poly, blind, point, Ok((eval, arg)), end),
        ensures
            eval == multilinear::mle_eval(E::Scalar::modulus(), poly, point),
            Self::verify_defined(vk, comm, point, arg),
            Self::verify_of(vk, t, comm, point, eval, arg) == (Ok::<(), ErrorModel>(()), end),
    ;

    /// Commitments to pieces, put together, are the commitment to the values of all pieces with
    /// the blinds of the pieces put together. All pieces but the last one must fill rows of the
    /// width of the scheme.
    proof fn lemma_combine(
        ck: Self::CommitmentKey,
        pieces: Seq<Seq<int>>,
        blinds: Seq<<Self::Blind as View>::V>,
        parts: Seq<<Self::PartialCommitment as View>::V>,
        used: Seq<<Self::Blind as View>::V>,
    )
        requires
            pieces.len() == blinds.len(),
            pieces.len() == parts.len(),
            pieces.len() == used.len(),
            forall|i: int|
                0 <= i < pieces.len() - 1 ==> (#[trigger] pieces[i]).len() % Self::width_of() == 0,
            forall|i: int|
                0 <= i < pieces.len() ==> Self::is_blind(
                    ck,
                    (#[trigger] pieces[i]).len(),
                    blinds[i],
                ),
            forall|i: int|
                0 <= i < pieces.len() ==> Self::commit_partial_of(
                    ck,
                    #[trigger] pieces[i],
                    blinds[i],
                ) == Ok::<_, ErrorModel>((parts[i], used[i])),
            Self::combine_partial_of(parts) is Ok,
            Self::combine_blinds_of(used) is Ok,
        ensures
            Self::commit_of(ck, pieces.flatten(), Self::combine_blinds_of(used)->Ok_0)
                == Self::combine_partial_of(parts),
    ;

    /// A commitment to a piece can belong to a piece of that length.
    proof fn lemma_check_partial(
        ck: Self::CommitmentKey,
        v: Seq<int>,
        blind: <Self::Blind as View>::V,
        comm: <Self::PartialCommitment as View>::V,
        used: <Self::Blind as View>::V,
    )
        requires
            Self::commit_partial_of(ck, v, blind) == Ok::<_, ErrorModel>((comm, used)),
        ensures
            Self::check_partial_of(comm, v.len()) == Ok::<(), ErrorModel>(()),
    ;

    /// The width of the scheme.
    fn width() -> (r: usize)
        ensures
            r == Self::width_of(),
    ;

    /// Makes the keys under `label` for polynomials of `n` values.
    fn setup(label: &[u8], n: usize) -> (r: (Self::CommitmentKey, Self::VerifierKey))
        ensures
            Self::are_keys(r.0, r.1),
            Self::made_for(label@, n as nat, r.0, r.1),
    ;

    /// Makes a blind for `n` values.
    fn blind(ck: &Self::CommitmentKey, n: usize) -> (r: Self::Blind)
        ensures
            Self::is_blind(*ck, n as nat, r@),
    ;

    /// Commits to the values `v`.
    fn commit(
        ck: &Self::CommitmentKey,
        v: &[E::Scalar],
        blind: &Self::Blind,
        is_small: bool,
    ) -> (r: Result<Self::Commitment, SpartanError>)
        ensures
            errors::outcome_view(r) == Self::commit_of(*ck, vals(v@), blind@),
    ;

    /// Commits to a piece with the values `v`.
    fn commit_partial(
        ck: &Self::CommitmentKey,
        v: &[E::Scalar],
        blind: &Self::Blind,
        is_small: bool,
    ) -> (r: Result<(Self::PartialCommitment, Self::Blind), SpartanError>)
        ensures
            match r {
                Ok((c, b)) => Self::commit_partial_of(*ck, vals(v@), blind@) == Ok::<_, ErrorModel>(
                    (c@, b@),
                ),
                Err(e) => Self::commit_partial_of(*ck, vals(v@), blind@) == Err::<
                    (<Self::PartialCommitment as View>::V, <Self::Blind as View>::V),
                    ErrorModel,
                >(e@),
            },
    ;

    /// Checks that a commitment can belong to a piece of `n` values.
    fn check_partial(comm: &Self::PartialCommitment, n: usize) -> (r: Result<(), SpartanError>)
        ensures
            errors::outcome(r) == Self::check_partial_of(comm@, n as nat),
    ;

    /// A copy of a commitment to a piece.
    fn copy_partial(comm: &Self::PartialCommitment) -> (r: Self::PartialCommitment)
        ensures
            r == *comm,
    ;

    /// A copy of a blind.
    fn copy_blind(blind: &Self::Blind) -> (r: Self::Blind)
        ensures
            r == *blind,
    ;

    /// Puts the commitments to the pieces together.
    fn combine_partial(partial_comms: &[Self::PartialCommitment]) -> (r: Result<
        Self::Commitment,
        SpartanError,
    >)
        ensures
            errors::outcome_view(r) == Self::combine_partial_of(views(partial_comms@)),
    ;

    /// Puts the blinds of the pieces together.
    fn combine_blinds(blinds: &[Self::Blind]) -> (r: Result<Self::Blind, SpartanError>)
        ensures
            errors::outcome_view(r) == Self::combine_blinds_of(views(blinds@)),
    ;

    /// Computes the value of the polynomial `poly` at `point` and an argument for it.
    fn prove(
        ck: &Self::CommitmentKey,
        transcript: &mut Keccak256Transcript<E>,
        comm: &Self::Commitment,
        poly: &[E::Scalar],
        blind: &Self::Blind,
        point: &[E::Scalar],
    ) -> (r: Result<(E::Scalar, Self::EvaluationArgument), SpartanError>)
        requires
            point@.len() < usize::BITS,
        ensures
            Self::proves(
                *ck,
                old(transcript)@,
                comm@,
                vals(poly@),
                blind@,
                vals(point@),
                proved_view(r),
                final(transcript)@,
            ),
    ;

    /// Decides whether `arg` shows that the committed polynomial takes the value `eval` at `point`.
    fn verify(
        vk: &Self::VerifierKey,
        transcript: &mut Keccak256Transcript<E>,
        comm: &Self::Commitment,
        point: &[E::Scalar],
        eval: &E::Scalar,
        arg: &Self::EvaluationArgument,
    ) -> (r: Result<(), SpartanError>)
        requires
            Self::verify_defined(*vk, comm@, vals(point@), arg@),
        ensures
            (errors::outcome(r), final(transcript)@) == Self::verify_of(
                *vk,
                old(transcript)@,
                comm@,
                vals(point@),
                eval.val(),
                arg@,
            ),
    ;
}

/// An engine with a commitment scheme.
pub trait SnarkEngine: Engine {
    /// The commitment scheme for witnesses.
    type PCS: PCSEngineTrait<Self>;

    /// Whether the commitment scheme is one of the hash-based ones.
    spec fn hash_mle() -> bool;

    /// Whether the commitment scheme is one of the hash-based ones.
    fn is_hash_mle() -> (r: bool)
        ensures
            r == Self::hash_mle(),
    ;
}

} // verus!
