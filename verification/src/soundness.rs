//! What an accepted proof shows.
use crate::digest;
use crate::errors::ErrorModel;
use crate::modular;
use crate::polys::{eq, multilinear};
use crate::primes;
use crate::provider::goldi::F;
use crate::provider::keccak::{self, TranscriptModel};
use crate::provider::pcs::merkle_mle_pc::{HashMleCommitmentKey, HashMlePCS};
use crate::provider::pcs::{binding, hash_mle_backend, merkle_tree};
use crate::provider::GoldilocksP3MerkleMleEngine;
use crate::r1cs::instance;
use crate::r1cs::shape::ShapeModel;
use crate::r1cs::sparse;
use crate::spartan::{self, ArgumentOf, CommitmentOf, EvaluationKey, ProofModel, ProofOf};
use crate::sumcheck;
use crate::traits::{self, PCSEngineTrait, ScalarField, SnarkEngine, TranscriptReprTrait};
#[allow(unused_imports)]
use vstd::arithmetic::div_mod::*;
#[allow(unused_imports)]
use vstd::arithmetic::mul::*;
use vstd::prelude::*;
#[allow(unused_imports)]
use vstd::string::*;

verus! {

/// What the verifier draws and derives for a proof while it goes along.
pub struct Course {
    /// What the check of the instance found.
    pub valid: Result<(), ErrorModel>,
    /// The challenges that weight the constraints.
    pub tau: keccak::Challenges,
    /// The outer sum-check: its last claim and its point.
    pub outer: Result<(int, Seq<int>), ErrorModel>,
    /// The transcript behind the claims of the outer sum-check.
    pub claimed: TranscriptModel,
    /// The challenge that combines the matrices.
    pub r: int,
    /// The challenge from which the transcripts fork.
    pub anchor: int,
    /// The inner sum-check: its last claim and its point.
    pub inner: Result<(int, Seq<int>), ErrorModel>,
    /// What the evaluation argument shows of the combined commitment.
    pub argued: Result<(), ErrorModel>,
}

/// What the verifier draws and derives for a proof: every challenge is drawn from a transcript that
/// has absorbed all that was sent before, and the argument is checked for the combined commitment,
/// at all coordinates of the inner point but the first, and for the claimed value of the witness.
pub open spec fn course_of<E: SnarkEngine>(
    vk: EvaluationKey<E>,
    s: ShapeModel,
    pi: ProofOf<E>,
) -> Course {
    let start = TranscriptModel::start(spartan::SNARK_LABEL@).absorb(
        spartan::VK_LABEL@,
        digest::digest_of::<E::Scalar>(vk.transcript_repr(), s),
    );
    let (valid, bound) = instance::validate_of::<E>(s.sizes, pi.instance, start);
    let rounds = merkle_tree::height(s.sizes.num_cons);
    let tau = keccak::squeeze_many::<E>(bound, spartan::TAU_LABEL@, rounds);
    let (outer, after) = sumcheck::verify_of::<E::Scalar>(pi.outer, 0, rounds, 3, tau.end);
    let claimed = after.absorb(
        spartan::CLAIMS_OUTER_LABEL@,
        traits::scalar_reprs::<E::Scalar>(pi.claims),
    );
    let r = E::Scalar::uniform_of(claimed.digest(spartan::R_LABEL@));
    let anchor = E::Scalar::uniform_of(
        claimed.squeeze(spartan::R_LABEL@).digest(spartan::FORK_LABEL@),
    );
    let inner = sumcheck::verify_of::<E::Scalar>(
        pi.inner,
        pi.inner_sum,
        merkle_tree::height(s.sizes.num_vars()) + 1,
        2,
        TranscriptModel::start(spartan::INNER_LABEL@).absorb(
            spartan::ANCHOR_LABEL@,
            E::Scalar::repr_of(anchor),
        ),
    ).0;
    let argued = match E::PCS::combine_partial_of(instance::parts(pi.instance)) {
        Err(e) => Err(e),
        Ok(comm) => E::PCS::verify_of(
            vk,
            TranscriptModel::start(spartan::PCS_LABEL@).absorb(
                spartan::ANCHOR_LABEL@,
                E::Scalar::repr_of(anchor),
            ),
            comm,
            inner->Ok_0.1.skip(1),
            pi.eval_w,
            pi.arg,
        ).0,
    };
    Course { valid, tau, outer, claimed, r, anchor, inner, argued }
}

/// Acceptance: a proof is accepted, with its public values, exactly if its instance is valid, both
/// sum-checks come to the end, their last claims are what the claimed values give, and the
/// commitment scheme accepts the argument for the value of the witness.
///
/// The last claim of the outer sum-check is the equality polynomial times the product of the first
/// two claims minus the third one; that of the inner one is the value of the combined matrices
/// times the value of the witness and the public values, one for the lower and one for the upper
/// half of the first coordinate. Where the scheme is not a hash-based one, the inner sum is the
/// combination of the three claims.
pub proof fn law_accepts_exactly<E: SnarkEngine>(
    vk: EvaluationKey<E>,
    s: ShapeModel,
    pi: ProofOf<E>,
)
    ensures
        ({
            let p = E::Scalar::modulus();
            let w = course_of::<E>(vk, s, pi);
            let (last, rx) = w.outer->Ok_0;
            let (end, ry) = w.inner->Ok_0;
            let (ex, ey) = (eq::eq_table(p, rx), eq::eq_table(p, ry));
            let (ca, cb, cc) = (pi.claims[0], pi.claims[1], pi.claims[2]);
            let x = pi.instance.public_values;
            let n = s.sizes.num_vars();
            let public = if E::hash_mle() && x.len() == 0 {
                1
            } else if E::hash_mle() && x.len() == 1 {
                multilinear::mle_eval(p, Seq::new(n, |i: int| x[0]), ry.skip(1))
            } else {
                multilinear::mle_eval(
                    p,
                    multilinear::zero_padded(seq![1int] + x, n),
                    ry.skip(1),
                )
            };
            let matrices = sparse::bilinear(s.a, ex, ey) + w.r * sparse::bilinear(s.b, ex, ey) + w.r
                * w.r * sparse::bilinear(s.c, ex, ey);
            &&& spartan::verify_of::<E>(vk, s, pi) is Ok <==> {
                &&& w.valid is Ok
                &&& w.tau.complete
                &&& w.outer is Ok
                &&& last == (eq::eq_at(w.tau.values, rx) * (ca * cb - cc)) % p
                &&& w.claimed.round < 65534
                &&& E::hash_mle() || pi.inner_sum == (ca + w.r * cb + w.r * w.r * cc) % p
                &&& w.inner is Ok
                &&& end == (matrices * ((1 - ry[0]) * pi.eval_w + ry[0] * public)) % p
                &&& w.argued is Ok
            }
            &&& spartan::verify_of::<E>(vk, s, pi) matches Ok(shown) ==> shown == x
        }),
{
}

/// The argument decides: in an accepted proof it can be exchanged exactly for those that the
/// commitment scheme accepts for the combined commitment, the point of the inner sum-check and the
/// claimed value of the witness; another one is refused with the reason that the scheme gives.
pub proof fn law_argument_is_checked<E: SnarkEngine>(
    vk: EvaluationKey<E>,
    s: ShapeModel,
    pi: ProofOf<E>,
    arg: ArgumentOf<E>,
)
    requires
        spartan::verify_of::<E>(vk, s, pi) is Ok,
    ensures
        ({
            let w = course_of::<E>(vk, s, pi);
            let other = ProofModel { arg, ..pi };
            let comm = E::PCS::combine_partial_of(instance::parts(pi.instance));
            let fork = TranscriptModel::start(spartan::PCS_LABEL@).absorb(
                spartan::ANCHOR_LABEL@,
                E::Scalar::repr_of(w.anchor),
            );
            let point = w.inner->Ok_0.1.skip(1);
            &&& comm is Ok
            &&& E::PCS::verify_of(vk, fork, comm->Ok_0, point, pi.eval_w, pi.arg).0 is Ok
            &&& match E::PCS::verify_of(vk, fork, comm->Ok_0, point, pi.eval_w, arg).0 {
                Ok(()) => spartan::verify_of::<E>(vk, s, other) == spartan::verify_of::<E>(
                    vk,
                    s,
                    pi,
                ),
                Err(e) => spartan::verify_of::<E>(vk, s, other) == Err::<Seq<int>, ErrorModel>(e),
            }
        }),
{
}

/// The value of the witness is checked: another value in an accepted proof is refused, unless it
/// leaves the same remainder or the matrices or one minus the first coordinate vanish at the point.
pub proof fn law_changed_value_is_refused<E: SnarkEngine>(
    vk: EvaluationKey<E>,
    s: ShapeModel,
    pi: ProofOf<E>,
    eval_w: int,
)
    requires
        spartan::verify_of::<E>(vk, s, pi) is Ok,
        (pi.eval_w - eval_w) % E::Scalar::modulus() != 0,
        ({
            let p = E::Scalar::modulus();
            let w = course_of::<E>(vk, s, pi);
            let (ex, ey) = (
                eq::eq_table(p, w.outer->Ok_0.1),
                eq::eq_table(p, w.inner->Ok_0.1),
            );
            &&& (sparse::bilinear(s.a, ex, ey) + w.r * sparse::bilinear(s.b, ex, ey) + w.r * w.r
                * sparse::bilinear(s.c, ex, ey)) % p != 0
            &&& (1 - w.inner->Ok_0.1[0]) % p != 0
        }),
    ensures
        spartan::verify_of::<E>(vk, s, (ProofModel { eval_w, ..pi })) == Err::<
            Seq<int>,
            ErrorModel,
        >(ErrorModel::InvalidSumcheckProof),
{
    let p = E::Scalar::modulus();
    E::Scalar::lemma_modulus();
    E::Scalar::lemma_prime();
    let w = course_of::<E>(vk, s, pi);
    let other = ProofModel { eval_w, ..pi };
    let v = course_of::<E>(vk, s, other);
    law_accepts_exactly::<E>(vk, s, pi);
    law_accepts_exactly::<E>(vk, s, other);
    let (rx, ry) = (w.outer->Ok_0.1, w.inner->Ok_0.1);
    let m = spartan::matrix_value::<E::Scalar>(s, rx, ry, w.r);
    let x = spartan::eval_x_of(
        p,
        E::hash_mle(),
        pi.instance.public_values,
        s.sizes.num_vars(),
        ry.skip(1),
    );
    let g = 1 - ry[0];
    let a = g * pi.eval_w + ry[0] * x;
    let b = g * eval_w + ry[0] * x;
    assert(a - b == g * (pi.eval_w - eval_w)) by (nonlinear_arith)
        requires
            a == g * pi.eval_w + ry[0] * x,
            b == g * eval_w + ry[0] * x,
    ;
    if (m * a) % p == (m * b) % p {
        lemma_product_vanishes(p, m, a, b);
        lemma_product_vanishes(p, g, pi.eval_w, eval_w);
    }
}

/// Modulo a prime, a factor that does not vanish can be cancelled.
proof fn lemma_product_vanishes(p: int, m: int, a: int, b: int)
    requires
        primes::is_prime(p),
        p > 1,
        m % p != 0,
    ensures
        (m * a) % p == (m * b) % p ==> (a - b) % p == 0,
        (m * (a - b)) % p == 0 ==> (a - b) % p == 0,
{
    modular::lemma_cong_mod(p, m);
    modular::lemma_cong_mul(p, m % p, m, a - b, a - b);
    lemma_mod_bound(m, p);
    lemma_small_mod(0, p as nat);
    assert(m * a - m * b == m * (a - b)) by (nonlinear_arith);
    if (m * a) % p == (m * b) % p {
        modular::lemma_cong_sub(p, m * a, m * b, m * b, m * b);
    }
    if (m * (a - b)) % p == 0 && (a - b) % p != 0 {
        primes::lemma_euclid(p, m % p, a - b);
    }
}

/// The inner sum is checked where the scheme is not a hash-based one: another sum in an accepted
/// proof is refused.
pub proof fn law_changed_inner_sum_is_refused<E: SnarkEngine>(
    vk: EvaluationKey<E>,
    s: ShapeModel,
    pi: ProofOf<E>,
    inner_sum: int,
)
    requires
        spartan::verify_of::<E>(vk, s, pi) is Ok,
        !E::hash_mle(),
        inner_sum != pi.inner_sum,
    ensures
        spartan::verify_of::<E>(vk, s, (ProofModel { inner_sum, ..pi })) == Err::<
            Seq<int>,
            ErrorModel,
        >(ErrorModel::InvalidSumcheckProof),
{
}

/// A sum-check with a polynomial too few or too many is refused, in the outer as in the inner one.
pub proof fn law_other_round_counts_are_refused<E: SnarkEngine>(
    vk: EvaluationKey<E>,
    s: ShapeModel,
    pi: ProofOf<E>,
    polys: Seq<Seq<int>>,
)
    requires
        spartan::verify_of::<E>(vk, s, pi) is Ok,
    ensures
        polys.len() != pi.outer.len() ==> spartan::verify_of::<E>(
            vk,
            s,
            (ProofModel { outer: polys, ..pi }),
        ) == Err::<Seq<int>, ErrorModel>(ErrorModel::InvalidSumcheckProof),
        polys.len() != pi.inner.len() ==> spartan::verify_of::<E>(
            vk,
            s,
            (ProofModel { inner: polys, ..pi }),
        ) == Err::<Seq<int>, ErrorModel>(ErrorModel::InvalidSumcheckProof),
        pi.outer.len() == merkle_tree::height(s.sizes.num_cons),
        pi.inner.len() == merkle_tree::height(s.sizes.num_vars()) + 1,
{
}

/// Why a proof is refused: the first step that fails gives the reason. The check of the instance,
/// the commitment scheme and the sum-checks give their own reasons, a last claim or an inner sum
/// that does not fit is an error of the sum-check, and a transcript without a challenge left is one
/// of its own.
pub proof fn law_refuses_with<E: SnarkEngine>(
    vk: EvaluationKey<E>,
    s: ShapeModel,
    pi: ProofOf<E>,
)
    ensures
        ({
            let p = E::Scalar::modulus();
            let w = course_of::<E>(vk, s, pi);
            let found = spartan::verify_of::<E>(vk, s, pi);
            let comm = E::PCS::combine_partial_of(instance::parts(pi.instance));
            let (last, rx) = w.outer->Ok_0;
            let (ca, cb, cc) = (pi.claims[0], pi.claims[1], pi.claims[2]);
            let started = w.valid is Ok && comm is Ok;
            let weighted = started && w.tau.complete;
            let fits = last == (eq::eq_at(w.tau.values, rx) * (ca * cb - cc)) % p;
            let forked = weighted && w.outer is Ok && fits && w.claimed.round < 65534;
            let joined = E::hash_mle() || pi.inner_sum == (ca + w.r * cb + w.r * w.r * cc) % p;
            &&& w.valid matches Err(e) ==> found == Err::<Seq<int>, ErrorModel>(e)
            &&& w.valid is Ok ==> (comm matches Err(e) ==> found == Err::<Seq<int>, ErrorModel>(e))
            &&& started && !w.tau.complete ==> found == Err::<Seq<int>, ErrorModel>(
                ErrorModel::InternalTranscriptError,
            )
            &&& weighted ==> (w.outer matches Err(e) ==> found == Err::<Seq<int>, ErrorModel>(e))
            &&& weighted && w.outer is Ok && !fits ==> found == Err::<Seq<int>, ErrorModel>(
                ErrorModel::InvalidSumcheckProof,
            )
            &&& weighted && w.outer is Ok && fits && w.claimed.round >= 65534 ==> found == Err::<
                Seq<int>,
                ErrorModel,
            >(ErrorModel::InternalTranscriptError)
            &&& forked && !joined ==> found == Err::<Seq<int>, ErrorModel>(
                ErrorModel::InvalidSumcheckProof,
            )
            &&& forked && joined ==> (w.inner matches Err(e) ==> found == Err::<
                Seq<int>,
                ErrorModel,
            >(e))
            &&& forked && joined && w.inner is Ok && found is Err ==> {
                ||| found == Err::<Seq<int>, ErrorModel>(ErrorModel::InvalidSumcheckProof)
                ||| w.argued matches Err(e) && found == Err::<Seq<int>, ErrorModel>(e)
            }
        }),
{
}

/// The labels of the transcripts spell what they stand for.
pub proof fn law_labels()
    ensures
        hash_mle_backend::ascii(spartan::SNARK_LABEL@) == "R1CSSNARK"@,
        hash_mle_backend::ascii(spartan::INNER_LABEL@) == "R1CSSNARK/inner"@,
        hash_mle_backend::ascii(spartan::PCS_LABEL@) == "R1CSSNARK/pcs"@,
        hash_mle_backend::ascii(spartan::VK_LABEL@) == "vk"@,
        hash_mle_backend::ascii(spartan::TAU_LABEL@) == "t"@,
        hash_mle_backend::ascii(spartan::CLAIMS_OUTER_LABEL@) == "claims_outer"@,
        hash_mle_backend::ascii(spartan::R_LABEL@) == "r"@,
        hash_mle_backend::ascii(spartan::FORK_LABEL@) == "anchor/inner+pcs"@,
        hash_mle_backend::ascii(spartan::ANCHOR_LABEL@) == "anchor"@,
        hash_mle_backend::ascii(spartan::CK_LABEL@) == "ck"@,
        hash_mle_backend::ascii(instance::PUBLIC_VALUES_LABEL@) == "public_values"@,
        hash_mle_backend::ascii(instance::COMM_W_SHARED_LABEL@) == "comm_W_shared"@,
        hash_mle_backend::ascii(instance::COMM_W_PRECOMMITTED_LABEL@) == "comm_W_precommitted"@,
        hash_mle_backend::ascii(instance::COMM_W_REST_LABEL@) == "comm_W_rest"@,
        hash_mle_backend::ascii(instance::CHALLENGE_LABEL@) == "challenge"@,
        hash_mle_backend::ascii(sumcheck::POLY_LABEL@) == "p"@,
        hash_mle_backend::ascii(sumcheck::CHALLENGE_LABEL@) == "c"@,
        hash_mle_backend::ascii(keccak::PERSONA_TAG@) == "NoTR"@,
        hash_mle_backend::ascii(keccak::DOM_SEP_TAG@) == "NoDS"@,
{
    reveal_strlit("R1CSSNARK");
    assert(hash_mle_backend::ascii(spartan::SNARK_LABEL@) =~= "R1CSSNARK"@);
    reveal_strlit("R1CSSNARK/inner");
    assert(hash_mle_backend::ascii(spartan::INNER_LABEL@) =~= "R1CSSNARK/inner"@);
    reveal_strlit("R1CSSNARK/pcs");
    assert(hash_mle_backend::ascii(spartan::PCS_LABEL@) =~= "R1CSSNARK/pcs"@);
    reveal_strlit("vk");
    assert(hash_mle_backend::ascii(spartan::VK_LABEL@) =~= "vk"@);
    reveal_strlit("t");
    assert(hash_mle_backend::ascii(spartan::TAU_LABEL@) =~= "t"@);
    reveal_strlit("claims_outer");
    assert(hash_mle_backend::ascii(spartan::CLAIMS_OUTER_LABEL@) =~= "claims_outer"@);
    reveal_strlit("r");
    assert(hash_mle_backend::ascii(spartan::R_LABEL@) =~= "r"@);
    reveal_strlit("anchor/inner+pcs");
    assert(hash_mle_backend::ascii(spartan::FORK_LABEL@) =~= "anchor/inner+pcs"@);
    reveal_strlit("anchor");
    assert(hash_mle_backend::ascii(spartan::ANCHOR_LABEL@) =~= "anchor"@);
    reveal_strlit("ck");
    assert(hash_mle_backend::ascii(spartan::CK_LABEL@) =~= "ck"@);
    reveal_strlit("public_values");
    assert(hash_mle_backend::ascii(instance::PUBLIC_VALUES_LABEL@) =~= "public_values"@);
    reveal_strlit("comm_W_shared");
    assert(hash_mle_backend::ascii(instance::COMM_W_SHARED_LABEL@) =~= "comm_W_shared"@);
    reveal_strlit("comm_W_precommitted");
    assert(hash_mle_backend::ascii(instance::COMM_W_PRECOMMITTED_LABEL@) =~= "comm_W_precommitted"@);
    reveal_strlit("comm_W_rest");
    assert(hash_mle_backend::ascii(instance::COMM_W_REST_LABEL@) =~= "comm_W_rest"@);
    reveal_strlit("challenge");
    assert(hash_mle_backend::ascii(instance::CHALLENGE_LABEL@) =~= "challenge"@);
    reveal_strlit("p");
    assert(hash_mle_backend::ascii(sumcheck::POLY_LABEL@) =~= "p"@);
    reveal_strlit("c");
    assert(hash_mle_backend::ascii(sumcheck::CHALLENGE_LABEL@) =~= "c"@);
    reveal_strlit("NoTR");
    assert(hash_mle_backend::ascii(keccak::PERSONA_TAG@) =~= "NoTR"@);
    reveal_strlit("NoDS");
    assert(hash_mle_backend::ascii(keccak::DOM_SEP_TAG@) =~= "NoDS"@);
}

/// No proof is accepted without its argument: the commitment scheme accepts it, for the commitment
/// that the pieces combine to and the claimed value of the witness, at some point with as many
/// coordinates as the witness has variables.
pub proof fn law_accepted_argument<E: SnarkEngine>(
    vk: EvaluationKey<E>,
    s: ShapeModel,
    pi: ProofOf<E>,
)
    requires
        spartan::verify_of::<E>(vk, s, pi) is Ok,
    ensures
        exists|t: TranscriptModel, comm: CommitmentOf<E>, point: Seq<int>|
            point.len() == merkle_tree::height(s.sizes.num_vars()) && E::PCS::combine_partial_of(
                instance::parts(pi.instance),
            ) == Ok::<_, ErrorModel>(comm) && #[trigger] E::PCS::verify_of(
                vk,
                t,
                comm,
                point,
                pi.eval_w,
                pi.arg,
            ).0 is Ok,
{
    let w = course_of::<E>(vk, s, pi);
    let n = merkle_tree::height(s.sizes.num_vars()) + 1;
    let fork = TranscriptModel::start(spartan::INNER_LABEL@).absorb(
        spartan::ANCHOR_LABEL@,
        E::Scalar::repr_of(w.anchor),
    );
    law_accepts_exactly::<E>(vk, s, pi);
    sumcheck::law_verifier_round::<E::Scalar>(pi.inner, pi.inner_sum, n, 2, fork, 0);
    let t = TranscriptModel::start(spartan::PCS_LABEL@).absorb(
        spartan::ANCHOR_LABEL@,
        E::Scalar::repr_of(w.anchor),
    );
    let comm = E::PCS::combine_partial_of(instance::parts(pi.instance))->Ok_0;
    let point = w.inner->Ok_0.1.skip(1);
    assert(E::PCS::verify_of(vk, t, comm, point, pi.eval_w, pi.arg).0 is Ok);
}

/// An accepted proof over Keccak-256 opens the committed witness: it has a single piece, whose root
/// is the first of the argument, the rounds of the argument fold their values along a point with a
/// coordinate for each of them, and the last one leads to the value of the witness.
pub proof fn law_accepted_proof_folds<E: SnarkEngine<PCS = HashMlePCS<E>>>(
    vk: EvaluationKey<E>,
    s: ShapeModel,
    pi: ProofOf<E>,
)
    requires
        spartan::verify_of::<E>(vk, s, pi) is Ok,
        merkle_tree::height(s.sizes.num_vars()) > 0,
    ensures
        pi.instance.shared is None,
        pi.instance.precommitted is None,
        pi.arg.rounds.len() == merkle_tree::height(s.sizes.num_vars()),
        pi.arg.layer_roots[0] == pi.instance.rest.base_root,
        pi.arg.rounds.last().next == pi.eval_w,
        exists|point: Seq<int>|
            #![trigger point.len()]
            point.len() == pi.arg.rounds.len() && forall|i: int|
                0 <= i < point.len() ==> (#[trigger] pi.arg.rounds[i]).next == (pi.arg.rounds[i].a
                    + point[i] * (pi.arg.rounds[i].b - pi.arg.rounds[i].a))
                    % E::Scalar::modulus(),
{
    law_accepted_argument::<E>(vk, s, pi);
    let n = merkle_tree::height(s.sizes.num_vars());
    let (t, comm, point) = choose|
        t: TranscriptModel,
        comm: CommitmentOf<E>,
        point: Seq<int>,
    |
        point.len() == n && <E as SnarkEngine>::PCS::combine_partial_of(
            instance::parts(pi.instance),
        ) == Ok::<_, ErrorModel>(comm) && #[trigger] <E as SnarkEngine>::PCS::verify_of(
            vk,
            t,
            comm,
            point,
            pi.eval_w,
            pi.arg,
        ).0 is Ok;
    binding::law_single_piece::<E>(
        HashMleCommitmentKey { branching: 2, zk_mode: vk.zk_mode, _p: vk._p },
        vk,
        instance::parts(pi.instance),
        Seq::empty(),
        Seq::empty(),
    );
    instance::law_parts_in_order(pi.instance);
    assert forall|i: int| 0 <= i < point.len() implies (#[trigger] pi.arg.rounds[i]).next == (
    pi.arg.rounds[i].a + point[i] * (pi.arg.rounds[i].b - pi.arg.rounds[i].a))
        % E::Scalar::modulus() by {
        binding::law_accepted_values_fold::<E>(
            vk,
            t,
            comm,
            point,
            pi.eval_w,
            pi.arg,
            i,
            0,
        );
    }
    binding::law_accepted_values_fold::<E>(
        vk,
        t,
        comm,
        point,
        pi.eval_w,
        pi.arg,
        0,
        0,
    );
}

/// The argument fixes the value and the commitment: two accepted proofs over Keccak-256 with one
/// argument claim the same value of the witness and hold the same root.
pub proof fn law_argument_fixes_the_value<E: SnarkEngine<PCS = HashMlePCS<E>>>(
    vk: EvaluationKey<E>,
    s: ShapeModel,
    pi: ProofOf<E>,
    other: ProofOf<E>,
)
    requires
        spartan::verify_of::<E>(vk, s, pi) is Ok,
        spartan::verify_of::<E>(vk, s, other) is Ok,
        merkle_tree::height(s.sizes.num_vars()) > 0,
        pi.arg == other.arg,
    ensures
        pi.eval_w == other.eval_w,
        pi.instance.rest.base_root == other.instance.rest.base_root,
{
    law_accepted_proof_folds::<E>(vk, s, pi);
    law_accepted_proof_folds::<E>(vk, s, other);
}

/// An accepted proof over Poseidon2 opens the committed witness: it has a single piece, whose root
/// is the first of the argument, the rounds of the argument fold their values along a point with a
/// coordinate for each of them, and the last one leads to the value of the witness.
pub proof fn law_accepted_proof_folds_p3(
    vk: EvaluationKey<GoldilocksP3MerkleMleEngine>,
    s: ShapeModel,
    pi: ProofOf<GoldilocksP3MerkleMleEngine>,
)
    requires
        spartan::verify_of::<GoldilocksP3MerkleMleEngine>(vk, s, pi) is Ok,
        merkle_tree::height(s.sizes.num_vars()) > 0,
    ensures
        pi.instance.shared is None,
        pi.instance.precommitted is None,
        pi.arg.rounds.len() == merkle_tree::height(s.sizes.num_vars()),
        pi.arg.layer_roots[0] == pi.instance.rest.base_root,
        pi.arg.rounds.last().next == pi.eval_w,
        exists|point: Seq<int>|
            #![trigger point.len()]
            point.len() == pi.arg.rounds.len() && forall|i: int|
                0 <= i < point.len() ==> (#[trigger] pi.arg.rounds[i]).next == (pi.arg.rounds[i].a
                    + point[i] * (pi.arg.rounds[i].b - pi.arg.rounds[i].a))
                    % <F as ScalarField>::modulus(),
{
    law_accepted_argument::<GoldilocksP3MerkleMleEngine>(vk, s, pi);
    let n = merkle_tree::height(s.sizes.num_vars());
    let (t, comm, point) = choose|
        t: TranscriptModel,
        comm: CommitmentOf<GoldilocksP3MerkleMleEngine>,
        point: Seq<int>,
    |
        point.len() == n && <GoldilocksP3MerkleMleEngine as SnarkEngine>::PCS::combine_partial_of(
            instance::parts(pi.instance),
        ) == Ok::<_, ErrorModel>(comm) && #[trigger] <GoldilocksP3MerkleMleEngine as SnarkEngine>::PCS::verify_of(
            vk,
            t,
            comm,
            point,
            pi.eval_w,
            pi.arg,
        ).0 is Ok;
    binding::law_single_piece_p3::<GoldilocksP3MerkleMleEngine>(
        HashMleCommitmentKey { branching: 2, zk_mode: vk.zk_mode, _p: vk._p },
        vk,
        instance::parts(pi.instance),
        Seq::empty(),
        Seq::empty(),
    );
    instance::law_parts_in_order(pi.instance);
    assert forall|i: int| 0 <= i < point.len() implies (#[trigger] pi.arg.rounds[i]).next == (
    pi.arg.rounds[i].a + point[i] * (pi.arg.rounds[i].b - pi.arg.rounds[i].a))
        % <F as ScalarField>::modulus() by {
        binding::law_accepted_values_fold_p3::<GoldilocksP3MerkleMleEngine>(
            vk,
            t,
            comm,
            point,
            pi.eval_w,
            pi.arg,
            i,
            0,
        );
    }
    binding::law_accepted_values_fold_p3::<GoldilocksP3MerkleMleEngine>(
        vk,
        t,
        comm,
        point,
        pi.eval_w,
        pi.arg,
        0,
        0,
    );
}

/// The argument fixes the value and the commitment: two accepted proofs over Poseidon2 with one
/// argument claim the same value of the witness and hold the same root.
pub proof fn law_argument_fixes_the_value_p3(
    vk: EvaluationKey<GoldilocksP3MerkleMleEngine>,
    s: ShapeModel,
    pi: ProofOf<GoldilocksP3MerkleMleEngine>,
    other: ProofOf<GoldilocksP3MerkleMleEngine>,
)
    requires
        spartan::verify_of::<GoldilocksP3MerkleMleEngine>(vk, s, pi) is Ok,
        spartan::verify_of::<GoldilocksP3MerkleMleEngine>(vk, s, other) is Ok,
        merkle_tree::height(s.sizes.num_vars()) > 0,
        pi.arg == other.arg,
    ensures
        pi.eval_w == other.eval_w,
        pi.instance.rest.base_root == other.instance.rest.base_root,
{
    law_accepted_proof_folds_p3(vk, s, pi);
    law_accepted_proof_folds_p3(vk, s, other);
}

} // verus!
