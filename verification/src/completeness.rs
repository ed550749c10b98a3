//! Completeness of the proof system: what an honest prover makes, the verifier accepts.
use crate::digest;
use crate::errors::ErrorModel;
use crate::modular;
use crate::polys::{eq, multilinear, sums};
use crate::primes;
use crate::provider::keccak::{self, TranscriptModel};
use crate::provider::{
    GoldilocksMerkleMleEngine, GoldilocksP3MerkleMleEngine, PallasMerkleMleEngine,
    VestaMerkleMleEngine,
};
use crate::provider::pcs::layers;
use crate::provider::pcs::merkle_tree;
use crate::r1cs::instance::{self, InstanceModel, PartialModel};
use crate::r1cs::shape::{self, ShapeModel};
use crate::r1cs::sparse::{self, MatrixModel};
use crate::soundness;
use crate::spartan::{
    self, ArgumentOf, BlindOf, CommitmentKey, CommitmentOf, Committed, EvaluationKey, PrepOf,
    ProofModel, ProofOf, Reduction,
};
use crate::sumcheck;
use crate::traits::{self, Engine, PCSEngineTrait, ScalarField, SnarkEngine, TranscriptReprTrait};
#[allow(unused_imports)]
use vstd::arithmetic::div_mod::*;
#[allow(unused_imports)]
use vstd::arithmetic::mul::*;
#[allow(unused_imports)]
use vstd::arithmetic::power2::*;
use vstd::prelude::*;

verus! {

/// The columns of a matrix, weighted by the equality polynomial at `ry`, add up to the value of
/// the matrix.
proof fn lemma_columns_value<S: ScalarField>(
    m: MatrixModel,
    ex: Seq<int>,
    ry: Seq<int>,
    width: nat,
)
    requires
        sparse::in_bounds(m),
        m.cols <= width,
        width == pow2(ry.len()),
    ensures
        modular::cong(
            S::modulus(),
            sums::sum(|j: int| sparse::times_column(m, ex, j) * eq::chi(ry, j), width),
            sparse::bilinear(m, ex, eq::eq_table(S::modulus(), ry)),
        ),
{
    let p = S::modulus();
    S::lemma_modulus();
    let ey = eq::eq_table(p, ry);
    sparse::law_bilinear_by_columns(m, ex, ey);
    let f = |j: int| sparse::times_column(m, ex, j) * eq::chi(ry, j);
    let g = |j: int| sparse::times_column(m, ex, j) * ey[j];
    let up = |j: int| f(m.cols + j);
    sums::lemma_sum_split(f, up, m.cols, (width - m.cols) as nat);
    assert forall|j: int| 0 <= j < width - m.cols implies #[trigger] up(j) == 0 by {
        sparse::lemma_outside(m, ex, m.cols + j);
        lemma_mul_basics(eq::chi(ry, m.cols + j));
    }
    sums::lemma_sum_zero(up, (width - m.cols) as nat);
    assert forall|j: int| 0 <= j < m.cols implies modular::cong(p, #[trigger] f(j), g(j)) by {
        let t = sparse::times_column(m, ex, j);
        modular::lemma_cong_mod(p, eq::chi(ry, j));
        modular::lemma_cong_mul(p, t, t, eq::chi(ry, j), ey[j]);
    }
    sums::lemma_sum_cong(p, f, g, m.cols);
}

/// The table of the matrices extends to the value of the matrices.
proof fn lemma_abc_value<S: ScalarField>(s: ShapeModel, rx: Seq<int>, ry: Seq<int>, r: int)
    requires
        shape::shape_valid(s),
        pow2(ry.len()) == 2 * s.sizes.num_vars(),
    ensures
        ({
            let p = S::modulus();
            multilinear::mle_eval(
                p,
                spartan::abc_of::<S>(s, eq::eq_table(p, rx), r),
                ry,
            ) == spartan::matrix_value::<S>(s, rx, ry, r) % p
        }),
{
    let p = S::modulus();
    S::lemma_modulus();
    let n = 2 * s.sizes.num_vars();
    let ex = eq::eq_table(p, rx);
    let ey = eq::eq_table(p, ry);
    let abc = spartan::abc_of::<S>(s, ex, r);
    let ta = |j: int| sparse::times_column(s.a, ex, j);
    let tb = |j: int| sparse::times_column(s.b, ex, j);
    let tc = |j: int| sparse::times_column(s.c, ex, j);
    let raw = Seq::new(n, |j: int| ta(j) + r * tb(j) + r * r * tc(j));
    assert forall|j: int| 0 <= j < n implies modular::cong(p, #[trigger] abc[j], raw[j]) by {
        modular::lemma_cong_mod(p, raw[j]);
    }
    multilinear::lemma_mle_cong(p, abc, raw, ry);
    lemma_columns_value::<S>(s.a, ex, ry, n);
    lemma_columns_value::<S>(s.b, ex, ry, n);
    lemma_columns_value::<S>(s.c, ex, ry, n);
    let fa = |j: int| sparse::times_column(s.a, ex, j) * eq::chi(ry, j);
    let fb = |j: int| sparse::times_column(s.b, ex, j) * eq::chi(ry, j);
    let fc = |j: int| sparse::times_column(s.c, ex, j) * eq::chi(ry, j);
    let gb = |j: int| r * fb(j);
    let gc = |j: int| (r * r) * fc(j);
    let gab = |j: int| fa(j) + gb(j);
    let f = |j: int| raw[j] * eq::chi(ry, j);
    sums::lemma_sum_scale(r, fb, gb, n);
    sums::lemma_sum_scale(r * r, fc, gc, n);
    sums::lemma_sum_add(fa, gb, gab, n);
    assert forall|j: int| 0 <= j < n implies #[trigger] f(j) == gab(j) + gc(j) by {
        let c = eq::chi(ry, j);
        let (a, b, d) = (ta(j), tb(j), tc(j));
        let rr = r * r;
        assert((a + r * b + rr * d) * c == a * c + r * (b * c) + rr * (d * c)) by (nonlinear_arith);
    }
    sums::lemma_sum_add(gab, gc, f, n);
    let (sa, sb, sc) = (sums::sum(fa, n), sums::sum(fb, n), sums::sum(fc, n));
    let (xa, xb, xc) = (
        sparse::bilinear(s.a, ex, ey),
        sparse::bilinear(s.b, ex, ey),
        sparse::bilinear(s.c, ex, ey),
    );
    modular::lemma_cong_mul(p, r, r, sb, xb);
    modular::lemma_cong_mul(p, r * r, r * r, sc, xc);
    modular::lemma_cong_add(p, sa, xa, r * sb, r * xb);
    modular::lemma_cong_add(p, sa + r * sb, xa + r * xb, (r * r) * sc, (r * r) * xc);
}

/// The table `Z` extends to its value.
proof fn lemma_z_value(
    p: int,
    hash_mle: bool,
    w: Seq<int>,
    x: Seq<int>,
    challenges: Seq<int>,
    ry: Seq<int>,
)
    requires
        p > 1,
        ry.len() > 0,
        w.len() == pow2((ry.len() - 1) as nat),
        x.len() + challenges.len() < w.len(),
        hash_mle || challenges.len() == 0,
    ensures
        multilinear::mle_eval(
            p,
            spartan::z_table(hash_mle, w, x, challenges, w.len()),
            ry,
        ) == spartan::z_value(
            p,
            hash_mle,
            multilinear::mle_eval(p, w, ry.skip(1)),
            x,
            w.len(),
            ry,
        ) % p,
{
    let n = w.len();
    let rest = ry.skip(1);
    assert(ry.drop_first() =~= rest);
    let z = spartan::z_table(hash_mle, w, x, challenges, n);
    let right = if hash_mle {
        spartan::x_full(x, n)
    } else {
        multilinear::zero_padded(seq![1int] + x, n)
    };
    assert(z =~= w + right);
    multilinear::law_gated_table(p, w, right, ry);
    if hash_mle && x.len() == 0 {
        assert(right =~= Seq::new(pow2(rest.len()), |i: int| 1));
        multilinear::law_constant_extends(p, 1, rest);
        lemma_small_mod(1, p as nat);
    }
}

/// A filled-up table lies in the field.
proof fn lemma_padded_in_field(p: int, v: Seq<int>, n: nat)
    requires
        p > 1,
        multilinear::in_field(p, v),
    ensures
        multilinear::in_field(p, multilinear::zero_padded(v, n)),
{
}

/// The table `Z` lies in the field.
proof fn lemma_z_in_field(
    p: int,
    hash_mle: bool,
    w: Seq<int>,
    x: Seq<int>,
    challenges: Seq<int>,
    n: nat,
)
    requires
        p > 1,
        multilinear::in_field(p, w),
        multilinear::in_field(p, x),
        multilinear::in_field(p, challenges),
    ensures
        multilinear::in_field(p, spartan::z_table(hash_mle, w, x, challenges, n)),
{
    let z = spartan::z_table(hash_mle, w, x, challenges, n);
    let one_x = seq![1int] + x;
    assert(multilinear::in_field(p, one_x)) by {
        assert forall|i: int| 0 <= i < one_x.len() implies 0 <= #[trigger] one_x[i] < p by {
            if i > 0 {
                assert(one_x[i] == x[i - 1]);
            }
        }
    }
    let all = spartan::z_vector(w, x, challenges);
    assert(multilinear::in_field(p, all)) by {
        assert forall|i: int| 0 <= i < all.len() implies 0 <= #[trigger] all[i] < p by {
            if i < w.len() {
                assert(all[i] == w[i]);
            } else if i == w.len() {
                assert(all[i] == 1);
            } else if i < w.len() + 1 + x.len() {
                assert(all[i] == x[i - w.len() - 1]);
            } else {
                assert(all[i] == challenges[i - w.len() - 1 - x.len()]);
            }
        }
    }
    if hash_mle {
        lemma_padded_in_field(p, one_x, n);
        let full = spartan::x_full(x, n);
        assert(multilinear::in_field(p, full)) by {
            assert forall|i: int| 0 <= i < full.len() implies 0 <= #[trigger] full[i] < p by {
                if x.len() == 1 {
                    assert(0 <= x[0] < p);
                }
            }
        }
        assert forall|i: int| 0 <= i < z.len() implies 0 <= #[trigger] z[i] < p by {
            if i < w.len() {
                assert(z[i] == w[i]);
            } else {
                assert(z[i] == full[i - w.len()]);
            }
        }
    } else {
        lemma_padded_in_field(p, all, 2 * n);
    }
}

/// The tables of the outer sum-check of a satisfied system add up to zero.
proof fn lemma_outer_sum<S: ScalarField>(s: ShapeModel, tau: Seq<int>, z: Seq<int>)
    requires
        shape::shape_valid(s),
        tau.len() == merkle_tree::height(s.sizes.num_cons),
        shape::satisfies(S::modulus(), s, z),
    ensures
        modular::cong(
            S::modulus(),
            0,
            sumcheck::full_sum(spartan::outer_tables::<S>(s, tau, z)),
        ),
{
    let p = S::modulus();
    S::lemma_modulus();
    let tables = spartan::outer_tables::<S>(s, tau, z);
    let n = s.sizes.num_cons;
    layers::lemma_height_pow2(n);
    let f = |i: int| sumcheck::comb(sumcheck::entries(tables, i));
    let zero = |i: int| 0int;
    assert forall|i: int| 0 <= i < n implies modular::cong(p, #[trigger] f(i), zero(i)) by {
        let e = sumcheck::entries(tables, i);
        let (ra, rb, rc) = (
            sparse::row_times(s.a, z, i),
            sparse::row_times(s.b, z, i),
            sparse::row_times(s.c, z, i),
        );
        assert(e[1] == ra % p);
        assert(e[2] == rb % p);
        assert(e[3] == rc % p);
        modular::lemma_cong_mod(p, ra);
        modular::lemma_cong_mod(p, rb);
        modular::lemma_cong_mod(p, rc);
        modular::lemma_cong_mul(p, e[1], ra, e[2], rb);
        modular::lemma_cong_sub(p, e[1] * e[2], ra * rb, e[3], rc);
        lemma_small_mod(0, p as nat);
        assert((ra * rb - rc) % p == 0);
        modular::lemma_cong_mul(p, e[0], e[0], e[1] * e[2] - e[3], 0);
        lemma_mul_basics(e[0]);
    }
    sums::lemma_sum_cong(p, f, zero, n);
    sums::lemma_sum_zero(zero, n);
}

/// Remainders lie in the field.
proof fn lemma_tables_in_field<S: ScalarField>(s: ShapeModel, tau: Seq<int>, z: Seq<int>)
    ensures
        ({
            let tables = spartan::outer_tables::<S>(s, tau, z);
            forall|j: int|
                0 <= j < tables.len() ==> multilinear::in_field(S::modulus(), #[trigger] tables[j])
        }),
{
    let p = S::modulus();
    S::lemma_modulus();
    let tables = spartan::outer_tables::<S>(s, tau, z);
    assert forall|j: int| 0 <= j < tables.len() implies multilinear::in_field(
        p,
        #[trigger] tables[j],
    ) by {
        let t = tables[j];
        assert forall|i: int| 0 <= i < t.len() implies 0 <= #[trigger] t[i] < p by {
            if j == 0 {
                lemma_mod_bound(eq::chi(tau, i), p);
            } else if j == 1 {
                lemma_mod_bound(sparse::row_times(s.a, z, i), p);
            } else if j == 2 {
                lemma_mod_bound(sparse::row_times(s.b, z, i), p);
            } else {
                lemma_mod_bound(sparse::row_times(s.c, z, i), p);
            }
        }
    }
}

/// Challenges lie in the field.
proof fn lemma_challenges_in_field<E: Engine>(t: TranscriptModel, label: Seq<u8>, n: nat)
    ensures
        multilinear::in_field(
            E::Scalar::modulus(),
            keccak::squeeze_many::<E>(t, label, n).values,
        ),
    decreases n,
{
    if n > 0 {
        lemma_challenges_in_field::<E>(t, label, (n - 1) as nat);
        let before = keccak::squeeze_many::<E>(t, label, (n - 1) as nat);
        E::Scalar::lemma_uniform(before.end.digest(label));
    }
}

/// A commitment to a piece that is not empty comes from a blind.
proof fn lemma_piece<E: SnarkEngine>(
    ck: CommitmentKey<E>,
    v: Seq<int>,
    piece: Option<(PartialModel<E>, BlindOf<E>)>,
) -> (b: BlindOf<E>)
    requires
        v.len() > 0,
        spartan::commits::<E>(ck, v, Ok(piece)),
    ensures
        piece is Some,
        E::PCS::is_blind(ck, v.len(), b),
        E::PCS::commit_partial_of(ck, v, b) == Ok::<_, ErrorModel>(piece->Some_0),
{
    let outcome = Ok::<_, ErrorModel>(piece);
    choose|b: BlindOf<E>|
        E::PCS::is_blind(ck, v.len(), b) && outcome == #[trigger] spartan::piece_of::<E>(ck, v, b)
}

/// The check of an honest instance finds nothing wrong and leaves the transcript as the prover
/// does.
proof fn lemma_validate<E: SnarkEngine>(
    ck: CommitmentKey<E>,
    s: ShapeModel,
    digest: Seq<u8>,
    shared: Seq<int>,
    precommitted: Seq<int>,
    prep: PrepOf<E>,
    public_values: Seq<int>,
    rest: Seq<int>,
    b: BlindOf<E>,
    c: Committed<PartialModel<E>, BlindOf<E>>,
)
    requires
        shape::shape_valid(s),
        spartan::prepares::<E>(ck, s, shared, precommitted, Ok(prep)),
        spartan::challenges_of::<E>(s, digest, prep, public_values, rest) is Ok,
        spartan::committed_of::<E>(
            ck,
            s,
            prep,
            public_values,
            rest,
            spartan::challenges_of::<E>(s, digest, prep, public_values, rest)->Ok_0,
            b,
        ) == Ok::<_, ErrorModel>(c),
        public_values.len() == s.sizes.num_public,
    ensures
        instance::validate_of::<E>(
            s.sizes,
            c.instance,
            TranscriptModel::start(spartan::SNARK_LABEL@).absorb(spartan::VK_LABEL@, digest),
        ) == (Ok::<(), ErrorModel>(()), c.end),
        c.instance.challenges.len() == s.sizes.num_challenges,
        c.witness.len() == s.sizes.num_vars(),
{
    let v1 = multilinear::zero_padded(shared, s.sizes.num_shared);
    let v2 = multilinear::zero_padded(precommitted, s.sizes.num_precommitted);
    let v3 = multilinear::zero_padded(rest, s.sizes.num_rest);
    if s.sizes.num_shared > 0 {
        let b1 = lemma_piece::<E>(ck, v1, prep.shared);
        E::PCS::lemma_check_partial(ck, v1, b1, prep.shared->Some_0.0, prep.shared->Some_0.1);
    }
    if s.sizes.num_precommitted > 0 {
        let b2 = lemma_piece::<E>(ck, v2, prep.precommitted);
        let (comm, used) = prep.precommitted->Some_0;
        E::PCS::lemma_check_partial(ck, v2, b2, comm, used);
    }
    let (comm, used) = E::PCS::commit_partial_of(ck, v3, b)->Ok_0;
    E::PCS::lemma_check_partial(ck, v3, b, comm, used);
    keccak::lemma_squeeze_many_len::<E>(
        spartan::challenge_transcript::<E>(digest, prep, public_values),
        instance::CHALLENGE_LABEL@,
        s.sizes.num_challenges,
    );
}

/// The commitments to the pieces are the commitment to the witness.
proof fn lemma_commitment<E: SnarkEngine>(
    ck: CommitmentKey<E>,
    s: ShapeModel,
    shared: Seq<int>,
    precommitted: Seq<int>,
    prep: PrepOf<E>,
    public_values: Seq<int>,
    rest: Seq<int>,
    challenges: keccak::Challenges,
    b: BlindOf<E>,
    c: Committed<PartialModel<E>, BlindOf<E>>,
)
    requires
        shape::fills_rows(E::PCS::width_of(), s.sizes),
        spartan::prepares::<E>(ck, s, shared, precommitted, Ok(prep)),
        E::PCS::is_blind(ck, s.sizes.num_rest, b),
        spartan::committed_of::<E>(ck, s, prep, public_values, rest, challenges, b) == Ok::<
            _,
            ErrorModel,
        >(c),
        E::PCS::combine_partial_of(instance::parts(c.instance)) is Ok,
    ensures
        E::PCS::commit_of(ck, c.witness, c.blind) == E::PCS::combine_partial_of(
            instance::parts(c.instance),
        ),
{
    let v1 = multilinear::zero_padded(shared, s.sizes.num_shared);
    let v2 = multilinear::zero_padded(precommitted, s.sizes.num_precommitted);
    let v3 = multilinear::zero_padded(rest, s.sizes.num_rest);
    let used3 = E::PCS::commit_partial_of(ck, v3, b)->Ok_0.1;
    let (p1, k1): (Seq<Seq<int>>, Seq<BlindOf<E>>) = if v1.len() == 0 {
        (Seq::empty(), Seq::empty())
    } else {
        let b1 = lemma_piece::<E>(ck, v1, prep.shared);
        (seq![v1], seq![b1])
    };
    let (p2, k2): (Seq<Seq<int>>, Seq<BlindOf<E>>) = if v2.len() == 0 {
        (Seq::empty(), Seq::empty())
    } else {
        let b2 = lemma_piece::<E>(ck, v2, prep.precommitted);
        (seq![v2], seq![b2])
    };
    let pieces = p1 + p2 + seq![v3];
    let blinds = k1 + k2 + seq![b];
    let parts = instance::parts(c.instance);
    let used = spartan::blind_part(prep.shared) + spartan::blind_part(prep.precommitted) + seq![
        used3,
    ];
    assert(pieces.len() == parts.len() && pieces.len() == used.len());
    assert forall|i: int| 0 <= i < pieces.len() implies E::PCS::is_blind(
        ck,
        (#[trigger] pieces[i]).len(),
        blinds[i],
    ) && E::PCS::commit_partial_of(ck, pieces[i], blinds[i]) == Ok::<_, ErrorModel>(
        (parts[i], used[i]),
    ) by {
        if i < p1.len() {
            assert(pieces[i] == v1);
        } else if i < p1.len() + p2.len() {
            assert(pieces[i] == v2);
        } else {
            assert(pieces[i] == v3);
        }
    }
    assert forall|i: int| 0 <= i < pieces.len() - 1 implies (#[trigger] pieces[i]).len()
        % E::PCS::width_of() == 0 by {
        assert(pieces[i] == v1 || pieces[i] == v2);
    }
    E::PCS::lemma_combine(ck, pieces, blinds, parts, used);
    assert(pieces.flatten() =~= v1 + v2 + v3) by {
        pieces.lemma_flatten_and_flatten_alt_are_equivalent();
        reveal_with_fuel(Seq::flatten_alt, 4);
        assert(pieces.drop_last() =~= p1 + p2);
        if p2.len() > 0 {
            assert((p1 + p2).drop_last() =~= p1);
        } else {
            assert(p1 + p2 =~= p1);
        }
        if p1.len() > 0 {
            assert(p1.drop_last() =~= Seq::<Seq<int>>::empty());
        }
    }
}

/// The columns of a matrix, weighted by a vector that is filled up with zeros, add up to the value
/// at a point of the product of the matrix and the vector.
proof fn lemma_columns_dot<S: ScalarField>(m: MatrixModel, z: Seq<int>, rx: Seq<int>, width: nat)
    requires
        sparse::in_bounds(m),
        m.cols == z.len(),
        m.cols <= width,
        m.rows.len() == pow2(rx.len()),
    ensures
        ({
            let p = S::modulus();
            let ex = eq::eq_table(p, rx);
            let y = multilinear::zero_padded(z, width);
            modular::cong(
                p,
                sums::sum(|j: int| sparse::times_column(m, ex, j) * y[j], width),
                multilinear::mle_eval(p, shape::products::<S>(m, z), rx),
            )
        }),
{
    let p = S::modulus();
    S::lemma_modulus();
    let ex = eq::eq_table(p, rx);
    let y = multilinear::zero_padded(z, width);
    sparse::law_bilinear_by_columns(m, ex, z);
    let f = |j: int| sparse::times_column(m, ex, j) * y[j];
    let g = |j: int| sparse::times_column(m, ex, j) * z[j];
    let up = |j: int| f(m.cols + j);
    sums::lemma_sum_split(f, up, m.cols, (width - m.cols) as nat);
    assert forall|j: int| 0 <= j < width - m.cols implies #[trigger] up(j) == 0 by {
        sparse::lemma_outside(m, ex, m.cols + j);
        lemma_mul_basics(y[m.cols + j]);
    }
    sums::lemma_sum_zero(up, (width - m.cols) as nat);
    sums::lemma_sum_eq(f, g, m.cols);
    let t = shape::products::<S>(m, z);
    let rows = |i: int| ex[i] * sparse::row_times(m, z, i);
    let values = |i: int| t[i] * eq::chi(rx, i);
    assert forall|i: int| 0 <= i < m.rows.len() implies modular::cong(
        p,
        #[trigger] rows(i),
        values(i),
    ) by {
        let v = sparse::row_times(m, z, i);
        let c = eq::chi(rx, i);
        modular::lemma_cong_mod(p, v);
        modular::lemma_cong_mod(p, c);
        modular::lemma_cong_mul(p, ex[i], c, v, t[i]);
        lemma_mul_is_commutative(c, t[i]);
    }
    sums::lemma_sum_cong(p, rows, values, m.rows.len());
    modular::lemma_cong_mod(p, sums::sum(values, t.len()));
}

/// Where the table `Z` is the vector that the matrices are multiplied with, the sum of the inner
/// sum-check is the combination of the claims of the outer one.
proof fn lemma_joint_claim<S: ScalarField>(s: ShapeModel, z: Seq<int>, rx: Seq<int>, r: int)
    requires
        shape::shape_valid(s),
        z.len() == s.sizes.num_cols(),
        s.sizes.num_cons == pow2(rx.len()),
    ensures
        ({
            let p = S::modulus();
            spartan::dot(
                p,
                spartan::abc_of::<S>(s, eq::eq_table(p, rx), r),
                multilinear::zero_padded(z, 2 * s.sizes.num_vars()),
            ) == spartan::joint_claim(
                p,
                seq![
                    multilinear::mle_eval(p, shape::products::<S>(s.a, z), rx),
                    multilinear::mle_eval(p, shape::products::<S>(s.b, z), rx),
                    multilinear::mle_eval(p, shape::products::<S>(s.c, z), rx),
                ],
                r,
            )
        }),
{
    let p = S::modulus();
    S::lemma_modulus();
    let n = 2 * s.sizes.num_vars();
    let ex = eq::eq_table(p, rx);
    let y = multilinear::zero_padded(z, n);
    let abc = spartan::abc_of::<S>(s, ex, r);
    lemma_columns_dot::<S>(s.a, z, rx, n);
    lemma_columns_dot::<S>(s.b, z, rx, n);
    lemma_columns_dot::<S>(s.c, z, rx, n);
    let fa = |j: int| sparse::times_column(s.a, ex, j) * y[j];
    let fb = |j: int| sparse::times_column(s.b, ex, j) * y[j];
    let fc = |j: int| sparse::times_column(s.c, ex, j) * y[j];
    let gb = |j: int| r * fb(j);
    let gc = |j: int| (r * r) * fc(j);
    let gab = |j: int| fa(j) + gb(j);
    let all = |j: int| gab(j) + gc(j);
    let f = |j: int| abc[j] * y[j];
    sums::lemma_sum_scale(r, fb, gb, n);
    sums::lemma_sum_scale(r * r, fc, gc, n);
    sums::lemma_sum_add(fa, gb, gab, n);
    sums::lemma_sum_add(gab, gc, all, n);
    assert forall|j: int| 0 <= j < n implies modular::cong(p, #[trigger] f(j), all(j)) by {
        let (a, b, c) = (
            sparse::times_column(s.a, ex, j),
            sparse::times_column(s.b, ex, j),
            sparse::times_column(s.c, ex, j),
        );
        let rr = r * r;
        let v = y[j];
        modular::lemma_cong_mod(p, a + r * b + rr * c);
        modular::lemma_cong_mul(p, abc[j], a + r * b + rr * c, v, v);
        assert((a + r * b + rr * c) * v == a * v + r * (b * v) + rr * (c * v)) by (nonlinear_arith);
    }
    sums::lemma_sum_cong(p, f, all, n);
    let (sa, sb, sc) = (sums::sum(fa, n), sums::sum(fb, n), sums::sum(fc, n));
    let (xa, xb, xc) = (
        multilinear::mle_eval(p, shape::products::<S>(s.a, z), rx),
        multilinear::mle_eval(p, shape::products::<S>(s.b, z), rx),
        multilinear::mle_eval(p, shape::products::<S>(s.c, z), rx),
    );
    modular::lemma_cong_mul(p, r, r, sb, xb);
    modular::lemma_cong_mul(p, r * r, r * r, sc, xc);
    modular::lemma_cong_add(p, sa, xa, r * sb, r * xb);
    modular::lemma_cong_add(p, sa + r * sb, xa + r * xb, (r * r) * sc, (r * r) * xc);
}

/// The claims at the end of the outer sum-check are the values of the products.
proof fn lemma_outer_claims<E: Engine>(s: ShapeModel, t: TranscriptModel, z: Seq<int>)
    requires
        shape::shape_valid(s),
        spartan::outer_of::<E>(s, t, z) is Ok,
    ensures
        ({
            let p = E::Scalar::modulus();
            let n = merkle_tree::height(s.sizes.num_cons);
            let m = spartan::outer_of::<E>(s, t, z)->Ok_0;
            &&& m.run.point.len() == n
            &&& pow2(n) == s.sizes.num_cons
            &&& spartan::outer_claims(m.run) == seq![
                multilinear::mle_eval(p, shape::products::<E::Scalar>(s.a, z), m.run.point),
                multilinear::mle_eval(p, shape::products::<E::Scalar>(s.b, z), m.run.point),
                multilinear::mle_eval(p, shape::products::<E::Scalar>(s.c, z), m.run.point),
            ]
        }),
{
    let p = E::Scalar::modulus();
    E::Scalar::lemma_modulus();
    let n = merkle_tree::height(s.sizes.num_cons);
    let m = spartan::outer_of::<E>(s, t, z)->Ok_0;
    let tau = keccak::squeeze_many::<E>(t, spartan::TAU_LABEL@, n);
    keccak::lemma_squeeze_many_len::<E>(t, spartan::TAU_LABEL@, n);
    let tables = spartan::outer_tables::<E::Scalar>(s, tau.values, z);
    layers::lemma_height_pow2(s.sizes.num_cons);
    assert(sumcheck::tables_shape(tables, n));
    lemma_tables_in_field::<E::Scalar>(s, tau.values, z);
    sumcheck::law_sumcheck_completeness::<E::Scalar>(tables, 0, tau.end, n);
    assert(m.run.tables[1] == seq![multilinear::mle_eval(p, tables[1], m.run.point)]);
    assert(m.run.tables[2] == seq![multilinear::mle_eval(p, tables[2], m.run.point)]);
    assert(m.run.tables[3] == seq![multilinear::mle_eval(p, tables[3], m.run.point)]);
}

/// The verifier follows the outer sum-check of a satisfied system.
proof fn lemma_outer_verifies<E: Engine>(s: ShapeModel, t: TranscriptModel, z: Seq<int>)
    requires
        shape::shape_valid(s),
        spartan::outer_of::<E>(s, t, z) is Ok,
        shape::satisfies(E::Scalar::modulus(), s, z),
    ensures
        ({
            let p = E::Scalar::modulus();
            let n = merkle_tree::height(s.sizes.num_cons);
            let m = spartan::outer_of::<E>(s, t, z)->Ok_0;
            let tau = keccak::squeeze_many::<E>(t, spartan::TAU_LABEL@, n);
            let claims = spartan::outer_claims(m.run);
            &&& tau.complete
            &&& m.run.point.len() == n
            &&& sumcheck::verify_of::<E::Scalar>(m.run.polys, 0, n, 3, tau.end) == (
                Ok::<(int, Seq<int>), ErrorModel>((m.run.claim, m.run.point)),
                m.run.end,
            )
            &&& m.run.claim == (eq::eq_at(tau.values, m.run.point) * (claims[0] * claims[1]
                - claims[2])) % p
        }),
{
    let p = E::Scalar::modulus();
    E::Scalar::lemma_modulus();
    let n = merkle_tree::height(s.sizes.num_cons);
    let m = spartan::outer_of::<E>(s, t, z)->Ok_0;
    let tau = keccak::squeeze_many::<E>(t, spartan::TAU_LABEL@, n);
    keccak::lemma_squeeze_many_len::<E>(t, spartan::TAU_LABEL@, n);
    let tables = spartan::outer_tables::<E::Scalar>(s, tau.values, z);
    layers::lemma_height_pow2(s.sizes.num_cons);
    assert(sumcheck::tables_shape(tables, n));
    lemma_tables_in_field::<E::Scalar>(s, tau.values, z);
    lemma_outer_sum::<E::Scalar>(s, tau.values, z);
    sumcheck::law_sumcheck_completeness::<E::Scalar>(tables, 0, tau.end, n);
    let rx = m.run.point;
    let claims = spartan::outer_claims(m.run);
    let finals = tables.map_values(|v: Seq<int>| multilinear::mle_eval(p, v, rx));
    assert(m.run.tables[1] == seq![multilinear::mle_eval(p, tables[1], rx)]);
    assert(m.run.tables[2] == seq![multilinear::mle_eval(p, tables[2], rx)]);
    assert(m.run.tables[3] == seq![multilinear::mle_eval(p, tables[3], rx)]);
    assert(claims[0] == finals[1] && claims[1] == finals[2] && claims[2] == finals[3]);
    multilinear::law_eq_table_extends(p, tau.values, rx);
    let bound = eq::eq_at(tau.values, rx);
    assert(finals[0] == bound % p);
    modular::lemma_cong_mod(p, bound);
    let d = claims[0] * claims[1] - claims[2];
    modular::lemma_cong_mul(p, bound % p, bound, d, d);
}

/// The verifier follows the inner sum-check and accepts the evaluation argument.
proof fn lemma_inner_verifies<E: SnarkEngine>(
    ck: CommitmentKey<E>,
    vk: EvaluationKey<E>,
    s: ShapeModel,
    c: Committed<PartialModel<E>, BlindOf<E>>,
    pi: ProofOf<E>,
)
    requires
        shape::shape_valid(s),
        E::PCS::are_keys(ck, vk),
        c.witness.len() == s.sizes.num_vars(),
        multilinear::in_field(E::Scalar::modulus(), c.witness),
        multilinear::in_field(E::Scalar::modulus(), c.instance.public_values),
        multilinear::in_field(E::Scalar::modulus(), c.instance.challenges),
        c.instance.public_values.len() == s.sizes.num_public,
        c.instance.challenges.len() == s.sizes.num_challenges,
        E::hash_mle() || s.sizes.num_challenges == 0,
        spartan::relates::<E>(ck, s, c, Ok(pi)),
        E::PCS::commit_of(ck, c.witness, c.blind) == E::PCS::combine_partial_of(
            instance::parts(c.instance),
        ),
    ensures
        ({
            let d = spartan::reduction_of::<E>(s, c.instance, c.witness, c.end)->Ok_0;
            spartan::verify_inner_of::<E>(
                vk,
                s,
                pi,
                d.comm,
                d.outer.run.point,
                d.outer.r,
                d.outer.anchor,
            ) == Ok::<Seq<int>, ErrorModel>(c.instance.public_values)
        }),
{
    let p = E::Scalar::modulus();
    E::Scalar::lemma_modulus();
    let u = c.instance;
    let w = c.witness;
    let x = u.public_values;
    let nv = s.sizes.num_vars();
    let n = merkle_tree::height(nv) + 1;
    let d = spartan::reduction_of::<E>(s, u, w, c.end)->Ok_0;
    let outer = d.outer;
    let (argued, end) = choose|
        argued: Result<(int, ArgumentOf<E>), ErrorModel>,
        end: TranscriptModel,
    |
        #[trigger] spartan::argues::<E>(ck, d, w, c.blind, argued, end) && Ok::<_, ErrorModel>(pi)
            == spartan::proof_of::<E>(u, d, argued);
    let rx = outer.run.point;
    let abc = spartan::abc_of::<E::Scalar>(s, eq::eq_table(p, rx), outer.r);
    let all = spartan::z_vector(w, x, u.challenges);
    let z = spartan::z_table(E::hash_mle(), w, x, u.challenges, nv);
    let tables = seq![abc, z];
    let sum = spartan::dot(p, abc, z);
    let start = spartan::forked::<E::Scalar>(spartan::INNER_LABEL@, outer.anchor);
    let run = sumcheck::prover_run::<E::Scalar>(tables, sum, start, n);
    spartan::lemma_height_bits(nv);
    assert(sumcheck::tables_shape(tables, n));
    // The sum is the combination of the claims.
    if !E::hash_mle() {
        lemma_outer_claims::<E>(s, c.end, all);
        lemma_joint_claim::<E::Scalar>(s, all, rx, outer.r);
    }
    // The tables lie in the field.
    assert(multilinear::in_field(p, abc)) by {
        assert forall|j: int| 0 <= j < abc.len() implies 0 <= #[trigger] abc[j] < p by {
            let ex = eq::eq_table(p, rx);
            lemma_mod_bound(
                sparse::times_column(s.a, ex, j) + outer.r * sparse::times_column(s.b, ex, j)
                    + outer.r * outer.r * sparse::times_column(s.c, ex, j),
                p,
            );
        }
    }
    lemma_z_in_field(p, E::hash_mle(), w, x, u.challenges, nv);
    assert forall|j: int| 0 <= j < tables.len() implies multilinear::in_field(
        p,
        #[trigger] tables[j],
    ) by {
        assert(tables[j] == abc || tables[j] == z);
    }
    // The claim is the sum.
    let f = |i: int| sumcheck::comb(sumcheck::entries(tables, i));
    let g = |i: int| abc[i] * z[i];
    assert forall|i: int| 0 <= i < abc.len() implies #[trigger] f(i) == g(i) by {
        let e = sumcheck::entries(tables, i);
        assert(e.len() == 2 && e[0] == abc[i] && e[1] == z[i]);
    }
    sums::lemma_sum_eq(f, g, abc.len());
    let total = sums::sum(g, abc.len());
    lemma_mod_bound(total, p);
    modular::lemma_cong_mod(p, total);
    assert(sumcheck::full_sum(tables) == total);
    sumcheck::law_sumcheck_completeness::<E::Scalar>(tables, sum, start, n);
    // What is left of the claim.
    let ry = run.point;
    let rest = ry.skip(1);
    lemma_abc_value::<E::Scalar>(s, rx, ry, outer.r);
    lemma_z_value(p, E::hash_mle(), w, x, u.challenges, ry);
    let eval_w = multilinear::mle_eval(p, w, rest);
    let mv = spartan::matrix_value::<E::Scalar>(s, rx, ry, outer.r);
    let zv = spartan::z_value(p, E::hash_mle(), eval_w, x, nv, ry);
    let finals = tables.map_values(|v: Seq<int>| multilinear::mle_eval(p, v, ry));
    assert(finals.len() == 2 && finals[0] == mv % p && finals[1] == zv % p);
    modular::lemma_cong_mod(p, mv);
    modular::lemma_cong_mod(p, zv);
    modular::lemma_cong_mul(p, mv % p, mv, zv % p, zv);
    // The evaluation argument.
    E::PCS::law_completeness(
        ck,
        vk,
        spartan::forked::<E::Scalar>(spartan::PCS_LABEL@, outer.anchor),
        d.comm,
        w,
        c.blind,
        rest,
        pi.eval_w,
        pi.arg,
        end,
    );
}

/// Completeness: every proof that the prover can make of a witness that satisfies the constraint
/// system is accepted, whatever blinds were drawn, and the verifier returns the public values. One
/// prepared state serves any number of proofs.
///
/// The shape is one that was filled up to the width of the commitment scheme. An engine with
/// another commitment scheme than the hash-based ones must not use challenges.
pub proof fn law_snark_completeness<E: SnarkEngine>(
    ck: CommitmentKey<E>,
    vk: EvaluationKey<E>,
    s: ShapeModel,
    shared: Seq<int>,
    precommitted: Seq<int>,
    prep: PrepOf<E>,
    public_values: Seq<int>,
    rest: Seq<int>,
    pi: ProofOf<E>,
)
    requires
        shape::shape_valid(s),
        shape::fills_rows(E::PCS::width_of(), s.sizes),
        E::PCS::are_keys(ck, vk),
        E::hash_mle() || s.sizes.num_challenges == 0,
        multilinear::in_field(E::Scalar::modulus(), shared),
        multilinear::in_field(E::Scalar::modulus(), precommitted),
        multilinear::in_field(E::Scalar::modulus(), public_values),
        multilinear::in_field(E::Scalar::modulus(), rest),
        spartan::prepares::<E>(ck, s, shared, precommitted, Ok(prep)),
        spartan::proves::<E>(
            ck,
            s,
            digest::digest_of::<E::Scalar>(vk.transcript_repr(), s),
            prep,
            public_values,
            rest,
            Ok(pi),
        ),
        shape::satisfies(
            E::Scalar::modulus(),
            s,
            spartan::z_vector(
                prep.witness + multilinear::zero_padded(rest, s.sizes.num_rest),
                public_values,
                pi.instance.challenges,
            ),
        ),
    ensures
        spartan::verify_of::<E>(vk, s, pi) == Ok::<Seq<int>, ErrorModel>(public_values),
{
    let p = E::Scalar::modulus();
    E::Scalar::lemma_modulus();
    let digest = digest::digest_of::<E::Scalar>(vk.transcript_repr(), s);
    let challenges = spartan::challenges_of::<E>(s, digest, prep, public_values, rest)->Ok_0;
    let b = choose|b: BlindOf<E>|
        E::PCS::is_blind(ck, s.sizes.num_rest, b) && #[trigger] spartan::proves_with::<E>(
            ck,
            s,
            prep,
            public_values,
            rest,
            challenges,
            b,
            Ok(pi),
        );
    let c = spartan::committed_of::<E>(
        ck,
        s,
        prep,
        public_values,
        rest,
        challenges,
        b,
    )->Ok_0;
    let u = c.instance;
    let w = c.witness;
    let z = spartan::z_vector(w, public_values, u.challenges);
    let start = spartan::challenge_transcript::<E>(digest, prep, public_values);
    keccak::lemma_squeeze_many_len::<E>(
        start,
        instance::CHALLENGE_LABEL@,
        s.sizes.num_challenges,
    );
    lemma_challenges_in_field::<E>(start, instance::CHALLENGE_LABEL@, s.sizes.num_challenges);
    let v1 = multilinear::zero_padded(shared, s.sizes.num_shared);
    let v2 = multilinear::zero_padded(precommitted, s.sizes.num_precommitted);
    let v3 = multilinear::zero_padded(rest, s.sizes.num_rest);
    lemma_padded_in_field(p, shared, s.sizes.num_shared);
    lemma_padded_in_field(p, precommitted, s.sizes.num_precommitted);
    lemma_padded_in_field(p, rest, s.sizes.num_rest);
    assert(w == v1 + v2 + v3);
    assert(multilinear::in_field(p, w)) by {
        assert forall|i: int| 0 <= i < w.len() implies 0 <= #[trigger] w[i] < p by {
            if i < v1.len() {
                assert(w[i] == v1[i]);
            } else if i < v1.len() + v2.len() {
                assert(w[i] == v2[i - v1.len()]);
            } else {
                assert(w[i] == v3[i - v1.len() - v2.len()]);
            }
        }
    }
    assert(z.len() == s.sizes.num_cols());
    assert(public_values.len() == s.sizes.num_public);
    lemma_validate::<E>(
        ck,
        s,
        digest,
        shared,
        precommitted,
        prep,
        public_values,
        rest,
        b,
        c,
    );
    lemma_commitment::<E>(
        ck,
        s,
        shared,
        precommitted,
        prep,
        public_values,
        rest,
        challenges,
        b,
        c,
    );
    lemma_outer_verifies::<E>(s, c.end, z);
    lemma_inner_verifies::<E>(ck, vk, s, c, pi);
}

/// A commitment scheme that draws no randomness: there is one blind for each length, and the prover
/// makes one argument.
pub open spec fn draws_nothing<E: SnarkEngine>() -> bool {
    &&& forall|ck: CommitmentKey<E>, n: nat, b1: BlindOf<E>, b2: BlindOf<E>|
        #[trigger] E::PCS::is_blind(ck, n, b1) && #[trigger] E::PCS::is_blind(ck, n, b2) ==> b1
            == b2
    &&& forall|
        ck: CommitmentKey<E>,
        d: Reduction<CommitmentOf<E>>,
        w: Seq<int>,
        b: BlindOf<E>,
        o1: Result<(int, ArgumentOf<E>), ErrorModel>,
        o2: Result<(int, ArgumentOf<E>), ErrorModel>,
        e1: TranscriptModel,
        e2: TranscriptModel,
    |
        #[trigger] spartan::argues::<E>(ck, d, w, b, o1, e1) && #[trigger] spartan::argues::<E>(
            ck,
            d,
            w,
            b,
            o2,
            e2,
        ) ==> o1 == o2
}

/// The engines with a hash-based scheme draw no randomness.
pub proof fn law_hash_based_engines_draw_nothing()
    ensures
        draws_nothing::<PallasMerkleMleEngine>(),
        draws_nothing::<VestaMerkleMleEngine>(),
        draws_nothing::<GoldilocksMerkleMleEngine>(),
        draws_nothing::<GoldilocksP3MerkleMleEngine>(),
{
}

/// Where nothing is drawn at random, the inputs determine what the prover returns, be it a proof
/// or an error.
pub proof fn law_outcome_is_determined<E: SnarkEngine>(
    ck: CommitmentKey<E>,
    s: ShapeModel,
    digest: Seq<u8>,
    prep: PrepOf<E>,
    public_values: Seq<int>,
    rest: Seq<int>,
    o1: Result<ProofOf<E>, ErrorModel>,
    o2: Result<ProofOf<E>, ErrorModel>,
)
    requires
        draws_nothing::<E>(),
        spartan::proves::<E>(ck, s, digest, prep, public_values, rest, o1),
        spartan::proves::<E>(ck, s, digest, prep, public_values, rest, o2),
    ensures
        o1 == o2,
{
}

/// Claims of the outer sum-check that are changed in an accepted proof are refused, where the
/// product of the first two minus the third leaves another remainder and the equality polynomial
/// does not vanish at the challenges.
pub proof fn law_changed_claims_are_refused<E: SnarkEngine>(
    vk: EvaluationKey<E>,
    s: ShapeModel,
    pi: ProofOf<E>,
    claims: Seq<int>,
)
    requires
        spartan::verify_of::<E>(vk, s, pi) is Ok,
        ({
            let (tau, rx) = spartan::outer_points::<E>(vk, s, pi);
            eq::eq_at(tau, rx) % E::Scalar::modulus() != 0
        }),
        ((pi.claims[0] * pi.claims[1] - pi.claims[2]) - (claims[0] * claims[1] - claims[2]))
            % E::Scalar::modulus() != 0,
    ensures
        spartan::verify_of::<E>(vk, s, (ProofModel { claims, ..pi })) == Err::<
            Seq<int>,
            ErrorModel,
        >(ErrorModel::InvalidSumcheckProof),
{
    let p = E::Scalar::modulus();
    E::Scalar::lemma_modulus();
    E::Scalar::lemma_prime();
    let (tau, rx) = spartan::outer_points::<E>(vk, s, pi);
    let e = eq::eq_at(tau, rx);
    let d1 = pi.claims[0] * pi.claims[1] - pi.claims[2];
    let d2 = claims[0] * claims[1] - claims[2];
    if (e * d1) % p == (e * d2) % p {
        modular::lemma_cong_sub(p, e * d1, e * d2, e * d2, e * d2);
        lemma_small_mod(0, p as nat);
        assert(e * d1 - e * d2 == e * (d1 - d2)) by (nonlinear_arith);
        modular::lemma_cong_mod(p, e);
        modular::lemma_cong_mul(p, e % p, e, d1 - d2, d1 - d2);
        lemma_mod_bound(e, p);
        primes::lemma_euclid(p, e % p, d1 - d2);
    }
}

/// Completeness from the constraints on: if the three pieces of a witness, the public values and
/// the challenges satisfy every constraint that the triplets state, every proof that the prover
/// makes of them for the padded shape is accepted, and the verifier returns the public values.
pub proof fn law_constraints_are_provable<E: SnarkEngine>(
    ck: CommitmentKey<E>,
    vk: EvaluationKey<E>,
    sizes: shape::Sizes,
    ta: Seq<(int, int, int)>,
    tb: Seq<(int, int, int)>,
    tc: Seq<(int, int, int)>,
    shared: Seq<int>,
    precommitted: Seq<int>,
    prep: PrepOf<E>,
    public_values: Seq<int>,
    rest: Seq<int>,
    pi: ProofOf<E>,
)
    requires
        E::PCS::width_of() > 0,
        shape::sizes_fit(E::PCS::width_of(), sizes),
        sparse::triplets_fit(ta, sizes.num_cons, sizes.num_cols()),
        sparse::triplets_fit(tb, sizes.num_cons, sizes.num_cols()),
        sparse::triplets_fit(tc, sizes.num_cons, sizes.num_cols()),
        E::PCS::are_keys(ck, vk),
        E::hash_mle() || sizes.num_challenges == 0,
        multilinear::in_field(E::Scalar::modulus(), shared),
        multilinear::in_field(E::Scalar::modulus(), precommitted),
        multilinear::in_field(E::Scalar::modulus(), public_values),
        multilinear::in_field(E::Scalar::modulus(), rest),
        ({
            let s = shape::shape_of(E::PCS::width_of(), sizes, ta, tb, tc);
            &&& spartan::prepares::<E>(ck, s, shared, precommitted, Ok(prep))
            &&& spartan::proves::<E>(
                ck,
                s,
                digest::digest_of::<E::Scalar>(vk.transcript_repr(), s),
                prep,
                public_values,
                rest,
                Ok(pi),
            )
        }),
        ({
            let z = shared + precommitted + rest + (seq![1int] + public_values
                + pi.instance.challenges);
            forall|i: int|
                0 <= i < sizes.num_cons ==> (#[trigger] sparse::triplets_times(ta, z, i)
                    * sparse::triplets_times(tb, z, i) - sparse::triplets_times(tc, z, i))
                    % E::Scalar::modulus() == 0
        }),
    ensures
        spartan::verify_of::<E>(
            vk,
            shape::shape_of(E::PCS::width_of(), sizes, ta, tb, tc),
            pi,
        ) == Ok::<Seq<int>, ErrorModel>(public_values),
{
    let width = E::PCS::width_of();
    let s = shape::shape_of(width, sizes, ta, tb, tc);
    let p = E::Scalar::modulus();
    E::Scalar::lemma_modulus();
    shape::law_padded_shape_is_valid(width, sizes, ta, tb, tc);
    let challenges = pi.instance.challenges;
    let digest = digest::digest_of::<E::Scalar>(vk.transcript_repr(), s);
    let drawn = spartan::challenges_of::<E>(s, digest, prep, public_values, rest);
    keccak::law_challenges::<E>(
        spartan::challenge_transcript::<E>(digest, prep, public_values),
        instance::CHALLENGE_LABEL@,
        s.sizes.num_challenges,
    );
    assert(drawn is Ok);
    assert(challenges == drawn->Ok_0.values);
    shape::law_padding_keeps_solutions(
        p,
        width,
        sizes,
        ta,
        tb,
        tc,
        shared,
        precommitted,
        rest,
        public_values,
        challenges,
    );
    let t = s.sizes;
    let inputs = seq![1int] + public_values + challenges;
    let w = shape::filled(shared, t.num_shared) + shape::filled(precommitted, t.num_precommitted)
        + shape::filled(rest, t.num_rest) + inputs;
    assert(spartan::z_vector(
        prep.witness + multilinear::zero_padded(rest, t.num_rest),
        public_values,
        challenges,
    ) =~= w);
    law_snark_completeness::<E>(
        ck,
        vk,
        s,
        shared,
        precommitted,
        prep,
        public_values,
        rest,
        pi,
    );
}

/// What a proof reports, whether or not the witness satisfies the constraints: its claims are the
/// values that the three products take at the point of the outer sum-check, its inner sum is that
/// of the table of the matrices and the table `Z`, and its value of the witness is the one that the
/// multilinear extension of the filled up pieces takes at the point of the inner sum-check. The
/// verifier gets as far with it as these values let it: the instance is valid, both sum-checks come
/// to the end, and the argument is accepted.
pub proof fn law_proof_reports_values<E: SnarkEngine>(
    ck: CommitmentKey<E>,
    vk: EvaluationKey<E>,
    s: ShapeModel,
    shared: Seq<int>,
    precommitted: Seq<int>,
    prep: PrepOf<E>,
    public_values: Seq<int>,
    rest: Seq<int>,
    pi: ProofOf<E>,
)
    requires
        shape::shape_valid(s),
        shape::fills_rows(E::PCS::width_of(), s.sizes),
        E::PCS::are_keys(ck, vk),
        multilinear::in_field(E::Scalar::modulus(), shared),
        multilinear::in_field(E::Scalar::modulus(), precommitted),
        multilinear::in_field(E::Scalar::modulus(), public_values),
        multilinear::in_field(E::Scalar::modulus(), rest),
        spartan::prepares::<E>(ck, s, shared, precommitted, Ok(prep)),
        spartan::proves::<E>(
            ck,
            s,
            digest::digest_of::<E::Scalar>(vk.transcript_repr(), s),
            prep,
            public_values,
            rest,
            Ok(pi),
        ),
    ensures
        ({
            let p = E::Scalar::modulus();
            let run = soundness::course_of::<E>(vk, s, pi);
            let w = shape::filled(shared, s.sizes.num_shared) + shape::filled(
                precommitted,
                s.sizes.num_precommitted,
            ) + shape::filled(rest, s.sizes.num_rest);
            let z = w + (seq![1int] + public_values + pi.instance.challenges);
            let rx = run.outer->Ok_0.1;
            let ry = run.inner->Ok_0.1;
            &&& run.valid is Ok
            &&& run.tau.complete
            &&& run.outer is Ok
            &&& pi.claims == seq![
                multilinear::mle_eval(p, shape::products::<E::Scalar>(s.a, z), rx),
                multilinear::mle_eval(p, shape::products::<E::Scalar>(s.b, z), rx),
                multilinear::mle_eval(p, shape::products::<E::Scalar>(s.c, z), rx),
            ]
            &&& run.inner is Ok
            &&& pi.inner_sum == spartan::dot(
                p,
                spartan::abc_of::<E::Scalar>(s, eq::eq_table(p, rx), run.r),
                spartan::z_table(
                    E::hash_mle(),
                    w,
                    public_values,
                    pi.instance.challenges,
                    s.sizes.num_vars(),
                ),
            )
            &&& pi.eval_w == multilinear::mle_eval(p, w, ry.skip(1))
            &&& run.argued is Ok
            &&& pi.instance.public_values == public_values
            &&& exists|b: BlindOf<E>|
                (#[trigger] E::PCS::commit_partial_of(
                    ck,
                    shape::filled(rest, s.sizes.num_rest),
                    b,
                )) matches Ok(made) && made.0 == pi.instance.rest
        }),
{
    let p = E::Scalar::modulus();
    E::Scalar::lemma_modulus();
    let digest = digest::digest_of::<E::Scalar>(vk.transcript_repr(), s);
    let challenges = spartan::challenges_of::<E>(s, digest, prep, public_values, rest)->Ok_0;
    let b = choose|b: BlindOf<E>|
        E::PCS::is_blind(ck, s.sizes.num_rest, b) && #[trigger] spartan::proves_with::<E>(
            ck,
            s,
            prep,
            public_values,
            rest,
            challenges,
            b,
            Ok(pi),
        );
    let c = spartan::committed_of::<E>(
        ck,
        s,
        prep,
        public_values,
        rest,
        challenges,
        b,
    )->Ok_0;
    let u = c.instance;
    let w = c.witness;
    let all = spartan::z_vector(w, public_values, u.challenges);
    let start = spartan::challenge_transcript::<E>(digest, prep, public_values);
    keccak::lemma_squeeze_many_len::<E>(
        start,
        instance::CHALLENGE_LABEL@,
        s.sizes.num_challenges,
    );
    lemma_challenges_in_field::<E>(start, instance::CHALLENGE_LABEL@, s.sizes.num_challenges);
    let v1 = multilinear::zero_padded(shared, s.sizes.num_shared);
    let v2 = multilinear::zero_padded(precommitted, s.sizes.num_precommitted);
    let v3 = multilinear::zero_padded(rest, s.sizes.num_rest);
    lemma_padded_in_field(p, shared, s.sizes.num_shared);
    lemma_padded_in_field(p, precommitted, s.sizes.num_precommitted);
    lemma_padded_in_field(p, rest, s.sizes.num_rest);
    assert(v1 =~= shape::filled(shared, s.sizes.num_shared));
    assert(v2 =~= shape::filled(precommitted, s.sizes.num_precommitted));
    assert(v3 =~= shape::filled(rest, s.sizes.num_rest));
    assert(w == v1 + v2 + v3);
    assert(multilinear::in_field(p, w)) by {
        assert forall|i: int| 0 <= i < w.len() implies 0 <= #[trigger] w[i] < p by {
            if i < v1.len() {
                assert(w[i] == v1[i]);
            } else if i < v1.len() + v2.len() {
                assert(w[i] == v2[i - v1.len()]);
            } else {
                assert(w[i] == v3[i - v1.len() - v2.len()]);
            }
        }
    }
    assert(all =~= w + (seq![1int] + public_values + u.challenges));
    assert(all.len() == s.sizes.num_cols());
    assert(public_values.len() == s.sizes.num_public);
    lemma_validate::<E>(
        ck,
        s,
        digest,
        shared,
        precommitted,
        prep,
        public_values,
        rest,
        b,
        c,
    );
    lemma_commitment::<E>(
        ck,
        s,
        shared,
        precommitted,
        prep,
        public_values,
        rest,
        challenges,
        b,
        c,
    );
    lemma_run_reports::<E>(ck, vk, s, c, pi);
}

/// What the prover reports of a committed instance, behind the check of the instance.
proof fn lemma_run_reports<E: SnarkEngine>(
    ck: CommitmentKey<E>,
    vk: EvaluationKey<E>,
    s: ShapeModel,
    c: Committed<PartialModel<E>, BlindOf<E>>,
    pi: ProofOf<E>,
)
    requires
        shape::shape_valid(s),
        E::PCS::are_keys(ck, vk),
        c.witness.len() == s.sizes.num_vars(),
        multilinear::in_field(E::Scalar::modulus(), c.witness),
        multilinear::in_field(E::Scalar::modulus(), c.instance.public_values),
        multilinear::in_field(E::Scalar::modulus(), c.instance.challenges),
        c.instance.public_values.len() == s.sizes.num_public,
        c.instance.challenges.len() == s.sizes.num_challenges,
        spartan::relates::<E>(ck, s, c, Ok(pi)),
        E::PCS::commit_of(ck, c.witness, c.blind) == E::PCS::combine_partial_of(
            instance::parts(c.instance),
        ),
        instance::validate_of::<E>(
            s.sizes,
            c.instance,
            TranscriptModel::start(spartan::SNARK_LABEL@).absorb(
                spartan::VK_LABEL@,
                digest::digest_of::<E::Scalar>(vk.transcript_repr(), s),
            ),
        ) == (Ok::<(), ErrorModel>(()), c.end),
    ensures
        ({
            let p = E::Scalar::modulus();
            let run = soundness::course_of::<E>(vk, s, pi);
            let w = c.witness;
            let x = c.instance.public_values;
            let z = spartan::z_vector(w, x, c.instance.challenges);
            let rx = run.outer->Ok_0.1;
            let ry = run.inner->Ok_0.1;
            &&& pi.instance == c.instance
            &&& run.tau.complete
            &&& run.outer is Ok
            &&& pi.claims == seq![
                multilinear::mle_eval(p, shape::products::<E::Scalar>(s.a, z), rx),
                multilinear::mle_eval(p, shape::products::<E::Scalar>(s.b, z), rx),
                multilinear::mle_eval(p, shape::products::<E::Scalar>(s.c, z), rx),
            ]
            &&& run.inner is Ok
            &&& pi.inner_sum == spartan::dot(
                p,
                spartan::abc_of::<E::Scalar>(s, eq::eq_table(p, rx), run.r),
                spartan::z_table(E::hash_mle(), w, x, c.instance.challenges, s.sizes.num_vars()),
            )
            &&& pi.eval_w == multilinear::mle_eval(p, w, ry.skip(1))
            &&& run.argued is Ok
        }),
{
    let p = E::Scalar::modulus();
    E::Scalar::lemma_modulus();
    let u = c.instance;
    let w = c.witness;
    let x = u.public_values;
    let nv = s.sizes.num_vars();
    let d = spartan::reduction_of::<E>(s, u, w, c.end)->Ok_0;
    let outer = d.outer;
    let (argued, end) = choose|
        argued: Result<(int, ArgumentOf<E>), ErrorModel>,
        end: TranscriptModel,
    |
        #[trigger] spartan::argues::<E>(ck, d, w, c.blind, argued, end) && Ok::<_, ErrorModel>(pi)
            == spartan::proof_of::<E>(u, d, argued);
    let all = spartan::z_vector(w, x, u.challenges);
    // the outer sum-check
    let n = merkle_tree::height(s.sizes.num_cons);
    let tau = keccak::squeeze_many::<E>(c.end, spartan::TAU_LABEL@, n);
    keccak::lemma_squeeze_many_len::<E>(c.end, spartan::TAU_LABEL@, n);
    let tables = spartan::outer_tables::<E::Scalar>(s, tau.values, all);
    layers::lemma_height_pow2(s.sizes.num_cons);
    assert(sumcheck::tables_shape(tables, n));
    lemma_tables_in_field::<E::Scalar>(s, tau.values, all);
    sumcheck::law_sumcheck_completeness::<E::Scalar>(tables, 0, tau.end, n);
    let rx = outer.run.point;
    assert(outer.run.tables[1] == seq![multilinear::mle_eval(p, tables[1], rx)]);
    assert(outer.run.tables[2] == seq![multilinear::mle_eval(p, tables[2], rx)]);
    assert(outer.run.tables[3] == seq![multilinear::mle_eval(p, tables[3], rx)]);
    let run = soundness::course_of::<E>(vk, s, pi);
    assert(run.outer == Ok::<(int, Seq<int>), ErrorModel>((outer.run.claim, rx)));
    assert(run.r == outer.r && run.anchor == outer.anchor);
    // the inner sum-check
    let m = merkle_tree::height(nv) + 1;
    spartan::lemma_height_bits(nv);
    let abc = spartan::abc_of::<E::Scalar>(s, eq::eq_table(p, rx), outer.r);
    let z = spartan::z_table(E::hash_mle(), w, x, u.challenges, nv);
    let two = seq![abc, z];
    let sum = spartan::dot(p, abc, z);
    assert(sumcheck::tables_shape(two, m));
    assert(multilinear::in_field(p, abc)) by {
        assert forall|j: int| 0 <= j < abc.len() implies 0 <= #[trigger] abc[j] < p by {
            let ex = eq::eq_table(p, rx);
            lemma_mod_bound(
                sparse::times_column(s.a, ex, j) + outer.r * sparse::times_column(s.b, ex, j)
                    + outer.r * outer.r * sparse::times_column(s.c, ex, j),
                p,
            );
        }
    }
    lemma_z_in_field(p, E::hash_mle(), w, x, u.challenges, nv);
    assert forall|j: int| 0 <= j < two.len() implies multilinear::in_field(p, #[trigger] two[j]) by {
        assert(two[j] == abc || two[j] == z);
    }
    lemma_mod_bound(sums::sum(|i: int| abc[i] * z[i], abc.len()), p);
    let fork = spartan::forked::<E::Scalar>(spartan::INNER_LABEL@, outer.anchor);
    sumcheck::law_sumcheck_completeness::<E::Scalar>(two, sum, fork, m);
    let ry = d.inner.point;
    assert(run.inner == Ok::<(int, Seq<int>), ErrorModel>((d.inner.claim, ry)));
    // the evaluation argument
    E::PCS::law_completeness(
        ck,
        vk,
        spartan::forked::<E::Scalar>(spartan::PCS_LABEL@, outer.anchor),
        d.comm,
        w,
        c.blind,
        ry.skip(1),
        pi.eval_w,
        pi.arg,
        end,
    );
}

} // verus!
