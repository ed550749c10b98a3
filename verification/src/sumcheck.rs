//! The sum-check protocol.
//!
//! The prover convinces the verifier of the sum, over all positions, of a combination of tables.
//! With two tables the combination is their product; with four tables it is the first one times
//! the difference of the product of the second and the third and of the fourth one.
use crate::errors::{self, ErrorModel, SpartanError};
use crate::modular;
use crate::polys::arith::{add2, mul2, sub2};
use crate::polys::multilinear::{self, fold_table, MultilinearPolynomial};
use crate::polys::sums;
use crate::polys::univariate::{self, CompressedUniPoly, UniPoly};
use crate::provider::keccak::{Keccak256Transcript, TranscriptModel};
use crate::traits::{self, Engine, ScalarField};
#[allow(unused_imports)]
use vstd::arithmetic::div_mod::*;
#[allow(unused_imports)]
use vstd::arithmetic::mul::*;
#[allow(unused_imports)]
use vstd::arithmetic::power2::*;
use vstd::prelude::*;

verus! {

/// Label of a round polynomial in the transcript ("p").
pub const POLY_LABEL: [u8; 1] = [112];

/// Label of a round challenge in the transcript ("c").
pub const CHALLENGE_LABEL: [u8; 1] = [99];

/// The combination of the entries of two or four tables.
pub open spec fn comb(x: Seq<int>) -> int {
    if x.len() == 2 {
        x[0] * x[1]
    } else {
        x[0] * (x[1] * x[2] - x[3])
    }
}

/// The degree of a round polynomial.
pub open spec fn degree(tables: Seq<Seq<int>>) -> nat {
    if tables.len() == 2 {
        2
    } else {
        3
    }
}

/// The entries of the tables at position `i`, with the first variable bound to `x` but without
/// reduction.
pub open spec fn bound_entries(tables: Seq<Seq<int>>, i: int, x: int) -> Seq<int> {
    tables.map_values(
        |t: Seq<int>| t[i] + x * (t[i + (t.len() / 2) as int] - t[i]),
    )
}

/// The sum over half of the positions with the first variable bound to `x`.
pub open spec fn round_sum(tables: Seq<Seq<int>>, x: int) -> int {
    sums::sum(|i: int| comb(bound_entries(tables, i, x)), tables[0].len() / 2)
}

/// The entries of the tables at position `i`.
pub open spec fn entries(tables: Seq<Seq<int>>, i: int) -> Seq<int> {
    tables.map_values(|t: Seq<int>| t[i])
}

/// The sum over all positions.
pub open spec fn full_sum(tables: Seq<Seq<int>>) -> int {
    sums::sum(|i: int| comb(entries(tables, i)), tables[0].len())
}

/// The values of the round polynomial that the prover interpolates, given the claimed sum.
pub open spec fn round_evals(tables: Seq<Seq<int>>, claim: int) -> Seq<int> {
    let e0 = round_sum(tables, 0);
    if tables.len() == 2 {
        seq![e0, claim - e0, round_sum(tables, 2)]
    } else {
        seq![e0, claim - e0, round_sum(tables, 2), round_sum(tables, 3)]
    }
}

/// The tables with their first variable bound to `r`.
pub open spec fn fold_tables(p: int, tables: Seq<Seq<int>>, r: int) -> Seq<Seq<int>> {
    tables.map_values(|t: Seq<int>| multilinear::fold(p, t, r))
}

/// The state of the prover between rounds.
pub struct ProverRun {
    /// The tables with the variables of the past rounds bound.
    pub tables: Seq<Seq<int>>,
    /// The sum that is claimed of the tables.
    pub claim: int,
    /// The compressed polynomials of the past rounds.
    pub polys: Seq<Seq<int>>,
    /// The challenges of the past rounds.
    pub point: Seq<int>,
    /// The transcript.
    pub end: TranscriptModel,
    /// Whether the transcript gave all challenges.
    pub complete: bool,
}

/// The transcript after a round polynomial.
pub open spec fn absorb_poly<S: ScalarField>(t: TranscriptModel, poly: Seq<int>) -> TranscriptModel {
    t.absorb(POLY_LABEL@, traits::scalar_reprs::<S>(poly))
}

/// The state of the prover after `n` rounds.
pub open spec fn prover_run<S: ScalarField>(
    tables: Seq<Seq<int>>,
    claim: int,
    t: TranscriptModel,
    n: nat,
) -> ProverRun
    decreases n,
{
    if n == 0 {
        ProverRun {
            tables,
            claim,
            polys: Seq::empty(),
            point: Seq::empty(),
            end: t,
            complete: true,
        }
    } else {
        let before = prover_run::<S>(tables, claim, t, (n - 1) as nat);
        if !before.complete {
            before
        } else {
            let poly = univariate::interpolate::<S>(round_evals(before.tables, before.claim));
            let told = absorb_poly::<S>(before.end, univariate::compress(poly));
            if !told.can_squeeze() {
                ProverRun { end: told, complete: false, ..before }
            } else {
                let r = S::uniform_of(told.digest(CHALLENGE_LABEL@));
                ProverRun {
                    tables: fold_tables(S::modulus(), before.tables, r),
                    claim: univariate::poly_at(poly, r) % S::modulus(),
                    polys: before.polys.push(univariate::compress(poly)),
                    point: before.point.push(r),
                    end: told.squeeze(CHALLENGE_LABEL@),
                    complete: true,
                }
            }
        }
    }
}

/// The state of the verifier between rounds.
pub struct VerifierRun {
    /// The sum that is claimed for the next round.
    pub claim: int,
    /// The challenges of the past rounds.
    pub point: Seq<int>,
    /// The transcript.
    pub end: TranscriptModel,
    /// What was found.
    pub found: Result<(), ErrorModel>,
}

/// The state of the verifier after `n` rounds.
pub open spec fn verifier_run<S: ScalarField>(
    polys: Seq<Seq<int>>,
    claim: int,
    degree_bound: nat,
    t: TranscriptModel,
    n: nat,
) -> VerifierRun
    decreases n,
{
    if n == 0 {
        VerifierRun { claim, point: Seq::empty(), end: t, found: Ok(()) }
    } else {
        let before = verifier_run::<S>(polys, claim, degree_bound, t, (n - 1) as nat);
        let c = polys[n - 1];
        if before.found is Err {
            before
        } else if c.len() != degree_bound {
            VerifierRun { found: Err(ErrorModel::InvalidSumcheckProof), ..before }
        } else {
            let poly = univariate::decompress(S::modulus(), c, before.claim);
            let told = absorb_poly::<S>(before.end, c);
            if !told.can_squeeze() {
                VerifierRun { end: told, found: Err(ErrorModel::InternalTranscriptError), ..before }
            } else {
                let r = S::uniform_of(told.digest(CHALLENGE_LABEL@));
                VerifierRun {
                    claim: univariate::poly_at(poly, r) % S::modulus(),
                    point: before.point.push(r),
                    end: told.squeeze(CHALLENGE_LABEL@),
                    found: Ok(()),
                }
            }
        }
    }
}

/// What the verifier makes of a proof: the last claim and the challenges, and the transcript.
pub open spec fn verify_of<S: ScalarField>(
    polys: Seq<Seq<int>>,
    claim: int,
    num_rounds: nat,
    degree_bound: nat,
    t: TranscriptModel,
) -> (Result<(int, Seq<int>), ErrorModel>, TranscriptModel) {
    if polys.len() != num_rounds {
        (Err(ErrorModel::InvalidSumcheckProof), t)
    } else {
        let run = verifier_run::<S>(polys, claim, degree_bound, t, num_rounds);
        match run.found {
            Ok(()) => (Ok((run.claim, run.point)), run.end),
            Err(e) => (Err(e), run.end),
        }
    }
}

/// Two or four tables of `2^n` entries each.
pub open spec fn tables_shape(tables: Seq<Seq<int>>, n: nat) -> bool {
    &&& tables.len() == 2 || tables.len() == 4
    &&& forall|j: int| 0 <= j < tables.len() ==> (#[trigger] tables[j]).len() == pow2(n)
}

/// Fewer rounds of a prover that comes to the end are a part of all of them.
pub proof fn lemma_prover_prefix<S: ScalarField>(
    tables: Seq<Seq<int>>,
    claim: int,
    t: TranscriptModel,
    k: nat,
    n: nat,
)
    requires
        k <= n,
        prover_run::<S>(tables, claim, t, n).complete,
    ensures
        prover_run::<S>(tables, claim, t, k).complete,
        prover_run::<S>(tables, claim, t, k).polys.len() == k,
        prover_run::<S>(tables, claim, t, k).point.len() == k,
        prover_run::<S>(tables, claim, t, n).polys.len() == n,
        prover_run::<S>(tables, claim, t, n).point.len() == n,
        prover_run::<S>(tables, claim, t, k).polys == prover_run::<S>(
            tables,
            claim,
            t,
            n,
        ).polys.take(k as int),
        prover_run::<S>(tables, claim, t, k).point == prover_run::<S>(
            tables,
            claim,
            t,
            n,
        ).point.take(k as int),
    decreases n,
{
    let all = prover_run::<S>(tables, claim, t, n);
    if n > 0 {
        let fewer = prover_run::<S>(tables, claim, t, (n - 1) as nat);
        if k < n {
            lemma_prover_prefix::<S>(tables, claim, t, k, (n - 1) as nat);
            assert(fewer.polys.take(k as int) =~= all.polys.take(k as int));
            assert(fewer.point.take(k as int) =~= all.point.take(k as int));
        } else {
            lemma_prover_prefix::<S>(tables, claim, t, (n - 1) as nat, (n - 1) as nat);
            assert(all.polys.take(k as int) =~= all.polys);
            assert(all.point.take(k as int) =~= all.point);
        }
    } else {
        assert(all.polys.take(0) =~= all.polys);
        assert(all.point.take(0) =~= all.point);
    }
}

/// A prover that ran out of challenges stays where it is.
pub proof fn lemma_prover_stops<S: ScalarField>(
    tables: Seq<Seq<int>>,
    claim: int,
    t: TranscriptModel,
    k: nat,
    n: nat,
)
    requires
        k <= n,
        !prover_run::<S>(tables, claim, t, k).complete,
    ensures
        prover_run::<S>(tables, claim, t, n) == prover_run::<S>(tables, claim, t, k),
    decreases n,
{
    if k < n {
        lemma_prover_stops::<S>(tables, claim, t, k, (n - 1) as nat);
    }
}

/// A verifier that found an error stays where it is.
pub proof fn lemma_verifier_stops<S: ScalarField>(
    polys: Seq<Seq<int>>,
    claim: int,
    degree_bound: nat,
    t: TranscriptModel,
    k: nat,
    n: nat,
)
    requires
        k <= n,
        verifier_run::<S>(polys, claim, degree_bound, t, k).found is Err,
    ensures
        verifier_run::<S>(polys, claim, degree_bound, t, n) == verifier_run::<S>(
            polys,
            claim,
            degree_bound,
            t,
            k,
        ),
    decreases n,
{
    if k < n {
        lemma_verifier_stops::<S>(polys, claim, degree_bound, t, k, (n - 1) as nat);
    }
}

/// A verifier that found no error drew a challenge in each round.
pub proof fn lemma_verifier_point<S: ScalarField>(
    polys: Seq<Seq<int>>,
    claim: int,
    degree_bound: nat,
    t: TranscriptModel,
    n: nat,
)
    requires
        verifier_run::<S>(polys, claim, degree_bound, t, n).found is Ok,
    ensures
        verifier_run::<S>(polys, claim, degree_bound, t, n).point.len() == n,
    decreases n,
{
    if n > 0 {
        lemma_verifier_point::<S>(polys, claim, degree_bound, t, (n - 1) as nat);
    }
}

/// The tables keep their number, and after `k` rounds table `j` is its layer `k`.
pub proof fn lemma_prover_tables<S: ScalarField>(
    tables: Seq<Seq<int>>,
    claim: int,
    t: TranscriptModel,
    k: nat,
    n: nat,
)
    requires
        k <= n,
        tables_shape(tables, n),
        prover_run::<S>(tables, claim, t, n).complete,
    ensures
        tables_shape(prover_run::<S>(tables, claim, t, k).tables, (n - k) as nat),
        prover_run::<S>(tables, claim, t, k).tables.len() == tables.len(),
        forall|j: int|
            0 <= j < tables.len() ==> #[trigger] prover_run::<S>(tables, claim, t, k).tables[j]
                == multilinear::layer(
                S::modulus(),
                tables[j],
                prover_run::<S>(tables, claim, t, n).point,
                k,
            ),
    decreases k,
{
    if k > 0 {
        let m = (k - 1) as nat;
        lemma_prover_tables::<S>(tables, claim, t, m, n);
        lemma_prover_prefix::<S>(tables, claim, t, k, n);
        lemma_prover_prefix::<S>(tables, claim, t, m, n);
        let all = prover_run::<S>(tables, claim, t, n);
        let now = prover_run::<S>(tables, claim, t, k);
        let before = prover_run::<S>(tables, claim, t, m);
        let p = S::modulus();
        lemma_pow2_unfold((n - m) as nat);
        let r = now.point[m as int];
        assert(all.point[m as int] == r);
        assert forall|j: int| 0 <= j < tables.len() implies #[trigger] now.tables[j]
            == multilinear::layer(p, tables[j], all.point, k) && now.tables[j].len() == pow2(
            (n - k) as nat,
        ) by {
            assert(now.tables[j] == multilinear::fold(p, before.tables[j], r));
        }
    }
}

/// The verifier follows the prover round by round.
pub proof fn lemma_verifier_follows<S: ScalarField>(
    tables: Seq<Seq<int>>,
    claim: int,
    t: TranscriptModel,
    k: nat,
    n: nat,
)
    requires
        k <= n,
        tables_shape(tables, n),
        prover_run::<S>(tables, claim, t, n).complete,
    ensures
        ({
            let run = prover_run::<S>(tables, claim, t, k);
            let polys = prover_run::<S>(tables, claim, t, n).polys;
            verifier_run::<S>(polys, claim, degree(tables), t, k) == (VerifierRun {
                claim: run.claim,
                point: run.point,
                end: run.end,
                found: Ok(()),
            })
        }),
    decreases k,
{
    if k > 0 {
        let m = (k - 1) as nat;
        lemma_verifier_follows::<S>(tables, claim, t, m, n);
        lemma_prover_prefix::<S>(tables, claim, t, k, n);
        lemma_prover_prefix::<S>(tables, claim, t, m, n);
        lemma_prover_tables::<S>(tables, claim, t, m, n);
        let before = prover_run::<S>(tables, claim, t, m);
        let now = prover_run::<S>(tables, claim, t, k);
        let all = prover_run::<S>(tables, claim, t, n);
        let e = round_evals(before.tables, before.claim);
        assert(e[0] + e[1] == before.claim);
        univariate::lemma_decompress::<S>(e, before.claim);
        let poly = univariate::interpolate::<S>(e);
        assert(now.polys[m as int] == univariate::compress(poly));
        assert(all.polys[m as int] == univariate::compress(poly));
    }
}

/// The sum over all positions is the sum of the sums over the halves.
pub proof fn lemma_full_sum_split(tables: Seq<Seq<int>>, n: nat)
    requires
        n > 0,
        tables_shape(tables, n),
    ensures
        full_sum(tables) == round_sum(tables, 0) + round_sum(tables, 1),
{
    lemma_pow2_unfold(n);
    let h = pow2((n - 1) as nat);
    assert(tables[0].len() == 2 * h);
    let f = |i: int| comb(entries(tables, i));
    let lo = |i: int| comb(bound_entries(tables, i, 0));
    let hi = |i: int| comb(bound_entries(tables, i, 1));
    let up = |i: int| f(h + i);
    sums::lemma_sum_split(f, up, h, h);
    assert forall|i: int| 0 <= i < h implies #[trigger] lo(i) == f(i) by {
        assert(bound_entries(tables, i, 0) =~= entries(tables, i));
    }
    assert forall|i: int| 0 <= i < h implies #[trigger] hi(i) == up(i) by {
        assert forall|j: int| 0 <= j < tables.len() implies #[trigger] bound_entries(
            tables,
            i,
            1,
        )[j] == entries(tables, h + i)[j] by {
            assert(tables[j].len() == 2 * h);
        }
        assert(bound_entries(tables, i, 1) =~= entries(tables, h + i));
    }
    sums::lemma_sum_eq(lo, f, h);
    sums::lemma_sum_eq(hi, up, h);
}

/// The coefficient of degree `d` of the combination at position `i`, as a polynomial in the value
/// that the first variable is bound to.
pub open spec fn entry_coeff(tables: Seq<Seq<int>>, i: int, d: int) -> int {
    let h = (tables[0].len() / 2) as int;
    if tables.len() == 2 {
        let (a, b) = (tables[0][i], tables[1][i]);
        let (da, db) = (tables[0][i + h] - a, tables[1][i + h] - b);
        if d == 0 {
            a * b
        } else if d == 1 {
            a * db + da * b
        } else if d == 2 {
            da * db
        } else {
            0
        }
    } else {
        let (t, a, b, c) = (tables[0][i], tables[1][i], tables[2][i], tables[3][i]);
        let dt = tables[0][i + h] - t;
        let da = tables[1][i + h] - a;
        let db = tables[2][i + h] - b;
        let dc = tables[3][i + h] - c;
        if d == 0 {
            t * (a * b - c)
        } else if d == 1 {
            t * (a * db + da * b - dc) + dt * (a * b - c)
        } else if d == 2 {
            t * (da * db) + dt * (a * db + da * b - dc)
        } else {
            dt * (da * db)
        }
    }
}

/// A polynomial of degree three.
pub open spec fn cubic_value(k0: int, k1: int, k2: int, k3: int, x: int) -> int {
    k0 + x * (k1 + x * (k2 + x * k3))
}

/// A linear polynomial times a quadratic one.
proof fn lemma_linear_times_quadratic(a: int, d: int, m0: int, m1: int, m2: int, x: int)
    ensures
        (a + x * d) * (m0 + x * (m1 + x * m2)) == cubic_value(
            a * m0,
            a * m1 + d * m0,
            a * m2 + d * m1,
            d * m2,
            x,
        ),
{
    let inner = m1 + x * m2;
    let q = m0 + x * inner;
    lemma_mul_is_distributive_add_other_way(q, a, x * d);
    lemma_mul_is_associative(x, d, q);
    // a * q
    lemma_mul_is_distributive_add(a, m0, x * inner);
    lemma_swap(a, x, inner);
    lemma_mul_is_distributive_add(a, m1, x * m2);
    lemma_swap(a, x, m2);
    // d * q
    lemma_mul_is_distributive_add(d, m0, x * inner);
    lemma_swap(d, x, inner);
    lemma_mul_is_distributive_add(d, m1, x * m2);
    lemma_swap(d, x, m2);
    assert(a * q == a * m0 + x * (a * m1 + x * (a * m2)));
    assert(d * q == d * m0 + x * (d * m1 + x * (d * m2)));
    // Collect by powers of x.
    lemma_mul_is_distributive_add(x, a * m2, d * m1 + x * (d * m2));
    lemma_mul_is_distributive_add(x, a * m1 + x * (a * m2), d * m0 + x * (d * m1 + x * (d * m2)));
    assert(a * m1 + x * (a * m2) + (d * m0 + x * (d * m1 + x * (d * m2))) == a * m1 + d * m0 + x * (
    a * m2 + d * m1 + x * (d * m2)));
}

/// A factor moves inside a product.
proof fn lemma_swap(a: int, x: int, y: int)
    ensures
        a * (x * y) == x * (a * y),
{
    lemma_mul_is_associative(a, x, y);
    lemma_mul_is_commutative(a, x);
    lemma_mul_is_associative(x, a, y);
}

/// The combination at a position is a polynomial in the value of the first variable.
pub proof fn lemma_entry_coeffs(tables: Seq<Seq<int>>, n: nat, i: int, x: int)
    requires
        tables_shape(tables, n),
    ensures
        comb(bound_entries(tables, i, x)) == cubic_value(
            entry_coeff(tables, i, 0),
            entry_coeff(tables, i, 1),
            entry_coeff(tables, i, 2),
            entry_coeff(tables, i, 3),
            x,
        ),
{
    let h = (tables[0].len() / 2) as int;
    let e = bound_entries(tables, i, x);
    assert(tables[0].len() == tables[1].len());
    let (a, b) = (tables[0][i], tables[1][i]);
    let (da, db) = (tables[0][i + h] - a, tables[1][i + h] - b);
    assert(e[0] == a + x * da);
    assert(e[1] == b + x * db);
    if tables.len() == 2 {
        lemma_linear_times_quadratic(a, da, b, db, 0, x);
    } else {
        assert(tables[0].len() == tables[2].len());
        assert(tables[0].len() == tables[3].len());
        let (c, d) = (tables[2][i], tables[3][i]);
        let (dc, dd) = (tables[2][i + h] - c, tables[3][i + h] - d);
        assert(e[2] == c + x * dc);
        assert(e[3] == d + x * dd);
        let m0 = b * c - d;
        let m1 = b * dc + db * c - dd;
        let m2 = db * dc;
        lemma_linear_times_quadratic(b, db, c, dc, 0, x);
        lemma_mul_is_distributive_sub(x, b * dc + db * c + x * m2, dd);
        assert((b + x * db) * (c + x * dc) - (d + x * dd) == m0 + x * (m1 + x * m2));
        lemma_linear_times_quadratic(a, da, m0, m1, m2, x);
    }
}

/// The coefficient of degree `d` of the round polynomial.
pub open spec fn round_coeff(tables: Seq<Seq<int>>, d: int) -> int {
    sums::sum(|i: int| entry_coeff(tables, i, d), tables[0].len() / 2)
}

/// A sum of polynomials is the polynomial of the sums of the coefficients.
pub proof fn lemma_sum_cubic(
    f: spec_fn(int) -> int,
    c0: spec_fn(int) -> int,
    c1: spec_fn(int) -> int,
    c2: spec_fn(int) -> int,
    c3: spec_fn(int) -> int,
    x: int,
    n: nat,
)
    requires
        forall|i: int|
            0 <= i < n ==> #[trigger] f(i) == cubic_value(c0(i), c1(i), c2(i), c3(i), x),
    ensures
        sums::sum(f, n) == cubic_value(
            sums::sum(c0, n),
            sums::sum(c1, n),
            sums::sum(c2, n),
            sums::sum(c3, n),
            x,
        ),
    decreases n,
{
    if n == 0 {
        assert(cubic_value(0, 0, 0, 0, x) == 0) by (nonlinear_arith);
    } else {
        let m = (n - 1) as nat;
        lemma_sum_cubic(f, c0, c1, c2, c3, x, m);
        let (a0, a1, a2, a3) = (
            sums::sum(c0, m),
            sums::sum(c1, m),
            sums::sum(c2, m),
            sums::sum(c3, m),
        );
        let (b0, b1, b2, b3) = (c0(n - 1), c1(n - 1), c2(n - 1), c3(n - 1));
        assert(f(n - 1) == cubic_value(b0, b1, b2, b3, x));
        assert((a0 + x * (a1 + x * (a2 + x * a3))) + (b0 + x * (b1 + x * (b2 + x * b3))) == (a0
            + b0) + x * ((a1 + b1) + x * ((a2 + b2) + x * (a3 + b3)))) by (nonlinear_arith);
    }
}

/// The round sum is a polynomial in the value of the first variable.
pub proof fn lemma_round_coeffs(tables: Seq<Seq<int>>, n: nat, x: int)
    requires
        tables_shape(tables, n),
    ensures
        round_sum(tables, x) == cubic_value(
            round_coeff(tables, 0),
            round_coeff(tables, 1),
            round_coeff(tables, 2),
            round_coeff(tables, 3),
            x,
        ),
        tables.len() == 2 ==> round_coeff(tables, 3) == 0,
{
    let h = tables[0].len() / 2;
    let f = |i: int| comb(bound_entries(tables, i, x));
    let c0 = |i: int| entry_coeff(tables, i, 0);
    let c1 = |i: int| entry_coeff(tables, i, 1);
    let c2 = |i: int| entry_coeff(tables, i, 2);
    let c3 = |i: int| entry_coeff(tables, i, 3);
    assert forall|i: int| 0 <= i < h implies #[trigger] f(i) == cubic_value(
        c0(i),
        c1(i),
        c2(i),
        c3(i),
        x,
    ) by {
        lemma_entry_coeffs(tables, n, i, x);
    }
    lemma_sum_cubic(f, c0, c1, c2, c3, x, h);
    if tables.len() == 2 {
        sums::lemma_sum_zero(c3, h);
    }
}

/// A polynomial with congruent coefficients takes congruent values.
pub proof fn lemma_poly_cong(p: int, c: Seq<int>, d: Seq<int>, x: int)
    requires
        p > 0,
        c.len() == d.len(),
        forall|i: int| 0 <= i < c.len() ==> modular::cong(p, #[trigger] c[i], d[i]),
    ensures
        modular::cong(p, univariate::poly_at(c, x), univariate::poly_at(d, x)),
    decreases c.len(),
{
    if c.len() > 0 {
        lemma_poly_cong(p, c.drop_first(), d.drop_first(), x);
        let u = univariate::poly_at(c.drop_first(), x);
        let v = univariate::poly_at(d.drop_first(), x);
        modular::lemma_cong_mul(p, x, x, u, v);
        modular::lemma_cong_add(p, c[0], d[0], x * u, x * v);
    }
}

/// A multiple of a number, times the inverse of the multiplier, is congruent to the number.
pub proof fn lemma_cancel(p: int, a: int, m: int, inv: int, k: int)
    requires
        p > 1,
        modular::cong(p, a, m * k),
        (m * inv) % p == 1,
    ensures
        modular::cong(p, a * inv, k),
{
    modular::lemma_cong_mul(p, a, m * k, inv, inv);
    assert((m * k) * inv == (m * inv) * k) by (nonlinear_arith);
    lemma_small_mod(1, p as nat);
    modular::lemma_cong_mul(p, m * inv, 1, k, k);
}

/// The interpolated polynomial takes the values of the polynomial that the points lie on.
pub proof fn lemma_interpolation<S: ScalarField>(
    e: Seq<int>,
    k0: int,
    k1: int,
    k2: int,
    k3: int,
    x: int,
)
    requires
        e.len() == 3 && k3 == 0 || e.len() == 4,
        forall|i: int|
            0 <= i < e.len() ==> modular::cong(
                S::modulus(),
                #[trigger] e[i],
                cubic_value(k0, k1, k2, k3, i),
            ),
    ensures
        modular::cong(
            S::modulus(),
            univariate::poly_at(univariate::interpolate::<S>(e), x),
            cubic_value(k0, k1, k2, k3, x),
        ),
{
    let p = S::modulus();
    S::lemma_modulus();
    let inv2 = S::two_inv();
    let inv6 = S::six_inv();
    let c = univariate::interpolate::<S>(e);
    let y0 = k0;
    let y1 = k0 + k1 + k2 + k3;
    let y2 = k0 + 2 * k1 + 4 * k2 + 8 * k3;
    let y3 = k0 + 3 * k1 + 9 * k2 + 27 * k3;
    assert(modular::cong(p, e[0], y0)) by {
        assert(cubic_value(k0, k1, k2, k3, 0) == y0);
        assert(modular::cong(p, e[0], cubic_value(k0, k1, k2, k3, 0)));
    }
    assert(modular::cong(p, e[1], y1)) by {
        assert(cubic_value(k0, k1, k2, k3, 1) == y1);
        assert(modular::cong(p, e[1], cubic_value(k0, k1, k2, k3, 1)));
    }
    assert(modular::cong(p, e[2], y2)) by {
        assert(cubic_value(k0, k1, k2, k3, 2) == y2);
        assert(modular::cong(p, e[2], cubic_value(k0, k1, k2, k3, 2)));
    }
    modular::lemma_cong_sub(p, e[1], y1, e[0], y0);
    if e.len() == 3 {
        let num = e[0] - 2 * e[1] + e[2];
        modular::lemma_cong_mul(p, 2, 2, e[1], y1);
        modular::lemma_cong_sub(p, e[0], y0, 2 * e[1], 2 * y1);
        modular::lemma_cong_add(p, e[0] - 2 * e[1], y0 - 2 * y1, e[2], y2);
        lemma_cancel(p, num, 2, inv2, k2);
        let c2 = num * inv2;
        modular::lemma_cong_sub(p, e[1] - e[0], y1 - y0, c2, k2);
        modular::lemma_cong_mod(p, e[0]);
        modular::lemma_cong_mod(p, e[1] - e[0] - c2);
        modular::lemma_cong_mod(p, c2);
        let d = seq![k0, k1, k2];
        lemma_poly_cong(p, c, d, x);
        reveal_with_fuel(univariate::poly_at, 4);
        assert(d.drop_first() =~= seq![k1, k2]);
        assert(seq![k1, k2].drop_first() =~= seq![k2]);
        assert(seq![k2].drop_first() =~= Seq::<int>::empty());
        assert(univariate::poly_at(d, x) == k0 + x * (k1 + x * (k2 + x * 0)));
    } else {
        assert(modular::cong(p, e[3], y3)) by {
            assert(cubic_value(k0, k1, k2, k3, 3) == y3);
            assert(modular::cong(p, e[3], cubic_value(k0, k1, k2, k3, 3)));
        }
        let n3 = e[3] - 3 * e[2] + 3 * e[1] - e[0];
        modular::lemma_cong_mul(p, 3, 3, e[2], y2);
        modular::lemma_cong_mul(p, 3, 3, e[1], y1);
        modular::lemma_cong_sub(p, e[3], y3, 3 * e[2], 3 * y2);
        modular::lemma_cong_add(p, e[3] - 3 * e[2], y3 - 3 * y2, 3 * e[1], 3 * y1);
        modular::lemma_cong_sub(
            p,
            e[3] - 3 * e[2] + 3 * e[1],
            y3 - 3 * y2 + 3 * y1,
            e[0],
            y0,
        );
        lemma_cancel(p, n3, 6, inv6, k3);
        let c3 = n3 * inv6;
        let n2 = 2 * e[0] - 5 * e[1] + 4 * e[2] - e[3];
        modular::lemma_cong_mul(p, 2, 2, e[0], y0);
        modular::lemma_cong_mul(p, 5, 5, e[1], y1);
        modular::lemma_cong_mul(p, 4, 4, e[2], y2);
        modular::lemma_cong_sub(p, 2 * e[0], 2 * y0, 5 * e[1], 5 * y1);
        modular::lemma_cong_add(
            p,
            2 * e[0] - 5 * e[1],
            2 * y0 - 5 * y1,
            4 * e[2],
            4 * y2,
        );
        modular::lemma_cong_sub(
            p,
            2 * e[0] - 5 * e[1] + 4 * e[2],
            2 * y0 - 5 * y1 + 4 * y2,
            e[3],
            y3,
        );
        lemma_cancel(p, n2, 2, inv2, k2);
        let c2 = n2 * inv2;
        modular::lemma_cong_sub(p, e[1] - e[0], y1 - y0, c2, k2);
        modular::lemma_cong_sub(p, e[1] - e[0] - c2, y1 - y0 - k2, c3, k3);
        modular::lemma_cong_mod(p, e[0]);
        modular::lemma_cong_mod(p, e[1] - e[0] - c2 - c3);
        modular::lemma_cong_mod(p, c2);
        modular::lemma_cong_mod(p, c3);
        let d = seq![k0, k1, k2, k3];
        lemma_poly_cong(p, c, d, x);
        reveal_with_fuel(univariate::poly_at, 5);
        assert(d.drop_first() =~= seq![k1, k2, k3]);
        assert(seq![k1, k2, k3].drop_first() =~= seq![k2, k3]);
        assert(seq![k2, k3].drop_first() =~= seq![k3]);
        assert(seq![k3].drop_first() =~= Seq::<int>::empty());
        assert(univariate::poly_at(d, x) == k0 + x * (k1 + x * (k2 + x * (k3 + x * 0))));
    }
}

/// Combinations of congruent entries are congruent.
pub proof fn lemma_comb_cong(p: int, x: Seq<int>, y: Seq<int>)
    requires
        p > 0,
        x.len() == y.len(),
        x.len() == 2 || x.len() == 4,
        forall|j: int| 0 <= j < x.len() ==> modular::cong(p, #[trigger] x[j], y[j]),
    ensures
        modular::cong(p, comb(x), comb(y)),
{
    assert(modular::cong(p, x[0], y[0]));
    assert(modular::cong(p, x[1], y[1]));
    if x.len() == 2 {
        modular::lemma_cong_mul(p, x[0], y[0], x[1], y[1]);
    } else {
        assert(modular::cong(p, x[2], y[2]));
        assert(modular::cong(p, x[3], y[3]));
        modular::lemma_cong_mul(p, x[1], y[1], x[2], y[2]);
        modular::lemma_cong_sub(p, x[1] * x[2], y[1] * y[2], x[3], y[3]);
        modular::lemma_cong_mul(p, x[0], y[0], x[1] * x[2] - x[3], y[1] * y[2] - y[3]);
    }
}

/// If the claim is the sum over the tables, the value of the round polynomial at any challenge is
/// the sum over the tables with the first variable bound to the challenge.
pub proof fn lemma_round_truth<S: ScalarField>(
    tables: Seq<Seq<int>>,
    claim: int,
    n: nat,
    r: int,
)
    requires
        n > 0,
        tables_shape(tables, n),
        modular::cong(S::modulus(), claim, full_sum(tables)),
    ensures
        modular::cong(
            S::modulus(),
            univariate::poly_at(
                univariate::interpolate::<S>(round_evals(tables, claim)),
                r,
            ),
            full_sum(fold_tables(S::modulus(), tables, r)),
        ),
{
    let p = S::modulus();
    S::lemma_modulus();
    let e = round_evals(tables, claim);
    let (k0, k1, k2, k3) = (
        round_coeff(tables, 0),
        round_coeff(tables, 1),
        round_coeff(tables, 2),
        round_coeff(tables, 3),
    );
    lemma_round_coeffs(tables, n, 0);
    lemma_round_coeffs(tables, n, 1);
    lemma_round_coeffs(tables, n, 2);
    lemma_round_coeffs(tables, n, 3);
    lemma_round_coeffs(tables, n, r);
    lemma_full_sum_split(tables, n);
    let e0 = round_sum(tables, 0);
    modular::lemma_cong_sub(p, claim, full_sum(tables), e0, e0);
    assert(modular::cong(p, e[1], cubic_value(k0, k1, k2, k3, 1)));
    assert forall|i: int| 0 <= i < e.len() implies modular::cong(
        p,
        #[trigger] e[i],
        cubic_value(k0, k1, k2, k3, i),
    ) by {
        if i == 0 {
        } else if i == 1 {
        } else if i == 2 {
        } else {
            assert(i == 3);
        }
    }
    lemma_interpolation::<S>(e, k0, k1, k2, k3, r);
    // The folded tables.
    lemma_pow2_unfold(n);
    let h = tables[0].len() / 2;
    let folded = fold_tables(p, tables, r);
    let f = |i: int| comb(entries(folded, i));
    let g = |i: int| comb(bound_entries(tables, i, r));
    assert forall|i: int| 0 <= i < h implies modular::cong(p, #[trigger] f(i), g(i)) by {
        let x = entries(folded, i);
        let y = bound_entries(tables, i, r);
        assert forall|j: int| 0 <= j < x.len() implies modular::cong(p, #[trigger] x[j], y[j]) by {
            assert(tables[j].len() == tables[0].len());
            assert(x[j] == y[j] % p);
            modular::lemma_cong_mod(p, y[j]);
        }
        lemma_comb_cong(p, x, y);
    }
    sums::lemma_sum_cong(p, f, g, h);
    assert(folded[0].len() == h);
}

/// If the claim is the sum over the tables, it stays so after every round.
pub proof fn lemma_prover_truth<S: ScalarField>(
    tables: Seq<Seq<int>>,
    claim: int,
    t: TranscriptModel,
    k: nat,
    n: nat,
)
    requires
        k <= n,
        tables_shape(tables, n),
        modular::cong(S::modulus(), claim, full_sum(tables)),
        prover_run::<S>(tables, claim, t, n).complete,
    ensures
        modular::cong(
            S::modulus(),
            prover_run::<S>(tables, claim, t, k).claim,
            full_sum(prover_run::<S>(tables, claim, t, k).tables),
        ),
    decreases k,
{
    if k > 0 {
        let m = (k - 1) as nat;
        let p = S::modulus();
        S::lemma_modulus();
        lemma_prover_truth::<S>(tables, claim, t, m, n);
        lemma_prover_prefix::<S>(tables, claim, t, k, n);
        lemma_prover_prefix::<S>(tables, claim, t, m, n);
        lemma_prover_tables::<S>(tables, claim, t, m, n);
        let before = prover_run::<S>(tables, claim, t, m);
        let now = prover_run::<S>(tables, claim, t, k);
        let r = now.point[m as int];
        lemma_round_truth::<S>(before.tables, before.claim, (n - m) as nat, r);
        let poly = univariate::interpolate::<S>(round_evals(before.tables, before.claim));
        modular::lemma_cong_mod(p, univariate::poly_at(poly, r));
    }
}

/// Completeness: the verifier accepts what the prover makes, draws the same challenges and leaves
/// the transcript as the prover does. If the claim is the sum over the tables, the last claim is
/// the combination of the values that the tables take at the challenges.
pub proof fn law_sumcheck_completeness<S: ScalarField>(
    tables: Seq<Seq<int>>,
    claim: int,
    t: TranscriptModel,
    n: nat,
)
    requires
        tables_shape(tables, n),
        0 <= claim < S::modulus(),
        forall|j: int|
            0 <= j < tables.len() ==> multilinear::in_field(S::modulus(), #[trigger] tables[j]),
        prover_run::<S>(tables, claim, t, n).complete,
    ensures
        ({
            let p = S::modulus();
            let run = prover_run::<S>(tables, claim, t, n);
            &&& run.point.len() == n
            &&& verify_of::<S>(run.polys, claim, n, degree(tables), t) == (
                Ok::<(int, Seq<int>), ErrorModel>((run.claim, run.point)),
                run.end,
            )
            &&& forall|j: int|
                0 <= j < tables.len() ==> #[trigger] run.tables[j] == seq![
                    multilinear::mle_eval(p, tables[j], run.point),
                ]
            &&& modular::cong(p, claim, full_sum(tables)) ==> run.claim == comb(
                tables.map_values(|v: Seq<int>| multilinear::mle_eval(p, v, run.point)),
            ) % p
        }),
{
    let p = S::modulus();
    S::lemma_modulus();
    let run = prover_run::<S>(tables, claim, t, n);
    lemma_prover_prefix::<S>(tables, claim, t, n, n);
    lemma_verifier_follows::<S>(tables, claim, t, n, n);
    lemma_prover_tables::<S>(tables, claim, t, n, n);
    lemma2_to64();
    assert forall|j: int| 0 <= j < tables.len() implies #[trigger] run.tables[j] == seq![
        multilinear::mle_eval(p, tables[j], run.point),
    ] by {
        multilinear::law_last_layer_is_evaluation(p, tables[j], run.point);
        assert(run.tables[j] =~= seq![multilinear::mle_eval(p, tables[j], run.point)]);
    }
    if modular::cong(p, claim, full_sum(tables)) {
        lemma_prover_truth::<S>(tables, claim, t, n, n);
        let finals = tables.map_values(|v: Seq<int>| multilinear::mle_eval(p, v, run.point));
        let f = |i: int| comb(entries(run.tables, i));
        assert(run.tables[0].len() == 1);
        assert(sums::sum(f, 1) == sums::sum(f, 0) + f(0));
        assert(entries(run.tables, 0) =~= finals) by {
            assert forall|j: int| 0 <= j < tables.len() implies #[trigger] entries(
                run.tables,
                0,
            )[j] == finals[j] by {
                assert(run.tables[j] == seq![multilinear::mle_eval(p, tables[j], run.point)]);
            }
        }
        // The last claim is reduced.
        if n == 0 {
            lemma_small_mod(claim as nat, p as nat);
        } else {
            let before = prover_run::<S>(tables, claim, t, (n - 1) as nat);
            lemma_prover_prefix::<S>(tables, claim, t, (n - 1) as nat, n);
            lemma_mod_twice(
                univariate::poly_at(
                    univariate::interpolate::<S>(round_evals(before.tables, before.claim)),
                    run.point[n - 1],
                ),
                p,
            );
        }
    }
}

/// The integers that the entries of tables stand for.
pub open spec fn table_vals<S: ScalarField>(tables: Seq<Vec<S>>) -> Seq<Seq<int>> {
    tables.map_values(|t: Vec<S>| traits::vals(t@))
}

/// The combination of the entries of the tables at position `i` with the first variable bound to
/// `x`.
fn bound_comb<S: ScalarField>(
    tables: &Vec<Vec<S>>,
    i: usize,
    x: S,
    Ghost(k): Ghost<int>,
) -> (v: S)
    requires
        tables@.len() == 2 || tables@.len() == 4,
        forall|j: int| 0 <= j < tables@.len() ==> i < (#[trigger] tables@[j])@.len() / 2,
        modular::cong(S::modulus(), x.val(), k),
    ensures
        v.val() == comb(bound_entries(table_vals(tables@), i as int, k)) % S::modulus(),
{
    let ghost p = S::modulus();
    let ghost goal = bound_entries(table_vals(tables@), i as int, k);
    let n: usize = tables.len();
    let mut e: Vec<S> = Vec::new();
    for j in 0..n
        invariant
            n == tables@.len(),
            p == S::modulus(),
            goal == bound_entries(table_vals(tables@), i as int, k),
            modular::cong(p, x.val(), k),
            forall|j: int| 0 <= j < tables@.len() ==> i < (#[trigger] tables@[j])@.len() / 2,
            e@.len() == j,
            forall|l: int|
                0 <= l < j ==> modular::cong(p, (#[trigger] e@[l]).val(), goal[l]),
    {
        let h: usize = tables[j].len() / 2;
        let lo = tables[j][i];
        let hi = tables[j][i + h];
        let d = sub2(hi, lo, Ghost(hi.val()), Ghost(lo.val()));
        let s = mul2(x, d, Ghost(k), Ghost(hi.val() - lo.val()));
        let v = add2(lo, s, Ghost(lo.val()), Ghost(k * (hi.val() - lo.val())));
        assert(goal[j as int] == lo.val() + k * (hi.val() - lo.val()));
        e.push(v);
    }
    assert(modular::cong(p, e@[0].val(), goal[0]));
    assert(modular::cong(p, e@[1].val(), goal[1]));
    if n == 2 {
        mul2(e[0], e[1], Ghost(goal[0]), Ghost(goal[1]))
    } else {
        assert(modular::cong(p, e@[2].val(), goal[2]));
        assert(modular::cong(p, e@[3].val(), goal[3]));
        let m = mul2(e[1], e[2], Ghost(goal[1]), Ghost(goal[2]));
        let d = sub2(m, e[3], Ghost(goal[1] * goal[2]), Ghost(goal[3]));
        mul2(e[0], d, Ghost(goal[0]), Ghost(goal[1] * goal[2] - goal[3]))
    }
}

/// The sum over half of the positions with the first variable bound to `x`.
fn half_sum<S: ScalarField>(tables: &Vec<Vec<S>>, x: u64, Ghost(n): Ghost<nat>) -> (v: S)
    requires
        n > 0,
        tables_shape(table_vals(tables@), n),
    ensures
        v.val() == round_sum(table_vals(tables@), x as int) % S::modulus(),
{
    let ghost p = S::modulus();
    let ghost all = table_vals(tables@);
    let ghost f = |i: int| comb(bound_entries(all, i, x as int));
    let at = S::from_u64(x);
    let mut acc = S::zero();
    let half: usize = tables[0].len() / 2;
    proof {
        S::lemma_modulus();
        modular::lemma_cong_mod(p, x as int);
        lemma_small_mod(0, p as nat);
        assert(all[0].len() == tables@[0]@.len());
    }
    assert forall|j: int| 0 <= j < tables@.len() implies (#[trigger] tables@[j])@.len() / 2
        == half by {
        assert(all[j].len() == tables@[j]@.len());
        assert(all[j].len() == all[0].len());
    }
    for i in 0..half
        invariant
            tables@.len() == 2 || tables@.len() == 4,
            forall|j: int|
                0 <= j < tables@.len() ==> (#[trigger] tables@[j])@.len() / 2 == half,
            p == S::modulus(),
            p > 1,
            all == table_vals(tables@),
            f == (|i: int| comb(bound_entries(all, i, x as int))),
            modular::cong(p, at.val(), x as int),
            acc.val() == sums::sum(f, i as nat) % p,
    {
        let v = bound_comb(tables, i, at, Ghost(x as int));
        proof {
            modular::lemma_cong_mod(p, sums::sum(f, i as nat));
            modular::lemma_cong_mod(p, f(i as int));
        }
        acc = add2(acc, v, Ghost(sums::sum(f, i as nat)), Ghost(f(i as int)));
    }
    acc
}

/// Interpolation sees only remainders.
proof fn lemma_interpolate_mod<S: ScalarField>(e: Seq<int>, d: Seq<int>)
    requires
        e.len() == d.len(),
        e.len() == 3 || e.len() == 4,
        forall|i: int| 0 <= i < e.len() ==> modular::cong(S::modulus(), #[trigger] e[i], d[i]),
    ensures
        univariate::interpolate::<S>(e) == univariate::interpolate::<S>(d),
{
    let p = S::modulus();
    S::lemma_modulus();
    let inv2 = S::two_inv();
    let inv6 = S::six_inv();
    assert(modular::cong(p, e[0], d[0]));
    assert(modular::cong(p, e[1], d[1]));
    assert(modular::cong(p, e[2], d[2]));
    modular::lemma_cong_sub(p, e[1], d[1], e[0], d[0]);
    if e.len() == 3 {
        modular::lemma_cong_mul(p, 2, 2, e[1], d[1]);
        modular::lemma_cong_sub(p, e[0], d[0], 2 * e[1], 2 * d[1]);
        modular::lemma_cong_add(p, e[0] - 2 * e[1], d[0] - 2 * d[1], e[2], d[2]);
        let x = e[0] - 2 * e[1] + e[2];
        let y = d[0] - 2 * d[1] + d[2];
        modular::lemma_cong_mul(p, x, y, inv2, inv2);
        modular::lemma_cong_sub(p, e[1] - e[0], d[1] - d[0], x * inv2, y * inv2);
    } else {
        assert(modular::cong(p, e[3], d[3]));
        modular::lemma_cong_mul(p, 3, 3, e[2], d[2]);
        modular::lemma_cong_mul(p, 3, 3, e[1], d[1]);
        modular::lemma_cong_sub(p, e[3], d[3], 3 * e[2], 3 * d[2]);
        modular::lemma_cong_add(
            p,
            e[3] - 3 * e[2],
            d[3] - 3 * d[2],
            3 * e[1],
            3 * d[1],
        );
        modular::lemma_cong_sub(
            p,
            e[3] - 3 * e[2] + 3 * e[1],
            d[3] - 3 * d[2] + 3 * d[1],
            e[0],
            d[0],
        );
        let x = e[3] - 3 * e[2] + 3 * e[1] - e[0];
        let y = d[3] - 3 * d[2] + 3 * d[1] - d[0];
        modular::lemma_cong_mul(p, x, y, inv6, inv6);
        modular::lemma_cong_mul(p, 2, 2, e[0], d[0]);
        modular::lemma_cong_mul(p, 5, 5, e[1], d[1]);
        modular::lemma_cong_mul(p, 4, 4, e[2], d[2]);
        modular::lemma_cong_sub(p, 2 * e[0], 2 * d[0], 5 * e[1], 5 * d[1]);
        modular::lemma_cong_add(
            p,
            2 * e[0] - 5 * e[1],
            2 * d[0] - 5 * d[1],
            4 * e[2],
            4 * d[2],
        );
        modular::lemma_cong_sub(
            p,
            2 * e[0] - 5 * e[1] + 4 * e[2],
            2 * d[0] - 5 * d[1] + 4 * d[2],
            e[3],
            d[3],
        );
        let u = 2 * e[0] - 5 * e[1] + 4 * e[2] - e[3];
        let v = 2 * d[0] - 5 * d[1] + 4 * d[2] - d[3];
        modular::lemma_cong_mul(p, u, v, inv2, inv2);
        modular::lemma_cong_sub(p, e[1] - e[0], d[1] - d[0], u * inv2, v * inv2);
        modular::lemma_cong_sub(
            p,
            e[1] - e[0] - u * inv2,
            d[1] - d[0] - v * inv2,
            x * inv6,
            y * inv6,
        );
    }
}

/// The polynomial of a round.
fn round_poly<S: ScalarField>(tables: &Vec<Vec<S>>, claim: &S, Ghost(n): Ghost<nat>) -> (poly: UniPoly<
    S,
>)
    requires
        n > 0,
        tables_shape(table_vals(tables@), n),
    ensures
        poly@ == univariate::interpolate::<S>(round_evals(table_vals(tables@), claim.val())),
{
    let ghost p = S::modulus();
    let ghost all = table_vals(tables@);
    let ghost goal = round_evals(all, claim.val());
    proof {
        S::lemma_modulus();
        modular::lemma_cong_mod(p, round_sum(all, 0));
        modular::lemma_cong_mod(p, round_sum(all, 2));
        modular::lemma_cong_mod(p, round_sum(all, 3));
    }
    let e0 = half_sum(tables, 0, Ghost(n));
    let e1 = sub2(*claim, e0, Ghost(claim.val()), Ghost(round_sum(all, 0)));
    let e2 = half_sum(tables, 2, Ghost(n));
    let mut evals: Vec<S> = vec![e0, e1, e2];
    if tables.len() == 4 {
        evals.push(half_sum(tables, 3, Ghost(n)));
    }
    proof {
        assert forall|i: int| 0 <= i < goal.len() implies modular::cong(
            p,
            #[trigger] traits::vals(evals@)[i],
            goal[i],
        ) by {
            if i == 0 {
            } else if i == 1 {
            } else if i == 2 {
            } else {
                assert(i == 3);
            }
        }
        lemma_interpolate_mod::<S>(traits::vals(evals@), goal);
    }
    UniPoly::from_evals(evals.as_slice())
}

/// What a sequence of compressed polynomials says.
pub open spec fn polys_view<S: ScalarField>(s: Seq<CompressedUniPoly<S>>) -> Seq<Seq<int>> {
    s.map_values(|c: CompressedUniPoly<S>| c@)
}

/// A proof of a sum: the compressed polynomial of every round.
pub struct SumcheckProof<E: Engine> {
    /// The polynomials of the rounds, without their linear coefficients.
    pub compressed_polys: Vec<CompressedUniPoly<E::Scalar>>,
}

impl<E: Engine> View for SumcheckProof<E> {
    type V = Seq<Seq<int>>;

    closed spec fn view(&self) -> Seq<Seq<int>> {
        polys_view(self.compressed_polys@)
    }
}

/// What the prover makes of a run: the proof, the challenges and the last entry of every table.
pub open spec fn proves<E: Engine>(
    r: Result<(SumcheckProof<E>, Vec<E::Scalar>, Vec<E::Scalar>), SpartanError>,
    run: ProverRun,
) -> bool {
    match r {
        Ok((proof_, point, finals)) => {
            &&& run.complete
            &&& proof_@ == run.polys
            &&& traits::vals(point@) == run.point
            &&& traits::vals(finals@) == entries(run.tables, 0)
        },
        Err(e) => !run.complete && e@ == ErrorModel::InternalTranscriptError,
    }
}

impl<E: Engine> SumcheckProof<E> {
    /// The proof with the given round polynomials.
    pub fn new(compressed_polys: Vec<CompressedUniPoly<E::Scalar>>) -> (r: Self)
        ensures
            r@ == polys_view(compressed_polys@),
    {
        SumcheckProof { compressed_polys }
    }

    /// Proves a sum over tables.
    fn prove_tables(
        claim: &E::Scalar,
        num_rounds: usize,
        tables_in: Vec<Vec<E::Scalar>>,
        transcript: &mut Keccak256Transcript<E>,
    ) -> (r: Result<(Self, Vec<E::Scalar>, Vec<E::Scalar>), SpartanError>)
        requires
            tables_shape(table_vals(tables_in@), num_rounds as nat),
        ensures
            ({
                let run = prover_run::<E::Scalar>(
                    table_vals(tables_in@),
                    claim.val(),
                    old(transcript)@,
                    num_rounds as nat,
                );
                &&& final(transcript)@ == run.end
                &&& proves(r, run)
            }),
    {
        let ghost p = E::Scalar::modulus();
        let ghost all = table_vals(tables_in@);
        let ghost start = transcript@;
        let ghost first = claim.val();
        let mut tables = tables_in;
        let mut claim_per_round = *claim;
        let mut polys: Vec<CompressedUniPoly<E::Scalar>> = Vec::new();
        let mut point: Vec<E::Scalar> = Vec::new();
        assert(polys_view(polys@) =~= Seq::empty());
        assert(traits::vals(point@) =~= Seq::empty());
        for k in 0..num_rounds
            invariant
                p == E::Scalar::modulus(),
                start == old(transcript)@,
                first == claim.val(),
                tables_shape(table_vals(tables@), (num_rounds - k) as nat),
                ({
                    let run = prover_run::<E::Scalar>(all, first, start, k as nat);
                    &&& run.complete
                    &&& run.tables == table_vals(tables@)
                    &&& run.claim == claim_per_round.val()
                    &&& run.polys == polys_view(polys@)
                    &&& run.point == traits::vals(point@)
                    &&& run.end == transcript@
                }),
                all == table_vals(tables_in@),
        {
            let ghost before = prover_run::<E::Scalar>(all, first, start, k as nat);
            let ghost after = prover_run::<E::Scalar>(all, first, start, (k + 1) as nat);
            let poly = round_poly(&tables, &claim_per_round, Ghost((num_rounds - k) as nat));
            let compressed = poly.compress();
            let ghost old_polys = polys@;
            let ghost old_point = point@;
            let bytes = compressed.to_bytes();
            transcript.absorb_bytes(&POLY_LABEL, bytes.as_slice());
            let r_i = match transcript.squeeze(&CHALLENGE_LABEL) {
                Ok(r_i) => r_i,
                Err(e) => {
                    proof {
                        lemma_prover_stops::<E::Scalar>(
                            all,
                            first,
                            start,
                            (k + 1) as nat,
                            num_rounds as nat,
                        );
                    }
                    return Err(e);
                },
            };
            claim_per_round = poly.evaluate(&r_i);
            polys.push(compressed);
            point.push(r_i);
            let next = fold_all(&tables, &r_i);
            tables = next;
            proof {
                assert(polys_view(polys@) =~= polys_view(old_polys).push(polys@.last()@));
                assert(traits::vals(point@) =~= traits::vals(old_point).push(r_i.val()));
                lemma_pow2_unfold((num_rounds - k) as nat);
                assert(table_vals(tables@) == fold_tables(p, before.tables, r_i.val()));
                assert forall|j: int| 0 <= j < table_vals(tables@).len() implies (
                #[trigger] table_vals(tables@)[j]).len() == pow2((num_rounds - k - 1) as nat) by {
                    assert(before.tables[j].len() == pow2((num_rounds - k) as nat));
                }
            }
        }
        let n: usize = tables.len();
        let mut finals: Vec<E::Scalar> = Vec::new();
        proof {
            lemma2_to64();
        }
        for j in 0..n
            invariant
                n == tables@.len(),
                forall|j: int|
                    0 <= j < n ==> (#[trigger] table_vals(tables@)[j]).len() == 1,
                finals@.len() == j,
                forall|l: int|
                    0 <= l < j ==> (#[trigger] finals@[l]).val() == table_vals(tables@)[l][0],
        {
            assert(table_vals(tables@)[j as int].len() == tables@[j as int]@.len());
            finals.push(tables[j][0]);
        }
        assert(traits::vals(finals@) =~= entries(table_vals(tables@), 0));
        Ok((SumcheckProof { compressed_polys: polys }, point, finals))
    }

    /// Proves the sum of the products of two tables.
    pub fn prove_quad(
        claim: &E::Scalar,
        num_rounds: usize,
        poly_A: MultilinearPolynomial<E::Scalar>,
        poly_B: MultilinearPolynomial<E::Scalar>,
        transcript: &mut Keccak256Transcript<E>,
    ) -> (r: Result<(Self, Vec<E::Scalar>, Vec<E::Scalar>), SpartanError>)
        requires
            tables_shape(seq![poly_A@, poly_B@], num_rounds as nat),
        ensures
            ({
                let run = prover_run::<E::Scalar>(
                    seq![poly_A@, poly_B@],
                    claim.val(),
                    old(transcript)@,
                    num_rounds as nat,
                );
                &&& final(transcript)@ == run.end
                &&& proves(r, run)
            }),
    {
        let ghost goal = seq![poly_A@, poly_B@];
        let tables = vec![poly_A.into_values(), poly_B.into_values()];
        assert(table_vals(tables@) =~= goal);
        Self::prove_tables(claim, num_rounds, tables, transcript)
    }

    /// Proves the sum of the first table times the difference of the product of the second and
    /// the third and of the fourth one.
    pub fn prove_cubic_with_additive_term(
        claim: &E::Scalar,
        num_rounds: usize,
        poly_A: MultilinearPolynomial<E::Scalar>,
        poly_B: MultilinearPolynomial<E::Scalar>,
        poly_C: MultilinearPolynomial<E::Scalar>,
        poly_D: MultilinearPolynomial<E::Scalar>,
        transcript: &mut Keccak256Transcript<E>,
    ) -> (r: Result<(Self, Vec<E::Scalar>, Vec<E::Scalar>), SpartanError>)
        requires
            tables_shape(seq![poly_A@, poly_B@, poly_C@, poly_D@], num_rounds as nat),
        ensures
            ({
                let run = prover_run::<E::Scalar>(
                    seq![poly_A@, poly_B@, poly_C@, poly_D@],
                    claim.val(),
                    old(transcript)@,
                    num_rounds as nat,
                );
                &&& final(transcript)@ == run.end
                &&& proves(r, run)
            }),
    {
        let ghost goal = seq![poly_A@, poly_B@, poly_C@, poly_D@];
        let tables = vec![
            poly_A.into_values(),
            poly_B.into_values(),
            poly_C.into_values(),
            poly_D.into_values(),
        ];
        assert(table_vals(tables@) =~= goal);
        Self::prove_tables(claim, num_rounds, tables, transcript)
    }

    /// Checks a proof of the sum `claim` with round polynomials of degree `degree_bound`. Returns
    /// the claim that is left and the challenges.
    pub fn verify(
        &self,
        claim: E::Scalar,
        num_rounds: usize,
        degree_bound: usize,
        transcript: &mut Keccak256Transcript<E>,
    ) -> (r: Result<(E::Scalar, Vec<E::Scalar>), SpartanError>)
        requires
            degree_bound > 0,
        ensures
            ({
                let (found, end) = verify_of::<E::Scalar>(
                    self@,
                    claim.val(),
                    num_rounds as nat,
                    degree_bound as nat,
                    old(transcript)@,
                );
                &&& final(transcript)@ == end
                &&& match r {
                    Ok((e, point)) => found == Ok::<(int, Seq<int>), ErrorModel>(
                        (e.val(), traits::vals(point@)),
                    ),
                    Err(e) => found == Err::<(int, Seq<int>), ErrorModel>(e@),
                }
            }),
    {
        // there must be a univariate polynomial for each round
        if self.compressed_polys.len() != num_rounds {
            return Err(SpartanError::InvalidSumcheckProof);
        }
        let ghost start = transcript@;
        let mut e = claim;
        let mut point: Vec<E::Scalar> = Vec::new();
        assert(traits::vals(point@) =~= Seq::empty());
        for k in 0..num_rounds
            invariant
                degree_bound > 0,
                num_rounds == self.compressed_polys@.len(),
                self@ == polys_view(self.compressed_polys@),
                start == old(transcript)@,
                verifier_run::<E::Scalar>(
                    self@,
                    claim.val(),
                    degree_bound as nat,
                    start,
                    k as nat,
                ) == (VerifierRun {
                    claim: e.val(),
                    point: traits::vals(point@),
                    end: transcript@,
                    found: Ok(()),
                }),
        {
            let c = &self.compressed_polys[k];
            assert(self@[k as int] == c@);
            if c.len() != degree_bound {
                proof {
                    lemma_verifier_stops::<E::Scalar>(
                        self@,
                        claim.val(),
                        degree_bound as nat,
                        start,
                        (k + 1) as nat,
                        num_rounds as nat,
                    );
                }
                return Err(SpartanError::InvalidSumcheckProof);
            }
            // the values of the polynomial at zero and at one add up to the claim
            let poly = c.decompress(&e);
            let bytes = c.to_bytes();
            transcript.absorb_bytes(&POLY_LABEL, bytes.as_slice());
            let r_i = match transcript.squeeze(&CHALLENGE_LABEL) {
                Ok(r_i) => r_i,
                Err(e) => {
                    proof {
                        lemma_verifier_stops::<E::Scalar>(
                            self@,
                            claim.val(),
                            degree_bound as nat,
                            start,
                            (k + 1) as nat,
                            num_rounds as nat,
                        );
                    }
                    return Err(e);
                },
            };
            let ghost old_point = point@;
            point.push(r_i);
            assert(traits::vals(point@) =~= traits::vals(old_point).push(r_i.val()));
            e = poly.evaluate(&r_i);
        }
        Ok((e, point))
    }
}

/// Binds the first variable of every table.
fn fold_all<S: ScalarField>(tables: &Vec<Vec<S>>, r: &S) -> (out: Vec<Vec<S>>)
    ensures
        table_vals(out@) == fold_tables(S::modulus(), table_vals(tables@), r.val()),
{
    let mut out: Vec<Vec<S>> = Vec::new();
    let ghost goal = fold_tables(S::modulus(), table_vals(tables@), r.val());
    for j in 0..tables.len()
        invariant
            goal == fold_tables(S::modulus(), table_vals(tables@), r.val()),
            out@.len() == j,
            forall|l: int| 0 <= l < j ==> traits::vals((#[trigger] out@[l])@) == goal[l],
    {
        out.push(fold_table(tables[j].as_slice(), r));
    }
    assert(table_vals(out@) =~= goal);
    out
}

/// The prover makes all of its rounds exactly if the transcript has a challenge left for each.
pub proof fn law_prover_comes_to_the_end<S: ScalarField>(
    tables: Seq<Seq<int>>,
    claim: int,
    t: TranscriptModel,
    n: nat,
)
    requires
        t.round <= 65535,
    ensures
        prover_run::<S>(tables, claim, t, n).complete <==> t.round + n <= 65535,
        prover_run::<S>(tables, claim, t, n).complete ==> prover_run::<S>(
            tables,
            claim,
            t,
            n,
        ).end.round == t.round + n,
        !prover_run::<S>(tables, claim, t, n).complete ==> prover_run::<S>(
            tables,
            claim,
            t,
            n,
        ).end.round == 65535,
    decreases n,
{
    if n > 0 {
        law_prover_comes_to_the_end::<S>(tables, claim, t, (n - 1) as nat);
    }
}

/// The verifier's rounds, in the order in which they are made.
proof fn lemma_verifier_rounds<S: ScalarField>(
    polys: Seq<Seq<int>>,
    claim: int,
    degree_bound: nat,
    t: TranscriptModel,
    k: nat,
    n: nat,
)
    requires
        k < n,
        verifier_run::<S>(polys, claim, degree_bound, t, n).found is Ok,
    ensures
        verifier_run::<S>(polys, claim, degree_bound, t, k).found is Ok,
        verifier_run::<S>(polys, claim, degree_bound, t, k + 1).found is Ok,
        polys[k as int].len() == degree_bound,
        verifier_run::<S>(polys, claim, degree_bound, t, k + 1).point
            == verifier_run::<S>(polys, claim, degree_bound, t, n).point.take((k + 1) as int),
        verifier_run::<S>(polys, claim, degree_bound, t, n).point.len() == n,
    decreases n,
{
    lemma_verifier_point::<S>(polys, claim, degree_bound, t, n);
    let all = verifier_run::<S>(polys, claim, degree_bound, t, n);
    if k < n - 1 {
        lemma_verifier_rounds::<S>(polys, claim, degree_bound, t, k, (n - 1) as nat);
        let before = verifier_run::<S>(polys, claim, degree_bound, t, (n - 1) as nat);
        assert(all.point.take((k + 1) as int) =~= before.point.take((k + 1) as int));
    } else {
        assert(all.point.take((k + 1) as int) =~= all.point);
    }
}

/// What an accepted sum-check shows of round `k`: its polynomial is given by `degree_bound`
/// coefficients, all but the linear one, and is absorbed before the challenge of the round is
/// drawn; the linear coefficient is the one with which its values at zero and at one add up to the
/// claim of the round; and the next claim is the value of the polynomial at the challenge. The
/// first claim is the one that is checked and the last one is returned, with all challenges.
pub proof fn law_verifier_round<S: ScalarField>(
    polys: Seq<Seq<int>>,
    claim: int,
    n: nat,
    degree_bound: nat,
    t: TranscriptModel,
    k: nat,
)
    requires
        verify_of::<S>(polys, claim, n, degree_bound, t).0 is Ok,
        degree_bound == 2 || degree_bound == 3,
        k < n,
    ensures
        ({
            let (last, point) = verify_of::<S>(polys, claim, n, degree_bound, t).0->Ok_0;
            let first = verifier_run::<S>(polys, claim, degree_bound, t, 0);
            let now = verifier_run::<S>(polys, claim, degree_bound, t, k);
            let next = verifier_run::<S>(polys, claim, degree_bound, t, k + 1);
            let told = now.end.absorb(seq![112u8], traits::scalar_reprs::<S>(polys[k as int]));
            let c = polys[k as int];
            let r = point[k as int];
            &&& point.len() == n
            &&& first.claim == claim
            &&& first.end == t
            &&& k + 1 == n ==> next.claim == last
            &&& c.len() == degree_bound
            &&& told.round < 65535
            &&& r == S::uniform_of(told.digest(seq![99u8]))
            &&& next.end == told.squeeze(seq![99u8])
            &&& 0 <= next.claim < S::modulus()
            &&& degree_bound == 2 ==> modular::cong(
                S::modulus(),
                next.claim,
                c[0] + (now.claim - 2 * c[0] - c[1]) * r + c[1] * (r * r),
            )
            &&& degree_bound == 3 ==> modular::cong(
                S::modulus(),
                next.claim,
                c[0] + (now.claim - 2 * c[0] - c[1] - c[2]) * r + c[1] * (r * r) + c[2] * (r * (r
                    * r)),
            )
        }),
{
    let p = S::modulus();
    S::lemma_modulus();
    lemma_verifier_rounds::<S>(polys, claim, degree_bound, t, k, n);
    let all = verifier_run::<S>(polys, claim, degree_bound, t, n);
    let now = verifier_run::<S>(polys, claim, degree_bound, t, k);
    let next = verifier_run::<S>(polys, claim, degree_bound, t, k + 1);
    let c = polys[k as int];
    let r = all.point[k as int];
    assert(POLY_LABEL@ =~= seq![112u8]);
    assert(CHALLENGE_LABEL@ =~= seq![99u8]);
    lemma_verifier_point::<S>(polys, claim, degree_bound, t, k);
    assert(next.point[k as int] == r);
    let g = univariate::decompress(p, c, now.claim);
    lemma_mod_bound(univariate::poly_at(g, r), p);
    modular::lemma_cong_mod(p, univariate::poly_at(g, r));
    reveal_with_fuel(univariate::prefix_sum, 4);
    reveal_with_fuel(univariate::poly_at, 5);
    let l = now.claim - c[0] - univariate::prefix_sum(c, c.len());
    modular::lemma_cong_mod(p, l);
    modular::lemma_cong_mul(p, l % p, l, r, r);
    if degree_bound == 2 {
        assert(g =~= seq![c[0], l % p, c[1]]);
        assert(g.drop_first() =~= seq![l % p, c[1]]);
        assert(g.drop_first().drop_first() =~= seq![c[1]]);
        assert(g.drop_first().drop_first().drop_first() =~= Seq::empty());
        let x = l % p;
        assert(univariate::poly_at(g, r) == c[0] + r * (x + r * (c[1] + r * 0)));
        let (a, b) = (c[0], c[1]);
        assert(a + r * (x + r * (b + r * 0)) == (x * r) + (a + b * (r * r))) by (nonlinear_arith);
        assert(l == now.claim - 2 * a - b);
        modular::lemma_cong_add(p, x * r, l * r, a + b * (r * r), a + b * (r * r));
    } else {
        assert(g =~= seq![c[0], l % p, c[1], c[2]]);
        assert(g.drop_first() =~= seq![l % p, c[1], c[2]]);
        assert(g.drop_first().drop_first() =~= seq![c[1], c[2]]);
        assert(g.drop_first().drop_first().drop_first() =~= seq![c[2]]);
        assert(g.drop_first().drop_first().drop_first().drop_first() =~= Seq::empty());
        let x = l % p;
        assert(univariate::poly_at(g, r) == c[0] + r * (x + r * (c[1] + r * (c[2] + r * 0))));
        let (a, b, d) = (c[0], c[1], c[2]);
        assert(a + r * (x + r * (b + r * (d + r * 0))) == (x * r) + (a + b * (r * r) + d * (r * (r
            * r)))) by (nonlinear_arith);
        assert(l == now.claim - 2 * a - b - d);
        let rest = a + b * (r * r) + d * (r * (r * r));
        modular::lemma_cong_add(p, x * r, l * r, rest, rest);
    }
}

/// The verifier of a sum-check comes to the end exactly if there is a polynomial of the right
/// length for each round and a challenge is left for each; a proof of another form is refused as
/// such.
pub proof fn law_verifier_comes_to_the_end<S: ScalarField>(
    polys: Seq<Seq<int>>,
    claim: int,
    n: nat,
    degree_bound: nat,
    t: TranscriptModel,
)
    requires
        t.round <= 65535,
    ensures
        ({
            let formed = polys.len() == n && forall|k: int|
                0 <= k < n ==> (#[trigger] polys[k]).len() == degree_bound;
            let (found, end) = verify_of::<S>(polys, claim, n, degree_bound, t);
            &&& found is Ok <==> formed && t.round + n <= 65535
            &&& found is Ok ==> end.round == t.round + n
            &&& t.round + n <= 65535 && found is Err ==> found == Err::<
                (int, Seq<int>),
                ErrorModel,
            >(ErrorModel::InvalidSumcheckProof)
            &&& formed && found is Err ==> found == Err::<(int, Seq<int>), ErrorModel>(
                ErrorModel::InternalTranscriptError,
            )
        }),
{
    if polys.len() == n {
        lemma_verifier_ends::<S>(polys, claim, degree_bound, t, n);
    }
}

/// How far the verifier comes.
proof fn lemma_verifier_ends<S: ScalarField>(
    polys: Seq<Seq<int>>,
    claim: int,
    degree_bound: nat,
    t: TranscriptModel,
    n: nat,
)
    requires
        t.round <= 65535,
    ensures
        ({
            let formed = forall|k: int|
                0 <= k < n ==> (#[trigger] polys[k]).len() == degree_bound;
            let run = verifier_run::<S>(polys, claim, degree_bound, t, n);
            &&& run.found is Ok <==> formed && t.round + n <= 65535
            &&& run.found is Ok ==> run.end.round == t.round + n
            &&& t.round + n <= 65535 && run.found is Err ==> run.found == Err::<(), ErrorModel>(
                ErrorModel::InvalidSumcheckProof,
            )
            &&& formed && run.found is Err ==> run.found == Err::<(), ErrorModel>(
                ErrorModel::InternalTranscriptError,
            )
        }),
    decreases n,
{
    if n > 0 {
        lemma_verifier_ends::<S>(polys, claim, degree_bound, t, (n - 1) as nat);
        let before = verifier_run::<S>(polys, claim, degree_bound, t, (n - 1) as nat);
        if forall|k: int| 0 <= k < n ==> (#[trigger] polys[k]).len() == degree_bound {
            assert(polys[n - 1].len() == degree_bound);
            assert(forall|k: int|
                0 <= k < n - 1 ==> (#[trigger] polys[k]).len() == degree_bound);
        }
    }
}

/// Interpolation: the polynomial made from three or four values takes them at 0, 1, 2 and, where
/// there are four, at 3, and has as many coefficients as there are values.
pub proof fn law_interpolation<S: ScalarField>(e: Seq<int>, i: int)
    requires
        e.len() == 3 || e.len() == 4,
        0 <= i < e.len(),
    ensures
        univariate::interpolate::<S>(e).len() == e.len(),
        modular::cong(S::modulus(), univariate::poly_at(univariate::interpolate::<S>(e), i), e[i]),
        univariate::interpolate::<S>(e)[0] == e[0] % S::modulus(),
{
    let p = S::modulus();
    S::lemma_modulus();
    let c = univariate::interpolate::<S>(e);
    let two = S::two_inv();
    let six = S::six_inv();
    let (e0, e1, e2) = (e[0], e[1], e[2]);
    let e3 = if e.len() == 4 {
        e[3]
    } else {
        3 * e2 - 3 * e1 + e0
    };
    let n3 = e3 - 3 * e2 + 3 * e1 - e0;
    let n2 = if e.len() == 4 {
        2 * e0 - 5 * e1 + 4 * e2 - e3
    } else {
        e0 - 2 * e1 + e2
    };
    let c2 = n2 * two;
    let c3 = if e.len() == 4 {
        n3 * six
    } else {
        0
    };
    let d = if e.len() == 4 {
        seq![e0, e1 - e0 - c2 - c3, c2, c3]
    } else {
        seq![e0, e1 - e0 - c2, c2]
    };
    modular::lemma_cong_mod(p, e0);
    modular::lemma_cong_mod(p, e1 - e0 - c2 - c3);
    modular::lemma_cong_mod(p, c2);
    modular::lemma_cong_mod(p, c3);
    lemma_poly_cong(p, c, d, i);
    reveal_with_fuel(univariate::poly_at, 5);
    if e.len() == 4 {
        assert(d.drop_first() =~= seq![e1 - e0 - c2 - c3, c2, c3]);
        assert(d.drop_first().drop_first() =~= seq![c2, c3]);
        assert(d.drop_first().drop_first().drop_first() =~= seq![c3]);
        assert(seq![c3].drop_first() =~= Seq::<int>::empty());
    } else {
        assert(d.drop_first() =~= seq![e1 - e0 - c2, c2]);
        assert(d.drop_first().drop_first() =~= seq![c2]);
        assert(seq![c2].drop_first() =~= Seq::<int>::empty());
    }
    let c1 = e1 - e0 - c2 - c3;
    let at = univariate::poly_at(d, i);
    assert(at == e0 + i * (c1 + i * (c2 + i * (c3 + i * 0))));
    // 2 c2 and 6 c3 stand for the numerators
    lemma_small_mod(1, p as nat);
    modular::lemma_cong_mul(p, n2, n2, 2 * two, 1);
    assert(n2 * (2 * two) == 2 * c2) by (nonlinear_arith)
        requires
            c2 == n2 * two,
    ;
    assert(n2 * 1 == n2);
    assert(modular::cong(p, 2 * c2, n2));
    if e.len() == 4 {
        modular::lemma_cong_mul(p, n3, n3, 6 * six, 1);
        assert(n3 * (6 * six) == 6 * c3) by (nonlinear_arith)
            requires
                c3 == n3 * six,
        ;
        assert(n3 * 1 == n3);
    }
    assert(modular::cong(p, 6 * c3, n3));
    if i == 0 {
        assert(at == e0) by (nonlinear_arith)
            requires
                at == e0 + i * (c1 + i * (c2 + i * (c3 + i * 0))),
                i == 0,
        ;
    } else if i == 1 {
        assert(at == e0 + c1 + c2 + c3) by (nonlinear_arith)
            requires
                at == e0 + i * (c1 + i * (c2 + i * (c3 + i * 0))),
                i == 1,
        ;
    } else if i == 2 {
        let base = 2 * e1 - e0;
        modular::lemma_cong_add(p, 2 * c2, n2, 6 * c3, n3);
        modular::lemma_cong_add(p, base, base, 2 * c2 + 6 * c3, n2 + n3);
        assert(at == e0 + 2 * c1 + 4 * c2 + 8 * c3) by (nonlinear_arith)
            requires
                at == e0 + i * (c1 + i * (c2 + i * (c3 + i * 0))),
                i == 2,
        ;
        assert(at == base + (2 * c2 + 6 * c3));
        assert(base + (n2 + n3) == e2);
    } else {
        let base = 3 * e1 - 2 * e0;
        modular::lemma_cong_mul(p, 3, 3, 2 * c2, n2);
        modular::lemma_cong_mul(p, 4, 4, 6 * c3, n3);
        modular::lemma_cong_add(p, 3 * (2 * c2), 3 * n2, 4 * (6 * c3), 4 * n3);
        modular::lemma_cong_add(
            p,
            base,
            base,
            3 * (2 * c2) + 4 * (6 * c3),
            3 * n2 + 4 * n3,
        );
        assert(at == e0 + 3 * c1 + 9 * c2 + 27 * c3) by (nonlinear_arith)
            requires
                at == e0 + i * (c1 + i * (c2 + i * (c3 + i * 0))),
                i == 3,
        ;
        assert(at == base + (3 * (2 * c2) + 4 * (6 * c3)));
        assert(base + (3 * n2 + 4 * n3) == e3);
    }
}

/// What is summed: of two tables the products of their entries, of four tables the entries of the
/// first one times the product of those of the second and third one minus those of the fourth one.
pub proof fn law_summed_terms(a: Seq<int>, b: Seq<int>, c: Seq<int>, d: Seq<int>)
    ensures
        full_sum(seq![a, b]) == sums::sum(|i: int| a[i] * b[i], a.len()),
        full_sum(seq![a, b, c, d]) == sums::sum(|i: int| a[i] * (b[i] * c[i] - d[i]), a.len()),
        degree(seq![a, b]) == 2,
        degree(seq![a, b, c, d]) == 3,
{
    let two = seq![a, b];
    let f = |i: int| comb(entries(two, i));
    let g = |i: int| a[i] * b[i];
    assert forall|i: int| 0 <= i < a.len() implies #[trigger] f(i) == g(i) by {
        let e = entries(two, i);
        assert(e.len() == 2 && e[0] == a[i] && e[1] == b[i]);
    }
    sums::lemma_sum_eq(f, g, a.len());
    assert(full_sum(two) == sums::sum(f, a.len()));
    let four = seq![a, b, c, d];
    let f = |i: int| comb(entries(four, i));
    let g = |i: int| a[i] * (b[i] * c[i] - d[i]);
    assert forall|i: int| 0 <= i < a.len() implies #[trigger] f(i) == g(i) by {
        let e = entries(four, i);
        assert(e.len() == 4 && e[0] == a[i] && e[1] == b[i] && e[2] == c[i] && e[3] == d[i]);
    }
    sums::lemma_sum_eq(f, g, a.len());
    assert(full_sum(four) == sums::sum(f, a.len()));
}

/// What the prover sends, whether or not the claim is true: the polynomial of round `k` takes at zero,
/// at two and, for four tables, at three the sum over the positions of half a layer of what is summed,
/// the entries of each table being those on the line through the two halves of its layer, and its
/// values at zero and at one add up to the claim of the round.
pub proof fn law_prover_round<S: ScalarField>(
    tables: Seq<Seq<int>>,
    claim: int,
    t: TranscriptModel,
    n: nat,
    k: nat,
    x: int,
)
    requires
        tables_shape(tables, n),
        k < n,
        prover_run::<S>(tables, claim, t, n).complete,
        x == 0 || x == 2 || (x == 3 && tables.len() == 4),
    ensures
        ({
            let p = S::modulus();
            let run = prover_run::<S>(tables, claim, t, n);
            let now = prover_run::<S>(tables, claim, t, k).claim;
            let g = univariate::decompress(p, run.polys[k as int], now);
            let h = pow2((n - k - 1) as nat);
            let at = |j: int, i: int|
                multilinear::layer(p, tables[j], run.point, k)[i] + x * (multilinear::layer(
                    p,
                    tables[j],
                    run.point,
                    k,
                )[i + h] - multilinear::layer(p, tables[j], run.point, k)[i]);
            &&& tables.len() == 2 ==> modular::cong(
                p,
                univariate::poly_at(g, x),
                sums::sum(|i: int| at(0, i) * at(1, i), h),
            )
            &&& tables.len() == 4 ==> modular::cong(
                p,
                univariate::poly_at(g, x),
                sums::sum(|i: int| at(0, i) * (at(1, i) * at(2, i) - at(3, i)), h),
            )
            &&& modular::cong(p, univariate::poly_at(g, 0) + univariate::poly_at(g, 1), now)
        }),
{
    let p = S::modulus();
    S::lemma_modulus();
    let run = prover_run::<S>(tables, claim, t, n);
    let before = prover_run::<S>(tables, claim, t, k);
    let after = prover_run::<S>(tables, claim, t, k + 1);
    lemma_prover_prefix::<S>(tables, claim, t, k, n);
    lemma_prover_prefix::<S>(tables, claim, t, k + 1, n);
    lemma_prover_tables::<S>(tables, claim, t, k, n);
    let e = round_evals(before.tables, before.claim);
    assert(run.polys[k as int] == after.polys[k as int]);
    assert(after.polys[k as int] == univariate::compress(univariate::interpolate::<S>(e)));
    univariate::lemma_decompress::<S>(e, before.claim);
    let g = univariate::decompress(p, run.polys[k as int], before.claim);
    assert(g == univariate::interpolate::<S>(e));
    law_interpolation::<S>(e, x);
    assert(e[x] == round_sum(before.tables, x));
    law_interpolation::<S>(e, 0);
    law_interpolation::<S>(e, 1);
    modular::lemma_cong_add(p, univariate::poly_at(g, 0), e[0], univariate::poly_at(g, 1), e[1]);
    let h = pow2((n - k - 1) as nat);
    lemma_pow2_unfold((n - k) as nat);
    let at = |j: int, i: int|
        multilinear::layer(p, tables[j], run.point, k)[i] + x * (multilinear::layer(
            p,
            tables[j],
            run.point,
            k,
        )[i + h] - multilinear::layer(p, tables[j], run.point, k)[i]);
    let f = |i: int| comb(bound_entries(before.tables, i, x));
    assert(before.tables[0].len() / 2 == h);
    assert(round_sum(before.tables, x) == sums::sum(f, h));
    if tables.len() == 2 {
        let q = |i: int| at(0, i) * at(1, i);
        assert forall|i: int| 0 <= i < h implies #[trigger] f(i) == q(i) by {
            let b = bound_entries(before.tables, i, x);
            assert(b.len() == 2 && b[0] == at(0, i) && b[1] == at(1, i));
        }
        sums::lemma_sum_eq(f, q, h);
    } else {
        let q = |i: int| at(0, i) * (at(1, i) * at(2, i) - at(3, i));
        assert forall|i: int| 0 <= i < h implies #[trigger] f(i) == q(i) by {
            let b = bound_entries(before.tables, i, x);
            assert(b.len() == 4 && b[0] == at(0, i) && b[1] == at(1, i) && b[2] == at(2, i) && b[3]
                == at(3, i));
        }
        sums::lemma_sum_eq(f, q, h);
    }
}

} // verus!
