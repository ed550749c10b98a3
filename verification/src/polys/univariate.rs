//! Univariate polynomials of the sum-check protocol.
use crate::modular;
use crate::polys::arith::{add2, mul2, sub2};
use crate::polys::sums;
use crate::traits::{self, ScalarField};
#[allow(unused_imports)]
use vstd::arithmetic::div_mod::*;
#[allow(unused_imports)]
use vstd::arithmetic::power::*;
use vstd::prelude::*;

verus! {

/// The value at `x` of the polynomial with the coefficients `c`, the constant term first.
pub open spec fn poly_at(c: Seq<int>, x: int) -> int
    decreases c.len(),
{
    if c.len() == 0 {
        0
    } else {
        c[0] + x * poly_at(c.drop_first(), x)
    }
}

/// The coefficients of the polynomial of degree two that takes the values `e` at 0, 1 and 2.
pub open spec fn quad_of<S: ScalarField>(e: Seq<int>) -> Seq<int> {
    let p = S::modulus();
    let c2 = (e[0] - 2 * e[1] + e[2]) * S::two_inv();
    seq![e[0] % p, (e[1] - e[0] - c2) % p, c2 % p]
}

/// The coefficients of the polynomial of degree three that takes the values `e` at 0, 1, 2 and 3.
pub open spec fn cubic_of<S: ScalarField>(e: Seq<int>) -> Seq<int> {
    let p = S::modulus();
    let c3 = (e[3] - 3 * e[2] + 3 * e[1] - e[0]) * S::six_inv();
    let c2 = (2 * e[0] - 5 * e[1] + 4 * e[2] - e[3]) * S::two_inv();
    seq![e[0] % p, (e[1] - e[0] - c2 - c3) % p, c2 % p, c3 % p]
}

/// The coefficients of the polynomial that takes the values `e` at 0, 1, ...
pub open spec fn interpolate<S: ScalarField>(e: Seq<int>) -> Seq<int> {
    if e.len() == 3 {
        quad_of::<S>(e)
    } else {
        cubic_of::<S>(e)
    }
}

/// All coefficients but the linear one.
pub open spec fn compress(c: Seq<int>) -> Seq<int> {
    seq![c[0]] + c.skip(2)
}

/// The sum of the first `n` entries.
pub open spec fn prefix_sum(c: Seq<int>, n: nat) -> int
    decreases n,
{
    if n == 0 {
        0
    } else {
        prefix_sum(c, (n - 1) as nat) + c[n - 1]
    }
}

/// The coefficients of the polynomial whose values at 0 and 1 add up to `hint`, given all of them
/// but the linear one.
pub open spec fn decompress(p: int, c: Seq<int>, hint: int) -> Seq<int> {
    seq![c[0], (hint - c[0] - prefix_sum(c, c.len())) % p] + c.skip(1)
}

/// The polynomials of degree two and three that interpolate a claim split into two values are
/// recovered from their compressed form and the claim.
pub proof fn lemma_decompress<S: ScalarField>(e: Seq<int>, claim: int)
    requires
        e.len() == 3 || e.len() == 4,
        modular::cong(S::modulus(), e[0] + e[1], claim),
    ensures
        decompress(S::modulus(), compress(interpolate::<S>(e)), claim) == interpolate::<S>(e),
        compress(interpolate::<S>(e)).len() == e.len() - 1,
{
    let p = S::modulus();
    S::lemma_modulus();
    let full = interpolate::<S>(e);
    let c = compress(full);
    let got = decompress(p, c, claim);
    reveal_with_fuel(prefix_sum, 4);
    let c2 = if e.len() == 3 {
        (e[0] - 2 * e[1] + e[2]) * S::two_inv()
    } else {
        (2 * e[0] - 5 * e[1] + 4 * e[2] - e[3]) * S::two_inv()
    };
    let c3 = if e.len() == 3 {
        0
    } else {
        (e[3] - 3 * e[2] + 3 * e[1] - e[0]) * S::six_inv()
    };
    modular::lemma_cong_mod(p, e[0]);
    modular::lemma_cong_mod(p, c2);
    modular::lemma_cong_mod(p, c3);
    let x0 = e[0] % p;
    let x2 = c2 % p;
    let x3 = c3 % p;
    lemma_small_mod(0, p as nat);
    assert(prefix_sum(c, c.len()) == x0 + x2 + x3);
    modular::lemma_cong_sub(p, claim, e[0] + e[1], x0, e[0]);
    modular::lemma_cong_add(p, x0, e[0], x2, c2);
    modular::lemma_cong_add(p, x0 + x2, e[0] + c2, x3, c3);
    modular::lemma_cong_sub(
        p,
        claim - x0,
        e[0] + e[1] - e[0],
        x0 + x2 + x3,
        e[0] + c2 + c3,
    );
    assert(got =~= full);
}

/// A univariate polynomial.
pub struct UniPoly<S: ScalarField> {
    coeffs: Vec<S>,
}

impl<S: ScalarField> View for UniPoly<S> {
    type V = Seq<int>;

    closed spec fn view(&self) -> Seq<int> {
        traits::vals(self.coeffs@)
    }
}

/// A univariate polynomial without its linear term.
pub struct CompressedUniPoly<S: ScalarField> {
    /// The coefficients but for the linear one, the constant one first.
    pub coeffs_except_linear_term: Vec<S>,
}

impl<S: ScalarField> View for CompressedUniPoly<S> {
    type V = Seq<int>;

    closed spec fn view(&self) -> Seq<int> {
        traits::vals(self.coeffs_except_linear_term@)
    }
}

/// Three times an element.
fn triple<S: ScalarField>(x: S) -> (r: S)
    ensures
        modular::cong(S::modulus(), r.val(), 3 * x.val()),
{
    let d = x.plus(x);
    let r = d.plus(x);
    proof {
        let p = S::modulus();
        S::lemma_modulus();
        modular::lemma_cong_mod(p, x.val() + x.val());
        modular::lemma_cong_add(p, d.val(), 2 * x.val(), x.val(), x.val());
        modular::lemma_cong_mod(p, d.val() + x.val());
    }
    r
}

impl<S: ScalarField> UniPoly<S> {
    /// The polynomial of degree two that takes the given values at 0, 1 and 2.
    fn from_three(e0: S, e1: S, e2: S) -> (poly: Self)
        ensures
            poly@ == quad_of::<S>(seq![e0.val(), e1.val(), e2.val()]),
    {
        let ghost p = S::modulus();
        let ghost (x0, x1, x2) = (e0.val(), e1.val(), e2.val());
        let ghost inv2 = S::two_inv();
        proof {
            S::lemma_modulus();
            modular::lemma_cong_mod(p, inv2);
        }
        let twice = add2(e1, e1, Ghost(x1), Ghost(x1));
        let d = sub2(e0, twice, Ghost(x0), Ghost(2 * x1));
        let num = add2(d, e2, Ghost(x0 - 2 * x1), Ghost(x2));
        let c2 = mul2(num, S::half(), Ghost(x0 - 2 * x1 + x2), Ghost(inv2));
        let ghost k2 = (x0 - 2 * x1 + x2) * inv2;
        let s = sub2(e1, e0, Ghost(x1), Ghost(x0));
        let c1 = sub2(s, c2, Ghost(x1 - x0), Ghost(k2));
        proof {
            e0.lemma_val();
            lemma_small_mod(x0 as nat, p as nat);
        }
        let coeffs: Vec<S> = vec![e0, c1, c2];
        assert(traits::vals(coeffs@) =~= quad_of::<S>(seq![x0, x1, x2]));
        UniPoly { coeffs }
    }

    /// The polynomial of degree three that takes the given values at 0, 1, 2 and 3.
    fn from_four(e0: S, e1: S, e2: S, e3: S) -> (poly: Self)
        ensures
            poly@ == cubic_of::<S>(seq![e0.val(), e1.val(), e2.val(), e3.val()]),
    {
        let ghost p = S::modulus();
        let ghost (x0, x1, x2, x3) = (e0.val(), e1.val(), e2.val(), e3.val());
        let ghost inv2 = S::two_inv();
        let ghost inv6 = S::six_inv();
        proof {
            S::lemma_modulus();
            modular::lemma_cong_mod(p, inv2);
            modular::lemma_cong_mod(p, inv6);
        }
        let d3 = sub2(e3, triple(e2), Ghost(x3), Ghost(3 * x2));
        let s3 = add2(d3, triple(e1), Ghost(x3 - 3 * x2), Ghost(3 * x1));
        let n3 = sub2(s3, e0, Ghost(x3 - 3 * x2 + 3 * x1), Ghost(x0));
        let c3 = mul2(n3, S::sixth(), Ghost(x3 - 3 * x2 + 3 * x1 - x0), Ghost(inv6));
        let ghost k3 = (x3 - 3 * x2 + 3 * x1 - x0) * inv6;
        let t0 = add2(e0, e0, Ghost(x0), Ghost(x0));
        let t1 = add2(e1, e1, Ghost(x1), Ghost(x1));
        let f1 = add2(t1, triple(e1), Ghost(2 * x1), Ghost(3 * x1));
        let t2 = add2(e2, e2, Ghost(x2), Ghost(x2));
        let f2 = add2(t2, t2, Ghost(2 * x2), Ghost(2 * x2));
        let a = sub2(t0, f1, Ghost(2 * x0), Ghost(5 * x1));
        let b = add2(a, f2, Ghost(2 * x0 - 5 * x1), Ghost(4 * x2));
        let n2 = sub2(b, e3, Ghost(2 * x0 - 5 * x1 + 4 * x2), Ghost(x3));
        let c2 = mul2(n2, S::half(), Ghost(2 * x0 - 5 * x1 + 4 * x2 - x3), Ghost(inv2));
        let ghost k2 = (2 * x0 - 5 * x1 + 4 * x2 - x3) * inv2;
        let s = sub2(e1, e0, Ghost(x1), Ghost(x0));
        let u = sub2(s, c2, Ghost(x1 - x0), Ghost(k2));
        let c1 = sub2(u, c3, Ghost(x1 - x0 - k2), Ghost(k3));
        proof {
            e0.lemma_val();
            lemma_small_mod(x0 as nat, p as nat);
        }
        let coeffs: Vec<S> = vec![e0, c1, c2, c3];
        assert(traits::vals(coeffs@) =~= cubic_of::<S>(seq![x0, x1, x2, x3]));
        UniPoly { coeffs }
    }

    /// The polynomial that takes the given values at 0, 1, ...; there are three or four of them.
    pub fn from_evals(evals: &[S]) -> (poly: Self)
        requires
            evals@.len() == 3 || evals@.len() == 4,
        ensures
            poly@ == interpolate::<S>(traits::vals(evals@)),
    {
        let ghost e = traits::vals(evals@);
        if evals.len() == 3 {
            assert(e =~= seq![e[0], e[1], e[2]]);
            Self::from_three(evals[0], evals[1], evals[2])
        } else {
            assert(e =~= seq![e[0], e[1], e[2], e[3]]);
            Self::from_four(evals[0], evals[1], evals[2], evals[3])
        }
    }

    /// The degree bound that the number of coefficients gives.
    pub fn degree(&self) -> (d: usize)
        requires
            self@.len() > 0,
        ensures
            d == self@.len() - 1,
    {
        self.coeffs.len() - 1
    }

    /// The value of the polynomial at `r`.
    pub fn evaluate(&self, r: &S) -> (v: S)
        ensures
            v.val() == poly_at(self@, r.val()) % S::modulus(),
    {
        let ghost p = S::modulus();
        let ghost c = self@;
        let mut acc = S::zero();
        let n: usize = self.coeffs.len();
        let mut k: usize = n;
        proof {
            S::lemma_modulus();
            lemma_small_mod(0, p as nat);
            assert(c.skip(n as int).len() == 0);
        }
        while k > 0
            invariant
                k <= n,
                n == self.coeffs@.len(),
                c == traits::vals(self.coeffs@),
                p == S::modulus(),
                p > 1,
                acc.val() == poly_at(c.skip(k as int), r.val()) % p,
            decreases k,
        {
            k = k - 1;
            let ghost rest = c.skip(k + 1);
            let ghost inner = poly_at(rest, r.val());
            proof {
                assert(c.skip(k as int).drop_first() =~= rest);
                assert(c.skip(k as int)[0] == self.coeffs@[k as int].val());
                modular::lemma_cong_mod(p, inner);
            }
            let scaled = mul2(*r, acc, Ghost(r.val()), Ghost(inner));
            acc = add2(
                self.coeffs[k],
                scaled,
                Ghost(self.coeffs@[k as int].val()),
                Ghost(r.val() * inner),
            );
        }
        assert(c.skip(0) =~= c);
        acc
    }

    /// Leaves the linear term out.
    pub fn compress(&self) -> (c: CompressedUniPoly<S>)
        requires
            self@.len() >= 2,
        ensures
            c@ == compress(self@),
    {
        let mut out: Vec<S> = Vec::new();
        out.push(self.coeffs[0]);
        let n: usize = self.coeffs.len();
        let ghost goal = compress(self@);
        for i in 2..n
            invariant
                n == self.coeffs@.len(),
                n >= 2,
                goal == compress(traits::vals(self.coeffs@)),
                out@.len() == i - 1,
                forall|j: int| 0 <= j < i - 1 ==> (#[trigger] out@[j]).val() == goal[j],
        {
            out.push(self.coeffs[i]);
        }
        assert(traits::vals(out@) =~= goal);
        CompressedUniPoly { coeffs_except_linear_term: out }
    }
}

impl<S: ScalarField> CompressedUniPoly<S> {
    /// The compressed form with the given coefficients, the constant term first.
    pub fn new(coeffs_except_linear_term: Vec<S>) -> (c: Self)
        ensures
            c@ == traits::vals(coeffs_except_linear_term@),
    {
        CompressedUniPoly { coeffs_except_linear_term }
    }

    /// The number of coefficients.
    pub fn len(&self) -> (n: usize)
        ensures
            n == self@.len(),
    {
        self.coeffs_except_linear_term.len()
    }

    /// The bytes that stand for the polynomial in a transcript.
    pub fn to_bytes(&self) -> (bytes: Vec<u8>)
        ensures
            bytes@ == traits::scalar_reprs::<S>(self@),
    {
        traits::scalar_bytes(self.coeffs_except_linear_term.as_slice())
    }

    /// The polynomial whose values at 0 and 1 add up to `hint`.
    pub fn decompress(&self, hint: &S) -> (poly: UniPoly<S>)
        requires
            self@.len() >= 1,
        ensures
            poly@ == decompress(S::modulus(), self@, hint.val()),
    {
        let ghost p = S::modulus();
        let ghost c = self@;
        let c0 = self.coeffs_except_linear_term[0];
        let mut total = S::zero();
        proof {
            S::lemma_modulus();
            lemma_small_mod(0, p as nat);
        }
        let n: usize = self.coeffs_except_linear_term.len();
        for i in 0..n
            invariant
                n == self.coeffs_except_linear_term@.len(),
                c == traits::vals(self.coeffs_except_linear_term@),
                p == S::modulus(),
                p > 1,
                total.val() == prefix_sum(c, i as nat) % p,
        {
            proof {
                modular::lemma_cong_mod(p, prefix_sum(c, i as nat));
            }
            total = add2(
                total,
                self.coeffs_except_linear_term[i],
                Ghost(prefix_sum(c, i as nat)),
                Ghost(c[i as int]),
            );
        }
        proof {
            modular::lemma_cong_mod(p, prefix_sum(c, n as nat));
        }
        let d = sub2(*hint, c0, Ghost(hint.val()), Ghost(c0.val()));
        let linear = sub2(
            d,
            total,
            Ghost(hint.val() - c0.val()),
            Ghost(prefix_sum(c, n as nat)),
        );
        let mut coeffs: Vec<S> = Vec::new();
        coeffs.push(c0);
        coeffs.push(linear);
        let ghost goal = decompress(p, c, hint.val());
        for i in 1..n
            invariant
                n == self.coeffs_except_linear_term@.len(),
                c == traits::vals(self.coeffs_except_linear_term@),
                goal == decompress(p, c, hint.val()),
                coeffs@.len() == i + 1,
                forall|j: int| 0 <= j < i + 1 ==> (#[trigger] coeffs@[j]).val() == goal[j],
        {
            coeffs.push(self.coeffs_except_linear_term[i]);
        }
        assert(traits::vals(coeffs@) =~= goal);
        UniPoly { coeffs }
    }
}

/// The coefficients of a polynomial add up to its value at one.
proof fn lemma_value_at_one(c: Seq<int>)
    ensures
        poly_at(c, 1) == prefix_sum(c, c.len()),
    decreases c.len(),
{
    if c.len() > 0 {
        let rest = c.drop_first();
        lemma_value_at_one(rest);
        lemma_prefix_sum_first(c, c.len());
    }
}

/// A prefix sum, split behind its first term.
proof fn lemma_prefix_sum_first(c: Seq<int>, n: nat)
    requires
        0 < n <= c.len(),
    ensures
        prefix_sum(c, n) == c[0] + prefix_sum(c.drop_first(), (n - 1) as nat),
    decreases n,
{
    reveal_with_fuel(prefix_sum, 2);
    if n > 1 {
        lemma_prefix_sum_first(c, (n - 1) as nat);
        assert(c.drop_first()[n - 2] == c[n - 1]);
    }
}

/// A decompressed polynomial takes values at zero and at one that add up to the hint.
pub proof fn law_decompressed_values_add_up(p: int, c: Seq<int>, hint: int)
    requires
        p > 0,
        c.len() > 0,
    ensures
        modular::cong(
            p,
            poly_at(decompress(p, c, hint), 0) + poly_at(decompress(p, c, hint), 1),
            hint,
        ),
{
    let full = decompress(p, c, hint);
    let rest = c.skip(1);
    let linear = hint - c[0] - prefix_sum(c, c.len());
    assert(poly_at(full, 0) == c[0]);
    lemma_value_at_one(full);
    lemma_prefix_sum_first(full, full.len());
    assert(full.drop_first() =~= seq![linear % p] + rest);
    lemma_prefix_sum_first(full.drop_first(), (full.len() - 1) as nat);
    assert(full.drop_first().drop_first() =~= rest);
    lemma_prefix_sum_first(c, c.len());
    assert(c.drop_first() =~= rest);
    let total = prefix_sum(c, c.len());
    assert(poly_at(full, 1) == linear % p + total);
    modular::lemma_cong_mod(p, linear);
    modular::lemma_cong_add(p, linear % p, linear, c[0] + total, c[0] + total);
}

/// A polynomial takes at `x` the sum of its coefficients, each one times the power of `x` that
/// belongs to it.
pub proof fn law_value_sums_powers(c: Seq<int>, x: int)
    ensures
        poly_at(c, x) == sums::sum(|i: int| c[i] * pow(x, i as nat), c.len()),
    decreases c.len(),
{
    if c.len() > 0 {
        let rest = c.drop_first();
        law_value_sums_powers(rest, x);
        let f = |i: int| c[i] * pow(x, i as nat);
        let g = |i: int| f(1 + i);
        let h = |i: int| rest[i] * pow(x, i as nat);
        sums::lemma_sum_split(f, g, 1, rest.len());
        assert forall|i: int| 0 <= i < rest.len() implies #[trigger] g(i) == x * h(i) by {
            reveal(pow);
            let (a, b) = (rest[i], pow(x, i as nat));
            assert(c[1 + i] == a);
            assert(pow(x, (1 + i) as nat) == x * b);
            assert(a * (x * b) == x * (a * b)) by (nonlinear_arith);
        }
        sums::lemma_sum_scale(x, h, g, rest.len());
        lemma_pow0(x);
        assert(sums::sum(f, 1) == sums::sum(f, 0) + f(0));
        assert(f(0) == c[0]);
        assert(1 + rest.len() == c.len());
    }
}

/// The compressed form keeps every coefficient but the linear one, in their order, and a polynomial
/// is recovered from its compressed form and the sum of its values at zero and at one.
pub proof fn law_compression(p: int, c: Seq<int>, hint: int)
    requires
        p > 0,
        c.len() >= 2,
        forall|i: int| 0 <= i < c.len() ==> 0 <= #[trigger] c[i] < p,
        modular::cong(p, hint, poly_at(c, 0) + poly_at(c, 1)),
    ensures
        compress(c).len() == c.len() - 1,
        compress(c)[0] == c[0],
        forall|i: int| 1 <= i < c.len() - 1 ==> #[trigger] compress(c)[i] == c[i + 1],
        decompress(p, compress(c), hint) == c,
{
    let d = compress(c);
    let got = decompress(p, d, hint);
    lemma_value_at_one(c);
    lemma_prefix_sum_first(c, c.len());
    let rest = c.drop_first();
    lemma_prefix_sum_first(rest, rest.len());
    lemma_prefix_sum_first(d, d.len());
    assert(d.drop_first() =~= rest.drop_first());
    assert(poly_at(c, 0) == c[0]);
    let total = prefix_sum(d, d.len());
    assert(poly_at(c, 1) == c[1] + total);
    let l = hint - c[0] - total;
    modular::lemma_cong_sub(p, hint, c[0] + c[1] + total, c[0] + total, c[0] + total);
    lemma_small_mod(c[1] as nat, p as nat);
    assert(l % p == c[1]);
    assert(got =~= c);
}

} // verus!
