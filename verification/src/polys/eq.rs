//! The equality polynomial.
use crate::modular;
use crate::polys::sums;
use crate::traits::{self, ScalarField};
#[allow(unused_imports)]
use vstd::arithmetic::div_mod::*;
#[allow(unused_imports)]
use vstd::arithmetic::power2::*;
use vstd::prelude::*;

verus! {

/// The equality polynomial at `point` and at the bits of `b`, the first coordinate being matched
/// with the highest bit: the product of `point[i]` over the set bits and of `1 - point[i]` over
/// the others.
pub open spec fn chi(point: Seq<int>, b: int) -> int
    decreases point.len(),
{
    if point.len() == 0 {
        1
    } else {
        let half = pow2((point.len() - 1) as nat) as int;
        if b < half {
            (1 - point[0]) * chi(point.drop_first(), b)
        } else {
            point[0] * chi(point.drop_first(), b - half)
        }
    }
}

/// The equality polynomial at two points: the product of `a b + (1 - a) (1 - b)`.
pub open spec fn eq_at(a: Seq<int>, b: Seq<int>) -> int
    decreases a.len(),
{
    if a.len() == 0 {
        1
    } else {
        (a[0] * b[0] + (1 - a[0]) * (1 - b[0])) * eq_at(a.drop_first(), b.drop_first())
    }
}

/// The values of the equality polynomial at `point` over all bit strings.
pub open spec fn eq_table(p: int, point: Seq<int>) -> Seq<int> {
    Seq::new(pow2(point.len()), |b: int| chi(point, b) % p)
}

/// The equality polynomial at two points is the sum, over all bit strings, of the products of its
/// values at the points and the bit string.
pub proof fn lemma_eq_at(a: Seq<int>, b: Seq<int>)
    requires
        a.len() == b.len(),
    ensures
        sums::sum(|i: int| chi(a, i) * chi(b, i), pow2(a.len())) == eq_at(a, b),
    decreases a.len(),
{
    let f = |i: int| chi(a, i) * chi(b, i);
    lemma2_to64();
    if a.len() == 0 {
        assert(sums::sum(f, 1) == sums::sum(f, 0) + f(0));
    } else {
        let n = pow2((a.len() - 1) as nat);
        lemma_pow2_unfold(a.len());
        let (a1, b1) = (a.drop_first(), b.drop_first());
        lemma_eq_at(a1, b1);
        let g = |i: int| chi(a1, i) * chi(b1, i);
        let up = |i: int| f(n + i);
        sums::lemma_sum_split(f, up, n, n);
        let lo = (1 - a[0]) * (1 - b[0]);
        let hi = a[0] * b[0];
        assert forall|i: int| 0 <= i < n implies #[trigger] f(i) == lo * g(i) by {
            let (x, y) = (chi(a1, i), chi(b1, i));
            let (u, v) = (1 - a[0], 1 - b[0]);
            assert((u * x) * (v * y) == (u * v) * (x * y)) by (nonlinear_arith);
        }
        assert forall|i: int| 0 <= i < n implies #[trigger] up(i) == hi * g(i) by {
            let (x, y) = (chi(a1, i), chi(b1, i));
            let (u, v) = (a[0], b[0]);
            assert(chi(a, n + i) == u * x);
            assert(chi(b, n + i) == v * y);
            assert((u * x) * (v * y) == (u * v) * (x * y)) by (nonlinear_arith);
        }
        sums::lemma_sum_scale(lo, g, f, n);
        sums::lemma_sum_scale(hi, g, up, n);
        let s = sums::sum(g, n);
        assert(lo * s + hi * s == (hi + lo) * s) by (nonlinear_arith);
    }
}

/// The values of the equality polynomial over all bit strings add up to one.
pub proof fn lemma_chi_sum(point: Seq<int>)
    ensures
        sums::sum(|i: int| chi(point, i), pow2(point.len())) == 1,
    decreases point.len(),
{
    let f = |i: int| chi(point, i);
    lemma2_to64();
    if point.len() == 0 {
        assert(sums::sum(f, 1) == sums::sum(f, 0) + f(0));
    } else {
        let n = pow2((point.len() - 1) as nat);
        lemma_pow2_unfold(point.len());
        let rest = point.drop_first();
        lemma_chi_sum(rest);
        let g = |i: int| chi(rest, i);
        let up = |i: int| f(n + i);
        sums::lemma_sum_split(f, up, n, n);
        sums::lemma_sum_scale(1 - point[0], g, f, n);
        sums::lemma_sum_scale(point[0], g, up, n);
    }
}

/// The equality polynomial.
pub struct EqPolynomial<S: ScalarField> {
    r: Vec<S>,
}

impl<S: ScalarField> EqPolynomial<S> {
    /// The point of this polynomial.
    pub closed spec fn point(self) -> Seq<int> {
        traits::vals(self.r@)
    }

    /// The equality polynomial at `r`.
    pub fn new(r: Vec<S>) -> (e: Self)
        ensures
            e.point() == traits::vals(r@),
    {
        EqPolynomial { r }
    }

    /// The value of the polynomial at `rx`.
    pub fn evaluate(&self, rx: &[S]) -> (v: S)
        requires
            rx@.len() == self.point().len(),
        ensures
            v.val() == eq_at(self.point(), traits::vals(rx@)) % S::modulus(),
    {
        let one = S::one();
        let mut acc = S::one();
        let n: usize = self.r.len();
        let ghost p = S::modulus();
        let ghost a = self.point();
        let ghost b = traits::vals(rx@);
        let mut k: usize = n;
        proof {
            S::lemma_modulus();
            lemma_small_mod(1, p as nat);
            assert(a.skip(n as int).len() == 0);
        }
        while k > 0
            invariant
                k <= n,
                n == a.len(),
                n == b.len(),
                n == self.r@.len(),
                n == rx@.len(),
                p == S::modulus(),
                p > 1,
                one.val() == 1,
                a == traits::vals(self.r@),
                b == traits::vals(rx@),
                acc.val() == eq_at(a.skip(k as int), b.skip(k as int)) % p,
            decreases k,
        {
            k = k - 1;
            let x = self.r[k];
            let y = rx[k];
            let both = x.times(y);
            let none = one.minus(x).times(one.minus(y));
            let ghost before = acc.val();
            acc = both.plus(none).times(acc);
            proof {
                let s = a.skip(k as int);
                let t = b.skip(k as int);
                assert(s.drop_first() =~= a.skip(k + 1));
                assert(t.drop_first() =~= b.skip(k + 1));
                assert(s[0] == x.val());
                assert(t[0] == y.val());
                let rest = eq_at(s.drop_first(), t.drop_first());
                modular::lemma_cong_mod(p, x.val() * y.val());
                modular::lemma_cong_mod(p, 1 - x.val());
                modular::lemma_cong_mod(p, 1 - y.val());
                let nx = (1 - x.val()) % p;
                let ny = (1 - y.val()) % p;
                modular::lemma_cong_mul(p, nx, 1 - x.val(), ny, 1 - y.val());
                modular::lemma_cong_mod(p, nx * ny);
                modular::lemma_cong_add(
                    p,
                    both.val(),
                    x.val() * y.val(),
                    none.val(),
                    (1 - x.val()) * (1 - y.val()),
                );
                modular::lemma_cong_mod(p, both.val() + none.val());
                modular::lemma_cong_mod(p, rest);
                modular::lemma_cong_mul(
                    p,
                    (both.val() + none.val()) % p,
                    x.val() * y.val() + (1 - x.val()) * (1 - y.val()),
                    before,
                    rest,
                );
            }
        }
        assert(a.skip(0) =~= a);
        assert(b.skip(0) =~= b);
        acc
    }

    /// The values at all bit strings, the first coordinate being matched with the highest bit.
    pub fn evals(&self) -> (t: Vec<S>)
        requires
            pow2(self.point().len()) <= usize::MAX,
        ensures
            t@.len() == pow2(self.point().len()),
            forall|b: int|
                0 <= b < t@.len() ==> (#[trigger] t@[b]).val() == chi(self.point(), b)
                    % S::modulus(),
    {
        Self::evals_from_points(self.r.as_slice())
    }

    /// The values of the equality polynomial at `r` over all bit strings, the first coordinate
    /// being matched with the highest bit.
    pub fn evals_from_points(r: &[S]) -> (t: Vec<S>)
        requires
            pow2(r@.len()) <= usize::MAX,
        ensures
            t@.len() == pow2(r@.len()),
            forall|b: int|
                0 <= b < t@.len() ==> (#[trigger] t@[b]).val() == chi(traits::vals(r@), b)
                    % S::modulus(),
    {
        let ghost p = S::modulus();
        let ghost point = traits::vals(r@);
        let n: usize = r.len();
        let mut t: Vec<S> = Vec::new();
        t.push(S::one());
        let mut k: usize = n;
        proof {
            S::lemma_modulus();
            lemma_small_mod(1, p as nat);
            lemma2_to64();
            assert(point.skip(n as int).len() == 0);
        }
        while k > 0
            invariant
                k <= n,
                n == r@.len(),
                point == traits::vals(r@),
                p == S::modulus(),
                p > 1,
                pow2(n as nat) <= usize::MAX,
                t@.len() == pow2((n - k) as nat),
                forall|b: int|
                    0 <= b < t@.len() ==> (#[trigger] t@[b]).val() == chi(
                        point.skip(k as int),
                        b,
                    ) % p,
            decreases k,
        {
            k = k - 1;
            let x = r[k];
            let ghost old_t = t@;
            let size: usize = t.len();
            let ghost tail = point.skip(k + 1);
            let ghost now = point.skip(k as int);
            proof {
                assert(now.drop_first() =~= tail);
                assert(now[0] == x.val());
                lemma_pow2_unfold((n - k) as nat);
                if (n - k) < n {
                    lemma_pow2_strictly_increases((n - k) as nat, n as nat);
                }
            }
            let mut left: Vec<S> = Vec::new();
            let mut right: Vec<S> = Vec::new();
            for i in 0..size
                invariant
                    size == t@.len(),
                    size == old_t.len(),
                    t@ == old_t,
                    p == S::modulus(),
                    p > 1,
                    now.len() > 0,
                    now.drop_first() == tail,
                    now[0] == x.val(),
                    size == pow2((now.len() - 1) as nat),
                    forall|b: int|
                        0 <= b < size ==> (#[trigger] old_t[b]).val() == chi(tail, b) % p,
                    left@.len() == i,
                    right@.len() == i,
                    forall|b: int| 0 <= b < i ==> (#[trigger] left@[b]).val() == chi(now, b) % p,
                    forall|b: int|
                        0 <= b < i ==> (#[trigger] right@[b]).val() == chi(now, size + b) % p,
            {
                let hi = t[i].times(x);
                let lo = t[i].minus(hi);
                proof {
                    let c = chi(tail, i as int);
                    let v = x.val();
                    assert(old_t[i as int].val() == c % p);
                    modular::lemma_cong_mod(p, c);
                    modular::lemma_cong_mul(p, c % p, c, v, v);
                    modular::lemma_cong_mod(p, (c % p) * v);
                    assert(c * v == v * c) by (nonlinear_arith);
                    modular::lemma_cong_sub(p, c % p, c, ((c % p) * v) % p, v * c);
                    assert(c - v * c == (1 - v) * c) by (nonlinear_arith);
                }
                left.push(lo);
                right.push(hi);
            }
            left.append(&mut right);
            t = left;
            assert(t@.len() == pow2((n - k) as nat));
        }
        assert(point.skip(0) =~= point);
        t
    }
}

/// The bits of `b`, the highest of `m` ones first.
pub open spec fn bits_of(b: int, m: nat) -> Seq<int>
    decreases m,
{
    if m == 0 {
        Seq::empty()
    } else {
        let half = pow2((m - 1) as nat) as int;
        if b < half {
            seq![0int] + bits_of(b, (m - 1) as nat)
        } else {
            seq![1int] + bits_of(b - half, (m - 1) as nat)
        }
    }
}

/// On bit strings the equality polynomial tells whether they are equal.
pub proof fn law_chi_on_bits(b: int, c: int, m: nat)
    requires
        0 <= b < pow2(m),
        0 <= c < pow2(m),
    ensures
        bits_of(b, m).len() == m,
        chi(bits_of(b, m), c) == if b == c {
            1int
        } else {
            0int
        },
    decreases m,
{
    lemma2_to64();
    if m > 0 {
        lemma_pow2_unfold(m);
        let half = pow2((m - 1) as nat) as int;
        let b1 = if b < half {
            b
        } else {
            b - half
        };
        let c1 = if c < half {
            c
        } else {
            c - half
        };
        law_chi_on_bits(b1, c1, (m - 1) as nat);
        assert(bits_of(b, m).drop_first() =~= bits_of(b1, (m - 1) as nat));
    }
}

} // verus!
