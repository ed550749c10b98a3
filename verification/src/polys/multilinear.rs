//! Multilinear extensions of tables.
use crate::modular;
use crate::polys::arith::{add2, mul2};
use crate::polys::{eq, sums};
use crate::traits::{self, ScalarField};
#[allow(unused_imports)]
use vstd::arithmetic::div_mod::*;
#[allow(unused_imports)]
use vstd::arithmetic::power2::*;
use vstd::prelude::*;

verus! {

/// The value between `a` and `b` at `r`: `(1 - r) a + r b`.
pub open spec fn fold_pair(p: int, a: int, b: int, r: int) -> int {
    (a + r * (b - a)) % p
}

/// A table with its first variable bound to `r`.
pub open spec fn fold(p: int, v: Seq<int>, r: int) -> Seq<int> {
    Seq::new(v.len() / 2, |i: int| fold_pair(p, v[i], v[i + v.len() / 2], r))
}

/// The table `v` with its first `i` variables bound to `point`.
pub open spec fn layer(p: int, v: Seq<int>, point: Seq<int>, i: nat) -> Seq<int>
    decreases i,
{
    if i == 0 {
        v
    } else {
        fold(p, layer(p, v, point, (i - 1) as nat), point[i - 1])
    }
}

/// The sum of the table entries, each one weighted by the equality polynomial at `point`.
pub open spec fn mle_sum(v: Seq<int>, point: Seq<int>) -> int {
    sums::sum(|b: int| v[b] * eq::chi(point, b), v.len())
}

/// The value at `point` of the multilinear polynomial that takes the values `v` on bit strings.
pub open spec fn mle_eval(p: int, v: Seq<int>, point: Seq<int>) -> int {
    mle_sum(v, point) % p
}

/// Every entry lies in `0..p`.
pub open spec fn in_field(p: int, v: Seq<int>) -> bool {
    forall|i: int| 0 <= i < v.len() ==> 0 <= #[trigger] v[i] < p
}

/// The integers of a sequence of scalars lie in the field.
pub proof fn lemma_vals_in_field<S: ScalarField>(s: Seq<S>)
    ensures
        in_field(S::modulus(), traits::vals(s)),
{
    assert forall|i: int| 0 <= i < s.len() implies 0 <= #[trigger] traits::vals(s)[i]
        < S::modulus() by {
        s[i].lemma_val();
    }
}

/// A folded table lies in the field and has half the length.
pub proof fn lemma_fold_in_field(p: int, v: Seq<int>, r: int)
    requires
        p > 0,
    ensures
        in_field(p, fold(p, v, r)),
        fold(p, v, r).len() == v.len() / 2,
{
    assert forall|i: int| 0 <= i < v.len() / 2 implies 0 <= #[trigger] fold(p, v, r)[i] < p by {
        lemma_mod_bound(v[i] + r * (v[i + v.len() / 2] - v[i]), p);
    }
}

/// Binding the first variable keeps the value of the extension.
pub proof fn lemma_fold_mle(p: int, v: Seq<int>, point: Seq<int>)
    requires
        p > 0,
        point.len() > 0,
        v.len() == pow2(point.len()),
    ensures
        mle_eval(p, fold(p, v, point[0]), point.drop_first()) == mle_eval(p, v, point),
        fold(p, v, point[0]).len() == pow2((point.len() - 1) as nat),
{
    let m = point.len();
    let r = point[0];
    let rest = point.drop_first();
    let n = pow2((m - 1) as nat);
    lemma_pow2_unfold(m);
    let f = |b: int| v[b] * eq::chi(point, b);
    let upper = |b: int| v[n + b] * eq::chi(point, n + b);
    sums::lemma_sum_split(f, upper, n, n);
    // Fold without reducing.
    let g = |b: int| (v[b] + r * (v[n + b] - v[b])) * eq::chi(rest, b);
    assert forall|b: int| 0 <= b < n implies #[trigger] g(b) == f(b) + upper(b) by {
        let c = eq::chi(rest, b);
        assert(eq::chi(point, b) == (1 - r) * c);
        assert(eq::chi(point, n + b) == r * c);
        let x = v[b];
        let y = v[n + b];
        assert((x + r * (y - x)) * c == x * ((1 - r) * c) + y * (r * c)) by (nonlinear_arith);
    }
    sums::lemma_sum_add(f, upper, g, n);
    let folded = fold(p, v, r);
    let h = |b: int| folded[b] * eq::chi(rest, b);
    assert forall|b: int| 0 <= b < n implies modular::cong(p, #[trigger] h(b), g(b)) by {
        let raw = v[b] + r * (v[n + b] - v[b]);
        assert(v.len() / 2 == n);
        assert(folded[b] == raw % p);
        modular::lemma_cong_mod(p, raw);
        modular::lemma_cong_mul(p, raw % p, raw, eq::chi(rest, b), eq::chi(rest, b));
    }
    sums::lemma_sum_cong(p, h, g, n);
}

/// Binding all variables one after the other gives the value of the extension.
pub proof fn lemma_layers_mle(p: int, v: Seq<int>, point: Seq<int>, i: nat)
    requires
        p > 0,
        i <= point.len(),
        v.len() == pow2(point.len()),
    ensures
        layer(p, v, point, i).len() == pow2((point.len() - i) as nat),
        mle_eval(p, layer(p, v, point, i), point.skip(i as int)) == mle_eval(p, v, point),
    decreases i,
{
    if i == 0 {
        assert(point.skip(0) =~= point);
    } else {
        let k = (i - 1) as nat;
        lemma_layers_mle(p, v, point, k);
        let rest = point.skip(k as int);
        lemma_fold_mle(p, layer(p, v, point, k), rest);
        assert(rest[0] == point[k as int]);
        assert(rest.drop_first() =~= point.skip(i as int));
    }
}

/// The last layer holds the value of the multilinear extension.
pub proof fn law_last_layer_is_evaluation(p: int, v: Seq<int>, point: Seq<int>)
    requires
        p > 0,
        in_field(p, v),
        v.len() == pow2(point.len()),
    ensures
        layer(p, v, point, point.len()).len() == 1,
        layer(p, v, point, point.len())[0] == mle_eval(p, v, point),
{
    let m = point.len();
    lemma_layers_mle(p, v, point, m);
    lemma2_to64();
    let last = layer(p, v, point, m);
    if m > 0 {
        lemma_fold_in_field(p, layer(p, v, point, (m - 1) as nat), point[m - 1]);
    }
    let none = point.skip(m as int);
    let f = |b: int| last[b] * eq::chi(none, b);
    assert(sums::sum(f, 1) == sums::sum(f, 0) + f(0));
    assert(eq::chi(none, 0) == 1);
    assert(0 <= last[0] < p);
    lemma_small_mod(last[0] as nat, p as nat);
}

/// Tables with congruent entries have the same extension.
pub proof fn lemma_mle_cong(p: int, v: Seq<int>, w: Seq<int>, point: Seq<int>)
    requires
        p > 0,
        v.len() == w.len(),
        forall|i: int| 0 <= i < v.len() ==> modular::cong(p, #[trigger] v[i], w[i]),
    ensures
        mle_eval(p, v, point) == mle_eval(p, w, point),
{
    let f = |b: int| v[b] * eq::chi(point, b);
    let g = |b: int| w[b] * eq::chi(point, b);
    assert forall|b: int| 0 <= b < v.len() implies modular::cong(p, #[trigger] f(b), g(b)) by {
        assert(modular::cong(p, v[b], w[b]));
        modular::lemma_cong_mul(p, v[b], w[b], eq::chi(point, b), eq::chi(point, b));
    }
    sums::lemma_sum_cong(p, f, g, v.len());
}

/// The table of the equality polynomial extends to the equality polynomial.
pub proof fn law_eq_table_extends(p: int, a: Seq<int>, b: Seq<int>)
    requires
        p > 0,
        a.len() == b.len(),
    ensures
        mle_eval(p, eq::eq_table(p, a), b) == eq::eq_at(a, b) % p,
{
    let table = eq::eq_table(p, a);
    let raw = Seq::new(pow2(a.len()), |i: int| eq::chi(a, i));
    assert forall|i: int| 0 <= i < table.len() implies modular::cong(p, #[trigger] table[i], raw[i])
        by {
        modular::lemma_cong_mod(p, raw[i]);
    }
    lemma_mle_cong(p, table, raw, b);
    eq::lemma_eq_at(a, b);
    let f = |i: int| raw[i] * eq::chi(b, i);
    let g = |i: int| eq::chi(a, i) * eq::chi(b, i);
    sums::lemma_sum_eq(f, g, pow2(a.len()));
}

/// A constant table extends to the constant.
pub proof fn law_constant_extends(p: int, c: int, point: Seq<int>)
    requires
        p > 0,
    ensures
        mle_eval(p, Seq::new(pow2(point.len()), |i: int| c), point) == c % p,
{
    let v = Seq::new(pow2(point.len()), |i: int| c);
    let f = |b: int| v[b] * eq::chi(point, b);
    let g = |b: int| eq::chi(point, b);
    eq::lemma_chi_sum(point);
    sums::lemma_sum_scale(c, g, f, pow2(point.len()));
}

/// Gating: the extension of two tables, one behind the other, goes from the extension of the first
/// one to that of the second one along the first coordinate.
pub proof fn law_gated_table(p: int, w: Seq<int>, x: Seq<int>, point: Seq<int>)
    requires
        p > 0,
        point.len() > 0,
        w.len() == pow2((point.len() - 1) as nat),
        x.len() == w.len(),
    ensures
        mle_eval(p, w + x, point) == ((1 - point[0]) * mle_eval(p, w, point.drop_first())
            + point[0] * mle_eval(p, x, point.drop_first())) % p,
{
    let n = w.len();
    let z = w + x;
    let g = point[0];
    let rest = point.drop_first();
    lemma_pow2_unfold(point.len());
    let f = |b: int| z[b] * eq::chi(point, b);
    let up = |b: int| f(n + b);
    sums::lemma_sum_split(f, up, n, n);
    let fw = |b: int| w[b] * eq::chi(rest, b);
    let fx = |b: int| x[b] * eq::chi(rest, b);
    assert forall|b: int| 0 <= b < n implies #[trigger] f(b) == (1 - g) * fw(b) by {
        let (v, u, c) = (w[b], 1 - g, eq::chi(rest, b));
        assert(v * (u * c) == u * (v * c)) by (nonlinear_arith);
    }
    assert forall|b: int| 0 <= b < n implies #[trigger] up(b) == g * fx(b) by {
        let (v, c) = (x[b], eq::chi(rest, b));
        assert(z[n + b] == v);
        assert(eq::chi(point, n + b) == g * c);
        assert(v * (g * c) == g * (v * c)) by (nonlinear_arith);
    }
    sums::lemma_sum_scale(1 - g, fw, f, n);
    sums::lemma_sum_scale(g, fx, up, n);
    let (sw, sx) = (mle_sum(w, rest), mle_sum(x, rest));
    assert(mle_sum(z, point) == (1 - g) * sw + g * sx);
    modular::lemma_cong_mod(p, sw);
    modular::lemma_cong_mod(p, sx);
    modular::lemma_cong_mul(p, 1 - g, 1 - g, sw % p, sw);
    modular::lemma_cong_mul(p, g, g, sx % p, sx);
    modular::lemma_cong_add(p, (1 - g) * (sw % p), (1 - g) * sw, g * (sx % p), g * sx);
}

/// `v` filled up with zeros to `n` entries.
pub open spec fn zero_padded(v: Seq<int>, n: nat) -> Seq<int> {
    Seq::new(
        n,
        |i: int|
            if i < v.len() {
                v[i]
            } else {
                0
            },
    )
}

/// `v` filled up with zeros to `n` entries.
pub(crate) fn pad_table<S: ScalarField>(v: &[S], n: usize) -> (t: Vec<S>)
    requires
        v@.len() <= n,
    ensures
        traits::vals(t@) == zero_padded(traits::vals(v@), n as nat),
{
    let ghost goal = zero_padded(traits::vals(v@), n as nat);
    let mut t: Vec<S> = Vec::new();
    for i in 0..n
        invariant
            v@.len() <= n,
            goal == zero_padded(traits::vals(v@), n as nat),
            t@.len() == i,
            forall|j: int| 0 <= j < i ==> (#[trigger] t@[j]).val() == goal[j],
    {
        if i < v.len() {
            t.push(v[i]);
        } else {
            t.push(S::zero());
        }
    }
    assert(traits::vals(t@) =~= goal);
    t
}

/// A multilinear polynomial most of whose values are zero: only the first ones are given.
pub struct SparsePolynomial<S: ScalarField> {
    num_vars: usize,
    z: Vec<S>,
}

impl<S: ScalarField> SparsePolynomial<S> {
    /// The number of variables.
    pub closed spec fn variables(self) -> nat {
        self.num_vars as nat
    }

    /// The values that are given.
    pub closed spec fn values(self) -> Seq<int> {
        traits::vals(self.z@)
    }

    /// The polynomial in `num_vars` variables whose first values are `z`.
    pub fn new(num_vars: usize, z: Vec<S>) -> (r: Self)
        ensures
            r.variables() == num_vars,
            r.values() == traits::vals(z@),
    {
        SparsePolynomial { num_vars, z }
    }

    /// The value of the polynomial at `r`.
    pub fn evaluate(&self, r: &[S]) -> (v: S)
        requires
            r@.len() == self.variables(),
            self.values().len() <= pow2(r@.len()) <= usize::MAX,
        ensures
            v.val() == mle_eval(
                S::modulus(),
                zero_padded(self.values(), pow2(r@.len())),
                traits::vals(r@),
            ),
    {
        let ghost p = S::modulus();
        let ghost point = traits::vals(r@);
        let ghost z = traits::vals(self.z@);
        let ghost f = |b: int| z[b] * eq::chi(point, b);
        let chis = eq::EqPolynomial::<S>::evals_from_points(r);
        let mut acc = S::zero();
        let n: usize = self.z.len();
        proof {
            S::lemma_modulus();
            lemma_small_mod(0, p as nat);
        }
        // a dot product of the given values and the first values of the equality polynomial
        for i in 0..n
            invariant
                p == S::modulus(),
                p > 1,
                n == self.z@.len(),
                n <= chis@.len(),
                z == traits::vals(self.z@),
                f == (|b: int| z[b] * eq::chi(point, b)),
                forall|b: int|
                    0 <= b < chis@.len() ==> (#[trigger] chis@[b]).val() == eq::chi(point, b) % p,
                acc.val() == sums::sum(f, i as nat) % p,
        {
            let ghost c = eq::chi(point, i as int);
            proof {
                assert(chis@[i as int].val() == c % p);
                modular::lemma_cong_mod(p, c);
                modular::lemma_cong_mod(p, sums::sum(f, i as nat));
            }
            let term = mul2(self.z[i], chis[i], Ghost(z[i as int]), Ghost(c));
            acc = add2(acc, term, Ghost(sums::sum(f, i as nat)), Ghost(z[i as int] * c));
        }
        proof {
            let all = pow2(r@.len());
            let full = zero_padded(z, all);
            let g = |b: int| full[b] * eq::chi(point, b);
            let up = |b: int| g(n + b);
            sums::lemma_sum_split(g, up, n as nat, (all - n) as nat);
            sums::lemma_sum_zero(up, (all - n) as nat);
            sums::lemma_sum_eq(f, g, n as nat);
        }
        acc
    }
}

/// A multilinear polynomial given by its values on bit strings.
pub struct MultilinearPolynomial<S: ScalarField> {
    z: Vec<S>,
}

impl<S: ScalarField> View for MultilinearPolynomial<S> {
    type V = Seq<int>;

    closed spec fn view(&self) -> Seq<int> {
        traits::vals(self.z@)
    }
}

impl<S: ScalarField> MultilinearPolynomial<S> {
    /// The polynomial that takes the values `z` on bit strings.
    pub fn new(z: Vec<S>) -> (poly: Self)
        ensures
            poly@ == traits::vals(z@),
    {
        MultilinearPolynomial { z }
    }

    /// The values on bit strings.
    pub fn into_values(self) -> (z: Vec<S>)
        ensures
            traits::vals(z@) == self@,
    {
        self.z
    }

    /// The number of values.
    pub fn len(&self) -> (n: usize)
        ensures
            n == self@.len(),
    {
        self.z.len()
    }

    /// The value at position `i`.
    pub fn get(&self, i: usize) -> (v: S)
        requires
            i < self@.len(),
        ensures
            v.val() == self@[i as int],
    {
        self.z[i]
    }

    /// Binds the first variable to `r`.
    pub fn bind_poly_var_top(&mut self, r: &S)
        ensures
            final(self)@ == fold(S::modulus(), old(self)@, r.val()),
    {
        self.z = fold_table(self.z.as_slice(), r);
    }

    /// The value of the polynomial at `r`.
    pub fn evaluate(&self, r: &[S]) -> (v: S)
        requires
            self@.len() == pow2(r@.len()),
        ensures
            v.val() == mle_eval(S::modulus(), self@, traits::vals(r@)),
    {
        let ghost p = S::modulus();
        let ghost point = traits::vals(r@);
        let n: usize = self.z.len();
        let chis = eq::EqPolynomial::<S>::evals_from_points(r);
        let mut acc = S::zero();
        let ghost f = |b: int| self@[b] * eq::chi(point, b);
        proof {
            S::lemma_modulus();
            lemma_small_mod(0, p as nat);
        }
        for i in 0..n
            invariant
                n == self.z@.len(),
                n == self@.len(),
                n == chis@.len(),
                p == S::modulus(),
                p > 1,
                self@ == traits::vals(self.z@),
                f == (|b: int| self@[b] * eq::chi(point, b)),
                forall|b: int|
                    0 <= b < n ==> (#[trigger] chis@[b]).val() == eq::chi(point, b) % p,
                acc.val() == sums::sum(f, i as nat) % p,
        {
            let term = self.z[i].times(chis[i]);
            proof {
                let c = eq::chi(point, i as int);
                let z = self@[i as int];
                assert(chis@[i as int].val() == c % p);
                modular::lemma_cong_mod(p, c);
                modular::lemma_cong_mul(p, z, z, c % p, c);
                modular::lemma_cong_mod(p, z * (c % p));
                modular::lemma_cong_mod(p, sums::sum(f, i as nat));
                modular::lemma_cong_add(
                    p,
                    acc.val(),
                    sums::sum(f, i as nat),
                    term.val(),
                    z * c,
                );
                assert(f(i as int) == z * c);
            }
            acc = acc.plus(term);
        }
        acc
    }
}

/// Copies a table.
pub(crate) fn copy_table<T: Copy>(v: &[T]) -> (t: Vec<T>)
    ensures
        t@ == v@,
{
    let mut t: Vec<T> = Vec::new();
    for i in 0..v.len()
        invariant
            t@.len() == i,
            forall|j: int| 0 <= j < i ==> t@[j] == v@[j],
    {
        t.push(v[i]);
    }
    assert(t@ =~= v@);
    t
}

/// Appends a table to another one.
pub(crate) fn append_table<T: Copy>(out: &mut Vec<T>, v: &[T])
    ensures
        final(out)@ == old(out)@ + v@,
{
    let ghost start = out@;
    assert(out@ =~= start + v@.take(0));
    for i in 0..v.len()
        invariant
            out@ == start + v@.take(i as int),
    {
        out.push(v[i]);
        assert(out@ =~= start + v@.take(i + 1));
    }
    assert(v@.take(v@.len() as int) =~= v@);
}

/// A table with its first variable bound to `r`.
pub fn fold_table<S: ScalarField>(v: &[S], r: &S) -> (t: Vec<S>)
    ensures
        traits::vals(t@) == fold(S::modulus(), traits::vals(v@), r.val()),
{
    let ghost p = S::modulus();
    let n: usize = v.len() / 2;
    let mut t: Vec<S> = Vec::new();
    for i in 0..n
        invariant
            n == v@.len() / 2,
            p == S::modulus(),
            t@.len() == i,
            forall|j: int|
                0 <= j < i ==> (#[trigger] t@[j]).val() == fold_pair(
                    p,
                    v@[j].val(),
                    v@[j + n].val(),
                    r.val(),
                ),
    {
        t.push(fold_two(v[i], v[i + n], *r));
    }
    assert(traits::vals(t@) =~= fold(p, traits::vals(v@), r.val()));
    t
}

/// The value between `a` and `b` at `r`.
pub fn fold_two<S: ScalarField>(a: S, b: S, r: S) -> (v: S)
    ensures
        v.val() == fold_pair(S::modulus(), a.val(), b.val(), r.val()),
{
    let d = b.minus(a);
    let s = r.times(d);
    proof {
        let p = S::modulus();
        S::lemma_modulus();
        modular::lemma_cong_mod(p, b.val() - a.val());
        modular::lemma_cong_mul(p, r.val(), r.val(), d.val(), b.val() - a.val());
        modular::lemma_cong_mod(p, r.val() * d.val());
        modular::lemma_cong_add(
            p,
            a.val(),
            a.val(),
            s.val(),
            r.val() * (b.val() - a.val()),
        );
    }
    a.plus(s)
}

/// The extension of a table takes the values of the table on bit strings.
pub proof fn law_extension_on_bits(p: int, v: Seq<int>, b: int, m: nat)
    requires
        p > 0,
        in_field(p, v),
        v.len() == pow2(m),
        0 <= b < v.len(),
    ensures
        mle_eval(p, v, eq::bits_of(b, m)) == v[b],
{
    let point = eq::bits_of(b, m);
    let f = |c: int| v[c] * eq::chi(point, c);
    assert forall|c: int| 0 <= c < v.len() && c != b implies #[trigger] f(c) == 0 by {
        eq::law_chi_on_bits(b, c, m);
    }
    eq::law_chi_on_bits(b, b, m);
    sums::lemma_sum_single(f, b, v.len());
    lemma_small_mod(v[b] as nat, p as nat);
}

/// Binding a variable goes along a line: at zero it gives the first value, at one the second, and
/// in between their mean with the weights `1 - r` and `r`.
pub proof fn law_fold_is_linear(p: int, a: int, b: int, r: int)
    requires
        p > 0,
    ensures
        fold_pair(p, a, b, 0) == a % p,
        fold_pair(p, a, b, 1) == b % p,
        fold_pair(p, a, b, r) == ((1 - r) * a + r * b) % p,
{
    assert(a + r * (b - a) == (1 - r) * a + r * b) by (nonlinear_arith);
    assert(a + 0 * (b - a) == a);
    assert(a + 1 * (b - a) == b);
}

/// A table keeps its first half and its second half apart when its first variable is bound, and a
/// table with one entry is a constant.
pub proof fn law_fold_halves(p: int, a: Seq<int>, b: Seq<int>, r: int, i: int, x: int)
    requires
        p > 0,
        a.len() == b.len(),
        0 <= i < a.len(),
    ensures
        fold(p, a + b, r).len() == a.len(),
        fold(p, a + b, r)[i] == ((1 - r) * a[i] + r * b[i]) % p,
        mle_eval(p, seq![x], Seq::empty()) == x % p,
{
    let v = a + b;
    assert(v.len() / 2 == a.len());
    assert(v[i + v.len() / 2] == b[i]);
    law_fold_is_linear(p, a[i], b[i], r);
    let one = seq![x];
    let none = Seq::<int>::empty();
    let f = |c: int| one[c] * eq::chi(none, c);
    assert(sums::sum(f, 1) == sums::sum(f, 0) + f(0));
    assert(f(0) == x);
}

/// Filling up appends zeros, and nothing else.
pub proof fn law_filling_up(v: Seq<int>, n: nat)
    requires
        v.len() <= n,
    ensures
        zero_padded(v, n) == v + Seq::new((n - v.len()) as nat, |i: int| 0int),
{
    assert(zero_padded(v, n) =~= v + Seq::new((n - v.len()) as nat, |i: int| 0int));
}

} // verus!
