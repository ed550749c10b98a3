//! Finite sums of integers.
use crate::modular;
use vstd::prelude::*;

verus! {

/// The sum of `f(0)`, ..., `f(n - 1)`.
pub open spec fn sum(f: spec_fn(int) -> int, n: nat) -> int
    decreases n,
{
    if n == 0 {
        0
    } else {
        sum(f, (n - 1) as nat) + f(n - 1)
    }
}

/// Sums of equal terms are equal.
pub proof fn lemma_sum_eq(f: spec_fn(int) -> int, g: spec_fn(int) -> int, n: nat)
    requires
        forall|i: int| 0 <= i < n ==> #[trigger] f(i) == g(i),
    ensures
        sum(f, n) == sum(g, n),
    decreases n,
{
    if n > 0 {
        lemma_sum_eq(f, g, (n - 1) as nat);
        assert(f(n - 1) == g(n - 1));
    }
}

/// Sums of congruent terms are congruent.
pub proof fn lemma_sum_cong(p: int, f: spec_fn(int) -> int, g: spec_fn(int) -> int, n: nat)
    requires
        p > 0,
        forall|i: int| 0 <= i < n ==> modular::cong(p, #[trigger] f(i), g(i)),
    ensures
        modular::cong(p, sum(f, n), sum(g, n)),
    decreases n,
{
    if n > 0 {
        lemma_sum_cong(p, f, g, (n - 1) as nat);
        assert(modular::cong(p, f(n - 1), g(n - 1)));
        modular::lemma_cong_add(
            p,
            sum(f, (n - 1) as nat),
            sum(g, (n - 1) as nat),
            f(n - 1),
            g(n - 1),
        );
    }
}

/// A sum of sums of two terms.
pub proof fn lemma_sum_add(
    f: spec_fn(int) -> int,
    g: spec_fn(int) -> int,
    h: spec_fn(int) -> int,
    n: nat,
)
    requires
        forall|i: int| 0 <= i < n ==> #[trigger] h(i) == f(i) + g(i),
    ensures
        sum(h, n) == sum(f, n) + sum(g, n),
    decreases n,
{
    if n > 0 {
        lemma_sum_add(f, g, h, (n - 1) as nat);
        assert(h(n - 1) == f(n - 1) + g(n - 1));
    }
}

/// A common factor moves in front of a sum.
pub proof fn lemma_sum_scale(c: int, f: spec_fn(int) -> int, h: spec_fn(int) -> int, n: nat)
    requires
        forall|i: int| 0 <= i < n ==> #[trigger] h(i) == c * f(i),
    ensures
        sum(h, n) == c * sum(f, n),
    decreases n,
{
    if n > 0 {
        lemma_sum_scale(c, f, h, (n - 1) as nat);
        assert(h(n - 1) == c * f(n - 1));
        assert(c * (sum(f, (n - 1) as nat) + f(n - 1)) == c * sum(f, (n - 1) as nat) + c * f(
            n - 1,
        )) by (nonlinear_arith);
    } else {
        assert(c * 0 == 0);
    }
}

/// A sum is the sum of its first `n` terms and of the `m` terms behind them.
pub proof fn lemma_sum_split(
    f: spec_fn(int) -> int,
    g: spec_fn(int) -> int,
    n: nat,
    m: nat,
)
    requires
        forall|i: int| 0 <= i < m ==> #[trigger] g(i) == f(n + i),
    ensures
        sum(f, n + m) == sum(f, n) + sum(g, m),
    decreases m,
{
    if m > 0 {
        lemma_sum_split(f, g, n, (m - 1) as nat);
        assert(g(m - 1) == f(n + (m - 1)));
    }
}

/// A sum of zeros is zero.
pub proof fn lemma_sum_zero(f: spec_fn(int) -> int, n: nat)
    requires
        forall|i: int| 0 <= i < n ==> #[trigger] f(i) == 0,
    ensures
        sum(f, n) == 0,
    decreases n,
{
    if n > 0 {
        lemma_sum_zero(f, (n - 1) as nat);
        assert(f(n - 1) == 0);
    }
}

/// A sum with a single term that is not zero.
pub proof fn lemma_sum_single(f: spec_fn(int) -> int, c: int, n: nat)
    requires
        forall|j: int| 0 <= j < n && j != c ==> #[trigger] f(j) == 0,
    ensures
        sum(f, n) == if 0 <= c < n {
            f(c)
        } else {
            0
        },
    decreases n,
{
    if n > 0 {
        lemma_sum_single(f, c, (n - 1) as nat);
    }
}

} // verus!
