//! Field arithmetic followed by unreduced integers.
//!
//! Each operation takes, as ghost arguments, integers that its operands are congruent to, and
//! gives an element that stands for the result of the same operation on those integers.
use crate::modular;
use crate::traits::ScalarField;
use vstd::prelude::*;

verus! {

/// The sum of elements that stand for `a` and `b`.
pub(crate) fn add2<S: ScalarField>(x: S, y: S, Ghost(a): Ghost<int>, Ghost(b): Ghost<int>) -> (r: S)
    requires
        modular::cong(S::modulus(), x.val(), a),
        modular::cong(S::modulus(), y.val(), b),
    ensures
        r.val() == (a + b) % S::modulus(),
        modular::cong(S::modulus(), r.val(), a + b),
{
    proof {
        let p = S::modulus();
        S::lemma_modulus();
        modular::lemma_cong_add(p, x.val(), a, y.val(), b);
        modular::lemma_cong_mod(p, a + b);
    }
    x.plus(y)
}

/// The difference of elements that stand for `a` and `b`.
pub(crate) fn sub2<S: ScalarField>(x: S, y: S, Ghost(a): Ghost<int>, Ghost(b): Ghost<int>) -> (r: S)
    requires
        modular::cong(S::modulus(), x.val(), a),
        modular::cong(S::modulus(), y.val(), b),
    ensures
        r.val() == (a - b) % S::modulus(),
        modular::cong(S::modulus(), r.val(), a - b),
{
    proof {
        let p = S::modulus();
        S::lemma_modulus();
        modular::lemma_cong_sub(p, x.val(), a, y.val(), b);
        modular::lemma_cong_mod(p, a - b);
    }
    x.minus(y)
}

/// The product of elements that stand for `a` and `b`.
pub(crate) fn mul2<S: ScalarField>(x: S, y: S, Ghost(a): Ghost<int>, Ghost(b): Ghost<int>) -> (r: S)
    requires
        modular::cong(S::modulus(), x.val(), a),
        modular::cong(S::modulus(), y.val(), b),
    ensures
        r.val() == (a * b) % S::modulus(),
        modular::cong(S::modulus(), r.val(), a * b),
{
    proof {
        let p = S::modulus();
        S::lemma_modulus();
        modular::lemma_cong_mul(p, x.val(), a, y.val(), b);
        modular::lemma_cong_mod(p, a * b);
    }
    x.times(y)
}

} // verus!
