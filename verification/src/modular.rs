//! Arithmetic modulo a positive integer, as used to state what field operations compute.
#[allow(unused_imports)]
use vstd::arithmetic::div_mod::*;
use vstd::prelude::*;

verus! {

/// `a` and `b` leave the same remainder modulo `p`.
pub open spec fn cong(p: int, a: int, b: int) -> bool {
    a % p == b % p
}

/// A value is congruent to its own remainder.
pub proof fn lemma_cong_mod(p: int, a: int)
    requires
        p > 0,
    ensures
        cong(p, a % p, a),
{
    lemma_mod_twice(a, p);
}

/// Congruences add.
pub proof fn lemma_cong_add(p: int, a: int, b: int, c: int, d: int)
    requires
        p > 0,
        cong(p, a, b),
        cong(p, c, d),
    ensures
        cong(p, a + c, b + d),
{
    lemma_add_mod_noop(a, c, p);
    lemma_add_mod_noop(b, d, p);
}

/// Congruences subtract.
pub proof fn lemma_cong_sub(p: int, a: int, b: int, c: int, d: int)
    requires
        p > 0,
        cong(p, a, b),
        cong(p, c, d),
    ensures
        cong(p, a - c, b - d),
{
    lemma_sub_mod_noop(a, c, p);
    lemma_sub_mod_noop(b, d, p);
}

/// Congruences multiply.
pub proof fn lemma_cong_mul(p: int, a: int, b: int, c: int, d: int)
    requires
        p > 0,
        cong(p, a, b),
        cong(p, c, d),
    ensures
        cong(p, a * c, b * d),
{
    lemma_mul_mod_noop_general(a, c, p);
    lemma_mul_mod_noop_general(b, d, p);
}

} // verus!
