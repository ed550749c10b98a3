//! The Goldilocks modulus is prime, powers modulo a prime, and a criterion for primes.
use crate::provider::goldi::GOLDILOCKS_MODULUS;
#[allow(unused_imports)]
use vstd::arithmetic::div_mod::*;
#[allow(unused_imports)]
use vstd::arithmetic::mul::*;
#[allow(unused_imports)]
use vstd::arithmetic::power::*;
#[allow(unused_imports)]
use vstd::arithmetic::power2::*;
use vstd::prelude::*;
#[allow(unused_imports)]
use vstd::set_lib::*;

verus! {

/// An integer above one without a divisor between one and itself.
pub open spec fn is_prime(p: int) -> bool {
    p > 1 && forall|d: int| 1 < d < p ==> #[trigger] (p % d) != 0
}

/// The Goldilocks modulus.
pub open spec fn goldilocks() -> int {
    GOLDILOCKS_MODULUS as int
}

/// Squaring a power and multiplying by its base.
pub(crate) proof fn lemma_step(n: int, b: int, e: nat, v: int, w: int)
    requires
        n > 0,
        pow(b, e) % n == v,
        (v * v * b) % n == w,
    ensures
        pow(b, 2 * e + 1) % n == w,
{
    let x = pow(b, e);
    lemma_pow_adds(b, e, e);
    lemma_pow_adds(b, e + e, 1);
    lemma_pow1(b);
    assert(pow(b, 2 * e + 1) == x * x * b);
    lemma_mul_mod_noop(x, x, n);
    lemma_mul_mod_noop(x * x, b, n);
    lemma_mul_mod_noop(v * v, b, n);
}

/// Squaring a power.
pub(crate) proof fn lemma_square(n: int, b: int, e: nat, v: int, w: int)
    requires
        n > 0,
        pow(b, e) % n == v,
        (v * v) % n == w,
    ensures
        pow(b, 2 * e) % n == w,
{
    let x = pow(b, e);
    lemma_pow_adds(b, e, e);
    lemma_mul_mod_noop(x, x, n);
}

/// Seven to the power `2^32 - 1`, modulo the Goldilocks modulus.
proof fn lemma_seven_root()
    ensures
        pow(7, 0xffff_ffff) % goldilocks() == 1753635133440165772,
{
    lemma_pow0(7);
    lemma_step(goldilocks(), 7, 0, 1, 7);
    lemma_step(goldilocks(), 7, 1, 7, 343);
    lemma_step(goldilocks(), 7, 3, 343, 823543);
    lemma_step(goldilocks(), 7, 7, 823543, 4747561509943);
    lemma_step(goldilocks(), 7, 15, 4747561509943, 11074261478625843323);
    lemma_step(goldilocks(), 7, 31, 11074261478625843323, 12148266161370408270);
    lemma_step(goldilocks(), 7, 63, 12148266161370408270, 7007601668316978083);
    lemma_step(goldilocks(), 7, 127, 7007601668316978083, 8125271997680889877);
    lemma_step(goldilocks(), 7, 255, 8125271997680889877, 2624486902016877951);
    lemma_step(goldilocks(), 7, 511, 2624486902016877951, 8253119735826302939);
    lemma_step(goldilocks(), 7, 1023, 8253119735826302939, 3543566522599720475);
    lemma_step(goldilocks(), 7, 2047, 3543566522599720475, 11981551684735969599);
    lemma_step(goldilocks(), 7, 4095, 11981551684735969599, 10062120588441922115);
    lemma_step(goldilocks(), 7, 8191, 10062120588441922115, 10485806445487905393);
    lemma_step(goldilocks(), 7, 16383, 10485806445487905393, 4139485063330164956);
    lemma_step(goldilocks(), 7, 32767, 4139485063330164956, 12134830135347446949);
    lemma_step(goldilocks(), 7, 65535, 12134830135347446949, 4326791766630348883);
    lemma_step(goldilocks(), 7, 131071, 4326791766630348883, 206761543466863628);
    lemma_step(goldilocks(), 7, 262143, 206761543466863628, 10086585273483141421);
    lemma_step(goldilocks(), 7, 524287, 10086585273483141421, 1855730417186139594);
    lemma_step(goldilocks(), 7, 1048575, 1855730417186139594, 7626447102712710903);
    lemma_step(goldilocks(), 7, 2097151, 7626447102712710903, 7790920094560990216);
    lemma_step(goldilocks(), 7, 4194303, 7790920094560990216, 5901922255895126089);
    lemma_step(goldilocks(), 7, 8388607, 5901922255895126089, 8935258787870022506);
    lemma_step(goldilocks(), 7, 16777215, 8935258787870022506, 13093775858033092690);
    lemma_step(goldilocks(), 7, 33554431, 13093775858033092690, 11243737384857129666);
    lemma_step(goldilocks(), 7, 67108863, 11243737384857129666, 2063617152444052883);
    lemma_step(goldilocks(), 7, 134217727, 2063617152444052883, 13064848991504552222);
    lemma_step(goldilocks(), 7, 268435455, 13064848991504552222, 16593403251012455084);
    lemma_step(goldilocks(), 7, 536870911, 16593403251012455084, 5859133952941131217);
    lemma_step(goldilocks(), 7, 1073741823, 5859133952941131217, 15659105665374529263);
    lemma_step(goldilocks(), 7, 2147483647, 15659105665374529263, 1753635133440165772);
}

/// Seven to half of the Goldilocks modulus is congruent to minus one.
pub proof fn lemma_seven_half()
    ensures
        pow(7, 0x7fff_ffff_8000_0000) % goldilocks() == goldilocks() - 1,
{
    lemma_seven_root();
    lemma_square(goldilocks(), 7, 4294967295, 1753635133440165772, 4614640910117430873);
    lemma_square(goldilocks(), 7, 8589934590, 4614640910117430873, 9123114210336311365);
    lemma_square(goldilocks(), 7, 17179869180, 9123114210336311365, 16116352524544190054);
    lemma_square(goldilocks(), 7, 34359738360, 16116352524544190054, 6414415596519834757);
    lemma_square(goldilocks(), 7, 68719476720, 6414415596519834757, 1213594585890690845);
    lemma_square(goldilocks(), 7, 137438953440, 1213594585890690845, 17096174751763063430);
    lemma_square(goldilocks(), 7, 274877906880, 17096174751763063430, 5456943929260765144);
    lemma_square(goldilocks(), 7, 549755813760, 5456943929260765144, 9713644485405565297);
    lemma_square(goldilocks(), 7, 1099511627520, 9713644485405565297, 16905767614792059275);
    lemma_square(goldilocks(), 7, 2199023255040, 16905767614792059275, 5416168637041100469);
    lemma_square(goldilocks(), 7, 4398046510080, 5416168637041100469, 17654865857378133588);
    lemma_square(goldilocks(), 7, 8796093020160, 17654865857378133588, 3511170319078647661);
    lemma_square(goldilocks(), 7, 17592186040320, 3511170319078647661, 18146160046829613826);
    lemma_square(goldilocks(), 7, 35184372080640, 18146160046829613826, 9306717745644682924);
    lemma_square(goldilocks(), 7, 70368744161280, 9306717745644682924, 12380578893860276750);
    lemma_square(goldilocks(), 7, 140737488322560, 12380578893860276750, 6115771955107415310);
    lemma_square(goldilocks(), 7, 281474976645120, 6115771955107415310, 17776499369601055404);
    lemma_square(goldilocks(), 7, 562949953290240, 17776499369601055404, 16207902636198568418);
    lemma_square(goldilocks(), 7, 1125899906580480, 16207902636198568418, 1532612707718625687);
    lemma_square(goldilocks(), 7, 2251799813160960, 1532612707718625687, 17492915097719143606);
    lemma_square(goldilocks(), 7, 4503599626321920, 17492915097719143606, 455906449640507599);
    lemma_square(goldilocks(), 7, 9007199252643840, 455906449640507599, 11353340290879379826);
    lemma_square(goldilocks(), 7, 18014398505287680, 11353340290879379826, 1803076106186727246);
    lemma_square(goldilocks(), 7, 36028797010575360, 1803076106186727246, 13797081185216407910);
    lemma_square(goldilocks(), 7, 72057594021150720, 13797081185216407910, 17870292113338400769);
    lemma_square(goldilocks(), 7, 144115188042301440, 17870292113338400769, 549755813888);
    lemma_square(goldilocks(), 7, 288230376084602880, 549755813888, 70368744161280);
    lemma_square(goldilocks(), 7, 576460752169205760, 70368744161280, 17293822564807737345);
    lemma_square(goldilocks(), 7, 1152921504338411520, 17293822564807737345, 18446744069397807105);
    lemma_square(goldilocks(), 7, 2305843008676823040, 18446744069397807105, 281474976710656);
    lemma_square(goldilocks(), 7, 4611686017353646080, 281474976710656, 18446744069414584320);
}

/// An injective map cannot lead into a smaller range.
proof fn lemma_pigeonhole(f: spec_fn(int) -> int, n: int, m: int)
    requires
        0 <= n,
        0 <= m,
        forall|i: int| 0 <= i < n ==> 0 <= #[trigger] f(i) < m,
        forall|i: int, j: int| 0 <= i < j < n ==> #[trigger] f(i) != #[trigger] f(j),
    ensures
        n <= m,
{
    let x = set_int_range(0, n);
    let y = x.map(f);
    lemma_int_range(0, n);
    lemma_int_range(0, m);
    assert(vstd::relations::injective_on(f, x)) by {
        assert forall|i: int, j: int|
            x.contains(i) && x.contains(j) && #[trigger] f(i) == #[trigger] f(j) implies i == j by {
            if i < j {
                assert(f(i) != f(j));
            } else if j < i {
                assert(f(j) != f(i));
            }
        }
    }
    lemma_map_size(x, y, f);
    assert(y.subset_of(set_int_range(0, m))) by {
        assert forall|v: int| y.contains(v) implies set_int_range(0, m).contains(v) by {
            let i = choose|i: int| x.contains(i) && v == f(i);
            assert(0 <= f(i) < m);
        }
    }
    lemma_len_subset(y, set_int_range(0, m));
}

/// A power of a power.
proof fn lemma_power_of_power(d: int, b: int, e: nat, k: nat, v: int)
    requires
        d > 0,
        pow(b, e) % d == v % d,
    ensures
        pow(b, e * k) % d == pow(v, k) % d,
{
    lemma_pow_multiplies(b, e, k);
    lemma_pow_mod_noop(pow(b, e), k, d);
    lemma_pow_mod_noop(v, k, d);
}

/// Powers of minus one.
proof fn lemma_minus_one(u: nat)
    ensures
        pow(-1, u) == if u % 2 == 0 {
            1int
        } else {
            -1int
        },
    decreases u,
{
    lemma_pow0(-1);
    if u > 0 {
        lemma_minus_one((u - 1) as nat);
        lemma_pow_adds(-1, 1, (u - 1) as nat);
        lemma_pow1(-1);
    }
}

/// A base whose power `2^31` is minus one has no smaller exponent than `2^32` that gives one.
proof fn lemma_order(d: int, b: int, u: nat, s: nat)
    requires
        d > 2,
        pow(b, 0x8000_0000) % d == (-1int) % d,
        u > 0,
        s <= 31,
        pow2(s) * u < 0x1_0000_0000,
    ensures
        pow(b, pow2(s) * u) % d != 1int % d,
    decreases u,
{
    lemma2_to64();
    if u % 2 == 0 {
        let h = u / 2;
        lemma_pow2_unfold(s + 1);
        assert(pow2(s + 1) * h == pow2(s) * u) by (nonlinear_arith)
            requires
                pow2(s + 1) == 2 * pow2(s),
                u == 2 * h,
        ;
        if s == 31 {
            assert(pow2(31) * u >= 0x1_0000_0000) by (nonlinear_arith)
                requires
                    pow2(31) == 0x8000_0000,
                    u >= 2,
            ;
        }
        lemma_order(d, b, h, s + 1);
    } else if pow(b, pow2(s) * u) % d == 1int % d {
        let k = pow2((31 - s) as nat);
        lemma_pow2_adds(s, (31 - s) as nat);
        assert((pow2(s) * u) * k == 0x8000_0000 * u) by (nonlinear_arith)
            requires
                pow2(s) * k == 0x8000_0000,
        ;
        lemma_power_of_power(d, b, pow2(s) * u, k, 1);
        lemma1_pow(k);
        lemma_power_of_power(d, b, 0x8000_0000, u, -1);
        lemma_minus_one(u);
        assert(1int % d == (-1int) % d);
        lemma_small_mod(1, d as nat);
        lemma_mod_add_multiples_vanish(-1, d);
        lemma_small_mod((d - 1) as nat, d as nat);
    }
}

/// Remainders modulo a divisor of the modulus.
proof fn lemma_mod_divisor(x: int, p: int, d: int)
    requires
        d > 0,
        p > 0,
        p % d == 0,
    ensures
        (x % p) % d == x % d,
{
    let c = p / d;
    lemma_fundamental_div_mod(p, d);
    assert(p == d * c);
    assert(c > 0) by (nonlinear_arith)
        requires
            p == d * c,
            p > 0,
            d > 0,
    ;
    lemma_mod_mod(x, d, c);
}

/// A divisor of the Goldilocks modulus above one is at least `2^32`.
proof fn lemma_divisor_large(d: int)
    requires
        d > 1,
        goldilocks() % d == 0,
    ensures
        d >= 0x1_0000_0000,
{
    let p = goldilocks();
    let b = pow(7, 0xffff_ffff);
    let n = 0x1_0000_0000int;
    assert(d != 2) by {
        assert(p % 2 == 1);
    }
    // The power 2^31 of b is minus one.
    lemma_seven_half();
    lemma_pow_multiplies(7, 0xffff_ffff, 0x8000_0000);
    assert(0xffff_ffffnat * 0x8000_0000nat == 0x7fff_ffff_8000_0000nat);
    let half = pow(b, 0x8000_0000);
    lemma_mod_divisor(half, p, d);
    assert(half % d == (p - 1) % d);
    lemma_mod_divisor(-1, p, d);
    lemma_mod_add_multiples_vanish(-1, p);
    lemma_small_mod((p - 1) as nat, p as nat);
    assert(half % d == (-1int) % d);
    // The power 2^32 of b is one.
    lemma_power_of_power(d, b, 0x8000_0000, 2, -1);
    lemma_minus_one(2);
    assert(pow(b, n as nat) % d == 1int % d);
    let f = |i: int| pow(b, i as nat) % d;
    assert forall|i: int| 0 <= i < n implies 0 <= #[trigger] f(i) < d by {
        lemma_mod_bound(pow(b, i as nat), d);
    }
    assert forall|i: int, j: int| 0 <= i < j < n implies #[trigger] f(i) != #[trigger] f(j) by {
        if f(i) == f(j) {
            let t = (j - i) as nat;
            let m = (n - i) as nat;
            let (bi, bj, bm, bt, bn) = (
                pow(b, i as nat),
                pow(b, j as nat),
                pow(b, m),
                pow(b, t),
                pow(b, n as nat),
            );
            lemma_pow_adds(b, m, i as nat);
            lemma_pow_adds(b, m, j as nat);
            lemma_pow_adds(b, t, n as nat);
            assert(m + j == t + n);
            assert(bm * bi == bn);
            assert(bm * bj == bt * bn);
            lemma_mul_mod_noop_right(bm, bi, d);
            lemma_mul_mod_noop_right(bm, bj, d);
            assert(bn % d == (bt * bn) % d);
            lemma_mul_mod_noop_right(bt, bn, d);
            lemma_mul_mod_noop_right(bt, 1, d);
            assert(bt % d == 1int % d);
            lemma2_to64();
            lemma_order(d, b, t, 0);
        }
    }
    lemma_pigeonhole(f, n, d);
}

/// The Goldilocks modulus is prime.
pub proof fn law_goldilocks_is_prime()
    ensures
        is_prime(goldilocks()),
{
    let p = goldilocks();
    assert forall|d: int| 1 < d < p implies #[trigger] (p % d) != 0 by {
        if p % d == 0 {
            let c = p / d;
            lemma_fundamental_div_mod(p, d);
            assert(p == d * c);
            assert(1 < c) by (nonlinear_arith)
                requires
                    p == d * c,
                    1 < d < p,
            ;
            lemma_mod_multiples_basic(d, c);
            assert(d * c == c * d) by (nonlinear_arith);
            lemma_divisor_large(d);
            lemma_divisor_large(c);
            assert(d * c >= 0x1_0000_0000_0000_0000) by (nonlinear_arith)
                requires
                    d >= 0x1_0000_0000,
                    c >= 0x1_0000_0000,
            ;
        }
    }
}

/// If a prime divides a product and not the first factor, it divides the second one.
pub proof fn lemma_euclid(p: int, a: int, b: int)
    requires
        is_prime(p),
        0 < a < p,
        (a * b) % p == 0,
    ensures
        b % p == 0,
    decreases a,
{
    if a == 1 {
        assert(a * b == b);
    } else {
        let q = p / a;
        let r = p % a;
        lemma_fundamental_div_mod(p, a);
        lemma_mod_bound(p, a);
        assert(r != 0);
        // r * b = p * b - q * (a * b)
        assert(r * b == p * b - q * (a * b)) by (nonlinear_arith)
            requires
                p == a * q + r,
        ;
        lemma_mod_multiples_basic(b, p);
        lemma_mul_mod_noop_right(q, a * b, p);
        assert(q * 0 == 0);
        lemma_sub_mod_noop(p * b, q * (a * b), p);
        assert(p * b == b * p) by (nonlinear_arith);
        assert((r * b) % p == 0);
        lemma_euclid(p, r, b);
    }
}

/// The product of a sequence.
pub open spec fn product(s: Seq<int>) -> int {
    s.fold_left(1, |acc: int, x: int| acc * x)
}

/// The integers from one to `p - 1`.
pub open spec fn units(p: int) -> Seq<int> {
    Seq::new((p - 1) as nat, |i: int| i + 1)
}

/// The multiples of `a`, reduced by `p`.
pub open spec fn multiples(p: int, a: int) -> Seq<int> {
    Seq::new((p - 1) as nat, |i: int| (a * (i + 1)) % p)
}

/// The first multiples of `a` multiply to a power of `a` times the product of the first units.
proof fn lemma_multiples_product(p: int, a: int, n: nat)
    requires
        p > 1,
        n <= p - 1,
    ensures
        product(multiples(p, a).take(n as int)) % p == (pow(a, n) * product(
            units(p).take(n as int),
        )) % p,
    decreases n,
{
    let m = multiples(p, a).take(n as int);
    let u = units(p).take(n as int);
    if n == 0 {
        lemma_pow0(a);
    } else {
        let k = (n - 1) as nat;
        lemma_multiples_product(p, a, k);
        let (mk, uk) = (multiples(p, a).take(k as int), units(p).take(k as int));
        assert(m.drop_last() =~= mk);
        assert(u.drop_last() =~= uk);
        let (pm, pu) = (product(mk), product(uk));
        assert(product(m) == pm * m.last());
        assert(product(u) == pu * u.last());
        let y = u.last();
        assert(m.last() == (a * y) % p);
        let w = pow(a, k);
        lemma_pow_adds(a, 1, k);
        lemma_pow1(a);
        lemma_mul_mod_noop(pm, a * y, p);
        lemma_mod_twice(a * y, p);
        lemma_mul_mod_noop(pm, (a * y) % p, p);
        lemma_mul_mod_noop(w * pu, a * y, p);
        assert((w * pu) * (a * y) == (a * w) * (pu * y)) by (nonlinear_arith);
    }
}

/// No prime divides the product of the first units below it.
proof fn lemma_units_product(p: int, n: nat)
    requires
        is_prime(p),
        n <= p - 1,
    ensures
        product(units(p).take(n as int)) % p != 0,
    decreases n,
{
    let u = units(p).take(n as int);
    lemma_small_mod(1, p as nat);
    if n > 0 {
        let k = (n - 1) as nat;
        lemma_units_product(p, k);
        assert(u.drop_last() =~= units(p).take(k as int));
        let pu = product(units(p).take(k as int));
        assert(product(u) == pu * n);
        if (pu * n) % p == 0 {
            assert(pu * n == n * pu) by (nonlinear_arith);
            lemma_euclid(p, n as int, pu);
        }
    }
}

/// A sequence without repetitions holds every element once.
proof fn lemma_same_multiset(s: Seq<int>, t: Seq<int>)
    requires
        s.no_duplicates(),
        t.no_duplicates(),
        s.to_set() =~= t.to_set(),
    ensures
        s.to_multiset() =~= t.to_multiset(),
{
    s.lemma_multiset_has_no_duplicates();
    t.lemma_multiset_has_no_duplicates();
    s.to_multiset_ensures();
    t.to_multiset_ensures();
    assert forall|x: int| s.to_multiset().count(x) == t.to_multiset().count(x) by {
        assert(s.contains(x) <==> s.to_set().contains(x));
        assert(t.contains(x) <==> t.to_set().contains(x));
        assert(s.contains(x) <==> s.to_multiset().count(x) > 0);
        assert(t.contains(x) <==> t.to_multiset().count(x) > 0);
    }
}

/// The multiples of a unit are the units in another order.
proof fn lemma_multiples_permute(p: int, a: int)
    requires
        is_prime(p),
        0 < a < p,
    ensures
        multiples(p, a).to_multiset() =~= units(p).to_multiset(),
{
    let m = multiples(p, a);
    let u = units(p);
    assert forall|i: int, j: int| 0 <= i < m.len() && 0 <= j < m.len() && i != j implies m[i]
        != m[j] by {
        let (lo, hi) = if i < j {
            (i, j)
        } else {
            (j, i)
        };
        if m[lo] == m[hi] {
            let d = hi - lo;
            assert(a * (hi + 1) - a * (lo + 1) == a * d) by (nonlinear_arith)
                requires
                    d == hi - lo,
            ;
            lemma_sub_mod_noop(a * (hi + 1), a * (lo + 1), p);
            lemma_small_mod(0, p as nat);
            assert((a * d) % p == 0);
            lemma_euclid(p, a, d);
            lemma_small_mod(d as nat, p as nat);
        }
    }
    assert(m.no_duplicates());
    assert(u.no_duplicates());
    assert(m.to_set().subset_of(u.to_set())) by {
        assert forall|x: int| m.to_set().contains(x) implies u.to_set().contains(x) by {
            let i = choose|i: int| 0 <= i < m.len() && m[i] == x;
            lemma_mod_bound(a * (i + 1), p);
            if x == 0 {
                lemma_euclid(p, a, i + 1);
                lemma_small_mod((i + 1) as nat, p as nat);
            }
            assert(u[x - 1] == x);
        }
    }
    m.unique_seq_to_set();
    u.unique_seq_to_set();
    vstd::seq_lib::seq_to_set_is_finite(m);
    vstd::seq_lib::seq_to_set_is_finite(u);
    lemma_subset_equality(m.to_set(), u.to_set());
    lemma_same_multiset(m, u);
}

/// Fermat's little theorem: the power `p - 1` of a unit is one modulo a prime `p`.
pub proof fn law_fermat(p: int, a: int)
    requires
        is_prime(p),
        0 < a < p,
    ensures
        pow(a, (p - 1) as nat) % p == 1,
{
    let n = (p - 1) as nat;
    let m = multiples(p, a);
    let u = units(p);
    let f = |acc: int, x: int| acc * x;
    lemma_multiples_permute(p, a);
    assert(vstd::seq_lib::commutative_foldl(f)) by {
        assert forall|x: int, y: int, v: int| #[trigger] f(f(v, x), y) == f(f(v, y), x) by {
            assert((v * x) * y == (v * y) * x) by (nonlinear_arith);
        }
    }
    vstd::seq_lib::lemma_fold_left_permutation(m, u, f, 1);
    assert(product(m) == product(u));
    lemma_multiples_product(p, a, n);
    lemma_units_product(p, n);
    assert(m.take(n as int) =~= m);
    assert(u.take(n as int) =~= u);
    let w = pow(a, n);
    let pu = product(u);
    // p divides (w - 1) * pu and not pu.
    lemma_sub_mod_noop(w * pu, pu, p);
    assert((w - 1) * pu == w * pu - pu) by (nonlinear_arith);
    lemma_small_mod(0, p as nat);
    assert(((w - 1) * pu) % p == 0);
    let c = pu % p;
    lemma_mod_bound(pu, p);
    lemma_mul_mod_noop_right(w - 1, pu, p);
    assert(((w - 1) * c) % p == 0);
    assert((w - 1) * c == c * (w - 1)) by (nonlinear_arith);
    lemma_euclid(p, c, w - 1);
    lemma_add_mod_noop(w - 1, 1, p);
    lemma_small_mod(1, p as nat);
}

/// A base with two powers that are one, one exponent being prime and the other one a smaller
/// positive number, is one.
proof fn lemma_descent(q: int, b: int, r: int, n: int)
    requires
        q > 1,
        is_prime(r),
        0 < n < r,
        pow(b, r as nat) % q == 1,
        pow(b, n as nat) % q == 1,
    ensures
        b % q == 1,
    decreases n,
{
    if n == 1 {
        lemma_pow1(b);
    } else {
        let m = r % n;
        lemma_mod_bound(r, n);
        lemma_exponent_rest(q, b, n, r);
        lemma_descent(q, b, r, m);
    }
}

/// Where a power of a base is one, exponents count by what they leave when divided by that of the
/// power.
proof fn lemma_exponent_rest(q: int, b: int, n: int, e: int)
    requires
        q > 1,
        n > 0,
        e >= 0,
        pow(b, n as nat) % q == 1,
    ensures
        pow(b, e as nat) % q == pow(b, (e % n) as nat) % q,
{
    let c = e / n;
    let m = e % n;
    lemma_fundamental_div_mod(e, n);
    lemma_mod_bound(e, n);
    lemma_div_pos_is_pos(e, n);
    lemma_mul_nonnegative(n, c);
    lemma_pow_adds(b, (n * c) as nat, m as nat);
    lemma_small_mod(1, q as nat);
    lemma_power_of_power(q, b, n as nat, c as nat, 1);
    lemma1_pow(c as nat);
    let (x, y) = (pow(b, (n * c) as nat), pow(b, m as nat));
    lemma_mul_mod_noop_left(x, y, q);
}

/// A base that is not one modulo a prime `q`, but has a prime power `r` that is, shows that `r`
/// divides `q - 1`.
proof fn lemma_order_divides(q: int, b: int, r: int)
    requires
        is_prime(q),
        is_prime(r),
        pow(b, r as nat) % q == 1,
        b % q != 1,
    ensures
        (q - 1) % r == 0,
{
    let c = b % q;
    lemma_mod_bound(b, q);
    lemma_pow_mod_noop(b, r as nat, q);
    if c == 0 {
        lemma0_pow(r as nat);
        lemma_small_mod(0, q as nat);
    }
    law_fermat(q, c);
    lemma_pow_mod_noop(b, (q - 1) as nat, q);
    let n = (q - 1) % r;
    lemma_mod_bound(q - 1, r);
    if n != 0 {
        lemma_exponent_rest(q, b, r, q - 1);
        lemma_descent(q, b, r, n);
    }
}

/// A number with a divisor has one that is not above its root.
pub(crate) proof fn lemma_small_divisor(n: int, root: int) -> (d: int)
    requires
        n > 1,
        !is_prime(n),
        n < (root + 1) * (root + 1),
        root > 0,
    ensures
        1 < d <= root,
        n == d * (n / d),
        1 < n / d < n,
{
    let a = choose|d: int| 1 < d < n && #[trigger] (n % d) == 0;
    let b = n / a;
    lemma_fundamental_div_mod(n, a);
    assert(n == a * b);
    assert(1 < b < n) by (nonlinear_arith)
        requires
            n == a * b,
            1 < a < n,
    ;
    if a <= root {
        a
    } else {
        assert(b <= root) by (nonlinear_arith)
            requires
                a * b < (root + 1) * (root + 1),
                a >= root + 1,
                root > 0,
        ;
        lemma_div_multiples_vanish(a, b);
        assert(a * b == b * a) by (nonlinear_arith);
        b
    }
}

/// A number above one has a prime divisor.
proof fn lemma_prime_divisor(n: int) -> (q: int)
    requires
        n > 1,
    ensures
        is_prime(q),
        n % q == 0,
        q <= n,
    decreases n,
{
    if is_prime(n) {
        lemma_mod_self_0(n);
        n
    } else {
        let d = choose|d: int| 1 < d < n && #[trigger] (n % d) == 0;
        let q = lemma_prime_divisor(d);
        lemma_mod_divisor(n, d, q);
        lemma_small_mod(0, q as nat);
        q
    }
}

/// Evidence that every prime divisor of `n` leaves the remainder one when divided by `r`: the power
/// `r` of `y` is one modulo `n`, and `y - 1` is invertible.
pub open spec fn has_order(n: int, y: int, r: int, inverse: int) -> bool {
    &&& pow(y, r as nat) % n == 1
    &&& ((y - 1) * inverse) % n == 1
}

/// Evidence for a prime order holds of every prime divisor.
pub(crate) proof fn lemma_order_of_divisor(n: int, y: int, r: int, inverse: int, q: int)
    requires
        n > 1,
        is_prime(r),
        has_order(n, y, r, inverse),
        is_prime(q),
        n % q == 0,
    ensures
        (q - 1) % r == 0,
{
    lemma_small_mod(1, q as nat);
    lemma_mod_divisor(pow(y, r as nat), n, q);
    lemma_mod_divisor((y - 1) * inverse, n, q);
    if y % q == 1 {
        lemma_sub_mod_noop(y, 1, q);
        lemma_small_mod(0, q as nat);
        lemma_mul_mod_noop_left(y - 1, inverse, q);
        assert(0 * inverse == 0);
    }
    lemma_order_divides(q, y, r);
}

/// Where the power `2^31` of a base is minus one modulo `n`, every prime divisor of `n` above two
/// leaves the remainder one when divided by `2^32`.
pub(crate) proof fn lemma_two_order_of_divisor(n: int, z: int, q: int)
    requires
        n > 1,
        pow(z, 0x8000_0000) % n == n - 1,
        is_prime(q),
        q > 2,
        n % q == 0,
    ensures
        (q - 1) % 0x1_0000_0000 == 0,
{
    let half = pow(z, 0x8000_0000);
    lemma_mod_divisor(half, n, q);
    lemma_mod_divisor(-1, n, q);
    lemma_mod_add_multiples_vanish(-1, n);
    lemma_small_mod((n - 1) as nat, n as nat);
    assert(half % q == (-1int) % q);
    lemma_power_of_power(q, z, 0x8000_0000, 2, -1);
    lemma_minus_one(2);
    lemma_small_mod(1, q as nat);
    assert(pow(z, 0x1_0000_0000) % q == 1);
    // the base is a unit
    let c = z % q;
    lemma_mod_bound(z, q);
    lemma_pow_mod_noop(z, 0x1_0000_0000, q);
    if c == 0 {
        lemma0_pow(0x1_0000_0000);
        lemma_small_mod(0, q as nat);
    }
    law_fermat(q, c);
    lemma_pow_mod_noop(z, (q - 1) as nat, q);
    let e = (q - 1) % 0x1_0000_0000;
    lemma_exponent_rest(q, z, 0x1_0000_0000, q - 1);
    if e != 0 {
        lemma2_to64();
        assert(pow2(0) * (e as nat) == e);
        lemma_order(q, z, e as nat, 0);
    }
}

/// A multiple of `m` and of a prime that does not divide `m` is a multiple of their product.
pub(crate) proof fn lemma_multiple_of_both(x: int, m: int, r: int)
    requires
        m > 0,
        is_prime(r),
        m % r != 0,
        x % m == 0,
        x % r == 0,
    ensures
        x % (m * r) == 0,
{
    let c = x / m;
    lemma_fundamental_div_mod(x, m);
    assert(x == m * c);
    lemma_mod_bound(m, r);
    lemma_mul_mod_noop_left(m, c, r);
    lemma_euclid(r, m % r, c);
    let k = c / r;
    lemma_fundamental_div_mod(c, r);
    assert(x == k * (m * r)) by (nonlinear_arith)
        requires
            x == m * c,
            c == r * k,
    ;
    lemma_mul_strictly_positive(m, r);
    lemma_mod_multiples_basic(k, m * r);
}

/// A number that leaves the remainder one when divided by `f` is above `f`.
proof fn lemma_above(q: int, f: int)
    requires
        q > 1,
        f > 0,
        (q - 1) % f == 0,
    ensures
        q > f,
{
    if q - 1 < f {
        lemma_small_mod((q - 1) as nat, f as nat);
    }
}

/// A number whose prime divisors all leave the remainder one when divided by `f` is prime, where
/// `f` is not below its root.
pub(crate) proof fn lemma_pocklington(n: int, f: int)
    requires
        n > 1,
        f > 0,
        f * f >= n,
        forall|q: int| is_prime(q) && #[trigger] (n % q) == 0 ==> (q - 1) % f == 0,
    ensures
        is_prime(n),
{
    let q = lemma_prime_divisor(n);
    let c = n / q;
    lemma_fundamental_div_mod(n, q);
    assert(n == q * c);
    lemma_above(q, f);
    if c > 1 {
        let t = lemma_prime_divisor(c);
        lemma_mod_multiples_basic(q, c);
        assert(q * c == c * q) by (nonlinear_arith);
        lemma_mod_divisor(n, c, t);
        lemma_small_mod(0, t as nat);
        lemma_above(t, f);
        assert(q * c > f * f) by (nonlinear_arith)
            requires
                q > f,
                c > f,
                f > 0,
        ;
    } else {
        assert(c == 1) by (nonlinear_arith)
            requires
                n == q * c,
                n > 1,
                q > 1,
                c <= 1,
        ;
        assert(q * c == q) by (nonlinear_arith)
            requires
                c == 1,
        ;
    }
}

/// The root of unity: seven to the power `2^32 - 1` has order `2^32`, because its power `2^31` is
/// minus one.
pub proof fn law_root_of_unity()
    ensures
        pow(7, 0xffff_ffff) % goldilocks() == 1753635133440165772,
        pow(1753635133440165772, 0x8000_0000) % goldilocks() == goldilocks() - 1,
        pow(1753635133440165772, 0x1_0000_0000) % goldilocks() == 1,
{
    let p = goldilocks();
    let w = 1753635133440165772int;
    lemma_seven_root();
    lemma_seven_half();
    lemma_power_of_power(p, 7, 0xffff_ffff, 0x8000_0000, w);
    assert(0xffff_ffffnat * 0x8000_0000nat == 0x7fff_ffff_8000_0000nat);
    lemma_mod_add_multiples_vanish(-1, p);
    lemma_small_mod((p - 1) as nat, p as nat);
    lemma_power_of_power(p, w, 0x8000_0000, 2, -1);
    lemma_minus_one(2);
    lemma_small_mod(1, p as nat);
}

} // verus!
