//! The scalar fields of the Pallas and Vesta curves.
//!
//! An element is kept as its 32 bytes in little-endian order; the arithmetic is that of
//! `pasta_curves`.
use vstd::prelude::*;

pub mod pallas;
pub mod primality;
pub mod vesta;

verus! {

/// The integer with the given bytes, the lowest one first.
pub open spec fn le_value(bytes: Seq<u8>) -> int
    decreases bytes.len(),
{
    if bytes.len() == 0 {
        0
    } else {
        bytes[0] as int + 256 * le_value(bytes.drop_first())
    }
}

/// The lowest `n` bytes of an integer, the lowest one first.
pub open spec fn le_bytes(v: int, n: nat) -> Seq<u8>
    decreases n,
{
    if n == 0 {
        Seq::empty()
    } else {
        seq![(v % 256) as u8] + le_bytes(v / 256, (n - 1) as nat)
    }
}

/// Bytes are recovered from the integer that they stand for.
pub proof fn lemma_le_bytes(bytes: Seq<u8>)
    ensures
        le_value(bytes) >= 0,
        le_bytes(le_value(bytes), bytes.len()) == bytes,
    decreases bytes.len(),
{
    if bytes.len() > 0 {
        let rest = bytes.drop_first();
        lemma_le_bytes(rest);
        let v = le_value(bytes);
        assert(v % 256 == bytes[0]);
        assert(v / 256 == le_value(rest));
        assert(le_bytes(v, bytes.len()) =~= bytes);
    } else {
        assert(le_bytes(0, 0) =~= bytes);
    }
}

/// An integer is recovered from its bytes if there are enough of them.
pub proof fn lemma_le_value(v: int, n: nat)
    requires
        0 <= v,
        n >= 8 ==> v <= u64::MAX,
        n < 8 ==> v < vstd::arithmetic::power::pow(256, n),
    ensures
        le_value(le_bytes(v, n)) == v,
        le_bytes(v, n).len() == n,
    decreases n,
{
    vstd::arithmetic::power::lemma_pow0(256);
    if n > 0 {
        let rest = le_bytes(v / 256, (n - 1) as nat);
        if n > 8 {
            lemma_le_value(v / 256, (n - 1) as nat);
        } else {
            reveal_with_fuel(vstd::arithmetic::power::pow, 10);
            assert(vstd::arithmetic::power::pow(256, 8) == 0x1_0000_0000_0000_0000);
            vstd::arithmetic::power::lemma_pow1(256);
            assert(vstd::arithmetic::power::pow(256, n) == 256 * vstd::arithmetic::power::pow(
                256,
                (n - 1) as nat,
            ));
            lemma_le_value(v / 256, (n - 1) as nat);
        }
        assert(le_bytes(v, n).drop_first() =~= rest);
    }
}

/// An integer is recovered from its bytes if it is below the power of 256 that they reach.
pub proof fn law_bytes_decode(v: int, n: nat)
    requires
        0 <= v < vstd::arithmetic::power::pow(256, n),
    ensures
        le_bytes(v, n).len() == n,
        le_value(le_bytes(v, n)) == v,
    decreases n,
{
    vstd::arithmetic::power::lemma_pow0(256);
    if n > 0 {
        let rest = le_bytes(v / 256, (n - 1) as nat);
        let top = vstd::arithmetic::power::pow(256, (n - 1) as nat);
        reveal_with_fuel(vstd::arithmetic::power::pow, 2);
        assert(vstd::arithmetic::power::pow(256, n) == 256 * top);
        law_bytes_decode(v / 256, (n - 1) as nat);
        assert(le_bytes(v, n).drop_first() =~= rest);
    }
}

/// The number of integers that 32 bytes hold.
pub proof fn lemma_bytes_32()
    ensures
        vstd::arithmetic::power::pow(256, 32)
            == 0x1_0000_0000_0000_0000_0000_0000_0000_0000_0000_0000_0000_0000_0000_0000_0000_0000int,
{
    reveal_with_fuel(vstd::arithmetic::power::pow, 10);
    assert(vstd::arithmetic::power::pow(256, 8) == 0x1_0000_0000_0000_0000int);
    let e = vstd::arithmetic::power::pow(256, 8);
    vstd::arithmetic::power::lemma_pow_adds(256, 8, 8);
    let f = vstd::arithmetic::power::pow(256, 16);
    assert(f == e * e);
    assert(f == 0x1_0000_0000_0000_0000_0000_0000_0000_0000int) by (nonlinear_arith)
        requires
            f == e * e,
            e == 0x1_0000_0000_0000_0000int,
    ;
    vstd::arithmetic::power::lemma_pow_adds(256, 16, 16);
    let g = vstd::arithmetic::power::pow(256, 32);
    assert(g == f * f);
    assert(g
        == 0x1_0000_0000_0000_0000_0000_0000_0000_0000_0000_0000_0000_0000_0000_0000_0000_0000int)
        by (nonlinear_arith)
        requires
            g == f * f,
            f == 0x1_0000_0000_0000_0000_0000_0000_0000_0000int,
    ;
}

/// Whether `a` stands for a smaller integer than `b`.
pub(crate) fn is_below(a: &[u8; 32], b: &[u8; 32]) -> (r: bool)
    ensures
        r == (le_value(a@) < le_value(b@)),
{
    let mut below = false;
    let mut same = true;
    let mut i: usize = 32;
    assert(a@.skip(32).len() == 0 && b@.skip(32).len() == 0);
    while i > 0
        invariant
            i <= 32,
            below == (le_value(a@.skip(i as int)) < le_value(b@.skip(i as int))),
            same == (le_value(a@.skip(i as int)) == le_value(b@.skip(i as int))),
        decreases i,
    {
        i = i - 1;
        proof {
            assert(a@.skip(i as int).drop_first() =~= a@.skip(i + 1));
            assert(b@.skip(i as int).drop_first() =~= b@.skip(i + 1));
        }
        below = below || (same && a[i] < b[i]);
        same = same && a[i] == b[i];
    }
    assert(a@.skip(0) =~= a@ && b@.skip(0) =~= b@);
    below
}

/// The lowest byte comes first: it is the remainder modulo 256, and the other bytes stand for the
/// quotient.
pub proof fn law_lowest_byte_first(v: int, n: nat, low: u8, rest: Seq<u8>)
    ensures
        n > 0 ==> le_bytes(v, n)[0] == v % 256,
        n > 0 ==> le_bytes(v, n).skip(1) == le_bytes(v / 256, (n - 1) as nat),
        le_value(seq![low] + rest) == low + 256 * le_value(rest),
        le_value(Seq::empty()) == 0,
{
    if n > 0 {
        assert(le_bytes(v, n).skip(1) =~= le_bytes(v / 256, (n - 1) as nat));
    }
    assert((seq![low] + rest).drop_first() =~= rest);
}

} // verus!
