//! The Goldilocks field and a group with a single element.
use crate::primes;
use crate::traits::{ScalarField, TranscriptReprTrait};
#[allow(unused_imports)]
use vstd::arithmetic::div_mod::*;
#[allow(unused_imports)]
use vstd::arithmetic::mul::*;
#[allow(unused_imports)]
use vstd::arithmetic::power::*;
use vstd::prelude::*;

verus! {

/// Goldilocks prime: 2^64 - 2^32 + 1
pub const GOLDILOCKS_MODULUS: u64 = 0xFFFFFFFF00000001;

/// `GOLDILOCKS_MODULUS` in decimal.
pub const MODULUS: &'static str = "18446744069414584321";

/// Number of bits that hold every element.
pub const NUM_BITS: u32 = 64;

/// Number of bits that can be set freely in an element.
pub const CAPACITY: u32 = 63;

/// Exponent of the largest power of two that divides `GOLDILOCKS_MODULUS - 1`.
pub const S: u32 = 32;

/// An element of the Goldilocks field.
///
/// The word inside is always below the modulus.
#[derive(Clone, Copy, Debug, PartialEq, Eq, Structural)]
pub struct F(u64);

impl F {
    /// Every element holds its canonical word.
    #[verifier::type_invariant]
    spec fn is_canonical(self) -> bool {
        self.0 < GOLDILOCKS_MODULUS
    }

    /// The integer in `0..GOLDILOCKS_MODULUS` that this element stands for.
    pub closed spec fn value(self) -> int {
        self.0 as int % (GOLDILOCKS_MODULUS as int)
    }

    /// The element that stands for the remainder of `v`.
    pub closed spec fn of_int(v: int) -> F {
        F((v % (GOLDILOCKS_MODULUS as int)) as u64)
    }

    /// `of_int` stands for the remainder.
    pub broadcast proof fn lemma_of_int(v: int)
        ensures
            #[trigger] F::of_int(v).value() == v % (GOLDILOCKS_MODULUS as int),
    {
        lemma_mod_twice(v, GOLDILOCKS_MODULUS as int);
        lemma_mod_bound(v, GOLDILOCKS_MODULUS as int);
    }

    /// The word of an element is the integer that it stands for.
    proof fn lemma_word(self)
        requires
            self.0 < GOLDILOCKS_MODULUS,
        ensures
            self.value() == self.0,
            F::of_int(self.0 as int) == self,
    {
        lemma_small_mod(self.0 as nat, GOLDILOCKS_MODULUS as nat);
    }

    /// Create a new field element from a u64, reducing modulo the Goldilocks prime
    pub fn new(val: u64) -> (r: F)
        ensures
            r == F::of_int(val as int),
            r.value() == val % GOLDILOCKS_MODULUS,
    {
        broadcast use F::lemma_of_int;

        F(val % GOLDILOCKS_MODULUS)
    }

    /// Get the canonical u64 representation
    pub fn to_canonical_u64(self) -> (r: u64)
        ensures
            r == self.value(),
            r < GOLDILOCKS_MODULUS,
    {
        proof {
            use_type_invariant(&self);
            self.lemma_word();
        }
        self.0
    }

    /// Convert from canonical u64 (assumes input is already reduced)
    pub fn from_canonical_u64(val: u64) -> (r: F)
        requires
            val < GOLDILOCKS_MODULUS,
        ensures
            r == F::of_int(val as int),
            r.value() == val,
    {
        let r = F(val);
        proof {
            r.lemma_word();
        }
        r
    }

    /// The additive identity.
    pub fn zero() -> (r: F)
        ensures
            r == F::of_int(0),
            r.value() == 0,
    {
        F::new(0)
    }

    /// The multiplicative identity.
    pub fn one() -> (r: F)
        ensures
            r == F::of_int(1),
            r.value() == 1,
    {
        F::new(1)
    }
}

impl F {
    /// The sum of two elements.
    pub(crate) fn field_add(self, rhs: F) -> (r: F)
        ensures
            r == F::of_int(self.value() + rhs.value()),
    {
        proof {
            use_type_invariant(&self);
            use_type_invariant(&rhs);
            self.lemma_word();
            rhs.lemma_word();
        }
        let sum: u128 = (self.0 as u128) + (rhs.0 as u128);
        if sum >= GOLDILOCKS_MODULUS as u128 {
            proof {
                lemma_mod_sub_multiples_vanish(sum as int, GOLDILOCKS_MODULUS as int);
                lemma_small_mod((sum - GOLDILOCKS_MODULUS) as nat, GOLDILOCKS_MODULUS as nat);
            }
            F((sum - GOLDILOCKS_MODULUS as u128) as u64)
        } else {
            proof {
                lemma_small_mod(sum as nat, GOLDILOCKS_MODULUS as nat);
            }
            F(sum as u64)
        }
    }

    /// The difference of two elements.
    pub(crate) fn field_sub(self, rhs: F) -> (r: F)
        ensures
            r == F::of_int(self.value() - rhs.value()),
    {
        proof {
            use_type_invariant(&self);
            use_type_invariant(&rhs);
            self.lemma_word();
            rhs.lemma_word();
        }
        if self.0 >= rhs.0 {
            proof {
                lemma_small_mod((self.0 - rhs.0) as nat, GOLDILOCKS_MODULUS as nat);
            }
            F(self.0 - rhs.0)
        } else {
            proof {
                let d = self.0 - rhs.0;
                lemma_mod_add_multiples_vanish(d, GOLDILOCKS_MODULUS as int);
                lemma_small_mod((d + GOLDILOCKS_MODULUS) as nat, GOLDILOCKS_MODULUS as nat);
            }
            F(self.0.wrapping_add(GOLDILOCKS_MODULUS).wrapping_sub(rhs.0))
        }
    }

    /// The product of two elements.
    pub(crate) fn field_mul(self, rhs: F) -> (r: F)
        ensures
            r == F::of_int(self.value() * rhs.value()),
    {
        proof {
            use_type_invariant(&self);
            use_type_invariant(&rhs);
            self.lemma_word();
            rhs.lemma_word();
            lemma_mul_upper_bound(self.0 as int, u64::MAX as int, rhs.0 as int, u64::MAX as int);
        }
        let prod: u128 = (self.0 as u128) * (rhs.0 as u128);
        F((prod % GOLDILOCKS_MODULUS as u128) as u64)
    }
}

impl vstd::std_specs::ops::AddSpecImpl for F {
    open spec fn obeys_add_spec() -> bool {
        true
    }

    open spec fn add_req(self, rhs: F) -> bool {
        true
    }

    open spec fn add_spec(self, rhs: F) -> F {
        F::of_int(self.value() + rhs.value())
    }
}

impl std::ops::Add for F {
    type Output = F;

    fn add(self, rhs: F) -> F {
        self.field_add(rhs)
    }
}

impl vstd::std_specs::ops::SubSpecImpl for F {
    open spec fn obeys_sub_spec() -> bool {
        true
    }

    open spec fn sub_req(self, rhs: F) -> bool {
        true
    }

    open spec fn sub_spec(self, rhs: F) -> F {
        F::of_int(self.value() - rhs.value())
    }
}

impl std::ops::Sub for F {
    type Output = F;

    fn sub(self, rhs: F) -> F {
        self.field_sub(rhs)
    }
}

impl vstd::std_specs::ops::MulSpecImpl for F {
    open spec fn obeys_mul_spec() -> bool {
        true
    }

    open spec fn mul_req(self, rhs: F) -> bool {
        true
    }

    open spec fn mul_spec(self, rhs: F) -> F {
        F::of_int(self.value() * rhs.value())
    }
}

impl std::ops::Mul for F {
    type Output = F;

    fn mul(self, rhs: F) -> F {
        self.field_mul(rhs)
    }
}

impl vstd::std_specs::ops::NegSpecImpl for F {
    open spec fn obeys_neg_spec() -> bool {
        true
    }

    open spec fn neg_req(self) -> bool {
        true
    }

    open spec fn neg_spec(self) -> F {
        F::of_int(-self.value())
    }
}

impl std::ops::Neg for F {
    type Output = F;

    fn neg(self) -> F {
        proof {
            use_type_invariant(&self);
            self.lemma_word();
        }
        if self.0 == 0 {
            F::zero()
        } else {
            proof {
                lemma_mod_add_multiples_vanish(-(self.0 as int), GOLDILOCKS_MODULUS as int);
                lemma_small_mod((GOLDILOCKS_MODULUS - self.0) as nat, GOLDILOCKS_MODULUS as nat);
            }
            F(GOLDILOCKS_MODULUS - self.0)
        }
    }
}

impl vstd::std_specs::ops::AddSpecImpl<&F> for F {
    open spec fn obeys_add_spec() -> bool {
        true
    }

    open spec fn add_req(self, rhs: &F) -> bool {
        true
    }

    open spec fn add_spec(self, rhs: &F) -> F {
        F::of_int(self.value() + rhs.value())
    }
}

impl std::ops::Add<&F> for F {
    type Output = F;

    fn add(self, rhs: &F) -> F {
        self + *rhs
    }
}

impl vstd::std_specs::ops::SubSpecImpl<&F> for F {
    open spec fn obeys_sub_spec() -> bool {
        true
    }

    open spec fn sub_req(self, rhs: &F) -> bool {
        true
    }

    open spec fn sub_spec(self, rhs: &F) -> F {
        F::of_int(self.value() - rhs.value())
    }
}

impl std::ops::Sub<&F> for F {
    type Output = F;

    fn sub(self, rhs: &F) -> F {
        self - *rhs
    }
}

impl vstd::std_specs::ops::MulSpecImpl<&F> for F {
    open spec fn obeys_mul_spec() -> bool {
        true
    }

    open spec fn mul_req(self, rhs: &F) -> bool {
        true
    }

    open spec fn mul_spec(self, rhs: &F) -> F {
        F::of_int(self.value() * rhs.value())
    }
}

impl std::ops::Mul<&F> for F {
    type Output = F;

    fn mul(self, rhs: &F) -> F {
        self * *rhs
    }
}

impl std::ops::AddAssign for F {
    fn add_assign(&mut self, rhs: F)
        ensures
            *final(self) == F::of_int(old(self).value() + rhs.value()),
    {
        *self = *self + rhs;
    }
}

impl std::ops::SubAssign for F {
    fn sub_assign(&mut self, rhs: F)
        ensures
            *final(self) == F::of_int(old(self).value() - rhs.value()),
    {
        *self = *self - rhs;
    }
}

impl std::ops::MulAssign for F {
    fn mul_assign(&mut self, rhs: F)
        ensures
            *final(self) == F::of_int(old(self).value() * rhs.value()),
    {
        *self = *self * rhs;
    }
}

impl std::ops::AddAssign<&F> for F {
    fn add_assign(&mut self, rhs: &F)
        ensures
            *final(self) == F::of_int(old(self).value() + rhs.value()),
    {
        *self = *self + *rhs;
    }
}

impl std::ops::SubAssign<&F> for F {
    fn sub_assign(&mut self, rhs: &F)
        ensures
            *final(self) == F::of_int(old(self).value() - rhs.value()),
    {
        *self = *self - *rhs;
    }
}

impl std::ops::MulAssign<&F> for F {
    fn mul_assign(&mut self, rhs: &F)
        ensures
            *final(self) == F::of_int(old(self).value() * rhs.value()),
    {
        *self = *self * *rhs;
    }
}

impl Default for F {
    fn default() -> (r: F)
        ensures
            r == F::of_int(0),
            r.value() == 0,
    {
        F::zero()
    }
}

impl vstd::std_specs::convert::FromSpecImpl<u64> for F {
    open spec fn obeys_from_spec() -> bool {
        true
    }

    open spec fn from_spec(val: u64) -> F {
        F::of_int(val as int)
    }
}

impl From<u64> for F {
    fn from(val: u64) -> F {
        F::new(val)
    }
}

/// The sum of the integers that the first `n` elements stand for.
pub open spec fn sum_of(s: Seq<F>, n: nat) -> int
    decreases n,
{
    if n == 0 {
        0
    } else {
        sum_of(s, (n - 1) as nat) + s[n - 1].value()
    }
}

/// The product of the integers that the first `n` elements stand for.
pub open spec fn product_of(s: Seq<F>, n: nat) -> int
    decreases n,
{
    if n == 0 {
        1
    } else {
        product_of(s, (n - 1) as nat) * s[n - 1].value()
    }
}

/// Constant-time selection between two words.
///
/// Calls `subtle::ConditionallySelectable::conditional_select` for `u64`, which returns its
/// first operand when the choice is unset and its second operand when it is set.
#[verifier::external_body]
fn select_word(a: u64, b: u64, choice: bool) -> (r: u64)
    ensures
        r == (if choice {
            b
        } else {
            a
        }),
{
    <u64 as subtle::ConditionallySelectable>::conditional_select(
        &a,
        &b,
        subtle::Choice::from(choice as u8),
    )
}

/// Constant-time comparison of two words.
///
/// Calls `subtle::ConstantTimeEq::ct_eq` for `u64`, which sets its choice exactly when both
/// operands are equal.
#[verifier::external_body]
fn same_word(a: u64, b: u64) -> (r: bool)
    ensures
        r == (a == b),
{
    bool::from(subtle::ConstantTimeEq::ct_eq(&a, &b))
}

impl F {
    /// One attempt at drawing a uniform element from a random word.
    ///
    /// A word below the modulus is the element itself; any other word is rejected, and another
    /// one has to be drawn.
    pub fn random(word: u64) -> (r: Option<F>)
        ensures
            r == (if word < GOLDILOCKS_MODULUS {
                Some(F::of_int(word as int))
            } else {
                None
            }),
            r matches Some(x) ==> x.value() == word,
    {
        if word < GOLDILOCKS_MODULUS {
            Some(F::from_canonical_u64(word))
        } else {
            None
        }
    }

    /// The square of this element.
    pub fn square(&self) -> (r: F)
        ensures
            r == F::of_int(self.value() * self.value()),
    {
        *self * *self
    }

    /// The double of this element.
    pub fn double(&self) -> (r: F)
        ensures
            r == F::of_int(self.value() + self.value()),
    {
        *self + *self
    }

    /// This element raised to the power `exp`; the running time depends on `exp`.
    pub fn pow_vartime(&self, exp: u64) -> (r: F)
        ensures
            r == F::of_int(pow(self.value(), exp as nat)),
    {
        let p: Ghost<int> = Ghost(GOLDILOCKS_MODULUS as int);
        let mut base = *self;
        let mut acc = F::one();
        let mut e: u64 = exp;
        proof {
            use_type_invariant(self);
            self.lemma_word();
            lemma_pow0(self.value());
            F::lemma_of_int(1);
            assert(1 * pow(base.value(), e as nat) == pow(base.value(), e as nat));
        }
        while e > 0
            invariant
                p@ == GOLDILOCKS_MODULUS as int,
                (acc.value() * pow(base.value(), e as nat)) % p@ == pow(self.value(), exp as nat)
                    % p@,
            decreases e,
        {
            let ghost b = base.value();
            let ghost a = acc.value();
            let ghost half = (e / 2) as nat;
            proof {
                broadcast use F::lemma_of_int;

                lemma_pow_adds(b, half, half);
                lemma_pow_distributes(b, b, half);
                assert(pow(b * b, half) == pow(b, half + half));
            }
            if e % 2 == 1 {
                acc = acc * base;
                proof {
                    F::lemma_of_int(a * b);
                    assert(pow(b, e as nat) == b * pow(b, (half + half) as nat)) by {
                        reveal(pow);
                        assert(e as nat == half + half + 1);
                    }
                    let x = pow(b * b, half);
                    assert(a * (b * x) == (a * b) * x) by (nonlinear_arith);
                    lemma_mul_mod_noop_left(a * b, x, p@);
                    assert((acc.value() * x) % p@ == (a * pow(b, e as nat)) % p@);
                }
            } else {
                proof {
                    assert(e as nat == half + half);
                }
            }
            e = e / 2;
            base = base * base;
            proof {
                F::lemma_of_int(b * b);
                lemma_pow_mod_noop(b * b, half, p@);
                let x = pow(b * b, half);
                let y = pow((b * b) % p@, half);
                lemma_mul_mod_noop_right(acc.value(), x, p@);
                lemma_mul_mod_noop_right(acc.value(), y, p@);
            }
        }
        proof {
            lemma_pow0(base.value());
            let v = acc.value();
            assert(v * pow(base.value(), 0) == v);
            use_type_invariant(&acc);
            acc.lemma_word();
            lemma_small_mod(v as nat, p@ as nat);
        }
        acc
    }

    /// The inverse of this element: its power with exponent `GOLDILOCKS_MODULUS - 2`, unless it is
    /// zero.
    pub fn invert(&self) -> (r: Option<F>)
        ensures
            r is None <==> self.value() == 0,
            r matches Some(inv) ==> {
                &&& inv == F::of_int(pow(self.value(), (GOLDILOCKS_MODULUS - 2) as nat))
                &&& (self.value() * inv.value()) % (GOLDILOCKS_MODULUS as int) == 1
            },
    {
        if self.to_canonical_u64() == 0 {
            None
        } else {
            let inv = self.pow_vartime(GOLDILOCKS_MODULUS - 2);
            proof {
                law_power_inverts(self.value());
                F::lemma_of_int(pow(self.value(), (GOLDILOCKS_MODULUS - 2) as nat));
                lemma_mul_mod_noop_right(
                    self.value(),
                    pow(self.value(), (GOLDILOCKS_MODULUS - 2) as nat),
                    GOLDILOCKS_MODULUS as int,
                );
            }
            Some(inv)
        }
    }

    /// Always `None`: square roots are not computed.
    pub fn sqrt(&self) -> (r: Option<F>)
        ensures
            r is None,
    {
        None
    }

    /// Always the unset flag with zero: square roots of ratios are not computed.
    pub fn sqrt_ratio(_num: &F, _div: &F) -> (r: (bool, F))
        ensures
            r == (false, F::of_int(0)),
    {
        (false, F::zero())
    }

    /// The sum of all elements.
    pub fn sum(items: &[F]) -> (r: F)
        ensures
            r == F::of_int(sum_of(items@, items@.len())),
    {
        let mut acc = F::zero();
        for i in 0..items.len()
            invariant
                acc == F::of_int(sum_of(items@, i as nat)),
        {
            proof {
                F::lemma_of_int(sum_of(items@, i as nat));
                lemma_add_mod_noop(
                    sum_of(items@, i as nat),
                    items@[i as int].value(),
                    GOLDILOCKS_MODULUS as int,
                );
                lemma_add_mod_noop(
                    acc.value(),
                    items@[i as int].value(),
                    GOLDILOCKS_MODULUS as int,
                );
                lemma_mod_twice(sum_of(items@, i as nat), GOLDILOCKS_MODULUS as int);
            }
            acc = acc + items[i];
        }
        acc
    }

    /// The product of all elements.
    pub fn product(items: &[F]) -> (r: F)
        ensures
            r == F::of_int(product_of(items@, items@.len())),
    {
        let mut acc = F::one();
        for i in 0..items.len()
            invariant
                acc == F::of_int(product_of(items@, i as nat)),
        {
            proof {
                F::lemma_of_int(product_of(items@, i as nat));
                lemma_mul_mod_noop_left(
                    product_of(items@, i as nat),
                    items@[i as int].value(),
                    GOLDILOCKS_MODULUS as int,
                );
            }
            acc = acc * items[i];
        }
        acc
    }

    /// `b` when the choice is set and `a` otherwise, in constant time.
    pub fn conditional_select(a: &F, b: &F, choice: bool) -> (r: F)
        ensures
            r == (if choice {
                *b
            } else {
                *a
            }),
    {
        proof {
            use_type_invariant(a);
            use_type_invariant(b);
        }
        F(select_word(a.0, b.0, choice))
    }

    /// Whether both elements are equal, in constant time.
    pub fn ct_eq(&self, other: &F) -> (r: bool)
        ensures
            r == (*self == *other),
            r == (self.value() == other.value()),
    {
        proof {
            use_type_invariant(self);
            use_type_invariant(other);
            self.lemma_word();
            other.lemma_word();
        }
        same_word(self.0, other.0)
    }

    /// The element that the eight bytes stand for in little-endian order, if it is canonical.
    pub fn from_repr(repr: [u8; 8]) -> (r: Option<F>)
        ensures
            ({
                let word = vstd::bytes::spec_u64_from_le_bytes(repr@);
                r == (if word < GOLDILOCKS_MODULUS {
                    Some(F::of_int(word as int))
                } else {
                    None
                })
            }),
    {
        let val: u64 = vstd::bytes::u64_from_le_bytes(&repr);
        if val < GOLDILOCKS_MODULUS {
            Some(F::from_canonical_u64(val))
        } else {
            None
        }
    }

    /// The canonical word in little-endian order.
    pub fn to_repr(&self) -> (r: [u8; 8])
        ensures
            r@ == vstd::bytes::spec_u64_to_le_bytes(self.value() as u64),
    {
        let word: u64 = self.to_canonical_u64();
        let bytes = vstd::bytes::u64_to_le_bytes(word);
        let r: [u8; 8] = [
            bytes[0],
            bytes[1],
            bytes[2],
            bytes[3],
            bytes[4],
            bytes[5],
            bytes[6],
            bytes[7],
        ];
        assert(r@ =~= bytes@);
        r
    }

    /// Whether the canonical word is odd.
    pub fn is_odd(&self) -> (r: bool)
        ensures
            r == (self.value() % 2 == 1),
    {
        let word: u64 = self.to_canonical_u64();
        assert((word & 1) == word % 2) by (bit_vector);
        (word & 1) == 1
    }
}

/// The bits of a word, lowest first.
pub open spec fn le_bits(word: u64) -> Seq<bool> {
    Seq::new(64, |i: int| (word >> (i as u64)) & 1 == 1)
}

/// The bits of a word, lowest first.
fn word_bits(word: u64) -> (bits: Vec<bool>)
    ensures
        bits@ == le_bits(word),
{
    let mut bits: Vec<bool> = Vec::new();
    for i in 0..64u64
        invariant
            bits@.len() == i,
            forall|j: int| 0 <= j < i ==> bits@[j] == le_bits(word)[j],
    {
        bits.push((word >> i) & 1 == 1);
    }
    assert(bits@ =~= le_bits(word));
    bits
}

impl F {
    /// The bits of the canonical word, lowest first.
    pub fn to_le_bits(&self) -> (bits: Vec<bool>)
        ensures
            bits@ == le_bits(self.value() as u64),
    {
        word_bits(self.to_canonical_u64())
    }

    /// The bits of the modulus, lowest first.
    pub fn char_le_bits() -> (bits: Vec<bool>)
        ensures
            bits@ == le_bits(GOLDILOCKS_MODULUS),
    {
        word_bits(GOLDILOCKS_MODULUS)
    }

    /// The element that the first eight bytes of a digest reduce to, in little-endian order.
    pub fn from_uniform(digest: &[u8]) -> (r: F)
        requires
            digest@.len() >= 8,
        ensures
            r == F::of_int(
                vstd::bytes::spec_u64_from_le_bytes(digest@.subrange(0, 8)) as int,
            ),
    {
        let val: u64 = vstd::bytes::u64_from_le_bytes(&digest[0..8]);
        F::new(val)
    }

    /// Half of one: (`GOLDILOCKS_MODULUS` + 1) / 2.
    pub fn two_inv() -> (r: F)
        ensures
            r.value() == 9223372034707292161,
            (2 * r.value()) % (GOLDILOCKS_MODULUS as int) == 1,
    {
        F::from_canonical_u64(9223372034707292161)
    }

    /// The generator of the multiplicative group.
    pub fn multiplicative_generator() -> (r: F)
        ensures
            r.value() == 7,
    {
        F::from_canonical_u64(7)
    }

    /// The root of unity of order 2^32.
    pub fn root_of_unity() -> (r: F)
        ensures
            r.value() == 1753635133440165772,
    {
        F::from_canonical_u64(1753635133440165772)
    }

    /// The companion constant of the root of unity.
    pub fn root_of_unity_inv() -> (r: F)
        ensures
            r.value() == 8595233332735842049,
    {
        F::from_canonical_u64(8595233332735842049)
    }

    /// The constant that accompanies the generator.
    pub fn delta() -> (r: F)
        ensures
            r.value() == 1753635133440165772,
    {
        F::from_canonical_u64(1753635133440165772)
    }
}

impl TranscriptReprTrait for F {
    open spec fn transcript_repr(&self) -> Seq<u8> {
        vstd::bytes::spec_u64_to_le_bytes(self.value() as u64)
    }

    fn to_transcript_bytes(&self) -> Vec<u8> {
        vstd::bytes::u64_to_le_bytes(self.to_canonical_u64())
    }
}

impl ScalarField for F {
    open spec fn modulus() -> int {
        GOLDILOCKS_MODULUS as int
    }

    open spec fn val(self) -> int {
        self.value()
    }

    open spec fn repr_of(v: int) -> Seq<u8> {
        vstd::bytes::spec_u64_to_le_bytes(v as u64)
    }

    open spec fn uniform_of(digest: Seq<u8>) -> int {
        vstd::bytes::spec_u64_from_le_bytes(digest.subrange(0, 8)) as int % (
        GOLDILOCKS_MODULUS as int)
    }

    open spec fn two_inv() -> int {
        9223372034707292161
    }

    open spec fn six_inv() -> int {
        15372286724512153601
    }

    proof fn lemma_modulus() {
    }

    proof fn lemma_prime() {
        primes::law_goldilocks_is_prime();
    }

    proof fn lemma_val(self) {
    }

    proof fn lemma_uniform(digest: Seq<u8>) {
    }

    proof fn lemma_repr(v: int) {
        vstd::bytes::lemma_auto_spec_u64_to_from_le_bytes();
    }

    proof fn law_encoding_is_injective(v: int, w: int) {
        vstd::bytes::lemma_auto_spec_u64_to_from_le_bytes();
        law_encoding_decodes(v);
        law_encoding_decodes(w);
    }

    fn zero() -> F {
        F::zero()
    }

    fn one() -> F {
        F::one()
    }

    fn from_u64(x: u64) -> F {
        F::new(x)
    }

    fn plus(self, rhs: F) -> F {
        proof {
            F::lemma_of_int(self.value() + rhs.value());
        }
        self.field_add(rhs)
    }

    fn minus(self, rhs: F) -> F {
        proof {
            F::lemma_of_int(self.value() - rhs.value());
        }
        self.field_sub(rhs)
    }

    fn times(self, rhs: F) -> F {
        proof {
            F::lemma_of_int(self.value() * rhs.value());
        }
        self.field_mul(rhs)
    }

    fn half() -> F {
        F::two_inv()
    }

    fn sixth() -> F {
        F::from_canonical_u64(15372286724512153601)
    }

    fn same(&self, other: &F) -> bool {
        self.ct_eq(other)
    }

    fn to_bytes(&self) -> Vec<u8> {
        vstd::bytes::u64_to_le_bytes(self.to_canonical_u64())
    }

    fn from_digest(digest: &[u8]) -> F {
        proof {
            F::lemma_of_int(
                vstd::bytes::spec_u64_from_le_bytes(digest@.subrange(0, 8)) as int,
            );
        }
        F::from_uniform(digest)
    }
}

/// Inversion: the power with exponent `GOLDILOCKS_MODULUS - 2` is the inverse of every element but
/// zero.
pub proof fn law_power_inverts(a: int)
    requires
        0 < a < GOLDILOCKS_MODULUS,
    ensures
        (a * pow(a, (GOLDILOCKS_MODULUS - 2) as nat)) % (GOLDILOCKS_MODULUS as int) == 1,
{
    primes::law_goldilocks_is_prime();
    primes::law_fermat(GOLDILOCKS_MODULUS as int, a);
    lemma_pow1(a);
    lemma_pow_adds(a, 1, (GOLDILOCKS_MODULUS - 2) as nat);
}

/// A dummy point type that represents the identity element (no actual group operations)
#[derive(Clone, Copy, Debug, PartialEq, Eq, Structural)]
pub struct UnitPoint;

impl Default for UnitPoint {
    fn default() -> (r: UnitPoint)
        ensures
            r == UnitPoint,
    {
        UnitPoint
    }
}

impl UnitPoint {
    /// Both curve coefficients, the group order and the size of the base field.
    ///
    /// These are dummy parameters: the group has a single element and no arithmetic.
    pub fn group_params() -> (r: (F, F, u64, u64))
        ensures
            r == (F::of_int(0), F::of_int(0), GOLDILOCKS_MODULUS, GOLDILOCKS_MODULUS),
    {
        (F::zero(), F::zero(), GOLDILOCKS_MODULUS, GOLDILOCKS_MODULUS)
    }
}

impl TranscriptReprTrait for UnitPoint {
    open spec fn transcript_repr(&self) -> Seq<u8> {
        Seq::new(32, |i: int| 0u8)
    }

    fn to_transcript_bytes(&self) -> Vec<u8> {
        let bytes: Vec<u8> = vec![0u8; 32];
        assert(bytes@ =~= self.transcript_repr());
        bytes
    }
}

/// Encodings: the eight bytes of an element decode to the integer that it stands for.
pub proof fn law_encoding_decodes(a: int)
    requires
        0 <= a < GOLDILOCKS_MODULUS,
    ensures
        vstd::bytes::spec_u64_from_le_bytes(F::repr_of(a)) == a,
{
    vstd::bytes::lemma_auto_spec_u64_to_from_le_bytes();
}

/// Drawing: the first eight bytes of a digest are taken as an integer and reduced, so that every
/// element can be drawn and no other byte matters.
pub proof fn law_drawing_reduces(word: u64, rest: Seq<u8>)
    ensures
        F::uniform_of(vstd::bytes::spec_u64_to_le_bytes(word) + rest) == (word as int) % (
        0xffff_ffff_0000_0001int),
{
    vstd::bytes::lemma_auto_spec_u64_to_from_le_bytes();
    let bytes = vstd::bytes::spec_u64_to_le_bytes(word);
    assert((bytes + rest).subrange(0, 8) =~= bytes);
}

/// The integers below the modulus are a field under addition and multiplication modulo it: both
/// are associative and commutative, one distributes over the other, there are neutral elements,
/// and every element but zero has an inverse.
pub proof fn law_field(a: int, b: int, c: int)
    requires
        0 <= a < GOLDILOCKS_MODULUS,
        0 <= b < GOLDILOCKS_MODULUS,
        0 <= c < GOLDILOCKS_MODULUS,
    ensures
        ({
            let p = GOLDILOCKS_MODULUS as int;
            &&& (a + b) % p == (b + a) % p
            &&& ((a + b) % p + c) % p == (a + (b + c) % p) % p
            &&& (a + 0) % p == a
            &&& (a + (-a) % p) % p == 0
            &&& (a * b) % p == (b * a) % p
            &&& (((a * b) % p) * c) % p == (a * ((b * c) % p)) % p
            &&& (a * 1) % p == a
            &&& (a * ((b + c) % p)) % p == ((a * b) % p + (a * c) % p) % p
            &&& a != 0 ==> (a * pow(a, (p - 2) as nat)) % p == 1
        }),
{
    let p = GOLDILOCKS_MODULUS as int;
    lemma_add_mod_noop(a + b, c, p);
    lemma_add_mod_noop(a, b + c, p);
    lemma_small_mod(a as nat, p as nat);
    lemma_small_mod(c as nat, p as nat);
    lemma_add_mod_noop(a, -a, p);
    lemma_small_mod(0, p as nat);
    lemma_mul_is_commutative(a, b);
    lemma_mul_mod_noop_left(a * b, c, p);
    lemma_mul_mod_noop_right(a, b * c, p);
    lemma_mul_is_associative(a, b, c);
    lemma_mul_mod_noop_right(a, b + c, p);
    lemma_mul_is_distributive_add(a, b, c);
    lemma_add_mod_noop(a * b, a * c, p);
    if a != 0 {
        law_power_inverts(a);
    }
}

/// The bits of a word: bit `i` tells whether the word, divided by two to the `i`, is odd.
pub proof fn law_bits(word: u64, i: int)
    requires
        0 <= i < 64,
    ensures
        le_bits(word).len() == 64,
        le_bits(word)[i] == ((word as int / vstd::arithmetic::power2::pow2(i as nat) as int) % 2
            == 1),
{
    let k: u64 = i as u64;
    vstd::bits::lemma_u64_shr_is_div(word, k);
    let shifted: u64 = word >> k;
    assert(shifted & 1 == shifted % 2) by (bit_vector);
}

/// Sums and products of elements go on one by one, from zero and from one, and of two lists one
/// behind the other they are the sum of the sums and the product of the products.
pub proof fn law_sums_and_products(a: Seq<F>, b: Seq<F>)
    ensures
        sum_of(a + b, (a + b).len()) == sum_of(a, a.len()) + sum_of(b, b.len()),
        product_of(a + b, (a + b).len()) == product_of(a, a.len()) * product_of(b, b.len()),
        a.len() == 0 ==> sum_of(a, 0) == 0 && product_of(a, 0) == 1,
        a.len() == 1 ==> sum_of(a, 1) == a[0].value() && product_of(a, 1) == a[0].value(),
    decreases b.len(),
{
    reveal_with_fuel(sum_of, 2);
    reveal_with_fuel(product_of, 2);
    if a.len() == 1 {
        assert(1 * a[0].value() == a[0].value());
    }
    lemma_prefix(a, b, a.len());
    if b.len() == 0 {
        assert(a + b =~= a);
        assert(product_of(a, a.len()) * 1 == product_of(a, a.len()));
    } else {
        let less = b.drop_last();
        law_sums_and_products(a, less);
        lemma_prefix(a + less, seq![b.last()], (a + less).len());
        lemma_prefix(less, seq![b.last()], less.len());
        assert(a + b =~= (a + less) + seq![b.last()]);
        assert(b =~= less + seq![b.last()]);
        let (x, y, z) = (
            product_of(a, a.len()),
            product_of(less, less.len()),
            b.last().value(),
        );
        assert((x * y) * z == x * (y * z)) by (nonlinear_arith);
    }
}

/// The first elements alone decide on the first sums and products.
proof fn lemma_prefix(a: Seq<F>, b: Seq<F>, n: nat)
    requires
        n <= a.len(),
    ensures
        sum_of(a + b, n) == sum_of(a, n),
        product_of(a + b, n) == product_of(a, n),
    decreases n,
{
    if n > 0 {
        lemma_prefix(a, b, (n - 1) as nat);
    }
}

/// Operators: they stand for the sum, the difference, the product and the negation of the integers,
/// modulo the Goldilocks prime, and so does a word that is converted.
pub proof fn law_operators(a: F, b: F, word: u64)
    ensures
        ({
            let p = 0xffff_ffff_0000_0001int;
            let (x, y) = (a.value(), b.value());
            &&& vstd::std_specs::ops::AddSpec::add_spec(a, b).value() == (x + y) % p
            &&& vstd::std_specs::ops::SubSpec::sub_spec(a, b).value() == (x - y) % p
            &&& vstd::std_specs::ops::MulSpec::mul_spec(a, b).value() == (x * y) % p
            &&& vstd::std_specs::ops::AddSpec::add_spec(a, &b).value() == (x + y) % p
            &&& vstd::std_specs::ops::SubSpec::sub_spec(a, &b).value() == (x - y) % p
            &&& vstd::std_specs::ops::MulSpec::mul_spec(a, &b).value() == (x * y) % p
            &&& vstd::std_specs::ops::NegSpec::neg_spec(a).value() == (-x) % p
            &&& <F as vstd::std_specs::convert::FromSpec<u64>>::from_spec(word).value()
                == word as int % p
            &&& 0 <= x < p
        }),
{
    broadcast use F::lemma_of_int;

    lemma_mod_bound(a.0 as int, GOLDILOCKS_MODULUS as int);
}

/// What a transcript sees of an element is its encoding.
pub proof fn law_transcript_sees_the_encoding(a: F, b: F)
    ensures
        a.transcript_repr() == <F as ScalarField>::repr_of(a.value()),
        a.transcript_repr() == b.transcript_repr() ==> a.value() == b.value(),
{
    lemma_mod_bound(a.0 as int, GOLDILOCKS_MODULUS as int);
    lemma_mod_bound(b.0 as int, GOLDILOCKS_MODULUS as int);
    F::law_encoding_is_injective(a.value(), b.value());
}

/// A transcript sees 32 zeros of the point.
pub proof fn law_point_bytes(u: UnitPoint, i: int)
    requires
        0 <= i < 32,
    ensures
        u.transcript_repr().len() == 32,
        u.transcript_repr()[i] == 0,
{
}

} // verus!
