//! The scalar field of the Vesta curve.
use crate::provider::pasta::primality;
use crate::provider::pcs::hash_mle_backend::same_bytes;
use crate::traits::{ScalarField, TranscriptReprTrait};
#[allow(unused_imports)]
use vstd::arithmetic::div_mod::*;
use vstd::prelude::*;

verus! {

/// The number of elements.
pub open spec fn vesta_modulus() -> int {
    0x40000000000000000000000000000000224698fc094cf91b992d30ed00000001int
}

/// The sum of two elements.
///
/// Calls the addition of `pasta_curves::Fp`. The contract says that the bytes of the sum stand for
/// the sum of the integers, reduced by the modulus.
#[verifier::external_body]
fn fp_add(a: &[u8; 32], b: &[u8; 32]) -> (r: [u8; 32])
    requires
        super::le_value(a@) < vesta_modulus(),
        super::le_value(b@) < vesta_modulus(),
    ensures
        super::le_value(r@) == (super::le_value(a@) + super::le_value(b@)) % vesta_modulus(),
{
    let x = <pasta_curves::Fp as ff::PrimeField>::from_repr(*a).unwrap();
    let y = <pasta_curves::Fp as ff::PrimeField>::from_repr(*b).unwrap();
    <pasta_curves::Fp as ff::PrimeField>::to_repr(&(x + y))
}

/// The difference of two elements.
///
/// Calls the subtraction of `pasta_curves::Fp`. The contract says that the bytes of the difference
/// stand for the difference of the integers, reduced by the modulus.
#[verifier::external_body]
fn fp_sub(a: &[u8; 32], b: &[u8; 32]) -> (r: [u8; 32])
    requires
        super::le_value(a@) < vesta_modulus(),
        super::le_value(b@) < vesta_modulus(),
    ensures
        super::le_value(r@) == (super::le_value(a@) - super::le_value(b@)) % vesta_modulus(),
{
    let x = <pasta_curves::Fp as ff::PrimeField>::from_repr(*a).unwrap();
    let y = <pasta_curves::Fp as ff::PrimeField>::from_repr(*b).unwrap();
    <pasta_curves::Fp as ff::PrimeField>::to_repr(&(x - y))
}

/// The product of two elements.
///
/// Calls the multiplication of `pasta_curves::Fp`. The contract says that the bytes of the product
/// stand for the product of the integers, reduced by the modulus.
#[verifier::external_body]
fn fp_mul(a: &[u8; 32], b: &[u8; 32]) -> (r: [u8; 32])
    requires
        super::le_value(a@) < vesta_modulus(),
        super::le_value(b@) < vesta_modulus(),
    ensures
        super::le_value(r@) == (super::le_value(a@) * super::le_value(b@)) % vesta_modulus(),
{
    let x = <pasta_curves::Fp as ff::PrimeField>::from_repr(*a).unwrap();
    let y = <pasta_curves::Fp as ff::PrimeField>::from_repr(*b).unwrap();
    <pasta_curves::Fp as ff::PrimeField>::to_repr(&(x * y))
}

/// The element that a 64-byte integer reduces to.
///
/// Calls `ff::FromUniformBytes::from_uniform_bytes` of `pasta_curves::Fp`. The contract says that
/// the bytes of the element stand for the integer, reduced by the modulus.
#[verifier::external_body]
fn fp_from_uniform(digest: &[u8; 64]) -> (r: [u8; 32])
    ensures
        super::le_value(r@) == super::le_value(digest@) % vesta_modulus(),
{
    let x = <pasta_curves::Fp as ff::FromUniformBytes<64>>::from_uniform_bytes(digest);
    <pasta_curves::Fp as ff::PrimeField>::to_repr(&x)
}

/// An element of the scalar field of the Vesta curve.
#[derive(Clone, Copy, Debug, PartialEq, Eq)]
pub struct VestaScalar([u8; 32]);

impl VestaScalar {
    /// The bytes stand for an integer below the modulus.
    #[verifier::type_invariant]
    spec fn is_canonical(self) -> bool {
        0 <= super::le_value(self.0@) < vesta_modulus()
    }

    /// The integer that this element stands for.
    pub closed spec fn value(self) -> int {
        super::le_value(self.0@) % vesta_modulus()
    }

    /// The element with the given canonical bytes.
    fn from_bytes(bytes: [u8; 32]) -> (r: VestaScalar)
        requires
            super::le_value(bytes@) < vesta_modulus(),
        ensures
            r.value() == super::le_value(bytes@),
    {
        proof {
            super::lemma_le_bytes(bytes@);
            lemma_small_mod(super::le_value(bytes@) as nat, vesta_modulus() as nat);
        }
        VestaScalar(bytes)
    }

    /// The canonical bytes of this element.
    pub fn to_repr(&self) -> (r: [u8; 32])
        ensures
            r@ == super::le_bytes(self.value(), 32),
            super::le_value(r@) == self.value(),
            self.value() < vesta_modulus(),
    {
        proof {
            use_type_invariant(self);
            super::lemma_le_bytes(self.0@);
            lemma_small_mod(super::le_value(self.0@) as nat, vesta_modulus() as nat);
        }
        self.0
    }

    /// The element with the given canonical bytes, if they stand for an integer below the modulus.
    pub fn from_repr(bytes: [u8; 32]) -> (r: Option<VestaScalar>)
        ensures
            match r {
                Some(x) => super::le_value(bytes@) < vesta_modulus() && x.value()
                    == super::le_value(bytes@),
                None => super::le_value(bytes@) >= vesta_modulus(),
            },
    {
        let top = Self::zero().field_sub(Self::one()).to_repr();
        if super::is_below(&top, &bytes) {
            None
        } else {
            Some(Self::from_bytes(bytes))
        }
    }

    /// The element that stands for `x`.
    pub fn new(x: u64) -> (r: VestaScalar)
        ensures
            r.value() == x,
    {
        let mut bytes: [u8; 32] = [0u8; 32];
        let mut rest: u64 = x;
        let ghost goal = super::le_bytes(x as int, 32);
        proof {
            super::lemma_le_value(x as int, 32);
            assert(goal.skip(0) =~= goal);
        }
        for i in 0..32usize
            invariant
                goal.len() == 32,
                goal.skip(i as int) == super::le_bytes(rest as int, (32 - i) as nat),
                forall|j: int| 0 <= j < i ==> #[trigger] bytes@[j] == goal[j],
        {
            proof {
                let here = goal.skip(i as int);
                assert(here[0] == goal[i as int]);
                assert(here.drop_first() =~= goal.skip(i + 1));
                assert(here.drop_first() =~= super::le_bytes(rest as int / 256, (31 - i) as nat));
            }
            bytes[i] = (rest % 256) as u8;
            rest = rest / 256;
        }
        assert(bytes@ =~= goal);
        Self::from_bytes(bytes)
    }

    /// The additive identity.
    pub fn zero() -> (r: VestaScalar)
        ensures
            r.value() == 0,
    {
        Self::new(0)
    }

    /// The multiplicative identity.
    pub fn one() -> (r: VestaScalar)
        ensures
            r.value() == 1,
    {
        Self::new(1)
    }

    /// The element that stands for the integer with the given words, the highest one first.
    fn from_words(w3: u64, w2: u64, w1: u64, w0: u64) -> (r: VestaScalar)
        ensures
            r.value() == ((((w3 * 0x1_0000_0000_0000_0000 % vesta_modulus() + w2)
                % vesta_modulus() * 0x1_0000_0000_0000_0000 % vesta_modulus() + w1)
                % vesta_modulus()) * 0x1_0000_0000_0000_0000 % vesta_modulus() + w0)
                % vesta_modulus(),
    {
        let half_word = VestaScalar::new(0x1_0000_0000);
        let word = half_word.field_mul(half_word);
        assert(word.value() == 0x1_0000_0000_0000_0000);
        let a = VestaScalar::new(w3).field_mul(word).field_add(VestaScalar::new(w2));
        let b = a.field_mul(word).field_add(VestaScalar::new(w1));
        b.field_mul(word).field_add(VestaScalar::new(w0))
    }

    /// Half of the multiplicative identity.
    fn half_of_one() -> (r: VestaScalar)
        ensures
            r.value()
                == 14474011154664524427946373126085988481681528240970780357977338382174983815169int,
    {
        Self::from_words(2305843009213693952, 0, 1234914826957257869, 14742138064964943873)
    }

    /// A sixth of the multiplicative identity.
    fn sixth_of_one() -> (r: VestaScalar)
        ensures
            r.value()
                == 24123351924440874046577288543476647469469213734951300596628897303624973025281int,
    {
        Self::from_words(
            3843071682022823253,
            6148914691236517205,
            8207106069498613654,
            18421315417038389249,
        )
    }

    /// The sum of two elements.
    pub(crate) fn field_add(self, rhs: VestaScalar) -> (r: VestaScalar)
        ensures
            r.value() == (self.value() + rhs.value()) % vesta_modulus(),
    {
        Self::from_bytes(fp_add(&self.to_repr(), &rhs.to_repr()))
    }

    /// The difference of two elements.
    pub(crate) fn field_sub(self, rhs: VestaScalar) -> (r: VestaScalar)
        ensures
            r.value() == (self.value() - rhs.value()) % vesta_modulus(),
    {
        Self::from_bytes(fp_sub(&self.to_repr(), &rhs.to_repr()))
    }

    /// The product of two elements.
    pub(crate) fn field_mul(self, rhs: VestaScalar) -> (r: VestaScalar)
        ensures
            r.value() == (self.value() * rhs.value()) % vesta_modulus(),
    {
        Self::from_bytes(fp_mul(&self.to_repr(), &rhs.to_repr()))
    }
}

impl vstd::std_specs::ops::AddSpecImpl for VestaScalar {
    open spec fn obeys_add_spec() -> bool {
        false
    }

    open spec fn add_req(self, rhs: VestaScalar) -> bool {
        true
    }

    open spec fn add_spec(self, rhs: VestaScalar) -> VestaScalar {
        self
    }
}

impl std::ops::Add for VestaScalar {
    type Output = VestaScalar;

    fn add(self, rhs: VestaScalar) -> (r: VestaScalar)
        ensures
            r.value() == (self.value() + rhs.value()) % vesta_modulus(),
    {
        self.field_add(rhs)
    }
}

impl vstd::std_specs::ops::SubSpecImpl for VestaScalar {
    open spec fn obeys_sub_spec() -> bool {
        false
    }

    open spec fn sub_req(self, rhs: VestaScalar) -> bool {
        true
    }

    open spec fn sub_spec(self, rhs: VestaScalar) -> VestaScalar {
        self
    }
}

impl std::ops::Sub for VestaScalar {
    type Output = VestaScalar;

    fn sub(self, rhs: VestaScalar) -> (r: VestaScalar)
        ensures
            r.value() == (self.value() - rhs.value()) % vesta_modulus(),
    {
        self.field_sub(rhs)
    }
}

impl vstd::std_specs::ops::MulSpecImpl for VestaScalar {
    open spec fn obeys_mul_spec() -> bool {
        false
    }

    open spec fn mul_req(self, rhs: VestaScalar) -> bool {
        true
    }

    open spec fn mul_spec(self, rhs: VestaScalar) -> VestaScalar {
        self
    }
}

impl std::ops::Mul for VestaScalar {
    type Output = VestaScalar;

    fn mul(self, rhs: VestaScalar) -> (r: VestaScalar)
        ensures
            r.value() == (self.value() * rhs.value()) % vesta_modulus(),
    {
        self.field_mul(rhs)
    }
}

impl vstd::std_specs::convert::FromSpecImpl<u64> for VestaScalar {
    open spec fn obeys_from_spec() -> bool {
        false
    }

    open spec fn from_spec(x: u64) -> VestaScalar {
        arbitrary()
    }
}

impl From<u64> for VestaScalar {
    fn from(x: u64) -> (r: VestaScalar)
        ensures
            r.value() == x,
    {
        VestaScalar::new(x)
    }
}

impl TranscriptReprTrait for VestaScalar {
    open spec fn transcript_repr(&self) -> Seq<u8> {
        super::le_bytes(self.value(), 32)
    }

    fn to_transcript_bytes(&self) -> Vec<u8> {
        let bytes = self.to_repr();
        let mut out: Vec<u8> = Vec::new();
        out.extend_from_slice(&bytes);
        assert(out@ =~= bytes@);
        out
    }
}

impl ScalarField for VestaScalar {
    open spec fn modulus() -> int {
        vesta_modulus()
    }

    open spec fn val(self) -> int {
        self.value()
    }

    open spec fn repr_of(v: int) -> Seq<u8> {
        super::le_bytes(v, 32)
    }

    open spec fn uniform_of(digest: Seq<u8>) -> int {
        super::le_value(digest) % vesta_modulus()
    }

    open spec fn two_inv() -> int {
        14474011154664524427946373126085988481681528240970780357977338382174983815169int
    }

    open spec fn six_inv() -> int {
        24123351924440874046577288543476647469469213734951300596628897303624973025281int
    }

    proof fn lemma_modulus() {
    }

    proof fn lemma_prime() {
        primality::law_vesta_modulus_is_prime();
    }

    proof fn lemma_val(self) {
    }

    proof fn lemma_uniform(digest: Seq<u8>) {
    }

    proof fn lemma_repr(v: int) {
        reveal_with_fuel(super::le_bytes, 2);
    }

    proof fn law_encoding_is_injective(v: int, w: int) {
        super::lemma_bytes_32();
        super::law_bytes_decode(v, 32);
        super::law_bytes_decode(w, 32);
    }

    fn zero() -> VestaScalar {
        VestaScalar::zero()
    }

    fn one() -> VestaScalar {
        VestaScalar::one()
    }

    fn from_u64(x: u64) -> VestaScalar {
        proof {
            lemma_small_mod(x as nat, vesta_modulus() as nat);
        }
        VestaScalar::new(x)
    }

    fn plus(self, rhs: VestaScalar) -> VestaScalar {
        self.field_add(rhs)
    }

    fn minus(self, rhs: VestaScalar) -> VestaScalar {
        self.field_sub(rhs)
    }

    fn times(self, rhs: VestaScalar) -> VestaScalar {
        self.field_mul(rhs)
    }

    fn half() -> VestaScalar {
        proof {
            lemma_small_mod(
                <VestaScalar as ScalarField>::two_inv() as nat,
                vesta_modulus() as nat,
            );
        }
        VestaScalar::half_of_one()
    }

    fn sixth() -> VestaScalar {
        proof {
            lemma_small_mod(
                <VestaScalar as ScalarField>::six_inv() as nat,
                vesta_modulus() as nat,
            );
        }
        VestaScalar::sixth_of_one()
    }

    fn same(&self, other: &VestaScalar) -> bool {
        let a = self.to_repr();
        let b = other.to_repr();
        same_bytes(&a, &b)
    }

    fn to_bytes(&self) -> Vec<u8> {
        self.to_transcript_bytes()
    }

    fn from_digest(digest: &[u8]) -> VestaScalar {
        let mut bytes: [u8; 64] = [0u8; 64];
        for i in 0..64usize
            invariant
                digest@.len() == 64,
                forall|j: int| 0 <= j < i ==> #[trigger] bytes@[j] == digest@[j],
        {
            bytes[i] = digest[i];
        }
        assert(bytes@ =~= digest@);
        VestaScalar::from_bytes(fp_from_uniform(&bytes))
    }
}

/// Drawing: an element drawn from the 64 bytes of an integer stands for its remainder.
pub proof fn law_drawing_reduces(w: int)
    requires
        0 <= w < vstd::arithmetic::power::pow(256, 64),
    ensures
        <VestaScalar as ScalarField>::uniform_of(super::le_bytes(w, 64)) == w % vesta_modulus(),
{
    super::law_bytes_decode(w, 64);
}

/// What a transcript sees of an element is its encoding.
pub proof fn law_transcript_sees_the_encoding(a: VestaScalar, b: VestaScalar)
    ensures
        a.transcript_repr() == <VestaScalar as ScalarField>::repr_of(a.value()),
        a.transcript_repr() == b.transcript_repr() ==> a.value() == b.value(),
{
    lemma_mod_bound(super::le_value(a.0@), vesta_modulus());
    lemma_mod_bound(super::le_value(b.0@), vesta_modulus());
    VestaScalar::law_encoding_is_injective(a.value(), b.value());
}

} // verus!
