//! The Goldilocks field.
use spartan2::provider::goldi::{
    UnitPoint, CAPACITY, F, GOLDILOCKS_MODULUS, MODULUS, NUM_BITS, S,
};
use spartan2::traits::{ScalarField, TranscriptReprTrait};

#[test]
fn test_basic_arithmetic() {
    let a = F::from(100);
    let b = F::from(200);

    assert_eq!(a + b, F::from(300));
    assert_eq!(b - a, F::from(100));
    assert_eq!(a * b, F::from(20000));

    // Test modular reduction
    let large = F::from(GOLDILOCKS_MODULUS - 1);
    assert_eq!(large + F::one(), F::zero());
}

#[test]
fn test_inversion() {
    let a = F::from(7);
    let inv = a.invert().unwrap();
    assert_eq!(a * inv, F::one());
}

#[test]
fn test_serialization() {
    let a = F::from(12345);
    let repr = a.to_repr();
    let b = F::from_repr(repr).unwrap();
    assert_eq!(a, b);
}

#[test]
fn goldilocks_constants() {
    assert_eq!(MODULUS, format!("{}", GOLDILOCKS_MODULUS));
    assert_eq!(GOLDILOCKS_MODULUS, 18446744069414584321);
    assert_eq!(NUM_BITS, 64);
    assert_eq!(CAPACITY, 63);
    assert_eq!(S, 32);
    assert_eq!(F::multiplicative_generator(), F::from(7));
    assert_eq!(F::two_inv() * F::from(2), F::one());
    assert_eq!(F::default(), F::zero());
}

#[test]
fn words_are_reduced() {
    assert_eq!(F::new(GOLDILOCKS_MODULUS).to_canonical_u64(), 0);
    assert_eq!(F::new(u64::MAX).to_canonical_u64(), 0xFFFF_FFFE);
    assert_eq!(F::from_canonical_u64(42).to_canonical_u64(), 42);
}

#[test]
fn operators_wrap_around() {
    let top = F::from(GOLDILOCKS_MODULUS - 1);
    assert_eq!(F::zero() - F::one(), top);
    assert_eq!(-F::one(), top);
    assert_eq!(-F::zero(), F::zero());
    assert_eq!(top * top, F::one());
    assert_eq!(top + &top, F::from(GOLDILOCKS_MODULUS - 2));
    assert_eq!(F::one() - &top, F::from(2));
    assert_eq!(top * &F::from(2), F::from(GOLDILOCKS_MODULUS - 2));
    let mut x = F::from(5);
    x += F::from(6);
    x -= F::from(1);
    x *= F::from(3);
    assert_eq!(x, F::from(30));
    x += &F::from(1);
    x -= &F::from(11);
    x *= &F::from(2);
    assert_eq!(x, F::from(40));
}

#[test]
fn powers_squares_and_doubles() {
    assert_eq!(F::from(3).pow_vartime(0), F::one());
    assert_eq!(F::from(3).pow_vartime(5), F::from(243));
    assert_eq!(F::from(9).square(), F::from(81));
    assert_eq!(F::from(9).double(), F::from(18));
    assert_eq!(F::from(7).pow_vartime(GOLDILOCKS_MODULUS - 1), F::one());
    assert_eq!(
        F::from(7).pow_vartime((GOLDILOCKS_MODULUS - 1) / 2),
        F::from(GOLDILOCKS_MODULUS - 1)
    );
}

#[test]
fn every_unit_has_an_inverse() {
    assert!(F::zero().invert().is_none());
    for x in [1u64, 2, 3, 0xFFFF_FFFF, 0x1_0000_0000, GOLDILOCKS_MODULUS - 1] {
        let a = F::from(x);
        assert_eq!(a * a.invert().unwrap(), F::one());
    }
}

#[test]
fn roots_are_not_computed() {
    assert!(F::from(4).sqrt().is_none());
    let (square, root) = F::sqrt_ratio(&F::from(4), &F::from(1));
    assert!(!square);
    assert_eq!(root, F::zero());
}

#[test]
fn sums_and_products() {
    let items = [F::from(2), F::from(3), F::from(4)];
    assert_eq!(F::sum(&items), F::from(9));
    assert_eq!(F::product(&items), F::from(24));
    assert_eq!(F::sum(&[]), F::zero());
    assert_eq!(F::product(&[]), F::one());
}

#[test]
fn constant_time_selection_and_comparison() {
    let (a, b) = (F::from(11), F::from(22));
    assert_eq!(F::conditional_select(&a, &b, false), a);
    assert_eq!(F::conditional_select(&a, &b, true), b);
    assert!(a.ct_eq(&F::from(11)));
    assert!(!a.ct_eq(&b));
}

#[test]
fn encodings_must_be_canonical() {
    let p = GOLDILOCKS_MODULUS.to_le_bytes();
    assert!(F::from_repr(p).is_none());
    assert!(F::from_repr([0xFF; 8]).is_none());
    assert_eq!(
        F::from_repr((GOLDILOCKS_MODULUS - 1).to_le_bytes()).unwrap(),
        F::from(GOLDILOCKS_MODULUS - 1)
    );
    assert_eq!(F::from(0x0102_0304).to_repr(), [4, 3, 2, 1, 0, 0, 0, 0]);
    assert_eq!(
        F::from(0x0102_0304).to_transcript_bytes(),
        vec![4, 3, 2, 1, 0, 0, 0, 0]
    );
}

#[test]
fn bits_and_parity() {
    assert!(F::from(5).is_odd());
    assert!(!F::from(6).is_odd());
    let bits = F::from(5).to_le_bits();
    assert_eq!(bits.len(), 64);
    assert_eq!(&bits[..4], &[true, false, true, false]);
    assert!(bits[3..].iter().all(|b| !b));
    let modulus = F::char_le_bits();
    assert_eq!(modulus.len(), 64);
    for i in 0..64 {
        assert_eq!(modulus[i], (GOLDILOCKS_MODULUS >> i) & 1 == 1);
    }
}

#[test]
fn random_words_above_the_modulus_are_rejected() {
    assert!(F::random(GOLDILOCKS_MODULUS).is_none());
    assert!(F::random(u64::MAX).is_none());
    assert_eq!(F::random(17).unwrap(), F::from(17));
    assert_eq!(
        F::random(GOLDILOCKS_MODULUS - 1).unwrap(),
        F::from(GOLDILOCKS_MODULUS - 1)
    );
}

#[test]
fn uniform_elements_come_from_the_first_word() {
    let mut digest = vec![0xFFu8; 64];
    assert_eq!(F::from_uniform(&digest), F::from(0xFFFF_FFFE));
    digest[..8].copy_from_slice(&9u64.to_le_bytes());
    assert_eq!(F::from_uniform(&digest), F::from(9));
    assert_eq!(<F as ScalarField>::from_digest(&digest), F::from(9));
}

#[test]
fn halves_and_sixths() {
    let half = <F as ScalarField>::half();
    let sixth = <F as ScalarField>::sixth();
    assert_eq!(half + half, F::one());
    assert_eq!(sixth * F::from(6), F::one());
}

#[test]
fn unit_point_is_a_dummy() {
    let (a, b, order, base) = UnitPoint::group_params();
    assert_eq!(a, F::zero());
    assert_eq!(b, F::zero());
    assert_eq!(order, GOLDILOCKS_MODULUS);
    assert_eq!(base, GOLDILOCKS_MODULUS);
    assert_eq!(UnitPoint::default().to_transcript_bytes(), vec![0u8; 32]);
}

#[test]
fn root_of_unity_has_order_two_to_the_32() {
    let w = F::root_of_unity();
    assert_eq!(w, F::from(7).pow_vartime(0xFFFF_FFFF));
    assert_eq!(w.pow_vartime(1 << 31), -F::one());
    assert_eq!(w.pow_vartime(1 << 32), F::one());
    assert_eq!(F::root_of_unity_inv().to_canonical_u64(), 8595233332735842049);
    assert_eq!(F::delta().to_canonical_u64(), 1753635133440165772);
}
