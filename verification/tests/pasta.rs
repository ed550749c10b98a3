//! The scalar fields of the Pallas and Vesta curves.
use spartan2::provider::pasta::pallas::PallasScalar;
use spartan2::provider::pasta::vesta::VestaScalar;
use spartan2::traits::{ScalarField, TranscriptReprTrait};

fn minus_one() -> [u8; 32] {
    let mut bytes = [0u8; 32];
    bytes[4] = 0x21;
    bytes[5] = 0xeb;
    bytes[6] = 0x46;
    bytes[7] = 0x8c;
    bytes[8] = 0xdd;
    bytes[9] = 0xa8;
    bytes[10] = 0x94;
    bytes[11] = 0x09;
    bytes[12] = 0xfc;
    bytes[13] = 0x98;
    bytes[14] = 0x46;
    bytes[15] = 0x22;
    bytes[31] = 0x40;
    bytes
}

#[test]
fn pallas_arithmetic() {
    let (a, b) = (PallasScalar::from(100), PallasScalar::from(200));
    assert_eq!(a + b, PallasScalar::from(300));
    assert_eq!(b - a, PallasScalar::from(100));
    assert_eq!(a * b, PallasScalar::from(20000));
    let top = PallasScalar::zero() - PallasScalar::one();
    assert_eq!(top.to_repr(), minus_one());
    assert_eq!(top + PallasScalar::one(), PallasScalar::zero());
    assert_eq!(top * top, PallasScalar::one());
}

#[test]
fn pallas_encodings() {
    let x = PallasScalar::new(0x0102_0304_0506_0708);
    let mut bytes = vec![8, 7, 6, 5, 4, 3, 2, 1];
    bytes.resize(32, 0);
    assert_eq!(x.to_repr().to_vec(), bytes);
    assert_eq!(x.to_transcript_bytes(), bytes);
    assert_eq!(x.to_bytes(), bytes);
    let big = PallasScalar::new(u64::MAX);
    assert_eq!(big + PallasScalar::one(), PallasScalar::new(1 << 32) * PallasScalar::new(1 << 32));
}

#[test]
fn pallas_halves_and_sixths() {
    let half = <PallasScalar as ScalarField>::half();
    let sixth = <PallasScalar as ScalarField>::sixth();
    assert_eq!(half + half, PallasScalar::one());
    assert_eq!(sixth * PallasScalar::from(6), PallasScalar::one());
    assert!(half.same(&(sixth * PallasScalar::from(3))));
    assert!(!half.same(&sixth));
}

#[test]
fn pallas_digests_are_reduced() {
    // the 64 bytes stand for the modulus
    let mut digest = minus_one().to_vec();
    digest[0] = 1;
    digest.resize(64, 0);
    assert_eq!(PallasScalar::from_digest(&digest), PallasScalar::zero());
    digest[0] = 6;
    assert_eq!(PallasScalar::from_digest(&digest), PallasScalar::from(5));
    // two to the power of 256
    let mut digest = vec![0u8; 64];
    digest[32] = 1;
    let mut expected = PallasScalar::one();
    for _ in 0..8 {
        expected = expected * PallasScalar::new(1 << 32);
    }
    assert_eq!(PallasScalar::from_digest(&digest), expected);
}

fn vesta_minus_one() -> [u8; 32] {
    let mut bytes = [0u8; 32];
    bytes[4..8].copy_from_slice(&[0xed, 0x30, 0x2d, 0x99]);
    bytes[8..16].copy_from_slice(&[0x1b, 0xf9, 0x4c, 0x09, 0xfc, 0x98, 0x46, 0x22]);
    bytes[31] = 0x40;
    bytes
}

#[test]
fn vesta_arithmetic() {
    let (a, b) = (VestaScalar::from(100), VestaScalar::from(200));
    assert_eq!(a + b, VestaScalar::from(300));
    assert_eq!(b - a, VestaScalar::from(100));
    assert_eq!(a * b, VestaScalar::from(20000));
    let top = VestaScalar::zero() - VestaScalar::one();
    assert_eq!(top.to_repr(), vesta_minus_one());
    assert_eq!(top + VestaScalar::one(), VestaScalar::zero());
    assert_eq!(top * top, VestaScalar::one());
}

#[test]
fn vesta_halves_sixths_and_digests() {
    let half = <VestaScalar as ScalarField>::half();
    let sixth = <VestaScalar as ScalarField>::sixth();
    assert_eq!(half + half, VestaScalar::one());
    assert_eq!(sixth * VestaScalar::from(6), VestaScalar::one());
    let mut digest = vesta_minus_one().to_vec();
    digest[0] = 4;
    digest.resize(64, 0);
    assert_eq!(VestaScalar::from_digest(&digest), VestaScalar::from(3));
    let mut bytes = vec![5];
    bytes.resize(32, 0);
    assert_eq!(VestaScalar::from(5).to_transcript_bytes(), bytes);
}

#[test]
fn only_canonical_bytes_are_decoded() {
    // the modulus of the Pallas scalars, and the integer below it
    assert_eq!(
        PallasScalar::from_repr(minus_one()),
        Some(PallasScalar::zero() - PallasScalar::one())
    );
    let mut bytes = minus_one();
    bytes[0] = 1;
    assert_eq!(PallasScalar::from_repr(bytes), None);
    assert_eq!(PallasScalar::from_repr([0xff; 32]), None);
    assert_eq!(PallasScalar::from_repr([0; 32]), Some(PallasScalar::zero()));

    let top = VestaScalar::zero() - VestaScalar::one();
    assert_eq!(VestaScalar::from_repr(top.to_repr()), Some(top));
    let mut bytes = top.to_repr();
    bytes[0] = 1;
    assert_eq!(VestaScalar::from_repr(bytes), None);
    let x = VestaScalar::new(0x0102_0304_0506_0708);
    assert_eq!(VestaScalar::from_repr(x.to_repr()), Some(x));
}
