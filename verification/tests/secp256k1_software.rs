//! The layer on secp256k1, with `k256` standing in for the accelerator.

use ceno_crypto_primitives::affine::CenoAffinePoint;
use ceno_crypto_primitives::convert::be_bytes_to_le_words;
use ceno_crypto_primitives::curve::ECDSACurve;
use ceno_crypto_primitives::ecdsa::ECDSAPoint;
use ceno_crypto_primitives::encoding::{le_words_to_be_bytes, CompressedPoint};
use ceno_crypto_primitives::point::WeierstrassPoint;
use ceno_crypto_primitives::projective::CenoProjectivePoint;
use ceno_crypto_primitives::secp256k1::CenoSecp256k1Point;
use k256::elliptic_curve::point::DecompressPoint;
use k256::elliptic_curve::sec1::{FromEncodedPoint, ToEncodedPoint};
use k256::elliptic_curve::subtle::Choice;
use k256::elliptic_curve::PrimeField;
use std::cell::Cell;

/// The field modulus 2^256 - 2^32 - 977, least significant word first.
const MODULUS: [u32; 8] = [
    0xffff_fc2f,
    0xffff_fffe,
    0xffff_ffff,
    0xffff_ffff,
    0xffff_ffff,
    0xffff_ffff,
    0xffff_ffff,
    0xffff_ffff,
];

/// The group order, in big-endian bytes.
const ORDER: [u8; 32] = [
    0xff, 0xff, 0xff, 0xff, 0xff, 0xff, 0xff, 0xff, 0xff, 0xff, 0xff, 0xff, 0xff, 0xff, 0xff, 0xfe,
    0xba, 0xae, 0xdc, 0xe6, 0xaf, 0x48, 0xa0, 0x3b, 0xbf, 0xd2, 0x5e, 0x8c, 0xd0, 0x36, 0x41, 0x41,
];

struct Software {
    calls: Cell<u32>,
}

fn software() -> Software {
    Software { calls: Cell::new(0) }
}

fn to_k256(limbs: &[u32; 16]) -> k256::AffinePoint {
    let (x, y) = WeierstrassPoint::Affine(*limbs).coordinates();
    let encoded = k256::EncodedPoint::from_affine_coordinates(
        &le_words_to_be_bytes(&x).into(),
        &le_words_to_be_bytes(&y).into(),
        false,
    );
    Option::from(k256::AffinePoint::from_encoded_point(&encoded)).expect("a point off the curve")
}

fn from_k256(point: &k256::AffinePoint) -> [u32; 16] {
    let encoded = point.to_encoded_point(false);
    let mut x = [0u8; 32];
    let mut y = [0u8; 32];
    x.copy_from_slice(encoded.x().expect("the identity has no coordinates"));
    y.copy_from_slice(encoded.y().expect("the identity has no coordinates"));
    match WeierstrassPoint::from_coordinates(&be_bytes_to_le_words(&x), &be_bytes_to_le_words(&y)) {
        WeierstrassPoint::Affine(limbs) => limbs,
        WeierstrassPoint::Infinity => unreachable!(),
    }
}

impl ECDSACurve for Software {
    fn accel_add(&self, p: &mut [u32; 16], q: &[u32; 16]) {
        assert_ne!(p[..8], q[..8], "accelerated addition of equal or inverse points");
        self.calls.set(self.calls.get() + 1);
        let sum = k256::ProjectivePoint::from(to_k256(p)) + k256::ProjectivePoint::from(to_k256(q));
        *p = from_k256(&sum.to_affine());
    }

    fn accel_double(&self, p: &mut [u32; 16]) {
        self.calls.set(self.calls.get() + 1);
        let point = k256::ProjectivePoint::from(to_k256(p));
        *p = from_k256(&(point + point).to_affine());
    }

    fn field_neg(&self, y: &[u32; 8]) -> [u32; 8] {
        if y.iter().all(|limb| *limb == 0) {
            return *y;
        }
        let mut r = [0u32; 8];
        let mut borrow = 0u64;
        for i in 0..8 {
            let minuend = MODULUS[i] as u64;
            let subtrahend = y[i] as u64 + borrow;
            if minuend >= subtrahend {
                r[i] = (minuend - subtrahend) as u32;
                borrow = 0;
            } else {
                r[i] = ((1u64 << 32) + minuend - subtrahend) as u32;
                borrow = 1;
            }
        }
        r
    }

    fn lift_x(&self, x: &[u32; 8]) -> Option<[u32; 8]> {
        let bytes = le_words_to_be_bytes(x);
        let point: Option<k256::AffinePoint> =
            k256::AffinePoint::decompress(&bytes.into(), Choice::from(0)).into();
        let limbs = from_k256(&point?);
        let mut y = [0u32; 8];
        y.copy_from_slice(&limbs[8..]);
        Some(y)
    }
}

fn hex32(text: &str) -> [u8; 32] {
    let mut bytes = [0u8; 32];
    for (i, byte) in bytes.iter_mut().enumerate() {
        *byte = u8::from_str_radix(&text[2 * i..2 * i + 2], 16).expect("a hex digit");
    }
    bytes
}

fn point(x: &str, y: &str) -> WeierstrassPoint {
    WeierstrassPoint::from_coordinates(
        &be_bytes_to_le_words(&hex32(x)),
        &be_bytes_to_le_words(&hex32(y)),
    )
}

fn generator() -> WeierstrassPoint {
    *CenoSecp256k1Point::generator().inner()
}

fn two_g() -> WeierstrassPoint {
    point(
        "c6047f9441ed7d6d3045406e95c07cd85c778e4b8cef3ca7abac09b95c709ee5",
        "1ae168fea63dc339a3c58419466ceaeef7f632653266d0e1236431a950cfe52a",
    )
}

fn three_g() -> WeierstrassPoint {
    point(
        "f9308a019258c31049344f85f89d5229b531c845836f99b08601f113bce036f9",
        "388f7b0f632de8140fe337e62a37f3566500a99934c2231b6cb9fd7584b8e672",
    )
}

fn scalar(k: u64) -> [u8; 32] {
    let mut bytes = [0u8; 32];
    bytes[24..].copy_from_slice(&k.to_be_bytes());
    bytes
}

fn reference_multiple(k: &[u8; 32]) -> WeierstrassPoint {
    let k = Option::<k256::Scalar>::from(k256::Scalar::from_repr((*k).into())).expect("a scalar");
    let product = (k256::ProjectivePoint::GENERATOR * k).to_affine();
    WeierstrassPoint::Affine(from_k256(&product))
}

#[test]
fn generator_is_the_standard_one() {
    assert_eq!(
        generator(),
        point(
            "79be667ef9dcbbac55a06295ce870b07029bfcdb2dce28d959f2815b16f81798",
            "483ada7726a3c4655da4fbfc0e1108a8fd17b448a68554199c47d08ffb10d4b8",
        )
    );
    assert_eq!(generator(), WeierstrassPoint::Affine(from_k256(&k256::AffinePoint::GENERATOR)));
}

#[test]
fn generator_doubled_equals_generator_added_to_itself() {
    let curve = software();
    let g = generator();
    assert_eq!(g.double(&curve), two_g());
    assert_eq!(g.complete_add(&curve, &g), two_g());
    assert_eq!(g.complete_add(&curve, &g), g.double(&curve));
}

#[test]
fn generator_added_to_its_double_is_three_times_the_generator() {
    let curve = software();
    assert_eq!(two_g().complete_add(&curve, &generator()), three_g());
    assert_eq!(generator().complete_add(&curve, &two_g()), three_g());
    assert_eq!(generator().scalar_mul(&curve, &scalar(3)), three_g());
}

#[test]
fn generator_times_the_order_is_the_identity() {
    let curve = software();
    assert_eq!(generator().scalar_mul(&curve, &ORDER), WeierstrassPoint::Infinity);
    let mut order_plus_two = ORDER;
    order_plus_two[31] += 2;
    assert_eq!(generator().scalar_mul(&curve, &order_plus_two), two_g());
}

#[test]
fn decompression_of_an_x_with_no_point_gives_nothing() {
    let curve = software();
    for x in [0u64, 5, 7, 9] {
        for y_is_odd in [false, true] {
            let encoded = CompressedPoint::Point { x: scalar(x), y_is_odd };
            assert_eq!(WeierstrassPoint::decompress(&curve, &encoded), None, "x = {}", x);
        }
    }
    let beyond_the_field = CompressedPoint::Point { x: [0xff; 32], y_is_odd: false };
    assert_eq!(WeierstrassPoint::decompress(&curve, &beyond_the_field), None);
}

#[test]
fn compression_of_the_generator() {
    let expected = CompressedPoint::Point {
        x: hex32("79be667ef9dcbbac55a06295ce870b07029bfcdb2dce28d959f2815b16f81798"),
        y_is_odd: false,
    };
    assert_eq!(generator().compress(), expected);
    let curve = software();
    assert_eq!(WeierstrassPoint::decompress(&curve, &expected), Some(generator()));
    let other = CompressedPoint::Point {
        x: hex32("79be667ef9dcbbac55a06295ce870b07029bfcdb2dce28d959f2815b16f81798"),
        y_is_odd: true,
    };
    assert_eq!(WeierstrassPoint::decompress(&curve, &other), Some(generator().negate(&curve)));
}

#[test]
fn encoding_round_trip_on_multiples_of_the_generator() {
    let curve = software();
    let mut p = generator();
    for _ in 0..20 {
        assert_eq!(WeierstrassPoint::decompress(&curve, &p.compress()), Some(p));
        p = p.complete_add(&curve, &generator());
    }
}

#[test]
fn negation_keeps_x_and_cancels_the_point() {
    let curve = software();
    let negated = three_g().negate(&curve);
    assert_eq!(
        negated,
        point(
            "f9308a019258c31049344f85f89d5229b531c845836f99b08601f113bce036f9",
            "c77084f09cd217ebf01cc819d5c80ca99aff5666cb3ddce4934602897b4715bd",
        )
    );
    assert_eq!(three_g().complete_add(&curve, &negated), WeierstrassPoint::Infinity);
    assert_eq!(negated.negate(&curve), three_g());
    assert_eq!(WeierstrassPoint::Infinity.negate(&curve), WeierstrassPoint::Infinity);
}

#[test]
fn scalar_multiplication_agrees_with_the_reference() {
    let curve = software();
    let mut k = hex32("4b688df40bcedbe641ddb16ff0a1842d9c67ea1c3bf63f3e0471baa664531d1a");
    for round in 0..4u8 {
        k[31] ^= round;
        k[0] ^= round << 3;
        assert_eq!(generator().scalar_mul(&curve, &k), reference_multiple(&k), "round {}", round);
    }
}

#[test]
fn scalar_multiplication_by_zero_uses_no_accelerator() {
    let curve = software();
    assert_eq!(generator().scalar_mul(&curve, &[0; 32]), WeierstrassPoint::Infinity);
    assert_eq!(WeierstrassPoint::Infinity.scalar_mul(&curve, &ORDER), WeierstrassPoint::Infinity);
    assert_eq!(curve.calls.get(), 0);
}

#[test]
fn scalar_multiplication_homomorphism_on_the_generator() {
    let curve = software();
    let a = hex32("00000000000000000000000000000000000000000000000000000000deadbeef");
    let b = hex32("fffffffffffffffffffffffffffffffebaaedce6af48a03bbfd25e8cd0364140");
    // b is the order less one, so a + b is a - 1 modulo the order.
    let sum = hex32("00000000000000000000000000000000000000000000000000000000deadbeee");
    let g = generator();
    let separately =
        g.scalar_mul(&curve, &a).complete_add(&curve, &g.scalar_mul(&curve, &b));
    assert_eq!(g.scalar_mul(&curve, &sum), separately);
}

#[test]
fn linear_combination_agrees_with_two_multiplications() {
    let curve = software();
    let a = hex32("4b688df40bcedbe641ddb16ff0a1842d9c67ea1c3bf63f3e0471baa664531d1a");
    let b = hex32("00000000000000000000000000000000ffffffffffffffffffffffffffffffff");
    let p = three_g();
    let q = two_g();
    let at_once = WeierstrassPoint::linear_combination(&curve, &p, &a, &q, &b);
    let separately =
        p.scalar_mul(&curve, &a).complete_add(&curve, &q.scalar_mul(&curve, &b));
    assert_eq!(at_once, separately);
    // 3 * 5 + 2 * 7 = 29.
    let small = WeierstrassPoint::linear_combination(&curve, &p, &scalar(5), &q, &scalar(7));
    assert_eq!(small, reference_multiple(&scalar(29)));
}

#[test]
fn projective_points_carry_the_same_arithmetic() {
    let curve = software();
    let g = CenoProjectivePoint::<CenoSecp256k1Point>::generator();
    assert!(!g.is_identity());
    assert!(CenoProjectivePoint::<CenoSecp256k1Point>::identity().is_identity());
    assert!(CenoProjectivePoint::<CenoSecp256k1Point>::default().is_identity());
    let two = g.double(&curve);
    assert_eq!(*two.to_affine().inner.inner(), two_g());
    let three = two.add(&curve, &g);
    assert_eq!(*three.inner.inner.inner(), three_g());
    assert!(three.sub(&curve, &g) == two);
    assert!(three.sub(&curve, &three).is_identity());
    assert!(three.neg(&curve).add(&curve, &three).is_identity());
    assert!(g.mul(&curve, &scalar(3)) == three);
    assert!(CenoProjectivePoint::random(&curve, &scalar(3)) == three);
    assert!(CenoProjectivePoint::lincomb(&curve, &g, &scalar(1), &two, &scalar(1)) == three);
    assert!(CenoProjectivePoint::sum(&curve, &[g, g, g]) == three);
    assert!(CenoProjectivePoint::<CenoSecp256k1Point>::sum(&curve, &[]).is_identity());
    assert!(three.add_affine(&curve, &g.to_affine()).sub_affine(&curve, &g.to_affine()) == three);
}

#[test]
fn projective_points_change_in_place() {
    let curve = software();
    let g = CenoProjectivePoint::<CenoSecp256k1Point>::generator();
    let mut p = g;
    p.add_assign(&curve, &g);
    assert_eq!(p.inner.to_point(), two_g());
    p.add_assign_affine(&curve, &g.to_affine());
    assert_eq!(p.inner.to_point(), three_g());
    p.sub_assign(&curve, &g);
    assert_eq!(p.inner.to_point(), two_g());
    p.sub_assign_affine(&curve, &g.to_affine());
    assert!(p == g);
    p.mul_assign(&curve, &scalar(3));
    assert_eq!(p.inner.to_point(), three_g());
}

#[test]
fn projective_points_compare_select_and_encode() {
    let curve = software();
    let g = CenoProjectivePoint::<CenoSecp256k1Point>::generator();
    let two = g.double(&curve);
    assert!(g.ct_eq(&g));
    assert!(!g.ct_eq(&two));
    assert!(g != two);
    assert!(CenoProjectivePoint::conditional_select(&g, &two, false) == g);
    assert!(CenoProjectivePoint::conditional_select(&g, &two, true) == two);
    assert!(CenoProjectivePoint::from_bytes(&curve, &two.to_bytes()) == Some(two));
    assert!(CenoProjectivePoint::from_bytes_unchecked(&curve, &two.to_bytes()) == Some(two));
    let nothing = CompressedPoint::Point { x: scalar(5), y_is_odd: false };
    assert!(CenoProjectivePoint::<CenoSecp256k1Point>::from_bytes(&curve, &nothing).is_none());
    assert!(two.clear_cofactor() == two);
    assert!(two.into_subgroup() == Some(two));
    assert!(two.is_torsion_free());
    let affine: CenoAffinePoint<CenoSecp256k1Point> = two.into();
    let back: CenoProjectivePoint<CenoSecp256k1Point> = affine.into();
    assert!(back == two);
    assert!(CenoProjectivePoint::from_affine(affine) == two);
}
