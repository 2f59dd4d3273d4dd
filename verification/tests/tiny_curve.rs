//! The group laws, checked on every point of a curve small enough for that:
//! y^2 = x^3 + 7 over the field of 13 elements, which has six affine points
//! and a group of order 7.

use ceno_crypto_primitives::curve::ECDSACurve;
use ceno_crypto_primitives::encoding::CompressedPoint;
use ceno_crypto_primitives::point::WeierstrassPoint;
use std::cell::Cell;

const P: u32 = 13;

struct Tiny {
    adds: Cell<u32>,
    doubles: Cell<u32>,
}

fn inverse(a: u32) -> u32 {
    (1..P).find(|z| a * z % P == 1).expect("zero has no inverse")
}

fn is_coordinate(limbs: &[u32]) -> bool {
    limbs[0] < P && limbs[1..].iter().all(|l| *l == 0)
}

fn on_curve(p: &[u32; 16]) -> bool {
    let (x, y) = (p[0], p[8]);
    is_coordinate(&p[..8]) && is_coordinate(&p[8..]) && y * y % P == (x * x * x + 7) % P
}

impl ECDSACurve for Tiny {
    fn accel_add(&self, p: &mut [u32; 16], q: &[u32; 16]) {
        assert!(on_curve(p) && on_curve(q), "accelerated addition off the curve");
        assert_ne!(p[0], q[0], "accelerated addition of equal or inverse points");
        self.adds.set(self.adds.get() + 1);
        let (x1, y1, x2, y2) = (p[0], p[8], q[0], q[8]);
        let slope = (y2 + P - y1) * inverse((x2 + P - x1) % P) % P;
        let x3 = (slope * slope + 2 * P - x1 - x2) % P;
        let y3 = (slope * ((x1 + P - x3) % P) + P - y1) % P;
        p[0] = x3;
        p[8] = y3;
    }

    fn accel_double(&self, p: &mut [u32; 16]) {
        assert!(on_curve(p), "accelerated doubling off the curve");
        self.doubles.set(self.doubles.get() + 1);
        let (x1, y1) = (p[0], p[8]);
        let slope = 3 * x1 * x1 * inverse(2 * y1 % P) % P;
        let x3 = (slope * slope + 2 * P - 2 * x1) % P;
        let y3 = (slope * ((x1 + P - x3) % P) + P - y1) % P;
        p[0] = x3;
        p[8] = y3;
    }

    fn field_neg(&self, y: &[u32; 8]) -> [u32; 8] {
        let mut r = [0u32; 8];
        r[0] = (P - y[0] % P) % P;
        r
    }

    fn lift_x(&self, x: &[u32; 8]) -> Option<[u32; 8]> {
        if !is_coordinate(x) {
            return None;
        }
        let y = (0..P).find(|y| y * y % P == (x[0] * x[0] * x[0] + 7) % P)?;
        let mut r = [0u32; 8];
        r[0] = y;
        Some(r)
    }
}

fn tiny() -> Tiny {
    Tiny { adds: Cell::new(0), doubles: Cell::new(0) }
}

fn affine(x: u32, y: u32) -> WeierstrassPoint {
    let mut limbs = [0u32; 16];
    limbs[0] = x;
    limbs[8] = y;
    WeierstrassPoint::Affine(limbs)
}

/// The multiples 0 * G to 6 * G of G = (7, 5).
fn multiples() -> [WeierstrassPoint; 7] {
    [
        WeierstrassPoint::Infinity,
        affine(7, 5),
        affine(8, 5),
        affine(11, 8),
        affine(11, 5),
        affine(8, 8),
        affine(7, 8),
    ]
}

fn scalar(k: u64) -> [u8; 32] {
    let mut bytes = [0u8; 32];
    bytes[24..].copy_from_slice(&k.to_be_bytes());
    bytes
}

#[test]
fn identity_law() {
    let curve = tiny();
    for p in multiples() {
        assert_eq!(p.complete_add(&curve, &WeierstrassPoint::Infinity), p);
        assert_eq!(WeierstrassPoint::Infinity.complete_add(&curve, &p), p);
    }
    assert_eq!(curve.adds.get() + curve.doubles.get(), 0);
}

#[test]
fn doubling_consistency() {
    let curve = tiny();
    for p in multiples() {
        assert_eq!(p.complete_add(&curve, &p), p.double(&curve));
    }
    assert_eq!(curve.adds.get(), 0);
}

#[test]
fn doubling_follows_the_table() {
    let curve = tiny();
    let table = multiples();
    for k in 0..7 {
        assert_eq!(table[k].double(&curve), table[2 * k % 7]);
    }
    assert_eq!(curve.doubles.get(), 6);
}

#[test]
fn inverse_law() {
    let curve = tiny();
    let table = multiples();
    for k in 0..7 {
        let negated = table[k].negate(&curve);
        assert_eq!(negated, table[(7 - k) % 7]);
        assert_eq!(table[k].complete_add(&curve, &negated), WeierstrassPoint::Infinity);
    }
    assert_eq!(curve.adds.get() + curve.doubles.get(), 0);
}

#[test]
fn addition_follows_the_table() {
    let curve = tiny();
    let table = multiples();
    for i in 0..7 {
        for j in 0..7 {
            assert_eq!(table[i].complete_add(&curve, &table[j]), table[(i + j) % 7]);
        }
    }
    assert_eq!(curve.adds.get(), 24);
    assert_eq!(curve.doubles.get(), 6);
}

#[test]
fn commutativity() {
    let curve = tiny();
    for p in multiples() {
        for q in multiples() {
            assert_eq!(p.complete_add(&curve, &q), q.complete_add(&curve, &p));
        }
    }
}

#[test]
fn associativity() {
    let curve = tiny();
    for p in multiples() {
        for q in multiples() {
            for r in multiples() {
                let left = p.complete_add(&curve, &q).complete_add(&curve, &r);
                let right = p.complete_add(&curve, &q.complete_add(&curve, &r));
                assert_eq!(left, right);
            }
        }
    }
}

#[test]
fn scalar_multiplication_follows_the_table() {
    let curve = tiny();
    let table = multiples();
    for i in 0..7 {
        for k in 0..30u64 {
            let expected = table[(i as u64 * k % 7) as usize];
            assert_eq!(table[i].scalar_mul(&curve, &scalar(k)), expected);
        }
    }
}

#[test]
fn scalar_multiplication_reads_every_byte_of_the_scalar() {
    let curve = tiny();
    let table = multiples();
    // 2^255 + 2^128 + 3; 2^3 = 1 modulo 7, so 2^255 = 1 and 2^128 = 4.
    let mut k = [0u8; 32];
    k[0] = 0x80;
    k[15] = 0x01;
    k[31] = 0x03;
    assert_eq!(table[1].scalar_mul(&curve, &k), table[(1 + 4 + 3) % 7]);
    assert_eq!(table[3].scalar_mul(&curve, &k), table[3 * (1 + 4 + 3) % 7]);
    // 2^256 = 2 modulo 7, so 2^256 - 1 = 1.
    assert_eq!(table[1].scalar_mul(&curve, &[0xff; 32]), table[1]);
    assert_eq!(table[4].scalar_mul(&curve, &[0xff; 32]), table[4]);
}

#[test]
fn scalar_multiplication_by_zero_or_of_the_identity_uses_no_accelerator() {
    let curve = tiny();
    for p in multiples() {
        assert_eq!(p.scalar_mul(&curve, &scalar(0)), WeierstrassPoint::Infinity);
    }
    for k in 0..30u64 {
        assert_eq!(
            WeierstrassPoint::Infinity.scalar_mul(&curve, &scalar(k)),
            WeierstrassPoint::Infinity
        );
    }
    assert_eq!(WeierstrassPoint::Infinity.scalar_mul(&curve, &[0xff; 32]), WeierstrassPoint::Infinity);
    assert_eq!(curve.adds.get() + curve.doubles.get(), 0);
}

#[test]
fn scalar_multiplication_by_the_order_gives_the_identity() {
    let curve = tiny();
    for p in multiples() {
        assert_eq!(p.scalar_mul(&curve, &scalar(7)), WeierstrassPoint::Infinity);
    }
}

#[test]
fn scalar_multiplication_homomorphism() {
    let curve = tiny();
    for p in multiples() {
        for a in 0..9u64 {
            for b in 0..9u64 {
                let sum = p
                    .scalar_mul(&curve, &scalar(a))
                    .complete_add(&curve, &p.scalar_mul(&curve, &scalar(b)));
                assert_eq!(p.scalar_mul(&curve, &scalar(a + b)), sum);
                assert_eq!(p.scalar_mul(&curve, &scalar((a + b) % 7)), sum);
            }
        }
    }
}

#[test]
fn linear_combination_equivalence() {
    let curve = tiny();
    for p in multiples() {
        for q in multiples() {
            for a in 0..8u64 {
                for b in 0..8u64 {
                    let separately = p
                        .scalar_mul(&curve, &scalar(a))
                        .complete_add(&curve, &q.scalar_mul(&curve, &scalar(b)));
                    let at_once = WeierstrassPoint::linear_combination(
                        &curve,
                        &p,
                        &scalar(a),
                        &q,
                        &scalar(b),
                    );
                    assert_eq!(at_once, separately);
                }
            }
        }
    }
}

#[test]
fn linear_combination_follows_the_table() {
    let curve = tiny();
    let table = multiples();
    let r = WeierstrassPoint::linear_combination(&curve, &table[2], &scalar(3), &table[5], &scalar(4));
    assert_eq!(r, table[(2 * 3 + 5 * 4) % 7]);
    let same = WeierstrassPoint::linear_combination(&curve, &table[1], &scalar(3), &table[1], &scalar(3));
    assert_eq!(same, table[6]);
    let cancelling =
        WeierstrassPoint::linear_combination(&curve, &table[1], &scalar(3), &table[6], &scalar(3));
    assert_eq!(cancelling, WeierstrassPoint::Infinity);
}

#[test]
fn encoding_round_trip() {
    let curve = tiny();
    for p in multiples() {
        assert_eq!(WeierstrassPoint::decompress(&curve, &p.compress()), Some(p));
    }
}

#[test]
fn compression_of_a_tiny_point() {
    let mut x = [0u8; 32];
    x[31] = 11;
    assert_eq!(affine(11, 8).compress(), CompressedPoint::Point { x, y_is_odd: false });
    assert_eq!(affine(11, 5).compress(), CompressedPoint::Point { x, y_is_odd: true });
}

#[test]
fn decompression_picks_the_y_of_the_wanted_parity() {
    let curve = tiny();
    let mut x = [0u8; 32];
    x[31] = 8;
    let odd = WeierstrassPoint::decompress(&curve, &CompressedPoint::Point { x, y_is_odd: true });
    assert_eq!(odd, Some(affine(8, 5)));
    let even = WeierstrassPoint::decompress(&curve, &CompressedPoint::Point { x, y_is_odd: false });
    assert_eq!(even, Some(affine(8, 8)));
    let identity = WeierstrassPoint::decompress(&curve, &CompressedPoint::Identity);
    assert_eq!(identity, Some(WeierstrassPoint::Infinity));
}

#[test]
fn decompression_of_an_x_off_the_curve_gives_nothing() {
    let curve = tiny();
    for value in [0u8, 1, 2, 3, 4, 5, 6, 9, 10, 12, 13, 200] {
        let mut x = [0u8; 32];
        x[31] = value;
        for y_is_odd in [false, true] {
            let r = WeierstrassPoint::decompress(&curve, &CompressedPoint::Point { x, y_is_odd });
            assert_eq!(r, None, "x = {}", value);
        }
    }
    let mut wide = [0u8; 32];
    wide[31] = 7;
    wide[0] = 1;
    let r = WeierstrassPoint::decompress(&curve, &CompressedPoint::Point { x: wide, y_is_odd: true });
    assert_eq!(r, None);
}
