use ceno_crypto_primitives::affine::CenoAffinePoint;
use ceno_crypto_primitives::bn254::Bn254Point;
use ceno_crypto_primitives::curve::ECDSACurve;
use ceno_crypto_primitives::ecdsa::ECDSAPoint;
use ceno_crypto_primitives::point::WeierstrassPoint;
use ceno_crypto_primitives::secp256k1::CenoSecp256k1Point;

/// An accelerator that only records what it is asked: addition adds the
/// words, doubling shifts them.
struct Recorder;

impl ECDSACurve for Recorder {
    fn accel_add(&self, p: &mut [u32; 16], q: &[u32; 16]) {
        for i in 0..16 {
            p[i] = p[i].wrapping_add(q[i]);
        }
    }

    fn accel_double(&self, p: &mut [u32; 16]) {
        for limb in p.iter_mut() {
            *limb <<= 1;
        }
    }

    fn field_neg(&self, y: &[u32; 8]) -> [u32; 8] {
        let mut r = *y;
        for limb in r.iter_mut() {
            *limb = !*limb;
        }
        r
    }

    fn lift_x(&self, _x: &[u32; 8]) -> Option<[u32; 8]> {
        None
    }
}

fn counting() -> [u32; 16] {
    [1, 2, 3, 4, 5, 6, 7, 8, 9, 10, 11, 12, 13, 14, 15, 16]
}

#[test]
fn secp256k1_generator_words() {
    let g = CenoSecp256k1Point::generator();
    assert_eq!(
        g.0,
        WeierstrassPoint::Affine([
            385357720, 1509065051, 768485593, 43777243, 3464956679, 1436574357, 4191992748,
            2042521214, 4212184248, 2621952143, 2793755673, 4246189128, 235997352, 1571093500,
            648266853, 1211816567,
        ])
    );
    assert!(!g.is_identity());
    assert!(!g.is_infinity());
}

#[test]
fn bn254_generator_is_one_two() {
    let g = Bn254Point::generator();
    assert_eq!(g.0, WeierstrassPoint::Affine([1, 0, 0, 0, 0, 0, 0, 0, 2, 0, 0, 0, 0, 0, 0, 0]));
    assert!(!g.is_identity());
    assert!(!g.is_infinity());
}

#[test]
fn curve_points_are_built_and_read() {
    let p = CenoSecp256k1Point::new(counting());
    assert_eq!(*p.inner(), WeierstrassPoint::Affine(counting()));
    assert!(CenoSecp256k1Point::identity().is_identity());
    assert!(CenoSecp256k1Point::infinity().is_infinity());
    assert_eq!(*CenoSecp256k1Point::identity().inner(), WeierstrassPoint::Infinity);
    let q = Bn254Point::new(counting());
    assert_eq!(*q.inner(), WeierstrassPoint::Affine(counting()));
    assert!(Bn254Point::identity().is_identity());
    assert!(Bn254Point::infinity().is_infinity());
    assert_eq!(*Bn254Point::identity().inner(), WeierstrassPoint::Infinity);
}

#[test]
fn curve_points_are_changed_through_inner_mut() {
    let mut p = CenoSecp256k1Point::new(counting());
    *p.inner_mut() = WeierstrassPoint::Infinity;
    assert!(p.is_identity());
    let mut q = Bn254Point::identity();
    *q.inner_mut() = WeierstrassPoint::Affine(counting());
    assert_eq!(q.0, WeierstrassPoint::Affine(counting()));
}

#[test]
fn curve_points_from_little_endian_bytes() {
    let mut x = [0u8; 32];
    let mut y = [0u8; 32];
    x[0] = 1;
    x[5] = 2;
    y[0] = 3;
    y[31] = 4;
    let p = <CenoSecp256k1Point as ECDSAPoint>::from(&x, &y);
    assert_eq!(
        p.0,
        WeierstrassPoint::Affine([1, 0x200, 0, 0, 0, 0, 0, 0, 3, 0, 0, 0, 0, 0, 0, 0x0400_0000])
    );
    let q = <Bn254Point as ECDSAPoint>::from(&x, &y);
    assert_eq!(q.0, p.0);
    assert_eq!(CenoSecp256k1Point::from_point(&p.0).0, p.0);
    assert!(Bn254Point::from_point(&WeierstrassPoint::Infinity).is_identity());
}

#[test]
fn accelerated_addition_is_handed_both_points() {
    let mut p = CenoSecp256k1Point::new(counting());
    let q = CenoSecp256k1Point::new([100; 16]);
    p.add_assign(&Recorder, &q);
    let mut expected = counting();
    for limb in expected.iter_mut() {
        *limb += 100;
    }
    assert_eq!(p.0, WeierstrassPoint::Affine(expected));
    let mut r = Bn254Point::new(counting());
    r.add_assign(&Recorder, &Bn254Point::new([100; 16]));
    assert_eq!(r.0, WeierstrassPoint::Affine(expected));
}

#[test]
fn doubling_leaves_the_identity_alone() {
    let mut p = CenoSecp256k1Point::identity();
    p.double(&Recorder);
    assert!(p.is_identity());
    let mut q = Bn254Point::identity();
    q.double(&Recorder);
    assert!(q.is_identity());
    let mut r = Bn254Point::new(counting());
    r.double(&Recorder);
    let mut expected = counting();
    for limb in expected.iter_mut() {
        *limb *= 2;
    }
    assert_eq!(r.0, WeierstrassPoint::Affine(expected));
    let mut s = CenoSecp256k1Point::new(counting());
    s.double(&Recorder);
    assert_eq!(s.0, WeierstrassPoint::Affine(expected));
}

#[test]
fn complete_addition_is_dispatched_by_case() {
    let a = CenoSecp256k1Point::new(counting());
    let identity = CenoSecp256k1Point::identity();
    let mut p = a;
    p.complete_add_assign(&Recorder, &identity);
    assert_eq!(p.0, a.0);
    let mut p = identity;
    p.complete_add_assign(&Recorder, &a);
    assert_eq!(p.0, a.0);
    let mut p = identity;
    p.complete_add_assign(&Recorder, &identity);
    assert!(p.is_identity());
    // equal points are doubled
    let mut p = a;
    p.complete_add_assign(&Recorder, &a);
    let mut doubled = counting();
    for limb in doubled.iter_mut() {
        *limb *= 2;
    }
    assert_eq!(p.0, WeierstrassPoint::Affine(doubled));
    // the same X with another Y cancels
    let mut other_y = counting();
    other_y[12] = 77;
    let mut p = Bn254Point::new(counting());
    p.complete_add_assign(&Recorder, &Bn254Point::new(other_y));
    assert!(p.is_identity());
    // anything else is added
    let mut other_x = counting();
    other_x[3] = 77;
    let mut p = Bn254Point::new(counting());
    p.complete_add_assign(&Recorder, &Bn254Point::new(other_x));
    let mut sum = doubled;
    sum[3] = 4 + 77;
    assert_eq!(p.0, WeierstrassPoint::Affine(sum));
}

#[test]
fn negation_hands_y_to_the_field_layer() {
    let p = WeierstrassPoint::Affine(counting());
    let mut expected = counting();
    for limb in expected[8..].iter_mut() {
        *limb = !*limb;
    }
    assert_eq!(p.negate(&Recorder), WeierstrassPoint::Affine(expected));
}

#[test]
fn affine_points_wrap_a_curve_point() {
    let g = CenoAffinePoint::<Bn254Point>::generator();
    assert_eq!(g.to_point(), WeierstrassPoint::Affine([1, 0, 0, 0, 0, 0, 0, 0, 2, 0, 0, 0, 0, 0, 0, 0]));
    assert!(!g.is_identity());
    assert!(CenoAffinePoint::<Bn254Point>::identity().is_identity());
    let p = CenoAffinePoint::<Bn254Point>::from_point(&WeierstrassPoint::Affine(counting()));
    assert_eq!(p.to_point(), WeierstrassPoint::Affine(counting()));
}
