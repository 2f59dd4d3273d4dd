use ceno_crypto_primitives::encoding::CompressedPoint;
use ceno_crypto_primitives::point::WeierstrassPoint;

fn sample(seed: u32) -> WeierstrassPoint {
    let mut limbs = [0u32; 16];
    for (i, limb) in limbs.iter_mut().enumerate() {
        *limb = seed.wrapping_mul(0x9e37_79b9).wrapping_add(i as u32);
    }
    WeierstrassPoint::Affine(limbs)
}

#[test]
fn identity_is_the_point_at_infinity() {
    assert_eq!(WeierstrassPoint::identity(), WeierstrassPoint::Infinity);
    assert!(WeierstrassPoint::identity().is_identity());
    assert!(!sample(1).is_identity());
    assert!(!WeierstrassPoint::Affine([0; 16]).is_identity());
}

#[test]
fn coordinates_are_concatenated_x_first() {
    let x = [1, 2, 3, 4, 5, 6, 7, 8];
    let y = [9, 10, 11, 12, 13, 14, 15, 16];
    let point = WeierstrassPoint::from_coordinates(&x, &y);
    assert_eq!(
        point,
        WeierstrassPoint::Affine([1, 2, 3, 4, 5, 6, 7, 8, 9, 10, 11, 12, 13, 14, 15, 16])
    );
    assert_eq!(point.coordinates(), (x, y));
}

#[test]
fn equality_is_equality_of_representation() {
    let a = sample(1);
    let b = sample(2);
    assert!(a.constant_time_equal(&a));
    assert!(!a.constant_time_equal(&b));
    assert!(WeierstrassPoint::Infinity.constant_time_equal(&WeierstrassPoint::Infinity));
    assert!(!WeierstrassPoint::Infinity.constant_time_equal(&a));
    assert!(!a.constant_time_equal(&WeierstrassPoint::Infinity));
}

#[test]
fn equality_tells_zero_words_from_infinity() {
    let zero = WeierstrassPoint::Affine([0; 16]);
    assert!(!zero.constant_time_equal(&WeierstrassPoint::Infinity));
    assert!(!WeierstrassPoint::Infinity.constant_time_equal(&zero));
    assert!(zero.constant_time_equal(&zero));
}

#[test]
fn equality_sees_a_difference_in_any_word() {
    let a = sample(7);
    for i in 0..16 {
        if let WeierstrassPoint::Affine(mut limbs) = a {
            limbs[i] ^= 1 << (i % 32);
            assert!(!a.constant_time_equal(&WeierstrassPoint::Affine(limbs)), "word {}", i);
        }
    }
}

#[test]
fn selection_follows_the_flag() {
    let a = sample(1);
    let b = sample(2);
    let inf = WeierstrassPoint::Infinity;
    assert_eq!(WeierstrassPoint::conditional_select(&a, &b, false), a);
    assert_eq!(WeierstrassPoint::conditional_select(&a, &b, true), b);
    assert_eq!(WeierstrassPoint::conditional_select(&a, &inf, false), a);
    assert_eq!(WeierstrassPoint::conditional_select(&a, &inf, true), inf);
    assert_eq!(WeierstrassPoint::conditional_select(&inf, &b, false), inf);
    assert_eq!(WeierstrassPoint::conditional_select(&inf, &b, true), b);
    assert_eq!(WeierstrassPoint::conditional_select(&inf, &inf, true), inf);
}

#[test]
fn compression_keeps_x_and_the_parity_of_y() {
    let x = [0x1d1e1f20, 0x191a1b1c, 0x15161718, 0x11121314, 0x0d0e0f10, 0x090a0b0c, 0x05060708, 0x01020304];
    let mut expected = [0u8; 32];
    for (i, byte) in expected.iter_mut().enumerate() {
        *byte = (i + 1) as u8;
    }
    let odd = WeierstrassPoint::from_coordinates(&x, &[3, 0, 0, 0, 0, 0, 0, 0]);
    assert_eq!(odd.compress(), CompressedPoint::Point { x: expected, y_is_odd: true });
    let even = WeierstrassPoint::from_coordinates(&x, &[4, 1, 1, 1, 1, 1, 1, 1]);
    assert_eq!(even.compress(), CompressedPoint::Point { x: expected, y_is_odd: false });
    assert_eq!(WeierstrassPoint::Infinity.compress(), CompressedPoint::Identity);
}
