//! A curve small enough to check by hand, with its arithmetic in software:
//! y^2 = x^3 + 7 over the field of 13 elements. It has six affine points,
//! and with the identity they make a group of order 7. Its model is well
//! formed, which shows that the conditions on a model can be met, and its
//! arithmetic meets the contracts of the accelerated operations.

use crate::curve::ECDSACurve;
use crate::model::{x_of, y_of, CurveModel};
use crate::point::{FIELD_LIMBS, POINT_LIMBS};
use vstd::prelude::*;

verus! {

/// The curve y^2 = x^3 + 7 over the field of 13 elements.
#[derive(Clone, Copy, Debug, Default)]
pub struct TinyCurve;

/// The eight words of a coordinate below 13.
pub open spec fn tiny_coordinate(v: u32) -> Seq<u32> {
    Seq::new(FIELD_LIMBS as nat, |i: int| if i == 0 { v } else { 0u32 })
}

/// The sixteen words of the point `(x, y)`.
pub open spec fn tiny_limbs(x: u32, y: u32) -> Seq<u32> {
    Seq::new(POINT_LIMBS as nat, |i: int| if i == 0 { x } else if i == 8 { y } else { 0u32 })
}

/// X of the point `k * G`, where `G = (7, 5)`.
pub open spec fn tiny_x(k: int) -> u32 {
    if k == 1 || k == 6 {
        7
    } else if k == 2 || k == 5 {
        8
    } else {
        11
    }
}

/// Y of the point `k * G`.
pub open spec fn tiny_y(k: int) -> u32 {
    if k == 1 || k == 2 || k == 4 {
        5
    } else {
        8
    }
}

/// The words of the point `k * G`, for `k` from 1 to 6.
pub open spec fn tiny_encode(k: int) -> Seq<u32> {
    tiny_limbs(tiny_x(k), tiny_y(k))
}

/// The `k` for which sixteen words are those of `k * G`, or 0.
pub open spec fn tiny_index(limbs: Seq<u32>) -> int {
    if limbs == tiny_encode(1) {
        1
    } else if limbs == tiny_encode(2) {
        2
    } else if limbs == tiny_encode(3) {
        3
    } else if limbs == tiny_encode(4) {
        4
    } else if limbs == tiny_encode(5) {
        5
    } else if limbs == tiny_encode(6) {
        6
    } else {
        0
    }
}

/// The words of `-y` modulo 13.
pub open spec fn tiny_negated(y: Seq<u32>) -> Seq<u32> {
    tiny_coordinate(((13 - y[0] % 13) % 13) as u32)
}

/// The least square root of `x^3 + 7` modulo 13, which is 5 wherever there
/// is one.
pub open spec fn tiny_lifted(x: Seq<u32>) -> Option<Seq<u32>> {
    if x == tiny_coordinate(7) || x == tiny_coordinate(8) || x == tiny_coordinate(11) {
        Some(tiny_coordinate(5))
    } else {
        None
    }
}

/// The model of the curve.
pub open spec fn tiny_model() -> CurveModel {
    CurveModel {
        order: 7,
        index: |limbs: Seq<u32>| tiny_index(limbs),
        encode: |k: int| tiny_encode(k),
        negated: |y: Seq<u32>| tiny_negated(y),
        lifted: |x: Seq<u32>| tiny_lifted(x),
    }
}

/// Each of the six points satisfies the equation of the curve.
pub proof fn lemma_tiny_equation(k: int)
    requires
        1 <= k < 7,
    ensures
        (tiny_y(k) * tiny_y(k)) % 13 == (tiny_x(k) * tiny_x(k) * tiny_x(k) + 7) % 13,
{
    assert(5 * 5 % 13 == 12 && 8 * 8 % 13 == 12);
    assert((7 * 7 * 7 + 7) % 13 == 12 && (8 * 8 * 8 + 7) % 13 == 12 && (11 * 11 * 11 + 7) % 13
        == 12);
}

/// The words of `k * G` hold its coordinates, and two multiples below the
/// order have different words.
pub proof fn lemma_tiny_encode(k: int)
    requires
        1 <= k < 7,
    ensures
        tiny_encode(k).len() == POINT_LIMBS,
        tiny_encode(k)[0] == tiny_x(k),
        tiny_encode(k)[8] == tiny_y(k),
        x_of(tiny_encode(k)) == tiny_coordinate(tiny_x(k)),
        y_of(tiny_encode(k)) == tiny_coordinate(tiny_y(k)),
        tiny_index(tiny_encode(k)) == k,
{
    assert(x_of(tiny_encode(k)) =~= tiny_coordinate(tiny_x(k)));
    assert(y_of(tiny_encode(k)) =~= tiny_coordinate(tiny_y(k)));
    assert(tiny_encode(1)[0] == 7 && tiny_encode(1)[8] == 5);
    assert(tiny_encode(2)[0] == 8 && tiny_encode(2)[8] == 5);
    assert(tiny_encode(3)[0] == 11 && tiny_encode(3)[8] == 8);
    assert(tiny_encode(4)[0] == 11 && tiny_encode(4)[8] == 5);
    assert(tiny_encode(5)[0] == 8 && tiny_encode(5)[8] == 8);
    assert(tiny_encode(6)[0] == 7 && tiny_encode(6)[8] == 8);
}

/// A point of the curve is one of the six multiples.
pub proof fn lemma_tiny_on_curve(a: Seq<u32>)
    requires
        tiny_model().on_curve(a),
    ensures
        1 <= tiny_index(a) < 7,
        a == tiny_encode(tiny_index(a)),
        a[0] == tiny_x(tiny_index(a)),
        a[8] == tiny_y(tiny_index(a)),
{
    lemma_tiny_encode(tiny_index(a));
}

/// The model of the curve is well formed.
pub proof fn lemma_tiny_model_well_formed()
    ensures
        tiny_model().well_formed(),
{
    let m = tiny_model();
    assert forall|k: int| 1 <= k < m.order implies (#[trigger] m.limbs_of(k)).len() == POINT_LIMBS
        && m.index_of(m.limbs_of(k)) == k by {
        lemma_tiny_encode(k);
    }
    assert forall|a: Seq<u32>, b: Seq<u32>|
        #![trigger m.on_curve(a), m.on_curve(b)]
        m.on_curve(a) && m.on_curve(b) && x_of(a) == x_of(b) implies m.index_of(a) == m.index_of(b)
        || m.index_of(a) + m.index_of(b) == m.order by {
        lemma_tiny_on_curve(a);
        lemma_tiny_on_curve(b);
        assert(x_of(a)[0] == a[0]);
        assert(x_of(b)[0] == b[0]);
    }
    assert forall|a: Seq<u32>| #[trigger] m.on_curve(a) implies m.limbs_of(m.order - m.index_of(a))
        == x_of(a) + m.neg_y(y_of(a)) && crate::model::is_odd(m.neg_y(y_of(a)))
        != crate::model::is_odd(y_of(a)) by {
        let k = tiny_index(a);
        lemma_tiny_on_curve(a);
        lemma_tiny_encode(k);
        lemma_tiny_encode(7 - k);
        assert(y_of(a)[0] == tiny_y(k));
        assert(tiny_encode(7 - k) =~= x_of(a) + tiny_negated(y_of(a)));
    }
    assert forall|x: Seq<u32>| x.len() == FIELD_LIMBS implies match #[trigger] m.lift_x(x) {
        Some(y) => y.len() == FIELD_LIMBS && m.on_curve(x + y),
        None => forall|a: Seq<u32>| #[trigger] m.on_curve(a) ==> x_of(a) != x,
    } by {
        match m.lift_x(x) {
            Some(y) => {
                let k: int = if x == tiny_coordinate(7) {
                    1
                } else if x == tiny_coordinate(8) {
                    2
                } else {
                    4
                };
                lemma_tiny_encode(k);
                assert(x + y =~= tiny_encode(k));
            },
            None => {
                assert forall|a: Seq<u32>| #[trigger] m.on_curve(a) implies x_of(a) != x by {
                    lemma_tiny_on_curve(a);
                    lemma_tiny_encode(tiny_index(a));
                }
            },
        }
    }
}

/// Whether `(x, y)` is the point `k * G`.
pub open spec fn is_tiny_multiple(k: u8, x: u8, y: u8) -> bool {
    ||| k == 1 && x == 7 && y == 5
    ||| k == 2 && x == 8 && y == 5
    ||| k == 3 && x == 11 && y == 8
    ||| k == 4 && x == 11 && y == 5
    ||| k == 5 && x == 8 && y == 8
    ||| k == 6 && x == 7 && y == 8
}

/// The inverse of a nonzero `a` modulo 13, as its eleventh power.
pub open spec fn tiny_inverse(a: u8) -> u8 {
    let a2 = (a * a % 13) as u8;
    let a4 = (a2 * a2 % 13) as u8;
    let a8 = (a4 * a4 % 13) as u8;
    let a10 = (a8 * a2 % 13) as u8;
    (a10 * a % 13) as u8
}

/// X of the third point of the curve on a line of the given slope through
/// the points with X `x1` and `x2`.
pub open spec fn tiny_third_x(slope: u8, x1: u8, x2: u8) -> u8 {
    ((slope * slope % 13 + 26 - x1 - x2) % 13) as u8
}

/// Y of the sum of the points on a line of the given slope through
/// `(x1, y1)`, where the sum has X `x3`.
pub open spec fn tiny_third_y(slope: u8, x1: u8, y1: u8, x3: u8) -> u8 {
    ((slope * ((x1 + 13 - x3) % 13) % 13 + 13 - y1) % 13) as u8
}

/// The slope of the chord through two points with different X.
pub open spec fn tiny_chord(x1: u8, y1: u8, x2: u8, y2: u8) -> u8 {
    (((y2 + 13 - y1) % 13) * tiny_inverse(((x2 + 13 - x1) % 13) as u8) % 13) as u8
}

/// The slope of the tangent at a point.
pub open spec fn tiny_tangent(x1: u8, y1: u8) -> u8 {
    ((3 * (x1 * x1 % 13) % 13) * tiny_inverse((2 * y1 % 13) as u8) % 13) as u8
}

/// The chord through `i * G` and `j * G` meets the curve in the inverse of
/// `(i + j) * G`.
proof fn lemma_tiny_chord(i: u8, j: u8, x1: u8, y1: u8, x2: u8, y2: u8)
    by (bit_vector)
    requires
        is_tiny_multiple(i, x1, y1),
        is_tiny_multiple(j, x2, y2),
        x1 != x2,
    ensures
        is_tiny_multiple(
            ((i + j) % 7) as u8,
            tiny_third_x(tiny_chord(x1, y1, x2, y2), x1, x2),
            tiny_third_y(
                tiny_chord(x1, y1, x2, y2),
                x1,
                y1,
                tiny_third_x(tiny_chord(x1, y1, x2, y2), x1, x2),
            ),
        ),
{
}

/// The tangent at `i * G` meets the curve in the inverse of `2 * i * G`.
proof fn lemma_tiny_tangent(i: u8, x1: u8, y1: u8)
    by (bit_vector)
    requires
        is_tiny_multiple(i, x1, y1),
    ensures
        is_tiny_multiple(
            ((2 * i) % 7) as u8,
            tiny_third_x(tiny_tangent(x1, y1), x1, x1),
            tiny_third_y(
                tiny_tangent(x1, y1),
                x1,
                y1,
                tiny_third_x(tiny_tangent(x1, y1), x1, x1),
            ),
        ),
{
}

/// The X below 13 for which `x^3 + 7` is a square modulo 13 are 7, 8 and
/// 11, and its square roots are then 5 and 8.
proof fn lemma_tiny_squares(x: u8, y: u8)
    by (bit_vector)
    requires
        x < 13,
        y < 13,
    ensures
        (y * y % 13 == ((x * x % 13) * x % 13 + 7) % 13) == ((x == 7 || x == 8 || x == 11) && (y
            == 5 || y == 8)),
{
}

/// The product of two numbers below 13, modulo 13.
fn times(a: u8, b: u8) -> (r: u8)
    requires
        a < 13,
        b < 13,
    ensures
        r == a * b % 13,
        r < 13,
{
    assert(a * b <= 144) by (nonlinear_arith)
        requires
            a < 13,
            b < 13,
    ;
    a * b % 13
}

/// The inverse of a nonzero number below 13, modulo 13.
fn inverse(a: u8) -> (r: u8)
    requires
        a < 13,
    ensures
        r == tiny_inverse(a),
        r < 13,
{
    let a2 = times(a, a);
    let a4 = times(a2, a2);
    let a8 = times(a4, a4);
    let a10 = times(a8, a2);
    times(a10, a)
}

/// The sum of two points on a line of the given slope through `(x1, y1)`
/// and a point with X `x2`.
fn third_point(slope: u8, x1: u8, y1: u8, x2: u8) -> (r: (u8, u8))
    requires
        slope < 13,
        x1 < 13,
        y1 < 13,
        x2 < 13,
    ensures
        r.0 == tiny_third_x(slope, x1, x2),
        r.1 == tiny_third_y(slope, x1, y1, r.0),
        r.0 < 13,
        r.1 < 13,
{
    let x3 = (times(slope, slope) + 26 - x1 - x2) % 13;
    let y3 = (times(slope, (x1 + 13 - x3) % 13) + 13 - y1) % 13;
    (x3, y3)
}

/// The multiple of `G` that a point of the curve is.
proof fn lemma_tiny_multiple(a: Seq<u32>)
    requires
        tiny_model().on_curve(a),
    ensures
        a[0] < 13,
        a[8] < 13,
        is_tiny_multiple(tiny_index(a) as u8, a[0] as u8, a[8] as u8),
        a == tiny_limbs(a[0], a[8]),
{
    lemma_tiny_on_curve(a);
}

impl ECDSACurve for TinyCurve {
    open spec fn model() -> CurveModel {
        tiny_model()
    }

    fn accel_add(&self, p: &mut [u32; POINT_LIMBS], q: &[u32; POINT_LIMBS]) {
        let ghost i = tiny_index(p@);
        let ghost j = tiny_index(q@);
        proof {
            lemma_tiny_multiple(p@);
            lemma_tiny_multiple(q@);
        }
        let (x1, y1, x2, y2) = (p[0] as u8, p[8] as u8, q[0] as u8, q[8] as u8);
        proof {
            lemma_tiny_chord(i as u8, j as u8, x1, y1, x2, y2);
            assert(0 < (i + j) % 7 < 7);
            lemma_tiny_encode((i + j) % 7);
        }
        let slope = times((y2 + 13 - y1) % 13, inverse((x2 + 13 - x1) % 13));
        let (x3, y3) = third_point(slope, x1, y1, x2);
        p[0] = x3 as u32;
        p[8] = y3 as u32;
        assert(p@ =~= tiny_encode((i + j) % 7));
    }

    fn accel_double(&self, p: &mut [u32; POINT_LIMBS]) {
        let ghost i = tiny_index(p@);
        proof {
            lemma_tiny_multiple(p@);
        }
        let (x1, y1) = (p[0] as u8, p[8] as u8);
        proof {
            lemma_tiny_tangent(i as u8, x1, y1);
            assert(0 < (2 * i) % 7 < 7);
            lemma_tiny_encode((2 * i) % 7);
        }
        let slope = times(3 * times(x1, x1) % 13, inverse(2 * y1 % 13));
        let (x3, y3) = third_point(slope, x1, y1, x1);
        p[0] = x3 as u32;
        p[8] = y3 as u32;
        assert(p@ =~= tiny_encode((2 * i) % 7));
    }

    fn field_neg(&self, y: &[u32; FIELD_LIMBS]) -> (r: [u32; FIELD_LIMBS]) {
        let mut r = [0u32; FIELD_LIMBS];
        r[0] = (13 - y[0] % 13) % 13;
        assert(r@ =~= tiny_negated(y@));
        r
    }

    fn lift_x(&self, x: &[u32; FIELD_LIMBS]) -> (r: Option<[u32; FIELD_LIMBS]>) {
        let mut i: usize = 1;
        while i < FIELD_LIMBS
            invariant
                1 <= i <= FIELD_LIMBS,
                forall|k: int| 1 <= k < i ==> x@[k] == 0,
            decreases FIELD_LIMBS - i,
        {
            if x[i] != 0 {
                assert(tiny_coordinate(7)[i as int] == 0);
                assert(tiny_coordinate(8)[i as int] == 0);
                assert(tiny_coordinate(11)[i as int] == 0);
                return None;
            }
            i += 1;
        }
        assert(x@ =~= tiny_coordinate(x@[0]));
        assert(tiny_coordinate(7)[0] == 7 && tiny_coordinate(8)[0] == 8 && tiny_coordinate(11)[0]
            == 11);
        if x[0] >= 13 {
            return None;
        }
        let x0 = x[0] as u8;
        let square = (times(times(x0, x0), x0) + 7) % 13;
        let mut y: u8 = 0;
        while y < 13
            invariant
                y <= 13,
                x0 < 13,
                x0 == x@[0],
                x@ == tiny_coordinate(x@[0]),
                square == ((x0 * x0 % 13) * x0 % 13 + 7) % 13,
                y > 5 ==> !(x0 == 7 || x0 == 8 || x0 == 11),
            decreases 13 - y,
        {
            proof {
                lemma_tiny_squares(x0, y);
            }
            if times(y, y) == square {
                let mut r = [0u32; FIELD_LIMBS];
                r[0] = y as u32;
                assert(r@ =~= tiny_coordinate(5));
                return Some(r);
            }
            y += 1;
        }
        None
    }
}

} // verus!
