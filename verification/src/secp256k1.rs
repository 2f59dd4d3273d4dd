//! Affine points of secp256k1.

use crate::curve::ECDSACurve;
use crate::ecdsa::ECDSAPoint;
use crate::point::{PointView, WeierstrassPoint, POINT_LIMBS};
use vstd::prelude::*;

verus! {

/// An affine point of secp256k1, or its point at infinity.
#[derive(Clone, Copy, Debug)]
pub struct CenoSecp256k1Point(pub WeierstrassPoint);

impl View for CenoSecp256k1Point {
    type V = PointView;

    open spec fn view(&self) -> PointView {
        self.0@
    }
}

impl CenoSecp256k1Point {
    /// The words of the generator: X is
    /// 0x79BE667E F9DCBBAC 55A06295 CE870B07 029BFCDB 2DCE28D9 59F2815B 16F81798
    /// and Y is
    /// 0x483ADA77 26A3C465 5DA4FBFC 0E1108A8 FD17B448 A6855419 9C47D08F FB10D4B8.
    pub open spec fn generator_spec() -> Seq<u32> {
        seq![
            385357720u32,
            1509065051u32,
            768485593u32,
            43777243u32,
            3464956679u32,
            1436574357u32,
            4191992748u32,
            2042521214u32,
            4212184248u32,
            2621952143u32,
            2793755673u32,
            4246189128u32,
            235997352u32,
            1571093500u32,
            648266853u32,
            1211816567u32,
        ]
    }

    /// The point at infinity.
    pub fn infinity() -> (r: Self)
        ensures
            r@ == PointView::Infinity,
    {
        CenoSecp256k1Point(WeierstrassPoint::Infinity)
    }

    /// Whether this is the point at infinity.
    pub fn is_infinity(&self) -> (r: bool)
        ensures
            r == (self@ is Infinity),
    {
        self.0.is_identity()
    }

    /// The representation of the point, to change in place.
    pub fn inner_mut(&mut self) -> (r: &mut WeierstrassPoint)
        ensures
            *r == old(self).0,
            final(self).0 == *final(r),
    {
        &mut self.0
    }

    /// The accelerated addition itself: `self` becomes `self + other`. It
    /// is defined only for two points of the curve that are neither equal
    /// nor inverses of each other.
    pub fn add_assign<C: ECDSACurve>(&mut self, curve: &C, other: &Self)
        requires
            old(self)@ is Affine,
            other@ is Affine,
            C::model().on_curve(old(self)@->Affine_0),
            C::model().on_curve(other@->Affine_0),
            C::model().index_of(old(self)@->Affine_0) != C::model().index_of(other@->Affine_0),
            C::model().index_of(old(self)@->Affine_0) + C::model().index_of(other@->Affine_0)
                != C::model().order,
        ensures
            final(self)@ == PointView::Affine(
                C::model().accel_add(old(self)@->Affine_0, other@->Affine_0),
            ),
    {
        match (self.0, other.0) {
            (WeierstrassPoint::Affine(a), WeierstrassPoint::Affine(b)) => {
                let mut sum = a;
                curve.accel_add(&mut sum, &b);
                self.0 = WeierstrassPoint::Affine(sum);
            },
            _ => {},
        }
    }

    /// The complete addition: `self` becomes `self + other`, whatever the
    /// two points are.
    pub fn complete_add_assign<C: ECDSACurve>(&mut self, curve: &C, other: &Self)
        requires
            C::model().can_add(old(self)@, other@),
        ensures
            final(self)@ == C::model().complete_add(old(self)@, other@),
            C::model().valid(old(self)@) && C::model().valid(other@) ==> C::model().valid(
                final(self)@,
            ),
    {
        self.0 = self.0.complete_add(curve, &other.0);
    }

    /// Doubles the point in place. The identity stays.
    pub fn double<C: ECDSACurve>(&mut self, curve: &C)
        requires
            C::model().valid(old(self)@),
        ensures
            final(self)@ == C::model().double(old(self)@),
            C::model().well_formed() ==> C::model().valid(final(self)@),
    {
        self.0 = self.0.double(curve);
    }
}

impl ECDSAPoint for CenoSecp256k1Point {
    open spec fn generator_limbs() -> Seq<u32> {
        Self::generator_spec()
    }

    fn generator() -> (r: Self) {
        let limbs: [u32; POINT_LIMBS] = [
            385357720,
            1509065051,
            768485593,
            43777243,
            3464956679,
            1436574357,
            4191992748,
            2042521214,
            4212184248,
            2621952143,
            2793755673,
            4246189128,
            235997352,
            1571093500,
            648266853,
            1211816567,
        ];
        assert(limbs@ =~= Self::generator_spec());
        CenoSecp256k1Point(WeierstrassPoint::Affine(limbs))
    }

    fn new(limbs: [u32; POINT_LIMBS]) -> (r: Self) {
        CenoSecp256k1Point(WeierstrassPoint::Affine(limbs))
    }

    fn identity() -> (r: Self) {
        Self::infinity()
    }

    fn inner(&self) -> (r: &WeierstrassPoint) {
        &self.0
    }

    fn is_identity(&self) -> (r: bool) {
        self.is_infinity()
    }
}

} // verus!
