//! Affine points of BN254.

use crate::curve::ECDSACurve;
use crate::ecdsa::ECDSAPoint;
use crate::point::{PointView, WeierstrassPoint, POINT_LIMBS};
use vstd::prelude::*;

verus! {

/// An affine point of BN254, or its point at infinity.
#[derive(Clone, Copy)]
pub struct Bn254Point(pub WeierstrassPoint);

impl View for Bn254Point {
    type V = PointView;

    open spec fn view(&self) -> PointView {
        self.0@
    }
}

impl Bn254Point {
    /// The words of the generator, the point (1, 2).
    pub open spec fn generator_spec() -> Seq<u32> {
        seq![
            1u32,
            0u32,
            0u32,
            0u32,
            0u32,
            0u32,
            0u32,
            0u32,
            2u32,
            0u32,
            0u32,
            0u32,
            0u32,
            0u32,
            0u32,
            0u32,
        ]
    }

    /// The point at infinity.
    pub fn infinity() -> (r: Self)
        ensures
            r@ == PointView::Infinity,
    {
        Bn254Point(WeierstrassPoint::Infinity)
    }

    /// Whether this is the point at infinity.
    pub fn is_infinity(&self) -> (r: bool)
        ensures
            r == (self@ is Infinity),
    {
        self.0.is_identity()
    }

    /// The representation of the point, to change in place.
    pub fn inner_mut(&mut self) -> (r: &mut WeierstrassPoint)
        ensures
            *r == old(self).0,
            final(self).0 == *final(r),
    {
        &mut self.0
    }

    /// The accelerated addition itself: `self` becomes `self + other`. It
    /// is defined only for two points of the curve that are neither equal
    /// nor inverses of each other.
    pub fn add_assign<C: ECDSACurve>(&mut self, curve: &C, other: &Self)
        requires
            old(self)@ is Affine,
            other@ is Affine,
            C::model().on_curve(old(self)@->Affine_0),
            C::model().on_curve(other@->Affine_0),
            C::model().index_of(old(self)@->Affine_0) != C::model().index_of(other@->Affine_0),
            C::model().index_of(old(self)@->Affine_0) + C::model().index_of(other@->Affine_0)
                != C::model().order,
        ensures
            final(self)@ == PointView::Affine(
                C::model().accel_add(old(self)@->Affine_0, other@->Affine_0),
            ),
    {
        match (self.0, other.0) {
            (WeierstrassPoint::Affine(a), WeierstrassPoint::Affine(b)) => {
                let mut sum = a;
                curve.accel_add(&mut sum, &b);
                self.0 = WeierstrassPoint::Affine(sum);
            },
            _ => {},
        }
    }

    /// The complete addition: `self` becomes `self + other`, whatever the
    /// two points are.
    pub fn complete_add_assign<C: ECDSACurve>(&mut self, curve: &C, other: &Self)
        requires
            C::model().can_add(old(self)@, other@),
        ensures
            final(self)@ == C::model().complete_add(old(self)@, other@),
            C::model().valid(old(self)@) && C::model().valid(other@) ==> C::model().valid(
                final(self)@,
            ),
    {
        self.0 = self.0.complete_add(curve, &other.0);
    }

    /// Doubles the point in place. The identity stays.
    pub fn double<C: ECDSACurve>(&mut self, curve: &C)
        requires
            C::model().valid(old(self)@),
        ensures
            final(self)@ == C::model().double(old(self)@),
            C::model().well_formed() ==> C::model().valid(final(self)@),
    {
        self.0 = self.0.double(curve);
    }
}

impl ECDSAPoint for Bn254Point {
    open spec fn generator_limbs() -> Seq<u32> {
        Self::generator_spec()
    }

    fn generator() -> (r: Self) {
        let limbs: [u32; POINT_LIMBS] = [1, 0, 0, 0, 0, 0, 0, 0, 2, 0, 0, 0, 0, 0, 0, 0];
        assert(limbs@ =~= Self::generator_spec());
        Bn254Point(WeierstrassPoint::Affine(limbs))
    }

    fn new(limbs: [u32; POINT_LIMBS]) -> (r: Self) {
        Bn254Point(WeierstrassPoint::Affine(limbs))
    }

    fn identity() -> (r: Self) {
        Self::infinity()
    }

    fn inner(&self) -> (r: &WeierstrassPoint) {
        &self.0
    }

    fn is_identity(&self) -> (r: bool) {
        self.is_infinity()
    }
}

} // verus!
