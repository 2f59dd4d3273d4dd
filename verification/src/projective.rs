//! The point type on which the group algebra works. It holds an affine
//! point and nothing else: the accelerated arithmetic is affine, so no
//! projective coordinates are kept.

use crate::affine::CenoAffinePoint;
use crate::convert::be_value;
use crate::curve::ECDSACurve;
use crate::ecdsa::ECDSAPoint;
use crate::encoding::{compress_spec, decompress_spec, CompressedPoint};
use crate::model::CurveModel;
use crate::point::{PointView, WeierstrassPoint};
use vstd::prelude::*;

verus! {

/// A point of the curve whose point type is `P`.
#[derive(Clone, Copy, Debug)]
pub struct CenoProjectivePoint<P: ECDSAPoint> {
    /// The affine point that this value wraps.
    pub inner: CenoAffinePoint<P>,
}

impl<P: ECDSAPoint> View for CenoProjectivePoint<P> {
    type V = PointView;

    open spec fn view(&self) -> PointView {
        self.inner@
    }
}

/// The points of a sequence added up from the identity, the first one first.
pub open spec fn sum_spec(m: CurveModel, points: Seq<PointView>) -> PointView
    decreases points.len(),
{
    if points.len() == 0 {
        PointView::Infinity
    } else {
        m.complete_add(sum_spec(m, points.drop_last()), points.last())
    }
}

/// Whether every point of a sequence is an element of the group.
pub open spec fn all_valid(m: CurveModel, points: Seq<PointView>) -> bool {
    forall|i: int| 0 <= i < points.len() ==> m.valid(#[trigger] points[i])
}

impl<P: ECDSAPoint> CenoProjectivePoint<P> {
    /// The identity of the group.
    pub fn identity() -> (r: Self)
        ensures
            r@ == PointView::Infinity,
    {
        CenoProjectivePoint { inner: CenoAffinePoint::<P>::identity() }
    }

    /// The affine point. No computation is needed.
    pub fn to_affine(self) -> (r: CenoAffinePoint<P>)
        ensures
            r == self.inner,
            r@ == self@,
    {
        self.inner
    }

    /// The projective point of an affine point. No computation is needed.
    pub fn from_affine(p: CenoAffinePoint<P>) -> (r: Self)
        ensures
            r.inner == p,
            r@ == p@,
    {
        CenoProjectivePoint { inner: p }
    }

    fn to_zkvm_point(self) -> (r: P)
        ensures
            r == self.inner.inner,
    {
        self.inner.inner
    }

    fn from_zkvm_point(p: P) -> (r: Self)
        ensures
            r.inner.inner == p,
            r@ == p@,
    {
        CenoProjectivePoint { inner: CenoAffinePoint { inner: p } }
    }

    /// The representation of the point.
    fn to_point(&self) -> (r: WeierstrassPoint)
        ensures
            r@ == self@,
    {
        *self.to_zkvm_point().inner()
    }

    /// The point with the given representation.
    fn from_point(point: &WeierstrassPoint) -> (r: Self)
        ensures
            r@ == point@,
    {
        Self::from_zkvm_point(P::from_point(point))
    }

    /// Whether this is the identity.
    pub fn is_identity(&self) -> (r: bool)
        ensures
            r == (self@ is Infinity),
    {
        self.inner.is_identity()
    }

    /// The generator of the curve's group.
    pub fn generator() -> (r: Self)
        ensures
            r@ == PointView::Affine(P::generator_limbs()),
    {
        CenoProjectivePoint { inner: CenoAffinePoint::<P>::generator() }
    }

    /// The point that a scalar drawn by the caller selects: the generator
    /// times that scalar, given as 32 big-endian bytes. Drawn uniformly
    /// among the scalars, it selects a uniform point.
    pub fn random<C: ECDSACurve>(curve: &C, scalar: &[u8; 32]) -> (r: Self)
        requires
            C::model().can_multiply(PointView::Affine(P::generator_limbs()), be_value(scalar@)),
        ensures
            r@ == C::model().scalar_mul(PointView::Affine(P::generator_limbs()), be_value(scalar@)),
            C::model().valid(r@),
    {
        Self::generator().mul(curve, scalar)
    }

    /// Twice the point.
    pub fn double<C: ECDSACurve>(&self, curve: &C) -> (r: Self)
        requires
            C::model().valid(self@),
        ensures
            r@ == C::model().double(self@),
            C::model().well_formed() ==> C::model().valid(r@),
    {
        Self::from_point(&self.to_point().double(curve))
    }

    /// `k * x + l * y`, the scalars given as 32 big-endian bytes each.
    pub fn lincomb<C: ECDSACurve>(curve: &C, x: &Self, k: &[u8; 32], y: &Self, l: &[u8; 32]) -> (r:
        Self)
        requires
            C::model().well_formed(),
            C::model().valid(x@),
            C::model().valid(y@),
        ensures
            r@ == C::model().linear_combination(x@, be_value(k@), y@, be_value(l@)),
            C::model().valid(r@),
    {
        Self::from_point(
            &WeierstrassPoint::linear_combination(curve, &x.to_point(), k, &y.to_point(), l),
        )
    }

    /// The point times a scalar given as 32 big-endian bytes.
    pub fn mul<C: ECDSACurve>(self, curve: &C, rhs: &[u8; 32]) -> (r: Self)
        requires
            C::model().can_multiply(self@, be_value(rhs@)),
        ensures
            r@ == C::model().scalar_mul(self@, be_value(rhs@)),
            C::model().valid(r@),
    {
        Self::from_point(&self.to_point().scalar_mul(curve, rhs))
    }

    /// Multiplies the point in place by a scalar given as 32 big-endian bytes.
    pub fn mul_assign<C: ECDSACurve>(&mut self, curve: &C, rhs: &[u8; 32])
        requires
            C::model().can_multiply(old(self)@, be_value(rhs@)),
        ensures
            final(self)@ == C::model().scalar_mul(old(self)@, be_value(rhs@)),
            C::model().valid(final(self)@),
    {
        *self = self.mul(curve, rhs);
    }

    /// The inverse of the point.
    pub fn neg<C: ECDSACurve>(self, curve: &C) -> (r: Self)
        ensures
            r@ == C::model().negate(self@),
            C::model().well_formed() && C::model().valid(self@) ==> C::model().valid(r@),
    {
        if self.is_identity() {
            return self;
        }
        Self::from_point(&self.to_point().negate(curve))
    }

    /// The sum of two points, by the complete addition law.
    pub fn add<C: ECDSACurve>(self, curve: &C, rhs: &Self) -> (r: Self)
        requires
            C::model().can_add(self@, rhs@),
        ensures
            r@ == C::model().complete_add(self@, rhs@),
            C::model().valid(self@) && C::model().valid(rhs@) ==> C::model().valid(r@),
    {
        Self::from_point(&self.to_point().complete_add(curve, &rhs.to_point()))
    }

    /// The difference of two points: the first plus the inverse of the second.
    pub fn sub<C: ECDSACurve>(self, curve: &C, rhs: &Self) -> (r: Self)
        requires
            C::model().can_add(self@, rhs@),
        ensures
            r@ == C::model().complete_add(self@, C::model().negate(rhs@)),
            C::model().well_formed() && C::model().valid(self@) && C::model().valid(rhs@)
                ==> C::model().valid(r@),
    {
        let negated = rhs.neg(curve);
        self.add(curve, &negated)
    }

    /// The sum of a projective and an affine point.
    pub fn add_affine<C: ECDSACurve>(self, curve: &C, rhs: &CenoAffinePoint<P>) -> (r: Self)
        requires
            C::model().can_add(self@, rhs@),
        ensures
            r@ == C::model().complete_add(self@, rhs@),
            C::model().valid(self@) && C::model().valid(rhs@) ==> C::model().valid(r@),
    {
        self.add(curve, &CenoProjectivePoint { inner: *rhs })
    }

    /// The difference of a projective and an affine point.
    pub fn sub_affine<C: ECDSACurve>(self, curve: &C, rhs: &CenoAffinePoint<P>) -> (r: Self)
        requires
            C::model().can_add(self@, rhs@),
        ensures
            r@ == C::model().complete_add(self@, C::model().negate(rhs@)),
            C::model().well_formed() && C::model().valid(self@) && C::model().valid(rhs@)
                ==> C::model().valid(r@),
    {
        self.sub(curve, &CenoProjectivePoint { inner: *rhs })
    }

    /// The points of a slice added up from the identity, the first one first.
    pub fn sum<C: ECDSACurve>(curve: &C, points: &[Self]) -> (r: Self)
        requires
            C::model().well_formed(),
            all_valid(C::model(), points@.map_values(|p: Self| p@)),
        ensures
            r@ == sum_spec(C::model(), points@.map_values(|p: Self| p@)),
            C::model().valid(r@),
    {
        let ghost views = points@.map_values(|p: Self| p@);
        let mut total = Self::identity();
        let mut i: usize = 0;
        while i < points.len()
            invariant
                i <= points.len(),
                C::model().well_formed(),
                views == points@.map_values(|p: Self| p@),
                all_valid(C::model(), views),
                C::model().valid(total@),
                total@ == sum_spec(C::model(), views.take(i as int)),
            decreases points.len() - i,
        {
            proof {
                assert(views.take(i + 1).drop_last() =~= views.take(i as int));
                assert(views.take(i + 1).last() == views[i as int]);
                assert(C::model().valid(views[i as int]));
            }
            total = total.add(curve, &points[i]);
            i += 1;
        }
        assert(views.take(points.len() as int) =~= views);
        total
    }

    /// Adds a point in place.
    pub fn add_assign<C: ECDSACurve>(&mut self, curve: &C, rhs: &Self)
        requires
            C::model().can_add(old(self)@, rhs@),
        ensures
            final(self)@ == C::model().complete_add(old(self)@, rhs@),
            C::model().valid(old(self)@) && C::model().valid(rhs@) ==> C::model().valid(
                final(self)@,
            ),
    {
        *self = self.add(curve, rhs);
    }

    /// Subtracts a point in place.
    pub fn sub_assign<C: ECDSACurve>(&mut self, curve: &C, rhs: &Self)
        requires
            C::model().can_add(old(self)@, rhs@),
        ensures
            final(self)@ == C::model().complete_add(old(self)@, C::model().negate(rhs@)),
            C::model().well_formed() && C::model().valid(old(self)@) && C::model().valid(rhs@)
                ==> C::model().valid(final(self)@),
    {
        *self = self.sub(curve, rhs);
    }

    /// Adds an affine point in place.
    pub fn add_assign_affine<C: ECDSACurve>(&mut self, curve: &C, rhs: &CenoAffinePoint<P>)
        requires
            C::model().can_add(old(self)@, rhs@),
        ensures
            final(self)@ == C::model().complete_add(old(self)@, rhs@),
            C::model().valid(old(self)@) && C::model().valid(rhs@) ==> C::model().valid(
                final(self)@,
            ),
    {
        *self = self.add_affine(curve, rhs);
    }

    /// Subtracts an affine point in place.
    pub fn sub_assign_affine<C: ECDSACurve>(&mut self, curve: &C, rhs: &CenoAffinePoint<P>)
        requires
            C::model().can_add(old(self)@, rhs@),
        ensures
            final(self)@ == C::model().complete_add(old(self)@, C::model().negate(rhs@)),
            C::model().well_formed() && C::model().valid(old(self)@) && C::model().valid(rhs@)
                ==> C::model().valid(final(self)@),
    {
        *self = self.sub_affine(curve, rhs);
    }

    /// `b` if the flag is set and `a` if it is not, chosen without a branch
    /// on either point.
    pub fn conditional_select(a: &Self, b: &Self, choice: bool) -> (r: Self)
        ensures
            r@ == (if choice {
                b@
            } else {
                a@
            }),
    {
        Self::from_point(&WeierstrassPoint::conditional_select(&a.to_point(), &b.to_point(), choice))
    }

    /// Whether two points have the same representation, found without
    /// stopping at the first difference.
    pub fn ct_eq(&self, other: &Self) -> (r: bool)
        ensures
            r == (self@ == other@),
    {
        self.to_point().constant_time_equal(&other.to_point())
    }

    /// The point that a compressed form stands for, if there is one.
    pub fn from_bytes<C: ECDSACurve>(curve: &C, bytes: &CompressedPoint) -> (r: Option<Self>)
        ensures
            match r {
                Some(p) => decompress_spec(C::model(), bytes@) == Some(p@),
                None => decompress_spec(C::model(), bytes@) is None,
            },
    {
        match WeierstrassPoint::decompress(curve, bytes) {
            Some(point) => Some(Self::from_point(&point)),
            None => None,
        }
    }

    /// The same as `from_bytes`: a compressed form cannot be taken unchecked.
    pub fn from_bytes_unchecked<C: ECDSACurve>(curve: &C, bytes: &CompressedPoint) -> (r:
        Option<Self>)
        ensures
            match r {
                Some(p) => decompress_spec(C::model(), bytes@) == Some(p@),
                None => decompress_spec(C::model(), bytes@) is None,
            },
    {
        Self::from_bytes(curve, bytes)
    }

    /// The compressed form of the point.
    pub fn to_bytes(&self) -> (r: CompressedPoint)
        ensures
            r@ == compress_spec(self@),
    {
        self.to_point().compress()
    }

    /// The point itself: the group has prime order, so its cofactor is 1.
    pub fn clear_cofactor(&self) -> (r: Self)
        ensures
            r == *self,
    {
        *self
    }

    /// The point as a member of the prime-order subgroup, which is the
    /// whole group.
    pub fn into_subgroup(self) -> (r: Option<Self>)
        ensures
            r == Some(self),
    {
        Some(self)
    }

    /// Always true: the group has no torsion to be free of.
    pub fn is_torsion_free(&self) -> (r: bool)
        ensures
            r,
    {
        true
    }
}

impl<P: ECDSAPoint> From<CenoAffinePoint<P>> for CenoProjectivePoint<P> {
    fn from(p: CenoAffinePoint<P>) -> (r: Self) {
        CenoProjectivePoint { inner: p }
    }
}

impl<P: ECDSAPoint> vstd::std_specs::convert::FromSpecImpl<CenoAffinePoint<P>> for CenoProjectivePoint<P> {
    open spec fn obeys_from_spec() -> bool {
        true
    }

    open spec fn from_spec(p: CenoAffinePoint<P>) -> Self {
        CenoProjectivePoint { inner: p }
    }
}

impl<P: ECDSAPoint> From<CenoProjectivePoint<P>> for CenoAffinePoint<P> {
    fn from(p: CenoProjectivePoint<P>) -> (r: Self) {
        p.inner
    }
}

impl<P: ECDSAPoint> vstd::std_specs::convert::FromSpecImpl<CenoProjectivePoint<P>> for CenoAffinePoint<P> {
    open spec fn obeys_from_spec() -> bool {
        true
    }

    open spec fn from_spec(p: CenoProjectivePoint<P>) -> Self {
        p.inner
    }
}

impl<P: ECDSAPoint> PartialEq for CenoProjectivePoint<P> {
    fn eq(&self, other: &Self) -> (r: bool) {
        self.ct_eq(other)
    }
}

impl<P: ECDSAPoint> vstd::std_specs::cmp::PartialEqSpecImpl for CenoProjectivePoint<P> {
    open spec fn obeys_eq_spec() -> bool {
        true
    }

    open spec fn eq_spec(&self, other: &Self) -> bool {
        self@ == other@
    }
}

impl<P: ECDSAPoint> Eq for CenoProjectivePoint<P> {

}

impl<P: ECDSAPoint> Default for CenoProjectivePoint<P> {
    fn default() -> (r: Self)
        ensures
            r@ == PointView::Infinity,
    {
        Self::identity()
    }
}

} // verus!
