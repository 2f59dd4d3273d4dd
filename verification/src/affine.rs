//! The affine point of a curve as the group algebra sees it.

use crate::ecdsa::ECDSAPoint;
use crate::point::{PointView, WeierstrassPoint};
use vstd::prelude::*;

verus! {

/// An affine point of the curve whose point type is `P`.
#[derive(Clone, Copy, Debug)]
pub struct CenoAffinePoint<P: ECDSAPoint> {
    /// The point of the curve.
    pub inner: P,
}

impl<P: ECDSAPoint> View for CenoAffinePoint<P> {
    type V = PointView;

    open spec fn view(&self) -> PointView {
        self.inner@
    }
}

impl<P: ECDSAPoint> CenoAffinePoint<P> {
    /// The identity of the group.
    pub fn identity() -> (r: Self)
        ensures
            r@ == PointView::Infinity,
    {
        CenoAffinePoint { inner: P::identity() }
    }

    /// The generator of the curve's group.
    pub fn generator() -> (r: Self)
        ensures
            r@ == PointView::Affine(P::generator_limbs()),
    {
        CenoAffinePoint { inner: P::generator() }
    }

    /// Whether this is the identity.
    pub fn is_identity(&self) -> (r: bool)
        ensures
            r == (self@ is Infinity),
    {
        self.inner.is_identity()
    }

    /// The affine point with the given representation.
    pub fn from_point(point: &WeierstrassPoint) -> (r: Self)
        ensures
            r@ == point@,
    {
        CenoAffinePoint { inner: P::from_point(point) }
    }

    /// The representation of the point.
    pub fn to_point(&self) -> (r: WeierstrassPoint)
        ensures
            r@ == self@,
    {
        *self.inner.inner()
    }
}

} // verus!
