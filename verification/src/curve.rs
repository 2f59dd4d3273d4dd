//! What the layer is given for one curve: the accelerated, incomplete point
//! arithmetic and the two operations of the field layer that it needs.
//!
//! An implementation written under the verifier states the model of its
//! curve and is held to it, as `TinyCurve` is. An implementation that calls
//! an accelerator cannot be: it keeps the default model, of which nothing is
//! known, and what this crate proves of the functions that use it holds on
//! two conditions that are taken on trust, namely that this model is well
//! formed and that the methods meet their contracts with respect to it.

use crate::model::CurveModel;
use crate::point::{FIELD_LIMBS, POINT_LIMBS};
use vstd::prelude::*;

verus! {

/// Holds the model of a curve type that states none of its own, so that
/// two such types have models that are unknown independently of each other.
pub struct ModelOf<C>(pub CurveModel, pub core::marker::PhantomData<C>);

/// The capability to compute on one curve of odd prime order with 32-byte
/// coordinates: the accelerated addition and doubling, and the negation and
/// the square root of the coordinate field. The contracts of the methods
/// are stated over the model of the curve.
pub trait ECDSACurve: Sized {
    /// The model of the curve. An implementation that states none has a
    /// model of which nothing is known.
    open spec fn model() -> CurveModel {
        arbitrary::<ModelOf<Self>>().0
    }

    /// The accelerated addition: overwrites `p` with `p + q`. It is
    /// defined only for two points of the curve that are neither equal nor
    /// inverses of each other.
    fn accel_add(&self, p: &mut [u32; POINT_LIMBS], q: &[u32; POINT_LIMBS])
        requires
            Self::model().on_curve(old(p)@),
            Self::model().on_curve(q@),
            Self::model().index_of(old(p)@) != Self::model().index_of(q@),
            Self::model().index_of(old(p)@) + Self::model().index_of(q@) != Self::model().order,
        ensures
            final(p)@ == Self::model().accel_add(old(p)@, q@),
    ;

    /// The accelerated doubling: overwrites `p` with `2 * p`. It is defined
    /// only for a point of the curve.
    fn accel_double(&self, p: &mut [u32; POINT_LIMBS])
        requires
            Self::model().on_curve(old(p)@),
        ensures
            final(p)@ == Self::model().accel_double(old(p)@),
    ;

    /// The negation of a coordinate in the field.
    fn field_neg(&self, y: &[u32; FIELD_LIMBS]) -> (r: [u32; FIELD_LIMBS])
        ensures
            r@ == Self::model().neg_y(y@),
    ;

    /// A Y for an X, from a square root in the field, or nothing.
    fn lift_x(&self, x: &[u32; FIELD_LIMBS]) -> (r: Option<[u32; FIELD_LIMBS]>)
        ensures
            match r {
                Some(y) => Self::model().lift_x(x@) == Some(y@),
                None => Self::model().lift_x(x@) is None,
            },
    ;
}

} // verus!
