//! The complete addition law: a total group operation built on the
//! accelerated addition and doubling, which are defined on part of the
//! inputs only.

use crate::curve::ECDSACurve;
use crate::model::{x_of, y_of};
use crate::point::{WeierstrassPoint, POINT_LIMBS};
use vstd::prelude::*;

verus! {

/// Whether two points have the same words from `start` up to `end`.
fn same_words(a: &[u32; POINT_LIMBS], b: &[u32; POINT_LIMBS], start: usize, end: usize) -> (r:
    bool)
    requires
        start <= end <= POINT_LIMBS,
    ensures
        r == (a@.subrange(start as int, end as int) == b@.subrange(start as int, end as int)),
{
    let mut i: usize = start;
    while i < end
        invariant
            start <= i <= end <= POINT_LIMBS,
            forall|k: int| start <= k < i ==> a@[k] == b@[k],
        decreases end - i,
    {
        if a[i] != b[i] {
            assert(a@.subrange(start as int, end as int)[i - start] != b@.subrange(
                start as int,
                end as int,
            )[i - start]);
            return false;
        }
        i += 1;
    }
    assert(a@.subrange(start as int, end as int) =~= b@.subrange(start as int, end as int));
    true
}

impl WeierstrassPoint {
    /// Twice the point. The identity stays; any other point goes to the
    /// accelerated doubling.
    pub fn double<C: ECDSACurve>(&self, curve: &C) -> (r: Self)
        requires
            C::model().valid(self@),
        ensures
            r@ == C::model().double(self@),
            C::model().well_formed() ==> C::model().valid(r@),
    {
        proof {
            if C::model().well_formed() {
                C::model().lemma_double(self@);
            }
        }
        match self {
            WeierstrassPoint::Infinity => WeierstrassPoint::Infinity,
            WeierstrassPoint::Affine(limbs) => {
                let mut doubled = *limbs;
                curve.accel_double(&mut doubled);
                WeierstrassPoint::Affine(doubled)
            },
        }
    }

    /// The inverse of the point. The identity stays; any other point keeps
    /// its X and has its Y negated by the field layer.
    pub fn negate<C: ECDSACurve>(&self, curve: &C) -> (r: Self)
        ensures
            r@ == C::model().negate(self@),
            C::model().well_formed() && C::model().valid(self@) ==> C::model().valid(r@),
    {
        proof {
            if C::model().well_formed() && C::model().valid(self@) {
                C::model().lemma_negate(self@);
            }
        }
        match self {
            WeierstrassPoint::Infinity => WeierstrassPoint::Infinity,
            WeierstrassPoint::Affine(limbs) => {
                let (x, y) = self.coordinates();
                let negated = curve.field_neg(&y);
                assert(x@ == x_of(limbs@));
                assert(y@ == y_of(limbs@));
                WeierstrassPoint::from_coordinates(&x, &negated)
            },
        }
    }

    /// The sum of two points, whatever they are. In this order: if `other`
    /// is the identity the sum is `self`; if `self` is the identity it is
    /// `other`; two equal points are doubled; two points with the same X
    /// and different Y are inverses of each other and give the identity;
    /// only what is left goes to the accelerated addition. Nothing is asked
    /// of a point that is added to the identity.
    pub fn complete_add<C: ECDSACurve>(&self, curve: &C, other: &Self) -> (r: Self)
        requires
            C::model().can_add(self@, other@),
        ensures
            r@ == C::model().complete_add(self@, other@),
            C::model().valid(self@) && C::model().valid(other@) ==> C::model().valid(r@),
    {
        match (self, other) {
            (_, WeierstrassPoint::Infinity) => *self,
            (WeierstrassPoint::Infinity, _) => *other,
            (WeierstrassPoint::Affine(a), WeierstrassPoint::Affine(b)) => {
                let same_x = same_words(a, b, 0, 8);
                let same_y = same_words(a, b, 8, 16);
                proof {
                    C::model().lemma_complete_add(self@, other@);
                    C::model().lemma_on_curve_len(a@);
                    C::model().lemma_on_curve_len(b@);
                }
                if same_x && same_y {
                    let mut doubled = *a;
                    curve.accel_double(&mut doubled);
                    WeierstrassPoint::Affine(doubled)
                } else if same_x {
                    WeierstrassPoint::Infinity
                } else {
                    proof {
                        if C::model().index_of(a@) + C::model().index_of(b@) == C::model().order {
                            C::model().lemma_negated(a@);
                            C::model().lemma_limbs_of(C::model().index_of(b@));
                        }
                    }
                    let mut sum = *a;
                    curve.accel_add(&mut sum, b);
                    WeierstrassPoint::Affine(sum)
                }
            },
        }
    }
}

} // verus!
