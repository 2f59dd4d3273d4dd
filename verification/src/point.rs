//! The representation of a curve point: the point at infinity, or sixteen
//! little-endian words, eight for X and then eight for Y.

use crate::ct::{ct_eq_words, ct_select_word};
use vstd::prelude::*;

verus! {

/// Number of words in one coordinate.
pub const FIELD_LIMBS: usize = 8;

/// Number of words in an affine point: X, then Y.
pub const POINT_LIMBS: usize = 16;

/// A point of a short Weierstrass curve. No function of this crate checks
/// that the words of an `Affine` value satisfy a curve equation.
#[derive(Clone, Copy, Debug, PartialEq, Eq)]
pub enum WeierstrassPoint {
    /// The identity of the group.
    Infinity,
    /// X in words 0 to 7 and Y in words 8 to 15, each least significant word first.
    Affine([u32; POINT_LIMBS]),
}

/// What a point is to the contracts: its tag and, where it has them, the
/// sequence of its words.
pub enum PointView {
    Infinity,
    Affine(Seq<u32>),
}

impl PointView {
    /// The point with the given coordinates.
    pub open spec fn from_coordinates(x: Seq<u32>, y: Seq<u32>) -> PointView {
        PointView::Affine(x + y)
    }

    /// The words of X. Meaningless at infinity.
    pub open spec fn x(self) -> Seq<u32> {
        self->Affine_0.subrange(0, FIELD_LIMBS as int)
    }

    /// The words of Y. Meaningless at infinity.
    pub open spec fn y(self) -> Seq<u32> {
        self->Affine_0.subrange(FIELD_LIMBS as int, POINT_LIMBS as int)
    }
}

impl View for WeierstrassPoint {
    type V = PointView;

    open spec fn view(&self) -> PointView {
        match *self {
            WeierstrassPoint::Infinity => PointView::Infinity,
            WeierstrassPoint::Affine(limbs) => PointView::Affine(limbs@),
        }
    }
}

/// A point as seventeen words: the tag (1 for an affine point), then the
/// words of the point, which are all zero at infinity.
pub open spec fn tagged(p: PointView) -> Seq<u32> {
    match p {
        PointView::Infinity => Seq::new(17, |i: int| 0u32),
        PointView::Affine(limbs) => seq![1u32] + limbs,
    }
}

/// Two points have the same seventeen words only if they are the same point.
proof fn lemma_tagged_injective(p: PointView, q: PointView)
    ensures
        (tagged(p) == tagged(q)) == (p == q),
{
    if tagged(p) == tagged(q) {
        match (p, q) {
            (PointView::Affine(a), PointView::Affine(b)) => {
                assert(a =~= tagged(p).subrange(1, tagged(p).len() as int));
                assert(b =~= tagged(q).subrange(1, tagged(q).len() as int));
            },
            (PointView::Affine(a), PointView::Infinity) => {
                assert(tagged(p)[0] == 1);
                assert(tagged(q)[0] == 0);
            },
            (PointView::Infinity, PointView::Affine(b)) => {
                assert(tagged(p)[0] == 0);
                assert(tagged(q)[0] == 1);
            },
            (PointView::Infinity, PointView::Infinity) => {},
        }
    }
}

impl WeierstrassPoint {
    /// The identity of the group.
    pub fn identity() -> (r: Self)
        ensures
            r@ == PointView::Infinity,
    {
        WeierstrassPoint::Infinity
    }

    /// Whether this is the identity.
    pub fn is_identity(&self) -> (r: bool)
        ensures
            r == (self@ is Infinity),
    {
        match self {
            WeierstrassPoint::Infinity => true,
            WeierstrassPoint::Affine(_) => false,
        }
    }

    /// The affine point with the given coordinates, unchecked.
    pub fn from_coordinates(x: &[u32; FIELD_LIMBS], y: &[u32; FIELD_LIMBS]) -> (r: Self)
        ensures
            r@ == PointView::from_coordinates(x@, y@),
    {
        let mut limbs = [0u32; POINT_LIMBS];
        let mut i: usize = 0;
        while i < FIELD_LIMBS
            invariant
                i <= FIELD_LIMBS,
                forall|k: int| 0 <= k < i ==> limbs@[k] == x@[k],
                forall|k: int| 0 <= k < i ==> limbs@[FIELD_LIMBS + k] == y@[k],
            decreases FIELD_LIMBS - i,
        {
            limbs[i] = x[i];
            limbs[FIELD_LIMBS + i] = y[i];
            i += 1;
        }
        assert(limbs@ =~= x@ + y@);
        WeierstrassPoint::Affine(limbs)
    }

    /// The coordinates of an affine point. The identity has none.
    pub fn coordinates(&self) -> (r: ([u32; FIELD_LIMBS], [u32; FIELD_LIMBS]))
        requires
            self@ is Affine,
        ensures
            r.0@ == self@.x(),
            r.1@ == self@.y(),
    {
        let mut x = [0u32; FIELD_LIMBS];
        let mut y = [0u32; FIELD_LIMBS];
        match self {
            WeierstrassPoint::Infinity => {},
            WeierstrassPoint::Affine(limbs) => {
                let mut i: usize = 0;
                while i < FIELD_LIMBS
                    invariant
                        i <= FIELD_LIMBS,
                        forall|k: int| 0 <= k < i ==> x@[k] == limbs@[k],
                        forall|k: int| 0 <= k < i ==> y@[k] == limbs@[FIELD_LIMBS + k],
                    decreases FIELD_LIMBS - i,
                {
                    x[i] = limbs[i];
                    y[i] = limbs[FIELD_LIMBS + i];
                    i += 1;
                }
                assert(x@ =~= self@.x());
                assert(y@ =~= self@.y());
            },
        }
        (x, y)
    }

    /// The tag as a word (1 for an affine point), then the words, which are
    /// all zero at infinity.
    fn tagged_limbs(&self) -> (r: [u32; 17])
        ensures
            r@ == tagged(self@),
    {
        let mut r = [0u32; 17];
        match self {
            WeierstrassPoint::Infinity => {},
            WeierstrassPoint::Affine(limbs) => {
                r[0] = 1;
                let mut i: usize = 0;
                while i < POINT_LIMBS
                    invariant
                        i <= POINT_LIMBS,
                        r@[0] == 1,
                        forall|k: int| 0 <= k < i ==> r@[1 + k] == limbs@[k],
                    decreases POINT_LIMBS - i,
                {
                    r[1 + i] = limbs[i];
                    i += 1;
                }
            },
        }
        assert(r@ =~= tagged(self@));
        r
    }

    /// Whether two points have the same representation: the same tag and,
    /// for two affine points, the same words. Every word is compared,
    /// whatever the earlier ones were.
    pub fn constant_time_equal(&self, other: &Self) -> (r: bool)
        ensures
            r == (self@ == other@),
    {
        let a = self.tagged_limbs();
        let b = other.tagged_limbs();
        proof {
            lemma_tagged_injective(self@, other@);
        }
        ct_eq_words(a.as_slice(), b.as_slice())
    }

    /// `b` if the flag is set and `a` if it is not, chosen word by word with
    /// masks, the tag included.
    pub fn conditional_select(a: &Self, b: &Self, flag: bool) -> (r: Self)
        ensures
            r@ == (if flag {
                b@
            } else {
                a@
            }),
    {
        let words_a = a.tagged_limbs();
        let words_b = b.tagged_limbs();
        let mut words = [0u32; 17];
        let mut i: usize = 0;
        while i < 17
            invariant
                i <= 17,
                forall|k: int|
                    0 <= k < i ==> words@[k] == (if flag {
                        words_b@[k]
                    } else {
                        words_a@[k]
                    }),
            decreases 17 - i,
        {
            words[i] = ct_select_word(words_a[i], words_b[i], flag);
            i += 1;
        }
        let mut limbs = [0u32; POINT_LIMBS];
        let mut j: usize = 0;
        while j < POINT_LIMBS
            invariant
                j <= POINT_LIMBS,
                forall|k: int| 0 <= k < j ==> limbs@[k] == words@[1 + k],
            decreases POINT_LIMBS - j,
        {
            limbs[j] = words[1 + j];
            j += 1;
        }
        proof {
            let chosen = if flag {
                b@
            } else {
                a@
            };
            assert(words@ =~= tagged(chosen));
            if let PointView::Affine(l) = chosen {
                assert(limbs@ =~= l);
            }
        }
        if words[0] == 1 {
            WeierstrassPoint::Affine(limbs)
        } else {
            WeierstrassPoint::Infinity
        }
    }
}

} // verus!
