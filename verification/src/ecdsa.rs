//! What a point type of one curve offers to the code that is generic over
//! curves.

use crate::point::{PointView, WeierstrassPoint, FIELD_LIMBS, POINT_LIMBS};
use vstd::prelude::*;

verus! {

/// The word whose bytes, from the least significant, are bytes `4 * i` to
/// `4 * i + 3` of a little-endian byte string.
pub open spec fn le_bytes_word(bytes: Seq<u8>, i: int) -> u32 {
    crate::convert::word_of_le_bytes(
        bytes[4 * i],
        bytes[4 * i + 1],
        bytes[4 * i + 2],
        bytes[4 * i + 3],
    )
}

/// The words of a coordinate given as 32 little-endian bytes.
pub open spec fn le_bytes_words(bytes: Seq<u8>) -> Seq<u32>
    recommends
        bytes.len() == 32,
{
    Seq::new(FIELD_LIMBS as nat, |i: int| le_bytes_word(bytes, i))
}

/// Turns a coordinate of 32 little-endian bytes into its eight words.
pub fn le_bytes_to_words(bytes: &[u8]) -> (words: [u32; FIELD_LIMBS])
    requires
        bytes@.len() == 32,
    ensures
        words@ == le_bytes_words(bytes@),
{
    let mut words = [0u32; FIELD_LIMBS];
    let mut i: usize = 0;
    while i < FIELD_LIMBS
        invariant
            i <= FIELD_LIMBS,
            bytes@.len() == 32,
            forall|k: int| 0 <= k < i ==> words@[k] == le_bytes_word(bytes@, k),
        decreases FIELD_LIMBS - i,
    {
        let b0 = bytes[4 * i];
        let b1 = bytes[4 * i + 1];
        let b2 = bytes[4 * i + 2];
        let b3 = bytes[4 * i + 3];
        words[i] = (b0 as u32) | ((b1 as u32) << 8) | ((b2 as u32) << 16) | ((b3 as u32) << 24);
        i += 1;
    }
    assert(words@ =~= le_bytes_words(bytes@));
    words
}

/// An affine point type of one curve with 32-byte coordinates.
pub trait ECDSAPoint: Sized + Copy + View<V = PointView> {
    /// The words of the curve's generator.
    spec fn generator_limbs() -> Seq<u32>;

    /// The generator of the curve's group.
    fn generator() -> (r: Self)
        ensures
            r@ == PointView::Affine(Self::generator_limbs()),
    ;

    /// The affine point with the given words, unchecked.
    fn new(limbs: [u32; POINT_LIMBS]) -> (r: Self)
        ensures
            r@ == PointView::Affine(limbs@),
    ;

    /// The identity of the group.
    fn identity() -> (r: Self)
        ensures
            r@ == PointView::Infinity,
    ;

    /// The representation of the point.
    fn inner(&self) -> (r: &WeierstrassPoint)
        ensures
            r@ == self@,
    ;

    /// Whether this is the identity.
    fn is_identity(&self) -> (r: bool)
        ensures
            r == (self@ is Infinity),
    ;

    /// The affine point whose coordinates are given as 32 little-endian
    /// bytes each, unchecked.
    fn from(x: &[u8], y: &[u8]) -> (r: Self)
        requires
            x@.len() == 32,
            y@.len() == 32,
        ensures
            r@ == PointView::from_coordinates(le_bytes_words(x@), le_bytes_words(y@)),
    {
        let x_words = le_bytes_to_words(x);
        let y_words = le_bytes_to_words(y);
        let point = WeierstrassPoint::from_coordinates(&x_words, &y_words);
        Self::from_point(&point)
    }

    /// The value of this type that has the given representation.
    fn from_point(point: &WeierstrassPoint) -> (r: Self)
        ensures
            r@ == point@,
    {
        match point {
            WeierstrassPoint::Infinity => Self::identity(),
            WeierstrassPoint::Affine(limbs) => Self::new(*limbs),
        }
    }
}

} // verus!
