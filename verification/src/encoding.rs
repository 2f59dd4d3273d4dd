//! The compressed form of a point: its X as 32 big-endian bytes and the
//! parity of its Y. How that pair is framed in bytes is not decided here.

use crate::convert::{be_bytes_to_le_words, le_words_of, word_of_le_bytes};
use crate::curve::ECDSACurve;
use crate::model::{is_odd, x_of, y_of, CurveModel};
use crate::point::{PointView, WeierstrassPoint, FIELD_LIMBS};
use vstd::prelude::*;

verus! {

/// A point in compressed form.
#[derive(Clone, Copy, Debug, PartialEq, Eq)]
pub enum CompressedPoint {
    /// The identity, which has no coordinates.
    Identity,
    /// X in big-endian bytes, and whether Y is odd.
    Point { x: [u8; 32], y_is_odd: bool },
}

/// What a compressed point is to the contracts.
pub enum CompressedView {
    Identity,
    Point { x: Seq<u8>, y_is_odd: bool },
}

impl View for CompressedPoint {
    type V = CompressedView;

    open spec fn view(&self) -> CompressedView {
        match *self {
            CompressedPoint::Identity => CompressedView::Identity,
            CompressedPoint::Point { x, y_is_odd } => CompressedView::Point { x: x@, y_is_odd },
        }
    }
}

/// Byte `t` of a word, byte 0 being the least significant.
pub open spec fn byte_of_word(w: u32, t: int) -> u8 {
    ((w >> ((8 * t) as u32)) & 0xff) as u8
}

/// The 32 big-endian bytes of a coordinate of eight little-endian words.
pub open spec fn be_bytes_of_words(words: Seq<u32>) -> Seq<u8>
    recommends
        words.len() == FIELD_LIMBS,
{
    Seq::new(32, |b: int| byte_of_word(words[(31 - b) / 4], (31 - b) % 4))
}

/// The compressed form of a point.
pub open spec fn compress_spec(p: PointView) -> CompressedView {
    match p {
        PointView::Infinity => CompressedView::Identity,
        PointView::Affine(a) => CompressedView::Point {
            x: be_bytes_of_words(x_of(a)),
            y_is_odd: is_odd(y_of(a)),
        },
    }
}

/// The point that a compressed form stands for on a curve, if there is one.
pub open spec fn decompress_spec(m: CurveModel, c: CompressedView) -> Option<PointView> {
    match c {
        CompressedView::Identity => Some(PointView::Infinity),
        CompressedView::Point { x, y_is_odd } => m.decompress(le_words_of(x), y_is_odd),
    }
}

/// The four bytes of a word, put together again, are the word.
proof fn lemma_word_of_its_bytes(w: u32)
    by (bit_vector)
    ensures
        ((((w >> 0u32) & 0xff) as u8) as u32) | (((((w >> 8u32) & 0xff) as u8) as u32) << 8) | (((((w
            >> 16u32) & 0xff) as u8) as u32) << 16) | (((((w >> 24u32) & 0xff) as u8) as u32) << 24)
            == w,
{
}

/// The four bytes that make a word are the bytes of that word.
proof fn lemma_bytes_of_their_word(b0: u8, b1: u8, b2: u8, b3: u8)
    by (bit_vector)
    ensures
        ((((b0 as u32) | ((b1 as u32) << 8) | ((b2 as u32) << 16) | ((b3 as u32) << 24)) >> 0u32)
            & 0xff) as u8 == b0,
        ((((b0 as u32) | ((b1 as u32) << 8) | ((b2 as u32) << 16) | ((b3 as u32) << 24)) >> 8u32)
            & 0xff) as u8 == b1,
        ((((b0 as u32) | ((b1 as u32) << 8) | ((b2 as u32) << 16) | ((b3 as u32) << 24)) >> 16u32)
            & 0xff) as u8 == b2,
        ((((b0 as u32) | ((b1 as u32) << 8) | ((b2 as u32) << 16) | ((b3 as u32) << 24)) >> 24u32)
            & 0xff) as u8 == b3,
{
}

/// The words of the bytes of a coordinate are the coordinate.
pub proof fn lemma_words_of_bytes_of_words(words: Seq<u32>)
    requires
        words.len() == FIELD_LIMBS,
    ensures
        le_words_of(be_bytes_of_words(words)) == words,
{
    let bytes = be_bytes_of_words(words);
    assert forall|i: int| 0 <= i < 8 implies le_words_of(bytes)[i] == words[i] by {
        let w = words[i];
        lemma_word_of_its_bytes(w);
        assert(bytes[31 - 4 * i] == byte_of_word(w, 0));
        assert(bytes[30 - 4 * i] == byte_of_word(w, 1));
        assert(bytes[29 - 4 * i] == byte_of_word(w, 2));
        assert(bytes[28 - 4 * i] == byte_of_word(w, 3));
    }
    assert(le_words_of(bytes) =~= words);
}

/// The bytes of the words of a 32-byte buffer are the buffer.
pub proof fn lemma_bytes_of_words_of_bytes(bytes: Seq<u8>)
    requires
        bytes.len() == 32,
    ensures
        be_bytes_of_words(le_words_of(bytes)) == bytes,
{
    let words = le_words_of(bytes);
    assert forall|b: int| 0 <= b < 32 implies be_bytes_of_words(words)[b] == bytes[b] by {
        let i = (31 - b) / 4;
        let t = (31 - b) % 4;
        lemma_bytes_of_their_word(
            bytes[31 - 4 * i],
            bytes[30 - 4 * i],
            bytes[29 - 4 * i],
            bytes[28 - 4 * i],
        );
        assert(words[i] == word_of_le_bytes(
            bytes[31 - 4 * i],
            bytes[30 - 4 * i],
            bytes[29 - 4 * i],
            bytes[28 - 4 * i],
        ));
        assert(b == 31 - 4 * i - t);
    }
    assert(be_bytes_of_words(words) =~= bytes);
}

/// Round trip: the compressed form of an element of the group
/// decompresses to that element.
pub proof fn lemma_decompress_compress(m: CurveModel, p: PointView)
    requires
        m.well_formed(),
        m.valid(p),
    ensures
        decompress_spec(m, compress_spec(p)) == Some(p),
{
    if let PointView::Affine(a) = p {
        m.lemma_on_curve_len(a);
        lemma_words_of_bytes_of_words(x_of(a));
        m.lemma_decompress_own_x(a);
    }
}

/// Turns a coordinate of eight little-endian words into 32 big-endian bytes.
pub fn le_words_to_be_bytes(words: &[u32; FIELD_LIMBS]) -> (bytes: [u8; 32])
    ensures
        bytes@ == be_bytes_of_words(words@),
{
    let mut bytes = [0u8; 32];
    let mut i: usize = 0;
    while i < FIELD_LIMBS
        invariant
            i <= FIELD_LIMBS,
            forall|b: int| 32 - 4 * i <= b < 32 ==> bytes@[b] == be_bytes_of_words(words@)[b],
        decreases FIELD_LIMBS - i,
    {
        let w = words[i];
        bytes[31 - 4 * i] = (w & 0xff) as u8;
        bytes[30 - 4 * i] = ((w >> 8) & 0xff) as u8;
        bytes[29 - 4 * i] = ((w >> 16) & 0xff) as u8;
        bytes[28 - 4 * i] = ((w >> 24) & 0xff) as u8;
        proof {
            assert((w & 0xff) as u8 == ((w >> 0u32) & 0xff) as u8) by (bit_vector);
        }
        i += 1;
    }
    assert(bytes@ =~= be_bytes_of_words(words@));
    bytes
}

impl WeierstrassPoint {
    /// The compressed form of the point: for an affine point, its X in
    /// big-endian bytes and the parity of its Y.
    pub fn compress(&self) -> (r: CompressedPoint)
        ensures
            r@ == compress_spec(self@),
    {
        match self {
            WeierstrassPoint::Infinity => CompressedPoint::Identity,
            WeierstrassPoint::Affine(limbs) => {
                let (x, y) = self.coordinates();
                let y_is_odd = y[0] % 2 == 1;
                CompressedPoint::Point { x: le_words_to_be_bytes(&x), y_is_odd }
            },
        }
    }

    /// The point that a compressed form stands for: the field layer
    /// recovers a Y for the X, and the Y of the wanted parity is taken, the
    /// recovered one or its negation. Where the curve has no point with
    /// that X there is no answer.
    pub fn decompress<C: ECDSACurve>(curve: &C, encoded: &CompressedPoint) -> (r: Option<Self>)
        ensures
            match r {
                Some(p) => decompress_spec(C::model(), encoded@) == Some(p@),
                None => decompress_spec(C::model(), encoded@) is None,
            },
            C::model().well_formed() ==> match encoded@ {
                CompressedView::Identity => r is Some,
                CompressedView::Point { x, y_is_odd } => match r {
                    Some(p) => {
                        &&& p@ matches PointView::Affine(a)
                        &&& C::model().on_curve(a)
                        &&& x_of(a) == le_words_of(x)
                        &&& is_odd(y_of(a)) == y_is_odd
                    },
                    None => forall|b: Seq<u32>|
                        C::model().on_curve(b) ==> x_of(b) != le_words_of(x),
                },
            },
    {
        match encoded {
            CompressedPoint::Identity => Some(WeierstrassPoint::Infinity),
            CompressedPoint::Point { x, y_is_odd } => {
                let x_words = be_bytes_to_le_words(x);
                proof {
                    if C::model().well_formed() {
                        C::model().lemma_decompress(x_words@, *y_is_odd);
                    }
                }
                match curve.lift_x(&x_words) {
                    None => None,
                    Some(y) => {
                        if (y[0] % 2 == 1) == *y_is_odd {
                            Some(WeierstrassPoint::from_coordinates(&x_words, &y))
                        } else {
                            let negated = curve.field_neg(&y);
                            Some(WeierstrassPoint::from_coordinates(&x_words, &negated))
                        }
                    },
                }
            },
        }
    }
}

} // verus!
