//! Conversions between the big-endian byte form in which scalars and
//! coordinates cross the boundary and the little-endian word and bit forms
//! that the curve arithmetic works on.

use vstd::arithmetic::power2::{lemma2_to64, lemma_pow2_adds, pow2};
use vstd::prelude::*;

verus! {

/// Bit `j` of a byte, bit 0 being the least significant.
pub open spec fn bit_of_byte(b: u8, j: int) -> bool {
    (b >> (j as u8)) & 1 == 1
}

/// Bit `j` of a word, bit 0 being the least significant.
pub open spec fn bit_of_word(w: u32, j: int) -> bool {
    (w >> (j as u32)) & 1 == 1
}

/// The word whose bytes, from the least significant, are `b0`, `b1`, `b2`, `b3`.
pub open spec fn word_of_le_bytes(b0: u8, b1: u8, b2: u8, b3: u8) -> u32 {
    (b0 as u32) | ((b1 as u32) << 8) | ((b2 as u32) << 16) | ((b3 as u32) << 24)
}

/// The value of the `m` least significant bytes of a big-endian byte string.
pub open spec fn be_suffix_value(bytes: Seq<u8>, m: nat) -> nat
    decreases m,
{
    if m == 0 {
        0
    } else {
        be_suffix_value(bytes, (m - 1) as nat) + bytes[bytes.len() - m] as nat * pow2(
            (8 * (m - 1)) as nat,
        )
    }
}

/// The number that a big-endian byte string denotes.
pub open spec fn be_value(bytes: Seq<u8>) -> nat {
    be_suffix_value(bytes, bytes.len())
}

/// The value of the first `m` bits of a little-endian bit sequence.
pub open spec fn le_bits_prefix_value(bits: Seq<bool>, m: nat) -> nat
    decreases m,
{
    if m == 0 {
        0
    } else {
        le_bits_prefix_value(bits, (m - 1) as nat) + if bits[m - 1] {
            pow2((m - 1) as nat)
        } else {
            0
        }
    }
}

/// The number that a little-endian bit sequence denotes.
pub open spec fn le_bits_value(bits: Seq<bool>) -> nat {
    le_bits_prefix_value(bits, bits.len())
}

/// The value of the first `m` words of a little-endian word sequence.
pub open spec fn le_words_prefix_value(words: Seq<u32>, m: nat) -> nat
    decreases m,
{
    if m == 0 {
        0
    } else {
        le_words_prefix_value(words, (m - 1) as nat) + words[m - 1] as nat * pow2(
            (32 * (m - 1)) as nat,
        )
    }
}

/// The number that a little-endian word sequence denotes.
pub open spec fn le_words_value(words: Seq<u32>) -> nat {
    le_words_prefix_value(words, words.len())
}

/// The eight little-endian words of a 32-byte big-endian string: word 0 is
/// made of the last four bytes, the last byte being its least significant.
pub open spec fn le_words_of(bytes: Seq<u8>) -> Seq<u32>
    recommends
        bytes.len() == 32,
{
    Seq::new(
        8,
        |i: int|
            word_of_le_bytes(
                bytes[31 - 4 * i],
                bytes[30 - 4 * i],
                bytes[29 - 4 * i],
                bytes[28 - 4 * i],
            ),
    )
}

/// The 256 little-endian bits of a big-endian string of at most 32 bytes:
/// bit 0 is the least significant bit of the last byte, and the bits beyond
/// the string are clear.
pub open spec fn le_bits_of(bytes: Seq<u8>) -> Seq<bool>
    recommends
        bytes.len() <= 32,
{
    Seq::new(
        256,
        |i: int| i / 8 < bytes.len() && bit_of_byte(bytes[bytes.len() - 1 - i / 8], i % 8),
    )
}

/// Turns a 32-byte big-endian buffer into eight little-endian words, least
/// significant word first.
pub fn be_bytes_to_le_words(bytes: &[u8; 32]) -> (words: [u32; 8])
    ensures
        words@ == le_words_of(bytes@),
{
    let mut words = [0u32; 8];
    let mut i: usize = 0;
    while i < 8
        invariant
            i <= 8,
            forall|k: int| 0 <= k < i ==> words@[k] == le_words_of(bytes@)[k],
        decreases 8 - i,
    {
        let b0 = bytes[31 - 4 * i];
        let b1 = bytes[30 - 4 * i];
        let b2 = bytes[29 - 4 * i];
        let b3 = bytes[28 - 4 * i];
        words[i] = (b0 as u32) | ((b1 as u32) << 8) | ((b2 as u32) << 16) | ((b3 as u32) << 24);
        i += 1;
    }
    assert(words@ =~= le_words_of(bytes@));
    words
}

/// Expands a big-endian buffer of at most 32 bytes into 256 bits, the least
/// significant bit of the last byte first.
pub fn be_bytes_to_le_bits(be_bytes: &[u8]) -> (bits: [bool; 256])
    requires
        be_bytes@.len() <= 32,
    ensures
        bits@ == le_bits_of(be_bytes@),
{
    let mut bits = [false; 256];
    let n = be_bytes.len();
    let mut i: usize = 0;
    while i < n
        invariant
            n == be_bytes@.len(),
            n <= 32,
            i <= n,
            forall|k: int| 0 <= k < 8 * i ==> bits@[k] == le_bits_of(be_bytes@)[k],
            forall|k: int| 8 * i <= k < 256 ==> !bits@[k],
        decreases n - i,
    {
        let byte = be_bytes[n - 1 - i];
        let mut j: usize = 0;
        while j < 8
            invariant
                n == be_bytes@.len(),
                n <= 32,
                i < n,
                j <= 8,
                byte == be_bytes@[n - 1 - i],
                forall|k: int| 0 <= k < 8 * i + j ==> bits@[k] == le_bits_of(be_bytes@)[k],
                forall|k: int| 8 * i + j <= k < 256 ==> !bits@[k],
            decreases 8 - j,
        {
            bits[i * 8 + j] = ((byte >> j) & 1) == 1;
            assert((byte >> j) == (byte >> (j as u8))) by (bit_vector)
                requires
                    j < 8,
            ;
            j += 1;
        }
        i += 1;
    }
    assert(bits@ =~= le_bits_of(be_bytes@));
    bits
}

/// A word made of four bytes has the bits of those bytes, in order.
proof fn lemma_word_bits(b0: u8, b1: u8, b2: u8, b3: u8, j: u32)
    by (bit_vector)
    requires
        j < 32,
    ensures
        ((((b0 as u32) | ((b1 as u32) << 8) | ((b2 as u32) << 16) | ((b3 as u32) << 24)) >> j) & 1
            == 1) == (if j < 8 {
            (b0 >> (j as u8)) & 1 == 1
        } else if j < 16 {
            (b1 >> ((j - 8) as u8)) & 1 == 1
        } else if j < 24 {
            (b2 >> ((j - 16) as u8)) & 1 == 1
        } else {
            (b3 >> ((j - 24) as u8)) & 1 == 1
        }),
{
}

/// The word form and the bit form of one 32-byte buffer agree bit for bit:
/// bit `i` of the scalar is bit `i % 32` of word `i / 32`.
pub proof fn lemma_words_agree_with_bits(bytes: Seq<u8>, i: int)
    requires
        bytes.len() == 32,
        0 <= i < 256,
    ensures
        le_bits_of(bytes)[i] == bit_of_word(le_words_of(bytes)[i / 32], i % 32),
{
    let w = i / 32;
    let j = i % 32;
    let b0 = bytes[31 - 4 * w];
    let b1 = bytes[30 - 4 * w];
    let b2 = bytes[29 - 4 * w];
    let b3 = bytes[28 - 4 * w];
    lemma_word_bits(b0, b1, b2, b3, j as u32);
    assert(le_words_of(bytes)[w] == word_of_le_bytes(b0, b1, b2, b3));
    assert(i / 8 == 4 * w + j / 8);
    assert(i % 8 == j % 8);
    if j < 8 {
        assert(((j as u32) as u8) as int == j % 8);
    } else if j < 16 {
        assert((((j as u32) - 8) as u8) as int == j % 8);
    } else if j < 24 {
        assert((((j as u32) - 16) as u8) as int == j % 8);
    } else {
        assert((((j as u32) - 24) as u8) as int == j % 8);
    }
}

/// A byte is the sum of its bits, each weighted by its power of two.
proof fn lemma_byte_is_sum_of_bits(b: u8)
    by (bit_vector)
    ensures
        b as u32 == ((b >> 0u8) & 1) as u32 + 2 * (((b >> 1u8) & 1) as u32) + 4 * (((b >> 2u8)
            & 1) as u32) + 8 * (((b >> 3u8) & 1) as u32) + 16 * (((b >> 4u8) & 1) as u32) + 32 * (((b
            >> 5u8) & 1) as u32) + 64 * (((b >> 6u8) & 1) as u32) + 128 * (((b >> 7u8) & 1) as u32),
        (b >> 0u8) & 1 <= 1,
        (b >> 1u8) & 1 <= 1,
        (b >> 2u8) & 1 <= 1,
        (b >> 3u8) & 1 <= 1,
        (b >> 4u8) & 1 <= 1,
        (b >> 5u8) & 1 <= 1,
        (b >> 6u8) & 1 <= 1,
        (b >> 7u8) & 1 <= 1,
{
}

/// Multiplication by `p` distributes over `a + c * b`.
proof fn lemma_scaled_sum(a: nat, c: nat, b: nat, p: nat)
    by (nonlinear_arith)
    ensures
        (a + c * b) * p == a * p + c * (b * p),
{
}

/// What one bit adds to a value: its weight if it is set.
spec fn bit_term(bit: bool, weight: nat) -> nat {
    if bit {
        weight
    } else {
        0
    }
}

/// A byte weighted by `c * p` is `c` times the byte weighted by `p`.
proof fn lemma_weight_commutes(b: nat, c: nat, p: nat)
    by (nonlinear_arith)
    ensures
        b * (c * p) == c * (b * p),
{
}

/// A bit times `p` is `p` if the bit is set.
proof fn lemma_bit_times(e: nat, p: nat)
    by (nonlinear_arith)
    requires
        e <= 1,
    ensures
        e * p == bit_term(e == 1, p),
{
}

/// The bits of one byte, each weighted by `p` times its power of two, add
/// up to the byte times `p`.
proof fn lemma_weighted_byte(b: u8, p: nat)
    ensures
        b as nat * p == bit_term(bit_of_byte(b, 0), p) + bit_term(bit_of_byte(b, 1), 2 * p)
            + bit_term(bit_of_byte(b, 2), 4 * p) + bit_term(bit_of_byte(b, 3), 8 * p) + bit_term(
            bit_of_byte(b, 4),
            16 * p,
        ) + bit_term(bit_of_byte(b, 5), 32 * p) + bit_term(bit_of_byte(b, 6), 64 * p) + bit_term(
            bit_of_byte(b, 7),
            128 * p,
        ),
{
    lemma_byte_is_sum_of_bits(b);
    let e0 = ((b >> 0u8) & 1) as nat;
    let e1 = ((b >> 1u8) & 1) as nat;
    let e2 = ((b >> 2u8) & 1) as nat;
    let e3 = ((b >> 3u8) & 1) as nat;
    let e4 = ((b >> 4u8) & 1) as nat;
    let e5 = ((b >> 5u8) & 1) as nat;
    let e6 = ((b >> 6u8) & 1) as nat;
    let e7 = ((b >> 7u8) & 1) as nat;
    let s1 = e0 + 2 * e1;
    let s2 = s1 + 4 * e2;
    let s3 = s2 + 8 * e3;
    let s4 = s3 + 16 * e4;
    let s5 = s4 + 32 * e5;
    let s6 = s5 + 64 * e6;
    lemma_scaled_sum(e0, 2, e1, p);
    lemma_scaled_sum(s1, 4, e2, p);
    lemma_scaled_sum(s2, 8, e3, p);
    lemma_scaled_sum(s3, 16, e4, p);
    lemma_scaled_sum(s4, 32, e5, p);
    lemma_scaled_sum(s5, 64, e6, p);
    lemma_scaled_sum(s6, 128, e7, p);
    assert(b as nat == s6 + 128 * e7);
    lemma_bit_times(e0, p);
    lemma_bit_times(e1, p);
    lemma_bit_times(e2, p);
    lemma_bit_times(e3, p);
    lemma_bit_times(e4, p);
    lemma_bit_times(e5, p);
    lemma_bit_times(e6, p);
    lemma_bit_times(e7, p);
}

/// Eight more bits of the bit form add one more byte of the byte form.
proof fn lemma_le_bits_byte_step(bytes: Seq<u8>, m: nat)
    requires
        bytes.len() <= 32,
        1 <= m <= bytes.len(),
    ensures
        le_bits_prefix_value(le_bits_of(bytes), 8 * m) == le_bits_prefix_value(
            le_bits_of(bytes),
            (8 * (m - 1)) as nat,
        ) + bytes[bytes.len() - m] as nat * pow2((8 * (m - 1)) as nat),
{
    let bits = le_bits_of(bytes);
    let base = 8 * (m - 1);
    let b = bytes[bytes.len() - m];
    let p = pow2(base as nat);
    reveal_with_fuel(le_bits_prefix_value, 9);
    lemma2_to64();
    lemma_pow2_adds(base as nat, 0);
    lemma_pow2_adds(base as nat, 1);
    lemma_pow2_adds(base as nat, 2);
    lemma_pow2_adds(base as nat, 3);
    lemma_pow2_adds(base as nat, 4);
    lemma_pow2_adds(base as nat, 5);
    lemma_pow2_adds(base as nat, 6);
    lemma_pow2_adds(base as nat, 7);
    assert forall|j: int| 0 <= j < 8 implies #[trigger] bits[base + j] == bit_of_byte(b, j) by {
        assert((base + j) / 8 == m - 1);
        assert((base + j) % 8 == j);
    }
    assert(bits[base + 0] == bit_of_byte(b, 0));
    assert(bits[base + 1] == bit_of_byte(b, 1));
    assert(bits[base + 2] == bit_of_byte(b, 2));
    assert(bits[base + 3] == bit_of_byte(b, 3));
    assert(bits[base + 4] == bit_of_byte(b, 4));
    assert(bits[base + 5] == bit_of_byte(b, 5));
    assert(bits[base + 6] == bit_of_byte(b, 6));
    assert(bits[base + 7] == bit_of_byte(b, 7));
    lemma_weighted_byte(b, p);
    assert(pow2((base + 1) as nat) == 2 * p);
    assert(pow2((base + 2) as nat) == 4 * p);
    assert(pow2((base + 3) as nat) == 8 * p);
    assert(pow2((base + 4) as nat) == 16 * p);
    assert(pow2((base + 5) as nat) == 32 * p);
    assert(pow2((base + 6) as nat) == 64 * p);
    assert(pow2((base + 7) as nat) == 128 * p);
}

/// The first `8 * m` bits of the bit form denote what the last `m` bytes do.
proof fn lemma_le_bits_prefix(bytes: Seq<u8>, m: nat)
    requires
        bytes.len() <= 32,
        m <= bytes.len(),
    ensures
        le_bits_prefix_value(le_bits_of(bytes), 8 * m) == be_suffix_value(bytes, m),
    decreases m,
{
    if m > 0 {
        lemma_le_bits_prefix(bytes, (m - 1) as nat);
        lemma_le_bits_byte_step(bytes, m);
    }
}

/// Clear bits beyond the buffer add nothing.
proof fn lemma_le_bits_clear_tail(bytes: Seq<u8>, k: nat)
    requires
        bytes.len() <= 32,
        8 * bytes.len() <= k <= 256,
    ensures
        le_bits_prefix_value(le_bits_of(bytes), k) == le_bits_prefix_value(
            le_bits_of(bytes),
            8 * bytes.len(),
        ),
    decreases k,
{
    if k > 8 * bytes.len() {
        lemma_le_bits_clear_tail(bytes, (k - 1) as nat);
        assert((k - 1) / 8 >= bytes.len() as int);
    }
}

/// The bit form of a buffer denotes the same number as the buffer.
pub proof fn lemma_le_bits_value(bytes: Seq<u8>)
    requires
        bytes.len() <= 32,
    ensures
        le_bits_value(le_bits_of(bytes)) == be_value(bytes),
{
    lemma_le_bits_prefix(bytes, bytes.len());
    lemma_le_bits_clear_tail(bytes, 256);
}

/// A buffer of zero bytes denotes zero.
pub proof fn lemma_be_value_zero(bytes: Seq<u8>, m: nat)
    requires
        m <= bytes.len(),
        forall|i: int| 0 <= i < bytes.len() ==> bytes[i] == 0,
    ensures
        be_suffix_value(bytes, m) == 0,
    decreases m,
{
    if m > 0 {
        lemma_be_value_zero(bytes, (m - 1) as nat);
        assert(bytes[bytes.len() - m] == 0);
        assert(0 * pow2((8 * (m - 1)) as nat) == 0);
    }
}

/// A buffer with a nonzero byte denotes a positive number.
pub proof fn lemma_be_value_positive(bytes: Seq<u8>, i: int, m: nat)
    requires
        0 <= i < bytes.len(),
        bytes[i] != 0,
        bytes.len() - i <= m <= bytes.len(),
    ensures
        be_suffix_value(bytes, m) > 0,
    decreases m,
{
    let weight = pow2((8 * (m - 1)) as nat);
    vstd::arithmetic::power2::lemma_pow2_pos((8 * (m - 1)) as nat);
    if m == bytes.len() - i {
        assert(bytes[i] as nat * weight > 0) by (nonlinear_arith)
            requires
                bytes[i] > 0,
                weight > 0,
        ;
    } else {
        lemma_be_value_positive(bytes, i, (m - 1) as nat);
        assert(bytes[bytes.len() - m] as nat * weight >= 0) by (nonlinear_arith);
    }
}

/// A word is the sum of its four bytes, each weighted by its power of 256.
proof fn lemma_word_is_sum_of_bytes(b0: u8, b1: u8, b2: u8, b3: u8)
    by (bit_vector)
    ensures
        ((b0 as u32) | ((b1 as u32) << 8) | ((b2 as u32) << 16) | ((b3 as u32) << 24)) as u64
            == b0 as u64 + 256 * (b1 as u64) + 65536 * (b2 as u64) + 16777216 * (b3 as u64),
{
}

/// The first `m` words of the word form denote what the last `4 * m` bytes do.
proof fn lemma_le_words_prefix(bytes: Seq<u8>, m: nat)
    requires
        bytes.len() == 32,
        m <= 8,
    ensures
        le_words_prefix_value(le_words_of(bytes), m) == be_suffix_value(bytes, 4 * m),
    decreases m,
{
    if m > 0 {
        lemma_le_words_prefix(bytes, (m - 1) as nat);
        let i = (m - 1) as int;
        let b0 = bytes[31 - 4 * i];
        let b1 = bytes[30 - 4 * i];
        let b2 = bytes[29 - 4 * i];
        let b3 = bytes[28 - 4 * i];
        let base = (32 * (m - 1)) as nat;
        let p = pow2(base);
        let w = le_words_of(bytes)[i];
        lemma_word_is_sum_of_bytes(b0, b1, b2, b3);
        assert(w as nat == b0 as nat + 256 * (b1 as nat) + 65536 * (b2 as nat) + 16777216 * (
        b3 as nat));
        reveal_with_fuel(be_suffix_value, 5);
        lemma2_to64();
        lemma_pow2_adds(base, 8);
        lemma_pow2_adds(base, 16);
        lemma_pow2_adds(base, 24);
        assert((8 * (4 * m - 1)) as nat == base + 24);
        assert((8 * (4 * m - 2)) as nat == base + 16);
        assert((8 * (4 * m - 3)) as nat == base + 8);
        assert((8 * (4 * m - 4)) as nat == base);
        let s1 = b0 as nat + 256 * (b1 as nat);
        let s2 = s1 + 65536 * (b2 as nat);
        lemma_scaled_sum(b0 as nat, 256, b1 as nat, p);
        lemma_scaled_sum(s1, 65536, b2 as nat, p);
        lemma_scaled_sum(s2, 16777216, b3 as nat, p);
        lemma_weight_commutes(b1 as nat, 256, p);
        lemma_weight_commutes(b2 as nat, 65536, p);
        lemma_weight_commutes(b3 as nat, 16777216, p);
    }
}

/// The word form of a buffer denotes the same number as the buffer.
pub proof fn lemma_le_words_value(bytes: Seq<u8>)
    requires
        bytes.len() == 32,
    ensures
        le_words_value(le_words_of(bytes)) == be_value(bytes),
{
    lemma_le_words_prefix(bytes, 8);
}

} // verus!
