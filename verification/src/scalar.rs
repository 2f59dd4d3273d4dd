//! Scalar multiplication and the two-term linear combination, by doubling
//! and adding through the complete addition law.

use crate::convert::{
    be_bytes_to_le_bits, be_bytes_to_le_words, be_value, bit_of_word, le_bits_of,
    le_bits_prefix_value, le_words_of, lemma_be_value_positive, lemma_be_value_zero,
    lemma_le_bits_value, lemma_words_agree_with_bits,
};
use crate::curve::ECDSACurve;
use crate::point::WeierstrassPoint;
use vstd::arithmetic::div_mod::{lemma_add_mod_noop, lemma_mul_mod_noop_right, lemma_small_mod};
use vstd::arithmetic::power2::{lemma2_to64, lemma_pow2_unfold, pow2};
use vstd::prelude::*;

verus! {

/// Doubling a point whose index is `t * i` gives the index `(2 * t) * i`.
proof fn lemma_double_step(v: int, t: int, i: int, n: int)
    requires
        n > 0,
        v == (t * i) % n,
    ensures
        (2 * v) % n == ((2 * t) * i) % n,
{
    lemma_mul_mod_noop_right(2, t * i, n);
    assert(2 * (t * i) == (2 * t) * i) by (nonlinear_arith);
}

/// Adding the points with indices `x` and `t * i` gives the index
/// `x + t * i`, where each index is taken modulo the order.
proof fn lemma_add_step(r: int, v: int, x: int, t: int, i: int, n: int)
    requires
        n > 0,
        r == x % n,
        v == (t * i) % n,
    ensures
        (r + v) % n == (x + t * i) % n,
{
    lemma_add_mod_noop(x, t * i, n);
}

/// Whether a scalar is zero.
fn is_zero(k: &[u8; 32]) -> (r: bool)
    ensures
        r == (be_value(k@) == 0),
{
    let mut i: usize = 0;
    while i < 32
        invariant
            i <= 32,
            forall|j: int| 0 <= j < i ==> k@[j] == 0,
        decreases 32 - i,
    {
        if k[i] != 0 {
            proof {
                lemma_be_value_positive(k@, i as int, 32);
            }
            return false;
        }
        i += 1;
    }
    proof {
        lemma_be_value_zero(k@, 32);
    }
    true
}

impl WeierstrassPoint {
    /// `k` times the point, for a scalar `k` given as 32 big-endian bytes.
    /// The scalar is turned into little-endian words, and their bits, from
    /// the lowest, decide which doublings of the point are added up. Where
    /// the point is the identity or the scalar is zero the answer is the
    /// identity, with no use of the accelerated arithmetic: nothing is
    /// asked of the point or of the curve then.
    pub fn scalar_mul<C: ECDSACurve>(&self, curve: &C, k: &[u8; 32]) -> (r: Self)
        requires
            C::model().can_multiply(self@, be_value(k@)),
        ensures
            r@ == C::model().scalar_mul(self@, be_value(k@)),
            C::model().valid(r@),
    {
        let ghost m = C::model();
        let ghost n = m.order;
        let ghost i = m.value(self@);
        let ghost bits = le_bits_of(k@);
        if self.is_identity() || is_zero(k) {
            proof {
                m.lemma_scalar_mul_identity(be_value(k@));
            }
            return WeierstrassPoint::Infinity;
        }
        proof {
            m.lemma_scalar_mul(self@, be_value(k@));
            m.lemma_value(self@);
            lemma_le_bits_value(k@);
        }
        let words = be_bytes_to_le_words(k);
        let mut sum = WeierstrassPoint::Infinity;
        let mut power = *self;
        proof {
            lemma_small_mod(0, n as nat);
            lemma_small_mod(i as nat, n as nat);
            lemma2_to64();
            assert(1 * i == i);
            assert(0 * i == 0);
        }
        let mut w: usize = 0;
        while w < 8
            invariant
                w <= 8,
                m == C::model(),
                n == m.order,
                m.well_formed(),
                i == m.value(self@),
                bits == le_bits_of(k@),
                words@ == le_words_of(k@),
                m.valid(sum@),
                m.valid(power@),
                m.value(power@) == (pow2((32 * w) as nat) * i) % n,
                m.value(sum@) == (le_bits_prefix_value(bits, (32 * w) as nat) * i) % n,
            decreases 8 - w,
        {
            let word = words[w];
            let mut j: usize = 0;
            while j < 32
                invariant
                    w < 8,
                    j <= 32,
                    m == C::model(),
                    n == m.order,
                    m.well_formed(),
                    i == m.value(self@),
                    bits == le_bits_of(k@),
                    word == le_words_of(k@)[w as int],
                    m.valid(sum@),
                    m.valid(power@),
                    m.value(power@) == (pow2((32 * w + j) as nat) * i) % n,
                    m.value(sum@) == (le_bits_prefix_value(bits, (32 * w + j) as nat) * i) % n,
                decreases 32 - j,
            {
                let ghost idx = (32 * w + j) as nat;
                let ghost prefix = le_bits_prefix_value(bits, idx) as int;
                let ghost weight = pow2(idx) as int;
                let bit = (word >> j) & 1 == 1;
                proof {
                    lemma_words_agree_with_bits(k@, idx as int);
                    assert((word >> j) == (word >> (j as u32))) by (bit_vector)
                        requires
                            j < 32,
                    ;
                    assert(bit == bit_of_word(word, j as int));
                    assert(bit == bits[idx as int]);
                    assert(le_bits_prefix_value(bits, idx + 1) == prefix + if bit {
                        weight
                    } else {
                        0
                    });
                }
                if bit {
                    proof {
                        m.lemma_complete_add(sum@, power@);
                        lemma_add_step(m.value(sum@), m.value(power@), prefix * i, weight, i, n);
                        assert(prefix * i + weight * i == (prefix + weight) * i)
                            by (nonlinear_arith);
                    }
                    sum = sum.complete_add(curve, &power);
                }
                proof {
                    m.lemma_double(power@);
                    lemma_double_step(m.value(power@), weight, i, n);
                    lemma_pow2_unfold(idx + 1);
                }
                power = power.double(curve);
                j += 1;
            }
            w += 1;
        }
        proof {
            m.lemma_value(sum@);
        }
        sum
    }

    /// `a * p + b * q` in one pass: both scalars, given as 32 big-endian
    /// bytes, are turned into bits, and at each bit, from the lowest, the
    /// current doublings of `p` and of `q` are added where the bit is set.
    pub fn linear_combination<C: ECDSACurve>(
        curve: &C,
        p: &Self,
        a: &[u8; 32],
        q: &Self,
        b: &[u8; 32],
    ) -> (r: Self)
        requires
            C::model().well_formed(),
            C::model().valid(p@),
            C::model().valid(q@),
        ensures
            r@ == C::model().linear_combination(p@, be_value(a@), q@, be_value(b@)),
            r@ == C::model().complete_add(
                C::model().scalar_mul(p@, be_value(a@)),
                C::model().scalar_mul(q@, be_value(b@)),
            ),
            C::model().valid(r@),
    {
        let ghost m = C::model();
        let ghost n = m.order;
        let ghost i = m.value(p@);
        let ghost j = m.value(q@);
        let ghost a_spec = le_bits_of(a@);
        let ghost b_spec = le_bits_of(b@);
        let a_bits = be_bytes_to_le_bits(a.as_slice());
        let b_bits = be_bytes_to_le_bits(b.as_slice());
        let mut sum = WeierstrassPoint::Infinity;
        let mut power_p = *p;
        let mut power_q = *q;
        proof {
            m.lemma_value(p@);
            m.lemma_value(q@);
            lemma_small_mod(0, n as nat);
            lemma_small_mod(i as nat, n as nat);
            lemma_small_mod(j as nat, n as nat);
            lemma2_to64();
            assert(1 * i == i);
            assert(1 * j == j);
            assert(0 * i + 0 * j == 0);
        }
        let mut idx: usize = 0;
        while idx < 256
            invariant
                idx <= 256,
                m == C::model(),
                n == m.order,
                m.well_formed(),
                i == m.value(p@),
                j == m.value(q@),
                a_bits@ == a_spec,
                b_bits@ == b_spec,
                m.valid(sum@),
                m.valid(power_p@),
                m.valid(power_q@),
                m.value(power_p@) == (pow2(idx as nat) * i) % n,
                m.value(power_q@) == (pow2(idx as nat) * j) % n,
                m.value(sum@) == (le_bits_prefix_value(a_spec, idx as nat) * i
                    + le_bits_prefix_value(b_spec, idx as nat) * j) % n,
            decreases 256 - idx,
        {
            let ghost prefix_a = le_bits_prefix_value(a_spec, idx as nat) as int;
            let ghost prefix_b = le_bits_prefix_value(b_spec, idx as nat) as int;
            let ghost weight = pow2(idx as nat) as int;
            let ghost next_a = le_bits_prefix_value(a_spec, (idx + 1) as nat) as int;
            if a_bits[idx] {
                proof {
                    m.lemma_complete_add(sum@, power_p@);
                    lemma_add_step(
                        m.value(sum@),
                        m.value(power_p@),
                        prefix_a * i + prefix_b * j,
                        weight,
                        i,
                        n,
                    );
                    assert(prefix_a * i + prefix_b * j + weight * i == (prefix_a + weight) * i
                        + prefix_b * j) by (nonlinear_arith);
                }
                sum = sum.complete_add(curve, &power_p);
            }
            assert(m.value(sum@) == (next_a * i + prefix_b * j) % n);
            if b_bits[idx] {
                proof {
                    m.lemma_complete_add(sum@, power_q@);
                    lemma_add_step(
                        m.value(sum@),
                        m.value(power_q@),
                        next_a * i + prefix_b * j,
                        weight,
                        j,
                        n,
                    );
                    assert(next_a * i + prefix_b * j + weight * j == next_a * i + (prefix_b
                        + weight) * j) by (nonlinear_arith);
                }
                sum = sum.complete_add(curve, &power_q);
            }
            proof {
                m.lemma_double(power_p@);
                m.lemma_double(power_q@);
                lemma_double_step(m.value(power_p@), weight, i, n);
                lemma_double_step(m.value(power_q@), weight, j, n);
                lemma_pow2_unfold((idx + 1) as nat);
            }
            power_p = power_p.double(curve);
            power_q = power_q.double(curve);
            idx += 1;
        }
        proof {
            let ka = be_value(a@);
            let kb = be_value(b@);
            lemma_le_bits_value(a@);
            lemma_le_bits_value(b@);
            m.lemma_scalar_mul(p@, ka);
            m.lemma_scalar_mul(q@, kb);
            m.lemma_complete_add(m.scalar_mul(p@, ka), m.scalar_mul(q@, kb));
            lemma_add_mod_noop(ka * i, kb * j, n);
            m.lemma_value(sum@);
        }
        sum
    }
}

} // verus!
