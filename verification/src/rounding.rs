//! Scalar rounding: the power-of-two split of public values, the high/low
//! decomposition into 16 buckets, and hint bits that let a verifier
//! reconstruct high buckets without the secret low part.

use vstd::prelude::*;
use vstd::arithmetic::div_mod::{
    lemma_fundamental_div_mod, lemma_fundamental_div_mod_converse_div,
};

use crate::params::{congq, Q};

verus! {

/// High part of the power-of-two split: round(a / 2^13) with the
/// remainder constrained to (-2^12, 2^12].
pub open spec fn p2r_high(a: int) -> int {
    (a + 4095) / 8192
}

/// Low part of the power-of-two split.
pub open spec fn p2r_low(a: int) -> int {
    a - p2r_high(a) * 8192
}

/// Unwrapped bucket index of the high/low decomposition: round(a / (2 * GAMMA2)).
pub open spec fn dc_hi0(a: int) -> int {
    (a + 261887) / 523776
}

/// Bucket index of the decomposition; the boundary bucket wraps to 0.
pub open spec fn dc_high(a: int) -> int {
    if dc_hi0(a) == 16 {
        0
    } else {
        dc_hi0(a)
    }
}

/// Centered remainder of the decomposition; in the boundary bucket it is
/// taken relative to Q.
pub open spec fn dc_low(a: int) -> int {
    if dc_hi0(a) == 16 {
        a - (Q as int)
    } else {
        a - dc_hi0(a) * 523776
    }
}

/// The hint bit: set exactly when the low part sits within one unit of a
/// bucket boundary.
pub open spec fn hint_bit(a0: int, a1: int) -> int {
    if a0 > 261888 || a0 < -261888 || (a0 == -261888 && a1 != 0) {
        1
    } else {
        0
    }
}

/// The high bucket a verifier reconstructs from a value and a hint bit.
pub open spec fn use_hint_spec(a: int, h: int) -> int {
    if h == 0 {
        dc_high(a)
    } else if dc_low(a) > 0 {
        (dc_high(a) + 1) % 16
    } else {
        (dc_high(a) + 15) % 16
    }
}

proof fn lemma_p2r_bits(a: i32)
    by (bit_vector)
    requires
        -4 <= a <= 8380420,
    ensures
        0 <= (a + 4095) as i32 >> 13 <= 1023,
        ((a + 4095) as i32 >> 13) << 13 == ((a + 4095) as i32 >> 13) * 8192,
        -4095 <= a - (((a + 4095) as i32 >> 13) << 13) <= 4096,
{
}

/// Splits a into (a0, a1) with a == a1 * 2^13 + a0 and a0 in (-2^12, 2^12].
pub fn power2round(a: i32) -> (r: (i32, i32))
    requires
        -4 <= a <= 8380420,
    ensures
        r.1 == p2r_high(a as int),
        r.0 == p2r_low(a as int),
        a == r.1 * 8192 + r.0,
        -4095 <= r.0 <= 4096,
        0 <= r.1 <= 1023,
{
    proof {
        lemma_p2r_bits(a);
    }
    let a1: i32 = (a + 4095) >> 13;
    let a0: i32 = a - (a1 << 13);
    proof {
        lemma_fundamental_div_mod_converse_div(
            a + 4095,
            8192,
            a1 as int,
            a + 4095 - a1 * 8192,
        );
    }
    (a0, a1)
}

spec fn dc_t1(a: i32) -> i32 {
    ((a + 127) as i32) >> 7
}

spec fn dc_t2(a: i32) -> i32 {
    ((dc_t1(a) * 1025 + 2097152) as i32) >> 22
}

spec fn dc_a1_bits(a: i32) -> i32 {
    dc_t2(a) & 15
}

spec fn dc_a0pre(a: i32) -> i32 {
    (a - dc_a1_bits(a) * 523776) as i32
}

spec fn dc_mask(a: i32) -> i32 {
    (((4190208 - dc_a0pre(a)) as i32) >> 31) & 8380417
}

spec fn dc_a0_bits(a: i32) -> i32 {
    (dc_a0pre(a) - dc_mask(a)) as i32
}

#[verifier::rlimit(100)]
proof fn lemma_decompose_bits(a: i32)
    by (bit_vector)
    requires
        0 <= a < 8380417,
    ensures
        0 <= dc_t1(a) <= 65472,
        0 <= dc_t2(a) <= 16,
        0 <= dc_a1_bits(a) <= 15,
        dc_mask(a) == (if dc_a0pre(a) > 4190208 { 8380417i32 } else { 0i32 }),
        -261888 <= dc_a0_bits(a) <= 261888,
        dc_a0_bits(a) == -261888 ==> dc_a1_bits(a) == 0,
        a < 8118529 ==> a == dc_a1_bits(a) * 523776 + dc_a0_bits(a)
            && -261887 <= dc_a0_bits(a),
        a >= 8118529 ==> dc_a1_bits(a) == 0 && a == dc_a0_bits(a) + 8380417,
{
}

/// Buckets a into (a0, a1) with a congruent to a1 * 2 * GAMMA2 + a0 modulo Q,
/// a1 in [0, 16), |a0| <= GAMMA2, and the boundary bucket forced to 0.
pub fn decompose(a: i32) -> (r: (i32, i32))
    requires
        0 <= a < Q,
    ensures
        r.1 == dc_high(a as int),
        r.0 == dc_low(a as int),
        0 <= r.1 <= 15,
        -261888 <= r.0 <= 261888,
        congq(r.1 * 523776 + r.0, a as int),
        hint_bit(r.0 as int, r.1 as int) == 0,
{
    proof {
        lemma_decompose_bits(a);
    }
    let t1: i32 = (a + 127) >> 7;
    proof {
        assert(t1 == dc_t1(a));
    }
    let t2: i32 = (t1 * 1025 + 2097152) >> 22;
    proof {
        assert(t2 == dc_t2(a));
    }
    let a1: i32 = t2 & 15;
    proof {
        assert(a1 == dc_a1_bits(a));
    }
    let a0pre: i32 = a - a1 * 523776;
    proof {
        assert(a0pre == dc_a0pre(a));
    }
    let a0: i32 = a0pre - (((4190208 - a0pre) >> 31) & Q);
    proof {
        assert(a0 == dc_a0_bits(a));
        if a < 8118529 {
            lemma_fundamental_div_mod_converse_div(
                a + 261887,
                523776,
                a1 as int,
                a + 261887 - a1 * 523776,
            );
            assert(dc_hi0(a as int) == a1);
        } else {
            lemma_fundamental_div_mod_converse_div(
                a + 261887,
                523776,
                16,
                a + 261887 - 8380416,
            );
            assert(dc_hi0(a as int) == 16);
        }
        assert(((a1 * 523776 + a0) - a) % (Q as int) == 0) by {
            if a >= 8118529 {
                assert(a1 * 523776 + a0 - a == -(Q as int));
                assert((-(Q as int)) % (Q as int) == 0) by {
                    lemma_fundamental_div_mod_converse_div(-(Q as int), Q as int, -1, 0);
                    vstd::arithmetic::div_mod::lemma_fundamental_div_mod_converse_mod(
                        -(Q as int),
                        Q as int,
                        -1,
                        0,
                    );
                }
            }
        }
    }
    (a0, a1)
}

/// The hint bit for a decomposed pair: 1 exactly when the low part risks
/// overflowing into the next bucket.
pub fn make_hint(a0: i32, a1: i32) -> (r: i32)
    ensures
        r == hint_bit(a0 as int, a1 as int),
{
    if a0 > GAMMA2_I || a0 < -GAMMA2_I || (a0 == -GAMMA2_I && a1 != 0) {
        return 1;
    }
    0
}

/// Low-order rounding range, as a signed scalar.
const GAMMA2_I: i32 = 261888;

proof fn lemma_mask16(x: i32)
    by (bit_vector)
    requires
        0 <= x <= 15,
    ensures
        ((x + 1) as i32) & 15 == (x + 1) % 16,
        ((x - 1) as i32) & 15 == (x + 15) % 16,
{
}

/// Corrects the high bucket of a according to a hint bit, using only public
/// data; never the secret low part.
pub fn use_hint(a: i32, hint: i32) -> (r: i32)
    requires
        0 <= a < Q,
        hint == 0 || hint == 1,
    ensures
        r == use_hint_spec(a as int, hint as int),
        0 <= r <= 15,
{
    let (a0, a1) = decompose(a);
    proof {
        lemma_mask16(a1);
    }
    if hint == 0 {
        return a1;
    }
    if a0 > 0 {
        (a1 + 1) & 15
    } else {
        (a1 - 1) & 15
    }
}

/// Reconstruction law of the power-of-two split: for any canonical input the
/// two parts recombine exactly, and each part lies in its documented range.
pub proof fn lemma_power2round_reconstructs(a: int)
    requires
        0 <= a < Q,
    ensures
        p2r_high(a) * 8192 + p2r_low(a) == a,
        -4095 <= p2r_low(a) <= 4096,
        0 <= p2r_high(a) <= 1023,
{
    lemma_fundamental_div_mod(a + 4095, 8192);
    assert(0 <= (a + 4095) % 8192 < 8192);
}

/// Reconstruction law of the decomposition: for any canonical input the
/// bucket index and remainder recombine to the input modulo Q, within their
/// documented ranges.
pub proof fn lemma_decompose_reconstructs(a: int)
    requires
        0 <= a < Q,
    ensures
        congq(dc_high(a) * 523776 + dc_low(a), a),
        0 <= dc_high(a) <= 15,
        -261888 <= dc_low(a) <= 261888,
{
    lemma_fundamental_div_mod(a + 261887, 523776);
    assert(0 <= (a + 261887) % 523776 < 523776);
    let q = dc_hi0(a);
    assert(a + 261887 == q * 523776 + ((a + 261887) % 523776));
    assert(0 <= q <= 16) by {
        if q < 0 {
            assert(q * 523776 <= -523776);
        }
        if q > 16 {
            assert(q * 523776 >= 17 * 523776);
        }
    }
    if q == 16 {
        assert(dc_high(a) == 0 && dc_low(a) == a - (Q as int));
        assert((dc_high(a) * 523776 + dc_low(a)) - a == -(Q as int));
        vstd::arithmetic::div_mod::lemma_fundamental_div_mod_converse_mod(
            -(Q as int),
            Q as int,
            -1,
            0,
        );
        assert(a - 261888 >= 16 * 523776 - 523776);
    } else {
        assert(dc_high(a) * 523776 + dc_low(a) == a);
        assert((0int) % (Q as int) == 0) by {
            vstd::arithmetic::div_mod::lemma_fundamental_div_mod_converse_mod(
                0,
                Q as int,
                0,
                0,
            );
        }
    }
}

/// Hint identity law: a hint bit computed from a value's own decomposition is
/// never set, so applying it reconstructs the high bucket unchanged.
pub proof fn lemma_use_hint_reconstructs(a: int)
    requires
        0 <= a < Q,
    ensures
        hint_bit(dc_low(a), dc_high(a)) == 0,
        use_hint_spec(a, hint_bit(dc_low(a), dc_high(a))) == dc_high(a),
{
    lemma_decompose_reconstructs(a);
    lemma_fundamental_div_mod(a + 261887, 523776);
    let q = dc_hi0(a);
    if q == 16 {
        assert(a >= 16 * 523776 - 261887);
        assert(dc_low(a) >= -261888);
        if dc_low(a) == -261888 {
            assert(dc_high(a) == 0);
        }
    } else {
        assert(dc_low(a) == a - q * 523776);
        assert(dc_low(a) == ((a + 261887) % 523776) - 261887);
    }
}

} // verus!
