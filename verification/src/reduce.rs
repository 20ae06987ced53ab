//! Scalar modular reduction: Montgomery reduction, one-step centered
//! reduction, and the branchless conditional add of Q.

use vstd::prelude::*;
use vstd::arithmetic::div_mod::lemma_mod_multiples_basic;

use crate::params::{congq, Q};

verus! {

/// Q^(-1) modulo 2^32.
pub const Q_INV: i32 = 58728449;

/// The exact representative Montgomery reduction returns: with t the
/// centered 32-bit wrap of a * Q_INV, the result is (a - t * Q) / 2^32.
pub open spec fn mont_spec(a: i64) -> int {
    let t = (((a as i32) as i64) * 58728449) as i32;
    ((((a - (t as i64) * 8380417) as i64) >> 32) as int)
}

/// The exact representative the one-step reduction returns:
/// a - Q * round(a / 2^23).
pub open spec fn red32_spec(a: i32) -> int {
    let t = (((a as i64) + 0x400000) as i64) >> 23;
    (a as i64) - t * 8380417int
}

#[verifier::rlimit(100)]
proof fn lemma_mont_core(a: i64, t: i32, d: i64)
    by (bit_vector)
    requires
        -17996808470921216 <= a <= 17996808470921216,
        t == ((a as i32) as i64 * 58728449) as i32,
        d == a - (t as i64) * 8380417,
    ensures
        (d >> 32) * 0x1_0000_0000 == d,
        -8380417 <= (d >> 32) <= 8380417,
        -17996808470921216 < a < 17996808470921216 ==> -8380416 <= (d >> 32) <= 8380416,
{
}

/// For a with |a| <= 2^31 * Q, returns r with r * 2^32 congruent to a
/// modulo Q and |r| <= Q.
pub fn montgomery_reduce(a: i64) -> (r: i32)
    requires
        -0x80000000 * (Q as int) <= a <= 0x80000000 * (Q as int),
    ensures
        r == mont_spec(a),
        -(Q as int) <= r <= Q as int,
        -0x80000000 * (Q as int) < a < 0x80000000 * (Q as int) ==> -(Q as int) < r < Q as int,
        congq((r as int) * 0x1_0000_0000, a as int),
{
    proof {
        assert(0x80000000 * (Q as int) == 17996808470921216);
    }
    let a32: i32 = #[verifier::truncate] (a as i32);
    let t: i32 = #[verifier::truncate] (((a32 as i64) * 58728449i64) as i32);
    let d: i64 = a - (t as i64) * 8380417i64;
    proof {
        lemma_mont_core(a, t, d);
    }
    let r64: i64 = d >> 32;
    proof {
        assert(r64 * 0x1_0000_0000 - a == -((t as int) * (Q as int)));
        lemma_mod_multiples_basic(-(t as int), Q as int);
    }
    r64 as i32
}

proof fn lemma_reduce32_core(a: i64)
    by (bit_vector)
    requires
        -0x80000000 <= a <= 0x7fffffff - 0x400000,
    ensures
        -256 <= ((a + 0x400000) as i64) >> 23 <= 255,
        -6283009 <= a - ((((a + 0x400000) as i64) >> 23) * 8380417) <= 6283008,
{
}

/// For a <= 2^31 - 2^22 - 1, returns r congruent to a modulo Q with
/// -6283009 <= r <= 6283008. The upper bound 6283008 is attained, at the
/// largest admissible input.
pub fn reduce32(a: i32) -> (r: i32)
    requires
        a <= 0x7fffffff - 0x400000,
    ensures
        r == red32_spec(a),
        -6283009 <= r <= 6283008,
        congq(r as int, a as int),
{
    proof {
        lemma_reduce32_core(a as i64);
    }
    let t: i64 = ((a as i64) + 0x400000) >> 23;
    let r64: i64 = (a as i64) - t * 8380417i64;
    proof {
        assert(r64 - a == -(t * (Q as int)));
        lemma_mod_multiples_basic(-t as int, Q as int);
    }
    r64 as i32
}

proof fn lemma_caddq_mask(a: i32)
    by (bit_vector)
    ensures
        ((a >> 31) & 8380417) == (if a < 0 { 8380417i32 } else { 0i32 }),
{
}

/// Adds Q exactly when the input is negative, using an arithmetic
/// (sign-filling) right shift rather than a branch.
pub fn caddq(a: i32) -> (r: i32)
    ensures
        r == (if a < 0 { a + Q } else { a as int }),
{
    proof {
        lemma_caddq_mask(a);
    }
    a + ((a >> 31) & Q)
}

} // verus!
