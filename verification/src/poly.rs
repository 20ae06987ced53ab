//! Ring polynomials of 256 coefficients, with element-wise arithmetic,
//! rounding, XOF-driven samplers, and the per-field bit-packing formats.
//!
//! Whether a polynomial is in the standard or the transform domain is
//! contextual: callers track the domain by call discipline.

use vstd::prelude::*;

use crate::params::{congq, Q};
use crate::reduce::{mont_spec, red32_spec};
use crate::rounding::{dc_high, dc_low, hint_bit, p2r_high, p2r_low, use_hint_spec};
use crate::xof::{shake128_blocks, shake256_blocks};

verus! {

/// A ring polynomial: 256 signed coefficients.
#[derive(Clone, Copy)]
pub struct Poly {
    pub coeffs: [i32; 256],
}

/// Every coefficient of p lies in [-b, b].
pub open spec fn bounded(p: Poly, b: int) -> bool {
    forall|i: int| 0 <= i < 256 ==> -b <= #[trigger] p.coeffs@[i] <= b
}

/// Every coefficient of p lies in [lo, hi].
pub open spec fn in_range(p: Poly, lo: int, hi: int) -> bool {
    forall|i: int| 0 <= i < 256 ==> lo <= #[trigger] p.coeffs@[i] <= hi
}

impl Default for Poly {
    /// The zero polynomial.
    fn default() -> (r: Self)
        ensures
            forall|i: int| 0 <= i < 256 ==> #[trigger] r.coeffs@[i] == 0,
    {
        Poly { coeffs: [0i32; 256] }
    }
}

/// In-place reduction of every coefficient to a representative in
/// [-6283009, 6283008] congruent to it modulo Q.
pub fn reduce(a: &mut Poly)
    requires
        forall|i: int| 0 <= i < 256 ==> #[trigger] old(a).coeffs@[i] <= 2143289343,
    ensures
        forall|i: int|
            0 <= i < 256 ==> #[trigger] final(a).coeffs@[i] == red32_spec(old(a).coeffs@[i]),
        forall|i: int|
            0 <= i < 256 ==> -6283009 <= #[trigger] final(a).coeffs@[i] <= 6283008 && congq(
                final(a).coeffs@[i] as int,
                old(a).coeffs@[i] as int,
            ),
{
    let mut i: usize = 0;
    while i < 256
        invariant
            0 <= i <= 256,
            forall|j: int| 0 <= j < 256 ==> #[trigger] old(a).coeffs@[j] <= 2143289343,
            forall|j: int| i <= j < 256 ==> #[trigger] a.coeffs@[j] == old(a).coeffs@[j],
            forall|j: int| 0 <= j < i ==> #[trigger] a.coeffs@[j] == red32_spec(old(a).coeffs@[j]),
            forall|j: int|
                0 <= j < i ==> -6283009 <= #[trigger] a.coeffs@[j] <= 6283008 && congq(
                    a.coeffs@[j] as int,
                    old(a).coeffs@[j] as int,
                ),
        decreases 256 - i,
    {
        a.coeffs[i] = crate::reduce::reduce32(a.coeffs[i]);
        i += 1;
    }
}

/// For every coefficient, add Q if it is negative.
pub fn caddq(a: &mut Poly)
    ensures
        forall|i: int|
            0 <= i < 256 ==> #[trigger] final(a).coeffs@[i] == (if old(a).coeffs@[i] < 0 {
                old(a).coeffs@[i] + Q
            } else {
                old(a).coeffs@[i] as int
            }),
{
    let mut i: usize = 0;
    while i < 256
        invariant
            0 <= i <= 256,
            forall|j: int| i <= j < 256 ==> #[trigger] a.coeffs@[j] == old(a).coeffs@[j],
            forall|j: int|
                0 <= j < i ==> #[trigger] a.coeffs@[j] == (if old(a).coeffs@[j] < 0 {
                    old(a).coeffs@[j] + Q
                } else {
                    old(a).coeffs@[j] as int
                }),
        decreases 256 - i,
    {
        a.coeffs[i] = crate::reduce::caddq(a.coeffs[i]);
        i += 1;
    }
}

/// In-place coefficient-wise sum. No modular reduction is performed.
pub fn add_ip(a: &mut Poly, b: &Poly)
    requires
        forall|i: int|
            0 <= i < 256 ==> -0x80000000 <= (#[trigger] old(a).coeffs@[i]) + b.coeffs@[i]
                <= 0x7fffffff,
    ensures
        forall|i: int|
            0 <= i < 256 ==> #[trigger] final(a).coeffs@[i] == old(a).coeffs@[i] + b.coeffs@[i],
{
    let mut i: usize = 0;
    while i < 256
        invariant
            0 <= i <= 256,
            forall|j: int|
                0 <= j < 256 ==> -0x80000000 <= (#[trigger] old(a).coeffs@[j]) + b.coeffs@[j]
                    <= 0x7fffffff,
            forall|j: int| i <= j < 256 ==> #[trigger] a.coeffs@[j] == old(a).coeffs@[j],
            forall|j: int|
                0 <= j < i ==> #[trigger] a.coeffs@[j] == old(a).coeffs@[j] + b.coeffs@[j],
        decreases 256 - i,
    {
        a.coeffs[i] = a.coeffs[i] + b.coeffs[i];
        i += 1;
    }
}

/// In-place coefficient-wise difference. No modular reduction is performed.
pub fn sub_ip(a: &mut Poly, b: &Poly)
    requires
        forall|i: int|
            0 <= i < 256 ==> -0x80000000 <= (#[trigger] old(a).coeffs@[i]) - b.coeffs@[i]
                <= 0x7fffffff,
    ensures
        forall|i: int|
            0 <= i < 256 ==> #[trigger] final(a).coeffs@[i] == old(a).coeffs@[i] - b.coeffs@[i],
{
    let mut i: usize = 0;
    while i < 256
        invariant
            0 <= i <= 256,
            forall|j: int|
                0 <= j < 256 ==> -0x80000000 <= (#[trigger] old(a).coeffs@[j]) - b.coeffs@[j]
                    <= 0x7fffffff,
            forall|j: int| i <= j < 256 ==> #[trigger] a.coeffs@[j] == old(a).coeffs@[j],
            forall|j: int|
                0 <= j < i ==> #[trigger] a.coeffs@[j] == old(a).coeffs@[j] - b.coeffs@[j],
        decreases 256 - i,
    {
        a.coeffs[i] = a.coeffs[i] - b.coeffs[i];
        i += 1;
    }
}

proof fn lemma_shl13(x: i32)
    by (bit_vector)
    requires
        -262144 < x < 262144,
    ensures
        x << 13 == x * 8192,
{
}

/// Multiplies every coefficient by 2^D. Assumes coefficients below 2^(31-D).
pub fn shiftl(a: &mut Poly)
    requires
        in_range(*old(a), -262143, 262143),
    ensures
        forall|i: int|
            0 <= i < 256 ==> #[trigger] final(a).coeffs@[i] == old(a).coeffs@[i] * 8192,
{
    let mut i: usize = 0;
    while i < 256
        invariant
            0 <= i <= 256,
            in_range(*old(a), -262143, 262143),
            forall|j: int| i <= j < 256 ==> #[trigger] a.coeffs@[j] == old(a).coeffs@[j],
            forall|j: int| 0 <= j < i ==> #[trigger] a.coeffs@[j] == old(a).coeffs@[j] * 8192,
        decreases 256 - i,
    {
        proof {
            lemma_shl13(a.coeffs@[i as int]);
        }
        a.coeffs[i] = a.coeffs[i] << 13;
        i += 1;
    }
}

/// In-place forward transform. Coefficients can grow by 8 * Q in magnitude;
/// the result is exactly the transform of the input.
pub fn ntt(a: &mut Poly)
    requires
        bounded(*old(a), 8388608),
    ensures
        bounded(*final(a), 75431944),
        final(a).coeffs@ == crate::ntt::ntt_spec(old(a).coeffs@),
{
    crate::ntt::ntt(a);
}

/// In-place inverse transform and multiplication by 2^32. Coefficients at
/// most Q in magnitude stay below Q in magnitude; the result is exactly the
/// inverse transform of the input.
pub fn invntt_tomont(a: &mut Poly)
    requires
        bounded(*old(a), 8380417),
    ensures
        bounded(*final(a), 8380416),
        final(a).coeffs@ == crate::ntt::invntt_spec(old(a).coeffs@),
{
    crate::ntt::invntt_tomont(a);
}

/// Coefficient-wise product of transform-domain polynomials, with Montgomery
/// correction by 2^-32.
pub fn pointwise_montgomery(c: &mut Poly, a: &Poly, b: &Poly)
    requires
        forall|i: int|
            0 <= i < 256 ==> -0x80000000 * (Q as int) < (#[trigger] a.coeffs@[i]) * b.coeffs@[i]
                < 0x80000000 * (Q as int),
    ensures
        bounded(*final(c), 8380416),
        forall|i: int|
            0 <= i < 256 ==> #[trigger] final(c).coeffs@[i] == mont_spec(
                (a.coeffs@[i] * b.coeffs@[i]) as i64,
            ),
        forall|i: int|
            0 <= i < 256 ==> congq(
                #[trigger] final(c).coeffs@[i] * 0x1_0000_0000,
                a.coeffs@[i] * b.coeffs@[i],
            ),
{
    let mut i: usize = 0;
    while i < 256
        invariant
            0 <= i <= 256,
            forall|j: int|
                0 <= j < 256 ==> -0x80000000 * (Q as int) < (#[trigger] a.coeffs@[j])
                    * b.coeffs@[j] < 0x80000000 * (Q as int),
            forall|j: int| 0 <= j < i ==> -8380416 <= #[trigger] c.coeffs@[j] <= 8380416,
            forall|j: int|
                0 <= j < i ==> #[trigger] c.coeffs@[j] == mont_spec(
                    (a.coeffs@[j] * b.coeffs@[j]) as i64,
                ),
            forall|j: int|
                0 <= j < i ==> congq(
                    #[trigger] c.coeffs@[j] * 0x1_0000_0000,
                    a.coeffs@[j] * b.coeffs@[j],
                ),
        decreases 256 - i,
    {
        let x: i32 = a.coeffs[i];
        let y: i32 = b.coeffs[i];
        proof {
            assert(0x80000000 * (Q as int) == 17996808470921216);
        }
        c.coeffs[i] = crate::reduce::montgomery_reduce((x as i64) * (y as i64));
        i += 1;
    }
}


/// Coefficient-wise products of polynomials bounded by ba and bb stay within
/// the Montgomery reduction domain when ba * bb does.
pub proof fn lemma_bounded_product_domain(a: Poly, b: Poly, ba: int, bb: int)
    requires
        bounded(a, ba),
        bounded(b, bb),
        0 <= ba,
        0 <= bb,
        ba * bb < 0x80000000 * (Q as int),
    ensures
        forall|i: int|
            0 <= i < 256 ==> -0x80000000 * (Q as int) < (#[trigger] a.coeffs@[i]) * b.coeffs@[i]
                < 0x80000000 * (Q as int),
{
    assert forall|i: int|
        0 <= i < 256 implies -0x80000000 * (Q as int) < (#[trigger] a.coeffs@[i]) * b.coeffs@[i]
        < 0x80000000 * (Q as int) by {
        let x = a.coeffs@[i] as int;
        let y = b.coeffs@[i] as int;
        assert(-(ba * bb) <= x * y <= ba * bb) by (nonlinear_arith)
            requires
                -ba <= x <= ba,
                -bb <= y <= bb,
                0 <= ba,
                0 <= bb,
        ;
    }
}

/// Splits every coefficient of a1 (assumed canonical) into high and low
/// parts: the high part replaces a1, the low part fills a0.
pub fn power2round(a1: &mut Poly, a0: &mut Poly)
    requires
        in_range(*old(a1), -4, 8380420),
    ensures
        forall|i: int|
            0 <= i < 256 ==> #[trigger] final(a1).coeffs@[i] == p2r_high(old(a1).coeffs@[i] as int),
        forall|i: int|
            0 <= i < 256 ==> #[trigger] final(a0).coeffs@[i] == p2r_low(old(a1).coeffs@[i] as int),
        in_range(*final(a1), 0, 1023),
        in_range(*final(a0), -4095, 4096),
{
    let mut i: usize = 0;
    while i < 256
        invariant
            0 <= i <= 256,
            in_range(*old(a1), -4, 8380420),
            forall|j: int| i <= j < 256 ==> #[trigger] a1.coeffs@[j] == old(a1).coeffs@[j],
            forall|j: int|
                0 <= j < i ==> #[trigger] a1.coeffs@[j] == p2r_high(old(a1).coeffs@[j] as int)
                    && 0 <= a1.coeffs@[j] <= 1023,
            forall|j: int|
                0 <= j < i ==> #[trigger] a0.coeffs@[j] == p2r_low(old(a1).coeffs@[j] as int)
                    && -4095 <= a0.coeffs@[j] <= 4096,
        decreases 256 - i,
    {
        let (lo, hi) = crate::rounding::power2round(a1.coeffs[i]);
        a0.coeffs[i] = lo;
        a1.coeffs[i] = hi;
        i += 1;
    }
}

/// Decomposes every coefficient of a1 (assumed canonical) into a high bucket
/// and a centered low part: the high bucket replaces a1, the low part fills
/// a0.
pub fn decompose(a1: &mut Poly, a0: &mut Poly)
    requires
        in_range(*old(a1), 0, 8380416),
    ensures
        forall|i: int|
            0 <= i < 256 ==> #[trigger] final(a1).coeffs@[i] == dc_high(old(a1).coeffs@[i] as int),
        forall|i: int|
            0 <= i < 256 ==> #[trigger] final(a0).coeffs@[i] == dc_low(old(a1).coeffs@[i] as int),
        in_range(*final(a1), 0, 15),
        in_range(*final(a0), -261888, 261888),
{
    let mut i: usize = 0;
    while i < 256
        invariant
            0 <= i <= 256,
            in_range(*old(a1), 0, 8380416),
            forall|j: int| i <= j < 256 ==> #[trigger] a1.coeffs@[j] == old(a1).coeffs@[j],
            forall|j: int|
                0 <= j < i ==> #[trigger] a1.coeffs@[j] == dc_high(old(a1).coeffs@[j] as int)
                    && 0 <= a1.coeffs@[j] <= 15,
            forall|j: int|
                0 <= j < i ==> #[trigger] a0.coeffs@[j] == dc_low(old(a1).coeffs@[j] as int)
                    && -261888 <= a0.coeffs@[j] <= 261888,
        decreases 256 - i,
    {
        let (lo, hi) = crate::rounding::decompose(a1.coeffs[i]);
        a0.coeffs[i] = lo;
        a1.coeffs[i] = hi;
        i += 1;
    }
}

/// Sum of the hint bits of the first n coefficient pairs.
pub open spec fn hint_sum(a0: Poly, a1: Poly, n: int) -> int
    decreases n,
{
    if n <= 0 {
        0
    } else {
        hint_sum(a0, a1, n - 1) + hint_bit(a0.coeffs@[n - 1] as int, a1.coeffs@[n - 1] as int)
    }
}

/// Computes the hint polynomial of a decomposed pair and returns the number
/// of set hint bits.
pub fn make_hint(h: &mut Poly, a0: &Poly, a1: &Poly) -> (s: i32)
    ensures
        forall|i: int|
            0 <= i < 256 ==> #[trigger] final(h).coeffs@[i] == hint_bit(
                a0.coeffs@[i] as int,
                a1.coeffs@[i] as int,
            ),
        s == hint_sum(*a0, *a1, 256),
        0 <= s <= 256,
{
    let mut s: i32 = 0;
    let mut i: usize = 0;
    while i < 256
        invariant
            0 <= i <= 256,
            0 <= s <= i,
            s == hint_sum(*a0, *a1, i as int),
            forall|j: int|
                0 <= j < i ==> #[trigger] h.coeffs@[j] == hint_bit(
                    a0.coeffs@[j] as int,
                    a1.coeffs@[j] as int,
                ),
        decreases 256 - i,
    {
        let bit: i32 = crate::rounding::make_hint(a0.coeffs[i], a1.coeffs[i]);
        h.coeffs[i] = bit;
        s = s + bit;
        i += 1;
    }
    s
}

/// Corrects the high buckets of a polynomial according to a hint polynomial.
pub fn use_hint(a: &mut Poly, hint: &Poly)
    requires
        in_range(*old(a), 0, 8380416),
        in_range(*hint, 0, 1),
    ensures
        forall|i: int|
            0 <= i < 256 ==> #[trigger] final(a).coeffs@[i] == use_hint_spec(
                old(a).coeffs@[i] as int,
                hint.coeffs@[i] as int,
            ),
        in_range(*final(a), 0, 15),
{
    let mut i: usize = 0;
    while i < 256
        invariant
            0 <= i <= 256,
            in_range(*old(a), 0, 8380416),
            in_range(*hint, 0, 1),
            forall|j: int| i <= j < 256 ==> #[trigger] a.coeffs@[j] == old(a).coeffs@[j],
            forall|j: int|
                0 <= j < i ==> #[trigger] a.coeffs@[j] == use_hint_spec(
                    old(a).coeffs@[j] as int,
                    hint.coeffs@[j] as int,
                ) && 0 <= a.coeffs@[j] <= 15,
        decreases 256 - i,
    {
        a.coeffs[i] = crate::rounding::use_hint(a.coeffs[i], hint.coeffs[i]);
        i += 1;
    }
}

// ---------------------------------------------------------------------------
// Bit-packing formats. Each format has byte-level encode and decode spec
// functions; a chunk predicate ties a packed byte range to the coefficients
// it spells, and both directions of the code meet it, which makes the
// pack/unpack round trip a consequence of the contracts alone.
// ---------------------------------------------------------------------------

/// 10-bit decode of the first coefficient of a 5-byte group.
pub open spec fn t1d0(b0: u8, b1: u8) -> i32 {
    (((b0 as u32) | ((b1 as u32) << 8)) & 0x3FF) as i32
}

/// 10-bit decode of the second coefficient of a 5-byte group.
pub open spec fn t1d1(b1: u8, b2: u8) -> i32 {
    ((((b1 as u32) >> 2) | ((b2 as u32) << 6)) & 0x3FF) as i32
}

/// 10-bit decode of the third coefficient of a 5-byte group.
pub open spec fn t1d2(b2: u8, b3: u8) -> i32 {
    ((((b2 as u32) >> 4) | ((b3 as u32) << 4)) & 0x3FF) as i32
}

/// 10-bit decode of the fourth coefficient of a 5-byte group.
pub open spec fn t1d3(b3: u8, b4: u8) -> i32 {
    ((((b3 as u32) >> 6) | ((b4 as u32) << 2)) & 0x3FF) as i32
}

/// The i-th 5-byte group of the t1 format at offset off spells coefficients
/// 4i .. 4i+3 of p.
pub open spec fn t1_chunk_ok(s: Seq<u8>, off: int, p: Poly, i: int) -> bool {
    &&& t1d0(s[off + 5 * i], s[off + 5 * i + 1]) == p.coeffs@[4 * i]
    &&& t1d1(s[off + 5 * i + 1], s[off + 5 * i + 2]) == p.coeffs@[4 * i + 1]
    &&& t1d2(s[off + 5 * i + 2], s[off + 5 * i + 3]) == p.coeffs@[4 * i + 2]
    &&& t1d3(s[off + 5 * i + 3], s[off + 5 * i + 4]) == p.coeffs@[4 * i + 3]
}

proof fn lemma_t1_rt(c0: i32, c1: i32, c2: i32, c3: i32)
    by (bit_vector)
    requires
        0 <= c0 < 1024,
        0 <= c1 < 1024,
        0 <= c2 < 1024,
        0 <= c3 < 1024,
    ensures
        t1d0(c0 as u8, ((c0 >> 8) | (c1 << 2)) as u8) == c0,
        t1d1(((c0 >> 8) | (c1 << 2)) as u8, ((c1 >> 6) | (c2 << 4)) as u8) == c1,
        t1d2(((c1 >> 6) | (c2 << 4)) as u8, ((c2 >> 4) | (c3 << 6)) as u8) == c2,
        t1d3(((c2 >> 4) | (c3 << 6)) as u8, (c3 >> 2) as u8) == c3,
{
}

proof fn lemma_t1_dec_range(b0: u8, b1: u8, b2: u8, b3: u8, b4: u8)
    by (bit_vector)
    ensures
        0 <= t1d0(b0, b1) < 1024,
        0 <= t1d1(b1, b2) < 1024,
        0 <= t1d2(b2, b3) < 1024,
        0 <= t1d3(b3, b4) < 1024,
{
}

/// Packs a polynomial with coefficients in [0, 1024) into 320 bytes at
/// offset off, in the 10-bit t1 format.
pub fn t1_pack(r: &mut Vec<u8>, off: usize, a: &Poly)
    requires
        off + 320 <= old(r)@.len(),
        in_range(*a, 0, 1023),
    ensures
        final(r)@.len() == old(r)@.len(),
        forall|i: int|
            0 <= i < old(r)@.len() && !(off <= i < off + 320) ==> final(r)@[i] == old(r)@[i],
        forall|i: int| 0 <= i < 64 ==> #[trigger] t1_chunk_ok(final(r)@, off as int, *a, i),
{
    let n: usize = r.len();
    let mut i: usize = 0;
    while i < 64
        invariant
            off + 320 <= n,
            n == r@.len(),
            r@.len() == old(r)@.len(),
            in_range(*a, 0, 1023),
            0 <= i <= 64,
            forall|j: int|
                0 <= j < r@.len() && !(off <= j < off + 5 * i) ==> r@[j] == old(r)@[j],
            forall|j: int| 0 <= j < i ==> #[trigger] t1_chunk_ok(r@, off as int, *a, j),
        decreases 64 - i,
    {
        let c0: i32 = a.coeffs[4 * i];
        let c1: i32 = a.coeffs[4 * i + 1];
        let c2: i32 = a.coeffs[4 * i + 2];
        let c3: i32 = a.coeffs[4 * i + 3];
        proof {
            lemma_t1_rt(c0, c1, c2, c3);
        }
        let ghost prev = r@;
        r[off + 5 * i] = #[verifier::truncate] (c0 as u8);
        r[off + 5 * i + 1] = #[verifier::truncate] (((c0 >> 8) | (c1 << 2)) as u8);
        r[off + 5 * i + 2] = #[verifier::truncate] (((c1 >> 6) | (c2 << 4)) as u8);
        r[off + 5 * i + 3] = #[verifier::truncate] (((c2 >> 4) | (c3 << 6)) as u8);
        r[off + 5 * i + 4] = #[verifier::truncate] ((c3 >> 2) as u8);
        proof {
            assert(t1_chunk_ok(r@, off as int, *a, i as int));
            assert forall|j: int| 0 <= j < i implies #[trigger] t1_chunk_ok(
                r@,
                off as int,
                *a,
                j,
            ) by {
                assert(t1_chunk_ok(prev, off as int, *a, j));
                assert(r@[off + 5 * j] == prev[off + 5 * j]);
                assert(r@[off + 5 * j + 1] == prev[off + 5 * j + 1]);
                assert(r@[off + 5 * j + 2] == prev[off + 5 * j + 2]);
                assert(r@[off + 5 * j + 3] == prev[off + 5 * j + 3]);
                assert(r@[off + 5 * j + 4] == prev[off + 5 * j + 4]);
            }
        }
        i += 1;
    }
}

/// Unpacks 320 bytes at offset off in the 10-bit t1 format; output
/// coefficients lie in [0, 1024).
pub fn t1_unpack(p: &mut Poly, s: &Vec<u8>, off: usize)
    requires
        off + 320 <= s@.len(),
    ensures
        forall|i: int| 0 <= i < 64 ==> #[trigger] t1_chunk_ok(s@, off as int, *final(p), i),
        in_range(*final(p), 0, 1023),
{
    let n: usize = s.len();
    let mut i: usize = 0;
    while i < 64
        invariant
            off + 320 <= n,
            n == s@.len(),
            0 <= i <= 64,
            forall|j: int| 0 <= j < i ==> #[trigger] t1_chunk_ok(s@, off as int, *p, j),
            forall|j: int| 0 <= j < 4 * i ==> 0 <= #[trigger] p.coeffs@[j] <= 1023,
        decreases 64 - i,
    {
        let b0: u8 = s[off + 5 * i];
        let b1: u8 = s[off + 5 * i + 1];
        let b2: u8 = s[off + 5 * i + 2];
        let b3: u8 = s[off + 5 * i + 3];
        let b4: u8 = s[off + 5 * i + 4];
        proof {
            lemma_t1_dec_range(b0, b1, b2, b3, b4);
        }
        let ghost prevp = *p;
        p.coeffs[4 * i] = (((b0 as u32) | ((b1 as u32) << 8)) & 0x3FF) as i32;
        p.coeffs[4 * i + 1] = ((((b1 as u32) >> 2) | ((b2 as u32) << 6)) & 0x3FF) as i32;
        p.coeffs[4 * i + 2] = ((((b2 as u32) >> 4) | ((b3 as u32) << 4)) & 0x3FF) as i32;
        p.coeffs[4 * i + 3] = ((((b3 as u32) >> 6) | ((b4 as u32) << 2)) & 0x3FF) as i32;
        proof {
            assert(t1_chunk_ok(s@, off as int, *p, i as int));
            assert forall|j: int| 0 <= j < i implies #[trigger] t1_chunk_ok(
                s@,
                off as int,
                *p,
                j,
            ) by {
                assert(t1_chunk_ok(s@, off as int, prevp, j));
                assert(p.coeffs@[4 * j] == prevp.coeffs@[4 * j]);
                assert(p.coeffs@[4 * j + 1] == prevp.coeffs@[4 * j + 1]);
                assert(p.coeffs@[4 * j + 2] == prevp.coeffs@[4 * j + 2]);
                assert(p.coeffs@[4 * j + 3] == prevp.coeffs@[4 * j + 3]);
            }
        }
        i += 1;
    }
}

/// 13-bit biased decode of coefficient j of a 13-byte group (three byte
/// positions feed each coefficient; unused ones are ignored).
pub open spec fn t0dec(x0: u8, x1: u8, x2: u8, sh0: u32, sh1: u32, sh2: u32) -> i32 {
    (4096 - ((((x0 as u32) >> sh0) | ((x1 as u32) << sh1) | ((x2 as u32) << sh2)) & 0x1FFF)) as i32
}

/// The i-th 13-byte group of the t0 format at offset off spells coefficients
/// 8i .. 8i+7 of p.
pub open spec fn t0_chunk_ok(s: Seq<u8>, off: int, p: Poly, i: int) -> bool {
    let b = off + 13 * i;
    &&& t0dec(s[b], s[b + 1], 0, 0, 8, 16) == p.coeffs@[8 * i]
    &&& t0dec(s[b + 1], s[b + 2], s[b + 3], 5, 3, 11) == p.coeffs@[8 * i + 1]
    &&& t0dec(s[b + 3], s[b + 4], 0, 2, 6, 16) == p.coeffs@[8 * i + 2]
    &&& t0dec(s[b + 4], s[b + 5], s[b + 6], 7, 1, 9) == p.coeffs@[8 * i + 3]
    &&& t0dec(s[b + 6], s[b + 7], s[b + 8], 4, 4, 12) == p.coeffs@[8 * i + 4]
    &&& t0dec(s[b + 8], s[b + 9], 0, 1, 7, 16) == p.coeffs@[8 * i + 5]
    &&& t0dec(s[b + 9], s[b + 10], s[b + 11], 6, 2, 10) == p.coeffs@[8 * i + 6]
    &&& t0dec(s[b + 11], s[b + 12], 0, 3, 5, 16) == p.coeffs@[8 * i + 7]
}

proof fn lemma_t0_rt(t0: i32, t1: i32, t2: i32, t3: i32, t4: i32, t5: i32, t6: i32, t7: i32)
    by (bit_vector)
    requires
        0 <= t0 < 8192,
        0 <= t1 < 8192,
        0 <= t2 < 8192,
        0 <= t3 < 8192,
        0 <= t4 < 8192,
        0 <= t5 < 8192,
        0 <= t6 < 8192,
        0 <= t7 < 8192,
    ensures
        t0dec(t0 as u8, ((t0 >> 8) | (t1 << 5)) as u8, 0, 0, 8, 16) == 4096 - t0,
        t0dec(((t0 >> 8) | (t1 << 5)) as u8, (t1 >> 3) as u8, ((t1 >> 11) | (t2 << 2)) as u8, 5, 3, 11)
            == 4096 - t1,
        t0dec(((t1 >> 11) | (t2 << 2)) as u8, ((t2 >> 6) | (t3 << 7)) as u8, 0, 2, 6, 16) == 4096
            - t2,
        t0dec(((t2 >> 6) | (t3 << 7)) as u8, (t3 >> 1) as u8, ((t3 >> 9) | (t4 << 4)) as u8, 7, 1, 9)
            == 4096 - t3,
        t0dec(((t3 >> 9) | (t4 << 4)) as u8, (t4 >> 4) as u8, ((t4 >> 12) | (t5 << 1)) as u8, 4, 4, 12)
            == 4096 - t4,
        t0dec(((t4 >> 12) | (t5 << 1)) as u8, ((t5 >> 7) | (t6 << 6)) as u8, 0, 1, 7, 16) == 4096
            - t5,
        t0dec(((t5 >> 7) | (t6 << 6)) as u8, (t6 >> 2) as u8, ((t6 >> 10) | (t7 << 3)) as u8, 6, 2, 10)
            == 4096 - t6,
        t0dec(((t6 >> 10) | (t7 << 3)) as u8, (t7 >> 5) as u8, 0, 3, 5, 16) == 4096 - t7,
{
}

proof fn lemma_t0_dec_range(x0: u8, x1: u8, x2: u8, sh0: u32, sh1: u32, sh2: u32)
    by (bit_vector)
    ensures
        -4095 <= t0dec(x0, x1, x2, sh0, sh1, sh2) <= 4096,
        ((((x0 as u32) >> sh0) | ((x1 as u32) << sh1) | ((x2 as u32) << sh2)) & 0x1FFF) < 8192,
{
}

/// Packs a polynomial with coefficients in (-2^12, 2^12] into 416 bytes at
/// offset off, in the 13-bit biased t0 format.
#[verifier::rlimit(100)]
pub fn t0_pack(r: &mut Vec<u8>, off: usize, a: &Poly)
    requires
        off + 416 <= old(r)@.len(),
        in_range(*a, -4095, 4096),
    ensures
        final(r)@.len() == old(r)@.len(),
        forall|i: int|
            0 <= i < old(r)@.len() && !(off <= i < off + 416) ==> final(r)@[i] == old(r)@[i],
        forall|i: int| 0 <= i < 32 ==> #[trigger] t0_chunk_ok(final(r)@, off as int, *a, i),
{
    let n: usize = r.len();
    let mut i: usize = 0;
    while i < 32
        invariant
            off + 416 <= n,
            n == r@.len(),
            r@.len() == old(r)@.len(),
            in_range(*a, -4095, 4096),
            0 <= i <= 32,
            forall|j: int|
                0 <= j < r@.len() && !(off <= j < off + 13 * i) ==> r@[j] == old(r)@[j],
            forall|j: int| 0 <= j < i ==> #[trigger] t0_chunk_ok(r@, off as int, *a, j),
        decreases 32 - i,
    {
        let t0: i32 = 4096 - a.coeffs[8 * i];
        let t1: i32 = 4096 - a.coeffs[8 * i + 1];
        let t2: i32 = 4096 - a.coeffs[8 * i + 2];
        let t3: i32 = 4096 - a.coeffs[8 * i + 3];
        let t4: i32 = 4096 - a.coeffs[8 * i + 4];
        let t5: i32 = 4096 - a.coeffs[8 * i + 5];
        let t6: i32 = 4096 - a.coeffs[8 * i + 6];
        let t7: i32 = 4096 - a.coeffs[8 * i + 7];
        proof {
            lemma_t0_rt(t0, t1, t2, t3, t4, t5, t6, t7);
        }
        let ghost prev = r@;
        let b: usize = off + 13 * i;
        r[b] = #[verifier::truncate] (t0 as u8);
        r[b + 1] = #[verifier::truncate] (((t0 >> 8) | (t1 << 5)) as u8);
        r[b + 2] = #[verifier::truncate] ((t1 >> 3) as u8);
        r[b + 3] = #[verifier::truncate] (((t1 >> 11) | (t2 << 2)) as u8);
        r[b + 4] = #[verifier::truncate] (((t2 >> 6) | (t3 << 7)) as u8);
        r[b + 5] = #[verifier::truncate] ((t3 >> 1) as u8);
        r[b + 6] = #[verifier::truncate] (((t3 >> 9) | (t4 << 4)) as u8);
        r[b + 7] = #[verifier::truncate] ((t4 >> 4) as u8);
        r[b + 8] = #[verifier::truncate] (((t4 >> 12) | (t5 << 1)) as u8);
        r[b + 9] = #[verifier::truncate] (((t5 >> 7) | (t6 << 6)) as u8);
        r[b + 10] = #[verifier::truncate] ((t6 >> 2) as u8);
        r[b + 11] = #[verifier::truncate] (((t6 >> 10) | (t7 << 3)) as u8);
        r[b + 12] = #[verifier::truncate] ((t7 >> 5) as u8);
        proof {
            assert(t0_chunk_ok(r@, off as int, *a, i as int));
            assert forall|j: int| 0 <= j < i implies #[trigger] t0_chunk_ok(
                r@,
                off as int,
                *a,
                j,
            ) by {
                assert(t0_chunk_ok(prev, off as int, *a, j));
                assert(r@[off + 13 * j + 0] == prev[off + 13 * j + 0]);
                assert(r@[off + 13 * j + 1] == prev[off + 13 * j + 1]);
                assert(r@[off + 13 * j + 2] == prev[off + 13 * j + 2]);
                assert(r@[off + 13 * j + 3] == prev[off + 13 * j + 3]);
                assert(r@[off + 13 * j + 4] == prev[off + 13 * j + 4]);
                assert(r@[off + 13 * j + 5] == prev[off + 13 * j + 5]);
                assert(r@[off + 13 * j + 6] == prev[off + 13 * j + 6]);
                assert(r@[off + 13 * j + 7] == prev[off + 13 * j + 7]);
                assert(r@[off + 13 * j + 8] == prev[off + 13 * j + 8]);
                assert(r@[off + 13 * j + 9] == prev[off + 13 * j + 9]);
                assert(r@[off + 13 * j + 10] == prev[off + 13 * j + 10]);
                assert(r@[off + 13 * j + 11] == prev[off + 13 * j + 11]);
                assert(r@[off + 13 * j + 12] == prev[off + 13 * j + 12]);
            }
        }
        i += 1;
    }
}

/// Unpacks 416 bytes at offset off in the 13-bit biased t0 format; output
/// coefficients lie in (-2^12, 2^12].
pub fn t0_unpack(p: &mut Poly, s: &Vec<u8>, off: usize)
    requires
        off + 416 <= s@.len(),
    ensures
        forall|i: int| 0 <= i < 32 ==> #[trigger] t0_chunk_ok(s@, off as int, *final(p), i),
        in_range(*final(p), -4095, 4096),
{
    let n: usize = s.len();
    let mut i: usize = 0;
    while i < 32
        invariant
            off + 416 <= n,
            n == s@.len(),
            0 <= i <= 32,
            forall|j: int| 0 <= j < i ==> #[trigger] t0_chunk_ok(s@, off as int, *p, j),
            forall|j: int| 0 <= j < 8 * i ==> -4095 <= #[trigger] p.coeffs@[j] <= 4096,
        decreases 32 - i,
    {
        let b: usize = off + 13 * i;
        let x0: u8 = s[b];
        let x1: u8 = s[b + 1];
        let x2: u8 = s[b + 2];
        let x3: u8 = s[b + 3];
        let x4: u8 = s[b + 4];
        let x5: u8 = s[b + 5];
        let x6: u8 = s[b + 6];
        let x7: u8 = s[b + 7];
        let x8: u8 = s[b + 8];
        let x9: u8 = s[b + 9];
        let x10: u8 = s[b + 10];
        let x11: u8 = s[b + 11];
        let x12: u8 = s[b + 12];
        proof {
            lemma_t0_dec_range(x0, x1, 0, 0, 8, 16);
            lemma_t0_dec_range(x1, x2, x3, 5, 3, 11);
            lemma_t0_dec_range(x3, x4, 0, 2, 6, 16);
            lemma_t0_dec_range(x4, x5, x6, 7, 1, 9);
            lemma_t0_dec_range(x6, x7, x8, 4, 4, 12);
            lemma_t0_dec_range(x8, x9, 0, 1, 7, 16);
            lemma_t0_dec_range(x9, x10, x11, 6, 2, 10);
            lemma_t0_dec_range(x11, x12, 0, 3, 5, 16);
        }
        let r0: u32 = (((x0 as u32) >> 0) | ((x1 as u32) << 8) | ((0u32) << 16)) & 0x1FFF;
        let r1: u32 = (((x1 as u32) >> 5) | ((x2 as u32) << 3) | ((x3 as u32) << 11)) & 0x1FFF;
        let r2: u32 = (((x3 as u32) >> 2) | ((x4 as u32) << 6) | ((0u32) << 16)) & 0x1FFF;
        let r3: u32 = (((x4 as u32) >> 7) | ((x5 as u32) << 1) | ((x6 as u32) << 9)) & 0x1FFF;
        let r4: u32 = (((x6 as u32) >> 4) | ((x7 as u32) << 4) | ((x8 as u32) << 12)) & 0x1FFF;
        let r5: u32 = (((x8 as u32) >> 1) | ((x9 as u32) << 7) | ((0u32) << 16)) & 0x1FFF;
        let r6: u32 = (((x9 as u32) >> 6) | ((x10 as u32) << 2) | ((x11 as u32) << 10)) & 0x1FFF;
        let r7: u32 = (((x11 as u32) >> 3) | ((x12 as u32) << 5) | ((0u32) << 16)) & 0x1FFF;
        let ghost prevp = *p;
        p.coeffs[8 * i] = 4096 - (r0 as i32);
        p.coeffs[8 * i + 1] = 4096 - (r1 as i32);
        p.coeffs[8 * i + 2] = 4096 - (r2 as i32);
        p.coeffs[8 * i + 3] = 4096 - (r3 as i32);
        p.coeffs[8 * i + 4] = 4096 - (r4 as i32);
        p.coeffs[8 * i + 5] = 4096 - (r5 as i32);
        p.coeffs[8 * i + 6] = 4096 - (r6 as i32);
        p.coeffs[8 * i + 7] = 4096 - (r7 as i32);
        proof {
            assert(t0_chunk_ok(s@, off as int, *p, i as int));
            assert forall|j: int| 0 <= j < i implies #[trigger] t0_chunk_ok(
                s@,
                off as int,
                *p,
                j,
            ) by {
                assert(t0_chunk_ok(s@, off as int, prevp, j));
                assert(p.coeffs@[8 * j + 0] == prevp.coeffs@[8 * j + 0]);
                assert(p.coeffs@[8 * j + 1] == prevp.coeffs@[8 * j + 1]);
                assert(p.coeffs@[8 * j + 2] == prevp.coeffs@[8 * j + 2]);
                assert(p.coeffs@[8 * j + 3] == prevp.coeffs@[8 * j + 3]);
                assert(p.coeffs@[8 * j + 4] == prevp.coeffs@[8 * j + 4]);
                assert(p.coeffs@[8 * j + 5] == prevp.coeffs@[8 * j + 5]);
                assert(p.coeffs@[8 * j + 6] == prevp.coeffs@[8 * j + 6]);
                assert(p.coeffs@[8 * j + 7] == prevp.coeffs@[8 * j + 7]);
            }
        }
        i += 1;
    }
}

/// 3-bit biased decode of a coefficient from up to two bytes.
pub open spec fn etadec(x0: u8, x1: u8, sh0: u32, sh1: u32) -> i32 {
    (2 - ((((x0 as u32) >> sh0) | ((x1 as u32) << sh1)) & 0x7)) as i32
}

/// The i-th 3-byte group of the eta format at offset off spells coefficients
/// 8i .. 8i+7 of p.
pub open spec fn eta_chunk_ok(s: Seq<u8>, off: int, p: Poly, i: int) -> bool {
    let b = off + 3 * i;
    &&& etadec(s[b], 0, 0, 8) == p.coeffs@[8 * i]
    &&& etadec(s[b], 0, 3, 8) == p.coeffs@[8 * i + 1]
    &&& etadec(s[b], s[b + 1], 6, 2) == p.coeffs@[8 * i + 2]
    &&& etadec(s[b + 1], 0, 1, 8) == p.coeffs@[8 * i + 3]
    &&& etadec(s[b + 1], 0, 4, 8) == p.coeffs@[8 * i + 4]
    &&& etadec(s[b + 1], s[b + 2], 7, 1) == p.coeffs@[8 * i + 5]
    &&& etadec(s[b + 2], 0, 2, 8) == p.coeffs@[8 * i + 6]
    &&& etadec(s[b + 2], 0, 5, 8) == p.coeffs@[8 * i + 7]
}

proof fn lemma_eta_rt(t0: u8, t1: u8, t2: u8, t3: u8, t4: u8, t5: u8, t6: u8, t7: u8)
    by (bit_vector)
    requires
        t0 < 5,
        t1 < 5,
        t2 < 5,
        t3 < 5,
        t4 < 5,
        t5 < 5,
        t6 < 5,
        t7 < 5,
    ensures
        etadec((t0 | (t1 << 3) | (t2 << 6)) as u8, 0, 0, 8) == 2 - t0,
        etadec((t0 | (t1 << 3) | (t2 << 6)) as u8, 0, 3, 8) == 2 - t1,
        etadec(
            (t0 | (t1 << 3) | (t2 << 6)) as u8,
            ((t2 >> 2) | (t3 << 1) | (t4 << 4) | (t5 << 7)) as u8,
            6,
            2,
        ) == 2 - t2,
        etadec(((t2 >> 2) | (t3 << 1) | (t4 << 4) | (t5 << 7)) as u8, 0, 1, 8) == 2 - t3,
        etadec(((t2 >> 2) | (t3 << 1) | (t4 << 4) | (t5 << 7)) as u8, 0, 4, 8) == 2 - t4,
        etadec(
            ((t2 >> 2) | (t3 << 1) | (t4 << 4) | (t5 << 7)) as u8,
            ((t5 >> 1) | (t6 << 2) | (t7 << 5)) as u8,
            7,
            1,
        ) == 2 - t5,
        etadec(((t5 >> 1) | (t6 << 2) | (t7 << 5)) as u8, 0, 2, 8) == 2 - t6,
        etadec(((t5 >> 1) | (t6 << 2) | (t7 << 5)) as u8, 0, 5, 8) == 2 - t7,
{
}

proof fn lemma_eta_dec_range(x0: u8, x1: u8, sh0: u32, sh1: u32)
    by (bit_vector)
    ensures
        -5 <= etadec(x0, x1, sh0, sh1) <= 2,
        ((((x0 as u32) >> sh0) | ((x1 as u32) << sh1)) & 0x7) < 8,
{
}

/// Packs a polynomial with coefficients in [-ETA, ETA] into 96 bytes at
/// offset off, in the 3-bit biased eta format.
pub fn eta_pack(r: &mut Vec<u8>, off: usize, a: &Poly)
    requires
        off + 96 <= old(r)@.len(),
        in_range(*a, -2, 2),
    ensures
        final(r)@.len() == old(r)@.len(),
        forall|i: int|
            0 <= i < old(r)@.len() && !(off <= i < off + 96) ==> final(r)@[i] == old(r)@[i],
        forall|i: int| 0 <= i < 32 ==> #[trigger] eta_chunk_ok(final(r)@, off as int, *a, i),
{
    let n: usize = r.len();
    let mut i: usize = 0;
    while i < 32
        invariant
            off + 96 <= n,
            n == r@.len(),
            r@.len() == old(r)@.len(),
            in_range(*a, -2, 2),
            0 <= i <= 32,
            forall|j: int|
                0 <= j < r@.len() && !(off <= j < off + 3 * i) ==> r@[j] == old(r)@[j],
            forall|j: int| 0 <= j < i ==> #[trigger] eta_chunk_ok(r@, off as int, *a, j),
        decreases 32 - i,
    {
        let t0: u8 = (2 - a.coeffs[8 * i]) as u8;
        let t1: u8 = (2 - a.coeffs[8 * i + 1]) as u8;
        let t2: u8 = (2 - a.coeffs[8 * i + 2]) as u8;
        let t3: u8 = (2 - a.coeffs[8 * i + 3]) as u8;
        let t4: u8 = (2 - a.coeffs[8 * i + 4]) as u8;
        let t5: u8 = (2 - a.coeffs[8 * i + 5]) as u8;
        let t6: u8 = (2 - a.coeffs[8 * i + 6]) as u8;
        let t7: u8 = (2 - a.coeffs[8 * i + 7]) as u8;
        proof {
            lemma_eta_rt(t0, t1, t2, t3, t4, t5, t6, t7);
        }
        let ghost prev = r@;
        let b: usize = off + 3 * i;
        r[b] = #[verifier::truncate] ((t0 | (t1 << 3) | (t2 << 6)) as u8);
        r[b + 1] = #[verifier::truncate] (((t2 >> 2) | (t3 << 1) | (t4 << 4) | (t5 << 7)) as u8);
        r[b + 2] = #[verifier::truncate] (((t5 >> 1) | (t6 << 2) | (t7 << 5)) as u8);
        proof {
            assert(eta_chunk_ok(r@, off as int, *a, i as int));
            assert forall|j: int| 0 <= j < i implies #[trigger] eta_chunk_ok(
                r@,
                off as int,
                *a,
                j,
            ) by {
                assert(eta_chunk_ok(prev, off as int, *a, j));
                assert(r@[off + 3 * j + 0] == prev[off + 3 * j + 0]);
                assert(r@[off + 3 * j + 1] == prev[off + 3 * j + 1]);
                assert(r@[off + 3 * j + 2] == prev[off + 3 * j + 2]);
            }
        }
        i += 1;
    }
}

/// Unpacks 96 bytes at offset off in the 3-bit biased eta format; output
/// coefficients lie in [-5, 2].
pub fn eta_unpack(p: &mut Poly, s: &Vec<u8>, off: usize)
    requires
        off + 96 <= s@.len(),
    ensures
        forall|i: int| 0 <= i < 32 ==> #[trigger] eta_chunk_ok(s@, off as int, *final(p), i),
        in_range(*final(p), -5, 2),
{
    let n: usize = s.len();
    let mut i: usize = 0;
    while i < 32
        invariant
            off + 96 <= n,
            n == s@.len(),
            0 <= i <= 32,
            forall|j: int| 0 <= j < i ==> #[trigger] eta_chunk_ok(s@, off as int, *p, j),
            forall|j: int| 0 <= j < 8 * i ==> -5 <= #[trigger] p.coeffs@[j] <= 2,
        decreases 32 - i,
    {
        let b: usize = off + 3 * i;
        let x0: u8 = s[b];
        let x1: u8 = s[b + 1];
        let x2: u8 = s[b + 2];
        proof {
            lemma_eta_dec_range(x0, 0, 0, 8);
            lemma_eta_dec_range(x0, 0, 3, 8);
            lemma_eta_dec_range(x0, x1, 6, 2);
            lemma_eta_dec_range(x1, 0, 1, 8);
            lemma_eta_dec_range(x1, 0, 4, 8);
            lemma_eta_dec_range(x1, x2, 7, 1);
            lemma_eta_dec_range(x2, 0, 2, 8);
            lemma_eta_dec_range(x2, 0, 5, 8);
        }
        let r0: u32 = (((x0 as u32) >> 0) | ((0u32) << 8)) & 0x7;
        let r1: u32 = (((x0 as u32) >> 3) | ((0u32) << 8)) & 0x7;
        let r2: u32 = (((x0 as u32) >> 6) | ((x1 as u32) << 2)) & 0x7;
        let r3: u32 = (((x1 as u32) >> 1) | ((0u32) << 8)) & 0x7;
        let r4: u32 = (((x1 as u32) >> 4) | ((0u32) << 8)) & 0x7;
        let r5: u32 = (((x1 as u32) >> 7) | ((x2 as u32) << 1)) & 0x7;
        let r6: u32 = (((x2 as u32) >> 2) | ((0u32) << 8)) & 0x7;
        let r7: u32 = (((x2 as u32) >> 5) | ((0u32) << 8)) & 0x7;
        let ghost prevp = *p;
        p.coeffs[8 * i] = 2 - (r0 as i32);
        p.coeffs[8 * i + 1] = 2 - (r1 as i32);
        p.coeffs[8 * i + 2] = 2 - (r2 as i32);
        p.coeffs[8 * i + 3] = 2 - (r3 as i32);
        p.coeffs[8 * i + 4] = 2 - (r4 as i32);
        p.coeffs[8 * i + 5] = 2 - (r5 as i32);
        p.coeffs[8 * i + 6] = 2 - (r6 as i32);
        p.coeffs[8 * i + 7] = 2 - (r7 as i32);
        proof {
            assert(eta_chunk_ok(s@, off as int, *p, i as int));
            assert forall|j: int| 0 <= j < i implies #[trigger] eta_chunk_ok(
                s@,
                off as int,
                *p,
                j,
            ) by {
                assert(eta_chunk_ok(s@, off as int, prevp, j));
                assert(p.coeffs@[8 * j + 0] == prevp.coeffs@[8 * j + 0]);
                assert(p.coeffs@[8 * j + 1] == prevp.coeffs@[8 * j + 1]);
                assert(p.coeffs@[8 * j + 2] == prevp.coeffs@[8 * j + 2]);
                assert(p.coeffs@[8 * j + 3] == prevp.coeffs@[8 * j + 3]);
                assert(p.coeffs@[8 * j + 4] == prevp.coeffs@[8 * j + 4]);
                assert(p.coeffs@[8 * j + 5] == prevp.coeffs@[8 * j + 5]);
                assert(p.coeffs@[8 * j + 6] == prevp.coeffs@[8 * j + 6]);
                assert(p.coeffs@[8 * j + 7] == prevp.coeffs@[8 * j + 7]);
            }
        }
        i += 1;
    }
}

/// 20-bit biased decode of a coefficient from up to three bytes.
pub open spec fn zdec(x0: u8, x1: u8, x2: u8, sh0: u32, sh1: u32, sh2: u32) -> i32 {
    (524288 - ((((x0 as u32) >> sh0) | ((x1 as u32) << sh1) | ((x2 as u32) << sh2)) & 0xFFFFF))
        as i32
}

/// The i-th 5-byte group of the z format at offset off spells coefficients
/// 2i and 2i+1 of p.
pub open spec fn z_chunk_ok(s: Seq<u8>, off: int, p: Poly, i: int) -> bool {
    let b = off + 5 * i;
    &&& zdec(s[b], s[b + 1], s[b + 2], 0, 8, 16) == p.coeffs@[2 * i]
    &&& zdec(s[b + 2], s[b + 3], s[b + 4], 4, 4, 12) == p.coeffs@[2 * i + 1]
}

proof fn lemma_z_rt(t0: i32, t1: i32)
    by (bit_vector)
    requires
        0 <= t0 < 1048576,
        0 <= t1 < 1048576,
    ensures
        zdec(t0 as u8, (t0 >> 8) as u8, ((t0 >> 16) | (t1 << 4)) as u8, 0, 8, 16) == 524288 - t0,
        zdec(((t0 >> 16) | (t1 << 4)) as u8, (t1 >> 4) as u8, (t1 >> 12) as u8, 4, 4, 12) == 524288
            - t1,
{
}

proof fn lemma_z_dec_range(x0: u8, x1: u8, x2: u8, sh0: u32, sh1: u32, sh2: u32)
    by (bit_vector)
    ensures
        -524287 <= zdec(x0, x1, x2, sh0, sh1, sh2) <= 524288,
        ((((x0 as u32) >> sh0) | ((x1 as u32) << sh1) | ((x2 as u32) << sh2)) & 0xFFFFF)
            < 1048576,
{
}

/// Packs a polynomial with coefficients in (-GAMMA1, GAMMA1] into 640 bytes
/// at offset off, in the 20-bit biased z format.
pub fn z_pack(r: &mut Vec<u8>, off: usize, a: &Poly)
    requires
        off + 640 <= old(r)@.len(),
        in_range(*a, -524287, 524288),
    ensures
        final(r)@.len() == old(r)@.len(),
        forall|i: int|
            0 <= i < old(r)@.len() && !(off <= i < off + 640) ==> final(r)@[i] == old(r)@[i],
        forall|i: int| 0 <= i < 128 ==> #[trigger] z_chunk_ok(final(r)@, off as int, *a, i),
{
    let n: usize = r.len();
    let mut i: usize = 0;
    while i < 128
        invariant
            off + 640 <= n,
            n == r@.len(),
            r@.len() == old(r)@.len(),
            in_range(*a, -524287, 524288),
            0 <= i <= 128,
            forall|j: int|
                0 <= j < r@.len() && !(off <= j < off + 5 * i) ==> r@[j] == old(r)@[j],
            forall|j: int| 0 <= j < i ==> #[trigger] z_chunk_ok(r@, off as int, *a, j),
        decreases 128 - i,
    {
        let t0: i32 = 524288 - a.coeffs[2 * i];
        let t1: i32 = 524288 - a.coeffs[2 * i + 1];
        proof {
            lemma_z_rt(t0, t1);
        }
        let ghost prev = r@;
        let b: usize = off + 5 * i;
        r[b] = #[verifier::truncate] (t0 as u8);
        r[b + 1] = #[verifier::truncate] ((t0 >> 8) as u8);
        r[b + 2] = #[verifier::truncate] (((t0 >> 16) | (t1 << 4)) as u8);
        r[b + 3] = #[verifier::truncate] ((t1 >> 4) as u8);
        r[b + 4] = #[verifier::truncate] ((t1 >> 12) as u8);
        proof {
            assert(z_chunk_ok(r@, off as int, *a, i as int));
            assert forall|j: int| 0 <= j < i implies #[trigger] z_chunk_ok(
                r@,
                off as int,
                *a,
                j,
            ) by {
                assert(z_chunk_ok(prev, off as int, *a, j));
                assert(r@[off + 5 * j + 0] == prev[off + 5 * j + 0]);
                assert(r@[off + 5 * j + 1] == prev[off + 5 * j + 1]);
                assert(r@[off + 5 * j + 2] == prev[off + 5 * j + 2]);
                assert(r@[off + 5 * j + 3] == prev[off + 5 * j + 3]);
                assert(r@[off + 5 * j + 4] == prev[off + 5 * j + 4]);
            }
        }
        i += 1;
    }
}

/// Unpacks 640 bytes at offset off in the 20-bit biased z format; output
/// coefficients lie in [-(GAMMA1 - 1), GAMMA1].
pub fn z_unpack(p: &mut Poly, s: &Vec<u8>, off: usize)
    requires
        off + 640 <= s@.len(),
    ensures
        forall|i: int| 0 <= i < 128 ==> #[trigger] z_chunk_ok(s@, off as int, *final(p), i),
        in_range(*final(p), -524287, 524288),
{
    let n: usize = s.len();
    let mut i: usize = 0;
    while i < 128
        invariant
            off + 640 <= n,
            n == s@.len(),
            0 <= i <= 128,
            forall|j: int| 0 <= j < i ==> #[trigger] z_chunk_ok(s@, off as int, *p, j),
            forall|j: int| 0 <= j < 2 * i ==> -524287 <= #[trigger] p.coeffs@[j] <= 524288,
        decreases 128 - i,
    {
        let b: usize = off + 5 * i;
        let x0: u8 = s[b];
        let x1: u8 = s[b + 1];
        let x2: u8 = s[b + 2];
        let x3: u8 = s[b + 3];
        let x4: u8 = s[b + 4];
        proof {
            lemma_z_dec_range(x0, x1, x2, 0, 8, 16);
            lemma_z_dec_range(x2, x3, x4, 4, 4, 12);
        }
        let r0: u32 = (((x0 as u32) >> 0) | ((x1 as u32) << 8) | ((x2 as u32) << 16)) & 0xFFFFF;
        let r1: u32 = (((x2 as u32) >> 4) | ((x3 as u32) << 4) | ((x4 as u32) << 12)) & 0xFFFFF;
        let ghost prevp = *p;
        p.coeffs[2 * i] = 524288 - (r0 as i32);
        p.coeffs[2 * i + 1] = 524288 - (r1 as i32);
        proof {
            assert(z_chunk_ok(s@, off as int, *p, i as int));
            assert forall|j: int| 0 <= j < i implies #[trigger] z_chunk_ok(
                s@,
                off as int,
                *p,
                j,
            ) by {
                assert(z_chunk_ok(s@, off as int, prevp, j));
                assert(p.coeffs@[2 * j] == prevp.coeffs@[2 * j]);
                assert(p.coeffs@[2 * j + 1] == prevp.coeffs@[2 * j + 1]);
            }
        }
        i += 1;
    }
}

/// 4-bit decodes of the two coefficients a w1 byte spells.
pub open spec fn w1d0(x: u8) -> i32 {
    ((x as u32) & 0xF) as i32
}

/// High nibble of a w1 byte.
pub open spec fn w1d1(x: u8) -> i32 {
    (((x as u32) >> 4) & 0xF) as i32
}

/// The i-th byte of the w1 format at offset off spells coefficients 2i and
/// 2i+1 of p.
pub open spec fn w1_chunk_ok(s: Seq<u8>, off: int, p: Poly, i: int) -> bool {
    &&& w1d0(s[off + i]) == p.coeffs@[2 * i]
    &&& w1d1(s[off + i]) == p.coeffs@[2 * i + 1]
}

proof fn lemma_w1_rt(c0: i32, c1: i32)
    by (bit_vector)
    requires
        0 <= c0 < 16,
        0 <= c1 < 16,
    ensures
        w1d0((c0 | (c1 << 4)) as u8) == c0,
        w1d1((c0 | (c1 << 4)) as u8) == c1,
{
}

/// Packs a polynomial with coefficients in [0, 16) into 128 bytes at offset
/// off, two coefficients per byte.
pub fn w1_pack(r: &mut Vec<u8>, off: usize, a: &Poly)
    requires
        off + 128 <= old(r)@.len(),
        in_range(*a, 0, 15),
    ensures
        final(r)@.len() == old(r)@.len(),
        forall|i: int|
            0 <= i < old(r)@.len() && !(off <= i < off + 128) ==> final(r)@[i] == old(r)@[i],
        forall|i: int| 0 <= i < 128 ==> #[trigger] w1_chunk_ok(final(r)@, off as int, *a, i),
{
    let n: usize = r.len();
    let mut i: usize = 0;
    while i < 128
        invariant
            off + 128 <= n,
            n == r@.len(),
            r@.len() == old(r)@.len(),
            in_range(*a, 0, 15),
            0 <= i <= 128,
            forall|j: int|
                0 <= j < r@.len() && !(off <= j < off + i) ==> r@[j] == old(r)@[j],
            forall|j: int| 0 <= j < i ==> #[trigger] w1_chunk_ok(r@, off as int, *a, j),
        decreases 128 - i,
    {
        let c0: i32 = a.coeffs[2 * i];
        let c1: i32 = a.coeffs[2 * i + 1];
        proof {
            lemma_w1_rt(c0, c1);
        }
        let ghost prev = r@;
        r[off + i] = #[verifier::truncate] ((c0 | (c1 << 4)) as u8);
        proof {
            assert(w1_chunk_ok(r@, off as int, *a, i as int));
            assert forall|j: int| 0 <= j < i implies #[trigger] w1_chunk_ok(
                r@,
                off as int,
                *a,
                j,
            ) by {
                assert(w1_chunk_ok(prev, off as int, *a, j));
                assert(r@[off + j] == prev[off + j]);
            }
        }
        i += 1;
    }
}

// ---------------------------------------------------------------------------
// Deterministic samplers, keyed by an XOF over seed and nonce. Rejection
// loops are fuel-bounded: the fuel is generous enough that exhausting it is
// never observed, and the callers treat exhaustion as an internal failure.
// ---------------------------------------------------------------------------

/// The absorbed input of a seeded stream: seed followed by the nonce in
/// little-endian order.
pub open spec fn seeded_input(seed: Seq<u8>, nonce: u16) -> Seq<u8> {
    seed + seq![(nonce % 256) as u8, (nonce / 256) as u8]
}

/// Builds the absorbed input of a seeded stream.
fn stream_input(seed: &[u8], nonce: u16) -> (v: Vec<u8>)
    ensures
        v@ == seeded_input(seed@, nonce),
{
    let mut v: Vec<u8> = Vec::new();
    v.extend_from_slice(seed);
    v.push((nonce % 256) as u8);
    v.push((nonce / 256) as u8);
    proof {
        assert(v@ =~= seed@ + seq![(nonce % 256) as u8, (nonce / 256) as u8]);
    }
    v
}

proof fn lemma_cand23(b0: u8, b1: u8, b2: u8)
    by (bit_vector)
    ensures
        (((b0 as u32) | ((b1 as u32) << 8) | ((b2 as u32) << 16)) & 0x7FFFFF) as int == ((
        b0 as int) + (b1 as int) * 256 + (b2 as int) * 65536) % 0x800000,
        (((b0 as u32) | ((b1 as u32) << 8) | ((b2 as u32) << 16)) & 0x7FFFFF) < 0x800000,
{
}

/// The 23-bit little-endian candidate spelled by the k-th 3-byte group of a
/// buffer.
pub open spec fn uni_cand(buf: Seq<u8>, k: int) -> int {
    ((buf[3 * k] as int) + (buf[3 * k + 1] as int) * 256 + (buf[3 * k + 2] as int) * 65536)
        % 0x800000
}

/// The accepted candidates (values below Q) among the first k 3-byte groups
/// of a buffer, in order.
pub open spec fn uni_accepted(buf: Seq<u8>, k: int) -> Seq<int>
    decreases k,
{
    if k <= 0 {
        Seq::empty()
    } else if uni_cand(buf, k - 1) < 8380417 {
        uni_accepted(buf, k - 1).push(uni_cand(buf, k - 1))
    } else {
        uni_accepted(buf, k - 1)
    }
}

/// Fewer groups accept fewer candidates, and the shorter list is a prefix of
/// the longer.
pub proof fn lemma_uni_prefix(buf: Seq<u8>, k1: int, k2: int)
    requires
        0 <= k1 <= k2,
    ensures
        uni_accepted(buf, k1).len() <= uni_accepted(buf, k2).len(),
        uni_accepted(buf, k1) == uni_accepted(buf, k2).take(uni_accepted(buf, k1).len() as int),
    decreases k2 - k1,
{
    if k2 > k1 {
        lemma_uni_prefix(buf, k1, k2 - 1);
    }
    assert(uni_accepted(buf, k1) =~= uni_accepted(buf, k2).take(
        uni_accepted(buf, k1).len() as int,
    ));
}

/// The accepted candidates of the first k groups depend only on the first
/// 3 * k bytes.
pub proof fn lemma_uni_frame(b1: Seq<u8>, b2: Seq<u8>, k: int)
    requires
        forall|j: int| 0 <= j < 3 * k ==> #[trigger] b1[j] == b2[j],
    ensures
        uni_accepted(b1, k) == uni_accepted(b2, k),
    decreases k,
{
    if k > 0 {
        lemma_uni_frame(b1, b2, k - 1);
        assert(b1[3 * (k - 1)] == b2[3 * (k - 1)]);
        assert(b1[3 * (k - 1) + 1] == b2[3 * (k - 1) + 1]);
        assert(b1[3 * (k - 1) + 2] == b2[3 * (k - 1) + 2]);
        assert(uni_cand(b1, k - 1) == uni_cand(b2, k - 1));
    }
}

/// Rejection-samples coefficients uniform in [0, Q) from a byte buffer,
/// three bytes per candidate, writing from position ctr on: the values
/// written are exactly the accepted candidates of the buffer, in order, as
/// many as fit. Returns the new fill level; earlier and unreached
/// coefficients are untouched.
pub fn rej_uniform(a: &mut Poly, ctr: usize, buf: &Vec<u8>, buflen: usize) -> (r: usize)
    requires
        ctr <= 256,
        buflen <= buf@.len(),
        buflen <= 1000000000,
    ensures
        ctr <= r <= 256,
        uni_accepted(buf@, buflen as int / 3).len() <= 256 - ctr ==> r as int == ctr
            + uni_accepted(buf@, buflen as int / 3).len(),
        uni_accepted(buf@, buflen as int / 3).len() >= 256 - ctr ==> r == 256,
        forall|j: int|
            ctr <= j < r ==> #[trigger] final(a).coeffs@[j] == uni_accepted(
                buf@,
                buflen as int / 3,
            )[j - ctr],
        forall|j: int| 0 <= j < ctr ==> #[trigger] final(a).coeffs@[j] == old(a).coeffs@[j],
        forall|j: int| ctr <= j < r ==> 0 <= #[trigger] final(a).coeffs@[j] <= 8380416,
        forall|j: int| r <= j < 256 ==> #[trigger] final(a).coeffs@[j] == old(a).coeffs@[j],
{
    let mut c: usize = ctr;
    let mut k: usize = 0;
    while c < 256 && 3 * k + 3 <= buflen
        invariant
            ctr <= c <= 256,
            buflen <= buf@.len(),
            buflen <= 1000000000,
            3 * k <= buflen,
            c as int - ctr == uni_accepted(buf@, k as int).len(),
            forall|j: int|
                ctr <= j < c ==> #[trigger] a.coeffs@[j] == uni_accepted(buf@, k as int)[j - ctr],
            forall|j: int| 0 <= j < ctr ==> #[trigger] a.coeffs@[j] == old(a).coeffs@[j],
            forall|j: int| ctr <= j < c ==> 0 <= #[trigger] a.coeffs@[j] <= 8380416,
            forall|j: int| c <= j < 256 ==> #[trigger] a.coeffs@[j] == old(a).coeffs@[j],
        decreases buflen - 3 * k,
    {
        let t: u32 = ((buf[3 * k] as u32) | ((buf[3 * k + 1] as u32) << 8) | ((buf[3 * k + 2]
            as u32) << 16)) & 0x7FFFFF;
        proof {
            lemma_cand23(buf@[3 * k as int], buf@[3 * k as int + 1], buf@[3 * k as int + 2]);
            assert(t as int == uni_cand(buf@, k as int));
        }
        let ghost prev = *a;
        let ghost cprev = c as int;
        if (t as i32) < Q {
            a.coeffs[c] = t as i32;
            c += 1;
        }
        proof {
            if t < 8380417 {
                assert(uni_accepted(buf@, k as int + 1) == uni_accepted(buf@, k as int).push(
                    uni_cand(buf@, k as int),
                ));
            } else {
                assert(uni_accepted(buf@, k as int + 1) == uni_accepted(buf@, k as int));
            }
            assert forall|j: int| ctr <= j < c implies #[trigger] a.coeffs@[j] == uni_accepted(
                buf@,
                k as int + 1,
            )[j - ctr] by {
                if j < cprev {
                    assert(prev.coeffs@[j] == uni_accepted(buf@, k as int)[j - ctr]);
                    assert(a.coeffs@[j] == prev.coeffs@[j]);
                } else {
                    assert(a.coeffs@[j] == t as int);
                }
            }
        }
        k += 1;
    }
    proof {
        let g = buflen as int / 3;
        if 3 * k + 3 > buflen {
            vstd::arithmetic::div_mod::lemma_fundamental_div_mod_converse_div(
                buflen as int,
                3,
                k as int,
                buflen - 3 * (k as int),
            );
            assert(g == k as int);
        } else {
            assert(c == 256);
            vstd::arithmetic::div_mod::lemma_div_is_ordered(3 * (k as int), buflen as int, 3);
            vstd::arithmetic::div_mod::lemma_fundamental_div_mod_converse_div(
                3 * (k as int),
                3,
                k as int,
                0,
            );
            lemma_uni_prefix(buf@, k as int, g);
            assert forall|j: int| ctr <= j < c implies #[trigger] a.coeffs@[j] == uni_accepted(
                buf@,
                g,
            )[j - ctr] by {
                assert(a.coeffs@[j] == uni_accepted(buf@, k as int)[j - ctr]);
                assert(uni_accepted(buf@, k as int)[j - ctr] == uni_accepted(buf@, g).take(
                    uni_accepted(buf@, k as int).len() as int,
                )[j - ctr]);
            }
        }
    }
    c
}

/// The accepted 23-bit candidates of the SHAKE128 stream keyed by seed and
/// nonce, within the sampler's fuel budget of 64 blocks.
pub open spec fn uniform_candidates(seed: Seq<u8>, nonce: u16) -> Seq<int> {
    uni_accepted(crate::xof::shake128_prefix(seeded_input(seed, nonce), 10752), 3584)
}

/// Samples a polynomial with coefficients uniform in [0, Q) from the
/// SHAKE128 stream keyed by seed and nonce: on success the coefficients are
/// exactly the first 256 accepted candidates of the stream, so the result
/// depends on seed and nonce alone. Returns false only if the rejection
/// fuel runs out, which is never observed in practice.
pub fn uniform(a: &mut Poly, seed: &[u8], nonce: u16) -> (ok: bool)
    ensures
        ok <==> uniform_candidates(seed@, nonce).len() >= 256,
        ok ==> forall|j: int|
            0 <= j < 256 ==> #[trigger] final(a).coeffs@[j] == uniform_candidates(
                seed@,
                nonce,
            )[j],
        ok ==> in_range(*final(a), 0, 8380416),
{
    let input = stream_input(seed, nonce);
    let mut nb: usize = 5;
    while nb <= 64
        invariant
            input@ == seeded_input(seed@, nonce),
            nb >= 65 ==> uniform_candidates(seed@, nonce).len() < 256,
        decreases 65 - nb,
    {
        let buf = shake128_blocks(input.as_slice(), nb);
        let len: usize = buf.len();
        let c = rej_uniform(a, 0, &buf, len);
        if c == 256 {
            proof {
                let full = crate::xof::shake128_prefix(seeded_input(seed@, nonce), 10752);
                let g = 168 * (nb as int) / 3;
                vstd::arithmetic::div_mod::lemma_fundamental_div_mod_converse_div(
                    168 * (nb as int),
                    3,
                    56 * (nb as int),
                    0,
                );
                assert(g == 56 * (nb as int));
                assert forall|j: int| 0 <= j < 3 * g implies #[trigger] buf@[j] == full[j] by {
                    assert(buf@[j] == crate::xof::shake128_byte(seeded_input(seed@, nonce), j));
                }
                lemma_uni_frame(buf@, full, g);
                lemma_uni_prefix(full, g, 3584);
                assert forall|j: int| 0 <= j < 256 implies #[trigger] a.coeffs@[j]
                    == uniform_candidates(seed@, nonce)[j] by {
                    assert(a.coeffs@[j] == uni_accepted(buf@, g)[j]);
                    assert(uni_accepted(full, g)[j] == uni_accepted(full, 3584).take(
                        uni_accepted(full, g).len() as int,
                    )[j]);
                }
            }
            return true;
        }
        proof {
            if nb == 64 {
                assert(buf@ == crate::xof::shake128_prefix(seeded_input(seed@, nonce), 10752));
                vstd::arithmetic::div_mod::lemma_fundamental_div_mod_converse_div(
                    10752,
                    3,
                    3584,
                    0,
                );
            }
        }
        nb += 1;
    }
    false
}

proof fn lemma_mod5(t: u32)
    by (bit_vector)
    requires
        t < 15,
    ensures
        t - ((((205 * t) as u32 >> 10) as u32) * 5) == t % 5,
        t % 5 < 5,
{
}

/// The j-th 4-bit candidate of a buffer: the low nibble of byte j / 2 for
/// even j, the high nibble for odd j.
pub open spec fn eta_nib(buf: Seq<u8>, j: int) -> int {
    if j % 2 == 0 {
        (buf[j / 2] as int) % 16
    } else {
        (buf[j / 2] as int) / 16
    }
}

/// The accepted candidates (nibbles below 15, mapped to 2 - nibble mod 5)
/// among the first n nibbles of a buffer, in order.
pub open spec fn eta_accepted(buf: Seq<u8>, n: int) -> Seq<int>
    decreases n,
{
    if n <= 0 {
        Seq::empty()
    } else if eta_nib(buf, n - 1) < 15 {
        eta_accepted(buf, n - 1).push(2 - eta_nib(buf, n - 1) % 5)
    } else {
        eta_accepted(buf, n - 1)
    }
}

/// Fewer nibbles accept fewer candidates, and the shorter list is a prefix
/// of the longer.
pub proof fn lemma_eta_prefix(buf: Seq<u8>, n1: int, n2: int)
    requires
        0 <= n1 <= n2,
    ensures
        eta_accepted(buf, n1).len() <= eta_accepted(buf, n2).len(),
        eta_accepted(buf, n1) == eta_accepted(buf, n2).take(eta_accepted(buf, n1).len() as int),
    decreases n2 - n1,
{
    if n2 > n1 {
        lemma_eta_prefix(buf, n1, n2 - 1);
    }
    assert(eta_accepted(buf, n1) =~= eta_accepted(buf, n2).take(
        eta_accepted(buf, n1).len() as int,
    ));
}

/// The accepted candidates of the first n nibbles depend only on the first
/// (n + 1) / 2 bytes.
pub proof fn lemma_eta_frame(b1: Seq<u8>, b2: Seq<u8>, n: int)
    requires
        forall|j: int| 0 <= j < (n + 1) / 2 ==> #[trigger] b1[j] == b2[j],
    ensures
        eta_accepted(b1, n) == eta_accepted(b2, n),
    decreases n,
{
    if n > 0 {
        lemma_eta_frame(b1, b2, n - 1);
        assert(b1[(n - 1) / 2] == b2[(n - 1) / 2]);
        assert(eta_nib(b1, n - 1) == eta_nib(b2, n - 1));
    }
}

/// Rejection-samples coefficients uniform in [-ETA, ETA] from a byte
/// buffer, two 4-bit candidates per byte, writing from position ctr on: the
/// values written are exactly the accepted candidates of the buffer, in
/// order, as many as fit. Returns the new fill level.
pub fn rej_eta(a: &mut Poly, ctr: usize, buf: &Vec<u8>, buflen: usize) -> (r: usize)
    requires
        ctr <= 256,
        buflen <= buf@.len(),
        buflen <= 1000000000,
    ensures
        ctr <= r <= 256,
        eta_accepted(buf@, 2 * (buflen as int)).len() <= 256 - ctr ==> r as int == ctr
            + eta_accepted(buf@, 2 * (buflen as int)).len(),
        eta_accepted(buf@, 2 * (buflen as int)).len() >= 256 - ctr ==> r == 256,
        forall|j: int|
            ctr <= j < r ==> #[trigger] final(a).coeffs@[j] == eta_accepted(
                buf@,
                2 * (buflen as int),
            )[j - ctr],
        forall|j: int| 0 <= j < ctr ==> #[trigger] final(a).coeffs@[j] == old(a).coeffs@[j],
        forall|j: int| ctr <= j < r ==> -2 <= #[trigger] final(a).coeffs@[j] <= 2,
        forall|j: int| r <= j < 256 ==> #[trigger] final(a).coeffs@[j] == old(a).coeffs@[j],
{
    let mut c: usize = ctr;
    let mut pos: usize = 0;
    let ghost mut nn: int = 0;
    while c < 256 && pos < buflen
        invariant
            ctr <= c <= 256,
            buflen <= buf@.len(),
            buflen <= 1000000000,
            pos <= buflen,
            nn == 2 * pos || (nn == 2 * (pos as int) - 1 && c == 256),
            0 <= nn,
            c as int - ctr == eta_accepted(buf@, nn).len(),
            forall|j: int|
                ctr <= j < c ==> #[trigger] a.coeffs@[j] == eta_accepted(buf@, nn)[j - ctr],
            forall|j: int| 0 <= j < ctr ==> #[trigger] a.coeffs@[j] == old(a).coeffs@[j],
            forall|j: int| ctr <= j < c ==> -2 <= #[trigger] a.coeffs@[j] <= 2,
            forall|j: int| c <= j < 256 ==> #[trigger] a.coeffs@[j] == old(a).coeffs@[j],
        decreases buflen - pos,
    {
        let byte: u8 = buf[pos];
        let t0: u32 = (byte % 16) as u32;
        let t1: u32 = (byte / 16) as u32;
        proof {
            vstd::arithmetic::div_mod::lemma_fundamental_div_mod_converse_div(
                2 * (pos as int),
                2,
                pos as int,
                0,
            );
            vstd::arithmetic::div_mod::lemma_fundamental_div_mod_converse_mod(
                2 * (pos as int),
                2,
                pos as int,
                0,
            );
            vstd::arithmetic::div_mod::lemma_fundamental_div_mod_converse_div(
                2 * (pos as int) + 1,
                2,
                pos as int,
                1,
            );
            vstd::arithmetic::div_mod::lemma_fundamental_div_mod_converse_mod(
                2 * (pos as int) + 1,
                2,
                pos as int,
                1,
            );
            assert(eta_nib(buf@, 2 * (pos as int)) == t0 as int);
            assert(eta_nib(buf@, 2 * (pos as int) + 1) == t1 as int);
        }
        let ghost prev0 = *a;
        let ghost c0 = c as int;
        if t0 < 15 {
            proof {
                lemma_mod5(t0);
            }
            let v: u32 = t0 - ((205 * t0) >> 10) * 5;
            a.coeffs[c] = 2 - (v as i32);
            c += 1;
        }
        proof {
            nn = nn + 1;
            assert(nn - 1 == 2 * (pos as int));
            if t0 < 15 {
                assert(eta_accepted(buf@, nn) == eta_accepted(buf@, nn - 1).push(
                    2 - eta_nib(buf@, nn - 1) % 5,
                ));
            } else {
                assert(eta_accepted(buf@, nn) == eta_accepted(buf@, nn - 1));
            }
            assert forall|j: int| ctr <= j < c implies #[trigger] a.coeffs@[j] == eta_accepted(
                buf@,
                nn,
            )[j - ctr] by {
                if j < c0 {
                    assert(prev0.coeffs@[j] == eta_accepted(buf@, nn - 1)[j - ctr]);
                    assert(a.coeffs@[j] == prev0.coeffs@[j]);
                } else {
                    assert(a.coeffs@[j] == 2 - (t0 as int) % 5);
                }
            }
        }
        let ghost prev1 = *a;
        let ghost c1 = c as int;
        if t1 < 15 && c < 256 {
            proof {
                lemma_mod5(t1);
            }
            let v: u32 = t1 - ((205 * t1) >> 10) * 5;
            a.coeffs[c] = 2 - (v as i32);
            c += 1;
        }
        proof {
            if t1 < 15 && c1 == 256 {
                // Capacity reached: the high nibble is not consumed.
            } else {
                nn = nn + 1;
                assert(nn - 1 == 2 * (pos as int) + 1);
                if t1 < 15 {
                    assert(eta_accepted(buf@, nn) == eta_accepted(buf@, nn - 1).push(
                        2 - eta_nib(buf@, nn - 1) % 5,
                    ));
                } else {
                    assert(eta_accepted(buf@, nn) == eta_accepted(buf@, nn - 1));
                }
            }
            assert forall|j: int| ctr <= j < c implies #[trigger] a.coeffs@[j] == eta_accepted(
                buf@,
                nn,
            )[j - ctr] by {
                if j < c1 {
                    assert(prev1.coeffs@[j] == eta_accepted(
                        buf@,
                        2 * (pos as int) + 1,
                    )[j - ctr]);
                    assert(a.coeffs@[j] == prev1.coeffs@[j]);
                } else {
                    assert(a.coeffs@[j] == 2 - (t1 as int) % 5);
                }
            }
        }
        pos += 1;
    }
    proof {
        let nfull = 2 * (buflen as int);
        if c < 256 {
            assert(pos == buflen && nn == nfull);
        } else {
            assert(nn <= nfull);
            lemma_eta_prefix(buf@, nn, nfull);
            assert forall|j: int| ctr <= j < c implies #[trigger] a.coeffs@[j] == eta_accepted(
                buf@,
                nfull,
            )[j - ctr] by {
                assert(a.coeffs@[j] == eta_accepted(buf@, nn)[j - ctr]);
                assert(eta_accepted(buf@, nn)[j - ctr] == eta_accepted(buf@, nfull).take(
                    eta_accepted(buf@, nn).len() as int,
                )[j - ctr]);
            }
        }
    }
    c
}

/// The accepted 4-bit candidates of the SHAKE256 stream keyed by seed and
/// nonce, within the sampler's fuel budget of 64 blocks.
pub open spec fn eta_candidates(seed: Seq<u8>, nonce: u16) -> Seq<int> {
    eta_accepted(crate::xof::shake256_prefix(seeded_input(seed, nonce), 8704), 17408)
}

/// Samples a polynomial with coefficients uniform in [-ETA, ETA] from the
/// SHAKE256 stream keyed by seed and nonce: on success the coefficients are
/// exactly the first 256 accepted candidates of the stream, so the result
/// depends on seed and nonce alone. Returns false only if the rejection
/// fuel runs out, which is never observed in practice.
pub fn uniform_eta(a: &mut Poly, seed: &[u8], nonce: u16) -> (ok: bool)
    ensures
        ok <==> eta_candidates(seed@, nonce).len() >= 256,
        ok ==> forall|j: int|
            0 <= j < 256 ==> #[trigger] final(a).coeffs@[j] == eta_candidates(seed@, nonce)[j],
        ok ==> in_range(*final(a), -2, 2),
{
    let input = stream_input(seed, nonce);
    let mut nb: usize = 1;
    while nb <= 64
        invariant
            input@ == seeded_input(seed@, nonce),
            nb >= 65 ==> eta_candidates(seed@, nonce).len() < 256,
        decreases 65 - nb,
    {
        let buf = shake256_blocks(input.as_slice(), nb);
        let len: usize = buf.len();
        let c = rej_eta(a, 0, &buf, len);
        if c == 256 {
            proof {
                let full = crate::xof::shake256_prefix(seeded_input(seed@, nonce), 8704);
                let n = 2 * (136 * (nb as int));
                vstd::arithmetic::div_mod::lemma_fundamental_div_mod_converse_div(
                    n + 1,
                    2,
                    136 * (nb as int),
                    1,
                );
                assert forall|j: int| 0 <= j < (n + 1) / 2 implies #[trigger] buf@[j] == full[j]
                    by {
                    assert(buf@[j] == crate::xof::shake256_byte(seeded_input(seed@, nonce), j));
                }
                lemma_eta_frame(buf@, full, n);
                lemma_eta_prefix(full, n, 17408);
                assert forall|j: int| 0 <= j < 256 implies #[trigger] a.coeffs@[j]
                    == eta_candidates(seed@, nonce)[j] by {
                    assert(a.coeffs@[j] == eta_accepted(buf@, n)[j]);
                    assert(eta_accepted(full, n)[j] == eta_accepted(full, 17408).take(
                        eta_accepted(full, n).len() as int,
                    )[j]);
                }
            }
            return true;
        }
        proof {
            if nb == 64 {
                assert(buf@ == crate::xof::shake256_prefix(seeded_input(seed@, nonce), 8704));
            }
        }
        nb += 1;
    }
    false
}

/// The uniform stream keyed by seed and nonce yields enough accepted
/// candidates within the fuel budget.
pub open spec fn uniform_feasible(seed: Seq<u8>, nonce: u16) -> bool {
    uniform_candidates(seed, nonce).len() >= 256
}

/// The eta stream keyed by seed and nonce yields enough accepted candidates
/// within the fuel budget.
pub open spec fn eta_feasible(seed: Seq<u8>, nonce: u16) -> bool {
    eta_candidates(seed, nonce).len() >= 256
}

/// p holds the first 256 accepted candidates of the eta stream keyed by
/// seed and nonce.
pub open spec fn eta_row_ok(p: Poly, seed: Seq<u8>, nonce: u16) -> bool {
    &&& eta_candidates(seed, nonce).len() >= 256
    &&& forall|j: int| 0 <= j < 256 ==> #[trigger] p.coeffs@[j] == eta_candidates(seed, nonce)[j]
}

/// p holds the first 256 accepted candidates of the uniform stream keyed by
/// seed and nonce.
pub open spec fn uniform_row_ok(p: Poly, seed: Seq<u8>, nonce: u16) -> bool {
    &&& uniform_candidates(seed, nonce).len() >= 256
    &&& forall|j: int|
        0 <= j < 256 ==> #[trigger] p.coeffs@[j] == uniform_candidates(seed, nonce)[j]
}

/// p spells exactly one packed-z's worth of the SHAKE256 stream keyed by
/// seed and nonce.
pub open spec fn gamma1_row_ok(p: Poly, seed: Seq<u8>, nonce: u16) -> bool {
    forall|i: int|
        0 <= i < 128 ==> #[trigger] z_chunk_ok(
            crate::xof::shake256_prefix(seeded_input(seed, nonce), 680),
            0,
            p,
            i,
        )
}

/// Samples a masking polynomial with coefficients in [-(GAMMA1 - 1), GAMMA1]
/// by unpacking one packed-z's worth of the SHAKE256 stream keyed by seed
/// and nonce. No rejection is needed: the packing format constrains the
/// range, and the result is an exact function of the stream.
pub fn uniform_gamma1(a: &mut Poly, seed: &[u8], nonce: u16)
    ensures
        in_range(*final(a), -524287, 524288),
        gamma1_row_ok(*final(a), seed@, nonce),
{
    let input = stream_input(seed, nonce);
    let buf = shake256_blocks(input.as_slice(), 5);
    z_unpack(a, &buf, 0);
}

// ---------------------------------------------------------------------------
// The challenge sampler's meaning: a Fisher-Yates selection driven by the
// SHAKE256 stream of the seed, written out as spec recursion so that the
// sampled polynomial is a stated function of the seed.
// ---------------------------------------------------------------------------

/// The sign word read little-endian from the first 8 bytes of a buffer,
/// folded with an accumulator and its running place value.
pub open spec fn chal_signs_acc(buf: Seq<u8>, k: int, acc: int, mult: int) -> int
    decreases 8 - k,
{
    if k >= 8 {
        acc
    } else {
        chal_signs_acc(buf, k + 1, acc + (buf[k] as int) * mult, mult * 256)
    }
}

/// The 64-bit sign word of a challenge stream buffer.
pub open spec fn chal_signs(buf: Seq<u8>) -> int {
    chal_signs_acc(buf, 0, 0, 1)
}

/// The first position at or after pos whose byte is at most i, or limit if
/// the buffer runs out first.
pub open spec fn chal_find(buf: Seq<u8>, pos: int, limit: int, i: int) -> int
    decreases limit - pos,
{
    if pos >= limit {
        limit
    } else if buf[pos] <= i {
        pos
    } else {
        chal_find(buf, pos + 1, limit, i)
    }
}

/// One selection round per position i in [196, 256): draw the swap target b
/// by rejection from the byte stream, move the old value of b up to i, and
/// place a sign drawn from the sign word at b. None when the buffer runs
/// out.
pub open spec fn chal_step(
    buf: Seq<u8>,
    limit: int,
    c: Seq<int>,
    signs: int,
    pos: int,
    i: int,
) -> Option<Seq<int>>
    decreases 256 - i,
{
    if i >= 256 {
        Option::Some(c)
    } else {
        let p = chal_find(buf, pos, limit, i);
        if p >= limit {
            Option::None
        } else {
            let b = buf[p] as int;
            let c2 = c.update(i, c[b]).update(b, 1 - 2 * (signs % 2));
            chal_step(buf, limit, c2, signs / 2, p + 1, i + 1)
        }
    }
}

/// The all-zero coefficient sequence.
pub open spec fn zeros256() -> Seq<int> {
    Seq::new(256, |i: int| 0int)
}

/// The coefficients of p as a sequence of integers.
pub open spec fn coeffs_int(p: Poly) -> Seq<int> {
    Seq::new(256, |i: int| p.coeffs@[i] as int)
}

/// The challenge selection over a whole stream buffer: the outcome is a
/// function of the buffer alone.
pub open spec fn challenge_result(buf: Seq<u8>) -> Option<Seq<int>> {
    chal_step(buf, buf.len() as int, zeros256(), chal_signs(buf), 8, 196)
}

/// The canonical challenge of a 32-byte seed: the selection over the
/// sampler's full fuel budget of SHAKE256 output.
pub open spec fn challenge_of(seed32: Seq<u8>) -> Option<Seq<int>> {
    challenge_result(crate::xof::shake256_prefix(seed32, 8704))
}

proof fn lemma_chal_signs_frame(b1: Seq<u8>, b2: Seq<u8>, k: int, acc: int, mult: int)
    requires
        forall|x: int| 0 <= x < 8 ==> #[trigger] b1[x] == b2[x],
        0 <= k,
    ensures
        chal_signs_acc(b1, k, acc, mult) == chal_signs_acc(b2, k, acc, mult),
    decreases 8 - k,
{
    if k < 8 {
        lemma_chal_signs_frame(b1, b2, k + 1, acc + (b1[k] as int) * mult, mult * 256);
    }
}

proof fn lemma_chal_find_props(b: Seq<u8>, pos: int, limit: int, i: int)
    requires
        0 <= pos,
    ensures
        chal_find(b, pos, limit, i) == limit || (pos <= chal_find(b, pos, limit, i) < limit
            && b[chal_find(b, pos, limit, i)] <= i),
    decreases limit - pos,
{
    if pos < limit && b[pos] > i {
        lemma_chal_find_props(b, pos + 1, limit, i);
    }
}

proof fn lemma_chal_find_mono(b1: Seq<u8>, b2: Seq<u8>, pos: int, i: int)
    requires
        b1.len() <= b2.len(),
        forall|x: int| 0 <= x < b1.len() ==> #[trigger] b1[x] == b2[x],
        0 <= pos,
        chal_find(b1, pos, b1.len() as int, i) < b1.len(),
    ensures
        chal_find(b2, pos, b2.len() as int, i) == chal_find(b1, pos, b1.len() as int, i),
    decreases b1.len() - pos,
{
    if pos < b1.len() {
        if b1[pos] <= i {
        } else {
            lemma_chal_find_mono(b1, b2, pos + 1, i);
        }
    }
}

proof fn lemma_chal_step_mono(b1: Seq<u8>, b2: Seq<u8>, c: Seq<int>, signs: int, pos: int, i: int)
    requires
        b1.len() <= b2.len(),
        forall|x: int| 0 <= x < b1.len() ==> #[trigger] b1[x] == b2[x],
        0 <= pos,
        chal_step(b1, b1.len() as int, c, signs, pos, i) != Option::<Seq<int>>::None,
    ensures
        chal_step(b2, b2.len() as int, c, signs, pos, i) == chal_step(
            b1,
            b1.len() as int,
            c,
            signs,
            pos,
            i,
        ),
    decreases 256 - i,
{
    if i < 256 {
        let p = chal_find(b1, pos, b1.len() as int, i);
        assert(p < b1.len());
        lemma_chal_find_props(b1, pos, b1.len() as int, i);
        assert(0 <= p);
        lemma_chal_find_mono(b1, b2, pos, i);
        let b = b1[p] as int;
        let c2 = c.update(i, c[b]).update(b, 1 - 2 * (signs % 2));
        assert(chal_step(b1, b1.len() as int, c, signs, pos, i) == chal_step(
            b1,
            b1.len() as int,
            c2,
            signs / 2,
            p + 1,
            i + 1,
        ));
        lemma_chal_step_mono(b1, b2, c2, signs / 2, p + 1, i + 1);
        assert(chal_step(b2, b2.len() as int, c, signs, pos, i) == chal_step(
            b2,
            b2.len() as int,
            c2,
            signs / 2,
            p + 1,
            i + 1,
        ));
    }
}

/// One pass of the challenge sampler over a fixed stream buffer. Fills c
/// with a polynomial holding only coefficients in {-1, 0, 1}; it succeeds
/// exactly when the selection over this buffer completes, and then c is
/// that selection, with exactly TAU nonzero coefficients.
fn challenge_attempt(c: &mut Poly, buf: &Vec<u8>) -> (ok: bool)
    requires
        buf@.len() >= 8,
    ensures
        in_range(*final(c), -1, 1),
        ok ==> poly_ones(*final(c), 256) == 60,
        ok <==> challenge_result(buf@) != Option::<Seq<int>>::None,
        ok ==> challenge_result(buf@) == Option::Some(coeffs_int(*final(c))),
{
    let buflen: usize = buf.len();
    let mut signs: u64 = 0;
    let mut mult: u64 = 1;
    let mut i: usize = 0;
    proof {
        vstd::arithmetic::power2::lemma2_to64();
    }
    while i < 8
        invariant
            0 <= i <= 8,
            buf@.len() >= 8,
            i < 8 ==> signs < mult,
            mult as int == vstd::arithmetic::power2::pow2((8 * (i as nat)) as nat) || i == 8,
            i < 8 ==> chal_signs_acc(buf@, i as int, signs as int, mult as int) == chal_signs(
                buf@,
            ),
            i == 8 ==> signs as int == chal_signs(buf@),
        decreases 8 - i,
    {
        proof {
            vstd::arithmetic::power2::lemma2_to64();
            vstd::arithmetic::power2::lemma2_to64_rest();
            if i < 7 {
                vstd::arithmetic::power2::lemma_pow2_strictly_increases(8 * (i as nat), 56);
            }
            assert(mult <= 0x100000000000000);
            assert(chal_signs_acc(buf@, i as int, signs as int, mult as int) == chal_signs_acc(
                buf@,
                i as int + 1,
                signs as int + (buf@[i as int] as int) * (mult as int),
                (mult as int) * 256,
            ));
        }
        let bb: u8 = buf[i];
        proof {
            assert((signs as int) + (bb as int) * (mult as int) < 0x10000000000000000)
                by (nonlinear_arith)
                requires
                    (signs as int) < (mult as int),
                    (mult as int) <= 0x100000000000000,
                    (bb as int) <= 255,
                    (signs as int) >= 0,
                    (mult as int) >= 1,
            ;
            assert((signs as int) + (bb as int) * (mult as int) < 256 * (mult as int))
                by (nonlinear_arith)
                requires
                    (signs as int) < (mult as int),
                    (bb as int) <= 255,
                    (signs as int) >= 0,
                    (mult as int) >= 1,
            ;
        }
        signs = signs + (bb as u64) * mult;
        if i < 7 {
            proof {
                vstd::arithmetic::power2::lemma2_to64_rest();
                vstd::arithmetic::power2::lemma_pow2_strictly_increases(8 * (i as nat), 49);
                vstd::arithmetic::power2::lemma_pow2_adds(8 * (i as nat), 8);
            }
            mult = mult * 256;
        } else {
            proof {
                assert(chal_signs_acc(
                    buf@,
                    8,
                    signs as int,
                    (mult as int) * 256,
                ) == signs as int);
            }
        }
        i += 1;
    }
    let mut pos: usize = 8;
    let mut i: usize = 0;
    while i < 256
        invariant
            0 <= i <= 256,
            forall|j: int| 0 <= j < i ==> #[trigger] c.coeffs@[j] == 0,
        decreases 256 - i,
    {
        c.coeffs[i] = 0;
        i += 1;
    }
    proof {
        lemma_ones_zero(*c, 256);
        assert(coeffs_int(*c) =~= zeros256());
    }
    let mut i: usize = 196;
    while i < 256
        invariant
            196 <= i <= 256,
            buflen == buf@.len(),
            8 <= pos <= buflen,
            signs as int >= 0,
            forall|j: int| 0 <= j < 256 ==> -1 <= #[trigger] c.coeffs@[j] <= 1,
            forall|j: int| i <= j < 256 ==> #[trigger] c.coeffs@[j] == 0,
            poly_ones(*c, 256) == i - 196,
            chal_step(
                buf@,
                buflen as int,
                coeffs_int(*c),
                signs as int,
                pos as int,
                i as int,
            ) == challenge_result(buf@),
        decreases 256 - i,
    {
        let mut b: usize = 0;
        let mut found: bool = false;
        while !found && pos < buflen
            invariant
                buflen == buf@.len(),
                8 <= pos <= buflen,
                b < 256,
                196 <= i < 256,
                signs as int >= 0,
                !found ==> chal_step(
                    buf@,
                    buflen as int,
                    coeffs_int(*c),
                    signs as int,
                    pos as int,
                    i as int,
                ) == challenge_result(buf@),
                found ==> pos >= 9 && b == buf@[pos as int - 1] as int && buf@[pos as int - 1]
                    <= i && chal_find(buf@, pos as int - 1, buflen as int, i as int) == pos as int
                    - 1 && chal_step(
                    buf@,
                    buflen as int,
                    coeffs_int(*c),
                    signs as int,
                    pos as int - 1,
                    i as int,
                ) == challenge_result(buf@),
            decreases buflen - pos,
        {
            let cand: u8 = buf[pos];
            pos += 1;
            if (cand as usize) <= i {
                b = cand as usize;
                found = true;
            } else {
                proof {
                    assert(chal_find(buf@, pos as int - 1, buflen as int, i as int) == chal_find(
                        buf@,
                        pos as int,
                        buflen as int,
                        i as int,
                    ));
                }
            }
        }
        if !found {
            proof {
                assert(pos == buflen);
                assert(chal_find(buf@, pos as int, buflen as int, i as int) == buflen as int);
                assert(challenge_result(buf@) == Option::<Seq<int>>::None);
            }
            return false;
        }
        proof {
            assert(chal_find(buf@, pos as int - 1, buflen as int, i as int) < buflen as int);
        }
        let ghost cpre = coeffs_int(*c);
        let ghost p0 = *c;
        c.coeffs[i] = c.coeffs[b];
        let ghost pa = *c;
        c.coeffs[b] = 1 - 2 * ((signs % 2) as i32);
        proof {
            lemma_ones_set(p0, pa, i as int, 256);
            lemma_ones_set(pa, *c, b as int, 256);
            if b == i {
                assert(pa.coeffs@[i as int] == 0);
            } else {
                assert(pa.coeffs@[i as int] == p0.coeffs@[b as int]);
                assert(pa.coeffs@[b as int] == p0.coeffs@[b as int]);
            }
            assert(c.coeffs@[b as int] != 0);
            assert(coeffs_int(*c) =~= cpre.update(i as int, cpre[b as int]).update(
                b as int,
                1 - 2 * ((signs as int) % 2),
            ));
        }
        signs = signs / 2;
        i += 1;
    }
    true
}

/// Samples the sparse challenge polynomial from the SHAKE256 stream of the
/// first SEEDBYTES bytes of the given seed: on success the polynomial is
/// exactly the stream's Fisher-Yates selection — a function of those 32
/// bytes alone — with exactly TAU nonzero coefficients, each in {-1, 1}.
/// Success depends on the seed alone; it fails only when the selection
/// exhausts the full fuel budget, which is never observed in practice.
pub fn challenge(c: &mut Poly, seed: &[u8]) -> (ok: bool)
    requires
        seed@.len() >= 32,
    ensures
        ok ==> in_range(*final(c), -1, 1),
        ok ==> poly_ones(*final(c), 256) == 60,
        ok <==> challenge_of(seed@.subrange(0, 32)) != Option::<Seq<int>>::None,
        ok ==> challenge_of(seed@.subrange(0, 32)) == Option::Some(coeffs_int(*final(c))),
{
    let s32: &[u8] = vstd::slice::slice_subrange(seed, 0, 32);
    let mut nb: usize = 1;
    while nb <= 64
        invariant
            nb >= 1,
            s32@ == seed@.subrange(0, 32),
            s32@.len() == 32,
            nb >= 65 ==> challenge_of(seed@.subrange(0, 32)) == Option::<Seq<int>>::None,
        decreases 65 - nb,
    {
        let buf = shake256_blocks(s32, nb);
        if challenge_attempt(c, &buf) {
            proof {
                let full = crate::xof::shake256_prefix(s32@, 8704);
                assert forall|x: int| 0 <= x < buf@.len() implies #[trigger] buf@[x] == full[x]
                    by {
                    assert(buf@[x] == crate::xof::shake256_byte(s32@, x));
                }
                lemma_chal_signs_frame(buf@, full, 0, 0, 1);
                lemma_chal_step_mono(
                    buf@,
                    full,
                    zeros256(),
                    chal_signs(buf@),
                    8,
                    196,
                );
            }
            return true;
        }
        proof {
            if nb == 64 {
                assert(buf@ == crate::xof::shake256_prefix(s32@, 8704));
            }
        }
        nb += 1;
    }
    false
}

/// Number of nonzero coefficients among the first n of p.
pub open spec fn poly_ones(p: Poly, n: int) -> int
    decreases n,
{
    if n <= 0 {
        0
    } else {
        poly_ones(p, n - 1) + (if p.coeffs@[n - 1] != 0 {
            1int
        } else {
            0int
        })
    }
}

/// A zero prefix holds no nonzero coefficients.
pub proof fn lemma_ones_zero(p: Poly, n: int)
    requires
        forall|j: int| 0 <= j < n ==> #[trigger] p.coeffs@[j] == 0,
    ensures
        poly_ones(p, n) == 0,
    decreases n,
{
    if n > 0 {
        lemma_ones_zero(p, n - 1);
    }
}

/// Polynomials equal on a prefix have the same nonzero count there.
pub proof fn lemma_ones_frame(p1: Poly, p2: Poly, n: int)
    requires
        forall|j: int| 0 <= j < n ==> #[trigger] p1.coeffs@[j] == p2.coeffs@[j],
    ensures
        poly_ones(p1, n) == poly_ones(p2, n),
    decreases n,
{
    if n > 0 {
        lemma_ones_frame(p1, p2, n - 1);
    }
}

/// Changing one coefficient changes the nonzero count by the difference of
/// the two indicators.
pub proof fn lemma_ones_set(p1: Poly, p2: Poly, idx: int, n: int)
    requires
        0 <= idx < n,
        forall|j: int| 0 <= j < n && j != idx ==> #[trigger] p1.coeffs@[j] == p2.coeffs@[j],
    ensures
        poly_ones(p2, n) == poly_ones(p1, n) + (if p2.coeffs@[idx] != 0 {
            1int
        } else {
            0int
        }) - (if p1.coeffs@[idx] != 0 {
            1int
        } else {
            0int
        }),
    decreases n,
{
    if idx == n - 1 {
        lemma_ones_frame(p1, p2, n - 1);
    } else {
        lemma_ones_set(p1, p2, idx, n - 1);
    }
}

/// A polynomial of hint bits has as many nonzero coefficients as the sum of
/// its bits.
pub proof fn lemma_hint_sum_is_ones(h: Poly, a0: Poly, a1: Poly, n: int)
    requires
        forall|j: int|
            0 <= j < n ==> #[trigger] h.coeffs@[j] == hint_bit(
                a0.coeffs@[j] as int,
                a1.coeffs@[j] as int,
            ),
    ensures
        poly_ones(h, n) == hint_sum(a0, a1, n),
    decreases n,
{
    if n > 0 {
        lemma_hint_sum_is_ones(h, a0, a1, n - 1);
    }
}

/// The nonzero count is monotone in the prefix length and nonnegative.
pub proof fn lemma_poly_ones_mono(p: Poly, a: int, b: int)
    requires
        0 <= a <= b,
    ensures
        0 <= poly_ones(p, a) <= poly_ones(p, b),
        poly_ones(p, b) <= b,
    decreases b,
{
    if b > 0 {
        if a == b {
            lemma_poly_ones_mono(p, 0, b - 1);
        } else {
            lemma_poly_ones_mono(p, a, b - 1);
        }
    }
}


/// Round-trip law of the 10-bit format: a packed byte range spells exactly
/// one polynomial, so packing and unpacking are inverse on well-formed
/// input.
pub proof fn lemma_t1_format_injective(s: Seq<u8>, off: int, p: Poly, q: Poly)
    requires
        forall|c: int| 0 <= c < 64 ==> #[trigger] t1_chunk_ok(s, off, p, c),
        forall|c: int| 0 <= c < 64 ==> #[trigger] t1_chunk_ok(s, off, q, c),
    ensures
        forall|j: int| 0 <= j < 256 ==> #[trigger] p.coeffs@[j] == q.coeffs@[j],
{
    assert forall|j: int| 0 <= j < 256 implies #[trigger] p.coeffs@[j] == q.coeffs@[j] by {
        let c = j / 4;
        let m = j % 4;
        vstd::arithmetic::div_mod::lemma_fundamental_div_mod(j, 4);
        assert(t1_chunk_ok(s, off, p, c));
        assert(t1_chunk_ok(s, off, q, c));
        assert(j == 4 * c + m);
    }
}

/// Round-trip law of the 13-bit biased format.
pub proof fn lemma_t0_format_injective(s: Seq<u8>, off: int, p: Poly, q: Poly)
    requires
        forall|c: int| 0 <= c < 32 ==> #[trigger] t0_chunk_ok(s, off, p, c),
        forall|c: int| 0 <= c < 32 ==> #[trigger] t0_chunk_ok(s, off, q, c),
    ensures
        forall|j: int| 0 <= j < 256 ==> #[trigger] p.coeffs@[j] == q.coeffs@[j],
{
    assert forall|j: int| 0 <= j < 256 implies #[trigger] p.coeffs@[j] == q.coeffs@[j] by {
        let c = j / 8;
        let m = j % 8;
        vstd::arithmetic::div_mod::lemma_fundamental_div_mod(j, 8);
        assert(t0_chunk_ok(s, off, p, c));
        assert(t0_chunk_ok(s, off, q, c));
        assert(j == 8 * c + m);
    }
}

/// Round-trip law of the 3-bit biased format.
pub proof fn lemma_eta_format_injective(s: Seq<u8>, off: int, p: Poly, q: Poly)
    requires
        forall|c: int| 0 <= c < 32 ==> #[trigger] eta_chunk_ok(s, off, p, c),
        forall|c: int| 0 <= c < 32 ==> #[trigger] eta_chunk_ok(s, off, q, c),
    ensures
        forall|j: int| 0 <= j < 256 ==> #[trigger] p.coeffs@[j] == q.coeffs@[j],
{
    assert forall|j: int| 0 <= j < 256 implies #[trigger] p.coeffs@[j] == q.coeffs@[j] by {
        let c = j / 8;
        let m = j % 8;
        vstd::arithmetic::div_mod::lemma_fundamental_div_mod(j, 8);
        assert(eta_chunk_ok(s, off, p, c));
        assert(eta_chunk_ok(s, off, q, c));
        assert(j == 8 * c + m);
    }
}

/// Round-trip law of the 20-bit biased format.
pub proof fn lemma_z_format_injective(s: Seq<u8>, off: int, p: Poly, q: Poly)
    requires
        forall|c: int| 0 <= c < 128 ==> #[trigger] z_chunk_ok(s, off, p, c),
        forall|c: int| 0 <= c < 128 ==> #[trigger] z_chunk_ok(s, off, q, c),
    ensures
        forall|j: int| 0 <= j < 256 ==> #[trigger] p.coeffs@[j] == q.coeffs@[j],
{
    assert forall|j: int| 0 <= j < 256 implies #[trigger] p.coeffs@[j] == q.coeffs@[j] by {
        let c = j / 2;
        let m = j % 2;
        vstd::arithmetic::div_mod::lemma_fundamental_div_mod(j, 2);
        assert(z_chunk_ok(s, off, p, c));
        assert(z_chunk_ok(s, off, q, c));
        assert(j == 2 * c + m);
    }
}

/// Absolute value.
pub open spec fn iabs(x: int) -> int {
    if x < 0 {
        -x
    } else {
        x
    }
}

proof fn lemma_abs_trick(x: i32, dbl: i32)
    by (bit_vector)
    requires
        -1073741823 <= x <= 1073741823,
        dbl == (2 * x) as i32,
    ensures
        x - ((x >> 31) & dbl) == (if x < 0 { -x } else { x as int }),
{
}

/// Checks the infinity norm of a polynomial against a bound. Returns 0 when
/// the bound is admissible (at most (Q-1)/8) and every centered coefficient
/// is strictly below it; 1 otherwise.
pub fn chknorm(a: &Poly, b: i32) -> (r: i32)
    requires
        bounded(*a, 1073741823),
    ensures
        r == 0 || r == 1,
        r == 0 <==> (b <= 1047552 && forall|i: int| 0 <= i < 256 ==> iabs(#[trigger] a.coeffs@[i] as int)
            < b),
{
    if b > (Q - 1) / 8 {
        return 1;
    }
    let mut i: usize = 0;
    while i < 256
        invariant
            bounded(*a, 1073741823),
            0 <= i <= 256,
            forall|j: int| 0 <= j < i ==> iabs(#[trigger] a.coeffs@[j] as int) < b,
        decreases 256 - i,
    {
        let x: i32 = a.coeffs[i];
        let dbl: i32 = 2 * x;
        proof {
            lemma_abs_trick(x, dbl);
        }
        let t: i32 = x - ((x >> 31) & dbl);
        if t >= b {
            return 1;
        }
        i += 1;
    }
    0
}

} // verus!
