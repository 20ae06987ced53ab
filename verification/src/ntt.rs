//! In-place number-theoretic transform of length 256 over the working ring,
//! and its inverse (which carries an implicit 2^32 Montgomery scaling).
//!
//! The twiddle table holds the Montgomery forms of powers of the primitive
//! 512th root of unity 1753, in bit-reversed order, derived from the root on
//! demand and pinned exactly by spec. Both transforms carry inductive
//! butterfly specifications: the output is a stated function of the input
//! over the twiddle values.

use vstd::prelude::*;

use crate::params::Q;
use crate::poly::Poly;
use crate::reduce::montgomery_reduce;

verus! {

/// Primitive 512th root of unity modulo Q.
const ROOT_OF_UNITY: u64 = 1753;

/// 2^e modulo Q, as the doubling fold computes it.
pub open spec fn p2m(e: int) -> int
    decreases e,
{
    if e <= 0 {
        1
    } else {
        (2 * p2m(e - 1)) % 8380417
    }
}

/// base^e modulo Q by square and multiply, as the fold computes it: r is
/// the accumulated product, sq the current square, e the remaining exponent.
pub open spec fn powm_acc(r: int, sq: int, e: int) -> int
    decreases e,
{
    if e <= 0 {
        r
    } else if e % 2 == 1 {
        powm_acc((r * sq) % 8380417, (sq * sq) % 8380417, e / 2)
    } else {
        powm_acc(r, (sq * sq) % 8380417, e / 2)
    }
}

/// The n-bit reversal fold: r accumulates the bits of v lowest-first.
pub open spec fn brv_acc(v: int, r: int, n: int) -> int
    decreases n,
{
    if n <= 0 {
        r
    } else {
        brv_acc(v / 2, (r * 2 + v % 2) % 256, n - 1)
    }
}

/// Twiddle k: the Montgomery form of ROOT_OF_UNITY to the bit-reversed
/// power, canonical in [0, Q).
pub open spec fn zeta_at(k: int) -> int {
    (powm_acc(1, 1753, brv_acc(k, 0, 8)) * p2m(32)) % 8380417
}

/// One forward butterfly group of width len at base start with twiddle z:
/// each lower slot gains the Montgomery product of z and its partner, each
/// upper slot becomes the difference.
pub open spec fn ntt_group(s: Seq<i32>, z: int, start: int, len: int) -> Seq<i32> {
    Seq::new(
        256,
        |idx: int|
            if start <= idx < start + len {
                (s[idx] + crate::reduce::mont_spec((z * s[idx + len]) as i64)) as i32
            } else if start + len <= idx < start + 2 * len {
                (s[idx - len] - crate::reduce::mont_spec((z * s[idx]) as i64)) as i32
            } else {
                s[idx]
            },
    )
}

/// A whole forward level: the groups of width len applied in order from
/// base start, with twiddles taken upward from index k.
pub open spec fn ntt_level_spec(s: Seq<i32>, tab: Seq<i32>, len: int, k: int, start: int) -> Seq<
    i32,
>
    decreases 256 - start,
{
    if len < 1 || start < 0 || start + 2 * len > 256 {
        s
    } else {
        ntt_level_spec(ntt_group(s, tab[k] as int, start, len), tab, len, k + 1, start + 2 * len)
    }
}

/// One inverse butterfly group: each lower slot becomes the sum, each upper
/// slot the Montgomery product of zneg and the difference.
pub open spec fn inv_group(s: Seq<i32>, zneg: int, start: int, len: int) -> Seq<i32> {
    Seq::new(
        256,
        |idx: int|
            if start <= idx < start + len {
                (s[idx] + s[idx + len]) as i32
            } else if start + len <= idx < start + 2 * len {
                crate::reduce::mont_spec((zneg * (s[idx - len] - s[idx])) as i64) as i32
            } else {
                s[idx]
            },
    )
}

/// A whole inverse level: the groups of width len applied in order from
/// base start, with negated twiddles taken downward from index k - 1 (the
/// index is clamped at zero, mirroring the code; the clamp is never reached
/// at runtime).
pub open spec fn inv_level_spec(s: Seq<i32>, tab: Seq<i32>, len: int, k: int, start: int) -> Seq<
    i32,
>
    decreases 256 - start,
{
    if len < 1 || start < 0 || start + 2 * len > 256 {
        s
    } else {
        let kk = if k > 0 {
            k - 1
        } else {
            0
        };
        inv_level_spec(
            inv_group(s, 8380417 - tab[kk] as int, start, len),
            tab,
            len,
            kk,
            start + 2 * len,
        )
    }
}

/// The final inverse scaling: every slot is Montgomery-multiplied by f.
pub open spec fn inv_scale(s: Seq<i32>, f: int) -> Seq<i32> {
    Seq::new(256, |idx: int| crate::reduce::mont_spec((f * s[idx]) as i64) as i32)
}

/// The twiddle table as a specification value.
pub open spec fn zetas_spec() -> Seq<i32> {
    Seq::new(256, |k: int| zeta_at(k) as i32)
}

/// The forward transform: the eight butterfly levels over the twiddle
/// table, group width halving from 128 to 1.
pub open spec fn ntt_spec(s: Seq<i32>) -> Seq<i32> {
    let t = zetas_spec();
    ntt_level_spec(
        ntt_level_spec(
            ntt_level_spec(
                ntt_level_spec(
                    ntt_level_spec(
                        ntt_level_spec(
                            ntt_level_spec(ntt_level_spec(s, t, 128, 1, 0), t, 64, 2, 0),
                            t,
                            32,
                            4,
                            0,
                        ),
                        t,
                        16,
                        8,
                        0,
                    ),
                    t,
                    8,
                    16,
                    0,
                ),
                t,
                4,
                32,
                0,
            ),
            t,
            2,
            64,
            0,
        ),
        t,
        1,
        128,
        0,
    )
}

/// The inverse transform with its Montgomery scaling: the eight inverse
/// levels, group width doubling from 1 to 128, then the scaling by
/// 2^56 mod Q.
pub open spec fn invntt_spec(s: Seq<i32>) -> Seq<i32> {
    let t = zetas_spec();
    inv_scale(
        inv_level_spec(
            inv_level_spec(
                inv_level_spec(
                    inv_level_spec(
                        inv_level_spec(
                            inv_level_spec(
                                inv_level_spec(inv_level_spec(s, t, 1, 256, 0), t, 2, 128, 0),
                                t,
                                4,
                                64,
                                0,
                            ),
                            t,
                            8,
                            32,
                            0,
                        ),
                        t,
                        16,
                        16,
                        0,
                    ),
                    t,
                    32,
                    8,
                    0,
                ),
                t,
                64,
                4,
                0,
            ),
            t,
            128,
            2,
            0,
        ),
        p2m(56),
    )
}

/// Product modulo Q.
fn mulmod(a: u64, b: u64) -> (r: u64)
    requires
        a < 8380417,
        b < 8380417,
    ensures
        r < 8380417,
        r == (a * b) % 8380417,
{
    proof {
        assert(a * b < 0x4000000000000) by (nonlinear_arith)
            requires
                a < 8380417,
                b < 8380417,
        ;
    }
    (a * b) % 8380417
}

/// 2^e modulo Q.
fn pow2_mod(e: usize) -> (r: u64)
    requires
        e <= 64,
    ensures
        r < 8380417,
        r as int == p2m(e as int),
{
    let mut r: u64 = 1;
    let mut i: usize = 0;
    while i < e
        invariant
            r < 8380417,
            i <= e,
            r as int == p2m(i as int),
        decreases e - i,
    {
        r = (2 * r) % 8380417;
        i += 1;
    }
    r
}

/// base^e modulo Q for an 8-bit exponent, by square and multiply.
fn powmod(base: u64, e: usize) -> (r: u64)
    requires
        base < 8380417,
        e < 256,
    ensures
        r < 8380417,
        r as int == powm_acc(1, base as int, e as int),
{
    let mut r: u64 = 1;
    let mut sq: u64 = base;
    let mut e_left: usize = e;
    while e_left > 0
        invariant
            r < 8380417,
            sq < 8380417,
            powm_acc(r as int, sq as int, e_left as int) == powm_acc(1, base as int, e as int),
        decreases e_left,
    {
        if e_left % 2 == 1 {
            r = mulmod(r, sq);
        }
        sq = mulmod(sq, sq);
        e_left = e_left / 2;
    }
    r
}

/// The 8-bit reversal of k.
fn bitrev8(k: usize) -> (r: usize)
    requires
        k < 256,
    ensures
        r < 256,
        r as int == brv_acc(k as int, 0, 8),
{
    let mut v: usize = k;
    let mut r: usize = 0;
    let mut i: usize = 0;
    while i < 8
        invariant
            0 <= i <= 8,
            v < 256,
            r < 256,
            brv_acc(v as int, r as int, 8 - i as int) == brv_acc(k as int, 0, 8),
        decreases 8 - i,
    {
        r = (r * 2 + v % 2) % 256;
        v = v / 2;
        i += 1;
    }
    r
}

/// The twiddle table: entry k is the Montgomery form of
/// ROOT_OF_UNITY^bitrev8(k), a canonical representative in [0, Q), pinned
/// exactly by zeta_at.
fn zetas_table() -> (tab: Vec<i32>)
    ensures
        tab@.len() == 256,
        forall|i: int| 0 <= i < 256 ==> 0 <= #[trigger] tab@[i] < 8380417,
        forall|i: int| 0 <= i < 256 ==> #[trigger] tab@[i] as int == zeta_at(i),
{
    let mont: u64 = pow2_mod(32);
    let mut tab: Vec<i32> = Vec::new();
    let mut k: usize = 0;
    while k < 256
        invariant
            tab@.len() == k,
            k <= 256,
            mont < 8380417,
            mont as int == p2m(32),
            forall|i: int| 0 <= i < k ==> 0 <= #[trigger] tab@[i] < 8380417,
            forall|i: int| 0 <= i < k ==> #[trigger] tab@[i] as int == zeta_at(i),
        decreases 256 - k,
    {
        let e: usize = bitrev8(k);
        let z: u64 = mulmod(powmod(ROOT_OF_UNITY, e), mont);
        tab.push(z as i32);
        k += 1;
    }
    tab
}

/// One forward butterfly level: group width len, first twiddle index k0.
/// Every coefficient grows by at most Q in magnitude, and the result is
/// exactly the level's butterfly fold over the table.
fn ntt_level(a: &mut Poly, tab: &Vec<i32>, len: usize, k0: usize, bound: i32)
    requires
        tab@.len() == 256,
        forall|i: int| 0 <= i < 256 ==> 0 <= #[trigger] tab@[i] < 8380417,
        1 <= len <= 128,
        1 <= k0 <= 128,
        0 < bound <= 100000000,
        forall|i: int| 0 <= i < 256 ==> -bound <= #[trigger] old(a).coeffs@[i] <= bound,
    ensures
        forall|i: int|
            0 <= i < 256 ==> -(bound + 8380417) <= #[trigger] final(a).coeffs@[i] <= bound
                + 8380417,
        final(a).coeffs@ == ntt_level_spec(old(a).coeffs@, tab@, len as int, k0 as int, 0),
{
    let mut start: usize = 0;
    let mut k: usize = k0;
    while start + 2 * len <= 256
        invariant
            tab@.len() == 256,
            forall|i: int| 0 <= i < 256 ==> 0 <= #[trigger] tab@[i] < 8380417,
            1 <= len <= 128,
            0 < bound <= 100000000,
            start <= 256,
            1 <= k0 <= 128,
            k >= k0,
            2 * (k - k0) <= start,
            forall|i: int|
                0 <= i < 256 ==> -(bound + 8380417) <= #[trigger] a.coeffs@[i] <= bound + 8380417,
            forall|i: int| start <= i < 256 ==> -bound <= #[trigger] a.coeffs@[i] <= bound,
            ntt_level_spec(a.coeffs@, tab@, len as int, k as int, start as int) == ntt_level_spec(
                old(a).coeffs@,
                tab@,
                len as int,
                k0 as int,
                0,
            ),
        decreases 256 - start,
    {
        let zeta: i32 = tab[k];
        k += 1;
        let ghost prev = a.coeffs@;
        let stop: usize = start + len;
        let mut j: usize = start;
        while j < stop
            invariant
                tab@.len() == 256,
                1 <= len <= 128,
                0 < bound <= 100000000,
                0 <= zeta < 8380417,
                start <= j <= stop,
                stop == start + len,
                stop + len <= 256,
                prev.len() == 256,
                forall|i: int| start <= i < 256 ==> -bound <= #[trigger] prev[i] <= bound,
                forall|i: int| 0 <= i < 256 ==> -(bound + 8380417) <= #[trigger] prev[i] <= bound
                    + 8380417,
                forall|i: int|
                    0 <= i < 256 && !(start <= i < j) && !(start + (len as int) <= i < j + len)
                        ==> #[trigger] a.coeffs@[i] == prev[i],
                forall|i: int|
                    start <= i < j ==> #[trigger] a.coeffs@[i] as int == prev[i]
                        + crate::reduce::mont_spec(((zeta as int) * prev[i + len]) as i64),
                forall|i: int|
                    start + (len as int) <= i < j + len ==> #[trigger] a.coeffs@[i] as int == prev[
                        i - len
                    ] - crate::reduce::mont_spec(((zeta as int) * prev[i]) as i64),
                forall|i: int|
                    0 <= i < 256 ==> -(bound + 8380417) <= #[trigger] a.coeffs@[i] <= bound
                        + 8380417,
                forall|i: int|
                    j <= i < 256 && !(stop <= i < j + len) ==> -bound <= #[trigger] a.coeffs@[i]
                        <= bound,
            decreases stop - j,
        {
            let c: i32 = a.coeffs[j + len];
            proof {
                assert(0x80000000 * (Q as int) == 17996808470921216);
                assert(-17996808470921216 <= (zeta as i64) * (c as i64) <= 17996808470921216)
                    by (nonlinear_arith)
                    requires
                        0 <= zeta < 8380417,
                        -108380417 <= c <= 108380417,
                ;
                assert(c == prev[j + len]);
            }
            let t: i32 = montgomery_reduce((zeta as i64) * (c as i64));
            a.coeffs[j + len] = a.coeffs[j] - t;
            a.coeffs[j] = a.coeffs[j] + t;
            j += 1;
        }
        proof {
            assert(a.coeffs@ =~= ntt_group(prev, zeta as int, start as int, len as int));
            assert(ntt_level_spec(prev, tab@, len as int, k as int - 1, start as int)
                == ntt_level_spec(
                a.coeffs@,
                tab@,
                len as int,
                k as int,
                start as int + 2 * (len as int),
            ));
        }
        start = start + 2 * len;
    }
    proof {
        assert(ntt_level_spec(a.coeffs@, tab@, len as int, k as int, start as int) == a.coeffs@);
    }
}

/// In-place forward transform. Coefficients grow by at most 8 * Q in
/// magnitude.
pub fn ntt(a: &mut Poly)
    requires
        forall|i: int| 0 <= i < 256 ==> -8388608 <= #[trigger] old(a).coeffs@[i] <= 8388608,
    ensures
        forall|i: int| 0 <= i < 256 ==> -75431944 <= #[trigger] final(a).coeffs@[i] <= 75431944,
        final(a).coeffs@ == ntt_spec(old(a).coeffs@),
{
    let tab = zetas_table();
    proof {
        assert(tab@ =~= zetas_spec());
    }
    ntt_level(a, &tab, 128, 1, 8388608);
    ntt_level(a, &tab, 64, 2, 16769025);
    ntt_level(a, &tab, 32, 4, 25149442);
    ntt_level(a, &tab, 16, 8, 33529859);
    ntt_level(a, &tab, 8, 16, 41910276);
    ntt_level(a, &tab, 4, 32, 50290693);
    ntt_level(a, &tab, 2, 64, 58671110);
    ntt_level(a, &tab, 1, 128, 67051527);
}

/// One inverse butterfly level: group width len, twiddle indices taken
/// downward from k0. Magnitudes at most double, and the result is exactly
/// the level's butterfly fold over the table.
fn invntt_level(a: &mut Poly, tab: &Vec<i32>, len: usize, k0: usize, bound: i32)
    requires
        tab@.len() == 256,
        forall|i: int| 0 <= i < 256 ==> 0 <= #[trigger] tab@[i] < 8380417,
        1 <= len <= 128,
        k0 <= 256,
        8380417 <= bound <= 1072693376,
        forall|i: int| 0 <= i < 256 ==> -bound <= #[trigger] old(a).coeffs@[i] <= bound,
    ensures
        forall|i: int|
            0 <= i < 256 ==> -(2 * bound) <= #[trigger] final(a).coeffs@[i] <= 2 * bound,
        final(a).coeffs@ == inv_level_spec(old(a).coeffs@, tab@, len as int, k0 as int, 0),
{
    let mut start: usize = 0;
    let mut k: usize = k0;
    while start + 2 * len <= 256
        invariant
            tab@.len() == 256,
            forall|i: int| 0 <= i < 256 ==> 0 <= #[trigger] tab@[i] < 8380417,
            1 <= len <= 128,
            8380417 <= bound <= 1072693376,
            start <= 256,
            k <= 256,
            forall|i: int|
                0 <= i < 256 ==> -(2 * bound) <= #[trigger] a.coeffs@[i] <= 2 * bound,
            forall|i: int| start <= i < 256 ==> -bound <= #[trigger] a.coeffs@[i] <= bound,
            inv_level_spec(a.coeffs@, tab@, len as int, k as int, start as int) == inv_level_spec(
                old(a).coeffs@,
                tab@,
                len as int,
                k0 as int,
                0,
            ),
        decreases 256 - start,
    {
        // The twiddle index walks down from k0 - 1; the clamp at zero
        // mirrors the specification and is never reached at runtime.
        let ghost kpre = k as int;
        let zeta: i32 = if k > 0 {
            let kk = k - 1;
            k = kk;
            tab[kk]
        } else {
            tab[0]
        };
        let zneg: i32 = Q - zeta;
        proof {
            assert(zeta as int == tab@[if kpre > 0 {
                kpre - 1
            } else {
                0
            }]);
        }
        let ghost prev = a.coeffs@;
        let stop: usize = start + len;
        let mut j: usize = start;
        while j < stop
            invariant
                tab@.len() == 256,
                1 <= len <= 128,
                8380417 <= bound <= 1072693376,
                0 < zneg <= 8380417,
                start <= j <= stop,
                stop == start + len,
                stop + len <= 256,
                prev.len() == 256,
                forall|i: int| start <= i < 256 ==> -bound <= #[trigger] prev[i] <= bound,
                forall|i: int|
                    0 <= i < 256 ==> -(2 * bound) <= #[trigger] prev[i] <= 2 * bound,
                forall|i: int|
                    0 <= i < 256 && !(start <= i < j) && !(start + (len as int) <= i < j + len)
                        ==> #[trigger] a.coeffs@[i] == prev[i],
                forall|i: int|
                    start <= i < j ==> #[trigger] a.coeffs@[i] as int == prev[i] + prev[i + len],
                forall|i: int|
                    start + (len as int) <= i < j + len ==> #[trigger] a.coeffs@[i] as int
                        == crate::reduce::mont_spec(
                        ((zneg as int) * (prev[i - len] - prev[i])) as i64,
                    ),
                forall|i: int|
                    0 <= i < 256 ==> -(2 * bound) <= #[trigger] a.coeffs@[i] <= 2 * bound,
                forall|i: int|
                    j <= i < 256 && !(stop <= i < j + len) ==> -bound <= #[trigger] a.coeffs@[i]
                        <= bound,
            decreases stop - j,
        {
            let t: i32 = a.coeffs[j];
            let b: i32 = a.coeffs[j + len];
            proof {
                assert(t == prev[j as int] && b == prev[j + len]);
            }
            a.coeffs[j] = t + b;
            let diff: i32 = t - b;
            proof {
                assert(0x80000000 * (Q as int) == 17996808470921216);
                assert(-17996808470921216 <= (zneg as i64) * (diff as i64) <= 17996808470921216)
                    by (nonlinear_arith)
                    requires
                        0 < zneg <= 8380417,
                        -2145386752 <= diff <= 2145386752,
                ;
            }
            a.coeffs[j + len] = montgomery_reduce((zneg as i64) * (diff as i64));
            j += 1;
        }
        proof {
            assert(a.coeffs@ =~= inv_group(prev, zneg as int, start as int, len as int));
            assert(inv_level_spec(prev, tab@, len as int, kpre, start as int) == inv_level_spec(
                a.coeffs@,
                tab@,
                len as int,
                k as int,
                start as int + 2 * (len as int),
            ));
        }
        start = start + 2 * len;
    }
    proof {
        assert(inv_level_spec(a.coeffs@, tab@, len as int, k as int, start as int) == a.coeffs@);
    }
}

/// In-place inverse transform, including multiplication by 2^32: input
/// coefficients at most Q in magnitude give output coefficients strictly
/// below Q, and the result is exactly the inverse butterfly fold with its
/// final Montgomery scaling.
pub fn invntt_tomont(a: &mut Poly)
    requires
        forall|i: int| 0 <= i < 256 ==> -8380417 <= #[trigger] old(a).coeffs@[i] <= 8380417,
    ensures
        forall|i: int| 0 <= i < 256 ==> -8380416 <= #[trigger] final(a).coeffs@[i] <= 8380416,
        final(a).coeffs@ == invntt_spec(old(a).coeffs@),
{
    let tab = zetas_table();
    proof {
        assert(tab@ =~= zetas_spec());
    }
    invntt_level(a, &tab, 1, 256, 8380417);
    invntt_level(a, &tab, 2, 128, 16760834);
    invntt_level(a, &tab, 4, 64, 33521668);
    invntt_level(a, &tab, 8, 32, 67043336);
    invntt_level(a, &tab, 16, 16, 134086672);
    invntt_level(a, &tab, 32, 8, 268173344);
    invntt_level(a, &tab, 64, 4, 536346688);
    invntt_level(a, &tab, 128, 2, 1072693376);
    // Scale by mont^2 / 256 = 2^56 mod Q to complete the inverse.
    let f: u64 = pow2_mod(56);
    let ghost prev = a.coeffs@;
    let mut j: usize = 0;
    while j < 256
        invariant
            f < 8380417,
            f as int == p2m(56),
            j <= 256,
            prev.len() == 256,
            forall|i: int| 0 <= i < 256 ==> -2145386752 <= #[trigger] prev[i] <= 2145386752,
            forall|i: int| j <= i < 256 ==> #[trigger] a.coeffs@[i] == prev[i],
            forall|i: int|
                0 <= i < j ==> #[trigger] a.coeffs@[i] as int == crate::reduce::mont_spec(
                    ((f as int) * prev[i]) as i64,
                ),
            forall|i: int| 0 <= i < j ==> -8380416 <= #[trigger] a.coeffs@[i] <= 8380416,
        decreases 256 - j,
    {
        let c: i32 = a.coeffs[j];
        proof {
            assert(0x80000000 * (Q as int) == 17996808470921216);
            assert(-17996808470921216 < (f as i64) * (c as i64) < 17996808470921216)
                by (nonlinear_arith)
                requires
                    0 <= f < 8380417,
                    -2145386752 <= c <= 2145386752,
            ;
            assert(c == prev[j as int]);
        }
        a.coeffs[j] = montgomery_reduce((f as i64) * (c as i64));
        j += 1;
    }
    proof {
        assert(a.coeffs@ =~= inv_scale(prev, f as int));
    }
}

} // verus!
