//! Fixed-length vectors of polynomials: tall vectors of K = 8 rows, short
//! vectors of L = 7 columns, and the on-demand public matrix, with the
//! element-wise operations lifted from the polynomial engine.

use vstd::prelude::*;

use crate::params::Q;
use crate::poly::{bounded, eta_feasible, eta_row_ok, gamma1_row_ok, in_range, uniform_feasible, uniform_row_ok, Poly};
use crate::reduce::red32_spec;
use crate::rounding::{dc_high, dc_low, hint_bit, p2r_high, p2r_low, use_hint_spec};

verus! {

/// A tall vector of K = 8 polynomials.
#[derive(Clone, Copy)]
pub struct Polyveck {
    pub vec: [Poly; 8],
}

/// A short vector of L = 7 polynomials.
#[derive(Clone, Copy)]
pub struct Polyvecl {
    pub vec: [Poly; 7],
}

/// Every coefficient of every row of v lies in [lo, hi].
pub open spec fn vk_in_range(v: Polyveck, lo: int, hi: int) -> bool {
    forall|i: int| 0 <= i < 8 ==> in_range(#[trigger] v.vec@[i], lo, hi)
}

/// Every coefficient of every column of v lies in [lo, hi].
pub open spec fn vl_in_range(v: Polyvecl, lo: int, hi: int) -> bool {
    forall|i: int| 0 <= i < 7 ==> in_range(#[trigger] v.vec@[i], lo, hi)
}

/// Every coefficient of every row of v lies in [-b, b].
pub open spec fn vk_bounded(v: Polyveck, b: int) -> bool {
    forall|i: int| 0 <= i < 8 ==> bounded(#[trigger] v.vec@[i], b)
}

/// Every coefficient of every column of v lies in [-b, b].
pub open spec fn vl_bounded(v: Polyvecl, b: int) -> bool {
    forall|i: int| 0 <= i < 7 ==> bounded(#[trigger] v.vec@[i], b)
}

/// The zero tall vector.
pub fn veck_zero() -> (r: Polyveck)
    ensures
        vk_in_range(r, 0, 0),
{
    let z = Poly::default();
    let r = Polyveck { vec: [z, z, z, z, z, z, z, z] };
    proof {
        assert forall|i: int| 0 <= i < 8 implies in_range(#[trigger] r.vec@[i], 0, 0) by {
            assert(r.vec@[i] == z);
        }
    }
    r
}

/// The zero short vector.
pub fn vecl_zero() -> (r: Polyvecl)
    ensures
        vl_in_range(r, 0, 0),
{
    let z = Poly::default();
    let r = Polyvecl { vec: [z, z, z, z, z, z, z] };
    proof {
        assert forall|i: int| 0 <= i < 7 implies in_range(#[trigger] r.vec@[i], 0, 0) by {
            assert(r.vec@[i] == z);
        }
    }
    r
}

/// p is the element-wise one-step reduction of q.
pub open spec fn red_row_ok(p: Poly, q: Poly) -> bool {
    forall|j: int| 0 <= j < 256 ==> #[trigger] p.coeffs@[j] == red32_spec(q.coeffs@[j])
}

/// p is the element-wise conditional add of Q to q.
pub open spec fn caddq_row_ok(p: Poly, q: Poly) -> bool {
    forall|j: int|
        0 <= j < 256 ==> #[trigger] p.coeffs@[j] == (if q.coeffs@[j] < 0 {
            q.coeffs@[j] + 8380417
        } else {
            q.coeffs@[j] as int
        })
}

/// Row-wise in-place reduction to representatives below Q in magnitude;
/// each coefficient becomes exactly its one-step reduction.
pub fn veck_reduce(v: &mut Polyveck)
    requires
        vk_bounded(*old(v), 2143289343),
    ensures
        vk_bounded(*final(v), 6283009),
        forall|i: int| 0 <= i < 8 ==> #[trigger] red_row_ok(final(v).vec@[i], old(v).vec@[i]),
{
    let mut i: usize = 0;
    while i < 8
        invariant
            0 <= i <= 8,
            forall|j: int| i <= j < 8 ==> #[trigger] v.vec@[j] == old(v).vec@[j],
            vk_bounded(*old(v), 2143289343),
            forall|j: int| 0 <= j < i ==> bounded(#[trigger] v.vec@[j], 6283009),
            forall|j: int| 0 <= j < i ==> #[trigger] red_row_ok(v.vec@[j], old(v).vec@[j]),
        decreases 8 - i,
    {
        crate::poly::reduce(&mut v.vec[i]);
        i += 1;
    }
}

/// Column-wise in-place reduction to representatives below Q in magnitude;
/// each coefficient becomes exactly its one-step reduction.
pub fn vecl_reduce(v: &mut Polyvecl)
    requires
        vl_bounded(*old(v), 2143289343),
    ensures
        vl_bounded(*final(v), 6283009),
        forall|i: int| 0 <= i < 7 ==> #[trigger] red_row_ok(final(v).vec@[i], old(v).vec@[i]),
{
    let mut i: usize = 0;
    while i < 7
        invariant
            0 <= i <= 7,
            forall|j: int| i <= j < 7 ==> #[trigger] v.vec@[j] == old(v).vec@[j],
            vl_bounded(*old(v), 2143289343),
            forall|j: int| 0 <= j < i ==> bounded(#[trigger] v.vec@[j], 6283009),
            forall|j: int| 0 <= j < i ==> #[trigger] red_row_ok(v.vec@[j], old(v).vec@[j]),
        decreases 7 - i,
    {
        crate::poly::reduce(&mut v.vec[i]);
        i += 1;
    }
}

/// Row-wise conditional add of Q: canonicalizes rows that are below Q in
/// magnitude into [0, Q); rows exceeding Q by a few units keep the excess.
/// Each coefficient becomes exactly its conditional add.
pub fn veck_caddq(v: &mut Polyveck)
    requires
        vk_bounded(*old(v), 8380419),
    ensures
        vk_in_range(*final(v), -2, 8380419),
        vk_bounded(*old(v), 8380416) ==> vk_in_range(*final(v), 0, 8380416),
        forall|i: int| 0 <= i < 8 ==> #[trigger] caddq_row_ok(final(v).vec@[i], old(v).vec@[i]),
{
    let mut i: usize = 0;
    while i < 8
        invariant
            0 <= i <= 8,
            forall|j: int| i <= j < 8 ==> #[trigger] v.vec@[j] == old(v).vec@[j],
            vk_bounded(*old(v), 8380419),
            forall|j: int| 0 <= j < i ==> in_range(#[trigger] v.vec@[j], -2, 8380419),
            vk_bounded(*old(v), 8380416) ==> forall|j: int|
                0 <= j < i ==> in_range(#[trigger] v.vec@[j], 0, 8380416),
            forall|j: int| 0 <= j < i ==> #[trigger] caddq_row_ok(v.vec@[j], old(v).vec@[j]),
        decreases 8 - i,
    {
        crate::poly::caddq(&mut v.vec[i]);
        i += 1;
    }
}


/// x is the coefficient-wise sum of y and z.
pub open spec fn padd_ok(x: Poly, y: Poly, z: Poly) -> bool {
    forall|j: int| 0 <= j < 256 ==> #[trigger] x.coeffs@[j] == y.coeffs@[j] + z.coeffs@[j]
}

/// x is the coefficient-wise difference of y and z.
pub open spec fn psub_ok(x: Poly, y: Poly, z: Poly) -> bool {
    forall|j: int| 0 <= j < 256 ==> #[trigger] x.coeffs@[j] == y.coeffs@[j] - z.coeffs@[j]
}

/// A coefficient-wise sum of bounded vectors is bounded by the sum of the
/// bounds.
pub proof fn lemma_vk_add_bound(vnew: Polyveck, vold: Polyveck, u: Polyveck, b1: int, b2: int)
    requires
        forall|i: int| 0 <= i < 8 ==> #[trigger] padd_ok(vnew.vec@[i], vold.vec@[i], u.vec@[i]),
        vk_bounded(vold, b1),
        vk_bounded(u, b2),
    ensures
        vk_bounded(vnew, b1 + b2),
{
    assert forall|i: int| 0 <= i < 8 implies bounded(#[trigger] vnew.vec@[i], b1 + b2) by {
        assert(padd_ok(vnew.vec@[i], vold.vec@[i], u.vec@[i]));
        assert(bounded(vold.vec@[i], b1));
        assert(bounded(u.vec@[i], b2));
    }
}

/// A coefficient-wise sum of bounded short vectors is bounded by the sum of
/// the bounds.
pub proof fn lemma_vl_add_bound(vnew: Polyvecl, vold: Polyvecl, u: Polyvecl, b1: int, b2: int)
    requires
        forall|i: int| 0 <= i < 7 ==> #[trigger] padd_ok(vnew.vec@[i], vold.vec@[i], u.vec@[i]),
        vl_bounded(vold, b1),
        vl_bounded(u, b2),
    ensures
        vl_bounded(vnew, b1 + b2),
{
    assert forall|i: int| 0 <= i < 7 implies bounded(#[trigger] vnew.vec@[i], b1 + b2) by {
        assert(padd_ok(vnew.vec@[i], vold.vec@[i], u.vec@[i]));
        assert(bounded(vold.vec@[i], b1));
        assert(bounded(u.vec@[i], b2));
    }
}

/// A coefficient-wise difference of bounded vectors is bounded by the sum of
/// the bounds.
pub proof fn lemma_vk_sub_bound(vnew: Polyveck, vold: Polyveck, u: Polyveck, b1: int, b2: int)
    requires
        forall|i: int| 0 <= i < 8 ==> #[trigger] psub_ok(vnew.vec@[i], vold.vec@[i], u.vec@[i]),
        vk_bounded(vold, b1),
        vk_bounded(u, b2),
    ensures
        vk_bounded(vnew, b1 + b2),
{
    assert forall|i: int| 0 <= i < 8 implies bounded(#[trigger] vnew.vec@[i], b1 + b2) by {
        assert(psub_ok(vnew.vec@[i], vold.vec@[i], u.vec@[i]));
        assert(bounded(vold.vec@[i], b1));
        assert(bounded(u.vec@[i], b2));
    }
}


/// Widening of a range on a tall vector.
pub proof fn lemma_vk_range_widen(v: Polyveck, lo1: int, hi1: int, lo2: int, hi2: int)
    requires
        vk_in_range(v, lo1, hi1),
        lo2 <= lo1,
        hi1 <= hi2,
    ensures
        vk_in_range(v, lo2, hi2),
{
    assert forall|i: int| 0 <= i < 8 implies in_range(#[trigger] v.vec@[i], lo2, hi2) by {
        assert(in_range(v.vec@[i], lo1, hi1));
    }
}

/// Range form of a bound on a tall vector.
pub proof fn lemma_vk_bounded_to_range(v: Polyveck, b: int, lo: int, hi: int)
    requires
        vk_bounded(v, b),
        lo <= -b,
        b <= hi,
    ensures
        vk_in_range(v, lo, hi),
{
    assert forall|i: int| 0 <= i < 8 implies in_range(#[trigger] v.vec@[i], lo, hi) by {
        assert(bounded(v.vec@[i], b));
    }
}

/// Range form of a bound on a short vector.
pub proof fn lemma_vl_bounded_to_range(v: Polyvecl, b: int, lo: int, hi: int)
    requires
        vl_bounded(v, b),
        lo <= -b,
        b <= hi,
    ensures
        vl_in_range(v, lo, hi),
{
    assert forall|i: int| 0 <= i < 7 implies in_range(#[trigger] v.vec@[i], lo, hi) by {
        assert(bounded(v.vec@[i], b));
    }
}

/// Bound form of a range on a tall vector.
pub proof fn lemma_vk_range_to_bounded(v: Polyveck, lo: int, hi: int, b: int)
    requires
        vk_in_range(v, lo, hi),
        -b <= lo,
        hi <= b,
    ensures
        vk_bounded(v, b),
{
    assert forall|i: int| 0 <= i < 8 implies bounded(#[trigger] v.vec@[i], b) by {
        assert(in_range(v.vec@[i], lo, hi));
    }
}

/// Bound form of a range on a short vector.
pub proof fn lemma_vl_range_to_bounded(v: Polyvecl, lo: int, hi: int, b: int)
    requires
        vl_in_range(v, lo, hi),
        -b <= lo,
        hi <= b,
    ensures
        vl_bounded(v, b),
{
    assert forall|i: int| 0 <= i < 7 implies bounded(#[trigger] v.vec@[i], b) by {
        assert(in_range(v.vec@[i], lo, hi));
    }
}

/// Row-wise in-place sum without reduction.
pub fn veck_add(v: &mut Polyveck, u: &Polyveck)
    requires
        vk_bounded(*old(v), 1000000000),
        vk_bounded(*u, 1000000000),
    ensures
        forall|i: int|
            0 <= i < 8 ==> #[trigger] padd_ok(final(v).vec@[i], old(v).vec@[i], u.vec@[i]),
{
    let mut i: usize = 0;
    while i < 8
        invariant
            0 <= i <= 8,
            forall|j: int| i <= j < 8 ==> #[trigger] v.vec@[j] == old(v).vec@[j],
            vk_bounded(*old(v), 1000000000),
            vk_bounded(*u, 1000000000),
            forall|j: int| 0 <= j < i ==> #[trigger] padd_ok(v.vec@[j], old(v).vec@[j], u.vec@[j]),
        decreases 8 - i,
    {
        crate::poly::add_ip(&mut v.vec[i], &u.vec[i]);
        i += 1;
    }
}

/// Column-wise in-place sum without reduction.
pub fn vecl_add(v: &mut Polyvecl, u: &Polyvecl)
    requires
        vl_bounded(*old(v), 1000000000),
        vl_bounded(*u, 1000000000),
    ensures
        forall|i: int|
            0 <= i < 7 ==> #[trigger] padd_ok(final(v).vec@[i], old(v).vec@[i], u.vec@[i]),
{
    let mut i: usize = 0;
    while i < 7
        invariant
            0 <= i <= 7,
            forall|j: int| i <= j < 7 ==> #[trigger] v.vec@[j] == old(v).vec@[j],
            vl_bounded(*old(v), 1000000000),
            vl_bounded(*u, 1000000000),
            forall|j: int| 0 <= j < i ==> #[trigger] padd_ok(v.vec@[j], old(v).vec@[j], u.vec@[j]),
        decreases 7 - i,
    {
        crate::poly::add_ip(&mut v.vec[i], &u.vec[i]);
        i += 1;
    }
}

/// Row-wise in-place difference without reduction.
pub fn veck_sub(v: &mut Polyveck, u: &Polyveck)
    requires
        vk_bounded(*old(v), 1000000000),
        vk_bounded(*u, 1000000000),
    ensures
        forall|i: int|
            0 <= i < 8 ==> #[trigger] psub_ok(final(v).vec@[i], old(v).vec@[i], u.vec@[i]),
{
    let mut i: usize = 0;
    while i < 8
        invariant
            0 <= i <= 8,
            forall|j: int| i <= j < 8 ==> #[trigger] v.vec@[j] == old(v).vec@[j],
            vk_bounded(*old(v), 1000000000),
            vk_bounded(*u, 1000000000),
            forall|j: int| 0 <= j < i ==> #[trigger] psub_ok(v.vec@[j], old(v).vec@[j], u.vec@[j]),
        decreases 8 - i,
    {
        crate::poly::sub_ip(&mut v.vec[i], &u.vec[i]);
        i += 1;
    }
}

/// p is q with every coefficient multiplied by 2^D.
pub open spec fn shiftl_row_ok(p: Poly, q: Poly) -> bool {
    forall|j: int| 0 <= j < 256 ==> #[trigger] p.coeffs@[j] == q.coeffs@[j] * 8192
}

/// Multiplies every coefficient by 2^D, exactly.
pub fn veck_shiftl(v: &mut Polyveck)
    requires
        vk_in_range(*old(v), 0, 1023),
    ensures
        vk_in_range(*final(v), 0, 8380416),
        forall|i: int| 0 <= i < 8 ==> #[trigger] shiftl_row_ok(final(v).vec@[i], old(v).vec@[i]),
{
    let mut i: usize = 0;
    while i < 8
        invariant
            0 <= i <= 8,
            forall|j: int| i <= j < 8 ==> #[trigger] v.vec@[j] == old(v).vec@[j],
            vk_in_range(*old(v), 0, 1023),
            forall|j: int| 0 <= j < i ==> in_range(#[trigger] v.vec@[j], 0, 8380416),
            forall|j: int| 0 <= j < i ==> #[trigger] shiftl_row_ok(v.vec@[j], old(v).vec@[j]),
        decreases 8 - i,
    {
        crate::poly::shiftl(&mut v.vec[i]);
        i += 1;
    }
}

/// Row-wise forward transform; each row becomes exactly the transform of
/// its old value.
pub fn veck_ntt(v: &mut Polyveck)
    requires
        vk_bounded(*old(v), 8388608),
    ensures
        vk_bounded(*final(v), 75431944),
        forall|i: int|
            0 <= i < 8 ==> (#[trigger] final(v).vec@[i]).coeffs@ == crate::ntt::ntt_spec(
                old(v).vec@[i].coeffs@,
            ),
{
    let mut i: usize = 0;
    while i < 8
        invariant
            0 <= i <= 8,
            forall|j: int| i <= j < 8 ==> #[trigger] v.vec@[j] == old(v).vec@[j],
            vk_bounded(*old(v), 8388608),
            forall|j: int| 0 <= j < i ==> bounded(#[trigger] v.vec@[j], 75431944),
            forall|j: int|
                0 <= j < i ==> (#[trigger] v.vec@[j]).coeffs@ == crate::ntt::ntt_spec(
                    old(v).vec@[j].coeffs@,
                ),
        decreases 8 - i,
    {
        crate::poly::ntt(&mut v.vec[i]);
        i += 1;
    }
}

/// Column-wise forward transform; each column becomes exactly the
/// transform of its old value.
pub fn vecl_ntt(v: &mut Polyvecl)
    requires
        vl_bounded(*old(v), 8388608),
    ensures
        vl_bounded(*final(v), 75431944),
        forall|i: int|
            0 <= i < 7 ==> (#[trigger] final(v).vec@[i]).coeffs@ == crate::ntt::ntt_spec(
                old(v).vec@[i].coeffs@,
            ),
{
    let mut i: usize = 0;
    while i < 7
        invariant
            0 <= i <= 7,
            forall|j: int| i <= j < 7 ==> #[trigger] v.vec@[j] == old(v).vec@[j],
            vl_bounded(*old(v), 8388608),
            forall|j: int| 0 <= j < i ==> bounded(#[trigger] v.vec@[j], 75431944),
            forall|j: int|
                0 <= j < i ==> (#[trigger] v.vec@[j]).coeffs@ == crate::ntt::ntt_spec(
                    old(v).vec@[j].coeffs@,
                ),
        decreases 7 - i,
    {
        crate::poly::ntt(&mut v.vec[i]);
        i += 1;
    }
}

/// Row-wise inverse transform with the Montgomery scaling; each row
/// becomes exactly the inverse transform of its old value.
pub fn veck_invntt_tomont(v: &mut Polyveck)
    requires
        vk_bounded(*old(v), 8380417),
    ensures
        vk_bounded(*final(v), 8380416),
        forall|i: int|
            0 <= i < 8 ==> (#[trigger] final(v).vec@[i]).coeffs@ == crate::ntt::invntt_spec(
                old(v).vec@[i].coeffs@,
            ),
{
    let mut i: usize = 0;
    while i < 8
        invariant
            0 <= i <= 8,
            forall|j: int| i <= j < 8 ==> #[trigger] v.vec@[j] == old(v).vec@[j],
            vk_bounded(*old(v), 8380417),
            forall|j: int| 0 <= j < i ==> bounded(#[trigger] v.vec@[j], 8380416),
            forall|j: int|
                0 <= j < i ==> (#[trigger] v.vec@[j]).coeffs@ == crate::ntt::invntt_spec(
                    old(v).vec@[j].coeffs@,
                ),
        decreases 8 - i,
    {
        crate::poly::invntt_tomont(&mut v.vec[i]);
        i += 1;
    }
}


/// Column-wise inverse transform with the Montgomery scaling; each column
/// becomes exactly the inverse transform of its old value.
pub fn vecl_invntt_tomont(v: &mut Polyvecl)
    requires
        vl_bounded(*old(v), 8380417),
    ensures
        vl_bounded(*final(v), 8380416),
        forall|i: int|
            0 <= i < 7 ==> (#[trigger] final(v).vec@[i]).coeffs@ == crate::ntt::invntt_spec(
                old(v).vec@[i].coeffs@,
            ),
{
    let mut i: usize = 0;
    while i < 7
        invariant
            0 <= i <= 7,
            forall|j: int| i <= j < 7 ==> #[trigger] v.vec@[j] == old(v).vec@[j],
            vl_bounded(*old(v), 8380417),
            forall|j: int| 0 <= j < i ==> bounded(#[trigger] v.vec@[j], 8380416),
            forall|j: int|
                0 <= j < i ==> (#[trigger] v.vec@[j]).coeffs@ == crate::ntt::invntt_spec(
                    old(v).vec@[j].coeffs@,
                ),
        decreases 7 - i,
    {
        crate::poly::invntt_tomont(&mut v.vec[i]);
        i += 1;
    }
}


/// hi and lo are the element-wise power-of-two split of orig.
pub open spec fn p2r_row_ok(hi: Poly, lo: Poly, orig: Poly) -> bool {
    forall|j: int|
        0 <= j < 256 ==> #[trigger] hi.coeffs@[j] == p2r_high(orig.coeffs@[j] as int)
            && lo.coeffs@[j] == p2r_low(orig.coeffs@[j] as int)
}

/// hi and lo are the element-wise high/low decomposition of orig.
pub open spec fn dc_row_ok(hi: Poly, lo: Poly, orig: Poly) -> bool {
    forall|j: int|
        0 <= j < 256 ==> #[trigger] hi.coeffs@[j] == dc_high(orig.coeffs@[j] as int)
            && lo.coeffs@[j] == dc_low(orig.coeffs@[j] as int)
}

/// h is the element-wise hint of the pair (lo, hi).
pub open spec fn mh_row_ok(h: Poly, lo: Poly, hi: Poly) -> bool {
    forall|j: int|
        0 <= j < 256 ==> #[trigger] h.coeffs@[j] == hint_bit(
            lo.coeffs@[j] as int,
            hi.coeffs@[j] as int,
        )
}

/// w is the element-wise hint correction of orig by h.
pub open spec fn uh_row_ok(w: Poly, orig: Poly, h: Poly) -> bool {
    forall|j: int|
        0 <= j < 256 ==> #[trigger] w.coeffs@[j] == use_hint_spec(
            orig.coeffs@[j] as int,
            h.coeffs@[j] as int,
        )
}

/// Row-wise power-of-two split of a canonical vector.
pub fn veck_power2round(v1: &mut Polyveck, v0: &mut Polyveck)
    requires
        vk_in_range(*old(v1), -4, 8380420),
    ensures
        vk_in_range(*final(v1), 0, 1023),
        vk_in_range(*final(v0), -4095, 4096),
        forall|i: int|
            0 <= i < 8 ==> #[trigger] p2r_row_ok(
                final(v1).vec@[i],
                final(v0).vec@[i],
                old(v1).vec@[i],
            ),
{
    let mut i: usize = 0;
    while i < 8
        invariant
            0 <= i <= 8,
            forall|j: int| i <= j < 8 ==> #[trigger] v1.vec@[j] == old(v1).vec@[j],
            vk_in_range(*old(v1), -4, 8380420),
            forall|j: int| 0 <= j < i ==> in_range(#[trigger] v1.vec@[j], 0, 1023),
            forall|j: int| 0 <= j < i ==> in_range(#[trigger] v0.vec@[j], -4095, 4096),
            forall|j: int|
                0 <= j < i ==> #[trigger] p2r_row_ok(v1.vec@[j], v0.vec@[j], old(v1).vec@[j]),
        decreases 8 - i,
    {
        let mut hi: Poly = v1.vec[i];
        let mut lo: Poly = v0.vec[i];
        crate::poly::power2round(&mut hi, &mut lo);
        v1.vec[i] = hi;
        v0.vec[i] = lo;
        i += 1;
    }
}

/// Row-wise high/low decomposition of a canonical vector.
pub fn veck_decompose(v1: &mut Polyveck, v0: &mut Polyveck)
    requires
        vk_in_range(*old(v1), 0, 8380416),
    ensures
        vk_in_range(*final(v1), 0, 15),
        vk_in_range(*final(v0), -261888, 261888),
        forall|i: int|
            0 <= i < 8 ==> #[trigger] dc_row_ok(
                final(v1).vec@[i],
                final(v0).vec@[i],
                old(v1).vec@[i],
            ),
{
    let mut i: usize = 0;
    while i < 8
        invariant
            0 <= i <= 8,
            forall|j: int| i <= j < 8 ==> #[trigger] v1.vec@[j] == old(v1).vec@[j],
            vk_in_range(*old(v1), 0, 8380416),
            forall|j: int| 0 <= j < i ==> in_range(#[trigger] v1.vec@[j], 0, 15),
            forall|j: int| 0 <= j < i ==> in_range(#[trigger] v0.vec@[j], -261888, 261888),
            forall|j: int|
                0 <= j < i ==> #[trigger] dc_row_ok(v1.vec@[j], v0.vec@[j], old(v1).vec@[j]),
        decreases 8 - i,
    {
        let mut hi: Poly = v1.vec[i];
        let mut lo: Poly = v0.vec[i];
        crate::poly::decompose(&mut hi, &mut lo);
        v1.vec[i] = hi;
        v0.vec[i] = lo;
        i += 1;
    }
}


/// Total number of nonzero hint coefficients in the first k rows of v.
pub open spec fn vk_ones(v: Polyveck, k: int) -> int
    decreases k,
{
    if k <= 0 {
        0
    } else {
        vk_ones(v, k - 1) + crate::poly::poly_ones(v.vec@[k - 1], 256)
    }
}

/// The row-wise nonzero count depends only on the first k rows.
pub proof fn lemma_vk_ones_frame(v1: Polyveck, v2: Polyveck, k: int)
    requires
        forall|j: int| 0 <= j < k ==> #[trigger] v1.vec@[j] == v2.vec@[j],
    ensures
        vk_ones(v1, k) == vk_ones(v2, k),
    decreases k,
{
    if k > 0 {
        lemma_vk_ones_frame(v1, v2, k - 1);
    }
}

/// The row-wise nonzero count is monotone and bounded by 256 per row.
pub proof fn lemma_vk_ones_mono(v: Polyveck, a: int, b: int)
    requires
        0 <= a <= b <= 8,
    ensures
        0 <= vk_ones(v, a) <= vk_ones(v, b),
        vk_ones(v, b) <= 256 * b,
    decreases b,
{
    if b > 0 {
        crate::poly::lemma_poly_ones_mono(v.vec@[b - 1], 0, 256);
        if a == b {
            lemma_vk_ones_mono(v, 0, b - 1);
        } else {
            lemma_vk_ones_mono(v, a, b - 1);
        }
    }
}

/// Row-wise hint computation; returns the total number of set hint bits.
pub fn veck_make_hint(h: &mut Polyveck, v0: &Polyveck, v1: &Polyveck) -> (s: i32)
    ensures
        vk_in_range(*final(h), 0, 1),
        0 <= s <= 2048,
        s == vk_ones(*final(h), 8),
        forall|i: int| 0 <= i < 8 ==> #[trigger] mh_row_ok(final(h).vec@[i], v0.vec@[i], v1.vec@[i]),
{
    let mut s: i32 = 0;
    let mut i: usize = 0;
    while i < 8
        invariant
            0 <= i <= 8,
            0 <= s <= 256 * i,
            s == vk_ones(*h, i as int),
            forall|j: int| 0 <= j < i ==> in_range(#[trigger] h.vec@[j], 0, 1),
            forall|j: int| 0 <= j < i ==> #[trigger] mh_row_ok(h.vec@[j], v0.vec@[j], v1.vec@[j]),
        decreases 8 - i,
    {
        let ghost hprev = *h;
        let mut hp: Poly = h.vec[i];
        let bits: i32 = crate::poly::make_hint(&mut hp, &v0.vec[i], &v1.vec[i]);
        h.vec[i] = hp;
        proof {
            lemma_vk_ones_frame(hprev, *h, i as int);
            crate::poly::lemma_hint_sum_is_ones(hp, v0.vec@[i as int], v1.vec@[i as int], 256);
            assert(vk_ones(*h, i as int + 1) == vk_ones(*h, i as int) + crate::poly::poly_ones(
                h.vec@[i as int],
                256,
            ));
        }
        proof {
            assert forall|j: int| 0 <= j < 256 implies 0 <= #[trigger] h.vec@[i as int].coeffs@[j]
                <= 1 by {
                assert(h.vec@[i as int].coeffs@[j] == crate::rounding::hint_bit(
                    v0.vec@[i as int].coeffs@[j] as int,
                    v1.vec@[i as int].coeffs@[j] as int,
                ));
            }
            assert(in_range(h.vec@[i as int], 0, 1));
        }
        s = s + bits;
        i += 1;
    }
    s
}

/// Row-wise hint application to a canonical vector.
pub fn veck_use_hint(v: &mut Polyveck, h: &Polyveck)
    requires
        vk_in_range(*old(v), 0, 8380416),
        vk_in_range(*h, 0, 1),
    ensures
        vk_in_range(*final(v), 0, 15),
        forall|i: int|
            0 <= i < 8 ==> #[trigger] uh_row_ok(final(v).vec@[i], old(v).vec@[i], h.vec@[i]),
{
    let mut i: usize = 0;
    while i < 8
        invariant
            0 <= i <= 8,
            forall|j: int| i <= j < 8 ==> #[trigger] v.vec@[j] == old(v).vec@[j],
            vk_in_range(*old(v), 0, 8380416),
            vk_in_range(*h, 0, 1),
            forall|j: int| 0 <= j < i ==> in_range(#[trigger] v.vec@[j], 0, 15),
            forall|j: int| 0 <= j < i ==> #[trigger] uh_row_ok(v.vec@[j], old(v).vec@[j], h.vec@[j]),
        decreases 8 - i,
    {
        crate::poly::use_hint(&mut v.vec[i], &h.vec[i]);
        i += 1;
    }
}

/// Checks the infinity norm of every row against a bound: 0 when all rows
/// pass, 1 otherwise.
pub fn veck_chknorm(v: &Polyveck, b: i32) -> (r: i32)
    requires
        vk_bounded(*v, 1073741823),
    ensures
        r == 0 || r == 1,
        r == 0 && b >= 1 ==> vk_bounded(*v, b - 1),
{
    let mut i: usize = 0;
    while i < 8
        invariant
            0 <= i <= 8,
            vk_bounded(*v, 1073741823),
            b >= 1 ==> forall|j: int| 0 <= j < i ==> bounded(#[trigger] v.vec@[j], b - 1),
        decreases 8 - i,
    {
        if crate::poly::chknorm(&v.vec[i], b) != 0 {
            return 1;
        }
        proof {
            if b >= 1 {
                assert forall|j: int| 0 <= j < 256 implies -(b - 1) <= #[trigger] v.vec@[
                    i as int
                ].coeffs@[j] <= b - 1 by {
                    assert(crate::poly::iabs(v.vec@[i as int].coeffs@[j] as int) < b);
                }
            }
        }
        i += 1;
    }
    0
}

/// Checks the infinity norm of every column against a bound: 0 when all
/// columns pass, 1 otherwise.
pub fn vecl_chknorm(v: &Polyvecl, b: i32) -> (r: i32)
    requires
        vl_bounded(*v, 1073741823),
    ensures
        r == 0 || r == 1,
        r == 0 && b >= 1 ==> vl_bounded(*v, b - 1),
{
    let mut i: usize = 0;
    while i < 7
        invariant
            0 <= i <= 7,
            vl_bounded(*v, 1073741823),
            b >= 1 ==> forall|j: int| 0 <= j < i ==> bounded(#[trigger] v.vec@[j], b - 1),
        decreases 7 - i,
    {
        if crate::poly::chknorm(&v.vec[i], b) != 0 {
            return 1;
        }
        proof {
            if b >= 1 {
                assert forall|j: int| 0 <= j < 256 implies -(b - 1) <= #[trigger] v.vec@[
                    i as int
                ].coeffs@[j] <= b - 1 by {
                    assert(crate::poly::iabs(v.vec@[i as int].coeffs@[j] as int) < b);
                }
            }
        }
        i += 1;
    }
    0
}

/// Samples the L columns of a secret vector with the given starting nonce:
/// on success column i holds exactly the first 256 accepted candidates of
/// the eta stream with nonce nonce0 + i.
pub fn vecl_uniform_eta(v: &mut Polyvecl, seed: &[u8], nonce0: u16) -> (ok: bool)
    requires
        nonce0 <= 60000,
    ensures
        ok ==> vl_in_range(*final(v), -2, 2),
        ok ==> forall|i: int|
            0 <= i < 7 ==> #[trigger] eta_row_ok(final(v).vec@[i], seed@, (nonce0 + i) as u16),
        ok <==> (forall|i: int| 0 <= i < 7 ==> #[trigger] eta_feasible(seed@, (nonce0 + i) as u16)),
{
    let mut i: usize = 0;
    while i < 7
        invariant
            0 <= i <= 7,
            nonce0 <= 60000,
            forall|j: int| 0 <= j < i ==> in_range(#[trigger] v.vec@[j], -2, 2),
            forall|j: int| 0 <= j < i ==> #[trigger] eta_row_ok(v.vec@[j], seed@, (nonce0 + j) as u16),
            forall|j: int| 0 <= j < i ==> #[trigger] eta_feasible(seed@, (nonce0 + j) as u16),
        decreases 7 - i,
    {
        let mut p: Poly = v.vec[i];
        let ok = crate::poly::uniform_eta(&mut p, seed, nonce0 + (i as u16));
        if !ok {
            proof {
                assert(!eta_feasible(seed@, (nonce0 + i as int) as u16));
            }
            return false;
        }
        v.vec[i] = p;
        proof {
            assert(eta_row_ok(v.vec@[i as int], seed@, (nonce0 + i as int) as u16));
            assert(eta_feasible(seed@, (nonce0 + i as int) as u16));
        }
        i += 1;
    }
    true
}

/// Samples the K rows of a secret vector with the given starting nonce: on
/// success row i holds exactly the first 256 accepted candidates of the eta
/// stream with nonce nonce0 + i.
pub fn veck_uniform_eta(v: &mut Polyveck, seed: &[u8], nonce0: u16) -> (ok: bool)
    requires
        nonce0 <= 60000,
    ensures
        ok ==> vk_in_range(*final(v), -2, 2),
        ok ==> forall|i: int|
            0 <= i < 8 ==> #[trigger] eta_row_ok(final(v).vec@[i], seed@, (nonce0 + i) as u16),
        ok <==> (forall|i: int| 0 <= i < 8 ==> #[trigger] eta_feasible(seed@, (nonce0 + i) as u16)),
{
    let mut i: usize = 0;
    while i < 8
        invariant
            0 <= i <= 8,
            nonce0 <= 60000,
            forall|j: int| 0 <= j < i ==> in_range(#[trigger] v.vec@[j], -2, 2),
            forall|j: int| 0 <= j < i ==> #[trigger] eta_row_ok(v.vec@[j], seed@, (nonce0 + j) as u16),
            forall|j: int| 0 <= j < i ==> #[trigger] eta_feasible(seed@, (nonce0 + j) as u16),
        decreases 8 - i,
    {
        let mut p: Poly = v.vec[i];
        let ok = crate::poly::uniform_eta(&mut p, seed, nonce0 + (i as u16));
        if !ok {
            proof {
                assert(!eta_feasible(seed@, (nonce0 + i as int) as u16));
            }
            return false;
        }
        v.vec[i] = p;
        proof {
            assert(eta_row_ok(v.vec@[i as int], seed@, (nonce0 + i as int) as u16));
            assert(eta_feasible(seed@, (nonce0 + i as int) as u16));
        }
        i += 1;
    }
    true
}

/// Samples the L columns of a masking vector; the nonce of column i is
/// 7 * round + i, and column i spells exactly one packed-z's worth of that
/// nonce's stream.
pub fn vecl_uniform_gamma1(v: &mut Polyvecl, seed: &[u8], round: u16)
    requires
        round <= 9000,
    ensures
        vl_in_range(*final(v), -524287, 524288),
        forall|i: int|
            0 <= i < 7 ==> #[trigger] gamma1_row_ok(final(v).vec@[i], seed@, (7 * round + i) as u16),
{
    let mut i: usize = 0;
    while i < 7
        invariant
            0 <= i <= 7,
            round <= 9000,
            forall|j: int| i <= j < 7 ==> #[trigger] v.vec@[j] == old(v).vec@[j],
            forall|j: int| 0 <= j < i ==> in_range(#[trigger] v.vec@[j], -524287, 524288),
            forall|j: int|
                0 <= j < i ==> #[trigger] gamma1_row_ok(v.vec@[j], seed@, (7 * round + j) as u16),
        decreases 7 - i,
    {
        let mut p: Poly = v.vec[i];
        crate::poly::uniform_gamma1(&mut p, seed, 7 * round + (i as u16));
        v.vec[i] = p;
        proof {
            assert(gamma1_row_ok(v.vec@[i as int], seed@, (7 * round + i as int) as u16));
        }
        i += 1;
    }
}

/// The public matrix, expanded on demand: entry (i, j) is sampled from the
/// SHAKE128 stream of rho with nonce (i << 8) + j, directly in the
/// transform domain; on success each entry holds exactly the first 256
/// accepted candidates of its nonce's stream.
pub fn matrix_expand(mat: &mut [Polyvecl; 8], rho: &[u8]) -> (ok: bool)
    ensures
        ok ==> forall|i: int|
            0 <= i < 8 ==> vl_in_range(#[trigger] final(mat)@[i], 0, 8380416),
        ok ==> forall|i: int, j: int|
            0 <= i < 8 && 0 <= j < 7 ==> #[trigger] uniform_row_ok(
                final(mat)@[i].vec@[j],
                rho@,
                (i * 256 + j) as u16,
            ),
        ok <==> (forall|i: int, j: int|
            0 <= i < 8 && 0 <= j < 7 ==> #[trigger] uniform_feasible(rho@, (i * 256 + j) as u16)),
{
    let mut i: usize = 0;
    while i < 8
        invariant
            0 <= i <= 8,
            forall|j: int| 0 <= j < i ==> vl_in_range(#[trigger] mat@[j], 0, 8380416),
            forall|ii: int, jj: int|
                0 <= ii < i && 0 <= jj < 7 ==> #[trigger] uniform_row_ok(
                    mat@[ii].vec@[jj],
                    rho@,
                    (ii * 256 + jj) as u16,
                ),
            forall|ii: int, jj: int|
                0 <= ii < i && 0 <= jj < 7 ==> #[trigger] uniform_feasible(
                    rho@,
                    (ii * 256 + jj) as u16,
                ),
        decreases 8 - i,
    {
        let mut row: Polyvecl = mat[i];
        let mut j: usize = 0;
        while j < 7
            invariant
                0 <= j <= 7,
                i < 8,
                forall|k: int| 0 <= k < j ==> in_range(#[trigger] row.vec@[k], 0, 8380416),
                forall|k: int|
                    0 <= k < j ==> #[trigger] uniform_row_ok(
                        row.vec@[k],
                        rho@,
                        (i * 256 + k) as u16,
                    ),
                forall|k: int|
                    0 <= k < j ==> #[trigger] uniform_feasible(rho@, (i * 256 + k) as u16),
            decreases 7 - j,
        {
            let mut p: Poly = row.vec[j];
            let nonce: u16 = ((i as u16) * 256) + (j as u16);
            let ok = crate::poly::uniform(&mut p, rho, nonce);
            if !ok {
                proof {
                    assert(!uniform_feasible(rho@, (i as int * 256 + j as int) as u16));
                }
                return false;
            }
            row.vec[j] = p;
            proof {
                assert(uniform_row_ok(row.vec@[j as int], rho@, (i as int * 256 + j as int) as u16));
                assert(uniform_feasible(rho@, (i as int * 256 + j as int) as u16));
            }
            j += 1;
        }
        mat[i] = row;
        i += 1;
    }
    true
}

/// Coefficient j of the Montgomery dot product of the first n columns of u
/// and v.
pub open spec fn acc_dot(u: Polyvecl, v: Polyvecl, n: int, j: int) -> int
    decreases n,
{
    if n <= 0 {
        0
    } else {
        acc_dot(u, v, n - 1, j) + crate::reduce::mont_spec(
            (u.vec@[n - 1].coeffs@[j] * v.vec@[n - 1].coeffs@[j]) as i64,
        )
    }
}

/// w is the Montgomery dot product of the short vectors u and v.
pub open spec fn dot_row_ok(w: Poly, u: Polyvecl, v: Polyvecl) -> bool {
    forall|j: int| 0 <= j < 256 ==> (#[trigger] w.coeffs@[j]) as int == acc_dot(u, v, 7, j)
}

/// Dot product of two transform-domain short vectors, with Montgomery
/// correction, accumulated without reduction: the result is exactly the
/// column-wise sum of Montgomery products.
pub fn vecl_pointwise_acc_montgomery(w: &mut Poly, u: &Polyvecl, v: &Polyvecl)
    requires
        vl_bounded(*u, 75431944),
        vl_bounded(*v, 75431944),
    ensures
        bounded(*final(w), 58662919),
        dot_row_ok(*final(w), *u, *v),
{
    let mut t: Poly = Poly::default();
    proof {
        assert(75431944 * 75431944 < 0x80000000 * (Q as int));
        crate::poly::lemma_bounded_product_domain(u.vec@[0], v.vec@[0], 75431944, 75431944);
    }
    crate::poly::pointwise_montgomery(w, &u.vec[0], &v.vec[0]);
    proof {
        assert forall|j: int| 0 <= j < 256 implies (#[trigger] w.coeffs@[j]) as int == acc_dot(
            *u,
            *v,
            1,
            j,
        ) by {
            assert(acc_dot(*u, *v, 1, j) == acc_dot(*u, *v, 0, j) + crate::reduce::mont_spec(
                (u.vec@[0].coeffs@[j] * v.vec@[0].coeffs@[j]) as i64,
            ));
        }
    }
    let mut i: usize = 1;
    while i < 7
        invariant
            1 <= i <= 7,
            vl_bounded(*u, 75431944),
            vl_bounded(*v, 75431944),
            bounded(*w, i as int * 8380417),
            forall|j: int|
                0 <= j < 256 ==> (#[trigger] w.coeffs@[j]) as int == acc_dot(
                    *u,
                    *v,
                    i as int,
                    j,
                ),
        decreases 7 - i,
    {
        proof {
            assert(75431944 * 75431944 < 0x80000000 * (Q as int));
            crate::poly::lemma_bounded_product_domain(
                u.vec@[i as int],
                v.vec@[i as int],
                75431944,
                75431944,
            );
        }
        crate::poly::pointwise_montgomery(&mut t, &u.vec[i], &v.vec[i]);
        crate::poly::add_ip(w, &t);
        i += 1;
    }
}

/// Applies the expanded matrix to a transform-domain short vector, row by
/// row: each row of the result is exactly the Montgomery dot product of the
/// matrix row with the vector.
pub fn matrix_pointwise_montgomery(t: &mut Polyveck, mat: &[Polyvecl; 8], v: &Polyvecl)
    requires
        forall|i: int| 0 <= i < 8 ==> vl_bounded(#[trigger] mat@[i], 75431944),
        vl_bounded(*v, 75431944),
    ensures
        vk_bounded(*final(t), 58662919),
        forall|i: int| 0 <= i < 8 ==> #[trigger] dot_row_ok(final(t).vec@[i], mat@[i], *v),
{
    let mut i: usize = 0;
    while i < 8
        invariant
            0 <= i <= 8,
            forall|j: int| 0 <= j < 8 ==> vl_bounded(#[trigger] mat@[j], 75431944),
            vl_bounded(*v, 75431944),
            forall|j: int| 0 <= j < i ==> bounded(#[trigger] t.vec@[j], 58662919),
            forall|j: int| 0 <= j < i ==> #[trigger] dot_row_ok(t.vec@[j], mat@[j], *v),
        decreases 8 - i,
    {
        let mut w: Poly = t.vec[i];
        vecl_pointwise_acc_montgomery(&mut w, &mat[i], v);
        t.vec[i] = w;
        i += 1;
    }
}

/// w is the coefficient-wise Montgomery product of a and q.
pub open spec fn pwise_row_ok(w: Poly, a: Poly, q: Poly) -> bool {
    forall|j: int|
        0 <= j < 256 ==> (#[trigger] w.coeffs@[j]) as int == crate::reduce::mont_spec(
            (a.coeffs@[j] * q.coeffs@[j]) as i64,
        )
}

/// Multiplies every column of a transform-domain short vector by a
/// transform-domain polynomial, with Montgomery correction, exactly.
pub fn vecl_pointwise_poly_montgomery(r: &mut Polyvecl, a: &Poly, v: &Polyvecl)
    requires
        bounded(*a, 75431944),
        vl_bounded(*v, 75431944),
    ensures
        vl_bounded(*final(r), 8380416),
        forall|i: int| 0 <= i < 7 ==> #[trigger] pwise_row_ok(final(r).vec@[i], *a, v.vec@[i]),
{
    let mut i: usize = 0;
    while i < 7
        invariant
            0 <= i <= 7,
            bounded(*a, 75431944),
            vl_bounded(*v, 75431944),
            forall|j: int| 0 <= j < i ==> bounded(#[trigger] r.vec@[j], 8380416),
            forall|j: int| 0 <= j < i ==> #[trigger] pwise_row_ok(r.vec@[j], *a, v.vec@[j]),
        decreases 7 - i,
    {
        let mut p: Poly = r.vec[i];
        proof {
            assert(75431944 * 75431944 < 0x80000000 * (Q as int));
            crate::poly::lemma_bounded_product_domain(*a, v.vec@[i as int], 75431944, 75431944);
        }
        crate::poly::pointwise_montgomery(&mut p, a, &v.vec[i]);
        r.vec[i] = p;
        i += 1;
    }
}

/// Multiplies every row of a transform-domain tall vector by a
/// transform-domain polynomial, with Montgomery correction, exactly.
pub fn veck_pointwise_poly_montgomery(r: &mut Polyveck, a: &Poly, v: &Polyveck)
    requires
        bounded(*a, 75431944),
        vk_bounded(*v, 75431944),
    ensures
        vk_bounded(*final(r), 8380416),
        forall|i: int| 0 <= i < 8 ==> #[trigger] pwise_row_ok(final(r).vec@[i], *a, v.vec@[i]),
{
    let mut i: usize = 0;
    while i < 8
        invariant
            0 <= i <= 8,
            bounded(*a, 75431944),
            vk_bounded(*v, 75431944),
            forall|j: int| 0 <= j < i ==> bounded(#[trigger] r.vec@[j], 8380416),
            forall|j: int| 0 <= j < i ==> #[trigger] pwise_row_ok(r.vec@[j], *a, v.vec@[j]),
        decreases 8 - i,
    {
        let mut p: Poly = r.vec[i];
        proof {
            assert(75431944 * 75431944 < 0x80000000 * (Q as int));
            crate::poly::lemma_bounded_product_domain(*a, v.vec@[i as int], 75431944, 75431944);
        }
        crate::poly::pointwise_montgomery(&mut p, a, &v.vec[i]);
        r.vec[i] = p;
        i += 1;
    }
}

/// Row i of a packed w1 section at offset off spells polynomial p.
pub open spec fn w1_row_ok(s: Seq<u8>, off: int, i: int, p: Poly) -> bool {
    forall|c: int| 0 <= c < 128 ==> #[trigger] crate::poly::w1_chunk_ok(s, off + 128 * i, p, c)
}

proof fn lemma_w1_row_preserved(s1: Seq<u8>, s2: Seq<u8>, off: int, p: Poly)
    requires
        forall|x: int| off <= x < off + 128 ==> s1[x] == #[trigger] s2[x],
        forall|c: int| 0 <= c < 128 ==> #[trigger] crate::poly::w1_chunk_ok(s1, off, p, c),
    ensures
        forall|c: int| 0 <= c < 128 ==> #[trigger] crate::poly::w1_chunk_ok(s2, off, p, c),
{
    assert forall|c: int| 0 <= c < 128 implies #[trigger] crate::poly::w1_chunk_ok(
        s2,
        off,
        p,
        c,
    ) by {
        assert(crate::poly::w1_chunk_ok(s1, off, p, c));
        assert(s2[off + c] == s1[off + c]);
    }
}

/// Packs the high buckets of every row, 128 bytes per row, at offset off:
/// each written row spells exactly its polynomial's nibbles.
pub fn veck_pack_w1(r: &mut Vec<u8>, off: usize, v: &Polyveck)
    requires
        off + 1024 <= old(r)@.len(),
        vk_in_range(*v, 0, 15),
    ensures
        final(r)@.len() == old(r)@.len(),
        forall|i: int|
            0 <= i < old(r)@.len() && !(off <= i < off + 1024) ==> final(r)@[i] == old(r)@[i],
        forall|i: int| 0 <= i < 8 ==> #[trigger] w1_row_ok(final(r)@, off as int, i, v.vec@[i]),
{
    let n: usize = r.len();
    let mut i: usize = 0;
    while i < 8
        invariant
            0 <= i <= 8,
            off + 1024 <= n,
            n == r@.len(),
            r@.len() == old(r)@.len(),
            vk_in_range(*v, 0, 15),
            forall|j: int|
                0 <= j < r@.len() && !(off <= j < off + 128 * i) ==> r@[j] == old(r)@[j],
            forall|j: int| 0 <= j < i ==> #[trigger] w1_row_ok(r@, off as int, j, v.vec@[j]),
        decreases 8 - i,
    {
        let ghost prev = r@;
        crate::poly::w1_pack(r, off + 128 * i, &v.vec[i]);
        proof {
            assert forall|j: int| 0 <= j < i implies #[trigger] w1_row_ok(
                r@,
                off as int,
                j,
                v.vec@[j],
            ) by {
                assert(w1_row_ok(prev, off as int, j, v.vec@[j]));
                lemma_w1_row_preserved(prev, r@, off as int + 128 * j, v.vec@[j]);
            }
            assert(w1_row_ok(r@, off as int, i as int, v.vec@[i as int]));
        }
        i += 1;
    }
}

} // verus!
