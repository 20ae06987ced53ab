//! Serialization of public keys, secret keys and signatures to and from
//! their fixed-width byte formats, including the structural validity gate on
//! the compressed hint table of a signature.

use vstd::prelude::*;

use crate::poly::{
    eta_chunk_ok, in_range, t0_chunk_ok, t1_chunk_ok, z_chunk_ok, Poly,
};
use crate::polyvec::{vk_in_range, vl_in_range, Polyveck, Polyvecl};

verus! {

/// Copies n bytes from src at soff into dst at doff.
pub fn copy_bytes(dst: &mut Vec<u8>, doff: usize, src: &[u8], soff: usize, n: usize)
    requires
        doff + n <= old(dst)@.len(),
        soff + n <= src@.len(),
    ensures
        final(dst)@.len() == old(dst)@.len(),
        forall|x: int|
            0 <= x < old(dst)@.len() && !(doff <= x < doff + n) ==> final(dst)@[x] == old(
                dst,
            )@[x],
        forall|y: int|
            doff <= y < doff + n ==> #[trigger] final(dst)@[y] == src@[y - doff + soff],
{
    let dlen: usize = dst.len();
    let slen: usize = src.len();
    let mut i: usize = 0;
    while i < n
        invariant
            doff + n <= dlen,
            soff + n <= slen,
            slen == src@.len(),
            dlen == dst@.len(),
            dst@.len() == old(dst)@.len(),
            0 <= i <= n,
            forall|x: int|
                0 <= x < dst@.len() && !(doff <= x < doff + i) ==> dst@[x] == old(dst)@[x],
            forall|y: int|
                doff <= y < doff + i ==> #[trigger] dst@[y] == src@[y - doff + soff],
        decreases n - i,
    {
        dst[doff + i] = src[soff + i];
        i += 1;
    }
}

proof fn lemma_t1_rows_preserved(s1: Seq<u8>, s2: Seq<u8>, off: int, p: Poly)
    requires
        forall|x: int| off <= x < off + 320 ==> s1[x] == #[trigger] s2[x],
        forall|c: int| 0 <= c < 64 ==> #[trigger] t1_chunk_ok(s1, off, p, c),
    ensures
        forall|c: int| 0 <= c < 64 ==> #[trigger] t1_chunk_ok(s2, off, p, c),
{
    assert forall|c: int| 0 <= c < 64 implies #[trigger] t1_chunk_ok(s2, off, p, c) by {
        assert(t1_chunk_ok(s1, off, p, c));
        assert(s2[off + 5 * c] == s1[off + 5 * c]);
        assert(s2[off + 5 * c + 1] == s1[off + 5 * c + 1]);
        assert(s2[off + 5 * c + 2] == s1[off + 5 * c + 2]);
        assert(s2[off + 5 * c + 3] == s1[off + 5 * c + 3]);
        assert(s2[off + 5 * c + 4] == s1[off + 5 * c + 4]);
    }
}

proof fn lemma_t0_rows_preserved(s1: Seq<u8>, s2: Seq<u8>, off: int, p: Poly)
    requires
        forall|x: int| off <= x < off + 416 ==> s1[x] == #[trigger] s2[x],
        forall|c: int| 0 <= c < 32 ==> #[trigger] t0_chunk_ok(s1, off, p, c),
    ensures
        forall|c: int| 0 <= c < 32 ==> #[trigger] t0_chunk_ok(s2, off, p, c),
{
    assert forall|c: int| 0 <= c < 32 implies #[trigger] t0_chunk_ok(s2, off, p, c) by {
        assert(t0_chunk_ok(s1, off, p, c));
        assert(s2[off + 13 * c] == s1[off + 13 * c]);
        assert(s2[off + 13 * c + 1] == s1[off + 13 * c + 1]);
        assert(s2[off + 13 * c + 2] == s1[off + 13 * c + 2]);
        assert(s2[off + 13 * c + 3] == s1[off + 13 * c + 3]);
        assert(s2[off + 13 * c + 4] == s1[off + 13 * c + 4]);
        assert(s2[off + 13 * c + 5] == s1[off + 13 * c + 5]);
        assert(s2[off + 13 * c + 6] == s1[off + 13 * c + 6]);
        assert(s2[off + 13 * c + 7] == s1[off + 13 * c + 7]);
        assert(s2[off + 13 * c + 8] == s1[off + 13 * c + 8]);
        assert(s2[off + 13 * c + 9] == s1[off + 13 * c + 9]);
        assert(s2[off + 13 * c + 10] == s1[off + 13 * c + 10]);
        assert(s2[off + 13 * c + 11] == s1[off + 13 * c + 11]);
        assert(s2[off + 13 * c + 12] == s1[off + 13 * c + 12]);
    }
}

proof fn lemma_eta_rows_preserved(s1: Seq<u8>, s2: Seq<u8>, off: int, p: Poly)
    requires
        forall|x: int| off <= x < off + 96 ==> s1[x] == #[trigger] s2[x],
        forall|c: int| 0 <= c < 32 ==> #[trigger] eta_chunk_ok(s1, off, p, c),
    ensures
        forall|c: int| 0 <= c < 32 ==> #[trigger] eta_chunk_ok(s2, off, p, c),
{
    assert forall|c: int| 0 <= c < 32 implies #[trigger] eta_chunk_ok(s2, off, p, c) by {
        assert(eta_chunk_ok(s1, off, p, c));
        assert(s2[off + 3 * c] == s1[off + 3 * c]);
        assert(s2[off + 3 * c + 1] == s1[off + 3 * c + 1]);
        assert(s2[off + 3 * c + 2] == s1[off + 3 * c + 2]);
    }
}

proof fn lemma_z_rows_preserved(s1: Seq<u8>, s2: Seq<u8>, off: int, p: Poly)
    requires
        forall|x: int| off <= x < off + 640 ==> s1[x] == #[trigger] s2[x],
        forall|c: int| 0 <= c < 128 ==> #[trigger] z_chunk_ok(s1, off, p, c),
    ensures
        forall|c: int| 0 <= c < 128 ==> #[trigger] z_chunk_ok(s2, off, p, c),
{
    assert forall|c: int| 0 <= c < 128 implies #[trigger] z_chunk_ok(s2, off, p, c) by {
        assert(z_chunk_ok(s1, off, p, c));
        assert(s2[off + 5 * c] == s1[off + 5 * c]);
        assert(s2[off + 5 * c + 1] == s1[off + 5 * c + 1]);
        assert(s2[off + 5 * c + 2] == s1[off + 5 * c + 2]);
        assert(s2[off + 5 * c + 3] == s1[off + 5 * c + 3]);
        assert(s2[off + 5 * c + 4] == s1[off + 5 * c + 4]);
    }
}

/// Row i of the t1 section of a packed public key spells polynomial p.
pub open spec fn pk_row_ok(s: Seq<u8>, i: int, p: Poly) -> bool {
    forall|c: int| 0 <= c < 64 ==> #[trigger] t1_chunk_ok(s, 32 + 320 * i, p, c)
}

/// Bit-packs a public key: rho followed by the 10-bit rows of t1.
pub fn pack_pk(pk: &mut Vec<u8>, rho: &[u8], t1: &Polyveck)
    requires
        old(pk)@.len() == 2592,
        rho@.len() >= 32,
        vk_in_range(*t1, 0, 1023),
    ensures
        final(pk)@.len() == 2592,
        forall|x: int| 0 <= x < 32 ==> #[trigger] final(pk)@[x] == rho@[x],
        forall|i: int| 0 <= i < 8 ==> #[trigger] pk_row_ok(final(pk)@, i, t1.vec@[i]),
{
    copy_bytes(pk, 0, rho, 0, 32);
    let mut i: usize = 0;
    while i < 8
        invariant
            pk@.len() == 2592,
            vk_in_range(*t1, 0, 1023),
            0 <= i <= 8,
            forall|x: int| 0 <= x < 32 ==> #[trigger] pk@[x] == rho@[x],
            forall|j: int| 0 <= j < i ==> #[trigger] pk_row_ok(pk@, j, t1.vec@[j]),
        decreases 8 - i,
    {
        let ghost prev = pk@;
        crate::poly::t1_pack(pk, 32 + 320 * i, &t1.vec[i]);
        proof {
            assert forall|j: int| 0 <= j < i implies #[trigger] pk_row_ok(pk@, j, t1.vec@[j]) by {
                assert(pk_row_ok(prev, j, t1.vec@[j]));
                lemma_t1_rows_preserved(prev, pk@, 32 + 320 * j, t1.vec@[j]);
            }
            assert(pk_row_ok(pk@, i as int, t1.vec@[i as int]));
        }
        i += 1;
    }
}

/// Unpacks a public key into rho and the t1 vector.
pub fn unpack_pk(rho: &mut Vec<u8>, t1: &mut Polyveck, pk: &Vec<u8>)
    requires
        old(rho)@.len() == 32,
        pk@.len() == 2592,
    ensures
        final(rho)@.len() == 32,
        forall|x: int| 0 <= x < 32 ==> #[trigger] final(rho)@[x] == pk@[x],
        forall|i: int| 0 <= i < 8 ==> #[trigger] pk_row_ok(pk@, i, final(t1).vec@[i]),
        vk_in_range(*final(t1), 0, 1023),
{
    copy_bytes(rho, 0, pk.as_slice(), 0, 32);
    let mut i: usize = 0;
    while i < 8
        invariant
            pk@.len() == 2592,
            0 <= i <= 8,
            forall|j: int| 0 <= j < i ==> #[trigger] pk_row_ok(pk@, j, t1.vec@[j]),
            forall|j: int| 0 <= j < i ==> in_range(#[trigger] t1.vec@[j], 0, 1023),
        decreases 8 - i,
    {
        let mut p: Poly = t1.vec[i];
        crate::poly::t1_unpack(&mut p, pk, 32 + 320 * i);
        t1.vec[i] = p;
        i += 1;
    }
}


/// Round-trip law of the public-key format: packed bytes determine rho and
/// every coefficient of t1, so packing and unpacking are inverse on
/// well-formed input.
pub proof fn lemma_pk_format_injective(s: Seq<u8>, a: Polyveck, b: Polyveck)
    requires
        forall|i: int| 0 <= i < 8 ==> #[trigger] pk_row_ok(s, i, a.vec@[i]),
        forall|i: int| 0 <= i < 8 ==> #[trigger] pk_row_ok(s, i, b.vec@[i]),
    ensures
        forall|i: int, j: int|
            0 <= i < 8 && 0 <= j < 256 ==> #[trigger] a.vec@[i].coeffs@[j] == b.vec@[i].coeffs@[j],
{
    assert forall|i: int, j: int|
        0 <= i < 8 && 0 <= j < 256 implies #[trigger] a.vec@[i].coeffs@[j]
        == b.vec@[i].coeffs@[j] by {
        assert(pk_row_ok(s, i, a.vec@[i]));
        assert(pk_row_ok(s, i, b.vec@[i]));
        crate::poly::lemma_t1_format_injective(s, 32 + 320 * i, a.vec@[i], b.vec@[i]);
    }
}

/// Column i of the s1 section of a packed secret key spells polynomial p.
pub open spec fn sk_s1_row_ok(s: Seq<u8>, i: int, p: Poly) -> bool {
    forall|c: int| 0 <= c < 32 ==> #[trigger] eta_chunk_ok(s, 96 + 96 * i, p, c)
}

/// Row i of the s2 section of a packed secret key spells polynomial p.
pub open spec fn sk_s2_row_ok(s: Seq<u8>, i: int, p: Poly) -> bool {
    forall|c: int| 0 <= c < 32 ==> #[trigger] eta_chunk_ok(s, 768 + 96 * i, p, c)
}

/// Row i of the t0 section of a packed secret key spells polynomial p.
pub open spec fn sk_t0_row_ok(s: Seq<u8>, i: int, p: Poly) -> bool {
    forall|c: int| 0 <= c < 32 ==> #[trigger] t0_chunk_ok(s, 1536 + 416 * i, p, c)
}

/// Bit-packs a secret key: rho, key, tr, then s1, s2 in the 3-bit format
/// and t0 in the 13-bit format.
pub fn pack_sk(
    sk: &mut Vec<u8>,
    rho: &[u8],
    tr: &[u8],
    key: &[u8],
    t0: &Polyveck,
    s1: &Polyvecl,
    s2: &Polyveck,
)
    requires
        old(sk)@.len() == 4864,
        rho@.len() >= 32,
        tr@.len() >= 32,
        key@.len() >= 32,
        vk_in_range(*t0, -4095, 4096),
        vl_in_range(*s1, -2, 2),
        vk_in_range(*s2, -2, 2),
    ensures
        final(sk)@.len() == 4864,
        forall|y: int| 0 <= y < 32 ==> #[trigger] final(sk)@[y] == rho@[y],
        forall|y: int| 32 <= y < 64 ==> #[trigger] final(sk)@[y] == key@[y - 32],
        forall|y: int| 64 <= y < 96 ==> #[trigger] final(sk)@[y] == tr@[y - 64],
        forall|i: int| 0 <= i < 7 ==> #[trigger] sk_s1_row_ok(final(sk)@, i, s1.vec@[i]),
        forall|i: int| 0 <= i < 8 ==> #[trigger] sk_s2_row_ok(final(sk)@, i, s2.vec@[i]),
        forall|i: int| 0 <= i < 8 ==> #[trigger] sk_t0_row_ok(final(sk)@, i, t0.vec@[i]),
{
    copy_bytes(sk, 0, rho, 0, 32);
    copy_bytes(sk, 32, key, 0, 32);
    copy_bytes(sk, 64, tr, 0, 32);
    let mut i: usize = 0;
    while i < 7
        invariant
            sk@.len() == 4864,
            vl_in_range(*s1, -2, 2),
            0 <= i <= 7,
            forall|y: int| 0 <= y < 32 ==> #[trigger] sk@[y] == rho@[y],
            forall|y: int| 32 <= y < 64 ==> #[trigger] sk@[y] == key@[y - 32],
            forall|y: int| 64 <= y < 96 ==> #[trigger] sk@[y] == tr@[y - 64],
            forall|j: int| 0 <= j < i ==> #[trigger] sk_s1_row_ok(sk@, j, s1.vec@[j]),
        decreases 7 - i,
    {
        let ghost prev = sk@;
        crate::poly::eta_pack(sk, 96 + 96 * i, &s1.vec[i]);
        proof {
            assert forall|j: int| 0 <= j < i implies #[trigger] sk_s1_row_ok(sk@, j, s1.vec@[j]) by {
                assert(sk_s1_row_ok(prev, j, s1.vec@[j]));
                lemma_eta_rows_preserved(prev, sk@, 96 + 96 * j, s1.vec@[j]);
            }
            assert(sk_s1_row_ok(sk@, i as int, s1.vec@[i as int]));
        }
        i += 1;
    }
    let mut i: usize = 0;
    while i < 8
        invariant
            sk@.len() == 4864,
            vk_in_range(*s2, -2, 2),
            0 <= i <= 8,
            forall|y: int| 0 <= y < 32 ==> #[trigger] sk@[y] == rho@[y],
            forall|y: int| 32 <= y < 64 ==> #[trigger] sk@[y] == key@[y - 32],
            forall|y: int| 64 <= y < 96 ==> #[trigger] sk@[y] == tr@[y - 64],
            forall|j: int| 0 <= j < 7 ==> #[trigger] sk_s1_row_ok(sk@, j, s1.vec@[j]),
            forall|j: int| 0 <= j < i ==> #[trigger] sk_s2_row_ok(sk@, j, s2.vec@[j]),
        decreases 8 - i,
    {
        let ghost prev = sk@;
        crate::poly::eta_pack(sk, 768 + 96 * i, &s2.vec[i]);
        proof {
            assert forall|j: int| 0 <= j < 7 implies #[trigger] sk_s1_row_ok(sk@, j, s1.vec@[j]) by {
                assert(sk_s1_row_ok(prev, j, s1.vec@[j]));
                lemma_eta_rows_preserved(prev, sk@, 96 + 96 * j, s1.vec@[j]);
            }
            assert forall|j: int| 0 <= j < i implies #[trigger] sk_s2_row_ok(sk@, j, s2.vec@[j]) by {
                assert(sk_s2_row_ok(prev, j, s2.vec@[j]));
                lemma_eta_rows_preserved(prev, sk@, 768 + 96 * j, s2.vec@[j]);
            }
            assert(sk_s2_row_ok(sk@, i as int, s2.vec@[i as int]));
        }
        i += 1;
    }
    let mut i: usize = 0;
    while i < 8
        invariant
            sk@.len() == 4864,
            vk_in_range(*t0, -4095, 4096),
            0 <= i <= 8,
            forall|y: int| 0 <= y < 32 ==> #[trigger] sk@[y] == rho@[y],
            forall|y: int| 32 <= y < 64 ==> #[trigger] sk@[y] == key@[y - 32],
            forall|y: int| 64 <= y < 96 ==> #[trigger] sk@[y] == tr@[y - 64],
            forall|j: int| 0 <= j < 7 ==> #[trigger] sk_s1_row_ok(sk@, j, s1.vec@[j]),
            forall|j: int| 0 <= j < 8 ==> #[trigger] sk_s2_row_ok(sk@, j, s2.vec@[j]),
            forall|j: int| 0 <= j < i ==> #[trigger] sk_t0_row_ok(sk@, j, t0.vec@[j]),
        decreases 8 - i,
    {
        let ghost prev = sk@;
        crate::poly::t0_pack(sk, 1536 + 416 * i, &t0.vec[i]);
        proof {
            assert forall|j: int| 0 <= j < 7 implies #[trigger] sk_s1_row_ok(sk@, j, s1.vec@[j]) by {
                assert(sk_s1_row_ok(prev, j, s1.vec@[j]));
                lemma_eta_rows_preserved(prev, sk@, 96 + 96 * j, s1.vec@[j]);
            }
            assert forall|j: int| 0 <= j < 8 implies #[trigger] sk_s2_row_ok(sk@, j, s2.vec@[j]) by {
                assert(sk_s2_row_ok(prev, j, s2.vec@[j]));
                lemma_eta_rows_preserved(prev, sk@, 768 + 96 * j, s2.vec@[j]);
            }
            assert forall|j: int| 0 <= j < i implies #[trigger] sk_t0_row_ok(sk@, j, t0.vec@[j]) by {
                assert(sk_t0_row_ok(prev, j, t0.vec@[j]));
                lemma_t0_rows_preserved(prev, sk@, 1536 + 416 * j, t0.vec@[j]);
            }
            assert(sk_t0_row_ok(sk@, i as int, t0.vec@[i as int]));
        }
        i += 1;
    }
}

/// Unpacks a secret key into rho, key, tr and the three vectors.
pub fn unpack_sk(
    rho: &mut Vec<u8>,
    tr: &mut Vec<u8>,
    key: &mut Vec<u8>,
    t0: &mut Polyveck,
    s1: &mut Polyvecl,
    s2: &mut Polyveck,
    sk: &Vec<u8>,
)
    requires
        old(rho)@.len() == 32,
        old(tr)@.len() == 32,
        old(key)@.len() == 32,
        sk@.len() == 4864,
    ensures
        final(rho)@.len() == 32,
        final(tr)@.len() == 32,
        final(key)@.len() == 32,
        forall|x: int| 0 <= x < 32 ==> #[trigger] final(rho)@[x] == sk@[x],
        forall|x: int| 0 <= x < 32 ==> #[trigger] final(key)@[x] == sk@[x + 32],
        forall|x: int| 0 <= x < 32 ==> #[trigger] final(tr)@[x] == sk@[x + 64],
        forall|i: int| 0 <= i < 7 ==> #[trigger] sk_s1_row_ok(sk@, i, final(s1).vec@[i]),
        forall|i: int| 0 <= i < 8 ==> #[trigger] sk_s2_row_ok(sk@, i, final(s2).vec@[i]),
        forall|i: int| 0 <= i < 8 ==> #[trigger] sk_t0_row_ok(sk@, i, final(t0).vec@[i]),
        vl_in_range(*final(s1), -5, 2),
        vk_in_range(*final(s2), -5, 2),
        vk_in_range(*final(t0), -4095, 4096),
{
    copy_bytes(rho, 0, sk.as_slice(), 0, 32);
    copy_bytes(key, 0, sk.as_slice(), 32, 32);
    copy_bytes(tr, 0, sk.as_slice(), 64, 32);
    let mut i: usize = 0;
    while i < 7
        invariant
            sk@.len() == 4864,
            0 <= i <= 7,
            forall|j: int| 0 <= j < i ==> #[trigger] sk_s1_row_ok(sk@, j, s1.vec@[j]),
            forall|j: int| 0 <= j < i ==> in_range(#[trigger] s1.vec@[j], -5, 2),
        decreases 7 - i,
    {
        let mut p: Poly = s1.vec[i];
        crate::poly::eta_unpack(&mut p, sk, 96 + 96 * i);
        s1.vec[i] = p;
        i += 1;
    }
    let mut i: usize = 0;
    while i < 8
        invariant
            sk@.len() == 4864,
            0 <= i <= 8,
            forall|j: int| 0 <= j < i ==> #[trigger] sk_s2_row_ok(sk@, j, s2.vec@[j]),
            forall|j: int| 0 <= j < i ==> in_range(#[trigger] s2.vec@[j], -5, 2),
        decreases 8 - i,
    {
        let mut p: Poly = s2.vec[i];
        crate::poly::eta_unpack(&mut p, sk, 768 + 96 * i);
        s2.vec[i] = p;
        i += 1;
    }
    let mut i: usize = 0;
    while i < 8
        invariant
            sk@.len() == 4864,
            0 <= i <= 8,
            forall|j: int| 0 <= j < i ==> #[trigger] sk_t0_row_ok(sk@, j, t0.vec@[j]),
            forall|j: int| 0 <= j < i ==> in_range(#[trigger] t0.vec@[j], -4095, 4096),
        decreases 8 - i,
    {
        let mut p: Poly = t0.vec[i];
        crate::poly::t0_unpack(&mut p, sk, 1536 + 416 * i);
        t0.vec[i] = p;
        i += 1;
    }
}


/// Column i of the z section of a packed signature spells polynomial p.
pub open spec fn sig_z_row_ok(s: Seq<u8>, i: int, p: Poly) -> bool {
    forall|c: int| 0 <= c < 128 ==> #[trigger] z_chunk_ok(s, 32 + 640 * i, p, c)
}

/// Cumulative hint count recorded for row i of a packed signature.
pub open spec fn sig_cnt(s: Seq<u8>, i: int) -> int {
    s[4587 + i] as int
}

/// Cumulative hint count before row i of a packed signature.
pub open spec fn sig_pcnt(s: Seq<u8>, i: int) -> int {
    if i == 0 {
        0
    } else {
        sig_cnt(s, i - 1)
    }
}

/// Hint index byte j of a packed signature.
pub open spec fn sig_hidx(s: Seq<u8>, j: int) -> int {
    s[4512 + j] as int
}

/// The hint indices of row i are strictly increasing.
pub open spec fn sig_row_incr(s: Seq<u8>, i: int) -> bool {
    forall|j: int|
        sig_pcnt(s, i) < j < sig_cnt(s, i) ==> #[trigger] sig_hidx(s, j) > sig_hidx(s, j - 1)
}

/// The set hint bits of row i of h are exactly the index bytes of t in
/// positions [lo, hi).
pub open spec fn row_lists_bits(t: Seq<u8>, h: Polyveck, i: int, lo: int, hi: int) -> bool {
    forall|x: int|
        0 <= x < 256 ==> ((#[trigger] h.vec@[i].coeffs@[x]) != 0 <==> exists|jj: int|
            lo <= jj < hi && tab_idx(t, jj) == x)
}

/// The set hint bits of row i of h are exactly the indices listed for row i
/// in the packed signature s.
pub open spec fn hint_bits_ok(s: Seq<u8>, h: Polyveck, i: int) -> bool {
    forall|x: int|
        0 <= x < 256 ==> ((#[trigger] h.vec@[i].coeffs@[x]) != 0 <==> exists|jj: int|
            sig_pcnt(s, i) <= jj < sig_cnt(s, i) && sig_hidx(s, jj) == x)
}

/// The structural validity gate on the hint table of a packed signature:
/// running counts are monotone and bounded by OMEGA, each row's index list
/// is strictly increasing, and every byte past the last used position is
/// zero.
pub open spec fn hint_region_valid(s: Seq<u8>) -> bool {
    &&& forall|i: int| 0 <= i < 8 ==> (sig_pcnt(s, i) <= #[trigger] sig_cnt(s, i) <= 75)
    &&& forall|i: int| 0 <= i < 8 ==> #[trigger] sig_row_incr(s, i)
    &&& forall|j: int| sig_cnt(s, 7) <= j < 75 ==> #[trigger] sig_hidx(s, j) == 0
}

/// Count byte i of an 83-byte hint table.
pub open spec fn tab_cnt(t: Seq<u8>, i: int) -> int {
    t[75 + i] as int
}

/// Index byte j of an 83-byte hint table.
pub open spec fn tab_idx(t: Seq<u8>, j: int) -> int {
    t[j] as int
}

/// The index bytes of t are strictly increasing on (lo, hi).
pub open spec fn tab_row_incr(t: Seq<u8>, lo: int, hi: int) -> bool {
    forall|jj: int| lo < jj < hi ==> #[trigger] tab_idx(t, jj) > tab_idx(t, jj - 1)
}

/// Builds the 83-byte compressed hint table of h: per row the sorted indices
/// of the set hint bits, then the running-count bytes.
proof fn lemma_row_lists_preserved(t1: Seq<u8>, t2: Seq<u8>, h: Polyveck, i: int, lo: int, hi: int)
    requires
        forall|jj: int| lo <= jj < hi ==> #[trigger] t1[jj] == t2[jj],
        row_lists_bits(t1, h, i, lo, hi),
    ensures
        row_lists_bits(t2, h, i, lo, hi),
{
    assert forall|x: int|
        0 <= x < 256 implies ((#[trigger] h.vec@[i].coeffs@[x]) != 0 <==> exists|jj: int|
            lo <= jj < hi && tab_idx(t2, jj) == x) by {
        if h.vec@[i].coeffs@[x] != 0 {
            let jj = choose|jj: int| lo <= jj < hi && tab_idx(t1, jj) == x;
            assert(t2[jj] == t1[jj]);
            assert(lo <= jj < hi && tab_idx(t2, jj) == x);
        }
        if exists|jj: int| lo <= jj < hi && tab_idx(t2, jj) == x {
            let jj = choose|jj: int| lo <= jj < hi && tab_idx(t2, jj) == x;
            assert(t1[jj] == t2[jj]);
            assert(lo <= jj < hi && tab_idx(t1, jj) == x);
        }
    }
}

#[verifier::rlimit(100)]
fn pack_hints(h: &Polyveck) -> (t: Vec<u8>)
    requires
        vk_in_range(*h, 0, 1),
        crate::polyvec::vk_ones(*h, 8) <= 75,
    ensures
        t@.len() == 83,
        forall|i: int| 0 <= i < 8 ==> #[trigger] tab_cnt(t@, i) == crate::polyvec::vk_ones(*h, i + 1),
        forall|ii: int|
            0 <= ii < 8 ==> #[trigger] tab_row_incr(
                t@,
                crate::polyvec::vk_ones(*h, ii),
                crate::polyvec::vk_ones(*h, ii + 1),
            ),
        forall|x: int| crate::polyvec::vk_ones(*h, 8) <= x < 75 ==> #[trigger] t@[x] == 0,
        forall|ii: int|
            0 <= ii < 8 ==> #[trigger] row_lists_bits(
                t@,
                *h,
                ii,
                crate::polyvec::vk_ones(*h, ii),
                crate::polyvec::vk_ones(*h, ii + 1),
            ),
{
    let mut t: Vec<u8> = Vec::new();
    let mut x: usize = 0;
    while x < 83
        invariant
            t@.len() == x,
            x <= 83,
            forall|y: int| 0 <= y < x ==> #[trigger] t@[y] == 0,
        decreases 83 - x,
    {
        t.push(0u8);
        x += 1;
    }
    let mut k: usize = 0;
    let mut i: usize = 0;
    while i < 8
        invariant
            t@.len() == 83,
            0 <= i <= 8,
            vk_in_range(*h, 0, 1),
            crate::polyvec::vk_ones(*h, 8) <= 75,
            k as int == crate::polyvec::vk_ones(*h, i as int),
            k <= 75,
            forall|ii: int|
                0 <= ii < i ==> #[trigger] tab_cnt(t@, ii) == crate::polyvec::vk_ones(
                    *h,
                    ii + 1,
                ),
            forall|ii: int|
                0 <= ii < i ==> #[trigger] tab_row_incr(
                    t@,
                    crate::polyvec::vk_ones(*h, ii),
                    crate::polyvec::vk_ones(*h, ii + 1),
                ),
            forall|ii: int|
                0 <= ii < i ==> #[trigger] row_lists_bits(
                    t@,
                    *h,
                    ii,
                    crate::polyvec::vk_ones(*h, ii),
                    crate::polyvec::vk_ones(*h, ii + 1),
                ),
            forall|x: int| k <= x < 75 ==> #[trigger] t@[x] == 0,
        decreases 8 - i,
    {
        proof {
            crate::polyvec::lemma_vk_ones_mono(*h, i as int, 8);
        }
        let ghost rowlo = k as int;
        let mut j: usize = 0;
        while j < 256
            invariant
                t@.len() == 83,
                i < 8,
                0 <= j <= 256,
                vk_in_range(*h, 0, 1),
                crate::polyvec::vk_ones(*h, 8) <= 75,
                rowlo == crate::polyvec::vk_ones(*h, i as int),
                rowlo <= k as int,
                k as int == rowlo + crate::poly::poly_ones(h.vec@[i as int], j as int),
                k <= 75,
                forall|ii: int|
                    0 <= ii < i ==> #[trigger] tab_cnt(t@, ii) == crate::polyvec::vk_ones(
                        *h,
                        ii + 1,
                    ),
                forall|ii: int|
                    0 <= ii < i ==> #[trigger] tab_row_incr(
                        t@,
                        crate::polyvec::vk_ones(*h, ii),
                        crate::polyvec::vk_ones(*h, ii + 1),
                    ),
                tab_row_incr(t@, rowlo, k as int),
                k as int > rowlo ==> tab_idx(t@, k as int - 1) < j,
                forall|jj: int| rowlo <= jj < k as int ==> #[trigger] tab_idx(t@, jj) < j,
                forall|x: int|
                    0 <= x < j ==> ((#[trigger] h.vec@[i as int].coeffs@[x]) != 0 <==> exists|
                        jj: int,
                    |
                        rowlo <= jj < k as int && tab_idx(t@, jj) == x),
                forall|ii: int|
                    0 <= ii < i ==> #[trigger] row_lists_bits(
                        t@,
                        *h,
                        ii,
                        crate::polyvec::vk_ones(*h, ii),
                        crate::polyvec::vk_ones(*h, ii + 1),
                    ),
                forall|x: int| k <= x < 75 ==> #[trigger] t@[x] == 0,
            decreases 256 - j,
        {
            proof {
                crate::poly::lemma_poly_ones_mono(h.vec@[i as int], j as int, 256);
                crate::polyvec::lemma_vk_ones_mono(*h, i as int + 1, 8);
                assert(crate::polyvec::vk_ones(*h, i as int + 1) == crate::polyvec::vk_ones(
                    *h,
                    i as int,
                ) + crate::poly::poly_ones(h.vec@[i as int], 256));
            }
            if h.vec[i].coeffs[j] != 0 {
                proof {
                    crate::poly::lemma_poly_ones_mono(h.vec@[i as int], j as int + 1, 256);
                }
                let ghost tp = t@;
                t[k] = j as u8;
                proof {
                    crate::polyvec::lemma_vk_ones_mono(*h, 0, i as int);
                    assert(t@ == tp.update(k as int, j as u8));
                    assert forall|x: int| 0 <= x < 83 && x != k as int implies #[trigger] t@[x]
                        == tp[x] by {}
                    assert forall|ii: int| 0 <= ii < i implies #[trigger] tab_cnt(t@, ii)
                        == crate::polyvec::vk_ones(*h, ii + 1) by {
                        assert(t@[75 + ii] == tp[75 + ii]);
                        assert(tab_cnt(tp, ii) == crate::polyvec::vk_ones(*h, ii + 1));
                    }
                    assert forall|ii: int| 0 <= ii < i implies #[trigger] tab_row_incr(
                        t@,
                        crate::polyvec::vk_ones(*h, ii),
                        crate::polyvec::vk_ones(*h, ii + 1),
                    ) by {
                        let lo = crate::polyvec::vk_ones(*h, ii);
                        let hi = crate::polyvec::vk_ones(*h, ii + 1);
                        assert(tab_row_incr(tp, lo, hi));
                        crate::polyvec::lemma_vk_ones_mono(*h, 0, ii);
                        crate::polyvec::lemma_vk_ones_mono(*h, ii + 1, i as int);
                        crate::polyvec::lemma_vk_ones_mono(*h, ii + 1, 8);
                        assert forall|jj: int| lo < jj < hi implies #[trigger] tab_idx(t@, jj)
                            > tab_idx(t@, jj - 1) by {
                            assert(0 <= jj - 1 && jj < k as int && jj < 83);
                            assert(t@[jj] == tp[jj]);
                            assert(t@[jj - 1] == tp[jj - 1]);
                            assert(tab_idx(tp, jj) > tab_idx(tp, jj - 1));
                        }
                    }
                    assert forall|jj: int| rowlo < jj < k as int + 1 implies #[trigger] tab_idx(
                        t@,
                        jj,
                    ) > tab_idx(t@, jj - 1) by {
                        if jj < k as int {
                            assert(t@[jj] == tp[jj]);
                            assert(t@[jj - 1] == tp[jj - 1]);
                            assert(tab_idx(tp, jj) > tab_idx(tp, jj - 1));
                        } else {
                            assert(tab_idx(t@, jj) == j as int);
                            if k as int > rowlo {
                                assert(t@[jj - 1] == tp[jj - 1]);
                                assert(tab_idx(tp, k as int - 1) < j);
                            }
                        }
                    }
                    assert forall|jj: int| rowlo <= jj < k as int + 1 implies #[trigger] tab_idx(
                        t@,
                        jj,
                    ) < j + 1 by {
                        if jj < k as int {
                            assert(t@[jj] == tp[jj]);
                            assert(tab_idx(tp, jj) < j);
                        } else {
                            assert(tab_idx(t@, jj) == j as int);
                        }
                    }
                    assert forall|x: int|
                        0 <= x < j + 1 implies ((#[trigger] h.vec@[i as int].coeffs@[x]) != 0
                            <==> exists|jj: int|
                            rowlo <= jj < k as int + 1 && tab_idx(t@, jj) == x) by {
                        if x == j as int {
                            assert(tab_idx(t@, k as int) == x);
                        } else {
                            if h.vec@[i as int].coeffs@[x] != 0 {
                                let jj = choose|jj: int|
                                    rowlo <= jj < k as int && tab_idx(tp, jj) == x;
                                assert(t@[jj] == tp[jj]);
                                assert(rowlo <= jj < k as int + 1 && tab_idx(t@, jj) == x);
                            }
                            if exists|jj: int|
                                rowlo <= jj < k as int + 1 && tab_idx(t@, jj) == x {
                                let jj = choose|jj: int|
                                    rowlo <= jj < k as int + 1 && tab_idx(t@, jj) == x;
                                assert(jj < k as int);
                                assert(tp[jj] == t@[jj]);
                                assert(rowlo <= jj < k as int && tab_idx(tp, jj) == x);
                            }
                        }
                    }
                    assert forall|ii: int| 0 <= ii < i implies #[trigger] row_lists_bits(
                        t@,
                        *h,
                        ii,
                        crate::polyvec::vk_ones(*h, ii),
                        crate::polyvec::vk_ones(*h, ii + 1),
                    ) by {
                        let lo = crate::polyvec::vk_ones(*h, ii);
                        let hi = crate::polyvec::vk_ones(*h, ii + 1);
                        crate::polyvec::lemma_vk_ones_mono(*h, 0, ii);
                        crate::polyvec::lemma_vk_ones_mono(*h, ii + 1, i as int);
                        assert forall|jj: int| lo <= jj < hi implies #[trigger] tp[jj] == t@[jj]
                            by {
                            assert(0 <= jj < k as int && jj < 83);
                        }
                        assert(row_lists_bits(tp, *h, ii, lo, hi));
                        lemma_row_lists_preserved(tp, t@, *h, ii, lo, hi);
                    }
                }
                k += 1;
            } else {
                proof {
                    assert forall|x: int|
                        0 <= x < j + 1 implies ((#[trigger] h.vec@[i as int].coeffs@[x]) != 0
                            <==> exists|jj: int|
                            rowlo <= jj < k as int && tab_idx(t@, jj) == x) by {
                        if x == j as int {
                            if exists|jj: int| rowlo <= jj < k as int && tab_idx(t@, jj) == x {
                                let jj = choose|jj: int|
                                    rowlo <= jj < k as int && tab_idx(t@, jj) == x;
                                assert(tab_idx(t@, jj) < j);
                            }
                        }
                    }
                }
            }
            j += 1;
        }
        proof {
            crate::polyvec::lemma_vk_ones_mono(*h, i as int + 1, 8);
            assert(crate::polyvec::vk_ones(*h, i as int + 1) == crate::polyvec::vk_ones(
                *h,
                i as int,
            ) + crate::poly::poly_ones(h.vec@[i as int], 256));
        }
        let ghost tp = t@;
        t[75 + i] = k as u8;
        proof {
            assert(t@ == tp.update(75 + i as int, k as u8));
            assert forall|x: int| 0 <= x < 83 && x != 75 + i as int implies #[trigger] t@[x]
                == tp[x] by {}
            assert forall|ii: int| 0 <= ii < i + 1 implies #[trigger] tab_cnt(t@, ii)
                == crate::polyvec::vk_ones(*h, ii + 1) by {
                if ii < i {
                    assert(t@[75 + ii] == tp[75 + ii]);
                    assert(tab_cnt(tp, ii) == crate::polyvec::vk_ones(*h, ii + 1));
                } else {
                    assert(t@[75 + ii] == k as u8);
                }
            }
            assert forall|ii: int| 0 <= ii < i + 1 implies #[trigger] row_lists_bits(
                t@,
                *h,
                ii,
                crate::polyvec::vk_ones(*h, ii),
                crate::polyvec::vk_ones(*h, ii + 1),
            ) by {
                let lo = crate::polyvec::vk_ones(*h, ii);
                let hi = crate::polyvec::vk_ones(*h, ii + 1);
                crate::polyvec::lemma_vk_ones_mono(*h, 0, ii);
                crate::polyvec::lemma_vk_ones_mono(*h, ii + 1, i as int + 1);
                crate::polyvec::lemma_vk_ones_mono(*h, ii + 1, 8);
                assert forall|jj: int| lo <= jj < hi implies #[trigger] tp[jj] == t@[jj] by {
                    assert(0 <= jj < 75);
                }
                if ii < i {
                    assert(row_lists_bits(tp, *h, ii, lo, hi));
                } else {
                    assert(lo == rowlo && hi == k as int);
                    assert(row_lists_bits(tp, *h, ii, lo, hi));
                }
                lemma_row_lists_preserved(tp, t@, *h, ii, lo, hi);
            }
            assert forall|ii: int| 0 <= ii < i + 1 implies #[trigger] tab_row_incr(
                t@,
                crate::polyvec::vk_ones(*h, ii),
                crate::polyvec::vk_ones(*h, ii + 1),
            ) by {
                let lo = crate::polyvec::vk_ones(*h, ii);
                let hi = crate::polyvec::vk_ones(*h, ii + 1);
                assert(tab_row_incr(tp, lo, hi));
                crate::polyvec::lemma_vk_ones_mono(*h, 0, ii);
                crate::polyvec::lemma_vk_ones_mono(*h, ii + 1, i as int + 1);
                crate::polyvec::lemma_vk_ones_mono(*h, ii + 1, 8);
                assert forall|jj: int| lo < jj < hi implies #[trigger] tab_idx(t@, jj) > tab_idx(
                    t@,
                    jj - 1,
                ) by {
                    assert(0 <= jj - 1 && jj < 75);
                    assert(t@[jj] == tp[jj]);
                    assert(t@[jj - 1] == tp[jj - 1]);
                    assert(tab_idx(tp, jj) > tab_idx(tp, jj - 1));
                }
            }
        }
        i += 1;
    }
    t
}

/// The optional challenge argument, when present, holds at least 32 bytes.
pub open spec fn sig_c_req(c: Option<&[u8]>) -> bool {
    match c {
        Some(cc) => cc@.len() >= 32,
        None => true,
    }
}

/// The first 32 bytes of s are the given challenge seed, or are unchanged
/// from sold when none was given.
pub open spec fn sig_c_ok(c: Option<&[u8]>, s: Seq<u8>, sold: Seq<u8>) -> bool {
    match c {
        Some(cc) => forall|x: int| 0 <= x < 32 ==> #[trigger] s[x] == cc@[x],
        None => forall|x: int| 0 <= x < 32 ==> #[trigger] s[x] == sold[x],
    }
}

/// Bit-packs a signature: the challenge seed (when given), the 20-bit z
/// columns, and the compressed hint table.
pub fn pack_sig(sig: &mut Vec<u8>, c: Option<&[u8]>, z: &Polyvecl, h: &Polyveck)
    requires
        old(sig)@.len() == 4595,
        sig_c_req(c),
        vl_in_range(*z, -524287, 524288),
        vk_in_range(*h, 0, 1),
        crate::polyvec::vk_ones(*h, 8) <= 75,
    ensures
        final(sig)@.len() == 4595,
        sig_c_ok(c, final(sig)@, old(sig)@),
        forall|i: int| 0 <= i < 7 ==> #[trigger] sig_z_row_ok(final(sig)@, i, z.vec@[i]),
        forall|i: int|
            0 <= i < 8 ==> #[trigger] sig_cnt(final(sig)@, i) == crate::polyvec::vk_ones(
                *h,
                i + 1,
            ),
        hint_region_valid(final(sig)@),
        forall|i: int| 0 <= i < 8 ==> #[trigger] hint_bits_ok(final(sig)@, *h, i),
{
    match c {
        Some(cc) => {
            copy_bytes(sig, 0, cc, 0, 32);
        },
        None => {},
    }
    let mut i: usize = 0;
    while i < 7
        invariant
            sig@.len() == 4595,
            vl_in_range(*z, -524287, 524288),
            0 <= i <= 7,
            sig_c_ok(c, sig@, old(sig)@),
            forall|j: int| 0 <= j < i ==> #[trigger] sig_z_row_ok(sig@, j, z.vec@[j]),
        decreases 7 - i,
    {
        let ghost prev = sig@;
        crate::poly::z_pack(sig, 32 + 640 * i, &z.vec[i]);
        proof {
            assert forall|j: int| 0 <= j < i implies #[trigger] sig_z_row_ok(sig@, j, z.vec@[j]) by {
                assert(sig_z_row_ok(prev, j, z.vec@[j]));
                lemma_z_rows_preserved(prev, sig@, 32 + 640 * j, z.vec@[j]);
            }
            assert(sig_z_row_ok(sig@, i as int, z.vec@[i as int]));
        }
        i += 1;
    }
    let tab = pack_hints(h);
    let ghost prev = sig@;
    copy_bytes(sig, 4512, tab.as_slice(), 0, 83);
    proof {
        assert forall|j: int| 0 <= j < 7 implies #[trigger] sig_z_row_ok(sig@, j, z.vec@[j]) by {
            assert(sig_z_row_ok(prev, j, z.vec@[j]));
            lemma_z_rows_preserved(prev, sig@, 32 + 640 * j, z.vec@[j]);
        }
        assert forall|i: int| 0 <= i < 8 implies #[trigger] sig_cnt(sig@, i)
            == crate::polyvec::vk_ones(*h, i + 1) by {
            assert(sig@[4587 + i] == tab@[75 + i]);
            assert(tab_cnt(tab@, i) == crate::polyvec::vk_ones(*h, i + 1));
        }
        assert forall|i: int| 0 <= i < 8 implies (sig_pcnt(sig@, i) <= #[trigger] sig_cnt(sig@, i)
            <= 75) by {
            crate::polyvec::lemma_vk_ones_mono(*h, i, i + 1);
            crate::polyvec::lemma_vk_ones_mono(*h, i + 1, 8);
        }
        assert forall|i: int| 0 <= i < 8 implies #[trigger] sig_row_incr(sig@, i) by {
            let lo = crate::polyvec::vk_ones(*h, i);
            let hi = crate::polyvec::vk_ones(*h, i + 1);
            crate::polyvec::lemma_vk_ones_mono(*h, 0, i);
            crate::polyvec::lemma_vk_ones_mono(*h, i, i + 1);
            crate::polyvec::lemma_vk_ones_mono(*h, i + 1, 8);
            assert(tab_row_incr(tab@, lo, hi));
            assert(sig_pcnt(sig@, i) == lo && sig_cnt(sig@, i) == hi);
            assert forall|jj: int| sig_pcnt(sig@, i) < jj < sig_cnt(sig@, i) implies #[trigger]
            sig_hidx(sig@, jj) > sig_hidx(sig@, jj - 1) by {
                assert(sig@[4512 + jj] == tab@[jj]);
                assert(sig@[4512 + (jj - 1)] == tab@[jj - 1]);
                assert(tab_idx(tab@, jj) > tab_idx(tab@, jj - 1));
            }
        }
        assert forall|j: int| sig_cnt(sig@, 7) <= j < 75 implies #[trigger] sig_hidx(sig@, j)
            == 0 by {
            assert(sig@[4512 + j] == tab@[j]);
            assert(tab@[j] == 0);
        }
        assert forall|i: int| 0 <= i < 8 implies #[trigger] hint_bits_ok(sig@, *h, i) by {
            let lo = crate::polyvec::vk_ones(*h, i);
            let hi = crate::polyvec::vk_ones(*h, i + 1);
            crate::polyvec::lemma_vk_ones_mono(*h, 0, i);
            crate::polyvec::lemma_vk_ones_mono(*h, i, i + 1);
            crate::polyvec::lemma_vk_ones_mono(*h, i + 1, 8);
            assert(row_lists_bits(tab@, *h, i, lo, hi));
            assert(sig_pcnt(sig@, i) == lo && sig_cnt(sig@, i) == hi);
            assert forall|x: int|
                0 <= x < 256 implies ((#[trigger] h.vec@[i].coeffs@[x]) != 0 <==> exists|jj: int|
                    sig_pcnt(sig@, i) <= jj < sig_cnt(sig@, i) && sig_hidx(sig@, jj) == x) by {
                if h.vec@[i].coeffs@[x] != 0 {
                    let jj = choose|jj: int| lo <= jj < hi && tab_idx(tab@, jj) == x;
                    assert(sig@[4512 + jj] == tab@[jj]);
                    assert(sig_pcnt(sig@, i) <= jj < sig_cnt(sig@, i) && sig_hidx(sig@, jj)
                        == x);
                }
                if exists|jj: int|
                    sig_pcnt(sig@, i) <= jj < sig_cnt(sig@, i) && sig_hidx(sig@, jj) == x {
                    let jj = choose|jj: int|
                        sig_pcnt(sig@, i) <= jj < sig_cnt(sig@, i) && sig_hidx(sig@, jj) == x;
                    assert(sig@[4512 + jj] == tab@[jj]);
                    assert(lo <= jj < hi && tab_idx(tab@, jj) == x);
                }
            }
        }
    }
}



/// Round-trip law of the hint table: a packed signature's index listing
/// determines the hint bits, so two hint vectors of bits that both match
/// the same listing agree everywhere.
pub proof fn lemma_hint_bits_determined(s: Seq<u8>, h1: Polyveck, h2: Polyveck)
    requires
        forall|i: int| 0 <= i < 8 ==> #[trigger] hint_bits_ok(s, h1, i),
        forall|i: int| 0 <= i < 8 ==> #[trigger] hint_bits_ok(s, h2, i),
        vk_in_range(h1, 0, 1),
        vk_in_range(h2, 0, 1),
    ensures
        forall|i: int, x: int|
            0 <= i < 8 && 0 <= x < 256 ==> #[trigger] h1.vec@[i].coeffs@[x]
                == h2.vec@[i].coeffs@[x],
{
    assert forall|i: int, x: int|
        0 <= i < 8 && 0 <= x < 256 implies #[trigger] h1.vec@[i].coeffs@[x]
        == h2.vec@[i].coeffs@[x] by {
        assert(hint_bits_ok(s, h1, i));
        assert(hint_bits_ok(s, h2, i));
        assert(in_range(h1.vec@[i], 0, 1));
        assert(in_range(h2.vec@[i], 0, 1));
        assert(h1.vec@[i].coeffs@[x] != 0 <==> h2.vec@[i].coeffs@[x] != 0);
    }
}

/// Unpacks a signature into the challenge seed, the z vector and the hint
/// vector, enforcing the structural validity gate on the hint table: the
/// result is true exactly when the table is well-formed.
pub fn unpack_sig(c: &mut Vec<u8>, z: &mut Polyvecl, h: &mut Polyveck, sig: &Vec<u8>) -> (r: bool)
    requires
        old(c)@.len() == 32,
        sig@.len() == 4595,
    ensures
        r <==> hint_region_valid(sig@),
        final(c)@.len() == 32,
        forall|x: int| 0 <= x < 32 ==> #[trigger] final(c)@[x] == sig@[x],
        forall|i: int| 0 <= i < 7 ==> #[trigger] sig_z_row_ok(sig@, i, final(z).vec@[i]),
        vl_in_range(*final(z), -524287, 524288),
        r ==> vk_in_range(*final(h), 0, 1),
        r ==> forall|i: int| 0 <= i < 8 ==> #[trigger] hint_bits_ok(sig@, *final(h), i),
{
    copy_bytes(c, 0, sig.as_slice(), 0, 32);
    let mut i: usize = 0;
    while i < 7
        invariant
            sig@.len() == 4595,
            0 <= i <= 7,
            c@.len() == 32,
            forall|x: int| 0 <= x < 32 ==> #[trigger] c@[x] == sig@[x],
            forall|j: int| 0 <= j < i ==> #[trigger] sig_z_row_ok(sig@, j, z.vec@[j]),
            forall|j: int| 0 <= j < i ==> in_range(#[trigger] z.vec@[j], -524287, 524288),
        decreases 7 - i,
    {
        let mut p: Poly = z.vec[i];
        crate::poly::z_unpack(&mut p, sig, 32 + 640 * i);
        z.vec[i] = p;
        i += 1;
    }
    *h = crate::polyvec::veck_zero();
    let mut k: usize = 0;
    let mut i: usize = 0;
    while i < 8
        invariant
            sig@.len() == 4595,
            0 <= i <= 8,
            c@.len() == 32,
            forall|x: int| 0 <= x < 32 ==> #[trigger] c@[x] == sig@[x],
            forall|jz: int| 0 <= jz < 7 ==> #[trigger] sig_z_row_ok(sig@, jz, z.vec@[jz]),
            forall|jz: int| 0 <= jz < 7 ==> in_range(#[trigger] z.vec@[jz], -524287, 524288),
            k <= 75,
            k as int == sig_pcnt(sig@, i as int),
            forall|ii: int|
                0 <= ii < i ==> (sig_pcnt(sig@, ii) <= #[trigger] sig_cnt(sig@, ii) <= 75),
            forall|ii: int| 0 <= ii < i ==> #[trigger] sig_row_incr(sig@, ii),
            vk_in_range(*h, 0, 1),
            forall|ii: int| 0 <= ii < i ==> #[trigger] hint_bits_ok(sig@, *h, ii),
            forall|ii: int| i <= ii < 8 ==> in_range(#[trigger] h.vec@[ii], 0, 0),
        decreases 8 - i,
    {
        let cnt: usize = sig[4587 + i] as usize;
        if cnt < k || cnt > 75 {
            proof {
                assert(sig_cnt(sig@, i as int) == cnt);
                assert(!(sig_pcnt(sig@, i as int) <= sig_cnt(sig@, i as int) <= 75));
            }
            return false;
        }
        let mut p: Poly = h.vec[i];
        proof {
            assert(in_range(h.vec@[i as int], 0, 0));
        }
        let mut j: usize = k;
        while j < cnt
            invariant
                sig@.len() == 4595,
                i < 8,
                c@.len() == 32,
                forall|x: int| 0 <= x < 32 ==> #[trigger] c@[x] == sig@[x],
                forall|jz: int| 0 <= jz < 7 ==> #[trigger] sig_z_row_ok(sig@, jz, z.vec@[jz]),
                forall|jz: int| 0 <= jz < 7 ==> in_range(#[trigger] z.vec@[jz], -524287, 524288),

                k <= j <= cnt <= 75,
                cnt == sig_cnt(sig@, i as int),
                k as int == sig_pcnt(sig@, i as int),
                forall|jj: int|
                    k < jj < j ==> #[trigger] sig_hidx(sig@, jj) > sig_hidx(sig@, jj - 1),
                in_range(p, 0, 1),
                forall|x: int|
                    0 <= x < 256 ==> ((#[trigger] p.coeffs@[x]) != 0 <==> exists|jj: int|
                        k <= jj < j && sig_hidx(sig@, jj) == x),
            decreases cnt - j,
        {
            if j > k {
                let cur: u8 = sig[4512 + j];
                let prv: u8 = sig[4512 + j - 1];
                if cur <= prv {
                    proof {
                        assert(sig_hidx(sig@, j as int) <= sig_hidx(sig@, j as int - 1));
                        assert(!sig_row_incr(sig@, i as int));
                    }
                    return false;
                }
            }
            let idx: usize = sig[4512 + j] as usize;
            let ghost pprev = p;
            p.coeffs[idx] = 1;
            proof {
                assert(idx as int == sig_hidx(sig@, j as int));
                assert forall|x: int|
                    0 <= x < 256 implies ((#[trigger] p.coeffs@[x]) != 0 <==> exists|jj: int|
                        k <= jj < j + 1 && sig_hidx(sig@, jj) == x) by {
                    if x == idx as int {
                        assert(p.coeffs@[x] != 0);
                        assert(k as int <= j as int && (j as int) < j as int + 1 && sig_hidx(sig@, j as int) == x);
                    } else {
                        assert(p.coeffs@[x] == pprev.coeffs@[x]);
                        if p.coeffs@[x] != 0 {
                            let jj = choose|jj: int|
                                k <= jj < j && sig_hidx(sig@, jj) == x;
                            assert(k <= jj < j + 1 && sig_hidx(sig@, jj) == x);
                        }
                        if exists|jj: int| k <= jj < j + 1 && sig_hidx(sig@, jj) == x {
                            let jj = choose|jj: int|
                                k <= jj < j + 1 && sig_hidx(sig@, jj) == x;
                            assert(jj < j);
                            assert(pprev.coeffs@[x] != 0);
                        }
                    }
                }
            }
            j += 1;
        }
        let ghost hprev = *h;
        h.vec[i] = p;
        proof {
            assert forall|ii: int| 0 <= ii < i + 1 implies #[trigger] hint_bits_ok(
                sig@,
                *h,
                ii,
            ) by {
                if ii < i {
                    assert(hint_bits_ok(sig@, hprev, ii));
                    assert(h.vec@[ii] == hprev.vec@[ii]);
                } else {
                    assert(h.vec@[ii] == p);
                }
            }
            assert forall|ii: int| i + 1 <= ii < 8 implies in_range(
                #[trigger] h.vec@[ii],
                0,
                0,
            ) by {
                assert(h.vec@[ii] == hprev.vec@[ii]);
                assert(in_range(hprev.vec@[ii], 0, 0));
            }
        }
        k = cnt;
        i += 1;
    }
    let mut j: usize = k;
    while j < 75
        invariant
            sig@.len() == 4595,
            c@.len() == 32,
            forall|x: int| 0 <= x < 32 ==> #[trigger] c@[x] == sig@[x],
            forall|jz: int| 0 <= jz < 7 ==> #[trigger] sig_z_row_ok(sig@, jz, z.vec@[jz]),
            forall|jz: int| 0 <= jz < 7 ==> in_range(#[trigger] z.vec@[jz], -524287, 524288),
            k <= j <= 75,
            k as int == sig_cnt(sig@, 7),
            forall|jj: int| k <= jj < j ==> #[trigger] sig_hidx(sig@, jj) == 0,
            forall|ii: int|
                0 <= ii < 8 ==> (sig_pcnt(sig@, ii) <= #[trigger] sig_cnt(sig@, ii) <= 75),
            forall|ii: int| 0 <= ii < 8 ==> #[trigger] sig_row_incr(sig@, ii),
            vk_in_range(*h, 0, 1),
            forall|ii: int| 0 <= ii < 8 ==> #[trigger] hint_bits_ok(sig@, *h, ii),
        decreases 75 - j,
    {
        if sig[4512 + j] != 0 {
            proof {
                assert(sig_hidx(sig@, j as int) != 0);
            }
            return false;
        }
        j += 1;
    }
    true
}

} // verus!
