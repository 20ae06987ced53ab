//! The lattice engine: deterministic key generation, the
//! Fiat-Shamir-with-aborts signing loop, and verification.
//!
//! All key material is derived from a 32-byte seed through the XOF; signing
//! derives its per-attempt randomness deterministically from the secret key
//! and the message digest, with no external randomness.

use vstd::prelude::*;

use crate::packing::{
    hint_region_valid, pack_pk, pack_sig, pack_sk, pk_row_ok, sk_s1_row_ok, sk_s2_row_ok,
    sk_t0_row_ok, unpack_pk, unpack_sig, unpack_sk,
};
use crate::poly::{bounded, Poly};
use crate::polyvec::{
    lemma_vk_add_bound, lemma_vk_bounded_to_range, lemma_vk_range_to_bounded, lemma_vk_sub_bound,
    lemma_vl_add_bound, lemma_vl_bounded_to_range, lemma_vl_range_to_bounded, matrix_expand,
    matrix_pointwise_montgomery, veck_add, veck_caddq, veck_chknorm, veck_decompose,
    veck_invntt_tomont, veck_make_hint, veck_ntt, veck_pack_w1, veck_pointwise_poly_montgomery,
    veck_power2round, veck_reduce, veck_shiftl, veck_sub, veck_uniform_eta, veck_use_hint,
    veck_zero, vecl_add, vecl_chknorm, vecl_ntt, vecl_pointwise_poly_montgomery, vecl_reduce,
    vecl_uniform_eta, vecl_uniform_gamma1, vecl_zero, vk_bounded, vl_bounded, Polyveck, Polyvecl,
};
use crate::wipe::Zeroize;
use crate::xof::shake256_digest;

verus! {

/// The concatenation of two byte strings.
fn concat2(a: &[u8], b: &[u8]) -> (r: Vec<u8>)
    ensures
        r@ == a@ + b@,
{
    let mut r: Vec<u8> = Vec::new();
    r.extend_from_slice(a);
    r.extend_from_slice(b);
    proof {
        assert(r@ =~= a@ + b@);
    }
    r
}

/// A fresh zeroed byte buffer.
fn zero_bytes(n: usize) -> (r: Vec<u8>)
    ensures
        r@.len() == n,
{
    let mut r: Vec<u8> = Vec::new();
    let mut i: usize = 0;
    while i < n
        invariant
            r@.len() == i,
            i <= n,
        decreases n - i,
    {
        r.push(0u8);
        i += 1;
    }
    r
}

/// Whether two byte vectors hold the same bytes.
fn eq_bytes(a: &Vec<u8>, b: &Vec<u8>) -> (r: bool)
    ensures
        r == (a@ == b@),
{
    if a.len() != b.len() {
        proof {
            assert(a@ != b@);
        }
        return false;
    }
    let n: usize = a.len();
    let mut i: usize = 0;
    while i < n
        invariant
            n == a@.len(),
            n == b@.len(),
            0 <= i <= n,
            forall|j: int| 0 <= j < i ==> #[trigger] a@[j] == b@[j],
        decreases n - i,
    {
        if a[i] != b[i] {
            proof {
                assert(a@[i as int] != b@[i as int]);
            }
            return false;
        }
        i += 1;
    }
    proof {
        assert(a@ =~= b@);
    }
    true
}

/// Wipes the expanded secret vectors of a signing call.
fn wipe_sign_secrets(
    s1: &mut Polyvecl,
    s2: &mut Polyveck,
    t0: &mut Polyveck,
    s1hat: &mut Polyvecl,
    s2hat: &mut Polyveck,
    t0hat: &mut Polyveck,
) {
    s1.zeroize();
    s2.zeroize();
    t0.zeroize();
    s1hat.zeroize();
    s2hat.zeroize();
    t0hat.zeroize();
}

/// The matrix seed rho read from the expanded master seed.
pub open spec fn expand_rho(seed: Seq<u8>) -> Seq<u8> {
    crate::xof::shake256_prefix(seed, 128).subrange(0, 32)
}

/// The secret-sampling seed rhoprime read from the expanded master seed.
pub open spec fn expand_rhoprime(seed: Seq<u8>) -> Seq<u8> {
    crate::xof::shake256_prefix(seed, 128).subrange(32, 96)
}

/// The mask-derivation seed key read from the expanded master seed.
pub open spec fn expand_key(seed: Seq<u8>) -> Seq<u8> {
    crate::xof::shake256_prefix(seed, 128).subrange(96, 128)
}

/// The intermediates of one key derivation: the expanded matrix, the secret
/// vectors, and the t pipeline stage by stage.
pub struct KeypairTrace {
    pub mat: Seq<Polyvecl>,
    pub s1: Polyvecl,
    pub s2: Polyveck,
    pub s1hat: Polyvecl,
    pub tprod: Polyveck,
    pub tred: Polyveck,
    pub tinv: Polyveck,
    pub tsum: Polyveck,
    pub tcad: Polyveck,
    pub t1: Polyveck,
    pub t0: Polyveck,
}

/// The stages of key derivation, each pinned by the exact specification of
/// the operation that computes it, down to the packed key bytes.
pub open spec fn keypair_stages_ok(seed: Seq<u8>, w: KeypairTrace, pkb: Seq<u8>, skb: Seq<u8>) -> bool {
    &&& w.mat.len() == 8
    &&& (forall|i: int, j: int|
        0 <= i < 8 && 0 <= j < 7 ==> #[trigger] crate::poly::uniform_row_ok(
            w.mat[i].vec@[j],
            expand_rho(seed),
            (i * 256 + j) as u16,
        ))
    &&& (forall|i: int|
        0 <= i < 7 ==> #[trigger] crate::poly::eta_row_ok(
            w.s1.vec@[i],
            expand_rhoprime(seed),
            i as u16,
        ))
    &&& (forall|i: int|
        0 <= i < 8 ==> #[trigger] crate::poly::eta_row_ok(
            w.s2.vec@[i],
            expand_rhoprime(seed),
            (7 + i) as u16,
        ))
    &&& (forall|i: int|
        0 <= i < 7 ==> (#[trigger] w.s1hat.vec@[i]).coeffs@ == crate::ntt::ntt_spec(
            w.s1.vec@[i].coeffs@,
        ))
    &&& (forall|i: int|
        0 <= i < 8 ==> #[trigger] crate::polyvec::dot_row_ok(w.tprod.vec@[i], w.mat[i], w.s1hat))
    &&& (forall|i: int|
        0 <= i < 8 ==> #[trigger] crate::polyvec::red_row_ok(w.tred.vec@[i], w.tprod.vec@[i]))
    &&& (forall|i: int|
        0 <= i < 8 ==> (#[trigger] w.tinv.vec@[i]).coeffs@ == crate::ntt::invntt_spec(
            w.tred.vec@[i].coeffs@,
        ))
    &&& (forall|i: int|
        0 <= i < 8 ==> #[trigger] crate::polyvec::padd_ok(
            w.tsum.vec@[i],
            w.tinv.vec@[i],
            w.s2.vec@[i],
        ))
    &&& (forall|i: int|
        0 <= i < 8 ==> #[trigger] crate::polyvec::caddq_row_ok(w.tcad.vec@[i], w.tsum.vec@[i]))
    &&& (forall|i: int|
        0 <= i < 8 ==> #[trigger] crate::polyvec::p2r_row_ok(
            w.t1.vec@[i],
            w.t0.vec@[i],
            w.tcad.vec@[i],
        ))
    &&& pkb.len() == 2592
    &&& (forall|x: int| 0 <= x < 32 ==> #[trigger] pkb[x] == expand_rho(seed)[x])
    &&& (forall|i: int| 0 <= i < 8 ==> #[trigger] pk_row_ok(pkb, i, w.t1.vec@[i]))
    &&& skb.len() == 4864
    &&& (forall|y: int| 0 <= y < 32 ==> #[trigger] skb[y] == expand_rho(seed)[y])
    &&& (forall|y: int| 32 <= y < 64 ==> #[trigger] skb[y] == expand_key(seed)[y - 32])
    &&& (forall|y: int| 64 <= y < 96 ==> #[trigger] skb[y] == crate::xof::shake256_byte(pkb, y - 64))
    &&& (forall|i: int| 0 <= i < 7 ==> #[trigger] sk_s1_row_ok(skb, i, w.s1.vec@[i]))
    &&& (forall|i: int| 0 <= i < 8 ==> #[trigger] sk_s2_row_ok(skb, i, w.s2.vec@[i]))
    &&& (forall|i: int| 0 <= i < 8 ==> #[trigger] sk_t0_row_ok(skb, i, w.t0.vec@[i]))
}

/// The packed keys are the outcome of a full derivation from the seed:
/// every intermediate stage exists and is pinned by its stage's exact
/// specification.
pub open spec fn keypair_derived(seed: Seq<u8>, pkb: Seq<u8>, skb: Seq<u8>) -> bool {
    exists|w: KeypairTrace| #[trigger] keypair_stages_ok(seed, w, pkb, skb)
}

/// Every sampler involved in key derivation finds enough accepted
/// candidates within its fuel budget. This decides the success of key
/// derivation, and it holds for every seed ever observed in practice.
pub open spec fn keygen_feasible(seed: Seq<u8>) -> bool {
    &&& forall|i: int, j: int|
        0 <= i < 8 && 0 <= j < 7 ==> #[trigger] crate::poly::uniform_feasible(
            expand_rho(seed),
            (i * 256 + j) as u16,
        )
    &&& forall|n: int|
        0 <= n < 15 ==> #[trigger] crate::poly::eta_feasible(expand_rhoprime(seed), n as u16)
}

/// A produced keypair has the packed public-key and secret-key sizes.
pub open spec fn keypair_sizes_ok(r: Option<(Vec<u8>, Vec<u8>)>) -> bool {
    match r {
        Some(p) => p.0@.len() == 2592 && p.1@.len() == 4864,
        None => true,
    }
}

/// A produced signature has the packed signature size.
pub open spec fn sig_size_ok(r: Option<Vec<u8>>) -> bool {
    match r {
        Some(s) => s@.len() == 4595,
        None => true,
    }
}

/// A produced signature passes the structural validity gate on its hint
/// table.
pub open spec fn sig_gate_ok(r: Option<Vec<u8>>) -> bool {
    match r {
        Some(s) => hint_region_valid(s@),
        None => true,
    }
}

/// Derives a lattice keypair deterministically from a 32-byte seed: the seed
/// is expanded into rho, rhoprime and key; the secrets s1 and s2 are sampled
/// from rhoprime; t = A * s1 + s2 is split into t1 and t0; the packed public
/// key is (rho, t1) and the packed secret key is (rho, key, tr, s1, s2, t0)
/// with tr the digest of the public key. Returns None only if a sampler's
/// rejection fuel runs out, which is never observed in practice.
pub fn keypair_from_seed(seed: &[u8]) -> (r: Option<(Vec<u8>, Vec<u8>)>)
    requires
        seed@.len() == 32,
    ensures
        keypair_sizes_ok(r),
        (match r {
            Some(_) => true,
            None => false,
        }) <==> keygen_feasible(seed@),
        (match r {
            Some(p) => keypair_derived(seed@, p.0@, p.1@),
            None => true,
        }),
{
    let mut seedbuf = shake256_digest(seed, 128);
    let rho = vstd::slice::slice_to_vec(vstd::slice::slice_subrange(seedbuf.as_slice(), 0, 32));
    let mut rhoprime = vstd::slice::slice_to_vec(
        vstd::slice::slice_subrange(seedbuf.as_slice(), 32, 96),
    );
    let mut key = vstd::slice::slice_to_vec(
        vstd::slice::slice_subrange(seedbuf.as_slice(), 96, 128),
    );

    proof {
        assert(rho@ == expand_rho(seed@));
        assert(rhoprime@ == expand_rhoprime(seed@));
    }
    let zl = vecl_zero();
    let mut mat: [Polyvecl; 8] = [zl, zl, zl, zl, zl, zl, zl, zl];
    if !matrix_expand(&mut mat, rho.as_slice()) {
        proof {
            assert(!keygen_feasible(seed@));
        }
        seedbuf.zeroize();
        rhoprime.zeroize();
        key.zeroize();
        return None;
    }

    let mut s1 = vecl_zero();
    if !vecl_uniform_eta(&mut s1, rhoprime.as_slice(), 0) {
        proof {
            let i = choose|i: int|
                0 <= i < 7 && !#[trigger] crate::poly::eta_feasible(rhoprime@, (0 + i) as u16);
            assert(!crate::poly::eta_feasible(expand_rhoprime(seed@), i as u16));
            assert(!keygen_feasible(seed@));
        }
        s1.zeroize();
        seedbuf.zeroize();
        rhoprime.zeroize();
        key.zeroize();
        return None;
    }
    let mut s2 = veck_zero();
    if !veck_uniform_eta(&mut s2, rhoprime.as_slice(), 7) {
        proof {
            let i = choose|i: int|
                0 <= i < 8 && !#[trigger] crate::poly::eta_feasible(rhoprime@, (7 + i) as u16);
            assert(!crate::poly::eta_feasible(expand_rhoprime(seed@), (7 + i) as u16));
            assert(!keygen_feasible(seed@));
        }
        s1.zeroize();
        s2.zeroize();
        seedbuf.zeroize();
        rhoprime.zeroize();
        key.zeroize();
        return None;
    }
    proof {
        assert forall|n: int|
            0 <= n < 15 implies #[trigger] crate::poly::eta_feasible(
                expand_rhoprime(seed@),
                n as u16,
            ) by {
            if n < 7 {
                assert(crate::poly::eta_feasible(rhoprime@, (0 + n) as u16));
            } else {
                let i = n - 7;
                assert(crate::poly::eta_feasible(rhoprime@, (7 + i) as u16));
            }
        }
        assert(keygen_feasible(seed@));
    }

    let ghost gs1 = s1;
    let ghost gs2 = s2;
    let mut s1hat = s1;
    proof {
        lemma_vl_range_to_bounded(s1hat, -2, 2, 8388608);
    }
    vecl_ntt(&mut s1hat);
    let ghost gs1hat = s1hat;

    let mut t = veck_zero();
    proof {
        assert forall|i: int| 0 <= i < 8 implies vl_bounded(#[trigger] mat@[i], 75431944) by {
            lemma_vl_range_to_bounded(mat@[i], 0, 8380416, 75431944);
        }
    }
    matrix_pointwise_montgomery(&mut t, &mat, &s1hat);
    let ghost gtprod = t;
    veck_reduce(&mut t);
    let ghost gtred = t;
    veck_invntt_tomont(&mut t);
    let ghost t_before_add = t;
    proof {
        lemma_vk_range_to_bounded(s2, -2, 2, 1000000000);
    }
    veck_add(&mut t, &s2);
    let ghost gtsum = t;
    proof {
        lemma_vk_range_to_bounded(s2, -2, 2, 2);
        lemma_vk_add_bound(t, t_before_add, s2, 8380416, 2);
    }
    veck_caddq(&mut t);
    let ghost gtcad = t;
    let mut t0 = veck_zero();
    proof {
        crate::polyvec::lemma_vk_range_widen(t, -2, 8380419, -4, 8380420);
    }
    veck_power2round(&mut t, &mut t0);
    let ghost gt1 = t;
    let ghost gt0 = t0;

    let mut pk = zero_bytes(2592);
    pack_pk(&mut pk, rho.as_slice(), &t);
    let tr = shake256_digest(pk.as_slice(), 32);
    let mut sk = zero_bytes(4864);
    pack_sk(&mut sk, rho.as_slice(), tr.as_slice(), key.as_slice(), &t0, &s1, &s2);

    proof {
        let w = KeypairTrace {
            mat: mat@,
            s1: gs1,
            s2: gs2,
            s1hat: gs1hat,
            tprod: gtprod,
            tred: gtred,
            tinv: t_before_add,
            tsum: gtsum,
            tcad: gtcad,
            t1: gt1,
            t0: gt0,
        };
        assert(key@ == expand_key(seed@));
        assert forall|y: int| 64 <= y < 96 implies #[trigger] sk@[y] == crate::xof::shake256_byte(
            pk@,
            y - 64,
        ) by {
            assert(sk@[y] == tr@[y - 64]);
            assert(tr@[y - 64] == crate::xof::shake256_prefix(pk@, 32)[y - 64]);
        }
        assert forall|i: int|
            0 <= i < 7 implies #[trigger] crate::poly::eta_row_ok(
                w.s1.vec@[i],
                expand_rhoprime(seed@),
                i as u16,
            ) by {
            assert(crate::poly::eta_row_ok(gs1.vec@[i], rhoprime@, (0 + i) as u16));
        }
        assert(keypair_stages_ok(seed@, w, pk@, sk@));
    }
    s1.zeroize();
    s2.zeroize();
    s1hat.zeroize();
    t0.zeroize();
    seedbuf.zeroize();
    rhoprime.zeroize();
    key.zeroize();
    Some((pk, sk))
}

/// The intermediates of one accepted signing attempt.
pub struct SignTrace {
    pub s1: Polyvecl,
    pub s2: Polyveck,
    pub t0: Polyveck,
    pub s1hat: Polyvecl,
    pub s2hat: Polyveck,
    pub t0hat: Polyveck,
    pub mat: Seq<Polyvecl>,
    pub att: int,
    pub y: Polyvecl,
    pub yhat: Polyvecl,
    pub wprod: Polyveck,
    pub wred: Polyveck,
    pub winv: Polyveck,
    pub wcad: Polyveck,
    pub w1: Polyveck,
    pub w0: Polyveck,
    pub w1p: Seq<u8>,
    pub cp: Poly,
    pub chat: Poly,
    pub cs1p: Polyvecl,
    pub cs1: Polyvecl,
    pub zsum: Polyvecl,
    pub z: Polyvecl,
    pub cs2p: Polyveck,
    pub cs2: Polyveck,
    pub w0sub: Polyveck,
    pub w0red: Polyveck,
    pub ct0p: Polyveck,
    pub ct0: Polyveck,
    pub w0sum: Polyveck,
    pub h: Polyveck,
}

/// The stages of one accepted signing attempt, each pinned by the exact
/// specification of the operation that computes it: the rejection-loop
/// conditions hold, and the packed signature spells the challenge seed, the
/// response z and the hint table of that attempt.
pub open spec fn sign_stages_ok(skb: Seq<u8>, m: Seq<u8>, sigb: Seq<u8>, w: SignTrace) -> bool {
    let rho = skb.subrange(0, 32);
    let keyb = skb.subrange(32, 64);
    let trb = skb.subrange(64, 96);
    let mu = crate::xof::shake256_prefix(trb + m, 64);
    let rp = crate::xof::shake256_prefix(keyb + mu, 64);
    let ct = crate::xof::shake256_prefix(mu + w.w1p, 32);
    &&& (forall|i: int| 0 <= i < 7 ==> #[trigger] sk_s1_row_ok(skb, i, w.s1.vec@[i]))
    &&& (forall|i: int| 0 <= i < 8 ==> #[trigger] sk_s2_row_ok(skb, i, w.s2.vec@[i]))
    &&& (forall|i: int| 0 <= i < 8 ==> #[trigger] sk_t0_row_ok(skb, i, w.t0.vec@[i]))
    &&& (forall|i: int|
        0 <= i < 7 ==> (#[trigger] w.s1hat.vec@[i]).coeffs@ == crate::ntt::ntt_spec(
            w.s1.vec@[i].coeffs@,
        ))
    &&& (forall|i: int|
        0 <= i < 8 ==> (#[trigger] w.s2hat.vec@[i]).coeffs@ == crate::ntt::ntt_spec(
            w.s2.vec@[i].coeffs@,
        ))
    &&& (forall|i: int|
        0 <= i < 8 ==> (#[trigger] w.t0hat.vec@[i]).coeffs@ == crate::ntt::ntt_spec(
            w.t0.vec@[i].coeffs@,
        ))
    &&& w.mat.len() == 8
    &&& (forall|i: int, j: int|
        0 <= i < 8 && 0 <= j < 7 ==> #[trigger] crate::poly::uniform_row_ok(
            w.mat[i].vec@[j],
            rho,
            (i * 256 + j) as u16,
        ))
    &&& 0 <= w.att < 1000
    &&& (forall|i: int|
        0 <= i < 7 ==> #[trigger] crate::poly::gamma1_row_ok(
            w.y.vec@[i],
            rp,
            (7 * w.att + i) as u16,
        ))
    &&& (forall|i: int|
        0 <= i < 7 ==> (#[trigger] w.yhat.vec@[i]).coeffs@ == crate::ntt::ntt_spec(
            w.y.vec@[i].coeffs@,
        ))
    &&& (forall|i: int|
        0 <= i < 8 ==> #[trigger] crate::polyvec::dot_row_ok(w.wprod.vec@[i], w.mat[i], w.yhat))
    &&& (forall|i: int|
        0 <= i < 8 ==> #[trigger] crate::polyvec::red_row_ok(w.wred.vec@[i], w.wprod.vec@[i]))
    &&& (forall|i: int|
        0 <= i < 8 ==> (#[trigger] w.winv.vec@[i]).coeffs@ == crate::ntt::invntt_spec(
            w.wred.vec@[i].coeffs@,
        ))
    &&& (forall|i: int|
        0 <= i < 8 ==> #[trigger] crate::polyvec::caddq_row_ok(w.wcad.vec@[i], w.winv.vec@[i]))
    &&& (forall|i: int|
        0 <= i < 8 ==> #[trigger] crate::polyvec::dc_row_ok(
            w.w1.vec@[i],
            w.w0.vec@[i],
            w.wcad.vec@[i],
        ))
    &&& w.w1p.len() == 1024
    &&& (forall|i: int| 0 <= i < 8 ==> #[trigger] crate::polyvec::w1_row_ok(w.w1p, 0, i, w.w1.vec@[i]))
    &&& crate::poly::challenge_of(ct) == Option::Some(crate::poly::coeffs_int(w.cp))
    &&& w.chat.coeffs@ == crate::ntt::ntt_spec(w.cp.coeffs@)
    &&& (forall|i: int|
        0 <= i < 7 ==> #[trigger] crate::polyvec::pwise_row_ok(
            w.cs1p.vec@[i],
            w.chat,
            w.s1hat.vec@[i],
        ))
    &&& (forall|i: int|
        0 <= i < 7 ==> (#[trigger] w.cs1.vec@[i]).coeffs@ == crate::ntt::invntt_spec(
            w.cs1p.vec@[i].coeffs@,
        ))
    &&& (forall|i: int|
        0 <= i < 7 ==> #[trigger] crate::polyvec::padd_ok(
            w.zsum.vec@[i],
            w.y.vec@[i],
            w.cs1.vec@[i],
        ))
    &&& (forall|i: int|
        0 <= i < 7 ==> #[trigger] crate::polyvec::red_row_ok(w.z.vec@[i], w.zsum.vec@[i]))
    &&& crate::polyvec::vl_bounded(w.z, 524167)
    &&& (forall|i: int|
        0 <= i < 8 ==> #[trigger] crate::polyvec::pwise_row_ok(
            w.cs2p.vec@[i],
            w.chat,
            w.s2hat.vec@[i],
        ))
    &&& (forall|i: int|
        0 <= i < 8 ==> (#[trigger] w.cs2.vec@[i]).coeffs@ == crate::ntt::invntt_spec(
            w.cs2p.vec@[i].coeffs@,
        ))
    &&& (forall|i: int|
        0 <= i < 8 ==> #[trigger] crate::polyvec::psub_ok(
            w.w0sub.vec@[i],
            w.w0.vec@[i],
            w.cs2.vec@[i],
        ))
    &&& (forall|i: int|
        0 <= i < 8 ==> #[trigger] crate::polyvec::red_row_ok(w.w0red.vec@[i], w.w0sub.vec@[i]))
    &&& crate::polyvec::vk_bounded(w.w0red, 261767)
    &&& (forall|i: int|
        0 <= i < 8 ==> #[trigger] crate::polyvec::pwise_row_ok(
            w.ct0p.vec@[i],
            w.chat,
            w.t0hat.vec@[i],
        ))
    &&& (forall|i: int|
        0 <= i < 8 ==> (#[trigger] w.ct0.vec@[i]).coeffs@ == crate::ntt::invntt_spec(
            w.ct0p.vec@[i].coeffs@,
        ))
    &&& crate::polyvec::vk_bounded(w.ct0, 261887)
    &&& (forall|i: int|
        0 <= i < 8 ==> #[trigger] crate::polyvec::padd_ok(
            w.w0sum.vec@[i],
            w.w0red.vec@[i],
            w.ct0.vec@[i],
        ))
    &&& (forall|i: int|
        0 <= i < 8 ==> #[trigger] crate::polyvec::mh_row_ok(
            w.h.vec@[i],
            w.w0sum.vec@[i],
            w.w1.vec@[i],
        ))
    &&& crate::polyvec::vk_ones(w.h, 8) <= 75
    &&& sigb.len() == 4595
    &&& (forall|x: int| 0 <= x < 32 ==> #[trigger] sigb[x] == ct[x])
    &&& (forall|i: int| 0 <= i < 7 ==> #[trigger] crate::packing::sig_z_row_ok(sigb, i, w.z.vec@[i]))
    &&& hint_region_valid(sigb)
    &&& (forall|i: int| 0 <= i < 8 ==> #[trigger] crate::packing::hint_bits_ok(sigb, w.h, i))
    &&& (forall|i: int|
        0 <= i < 8 ==> #[trigger] crate::packing::sig_cnt(sigb, i) == crate::polyvec::vk_ones(
            w.h,
            i + 1,
        ))
}

/// The signature is the outcome of a full accepted signing attempt on
/// (sk, m): every intermediate stage exists and is pinned by its stage's
/// exact specification.
pub open spec fn sign_derived(skb: Seq<u8>, m: Seq<u8>, sigb: Seq<u8>) -> bool {
    exists|w: SignTrace| #[trigger] sign_stages_ok(skb, m, sigb, w)
}

/// Signs a message with a packed secret key by the rejection loop: sample a
/// masking vector y from a deterministically derived per-attempt seed,
/// compute w = A * y, take the challenge from the high bits, and accept only
/// when the response z and the low-bit terms pass their norm checks and the
/// hint weight stays within bound. Returns None only if every attempt in the
/// generous retry budget is rejected, which is never observed in practice.
pub fn sign_message(sk: &Vec<u8>, m: &[u8]) -> (r: Option<Vec<u8>>)
    requires
        sk@.len() == 4864,
    ensures
        sig_size_ok(r),
        sig_gate_ok(r),
        (match r {
            Some(s) => sign_derived(sk@, m@, s@),
            None => true,
        }),
{
    let mut rho = zero_bytes(32);
    let mut tr = zero_bytes(32);
    let mut key = zero_bytes(32);
    let mut t0 = veck_zero();
    let mut s1 = vecl_zero();
    let mut s2 = veck_zero();
    unpack_sk(&mut rho, &mut tr, &mut key, &mut t0, &mut s1, &mut s2, sk);
    let ghost gs1 = s1;
    let ghost gs2 = s2;
    let ghost gt0 = t0;

    let trm = concat2(tr.as_slice(), m);
    let mut mu = shake256_digest(trm.as_slice(), 64);
    let keymu = concat2(key.as_slice(), mu.as_slice());
    let mut rhoprime = shake256_digest(keymu.as_slice(), 64);

    let zl = vecl_zero();
    let mut mat: [Polyvecl; 8] = [zl, zl, zl, zl, zl, zl, zl, zl];
    if !matrix_expand(&mut mat, rho.as_slice()) {
        s1.zeroize();
        s2.zeroize();
        t0.zeroize();
        key.zeroize();
        rhoprime.zeroize();
        return None;
    }
    proof {
        assert forall|i: int| 0 <= i < 8 implies vl_bounded(#[trigger] mat@[i], 75431944) by {
            lemma_vl_range_to_bounded(mat@[i], 0, 8380416, 75431944);
        }
    }

    let mut s1hat = s1;
    proof {
        lemma_vl_range_to_bounded(s1hat, -5, 2, 8388608);
    }
    vecl_ntt(&mut s1hat);
    let ghost gs1hat = s1hat;
    let mut s2hat = s2;
    proof {
        lemma_vk_range_to_bounded(s2hat, -5, 2, 8388608);
    }
    veck_ntt(&mut s2hat);
    let ghost gs2hat = s2hat;
    let mut t0hat = t0;
    proof {
        lemma_vk_range_to_bounded(t0hat, -4095, 4096, 8388608);
    }
    veck_ntt(&mut t0hat);
    let ghost gt0hat = t0hat;

    proof {
        assert(rho@ =~= sk@.subrange(0, 32));
        assert(key@ =~= sk@.subrange(32, 64));
        assert(tr@ =~= sk@.subrange(64, 96));
        assert(trm@ == tr@ + m@);
        assert(keymu@ == key@ + mu@);
    }
    let mut attempt: u16 = 0;
    while attempt < 1000
        invariant
            sk@.len() == 4864,
            rhoprime@.len() == 64,
            mu@.len() == 64,
            key@.len() == 32,
            vl_bounded(s1hat, 75431944),
            vk_bounded(s2hat, 75431944),
            vk_bounded(t0hat, 75431944),
            forall|i: int| 0 <= i < 8 ==> vl_bounded(#[trigger] mat@[i], 75431944),
            s1hat == gs1hat && s2hat == gs2hat && t0hat == gt0hat,
            s1 == gs1 && s2 == gs2 && t0 == gt0,
            rho@ == sk@.subrange(0, 32),
            key@ == sk@.subrange(32, 64),
            tr@ == sk@.subrange(64, 96),
            mu@ == crate::xof::shake256_prefix(sk@.subrange(64, 96) + m@, 64),
            rhoprime@ == crate::xof::shake256_prefix(
                sk@.subrange(32, 64) + crate::xof::shake256_prefix(sk@.subrange(64, 96) + m@, 64),
                64,
            ),
            forall|i: int| 0 <= i < 7 ==> #[trigger] sk_s1_row_ok(sk@, i, gs1.vec@[i]),
            forall|i: int| 0 <= i < 8 ==> #[trigger] sk_s2_row_ok(sk@, i, gs2.vec@[i]),
            forall|i: int| 0 <= i < 8 ==> #[trigger] sk_t0_row_ok(sk@, i, gt0.vec@[i]),
            forall|i: int|
                0 <= i < 7 ==> (#[trigger] gs1hat.vec@[i]).coeffs@ == crate::ntt::ntt_spec(
                    gs1.vec@[i].coeffs@,
                ),
            forall|i: int|
                0 <= i < 8 ==> (#[trigger] gs2hat.vec@[i]).coeffs@ == crate::ntt::ntt_spec(
                    gs2.vec@[i].coeffs@,
                ),
            forall|i: int|
                0 <= i < 8 ==> (#[trigger] gt0hat.vec@[i]).coeffs@ == crate::ntt::ntt_spec(
                    gt0.vec@[i].coeffs@,
                ),
            forall|i: int, j: int|
                0 <= i < 8 && 0 <= j < 7 ==> #[trigger] crate::poly::uniform_row_ok(
                    mat@[i].vec@[j],
                    sk@.subrange(0, 32),
                    (i * 256 + j) as u16,
                ),
        decreases 1000 - attempt,
    {
        let mut y = vecl_zero();
        vecl_uniform_gamma1(&mut y, rhoprime.as_slice(), attempt);
        let ghost gy = y;
        let mut yhat = y;
        proof {
            lemma_vl_range_to_bounded(yhat, -524287, 524288, 8388608);
        }
        vecl_ntt(&mut yhat);
        let ghost gyhat = yhat;

        let mut w = veck_zero();
        matrix_pointwise_montgomery(&mut w, &mat, &yhat);
        let ghost gwprod = w;
        veck_reduce(&mut w);
        let ghost gwred = w;
        veck_invntt_tomont(&mut w);
        let ghost gwinv = w;
        proof {
            lemma_vk_bounded_to_range(w, 8380416, -8380419, 8380419);
            lemma_vk_range_to_bounded(w, -8380419, 8380419, 8380419);
        }
        veck_caddq(&mut w);
        let ghost gwcad = w;

        let mut w0 = veck_zero();
        veck_decompose(&mut w, &mut w0);
        let ghost gw1 = w;
        let ghost gw0 = w0;

        let mut w1packed = zero_bytes(1024);
        veck_pack_w1(&mut w1packed, 0, &w);
        let muw = concat2(mu.as_slice(), w1packed.as_slice());
        let ctilde = shake256_digest(muw.as_slice(), 32);

        let mut cp = Poly::default();
        if !crate::poly::challenge(&mut cp, ctilde.as_slice()) {
            y.zeroize();
            yhat.zeroize();
            w0.zeroize();
            wipe_sign_secrets(&mut s1, &mut s2, &mut t0, &mut s1hat, &mut s2hat, &mut t0hat);
            key.zeroize();
            rhoprime.zeroize();
            return None;
        }
        let mut chat = cp;
        proof {
            assert(bounded(chat, 8388608));
        }
        crate::poly::ntt(&mut chat);

        let mut cs1 = vecl_zero();
        vecl_pointwise_poly_montgomery(&mut cs1, &chat, &s1hat);
        let ghost gcs1p = cs1;
        crate::polyvec::vecl_invntt_tomont(&mut cs1);
        let ghost gcs1 = cs1;
        let mut z = y;
        let ghost z_before = z;
        proof {
            lemma_vl_range_to_bounded(z, -524287, 524288, 1000000000);
            lemma_vl_range_to_bounded(z, -524287, 524288, 524288);
        }
        vecl_add(&mut z, &cs1);
        let ghost gzsum = z;
        proof {
            lemma_vl_add_bound(z, z_before, cs1, 524288, 8380416);
        }
        vecl_reduce(&mut z);
        if vecl_chknorm(&z, 524168) != 0 {
            y.zeroize();
            yhat.zeroize();
            z.zeroize();
            cs1.zeroize();
            w0.zeroize();
            attempt += 1;
            continue;
        }

        let mut cs2 = veck_zero();
        veck_pointwise_poly_montgomery(&mut cs2, &chat, &s2hat);
        let ghost gcs2p = cs2;
        veck_invntt_tomont(&mut cs2);
        let ghost gcs2 = cs2;
        let ghost w0_before = w0;
        proof {
            lemma_vk_range_to_bounded(w0, -261888, 261888, 1000000000);
            lemma_vk_range_to_bounded(w0, -261888, 261888, 261888);
        }
        veck_sub(&mut w0, &cs2);
        let ghost gw0sub = w0;
        proof {
            lemma_vk_sub_bound(w0, w0_before, cs2, 261888, 8380416);
        }
        veck_reduce(&mut w0);
        let ghost gw0red = w0;
        if veck_chknorm(&w0, 261768) != 0 {
            y.zeroize();
            yhat.zeroize();
            z.zeroize();
            cs1.zeroize();
            cs2.zeroize();
            w0.zeroize();
            attempt += 1;
            continue;
        }

        let mut ct0 = veck_zero();
        veck_pointwise_poly_montgomery(&mut ct0, &chat, &t0hat);
        let ghost gct0p = ct0;
        veck_invntt_tomont(&mut ct0);
        let ghost gct0 = ct0;
        if veck_chknorm(&ct0, 261888) != 0 {
            y.zeroize();
            yhat.zeroize();
            z.zeroize();
            cs1.zeroize();
            cs2.zeroize();
            ct0.zeroize();
            w0.zeroize();
            attempt += 1;
            continue;
        }

        let ghost w0_before2 = w0;
        veck_add(&mut w0, &ct0);
        let ghost gw0sum = w0;
        proof {
            lemma_vk_add_bound(w0, w0_before2, ct0, 261767, 261887);
        }

        let mut h = veck_zero();
        let n = veck_make_hint(&mut h, &w0, &w);
        if n > 75 {
            y.zeroize();
            yhat.zeroize();
            z.zeroize();
            cs1.zeroize();
            cs2.zeroize();
            ct0.zeroize();
            w0.zeroize();
            attempt += 1;
            continue;
        }

        let mut sig = zero_bytes(4595);
        proof {
            lemma_vl_bounded_to_range(z, 524167, -524287, 524288);
        }
        pack_sig(&mut sig, Some(ctilde.as_slice()), &z, &h);
        proof {
            let t = SignTrace {
                s1: gs1,
                s2: gs2,
                t0: gt0,
                s1hat: gs1hat,
                s2hat: gs2hat,
                t0hat: gt0hat,
                mat: mat@,
                att: attempt as int,
                y: gy,
                yhat: gyhat,
                wprod: gwprod,
                wred: gwred,
                winv: gwinv,
                wcad: gwcad,
                w1: gw1,
                w0: gw0,
                w1p: w1packed@,
                cp: cp,
                chat: chat,
                cs1p: gcs1p,
                cs1: gcs1,
                zsum: gzsum,
                z: z,
                cs2p: gcs2p,
                cs2: gcs2,
                w0sub: gw0sub,
                w0red: gw0red,
                ct0p: gct0p,
                ct0: gct0,
                w0sum: gw0sum,
                h: h,
            };
            assert(muw@ == mu@ + w1packed@);
            assert(ctilde@ == crate::xof::shake256_prefix(mu@ + w1packed@, 32));
            assert(ctilde@.subrange(0, 32) =~= ctilde@);
            assert(sign_stages_ok(sk@, m@, sig@, t));
        }
        y.zeroize();
        yhat.zeroize();
        cs1.zeroize();
        cs2.zeroize();
        ct0.zeroize();
        w0.zeroize();
        wipe_sign_secrets(&mut s1, &mut s2, &mut t0, &mut s1hat, &mut s2hat, &mut t0hat);
        key.zeroize();
        rhoprime.zeroize();
        return Some(sig);
    }
    wipe_sign_secrets(&mut s1, &mut s2, &mut t0, &mut s1hat, &mut s2hat, &mut t0hat);
    key.zeroize();
    rhoprime.zeroize();
    None
}

/// The intermediates of one verification: the unpacked keys and signature
/// parts, and the w pipeline stage by stage.
pub struct VerifyTrace {
    pub t1: Polyveck,
    pub z: Polyvecl,
    pub h: Polyveck,
    pub cp: Poly,
    pub chat: Poly,
    pub zhat: Polyvecl,
    pub mat: Seq<Polyvecl>,
    pub wprod: Polyveck,
    pub t1s: Polyveck,
    pub t1hat: Polyveck,
    pub ct1: Polyveck,
    pub wsub: Polyveck,
    pub wred: Polyveck,
    pub winv: Polyveck,
    pub wcad: Polyveck,
    pub wuh: Polyveck,
    pub w1p: Seq<u8>,
}

/// The stages of one accepting verification, each pinned by the exact
/// specification of the operation that computes it, ending in the equality
/// of the embedded challenge seed with the digest of mu and the
/// reconstructed high bits — the verification equation.
pub open spec fn verify_stages_ok(pk: Seq<u8>, m: Seq<u8>, sig: Seq<u8>, w: VerifyTrace) -> bool {
    let rho = pk.subrange(0, 32);
    let mu = crate::xof::shake256_prefix(crate::xof::shake256_prefix(pk, 32) + m, 64);
    &&& (forall|i: int| 0 <= i < 8 ==> #[trigger] pk_row_ok(pk, i, w.t1.vec@[i]))
    &&& hint_region_valid(sig)
    &&& (forall|i: int| 0 <= i < 7 ==> #[trigger] crate::packing::sig_z_row_ok(sig, i, w.z.vec@[i]))
    &&& crate::polyvec::vl_bounded(w.z, 524167)
    &&& (forall|i: int| 0 <= i < 8 ==> #[trigger] crate::packing::hint_bits_ok(sig, w.h, i))
    &&& crate::polyvec::vk_in_range(w.h, 0, 1)
    &&& w.mat.len() == 8
    &&& (forall|i: int, j: int|
        0 <= i < 8 && 0 <= j < 7 ==> #[trigger] crate::poly::uniform_row_ok(
            w.mat[i].vec@[j],
            rho,
            (i * 256 + j) as u16,
        ))
    &&& crate::poly::challenge_of(sig.subrange(0, 32)) == Option::Some(
        crate::poly::coeffs_int(w.cp),
    )
    &&& w.chat.coeffs@ == crate::ntt::ntt_spec(w.cp.coeffs@)
    &&& (forall|i: int|
        0 <= i < 7 ==> (#[trigger] w.zhat.vec@[i]).coeffs@ == crate::ntt::ntt_spec(
            w.z.vec@[i].coeffs@,
        ))
    &&& (forall|i: int|
        0 <= i < 8 ==> #[trigger] crate::polyvec::dot_row_ok(w.wprod.vec@[i], w.mat[i], w.zhat))
    &&& (forall|i: int|
        0 <= i < 8 ==> #[trigger] crate::polyvec::shiftl_row_ok(w.t1s.vec@[i], w.t1.vec@[i]))
    &&& (forall|i: int|
        0 <= i < 8 ==> (#[trigger] w.t1hat.vec@[i]).coeffs@ == crate::ntt::ntt_spec(
            w.t1s.vec@[i].coeffs@,
        ))
    &&& (forall|i: int|
        0 <= i < 8 ==> #[trigger] crate::polyvec::pwise_row_ok(
            w.ct1.vec@[i],
            w.chat,
            w.t1hat.vec@[i],
        ))
    &&& (forall|i: int|
        0 <= i < 8 ==> #[trigger] crate::polyvec::psub_ok(
            w.wsub.vec@[i],
            w.wprod.vec@[i],
            w.ct1.vec@[i],
        ))
    &&& (forall|i: int|
        0 <= i < 8 ==> #[trigger] crate::polyvec::red_row_ok(w.wred.vec@[i], w.wsub.vec@[i]))
    &&& (forall|i: int|
        0 <= i < 8 ==> (#[trigger] w.winv.vec@[i]).coeffs@ == crate::ntt::invntt_spec(
            w.wred.vec@[i].coeffs@,
        ))
    &&& (forall|i: int|
        0 <= i < 8 ==> #[trigger] crate::polyvec::caddq_row_ok(w.wcad.vec@[i], w.winv.vec@[i]))
    &&& (forall|i: int|
        0 <= i < 8 ==> #[trigger] crate::polyvec::uh_row_ok(
            w.wuh.vec@[i],
            w.wcad.vec@[i],
            w.h.vec@[i],
        ))
    &&& w.w1p.len() == 1024
    &&& (forall|i: int| 0 <= i < 8 ==> #[trigger] crate::polyvec::w1_row_ok(w.w1p, 0, i, w.wuh.vec@[i]))
    &&& sig.subrange(0, 32) == crate::xof::shake256_prefix(mu + w.w1p, 32)
}

/// Some full derivation chain accepts the signature: the verification
/// equation holds of the unpacked values.
pub open spec fn verify_accepts(pk: Seq<u8>, m: Seq<u8>, sig: Seq<u8>) -> bool {
    exists|w: VerifyTrace| #[trigger] verify_stages_ok(pk, m, sig, w)
}

/// Verifies a packed signature against a packed public key and a message:
/// the signature is unpacked through the structural validity gate, the z
/// norm is checked, and the challenge seed must equal the digest of mu and
/// the high bits reconstructed through the hints. A signature whose hint
/// table is malformed is always rejected.
pub fn verify_message(pk: &Vec<u8>, m: &[u8], sig: &Vec<u8>) -> (r: bool)
    requires
        pk@.len() == 2592,
        sig@.len() == 4595,
    ensures
        r ==> hint_region_valid(sig@),
        r ==> verify_accepts(pk@, m@, sig@),
{
    let mut rho = zero_bytes(32);
    let mut t1 = veck_zero();
    unpack_pk(&mut rho, &mut t1, pk);

    let mut ctilde = zero_bytes(32);
    let mut z = vecl_zero();
    let mut h = veck_zero();
    if !unpack_sig(&mut ctilde, &mut z, &mut h, sig) {
        return false;
    }
    proof {
        lemma_vl_range_to_bounded(z, -524287, 524288, 536870911);
    }
    if vecl_chknorm(&z, 524168) != 0 {
        return false;
    }

    let zl = vecl_zero();
    let mut mat: [Polyvecl; 8] = [zl, zl, zl, zl, zl, zl, zl, zl];
    if !matrix_expand(&mut mat, rho.as_slice()) {
        return false;
    }
    proof {
        assert forall|i: int| 0 <= i < 8 implies vl_bounded(#[trigger] mat@[i], 75431944) by {
            lemma_vl_range_to_bounded(mat@[i], 0, 8380416, 75431944);
        }
    }

    let tr = shake256_digest(pk.as_slice(), 32);
    let trm = concat2(tr.as_slice(), m);
    let mu = shake256_digest(trm.as_slice(), 64);

    let mut cp = Poly::default();
    if !crate::poly::challenge(&mut cp, ctilde.as_slice()) {
        return false;
    }
    let mut chat = cp;
    proof {
        assert(bounded(chat, 8388608));
    }
    crate::poly::ntt(&mut chat);

    let mut zhat = z;
    proof {
        lemma_vl_range_to_bounded(zhat, -524287, 524288, 8388608);
    }
    vecl_ntt(&mut zhat);

    let mut w = veck_zero();
    matrix_pointwise_montgomery(&mut w, &mat, &zhat);
    let ghost gwprod = w;

    let mut t1hat = t1;
    veck_shiftl(&mut t1hat);
    let ghost gt1s = t1hat;
    proof {
        lemma_vk_range_to_bounded(t1hat, 0, 8380416, 8388608);
    }
    veck_ntt(&mut t1hat);
    let mut ct1 = veck_zero();
    veck_pointwise_poly_montgomery(&mut ct1, &chat, &t1hat);

    let ghost w_before = w;
    veck_sub(&mut w, &ct1);
    let ghost gwsub = w;
    proof {
        lemma_vk_sub_bound(w, w_before, ct1, 58662919, 8380416);
    }
    veck_reduce(&mut w);
    let ghost gwred = w;
    veck_invntt_tomont(&mut w);
    let ghost gwinv = w;
    proof {
        lemma_vk_bounded_to_range(w, 8380416, -8380419, 8380419);
        lemma_vk_range_to_bounded(w, -8380419, 8380419, 8380419);
    }
    veck_caddq(&mut w);
    let ghost gwcad = w;
    veck_use_hint(&mut w, &h);

    let mut w1packed = zero_bytes(1024);
    veck_pack_w1(&mut w1packed, 0, &w);
    let muw = concat2(mu.as_slice(), w1packed.as_slice());
    let c2 = shake256_digest(muw.as_slice(), 32);
    let okeq = eq_bytes(&ctilde, &c2);
    proof {
        if okeq {
            let tr0 = VerifyTrace {
                t1: t1,
                z: z,
                h: h,
                cp: cp,
                chat: chat,
                zhat: zhat,
                mat: mat@,
                wprod: gwprod,
                t1s: gt1s,
                t1hat: t1hat,
                ct1: ct1,
                wsub: gwsub,
                wred: gwred,
                winv: gwinv,
                wcad: gwcad,
                wuh: w,
                w1p: w1packed@,
            };
            assert(rho@ =~= pk@.subrange(0, 32));
            assert(ctilde@ =~= sig@.subrange(0, 32));
            assert(ctilde@.subrange(0, 32) =~= ctilde@);
            assert(tr@ == crate::xof::shake256_prefix(pk@, 32));
            assert(mu@ == crate::xof::shake256_prefix(tr@ + m@, 64));
            assert(c2@ == crate::xof::shake256_prefix(mu@ + w1packed@, 32));
            assert(verify_stages_ok(pk@, m@, sig@, tr0));
        }
    }
    okeq
}

} // verus!
