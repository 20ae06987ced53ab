use vaz256::packing::{pack_pk, pack_sk, unpack_pk, unpack_sk};
use vaz256::poly::{
    eta_pack, eta_unpack, t0_pack, t0_unpack, t1_pack, t1_unpack, w1_pack, z_pack, z_unpack, Poly,
};
use vaz256::polyvec::{veck_zero, vecl_zero, Polyveck};

fn pseudo(seed: &mut i64) -> i64 {
    *seed = (*seed * 1103515245 + 12345) % 2147483648;
    *seed
}

#[test]
fn test_t1_roundtrip() {
    let mut p = Poly::default();
    let mut s: i64 = 7;
    for i in 0..256 {
        p.coeffs[i] = (pseudo(&mut s) % 1024) as i32;
    }
    let mut buf = vec![0u8; 320];
    t1_pack(&mut buf, 0, &p);
    let mut q = Poly::default();
    t1_unpack(&mut q, &buf, 0);
    for i in 0..256 {
        assert_eq!(p.coeffs[i], q.coeffs[i]);
    }
}

#[test]
fn test_t0_roundtrip() {
    let mut p = Poly::default();
    let mut s: i64 = 11;
    for i in 0..256 {
        p.coeffs[i] = (pseudo(&mut s) % 8192) as i32 - 4095;
    }
    let mut buf = vec![0u8; 416];
    t0_pack(&mut buf, 0, &p);
    let mut q = Poly::default();
    t0_unpack(&mut q, &buf, 0);
    for i in 0..256 {
        assert_eq!(p.coeffs[i], q.coeffs[i]);
    }
}

#[test]
fn test_eta_roundtrip() {
    let mut p = Poly::default();
    let mut s: i64 = 13;
    for i in 0..256 {
        p.coeffs[i] = (pseudo(&mut s) % 5) as i32 - 2;
    }
    let mut buf = vec![0u8; 96];
    eta_pack(&mut buf, 0, &p);
    let mut q = Poly::default();
    eta_unpack(&mut q, &buf, 0);
    for i in 0..256 {
        assert_eq!(p.coeffs[i], q.coeffs[i]);
    }
}

#[test]
fn test_z_roundtrip() {
    let mut p = Poly::default();
    let mut s: i64 = 17;
    for i in 0..256 {
        p.coeffs[i] = (pseudo(&mut s) % 1048575) as i32 - 524287;
    }
    let mut buf = vec![0u8; 640];
    z_pack(&mut buf, 0, &p);
    let mut q = Poly::default();
    z_unpack(&mut q, &buf, 0);
    for i in 0..256 {
        assert_eq!(p.coeffs[i], q.coeffs[i]);
    }
}

#[test]
fn test_w1_pack_nibbles() {
    let mut p = Poly::default();
    for i in 0..256 {
        p.coeffs[i] = (i % 16) as i32;
    }
    let mut buf = vec![0u8; 128];
    w1_pack(&mut buf, 0, &p);
    for i in 0..128 {
        let lo = (buf[i] & 0x0F) as i32;
        let hi = (buf[i] >> 4) as i32;
        assert_eq!(lo, p.coeffs[2 * i]);
        assert_eq!(hi, p.coeffs[2 * i + 1]);
    }
}

#[test]
fn test_pk_pack_roundtrip() {
    let mut t1: Polyveck = veck_zero();
    let mut s: i64 = 23;
    for r in 0..8 {
        for i in 0..256 {
            t1.vec[r].coeffs[i] = (pseudo(&mut s) % 1024) as i32;
        }
    }
    let rho: Vec<u8> = (0u8..32).collect();
    let mut pk = vec![0u8; 2592];
    pack_pk(&mut pk, &rho, &t1);
    let mut rho2 = vec![0u8; 32];
    let mut t1b = veck_zero();
    unpack_pk(&mut rho2, &mut t1b, &pk);
    assert_eq!(rho, rho2);
    for r in 0..8 {
        for i in 0..256 {
            assert_eq!(t1.vec[r].coeffs[i], t1b.vec[r].coeffs[i]);
        }
    }
}

#[test]
fn test_sk_pack_roundtrip() {
    let mut s: i64 = 29;
    let mut t0 = veck_zero();
    let mut s1 = vecl_zero();
    let mut s2 = veck_zero();
    for r in 0..8 {
        for i in 0..256 {
            t0.vec[r].coeffs[i] = (pseudo(&mut s) % 8192) as i32 - 4095;
            s2.vec[r].coeffs[i] = (pseudo(&mut s) % 5) as i32 - 2;
        }
    }
    for r in 0..7 {
        for i in 0..256 {
            s1.vec[r].coeffs[i] = (pseudo(&mut s) % 5) as i32 - 2;
        }
    }
    let rho: Vec<u8> = (0u8..32).collect();
    let tr: Vec<u8> = (32u8..64).collect();
    let key: Vec<u8> = (64u8..96).collect();
    let mut sk = vec![0u8; 4864];
    pack_sk(&mut sk, &rho, &tr, &key, &t0, &s1, &s2);
    let mut rho2 = vec![0u8; 32];
    let mut tr2 = vec![0u8; 32];
    let mut key2 = vec![0u8; 32];
    let mut t0b = veck_zero();
    let mut s1b = vecl_zero();
    let mut s2b = veck_zero();
    unpack_sk(&mut rho2, &mut tr2, &mut key2, &mut t0b, &mut s1b, &mut s2b, &sk);
    assert_eq!(rho, rho2);
    assert_eq!(tr, tr2);
    assert_eq!(key, key2);
    for r in 0..8 {
        for i in 0..256 {
            assert_eq!(t0.vec[r].coeffs[i], t0b.vec[r].coeffs[i]);
            assert_eq!(s2.vec[r].coeffs[i], s2b.vec[r].coeffs[i]);
        }
    }
    for r in 0..7 {
        for i in 0..256 {
            assert_eq!(s1.vec[r].coeffs[i], s1b.vec[r].coeffs[i]);
        }
    }
}
