use vaz256::dilithium::{keypair_from_seed, sign_message, verify_message};

#[test]
fn test_keygen_deterministic_zero_seed() {
    // The all-zero seed gives a keypair, and the derivation is byte-exact
    // across repeated calls.
    let seed = [0u8; 32];
    let (pk1, sk1) = keypair_from_seed(&seed).unwrap();
    let (pk2, sk2) = keypair_from_seed(&seed).unwrap();
    assert_eq!(pk1.len(), 2592);
    assert_eq!(sk1.len(), 4864);
    assert_eq!(pk1, pk2);
    assert_eq!(sk1, sk2);
    // Fixed regression vectors: the digests of the zero-seed keypair,
    // recorded once.
    let pk_digest = vaz256::xof::shake256_digest(&pk1, 32);
    let sk_digest = vaz256::xof::shake256_digest(&sk1, 32);
    assert_eq!(
        vaz256::hex::encode(&pk_digest),
        "665388291aa01e12e7f94bdc7769db1817bdb1df0897fef990cc05cd8af2a4b7"
    );
    assert_eq!(
        vaz256::hex::encode(&sk_digest),
        "3956d812a7961af6e5dad16af15c736c40c83b72b51d6d2a4446c349ff3ebd86"
    );
}

#[test]
fn test_sign_deterministic() {
    // Signing is byte-identical across repeated calls with the same inputs.
    let seed = [7u8; 32];
    let (_pk, sk) = keypair_from_seed(&seed).unwrap();
    let s1 = sign_message(&sk, b"determinism").unwrap();
    let s2 = sign_message(&sk, b"determinism").unwrap();
    assert_eq!(s1, s2);
}

#[test]
fn test_sign_verify_lattice() {
    // verify(message, sign(message, sk), pk) succeeds, for several seeds
    // and messages.
    for (byte, msg) in [(1u8, b"alpha".as_slice()), (2u8, b""), (3u8, b"a longer message body")] {
        let seed = [byte; 32];
        let (pk, sk) = keypair_from_seed(&seed).unwrap();
        let sig = sign_message(&sk, msg).unwrap();
        assert_eq!(sig.len(), 4595);
        assert!(verify_message(&pk, msg, &sig));
    }
}

#[test]
fn test_bit_flips_rejected() {
    // Flipping a single bit of message, signature or public key makes
    // verification fail.
    let seed = [9u8; 32];
    let (pk, sk) = keypair_from_seed(&seed).unwrap();
    let msg = b"bit flip trial";
    let sig = sign_message(&sk, msg).unwrap();
    assert!(verify_message(&pk, msg, &sig));

    let mut bad_msg = msg.to_vec();
    bad_msg[3] ^= 0x10;
    assert!(!verify_message(&pk, &bad_msg, &sig));

    for pos in [0usize, 100, 2000, 4500] {
        let mut bad_sig = sig.clone();
        bad_sig[pos] ^= 0x01;
        assert!(!verify_message(&pk, msg, &bad_sig));
    }

    for pos in [0usize, 500, 2591] {
        let mut bad_pk = pk.clone();
        bad_pk[pos] ^= 0x80;
        assert!(!verify_message(&bad_pk, msg, &sig));
    }
}

#[test]
fn test_invalid_hint_table_rejected() {
    // A correctly sized signature whose hint running-count table is not
    // monotone is rejected at unpack time, without any out-of-bounds access.
    let seed = [5u8; 32];
    let (pk, sk) = keypair_from_seed(&seed).unwrap();
    let msg = b"structural gate";
    let mut sig = sign_message(&sk, msg).unwrap();
    assert!(verify_message(&pk, msg, &sig));

    // The running-count bytes sit at the end of the signature.
    sig[4587] = 50;
    sig[4588] = 10;
    assert!(!verify_message(&pk, msg, &sig));

    // The structural gate itself reports the malformed table.
    let mut c = vec![0u8; 32];
    let mut z = vaz256::polyvec::vecl_zero();
    let mut h = vaz256::polyvec::veck_zero();
    assert!(!vaz256::packing::unpack_sig(&mut c, &mut z, &mut h, &sig));

    // A count above the maximum hint weight is rejected too.
    let mut sig2 = sign_message(&sk, msg).unwrap();
    sig2[4594] = 76;
    assert!(!verify_message(&pk, msg, &sig2));

    // A nonzero byte past the last used index position is rejected too.
    let mut sig3 = sign_message(&sk, msg).unwrap();
    let last_count = sig3[4594] as usize;
    if last_count < 75 {
        sig3[4512 + 74] = 255;
        assert!(!verify_message(&pk, msg, &sig3));
    }
}

#[test]
fn test_challenge_weight() {
    // The challenge polynomial has exactly TAU nonzero coefficients, each
    // in {-1, 1}.
    let mut c = vaz256::poly::Poly::default();
    let seed = [3u8; 32];
    assert!(vaz256::poly::challenge(&mut c, &seed));
    let mut nonzero = 0;
    for i in 0..256 {
        let v = c.coeffs[i];
        assert!(v == -1 || v == 0 || v == 1);
        if v != 0 {
            nonzero += 1;
        }
    }
    assert_eq!(nonzero, 60);
}
