use vaz256::{keygen, sign, verify, PublicKey, SecretKey, Signature, VAZ256Error};

#[test]
fn test_keygen_sign_verify() {
    let (sk, pk) = keygen().unwrap();
    let message = b"test message";

    let signature = sign(message, &sk).unwrap();
    assert!(verify(message, &signature, &pk).is_ok());
}

#[test]
fn test_hex_conversion() {
    let (sk, pk) = keygen().unwrap();
    let message = b"test message";
    let signature = sign(message, &sk).unwrap();

    // Test SecretKey hex conversion
    let sk_hex = sk.to_hex();
    let sk_recovered = SecretKey::from_hex(&sk_hex).unwrap();
    assert_eq!(sk.as_bytes(), sk_recovered.as_bytes());

    // Test PublicKey hex conversion
    let pk_hex = pk.to_hex();
    let pk_recovered = PublicKey::from_hex(&pk_hex).unwrap();
    assert_eq!(pk, pk_recovered);

    // Test Signature hex conversion
    let sig_hex = signature.to_hex();
    let sig_recovered = Signature::from_hex(&sig_hex).unwrap();
    assert!(verify(message, &sig_recovered, &pk).is_ok());
}

#[test]
fn test_wrong_message() {
    let (sk, pk) = keygen().unwrap();

    let signature = sign(b"original", &sk).unwrap();
    assert!(verify(b"modified", &signature, &pk).is_err());
}

#[test]
fn test_wrong_message_is_verification_failure() {
    // A signature over another message fails the verification equation, not
    // the identity binding.
    let seed = "11".repeat(32);
    let sk = SecretKey::from_hex(&seed).unwrap();
    let signature = sign(b"original", &sk).unwrap();
    let pk = public_key_of(&sk);
    assert_eq!(
        verify(b"modified", &signature, &pk).unwrap_err(),
        VAZ256Error::VerificationFailed
    );
}

#[test]
fn test_public_key_mismatch_is_distinct() {
    // A signature checked against another identity is reported as a key
    // mismatch, before any lattice verification runs.
    let sk_a = SecretKey::from_hex(&"22".repeat(32)).unwrap();
    let sk_b = SecretKey::from_hex(&"33".repeat(32)).unwrap();
    let signature = sign(b"hello", &sk_a).unwrap();
    let pk_b = public_key_of(&sk_b);
    assert_eq!(
        verify(b"hello", &signature, &pk_b).unwrap_err(),
        VAZ256Error::PublicKeyMismatch
    );
}

#[test]
fn test_secret_key_hex_errors() {
    assert!(matches!(
        SecretKey::from_hex("abc"),
        Err(VAZ256Error::HexDecodingError)
    ));
    assert!(matches!(
        SecretKey::from_hex("zz"),
        Err(VAZ256Error::HexDecodingError)
    ));
    assert!(matches!(
        SecretKey::from_hex("abcd"),
        Err(VAZ256Error::InvalidLength)
    ));
    assert!(matches!(
        PublicKey::from_hex("1234"),
        Err(VAZ256Error::InvalidLength)
    ));
    assert!(matches!(
        Signature::from_bytes(&[0u8; 10]),
        Err(VAZ256Error::InvalidLength)
    ));
}

#[test]
fn test_signature_bytes_roundtrip() {
    let sk = SecretKey::from_hex(&"44".repeat(32)).unwrap();
    let pk = public_key_of(&sk);
    let signature = sign(b"round trip", &sk).unwrap();
    let bytes = signature.to_bytes();
    assert_eq!(bytes.len(), 7187);
    let recovered = Signature::from_bytes(&bytes).unwrap();
    assert!(verify(b"round trip", &recovered, &pk).is_ok());
    assert_eq!(recovered.to_bytes(), bytes);
}

/// The compact identity belonging to a master secret, recovered through a
/// self-signature (the bundle embeds the lattice public key).
fn public_key_of(sk: &SecretKey) -> PublicKey {
    let probe = sign(b"probe", sk).unwrap();
    let bytes = probe.to_bytes();
    let pk_bytes = &bytes[4595..];
    let digest = vaz256::xof::shake256_digest(pk_bytes, 32);
    let mut hex = String::new();
    for b in digest {
        hex.push_str(&format!("{:02x}", b));
    }
    PublicKey::from_hex(&hex).unwrap()
}
