//! The hybrid identity layer: a 32-byte master secret deterministically
//! regenerates the full lattice keypair on demand; the public identity is a
//! 32-byte digest of the lattice public key; a signature bundles the lattice
//! signature with the lattice public key it certifies.

use vstd::prelude::*;
use vstd::string::*;

use crate::dilithium::{
    keypair_derived, keypair_from_seed, sign_derived, sign_message, verify_accepts,
    verify_message,
};
use crate::hex::{all_hex, hex_bytes, unhex_bytes};
use crate::packing::hint_region_valid;
use crate::wipe::Zeroize;
use crate::xof::{shake256_digest, shake256_prefix};

verus! {

/// Length in bytes of the master secret.
pub const SECRET_KEY_SIZE: usize = 32;

/// Length in bytes of the compact public identity.
pub const PUBLIC_KEY_SIZE: usize = 32;

/// Length in bytes of a packed lattice signature.
pub const DILITHIUM5_SIGNATURE_SIZE: usize = 4595;

/// Length in bytes of a packed lattice public key.
pub const DILITHIUM5_PUBLIC_KEY_SIZE: usize = 2592;

/// Length in bytes of a bundled signature:
/// DILITHIUM5_SIGNATURE_SIZE + DILITHIUM5_PUBLIC_KEY_SIZE.
pub const SIGNATURE_SIZE: usize = 7187;

/// Possible errors of the hybrid operations.
#[derive(Debug, PartialEq, Eq)]
pub enum VAZ256Error {
    KeyGenerationFailed,
    SigningFailed,
    VerificationFailed,
    PublicKeyMismatch,
    DeserializationError,
    InvalidLength,
    HexDecodingError,
}

/// Result type of the hybrid operations.
pub type VAZ256Result<T> = Result<T, VAZ256Error>;

/// Relies on rand::rngs::OsRng through RngCore::try_fill_bytes: fills the
/// buffer with operating-system entropy, or reports failure; nothing is
/// promised of the values drawn.
#[verifier::external_body]
fn os_random_bytes(buf: &mut [u8; 32]) -> (ok: bool)
    ensures
        final(buf)@.len() == 32,
{
    match rand::RngCore::try_fill_bytes(&mut rand::rngs::OsRng, buf) {
        Ok(()) => true,
        Err(_) => false,
    }
}

/// The master secret: an opaque 32-byte seed that regenerates the full
/// lattice keypair on demand. The expanded key material derived from it is
/// wiped on every exit path of the operations that use it; a holder of a
/// SecretKey value is responsible for wiping the seed itself (through
/// Zeroize on its bytes) when discarding it, since a wipe-on-drop
/// destructor cannot carry a contract here.
#[derive(Clone)]
pub struct SecretKey([u8; 32]);

impl View for SecretKey {
    type V = Seq<u8>;

    closed spec fn view(&self) -> Seq<u8> {
        self.0@
    }
}

impl SecretKey {
    /// Wraps raw bytes as a secret key.
    pub fn new(secret: [u8; 32]) -> (r: Self)
        ensures
            r@ == secret@,
    {
        SecretKey(secret)
    }

    /// The underlying bytes.
    pub fn as_bytes(&self) -> (r: &[u8; 32])
        ensures
            r@ == self@,
    {
        &self.0
    }

    /// The lowercase hex spelling of the secret key.
    pub fn to_hex(&self) -> (r: String)
        ensures
            r@.len() == 64,
            forall|i: int|
                0 <= i < r@.len() ==> (#[trigger] r@[i]) as u32 == hex_bytes(self@)[i] as u32,
    {
        crate::hex::encode(&self.0)
    }

    /// Parses a secret key from hex: exactly 64 hex characters.
    pub fn from_hex(hex_str: &str) -> (r: VAZ256Result<Self>)
        ensures
            hex_str.spec_bytes().len() % 2 != 0 || !all_hex(hex_str.spec_bytes()) ==> r
                == Err::<SecretKey, VAZ256Error>(VAZ256Error::HexDecodingError),
            hex_str.spec_bytes().len() % 2 == 0 && all_hex(hex_str.spec_bytes())
                && hex_str.spec_bytes().len() != 64 ==> r == Err::<SecretKey, VAZ256Error>(
                VAZ256Error::InvalidLength,
            ),
            hex_str.spec_bytes().len() == 64 && all_hex(hex_str.spec_bytes()) ==> (match r {
                Ok(sk) => sk@ == unhex_bytes(hex_str.spec_bytes()),
                Err(_) => false,
            }),
    {
        let decoded = match crate::hex::decode(hex_str) {
            Ok(v) => v,
            Err(_) => {
                return Err(VAZ256Error::HexDecodingError);
            },
        };
        if decoded.len() != 32 {
            return Err(VAZ256Error::InvalidLength);
        }
        let mut secret = [0u8; 32];
        let mut i: usize = 0;
        while i < 32
            invariant
                decoded@.len() == 32,
                0 <= i <= 32,
                forall|j: int| 0 <= j < i ==> #[trigger] secret@[j] == decoded@[j],
            decreases 32 - i,
        {
            secret[i] = decoded[i];
            i += 1;
        }
        proof {
            assert(secret@ =~= decoded@);
        }
        Ok(SecretKey(secret))
    }
}

/// The compact public identity: a 32-byte digest of the lattice public key.
#[derive(Clone, Debug, PartialEq, Eq)]
pub struct PublicKey {
    key: [u8; 32],
}

impl View for PublicKey {
    type V = Seq<u8>;

    closed spec fn view(&self) -> Seq<u8> {
        self.key@
    }
}

impl PublicKey {
    /// A public identity always holds exactly 32 bytes.
    pub proof fn lemma_view_len(&self)
        ensures
            self@.len() == 32,
    {
    }

    /// The lowercase hex spelling of the public identity.
    pub fn to_hex(&self) -> (r: String)
        ensures
            r@.len() == 64,
            forall|i: int|
                0 <= i < r@.len() ==> (#[trigger] r@[i]) as u32 == hex_bytes(self@)[i] as u32,
    {
        crate::hex::encode(&self.key)
    }

    /// Parses a public identity from hex: exactly 64 hex characters.
    pub fn from_hex(hex_str: &str) -> (r: VAZ256Result<Self>)
        ensures
            hex_str.spec_bytes().len() % 2 != 0 || !all_hex(hex_str.spec_bytes()) ==> r
                == Err::<PublicKey, VAZ256Error>(VAZ256Error::HexDecodingError),
            hex_str.spec_bytes().len() % 2 == 0 && all_hex(hex_str.spec_bytes())
                && hex_str.spec_bytes().len() != 64 ==> r == Err::<PublicKey, VAZ256Error>(
                VAZ256Error::InvalidLength,
            ),
            hex_str.spec_bytes().len() == 64 && all_hex(hex_str.spec_bytes()) ==> (match r {
                Ok(pk) => pk@ == unhex_bytes(hex_str.spec_bytes()),
                Err(_) => false,
            }),
    {
        let decoded = match crate::hex::decode(hex_str) {
            Ok(v) => v,
            Err(_) => {
                return Err(VAZ256Error::HexDecodingError);
            },
        };
        if decoded.len() != 32 {
            return Err(VAZ256Error::InvalidLength);
        }
        let mut key = [0u8; 32];
        let mut i: usize = 0;
        while i < 32
            invariant
                decoded@.len() == 32,
                0 <= i <= 32,
                forall|j: int| 0 <= j < i ==> #[trigger] key@[j] == decoded@[j],
            decreases 32 - i,
        {
            key[i] = decoded[i];
            i += 1;
        }
        proof {
            assert(key@ =~= decoded@);
        }
        Ok(PublicKey { key })
    }
}

/// A bundled signature: the lattice signature together with the lattice
/// public key it certifies.
pub struct Signature {
    dilithium_signature: Vec<u8>,
    dilithium_public_key: Vec<u8>,
}

impl Signature {
    /// Well-formedness: both parts have their packed sizes.
    pub closed spec fn wf(&self) -> bool {
        self.dilithium_signature@.len() == 4595 && self.dilithium_public_key@.len() == 2592
    }

    /// The lattice signature bytes of the bundle.
    pub closed spec fn sig_bytes(&self) -> Seq<u8> {
        self.dilithium_signature@
    }

    /// The lattice public-key bytes of the bundle.
    pub closed spec fn pk_bytes(&self) -> Seq<u8> {
        self.dilithium_public_key@
    }

    /// The wire form: lattice signature bytes then lattice public-key bytes.
    pub fn to_bytes(&self) -> (r: Vec<u8>)
        requires
            self.wf(),
        ensures
            r@ == self.sig_bytes() + self.pk_bytes(),
            r@.len() == 7187,
    {
        let mut bytes: Vec<u8> = Vec::new();
        bytes.extend_from_slice(self.dilithium_signature.as_slice());
        bytes.extend_from_slice(self.dilithium_public_key.as_slice());
        proof {
            assert(bytes@ =~= self.sig_bytes() + self.pk_bytes());
        }
        bytes
    }

    /// The lowercase hex spelling of the wire form.
    pub fn to_hex(&self) -> (r: String)
        requires
            self.wf(),
        ensures
            r@.len() == 14374,
            forall|i: int|
                0 <= i < r@.len() ==> (#[trigger] r@[i]) as u32 == hex_bytes(
                    self.sig_bytes() + self.pk_bytes(),
                )[i] as u32,
    {
        let bytes = self.to_bytes();
        crate::hex::encode(bytes.as_slice())
    }

    /// Parses a bundle from its wire form: exactly SIGNATURE_SIZE bytes,
    /// split into the lattice signature and the lattice public key.
    pub fn from_bytes(bytes: &[u8]) -> (r: VAZ256Result<Self>)
        ensures
            bytes@.len() != 7187 ==> r == Err::<Signature, VAZ256Error>(VAZ256Error::InvalidLength),
            bytes@.len() == 7187 ==> (match r {
                Ok(s) => s.wf() && s.sig_bytes() == bytes@.subrange(0, 4595) && s.pk_bytes()
                    == bytes@.subrange(4595, 7187),
                Err(_) => false,
            }),
    {
        if bytes.len() != 7187 {
            return Err(VAZ256Error::InvalidLength);
        }
        let sig = vstd::slice::slice_to_vec(vstd::slice::slice_subrange(bytes, 0, 4595));
        let pk = vstd::slice::slice_to_vec(vstd::slice::slice_subrange(bytes, 4595, 7187));
        Ok(Signature { dilithium_signature: sig, dilithium_public_key: pk })
    }

    /// Parses a bundle from hex: the hex spelling of the wire form.
    pub fn from_hex(hex_str: &str) -> (r: VAZ256Result<Self>)
        ensures
            hex_str.spec_bytes().len() % 2 != 0 || !all_hex(hex_str.spec_bytes()) ==> r
                == Err::<Signature, VAZ256Error>(VAZ256Error::HexDecodingError),
            hex_str.spec_bytes().len() % 2 == 0 && all_hex(hex_str.spec_bytes())
                && hex_str.spec_bytes().len() != 14374 ==> r == Err::<Signature, VAZ256Error>(
                VAZ256Error::InvalidLength,
            ),
            hex_str.spec_bytes().len() == 14374 && all_hex(hex_str.spec_bytes()) ==> (match r {
                Ok(s) => s.wf() && s.sig_bytes() + s.pk_bytes() == unhex_bytes(
                    hex_str.spec_bytes(),
                ),
                Err(_) => false,
            }),
    {
        let decoded = match crate::hex::decode(hex_str) {
            Ok(v) => v,
            Err(_) => {
                return Err(VAZ256Error::HexDecodingError);
            },
        };
        let r = Self::from_bytes(decoded.as_slice());
        proof {
            if hex_str.spec_bytes().len() == 14374 && all_hex(hex_str.spec_bytes()) {
                match r {
                    Ok(ref s) => {
                        assert(s.sig_bytes() + s.pk_bytes() =~= decoded@);
                    },
                    Err(_) => {},
                }
            }
        }
        r
    }
}


/// Round-trip law of the wire form: the bytes of a bundle determine both
/// parts, so serializing and parsing are inverse.
pub proof fn lemma_signature_bytes_round_trip(s: Signature, b: Seq<u8>, s2: Signature)
    requires
        s.wf(),
        b == s.sig_bytes() + s.pk_bytes(),
        s2.sig_bytes() == b.subrange(0, 4595),
        s2.pk_bytes() == b.subrange(4595, 7187),
    ensures
        s2.sig_bytes() == s.sig_bytes(),
        s2.pk_bytes() == s.pk_bytes(),
{
    assert(s2.sig_bytes() =~= s.sig_bytes());
    assert(s2.pk_bytes() =~= s.pk_bytes());
}

/// The public identity pk is bound to the master secret sk: some derived
/// lattice keypair exists for sk whose packed public key digests to pk.
pub open spec fn identity_bound(sk: Seq<u8>, pk: Seq<u8>) -> bool {
    exists|pkb: Seq<u8>, skb: Seq<u8>|
        #[trigger] keypair_derived(sk, pkb, skb) && pk == shake256_prefix(pkb, 32)
}

/// Generates a new keypair: draws a 32-byte master secret from the operating
/// system, derives the lattice keypair from it, and hashes the lattice
/// public key into the compact identity. Fails only with
/// KeyGenerationFailed: when the entropy source fails, or when a sampler's
/// rejection fuel runs out (never observed in practice).
pub fn keygen() -> (r: VAZ256Result<(SecretKey, PublicKey)>)
    ensures
        (match r {
            Ok(p) => identity_bound(p.0@, p.1@),
            Err(e) => e == VAZ256Error::KeyGenerationFailed,
        }),
{
    let mut secret = [0u8; 32];
    if !os_random_bytes(&mut secret) {
        return Err(VAZ256Error::KeyGenerationFailed);
    }
    let pair = match keypair_from_seed(&secret) {
        Some(p) => p,
        None => {
            secret.zeroize();
            return Err(VAZ256Error::KeyGenerationFailed);
        },
    };
    let (pk_bytes, mut sk_bytes) = pair;
    let ghost gskb = sk_bytes@;
    let digest = shake256_digest(pk_bytes.as_slice(), 32);
    let mut key = [0u8; 32];
    let mut i: usize = 0;
    while i < 32
        invariant
            digest@.len() == 32,
            0 <= i <= 32,
            forall|j: int| 0 <= j < i ==> #[trigger] key@[j] == digest@[j],
        decreases 32 - i,
    {
        key[i] = digest[i];
        i += 1;
    }
    sk_bytes.zeroize();
    let sk_ret = SecretKey(secret);
    let pk_ret = PublicKey { key };
    proof {
        assert(key@ =~= shake256_prefix(pk_bytes@, 32));
        assert(keypair_derived(sk_ret@, pk_bytes@, gskb));
        assert(identity_bound(sk_ret@, pk_ret@));
    }
    Ok((sk_ret, pk_ret))
}

/// Signs a message: re-derives the full lattice keypair from the master
/// secret (nothing but the seed persists), signs with the lattice engine,
/// and bundles the lattice signature with the lattice public key.
pub fn sign(message: &[u8], vaz256_sk: &SecretKey) -> (r: VAZ256Result<Signature>)
    ensures
        (match r {
            Ok(s) => s.wf() && hint_region_valid(s.sig_bytes()) && (exists|skb: Seq<u8>|
                #[trigger] keypair_derived(vaz256_sk@, s.pk_bytes(), skb) && sign_derived(
                    skb,
                    message@,
                    s.sig_bytes(),
                )),
            Err(e) => e == VAZ256Error::SigningFailed,
        }),
{
    let pair = match keypair_from_seed(vaz256_sk.as_bytes()) {
        Some(p) => p,
        None => {
            return Err(VAZ256Error::SigningFailed);
        },
    };
    let (pk_bytes, mut sk_bytes) = pair;
    let ghost gskb = sk_bytes@;
    let sig = match sign_message(&sk_bytes, message) {
        Some(s) => s,
        None => {
            sk_bytes.zeroize();
            return Err(VAZ256Error::SigningFailed);
        },
    };
    sk_bytes.zeroize();
    let ret = Signature { dilithium_signature: sig, dilithium_public_key: pk_bytes };
    proof {
        assert(keypair_derived(vaz256_sk@, ret.pk_bytes(), gskb));
        assert(sign_derived(gskb, message@, ret.sig_bytes()));
        assert(exists|skb: Seq<u8>|
            #[trigger] keypair_derived(vaz256_sk@, ret.pk_bytes(), skb) && sign_derived(
                skb,
                message@,
                ret.sig_bytes(),
            ));
    }
    Ok(ret)
}

/// Verifies a bundled signature against a message and a compact identity:
/// the digest of the embedded lattice public key must match the identity
/// (reported as PublicKeyMismatch otherwise), and only then does lattice
/// verification run (reported as VerificationFailed when it rejects). A
/// signature whose hint table is malformed is never accepted.
pub fn verify(message: &[u8], signature: &Signature, public_key: &PublicKey) -> (r: VAZ256Result<
    (),
>)
    requires
        signature.wf(),
    ensures
        shake256_prefix(signature.pk_bytes(), 32) != public_key@ <==> r == Err::<
            (),
            VAZ256Error,
        >(VAZ256Error::PublicKeyMismatch),
        r == Ok::<(), VAZ256Error>(()) ==> hint_region_valid(signature.sig_bytes()),
        r == Ok::<(), VAZ256Error>(()) ==> verify_accepts(
            signature.pk_bytes(),
            message@,
            signature.sig_bytes(),
        ),
        r == Ok::<(), VAZ256Error>(()) || r == Err::<(), VAZ256Error>(
            VAZ256Error::PublicKeyMismatch,
        ) || r == Err::<(), VAZ256Error>(VAZ256Error::VerificationFailed),
{
    let pk_hash = shake256_digest(signature.dilithium_public_key.as_slice(), 32);
    let mut same: bool = true;
    let mut i: usize = 0;
    while i < 32
        invariant
            pk_hash@.len() == 32,
            0 <= i <= 32,
            same == (forall|j: int|
                0 <= j < i ==> #[trigger] pk_hash@[j] == public_key@[j]),
        decreases 32 - i,
    {
        let kb: u8 = public_key.key[i];
        if pk_hash[i] != kb {
            proof {
                assert(pk_hash@[i as int] != public_key@[i as int]);
            }
            same = false;
        }
        i += 1;
    }
    if !same {
        proof {
            assert(pk_hash@ != public_key@);
        }
        return Err(VAZ256Error::PublicKeyMismatch);
    }
    proof {
        assert(pk_hash@ =~= public_key@);
    }
    if !verify_message(&signature.dilithium_public_key, message, &signature.dilithium_signature) {
        return Err(VAZ256Error::VerificationFailed);
    }
    Ok(())
}

} // verus!
