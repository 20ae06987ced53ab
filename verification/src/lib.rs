//! A module-lattice digital signature engine with a compact hybrid identity
//! layer: all secret material is derived from a single 32-byte seed, and the
//! public identity is a 32-byte digest of the underlying lattice public key.

pub mod dilithium;
pub mod hex;
pub mod ntt;
pub mod packing;
pub mod params;
pub mod poly;
pub mod polyvec;
pub mod reduce;
pub mod vaz256;
pub mod rounding;
pub mod wipe;
pub mod xof;

pub use vaz256::{
    keygen, sign, verify, PublicKey, SecretKey, Signature, VAZ256Error, VAZ256Result,
    DILITHIUM5_PUBLIC_KEY_SIZE, DILITHIUM5_SIGNATURE_SIZE, PUBLIC_KEY_SIZE, SECRET_KEY_SIZE,
    SIGNATURE_SIZE,
};
