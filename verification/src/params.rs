//! Parameter constants of the fixed lattice parameter set.
//!
//! The packing formats and buffer sizes elsewhere in the crate are algebraically
//! derived from these exact values; they are deliberately not configurable.

use vstd::prelude::*;

verus! {

/// Prime modulus of the working ring: 2^23 - 2^13 + 1.
pub const Q: i32 = 8380417;

/// Number of coefficients of a ring polynomial.
pub const N: usize = 256;

/// Number of low-order bits dropped from public-key coefficients.
pub const D: i32 = 13;

/// Length in bytes of the seeds rho, key and tr.
pub const SEEDBYTES: usize = 32;

/// Length in bytes of the message digest mu and the expanded seed rhoprime.
pub const CRHBYTES: usize = 64;

/// Number of nonzero coefficients of a challenge polynomial.
pub const TAU: usize = 60;

/// Range bound of the masking vector coefficients: 2^19.
pub const GAMMA1: i32 = 524288;

/// Low-order rounding range: (Q - 1) / 32.
pub const GAMMA2: i32 = 261888;

/// Number of rows of the public matrix (tall vector length).
pub const K: usize = 8;

/// Number of columns of the public matrix (short vector length).
pub const L: usize = 7;

/// Range bound of the secret vector coefficients.
pub const ETA: i32 = 2;

/// Rejection bound offset: TAU * ETA.
pub const BETA: i32 = 120;

/// Maximum total weight of the hint vector.
pub const OMEGA: usize = 75;

/// Packed size of a polynomial with 10-bit coefficients (t1).
pub const POLYT1_PACKEDBYTES: usize = 320;

/// Packed size of a polynomial with 13-bit biased coefficients (t0).
pub const POLYT0_PACKEDBYTES: usize = 416;

/// Packed size of a polynomial with 3-bit biased coefficients (eta).
pub const POLYETA_PACKEDBYTES: usize = 96;

/// Packed size of a polynomial with 20-bit biased coefficients (z).
pub const POLYZ_PACKEDBYTES: usize = 640;

/// Packed size of a polynomial with 4-bit coefficients (w1).
pub const POLYW1_PACKEDBYTES: usize = 128;

/// Packed size of the compressed hint table: OMEGA + K.
pub const POLYVECH_PACKEDBYTES: usize = 83;

/// Packed size of a lattice public key: SEEDBYTES + K * POLYT1_PACKEDBYTES.
pub const PUBLICKEYBYTES: usize = 2592;

/// Packed size of a lattice secret key:
/// 3 * SEEDBYTES + (K + L) * POLYETA_PACKEDBYTES + K * POLYT0_PACKEDBYTES.
pub const SECRETKEYBYTES: usize = 4864;

/// Packed size of a lattice signature:
/// SEEDBYTES + L * POLYZ_PACKEDBYTES + POLYVECH_PACKEDBYTES.
pub const SIGNBYTES: usize = 4595;

/// x and y are congruent modulo Q.
pub open spec fn congq(x: int, y: int) -> bool {
    (x - y) % (Q as int) == 0
}

} // verus!
