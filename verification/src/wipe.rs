//! Secure wiping of secret material. The non-elidable zero-overwrite, the
//! capacity release and the memory fence are delegated to an outside
//! secure-wipe capability; the contracts here state only what the wiped
//! value holds afterwards.

use vstd::prelude::*;

use crate::poly::Poly;
use crate::polyvec::{Polyveck, Polyvecl};

verus! {

/// A value that can be securely wiped in place.
pub trait Zeroize {
    /// The value holds no data once wiped.
    spec fn wiped(&self) -> bool;

    /// Securely wipe this value.
    fn zeroize(&mut self)
        ensures
            final(self).wiped(),
    ;
}

/// Relies on zeroize::Zeroize for u8: overwrites with zero, non-elidably.
#[verifier::external_body]
fn wipe_u8(x: &mut u8)
    ensures
        *final(x) == 0,
{
    zeroize::Zeroize::zeroize(x)
}

/// Relies on zeroize::Zeroize for byte arrays: overwrites every element with
/// zero, non-elidably, with a fence after.
#[verifier::external_body]
fn wipe_bytes<const N: usize>(x: &mut [u8; N])
    ensures
        forall|i: int| 0 <= i < N ==> #[trigger] final(x)@[i] == 0,
{
    zeroize::Zeroize::zeroize(x)
}

/// Relies on zeroize::Zeroize for Vec<u8>: zeroes the full buffer and clears
/// the vector, non-elidably, with a fence after.
#[verifier::external_body]
fn wipe_vec(x: &mut Vec<u8>)
    ensures
        final(x)@.len() == 0,
{
    zeroize::Zeroize::zeroize(x)
}

/// Relies on zeroize::Zeroize for String: zeroes the buffer and clears the
/// string, non-elidably, with a fence after.
#[verifier::external_body]
fn wipe_string(x: &mut String)
    ensures
        final(x)@.len() == 0,
{
    zeroize::Zeroize::zeroize(x)
}

/// Relies on zeroize::Zeroize for i32 arrays: overwrites every element with
/// zero, non-elidably, with a fence after.
#[verifier::external_body]
fn wipe_coeffs(x: &mut [i32; 256])
    ensures
        forall|i: int| 0 <= i < 256 ==> #[trigger] final(x)@[i] == 0,
{
    zeroize::Zeroize::zeroize(x)
}

impl Zeroize for u8 {
    open spec fn wiped(&self) -> bool {
        *self == 0
    }

    fn zeroize(&mut self) {
        wipe_u8(self);
    }
}

impl<const N: usize> Zeroize for [u8; N] {
    open spec fn wiped(&self) -> bool {
        forall|i: int| 0 <= i < N ==> #[trigger] self@[i] == 0
    }

    fn zeroize(&mut self) {
        wipe_bytes(self);
    }
}

impl Zeroize for Vec<u8> {
    open spec fn wiped(&self) -> bool {
        self@.len() == 0
    }

    fn zeroize(&mut self) {
        wipe_vec(self);
    }
}

impl Zeroize for String {
    open spec fn wiped(&self) -> bool {
        self@.len() == 0
    }

    fn zeroize(&mut self) {
        wipe_string(self);
    }
}

impl Zeroize for Poly {
    open spec fn wiped(&self) -> bool {
        forall|i: int| 0 <= i < 256 ==> #[trigger] self.coeffs@[i] == 0
    }

    fn zeroize(&mut self) {
        wipe_coeffs(&mut self.coeffs);
    }
}

impl Zeroize for Polyvecl {
    open spec fn wiped(&self) -> bool {
        forall|i: int| 0 <= i < 7 ==> (#[trigger] self.vec@[i]).wiped()
    }

    fn zeroize(&mut self) {
        let mut i: usize = 0;
        while i < 7
            invariant
                0 <= i <= 7,
                forall|j: int| 0 <= j < i ==> (#[trigger] self.vec@[j]).wiped(),
            decreases 7 - i,
        {
            let mut p: Poly = self.vec[i];
            p.zeroize();
            self.vec[i] = p;
            i += 1;
        }
    }
}

impl Zeroize for Polyveck {
    open spec fn wiped(&self) -> bool {
        forall|i: int| 0 <= i < 8 ==> (#[trigger] self.vec@[i]).wiped()
    }

    fn zeroize(&mut self) {
        let mut i: usize = 0;
        while i < 8
            invariant
                0 <= i <= 8,
                forall|j: int| 0 <= j < i ==> (#[trigger] self.vec@[j]).wiped(),
            decreases 8 - i,
        {
            let mut p: Poly = self.vec[i];
            p.zeroize();
            self.vec[i] = p;
            i += 1;
        }
    }
}

} // verus!
