//! Trusted bindings to the SHAKE extendable-output functions.
//!
//! The outputs are named byte by byte: shake128_byte(input, i) is the i-th
//! output byte of SHAKE128 for the absorbed input, a fixed function of its
//! arguments on every machine, and likewise for SHAKE256. A squeeze of any
//! length is then the corresponding prefix of that byte sequence, so the
//! extendable-output property needs no further assumption.

use vstd::prelude::*;

use sha3::digest::{ExtendableOutput, Update, XofReader};

verus! {

/// Byte i of the SHAKE128 output for the given absorbed input.
pub uninterp spec fn shake128_byte(input: Seq<u8>, i: int) -> u8;

/// Byte i of the SHAKE256 output for the given absorbed input.
pub uninterp spec fn shake256_byte(input: Seq<u8>, i: int) -> u8;

/// The first n bytes of the SHAKE128 output for the given absorbed input.
pub open spec fn shake128_prefix(input: Seq<u8>, n: int) -> Seq<u8> {
    Seq::new(n as nat, |i: int| shake128_byte(input, i))
}

/// The first n bytes of the SHAKE256 output for the given absorbed input.
pub open spec fn shake256_prefix(input: Seq<u8>, n: int) -> Seq<u8> {
    Seq::new(n as nat, |i: int| shake256_byte(input, i))
}

/// Relies on sha3::Shake128 through the digest traits: absorbing input and
/// squeezing 168 * nblocks bytes yields exactly that prefix of the output
/// byte sequence, which depends on the input alone.
#[verifier::external_body]
pub(crate) fn shake128_blocks(input: &[u8], nblocks: usize) -> (r: Vec<u8>)
    requires
        nblocks <= 4096,
    ensures
        r@.len() == 168 * nblocks,
        forall|i: int|
            0 <= i < 168 * (nblocks as int) ==> #[trigger] r@[i] == shake128_byte(input@, i),
        r@ == shake128_prefix(input@, 168 * (nblocks as int)),
{
    let mut h = sha3::Shake128::default();
    h.update(input);
    let mut out = vec![0u8; 168 * nblocks];
    h.finalize_xof().read(&mut out);
    out
}

/// Relies on sha3::Shake256 through the digest traits: absorbing input and
/// squeezing 136 * nblocks bytes yields exactly that prefix of the output
/// byte sequence, which depends on the input alone.
#[verifier::external_body]
pub(crate) fn shake256_blocks(input: &[u8], nblocks: usize) -> (r: Vec<u8>)
    requires
        nblocks <= 4096,
    ensures
        r@.len() == 136 * nblocks,
        forall|i: int|
            0 <= i < 136 * (nblocks as int) ==> #[trigger] r@[i] == shake256_byte(input@, i),
        r@ == shake256_prefix(input@, 136 * (nblocks as int)),
{
    let mut h = sha3::Shake256::default();
    h.update(input);
    let mut out = vec![0u8; 136 * nblocks];
    h.finalize_xof().read(&mut out);
    out
}

/// SHAKE256 output truncated to outlen bytes, for outlen up to one block.
pub fn shake256_digest(input: &[u8], outlen: usize) -> (r: Vec<u8>)
    requires
        outlen <= 136,
    ensures
        r@ == shake256_prefix(input@, outlen as int),
        r@.len() == outlen,
{
    let block = shake256_blocks(input, 1);
    let mut out: Vec<u8> = Vec::new();
    let mut i: usize = 0;
    while i < outlen
        invariant
            outlen <= 136,
            block@.len() == 136,
            block@ == shake256_prefix(input@, 136),
            out@.len() == i,
            0 <= i <= outlen,
            forall|j: int| 0 <= j < i ==> out@[j] == block@[j],
        decreases outlen - i,
    {
        out.push(block[i]);
        i += 1;
    }
    proof {
        assert(out@ =~= shake256_prefix(input@, outlen as int));
    }
    out
}

} // verus!
