//! Digests.

use crate::types::Digest;
use vstd::prelude::*;

verus! {

/// The most bytes that are digested at once: one mebibyte.
pub const MAX_DIGESTED: usize = 0x10_0000;

/// The SHA-256 digest of `data`, as two big-endian halves.
pub uninterp spec fn sha256_of(data: Seq<u8>) -> (u128, u128);

/// Calls `soroban_sdk::crypto::Crypto::sha256` of a default `Env`. The
/// contract claims that the digest depends on the bytes alone. The host
/// meters its work and stops a call that costs too much; a mebibyte stays
/// within its limits.
#[verifier::external_body]
fn sha256_halves(data: &Vec<u8>) -> (halves: (u128, u128))
    requires
        data.len() <= MAX_DIGESTED,
    ensures
        halves == sha256_of(data@),
{
    let env = soroban_sdk::Env::default();
    let bytes = soroban_sdk::Bytes::from_slice(&env, data.as_slice());
    let digest = env.crypto().sha256(&bytes).to_array();
    let mut hi = [0u8; 16];
    let mut lo = [0u8; 16];
    hi.copy_from_slice(&digest[..16]);
    lo.copy_from_slice(&digest[16..]);
    (u128::from_be_bytes(hi), u128::from_be_bytes(lo))
}

/// The SHA-256 digest of `data`.
pub open spec fn digest_of(data: Seq<u8>) -> Digest {
    Digest { hi: sha256_of(data).0, lo: sha256_of(data).1 }
}

/// The SHA-256 digest of `data`.
pub fn sha256(data: &Vec<u8>) -> (digest: Digest)
    requires
        data.len() <= MAX_DIGESTED,
    ensures
        digest == digest_of(data@),
{
    let halves: (u128, u128) = sha256_halves(data);
    Digest { hi: halves.0, lo: halves.1 }
}

} // verus!
