//! Hash functions from outside crates: BLAKE3 and SHA-256.
//!
//! Their outputs are named, not modelled: every proof about a hash in this
//! crate rests only on the hash being a function of its input bytes.

use vstd::prelude::*;

use sha2::Digest;

verus! {

/// The 32-byte BLAKE3 digest of a byte string.
pub uninterp spec fn blake3_digest(data: Seq<u8>) -> Seq<u8>;

/// The 32-byte SHA-256 digest of a byte string.
pub uninterp spec fn sha256_digest(data: Seq<u8>) -> Seq<u8>;

/// Calls `blake3::hash`; the contract claims only that the 32 bytes it
/// returns are the BLAKE3 digest of `data`, a function of `data` alone.
#[verifier::external_body]
pub fn blake3_hash(data: &[u8]) -> (r: [u8; 32])
    ensures
        r@ == blake3_digest(data@),
{
    *blake3::hash(data).as_bytes()
}

/// Calls `sha2::Sha256::digest`; the contract claims only that the 32 bytes
/// it returns are the SHA-256 digest of `data`, a function of `data` alone.
#[verifier::external_body]
pub fn sha256_hash(data: &[u8]) -> (r: [u8; 32])
    ensures
        r@ == sha256_digest(data@),
{
    sha2::Sha256::digest(data).into()
}

} // verus!
