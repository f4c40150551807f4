//! The two 256-bit hash primitives and the 512-bit hash that the key
//! derivation rests on. The digests themselves are outside work; each is
//! named by an uninterpreted spec function so that every caller's contract
//! can be exact about which bytes were hashed.

use sha2::Digest;
use sha3::Digest as KeccakDigest;
use vstd::prelude::*;

verus! {

/// The 32-byte SHA-256 digest of a byte sequence.
pub uninterp spec fn sha256_of(data: Seq<u8>) -> Seq<u8>;

/// The 64-byte SHA-512 digest of a byte sequence.
pub uninterp spec fn sha512_of(data: Seq<u8>) -> Seq<u8>;

/// The 32-byte Keccak-256 digest of a byte sequence (the original Keccak
/// padding, distinct from the later-standardized SHA3-256).
pub uninterp spec fn keccak256_of(data: Seq<u8>) -> Seq<u8>;

/// Relies on sha2::Sha256: the standard SHA-256 digest, a function of the
/// input bytes alone, 32 bytes long.
#[verifier::external_body]
pub fn sha256(data: &[u8]) -> (r: [u8; 32])
    ensures
        r@ == sha256_of(data@),
        r@.len() == 32,
{
    let mut hasher = sha2::Sha256::new();
    hasher.update(data);
    hasher.finalize().into()
}

/// Relies on sha2::Sha512: the standard SHA-512 digest, a function of the
/// input bytes alone, 64 bytes long.
#[verifier::external_body]
pub fn sha512(data: &[u8]) -> (r: [u8; 64])
    ensures
        r@ == sha512_of(data@),
        r@.len() == 64,
{
    let mut hasher = sha2::Sha512::new();
    hasher.update(data);
    hasher.finalize().into()
}

/// Relies on sha3::Keccak256: the original Keccak-256 digest, a function of
/// the input bytes alone, 32 bytes long.
#[verifier::external_body]
pub fn keccak256(data: &[u8]) -> (r: [u8; 32])
    ensures
        r@ == keccak256_of(data@),
        r@.len() == 32,
{
    let mut hasher = sha3::Keccak256::new();
    hasher.update(data);
    hasher.finalize().into()
}

} // verus!
