//! Cryptographic and encoding primitives the bucket relies on. The results
//! are given names (`sha256_of`, `base64_nopad_of`): each is a pure function
//! of its input, computed by an outside crate, and the contracts of the rest
//! of the library speak of these names exactly.

use base64::Engine;
use sha2::Digest;
use vstd::prelude::*;

verus! {

/// The SHA-256 digest (32 bytes) of `data`.
pub uninterp spec fn sha256_of(data: Seq<u8>) -> Seq<u8>;

/// Relies on `sha2::Sha256::digest`: the digest is 32 bytes and depends on
/// the input bytes alone.
#[verifier::external_body]
pub fn sha256(data: &[u8]) -> (r: [u8; 32])
    ensures
        r@ == sha256_of(data@),
{
    let digest = sha2::Sha256::digest(data);
    let mut out = [0u8; 32];
    out.copy_from_slice(&digest);
    out
}

/// The standard-alphabet, unpadded base64 rendering of `data`.
pub uninterp spec fn base64_nopad_of(data: Seq<u8>) -> Seq<char>;

/// Relies on `base64::engine::general_purpose::STANDARD_NO_PAD.encode`: the
/// rendering depends on the input bytes alone, and an empty input encodes to
/// the empty string.
#[verifier::external_body]
pub fn base64_nopad(data: &[u8]) -> (r: String)
    ensures
        r@ == base64_nopad_of(data@),
        data@.len() == 0 ==> r@.len() == 0,
{
    base64::engine::general_purpose::STANDARD_NO_PAD.encode(data)
}

} // verus!
