//! Fingerprints of raw request buffers.

use sha2::{Digest, Sha256};
use vstd::prelude::*;

verus! {

/// The SHA-256 digest of `bytes`.
pub uninterp spec fn sha256_digest(bytes: Seq<u8>) -> Seq<u8>;

/// Calls `sha2::Sha256::digest` and copies the digest into a vector. The
/// digest is the one that the name `sha256_digest` stands for; it is 32
/// bytes long, the output size that `sha2` declares for `Sha256`.
#[verifier::external_body]
fn sha256(bytes: &[u8]) -> (digest: Vec<u8>)
    ensures
        digest@ == sha256_digest(bytes@),
        digest@.len() == 32,
{
    Sha256::digest(bytes).to_vec()
}

/// The fingerprint of a raw request buffer: the SHA-256 digest of all of its
/// bytes, padding included.
pub fn fingerprint(buffer: &[u8]) -> (digest: Vec<u8>)
    ensures
        digest@ == sha256_digest(buffer@),
        digest@.len() == 32,
{
    sha256(buffer)
}

} // verus!
