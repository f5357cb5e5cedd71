//! Digest derivation: the seed string is hashed once, and the resulting
//! bytes are the sole entropy source for color and pattern.

use sha2::{Digest, Sha256};
use vstd::prelude::*;

verus! {

/// The SHA-256 digest of the UTF-8 bytes of a string: a fixed function of
/// the characters alone.
pub uninterp spec fn sha256_of(seed: Seq<char>) -> Seq<u8>;

/// Relies on sha2's `Sha256` through the `Digest` trait: the SHA-256 digest
/// is 32 bytes long and depends on the input bytes alone.
#[verifier::external_body]
pub(crate) fn hash_seed(seed: &str) -> (r: Vec<u8>)
    ensures
        r@ == sha256_of(seed@),
        r@.len() == 32,
{
    let mut hasher = Sha256::new();
    hasher.update(seed.as_bytes());
    hasher.finalize().to_vec()
}

} // verus!
