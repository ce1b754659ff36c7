//! SHA-256 digests of exact bytes.
use sha2::{Digest, Sha256};
use vstd::prelude::*;
use crate::text::{hex_lower, hex_string, lemma_hex_lower_len};

verus! {

/// The SHA-256 digest of `data` (32 bytes).
pub uninterp spec fn sha256_of(data: Seq<u8>) -> Seq<u8>;

/// Calls `sha2::Sha256::digest`. Trusted: the result is the SHA-256 digest of `bytes`, and, as the
/// output type of that hash is a 32-byte array, it holds 32 bytes.
#[verifier::external_body]
pub(crate) fn sha256_digest(bytes: &[u8]) -> (out: Vec<u8>)
    ensures
        out@ == sha256_of(bytes@),
        out@.len() == 32,
{
    Sha256::digest(bytes).to_vec()
}

/// Lowercase hexadecimal SHA-256 text of `data`.
pub open spec fn sha256_hex_of(data: Seq<u8>) -> Seq<char> {
    hex_lower(sha256_of(data))
}

/// Lowercase hexadecimal SHA-256 of `bytes`, 64 characters.
pub fn sha256_hex(bytes: &[u8]) -> (s: String)
    ensures
        s@ == sha256_hex_of(bytes@),
        s@.len() == 64,
{
    let digest = sha256_digest(bytes);
    proof {
        lemma_hex_lower_len(digest@);
    }
    hex_string(digest.as_slice())
}

} // verus!
