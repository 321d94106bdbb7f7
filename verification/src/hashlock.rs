//! Hashlock derivation: the 64-character lowercase-hex SHA-256 digest of a
//! secret commits to it; revealing a preimage authorizes a claim.

use vstd::prelude::*;
use sha2::Digest;

verus! {

/// The lowercase-hex SHA-256 digest of a character sequence's UTF-8 bytes.
/// The digest depends on the input alone.
pub uninterp spec fn digest_of(secret: Seq<char>) -> Seq<char>;

/// Relies on sha2::Sha256 and hex::encode: the SHA-256 digest of the
/// secret's bytes, hex-encoded as two digits per byte, hence 64 characters,
/// a function of the input alone.
#[verifier::external_body]
pub(crate) fn sha256_hex(secret: &str) -> (digest: String)
    ensures
        digest@ == digest_of(secret@),
        digest@.len() == 64,
{
    let mut hasher = sha2::Sha256::new();
    hasher.update(secret.as_bytes());
    hex::encode(hasher.finalize())
}

/// The hashlock committing to `secret`.
pub fn generate_hashlock(secret: &str) -> (hashlock: String)
    ensures
        hashlock@ == digest_of(secret@),
        hashlock@.len() == 64,
{
    sha256_hex(secret)
}

} // verus!
