//! The digest behind block hashing, taken on trust from an outside crate.

use vstd::prelude::*;

verus! {

/// The lowercase hexadecimal SHA-256 digest of the UTF-8 bytes of a string,
/// named here and left uninterpreted: the digest is a function of the input
/// characters alone.
pub uninterp spec fn sha256_hex(s: Seq<char>) -> Seq<char>;

/// Relies on `crypto_hash::hex_digest` with `Algorithm::SHA256`: it returns
/// the SHA-256 digest of the given bytes rendered as lowercase hexadecimal,
/// which for the 32-byte digest is exactly 64 characters.
#[verifier::external_body]
pub(crate) fn sha256_hex_digest(s: &str) -> (r: String)
    ensures
        r@ == sha256_hex(s@),
        r@.len() == 64,
{
    crypto_hash::hex_digest(crypto_hash::Algorithm::SHA256, s.as_bytes())
}

} // verus!
