//! Content hashing: a fixed-length lowercase hexadecimal fingerprint.

use vstd::prelude::*;
use crate::hex::{bytes_to_hex, hex_of_bytes, lemma_hex_of_bytes_len};

verus! {

/// The 32-byte SHA-256 digest of the UTF-8 encoding of a character
/// sequence. The digest is a function of the content alone.
pub uninterp spec fn sha256_of(s: Seq<char>) -> Seq<u8>;

/// Relies on sha2::Sha256 through the Digest trait: a one-shot hash of the
/// input bytes, producing a 32-byte digest that depends on the input alone.
#[verifier::external_body]
fn sha256_digest(content: &str) -> (r: Vec<u8>)
    ensures
        r@ == sha256_of(content@),
        r@.len() == 32,
{
    <sha2::Sha256 as sha2::Digest>::digest(content.as_bytes()).to_vec()
}

/// The fingerprint recorded for file content: the lowercase hexadecimal
/// rendering of its digest.
pub open spec fn digest_of(s: Seq<char>) -> Seq<char> {
    hex_of_bytes(sha256_of(s))
}

/// Hashes file content to its 64-character lowercase hexadecimal
/// fingerprint.
pub fn hash_content(content: &str) -> (r: String)
    ensures
        r@ == digest_of(content@),
        r@.len() == 64,
{
    let d = sha256_digest(content);
    let r = bytes_to_hex(&d);
    proof {
        lemma_hex_of_bytes_len(sha256_of(content@));
    }
    r
}

/// The digest is deterministic: the same content always yields the same
/// fingerprint.
pub proof fn lemma_digest_deterministic(a: Seq<char>, b: Seq<char>)
    requires
        a == b,
    ensures
        digest_of(a) == digest_of(b),
{
}

} // verus!
