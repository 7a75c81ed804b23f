//! SHA-256 digests of text.

use crate::text::{hex, hex_lower};
use sha2::{Digest, Sha256};
use vstd::prelude::*;
use vstd::utf8::encode_utf8;

verus! {

broadcast use vstd::string::group_string_axioms;

/// The SHA-256 digest of the bytes.
pub uninterp spec fn sha256(data: Seq<u8>) -> Seq<u8>;

/// `sha2::Sha256::digest`: the digest is a function of the bytes alone and has
/// 32 bytes.
#[verifier::external_body]
fn sha256_digest(data: &[u8]) -> (r: Vec<u8>)
    ensures
        r@ == sha256(data@),
        r@.len() == 32,
{
    Sha256::digest(data).to_vec()
}

/// The digest of a text's UTF-8 bytes, in lowercase hexadecimal.
pub open spec fn text_digest(s: Seq<char>) -> Seq<char> {
    hex(sha256(encode_utf8(s)))
}

/// The digest of a text's UTF-8 bytes, in lowercase hexadecimal.
pub fn digest_text(s: &str) -> (r: String)
    ensures
        r@ == text_digest(s@),
        r@.len() == 64,
{
    let bytes = sha256_digest(s.as_bytes());
    hex_lower(bytes.as_slice())
}

} // verus!
