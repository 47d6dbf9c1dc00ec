//! The shared signing secret and the keyed MAC behind token signatures.

use vstd::prelude::*;
use crate::b64::is_b64_seq;

verus! {

/// The symmetric signing secret, read once at startup and shared
/// read-only by every request handler.
pub struct Keys {
    pub secret: Vec<u8>,
}

impl Keys {
    pub fn new(secret: &[u8]) -> (r: Keys)
        ensures
            r.secret@ == secret@,
    {
        Keys { secret: vstd::slice::slice_to_vec(secret) }
    }
}

/// The base64url spelling of the HMAC-SHA256 tag of `message` under
/// `secret`: a function of those two arguments alone.
pub uninterp spec fn hmac_tag_of(message: Seq<u8>, secret: Seq<u8>) -> Seq<char>;

/// Relies on `jsonwebtoken::crypto::sign` with the HS256 algorithm: it
/// base64url-encodes the HMAC-SHA256 tag of the message (32 bytes, hence
/// 43 characters of the base64url alphabet) and, per its source, never
/// fails on that algorithm.
#[verifier::external_body]
pub fn hmac_sign(message: &[u8], secret: &[u8]) -> (r: String)
    ensures
        r@ == hmac_tag_of(message@, secret@),
        r@.len() == 43,
        is_b64_seq(r@),
{
    let key = jsonwebtoken::EncodingKey::from_secret(secret);
    match jsonwebtoken::crypto::sign(message, &key, jsonwebtoken::Algorithm::HS256) {
        Ok(sig) => sig,
        Err(_) => String::new(),
    }
}

/// Relies on `jsonwebtoken::crypto::verify` with the HS256 algorithm: per
/// its source it recomputes the base64url tag of the message under the
/// secret and reports, in constant time, whether the given signature
/// equals it.
#[verifier::external_body]
pub fn hmac_verify(signature: &str, message: &[u8], secret: &[u8]) -> (r: bool)
    ensures
        r == (signature@ == hmac_tag_of(message@, secret@)),
{
    let key = jsonwebtoken::DecodingKey::from_secret(secret);
    match jsonwebtoken::crypto::verify(signature, message, &key, jsonwebtoken::Algorithm::HS256) {
        Ok(b) => b,
        Err(_) => false,
    }
}

} // verus!
