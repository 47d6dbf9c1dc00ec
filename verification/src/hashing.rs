//! Password hashing: creation with a fresh random salt, and verification
//! against the stored, self-describing hash string.

use vstd::prelude::*;
use argon2::password_hash::{PasswordHasher, PasswordVerifier};
use crate::errors::HashingError;

verus! {

/// Longest password, in bytes, the hashing backend accepts.
pub const ARGON2_MAX_PASSWORD_BYTES: u64 = 0xffffffff;

/// Whether a stored hash string parses as a well-formed hash encoding:
/// what `argon2::password_hash::PasswordHash::new` accepts, a function of
/// the string alone.
pub uninterp spec fn phc_parses(hash: Seq<char>) -> bool;

/// Whether a parsed hash string names an algorithm, version, parameters,
/// salt and output that the argon2 backend can recompute with: a function
/// of the string alone. Where it holds, verification of a password within
/// the length bound answers cleanly, match or mismatch.
pub uninterp spec fn argon2_handles(hash: Seq<char>) -> bool;

/// Whether a password verifies against a stored hash string: what
/// `argon2`'s `verify_password` accepts, a function of the two arguments
/// alone.
pub uninterp spec fn argon2_matches(password: Seq<u8>, hash: Seq<char>) -> bool;

/// Relies on argon2's `hash_password` with default cost parameters and a
/// fresh random salt: a returned encoding parses back, names a variant
/// the backend recomputes, and verifies against the password it was made
/// from. With the fixed default parameters and a generated salt, the only
/// input it refuses is a password over the length bound. Which encoding
/// comes back depends on the drawn salt, so nothing more is promised.
#[verifier::external_body]
pub fn hash_password(password: &[u8]) -> (r: Option<String>)
    ensures
        r matches Some(h) ==> phc_parses(h@) && argon2_handles(h@) && argon2_matches(
            password@,
            h@,
        ),
        r matches None ==> password@.len() > ARGON2_MAX_PASSWORD_BYTES,
{
    let salt = argon2::password_hash::SaltString::generate(
        &mut argon2::password_hash::rand_core::OsRng,
    );
    match argon2::Argon2::default().hash_password(password, &salt) {
        Ok(h) => Some(h.to_string()),
        Err(_) => None,
    }
}

/// Relies on argon2's `PasswordHash::new` and `verify_password`: the
/// former parses the stored string (`phc_parses` names its success), the
/// latter recomputes the hash and compares in constant time
/// (`argon2_matches` names its success; its `Password` error is the clean
/// mismatch). Any other error can only come from a hash string the
/// backend does not handle or a password over the length bound, so on a
/// handled hash and a bounded password the answer is a clean boolean.
#[verifier::external_body]
pub fn verify_password(password: &[u8], stored_hash: &str) -> (r: Result<bool, HashingError>)
    ensures
        r matches Ok(b) ==> phc_parses(stored_hash@) && b == argon2_matches(
            password@,
            stored_hash@,
        ),
        r matches Err(e) ==> (e == HashingError::MalformedHash <==> !phc_parses(stored_hash@)),
        r matches Err(e) ==> (e == HashingError::HashingFailed ==> !(argon2_handles(stored_hash@)
            && password@.len() <= ARGON2_MAX_PASSWORD_BYTES)),
{
    let parsed = match argon2::password_hash::PasswordHash::new(stored_hash) {
        Ok(p) => p,
        Err(_) => {
            return Err(HashingError::MalformedHash);
        },
    };
    match argon2::Argon2::default().verify_password(password, &parsed) {
        Ok(()) => Ok(true),
        Err(argon2::password_hash::Error::Password) => Ok(false),
        Err(_) => Err(HashingError::HashingFailed),
    }
}

} // verus!
