//! Typed rejections of the authentication flows.

use vstd::prelude::*;

verus! {

/// Why a claim could not be taken from a request.
#[derive(Clone, Copy, Debug, PartialEq, Eq, Structural)]
pub enum ClaimsError {
    /// The cookie header is absent, or names no cookie called `token`.
    TokenNotFound,
    /// The token failed the shape, signature or expiry checks.
    InvalidToken,
}

/// Why a stored password hash could not be checked or a password hashed.
#[derive(Clone, Copy, Debug, PartialEq, Eq, Structural)]
pub enum HashingError {
    /// The stored hash string is not a well-formed hash encoding.
    MalformedHash,
    /// The hashing backend refused an otherwise well-formed input.
    HashingFailed,
}

/// Why an authentication operation was refused.
#[derive(Clone, Copy, Debug, PartialEq, Eq, Structural)]
pub enum AuthError {
    /// No account carries the given email address.
    EmailNotFound,
    /// An account already carries the email offered at registration.
    EmailAlreadyExists,
    /// The offered password does not match the stored hash.
    WrongPassword,
    /// The new password and its confirmation differ.
    PasswordsDontMatch,
    /// The reset claim was never authorized by the one-time code.
    NotAuthorized,
    /// The email address has no acceptable shape.
    InvalidEmail,
    /// The password misses a complexity demand; the fields say which.
    InvalidPassword {
        has_uppercase: bool,
        has_lowercase: bool,
        has_digit: bool,
        min_length: usize,
        is_long_enough: bool,
    },
    /// A claim could not be taken from the request.
    Claims(ClaimsError),
    /// Password hashing failed.
    Hashing(HashingError),
}

} // verus!
