//! Reading claims out of requests: cookie headers and validation.

use auth_core::authorization::AuthorizationClaim;
use auth_core::cookie::extract_cookie_value;
use auth_core::errors::{AuthError, ClaimsError};
use auth_core::password_reset::PasswordResetClaim;
use auth_core::sign::Keys;
use auth_core::validate::{is_valid_email, is_valid_password};

const NOW: u64 = 1_700_000_000;

fn keys() -> Keys {
    Keys::new(b"a-test-secret")
}

#[test]
fn extract_finds_the_named_cookie() {
    assert_eq!(extract_cookie_value("token=abc", "token").as_deref(), Some("abc"));
    assert_eq!(
        extract_cookie_value("a=1; token=xyz; b=2", "token").as_deref(),
        Some("xyz")
    );
    assert_eq!(
        extract_cookie_value("  token=abc  ; x=y", "token").as_deref(),
        Some("abc")
    );
    assert_eq!(
        extract_cookie_value("token=a=b", "token").as_deref(),
        Some("a=b")
    );
    assert_eq!(
        extract_cookie_value("token=first; token=second", "token").as_deref(),
        Some("first")
    );
    assert_eq!(extract_cookie_value("token=", "token").as_deref(), Some(""));
}

#[test]
fn extract_yields_absent_when_nothing_matches() {
    assert_eq!(extract_cookie_value("other=abc", "token"), None);
    assert_eq!(extract_cookie_value("", "token"), None);
    assert_eq!(extract_cookie_value("token", "token"), None);
    assert_eq!(extract_cookie_value("; ; ;", "token"), None);
    assert_eq!(extract_cookie_value("tok=abc; en=d", "token"), None);
    assert_eq!(extract_cookie_value("TOKEN=abc", "token"), None);
}

#[test]
fn adapter_rejects_header_without_token_cookie() {
    let keys = keys();
    let r = AuthorizationClaim::from_cookie_header(Some("other=abc"), &keys, NOW);
    assert_eq!(r.unwrap_err(), ClaimsError::TokenNotFound);
}

#[test]
fn adapter_rejects_missing_header() {
    let keys = keys();
    assert_eq!(
        AuthorizationClaim::from_cookie_header(None, &keys, NOW).unwrap_err(),
        ClaimsError::TokenNotFound
    );
    assert_eq!(
        PasswordResetClaim::from_cookie_header(None, &keys, NOW).unwrap_err(),
        ClaimsError::TokenNotFound
    );
}

#[test]
fn adapter_rejects_unparseable_token() {
    let keys = keys();
    let r = AuthorizationClaim::from_cookie_header(Some("token=junk"), &keys, NOW);
    assert_eq!(r.unwrap_err(), ClaimsError::InvalidToken);
}

#[test]
fn adapter_round_trips_both_claims() {
    let keys = keys();
    let session = AuthorizationClaim::new(String::from("u-1"), NOW);
    let header = format!("theme=dark; {}", session.cookie(&keys));
    let got =
        AuthorizationClaim::from_cookie_header(Some(&header), &keys, NOW).unwrap();
    assert_eq!(got, session);

    let reset = PasswordResetClaim::new(String::from("alice@example.com"), NOW);
    let header = reset.cookie(&keys);
    let got = PasswordResetClaim::from_cookie_header(Some(&header), &keys, NOW).unwrap();
    assert_eq!(got, reset);
}

#[test]
fn email_shapes() {
    assert_eq!(is_valid_email("alice@example.com"), Ok(true));
    assert_eq!(is_valid_email("a@b.c"), Ok(true));
    assert_eq!(is_valid_email("plain"), Err(AuthError::InvalidEmail));
    assert_eq!(is_valid_email("no-dot@com"), Err(AuthError::InvalidEmail));
    assert_eq!(is_valid_email("dot.before@at"), Err(AuthError::InvalidEmail));
    assert_eq!(is_valid_email("ends.with@dot."), Err(AuthError::InvalidEmail));
    assert_eq!(is_valid_email(""), Err(AuthError::InvalidEmail));
}

#[test]
fn email_alphabet_is_unrestricted() {
    // Only the @/dot shape decides; quoted local parts and
    // internationalized addresses pass.
    assert_eq!(is_valid_email("ali\"ce@example.com"), Ok(true));
    assert_eq!(is_valid_email("a\"b@c.dd"), Ok(true));
    assert_eq!(is_valid_email("back\\slash@example.com"), Ok(true));
    assert_eq!(is_valid_email("gr\u{fc}\u{df}e@example.com"), Ok(true));
}

#[test]
fn password_classes_are_unicode_and_length_is_bytes() {
    // An uppercase or lowercase letter anywhere in Unicode counts, and
    // the minimum length is measured in bytes.
    assert_eq!(is_valid_password("\u{dc}BERgross1"), Ok(true));
    assert_eq!(is_valid_password("\u{c4}\u{e4}\u{e4}\u{e4}1aB"), Ok(true));
    assert!(is_valid_password("Ab1\u{e4}").is_err());
}

#[test]
fn password_shapes() {
    assert_eq!(is_valid_password("Secret123!"), Ok(true));
    assert_eq!(is_valid_password("Aa345678"), Ok(true));
    assert!(is_valid_password("").is_err());
    assert!(is_valid_password("alllower1").is_err());
    assert!(is_valid_password("ALLUPPER1").is_err());
    assert!(is_valid_password("NoDigits!").is_err());
    assert_eq!(
        is_valid_password("nothing"),
        Err(AuthError::InvalidPassword {
            has_uppercase: false,
            has_lowercase: true,
            has_digit: false,
            min_length: 8,
            is_long_enough: false,
        })
    );
}
