//! The password-reset claim: one-time code, authorization, re-issue.

use auth_core::errors::ClaimsError;
use auth_core::password_reset::{PasswordResetClaim, CODE_LENGTH, RESET_TTL_SECONDS};
use auth_core::sign::Keys;

const NOW: u64 = 1_700_000_000;

fn keys() -> Keys {
    Keys::new(b"a-test-secret")
}

fn claim_with_code(code: &str) -> PasswordResetClaim {
    PasswordResetClaim {
        email: String::from("alice@example.com"),
        code: String::from(code),
        expires_at: NOW + RESET_TTL_SECONDS,
        authorized: false,
    }
}

#[test]
fn new_reset_claim_fields() {
    let c = PasswordResetClaim::new(String::from("alice@example.com"), NOW);
    assert_eq!(c.email, "alice@example.com");
    assert_eq!(c.expires_at, NOW + RESET_TTL_SECONDS);
    assert_eq!(c.expires_at, NOW + 15 * 60);
    assert!(!c.authorized);
    assert_eq!(c.code.len(), CODE_LENGTH);
    assert!(c
        .code
        .chars()
        .all(|ch| ch.is_ascii_digit() || ch.is_ascii_uppercase()));
}

#[test]
fn authorize_matches_case_insensitively() {
    let mut c = claim_with_code("AB12CD");
    assert!(c.authorize("ab12cd"));
    assert!(c.authorized);

    let mut c = claim_with_code("AB12CD");
    assert!(c.authorize("AB12CD"));
    assert!(c.authorized);

    let mut c = claim_with_code("AB12CD");
    assert!(c.authorize("Ab12cD"));
    assert!(c.authorized);
}

#[test]
fn authorize_rejects_everything_else() {
    for wrong in ["", "AB12CE", "AB12C", "AB12CDX", "  ab12cd", "ab 12cd"] {
        let mut c = claim_with_code("AB12CD");
        assert!(!c.authorize(wrong), "accepted {:?}", wrong);
        assert!(!c.authorized);
        assert_eq!(c.code, "AB12CD");
        assert_eq!(c.email, "alice@example.com");
    }
}

#[test]
fn authorize_failure_leaves_earlier_authorization() {
    let mut c = claim_with_code("AB12CD");
    assert!(c.authorize("ab12cd"));
    assert!(!c.authorize("nope"));
    assert!(c.authorized);
}

#[test]
fn reset_round_trip_keeps_all_fields() {
    let keys = keys();
    let mut c = claim_with_code("AB12CD");
    assert!(c.authorize("AB12CD"));
    let token = c.token(&keys);
    let back = PasswordResetClaim::from_token(&token, &keys, NOW).unwrap();
    assert_eq!(back, c);
    assert!(back.authorized);
}

#[test]
fn reset_decode_rejects_expired() {
    let keys = keys();
    let c = claim_with_code("AB12CD");
    let token = c.token(&keys);
    assert_eq!(
        PasswordResetClaim::from_token(&token, &keys, c.expires_at),
        Err(ClaimsError::InvalidToken)
    );
}

#[test]
fn reset_decode_rejects_other_secret() {
    let keys = keys();
    let token = claim_with_code("AB12CD").token(&keys);
    assert_eq!(
        PasswordResetClaim::from_token(&token, &Keys::new(b"zzz"), NOW),
        Err(ClaimsError::InvalidToken)
    );
}

#[test]
fn reset_cookie_is_secure() {
    let keys = keys();
    let c = claim_with_code("AB12CD");
    let token = c.token(&keys);
    assert_eq!(
        c.cookie(&keys),
        format!("token={}; Path=/; HttpOnly; Secure", token)
    );
}

#[test]
fn session_token_does_not_pass_as_reset() {
    let keys = keys();
    let session =
        auth_core::authorization::AuthorizationClaim::new(String::from("u-1"), NOW);
    let token = session.token(&keys);
    assert_eq!(
        PasswordResetClaim::from_token(&token, &keys, NOW),
        Err(ClaimsError::InvalidToken)
    );
}

#[test]
fn reset_round_trip_with_awkward_email() {
    // Quotes, backslashes and multi-byte text in a field survive the
    // payload escaping.
    let keys = keys();
    for email in ["ali\"ce@example.com", "back\\slash@c.dd", "gr\u{fc}\u{df}e@example.com", "a\"\\\"@x.yy"] {
        let c = PasswordResetClaim {
            email: String::from(email),
            code: String::from("AB12CD"),
            expires_at: NOW + RESET_TTL_SECONDS,
            authorized: false,
        };
        let token = c.token(&keys);
        let back = PasswordResetClaim::from_token(&token, &keys, NOW).unwrap();
        assert_eq!(back, c);
    }
}

#[test]
fn quoted_email_token_matches_jsonwebtoken_exactly() {
    // serde_json escapes the quote and the backslash the same way and
    // carries multi-byte text raw, so the tokens agree byte for byte.
    let secret = b"a-test-secret";
    let keys = Keys::new(secret);
    for email in ["ali\"ce@example.com", "back\\slash@c.dd", "gr\u{fc}\u{df}e@example.com"] {
        let c = PasswordResetClaim {
            email: String::from(email),
            code: String::from("AB12CD"),
            expires_at: NOW + RESET_TTL_SECONDS,
            authorized: false,
        };
        let mut payload = serde_json::Map::new();
        payload.insert("authorized".to_string(), serde_json::Value::Bool(false));
        payload.insert(
            "code".to_string(),
            serde_json::Value::String(String::from("AB12CD")),
        );
        payload.insert(
            "email".to_string(),
            serde_json::Value::String(String::from(email)),
        );
        payload.insert("exp".to_string(), serde_json::Value::from(c.expires_at));
        let reference = jsonwebtoken::encode(
            &jsonwebtoken::Header::default(),
            &serde_json::Value::Object(payload),
            &jsonwebtoken::EncodingKey::from_secret(secret),
        )
        .unwrap();
        assert_eq!(c.token(&keys), reference);
    }
}

#[test]
fn reset_token_matches_jsonwebtoken_encode_exactly() {
    let secret = b"a-test-secret";
    let keys = Keys::new(secret);
    let mut c = claim_with_code("AB12CD");
    c.authorized = true;
    let token = c.token(&keys);

    let mut payload = serde_json::Map::new();
    payload.insert("authorized".to_string(), serde_json::Value::Bool(true));
    payload.insert(
        "code".to_string(),
        serde_json::Value::String(String::from("AB12CD")),
    );
    payload.insert(
        "email".to_string(),
        serde_json::Value::String(String::from("alice@example.com")),
    );
    payload.insert("exp".to_string(), serde_json::Value::from(c.expires_at));
    let reference = jsonwebtoken::encode(
        &jsonwebtoken::Header::default(),
        &serde_json::Value::Object(payload),
        &jsonwebtoken::EncodingKey::from_secret(secret),
    )
    .unwrap();
    assert_eq!(token, reference);
}
