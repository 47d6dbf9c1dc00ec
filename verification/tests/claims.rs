//! The token lifecycle: issue, decode, reject.

use auth_core::authorization::{AuthorizationClaim, SESSION_TTL_SECONDS};
use auth_core::errors::ClaimsError;
use auth_core::sign::Keys;

const NOW: u64 = 1_700_000_000;

fn keys() -> Keys {
    Keys::new(b"a-test-secret")
}

fn sample_claim() -> AuthorizationClaim {
    AuthorizationClaim::new(
        String::from("f47ac10b-58cc-4372-a567-0e02b2c3d479"),
        NOW,
    )
}

#[test]
fn new_session_claim_fields() {
    let c = sample_claim();
    assert_eq!(c.user_id, "f47ac10b-58cc-4372-a567-0e02b2c3d479");
    assert_eq!(c.expires_at, NOW + SESSION_TTL_SECONDS);
    assert_eq!(c.expires_at, NOW + 168 * 3600);
    assert!(c.is_session_claim);
}

#[test]
fn session_round_trip_while_unexpired() {
    let keys = keys();
    let c = sample_claim();
    let token = c.token(&keys);
    let back = AuthorizationClaim::from_token(&token, &keys, NOW).unwrap();
    assert_eq!(back, c);
    let later = AuthorizationClaim::from_token(&token, &keys, c.expires_at - 1).unwrap();
    assert_eq!(later, c);
}

#[test]
fn decode_rejects_other_secret() {
    let keys = keys();
    let other = Keys::new(b"a-different-secret");
    let token = sample_claim().token(&keys);
    assert_eq!(
        AuthorizationClaim::from_token(&token, &other, NOW),
        Err(ClaimsError::InvalidToken)
    );
}

#[test]
fn decode_rejects_expired_even_with_valid_signature() {
    let keys = keys();
    let c = sample_claim();
    let token = c.token(&keys);
    assert_eq!(
        AuthorizationClaim::from_token(&token, &keys, c.expires_at),
        Err(ClaimsError::InvalidToken)
    );
    assert_eq!(
        AuthorizationClaim::from_token(&token, &keys, c.expires_at + 1_000_000),
        Err(ClaimsError::InvalidToken)
    );
}

#[test]
fn decode_rejects_tampered_signature() {
    let keys = keys();
    let token = sample_claim().token(&keys);
    let mut tampered: Vec<char> = token.chars().collect();
    let last = *tampered.last().unwrap();
    *tampered.last_mut().unwrap() = if last == 'A' { 'B' } else { 'A' };
    let tampered: String = tampered.into_iter().collect();
    assert_eq!(
        AuthorizationClaim::from_token(&tampered, &keys, NOW),
        Err(ClaimsError::InvalidToken)
    );
}

#[test]
fn decode_rejects_tampered_payload() {
    let keys = keys();
    let token = sample_claim().token(&keys);
    let parts: Vec<&str> = token.split('.').collect();
    assert_eq!(parts.len(), 3);
    let other_claim = AuthorizationClaim::new(String::from("someone-else"), NOW);
    let other_token = other_claim.token(&keys);
    let other_parts: Vec<&str> = other_token.split('.').collect();
    let forged = format!("{}.{}.{}", parts[0], other_parts[1], parts[2]);
    assert_eq!(
        AuthorizationClaim::from_token(&forged, &keys, NOW),
        Err(ClaimsError::InvalidToken)
    );
}

#[test]
fn decode_rejects_garbage() {
    let keys = keys();
    for bad in ["", "abc", "a.b", "a.b.c", "..", "\u{1F600}.x.y"] {
        assert!(AuthorizationClaim::from_token(bad, &keys, NOW).is_err());
    }
}

#[test]
fn session_cookie_spells_token_with_attributes() {
    let keys = keys();
    let c = sample_claim();
    let token = c.token(&keys);
    let cookie = c.cookie(&keys);
    assert_eq!(cookie, format!("token={}; Path=/; HttpOnly", token));
}

#[test]
fn token_matches_jsonwebtoken_encode_exactly() {
    let secret = b"a-test-secret";
    let keys = Keys::new(secret);
    let c = sample_claim();
    let token = c.token(&keys);

    let mut payload = serde_json::Map::new();
    payload.insert("exp".to_string(), serde_json::Value::from(c.expires_at));
    payload.insert(
        "is_session_claim".to_string(),
        serde_json::Value::Bool(true),
    );
    payload.insert(
        "user_id".to_string(),
        serde_json::Value::String(c.user_id.clone()),
    );
    let reference = jsonwebtoken::encode(
        &jsonwebtoken::Header::default(),
        &serde_json::Value::Object(payload),
        &jsonwebtoken::EncodingKey::from_secret(secret),
    )
    .unwrap();
    assert_eq!(token, reference);
}

#[test]
fn token_decodes_under_jsonwebtoken() {
    let secret = b"a-test-secret";
    let keys = Keys::new(secret);
    // jsonwebtoken checks expiry against the real clock, so look far ahead.
    let c = AuthorizationClaim::new(
        String::from("f47ac10b-58cc-4372-a567-0e02b2c3d479"),
        4_000_000_000,
    );
    let token = c.token(&keys);

    let validation = jsonwebtoken::Validation::new(jsonwebtoken::Algorithm::HS256);
    let decoded = jsonwebtoken::decode::<serde_json::Value>(
        &token,
        &jsonwebtoken::DecodingKey::from_secret(secret),
        &validation,
    )
    .unwrap();
    assert_eq!(
        decoded.claims.get("user_id").and_then(|v| v.as_str()),
        Some(c.user_id.as_str())
    );
    assert_eq!(
        decoded.claims.get("exp").and_then(|v| v.as_u64()),
        Some(c.expires_at)
    );
    assert_eq!(
        decoded.claims.get("is_session_claim").and_then(|v| v.as_bool()),
        Some(true)
    );
}

#[test]
fn jsonwebtoken_issued_token_decodes_here() {
    let secret = b"a-test-secret";
    let keys = Keys::new(secret);
    let mut payload = serde_json::Map::new();
    payload.insert("exp".to_string(), serde_json::Value::from(NOW + 100));
    payload.insert(
        "is_session_claim".to_string(),
        serde_json::Value::Bool(true),
    );
    payload.insert(
        "user_id".to_string(),
        serde_json::Value::String("someone".to_string()),
    );
    let token = jsonwebtoken::encode(
        &jsonwebtoken::Header::default(),
        &serde_json::Value::Object(payload),
        &jsonwebtoken::EncodingKey::from_secret(secret),
    )
    .unwrap();
    let c = AuthorizationClaim::from_token(&token, &keys, NOW).unwrap();
    assert_eq!(c.user_id, "someone");
    assert_eq!(c.expires_at, NOW + 100);
    assert!(c.is_session_claim);
}

#[test]
fn decode_rejects_session_flag_false() {
    let secret = b"a-test-secret";
    let keys = Keys::new(secret);
    let mut payload = serde_json::Map::new();
    payload.insert("exp".to_string(), serde_json::Value::from(NOW + 100));
    payload.insert(
        "is_session_claim".to_string(),
        serde_json::Value::Bool(false),
    );
    payload.insert(
        "user_id".to_string(),
        serde_json::Value::String("someone".to_string()),
    );
    let token = jsonwebtoken::encode(
        &jsonwebtoken::Header::default(),
        &serde_json::Value::Object(payload),
        &jsonwebtoken::EncodingKey::from_secret(secret),
    )
    .unwrap();
    assert_eq!(
        AuthorizationClaim::from_token(&token, &keys, NOW),
        Err(ClaimsError::InvalidToken)
    );
}

#[test]
fn reset_token_does_not_pass_as_session() {
    let keys = keys();
    let reset = auth_core::password_reset::PasswordResetClaim::new(
        String::from("alice@example.com"),
        NOW,
    );
    let token = reset.token(&keys);
    assert_eq!(
        AuthorizationClaim::from_token(&token, &keys, NOW),
        Err(ClaimsError::InvalidToken)
    );
}
