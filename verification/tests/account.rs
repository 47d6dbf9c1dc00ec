//! The account flows: registration, login, reset request, code check,
//! password change.

use auth_core::account::{
    change_password, login, register, request_reset, verify_code, UserRecord,
};
use auth_core::errors::{AuthError, HashingError};
use auth_core::hashing::verify_password;
use auth_core::password_reset::{PasswordResetClaim, CODE_LENGTH, RESET_TTL_SECONDS};
use auth_core::sign::Keys;

const NOW: u64 = 1_700_000_000;

fn keys() -> Keys {
    Keys::new(b"a-test-secret")
}

fn register_alice() -> UserRecord {
    let out = register(
        None,
        "Alice",
        "alice@example.com",
        "Secret123!",
        "u-1",
        NOW,
        &keys(),
    )
    .unwrap();
    out.user
}

#[test]
fn register_twice_fails_with_email_already_exists() {
    let keys = keys();
    let first = register(
        None,
        "Alice",
        "alice@example.com",
        "Secret123!",
        "u-1",
        NOW,
        &keys,
    )
    .unwrap();
    assert_eq!(first.user.email, "alice@example.com");
    assert_eq!(first.user.id, "u-1");
    assert_eq!(first.auth.claim.user_id, "u-1");

    let second = register(
        Some(&first.user),
        "Alice",
        "alice@example.com",
        "Secret123!",
        "u-2",
        NOW,
        &keys,
    );
    assert_eq!(second.unwrap_err(), AuthError::EmailAlreadyExists);
}

#[test]
fn register_rejects_bad_email() {
    let r = register(None, "A", "not-an-email", "Secret123!", "u-1", NOW, &keys());
    assert_eq!(r.unwrap_err(), AuthError::InvalidEmail);
}

#[test]
fn register_validates_before_the_occupied_email_check() {
    let first = register_alice();
    let r = register(
        Some(&first),
        "A",
        "alice@example.com",
        "weakpass",
        "u-2",
        NOW,
        &keys(),
    );
    assert!(matches!(r.unwrap_err(), AuthError::InvalidPassword { .. }));
}

#[test]
fn reset_flow_carries_an_international_email() {
    let keys = keys();
    let out = register(
        None,
        "Grete",
        "gr\u{fc}\u{df}e@example.com",
        "Secret123!",
        "u-9",
        NOW,
        &keys,
    )
    .unwrap();
    let reset = request_reset(Some(&out.user), NOW, &keys).unwrap();
    assert_eq!(reset.claim.email, "gr\u{fc}\u{df}e@example.com");
    let back = PasswordResetClaim::from_token(&reset.claim.token(&keys), &keys, NOW).unwrap();
    assert_eq!(back, reset.claim);
}

#[test]
fn register_rejects_weak_password() {
    let r = register(None, "A", "a@b.com", "secret123", "u-1", NOW, &keys());
    assert_eq!(
        r.unwrap_err(),
        AuthError::InvalidPassword {
            has_uppercase: false,
            has_lowercase: true,
            has_digit: true,
            min_length: 8,
            is_long_enough: true,
        }
    );
    let r = register(None, "A", "a@b.com", "Sh0rt", "u-1", NOW, &keys());
    assert_eq!(
        r.unwrap_err(),
        AuthError::InvalidPassword {
            has_uppercase: true,
            has_lowercase: true,
            has_digit: true,
            min_length: 8,
            is_long_enough: false,
        }
    );
}

#[test]
fn registered_hash_verifies() {
    let user = register_alice();
    assert_eq!(
        verify_password(b"Secret123!", &user.password_hash),
        Ok(true)
    );
    assert_eq!(
        verify_password(b"Other123!x", &user.password_hash),
        Ok(false)
    );
    assert_ne!(user.password_hash, "Secret123!");
}

#[test]
fn login_wrong_password_fails_without_a_session() {
    let user = register_alice();
    let r = login(Some(&user), "WrongPass1", NOW, &keys());
    assert_eq!(r.unwrap_err(), AuthError::WrongPassword);
}

#[test]
fn login_right_password_grants_a_session() {
    let keys = keys();
    let user = register_alice();
    let out = login(Some(&user), "Secret123!", NOW, &keys).unwrap();
    assert_eq!(out.claim.user_id, "u-1");
    assert!(out.claim.is_session_claim);
    assert_eq!(out.cookie, format!("token={}; Path=/; HttpOnly", out.token));
    let back =
        auth_core::authorization::AuthorizationClaim::from_token(&out.token, &keys, NOW)
            .unwrap();
    assert_eq!(back, out.claim);
}

#[test]
fn login_unknown_email_fails() {
    let r = login(None, "Secret123!", NOW, &keys());
    assert_eq!(r.unwrap_err(), AuthError::EmailNotFound);
}

#[test]
fn login_malformed_stored_hash_is_an_internal_error() {
    let user = UserRecord {
        id: String::from("u-1"),
        name: String::from("Alice"),
        email: String::from("alice@example.com"),
        password_hash: String::from("not-a-hash"),
    };
    let r = login(Some(&user), "Secret123!", NOW, &keys());
    assert_eq!(
        r.unwrap_err(),
        AuthError::Hashing(HashingError::MalformedHash)
    );
}

#[test]
fn request_reset_unknown_email_fails() {
    let r = request_reset(None, NOW, &keys());
    assert_eq!(r.unwrap_err(), AuthError::EmailNotFound);
}

#[test]
fn request_reset_then_lowercased_code_authorizes() {
    let keys = keys();
    let user = register_alice();
    let out = request_reset(Some(&user), NOW, &keys).unwrap();
    assert_eq!(out.claim.email, "alice@example.com");
    assert!(!out.claim.authorized);
    assert_eq!(out.claim.expires_at, NOW + RESET_TTL_SECONDS);
    assert_eq!(out.claim.code.len(), CODE_LENGTH);
    assert!(out
        .claim
        .code
        .chars()
        .all(|ch| ch.is_ascii_digit() || ch.is_ascii_uppercase()));

    let mut claim = out.claim.clone();
    let submitted = claim.code.to_lowercase();
    assert!(claim.authorize(&submitted));
    assert!(claim.authorized);
}

#[test]
fn scripted_reset_flow_with_fixed_code() {
    let keys = keys();
    let claim = PasswordResetClaim {
        email: String::from("alice@example.com"),
        code: String::from("AB12CD"),
        expires_at: NOW + RESET_TTL_SECONDS,
        authorized: false,
    };
    let out = verify_code(&claim, "ab12cd", &keys).unwrap();
    assert!(out.claim.authorized);
    assert_eq!(out.claim.email, "alice@example.com");
    assert_eq!(out.claim.code, "AB12CD");
    let back = PasswordResetClaim::from_token(
        &out.claim.token(&keys),
        &keys,
        NOW,
    )
    .unwrap();
    assert!(back.authorized);
}

#[test]
fn verify_code_rejects_a_wrong_code() {
    let keys = keys();
    let claim = PasswordResetClaim {
        email: String::from("alice@example.com"),
        code: String::from("AB12CD"),
        expires_at: NOW + RESET_TTL_SECONDS,
        authorized: false,
    };
    let r = verify_code(&claim, "zz99zz", &keys);
    assert_eq!(r.unwrap_err(), AuthError::WrongPassword);
    assert!(!claim.authorized);
}

#[test]
fn change_password_rejects_unauthorized_claim() {
    let user = register_alice();
    let claim = PasswordResetClaim {
        email: String::from("alice@example.com"),
        code: String::from("AB12CD"),
        expires_at: NOW + RESET_TTL_SECONDS,
        authorized: false,
    };
    let matching = change_password(&claim, Some(&user), "NewPass1!", "NewPass1!");
    assert_eq!(matching.unwrap_err(), AuthError::NotAuthorized);
    let differing = change_password(&claim, Some(&user), "NewPass1!", "Different1!");
    assert_eq!(differing.unwrap_err(), AuthError::NotAuthorized);
}

#[test]
fn change_password_rejects_mismatched_fields() {
    let user = register_alice();
    let mut claim = PasswordResetClaim {
        email: String::from("alice@example.com"),
        code: String::from("AB12CD"),
        expires_at: NOW + RESET_TTL_SECONDS,
        authorized: false,
    };
    assert!(claim.authorize("AB12CD"));
    let r = change_password(&claim, Some(&user), "NewPass1!", "Different1!");
    assert_eq!(r.unwrap_err(), AuthError::PasswordsDontMatch);
}

#[test]
fn change_password_rejects_missing_user() {
    let mut claim = PasswordResetClaim {
        email: String::from("alice@example.com"),
        code: String::from("AB12CD"),
        expires_at: NOW + RESET_TTL_SECONDS,
        authorized: false,
    };
    assert!(claim.authorize("AB12CD"));
    let r = change_password(&claim, None, "NewPass1!", "NewPass1!");
    assert_eq!(r.unwrap_err(), AuthError::NotAuthorized);
}

#[test]
fn change_password_rejects_weak_new_password() {
    let user = register_alice();
    let mut claim = PasswordResetClaim {
        email: String::from("alice@example.com"),
        code: String::from("AB12CD"),
        expires_at: NOW + RESET_TTL_SECONDS,
        authorized: false,
    };
    assert!(claim.authorize("AB12CD"));
    let r = change_password(&claim, Some(&user), "weakpass", "weakpass");
    assert!(matches!(
        r.unwrap_err(),
        AuthError::InvalidPassword { .. }
    ));
}

#[test]
fn change_password_produces_a_verifying_hash() {
    let user = register_alice();
    let mut claim = PasswordResetClaim {
        email: String::from("alice@example.com"),
        code: String::from("AB12CD"),
        expires_at: NOW + RESET_TTL_SECONDS,
        authorized: false,
    };
    assert!(claim.authorize("AB12CD"));
    let pc = change_password(&claim, Some(&user), "NewPass1!", "NewPass1!").unwrap();
    assert_eq!(pc.user_id, "u-1");
    assert_eq!(verify_password(b"NewPass1!", &pc.new_password_hash), Ok(true));
    assert_eq!(
        verify_password(b"Secret123!", &pc.new_password_hash),
        Ok(false)
    );
}
