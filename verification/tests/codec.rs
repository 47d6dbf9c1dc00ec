//! The token's raw pieces: base64url, decimal spelling, header, signing.

use auth_core::b64::{b64_decode_str, push_b64};
use auth_core::text::{ascii_to_string, push_dec};
use auth_core::token::header64_string;
use auth_core::sign::Keys;

fn b64(bytes: &[u8]) -> String {
    let mut v = Vec::new();
    push_b64(&mut v, bytes);
    ascii_to_string(v)
}

fn b64_back(s: &str) -> Option<Vec<u8>> {
    b64_decode_str(s, 0, s.chars().count())
}

#[test]
fn base64url_known_values() {
    assert_eq!(b64(b""), "");
    assert_eq!(b64(b"Man"), "TWFu");
    assert_eq!(b64(b"Ma"), "TWE");
    assert_eq!(b64(b"M"), "TQ");
    assert_eq!(b64(b"light work."), "bGlnaHQgd29yay4");
    assert_eq!(b64(&[251, 255, 190]), "-_--");
}

#[test]
fn base64url_round_trips() {
    for input in [
        &b""[..],
        b"M",
        b"Ma",
        b"Man",
        b"light work.",
        &[0, 1, 2, 3, 4, 250, 251, 252, 253, 254, 255],
    ] {
        let encoded = b64(input);
        assert_eq!(b64_back(&encoded).as_deref(), Some(input));
    }
}

#[test]
fn base64url_decode_is_strict() {
    assert_eq!(b64_back("T"), None);
    assert_eq!(b64_back("TQ=="), None);
    assert_eq!(b64_back("TW!u"), None);
    assert_eq!(b64_back("TQA"), Some(vec![77, 0]));
    assert_eq!(b64_back("TR"), None);
    assert_eq!(b64_back("+---"), None);
    assert_eq!(b64_back("/---"), None);
}

#[test]
fn decimal_spelling() {
    let mut v = Vec::new();
    push_dec(&mut v, 0);
    v.push(b' ');
    push_dec(&mut v, 7);
    v.push(b' ');
    push_dec(&mut v, 604800);
    v.push(b' ');
    push_dec(&mut v, u64::MAX);
    assert_eq!(
        ascii_to_string(v),
        "0 7 604800 18446744073709551615"
    );
}

#[test]
fn header_segment_spells_the_hs256_header() {
    assert_eq!(header64_string(), "eyJ0eXAiOiJKV1QiLCJhbGciOiJIUzI1NiJ9");
}

#[test]
fn tokens_are_header_payload_signature() {
    let keys = Keys::new(b"a-test-secret");
    let claim =
        auth_core::authorization::AuthorizationClaim::new(String::from("u-1"), 1_000);
    let token = claim.token(&keys);
    let parts: Vec<&str> = token.split('.').collect();
    assert_eq!(parts.len(), 3);
    assert_eq!(parts[0], "eyJ0eXAiOiJKV1QiLCJhbGciOiJIUzI1NiJ9");
    let payload = b64_back(parts[1]).unwrap();
    assert_eq!(
        String::from_utf8(payload).unwrap(),
        "{\"exp\":605800,\"is_session_claim\":true,\"user_id\":\"u-1\"}"
    );
    assert_eq!(parts[2].len(), 43);
    let other = Keys::new(b"another-secret");
    let other_token = claim.token(&other);
    let other_parts: Vec<&str> = other_token.split('.').collect();
    assert_eq!(parts[1], other_parts[1]);
    assert_ne!(parts[2], other_parts[2]);
}
