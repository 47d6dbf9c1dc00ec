//! The session claim: a signed assertion that a user has authenticated,
//! valid until its expiry timestamp.

use vstd::prelude::*;
use vstd::string::StringSliceAdditionalSpecFns;
use vstd::utf8::{encode_utf8, decode_utf8, valid_utf8, encode_utf8_valid_utf8, encode_utf8_decode_utf8};
use crate::text::{ascii_bytes, dec_digits, push_str_bytes, push_dec, utf8_to_string, lemma_dec_digits_shape};
use crate::payload::{
    starts_with, parse_u64_at, parse_bool_at, unescape_value, escape_bytes, read_u64_at,
    read_bool_at, read_value, match_lit, push_bool, push_escaped, lemma_parse_u64_of_dec,
    lemma_unescape_of_escape,
};
use crate::sign::Keys;
use crate::token::{spec_token, spec_token_payload, make_token, token_payload, lemma_token_round_trip};
use crate::cookie::{spec_cookie, build_cookie, extract_cookie, extract_cookie_value};
use crate::errors::ClaimsError;

verus! {

/// Seconds a fresh session claim lives: 168 hours.
pub const SESSION_TTL_SECONDS: u64 = 604800;

/// A session claim. `is_session_claim` is true on every claim this module
/// issues; it keeps a reset-claim token from passing as a session.
#[derive(Debug, Clone, PartialEq, Eq)]
pub struct AuthorizationClaim {
    pub user_id: String,
    pub expires_at: u64,
    pub is_session_claim: bool,
}

/// The JSON payload of a session claim, fields in fixed order, the user
/// id escaped.
pub open spec fn spec_session_payload(user_id: Seq<char>, expires_at: u64, sess: bool) -> Seq<u8> {
    ascii_bytes("{\"exp\":"@) + dec_digits(expires_at) + ascii_bytes(",\"is_session_claim\":"@)
        + ascii_bytes(
        if sess {
            "true"@
        } else {
            "false"@
        },
    ) + ascii_bytes(",\"user_id\":\""@) + escape_bytes(encode_utf8(user_id)) + ascii_bytes("\"}"@)
}

/// The fields spelled by a session payload, read strictly: exactly the
/// shape `spec_session_payload` emits.
pub open spec fn parse_session_payload(p: Seq<u8>) -> Option<(Seq<char>, u64, bool)> {
    if !starts_with(p, 0, "{\"exp\":"@) {
        None
    } else {
        match parse_u64_at(p, "{\"exp\":"@.len() as int) {
            None => None,
            Some((exp, e)) => if !starts_with(p, e, ",\"is_session_claim\":"@) {
                None
            } else {
                match parse_bool_at(p, e + ",\"is_session_claim\":"@.len()) {
                    None => None,
                    Some((sess, f)) => if !starts_with(p, f, ",\"user_id\":\""@) {
                        None
                    } else {
                        let g = f + ",\"user_id\":\""@.len();
                        match unescape_value(p, g) {
                            None => None,
                            Some((u, q)) => if q + 2 == p.len() && p[q + 1] == 125 && valid_utf8(
                                u,
                            ) {
                                Some((decode_utf8(u), exp, sess))
                            } else {
                                None
                            },
                        }
                    },
                }
            },
        }
    }
}

proof fn lemma_session_lits()
    ensures
        vstd::utf8::is_ascii_chars("{\"exp\":"@),
        vstd::utf8::is_ascii_chars(",\"is_session_claim\":"@),
        vstd::utf8::is_ascii_chars(",\"user_id\":\""@),
        vstd::utf8::is_ascii_chars("\"}"@),
        vstd::utf8::is_ascii_chars("true"@),
        vstd::utf8::is_ascii_chars("false"@),
        "{\"exp\":"@.len() == 7,
        ",\"is_session_claim\":"@.len() == 20,
        ",\"user_id\":\""@.len() == 12,
        "\"}"@.len() == 2,
        "true"@.len() == 4,
        "false"@.len() == 5,
        ascii_bytes(",\"is_session_claim\":"@)[0] == 44,
        ascii_bytes(",\"user_id\":\""@)[0] == 44,
        ascii_bytes("\"}"@)[0] == 34,
        ascii_bytes("\"}"@)[1] == 125,
        ascii_bytes("true"@)[0] == 116,
        ascii_bytes("false"@)[0] == 102,
{
    reveal_strlit("{\"exp\":");
    reveal_strlit(",\"is_session_claim\":");
    reveal_strlit(",\"user_id\":\"");
    reveal_strlit("\"}");
    reveal_strlit("true");
    reveal_strlit("false");
}

/// Builds the session payload bytes.
pub fn build_session_payload(user_id: &str, expires_at: u64, sess: bool) -> (r: Vec<u8>)
    ensures
        r@ == spec_session_payload(user_id@, expires_at, sess),
{
    proof {
        lemma_session_lits();
    }
    let mut v: Vec<u8> = Vec::new();
    push_str_bytes(&mut v, "{\"exp\":");
    push_dec(&mut v, expires_at);
    push_str_bytes(&mut v, ",\"is_session_claim\":");
    push_bool(&mut v, sess);
    push_str_bytes(&mut v, ",\"user_id\":\"");
    push_escaped(&mut v, user_id);
    push_str_bytes(&mut v, "\"}");
    proof {
        assert(v@ =~= spec_session_payload(user_id@, expires_at, sess));
    }
    v
}

/// Parsing inverts building, for every user id.
pub proof fn lemma_parse_session_payload(user_id: Seq<char>, expires_at: u64, sess: bool)
    ensures
        parse_session_payload(spec_session_payload(user_id, expires_at, sess)) == Some(
            (user_id, expires_at, sess),
        ),
{
    lemma_session_lits();
    lemma_dec_digits_shape(expires_at);
    encode_utf8_valid_utf8(user_id);
    encode_utf8_decode_utf8(user_id);
    let p = spec_session_payload(user_id, expires_at, sess);
    let a1 = ascii_bytes("{\"exp\":"@);
    let d = dec_digits(expires_at);
    let a2 = ascii_bytes(",\"is_session_claim\":"@);
    let bb = ascii_bytes(
        if sess {
            "true"@
        } else {
            "false"@
        },
    );
    let a3 = ascii_bytes(",\"user_id\":\""@);
    let u = escape_bytes(encode_utf8(user_id));
    let a4 = ascii_bytes("\"}"@);
    let e = 7 + d.len() as int;
    let f = e + 20 + bb.len() as int;
    let g = f + 12;
    let q = g + u.len() as int;
    assert(p.len() == q + 2);
    assert(p.subrange(0, 7) =~= a1);
    assert(p.subrange(7, e) =~= d);
    assert(p.subrange(e, e + 20) =~= a2);
    assert(p.subrange(e + 20, f) =~= bb);
    assert(p.subrange(f, g) =~= a3);
    assert(p.subrange(g, q) =~= u);
    assert(p.subrange(q, q + 2) =~= a4);
    assert(starts_with(p, 0, "{\"exp\":"@));
    assert(p[e] == 44);
    lemma_parse_u64_of_dec(p, 7, expires_at);
    assert(starts_with(p, e, ",\"is_session_claim\":"@));
    if sess {
        assert(p.subrange(e + 20, e + 24) =~= ascii_bytes("true"@));
        assert(parse_bool_at(p, e + 20) == Some((true, f)));
    } else {
        assert(p.subrange(e + 20, e + 25) =~= ascii_bytes("false"@));
        assert(p[e + 20] == 102);
        assert(!starts_with(p, e + 20, "true"@)) by {
            if starts_with(p, e + 20, "true"@) {
                assert(p.subrange(e + 20, e + 24)[0] == ascii_bytes("true"@)[0]);
            }
        }
        assert(parse_bool_at(p, e + 20) == Some((false, f)));
    }
    assert(starts_with(p, f, ",\"user_id\":\""@));
    assert(p[q] == 34);
    lemma_unescape_of_escape(p, g, encode_utf8(user_id));
    assert(p[q + 1] == 125);
    assert(decode_utf8(encode_utf8(user_id)) == user_id);
}

/// Reads the session payload fields out of payload bytes.
pub fn read_session_payload(p: &[u8]) -> (r: Option<(String, u64, bool)>)
    ensures
        match r {
            Some((uid, exp, sess)) => parse_session_payload(p@) == Some((uid@, exp, sess)),
            None => parse_session_payload(p@) is None,
        },
{
    proof {
        lemma_session_lits();
    }
    let n = p.len();
    if !match_lit(p, 0, "{\"exp\":") {
        return None;
    }
    let (exp, e) = match read_u64_at(p, 7) {
        Some(x) => x,
        None => {
            return None;
        },
    };
    if !match_lit(p, e, ",\"is_session_claim\":") {
        return None;
    }
    assert(e + 20 <= n);
    let (sess, f) = match read_bool_at(p, e + 20) {
        Some(x) => x,
        None => {
            return None;
        },
    };
    if !match_lit(p, f, ",\"user_id\":\"") {
        return None;
    }
    assert(f + 12 <= n);
    let g = f + 12;
    let (uid_bytes, q) = match read_value(p, g) {
        Some(x) => x,
        None => {
            return None;
        },
    };
    if !(q < n - 1 && q + 2 == n && p[q + 1] == 125) {
        return None;
    }
    let uid = match utf8_to_string(uid_bytes) {
        Some(s) => s,
        None => {
            return None;
        },
    };
    proof {
        encode_utf8_valid_utf8(uid@);
        encode_utf8_decode_utf8(uid@);
    }
    Some((uid, exp, sess))
}

/// What decoding a session token yields: the payload fields, provided the
/// token verifies, marks a session, and has not expired by `now`.
pub open spec fn spec_session_decode(t: Seq<char>, secret: Seq<u8>, now: u64) -> Option<
    (Seq<char>, u64, bool),
> {
    match spec_token_payload(t, secret) {
        None => None,
        Some(p) => match parse_session_payload(p) {
            None => None,
            Some((uid, exp, sess)) => if sess && now < exp {
                Some((uid, exp, sess))
            } else {
                None
            },
        },
    }
}

impl AuthorizationClaim {
    /// This claim's payload bytes.
    pub open spec fn payload(self) -> Seq<u8> {
        spec_session_payload(self.user_id@, self.expires_at, self.is_session_claim)
    }

    /// A fresh session claim for a user, expiring 168 hours from `now`.
    pub fn new(user_id: String, now: u64) -> (r: Self)
        requires
            now + SESSION_TTL_SECONDS <= u64::MAX,
        ensures
            r.user_id == user_id,
            r.expires_at == now + SESSION_TTL_SECONDS,
            r.is_session_claim,
    {
        AuthorizationClaim { user_id, expires_at: now + SESSION_TTL_SECONDS, is_session_claim: true }
    }

    /// The signed token carrying this claim.
    pub fn token(&self, keys: &Keys) -> (t: String)
        ensures
            t@ == spec_token(self.payload(), keys.secret@),
    {
        let p = build_session_payload(self.user_id.as_str(), self.expires_at, self.is_session_claim);
        make_token(p.as_slice(), keys)
    }

    /// The Set-Cookie value carrying this claim's token.
    pub fn cookie(&self, keys: &Keys) -> (c: String)
        ensures
            c@ == spec_cookie(spec_token(self.payload(), keys.secret@), false),
    {
        let t = self.token(keys);
        build_cookie(t.as_str(), false)
    }

    /// Reconstructs and validates a claim from a token: the signature must
    /// verify under `keys`, the payload must mark a session, and the
    /// expiry must lie after `now`.
    pub fn from_token(token: &str, keys: &Keys, now: u64) -> (r: Result<Self, ClaimsError>)
        ensures
            match r {
                Ok(c) => {
                    &&& spec_session_decode(token@, keys.secret@, now) == Some(
                        (c.user_id@, c.expires_at, c.is_session_claim),
                    )
                    &&& c.is_session_claim
                    &&& now < c.expires_at
                },
                Err(e) => {
                    &&& spec_session_decode(token@, keys.secret@, now) is None
                    &&& e == ClaimsError::InvalidToken
                },
            },
    {
        let p = match token_payload(token, keys) {
            Some(p) => p,
            None => {
                return Err(ClaimsError::InvalidToken);
            },
        };
        let (user_id, expires_at, is_session_claim) = match read_session_payload(p.as_slice()) {
            Some(x) => x,
            None => {
                return Err(ClaimsError::InvalidToken);
            },
        };
        if is_session_claim && now < expires_at {
            Ok(AuthorizationClaim { user_id, expires_at, is_session_claim })
        } else {
            Err(ClaimsError::InvalidToken)
        }
    }

    /// Produces the claim carried by the `token` cookie of a request, or
    /// the typed rejection: no header or no such cookie is
    /// `TokenNotFound`; a token failing the shape, signature, session or
    /// expiry checks is `InvalidToken`.
    pub fn from_cookie_header(header: Option<&str>, keys: &Keys, now: u64) -> (r: Result<
        Self,
        ClaimsError,
    >)
        ensures
            match header {
                None => r == Err::<Self, ClaimsError>(ClaimsError::TokenNotFound),
                Some(h) => match extract_cookie(h@, "token"@) {
                    None => r == Err::<Self, ClaimsError>(ClaimsError::TokenNotFound),
                    Some(tok) => match r {
                        Ok(c) => {
                            &&& spec_session_decode(tok, keys.secret@, now) == Some(
                                (c.user_id@, c.expires_at, c.is_session_claim),
                            )
                            &&& c.is_session_claim
                            &&& now < c.expires_at
                        },
                        Err(e) => {
                            &&& spec_session_decode(tok, keys.secret@, now) is None
                            &&& e == ClaimsError::InvalidToken
                        },
                    },
                },
            },
    {
        let h = match header {
            Some(h) => h,
            None => {
                return Err(ClaimsError::TokenNotFound);
            },
        };
        let token = match extract_cookie_value(h, "token") {
            Some(t) => t,
            None => {
                return Err(ClaimsError::TokenNotFound);
            },
        };
        Self::from_token(token.as_str(), keys, now)
    }
}

/// While unexpired, decoding a session token returns the claim that was
/// encoded, field for field.
pub proof fn lemma_session_round_trip(c: AuthorizationClaim, secret: Seq<u8>, now: u64)
    requires
        c.is_session_claim,
        now < c.expires_at,
    ensures
        spec_session_decode(spec_token(c.payload(), secret), secret, now) == Some(
            (c.user_id@, c.expires_at, c.is_session_claim),
        ),
{
    lemma_token_round_trip(c.payload(), secret);
    lemma_parse_session_payload(c.user_id@, c.expires_at, c.is_session_claim);
}

/// A token whose expiry lies at or before `now` is rejected, however
/// valid its signature: expiry is checked against the clock alone.
pub proof fn lemma_session_rejects_expired(c: AuthorizationClaim, secret: Seq<u8>, now: u64)
    requires
        c.expires_at <= now,
    ensures
        spec_session_decode(spec_token(c.payload(), secret), secret, now) is None,
{
    lemma_token_round_trip(c.payload(), secret);
    lemma_parse_session_payload(c.user_id@, c.expires_at, c.is_session_claim);
}

/// Whatever its payload spells, a token is accepted only when its
/// signature segment is the keyed tag of its first two segments: one
/// signed under another secret is accepted only if the two secrets give
/// the same tag, which a keyed MAC exists to prevent.
pub proof fn lemma_session_decode_demands_signature(t: Seq<char>, secret: Seq<u8>, now: u64)
    ensures
        spec_session_decode(t, secret, now) is Some ==> {
            let j = crate::token::find_dot(t, crate::token::header64().len() as int + 1);
            &&& j < t.len()
            &&& t.subrange(j + 1, t.len() as int) == crate::sign::hmac_tag_of(
                ascii_bytes(t.subrange(0, j)),
                secret,
            )
        },
{
}

} // verus!
