//! The password-reset claim: a short-lived, two-phase assertion carrying
//! a one-time code; `authorized` turns true only when the code is matched.

use vstd::prelude::*;
use vstd::utf8::{encode_utf8, decode_utf8, valid_utf8, encode_utf8_valid_utf8, encode_utf8_decode_utf8};
use rand::Rng;
use crate::text::{
    ascii_bytes, dec_digits, ascii_to_string, utf8_to_string, push_str_bytes, push_dec,
    lemma_dec_digits_shape, upper_seq, eq_upper,
};
use crate::payload::{
    starts_with, parse_u64_at, parse_bool_at, unescape_value, escape_bytes, read_u64_at,
    read_bool_at, read_value, match_lit, push_bool, push_escaped, lemma_parse_u64_of_dec,
    lemma_unescape_of_escape,
};
use crate::sign::Keys;
use crate::token::{spec_token, spec_token_payload, make_token, token_payload, lemma_token_round_trip};
use crate::cookie::{spec_cookie, build_cookie};
use crate::errors::ClaimsError;

verus! {

/// Seconds a fresh reset claim lives: 15 minutes.
pub const RESET_TTL_SECONDS: u64 = 900;

/// Characters of the one-time code.
pub const CODE_LENGTH: usize = 6;

/// A character the one-time code may hold: an uppercase letter or digit.
pub open spec fn is_code_char(c: char) -> bool {
    ('0' <= c <= '9') || ('A' <= c <= 'Z')
}

pub open spec fn is_alnum_byte(b: u8) -> bool {
    (48 <= b <= 57) || (65 <= b <= 90) || (97 <= b <= 122)
}

/// A reset claim, carried signed in a cookie while the client proves
/// possession of the emailed one-time code.
#[derive(Debug, Clone, PartialEq, Eq)]
pub struct PasswordResetClaim {
    pub email: String,
    pub code: String,
    pub expires_at: u64,
    pub authorized: bool,
}

/// The JSON payload of a reset claim, fields in fixed order, the code and
/// the email escaped.
pub open spec fn spec_reset_payload(
    email: Seq<char>,
    code: Seq<char>,
    expires_at: u64,
    authorized: bool,
) -> Seq<u8> {
    ascii_bytes("{\"authorized\":"@) + ascii_bytes(
        if authorized {
            "true"@
        } else {
            "false"@
        },
    ) + ascii_bytes(",\"code\":\""@) + escape_bytes(encode_utf8(code)) + ascii_bytes(
        "\",\"email\":\""@,
    ) + escape_bytes(encode_utf8(email)) + ascii_bytes("\",\"exp\":"@) + dec_digits(expires_at)
        + ascii_bytes("}"@)
}

/// The fields spelled by a reset payload, read strictly.
pub open spec fn parse_reset_payload(p: Seq<u8>) -> Option<(Seq<char>, Seq<char>, u64, bool)> {
    if !starts_with(p, 0, "{\"authorized\":"@) {
        None
    } else {
        match parse_bool_at(p, "{\"authorized\":"@.len() as int) {
            None => None,
            Some((authorized, e)) => if !starts_with(p, e, ",\"code\":\""@) {
                None
            } else {
                let g1 = e + ",\"code\":\""@.len();
                match unescape_value(p, g1) {
                    None => None,
                    Some((uc, q1)) => if !starts_with(p, q1, "\",\"email\":\""@) {
                        None
                    } else {
                        let g2 = q1 + "\",\"email\":\""@.len();
                        match unescape_value(p, g2) {
                            None => None,
                            Some((ue, q2)) => if !starts_with(p, q2, "\",\"exp\":"@) {
                                None
                            } else {
                                match parse_u64_at(p, q2 + "\",\"exp\":"@.len()) {
                                    None => None,
                                    Some((exp, e2)) => if e2 + 1 == p.len() && p[e2] == 125
                                        && valid_utf8(uc) && valid_utf8(ue) {
                                        Some((decode_utf8(ue), decode_utf8(uc), exp, authorized))
                                    } else {
                                        None
                                    },
                                }
                            },
                        }
                    },
                }
            },
        }
    }
}

proof fn lemma_reset_lits()
    ensures
        vstd::utf8::is_ascii_chars("{\"authorized\":"@),
        vstd::utf8::is_ascii_chars(",\"code\":\""@),
        vstd::utf8::is_ascii_chars("\",\"email\":\""@),
        vstd::utf8::is_ascii_chars("\",\"exp\":"@),
        vstd::utf8::is_ascii_chars("}"@),
        "{\"authorized\":"@.len() == 14,
        ",\"code\":\""@.len() == 9,
        "\",\"email\":\""@.len() == 11,
        "\",\"exp\":"@.len() == 8,
        "}"@.len() == 1,
        ascii_bytes(",\"code\":\""@)[0] == 44,
        ascii_bytes("\",\"email\":\""@)[0] == 34,
        ascii_bytes("\",\"exp\":"@)[0] == 34,
        ascii_bytes("}"@)[0] == 125,
        ascii_bytes("true"@)[0] == 116,
        ascii_bytes("false"@)[0] == 102,
        "true"@.len() == 4,
        "false"@.len() == 5,
        vstd::utf8::is_ascii_chars("true"@),
        vstd::utf8::is_ascii_chars("false"@),
{
    reveal_strlit("{\"authorized\":");
    reveal_strlit(",\"code\":\"");
    reveal_strlit("\",\"email\":\"");
    reveal_strlit("\",\"exp\":");
    reveal_strlit("}");
    reveal_strlit("true");
    reveal_strlit("false");
}

/// Builds the reset payload bytes.
pub fn build_reset_payload(email: &str, code: &str, expires_at: u64, authorized: bool) -> (r: Vec<
    u8,
>)
    ensures
        r@ == spec_reset_payload(email@, code@, expires_at, authorized),
{
    proof {
        lemma_reset_lits();
    }
    let mut v: Vec<u8> = Vec::new();
    push_str_bytes(&mut v, "{\"authorized\":");
    push_bool(&mut v, authorized);
    push_str_bytes(&mut v, ",\"code\":\"");
    push_escaped(&mut v, code);
    push_str_bytes(&mut v, "\",\"email\":\"");
    push_escaped(&mut v, email);
    push_str_bytes(&mut v, "\",\"exp\":");
    push_dec(&mut v, expires_at);
    push_str_bytes(&mut v, "}");
    proof {
        assert(v@ =~= spec_reset_payload(email@, code@, expires_at, authorized));
    }
    v
}

/// Parsing inverts building, for every email and code.
pub proof fn lemma_parse_reset_payload(
    email: Seq<char>,
    code: Seq<char>,
    expires_at: u64,
    authorized: bool,
)
    ensures
        parse_reset_payload(spec_reset_payload(email, code, expires_at, authorized)) == Some(
            (email, code, expires_at, authorized),
        ),
{
    lemma_reset_lits();
    lemma_dec_digits_shape(expires_at);
    encode_utf8_valid_utf8(email);
    encode_utf8_decode_utf8(email);
    encode_utf8_valid_utf8(code);
    encode_utf8_decode_utf8(code);
    let p = spec_reset_payload(email, code, expires_at, authorized);
    let bb = ascii_bytes(
        if authorized {
            "true"@
        } else {
            "false"@
        },
    );
    let co = escape_bytes(encode_utf8(code));
    let em = escape_bytes(encode_utf8(email));
    let d = dec_digits(expires_at);
    let e = 14 + bb.len() as int;
    let g1 = e + 9;
    let q1 = g1 + co.len() as int;
    let g2 = q1 + 11;
    let q2 = g2 + em.len() as int;
    let e2 = q2 + 8 + d.len() as int;
    assert(p.len() == e2 + 1);
    assert(p.subrange(0, 14) =~= ascii_bytes("{\"authorized\":"@));
    assert(p.subrange(14, e) =~= bb);
    assert(p.subrange(e, g1) =~= ascii_bytes(",\"code\":\""@));
    assert(p.subrange(g1, q1) =~= co);
    assert(p.subrange(q1, g2) =~= ascii_bytes("\",\"email\":\""@));
    assert(p.subrange(g2, q2) =~= em);
    assert(p.subrange(q2, q2 + 8) =~= ascii_bytes("\",\"exp\":"@));
    assert(p.subrange(q2 + 8, e2) =~= d);
    assert(p.subrange(e2, e2 + 1) =~= ascii_bytes("}"@));
    assert(starts_with(p, 0, "{\"authorized\":"@));
    if authorized {
        assert(p.subrange(14, 18) =~= ascii_bytes("true"@));
        assert(parse_bool_at(p, 14) == Some((true, e)));
    } else {
        assert(p.subrange(14, 19) =~= ascii_bytes("false"@));
        assert(p[14] == 102);
        assert(!starts_with(p, 14, "true"@)) by {
            if starts_with(p, 14, "true"@) {
                assert(p.subrange(14, 18)[0] == ascii_bytes("true"@)[0]);
            }
        }
        assert(parse_bool_at(p, 14) == Some((false, e)));
    }
    assert(starts_with(p, e, ",\"code\":\""@));
    assert(p[q1] == 34);
    lemma_unescape_of_escape(p, g1, encode_utf8(code));
    assert(starts_with(p, q1, "\",\"email\":\""@));
    assert(p[q2] == 34);
    lemma_unescape_of_escape(p, g2, encode_utf8(email));
    assert(starts_with(p, q2, "\",\"exp\":"@));
    assert(p[e2] == 125);
    lemma_parse_u64_of_dec(p, q2 + 8, expires_at);
    assert(decode_utf8(encode_utf8(code)) == code);
    assert(decode_utf8(encode_utf8(email)) == email);
}

/// Reads the reset payload fields out of payload bytes.
pub fn read_reset_payload(p: &[u8]) -> (r: Option<(String, String, u64, bool)>)
    ensures
        match r {
            Some((email, code, exp, authorized)) => parse_reset_payload(p@) == Some(
                (email@, code@, exp, authorized),
            ),
            None => parse_reset_payload(p@) is None,
        },
{
    proof {
        lemma_reset_lits();
    }
    let n = p.len();
    if !match_lit(p, 0, "{\"authorized\":") {
        return None;
    }
    let (authorized, e) = match read_bool_at(p, 14) {
        Some(x) => x,
        None => {
            return None;
        },
    };
    if !match_lit(p, e, ",\"code\":\"") {
        return None;
    }
    assert(e + 9 <= n);
    let g1 = e + 9;
    let (code_bytes, q1) = match read_value(p, g1) {
        Some(x) => x,
        None => {
            return None;
        },
    };
    if !match_lit(p, q1, "\",\"email\":\"") {
        return None;
    }
    assert(q1 + 11 <= n);
    let g2 = q1 + 11;
    let (email_bytes, q2) = match read_value(p, g2) {
        Some(x) => x,
        None => {
            return None;
        },
    };
    if !match_lit(p, q2, "\",\"exp\":") {
        return None;
    }
    assert(q2 + 8 <= n);
    let (exp, e2) = match read_u64_at(p, q2 + 8) {
        Some(x) => x,
        None => {
            return None;
        },
    };
    if !(e2 < n && e2 + 1 == n && p[e2] == 125) {
        return None;
    }
    let code = match utf8_to_string(code_bytes) {
        Some(s) => s,
        None => {
            return None;
        },
    };
    let email = match utf8_to_string(email_bytes) {
        Some(s) => s,
        None => {
            return None;
        },
    };
    proof {
        encode_utf8_valid_utf8(code@);
        encode_utf8_decode_utf8(code@);
        encode_utf8_valid_utf8(email@);
        encode_utf8_decode_utf8(email@);
    }
    Some((email, code, exp, authorized))
}

/// Relies on rand's `Alphanumeric` distribution: every sampled byte is an
/// ASCII letter or digit, whatever the generator returns.
#[verifier::external_body]
fn random_alphanumeric_bytes(n: usize) -> (r: Vec<u8>)
    ensures
        r@.len() == n,
        forall|i: int| 0 <= i < r@.len() ==> is_alnum_byte(#[trigger] r@[i]),
{
    rand::rng().sample_iter(rand::distr::Alphanumeric).take(n).collect()
}

/// A fresh one-time code: uppercase alphanumeric characters.
fn random_code(n: usize) -> (r: String)
    ensures
        r@.len() == n,
        forall|i: int| 0 <= i < r@.len() ==> is_code_char(#[trigger] r@[i]),
{
    let raw = random_alphanumeric_bytes(n);
    let mut up: Vec<u8> = Vec::new();
    let mut i: usize = 0;
    while i < raw.len()
        invariant
            i <= raw@.len(),
            raw@.len() == n,
            up@.len() == i,
            forall|k: int| 0 <= k < raw@.len() ==> is_alnum_byte(#[trigger] raw@[k]),
            forall|k: int|
                0 <= k < i ==> ((48 <= #[trigger] up@[k] <= 57) || (65 <= up@[k] <= 90)),
        decreases raw@.len() - i,
    {
        let b = raw[i];
        if 97 <= b && b <= 122 {
            up.push(b - 32);
        } else {
            up.push(b);
        }
        i = i + 1;
    }
    let code = ascii_to_string(up);
    proof {
        assert forall|k: int| 0 <= k < code@.len() implies is_code_char(#[trigger] code@[k]) by {
            assert(code@[k] == up@[k] as char);
            assert(code@[k] as u8 == up@[k]);
        }
    }
    code
}

/// What decoding a reset token yields: the payload fields, provided the
/// token verifies and has not expired by `now`.
pub open spec fn spec_reset_decode(t: Seq<char>, secret: Seq<u8>, now: u64) -> Option<
    (Seq<char>, Seq<char>, u64, bool),
> {
    match spec_token_payload(t, secret) {
        None => None,
        Some(p) => match parse_reset_payload(p) {
            None => None,
            Some((email, code, exp, authorized)) => if now < exp {
                Some((email, code, exp, authorized))
            } else {
                None
            },
        },
    }
}

impl PasswordResetClaim {
    /// This claim's payload bytes.
    pub open spec fn payload(self) -> Seq<u8> {
        spec_reset_payload(self.email@, self.code@, self.expires_at, self.authorized)
    }

    /// A fresh, unauthorized reset claim for an email, carrying a random
    /// six-character uppercase alphanumeric code and expiring fifteen
    /// minutes from `now`.
    pub fn new(email: String, now: u64) -> (r: Self)
        requires
            now + RESET_TTL_SECONDS <= u64::MAX,
        ensures
            r.email == email,
            r.expires_at == now + RESET_TTL_SECONDS,
            !r.authorized,
            r.code@.len() == CODE_LENGTH as int,
            forall|i: int| 0 <= i < r.code@.len() ==> is_code_char(#[trigger] r.code@[i]),
    {
        let code = random_code(CODE_LENGTH);
        PasswordResetClaim { email, code, expires_at: now + RESET_TTL_SECONDS, authorized: false }
    }

    /// Marks the claim authorized exactly when the submitted code,
    /// uppercased, spells the stored code; otherwise leaves it unchanged.
    /// Matching is case-insensitive by uppercasing the submission.
    pub fn authorize(&mut self, submitted_code: &str) -> (r: bool)
        ensures
            r == (upper_seq(submitted_code@) == old(self).code@),
            final(self).email == old(self).email,
            final(self).code == old(self).code,
            final(self).expires_at == old(self).expires_at,
            final(self).authorized == (old(self).authorized || r),
    {
        let ok = eq_upper(submitted_code, self.code.as_str());
        if ok {
            self.authorized = true;
        }
        ok
    }

    /// The signed token carrying this claim.
    pub fn token(&self, keys: &Keys) -> (t: String)
        ensures
            t@ == spec_token(self.payload(), keys.secret@),
    {
        let p = build_reset_payload(
            self.email.as_str(),
            self.code.as_str(),
            self.expires_at,
            self.authorized,
        );
        make_token(p.as_slice(), keys)
    }

    /// The Set-Cookie value carrying this claim's token, `Secure` set.
    pub fn cookie(&self, keys: &Keys) -> (c: String)
        ensures
            c@ == spec_cookie(spec_token(self.payload(), keys.secret@), true),
    {
        let t = self.token(keys);
        build_cookie(t.as_str(), true)
    }

    /// Reconstructs and validates a claim from a token: the signature must
    /// verify under `keys` and the expiry must lie after `now`.
    pub fn from_token(token: &str, keys: &Keys, now: u64) -> (r: Result<Self, ClaimsError>)
        ensures
            match r {
                Ok(c) => {
                    &&& spec_reset_decode(token@, keys.secret@, now) == Some(
                        (c.email@, c.code@, c.expires_at, c.authorized),
                    )
                    &&& now < c.expires_at
                },
                Err(e) => {
                    &&& spec_reset_decode(token@, keys.secret@, now) is None
                    &&& e == ClaimsError::InvalidToken
                },
            },
    {
        let p = match token_payload(token, keys) {
            Some(p) => p,
            None => {
                return Err(ClaimsError::InvalidToken);
            },
        };
        let (email, code, expires_at, authorized) = match read_reset_payload(p.as_slice()) {
            Some(x) => x,
            None => {
                return Err(ClaimsError::InvalidToken);
            },
        };
        if now < expires_at {
            Ok(PasswordResetClaim { email, code, expires_at, authorized })
        } else {
            Err(ClaimsError::InvalidToken)
        }
    }

    /// Produces the claim carried by the `token` cookie of a request, or
    /// the typed rejection: no header or no such cookie is
    /// `TokenNotFound`; a token failing shape, signature or expiry checks
    /// is `InvalidToken`.
    pub fn from_cookie_header(header: Option<&str>, keys: &Keys, now: u64) -> (r: Result<
        Self,
        ClaimsError,
    >)
        ensures
            match header {
                None => r == Err::<Self, ClaimsError>(ClaimsError::TokenNotFound),
                Some(h) => match crate::cookie::extract_cookie(h@, "token"@) {
                    None => r == Err::<Self, ClaimsError>(ClaimsError::TokenNotFound),
                    Some(tok) => match r {
                        Ok(c) => {
                            &&& spec_reset_decode(tok, keys.secret@, now) == Some(
                                (c.email@, c.code@, c.expires_at, c.authorized),
                            )
                            &&& now < c.expires_at
                        },
                        Err(e) => {
                            &&& spec_reset_decode(tok, keys.secret@, now) is None
                            &&& e == ClaimsError::InvalidToken
                        },
                    },
                },
            },
    {
        let h = match header {
            Some(h) => h,
            None => {
                return Err(ClaimsError::TokenNotFound);
            },
        };
        let token = match crate::cookie::extract_cookie_value(h, "token") {
            Some(t) => t,
            None => {
                return Err(ClaimsError::TokenNotFound);
            },
        };
        Self::from_token(token.as_str(), keys, now)
    }
}

/// While unexpired, decoding a reset token returns the claim that was
/// encoded, field for field.
pub proof fn lemma_reset_round_trip(c: PasswordResetClaim, secret: Seq<u8>, now: u64)
    requires
        now < c.expires_at,
    ensures
        spec_reset_decode(spec_token(c.payload(), secret), secret, now) == Some(
            (c.email@, c.code@, c.expires_at, c.authorized),
        ),
{
    lemma_token_round_trip(c.payload(), secret);
    lemma_parse_reset_payload(c.email@, c.code@, c.expires_at, c.authorized);
}

/// Whatever its payload spells, a reset token is accepted only when its
/// signature segment is the keyed tag of its first two segments under the
/// decoding secret: one signed under another secret is accepted only if
/// the two secrets give the same tag, which a keyed MAC exists to prevent.
pub proof fn lemma_reset_decode_demands_signature(t: Seq<char>, secret: Seq<u8>, now: u64)
    ensures
        spec_reset_decode(t, secret, now) is Some ==> {
            let j = crate::token::find_dot(t, crate::token::header64().len() as int + 1);
            &&& j < t.len()
            &&& t.subrange(j + 1, t.len() as int) == crate::sign::hmac_tag_of(
                ascii_bytes(t.subrange(0, j)),
                secret,
            )
        },
{
}

/// A reset token whose expiry lies at or before `now` is rejected,
/// however valid its signature.
pub proof fn lemma_reset_rejects_expired(c: PasswordResetClaim, secret: Seq<u8>, now: u64)
    requires
        c.expires_at <= now,
    ensures
        spec_reset_decode(spec_token(c.payload(), secret), secret, now) is None,
{
    lemma_token_round_trip(c.payload(), secret);
    lemma_parse_reset_payload(c.email@, c.code@, c.expires_at, c.authorized);
}

} // verus!
