//! The compact signed token: a fixed protected header, a base64url JSON
//! payload, and a keyed signature over the first two segments.

use vstd::prelude::*;
use vstd::string::StrSliceExecFns;
use vstd::string::StringSliceAdditionalSpecFns;
use crate::text::{ascii_bytes, bytes_chars, ascii_to_string, push_str_bytes, str_eq};
use crate::b64::{
    b64_encode, b64_decode, is_b64_seq, is_b64_char, push_b64, b64_decode_str,
    lemma_b64_encode_chars, lemma_b64_char_props, lemma_b64_round_trip,
};
use crate::sign::{Keys, hmac_tag_of, hmac_sign, hmac_verify};

verus! {

/// The JSON of the protected header: type and signing algorithm.
pub open spec fn header_json() -> Seq<char> {
    "{\"typ\":\"JWT\",\"alg\":\"HS256\"}"@
}

pub proof fn lemma_header_json()
    ensures
        header_json().len() == 27,
        vstd::utf8::is_ascii_chars(header_json()),
{
    reveal_strlit("{\"typ\":\"JWT\",\"alg\":\"HS256\"}");
}

/// The first token segment: base64url of the header JSON.
pub open spec fn header64() -> Seq<char> {
    b64_encode(ascii_bytes(header_json()))
}

/// The signed part of a token over a given payload.
pub open spec fn signing_input(payload: Seq<u8>) -> Seq<char> {
    header64() + "."@ + b64_encode(payload)
}

/// The token issued over a JSON payload under a secret.
pub open spec fn spec_token(payload: Seq<u8>, secret: Seq<u8>) -> Seq<char> {
    signing_input(payload) + "."@ + hmac_tag_of(ascii_bytes(signing_input(payload)), secret)
}

/// The first position at or after `from` holding a dot, or the length.
pub open spec fn find_dot(t: Seq<char>, from: int) -> int
    recommends
        0 <= from <= t.len(),
    decreases t.len() - from,
        when 0 <= from <= t.len()
{
    if from >= t.len() {
        t.len() as int
    } else if t[from] == '.' {
        from
    } else {
        find_dot(t, from + 1)
    }
}

pub proof fn lemma_find_dot_at(t: Seq<char>, from: int, j: int)
    requires
        0 <= from <= j <= t.len(),
        forall|k: int| from <= k < j ==> t[k] != '.',
        j < t.len() ==> t[j] == '.',
        j == t.len() || t[j] == '.',
    ensures
        find_dot(t, from) == j,
    decreases j - from,
{
    if from == j {
    } else {
        lemma_find_dot_at(t, from + 1, j);
    }
}

/// The payload bytes carried by a well-signed token, or nothing.
///
/// A token is accepted only when it spells `header64`, a dot, a strict
/// base64url payload, a dot, and the exact tag of the first two segments
/// under the secret; anything else is rejected.
pub open spec fn spec_token_payload(t: Seq<char>, secret: Seq<u8>) -> Option<Seq<u8>> {
    let h = header64();
    let hl = h.len() as int;
    if t.len() < hl + 2 {
        None
    } else if t.subrange(0, hl) != h || t[hl] != '.' {
        None
    } else {
        let j = find_dot(t, hl + 1);
        if j >= t.len() {
            None
        } else {
            let p64 = t.subrange(hl + 1, j);
            let sig = t.subrange(j + 1, t.len() as int);
            match b64_decode(p64) {
                Some(p) => if sig == hmac_tag_of(ascii_bytes(t.subrange(0, j)), secret) {
                    Some(p)
                } else {
                    None
                },
                None => None,
            }
        }
    }
}

/// A strictly decodable segment holds only alphabet characters.
pub proof fn lemma_b64_decode_is_b64(s: Seq<char>)
    requires
        b64_decode(s) is Some,
    ensures
        is_b64_seq(s),
    decreases s.len(),
{
    if s.len() == 0 {
    } else if s.len() == 2 {
        assert(is_b64_char(s[0]) && is_b64_char(s[1]));
        assert forall|i: int| 0 <= i < s.len() implies is_b64_char(#[trigger] s[i]) by {}
    } else if s.len() == 3 {
        assert forall|i: int| 0 <= i < s.len() implies is_b64_char(#[trigger] s[i]) by {}
    } else {
        lemma_b64_decode_is_b64(s.skip(4));
        assert forall|i: int| 0 <= i < s.len() implies is_b64_char(#[trigger] s[i]) by {
            if i >= 4 {
                assert(s.skip(4)[i - 4] == s[i]);
                assert(is_b64_seq(s.skip(4)));
            }
        }
    }
}

pub proof fn lemma_b64_seq_ascii(s: Seq<char>)
    requires
        is_b64_seq(s),
    ensures
        vstd::utf8::is_ascii_chars(s),
        forall|i: int| 0 <= i < s.len() ==> s[i] != '.',
{
    assert forall|i: int| 0 <= i < s.len() implies '\0' <= #[trigger] s[i] <= '\u{7f}' && s[i]
        != '.' by {
        lemma_b64_char_props(s[i]);
    }
}

fn header_json_str() -> (r: &'static str)
    ensures
        r@ == header_json(),
        vstd::string::is_ascii(r),
{
    proof {
        lemma_header_json();
    }
    "{\"typ\":\"JWT\",\"alg\":\"HS256\"}"
}

/// Builds the signed token over a JSON payload.
pub fn make_token(payload: &[u8], keys: &Keys) -> (t: String)
    ensures
        t@ == spec_token(payload@, keys.secret@),
{
    broadcast use vstd::string::is_ascii_spec_bytes;

    let mut v: Vec<u8> = Vec::new();
    let hj = header_json_str();
    proof {
        lemma_header_json();
        assert(hj.spec_bytes() =~= ascii_bytes(header_json()));
    }
    push_b64(&mut v, hj.as_bytes());
    assert(v@ == ascii_bytes(header64()));
    v.push(46);
    push_b64(&mut v, payload);
    proof {
        reveal_strlit(".");
        assert(ascii_bytes("."@) =~= seq![46u8]);
        crate::text::lemma_ascii_bytes_concat(header64(), "."@);
        crate::text::lemma_ascii_bytes_concat(header64() + "."@, b64_encode(payload@));
        assert(v@ =~= ascii_bytes(signing_input(payload@)));
    }
    let tag = hmac_sign(v.as_slice(), keys.secret.as_slice());
    v.push(46);
    proof {
        lemma_b64_seq_ascii(tag@);
    }
    push_str_bytes(&mut v, tag.as_str());
    proof {
        crate::text::lemma_ascii_bytes_concat(signing_input(payload@), "."@);
        crate::text::lemma_ascii_bytes_concat(signing_input(payload@) + "."@, tag@);
        assert(v@ =~= ascii_bytes(spec_token(payload@, keys.secret@)));
        lemma_token_ascii(payload@, keys.secret@, tag@);
    }
    let t = ascii_to_string(v);
    proof {
        assert(t@ =~= spec_token(payload@, keys.secret@));
    }
    t
}

proof fn lemma_token_ascii(payload: Seq<u8>, secret: Seq<u8>, tag: Seq<char>)
    requires
        is_b64_seq(tag),
        tag == hmac_tag_of(ascii_bytes(signing_input(payload)), secret),
    ensures
        forall|i: int|
            0 <= i < spec_token(payload, secret).len() ==> (#[trigger] spec_token(
                payload,
                secret,
            )[i]) <= '\u{7f}',
        bytes_chars(ascii_bytes(spec_token(payload, secret))) =~= spec_token(payload, secret),
{
    reveal_strlit(".");
    lemma_header_json();
    lemma_b64_encode_chars(ascii_bytes(header_json()));
    lemma_b64_encode_chars(payload);
    let t = spec_token(payload, secret);
    assert forall|i: int| 0 <= i < t.len() implies (#[trigger] t[i]) <= '\u{7f}' by {
        let h = header64();
        let p64 = b64_encode(payload);
        let hl = h.len() as int;
        let pl = p64.len() as int;
        if i < hl {
            lemma_b64_char_props(h[i]);
        } else if i == hl {
        } else if i < hl + 1 + pl {
            lemma_b64_char_props(p64[i - hl - 1]);
        } else if i == hl + 1 + pl {
        } else {
            lemma_b64_char_props(tag[i - hl - 2 - pl]);
        }
    }
}

fn find_dot_from(s: &str, from: usize, n: usize) -> (j: usize)
    requires
        n == s@.len(),
        from <= n,
    ensures
        j == find_dot(s@, from as int),
        from <= j <= n,
{
    let mut i: usize = from;
    while i < n
        invariant
            from <= i <= n,
            n == s@.len(),
            forall|k: int| from <= k < i ==> s@[k] != '.',
        decreases n - i,
    {
        let c = s.get_char(i);
        if c == '.' {
            proof {
                lemma_find_dot_at(s@, from as int, i as int);
            }
            return i;
        }
        i = i + 1;
    }
    proof {
        lemma_find_dot_at(s@, from as int, n as int);
    }
    n
}

/// Checks a token's shape and signature and hands back its payload bytes.
pub fn token_payload(token: &str, keys: &Keys) -> (r: Option<Vec<u8>>)
    ensures
        match r {
            Some(p) => spec_token_payload(token@, keys.secret@) == Some(p@),
            None => spec_token_payload(token@, keys.secret@) is None,
        },
{
    broadcast use vstd::string::is_ascii_spec_bytes;

    let ghost t = token@;
    let n = token.unicode_len();
    let hstr = header64_string();
    let hl = hstr.as_str().unicode_len();
    if n < 2 || hl > n - 2 {
        assert(t.len() < header64().len() + 2);
        return None;
    }
    let prefix = token.substring_char(0, hl);
    if !str_eq(prefix, hstr.as_str()) {
        assert(t.subrange(0, hl as int) != header64());
        return None;
    }
    if token.get_char(hl) != '.' {
        return None;
    }
    let j = find_dot_from(token, hl + 1, n);
    if j == n {
        return None;
    }
    let payload = match b64_decode_str(token, hl + 1, j) {
        Some(p) => p,
        None => {
            return None;
        },
    };
    let msg = token.substring_char(0, j);
    proof {
        lemma_header_json();
        lemma_b64_encode_chars(ascii_bytes(header_json()));
        crate::b64::lemma_b64_encode_len(ascii_bytes(header_json()));
        lemma_b64_decode_is_b64(t.subrange(hl + 1, j as int));
        assert forall|i: int| 0 <= i < msg@.len() implies '\0' <= #[trigger] msg@[i]
            <= '\u{7f}' by {
            if i < hl {
                assert(msg@[i] == header64()[i]);
                lemma_b64_char_props(header64()[i]);
            } else if i == hl {
            } else {
                assert(msg@[i] == t.subrange(hl + 1, j as int)[i - hl - 1]);
                lemma_b64_char_props(t.subrange(hl + 1, j as int)[i - hl - 1]);
            }
        }
        assert(vstd::string::is_ascii(msg));
        assert(msg.spec_bytes() =~= ascii_bytes(t.subrange(0, j as int)));
    }
    let sig = token.substring_char(j + 1, n);
    if hmac_verify(sig, msg.as_bytes(), keys.secret.as_slice()) {
        assert(spec_token_payload(t, keys.secret@) == Some(payload@));
        Some(payload)
    } else {
        None
    }
}

/// The first token segment, spelled out.
pub fn header64_string() -> (r: String)
    ensures
        r@ == header64(),
        vstd::string::string_is_ascii(&r),
{
    let mut v: Vec<u8> = Vec::new();
    let hj = header_json_str();
    proof {
        broadcast use vstd::string::is_ascii_spec_bytes;

        lemma_header_json();
        assert(hj.spec_bytes() =~= ascii_bytes(header_json()));
    }
    push_b64(&mut v, hj.as_bytes());
    proof {
        lemma_b64_encode_chars(ascii_bytes(header_json()));
        lemma_b64_seq_ascii(header64());
        assert(bytes_chars(ascii_bytes(header64())) =~= header64());
    }
    ascii_to_string(v)
}

/// A well-formed token decodes to the payload it was issued over.
pub proof fn lemma_token_round_trip(payload: Seq<u8>, secret: Seq<u8>)
    ensures
        spec_token_payload(spec_token(payload, secret), secret) == Some(payload),
{
    reveal_strlit(".");
    lemma_header_json();
    lemma_b64_encode_chars(ascii_bytes(header_json()));
    crate::b64::lemma_b64_encode_len(ascii_bytes(header_json()));
    lemma_b64_encode_chars(payload);
    lemma_b64_round_trip(payload);
    let h = header64();
    let hl = h.len() as int;
    let p64 = b64_encode(payload);
    let pl = p64.len() as int;
    let si = signing_input(payload);
    let tag = hmac_tag_of(ascii_bytes(si), secret);
    let t = spec_token(payload, secret);
    assert(si.len() == hl + 1 + pl);
    assert(t.len() == hl + 2 + pl + tag.len());
    assert(t.subrange(0, hl) =~= h);
    assert(t[hl] == '.');
    assert forall|k: int| hl + 1 <= k < hl + 1 + pl implies t[k] != '.' by {
        assert(t[k] == p64[k - hl - 1]);
        lemma_b64_char_props(p64[k - hl - 1]);
    }
    assert(t[hl + 1 + pl] == '.');
    lemma_find_dot_at(t, hl + 1, hl + 1 + pl);
    let j = hl + 1 + pl;
    assert(t.subrange(hl + 1, j) =~= p64);
    assert(t.subrange(j + 1, t.len() as int) =~= tag);
    assert(t.subrange(0, j) =~= si);
}

/// A token whose signature segment is not the keyed tag of its first two
/// segments is rejected, whatever its payload spells.
pub proof fn lemma_token_rejects_bad_signature(t: Seq<char>, secret: Seq<u8>)
    ensures
        spec_token_payload(t, secret) is Some ==> {
            let j = find_dot(t, header64().len() as int + 1);
            &&& j < t.len()
            &&& t.subrange(j + 1, t.len() as int) == hmac_tag_of(
                ascii_bytes(t.subrange(0, j)),
                secret,
            )
        },
{
}

} // verus!
