//! Cookies: the header value a claim rides out on, and the reading of an
//! inbound Cookie header back into the named token.

use vstd::prelude::*;
use vstd::string::{StrSliceExecFns, StringExecFns};
use crate::text::str_eq;

verus! {

/// The Set-Cookie value carrying a token: `Path=/` and `HttpOnly` always,
/// `Secure` for the short-lived reset cookie.
pub open spec fn spec_cookie(token: Seq<char>, secure: bool) -> Seq<char> {
    "token="@ + token + (if secure {
        "; Path=/; HttpOnly; Secure"@
    } else {
        "; Path=/; HttpOnly"@
    })
}

/// Builds the Set-Cookie value for a token.
pub fn build_cookie(token: &str, secure: bool) -> (r: String)
    ensures
        r@ == spec_cookie(token@, secure),
{
    let mut s = String::from_str("token=");
    s.append(token);
    if secure {
        s.append("; Path=/; HttpOnly; Secure");
    } else {
        s.append("; Path=/; HttpOnly");
    }
    s
}

pub open spec fn is_ws(c: char) -> bool {
    c == ' ' || c == '\t'
}

/// First position at or after `from` holding `c`, or the length.
pub open spec fn find_char(s: Seq<char>, from: int, c: char) -> int
    recommends
        0 <= from <= s.len(),
    decreases s.len() - from,
        when 0 <= from <= s.len()
{
    if from >= s.len() {
        s.len() as int
    } else if s[from] == c {
        from
    } else {
        find_char(s, from + 1, c)
    }
}

pub proof fn lemma_find_char_at(s: Seq<char>, from: int, j: int, c: char)
    requires
        0 <= from <= j <= s.len(),
        forall|k: int| from <= k < j ==> s[k] != c,
        j == s.len() || s[j] == c,
    ensures
        find_char(s, from, c) == j,
    decreases j - from,
{
    if from < j {
        lemma_find_char_at(s, from + 1, j, c);
    }
}

pub proof fn lemma_find_char_props(s: Seq<char>, from: int, c: char)
    requires
        0 <= from <= s.len(),
    ensures
        from <= find_char(s, from, c) <= s.len(),
        find_char(s, from, c) < s.len() ==> s[find_char(s, from, c)] == c,
        forall|k: int| from <= k < find_char(s, from, c) ==> s[k] != c,
    decreases s.len() - from,
{
    if from < s.len() && s[from] != c {
        lemma_find_char_props(s, from + 1, c);
    }
}

/// First position at or after `from` holding something besides a space
/// or a tab, or the length.
pub open spec fn skip_ws(s: Seq<char>, from: int) -> int
    recommends
        0 <= from <= s.len(),
    decreases s.len() - from,
        when 0 <= from <= s.len()
{
    if from >= s.len() {
        s.len() as int
    } else if is_ws(s[from]) {
        skip_ws(s, from + 1)
    } else {
        from
    }
}

proof fn lemma_skip_ws_at(s: Seq<char>, from: int, j: int)
    requires
        0 <= from <= j <= s.len(),
        forall|k: int| from <= k < j ==> is_ws(#[trigger] s[k]),
        j == s.len() || !is_ws(s[j]),
    ensures
        skip_ws(s, from) == j,
    decreases j - from,
{
    if from < j {
        lemma_skip_ws_at(s, from + 1, j);
    }
}

/// Position after the last character below `upto` that is not a space or
/// a tab, or zero.
pub open spec fn trim_end_idx(s: Seq<char>, upto: int) -> int
    recommends
        0 <= upto <= s.len(),
    decreases upto,
        when 0 <= upto <= s.len()
{
    if upto <= 0 {
        0
    } else if is_ws(s[upto - 1]) {
        trim_end_idx(s, upto - 1)
    } else {
        upto
    }
}

proof fn lemma_trim_end_at(s: Seq<char>, upto: int, b: int)
    requires
        0 <= b <= upto <= s.len(),
        forall|k: int| b <= k < upto ==> is_ws(#[trigger] s[k]),
        b == 0 || !is_ws(s[b - 1]),
    ensures
        trim_end_idx(s, upto) == b,
    decreases upto - b,
{
    if b < upto {
        lemma_trim_end_at(s, upto - 1, b);
    }
}

/// A cookie segment with the spaces and tabs at its ends dropped.
pub open spec fn trimmed(seg: Seq<char>) -> Seq<char> {
    let a = skip_ws(seg, 0);
    let b = trim_end_idx(seg, seg.len() as int);
    if a < b {
        seg.subrange(a, b)
    } else {
        Seq::empty()
    }
}

/// The value a single `name=value` segment offers for `name`: nothing
/// when the segment has no `=` or names something else.
pub open spec fn match_segment(seg: Seq<char>, name: Seq<char>) -> Option<Seq<char>> {
    let t = trimmed(seg);
    let e = find_char(t, 0, '=');
    if e >= t.len() {
        None
    } else if t.subrange(0, e) == name {
        Some(t.subrange(e + 1, t.len() as int))
    } else {
        None
    }
}

/// The value of the first semicolon-separated segment from `from` on that
/// names `name`, tolerating whitespace around each segment.
pub open spec fn extract_cookie_from(s: Seq<char>, name: Seq<char>, from: int) -> Option<
    Seq<char>,
>
    recommends
        0 <= from <= s.len(),
    decreases s.len() - from,
        when 0 <= from <= s.len()
        via extract_cookie_from_decreases
{
    let k = find_char(s, from, ';');
    match match_segment(s.subrange(from, k), name) {
        Some(v) => Some(v),
        None => if k >= s.len() {
            None
        } else {
            extract_cookie_from(s, name, k + 1)
        },
    }
}

#[via_fn]
proof fn extract_cookie_from_decreases(s: Seq<char>, name: Seq<char>, from: int) {
    lemma_find_char_props(s, from, ';');
}

/// What a whole cookie header offers for `name`.
pub open spec fn extract_cookie(s: Seq<char>, name: Seq<char>) -> Option<Seq<char>> {
    extract_cookie_from(s, name, 0)
}

pub(crate) fn find_char_from(s: &str, from: usize, n: usize, c: char) -> (j: usize)
    requires
        n == s@.len(),
        from <= n,
    ensures
        j == find_char(s@, from as int, c),
        from <= j <= n,
{
    let mut i: usize = from;
    while i < n
        invariant
            from <= i <= n,
            n == s@.len(),
            forall|k: int| from <= k < i ==> s@[k] != c,
        decreases n - i,
    {
        if s.get_char(i) == c {
            proof {
                lemma_find_char_at(s@, from as int, i as int, c);
            }
            return i;
        }
        i = i + 1;
    }
    proof {
        lemma_find_char_at(s@, from as int, n as int, c);
    }
    n
}

fn skip_ws_from(s: &str, from: usize, k: usize) -> (a: usize)
    requires
        from <= k <= s@.len(),
    ensures
        from <= a <= k,
        forall|j: int| from <= j < a ==> is_ws(#[trigger] s@[j]),
        a < k ==> !is_ws(s@[a as int]),
{
    let mut a: usize = from;
    while a < k
        invariant
            from <= a <= k <= s@.len(),
            forall|j: int| from <= j < a ==> is_ws(#[trigger] s@[j]),
        decreases k - a,
    {
        let c = s.get_char(a);
        if !(c == ' ' || c == '\t') {
            return a;
        }
        a = a + 1;
    }
    a
}

fn trim_end_from(s: &str, from: usize, k: usize) -> (b: usize)
    requires
        from <= k <= s@.len(),
    ensures
        from <= b <= k,
        forall|j: int| b <= j < k ==> is_ws(#[trigger] s@[j]),
        b > from ==> !is_ws(s@[b - 1]),
{
    let mut b: usize = k;
    while b > from
        invariant
            from <= b <= k <= s@.len(),
            forall|j: int| b <= j < k ==> is_ws(#[trigger] s@[j]),
        decreases b,
    {
        let c = s.get_char(b - 1);
        if !(c == ' ' || c == '\t') {
            return b;
        }
        b = b - 1;
    }
    b
}

/// Reads the value of the cookie called `cookie_name` out of a Cookie
/// header: the first `name=value` segment whose trimmed name matches,
/// whitespace around segments tolerated; nothing when no segment matches.
pub fn extract_cookie_value(cookies_str: &str, cookie_name: &str) -> (r: Option<String>)
    ensures
        match r {
            Some(v) => extract_cookie(cookies_str@, cookie_name@) == Some(v@),
            None => extract_cookie(cookies_str@, cookie_name@) is None,
        },
{
    let ghost s = cookies_str@;
    let n = cookies_str.unicode_len();
    let mut start: usize = 0;
    loop
        invariant
            s == cookies_str@,
            start <= n,
            n == s.len(),
            extract_cookie(s, cookie_name@) == extract_cookie_from(s, cookie_name@, start as int),
        decreases n - start,
    {
        let ghost seg = s.subrange(start as int, find_char(s, start as int, ';'));
        let k = find_char_from(cookies_str, start, n, ';');
        proof {
            assert(seg == s.subrange(start as int, k as int));
        }
        let a = skip_ws_from(cookies_str, start, k);
        let b = trim_end_from(cookies_str, a, k);
        proof {
            if a < k {
                lemma_skip_ws_at(seg, 0, a - start);
            } else {
                assert(forall|j: int| 0 <= j < seg.len() ==> is_ws(#[trigger] seg[j]));
                lemma_skip_ws_at(seg, 0, seg.len() as int);
            }
            if b > a {
                assert(!is_ws(s[b - 1]));
                lemma_trim_end_at(seg, seg.len() as int, b - start);
            }
        }
        if a < b {
            let ghost t = trimmed(seg);
            proof {
                assert(t =~= s.subrange(a as int, b as int));
            }
            let ghost e_rel = find_char(t, 0, '=');
            let e = find_char_from(cookies_str, a, n, '=');
            proof {
                lemma_find_char_props(s, a as int, '=');
            }
            if e < b {
                proof {
                    assert forall|j: int| 0 <= j < e - a implies t[j] != '=' by {
                        assert(t[j] == s[a + j]);
                    }
                    assert(t[e - a] == s[e as int]);
                    lemma_find_char_at(t, 0, e - a, '=');
                }
                let name_part = cookies_str.substring_char(a, e);
                if str_eq(name_part, cookie_name) {
                    proof {
                        assert(t.subrange(0, e - a) =~= name_part@);
                    }
                    let value = cookies_str.substring_char(e + 1, b);
                    let out = String::from_str(value);
                    proof {
                        assert(t.subrange(e - a + 1, t.len() as int) =~= out@);
                        assert(match_segment(seg, cookie_name@) == Some(out@));
                    }
                    return Some(out);
                }
                proof {
                    assert(t.subrange(0, e - a) =~= s.subrange(a as int, e as int));
                    assert(match_segment(seg, cookie_name@) is None);
                }
            } else {
                proof {
                    assert forall|j: int| 0 <= j < t.len() implies t[j] != '=' by {
                        assert(t[j] == s[a + j]);
                    }
                    lemma_find_char_at(t, 0, t.len() as int, '=');
                    assert(match_segment(seg, cookie_name@) is None);
                }
            }
        } else {
            proof {
                assert(a == b);
                assert(a == k);
                assert forall|j: int| 0 <= j < seg.len() implies is_ws(#[trigger] seg[j]) by {
                    assert(seg[j] == s[start + j]);
                }
                lemma_skip_ws_at(seg, 0, seg.len() as int);
                lemma_trim_end_at(seg, seg.len() as int, 0);
                assert(trimmed(seg) =~= Seq::<char>::empty());
                lemma_find_char_at(Seq::<char>::empty(), 0, 0, '=');
                assert(match_segment(seg, cookie_name@) is None);
            }
        }
        if k == n {
            return None;
        }
        start = k + 1;
    }
}

} // verus!
