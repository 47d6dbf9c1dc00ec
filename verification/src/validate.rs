//! Input validation: password complexity and the shape of an email.

use vstd::prelude::*;
use vstd::string::StrSliceExecFns;
use vstd::string::StringSliceAdditionalSpecFns;
use crate::errors::AuthError;
use crate::cookie::{find_char, find_char_from, lemma_find_char_props};

verus! {

/// Least length an acceptable password may have, in bytes.
pub const PASSWORD_MIN_LENGTH: usize = 8;

/// Whether a character carries the Unicode uppercase property: what
/// std's `char::is_uppercase` answers, a function of the character alone.
pub uninterp spec fn unicode_uppercase(c: char) -> bool;

/// Whether a character carries the Unicode lowercase property: what
/// std's `char::is_lowercase` answers, a function of the character alone.
pub uninterp spec fn unicode_lowercase(c: char) -> bool;

/// Relies on std's `char::is_uppercase`: the Unicode uppercase property
/// of the character.
#[verifier::external_body]
fn char_is_uppercase(c: char) -> (r: bool)
    ensures
        r == unicode_uppercase(c),
{
    c.is_uppercase()
}

/// Relies on std's `char::is_lowercase`: the Unicode lowercase property
/// of the character.
#[verifier::external_body]
fn char_is_lowercase(c: char) -> (r: bool)
    ensures
        r == unicode_lowercase(c),
{
    c.is_lowercase()
}

pub open spec fn has_upper(s: Seq<char>) -> bool {
    exists|i: int| 0 <= i < s.len() && unicode_uppercase(#[trigger] s[i])
}

pub open spec fn has_lower(s: Seq<char>) -> bool {
    exists|i: int| 0 <= i < s.len() && unicode_lowercase(#[trigger] s[i])
}

pub open spec fn has_digit(s: Seq<char>) -> bool {
    exists|i: int| 0 <= i < s.len() && '0' <= #[trigger] s[i] <= '9'
}

pub open spec fn long_enough(s: Seq<char>) -> bool {
    vstd::utf8::encode_utf8(s).len() >= PASSWORD_MIN_LENGTH
}

/// An acceptable password: long enough, with an uppercase letter, a
/// lowercase letter and a digit.
pub open spec fn valid_password(s: Seq<char>) -> bool {
    long_enough(s) && has_upper(s) && has_lower(s) && has_digit(s)
}

/// The rejection an unacceptable password earns, naming what it misses.
pub open spec fn password_rejection(s: Seq<char>) -> AuthError {
    AuthError::InvalidPassword {
        has_uppercase: has_upper(s),
        has_lowercase: has_lower(s),
        has_digit: has_digit(s),
        min_length: PASSWORD_MIN_LENGTH,
        is_long_enough: long_enough(s),
    }
}

/// Accepts exactly the acceptable passwords; the rejection carries the
/// missing pieces.
pub fn is_valid_password(password: &str) -> (r: Result<bool, AuthError>)
    ensures
        match r {
            Ok(b) => b && valid_password(password@),
            Err(e) => !valid_password(password@) && e == password_rejection(password@),
        },
{
    let ghost s = password@;
    let n = password.unicode_len();
    let byte_len = password.as_bytes().len();
    proof {
        assert(byte_len == vstd::utf8::encode_utf8(s).len());
    }
    let mut hu = false;
    let mut hl = false;
    let mut hd = false;
    let mut i: usize = 0;
    while i < n
        invariant
            i <= n,
            n == s.len(),
            s == password@,
            hu == has_upper(s.take(i as int)),
            hl == has_lower(s.take(i as int)),
            hd == has_digit(s.take(i as int)),
        decreases n - i,
    {
        let c = password.get_char(i);
        proof {
            assert(s.take(i + 1).drop_last() =~= s.take(i as int));
            assert(s.take(i + 1).last() == s[i as int]);
            lemma_class_extend(s, i as int);
        }
        if char_is_uppercase(c) {
            hu = true;
        }
        if char_is_lowercase(c) {
            hl = true;
        }
        if '0' <= c && c <= '9' {
            hd = true;
        }
        i = i + 1;
    }
    proof {
        assert(s.take(n as int) =~= s);
    }
    if byte_len >= PASSWORD_MIN_LENGTH && hu && hl && hd {
        Ok(true)
    } else {
        Err(
            AuthError::InvalidPassword {
                has_uppercase: hu,
                has_lowercase: hl,
                has_digit: hd,
                min_length: PASSWORD_MIN_LENGTH,
                is_long_enough: byte_len >= PASSWORD_MIN_LENGTH,
            },
        )
    }
}

proof fn lemma_class_extend(s: Seq<char>, i: int)
    requires
        0 <= i < s.len(),
    ensures
        has_upper(s.take(i + 1)) == (has_upper(s.take(i)) || unicode_uppercase(s[i])),
        has_lower(s.take(i + 1)) == (has_lower(s.take(i)) || unicode_lowercase(s[i])),
        has_digit(s.take(i + 1)) == (has_digit(s.take(i)) || ('0' <= s[i] <= '9')),
{
    let a = s.take(i);
    let b = s.take(i + 1);
    assert(forall|k: int| 0 <= k < a.len() ==> a[k] == b[k]);
    assert(b[i] == s[i]);
    if has_upper(a) {
        let k = choose|k: int| 0 <= k < a.len() && unicode_uppercase(#[trigger] a[k]);
        assert(unicode_uppercase(b[k]));
    }
    if has_lower(a) {
        let k = choose|k: int| 0 <= k < a.len() && unicode_lowercase(#[trigger] a[k]);
        assert(unicode_lowercase(b[k]));
    }
    if has_digit(a) {
        let k = choose|k: int| 0 <= k < a.len() && '0' <= #[trigger] a[k] <= '9';
        assert('0' <= b[k] <= '9');
    }
    if has_upper(b) {
        let k = choose|k: int| 0 <= k < b.len() && unicode_uppercase(#[trigger] b[k]);
        if k < i {
            assert(unicode_uppercase(a[k]));
        }
    }
    if has_lower(b) {
        let k = choose|k: int| 0 <= k < b.len() && unicode_lowercase(#[trigger] b[k]);
        if k < i {
            assert(unicode_lowercase(a[k]));
        }
    }
    if has_digit(b) {
        let k = choose|k: int| 0 <= k < b.len() && '0' <= #[trigger] b[k] <= '9';
        if k < i {
            assert('0' <= a[k] <= '9');
        }
    }
}

/// Last position holding `c`, or minus one.
pub open spec fn rfind_char(s: Seq<char>, c: char) -> int
    decreases s.len(),
{
    if s.len() == 0 {
        -1
    } else if s.last() == c {
        s.len() - 1
    } else {
        rfind_char(s.drop_last(), c)
    }
}

proof fn lemma_rfind_at(s: Seq<char>, j: int, c: char)
    requires
        0 <= j < s.len(),
        s[j] == c,
        forall|k: int| j < k < s.len() ==> s[k] != c,
    ensures
        rfind_char(s, c) == j,
    decreases s.len(),
{
    if j == s.len() - 1 {
    } else {
        assert(s.last() != c);
        assert(s.drop_last()[j] == c);
        lemma_rfind_at(s.drop_last(), j, c);
    }
}

proof fn lemma_rfind_none(s: Seq<char>, c: char)
    requires
        forall|k: int| 0 <= k < s.len() ==> s[k] != c,
    ensures
        rfind_char(s, c) == -1,
    decreases s.len(),
{
    if s.len() > 0 {
        lemma_rfind_none(s.drop_last(), c);
    }
}

/// An acceptable email: holds an `@`, a `.` after the first `@`, and at
/// least one character after the last `.`.
pub open spec fn valid_email(s: Seq<char>) -> bool {
    let at = find_char(s, 0, '@');
    let dot = rfind_char(s, '.');
    at < s.len() && dot >= 0 && at < dot && dot < s.len() - 1
}

fn rfind_char_from(s: &str, n: usize, c: char) -> (r: Option<usize>)
    requires
        n == s@.len(),
    ensures
        match r {
            Some(j) => j < n && rfind_char(s@, c) == j as int,
            None => rfind_char(s@, c) == -1,
        },
{
    let mut i: usize = n;
    while i > 0
        invariant
            i <= n,
            n == s@.len(),
            forall|k: int| i <= k < n ==> s@[k] != c,
        decreases i,
    {
        i = i - 1;
        if s.get_char(i) == c {
            proof {
                lemma_rfind_at(s@, i as int, c);
            }
            return Some(i);
        }
    }
    proof {
        lemma_rfind_none(s@, c);
    }
    None
}

/// Accepts exactly the acceptably shaped emails.
pub fn is_valid_email(email: &str) -> (r: Result<bool, AuthError>)
    ensures
        match r {
            Ok(b) => b && valid_email(email@),
            Err(e) => !valid_email(email@) && e == AuthError::InvalidEmail,
        },
{
    let n = email.unicode_len();
    let at = find_char_from(email, 0, n, '@');
    proof {
        lemma_find_char_props(email@, 0, '@');
    }
    if at == n {
        return Err(AuthError::InvalidEmail);
    }
    let dot = match rfind_char_from(email, n, '.') {
        Some(d) => d,
        None => {
            return Err(AuthError::InvalidEmail);
        },
    };
    if at < dot && dot + 1 < n {
        Ok(true)
    } else {
        Err(AuthError::InvalidEmail)
    }
}

} // verus!
