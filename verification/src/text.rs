//! ASCII text groundwork: byte/character views, decimal rendering of
//! timestamps, and case folding for one-time codes.

use vstd::prelude::*;

use vstd::string::StrSliceExecFns;

verus! {

/// The bytes of an ASCII character sequence, one byte per character.
pub open spec fn ascii_bytes(s: Seq<char>) -> Seq<u8> {
    Seq::new(s.len(), |i: int| s[i] as u8)
}

/// The characters spelled by a byte sequence, one character per byte.
pub open spec fn bytes_chars(b: Seq<u8>) -> Seq<char> {
    Seq::new(b.len(), |i: int| b[i] as char)
}

pub proof fn lemma_ascii_bytes_concat(a: Seq<char>, b: Seq<char>)
    ensures
        ascii_bytes(a + b) =~= ascii_bytes(a) + ascii_bytes(b),
{
}

/// A character below 128 survives the trip through its byte spelling.
pub proof fn lemma_ascii_char_cast(c: char)
    requires
        c <= '\u{7f}',
    ensures
        (c as u8) as char == c,
{
    vstd::utf8::char_u32_cast(c, c as u32);
    vstd::utf8::char_u32_cast((c as u8) as char, ((c as u8) as char) as u32);
}

/// Characters below 128 survive the trip through their byte spelling.
pub proof fn lemma_bytes_chars_ascii(s: Seq<char>)
    requires
        forall|i: int| 0 <= i < s.len() ==> #[trigger] s[i] <= '\u{7f}',
    ensures
        bytes_chars(ascii_bytes(s)) =~= s,
{
    assert forall|i: int| 0 <= i < s.len() implies bytes_chars(ascii_bytes(s))[i] == s[i] by {
        lemma_ascii_char_cast(s[i]);
        assert(ascii_bytes(s)[i] == s[i] as u8);
        assert(bytes_chars(ascii_bytes(s))[i] == (s[i] as u8) as char);
    }
}

/// Turns ASCII bytes into the string that spells them.
///
/// Relies on `String::from_utf8`: on bytes below 128 (always valid UTF-8)
/// it returns the string whose characters are exactly those bytes.
#[verifier::external_body]
pub fn ascii_to_string(v: Vec<u8>) -> (r: String)
    requires
        forall|i: int| 0 <= i < v@.len() ==> v@[i] < 128,
    ensures
        r@ == bytes_chars(v@),
        r@.len() == v@.len(),
        forall|i: int|
            0 <= i < v@.len() ==> #[trigger] r@[i] == v@[i] as char && r@[i] as u8 == v@[i]
                && r@[i] <= '\u{7f}',
{
    match String::from_utf8(v) {
        Ok(s) => s,
        Err(_) => String::new(),
    }
}

/// Turns UTF-8 bytes into the string that spells them, or nothing.
///
/// Relies on `String::from_utf8`: it succeeds exactly on valid UTF-8,
/// returning the string whose UTF-8 encoding is those bytes.
#[verifier::external_body]
pub fn utf8_to_string(v: Vec<u8>) -> (r: Option<String>)
    ensures
        r matches Some(s) ==> v@ == vstd::utf8::encode_utf8(s@),
        r matches None ==> !vstd::utf8::valid_utf8(v@),
{
    String::from_utf8(v).ok()
}

/// Appends the bytes of an ASCII string slice to a byte buffer.
pub fn push_str_bytes(out: &mut Vec<u8>, s: &str)
    requires
        vstd::string::is_ascii(s),
    ensures
        final(out)@ == old(out)@ + ascii_bytes(s@),
{
    broadcast use vstd::string::is_ascii_spec_bytes;

    let b = s.as_bytes();
    assert(b@ =~= ascii_bytes(s@));
    let mut i: usize = 0;
    while i < b.len()
        invariant
            i <= b@.len(),
            b@ =~= ascii_bytes(s@),
            out@ == old(out)@ + b@.subrange(0, i as int),
        decreases b@.len() - i,
    {
        out.push(b[i]);
        i = i + 1;
        assert(out@ =~= old(out)@ + b@.subrange(0, i as int));
    }
    assert(b@.subrange(0, b@.len() as int) =~= b@);
}

/// Decimal digit bytes of `n`, most significant first, no leading zeros.
pub open spec fn dec_digits(n: u64) -> Seq<u8>
    decreases n,
{
    if n < 10 {
        seq![(48 + n) as u8]
    } else {
        dec_digits(n / 10) + seq![(48 + n % 10) as u8]
    }
}

pub open spec fn is_digit_byte(b: u8) -> bool {
    48 <= b <= 57
}

/// The number spelled by a run of digit bytes, most significant first.
pub open spec fn dec_value(digits: Seq<u8>) -> int
    decreases digits.len(),
{
    if digits.len() == 0 {
        0
    } else {
        dec_value(digits.drop_last()) * 10 + (digits.last() - 48)
    }
}

pub proof fn lemma_dec_digits_shape(n: u64)
    ensures
        dec_digits(n).len() >= 1,
        forall|i: int|
            0 <= i < dec_digits(n).len() ==> is_digit_byte(#[trigger] dec_digits(n)[i]),
        dec_digits(n)[0] == 48 ==> n == 0,
        dec_value(dec_digits(n)) == n,
    decreases n,
{
    if n < 10 {
        let s = dec_digits(n);
        assert(s =~= seq![(48 + n) as u8]);
        assert(s.drop_last() =~= Seq::<u8>::empty());
        assert(dec_value(s.drop_last()) == 0);
        assert(s.last() == (48 + n) as u8);
        assert(dec_value(s) == n);
    } else {
        lemma_dec_digits_shape(n / 10);
        let d = dec_digits(n / 10);
        assert(dec_digits(n) =~= d + seq![(48 + n % 10) as u8]);
        assert(dec_digits(n).drop_last() =~= d);
        assert(dec_value(dec_digits(n)) == dec_value(d) * 10 + n % 10);
        assert(n / 10 * 10 + n % 10 == n) by (nonlinear_arith);
        assert(dec_digits(n)[0] == d[0]);
        assert(n / 10 >= 1);
    }
}

/// Appends the decimal spelling of `n` to a byte buffer.
pub fn push_dec(out: &mut Vec<u8>, n: u64)
    ensures
        final(out)@ == old(out)@ + dec_digits(n),
{
    let mut rev: Vec<u8> = Vec::new();
    let mut m: u64 = n;
    while m >= 10
        invariant
            dec_digits(n) =~= dec_digits(m) + rev@.reverse(),
        decreases m,
    {
        let d: u8 = (48 + (m % 10)) as u8;
        rev.push(d);
        proof {
            assert(rev@.reverse() =~= seq![d] + rev@.drop_last().reverse());
            assert(dec_digits(m) =~= dec_digits(m / 10) + seq![d]);
        }
        m = m / 10;
    }
    let d: u8 = (48 + m) as u8;
    rev.push(d);
    proof {
        assert(dec_digits(m) =~= seq![d]);
        assert(dec_digits(n) =~= rev@.reverse());
    }
    let mut i: usize = rev.len();
    while i > 0
        invariant
            i <= rev@.len(),
            dec_digits(n) =~= rev@.reverse(),
            out@ == old(out)@ + rev@.reverse().take(rev@.len() - i),
        decreases i,
    {
        i = i - 1;
        let b = rev[i];
        out.push(b);
        proof {
            assert(rev@.reverse()[rev@.len() - 1 - i as int] == rev@[i as int]);
            assert(out@ =~= old(out)@ + rev@.reverse().take(rev@.len() - i));
        }
    }
    proof {
        assert(rev@.reverse().take(rev@.len() as int) =~= rev@.reverse());
    }
}

/// Uppercases one character, ASCII letters only.
pub open spec fn upper_char(c: char) -> char {
    if 'a' <= c <= 'z' {
        ((c as u8) - 32) as char
    } else {
        c
    }
}

pub open spec fn upper_seq(s: Seq<char>) -> Seq<char> {
    s.map_values(|c: char| upper_char(c))
}

/// True when `submitted`, uppercased ASCII-wise, spells exactly `stored`.
pub fn eq_upper(submitted: &str, stored: &str) -> (r: bool)
    ensures
        r == (upper_seq(submitted@) == stored@),
{
    let n = submitted.unicode_len();
    let m = stored.unicode_len();
    if n != m {
        proof {
            assert(upper_seq(submitted@).len() == submitted@.len());
        }
        return false;
    }
    let mut i: usize = 0;
    while i < n
        invariant
            i <= n,
            n == submitted@.len(),
            n == stored@.len(),
            forall|j: int| 0 <= j < i ==> upper_seq(submitted@)[j] == stored@[j],
        decreases n - i,
    {
        let c = submitted.get_char(i);
        let u: char = if 'a' <= c && c <= 'z' {
            ((c as u8) - 32) as char
        } else {
            c
        };
        assert(u == upper_char(submitted@[i as int]));
        if u != stored.get_char(i) {
            assert(upper_seq(submitted@)[i as int] != stored@[i as int]);
            return false;
        }
        i = i + 1;
    }
    proof {
        assert(upper_seq(submitted@) =~= stored@);
    }
    true
}

/// True when the two slices spell the same characters.
pub fn str_eq(a: &str, b: &str) -> (r: bool)
    ensures
        r == (a@ == b@),
{
    let n = a.unicode_len();
    let m = b.unicode_len();
    if n != m {
        return false;
    }
    let mut i: usize = 0;
    while i < n
        invariant
            i <= n,
            n == a@.len(),
            n == b@.len(),
            forall|j: int| 0 <= j < i ==> a@[j] == b@[j],
        decreases n - i,
    {
        if a.get_char(i) != b.get_char(i) {
            return false;
        }
        i = i + 1;
    }
    proof {
        assert(a@ =~= b@);
    }
    true
}

} // verus!
