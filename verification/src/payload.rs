//! Pieces of the claims' JSON payloads: fixed literals, decimal numbers,
//! booleans, and quoted string values with their escaping.

use vstd::prelude::*;
use vstd::string::StrSliceExecFns;
use vstd::string::StringSliceAdditionalSpecFns;
use crate::text::{
    ascii_bytes, is_digit_byte, dec_digits, dec_value, lemma_dec_digits_shape, push_str_bytes,
};

verus! {

/// The payload spells `lit` at position `pos`.
pub open spec fn starts_with(p: Seq<u8>, pos: int, lit: Seq<char>) -> bool {
    &&& 0 <= pos
    &&& pos + lit.len() <= p.len()
    &&& p.subrange(pos, pos + lit.len()) == ascii_bytes(lit)
}

/// First position at or after `from` holding a non-digit byte, or the length.
pub open spec fn digit_end(p: Seq<u8>, from: int) -> int
    recommends
        0 <= from <= p.len(),
    decreases p.len() - from,
        when 0 <= from <= p.len()
{
    if from >= p.len() {
        p.len() as int
    } else if !is_digit_byte(p[from]) {
        from
    } else {
        digit_end(p, from + 1)
    }
}

pub proof fn lemma_digit_end_at(p: Seq<u8>, from: int, e: int)
    requires
        0 <= from <= e <= p.len(),
        forall|k: int| from <= k < e ==> is_digit_byte(#[trigger] p[k]),
        e == p.len() || !is_digit_byte(p[e]),
    ensures
        digit_end(p, from) == e,
    decreases e - from,
{
    if from < e {
        lemma_digit_end_at(p, from + 1, e);
    }
}

pub proof fn lemma_digit_end_props(p: Seq<u8>, from: int)
    requires
        0 <= from <= p.len(),
    ensures
        from <= digit_end(p, from) <= p.len(),
        forall|k: int| from <= k < digit_end(p, from) ==> is_digit_byte(#[trigger] p[k]),
        digit_end(p, from) < p.len() ==> !is_digit_byte(p[digit_end(p, from)]),
    decreases p.len() - from,
{
    if from < p.len() && is_digit_byte(p[from]) {
        lemma_digit_end_props(p, from + 1);
    }
}

pub proof fn lemma_dec_value_bounds(s: Seq<u8>)
    requires
        forall|k: int| 0 <= k < s.len() ==> is_digit_byte(#[trigger] s[k]),
    ensures
        dec_value(s) >= 0,
        forall|m: int| 0 <= m <= s.len() ==> dec_value(s.take(m)) <= dec_value(s),
    decreases s.len(),
{
    if s.len() == 0 {
        assert forall|m: int| 0 <= m <= s.len() implies dec_value(s.take(m)) <= dec_value(s) by {
            assert(s.take(m) =~= s);
        }
    } else {
        lemma_dec_value_bounds(s.drop_last());
        assert(dec_value(s) == dec_value(s.drop_last()) * 10 + (s.last() - 48));
        assert(dec_value(s.drop_last()) * 10 >= dec_value(s.drop_last())) by (nonlinear_arith)
            requires
                dec_value(s.drop_last()) >= 0,
        ;
        assert forall|m: int| 0 <= m <= s.len() implies dec_value(s.take(m)) <= dec_value(s) by {
            if m == s.len() {
                assert(s.take(m) =~= s);
            } else {
                assert(s.take(m) =~= s.drop_last().take(m));
            }
        }
    }
}

/// The number spelled by the digit run at `from`, with its end: nothing
/// when the run is empty, has a leading zero, or exceeds sixty-four bits.
pub open spec fn parse_u64_at(p: Seq<u8>, from: int) -> Option<(u64, int)> {
    let e = digit_end(p, from);
    let digits = p.subrange(from, e);
    if digits.len() == 0 {
        None
    } else if digits[0] == 48 && digits.len() > 1 {
        None
    } else if dec_value(digits) > u64::MAX {
        None
    } else {
        Some((dec_value(digits) as u64, e))
    }
}

/// The digit run at `from` spells exactly `dec_digits(n)` and then stops.
pub proof fn lemma_parse_u64_of_dec(p: Seq<u8>, from: int, n: u64)
    requires
        0 <= from,
        from + dec_digits(n).len() <= p.len(),
        p.subrange(from, from + dec_digits(n).len()) == dec_digits(n),
        from + dec_digits(n).len() == p.len() || !is_digit_byte(
            p[from + dec_digits(n).len()],
        ),
    ensures
        parse_u64_at(p, from) == Some((n, from + dec_digits(n).len())),
{
    let d = dec_digits(n);
    lemma_dec_digits_shape(n);
    assert forall|k: int| from <= k < from + d.len() implies is_digit_byte(#[trigger] p[k]) by {
        assert(p[k] == d[k - from]);
    }
    lemma_digit_end_at(p, from, from + d.len());
    assert(p.subrange(from, from + d.len()) == d);
}

pub fn match_lit(p: &[u8], pos: usize, lit: &str) -> (r: bool)
    requires
        vstd::string::is_ascii(lit),
        pos <= p@.len(),
    ensures
        r == starts_with(p@, pos as int, lit@),
{
    broadcast use vstd::string::is_ascii_spec_bytes;

    let lb = lit.as_bytes();
    assert(lb@ =~= ascii_bytes(lit@));
    let n = p.len();
    if lb.len() > n - pos {
        return false;
    }
    let mut i: usize = 0;
    while i < lb.len()
        invariant
            i <= lb@.len(),
            n == p@.len(),
            pos + lb@.len() <= n,
            lb@ =~= ascii_bytes(lit@),
            forall|k: int| 0 <= k < i ==> p@[pos + k] == lb@[k],
        decreases lb@.len() - i,
    {
        if p[pos + i] != lb[i] {
            assert(p@.subrange(pos as int, pos + lb@.len())[i as int] != ascii_bytes(lit@)[i as int]);
            return false;
        }
        i = i + 1;
    }
    proof {
        assert(p@.subrange(pos as int, pos + lb@.len()) =~= ascii_bytes(lit@));
    }
    true
}

/// Reads the decimal number at `pos`, returning it with the position past it.
pub fn read_u64_at(p: &[u8], pos: usize) -> (r: Option<(u64, usize)>)
    requires
        pos <= p@.len(),
    ensures
        match r {
            Some((n, e)) => parse_u64_at(p@, pos as int) == Some((n, e as int)) && pos <= e
                <= p@.len(),
            None => parse_u64_at(p@, pos as int) is None,
        },
{
    let n = p.len();
    let ghost ge = digit_end(p@, pos as int);
    proof {
        lemma_digit_end_props(p@, pos as int);
    }
    let mut e: usize = pos;
    while e < n && 48 <= p[e] && p[e] <= 57
        invariant
            pos <= e <= n,
            n == p@.len(),
            forall|k: int| pos <= k < e ==> is_digit_byte(#[trigger] p@[k]),
        decreases n - e,
    {
        e = e + 1;
    }
    proof {
        lemma_digit_end_at(p@, pos as int, e as int);
    }
    let ghost digits = p@.subrange(pos as int, e as int);
    if e == pos {
        return None;
    }
    if p[pos] == 48 && e > pos + 1 {
        return None;
    }
    proof {
        lemma_dec_value_bounds(digits);
    }
    let mut acc: u64 = 0;
    let mut i: usize = pos;
    while i < e
        invariant
            pos <= i <= e <= n,
            n == p@.len(),
            digit_end(p@, pos as int) == e as int,
            digits == p@.subrange(pos as int, e as int),
            digits.len() > 0,
            digits[0] != 48 || digits.len() == 1,
            forall|k: int| pos <= k < e ==> is_digit_byte(#[trigger] p@[k]),
            acc == dec_value(digits.take(i - pos)),
        decreases e - i,
    {
        let d: u8 = p[i] - 48;
        proof {
            assert(digits.take(i + 1 - pos).drop_last() =~= digits.take(i - pos));
            assert(digits.take(i + 1 - pos).last() == p@[i as int]);
            assert(dec_value(digits.take(i + 1 - pos)) == dec_value(digits.take(i - pos)) * 10
                + d);
        }
        if acc > (u64::MAX - (d as u64)) / 10 {
            proof {
                let m = u64::MAX as int;
                assert(acc * 10 + d > m) by (nonlinear_arith)
                    requires
                        acc > (m - d) / 10 && 0 <= d < 10 && acc >= 0 && m > 100,
                ;
                lemma_dec_value_bounds(digits);
                assert(digits.take(e - pos) =~= digits);
                assert(dec_value(digits) >= dec_value(digits.take(i + 1 - pos)));
                assert(dec_value(digits) > u64::MAX);
            }
            return None;
        }
        proof {
            let m = u64::MAX as int;
            assert(acc * 10 + d <= m) by (nonlinear_arith)
                requires
                    acc <= (m - d) / 10 && 0 <= d < 10 && acc >= 0 && m > 100,
            ;
        }
        acc = acc * 10 + (d as u64);
        i = i + 1;
    }
    proof {
        assert(digits.take(e - pos) =~= digits);
    }
    Some((acc, e))
}

/// One byte of a field value, escaped: the double quote and the
/// backslash get a backslash before them; every other byte, the bytes of
/// multi-byte text included, stands as itself. Sound on UTF-8 text: the
/// code of neither escaped byte occurs inside a multi-byte encoding.
pub open spec fn escape_byte(b: u8) -> Seq<u8> {
    if b == 34 {
        seq![92u8, 34u8]
    } else if b == 92 {
        seq![92u8, 92u8]
    } else {
        seq![b]
    }
}

/// The bytes of a field value, escaped byte for byte.
pub open spec fn escape_bytes(b: Seq<u8>) -> Seq<u8>
    decreases b.len(),
{
    if b.len() == 0 {
        Seq::empty()
    } else {
        escape_bytes(b.drop_last()) + escape_byte(b.last())
    }
}

/// The raw value bytes between `from` and the closing quote, unescaped,
/// with the quote's position; nothing on a lone or unknown escape or a
/// missing quote.
pub open spec fn unescape_value(p: Seq<u8>, from: int) -> Option<(Seq<u8>, int)>
    recommends
        0 <= from <= p.len(),
    decreases p.len() - from,
        when 0 <= from <= p.len()
{
    if from >= p.len() {
        None
    } else if p[from] == 34 {
        Some((Seq::empty(), from))
    } else if p[from] == 92 {
        if from + 1 < p.len() && (p[from + 1] == 34 || p[from + 1] == 92) {
            match unescape_value(p, from + 2) {
                Some((u, q)) => Some((seq![p[from + 1]] + u, q)),
                None => None,
            }
        } else {
            None
        }
    } else {
        match unescape_value(p, from + 1) {
            Some((u, q)) => Some((seq![p[from]] + u, q)),
            None => None,
        }
    }
}

pub proof fn lemma_escape_extend(b: Seq<u8>, i: int)
    requires
        0 <= i < b.len(),
    ensures
        escape_bytes(b.take(i + 1)) == escape_bytes(b.take(i)) + escape_byte(b[i]),
{
    assert(b.take(i + 1).drop_last() =~= b.take(i));
    assert(b.take(i + 1).last() == b[i]);
}

/// Unescaping inverts escaping, up to the closing quote.
pub proof fn lemma_unescape_of_escape(p: Seq<u8>, from: int, x: Seq<u8>)
    requires
        0 <= from,
        from + escape_bytes(x).len() < p.len(),
        p.subrange(from, from + escape_bytes(x).len()) == escape_bytes(x),
        p[from + escape_bytes(x).len()] == 34,
    ensures
        unescape_value(p, from) == Some((x, from + escape_bytes(x).len())),
    decreases x.len(),
{
    if x.len() == 0 {
        assert(p[from] == 34);
    } else {
        let x0 = x[0];
        let rest = x.drop_first();
        lemma_escape_concat(seq![x0], rest);
        assert(seq![x0] + rest =~= x);
        assert(escape_bytes(seq![x0]) =~= escape_byte(x0)) by {
            assert(seq![x0].drop_last() =~= Seq::<u8>::empty());
            assert(seq![x0].last() == x0);
            assert(escape_bytes(Seq::<u8>::empty()) =~= Seq::<u8>::empty());
            assert(escape_bytes(seq![x0]) == escape_bytes(seq![x0].drop_last()) + escape_byte(
                seq![x0].last(),
            ));
        }
        let el = escape_byte(x0).len() as int;
        let q = from + escape_bytes(x).len();
        assert(escape_bytes(x) == escape_byte(x0) + escape_bytes(rest));
        assert forall|i: int| 0 <= i < escape_bytes(rest).len() implies p[from + el + i]
            == escape_bytes(rest)[i] by {
            assert(p.subrange(from, q)[el + i] == escape_bytes(x)[el + i]);
            assert((escape_byte(x0) + escape_bytes(rest))[el + i] == escape_bytes(rest)[i]);
        }
        assert(p.subrange(from + el, q) =~= escape_bytes(rest));
        lemma_unescape_of_escape(p, from + el, rest);
        assert(p.subrange(from, q)[0] == escape_bytes(x)[0]);
        if x0 == 34 || x0 == 92 {
            assert(p.subrange(from, q)[1] == escape_bytes(x)[1]);
            assert(p[from] == 92 && p[from + 1] == x0);
            assert(seq![p[from + 1]] + rest =~= x);
        } else {
            assert(p[from] == x0);
            assert(p[from] != 34 && p[from] != 92);
            assert(seq![p[from]] + rest =~= x);
        }
    }
}

/// Escaping splits over concatenation.
pub proof fn lemma_escape_concat(a: Seq<u8>, b: Seq<u8>)
    ensures
        escape_bytes(a + b) == escape_bytes(a) + escape_bytes(b),
    decreases b.len(),
{
    if b.len() == 0 {
        assert(a + b =~= a);
        assert(escape_bytes(a) + escape_bytes(b) =~= escape_bytes(a));
    } else {
        lemma_escape_concat(a, b.drop_last());
        assert((a + b).drop_last() =~= a + b.drop_last());
        assert((a + b).last() == b.last());
        assert(escape_bytes(a) + escape_bytes(b) =~= escape_bytes(a) + escape_bytes(b.drop_last())
            + escape_byte(b.last()));
    }
}

/// Appends the escaped bytes of a field value.
pub fn push_escaped(out: &mut Vec<u8>, s: &str)
    ensures
        final(out)@ == old(out)@ + escape_bytes(s.spec_bytes()),
{
    let b = s.as_bytes();
    let mut i: usize = 0;
    while i < b.len()
        invariant
            i <= b@.len(),
            b@ == s.spec_bytes(),
            out@ == old(out)@ + escape_bytes(b@.take(i as int)),
        decreases b@.len() - i,
    {
        let x = b[i];
        if x == 34 || x == 92 {
            out.push(92);
            out.push(x);
        } else {
            out.push(x);
        }
        proof {
            lemma_escape_extend(b@, i as int);
            assert(out@ =~= old(out)@ + escape_bytes(b@.take(i + 1)));
        }
        i = i + 1;
    }
    proof {
        assert(b@.take(b@.len() as int) =~= b@);
    }
}

/// Reads a field value up to its closing quote, unescaping it.
pub fn read_value(p: &[u8], pos: usize) -> (r: Option<(Vec<u8>, usize)>)
    requires
        pos <= p@.len(),
    ensures
        match r {
            Some((u, q)) => unescape_value(p@, pos as int) == Some((u@, q as int)) && pos <= q
                < p@.len(),
            None => unescape_value(p@, pos as int) is None,
        },
{
    let n = p.len();
    let mut acc: Vec<u8> = Vec::new();
    let mut i: usize = pos;
    while i < n
        invariant
            pos <= i <= n,
            n == p@.len(),
            unescape_value(p@, pos as int) == match unescape_value(p@, i as int) {
                Some((u, q)) => Some((acc@ + u, q)),
                None => None::<(Seq<u8>, int)>,
            },
        decreases n - i,
    {
        let b = p[i];
        if b == 34 {
            proof {
                assert(unescape_value(p@, i as int) == Some((Seq::<u8>::empty(), i as int)));
                assert(acc@ + Seq::<u8>::empty() =~= acc@);
            }
            return Some((acc, i));
        }
        if b == 92 {
            if i + 1 < n && (p[i + 1] == 34 || p[i + 1] == 92) {
                let ghost prev = acc@;
                acc.push(p[i + 1]);
                proof {
                    if unescape_value(p@, i + 2) is Some {
                        let u = unescape_value(p@, i + 2)->Some_0.0;
                        assert(prev + (seq![p@[i + 1]] + u) =~= acc@ + u);
                    }
                }
                i = i + 2;
            } else {
                return None;
            }
        } else {
            let ghost prev = acc@;
            acc.push(b);
            proof {
                if unescape_value(p@, i + 1) is Some {
                    let u = unescape_value(p@, i + 1)->Some_0.0;
                    assert(prev + (seq![p@[i as int]] + u) =~= acc@ + u);
                }
            }
            i = i + 1;
        }
    }
    None
}

/// `true` or `false` at `pos`, with the position past it./// `true` or `false` at `pos`, with the position past it.
pub open spec fn parse_bool_at(p: Seq<u8>, pos: int) -> Option<(bool, int)> {
    if starts_with(p, pos, "true"@) {
        Some((true, pos + 4))
    } else if starts_with(p, pos, "false"@) {
        Some((false, pos + 5))
    } else {
        None
    }
}

pub fn read_bool_at(p: &[u8], pos: usize) -> (r: Option<(bool, usize)>)
    requires
        pos <= p@.len(),
    ensures
        match r {
            Some((b, e)) => parse_bool_at(p@, pos as int) == Some((b, e as int)) && pos <= e
                <= p@.len(),
            None => parse_bool_at(p@, pos as int) is None,
        },
{
    proof {
        reveal_strlit("true");
        reveal_strlit("false");
    }
    let n = p.len();
    if match_lit(p, pos, "true") {
        assert(pos + 4 <= n);
        Some((true, pos + 4))
    } else if match_lit(p, pos, "false") {
        assert(pos + 5 <= n);
        Some((false, pos + 5))
    } else {
        None
    }
}

/// Appends `true` or `false`.
pub fn push_bool(out: &mut Vec<u8>, b: bool)
    ensures
        final(out)@ == old(out)@ + ascii_bytes(if b {
            "true"@
        } else {
            "false"@
        }),
{
    proof {
        reveal_strlit("true");
        reveal_strlit("false");
    }
    if b {
        push_str_bytes(out, "true");
    } else {
        push_str_bytes(out, "false");
    }
}

} // verus!
