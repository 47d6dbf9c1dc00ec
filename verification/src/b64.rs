//! Base64url without padding: the spelling of token segments.

use vstd::prelude::*;
use crate::text::ascii_bytes;
use vstd::string::StrSliceExecFns;

verus! {

/// The base64url alphabet, position to character.
pub open spec fn b64_char_of(v: int) -> char
    recommends
        0 <= v < 64,
{
    if v < 26 {
        ((65 + v) as u8) as char
    } else if v < 52 {
        ((97 + (v - 26)) as u8) as char
    } else if v < 62 {
        ((48 + (v - 52)) as u8) as char
    } else if v == 62 {
        '-'
    } else {
        '_'
    }
}

/// The base64url alphabet, character to position; negative off the alphabet.
pub open spec fn b64_val(c: char) -> int {
    if 'A' <= c <= 'Z' {
        c as u8 - 65
    } else if 'a' <= c <= 'z' {
        c as u8 - 97 + 26
    } else if '0' <= c <= '9' {
        c as u8 - 48 + 52
    } else if c == '-' {
        62
    } else if c == '_' {
        63
    } else {
        -1
    }
}

pub open spec fn is_b64_char(c: char) -> bool {
    b64_val(c) >= 0
}

pub open spec fn is_b64_seq(s: Seq<char>) -> bool {
    forall|i: int| 0 <= i < s.len() ==> is_b64_char(#[trigger] s[i])
}

pub proof fn lemma_b64_char_val(v: int)
    requires
        0 <= v < 64,
    ensures
        b64_val(b64_char_of(v)) == v,
        is_b64_char(b64_char_of(v)),
        ' ' < b64_char_of(v) <= '~',
        b64_char_of(v) != '.',
        b64_char_of(v) != '"',
        b64_char_of(v) != '\\',
        (b64_char_of(v) as u8) < 128,
{
}

/// Base64url encoding of a byte sequence, group of three bytes to four
/// characters, the tail group shortened, no padding.
pub open spec fn b64_encode(b: Seq<u8>) -> Seq<char>
    decreases b.len(),
{
    if b.len() == 0 {
        Seq::empty()
    } else if b.len() == 1 {
        let b0 = b[0] as int;
        seq![b64_char_of(b0 / 4), b64_char_of((b0 % 4) * 16)]
    } else if b.len() == 2 {
        let b0 = b[0] as int;
        let b1 = b[1] as int;
        seq![
            b64_char_of(b0 / 4),
            b64_char_of((b0 % 4) * 16 + b1 / 16),
            b64_char_of((b1 % 16) * 4),
        ]
    } else {
        let b0 = b[0] as int;
        let b1 = b[1] as int;
        let b2 = b[2] as int;
        seq![
            b64_char_of(b0 / 4),
            b64_char_of((b0 % 4) * 16 + b1 / 16),
            b64_char_of((b1 % 16) * 4 + b2 / 64),
            b64_char_of(b2 % 64),
        ] + b64_encode(b.skip(3))
    }
}

/// Strict base64url decoding: rejects characters off the alphabet, a
/// lone trailing character, and nonzero bits beyond the encoded bytes.
pub open spec fn b64_decode(s: Seq<char>) -> Option<Seq<u8>>
    decreases s.len(),
{
    if s.len() == 0 {
        Some(Seq::empty())
    } else if s.len() == 1 {
        None
    } else if s.len() == 2 {
        let v0 = b64_val(s[0]);
        let v1 = b64_val(s[1]);
        if v0 >= 0 && v1 >= 0 && v1 % 16 == 0 {
            Some(seq![(v0 * 4 + v1 / 16) as u8])
        } else {
            None
        }
    } else if s.len() == 3 {
        let v0 = b64_val(s[0]);
        let v1 = b64_val(s[1]);
        let v2 = b64_val(s[2]);
        if v0 >= 0 && v1 >= 0 && v2 >= 0 && v2 % 4 == 0 {
            Some(seq![(v0 * 4 + v1 / 16) as u8, ((v1 % 16) * 16 + v2 / 4) as u8])
        } else {
            None
        }
    } else {
        let v0 = b64_val(s[0]);
        let v1 = b64_val(s[1]);
        let v2 = b64_val(s[2]);
        let v3 = b64_val(s[3]);
        if v0 >= 0 && v1 >= 0 && v2 >= 0 && v3 >= 0 {
            match b64_decode(s.skip(4)) {
                Some(rest) => Some(
                    seq![
                        (v0 * 4 + v1 / 16) as u8,
                        ((v1 % 16) * 16 + v2 / 4) as u8,
                        ((v2 % 4) * 64 + v3) as u8,
                    ] + rest,
                ),
                None => None,
            }
        } else {
            None
        }
    }
}

pub proof fn lemma_b64_char_props(c: char)
    requires
        is_b64_char(c),
    ensures
        ' ' < c <= '~',
        c != '.',
        c != '"',
        c != '\\',
        (c as u8) < 128,
{
}

pub proof fn lemma_b64_encode_chars(b: Seq<u8>)
    ensures
        is_b64_seq(b64_encode(b)),
    decreases b.len(),
{
    if b.len() == 0 {
    } else if b.len() == 1 {
        lemma_b64_char_val(b[0] as int / 4);
        lemma_b64_char_val((b[0] as int % 4) * 16);
    } else if b.len() == 2 {
        lemma_b64_char_val(b[0] as int / 4);
        lemma_b64_char_val((b[0] as int % 4) * 16 + b[1] as int / 16);
        lemma_b64_char_val((b[1] as int % 16) * 4);
    } else {
        lemma_b64_char_val(b[0] as int / 4);
        lemma_b64_char_val((b[0] as int % 4) * 16 + b[1] as int / 16);
        lemma_b64_char_val((b[1] as int % 16) * 4 + b[2] as int / 64);
        lemma_b64_char_val(b[2] as int % 64);
        lemma_b64_encode_chars(b.skip(3));
        let rest = b64_encode(b.skip(3));
        assert forall|i: int| 0 <= i < b64_encode(b).len() implies is_b64_char(
            #[trigger] b64_encode(b)[i],
        ) by {
            if i >= 4 {
                assert(b64_encode(b)[i] == rest[i - 4]);
                assert(is_b64_char(rest[i - 4]));
            }
        }
    }
}

pub proof fn lemma_b64_encode_len(b: Seq<u8>)
    ensures
        b.len() % 3 == 0 ==> b64_encode(b).len() == b.len() / 3 * 4,
        b.len() % 3 == 1 ==> b64_encode(b).len() == b.len() / 3 * 4 + 2,
        b.len() % 3 == 2 ==> b64_encode(b).len() == b.len() / 3 * 4 + 3,
    decreases b.len(),
{
    if b.len() >= 3 {
        lemma_b64_encode_len(b.skip(3));
    }
}

proof fn lemma_regroup(b0: int, b1: int, b2: int)
    requires
        0 <= b0 < 256,
        0 <= b1 < 256,
        0 <= b2 < 256,
    ensures
        ((b0 % 4) * 16) % 16 == 0,
        ((b1 % 16) * 4) % 4 == 0,
        (b0 / 4) * 4 + ((b0 % 4) * 16) / 16 == b0,
        (b0 / 4) * 4 + ((b0 % 4) * 16 + b1 / 16) / 16 == b0,
        (((b0 % 4) * 16 + b1 / 16) % 16) * 16 + ((b1 % 16) * 4) / 4 == b1,
        (((b0 % 4) * 16 + b1 / 16) % 16) * 16 + ((b1 % 16) * 4 + b2 / 64) / 4 == b1,
        (((b1 % 16) * 4 + b2 / 64) % 4) * 64 + b2 % 64 == b2,
{
    assert(((b0 % 4) * 16) % 16 == 0) by (nonlinear_arith);
    assert(((b1 % 16) * 4) % 4 == 0) by (nonlinear_arith);
    assert((b0 / 4) * 4 + ((b0 % 4) * 16) / 16 == b0) by (nonlinear_arith)
        requires
            0 <= b0 < 256,
    ;
    assert((b0 / 4) * 4 + ((b0 % 4) * 16 + b1 / 16) / 16 == b0) by (nonlinear_arith)
        requires
            0 <= b0 < 256 && 0 <= b1 < 256,
    ;
    assert((((b0 % 4) * 16 + b1 / 16) % 16) * 16 + ((b1 % 16) * 4) / 4 == b1) by (nonlinear_arith)
        requires
            0 <= b0 < 256 && 0 <= b1 < 256,
    ;
    assert((((b0 % 4) * 16 + b1 / 16) % 16) * 16 + ((b1 % 16) * 4 + b2 / 64) / 4 == b1)
        by (nonlinear_arith)
        requires
            0 <= b0 < 256 && 0 <= b1 < 256 && 0 <= b2 < 256,
    ;
    assert((((b1 % 16) * 4 + b2 / 64) % 4) * 64 + b2 % 64 == b2) by (nonlinear_arith)
        requires
            0 <= b1 < 256 && 0 <= b2 < 256,
    ;
}

/// Decoding inverts encoding.
pub proof fn lemma_b64_round_trip(b: Seq<u8>)
    ensures
        b64_decode(b64_encode(b)) == Some(b),
    decreases b.len(),
{
    let s = b64_encode(b);
    if b.len() == 0 {
        assert(b64_decode(s) == Some(b));
    } else if b.len() == 1 {
        let b0 = b[0] as int;
        lemma_b64_char_val(b0 / 4);
        lemma_b64_char_val((b0 % 4) * 16);
        lemma_regroup(b0, 0, 0);
        assert(b64_decode(s) == Some(seq![b0 as u8]));
        assert(seq![b0 as u8] =~= b);
    } else if b.len() == 2 {
        let b0 = b[0] as int;
        let b1 = b[1] as int;
        lemma_b64_char_val(b0 / 4);
        lemma_b64_char_val((b0 % 4) * 16 + b1 / 16);
        lemma_b64_char_val((b1 % 16) * 4);
        lemma_regroup(b0, b1, 0);
        assert(b64_decode(s) == Some(seq![b0 as u8, b1 as u8]));
        assert(seq![b0 as u8, b1 as u8] =~= b);
    } else {
        let b0 = b[0] as int;
        let b1 = b[1] as int;
        let b2 = b[2] as int;
        let v0 = b0 / 4;
        let v1 = (b0 % 4) * 16 + b1 / 16;
        let v2 = (b1 % 16) * 4 + b2 / 64;
        let v3 = b2 % 64;
        lemma_b64_char_val(v0);
        lemma_b64_char_val(v1);
        lemma_b64_char_val(v2);
        lemma_b64_char_val(v3);
        lemma_b64_round_trip(b.skip(3));
        let rest = b64_encode(b.skip(3));
        assert(s.len() >= 4);
        assert(s.skip(4) =~= rest);
        lemma_regroup(b0, b1, b2);
        assert(b64_decode(s) == Some(seq![b0 as u8, b1 as u8, b2 as u8] + b.skip(3)));
        assert(seq![b0 as u8, b1 as u8, b2 as u8] + b.skip(3) =~= b);
    }
}

/// Encoding distributes over a split at a whole number of groups.
pub proof fn lemma_b64_encode_append(x: Seq<u8>, y: Seq<u8>)
    requires
        x.len() % 3 == 0,
    ensures
        b64_encode(x + y) == b64_encode(x) + b64_encode(y),
    decreases x.len(),
{
    if x.len() == 0 {
        assert(x + y =~= y);
        assert(b64_encode(x) + b64_encode(y) =~= b64_encode(y));
    } else {
        assert(x.len() >= 3);
        let xy = x + y;
        assert(xy.len() >= 3);
        assert(xy[0] == x[0] && xy[1] == x[1] && xy[2] == x[2]);
        assert(xy.skip(3) =~= x.skip(3) + y);
        lemma_b64_encode_append(x.skip(3), y);
        assert(b64_encode(x + y) =~= b64_encode(x) + b64_encode(y));
    }
}

fn b64_byte_of(v: u8) -> (r: u8)
    requires
        v < 64,
    ensures
        r as char == b64_char_of(v as int),
        r == b64_char_of(v as int) as u8,
        r < 128,
{
    if v < 26 {
        65 + v
    } else if v < 52 {
        97 + (v - 26)
    } else if v < 62 {
        48 + (v - 52)
    } else if v == 62 {
        45
    } else {
        95
    }
}

/// Appends the base64url encoding of `b`, as ASCII bytes, to `out`.
pub fn push_b64(out: &mut Vec<u8>, b: &[u8])
    ensures
        final(out)@ == old(out)@ + ascii_bytes(b64_encode(b@)),
{
    let n = b.len();
    let mut i: usize = 0;
    while n - i >= 3
        invariant
            i <= n,
            n == b@.len(),
            i % 3 == 0,
            out@ == old(out)@ + ascii_bytes(b64_encode(b@.take(i as int))),
        decreases n - i,
    {
        let b0 = b[i];
        let b1 = b[i + 1];
        let b2 = b[i + 2];
        let c0 = b64_byte_of(b0 / 4);
        let c1 = b64_byte_of((b0 % 4) * 16 + b1 / 16);
        let c2 = b64_byte_of((b1 % 16) * 4 + b2 / 64);
        let c3 = b64_byte_of(b2 % 64);
        out.push(c0);
        out.push(c1);
        out.push(c2);
        out.push(c3);
        proof {
            let x = b@.take(i as int);
            let g = seq![b0, b1, b2];
            lemma_b64_encode_append(x, g);
            assert(g[0] == b0 && g[1] == b1 && g[2] == b2);
            assert(g.skip(3) =~= Seq::<u8>::empty());
            assert(b64_encode(Seq::<u8>::empty()) =~= Seq::<char>::empty());
            assert(b64_encode(g) =~= seq![
                b64_char_of(b0 as int / 4),
                b64_char_of((b0 as int % 4) * 16 + b1 as int / 16),
                b64_char_of((b1 as int % 16) * 4 + b2 as int / 64),
                b64_char_of(b2 as int % 64),
            ]);
            assert(x + g =~= b@.take(i + 3));
            assert(out@ =~= old(out)@ + ascii_bytes(b64_encode(b@.take(i + 3))));
        }
        i = i + 3;
    }
    if n - i == 1 {
        let b0 = b[i];
        let c0 = b64_byte_of(b0 / 4);
        let c1 = b64_byte_of((b0 % 4) * 16);
        out.push(c0);
        out.push(c1);
        proof {
            let x = b@.take(i as int);
            let g = seq![b0];
            lemma_b64_encode_append(x, g);
            assert(x + g =~= b@);
            assert(b64_encode(g) =~= seq![
                b64_char_of(b0 as int / 4),
                b64_char_of((b0 as int % 4) * 16),
            ]);
            assert(out@ =~= old(out)@ + ascii_bytes(b64_encode(b@)));
        }
    } else if n - i == 2 {
        let b0 = b[i];
        let b1 = b[i + 1];
        let c0 = b64_byte_of(b0 / 4);
        let c1 = b64_byte_of((b0 % 4) * 16 + b1 / 16);
        let c2 = b64_byte_of((b1 % 16) * 4);
        out.push(c0);
        out.push(c1);
        out.push(c2);
        proof {
            let x = b@.take(i as int);
            let g = seq![b0, b1];
            lemma_b64_encode_append(x, g);
            assert(x + g =~= b@);
            assert(b64_encode(g) =~= seq![
                b64_char_of(b0 as int / 4),
                b64_char_of((b0 as int % 4) * 16 + b1 as int / 16),
                b64_char_of((b1 as int % 16) * 4),
            ]);
            assert(out@ =~= old(out)@ + ascii_bytes(b64_encode(b@)));
        }
    } else {
        proof {
            assert(b@.take(i as int) =~= b@);
        }
    }
}

fn b64_val_of(c: char) -> (r: Option<u8>)
    ensures
        match r {
            Some(v) => v < 64 && b64_val(c) == v,
            None => b64_val(c) < 0,
        },
{
    if 'A' <= c && c <= 'Z' {
        Some((c as u8) - 65)
    } else if 'a' <= c && c <= 'z' {
        Some((c as u8) - 97 + 26)
    } else if '0' <= c && c <= '9' {
        Some((c as u8) - 48 + 52)
    } else if c == '-' {
        Some(62)
    } else if c == '_' {
        Some(63)
    } else {
        None
    }
}

/// Decodes a base64url segment of a token, strictly.
pub fn b64_decode_str(s: &str, from: usize, to: usize) -> (r: Option<Vec<u8>>)
    requires
        from <= to <= s@.len(),
    ensures
        match r {
            Some(v) => b64_decode(s@.subrange(from as int, to as int)) == Some(v@),
            None => b64_decode(s@.subrange(from as int, to as int)) is None,
        },
{
    let ghost seg = s@.subrange(from as int, to as int);
    let mut out: Vec<u8> = Vec::new();
    let mut i: usize = from;
    while to - i >= 4
        invariant
            from <= i <= to <= s@.len(),
            seg == s@.subrange(from as int, to as int),
            (i - from) % 4 == 0,
            b64_decode(seg) == match b64_decode(s@.subrange(i as int, to as int)) {
                Some(rest) => Some(out@ + rest),
                None => None::<Seq<u8>>,
            },
        decreases to - i,
    {
        let ghost tail = s@.subrange(i as int, to as int);
        let c0 = b64_val_of(s.get_char(i));
        let c1 = b64_val_of(s.get_char(i + 1));
        let c2 = b64_val_of(s.get_char(i + 2));
        let c3 = b64_val_of(s.get_char(i + 3));
        proof {
            assert(tail.len() >= 4);
            assert(tail[0] == s@[i as int]);
            assert(tail[1] == s@[i + 1]);
            assert(tail[2] == s@[i + 2]);
            assert(tail[3] == s@[i + 3]);
        }
        match (c0, c1, c2, c3) {
            (Some(v0), Some(v1), Some(v2), Some(v3)) => {
                let b0 = v0 * 4 + v1 / 16;
                let b1 = (v1 % 16) * 16 + v2 / 4;
                let b2 = (v2 % 4) * 64 + v3;
                let ghost prev = out@;
                out.push(b0);
                out.push(b1);
                out.push(b2);
                proof {
                    assert(out@ =~= prev + seq![b0, b1, b2]);
                    assert(tail.skip(4) =~= s@.subrange(i + 4, to as int));
                    assert(b64_decode(tail) == match b64_decode(tail.skip(4)) {
                        Some(rest) => Some(seq![b0, b1, b2] + rest),
                        None => None::<Seq<u8>>,
                    });
                    if b64_decode(tail.skip(4)) is Some {
                        let r = b64_decode(tail.skip(4))->Some_0;
                        assert(prev + (seq![b0, b1, b2] + r) =~= out@ + r);
                    }
                }
                i = i + 4;
            },
            _ => {
                proof {
                    assert(b64_decode(tail) is None);
                }
                return None;
            },
        }
    }
    let ghost tail = s@.subrange(i as int, to as int);
    if i == to {
        proof {
            assert(tail.len() == 0);
            assert(b64_decode(tail) == Some(Seq::<u8>::empty()));
            assert(out@ + Seq::<u8>::empty() =~= out@);
        }
        Some(out)
    } else if to - i == 2 {
        let c0 = b64_val_of(s.get_char(i));
        let c1 = b64_val_of(s.get_char(i + 1));
        proof {
            assert(tail.len() == 2);
            assert(tail[0] == s@[i as int]);
            assert(tail[1] == s@[i + 1]);
        }
        match (c0, c1) {
            (Some(v0), Some(v1)) => {
                if v1 % 16 == 0 {
                    let b0 = v0 * 4 + v1 / 16;
                    out.push(b0);
                    proof {
                        assert(b64_decode(tail) == Some(seq![b0]));
                        assert(out@ =~= out@.subrange(0, out@.len() - 1) + seq![b0]);
                    }
                    Some(out)
                } else {
                    None
                }
            },
            _ => None,
        }
    } else if to - i == 3 {
        let c0 = b64_val_of(s.get_char(i));
        let c1 = b64_val_of(s.get_char(i + 1));
        let c2 = b64_val_of(s.get_char(i + 2));
        proof {
            assert(tail.len() == 3);
            assert(tail[0] == s@[i as int]);
            assert(tail[1] == s@[i + 1]);
            assert(tail[2] == s@[i + 2]);
        }
        match (c0, c1, c2) {
            (Some(v0), Some(v1), Some(v2)) => {
                if v2 % 4 == 0 {
                    let b0 = v0 * 4 + v1 / 16;
                    let b1 = (v1 % 16) * 16 + v2 / 4;
                    out.push(b0);
                    out.push(b1);
                    proof {
                        assert(b64_decode(tail) == Some(seq![b0, b1]));
                        assert(out@ =~= out@.subrange(0, out@.len() - 2) + seq![b0, b1]);
                    }
                    Some(out)
                } else {
                    None
                }
            },
            _ => None,
        }
    } else {
        proof {
            assert(tail.len() == 1);
            assert(b64_decode(tail) is None);
        }
        None
    }
}

} // verus!
