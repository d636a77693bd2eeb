//! Base64, in which file contents travel inside JSON messages.

use base64::Engine;
use vstd::prelude::*;

verus! {

/// The character that stands for a six-bit value.
pub open spec fn base64_char(v: int) -> char {
    if v < 26 {
        (65 + v) as char
    } else if v < 52 {
        (97 + (v - 26)) as char
    } else if v < 62 {
        (48 + (v - 52)) as char
    } else if v == 62 {
        '+'
    } else {
        '/'
    }
}

/// The Base64 text of some bytes, with padding: every three bytes are written
/// as four characters of six bits each, a shorter rest is padded with `=`.
pub open spec fn base64_text(b: Seq<u8>) -> Seq<char>
    decreases b.len(),
{
    if b.len() == 0 {
        Seq::empty()
    } else if b.len() == 1 {
        seq![base64_char(b[0] as int / 4), base64_char(b[0] as int % 4 * 16), '=', '=']
    } else if b.len() == 2 {
        seq![
            base64_char(b[0] as int / 4),
            base64_char(b[0] as int % 4 * 16 + b[1] as int / 16),
            base64_char(b[1] as int % 16 * 4),
            '=',
        ]
    } else {
        seq![
            base64_char(b[0] as int / 4),
            base64_char(b[0] as int % 4 * 16 + b[1] as int / 16),
            base64_char(b[1] as int % 16 * 4 + b[2] as int / 64),
            base64_char(b[2] as int % 64),
        ] + base64_text(b.skip(3))
    }
}

/// The six-bit value of a Base64 character.
pub open spec fn base64_value(c: char) -> int {
    if 'A' <= c <= 'Z' {
        c as int - 65
    } else if 'a' <= c <= 'z' {
        c as int - 97 + 26
    } else if '0' <= c <= '9' {
        c as int - 48 + 52
    } else if c == '+' {
        62
    } else {
        63
    }
}

/// The bytes that a Base64 text stands for.
pub open spec fn base64_bytes(s: Seq<char>) -> Seq<u8>
    decreases s.len(),
{
    if s.len() < 4 {
        Seq::empty()
    } else {
        let v0 = base64_value(s[0]);
        let v1 = base64_value(s[1]);
        let v2 = base64_value(s[2]);
        let v3 = base64_value(s[3]);
        let first = (v0 * 4 + v1 / 16) as u8;
        let second = (v1 % 16 * 16 + v2 / 4) as u8;
        let third = (v2 % 4 * 64 + v3) as u8;
        if s[2] == '=' {
            seq![first]
        } else if s[3] == '=' {
            seq![first, second]
        } else {
            seq![first, second, third] + base64_bytes(s.skip(4))
        }
    }
}

/// `Engine::encode` of the `base64` crate's standard engine: the padded Base64
/// text of the bytes, in the standard alphabet.
#[verifier::external_body]
pub(crate) fn base64_encode(bytes: &[u8]) -> (s: String)
    ensures
        s@ == base64_text(bytes@),
{
    base64::engine::general_purpose::STANDARD.encode(bytes)
}

/// Six-bit values and their characters correspond, and none is the padding.
proof fn lemma_base64_char(v: int)
    requires
        0 <= v < 64,
    ensures
        base64_value(base64_char(v)) == v,
        base64_char(v) != '=',
{
}

/// Reading the Base64 text of some bytes gives the bytes back.
pub proof fn law_base64_round_trip(b: Seq<u8>)
    ensures
        base64_bytes(base64_text(b)) == b,
    decreases b.len(),
{
    let s = base64_text(b);
    if b.len() == 0 {
        assert(base64_bytes(s) =~= b);
    } else {
        lemma_base64_char(b[0] as int / 4);
        if b.len() == 1 {
            lemma_base64_char(b[0] as int % 4 * 16);
            assert(base64_bytes(s) =~= b);
        } else {
            lemma_base64_char(b[0] as int % 4 * 16 + b[1] as int / 16);
            if b.len() == 2 {
                lemma_base64_char(b[1] as int % 16 * 4);
                assert(base64_bytes(s) =~= b);
            } else {
                lemma_base64_char(b[1] as int % 16 * 4 + b[2] as int / 64);
                lemma_base64_char(b[2] as int % 64);
                law_base64_round_trip(b.skip(3));
                assert(s.skip(4) =~= base64_text(b.skip(3)));
                assert(base64_bytes(s) =~= seq![b[0], b[1], b[2]] + b.skip(3));
                assert(b =~= seq![b[0], b[1], b[2]] + b.skip(3));
            }
        }
    }
}

} // verus!
