//! Decimal value rendering.
//!
//! The text and XML encodings, and the canonical string forms of the enum
//! codecs, write integers as base-10 strings. This module renders them and
//! proves the rendering inverse to the parsing grammar of [crate::parse].

use vstd::prelude::*;

use crate::parse::{all_digits, dec_val, digit_val, is_digit, spec_parse_u8, spec_parse_uint};
use vstd::utf8::{encode_utf8, is_ascii_chars, valid_utf8};

verus! {

/// The shortest base-10 digit string of `n`, most significant digit first.
pub open spec fn dec_rep(n: nat) -> Seq<u8>
    decreases n,
{
    if n < 10 {
        seq![(0x30 + n) as u8]
    } else {
        dec_rep(n / 10) + seq![(0x30 + n % 10) as u8]
    }
}

/// The base-10 string of an integer: a `-` sign when negative, then digits.
pub open spec fn dec_rep_int(v: int) -> Seq<u8> {
    if v < 0 {
        seq![0x2du8] + dec_rep((-v) as nat)
    } else {
        dec_rep(v as nat)
    }
}

/// The character for one decimal digit.
pub open spec fn digit_char(d: nat) -> char {
    if d == 0 {
        '0'
    } else if d == 1 {
        '1'
    } else if d == 2 {
        '2'
    } else if d == 3 {
        '3'
    } else if d == 4 {
        '4'
    } else if d == 5 {
        '5'
    } else if d == 6 {
        '6'
    } else if d == 7 {
        '7'
    } else if d == 8 {
        '8'
    } else {
        '9'
    }
}

/// The shortest base-10 digit character string of `n`.
pub open spec fn dec_chars(n: nat) -> Seq<char>
    decreases n,
{
    if n < 10 {
        seq![digit_char(n)]
    } else {
        dec_chars(n / 10) + seq![digit_char(n % 10)]
    }
}

pub open spec fn is_digit_char(c: char) -> bool {
    '0' <= c && c <= '9'
}

/// The digit string of `n` is non-empty, all digits, and reads back as `n`.
pub proof fn lemma_dec_rep(n: nat)
    ensures
        dec_rep(n).len() >= 1,
        all_digits(dec_rep(n)),
        dec_val(dec_rep(n)) == n,
    decreases n,
{
    if n < 10 {
        let s = dec_rep(n);
        assert(s.drop_last() =~= Seq::<u8>::empty());
        assert(dec_val(Seq::<u8>::empty()) == 0);
        assert(dec_val(s) == dec_val(s.drop_last()) * 10 + digit_val(s.last()));
        assert(digit_val(s.last()) == n);
    } else {
        lemma_dec_rep(n / 10);
        let s = dec_rep(n);
        assert(s.drop_last() =~= dec_rep(n / 10));
        assert(s.last() == (0x30 + n % 10) as u8);
        assert(dec_val(s) == dec_val(dec_rep(n / 10)) * 10 + digit_val(s.last()));
        assert(forall|i: int|
            0 <= i < s.len() ==> is_digit(#[trigger] s[i]) == (if i < s.len() - 1 {
                is_digit(dec_rep(n / 10)[i])
            } else {
                is_digit(s.last())
            }));
    }
}

/// The digit character string of `n` is ASCII, encodes to the digit byte
/// string of `n`, and starts with a digit character.
pub proof fn lemma_dec_chars(n: nat)
    ensures
        dec_chars(n).len() == dec_rep(n).len(),
        is_ascii_chars(dec_chars(n)),
        encode_utf8(dec_chars(n)) == dec_rep(n),
        is_digit_char(dec_chars(n)[0]),
    decreases n,
{
    assert forall|d: nat| d < 10 implies (#[trigger] digit_char(d)) as u8 == (0x30 + d) as u8
        && is_digit_char(digit_char(d)) && '\0' <= digit_char(d) <= '\u{7f}' by {}
    let c = dec_chars(n);
    if n < 10 {
        assert(is_ascii_chars(c));
        vstd::utf8::is_ascii_chars_encode_utf8(c);
        assert(encode_utf8(c) =~= dec_rep(n));
    } else {
        lemma_dec_chars(n / 10);
        let p = dec_chars(n / 10);
        assert forall|i: int| 0 <= i < c.len() implies '\0' <= #[trigger] c[i] <= '\u{7f}' by {
            if i < c.len() - 1 {
                assert(c[i] == p[i]);
                assert('\0' <= p[i] <= '\u{7f}');
            } else {
                assert(c[i] == digit_char(n % 10));
            }
        }
        assert(is_ascii_chars(c));
        vstd::utf8::is_ascii_chars_encode_utf8(c);
        vstd::utf8::is_ascii_chars_encode_utf8(p);
        assert(encode_utf8(c) =~= dec_rep(n));
    }
}

/// Parsing the rendered digit string of `n` gives back `n`.
pub proof fn lemma_dec_parse_cycle(n: nat)
    ensures
        spec_parse_uint(dec_rep(n)) == Some(n),
{
    lemma_dec_rep(n);
    let s = dec_rep(n);
    assert(s[0] != 0x2b) by {
        assert(is_digit(s[0]));
    }
}

/// Parsing the rendered digit string of a byte value gives back the value.
pub proof fn lemma_dec_parse_u8_cycle(u: u8)
    ensures
        spec_parse_u8(dec_rep(u as nat)) == Some(u),
{
    lemma_dec_parse_cycle(u as nat);
}

/// A single ASCII character encodes to its own byte, a valid UTF-8 string.
pub proof fn lemma_ascii_char_bytes(c: char)
    requires
        (c as u32) < 128,
    ensures
        encode_utf8(seq![c]) == seq![c as u8],
        valid_utf8(seq![c as u8]),
{
    assert(is_ascii_chars(seq![c]));
    vstd::utf8::is_ascii_chars_encode_utf8(seq![c]);
    assert(encode_utf8(seq![c]) =~= seq![c as u8]);
    vstd::utf8::encode_utf8_valid_utf8(seq![c]);
}

/// The digit string of `n` is valid UTF-8.
pub proof fn lemma_dec_rep_utf8(n: nat)
    ensures
        valid_utf8(dec_rep(n)),
{
    lemma_dec_chars(n);
    vstd::utf8::encode_utf8_valid_utf8(dec_chars(n));
}

/// The signed base-10 string of `v` is valid UTF-8.
pub proof fn lemma_dec_rep_int_utf8(v: int)
    ensures
        valid_utf8(dec_rep_int(v)),
{
    if v < 0 {
        lemma_dec_rep_utf8((-v) as nat);
        lemma_ascii_char_bytes('-');
        assert(seq![0x2du8] =~= seq!['-' as u8]);
        vstd::utf8::valid_utf8_concat(seq![0x2du8], dec_rep((-v) as nat));
    } else {
        lemma_dec_rep_utf8(v as nat);
    }
}

/// Append the base-10 digit string of `n`.
pub fn push_dec_u64(out: &mut Vec<u8>, n: u64)
    ensures
        final(out)@ == old(out)@ + dec_rep(n as nat),
    decreases n,
{
    if n < 10 {
        out.push(0x30 + n as u8);
        assert(out@ =~= old(out)@ + dec_rep(n as nat));
    } else {
        push_dec_u64(out, n / 10);
        out.push(0x30 + (n % 10) as u8);
        assert(out@ =~= old(out)@ + dec_rep(n as nat));
    }
}

/// Append the base-10 string of `v`, with a `-` sign when negative.
pub fn push_dec_i64(out: &mut Vec<u8>, v: i64)
    requires
        v > i64::MIN,
    ensures
        final(out)@ == old(out)@ + dec_rep_int(v as int),
{
    if v < 0 {
        out.push(0x2d);
        push_dec_u64(out, (-v) as u64);
        assert(out@ =~= old(out)@ + dec_rep_int(v as int));
    } else {
        push_dec_u64(out, v as u64);
    }
}

/// The base-10 digit string of `n`, as an owned string.
pub fn dec_string(n: u64) -> (r: String)
    ensures
        r@ == dec_chars(n as nat),
{
    let mut bytes: Vec<u8> = Vec::new();
    push_dec_u64(&mut bytes, n);
    proof {
        lemma_dec_chars(n as nat);
        vstd::utf8::encode_utf8_valid_utf8(dec_chars(n as nat));
        vstd::utf8::encode_utf8_decode_utf8(dec_chars(n as nat));
        assert(bytes@ =~= dec_rep(n as nat));
    }
    match crate::util::string_from_utf8(bytes) {
        Some(s) => s,
        None => {
            proof {
                assert(false);
            }
            String::new()
        },
    }
}

} // verus!
