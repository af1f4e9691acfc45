//! Decimal value parsing.
//!
//! The text, XML and JSON loaders all carry field values as short byte
//! strings. This module parses those strings into the integer, boolean and
//! fixed-size array values of the font model, mirroring Rust's base-10
//! integer grammar: an optional single sign, then one or more ASCII digits,
//! rejected on overflow.

use vstd::prelude::*;

use crate::util::string_from_utf8;
use vstd::slice::slice_to_vec;

verus! {

/// An error parsing a single value.
#[derive(Clone, Copy, Debug, PartialEq, Eq, Structural)]
pub enum ParseError {
    /// A fixed-size array value held too few elements.
    ArrayUnderflow,
    /// A fixed-size array value held too many elements.
    ArrayOverflow,
    /// Not a decimal integer, or out of range for its type.
    InvalidInt,
    /// Not valid UTF-8.
    InvalidUtf8,
    /// A value outside the closed set its field accepts.
    InvalidValue,
    /// The payload is shorter than its layout requires.
    Underflow,
    /// The payload is longer than its layout requires.
    Overflow,
    /// A string payload is missing its NUL terminator.
    MissingNul,
    /// A string holds an embedded NUL and cannot be encoded.
    ContainsNul,
    /// A tokenizer error.
    Token(crate::tagged_attributes::Error),
}

/// Typed parsing from the string forms used by the text based encodings.
pub trait Parse: Sized {
    /// Parse from a string slice.
    fn parse(src: &str) -> Result<Self, ParseError>;

    /// Parse from raw bytes.
    fn parse_bytes(bytes: &[u8]) -> Result<Self, ParseError>;
}

pub open spec fn is_digit(b: u8) -> bool {
    0x30 <= b <= 0x39
}

pub open spec fn digit_val(b: u8) -> nat {
    (b - 0x30) as nat
}

pub open spec fn all_digits(s: Seq<u8>) -> bool {
    forall|i: int| 0 <= i < s.len() ==> is_digit(#[trigger] s[i])
}

/// The value of a digit string, most significant digit first.
pub open spec fn dec_val(s: Seq<u8>) -> nat
    decreases s.len(),
{
    if s.len() == 0 {
        0
    } else {
        dec_val(s.drop_last()) * 10 + digit_val(s.last())
    }
}

/// The value of a non-empty all-digit string, if it is one.
pub open spec fn digits_val(s: Seq<u8>) -> Option<nat> {
    if s.len() > 0 && all_digits(s) {
        Some(dec_val(s))
    } else {
        None
    }
}

/// Unsigned decimal grammar: an optional `+`, then one or more digits.
pub open spec fn spec_parse_uint(s: Seq<u8>) -> Option<nat> {
    if s.len() >= 1 && s[0] == 0x2b {
        digits_val(s.skip(1))
    } else {
        digits_val(s)
    }
}

/// Signed decimal grammar: an optional `+` or `-`, then one or more digits.
pub open spec fn spec_parse_sint(s: Seq<u8>) -> Option<int> {
    if s.len() >= 1 && s[0] == 0x2d {
        match digits_val(s.skip(1)) {
            Some(n) => Some(-(n as int)),
            None => None,
        }
    } else {
        match spec_parse_uint(s) {
            Some(n) => Some(n as int),
            None => None,
        }
    }
}

pub open spec fn spec_parse_u8(s: Seq<u8>) -> Option<u8> {
    match spec_parse_uint(s) {
        Some(n) => if n <= 0xff { Some(n as u8) } else { None },
        None => None,
    }
}

pub open spec fn spec_parse_u16(s: Seq<u8>) -> Option<u16> {
    match spec_parse_uint(s) {
        Some(n) => if n <= 0xffff { Some(n as u16) } else { None },
        None => None,
    }
}

pub open spec fn spec_parse_u32(s: Seq<u8>) -> Option<u32> {
    match spec_parse_uint(s) {
        Some(n) => if n <= 0xffff_ffff { Some(n as u32) } else { None },
        None => None,
    }
}

pub open spec fn spec_parse_i16(s: Seq<u8>) -> Option<i16> {
    match spec_parse_sint(s) {
        Some(n) => if -0x8000 <= n <= 0x7fff { Some(n as i16) } else { None },
        None => None,
    }
}

/// A boolean value is any `u32`; zero is false, all else true.
pub open spec fn spec_parse_bool(s: Seq<u8>) -> Option<bool> {
    match spec_parse_u32(s) {
        Some(n) => Some(n != 0),
        None => None,
    }
}

/// The value of a digit string dominates the value of each of its prefixes.
proof fn lemma_dec_val_prefix(s: Seq<u8>, j: int)
    requires
        0 <= j <= s.len(),
    ensures
        dec_val(s) >= dec_val(s.take(j)),
    decreases s.len() - j,
{
    if j < s.len() {
        assert(s.take(j + 1).drop_last() =~= s.take(j));
        assert(dec_val(s.take(j + 1)) == dec_val(s.take(j)) * 10 + digit_val(s.take(j + 1).last()));
        lemma_dec_val_prefix(s, j + 1);
    } else {
        assert(s.take(j) =~= s);
    }
}

/// Parse a string of decimal digits with value at most `max`, where
/// `max <= u32::MAX`.
fn parse_digits_max(s: &[u8], max: u64) -> (r: Option<u64>)
    requires
        max <= 0xffff_ffff,
    ensures
        r is Some <==> (digits_val(s@) matches Some(n) && n <= max),
        r matches Some(v) ==> digits_val(s@) == Some(v as nat),
{
    if s.len() == 0 {
        return None;
    }
    let mut i: usize = 0;
    let mut acc: u64 = 0;
    while i < s.len()
        invariant
            0 <= i <= s.len(),
            s@.len() > 0,
            all_digits(s@.subrange(0, i as int)),
            acc == dec_val(s@.subrange(0, i as int)),
            acc <= max,
            max <= 0xffff_ffff,
        decreases s.len() - i,
    {
        let b = s[i];
        if b < 0x30 || b > 0x39 {
            assert(!all_digits(s@));
            return None;
        }
        let d = (b - 0x30) as u64;
        let na = acc * 10 + d;
        assert(s@.subrange(0, i + 1).drop_last() =~= s@.subrange(0, i as int));
        assert(na == dec_val(s@.subrange(0, i + 1)));
        if na > max {
            proof {
                if all_digits(s@) {
                    lemma_dec_val_prefix(s@, i + 1);
                    assert(s@.take(i + 1) =~= s@.subrange(0, i + 1));
                }
            }
            return None;
        }
        acc = na;
        i = i + 1;
    }
    proof {
        assert(s@.subrange(0, i as int) =~= s@);
    }
    Some(acc)
}

/// Parse an unsigned decimal of at most `max`, where `max <= u32::MAX`.
fn parse_uint_max(s: &[u8], max: u64) -> (r: Option<u64>)
    requires
        max <= 0xffff_ffff,
    ensures
        r is Some <==> (spec_parse_uint(s@) matches Some(n) && n <= max),
        r matches Some(v) ==> spec_parse_uint(s@) == Some(v as nat),
{
    if s.len() > 0 && s[0] == 0x2b {
        let rest = &s[1..s.len()];
        assert(rest@ =~= s@.skip(1));
        parse_digits_max(rest, max)
    } else {
        parse_digits_max(s, max)
    }
}

/// Parse a `u8` decimal string.
pub fn parse_u8_bytes(s: &[u8]) -> (r: Result<u8, ParseError>)
    ensures
        r matches Ok(v) ==> spec_parse_u8(s@) == Some(v),
        r is Err <==> spec_parse_u8(s@) is None,
        r matches Err(e) ==> e == ParseError::InvalidInt,
{
    match parse_uint_max(s, 0xff) {
        Some(v) => Ok(v as u8),
        None => Err(ParseError::InvalidInt),
    }
}

/// Parse a `u16` decimal string.
pub fn parse_u16_bytes(s: &[u8]) -> (r: Result<u16, ParseError>)
    ensures
        r matches Ok(v) ==> spec_parse_u16(s@) == Some(v),
        r is Err <==> spec_parse_u16(s@) is None,
        r matches Err(e) ==> e == ParseError::InvalidInt,
{
    match parse_uint_max(s, 0xffff) {
        Some(v) => Ok(v as u16),
        None => Err(ParseError::InvalidInt),
    }
}

/// Parse a `u32` decimal string.
pub fn parse_u32_bytes(s: &[u8]) -> (r: Result<u32, ParseError>)
    ensures
        r matches Ok(v) ==> spec_parse_u32(s@) == Some(v),
        r is Err <==> spec_parse_u32(s@) is None,
        r matches Err(e) ==> e == ParseError::InvalidInt,
{
    match parse_uint_max(s, 0xffff_ffff) {
        Some(v) => Ok(v as u32),
        None => Err(ParseError::InvalidInt),
    }
}

/// Parse an `i16` decimal string.
pub fn parse_i16_bytes(s: &[u8]) -> (r: Result<i16, ParseError>)
    ensures
        r matches Ok(v) ==> spec_parse_i16(s@) == Some(v),
        r is Err <==> spec_parse_i16(s@) is None,
        r matches Err(e) ==> e == ParseError::InvalidInt,
{
    if s.len() > 0 && s[0] == 0x2d {
        let rest = &s[1..s.len()];
        assert(rest@ =~= s@.skip(1));
        match parse_digits_max(rest, 0x8000) {
            Some(v) => Ok((0 - (v as i32)) as i16),
            None => Err(ParseError::InvalidInt),
        }
    } else {
        match parse_uint_max(s, 0x7fff) {
            Some(v) => Ok(v as i16),
            None => Err(ParseError::InvalidInt),
        }
    }
}

/// Parse a boolean: a `u32` decimal string, zero for false.
pub fn parse_bool_bytes(s: &[u8]) -> (r: Result<bool, ParseError>)
    ensures
        r matches Ok(v) ==> spec_parse_bool(s@) == Some(v),
        r is Err <==> spec_parse_bool(s@) is None,
        r matches Err(e) ==> e == ParseError::InvalidInt,
{
    match parse_u32_bytes(s) {
        Ok(v) => Ok(v != 0),
        Err(e) => Err(e),
    }
}

pub open spec fn is_ws_byte(b: u8) -> bool {
    b == 0x20 || 0x09 <= b <= 0x0d
}

pub open spec fn trim_start_rec(s: Seq<u8>) -> Seq<u8>
    decreases s.len(),
{
    if s.len() > 0 && is_ws_byte(s[0]) {
        trim_start_rec(s.drop_first())
    } else {
        s
    }
}

pub open spec fn trim_end_rec(s: Seq<u8>) -> Seq<u8>
    decreases s.len(),
{
    if s.len() > 0 && is_ws_byte(s.last()) {
        trim_end_rec(s.drop_last())
    } else {
        s
    }
}

/// The string with leading and trailing ASCII whitespace removed.
pub open spec fn spec_trim(s: Seq<u8>) -> Seq<u8> {
    trim_end_rec(trim_start_rec(s))
}

proof fn lemma_trim_start(s: Seq<u8>, k: int)
    requires
        0 <= k <= s.len(),
        forall|i: int| 0 <= i < k ==> is_ws_byte(#[trigger] s[i]),
        k < s.len() ==> !is_ws_byte(s[k]),
    ensures
        trim_start_rec(s) == s.skip(k),
    decreases k,
{
    if k == 0 {
        assert(s.skip(0) =~= s);
    } else {
        assert(trim_start_rec(s) == trim_start_rec(s.drop_first()));
        lemma_trim_start(s.drop_first(), k - 1);
        assert(s.drop_first().skip(k - 1) =~= s.skip(k));
    }
}

proof fn lemma_trim_end(s: Seq<u8>, k: int)
    requires
        0 <= k <= s.len(),
        forall|i: int| k <= i < s.len() ==> is_ws_byte(#[trigger] s[i]),
        k > 0 ==> !is_ws_byte(s[k - 1]),
    ensures
        trim_end_rec(s) == s.take(k),
    decreases s.len() - k,
{
    if k == s.len() {
        assert(s.take(k) =~= s);
    } else {
        assert(trim_end_rec(s) == trim_end_rec(s.drop_last()));
        lemma_trim_end(s.drop_last(), k);
        assert(s.drop_last().take(k) =~= s.take(k));
    }
}

/// Strip leading and trailing ASCII whitespace from a byte string.
pub fn trim_bytes<'a>(s: &'a [u8]) -> (r: &'a [u8])
    ensures
        r@ == spec_trim(s@),
{
    let mut a: usize = 0;
    while a < s.len() && (s[a] == 0x20 || (0x09 <= s[a] && s[a] <= 0x0d))
        invariant
            0 <= a <= s.len(),
            forall|i: int| 0 <= i < a ==> is_ws_byte(#[trigger] s@[i]),
        decreases s.len() - a,
    {
        a = a + 1;
    }
    proof {
        lemma_trim_start(s@, a as int);
    }
    let mut b: usize = s.len();
    while b > a && (s[b - 1] == 0x20 || (0x09 <= s[b - 1] && s[b - 1] <= 0x0d))
        invariant
            a <= b <= s.len(),
            forall|i: int| 0 <= i < a ==> is_ws_byte(#[trigger] s@[i]),
            forall|i: int| b <= i < s.len() ==> is_ws_byte(#[trigger] s@[i]),
        decreases b,
    {
        b = b - 1;
    }
    proof {
        let t = s@.skip(a as int);
        lemma_trim_end(t, b - a);
        assert(t.take(b - a) =~= s@.subrange(a as int, b as int));
    }
    &s[a..b]
}

/// The index of the first occurrence of `b` in `s`, or `s.len()` if none.
pub open spec fn first_at(s: Seq<u8>, b: u8) -> int
    decreases s.len(),
{
    if s.len() == 0 {
        0
    } else if s[0] == b {
        0
    } else {
        1 + first_at(s.drop_first(), b)
    }
}

pub proof fn lemma_first_at(s: Seq<u8>, b: u8)
    ensures
        0 <= first_at(s, b) <= s.len(),
        first_at(s, b) < s.len() ==> s[first_at(s, b)] == b,
        forall|i: int| 0 <= i < first_at(s, b) ==> s[i] != b,
    decreases s.len(),
{
    if s.len() > 0 && s[0] != b {
        lemma_first_at(s.drop_first(), b);
        assert forall|i: int| 0 <= i < first_at(s, b) implies s[i] != b by {
            if i > 0 {
                assert(s.drop_first()[i - 1] == s[i]);
            }
        }
    }
}

pub proof fn lemma_first_at_is(s: Seq<u8>, b: u8, k: int)
    requires
        0 <= k <= s.len(),
        forall|i: int| 0 <= i < k ==> s[i] != b,
        k < s.len() ==> s[k] == b,
    ensures
        first_at(s, b) == k,
    decreases k,
{
    if s.len() == 0 {
    } else if k == 0 {
    } else {
        lemma_first_at_is(s.drop_first(), b, k - 1);
    }
}

/// Split at commas, dropping one trailing empty piece, as a terminator
/// separated list has.
pub open spec fn split_commas(s: Seq<u8>) -> Seq<Seq<u8>>
    decreases s.len(),
{
    let k = first_at(s, 0x2c);
    if k == s.len() {
        if s.len() == 0 {
            seq![]
        } else {
            seq![s]
        }
    } else if 0 <= k < s.len() {
        seq![s.take(k)] + split_commas(s.skip(k + 1))
    } else {
        seq![]
    }
}

/// Parse the pieces of a comma separated list as exactly `n` `u8` values,
/// each trimmed of surrounding whitespace first.
pub open spec fn spec_parse_u8_pieces(ps: Seq<Seq<u8>>, n: int) -> Result<Seq<u8>, ParseError>
    decreases n,
{
    if n <= 0 {
        if ps.len() > 0 {
            Err(ParseError::ArrayOverflow)
        } else {
            Ok(seq![])
        }
    } else if ps.len() == 0 {
        Err(ParseError::ArrayUnderflow)
    } else {
        match spec_parse_u8(spec_trim(ps[0])) {
            Some(v) => match spec_parse_u8_pieces(ps.drop_first(), n - 1) {
                Ok(rest) => Ok(seq![v] + rest),
                Err(e) => Err(e),
            },
            None => Err(ParseError::InvalidInt),
        }
    }
}

/// A comma separated list of exactly `n` `u8` values.
pub open spec fn spec_parse_u8_array(s: Seq<u8>, n: int) -> Result<Seq<u8>, ParseError> {
    spec_parse_u8_pieces(split_commas(s), n)
}

/// Split a byte string at commas, dropping one trailing empty piece.
fn split_commas_exec<'a>(s: &'a [u8]) -> (r: Vec<&'a [u8]>)
    ensures
        r@.map_values(|p: &[u8]| p@) == split_commas(s@),
{
    let mut r: Vec<&'a [u8]> = Vec::new();
    let mut i: usize = 0;
    proof {
        assert(s@.skip(0) =~= s@);
        assert(r@.map_values(|p: &[u8]| p@) =~= Seq::<Seq<u8>>::empty());
        assert(Seq::<Seq<u8>>::empty() + split_commas(s@) =~= split_commas(s@));
    }
    while i < s.len()
        invariant
            0 <= i <= s.len(),
            split_commas(s@) == r@.map_values(|p: &[u8]| p@) + split_commas(s@.skip(i as int)),
        decreases s.len() - i,
    {
        let ghost done = r@.map_values(|p: &[u8]| p@);
        let ghost rem = s@.skip(i as int);
        let mut j: usize = i;
        while j < s.len() && s[j] != 0x2c
            invariant
                i <= j <= s.len(),
                forall|q: int| i <= q < j ==> s@[q] != 0x2c,
            decreases s.len() - j,
        {
            j = j + 1;
        }
        proof {
            assert forall|q: int| 0 <= q < j - i implies rem[q] != 0x2c by {
                assert(rem[q] == s@[i + q]);
            }
            if j < s.len() {
                assert(rem[j - i] == s@[j as int]);
            }
            lemma_first_at_is(rem, 0x2c, j - i);
        }
        let piece = &s[i..j];
        proof {
            assert(piece@ =~= rem.take(j - i));
        }
        if j >= s.len() {
            r.push(piece);
            proof {
                assert(rem.take(j - i) =~= rem);
                assert(split_commas(rem) == seq![rem]);
                assert(s@.skip(s@.len() as int) =~= Seq::<u8>::empty());
                assert(split_commas(Seq::<u8>::empty()) =~= Seq::<Seq<u8>>::empty());
                assert(r@.map_values(|p: &[u8]| p@) =~= done + seq![rem]);
                assert((done + seq![rem]) + split_commas(s@.skip(s@.len() as int)) =~= done
                    + split_commas(rem));
            }
            i = s.len();
        } else {
            r.push(piece);
            proof {
                assert(split_commas(rem) == seq![rem.take(j - i)] + split_commas(
                    rem.skip(j - i + 1),
                ));
                assert(rem.skip(j - i + 1) =~= s@.skip(j + 1));
                assert(r@.map_values(|p: &[u8]| p@) =~= done + seq![rem.take(j - i)]);
                assert((done + seq![rem.take(j - i)]) + split_commas(s@.skip(j + 1)) =~= done
                    + split_commas(rem));
            }
            i = j + 1;
        }
    }
    proof {
        assert(s@.skip(s@.len() as int) =~= Seq::<u8>::empty());
        assert(split_commas(Seq::<u8>::empty()) =~= Seq::<Seq<u8>>::empty());
        assert(r@.map_values(|p: &[u8]| p@) + Seq::<Seq<u8>>::empty() =~= r@.map_values(
            |p: &[u8]| p@,
        ));
    }
    r
}

/// Parse a comma separated list of exactly `n` `u8` values.
pub fn parse_u8_array(s: &[u8], n: usize) -> (r: Result<Vec<u8>, ParseError>)
    ensures
        r matches Ok(v) ==> spec_parse_u8_array(s@, n as int) == Ok::<Seq<u8>, ParseError>(v@)
            && v@.len() == n,
        r matches Err(e) ==> spec_parse_u8_array(s@, n as int) == Err::<Seq<u8>, ParseError>(e),
{
    let pieces = split_commas_exec(s);
    let ghost ps = split_commas(s@);
    let mut out: Vec<u8> = Vec::new();
    let mut i: usize = 0;
    proof {
        assert(ps.skip(0) =~= ps);
        let res0 = spec_parse_u8_pieces(ps, n as int);
        if res0 is Ok {
            assert(out@ + res0->Ok_0 =~= res0->Ok_0);
        }
    }
    while i < n
        invariant
            0 <= i <= n,
            i <= ps.len(),
            ps == split_commas(s@),
            ps.len() == pieces@.len(),
            forall|k: int| 0 <= k < ps.len() ==> ps[k] == #[trigger] pieces@[k]@,
            out@.len() == i,
            spec_parse_u8_pieces(ps, n as int) == (match spec_parse_u8_pieces(
                ps.skip(i as int),
                n - i,
            ) {
                Ok(rest) => Ok::<Seq<u8>, ParseError>(out@ + rest),
                Err(e) => Err::<Seq<u8>, ParseError>(e),
            }),
        decreases n - i,
    {
        if i >= pieces.len() {
            assert(ps.skip(i as int).len() == 0);
            assert(spec_parse_u8_pieces(ps.skip(i as int), n - i) == Err::<
                Seq<u8>,
                ParseError,
            >(ParseError::ArrayUnderflow));
            return Err(ParseError::ArrayUnderflow);
        }
        let piece = trim_bytes(pieces[i]);
        let ghost pre = ps.skip(i as int);
        assert(ps[i as int] == pieces@[i as int]@);
        assert(pre[0] == ps[i as int]);
        assert(piece@ == spec_trim(pre[0]));
        match parse_u8_bytes(piece) {
            Ok(v) => {
                let ghost out_old = out@;
                out.push(v);
                proof {
                    assert(pre.drop_first() =~= ps.skip(i + 1));
                    assert(spec_parse_u8_pieces(pre, n - i) == (match spec_parse_u8_pieces(
                        pre.drop_first(),
                        n - i - 1,
                    ) {
                        Ok(rest) => Ok::<Seq<u8>, ParseError>(seq![v] + rest),
                        Err(e) => Err::<Seq<u8>, ParseError>(e),
                    }));
                    assert(out@ =~= out_old + seq![v]);
                    let res = spec_parse_u8_pieces(ps.skip(i + 1), n - (i + 1));
                    if res is Ok {
                        let rest = res->Ok_0;
                        assert(out_old + (seq![v] + rest) =~= out@ + rest);
                        assert(spec_parse_u8_pieces(pre, n - i) == Ok::<Seq<u8>, ParseError>(
                            seq![v] + rest,
                        ));
                    }
                }
            },
            Err(e) => {
                proof {
                    assert(spec_parse_u8_pieces(pre, n - i) == Err::<Seq<u8>, ParseError>(e));
                }
                return Err(e);
            },
        }
        i = i + 1;
    }
    if i < pieces.len() {
        assert(ps.skip(i as int).len() > 0);
        assert(spec_parse_u8_pieces(ps.skip(i as int), n - i) == Err::<Seq<u8>, ParseError>(
            ParseError::ArrayOverflow,
        ));
        return Err(ParseError::ArrayOverflow);
    }
    proof {
        assert(ps.skip(i as int).len() == 0);
        assert(spec_parse_u8_pieces(ps.skip(i as int), n - i) == Ok::<Seq<u8>, ParseError>(
            Seq::<u8>::empty(),
        ));
        assert(out@ + Seq::<u8>::empty() =~= out@);
    }
    Ok(out)
}

impl Parse for u8 {
    fn parse(src: &str) -> Result<Self, ParseError> {
        Self::parse_bytes(src.as_bytes())
    }

    fn parse_bytes(bytes: &[u8]) -> Result<Self, ParseError> {
        parse_u8_bytes(bytes)
    }
}

impl Parse for u16 {
    fn parse(src: &str) -> Result<Self, ParseError> {
        Self::parse_bytes(src.as_bytes())
    }

    fn parse_bytes(bytes: &[u8]) -> Result<Self, ParseError> {
        parse_u16_bytes(bytes)
    }
}

impl Parse for u32 {
    fn parse(src: &str) -> Result<Self, ParseError> {
        Self::parse_bytes(src.as_bytes())
    }

    fn parse_bytes(bytes: &[u8]) -> Result<Self, ParseError> {
        parse_u32_bytes(bytes)
    }
}

impl Parse for i16 {
    fn parse(src: &str) -> Result<Self, ParseError> {
        Self::parse_bytes(src.as_bytes())
    }

    fn parse_bytes(bytes: &[u8]) -> Result<Self, ParseError> {
        parse_i16_bytes(bytes)
    }
}

impl Parse for bool {
    fn parse(src: &str) -> Result<Self, ParseError> {
        Self::parse_bytes(src.as_bytes())
    }

    fn parse_bytes(bytes: &[u8]) -> Result<Self, ParseError> {
        parse_bool_bytes(bytes)
    }
}

impl Parse for String {
    fn parse(src: &str) -> Result<Self, ParseError> {
        Self::parse_bytes(src.as_bytes())
    }

    fn parse_bytes(bytes: &[u8]) -> Result<Self, ParseError> {
        match string_from_utf8(slice_to_vec(bytes)) {
            Some(s) => Ok(s),
            None => Err(ParseError::InvalidUtf8),
        }
    }
}

} // verus!
