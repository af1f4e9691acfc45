//! UTF-8 string conversion and byte string helpers.

use vstd::prelude::*;

use crate::error::Error;
use crate::parse::ParseError;
use vstd::utf8::{decode_utf8, valid_utf8};

verus! {

/// Relies on `String::from_utf8`: returns the decoded string exactly when
/// the bytes are valid UTF-8.
#[verifier::external_body]
pub(crate) fn string_from_utf8(bytes: Vec<u8>) -> (r: Option<String>)
    ensures
        r is Some <==> valid_utf8(bytes@),
        r matches Some(s) ==> s@ == decode_utf8(bytes@),
{
    String::from_utf8(bytes).ok()
}

/// Relies on `str::from_utf8`: returns a view of the same bytes exactly when
/// they are valid UTF-8.
#[verifier::external_body]
pub(crate) fn str_from_utf8(bytes: &[u8]) -> (r: Option<&str>)
    ensures
        r is Some <==> valid_utf8(bytes@),
        r matches Some(s) ==> s@ == decode_utf8(bytes@),
{
    core::str::from_utf8(bytes).ok()
}

/// Decode bytes as UTF-8 into an owned string.
///
/// Returns a parse error, carrying the given line number, exactly when the
/// bytes are not valid UTF-8.
pub fn utf8_string(line: Option<usize>, bytes: &[u8]) -> (r: Result<String, Error>)
    ensures
        r is Ok <==> valid_utf8(bytes@),
        r matches Ok(s) ==> s@ == decode_utf8(bytes@),
        r matches Err(e) ==> (e matches Error::Parse { line: l, err, .. } && l == line && err
            == ParseError::InvalidUtf8),
{
    match string_from_utf8(vstd::slice::slice_to_vec(bytes)) {
        Some(s) => Ok(s),
        None => Err(
            Error::Parse { line, entity: "String".to_owned(), err: ParseError::InvalidUtf8 },
        ),
    }
}

/// Decode bytes as UTF-8 into a borrowed string slice.
///
/// Returns a parse error, carrying the given line number, exactly when the
/// bytes are not valid UTF-8.
pub fn utf8_str<'a>(line: Option<usize>, bytes: &'a [u8]) -> (r: Result<&'a str, Error>)
    ensures
        r is Ok <==> valid_utf8(bytes@),
        r matches Ok(s) ==> s@ == decode_utf8(bytes@),
        r matches Err(e) ==> (e matches Error::Parse { line: l, err, .. } && l == line && err
            == ParseError::InvalidUtf8),
{
    match str_from_utf8(bytes) {
        Some(s) => Ok(s),
        None => Err(
            Error::Parse { line, entity: "String".to_owned(), err: ParseError::InvalidUtf8 },
        ),
    }
}

/// Relies on `std::io::Read::read_to_end`: reads the stream to its end.
/// Nothing is promised of the bytes themselves: they depend on the outside
/// source. The buffer, like any single allocation, cannot exceed
/// `isize::MAX` bytes.
#[verifier::external_body]
pub(crate) fn read_all<R: std::io::Read>(reader: R) -> (r: Result<Vec<u8>, Error>)
    ensures
        r matches Ok(v) ==> v@.len() < 0x8000_0000_0000_0000,
{
    let mut reader = reader;
    let mut vec: Vec<u8> = Vec::new();
    match reader.read_to_end(&mut vec) {
        Ok(_) => Ok(vec),
        Err(e) => Err(Error::Io { err: format!("{}", e) }),
    }
}

/// Relies on `std::io::Write::write_all`: writes the whole buffer, or fails
/// with the underlying error, which this wrapper carries as an I/O error.
#[verifier::external_body]
pub(crate) fn write_all<W: std::io::Write>(writer: W, bytes: &[u8]) -> (r: Result<(), Error>)
    ensures
        r matches Err(e) ==> e is Io,
{
    let mut writer = writer;
    match writer.write_all(bytes) {
        Ok(()) => Ok(()),
        Err(e) => Err(Error::Io { err: format!("{}", e) }),
    }
}

/// Compare two byte strings for equality.
pub fn bytes_eq(a: &[u8], b: &[u8]) -> (r: bool)
    ensures
        r == (a@ == b@),
{
    if a.len() != b.len() {
        assert(a@.len() != b@.len());
        return false;
    }
    let mut i: usize = 0;
    while i < a.len()
        invariant
            0 <= i <= a.len(),
            a@.len() == b@.len(),
            forall|j: int| 0 <= j < i ==> a@[j] == b@[j],
        decreases a.len() - i,
    {
        if a[i] != b[i] {
            return false;
        }
        i = i + 1;
    }
    proof {
        assert(a@ =~= b@);
    }
    true
}

/// Compare two string slices for equality of their character sequences.
pub fn str_eq(a: &str, b: &str) -> (r: bool)
    ensures
        r == (a@ == b@),
{
    let r = bytes_eq(a.as_bytes(), b.as_bytes());
    proof {
        vstd::utf8::encode_utf8_decode_utf8(a@);
        vstd::utf8::encode_utf8_decode_utf8(b@);
    }
    r
}

} // verus!
