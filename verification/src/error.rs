//! Crate errors.

use vstd::prelude::*;

use crate::charset::Charset;
use crate::parse::ParseError;

verus! {

/// Crate errors.
///
/// Describes the various errors that may occur when encoding, decoding or
/// manipulating BMFont data structures. Every error carries the context
/// needed for an actionable message: the 1-based line number where
/// applicable, and the offending block id, key or value.
#[derive(Debug)]
#[non_exhaustive]
pub enum Error {
    /// The supplied page ids do not form a sequential list (decode only).
    BrokenPageList,
    /// Duplicate character count (decode only).
    DuplicateCharCount { line: Option<usize> },
    /// Duplicate character id.
    DuplicateChar { line: Option<usize>, id: u32 },
    /// Duplicate common block (decode only).
    DuplicateCommonBlock { line: Option<usize> },
    /// Duplicate info block (decode only).
    DuplicateInfoBlock { line: Option<usize> },
    /// Duplicate kerning count (decode only).
    DuplicateKerningCount { line: Option<usize> },
    /// Duplicate kerning pair entry.
    DuplicateKerningPair { line: Option<usize>, first: u32, second: u32 },
    /// Duplicate tagged key value (decode only).
    DuplicateKey { line: Option<usize>, key: String },
    /// Duplicate page id (decode only).
    DuplicatePageId { line: Option<usize>, id: u32 },
    /// Duplicate tag (decode only).
    DuplicateTag { line: Option<usize>, tag: String },
    /// Page name lengths are not all of the same size.
    IncongruentPageNameLen { line: Option<usize> },
    /// The input is not a valid BMFont binary file (decode only).
    InvalidBinary { magic_bytes: u32 },
    /// Invalid binary block id (decode only).
    InvalidBinaryBlock { id: u8 },
    /// The unicode flag and character set encoding disagree.
    InvalidBinaryEncoding { unicode: bool, charset: Charset },
    /// The specified character count does not match the number of realized
    /// characters (decode only).
    InvalidCharCount { specified: u32, realized: usize },
    /// The specified character page does not exist.
    InvalidCharPage { char_id: u32, page_id: u32 },
    /// The specified kerning pair count does not match the number of
    /// realized kerning pairs (decode only).
    InvalidKerningCount { specified: u32, realized: usize },
    /// The specified kerning character does not exist.
    InvalidKerningChar { id: u32 },
    /// The tagged key name is not valid (decode only).
    InvalidKey { line: Option<usize>, key: String },
    /// The specified page count does not match the number of realized pages
    /// (decode only).
    InvalidPageCount { specified: u16, realized: usize },
    /// The tag name is not valid (decode only).
    InvalidTag { line: Option<usize>, tag: String },
    /// The common block is missing.
    NoCommonBlock,
    /// The info block is missing.
    NoInfoBlock,
    /// There was an error parsing an entity.
    Parse { line: Option<usize>, entity: String, err: ParseError },
    /// The value string contains potentially unsafe control characters.
    UnsafeValueString { path: String, value: String },
    /// The binary version is unsupported (decode only).
    UnsupportedBinaryVersion { version: u8 },
    /// The value string contains characters that cannot be encoded.
    UnsupportedValueEncoding { path: String, value: String },
    /// Internal error. This should not occur.
    Internal { err: String },
    /// Io error.
    Io { err: String },
}

} // verus!
