//! Character set encoding codec.

use vstd::prelude::*;

use crate::parse::{spec_parse_u8, Parse, ParseError};
use crate::render::{dec_chars, dec_rep, dec_string, is_digit_char, lemma_dec_chars,
    lemma_dec_parse_u8_cycle};
use crate::util::{str_eq, string_from_utf8};
use vstd::utf8::{decode_utf8, encode_utf8, valid_utf8};

verus! {

/// ANSI character encoding.
pub const ANSI: u8 = 0;

/// Default character encoding.
pub const DEFAULT: u8 = 1;

/// Symbol character encoding.
pub const SYMBOL: u8 = 2;

/// Shift JIS character encoding.
pub const SHIFTJIS: u8 = 128;

/// Hangul character encoding.
pub const HANGUL: u8 = 129;

/// GB 2312 Chinese character encoding.
pub const GB2312: u8 = 134;

/// Big5 Chinese character encoding.
pub const CHINESEBIG5: u8 = 136;

/// OEM character encoding.
pub const OEM: u8 = 255;

/// Johab Korean character encoding.
pub const JOHAB: u8 = 130;

/// Hebrew character encoding.
pub const HEBREW: u8 = 177;

/// Arabic character encoding.
pub const ARABIC: u8 = 178;

/// Greek character encoding.
pub const GREEK: u8 = 161;

/// Turkish character encoding.
pub const TURKISH: u8 = 162;

/// Vietnamese character encoding.
pub const VIETNAMESE: u8 = 163;

/// Thai character encoding.
pub const THAI: u8 = 222;

/// Eastern Europe character encoding.
pub const EASTEUROPE: u8 = 238;

/// Russian character encoding.
pub const RUSSIAN: u8 = 204;

/// Mac character encoding.
pub const MAC: u8 = 77;

/// Baltic character encoding.
pub const BALTIC: u8 = 186;

/// Non-Unicode character set encoding.
///
/// Defines the character set encoding when using non-Unicode fonts. When
/// Unicode is in use this should be set to [Charset::Null].
///
/// The [Charset::Undefined] variant holds a non-canonical string value,
/// produced by text-based loaders when the value is not a recognized tag.
/// The undefined value is discarded when converting to binary.
#[derive(Debug, Clone, PartialEq, Eq)]
pub enum Charset {
    /// No character set encoding: the font is Unicode.
    Null,
    /// A BMFont defined character set encoding constant.
    Tagged(u8),
    /// A non-BMFont defined character set encoding label.
    Undefined(String),
}

/// The mathematical value of a [Charset].
pub ghost enum CharsetV {
    Null,
    Tagged(u8),
    Undefined(Seq<char>),
}

impl View for Charset {
    type V = CharsetV;

    open spec fn view(&self) -> CharsetV {
        match self {
            Charset::Null => CharsetV::Null,
            Charset::Tagged(u) => CharsetV::Tagged(*u),
            Charset::Undefined(s) => CharsetV::Undefined(s@),
        }
    }
}

/// The canonical name of a tagged character set encoding, if it has one.
pub open spec fn charset_tag_name(u: u8) -> Option<Seq<char>> {
    if u == ANSI {
        Some("ANSI"@)
    } else if u == DEFAULT {
        Some("DEFAULT"@)
    } else if u == SYMBOL {
        Some("SYMBOL"@)
    } else if u == MAC {
        Some("MAC"@)
    } else if u == SHIFTJIS {
        Some("SHIFTJIS"@)
    } else if u == HANGUL {
        Some("HANGUL"@)
    } else if u == JOHAB {
        Some("JOHAB"@)
    } else if u == GB2312 {
        Some("GB2312"@)
    } else if u == CHINESEBIG5 {
        Some("CHINESEBIG5"@)
    } else if u == GREEK {
        Some("GREEK"@)
    } else if u == TURKISH {
        Some("TURKISH"@)
    } else if u == VIETNAMESE {
        Some("VIETNAMESE"@)
    } else if u == HEBREW {
        Some("HEBREW"@)
    } else if u == ARABIC {
        Some("ARABIC"@)
    } else if u == BALTIC {
        Some("BALTIC"@)
    } else if u == RUSSIAN {
        Some("RUSSIAN"@)
    } else if u == THAI {
        Some("THAI"@)
    } else if u == EASTEUROPE {
        Some("EASTEUROPE"@)
    } else if u == OEM {
        Some("OEM"@)
    } else {
        None
    }
}

/// The canonical string rendering of a character set encoding.
pub open spec fn spec_charset_to_str(c: CharsetV) -> Seq<char> {
    match c {
        CharsetV::Null => Seq::<char>::empty(),
        CharsetV::Tagged(u) => match charset_tag_name(u) {
            Some(name) => name,
            None => dec_chars(u as nat),
        },
        CharsetV::Undefined(s) => s,
    }
}

/// The character set encoding a string denotes: empty is null, a known tag
/// name or a byte value is tagged, anything else undefined.
pub open spec fn spec_charset_from_str(s: Seq<char>) -> CharsetV {
    if s.len() == 0 {
        CharsetV::Null
    } else if s == "ANSI"@ {
        CharsetV::Tagged(ANSI)
    } else if s == "ARABIC"@ {
        CharsetV::Tagged(ARABIC)
    } else if s == "BALTIC"@ {
        CharsetV::Tagged(BALTIC)
    } else if s == "CHINESEBIG5"@ {
        CharsetV::Tagged(CHINESEBIG5)
    } else if s == "DEFAULT"@ {
        CharsetV::Tagged(DEFAULT)
    } else if s == "EASTEUROPE"@ {
        CharsetV::Tagged(EASTEUROPE)
    } else if s == "GB2312"@ {
        CharsetV::Tagged(GB2312)
    } else if s == "GREEK"@ {
        CharsetV::Tagged(GREEK)
    } else if s == "HANGUL"@ {
        CharsetV::Tagged(HANGUL)
    } else if s == "HEBREW"@ {
        CharsetV::Tagged(HEBREW)
    } else if s == "JOHAB"@ {
        CharsetV::Tagged(JOHAB)
    } else if s == "MAC"@ {
        CharsetV::Tagged(MAC)
    } else if s == "OEM"@ {
        CharsetV::Tagged(OEM)
    } else if s == "RUSSIAN"@ {
        CharsetV::Tagged(RUSSIAN)
    } else if s == "SHIFTJIS"@ {
        CharsetV::Tagged(SHIFTJIS)
    } else if s == "SYMBOL"@ {
        CharsetV::Tagged(SYMBOL)
    } else if s == "THAI"@ {
        CharsetV::Tagged(THAI)
    } else if s == "TURKISH"@ {
        CharsetV::Tagged(TURKISH)
    } else if s == "VIETNAMESE"@ {
        CharsetV::Tagged(VIETNAMESE)
    } else {
        match spec_parse_u8(encode_utf8(s)) {
            Some(u) => CharsetV::Tagged(u),
            None => CharsetV::Undefined(s),
        }
    }
}

impl Charset {
    /// The character set encoding denoted by a string.
    pub fn from(s: &str) -> (r: Charset)
        ensures
            r@ == spec_charset_from_str(s@),
    {
        if s.is_empty() {
            return Charset::Null;
        }
        if str_eq(s, "ANSI") {
            Charset::Tagged(ANSI)
        } else if str_eq(s, "ARABIC") {
            Charset::Tagged(ARABIC)
        } else if str_eq(s, "BALTIC") {
            Charset::Tagged(BALTIC)
        } else if str_eq(s, "CHINESEBIG5") {
            Charset::Tagged(CHINESEBIG5)
        } else if str_eq(s, "DEFAULT") {
            Charset::Tagged(DEFAULT)
        } else if str_eq(s, "EASTEUROPE") {
            Charset::Tagged(EASTEUROPE)
        } else if str_eq(s, "GB2312") {
            Charset::Tagged(GB2312)
        } else if str_eq(s, "GREEK") {
            Charset::Tagged(GREEK)
        } else if str_eq(s, "HANGUL") {
            Charset::Tagged(HANGUL)
        } else if str_eq(s, "HEBREW") {
            Charset::Tagged(HEBREW)
        } else if str_eq(s, "JOHAB") {
            Charset::Tagged(JOHAB)
        } else if str_eq(s, "MAC") {
            Charset::Tagged(MAC)
        } else if str_eq(s, "OEM") {
            Charset::Tagged(OEM)
        } else if str_eq(s, "RUSSIAN") {
            Charset::Tagged(RUSSIAN)
        } else if str_eq(s, "SHIFTJIS") {
            Charset::Tagged(SHIFTJIS)
        } else if str_eq(s, "SYMBOL") {
            Charset::Tagged(SYMBOL)
        } else if str_eq(s, "THAI") {
            Charset::Tagged(THAI)
        } else if str_eq(s, "TURKISH") {
            Charset::Tagged(TURKISH)
        } else if str_eq(s, "VIETNAMESE") {
            Charset::Tagged(VIETNAMESE)
        } else {
            match crate::parse::parse_u8_bytes(s.as_bytes()) {
                Ok(u) => Charset::Tagged(u),
                Err(_) => Charset::Undefined(s.to_owned()),
            }
        }
    }

    /// An equal copy of this character set encoding.
    pub fn duplicate(&self) -> (r: Charset)
        ensures
            r == *self,
    {
        match self {
            Charset::Null => Charset::Null,
            Charset::Tagged(u) => Charset::Tagged(*u),
            Charset::Undefined(s) => Charset::Undefined(s.clone()),
        }
    }

    /// The canonical string rendering of this character set encoding.
    pub fn to_string(&self) -> (r: String)
        ensures
            r@ == spec_charset_to_str(self@),
    {
        match self {
            Charset::Null => String::new(),
            Charset::Tagged(u) => {
                let u = *u;
                if u == ANSI {
                    "ANSI".to_owned()
                } else if u == DEFAULT {
                    "DEFAULT".to_owned()
                } else if u == SYMBOL {
                    "SYMBOL".to_owned()
                } else if u == MAC {
                    "MAC".to_owned()
                } else if u == SHIFTJIS {
                    "SHIFTJIS".to_owned()
                } else if u == HANGUL {
                    "HANGUL".to_owned()
                } else if u == JOHAB {
                    "JOHAB".to_owned()
                } else if u == GB2312 {
                    "GB2312".to_owned()
                } else if u == CHINESEBIG5 {
                    "CHINESEBIG5".to_owned()
                } else if u == GREEK {
                    "GREEK".to_owned()
                } else if u == TURKISH {
                    "TURKISH".to_owned()
                } else if u == VIETNAMESE {
                    "VIETNAMESE".to_owned()
                } else if u == HEBREW {
                    "HEBREW".to_owned()
                } else if u == ARABIC {
                    "ARABIC".to_owned()
                } else if u == BALTIC {
                    "BALTIC".to_owned()
                } else if u == RUSSIAN {
                    "RUSSIAN".to_owned()
                } else if u == THAI {
                    "THAI".to_owned()
                } else if u == EASTEUROPE {
                    "EASTEUROPE".to_owned()
                } else if u == OEM {
                    "OEM".to_owned()
                } else {
                    dec_string(u as u64)
                }
            },
            Charset::Undefined(s) => s.clone(),
        }
    }
}

impl Default for Charset {
    /// The null character set encoding.
    fn default() -> (r: Self)
        ensures
            r@ == CharsetV::Null,
    {
        Charset::Null
    }
}

impl Parse for Charset {
    fn parse(src: &str) -> Result<Self, ParseError> {
        Ok(Charset::from(src))
    }

    fn parse_bytes(bytes: &[u8]) -> Result<Self, ParseError> {
        match crate::util::str_from_utf8(bytes) {
            Some(s) => Ok(Charset::from(s)),
            None => Err(ParseError::InvalidUtf8),
        }
    }
}

/// The charset codec law: rendering any tagged character set encoding and
/// parsing the result gives back the same tagged encoding.
pub proof fn lemma_charset_tagged_cycle(u: u8)
    ensures
        spec_charset_from_str(spec_charset_to_str(CharsetV::Tagged(u))) == CharsetV::Tagged(u),
{
    reveal_strlit("ANSI");
    reveal_strlit("ARABIC");
    reveal_strlit("BALTIC");
    reveal_strlit("CHINESEBIG5");
    reveal_strlit("DEFAULT");
    reveal_strlit("EASTEUROPE");
    reveal_strlit("GB2312");
    reveal_strlit("GREEK");
    reveal_strlit("HANGUL");
    reveal_strlit("HEBREW");
    reveal_strlit("JOHAB");
    reveal_strlit("MAC");
    reveal_strlit("OEM");
    reveal_strlit("RUSSIAN");
    reveal_strlit("SHIFTJIS");
    reveal_strlit("SYMBOL");
    reveal_strlit("THAI");
    reveal_strlit("TURKISH");
    reveal_strlit("VIETNAMESE");
    let s = spec_charset_to_str(CharsetV::Tagged(u));
    if u == ANSI {
        assert(spec_charset_from_str("ANSI"@) == CharsetV::Tagged(ANSI));
    } else if u == DEFAULT {
        assert(spec_charset_from_str("DEFAULT"@) == CharsetV::Tagged(DEFAULT));
    } else if u == SYMBOL {
        assert(spec_charset_from_str("SYMBOL"@) == CharsetV::Tagged(SYMBOL));
    } else if u == MAC {
        assert(spec_charset_from_str("MAC"@) == CharsetV::Tagged(MAC));
    } else if u == SHIFTJIS {
        assert(spec_charset_from_str("SHIFTJIS"@) == CharsetV::Tagged(SHIFTJIS));
    } else if u == HANGUL {
        assert(spec_charset_from_str("HANGUL"@) == CharsetV::Tagged(HANGUL));
    } else if u == JOHAB {
        assert(spec_charset_from_str("JOHAB"@) == CharsetV::Tagged(JOHAB));
    } else if u == GB2312 {
        assert(spec_charset_from_str("GB2312"@) == CharsetV::Tagged(GB2312));
    } else if u == CHINESEBIG5 {
        assert(spec_charset_from_str("CHINESEBIG5"@) == CharsetV::Tagged(CHINESEBIG5));
    } else if u == GREEK {
        assert(spec_charset_from_str("GREEK"@) == CharsetV::Tagged(GREEK));
    } else if u == TURKISH {
        assert(spec_charset_from_str("TURKISH"@) == CharsetV::Tagged(TURKISH));
    } else if u == VIETNAMESE {
        assert(spec_charset_from_str("VIETNAMESE"@) == CharsetV::Tagged(VIETNAMESE));
    } else if u == HEBREW {
        assert("HEBREW"@[1] == 'E');
        assert("HANGUL"@[1] == 'A');
        assert("HEBREW"@ != "HANGUL"@);
        assert(spec_charset_from_str("HEBREW"@) == CharsetV::Tagged(HEBREW));
    } else if u == ARABIC {
        assert(spec_charset_from_str("ARABIC"@) == CharsetV::Tagged(ARABIC));
    } else if u == BALTIC {
        assert(spec_charset_from_str("BALTIC"@) == CharsetV::Tagged(BALTIC));
    } else if u == RUSSIAN {
        assert(spec_charset_from_str("RUSSIAN"@) == CharsetV::Tagged(RUSSIAN));
    } else if u == THAI {
        assert(spec_charset_from_str("THAI"@) == CharsetV::Tagged(THAI));
    } else if u == EASTEUROPE {
        assert(spec_charset_from_str("EASTEUROPE"@) == CharsetV::Tagged(EASTEUROPE));
    } else if u == OEM {
        assert(spec_charset_from_str("OEM"@) == CharsetV::Tagged(OEM));
    }
    if charset_tag_name(u) is None {
        lemma_dec_chars(u as nat);
        lemma_dec_parse_u8_cycle(u);
        assert(forall|d: nat| d < 10 ==> is_digit_char(#[trigger] crate::render::digit_char(d)));
        assert(is_digit_char(s[0]));
        assert(s.len() > 0);
        assert(s != "ANSI"@);
        assert(s != "ARABIC"@);
        assert(s != "BALTIC"@);
        assert(s != "CHINESEBIG5"@);
        assert(s != "DEFAULT"@);
        assert(s != "EASTEUROPE"@);
        assert(s != "GB2312"@);
        assert(s != "GREEK"@);
        assert(s != "HANGUL"@);
        assert(s != "HEBREW"@);
        assert(s != "JOHAB"@);
        assert(s != "MAC"@);
        assert(s != "OEM"@);
        assert(s != "RUSSIAN"@);
        assert(s != "SHIFTJIS"@);
        assert(s != "SYMBOL"@);
        assert(s != "THAI"@);
        assert(s != "TURKISH"@);
        assert(s != "VIETNAMESE"@);
        assert(spec_parse_u8(encode_utf8(s)) == Some(u));
    }
}

} // verus!
