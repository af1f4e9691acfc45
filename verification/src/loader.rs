//! Typed attribute loaders.
//!
//! Each structural block of the text based encodings is loaded from its
//! recognized `key=value` attributes: every key is matched case-sensitively
//! against the block's field names, a key seen twice on one line is a
//! duplicate-key error, an unrecognized key is an invalid-key error, and
//! each value is parsed by its field's type.

use vstd::prelude::*;

use crate::attributes::{avs, Attribute, AttrV};
use crate::builder::Count;
use crate::charset::{spec_charset_from_str, Charset};
use crate::error::Error;
use crate::font::{spec_default_char, spec_default_common, spec_default_info, spec_parse_chnl,
    spec_parse_packing, spec_parse_padding, spec_parse_spacing, Char, Chnl, Common, Info, InfoV,
    Kerning, Packing, Padding, Spacing};
use crate::parse::{spec_parse_bool, spec_parse_i16, spec_parse_u16, spec_parse_u32, spec_parse_u8,
    ParseError};
use crate::util::bytes_eq;
use vstd::utf8::{decode_utf8, encode_utf8, valid_utf8};

verus! {

/// The spec-level identity of an attribute loading error.
pub ghost enum LoadErr {
    /// A recognized key seen twice on one line.
    DupKey(Seq<u8>, Option<usize>),
    /// A recognized key whose value failed to parse.
    BadValue(Seq<u8>, Option<usize>, ParseError),
    /// An unrecognized key that is not valid UTF-8.
    KeyUtf8(Option<usize>),
    /// An unrecognized key.
    BadKey(Seq<char>, Option<usize>),
}

/// Whether a crate error is the one a spec-level loading error describes.
pub open spec fn load_err_matches(e: Error, le: LoadErr) -> bool {
    match le {
        LoadErr::DupKey(k, l) => e matches Error::DuplicateKey { line, key } && line == l && key@
            == decode_utf8(k),
        LoadErr::BadValue(k, l, pe) => e matches Error::Parse { line, entity, err } && line == l
            && entity@ == decode_utf8(k) && err == pe,
        LoadErr::KeyUtf8(l) => e matches Error::Parse { line, err, .. } && line == l && err
            == ParseError::InvalidUtf8,
        LoadErr::BadKey(kc, l) => e matches Error::InvalidKey { line, key } && line == l && key@
            == kc,
    }
}

/// The mathematical value of a loaded page block.
pub ghost struct PageV {
    pub id: u16,
    pub file: Seq<char>,
}

impl View for crate::font::Page {
    type V = PageV;

    open spec fn view(&self) -> PageV {
        PageV { id: self.id, file: self.file@ }
    }
}

/// Feed one attribute to a partially loaded info block.
pub open spec fn spec_info_step(a: AttrV, acc: InfoV, seen: Seq<bool>) -> Result<
    (InfoV, Seq<bool>),
    LoadErr,
> {
    if false {
        Err(LoadErr::KeyUtf8(a.line))
    } else if a.key == encode_utf8("face"@) {
        if seen[0] {
            Err(LoadErr::DupKey(a.key, a.line))
        } else {
            if !valid_utf8(a.value) {
                Err(LoadErr::BadValue(a.key, a.line, ParseError::InvalidUtf8))
            } else {
                Ok((InfoV { face: decode_utf8(a.value), ..acc }, seen.update(0, true)))
            }
        }
    } else if a.key == encode_utf8("size"@) {
        if seen[1] {
            Err(LoadErr::DupKey(a.key, a.line))
        } else {
            match spec_parse_i16(a.value) {
                Some(v) => Ok((InfoV { size: v, ..acc }, seen.update(1, true))),
                None => Err(LoadErr::BadValue(a.key, a.line, ParseError::InvalidInt)),
            }
        }
    } else if a.key == encode_utf8("bold"@) {
        if seen[2] {
            Err(LoadErr::DupKey(a.key, a.line))
        } else {
            match spec_parse_bool(a.value) {
                Some(v) => Ok((InfoV { bold: v, ..acc }, seen.update(2, true))),
                None => Err(LoadErr::BadValue(a.key, a.line, ParseError::InvalidInt)),
            }
        }
    } else if a.key == encode_utf8("italic"@) {
        if seen[3] {
            Err(LoadErr::DupKey(a.key, a.line))
        } else {
            match spec_parse_bool(a.value) {
                Some(v) => Ok((InfoV { italic: v, ..acc }, seen.update(3, true))),
                None => Err(LoadErr::BadValue(a.key, a.line, ParseError::InvalidInt)),
            }
        }
    } else if a.key == encode_utf8("charset"@) {
        if seen[4] {
            Err(LoadErr::DupKey(a.key, a.line))
        } else {
            if !valid_utf8(a.value) {
                Err(LoadErr::BadValue(a.key, a.line, ParseError::InvalidUtf8))
            } else {
                Ok((InfoV { charset: spec_charset_from_str(decode_utf8(a.value)), ..acc }, seen.update(4, true)))
            }
        }
    } else if a.key == encode_utf8("unicode"@) {
        if seen[5] {
            Err(LoadErr::DupKey(a.key, a.line))
        } else {
            match spec_parse_bool(a.value) {
                Some(v) => Ok((InfoV { unicode: v, ..acc }, seen.update(5, true))),
                None => Err(LoadErr::BadValue(a.key, a.line, ParseError::InvalidInt)),
            }
        }
    } else if a.key == encode_utf8("stretchH"@) {
        if seen[6] {
            Err(LoadErr::DupKey(a.key, a.line))
        } else {
            match spec_parse_u16(a.value) {
                Some(v) => Ok((InfoV { stretch_h: v, ..acc }, seen.update(6, true))),
                None => Err(LoadErr::BadValue(a.key, a.line, ParseError::InvalidInt)),
            }
        }
    } else if a.key == encode_utf8("smooth"@) {
        if seen[7] {
            Err(LoadErr::DupKey(a.key, a.line))
        } else {
            match spec_parse_bool(a.value) {
                Some(v) => Ok((InfoV { smooth: v, ..acc }, seen.update(7, true))),
                None => Err(LoadErr::BadValue(a.key, a.line, ParseError::InvalidInt)),
            }
        }
    } else if a.key == encode_utf8("aa"@) {
        if seen[8] {
            Err(LoadErr::DupKey(a.key, a.line))
        } else {
            match spec_parse_u8(a.value) {
                Some(v) => Ok((InfoV { aa: v, ..acc }, seen.update(8, true))),
                None => Err(LoadErr::BadValue(a.key, a.line, ParseError::InvalidInt)),
            }
        }
    } else if a.key == encode_utf8("padding"@) {
        if seen[9] {
            Err(LoadErr::DupKey(a.key, a.line))
        } else {
            match spec_parse_padding(a.value) {
                Ok(v) => Ok((InfoV { padding: v, ..acc }, seen.update(9, true))),
                Err(pe) => Err(LoadErr::BadValue(a.key, a.line, pe)),
            }
        }
    } else if a.key == encode_utf8("spacing"@) {
        if seen[10] {
            Err(LoadErr::DupKey(a.key, a.line))
        } else {
            match spec_parse_spacing(a.value) {
                Ok(v) => Ok((InfoV { spacing: v, ..acc }, seen.update(10, true))),
                Err(pe) => Err(LoadErr::BadValue(a.key, a.line, pe)),
            }
        }
    } else if a.key == encode_utf8("outline"@) {
        if seen[11] {
            Err(LoadErr::DupKey(a.key, a.line))
        } else {
            match spec_parse_u8(a.value) {
                Some(v) => Ok((InfoV { outline: v, ..acc }, seen.update(11, true))),
                None => Err(LoadErr::BadValue(a.key, a.line, ParseError::InvalidInt)),
            }
        }
    } else {
        if valid_utf8(a.key) {
            Err(LoadErr::BadKey(decode_utf8(a.key), a.line))
        } else {
            Err(LoadErr::KeyUtf8(a.line))
        }
    }
}

/// Load an info block from its attributes, left to right.
pub open spec fn spec_load_info_rec(attrs: Seq<AttrV>, acc: InfoV, seen: Seq<bool>) -> Result<
    InfoV,
    LoadErr,
>
    decreases attrs.len(),
{
    if attrs.len() == 0 {
        Ok(acc)
    } else {
        match spec_info_step(attrs[0], acc, seen) {
            Ok((acc2, seen2)) => spec_load_info_rec(attrs.drop_first(), acc2, seen2),
            Err(e) => Err(e),
        }
    }
}

/// The info block a whole attribute list loads to.
pub open spec fn spec_load_info(attrs: Seq<AttrV>) -> Result<InfoV, LoadErr> {
    spec_load_info_rec(attrs, spec_default_info(), Seq::new(12, |k: int| false))
}

/// Feed one attribute to a partially loaded info block.
#[verifier::spinoff_prover]
#[verifier::rlimit(100)]
fn info_step(block: &mut Info, seen: &mut Vec<bool>, a: &Attribute) -> (r: Result<(), Error>)
    requires
        old(seen)@.len() == 12,
    ensures
        final (seen)@.len() == 12,
        (r is Ok <==> spec_info_step(a@, old(block)@, old(seen)@) is Ok),
        r is Ok ==> spec_info_step(a@, old(block)@, old(seen)@) == Ok::<
            (InfoV, Seq<bool>),
            LoadErr,
        >((final (block)@, final (seen)@)),
        r matches Err(e) ==> (spec_info_step(a@, old(block)@, old(seen)@) matches Err(le)
            && load_err_matches(e, le)),
{
    if false {
        // unreachable: the chain below mirrors the recognized keys, arm for arm
        Ok(())
    } else if bytes_eq(a.key, "face".as_bytes()) {
        if seen[0] {
            proof {
                vstd::utf8::encode_utf8_decode_utf8("face"@);
            }
            return Err(Error::DuplicateKey { line: a.line, key: "face".to_owned() });
        }
        match crate::util::string_from_utf8(vstd::slice::slice_to_vec(a.value)) {
            Some(v) => {
                block.face = v;
                seen[0] = true;
            },
            None => {
                proof {
                    vstd::utf8::encode_utf8_decode_utf8("face"@);
                }
                return Err(Error::Parse {
                    line: a.line,
                    entity: "face".to_owned(),
                    err: ParseError::InvalidUtf8,
                });
            },
        }
        Ok(())
    } else if bytes_eq(a.key, "size".as_bytes()) {
        if seen[1] {
            proof {
                vstd::utf8::encode_utf8_decode_utf8("size"@);
            }
            return Err(Error::DuplicateKey { line: a.line, key: "size".to_owned() });
        }
        match crate::parse::parse_i16_bytes(a.value) {
            Ok(v) => {
                block.size = v;
                seen[1] = true;
            },
            Err(pe) => {
                proof {
                    vstd::utf8::encode_utf8_decode_utf8("size"@);
                }
                return Err(Error::Parse { line: a.line, entity: "size".to_owned(), err: pe });
            },
        }
        Ok(())
    } else if bytes_eq(a.key, "bold".as_bytes()) {
        if seen[2] {
            proof {
                vstd::utf8::encode_utf8_decode_utf8("bold"@);
            }
            return Err(Error::DuplicateKey { line: a.line, key: "bold".to_owned() });
        }
        match crate::parse::parse_bool_bytes(a.value) {
            Ok(v) => {
                block.bold = v;
                seen[2] = true;
            },
            Err(pe) => {
                proof {
                    vstd::utf8::encode_utf8_decode_utf8("bold"@);
                }
                return Err(Error::Parse { line: a.line, entity: "bold".to_owned(), err: pe });
            },
        }
        Ok(())
    } else if bytes_eq(a.key, "italic".as_bytes()) {
        if seen[3] {
            proof {
                vstd::utf8::encode_utf8_decode_utf8("italic"@);
            }
            return Err(Error::DuplicateKey { line: a.line, key: "italic".to_owned() });
        }
        match crate::parse::parse_bool_bytes(a.value) {
            Ok(v) => {
                block.italic = v;
                seen[3] = true;
            },
            Err(pe) => {
                proof {
                    vstd::utf8::encode_utf8_decode_utf8("italic"@);
                }
                return Err(Error::Parse { line: a.line, entity: "italic".to_owned(), err: pe });
            },
        }
        Ok(())
    } else if bytes_eq(a.key, "charset".as_bytes()) {
        if seen[4] {
            proof {
                vstd::utf8::encode_utf8_decode_utf8("charset"@);
            }
            return Err(Error::DuplicateKey { line: a.line, key: "charset".to_owned() });
        }
        match crate::util::str_from_utf8(a.value) {
            Some(v) => {
                block.charset = Charset::from(v);
                seen[4] = true;
            },
            None => {
                proof {
                    vstd::utf8::encode_utf8_decode_utf8("charset"@);
                }
                return Err(Error::Parse {
                    line: a.line,
                    entity: "charset".to_owned(),
                    err: ParseError::InvalidUtf8,
                });
            },
        }
        Ok(())
    } else if bytes_eq(a.key, "unicode".as_bytes()) {
        if seen[5] {
            proof {
                vstd::utf8::encode_utf8_decode_utf8("unicode"@);
            }
            return Err(Error::DuplicateKey { line: a.line, key: "unicode".to_owned() });
        }
        match crate::parse::parse_bool_bytes(a.value) {
            Ok(v) => {
                block.unicode = v;
                seen[5] = true;
            },
            Err(pe) => {
                proof {
                    vstd::utf8::encode_utf8_decode_utf8("unicode"@);
                }
                return Err(Error::Parse { line: a.line, entity: "unicode".to_owned(), err: pe });
            },
        }
        Ok(())
    } else if bytes_eq(a.key, "stretchH".as_bytes()) {
        if seen[6] {
            proof {
                vstd::utf8::encode_utf8_decode_utf8("stretchH"@);
            }
            return Err(Error::DuplicateKey { line: a.line, key: "stretchH".to_owned() });
        }
        match crate::parse::parse_u16_bytes(a.value) {
            Ok(v) => {
                block.stretch_h = v;
                seen[6] = true;
            },
            Err(pe) => {
                proof {
                    vstd::utf8::encode_utf8_decode_utf8("stretchH"@);
                }
                return Err(Error::Parse { line: a.line, entity: "stretchH".to_owned(), err: pe });
            },
        }
        Ok(())
    } else if bytes_eq(a.key, "smooth".as_bytes()) {
        if seen[7] {
            proof {
                vstd::utf8::encode_utf8_decode_utf8("smooth"@);
            }
            return Err(Error::DuplicateKey { line: a.line, key: "smooth".to_owned() });
        }
        match crate::parse::parse_bool_bytes(a.value) {
            Ok(v) => {
                block.smooth = v;
                seen[7] = true;
            },
            Err(pe) => {
                proof {
                    vstd::utf8::encode_utf8_decode_utf8("smooth"@);
                }
                return Err(Error::Parse { line: a.line, entity: "smooth".to_owned(), err: pe });
            },
        }
        Ok(())
    } else if bytes_eq(a.key, "aa".as_bytes()) {
        if seen[8] {
            proof {
                vstd::utf8::encode_utf8_decode_utf8("aa"@);
            }
            return Err(Error::DuplicateKey { line: a.line, key: "aa".to_owned() });
        }
        match crate::parse::parse_u8_bytes(a.value) {
            Ok(v) => {
                block.aa = v;
                seen[8] = true;
            },
            Err(pe) => {
                proof {
                    vstd::utf8::encode_utf8_decode_utf8("aa"@);
                }
                return Err(Error::Parse { line: a.line, entity: "aa".to_owned(), err: pe });
            },
        }
        Ok(())
    } else if bytes_eq(a.key, "padding".as_bytes()) {
        if seen[9] {
            proof {
                vstd::utf8::encode_utf8_decode_utf8("padding"@);
            }
            return Err(Error::DuplicateKey { line: a.line, key: "padding".to_owned() });
        }
        match crate::font::parse_padding_bytes(a.value) {
            Ok(v) => {
                block.padding = v;
                seen[9] = true;
            },
            Err(pe) => {
                proof {
                    vstd::utf8::encode_utf8_decode_utf8("padding"@);
                }
                return Err(Error::Parse { line: a.line, entity: "padding".to_owned(), err: pe });
            },
        }
        Ok(())
    } else if bytes_eq(a.key, "spacing".as_bytes()) {
        if seen[10] {
            proof {
                vstd::utf8::encode_utf8_decode_utf8("spacing"@);
            }
            return Err(Error::DuplicateKey { line: a.line, key: "spacing".to_owned() });
        }
        match crate::font::parse_spacing_bytes(a.value) {
            Ok(v) => {
                block.spacing = v;
                seen[10] = true;
            },
            Err(pe) => {
                proof {
                    vstd::utf8::encode_utf8_decode_utf8("spacing"@);
                }
                return Err(Error::Parse { line: a.line, entity: "spacing".to_owned(), err: pe });
            },
        }
        Ok(())
    } else if bytes_eq(a.key, "outline".as_bytes()) {
        if seen[11] {
            proof {
                vstd::utf8::encode_utf8_decode_utf8("outline"@);
            }
            return Err(Error::DuplicateKey { line: a.line, key: "outline".to_owned() });
        }
        match crate::parse::parse_u8_bytes(a.value) {
            Ok(v) => {
                block.outline = v;
                seen[11] = true;
            },
            Err(pe) => {
                proof {
                    vstd::utf8::encode_utf8_decode_utf8("outline"@);
                }
                return Err(Error::Parse { line: a.line, entity: "outline".to_owned(), err: pe });
            },
        }
        Ok(())
    } else {
        match crate::util::string_from_utf8(vstd::slice::slice_to_vec(a.key)) {
            Some(k) => Err(Error::InvalidKey { line: a.line, key: k }),
            None => Err(
                Error::Parse {
                    line: a.line,
                    entity: "key".to_owned(),
                    err: ParseError::InvalidUtf8,
                },
            ),
        }
    }
}

/// Load an info block from the attributes of one line.
#[verifier::spinoff_prover]
pub fn load_info(attrs: &[Attribute]) -> (r: Result<Info, Error>)
    ensures
        (r is Ok <==> spec_load_info(avs(attrs@)) is Ok),
        r matches Ok(v) ==> spec_load_info(avs(attrs@)) == Ok::<InfoV, LoadErr>(v@),
        r matches Err(e) ==> (spec_load_info(avs(attrs@)) matches Err(le) && load_err_matches(
            e,
            le,
        )),
{
    let ghost ps = avs(attrs@);
    let mut block = Info::default();
    let mut seen: Vec<bool> = Vec::new();
    let mut si: usize = 0;
    while si < 12
        invariant
            si <= 12,
            seen@.len() == si,
            forall|k: int| 0 <= k < si ==> !seen@[k],
        decreases 12 - si,
    {
        seen.push(false);
        si = si + 1;
    }
    proof {
        assert(seen@ =~= Seq::new(12, |k: int| false));
        assert(ps.skip(0) =~= ps);
    }
    let mut i: usize = 0;
    while i < attrs.len()
        invariant
            0 <= i <= attrs@.len(),
            ps == avs(attrs@),
            ps.len() == attrs@.len(),
            seen@.len() == 12,
            spec_load_info(ps) == spec_load_info_rec(ps.skip(i as int), block@, seen@),
        decreases attrs@.len() - i,
    {
        let ghost pre = ps.skip(i as int);
        let ghost acc0 = block@;
        let ghost seen0 = seen@;
        assert(pre[0] == ps[i as int]);
        assert(ps[i as int] == attrs@[i as int]@);
        let a = attrs[i];
        match info_step(&mut block, &mut seen, &a) {
            Ok(()) => {},
            Err(e) => {
                return Err(e);
            },
        }
        proof {
            assert(pre.drop_first() =~= ps.skip(i + 1));
        }
        i = i + 1;
    }
    proof {
        assert(ps.skip(i as int).len() == 0);
    }
    Ok(block)
}

/// Feed one attribute to a partially loaded common block.
pub open spec fn spec_common_step(a: AttrV, acc: Common, seen: Seq<bool>) -> Result<
    (Common, Seq<bool>),
    LoadErr,
> {
    if false {
        Err(LoadErr::KeyUtf8(a.line))
    } else if a.key == encode_utf8("lineHeight"@) {
        if seen[0] {
            Err(LoadErr::DupKey(a.key, a.line))
        } else {
            match spec_parse_u16(a.value) {
                Some(v) => Ok((Common { line_height: v, ..acc }, seen.update(0, true))),
                None => Err(LoadErr::BadValue(a.key, a.line, ParseError::InvalidInt)),
            }
        }
    } else if a.key == encode_utf8("base"@) {
        if seen[1] {
            Err(LoadErr::DupKey(a.key, a.line))
        } else {
            match spec_parse_u16(a.value) {
                Some(v) => Ok((Common { base: v, ..acc }, seen.update(1, true))),
                None => Err(LoadErr::BadValue(a.key, a.line, ParseError::InvalidInt)),
            }
        }
    } else if a.key == encode_utf8("scaleW"@) {
        if seen[2] {
            Err(LoadErr::DupKey(a.key, a.line))
        } else {
            match spec_parse_u16(a.value) {
                Some(v) => Ok((Common { scale_w: v, ..acc }, seen.update(2, true))),
                None => Err(LoadErr::BadValue(a.key, a.line, ParseError::InvalidInt)),
            }
        }
    } else if a.key == encode_utf8("scaleH"@) {
        if seen[3] {
            Err(LoadErr::DupKey(a.key, a.line))
        } else {
            match spec_parse_u16(a.value) {
                Some(v) => Ok((Common { scale_h: v, ..acc }, seen.update(3, true))),
                None => Err(LoadErr::BadValue(a.key, a.line, ParseError::InvalidInt)),
            }
        }
    } else if a.key == encode_utf8("pages"@) {
        if seen[4] {
            Err(LoadErr::DupKey(a.key, a.line))
        } else {
            match spec_parse_u16(a.value) {
                Some(v) => Ok((Common { pages: v, ..acc }, seen.update(4, true))),
                None => Err(LoadErr::BadValue(a.key, a.line, ParseError::InvalidInt)),
            }
        }
    } else if a.key == encode_utf8("packed"@) {
        if seen[5] {
            Err(LoadErr::DupKey(a.key, a.line))
        } else {
            match spec_parse_bool(a.value) {
                Some(v) => Ok((Common { packed: v, ..acc }, seen.update(5, true))),
                None => Err(LoadErr::BadValue(a.key, a.line, ParseError::InvalidInt)),
            }
        }
    } else if a.key == encode_utf8("alphaChnl"@) {
        if seen[6] {
            Err(LoadErr::DupKey(a.key, a.line))
        } else {
            match spec_parse_packing(a.value) {
                Ok(v) => Ok((Common { alpha_chnl: v, ..acc }, seen.update(6, true))),
                Err(pe) => Err(LoadErr::BadValue(a.key, a.line, pe)),
            }
        }
    } else if a.key == encode_utf8("redChnl"@) {
        if seen[7] {
            Err(LoadErr::DupKey(a.key, a.line))
        } else {
            match spec_parse_packing(a.value) {
                Ok(v) => Ok((Common { red_chnl: v, ..acc }, seen.update(7, true))),
                Err(pe) => Err(LoadErr::BadValue(a.key, a.line, pe)),
            }
        }
    } else if a.key == encode_utf8("greenChnl"@) {
        if seen[8] {
            Err(LoadErr::DupKey(a.key, a.line))
        } else {
            match spec_parse_packing(a.value) {
                Ok(v) => Ok((Common { green_chnl: v, ..acc }, seen.update(8, true))),
                Err(pe) => Err(LoadErr::BadValue(a.key, a.line, pe)),
            }
        }
    } else if a.key == encode_utf8("blueChnl"@) {
        if seen[9] {
            Err(LoadErr::DupKey(a.key, a.line))
        } else {
            match spec_parse_packing(a.value) {
                Ok(v) => Ok((Common { blue_chnl: v, ..acc }, seen.update(9, true))),
                Err(pe) => Err(LoadErr::BadValue(a.key, a.line, pe)),
            }
        }
    } else {
        if valid_utf8(a.key) {
            Err(LoadErr::BadKey(decode_utf8(a.key), a.line))
        } else {
            Err(LoadErr::KeyUtf8(a.line))
        }
    }
}

/// Load a common block from its attributes, left to right.
pub open spec fn spec_load_common_rec(attrs: Seq<AttrV>, acc: Common, seen: Seq<bool>) -> Result<
    Common,
    LoadErr,
>
    decreases attrs.len(),
{
    if attrs.len() == 0 {
        Ok(acc)
    } else {
        match spec_common_step(attrs[0], acc, seen) {
            Ok((acc2, seen2)) => spec_load_common_rec(attrs.drop_first(), acc2, seen2),
            Err(e) => Err(e),
        }
    }
}

/// The common block a whole attribute list loads to.
pub open spec fn spec_load_common(attrs: Seq<AttrV>) -> Result<Common, LoadErr> {
    spec_load_common_rec(attrs, spec_default_common(), Seq::new(10, |k: int| false))
}

/// Feed one attribute to a partially loaded common block.
#[verifier::spinoff_prover]
#[verifier::rlimit(100)]
fn common_step(block: &mut Common, seen: &mut Vec<bool>, a: &Attribute) -> (r: Result<(), Error>)
    requires
        old(seen)@.len() == 10,
    ensures
        final (seen)@.len() == 10,
        (r is Ok <==> spec_common_step(a@, *old(block), old(seen)@) is Ok),
        r is Ok ==> spec_common_step(a@, *old(block), old(seen)@) == Ok::<
            (Common, Seq<bool>),
            LoadErr,
        >((*final (block), final (seen)@)),
        r matches Err(e) ==> (spec_common_step(a@, *old(block), old(seen)@) matches Err(le)
            && load_err_matches(e, le)),
{
    if false {
        // unreachable: the chain below mirrors the recognized keys, arm for arm
        Ok(())
    } else if bytes_eq(a.key, "lineHeight".as_bytes()) {
        if seen[0] {
            proof {
                vstd::utf8::encode_utf8_decode_utf8("lineHeight"@);
            }
            return Err(Error::DuplicateKey { line: a.line, key: "lineHeight".to_owned() });
        }
        match crate::parse::parse_u16_bytes(a.value) {
            Ok(v) => {
                block.line_height = v;
                seen[0] = true;
            },
            Err(pe) => {
                proof {
                    vstd::utf8::encode_utf8_decode_utf8("lineHeight"@);
                }
                return Err(Error::Parse { line: a.line, entity: "lineHeight".to_owned(), err: pe });
            },
        }
        Ok(())
    } else if bytes_eq(a.key, "base".as_bytes()) {
        if seen[1] {
            proof {
                vstd::utf8::encode_utf8_decode_utf8("base"@);
            }
            return Err(Error::DuplicateKey { line: a.line, key: "base".to_owned() });
        }
        match crate::parse::parse_u16_bytes(a.value) {
            Ok(v) => {
                block.base = v;
                seen[1] = true;
            },
            Err(pe) => {
                proof {
                    vstd::utf8::encode_utf8_decode_utf8("base"@);
                }
                return Err(Error::Parse { line: a.line, entity: "base".to_owned(), err: pe });
            },
        }
        Ok(())
    } else if bytes_eq(a.key, "scaleW".as_bytes()) {
        if seen[2] {
            proof {
                vstd::utf8::encode_utf8_decode_utf8("scaleW"@);
            }
            return Err(Error::DuplicateKey { line: a.line, key: "scaleW".to_owned() });
        }
        match crate::parse::parse_u16_bytes(a.value) {
            Ok(v) => {
                block.scale_w = v;
                seen[2] = true;
            },
            Err(pe) => {
                proof {
                    vstd::utf8::encode_utf8_decode_utf8("scaleW"@);
                }
                return Err(Error::Parse { line: a.line, entity: "scaleW".to_owned(), err: pe });
            },
        }
        Ok(())
    } else if bytes_eq(a.key, "scaleH".as_bytes()) {
        if seen[3] {
            proof {
                vstd::utf8::encode_utf8_decode_utf8("scaleH"@);
            }
            return Err(Error::DuplicateKey { line: a.line, key: "scaleH".to_owned() });
        }
        match crate::parse::parse_u16_bytes(a.value) {
            Ok(v) => {
                block.scale_h = v;
                seen[3] = true;
            },
            Err(pe) => {
                proof {
                    vstd::utf8::encode_utf8_decode_utf8("scaleH"@);
                }
                return Err(Error::Parse { line: a.line, entity: "scaleH".to_owned(), err: pe });
            },
        }
        Ok(())
    } else if bytes_eq(a.key, "pages".as_bytes()) {
        if seen[4] {
            proof {
                vstd::utf8::encode_utf8_decode_utf8("pages"@);
            }
            return Err(Error::DuplicateKey { line: a.line, key: "pages".to_owned() });
        }
        match crate::parse::parse_u16_bytes(a.value) {
            Ok(v) => {
                block.pages = v;
                seen[4] = true;
            },
            Err(pe) => {
                proof {
                    vstd::utf8::encode_utf8_decode_utf8("pages"@);
                }
                return Err(Error::Parse { line: a.line, entity: "pages".to_owned(), err: pe });
            },
        }
        Ok(())
    } else if bytes_eq(a.key, "packed".as_bytes()) {
        if seen[5] {
            proof {
                vstd::utf8::encode_utf8_decode_utf8("packed"@);
            }
            return Err(Error::DuplicateKey { line: a.line, key: "packed".to_owned() });
        }
        match crate::parse::parse_bool_bytes(a.value) {
            Ok(v) => {
                block.packed = v;
                seen[5] = true;
            },
            Err(pe) => {
                proof {
                    vstd::utf8::encode_utf8_decode_utf8("packed"@);
                }
                return Err(Error::Parse { line: a.line, entity: "packed".to_owned(), err: pe });
            },
        }
        Ok(())
    } else if bytes_eq(a.key, "alphaChnl".as_bytes()) {
        if seen[6] {
            proof {
                vstd::utf8::encode_utf8_decode_utf8("alphaChnl"@);
            }
            return Err(Error::DuplicateKey { line: a.line, key: "alphaChnl".to_owned() });
        }
        match crate::font::parse_packing_bytes(a.value) {
            Ok(v) => {
                block.alpha_chnl = v;
                seen[6] = true;
            },
            Err(pe) => {
                proof {
                    vstd::utf8::encode_utf8_decode_utf8("alphaChnl"@);
                }
                return Err(Error::Parse { line: a.line, entity: "alphaChnl".to_owned(), err: pe });
            },
        }
        Ok(())
    } else if bytes_eq(a.key, "redChnl".as_bytes()) {
        if seen[7] {
            proof {
                vstd::utf8::encode_utf8_decode_utf8("redChnl"@);
            }
            return Err(Error::DuplicateKey { line: a.line, key: "redChnl".to_owned() });
        }
        match crate::font::parse_packing_bytes(a.value) {
            Ok(v) => {
                block.red_chnl = v;
                seen[7] = true;
            },
            Err(pe) => {
                proof {
                    vstd::utf8::encode_utf8_decode_utf8("redChnl"@);
                }
                return Err(Error::Parse { line: a.line, entity: "redChnl".to_owned(), err: pe });
            },
        }
        Ok(())
    } else if bytes_eq(a.key, "greenChnl".as_bytes()) {
        if seen[8] {
            proof {
                vstd::utf8::encode_utf8_decode_utf8("greenChnl"@);
            }
            return Err(Error::DuplicateKey { line: a.line, key: "greenChnl".to_owned() });
        }
        match crate::font::parse_packing_bytes(a.value) {
            Ok(v) => {
                block.green_chnl = v;
                seen[8] = true;
            },
            Err(pe) => {
                proof {
                    vstd::utf8::encode_utf8_decode_utf8("greenChnl"@);
                }
                return Err(Error::Parse { line: a.line, entity: "greenChnl".to_owned(), err: pe });
            },
        }
        Ok(())
    } else if bytes_eq(a.key, "blueChnl".as_bytes()) {
        if seen[9] {
            proof {
                vstd::utf8::encode_utf8_decode_utf8("blueChnl"@);
            }
            return Err(Error::DuplicateKey { line: a.line, key: "blueChnl".to_owned() });
        }
        match crate::font::parse_packing_bytes(a.value) {
            Ok(v) => {
                block.blue_chnl = v;
                seen[9] = true;
            },
            Err(pe) => {
                proof {
                    vstd::utf8::encode_utf8_decode_utf8("blueChnl"@);
                }
                return Err(Error::Parse { line: a.line, entity: "blueChnl".to_owned(), err: pe });
            },
        }
        Ok(())
    } else {
        match crate::util::string_from_utf8(vstd::slice::slice_to_vec(a.key)) {
            Some(k) => Err(Error::InvalidKey { line: a.line, key: k }),
            None => Err(
                Error::Parse {
                    line: a.line,
                    entity: "key".to_owned(),
                    err: ParseError::InvalidUtf8,
                },
            ),
        }
    }
}

/// Load a common block from the attributes of one line.
#[verifier::spinoff_prover]
pub fn load_common(attrs: &[Attribute]) -> (r: Result<Common, Error>)
    ensures
        (r is Ok <==> spec_load_common(avs(attrs@)) is Ok),
        r matches Ok(v) ==> spec_load_common(avs(attrs@)) == Ok::<Common, LoadErr>(v),
        r matches Err(e) ==> (spec_load_common(avs(attrs@)) matches Err(le) && load_err_matches(
            e,
            le,
        )),
{
    let ghost ps = avs(attrs@);
    let mut block = Common::default();
    let mut seen: Vec<bool> = Vec::new();
    let mut si: usize = 0;
    while si < 10
        invariant
            si <= 10,
            seen@.len() == si,
            forall|k: int| 0 <= k < si ==> !seen@[k],
        decreases 10 - si,
    {
        seen.push(false);
        si = si + 1;
    }
    proof {
        assert(seen@ =~= Seq::new(10, |k: int| false));
        assert(ps.skip(0) =~= ps);
    }
    let mut i: usize = 0;
    while i < attrs.len()
        invariant
            0 <= i <= attrs@.len(),
            ps == avs(attrs@),
            ps.len() == attrs@.len(),
            seen@.len() == 10,
            spec_load_common(ps) == spec_load_common_rec(ps.skip(i as int), block, seen@),
        decreases attrs@.len() - i,
    {
        let ghost pre = ps.skip(i as int);
        let ghost acc0 = block;
        let ghost seen0 = seen@;
        assert(pre[0] == ps[i as int]);
        assert(ps[i as int] == attrs@[i as int]@);
        let a = attrs[i];
        match common_step(&mut block, &mut seen, &a) {
            Ok(()) => {},
            Err(e) => {
                return Err(e);
            },
        }
        proof {
            assert(pre.drop_first() =~= ps.skip(i + 1));
        }
        i = i + 1;
    }
    proof {
        assert(ps.skip(i as int).len() == 0);
    }
    Ok(block)
}

/// Feed one attribute to a partially loaded char block.
pub open spec fn spec_char_step(a: AttrV, acc: Char, seen: Seq<bool>) -> Result<
    (Char, Seq<bool>),
    LoadErr,
> {
    if false {
        Err(LoadErr::KeyUtf8(a.line))
    } else if a.key == encode_utf8("id"@) {
        if seen[0] {
            Err(LoadErr::DupKey(a.key, a.line))
        } else {
            match spec_parse_u32(a.value) {
                Some(v) => Ok((Char { id: v, ..acc }, seen.update(0, true))),
                None => Err(LoadErr::BadValue(a.key, a.line, ParseError::InvalidInt)),
            }
        }
    } else if a.key == encode_utf8("x"@) {
        if seen[1] {
            Err(LoadErr::DupKey(a.key, a.line))
        } else {
            match spec_parse_u16(a.value) {
                Some(v) => Ok((Char { x: v, ..acc }, seen.update(1, true))),
                None => Err(LoadErr::BadValue(a.key, a.line, ParseError::InvalidInt)),
            }
        }
    } else if a.key == encode_utf8("y"@) {
        if seen[2] {
            Err(LoadErr::DupKey(a.key, a.line))
        } else {
            match spec_parse_u16(a.value) {
                Some(v) => Ok((Char { y: v, ..acc }, seen.update(2, true))),
                None => Err(LoadErr::BadValue(a.key, a.line, ParseError::InvalidInt)),
            }
        }
    } else if a.key == encode_utf8("width"@) {
        if seen[3] {
            Err(LoadErr::DupKey(a.key, a.line))
        } else {
            match spec_parse_u16(a.value) {
                Some(v) => Ok((Char { width: v, ..acc }, seen.update(3, true))),
                None => Err(LoadErr::BadValue(a.key, a.line, ParseError::InvalidInt)),
            }
        }
    } else if a.key == encode_utf8("height"@) {
        if seen[4] {
            Err(LoadErr::DupKey(a.key, a.line))
        } else {
            match spec_parse_u16(a.value) {
                Some(v) => Ok((Char { height: v, ..acc }, seen.update(4, true))),
                None => Err(LoadErr::BadValue(a.key, a.line, ParseError::InvalidInt)),
            }
        }
    } else if a.key == encode_utf8("xoffset"@) {
        if seen[5] {
            Err(LoadErr::DupKey(a.key, a.line))
        } else {
            match spec_parse_i16(a.value) {
                Some(v) => Ok((Char { xoffset: v, ..acc }, seen.update(5, true))),
                None => Err(LoadErr::BadValue(a.key, a.line, ParseError::InvalidInt)),
            }
        }
    } else if a.key == encode_utf8("yoffset"@) {
        if seen[6] {
            Err(LoadErr::DupKey(a.key, a.line))
        } else {
            match spec_parse_i16(a.value) {
                Some(v) => Ok((Char { yoffset: v, ..acc }, seen.update(6, true))),
                None => Err(LoadErr::BadValue(a.key, a.line, ParseError::InvalidInt)),
            }
        }
    } else if a.key == encode_utf8("xadvance"@) {
        if seen[7] {
            Err(LoadErr::DupKey(a.key, a.line))
        } else {
            match spec_parse_i16(a.value) {
                Some(v) => Ok((Char { xadvance: v, ..acc }, seen.update(7, true))),
                None => Err(LoadErr::BadValue(a.key, a.line, ParseError::InvalidInt)),
            }
        }
    } else if a.key == encode_utf8("page"@) {
        if seen[8] {
            Err(LoadErr::DupKey(a.key, a.line))
        } else {
            match spec_parse_u8(a.value) {
                Some(v) => Ok((Char { page: v, ..acc }, seen.update(8, true))),
                None => Err(LoadErr::BadValue(a.key, a.line, ParseError::InvalidInt)),
            }
        }
    } else if a.key == encode_utf8("chnl"@) {
        if seen[9] {
            Err(LoadErr::DupKey(a.key, a.line))
        } else {
            match spec_parse_chnl(a.value) {
                Ok(u) => Ok((Char { chnl: Chnl(u), ..acc }, seen.update(9, true))),
                Err(pe) => Err(LoadErr::BadValue(a.key, a.line, pe)),
            }
        }
    } else {
        if valid_utf8(a.key) {
            Err(LoadErr::BadKey(decode_utf8(a.key), a.line))
        } else {
            Err(LoadErr::KeyUtf8(a.line))
        }
    }
}

/// Load a char block from its attributes, left to right.
pub open spec fn spec_load_char_rec(attrs: Seq<AttrV>, acc: Char, seen: Seq<bool>) -> Result<
    Char,
    LoadErr,
>
    decreases attrs.len(),
{
    if attrs.len() == 0 {
        Ok(acc)
    } else {
        match spec_char_step(attrs[0], acc, seen) {
            Ok((acc2, seen2)) => spec_load_char_rec(attrs.drop_first(), acc2, seen2),
            Err(e) => Err(e),
        }
    }
}

/// The char block a whole attribute list loads to.
pub open spec fn spec_load_char(attrs: Seq<AttrV>) -> Result<Char, LoadErr> {
    spec_load_char_rec(attrs, spec_default_char(), Seq::new(10, |k: int| false))
}

/// Feed one attribute to a partially loaded char block.
#[verifier::spinoff_prover]
#[verifier::rlimit(100)]
fn char_step(block: &mut Char, seen: &mut Vec<bool>, a: &Attribute) -> (r: Result<(), Error>)
    requires
        old(seen)@.len() == 10,
    ensures
        final (seen)@.len() == 10,
        (r is Ok <==> spec_char_step(a@, *old(block), old(seen)@) is Ok),
        r is Ok ==> spec_char_step(a@, *old(block), old(seen)@) == Ok::<
            (Char, Seq<bool>),
            LoadErr,
        >((*final (block), final (seen)@)),
        r matches Err(e) ==> (spec_char_step(a@, *old(block), old(seen)@) matches Err(le)
            && load_err_matches(e, le)),
{
    if false {
        // unreachable: the chain below mirrors the recognized keys, arm for arm
        Ok(())
    } else if bytes_eq(a.key, "id".as_bytes()) {
        if seen[0] {
            proof {
                vstd::utf8::encode_utf8_decode_utf8("id"@);
            }
            return Err(Error::DuplicateKey { line: a.line, key: "id".to_owned() });
        }
        match crate::parse::parse_u32_bytes(a.value) {
            Ok(v) => {
                block.id = v;
                seen[0] = true;
            },
            Err(pe) => {
                proof {
                    vstd::utf8::encode_utf8_decode_utf8("id"@);
                }
                return Err(Error::Parse { line: a.line, entity: "id".to_owned(), err: pe });
            },
        }
        Ok(())
    } else if bytes_eq(a.key, "x".as_bytes()) {
        if seen[1] {
            proof {
                vstd::utf8::encode_utf8_decode_utf8("x"@);
            }
            return Err(Error::DuplicateKey { line: a.line, key: "x".to_owned() });
        }
        match crate::parse::parse_u16_bytes(a.value) {
            Ok(v) => {
                block.x = v;
                seen[1] = true;
            },
            Err(pe) => {
                proof {
                    vstd::utf8::encode_utf8_decode_utf8("x"@);
                }
                return Err(Error::Parse { line: a.line, entity: "x".to_owned(), err: pe });
            },
        }
        Ok(())
    } else if bytes_eq(a.key, "y".as_bytes()) {
        if seen[2] {
            proof {
                vstd::utf8::encode_utf8_decode_utf8("y"@);
            }
            return Err(Error::DuplicateKey { line: a.line, key: "y".to_owned() });
        }
        match crate::parse::parse_u16_bytes(a.value) {
            Ok(v) => {
                block.y = v;
                seen[2] = true;
            },
            Err(pe) => {
                proof {
                    vstd::utf8::encode_utf8_decode_utf8("y"@);
                }
                return Err(Error::Parse { line: a.line, entity: "y".to_owned(), err: pe });
            },
        }
        Ok(())
    } else if bytes_eq(a.key, "width".as_bytes()) {
        if seen[3] {
            proof {
                vstd::utf8::encode_utf8_decode_utf8("width"@);
            }
            return Err(Error::DuplicateKey { line: a.line, key: "width".to_owned() });
        }
        match crate::parse::parse_u16_bytes(a.value) {
            Ok(v) => {
                block.width = v;
                seen[3] = true;
            },
            Err(pe) => {
                proof {
                    vstd::utf8::encode_utf8_decode_utf8("width"@);
                }
                return Err(Error::Parse { line: a.line, entity: "width".to_owned(), err: pe });
            },
        }
        Ok(())
    } else if bytes_eq(a.key, "height".as_bytes()) {
        if seen[4] {
            proof {
                vstd::utf8::encode_utf8_decode_utf8("height"@);
            }
            return Err(Error::DuplicateKey { line: a.line, key: "height".to_owned() });
        }
        match crate::parse::parse_u16_bytes(a.value) {
            Ok(v) => {
                block.height = v;
                seen[4] = true;
            },
            Err(pe) => {
                proof {
                    vstd::utf8::encode_utf8_decode_utf8("height"@);
                }
                return Err(Error::Parse { line: a.line, entity: "height".to_owned(), err: pe });
            },
        }
        Ok(())
    } else if bytes_eq(a.key, "xoffset".as_bytes()) {
        if seen[5] {
            proof {
                vstd::utf8::encode_utf8_decode_utf8("xoffset"@);
            }
            return Err(Error::DuplicateKey { line: a.line, key: "xoffset".to_owned() });
        }
        match crate::parse::parse_i16_bytes(a.value) {
            Ok(v) => {
                block.xoffset = v;
                seen[5] = true;
            },
            Err(pe) => {
                proof {
                    vstd::utf8::encode_utf8_decode_utf8("xoffset"@);
                }
                return Err(Error::Parse { line: a.line, entity: "xoffset".to_owned(), err: pe });
            },
        }
        Ok(())
    } else if bytes_eq(a.key, "yoffset".as_bytes()) {
        if seen[6] {
            proof {
                vstd::utf8::encode_utf8_decode_utf8("yoffset"@);
            }
            return Err(Error::DuplicateKey { line: a.line, key: "yoffset".to_owned() });
        }
        match crate::parse::parse_i16_bytes(a.value) {
            Ok(v) => {
                block.yoffset = v;
                seen[6] = true;
            },
            Err(pe) => {
                proof {
                    vstd::utf8::encode_utf8_decode_utf8("yoffset"@);
                }
                return Err(Error::Parse { line: a.line, entity: "yoffset".to_owned(), err: pe });
            },
        }
        Ok(())
    } else if bytes_eq(a.key, "xadvance".as_bytes()) {
        if seen[7] {
            proof {
                vstd::utf8::encode_utf8_decode_utf8("xadvance"@);
            }
            return Err(Error::DuplicateKey { line: a.line, key: "xadvance".to_owned() });
        }
        match crate::parse::parse_i16_bytes(a.value) {
            Ok(v) => {
                block.xadvance = v;
                seen[7] = true;
            },
            Err(pe) => {
                proof {
                    vstd::utf8::encode_utf8_decode_utf8("xadvance"@);
                }
                return Err(Error::Parse { line: a.line, entity: "xadvance".to_owned(), err: pe });
            },
        }
        Ok(())
    } else if bytes_eq(a.key, "page".as_bytes()) {
        if seen[8] {
            proof {
                vstd::utf8::encode_utf8_decode_utf8("page"@);
            }
            return Err(Error::DuplicateKey { line: a.line, key: "page".to_owned() });
        }
        match crate::parse::parse_u8_bytes(a.value) {
            Ok(v) => {
                block.page = v;
                seen[8] = true;
            },
            Err(pe) => {
                proof {
                    vstd::utf8::encode_utf8_decode_utf8("page"@);
                }
                return Err(Error::Parse { line: a.line, entity: "page".to_owned(), err: pe });
            },
        }
        Ok(())
    } else if bytes_eq(a.key, "chnl".as_bytes()) {
        if seen[9] {
            proof {
                vstd::utf8::encode_utf8_decode_utf8("chnl"@);
            }
            return Err(Error::DuplicateKey { line: a.line, key: "chnl".to_owned() });
        }
        match crate::font::parse_chnl_bytes(a.value) {
            Ok(v) => {
                proof {
                    assert(v == Chnl(v.value()));
                }
                block.chnl = v;
                seen[9] = true;
            },
            Err(pe) => {
                proof {
                    vstd::utf8::encode_utf8_decode_utf8("chnl"@);
                }
                return Err(Error::Parse { line: a.line, entity: "chnl".to_owned(), err: pe });
            },
        }
        Ok(())
    } else {
        match crate::util::string_from_utf8(vstd::slice::slice_to_vec(a.key)) {
            Some(k) => Err(Error::InvalidKey { line: a.line, key: k }),
            None => Err(
                Error::Parse {
                    line: a.line,
                    entity: "key".to_owned(),
                    err: ParseError::InvalidUtf8,
                },
            ),
        }
    }
}

/// Load a char block from the attributes of one line.
#[verifier::spinoff_prover]
pub fn load_char(attrs: &[Attribute]) -> (r: Result<Char, Error>)
    ensures
        (r is Ok <==> spec_load_char(avs(attrs@)) is Ok),
        r matches Ok(v) ==> spec_load_char(avs(attrs@)) == Ok::<Char, LoadErr>(v),
        r matches Err(e) ==> (spec_load_char(avs(attrs@)) matches Err(le) && load_err_matches(
            e,
            le,
        )),
{
    let ghost ps = avs(attrs@);
    let mut block = Char::default();
    let mut seen: Vec<bool> = Vec::new();
    let mut si: usize = 0;
    while si < 10
        invariant
            si <= 10,
            seen@.len() == si,
            forall|k: int| 0 <= k < si ==> !seen@[k],
        decreases 10 - si,
    {
        seen.push(false);
        si = si + 1;
    }
    proof {
        assert(seen@ =~= Seq::new(10, |k: int| false));
        assert(ps.skip(0) =~= ps);
    }
    let mut i: usize = 0;
    while i < attrs.len()
        invariant
            0 <= i <= attrs@.len(),
            ps == avs(attrs@),
            ps.len() == attrs@.len(),
            seen@.len() == 10,
            spec_load_char(ps) == spec_load_char_rec(ps.skip(i as int), block, seen@),
        decreases attrs@.len() - i,
    {
        let ghost pre = ps.skip(i as int);
        let ghost acc0 = block;
        let ghost seen0 = seen@;
        assert(pre[0] == ps[i as int]);
        assert(ps[i as int] == attrs@[i as int]@);
        let a = attrs[i];
        match char_step(&mut block, &mut seen, &a) {
            Ok(()) => {},
            Err(e) => {
                return Err(e);
            },
        }
        proof {
            assert(pre.drop_first() =~= ps.skip(i + 1));
        }
        i = i + 1;
    }
    proof {
        assert(ps.skip(i as int).len() == 0);
    }
    Ok(block)
}

/// Feed one attribute to a partially loaded kerning block.
pub open spec fn spec_kerning_step(a: AttrV, acc: Kerning, seen: Seq<bool>) -> Result<
    (Kerning, Seq<bool>),
    LoadErr,
> {
    if false {
        Err(LoadErr::KeyUtf8(a.line))
    } else if a.key == encode_utf8("first"@) {
        if seen[0] {
            Err(LoadErr::DupKey(a.key, a.line))
        } else {
            match spec_parse_u32(a.value) {
                Some(v) => Ok((Kerning { first: v, ..acc }, seen.update(0, true))),
                None => Err(LoadErr::BadValue(a.key, a.line, ParseError::InvalidInt)),
            }
        }
    } else if a.key == encode_utf8("second"@) {
        if seen[1] {
            Err(LoadErr::DupKey(a.key, a.line))
        } else {
            match spec_parse_u32(a.value) {
                Some(v) => Ok((Kerning { second: v, ..acc }, seen.update(1, true))),
                None => Err(LoadErr::BadValue(a.key, a.line, ParseError::InvalidInt)),
            }
        }
    } else if a.key == encode_utf8("amount"@) {
        if seen[2] {
            Err(LoadErr::DupKey(a.key, a.line))
        } else {
            match spec_parse_i16(a.value) {
                Some(v) => Ok((Kerning { amount: v, ..acc }, seen.update(2, true))),
                None => Err(LoadErr::BadValue(a.key, a.line, ParseError::InvalidInt)),
            }
        }
    } else {
        if valid_utf8(a.key) {
            Err(LoadErr::BadKey(decode_utf8(a.key), a.line))
        } else {
            Err(LoadErr::KeyUtf8(a.line))
        }
    }
}

/// Load a kerning block from its attributes, left to right.
pub open spec fn spec_load_kerning_rec(attrs: Seq<AttrV>, acc: Kerning, seen: Seq<bool>) -> Result<
    Kerning,
    LoadErr,
>
    decreases attrs.len(),
{
    if attrs.len() == 0 {
        Ok(acc)
    } else {
        match spec_kerning_step(attrs[0], acc, seen) {
            Ok((acc2, seen2)) => spec_load_kerning_rec(attrs.drop_first(), acc2, seen2),
            Err(e) => Err(e),
        }
    }
}

/// The kerning block a whole attribute list loads to.
pub open spec fn spec_load_kerning(attrs: Seq<AttrV>) -> Result<Kerning, LoadErr> {
    spec_load_kerning_rec(attrs, (Kerning { first: 0, second: 0, amount: 0 }), Seq::new(3, |k: int| false))
}

/// Feed one attribute to a partially loaded kerning block.
#[verifier::spinoff_prover]
#[verifier::rlimit(100)]
fn kerning_step(block: &mut Kerning, seen: &mut Vec<bool>, a: &Attribute) -> (r: Result<(), Error>)
    requires
        old(seen)@.len() == 3,
    ensures
        final (seen)@.len() == 3,
        (r is Ok <==> spec_kerning_step(a@, *old(block), old(seen)@) is Ok),
        r is Ok ==> spec_kerning_step(a@, *old(block), old(seen)@) == Ok::<
            (Kerning, Seq<bool>),
            LoadErr,
        >((*final (block), final (seen)@)),
        r matches Err(e) ==> (spec_kerning_step(a@, *old(block), old(seen)@) matches Err(le)
            && load_err_matches(e, le)),
{
    if false {
        // unreachable: the chain below mirrors the recognized keys, arm for arm
        Ok(())
    } else if bytes_eq(a.key, "first".as_bytes()) {
        if seen[0] {
            proof {
                vstd::utf8::encode_utf8_decode_utf8("first"@);
            }
            return Err(Error::DuplicateKey { line: a.line, key: "first".to_owned() });
        }
        match crate::parse::parse_u32_bytes(a.value) {
            Ok(v) => {
                block.first = v;
                seen[0] = true;
            },
            Err(pe) => {
                proof {
                    vstd::utf8::encode_utf8_decode_utf8("first"@);
                }
                return Err(Error::Parse { line: a.line, entity: "first".to_owned(), err: pe });
            },
        }
        Ok(())
    } else if bytes_eq(a.key, "second".as_bytes()) {
        if seen[1] {
            proof {
                vstd::utf8::encode_utf8_decode_utf8("second"@);
            }
            return Err(Error::DuplicateKey { line: a.line, key: "second".to_owned() });
        }
        match crate::parse::parse_u32_bytes(a.value) {
            Ok(v) => {
                block.second = v;
                seen[1] = true;
            },
            Err(pe) => {
                proof {
                    vstd::utf8::encode_utf8_decode_utf8("second"@);
                }
                return Err(Error::Parse { line: a.line, entity: "second".to_owned(), err: pe });
            },
        }
        Ok(())
    } else if bytes_eq(a.key, "amount".as_bytes()) {
        if seen[2] {
            proof {
                vstd::utf8::encode_utf8_decode_utf8("amount"@);
            }
            return Err(Error::DuplicateKey { line: a.line, key: "amount".to_owned() });
        }
        match crate::parse::parse_i16_bytes(a.value) {
            Ok(v) => {
                block.amount = v;
                seen[2] = true;
            },
            Err(pe) => {
                proof {
                    vstd::utf8::encode_utf8_decode_utf8("amount"@);
                }
                return Err(Error::Parse { line: a.line, entity: "amount".to_owned(), err: pe });
            },
        }
        Ok(())
    } else {
        match crate::util::string_from_utf8(vstd::slice::slice_to_vec(a.key)) {
            Some(k) => Err(Error::InvalidKey { line: a.line, key: k }),
            None => Err(
                Error::Parse {
                    line: a.line,
                    entity: "key".to_owned(),
                    err: ParseError::InvalidUtf8,
                },
            ),
        }
    }
}

/// Load a kerning block from the attributes of one line.
#[verifier::spinoff_prover]
pub fn load_kerning(attrs: &[Attribute]) -> (r: Result<Kerning, Error>)
    ensures
        (r is Ok <==> spec_load_kerning(avs(attrs@)) is Ok),
        r matches Ok(v) ==> spec_load_kerning(avs(attrs@)) == Ok::<Kerning, LoadErr>(v),
        r matches Err(e) ==> (spec_load_kerning(avs(attrs@)) matches Err(le) && load_err_matches(
            e,
            le,
        )),
{
    let ghost ps = avs(attrs@);
    let mut block = Kerning::default();
    let mut seen: Vec<bool> = Vec::new();
    let mut si: usize = 0;
    while si < 3
        invariant
            si <= 3,
            seen@.len() == si,
            forall|k: int| 0 <= k < si ==> !seen@[k],
        decreases 3 - si,
    {
        seen.push(false);
        si = si + 1;
    }
    proof {
        assert(seen@ =~= Seq::new(3, |k: int| false));
        assert(ps.skip(0) =~= ps);
    }
    let mut i: usize = 0;
    while i < attrs.len()
        invariant
            0 <= i <= attrs@.len(),
            ps == avs(attrs@),
            ps.len() == attrs@.len(),
            seen@.len() == 3,
            spec_load_kerning(ps) == spec_load_kerning_rec(ps.skip(i as int), block, seen@),
        decreases attrs@.len() - i,
    {
        let ghost pre = ps.skip(i as int);
        let ghost acc0 = block;
        let ghost seen0 = seen@;
        assert(pre[0] == ps[i as int]);
        assert(ps[i as int] == attrs@[i as int]@);
        let a = attrs[i];
        match kerning_step(&mut block, &mut seen, &a) {
            Ok(()) => {},
            Err(e) => {
                return Err(e);
            },
        }
        proof {
            assert(pre.drop_first() =~= ps.skip(i + 1));
        }
        i = i + 1;
    }
    proof {
        assert(ps.skip(i as int).len() == 0);
    }
    Ok(block)
}

/// Feed one attribute to a partially loaded count block.
pub open spec fn spec_count_step(a: AttrV, acc: Count, seen: Seq<bool>) -> Result<
    (Count, Seq<bool>),
    LoadErr,
> {
    if false {
        Err(LoadErr::KeyUtf8(a.line))
    } else if a.key == encode_utf8("count"@) {
        if seen[0] {
            Err(LoadErr::DupKey(a.key, a.line))
        } else {
            match spec_parse_u32(a.value) {
                Some(v) => Ok((Count { count: v, ..acc }, seen.update(0, true))),
                None => Err(LoadErr::BadValue(a.key, a.line, ParseError::InvalidInt)),
            }
        }
    } else {
        if valid_utf8(a.key) {
            Err(LoadErr::BadKey(decode_utf8(a.key), a.line))
        } else {
            Err(LoadErr::KeyUtf8(a.line))
        }
    }
}

/// Load a count block from its attributes, left to right.
pub open spec fn spec_load_count_rec(attrs: Seq<AttrV>, acc: Count, seen: Seq<bool>) -> Result<
    Count,
    LoadErr,
>
    decreases attrs.len(),
{
    if attrs.len() == 0 {
        Ok(acc)
    } else {
        match spec_count_step(attrs[0], acc, seen) {
            Ok((acc2, seen2)) => spec_load_count_rec(attrs.drop_first(), acc2, seen2),
            Err(e) => Err(e),
        }
    }
}

/// The count block a whole attribute list loads to.
pub open spec fn spec_load_count(attrs: Seq<AttrV>) -> Result<Count, LoadErr> {
    spec_load_count_rec(attrs, (Count { count: 0 }), Seq::new(1, |k: int| false))
}

/// Feed one attribute to a partially loaded count block.
#[verifier::spinoff_prover]
#[verifier::rlimit(100)]
fn count_step(block: &mut Count, seen: &mut Vec<bool>, a: &Attribute) -> (r: Result<(), Error>)
    requires
        old(seen)@.len() == 1,
    ensures
        final (seen)@.len() == 1,
        (r is Ok <==> spec_count_step(a@, *old(block), old(seen)@) is Ok),
        r is Ok ==> spec_count_step(a@, *old(block), old(seen)@) == Ok::<
            (Count, Seq<bool>),
            LoadErr,
        >((*final (block), final (seen)@)),
        r matches Err(e) ==> (spec_count_step(a@, *old(block), old(seen)@) matches Err(le)
            && load_err_matches(e, le)),
{
    if false {
        // unreachable: the chain below mirrors the recognized keys, arm for arm
        Ok(())
    } else if bytes_eq(a.key, "count".as_bytes()) {
        if seen[0] {
            proof {
                vstd::utf8::encode_utf8_decode_utf8("count"@);
            }
            return Err(Error::DuplicateKey { line: a.line, key: "count".to_owned() });
        }
        match crate::parse::parse_u32_bytes(a.value) {
            Ok(v) => {
                block.count = v;
                seen[0] = true;
            },
            Err(pe) => {
                proof {
                    vstd::utf8::encode_utf8_decode_utf8("count"@);
                }
                return Err(Error::Parse { line: a.line, entity: "count".to_owned(), err: pe });
            },
        }
        Ok(())
    } else {
        match crate::util::string_from_utf8(vstd::slice::slice_to_vec(a.key)) {
            Some(k) => Err(Error::InvalidKey { line: a.line, key: k }),
            None => Err(
                Error::Parse {
                    line: a.line,
                    entity: "key".to_owned(),
                    err: ParseError::InvalidUtf8,
                },
            ),
        }
    }
}

/// Load a count block from the attributes of one line.
#[verifier::spinoff_prover]
pub fn load_count(attrs: &[Attribute]) -> (r: Result<Count, Error>)
    ensures
        (r is Ok <==> spec_load_count(avs(attrs@)) is Ok),
        r matches Ok(v) ==> spec_load_count(avs(attrs@)) == Ok::<Count, LoadErr>(v),
        r matches Err(e) ==> (spec_load_count(avs(attrs@)) matches Err(le) && load_err_matches(
            e,
            le,
        )),
{
    let ghost ps = avs(attrs@);
    let mut block = Count::default();
    let mut seen: Vec<bool> = Vec::new();
    let mut si: usize = 0;
    while si < 1
        invariant
            si <= 1,
            seen@.len() == si,
            forall|k: int| 0 <= k < si ==> !seen@[k],
        decreases 1 - si,
    {
        seen.push(false);
        si = si + 1;
    }
    proof {
        assert(seen@ =~= Seq::new(1, |k: int| false));
        assert(ps.skip(0) =~= ps);
    }
    let mut i: usize = 0;
    while i < attrs.len()
        invariant
            0 <= i <= attrs@.len(),
            ps == avs(attrs@),
            ps.len() == attrs@.len(),
            seen@.len() == 1,
            spec_load_count(ps) == spec_load_count_rec(ps.skip(i as int), block, seen@),
        decreases attrs@.len() - i,
    {
        let ghost pre = ps.skip(i as int);
        let ghost acc0 = block;
        let ghost seen0 = seen@;
        assert(pre[0] == ps[i as int]);
        assert(ps[i as int] == attrs@[i as int]@);
        let a = attrs[i];
        match count_step(&mut block, &mut seen, &a) {
            Ok(()) => {},
            Err(e) => {
                return Err(e);
            },
        }
        proof {
            assert(pre.drop_first() =~= ps.skip(i + 1));
        }
        i = i + 1;
    }
    proof {
        assert(ps.skip(i as int).len() == 0);
    }
    Ok(block)
}

/// Feed one attribute to a partially loaded page block.
pub open spec fn spec_page_step(a: AttrV, acc: PageV, seen: Seq<bool>) -> Result<
    (PageV, Seq<bool>),
    LoadErr,
> {
    if false {
        Err(LoadErr::KeyUtf8(a.line))
    } else if a.key == encode_utf8("id"@) {
        if seen[0] {
            Err(LoadErr::DupKey(a.key, a.line))
        } else {
            match spec_parse_u16(a.value) {
                Some(v) => Ok((PageV { id: v, ..acc }, seen.update(0, true))),
                None => Err(LoadErr::BadValue(a.key, a.line, ParseError::InvalidInt)),
            }
        }
    } else if a.key == encode_utf8("file"@) {
        if seen[1] {
            Err(LoadErr::DupKey(a.key, a.line))
        } else {
            if !valid_utf8(a.value) {
                Err(LoadErr::BadValue(a.key, a.line, ParseError::InvalidUtf8))
            } else {
                Ok((PageV { file: decode_utf8(a.value), ..acc }, seen.update(1, true)))
            }
        }
    } else {
        if valid_utf8(a.key) {
            Err(LoadErr::BadKey(decode_utf8(a.key), a.line))
        } else {
            Err(LoadErr::KeyUtf8(a.line))
        }
    }
}

/// Load a page block from its attributes, left to right.
pub open spec fn spec_load_page_rec(attrs: Seq<AttrV>, acc: PageV, seen: Seq<bool>) -> Result<
    PageV,
    LoadErr,
>
    decreases attrs.len(),
{
    if attrs.len() == 0 {
        Ok(acc)
    } else {
        match spec_page_step(attrs[0], acc, seen) {
            Ok((acc2, seen2)) => spec_load_page_rec(attrs.drop_first(), acc2, seen2),
            Err(e) => Err(e),
        }
    }
}

/// The page block a whole attribute list loads to.
pub open spec fn spec_load_page(attrs: Seq<AttrV>) -> Result<PageV, LoadErr> {
    spec_load_page_rec(attrs, (PageV { id: 0, file: Seq::<char>::empty() }), Seq::new(2, |k: int| false))
}

/// Feed one attribute to a partially loaded page block.
#[verifier::spinoff_prover]
#[verifier::rlimit(100)]
fn page_step(block: &mut crate::font::Page, seen: &mut Vec<bool>, a: &Attribute) -> (r: Result<(), Error>)
    requires
        old(seen)@.len() == 2,
    ensures
        final (seen)@.len() == 2,
        (r is Ok <==> spec_page_step(a@, old(block)@, old(seen)@) is Ok),
        r is Ok ==> spec_page_step(a@, old(block)@, old(seen)@) == Ok::<
            (PageV, Seq<bool>),
            LoadErr,
        >((final (block)@, final (seen)@)),
        r matches Err(e) ==> (spec_page_step(a@, old(block)@, old(seen)@) matches Err(le)
            && load_err_matches(e, le)),
{
    if false {
        // unreachable: the chain below mirrors the recognized keys, arm for arm
        Ok(())
    } else if bytes_eq(a.key, "id".as_bytes()) {
        if seen[0] {
            proof {
                vstd::utf8::encode_utf8_decode_utf8("id"@);
            }
            return Err(Error::DuplicateKey { line: a.line, key: "id".to_owned() });
        }
        match crate::parse::parse_u16_bytes(a.value) {
            Ok(v) => {
                block.id = v;
                seen[0] = true;
            },
            Err(pe) => {
                proof {
                    vstd::utf8::encode_utf8_decode_utf8("id"@);
                }
                return Err(Error::Parse { line: a.line, entity: "id".to_owned(), err: pe });
            },
        }
        Ok(())
    } else if bytes_eq(a.key, "file".as_bytes()) {
        if seen[1] {
            proof {
                vstd::utf8::encode_utf8_decode_utf8("file"@);
            }
            return Err(Error::DuplicateKey { line: a.line, key: "file".to_owned() });
        }
        match crate::util::string_from_utf8(vstd::slice::slice_to_vec(a.value)) {
            Some(v) => {
                block.file = v;
                seen[1] = true;
            },
            None => {
                proof {
                    vstd::utf8::encode_utf8_decode_utf8("file"@);
                }
                return Err(Error::Parse {
                    line: a.line,
                    entity: "file".to_owned(),
                    err: ParseError::InvalidUtf8,
                });
            },
        }
        Ok(())
    } else {
        match crate::util::string_from_utf8(vstd::slice::slice_to_vec(a.key)) {
            Some(k) => Err(Error::InvalidKey { line: a.line, key: k }),
            None => Err(
                Error::Parse {
                    line: a.line,
                    entity: "key".to_owned(),
                    err: ParseError::InvalidUtf8,
                },
            ),
        }
    }
}

/// Load a page block from the attributes of one line.
#[verifier::spinoff_prover]
pub fn load_page(attrs: &[Attribute]) -> (r: Result<crate::font::Page, Error>)
    ensures
        (r is Ok <==> spec_load_page(avs(attrs@)) is Ok),
        r matches Ok(v) ==> spec_load_page(avs(attrs@)) == Ok::<PageV, LoadErr>(v@),
        r matches Err(e) ==> (spec_load_page(avs(attrs@)) matches Err(le) && load_err_matches(
            e,
            le,
        )),
{
    let ghost ps = avs(attrs@);
    let mut block = crate::font::Page { id: 0, file: String::new() };
    let mut seen: Vec<bool> = Vec::new();
    let mut si: usize = 0;
    while si < 2
        invariant
            si <= 2,
            seen@.len() == si,
            forall|k: int| 0 <= k < si ==> !seen@[k],
        decreases 2 - si,
    {
        seen.push(false);
        si = si + 1;
    }
    proof {
        assert(seen@ =~= Seq::new(2, |k: int| false));
        assert(ps.skip(0) =~= ps);
    }
    let mut i: usize = 0;
    while i < attrs.len()
        invariant
            0 <= i <= attrs@.len(),
            ps == avs(attrs@),
            ps.len() == attrs@.len(),
            seen@.len() == 2,
            spec_load_page(ps) == spec_load_page_rec(ps.skip(i as int), block@, seen@),
        decreases attrs@.len() - i,
    {
        let ghost pre = ps.skip(i as int);
        let ghost acc0 = block@;
        let ghost seen0 = seen@;
        assert(pre[0] == ps[i as int]);
        assert(ps[i as int] == attrs@[i as int]@);
        let a = attrs[i];
        match page_step(&mut block, &mut seen, &a) {
            Ok(()) => {},
            Err(e) => {
                return Err(e);
            },
        }
        proof {
            assert(pre.drop_first() =~= ps.skip(i + 1));
        }
        i = i + 1;
    }
    proof {
        assert(ps.skip(i as int).len() == 0);
    }
    Ok(block)
}


} // verus!
