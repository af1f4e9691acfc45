//! Binary format operations.
//!
//! The stream is four magic bytes, then a flat sequence of blocks, each an
//! id byte, a little-endian `u32` payload length, and exactly that many
//! payload bytes. Only version 3 is accepted on read; version 3 is always
//! emitted on write.

use vstd::prelude::*;

use crate::builder::{or_empty, spec_build, BuildErr, FontProto, ProtoV};
use crate::charset::{Charset, CharsetV};
use crate::error::Error;
use crate::font::{Char, Chnl, Common, Font, FontV, Info, InfoV, Kerning, Packing};
use crate::parse::{first_at, lemma_first_at, lemma_first_at_is, ParseError};
use crate::settings::LoadSettings;
use crate::util::{read_all, string_from_utf8, write_all};
use vstd::utf8::{decode_utf8, encode_utf8, valid_utf8};

verus! {

/// The info block id.
pub const INFO: u8 = 1;

/// The common block id.
pub const COMMON: u8 = 2;

/// The pages block id.
pub const PAGES: u8 = 3;

/// The chars block id.
pub const CHARS: u8 = 4;

/// The kerning pairs block id.
pub const KERNING_PAIRS: u8 = 5;

/// A byte-sized bit field.
#[derive(Debug, Clone, Copy, PartialEq, Eq, Structural)]
pub struct BitField(pub u8);

impl BitField {
    /// Read the given bit.
    #[inline(always)]
    pub fn get(&self, bit: u32) -> (r: bool)
        requires
            bit < 8,
        ensures
            r == (self.0 >> bit & 1 == 1),
    {
        let r = self.0 & mask(bit) != 0;
        proof {
            let b = self.0;
            assert((b & (1u8 << bit) != 0) == (b >> bit & 1 == 1)) by (bit_vector)
                requires
                    bit < 8,
            ;
        }
        r
    }

    /// Set the given bit.
    #[inline(always)]
    pub fn set(&mut self, bit: u32, v: bool)
        requires
            bit < 8,
        ensures
            final (self).0 == (if v {
                old(self).0 | (1u8 << bit)
            } else {
                old(self).0 & !(1u8 << bit)
            }),
    {
        let m = mask(bit);
        if v {
            *self = BitField(self.0 | m);
        } else {
            *self = BitField(self.0 & !m);
        }
    }
}

#[inline(always)]
fn mask(bit: u32) -> (r: u8)
    requires
        bit < 8,
    ensures
        r == 1u8 << bit,
{
    1u8 << bit
}

/// The leading magic word of a binary stream: three fixed marker bytes and
/// a version byte, packed little-endian.
#[derive(Copy, Clone, Debug, PartialEq, Eq, Structural)]
pub struct Magic(pub u32);

impl Magic {
    /// The three fixed marker bytes, `BMF`, as a little-endian word.
    pub const TORCH: u32 = 0x0046_4D42;

    /// The magic word for the given version.
    pub fn new(version: u8) -> (r: Self)
        ensures
            r.0 == version * 0x0100_0000 + 0x0046_4D42,
    {
        Self((version as u32) * 0x0100_0000 + 0x0046_4D42)
    }

    /// The version of the magic word, if its marker bytes are right.
    pub fn version(self) -> (r: Result<u8, Error>)
        ensures
            self.0 % 0x0100_0000 == 0x0046_4D42 ==> r == Ok::<u8, Error>(
                (self.0 / 0x0100_0000) as u8,
            ),
            self.0 % 0x0100_0000 != 0x0046_4D42 ==> (r matches Err(e) && e
                matches Error::InvalidBinary { magic_bytes } && magic_bytes == self.0),
    {
        if self.0 % 0x0100_0000 != 0x0046_4D42 {
            Err(Error::InvalidBinary { magic_bytes: self.0 })
        } else {
            Ok((self.0 / 0x0100_0000) as u8)
        }
    }
}

impl Default for Magic {
    /// The zero magic word, which no version produces.
    fn default() -> (r: Self)
        ensures
            r.0 == 0,
    {
        Magic(0)
    }
}

/// One block header: its id and its payload length.
#[derive(Copy, Clone, Debug, PartialEq, Eq, Structural)]
pub struct Block {
    pub id: u8,
    pub len: u32,
}

impl Block {
    /// A block header.
    pub fn new(id: u8, len: u32) -> (r: Self)
        ensures
            r == (Block { id, len }),
    {
        Self { id, len }
    }
}

impl Default for Block {
    /// A block header of id zero and length zero.
    fn default() -> (r: Self)
        ensures
            r == (Block { id: 0, len: 0 }),
    {
        Block { id: 0, len: 0 }
    }
}

/// The two little-endian bytes of a `u16`.
pub open spec fn le16(n: u16) -> Seq<u8> {
    seq![(n as int % 256) as u8, (n as int / 256) as u8]
}

/// The four little-endian bytes of a `u32`.
pub open spec fn le32(n: u32) -> Seq<u8> {
    seq![
        (n as int % 256) as u8,
        (n as int / 256 % 256) as u8,
        (n as int / 0x10000 % 256) as u8,
        (n as int / 0x1000000) as u8,
    ]
}

/// The `u16` two little-endian bytes denote.
pub open spec fn le16_val(b0: u8, b1: u8) -> u16 {
    (b0 as int + b1 as int * 256) as u16
}

/// The `u32` four little-endian bytes denote.
pub open spec fn le32_val(b0: u8, b1: u8, b2: u8, b3: u8) -> u32 {
    (b0 as int + b1 as int * 256 + b2 as int * 0x10000 + b3 as int * 0x1000000) as u32
}

/// The two's complement `u16` bit pattern of an `i16`.
pub open spec fn i16_bits(v: i16) -> u16 {
    if v >= 0 {
        v as u16
    } else {
        (v + 0x10000) as u16
    }
}

/// The `i16` a two's complement `u16` bit pattern denotes.
pub open spec fn u16_as_i16(u: u16) -> i16 {
    if u < 0x8000 {
        u as i16
    } else {
        (u - 0x10000) as i16
    }
}

/// The little-endian bytes of a `u16` denote the value back.
pub proof fn lemma_le16_cycle(n: u16)
    ensures
        le16_val(le16(n)[0], le16(n)[1]) == n,
{
    vstd::arithmetic::div_mod::lemma_fundamental_div_mod(n as int, 256);
}

/// The little-endian bytes of a `u32` denote the value back.
pub proof fn lemma_le32_cycle(n: u32)
    ensures
        le32_val(le32(n)[0], le32(n)[1], le32(n)[2], le32(n)[3]) == n,
{
    let x = n as int;
    vstd::arithmetic::div_mod::lemma_fundamental_div_mod(x, 256);
    vstd::arithmetic::div_mod::lemma_fundamental_div_mod(x / 256, 256);
    vstd::arithmetic::div_mod::lemma_fundamental_div_mod(x / 0x10000, 256);
    assert(x / 256 / 256 == x / 0x10000) by {
        vstd::arithmetic::div_mod::lemma_div_denominator(x, 256, 256);
    }
    assert(x / 0x10000 / 256 == x / 0x1000000) by {
        vstd::arithmetic::div_mod::lemma_div_denominator(x, 0x10000, 256);
    }
}

/// The packed boolean flags of the info block, highest bit first: smooth,
/// unicode, italic, bold.
pub open spec fn info_bits(i: InfoV) -> u8 {
    ((if i.smooth {
        128int
    } else {
        0int
    }) + (if i.unicode {
        64int
    } else {
        0int
    }) + (if i.italic {
        32int
    } else {
        0int
    }) + (if i.bold {
        16int
    } else {
        0int
    })) as u8
}

/// Whether the bit worth `d` (a power of two) is set in `b`.
pub open spec fn bit_div(b: u8, d: int) -> bool {
    (b as int / d) % 2 == 1
}

/// The charset byte of an info block: the tag value, or zero for the null
/// and undefined encodings.
pub open spec fn charset_byte(c: CharsetV) -> u8 {
    match c {
        CharsetV::Tagged(u) => u,
        _ => 0,
    }
}

/// A NUL-terminated string: its UTF-8 bytes, then a NUL.
pub open spec fn cstr(s: Seq<char>) -> Seq<u8> {
    encode_utf8(s) + seq![0u8]
}

/// The info block payload: the fixed fields, then the NUL-terminated face
/// name.
pub open spec fn info_payload(i: InfoV) -> Seq<u8> {
    le16(i16_bits(i.size)) + seq![info_bits(i), charset_byte(i.charset)] + le16(i.stretch_h)
        + seq![
        i.aa,
        i.padding.up,
        i.padding.right,
        i.padding.down,
        i.padding.left,
        i.spacing.horizontal,
        i.spacing.vertical,
        i.outline,
    ] + cstr(i.face)
}

/// The common block payload: five `u16` fields, the packed flag byte, and
/// four channel packing bytes.
pub open spec fn common_payload(c: Common) -> Seq<u8> {
    le16(c.line_height) + le16(c.base) + le16(c.scale_w) + le16(c.scale_h) + le16(c.pages) + seq![
        (if c.packed {
            1u8
        } else {
            0u8
        }),
        crate::font::spec_packing_u8(c.alpha_chnl),
        crate::font::spec_packing_u8(c.red_chnl),
        crate::font::spec_packing_u8(c.green_chnl),
        crate::font::spec_packing_u8(c.blue_chnl),
    ]
}

/// The pages block payload: the concatenated NUL-terminated page names.
pub open spec fn pages_payload(pages: Seq<Seq<char>>) -> Seq<u8>
    decreases pages.len(),
{
    if pages.len() == 0 {
        Seq::empty()
    } else {
        cstr(pages[0]) + pages_payload(pages.drop_first())
    }
}

/// One fixed-width character record of the chars block.
pub open spec fn char_record(c: Char) -> Seq<u8> {
    le32(c.id) + le16(c.x) + le16(c.y) + le16(c.width) + le16(c.height) + le16(i16_bits(c.xoffset))
        + le16(i16_bits(c.yoffset)) + le16(i16_bits(c.xadvance)) + seq![c.page, c.chnl.value()]
}

/// The chars block payload: the concatenated character records.
pub open spec fn chars_payload(chars: Seq<Char>) -> Seq<u8>
    decreases chars.len(),
{
    if chars.len() == 0 {
        Seq::empty()
    } else {
        char_record(chars[0]) + chars_payload(chars.drop_first())
    }
}

/// One fixed-width kerning pair record of the kerning pairs block.
pub open spec fn kerning_record(k: Kerning) -> Seq<u8> {
    le32(k.first) + le32(k.second) + le16(i16_bits(k.amount))
}

/// The kerning pairs block payload: the concatenated records.
pub open spec fn kernings_payload(kernings: Seq<Kerning>) -> Seq<u8>
    decreases kernings.len(),
{
    if kernings.len() == 0 {
        Seq::empty()
    } else {
        kerning_record(kernings[0]) + kernings_payload(kernings.drop_first())
    }
}

/// A block: its id byte, its little-endian payload length, its payload.
pub open spec fn block_bytes(id: u8, payload: Seq<u8>) -> Seq<u8> {
    seq![id] + le32(payload.len() as u32) + payload
}

/// The version 3 magic bytes.
pub open spec fn magic_bytes() -> Seq<u8> {
    seq![0x42u8, 0x4du8, 0x46u8, 3u8]
}

/// The whole binary stream of a font: magic, then the info, common, pages
/// and chars blocks, then the kerning pairs block only when there are any
/// kerning pairs.
pub open spec fn font_bytes(f: FontV) -> Seq<u8> {
    magic_bytes() + block_bytes(INFO, info_payload(f.info)) + block_bytes(
        COMMON,
        common_payload(f.common),
    ) + block_bytes(PAGES, pages_payload(f.pages)) + block_bytes(CHARS, chars_payload(f.chars)) + (
    if f.kernings.len() > 0 {
        block_bytes(KERNING_PAIRS, kernings_payload(f.kernings))
    } else {
        Seq::empty()
    })
}

/// The spec-level identity of a binary decode error.
pub ghost enum BinErr {
    /// A buffer or payload is shorter than its layout requires.
    Underflow,
    /// A payload is longer than its layout requires.
    Overflow,
    /// A string payload is missing its NUL terminator.
    MissingNul,
    /// A string payload is not valid UTF-8.
    BadUtf8,
    /// A channel packing byte is out of range.
    BadPacking,
    /// A channel bit field byte is out of range.
    BadChnl,
    /// The magic marker bytes are wrong.
    BadMagic(u32),
    /// The version byte is not the supported version.
    BadVersion(u8),
    /// An unrecognized block id.
    BadBlock(u8),
    /// A second info block.
    DupInfo,
    /// A second common block.
    DupCommon,
    /// The assembly of the decoded blocks failed.
    Build(BuildErr),
}

/// Whether a crate error is the one a spec-level binary decode error
/// describes.
pub open spec fn bin_err_matches(e: Error, be: BinErr) -> bool {
    match be {
        BinErr::Underflow => e matches Error::Parse { line, entity, err } && line is None && entity@
            == "buffer"@ && err == ParseError::Underflow,
        BinErr::Overflow => e matches Error::Parse { line, entity, err } && line is None && entity@
            == "buffer"@ && err == ParseError::Overflow,
        BinErr::MissingNul => e matches Error::Parse { line, entity, err } && line is None
            && entity@ == "CString"@ && err == ParseError::MissingNul,
        BinErr::BadUtf8 => e matches Error::Parse { line, entity, err } && line is None && entity@
            == "String"@ && err == ParseError::InvalidUtf8,
        BinErr::BadPacking => e matches Error::Parse { line, entity, err } && line is None
            && entity@ == "String"@ && err == ParseError::InvalidValue,
        BinErr::BadChnl => e matches Error::Parse { line, entity, err } && line is None && entity@
            == "String"@ && err == ParseError::InvalidValue,
        BinErr::BadMagic(m) => e matches Error::InvalidBinary { magic_bytes } && magic_bytes == m,
        BinErr::BadVersion(v) => e matches Error::UnsupportedBinaryVersion { version } && version
            == v,
        BinErr::BadBlock(id) => e matches Error::InvalidBinaryBlock { id: i } && i == id,
        BinErr::DupInfo => e matches Error::DuplicateInfoBlock { line } && line is None,
        BinErr::DupCommon => e matches Error::DuplicateCommonBlock { line } && line is None,
        BinErr::Build(b) => crate::builder::build_err_matches(e, b),
    }
}

/// The index of the first NUL byte, or the length if none.
pub open spec fn nul_pos(p: Seq<u8>) -> int {
    let k = first_at(p, 0);
    if 0 <= k <= p.len() {
        k
    } else {
        p.len() as int
    }
}

/// The info block an info payload decodes to.
pub open spec fn spec_dec_info(p: Seq<u8>) -> Result<InfoV, BinErr> {
    if p.len() < 14 {
        Err(BinErr::Underflow)
    } else {
        let rest = p.skip(14);
        let k = nul_pos(rest);
        if k == rest.len() {
            Err(BinErr::MissingNul)
        } else if !valid_utf8(rest.take(k)) {
            Err(BinErr::BadUtf8)
        } else if k + 1 != rest.len() {
            Err(BinErr::Overflow)
        } else {
            let unicode = bit_div(p[2], 64);
            Ok(
                InfoV {
                    face: decode_utf8(rest.take(k)),
                    size: u16_as_i16(le16_val(p[0], p[1])),
                    bold: bit_div(p[2], 16),
                    italic: bit_div(p[2], 32),
                    charset: if p[3] == 0 && unicode {
                        CharsetV::Null
                    } else {
                        CharsetV::Tagged(p[3])
                    },
                    unicode,
                    stretch_h: le16_val(p[4], p[5]),
                    smooth: bit_div(p[2], 128),
                    aa: p[6],
                    padding: crate::font::Padding {
                        up: p[7],
                        right: p[8],
                        down: p[9],
                        left: p[10],
                    },
                    spacing: crate::font::Spacing { horizontal: p[11], vertical: p[12] },
                    outline: p[13],
                },
            )
        }
    }
}

/// The common block a common payload decodes to.
pub open spec fn spec_dec_common(p: Seq<u8>) -> Result<Common, BinErr> {
    if p.len() < 15 {
        Err(BinErr::Underflow)
    } else if !(p[11] <= 4 && p[12] <= 4 && p[13] <= 4 && p[14] <= 4) {
        Err(BinErr::BadPacking)
    } else if p.len() != 15 {
        Err(BinErr::Overflow)
    } else {
        Ok(
            Common {
                line_height: le16_val(p[0], p[1]),
                base: le16_val(p[2], p[3]),
                scale_w: le16_val(p[4], p[5]),
                scale_h: le16_val(p[6], p[7]),
                pages: le16_val(p[8], p[9]),
                packed: bit_div(p[10], 1),
                alpha_chnl: spec_packing_of(p[11]),
                red_chnl: spec_packing_of(p[12]),
                green_chnl: spec_packing_of(p[13]),
                blue_chnl: spec_packing_of(p[14]),
            },
        )
    }
}

/// The channel packing a byte of zero to four denotes.
pub open spec fn spec_packing_of(u: u8) -> Packing {
    if u == 0 {
        Packing::Glyph
    } else if u == 1 {
        Packing::Outline
    } else if u == 2 {
        Packing::GlyphOutline
    } else if u == 3 {
        Packing::Zero
    } else {
        Packing::One
    }
}

/// The page names a pages payload decodes to.
pub open spec fn spec_dec_pages(p: Seq<u8>) -> Result<Seq<Seq<char>>, BinErr>
    decreases p.len(),
{
    if p.len() == 0 {
        Ok(Seq::empty())
    } else {
        let k = nul_pos(p);
        if k == p.len() {
            Err(BinErr::MissingNul)
        } else if !valid_utf8(p.take(k)) {
            Err(BinErr::BadUtf8)
        } else {
            match spec_dec_pages(p.skip(k + 1)) {
                Ok(rest) => Ok(seq![decode_utf8(p.take(k))] + rest),
                Err(e) => Err(e),
            }
        }
    }
}

/// The character one fixed-width record decodes to.
pub open spec fn spec_dec_char(r: Seq<u8>) -> Result<Char, BinErr> {
    if r[19] >= 16 {
        Err(BinErr::BadChnl)
    } else {
        Ok(
            Char {
                id: le32_val(r[0], r[1], r[2], r[3]),
                x: le16_val(r[4], r[5]),
                y: le16_val(r[6], r[7]),
                width: le16_val(r[8], r[9]),
                height: le16_val(r[10], r[11]),
                xoffset: u16_as_i16(le16_val(r[12], r[13])),
                yoffset: u16_as_i16(le16_val(r[14], r[15])),
                xadvance: u16_as_i16(le16_val(r[16], r[17])),
                page: r[18],
                chnl: Chnl(r[19]),
            },
        )
    }
}

/// The characters a chars payload decodes to.
pub open spec fn spec_dec_chars(p: Seq<u8>) -> Result<Seq<Char>, BinErr>
    decreases p.len(),
{
    if p.len() == 0 {
        Ok(Seq::empty())
    } else if p.len() < 20 {
        Err(BinErr::Underflow)
    } else {
        match spec_dec_char(p.take(20)) {
            Ok(c) => match spec_dec_chars(p.skip(20)) {
                Ok(rest) => Ok(seq![c] + rest),
                Err(e) => Err(e),
            },
            Err(e) => Err(e),
        }
    }
}

/// The kerning pair one fixed-width record decodes to.
pub open spec fn spec_dec_kerning(r: Seq<u8>) -> Kerning {
    Kerning {
        first: le32_val(r[0], r[1], r[2], r[3]),
        second: le32_val(r[4], r[5], r[6], r[7]),
        amount: u16_as_i16(le16_val(r[8], r[9])),
    }
}

/// The kerning pairs a kerning pairs payload decodes to.
pub open spec fn spec_dec_kernings(p: Seq<u8>) -> Result<Seq<Kerning>, BinErr>
    decreases p.len(),
{
    if p.len() == 0 {
        Ok(Seq::empty())
    } else if p.len() < 10 {
        Err(BinErr::Underflow)
    } else {
        match spec_dec_kernings(p.skip(10)) {
            Ok(rest) => Ok(seq![spec_dec_kerning(p.take(10))] + rest),
            Err(e) => Err(e),
        }
    }
}

/// The empty proto: no blocks supplied yet.
pub open spec fn proto_empty() -> ProtoV {
    ProtoV { info: None, common: None, pages: None, chars: None, kernings: None }
}

/// Feed one decoded block to the proto: info and common blocks may appear
/// once, list blocks concatenate, and unrecognized ids are a hard error.
pub open spec fn spec_apply_block(p: ProtoV, id: u8, payload: Seq<u8>) -> Result<ProtoV, BinErr> {
    if id == INFO {
        match spec_dec_info(payload) {
            Ok(i) => if p.info is Some {
                Err(BinErr::DupInfo)
            } else {
                Ok(ProtoV { info: Some(i), ..p })
            },
            Err(e) => Err(e),
        }
    } else if id == COMMON {
        match spec_dec_common(payload) {
            Ok(c) => if p.common is Some {
                Err(BinErr::DupCommon)
            } else {
                Ok(ProtoV { common: Some(c), ..p })
            },
            Err(e) => Err(e),
        }
    } else if id == PAGES {
        match spec_dec_pages(payload) {
            Ok(pages) => Ok(ProtoV { pages: Some(or_empty(p.pages) + pages), ..p }),
            Err(e) => Err(e),
        }
    } else if id == CHARS {
        match spec_dec_chars(payload) {
            Ok(chars) => Ok(ProtoV { chars: Some(or_empty(p.chars) + chars), ..p }),
            Err(e) => Err(e),
        }
    } else if id == KERNING_PAIRS {
        match spec_dec_kernings(payload) {
            Ok(ks) => Ok(ProtoV { kernings: Some(or_empty(p.kernings) + ks), ..p }),
            Err(e) => Err(e),
        }
    } else {
        Err(BinErr::BadBlock(id))
    }
}

/// Fold the block sequence into the proto: read each header, slice exactly
/// the declared payload, and feed the block; a block claiming more bytes
/// than remain is an underflow.
pub open spec fn spec_dec_blocks(s: Seq<u8>, p: ProtoV) -> Result<ProtoV, BinErr>
    decreases s.len(),
{
    if s.len() == 0 {
        Ok(p)
    } else if s.len() < 5 {
        Err(BinErr::Underflow)
    } else {
        let len = le32_val(s[1], s[2], s[3], s[4]) as int;
        if len > s.len() - 5 {
            Err(BinErr::Underflow)
        } else {
            match spec_apply_block(p, s[0], s.subrange(5, 5 + len)) {
                Ok(p2) => spec_dec_blocks(s.skip(5 + len), p2),
                Err(e) => Err(e),
            }
        }
    }
}

/// The font a whole binary stream decodes to under the given settings, or
/// the first error: the magic marker and version are checked, the blocks
/// are folded into a proto, and the proto is built.
pub open spec fn spec_decode_font(s: Seq<u8>, settings: LoadSettings) -> Result<FontV, BinErr> {
    if s.len() < 4 {
        Err(BinErr::Underflow)
    } else if !(s[0] == 0x42 && s[1] == 0x4d && s[2] == 0x46) {
        Err(BinErr::BadMagic(le32_val(s[0], s[1], s[2], s[3])))
    } else if s[3] != 3 {
        Err(BinErr::BadVersion(s[3]))
    } else {
        match spec_dec_blocks(s.skip(4), proto_empty()) {
            Ok(p) => match spec_build(p, settings) {
                Ok(f) => Ok(f),
                Err(be) => Err(BinErr::Build(be)),
            },
            Err(e) => Err(e),
        }
    }
}

/// The two's complement bit pattern of an `i16` denotes the value back.
proof fn lemma_i16_cycle(v: i16)
    ensures
        u16_as_i16(i16_bits(v)) == v,
{
}

/// Decoding the packed boolean flags byte gives each flag back.
proof fn lemma_info_bits_cycle(i: InfoV)
    ensures
        bit_div(info_bits(i), 128) == i.smooth,
        bit_div(info_bits(i), 64) == i.unicode,
        bit_div(info_bits(i), 32) == i.italic,
        bit_div(info_bits(i), 16) == i.bold,
{
    let s: int = if i.smooth {
        1
    } else {
        0
    };
    let u: int = if i.unicode {
        1
    } else {
        0
    };
    let t: int = if i.italic {
        1
    } else {
        0
    };
    let o: int = if i.bold {
        1
    } else {
        0
    };
    let b = info_bits(i) as int;
    assert(b == 128 * s + 64 * u + 32 * t + 16 * o);
    vstd::arithmetic::div_mod::lemma_fundamental_div_mod_converse(
        b,
        128,
        s,
        64 * u + 32 * t + 16 * o,
    );
    vstd::arithmetic::div_mod::lemma_fundamental_div_mod_converse(
        b,
        64,
        2 * s + u,
        32 * t + 16 * o,
    );
    vstd::arithmetic::div_mod::lemma_fundamental_div_mod_converse(
        b,
        32,
        4 * s + 2 * u + t,
        16 * o,
    );
    vstd::arithmetic::div_mod::lemma_fundamental_div_mod_converse(
        b,
        16,
        8 * s + 4 * u + 2 * t + o,
        0,
    );
}

/// Decoding the encoded info block payload gives the block back, for blocks
/// whose face name has no embedded NUL and whose charset agrees with the
/// unicode flag.
proof fn lemma_info_cycle(i: InfoV)
    requires
        !has_nul(encode_utf8(i.face)),
        i.unicode ==> i.charset is Null,
        !i.unicode ==> i.charset is Tagged,
    ensures
        spec_dec_info(info_payload(i)) == Ok::<InfoV, BinErr>(i),
{
    let p = info_payload(i);
    let face = encode_utf8(i.face);
    let flen = face.len() as int;
    let fixed = seq![
        le16(i16_bits(i.size))[0],
        le16(i16_bits(i.size))[1],
        info_bits(i),
        charset_byte(i.charset),
        le16(i.stretch_h)[0],
        le16(i.stretch_h)[1],
        i.aa,
        i.padding.up,
        i.padding.right,
        i.padding.down,
        i.padding.left,
        i.spacing.horizontal,
        i.spacing.vertical,
        i.outline,
    ];
    assert(p =~= fixed + cstr(i.face));
    let rest = p.skip(14);
    assert(rest =~= cstr(i.face));
    assert forall|j: int| 0 <= j < flen implies rest[j] != 0 by {
        assert(rest[j] == face[j]);
    }
    assert(rest[flen] == 0);
    lemma_first_at_is(rest, 0, flen);
    assert(nul_pos(rest) == flen);
    assert(rest.take(flen) =~= face);
    vstd::utf8::encode_utf8_valid_utf8(i.face);
    vstd::utf8::encode_utf8_decode_utf8(i.face);
    lemma_le16_cycle(i16_bits(i.size));
    lemma_le16_cycle(i.stretch_h);
    lemma_i16_cycle(i.size);
    lemma_info_bits_cycle(i);
    let d = spec_dec_info(p);
    assert(d is Ok);
    let iv = d->Ok_0;
    assert(iv.face == i.face);
    assert(iv.size == i.size);
    assert(iv.charset == i.charset);
    assert(iv.padding == i.padding);
    assert(iv.spacing == i.spacing);
    assert(iv == i);
}

/// Decoding the encoded common block payload gives the block back.
proof fn lemma_common_cycle(c: Common)
    ensures
        spec_dec_common(common_payload(c)) == Ok::<Common, BinErr>(c),
{
    let p = common_payload(c);
    assert(p =~= seq![
        le16(c.line_height)[0],
        le16(c.line_height)[1],
        le16(c.base)[0],
        le16(c.base)[1],
        le16(c.scale_w)[0],
        le16(c.scale_w)[1],
        le16(c.scale_h)[0],
        le16(c.scale_h)[1],
        le16(c.pages)[0],
        le16(c.pages)[1],
        (if c.packed {
            1u8
        } else {
            0u8
        }),
        crate::font::spec_packing_u8(c.alpha_chnl),
        crate::font::spec_packing_u8(c.red_chnl),
        crate::font::spec_packing_u8(c.green_chnl),
        crate::font::spec_packing_u8(c.blue_chnl),
    ]);
    lemma_le16_cycle(c.line_height);
    lemma_le16_cycle(c.base);
    lemma_le16_cycle(c.scale_w);
    lemma_le16_cycle(c.scale_h);
    lemma_le16_cycle(c.pages);
    let d = spec_dec_common(p);
    assert(d is Ok);
    assert(d->Ok_0 == c);
}

/// Decoding the encoded pages block payload gives the page names back, for
/// names with no embedded NUL.
proof fn lemma_pages_cycle(pages: Seq<Seq<char>>)
    requires
        forall|i: int| 0 <= i < pages.len() ==> !has_nul(encode_utf8(#[trigger] pages[i])),
    ensures
        spec_dec_pages(pages_payload(pages)) == Ok::<Seq<Seq<char>>, BinErr>(pages),
    decreases pages.len(),
{
    let p = pages_payload(pages);
    if pages.len() == 0 {
        assert(p.len() == 0);
        assert(spec_dec_pages(p) == Ok::<Seq<Seq<char>>, BinErr>(Seq::<Seq<char>>::empty()));
        assert(pages =~= Seq::<Seq<char>>::empty());
    } else {
        let head = pages[0];
        let face = encode_utf8(head);
        let flen = face.len() as int;
        assert(p == cstr(head) + pages_payload(pages.drop_first()));
        assert forall|j: int| 0 <= j < flen implies p[j] != 0 by {
            assert(p[j] == face[j]);
        }
        assert(p[flen] == 0);
        lemma_first_at_is(p, 0, flen);
        assert(nul_pos(p) == flen);
        assert(flen < p.len());
        assert(p.take(flen) =~= face);
        vstd::utf8::encode_utf8_valid_utf8(head);
        vstd::utf8::encode_utf8_decode_utf8(head);
        assert(p.skip(flen + 1) =~= pages_payload(pages.drop_first()));
        assert(forall|i: int|
            0 <= i < pages.drop_first().len() ==> !has_nul(
                encode_utf8(#[trigger] pages.drop_first()[i]),
            )) by {
            assert(forall|i: int|
                0 <= i < pages.drop_first().len() ==> pages.drop_first()[i] == pages[i + 1]);
        }
        lemma_pages_cycle(pages.drop_first());
        assert(seq![head] + pages.drop_first() =~= pages);
    }
}

/// Decoding one encoded character record gives the character back, for
/// characters whose channel bit field is well formed.
proof fn lemma_char_cycle(c: Char)
    requires
        c.chnl.wf(),
    ensures
        spec_dec_char(char_record(c)) == Ok::<Char, BinErr>(c),
{
    let r = char_record(c);
    assert(r =~= seq![
        le32(c.id)[0],
        le32(c.id)[1],
        le32(c.id)[2],
        le32(c.id)[3],
        le16(c.x)[0],
        le16(c.x)[1],
        le16(c.y)[0],
        le16(c.y)[1],
        le16(c.width)[0],
        le16(c.width)[1],
        le16(c.height)[0],
        le16(c.height)[1],
        le16(i16_bits(c.xoffset))[0],
        le16(i16_bits(c.xoffset))[1],
        le16(i16_bits(c.yoffset))[0],
        le16(i16_bits(c.yoffset))[1],
        le16(i16_bits(c.xadvance))[0],
        le16(i16_bits(c.xadvance))[1],
        c.page,
        c.chnl.value(),
    ]);
    lemma_le32_cycle(c.id);
    lemma_le16_cycle(c.x);
    lemma_le16_cycle(c.y);
    lemma_le16_cycle(c.width);
    lemma_le16_cycle(c.height);
    lemma_le16_cycle(i16_bits(c.xoffset));
    lemma_le16_cycle(i16_bits(c.yoffset));
    lemma_le16_cycle(i16_bits(c.xadvance));
    lemma_i16_cycle(c.xoffset);
    lemma_i16_cycle(c.yoffset);
    lemma_i16_cycle(c.xadvance);
    let d = spec_dec_char(r);
    assert(d is Ok);
    assert(d->Ok_0 == c);
}

/// Decoding the encoded chars block payload gives the characters back.
proof fn lemma_chars_cycle(chars: Seq<Char>)
    requires
        forall|i: int| 0 <= i < chars.len() ==> (#[trigger] chars[i]).chnl.wf(),
    ensures
        spec_dec_chars(chars_payload(chars)) == Ok::<Seq<Char>, BinErr>(chars),
    decreases chars.len(),
{
    let p = chars_payload(chars);
    if chars.len() == 0 {
        assert(p.len() == 0);
        assert(chars =~= Seq::<Char>::empty());
    } else {
        lemma_chars_payload_len(chars.drop_first());
        assert(char_record(chars[0]).len() == 20);
        assert(p.take(20) =~= char_record(chars[0]));
        assert(p.skip(20) =~= chars_payload(chars.drop_first()));
        lemma_char_cycle(chars[0]);
        assert(forall|i: int|
            0 <= i < chars.drop_first().len() ==> (#[trigger] chars.drop_first()[i]).chnl.wf())
            by {
            assert(forall|i: int|
                0 <= i < chars.drop_first().len() ==> chars.drop_first()[i] == chars[i + 1]);
        }
        lemma_chars_cycle(chars.drop_first());
        assert(seq![chars[0]] + chars.drop_first() =~= chars);
    }
}

/// Decoding the encoded kerning pairs block payload gives the pairs back.
proof fn lemma_kernings_cycle(ks: Seq<Kerning>)
    ensures
        spec_dec_kernings(kernings_payload(ks)) == Ok::<Seq<Kerning>, BinErr>(ks),
    decreases ks.len(),
{
    let p = kernings_payload(ks);
    if ks.len() == 0 {
        assert(p.len() == 0);
        assert(ks =~= Seq::<Kerning>::empty());
    } else {
        let k = ks[0];
        lemma_kernings_payload_len(ks.drop_first());
        assert(kerning_record(k).len() == 10);
        assert(p.take(10) =~= kerning_record(k));
        assert(p.skip(10) =~= kernings_payload(ks.drop_first()));
        assert(kerning_record(k) =~= seq![
            le32(k.first)[0],
            le32(k.first)[1],
            le32(k.first)[2],
            le32(k.first)[3],
            le32(k.second)[0],
            le32(k.second)[1],
            le32(k.second)[2],
            le32(k.second)[3],
            le16(i16_bits(k.amount))[0],
            le16(i16_bits(k.amount))[1],
        ]);
        lemma_le32_cycle(k.first);
        lemma_le32_cycle(k.second);
        lemma_le16_cycle(i16_bits(k.amount));
        lemma_i16_cycle(k.amount);
        assert(spec_dec_kerning(p.take(10)) == k);
        lemma_kernings_cycle(ks.drop_first());
        assert(seq![k] + ks.drop_first() =~= ks);
    }
}

/// Decoding one framed block ahead of more bytes feeds the block and goes on
/// with the rest.
proof fn lemma_dec_block_step(id: u8, payload: Seq<u8>, rest: Seq<u8>, p: ProtoV, p2: ProtoV)
    requires
        payload.len() < 0x1_0000_0000,
        spec_apply_block(p, id, payload) == Ok::<ProtoV, BinErr>(p2),
    ensures
        spec_dec_blocks(block_bytes(id, payload) + rest, p) == spec_dec_blocks(rest, p2),
{
    let s = block_bytes(id, payload) + rest;
    let n = payload.len() as int;
    assert(s.len() == 5 + n + rest.len());
    assert(s[0] == id);
    lemma_le32_cycle(payload.len() as u32);
    assert(s[1] == le32(payload.len() as u32)[0]);
    assert(s[2] == le32(payload.len() as u32)[1]);
    assert(s[3] == le32(payload.len() as u32)[2]);
    assert(s[4] == le32(payload.len() as u32)[3]);
    assert(le32_val(s[1], s[2], s[3], s[4]) == payload.len() as u32);
    assert(s.subrange(5, 5 + n) =~= payload);
    assert(s.skip(5 + n) =~= rest);
}

/// Whether a string's UTF-8 encoding holds an ASCII control character.
/// A string without control characters has no embedded NUL either.
proof fn lemma_no_ctl_no_nul(s: Seq<char>)
    requires
        !crate::builder::has_ctl(s),
    ensures
        !has_nul(encode_utf8(s)),
{
    assert forall|i: int| 0 <= i < encode_utf8(s).len() implies encode_utf8(s)[i] != 0 by {
        assert(!crate::builder::is_ctl_byte(encode_utf8(s)[i]));
    }
}

/// A font the binary encoding carries faithfully: its realized page count
/// matches the declared one, its page names share one byte length, its
/// strings hold no control characters, its charset agrees with the unicode
/// flag, every channel bit field is well formed, and every block fits its
/// length framing.
pub open spec fn binary_faithful(f: FontV) -> bool {
    &&& f.pages.len() == f.common.pages as int
    &&& (f.info.unicode ==> f.info.charset is Null)
    &&& (!f.info.unicode ==> f.info.charset is Tagged)
    &&& !crate::builder::has_ctl(f.info.face)
    &&& forall|i: int| 0 <= i < f.pages.len() ==> !crate::builder::has_ctl(#[trigger] f.pages[i])
    &&& forall|i: int|
        0 <= i < f.pages.len() ==> encode_utf8(#[trigger] f.pages[i]).len() == encode_utf8(
            f.pages[0],
        ).len()
    &&& forall|i: int| 0 <= i < f.chars.len() ==> (#[trigger] f.chars[i]).chnl.wf()
    &&& export_sizes_ok(f)
}

/// The whole binary stream after the magic bytes is the blocks, grouped
/// rightward.
#[verifier::spinoff_prover]
#[verifier::rlimit(100)]
proof fn lemma_font_bytes_split(f: FontV)
    ensures
        font_bytes(f).len() >= 4,
        font_bytes(f)[0] == 0x42,
        font_bytes(f)[1] == 0x4d,
        font_bytes(f)[2] == 0x46,
        font_bytes(f)[3] == 3,
        font_bytes(f).skip(4) == block_bytes(INFO, info_payload(f.info)) + (block_bytes(
            COMMON,
            common_payload(f.common),
        ) + (block_bytes(PAGES, pages_payload(f.pages)) + (block_bytes(
            CHARS,
            chars_payload(f.chars),
        ) + (if f.kernings.len() > 0 {
            block_bytes(KERNING_PAIRS, kernings_payload(f.kernings))
        } else {
            Seq::<u8>::empty()
        })))),
{
    let b1 = block_bytes(INFO, info_payload(f.info));
    let b2 = block_bytes(COMMON, common_payload(f.common));
    let b3 = block_bytes(PAGES, pages_payload(f.pages));
    let b4 = block_bytes(CHARS, chars_payload(f.chars));
    let b5: Seq<u8> = if f.kernings.len() > 0 {
        block_bytes(KERNING_PAIRS, kernings_payload(f.kernings))
    } else {
        Seq::empty()
    };
    assert(font_bytes(f).skip(4) =~= b1 + (b2 + (b3 + (b4 + b5))));
}

/// The proto the binary blocks of a font decode to: the kerning pairs
/// block is absent when the font has no kerning pairs.
pub open spec fn full_proto(f: FontV) -> ProtoV {
    ProtoV {
        info: Some(f.info),
        common: Some(f.common),
        pages: Some(f.pages),
        chars: Some(f.chars),
        kernings: if f.kernings.len() > 0 {
            Some(f.kernings)
        } else {
            None
        },
    }
}

/// Folding the encoded blocks of a faithful font into the empty proto gives
/// the proto holding exactly the font's blocks.
#[verifier::spinoff_prover]
#[verifier::rlimit(100)]
proof fn lemma_round_trip_blocks(f: FontV)
    requires
        binary_faithful(f),
    ensures
        spec_dec_blocks(font_bytes(f).skip(4), proto_empty()) == Ok::<ProtoV, BinErr>(
            full_proto(f),
        ),
{
    lemma_no_ctl_no_nul(f.info.face);
    assert forall|i: int| 0 <= i < f.pages.len() implies !has_nul(
        encode_utf8(#[trigger] f.pages[i]),
    ) by {
        lemma_no_ctl_no_nul(f.pages[i]);
    }
    let b1 = block_bytes(INFO, info_payload(f.info));
    let b2 = block_bytes(COMMON, common_payload(f.common));
    let b3 = block_bytes(PAGES, pages_payload(f.pages));
    let b4 = block_bytes(CHARS, chars_payload(f.chars));
    let b5: Seq<u8> = if f.kernings.len() > 0 {
        block_bytes(KERNING_PAIRS, kernings_payload(f.kernings))
    } else {
        Seq::empty()
    };
    lemma_font_bytes_split(f);
    let blocks = font_bytes(f).skip(4);
    assert(blocks == b1 + (b2 + (b3 + (b4 + b5))));
    lemma_info_cycle(f.info);
    lemma_common_cycle(f.common);
    lemma_pages_cycle(f.pages);
    lemma_chars_cycle(f.chars);
    lemma_kernings_cycle(f.kernings);
    lemma_chars_payload_len(f.chars);
    lemma_kernings_payload_len(f.kernings);
    let p0 = proto_empty();
    let p1 = ProtoV { info: Some(f.info), ..p0 };
    let p2 = ProtoV { common: Some(f.common), ..p1 };
    let p3 = ProtoV { pages: Some(f.pages), ..p2 };
    let p4 = ProtoV { chars: Some(f.chars), ..p3 };
    let p5 = ProtoV { kernings: Some(f.kernings), ..p4 };
    assert(spec_apply_block(p0, INFO, info_payload(f.info)) == Ok::<ProtoV, BinErr>(p1));
    lemma_dec_block_step(INFO, info_payload(f.info), b2 + (b3 + (b4 + b5)), p0, p1);
    assert(spec_apply_block(p1, COMMON, common_payload(f.common)) == Ok::<ProtoV, BinErr>(p2));
    lemma_dec_block_step(COMMON, common_payload(f.common), b3 + (b4 + b5), p1, p2);
    assert(or_empty(p2.pages) + f.pages =~= f.pages);
    assert(spec_apply_block(p2, PAGES, pages_payload(f.pages)) == Ok::<ProtoV, BinErr>(p3));
    lemma_dec_block_step(PAGES, pages_payload(f.pages), b4 + b5, p2, p3);
    assert(or_empty(p3.chars) + f.chars =~= f.chars);
    assert(spec_apply_block(p3, CHARS, chars_payload(f.chars)) == Ok::<ProtoV, BinErr>(p4));
    lemma_dec_block_step(CHARS, chars_payload(f.chars), b5, p3, p4);
    if f.kernings.len() > 0 {
        assert(or_empty(p4.kernings) + f.kernings =~= f.kernings);
        assert(spec_apply_block(p4, KERNING_PAIRS, kernings_payload(f.kernings)) == Ok::<
            ProtoV,
            BinErr,
        >(p5));
        lemma_dec_block_step(KERNING_PAIRS, kernings_payload(f.kernings), Seq::empty(), p4, p5);
        assert(spec_dec_blocks(Seq::<u8>::empty(), p5) == Ok::<ProtoV, BinErr>(p5));
        assert(spec_dec_blocks(blocks, p0) == Ok::<ProtoV, BinErr>(p5));
        assert(p5 == full_proto(f));
    } else {
        assert(b5 =~= Seq::<u8>::empty());
        assert(b4 + b5 =~= b4);
        assert(spec_dec_blocks(Seq::<u8>::empty(), p4) == Ok::<ProtoV, BinErr>(p4));
        assert(spec_dec_blocks(blocks, p0) == Ok::<ProtoV, BinErr>(p4));
        assert(p4 == full_proto(f));
    }
}

/// The binary round trip law: a faithful font passes the strict export
/// checks, and decoding its binary encoding under the strict default
/// settings gives the font back.
#[verifier::spinoff_prover]
#[verifier::rlimit(50)]
pub proof fn lemma_binary_round_trip(f: FontV)
    requires
        binary_faithful(f),
    ensures
        spec_export_check(f) is None,
        spec_decode_font(font_bytes(f), strict_settings()) == Ok::<FontV, BinErr>(f),
{
    lemma_export_check_clean(f);
    lemma_font_bytes_split(f);
    lemma_round_trip_blocks(f);
    lemma_build_clean(full_proto(f), f);
}

/// A faithful font passes the strict export checks.
proof fn lemma_export_check_clean(f: FontV)
    requires
        binary_faithful(f),
    ensures
        spec_export_check(f) is None,
{
    lemma_no_ctl_no_nul(f.info.face);
    if f.pages.len() > 0 {
        lemma_pages_check_clean(f.pages, encode_utf8(f.pages[0]).len() as int, f.pages);
    }
}

/// Every page of a list whose names are NUL-free and share the reference
/// length passes the page checks. The `whole` argument carries the original
/// list the suffix came from.
proof fn lemma_pages_check_clean(pages: Seq<Seq<char>>, ref_len: int, whole: Seq<Seq<char>>)
    requires
        forall|i: int|
            0 <= i < pages.len() ==> !crate::builder::has_ctl(#[trigger] pages[i]) && encode_utf8(
                pages[i],
            ).len() == ref_len,
    ensures
        pages_check(pages, ref_len) is None,
    decreases pages.len(),
{
    if pages.len() > 0 {
        lemma_no_ctl_no_nul(pages[0]);
        assert(forall|i: int|
            0 <= i < pages.drop_first().len() ==> pages.drop_first()[i] == pages[i + 1]);
        lemma_pages_check_clean(pages.drop_first(), ref_len, whole);
    }
}

/// Building the proto that holds exactly a faithful font's blocks under the
/// strict settings gives the font back.
proof fn lemma_build_clean(p: ProtoV, f: FontV)
    requires
        binary_faithful(f),
        p == full_proto(f),
    ensures
        spec_build(p, strict_settings()) == Ok::<FontV, BuildErr>(f),
{
    let g = crate::builder::spec_assemble(p)->Ok_0;
    assert(or_empty(p.kernings) =~= f.kernings);
    assert(g == f);
    crate::builder::lemma_first_ctl_page(f.pages);
    assert(crate::builder::first_ctl_page(f.pages) == f.pages.len()) by {
        if crate::builder::first_ctl_page(f.pages) < f.pages.len() {
            assert(crate::builder::has_ctl(
                f.pages[crate::builder::first_ctl_page(f.pages)],
            ));
        }
    }
}

/// An underflow parse error.
pub fn underflow<T>() -> (r: Result<T, Error>)
    ensures
        r matches Err(e) && bin_err_matches(e, BinErr::Underflow),
{
    Err(Error::Parse { line: None, entity: "buffer".to_owned(), err: ParseError::Underflow })
}

/// An overflow parse error.
pub fn overflow<T>() -> (r: Result<T, Error>)
    ensures
        r matches Err(e) && bin_err_matches(e, BinErr::Overflow),
{
    Err(Error::Parse { line: None, entity: "buffer".to_owned(), err: ParseError::Overflow })
}

/// A missing NUL terminator parse error.
fn missing_nul<T>() -> (r: Result<T, Error>)
    ensures
        r matches Err(e) && bin_err_matches(e, BinErr::MissingNul),
{
    Err(Error::Parse { line: None, entity: "CString".to_owned(), err: ParseError::MissingNul })
}

/// An invalid UTF-8 parse error.
fn bad_utf8<T>() -> (r: Result<T, Error>)
    ensures
        r matches Err(e) && bin_err_matches(e, BinErr::BadUtf8),
{
    Err(Error::Parse { line: None, entity: "String".to_owned(), err: ParseError::InvalidUtf8 })
}

/// An out-of-range byte value parse error.
fn bad_value<T>() -> (r: Result<T, Error>)
    ensures
        r matches Err(e) && bin_err_matches(e, BinErr::BadPacking) && bin_err_matches(
            e,
            BinErr::BadChnl,
        ),
{
    Err(Error::Parse { line: None, entity: "String".to_owned(), err: ParseError::InvalidValue })
}

/// Read a little-endian `u16`.
fn read_le16(p: &[u8], off: usize) -> (r: u16)
    requires
        off + 2 <= p@.len(),
    ensures
        r == le16_val(p@[off as int], p@[off + 1]),
{
    (p[off] as u16) + (p[off + 1] as u16) * 256
}

/// Read a little-endian `u32`.
fn read_le32(p: &[u8], off: usize) -> (r: u32)
    requires
        off + 4 <= p@.len(),
    ensures
        r == le32_val(p@[off as int], p@[off + 1], p@[off + 2], p@[off + 3]),
{
    (p[off] as u32) + (p[off + 1] as u32) * 256 + (p[off + 2] as u32) * 0x10000 + (p[off
        + 3] as u32) * 0x1000000
}

/// The two's complement `u16` bit pattern of an `i16`.
fn i16_to_bits(v: i16) -> (r: u16)
    ensures
        r == i16_bits(v),
{
    if v >= 0 {
        v as u16
    } else {
        ((v as i32) + 0x10000) as u16
    }
}

/// The `i16` a two's complement `u16` bit pattern denotes.
fn bits_to_i16(u: u16) -> (r: i16)
    ensures
        r == u16_as_i16(u),
{
    if u < 0x8000 {
        u as i16
    } else {
        ((u as i32) - 0x10000) as i16
    }
}

/// Append the two little-endian bytes of a `u16`.
fn push_le16(out: &mut Vec<u8>, n: u16)
    ensures
        final (out)@ == old(out)@ + le16(n),
{
    out.push((n % 256) as u8);
    out.push((n / 256) as u8);
    proof {
        assert(out@ =~= old(out)@ + le16(n));
    }
}

/// Append the four little-endian bytes of a `u32`.
fn push_le32(out: &mut Vec<u8>, n: u32)
    ensures
        final (out)@ == old(out)@ + le32(n),
{
    out.push((n % 256) as u8);
    out.push((n / 256 % 256) as u8);
    out.push((n / 0x10000 % 256) as u8);
    out.push((n / 0x1000000) as u8);
    proof {
        assert(out@ =~= old(out)@ + le32(n));
    }
}

/// Whether a byte string holds a NUL byte.
pub open spec fn has_nul(b: Seq<u8>) -> bool {
    exists|i: int| 0 <= i < b.len() && b[i] == 0
}

/// Append the info block payload.
fn pack_info(out: &mut Vec<u8>, info: &Info)
    requires
        !has_nul(encode_utf8(info@.face)),
    ensures
        final (out)@ == old(out)@ + info_payload(info@),
{
    push_le16(out, i16_to_bits(info.size));
    let bits: u8 = (if info.smooth {
        128
    } else {
        0
    }) + (if info.unicode {
        64
    } else {
        0
    }) + (if info.italic {
        32
    } else {
        0
    }) + (if info.bold {
        16
    } else {
        0
    });
    out.push(bits);
    let cs: u8 = match &info.charset {
        Charset::Tagged(u) => *u,
        _ => 0,
    };
    out.push(cs);
    push_le16(out, info.stretch_h);
    out.push(info.aa);
    out.push(info.padding.up);
    out.push(info.padding.right);
    out.push(info.padding.down);
    out.push(info.padding.left);
    out.push(info.spacing.horizontal);
    out.push(info.spacing.vertical);
    out.push(info.outline);
    out.extend_from_slice(info.face.as_str().as_bytes());
    out.push(0);
    proof {
        assert(out@ =~= old(out)@ + info_payload(info@));
    }
}

/// Append the common block payload.
fn pack_common(out: &mut Vec<u8>, common: &Common)
    ensures
        final (out)@ == old(out)@ + common_payload(*common),
{
    push_le16(out, common.line_height);
    push_le16(out, common.base);
    push_le16(out, common.scale_w);
    push_le16(out, common.scale_h);
    push_le16(out, common.pages);
    out.push(if common.packed {
        1
    } else {
        0
    });
    out.push(common.alpha_chnl.to_u8());
    out.push(common.red_chnl.to_u8());
    out.push(common.green_chnl.to_u8());
    out.push(common.blue_chnl.to_u8());
    proof {
        assert(out@ =~= old(out)@ + common_payload(*common));
    }
}

/// Concatenating page lists concatenates their payloads.
proof fn lemma_pages_payload_concat(a: Seq<Seq<char>>, b: Seq<Seq<char>>)
    ensures
        pages_payload(a + b) == pages_payload(a) + pages_payload(b),
    decreases a.len(),
{
    if a.len() == 0 {
        assert(a + b =~= b);
        assert(pages_payload(a) + pages_payload(b) =~= pages_payload(b));
    } else {
        lemma_pages_payload_concat(a.drop_first(), b);
        assert((a + b).drop_first() =~= a.drop_first() + b);
        assert((a + b)[0] == a[0]);
        assert(pages_payload(a + b) == cstr(a[0]) + (pages_payload(a.drop_first())
            + pages_payload(b)));
        assert(cstr(a[0]) + (pages_payload(a.drop_first()) + pages_payload(b)) =~= (cstr(a[0])
            + pages_payload(a.drop_first())) + pages_payload(b));
    }
}

/// Concatenating character lists concatenates their payloads.
proof fn lemma_chars_payload_concat(a: Seq<Char>, b: Seq<Char>)
    ensures
        chars_payload(a + b) == chars_payload(a) + chars_payload(b),
    decreases a.len(),
{
    if a.len() == 0 {
        assert(a + b =~= b);
        assert(chars_payload(a) + chars_payload(b) =~= chars_payload(b));
    } else {
        lemma_chars_payload_concat(a.drop_first(), b);
        assert((a + b).drop_first() =~= a.drop_first() + b);
        assert((a + b)[0] == a[0]);
        assert(char_record(a[0]) + (chars_payload(a.drop_first()) + chars_payload(b)) =~= (
        char_record(a[0]) + chars_payload(a.drop_first())) + chars_payload(b));
    }
}

/// Concatenating kerning lists concatenates their payloads.
proof fn lemma_kernings_payload_concat(a: Seq<Kerning>, b: Seq<Kerning>)
    ensures
        kernings_payload(a + b) == kernings_payload(a) + kernings_payload(b),
    decreases a.len(),
{
    if a.len() == 0 {
        assert(a + b =~= b);
        assert(kernings_payload(a) + kernings_payload(b) =~= kernings_payload(b));
    } else {
        lemma_kernings_payload_concat(a.drop_first(), b);
        assert((a + b).drop_first() =~= a.drop_first() + b);
        assert((a + b)[0] == a[0]);
        assert(kerning_record(a[0]) + (kernings_payload(a.drop_first()) + kernings_payload(b)) =~= (
        kerning_record(a[0]) + kernings_payload(a.drop_first())) + kernings_payload(b));
    }
}

/// The payload of a single page name.
proof fn lemma_pages_payload_one(x: Seq<char>)
    ensures
        pages_payload(seq![x]) == cstr(x),
{
    assert(seq![x].drop_first() =~= Seq::<Seq<char>>::empty());
    assert(pages_payload(Seq::<Seq<char>>::empty()) == Seq::<u8>::empty());
    assert(cstr(x) + Seq::<u8>::empty() =~= cstr(x));
}

/// The payload of a single character.
proof fn lemma_chars_payload_one(x: Char)
    ensures
        chars_payload(seq![x]) == char_record(x),
{
    assert(seq![x].drop_first() =~= Seq::<Char>::empty());
    assert(chars_payload(Seq::<Char>::empty()) == Seq::<u8>::empty());
    assert(char_record(x) + Seq::<u8>::empty() =~= char_record(x));
}

/// The payload of a single kerning pair.
proof fn lemma_kernings_payload_one(x: Kerning)
    ensures
        kernings_payload(seq![x]) == kerning_record(x),
{
    assert(seq![x].drop_first() =~= Seq::<Kerning>::empty());
    assert(kernings_payload(Seq::<Kerning>::empty()) == Seq::<u8>::empty());
    assert(kerning_record(x) + Seq::<u8>::empty() =~= kerning_record(x));
}

/// Append the pages block payload.
fn pack_pages(out: &mut Vec<u8>, pages: &Vec<String>)
    requires
        forall|i: int|
            0 <= i < pages.deep_view().len() ==> !has_nul(
                encode_utf8(#[trigger] pages.deep_view()[i]),
            ),
    ensures
        final (out)@ == old(out)@ + pages_payload(pages.deep_view()),
{
    let ghost pv = pages.deep_view();
    let mut i: usize = 0;
    proof {
        assert(pv.take(0) =~= Seq::<Seq<char>>::empty());
        assert(out@ + pages_payload(pv.take(0)) =~= out@);
    }
    while i < pages.len()
        invariant
            0 <= i <= pv.len(),
            pv == pages.deep_view(),
            pv.len() == pages@.len(),
            forall|j: int| 0 <= j < pv.len() ==> !has_nul(encode_utf8(#[trigger] pv[j])),
            out@ == old(out)@ + pages_payload(pv.take(i as int)),
        decreases pv.len() - i,
    {
        assert(pv[i as int] == pages@[i as int]@);
        out.extend_from_slice(pages[i].as_str().as_bytes());
        out.push(0);
        proof {
            lemma_pages_payload_concat(pv.take(i as int), seq![pv[i as int]]);
            lemma_pages_payload_one(pv[i as int]);
            assert(pv.take(i + 1) =~= pv.take(i as int) + seq![pv[i as int]]);
            assert(out@ =~= old(out)@ + pages_payload(pv.take(i + 1)));
        }
        i = i + 1;
    }
    proof {
        assert(pv.take(pv.len() as int) =~= pv);
    }
}

/// Append one character record.
fn pack_char(out: &mut Vec<u8>, c: &Char)
    ensures
        final (out)@ == old(out)@ + char_record(*c),
{
    push_le32(out, c.id);
    push_le16(out, c.x);
    push_le16(out, c.y);
    push_le16(out, c.width);
    push_le16(out, c.height);
    push_le16(out, i16_to_bits(c.xoffset));
    push_le16(out, i16_to_bits(c.yoffset));
    push_le16(out, i16_to_bits(c.xadvance));
    out.push(c.page);
    out.push(c.chnl.to_u8());
    proof {
        assert(out@ =~= old(out)@ + char_record(*c));
    }
}

/// Append the chars block payload.
fn pack_chars(out: &mut Vec<u8>, chars: &Vec<Char>)
    ensures
        final (out)@ == old(out)@ + chars_payload(chars@),
{
    let mut i: usize = 0;
    proof {
        assert(chars@.take(0) =~= Seq::<Char>::empty());
        assert(out@ + chars_payload(chars@.take(0)) =~= out@);
    }
    while i < chars.len()
        invariant
            0 <= i <= chars@.len(),
            out@ == old(out)@ + chars_payload(chars@.take(i as int)),
        decreases chars@.len() - i,
    {
        pack_char(out, &chars[i]);
        proof {
            lemma_chars_payload_concat(chars@.take(i as int), seq![chars@[i as int]]);
            lemma_chars_payload_one(chars@[i as int]);
            assert(chars@.take(i + 1) =~= chars@.take(i as int) + seq![chars@[i as int]]);
            assert(out@ =~= old(out)@ + chars_payload(chars@.take(i + 1)));
        }
        i = i + 1;
    }
    proof {
        assert(chars@.take(chars@.len() as int) =~= chars@);
    }
}

/// Append one kerning pair record.
fn pack_kerning(out: &mut Vec<u8>, k: &Kerning)
    ensures
        final (out)@ == old(out)@ + kerning_record(*k),
{
    push_le32(out, k.first);
    push_le32(out, k.second);
    push_le16(out, i16_to_bits(k.amount));
    proof {
        assert(out@ =~= old(out)@ + kerning_record(*k));
    }
}

/// The spec-level identity of a binary export error.
pub ghost enum ExportErr {
    /// Page name lengths are not all of the same size.
    PageLen,
    /// A page name holds an embedded NUL.
    PageNul(Seq<char>),
    /// The face name holds an embedded NUL.
    FaceNul(Seq<char>),
    /// A Unicode font carries a non-null character set encoding.
    Encoding(CharsetV),
}

/// Whether a crate error is the one a spec-level export error describes.
pub open spec fn export_err_matches(e: Error, ee: ExportErr) -> bool {
    match ee {
        ExportErr::PageLen => e matches Error::IncongruentPageNameLen { line } && line is None,
        ExportErr::PageNul(s) => e matches Error::UnsupportedValueEncoding { path, value } && path@
            == "binary"@ && value@ == s,
        ExportErr::FaceNul(s) => e matches Error::UnsupportedValueEncoding { path, value } && path@
            == "binary"@ && value@ == s,
        ExportErr::Encoding(c) => e matches Error::InvalidBinaryEncoding { unicode, charset }
            && unicode == true && charset@ == c,
    }
}

/// The first failing page name, checked in order: each name must have the
/// same byte length as the first, and must hold no embedded NUL.
pub open spec fn pages_check(pages: Seq<Seq<char>>, ref_len: int) -> Option<ExportErr>
    decreases pages.len(),
{
    if pages.len() == 0 {
        None
    } else if encode_utf8(pages[0]).len() != ref_len {
        Some(ExportErr::PageLen)
    } else if has_nul(encode_utf8(pages[0])) {
        Some(ExportErr::PageNul(pages[0]))
    } else {
        pages_check(pages.drop_first(), ref_len)
    }
}

/// The first binary export error of a font, if it has one: page names are
/// checked in order, then the face name, then the charset encoding.
pub open spec fn spec_export_check(f: FontV) -> Option<ExportErr> {
    let pc = if f.pages.len() == 0 {
        None
    } else {
        pages_check(f.pages, encode_utf8(f.pages[0]).len() as int)
    };
    match pc {
        Some(e) => Some(e),
        None => if has_nul(encode_utf8(f.info.face)) {
            Some(ExportErr::FaceNul(f.info.face))
        } else if f.info.unicode && !(f.info.charset is Null) {
            Some(ExportErr::Encoding(f.info.charset))
        } else {
            None
        },
    }
}

/// Whether every block of the binary encoding of a font fits its `u32`
/// length framing. A machine limit of the format, not of the font model.
pub open spec fn export_sizes_ok(f: FontV) -> bool {
    &&& encode_utf8(f.info.face).len() + 15 < 0x1_0000_0000
    &&& pages_payload(f.pages).len() < 0x1_0000_0000
    &&& f.chars.len() * 20 < 0x1_0000_0000
    &&& f.kernings.len() * 10 < 0x1_0000_0000
}

/// The chars block payload is twenty bytes per character.
pub proof fn lemma_chars_payload_len(chars: Seq<Char>)
    ensures
        chars_payload(chars).len() == 20 * chars.len(),
    decreases chars.len(),
{
    if chars.len() > 0 {
        lemma_chars_payload_len(chars.drop_first());
        assert(char_record(chars[0]).len() == 20);
    }
}

/// The kerning pairs block payload is ten bytes per pair.
pub proof fn lemma_kernings_payload_len(kernings: Seq<Kerning>)
    ensures
        kernings_payload(kernings).len() == 10 * kernings.len(),
    decreases kernings.len(),
{
    if kernings.len() > 0 {
        lemma_kernings_payload_len(kernings.drop_first());
        assert(kerning_record(kernings[0]).len() == 10);
    }
}

/// Whether a string's UTF-8 encoding holds an embedded NUL.
fn str_has_nul(s: &String) -> (r: bool)
    ensures
        r == has_nul(encode_utf8(s@)),
{
    let bytes = s.as_str().as_bytes();
    let mut i: usize = 0;
    while i < bytes.len()
        invariant
            0 <= i <= bytes@.len(),
            bytes@ == encode_utf8(s@),
            forall|j: int| 0 <= j < i ==> bytes@[j] != 0,
        decreases bytes@.len() - i,
    {
        if bytes[i] == 0 {
            return true;
        }
        i = i + 1;
    }
    false
}

/// Every page name of a clean page list is free of embedded NULs.
proof fn lemma_pages_check_none(pages: Seq<Seq<char>>, ref_len: int)
    requires
        pages_check(pages, ref_len) is None,
    ensures
        forall|i: int| 0 <= i < pages.len() ==> !has_nul(encode_utf8(#[trigger] pages[i])),
    decreases pages.len(),
{
    if pages.len() > 0 {
        lemma_pages_check_none(pages.drop_first(), ref_len);
        assert forall|i: int| 0 <= i < pages.len() implies !has_nul(
            encode_utf8(#[trigger] pages[i]),
        ) by {
            if i > 0 {
                assert(pages.drop_first()[i - 1] == pages[i]);
            }
        }
    }
}

/// Run the strict binary export checks: page names share one byte length,
/// no page name nor the face name holds an embedded NUL, and a Unicode font
/// carries the null character set encoding.
#[verifier::spinoff_prover]
#[verifier::rlimit(30)]
fn check_export(font: &Font) -> (r: Result<(), Error>)
    ensures
        (r is Ok <==> spec_export_check(font@) is None),
        r matches Err(e) ==> (spec_export_check(font@) matches Some(ee) && export_err_matches(
            e,
            ee,
        )),
{
    let ghost pv = font@.pages;
    if font.pages.len() > 0 {
        let ref_len = font.pages[0].as_str().as_bytes().len();
        let mut i: usize = 0;
        proof {
            assert(pv.skip(0) =~= pv);
            assert(pv[0] == font.pages@[0]@);
        }
        while i < font.pages.len()
            invariant
                0 <= i <= pv.len(),
                pv == font@.pages,
                pv.len() == font.pages@.len(),
                pv.len() > 0,
                ref_len as int == encode_utf8(pv[0]).len(),
                pages_check(pv, ref_len as int) == pages_check(pv.skip(i as int), ref_len as int),
            decreases pv.len() - i,
        {
            let ghost rem = pv.skip(i as int);
            assert(rem[0] == pv[i as int]);
            assert(pv[i as int] == font.pages@[i as int]@);
            let page = &font.pages[i];
            if page.as_str().as_bytes().len() != ref_len {
                assert(pages_check(rem, ref_len as int) == Some(ExportErr::PageLen));
                return Err(Error::IncongruentPageNameLen { line: None });
            }
            if str_has_nul(page) {
                assert(pages_check(rem, ref_len as int) == Some(ExportErr::PageNul(rem[0])));
                return Err(
                    Error::UnsupportedValueEncoding {
                        path: "binary".to_owned(),
                        value: page.clone(),
                    },
                );
            }
            proof {
                assert(rem.drop_first() =~= pv.skip(i + 1));
                assert(pages_check(rem, ref_len as int) == pages_check(
                    pv.skip(i + 1),
                    ref_len as int,
                ));
            }
            i = i + 1;
        }
        proof {
            assert(pv.skip(i as int) =~= Seq::<Seq<char>>::empty());
        }
    }
    if str_has_nul(&font.info.face) {
        return Err(
            Error::UnsupportedValueEncoding {
                path: "binary".to_owned(),
                value: font.info.face.clone(),
            },
        );
    }
    match font.info.check_encoding() {
        Ok(()) => Ok(()),
        Err(e) => Err(e),
    }
}

/// Store a font into a byte vector in binary format.
///
/// The binary format is strict: page names must share one byte length, no
/// string may hold an embedded NUL, and a Unicode font must carry the null
/// character set encoding.
pub fn to_vec(font: &Font) -> (r: Result<Vec<u8>, Error>)
    requires
        export_sizes_ok(font@),
    ensures
        (r is Ok <==> spec_export_check(font@) is None),
        r matches Ok(v) ==> v@ == font_bytes(font@),
        r matches Err(e) ==> (spec_export_check(font@) matches Some(ee) && export_err_matches(
            e,
            ee,
        )),
{
    match check_export(font) {
        Ok(()) => {},
        Err(e) => {
            return Err(e);
        },
    }
    proof {
        if font@.pages.len() > 0 {
            lemma_pages_check_none(font@.pages, encode_utf8(font@.pages[0]).len() as int);
        }
    }
    Ok(emit(font))
}

/// Emit the binary stream of a checked font.
#[verifier::spinoff_prover]
#[verifier::rlimit(60)]
fn emit(font: &Font) -> (out: Vec<u8>)
    requires
        export_sizes_ok(font@),
        !has_nul(encode_utf8(font@.info.face)),
        forall|i: int|
            0 <= i < font@.pages.len() ==> !has_nul(encode_utf8(#[trigger] font@.pages[i])),
    ensures
        out@ == font_bytes(font@),
{
    let ghost pv = font@.pages;
    let mut pages_len: u64 = 0;
    let mut i: usize = 0;
    proof {
        assert(pv.take(0) =~= Seq::<Seq<char>>::empty());
    }
    while i < font.pages.len()
        invariant
            0 <= i <= pv.len(),
            pv == font@.pages,
            pv.len() == font.pages@.len(),
            pages_len as int == pages_payload(pv.take(i as int)).len(),
            pages_payload(pv).len() < 0x1_0000_0000,
        decreases pv.len() - i,
    {
        proof {
            lemma_pages_payload_concat(pv.take(i as int), seq![pv[i as int]]);
            lemma_pages_payload_one(pv[i as int]);
            assert(pv.take(i + 1) =~= pv.take(i as int) + seq![pv[i as int]]);
            lemma_pages_payload_concat(pv.take(i + 1), pv.skip(i + 1));
            assert(pv.take(i + 1) + pv.skip(i + 1) =~= pv);
            assert(pages_payload(pv.take(i + 1)).len() <= pages_payload(pv).len());
            assert(pv[i as int] == font.pages@[i as int]@);
        }
        pages_len = pages_len + font.pages[i].as_str().as_bytes().len() as u64 + 1;
        i = i + 1;
    }
    proof {
        assert(pv.take(i as int) =~= pv);
        lemma_chars_payload_len(font@.chars);
        lemma_kernings_payload_len(font@.kernings);
    }
    let face_len = font.info.face.as_str().as_bytes().len();
    let info_len: u64 = 15 + face_len as u64;
    let chars_len: u64 = font.chars.len() as u64 * 20;
    let kernings_len: u64 = font.kernings.len() as u64 * 10;
    let mut out: Vec<u8> = Vec::new();
    out.push(0x42);
    out.push(0x4d);
    out.push(0x46);
    out.push(3);
    proof {
        assert(out@ =~= magic_bytes());
    }
    out.push(INFO);
    push_le32(&mut out, info_len as u32);
    pack_info(&mut out, &font.info);
    proof {
        assert(info_payload(font@.info).len() == info_len as int);
        assert(out@ =~= magic_bytes() + block_bytes(INFO, info_payload(font@.info)));
    }
    let ghost part1 = out@;
    out.push(COMMON);
    push_le32(&mut out, 15);
    pack_common(&mut out, &font.common);
    proof {
        assert(common_payload(font@.common).len() == 15);
        assert(out@ =~= part1 + block_bytes(COMMON, common_payload(font@.common)));
    }
    let ghost part2 = out@;
    out.push(PAGES);
    push_le32(&mut out, pages_len as u32);
    pack_pages(&mut out, &font.pages);
    proof {
        assert(out@ =~= part2 + block_bytes(PAGES, pages_payload(font@.pages)));
    }
    let ghost part3 = out@;
    out.push(CHARS);
    push_le32(&mut out, chars_len as u32);
    pack_chars(&mut out, &font.chars);
    proof {
        assert(out@ =~= part3 + block_bytes(CHARS, chars_payload(font@.chars)));
    }
    let ghost part4 = out@;
    if font.kernings.len() > 0 {
        out.push(KERNING_PAIRS);
        push_le32(&mut out, kernings_len as u32);
        pack_kernings(&mut out, &font.kernings);
        proof {
            assert(out@ =~= part4 + block_bytes(
                KERNING_PAIRS,
                kernings_payload(font@.kernings),
            ));
        }
    }
    proof {
        assert(out@ =~= font_bytes(font@));
    }
    out
}

/// Write a font to the given writer in binary format.
///
/// The same strict checks as [to_vec]; a failed write reports the
/// underlying error.
#[verifier::spinoff_prover]
#[verifier::rlimit(100)]
pub fn to_writer<W: std::io::Write>(writer: W, font: &Font) -> (r: Result<(), Error>)
    requires
        export_sizes_ok(font@),
    ensures
        spec_export_check(font@) matches Some(ee) ==> (r matches Err(e) && export_err_matches(
            e,
            ee,
        )),
        spec_export_check(font@) is None ==> (r is Ok || (r matches Err(e) && e is Io)),
{
    match to_vec(font) {
        Ok(v) => write_all(writer, v.as_slice()),
        Err(e) => Err(e),
    }
}

/// The strict default settings.
pub open spec fn strict_settings() -> LoadSettings {
    LoadSettings {
        allow_string_control_characters: false,
        ignore_counts: false,
        ignore_invalid_tags: false,
    }
}

/// Load a font from a binary format byte slice, with the default strict
/// settings.
pub fn from_bytes(bytes: &[u8]) -> (r: Result<Font, Error>)
    ensures
        (r is Ok <==> spec_decode_font(bytes@, strict_settings()) is Ok),
        r matches Ok(f) ==> spec_decode_font(bytes@, strict_settings()) == Ok::<FontV, BinErr>(f@),
        r matches Err(e) ==> (spec_decode_font(bytes@, strict_settings()) matches Err(be)
            && bin_err_matches(e, be)),
{
    let settings = LoadSettings::default();
    proof {
        assert(settings == strict_settings());
    }
    from_bytes_ext(bytes, &settings)
}

/// Load a font from a binary format byte slice with the given import
/// Decode one block and feed it to the proto: info and common blocks may
/// appear once, list blocks concatenate, and unrecognized ids are a hard
/// error.
#[verifier::spinoff_prover]
#[verifier::rlimit(30)]
fn apply_block(proto: &mut FontProto, id: u8, payload: &[u8]) -> (r: Result<(), Error>)
    ensures
        (r is Ok <==> spec_apply_block(old(proto)@, id, payload@) is Ok),
        r is Ok ==> spec_apply_block(old(proto)@, id, payload@) == Ok::<ProtoV, BinErr>(
            final (proto)@,
        ),
        r matches Err(e) ==> (spec_apply_block(old(proto)@, id, payload@) matches Err(be)
            && bin_err_matches(e, be)),
{
    if id == INFO {
        match unpack_info(payload) {
            Ok(v) => proto.set_info(None, v),
            Err(e) => Err(e),
        }
    } else if id == COMMON {
        match unpack_common(payload) {
            Ok(v) => proto.set_common(None, v),
            Err(e) => Err(e),
        }
    } else if id == PAGES {
        match unpack_pages(payload) {
            Ok(v) => proto.set_pages(None, v),
            Err(e) => Err(e),
        }
    } else if id == CHARS {
        match unpack_chars(payload) {
            Ok(v) => proto.set_chars(None, v),
            Err(e) => Err(e),
        }
    } else if id == KERNING_PAIRS {
        match unpack_kernings(payload) {
            Ok(v) => proto.set_kernings(None, v),
            Err(e) => Err(e),
        }
    } else {
        Err(Error::InvalidBinaryBlock { id })
    }
}

/// behavior settings.
#[verifier::spinoff_prover]
#[verifier::rlimit(60)]
pub fn from_bytes_ext(bytes: &[u8], settings: &LoadSettings) -> (r: Result<Font, Error>)
    ensures
        (r is Ok <==> spec_decode_font(bytes@, *settings) is Ok),
        r matches Ok(f) ==> spec_decode_font(bytes@, *settings) == Ok::<FontV, BinErr>(f@),
        r matches Err(e) ==> (spec_decode_font(bytes@, *settings) matches Err(be)
            && bin_err_matches(e, be)),
{
    if bytes.len() < 4 {
        return underflow();
    }
    if !(bytes[0] == 0x42 && bytes[1] == 0x4d && bytes[2] == 0x46) {
        return Err(Error::InvalidBinary { magic_bytes: read_le32(bytes, 0) });
    }
    if bytes[3] != 3 {
        return Err(Error::UnsupportedBinaryVersion { version: bytes[3] });
    }
    let mut proto = FontProto::default();
    let mut i: usize = 4;
    while i < bytes.len()
        invariant
            4 <= i <= bytes@.len(),
            bytes@[0] == 0x42 && bytes@[1] == 0x4d && bytes@[2] == 0x46,
            bytes@[3] == 3,
            spec_dec_blocks(bytes@.skip(4), proto_empty()) == spec_dec_blocks(
                bytes@.skip(i as int),
                proto@,
            ),
        decreases bytes@.len() - i,
    {
        let ghost rem = bytes@.skip(i as int);
        let ghost p0 = proto@;
        proof {
            assert(rem[0] == bytes@[i as int]);
        }
        if bytes.len() - i < 5 {
            assert(spec_dec_blocks(rem, p0) == Err::<ProtoV, BinErr>(BinErr::Underflow));
            assert(spec_decode_font(bytes@, *settings) == Err::<FontV, BinErr>(BinErr::Underflow));
            return underflow();
        }
        let id = bytes[i];
        proof {
            assert(rem[1] == bytes@[i + 1]);
            assert(rem[2] == bytes@[i + 2]);
            assert(rem[3] == bytes@[i + 3]);
            assert(rem[4] == bytes@[i + 4]);
        }
        let len32 = read_le32(bytes, i + 1);
        let len = len32 as usize;
        if len > bytes.len() - (i + 5) {
            assert(spec_dec_blocks(rem, p0) == Err::<ProtoV, BinErr>(BinErr::Underflow));
            assert(spec_decode_font(bytes@, *settings) == Err::<FontV, BinErr>(BinErr::Underflow));
            return underflow();
        }
        let payload = &bytes[i + 5..i + 5 + len];
        proof {
            assert(payload@ =~= rem.subrange(5, 5 + len as int));
        }
        match apply_block(&mut proto, id, payload) {
            Ok(()) => {},
            Err(e) => {
                proof {
                    assert(spec_dec_blocks(rem, p0) == Err::<ProtoV, BinErr>(
                        spec_apply_block(p0, id, payload@)->Err_0,
                    ));
                    assert(spec_decode_font(bytes@, *settings) == Err::<FontV, BinErr>(
                        spec_apply_block(p0, id, payload@)->Err_0,
                    ));
                }
                return Err(e);
            },
        }
        proof {
            assert(rem.skip(5 + len as int) =~= bytes@.skip(i + 5 + len));
            assert(spec_dec_blocks(rem, p0) == spec_dec_blocks(bytes@.skip(i + 5 + len), proto@));
        }
        i = i + 5 + len;
    }
    proof {
        assert(bytes@.skip(i as int) =~= Seq::<u8>::empty());
        assert(spec_dec_blocks(bytes@.skip(i as int), proto@) == Ok::<ProtoV, BinErr>(proto@));
    }
    match proto.build(settings) {
        Ok(f) => Ok(f),
        Err(e) => Err(e),
    }
}

/// Read a font from a binary format reader, with the default strict
/// settings. The stream is buffered internally.
pub fn from_reader<R: std::io::Read>(reader: R) -> (r: Result<Font, Error>)
    ensures
        r matches Ok(f) ==> exists|bytes: Seq<u8>|
            spec_decode_font(bytes, strict_settings()) == Ok::<FontV, BinErr>(f@),
{
    let settings = LoadSettings::default();
    proof {
        assert(settings == strict_settings());
    }
    let r = from_reader_ext(reader, &settings);
    proof {
        if r is Ok {
            let f = r->Ok_0;
            let b = choose|bytes: Seq<u8>|
                spec_decode_font(bytes, settings) == Ok::<FontV, BinErr>(f@);
            assert(spec_decode_font(b, strict_settings()) == Ok::<FontV, BinErr>(f@));
        }
    }
    r
}

/// Read a font from a binary format reader with the given import behavior
/// settings. The stream is buffered internally.
pub fn from_reader_ext<R: std::io::Read>(reader: R, settings: &LoadSettings) -> (r: Result<
    Font,
    Error,
>)
    ensures
        r matches Ok(f) ==> exists|bytes: Seq<u8>|
            spec_decode_font(bytes, *settings) == Ok::<FontV, BinErr>(f@),
{
    let vec = match read_all(reader) {
        Ok(v) => v,
        Err(e) => {
            return Err(e);
        },
    };
    let r = from_bytes_ext(vec.as_slice(), settings);
    proof {
        if r is Ok {
            assert(spec_decode_font(vec@, *settings) == Ok::<FontV, BinErr>(r->Ok_0@));
        }
    }
    r
}

/// Decode the info block payload.
fn unpack_info(p: &[u8]) -> (r: Result<Info, Error>)
    ensures
        (r is Ok <==> spec_dec_info(p@) is Ok),
        r matches Ok(i) ==> spec_dec_info(p@) == Ok::<InfoV, BinErr>(i@),
        r matches Err(e) ==> (spec_dec_info(p@) matches Err(be) && bin_err_matches(e, be)),
{
    if p.len() < 14 {
        return underflow();
    }
    let ghost rest = p@.skip(14);
    let mut k: usize = 14;
    while k < p.len() && p[k] != 0
        invariant
            14 <= k <= p@.len(),
            forall|j: int| 14 <= j < k ==> p@[j] != 0,
        decreases p@.len() - k,
    {
        k = k + 1;
    }
    proof {
        assert forall|j: int| 0 <= j < k - 14 implies rest[j] != 0 by {
            assert(rest[j] == p@[14 + j]);
        }
        if k < p.len() {
            assert(rest[k - 14] == p@[k as int]);
        }
        lemma_first_at_is(rest, 0, k - 14);
    }
    if k >= p.len() {
        return missing_nul();
    }
    let face_bytes = &p[14..k];
    proof {
        assert(face_bytes@ =~= rest.take(k - 14));
    }
    let face = match string_from_utf8(vstd::slice::slice_to_vec(face_bytes)) {
        Some(s) => s,
        None => {
            return bad_utf8();
        },
    };
    if k + 1 != p.len() {
        return overflow();
    }
    let size = bits_to_i16(read_le16(p, 0));
    let bits = p[2];
    let smooth = (bits / 128) % 2 == 1;
    let unicode = (bits / 64) % 2 == 1;
    let italic = (bits / 32) % 2 == 1;
    let bold = (bits / 16) % 2 == 1;
    let cs = p[3];
    let charset = if cs == 0 && unicode {
        Charset::Null
    } else {
        Charset::Tagged(cs)
    };
    let stretch_h = read_le16(p, 4);
    let padding = crate::font::Padding::new(p[7], p[8], p[9], p[10]);
    let spacing = crate::font::Spacing::new(p[11], p[12]);
    Ok(Info::new(face, size, bold, italic, charset, unicode, stretch_h, smooth, p[6], padding,
        spacing, p[13]))
}

/// Decode the common block payload.
fn unpack_common(p: &[u8]) -> (r: Result<Common, Error>)
    ensures
        (r is Ok <==> spec_dec_common(p@) is Ok),
        r matches Ok(c) ==> spec_dec_common(p@) == Ok::<Common, BinErr>(c),
        r matches Err(e) ==> (spec_dec_common(p@) matches Err(be) && bin_err_matches(e, be)),
{
    if p.len() < 15 {
        return underflow();
    }
    let alpha_chnl = match Packing::try_from_u8(p[11]) {
        Ok(x) => x,
        Err(_) => {
            return bad_value();
        },
    };
    let red_chnl = match Packing::try_from_u8(p[12]) {
        Ok(x) => x,
        Err(_) => {
            return bad_value();
        },
    };
    let green_chnl = match Packing::try_from_u8(p[13]) {
        Ok(x) => x,
        Err(_) => {
            return bad_value();
        },
    };
    let blue_chnl = match Packing::try_from_u8(p[14]) {
        Ok(x) => x,
        Err(_) => {
            return bad_value();
        },
    };
    if p.len() != 15 {
        return overflow();
    }
    Ok(
        Common::new(
            read_le16(p, 0),
            read_le16(p, 2),
            read_le16(p, 4),
            read_le16(p, 6),
            read_le16(p, 8),
            p[10] % 2 == 1,
            alpha_chnl,
            red_chnl,
            green_chnl,
            blue_chnl,
        ),
    )
}

/// Decode the pages block payload.
fn unpack_pages(p: &[u8]) -> (r: Result<Vec<String>, Error>)
    ensures
        (r is Ok <==> spec_dec_pages(p@) is Ok),
        r matches Ok(v) ==> spec_dec_pages(p@) == Ok::<Seq<Seq<char>>, BinErr>(v.deep_view()),
        r matches Err(e) ==> (spec_dec_pages(p@) matches Err(be) && bin_err_matches(e, be)),
{
    let mut out: Vec<String> = Vec::new();
    let mut i: usize = 0;
    proof {
        assert(p@.skip(0) =~= p@);
        assert(out.deep_view() =~= Seq::<Seq<char>>::empty());
        let res0 = spec_dec_pages(p@);
        if res0 is Ok {
            assert(out.deep_view() + res0->Ok_0 =~= res0->Ok_0);
        }
    }
    while i < p.len()
        invariant
            0 <= i <= p@.len(),
            spec_dec_pages(p@) == (match spec_dec_pages(p@.skip(i as int)) {
                Ok(rest) => Ok::<Seq<Seq<char>>, BinErr>(out.deep_view() + rest),
                Err(e) => Err::<Seq<Seq<char>>, BinErr>(e),
            }),
        decreases p@.len() - i,
    {
        let ghost rem = p@.skip(i as int);
        let mut k: usize = i;
        while k < p.len() && p[k] != 0
            invariant
                i <= k <= p@.len(),
                forall|j: int| i <= j < k ==> p@[j] != 0,
            decreases p@.len() - k,
        {
            k = k + 1;
        }
        proof {
            assert forall|j: int| 0 <= j < k - i implies rem[j] != 0 by {
                assert(rem[j] == p@[i + j]);
            }
            if k < p.len() {
                assert(rem[k - i] == p@[k as int]);
            }
            lemma_first_at_is(rem, 0, k - i);
        }
        if k >= p.len() {
            return missing_nul();
        }
        let name_bytes = &p[i..k];
        proof {
            assert(name_bytes@ =~= rem.take(k - i));
        }
        let s = match string_from_utf8(vstd::slice::slice_to_vec(name_bytes)) {
            Some(s) => s,
            None => {
                return bad_utf8();
            },
        };
        let ghost out_old = out.deep_view();
        out.push(s);
        proof {
            assert(rem.skip(k - i + 1) =~= p@.skip(k + 1));
            assert(out.deep_view() =~= out_old + seq![decode_utf8(rem.take(k - i))]);
            let res = spec_dec_pages(p@.skip(k + 1));
            if res is Ok {
                assert(out_old + (seq![decode_utf8(rem.take(k - i))] + res->Ok_0)
                    =~= out.deep_view() + res->Ok_0);
            }
        }
        i = k + 1;
    }
    proof {
        assert(p@.skip(i as int) =~= Seq::<u8>::empty());
        let res = spec_dec_pages(p@.skip(i as int));
        assert(res == Ok::<Seq<Seq<char>>, BinErr>(Seq::<Seq<char>>::empty()));
        assert(out.deep_view() + Seq::<Seq<char>>::empty() =~= out.deep_view());
    }
    Ok(out)
}

/// Decode the chars block payload.
fn unpack_chars(p: &[u8]) -> (r: Result<Vec<Char>, Error>)
    ensures
        (r is Ok <==> spec_dec_chars(p@) is Ok),
        r matches Ok(v) ==> spec_dec_chars(p@) == Ok::<Seq<Char>, BinErr>(v@),
        r matches Err(e) ==> (spec_dec_chars(p@) matches Err(be) && bin_err_matches(e, be)),
{
    let mut out: Vec<Char> = Vec::new();
    let mut i: usize = 0;
    proof {
        assert(p@.skip(0) =~= p@);
        let res0 = spec_dec_chars(p@);
        if res0 is Ok {
            assert(out@ + res0->Ok_0 =~= res0->Ok_0);
        }
    }
    while i < p.len()
        invariant
            0 <= i <= p@.len(),
            spec_dec_chars(p@) == (match spec_dec_chars(p@.skip(i as int)) {
                Ok(rest) => Ok::<Seq<Char>, BinErr>(out@ + rest),
                Err(e) => Err::<Seq<Char>, BinErr>(e),
            }),
        decreases p@.len() - i,
    {
        let ghost rem = p@.skip(i as int);
        if p.len() - i < 20 {
            return underflow();
        }
        proof {
            assert forall|j: int| 0 <= j < 20 implies rem.take(20)[j] == p@[i + j] by {
                assert(rem[j] == p@[i + j]);
            }
        }
        let chnl = match Chnl::try_from_u8(p[i + 19]) {
            Ok(c) => c,
            Err(_) => {
                return bad_value();
            },
        };
        let c = Char::new(
            read_le32(p, i),
            read_le16(p, i + 4),
            read_le16(p, i + 6),
            read_le16(p, i + 8),
            read_le16(p, i + 10),
            bits_to_i16(read_le16(p, i + 12)),
            bits_to_i16(read_le16(p, i + 14)),
            bits_to_i16(read_le16(p, i + 16)),
            p[i + 18],
            chnl,
        );
        let ghost out_old = out@;
        out.push(c);
        proof {
            assert(rem.skip(20) =~= p@.skip(i + 20));
            assert(out@ =~= out_old + seq![c]);
            assert(spec_dec_char(rem.take(20)) == Ok::<Char, BinErr>(c));
            let res = spec_dec_chars(p@.skip(i + 20));
            if res is Ok {
                assert(out_old + (seq![c] + res->Ok_0) =~= out@ + res->Ok_0);
            }
        }
        i = i + 20;
    }
    proof {
        assert(p@.skip(i as int) =~= Seq::<u8>::empty());
        assert(out@ + Seq::<Char>::empty() =~= out@);
    }
    Ok(out)
}

/// Decode the kerning pairs block payload.
fn unpack_kernings(p: &[u8]) -> (r: Result<Vec<Kerning>, Error>)
    ensures
        (r is Ok <==> spec_dec_kernings(p@) is Ok),
        r matches Ok(v) ==> spec_dec_kernings(p@) == Ok::<Seq<Kerning>, BinErr>(v@),
        r matches Err(e) ==> (spec_dec_kernings(p@) matches Err(be) && bin_err_matches(e, be)),
{
    let mut out: Vec<Kerning> = Vec::new();
    let mut i: usize = 0;
    proof {
        assert(p@.skip(0) =~= p@);
        let res0 = spec_dec_kernings(p@);
        if res0 is Ok {
            assert(out@ + res0->Ok_0 =~= res0->Ok_0);
        }
    }
    while i < p.len()
        invariant
            0 <= i <= p@.len(),
            spec_dec_kernings(p@) == (match spec_dec_kernings(p@.skip(i as int)) {
                Ok(rest) => Ok::<Seq<Kerning>, BinErr>(out@ + rest),
                Err(e) => Err::<Seq<Kerning>, BinErr>(e),
            }),
        decreases p@.len() - i,
    {
        let ghost rem = p@.skip(i as int);
        if p.len() - i < 10 {
            return underflow();
        }
        proof {
            assert forall|j: int| 0 <= j < 10 implies rem.take(10)[j] == p@[i + j] by {
                assert(rem[j] == p@[i + j]);
            }
        }
        let k = Kerning::new(
            read_le32(p, i),
            read_le32(p, i + 4),
            bits_to_i16(read_le16(p, i + 8)),
        );
        let ghost out_old = out@;
        out.push(k);
        proof {
            assert(rem.skip(10) =~= p@.skip(i + 10));
            assert(out@ =~= out_old + seq![k]);
            assert(spec_dec_kerning(rem.take(10)) == k);
            let res = spec_dec_kernings(p@.skip(i + 10));
            if res is Ok {
                assert(out_old + (seq![k] + res->Ok_0) =~= out@ + res->Ok_0);
            }
        }
        i = i + 10;
    }
    proof {
        assert(p@.skip(i as int) =~= Seq::<u8>::empty());
        assert(out@ + Seq::<Kerning>::empty() =~= out@);
    }
    Ok(out)
}

/// Append the kerning pairs block payload.
fn pack_kernings(out: &mut Vec<u8>, kernings: &Vec<Kerning>)
    ensures
        final (out)@ == old(out)@ + kernings_payload(kernings@),
{
    let mut i: usize = 0;
    proof {
        assert(kernings@.take(0) =~= Seq::<Kerning>::empty());
        assert(out@ + kernings_payload(kernings@.take(0)) =~= out@);
    }
    while i < kernings.len()
        invariant
            0 <= i <= kernings@.len(),
            out@ == old(out)@ + kernings_payload(kernings@.take(i as int)),
        decreases kernings@.len() - i,
    {
        pack_kerning(out, &kernings[i]);
        proof {
            lemma_kernings_payload_concat(kernings@.take(i as int), seq![kernings@[i as int]]);
            lemma_kernings_payload_one(kernings@[i as int]);
            assert(kernings@.take(i + 1) =~= kernings@.take(i as int) + seq![kernings@[i as int]]);
            assert(out@ =~= old(out)@ + kernings_payload(kernings@.take(i + 1)));
        }
        i = i + 1;
    }
    proof {
        assert(kernings@.take(kernings@.len() as int) =~= kernings@);
    }
}

} // verus!
