//! Bitmap font descriptor model.

use vstd::prelude::*;

use crate::charset::{Charset, CharsetV};
use crate::error::Error;
use crate::parse::{spec_parse_u8, spec_parse_u8_array, Parse, ParseError};

verus! {

/// Character padding.
///
/// The padding for each character (up, right, down, left).
#[derive(Clone, Copy, Debug, PartialEq, Eq, Structural)]
pub struct Padding {
    pub up: u8,
    pub right: u8,
    pub down: u8,
    pub left: u8,
}

impl Padding {
    /// Construct a new Padding.
    ///
    /// N.B. The supplied arguments are not validated.
    #[inline(always)]
    pub fn new(up: u8, right: u8, down: u8, left: u8) -> (r: Self)
        ensures
            r == (Padding { up, right, down, left }),
    {
        Self { up, right, down, left }
    }
}

impl Default for Padding {
    /// Zero padding on every side.
    fn default() -> (r: Self)
        ensures
            r == (Padding { up: 0, right: 0, down: 0, left: 0 }),
    {
        Padding { up: 0, right: 0, down: 0, left: 0 }
    }
}

/// The padding denoted by a comma separated list of four bytes.
pub open spec fn spec_parse_padding(s: Seq<u8>) -> Result<Padding, ParseError> {
    match spec_parse_u8_array(s, 4) {
        Ok(a) => Ok(Padding { up: a[0], right: a[1], down: a[2], left: a[3] }),
        Err(e) => Err(e),
    }
}

/// Parse a padding value: four comma separated bytes.
pub fn parse_padding_bytes(s: &[u8]) -> (r: Result<Padding, ParseError>)
    ensures
        r == spec_parse_padding(s@),
{
    match crate::parse::parse_u8_array(s, 4) {
        Ok(a) => Ok(Padding { up: a[0], right: a[1], down: a[2], left: a[3] }),
        Err(e) => Err(e),
    }
}

impl Parse for Padding {
    fn parse(src: &str) -> Result<Self, ParseError> {
        Self::parse_bytes(src.as_bytes())
    }

    fn parse_bytes(bytes: &[u8]) -> Result<Self, ParseError> {
        parse_padding_bytes(bytes)
    }
}

/// Character spacing.
///
/// The spacing for each character (horizontal, vertical).
#[derive(Clone, Copy, Debug, PartialEq, Eq, Structural)]
pub struct Spacing {
    pub horizontal: u8,
    pub vertical: u8,
}

impl Spacing {
    /// Construct a new Spacing.
    ///
    /// N.B. The supplied arguments are not validated.
    #[inline(always)]
    pub fn new(horizontal: u8, vertical: u8) -> (r: Self)
        ensures
            r == (Spacing { horizontal, vertical }),
    {
        Self { horizontal, vertical }
    }
}

impl Default for Spacing {
    /// Zero spacing in both directions.
    fn default() -> (r: Self)
        ensures
            r == (Spacing { horizontal: 0, vertical: 0 }),
    {
        Spacing { horizontal: 0, vertical: 0 }
    }
}

/// The spacing denoted by a comma separated list of two bytes.
pub open spec fn spec_parse_spacing(s: Seq<u8>) -> Result<Spacing, ParseError> {
    match spec_parse_u8_array(s, 2) {
        Ok(a) => Ok(Spacing { horizontal: a[0], vertical: a[1] }),
        Err(e) => Err(e),
    }
}

/// Parse a spacing value: two comma separated bytes.
pub fn parse_spacing_bytes(s: &[u8]) -> (r: Result<Spacing, ParseError>)
    ensures
        r == spec_parse_spacing(s@),
{
    match crate::parse::parse_u8_array(s, 2) {
        Ok(a) => Ok(Spacing { horizontal: a[0], vertical: a[1] }),
        Err(e) => Err(e),
    }
}

impl Parse for Spacing {
    fn parse(src: &str) -> Result<Self, ParseError> {
        Self::parse_bytes(src.as_bytes())
    }

    fn parse_bytes(bytes: &[u8]) -> Result<Self, ParseError> {
        parse_spacing_bytes(bytes)
    }
}

/// Channel packing description.
///
/// Used when character packing is specified to describe what is stored in
/// each texture channel.
#[derive(Clone, Copy, Debug, PartialEq, Eq, Structural)]
pub enum Packing {
    /// Channel holds glyph data.
    Glyph,
    /// Channel holds outline data.
    Outline,
    /// Channel holds glyph and outline data.
    GlyphOutline,
    /// Channel is set to zero.
    Zero,
    /// Channel is set to one.
    One,
}

/// The byte encoding of a channel packing description.
pub open spec fn spec_packing_u8(p: Packing) -> u8 {
    match p {
        Packing::Glyph => 0,
        Packing::Outline => 1,
        Packing::GlyphOutline => 2,
        Packing::Zero => 3,
        Packing::One => 4,
    }
}

/// The channel packing description a byte denotes, for bytes zero to four.
pub open spec fn spec_packing_from_u8(u: u8) -> Result<Packing, ParseError> {
    if u == 0 {
        Ok(Packing::Glyph)
    } else if u == 1 {
        Ok(Packing::Outline)
    } else if u == 2 {
        Ok(Packing::GlyphOutline)
    } else if u == 3 {
        Ok(Packing::Zero)
    } else if u == 4 {
        Ok(Packing::One)
    } else {
        Err(ParseError::InvalidValue)
    }
}

impl Packing {
    /// The byte encoding of this channel packing description.
    pub fn to_u8(self) -> (r: u8)
        ensures
            r == spec_packing_u8(self),
    {
        match self {
            Packing::Glyph => 0,
            Packing::Outline => 1,
            Packing::GlyphOutline => 2,
            Packing::Zero => 3,
            Packing::One => 4,
        }
    }

    /// The channel packing description a byte denotes; bytes over four are
    /// rejected.
    pub fn try_from_u8(u: u8) -> (r: Result<Packing, ParseError>)
        ensures
            r == spec_packing_from_u8(u),
    {
        if u == 0 {
            Ok(Packing::Glyph)
        } else if u == 1 {
            Ok(Packing::Outline)
        } else if u == 2 {
            Ok(Packing::GlyphOutline)
        } else if u == 3 {
            Ok(Packing::Zero)
        } else if u == 4 {
            Ok(Packing::One)
        } else {
            Err(ParseError::InvalidValue)
        }
    }
}

impl Default for Packing {
    /// Glyph data packing.
    fn default() -> (r: Self)
        ensures
            r == Packing::Glyph,
    {
        Packing::Glyph
    }
}

/// The channel packing denoted by a decimal byte string.
pub open spec fn spec_parse_packing(s: Seq<u8>) -> Result<Packing, ParseError> {
    match spec_parse_u8(s) {
        Some(u) => spec_packing_from_u8(u),
        None => Err(ParseError::InvalidInt),
    }
}

/// Parse a channel packing value: a decimal byte, zero to four.
pub fn parse_packing_bytes(s: &[u8]) -> (r: Result<Packing, ParseError>)
    ensures
        r == spec_parse_packing(s@),
{
    match crate::parse::parse_u8_bytes(s) {
        Ok(u) => Packing::try_from_u8(u),
        Err(e) => Err(e),
    }
}

impl Parse for Packing {
    fn parse(src: &str) -> Result<Self, ParseError> {
        Self::parse_bytes(src.as_bytes())
    }

    fn parse_bytes(bytes: &[u8]) -> Result<Self, ParseError> {
        parse_packing_bytes(bytes)
    }
}

/// Character texture channel description.
///
/// The texture channels where the character image is found, as a four bit
/// field: blue, green, red and alpha, lowest bit first. The five standard
/// combinations have named constructors. Unless you know what you are doing,
/// take care when setting bits to avoid non-standard combinations.
#[derive(Clone, Copy, Debug, PartialEq, Eq, Structural)]
pub struct Chnl(pub u8);

impl Chnl {
    /// Character image data is stored in all channels.
    pub fn all() -> (r: Chnl)
        ensures
            r == Chnl(15),
    {
        Chnl(15)
    }

    /// Character image data is stored in the alpha channel only.
    pub fn just_alpha() -> (r: Chnl)
        ensures
            r == Chnl(8),
    {
        Chnl(8)
    }

    /// Character image data is stored in the red channel only.
    pub fn just_red() -> (r: Chnl)
        ensures
            r == Chnl(4),
    {
        Chnl(4)
    }

    /// Character image data is stored in the green channel only.
    pub fn just_green() -> (r: Chnl)
        ensures
            r == Chnl(2),
    {
        Chnl(2)
    }

    /// Character image data is stored in the blue channel only.
    pub fn just_blue() -> (r: Chnl)
        ensures
            r == Chnl(1),
    {
        Chnl(1)
    }

    /// The value of the bit field.
    pub open spec fn value(self) -> u8 {
        self.0
    }

    /// The bit field holds only the four channel bits.
    pub open spec fn wf(self) -> bool {
        self.0 < 16
    }

    /// The byte encoding of the bit field.
    pub fn to_u8(self) -> (r: u8)
        ensures
            r == self.value(),
    {
        self.0
    }

    /// The channel bit field a byte denotes; bytes with bits outside the
    /// four channel bits are rejected.
    pub fn try_from_u8(u: u8) -> (r: Result<Chnl, ParseError>)
        ensures
            r matches Ok(c) ==> c.value() == u && c.wf(),
            (r is Ok <==> u < 16),
            r matches Err(e) ==> e == ParseError::InvalidValue,
    {
        if u < 16 {
            Ok(Chnl(u))
        } else {
            Err(ParseError::InvalidValue)
        }
    }

    /// The alpha channel bit.
    pub fn alpha(self) -> (r: bool)
        ensures
            r == (self.value() & 8 != 0),
    {
        self.0 & 8 != 0
    }

    /// Set the alpha channel bit.
    pub fn set_alpha(&mut self, v: bool)
        ensures
            final (self).value() == (if v {
                old(self).value() | 8
            } else {
                old(self).value() & 0xf7
            }),
            final (self).wf() == old(self).wf(),
    {
        if v {
            *self = Chnl(self.0 | 8);
        } else {
            *self = Chnl(self.0 & 0xf7);
        }
        proof {
            let a = old(self).value();
            assert((a | 8) < 16 <==> a < 16) by (bit_vector);
            assert((a & 0xf7) < 16 <==> a < 16) by (bit_vector)
                requires
                    a < 256,
            ;
        }
    }

    /// The red channel bit.
    pub fn red(self) -> (r: bool)
        ensures
            r == (self.value() & 4 != 0),
    {
        self.0 & 4 != 0
    }

    /// Set the red channel bit.
    pub fn set_red(&mut self, v: bool)
        ensures
            final (self).value() == (if v {
                old(self).value() | 4
            } else {
                old(self).value() & 0xfb
            }),
            final (self).wf() == old(self).wf(),
    {
        if v {
            *self = Chnl(self.0 | 4);
        } else {
            *self = Chnl(self.0 & 0xfb);
        }
        proof {
            let a = old(self).value();
            assert((a | 4) < 16 <==> a < 16) by (bit_vector);
            assert((a & 0xfb) < 16 <==> a < 16) by (bit_vector)
                requires
                    a < 256,
            ;
        }
    }

    /// The green channel bit.
    pub fn green(self) -> (r: bool)
        ensures
            r == (self.value() & 2 != 0),
    {
        self.0 & 2 != 0
    }

    /// Set the green channel bit.
    pub fn set_green(&mut self, v: bool)
        ensures
            final (self).value() == (if v {
                old(self).value() | 2
            } else {
                old(self).value() & 0xfd
            }),
            final (self).wf() == old(self).wf(),
    {
        if v {
            *self = Chnl(self.0 | 2);
        } else {
            *self = Chnl(self.0 & 0xfd);
        }
        proof {
            let a = old(self).value();
            assert((a | 2) < 16 <==> a < 16) by (bit_vector);
            assert((a & 0xfd) < 16 <==> a < 16) by (bit_vector)
                requires
                    a < 256,
            ;
        }
    }

    /// The blue channel bit.
    pub fn blue(self) -> (r: bool)
        ensures
            r == (self.value() & 1 != 0),
    {
        self.0 & 1 != 0
    }

    /// Set the blue channel bit.
    pub fn set_blue(&mut self, v: bool)
        ensures
            final (self).value() == (if v {
                old(self).value() | 1
            } else {
                old(self).value() & 0xfe
            }),
            final (self).wf() == old(self).wf(),
    {
        if v {
            *self = Chnl(self.0 | 1);
        } else {
            *self = Chnl(self.0 & 0xfe);
        }
        proof {
            let a = old(self).value();
            assert((a | 1) < 16 <==> a < 16) by (bit_vector);
            assert((a & 0xfe) < 16 <==> a < 16) by (bit_vector)
                requires
                    a < 256,
            ;
        }
    }
}

impl Default for Chnl {
    /// All channels.
    fn default() -> (r: Self)
        ensures
            r == Chnl(15),
    {
        Chnl(15)
    }
}

/// The channel bit field denoted by a decimal byte string.
pub open spec fn spec_parse_chnl(s: Seq<u8>) -> Result<u8, ParseError> {
    match spec_parse_u8(s) {
        Some(u) => if u < 16 {
            Ok(u)
        } else {
            Err(ParseError::InvalidValue)
        },
        None => Err(ParseError::InvalidInt),
    }
}

/// Parse a channel bit field value: a decimal byte under sixteen.
pub fn parse_chnl_bytes(s: &[u8]) -> (r: Result<Chnl, ParseError>)
    ensures
        r matches Ok(c) ==> (spec_parse_chnl(s@) matches Ok(u) && c.value() == u && c.wf()),
        r matches Err(e) ==> spec_parse_chnl(s@) == Err::<u8, ParseError>(e),
{
    match crate::parse::parse_u8_bytes(s) {
        Ok(u) => Chnl::try_from_u8(u),
        Err(e) => Err(e),
    }
}

impl Parse for Chnl {
    fn parse(src: &str) -> Result<Self, ParseError> {
        Self::parse_bytes(src.as_bytes())
    }

    fn parse_bytes(bytes: &[u8]) -> Result<Self, ParseError> {
        parse_chnl_bytes(bytes)
    }
}

/// Character description.
///
/// This block describes one character in the font.
#[derive(Clone, Copy, Debug, PartialEq, Eq, Structural)]
pub struct Char {
    /// The character id.
    pub id: u32,
    /// The left position of the character image in the texture.
    pub x: u16,
    /// The top position of the character image in the texture.
    pub y: u16,
    /// The width of the character image in the texture.
    pub width: u16,
    /// The height of the character image in the texture.
    pub height: u16,
    /// How much the current position should be offset when copying the image
    /// from the texture to the screen.
    pub xoffset: i16,
    /// How much the current position should be offset when copying the image
    /// from the texture to the screen.
    pub yoffset: i16,
    /// How much the current position should be advanced after drawing the
    /// character.
    pub xadvance: i16,
    /// The texture page where the character image is found.
    pub page: u8,
    /// The texture channel where the character image is found.
    pub chnl: Chnl,
}

impl Char {
    /// Construct a new Char.
    ///
    /// N.B. The supplied arguments are not validated.
    #[inline(always)]
    pub fn new(
        id: u32,
        x: u16,
        y: u16,
        width: u16,
        height: u16,
        xoffset: i16,
        yoffset: i16,
        xadvance: i16,
        page: u8,
        chnl: Chnl,
    ) -> (r: Self)
        ensures
            r == (Char { id, x, y, width, height, xoffset, yoffset, xadvance, page, chnl }),
    {
        Self { id, x, y, width, height, xoffset, yoffset, xadvance, page, chnl }
    }
}

impl Default for Char {
    /// All numeric fields zero and the default channel bit field.
    fn default() -> (r: Self)
        ensures
            r == spec_default_char(),
    {
        Char {
            id: 0,
            x: 0,
            y: 0,
            width: 0,
            height: 0,
            xoffset: 0,
            yoffset: 0,
            xadvance: 0,
            page: 0,
            chnl: Chnl(15),
        }
    }
}

/// The default character description.
pub open spec fn spec_default_char() -> Char {
    Char {
        id: 0,
        x: 0,
        y: 0,
        width: 0,
        height: 0,
        xoffset: 0,
        yoffset: 0,
        xadvance: 0,
        page: 0,
        chnl: Chnl(15),
    }
}

/// Common character description.
///
/// This block holds information common to all characters.
#[derive(Clone, Copy, Debug, PartialEq, Eq, Structural)]
pub struct Common {
    /// This is the distance in pixels between each line of text.
    pub line_height: u16,
    /// The number of pixels from the absolute top of the line to the base of
    /// the characters.
    pub base: u16,
    /// The width of the texture, normally used to scale the x pos of the
    /// character image.
    pub scale_w: u16,
    /// The height of the texture, normally used to scale the y pos of the
    /// character image.
    pub scale_h: u16,
    /// The number of texture pages included in the font.
    pub pages: u16,
    /// True if the monochrome characters have been packed into each of the
    /// texture channels.
    pub packed: bool,
    /// Alpha channel packing.
    pub alpha_chnl: Packing,
    /// Red channel packing.
    pub red_chnl: Packing,
    /// Green channel packing.
    pub green_chnl: Packing,
    /// Blue channel packing.
    pub blue_chnl: Packing,
}

impl Common {
    /// Construct a new Common block.
    ///
    /// N.B. The supplied arguments are not validated.
    #[inline(always)]
    pub fn new(
        line_height: u16,
        base: u16,
        scale_w: u16,
        scale_h: u16,
        pages: u16,
        packed: bool,
        alpha_chnl: Packing,
        red_chnl: Packing,
        green_chnl: Packing,
        blue_chnl: Packing,
    ) -> (r: Self)
        ensures
            r == (Common {
                line_height,
                base,
                scale_w,
                scale_h,
                pages,
                packed,
                alpha_chnl,
                red_chnl,
                green_chnl,
                blue_chnl,
            }),
    {
        Self {
            line_height,
            base,
            scale_w,
            scale_h,
            pages,
            packed,
            alpha_chnl,
            red_chnl,
            green_chnl,
            blue_chnl,
        }
    }
}

/// The default common block.
pub open spec fn spec_default_common() -> Common {
    Common {
        line_height: 0,
        base: 0,
        scale_w: 0,
        scale_h: 0,
        pages: 0,
        packed: false,
        alpha_chnl: Packing::Glyph,
        red_chnl: Packing::Glyph,
        green_chnl: Packing::Glyph,
        blue_chnl: Packing::Glyph,
    }
}

impl Default for Common {
    /// All numeric fields zero, not packed, and glyph packing in every
    /// channel.
    fn default() -> (r: Self)
        ensures
            r == spec_default_common(),
    {
        Common {
            line_height: 0,
            base: 0,
            scale_w: 0,
            scale_h: 0,
            pages: 0,
            packed: false,
            alpha_chnl: Packing::Glyph,
            red_chnl: Packing::Glyph,
            green_chnl: Packing::Glyph,
            blue_chnl: Packing::Glyph,
        }
    }
}

/// Font information.
///
/// This block holds information on how the font was generated.
#[derive(Clone, Debug, PartialEq, Eq)]
pub struct Info {
    /// This is the name of the true type font.
    pub face: String,
    /// The size of the true type font.
    pub size: i16,
    /// True if the font is bold.
    pub bold: bool,
    /// True if the font is italic.
    pub italic: bool,
    /// The name of the OEM charset (when not Unicode).
    pub charset: Charset,
    /// True if Unicode charset.
    pub unicode: bool,
    /// The font height stretch in percentage. 100% means no stretch.
    pub stretch_h: u16,
    /// True if smoothing was turned on.
    pub smooth: bool,
    /// The supersampling level used. 1 means no supersampling was used.
    pub aa: u8,
    /// The padding for each character.
    pub padding: Padding,
    /// The spacing for each character.
    pub spacing: Spacing,
    /// The outline thickness for the characters.
    pub outline: u8,
}

/// The mathematical value of an [Info] block.
pub ghost struct InfoV {
    pub face: Seq<char>,
    pub size: i16,
    pub bold: bool,
    pub italic: bool,
    pub charset: CharsetV,
    pub unicode: bool,
    pub stretch_h: u16,
    pub smooth: bool,
    pub aa: u8,
    pub padding: Padding,
    pub spacing: Spacing,
    pub outline: u8,
}

impl View for Info {
    type V = InfoV;

    open spec fn view(&self) -> InfoV {
        InfoV {
            face: self.face@,
            size: self.size,
            bold: self.bold,
            italic: self.italic,
            charset: self.charset@,
            unicode: self.unicode,
            stretch_h: self.stretch_h,
            smooth: self.smooth,
            aa: self.aa,
            padding: self.padding,
            spacing: self.spacing,
            outline: self.outline,
        }
    }
}

impl Info {
    /// Construct a new Info block.
    ///
    /// N.B. The supplied arguments are not validated.
    #[inline(always)]
    pub fn new(
        face: String,
        size: i16,
        bold: bool,
        italic: bool,
        charset: Charset,
        unicode: bool,
        stretch_height: u16,
        smooth: bool,
        aa: u8,
        padding: Padding,
        spacing: Spacing,
        outline: u8,
    ) -> (r: Self)
        ensures
            r@ == (InfoV {
                face: face@,
                size,
                bold,
                italic,
                charset: charset@,
                unicode,
                stretch_h: stretch_height,
                smooth,
                aa,
                padding,
                spacing,
                outline,
            }),
    {
        Self {
            face,
            size,
            bold,
            italic,
            charset,
            unicode,
            stretch_h: stretch_height,
            smooth,
            aa,
            padding,
            spacing,
            outline,
        }
    }

    /// Check that the unicode flag and character set encoding agree: a
    /// Unicode font carries the null encoding.
    pub(crate) fn check_encoding(&self) -> (r: Result<(), Error>)
        ensures
            r is Ok <==> !(self.unicode && !(self@.charset is Null)),
            r matches Err(e) ==> (e matches Error::InvalidBinaryEncoding { unicode, charset }
                && unicode == true && charset@ == self@.charset),
    {
        if self.unicode {
            match &self.charset {
                Charset::Null => Ok(()),
                _ => Err(
                    Error::InvalidBinaryEncoding {
                        unicode: true,
                        charset: self.charset.duplicate(),
                    },
                ),
            }
        } else {
            Ok(())
        }
    }
}

/// The default info block value.
pub open spec fn spec_default_info() -> InfoV {
    InfoV {
        face: Seq::<char>::empty(),
        size: 0,
        bold: false,
        italic: false,
        charset: CharsetV::Tagged(0),
        unicode: false,
        stretch_h: 0,
        smooth: false,
        aa: 0,
        padding: Padding { up: 0, right: 0, down: 0, left: 0 },
        spacing: Spacing { horizontal: 0, vertical: 0 },
        outline: 0,
    }
}

impl Default for Info {
    /// An empty face name, all numeric fields zero, the ANSI tagged
    /// character set encoding, and zero padding and spacing.
    fn default() -> (r: Self)
        ensures
            r@ == spec_default_info(),
    {
        Self {
            face: String::new(),
            size: 0,
            bold: false,
            italic: false,
            charset: Charset::Tagged(0),
            unicode: false,
            stretch_h: 0,
            smooth: false,
            aa: 0,
            padding: Padding::new(0, 0, 0, 0),
            spacing: Spacing::new(0, 0),
            outline: 0,
        }
    }
}

/// A texture page: its id and its texture file name.
#[derive(Clone, Debug, Default)]
pub struct Page {
    pub id: u16,
    pub file: String,
}

/// Kerning pair.
///
/// The kerning information is used to adjust the distance between certain
/// characters.
#[derive(Clone, Copy, PartialEq, Eq, PartialOrd, Ord, Debug, Structural)]
pub struct Kerning {
    /// The first character id.
    pub first: u32,
    /// The second character id.
    pub second: u32,
    /// How much the x position should be adjusted when drawing the second
    /// character immediately following the first.
    pub amount: i16,
}

impl Kerning {
    /// Construct a new Kerning.
    ///
    /// N.B. The supplied arguments are not validated.
    #[inline(always)]
    pub fn new(first: u32, second: u32, amount: i16) -> (r: Self)
        ensures
            r == (Kerning { first, second, amount }),
    {
        Self { first, second, amount }
    }
}

/// Bitmap font descriptor.
///
/// This object holds, in its entirety, the information contained within a
/// BMFont descriptor file. This, when paired with the associated texture
/// files, allows us to render the described font.
///
/// Outline:
///
/// - `info`: holds information on how the font was generated.
/// - `common`: holds information common to all characters.
/// - `pages`: holds an ordered list of texture files, the index corresponds
///   to the page id.
/// - `chars`: holds an unordered list of character descriptions.
/// - `kernings`: holds an unordered list of kerning pairs.
#[derive(Clone, Debug, PartialEq, Eq)]
pub struct Font {
    /// Font information.
    pub info: Info,
    /// Common character description.
    pub common: Common,
    /// Texture filenames.
    pub pages: Vec<String>,
    /// Character descriptors.
    pub chars: Vec<Char>,
    /// Kerning pairs.
    pub kernings: Vec<Kerning>,
}

/// The mathematical value of a [Font].
pub ghost struct FontV {
    pub info: InfoV,
    pub common: Common,
    pub pages: Seq<Seq<char>>,
    pub chars: Seq<Char>,
    pub kernings: Seq<Kerning>,
}

impl View for Font {
    type V = FontV;

    open spec fn view(&self) -> FontV {
        FontV {
            info: self.info@,
            common: self.common,
            pages: self.pages.deep_view(),
            chars: self.chars@,
            kernings: self.kernings@,
        }
    }
}

/// Whether a character's page reference indexes an existing page.
pub open spec fn char_page_ok(c: Char, page_count: nat) -> bool {
    (c.page as nat) < page_count
}

/// Whether an id matches some character in the list.
pub open spec fn has_char_id(chars: Seq<Char>, id: u32) -> bool {
    exists|i: int| 0 <= i < chars.len() && chars[i].id == id
}

/// Whether a kerning pair references existing characters on both sides.
pub open spec fn kerning_ids_ok(k: Kerning, chars: Seq<Char>) -> bool {
    has_char_id(chars, k.first) && has_char_id(chars, k.second)
}

/// Whether an id matches some character in the list.
fn has_char_id_exec(chars: &Vec<Char>, id: u32) -> (r: bool)
    ensures
        r == has_char_id(chars@, id),
{
    let mut i: usize = 0;
    while i < chars.len()
        invariant
            0 <= i <= chars@.len(),
            forall|j: int| 0 <= j < i ==> chars@[j].id != id,
        decreases chars@.len() - i,
    {
        if chars[i].id == id {
            return true;
        }
        i = i + 1;
    }
    false
}

impl Font {
    /// Construct a new Font.
    ///
    /// N.B. The supplied arguments are not validated.
    #[inline(always)]
    pub fn new(
        info: Info,
        common: Common,
        pages: Vec<String>,
        chars: Vec<Char>,
        kernings: Vec<Kerning>,
    ) -> (r: Self)
        ensures
            r@ == (FontV {
                info: info@,
                common,
                pages: pages.deep_view(),
                chars: chars@,
                kernings: kernings@,
            }),
    {
        Self { info, common, pages, chars, kernings }
    }

    /// Validate references: ensure that we do not have references to a
    /// non-existent page or character.
    ///
    /// Checks every character's page reference first, then every kerning
    /// pair's character references, reporting the first violation.
    pub fn validate_references(&self) -> (r: Result<(), Error>)
        ensures
            r is Ok <==> ((forall|i: int|
                0 <= i < self@.chars.len() ==> char_page_ok(
                    #[trigger] self@.chars[i],
                    self@.pages.len(),
                )) && (forall|i: int|
                0 <= i < self@.kernings.len() ==> kerning_ids_ok(
                    #[trigger] self@.kernings[i],
                    self@.chars,
                ))),
            r matches Err(e) ==> (e matches Error::InvalidCharPage { .. } || e
                matches Error::InvalidKerningChar { .. }),
    {
        let r = self.validate_char_references();
        match r {
            Ok(()) => self.validate_kerning_references(),
            Err(e) => Err(e),
        }
    }

    /// Check every character's page reference, reporting the first that
    /// indexes a page that does not exist.
    fn validate_char_references(&self) -> (r: Result<(), Error>)
        ensures
            r is Ok <==> (forall|i: int|
                0 <= i < self@.chars.len() ==> char_page_ok(
                    #[trigger] self@.chars[i],
                    self@.pages.len(),
                )),
            r matches Err(e) ==> (e matches Error::InvalidCharPage { char_id, page_id }
                && exists|i: int|
                0 <= i < self@.chars.len() && !char_page_ok(#[trigger] self@.chars[i], self@.pages.len())
                    && char_id == self@.chars[i].id && page_id == self@.chars[i].page as u32),
    {
        let mut i: usize = 0;
        while i < self.chars.len()
            invariant
                0 <= i <= self@.chars.len(),
                forall|j: int| 0 <= j < i ==> char_page_ok(#[trigger] self@.chars[j], self@.pages.len()),
            decreases self@.chars.len() - i,
        {
            let c = self.chars[i];
            if self.pages.len() <= c.page as usize {
                return Err(
                    Error::InvalidCharPage { char_id: c.id, page_id: c.page as u32 },
                );
            }
            i = i + 1;
        }
        Ok(())
    }

    /// Check every kerning pair's character references, reporting the first
    /// id that matches no character.
    fn validate_kerning_references(&self) -> (r: Result<(), Error>)
        ensures
            r is Ok <==> (forall|i: int|
                0 <= i < self@.kernings.len() ==> kerning_ids_ok(
                    #[trigger] self@.kernings[i],
                    self@.chars,
                )),
            r matches Err(e) ==> (e matches Error::InvalidKerningChar { id } && exists|i: int|
                0 <= i < self@.kernings.len() && !kerning_ids_ok(
                    #[trigger] self@.kernings[i],
                    self@.chars,
                ) && (id == self@.kernings[i].first || id == self@.kernings[i].second)
                    && !has_char_id(self@.chars, id)),
    {
        let mut i: usize = 0;
        while i < self.kernings.len()
            invariant
                0 <= i <= self@.kernings.len(),
                forall|j: int| 0 <= j < i ==> kerning_ids_ok(#[trigger] self@.kernings[j], self@.chars),
            decreases self@.kernings.len() - i,
        {
            let k = self.kernings[i];
            if !has_char_id_exec(&self.chars, k.first) {
                return Err(Error::InvalidKerningChar { id: k.first });
            }
            if !has_char_id_exec(&self.chars, k.second) {
                return Err(Error::InvalidKerningChar { id: k.second });
            }
            i = i + 1;
        }
        Ok(())
    }
}

impl Default for Kerning {
    /// A kerning pair of character id zero with itself, adjusting nothing.
    fn default() -> (r: Self)
        ensures
            r == (Kerning { first: 0, second: 0, amount: 0 }),
    {
        Kerning { first: 0, second: 0, amount: 0 }
    }
}

impl Default for Font {
    /// The default info and common blocks, and no pages, characters or
    /// kerning pairs.
    fn default() -> (r: Self)
        ensures
            r@.info == spec_default_info(),
            r@.common == spec_default_common(),
            r@.pages == Seq::<Seq<char>>::empty(),
            r@.chars == Seq::<Char>::empty(),
            r@.kernings == Seq::<Kerning>::empty(),
    {
        let r = Font {
            info: Info::default(),
            common: Common::default(),
            pages: Vec::new(),
            chars: Vec::new(),
            kernings: Vec::new(),
        };
        proof {
            assert(r@.pages =~= Seq::<Seq<char>>::empty());
        }
        r
    }
}

} // verus!
