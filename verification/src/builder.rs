//! Font builder and assembler.
//!
//! A mutable accumulator fed one structural block at a time by the decode
//! paths, then finalized by `build`, which performs all structural
//! validation before yielding an immutable [Font].

use vstd::prelude::*;

use crate::error::Error;
use crate::font::{Char, Common, Font, FontV, Info, InfoV, Kerning, Page};
use crate::settings::LoadSettings;
use vstd::utf8::encode_utf8;

verus! {

/// A declared character or kerning pair count.
#[derive(Clone, Copy, Debug, PartialEq, Eq, Structural)]
pub struct Count {
    /// The declared count.
    pub count: u32,
}

impl Default for Count {
    /// A count of zero.
    fn default() -> (r: Self)
        ensures
            r == (Count { count: 0 }),
    {
        Count { count: 0 }
    }
}

/// Whether a byte is an ASCII control character.
pub open spec fn is_ctl_byte(b: u8) -> bool {
    b <= 0x1f || b == 0x7f
}

/// Whether a string's UTF-8 encoding holds an ASCII control character.
pub open spec fn has_ctl(s: Seq<char>) -> bool {
    exists|i: int| 0 <= i < encode_utf8(s).len() && is_ctl_byte(#[trigger] encode_utf8(s)[i])
}

/// The index of the first page name holding a control character, or the page
/// count if none does.
pub open spec fn first_ctl_page(pages: Seq<Seq<char>>) -> int
    decreases pages.len(),
{
    if pages.len() == 0 {
        0
    } else if has_ctl(pages[0]) {
        0
    } else {
        1 + first_ctl_page(pages.drop_first())
    }
}

pub proof fn lemma_first_ctl_page(pages: Seq<Seq<char>>)
    ensures
        0 <= first_ctl_page(pages) <= pages.len(),
        first_ctl_page(pages) < pages.len() ==> has_ctl(pages[first_ctl_page(pages)]),
        forall|i: int| 0 <= i < first_ctl_page(pages) ==> !has_ctl(#[trigger] pages[i]),
    decreases pages.len(),
{
    if pages.len() > 0 && !has_ctl(pages[0]) {
        lemma_first_ctl_page(pages.drop_first());
        assert forall|i: int| 0 <= i < first_ctl_page(pages) implies !has_ctl(
            #[trigger] pages[i],
        ) by {
            if i > 0 {
                assert(pages.drop_first()[i - 1] == pages[i]);
            }
        }
    }
}

/// The spec-level identity of an assembly error.
pub ghost enum BuildErr {
    /// The info block is missing.
    NoInfo,
    /// The common block is missing.
    NoCommon,
    /// The declared page count and the realized page list disagree.
    PageCount(u16, int),
    /// The declared character count and the realized list disagree.
    CharCount(u32, int),
    /// The declared kerning count and the realized list disagree.
    KerningCount(u32, int),
    /// A page name holds a control character.
    UnsafePage(Seq<char>),
    /// The face name holds a control character.
    UnsafeFace(Seq<char>),
}

/// Whether a crate error is the one a spec-level assembly error describes.
pub open spec fn build_err_matches(e: Error, be: BuildErr) -> bool {
    match be {
        BuildErr::NoInfo => e is NoInfoBlock,
        BuildErr::NoCommon => e is NoCommonBlock,
        BuildErr::PageCount(sp, re) => e matches Error::InvalidPageCount { specified, realized }
            && specified == sp && realized as int == re,
        BuildErr::CharCount(sp, re) => e matches Error::InvalidCharCount { specified, realized }
            && specified == sp && realized as int == re,
        BuildErr::KerningCount(sp, re) => e matches Error::InvalidKerningCount {
            specified,
            realized,
        } && specified == sp && realized as int == re,
        BuildErr::UnsafePage(s) => e matches Error::UnsafeValueString { path, value } && path@
            == "page id"@ && value@ == s,
        BuildErr::UnsafeFace(s) => e matches Error::UnsafeValueString { path, value } && path@
            == "info face"@ && value@ == s,
    }
}

/// A partially assembled font: at most one of each structural block.
#[derive(Debug)]
pub struct FontProto {
    pub info: Option<Info>,
    pub common: Option<Common>,
    pub pages: Option<Vec<String>>,
    pub chars: Option<Vec<Char>>,
    pub kernings: Option<Vec<Kerning>>,
}

/// The mathematical value of a [FontProto].
pub ghost struct ProtoV {
    pub info: Option<InfoV>,
    pub common: Option<Common>,
    pub pages: Option<Seq<Seq<char>>>,
    pub chars: Option<Seq<Char>>,
    pub kernings: Option<Seq<Kerning>>,
}

impl View for FontProto {
    type V = ProtoV;

    open spec fn view(&self) -> ProtoV {
        ProtoV {
            info: match &self.info {
                Some(i) => Some(i@),
                None => None,
            },
            common: self.common,
            pages: match &self.pages {
                Some(p) => Some(p.deep_view()),
                None => None,
            },
            chars: match &self.chars {
                Some(c) => Some(c@),
                None => None,
            },
            kernings: match &self.kernings {
                Some(k) => Some(k@),
                None => None,
            },
        }
    }
}

/// An optional block list, or the empty list where none was supplied.
pub open spec fn or_empty<T>(s: Option<Seq<T>>) -> Seq<T> {
    match s {
        Some(s) => s,
        None => Seq::empty(),
    }
}

/// The font a proto assembles to, before any validation.
pub open spec fn spec_assemble(p: ProtoV) -> Result<FontV, BuildErr> {
    if p.info is None {
        Err(BuildErr::NoInfo)
    } else if p.common is None {
        Err(BuildErr::NoCommon)
    } else {
        Ok(
            FontV {
                info: p.info->Some_0,
                common: p.common->Some_0,
                pages: or_empty(p.pages),
                chars: or_empty(p.chars),
                kernings: or_empty(p.kernings),
            },
        )
    }
}

/// The checks `build` runs after assembly: the realized page count must
/// match the declared one unless counts are ignored, and no page name nor
/// the face name may hold a control character unless such strings are
/// allowed.
pub open spec fn spec_check_font(f: FontV, settings: LoadSettings) -> Result<FontV, BuildErr> {
    if !settings.ignore_counts && f.common.pages as int != f.pages.len() {
        Err(BuildErr::PageCount(f.common.pages, f.pages.len() as int))
    } else if !settings.allow_string_control_characters && first_ctl_page(f.pages)
        < f.pages.len() {
        Err(BuildErr::UnsafePage(f.pages[first_ctl_page(f.pages)]))
    } else if !settings.allow_string_control_characters && has_ctl(f.info.face) {
        Err(BuildErr::UnsafeFace(f.info.face))
    } else {
        Ok(f)
    }
}

/// The font a proto builds to under the given settings, or the error.
pub open spec fn spec_build(p: ProtoV, settings: LoadSettings) -> Result<FontV, BuildErr> {
    match spec_assemble(p) {
        Ok(f) => spec_check_font(f, settings),
        Err(e) => Err(e),
    }
}

/// Check a string for ASCII control characters: codes zero to 31 and 127.
pub(crate) fn check_string<'a>(path: &str, value: &'a String) -> (r: Result<(), Error>)
    ensures
        r is Ok <==> !has_ctl(value@),
        r matches Err(e) ==> (e matches Error::UnsafeValueString { path: p, value: v } && p@
            == path@ && v@ == value@),
{
    let bytes = value.as_str().as_bytes();
    let mut i: usize = 0;
    while i < bytes.len()
        invariant
            0 <= i <= bytes@.len(),
            bytes@ == encode_utf8(value@),
            forall|j: int| 0 <= j < i ==> !is_ctl_byte(#[trigger] bytes@[j]),
        decreases bytes@.len() - i,
    {
        let b = bytes[i];
        if b <= 0x1f || b == 0x7f {
            return Err(
                Error::UnsafeValueString { path: path.to_owned(), value: value.clone() },
            );
        }
        i = i + 1;
    }
    Ok(())
}

impl FontProto {
    /// Assemble the accumulated blocks into a font with no validation
    /// beyond the mandatory presence of the info and common blocks.
    pub fn build_unchecked(self) -> (r: Result<Font, Error>)
        ensures
            r matches Ok(f) ==> spec_assemble(self@) == Ok::<FontV, BuildErr>(f@),
            r is Err <==> spec_assemble(self@) is Err,
            r matches Err(e) ==> (spec_assemble(self@) matches Err(be) && build_err_matches(
                e,
                be,
            )),
    {
        let FontProto { info, common, pages, chars, kernings } = self;
        let info = match info {
            Some(i) => i,
            None => {
                return Err(Error::NoInfoBlock);
            },
        };
        let common = match common {
            Some(c) => c,
            None => {
                return Err(Error::NoCommonBlock);
            },
        };
        let pages = match pages {
            Some(p) => p,
            None => Vec::new(),
        };
        let chars = match chars {
            Some(c) => c,
            None => Vec::new(),
        };
        let kernings = match kernings {
            Some(k) => k,
            None => Vec::new(),
        };
        let f = Font::new(info, common, pages, chars, kernings);
        proof {
            assert(f@.pages =~= or_empty(self@.pages));
            assert(f@.chars =~= or_empty(self@.chars));
            assert(f@.kernings =~= or_empty(self@.kernings));
        }
        Ok(f)
    }

    /// Assemble and validate under the given settings.
    pub fn build(self, settings: &LoadSettings) -> (r: Result<Font, Error>)
        ensures
            r matches Ok(f) ==> spec_build(self@, *settings) == Ok::<FontV, BuildErr>(f@),
            r is Err <==> spec_build(self@, *settings) is Err,
            r matches Err(e) ==> (spec_build(self@, *settings) matches Err(be)
                && build_err_matches(e, be)),
    {
        let font = match self.build_unchecked() {
            Ok(f) => f,
            Err(e) => {
                return Err(e);
            },
        };
        check_font(font, settings)
    }

    /// Supply the info block. At most one may be supplied.
    pub fn set_info(&mut self, line: Option<usize>, info: Info) -> (r: Result<(), Error>)
        ensures
            old(self)@.info is Some ==> (r matches Err(e) && e matches Error::DuplicateInfoBlock {
                line: l,
            } && l == line && final (self)@ == old(self)@),
            old(self)@.info is None ==> (r is Ok && final (self)@ == (ProtoV {
                info: Some(info@),
                ..old(self)@
            })),
    {
        if self.info.is_some() {
            Err(Error::DuplicateInfoBlock { line })
        } else {
            self.info = Some(info);
            Ok(())
        }
    }

    /// Supply the common block. At most one may be supplied.
    pub fn set_common(&mut self, line: Option<usize>, common: Common) -> (r: Result<(), Error>)
        ensures
            old(self)@.common is Some ==> (r matches Err(e) && e
                matches Error::DuplicateCommonBlock { line: l } && l == line && final (self)@ == old(
                self,
            )@),
            old(self)@.common is None ==> (r is Ok && final (self)@ == (ProtoV {
                common: Some(common),
                ..old(self)@
            })),
    {
        if self.common.is_some() {
            Err(Error::DuplicateCommonBlock { line })
        } else {
            self.common = Some(common);
            Ok(())
        }
    }

    /// Supply page names. Successive page blocks concatenate.
    pub fn set_pages(&mut self, line: Option<usize>, pages: Vec<String>) -> (r: Result<(), Error>)
        ensures
            r is Ok,
            final (self)@ == (ProtoV {
                pages: Some(or_empty(old(self)@.pages) + pages.deep_view()),
                ..old(self)@
            }),
    {
        let ghost pv = pages.deep_view();
        let cur = self.pages.take();
        match cur {
            Some(mut v) => {
                let mut pages = pages;
                v.append(&mut pages);
                proof {
                    assert(v.deep_view() =~= or_empty(old(self)@.pages) + pv);
                }
                self.pages = Some(v);
            },
            None => {
                proof {
                    assert(pv =~= or_empty(old(self)@.pages) + pv);
                }
                self.pages = Some(pages);
            },
        }
        Ok(())
    }

    /// Supply character descriptions. Successive character blocks
    /// concatenate.
    pub fn set_chars(&mut self, line: Option<usize>, chars: Vec<Char>) -> (r: Result<(), Error>)
        ensures
            r is Ok,
            final (self)@ == (ProtoV {
                chars: Some(or_empty(old(self)@.chars) + chars@),
                ..old(self)@
            }),
    {
        let ghost cv = chars@;
        let cur = self.chars.take();
        match cur {
            Some(mut v) => {
                let mut chars = chars;
                v.append(&mut chars);
                proof {
                    assert(v@ =~= or_empty(old(self)@.chars) + cv);
                }
                self.chars = Some(v);
            },
            None => {
                proof {
                    assert(cv =~= or_empty(old(self)@.chars) + cv);
                }
                self.chars = Some(chars);
            },
        }
        Ok(())
    }

    /// Supply kerning pairs. Successive kerning blocks concatenate.
    pub fn set_kernings(&mut self, line: Option<usize>, kernings: Vec<Kerning>) -> (r: Result<
        (),
        Error,
    >)
        ensures
            r is Ok,
            final (self)@ == (ProtoV {
                kernings: Some(or_empty(old(self)@.kernings) + kernings@),
                ..old(self)@
            }),
    {
        let ghost kv = kernings@;
        let cur = self.kernings.take();
        match cur {
            Some(mut v) => {
                let mut kernings = kernings;
                v.append(&mut kernings);
                proof {
                    assert(v@ =~= or_empty(old(self)@.kernings) + kv);
                }
                self.kernings = Some(v);
            },
            None => {
                proof {
                    assert(kv =~= or_empty(old(self)@.kernings) + kv);
                }
                self.kernings = Some(kernings);
            },
        }
        Ok(())
    }
}

impl Default for FontProto {
    /// No blocks supplied yet.
    fn default() -> (r: Self)
        ensures
            r@ == (ProtoV {
                info: None,
                common: None,
                pages: None,
                chars: None,
                kernings: None,
            }),
    {
        FontProto { info: None, common: None, pages: None, chars: None, kernings: None }
    }
}

/// Run the `build` validation on an already assembled font.
#[verifier::spinoff_prover]
#[verifier::rlimit(30)]
pub(crate) fn check_font(font: Font, settings: &LoadSettings) -> (r: Result<Font, Error>)
    ensures
        r matches Ok(f) ==> spec_check_font(font@, *settings) == Ok::<FontV, BuildErr>(f@) && f@
            == font@,
        r is Err <==> spec_check_font(font@, *settings) is Err,
        r matches Err(e) ==> (spec_check_font(font@, *settings) matches Err(be)
            && build_err_matches(e, be)),
{
    if !settings.ignore_counts {
        let specified = font.common.pages;
        let realized = font.pages.len();
        if specified as usize != realized {
            return Err(Error::InvalidPageCount { specified, realized });
        }
    }
    if !settings.allow_string_control_characters {
        let mut i: usize = 0;
        while i < font.pages.len()
            invariant
                0 <= i <= font@.pages.len(),
                font@.pages.len() == font.pages@.len(),
                !settings.allow_string_control_characters,
                !settings.ignore_counts ==> font@.common.pages as int == font@.pages.len(),
                forall|j: int| 0 <= j < i ==> !has_ctl(#[trigger] font@.pages[j]),
            decreases font@.pages.len() - i,
        {
            assert(font@.pages[i as int] == font.pages@[i as int]@);
            match check_string("page id", &font.pages[i]) {
                Ok(()) => {},
                Err(e) => {
                    proof {
                        lemma_first_ctl_page(font@.pages);
                        assert(first_ctl_page(font@.pages) == i);
                    }
                    return Err(e);
                },
            }
            i = i + 1;
        }
        proof {
            lemma_first_ctl_page(font@.pages);
            assert(first_ctl_page(font@.pages) == font@.pages.len()) by {
                if first_ctl_page(font@.pages) < font@.pages.len() {
                    assert(!has_ctl(font@.pages[first_ctl_page(font@.pages)]));
                }
            }
        }
        match check_string("info face", &font.info.face) {
            Ok(()) => {},
            Err(e) => {
                return Err(e);
            },
        }
    }
    Ok(font)
}

/// A mutable accumulator for the text based decode paths: typed blocks plus
/// declared character and kerning counts.
#[derive(Debug)]
pub struct FontBuilder {
    pub(crate) proto: FontProto,
    pub(crate) pages: Vec<String>,
    pub(crate) chars: Vec<Char>,
    pub(crate) char_count: Option<u32>,
    pub(crate) kernings: Vec<Kerning>,
    pub(crate) kerning_count: Option<u32>,
}

/// The mathematical value of a [FontBuilder].
pub ghost struct BuilderV {
    pub proto: ProtoV,
    pub pages: Seq<Seq<char>>,
    pub chars: Seq<Char>,
    pub char_count: Option<u32>,
    pub kernings: Seq<Kerning>,
    pub kerning_count: Option<u32>,
}

impl View for FontBuilder {
    type V = BuilderV;

    closed spec fn view(&self) -> BuilderV {
        BuilderV {
            proto: self.proto@,
            pages: self.pages.deep_view(),
            chars: self.chars@,
            char_count: self.char_count,
            kernings: self.kernings@,
            kerning_count: self.kerning_count,
        }
    }
}

/// The font a builder builds to under the given settings, or the error:
/// realized character and kerning counts are held to the declared ones
/// unless counts are ignored, then the accumulated blocks are handed to the
/// proto and built.
pub open spec fn spec_builder_build(b: BuilderV, settings: LoadSettings) -> Result<
    FontV,
    BuildErr,
> {
    if !settings.ignore_counts && b.char_count is Some && b.char_count->Some_0 as int
        != b.chars.len() {
        Err(BuildErr::CharCount(b.char_count->Some_0, b.chars.len() as int))
    } else if !settings.ignore_counts && b.kerning_count is Some && b.kerning_count->Some_0 as int
        != b.kernings.len() {
        Err(BuildErr::KerningCount(b.kerning_count->Some_0, b.kernings.len() as int))
    } else {
        spec_build(
            ProtoV {
                pages: Some(or_empty(b.proto.pages) + b.pages),
                chars: Some(or_empty(b.proto.chars) + b.chars),
                kernings: Some(or_empty(b.proto.kernings) + b.kernings),
                ..b.proto
            },
            settings,
        )
    }
}

impl FontBuilder {
    /// Finalize: validate the declared counts, hand the accumulated blocks
    /// to the proto, and build it under the given settings.
    pub fn build(self, settings: &LoadSettings) -> (r: Result<Font, Error>)
        ensures
            r matches Ok(f) ==> spec_builder_build(self@, *settings) == Ok::<FontV, BuildErr>(f@),
            r is Err <==> spec_builder_build(self@, *settings) is Err,
            r matches Err(e) ==> (spec_builder_build(self@, *settings) matches Err(be)
                && build_err_matches(e, be)),
    {
        if !settings.ignore_counts {
            match self.char_count {
                Some(specified) => {
                    let realized = self.chars.len();
                    if specified as usize != realized {
                        return Err(Error::InvalidCharCount { specified, realized });
                    }
                },
                None => {},
            }
            match self.kerning_count {
                Some(specified) => {
                    let realized = self.kernings.len();
                    if specified as usize != realized {
                        return Err(Error::InvalidKerningCount { specified, realized });
                    }
                },
                None => {},
            }
        }
        let FontBuilder { mut proto, pages, chars, kernings, .. } = self;
        match proto.set_pages(None, pages) {
            Ok(()) => {},
            Err(e) => {
                return Err(e);
            },
        }
        match proto.set_chars(None, chars) {
            Ok(()) => {},
            Err(e) => {
                return Err(e);
            },
        }
        match proto.set_kernings(None, kernings) {
            Ok(()) => {},
            Err(e) => {
                return Err(e);
            },
        }
        proto.build(settings)
    }

    /// Supply the info block. At most one may be supplied.
    pub fn set_info(&mut self, line: Option<usize>, info: Info) -> (r: Result<(), Error>)
        ensures
            old(self)@.proto.info is Some ==> (r matches Err(e) && e
                matches Error::DuplicateInfoBlock { line: l } && l == line && final (self)@ == old(
                self,
            )@),
            old(self)@.proto.info is None ==> (r is Ok && final (self)@ == (BuilderV {
                proto: ProtoV { info: Some(info@), ..old(self)@.proto },
                ..old(self)@
            })),
    {
        self.proto.set_info(line, info)
    }

    /// Supply the common block. At most one may be supplied.
    pub fn set_common(&mut self, line: Option<usize>, common: Common) -> (r: Result<(), Error>)
        ensures
            old(self)@.proto.common is Some ==> (r matches Err(e) && e
                matches Error::DuplicateCommonBlock { line: l } && l == line && final (self)@
                == old(self)@),
            old(self)@.proto.common is None ==> (r is Ok && final (self)@ == (BuilderV {
                proto: ProtoV { common: Some(common), ..old(self)@.proto },
                ..old(self)@
            })),
    {
        self.proto.set_common(line, common)
    }

    /// Add a page. Its id must equal the number of pages already
    /// accumulated: pages arrive in ascending, gap-free order from zero.
    pub fn add_page(&mut self, page: Page) -> (r: Result<(), Error>)
        ensures
            page.id as int == old(self)@.pages.len() ==> (r is Ok && final (self)@ == (BuilderV {
                pages: old(self)@.pages + seq![page.file@],
                ..old(self)@
            })),
            page.id as int != old(self)@.pages.len() ==> (r matches Err(e) && e
                is BrokenPageList && final (self)@ == old(self)@),
    {
        let Page { id, file } = page;
        if id as usize == self.pages.len() {
            let ghost old_pages = self@.pages;
            self.pages.push(file);
            proof {
                assert(self@.pages =~= old_pages + seq![page.file@]);
            }
            Ok(())
        } else {
            Err(Error::BrokenPageList)
        }
    }

    /// Add a character description.
    pub fn add_char(&mut self, char_: Char) -> (r: Result<(), Error>)
        ensures
            r is Ok,
            final (self)@ == (BuilderV { chars: old(self)@.chars + seq![char_], ..old(self)@ }),
    {
        self.chars.push(char_);
        proof {
            assert(self@.chars =~= old(self)@.chars + seq![char_]);
        }
        Ok(())
    }

    /// Declare the character count. At most one declaration may be
    /// supplied; it reserves backing storage as an optimization hint.
    pub fn set_char_count(&mut self, line: Option<usize>, char_count: u32) -> (r: Result<
        (),
        Error,
    >)
        ensures
            old(self)@.char_count is Some ==> (r matches Err(e) && e
                matches Error::DuplicateCharCount { line: l } && l == line && final (self)@ == old(
                self,
            )@),
            old(self)@.char_count is None ==> (r is Ok && final (self)@ == (BuilderV {
                char_count: Some(char_count),
                ..old(self)@
            })),
    {
        if self.char_count.is_some() {
            Err(Error::DuplicateCharCount { line })
        } else {
            self.char_count = Some(char_count);
            if self.chars.len() < char_count as usize {
                let n = char_count as usize - self.chars.len();
                self.chars.reserve(n);
            }
            Ok(())
        }
    }

    /// Add a kerning pair.
    pub fn add_kerning(&mut self, kerning: Kerning) -> (r: Result<(), Error>)
        ensures
            r is Ok,
            final (self)@ == (BuilderV {
                kernings: old(self)@.kernings + seq![kerning],
                ..old(self)@
            }),
    {
        self.kernings.push(kerning);
        proof {
            assert(self@.kernings =~= old(self)@.kernings + seq![kerning]);
        }
        Ok(())
    }

    /// Declare the kerning pair count. At most one declaration may be
    /// supplied; it reserves backing storage as an optimization hint.
    pub fn set_kerning_count(&mut self, line: Option<usize>, kerning_count: u32) -> (r: Result<
        (),
        Error,
    >)
        ensures
            old(self)@.kerning_count is Some ==> (r matches Err(e) && e
                matches Error::DuplicateKerningCount { line: l } && l == line && final (self)@
                == old(self)@),
            old(self)@.kerning_count is None ==> (r is Ok && final (self)@ == (BuilderV {
                kerning_count: Some(kerning_count),
                ..old(self)@
            })),
    {
        if self.kerning_count.is_some() {
            Err(Error::DuplicateKerningCount { line })
        } else {
            self.kerning_count = Some(kerning_count);
            if self.kernings.len() < kerning_count as usize {
                let n = kerning_count as usize - self.kernings.len();
                self.kernings.reserve(n);
            }
            Ok(())
        }
    }
}

impl Default for FontBuilder {
    /// No blocks, pages, characters, kerning pairs or counts supplied yet.
    fn default() -> (r: Self)
        ensures
            r@.proto == (ProtoV {
                info: None,
                common: None,
                pages: None,
                chars: None,
                kernings: None,
            }),
            r@.pages == Seq::<Seq<char>>::empty(),
            r@.chars == Seq::<Char>::empty(),
            r@.char_count is None,
            r@.kernings == Seq::<Kerning>::empty(),
            r@.kerning_count is None,
    {
        let r = FontBuilder {
            proto: FontProto::default(),
            pages: Vec::new(),
            chars: Vec::new(),
            char_count: None,
            kernings: Vec::new(),
            kerning_count: None,
        };
        proof {
            assert(r@.pages =~= Seq::<Seq<char>>::empty());
        }
        r
    }
}

} // verus!
