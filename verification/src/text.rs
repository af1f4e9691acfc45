//! Text format operations.
//!
//! The text encoding is CRLF-terminated lines of `tag key=value ...`
//! attributes, one line per structural block, with quoted string values.

use vstd::prelude::*;

use crate::attributes::{avs, lemma_scan_attrs_bounds, scan_attrs, AttrsScan};
use crate::builder::{or_empty, spec_builder_build, BuildErr, BuilderV, FontBuilder, ProtoV};
use crate::charset::spec_charset_to_str;
use crate::error::Error;
use crate::font::{spec_packing_u8, Font, FontV, InfoV};
use crate::loader::{load_char, load_common, load_count, load_info, load_kerning, load_page,
    spec_load_char, spec_load_common, spec_load_count, spec_load_info, spec_load_kerning,
    spec_load_page, load_err_matches, LoadErr, PageV};
use crate::parse::ParseError;
use crate::render::{dec_rep, dec_rep_int, push_dec_i64, push_dec_u64};
use crate::settings::LoadSettings;
use crate::tagged_attributes::{scan_tag, ta_wf, TagScan, TaggedAttributes};
use crate::util::{read_all, string_from_utf8, write_all};
use vstd::utf8::{decode_utf8, encode_utf8, valid_utf8};

verus! {

/// The UTF-8 bytes of a literal piece of a text line.
pub open spec fn lit(s: Seq<char>) -> Seq<u8> {
    encode_utf8(s)
}

/// `n` space bytes.
pub open spec fn spaces(n: int) -> Seq<u8>
    decreases n,
{
    if n <= 0 {
        Seq::empty()
    } else {
        spaces(n - 1) + seq![0x20u8]
    }
}

/// A value padded with spaces on the right to a minimum width.
pub open spec fn pad(b: Seq<u8>, w: int) -> Seq<u8> {
    b + spaces(w - b.len())
}

/// The byte `1` or `0` of a boolean field.
pub open spec fn bool01(b: bool) -> Seq<u8> {
    if b {
        seq![0x31u8]
    } else {
        seq![0x30u8]
    }
}

/// The face, size, style and charset pieces of the `info` line.
#[verifier::opaque]
pub open spec fn info_line_a(i: InfoV) -> Seq<u8> {
    lit("info face=\""@) + encode_utf8(i.face) + lit("\" size="@) + dec_rep_int(i.size as int)
        + lit(" bold="@) + bool01(i.bold) + lit(" italic="@) + bool01(i.italic) + lit(
        " charset=\""@,
    ) + encode_utf8(spec_charset_to_str(i.charset)) + lit("\" unicode="@) + bool01(i.unicode)
        + lit(" stretchH="@) + dec_rep(i.stretch_h as nat) + lit(" smooth="@) + bool01(i.smooth)
        + lit(" aa="@) + dec_rep(i.aa as nat)
}

/// The padding, spacing and outline pieces of the `info` line.
#[verifier::opaque]
pub open spec fn info_line_b(i: InfoV) -> Seq<u8> {
    lit(" padding="@) + dec_rep(i.padding.up as nat) + seq![0x2cu8] + dec_rep(
        i.padding.right as nat,
    ) + seq![0x2cu8] + dec_rep(i.padding.down as nat) + seq![0x2cu8] + dec_rep(
        i.padding.left as nat,
    ) + lit(" spacing="@) + dec_rep(i.spacing.horizontal as nat) + seq![0x2cu8] + dec_rep(
        i.spacing.vertical as nat,
    ) + lit(" outline="@) + dec_rep(i.outline as nat) + lit("\r\n"@)
}

/// The `info` line of a font.
pub open spec fn info_line(i: InfoV) -> Seq<u8> {
    info_line_a(i) + info_line_b(i)
}

/// The metric pieces of the `common` line.
#[verifier::opaque]
pub open spec fn common_line_a(c: crate::font::Common) -> Seq<u8> {
    lit("common lineHeight="@) + dec_rep(c.line_height as nat) + lit(" base="@) + dec_rep(
        c.base as nat,
    ) + lit(" scaleW="@) + dec_rep(c.scale_w as nat) + lit(" scaleH="@) + dec_rep(c.scale_h as nat)
        + lit(" pages="@) + dec_rep(c.pages as nat) + lit(" packed="@) + bool01(c.packed)
}

/// The channel packing pieces of the `common` line.
#[verifier::opaque]
pub open spec fn common_line_b(c: crate::font::Common) -> Seq<u8> {
    lit(" alphaChnl="@) + dec_rep(spec_packing_u8(c.alpha_chnl) as nat) + lit(" redChnl="@)
        + dec_rep(spec_packing_u8(c.red_chnl) as nat) + lit(" greenChnl="@) + dec_rep(
        spec_packing_u8(c.green_chnl) as nat,
    ) + lit(" blueChnl="@) + dec_rep(spec_packing_u8(c.blue_chnl) as nat) + lit("\r\n"@)
}

/// The `common` line of a font.
pub open spec fn common_line(c: crate::font::Common) -> Seq<u8> {
    common_line_a(c) + common_line_b(c)
}

/// The `page` line of the page at index `id`.
#[verifier::opaque]
pub open spec fn page_line(id: int, file: Seq<char>) -> Seq<u8> {
    lit("page id="@) + dec_rep(id as nat) + lit(" file=\""@) + encode_utf8(file) + lit("\"\r\n"@)
}

/// The `page` lines of the pages from index `id` on.
pub open spec fn pages_lines(pages: Seq<Seq<char>>, id: int) -> Seq<u8>
    decreases pages.len(),
{
    if pages.len() == 0 {
        Seq::empty()
    } else {
        page_line(id, pages[0]) + pages_lines(pages.drop_first(), id + 1)
    }
}

/// The texture rectangle pieces of a `char` line.
#[verifier::opaque]
pub open spec fn char_line_a(c: crate::font::Char) -> Seq<u8> {
    lit("char id="@) + pad(dec_rep(c.id as nat), 4) + lit(" x="@) + pad(dec_rep(c.x as nat), 5)
        + lit(" y="@) + pad(dec_rep(c.y as nat), 5) + lit(" width="@) + pad(
        dec_rep(c.width as nat),
        5,
    ) + lit(" height="@) + pad(dec_rep(c.height as nat), 5)
}

/// The offset, advance, page and channel pieces of a `char` line.
#[verifier::opaque]
pub open spec fn char_line_b(c: crate::font::Char) -> Seq<u8> {
    lit(" xoffset="@) + pad(dec_rep_int(c.xoffset as int), 5) + lit(" yoffset="@) + pad(
        dec_rep_int(c.yoffset as int),
        5,
    ) + lit(" xadvance="@) + pad(dec_rep_int(c.xadvance as int), 5) + lit(" page="@) + pad(
        dec_rep(c.page as nat),
        2,
    ) + lit(" chnl="@) + pad(dec_rep(c.chnl.value() as nat), 2) + lit("\r\n"@)
}

/// The `char` line of one character, with its aligned column widths.
pub open spec fn char_line(c: crate::font::Char) -> Seq<u8> {
    char_line_a(c) + char_line_b(c)
}

/// The `char` lines of a character list.
pub open spec fn chars_lines(chars: Seq<crate::font::Char>) -> Seq<u8>
    decreases chars.len(),
{
    if chars.len() == 0 {
        Seq::empty()
    } else {
        char_line(chars[0]) + chars_lines(chars.drop_first())
    }
}

/// The `kerning` line of one kerning pair, with its aligned column widths.
#[verifier::opaque]
pub open spec fn kerning_line(k: crate::font::Kerning) -> Seq<u8> {
    lit("kerning first="@) + pad(dec_rep(k.first as nat), 3) + lit(" second="@) + pad(
        dec_rep(k.second as nat),
        3,
    ) + lit(" amount="@) + pad(dec_rep_int(k.amount as int), 4) + lit("\r\n"@)
}

/// The `kerning` lines of a kerning pair list.
pub open spec fn kernings_lines(ks: Seq<crate::font::Kerning>) -> Seq<u8>
    decreases ks.len(),
{
    if ks.len() == 0 {
        Seq::empty()
    } else {
        kerning_line(ks[0]) + kernings_lines(ks.drop_first())
    }
}

/// The whole text encoding of a font: the info and common lines, a page
/// line per page, the char count and char lines, and the kerning count and
/// kerning lines.
pub open spec fn text_font_bytes(f: FontV) -> Seq<u8> {
    info_line(f.info) + common_line(f.common) + pages_lines(f.pages, 0) + (lit("chars count="@)
        + dec_rep(f.chars.len() as nat) + lit("\r\n"@)) + chars_lines(f.chars) + (lit(
        "kernings count="@,
    ) + dec_rep(f.kernings.len() as nat) + lit("\r\n"@)) + kernings_lines(f.kernings)
}

/// Whether a string's UTF-8 encoding holds a byte the text encoding cannot
/// carry: an ASCII control character or a double quote.
pub open spec fn text_unsafe(s: Seq<char>) -> bool {
    exists|i: int|
        0 <= i < encode_utf8(s).len() && (crate::builder::is_ctl_byte(#[trigger] encode_utf8(s)[i])
            || encode_utf8(s)[i] == 0x22)
}

/// The spec-level identity of a text export error.
pub ghost enum TextExportErr {
    /// The face name cannot be carried.
    Face(Seq<char>),
    /// A page name cannot be carried.
    Page(Seq<char>),
}

/// Whether a crate error is the one a spec-level text export error
/// describes.
pub open spec fn text_export_err_matches(e: Error, te: TextExportErr) -> bool {
    match te {
        TextExportErr::Face(s) => e matches Error::UnsupportedValueEncoding { path, value }
            && path@ == "info face"@ && value@ == s,
        TextExportErr::Page(s) => e matches Error::UnsupportedValueEncoding { path, value }
            && path@ == "page id"@ && value@ == s,
    }
}

/// The index of the first page name the text encoding cannot carry, or the
/// page count if every name is fine.
pub open spec fn first_unsafe_page(pages: Seq<Seq<char>>) -> int
    decreases pages.len(),
{
    if pages.len() == 0 {
        0
    } else if text_unsafe(pages[0]) {
        0
    } else {
        1 + first_unsafe_page(pages.drop_first())
    }
}

pub proof fn lemma_first_unsafe_page(pages: Seq<Seq<char>>)
    ensures
        0 <= first_unsafe_page(pages) <= pages.len(),
        first_unsafe_page(pages) < pages.len() ==> text_unsafe(pages[first_unsafe_page(pages)]),
        forall|i: int| 0 <= i < first_unsafe_page(pages) ==> !text_unsafe(#[trigger] pages[i]),
    decreases pages.len(),
{
    if pages.len() > 0 && !text_unsafe(pages[0]) {
        lemma_first_unsafe_page(pages.drop_first());
        assert forall|i: int| 0 <= i < first_unsafe_page(pages) implies !text_unsafe(
            #[trigger] pages[i],
        ) by {
            if i > 0 {
                assert(pages.drop_first()[i - 1] == pages[i]);
            }
        }
    }
}

/// The first text export error of a font, if it has one: the face name is
/// checked first, then each page name in order.
pub open spec fn spec_text_export_check(f: FontV) -> Option<TextExportErr> {
    if text_unsafe(f.info.face) {
        Some(TextExportErr::Face(f.info.face))
    } else if first_unsafe_page(f.pages) < f.pages.len() {
        Some(TextExportErr::Page(f.pages[first_unsafe_page(f.pages)]))
    } else {
        None
    }
}

/// Whether a string is free of bytes the text encoding cannot carry.
fn check_text_value(value: &String) -> (r: bool)
    ensures
        r == !text_unsafe(value@),
{
    let bytes = value.as_str().as_bytes();
    let mut i: usize = 0;
    while i < bytes.len()
        invariant
            0 <= i <= bytes@.len(),
            bytes@ == encode_utf8(value@),
            forall|j: int|
                0 <= j < i ==> !(crate::builder::is_ctl_byte(#[trigger] bytes@[j]) || bytes@[j]
                    == 0x22),
        decreases bytes@.len() - i,
    {
        let b = bytes[i];
        if b <= 0x1f || b == 0x7f || b == 0x22 {
            return false;
        }
        i = i + 1;
    }
    true
}

/// Append a literal piece.
pub(crate) fn push_lit(out: &mut Vec<u8>, s: &str)
    ensures
        final (out)@ == old(out)@ + lit(s@),
{
    let ghost o = out@;
    out.extend_from_slice(s.as_bytes());
    proof {
        assert(out@ =~= o + lit(s@));
    }
}

/// Append a decimal value padded with spaces on the right to `w` columns.
fn push_padded_u64(out: &mut Vec<u8>, n: u64, w: usize)
    ensures
        final (out)@ == old(out)@ + pad(dec_rep(n as nat), w as int),
{
    let ghost o = out@;
    let before = out.len();
    push_dec_u64(out, n);
    let after = out.len();
    let ghost d = dec_rep(n as nat);
    let mut k: usize = after - before;
    proof {
        assert(out@ =~= o + d + spaces(0));
    }
    while k < w
        invariant
            d.len() <= k,
            k <= w || k == d.len(),
            out@ == o + d + spaces(k - d.len()),
        decreases w - k,
    {
        out.push(0x20);
        proof {
            assert(out@ =~= o + d + spaces(k + 1 - d.len()));
        }
        k = k + 1;
    }
    proof {
        assert(spaces(k - d.len()) == spaces(w - d.len()));
        assert(out@ =~= o + pad(d, w as int));
    }
}

/// Append a signed decimal value padded with spaces on the right to `w`
/// columns.
fn push_padded_i64(out: &mut Vec<u8>, n: i64, w: usize)
    requires
        n > i64::MIN,
    ensures
        final (out)@ == old(out)@ + pad(dec_rep_int(n as int), w as int),
{
    let ghost o = out@;
    let before = out.len();
    push_dec_i64(out, n);
    let after = out.len();
    let ghost d = dec_rep_int(n as int);
    let mut k: usize = after - before;
    proof {
        assert(out@ =~= o + d + spaces(0));
    }
    while k < w
        invariant
            d.len() <= k,
            k <= w || k == d.len(),
            out@ == o + d + spaces(k - d.len()),
        decreases w - k,
    {
        out.push(0x20);
        proof {
            assert(out@ =~= o + d + spaces(k + 1 - d.len()));
        }
        k = k + 1;
    }
    proof {
        assert(spaces(k - d.len()) == spaces(w - d.len()));
        assert(out@ =~= o + pad(d, w as int));
    }
}

/// Append the byte `1` or `0` of a boolean field.
pub(crate) fn push_bool(out: &mut Vec<u8>, b: bool)
    ensures
        final (out)@ == old(out)@ + bool01(b),
{
    let ghost o = out@;
    if b {
        out.push(0x31);
    } else {
        out.push(0x30);
    }
    proof {
        assert(out@ =~= o + bool01(b));
    }
}

/// Append a string's UTF-8 bytes.
pub(crate) fn push_string(out: &mut Vec<u8>, s: &String)
    ensures
        final (out)@ == old(out)@ + encode_utf8(s@),
{
    let ghost o = out@;
    out.extend_from_slice(s.as_str().as_bytes());
    proof {
        assert(out@ =~= o + encode_utf8(s@));
    }
}

/// Emit the `info` line.
#[verifier::spinoff_prover]
#[verifier::rlimit(100)]
fn emit_info(out: &mut Vec<u8>, info: &crate::font::Info)
    ensures
        final (out)@ == old(out)@ + info_line(info@),
{
    push_lit(out, "info face=\"");
    push_string(out, &info.face);
    push_lit(out, "\" size=");
    push_dec_i64(out, info.size as i64);
    push_lit(out, " bold=");
    push_bool(out, info.bold);
    push_lit(out, " italic=");
    push_bool(out, info.italic);
    push_lit(out, " charset=\"");
    let cs = info.charset.to_string();
    push_string(out, &cs);
    push_lit(out, "\" unicode=");
    push_bool(out, info.unicode);
    push_lit(out, " stretchH=");
    push_dec_u64(out, info.stretch_h as u64);
    push_lit(out, " smooth=");
    push_bool(out, info.smooth);
    push_lit(out, " aa=");
    push_dec_u64(out, info.aa as u64);
    proof {
        reveal(info_line_a);
        assert(out@ =~= old(out)@ + info_line_a(info@));
    }
    let ghost mid = out@;
    push_lit(out, " padding=");
    push_dec_u64(out, info.padding.up as u64);
    out.push(0x2c);
    push_dec_u64(out, info.padding.right as u64);
    out.push(0x2c);
    push_dec_u64(out, info.padding.down as u64);
    out.push(0x2c);
    push_dec_u64(out, info.padding.left as u64);
    push_lit(out, " spacing=");
    push_dec_u64(out, info.spacing.horizontal as u64);
    out.push(0x2c);
    push_dec_u64(out, info.spacing.vertical as u64);
    push_lit(out, " outline=");
    push_dec_u64(out, info.outline as u64);
    push_lit(out, "\r\n");
    proof {
        reveal(info_line_b);
        assert(out@ =~= mid + info_line_b(info@));
        seq_assoc(old(out)@, info_line_a(info@), info_line_b(info@));
    }
}

/// Emit the `common` line.
#[verifier::spinoff_prover]
#[verifier::rlimit(100)]
fn emit_common(out: &mut Vec<u8>, c: &crate::font::Common)
    ensures
        final (out)@ == old(out)@ + common_line(*c),
{
    push_lit(out, "common lineHeight=");
    push_dec_u64(out, c.line_height as u64);
    push_lit(out, " base=");
    push_dec_u64(out, c.base as u64);
    push_lit(out, " scaleW=");
    push_dec_u64(out, c.scale_w as u64);
    push_lit(out, " scaleH=");
    push_dec_u64(out, c.scale_h as u64);
    push_lit(out, " pages=");
    push_dec_u64(out, c.pages as u64);
    push_lit(out, " packed=");
    push_bool(out, c.packed);
    proof {
        reveal(common_line_a);
        assert(out@ =~= old(out)@ + common_line_a(*c));
    }
    let ghost mid = out@;
    push_lit(out, " alphaChnl=");
    push_dec_u64(out, c.alpha_chnl.to_u8() as u64);
    push_lit(out, " redChnl=");
    push_dec_u64(out, c.red_chnl.to_u8() as u64);
    push_lit(out, " greenChnl=");
    push_dec_u64(out, c.green_chnl.to_u8() as u64);
    push_lit(out, " blueChnl=");
    push_dec_u64(out, c.blue_chnl.to_u8() as u64);
    push_lit(out, "\r\n");
    proof {
        reveal(common_line_b);
        assert(out@ =~= mid + common_line_b(*c));
        seq_assoc(old(out)@, common_line_a(*c), common_line_b(*c));
    }
}

/// Emit one `char` line.
#[verifier::spinoff_prover]
#[verifier::rlimit(100)]
fn emit_char(out: &mut Vec<u8>, c: &crate::font::Char)
    ensures
        final (out)@ == old(out)@ + char_line(*c),
{
    push_lit(out, "char id=");
    push_padded_u64(out, c.id as u64, 4);
    push_lit(out, " x=");
    push_padded_u64(out, c.x as u64, 5);
    push_lit(out, " y=");
    push_padded_u64(out, c.y as u64, 5);
    push_lit(out, " width=");
    push_padded_u64(out, c.width as u64, 5);
    push_lit(out, " height=");
    push_padded_u64(out, c.height as u64, 5);
    proof {
        reveal(char_line_a);
        assert(out@ =~= old(out)@ + char_line_a(*c));
    }
    let ghost mid = out@;
    push_lit(out, " xoffset=");
    push_padded_i64(out, c.xoffset as i64, 5);
    push_lit(out, " yoffset=");
    push_padded_i64(out, c.yoffset as i64, 5);
    push_lit(out, " xadvance=");
    push_padded_i64(out, c.xadvance as i64, 5);
    push_lit(out, " page=");
    push_padded_u64(out, c.page as u64, 2);
    push_lit(out, " chnl=");
    push_padded_u64(out, c.chnl.to_u8() as u64, 2);
    push_lit(out, "\r\n");
    proof {
        reveal(char_line_b);
        assert(out@ =~= mid + char_line_b(*c));
        seq_assoc(old(out)@, char_line_a(*c), char_line_b(*c));
    }
}

/// Emit one `kerning` line.
#[verifier::spinoff_prover]
#[verifier::rlimit(100)]
fn emit_kerning(out: &mut Vec<u8>, k: &crate::font::Kerning)
    ensures
        final (out)@ == old(out)@ + kerning_line(*k),
{
    push_lit(out, "kerning first=");
    push_padded_u64(out, k.first as u64, 3);
    push_lit(out, " second=");
    push_padded_u64(out, k.second as u64, 3);
    push_lit(out, " amount=");
    push_padded_i64(out, k.amount as i64, 4);
    push_lit(out, "\r\n");
    proof {
        reveal(kerning_line);
        assert(out@ =~= old(out)@ + kerning_line(*k));
    }
}

/// Sequence concatenation is associative.
pub(crate) proof fn seq_assoc<T>(a: Seq<T>, b: Seq<T>, c: Seq<T>)
    ensures
        a + (b + c) == (a + b) + c,
{
    assert(a + (b + c) =~= (a + b) + c);
}

/// The lines of a single page.
proof fn lemma_page_line_one(x: Seq<char>, id: int)
    ensures
        pages_lines(seq![x], id) == page_line(id, x),
{
    assert(seq![x].drop_first() =~= Seq::<Seq<char>>::empty());
    assert(pages_lines(Seq::<Seq<char>>::empty(), id + 1) == Seq::<u8>::empty());
    assert(page_line(id, x) + Seq::<u8>::empty() =~= page_line(id, x));
}

/// The lines of a single character.
proof fn lemma_char_line_one(x: crate::font::Char)
    ensures
        chars_lines(seq![x]) == char_line(x),
{
    assert(seq![x].drop_first() =~= Seq::<crate::font::Char>::empty());
    assert(chars_lines(Seq::<crate::font::Char>::empty()) == Seq::<u8>::empty());
    assert(char_line(x) + Seq::<u8>::empty() =~= char_line(x));
}

/// The lines of a single kerning pair.
proof fn lemma_kerning_line_one(x: crate::font::Kerning)
    ensures
        kernings_lines(seq![x]) == kerning_line(x),
{
    assert(seq![x].drop_first() =~= Seq::<crate::font::Kerning>::empty());
    assert(kernings_lines(Seq::<crate::font::Kerning>::empty()) == Seq::<u8>::empty());
    assert(kerning_line(x) + Seq::<u8>::empty() =~= kerning_line(x));
}

/// Splitting a page list splits its lines.
proof fn lemma_pages_lines_concat(a: Seq<Seq<char>>, b: Seq<Seq<char>>, id: int)
    ensures
        pages_lines(a + b, id) == pages_lines(a, id) + pages_lines(b, id + a.len()),
    decreases a.len(),
{
    if a.len() == 0 {
        assert(a + b =~= b);
        assert(pages_lines(a, id) + pages_lines(b, id) =~= pages_lines(b, id));
    } else {
        lemma_pages_lines_concat(a.drop_first(), b, id + 1);
        assert((a + b).drop_first() =~= a.drop_first() + b);
        assert((a + b)[0] == a[0]);
        seq_assoc(
            page_line(id, a[0]),
            pages_lines(a.drop_first(), id + 1),
            pages_lines(b, id + a.len()),
        );
    }
}

/// Splitting a character list splits its lines.
proof fn lemma_chars_lines_concat(a: Seq<crate::font::Char>, b: Seq<crate::font::Char>)
    ensures
        chars_lines(a + b) == chars_lines(a) + chars_lines(b),
    decreases a.len(),
{
    if a.len() == 0 {
        assert(a + b =~= b);
        assert(chars_lines(a) + chars_lines(b) =~= chars_lines(b));
    } else {
        lemma_chars_lines_concat(a.drop_first(), b);
        assert((a + b).drop_first() =~= a.drop_first() + b);
        assert((a + b)[0] == a[0]);
        seq_assoc(char_line(a[0]), chars_lines(a.drop_first()), chars_lines(b));
    }
}

/// Splitting a kerning list splits its lines.
proof fn lemma_kernings_lines_concat(a: Seq<crate::font::Kerning>, b: Seq<crate::font::Kerning>)
    ensures
        kernings_lines(a + b) == kernings_lines(a) + kernings_lines(b),
    decreases a.len(),
{
    if a.len() == 0 {
        assert(a + b =~= b);
        assert(kernings_lines(a) + kernings_lines(b) =~= kernings_lines(b));
    } else {
        lemma_kernings_lines_concat(a.drop_first(), b);
        assert((a + b).drop_first() =~= a.drop_first() + b);
        assert((a + b)[0] == a[0]);
        seq_assoc(kerning_line(a[0]), kernings_lines(a.drop_first()), kernings_lines(b));
    }
}

/// Store a font into a byte vector in text format.
///
/// The face name and the page names may hold neither ASCII control
/// characters nor double quotes.
#[verifier::spinoff_prover]
#[verifier::rlimit(100)]
pub fn to_vec(font: &Font) -> (r: Result<Vec<u8>, Error>)
    ensures
        (r is Ok <==> spec_text_export_check(font@) is None),
        r matches Ok(v) ==> v@ == text_font_bytes(font@),
        r matches Err(e) ==> (spec_text_export_check(font@) matches Some(te)
            && text_export_err_matches(e, te)),
{
    let ghost pv = font@.pages;
    if !check_text_value(&font.info.face) {
        return Err(
            Error::UnsupportedValueEncoding {
                path: "info face".to_owned(),
                value: font.info.face.clone(),
            },
        );
    }
    let mut out: Vec<u8> = Vec::new();
    emit_info(&mut out, &font.info);
    emit_common(&mut out, &font.common);
    let ghost o1 = out@;
    let mut i: usize = 0;
    proof {
        assert(pv.take(0) =~= Seq::<Seq<char>>::empty());
        assert(o1 + pages_lines(pv.take(0), 0) =~= o1);
    }
    while i < font.pages.len()
        invariant
            0 <= i <= pv.len(),
            pv == font@.pages,
            pv.len() == font.pages@.len(),
            out@ == o1 + pages_lines(pv.take(i as int), 0),
            forall|j: int| 0 <= j < i ==> !text_unsafe(#[trigger] pv[j]),
            !text_unsafe(font@.info.face),
        decreases pv.len() - i,
    {
        assert(pv[i as int] == font.pages@[i as int]@);
        let page = &font.pages[i];
        if !check_text_value(page) {
            proof {
                lemma_first_unsafe_page(pv);
                assert(first_unsafe_page(pv) == i);
            }
            return Err(
                Error::UnsupportedValueEncoding {
                    path: "page id".to_owned(),
                    value: page.clone(),
                },
            );
        }
        push_lit(&mut out, "page id=");
        push_dec_u64(&mut out, i as u64);
        push_lit(&mut out, " file=\"");
        push_string(&mut out, page);
        push_lit(&mut out, "\"\r\n");
        proof {
            reveal(page_line);
            lemma_pages_lines_concat(pv.take(i as int), seq![pv[i as int]], 0);
            assert(pv.take(i + 1) =~= pv.take(i as int) + seq![pv[i as int]]);
            lemma_page_line_one(pv[i as int], i as int);
            assert(out@ =~= o1 + pages_lines(pv.take(i + 1), 0));
        }
        i = i + 1;
    }
    proof {
        lemma_first_unsafe_page(pv);
        assert(first_unsafe_page(pv) == pv.len()) by {
            if first_unsafe_page(pv) < pv.len() {
                assert(!text_unsafe(pv[first_unsafe_page(pv)]));
            }
        }
        assert(pv.take(i as int) =~= pv);
    }
    push_lit(&mut out, "chars count=");
    push_dec_u64(&mut out, font.chars.len() as u64);
    push_lit(&mut out, "\r\n");
    let ghost o2 = out@;
    let mut i: usize = 0;
    proof {
        assert(font@.chars.take(0) =~= Seq::<crate::font::Char>::empty());
        assert(o2 + chars_lines(font@.chars.take(0)) =~= o2);
    }
    while i < font.chars.len()
        invariant
            0 <= i <= font@.chars.len(),
            out@ == o2 + chars_lines(font@.chars.take(i as int)),
        decreases font@.chars.len() - i,
    {
        emit_char(&mut out, &font.chars[i]);
        proof {
            lemma_chars_lines_concat(font@.chars.take(i as int), seq![font@.chars[i as int]]);
            assert(font@.chars.take(i + 1) =~= font@.chars.take(i as int) + seq![
                font@.chars[i as int],
            ]);
            lemma_char_line_one(font@.chars[i as int]);
            assert(out@ =~= o2 + chars_lines(font@.chars.take(i + 1)));
        }
        i = i + 1;
    }
    proof {
        assert(font@.chars.take(i as int) =~= font@.chars);
    }
    push_lit(&mut out, "kernings count=");
    push_dec_u64(&mut out, font.kernings.len() as u64);
    push_lit(&mut out, "\r\n");
    let ghost o3 = out@;
    let mut i: usize = 0;
    proof {
        assert(font@.kernings.take(0) =~= Seq::<crate::font::Kerning>::empty());
        assert(o3 + kernings_lines(font@.kernings.take(0)) =~= o3);
    }
    while i < font.kernings.len()
        invariant
            0 <= i <= font@.kernings.len(),
            out@ == o3 + kernings_lines(font@.kernings.take(i as int)),
        decreases font@.kernings.len() - i,
    {
        emit_kerning(&mut out, &font.kernings[i]);
        proof {
            lemma_kernings_lines_concat(
                font@.kernings.take(i as int),
                seq![font@.kernings[i as int]],
            );
            assert(font@.kernings.take(i + 1) =~= font@.kernings.take(i as int) + seq![
                font@.kernings[i as int],
            ]);
            lemma_kerning_line_one(font@.kernings[i as int]);
            assert(out@ =~= o3 + kernings_lines(font@.kernings.take(i + 1)));
        }
        i = i + 1;
    }
    proof {
        assert(font@.kernings.take(i as int) =~= font@.kernings);
        assert(out@ =~= text_font_bytes(font@));
    }
    Ok(out)
}

/// Concatenating valid UTF-8 strings gives a valid UTF-8 string.
pub broadcast proof fn lemma_vu_concat(b1: Seq<u8>, b2: Seq<u8>)
    requires
        valid_utf8(b1),
        valid_utf8(b2),
    ensures
        #[trigger] valid_utf8(b1 + b2),
{
    vstd::utf8::valid_utf8_concat(b1, b2);
}

/// `n` space bytes are valid UTF-8.
proof fn lemma_spaces_utf8(n: int)
    ensures
        valid_utf8(spaces(n)),
    decreases n,
{
    if n <= 0 {
        assert(valid_utf8(Seq::<u8>::empty()));
    } else {
        lemma_spaces_utf8(n - 1);
        crate::render::lemma_ascii_char_bytes(' ');
        assert(seq![0x20u8] =~= seq![' ' as u8]);
        vstd::utf8::valid_utf8_concat(spaces(n - 1), seq![0x20u8]);
    }
}

/// A padded valid UTF-8 value stays valid UTF-8.
proof fn lemma_pad_utf8(b: Seq<u8>, w: int)
    requires
        valid_utf8(b),
    ensures
        valid_utf8(pad(b, w)),
{
    lemma_spaces_utf8(w - b.len());
    vstd::utf8::valid_utf8_concat(b, spaces(w - b.len()));
}

/// The boolean byte is valid UTF-8.
proof fn lemma_bool01_utf8(b: bool)
    ensures
        valid_utf8(bool01(b)),
{
    crate::render::lemma_ascii_char_bytes('0');
    crate::render::lemma_ascii_char_bytes('1');
    assert(seq![0x30u8] =~= seq!['0' as u8]);
    assert(seq![0x31u8] =~= seq!['1' as u8]);
}

/// The `info` line is valid UTF-8.
#[verifier::spinoff_prover]
#[verifier::rlimit(100)]
proof fn lemma_info_line_utf8(i: InfoV)
    ensures
        valid_utf8(info_line(i)),
{
    reveal(info_line_a);
    reveal(info_line_b);
    broadcast use lemma_vu_concat;
    broadcast use vstd::utf8::encode_utf8_valid_utf8;

    crate::render::lemma_dec_rep_int_utf8(i.size as int);
    lemma_bool01_utf8(i.bold);
    lemma_bool01_utf8(i.italic);
    lemma_bool01_utf8(i.unicode);
    lemma_bool01_utf8(i.smooth);
    crate::render::lemma_dec_rep_utf8(i.stretch_h as nat);
    crate::render::lemma_dec_rep_utf8(i.aa as nat);
    crate::render::lemma_dec_rep_utf8(i.padding.up as nat);
    crate::render::lemma_dec_rep_utf8(i.padding.right as nat);
    crate::render::lemma_dec_rep_utf8(i.padding.down as nat);
    crate::render::lemma_dec_rep_utf8(i.padding.left as nat);
    crate::render::lemma_dec_rep_utf8(i.spacing.horizontal as nat);
    crate::render::lemma_dec_rep_utf8(i.spacing.vertical as nat);
    crate::render::lemma_dec_rep_utf8(i.outline as nat);
    crate::render::lemma_ascii_char_bytes(',');
    assert(seq![0x2cu8] =~= seq![',' as u8]);
    assert(valid_utf8(info_line_a(i)));
    assert(valid_utf8(info_line_b(i)));
}

/// The `common` line is valid UTF-8.
#[verifier::spinoff_prover]
#[verifier::rlimit(100)]
proof fn lemma_common_line_utf8(c: crate::font::Common)
    ensures
        valid_utf8(common_line(c)),
{
    reveal(common_line_a);
    reveal(common_line_b);
    broadcast use lemma_vu_concat;
    broadcast use vstd::utf8::encode_utf8_valid_utf8;

    crate::render::lemma_dec_rep_utf8(c.line_height as nat);
    crate::render::lemma_dec_rep_utf8(c.base as nat);
    crate::render::lemma_dec_rep_utf8(c.scale_w as nat);
    crate::render::lemma_dec_rep_utf8(c.scale_h as nat);
    crate::render::lemma_dec_rep_utf8(c.pages as nat);
    lemma_bool01_utf8(c.packed);
    crate::render::lemma_dec_rep_utf8(spec_packing_u8(c.alpha_chnl) as nat);
    crate::render::lemma_dec_rep_utf8(spec_packing_u8(c.red_chnl) as nat);
    crate::render::lemma_dec_rep_utf8(spec_packing_u8(c.green_chnl) as nat);
    crate::render::lemma_dec_rep_utf8(spec_packing_u8(c.blue_chnl) as nat);
    assert(valid_utf8(common_line_a(c)));
    assert(valid_utf8(common_line_b(c)));
}

/// The `page` lines are valid UTF-8.
proof fn lemma_pages_lines_utf8(pages: Seq<Seq<char>>, id: int)
    ensures
        valid_utf8(pages_lines(pages, id)),
    decreases pages.len(),
{
    broadcast use lemma_vu_concat;
    broadcast use vstd::utf8::encode_utf8_valid_utf8;

    if pages.len() == 0 {
        assert(valid_utf8(Seq::<u8>::empty()));
    } else {
        reveal(page_line);
        crate::render::lemma_dec_rep_utf8(id as nat);
        assert(valid_utf8(page_line(id, pages[0])));
        lemma_pages_lines_utf8(pages.drop_first(), id + 1);
    }
}

/// A `char` line is valid UTF-8.
#[verifier::spinoff_prover]
#[verifier::rlimit(100)]
proof fn lemma_char_line_utf8(c: crate::font::Char)
    ensures
        valid_utf8(char_line(c)),
{
    reveal(char_line_a);
    reveal(char_line_b);
    broadcast use lemma_vu_concat;
    broadcast use vstd::utf8::encode_utf8_valid_utf8;

    crate::render::lemma_dec_rep_utf8(c.id as nat);
    crate::render::lemma_dec_rep_utf8(c.x as nat);
    crate::render::lemma_dec_rep_utf8(c.y as nat);
    crate::render::lemma_dec_rep_utf8(c.width as nat);
    crate::render::lemma_dec_rep_utf8(c.height as nat);
    crate::render::lemma_dec_rep_int_utf8(c.xoffset as int);
    crate::render::lemma_dec_rep_int_utf8(c.yoffset as int);
    crate::render::lemma_dec_rep_int_utf8(c.xadvance as int);
    crate::render::lemma_dec_rep_utf8(c.page as nat);
    crate::render::lemma_dec_rep_utf8(c.chnl.value() as nat);
    lemma_pad_utf8(dec_rep(c.id as nat), 4);
    lemma_pad_utf8(dec_rep(c.x as nat), 5);
    lemma_pad_utf8(dec_rep(c.y as nat), 5);
    lemma_pad_utf8(dec_rep(c.width as nat), 5);
    lemma_pad_utf8(dec_rep(c.height as nat), 5);
    lemma_pad_utf8(dec_rep_int(c.xoffset as int), 5);
    lemma_pad_utf8(dec_rep_int(c.yoffset as int), 5);
    lemma_pad_utf8(dec_rep_int(c.xadvance as int), 5);
    lemma_pad_utf8(dec_rep(c.page as nat), 2);
    lemma_pad_utf8(dec_rep(c.chnl.value() as nat), 2);
    assert(valid_utf8(char_line_a(c)));
    assert(valid_utf8(char_line_b(c)));
}

/// The `char` lines are valid UTF-8.
proof fn lemma_chars_lines_utf8(chars: Seq<crate::font::Char>)
    ensures
        valid_utf8(chars_lines(chars)),
    decreases chars.len(),
{
    broadcast use lemma_vu_concat;

    if chars.len() == 0 {
        assert(valid_utf8(Seq::<u8>::empty()));
    } else {
        lemma_char_line_utf8(chars[0]);
        lemma_chars_lines_utf8(chars.drop_first());
    }
}

/// A `kerning` line is valid UTF-8.
proof fn lemma_kerning_line_utf8(k: crate::font::Kerning)
    ensures
        valid_utf8(kerning_line(k)),
{
    reveal(kerning_line);
    broadcast use lemma_vu_concat;
    broadcast use vstd::utf8::encode_utf8_valid_utf8;

    crate::render::lemma_dec_rep_utf8(k.first as nat);
    crate::render::lemma_dec_rep_utf8(k.second as nat);
    crate::render::lemma_dec_rep_int_utf8(k.amount as int);
    lemma_pad_utf8(dec_rep(k.first as nat), 3);
    lemma_pad_utf8(dec_rep(k.second as nat), 3);
    lemma_pad_utf8(dec_rep_int(k.amount as int), 4);
}

/// The `kerning` lines are valid UTF-8.
proof fn lemma_kernings_lines_utf8(ks: Seq<crate::font::Kerning>)
    ensures
        valid_utf8(kernings_lines(ks)),
    decreases ks.len(),
{
    broadcast use lemma_vu_concat;

    if ks.len() == 0 {
        assert(valid_utf8(Seq::<u8>::empty()));
    } else {
        lemma_kerning_line_utf8(ks[0]);
        lemma_kernings_lines_utf8(ks.drop_first());
    }
}

/// The whole text encoding of any font is valid UTF-8.
pub proof fn lemma_text_font_bytes_utf8(f: FontV)
    ensures
        valid_utf8(text_font_bytes(f)),
{
    broadcast use lemma_vu_concat;
    broadcast use vstd::utf8::encode_utf8_valid_utf8;

    lemma_info_line_utf8(f.info);
    lemma_common_line_utf8(f.common);
    lemma_pages_lines_utf8(f.pages, 0);
    lemma_chars_lines_utf8(f.chars);
    lemma_kernings_lines_utf8(f.kernings);
    crate::render::lemma_dec_rep_utf8(f.chars.len() as nat);
    crate::render::lemma_dec_rep_utf8(f.kernings.len() as nat);
}

/// Store a font into a string in text format.
pub fn to_string(font: &Font) -> (r: Result<String, Error>)
    ensures
        (r is Ok <==> spec_text_export_check(font@) is None),
        r matches Ok(s) ==> s@ == decode_utf8(text_font_bytes(font@)),
        r matches Err(e) ==> (spec_text_export_check(font@) matches Some(te)
            && text_export_err_matches(e, te)),
{
    let vec = match to_vec(font) {
        Ok(v) => v,
        Err(e) => {
            return Err(e);
        },
    };
    proof {
        lemma_text_font_bytes_utf8(font@);
    }
    match string_from_utf8(vec) {
        Some(s) => Ok(s),
        None => {
            proof {
                assert(false);
            }
            Err(
                Error::Parse {
                    line: None,
                    entity: "font".to_owned(),
                    err: ParseError::InvalidUtf8,
                },
            )
        },
    }
}

/// The spec-level identity of a text decode error.
pub ghost enum TextErr {
    /// A tokenizer error while scanning for a tag, and its line.
    TagTok(crate::tagged_attributes::Error, nat),
    /// A tokenizer error while scanning a line's attributes, and its line.
    AttrTok(crate::tagged_attributes::Error, nat),
    /// An attribute loading error.
    Load(LoadErr),
    /// A second info block, and its line.
    DupInfo(nat),
    /// A second common block, and its line.
    DupCommon(nat),
    /// A second chars count, and its line.
    DupCharCount(nat),
    /// A second kernings count, and its line.
    DupKerningCount(nat),
    /// A page id out of ascending, gap-free order.
    BrokenPages,
    /// An unrecognized tag, and its line.
    BadTag(Seq<char>, nat),
    /// An unrecognized tag that is not valid UTF-8, and its line.
    TagUtf8(nat),
}

/// Whether a crate error is the one a spec-level text decode error
/// describes.
pub open spec fn text_err_matches(e: Error, te: TextErr) -> bool {
    match te {
        TextErr::TagTok(t, l) => e matches Error::Parse { line, entity, err } && line == Some(
            l as usize,
        ) && entity@ == "tag"@ && err == ParseError::Token(t),
        TextErr::AttrTok(t, l) => e matches Error::Parse { line, entity, err } && line == Some(
            l as usize,
        ) && entity@ == "attribute"@ && err == ParseError::Token(t),
        TextErr::Load(le) => load_err_matches(e, le),
        TextErr::DupInfo(l) => e matches Error::DuplicateInfoBlock { line } && line == Some(
            l as usize,
        ),
        TextErr::DupCommon(l) => e matches Error::DuplicateCommonBlock { line } && line == Some(
            l as usize,
        ),
        TextErr::DupCharCount(l) => e matches Error::DuplicateCharCount { line } && line == Some(
            l as usize,
        ),
        TextErr::DupKerningCount(l) => e matches Error::DuplicateKerningCount { line } && line
            == Some(l as usize),
        TextErr::BrokenPages => e is BrokenPageList,
        TextErr::BadTag(t, l) => e matches Error::InvalidTag { line, tag } && line == Some(
            l as usize,
        ) && tag@ == t,
        TextErr::TagUtf8(l) => e matches Error::Parse { line, entity, err } && line == Some(
            l as usize,
        ) && entity@ == "tag"@ && err == ParseError::InvalidUtf8,
    }
}

/// Process one tag of line `l`: collect the line's attributes from `idx`,
/// load them as the block the tag names, and feed the block to the builder.
/// An unrecognized tag is fatal, or skipped whole when `ignore` is set.
pub open spec fn spec_text_step(
    s: Seq<u8>,
    tag: Seq<u8>,
    l: nat,
    idx: int,
    b: BuilderV,
    ignore: bool,
) -> Result<(BuilderV, int), TextErr> {
    if tag == lit("info"@) {
        match scan_attrs(s, idx, l) {
            AttrsScan::Fail(t) => Err(TextErr::AttrTok(t, l)),
            AttrsScan::Done(al, idx2) => match spec_load_info(al) {
                Err(le) => Err(TextErr::Load(le)),
                Ok(iv) => if b.proto.info is Some {
                    Err(TextErr::DupInfo(l))
                } else {
                    Ok((BuilderV { proto: ProtoV { info: Some(iv), ..b.proto }, ..b }, idx2))
                },
            },
        }
    } else if tag == lit("common"@) {
        match scan_attrs(s, idx, l) {
            AttrsScan::Fail(t) => Err(TextErr::AttrTok(t, l)),
            AttrsScan::Done(al, idx2) => match spec_load_common(al) {
                Err(le) => Err(TextErr::Load(le)),
                Ok(cv) => if b.proto.common is Some {
                    Err(TextErr::DupCommon(l))
                } else {
                    Ok((BuilderV { proto: ProtoV { common: Some(cv), ..b.proto }, ..b }, idx2))
                },
            },
        }
    } else if tag == lit("page"@) {
        match scan_attrs(s, idx, l) {
            AttrsScan::Fail(t) => Err(TextErr::AttrTok(t, l)),
            AttrsScan::Done(al, idx2) => match spec_load_page(al) {
                Err(le) => Err(TextErr::Load(le)),
                Ok(pv) => if pv.id as int == b.pages.len() {
                    Ok((BuilderV { pages: b.pages + seq![pv.file], ..b }, idx2))
                } else {
                    Err(TextErr::BrokenPages)
                },
            },
        }
    } else if tag == lit("chars"@) {
        match scan_attrs(s, idx, l) {
            AttrsScan::Fail(t) => Err(TextErr::AttrTok(t, l)),
            AttrsScan::Done(al, idx2) => match spec_load_count(al) {
                Err(le) => Err(TextErr::Load(le)),
                Ok(c) => if b.char_count is Some {
                    Err(TextErr::DupCharCount(l))
                } else {
                    Ok((BuilderV { char_count: Some(c.count), ..b }, idx2))
                },
            },
        }
    } else if tag == lit("char"@) {
        match scan_attrs(s, idx, l) {
            AttrsScan::Fail(t) => Err(TextErr::AttrTok(t, l)),
            AttrsScan::Done(al, idx2) => match spec_load_char(al) {
                Err(le) => Err(TextErr::Load(le)),
                Ok(cv) => Ok((BuilderV { chars: b.chars + seq![cv], ..b }, idx2)),
            },
        }
    } else if tag == lit("kernings"@) {
        match scan_attrs(s, idx, l) {
            AttrsScan::Fail(t) => Err(TextErr::AttrTok(t, l)),
            AttrsScan::Done(al, idx2) => match spec_load_count(al) {
                Err(le) => Err(TextErr::Load(le)),
                Ok(c) => if b.kerning_count is Some {
                    Err(TextErr::DupKerningCount(l))
                } else {
                    Ok((BuilderV { kerning_count: Some(c.count), ..b }, idx2))
                },
            },
        }
    } else if tag == lit("kerning"@) {
        match scan_attrs(s, idx, l) {
            AttrsScan::Fail(t) => Err(TextErr::AttrTok(t, l)),
            AttrsScan::Done(al, idx2) => match spec_load_kerning(al) {
                Err(le) => Err(TextErr::Load(le)),
                Ok(kv) => Ok((BuilderV { kernings: b.kernings + seq![kv], ..b }, idx2)),
            },
        }
    } else if ignore {
        match scan_attrs(s, idx, l) {
            AttrsScan::Fail(t) => Err(TextErr::AttrTok(t, l)),
            AttrsScan::Done(al, idx2) => Ok((b, idx2)),
        }
    } else {
        if valid_utf8(tag) {
            Err(TextErr::BadTag(decode_utf8(tag), l))
        } else {
            Err(TextErr::TagUtf8(l))
        }
    }
}

/// A successful tag step moves the cursor forward, within the input.
pub proof fn lemma_text_step_bounds(
    s: Seq<u8>,
    tag: Seq<u8>,
    l: nat,
    idx: int,
    b: BuilderV,
    ignore: bool,
)
    requires
        0 <= idx <= s.len(),
    ensures
        spec_text_step(s, tag, l, idx, b, ignore) matches Ok((b2, x)) ==> idx <= x <= s.len(),
{
    lemma_scan_attrs_bounds(s, idx, l);
}

/// The empty builder state.
pub open spec fn builder_empty() -> BuilderV {
    BuilderV {
        proto: ProtoV { info: None, common: None, pages: None, chars: None, kernings: None },
        pages: Seq::empty(),
        chars: Seq::empty(),
        char_count: None,
        kernings: Seq::empty(),
        kerning_count: None,
    }
}

/// Drive a builder over the tag stream from `i` on line `line`: scan each
/// tag in turn and feed its line to the builder, until the input ends or an
/// error is hit.
pub open spec fn spec_text_load(s: Seq<u8>, i: int, line: nat, b: BuilderV, ignore: bool) -> Result<
    BuilderV,
    TextErr,
>
    decreases s.len() - i,
    when 0 <= i <= s.len()
    via spec_text_load_dec
{
    match scan_tag(s, i, line) {
        TagScan::Done(x, l2) => Ok(b),
        TagScan::Fail(e, l2) => Err(TextErr::TagTok(e, l2)),
        TagScan::Tok(h, t, idx, l2) => match spec_text_step(
            s,
            s.subrange(h, t),
            l2,
            idx,
            b,
            ignore,
        ) {
            Ok((b2, idx2)) => spec_text_load(s, idx2, l2, b2, ignore),
            Err(te) => Err(te),
        },
    }
}

#[via_fn]
proof fn spec_text_load_dec(s: Seq<u8>, i: int, line: nat, b: BuilderV, ignore: bool) {
    crate::tagged_attributes::lemma_scan_tag_bounds(s, i, line);
    let tr = scan_tag(s, i, line);
    if tr is Tok {
        lemma_text_step_bounds(s, s.subrange(tr->Tok_0, tr->Tok_1), tr->Tok_3, tr->Tok_2, b, ignore);
    }
}

/// The spec-level identity of a whole text decode error: a load error, or
/// an assembly error.
pub ghost enum TextDecErr {
    /// The tag stream failed to load.
    Text(TextErr),
    /// The assembly of the loaded blocks failed.
    Build(BuildErr),
}

/// Whether a crate error is the one a spec-level text decode error
/// describes.
pub open spec fn text_dec_err_matches(e: Error, de: TextDecErr) -> bool {
    match de {
        TextDecErr::Text(te) => text_err_matches(e, te),
        TextDecErr::Build(be) => crate::builder::build_err_matches(e, be),
    }
}

/// The font a whole text stream decodes to under the given settings, or the
/// first error: the tag stream is folded into a builder from line one, and
/// the builder is built.
pub open spec fn spec_text_decode(s: Seq<u8>, settings: LoadSettings) -> Result<
    FontV,
    TextDecErr,
> {
    match spec_text_load(s, 0, 1, builder_empty(), settings.ignore_invalid_tags) {
        Ok(b) => match spec_builder_build(b, settings) {
            Ok(f) => Ok(f),
            Err(be) => Err(TextDecErr::Build(be)),
        },
        Err(te) => Err(TextDecErr::Text(te)),
    }
}

/// Process one tag: collect the line's attributes, load them as the block
/// the tag names, and feed the block to the builder.
#[verifier::spinoff_prover]
#[verifier::rlimit(100)]
fn text_step<'a>(
    builder: &mut FontBuilder,
    ta: &mut TaggedAttributes<'a>,
    tag: &[u8],
    line: usize,
    ignore: bool,
) -> (r: Result<(), Error>)
    requires
        ta_wf(old(ta)@),
        line == old(ta)@.line,
    ensures
        ta_wf(final (ta)@),
        final (ta)@.bytes == old(ta)@.bytes,
        final (ta)@.line == old(ta)@.line,
        match spec_text_step(
            old(ta)@.bytes,
            tag@,
            old(ta)@.line,
            old(ta)@.index,
            old(builder)@,
            ignore,
        ) {
            Ok((b2, idx2)) => r is Ok && final (builder)@ == b2 && final (ta)@.index == idx2,
            Err(te) => r matches Err(e) && text_err_matches(e, te),
        },
{
    if crate::util::bytes_eq(tag, "info".as_bytes()) {
        let attrs = match crate::attributes::collect_attributes(ta) {
            Ok(a) => a,
            Err(e) => {
                return Err(e);
            },
        };
        let v = match load_info(attrs.as_slice()) {
            Ok(v) => v,
            Err(e) => {
                return Err(e);
            },
        };
        builder.set_info(Some(line), v)
    } else if crate::util::bytes_eq(tag, "common".as_bytes()) {
        let attrs = match crate::attributes::collect_attributes(ta) {
            Ok(a) => a,
            Err(e) => {
                return Err(e);
            },
        };
        let v = match load_common(attrs.as_slice()) {
            Ok(v) => v,
            Err(e) => {
                return Err(e);
            },
        };
        builder.set_common(Some(line), v)
    } else if crate::util::bytes_eq(tag, "page".as_bytes()) {
        let attrs = match crate::attributes::collect_attributes(ta) {
            Ok(a) => a,
            Err(e) => {
                return Err(e);
            },
        };
        let v = match load_page(attrs.as_slice()) {
            Ok(v) => v,
            Err(e) => {
                return Err(e);
            },
        };
        builder.add_page(v)
    } else if crate::util::bytes_eq(tag, "chars".as_bytes()) {
        let attrs = match crate::attributes::collect_attributes(ta) {
            Ok(a) => a,
            Err(e) => {
                return Err(e);
            },
        };
        let v = match load_count(attrs.as_slice()) {
            Ok(v) => v,
            Err(e) => {
                return Err(e);
            },
        };
        builder.set_char_count(Some(line), v.count)
    } else if crate::util::bytes_eq(tag, "char".as_bytes()) {
        let attrs = match crate::attributes::collect_attributes(ta) {
            Ok(a) => a,
            Err(e) => {
                return Err(e);
            },
        };
        let v = match load_char(attrs.as_slice()) {
            Ok(v) => v,
            Err(e) => {
                return Err(e);
            },
        };
        builder.add_char(v)
    } else if crate::util::bytes_eq(tag, "kernings".as_bytes()) {
        let attrs = match crate::attributes::collect_attributes(ta) {
            Ok(a) => a,
            Err(e) => {
                return Err(e);
            },
        };
        let v = match load_count(attrs.as_slice()) {
            Ok(v) => v,
            Err(e) => {
                return Err(e);
            },
        };
        builder.set_kerning_count(Some(line), v.count)
    } else if crate::util::bytes_eq(tag, "kerning".as_bytes()) {
        let attrs = match crate::attributes::collect_attributes(ta) {
            Ok(a) => a,
            Err(e) => {
                return Err(e);
            },
        };
        let v = match load_kerning(attrs.as_slice()) {
            Ok(v) => v,
            Err(e) => {
                return Err(e);
            },
        };
        builder.add_kerning(v)
    } else if ignore {
        // consume and discard the unrecognized line
        match crate::attributes::collect_attributes(ta) {
            Ok(_) => Ok(()),
            Err(e) => Err(e),
        }
    } else {
        match crate::util::string_from_utf8(vstd::slice::slice_to_vec(tag)) {
            Some(t) => Err(Error::InvalidTag { line: Some(line), tag: t }),
            None => Err(
                Error::Parse {
                    line: Some(line),
                    entity: "tag".to_owned(),
                    err: ParseError::InvalidUtf8,
                },
            ),
        }
    }
}

/// A font builder fed by the tagged attribute tokenizer.
#[derive(Debug)]
pub struct FontBuilderText {
    pub builder: FontBuilder,
}

impl FontBuilderText {
    /// An empty builder.
    pub fn new() -> (r: Self)
        ensures
            r.builder@ == builder_empty(),
    {
        let r = FontBuilderText { builder: FontBuilder::default() };
        proof {
            assert(r.builder@.pages =~= builder_empty().pages);
            assert(r.builder@.chars =~= builder_empty().chars);
            assert(r.builder@.kernings =~= builder_empty().kernings);
        }
        r
    }

    /// Drive the builder from the tagged attribute text: each recognized
    /// tag's attributes are loaded as that block and fed to the builder;
    /// unrecognized tags are fatal unless the settings ignore them, in which
    /// case their line is consumed and skipped.
    #[verifier::spinoff_prover]
    #[verifier::rlimit(100)]
    pub fn load_bytes(self, bytes: &[u8], settings: &LoadSettings) -> (r: Result<
        FontBuilder,
        Error,
    >)
        requires
            bytes@.len() < usize::MAX,
        ensures
            match spec_text_load(bytes@, 0, 1, self.builder@, settings.ignore_invalid_tags) {
                Ok(bv) => r matches Ok(b) && b@ == bv,
                Err(te) => r matches Err(e) && text_err_matches(e, te),
            },
    {
        let ghost b0 = self.builder@;
        let ghost ig = settings.ignore_invalid_tags;
        let FontBuilderText { mut builder } = self;
        let mut ta = TaggedAttributes::from_bytes(bytes);
        loop
            invariant
                ta_wf(ta@),
                ta@.bytes == bytes@,
                b0 == self.builder@,
                ig == settings.ignore_invalid_tags,
                spec_text_load(bytes@, 0, 1, b0, ig) == spec_text_load(
                    bytes@,
                    ta@.index,
                    ta@.line,
                    builder@,
                    ig,
                ),
            decreases bytes@.len() - ta@.index,
        {
            let ghost i0 = ta@.index;
            let ghost l0 = ta@.line;
            let ghost bv0 = builder@;
            proof {
                crate::tagged_attributes::lemma_scan_tag_bounds(bytes@, i0, l0);
            }
            let tag = match ta.tag() {
                Ok(Some(t)) => t,
                Ok(None) => {
                    return Ok(builder);
                },
                Err(te) => {
                    let line = ta.line();
                    return Err(
                        Error::Parse {
                            line: Some(line),
                            entity: "tag".to_owned(),
                            err: ParseError::Token(te),
                        },
                    );
                },
            };
            let line = ta.line();
            let ghost tr = scan_tag(bytes@, i0, l0);
            proof {
                lemma_text_step_bounds(bytes@, tag@, ta@.line, ta@.index, bv0, ig);
            }
            match text_step(&mut builder, &mut ta, tag, line, settings.ignore_invalid_tags) {
                Ok(()) => {
                    proof {
                        assert(spec_text_load(bytes@, i0, l0, bv0, ig) == spec_text_load(
                            bytes@,
                            ta@.index,
                            ta@.line,
                            builder@,
                            ig,
                        ));
                    }
                },
                Err(e) => {
                    return Err(e);
                },
            }
        }
    }
}

/// Load a font from a text format byte slice, with the default strict
/// settings. The input must leave room for line numbering.
pub fn from_bytes(bytes: &[u8]) -> (r: Result<Font, Error>)
    requires
        bytes@.len() < usize::MAX,
    ensures
        (r is Ok <==> spec_text_decode(bytes@, crate::binary::strict_settings()) is Ok),
        r matches Ok(f) ==> spec_text_decode(bytes@, crate::binary::strict_settings()) == Ok::<
            FontV,
            TextDecErr,
        >(f@),
        r matches Err(e) ==> (spec_text_decode(bytes@, crate::binary::strict_settings())
            matches Err(de) && text_dec_err_matches(e, de)),
{
    let settings = LoadSettings::default();
    proof {
        assert(settings == crate::binary::strict_settings());
    }
    from_bytes_ext(bytes, &settings)
}

/// Load a font from a text format byte slice with the given import
/// behavior settings.
pub fn from_bytes_ext(bytes: &[u8], settings: &LoadSettings) -> (r: Result<Font, Error>)
    requires
        bytes@.len() < usize::MAX,
    ensures
        (r is Ok <==> spec_text_decode(bytes@, *settings) is Ok),
        r matches Ok(f) ==> spec_text_decode(bytes@, *settings) == Ok::<FontV, TextDecErr>(f@),
        r matches Err(e) ==> (spec_text_decode(bytes@, *settings) matches Err(de)
            && text_dec_err_matches(e, de)),
{
    let builder = match FontBuilderText::new().load_bytes(bytes, settings) {
        Ok(b) => b,
        Err(e) => {
            return Err(e);
        },
    };
    builder.build(settings)
}

/// Load a font from a text format string, with the default strict settings.
pub fn from_str(src: &str) -> (r: Result<Font, Error>)
    requires
        encode_utf8(src@).len() < usize::MAX,
    ensures
        (r is Ok <==> spec_text_decode(encode_utf8(src@), crate::binary::strict_settings()) is Ok),
        r matches Ok(f) ==> spec_text_decode(encode_utf8(src@), crate::binary::strict_settings())
            == Ok::<FontV, TextDecErr>(f@),
        r matches Err(e) ==> (spec_text_decode(encode_utf8(src@), crate::binary::strict_settings())
            matches Err(de) && text_dec_err_matches(e, de)),
{
    let settings = LoadSettings::default();
    proof {
        assert(settings == crate::binary::strict_settings());
    }
    from_str_ext(src, &settings)
}

/// Load a font from a text format string with the given import behavior
/// settings.
pub fn from_str_ext(src: &str, settings: &LoadSettings) -> (r: Result<Font, Error>)
    requires
        encode_utf8(src@).len() < usize::MAX,
    ensures
        (r is Ok <==> spec_text_decode(encode_utf8(src@), *settings) is Ok),
        r matches Ok(f) ==> spec_text_decode(encode_utf8(src@), *settings) == Ok::<
            FontV,
            TextDecErr,
        >(f@),
        r matches Err(e) ==> (spec_text_decode(encode_utf8(src@), *settings) matches Err(de)
            && text_dec_err_matches(e, de)),
{
    from_bytes_ext(src.as_bytes(), settings)
}

/// Read a font from a text format reader, with the default strict settings.
/// The stream is buffered internally.
pub fn from_reader<R: std::io::Read>(reader: R) -> (r: Result<Font, Error>)
    ensures
        r matches Ok(f) ==> exists|bytes: Seq<u8>|
            spec_text_decode(bytes, crate::binary::strict_settings()) == Ok::<FontV, TextDecErr>(
                f@,
            ),
{
    let settings = LoadSettings::default();
    proof {
        assert(settings == crate::binary::strict_settings());
    }
    let r = from_reader_ext(reader, &settings);
    proof {
        if r is Ok {
            let f = r->Ok_0;
            let b = choose|bytes: Seq<u8>|
                spec_text_decode(bytes, settings) == Ok::<FontV, TextDecErr>(f@);
            assert(spec_text_decode(b, crate::binary::strict_settings()) == Ok::<
                FontV,
                TextDecErr,
            >(f@));
        }
    }
    r
}

/// Read a font from a text format reader with the given import behavior
/// settings. The stream is buffered internally.
pub fn from_reader_ext<R: std::io::Read>(reader: R, settings: &LoadSettings) -> (r: Result<
    Font,
    Error,
>)
    ensures
        r matches Ok(f) ==> exists|bytes: Seq<u8>|
            spec_text_decode(bytes, *settings) == Ok::<FontV, TextDecErr>(f@),
{
    let vec = match read_all(reader) {
        Ok(v) => v,
        Err(e) => {
            return Err(e);
        },
    };
    if vec.len() == usize::MAX {
        return Err(Error::Internal { err: "input too large".to_owned() });
    }
    let r = from_bytes_ext(vec.as_slice(), settings);
    proof {
        if r is Ok {
            assert(spec_text_decode(vec@, *settings) == Ok::<FontV, TextDecErr>(r->Ok_0@));
        }
    }
    r
}

/// Write a font to the given writer in text format.
pub fn to_writer<W: std::io::Write>(writer: W, font: &Font) -> (r: Result<(), Error>)
    ensures
        spec_text_export_check(font@) matches Some(te) ==> (r matches Err(e)
            && text_export_err_matches(e, te)),
        spec_text_export_check(font@) is None ==> (r is Ok || (r matches Err(e) && e is Io)),
{
    match to_vec(font) {
        Ok(v) => write_all(writer, v.as_slice()),
        Err(e) => Err(e),
    }
}

} // verus!
