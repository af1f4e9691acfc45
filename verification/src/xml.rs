//! XML format storing.
//!
//! The XML rendering writes one element per structural block under a `font`
//! root, every field an attribute. The face and page name values are
//! entity-escaped; values holding ASCII control characters are rejected.

use vstd::prelude::*;

use crate::builder::{first_ctl_page, has_ctl, lemma_first_ctl_page};
use crate::error::Error;
use crate::font::{spec_packing_u8, Font, FontV, InfoV};
use crate::render::{dec_rep, dec_rep_int, push_dec_i64, push_dec_u64};
use crate::text::{bool01, lit, push_bool, push_lit, push_string};
use crate::util::write_all;
use vstd::utf8::{decode_utf8, encode_utf8};

verus! {

/// The entity escaping of one byte of an attribute value: the five XML
/// special bytes become entities, every other byte stands as it is.
pub open spec fn esc_byte(b: u8) -> Seq<u8> {
    if b == 0x22 {
        lit("&quot;"@)
    } else if b == 0x27 {
        lit("&apos;"@)
    } else if b == 0x3c {
        lit("&lt;"@)
    } else if b == 0x3e {
        lit("&gt;"@)
    } else if b == 0x26 {
        lit("&amp;"@)
    } else {
        seq![b]
    }
}

/// The entity escaping of an attribute value's bytes.
pub open spec fn esc(s: Seq<u8>) -> Seq<u8>
    decreases s.len(),
{
    if s.len() == 0 {
        Seq::empty()
    } else {
        esc_byte(s[0]) + esc(s.drop_first())
    }
}

/// Splitting a value splits its escaping.
proof fn lemma_esc_concat(a: Seq<u8>, b: Seq<u8>)
    ensures
        esc(a + b) == esc(a) + esc(b),
    decreases a.len(),
{
    if a.len() == 0 {
        assert(a + b =~= b);
        assert(esc(a) + esc(b) =~= esc(b));
    } else {
        lemma_esc_concat(a.drop_first(), b);
        assert((a + b).drop_first() =~= a.drop_first() + b);
        assert((a + b)[0] == a[0]);
        assert(esc_byte(a[0]) + (esc(a.drop_first()) + esc(b)) =~= (esc_byte(a[0]) + esc(
            a.drop_first(),
        )) + esc(b));
    }
}

/// The escaping of a single byte.
proof fn lemma_esc_one(b: u8)
    ensures
        esc(seq![b]) == esc_byte(b),
{
    assert(seq![b].drop_first() =~= Seq::<u8>::empty());
    assert(esc(Seq::<u8>::empty()) == Seq::<u8>::empty());
    assert(esc_byte(b) + Seq::<u8>::empty() =~= esc_byte(b));
}

/// Append the entity-escaped bytes of an attribute value.
fn push_esc(out: &mut Vec<u8>, s: &String)
    ensures
        final (out)@ == old(out)@ + esc(encode_utf8(s@)),
{
    let ghost o = out@;
    let bytes = s.as_str().as_bytes();
    let mut i: usize = 0;
    proof {
        assert(bytes@.take(0) =~= Seq::<u8>::empty());
        assert(o + esc(bytes@.take(0)) =~= o);
    }
    while i < bytes.len()
        invariant
            0 <= i <= bytes@.len(),
            bytes@ == encode_utf8(s@),
            out@ == o + esc(bytes@.take(i as int)),
        decreases bytes@.len() - i,
    {
        let b = bytes[i];
        if b == 0x22 {
            push_lit(out, "&quot;");
        } else if b == 0x27 {
            push_lit(out, "&apos;");
        } else if b == 0x3c {
            push_lit(out, "&lt;");
        } else if b == 0x3e {
            push_lit(out, "&gt;");
        } else if b == 0x26 {
            push_lit(out, "&amp;");
        } else {
            out.push(b);
            proof {
                assert(out@ =~= o + esc(bytes@.take(i as int)) + seq![b]);
            }
        }
        proof {
            lemma_esc_concat(bytes@.take(i as int), seq![bytes@[i as int]]);
            lemma_esc_one(bytes@[i as int]);
            assert(bytes@.take(i + 1) =~= bytes@.take(i as int) + seq![bytes@[i as int]]);
            assert(out@ =~= o + esc(bytes@.take(i + 1)));
        }
        i = i + 1;
    }
    proof {
        assert(bytes@.take(i as int) =~= bytes@);
    }
}

/// The face and style pieces of the `info` element.
#[verifier::opaque]
pub open spec fn xml_info_a(i: InfoV) -> Seq<u8> {
    lit("  <info face=\""@) + esc(encode_utf8(i.face)) + lit("\" size=\""@) + dec_rep_int(
        i.size as int,
    ) + lit("\" bold=\""@) + bool01(i.bold) + lit("\" italic=\""@) + bool01(i.italic)
}

/// The charset and rendering pieces of the `info` element.
#[verifier::opaque]
pub open spec fn xml_info_m(i: InfoV) -> Seq<u8> {
    lit("\" charset=\""@) + encode_utf8(crate::charset::spec_charset_to_str(i.charset)) + lit(
        "\" unicode=\""@,
    ) + bool01(i.unicode) + lit("\" stretchH=\""@) + dec_rep(i.stretch_h as nat) + lit(
        "\" smooth=\""@,
    ) + bool01(i.smooth) + lit("\" aa=\""@) + dec_rep(i.aa as nat)
}

/// The closing pieces of the `info` element.
#[verifier::opaque]
pub open spec fn xml_info_b(i: InfoV) -> Seq<u8> {
    lit("\" padding=\""@) + dec_rep(i.padding.up as nat) + seq![0x2cu8] + dec_rep(
        i.padding.right as nat,
    ) + seq![0x2cu8] + dec_rep(i.padding.down as nat) + seq![0x2cu8] + dec_rep(
        i.padding.left as nat,
    ) + lit("\" spacing=\""@) + dec_rep(i.spacing.horizontal as nat) + seq![0x2cu8] + dec_rep(
        i.spacing.vertical as nat,
    ) + lit("\" outline=\""@) + dec_rep(i.outline as nat) + lit("\" />\n"@)
}

/// The `info` element.
pub open spec fn xml_info_line(i: InfoV) -> Seq<u8> {
    (xml_info_a(i) + xml_info_m(i)) + xml_info_b(i)
}

/// The metric pieces of the `common` element.
#[verifier::opaque]
pub open spec fn xml_common_a(c: crate::font::Common) -> Seq<u8> {
    lit("  <common lineHeight=\""@) + dec_rep(c.line_height as nat) + lit("\" base=\""@) + dec_rep(
        c.base as nat,
    ) + lit("\" scaleW=\""@) + dec_rep(c.scale_w as nat) + lit("\" scaleH=\""@) + dec_rep(
        c.scale_h as nat,
    ) + lit("\" pages=\""@) + dec_rep(c.pages as nat) + lit("\" packed=\""@) + bool01(c.packed)
}

/// The channel packing pieces of the `common` element.
#[verifier::opaque]
pub open spec fn xml_common_b(c: crate::font::Common) -> Seq<u8> {
    lit("\" alphaChnl=\""@) + dec_rep(spec_packing_u8(c.alpha_chnl) as nat) + lit("\" redChnl=\""@)
        + dec_rep(spec_packing_u8(c.red_chnl) as nat) + lit("\" greenChnl=\""@) + dec_rep(
        spec_packing_u8(c.green_chnl) as nat,
    ) + lit("\" blueChnl=\""@) + dec_rep(spec_packing_u8(c.blue_chnl) as nat) + lit("\" />\n"@)
}

/// The `common` element.
pub open spec fn xml_common_line(c: crate::font::Common) -> Seq<u8> {
    xml_common_a(c) + xml_common_b(c)
}

/// The `page` element of the page at index `id`.
#[verifier::opaque]
pub open spec fn xml_page_line(id: int, file: Seq<char>) -> Seq<u8> {
    lit("    <page id=\""@) + dec_rep(id as nat) + lit("\" file=\""@) + esc(encode_utf8(file))
        + lit("\" />"@)
}

/// The `page` elements of the pages from index `id` on.
pub open spec fn xml_pages_lines(pages: Seq<Seq<char>>, id: int) -> Seq<u8>
    decreases pages.len(),
{
    if pages.len() == 0 {
        Seq::empty()
    } else {
        xml_page_line(id, pages[0]) + xml_pages_lines(pages.drop_first(), id + 1)
    }
}

/// The texture rectangle pieces of a `char` element.
#[verifier::opaque]
pub open spec fn xml_char_a(c: crate::font::Char) -> Seq<u8> {
    lit("    <char id=\""@) + dec_rep(c.id as nat) + lit("\" x=\""@) + dec_rep(c.x as nat) + lit(
        "\" y=\""@,
    ) + dec_rep(c.y as nat) + lit("\" width=\""@) + dec_rep(c.width as nat) + lit("\" height=\""@)
        + dec_rep(c.height as nat)
}

/// The offset, advance, page and channel pieces of a `char` element.
#[verifier::opaque]
pub open spec fn xml_char_b(c: crate::font::Char) -> Seq<u8> {
    lit("\" xoffset=\""@) + dec_rep_int(c.xoffset as int) + lit("\" yoffset=\""@) + dec_rep_int(
        c.yoffset as int,
    ) + lit("\" xadvance=\""@) + dec_rep_int(c.xadvance as int) + lit("\" page=\""@) + dec_rep(
        c.page as nat,
    ) + lit("\" chnl=\""@) + dec_rep(c.chnl.value() as nat) + lit("\" />\n"@)
}

/// One `char` element.
pub open spec fn xml_char_line(c: crate::font::Char) -> Seq<u8> {
    xml_char_a(c) + xml_char_b(c)
}

/// The `char` elements of a character list.
pub open spec fn xml_chars_lines(chars: Seq<crate::font::Char>) -> Seq<u8>
    decreases chars.len(),
{
    if chars.len() == 0 {
        Seq::empty()
    } else {
        xml_char_line(chars[0]) + xml_chars_lines(chars.drop_first())
    }
}

/// One `kerning` element.
#[verifier::opaque]
pub open spec fn xml_kerning_line(k: crate::font::Kerning) -> Seq<u8> {
    lit("    <kerning first=\""@) + dec_rep(k.first as nat) + lit("\" second=\""@) + dec_rep(
        k.second as nat,
    ) + lit("\" amount=\""@) + dec_rep_int(k.amount as int) + lit("\" />\n"@)
}

/// The `kerning` elements of a kerning pair list.
pub open spec fn xml_kernings_lines(ks: Seq<crate::font::Kerning>) -> Seq<u8>
    decreases ks.len(),
{
    if ks.len() == 0 {
        Seq::empty()
    } else {
        xml_kerning_line(ks[0]) + xml_kernings_lines(ks.drop_first())
    }
}

/// The whole XML rendering of a font: the declaration and `font` root, the
/// `info` and `common` elements, the `pages` element with one `page` per
/// texture file, and the counted `chars` and `kernings` elements.
pub open spec fn xml_font_bytes(f: FontV) -> Seq<u8> {
    lit("<?xml version=\"1.0\"?>\n<font>\n"@) + xml_info_line(f.info) + xml_common_line(f.common)
        + lit("  <pages>\n"@) + xml_pages_lines(f.pages, 0) + lit("  </pages>\n"@) + (lit(
        "  <chars count=\""@,
    ) + dec_rep(f.chars.len() as nat) + lit("\">\n"@)) + xml_chars_lines(f.chars) + lit(
        "  </chars>\n"@,
    ) + (lit("  <kernings count=\""@) + dec_rep(f.kernings.len() as nat) + lit("\">\n"@))
        + xml_kernings_lines(f.kernings) + lit("  </kernings>\n</font>\n"@)
}

/// The spec-level identity of an XML export error.
pub ghost enum XmlExportErr {
    /// The face name holds a control character.
    Face(Seq<char>),
    /// A page name holds a control character.
    Page(Seq<char>),
}

/// Whether a crate error is the one a spec-level XML export error
/// describes.
pub open spec fn xml_export_err_matches(e: Error, ee: XmlExportErr) -> bool {
    match ee {
        XmlExportErr::Face(s) => e matches Error::UnsupportedValueEncoding { path, value } && path@
            == "info face"@ && value@ == s,
        XmlExportErr::Page(s) => e matches Error::UnsupportedValueEncoding { path, value } && path@
            == "page id"@ && value@ == s,
    }
}

/// The first XML export error of a font, if it has one: the face name is
/// checked first, then each page name in order. Control characters cannot
/// be carried; the XML-special characters are escaped, not rejected.
pub open spec fn spec_xml_export_check(f: FontV) -> Option<XmlExportErr> {
    if has_ctl(f.info.face) {
        Some(XmlExportErr::Face(f.info.face))
    } else if first_ctl_page(f.pages) < f.pages.len() {
        Some(XmlExportErr::Page(f.pages[first_ctl_page(f.pages)]))
    } else {
        None
    }
}

/// Whether a string holds an ASCII control character.
fn has_ctl_value(value: &String) -> (r: bool)
    ensures
        r == has_ctl(value@),
{
    let bytes = value.as_str().as_bytes();
    let mut i: usize = 0;
    while i < bytes.len()
        invariant
            0 <= i <= bytes@.len(),
            bytes@ == encode_utf8(value@),
            forall|j: int| 0 <= j < i ==> !crate::builder::is_ctl_byte(#[trigger] bytes@[j]),
        decreases bytes@.len() - i,
    {
        let b = bytes[i];
        if b <= 0x1f || b == 0x7f {
            return true;
        }
        i = i + 1;
    }
    false
}

/// Emit the `info` element.
#[verifier::spinoff_prover]
#[verifier::rlimit(100)]
fn emit_info(out: &mut Vec<u8>, info: &crate::font::Info)
    ensures
        final (out)@ == old(out)@ + xml_info_line(info@),
{
    push_lit(out, "  <info face=\"");
    push_esc(out, &info.face);
    push_lit(out, "\" size=\"");
    push_dec_i64(out, info.size as i64);
    push_lit(out, "\" bold=\"");
    push_bool(out, info.bold);
    push_lit(out, "\" italic=\"");
    push_bool(out, info.italic);
    proof {
        reveal(xml_info_a);
        assert(out@ =~= old(out)@ + xml_info_a(info@));
    }
    let ghost mid0 = out@;
    push_lit(out, "\" charset=\"");
    let cs = info.charset.to_string();
    push_string(out, &cs);
    push_lit(out, "\" unicode=\"");
    push_bool(out, info.unicode);
    push_lit(out, "\" stretchH=\"");
    push_dec_u64(out, info.stretch_h as u64);
    push_lit(out, "\" smooth=\"");
    push_bool(out, info.smooth);
    push_lit(out, "\" aa=\"");
    push_dec_u64(out, info.aa as u64);
    proof {
        reveal(xml_info_m);
        assert(out@ =~= mid0 + xml_info_m(info@));
        crate::text::seq_assoc(old(out)@, xml_info_a(info@), xml_info_m(info@));
    }
    let ghost mid = out@;
    push_lit(out, "\" padding=\"");
    push_dec_u64(out, info.padding.up as u64);
    out.push(0x2c);
    push_dec_u64(out, info.padding.right as u64);
    out.push(0x2c);
    push_dec_u64(out, info.padding.down as u64);
    out.push(0x2c);
    push_dec_u64(out, info.padding.left as u64);
    push_lit(out, "\" spacing=\"");
    push_dec_u64(out, info.spacing.horizontal as u64);
    out.push(0x2c);
    push_dec_u64(out, info.spacing.vertical as u64);
    push_lit(out, "\" outline=\"");
    push_dec_u64(out, info.outline as u64);
    push_lit(out, "\" />\n");
    proof {
        reveal(xml_info_b);
        assert(out@ =~= mid + xml_info_b(info@));
        crate::text::seq_assoc(old(out)@, xml_info_a(info@) + xml_info_m(info@), xml_info_b(info@));
    }
}

/// Emit the `common` element.
#[verifier::spinoff_prover]
#[verifier::rlimit(100)]
fn emit_common(out: &mut Vec<u8>, c: &crate::font::Common)
    ensures
        final (out)@ == old(out)@ + xml_common_line(*c),
{
    push_lit(out, "  <common lineHeight=\"");
    push_dec_u64(out, c.line_height as u64);
    push_lit(out, "\" base=\"");
    push_dec_u64(out, c.base as u64);
    push_lit(out, "\" scaleW=\"");
    push_dec_u64(out, c.scale_w as u64);
    push_lit(out, "\" scaleH=\"");
    push_dec_u64(out, c.scale_h as u64);
    push_lit(out, "\" pages=\"");
    push_dec_u64(out, c.pages as u64);
    push_lit(out, "\" packed=\"");
    push_bool(out, c.packed);
    proof {
        reveal(xml_common_a);
        assert(out@ =~= old(out)@ + xml_common_a(*c));
    }
    let ghost mid = out@;
    push_lit(out, "\" alphaChnl=\"");
    push_dec_u64(out, c.alpha_chnl.to_u8() as u64);
    push_lit(out, "\" redChnl=\"");
    push_dec_u64(out, c.red_chnl.to_u8() as u64);
    push_lit(out, "\" greenChnl=\"");
    push_dec_u64(out, c.green_chnl.to_u8() as u64);
    push_lit(out, "\" blueChnl=\"");
    push_dec_u64(out, c.blue_chnl.to_u8() as u64);
    push_lit(out, "\" />\n");
    proof {
        reveal(xml_common_b);
        assert(out@ =~= mid + xml_common_b(*c));
        crate::text::seq_assoc(old(out)@, xml_common_a(*c), xml_common_b(*c));
    }
}

/// Emit one `char` element.
#[verifier::spinoff_prover]
#[verifier::rlimit(100)]
fn emit_char(out: &mut Vec<u8>, c: &crate::font::Char)
    ensures
        final (out)@ == old(out)@ + xml_char_line(*c),
{
    push_lit(out, "    <char id=\"");
    push_dec_u64(out, c.id as u64);
    push_lit(out, "\" x=\"");
    push_dec_u64(out, c.x as u64);
    push_lit(out, "\" y=\"");
    push_dec_u64(out, c.y as u64);
    push_lit(out, "\" width=\"");
    push_dec_u64(out, c.width as u64);
    push_lit(out, "\" height=\"");
    push_dec_u64(out, c.height as u64);
    proof {
        reveal(xml_char_a);
        assert(out@ =~= old(out)@ + xml_char_a(*c));
    }
    let ghost mid = out@;
    push_lit(out, "\" xoffset=\"");
    push_dec_i64(out, c.xoffset as i64);
    push_lit(out, "\" yoffset=\"");
    push_dec_i64(out, c.yoffset as i64);
    push_lit(out, "\" xadvance=\"");
    push_dec_i64(out, c.xadvance as i64);
    push_lit(out, "\" page=\"");
    push_dec_u64(out, c.page as u64);
    push_lit(out, "\" chnl=\"");
    push_dec_u64(out, c.chnl.to_u8() as u64);
    push_lit(out, "\" />\n");
    proof {
        reveal(xml_char_b);
        assert(out@ =~= mid + xml_char_b(*c));
        crate::text::seq_assoc(old(out)@, xml_char_a(*c), xml_char_b(*c));
    }
}

/// Emit one `kerning` element.
#[verifier::spinoff_prover]
#[verifier::rlimit(100)]
fn emit_kerning(out: &mut Vec<u8>, k: &crate::font::Kerning)
    ensures
        final (out)@ == old(out)@ + xml_kerning_line(*k),
{
    push_lit(out, "    <kerning first=\"");
    push_dec_u64(out, k.first as u64);
    push_lit(out, "\" second=\"");
    push_dec_u64(out, k.second as u64);
    push_lit(out, "\" amount=\"");
    push_dec_i64(out, k.amount as i64);
    push_lit(out, "\" />\n");
    proof {
        reveal(xml_kerning_line);
        assert(out@ =~= old(out)@ + xml_kerning_line(*k));
    }
}

/// The lines of a single page element.
proof fn lemma_xml_page_line_one(x: Seq<char>, id: int)
    ensures
        xml_pages_lines(seq![x], id) == xml_page_line(id, x),
{
    assert(seq![x].drop_first() =~= Seq::<Seq<char>>::empty());
    assert(xml_pages_lines(Seq::<Seq<char>>::empty(), id + 1) == Seq::<u8>::empty());
    assert(xml_page_line(id, x) + Seq::<u8>::empty() =~= xml_page_line(id, x));
}

/// The lines of a single character element.
proof fn lemma_xml_char_line_one(x: crate::font::Char)
    ensures
        xml_chars_lines(seq![x]) == xml_char_line(x),
{
    assert(seq![x].drop_first() =~= Seq::<crate::font::Char>::empty());
    assert(xml_chars_lines(Seq::<crate::font::Char>::empty()) == Seq::<u8>::empty());
    assert(xml_char_line(x) + Seq::<u8>::empty() =~= xml_char_line(x));
}

/// The lines of a single kerning element.
proof fn lemma_xml_kerning_line_one(x: crate::font::Kerning)
    ensures
        xml_kernings_lines(seq![x]) == xml_kerning_line(x),
{
    assert(seq![x].drop_first() =~= Seq::<crate::font::Kerning>::empty());
    assert(xml_kernings_lines(Seq::<crate::font::Kerning>::empty()) == Seq::<u8>::empty());
    assert(xml_kerning_line(x) + Seq::<u8>::empty() =~= xml_kerning_line(x));
}

/// Splitting a page list splits its elements.
proof fn lemma_xml_pages_lines_concat(a: Seq<Seq<char>>, b: Seq<Seq<char>>, id: int)
    ensures
        xml_pages_lines(a + b, id) == xml_pages_lines(a, id) + xml_pages_lines(b, id + a.len()),
    decreases a.len(),
{
    if a.len() == 0 {
        assert(a + b =~= b);
        assert(xml_pages_lines(a, id) + xml_pages_lines(b, id) =~= xml_pages_lines(b, id));
    } else {
        lemma_xml_pages_lines_concat(a.drop_first(), b, id + 1);
        assert((a + b).drop_first() =~= a.drop_first() + b);
        assert((a + b)[0] == a[0]);
        crate::text::seq_assoc(
            xml_page_line(id, a[0]),
            xml_pages_lines(a.drop_first(), id + 1),
            xml_pages_lines(b, id + a.len()),
        );
    }
}

/// Splitting a character list splits its elements.
proof fn lemma_xml_chars_lines_concat(a: Seq<crate::font::Char>, b: Seq<crate::font::Char>)
    ensures
        xml_chars_lines(a + b) == xml_chars_lines(a) + xml_chars_lines(b),
    decreases a.len(),
{
    if a.len() == 0 {
        assert(a + b =~= b);
        assert(xml_chars_lines(a) + xml_chars_lines(b) =~= xml_chars_lines(b));
    } else {
        lemma_xml_chars_lines_concat(a.drop_first(), b);
        assert((a + b).drop_first() =~= a.drop_first() + b);
        assert((a + b)[0] == a[0]);
        crate::text::seq_assoc(
            xml_char_line(a[0]),
            xml_chars_lines(a.drop_first()),
            xml_chars_lines(b),
        );
    }
}

/// Splitting a kerning list splits its elements.
proof fn lemma_xml_kernings_lines_concat(
    a: Seq<crate::font::Kerning>,
    b: Seq<crate::font::Kerning>,
)
    ensures
        xml_kernings_lines(a + b) == xml_kernings_lines(a) + xml_kernings_lines(b),
    decreases a.len(),
{
    if a.len() == 0 {
        assert(a + b =~= b);
        assert(xml_kernings_lines(a) + xml_kernings_lines(b) =~= xml_kernings_lines(b));
    } else {
        lemma_xml_kernings_lines_concat(a.drop_first(), b);
        assert((a + b).drop_first() =~= a.drop_first() + b);
        assert((a + b)[0] == a[0]);
        crate::text::seq_assoc(
            xml_kerning_line(a[0]),
            xml_kernings_lines(a.drop_first()),
            xml_kernings_lines(b),
        );
    }
}

/// Run the XML export checks: neither the face name nor any page name may
/// hold an ASCII control character.
fn check_export(font: &Font) -> (r: Result<(), Error>)
    ensures
        (r is Ok <==> spec_xml_export_check(font@) is None),
        r matches Err(e) ==> (spec_xml_export_check(font@) matches Some(ee)
            && xml_export_err_matches(e, ee)),
{
    let ghost pv = font@.pages;
    if has_ctl_value(&font.info.face) {
        return Err(
            Error::UnsupportedValueEncoding {
                path: "info face".to_owned(),
                value: font.info.face.clone(),
            },
        );
    }
    let mut i: usize = 0;
    while i < font.pages.len()
        invariant
            0 <= i <= pv.len(),
            pv == font@.pages,
            pv.len() == font.pages@.len(),
            !has_ctl(font@.info.face),
            forall|j: int| 0 <= j < i ==> !has_ctl(#[trigger] pv[j]),
        decreases pv.len() - i,
    {
        assert(pv[i as int] == font.pages@[i as int]@);
        let page = &font.pages[i];
        if has_ctl_value(page) {
            proof {
                lemma_first_ctl_page(pv);
                assert(first_ctl_page(pv) == i);
            }
            return Err(
                Error::UnsupportedValueEncoding {
                    path: "page id".to_owned(),
                    value: page.clone(),
                },
            );
        }
        i = i + 1;
    }
    proof {
        lemma_first_ctl_page(pv);
        assert(first_ctl_page(pv) == pv.len()) by {
            if first_ctl_page(pv) < pv.len() {
                assert(!has_ctl(pv[first_ctl_page(pv)]));
            }
        }
    }
    Ok(())
}

/// Store a font into a byte vector in XML format.
///
/// The face name and the page names may hold no ASCII control characters;
/// the XML-special characters are entity-escaped.
pub fn to_vec(font: &Font) -> (r: Result<Vec<u8>, Error>)
    ensures
        (r is Ok <==> spec_xml_export_check(font@) is None),
        r matches Ok(v) ==> v@ == xml_font_bytes(font@),
        r matches Err(e) ==> (spec_xml_export_check(font@) matches Some(ee)
            && xml_export_err_matches(e, ee)),
{
    match check_export(font) {
        Ok(()) => {},
        Err(e) => {
            return Err(e);
        },
    }
    Ok(emit(font))
}

/// Emit the XML rendering of a font.
#[verifier::spinoff_prover]
#[verifier::rlimit(100)]
fn emit(font: &Font) -> (out: Vec<u8>)
    ensures
        out@ == xml_font_bytes(font@),
{
    let ghost pv = font@.pages;
    let mut out: Vec<u8> = Vec::new();
    push_lit(&mut out, "<?xml version=\"1.0\"?>\n<font>\n");
    proof {
        assert(out@ =~= lit("<?xml version=\"1.0\"?>\n<font>\n"@));
    }
    emit_info(&mut out, &font.info);
    emit_common(&mut out, &font.common);
    push_lit(&mut out, "  <pages>\n");
    let ghost o1 = out@;
    let mut i: usize = 0;
    proof {
        assert(pv.take(0) =~= Seq::<Seq<char>>::empty());
        assert(o1 + xml_pages_lines(pv.take(0), 0) =~= o1);
    }
    while i < font.pages.len()
        invariant
            0 <= i <= pv.len(),
            pv == font@.pages,
            pv.len() == font.pages@.len(),
            out@ == o1 + xml_pages_lines(pv.take(i as int), 0),
        decreases pv.len() - i,
    {
        assert(pv[i as int] == font.pages@[i as int]@);
        let page = &font.pages[i];
        push_lit(&mut out, "    <page id=\"");
        push_dec_u64(&mut out, i as u64);
        push_lit(&mut out, "\" file=\"");
        push_esc(&mut out, page);
        push_lit(&mut out, "\" />");
        proof {
            reveal(xml_page_line);
            lemma_xml_pages_lines_concat(pv.take(i as int), seq![pv[i as int]], 0);
            assert(pv.take(i + 1) =~= pv.take(i as int) + seq![pv[i as int]]);
            lemma_xml_page_line_one(pv[i as int], i as int);
            assert(out@ =~= o1 + xml_pages_lines(pv.take(i + 1), 0));
        }
        i = i + 1;
    }
    proof {
        assert(pv.take(i as int) =~= pv);
    }
    push_lit(&mut out, "  </pages>\n");
    push_lit(&mut out, "  <chars count=\"");
    push_dec_u64(&mut out, font.chars.len() as u64);
    push_lit(&mut out, "\">\n");
    let ghost o2 = out@;
    let mut i: usize = 0;
    proof {
        assert(font@.chars.take(0) =~= Seq::<crate::font::Char>::empty());
        assert(o2 + xml_chars_lines(font@.chars.take(0)) =~= o2);
    }
    while i < font.chars.len()
        invariant
            0 <= i <= font@.chars.len(),
            out@ == o2 + xml_chars_lines(font@.chars.take(i as int)),
        decreases font@.chars.len() - i,
    {
        emit_char(&mut out, &font.chars[i]);
        proof {
            lemma_xml_chars_lines_concat(font@.chars.take(i as int), seq![font@.chars[i as int]]);
            assert(font@.chars.take(i + 1) =~= font@.chars.take(i as int) + seq![
                font@.chars[i as int],
            ]);
            lemma_xml_char_line_one(font@.chars[i as int]);
            assert(out@ =~= o2 + xml_chars_lines(font@.chars.take(i + 1)));
        }
        i = i + 1;
    }
    proof {
        assert(font@.chars.take(i as int) =~= font@.chars);
    }
    push_lit(&mut out, "  </chars>\n");
    push_lit(&mut out, "  <kernings count=\"");
    push_dec_u64(&mut out, font.kernings.len() as u64);
    push_lit(&mut out, "\">\n");
    let ghost o3 = out@;
    let mut i: usize = 0;
    proof {
        assert(font@.kernings.take(0) =~= Seq::<crate::font::Kerning>::empty());
        assert(o3 + xml_kernings_lines(font@.kernings.take(0)) =~= o3);
    }
    while i < font.kernings.len()
        invariant
            0 <= i <= font@.kernings.len(),
            out@ == o3 + xml_kernings_lines(font@.kernings.take(i as int)),
        decreases font@.kernings.len() - i,
    {
        emit_kerning(&mut out, &font.kernings[i]);
        proof {
            lemma_xml_kernings_lines_concat(
                font@.kernings.take(i as int),
                seq![font@.kernings[i as int]],
            );
            assert(font@.kernings.take(i + 1) =~= font@.kernings.take(i as int) + seq![
                font@.kernings[i as int],
            ]);
            lemma_xml_kerning_line_one(font@.kernings[i as int]);
            assert(out@ =~= o3 + xml_kernings_lines(font@.kernings.take(i + 1)));
        }
        i = i + 1;
    }
    proof {
        assert(font@.kernings.take(i as int) =~= font@.kernings);
    }
    push_lit(&mut out, "  </kernings>\n</font>\n");
    proof {
        assert(out@ =~= xml_font_bytes(font@));
    }
    out
}

/// Store a font into a string in XML format.
pub fn to_string(font: &Font) -> (r: Result<String, Error>)
    ensures
        r matches Ok(s) ==> (spec_xml_export_check(font@) is None && s@ == decode_utf8(
            xml_font_bytes(font@),
        )),
        spec_xml_export_check(font@) matches Some(ee) ==> (r matches Err(e)
            && xml_export_err_matches(e, ee)),
{
    let vec = match to_vec(font) {
        Ok(v) => v,
        Err(e) => {
            return Err(e);
        },
    };
    match crate::util::string_from_utf8(vec) {
        Some(s) => Ok(s),
        None => Err(
            Error::Parse {
                line: None,
                entity: "font".to_owned(),
                err: crate::parse::ParseError::InvalidUtf8,
            },
        ),
    }
}

/// Write a font to the given writer in XML format.
pub fn to_writer<W: std::io::Write>(writer: W, font: &Font) -> (r: Result<(), Error>)
    ensures
        spec_xml_export_check(font@) matches Some(ee) ==> (r matches Err(e)
            && xml_export_err_matches(e, ee)),
        spec_xml_export_check(font@) is None ==> (r is Ok || (r matches Err(e) && e is Io)),
{
    match to_vec(font) {
        Ok(v) => write_all(writer, v.as_slice()),
        Err(e) => Err(e),
    }
}

} // verus!
