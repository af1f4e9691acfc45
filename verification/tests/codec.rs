use bmfont_rs::binary;
use bmfont_rs::charset::{Charset, GREEK, HANGUL, HEBREW};
use bmfont_rs::font::{Char, Chnl, Common, Font, Info, Kerning, Packing, Padding, Spacing};
use bmfont_rs::parse::{parse_u8_array, ParseError};
use bmfont_rs::tagged_attributes::TaggedAttributes;
use bmfont_rs::text;
use bmfont_rs::LoadSettings;

fn small() -> Font {
    let info = Info {
        face: "Small Test".to_owned(),
        size: 32,
        bold: false,
        italic: false,
        charset: Charset::Null,
        unicode: true,
        stretch_h: 100,
        smooth: true,
        aa: 4,
        padding: Padding { up: 1, right: 2, down: 3, left: 4 },
        spacing: Spacing { horizontal: 5, vertical: 6 },
        outline: 7,
    };
    let common = Common {
        line_height: 32,
        base: 24,
        scale_w: 1024,
        scale_h: 2048,
        pages: 1,
        packed: false,
        alpha_chnl: Packing::Glyph,
        red_chnl: Packing::GlyphOutline,
        green_chnl: Packing::One,
        blue_chnl: Packing::Zero,
    };
    let pages = vec!["small_sheet_0.png".to_owned()];
    let chars = vec![
        Char {
            id: 10,
            x: 281,
            y: 9,
            width: 4,
            height: 7,
            xoffset: 2,
            yoffset: 24,
            xadvance: 8,
            page: 0,
            chnl: Chnl::all(),
        },
        Char {
            id: 32,
            x: 0,
            y: 0,
            width: 7,
            height: 20,
            xoffset: 4,
            yoffset: 17,
            xadvance: 9,
            page: 0,
            chnl: Chnl::just_red(),
        },
    ];
    let kernings = vec![
        Kerning { first: 10, second: 32, amount: -2 },
        Kerning { first: 32, second: 10, amount: 1 },
    ];
    Font { info, common, pages, chars, kernings }
}

fn medium() -> Font {
    let mut f = small();
    f.info.face = "Medium Test".to_owned();
    f.common.pages = 2;
    f.pages = vec!["sheet_0.png".to_owned(), "sheet_1.png".to_owned()];
    for i in 0..40u32 {
        f.chars.push(Char {
            id: 64 + i,
            x: (i * 12) as u16,
            y: 3,
            width: 11,
            height: 13,
            xoffset: -1,
            yoffset: 2,
            xadvance: 12,
            page: (i % 2) as u8,
            chnl: Chnl::all(),
        });
    }
    f.kernings.push(Kerning { first: 65, second: 66, amount: -1 });
    f
}

fn small_bin() -> Vec<u8> {
    binary::to_vec(&small()).unwrap()
}

fn small_txt() -> Vec<u8> {
    text::to_vec(&small()).unwrap()
}

#[test]
fn tagged_attributes_next_attribute() {
    let mut attributes = TaggedAttributes::from_bytes(b"key=value");
    let (k, v) = attributes.key_value().unwrap().unwrap();
    assert_eq!((k, v, attributes.line()), (b"key".as_ref(), b"value".as_ref(), 1));
}

#[test]
fn tagged_attributes_next_attribute_err() {
    let mut attributes = TaggedAttributes::from_bytes(b"key=");
    match attributes.key_value() {
        Err(_) => {}
        Ok(_) => panic!("expected error"),
    }
}

#[test]
fn tagged_attributes_next_tag() {
    let mut tags = TaggedAttributes::from_bytes(b"tag");
    assert_eq!(tags.tag().unwrap(), Some(b"tag".as_ref()));
    assert_eq!(tags.line(), 1);
}

#[test]
fn tagged_attributes_next_tag_err() {
    let mut attributes = TaggedAttributes::from_bytes(b"\n\r");
    match attributes.tag() {
        Err(_) => {}
        Ok(_) => panic!("expected error"),
    }
}

#[test]
fn cycle_strings() {
    for u in 0..=255 {
        let charset = Charset::Tagged(u);
        let string = charset.to_string();
        assert_eq!(charset, Charset::from(string.as_str()));
    }
}

#[test]
fn from_str_null() {
    assert_eq!(Charset::Null, Charset::from(""));
}

#[test]
fn from_str_tag() {
    assert_eq!(Charset::Tagged(HANGUL), Charset::from("HANGUL"));
}

#[test]
fn from_str_u8() {
    assert_eq!(Charset::Tagged(HEBREW), Charset::from("177"));
}

#[test]
fn from_str_undefined() {
    assert_eq!(Charset::Undefined("Unknown".to_owned()), Charset::from("Unknown"));
}

#[test]
fn to_string_null() {
    assert_eq!("", Charset::Null.to_string());
}

#[test]
fn to_string_tagged() {
    assert_eq!("GREEK", Charset::Tagged(GREEK).to_string());
}

#[test]
fn to_string_u8() {
    assert_eq!("254", Charset::Tagged(254).to_string());
}

#[test]
fn to_string_undefined() {
    assert_eq!("Unknown", Charset::Undefined("Unknown".to_owned()).to_string());
}

#[test]
fn u8_4() {
    assert_eq!(parse_u8_array(b"1,2,3,4", 4), Ok(vec![1, 2, 3, 4]));
}

#[test]
fn u8_4_ws() {
    assert_eq!(parse_u8_array(b" 1 , 2 , 3 , 4 ", 4), Ok(vec![1, 2, 3, 4]));
}

#[test]
fn u8_4_underflow() {
    assert_eq!(parse_u8_array(b"1,2,3", 4), Err(ParseError::ArrayUnderflow));
}

#[test]
fn u8_4_overflow() {
    assert_eq!(parse_u8_array(b"1,2,3,4,5", 4), Err(ParseError::ArrayOverflow));
}

#[test]
fn qt_key() {
    let mut tkv = TaggedAttributes::from_bytes(b"\"KEY=VALUE");
    let (k, v) = tkv.key_value().unwrap().unwrap();
    assert_eq!((k, v), (b"\"KEY".as_ref(), b"VALUE".as_ref()));
}

#[test]
fn key_qt() {
    let mut tkv = TaggedAttributes::from_bytes(b"\"KEY=VALUE");
    let (k, v) = tkv.key_value().unwrap().unwrap();
    assert_eq!((k, v), (b"\"KEY".as_ref(), b"VALUE".as_ref()));
}

#[test]
fn binary_small_from_bytes() {
    let src = small_bin();
    assert_eq!(binary::from_bytes(&src).unwrap(), small());
}

#[test]
fn binary_small_from_reader() {
    let src = small_bin();
    assert_eq!(binary::from_reader(src.as_slice()).unwrap(), small());
}

#[test]
fn binary_small_to_vec() {
    let vec = binary::to_vec(&small()).unwrap();
    assert_eq!(binary::from_bytes(&vec).unwrap(), small());
}

#[test]
fn binary_small_to_writer() {
    let mut vec: Vec<u8> = Vec::new();
    binary::to_writer(&mut vec, &small()).unwrap();
    assert_eq!(binary::from_bytes(&vec).unwrap(), small());
}

#[test]
fn binary_multi_page() {
    let mut multi = small();
    multi.common.pages = 2;
    multi.pages = vec!["sheet_0.png".to_owned(), "sheet_1.png".to_owned()];
    let bytes = binary::to_vec(&multi).unwrap();
    let font = binary::from_bytes(&bytes).unwrap();
    assert_eq!(font.pages.len(), font.common.pages as usize);
}

#[test]
fn binary_empty_from_reader() {
    let src = binary::to_vec(&Font::default()).unwrap();
    assert_eq!(binary::from_reader(src.as_slice()).unwrap(), Font::default());
}

#[test]
fn binary_small_no_kernings_block() {
    // a font with one page, no chars and no kerning pairs emits no kerning
    // pairs block: magic, three 5-byte headers plus their payloads, and the
    // chars header with an empty payload
    let mut f = Font::default();
    f.common.pages = 1;
    f.pages = vec!["a.png".to_owned()];
    let bytes = binary::to_vec(&f).unwrap();
    let info_len = 15 + f.info.face.len();
    let expected = 4 + (5 + info_len) + (5 + 15) + (5 + 6) + (5 + 0);
    assert_eq!(bytes.len(), expected);
    assert_eq!(binary::from_bytes(&bytes).unwrap(), f);
}

#[test]
fn bin_underflow() {
    // a block claiming more bytes than remain
    let mut bytes = small_bin();
    let n = bytes.len();
    bytes.truncate(n - 3);
    match binary::from_bytes(&bytes) {
        Err(bmfont_rs::Error::Parse { .. }) => {}
        r => panic!("unexpected: {:?}", r),
    }
}

#[test]
fn bin_unsupported() {
    let mut bytes = small_bin();
    bytes[3] = 0xFF;
    match binary::from_bytes(&bytes) {
        Err(bmfont_rs::Error::UnsupportedBinaryVersion { version: 0xFF }) => {}
        r => panic!("unexpected: {:?}", r),
    }
}

#[test]
fn bin_bad_block() {
    let mut bytes = small_bin();
    bytes[4] = 9;
    match binary::from_bytes(&bytes) {
        Err(bmfont_rs::Error::InvalidBinaryBlock { id: 9 }) => {}
        r => panic!("unexpected: {:?}", r),
    }
}

#[test]
fn text_small_from_bytes() {
    let src = small_txt();
    assert_eq!(text::from_bytes(&src).unwrap(), small());
}

#[test]
fn text_small_from_str() {
    let src = text::to_string(&small()).unwrap();
    assert_eq!(text::from_str(&src).unwrap(), small());
}

#[test]
fn text_small_from_reader() {
    let src = small_txt();
    assert_eq!(text::from_reader(src.as_slice()).unwrap(), small());
}

#[test]
fn text_small_to_vec() {
    let vec = text::to_vec(&small()).unwrap();
    assert_eq!(text::from_bytes(&vec).unwrap(), small());
}

#[test]
fn text_small_to_string() {
    let string = text::to_string(&small()).unwrap();
    assert_eq!(text::from_bytes(string.as_bytes()).unwrap(), small());
}

#[test]
fn text_small_to_writer() {
    let mut vec: Vec<u8> = Vec::new();
    text::to_writer(&mut vec, &small()).unwrap();
    assert_eq!(text::from_bytes(&vec).unwrap(), small());
}

#[test]
fn text_empty_from_reader() {
    let src = text::to_vec(&Font::default()).unwrap();
    assert_eq!(text::from_reader(src.as_slice()).unwrap(), Font::default());
}

#[test]
fn text_binary_medium_cmp() {
    let text_src = text::to_vec(&medium()).unwrap();
    let text_font = text::from_bytes(&text_src).unwrap();
    let binary_src = binary::to_vec(&medium()).unwrap();
    let binary_font = binary::from_bytes(&binary_src).unwrap();
    assert_eq!(text_font, binary_font);
}

#[test]
fn validate_small() {
    small().validate_references().unwrap();
}

#[test]
fn validate_medium() {
    let src = binary::to_vec(&medium()).unwrap();
    let font = binary::from_bytes(&src).unwrap();
    font.validate_references().unwrap();
}

#[test]
fn text_duplicate_key() {
    let src = text::to_string(&small()).unwrap().replace("size=32", "size=32 size=32");
    match text::from_str(&src) {
        Err(bmfont_rs::Error::DuplicateKey { line: Some(1), .. }) => {}
        r => panic!("unexpected: {:?}", r),
    }
}

#[test]
fn text_invalid_char_count() {
    let src = text::to_string(&small()).unwrap().replace("chars count=2", "chars count=5");
    match text::from_str(&src) {
        Err(bmfont_rs::Error::InvalidCharCount { specified: 5, realized: 2 }) => {}
        r => panic!("unexpected: {:?}", r),
    }
}

#[test]
fn text_invalid_kerning_count() {
    let src = text::to_string(&small()).unwrap().replace("kernings count=2", "kernings count=7");
    match text::from_str(&src) {
        Err(bmfont_rs::Error::InvalidKerningCount { specified: 7, realized: 2 }) => {}
        r => panic!("unexpected: {:?}", r),
    }
}

#[test]
fn text_no_info_block() {
    let src = "common lineHeight=1 base=1 scaleW=1 scaleH=1 pages=0\r\n";
    match text::from_str(src) {
        Err(bmfont_rs::Error::NoInfoBlock) => {}
        r => panic!("unexpected: {:?}", r),
    }
}

#[test]
fn text_no_common_block() {
    let src = "info face=\"a\" size=1\r\n";
    match text::from_str(src) {
        Err(bmfont_rs::Error::NoCommonBlock) => {}
        r => panic!("unexpected: {:?}", r),
    }
}

#[test]
fn text_invalid_tag() {
    let src = "bogus key=1\r\n";
    match text::from_str(src) {
        Err(bmfont_rs::Error::InvalidTag { line: Some(1), .. }) => {}
        r => panic!("unexpected: {:?}", r),
    }
}

#[test]
fn text_broken_page_list() {
    let src = text::to_string(&small()).unwrap().replace("page id=0", "page id=2");
    match text::from_str(&src) {
        Err(bmfont_rs::Error::BrokenPageList) => {}
        r => panic!("unexpected: {:?}", r),
    }
}

#[test]
fn text_invalid_value() {
    let src = text::to_string(&small()).unwrap().replace("size=32", "size=zephyr");
    match text::from_str(&src) {
        Err(bmfont_rs::Error::Parse { line: Some(1), .. }) => {}
        r => panic!("unexpected: {:?}", r),
    }
}

#[test]
fn binary_invalid_face_string() {
    let mut small = small();
    small.info.face = "\x00".to_owned();
    let mut vec: Vec<u8> = Vec::new();
    match binary::to_writer(&mut vec, &small) {
        Err(bmfont_rs::Error::UnsupportedValueEncoding { .. }) => {}
        r => panic!("unexpected: {:?}", r),
    }
}

#[test]
fn binary_invalid_page_string() {
    let mut small = small();
    small.pages[0] = "\x00".to_owned();
    let mut vec: Vec<u8> = Vec::new();
    match binary::to_writer(&mut vec, &small) {
        Err(bmfont_rs::Error::UnsupportedValueEncoding { .. }) => {}
        r => panic!("unexpected: {:?}", r),
    }
}

#[test]
fn binary_incongruent_page_name_lengths() {
    let mut small = small();
    small.common.pages = 2;
    small.pages.push("sheet_1.png".to_owned());
    let mut vec: Vec<u8> = Vec::new();
    match binary::to_writer(&mut vec, &small) {
        Err(bmfont_rs::Error::IncongruentPageNameLen { .. }) => {}
        r => panic!("unexpected: {:?}", r),
    }
}

#[test]
fn text_invalid_face_string() {
    let mut small = small();
    small.info.face = "\x00".to_owned();
    match text::to_string(&small) {
        Err(bmfont_rs::Error::UnsupportedValueEncoding { .. }) => {}
        r => panic!("unexpected: {:?}", r),
    }
}

#[test]
fn text_invalid_page_string() {
    let mut small = small();
    small.pages[0] = "\x00".to_owned();
    match text::to_string(&small) {
        Err(bmfont_rs::Error::UnsupportedValueEncoding { .. }) => {}
        r => panic!("unexpected: {:?}", r),
    }
}

#[test]
fn load_settings_ignore_char_count() {
    let src = text::to_string(&small()).unwrap().replace("chars count=2", "chars count=5");
    let settings = LoadSettings::default().ignore_counts();
    assert_eq!(text::from_bytes_ext(src.as_bytes(), &settings).unwrap(), small());
}

#[test]
fn load_settings_ignore_kerning_count() {
    let src = text::to_string(&small()).unwrap().replace("kernings count=2", "kernings count=7");
    let settings = LoadSettings::default().ignore_counts();
    assert_eq!(text::from_bytes_ext(src.as_bytes(), &settings).unwrap(), small());
}

#[test]
fn load_settings_ignore_invalid_tags() {
    let src = text::to_string(&small()).unwrap() + "extra alpha=1 beta=\"two\"\r\n";
    let settings = LoadSettings::default().ignore_invalid_tags();
    assert_eq!(text::from_bytes_ext(src.as_bytes(), &settings).unwrap(), small());
}

#[test]
fn chnl_bits() {
    let mut c = Chnl::just_blue();
    assert!(c.blue() && !c.red() && !c.green() && !c.alpha());
    c.set_alpha(true);
    assert!(c.alpha());
    c.set_blue(false);
    assert!(!c.blue());
    assert_eq!(Chnl::all().to_u8(), 15);
}

#[test]
fn xml_small_render() {
    let mut f = Font::default();
    f.info.face = "A<B".to_owned();
    f.common.pages = 1;
    f.pages = vec!["a&b.png".to_owned()];
    let mut expected = String::new();
    expected.push_str("<?xml version=\"1.0\"?>\n<font>\n");
    expected.push_str("  <info face=\"A&lt;B\" size=\"0\" bold=\"0\" italic=\"0\" charset=\"ANSI\" ");
    expected.push_str("unicode=\"0\" stretchH=\"0\" smooth=\"0\" aa=\"0\" padding=\"0,0,0,0\" ");
    expected.push_str("spacing=\"0,0\" outline=\"0\" />\n");
    expected.push_str("  <common lineHeight=\"0\" base=\"0\" scaleW=\"0\" scaleH=\"0\" pages=\"1\" ");
    expected.push_str("packed=\"0\" alphaChnl=\"0\" redChnl=\"0\" greenChnl=\"0\" blueChnl=\"0\" />\n");
    expected.push_str("  <pages>\n");
    expected.push_str("    <page id=\"0\" file=\"a&amp;b.png\" />  </pages>\n");
    expected.push_str("  <chars count=\"0\">\n  </chars>\n");
    expected.push_str("  <kernings count=\"0\">\n  </kernings>\n</font>\n");
    assert_eq!(bmfont_rs::xml::to_string(&f).unwrap(), expected);
}

#[test]
fn xml_small_string_escape() {
    let mut f = small();
    f.info.face = "<\"&'\u{263a}'&\">".to_owned();
    f.pages[0] = "<\"&'\u{263a}'&\">.png".to_owned();
    let s = bmfont_rs::xml::to_string(&f).unwrap();
    assert!(s.contains("face=\"&lt;&quot;&amp;&apos;\u{263a}&apos;&amp;&quot;&gt;\""));
    assert!(s.contains("file=\"&lt;&quot;&amp;&apos;\u{263a}&apos;&amp;&quot;&gt;.png\""));
}

#[test]
fn xml_small_to_vec() {
    let f = small();
    let vec = bmfont_rs::xml::to_vec(&f).unwrap();
    assert_eq!(vec, bmfont_rs::xml::to_string(&f).unwrap().into_bytes());
}

#[test]
fn xml_small_to_writer() {
    let f = small();
    let mut vec: Vec<u8> = Vec::new();
    bmfont_rs::xml::to_writer(&mut vec, &f).unwrap();
    assert_eq!(vec, bmfont_rs::xml::to_vec(&f).unwrap());
}

#[test]
fn xml_invalid_face_string() {
    let mut small = small();
    small.info.face = "\x00".to_owned();
    match bmfont_rs::xml::to_string(&small) {
        Err(bmfont_rs::Error::UnsupportedValueEncoding { .. }) => {}
        r => panic!("unexpected: {:?}", r),
    }
}

#[test]
fn xml_invalid_page_string() {
    let mut small = small();
    small.pages[0] = "\x00".to_owned();
    match bmfont_rs::xml::to_string(&small) {
        Err(bmfont_rs::Error::UnsupportedValueEncoding { .. }) => {}
        r => panic!("unexpected: {:?}", r),
    }
}

#[test]
fn text_key_eq_end_of_input() {
    // a key with `=` but no value before the end of the input
    let mut tkv = TaggedAttributes::from_bytes(b"KEY=");
    match tkv.key_value() {
        Err(bmfont_rs::tagged_attributes::Error::UnexpectedEndOfLine) => {}
        r => panic!("unexpected: {:?}", r),
    }
}

#[test]
fn invalid_kerning_char() {
    let mut f = small();
    f.kernings.push(Kerning { first: 10, second: 99, amount: 1 });
    match f.validate_references() {
        Err(bmfont_rs::Error::InvalidKerningChar { id: 99 }) => {}
        r => panic!("unexpected: {:?}", r),
    }
}

#[test]
fn invalid_char_page() {
    let mut f = small();
    f.chars[0].page = 7;
    match f.validate_references() {
        Err(bmfont_rs::Error::InvalidCharPage { char_id: 10, page_id: 7 }) => {}
        r => panic!("unexpected: {:?}", r),
    }
}
