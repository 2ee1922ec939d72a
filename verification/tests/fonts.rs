use pdf_text::cmap::{code_of, parse_cmap, CodeRange, MapRange};
use pdf_text::encoding::{
    apply_differences, base_encoding, base_table, glyph_unicode, BaseEncoding,
};
use pdf_text::encoding::list_index;
use pdf_text::font::{build, decode_codes, fallback_font, is_fallback, FontResource, REPLACEMENT};
use pdf_text::object::{parse_value, PdfObject};
use pdf_text::table::XrefTable;
use pdf_text::xref::{Locator, ObjectId};
use std::collections::HashMap;

fn empty_table() -> XrefTable {
    XrefTable { map: HashMap::new(), root: ObjectId { number: 1, generation: 0 } }
}

fn object(text: &str) -> PdfObject {
    parse_value(text.as_bytes(), 0, 16).unwrap().0
}

#[test]
fn glyph_names_from_the_list() {
    assert_eq!(glyph_unicode(b"space"), 0x20);
    assert_eq!(glyph_unicode(b"exclam"), 0x21);
    assert_eq!(glyph_unicode(b"zero"), 0x30);
    assert_eq!(glyph_unicode(b"Adieresis"), 0xc4);
    assert_eq!(glyph_unicode(b"germandbls"), 0xdf);
    assert_eq!(glyph_unicode(b"quoteright"), 0x2019);
    assert_eq!(glyph_unicode(b"Euro"), 0x20ac);
    assert_eq!(glyph_unicode(b"fi"), 0xfb01);
    assert_eq!(glyph_unicode(b"ffl"), 0xfb04);
    assert_eq!(glyph_unicode(b"Delta"), 0x2206);
}

#[test]
fn glyph_names_by_rule() {
    assert_eq!(glyph_unicode(b"A"), 0x41);
    assert_eq!(glyph_unicode(b"z"), 0x7a);
    assert_eq!(glyph_unicode(b"uni0041"), 0x41);
    assert_eq!(glyph_unicode(b"uni20AC"), 0x20ac);
    assert_eq!(glyph_unicode(b"uni20ac0041"), 0x20ac);
    assert_eq!(glyph_unicode(b"u0041"), 0x41);
    assert_eq!(glyph_unicode(b"u1F600"), 0x1f600);
    assert_eq!(glyph_unicode(b"u10FFFF"), 0x10ffff);
}

#[test]
fn unknown_glyph_names_give_nothing() {
    for n in ["", "1", "spac", "spacex", "exclam ", "uni004", "uni00zz", "u004", "u0041000", "uX041", ".notdef", "g123"] {
        assert_eq!(glyph_unicode(n.as_bytes()), 0);
    }
}

#[test]
fn base_encodings_by_name() {
    assert_eq!(base_encoding(b"WinAnsiEncoding"), BaseEncoding::WinAnsi);
    assert_eq!(base_encoding(b"MacRomanEncoding"), BaseEncoding::MacRoman);
    assert_eq!(base_encoding(b"StandardEncoding"), BaseEncoding::Standard);
    assert_eq!(base_encoding(b"Other"), BaseEncoding::Standard);
}

#[test]
fn base_tables() {
    let std = base_table(BaseEncoding::Standard);
    let win = base_table(BaseEncoding::WinAnsi);
    let mac = base_table(BaseEncoding::MacRoman);
    for t in [&std, &win, &mac] {
        assert_eq!(t.len(), 256);
        for c in 0..32 {
            assert_eq!(t[c], 0);
        }
        for c in 32..127usize {
            if c != 0x27 && c != 0x60 {
                assert_eq!(t[c], c as u32);
            }
        }
    }
    assert_eq!(std[0x27], 0x2019);
    assert_eq!(std[0x60], 0x2018);
    assert_eq!(win[0x27], 0x27);
    assert_eq!(std[0xae], 0xfb01);
    assert_eq!(std[0xd0], 0x2014);
    assert_eq!(std[0x80], 0);
    assert_eq!(win[0x80], 0x20ac);
    assert_eq!(win[0x93], 0x201c);
    assert_eq!(win[0xe9], 0xe9);
    assert_eq!(win[0xff], 0xff);
    assert_eq!(mac[0x80], 0xc4);
    assert_eq!(mac[0x8e], 0xe9);
    assert_eq!(mac[0xa5], 0x2022);
    assert_eq!(mac[0xde], 0xfb01);
}

#[test]
fn differences_change_the_named_codes() {
    let mut t = base_table(BaseEncoding::WinAnsi);
    let items = vec![
        PdfObject::Name(b"ignored".to_vec()),
        PdfObject::Integer(65),
        PdfObject::Name(b"bullet".to_vec()),
        PdfObject::Name(b"nosuchglyph".to_vec()),
        PdfObject::Real(1000),
        PdfObject::Name(b"a".to_vec()),
        PdfObject::Integer(255),
        PdfObject::Name(b"b".to_vec()),
        PdfObject::Name(b"c".to_vec()),
        PdfObject::Integer(-1),
        PdfObject::Name(b"d".to_vec()),
        PdfObject::Name(b"e".to_vec()),
    ];
    apply_differences(&mut t, &items);
    assert_eq!(t[0], 'e' as u32);
    assert_eq!(t[1], 0);
    assert_eq!(t[65], 0x2022);
    assert_eq!(t[66], 0);
    assert_eq!(t[67], 'a' as u32);
    assert_eq!(t[68], 'D' as u32);
    assert_eq!(t[255], 'b' as u32);
    assert_eq!(t.len(), 256);
}

#[test]
fn codes_of_one_to_four_bytes() {
    assert_eq!(code_of(&[]), None);
    assert_eq!(code_of(&[7]), Some(7));
    assert_eq!(code_of(&[1, 2]), Some(0x0102));
    assert_eq!(code_of(&[1, 2, 3]), Some(0x010203));
    assert_eq!(code_of(&[255, 255, 255, 255]), Some(0xffff_ffff));
    assert_eq!(code_of(&[1, 2, 3, 4, 5]), None);
}

#[test]
fn character_map_blocks() {
    let cm = parse_cmap(
        b"1 begincodespacerange <00> <7F> <8000> <FFFF> endcodespacerange\n\
          2 beginbfchar <01> <0041> <8001> <00660069> endbfchar\n\
          1 beginbfrange <10> <12> <0061> <8100> <8101> [<0078> <D83DDE00>] endbfrange",
    );
    assert_eq!(
        cm.spaces,
        vec![
            CodeRange { width: 1, lo: 0, hi: 0x7f },
            CodeRange { width: 2, lo: 0x8000, hi: 0xffff }
        ]
    );
    assert_eq!(
        cm.ranges,
        vec![
            MapRange { width: 1, lo: 1, hi: 1, start: 0, len: 1 },
            MapRange { width: 2, lo: 0x8001, hi: 0x8001, start: 1, len: 2 },
            MapRange { width: 1, lo: 0x10, hi: 0x12, start: 3, len: 1 },
            MapRange { width: 2, lo: 0x8100, hi: 0x8100, start: 4, len: 1 },
            MapRange { width: 2, lo: 0x8101, hi: 0x8101, start: 5, len: 1 },
        ]
    );
    assert_eq!(cm.targets, vec![0x41, 0x66, 0x69, 0x61, 0x78, 0x1f600]);
}

#[test]
fn character_map_passes_over_what_it_cannot_use() {
    let cm = parse_cmap(b"beginbfchar <01> /Name <0102030405> <0041> (a) endbfchar ) <02> <0042> endbfchar");
    assert_eq!(cm.ranges, vec![MapRange { width: 1, lo: 2, hi: 2, start: 0, len: 1 }]);
    assert_eq!(cm.targets, vec![0x42]);
    let cm = parse_cmap(b"<05> <01> <0041> endbfrange <0102> <01> endcodespacerange");
    assert!(cm.ranges.is_empty());
    assert!(cm.spaces.is_empty());
}

#[test]
fn codes_of_a_simple_font() {
    let font = build(
        &object("<< /Subtype /Type1 /Encoding /WinAnsiEncoding >>"),
        &empty_table(),
        b"",
    );
    assert!(!font.composite);
    assert_eq!(decode_codes(&font, b"A\x80\x01z"), vec![0x41, 0x20ac, 0x7a]);
    assert_eq!(decode_codes(&font, b""), Vec::<u32>::new());
}

#[test]
fn codes_of_a_composite_font_split_by_code_range() {
    let mut font = FontResource {
        composite: true,
        simple: Vec::new(),
        map: parse_cmap(
            b"begincodespacerange <00> <7F> <8000> <FFFF> endcodespacerange\n\
              beginbfchar <41> <0061> <8041> <0062> endbfchar\n\
              beginbfrange <9000> <90FF> <0100> endbfrange",
        ),
    };
    assert_eq!(decode_codes(&font, &[0x41, 0x80, 0x41, 0x90, 0x05, 0x41]), vec![0x61, 0x62, 0x105, 0x61]);
    assert_eq!(decode_codes(&font, &[0x7f, 0x41]), vec![0x61]);
    assert_eq!(decode_codes(&font, &[0x80]), Vec::<u32>::new());
    font.map.spaces.clear();
    assert_eq!(decode_codes(&font, &[0x80, 0x41, 0x41]), vec![0x62, 0x61]);
    assert_eq!(decode_codes(&font, &[0x12, 0x34, 0x56, 0x78]), Vec::<u32>::new());
}

#[test]
fn a_range_that_leaves_unicode_gives_the_replacement() {
    let font = FontResource {
        composite: true,
        simple: Vec::new(),
        map: parse_cmap(b"beginbfrange <0000> <00FF> <DBFFDFF0> endbfrange"),
    };
    assert_eq!(decode_codes(&font, &[0, 0x0f, 0, 0x10]), vec![0x10ffff, REPLACEMENT]);
}

#[test]
fn fallback_font_is_printable_ascii() {
    let font = fallback_font();
    assert_eq!(decode_codes(&font, b" ~\x1f\x7f\xe9a"), vec![0x20, 0x7e, 0x61]);
    let same = build(&PdfObject::Integer(3), &empty_table(), b"");
    assert_eq!(same, font);
    let composite = build(&object("<< /Subtype /Type0 >>"), &empty_table(), b"");
    assert_eq!(composite, font);
}

#[test]
fn character_map_behind_a_reference_is_used() {
    let data = b"7 0 obj\n<< /Length 33 >>\nstream\nbeginbfchar <41> <03A9> endbfchar\nendstream\nendobj\n";
    let mut map = HashMap::new();
    map.insert(7u32, Locator::Offset(0));
    let table = XrefTable { map, root: ObjectId { number: 1, generation: 0 } };
    let font = build(&object("<< /Subtype /TrueType /ToUnicode 7 0 R >>"), &table, data);
    assert_eq!(decode_codes(&font, b"AB"), vec![0x3a9, 0x42]);
}

#[test]
fn the_stand_in_font_is_told_apart() {
    assert!(is_fallback(&fallback_font()));
    assert!(is_fallback(&build(&PdfObject::Null, &empty_table(), b"")));
    assert!(!is_fallback(&build(&object("<< /Subtype /Type1 >>"), &empty_table(), b"")));
    let mut font = fallback_font();
    font.simple[65] = 66;
    assert!(!is_fallback(&font));
    let mut font = fallback_font();
    font.composite = true;
    assert!(!is_fallback(&font));
    let mut font = fallback_font();
    font.map.targets.push(1);
    assert!(!is_fallback(&font));
    let mut font = fallback_font();
    font.simple.pop();
    assert!(!is_fallback(&font));
}

#[test]
fn names_are_found_in_a_list() {
    assert_eq!(list_index(b"a bc  d", b"a"), Some(0));
    assert_eq!(list_index(b"a bc  d", b"bc"), Some(1));
    assert_eq!(list_index(b"a bc  d", b"d"), Some(2));
    assert_eq!(list_index(b"a bc  d", b"b"), None);
    assert_eq!(list_index(b"a bc  d", b""), None);
    assert_eq!(list_index(b"", b"a"), None);
    assert_eq!(list_index(b"a a", b"a"), Some(0));
}
