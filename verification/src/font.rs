//! Fonts as far as text extraction needs them: how the bytes of shown text
//! split into codes, and which code points the codes stand for.

use vstd::prelude::*;
use vstd::slice::slice_subrange;
use vstd::string::*;
use crate::cmap::{
    CMap, CMapView, CodeRange, MapRange, code_of, parse_cmap, spec_code_of, spec_empty_cmap,
    spec_parse_cmap,
};
use crate::encoding::{
    BaseEncoding, apply_differences, base_encoding, base_table, spec_apply_differences,
    spec_base_encoding, spec_base_table,
};
use crate::filter::{decode, spec_decode};
use crate::object::{
    DictEntry, Obj, PdfObject, bytes_eq, dict_get_str, spec_dict_get, view_entries, };
use crate::resolve::{deref, spec_deref};
use crate::table::XrefTable;
use crate::xref::Locator;

verus! {

/// The code point that stands in for what a range cannot map.
pub const REPLACEMENT: u32 = 0xfffd;

/// What is known of a font.
#[derive(Debug, PartialEq)]
pub struct FontResource {
    /// Codes have one to four bytes rather than always one.
    pub composite: bool,
    /// For a font with codes of one byte, the code point of each code, zero
    /// for none; empty otherwise.
    pub simple: Vec<u32>,
    /// The code ranges of a composite font, and what the font's character
    /// map says of its codes.
    pub map: CMap,
}

/// The mathematical value of a [`FontResource`].
pub struct FontView {
    pub composite: bool,
    pub simple: Seq<u32>,
    pub map: CMapView,
}

impl View for FontResource {
    type V = FontView;

    open spec fn view(&self) -> FontView {
        FontView { composite: self.composite, simple: self.simple@, map: self.map@ }
    }
}

/// One of the code ranges from place `k` on has the byte length `width`
/// and holds `code`.
pub open spec fn spec_in_space(spaces: Seq<CodeRange>, width: int, code: u32, k: int) -> bool
    decreases spaces.len() - k,
{
    if k < 0 || k >= spaces.len() {
        false
    } else {
        (spaces[k].width == width && spaces[k].lo <= code <= spaces[k].hi) || spec_in_space(
            spaces,
            width,
            code,
            k + 1,
        )
    }
}

fn in_space(spaces: &Vec<CodeRange>, width: usize, code: u32) -> (r: bool)
    ensures
        r == spec_in_space(spaces@, width as int, code, 0),
{
    let mut k: usize = 0;
    while k < spaces.len()
        invariant
            k <= spaces.len(),
            spec_in_space(spaces@, width as int, code, 0) == spec_in_space(
                spaces@,
                width as int,
                code,
                k as int,
            ),
        decreases spaces.len() - k,
    {
        let r: CodeRange = spaces[k];
        if r.width == width && r.lo <= code && code <= r.hi {
            return true;
        }
        k += 1;
    }
    false
}

/// The `w` bytes at `i` are there and make a code within the code ranges
/// of the font.
pub open spec fn spec_fits(font: FontView, codes: Seq<u8>, i: int, w: int) -> bool {
    i + w <= codes.len() && match spec_code_of(codes.subrange(i, i + w)) {
        Some(c) => spec_in_space(font.map.spaces, w, c, 0),
        None => false,
    }
}

/// How many bytes the code at `i` has. In a composite font the longest
/// code that lies within a code range wins, and a code within none takes
/// two bytes, or the one that is left.
pub open spec fn spec_code_width(font: FontView, codes: Seq<u8>, i: int) -> int {
    if !font.composite {
        1
    } else if spec_fits(font, codes, i, 4) {
        4
    } else if spec_fits(font, codes, i, 3) {
        3
    } else if spec_fits(font, codes, i, 2) {
        2
    } else if spec_fits(font, codes, i, 1) {
        1
    } else if i + 2 <= codes.len() {
        2
    } else {
        1
    }
}

fn fits(font: &FontResource, codes: &[u8], i: usize, w: usize) -> (r: bool)
    requires
        i <= codes.len(),
        w <= 4,
    ensures
        r == spec_fits(font@, codes@, i as int, w as int),
{
    if codes.len() - i < w {
        return false;
    }
    match code_of(slice_subrange(codes, i, i + w)) {
        Some(c) => in_space(&font.map.spaces, w, c),
        None => false,
    }
}

fn code_width(font: &FontResource, codes: &[u8], i: usize) -> (r: usize)
    requires
        i < codes.len(),
    ensures
        r == spec_code_width(font@, codes@, i as int),
        1 <= r <= 4,
        i + r <= codes.len(),
{
    if !font.composite {
        1
    } else if fits(font, codes, i, 4) {
        4
    } else if fits(font, codes, i, 3) {
        3
    } else if fits(font, codes, i, 2) {
        2
    } else if fits(font, codes, i, 1) {
        1
    } else if codes.len() - i >= 2 {
        2
    } else {
        1
    }
}

/// The first range from place `k` on that has the byte length `width` and
/// holds `code`.
pub open spec fn spec_find_range(ranges: Seq<MapRange>, width: int, code: u32, k: int) -> Option<
    MapRange,
>
    decreases ranges.len() - k,
{
    if k < 0 || k >= ranges.len() {
        None
    } else if ranges[k].width == width && ranges[k].lo <= code <= ranges[k].hi {
        Some(ranges[k])
    } else {
        spec_find_range(ranges, width, code, k + 1)
    }
}

fn find_range(ranges: &Vec<MapRange>, width: usize, code: u32) -> (r: Option<MapRange>)
    ensures
        r == spec_find_range(ranges@, width as int, code, 0),
{
    let mut k: usize = 0;
    while k < ranges.len()
        invariant
            k <= ranges.len(),
            spec_find_range(ranges@, width as int, code, 0) == spec_find_range(
                ranges@,
                width as int,
                code,
                k as int,
            ),
        decreases ranges.len() - k,
    {
        let r: MapRange = ranges[k];
        if r.width == width && r.lo <= code && code <= r.hi {
            return Some(r);
        }
        k += 1;
    }
    None
}

/// The code points that the range `r` gives to `code`: those listed for
/// the first code of the range, the last of them raised by how far `code`
/// lies above the first code.
pub open spec fn spec_target(targets: Seq<u32>, r: MapRange, code: u32) -> Seq<u32> {
    if r.len == 0 || r.start + r.len > targets.len() || code < r.lo {
        Seq::empty()
    } else {
        let last = targets[r.start + r.len - 1] + (code - r.lo);
        targets.subrange(r.start as int, r.start + r.len - 1).push(
            if last <= 0x10ffff {
                last as u32
            } else {
                REPLACEMENT
            },
        )
    }
}

/// The code points that the font gives to `code` of `width` bytes: what
/// its character map says, or else what its encoding says; nothing where
/// neither says anything.
pub open spec fn spec_lookup(font: FontView, width: int, code: u32) -> Seq<u32> {
    match spec_find_range(font.map.ranges, width, code, 0) {
        Some(r) => spec_target(font.map.targets, r, code),
        None => if !font.composite && code < font.simple.len() && font.simple[code as int] != 0 {
            seq![font.simple[code as int]]
        } else {
            Seq::empty()
        },
    }
}

fn push_lookup(out: &mut Vec<u32>, font: &FontResource, width: usize, code: u32)
    ensures
        final(out)@ == old(out)@ + spec_lookup(font@, width as int, code),
{
    match find_range(&font.map.ranges, width, code) {
        Some(r) => {
            let n: usize = font.map.targets.len();
            if r.len == 0 || r.start > n || r.len > n - r.start || code < r.lo {
                assert(out@ =~= old(out)@ + Seq::<u32>::empty());
            } else {
                let mut k: usize = r.start;
                let end: usize = r.start + r.len - 1;
                assert(font.map.targets@.subrange(r.start as int, r.start as int) =~= Seq::<
                    u32,
                >::empty());
                while k < end
                    invariant
                        r.start <= k <= end,
                        end < font.map.targets@.len(),
                        out@ == old(out)@ + font.map.targets@.subrange(r.start as int, k as int),
                    decreases end - k,
                {
                    out.push(font.map.targets[k]);
                    k += 1;
                    assert(out@ =~= old(out)@ + font.map.targets@.subrange(
                        r.start as int,
                        k as int,
                    ));
                }
                let last: u64 = font.map.targets[end] as u64 + (code - r.lo) as u64;
                out.push(
                    if last <= 0x10ffff {
                        last as u32
                    } else {
                        REPLACEMENT
                    },
                );
                assert(out@ =~= old(out)@ + spec_target(font.map.targets@, r, code));
            }
        },
        None => {
            if !font.composite && (code as usize) < font.simple.len() && font.simple[code as usize]
                != 0 {
                out.push(font.simple[code as usize]);
                assert(out@ =~= old(out)@ + seq![font.simple@[code as int]]);
            } else {
                assert(out@ =~= old(out)@ + Seq::<u32>::empty());
            }
        },
    }
}

/// The code points that the bytes of shown text from place `i` on stand
/// for in the font.
pub open spec fn spec_decode_codes(font: FontView, codes: Seq<u8>, i: int, acc: Seq<u32>) -> Seq<
    u32,
>
    decreases codes.len() - i,
{
    if i < 0 || i >= codes.len() {
        acc
    } else {
        let w = spec_code_width(font, codes, i);
        match spec_code_of(codes.subrange(i, i + w)) {
            Some(c) => if w >= 1 {
                spec_decode_codes(font, codes, i + w, acc + spec_lookup(font, w, c))
            } else {
                acc
            },
            None => acc,
        }
    }
}

/// Turns the bytes of shown text into code points.
pub fn decode_codes(font: &FontResource, codes: &[u8]) -> (r: Vec<u32>)
    ensures
        r@ == spec_decode_codes(font@, codes@, 0, Seq::empty()),
{
    let mut out: Vec<u32> = Vec::new();
    let mut i: usize = 0;
    while i < codes.len()
        invariant
            i <= codes.len(),
            spec_decode_codes(font@, codes@, 0, Seq::empty()) == spec_decode_codes(
                font@,
                codes@,
                i as int,
                out@,
            ),
        decreases codes.len() - i,
    {
        let w: usize = code_width(font, codes, i);
        match code_of(slice_subrange(codes, i, i + w)) {
            Some(c) => {
                push_lookup(&mut out, font, w, c);
            },
            None => {
                return out;
            },
        }
        i += w;
    }
    out
}

/// The code point that the fallback font gives to `code`: the code itself
/// where it is a printable ASCII character, nothing otherwise.
pub open spec fn spec_ascii_scalar(code: int) -> u32 {
    if 32 <= code <= 126 {
        code as u32
    } else {
        0
    }
}

/// The font that stands in for a font that is missing or cannot be read.
pub open spec fn spec_fallback_font() -> FontView {
    FontView {
        composite: false,
        simple: Seq::new(256, |c: int| spec_ascii_scalar(c)),
        map: spec_empty_cmap(),
    }
}

/// Makes the font that stands in for one that is missing.
pub fn fallback_font() -> (r: FontResource)
    ensures
        r@ == spec_fallback_font(),
{
    let mut simple: Vec<u32> = Vec::new();
    while simple.len() < 256
        invariant
            simple@.len() <= 256,
            forall|c: int| 0 <= c < simple@.len() ==> simple@[c] == spec_ascii_scalar(c),
        decreases 256 - simple.len(),
    {
        let c: usize = simple.len();
        simple.push(
            if 32 <= c && c <= 126 {
                c as u32
            } else {
                0
            },
        );
    }
    assert(simple@ =~= Seq::new(256, |c: int| spec_ascii_scalar(c)));
    FontResource {
        composite: false,
        simple,
        map: CMap { spaces: Vec::new(), ranges: Vec::new(), targets: Vec::new() },
    }
}

/// Whether a font is the one that stands in for a font that is missing.
pub fn is_fallback(font: &FontResource) -> (r: bool)
    ensures
        r == (font@ == spec_fallback_font()),
{
    let ghost fb = spec_fallback_font();
    if font.composite || font.simple.len() != 256 || font.map.spaces.len() != 0
        || font.map.ranges.len() != 0 || font.map.targets.len() != 0 {
        assert(fb.simple.len() == 256);
        return false;
    }
    let mut c: usize = 0;
    while c < 256
        invariant
            c <= 256,
            font.simple@.len() == 256,
            forall|i: int| 0 <= i < c ==> font.simple@[i] == spec_ascii_scalar(i),
        decreases 256 - c,
    {
        let expected: u32 = if 32 <= c && c <= 126 {
            c as u32
        } else {
            0
        };
        if font.simple[c] != expected {
            assert(spec_fallback_font().simple[c as int] == spec_ascii_scalar(c as int));
            return false;
        }
        c += 1;
    }
    assert(font@.simple =~= fb.simple);
    assert(font@.map.spaces =~= fb.map.spaces);
    assert(font@.map.ranges =~= fb.map.ranges);
    assert(font@.map.targets =~= fb.map.targets);
    true
}

/// The character map that the font dictionary `d` refers to, where it
/// refers to a stream that can be decoded.
pub open spec fn spec_to_unicode(s: Seq<u8>, table: Map<u32, Locator>, d: Seq<(Seq<u8>, Obj)>) -> Option<
    CMapView,
> {
    match spec_dict_get(d, "ToUnicode".spec_bytes()) {
        None => None,
        Some(o) => match spec_deref(s, table, o) {
            Ok(Obj::Stream(sd, raw)) => match spec_decode(sd, raw) {
                Ok(data) => Some(spec_parse_cmap(data, 0, spec_empty_cmap(), Seq::empty())),
                Err(_) => None,
            },
            _ => None,
        },
    }
}

fn to_unicode(d: &Vec<DictEntry>, table: &XrefTable, bytes: &[u8]) -> (r: Option<CMap>)
    ensures
        match r {
            Some(cm) => spec_to_unicode(bytes@, table@.0, view_entries(d@)) == Some(cm@),
            None => spec_to_unicode(bytes@, table@.0, view_entries(d@)) is None,
        },
{
    match dict_get_str(d, "ToUnicode") {
        None => None,
        Some(o) => match deref(o, table, bytes) {
            Ok(v) => match v.get() {
                PdfObject::Stream(sd, raw) => match decode(sd, raw.as_slice()) {
                    Ok(data) => Some(parse_cmap(data.as_slice())),
                    Err(_) => None,
                },
                _ => None,
            },
            Err(_) => None,
        },
    }
}

/// The base encoding that an encoding dictionary names.
pub open spec fn spec_named_base(ed: Seq<(Seq<u8>, Obj)>) -> BaseEncoding {
    match spec_dict_get(ed, "BaseEncoding".spec_bytes()) {
        Some(Obj::Name(n)) => spec_base_encoding(n),
        _ => BaseEncoding::Standard,
    }
}

/// The table that an encoding dictionary describes: its base encoding
/// with its differences.
pub open spec fn spec_dictionary_table(
    s: Seq<u8>,
    table: Map<u32, Locator>,
    ed: Seq<(Seq<u8>, Obj)>,
) -> Seq<u32> {
    let base = spec_base_table(spec_named_base(ed));
    match spec_dict_get(ed, "Differences".spec_bytes()) {
        None => base,
        Some(x) => match spec_deref(s, table, x) {
            Ok(Obj::Array(items)) => spec_apply_differences(base, items, 0, 0),
            _ => base,
        },
    }
}

/// The code point of each code of a font with codes of one byte, as the
/// encoding entry of its dictionary gives it: a named encoding, or an
/// encoding dictionary. Without either it is the standard encoding.
pub open spec fn spec_simple_table(s: Seq<u8>, table: Map<u32, Locator>, d: Seq<(Seq<u8>, Obj)>) -> Seq<
    u32,
> {
    match spec_dict_get(d, "Encoding".spec_bytes()) {
        None => spec_base_table(BaseEncoding::Standard),
        Some(o) => match spec_deref(s, table, o) {
            Ok(Obj::Name(n)) => spec_base_table(spec_base_encoding(n)),
            Ok(Obj::Dictionary(ed)) => spec_dictionary_table(s, table, ed),
            _ => spec_base_table(BaseEncoding::Standard),
        },
    }
}

fn dictionary_table(ed: &Vec<DictEntry>, table: &XrefTable, bytes: &[u8]) -> (r: Vec<u32>)
    ensures
        r@ == spec_dictionary_table(bytes@, table@.0, view_entries(ed@)),
{
    let base: BaseEncoding = match dict_get_str(ed, "BaseEncoding") {
        Some(PdfObject::Name(n)) => base_encoding(n.as_slice()),
        _ => BaseEncoding::Standard,
    };
    let mut out: Vec<u32> = base_table(base);
    match dict_get_str(ed, "Differences") {
        None => {},
        Some(x) => match deref(x, table, bytes) {
            Ok(v) => match v.get() {
                PdfObject::Array(items) => {
                    apply_differences(&mut out, items);
                },
                _ => {},
            },
            Err(_) => {},
        },
    }
    out
}

fn simple_table(d: &Vec<DictEntry>, table: &XrefTable, bytes: &[u8]) -> (r: Vec<u32>)
    ensures
        r@ == spec_simple_table(bytes@, table@.0, view_entries(d@)),
{
    match dict_get_str(d, "Encoding") {
        None => base_table(BaseEncoding::Standard),
        Some(o) => match deref(o, table, bytes) {
            Ok(v) => match v.get() {
                PdfObject::Name(n) => base_table(base_encoding(n.as_slice())),
                PdfObject::Dictionary(ed) => dictionary_table(ed, table, bytes),
                _ => base_table(BaseEncoding::Standard),
            },
            Err(_) => base_table(BaseEncoding::Standard),
        },
    }
}

/// The font dictionary `d` describes a composite font.
pub open spec fn spec_is_composite(d: Seq<(Seq<u8>, Obj)>) -> bool {
    spec_dict_get(d, "Subtype".spec_bytes()) == Some(Obj::Name("Type0".spec_bytes()))
}

/// What is known of the font that the object `font` describes. A
/// composite font is known by its character map alone; a font with codes
/// of one byte by its encoding and, before that, its character map. What
/// is no dictionary, and a composite font without a character map, count
/// as the fallback font.
pub open spec fn spec_build_font(s: Seq<u8>, table: Map<u32, Locator>, font: Obj) -> FontView {
    match font.entries() {
        None => spec_fallback_font(),
        Some(d) => {
            let cmap = spec_to_unicode(s, table, d);
            if spec_is_composite(d) {
                match cmap {
                    Some(cm) => FontView { composite: true, simple: Seq::empty(), map: cm },
                    None => spec_fallback_font(),
                }
            } else {
                FontView {
                    composite: false,
                    simple: spec_simple_table(s, table, d),
                    map: match cmap {
                        Some(cm) => cm,
                        None => spec_empty_cmap(),
                    },
                }
            }
        },
    }
}

/// Works out what is known of a font from its dictionary.
pub fn build(font_dict: &PdfObject, table: &XrefTable, bytes: &[u8]) -> (r: FontResource)
    ensures
        r@ == spec_build_font(bytes@, table@.0, font_dict@),
{
    match font_dict.as_dict() {
        None => fallback_font(),
        Some(d) => {
            let cmap = to_unicode(d, table, bytes);
            let composite: bool = match dict_get_str(d, "Subtype") {
                Some(PdfObject::Name(n)) => bytes_eq(n.as_slice(), "Type0".as_bytes()),
                _ => false,
            };
            if composite {
                match cmap {
                    Some(cm) => FontResource { composite: true, simple: Vec::new(), map: cm },
                    None => fallback_font(),
                }
            } else {
                let simple = simple_table(d, table, bytes);
                FontResource {
                    composite: false,
                    simple,
                    map: match cmap {
                        Some(cm) => cm,
                        None => CMap {
                            spaces: Vec::new(),
                            ranges: Vec::new(),
                            targets: Vec::new(),
                        },
                    },
                }
            }
        },
    }
}

} // verus!
