//! Character encodings of simple fonts: the base encodings, glyph names
//! and the changes that a font may make to a base encoding.

use vstd::prelude::*;
use vstd::string::*;
use crate::lexer::{hex_value, is_hex_digit};
use crate::object::{Obj, PdfObject, bytes_eq, view_items};

verus! {

/// The glyph names that are known, separated by spaces.
pub const GLYPH_NAMES: &'static str = "space exclam quotedbl numbersign dollar percent ampersand quotesingle parenleft \
    parenright asterisk plus comma hyphen period slash zero one two three four five six \
    seven eight nine colon semicolon less equal greater question at bracketleft backslash \
    bracketright asciicircum underscore grave braceleft bar braceright asciitilde \
    exclamdown cent sterling currency yen brokenbar section dieresis copyright ordfeminine \
    guillemotleft logicalnot registered macron degree plusminus twosuperior threesuperior \
    acute mu paragraph periodcentered cedilla onesuperior ordmasculine guillemotright \
    onequarter onehalf threequarters questiondown Agrave Aacute Acircumflex Atilde \
    Adieresis Aring AE Ccedilla Egrave Eacute Ecircumflex Edieresis Igrave Iacute \
    Icircumflex Idieresis Eth Ntilde Ograve Oacute Ocircumflex Otilde Odieresis multiply \
    Oslash Ugrave Uacute Ucircumflex Udieresis Yacute Thorn germandbls agrave aacute \
    acircumflex atilde adieresis aring ae ccedilla egrave eacute ecircumflex edieresis \
    igrave iacute icircumflex idieresis eth ntilde ograve oacute ocircumflex otilde \
    odieresis divide oslash ugrave uacute ucircumflex udieresis yacute thorn ydieresis \
    dotlessi Lslash lslash OE oe Scaron scaron Ydieresis Zcaron zcaron florin circumflex \
    caron breve dotaccent ring ogonek tilde hungarumlaut endash emdash quoteleft quoteright \
    quotesinglbase quotedblleft quotedblright quotedblbase dagger daggerdbl bullet ellipsis \
    perthousand guilsinglleft guilsinglright fraction Euro trademark minus fi fl nbspace \
    sfthyphen Delta Omega pi partialdiff product summation radical infinity integral \
    approxequal notequal lessequal greaterequal lozenge ff ffi ffl";

/// The code point of each glyph name, in the order of [`GLYPH_NAMES`].
pub const GLYPH_CODES: [u16; 196] = [
    0x0020, 0x0021, 0x0022, 0x0023, 0x0024, 0x0025, 0x0026, 0x0027, 0x0028, 0x0029, 0x002a, 0x002b,
    0x002c, 0x002d, 0x002e, 0x002f, 0x0030, 0x0031, 0x0032, 0x0033, 0x0034, 0x0035, 0x0036, 0x0037,
    0x0038, 0x0039, 0x003a, 0x003b, 0x003c, 0x003d, 0x003e, 0x003f, 0x0040, 0x005b, 0x005c, 0x005d,
    0x005e, 0x005f, 0x0060, 0x007b, 0x007c, 0x007d, 0x007e, 0x00a1, 0x00a2, 0x00a3, 0x00a4, 0x00a5,
    0x00a6, 0x00a7, 0x00a8, 0x00a9, 0x00aa, 0x00ab, 0x00ac, 0x00ae, 0x00af, 0x00b0, 0x00b1, 0x00b2,
    0x00b3, 0x00b4, 0x00b5, 0x00b6, 0x00b7, 0x00b8, 0x00b9, 0x00ba, 0x00bb, 0x00bc, 0x00bd, 0x00be,
    0x00bf, 0x00c0, 0x00c1, 0x00c2, 0x00c3, 0x00c4, 0x00c5, 0x00c6, 0x00c7, 0x00c8, 0x00c9, 0x00ca,
    0x00cb, 0x00cc, 0x00cd, 0x00ce, 0x00cf, 0x00d0, 0x00d1, 0x00d2, 0x00d3, 0x00d4, 0x00d5, 0x00d6,
    0x00d7, 0x00d8, 0x00d9, 0x00da, 0x00db, 0x00dc, 0x00dd, 0x00de, 0x00df, 0x00e0, 0x00e1, 0x00e2,
    0x00e3, 0x00e4, 0x00e5, 0x00e6, 0x00e7, 0x00e8, 0x00e9, 0x00ea, 0x00eb, 0x00ec, 0x00ed, 0x00ee,
    0x00ef, 0x00f0, 0x00f1, 0x00f2, 0x00f3, 0x00f4, 0x00f5, 0x00f6, 0x00f7, 0x00f8, 0x00f9, 0x00fa,
    0x00fb, 0x00fc, 0x00fd, 0x00fe, 0x00ff, 0x0131, 0x0141, 0x0142, 0x0152, 0x0153, 0x0160, 0x0161,
    0x0178, 0x017d, 0x017e, 0x0192, 0x02c6, 0x02c7, 0x02d8, 0x02d9, 0x02da, 0x02db, 0x02dc, 0x02dd,
    0x2013, 0x2014, 0x2018, 0x2019, 0x201a, 0x201c, 0x201d, 0x201e, 0x2020, 0x2021, 0x2022, 0x2026,
    0x2030, 0x2039, 0x203a, 0x2044, 0x20ac, 0x2122, 0x2212, 0xfb01, 0xfb02, 0x00a0, 0x00ad, 0x2206,
    0x2126, 0x03c0, 0x2202, 0x220f, 0x2211, 0x221a, 0x221e, 0x222b, 0x2248, 0x2260, 0x2264, 0x2265,
    0x25ca, 0xfb00, 0xfb03, 0xfb04,
];

/// The standard Latin text encoding: the code point for each code, zero
/// where the code is not used.
pub const STANDARD_TABLE: [u16; 256] = [
    0x0000, 0x0000, 0x0000, 0x0000, 0x0000, 0x0000, 0x0000, 0x0000, 0x0000, 0x0000, 0x0000, 0x0000,
    0x0000, 0x0000, 0x0000, 0x0000, 0x0000, 0x0000, 0x0000, 0x0000, 0x0000, 0x0000, 0x0000, 0x0000,
    0x0000, 0x0000, 0x0000, 0x0000, 0x0000, 0x0000, 0x0000, 0x0000, 0x0020, 0x0021, 0x0022, 0x0023,
    0x0024, 0x0025, 0x0026, 0x2019, 0x0028, 0x0029, 0x002a, 0x002b, 0x002c, 0x002d, 0x002e, 0x002f,
    0x0030, 0x0031, 0x0032, 0x0033, 0x0034, 0x0035, 0x0036, 0x0037, 0x0038, 0x0039, 0x003a, 0x003b,
    0x003c, 0x003d, 0x003e, 0x003f, 0x0040, 0x0041, 0x0042, 0x0043, 0x0044, 0x0045, 0x0046, 0x0047,
    0x0048, 0x0049, 0x004a, 0x004b, 0x004c, 0x004d, 0x004e, 0x004f, 0x0050, 0x0051, 0x0052, 0x0053,
    0x0054, 0x0055, 0x0056, 0x0057, 0x0058, 0x0059, 0x005a, 0x005b, 0x005c, 0x005d, 0x005e, 0x005f,
    0x2018, 0x0061, 0x0062, 0x0063, 0x0064, 0x0065, 0x0066, 0x0067, 0x0068, 0x0069, 0x006a, 0x006b,
    0x006c, 0x006d, 0x006e, 0x006f, 0x0070, 0x0071, 0x0072, 0x0073, 0x0074, 0x0075, 0x0076, 0x0077,
    0x0078, 0x0079, 0x007a, 0x007b, 0x007c, 0x007d, 0x007e, 0x0000, 0x0000, 0x0000, 0x0000, 0x0000,
    0x0000, 0x0000, 0x0000, 0x0000, 0x0000, 0x0000, 0x0000, 0x0000, 0x0000, 0x0000, 0x0000, 0x0000,
    0x0000, 0x0000, 0x0000, 0x0000, 0x0000, 0x0000, 0x0000, 0x0000, 0x0000, 0x0000, 0x0000, 0x0000,
    0x0000, 0x0000, 0x0000, 0x0000, 0x0000, 0x00a1, 0x00a2, 0x00a3, 0x2044, 0x00a5, 0x0192, 0x00a7,
    0x00a4, 0x0027, 0x201c, 0x00ab, 0x2039, 0x203a, 0xfb01, 0xfb02, 0x0000, 0x2013, 0x2020, 0x2021,
    0x00b7, 0x0000, 0x00b6, 0x2022, 0x201a, 0x201e, 0x201d, 0x00bb, 0x2026, 0x2030, 0x0000, 0x00bf,
    0x0000, 0x0060, 0x00b4, 0x02c6, 0x02dc, 0x00af, 0x02d8, 0x02d9, 0x00a8, 0x0000, 0x02da, 0x00b8,
    0x0000, 0x02dd, 0x02db, 0x02c7, 0x2014, 0x0000, 0x0000, 0x0000, 0x0000, 0x0000, 0x0000, 0x0000,
    0x0000, 0x0000, 0x0000, 0x0000, 0x0000, 0x0000, 0x0000, 0x0000, 0x0000, 0x00c6, 0x0000, 0x00aa,
    0x0000, 0x0000, 0x0000, 0x0000, 0x0141, 0x00d8, 0x0152, 0x00ba, 0x0000, 0x0000, 0x0000, 0x0000,
    0x0000, 0x00e6, 0x0000, 0x0000, 0x0000, 0x0131, 0x0000, 0x0000, 0x0142, 0x00f8, 0x0153, 0x00df,
    0x0000, 0x0000, 0x0000, 0x0000,
];

/// The encoding that Windows uses for Western European text.
pub const WIN_ANSI_TABLE: [u16; 256] = [
    0x0000, 0x0000, 0x0000, 0x0000, 0x0000, 0x0000, 0x0000, 0x0000, 0x0000, 0x0000, 0x0000, 0x0000,
    0x0000, 0x0000, 0x0000, 0x0000, 0x0000, 0x0000, 0x0000, 0x0000, 0x0000, 0x0000, 0x0000, 0x0000,
    0x0000, 0x0000, 0x0000, 0x0000, 0x0000, 0x0000, 0x0000, 0x0000, 0x0020, 0x0021, 0x0022, 0x0023,
    0x0024, 0x0025, 0x0026, 0x0027, 0x0028, 0x0029, 0x002a, 0x002b, 0x002c, 0x002d, 0x002e, 0x002f,
    0x0030, 0x0031, 0x0032, 0x0033, 0x0034, 0x0035, 0x0036, 0x0037, 0x0038, 0x0039, 0x003a, 0x003b,
    0x003c, 0x003d, 0x003e, 0x003f, 0x0040, 0x0041, 0x0042, 0x0043, 0x0044, 0x0045, 0x0046, 0x0047,
    0x0048, 0x0049, 0x004a, 0x004b, 0x004c, 0x004d, 0x004e, 0x004f, 0x0050, 0x0051, 0x0052, 0x0053,
    0x0054, 0x0055, 0x0056, 0x0057, 0x0058, 0x0059, 0x005a, 0x005b, 0x005c, 0x005d, 0x005e, 0x005f,
    0x0060, 0x0061, 0x0062, 0x0063, 0x0064, 0x0065, 0x0066, 0x0067, 0x0068, 0x0069, 0x006a, 0x006b,
    0x006c, 0x006d, 0x006e, 0x006f, 0x0070, 0x0071, 0x0072, 0x0073, 0x0074, 0x0075, 0x0076, 0x0077,
    0x0078, 0x0079, 0x007a, 0x007b, 0x007c, 0x007d, 0x007e, 0x2022, 0x20ac, 0x2022, 0x201a, 0x0192,
    0x201e, 0x2026, 0x2020, 0x2021, 0x02c6, 0x2030, 0x0160, 0x2039, 0x0152, 0x2022, 0x017d, 0x2022,
    0x2022, 0x2018, 0x2019, 0x201c, 0x201d, 0x2022, 0x2013, 0x2014, 0x02dc, 0x2122, 0x0161, 0x203a,
    0x0153, 0x2022, 0x017e, 0x0178, 0x0020, 0x00a1, 0x00a2, 0x00a3, 0x00a4, 0x00a5, 0x00a6, 0x00a7,
    0x00a8, 0x00a9, 0x00aa, 0x00ab, 0x00ac, 0x002d, 0x00ae, 0x00af, 0x00b0, 0x00b1, 0x00b2, 0x00b3,
    0x00b4, 0x00b5, 0x00b6, 0x00b7, 0x00b8, 0x00b9, 0x00ba, 0x00bb, 0x00bc, 0x00bd, 0x00be, 0x00bf,
    0x00c0, 0x00c1, 0x00c2, 0x00c3, 0x00c4, 0x00c5, 0x00c6, 0x00c7, 0x00c8, 0x00c9, 0x00ca, 0x00cb,
    0x00cc, 0x00cd, 0x00ce, 0x00cf, 0x00d0, 0x00d1, 0x00d2, 0x00d3, 0x00d4, 0x00d5, 0x00d6, 0x00d7,
    0x00d8, 0x00d9, 0x00da, 0x00db, 0x00dc, 0x00dd, 0x00de, 0x00df, 0x00e0, 0x00e1, 0x00e2, 0x00e3,
    0x00e4, 0x00e5, 0x00e6, 0x00e7, 0x00e8, 0x00e9, 0x00ea, 0x00eb, 0x00ec, 0x00ed, 0x00ee, 0x00ef,
    0x00f0, 0x00f1, 0x00f2, 0x00f3, 0x00f4, 0x00f5, 0x00f6, 0x00f7, 0x00f8, 0x00f9, 0x00fa, 0x00fb,
    0x00fc, 0x00fd, 0x00fe, 0x00ff,
];

/// The encoding of the classic Macintosh for Western European text.
pub const MAC_ROMAN_TABLE: [u16; 256] = [
    0x0000, 0x0000, 0x0000, 0x0000, 0x0000, 0x0000, 0x0000, 0x0000, 0x0000, 0x0000, 0x0000, 0x0000,
    0x0000, 0x0000, 0x0000, 0x0000, 0x0000, 0x0000, 0x0000, 0x0000, 0x0000, 0x0000, 0x0000, 0x0000,
    0x0000, 0x0000, 0x0000, 0x0000, 0x0000, 0x0000, 0x0000, 0x0000, 0x0020, 0x0021, 0x0022, 0x0023,
    0x0024, 0x0025, 0x0026, 0x0027, 0x0028, 0x0029, 0x002a, 0x002b, 0x002c, 0x002d, 0x002e, 0x002f,
    0x0030, 0x0031, 0x0032, 0x0033, 0x0034, 0x0035, 0x0036, 0x0037, 0x0038, 0x0039, 0x003a, 0x003b,
    0x003c, 0x003d, 0x003e, 0x003f, 0x0040, 0x0041, 0x0042, 0x0043, 0x0044, 0x0045, 0x0046, 0x0047,
    0x0048, 0x0049, 0x004a, 0x004b, 0x004c, 0x004d, 0x004e, 0x004f, 0x0050, 0x0051, 0x0052, 0x0053,
    0x0054, 0x0055, 0x0056, 0x0057, 0x0058, 0x0059, 0x005a, 0x005b, 0x005c, 0x005d, 0x005e, 0x005f,
    0x0060, 0x0061, 0x0062, 0x0063, 0x0064, 0x0065, 0x0066, 0x0067, 0x0068, 0x0069, 0x006a, 0x006b,
    0x006c, 0x006d, 0x006e, 0x006f, 0x0070, 0x0071, 0x0072, 0x0073, 0x0074, 0x0075, 0x0076, 0x0077,
    0x0078, 0x0079, 0x007a, 0x007b, 0x007c, 0x007d, 0x007e, 0x0000, 0x00c4, 0x00c5, 0x00c7, 0x00c9,
    0x00d1, 0x00d6, 0x00dc, 0x00e1, 0x00e0, 0x00e2, 0x00e4, 0x00e3, 0x00e5, 0x00e7, 0x00e9, 0x00e8,
    0x00ea, 0x00eb, 0x00ed, 0x00ec, 0x00ee, 0x00ef, 0x00f1, 0x00f3, 0x00f2, 0x00f4, 0x00f6, 0x00f5,
    0x00fa, 0x00f9, 0x00fb, 0x00fc, 0x2020, 0x00b0, 0x00a2, 0x00a3, 0x00a7, 0x2022, 0x00b6, 0x00df,
    0x00ae, 0x00a9, 0x2122, 0x00b4, 0x00a8, 0x2260, 0x00c6, 0x00d8, 0x221e, 0x00b1, 0x2264, 0x2265,
    0x00a5, 0x00b5, 0x2202, 0x2211, 0x220f, 0x03c0, 0x222b, 0x00aa, 0x00ba, 0x2126, 0x00e6, 0x00f8,
    0x00bf, 0x00a1, 0x00ac, 0x221a, 0x0192, 0x2248, 0x2206, 0x00ab, 0x00bb, 0x2026, 0x0020, 0x00c0,
    0x00c3, 0x00d5, 0x0152, 0x0153, 0x2013, 0x2014, 0x201c, 0x201d, 0x2018, 0x2019, 0x00f7, 0x25ca,
    0x00ff, 0x0178, 0x2044, 0x00a4, 0x2039, 0x203a, 0xfb01, 0xfb02, 0x2021, 0x00b7, 0x201a, 0x201e,
    0x2030, 0x00c2, 0x00ca, 0x00c1, 0x00cb, 0x00c8, 0x00cd, 0x00ce, 0x00cf, 0x00cc, 0x00d3, 0x00d4,
    0xf8ff, 0x00d2, 0x00da, 0x00db, 0x00d9, 0x0131, 0x02c6, 0x02dc, 0x00af, 0x02d8, 0x02d9, 0x02da,
    0x00b8, 0x02dd, 0x02db, 0x02c7,
];

/// The end of the name that starts at `p` in a list of names that spaces
/// separate.
pub open spec fn spec_name_end(blob: Seq<u8>, p: int) -> int
    decreases blob.len() - p,
{
    if 0 <= p < blob.len() && blob[p] != 32 {
        spec_name_end(blob, p + 1)
    } else {
        p
    }
}

/// The place of `name` in the list of names that starts at offset `p` with
/// name number `k`.
pub open spec fn spec_glyph_index(blob: Seq<u8>, p: int, k: int, name: Seq<u8>) -> Option<int>
    decreases blob.len() - p,
{
    if p < 0 || p >= blob.len() {
        None
    } else if blob[p] == 32 {
        spec_glyph_index(blob, p + 1, k, name)
    } else {
        let e = spec_name_end(blob, p);
        if blob.subrange(p, e) == name {
            Some(k)
        } else if p < e <= blob.len() {
            spec_glyph_index(blob, e, k + 1, name)
        } else {
            None
        }
    }
}

fn glyph_index(name: &[u8]) -> (r: Option<usize>)
    ensures
        match r {
            Some(k) => spec_glyph_index(GLYPH_NAMES.spec_bytes(), 0, 0, name@) == Some(k as int),
            None => spec_glyph_index(GLYPH_NAMES.spec_bytes(), 0, 0, name@) is None,
        },
{
    list_index(GLYPH_NAMES.as_bytes(), name)
}

/// Finds the place of `name` in a list of names that spaces separate.
pub fn list_index(blob: &[u8], name: &[u8]) -> (r: Option<usize>)
    ensures
        match r {
            Some(k) => spec_glyph_index(blob@, 0, 0, name@) == Some(k as int),
            None => spec_glyph_index(blob@, 0, 0, name@) is None,
        },
{
    let n: usize = blob.len();
    let mut p: usize = 0;
    let mut k: usize = 0;
    while p < n
        invariant
            n == blob.len(),
            p <= n,
            k <= p,
            spec_glyph_index(blob@, 0, 0, name@) == spec_glyph_index(
                blob@,
                p as int,
                k as int,
                name@,
            ),
        decreases n - p,
    {
        if blob[p] == 32 {
            p += 1;
        } else {
            let mut e: usize = p;
            while e < n && blob[e] != 32
                invariant
                    n == blob.len(),
                    p <= e <= n,
                    e > p || blob@[p as int] != 32,
                    spec_name_end(blob@, p as int) == spec_name_end(blob@, e as int),
                decreases n - e,
            {
                e += 1;
            }
            if bytes_eq(vstd::slice::slice_subrange(blob, p, e), name) {
                return Some(k);
            }
            p = e;
            k += 1;
        }
    }
    None
}

/// The bytes of `t` from `a` to `b` are hexadecimal digits.
pub open spec fn spec_all_hex(t: Seq<u8>, a: int, b: int) -> bool
    decreases b - a,
{
    b <= a || (0 < b <= t.len() && is_hex_digit(t[b - 1]) && spec_all_hex(t, a, b - 1))
}

/// The number that the hexadecimal digits of `t` from `a` to `b` denote.
pub open spec fn spec_hex_number(t: Seq<u8>, a: int, b: int) -> int
    decreases b - a,
{
    if b <= a || b > t.len() || b <= 0 {
        0
    } else {
        spec_hex_number(t, a, b - 1) * 16 + hex_value(t[b - 1])
    }
}

/// The number of the hexadecimal digits of `t` from `a` to `b`, at most
/// six of them; `None` where one of the bytes is no digit.
fn hex_number(t: &[u8], a: usize, b: usize) -> (r: Option<u32>)
    requires
        a <= b <= t.len(),
        b - a <= 6,
    ensures
        match r {
            Some(v) => spec_all_hex(t@, a as int, b as int) && v == spec_hex_number(
                t@,
                a as int,
                b as int,
            ),
            None => !spec_all_hex(t@, a as int, b as int),
        },
{
    let mut v: u32 = 0;
    let mut i: usize = a;
    let ghost mut bound: int = 1;
    while i < b
        invariant
            a <= i <= b <= t.len(),
            b - a <= 6,
            spec_all_hex(t@, a as int, i as int),
            v == spec_hex_number(t@, a as int, i as int),
            v < bound,
            bound == spec_sixteen_to(i - a),
        decreases b - i,
    {
        if !is_hex_digit(t[i]) {
            proof {
                if spec_all_hex(t@, a as int, b as int) {
                    lemma_all_hex_prefix(t@, a as int, i + 1, b as int);
                }
            }
            return None;
        }
        proof {
            lemma_sixteen_small(i - a);
            lemma_sixteen_small(i - a + 1);
            bound = bound * 16;
        }
        v = v * 16 + hex_value(t[i]) as u32;
        i += 1;
    }
    Some(v)
}

/// Sixteen to the power `n`.
pub open spec fn spec_sixteen_to(n: int) -> int
    decreases n,
{
    if n <= 0 {
        1
    } else {
        16 * spec_sixteen_to(n - 1)
    }
}

proof fn lemma_sixteen_small(n: int)
    requires
        0 <= n <= 6,
    ensures
        1 <= spec_sixteen_to(n) <= 0x100_0000,
        n >= 1 ==> spec_sixteen_to(n) == 16 * spec_sixteen_to(n - 1),
{
    reveal_with_fuel(spec_sixteen_to, 8);
}

proof fn lemma_all_hex_prefix(t: Seq<u8>, a: int, m: int, b: int)
    requires
        a <= m <= b,
        spec_all_hex(t, a, b),
    ensures
        spec_all_hex(t, a, m),
    decreases b - m,
{
    if m < b {
        lemma_all_hex_prefix(t, a, m, b - 1);
    }
}

/// The code point that a glyph name stands for: the one listed for it;
/// for a single Latin letter, that letter; for `uni` and four hexadecimal
/// digits, or `u` and four to six, that number. Zero for any other name.
pub open spec fn spec_glyph_unicode(name: Seq<u8>) -> u32 {
    match spec_glyph_index(GLYPH_NAMES.spec_bytes(), 0, 0, name) {
        Some(k) => if 0 <= k < 196 {
            GLYPH_CODES[k] as u32
        } else {
            0
        },
        None => {
            if name.len() == 1 && ((65 <= name[0] <= 90) || (97 <= name[0] <= 122)) {
                name[0] as u32
            } else if name.len() >= 7 && name[0] == 117 && name[1] == 110 && name[2] == 105
                && spec_all_hex(name, 3, 7) {
                spec_hex_number(name, 3, 7) as u32
            } else if 5 <= name.len() <= 7 && name[0] == 117 && spec_all_hex(
                name,
                1,
                name.len() as int,
            ) {
                spec_hex_number(name, 1, name.len() as int) as u32
            } else {
                0
            }
        },
    }
}

/// Looks up the code point of a glyph name.
pub fn glyph_unicode(name: &[u8]) -> (r: u32)
    ensures
        r == spec_glyph_unicode(name@),
{
    match glyph_index(name) {
        Some(k) => {
            if k < 196 {
                GLYPH_CODES[k] as u32
            } else {
                0
            }
        },
        None => {
            let n: usize = name.len();
            if n == 1 && ((65 <= name[0] && name[0] <= 90) || (97 <= name[0] && name[0] <= 122)) {
                return name[0] as u32;
            }
            if n >= 7 && name[0] == 117 && name[1] == 110 && name[2] == 105 {
                match hex_number(name, 3, 7) {
                    Some(v) => {
                        return v;
                    },
                    None => {},
                }
            }
            if 5 <= n && n <= 7 && name[0] == 117 {
                match hex_number(name, 1, n) {
                    Some(v) => {
                        return v;
                    },
                    None => {},
                }
            }
            0
        },
    }
}

/// The encodings that a font can build on.
#[derive(Clone, Copy, Debug, PartialEq, Eq, Structural)]
pub enum BaseEncoding {
    Standard,
    WinAnsi,
    MacRoman,
}

/// The base encoding that `name` names; the standard encoding for a name
/// that names none.
pub open spec fn spec_base_encoding(name: Seq<u8>) -> BaseEncoding {
    if name == "WinAnsiEncoding".spec_bytes() {
        BaseEncoding::WinAnsi
    } else if name == "MacRomanEncoding".spec_bytes() {
        BaseEncoding::MacRoman
    } else {
        BaseEncoding::Standard
    }
}

/// Tells which base encoding a name names.
pub fn base_encoding(name: &[u8]) -> (r: BaseEncoding)
    ensures
        r == spec_base_encoding(name@),
{
    if bytes_eq(name, "WinAnsiEncoding".as_bytes()) {
        BaseEncoding::WinAnsi
    } else if bytes_eq(name, "MacRomanEncoding".as_bytes()) {
        BaseEncoding::MacRoman
    } else {
        BaseEncoding::Standard
    }
}

/// The code point that `base` gives to `code`.
pub open spec fn spec_base_scalar(base: BaseEncoding, code: int) -> u32 {
    if !(0 <= code < 256) {
        0
    } else {
        match base {
            BaseEncoding::Standard => STANDARD_TABLE[code] as u32,
            BaseEncoding::WinAnsi => WIN_ANSI_TABLE[code] as u32,
            BaseEncoding::MacRoman => MAC_ROMAN_TABLE[code] as u32,
        }
    }
}

/// The code points of the 256 codes under `base`.
pub open spec fn spec_base_table(base: BaseEncoding) -> Seq<u32> {
    Seq::new(256, |c: int| spec_base_scalar(base, c))
}

/// Lists the code points of the 256 codes under a base encoding.
pub fn base_table(base: BaseEncoding) -> (r: Vec<u32>)
    ensures
        r@ == spec_base_table(base),
{
    let mut out: Vec<u32> = Vec::new();
    while out.len() < 256
        invariant
            out@.len() <= 256,
            forall|c: int| 0 <= c < out@.len() ==> out@[c] == spec_base_scalar(base, c),
        decreases 256 - out.len(),
    {
        let c: usize = out.len();
        let v: u32 = match base {
            BaseEncoding::Standard => STANDARD_TABLE[c] as u32,
            BaseEncoding::WinAnsi => WIN_ANSI_TABLE[c] as u32,
            BaseEncoding::MacRoman => MAC_ROMAN_TABLE[c] as u32,
        };
        out.push(v);
    }
    assert(out@ =~= spec_base_table(base));
    out
}

/// `table` after the changes that the items from place `i` on ask for: an
/// integer sets the code for the names that follow it, and each name gives
/// its glyph to the current code and moves to the next. Codes beyond 255
/// change nothing.
pub open spec fn spec_apply_differences(table: Seq<u32>, items: Seq<Obj>, i: int, cur: int) -> Seq<
    u32,
>
    decreases items.len() - i,
{
    if i < 0 || i >= items.len() {
        table
    } else {
        match items[i] {
            Obj::Integer(n) => spec_apply_differences(table, items, i + 1, n),
            Obj::Name(nm) => spec_apply_differences(
                if 0 <= cur < table.len() {
                    table.update(cur, spec_glyph_unicode(nm))
                } else {
                    table
                },
                items,
                i + 1,
                if cur < 256 {
                    cur + 1
                } else {
                    cur
                },
            ),
            _ => spec_apply_differences(table, items, i + 1, cur),
        }
    }
}

/// Applies the changes that a differences array asks for.
pub fn apply_differences(table: &mut Vec<u32>, items: &Vec<PdfObject>)
    ensures
        final(table)@ == spec_apply_differences(old(table)@, view_items(items@), 0, 0),
{
    let mut i: usize = 0;
    let mut cur: i64 = 0;
    while i < items.len()
        invariant
            i <= items.len(),
            spec_apply_differences(old(table)@, view_items(items@), 0, 0)
                == spec_apply_differences(table@, view_items(items@), i as int, cur as int),
        decreases items.len() - i,
    {
        assert(view_items(items@)[i as int] == items@[i as int]@);
        match &items[i] {
            PdfObject::Integer(n) => {
                cur = *n;
            },
            PdfObject::Name(nm) => {
                if 0 <= cur && (cur as u64) < table.len() as u64 {
                    table.set(cur as usize, glyph_unicode(nm.as_slice()));
                }
                if cur < 256 {
                    cur = cur + 1;
                }
            },
            _ => {},
        }
        i += 1;
    }
}

} // verus!
