//! Cross-reference data: where each indirect object is stored.

use vstd::prelude::*;
use vstd::slice::slice_subrange;
use vstd::string::*;
use crate::filter::{decode, spec_decode};
use crate::lexer::{
    Number, matches_word, parse_number, spec_matches_word, regular_end, skip_whitespace,
    spec_number, spec_regular_end, spec_skip_whitespace,
};
use crate::object::{
    DictEntry, MAX_DEPTH, Obj, PdfObject, dict_get_str, parse_object_at, parse_value, remaining,
    spec_dict_get, spec_parse_object, spec_parse_value, view_entries, view_items, };

verus! {

/// The name of an indirect object.
#[derive(Clone, Copy, Debug, PartialEq, Eq, Structural)]
pub struct ObjectId {
    pub number: u32,
    pub generation: u16,
}

/// Where an object is stored.
#[derive(Clone, Copy, Debug, PartialEq, Eq, Structural)]
pub enum Locator {
    /// The number is not in use.
    Free,
    /// At a byte offset of the file.
    Offset(usize),
    /// Inside the object stream with the given number, at the given place.
    Compressed(u32, u32),
}

/// One line of cross-reference data.
#[derive(Clone, Copy, Debug, PartialEq, Eq, Structural)]
pub struct XrefEntry {
    pub number: u32,
    pub locator: Locator,
}

/// One cross-reference section with what its trailer says.
#[derive(Debug, PartialEq)]
pub struct Section {
    pub entries: Vec<XrefEntry>,
    pub root: Option<ObjectId>,
    pub prev: Option<usize>,
}

impl View for Section {
    type V = (Seq<XrefEntry>, Option<ObjectId>, Option<usize>);

    open spec fn view(&self) -> Self::V {
        (self.entries@, self.root, self.prev)
    }
}

/// The integer that the next token at or after `p` denotes, and the offset
/// after the token.
pub open spec fn spec_token_integer(s: Seq<u8>, p: int) -> Option<(int, int)> {
    let q = spec_skip_whitespace(s, p);
    let e = spec_regular_end(s, q);
    if p < 0 || p > s.len() {
        None
    } else {
        match spec_number(s.subrange(q, e)) {
            Some(Number::Integer(n)) => Some((n as int, e)),
            _ => None,
        }
    }
}

/// Reads the next token as an integer.
pub fn token_integer(data: &[u8], pos: usize) -> (r: Option<(i64, usize)>)
    ensures
        match r {
            Some((n, e)) => spec_token_integer(data@, pos as int) == Some((n as int, e as int))
                && pos < e <= data.len(),
            None => spec_token_integer(data@, pos as int) is None,
        },
{
    if pos > data.len() {
        return None;
    }
    let q: usize = skip_whitespace(data, pos);
    let e: usize = regular_end(data, q);
    match parse_number(slice_subrange(data, q, e)) {
        Some(Number::Integer(n)) => {
            assert(e > q) by {
                if e == q {
                    assert(data@.subrange(q as int, e as int).len() == 0);
                }
            }
            Some((n, e))
        },
        _ => None,
    }
}

/// The offset after the next token at or after `p`, if that token is `w`.
pub open spec fn spec_keyword(s: Seq<u8>, p: int, w: Seq<u8>) -> Option<int> {
    let q = spec_skip_whitespace(s, p);
    let e = spec_regular_end(s, q);
    if e > q && spec_matches_word(s, q, e, w) {
        Some(e)
    } else {
        None
    }
}

/// Reads the next token where it is `word`.
pub fn keyword(data: &[u8], pos: usize, word: &str) -> (r: Option<usize>)
    ensures
        match r {
            Some(e) => spec_keyword(data@, pos as int, word.spec_bytes()) == Some(e as int) && pos
                < e <= data.len(),
            None => spec_keyword(data@, pos as int, word.spec_bytes()) is None,
        },
{
    let q: usize = skip_whitespace(data, pos);
    let e: usize = regular_end(data, q);
    if e > q && matches_word(data, q, e, word) {
        Some(e)
    } else {
        None
    }
}

/// The number, the generation and the end of the header `N G obj` at or
/// after `p`.
pub open spec fn spec_object_header(s: Seq<u8>, p: int) -> Option<(ObjectId, int)> {
    match spec_token_integer(s, p) {
        None => None,
        Some((n, e1)) => match spec_token_integer(s, e1) {
            None => None,
            Some((g, e2)) => match spec_keyword(s, e2, "obj".spec_bytes()) {
                None => None,
                Some(e3) => if 0 <= n <= 0xffff_ffff && 0 <= g <= 0xffff {
                    Some((ObjectId { number: n as u32, generation: g as u16 }, e3))
                } else {
                    None
                },
            },
        },
    }
}

/// Reads the header `N G obj` of an indirect object.
pub fn object_header(data: &[u8], pos: usize) -> (r: Option<(ObjectId, usize)>)
    ensures
        match r {
            Some((id, e)) => spec_object_header(data@, pos as int) == Some((id, e as int)) && pos
                < e <= data.len(),
            None => spec_object_header(data@, pos as int) is None,
        },
{
    match token_integer(data, pos) {
        None => None,
        Some((n, e1)) => match token_integer(data, e1) {
            None => None,
            Some((g, e2)) => match keyword(data, e2, "obj") {
                None => None,
                Some(e3) => {
                    if 0 <= n && n <= 0xffff_ffff && 0 <= g && g <= 0xffff {
                        Some((ObjectId { number: n as u32, generation: g as u16 }, e3))
                    } else {
                        None
                    }
                },
            },
        },
    }
}

/// The entries of one subsection of a classic table: `count` lines from
/// `p` on, each an offset, a generation and `n` for an object in use or
/// `f` for a free number. Line `i` is for object `first + i`.
pub open spec fn spec_classic_entries(
    s: Seq<u8>,
    p: int,
    first: int,
    count: int,
    i: int,
    acc: Seq<XrefEntry>,
) -> Option<(Seq<XrefEntry>, int)>
    decreases count - i,
{
    if i >= count {
        Some((acc, p))
    } else {
        match spec_token_integer(s, p) {
            None => None,
            Some((off, e1)) => match spec_token_integer(s, e1) {
                None => None,
                Some((gen, e2)) => {
                    let number = first + i;
                    if !(0 <= number <= 0xffff_ffff) {
                        None
                    } else if spec_keyword(s, e2, "n".spec_bytes()) is Some {
                        if 0 <= off <= usize::MAX {
                            spec_classic_entries(
                                s,
                                spec_keyword(s, e2, "n".spec_bytes())->Some_0,
                                first,
                                count,
                                i + 1,
                                acc.push(
                                    XrefEntry {
                                        number: number as u32,
                                        locator: Locator::Offset(off as usize),
                                    },
                                ),
                            )
                        } else {
                            None
                        }
                    } else if spec_keyword(s, e2, "f".spec_bytes()) is Some {
                        spec_classic_entries(
                            s,
                            spec_keyword(s, e2, "f".spec_bytes())->Some_0,
                            first,
                            count,
                            i + 1,
                            acc.push(XrefEntry { number: number as u32, locator: Locator::Free }),
                        )
                    } else {
                        None
                    }
                },
            },
        }
    }
}

fn classic_entries(data: &[u8], pos: usize, first: i64, count: i64, out: &mut Vec<XrefEntry>) -> (r:
    Option<usize>)
    requires
        pos <= data.len(),
        0 <= first,
        0 <= count,
    ensures
        match r {
            Some(e) => spec_classic_entries(
                data@,
                pos as int,
                first as int,
                count as int,
                0,
                old(out)@,
            ) == Some((final(out)@, e as int)) && pos <= e <= data.len(),
            None => spec_classic_entries(
                data@,
                pos as int,
                first as int,
                count as int,
                0,
                old(out)@,
            ) is None,
        },
{
    let mut i: i64 = 0;
    let mut p: usize = pos;
    while i < count
        invariant
            0 <= i <= count,
            0 <= first,
            pos <= p <= data.len(),
            spec_classic_entries(data@, pos as int, first as int, count as int, 0, old(out)@)
                == spec_classic_entries(
                data@,
                p as int,
                first as int,
                count as int,
                i as int,
                out@,
            ),
        decreases count - i,
    {
        let (off, e1) = match token_integer(data, p) {
            None => {
                return None;
            },
            Some(x) => x,
        };
        let (_, e2) = match token_integer(data, e1) {
            None => {
                return None;
            },
            Some(x) => x,
        };
        if first > 0xffff_ffff - i {
            return None;
        }
        let number: u32 = (first + i) as u32;
        match keyword(data, e2, "n") {
            Some(e3) => {
                if off < 0 || off as u64 > usize::MAX as u64 {
                    return None;
                }
                out.push(XrefEntry { number, locator: Locator::Offset(off as usize) });
                p = e3;
            },
            None => match keyword(data, e2, "f") {
                Some(e3) => {
                    out.push(XrefEntry { number, locator: Locator::Free });
                    p = e3;
                },
                None => {
                    return None;
                },
            },
        }
        i += 1;
    }
    Some(p)
}

/// The entries of the subsections of a classic table from `p` on, up to
/// the keyword `trailer`, and the offset after that keyword.
pub open spec fn spec_classic_sections(s: Seq<u8>, p: int, acc: Seq<XrefEntry>) -> Option<
    (Seq<XrefEntry>, int),
>
    decreases remaining(s, p),
{
    match spec_keyword(s, p, "trailer".spec_bytes()) {
        Some(e) => Some((acc, e)),
        None => match spec_token_integer(s, p) {
            None => None,
            Some((first, e1)) => match spec_token_integer(s, e1) {
                None => None,
                Some((count, e2)) => {
                    if first < 0 || count < 0 {
                        None
                    } else {
                        match spec_classic_entries(s, e2, first, count, 0, acc) {
                            None => None,
                            Some((acc2, e3)) => {
                                if p < e3 <= s.len() {
                                    spec_classic_sections(s, e3, acc2)
                                } else {
                                    None
                                }
                            },
                        }
                    }
                },
            },
        },
    }
}

/// What a trailer dictionary says: the document catalog and the offset of
/// the section before this one.
pub open spec fn spec_trailer_info(d: Seq<(Seq<u8>, Obj)>) -> (Option<ObjectId>, Option<usize>) {
    (
        match spec_dict_get(d, "Root".spec_bytes()) {
            Some(Obj::Reference(n, g)) => if 0 <= n <= 0xffff_ffff && 0 <= g <= 0xffff {
                Some(ObjectId { number: n as u32, generation: g as u16 })
            } else {
                None
            },
            _ => None,
        },
        match spec_dict_get(d, "Prev".spec_bytes()) {
            Some(Obj::Integer(n)) => if 0 <= n <= usize::MAX {
                Some(n as usize)
            } else {
                None
            },
            _ => None,
        },
    )
}

/// Reads the catalog and the link to the section before from a trailer
/// dictionary.
pub fn trailer_info(d: &Vec<DictEntry>) -> (r: (Option<ObjectId>, Option<usize>))
    ensures
        r == spec_trailer_info(view_entries(d@)),
{
    let root = match dict_get_str(d, "Root") {
        Some(PdfObject::Reference(n, g)) => Some(ObjectId { number: *n, generation: *g }),
        _ => None,
    };
    let prev = match dict_get_str(d, "Prev") {
        Some(PdfObject::Integer(n)) => {
            if 0 <= *n && *n as u64 <= usize::MAX as u64 {
                Some(*n as usize)
            } else {
                None
            }
        },
        _ => None,
    };
    (root, prev)
}

/// The classic section whose keyword `xref` ends at `p`: its subsections
/// and the dictionary after the keyword `trailer`.
pub open spec fn spec_classic_section(s: Seq<u8>, p: int) -> Option<
    (Seq<XrefEntry>, Option<ObjectId>, Option<usize>),
> {
    match spec_classic_sections(s, p, Seq::empty()) {
        None => None,
        Some((entries, e)) => match spec_parse_value(s, e, MAX_DEPTH as nat) {
            Ok((Obj::Dictionary(d), _)) => Some(
                (entries, spec_trailer_info(d).0, spec_trailer_info(d).1),
            ),
            _ => None,
        },
    }
}

fn classic_section(data: &[u8], pos: usize) -> (r: Option<Section>)
    requires
        pos <= data.len(),
    ensures
        match r {
            Some(sec) => spec_classic_section(data@, pos as int) == Some(sec@),
            None => spec_classic_section(data@, pos as int) is None,
        },
{
    let mut entries: Vec<XrefEntry> = Vec::new();
    let mut p: usize = pos;
    loop
        invariant
            pos <= p <= data.len(),
            spec_classic_sections(data@, pos as int, Seq::empty()) == spec_classic_sections(
                data@,
                p as int,
                entries@,
            ),
        decreases data.len() - p,
    {
        match keyword(data, p, "trailer") {
            Some(e) => {
                return match parse_value(data, e, MAX_DEPTH) {
                    Ok((PdfObject::Dictionary(d), _)) => {
                        let (root, prev) = trailer_info(&d);
                        Some(Section { entries, root, prev })
                    },
                    _ => None,
                };
            },
            None => {},
        }
        let (first, e1) = match token_integer(data, p) {
            None => {
                return None;
            },
            Some(x) => x,
        };
        let (count, e2) = match token_integer(data, e1) {
            None => {
                return None;
            },
            Some(x) => x,
        };
        if first < 0 || count < 0 {
            return None;
        }
        match classic_entries(data, e2, first, count, &mut entries) {
            None => {
                return None;
            },
            Some(e3) => {
                p = e3;
            },
        }
    }
}

/// The number that the `w` bytes from `p` on denote, most significant
/// first; beyond 64 bits it saturates.
pub open spec fn spec_be_value(d: Seq<u8>, p: int, w: int) -> int
    decreases w,
{
    if w <= 0 {
        0
    } else {
        let high = spec_be_value(d, p, w - 1);
        if high > 0x00ff_ffff_ffff_ffff {
            0xffff_ffff_ffff_ffff
        } else {
            high * 256 + d[p + w - 1]
        }
    }
}

fn be_value(d: &[u8], p: usize, w: usize) -> (r: u64)
    requires
        p + w <= d.len(),
    ensures
        r == spec_be_value(d@, p as int, w as int),
{
    let mut v: u64 = 0;
    let mut k: usize = 0;
    while k < w
        invariant
            k <= w,
            p + w <= d.len(),
            v == spec_be_value(d@, p as int, k as int),
        decreases w - k,
    {
        if v > 0x00ff_ffff_ffff_ffff {
            v = 0xffff_ffff_ffff_ffff;
        } else {
            v = v * 256 + d[p + k] as u64;
        }
        k += 1;
    }
    v
}

/// The widths of the three fields of an entry of a cross-reference stream.
#[derive(Clone, Copy, Debug, PartialEq, Eq, Structural)]
pub struct Widths {
    pub kind: usize,
    pub second: usize,
    pub third: usize,
}

impl Widths {
    /// How many bytes one entry takes.
    pub open spec fn total(self) -> int {
        self.kind + self.second + self.third
    }

    /// No field is wider than eight bytes, and an entry is not empty.
    pub open spec fn wf(self) -> bool {
        self.kind <= 8 && self.second <= 8 && self.third <= 8 && self.total() >= 1
    }
}

/// The entry for object `number` that the fields at `p` describe. The
/// first field tells what the entry is: zero a free number, one an offset,
/// two a place in an object stream. A missing first field counts as one.
pub open spec fn spec_stream_entry(d: Seq<u8>, p: int, w: Widths, number: int) -> Option<
    XrefEntry,
> {
    let kind = if w.kind == 0 {
        1
    } else {
        spec_be_value(d, p, w.kind as int)
    };
    let f1 = spec_be_value(d, p + w.kind, w.second as int);
    let f2 = spec_be_value(d, p + w.kind + w.second, w.third as int);
    if !(0 <= number <= 0xffff_ffff) {
        None
    } else if kind == 0 {
        Some(XrefEntry { number: number as u32, locator: Locator::Free })
    } else if kind == 1 {
        if f1 <= usize::MAX {
            Some(XrefEntry { number: number as u32, locator: Locator::Offset(f1 as usize) })
        } else {
            None
        }
    } else if kind == 2 {
        if f1 <= 0xffff_ffff && f2 <= 0xffff_ffff {
            Some(
                XrefEntry {
                    number: number as u32,
                    locator: Locator::Compressed(f1 as u32, f2 as u32),
                },
            )
        } else {
            None
        }
    } else {
        None
    }
}

/// The entries of one subsection of a cross-reference stream: up to
/// `count` of them from `p` on, as far as the data reaches. Entries that
/// describe nothing usable are passed over.
pub open spec fn spec_stream_entries(
    d: Seq<u8>,
    p: int,
    w: Widths,
    first: int,
    count: int,
    i: int,
    acc: Seq<XrefEntry>,
) -> (Seq<XrefEntry>, int)
    decreases count - i,
{
    if i >= count || p < 0 || p + w.total() > d.len() {
        (acc, p)
    } else {
        spec_stream_entries(
            d,
            p + w.total(),
            w,
            first,
            count,
            i + 1,
            match spec_stream_entry(d, p, w, first + i) {
                Some(e) => acc.push(e),
                None => acc,
            },
        )
    }
}

fn stream_entries(
    d: &[u8],
    pos: usize,
    w: Widths,
    first: i64,
    count: i64,
    out: &mut Vec<XrefEntry>,
) -> (r: usize)
    requires
        pos <= d.len(),
        w.wf(),
        0 <= first,
        0 <= count,
    ensures
        (final(out)@, r as int) == spec_stream_entries(
            d@,
            pos as int,
            w,
            first as int,
            count as int,
            0,
            old(out)@,
        ),
        pos <= r <= d.len(),
{
    let width: usize = w.kind + w.second + w.third;
    let mut i: i64 = 0;
    let mut p: usize = pos;
    while i < count && width <= d.len() - p
        invariant
            0 <= i <= count,
            0 <= first,
            w.wf(),
            width == w.total(),
            pos <= p <= d.len(),
            spec_stream_entries(d@, pos as int, w, first as int, count as int, 0, old(out)@)
                == spec_stream_entries(
                d@,
                p as int,
                w,
                first as int,
                count as int,
                i as int,
                out@,
            ),
        decreases count - i,
    {
        let kind: u64 = if w.kind == 0 {
            1
        } else {
            be_value(d, p, w.kind)
        };
        let f1: u64 = be_value(d, p + w.kind, w.second);
        let f2: u64 = be_value(d, p + w.kind + w.second, w.third);
        if first <= 0xffff_ffff - i {
            let number: u32 = (first + i) as u32;
            if kind == 0 {
                out.push(XrefEntry { number, locator: Locator::Free });
            } else if kind == 1 {
                if f1 <= usize::MAX as u64 {
                    out.push(XrefEntry { number, locator: Locator::Offset(f1 as usize) });
                }
            } else if kind == 2 {
                if f1 <= 0xffff_ffff && f2 <= 0xffff_ffff {
                    out.push(
                        XrefEntry { number, locator: Locator::Compressed(f1 as u32, f2 as u32) },
                    );
                }
            }
        }
        p = p + width;
        i += 1;
    }
    p
}

/// The entries of the subsections that the index array names from item `k`
/// on, two items for each: the first object number and the count.
pub open spec fn spec_stream_subsections(
    d: Seq<u8>,
    p: int,
    w: Widths,
    index: Seq<Obj>,
    k: int,
    acc: Seq<XrefEntry>,
) -> Seq<XrefEntry>
    decreases index.len() - k,
{
    if k < 0 || k + 1 >= index.len() {
        acc
    } else {
        match (index[k], index[k + 1]) {
            (Obj::Integer(first), Obj::Integer(count)) => {
                if first < 0 || count < 0 {
                    acc
                } else {
                    let r = spec_stream_entries(d, p, w, first, count, 0, acc);
                    spec_stream_subsections(d, r.1, w, index, k + 2, r.0)
                }
            },
            _ => acc,
        }
    }
}

fn stream_subsections(d: &[u8], w: Widths, index: &Vec<PdfObject>) -> (r: Vec<XrefEntry>)
    requires
        w.wf(),
    ensures
        r@ == spec_stream_subsections(d@, 0, w, view_items(index@), 0, Seq::empty()),
{
    let mut out: Vec<XrefEntry> = Vec::new();
    let mut k: usize = 0;
    let mut p: usize = 0;
    while index.len() - k >= 2
        invariant
            k <= index.len(),
            p <= d.len(),
            w.wf(),
            spec_stream_subsections(d@, 0, w, view_items(index@), 0, Seq::empty())
                == spec_stream_subsections(d@, p as int, w, view_items(index@), k as int, out@),
        decreases index.len() - k,
    {
        assert(view_items(index@)[k as int] == index@[k as int]@);
        assert(view_items(index@)[k + 1] == index@[k + 1]@);
        match (&index[k], &index[k + 1]) {
            (PdfObject::Integer(first), PdfObject::Integer(count)) => {
                if *first < 0 || *count < 0 {
                    return out;
                }
                p = stream_entries(d, p, w, *first, *count, &mut out);
            },
            _ => {
                return out;
            },
        }
        k += 2;
    }
    out
}

/// The field widths that the dictionary of a cross-reference stream
/// declares: three integers up to 8, not all zero.
pub open spec fn spec_widths(d: Seq<(Seq<u8>, Obj)>) -> Option<Widths> {
    match spec_dict_get(d, "W".spec_bytes()) {
        Some(Obj::Array(a)) => if a.len() == 3 {
            match (a[0], a[1], a[2]) {
                (Obj::Integer(x), Obj::Integer(y), Obj::Integer(z)) => if 0 <= x <= 8 && 0 <= y
                    <= 8 && 0 <= z <= 8 && x + y + z >= 1 {
                    Some(Widths { kind: x as usize, second: y as usize, third: z as usize })
                } else {
                    None
                },
                _ => None,
            }
        } else {
            None
        },
        _ => None,
    }
}

fn widths(d: &Vec<DictEntry>) -> (r: Option<Widths>)
    ensures
        r == spec_widths(view_entries(d@)),
        r matches Some(w) ==> w.wf(),
{
    match dict_get_str(d, "W") {
        Some(PdfObject::Array(a)) => {
            if a.len() == 3 {
                assert(view_items(a@)[0] == a@[0]@);
                assert(view_items(a@)[1] == a@[1]@);
                assert(view_items(a@)[2] == a@[2]@);
                match (&a[0], &a[1], &a[2]) {
                    (PdfObject::Integer(x), PdfObject::Integer(y), PdfObject::Integer(z)) => {
                        if 0 <= *x && *x <= 8 && 0 <= *y && *y <= 8 && 0 <= *z && *z <= 8 && *x
                            + *y + *z >= 1 {
                            Some(
                                Widths {
                                    kind: *x as usize,
                                    second: *y as usize,
                                    third: *z as usize,
                                },
                            )
                        } else {
                            None
                        }
                    },
                    _ => None,
                }
            } else {
                None
            }
        },
        _ => None,
    }
}

/// The entries that a decoded cross-reference stream holds: those of the
/// subsections that its index names, or of one subsection that starts at
/// object 0 and has as many entries as the size entry says.
pub open spec fn spec_stream_table(d: Seq<(Seq<u8>, Obj)>, data: Seq<u8>, w: Widths) -> Seq<
    XrefEntry,
> {
    match spec_dict_get(d, "Index".spec_bytes()) {
        Some(Obj::Array(index)) => spec_stream_subsections(data, 0, w, index, 0, Seq::empty()),
        _ => match spec_dict_get(d, "Size".spec_bytes()) {
            Some(Obj::Integer(n)) => if n >= 0 {
                spec_stream_entries(data, 0, w, 0, n, 0, Seq::empty()).0
            } else {
                Seq::empty()
            },
            _ => Seq::empty(),
        },
    }
}

/// The section that the cross-reference stream at `offset` holds: the
/// stream is an indirect object, and its dictionary serves as the trailer.
pub open spec fn spec_stream_section(s: Seq<u8>, offset: int) -> Option<
    (Seq<XrefEntry>, Option<ObjectId>, Option<usize>),
> {
    match spec_object_header(s, offset) {
        None => None,
        Some((_, e)) => match spec_parse_object(s, e) {
            Ok((Obj::Stream(d, raw), _)) => match (spec_decode(d, raw), spec_widths(d)) {
                (Ok(data), Some(w)) => Some(
                    (spec_stream_table(d, data, w), spec_trailer_info(d).0, spec_trailer_info(d).1),
                ),
                _ => None,
            },
            _ => None,
        },
    }
}

fn stream_section(data: &[u8], offset: usize) -> (r: Option<Section>)
    requires
        offset <= data.len(),
    ensures
        match r {
            Some(sec) => spec_stream_section(data@, offset as int) == Some(sec@),
            None => spec_stream_section(data@, offset as int) is None,
        },
{
    let e: usize = match object_header(data, offset) {
        None => {
            return None;
        },
        Some((_, e)) => e,
    };
    match parse_object_at(data, e) {
        Ok((PdfObject::Stream(d, raw), _)) => {
            let decoded = match decode(&d, raw.as_slice()) {
                Err(_) => {
                    return None;
                },
                Ok(v) => v,
            };
            let w = match widths(&d) {
                None => {
                    return None;
                },
                Some(w) => w,
            };
            let entries: Vec<XrefEntry> = match dict_get_str(&d, "Index") {
                Some(PdfObject::Array(index)) => stream_subsections(decoded.as_slice(), w, index),
                _ => match dict_get_str(&d, "Size") {
                    Some(PdfObject::Integer(n)) => {
                        let mut out: Vec<XrefEntry> = Vec::new();
                        if *n >= 0 {
                            stream_entries(decoded.as_slice(), 0, w, 0, *n, &mut out);
                        }
                        out
                    },
                    _ => Vec::new(),
                },
            };
            let (root, prev) = trailer_info(&d);
            Some(Section { entries, root, prev })
        },
        _ => None,
    }
}

/// The section at `offset`: a classic table where the keyword `xref`
/// stands there, a cross-reference stream otherwise.
pub open spec fn spec_parse_section(s: Seq<u8>, offset: int) -> Option<
    (Seq<XrefEntry>, Option<ObjectId>, Option<usize>),
> {
    if offset < 0 || offset > s.len() {
        None
    } else {
        match spec_keyword(s, offset, "xref".spec_bytes()) {
            Some(e) => spec_classic_section(s, e),
            None => spec_stream_section(s, offset),
        }
    }
}

/// Reads the cross-reference section at `offset`.
pub fn parse_section(data: &[u8], offset: usize) -> (r: Option<Section>)
    ensures
        match r {
            Some(sec) => spec_parse_section(data@, offset as int) == Some(sec@),
            None => spec_parse_section(data@, offset as int) is None,
        },
{
    if offset > data.len() {
        return None;
    }
    match keyword(data, offset, "xref") {
        Some(e) => classic_section(data, e),
        None => stream_section(data, offset),
    }
}

} // verus!
