//! Character maps: which code points the codes of a font stand for, as a
//! `ToUnicode` stream declares it.

use vstd::prelude::*;
use vstd::string::*;
use crate::object::{Obj, PdfObject, bytes_eq, remaining, view_items};
use crate::reader::ByteReader;
use crate::token::{Token, TokenView, next_token, spec_next_token};

verus! {

/// A range of codes of one byte length that the font uses.
#[derive(Clone, Copy, Debug, PartialEq, Eq, Structural)]
pub struct CodeRange {
    pub width: usize,
    pub lo: u32,
    pub hi: u32,
}

/// A range of codes and the place of its code points in the list of all
/// code points. The code `lo` stands for the code points listed; a code
/// `k` above it for the same with `k` added to the last.
#[derive(Clone, Copy, Debug, PartialEq, Eq, Structural)]
pub struct MapRange {
    pub width: usize,
    pub lo: u32,
    pub hi: u32,
    pub start: usize,
    pub len: usize,
}

/// A character map.
#[derive(Debug, PartialEq)]
pub struct CMap {
    pub spaces: Vec<CodeRange>,
    pub ranges: Vec<MapRange>,
    pub targets: Vec<u32>,
}

/// The mathematical value of a [`CMap`].
pub struct CMapView {
    pub spaces: Seq<CodeRange>,
    pub ranges: Seq<MapRange>,
    pub targets: Seq<u32>,
}

impl View for CMap {
    type V = CMapView;

    open spec fn view(&self) -> CMapView {
        CMapView { spaces: self.spaces@, ranges: self.ranges@, targets: self.targets@ }
    }
}

/// The map that maps nothing.
pub open spec fn spec_empty_cmap() -> CMapView {
    CMapView { spaces: Seq::empty(), ranges: Seq::empty(), targets: Seq::empty() }
}

/// The code that one to four bytes denote, most significant first.
pub open spec fn spec_code_of(b: Seq<u8>) -> Option<u32> {
    if b.len() == 1 {
        Some(b[0] as u32)
    } else if b.len() == 2 {
        Some((b[0] * 256 + b[1]) as u32)
    } else if b.len() == 3 {
        Some(((b[0] * 256 + b[1]) * 256 + b[2]) as u32)
    } else if b.len() == 4 {
        Some((((b[0] * 256 + b[1]) * 256 + b[2]) * 256 + b[3]) as u32)
    } else {
        None
    }
}

/// Reads one to four bytes as a code.
pub fn code_of(b: &[u8]) -> (r: Option<u32>)
    ensures
        r == spec_code_of(b@),
{
    let n: usize = b.len();
    if n == 1 {
        Some(b[0] as u32)
    } else if n == 2 {
        Some(b[0] as u32 * 256 + b[1] as u32)
    } else if n == 3 {
        Some((b[0] as u32 * 256 + b[1] as u32) * 256 + b[2] as u32)
    } else if n == 4 {
        Some(((b[0] as u32 * 256 + b[1] as u32) * 256 + b[2] as u32) * 256 + b[3] as u32)
    } else {
        None
    }
}

/// The code points that UTF-16 text spells, two bytes to a unit, most
/// significant first. A high surrogate joins with the low surrogate after
/// it; a surrogate that stands alone is passed on as it is.
pub open spec fn spec_utf16(b: Seq<u8>, i: int, acc: Seq<u32>) -> Seq<u32>
    decreases b.len() - i,
{
    if i < 0 || i + 2 > b.len() {
        acc
    } else {
        let u = b[i] * 256 + b[i + 1];
        if 0xd800 <= u < 0xdc00 && i + 4 <= b.len() && 0xdc00 <= b[i + 2] * 256 + b[i + 3]
            < 0xe000 {
            spec_utf16(
                b,
                i + 4,
                acc.push(
                    (0x10000 + (u - 0xd800) * 1024 + (b[i + 2] * 256 + b[i + 3] - 0xdc00)) as u32,
                ),
            )
        } else {
            spec_utf16(b, i + 2, acc.push(u as u32))
        }
    }
}

/// Appends the code points of UTF-16 text and returns how many there were.
fn push_utf16(out: &mut Vec<u32>, b: &[u8]) -> (r: usize)
    ensures
        final(out)@ == old(out)@ + spec_utf16(b@, 0, Seq::empty()),
        r == spec_utf16(b@, 0, Seq::empty()).len(),
{
    let n: usize = b.len();
    let mut i: usize = 0;
    let mut count: usize = 0;
    let ghost mut acc: Seq<u32> = Seq::empty();
    assert(out@ =~= old(out)@ + acc);
    while n - i >= 2
        invariant
            n == b.len(),
            i <= n,
            count == acc.len(),
            count <= i,
            out@ == old(out)@ + acc,
            spec_utf16(b@, 0, Seq::empty()) == spec_utf16(b@, i as int, acc),
        decreases n - i,
    {
        let u: u32 = b[i] as u32 * 256 + b[i + 1] as u32;
        let mut step: usize = 2;
        let mut v: u32 = u;
        if 0xd800 <= u && u < 0xdc00 && n - i >= 4 {
            let lo: u32 = b[i + 2] as u32 * 256 + b[i + 3] as u32;
            if 0xdc00 <= lo && lo < 0xe000 {
                v = 0x10000 + (u - 0xd800) * 1024 + (lo - 0xdc00);
                step = 4;
            }
        }
        out.push(v);
        proof {
            acc = acc.push(v);
            assert(out@ =~= old(out)@ + acc);
        }
        count += 1;
        i += step;
    }
    count
}

/// `cm` with one more range: the codes from `lo` to `hi`, `width` bytes
/// each, stand for the text `dst`.
pub open spec fn spec_add_target(cm: CMapView, width: nat, lo: u32, hi: u32, dst: Seq<u8>) -> CMapView {
    let t = spec_utf16(dst, 0, Seq::empty());
    CMapView {
        spaces: cm.spaces,
        ranges: cm.ranges.push(
            MapRange {
                width: width as usize,
                lo,
                hi,
                start: cm.targets.len() as usize,
                len: t.len() as usize,
            },
        ),
        targets: cm.targets + t,
    }
}

fn add_target(cm: &mut CMap, width: usize, lo: u32, hi: u32, dst: &[u8])
    ensures
        final(cm)@ == spec_add_target(old(cm)@, width as nat, lo, hi, dst@),
{
    let start: usize = cm.targets.len();
    let len: usize = push_utf16(&mut cm.targets, dst);
    cm.ranges.push(MapRange { width, lo, hi, start, len });
}

/// `cm` after the pairs of a `bfchar` block, taken from the operands from
/// place `i` on: each pair is a code and the text it stands for.
pub open spec fn spec_char_pairs(cm: CMapView, st: Seq<Obj>, i: int) -> CMapView
    decreases st.len() - i,
{
    if i < 0 || i + 2 > st.len() {
        cm
    } else {
        spec_char_pairs(
            match (st[i], st[i + 1]) {
                (Obj::String(src), Obj::String(dst)) => match spec_code_of(src) {
                    Some(c) => spec_add_target(cm, src.len(), c, c, dst),
                    None => cm,
                },
                _ => cm,
            },
            st,
            i + 2,
        )
    }
}

fn char_pairs(cm: &mut CMap, st: &Vec<PdfObject>)
    ensures
        final(cm)@ == spec_char_pairs(old(cm)@, view_items(st@), 0),
{
    let mut i: usize = 0;
    while st.len() - i >= 2
        invariant
            i <= st.len(),
            spec_char_pairs(old(cm)@, view_items(st@), 0) == spec_char_pairs(
                cm@,
                view_items(st@),
                i as int,
            ),
        decreases st.len() - i,
    {
        assert(view_items(st@)[i as int] == st@[i as int]@);
        assert(view_items(st@)[i + 1] == st@[i + 1]@);
        match (&st[i], &st[i + 1]) {
            (PdfObject::String(src), PdfObject::String(dst)) => {
                match code_of(src.as_slice()) {
                    Some(c) => {
                        add_target(cm, src.len(), c, c, dst.as_slice());
                    },
                    None => {},
                }
            },
            _ => {},
        }
        i += 2;
    }
}

/// `cm` after the pairs of a `codespacerange` block: each pair is the
/// first and the last code of a range, of the same byte length.
pub open spec fn spec_space_pairs(cm: CMapView, st: Seq<Obj>, i: int) -> CMapView
    decreases st.len() - i,
{
    if i < 0 || i + 2 > st.len() {
        cm
    } else {
        spec_space_pairs(
            match (st[i], st[i + 1]) {
                (Obj::String(a), Obj::String(b)) => match (spec_code_of(a), spec_code_of(b)) {
                    (Some(lo), Some(hi)) => if a.len() == b.len() {
                        CMapView {
                            spaces: cm.spaces.push(
                                CodeRange { width: a.len() as usize, lo, hi },
                            ),
                            ranges: cm.ranges,
                            targets: cm.targets,
                        }
                    } else {
                        cm
                    },
                    _ => cm,
                },
                _ => cm,
            },
            st,
            i + 2,
        )
    }
}

fn space_pairs(cm: &mut CMap, st: &Vec<PdfObject>)
    ensures
        final(cm)@ == spec_space_pairs(old(cm)@, view_items(st@), 0),
{
    let mut i: usize = 0;
    while st.len() - i >= 2
        invariant
            i <= st.len(),
            spec_space_pairs(old(cm)@, view_items(st@), 0) == spec_space_pairs(
                cm@,
                view_items(st@),
                i as int,
            ),
        decreases st.len() - i,
    {
        assert(view_items(st@)[i as int] == st@[i as int]@);
        assert(view_items(st@)[i + 1] == st@[i + 1]@);
        match (&st[i], &st[i + 1]) {
            (PdfObject::String(a), PdfObject::String(b)) => {
                match (code_of(a.as_slice()), code_of(b.as_slice())) {
                    (Some(lo), Some(hi)) => {
                        if a.len() == b.len() {
                            cm.spaces.push(CodeRange { width: a.len(), lo, hi });
                        }
                    },
                    _ => {},
                }
            },
            _ => {},
        }
        i += 2;
    }
}

/// `cm` after the items of a `bfrange` array from place `k` on: item `k`
/// is the text for the code `lo + k`, as long as that is no more than `hi`.
pub open spec fn spec_range_items(
    cm: CMapView,
    width: nat,
    lo: u32,
    hi: u32,
    items: Seq<Obj>,
    k: int,
) -> CMapView
    decreases items.len() - k,
{
    if k < 0 || k >= items.len() || lo + k > hi {
        cm
    } else {
        spec_range_items(
            match items[k] {
                Obj::String(dst) => spec_add_target(
                    cm,
                    width,
                    (lo + k) as u32,
                    (lo + k) as u32,
                    dst,
                ),
                _ => cm,
            },
            width,
            lo,
            hi,
            items,
            k + 1,
        )
    }
}

fn range_items(cm: &mut CMap, width: usize, lo: u32, hi: u32, items: &Vec<PdfObject>)
    ensures
        final(cm)@ == spec_range_items(old(cm)@, width as nat, lo, hi, view_items(items@), 0),
{
    let mut k: usize = 0;
    while k < items.len() && lo <= hi && k as u64 <= (hi - lo) as u64
        invariant
            k <= items.len(),
            spec_range_items(old(cm)@, width as nat, lo, hi, view_items(items@), 0)
                == spec_range_items(cm@, width as nat, lo, hi, view_items(items@), k as int),
        decreases items.len() - k,
    {
        assert(view_items(items@)[k as int] == items@[k as int]@);
        match &items[k] {
            PdfObject::String(dst) => {
                let c: u32 = lo + k as u32;
                add_target(cm, width, c, c, dst.as_slice());
            },
            _ => {},
        }
        k += 1;
    }
}

/// `cm` after the triples of a `bfrange` block: the first and the last
/// code of a range, and either the text for the first code or an array
/// with a text for every code.
pub open spec fn spec_range_triples(cm: CMapView, st: Seq<Obj>, i: int) -> CMapView
    decreases st.len() - i,
{
    if i < 0 || i + 3 > st.len() {
        cm
    } else {
        spec_range_triples(
            match (st[i], st[i + 1]) {
                (Obj::String(a), Obj::String(b)) => match (spec_code_of(a), spec_code_of(b)) {
                    (Some(lo), Some(hi)) => if a.len() == b.len() && lo <= hi {
                        match st[i + 2] {
                            Obj::String(dst) => spec_add_target(cm, a.len(), lo, hi, dst),
                            Obj::Array(items) => spec_range_items(cm, a.len(), lo, hi, items, 0),
                            _ => cm,
                        }
                    } else {
                        cm
                    },
                    _ => cm,
                },
                _ => cm,
            },
            st,
            i + 3,
        )
    }
}

fn range_triples(cm: &mut CMap, st: &Vec<PdfObject>)
    ensures
        final(cm)@ == spec_range_triples(old(cm)@, view_items(st@), 0),
{
    let mut i: usize = 0;
    while st.len() - i >= 3
        invariant
            i <= st.len(),
            spec_range_triples(old(cm)@, view_items(st@), 0) == spec_range_triples(
                cm@,
                view_items(st@),
                i as int,
            ),
        decreases st.len() - i,
    {
        assert(view_items(st@)[i as int] == st@[i as int]@);
        assert(view_items(st@)[i + 1] == st@[i + 1]@);
        assert(view_items(st@)[i + 2] == st@[i + 2]@);
        match (&st[i], &st[i + 1]) {
            (PdfObject::String(a), PdfObject::String(b)) => {
                match (code_of(a.as_slice()), code_of(b.as_slice())) {
                    (Some(lo), Some(hi)) => {
                        if a.len() == b.len() && lo <= hi {
                            match &st[i + 2] {
                                PdfObject::String(dst) => {
                                    add_target(cm, a.len(), lo, hi, dst.as_slice());
                                },
                                PdfObject::Array(items) => {
                                    range_items(cm, a.len(), lo, hi, items);
                                },
                                _ => {},
                            }
                        }
                    },
                    _ => {},
                }
            },
            _ => {},
        }
        i += 3;
    }
}

/// `cm` after the operator `op`, whose operands are `st`. Only the three
/// operators that end a block of ranges change the map.
pub open spec fn spec_cmap_operator(cm: CMapView, st: Seq<Obj>, op: Seq<u8>) -> CMapView {
    if op == "endcodespacerange".spec_bytes() {
        spec_space_pairs(cm, st, 0)
    } else if op == "endbfchar".spec_bytes() {
        spec_char_pairs(cm, st, 0)
    } else if op == "endbfrange".spec_bytes() {
        spec_range_triples(cm, st, 0)
    } else {
        cm
    }
}

fn cmap_operator(cm: &mut CMap, st: &Vec<PdfObject>, op: &[u8])
    ensures
        final(cm)@ == spec_cmap_operator(old(cm)@, view_items(st@), op@),
{
    if bytes_eq(op, "endcodespacerange".as_bytes()) {
        space_pairs(cm, st);
    } else if bytes_eq(op, "endbfchar".as_bytes()) {
        char_pairs(cm, st);
    } else if bytes_eq(op, "endbfrange".as_bytes()) {
        range_triples(cm, st);
    }
}

/// The map that the character map program from offset `p` on describes,
/// given the map so far and the operands that wait for their operator.
pub open spec fn spec_parse_cmap(s: Seq<u8>, p: int, cm: CMapView, st: Seq<Obj>) -> CMapView
    decreases remaining(s, p),
{
    let (tok, e) = spec_next_token(s, p);
    if !(p < e <= s.len()) {
        cm
    } else {
        match tok {
            TokenView::End => cm,
            TokenView::Junk => spec_parse_cmap(s, e, cm, st),
            TokenView::Operand(o) => spec_parse_cmap(s, e, cm, st.push(o)),
            TokenView::Operator(w) => spec_parse_cmap(
                s,
                e,
                spec_cmap_operator(cm, st, w),
                Seq::empty(),
            ),
        }
    }
}

/// Reads a character map.
pub fn parse_cmap(data: &[u8]) -> (r: CMap)
    ensures
        r@ == spec_parse_cmap(data@, 0, spec_empty_cmap(), Seq::empty()),
{
    let mut reader = ByteReader::new(data);
    let mut cm = CMap { spaces: Vec::new(), ranges: Vec::new(), targets: Vec::new() };
    let mut st: Vec<PdfObject> = Vec::new();
    assert(view_items(st@) =~= Seq::empty());
    loop
        invariant
            reader.input() == data@,
            0 <= reader.offset() <= data@.len(),
            spec_parse_cmap(data@, 0, spec_empty_cmap(), Seq::empty()) == spec_parse_cmap(
                data@,
                reader.offset(),
                cm@,
                view_items(st@),
            ),
        decreases data@.len() - reader.offset(),
    {
        let ghost before = view_items(st@);
        let tok = next_token(&mut reader);
        match tok {
            Token::End => {
                return cm;
            },
            Token::Junk => {},
            Token::Operand(o) => {
                let ghost ov = o@;
                st.push(o);
                assert(view_items(st@) =~= before.push(ov));
            },
            Token::Operator(w) => {
                cmap_operator(&mut cm, &st, w.as_slice());
                st = Vec::new();
                assert(view_items(st@) =~= Seq::empty());
            },
        }
    }
}

} // verus!
