//! The cross-reference table of a document: sections merged newest first,
//! or rebuilt from the objects themselves where no section can be read.

use std::collections::HashMap;
use vstd::prelude::*;
use vstd::string::*;
use crate::error::ExtractError;
use crate::lexer::{is_digit, is_regular, matches_word};
use crate::object::{
    MAX_DEPTH, Obj, PdfObject, dict_get_str, bytes_eq, parse_value, remaining, spec_dict_get,
    spec_parse_value, };
use crate::xref::{
    Locator, ObjectId, Section, XrefEntry, keyword, object_header, parse_section, spec_keyword,
    spec_object_header, spec_parse_section, spec_token_integer, spec_trailer_info, token_integer,
    trailer_info,
};

verus! {

broadcast use vstd::std_specs::hash::group_hash_axioms;

/// How many sections are followed back from the newest.
pub const MAX_SECTIONS: usize = 1024;

/// How far from the end of the file the pointer to the newest section is
/// looked for.
pub const TAIL_WINDOW: usize = 1024;

/// Where every object of a document is stored, and which object is the
/// document catalog.
#[derive(Debug)]
pub struct XrefTable {
    pub map: HashMap<u32, Locator>,
    pub root: ObjectId,
}

impl View for XrefTable {
    type V = (Map<u32, Locator>, ObjectId);

    open spec fn view(&self) -> Self::V {
        (self.map@, self.root)
    }
}

impl XrefTable {
    /// Where object `number` is stored, if the table knows it.
    pub fn locate(&self, number: u32) -> (r: Option<Locator>)
        ensures
            r == if self@.0.contains_key(number) {
                Some(self@.0[number])
            } else {
                None
            },
    {
        match self.map.get(&number) {
            Some(l) => Some(*l),
            None => None,
        }
    }
}

/// `t` with the entries of an older section from place `i` on: an entry is
/// taken only where `t` has nothing for its number yet.
pub open spec fn spec_merge(t: Map<u32, Locator>, e: Seq<XrefEntry>, i: int) -> Map<u32, Locator>
    decreases e.len() - i,
{
    if i < 0 || i >= e.len() {
        t
    } else {
        spec_merge(
            if t.contains_key(e[i].number) {
                t
            } else {
                t.insert(e[i].number, e[i].locator)
            },
            e,
            i + 1,
        )
    }
}

/// Adds the entries of an older section to the table.
pub fn merge(map: &mut HashMap<u32, Locator>, entries: &Vec<XrefEntry>)
    ensures
        final(map)@ == spec_merge(old(map)@, entries@, 0),
{
    let mut i: usize = 0;
    while i < entries.len()
        invariant
            i <= entries.len(),
            spec_merge(old(map)@, entries@, 0) == spec_merge(map@, entries@, i as int),
        decreases entries.len() - i,
    {
        let e: XrefEntry = entries[i];
        if !map.contains_key(&e.number) {
            map.insert(e.number, e.locator);
        }
        i += 1;
    }
}

proof fn lemma_merge_keeps(t: Map<u32, Locator>, e: Seq<XrefEntry>, i: int, n: u32)
    requires
        t.contains_key(n),
    ensures
        spec_merge(t, e, i).contains_key(n),
        spec_merge(t, e, i)[n] == t[n],
    decreases e.len() - i,
{
    if 0 <= i < e.len() {
        if t.contains_key(e[i].number) {
            lemma_merge_keeps(t, e, i + 1, n);
        } else {
            lemma_merge_keeps(t.insert(e[i].number, e[i].locator), e, i + 1, n);
        }
    }
}

/// What a newer section says of an object stands, whatever an older
/// section says of the same object.
pub proof fn lemma_merge_newer_wins(newer: Map<u32, Locator>, older: Seq<XrefEntry>, n: u32)
    requires
        newer.contains_key(n),
    ensures
        spec_merge(newer, older, 0).contains_key(n),
        spec_merge(newer, older, 0)[n] == newer[n],
{
    lemma_merge_keeps(newer, older, 0, n);
}

proof fn lemma_merge_adds_from(t: Map<u32, Locator>, e: Seq<XrefEntry>, i: int, k: int)
    requires
        0 <= i <= k < e.len(),
        !t.contains_key(e[k].number),
        forall|j: int| i <= j < k ==> e[j].number != e[k].number,
    ensures
        spec_merge(t, e, i).contains_key(e[k].number),
        spec_merge(t, e, i)[e[k].number] == e[k].locator,
    decreases k - i,
{
    if i == k {
        lemma_merge_keeps(t.insert(e[k].number, e[k].locator), e, k + 1, e[k].number);
    } else {
        if t.contains_key(e[i].number) {
            lemma_merge_adds_from(t, e, i + 1, k);
        } else {
            lemma_merge_adds_from(t.insert(e[i].number, e[i].locator), e, i + 1, k);
        }
    }
}

/// An object that only the older section knows is found where the first
/// entry for it in that section says.
pub proof fn lemma_merge_adds_older(newer: Map<u32, Locator>, older: Seq<XrefEntry>, k: int)
    requires
        0 <= k < older.len(),
        !newer.contains_key(older[k].number),
        forall|j: int| 0 <= j < k ==> older[j].number != older[k].number,
    ensures
        spec_merge(newer, older, 0).contains_key(older[k].number),
        spec_merge(newer, older, 0)[older[k].number] == older[k].locator,
{
    lemma_merge_adds_from(newer, older, 0, k);
}

/// The table and the catalog after the section `sec` and the sections
/// before it have been merged in, newest first. At most `fuel` links to an
/// earlier section are followed, and a link that leads to nothing readable
/// ends the chain.
pub open spec fn spec_chain(
    s: Seq<u8>,
    sec: (Seq<XrefEntry>, Option<ObjectId>, Option<usize>),
    table: Map<u32, Locator>,
    root: Option<ObjectId>,
    fuel: nat,
) -> (Map<u32, Locator>, Option<ObjectId>)
    decreases fuel,
{
    let t2 = spec_merge(table, sec.0, 0);
    let r2 = if root is Some {
        root
    } else {
        sec.1
    };
    match sec.2 {
        None => (t2, r2),
        Some(off) => if fuel == 0 {
            (t2, r2)
        } else {
            match spec_parse_section(s, off as int) {
                None => (t2, r2),
                Some(older) => spec_chain(s, older, t2, r2, (fuel - 1) as nat),
            }
        },
    }
}

/// What the table holds for an object before a section and the sections
/// before it are merged in, it holds afterwards.
pub proof fn lemma_chain_keeps(
    s: Seq<u8>,
    sec: (Seq<XrefEntry>, Option<ObjectId>, Option<usize>),
    table: Map<u32, Locator>,
    root: Option<ObjectId>,
    fuel: nat,
    n: u32,
)
    requires
        table.contains_key(n),
    ensures
        spec_chain(s, sec, table, root, fuel).0.contains_key(n),
        spec_chain(s, sec, table, root, fuel).0[n] == table[n],
    decreases fuel,
{
    lemma_merge_keeps(table, sec.0, 0, n);
    let t2 = spec_merge(table, sec.0, 0);
    match sec.2 {
        None => {},
        Some(off) => {
            if fuel > 0 {
                match spec_parse_section(s, off as int) {
                    None => {},
                    Some(older) => {
                        let r2 = if root is Some {
                            root
                        } else {
                            sec.1
                        };
                        lemma_chain_keeps(s, older, t2, r2, (fuel - 1) as nat, n);
                    },
                }
            }
        },
    }
}

/// An object that the newest section has an entry for is found where the
/// first such entry says, whatever the sections before it say of the same
/// object.
pub proof fn lemma_chain_newest_wins(
    s: Seq<u8>,
    newest: (Seq<XrefEntry>, Option<ObjectId>, Option<usize>),
    fuel: nat,
    k: int,
)
    requires
        0 <= k < newest.0.len(),
        forall|j: int| 0 <= j < k ==> newest.0[j].number != newest.0[k].number,
    ensures
        spec_chain(s, newest, Map::empty(), None, fuel).0.contains_key(newest.0[k].number),
        spec_chain(s, newest, Map::empty(), None, fuel).0[newest.0[k].number]
            == newest.0[k].locator,
{
    let n = newest.0[k].number;
    lemma_merge_adds_older(Map::empty(), newest.0, k);
    let t2 = spec_merge(Map::empty(), newest.0, 0);
    match newest.2 {
        None => {},
        Some(off) => {
            if fuel > 0 {
                match spec_parse_section(s, off as int) {
                    None => {},
                    Some(older) => {
                        lemma_chain_keeps(s, older, t2, newest.1, (fuel - 1) as nat, n);
                    },
                }
            }
        },
    }
}

fn chain(data: &[u8], first: Section) -> (r: (HashMap<u32, Locator>, Option<ObjectId>))
    ensures
        (r.0@, r.1) == spec_chain(data@, first@, Map::empty(), None, MAX_SECTIONS as nat),
{
    let mut map: HashMap<u32, Locator> = HashMap::new();
    let mut root: Option<ObjectId> = None;
    let mut sec: Section = first;
    let mut fuel: usize = MAX_SECTIONS;
    loop
        invariant
            spec_chain(data@, first@, Map::empty(), None, MAX_SECTIONS as nat) == spec_chain(
                data@,
                sec@,
                map@,
                root,
                fuel as nat,
            ),
        decreases fuel,
    {
        merge(&mut map, &sec.entries);
        if root.is_none() {
            root = sec.root;
        }
        match sec.prev {
            None => {
                return (map, root);
            },
            Some(off) => {
                if fuel == 0 {
                    return (map, root);
                }
                match parse_section(data, off) {
                    None => {
                        return (map, root);
                    },
                    Some(older) => {
                        sec = older;
                        fuel = fuel - 1;
                    },
                }
            },
        }
    }
}

/// The last offset from `p` down to `lo` at which `w` occurs.
pub open spec fn spec_rfind_word(s: Seq<u8>, p: int, lo: int, w: Seq<u8>) -> Option<int>
    decreases p - lo,
{
    if p < lo || p < 0 {
        None
    } else if p + w.len() <= s.len() && s.subrange(p, p + w.len()) == w {
        Some(p)
    } else if p == lo {
        None
    } else {
        spec_rfind_word(s, p - 1, lo, w)
    }
}

fn rfind_word(data: &[u8], hi: usize, lo: usize, word: &str) -> (r: Option<usize>)
    requires
        hi + word.spec_bytes().len() <= data.len(),
    ensures
        match r {
            Some(q) => spec_rfind_word(data@, hi as int, lo as int, word.spec_bytes()) == Some(
                q as int,
            ) && q + word.spec_bytes().len() <= data.len(),
            None => spec_rfind_word(data@, hi as int, lo as int, word.spec_bytes()) is None,
        },
{
    let w: usize = word.as_bytes().len();
    if hi < lo {
        return None;
    }
    let mut p: usize = hi;
    loop
        invariant
            lo <= p <= hi,
            w == word.spec_bytes().len(),
            hi + w <= data.len(),
            spec_rfind_word(data@, hi as int, lo as int, word.spec_bytes()) == spec_rfind_word(
                data@,
                p as int,
                lo as int,
                word.spec_bytes(),
            ),
        decreases p - lo,
    {
        if matches_word(data, p, p + w, word) {
            return Some(p);
        }
        if p == lo {
            return None;
        }
        p = p - 1;
    }
}

/// The offset of the newest section, as the end of the file declares it:
/// the integer after the last `startxref` in the tail of the file.
pub open spec fn spec_startxref(s: Seq<u8>) -> Option<usize> {
    let w = "startxref".spec_bytes();
    if s.len() < w.len() {
        None
    } else {
        let hi = s.len() - w.len();
        let lo: int = if s.len() > TAIL_WINDOW {
            s.len() - TAIL_WINDOW
        } else {
            0
        };
        match spec_rfind_word(s, hi, lo, w) {
            None => None,
            Some(q) => match spec_token_integer(s, q + w.len()) {
                Some((v, _)) => if 0 <= v <= s.len() {
                    Some(v as usize)
                } else {
                    None
                },
                None => None,
            },
        }
    }
}

/// Finds the offset of the newest section, as the end of the file declares
/// it.
pub fn startxref(data: &[u8]) -> (r: Option<usize>)
    ensures
        r == spec_startxref(data@),
        r matches Some(v) ==> v <= data.len(),
{
    let w: usize = "startxref".as_bytes().len();
    let n: usize = data.len();
    if n < w {
        return None;
    }
    let lo: usize = if n > TAIL_WINDOW {
        n - TAIL_WINDOW
    } else {
        0
    };
    match rfind_word(data, n - w, lo, "startxref") {
        None => None,
        Some(q) => match token_integer(data, q + w) {
            Some((v, _)) => {
                if 0 <= v && v as u64 <= n as u64 {
                    Some(v as usize)
                } else {
                    None
                }
            },
            None => None,
        },
    }
}

/// The table and the catalog that the sections of the file give, starting
/// from the one that the end of the file points to. There is none where
/// that section cannot be read or no section names a catalog.
pub open spec fn spec_primary(s: Seq<u8>) -> Option<(Map<u32, Locator>, ObjectId)> {
    match spec_startxref(s) {
        None => None,
        Some(off) => match spec_parse_section(s, off as int) {
            None => None,
            Some(sec) => {
                let r = spec_chain(s, sec, Map::empty(), None, MAX_SECTIONS as nat);
                match r.1 {
                    Some(root) => Some((r.0, root)),
                    None => None,
                }
            },
        },
    }
}

/// A token can start at `p`.
pub open spec fn spec_boundary(s: Seq<u8>, p: int) -> bool {
    p == 0 || (0 < p <= s.len() && !is_regular(s[p - 1]))
}

/// The object after the header that ends at `e` is a dictionary of type
/// `Catalog`.
pub open spec fn spec_is_catalog(s: Seq<u8>, e: int) -> bool {
    match spec_parse_value(s, e, MAX_DEPTH as nat) {
        Ok((Obj::Dictionary(d), _)) => spec_dict_get(d, "Type".spec_bytes()) == Some(
            Obj::Name("Catalog".spec_bytes()),
        ),
        _ => false,
    }
}

/// The catalog that the trailer dictionary after offset `e` names, or
/// `before` where there is no such dictionary or it names none.
pub open spec fn spec_scan_trailer(s: Seq<u8>, e: int, before: Option<ObjectId>) -> Option<
    ObjectId,
> {
    match spec_parse_value(s, e, MAX_DEPTH as nat) {
        Ok((Obj::Dictionary(d), _)) => match spec_trailer_info(d).0 {
            Some(r) => Some(r),
            None => before,
        },
        _ => before,
    }
}

/// What a walk over the file from `p` on finds: every header `N G obj`
/// puts its object at its offset, a later one replacing an earlier one for
/// the same number; the last trailer dictionary that names a catalog, and
/// the last object that is a catalog, are noted.
pub open spec fn spec_scan(
    s: Seq<u8>,
    p: int,
    table: Map<u32, Locator>,
    trailer_root: Option<ObjectId>,
    catalog: Option<ObjectId>,
) -> (Map<u32, Locator>, Option<ObjectId>, Option<ObjectId>)
    decreases remaining(s, p),
{
    if p < 0 || p >= s.len() {
        (table, trailer_root, catalog)
    } else if spec_boundary(s, p) && is_digit(s[p]) && spec_object_header(s, p) is Some {
        let (id, e) = spec_object_header(s, p)->Some_0;
        if p < e <= s.len() {
            spec_scan(
                s,
                e,
                table.insert(id.number, Locator::Offset(p as usize)),
                trailer_root,
                if spec_is_catalog(s, e) {
                    Some(id)
                } else {
                    catalog
                },
            )
        } else {
            (table, trailer_root, catalog)
        }
    } else if spec_boundary(s, p) && s[p] == 116 && spec_keyword(s, p, "trailer".spec_bytes())
        is Some {
        let e = spec_keyword(s, p, "trailer".spec_bytes())->Some_0;
        if p < e <= s.len() {
            spec_scan(s, e, table, spec_scan_trailer(s, e, trailer_root), catalog)
        } else {
            (table, trailer_root, catalog)
        }
    } else {
        spec_scan(s, p + 1, table, trailer_root, catalog)
    }
}

fn is_catalog(data: &[u8], e: usize) -> (r: bool)
    requires
        e <= data.len(),
    ensures
        r == spec_is_catalog(data@, e as int),
{
    match parse_value(data, e, MAX_DEPTH) {
        Ok((PdfObject::Dictionary(d), _)) => match dict_get_str(&d, "Type") {
            Some(PdfObject::Name(n)) => bytes_eq(n.as_slice(), "Catalog".as_bytes()),
            _ => false,
        },
        _ => false,
    }
}

fn scan_trailer(data: &[u8], e: usize, before: Option<ObjectId>) -> (r: Option<ObjectId>)
    requires
        e <= data.len(),
    ensures
        r == spec_scan_trailer(data@, e as int, before),
{
    match parse_value(data, e, MAX_DEPTH) {
        Ok((PdfObject::Dictionary(d), _)) => match trailer_info(&d).0 {
            Some(r) => Some(r),
            None => before,
        },
        _ => before,
    }
}

fn scan(data: &[u8]) -> (r: (HashMap<u32, Locator>, Option<ObjectId>, Option<ObjectId>))
    ensures
        (r.0@, r.1, r.2) == spec_scan(data@, 0, Map::empty(), None, None),
{
    let mut map: HashMap<u32, Locator> = HashMap::new();
    let mut trailer_root: Option<ObjectId> = None;
    let mut catalog: Option<ObjectId> = None;
    let n: usize = data.len();
    let mut p: usize = 0;
    while p < n
        invariant
            n == data.len(),
            p <= n,
            spec_scan(data@, 0, Map::empty(), None, None) == spec_scan(
                data@,
                p as int,
                map@,
                trailer_root,
                catalog,
            ),
        decreases n - p,
    {
        let boundary: bool = p == 0 || !is_regular(data[p - 1]);
        let mut next: usize = p + 1;
        if boundary && is_digit(data[p]) {
            match object_header(data, p) {
                Some((id, e)) => {
                    map.insert(id.number, Locator::Offset(p));
                    if is_catalog(data, e) {
                        catalog = Some(id);
                    }
                    next = e;
                },
                None => {},
            }
        } else if boundary && data[p] == 116 {
            match keyword(data, p, "trailer") {
                Some(e) => {
                    trailer_root = scan_trailer(data, e, trailer_root);
                    next = e;
                },
                None => {},
            }
        }
        p = next;
    }
    (map, trailer_root, catalog)
}

/// The table and the catalog that a walk over the whole file gives. The
/// catalog is the one that the last trailer names, or else the last object
/// that is a catalog; there is no table where neither exists.
pub open spec fn spec_fallback(s: Seq<u8>) -> Option<(Map<u32, Locator>, ObjectId)> {
    let r = spec_scan(s, 0, Map::empty(), None, None);
    match r.1 {
        Some(root) => Some((r.0, root)),
        None => match r.2 {
            Some(root) => Some((r.0, root)),
            None => None,
        },
    }
}

/// The cross-reference table of the file: from its sections where they can
/// be read, from a walk over its objects otherwise.
pub open spec fn spec_build(s: Seq<u8>) -> Result<(Map<u32, Locator>, ObjectId), ExtractError> {
    match spec_primary(s) {
        Some(x) => Ok(x),
        None => match spec_fallback(s) {
            Some(x) => Ok(x),
            None => Err(ExtractError::XrefError),
        },
    }
}

/// Builds the cross-reference table of a document.
pub fn build(bytes: &[u8]) -> (r: Result<XrefTable, ExtractError>)
    ensures
        r matches Err(e) ==> e.is_read_failure(),
        match r {
            Ok(t) => spec_build(bytes@) == Ok::<_, ExtractError>(t@),
            Err(e) => spec_build(bytes@) == Err::<(Map<u32, Locator>, ObjectId), _>(e),
        },
{
    match startxref(bytes) {
        Some(off) => match parse_section(bytes, off) {
            Some(sec) => {
                let (map, root) = chain(bytes, sec);
                match root {
                    Some(root) => {
                        return Ok(XrefTable { map, root });
                    },
                    None => {},
                }
            },
            None => {},
        },
        None => {},
    }
    let (map, trailer_root, catalog) = scan(bytes);
    match trailer_root {
        Some(root) => Ok(XrefTable { map, root }),
        None => match catalog {
            Some(root) => Ok(XrefTable { map, root }),
            None => Err(ExtractError::XrefError),
        },
    }
}

} // verus!
