//! The object model and the parser for it.
//!
//! The definitions of what the parser returns recurse on the offsets that
//! other definitions give. So that they are well founded, each checks that
//! such an offset lies after the one it started from and inside the data;
//! the functions prove that the check never fails on what they are given.

use vstd::prelude::*;
use vstd::slice::{slice_subrange, slice_to_vec};
use vstd::string::*;
use crate::error::ExtractError;
use crate::lexer::{
    Number, is_regular, matches_word, spec_matches_word, parse_hex_string, parse_literal_string,
    parse_name, parse_number, regular_end, skip_whitespace, spec_hex_string,
    spec_literal_string, spec_name, spec_number, spec_regular_end, spec_skip_whitespace,
};
use crate::reader::ByteReader;

verus! {

/// One entry of a dictionary.
#[derive(Debug, PartialEq)]
pub struct DictEntry {
    pub key: Vec<u8>,
    pub value: PdfObject,
}

/// A parsed object.
#[derive(Debug, PartialEq)]
pub enum PdfObject {
    Null,
    Boolean(bool),
    Integer(i64),
    /// A real number in thousandths.
    Real(i64),
    String(Vec<u8>),
    Name(Vec<u8>),
    Array(Vec<PdfObject>),
    Dictionary(Vec<DictEntry>),
    Stream(Vec<DictEntry>, Vec<u8>),
    Reference(u32, u16),
}

/// The mathematical value of a [`PdfObject`].
pub enum Obj {
    Null,
    Boolean(bool),
    Integer(int),
    Real(int),
    String(Seq<u8>),
    Name(Seq<u8>),
    Array(Seq<Obj>),
    Dictionary(Seq<(Seq<u8>, Obj)>),
    Stream(Seq<(Seq<u8>, Obj)>, Seq<u8>),
    Reference(int, int),
}

/// The values of the objects in `v`.
pub open spec fn view_items(v: Seq<PdfObject>) -> Seq<Obj>
    decreases v,
{
    Seq::new(v.len(), |i: int| if 0 <= i < v.len() { view_object(v[i]) } else { Obj::Null })
}

/// The keys and values of the entries in `v`.
pub open spec fn view_entries(v: Seq<DictEntry>) -> Seq<(Seq<u8>, Obj)>
    decreases v,
{
    Seq::new(
        v.len(),
        |i: int| if 0 <= i < v.len() { (v[i].key@, view_object(v[i].value)) } else { (Seq::empty(), Obj::Null) },
    )
}

/// The value of `o`.
pub open spec fn view_object(o: PdfObject) -> Obj
    decreases o,
{
    match o {
        PdfObject::Null => Obj::Null,
        PdfObject::Boolean(b) => Obj::Boolean(b),
        PdfObject::Integer(i) => Obj::Integer(i as int),
        PdfObject::Real(r) => Obj::Real(r as int),
        PdfObject::String(s) => Obj::String(s@),
        PdfObject::Name(n) => Obj::Name(n@),
        PdfObject::Array(a) => Obj::Array(view_items(a@)),
        PdfObject::Dictionary(d) => Obj::Dictionary(view_entries(d@)),
        PdfObject::Stream(d, b) => Obj::Stream(view_entries(d@), b@),
        PdfObject::Reference(n, g) => Obj::Reference(n as int, g as int),
    }
}

impl View for PdfObject {
    type V = Obj;

    open spec fn view(&self) -> Obj {
        view_object(*self)
    }
}

/// How deeply arrays and dictionaries may nest.
pub const MAX_DEPTH: usize = 64;

/// The index of the first entry at or after `from` whose key is `key`, or the
/// length of `d` where there is none.
pub open spec fn spec_dict_find(d: Seq<(Seq<u8>, Obj)>, key: Seq<u8>, from: int) -> int
    decreases d.len() - from,
{
    if from < 0 || from >= d.len() {
        d.len() as int
    } else if d[from].0 == key {
        from
    } else {
        spec_dict_find(d, key, from + 1)
    }
}

/// The value stored under `key`.
pub open spec fn spec_dict_get(d: Seq<(Seq<u8>, Obj)>, key: Seq<u8>) -> Option<Obj> {
    let i = spec_dict_find(d, key, 0);
    if i < d.len() {
        Some(d[i].1)
    } else {
        None
    }
}

/// `d` with `value` stored under `key`: in the place of the entry that had
/// the key, or at the end.
pub open spec fn spec_dict_put(d: Seq<(Seq<u8>, Obj)>, key: Seq<u8>, value: Obj) -> Seq<
    (Seq<u8>, Obj),
> {
    let i = spec_dict_find(d, key, 0);
    if i < d.len() {
        d.update(i, (key, value))
    } else {
        d.push((key, value))
    }
}

/// No key occurs twice.
pub open spec fn dict_unique(d: Seq<(Seq<u8>, Obj)>) -> bool {
    forall|i: int, j: int| 0 <= i < j < d.len() ==> (#[trigger] d[i]).0 != (#[trigger] d[j]).0
}

/// Every item is well formed.
pub open spec fn items_well_formed(a: Seq<Obj>) -> bool
    decreases a,
{
    forall|i: int| 0 <= i < a.len() ==> well_formed(#[trigger] a[i])
}

/// No key occurs twice, and every value is well formed.
pub open spec fn entries_well_formed(d: Seq<(Seq<u8>, Obj)>) -> bool
    decreases d,
{
    dict_unique(d) && forall|i: int| 0 <= i < d.len() ==> well_formed((#[trigger] d[i]).1)
}

/// Every dictionary in `o`, at any depth, has distinct keys.
pub open spec fn well_formed(o: Obj) -> bool
    decreases o,
{
    match o {
        Obj::Array(a) => items_well_formed(a),
        Obj::Dictionary(d) => entries_well_formed(d),
        Obj::Stream(d, _) => entries_well_formed(d),
        _ => true,
    }
}

proof fn lemma_dict_find_bounds(d: Seq<(Seq<u8>, Obj)>, key: Seq<u8>, from: int)
    requires
        0 <= from <= d.len(),
    ensures
        from <= spec_dict_find(d, key, from) <= d.len(),
        spec_dict_find(d, key, from) < d.len() ==> d[spec_dict_find(d, key, from)].0 == key,
        forall|k: int| from <= k < spec_dict_find(d, key, from) ==> (#[trigger] d[k]).0 != key,
    decreases d.len() - from,
{
    if from < d.len() && d[from].0 != key {
        lemma_dict_find_bounds(d, key, from + 1);
    }
}

/// Storing under a key keeps the keys distinct.
pub proof fn lemma_dict_put_unique(d: Seq<(Seq<u8>, Obj)>, key: Seq<u8>, value: Obj)
    requires
        dict_unique(d),
    ensures
        dict_unique(spec_dict_put(d, key, value)),
        spec_dict_get(spec_dict_put(d, key, value), key) == Some(value),
{
    lemma_dict_find_bounds(d, key, 0);
    let r = spec_dict_put(d, key, value);
    let i = spec_dict_find(d, key, 0);
    assert forall|a: int, b: int| 0 <= a < b < r.len() implies (#[trigger] r[a]).0 != (
    #[trigger] r[b]).0 by {
        if i < d.len() {
            assert(r[a].0 == d[a].0);
            assert(r[b].0 == d[b].0);
        } else {
            if b < d.len() {
                assert(r[a] == d[a]);
                assert(r[b] == d[b]);
            } else {
                assert(r[a] == d[a]);
            }
        }
    }
    lemma_dict_find_bounds(r, key, 0);
    let j = spec_dict_find(r, key, 0);
    if i < d.len() {
        assert(r[i].0 == key);
        if j < i {
            assert(r[j].0 == d[j].0);
        }
        if j > i {
            assert(r[i].0 != key);
        }
    } else {
        assert(r[d.len() as int].0 == key);
        if j < d.len() {
            assert(r[j] == d[j]);
        }
    }
}

/// Storing under one key leaves what the other keys hold.
pub proof fn lemma_dict_put_other_key(
    d: Seq<(Seq<u8>, Obj)>,
    key: Seq<u8>,
    value: Obj,
    other: Seq<u8>,
)
    requires
        other != key,
    ensures
        spec_dict_get(spec_dict_put(d, key, value), other) == spec_dict_get(d, other),
{
    lemma_dict_find_bounds(d, key, 0);
    lemma_dict_find_bounds(d, other, 0);
    let r = spec_dict_put(d, key, value);
    lemma_dict_find_bounds(r, other, 0);
    let i = spec_dict_find(d, other, 0);
    let j = spec_dict_find(r, other, 0);
    let k = spec_dict_find(d, key, 0);
    if i < d.len() {
        assert(r[i] == d[i]);
        if j < i {
            if j != k {
                assert(r[j] == d[j]);
            }
        }
    } else {
        if j < r.len() {
            if j < d.len() && j != k {
                assert(r[j] == d[j]);
            }
        }
    }
}

/// Storing a well-formed value keeps the entries well formed.
pub proof fn lemma_dict_put_well_formed(d: Seq<(Seq<u8>, Obj)>, key: Seq<u8>, value: Obj)
    requires
        entries_well_formed(d),
        well_formed(value),
    ensures
        entries_well_formed(spec_dict_put(d, key, value)),
{
    lemma_dict_put_unique(d, key, value);
    lemma_dict_find_bounds(d, key, 0);
    let r = spec_dict_put(d, key, value);
    let k = spec_dict_find(d, key, 0);
    assert forall|i: int| 0 <= i < r.len() implies well_formed((#[trigger] r[i]).1) by {
        if k < d.len() {
            if i != k {
                assert(r[i] == d[i]);
            }
        } else {
            if i < d.len() {
                assert(r[i] == d[i]);
            }
        }
    }
}

/// Whether two byte strings are equal.
pub fn bytes_eq(a: &[u8], b: &[u8]) -> (r: bool)
    ensures
        r == (a@ == b@),
{
    if a.len() != b.len() {
        return false;
    }
    let mut i: usize = 0;
    while i < a.len()
        invariant
            a.len() == b.len(),
            i <= a.len(),
            forall|k: int| 0 <= k < i ==> a@[k] == b@[k],
        decreases a.len() - i,
    {
        if a[i] != b[i] {
            return false;
        }
        i += 1;
    }
    assert(a@ =~= b@);
    true
}

/// Looks `key` up among the entries.
pub fn dict_get<'a>(d: &'a Vec<DictEntry>, key: &[u8]) -> (r: Option<&'a PdfObject>)
    ensures
        match r {
            Some(o) => spec_dict_get(view_entries(d@), key@) == Some(o@),
            None => spec_dict_get(view_entries(d@), key@) is None,
        },
{
    let mut i: usize = 0;
    while i < d.len()
        invariant
            i <= d.len(),
            spec_dict_find(view_entries(d@), key@, 0) == spec_dict_find(
                view_entries(d@),
                key@,
                i as int,
            ),
        decreases d.len() - i,
    {
        if bytes_eq(d[i].key.as_slice(), key) {
            return Some(&d[i].value);
        }
        i += 1;
    }
    None
}

/// Looks up the key that `word` spells.
pub fn dict_get_str<'a>(d: &'a Vec<DictEntry>, word: &str) -> (r: Option<&'a PdfObject>)
    ensures
        match r {
            Some(o) => spec_dict_get(view_entries(d@), word.spec_bytes()) == Some(o@),
            None => spec_dict_get(view_entries(d@), word.spec_bytes()) is None,
        },
{
    dict_get(d, word.as_bytes())
}

/// Stores `value` under `key`, replacing what the key held.
pub fn dict_put(d: &mut Vec<DictEntry>, key: Vec<u8>, value: PdfObject)
    ensures
        view_entries(final(d)@) == spec_dict_put(view_entries(old(d)@), key@, value@),
{
    let ghost k = key@;
    let ghost v = value@;
    let ghost before = view_entries(d@);
    let mut i: usize = 0;
    while i < d.len()
        invariant
            i <= d.len(),
            k == key@,
            v == value@,
            before == view_entries(d@),
            before == view_entries(old(d)@),
            spec_dict_find(before, k, 0) == spec_dict_find(before, k, i as int),
        decreases d.len() - i,
    {
        if bytes_eq(d[i].key.as_slice(), key.as_slice()) {
            assert(before[i as int].0 == k);
            assert(spec_dict_find(before, k, i as int) == i);
            d.set(i, DictEntry { key, value });
            assert(view_entries(d@) =~= before.update(i as int, (k, v)));
            return ;
        }
        i += 1;
    }
    d.push(DictEntry { key, value });
    assert(view_entries(d@) =~= before.push((k, v)));
}

/// How many bytes lie at or after `p`.
pub open spec fn remaining(s: Seq<u8>, p: int) -> nat {
    if p < s.len() {
        (s.len() - p) as nat
    } else {
        0
    }
}

/// The generation number and the end of the reference whose object number
/// ends at `e`: an integer and the keyword `R` must follow.
pub open spec fn spec_reference_tail(s: Seq<u8>, e: int) -> Option<(int, int)> {
    let q2 = spec_skip_whitespace(s, e);
    let e2 = spec_regular_end(s, q2);
    match spec_number(s.subrange(q2, e2)) {
        Some(Number::Integer(g)) => {
            let q3 = spec_skip_whitespace(s, e2);
            let e3 = spec_regular_end(s, q3);
            if 0 <= g <= 0xffff && spec_matches_word(s, q3, e3, "R".spec_bytes()) {
                Some((g as int, e3))
            } else {
                None
            }
        },
        _ => None,
    }
}

/// The object that the regular token at `q` denotes: a number, a reference,
/// a boolean or null.
pub open spec fn spec_parse_atom(s: Seq<u8>, q: int) -> Result<(Obj, int), ExtractError> {
    let e = spec_regular_end(s, q);
    let t = s.subrange(q, e);
    match spec_number(t) {
        Some(Number::Integer(n)) => {
            if 0 <= n <= 0xffff_ffff && spec_reference_tail(s, e) is Some {
                let (g, e3) = spec_reference_tail(s, e)->Some_0;
                Ok((Obj::Reference(n as int, g), e3))
            } else {
                Ok((Obj::Integer(n as int), e))
            }
        },
        Some(Number::Real(v)) => Ok((Obj::Real(v as int), e)),
        None => {
            if t == "true".spec_bytes() {
                Ok((Obj::Boolean(true), e))
            } else if t == "false".spec_bytes() {
                Ok((Obj::Boolean(false), e))
            } else if t == "null".spec_bytes() {
                Ok((Obj::Null, e))
            } else {
                Err(ExtractError::MalformedObject)
            }
        },
    }
}

/// The object that starts at the first token at or after `p`, and the offset
/// after it. Arrays and dictionaries may nest `depth` levels deep.
pub open spec fn spec_parse_value(s: Seq<u8>, p: int, depth: nat) -> Result<
    (Obj, int),
    ExtractError,
>
    decreases depth, 0nat,
{
    let q = spec_skip_whitespace(s, p);
    if q < 0 || q >= s.len() {
        Err(ExtractError::TruncatedInput)
    } else if s[q] == 47 {
        let (n, e) = spec_name(s, q + 1, Seq::empty());
        Ok((Obj::Name(n), e))
    } else if s[q] == 40 {
        match spec_literal_string(s, q + 1, 0, Seq::empty()) {
            Ok((b, e)) => Ok((Obj::String(b), e)),
            Err(e) => Err(e),
        }
    } else if s[q] == 60 {
        if q + 1 < s.len() && s[q + 1] == 60 {
            if depth == 0 {
                Err(ExtractError::MalformedObject)
            } else {
                match spec_parse_entries(s, q + 2, (depth - 1) as nat, Seq::empty()) {
                    Ok((d, e)) => Ok((Obj::Dictionary(d), e)),
                    Err(e) => Err(e),
                }
            }
        } else {
            match spec_hex_string(s, q + 1, Seq::empty(), None) {
                Ok((b, e)) => Ok((Obj::String(b), e)),
                Err(e) => Err(e),
            }
        }
    } else if s[q] == 91 {
        if depth == 0 {
            Err(ExtractError::MalformedObject)
        } else {
            match spec_parse_items(s, q + 1, (depth - 1) as nat, Seq::empty()) {
                Ok((a, e)) => Ok((Obj::Array(a), e)),
                Err(e) => Err(e),
            }
        }
    } else if is_regular(s[q]) {
        spec_parse_atom(s, q)
    } else {
        Err(ExtractError::MalformedObject)
    }
}

/// The items of an array whose opening bracket has been read, up to the
/// closing bracket.
pub open spec fn spec_parse_items(s: Seq<u8>, p: int, depth: nat, acc: Seq<Obj>) -> Result<
    (Seq<Obj>, int),
    ExtractError,
>
    decreases depth, 1 + remaining(s, p),
{
    let q = spec_skip_whitespace(s, p);
    if q < 0 || q >= s.len() {
        Err(ExtractError::TruncatedInput)
    } else if s[q] == 93 {
        Ok((acc, q + 1))
    } else {
        match spec_parse_value(s, q, depth) {
            Err(e) => Err(e),
            Ok((o, e)) => {
                if p < e <= s.len() {
                    spec_parse_items(s, e, depth, acc.push(o))
                } else {
                    Err(ExtractError::MalformedObject)
                }
            },
        }
    }
}

/// The entries of a dictionary whose opening brackets have been read, up to
/// the closing brackets. A key that occurs again replaces the earlier value.
pub open spec fn spec_parse_entries(
    s: Seq<u8>,
    p: int,
    depth: nat,
    acc: Seq<(Seq<u8>, Obj)>,
) -> Result<(Seq<(Seq<u8>, Obj)>, int), ExtractError>
    decreases depth, 1 + remaining(s, p),
{
    let q = spec_skip_whitespace(s, p);
    if q < 0 || q >= s.len() {
        Err(ExtractError::TruncatedInput)
    } else if s[q] == 62 {
        if q + 1 >= s.len() {
            Err(ExtractError::TruncatedInput)
        } else if s[q + 1] == 62 {
            Ok((acc, q + 2))
        } else {
            Err(ExtractError::MalformedObject)
        }
    } else if s[q] == 47 {
        let (k, e1) = spec_name(s, q + 1, Seq::empty());
        match spec_parse_value(s, e1, depth) {
            Err(e) => Err(e),
            Ok((v, e2)) => {
                if p < e2 <= s.len() {
                    spec_parse_entries(s, e2, depth, spec_dict_put(acc, k, v))
                } else {
                    Err(ExtractError::MalformedObject)
                }
            },
        }
    } else {
        Err(ExtractError::MalformedObject)
    }
}

/// A parser's result with the object taken by its view.
pub open spec fn lift_object(r: Result<(PdfObject, usize), ExtractError>) -> Result<
    (Obj, int),
    ExtractError,
> {
    match r {
        Ok((o, e)) => Ok((o@, e as int)),
        Err(e) => Err(e),
    }
}

fn parse_reference_tail(data: &[u8], e: usize) -> (r: Option<(u16, usize)>)
    requires
        e <= data.len(),
    ensures
        match r {
            Some((g, e3)) => spec_reference_tail(data@, e as int) == Some((g as int, e3 as int))
                && e <= e3 <= data.len(),
            None => spec_reference_tail(data@, e as int) is None,
        },
{
    let q2: usize = skip_whitespace(data, e);
    let e2: usize = regular_end(data, q2);
    match parse_number(slice_subrange(data, q2, e2)) {
        Some(Number::Integer(g)) => {
            let q3: usize = skip_whitespace(data, e2);
            let e3: usize = regular_end(data, q3);
            if 0 <= g && g <= 0xffff && matches_word(data, q3, e3, "R") {
                Some((g as u16, e3))
            } else {
                None
            }
        },
        _ => None,
    }
}

fn parse_atom(data: &[u8], q: usize) -> (r: Result<(PdfObject, usize), ExtractError>)
    requires
        q < data.len(),
        is_regular(data@[q as int]),
    ensures
        r matches Err(e) ==> e.is_read_failure(),
        lift_object(r) == spec_parse_atom(data@, q as int),
        r matches Ok((o, e)) ==> q < e <= data.len() && well_formed(o@),
{
    let e: usize = regular_end(data, q);
    match parse_number(slice_subrange(data, q, e)) {
        Some(Number::Integer(n)) => {
            if 0 <= n && n <= 0xffff_ffff {
                match parse_reference_tail(data, e) {
                    Some((g, e3)) => {
                        return Ok((PdfObject::Reference(n as u32, g), e3));
                    },
                    None => {},
                }
            }
            Ok((PdfObject::Integer(n), e))
        },
        Some(Number::Real(v)) => Ok((PdfObject::Real(v), e)),
        None => {
            if matches_word(data, q, e, "true") {
                Ok((PdfObject::Boolean(true), e))
            } else if matches_word(data, q, e, "false") {
                Ok((PdfObject::Boolean(false), e))
            } else if matches_word(data, q, e, "null") {
                Ok((PdfObject::Null, e))
            } else {
                Err(ExtractError::MalformedObject)
            }
        },
    }
}

/// Reads the object that starts at the first token at or after `pos`.
/// Streams are not read here: see [`parse_object_at`].
pub fn parse_value(data: &[u8], pos: usize, depth: usize) -> (r: Result<
    (PdfObject, usize),
    ExtractError,
>)
    ensures
        r matches Err(e) ==> e.is_read_failure(),
        lift_object(r) == spec_parse_value(data@, pos as int, depth as nat),
        r matches Ok((o, e)) ==> pos < e <= data.len() && well_formed(o@),
    decreases depth, 0nat,
{
    let q: usize = skip_whitespace(data, pos);
    if q >= data.len() {
        return Err(ExtractError::TruncatedInput);
    }
    let b: u8 = data[q];
    if b == 47 {
        let (n, e) = parse_name(data, q + 1);
        Ok((PdfObject::Name(n), e))
    } else if b == 40 {
        match parse_literal_string(data, q + 1) {
            Ok((v, e)) => Ok((PdfObject::String(v), e)),
            Err(e) => Err(e),
        }
    } else if b == 60 {
        if q + 1 < data.len() && data[q + 1] == 60 {
            if depth == 0 {
                Err(ExtractError::MalformedObject)
            } else {
                match parse_entries(data, q + 2, depth - 1) {
                    Ok((d, e)) => Ok((PdfObject::Dictionary(d), e)),
                    Err(e) => Err(e),
                }
            }
        } else {
            match parse_hex_string(data, q + 1) {
                Ok((v, e)) => Ok((PdfObject::String(v), e)),
                Err(e) => Err(e),
            }
        }
    } else if b == 91 {
        if depth == 0 {
            Err(ExtractError::MalformedObject)
        } else {
            match parse_items(data, q + 1, depth - 1) {
                Ok((a, e)) => Ok((PdfObject::Array(a), e)),
                Err(e) => Err(e),
            }
        }
    } else if is_regular(b) {
        parse_atom(data, q)
    } else {
        Err(ExtractError::MalformedObject)
    }
}

fn parse_items(data: &[u8], pos: usize, depth: usize) -> (r: Result<
    (Vec<PdfObject>, usize),
    ExtractError,
>)
    requires
        pos <= data.len(),
    ensures
        r matches Err(e) ==> e.is_read_failure(),
        match r {
            Ok((a, e)) => spec_parse_items(data@, pos as int, depth as nat, Seq::empty()) == Ok::<
                _,
                ExtractError,
            >((view_items(a@), e as int)) && pos < e <= data.len() && items_well_formed(
                view_items(a@),
            ),
            Err(e) => spec_parse_items(data@, pos as int, depth as nat, Seq::empty()) == Err::<
                (Seq<Obj>, int),
                _,
            >(e),
        },
    decreases depth, 1nat,
{
    let mut out: Vec<PdfObject> = Vec::new();
    let mut p: usize = pos;
    assert(view_items(out@) =~= Seq::empty());
    loop
        invariant
            pos <= p <= data.len(),
            items_well_formed(view_items(out@)),
            spec_parse_items(data@, pos as int, depth as nat, Seq::empty()) == spec_parse_items(
                data@,
                p as int,
                depth as nat,
                view_items(out@),
            ),
        decreases data.len() - p,
    {
        let q: usize = skip_whitespace(data, p);
        if q >= data.len() {
            return Err(ExtractError::TruncatedInput);
        }
        if data[q] == 93 {
            return Ok((out, q + 1));
        }
        match parse_value(data, q, depth) {
            Err(e) => {
                return Err(e);
            },
            Ok((o, e)) => {
                let ghost before = view_items(out@);
                let ghost ov = o@;
                out.push(o);
                assert(view_items(out@) =~= before.push(ov));
                p = e;
            },
        }
    }
}

fn parse_entries(data: &[u8], pos: usize, depth: usize) -> (r: Result<
    (Vec<DictEntry>, usize),
    ExtractError,
>)
    requires
        pos <= data.len(),
    ensures
        r matches Err(e) ==> e.is_read_failure(),
        match r {
            Ok((d, e)) => spec_parse_entries(data@, pos as int, depth as nat, Seq::empty())
                == Ok::<_, ExtractError>((view_entries(d@), e as int)) && pos < e <= data.len()
                && entries_well_formed(view_entries(d@)),
            Err(e) => spec_parse_entries(data@, pos as int, depth as nat, Seq::empty()) == Err::<
                (Seq<(Seq<u8>, Obj)>, int),
                _,
            >(e),
        },
    decreases depth, 1nat,
{
    let mut out: Vec<DictEntry> = Vec::new();
    let mut p: usize = pos;
    assert(view_entries(out@) =~= Seq::empty());
    loop
        invariant
            pos <= p <= data.len(),
            entries_well_formed(view_entries(out@)),
            spec_parse_entries(data@, pos as int, depth as nat, Seq::empty())
                == spec_parse_entries(data@, p as int, depth as nat, view_entries(out@)),
        decreases data.len() - p,
    {
        let q: usize = skip_whitespace(data, p);
        if q >= data.len() {
            return Err(ExtractError::TruncatedInput);
        }
        if data[q] == 62 {
            if q + 1 >= data.len() {
                return Err(ExtractError::TruncatedInput);
            }
            if data[q + 1] == 62 {
                return Ok((out, q + 2));
            }
            return Err(ExtractError::MalformedObject);
        }
        if data[q] != 47 {
            return Err(ExtractError::MalformedObject);
        }
        let (k, e1) = parse_name(data, q + 1);
        match parse_value(data, e1, depth) {
            Err(e) => {
                return Err(e);
            },
            Ok((v, e2)) => {
                proof {
                    lemma_dict_put_well_formed(view_entries(out@), k@, v@);
                }
                dict_put(&mut out, k, v);
                p = e2;
            },
        }
    }
}

/// The offset after the line end that follows the keyword `stream`, which
/// ends at `k`.
pub open spec fn spec_stream_start(s: Seq<u8>, k: int) -> int {
    if k + 1 < s.len() && s[k] == 13 && s[k + 1] == 10 {
        k + 2
    } else if 0 <= k < s.len() && (s[k] == 10 || s[k] == 13) {
        k + 1
    } else {
        k
    }
}

/// Where the data of a stream begins, if the keyword `stream` is the next
/// token at or after `e`.
pub open spec fn spec_stream_keyword(s: Seq<u8>, e: int) -> Option<int> {
    let q = spec_skip_whitespace(s, e);
    let k = spec_regular_end(s, q);
    if spec_matches_word(s, q, k, "stream".spec_bytes()) {
        Some(spec_stream_start(s, k))
    } else {
        None
    }
}

/// The first offset at or after `p` at which `w` occurs, or the length of
/// `s` where it does not occur.
pub open spec fn spec_find_word(s: Seq<u8>, p: int, w: Seq<u8>) -> int
    decreases s.len() - p,
{
    if p < 0 || p >= s.len() || p + w.len() > s.len() {
        s.len() as int
    } else if s.subrange(p, p + w.len()) == w {
        p
    } else {
        spec_find_word(s, p + 1, w)
    }
}

/// `k` without the line end that precedes it, looking no further back than
/// `start`.
pub open spec fn spec_trim_eol(s: Seq<u8>, start: int, k: int) -> int {
    if k >= start + 2 && s[k - 2] == 13 && s[k - 1] == 10 {
        k - 2
    } else if k >= start + 1 && (s[k - 1] == 10 || s[k - 1] == 13) {
        k - 1
    } else {
        k
    }
}

/// The offset after the keyword `endstream`, if that keyword is the next
/// token after `n` bytes of data.
pub open spec fn spec_declared_end(s: Seq<u8>, start: int, n: int) -> Option<int> {
    if 0 <= n && start + n <= s.len() {
        let q = spec_skip_whitespace(s, start + n);
        let e = spec_regular_end(s, q);
        if spec_matches_word(s, q, e, "endstream".spec_bytes()) {
            Some(e)
        } else {
            None
        }
    } else {
        None
    }
}

/// The data of the stream that begins at `start`, and the offset after its
/// closing keyword. The declared length decides where the keyword follows
/// it; otherwise the data runs to the first occurrence of the keyword, less
/// one line end, or to the end of the input.
pub open spec fn spec_stream_body(s: Seq<u8>, start: int, declared: Option<int>) -> (
    Seq<u8>,
    int,
) {
    if declared is Some && spec_declared_end(s, start, declared->Some_0) is Some {
        (s.subrange(start, start + declared->Some_0), spec_declared_end(s, start, declared->Some_0)->Some_0)
    } else {
        let w = "endstream".spec_bytes();
        let k = spec_find_word(s, start, w);
        if k >= s.len() {
            (s.subrange(start, s.len() as int), s.len() as int)
        } else {
            (s.subrange(start, spec_trim_eol(s, start, k)), k + w.len())
        }
    }
}

/// The length that a stream dictionary declares. Where the entry is an
/// indirect reference, `resolved` stands for what that reference holds.
pub open spec fn spec_stream_length(d: Seq<(Seq<u8>, Obj)>, resolved: Option<int>) -> Option<
    int,
> {
    match spec_dict_get(d, "Length".spec_bytes()) {
        Some(Obj::Integer(n)) => Some(n),
        Some(Obj::Reference(_, _)) => resolved,
        _ => None,
    }
}

/// Turns a dictionary that the keyword `stream` follows into a stream
/// object; any other value is left as it is.
pub open spec fn spec_finish_object(s: Seq<u8>, o: Obj, e: int, resolved: Option<int>) -> (
    Obj,
    int,
) {
    match o {
        Obj::Dictionary(d) => match spec_stream_keyword(s, e) {
            Some(start) => {
                let body = spec_stream_body(s, start, spec_stream_length(d, resolved));
                (Obj::Stream(d, body.0), body.1)
            },
            None => (o, e),
        },
        _ => (o, e),
    }
}

/// The object at the first token at or after `p`, streams included, with no
/// help in finding the length of a stream whose length is stored elsewhere.
pub open spec fn spec_parse_object(s: Seq<u8>, p: int) -> Result<(Obj, int), ExtractError> {
    match spec_parse_value(s, p, MAX_DEPTH as nat) {
        Err(e) => Err(e),
        Ok((o, e)) => Ok(spec_finish_object(s, o, e, None)),
    }
}

/// An optional length as an integer.
pub open spec fn lift_length(n: Option<usize>) -> Option<int> {
    match n {
        Some(v) => Some(v as int),
        None => None,
    }
}

/// Finds the first occurrence of `word` at or after `pos`; the length of
/// the data where there is none.
pub fn find_word(data: &[u8], pos: usize, word: &str) -> (r: usize)
    ensures
        r == spec_find_word(data@, pos as int, word.spec_bytes()),
        r <= data.len(),
        pos <= data.len() ==> pos <= r,
        r < data.len() ==> r + word.spec_bytes().len() <= data.len(),
{
    let n: usize = data.len();
    if pos > n {
        return n;
    }
    let w: usize = word.as_bytes().len();
    let mut i: usize = pos;
    while i < n && w <= n - i
        invariant
            n == data.len(),
            w == word.spec_bytes().len(),
            pos <= i <= n,
            spec_find_word(data@, pos as int, word.spec_bytes()) == spec_find_word(
                data@,
                i as int,
                word.spec_bytes(),
            ),
        decreases n - i,
    {
        if matches_word(data, i, i + w, word) {
            return i;
        }
        i += 1;
    }
    n
}

fn stream_keyword(data: &[u8], e: usize) -> (r: Option<usize>)
    requires
        e <= data.len(),
    ensures
        lift_length(r) == spec_stream_keyword(data@, e as int),
        r matches Some(start) ==> e <= start <= data.len(),
{
    let q: usize = skip_whitespace(data, e);
    let k: usize = regular_end(data, q);
    if matches_word(data, q, k, "stream") {
        if k < data.len() && data[k] == 13 && data.len() - k > 1 && data[k + 1] == 10 {
            Some(k + 2)
        } else if k < data.len() && (data[k] == 10 || data[k] == 13) {
            Some(k + 1)
        } else {
            Some(k)
        }
    } else {
        None
    }
}

fn declared_end(data: &[u8], start: usize, n: usize) -> (r: Option<usize>)
    requires
        start <= data.len(),
    ensures
        lift_length(r) == spec_declared_end(data@, start as int, n as int),
        r matches Some(e) ==> start + n <= e <= data.len(),
{
    if n <= data.len() - start {
        let q: usize = skip_whitespace(data, start + n);
        let e: usize = regular_end(data, q);
        if matches_word(data, q, e, "endstream") {
            Some(e)
        } else {
            None
        }
    } else {
        None
    }
}

/// Cuts the data of a stream out of the input. A start beyond the input
/// gives no data.
pub fn stream_body(data: &[u8], start: usize, declared: Option<usize>) -> (r: (Vec<u8>, usize))
    ensures
        start <= data.len() ==> (r.0@, r.1 as int) == spec_stream_body(
            data@,
            start as int,
            lift_length(declared),
        ) && start <= r.1 <= data.len(),
        start > data.len() ==> r.0@ == Seq::<u8>::empty() && r.1 == data.len(),
{
    if start > data.len() {
        return (Vec::new(), data.len());
    }
    match declared {
        Some(n) => {
            match declared_end(data, start, n) {
                Some(e) => {
                    return (slice_to_vec(slice_subrange(data, start, start + n)), e);
                },
                None => {},
            }
        },
        None => {},
    }
    let k: usize = find_word(data, start, "endstream");
    if k >= data.len() {
        (slice_to_vec(slice_subrange(data, start, data.len())), data.len())
    } else {
        let t: usize = if k - start >= 2 && data[k - 2] == 13 && data[k - 1] == 10 {
            k - 2
        } else if k - start >= 1 && (data[k - 1] == 10 || data[k - 1] == 13) {
            k - 1
        } else {
            k
        };
        (slice_to_vec(slice_subrange(data, start, t)), k + "endstream".as_bytes().len())
    }
}

/// The length entry of a stream dictionary, where it can be used as it
/// stands or through `resolved`.
pub fn stream_length(d: &Vec<DictEntry>, resolved: Option<usize>) -> (r: Option<usize>)
    ensures
        match spec_stream_length(view_entries(d@), lift_length(resolved)) {
            Some(n) => if 0 <= n <= usize::MAX {
                r == Some(n as usize)
            } else {
                r is None
            },
            None => r is None,
        },
{
    match dict_get_str(d, "Length") {
        Some(PdfObject::Integer(n)) => {
            if 0 <= *n && (*n as u64) <= (usize::MAX as u64) {
                Some(*n as usize)
            } else {
                None
            }
        },
        Some(PdfObject::Reference(_, _)) => resolved,
        _ => None,
    }
}

/// Completes a parsed value that ends at `e`: a dictionary that the
/// keyword `stream` follows becomes a stream object with its data. An end
/// beyond the input leaves the value as it is.
pub fn finish_object(data: &[u8], o: PdfObject, e: usize, resolved: Option<usize>) -> (r: (
    PdfObject,
    usize,
))
    ensures
        e <= data.len() ==> (r.0@, r.1 as int) == spec_finish_object(
            data@,
            o@,
            e as int,
            lift_length(resolved),
        ) && e <= r.1 <= data.len(),
        e > data.len() ==> r.0@ == o@ && r.1 == e,
        well_formed(o@) ==> well_formed(r.0@),
{
    if e > data.len() {
        return (o, e);
    }
    match o {
        PdfObject::Dictionary(d) => {
            match stream_keyword(data, e) {
                Some(start) => {
                    let declared = stream_length(&d, resolved);
                    proof {
                        lemma_stream_body_out_of_range(
                            data@,
                            start as int,
                            spec_stream_length(view_entries(d@), lift_length(resolved)),
                        );
                    }
                    let (bytes, end) = stream_body(data, start, declared);
                    (PdfObject::Stream(d, bytes), end)
                },
                None => (PdfObject::Dictionary(d), e),
            }
        },
        other => (other, e),
    }
}

/// A declared length that no buffer can hold decides nothing.
proof fn lemma_stream_body_out_of_range(s: Seq<u8>, start: int, declared: Option<int>)
    requires
        0 <= start <= s.len(),
        s.len() <= usize::MAX,
    ensures
        declared matches Some(n) && !(0 <= n <= usize::MAX) ==> spec_stream_body(
            s,
            start,
            declared,
        ) == spec_stream_body(s, start, None),
{
}

/// Reads the object at the first token at or after `pos`, streams included.
pub fn parse_object_at(data: &[u8], pos: usize) -> (r: Result<(PdfObject, usize), ExtractError>)
    ensures
        r matches Err(e) ==> e.is_read_failure(),
        lift_object(r) == spec_parse_object(data@, pos as int),
        r matches Ok((o, e)) ==> pos < e <= data.len() && well_formed(o@),
{
    match parse_value(data, pos, MAX_DEPTH) {
        Err(e) => Err(e),
        Ok((o, e)) => Ok(finish_object(data, o, e, None)),
    }
}

/// Reads one object at the reader's position and moves the reader past it.
/// On failure the reader stays where it was.
pub fn parse_object(reader: &mut ByteReader) -> (r: Result<PdfObject, ExtractError>)
    ensures
        r matches Err(e) ==> e.is_read_failure(),
        final(reader).input() == old(reader).input(),
        match r {
            Ok(o) => spec_parse_object(old(reader).input(), old(reader).offset()) == Ok::<
                _,
                ExtractError,
            >((o@, final(reader).offset())) && well_formed(o@),
            Err(e) => spec_parse_object(old(reader).input(), old(reader).offset()) == Err::<
                (Obj, int),
                _,
            >(e) && final(reader).offset() == old(reader).offset(),
        },
{
    let data = reader.bytes();
    let pos: usize = reader.position();
    match parse_object_at(data, pos) {
        Err(e) => Err(e),
        Ok((o, e)) => {
            let _ = reader.seek(e);
            Ok(o)
        },
    }
}

impl Obj {
    /// The entries of a dictionary or of the dictionary of a stream.
    pub open spec fn entries(self) -> Option<Seq<(Seq<u8>, Obj)>> {
        match self {
            Obj::Dictionary(d) => Some(d),
            Obj::Stream(d, _) => Some(d),
            _ => None,
        }
    }

    /// The value of an integer.
    pub open spec fn integer(self) -> Option<int> {
        match self {
            Obj::Integer(n) => Some(n),
            _ => None,
        }
    }

    /// The value of a number, in thousandths; integers beyond nine thousand
    /// billions saturate.
    pub open spec fn number(self) -> Option<int> {
        match self {
            Obj::Integer(n) => Some(
                if n > 9_000_000_000_000_000 {
                    9_000_000_000_000_000_000
                } else if n < -9_000_000_000_000_000 {
                    -9_000_000_000_000_000_000
                } else {
                    n * 1000
                },
            ),
            Obj::Real(r) => Some(r),
            _ => None,
        }
    }

    /// The bytes of a name.
    pub open spec fn name(self) -> Option<Seq<u8>> {
        match self {
            Obj::Name(n) => Some(n),
            _ => None,
        }
    }

    /// The items of an array.
    pub open spec fn items(self) -> Option<Seq<Obj>> {
        match self {
            Obj::Array(a) => Some(a),
            _ => None,
        }
    }
}

/// An optional object taken by its view.
pub open spec fn view_option(o: Option<&PdfObject>) -> Option<Obj> {
    match o {
        Some(v) => Some(v@),
        None => None,
    }
}

/// Optional entries taken by their view.
pub open spec fn view_option_entries(o: Option<&Vec<DictEntry>>) -> Option<Seq<(Seq<u8>, Obj)>> {
    match o {
        Some(v) => Some(view_entries(v@)),
        None => None,
    }
}

/// The integer stored under `key`, or `default` where the key is absent or
/// holds something else.
pub open spec fn spec_int_entry(d: Seq<(Seq<u8>, Obj)>, key: Seq<u8>, default: int) -> int {
    match spec_dict_get(d, key) {
        Some(Obj::Integer(n)) => n,
        _ => default,
    }
}

impl PdfObject {
    /// The entries of a dictionary or of the dictionary of a stream.
    pub fn as_dict(&self) -> (r: Option<&Vec<DictEntry>>)
        ensures
            view_option_entries(r) == self@.entries(),
    {
        match self {
            PdfObject::Dictionary(d) => Some(d),
            PdfObject::Stream(d, _) => Some(d),
            _ => None,
        }
    }

    /// The value of an integer.
    pub fn as_integer(&self) -> (r: Option<i64>)
        ensures
            match r {
                Some(n) => self@.integer() == Some(n as int),
                None => self@.integer() is None,
            },
    {
        match self {
            PdfObject::Integer(n) => Some(*n),
            _ => None,
        }
    }

    /// The value of a number, in thousandths.
    pub fn as_number(&self) -> (r: Option<i64>)
        ensures
            match r {
                Some(n) => self@.number() == Some(n as int),
                None => self@.number() is None,
            },
    {
        match self {
            PdfObject::Integer(n) => {
                if *n > 9_000_000_000_000_000 {
                    Some(9_000_000_000_000_000_000)
                } else if *n < -9_000_000_000_000_000 {
                    Some(-9_000_000_000_000_000_000)
                } else {
                    Some(*n * 1000)
                }
            },
            PdfObject::Real(r) => Some(*r),
            _ => None,
        }
    }

    /// The bytes of a name.
    pub fn as_name(&self) -> (r: Option<&Vec<u8>>)
        ensures
            match r {
                Some(n) => self@.name() == Some(n@),
                None => self@.name() is None,
            },
    {
        match self {
            PdfObject::Name(n) => Some(n),
            _ => None,
        }
    }

    /// The items of an array.
    pub fn as_array(&self) -> (r: Option<&Vec<PdfObject>>)
        ensures
            match r {
                Some(a) => self@.items() == Some(view_items(a@)),
                None => self@.items() is None,
            },
    {
        match self {
            PdfObject::Array(a) => Some(a),
            _ => None,
        }
    }
}

/// The integer stored under the key that `word` spells, or `default`.
pub fn int_entry(d: &Vec<DictEntry>, word: &str, default: i64) -> (r: i64)
    ensures
        r == spec_int_entry(view_entries(d@), word.spec_bytes(), default as int),
{
    match dict_get_str(d, word) {
        Some(PdfObject::Integer(n)) => *n,
        _ => default,
    }
}

} // verus!
