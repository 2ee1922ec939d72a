//! Fetching indirect objects through the cross-reference table.

use vstd::prelude::*;
use vstd::string::*;
use crate::error::ExtractError;
use crate::filter::{decode, spec_decode};
use crate::object::{
    DictEntry, MAX_DEPTH, Obj, PdfObject, dict_get_str, finish_object, int_entry, lift_length,
    parse_value, spec_dict_get, spec_finish_object, spec_int_entry, spec_parse_value,
    view_entries, well_formed,
};
use crate::lexer::{is_digit, is_regular};
use crate::object::remaining;
use crate::table::{XrefTable, spec_boundary};
use crate::xref::{
    Locator, ObjectId, object_header, spec_object_header, spec_token_integer, token_integer,
};

verus! {

/// How many references in a row are followed before the chain is taken for
/// a cycle.
pub const MAX_REFERENCE_DEPTH: usize = 32;

/// The integer stored as an object of its own at `off`, for a stream whose
/// length entry refers to it.
pub open spec fn spec_integer_at(s: Seq<u8>, off: int) -> Option<int> {
    if off < 0 || off > s.len() {
        None
    } else {
        match spec_object_header(s, off) {
            None => None,
            Some((_, e)) => match spec_parse_value(s, e, MAX_DEPTH as nat) {
                Ok((Obj::Integer(v), _)) => if 0 <= v <= usize::MAX {
                    Some(v)
                } else {
                    None
                },
                _ => None,
            },
        }
    }
}

/// The length of the stream with dictionary `o`, where the dictionary
/// refers to another object for it and that object is an integer stored at
/// an offset.
pub open spec fn spec_provisional_length(s: Seq<u8>, table: Map<u32, Locator>, o: Obj) -> Option<
    int,
> {
    match o {
        Obj::Dictionary(d) => match spec_dict_get(d, "Length".spec_bytes()) {
            Some(Obj::Reference(n, _)) => if 0 <= n <= 0xffff_ffff && table.contains_key(
                n as u32,
            ) {
                match table[n as u32] {
                    Locator::Offset(off) => spec_integer_at(s, off as int),
                    _ => None,
                }
            } else {
                None
            },
            _ => None,
        },
        _ => None,
    }
}

/// The object whose header `N G obj` stands at `off`.
pub open spec fn spec_fetch_offset(s: Seq<u8>, table: Map<u32, Locator>, off: int) -> Result<
    Obj,
    ExtractError,
> {
    if off < 0 || off > s.len() {
        Err(ExtractError::TruncatedInput)
    } else {
        match spec_object_header(s, off) {
            None => Err(ExtractError::MalformedObject),
            Some((_, e)) => match spec_parse_value(s, e, MAX_DEPTH as nat) {
                Err(x) => Err(x),
                Ok((o, e2)) => Ok(
                    spec_finish_object(s, o, e2, spec_provisional_length(s, table, o)).0,
                ),
            },
        }
    }
}

/// The offset, relative to the first object, that pair `k` of the header
/// of an object stream gives; each pair is an object number and an offset.
pub open spec fn spec_nth_pair(data: Seq<u8>, p: int, k: nat) -> Option<int>
    decreases k,
{
    match spec_token_integer(data, p) {
        None => None,
        Some((_, e1)) => match spec_token_integer(data, e1) {
            None => None,
            Some((off, e2)) => if k == 0 {
                Some(off)
            } else {
                spec_nth_pair(data, e2, (k - 1) as nat)
            },
        },
    }
}

/// Object `index` of the object stream with dictionary `d` and decoded
/// data `data`.
pub open spec fn spec_object_in_stream(d: Seq<(Seq<u8>, Obj)>, data: Seq<u8>, index: int) -> Result<
    Obj,
    ExtractError,
> {
    let n = spec_int_entry(d, "N".spec_bytes(), 0);
    let first = spec_int_entry(d, "First".spec_bytes(), 0);
    if !(0 <= index < n) || first < 0 || first > data.len() {
        Err(ExtractError::MalformedObject)
    } else {
        match spec_nth_pair(data, 0, index as nat) {
            None => Err(ExtractError::MalformedObject),
            Some(rel) => if rel < 0 || first + rel > data.len() {
                Err(ExtractError::MalformedObject)
            } else {
                match spec_parse_value(data, first + rel, MAX_DEPTH as nat) {
                    Ok((o, _)) => Ok(o),
                    Err(e) => Err(e),
                }
            },
        }
    }
}

/// Object `index` of the object stream that is stored as object
/// `container`.
pub open spec fn spec_fetch_compressed(
    s: Seq<u8>,
    table: Map<u32, Locator>,
    container: u32,
    index: u32,
) -> Result<Obj, ExtractError> {
    if !table.contains_key(container) {
        Err(ExtractError::MalformedObject)
    } else {
        match table[container] {
            Locator::Offset(off) => match spec_fetch_offset(s, table, off as int) {
                Ok(Obj::Stream(d, raw)) => match spec_decode(d, raw) {
                    Ok(data) => spec_object_in_stream(d, data, index as int),
                    Err(e) => Err(e),
                },
                Ok(_) => Err(ExtractError::MalformedObject),
                Err(e) => Err(e),
            },
            _ => Err(ExtractError::MalformedObject),
        }
    }
}

/// The offset of the last header `N G obj` for object `number` that a walk
/// over the data from `p` on finds; `found` is the last one before `p`.
pub open spec fn spec_last_header(s: Seq<u8>, p: int, number: u32, found: Option<usize>) -> Option<
    usize,
>
    decreases remaining(s, p),
{
    if p < 0 || p >= s.len() {
        found
    } else if spec_boundary(s, p) && is_digit(s[p]) && spec_object_header(s, p) is Some {
        let (id, e) = spec_object_header(s, p)->Some_0;
        if p < e <= s.len() {
            spec_last_header(
                s,
                e,
                number,
                if id.number == number {
                    Some(p as usize)
                } else {
                    found
                },
            )
        } else {
            found
        }
    } else {
        spec_last_header(s, p + 1, number, found)
    }
}

/// The error is one that a wrong offset gives rise to.
pub open spec fn spec_misplaced(e: ExtractError) -> bool {
    e == ExtractError::MalformedObject || e == ExtractError::TruncatedInput
}

/// The object `number` that the table places at `off`. Where nothing that
/// can be read stands there, the object is looked for under its own header
/// in the data, and read from the last such header if that lies elsewhere.
pub open spec fn spec_fetch_located(s: Seq<u8>, table: Map<u32, Locator>, number: u32, off: usize) -> Result<
    Obj,
    ExtractError,
> {
    match spec_fetch_offset(s, table, off as int) {
        Ok(o) => Ok(o),
        Err(e) => if spec_misplaced(e) {
            match spec_last_header(s, 0, number, None) {
                Some(other) => if other != off {
                    spec_fetch_offset(s, table, other as int)
                } else {
                    Err(e)
                },
                None => Err(e),
            }
        } else {
            Err(e)
        },
    }
}

/// The object stored under `number`, without following a reference that
/// it may be. A number that the table does not know, or knows as free,
/// stands for the null object.
pub open spec fn spec_fetch(s: Seq<u8>, table: Map<u32, Locator>, number: u32) -> Result<
    Obj,
    ExtractError,
> {
    if !table.contains_key(number) {
        Ok(Obj::Null)
    } else {
        match table[number] {
            Locator::Free => Ok(Obj::Null),
            Locator::Offset(off) => spec_fetch_located(s, table, number, off),
            Locator::Compressed(c, i) => spec_fetch_compressed(s, table, c, i),
        }
    }
}

/// The object that `number` leads to when references are followed, at most
/// `depth` of them.
pub open spec fn spec_resolve(s: Seq<u8>, table: Map<u32, Locator>, number: u32, depth: nat) -> Result<
    Obj,
    ExtractError,
>
    decreases depth,
{
    match spec_fetch(s, table, number) {
        Err(e) => Err(e),
        Ok(Obj::Reference(n, g)) => if depth == 0 {
            Err(ExtractError::ReferenceCycle)
        } else if 0 <= n <= 0xffff_ffff {
            spec_resolve(s, table, n as u32, (depth - 1) as nat)
        } else {
            Err(ExtractError::MalformedObject)
        },
        Ok(o) => Ok(o),
    }
}

/// An object that refers to itself is never resolved, however many
/// references may be followed.
pub proof fn lemma_self_reference_is_cycle(
    s: Seq<u8>,
    table: Map<u32, Locator>,
    number: u32,
    generation: int,
    depth: nat,
)
    requires
        spec_fetch(s, table, number) == Ok::<_, ExtractError>(
            Obj::Reference(number as int, generation),
        ),
    ensures
        spec_resolve(s, table, number, depth) == Err::<Obj, _>(ExtractError::ReferenceCycle),
    decreases depth,
{
    if depth > 0 {
        lemma_self_reference_is_cycle(s, table, number, generation, (depth - 1) as nat);
    }
}

/// The object under `number` and the `k` objects after it in the chain are
/// all references.
pub open spec fn spec_chain_of_references(
    s: Seq<u8>,
    table: Map<u32, Locator>,
    number: u32,
    k: nat,
) -> bool
    decreases k,
{
    match spec_fetch(s, table, number) {
        Ok(Obj::Reference(n, _)) => 0 <= n <= 0xffff_ffff && (k == 0 || spec_chain_of_references(
            s,
            table,
            n as u32,
            (k - 1) as nat,
        )),
        _ => false,
    }
}

/// A chain of references that is longer than what is followed ends in the
/// cycle error.
pub proof fn lemma_long_chain_is_cycle(
    s: Seq<u8>,
    table: Map<u32, Locator>,
    number: u32,
    depth: nat,
)
    requires
        spec_chain_of_references(s, table, number, depth),
    ensures
        spec_resolve(s, table, number, depth) == Err::<Obj, _>(ExtractError::ReferenceCycle),
    decreases depth,
{
    if depth > 0 {
        match spec_fetch(s, table, number) {
            Ok(Obj::Reference(n, _)) => {
                lemma_long_chain_is_cycle(s, table, n as u32, (depth - 1) as nat);
            },
            _ => {},
        }
    }
}

/// A fetch's result with the object taken by its view.
pub open spec fn lift_fetched(r: Result<PdfObject, ExtractError>) -> Result<Obj, ExtractError> {
    match r {
        Ok(o) => Ok(o@),
        Err(e) => Err(e),
    }
}

fn integer_at(data: &[u8], off: usize) -> (r: Option<usize>)
    ensures
        lift_length(r) == spec_integer_at(data@, off as int),
{
    if off > data.len() {
        return None;
    }
    match object_header(data, off) {
        None => None,
        Some((_, e)) => match parse_value(data, e, MAX_DEPTH) {
            Ok((PdfObject::Integer(v), _)) => {
                if 0 <= v && v as u64 <= usize::MAX as u64 {
                    Some(v as usize)
                } else {
                    None
                }
            },
            _ => None,
        },
    }
}

fn provisional_length(data: &[u8], table: &XrefTable, o: &PdfObject) -> (r: Option<usize>)
    ensures
        lift_length(r) == spec_provisional_length(data@, table@.0, o@),
{
    match o {
        PdfObject::Dictionary(d) => match dict_get_str(d, "Length") {
            Some(PdfObject::Reference(n, _)) => match table.locate(*n) {
                Some(Locator::Offset(off)) => integer_at(data, off),
                _ => None,
            },
            _ => None,
        },
        _ => None,
    }
}

fn fetch_offset(data: &[u8], table: &XrefTable, off: usize) -> (r: Result<PdfObject, ExtractError>)
    ensures
        r matches Err(e) ==> e.is_read_failure(),
        lift_fetched(r) == spec_fetch_offset(data@, table@.0, off as int),
        r matches Ok(o) ==> well_formed(o@),
{
    if off > data.len() {
        return Err(ExtractError::TruncatedInput);
    }
    match object_header(data, off) {
        None => Err(ExtractError::MalformedObject),
        Some((_, e)) => match parse_value(data, e, MAX_DEPTH) {
            Err(x) => Err(x),
            Ok((o, e2)) => {
                let hint = provisional_length(data, table, &o);
                Ok(finish_object(data, o, e2, hint).0)
            },
        },
    }
}

fn nth_pair(data: &[u8], index: usize) -> (r: Option<i64>)
    ensures
        match r {
            Some(v) => spec_nth_pair(data@, 0, index as nat) == Some(v as int),
            None => spec_nth_pair(data@, 0, index as nat) is None,
        },
{
    let mut p: usize = 0;
    let mut k: usize = index;
    loop
        invariant
            p <= data.len(),
            k <= index,
            spec_nth_pair(data@, 0, index as nat) == spec_nth_pair(data@, p as int, k as nat),
        decreases k,
    {
        let e1: usize = match token_integer(data, p) {
            None => {
                return None;
            },
            Some((_, e)) => e,
        };
        match token_integer(data, e1) {
            None => {
                return None;
            },
            Some((off, e2)) => {
                if k == 0 {
                    return Some(off);
                }
                k = k - 1;
                p = e2;
            },
        }
    }
}

fn object_in_stream(d: &Vec<DictEntry>, data: &[u8], index: u32) -> (r: Result<
    PdfObject,
    ExtractError,
>)
    ensures
        r matches Err(e) ==> e.is_read_failure(),
        lift_fetched(r) == spec_object_in_stream(view_entries(d@), data@, index as int),
        r matches Ok(o) ==> well_formed(o@),
{
    let n: i64 = int_entry(d, "N", 0);
    let first: i64 = int_entry(d, "First", 0);
    if index as i64 >= n || first < 0 || first as u64 > data.len() as u64 {
        return Err(ExtractError::MalformedObject);
    }
    match nth_pair(data, index as usize) {
        None => Err(ExtractError::MalformedObject),
        Some(rel) => {
            if rel < 0 || rel as u64 > data.len() as u64 - first as u64 {
                Err(ExtractError::MalformedObject)
            } else {
                match parse_value(data, first as usize + rel as usize, MAX_DEPTH) {
                    Ok((o, _)) => Ok(o),
                    Err(e) => Err(e),
                }
            }
        },
    }
}

fn fetch_compressed(data: &[u8], table: &XrefTable, container: u32, index: u32) -> (r: Result<
    PdfObject,
    ExtractError,
>)
    ensures
        r matches Err(e) ==> e.is_read_failure(),
        lift_fetched(r) == spec_fetch_compressed(data@, table@.0, container, index),
        r matches Ok(o) ==> well_formed(o@),
{
    match table.locate(container) {
        Some(Locator::Offset(off)) => match fetch_offset(data, table, off) {
            Ok(PdfObject::Stream(d, raw)) => match decode(&d, raw.as_slice()) {
                Ok(decoded) => object_in_stream(&d, decoded.as_slice(), index),
                Err(e) => Err(e),
            },
            Ok(_) => Err(ExtractError::MalformedObject),
            Err(e) => Err(e),
        },
        _ => Err(ExtractError::MalformedObject),
    }
}

fn last_header(data: &[u8], number: u32) -> (r: Option<usize>)
    ensures
        r == spec_last_header(data@, 0, number, None),
{
    let n: usize = data.len();
    let mut found: Option<usize> = None;
    let mut p: usize = 0;
    while p < n
        invariant
            n == data.len(),
            p <= n,
            spec_last_header(data@, 0, number, None) == spec_last_header(
                data@,
                p as int,
                number,
                found,
            ),
        decreases n - p,
    {
        let boundary: bool = p == 0 || !is_regular(data[p - 1]);
        let mut next: usize = p + 1;
        if boundary && is_digit(data[p]) {
            match object_header(data, p) {
                Some((id, e)) => {
                    if id.number == number {
                        found = Some(p);
                    }
                    next = e;
                },
                None => {},
            }
        }
        p = next;
    }
    found
}

fn fetch_located(data: &[u8], table: &XrefTable, number: u32, off: usize) -> (r: Result<
    PdfObject,
    ExtractError,
>)
    ensures
        r matches Err(e) ==> e.is_read_failure(),
        lift_fetched(r) == spec_fetch_located(data@, table@.0, number, off),
        r matches Ok(o) ==> well_formed(o@),
{
    match fetch_offset(data, table, off) {
        Ok(o) => Ok(o),
        Err(e) => {
            let misplaced: bool = match e {
                ExtractError::MalformedObject => true,
                ExtractError::TruncatedInput => true,
                _ => false,
            };
            if misplaced {
                match last_header(data, number) {
                    Some(other) => {
                        if other != off {
                            fetch_offset(data, table, other)
                        } else {
                            Err(e)
                        }
                    },
                    None => Err(e),
                }
            } else {
                Err(e)
            }
        },
    }
}

/// Fetches the object stored under `number`, without following a reference
/// that it may be.
pub fn fetch(number: u32, table: &XrefTable, bytes: &[u8]) -> (r: Result<PdfObject, ExtractError>)
    ensures
        r matches Err(e) ==> e.is_read_failure(),
        lift_fetched(r) == spec_fetch(bytes@, table@.0, number),
        r matches Ok(o) ==> well_formed(o@),
{
    match table.locate(number) {
        None => Ok(PdfObject::Null),
        Some(Locator::Free) => Ok(PdfObject::Null),
        Some(Locator::Offset(off)) => fetch_located(bytes, table, number, off),
        Some(Locator::Compressed(c, i)) => fetch_compressed(bytes, table, c, i),
    }
}

/// Fetches the object that `id` names, following references until an
/// object that is none is reached.
pub fn resolve(id: ObjectId, table: &XrefTable, bytes: &[u8]) -> (r: Result<
    PdfObject,
    ExtractError,
>)
    ensures
        r matches Err(e) ==> e.is_read_failure(),
        lift_fetched(r) == spec_resolve(bytes@, table@.0, id.number, MAX_REFERENCE_DEPTH as nat),
        r matches Ok(o) ==> well_formed(o@),
{
    let mut number: u32 = id.number;
    let mut depth: usize = MAX_REFERENCE_DEPTH;
    loop
        invariant
            spec_resolve(bytes@, table@.0, id.number, MAX_REFERENCE_DEPTH as nat) == spec_resolve(
                bytes@,
                table@.0,
                number,
                depth as nat,
            ),
        decreases depth,
    {
        match fetch(number, table, bytes) {
            Err(e) => {
                return Err(e);
            },
            Ok(PdfObject::Reference(n, g)) => {
                if depth == 0 {
                    return Err(ExtractError::ReferenceCycle);
                }
                number = n;
                depth = depth - 1;
            },
            Ok(o) => {
                return Ok(o);
            },
        }
    }
}

/// An object that is either borrowed from where it stood or was fetched
/// for a reference.
pub enum Resolved<'a> {
    Direct(&'a PdfObject),
    Fetched(PdfObject),
}

impl<'a> View for Resolved<'a> {
    type V = Obj;

    open spec fn view(&self) -> Obj {
        match self {
            Resolved::Direct(o) => o@,
            Resolved::Fetched(o) => o@,
        }
    }
}

impl<'a> Resolved<'a> {
    /// The object, wherever it is held.
    pub fn get(&self) -> (r: &PdfObject)
        ensures
            r@ == self@,
    {
        match self {
            Resolved::Direct(o) => o,
            Resolved::Fetched(o) => o,
        }
    }
}

/// What `o` stands for: itself, or where it is a reference, the object
/// that the reference leads to.
pub open spec fn spec_deref(s: Seq<u8>, table: Map<u32, Locator>, o: Obj) -> Result<
    Obj,
    ExtractError,
> {
    match o {
        Obj::Reference(n, g) => if 0 <= n <= 0xffff_ffff {
            spec_resolve(s, table, n as u32, MAX_REFERENCE_DEPTH as nat)
        } else {
            Err(ExtractError::MalformedObject)
        },
        _ => Ok(o),
    }
}

/// Follows `o` where it is a reference.
pub fn deref<'a>(o: &'a PdfObject, table: &XrefTable, bytes: &[u8]) -> (r: Result<
    Resolved<'a>,
    ExtractError,
>)
    ensures
        r matches Err(e) ==> e.is_read_failure(),
        match r {
            Ok(v) => spec_deref(bytes@, table@.0, o@) == Ok::<_, ExtractError>(v@) && (well_formed(
                o@,
            ) ==> well_formed(v@)),
            Err(e) => spec_deref(bytes@, table@.0, o@) == Err::<Obj, _>(e),
        },
{
    match o {
        PdfObject::Reference(n, g) => {
            match resolve(ObjectId { number: *n, generation: *g }, table, bytes) {
                Ok(v) => Ok(Resolved::Fetched(v)),
                Err(e) => Err(e),
            }
        },
        _ => Ok(Resolved::Direct(o)),
    }
}

} // verus!
