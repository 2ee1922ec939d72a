//! Decoding of a stream's data as its dictionary declares.

use vstd::prelude::*;
use vstd::slice::slice_to_vec;
use vstd::string::*;
use crate::ascii85::{ascii85_decode, spec_ascii85_decode};
use crate::asciihex::{hex_decode, spec_hex_decode};
use crate::error::ExtractError;
use crate::flate::{flate_decode, spec_flate_decode};
use crate::object::{
    DictEntry, Obj, PdfObject, bytes_eq, dict_get_str, int_entry, spec_dict_get, spec_int_entry,
    view_entries, view_items, view_object, view_option, view_option_entries,
};
use crate::predictor::{Predictor, spec_unpredict, unpredict};
use crate::runlength::{run_length_decode, spec_run_length_decode};

verus! {

/// The parameters for the filter at place `i`: the parameter dictionary
/// itself for the first filter, or item `i` of a parameter array.
pub open spec fn spec_parms_at(parms: Option<Obj>, i: int) -> Option<Seq<(Seq<u8>, Obj)>> {
    match parms {
        Some(Obj::Dictionary(d)) => if i == 0 {
            Some(d)
        } else {
            None
        },
        Some(Obj::Array(a)) => if 0 <= i < a.len() {
            match a[i] {
                Obj::Dictionary(d) => Some(d),
                _ => None,
            }
        } else {
            None
        },
        _ => None,
    }
}

/// The predictor that filter parameters ask for; without parameters, none.
pub open spec fn spec_predictor(parms: Option<Seq<(Seq<u8>, Obj)>>) -> Predictor {
    match parms {
        None => Predictor { kind: 1, colors: 1, bits: 8, columns: 1 },
        Some(d) => Predictor {
            kind: spec_int_entry(d, "Predictor".spec_bytes(), 1) as i64,
            colors: spec_int_entry(d, "Colors".spec_bytes(), 1) as i64,
            bits: spec_int_entry(d, "BitsPerComponent".spec_bytes(), 8) as i64,
            columns: spec_int_entry(d, "Columns".spec_bytes(), 1) as i64,
        },
    }
}

/// What the filter called `name` makes of `data`. A name that is not one of
/// the four implemented filters is an error of its own kind.
pub open spec fn spec_apply_filter(
    name: Seq<u8>,
    parms: Option<Seq<(Seq<u8>, Obj)>>,
    data: Seq<u8>,
) -> Result<Seq<u8>, ExtractError> {
    if name == "FlateDecode".spec_bytes() {
        match spec_flate_decode(data) {
            Ok(v) => spec_unpredict(spec_predictor(parms), v),
            Err(e) => Err(e),
        }
    } else if name == "ASCIIHexDecode".spec_bytes() {
        spec_hex_decode(data, 0, Seq::empty(), None)
    } else if name == "ASCII85Decode".spec_bytes() {
        spec_ascii85_decode(data)
    } else if name == "RunLengthDecode".spec_bytes() {
        spec_run_length_decode(data, 0, Seq::empty())
    } else {
        Err(ExtractError::UnsupportedFilter)
    }
}

/// What the filter that is listed at place `i` makes of `data`; an item
/// that is no name is taken for a filter that is not implemented.
pub open spec fn spec_apply_item(item: Obj, parms: Option<Obj>, i: int, data: Seq<u8>) -> Result<
    Seq<u8>,
    ExtractError,
> {
    match item {
        Obj::Name(n) => spec_apply_filter(n, spec_parms_at(parms, i), data),
        _ => Err(ExtractError::UnsupportedFilter),
    }
}

/// What the filters from place `i` on make of `data`, applied in the order
/// in which they are listed.
pub open spec fn spec_apply_filters(names: Seq<Obj>, parms: Option<Obj>, i: int, data: Seq<u8>) -> Result<
    Seq<u8>,
    ExtractError,
>
    decreases names.len() - i,
{
    if i < 0 || i >= names.len() {
        Ok(data)
    } else {
        match spec_apply_item(names[i], parms, i, data) {
            Ok(v) => spec_apply_filters(names, parms, i + 1, v),
            Err(e) => Err(e),
        }
    }
}

/// The data of a stream with the filters of its dictionary undone. The
/// filter entry is absent or null, one name, or an array of names.
pub open spec fn spec_decode(dict: Seq<(Seq<u8>, Obj)>, raw: Seq<u8>) -> Result<
    Seq<u8>,
    ExtractError,
> {
    let parms = spec_dict_get(dict, "DecodeParms".spec_bytes());
    match spec_dict_get(dict, "Filter".spec_bytes()) {
        None => Ok(raw),
        Some(Obj::Null) => Ok(raw),
        Some(Obj::Name(n)) => spec_apply_filter(n, spec_parms_at(parms, 0), raw),
        Some(Obj::Array(a)) => spec_apply_filters(a, parms, 0, raw),
        Some(_) => Err(ExtractError::UnsupportedFilter),
    }
}

/// A decoder's result with the bytes taken by their view.
pub open spec fn lift_decoded(r: Result<Vec<u8>, ExtractError>) -> Result<Seq<u8>, ExtractError> {
    match r {
        Ok(v) => Ok(v@),
        Err(e) => Err(e),
    }
}

fn parms_at<'a>(parms: Option<&'a PdfObject>, i: usize) -> (r: Option<&'a Vec<DictEntry>>)
    ensures
        view_option_entries(r) == spec_parms_at(view_option(parms), i as int),
{
    proof {
        reveal_with_fuel(view_object, 2);
    }
    match parms {
        Some(PdfObject::Dictionary(d)) => {
            if i == 0 {
                Some(d)
            } else {
                None
            }
        },
        Some(PdfObject::Array(a)) => {
            if i < a.len() {
                assert(view_items(a@)[i as int] == a@[i as int]@);
                match &a[i] {
                    PdfObject::Dictionary(d) => Some(d),
                    _ => None,
                }
            } else {
                None
            }
        },
        _ => None,
    }
}

fn predictor_of(parms: Option<&Vec<DictEntry>>) -> (r: Predictor)
    ensures
        r == spec_predictor(view_option_entries(parms)),
{
    match parms {
        None => Predictor { kind: 1, colors: 1, bits: 8, columns: 1 },
        Some(d) => Predictor {
            kind: int_entry(d, "Predictor", 1),
            colors: int_entry(d, "Colors", 1),
            bits: int_entry(d, "BitsPerComponent", 8),
            columns: int_entry(d, "Columns", 1),
        },
    }
}

/// Undoes one filter.
pub fn apply_filter(name: &[u8], parms: Option<&Vec<DictEntry>>, data: &[u8]) -> (r: Result<
    Vec<u8>,
    ExtractError,
>)
    ensures
        r matches Err(e) ==> e.is_read_failure(),
        lift_decoded(r) == spec_apply_filter(name@, view_option_entries(parms), data@),
{
    if bytes_eq(name, "FlateDecode".as_bytes()) {
        match flate_decode(data) {
            Ok(v) => unpredict(predictor_of(parms), v),
            Err(e) => Err(e),
        }
    } else if bytes_eq(name, "ASCIIHexDecode".as_bytes()) {
        hex_decode(data)
    } else if bytes_eq(name, "ASCII85Decode".as_bytes()) {
        ascii85_decode(data)
    } else if bytes_eq(name, "RunLengthDecode".as_bytes()) {
        run_length_decode(data)
    } else {
        Err(ExtractError::UnsupportedFilter)
    }
}

fn apply_item(item: &PdfObject, parms: Option<&PdfObject>, i: usize, data: &[u8]) -> (r: Result<
    Vec<u8>,
    ExtractError,
>)
    ensures
        r matches Err(e) ==> e.is_read_failure(),
        lift_decoded(r) == spec_apply_item(item@, view_option(parms), i as int, data@),
{
    match item {
        PdfObject::Name(n) => apply_filter(n.as_slice(), parms_at(parms, i), data),
        _ => Err(ExtractError::UnsupportedFilter),
    }
}

fn apply_filters(a: &Vec<PdfObject>, parms: Option<&PdfObject>, raw: &[u8]) -> (r: Result<
    Vec<u8>,
    ExtractError,
>)
    ensures
        r matches Err(e) ==> e.is_read_failure(),
        lift_decoded(r) == spec_apply_filters(view_items(a@), view_option(parms), 0, raw@),
{
    let mut cur: Vec<u8> = slice_to_vec(raw);
    let mut i: usize = 0;
    while i < a.len()
        invariant
            i <= a.len(),
            spec_apply_filters(view_items(a@), view_option(parms), 0, raw@) == spec_apply_filters(
                view_items(a@),
                view_option(parms),
                i as int,
                cur@,
            ),
        decreases a.len() - i,
    {
        assert(view_items(a@)[i as int] == a@[i as int]@);
        match apply_item(&a[i], parms, i, cur.as_slice()) {
            Ok(v) => {
                cur = v;
            },
            Err(e) => {
                return Err(e);
            },
        }
        i += 1;
    }
    Ok(cur)
}

/// Undoes the filters that the dictionary of a stream declares.
pub fn decode(dict: &Vec<DictEntry>, raw: &[u8]) -> (r: Result<Vec<u8>, ExtractError>)
    ensures
        r matches Err(e) ==> e.is_read_failure(),
        lift_decoded(r) == spec_decode(view_entries(dict@), raw@),
{
    let parms = dict_get_str(dict, "DecodeParms");
    match dict_get_str(dict, "Filter") {
        None => Ok(slice_to_vec(raw)),
        Some(PdfObject::Null) => Ok(slice_to_vec(raw)),
        Some(PdfObject::Name(n)) => apply_filter(n.as_slice(), parms_at(parms, 0), raw),
        Some(PdfObject::Array(a)) => apply_filters(a, parms, raw),
        Some(_) => Err(ExtractError::UnsupportedFilter),
    }
}

proof fn lemma_filter_names_differ()
    ensures
        "FlateDecode".spec_bytes().len() == 11,
        "ASCIIHexDecode".spec_bytes().len() == 14,
        "ASCII85Decode".spec_bytes().len() == 13,
        "RunLengthDecode".spec_bytes().len() == 15,
{
    reveal_strlit("FlateDecode");
    reveal_strlit("ASCIIHexDecode");
    reveal_strlit("ASCII85Decode");
    reveal_strlit("RunLengthDecode");
    is_ascii_spec_bytes("FlateDecode");
    is_ascii_spec_bytes("ASCIIHexDecode");
    is_ascii_spec_bytes("ASCII85Decode");
    is_ascii_spec_bytes("RunLengthDecode");
}

/// A stream with a single filter and no filter parameters, whose data is
/// what the encoder of that filter wrote for `x`, decodes to `x`.
pub proof fn lemma_single_filter_round_trip(dict: Seq<(Seq<u8>, Obj)>, x: Seq<u8>)
    requires
        spec_dict_get(dict, "DecodeParms".spec_bytes()) is None,
    ensures
        spec_dict_get(dict, "Filter".spec_bytes()) == Some(
            Obj::Name("FlateDecode".spec_bytes()),
        ) ==> spec_decode(dict, crate::flate::spec_flate_encode(x)) == Ok::<_, ExtractError>(x),
        spec_dict_get(dict, "Filter".spec_bytes()) == Some(
            Obj::Name("ASCIIHexDecode".spec_bytes()),
        ) ==> spec_decode(dict, crate::asciihex::spec_hex_encode(x)) == Ok::<_, ExtractError>(x),
        spec_dict_get(dict, "Filter".spec_bytes()) == Some(
            Obj::Name("ASCII85Decode".spec_bytes()),
        ) ==> spec_decode(dict, crate::ascii85::spec_ascii85_encode(x)) == Ok::<_, ExtractError>(
            x,
        ),
        spec_dict_get(dict, "Filter".spec_bytes()) == Some(
            Obj::Name("RunLengthDecode".spec_bytes()),
        ) ==> spec_decode(dict, crate::runlength::spec_run_length_encode(x)) == Ok::<
            _,
            ExtractError,
        >(x),
{
    lemma_filter_names_differ();
    crate::flate::lemma_flate_round_trip(x);
    crate::asciihex::lemma_hex_round_trip(x);
    crate::ascii85::lemma_ascii85_round_trip(x);
    crate::runlength::lemma_run_length_round_trip(x);
}

} // verus!
