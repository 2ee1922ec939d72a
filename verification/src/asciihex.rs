//! The hexadecimal stream filter.

use vstd::prelude::*;
use crate::error::ExtractError;
use crate::lexer::{hex_value, is_hex_digit, is_whitespace};

verus! {

/// The upper-case hexadecimal digit for a value below 16.
#[verifier::allow_in_spec]
pub fn hex_digit(v: u8) -> u8
    requires
        v < 16,
    returns
        (if v < 10 {
            (48 + v) as u8
        } else {
            (55 + v) as u8
        }),
{
    if v < 10 {
        48 + v
    } else {
        55 + v
    }
}

/// The bytes that the digits from `p` on denote, up to `>` or the end of
/// the data. White space is skipped; a digit left alone at the end counts
/// as if a zero followed; any other byte is an error.
pub open spec fn spec_hex_decode(s: Seq<u8>, p: int, acc: Seq<u8>, high: Option<u8>) -> Result<
    Seq<u8>,
    ExtractError,
>
    decreases s.len() - p,
{
    if p < 0 || p >= s.len() || s[p] == 62 {
        match high {
            Some(h) => Ok(acc.push((h * 16) as u8)),
            None => Ok(acc),
        }
    } else if is_whitespace(s[p]) {
        spec_hex_decode(s, p + 1, acc, high)
    } else if is_hex_digit(s[p]) {
        match high {
            Some(h) => spec_hex_decode(s, p + 1, acc.push((h * 16 + hex_value(s[p])) as u8), None),
            None => spec_hex_decode(s, p + 1, acc, Some(hex_value(s[p]))),
        }
    } else {
        Err(ExtractError::DecodeError)
    }
}

/// Byte `j` of the encoding of `x`.
pub open spec fn spec_hex_encoded_byte(x: Seq<u8>, j: int) -> u8 {
    if j == 2 * x.len() {
        62u8
    } else if j % 2 == 0 {
        hex_digit(x[j / 2] / 16)
    } else {
        hex_digit(x[j / 2] % 16)
    }
}

/// Two upper-case digits for every byte, then `>`.
pub open spec fn spec_hex_encode(x: Seq<u8>) -> Seq<u8> {
    Seq::new(2 * x.len() + 1, |j: int| spec_hex_encoded_byte(x, j))
}

/// Decodes hexadecimal text.
pub fn hex_decode(data: &[u8]) -> (r: Result<Vec<u8>, ExtractError>)
    ensures
        r matches Err(e) ==> e.is_read_failure(),
        match r {
            Ok(v) => spec_hex_decode(data@, 0, Seq::empty(), None) == Ok::<_, ExtractError>(v@),
            Err(e) => spec_hex_decode(data@, 0, Seq::empty(), None) == Err::<Seq<u8>, _>(e),
        },
{
    let n: usize = data.len();
    let mut i: usize = 0;
    let mut high: Option<u8> = None;
    let mut out: Vec<u8> = Vec::new();
    while i < n && data[i] != 62
        invariant
            n == data.len(),
            i <= n,
            high matches Some(h) ==> h < 16,
            spec_hex_decode(data@, 0, Seq::empty(), None) == spec_hex_decode(
                data@,
                i as int,
                out@,
                high,
            ),
        decreases n - i,
    {
        let b: u8 = data[i];
        if is_whitespace(b) {
        } else if is_hex_digit(b) {
            match high {
                Some(h) => {
                    out.push(h * 16 + hex_value(b));
                    high = None;
                },
                None => {
                    high = Some(hex_value(b));
                },
            }
        } else {
            return Err(ExtractError::DecodeError);
        }
        i += 1;
    }
    match high {
        Some(h) => {
            out.push(h * 16);
        },
        None => {},
    }
    Ok(out)
}

/// Encodes bytes as hexadecimal text with the end marker.
pub fn hex_encode(x: &[u8]) -> (r: Vec<u8>)
    ensures
        r@ == spec_hex_encode(x@),
{
    let mut out: Vec<u8> = Vec::new();
    let mut i: usize = 0;
    while i < x.len()
        invariant
            i <= x.len(),
            out.len() == 2 * i,
            forall|j: int| 0 <= j < 2 * i ==> out@[j] == spec_hex_encoded_byte(x@, j),
        decreases x.len() - i,
    {
        out.push(hex_digit(x[i] / 16));
        out.push(hex_digit(x[i] % 16));
        i += 1;
    }
    out.push(62);
    assert(out@ =~= spec_hex_encode(x@));
    out
}

proof fn lemma_hex_round_trip_from(x: Seq<u8>, k: int, acc: Seq<u8>)
    requires
        0 <= k <= x.len(),
    ensures
        spec_hex_decode(spec_hex_encode(x), 2 * k, acc, None) == Ok::<_, ExtractError>(
            acc + x.subrange(k, x.len() as int),
        ),
    decreases x.len() - k,
{
    let s = spec_hex_encode(x);
    if k == x.len() {
        assert(s[2 * k] == 62);
        assert(acc + x.subrange(k, x.len() as int) =~= acc);
    } else {
        let hi = x[k] / 16;
        let lo = x[k] % 16;
        assert(s[2 * k] == hex_digit(hi));
        assert(s[2 * k + 1] == hex_digit(lo));
        assert(hex_value(hex_digit(hi)) == hi);
        assert(hex_value(hex_digit(lo)) == lo);
        assert((hi * 16 + lo) as u8 == x[k]);
        assert(spec_hex_decode(s, 2 * k, acc, None) == spec_hex_decode(
            s,
            2 * k + 1,
            acc,
            Some(hi),
        ));
        assert(spec_hex_decode(s, 2 * k + 1, acc, Some(hi)) == spec_hex_decode(
            s,
            2 * k + 2,
            acc.push(x[k]),
            None,
        ));
        lemma_hex_round_trip_from(x, k + 1, acc.push(x[k]));
        assert(acc.push(x[k]) + x.subrange(k + 1, x.len() as int) =~= acc + x.subrange(
            k,
            x.len() as int,
        ));
    }
}

/// Decoding what the encoder wrote gives back the bytes that were encoded.
pub proof fn lemma_hex_round_trip(x: Seq<u8>)
    ensures
        spec_hex_decode(spec_hex_encode(x), 0, Seq::empty(), None) == Ok::<_, ExtractError>(x),
{
    lemma_hex_round_trip_from(x, 0, Seq::empty());
    assert(Seq::<u8>::empty() + x.subrange(0, x.len() as int) =~= x);
}

/// Encoding what was decoded gives the encoded bytes back, for every text
/// that the encoder can have written.
pub proof fn lemma_hex_reencode(y: Seq<u8>, x: Seq<u8>)
    requires
        y == spec_hex_encode(x),
    ensures
        spec_hex_decode(y, 0, Seq::empty(), None) is Ok,
        spec_hex_encode(spec_hex_decode(y, 0, Seq::empty(), None)->Ok_0) == y,
{
    lemma_hex_round_trip(x);
}

} // verus!
