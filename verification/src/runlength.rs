//! The run-length stream filter.

use vstd::prelude::*;
use crate::bytes::{append_range, append_repeat};
use crate::error::ExtractError;

verus! {

/// The bytes that the runs from `p` on denote. A length byte below 128 is
/// followed by that many bytes plus one, to be copied; one above 128 by a
/// single byte, to be repeated 257 less the length byte times; 128, or the
/// end of the data, ends the stream.
pub open spec fn spec_run_length_decode(s: Seq<u8>, p: int, acc: Seq<u8>) -> Result<
    Seq<u8>,
    ExtractError,
>
    decreases s.len() - p,
{
    if p < 0 || p >= s.len() || s[p] == 128 {
        Ok(acc)
    } else if s[p] < 128 {
        let n = s[p] + 1;
        if p + 1 + n > s.len() {
            Err(ExtractError::DecodeError)
        } else {
            spec_run_length_decode(s, p + 1 + n, acc + s.subrange(p + 1, p + 1 + n))
        }
    } else {
        if p + 1 >= s.len() {
            Err(ExtractError::DecodeError)
        } else {
            let b = s[p + 1];
            spec_run_length_decode(s, p + 2, acc + Seq::new((257 - s[p]) as nat, |k: int| b))
        }
    }
}

/// `x` as runs of up to 128 copied bytes, and the end marker.
pub open spec fn spec_run_length_encode(x: Seq<u8>) -> Seq<u8>
    decreases x.len(),
{
    if x.len() == 0 {
        seq![128u8]
    } else {
        let n: int = if x.len() < 128 {
            x.len() as int
        } else {
            128
        };
        seq![(n - 1) as u8] + x.subrange(0, n) + spec_run_length_encode(
            x.subrange(n, x.len() as int),
        )
    }
}

/// Decodes run-length data.
pub fn run_length_decode(data: &[u8]) -> (r: Result<Vec<u8>, ExtractError>)
    ensures
        r matches Err(e) ==> e.is_read_failure(),
        match r {
            Ok(v) => spec_run_length_decode(data@, 0, Seq::empty()) == Ok::<_, ExtractError>(v@),
            Err(e) => spec_run_length_decode(data@, 0, Seq::empty()) == Err::<Seq<u8>, _>(e),
        },
{
    let n: usize = data.len();
    let mut i: usize = 0;
    let mut out: Vec<u8> = Vec::new();
    while i < n && data[i] != 128
        invariant
            n == data.len(),
            i <= n,
            spec_run_length_decode(data@, 0, Seq::empty()) == spec_run_length_decode(
                data@,
                i as int,
                out@,
            ),
        decreases n - i,
    {
        let l: u8 = data[i];
        if l < 128 {
            let count: usize = l as usize + 1;
            if count > n - i - 1 {
                return Err(ExtractError::DecodeError);
            }
            append_range(&mut out, data, i + 1, i + 1 + count);
            i = i + 1 + count;
        } else {
            if n - i < 2 {
                return Err(ExtractError::DecodeError);
            }
            append_repeat(&mut out, data[i + 1], 257 - l as usize);
            i += 2;
        }
    }
    Ok(out)
}

/// Encodes bytes as runs of copied bytes with the end marker.
pub fn run_length_encode(x: &[u8]) -> (r: Vec<u8>)
    ensures
        r@ == spec_run_length_encode(x@),
{
    let n: usize = x.len();
    let mut out: Vec<u8> = Vec::new();
    let mut i: usize = 0;
    assert(x@.subrange(0, n as int) =~= x@);
    while i < n
        invariant
            n == x.len(),
            i <= n,
            out@ + spec_run_length_encode(x@.subrange(i as int, n as int))
                == spec_run_length_encode(x@),
        decreases n - i,
    {
        let count: usize = if n - i < 128 {
            n - i
        } else {
            128
        };
        let ghost rest = x@.subrange(i as int, n as int);
        let ghost before = out@;
        out.push((count - 1) as u8);
        append_range(&mut out, x, i, i + count);
        proof {
            assert(rest.subrange(0, count as int) =~= x@.subrange(i as int, i + count));
            assert(rest.subrange(count as int, rest.len() as int) =~= x@.subrange(
                i + count,
                n as int,
            ));
            assert(out@ + spec_run_length_encode(x@.subrange(i + count, n as int)) =~= before
                + spec_run_length_encode(rest));
        }
        i += count;
    }
    out.push(128);
    assert(out@ =~= spec_run_length_encode(x@)) by {
        assert(spec_run_length_encode(x@.subrange(n as int, n as int)) =~= seq![128u8]);
    }
    out
}

proof fn lemma_run_length_round_trip_from(pre: Seq<u8>, x: Seq<u8>, acc: Seq<u8>)
    ensures
        spec_run_length_decode(pre + spec_run_length_encode(x), pre.len() as int, acc) == Ok::<
            _,
            ExtractError,
        >(acc + x),
    decreases x.len(),
{
    let s = pre + spec_run_length_encode(x);
    let p = pre.len() as int;
    if x.len() == 0 {
        assert(s[p] == 128);
        assert(acc + x =~= acc);
    } else {
        let n: int = if x.len() < 128 {
            x.len() as int
        } else {
            128
        };
        let chunk = x.subrange(0, n);
        let rest = x.subrange(n, x.len() as int);
        let pre2 = pre + seq![(n - 1) as u8] + chunk;
        assert(s =~= pre2 + spec_run_length_encode(rest));
        assert(s[p] == (n - 1) as u8);
        assert(s.subrange(p + 1, p + 1 + n) =~= chunk);
        lemma_run_length_round_trip_from(pre2, rest, acc + chunk);
        assert(acc + chunk + rest =~= acc + x);
    }
}

/// Decoding what the encoder wrote gives back the bytes that were encoded.
pub proof fn lemma_run_length_round_trip(x: Seq<u8>)
    ensures
        spec_run_length_decode(spec_run_length_encode(x), 0, Seq::empty()) == Ok::<
            _,
            ExtractError,
        >(x),
{
    lemma_run_length_round_trip_from(Seq::empty(), x, Seq::empty());
    assert(Seq::<u8>::empty() + spec_run_length_encode(x) =~= spec_run_length_encode(x));
    assert(Seq::<u8>::empty() + x =~= x);
}

/// Encoding what was decoded gives the encoded data back, for all data
/// that the encoder can have written.
pub proof fn lemma_run_length_reencode(y: Seq<u8>, x: Seq<u8>)
    requires
        y == spec_run_length_encode(x),
    ensures
        spec_run_length_decode(y, 0, Seq::empty()) is Ok,
        spec_run_length_encode(spec_run_length_decode(y, 0, Seq::empty())->Ok_0) == y,
{
    lemma_run_length_round_trip(x);
}

} // verus!
