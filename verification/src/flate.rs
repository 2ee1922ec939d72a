//! The general-purpose compression filter: deflate data in a zlib envelope.

use vstd::prelude::*;
use crate::bytes::append_range;
use crate::error::ExtractError;
use crate::inflate::{
    bit_weight, inflate, spec_bit, spec_bits, spec_inflate, spec_inflate_block, spec_inflate_blocks,
    spec_stored_block,
};

verus! {

/// What the zlib stream `s` expands to. The envelope must name the deflate
/// method and no preset dictionary; the checksum at the end is not read.
pub open spec fn spec_flate_decode(s: Seq<u8>) -> Result<Seq<u8>, ExtractError> {
    if s.len() < 2 || s[0] % 16 != 8 || (s[1] / 32) % 2 == 1 {
        Err(ExtractError::DecodeError)
    } else {
        match spec_inflate(s, 2) {
            Some(v) => Ok(v),
            None => Err(ExtractError::DecodeError),
        }
    }
}

/// Expands a zlib stream.
pub fn flate_decode(data: &[u8]) -> (r: Result<Vec<u8>, ExtractError>)
    ensures
        r matches Err(e) ==> e.is_read_failure(),
        match r {
            Ok(v) => spec_flate_decode(data@) == Ok::<_, ExtractError>(v@),
            Err(e) => spec_flate_decode(data@) == Err::<Seq<u8>, _>(e),
        },
{
    if data.len() < 2 || data[0] % 16 != 8 || (data[1] / 32) % 2 == 1 {
        return Err(ExtractError::DecodeError);
    }
    match inflate(data, 2) {
        Some(v) => Ok(v),
        None => Err(ExtractError::DecodeError),
    }
}

/// `x` as deflate blocks of the stored kind, each of up to 65535 bytes.
pub open spec fn spec_stored_blocks(x: Seq<u8>) -> Seq<u8>
    decreases x.len(),
{
    if x.len() <= 65535 {
        let n = x.len() as int;
        seq![1u8, (n % 256) as u8, (n / 256) as u8, (255 - n % 256) as u8, (255 - n / 256) as u8]
            + x
    } else {
        seq![0u8, 255u8, 255u8, 0u8, 0u8] + x.subrange(0, 65535) + spec_stored_blocks(
            x.subrange(65535, x.len() as int),
        )
    }
}

/// The two sums of the Adler-32 checksum of `x`.
pub open spec fn spec_adler(x: Seq<u8>) -> (int, int)
    decreases x.len(),
{
    if x.len() == 0 {
        (1, 0)
    } else {
        let (a, b) = spec_adler(x.drop_last());
        let a2 = (a + x.last()) % 65521;
        (a2, (b + a2) % 65521)
    }
}

/// The four bytes of the checksum, most significant first.
pub open spec fn spec_adler_bytes(x: Seq<u8>) -> Seq<u8> {
    let (a, b) = spec_adler(x);
    seq![(b / 256 % 256) as u8, (b % 256) as u8, (a / 256 % 256) as u8, (a % 256) as u8]
}

/// `x` as a zlib stream that stores the bytes without compressing them.
pub open spec fn spec_flate_encode(x: Seq<u8>) -> Seq<u8> {
    seq![120u8, 1u8] + spec_stored_blocks(x) + spec_adler_bytes(x)
}

fn adler(x: &[u8]) -> (r: (u32, u32))
    ensures
        (r.0 as int, r.1 as int) == spec_adler(x@),
        r.0 < 65521,
        r.1 < 65521,
{
    let mut a: u32 = 1;
    let mut b: u32 = 0;
    let mut i: usize = 0;
    assert(x@.subrange(0, 0) =~= Seq::<u8>::empty());
    while i < x.len()
        invariant
            i <= x.len(),
            a < 65521,
            b < 65521,
            (a as int, b as int) == spec_adler(x@.subrange(0, i as int)),
        decreases x.len() - i,
    {
        assert(x@.subrange(0, i + 1).drop_last() =~= x@.subrange(0, i as int));
        a = (a + x[i] as u32) % 65521;
        b = (b + a) % 65521;
        i += 1;
    }
    assert(x@.subrange(0, x.len() as int) =~= x@);
    (a, b)
}

/// Wraps `x` in a zlib stream of stored blocks.
pub fn flate_encode(x: &[u8]) -> (r: Vec<u8>)
    ensures
        r@ == spec_flate_encode(x@),
{
    let n: usize = x.len();
    let mut out: Vec<u8> = Vec::new();
    out.push(120);
    out.push(1);
    let mut i: usize = 0;
    assert(x@.subrange(0, n as int) =~= x@);
    while n - i > 65535
        invariant
            n == x.len(),
            i <= n,
            out@ + spec_stored_blocks(x@.subrange(i as int, n as int)) == seq![120u8, 1u8]
                + spec_stored_blocks(x@),
        decreases n - i,
    {
        let ghost rest = x@.subrange(i as int, n as int);
        let ghost before = out@;
        out.push(0);
        out.push(255);
        out.push(255);
        out.push(0);
        out.push(0);
        append_range(&mut out, x, i, i + 65535);
        proof {
            assert(rest.subrange(0, 65535) =~= x@.subrange(i as int, i + 65535));
            assert(rest.subrange(65535, rest.len() as int) =~= x@.subrange(i + 65535, n as int));
            assert(out@ + spec_stored_blocks(x@.subrange(i + 65535, n as int)) =~= before
                + spec_stored_blocks(rest));
        }
        i += 65535;
    }
    let m: usize = n - i;
    let ghost rest = x@.subrange(i as int, n as int);
    let ghost before = out@;
    out.push(1);
    out.push((m % 256) as u8);
    out.push((m / 256) as u8);
    out.push((255 - m % 256) as u8);
    out.push((255 - m / 256) as u8);
    append_range(&mut out, x, i, n);
    assert(out@ =~= before + spec_stored_blocks(rest));
    let (a, b) = adler(x);
    let ghost body = out@;
    out.push((b / 256 % 256) as u8);
    out.push((b % 256) as u8);
    out.push((a / 256 % 256) as u8);
    out.push((a % 256) as u8);
    assert(out@ =~= body + spec_adler_bytes(x@));
    out
}

/// The header bits of a block that starts at a byte whose value is 0 or 1.
proof fn lemma_stored_header_bits(s: Seq<u8>, b: int)
    requires
        0 <= b < s.len(),
        s[b] <= 1,
    ensures
        spec_bits(s, 8 * b, 1) == s[b],
        spec_bits(s, 8 * b + 1, 2) == 0,
{
    assert((8 * b) / 8 == b && (8 * b) % 8 == 0);
    assert((8 * b + 1) / 8 == b && (8 * b + 1) % 8 == 1);
    assert((8 * b + 2) / 8 == b && (8 * b + 2) % 8 == 2);
    assert(spec_bit(s, 8 * b) == s[b]);
    assert(spec_bit(s, 8 * b + 1) == 0);
    assert(((8 * b + 2) % 8) as u8 == 2u8);
    assert(bit_weight(2u8) == 4u8);
    assert(s[b] / 4u8 == 0);
    assert(spec_bit(s, 8 * b + 2) == 0);
    assert(spec_bits(s, 8 * b + 1, 0) == 0);
    assert(spec_bits(s, 8 * b, 1) == s[b]);
    assert(spec_bits(s, 8 * b + 3, 0) == 0);
    assert(spec_bits(s, 8 * b + 2, 1) == 0);
    assert(spec_bits(s, 8 * b + 1, 2) == 0);
}

/// How many bytes the first block of the encoding of `x` holds.
pub open spec fn spec_first_chunk(x: Seq<u8>) -> int {
    if x.len() <= 65535 {
        x.len() as int
    } else {
        65535
    }
}

/// One stored block at byte `b` of `s`, holding `n` bytes.
proof fn lemma_stored_step(s: Seq<u8>, b: int, n: int, out: Seq<u8>)
    requires
        0 <= b,
        0 <= n <= 65535,
        b + 5 + n <= s.len(),
        s[b] <= 1,
        s[b + 1] == n % 256,
        s[b + 2] == n / 256,
        s[b + 3] == 255 - n % 256,
        s[b + 4] == 255 - n / 256,
    ensures
        spec_bits(s, 8 * b, 1) == s[b],
        spec_inflate_block(s, 8 * b, spec_bits(s, 8 * b + 1, 2) as int, out) == Some(
            (out + s.subrange(b + 5, b + 5 + n), 8 * (b + 5 + n)),
        ),
{
    lemma_stored_header_bits(s, b);
    assert((8 * b + 3 + 7) / 8 == b + 1);
    assert(spec_stored_block(s, 8 * b + 3, out) == Some(
        (out + s.subrange(b + 5, b + 5 + n), 8 * (b + 5 + n)),
    ));
}

/// The shape of the encoding: a header of five bytes, the first chunk, and
/// the encoding of what is left.
proof fn lemma_stored_blocks_shape(x: Seq<u8>)
    ensures
        ({
            let e = spec_stored_blocks(x);
            let n = spec_first_chunk(x);
            &&& e.len() >= 5 + n
            &&& e[0] == (if x.len() <= 65535 {
                1u8
            } else {
                0u8
            })
            &&& e[1] == n % 256
            &&& e[2] == n / 256
            &&& e[3] == 255 - n % 256
            &&& e[4] == 255 - n / 256
            &&& e.subrange(5, 5 + n) == x.subrange(0, n)
            &&& x.len() <= 65535 ==> e.len() == 5 + n
            &&& x.len() > 65535 ==> e.subrange(5 + n, e.len() as int) == spec_stored_blocks(
                x.subrange(n, x.len() as int),
            )
        }),
{
    let e = spec_stored_blocks(x);
    let n = spec_first_chunk(x);
    if x.len() <= 65535 {
        assert(e.subrange(5, 5 + n) =~= x.subrange(0, n));
    } else {
        assert(e.subrange(5, 5 + n) =~= x.subrange(0, n));
        assert(e.subrange(5 + n, e.len() as int) =~= spec_stored_blocks(
            x.subrange(n, x.len() as int),
        ));
    }
}

proof fn lemma_stored_round_trip(s: Seq<u8>, b: int, x: Seq<u8>, out: Seq<u8>)
    requires
        0 <= b,
        b + spec_stored_blocks(x).len() <= s.len(),
        s.subrange(b, b + spec_stored_blocks(x).len()) == spec_stored_blocks(x),
    ensures
        spec_inflate_blocks(s, 8 * b, out) == Some(out + x),
    decreases x.len(),
{
    let e = spec_stored_blocks(x);
    let n = spec_first_chunk(x);
    lemma_stored_blocks_shape(x);
    assert(s[b] == e[0]);
    assert(s[b + 1] == e[1]);
    assert(s[b + 2] == e[2]);
    assert(s[b + 3] == e[3]);
    assert(s[b + 4] == e[4]);
    lemma_stored_step(s, b, n, out);
    assert(s.subrange(b + 5, b + 5 + n) =~= e.subrange(5, 5 + n));
    if x.len() <= 65535 {
        assert(x.subrange(0, n) =~= x);
    } else {
        let rest = x.subrange(n, x.len() as int);
        assert(s.subrange(b + 5 + n, b + 5 + n + spec_stored_blocks(rest).len()) =~= e.subrange(
            5 + n,
            e.len() as int,
        ));
        lemma_stored_round_trip(s, b + 5 + n, rest, out + x.subrange(0, n));
        assert(out + x.subrange(0, n) + rest =~= out + x);
    }
}

/// Decoding what the encoder wrote gives back the bytes that were encoded.
pub proof fn lemma_flate_round_trip(x: Seq<u8>)
    ensures
        spec_flate_decode(spec_flate_encode(x)) == Ok::<_, ExtractError>(x),
{
    let s = spec_flate_encode(x);
    assert(s.subrange(2, 2 + spec_stored_blocks(x).len() as int) =~= spec_stored_blocks(x));
    lemma_stored_round_trip(s, 2, x, Seq::empty());
    assert(s[0] == 120);
    assert(s[1] == 1);
    assert(Seq::<u8>::empty() + x =~= x);
}

/// Encoding what was decoded gives the encoded stream back, for every
/// stream that the encoder can have written.
pub proof fn lemma_flate_reencode(y: Seq<u8>, x: Seq<u8>)
    requires
        y == spec_flate_encode(x),
    ensures
        spec_flate_decode(y) is Ok,
        spec_flate_encode(spec_flate_decode(y)->Ok_0) == y,
{
    lemma_flate_round_trip(x);
}

} // verus!
