//! The base-85 stream filter.

use vstd::prelude::*;
use crate::error::ExtractError;
use crate::lexer::is_whitespace;

verus! {

/// The four bytes of a 32-bit word, most significant first.
pub open spec fn spec_word_bytes(v: int) -> Seq<u8> {
    let b3 = v % 256;
    let r1 = v / 256;
    let b2 = r1 % 256;
    let r2 = r1 / 256;
    let b1 = r2 % 256;
    let b0 = r2 / 256;
    seq![b0 as u8, b1 as u8, b2 as u8, b3 as u8]
}

/// The word that four bytes make, most significant first.
pub open spec fn spec_word(b0: u8, b1: u8, b2: u8, b3: u8) -> int {
    ((b0 * 256 + b1) * 256 + b2) * 256 + b3
}

/// The value of a group of `n` digits, 2 to 4 of them, filled up to five
/// with the highest digit.
pub open spec fn spec_a85_padded(v: int, n: int) -> int {
    if n == 2 {
        v * 614125 + 614124
    } else if n == 3 {
        v * 7225 + 7224
    } else {
        v * 85 + 84
    }
}

/// What is decoded when the data ends with `n` digits of value `v` left
/// over: one byte less than there are digits; a single digit is an error.
pub open spec fn spec_a85_finish(acc: Seq<u8>, v: int, n: int) -> Result<Seq<u8>, ExtractError> {
    if n == 0 {
        Ok(acc)
    } else if n == 1 || spec_a85_padded(v, n) > 0xffff_ffff {
        Err(ExtractError::DecodeError)
    } else {
        Ok(acc + spec_word_bytes(spec_a85_padded(v, n)).subrange(0, n - 1))
    }
}

/// The bytes that the digits from `p` on denote, up to `~` or the end of
/// the data. Five digits from `!` to `u` make four bytes; `z` alone stands
/// for four zero bytes; white space is skipped. `v` is the value of the `n`
/// digits of the group that is being read.
pub open spec fn spec_a85_decode(s: Seq<u8>, p: int, acc: Seq<u8>, v: int, n: int) -> Result<
    Seq<u8>,
    ExtractError,
>
    decreases s.len() - p,
{
    if p < 0 || p >= s.len() || s[p] == 126 {
        spec_a85_finish(acc, v, n)
    } else if is_whitespace(s[p]) {
        spec_a85_decode(s, p + 1, acc, v, n)
    } else if s[p] == 122 {
        if n == 0 {
            spec_a85_decode(s, p + 1, acc + seq![0u8, 0u8, 0u8, 0u8], 0, 0)
        } else {
            Err(ExtractError::DecodeError)
        }
    } else if 33 <= s[p] <= 117 {
        let v2 = v * 85 + (s[p] - 33);
        if n == 4 {
            if v2 > 0xffff_ffff {
                Err(ExtractError::DecodeError)
            } else {
                spec_a85_decode(s, p + 1, acc + spec_word_bytes(v2), 0, 0)
            }
        } else {
            spec_a85_decode(s, p + 1, acc, v2, n + 1)
        }
    } else {
        Err(ExtractError::DecodeError)
    }
}

/// A group of `n` digits has a value below 85 to the power `n`.
pub open spec fn spec_a85_bound(v: int, n: int) -> bool {
    &&& 0 <= v
    &&& n == 0 ==> v == 0
    &&& n == 1 ==> v < 85
    &&& n == 2 ==> v < 7225
    &&& n == 3 ==> v < 614125
    &&& v < 52200625
}

/// Where decoding starts: after the opening `<~`, if the data has one.
pub open spec fn spec_a85_start(s: Seq<u8>) -> int {
    if s.len() >= 2 && s[0] == 60 && s[1] == 126 {
        2
    } else {
        0
    }
}

/// What the base-85 text `s` decodes to.
pub open spec fn spec_ascii85_decode(s: Seq<u8>) -> Result<Seq<u8>, ExtractError> {
    spec_a85_decode(s, spec_a85_start(s), Seq::empty(), 0, 0)
}

fn push_word(out: &mut Vec<u8>, v: u64, count: usize)
    requires
        v <= 0xffff_ffff,
        count <= 4,
    ensures
        final(out)@ == old(out)@ + spec_word_bytes(v as int).subrange(0, count as int),
{
    let b3: u8 = (v % 256) as u8;
    let r1: u64 = v / 256;
    let b2: u8 = (r1 % 256) as u8;
    let r2: u64 = r1 / 256;
    let b1: u8 = (r2 % 256) as u8;
    let b0: u8 = (r2 / 256) as u8;
    if count >= 1 {
        out.push(b0);
    }
    if count >= 2 {
        out.push(b1);
    }
    if count >= 3 {
        out.push(b2);
    }
    if count >= 4 {
        out.push(b3);
    }
    assert(out@ =~= old(out)@ + spec_word_bytes(v as int).subrange(0, count as int));
}

/// Decodes base-85 text.
pub fn ascii85_decode(data: &[u8]) -> (r: Result<Vec<u8>, ExtractError>)
    ensures
        r matches Err(e) ==> e.is_read_failure(),
        match r {
            Ok(v) => spec_ascii85_decode(data@) == Ok::<_, ExtractError>(v@),
            Err(e) => spec_ascii85_decode(data@) == Err::<Seq<u8>, _>(e),
        },
{
    let len: usize = data.len();
    let mut i: usize = if len >= 2 && data[0] == 60 && data[1] == 126 {
        2
    } else {
        0
    };
    let mut out: Vec<u8> = Vec::new();
    let mut v: u64 = 0;
    let mut n: usize = 0;
    while i < len && data[i] != 126
        invariant
            len == data.len(),
            i <= len,
            n <= 4,
            spec_a85_bound(v as int, n as int),
            spec_ascii85_decode(data@) == spec_a85_decode(data@, i as int, out@, v as int, n as int),
        decreases len - i,
    {
        let b: u8 = data[i];
        if is_whitespace(b) {
        } else if b == 122 {
            if n != 0 {
                return Err(ExtractError::DecodeError);
            }
            push_word(&mut out, 0, 4);
            assert(spec_word_bytes(0).subrange(0, 4) =~= seq![0u8, 0u8, 0u8, 0u8]);
        } else if 33 <= b && b <= 117 {
            let v2: u64 = v * 85 + (b - 33) as u64;
            if n == 4 {
                if v2 > 0xffff_ffff {
                    return Err(ExtractError::DecodeError);
                }
                push_word(&mut out, v2, 4);
                assert(spec_word_bytes(v2 as int).subrange(0, 4) =~= spec_word_bytes(v2 as int));
                v = 0;
                n = 0;
            } else {
                v = v2;
                n = n + 1;
            }
        } else {
            return Err(ExtractError::DecodeError);
        }
        i += 1;
    }
    if n == 0 {
        Ok(out)
    } else if n == 1 {
        Err(ExtractError::DecodeError)
    } else {
        let full: u64 = if n == 2 {
            v * 614125 + 614124
        } else if n == 3 {
            v * 7225 + 7224
        } else {
            v * 85 + 84
        };
        if full > 0xffff_ffff {
            Err(ExtractError::DecodeError)
        } else {
            push_word(&mut out, full, n - 1);
            Ok(out)
        }
    }
}

/// The five digits of a 32-bit word, most significant first, as the bytes
/// from `!` to `u`.
pub open spec fn spec_a85_digits(v: int) -> Seq<u8> {
    let d4 = v % 85;
    let q1 = v / 85;
    let d3 = q1 % 85;
    let q2 = q1 / 85;
    let d2 = q2 % 85;
    let q3 = q2 / 85;
    let d1 = q3 % 85;
    let d0 = q3 / 85;
    seq![(d0 + 33) as u8, (d1 + 33) as u8, (d2 + 33) as u8, (d3 + 33) as u8, (d4 + 33) as u8]
}

/// The byte at `i`, or zero past the end.
pub open spec fn spec_byte_or_zero(x: Seq<u8>, i: int) -> u8 {
    if 0 <= i < x.len() {
        x[i]
    } else {
        0
    }
}

/// `x` in base 85: five digits for every four bytes, one digit more than
/// bytes for what is left at the end, then `~>`.
pub open spec fn spec_ascii85_encode(x: Seq<u8>) -> Seq<u8>
    decreases x.len(),
{
    if x.len() == 0 {
        seq![126u8, 62u8]
    } else if x.len() >= 4 {
        spec_a85_digits(spec_word(x[0], x[1], x[2], x[3])) + spec_ascii85_encode(
            x.subrange(4, x.len() as int),
        )
    } else {
        spec_a85_digits(
            spec_word(x[0], spec_byte_or_zero(x, 1), spec_byte_or_zero(x, 2), 0),
        ).subrange(0, x.len() as int + 1) + seq![126u8, 62u8]
    }
}

fn push_digits(out: &mut Vec<u8>, v: u64, count: usize)
    requires
        v <= 0xffff_ffff,
        count <= 5,
    ensures
        final(out)@ == old(out)@ + spec_a85_digits(v as int).subrange(0, count as int),
{
    let d4: u8 = (v % 85) as u8;
    let q1: u64 = v / 85;
    let d3: u8 = (q1 % 85) as u8;
    let q2: u64 = q1 / 85;
    let d2: u8 = (q2 % 85) as u8;
    let q3: u64 = q2 / 85;
    let d1: u8 = (q3 % 85) as u8;
    let d0: u8 = (q3 / 85) as u8;
    if count >= 1 {
        out.push(d0 + 33);
    }
    if count >= 2 {
        out.push(d1 + 33);
    }
    if count >= 3 {
        out.push(d2 + 33);
    }
    if count >= 4 {
        out.push(d3 + 33);
    }
    if count >= 5 {
        out.push(d4 + 33);
    }
    assert(out@ =~= old(out)@ + spec_a85_digits(v as int).subrange(0, count as int));
}

fn word(b0: u8, b1: u8, b2: u8, b3: u8) -> (r: u64)
    ensures
        r == spec_word(b0, b1, b2, b3),
        r <= 0xffff_ffff,
{
    ((b0 as u64 * 256 + b1 as u64) * 256 + b2 as u64) * 256 + b3 as u64
}

/// Encodes bytes as base-85 text with the end marker.
pub fn ascii85_encode(x: &[u8]) -> (r: Vec<u8>)
    ensures
        r@ == spec_ascii85_encode(x@),
{
    let n: usize = x.len();
    let mut out: Vec<u8> = Vec::new();
    let mut i: usize = 0;
    assert(x@.subrange(0, n as int) =~= x@);
    while n - i >= 4
        invariant
            n == x.len(),
            i <= n,
            out@ + spec_ascii85_encode(x@.subrange(i as int, n as int)) == spec_ascii85_encode(
                x@,
            ),
        decreases n - i,
    {
        let ghost rest = x@.subrange(i as int, n as int);
        let ghost before = out@;
        push_digits(&mut out, word(x[i], x[i + 1], x[i + 2], x[i + 3]), 5);
        proof {
            let d = spec_a85_digits(spec_word(rest[0], rest[1], rest[2], rest[3]));
            assert(d.subrange(0, 5) =~= d);
            assert(rest.subrange(4, rest.len() as int) =~= x@.subrange(i + 4, n as int));
            assert(out@ + spec_ascii85_encode(x@.subrange(i + 4, n as int)) =~= before
                + spec_ascii85_encode(rest));
        }
        i += 4;
    }
    let ghost rest = x@.subrange(i as int, n as int);
    let ghost before = out@;
    let m: usize = n - i;
    if m > 0 {
        let b1: u8 = if m > 1 {
            x[i + 1]
        } else {
            0
        };
        let b2: u8 = if m > 2 {
            x[i + 2]
        } else {
            0
        };
        push_digits(&mut out, word(x[i], b1, b2, 0), m + 1);
    }
    out.push(126);
    out.push(62);
    assert(out@ =~= before + spec_ascii85_encode(rest));
    out
}

proof fn lemma_word_bytes(b0: u8, b1: u8, b2: u8, b3: u8)
    ensures
        spec_word_bytes(spec_word(b0, b1, b2, b3)) == seq![b0, b1, b2, b3],
        0 <= spec_word(b0, b1, b2, b3) <= 0xffff_ffff,
{
    let v = spec_word(b0, b1, b2, b3);
    let r1 = (b0 * 256 + b1) * 256 + b2;
    let r2 = b0 * 256 + b1;
    assert(v / 256 == r1 && v % 256 == b3);
    assert(r1 / 256 == r2 && r1 % 256 == b2);
    assert(r2 / 256 == b0 && r2 % 256 == b1);
    assert(spec_word_bytes(v) =~= seq![b0, b1, b2, b3]);
}

/// Reading the first `k` digits of a word leaves the decoder with the
/// value of those digits.
proof fn lemma_a85_read_digits(s: Seq<u8>, p: int, acc: Seq<u8>, w: int, k: int)
    requires
        0 <= w <= 0xffff_ffff,
        0 <= p,
        1 <= k <= 4,
        p + k <= s.len(),
        s.subrange(p, p + k) == spec_a85_digits(w).subrange(0, k),
    ensures
        spec_a85_decode(s, p, acc, 0, 0) == spec_a85_decode(
            s,
            p + k,
            acc,
            if k == 1 {
                w / 85 / 85 / 85 / 85
            } else if k == 2 {
                w / 85 / 85 / 85
            } else if k == 3 {
                w / 85 / 85
            } else {
                w / 85
            },
            k,
        ),
{
    let d = spec_a85_digits(w);
    let t = s.subrange(p, p + k);
    let q1 = w / 85;
    let q2 = q1 / 85;
    let q3 = q2 / 85;
    let d0 = q3 / 85;
    assert(s[p] == t[0] && t[0] == d[0]);
    assert(s[p] == d0 + 33);
    assert(spec_a85_decode(s, p, acc, 0, 0) == spec_a85_decode(s, p + 1, acc, d0, 1));
    if k >= 2 {
        assert(s[p + 1] == t[1] && t[1] == d[1]);
        assert(d0 * 85 + q3 % 85 == q3);
        assert(spec_a85_decode(s, p + 1, acc, d0, 1) == spec_a85_decode(s, p + 2, acc, q3, 2));
    }
    if k >= 3 {
        assert(s[p + 2] == t[2] && t[2] == d[2]);
        assert(q3 * 85 + q2 % 85 == q2);
        assert(spec_a85_decode(s, p + 2, acc, q3, 2) == spec_a85_decode(s, p + 3, acc, q2, 3));
    }
    if k >= 4 {
        assert(s[p + 3] == t[3] && t[3] == d[3]);
        assert(q2 * 85 + q1 % 85 == q1);
        assert(spec_a85_decode(s, p + 3, acc, q2, 3) == spec_a85_decode(s, p + 4, acc, q1, 4));
    }
}

/// A whole group decodes to the four bytes it was made from.
proof fn lemma_a85_group(s: Seq<u8>, p: int, acc: Seq<u8>, b0: u8, b1: u8, b2: u8, b3: u8)
    requires
        0 <= p,
        p + 5 <= s.len(),
        s.subrange(p, p + 5) == spec_a85_digits(spec_word(b0, b1, b2, b3)),
    ensures
        spec_a85_decode(s, p, acc, 0, 0) == spec_a85_decode(
            s,
            p + 5,
            acc + seq![b0, b1, b2, b3],
            0,
            0,
        ),
{
    let w = spec_word(b0, b1, b2, b3);
    lemma_word_bytes(b0, b1, b2, b3);
    let d = spec_a85_digits(w);
    assert(s.subrange(p, p + 4) =~= d.subrange(0, 4));
    lemma_a85_read_digits(s, p, acc, w, 4);
    assert(s[p + 4] == s.subrange(p, p + 5)[4]);
    assert(s[p + 4] == w % 85 + 33);
    assert((w / 85) * 85 + w % 85 == w);
}

/// What is left at the end, one to three bytes, decodes to itself.
proof fn lemma_a85_tail(s: Seq<u8>, p: int, acc: Seq<u8>, x: Seq<u8>)
    requires
        0 <= p,
        1 <= x.len() <= 3,
        p + x.len() + 1 <= s.len(),
        s.subrange(p, p + x.len() + 1) == spec_a85_digits(
            spec_word(x[0], spec_byte_or_zero(x, 1), spec_byte_or_zero(x, 2), 0),
        ).subrange(0, x.len() as int + 1),
        p + x.len() + 1 < s.len() ==> s[p + x.len() + 1] == 126,
    ensures
        spec_a85_decode(s, p, acc, 0, 0) == Ok::<_, ExtractError>(acc + x),
{
    let b1 = spec_byte_or_zero(x, 1);
    let b2 = spec_byte_or_zero(x, 2);
    let w = spec_word(x[0], b1, b2, 0);
    let k = x.len() as int + 1;
    lemma_word_bytes(x[0], b1, b2, 0);
    lemma_a85_read_digits(s, p, acc, w, k);
    let q1 = w / 85;
    let q2 = q1 / 85;
    let q3 = q2 / 85;
    let v = if k == 2 {
        q3
    } else if k == 3 {
        q2
    } else {
        q1
    };
    assert(spec_a85_decode(s, p + k, acc, v, k) == spec_a85_finish(acc, v, k));
    let full = spec_a85_padded(v, k);
    let r2 = x[0] * 256 + b1;
    let r1 = r2 * 256 + b2;
    assert(w == r1 * 256);
    if k == 2 {
        assert(w == x[0] * 16777216);
        assert(w <= full < w + 614125);
        assert(full / 256 / 256 / 256 == x[0]);
        assert(spec_word_bytes(full).subrange(0, 1) =~= x);
    } else if k == 3 {
        assert(w == r2 * 65536);
        assert(w <= full < w + 7225);
        assert(full / 256 / 256 == r2);
        assert(r2 / 256 == x[0] && r2 % 256 == b1);
        assert(spec_word_bytes(full).subrange(0, 2) =~= x);
    } else {
        assert(w <= full < w + 85);
        assert(full / 256 == r1);
        assert(r1 / 256 == r2 && r1 % 256 == b2);
        assert(r2 / 256 == x[0] && r2 % 256 == b1);
        assert(spec_word_bytes(full).subrange(0, 3) =~= x);
    }
}

proof fn lemma_a85_round_trip_from(s: Seq<u8>, p: int, x: Seq<u8>, acc: Seq<u8>)
    requires
        0 <= p,
        p + spec_ascii85_encode(x).len() <= s.len(),
        s.subrange(p, p + spec_ascii85_encode(x).len()) == spec_ascii85_encode(x),
    ensures
        spec_a85_decode(s, p, acc, 0, 0) == Ok::<_, ExtractError>(acc + x),
    decreases x.len(),
{
    let e = spec_ascii85_encode(x);
    if x.len() == 0 {
        assert(s[p] == e[0]);
        assert(acc + x =~= acc);
    } else if x.len() >= 4 {
        let rest = x.subrange(4, x.len() as int);
        let d = spec_a85_digits(spec_word(x[0], x[1], x[2], x[3]));
        assert(s.subrange(p, p + 5) =~= e.subrange(0, 5));
        assert(e.subrange(0, 5) =~= d);
        lemma_a85_group(s, p, acc, x[0], x[1], x[2], x[3]);
        assert(s.subrange(p + 5, p + 5 + spec_ascii85_encode(rest).len()) =~= e.subrange(
            5,
            e.len() as int,
        ));
        assert(e.subrange(5, e.len() as int) =~= spec_ascii85_encode(rest));
        lemma_a85_round_trip_from(s, p + 5, rest, acc + seq![x[0], x[1], x[2], x[3]]);
        assert(acc + seq![x[0], x[1], x[2], x[3]] + rest =~= acc + x);
    } else {
        let k = x.len() as int + 1;
        let d = spec_a85_digits(
            spec_word(x[0], spec_byte_or_zero(x, 1), spec_byte_or_zero(x, 2), 0),
        );
        assert(s.subrange(p, p + k) =~= e.subrange(0, k));
        assert(e.subrange(0, k) =~= d.subrange(0, k));
        assert(s[p + k] == e[k]);
        lemma_a85_tail(s, p, acc, x);
    }
}

/// Decoding what the encoder wrote gives back the bytes that were encoded.
pub proof fn lemma_ascii85_round_trip(x: Seq<u8>)
    ensures
        spec_ascii85_decode(spec_ascii85_encode(x)) == Ok::<_, ExtractError>(x),
{
    let e = spec_ascii85_encode(x);
    assert(e.subrange(0, e.len() as int) =~= e);
    lemma_a85_first_byte(x);
    lemma_a85_round_trip_from(e, 0, x, Seq::empty());
    assert(Seq::<u8>::empty() + x =~= x);
}

/// Encoding what was decoded gives the encoded text back, for every text
/// that the encoder can have written.
pub proof fn lemma_ascii85_reencode(y: Seq<u8>, x: Seq<u8>)
    requires
        y == spec_ascii85_encode(x),
    ensures
        spec_ascii85_decode(y) is Ok,
        spec_ascii85_encode(spec_ascii85_decode(y)->Ok_0) == y,
{
    lemma_ascii85_round_trip(x);
}

/// The encoder never writes `<` first, so nothing is taken for an opening
/// mark.
proof fn lemma_a85_first_byte(x: Seq<u8>)
    ensures
        spec_a85_start(spec_ascii85_encode(x)) == 0,
{
    let e = spec_ascii85_encode(x);
    if x.len() == 0 {
        assert(e[0] == 126);
    } else if x.len() >= 4 {
        let w = spec_word(x[0], x[1], x[2], x[3]);
        lemma_word_bytes(x[0], x[1], x[2], x[3]);
        assert(e[0] == spec_a85_digits(w)[0]);
        assert(e[1] == spec_a85_digits(w)[1]);
        assert(e[1] != 126);
    } else {
        let w = spec_word(x[0], spec_byte_or_zero(x, 1), spec_byte_or_zero(x, 2), 0);
        lemma_word_bytes(x[0], spec_byte_or_zero(x, 1), spec_byte_or_zero(x, 2), 0);
        assert(e[1] == spec_a85_digits(w)[1]);
        assert(e[1] != 126);
    }
}

} // verus!
