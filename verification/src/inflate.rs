//! Decompression of the deflate format: bit access, prefix codes, blocks.
//!
//! The definitions follow the data bit by bit. Where one of them recurses
//! on a position that another one gives, it checks that the position has
//! moved on and lies inside the data, so that it is well founded; the
//! functions prove that the check never fails on what they are given.

use vstd::prelude::*;
use vstd::slice::slice_subrange;
use crate::bytes::{append_range, append_repeat};

verus! {

/// Two to the power `n`.
pub open spec fn pow2(n: nat) -> int
    decreases n,
{
    if n == 0 {
        1
    } else {
        2 * pow2((n - 1) as nat)
    }
}

proof fn lemma_pow2_values()
    ensures
        pow2(0) == 1,
        pow2(1) == 2,
        pow2(2) == 4,
        pow2(3) == 8,
        pow2(4) == 16,
        pow2(5) == 32,
        pow2(6) == 64,
        pow2(7) == 128,
        pow2(8) == 256,
        pow2(13) == 8192,
{
    reveal_with_fuel(pow2, 18);
}

proof fn lemma_pow2_small(n: nat)
    requires
        n <= 16,
    ensures
        1 <= pow2(n) <= 65536,
        n <= 15 ==> pow2(n) <= 32768,
        n >= 1 ==> pow2(n) == 2 * pow2((n - 1) as nat),
{
    reveal_with_fuel(pow2, 18);
}

/// The weight of bit `k` of a byte.
#[verifier::allow_in_spec]
pub fn bit_weight(k: u8) -> u8
    returns
        (if k == 0 {
            1u8
        } else if k == 1 {
            2u8
        } else if k == 2 {
            4u8
        } else if k == 3 {
            8u8
        } else if k == 4 {
            16u8
        } else if k == 5 {
            32u8
        } else if k == 6 {
            64u8
        } else {
            128u8
        }),
{
    if k == 0 {
        1
    } else if k == 1 {
        2
    } else if k == 2 {
        4
    } else if k == 3 {
        8
    } else if k == 4 {
        16
    } else if k == 5 {
        32
    } else if k == 6 {
        64
    } else {
        128
    }
}

/// Bit `i` of the data, counting from the least significant bit of the
/// first byte.
pub open spec fn spec_bit(s: Seq<u8>, i: int) -> nat {
    if 0 <= i < 8 * s.len() {
        ((s[i / 8] / bit_weight((i % 8) as u8)) as int % 2) as nat
    } else {
        0
    }
}

/// The number that the `n` bits from `p` on denote, least significant bit
/// first.
pub open spec fn spec_bits(s: Seq<u8>, p: int, n: nat) -> nat
    decreases n,
{
    if n == 0 {
        0
    } else {
        spec_bit(s, p) + 2 * spec_bits(s, p + 1, (n - 1) as nat)
    }
}

/// A position in the data, in bits.
#[derive(Clone, Copy)]
pub struct BitCursor {
    pub byte: usize,
    pub bit: u8,
}

impl BitCursor {
    /// The position counted in bits from the start of the data.
    pub open spec fn index(self) -> int {
        self.byte * 8 + self.bit
    }

    /// The cursor lies inside data of `len` bytes, or at its end.
    pub open spec fn wf(self, len: nat) -> bool {
        &&& self.bit < 8
        &&& self.byte <= len
        &&& self.byte == len ==> self.bit == 0
    }
}

/// Reads `n` bits, or nothing where fewer remain.
pub fn read_bits(data: &[u8], c: BitCursor, n: u8) -> (r: Option<(u32, BitCursor)>)
    requires
        c.wf(data@.len()),
        n <= 16,
    ensures
        match r {
            Some((v, c2)) => {
                &&& c.index() + n <= 8 * data@.len()
                &&& v == spec_bits(data@, c.index(), n as nat)
                &&& v < pow2(n as nat)
                &&& c2.wf(data@.len())
                &&& c2.index() == c.index() + n
            },
            None => c.index() + n > 8 * data@.len(),
        },
{
    let avail: usize = data.len() - c.byte;
    if avail < 3 && avail * 8 - (c.bit as usize) < n as usize {
        return None;
    }
    let mut v: u32 = 0;
    let mut j: u8 = n;
    while j > 0
        invariant
            j <= n <= 16,
            c.wf(data@.len()),
            c.index() + n <= 8 * data@.len(),
            v == spec_bits(data@, c.index() + j, (n - j) as nat),
            0 <= v < pow2((n - j) as nat),
        decreases j,
    {
        j -= 1;
        let t: usize = c.bit as usize + j as usize;
        assert(c.byte + t / 8 < data.len()) by {
            assert(c.byte * 8 + t < 8 * data.len());
        }
        let b: u8 = data[c.byte + t / 8];
        let bitv: u32 = ((b / bit_weight((t % 8) as u8)) % 2) as u32;
        proof {
            lemma_pow2_small((n - j) as nat);
            lemma_pow2_small((n - j - 1) as nat);
            assert((c.index() + j) / 8 == c.byte + t / 8);
            assert((c.index() + j) % 8 == t % 8);
            assert(bitv == spec_bit(data@, c.index() + j));
        }
        v = v * 2 + bitv;
    }
    let t: usize = c.bit as usize + n as usize;
    Some((v, BitCursor { byte: c.byte + t / 8, bit: (t % 8) as u8 }))
}

/// A prefix code in canonical form: how many symbols have each code length,
/// and the symbols ordered by code length and then by value.
#[derive(Debug, PartialEq, Eq)]
pub struct Huffman {
    pub count: Vec<u16>,
    pub symbol: Vec<u16>,
}

impl Huffman {
    /// There is a count for each code length from 0 to 15.
    pub open spec fn wf(&self) -> bool {
        self.count@.len() == 16
    }
}

/// How many of the first `n` symbols have each code length.
pub open spec fn spec_count_lengths(lens: Seq<u8>, n: int) -> Seq<u16>
    decreases n,
{
    if n <= 0 {
        Seq::new(16, |i: int| 0u16)
    } else {
        let c = spec_count_lengths(lens, n - 1);
        let l = lens[n - 1] as int;
        if l < 16 && c[l] < 0xffff {
            c.update(l, (c[l] + 1) as u16)
        } else {
            c
        }
    }
}

/// The part of the code space that lengths up to `k` leave free, in units
/// of codes of length `k`; negative where they claim more than there is.
pub open spec fn spec_code_space(count: Seq<u16>, k: int) -> int
    decreases k,
{
    if k <= 0 {
        1
    } else {
        2 * spec_code_space(count, k - 1) - count[k]
    }
}

/// No length claims more codes than there are.
pub open spec fn spec_code_space_ok(count: Seq<u16>) -> bool {
    forall|k: int| 1 <= k <= 15 ==> spec_code_space(count, k) >= 0
}

/// The index in the symbol table at which each code length starts, worked
/// out for the lengths up to `k`.
pub open spec fn spec_offsets(count: Seq<u16>, k: int) -> Seq<u32>
    decreases k,
{
    if k <= 1 {
        Seq::new(16, |i: int| 0u32)
    } else {
        let o = spec_offsets(count, k - 1);
        o.update(k, (o[k - 1] + count[k - 1]) as u32)
    }
}

/// The symbol table after the first `n` symbols have been entered, and for
/// each length the index at which its next symbol goes.
pub open spec fn spec_fill_symbols(lens: Seq<u8>, n: int, start: Seq<u32>) -> (Seq<u16>, Seq<u32>)
    decreases n,
{
    if n <= 0 {
        (Seq::new(lens.len(), |i: int| 0u16), start)
    } else {
        let (sym, offs) = spec_fill_symbols(lens, n - 1, start);
        let l = lens[n - 1] as int;
        if l != 0 && l < 16 && offs[l] < sym.len() {
            (sym.update(offs[l] as int, (n - 1) as u16), offs.update(l, (offs[l] + 1) as u32))
        } else {
            (sym, offs)
        }
    }
}

/// The canonical code for the code lengths `lens`, one per symbol: the
/// counts per length and the symbol table. There is none where the lengths
/// claim more codes than exist, or for more than 320 symbols.
pub open spec fn spec_huffman(lens: Seq<u8>) -> Option<(Seq<u16>, Seq<u16>)> {
    let count = spec_count_lengths(lens, lens.len() as int);
    if lens.len() > 320 || !spec_code_space_ok(count) {
        None
    } else {
        Some((count, spec_fill_symbols(lens, lens.len() as int, spec_offsets(count, 15)).0))
    }
}

fn zeros_u16(n: usize) -> (r: Vec<u16>)
    ensures
        r@ == Seq::new(n as nat, |i: int| 0u16),
{
    let mut v: Vec<u16> = Vec::new();
    while v.len() < n
        invariant
            v.len() <= n,
            forall|i: int| 0 <= i < v.len() ==> v@[i] == 0,
        decreases n - v.len(),
    {
        v.push(0);
    }
    assert(v@ =~= Seq::new(n as nat, |i: int| 0u16));
    v
}

fn zeros_u32(n: usize) -> (r: Vec<u32>)
    ensures
        r@ == Seq::new(n as nat, |i: int| 0u32),
{
    let mut v: Vec<u32> = Vec::new();
    while v.len() < n
        invariant
            v.len() <= n,
            forall|i: int| 0 <= i < v.len() ==> v@[i] == 0,
        decreases n - v.len(),
    {
        v.push(0);
    }
    assert(v@ =~= Seq::new(n as nat, |i: int| 0u32));
    v
}

/// Builds the canonical code for the given code lengths.
pub fn build_huffman(lens: &[u8]) -> (r: Option<Huffman>)
    ensures
        match r {
            Some(h) => spec_huffman(lens@) == Some((h.count@, h.symbol@)) && h.wf(),
            None => spec_huffman(lens@) is None,
        },
{
    let n: usize = lens.len();
    if n > 320 {
        return None;
    }
    let mut count: Vec<u16> = zeros_u16(16);
    let mut i: usize = 0;
    while i < n
        invariant
            n == lens.len(),
            i <= n,
            count@.len() == 16,
            count@ == spec_count_lengths(lens@, i as int),
        decreases n - i,
    {
        let l: usize = lens[i] as usize;
        if l < 16 && count[l] < 0xffff {
            let c: u16 = count[l];
            count.set(l, c + 1);
        }
        i += 1;
    }
    let mut left: i64 = 1;
    let mut k: usize = 1;
    while k <= 15
        invariant
            1 <= k <= 16,
            n == lens.len(),
            count@.len() == 16,
            count@ == spec_count_lengths(lens@, n as int),
            left == spec_code_space(count@, k - 1),
            0 <= left <= pow2((k - 1) as nat),
            forall|j: int| 1 <= j < k ==> spec_code_space(count@, j) >= 0,
        decreases 16 - k,
    {
        proof {
            lemma_pow2_small((k - 1) as nat);
            lemma_pow2_small(k as nat);
        }
        left = 2 * left - count[k] as i64;
        assert(left == spec_code_space(count@, k as int));
        if left < 0 {
            return None;
        }
        k += 1;
    }
    let mut offs: Vec<u32> = zeros_u32(16);
    let mut k: usize = 2;
    while k <= 15
        invariant
            2 <= k <= 16,
            n == lens.len(),
            n <= 320,
            count@.len() == 16,
            count@ == spec_count_lengths(lens@, n as int),
            spec_code_space_ok(count@),
            offs@.len() == 16,
            offs@ == spec_offsets(count@, k - 1),
            forall|j: int| 0 <= j < 16 ==> offs@[j] <= 65535 * (k - 1),
        decreases 16 - k,
    {
        let v: u32 = offs[k - 1] + count[k - 1] as u32;
        offs.set(k, v);
        k += 1;
    }
    let mut symbol: Vec<u16> = zeros_u16(n);
    let mut i: usize = 0;
    let ghost start = offs@;
    while i < n
        invariant
            n == lens.len(),
            n <= 320,
            i <= n,
            count@.len() == 16,
            count@ == spec_count_lengths(lens@, n as int),
            spec_code_space_ok(count@),
            start == spec_offsets(count@, 15),
            offs@.len() == 16,
            symbol@.len() == n,
            (symbol@, offs@) == spec_fill_symbols(lens@, i as int, start),
        decreases n - i,
    {
        let l: usize = lens[i] as usize;
        if l != 0 && l < 16 && (offs[l] as usize) < n {
            let o: u32 = offs[l];
            symbol.set(o as usize, i as u16);
            offs.set(l, o + 1);
        }
        i += 1;
    }
    Some(Huffman { count, symbol })
}

/// The symbol whose code starts at bit `p`, and the position after it.
/// `len` is the length of the code read so far plus one, `code` the code
/// read so far with a zero appended, `first` the first code of length `len`
/// and `index` the place of its symbol in the table.
pub open spec fn spec_decode_symbol(
    count: Seq<u16>,
    symbol: Seq<u16>,
    s: Seq<u8>,
    p: int,
    len: int,
    code: int,
    first: int,
    index: int,
) -> Option<(int, int)>
    decreases 16 - len,
{
    if len < 1 || len > 15 || p < 0 || p >= 8 * s.len() {
        None
    } else {
        let c = code + spec_bit(s, p);
        let n = count[len] as int;
        if c < first + n {
            let i = index + (c - first);
            if 0 <= i < symbol.len() {
                Some((symbol[i] as int, p + 1))
            } else {
                None
            }
        } else {
            spec_decode_symbol(count, symbol, s, p + 1, len + 1, 2 * c, 2 * (first + n), index + n)
        }
    }
}

/// Reads one symbol of the code `h`.
pub fn decode_symbol(h: &Huffman, data: &[u8], c: BitCursor) -> (r: Option<(u16, BitCursor)>)
    requires
        h.wf(),
        c.wf(data@.len()),
    ensures
        match r {
            Some((sym, c2)) => {
                &&& spec_decode_symbol(h.count@, h.symbol@, data@, c.index(), 1, 0, 0, 0) == Some(
                    (sym as int, c2.index()),
                )
                &&& c2.wf(data@.len())
                &&& c2.index() > c.index()
            },
            None => spec_decode_symbol(h.count@, h.symbol@, data@, c.index(), 1, 0, 0, 0) is None,
        },
{
    let mut len: usize = 1;
    let mut code: u32 = 0;
    let mut first: u32 = 0;
    let mut index: u32 = 0;
    let mut cur: BitCursor = c;
    proof {
        lemma_pow2_small(1);
    }
    while len <= 15
        invariant
            1 <= len <= 16,
            h.wf(),
            cur.wf(data@.len()),
            cur.index() == c.index() + len - 1,
            first <= code,
            code + 2 <= pow2(len as nat),
            index <= 65535 * (len - 1),
            spec_decode_symbol(h.count@, h.symbol@, data@, c.index(), 1, 0, 0, 0)
                == spec_decode_symbol(
                h.count@,
                h.symbol@,
                data@,
                cur.index(),
                len as int,
                code as int,
                first as int,
                index as int,
            ),
        decreases 16 - len,
    {
        proof {
            lemma_pow2_small(len as nat);
            lemma_pow2_small((len + 1) as nat);
            lemma_pow2_small(1);
            lemma_pow2_small(0);
        }
        match read_bits(data, cur, 1) {
            None => {
                return None;
            },
            Some((b, c2)) => {
                assert(b == spec_bit(data@, cur.index())) by {
                    assert(spec_bits(data@, cur.index() + 1, 0) == 0);
                }
                let cc: u32 = code + b;
                let n: u32 = h.count[len] as u32;
                if cc < first + n {
                    let i: u32 = index + (cc - first);
                    if (i as usize) < h.symbol.len() {
                        return Some((h.symbol[i as usize], c2));
                    } else {
                        return None;
                    }
                }
                index = index + n;
                first = (first + n) * 2;
                code = cc * 2;
                cur = c2;
                len += 1;
            },
        }
    }
    None
}

impl View for Huffman {
    type V = (Seq<u16>, Seq<u16>);

    open spec fn view(&self) -> (Seq<u16>, Seq<u16>) {
        (self.count@, self.symbol@)
    }
}

/// The shortest match length of each length symbol, from symbol 257 on.
pub const LENGTH_BASE: [u16; 29] = [
    3, 4, 5, 6, 7, 8, 9, 10, 11, 13, 15, 17, 19, 23, 27, 31, 35, 43, 51, 59, 67, 83, 99, 115, 131,
    163, 195, 227, 258,
];

/// The shortest distance of each distance symbol.
pub const DIST_BASE: [u16; 30] = [
    1, 2, 3, 4, 5, 7, 9, 13, 17, 25, 33, 49, 65, 97, 129, 193, 257, 385, 513, 769, 1025, 1537,
    2049, 3073, 4097, 6145, 8193, 12289, 16385, 24577,
];

/// The order in which the lengths of the code length code are stored.
pub const CODE_ORDER: [u8; 19] = [16, 17, 18, 0, 8, 7, 9, 6, 10, 5, 11, 4, 12, 3, 13, 2, 14, 1, 15];

/// How many extra bits follow length symbol 257 + `k`.
#[verifier::allow_in_spec]
pub fn length_extra(k: u8) -> u8
    returns
        (if k < 8 || k >= 28 {
            0u8
        } else {
            ((k - 4) / 4) as u8
        }),
{
    if k < 8 || k >= 28 {
        0
    } else {
        (k - 4) / 4
    }
}

/// How many extra bits follow distance symbol `k`.
#[verifier::allow_in_spec]
pub fn dist_extra(k: u8) -> u8
    returns
        (if k < 4 || k >= 30 {
            0u8
        } else {
            ((k - 2) / 2) as u8
        }),
{
    if k < 4 || k >= 30 {
        0
    } else {
        (k - 2) / 2
    }
}

/// `out` with `n` more bytes, each a copy of the byte `d` places before
/// the end at the time.
pub open spec fn spec_copy(out: Seq<u8>, d: int, n: nat) -> Seq<u8>
    decreases n,
{
    if n == 0 || d < 1 || d > out.len() {
        out
    } else {
        spec_copy(out.push(out[out.len() - d]), d, (n - 1) as nat)
    }
}

fn copy_back(out: &mut Vec<u8>, d: usize, n: usize)
    requires
        1 <= d <= old(out)@.len(),
    ensures
        final(out)@ == spec_copy(old(out)@, d as int, n as nat),
{
    let mut i: usize = 0;
    while i < n
        invariant
            i <= n,
            1 <= d <= out@.len(),
            spec_copy(old(out)@, d as int, n as nat) == spec_copy(out@, d as int, (n - i) as nat),
        decreases n - i,
    {
        let b: u8 = out[out.len() - d];
        out.push(b);
        i += 1;
    }
}

/// The output after the symbols of one block, read from bit `p` with the
/// codes `lit` and `dist` up to the end-of-block symbol, and the position
/// after that symbol.
pub open spec fn spec_inflate_codes(
    lit: (Seq<u16>, Seq<u16>),
    dist: (Seq<u16>, Seq<u16>),
    s: Seq<u8>,
    p: int,
    out: Seq<u8>,
) -> Option<(Seq<u8>, int)>
    decreases 8 * s.len() - p,
{
    match spec_decode_symbol(lit.0, lit.1, s, p, 1, 0, 0, 0) {
        None => None,
        Some((sym, n1)) => {
            if n1 <= p || n1 > 8 * s.len() {
                None
            } else if sym < 256 {
                spec_inflate_codes(lit, dist, s, n1, out.push(sym as u8))
            } else if sym == 256 {
                Some((out, n1))
            } else if sym > 285 {
                None
            } else {
                let k = sym - 257;
                let le = length_extra(k as u8) as nat;
                if n1 + le > 8 * s.len() {
                    None
                } else {
                    let n = LENGTH_BASE[k] + spec_bits(s, n1, le);
                    match spec_decode_symbol(dist.0, dist.1, s, n1 + le, 1, 0, 0, 0) {
                        None => None,
                        Some((dsym, n3)) => {
                            let de = dist_extra(dsym as u8) as nat;
                            if dsym > 29 || n3 <= p || n3 + de > 8 * s.len() {
                                None
                            } else {
                                let d = DIST_BASE[dsym] + spec_bits(s, n3, de);
                                if d < 1 || d > out.len() {
                                    None
                                } else {
                                    spec_inflate_codes(
                                        lit,
                                        dist,
                                        s,
                                        n3 + de,
                                        spec_copy(out, d, n as nat),
                                    )
                                }
                            }
                        },
                    }
                }
            }
        },
    }
}

fn inflate_codes(
    lit: &Huffman,
    dist: &Huffman,
    data: &[u8],
    c: BitCursor,
    out: &mut Vec<u8>,
) -> (r: Option<BitCursor>)
    requires
        lit.wf(),
        dist.wf(),
        c.wf(data@.len()),
    ensures
        match r {
            Some(c2) => {
                &&& spec_inflate_codes(lit@, dist@, data@, c.index(), old(out)@) == Some(
                    (final(out)@, c2.index()),
                )
                &&& c2.wf(data@.len())
                &&& c2.index() > c.index()
            },
            None => spec_inflate_codes(lit@, dist@, data@, c.index(), old(out)@) is None,
        },
{
    let mut cur: BitCursor = c;
    loop
        invariant
            lit.wf(),
            dist.wf(),
            cur.wf(data@.len()),
            cur.index() >= c.index(),
            spec_inflate_codes(lit@, dist@, data@, c.index(), old(out)@) == spec_inflate_codes(
                lit@,
                dist@,
                data@,
                cur.index(),
                out@,
            ),
        decreases 8 * data@.len() - cur.index(),
    {
        match decode_symbol(lit, data, cur) {
            None => {
                return None;
            },
            Some((sym, c1)) => {
                if sym < 256 {
                    out.push(sym as u8);
                    cur = c1;
                } else if sym == 256 {
                    return Some(c1);
                } else if sym > 285 {
                    return None;
                } else {
                    let k: usize = (sym - 257) as usize;
                    let le: u8 = length_extra(k as u8);
                    match read_bits(data, c1, le) {
                        None => {
                            return None;
                        },
                        Some((extra, c2)) => {
                            proof {
                                lemma_pow2_small(le as nat);
                            }
                            let n: usize = LENGTH_BASE[k] as usize + extra as usize;
                            match decode_symbol(dist, data, c2) {
                                None => {
                                    return None;
                                },
                                Some((dsym, c3)) => {
                                    if dsym > 29 {
                                        return None;
                                    }
                                    let de: u8 = dist_extra(dsym as u8);
                                    match read_bits(data, c3, de) {
                                        None => {
                                            return None;
                                        },
                                        Some((dextra, c4)) => {
                                            proof {
                                                lemma_pow2_small(de as nat);
                                            }
                                            let d: usize = DIST_BASE[dsym as usize] as usize
                                                + dextra as usize;
                                            if d < 1 || d > out.len() {
                                                return None;
                                            }
                                            copy_back(out, d, n);
                                            cur = c4;
                                        },
                                    }
                                },
                            }
                        },
                    }
                }
            },
        }
    }
}

/// The output after a stored block whose header bits end at bit `p`: the
/// length and its complement follow at the next byte boundary, then the
/// bytes themselves.
pub open spec fn spec_stored_block(s: Seq<u8>, p: int, out: Seq<u8>) -> Option<(Seq<u8>, int)> {
    let b = (p + 7) / 8;
    if b < 0 || b + 4 > s.len() {
        None
    } else {
        let n = s[b] + 256 * s[b + 1];
        let nn = s[b + 2] + 256 * s[b + 3];
        if n + nn != 65535 || b + 4 + n > s.len() {
            None
        } else {
            Some((out + s.subrange(b + 4, b + 4 + n), 8 * (b + 4 + n)))
        }
    }
}

fn stored_block(data: &[u8], c: BitCursor, out: &mut Vec<u8>) -> (r: Option<BitCursor>)
    requires
        c.wf(data@.len()),
    ensures
        match r {
            Some(c2) => {
                &&& spec_stored_block(data@, c.index(), old(out)@) == Some(
                    (final(out)@, c2.index()),
                )
                &&& c2.wf(data@.len())
                &&& c2.index() >= c.index()
            },
            None => spec_stored_block(data@, c.index(), old(out)@) is None,
        },
{
    let b: usize = if c.bit > 0 && c.byte < data.len() {
        c.byte + 1
    } else {
        c.byte
    };
    assert(b == (c.index() + 7) / 8);
    if data.len() - b < 4 {
        return None;
    }
    let n: usize = data[b] as usize + 256 * (data[b + 1] as usize);
    let nn: usize = data[b + 2] as usize + 256 * (data[b + 3] as usize);
    if n + nn != 65535 || data.len() - b - 4 < n {
        return None;
    }
    append_range(out, data, b + 4, b + 4 + n);
    Some(BitCursor { byte: b + 4 + n, bit: 0 })
}

/// The code lengths of the code length code: `ncode` of them are stored,
/// three bits each from bit `p` on, for the symbols in the order of
/// [`CODE_ORDER`].
pub open spec fn spec_code_length_lengths(s: Seq<u8>, p: int, ncode: int, i: int, acc: Seq<u8>) -> Seq<
    u8,
>
    decreases ncode - i,
{
    if i < 0 || i >= ncode || i >= 19 {
        acc
    } else {
        spec_code_length_lengths(
            s,
            p,
            ncode,
            i + 1,
            if CODE_ORDER[i] < acc.len() {
                acc.update(CODE_ORDER[i] as int, spec_bits(s, p + 3 * i, 3) as u8)
            } else {
                acc
            },
        )
    }
}

/// The code lengths of the two codes of a block, read with the code length
/// code from bit `p` until `total` lengths are there. Symbols below 16 are
/// lengths; 16 repeats the last length, 17 and 18 repeat zero.
pub open spec fn spec_read_lengths(
    code: (Seq<u16>, Seq<u16>),
    s: Seq<u8>,
    p: int,
    total: int,
    acc: Seq<u8>,
) -> Option<(Seq<u8>, int)>
    decreases total - acc.len(),
{
    if acc.len() >= total {
        Some((acc, p))
    } else {
        match spec_decode_symbol(code.0, code.1, s, p, 1, 0, 0, 0) {
            None => None,
            Some((sym, n1)) => {
                if n1 > 8 * s.len() {
                    None
                } else if sym < 16 {
                    spec_read_lengths(code, s, n1, total, acc.push(sym as u8))
                } else if sym == 16 {
                    if acc.len() == 0 || n1 + 2 > 8 * s.len() {
                        None
                    } else {
                        let rep = 3 + spec_bits(s, n1, 2);
                        let last = acc.last();
                        if acc.len() + rep > total {
                            None
                        } else {
                            spec_read_lengths(
                                code,
                                s,
                                n1 + 2,
                                total,
                                acc + Seq::new(rep as nat, |k: int| last),
                            )
                        }
                    }
                } else if sym == 17 {
                    if n1 + 3 > 8 * s.len() {
                        None
                    } else {
                        let rep = 3 + spec_bits(s, n1, 3);
                        if acc.len() + rep > total {
                            None
                        } else {
                            spec_read_lengths(
                                code,
                                s,
                                n1 + 3,
                                total,
                                acc + Seq::new(rep as nat, |k: int| 0u8),
                            )
                        }
                    }
                } else if sym == 18 {
                    if n1 + 7 > 8 * s.len() {
                        None
                    } else {
                        let rep = 11 + spec_bits(s, n1, 7);
                        if acc.len() + rep > total {
                            None
                        } else {
                            spec_read_lengths(
                                code,
                                s,
                                n1 + 7,
                                total,
                                acc + Seq::new(rep as nat, |k: int| 0u8),
                            )
                        }
                    }
                } else {
                    None
                }
            },
        }
    }
}

fn read_lengths(code: &Huffman, data: &[u8], c: BitCursor, total: usize) -> (r: Option<
    (Vec<u8>, BitCursor),
>)
    requires
        code.wf(),
        c.wf(data@.len()),
        total <= 320,
    ensures
        match r {
            Some((v, c2)) => {
                &&& spec_read_lengths(code@, data@, c.index(), total as int, Seq::empty()) == Some(
                    (v@, c2.index()),
                )
                &&& c2.wf(data@.len())
                &&& c2.index() >= c.index()
                &&& v@.len() == total
            },
            None => spec_read_lengths(code@, data@, c.index(), total as int, Seq::empty())
                is None,
        },
{
    let mut out: Vec<u8> = Vec::new();
    let mut cur: BitCursor = c;
    while out.len() < total
        invariant
            code.wf(),
            cur.wf(data@.len()),
            cur.index() >= c.index(),
            total <= 320,
            out@.len() <= total,
            spec_read_lengths(code@, data@, c.index(), total as int, Seq::empty())
                == spec_read_lengths(code@, data@, cur.index(), total as int, out@),
        decreases total - out.len(),
    {
        match decode_symbol(code, data, cur) {
            None => {
                return None;
            },
            Some((sym, c1)) => {
                if sym < 16 {
                    out.push(sym as u8);
                    cur = c1;
                } else if sym <= 18 {
                    let width: u8 = if sym == 16 {
                        2
                    } else if sym == 17 {
                        3
                    } else {
                        7
                    };
                    if sym == 16 && out.len() == 0 {
                        return None;
                    }
                    match read_bits(data, c1, width) {
                        None => {
                            return None;
                        },
                        Some((extra, c2)) => {
                            proof {
                                lemma_pow2_small(width as nat);
                            }
                            let rep: usize = extra as usize + if sym == 18 {
                                11
                            } else {
                                3
                            };
                            let value: u8 = if sym == 16 {
                                out[out.len() - 1]
                            } else {
                                0
                            };
                            if rep > total - out.len() {
                                return None;
                            }
                            append_repeat(&mut out, value, rep);
                            cur = c2;
                        },
                    }
                } else {
                    return None;
                }
            },
        }
    }
    Some((out, cur))
}

/// The two codes that the header of a dynamic block describes, and the
/// position after the header. The header starts at bit `p`.
pub open spec fn spec_dynamic_tables(s: Seq<u8>, p: int) -> Option<
    ((Seq<u16>, Seq<u16>), (Seq<u16>, Seq<u16>), int),
> {
    if p < 0 || p + 14 > 8 * s.len() {
        None
    } else {
        let nlen = spec_bits(s, p, 5) as int + 257;
        let ndist = spec_bits(s, p + 5, 5) as int + 1;
        let ncode = spec_bits(s, p + 10, 4) as int + 4;
        if nlen > 286 || ndist > 30 || p + 14 + 3 * ncode > 8 * s.len() {
            None
        } else {
            let cl = spec_code_length_lengths(s, p + 14, ncode, 0, Seq::new(19, |i: int| 0u8));
            match spec_huffman(cl) {
                None => None,
                Some(lc) => match spec_read_lengths(
                    lc,
                    s,
                    p + 14 + 3 * ncode,
                    nlen + ndist,
                    Seq::empty(),
                ) {
                    None => None,
                    Some((lens, n2)) => {
                        if lens.len() != nlen + ndist || lens[256] == 0 {
                            None
                        } else {
                            match (
                                spec_huffman(lens.subrange(0, nlen)),
                                spec_huffman(lens.subrange(nlen, nlen + ndist)),
                            ) {
                                (Some(lit), Some(dist)) => Some((lit, dist, n2)),
                                _ => None,
                            }
                        }
                    },
                },
            }
        }
    }
}

#[verifier::loop_isolation(false)]
fn dynamic_tables(data: &[u8], c: BitCursor) -> (r: Option<(Huffman, Huffman, BitCursor)>)
    requires
        c.wf(data@.len()),
    ensures
        match r {
            Some((lit, dist, c2)) => {
                &&& spec_dynamic_tables(data@, c.index()) == Some((lit@, dist@, c2.index()))
                &&& lit.wf()
                &&& dist.wf()
                &&& c2.wf(data@.len())
                &&& c2.index() >= c.index()
            },
            None => spec_dynamic_tables(data@, c.index()) is None,
        },
{
    proof {
        lemma_pow2_values();
    }
    let (a, c1) = match read_bits(data, c, 5) {
        None => {
            return None;
        },
        Some(x) => x,
    };
    let (b, c2) = match read_bits(data, c1, 5) {
        None => {
            return None;
        },
        Some(x) => x,
    };
    let (d, c3) = match read_bits(data, c2, 4) {
        None => {
            return None;
        },
        Some(x) => x,
    };
    let nlen: usize = a as usize + 257;
    let ndist: usize = b as usize + 1;
    let ncode: usize = d as usize + 4;
    if nlen > 286 || ndist > 30 {
        return None;
    }
    let mut cl: Vec<u8> = Vec::new();
    while cl.len() < 19
        invariant
            cl@.len() <= 19,
            forall|i: int| 0 <= i < cl@.len() ==> cl@[i] == 0,
        decreases 19 - cl.len(),
    {
        cl.push(0);
    }
    assert(cl@ =~= Seq::new(19, |i: int| 0u8));
    let mut i: usize = 0;
    let mut cur: BitCursor = c3;
    while i < ncode
        invariant
            i <= ncode <= 19,
            cl@.len() == 19,
            cur.wf(data@.len()),
            cur.index() == c3.index() + 3 * i,
            cur.index() <= 8 * data@.len(),
            spec_code_length_lengths(
                data@,
                c3.index(),
                ncode as int,
                0,
                Seq::new(19, |k: int| 0u8),
            ) == spec_code_length_lengths(data@, c3.index(), ncode as int, i as int, cl@),
        decreases ncode - i,
    {
        match read_bits(data, cur, 3) {
            None => {
                return None;
            },
            Some((v, cn)) => {
                let slot: usize = CODE_ORDER[i] as usize;
                if slot < 19 {
                    cl.set(slot, v as u8);
                }
                cur = cn;
                i += 1;
            },
        }
    }
    let lc = match build_huffman(cl.as_slice()) {
        None => {
            return None;
        },
        Some(h) => h,
    };
    let (lens, c4) = match read_lengths(&lc, data, cur, nlen + ndist) {
        None => {
            return None;
        },
        Some(x) => x,
    };
    if lens[256] == 0 {
        return None;
    }
    let lit = match build_huffman(slice_subrange(lens.as_slice(), 0, nlen)) {
        None => {
            return None;
        },
        Some(h) => h,
    };
    let dist = match build_huffman(slice_subrange(lens.as_slice(), nlen, nlen + ndist)) {
        None => {
            return None;
        },
        Some(h) => h,
    };
    Some((lit, dist, c4))
}

/// The code lengths of the literal and length code of a fixed block.
pub open spec fn spec_fixed_literal_lengths() -> Seq<u8> {
    Seq::new(
        288,
        |i: int|
            if i < 144 {
                8u8
            } else if i < 256 {
                9u8
            } else if i < 280 {
                7u8
            } else {
                8u8
            },
    )
}

/// The code lengths of the distance code of a fixed block.
pub open spec fn spec_fixed_distance_lengths() -> Seq<u8> {
    Seq::new(30, |i: int| 5u8)
}

fn fixed_lengths() -> (r: (Vec<u8>, Vec<u8>))
    ensures
        r.0@ == spec_fixed_literal_lengths(),
        r.1@ == spec_fixed_distance_lengths(),
{
    let mut lit: Vec<u8> = Vec::new();
    while lit.len() < 288
        invariant
            lit@.len() <= 288,
            forall|i: int| 0 <= i < lit@.len() ==> lit@[i] == spec_fixed_literal_lengths()[i],
        decreases 288 - lit.len(),
    {
        let i: usize = lit.len();
        lit.push(
            if i < 144 {
                8
            } else if i < 256 {
                9
            } else if i < 280 {
                7
            } else {
                8
            },
        );
    }
    let mut dist: Vec<u8> = Vec::new();
    while dist.len() < 30
        invariant
            dist@.len() <= 30,
            forall|i: int| 0 <= i < dist@.len() ==> dist@[i] == 5,
        decreases 30 - dist.len(),
    {
        dist.push(5);
    }
    assert(lit@ =~= spec_fixed_literal_lengths());
    assert(dist@ =~= spec_fixed_distance_lengths());
    (lit, dist)
}

/// The output after one block whose three header bits start at bit `p`,
/// given its type, and the position after the block.
pub open spec fn spec_inflate_block(s: Seq<u8>, p: int, kind: int, out: Seq<u8>) -> Option<
    (Seq<u8>, int),
> {
    if kind == 0 {
        spec_stored_block(s, p + 3, out)
    } else if kind == 1 {
        match (
            spec_huffman(spec_fixed_literal_lengths()),
            spec_huffman(spec_fixed_distance_lengths()),
        ) {
            (Some(lit), Some(dist)) => spec_inflate_codes(lit, dist, s, p + 3, out),
            _ => None,
        }
    } else if kind == 2 {
        match spec_dynamic_tables(s, p + 3) {
            Some((lit, dist, n2)) => spec_inflate_codes(lit, dist, s, n2, out),
            None => None,
        }
    } else {
        None
    }
}

/// The output of the blocks from bit `p` on, up to and including the block
/// marked as the last.
pub open spec fn spec_inflate_blocks(s: Seq<u8>, p: int, out: Seq<u8>) -> Option<Seq<u8>>
    decreases 8 * s.len() - p,
{
    if p < 0 || p + 3 > 8 * s.len() {
        None
    } else {
        match spec_inflate_block(s, p, spec_bits(s, p + 1, 2) as int, out) {
            None => None,
            Some((out2, n2)) => {
                if spec_bits(s, p, 1) == 1 {
                    Some(out2)
                } else if n2 <= p || n2 > 8 * s.len() {
                    None
                } else {
                    spec_inflate_blocks(s, n2, out2)
                }
            },
        }
    }
}

/// What the deflate data that starts at byte `start` expands to.
pub open spec fn spec_inflate(s: Seq<u8>, start: int) -> Option<Seq<u8>> {
    spec_inflate_blocks(s, 8 * start, Seq::empty())
}

/// Expands the deflate data that starts at byte `start`.
pub fn inflate(data: &[u8], start: usize) -> (r: Option<Vec<u8>>)
    ensures
        match r {
            Some(v) => spec_inflate(data@, start as int) == Some(v@),
            None => spec_inflate(data@, start as int) is None,
        },
{
    if start > data.len() {
        return None;
    }
    let mut out: Vec<u8> = Vec::new();
    let mut cur: BitCursor = BitCursor { byte: start, bit: 0 };
    loop
        invariant
            cur.wf(data@.len()),
            spec_inflate(data@, start as int) == spec_inflate_blocks(data@, cur.index(), out@),
        decreases 8 * data@.len() - cur.index(),
    {
        proof {
            lemma_pow2_small(1);
            lemma_pow2_small(2);
        }
        let (last, c1) = match read_bits(data, cur, 1) {
            None => {
                return None;
            },
            Some(x) => x,
        };
        let (kind, c2) = match read_bits(data, c1, 2) {
            None => {
                return None;
            },
            Some(x) => x,
        };
        let next: Option<BitCursor> = if kind == 0 {
            stored_block(data, c2, &mut out)
        } else if kind == 1 {
            let (ll, dl) = fixed_lengths();
            match build_huffman(ll.as_slice()) {
                None => None,
                Some(lit) => match build_huffman(dl.as_slice()) {
                    None => None,
                    Some(dist) => inflate_codes(&lit, &dist, data, c2, &mut out),
                },
            }
        } else if kind == 2 {
            match dynamic_tables(data, c2) {
                None => None,
                Some((lit, dist, c3)) => inflate_codes(&lit, &dist, data, c3, &mut out),
            }
        } else {
            None
        };
        match next {
            None => {
                return None;
            },
            Some(c4) => {
                if last == 1 {
                    return Some(out);
                }
                cur = c4;
            },
        }
    }
}

} // verus!
