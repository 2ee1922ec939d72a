//! Reversal of the row predictors that a compression filter may be paired
//! with.

use vstd::prelude::*;
use crate::bytes::append_bytes;
use crate::error::ExtractError;

verus! {

/// The parameters of a predictor.
#[derive(Clone, Copy, Debug, PartialEq, Eq, Structural)]
pub struct Predictor {
    /// One for none, two for the TIFF predictor, ten and above for the PNG
    /// ones.
    pub kind: i64,
    pub colors: i64,
    pub bits: i64,
    pub columns: i64,
}

impl Predictor {
    /// The parameters are within what a row can be computed for.
    pub open spec fn in_range(self) -> bool {
        &&& 1 <= self.colors <= 256
        &&& (self.bits == 1 || self.bits == 2 || self.bits == 4 || self.bits == 8 || self.bits
            == 16)
        &&& 1 <= self.columns <= 0x1_0000_0000
    }

    /// How many bytes one row of samples takes.
    pub open spec fn row_bytes(self) -> int {
        (self.colors * self.bits * self.columns + 7) / 8
    }

    /// How many bytes one pixel takes, at least one.
    pub open spec fn pixel_bytes(self) -> int {
        if self.colors * self.bits < 8 {
            1
        } else {
            self.colors * self.bits / 8
        }
    }
}

/// The Paeth predictor: whichever of left, above and upper left is closest
/// to left plus above less upper left.
pub open spec fn spec_paeth(a: int, b: int, c: int) -> int {
    let p = a + b - c;
    let pa = if p >= a {
        p - a
    } else {
        a - p
    };
    let pb = if p >= b {
        p - b
    } else {
        b - p
    };
    let pc = if p >= c {
        p - c
    } else {
        c - p
    };
    if pa <= pb && pa <= pc {
        a
    } else if pb <= pc {
        b
    } else {
        c
    }
}

/// What row filter `ft` predicts for a byte with the neighbours left,
/// above and upper left.
pub open spec fn spec_predict(ft: u8, a: int, b: int, c: int) -> int {
    if ft == 1 {
        a
    } else if ft == 2 {
        b
    } else if ft == 3 {
        (a + b) / 2
    } else if ft == 4 {
        spec_paeth(a, b, c)
    } else {
        0
    }
}

/// The bytes of one row: `raw` are the filtered bytes, `prev` the row
/// above, `cur` the bytes of this row that are done, `i` their number.
pub open spec fn spec_unfilter_row(
    ft: u8,
    raw: Seq<u8>,
    prev: Seq<u8>,
    bpp: int,
    i: int,
    cur: Seq<u8>,
) -> Seq<u8>
    decreases raw.len() - i,
{
    if i < 0 || i >= raw.len() || i >= prev.len() || cur.len() != i || bpp < 1 {
        cur
    } else {
        let a: int = if i >= bpp {
            cur[i - bpp] as int
        } else {
            0
        };
        let b: int = prev[i] as int;
        let c: int = if i >= bpp {
            prev[i - bpp] as int
        } else {
            0
        };
        spec_unfilter_row(
            ft,
            raw,
            prev,
            bpp,
            i + 1,
            cur.push(((raw[i] + spec_predict(ft, a, b, c)) % 256) as u8),
        )
    }
}

/// The rows from offset `p` on, each one filter byte and `row` filtered
/// bytes. A last row that is not whole is dropped; a filter byte above 4
/// is an error.
pub open spec fn spec_png_rows(
    s: Seq<u8>,
    p: int,
    row: int,
    bpp: int,
    prev: Seq<u8>,
    acc: Seq<u8>,
) -> Result<Seq<u8>, ExtractError>
    decreases s.len() - p,
{
    if p < 0 || row < 0 || p + 1 + row > s.len() {
        Ok(acc)
    } else if s[p] > 4 {
        Err(ExtractError::DecodeError)
    } else {
        let line = spec_unfilter_row(
            s[p],
            s.subrange(p + 1, p + 1 + row),
            prev,
            bpp,
            0,
            Seq::empty(),
        );
        spec_png_rows(s, p + 1 + row, row, bpp, line, acc + line)
    }
}

/// What the predictor `pr` makes of decompressed data. A predictor number
/// of one or less leaves the data alone, numbers from ten on are the PNG
/// predictors, and the TIFF predictor is not implemented.
pub open spec fn spec_unpredict(pr: Predictor, s: Seq<u8>) -> Result<Seq<u8>, ExtractError> {
    if pr.kind <= 1 {
        Ok(s)
    } else if pr.kind < 10 {
        Err(ExtractError::UnsupportedFilter)
    } else if !pr.in_range() || pr.row_bytes() > usize::MAX - 1 {
        Err(ExtractError::DecodeError)
    } else {
        spec_png_rows(
            s,
            0,
            pr.row_bytes(),
            pr.pixel_bytes(),
            Seq::new(pr.row_bytes() as nat, |i: int| 0u8),
            Seq::empty(),
        )
    }
}

fn paeth(a: u8, b: u8, c: u8) -> (r: u8)
    ensures
        r == spec_paeth(a as int, b as int, c as int),
{
    let p: i32 = a as i32 + b as i32 - c as i32;
    let pa: i32 = if p >= a as i32 {
        p - a as i32
    } else {
        a as i32 - p
    };
    let pb: i32 = if p >= b as i32 {
        p - b as i32
    } else {
        b as i32 - p
    };
    let pc: i32 = if p >= c as i32 {
        p - c as i32
    } else {
        c as i32 - p
    };
    if pa <= pb && pa <= pc {
        a
    } else if pb <= pc {
        b
    } else {
        c
    }
}

fn predict(ft: u8, a: u8, b: u8, c: u8) -> (r: u8)
    ensures
        r == spec_predict(ft, a as int, b as int, c as int),
{
    if ft == 1 {
        a
    } else if ft == 2 {
        b
    } else if ft == 3 {
        ((a as u16 + b as u16) / 2) as u8
    } else if ft == 4 {
        paeth(a, b, c)
    } else {
        0
    }
}

fn unfilter_row(ft: u8, data: &[u8], start: usize, row: usize, prev: &Vec<u8>, bpp: usize) -> (r:
    Vec<u8>)
    requires
        start + row <= data.len(),
        prev@.len() == row,
        bpp >= 1,
    ensures
        r@ == spec_unfilter_row(
            ft,
            data@.subrange(start as int, start + row),
            prev@,
            bpp as int,
            0,
            Seq::empty(),
        ),
        r@.len() == row,
{
    let ghost raw = data@.subrange(start as int, start + row);
    let mut cur: Vec<u8> = Vec::new();
    let mut i: usize = 0;
    while i < row
        invariant
            start + row <= data.len(),
            prev@.len() == row,
            bpp >= 1,
            i <= row,
            cur@.len() == i,
            raw == data@.subrange(start as int, start + row),
            spec_unfilter_row(ft, raw, prev@, bpp as int, 0, Seq::empty()) == spec_unfilter_row(
                ft,
                raw,
                prev@,
                bpp as int,
                i as int,
                cur@,
            ),
        decreases row - i,
    {
        let a: u8 = if i >= bpp {
            cur[i - bpp]
        } else {
            0
        };
        let b: u8 = prev[i];
        let c: u8 = if i >= bpp {
            prev[i - bpp]
        } else {
            0
        };
        let v: u16 = (data[start + i] as u16 + predict(ft, a, b, c) as u16) % 256;
        cur.push(v as u8);
        i += 1;
    }
    cur
}

fn zero_row(n: usize) -> (r: Vec<u8>)
    ensures
        r@ == Seq::new(n as nat, |i: int| 0u8),
{
    let mut v: Vec<u8> = Vec::new();
    while v.len() < n
        invariant
            v.len() <= n,
            forall|i: int| 0 <= i < v.len() ==> v@[i] == 0,
        decreases n - v.len(),
    {
        v.push(0);
    }
    assert(v@ =~= Seq::new(n as nat, |i: int| 0u8));
    v
}

/// Reverses the predictor `pr` on decompressed data.
#[verifier::loop_isolation(false)]
pub fn unpredict(pr: Predictor, data: Vec<u8>) -> (r: Result<Vec<u8>, ExtractError>)
    ensures
        r matches Err(e) ==> e.is_read_failure(),
        match r {
            Ok(v) => spec_unpredict(pr, data@) == Ok::<_, ExtractError>(v@),
            Err(e) => spec_unpredict(pr, data@) == Err::<Seq<u8>, _>(e),
        },
{
    if pr.kind <= 1 {
        return Ok(data);
    }
    if pr.kind < 10 {
        return Err(ExtractError::UnsupportedFilter);
    }
    let bits_ok: bool = pr.bits == 1 || pr.bits == 2 || pr.bits == 4 || pr.bits == 8 || pr.bits
        == 16;
    if pr.colors < 1 || pr.colors > 256 || !bits_ok || pr.columns < 1 || pr.columns
        > 0x1_0000_0000 {
        return Err(ExtractError::DecodeError);
    }
    let sample_bits: i64 = pr.colors * pr.bits;
    assert(pr.colors * pr.bits * pr.columns <= 4096 * 0x1_0000_0000) by (nonlinear_arith)
        requires
            1 <= pr.colors <= 256,
            1 <= pr.bits <= 16,
            1 <= pr.columns <= 0x1_0000_0000,
    ;
    assert(0 <= pr.colors * pr.bits <= 4096) by (nonlinear_arith)
        requires
            1 <= pr.colors <= 256,
            1 <= pr.bits <= 16,
    ;
    let wide: i64 = (sample_bits * pr.columns + 7) / 8;
    if wide as u64 > (usize::MAX - 1) as u64 {
        return Err(ExtractError::DecodeError);
    }
    let row: usize = wide as usize;
    let bpp: usize = if sample_bits < 8 {
        1
    } else {
        (sample_bits / 8) as usize
    };
    let n: usize = data.len();
    let mut prev: Vec<u8> = zero_row(row);
    let mut out: Vec<u8> = Vec::new();
    let mut p: usize = 0;
    while n - p > row
        invariant
            n == data.len(),
            p <= n,
            row == pr.row_bytes(),
            row <= usize::MAX - 1,
            bpp == pr.pixel_bytes(),
            bpp >= 1,
            prev@.len() == row,
            spec_png_rows(
                data@,
                0,
                row as int,
                bpp as int,
                Seq::new(row as nat, |i: int| 0u8),
                Seq::empty(),
            ) == spec_png_rows(data@, p as int, row as int, bpp as int, prev@, out@),
        decreases n - p,
    {
        let ft: u8 = data[p];
        if ft > 4 {
            return Err(ExtractError::DecodeError);
        }
        let line = unfilter_row(ft, data.as_slice(), p + 1, row, &prev, bpp);
        append_bytes(&mut out, line.as_slice());
        prev = line;
        p = p + 1 + row;
    }
    Ok(out)
}

} // verus!
