//! Fixed-point numbers and the matrices of the text and graphics state.
//!
//! A number is held in thousandths. Every result is cut to the range of
//! plus or minus [`FIXED_LIMIT`], so that no operation can overflow.

use vstd::prelude::*;

verus! {

/// The largest magnitude a fixed-point number takes, in thousandths.
pub const FIXED_LIMIT: i64 = 1_000_000_000_000_000;

/// `v` cut to the range of fixed-point numbers.
pub open spec fn spec_clamp(v: int) -> int {
    if v > FIXED_LIMIT {
        FIXED_LIMIT as int
    } else if v < -FIXED_LIMIT {
        -FIXED_LIMIT as int
    } else {
        v
    }
}

/// The magnitude of `v`.
pub open spec fn spec_abs(v: int) -> int {
    if v < 0 {
        -v
    } else {
        v
    }
}

/// The product of two fixed-point numbers, rounded toward zero.
pub open spec fn spec_fixed_mul(x: int, y: int) -> int {
    let q = spec_clamp(spec_abs(spec_clamp(x)) * spec_abs(spec_clamp(y)) / 1000);
    if (x < 0) != (y < 0) {
        -q
    } else {
        q
    }
}

/// The sum of two fixed-point numbers.
pub open spec fn spec_fixed_add(x: int, y: int) -> int {
    spec_clamp(x + y)
}

/// Cuts a number to the range of fixed-point numbers.
pub fn clamp(v: i128) -> (r: i64)
    ensures
        r == spec_clamp(v as int),
        -FIXED_LIMIT <= r <= FIXED_LIMIT,
{
    if v > FIXED_LIMIT as i128 {
        FIXED_LIMIT
    } else if v < -(FIXED_LIMIT as i128) {
        -FIXED_LIMIT
    } else {
        v as i64
    }
}

/// Multiplies two fixed-point numbers.
pub fn fixed_mul(x: i64, y: i64) -> (r: i64)
    ensures
        r == spec_fixed_mul(x as int, y as int),
        -FIXED_LIMIT <= r <= FIXED_LIMIT,
{
    let cx: i64 = clamp(x as i128);
    let cy: i64 = clamp(y as i128);
    let ax: i128 = if cx < 0 {
        -(cx as i128)
    } else {
        cx as i128
    };
    let ay: i128 = if cy < 0 {
        -(cy as i128)
    } else {
        cy as i128
    };
    assert(0 <= ax * ay <= 1_000_000_000_000_000 * 1_000_000_000_000_000) by (nonlinear_arith)
        requires
            0 <= ax <= 1_000_000_000_000_000,
            0 <= ay <= 1_000_000_000_000_000,
    ;
    let q: i64 = clamp(ax * ay / 1000);
    if (x < 0) != (y < 0) {
        -q
    } else {
        q
    }
}

/// Adds two fixed-point numbers.
pub fn fixed_add(x: i64, y: i64) -> (r: i64)
    ensures
        r == spec_fixed_add(x as int, y as int),
        -FIXED_LIMIT <= r <= FIXED_LIMIT,
{
    clamp(x as i128 + y as i128)
}

/// An affine map of the plane, as the six numbers that the format writes,
/// in thousandths.
#[derive(Clone, Copy, Debug, PartialEq, Eq, Structural)]
pub struct Matrix {
    pub a: i64,
    pub b: i64,
    pub c: i64,
    pub d: i64,
    pub e: i64,
    pub f: i64,
}

/// The map that changes nothing.
pub open spec fn spec_identity() -> Matrix {
    Matrix { a: 1000, b: 0, c: 0, d: 1000, e: 0, f: 0 }
}

/// The map that changes nothing.
pub fn identity() -> (r: Matrix)
    ensures
        r == spec_identity(),
{
    Matrix { a: 1000, b: 0, c: 0, d: 1000, e: 0, f: 0 }
}

/// Entry `x * p + y * q`, with an optional third term `t`.
pub open spec fn spec_dot(x: i64, p: i64, y: i64, q: i64, t: i64) -> i64 {
    spec_fixed_add(
        spec_fixed_add(spec_fixed_mul(x as int, p as int), spec_fixed_mul(y as int, q as int)),
        t as int,
    ) as i64
}

fn dot(x: i64, p: i64, y: i64, q: i64, t: i64) -> (r: i64)
    ensures
        r == spec_dot(x, p, y, q, t),
{
    fixed_add(fixed_add(fixed_mul(x, p), fixed_mul(y, q)), t)
}

/// The map that applies `m` first and `n` after it.
pub open spec fn spec_compose(m: Matrix, n: Matrix) -> Matrix {
    Matrix {
        a: spec_dot(m.a, n.a, m.b, n.c, 0),
        b: spec_dot(m.a, n.b, m.b, n.d, 0),
        c: spec_dot(m.c, n.a, m.d, n.c, 0),
        d: spec_dot(m.c, n.b, m.d, n.d, 0),
        e: spec_dot(m.e, n.a, m.f, n.c, n.e),
        f: spec_dot(m.e, n.b, m.f, n.d, n.f),
    }
}

/// Composes two maps: `m` first, `n` after it.
pub fn compose(m: Matrix, n: Matrix) -> (r: Matrix)
    ensures
        r == spec_compose(m, n),
{
    Matrix {
        a: dot(m.a, n.a, m.b, n.c, 0),
        b: dot(m.a, n.b, m.b, n.d, 0),
        c: dot(m.c, n.a, m.d, n.c, 0),
        d: dot(m.c, n.b, m.d, n.d, 0),
        e: dot(m.e, n.a, m.f, n.c, n.e),
        f: dot(m.e, n.b, m.f, n.d, n.f),
    }
}

/// The map that moves by `tx` and `ty`.
pub open spec fn spec_translation(tx: i64, ty: i64) -> Matrix {
    Matrix { a: 1000, b: 0, c: 0, d: 1000, e: tx, f: ty }
}

/// The map that moves by `tx` and `ty`.
pub fn translation(tx: i64, ty: i64) -> (r: Matrix)
    ensures
        r == spec_translation(tx, ty),
{
    Matrix { a: 1000, b: 0, c: 0, d: 1000, e: tx, f: ty }
}

} // verus!
