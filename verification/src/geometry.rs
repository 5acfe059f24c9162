//! Exact integer geometry over landmark points.
//!
//! A landmark point is a pair of pixel coordinates as produced by the
//! external predictor. Degeneracy of a set of control points (coincident or
//! collinear points, for which no unique transform exists) is decided exactly
//! over the integers, with no rounding.

use vstd::prelude::*;

verus! {

/// Cross product of the vectors `b - a` and `c - a`.
///
/// It is zero exactly when `a`, `b` and `c` lie on one line (coincident
/// points are a special case).
pub open spec fn cross(a: (i64, i64), b: (i64, i64), c: (i64, i64)) -> int {
    (b.0 - a.0) * (c.1 - a.1) - (b.1 - a.1) * (c.0 - a.0)
}

/// Three points are collinear when the cross product of the two difference
/// vectors vanishes; this includes every case where two of them coincide.
pub open spec fn collinear(a: (i64, i64), b: (i64, i64), c: (i64, i64)) -> bool {
    cross(a, b, c) == 0
}

/// Magnitude of an integer, as a mathematical integer.
pub open spec fn abs_int(x: int) -> int {
    if x < 0 {
        -x
    } else {
        x
    }
}

proof fn lemma_mul_sign_abs(x: int, y: int)
    ensures
        x * y == if (x < 0) == (y < 0) {
            abs_int(x) * abs_int(y)
        } else {
            -(abs_int(x) * abs_int(y))
        },
{
    if x < 0 && y < 0 {
        assert((-x) * (-y) == x * y) by (nonlinear_arith);
    } else if x < 0 {
        assert((-x) * y == -(x * y)) by (nonlinear_arith);
    } else if y < 0 {
        assert(x * (-y) == -(x * y)) by (nonlinear_arith);
    }
}

proof fn lemma_mul_zero(x: int, y: int)
    ensures
        (x * y == 0) <==> (x == 0 || y == 0),
{
    assert((x * y == 0) <==> (x == 0 || y == 0)) by (nonlinear_arith);
}

/// Magnitude of the difference of two pixel coordinates; it always fits in
/// an unsigned machine word.
fn diff_abs(p: i64, q: i64) -> (r: u64)
    ensures
        r == abs_int(p - q),
{
    let wide: i128 = p as i128 - q as i128;
    if wide < 0 {
        (-wide) as u64
    } else {
        wide as u64
    }
}

/// Whether `p - q` is negative.
fn diff_neg(p: i64, q: i64) -> (r: bool)
    ensures
        r == (p - q < 0),
{
    p < q
}

/// Decides `collinear(a, b, c)` exactly.
///
/// The two products of coordinate differences are compared through their
/// magnitudes and signs, so that no intermediate value can overflow.
pub fn is_collinear(a: (i64, i64), b: (i64, i64), c: (i64, i64)) -> (r: bool)
    ensures
        r == collinear(a, b, c),
{
    let d1x: u64 = diff_abs(b.0, a.0);
    let d1y: u64 = diff_abs(b.1, a.1);
    let d2x: u64 = diff_abs(c.0, a.0);
    let d2y: u64 = diff_abs(c.1, a.1);
    let n1x: bool = diff_neg(b.0, a.0);
    let n1y: bool = diff_neg(b.1, a.1);
    let n2x: bool = diff_neg(c.0, a.0);
    let n2y: bool = diff_neg(c.1, a.1);
    proof {
        assert(d1x as int * d2y as int <= 0xffff_ffff_ffff_ffff * 0xffff_ffff_ffff_ffff)
            by (nonlinear_arith)
            requires
                d1x <= 0xffff_ffff_ffff_ffffu64,
                d2y <= 0xffff_ffff_ffff_ffffu64,
        ;
        assert(d1y as int * d2x as int <= 0xffff_ffff_ffff_ffff * 0xffff_ffff_ffff_ffff)
            by (nonlinear_arith)
            requires
                d1y <= 0xffff_ffff_ffff_ffffu64,
                d2x <= 0xffff_ffff_ffff_ffffu64,
        ;
        lemma_mul_sign_abs(b.0 - a.0, c.1 - a.1);
        lemma_mul_sign_abs(b.1 - a.1, c.0 - a.0);
        lemma_mul_zero(b.0 - a.0, c.1 - a.1);
        lemma_mul_zero(b.1 - a.1, c.0 - a.0);
    }
    let m1: u128 = d1x as u128 * d2y as u128;
    let m2: u128 = d1y as u128 * d2x as u128;
    if m1 == 0 && m2 == 0 {
        true
    } else {
        m1 == m2 && ((n1x == n2y) == (n1y == n2x))
    }
}

} // verus!
