//! Fixed-point arithmetic helpers.
//!
//! World-pixel coordinates are represented as milli-pixels (`i64`, one
//! thousandth of a pixel) and the calibration constants of the isometric
//! transform as micro-scaled integers (millionths). The helpers here give
//! the integer divisions those computations need, with floor semantics
//! that match the mathematical `/` on `int`.

use vstd::prelude::*;

verus! {

use vstd::arithmetic::div_mod::lemma_fundamental_div_mod;
use vstd::arithmetic::div_mod::lemma_fundamental_div_mod_converse;
use vstd::arithmetic::div_mod::lemma_mod_bound;

/// Division by a positive divisor, rounding toward negative infinity,
/// so that the result equals the mathematical `a / b` on `int`.
pub(crate) fn floor_div(a: i64, b: i64) -> (r: i64)
    requires
        0 < b <= 4_000_000,
        -2_000_000_000_000_000_000 <= a <= 2_000_000_000_000_000_000,
    ensures
        r == a as int / b as int,
        b * r <= a < b * r + b,
{
    let r = if a >= 0 {
        a / b
    } else {
        let m = -a;
        let q = (m + b - 1) / b;
        proof {
            let mi = m as int;
            let bi = b as int;
            let qi = q as int;
            lemma_fundamental_div_mod(mi + bi - 1, bi);
            let r2 = bi * qi - mi;
            assert(0 <= r2 < bi);
            assert(-mi == (-qi) * bi + r2) by (nonlinear_arith)
                requires
                    r2 == bi * qi - mi,
            ;
            lemma_fundamental_div_mod_converse(-mi, bi, -qi, r2);
        }
        -q
    };
    proof {
        lemma_fundamental_div_mod(a as int, b as int);
        lemma_mod_bound(a as int, b as int);
    }
    r
}

/// Sum of squares of two bounded differences: the squared Euclidean
/// distance used by the nearest-cell searches and the arrival check.
pub(crate) fn dist2_i128(ax: i128, ay: i128) -> (r: i128)
    requires
        -10_000_000_000_000 <= ax <= 10_000_000_000_000,
        -10_000_000_000_000 <= ay <= 10_000_000_000_000,
    ensures
        r == ax * ax + ay * ay,
        0 <= r <= 200_000_000_000_000_000_000_000_000,
{
    proof {
        assert(0 <= ax * ax <= 100_000_000_000_000_000_000_000_000 && 0 <= ay * ay
            <= 100_000_000_000_000_000_000_000_000) by (nonlinear_arith)
            requires
                -10_000_000_000_000 <= ax <= 10_000_000_000_000,
                -10_000_000_000_000 <= ay <= 10_000_000_000_000,
        ;
    }
    ax * ax + ay * ay
}


/// Smallest integer whose square is at least `n` (for the bounded
/// magnitudes the movement integration produces).
pub(crate) fn sqrt_ceil_u128(n: u128) -> (r: u128)
    requires
        n <= 100_000_000_000_000_000_000_000_000,
    ensures
        r * r >= n,
        r >= 1 ==> (r - 1) * (r - 1) < n,
        r <= 20_000_000_000_000,
        n >= 1 ==> r >= 1,
{
    let mut lo: u128 = 0;
    let mut hi: u128 = 20_000_000_000_000;
    while lo < hi
        invariant
            lo <= hi <= 20_000_000_000_000,
            hi * hi >= n,
            lo >= 1 ==> (lo - 1) * (lo - 1) < n,
        decreases hi - lo,
    {
        let mid = lo + (hi - lo) / 2;
        proof {
            assert(mid * mid <= 400_000_000_000_000_000_000_000_000) by (nonlinear_arith)
                requires
                    0 <= mid <= 20_000_000_000_000,
            ;
        }
        if mid * mid >= n {
            hi = mid;
        } else {
            lo = mid + 1;
        }
    }
    proof {
        if lo == 0 {
            assert(lo * lo == 0) by (nonlinear_arith)
                requires
                    lo == 0u128,
            ;
        }
    }
    lo
}

/// Scaling the two legs of a right triangle by `1000 / len`, where
/// `len` bounds the hypotenuse from above, yields a vector of norm at
/// most 1000.
pub(crate) proof fn lemma_quantized_unit(adx: int, ady: int, len: int, qx: int, qy: int)
    requires
        adx >= 0,
        ady >= 0,
        len >= 1,
        adx * adx + ady * ady <= len * len,
        qx == (adx * 1000) / len,
        qy == (ady * 1000) / len,
    ensures
        0 <= qx <= 1000,
        0 <= qy <= 1000,
        qx * qx + qy * qy <= 1_000_000,
{
    lemma_fundamental_div_mod(adx * 1000, len);
    lemma_mod_bound(adx * 1000, len);
    lemma_fundamental_div_mod(ady * 1000, len);
    lemma_mod_bound(ady * 1000, len);
    assert(qx >= 0 && qy >= 0) by (nonlinear_arith)
        requires
            len >= 1,
            len * qx <= adx * 1000 < len * qx + len,
            len * qy <= ady * 1000 < len * qy + len,
            adx >= 0,
            ady >= 0,
    ;
    assert(qx * qx + qy * qy <= 1_000_000 && qx <= 1000 && qy <= 1000) by (nonlinear_arith)
        requires
            len >= 1,
            qx >= 0,
            qy >= 0,
            len * qx <= adx * 1000,
            len * qy <= ady * 1000,
            adx * adx + ady * ady <= len * len,
    ;
}

/// A movement step scaled back down from a norm-1000 direction vector
/// covers at most `k` thousandths of a unit: the integrated step stays
/// within one tick's worth of speed.
pub(crate) proof fn lemma_step_bound(qx: int, qy: int, k: int, sx: int, sy: int)
    requires
        qx >= 0,
        qy >= 0,
        qx * qx + qy * qy <= 1_000_000,
        k >= 0,
        sx == (qx * k) / 1_000_000,
        sy == (qy * k) / 1_000_000,
    ensures
        0 <= sx,
        0 <= sy,
        1_000_000 * (sx * sx + sy * sy) <= k * k,
{
    lemma_fundamental_div_mod(qx * k, 1_000_000);
    lemma_mod_bound(qx * k, 1_000_000);
    lemma_fundamental_div_mod(qy * k, 1_000_000);
    lemma_mod_bound(qy * k, 1_000_000);
    assert(sx >= 0 && sy >= 0) by (nonlinear_arith)
        requires
            qx >= 0,
            qy >= 0,
            k >= 0,
            1_000_000 * sx <= qx * k < 1_000_000 * sx + 1_000_000,
            1_000_000 * sy <= qy * k < 1_000_000 * sy + 1_000_000,
    ;
    assert(1_000_000 * (sx * sx + sy * sy) <= k * k) by (nonlinear_arith)
        requires
            qx >= 0,
            qy >= 0,
            k >= 0,
            sx >= 0,
            sy >= 0,
            qx * qx + qy * qy <= 1_000_000,
            1_000_000 * sx <= qx * k,
            1_000_000 * sy <= qy * k,
    ;
}


/// `r` is the least nonnegative integer whose square reaches `n`.
pub open spec fn is_sqrt_ceil(n: int, r: int) -> bool {
    &&& r >= 0
    &&& r * r >= n
    &&& (r == 0 || (r - 1) * (r - 1) < n)
}

/// The least nonnegative integer whose square reaches `n`; the rounded-up
/// length the movement integration divides by.
pub open spec fn sqrt_ceil(n: int) -> int {
    choose|r: int| is_sqrt_ceil(n, r)
}

/// The least-square characterization has at most one solution.
pub proof fn lemma_sqrt_ceil_unique(n: int, r1: int, r2: int)
    requires
        is_sqrt_ceil(n, r1),
        is_sqrt_ceil(n, r2),
    ensures
        r1 == r2,
{
    if r1 < r2 {
        assert(r1 * r1 <= (r2 - 1) * (r2 - 1)) by (nonlinear_arith)
            requires
                0 <= r1 <= r2 - 1,
        ;
        assert(false);
    }
    if r2 < r1 {
        assert(r2 * r2 <= (r1 - 1) * (r1 - 1)) by (nonlinear_arith)
            requires
                0 <= r2 <= r1 - 1,
        ;
        assert(false);
    }
}

/// Any witness of the characterization is the value of `sqrt_ceil`.
pub proof fn lemma_sqrt_ceil_is(n: int, r: int)
    requires
        is_sqrt_ceil(n, r),
    ensures
        sqrt_ceil(n) == r,
{
    assert(is_sqrt_ceil(n, sqrt_ceil(n))) by {
        assert(exists|x: int| is_sqrt_ceil(n, x)) by {
            assert(is_sqrt_ceil(n, r));
        }
    }
    lemma_sqrt_ceil_unique(n, r, sqrt_ceil(n));
}

} // verus!
