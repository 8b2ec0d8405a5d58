//! Integer helpers: saturation, division that rounds toward zero, and the
//! ceiling square root.
use vstd::prelude::*;

verus! {

/// Largest magnitude of a position coordinate.
pub const POS_LIMIT: i64 = 1099511627776;

/// Largest magnitude of a velocity component.
pub const VEL_LIMIT: i64 = 1099511627776;

/// Largest input accepted by `ceil_sqrt`.
pub const SQRT_INPUT_LIMIT: u128 = 1267650600228229401496703205376;

/// Largest result of `ceil_sqrt`.
pub const SQRT_RESULT_LIMIT: u128 = 1125899906842624;

/// `v` brought into `[-lim, lim]`.
pub open spec fn clamp(v: int, lim: int) -> int {
    if v > lim {
        lim
    } else if v < -lim {
        -lim
    } else {
        v
    }
}

pub open spec fn abs(v: int) -> int {
    if v < 0 {
        -v
    } else {
        v
    }
}

/// Quotient of `n` by a positive `d`, rounded toward zero.
pub open spec fn trunc_div(n: int, d: int) -> int {
    if n >= 0 {
        n / d
    } else {
        -((-n) / d)
    }
}

/// `r` is the least natural number whose square is at least `n`.
pub open spec fn is_ceil_sqrt(n: int, r: int) -> bool {
    &&& r >= 0
    &&& r * r >= n
    &&& (r == 0 || (r - 1) * (r - 1) < n)
}

/// The least natural number whose square is at least `n`.
pub open spec fn csqrt(n: int) -> int {
    choose|r: int| is_ceil_sqrt(n, r)
}

pub proof fn lemma_ceil_sqrt_unique(n: int, r1: int, r2: int)
    requires
        is_ceil_sqrt(n, r1),
        is_ceil_sqrt(n, r2),
    ensures
        r1 == r2,
{
    if r1 < r2 {
        assert((r2 - 1) * (r2 - 1) >= r1 * r1) by (nonlinear_arith)
            requires r1 <= r2 - 1, r1 >= 0;
    } else if r2 < r1 {
        assert((r1 - 1) * (r1 - 1) >= r2 * r2) by (nonlinear_arith)
            requires r2 <= r1 - 1, r2 >= 0;
    }
}

/// Any witness of `is_ceil_sqrt` is `csqrt`.
pub proof fn lemma_csqrt_is(n: int, r: int)
    requires
        is_ceil_sqrt(n, r),
    ensures
        csqrt(n) == r,
{
    lemma_ceil_sqrt_unique(n, csqrt(n), r);
}

proof fn csqrt_witness(n: int, k: int) -> (r: int)
    requires
        n >= 0,
        k >= 0,
        k == 0 || (k - 1) * (k - 1) < n,
    ensures
        is_ceil_sqrt(n, r),
    decreases n - k,
{
    if k * k >= n {
        k
    } else {
        if k >= 1 {
            assert(k <= k * k) by (nonlinear_arith)
                requires k >= 1;
        }
        csqrt_witness(n, k + 1)
    }
}

/// `csqrt` meets its defining property; it is positive on positive inputs.
pub proof fn lemma_csqrt_props(n: int)
    requires
        n >= 0,
    ensures
        is_ceil_sqrt(n, csqrt(n)),
        n > 0 ==> csqrt(n) >= 1,
{
    let r = csqrt_witness(n, 0);
    lemma_csqrt_is(n, r);
}

/// The ceiling square root of a square is its root.
pub proof fn lemma_csqrt_of_square(a: int)
    requires
        a >= 0,
    ensures
        csqrt(a * a) == a,
{
    if a > 0 {
        assert((a - 1) * (a - 1) < a * a) by (nonlinear_arith)
            requires a > 0;
    }
    lemma_csqrt_is(a * a, a);
}

/// Rounding toward zero keeps the sign and does not grow the magnitude.
pub proof fn lemma_trunc_div_bounds(n: int, d: int)
    requires
        d > 0,
    ensures
        abs(trunc_div(n, d)) <= abs(n),
        n >= 0 ==> trunc_div(n, d) >= 0,
        n <= 0 ==> trunc_div(n, d) <= 0,
        n == 0 ==> trunc_div(n, d) == 0,
        trunc_div(-n, d) == -trunc_div(n, d),
{
    if n >= 0 {
        assert(n / d <= n) by (nonlinear_arith)
            requires n >= 0, d > 0;
        assert(n / d >= 0) by (nonlinear_arith)
            requires n >= 0, d > 0;
    } else {
        assert((-n) / d <= -n) by (nonlinear_arith)
            requires -n >= 0, d > 0;
        assert((-n) / d >= 0) by (nonlinear_arith)
            requires -n >= 0, d > 0;
    }
    if n == 0 {
        assert(0int / d == 0);
    }
}

/// A square bounded by `d * d` has its root bounded by `d`.
pub proof fn lemma_sq_le(a: int, d: int)
    requires
        d >= 0,
        a * a <= d * d,
    ensures
        abs(a) <= d,
{
    if abs(a) > d {
        assert(abs(a) * abs(a) > d * d) by (nonlinear_arith)
            requires abs(a) > d, d >= 0;
        assert(abs(a) * abs(a) == a * a) by (nonlinear_arith);
    }
}

/// `v` saturated to `[-lim, lim]`.
pub fn saturate(v: i128, lim: i64) -> (r: i64)
    requires
        lim >= 0,
    ensures
        r == clamp(v as int, lim as int),
{
    if v > lim as i128 {
        lim
    } else if v < -(lim as i128) {
        -lim
    } else {
        v as i64
    }
}

/// `n / d` rounded toward zero, for a positive `d`.
pub fn div_toward_zero(n: i128, d: i128) -> (r: i128)
    requires
        d > 0,
        n > i128::MIN,
    ensures
        r == trunc_div(n as int, d as int),
{
    if n >= 0 {
        ((n as u128) / (d as u128)) as i128
    } else {
        let q = ((-n) as u128) / (d as u128);
        -(q as i128)
    }
}

/// The least natural number whose square is at least `n`.
pub fn ceil_sqrt(n: u128) -> (r: u128)
    requires
        n <= SQRT_INPUT_LIMIT,
    ensures
        is_ceil_sqrt(n as int, r as int),
        r as int == csqrt(n as int),
        r <= SQRT_RESULT_LIMIT,
{
    let mut lo: u128 = 0;
    let mut hi: u128 = SQRT_RESULT_LIMIT;
    assert(hi * hi == SQRT_INPUT_LIMIT) by (nonlinear_arith)
        requires hi == SQRT_RESULT_LIMIT;
    while lo < hi
        invariant
            lo <= hi <= SQRT_RESULT_LIMIT,
            hi * hi >= n,
            lo == 0 || (lo - 1) * (lo - 1) < n,
        decreases hi - lo,
    {
        let mid = lo + (hi - lo) / 2;
        assert(mid * mid <= SQRT_RESULT_LIMIT * SQRT_RESULT_LIMIT) by (nonlinear_arith)
            requires mid <= SQRT_RESULT_LIMIT;
        if mid * mid >= n {
            hi = mid;
        } else {
            lo = mid + 1;
        }
    }
    proof {
        lemma_csqrt_is(n as int, hi as int);
    }
    hi
}

} // verus!
