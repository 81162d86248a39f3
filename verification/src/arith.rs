//! Integer helpers shared by the fixed-point geometry: division that rounds
//! towards zero and the integer square root.

use vstd::prelude::*;

verus! {

/// Magnitude of `x`.
pub open spec fn abs(x: int) -> int {
    if x < 0 {
        -x
    } else {
        x
    }
}

/// Quotient of `n` by a positive `d`, rounded towards zero.
pub open spec fn div_trunc(n: int, d: int) -> int {
    if n >= 0 {
        n / d
    } else {
        -((-n) / d)
    }
}

/// `r` is the integer square root of `n`: the largest `r >= 0` with `r * r <= n`.
pub open spec fn is_int_sqrt(n: int, r: int) -> bool {
    0 <= r && r * r <= n && n < (r + 1) * (r + 1)
}

/// The integer square root of `n` (meaningful for `n >= 0`).
pub open spec fn int_sqrt(n: int) -> int {
    choose|r: int| is_int_sqrt(n, r)
}

/// Squaring is strictly monotonic on the non-negative integers.
pub proof fn lemma_square_strictly_monotonic(a: int, b: int)
    by (nonlinear_arith)
    requires
        0 <= a < b,
    ensures
        (a + 1) * (a + 1) <= b * b,
        a * a < b * b,
{
}

/// A number has at most one integer square root.
pub proof fn lemma_int_sqrt_unique(n: int, r1: int, r2: int)
    requires
        is_int_sqrt(n, r1),
        is_int_sqrt(n, r2),
    ensures
        r1 == r2,
{
    if r1 < r2 {
        lemma_square_strictly_monotonic(r1, r2);
    } else if r2 < r1 {
        lemma_square_strictly_monotonic(r2, r1);
    }
}

/// Any witness of `is_int_sqrt` is the value of `int_sqrt`.
pub proof fn lemma_int_sqrt_is(n: int, r: int)
    requires
        is_int_sqrt(n, r),
    ensures
        int_sqrt(n) == r,
{
    lemma_int_sqrt_unique(n, r, int_sqrt(n));
}

/// What division that rounds towards zero leaves over is smaller in
/// magnitude than the divisor and has the sign of the dividend.
pub proof fn lemma_div_trunc_bounds(n: int, d: int)
    by (nonlinear_arith)
    requires
        d > 0,
    ensures
        -(d - 1) <= n - div_trunc(n, d) * d <= d - 1,
        n >= 0 ==> 0 <= n - div_trunc(n, d) * d,
        n <= 0 ==> n - div_trunc(n, d) * d <= 0,
{
}

/// The quotient rounded towards zero is no larger in magnitude than `n` and
/// has its sign.
pub proof fn lemma_div_trunc_magnitude(n: int, d: int)
    by (nonlinear_arith)
    requires
        d > 0,
    ensures
        n >= 0 ==> 0 <= div_trunc(n, d) <= n,
        n <= 0 ==> n <= div_trunc(n, d) <= 0,
{
}

/// Every non-negative integer has an integer square root.
pub proof fn lemma_int_sqrt_exists(n: int)
    requires
        n >= 0,
    ensures
        is_int_sqrt(n, int_sqrt(n)),
{
    let r = lemma_find_int_sqrt(n, 0);
    lemma_int_sqrt_is(n, r);
}

/// Searches upwards from `from` for the integer square root of `n`.
proof fn lemma_find_int_sqrt(n: int, from: int) -> (r: int)
    requires
        0 <= from,
        from * from <= n,
    ensures
        is_int_sqrt(n, r),
    decreases n - from,
{
    assert(from + 1 <= (from + 1) * (from + 1)) by (nonlinear_arith)
        requires
            0 <= from,
    ;
    if n < (from + 1) * (from + 1) {
        from
    } else {
        lemma_find_int_sqrt(n, from + 1)
    }
}

/// Divides `n` by `d`, rounding towards zero.
pub fn div_toward_zero(n: i128, d: i128) -> (q: i128)
    requires
        d > 0,
        n > i128::MIN,
    ensures
        q == div_trunc(n as int, d as int),
{
    if n >= 0 {
        n / d
    } else {
        let m: i128 = -n;
        let q: i128 = m / d;
        assert(0 <= q <= m) by (nonlinear_arith)
            requires
                q == (m as int) / (d as int),
                m >= 0,
                d > 0,
        ;
        -q
    }
}

/// Computes the integer square root of `n` by bisection.
pub fn isqrt(n: u128) -> (r: u128)
    ensures
        is_int_sqrt(n as int, r as int),
        r == int_sqrt(n as int),
        r <= u64::MAX,
{
    let mut lo: u128 = 0;
    let mut hi: u128 = 0x1_0000_0000_0000_0000;
    assert(hi * hi > n) by (nonlinear_arith)
        requires
            hi == 0x1_0000_0000_0000_0000,
            n <= u128::MAX,
    ;
    while hi - lo > 1
        invariant
            lo < hi <= 0x1_0000_0000_0000_0000,
            lo * lo <= n,
            n < hi * hi,
        decreases hi - lo,
    {
        let mid: u128 = lo + (hi - lo) / 2;
        assert(mid * mid <= u128::MAX) by (nonlinear_arith)
            requires
                0 <= mid < 0x1_0000_0000_0000_0000,
        ;
        if mid * mid <= n {
            lo = mid;
        } else {
            hi = mid;
        }
    }
    proof {
        lemma_int_sqrt_is(n as int, lo as int);
    }
    lo
}

} // verus!
