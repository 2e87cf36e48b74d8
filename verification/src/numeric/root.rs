//! Integer square roots, rounded down and rounded up.
use vstd::prelude::*;

verus! {

/// Whether `r` is the square root of `n` rounded down.
pub open spec fn is_floor_sqrt(n: int, r: int) -> bool {
    0 <= r && r * r <= n && n < (r + 1) * (r + 1)
}

/// The square root of a non-negative `n`, rounded down.
pub open spec fn floor_sqrt(n: int) -> int {
    choose|r: int| is_floor_sqrt(n, r)
}

/// The square root of a non-negative `n`, rounded up.
pub open spec fn ceil_sqrt(n: int) -> int {
    let r = floor_sqrt(n);
    if r * r == n {
        r
    } else {
        r + 1
    }
}

/// Squaring keeps the order of non-negative numbers.
pub proof fn lemma_square_monotone(a: int, b: int)
    by (nonlinear_arith)
    requires
        0 <= a <= b,
    ensures
        a * a <= b * b,
{
}

/// Between non-negative numbers, a smaller square means a smaller number.
pub proof fn lemma_square_strict(a: int, b: int)
    by (nonlinear_arith)
    requires
        0 <= a,
        0 <= b,
        a * a < b * b,
    ensures
        a < b,
{
}

/// At most one number is the rounded-down square root of `n`.
pub proof fn lemma_floor_sqrt_unique(n: int, a: int, b: int)
    requires
        is_floor_sqrt(n, a),
        is_floor_sqrt(n, b),
    ensures
        a == b,
{
    if a < b {
        lemma_square_monotone(a + 1, b);
    } else if b < a {
        lemma_square_monotone(b + 1, a);
    }
}

/// A number that passes the test is the rounded-down square root.
pub proof fn lemma_floor_sqrt_is(n: int, r: int)
    requires
        is_floor_sqrt(n, r),
    ensures
        floor_sqrt(n) == r,
{
    lemma_floor_sqrt_unique(n, r, floor_sqrt(n));
}

/// Every non-negative number has a rounded-down square root.
pub proof fn lemma_floor_sqrt_exists(n: int)
    requires
        0 <= n,
    ensures
        is_floor_sqrt(n, floor_sqrt(n)),
    decreases n,
{
    if n == 0 {
        assert(is_floor_sqrt(0, 0));
    } else {
        lemma_floor_sqrt_exists(n - 1);
        let r = floor_sqrt(n - 1);
        if (r + 1) * (r + 1) <= n {
            assert((r + 2) * (r + 2) > n) by (nonlinear_arith)
                requires
                    r >= 0,
                    n - 1 < (r + 1) * (r + 1),
            ;
            assert(is_floor_sqrt(n, r + 1));
        } else {
            assert(is_floor_sqrt(n, r));
        }
    }
}

/// The rounded-up root `c` of `n` is the least non-negative number whose
/// square reaches `n`.
pub proof fn lemma_ceil_sqrt_bounds(n: int, r: int)
    requires
        is_floor_sqrt(n, r),
    ensures
        r <= ceil_sqrt(n) <= r + 1,
        ceil_sqrt(n) * ceil_sqrt(n) >= n,
        n > 0 ==> ceil_sqrt(n) >= 1,
        n > 0 ==> (ceil_sqrt(n) - 1) * (ceil_sqrt(n) - 1) < n,
{
    lemma_floor_sqrt_is(n, r);
    if r * r != n {
        assert((r + 1) * (r + 1) >= n);
        assert((r + 1 - 1) * (r + 1 - 1) == r * r);
    } else if n > 0 {
        assert(r >= 1) by (nonlinear_arith)
            requires
                r >= 0,
                r * r > 0,
        ;
        assert((r - 1) * (r - 1) < r * r) by (nonlinear_arith)
            requires
                r >= 1,
        ;
    }
}

/// The square root of `n`, rounded down.
pub fn isqrt(n: u128) -> (r: u128)
    ensures
        is_floor_sqrt(n as int, r as int),
        r == floor_sqrt(n as int),
        r < 0x1_0000_0000_0000_0000,
{
    let mut lo: u128 = 0;
    let mut hi: u128 = 0x1_0000_0000_0000_0000;
    assert(0x1_0000_0000_0000_0000int * 0x1_0000_0000_0000_0000int
        == 0x1_0000_0000_0000_0000_0000_0000_0000_0000int) by (nonlinear_arith);
    while hi - lo > 1
        invariant
            lo < hi <= 0x1_0000_0000_0000_0000,
            lo * lo <= n,
            n < hi * hi,
        decreases hi - lo,
    {
        let mid: u128 = lo + (hi - lo) / 2;
        assert(mid * mid <= 0xffff_ffff_ffff_ffff * 0xffff_ffff_ffff_ffff) by (nonlinear_arith)
            requires
                0 <= mid <= 0xffff_ffff_ffff_ffff,
        ;
        if mid * mid <= n {
            lo = mid;
        } else {
            hi = mid;
        }
    }
    proof {
        lemma_floor_sqrt_is(n as int, lo as int);
    }
    lo
}

/// The square root of `n`, rounded up.
pub fn isqrt_up(n: u128) -> (r: u128)
    ensures
        r == ceil_sqrt(n as int),
        r <= 0x1_0000_0000_0000_0000,
{
    let root: u128 = isqrt(n);
    assert(root * root <= n);
    if root * root == n {
        root
    } else {
        root + 1
    }
}

} // verus!
