//! Integer square roots.
//!
//! The haversine formula takes the square root of the haversine sum and of
//! its complement before feeding both into the two-argument arctangent. In
//! fixed point those are square roots of 64-bit integers, computed here by
//! bisection and specified through [`sqrt_floor`].

use vstd::prelude::*;

verus! {

/// The square root of `n`, rounded down: the unique `r >= 0` with
/// `r * r <= n < (r + 1) * (r + 1)`.
pub open spec fn sqrt_floor(n: int) -> int {
    choose|r: int| 0 <= r && #[trigger] (r * r) <= n && n < (r + 1) * (r + 1)
}

/// Every non-negative integer has a rounded-down square root.
proof fn lemma_sqrt_exists(n: int)
    requires
        0 <= n,
    ensures
        exists|r: int| 0 <= r && #[trigger] (r * r) <= n && n < (r + 1) * (r + 1),
    decreases n,
{
    if n == 0 {
        let w: int = 0;
        assert(0 <= w && w * w <= n && n < (w + 1) * (w + 1));
    } else {
        lemma_sqrt_exists(n - 1);
        let p = choose|r: int| 0 <= r && #[trigger] (r * r) <= n - 1 && (n - 1) < (r + 1) * (r + 1);
        if (p + 1) * (p + 1) <= n {
            let w = p + 1;
            assert((p + 2) * (p + 2) == (p + 1) * (p + 1) + 2 * p + 3) by (nonlinear_arith);
            assert(0 <= w && w * w <= n && n < (w + 1) * (w + 1));
        } else {
            assert(0 <= p && p * p <= n && n < (p + 1) * (p + 1));
        }
    }
}

/// `sqrt_floor(n)` satisfies its defining inequalities for every `n >= 0`.
pub proof fn lemma_sqrt_floor_props(n: int)
    requires
        0 <= n,
    ensures
        0 <= sqrt_floor(n),
        sqrt_floor(n) * sqrt_floor(n) <= n,
        n < (sqrt_floor(n) + 1) * (sqrt_floor(n) + 1),
{
    lemma_sqrt_exists(n);
}

/// Any `r` that satisfies the defining inequalities is `sqrt_floor(n)`.
pub proof fn lemma_sqrt_floor_unique(n: int, r: int)
    requires
        0 <= r,
        r * r <= n,
        n < (r + 1) * (r + 1),
    ensures
        sqrt_floor(n) == r,
{
    assert(exists|q: int| 0 <= q && #[trigger] (q * q) <= n && n < (q + 1) * (q + 1));
    let s = sqrt_floor(n);
    assert(0 <= s && s * s <= n && n < (s + 1) * (s + 1));
    if s < r {
        assert((s + 1) * (s + 1) <= r * r) by (nonlinear_arith)
            requires
                0 <= s,
                s + 1 <= r,
        ;
        assert(false);
    }
    if r < s {
        assert((r + 1) * (r + 1) <= s * s) by (nonlinear_arith)
            requires
                0 <= r,
                r + 1 <= s,
        ;
        assert(false);
    }
}

/// The square root of `n`, rounded down, found by bisection.
pub fn isqrt64(n: u64) -> (r: u64)
    ensures
        r * r <= n,
        n < (r + 1) * (r + 1),
        r == sqrt_floor(n as int),
{
    let mut lo: u64 = 0;
    let mut hi: u64 = 4_294_967_296;
    assert((n as int) < (hi as int) * (hi as int)) by (nonlinear_arith)
        requires
            n <= 18_446_744_073_709_551_615,
            hi == 4_294_967_296,
    ;
    while lo + 1 < hi
        invariant
            lo < hi,
            hi <= 4_294_967_296,
            lo * lo <= n,
            (n as int) < (hi as int) * (hi as int),
        decreases hi - lo,
    {
        let mid: u64 = lo + (hi - lo) / 2;
        assert(lo < mid && mid < hi);
        assert(mid * mid <= 4_294_967_295 * 4_294_967_295) by (nonlinear_arith)
            requires
                mid <= 4_294_967_295,
        ;
        if mid * mid <= n {
            lo = mid;
        } else {
            hi = mid;
        }
    }
    proof {
        lemma_sqrt_floor_unique(n as int, lo as int);
    }
    lo
}

} // verus!
