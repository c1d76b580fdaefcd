//! Integer arithmetic for fixed-point velocities.

use vstd::prelude::*;

verus! {

/// Velocity units that make up one cell per tick.
pub const SUBCELL: i32 = 1000;

/// The absolute value of `c`.
pub open spec fn magnitude(c: int) -> int {
    if c < 0 {
        -c
    } else {
        c
    }
}

/// `a + b`, held to the range of `i32`.
pub open spec fn clamped_sum(a: int, b: int) -> i32 {
    if a + b > i32::MAX {
        i32::MAX
    } else if a + b < i32::MIN {
        i32::MIN
    } else {
        (a + b) as i32
    }
}

/// The quotient of `n` by a positive `d`, rounded toward zero.
pub open spec fn truncated(n: int, d: int) -> int {
    if n >= 0 {
        n / d
    } else {
        -((-n) / d)
    }
}

/// `r` is the integer square root of `n`: the largest integer whose square does
/// not exceed `n`.
pub open spec fn is_root(n: int, r: int) -> bool {
    0 <= r && r * r <= n < (r + 1) * (r + 1)
}

/// The integer square root of a natural number `n`.
pub open spec fn isqrt(n: int) -> int {
    choose|r: int| is_root(n, r)
}

/// A number has at most one integer square root.
pub proof fn lemma_root_unique(n: int, a: int, b: int)
    requires
        is_root(n, a),
        is_root(n, b),
    ensures
        a == b,
{
    if a < b {
        assert((a + 1) * (a + 1) <= b * b) by (nonlinear_arith)
            requires
                0 <= a + 1 <= b,
        ;
    }
    if b < a {
        assert((b + 1) * (b + 1) <= a * a) by (nonlinear_arith)
            requires
                0 <= b + 1 <= a,
        ;
    }
}

/// Every natural number has an integer square root, and `isqrt` names it.
pub proof fn lemma_isqrt_is_root(n: int)
    requires
        0 <= n,
    ensures
        is_root(n, isqrt(n)),
    decreases n,
{
    if n == 0 {
        assert(is_root(0, 0));
    } else {
        lemma_isqrt_is_root(n - 1);
        let r = isqrt(n - 1);
        if (r + 1) * (r + 1) <= n {
            assert((r + 2) * (r + 2) > (r + 1) * (r + 1)) by (nonlinear_arith)
                requires
                    0 <= r,
            ;
            assert(is_root(n, r + 1));
        } else {
            assert(is_root(n, r));
        }
    }
}

/// The integer square root of `n` is at least every natural number whose square
/// does not exceed `n`.
pub proof fn lemma_isqrt_at_least(n: int, b: int)
    requires
        0 <= b,
        b * b <= n,
    ensures
        b <= isqrt(n),
{
    assert(0 <= b * b) by (nonlinear_arith);
    lemma_isqrt_is_root(n);
    let r = isqrt(n);
    if r < b {
        assert((r + 1) * (r + 1) <= b * b) by (nonlinear_arith)
            requires
                0 <= r + 1 <= b,
        ;
    }
}

/// The integer square root of a square is its base.
pub proof fn lemma_isqrt_of_square(b: int)
    requires
        0 <= b,
    ensures
        isqrt(b * b) == b,
{
    assert(b * b < (b + 1) * (b + 1)) by (nonlinear_arith)
        requires
            0 <= b,
    ;
    assert(0 <= b * b) by (nonlinear_arith);
    lemma_isqrt_is_root(b * b);
    lemma_root_unique(b * b, b, isqrt(b * b));
}

/// Adds two velocity components, stopping at the ends of the range of `i32`.
pub fn add_clamped(a: i32, b: i32) -> (sum: i32)
    ensures
        sum == clamped_sum(a as int, b as int),
{
    let wide: i64 = a as i64 + b as i64;
    if wide > i32::MAX as i64 {
        i32::MAX
    } else if wide < i32::MIN as i64 {
        i32::MIN
    } else {
        wide as i32
    }
}

/// Computes the integer square root of `n` by bisection.
pub fn integer_sqrt(n: u128) -> (r: u128)
    ensures
        is_root(n as int, r as int),
        r == isqrt(n as int),
        r <= 0xFFFF_FFFF_FFFF_FFFF,
{
    let mut low: u128 = 0;
    let mut high: u128 = 0x1_0000_0000_0000_0000;
    assert(0x1_0000_0000_0000_0000 * 0x1_0000_0000_0000_0000 > u128::MAX) by (nonlinear_arith);
    while high - low > 1
        invariant
            low < high <= 0x1_0000_0000_0000_0000,
            low * low <= n < high * high,
        decreases high - low,
    {
        let mid: u128 = low + (high - low) / 2;
        assert(mid * mid <= 0xFFFF_FFFF_FFFF_FFFF * 0xFFFF_FFFF_FFFF_FFFF) by (nonlinear_arith)
            requires
                0 <= mid <= 0xFFFF_FFFF_FFFF_FFFF,
        ;
        if mid * mid <= n {
            low = mid;
        } else {
            high = mid;
        }
    }
    proof {
        assert(is_root(n as int, low as int));
        lemma_root_unique(n as int, low as int, isqrt(n as int));
    }
    low
}

} // verus!
