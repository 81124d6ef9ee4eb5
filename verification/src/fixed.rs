//! Fixed-point coordinates and the small amount of integer arithmetic the
//! simulation and the rasterizer share: clamping and an integer square root.
//!
//! Positions and velocities are signed 64-bit fixed-point numbers with
//! `FP_SCALE` units per grid cell, so a particle at fixed-point position
//! `(x, y)` lies in grid cell `(x / FP_SCALE, y / FP_SCALE)`.

use vstd::prelude::*;

verus! {

/// Fixed-point units per grid cell.
pub const FP_SCALE: i64 = 1024;

/// Positions are kept within [-POS_LIMIT, POS_LIMIT] (2^50): far beyond any
/// grid, but small enough that every intermediate product fits its type.
pub const POS_LIMIT: i64 = 0x4_0000_0000_0000;

/// Velocities are kept within [-VEL_LIMIT, VEL_LIMIT] (2^30 fixed-point
/// units, i.e. 2^20 cells per time unit).
pub const VEL_LIMIT: i64 = 0x4000_0000;

/// Largest accepted time step (2^20 fixed-point units, i.e. 1024 time units).
pub const TIME_MAX: i64 = 0x10_0000;

/// Largest accepted gravity strength per step.
pub const GRAV_MAX: i64 = 0x4000_0000;

/// `v` forced into the interval [lo, hi].
pub open spec fn clamp_spec(v: int, lo: int, hi: int) -> int {
    if v < lo {
        lo
    } else if v > hi {
        hi
    } else {
        v
    }
}

/// Forces `v` into the interval [lo, hi].
pub fn clamp_i64(v: i64, lo: i64, hi: i64) -> (r: i64)
    requires
        lo <= hi,
    ensures
        r == clamp_spec(v as int, lo as int, hi as int),
{
    if v < lo {
        lo
    } else if v > hi {
        hi
    } else {
        v
    }
}

/// `r` is the integer square root of `n`: the largest integer whose square
/// does not exceed `n`.
pub open spec fn is_isqrt(n: int, r: int) -> bool {
    &&& 0 <= r
    &&& r * r <= n
    &&& n < (r + 1) * (r + 1)
}

/// Integer square root by binary search.
pub fn isqrt(n: u128) -> (r: u128)
    ensures
        is_isqrt(n as int, r as int),
{
    let mut lo: u128 = 0;
    let mut hi: u128 = 0x1_0000_0000_0000_0000;
    proof {
        assert((hi as int) * (hi as int) > n as int) by (nonlinear_arith)
            requires
                hi == 0x1_0000_0000_0000_0000,
                n <= u128::MAX,
        ;
    }
    while lo + 1 < hi
        invariant
            lo < hi <= 0x1_0000_0000_0000_0000,
            (lo as int) * (lo as int) <= n as int,
            (hi as int) * (hi as int) > n as int,
        decreases hi - lo,
    {
        let mid: u128 = lo + (hi - lo) / 2;
        proof {
            assert((mid as int) * (mid as int) <= (0xffff_ffff_ffff_ffff as int) * (
            0xffff_ffff_ffff_ffff as int)) by (nonlinear_arith)
                requires
                    0 <= mid <= 0xffff_ffff_ffff_ffff,
            ;
        }
        if mid * mid <= n {
            lo = mid;
        } else {
            hi = mid;
        }
    }
    lo
}

/// A square root bounds everything whose square it dominates: if a^2 <= n,
/// then a <= isqrt(n).
pub proof fn lemma_isqrt_dominates(n: int, r: int, a: int)
    requires
        is_isqrt(n, r),
        0 <= a,
        a * a <= n,
    ensures
        a <= r,
{
    if a > r {
        assert(a * a >= (r + 1) * (r + 1)) by (nonlinear_arith)
            requires
                a >= r + 1 >= 1,
        ;
    }
}

} // verus!
