//! Pure integer geometry: squared distances, an exact integer square root,
//! and the speed-capped step a drone takes toward a move target.

use vstd::prelude::*;

verus! {

use vstd::arithmetic::div_mod::{
    lemma_div_is_ordered,
    lemma_div_multiples_vanish,
    lemma_div_pos_is_pos,
};
use vstd::arithmetic::mul::lemma_mul_inequality;

/// Distance a drone covers in one "move" action.
pub const MOVE_SPEED: i64 = 600;

/// The floor of the square root of `n`.
pub open spec fn spec_isqrt(n: int) -> int {
    choose|r: int| 0 <= r && #[trigger] (r * r) <= n && n < (r + 1) * (r + 1)
}

/// Two square-root floors of the same number are equal.
pub proof fn lemma_isqrt_unique(n: int, r1: int, r2: int)
    requires
        0 <= r1 && r1 * r1 <= n && n < (r1 + 1) * (r1 + 1),
        0 <= r2 && r2 * r2 <= n && n < (r2 + 1) * (r2 + 1),
    ensures
        r1 == r2,
{
    if r1 < r2 {
        assert((r1 + 1) * (r1 + 1) <= r2 * r2) by (nonlinear_arith)
            requires 0 <= r1 && r1 < r2;
    }
    if r2 < r1 {
        assert((r2 + 1) * (r2 + 1) <= r1 * r1) by (nonlinear_arith)
            requires 0 <= r2 && r2 < r1;
    }
}

/// Any witness of the square-root bounds is the `spec_isqrt` value.
pub proof fn lemma_isqrt_is(n: int, r: int)
    requires
        0 <= r && r * r <= n && n < (r + 1) * (r + 1),
    ensures
        spec_isqrt(n) == r,
{
    let c = choose|c: int| 0 <= c && #[trigger] (c * c) <= n && n < (c + 1) * (c + 1);
    lemma_isqrt_unique(n, r, c);
}

/// A square-root floor exists for every nonnegative number.
pub proof fn lemma_isqrt_exists(n: int)
    requires
        0 <= n,
    ensures
        exists|r: int| 0 <= r && #[trigger] (r * r) <= n && n < (r + 1) * (r + 1),
    decreases n,
{
    if n == 0 {
        let z: int = 0;
        assert(0 <= z && z * z <= n && n < (z + 1) * (z + 1));
    } else {
        lemma_isqrt_exists(n - 1);
        let r = choose|r: int| 0 <= r && #[trigger] (r * r) <= n - 1 && n - 1 < (r + 1) * (r + 1);
        if (r + 1) * (r + 1) <= n {
            assert(n == (r + 1) * (r + 1));
            assert((r + 2) * (r + 2) > n) by (nonlinear_arith)
                requires 0 <= r && n == (r + 1) * (r + 1);
            assert(0 <= r + 1 && (r + 1) * (r + 1) <= n && n < (r + 2) * (r + 2));
        } else {
            assert(0 <= r && r * r <= n && n < (r + 1) * (r + 1));
        }
    }
}

/// The defining bounds of `spec_isqrt` hold for every nonnegative number.
pub proof fn lemma_isqrt_props(n: int)
    requires
        0 <= n,
    ensures
        0 <= spec_isqrt(n),
        spec_isqrt(n) * spec_isqrt(n) <= n,
        n < (spec_isqrt(n) + 1) * (spec_isqrt(n) + 1),
{
    lemma_isqrt_exists(n);
}

/// A vector's length floor dominates the magnitude of each component.
pub proof fn lemma_component_le_isqrt(d: int, n2: int)
    requires
        0 <= d,
        d * d <= n2,
    ensures
        d <= spec_isqrt(n2),
{
    lemma_isqrt_props(n2);
    let r = spec_isqrt(n2);
    if d > r {
        assert((r + 1) * (r + 1) <= d * d) by (nonlinear_arith)
            requires 0 <= r && r + 1 <= d;
    }
}

/// The scaled step never exceeds the move speed in magnitude.
pub proof fn lemma_scaled_step_bound(d: int, norm: int)
    requires
        1 <= norm,
        -norm <= d <= norm,
    ensures
        -MOVE_SPEED <= spec_scaled_step(d, norm) <= MOVE_SPEED,
{
    let a = if d >= 0 { d } else { -d };
    lemma_mul_inequality(a, norm, 600);
    assert(a * 600 <= norm * 600);
    lemma_div_is_ordered(a * 600, norm * 600, norm);
    lemma_div_multiples_vanish(600, norm);
    assert(norm * 600 == 600 * norm) by (nonlinear_arith);
    assert((norm * 600) / norm == 600);
    lemma_div_pos_is_pos(a * 600, norm);
    assert(a * 600 >= 0) by (nonlinear_arith)
        requires a >= 0;
}

/// Integer square root by bisection.
pub fn isqrt(n: u64) -> (r: u64)
    requires
        n < 0x400_0000_0000_0000,
    ensures
        r * r <= n < (r + 1) * (r + 1),
        r == spec_isqrt(n as int),
{
    let mut lo: u64 = 0;
    let mut hi: u64 = 0x2000_0000;
    assert(hi * hi > n);
    while lo + 1 < hi
        invariant
            lo < hi <= 0x2000_0000,
            lo * lo <= n,
            n < hi * hi,
        decreases hi - lo,
    {
        let mid: u64 = lo + (hi - lo) / 2;
        proof {
            assert((mid as int) * (mid as int) <= 0x2000_0000 * 0x2000_0000)
                by (nonlinear_arith)
                requires mid <= 0x2000_0000;
        }
        if mid * mid <= n {
            lo = mid;
        } else {
            hi = mid;
        }
    }
    proof {
        lemma_isqrt_is(n as int, lo as int);
    }
    lo
}

/// Squared Euclidean distance between two points.
pub open spec fn spec_dist_sq(x1: int, y1: int, x2: int, y2: int) -> int {
    (x1 - x2) * (x1 - x2) + (y1 - y2) * (y1 - y2)
}

/// Squared distance, exact in 64-bit arithmetic.
pub fn dist_sq(x1: i32, y1: i32, x2: i32, y2: i32) -> (r: u64)
    requires
        -100_000_000 <= x1 <= 100_000_000,
        -100_000_000 <= y1 <= 100_000_000,
        -100_000_000 <= x2 <= 100_000_000,
        -100_000_000 <= y2 <= 100_000_000,
    ensures
        r == spec_dist_sq(x1 as int, y1 as int, x2 as int, y2 as int),
        r < 0x400_0000_0000_0000,
{
    let dx: i64 = x1 as i64 - x2 as i64;
    let dy: i64 = y1 as i64 - y2 as i64;
    proof {
        assert(dx * dx <= 200_000_000 * 200_000_000) by (nonlinear_arith)
            requires -200_000_000 <= dx <= 200_000_000;
        assert(dy * dy <= 200_000_000 * 200_000_000) by (nonlinear_arith)
            requires -200_000_000 <= dy <= 200_000_000;
        assert(dx * dx >= 0) by (nonlinear_arith);
        assert(dy * dy >= 0) by (nonlinear_arith);
    }
    (dx * dx + dy * dy) as u64
}

/// One axis of the speed-capped move step: the component `d` of the vector
/// toward the target, scaled by `MOVE_SPEED / norm` and truncated toward
/// zero, exactly as dividing the magnitude and re-applying the sign.
pub open spec fn spec_scaled_step(d: int, norm: int) -> int {
    if d >= 0 {
        (d * MOVE_SPEED) / norm
    } else {
        -(((-d) * MOVE_SPEED) / norm)
    }
}

/// The scaled step along one axis; `norm` is the full vector's length.
pub fn scaled_step(d: i64, norm: u64) -> (r: i64)
    requires
        1 <= norm,
        -1_000_000_000 <= d <= 1_000_000_000,
    ensures
        r == spec_scaled_step(d as int, norm as int),
{
    let a: u64 = if d >= 0 {
        d as u64
    } else {
        (-d) as u64
    };
    proof {
        assert((a as int) * 600 <= 1_000_000_000 * 600) by (nonlinear_arith)
            requires a <= 1_000_000_000;
        assert(((a as int) * 600) / (norm as int) <= (a as int) * 600) by (nonlinear_arith)
            requires norm >= 1 && a >= 0;
    }
    let q: u64 = (a * 600) / norm;
    if d >= 0 {
        q as i64
    } else {
        -(q as i64)
    }
}

} // verus!
