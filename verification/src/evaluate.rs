//! Static evaluation: score differential, achievement bonuses, and an
//! emphasized (concave, fixed-point logarithmic) mean distance to the
//! creatures each drone has not yet scanned.

use vstd::prelude::*;
use crate::geometry::{isqrt, dist_sq, spec_dist_sq, spec_isqrt};
use crate::model::{CreatureV, DroneV, GameState, StateV, scanned, COORD_MAX, SCORE_MAX};

verus! {

use vstd::arithmetic::div_mod::{
    lemma_div_is_ordered,
    lemma_div_multiples_vanish_fancy,
    lemma_div_pos_is_pos,
    lemma_fundamental_div_mod,
};
use vstd::arithmetic::mul::lemma_mul_inequality;

/// Fixed-point scale of the logarithm table.
pub const EMPH_SCALE: u64 = 0x1_0000_0000;

/// Largest argument the emphasis transform accepts.
pub const EMPH_INPUT_MAX: i64 = 8_000_000;

/// Per-step growth floor of the fixed-point powers.
pub const EMPH_GROWTH: u64 = 214_748_364;

/// Absolute bound on the evaluator's result.
pub const EVAL_BOUND: i64 = 3_000_000_000_000;

/// The `k`-th fixed-point power of 21/20, with floor division at each
/// step: the table against which the base-1.05 logarithm is taken.
pub open spec fn emph_pow(k: int) -> int
    decreases k,
{
    if k <= 0 {
        EMPH_SCALE as int
    } else {
        emph_pow(k - 1) * 21 / 20
    }
}

/// One table step adds exactly a twentieth, rounded down.
pub proof fn lemma_emph_pow_step(a: int)
    requires
        0 <= a,
    ensures
        a * 21 / 20 == a + a / 20,
{
    lemma_fundamental_div_mod(a, 20);
    let q = a / 20;
    let r = a % 20;
    assert(a * 21 == 20 * (a + q) + r) by (nonlinear_arith)
        requires a == 20 * q + r;
    lemma_div_multiples_vanish_fancy(a + q, r, 20);
}

/// Table entries stay above the scale and grow by at least the fixed
/// floor each step.
pub proof fn lemma_emph_pow_lb(k: int)
    requires
        0 <= k,
    ensures
        emph_pow(k) >= EMPH_SCALE + k * EMPH_GROWTH,
    decreases k,
{
    if k == 0 {
    } else {
        lemma_emph_pow_lb(k - 1);
        let a = emph_pow(k - 1);
        lemma_emph_pow_step(a);
        lemma_div_is_ordered(EMPH_SCALE as int, a, 20);
        assert((k - 1) * (EMPH_GROWTH as int) + (EMPH_GROWTH as int) == k * (EMPH_GROWTH as int))
            by (nonlinear_arith);
    }
}

/// Later table entries are strictly larger.
pub proof fn lemma_emph_pow_mono(k1: int, k2: int)
    requires
        0 <= k1 < k2,
    ensures
        emph_pow(k1) < emph_pow(k2),
    decreases k2 - k1,
{
    lemma_emph_pow_lb(k1);
    let a = emph_pow(k2 - 1);
    if k1 < k2 - 1 {
        lemma_emph_pow_mono(k1, k2 - 1);
    }
    lemma_emph_pow_lb(k2 - 1);
    lemma_emph_pow_step(a);
    lemma_div_is_ordered(EMPH_SCALE as int, a, 20);
}

/// The bracketing index of a value in the table is unique.
pub proof fn lemma_emph_index_unique(t: int, k1: int, k2: int)
    requires
        0 <= k1,
        0 <= k2,
        emph_pow(k1) <= t < emph_pow(k1 + 1),
        emph_pow(k2) <= t < emph_pow(k2 + 1),
    ensures
        k1 == k2,
{
    if k1 < k2 {
        lemma_emph_pow_mono(k1 + 1, k2 + 1);
        if k1 + 1 < k2 {
            lemma_emph_pow_mono(k1 + 1, k2);
        }
    }
    if k2 < k1 {
        lemma_emph_pow_mono(k2 + 1, k1 + 1);
        if k2 + 1 < k1 {
            lemma_emph_pow_mono(k2 + 1, k1);
        }
    }
}

/// The emphasis transform: 1500 times the base-1.05 logarithm of `x + 1`,
/// taken against the fixed-point table with linear interpolation between
/// adjacent entries, shifted down by 1500.
pub open spec fn spec_emphasize(x: int) -> int {
    let t = (x + 1) * EMPH_SCALE;
    let k = choose|k: int|
        0 <= k && #[trigger] emph_pow(k) <= t && t < emph_pow(k + 1);
    1500 * k + (t - emph_pow(k)) * 1500 / (emph_pow(k + 1) - emph_pow(k)) - 1500
}

/// The emphasis transform of the mean-distance range is nonnegative-ish
/// and bounded.
pub proof fn lemma_emphasize_bounds(x: int)
    requires
        0 <= x <= EMPH_INPUT_MAX,
    ensures
        -1500 <= spec_emphasize(x) <= 600_000_000_000,
{
    let t = (x + 1) * (EMPH_SCALE as int);
    assert(EMPH_SCALE <= t <= (EMPH_INPUT_MAX + 1) * (EMPH_SCALE as int)) by (nonlinear_arith)
        requires 0 <= x <= EMPH_INPUT_MAX && t == (x + 1) * (EMPH_SCALE as int);
    lemma_emph_exists(t);
    let k = choose|k: int| 0 <= k && #[trigger] emph_pow(k) <= t && t < emph_pow(k + 1);
    lemma_emph_pow_lb(k);
    assert(EMPH_SCALE + k * EMPH_GROWTH <= t);
    assert(k <= 200_000_000) by (nonlinear_arith)
        requires
            EMPH_SCALE + k * EMPH_GROWTH <= t,
            t <= (EMPH_INPUT_MAX + 1) * (EMPH_SCALE as int),
            0 <= k;
    let gap = emph_pow(k + 1) - emph_pow(k);
    lemma_emph_pow_mono(k, k + 1);
    let frac = (t - emph_pow(k)) * 1500 / gap;
    lemma_div_pos_is_pos((t - emph_pow(k)) * 1500, gap);
    assert((t - emph_pow(k)) * 1500 >= 0) by (nonlinear_arith)
        requires t - emph_pow(k) >= 0;
    assert((t - emph_pow(k)) * 1500 <= gap * 1500) by (nonlinear_arith)
        requires 0 <= t - emph_pow(k) <= gap;
    lemma_div_is_ordered((t - emph_pow(k)) * 1500, gap * 1500, gap);
    assert(gap * 1500 == 1500 * gap) by (nonlinear_arith);
    vstd::arithmetic::div_mod::lemma_div_multiples_vanish(1500, gap);
    assert(frac <= 1500);
    assert(1500 * k <= 1500 * 200_000_000) by (nonlinear_arith)
        requires k <= 200_000_000;
    assert(1500 * k >= 0) by (nonlinear_arith)
        requires k >= 0;
}

/// Every value at or above the scale is bracketed by two adjacent table
/// entries.
pub proof fn lemma_emph_exists(t: int)
    requires
        EMPH_SCALE <= t,
    ensures
        exists|k: int| 0 <= k && #[trigger] emph_pow(k) <= t && t < emph_pow(k + 1),
    decreases t,
{
    // Walk down: find the largest entry at most t.
    if t < emph_pow(1) {
        let z: int = 0;
        assert(0 <= z && emph_pow(z) <= t && t < emph_pow(z + 1));
    } else {
        lemma_emph_pow_step(emph_pow(0));
        assert(emph_pow(1) == EMPH_SCALE + EMPH_SCALE as int / 20);
        lemma_emph_exists_from(t, 1);
    }
}

/// Helper for the existence walk: if entry `k` is at most `t`, some entry
/// from `k` on brackets `t`.
pub proof fn lemma_emph_exists_from(t: int, k: int)
    requires
        1 <= k,
        emph_pow(k) <= t,
    ensures
        exists|j: int| 0 <= j && #[trigger] emph_pow(j) <= t && t < emph_pow(j + 1),
    decreases t - emph_pow(k),
{
    if t < emph_pow(k + 1) {
        assert(0 <= k && emph_pow(k) <= t && t < emph_pow(k + 1));
    } else {
        lemma_emph_pow_lb(k);
        lemma_emph_pow_step(emph_pow(k));
        lemma_div_is_ordered(EMPH_SCALE as int, emph_pow(k), 20);
        lemma_emph_exists_from(t, k + 1);
    }
}

/// The emphasis transform, computed by walking the fixed-point table.
pub fn emphasize_value(x: i64) -> (r: i64)
    requires
        0 <= x <= EMPH_INPUT_MAX,
    ensures
        r == spec_emphasize(x as int),
{
    let v: u64 = (x + 1) as u64;
    proof {
        assert(v * EMPH_SCALE <= 8_000_001 * EMPH_SCALE) by (nonlinear_arith)
            requires 1 <= v <= 8_000_001;
        assert(v * EMPH_SCALE >= 1 * EMPH_SCALE) by (nonlinear_arith)
            requires 1 <= v;
    }
    let target: u64 = v * EMPH_SCALE;
    let mut p: u64 = EMPH_SCALE;
    let mut prev: u64 = 0;
    let mut k: u32 = 0;
    while p <= target
        invariant
            EMPH_SCALE <= target <= 8_000_001 * EMPH_SCALE,
            0 <= k,
            p == emph_pow(k as int),
            EMPH_SCALE <= p,
            k > 0 ==> prev == emph_pow(k as int - 1) && prev <= target && prev >= EMPH_SCALE,
            p <= target + target / 20 + 1,
            k <= 200_000_000,
        decreases 200_000_001 - k,
    {
        proof {
            lemma_emph_pow_step(p as int);
            lemma_div_is_ordered(EMPH_SCALE as int, p as int, 20);
            lemma_div_is_ordered(p as int, target as int, 20);
            lemma_emph_pow_lb(k as int + 1);
            assert(EMPH_SCALE + (k + 1) * EMPH_GROWTH <= emph_pow(k as int + 1) <= target + target
                / 20 + 1);
            assert(k as int + 1 <= 200_000_000) by (nonlinear_arith)
                requires
                    EMPH_SCALE + (k as int + 1) * EMPH_GROWTH <= target + target / 20 + 1,
                    target <= 8_000_001 * EMPH_SCALE,
                    0 <= k;
            lemma_div_multiples_vanish_fancy(214_748_364, 16, 20);
            assert(EMPH_SCALE as int == 20 * 214_748_364 + 16);
            assert(EMPH_SCALE as int / 20 == 214_748_364);
        }
        prev = p;
        p = p + p / 20;
        k = k + 1;
    }
    proof {
        assert(k > 0);
        let t = (x as int + 1) * (EMPH_SCALE as int);
        assert(t == target) by (nonlinear_arith)
            requires
                t == (x as int + 1) * (EMPH_SCALE as int),
                target == v * EMPH_SCALE,
                v == x as int + 1;
        assert(0 <= k as int - 1 && emph_pow(k as int - 1) <= t && t < emph_pow(k as int - 1 + 1));
        lemma_emph_index_unique_choice(t, k as int - 1);
        lemma_emph_pow_mono(k as int - 1, k as int);
        assert((target - prev) * 1500 <= (p - prev) * 1500) by (nonlinear_arith)
            requires target - prev <= p - prev;
        assert((target - prev) * 1500 >= 0) by (nonlinear_arith)
            requires target >= prev;
        assert((p - prev) as int * 1500 <= 9_000_000_000_000_000 * 1500) by (nonlinear_arith)
            requires 0 <= (p - prev) as int <= 9_000_000_000_000_000;
    }
    let frac: u64 = (target - prev) * 1500 / (p - prev);
    proof {
        lemma_div_is_ordered(
            (target - prev) as int * 1500,
            (p - prev) as int * 1500,
            (p - prev) as int,
        );
        assert((((p - prev) as int) * 1500) / ((p - prev) as int) == 1500) by {
            vstd::arithmetic::div_mod::lemma_div_multiples_vanish(1500, (p - prev) as int);
            assert(((p - prev) as int) * 1500 == 1500 * ((p - prev) as int)) by (nonlinear_arith);
        };
        lemma_div_pos_is_pos((target - prev) as int * 1500, (p - prev) as int);
        assert(frac <= 1500);
    }
    1500 * (k as i64 - 1) + frac as i64 - 1500
}

/// The bracketing index the specification chooses is the one any witness
/// exhibits.
pub proof fn lemma_emph_index_unique_choice(t: int, kw: int)
    requires
        0 <= kw,
        emph_pow(kw) <= t < emph_pow(kw + 1),
    ensures
        (choose|k: int| 0 <= k && #[trigger] emph_pow(k) <= t && t < emph_pow(k + 1)) == kw,
{
    assert(0 <= kw && emph_pow(kw) <= t && t < emph_pow(kw + 1));
    let kc = choose|k: int| 0 <= k && #[trigger] emph_pow(k) <= t && t < emph_pow(k + 1);
    lemma_emph_index_unique(t, kw, kc);
}

/// Floor distance from a drone to a creature's known position.
pub open spec fn creature_dist(d: DroneV, c: CreatureV) -> int {
    spec_isqrt(spec_dist_sq(d.x, d.y, c.x.unwrap(), c.y.unwrap()))
}

/// Sum over the first `n` creatures of the distance from the drone to
/// each creature it has not yet scanned; creatures with unknown position
/// contribute nothing.
pub open spec fn dist_sum(
    creatures: Seq<CreatureV>,
    scans: Seq<(int, int)>,
    d: DroneV,
    n: int,
) -> int
    decreases n,
{
    if n <= 0 {
        0
    } else {
        dist_sum(creatures, scans, d, n - 1) + (if !scanned(scans, d.id, creatures[n - 1].id)
            && creatures[n - 1].x is Some && creatures[n - 1].y is Some {
            creature_dist(d, creatures[n - 1])
        } else {
            0
        })
    }
}

/// The static desirability of a state from my side's perspective: score
/// differential dominating, flat achievement bonuses, and the emphasized
/// mean unscanned-creature distance, mine subtracted, the opponent's
/// added.
pub open spec fn spec_evaluate(s: StateV) -> int {
    let n = s.creatures.len() as int;
    let my_avg = dist_sum(s.creatures, s.scans, s.my_drone, n) / n;
    let foe_avg = dist_sum(s.creatures, s.scans, s.their_drone, n) / n;
    (s.my_score - s.foe_score) * 100000 + (if s.was_all_colors_achieved {
        500int
    } else {
        0int
    }) + (if s.was_1_of_each_achieved {
        500int
    } else {
        0int
    }) - spec_emphasize(my_avg) + spec_emphasize(foe_avg)
}

/// The unscanned-distance sum is nonnegative and at most the roster size
/// times the largest possible distance.
pub proof fn lemma_dist_sum_bounds(
    creatures: Seq<CreatureV>,
    scans: Seq<(int, int)>,
    d: DroneV,
    n: int,
)
    requires
        0 <= n <= creatures.len(),
        forall|i: int|
            0 <= i < creatures.len() ==> ((#[trigger] creatures[i]).x matches Some(v)
                ==> -COORD_MAX <= v <= COORD_MAX),
        forall|i: int|
            0 <= i < creatures.len() ==> ((#[trigger] creatures[i]).y matches Some(v)
                ==> -COORD_MAX <= v <= COORD_MAX),
        d.coords_ok(COORD_MAX as int),
    ensures
        0 <= dist_sum(creatures, scans, d, n) <= n * 8_000_000,
    decreases n,
{
    if n <= 0 {
    } else {
        lemma_dist_sum_bounds(creatures, scans, d, n - 1);
        let c = creatures[n - 1];
        if !scanned(scans, d.id, c.id) && c.x is Some && c.y is Some {
            let n2 = spec_dist_sq(d.x, d.y, c.x.unwrap(), c.y.unwrap());
            assert(0 <= n2 <= 32_000_000_000_000) by (nonlinear_arith)
                requires
                    n2 == (d.x - c.x.unwrap()) * (d.x - c.x.unwrap()) + (d.y - c.y.unwrap()) * (
                    d.y - c.y.unwrap()),
                    -4_000_000 <= d.x - c.x.unwrap() <= 4_000_000,
                    -4_000_000 <= d.y - c.y.unwrap() <= 4_000_000;
            crate::geometry::lemma_isqrt_props(n2);
            let r = spec_isqrt(n2);
            assert(r <= 8_000_000) by (nonlinear_arith)
                requires 0 <= r && r * r <= 32_000_000_000_000;
        }
        assert((n - 1) * 8_000_000 + 8_000_000 == n * 8_000_000) by (nonlinear_arith);
    }
}

/// The evaluator's result is strictly inside the representable band the
/// search uses for its infinities.
pub proof fn lemma_evaluate_bounds(s: StateV)
    requires
        s.wf(),
        s.coords_ok(COORD_MAX as int),
        s.scores_ok(SCORE_MAX as int),
    ensures
        -EVAL_BOUND < spec_evaluate(s) < EVAL_BOUND,
{
    let n = s.creatures.len() as int;
    lemma_dist_sum_bounds(s.creatures, s.scans, s.my_drone, n);
    lemma_dist_sum_bounds(s.creatures, s.scans, s.their_drone, n);
    let my_sum = dist_sum(s.creatures, s.scans, s.my_drone, n);
    let foe_sum = dist_sum(s.creatures, s.scans, s.their_drone, n);
    lemma_avg_in_range(my_sum, n);
    lemma_avg_in_range(foe_sum, n);
    lemma_emphasize_bounds(my_sum / n);
    lemma_emphasize_bounds(foe_sum / n);
    assert(-20_000_000 * 100000 <= (s.my_score - s.foe_score) * 100000 <= 20_000_000 * 100000)
        by (nonlinear_arith)
        requires -20_000_000 <= s.my_score - s.foe_score <= 20_000_000;
}

/// The mean of a bounded nonnegative sum over `n` items is within the
/// emphasis transform's domain.
pub proof fn lemma_avg_in_range(sum: int, n: int)
    requires
        1 <= n,
        0 <= sum <= n * 8_000_000,
    ensures
        0 <= sum / n <= EMPH_INPUT_MAX,
{
    lemma_div_pos_is_pos(sum, n);
    lemma_div_is_ordered(sum, n * 8_000_000, n);
    assert(n * 8_000_000 == 8_000_000 * n) by (nonlinear_arith);
    vstd::arithmetic::div_mod::lemma_div_multiples_vanish(8_000_000, n);
}

impl GameState {
    /// Sum of the distances from one side's drone to every creature that
    /// drone has not yet scanned, unknown positions excluded.
    fn unscanned_dist_sum(&self, mine: bool) -> (r: u64)
        requires
            self@.wf(),
            self@.coords_ok(COORD_MAX as int),
        ensures
            r == dist_sum(
                self@.creatures,
                self@.scans,
                if mine {
                    self@.my_drone
                } else {
                    self@.their_drone
                },
                self@.creatures.len() as int,
            ),
            r <= self@.creatures.len() * 8_000_000,
    {
        let d = if mine {
            self.my_drone
        } else {
            self.their_drone
        };
        let ghost dv = if mine {
            self@.my_drone
        } else {
            self@.their_drone
        };
        let n = self.creatures.len();
        let mut sum: u64 = 0;
        let mut i: usize = 0;
        while i < n
            invariant
                self@.wf(),
                self@.coords_ok(COORD_MAX as int),
                n == self.creatures.len(),
                0 <= i <= n,
                d@ == dv,
                dv == (if mine {
                    self@.my_drone
                } else {
                    self@.their_drone
                }),
                sum == dist_sum(self@.creatures, self@.scans, dv, i as int),
                sum <= i * 8_000_000,
            decreases n - i,
        {
            let c = self.creatures[i];
            proof {
                assert(self@.creatures[i as int] == c@);
            }
            let already = self.scans_contain(d.id, c.id);
            if !already && c.x.is_some() {
                let ds = dist_sq(d.x, d.y, c.x.unwrap(), c.y.unwrap());
                let dist = isqrt(ds);
                proof {
                    assert(ds <= 32_000_000_000_000) by (nonlinear_arith)
                        requires
                            ds == (d@.x - c@.x.unwrap()) * (d@.x - c@.x.unwrap()) + (d@.y
                                - c@.y.unwrap()) * (d@.y - c@.y.unwrap()),
                            -4_000_000 <= d@.x - c@.x.unwrap() <= 4_000_000,
                            -4_000_000 <= d@.y - c@.y.unwrap() <= 4_000_000;
                    assert(dist <= 8_000_000) by (nonlinear_arith)
                        requires
                            dist * dist <= ds,
                            ds <= 32_000_000_000_000,
                            0 <= dist;
                    crate::geometry::lemma_isqrt_is(ds as int, dist as int);
                    assert(dist == creature_dist(dv, c@));
                }
                sum = sum + dist;
            }
            i += 1;
        }
        sum
    }

    /// Static evaluation of this state from my side's perspective.
    pub fn evaluate(&self) -> (r: i64)
        requires
            self@.wf(),
            self@.coords_ok(COORD_MAX as int),
            self@.scores_ok(SCORE_MAX as int),
        ensures
            r == spec_evaluate(self@),
            -EVAL_BOUND < r < EVAL_BOUND,
    {
        let n = self.creatures.len();
        let my_sum = self.unscanned_dist_sum(true);
        let foe_sum = self.unscanned_dist_sum(false);
        let my_avg = my_sum / (n as u64);
        let foe_avg = foe_sum / (n as u64);
        proof {
            lemma_avg_in_range(my_sum as int, n as int);
            lemma_avg_in_range(foe_sum as int, n as int);
        }
        let my_emph = emphasize_value(my_avg as i64);
        let foe_emph = emphasize_value(foe_avg as i64);
        proof {
            lemma_emphasize_bounds(my_avg as int);
            lemma_emphasize_bounds(foe_avg as int);
            assert(-20_000_000 * 100000 <= (self@.my_score - self@.foe_score) * 100000
                <= 20_000_000 * 100000) by (nonlinear_arith)
                requires -20_000_000 <= self@.my_score - self@.foe_score <= 20_000_000;
        }
        let mut score: i64 = (self.my_score as i64 - self.foe_score as i64) * 100000;
        if self.was_all_colors_achieved {
            score += 500;
        }
        if self.was_1_of_each_achieved {
            score += 500;
        }
        score -= my_emph;
        score += foe_emph;
        score
    }
}

} // verus!
