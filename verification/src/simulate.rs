//! Forward simulation: applying one candidate action to a state yields the
//! successor state — creature motion, drone motion, battery, scan
//! detection, and all scoring rules, in that order.

use vstd::prelude::*;
use crate::geometry::{
    isqrt, dist_sq, scaled_step, spec_isqrt, spec_scaled_step, lemma_component_le_isqrt,
    lemma_isqrt_props, lemma_scaled_step_bound,
};
use crate::model::{
    Creature, CreatureV, DroneV, GameState, Move, MoveV, RadarBlip, StateV, scanned,
    spec_has_all_types_of_color, spec_has_one_of_each_color, spec_is_near,
    spec_is_near_with_power, COORD_MAX, COORD_STEP, MAX_BATTERY, MIN_BATTERY, SCORE_MAX,
    SCORE_STEP, SINK_SPEED,
};
use crate::moves::move_wf;

verus! {

/// One step of creature motion: a creature with known kinematics advances
/// by its velocity; one not yet seen stays in place.
pub open spec fn advance_creature(c: CreatureV) -> CreatureV {
    if c.x is Some && c.y is Some && c.vx is Some && c.vy is Some {
        CreatureV {
            x: Some(c.x.unwrap() + c.vx.unwrap()),
            y: Some(c.y.unwrap() + c.vy.unwrap()),
            ..c
        }
    } else {
        c
    }
}

/// One battery update: light on costs 5, floored at the minimum; light off
/// regains 1, capped at the maximum.
pub open spec fn battery_step(b: int, light: bool) -> int {
    if light {
        if b - 5 < MIN_BATTERY {
            MIN_BATTERY as int
        } else {
            b - 5
        }
    } else {
        if b + 1 > MAX_BATTERY {
            MAX_BATTERY as int
        } else {
            b + 1
        }
    }
}

/// The acting drone after one action: a move advances by the speed-capped
/// normalized step toward the target (no motion when the target coincides
/// with the current position); a wait sinks; the battery updates either way.
pub open spec fn drone_step(d: DroneV, m: MoveV) -> DroneV {
    let moved = if m.should_move {
        let dx = m.x.unwrap() - d.x;
        let dy = m.y.unwrap() - d.y;
        let norm = spec_isqrt(dx * dx + dy * dy);
        if norm == 0 {
            d
        } else {
            DroneV { x: d.x + spec_scaled_step(dx, norm), y: d.y + spec_scaled_step(dy, norm), ..d }
        }
    } else {
        DroneV { y: d.y + SINK_SPEED, ..d }
    };
    DroneV { battery: battery_step(d.battery, m.light), ..moved }
}

/// The drone detects the creature this step: position known, and within
/// the base radius, or within the powered radius with the light on.
pub open spec fn detects(d: DroneV, c: CreatureV, light: bool) -> bool {
    c.x is Some && c.y is Some && (spec_is_near(d, c) || (spec_is_near_with_power(d, c) && light))
}

/// The creatures among the first `n` that the drone newly scans this step:
/// detected and not already recorded for this drone, in roster order.
pub open spec fn newly_upto(
    creatures: Seq<CreatureV>,
    scans: Seq<(int, int)>,
    d: DroneV,
    light: bool,
    n: int,
) -> Seq<CreatureV>
    decreases n,
{
    if n <= 0 {
        Seq::empty()
    } else {
        let pre = newly_upto(creatures, scans, d, light, n - 1);
        let c = creatures[n - 1];
        if detects(d, c, light) && !scanned(scans, d.id, c.id) {
            pre.push(c)
        } else {
            pre
        }
    }
}

/// Accumulator of the scoring pass: the growing scan record set, the five
/// achievement flags, the score delta, and the number of new scans.
pub ghost struct ScoreAcc {
    pub scans: Seq<(int, int)>,
    pub t0: bool,
    pub t1: bool,
    pub t2: bool,
    pub one_each: bool,
    pub all_colors: bool,
    pub delta: int,
    pub count: int,
}

/// The scoring accumulator a state starts a simulation step with.
pub open spec fn init_acc(s: StateV) -> ScoreAcc {
    ScoreAcc {
        scans: s.scans,
        t0: s.was_type_0_achieved,
        t1: s.was_type_1_achieved,
        t2: s.was_type_2_achieved,
        one_each: s.was_1_of_each_achieved,
        all_colors: s.was_all_colors_achieved,
        delta: 0,
        count: 0,
    }
}

/// Score one newly scanned creature: record the scan, then base points
/// (doubled on the first-ever scan of that type), the all-types-of-color
/// bonus, and the one-of-each-color bonus, each doubled when it first
/// triggers its achievement.
pub open spec fn score_step(
    creatures: Seq<CreatureV>,
    drone_id: int,
    acc: ScoreAcc,
    c: CreatureV,
) -> ScoreAcc {
    let scans1 = acc.scans.push((drone_id, c.id));
    let first_type = (c.ctype == 0 && !acc.t0) || (c.ctype == 1 && !acc.t1) || (c.ctype == 2
        && !acc.t2);
    let creature_score = if first_type {
        2 * c.spec_score()
    } else {
        c.spec_score()
    };
    let col_hit = spec_has_all_types_of_color(creatures, scans1, c.color, drone_id);
    let col_score: int = if col_hit {
        if !acc.all_colors {
            6
        } else {
            3
        }
    } else {
        0
    };
    let each_hit = spec_has_one_of_each_color(creatures, scans1, c.ctype, drone_id);
    let each_score: int = if each_hit {
        if !acc.one_each {
            8
        } else {
            4
        }
    } else {
        0
    };
    ScoreAcc {
        scans: scans1,
        t0: acc.t0 || c.ctype == 0,
        t1: acc.t1 || c.ctype == 1,
        t2: acc.t2 || c.ctype == 2,
        all_colors: acc.all_colors || col_hit,
        one_each: acc.one_each || each_hit,
        delta: acc.delta + creature_score + col_score + each_score,
        count: acc.count + 1,
    }
}

/// Score the first `n` newly scanned creatures in order.
pub open spec fn score_fold(
    creatures: Seq<CreatureV>,
    drone_id: int,
    acc: ScoreAcc,
    items: Seq<CreatureV>,
    n: int,
) -> ScoreAcc
    decreases n,
{
    if n <= 0 {
        acc
    } else {
        score_step(creatures, drone_id, score_fold(creatures, drone_id, acc, items, n - 1), items[n
            - 1])
    }
}

/// The successor state after one side applies one action: creatures
/// advance, the acting drone moves and its battery updates, new scans are
/// detected against the post-move position, and the scoring pass runs.
pub open spec fn spec_apply(s: StateV, m: MoveV, mine: bool) -> StateV {
    let creatures1 = s.creatures.map_values(|c: CreatureV| advance_creature(c));
    let d0 = if mine {
        s.my_drone
    } else {
        s.their_drone
    };
    let d1 = drone_step(d0, m);
    let newly = newly_upto(creatures1, s.scans, d1, m.light, creatures1.len() as int);
    let acc = score_fold(creatures1, d1.id, init_acc(s), newly, newly.len() as int);
    StateV {
        was_type_0_achieved: acc.t0,
        was_type_1_achieved: acc.t1,
        was_type_2_achieved: acc.t2,
        was_1_of_each_achieved: acc.one_each,
        was_all_colors_achieved: acc.all_colors,
        my_score: if mine {
            s.my_score + acc.delta
        } else {
            s.my_score
        },
        foe_score: if mine {
            s.foe_score
        } else {
            s.foe_score + acc.delta
        },
        my_scan_count: if mine {
            s.my_scan_count + acc.count
        } else {
            s.my_scan_count
        },
        foe_scan_count: if mine {
            s.foe_scan_count
        } else {
            s.foe_scan_count + acc.count
        },
        creatures: creatures1,
        my_drone: if mine {
            d1
        } else {
            s.my_drone
        },
        their_drone: if mine {
            s.their_drone
        } else {
            d1
        },
        radar_blips: s.radar_blips,
        scans: acc.scans,
    }
}

/// The scoring pass only appends scan records, only raises flags, adds a
/// nonnegative, bounded delta, and counts one scan per creature.
pub proof fn lemma_fold_props(
    creatures: Seq<CreatureV>,
    drone_id: int,
    acc: ScoreAcc,
    items: Seq<CreatureV>,
    n: int,
)
    requires
        0 <= n <= items.len(),
    ensures
        ({
            let f = score_fold(creatures, drone_id, acc, items, n);
            &&& f.scans =~= acc.scans + items.take(n).map_values(
                |c: CreatureV| (drone_id, c.id),
            )
            &&& f.count == acc.count + n
            &&& acc.delta <= f.delta <= acc.delta + 20 * n
            &&& (acc.t0 ==> f.t0)
            &&& (acc.t1 ==> f.t1)
            &&& (acc.t2 ==> f.t2)
            &&& (acc.one_each ==> f.one_each)
            &&& (acc.all_colors ==> f.all_colors)
        }),
    decreases n,
{
    if n <= 0 {
        assert(acc.scans =~= acc.scans + items.take(0).map_values(
            |c: CreatureV| (drone_id, c.id),
        ));
    } else {
        lemma_fold_props(creatures, drone_id, acc, items, n - 1);
        let pre = score_fold(creatures, drone_id, acc, items, n - 1);
        let f = score_fold(creatures, drone_id, acc, items, n);
        assert(f == score_step(creatures, drone_id, pre, items[n - 1]));
        assert(f.scans =~= acc.scans + items.take(n).map_values(|c: CreatureV| (drone_id, c.id)));
    }
}

/// Every creature in the newly-scanned list comes from the roster prefix,
/// is detected, and was not yet recorded for the drone.
pub proof fn lemma_newly_props(
    creatures: Seq<CreatureV>,
    scans: Seq<(int, int)>,
    d: DroneV,
    light: bool,
    n: int,
)
    requires
        0 <= n <= creatures.len(),
    ensures
        ({
            let newly = newly_upto(creatures, scans, d, light, n);
            &&& newly.len() <= n
            &&& forall|k: int|
                0 <= k < newly.len() ==> exists|j: int|
                    0 <= j < n && #[trigger] newly[k] == creatures[j] && detects(
                        d,
                        creatures[j],
                        light,
                    ) && !scanned(scans, d.id, creatures[j].id)
        }),
    decreases n,
{
    if n > 0 {
        lemma_newly_props(creatures, scans, d, light, n - 1);
        let pre = newly_upto(creatures, scans, d, light, n - 1);
        let newly = newly_upto(creatures, scans, d, light, n);
        let c = creatures[n - 1];
        if detects(d, c, light) && !scanned(scans, d.id, c.id) {
            assert forall|k: int| 0 <= k < newly.len() implies exists|j: int|
                0 <= j < n && #[trigger] newly[k] == creatures[j] && detects(d, creatures[j], light)
                    && !scanned(scans, d.id, creatures[j].id) by {
                if k < pre.len() {
                    assert(newly[k] == pre[k]);
                } else {
                    assert(newly[k] == creatures[n - 1]);
                }
            }
        }
    }
}

/// Newly scanned creatures have pairwise distinct identities when the
/// roster does.
pub proof fn lemma_newly_distinct(
    creatures: Seq<CreatureV>,
    scans: Seq<(int, int)>,
    d: DroneV,
    light: bool,
    n: int,
)
    requires
        0 <= n <= creatures.len(),
        forall|i: int, j: int|
            0 <= i < j < creatures.len() ==> (#[trigger] creatures[i]).id != (
            #[trigger] creatures[j]).id,
    ensures
        ({
            let newly = newly_upto(creatures, scans, d, light, n);
            forall|p: int, q: int|
                0 <= p < q < newly.len() ==> (#[trigger] newly[p]).id != (#[trigger] newly[q]).id
        }),
    decreases n,
{
    if n > 0 {
        lemma_newly_distinct(creatures, scans, d, light, n - 1);
        lemma_newly_props(creatures, scans, d, light, n - 1);
        let pre = newly_upto(creatures, scans, d, light, n - 1);
        let newly = newly_upto(creatures, scans, d, light, n);
        let c = creatures[n - 1];
        if detects(d, c, light) && !scanned(scans, d.id, c.id) {
            assert forall|p: int, q: int| 0 <= p < q < newly.len() implies (
            #[trigger] newly[p]).id != (#[trigger] newly[q]).id by {
                if q == newly.len() - 1 {
                    let j = choose|j: int|
                        0 <= j < n - 1 && newly[p] == creatures[j] && detects(
                            d,
                            creatures[j],
                            light,
                        ) && !scanned(scans, d.id, creatures[j].id);
                    assert(newly[p] == creatures[j]);
                    assert(newly[q] == creatures[n - 1]);
                    assert(creatures[j].id != creatures[n - 1].id);
                } else {
                    assert(newly[p] == pre[p] && newly[q] == pre[q]);
                }
            }
        }
    }
}

/// Once the achievement flags are set, a scoring step awards only plain
/// values — the base points undoubled, the color bonus as 3 and the
/// one-of-each bonus as 4 — never a doubled bonus again.
pub proof fn lemma_bonus_not_redoubled(
    creatures: Seq<CreatureV>,
    drone_id: int,
    acc: ScoreAcc,
    c: CreatureV,
)
    requires
        acc.t0,
        acc.t1,
        acc.t2,
        acc.all_colors,
        acc.one_each,
    ensures
        score_step(creatures, drone_id, acc, c).delta <= acc.delta + c.spec_score() + 3 + 4,
{
}

/// The battery level after a whole sequence of light choices.
pub open spec fn battery_after(b: int, lights: Seq<bool>) -> int
    decreases lights.len(),
{
    if lights.len() == 0 {
        b
    } else {
        battery_after(battery_step(b, lights[0]), lights.drop_first())
    }
}

/// The battery stays within its bounds under every sequence of light-on
/// and light-off actions, whatever in-range level it starts from.
pub proof fn lemma_battery_bounded(b: int, lights: Seq<bool>)
    requires
        MIN_BATTERY <= b <= MAX_BATTERY,
    ensures
        MIN_BATTERY <= battery_after(b, lights) <= MAX_BATTERY,
    decreases lights.len(),
{
    if lights.len() > 0 {
        lemma_battery_bounded(battery_step(b, lights[0]), lights.drop_first());
    }
}

/// A simulated step only appends scan records, never lowers a scan count,
/// and never clears an achievement flag.
pub proof fn lemma_apply_monotone(s: StateV, m: MoveV, mine: bool)
    ensures
        ({
            let a = spec_apply(s, m, mine);
            &&& s.scans.is_prefix_of(a.scans)
            &&& s.my_scan_count <= a.my_scan_count
            &&& s.foe_scan_count <= a.foe_scan_count
            &&& (s.was_type_0_achieved ==> a.was_type_0_achieved)
            &&& (s.was_type_1_achieved ==> a.was_type_1_achieved)
            &&& (s.was_type_2_achieved ==> a.was_type_2_achieved)
            &&& (s.was_1_of_each_achieved ==> a.was_1_of_each_achieved)
            &&& (s.was_all_colors_achieved ==> a.was_all_colors_achieved)
            &&& a.creatures.len() == s.creatures.len()
        }),
{
    let creatures1 = s.creatures.map_values(|c: CreatureV| advance_creature(c));
    let d0 = if mine {
        s.my_drone
    } else {
        s.their_drone
    };
    let d1 = drone_step(d0, m);
    let newly = newly_upto(creatures1, s.scans, d1, m.light, creatures1.len() as int);
    lemma_fold_props(creatures1, d1.id, init_acc(s), newly, newly.len() as int);
    let acc = score_fold(creatures1, d1.id, init_acc(s), newly, newly.len() as int);
    let pairs = newly.take(newly.len() as int).map_values(|c: CreatureV| (d1.id, c.id));
    assert(acc.scans =~= s.scans + pairs);
    assert(s.scans =~= (s.scans + pairs).take(s.scans.len() as int));
}

/// A simulated step keeps the state well formed.
pub proof fn lemma_apply_wf(s: StateV, m: MoveV, mine: bool)
    requires
        s.wf(),
        move_wf(m),
    ensures
        spec_apply(s, m, mine).wf(),
{
    let a = spec_apply(s, m, mine);
    let creatures1 = s.creatures.map_values(|c: CreatureV| advance_creature(c));
    let d0 = if mine {
        s.my_drone
    } else {
        s.their_drone
    };
    let d1 = drone_step(d0, m);
    let n = creatures1.len() as int;
    let newly = newly_upto(creatures1, s.scans, d1, m.light, n);
    let nn = newly.len() as int;
    lemma_newly_props(creatures1, s.scans, d1, m.light, n);
    lemma_newly_distinct(creatures1, s.scans, d1, m.light, n);
    lemma_fold_props(creatures1, d1.id, init_acc(s), newly, nn);
    let acc = score_fold(creatures1, d1.id, init_acc(s), newly, nn);
    let pairs = newly.take(nn).map_values(|c: CreatureV| (d1.id, c.id));
    assert(newly.take(nn) =~= newly);
    assert(acc.scans =~= s.scans + pairs);
    let base = s.scans.len() as int;

    assert forall|i: int|
        0 <= i < a.creatures.len() implies (#[trigger] a.creatures[i]).kin_consistent() by {
        assert(a.creatures[i] == advance_creature(s.creatures[i]));
    }
    assert forall|i: int, j: int|
        0 <= i < j < a.creatures.len() implies (#[trigger] a.creatures[i]).id != (
    #[trigger] a.creatures[j]).id by {
        assert(a.creatures[i] == advance_creature(s.creatures[i]));
        assert(a.creatures[j] == advance_creature(s.creatures[j]));
    }

    assert forall|i: int, j: int|
        0 <= i < j < a.scans.len() implies #[trigger] a.scans[i] != #[trigger] a.scans[j] by {
        if j < base {
            assert(a.scans[i] == s.scans[i] && a.scans[j] == s.scans[j]);
        } else if i < base {
            let k = j - base;
            assert(a.scans[j] == pairs[k]);
            assert(pairs[k] == (d1.id, newly[k].id));
            let jj = choose|jj: int|
                0 <= jj < n && newly[k] == creatures1[jj] && detects(d1, creatures1[jj], m.light)
                    && !scanned(s.scans, d1.id, creatures1[jj].id);
            if a.scans[i] == a.scans[j] {
                assert(s.scans[i] == (d1.id, newly[k].id));
                assert(scanned(s.scans, d1.id, creatures1[jj].id));
            }
        } else {
            assert(a.scans[i] == pairs[i - base] && a.scans[j] == pairs[j - base]);
            assert(newly[i - base].id != newly[j - base].id);
        }
    }
}

/// A simulated step widens the coordinate bound by at most one step and
/// the score bound by at most one step.
pub proof fn lemma_apply_bounds(s: StateV, m: MoveV, mine: bool, b: int, c: int)
    requires
        s.wf(),
        move_wf(m),
        s.coords_ok(b),
        s.scores_ok(c),
        0 <= b,
        0 <= c,
    ensures
        spec_apply(s, m, mine).coords_ok(b + COORD_STEP),
        spec_apply(s, m, mine).scores_ok(c + SCORE_STEP),
{
    let a = spec_apply(s, m, mine);
    let creatures1 = s.creatures.map_values(|c: CreatureV| advance_creature(c));
    let d0 = if mine {
        s.my_drone
    } else {
        s.their_drone
    };
    let d1 = drone_step(d0, m);
    let n = creatures1.len() as int;
    let newly = newly_upto(creatures1, s.scans, d1, m.light, n);
    let nn = newly.len() as int;
    lemma_newly_props(creatures1, s.scans, d1, m.light, n);
    lemma_fold_props(creatures1, d1.id, init_acc(s), newly, nn);

    assert forall|i: int|
        0 <= i < a.creatures.len() implies ((#[trigger] a.creatures[i]).x matches Some(v) ==> -(b
        + COORD_STEP) <= v <= b + COORD_STEP) && (a.creatures[i].y matches Some(v) ==> -(b
        + COORD_STEP) <= v <= b + COORD_STEP) by {
        assert(a.creatures[i] == advance_creature(s.creatures[i]));
    }

    if m.should_move {
        let dx = m.x.unwrap() - d0.x;
        let dy = m.y.unwrap() - d0.y;
        let n2 = dx * dx + dy * dy;
        assert(dx * dx >= 0 && dy * dy >= 0) by (nonlinear_arith);
        let norm = spec_isqrt(n2);
        lemma_isqrt_props(n2);
        if norm != 0 {
            let adx = if dx >= 0 {
                dx
            } else {
                -dx
            };
            let ady = if dy >= 0 {
                dy
            } else {
                -dy
            };
            assert(adx * adx == dx * dx && ady * ady == dy * dy) by (nonlinear_arith)
                requires (adx == dx || adx == -dx) && (ady == dy || ady == -dy);
            assert(adx * adx <= n2 && ady * ady <= n2) by (nonlinear_arith)
                requires
                    n2 == dx * dx + dy * dy,
                    adx * adx == dx * dx,
                    ady * ady == dy * dy;
            lemma_component_le_isqrt(adx, n2);
            lemma_component_le_isqrt(ady, n2);
            lemma_scaled_step_bound(dx, norm);
            lemma_scaled_step_bound(dy, norm);
        }
    }

    assert(nn <= n <= 1000);
}

/// A simulated step consumes exactly one unit of simulation room.
pub proof fn lemma_apply_room(s: StateV, m: MoveV, mine: bool, d: int)
    requires
        s.sim_room(d),
        1 <= d,
        move_wf(m),
    ensures
        spec_apply(s, m, mine).sim_room(d - 1),
{
    lemma_apply_wf(s, m, mine);
    lemma_apply_bounds(s, m, mine, COORD_MAX - d * COORD_STEP, SCORE_MAX - d * SCORE_STEP);
}

impl GameState {
    /// Record and score one newly scanned creature in place, exactly as
    /// one step of the scoring pass.
    #[verifier::rlimit(100)]
    fn score_one(out: &mut GameState, c: &Creature, drone_id: i32, mine: bool)
        requires
            -2 * SCORE_MAX <= old(out).my_score <= 2 * SCORE_MAX,
            -2 * SCORE_MAX <= old(out).foe_score <= 2 * SCORE_MAX,
            0 <= old(out).my_scan_count <= 2 * SCORE_MAX,
            0 <= old(out).foe_scan_count <= 2 * SCORE_MAX,
        ensures
            ({
                let pre = ScoreAcc {
                    scans: old(out)@.scans,
                    t0: old(out)@.was_type_0_achieved,
                    t1: old(out)@.was_type_1_achieved,
                    t2: old(out)@.was_type_2_achieved,
                    one_each: old(out)@.was_1_of_each_achieved,
                    all_colors: old(out)@.was_all_colors_achieved,
                    delta: 0,
                    count: 0,
                };
                let post = score_step(old(out)@.creatures, drone_id as int, pre, c@);
                &&& final(out)@.scans == post.scans
                &&& final(out)@.was_type_0_achieved == post.t0
                &&& final(out)@.was_type_1_achieved == post.t1
                &&& final(out)@.was_type_2_achieved == post.t2
                &&& final(out)@.was_1_of_each_achieved == post.one_each
                &&& final(out)@.was_all_colors_achieved == post.all_colors
                &&& 0 <= post.delta <= 20
                &&& final(out)@.my_score == old(out)@.my_score + (if mine {
                    post.delta
                } else {
                    0
                })
                &&& final(out)@.foe_score == old(out)@.foe_score + (if mine {
                    0
                } else {
                    post.delta
                })
                &&& final(out)@.my_scan_count == old(out)@.my_scan_count + (if mine {
                    1int
                } else {
                    0int
                })
                &&& final(out)@.foe_scan_count == old(out)@.foe_scan_count + (if mine {
                    0int
                } else {
                    1int
                })
                &&& final(out)@.creatures == old(out)@.creatures
                &&& final(out)@.my_drone == old(out)@.my_drone
                &&& final(out)@.their_drone == old(out)@.their_drone
                &&& final(out)@.radar_blips == old(out)@.radar_blips
            }),
    {
        out.scans.push((drone_id, c.id));
        proof {
            assert(out@.scans =~= old(out)@.scans.push((drone_id as int, c@.id)));
        }
        let col_hit = out.has_scanned_all_creatures_of_color_for(c.color, drone_id);
        let each_hit = out.has_scanned_one_of_each_for(c._type, drone_id);

        let t0 = out.was_type_0_achieved;
        let t1 = out.was_type_1_achieved;
        let t2 = out.was_type_2_achieved;
        let all_colors = out.was_all_colors_achieved;
        let one_each = out.was_1_of_each_achieved;

        let first_type = (c._type == 0 && !t0) || (c._type == 1 && !t1) || (c._type == 2 && !t2);
        let base = c.get_score();
        let creature_score = if first_type {
            2 * base
        } else {
            base
        };
        let all_colors_score: i32 = if col_hit {
            if !all_colors {
                6
            } else {
                3
            }
        } else {
            0
        };
        let one_of_each_score: i32 = if each_hit {
            if !one_each {
                8
            } else {
                4
            }
        } else {
            0
        };
        let score = creature_score + all_colors_score + one_of_each_score;

        out.was_type_0_achieved = t0 || c._type == 0;
        out.was_type_1_achieved = t1 || c._type == 1;
        out.was_type_2_achieved = t2 || c._type == 2;
        out.was_all_colors_achieved = all_colors || col_hit;
        out.was_1_of_each_achieved = one_each || each_hit;

        if mine {
            out.my_scan_count += 1;
            out.my_score += score;
        } else {
            out.foe_scan_count += 1;
            out.foe_score += score;
        }
    }

    /// Apply one candidate action for one side, yielding the successor
    /// state and leaving this state untouched.
    #[verifier::rlimit(100)]
    pub fn apply_moves(&self, m: &Move, mine: bool) -> (r: GameState)
        requires
            self@.wf(),
            self@.coords_ok(COORD_MAX as int),
            self@.scores_ok(SCORE_MAX as int),
            move_wf(m@),
        ensures
            r@ == spec_apply(self@, m@, mine),
            r@.wf(),
            self@.scans.is_prefix_of(r@.scans),
            r@.my_scan_count >= self@.my_scan_count,
            r@.foe_scan_count >= self@.foe_scan_count,
            self@.was_type_0_achieved ==> r@.was_type_0_achieved,
            self@.was_type_1_achieved ==> r@.was_type_1_achieved,
            self@.was_type_2_achieved ==> r@.was_type_2_achieved,
            self@.was_1_of_each_achieved ==> r@.was_1_of_each_achieved,
            self@.was_all_colors_achieved ==> r@.was_all_colors_achieved,
    {
        let ghost sv = self@;
        let n = self.creatures.len();

        // Step 1: every visible creature advances by its velocity.
        let mut creatures1: Vec<Creature> = Vec::new();
        let mut i: usize = 0;
        while i < n
            invariant
                sv == self@,
                sv.wf(),
                sv.coords_ok(COORD_MAX as int),
                n == self.creatures.len(),
                0 <= i <= n,
                creatures1@.len() == i,
                forall|j: int|
                    0 <= j < i ==> (#[trigger] creatures1@[j])@ == advance_creature(
                        sv.creatures[j],
                    ),
            decreases n - i,
        {
            let c = self.creatures[i];
            proof {
                assert(sv.creatures[i as int] == c@);
                assert(sv.creatures[i as int].kin_consistent());
            }
            let c2 = if c.x.is_some() {
                Creature {
                    x: Some(c.x.unwrap() + c.vx.unwrap()),
                    y: Some(c.y.unwrap() + c.vy.unwrap()),
                    ..c
                }
            } else {
                c
            };
            creatures1.push(c2);
            i += 1;
        }
        let ghost cv1 = creatures1@.map_values(|c: Creature| c@);
        proof {
            assert(cv1 =~= sv.creatures.map_values(|c: CreatureV| advance_creature(c)));
        }

        // Step 2: the acting drone moves (speed-capped toward the target,
        // or sinking) and its battery updates.
        let d0 = if mine {
            self.my_drone
        } else {
            self.their_drone
        };
        let mut d1 = d0;
        if m.should_move {
            let tx = m.x.unwrap();
            let ty = m.y.unwrap();
            let n2 = dist_sq(d0.x, d0.y, tx, ty);
            let norm = isqrt(n2);
            proof {
                let dxs = tx as int - d0.x as int;
                let dys = ty as int - d0.y as int;
                assert(dxs * dxs == (d0.x as int - tx as int) * (d0.x as int - tx as int) && dys
                    * dys == (d0.y as int - ty as int) * (d0.y as int - ty as int))
                    by (nonlinear_arith)
                    requires
                        dxs == -(d0.x as int - tx as int),
                        dys == -(d0.y as int - ty as int);
            }
            if norm > 0 {
                let sx = scaled_step(tx as i64 - d0.x as i64, norm);
                let sy = scaled_step(ty as i64 - d0.y as i64, norm);
                proof {
                    let dxs = tx as int - d0.x as int;
                    let dys = ty as int - d0.y as int;
                    let nint = n2 as int;
                    assert(nint == dxs * dxs + dys * dys) by (nonlinear_arith)
                        requires
                            nint == (d0.x as int - tx as int) * (d0.x as int - tx as int) + (
                            d0.y as int - ty as int) * (d0.y as int - ty as int),
                            dxs == -(d0.x as int - tx as int),
                            dys == -(d0.y as int - ty as int);
                    let adx = if dxs >= 0 {
                        dxs
                    } else {
                        -dxs
                    };
                    let ady = if dys >= 0 {
                        dys
                    } else {
                        -dys
                    };
                    assert(adx * adx == dxs * dxs && ady * ady == dys * dys) by (nonlinear_arith)
                        requires (adx == dxs || adx == -dxs) && (ady == dys || ady == -dys);
                    assert(adx * adx <= nint && ady * ady <= nint) by (nonlinear_arith)
                        requires
                            nint == dxs * dxs + dys * dys,
                            adx * adx == dxs * dxs,
                            ady * ady == dys * dys;
                    lemma_component_le_isqrt(adx, nint);
                    lemma_component_le_isqrt(ady, nint);
                    lemma_scaled_step_bound(dxs, norm as int);
                    lemma_scaled_step_bound(dys, norm as int);
                }
                d1.x = d0.x + sx as i32;
                d1.y = d0.y + sy as i32;
            }
        } else {
            d1.y = d0.y + 300;
        }
        d1.battery = if m.light {
            if d0.battery - 5 < MIN_BATTERY {
                MIN_BATTERY
            } else {
                d0.battery - 5
            }
        } else {
            if d0.battery + 1 > MAX_BATTERY {
                MAX_BATTERY
            } else {
                d0.battery + 1
            }
        };
        proof {
            assert(d1@ == drone_step(d0@, m@));
        }
        let ghost d1v = d1@;
        let drone_id = d1.id;

        // Step 3: detect the creatures newly scanned at the post-move
        // position, in roster order, against the old scan record set.
        let mut newly: Vec<Creature> = Vec::new();
        let mut i: usize = 0;
        while i < n
            invariant
                sv == self@,
                sv.wf(),
                sv.coords_ok(COORD_MAX as int),
                n == self.creatures.len(),
                n == creatures1.len(),
                0 <= i <= n,
                cv1 == creatures1@.map_values(|c: Creature| c@),
                cv1 =~= sv.creatures.map_values(|c: CreatureV| advance_creature(c)),
                d1v == d1@,
                drone_id == d1.id,
                d1v.coords_ok(COORD_MAX + COORD_STEP as int),
                newly@.map_values(|c: Creature| c@) =~= newly_upto(
                    cv1,
                    sv.scans,
                    d1v,
                    m@.light,
                    i as int,
                ),
            decreases n - i,
        {
            let c = creatures1[i];
            proof {
                assert(cv1[i as int] == c@);
                assert(sv.creatures[i as int].kin_consistent());
                assert(c@ == advance_creature(sv.creatures[i as int]));
            }
            if c.x.is_some() {
                let near = d1.is_near_creature(&c);
                let near_p = d1.is_near_creature_with_power(&c);
                let already = self.scans_contain(drone_id, c.id);
                if (near || (near_p && m.light)) && !already {
                    newly.push(c);
                }
            }
            proof {
                assert(newly@.map_values(|c: Creature| c@) =~= newly_upto(
                    cv1,
                    sv.scans,
                    d1v,
                    m@.light,
                    i + 1,
                ));
            }
            i += 1;
        }
        let ghost newlyv = newly@.map_values(|c: Creature| c@);
        let ghost acc0 = init_acc(sv);
        proof {
            lemma_newly_props(cv1, sv.scans, d1v, m@.light, cv1.len() as int);
            assert(newlyv.len() <= cv1.len() <= 1000);
        }

        // Step 4: copy the untouched collections and run the scoring pass.
        let mut scans2: Vec<(i32, i32)> = Vec::new();
        let mut i: usize = 0;
        while i < self.scans.len()
            invariant
                0 <= i <= self.scans.len(),
                scans2@.len() == i,
                forall|j: int| 0 <= j < i ==> #[trigger] scans2@[j] == self.scans@[j],
            decreases self.scans.len() - i,
        {
            let p = self.scans[i];
            scans2.push(p);
            i += 1;
        }
        let mut blips2: Vec<RadarBlip> = Vec::new();
        let mut i: usize = 0;
        while i < self.radar_blips.len()
            invariant
                0 <= i <= self.radar_blips.len(),
                blips2@.len() == i,
                forall|j: int| 0 <= j < i ==> #[trigger] blips2@[j] == self.radar_blips@[j],
            decreases self.radar_blips.len() - i,
        {
            let p = self.radar_blips[i];
            blips2.push(p);
            i += 1;
        }

        let mut out = GameState {
            was_type_0_achieved: self.was_type_0_achieved,
            was_type_1_achieved: self.was_type_1_achieved,
            was_type_2_achieved: self.was_type_2_achieved,
            was_1_of_each_achieved: self.was_1_of_each_achieved,
            was_all_colors_achieved: self.was_all_colors_achieved,
            my_score: self.my_score,
            foe_score: self.foe_score,
            my_scan_count: self.my_scan_count,
            foe_scan_count: self.foe_scan_count,
            creatures: creatures1,
            my_drone: if mine {
                d1
            } else {
                self.my_drone
            },
            their_drone: if mine {
                self.their_drone
            } else {
                d1
            },
            radar_blips: blips2,
            scans: scans2,
        };
        proof {
            assert(out@.scans =~= sv.scans);
            assert(out@.radar_blips =~= sv.radar_blips);
            assert(out@.creatures == cv1);
        }

        let nn = newly.len();
        let mut k: usize = 0;
        while k < nn
            invariant
                nn == newly.len(),
                0 <= k <= nn,
                newlyv == newly@.map_values(|c: Creature| c@),
                newlyv.len() == nn,
                cv1.len() <= 1000,
                acc0 == init_acc(sv),
                -SCORE_MAX <= sv.my_score <= SCORE_MAX,
                -SCORE_MAX <= sv.foe_score <= SCORE_MAX,
                0 <= sv.my_scan_count <= SCORE_MAX,
                0 <= sv.foe_scan_count <= SCORE_MAX,
                nn <= 1000,
                out@.creatures == cv1,
                out@.radar_blips == sv.radar_blips,
                out@.my_drone == (if mine {
                    d1v
                } else {
                    sv.my_drone
                }),
                out@.their_drone == (if mine {
                    sv.their_drone
                } else {
                    d1v
                }),
                drone_id as int == d1v.id,
                ({
                    let f = score_fold(cv1, d1v.id, acc0, newlyv, k as int);
                    &&& out@.scans == f.scans
                    &&& out@.was_type_0_achieved == f.t0
                    &&& out@.was_type_1_achieved == f.t1
                    &&& out@.was_type_2_achieved == f.t2
                    &&& out@.was_1_of_each_achieved == f.one_each
                    &&& out@.was_all_colors_achieved == f.all_colors
                    &&& 0 <= f.delta <= 20 * k
                    &&& f.count == k
                    &&& out@.my_score == sv.my_score + (if mine {
                        f.delta
                    } else {
                        0
                    })
                    &&& out@.foe_score == sv.foe_score + (if mine {
                        0
                    } else {
                        f.delta
                    })
                    &&& out@.my_scan_count == sv.my_scan_count + (if mine {
                        f.count
                    } else {
                        0
                    })
                    &&& out@.foe_scan_count == sv.foe_scan_count + (if mine {
                        0
                    } else {
                        f.count
                    })
                }),
            decreases nn - k,
        {
            let ghost fpre = score_fold(cv1, d1v.id, acc0, newlyv, k as int);
            let c = newly[k];
            proof {
                assert(newlyv[k as int] == c@);
            }
            GameState::score_one(&mut out, &c, drone_id, mine);
            proof {
                let f = score_fold(cv1, d1v.id, acc0, newlyv, k + 1);
                assert(f == score_step(cv1, d1v.id, fpre, newlyv[k as int]));
            }
            k += 1;
        }

        proof {
            assert(newlyv =~= newlyv.take(nn as int));
            assert(out@ =~= spec_apply(sv, m@, mine));
            lemma_apply_wf(sv, m@, mine);
            lemma_apply_monotone(sv, m@, mine);
        }
        out
    }
}

} // verus!
