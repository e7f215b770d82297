//! Absorbing one turn's snapshot into the world model: scores, scan
//! events, drones, visible-creature kinematics, and radar blips.

use vstd::prelude::*;
use crate::model::{
    Creature, CreatureV, Drone, GameState, RadarBlip, MAX_BATTERY, MIN_BATTERY, VEL_LIMIT,
    DEPTH_MAX,
};

verus! {

/// Largest coordinate or score magnitude a snapshot may carry.
pub const SNAP_BOUND: i32 = 1_000_000;

/// The mathematical image of a scan-record vector.
pub open spec fn pairs_view(s: Seq<(i32, i32)>) -> Seq<(int, int)> {
    s.map_values(|p: (i32, i32)| (p.0 as int, p.1 as int))
}

/// A creature record carrying fresh kinematics for this turn.
pub open spec fn visible_wf(c: CreatureV) -> bool {
    &&& c.x matches Some(v) && -SNAP_BOUND <= v <= SNAP_BOUND
    &&& c.y matches Some(v) && -SNAP_BOUND <= v <= SNAP_BOUND
    &&& c.vx matches Some(v) && -VEL_LIMIT <= v <= VEL_LIMIT
    &&& c.vy matches Some(v) && -VEL_LIMIT <= v <= VEL_LIMIT
}

/// A roster creature overlaid with this turn's snapshot: a visible
/// creature takes the reported position and velocity, any other has them
/// cleared to unknown; identity, color and type persist.
pub open spec fn overlay_creature(c: CreatureV, visible: Seq<CreatureV>) -> CreatureV {
    if exists|j: int| 0 <= j < visible.len() && (#[trigger] visible[j]).id == c.id {
        let j = choose|j: int| 0 <= j < visible.len() && (#[trigger] visible[j]).id == c.id;
        CreatureV { x: visible[j].x, y: visible[j].y, vx: visible[j].vx, vy: visible[j].vy, ..c }
    } else {
        CreatureV { x: None, y: None, vx: None, vy: None, ..c }
    }
}

/// Whether a scan-record vector holds the given pair.
fn pair_in(scans: &Vec<(i32, i32)>, drone_id: i32, creature_id: i32) -> (r: bool)
    ensures
        r == pairs_view(scans@).contains((drone_id as int, creature_id as int)),
{
    let n = scans.len();
    let mut i: usize = 0;
    while i < n
        invariant
            n == scans@.len(),
            0 <= i <= n,
            forall|j: int|
                0 <= j < i ==> #[trigger] pairs_view(scans@)[j] != (
                drone_id as int,
                creature_id as int,
            ),
        decreases n - i,
    {
        let p = scans[i];
        if p.0 == drone_id && p.1 == creature_id {
            assert(pairs_view(scans@)[i as int] == (drone_id as int, creature_id as int));
            return true;
        }
        i += 1;
    }
    false
}

/// Append each reported pair that is not yet recorded, in order.
fn add_scan_pairs(scans: &mut Vec<(i32, i32)>, drone_id: i32, ids: &Vec<i32>)
    requires
        forall|a: int, b: int|
            0 <= a < b < pairs_view(old(scans)@).len() ==> #[trigger] pairs_view(old(scans)@)[a]
                != #[trigger] pairs_view(old(scans)@)[b],
    ensures
        forall|a: int, b: int|
            0 <= a < b < pairs_view(final(scans)@).len() ==> #[trigger] pairs_view(
                final(scans)@,
            )[a] != #[trigger] pairs_view(final(scans)@)[b],
        pairs_view(old(scans)@).is_prefix_of(pairs_view(final(scans)@)),
        forall|p: (int, int)|
            #[trigger] pairs_view(final(scans)@).contains(p) <==> (pairs_view(
                old(scans)@,
            ).contains(p) || exists|j: int|
                0 <= j < ids@.len() && p == (drone_id as int, #[trigger] ids@[j] as int)),
{
    let ghost sv0 = pairs_view(scans@);
    let n = ids.len();
    let mut i: usize = 0;
    while i < n
        invariant
            n == ids@.len(),
            0 <= i <= n,
            forall|a: int, b: int|
                0 <= a < b < pairs_view(scans@).len() ==> #[trigger] pairs_view(scans@)[a]
                    != #[trigger] pairs_view(scans@)[b],
            sv0.is_prefix_of(pairs_view(scans@)),
            forall|p: (int, int)|
                #[trigger] pairs_view(scans@).contains(p) <==> (sv0.contains(p) || exists|j: int|
                    0 <= j < i && p == (drone_id as int, #[trigger] ids@[j] as int)),
        decreases n - i,
    {
        let cid = ids[i];
        let ghost pre = pairs_view(scans@);
        if !pair_in(scans, drone_id, cid) {
            scans.push((drone_id, cid));
            proof {
                let pair = (drone_id as int, cid as int);
                assert(pairs_view(scans@) =~= pre.push(pair));
                assert(pre.is_prefix_of(pairs_view(scans@)));
                assert(pairs_view(scans@)[pre.len() as int] == pair);
                assert(pairs_view(scans@).contains(pair));
                assert forall|p: (int, int)| #[trigger] pairs_view(scans@).contains(p) implies (
                pre.contains(p) || p == pair) by {
                    let idx = choose|idx: int|
                        0 <= idx < pairs_view(scans@).len() && pairs_view(scans@)[idx] == p;
                    if idx < pre.len() {
                        assert(pre[idx] == p);
                    }
                }
                assert forall|p: (int, int)| pre.contains(p) implies #[trigger] pairs_view(
                    scans@,
                ).contains(p) by {
                    let idx = choose|idx: int| 0 <= idx < pre.len() && pre[idx] == p;
                    assert(pairs_view(scans@)[idx] == p);
                }
                assert forall|a: int, b: int|
                    0 <= a < b < pairs_view(scans@).len() implies #[trigger] pairs_view(scans@)[a]
                    != #[trigger] pairs_view(scans@)[b] by {
                    if b == pre.len() {
                        if pairs_view(scans@)[a] == pair {
                            assert(pre[a] == pair);
                            assert(pre.contains(pair));
                        }
                    }
                }
            }
        }
        i += 1;
    }
}

impl GameState {
    /// Find the visible record for a creature identity.
    fn find_visible(visible: &Vec<Creature>, id: i32) -> (r: Option<usize>)
        ensures
            r matches Some(j) ==> j < visible@.len() && visible@[j as int]@.id == id,
            r is None ==> forall|j: int|
                0 <= j < visible@.len() ==> (#[trigger] visible@[j])@.id != id,
    {
        let mut j: usize = 0;
        while j < visible.len()
            invariant
                0 <= j <= visible@.len(),
                forall|k: int| 0 <= k < j ==> (#[trigger] visible@[k])@.id != id,
            decreases visible@.len() - j,
        {
            if visible[j].id == id {
                return Some(j);
            }
            j += 1;
        }
        None
    }

    /// Absorb one turn's snapshot: set scores and per-side scan events,
    /// replace both drones and the radar blips, and overlay the visible
    /// creatures' kinematics onto the persistent roster.
    #[verifier::rlimit(100)]
    pub fn update_state(
        &mut self,
        my_score: i32,
        foe_score: i32,
        my_scan_creatures: &Vec<i32>,
        foe_scan_creatures: &Vec<i32>,
        my_drone: Drone,
        their_drone: Drone,
        visible: &Vec<Creature>,
        radar_blips: Vec<RadarBlip>,
    )
        requires
            old(self)@.wf(),
            -SNAP_BOUND <= my_score <= SNAP_BOUND,
            -SNAP_BOUND <= foe_score <= SNAP_BOUND,
            my_scan_creatures@.len() <= 1_000_000,
            foe_scan_creatures@.len() <= 1_000_000,
            MIN_BATTERY <= my_drone.battery <= MAX_BATTERY,
            MIN_BATTERY <= their_drone.battery <= MAX_BATTERY,
            my_drone.is_mine,
            !their_drone.is_mine,
            my_drone.id != their_drone.id,
            my_drone@.coords_ok(SNAP_BOUND as int),
            their_drone@.coords_ok(SNAP_BOUND as int),
            forall|j: int| 0 <= j < visible@.len() ==> visible_wf((#[trigger] visible@[j])@),
            forall|i: int, j: int|
                0 <= i < j < visible@.len() ==> (#[trigger] visible@[i])@.id != (
                #[trigger] visible@[j])@.id,
        ensures
            final(self)@.my_score == my_score as int,
            final(self)@.foe_score == foe_score as int,
            final(self)@.my_scan_count == my_scan_creatures@.len(),
            final(self)@.foe_scan_count == foe_scan_creatures@.len(),
            final(self)@.my_drone == my_drone@,
            final(self)@.their_drone == their_drone@,
            final(self)@.radar_blips == radar_blips@.map_values(|b: RadarBlip| b@),
            final(self)@.creatures == old(self)@.creatures.map_values(
                |c: CreatureV| overlay_creature(c, visible@.map_values(|v: Creature| v@)),
            ),
            forall|p: (int, int)|
                #[trigger] final(self)@.scans.contains(p) <==> (old(self)@.scans.contains(p) || (
                exists|j: int|
                    0 <= j < my_scan_creatures@.len() && p == (
                        my_drone@.id,
                        #[trigger] my_scan_creatures@[j] as int,
                    )) || (exists|j: int|
                    0 <= j < foe_scan_creatures@.len() && p == (
                        their_drone@.id,
                        #[trigger] foe_scan_creatures@[j] as int,
                    ))),
            old(self)@.scans.is_prefix_of(final(self)@.scans),
            final(self)@.was_type_0_achieved == old(self)@.was_type_0_achieved,
            final(self)@.was_type_1_achieved == old(self)@.was_type_1_achieved,
            final(self)@.was_type_2_achieved == old(self)@.was_type_2_achieved,
            final(self)@.was_1_of_each_achieved == old(self)@.was_1_of_each_achieved,
            final(self)@.was_all_colors_achieved == old(self)@.was_all_colors_achieved,
            final(self)@.wf(),
            final(self)@.sim_room(DEPTH_MAX as int),
    {
        let ghost vv = visible@.map_values(|v: Creature| v@);
        self.my_score = my_score;
        self.foe_score = foe_score;
        self.my_drone = my_drone;
        self.their_drone = their_drone;
        self.radar_blips = radar_blips;
        self.my_scan_count = my_scan_creatures.len() as i32;
        self.foe_scan_count = foe_scan_creatures.len() as i32;

        let ghost s0 = pairs_view(self.scans@);
        proof {
            assert(old(self)@.scans =~= s0);
            assert forall|a: int, b: int|
                0 <= a < b < s0.len() implies #[trigger] s0[a] != #[trigger] s0[b] by {
                assert(old(self)@.scans[a] != old(self)@.scans[b]);
            }
        }
        add_scan_pairs(&mut self.scans, my_drone.id, my_scan_creatures);
        let ghost s1 = pairs_view(self.scans@);
        add_scan_pairs(&mut self.scans, their_drone.id, foe_scan_creatures);
        let ghost s2 = pairs_view(self.scans@);
        proof {
            assert(self@.scans =~= s2);
            assert(s0.is_prefix_of(s2)) by {
                assert(s0 =~= s2.subrange(0, s0.len() as int));
            }
            assert forall|p: (int, int)| #[trigger] s2.contains(p) <==> (s0.contains(p) || (
            exists|j: int|
                0 <= j < my_scan_creatures@.len() && p == (
                    my_drone@.id,
                    #[trigger] my_scan_creatures@[j] as int,
                )) || (exists|j: int|
                0 <= j < foe_scan_creatures@.len() && p == (
                    their_drone@.id,
                    #[trigger] foe_scan_creatures@[j] as int,
                ))) by {
                assert(s2.contains(p) <==> (s1.contains(p) || exists|j: int|
                    0 <= j < foe_scan_creatures@.len() && p == (
                        their_drone@.id,
                        #[trigger] foe_scan_creatures@[j] as int,
                    )));
                assert(s1.contains(p) <==> (s0.contains(p) || exists|j: int|
                    0 <= j < my_scan_creatures@.len() && p == (
                        my_drone@.id,
                        #[trigger] my_scan_creatures@[j] as int,
                    )));
            }
        }

        // Overlay the visible kinematics onto the roster.
        let ghost creatures0 = self@.creatures;
        let n = self.creatures.len();
        let mut updated: Vec<Creature> = Vec::new();
        let mut i: usize = 0;
        while i < n
            invariant
                0 <= i <= n,
                n == self.creatures.len(),
                self@.creatures == creatures0,
                vv == visible@.map_values(|v: Creature| v@),
                forall|a: int, b: int|
                    0 <= a < b < vv.len() ==> (#[trigger] vv[a]).id != (#[trigger] vv[b]).id,
                updated@.len() == i,
                forall|k: int|
                    0 <= k < i ==> (#[trigger] updated@[k])@ == overlay_creature(
                        creatures0[k],
                        vv,
                    ),
            decreases n - i,
        {
            let c = self.creatures[i];
            proof {
                assert(creatures0[i as int] == c@);
            }
            let found = GameState::find_visible(visible, c.id);
            let c2 = match found {
                Some(j) => {
                    let v = visible[j];
                    proof {
                        assert(vv[j as int] == v@);
                        let jc = choose|jc: int|
                            0 <= jc < vv.len() && (#[trigger] vv[jc]).id == c@.id;
                        if jc != j as int {
                            assert(vv[jc].id == vv[j as int].id);
                        }
                    }
                    Creature { x: v.x, y: v.y, vx: v.vx, vy: v.vy, ..c }
                },
                None => {
                    proof {
                        assert forall|j: int| 0 <= j < vv.len() implies (#[trigger] vv[j]).id
                            != c@.id by {
                            assert(visible@[j]@.id != c@.id);
                        }
                    }
                    Creature { x: None, y: None, vx: None, vy: None, ..c }
                },
            };
            proof {
                assert(c2@ == overlay_creature(creatures0[i as int], vv));
            }
            updated.push(c2);
            i += 1;
        }
        self.creatures = updated;
        proof {
            assert(self@.creatures =~= creatures0.map_values(
                |c: CreatureV| overlay_creature(c, vv),
            ));
            assert forall|k: int|
                0 <= k < self@.creatures.len() implies (
            #[trigger] self@.creatures[k]).kin_consistent() by {
                let oc = overlay_creature(creatures0[k], vv);
                if exists|j: int| 0 <= j < vv.len() && (#[trigger] vv[j]).id == creatures0[k].id {
                    let j = choose|j: int|
                        0 <= j < vv.len() && (#[trigger] vv[j]).id == creatures0[k].id;
                    assert(visible_wf(vv[j]));
                }
            }
        }
    }
}

} // verus!
