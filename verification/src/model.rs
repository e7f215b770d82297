//! World model: creatures, drones, radar blips, candidate moves, and the
//! aggregate game state with its pure geometric and scan-set queries.

use vstd::prelude::*;
use crate::geometry::{dist_sq, spec_dist_sq};

verus! {

/// Squared base illumination radius (800 units).
pub const LIGHT_BASE_RADIUS_SQ: u64 = 640_000;
/// Squared powered illumination radius (2000 units).
pub const LIGHT_POWER_RADIUS_SQ: u64 = 4_000_000;
/// Lowest battery level.
pub const MIN_BATTERY: i32 = 0;
/// Highest battery level.
pub const MAX_BATTERY: i32 = 30;
/// Vertical drift of a waiting drone.
pub const SINK_SPEED: i64 = 300;
/// Upper arena bound on each axis; the lower bound is 0.
pub const ARENA_MAX: i32 = 10_000;

/// Largest coordinate magnitude the simulator ever works with.
pub const COORD_MAX: i64 = 2_000_000;
/// Largest coordinate drift one simulated ply can cause.
pub const COORD_STEP: i64 = 10_000;
/// Largest velocity magnitude a well-formed state holds.
pub const VEL_LIMIT: i32 = 10_000;
/// Largest score or scan-count magnitude the simulator ever works with.
pub const SCORE_MAX: i64 = 10_000_000;
/// Largest score growth one simulated ply can cause.
pub const SCORE_STEP: i64 = 20_000;
/// Largest creature roster a well-formed state holds.
pub const CREATURE_MAX: usize = 1000;
/// Deepest supported search.
pub const DEPTH_MAX: u32 = 8;

/// A creature in the arena. Position and velocity are unknown (`None`)
/// until the creature becomes visible; the four kinematic fields are set
/// or cleared together.
#[derive(Clone, Copy, Debug)]
pub struct Creature {
    pub id: i32,
    pub color: i32,
    pub _type: i32,
    pub x: Option<i32>,
    pub y: Option<i32>,
    pub vx: Option<i32>,
    pub vy: Option<i32>,
}

/// One side's single drone.
#[derive(Clone, Copy, Debug)]
pub struct Drone {
    pub id: i32,
    pub x: i32,
    pub y: i32,
    pub emergency: i32,
    pub battery: i32,
    pub is_mine: bool,
}

/// Coarse directional hint for a creature that is not directly visible;
/// advisory only, carried through the state but not consumed by the search.
#[derive(Clone, Copy, Debug)]
pub struct RadarBlip {
    pub drone_id: i32,
    pub creature_id: i32,
    pub radar: u8,
}

/// A candidate action: move toward a target with the light on or off, or
/// wait (surface drift) with the light on or off.
#[derive(Clone, Copy, Debug)]
pub struct Move {
    pub should_move: bool,
    pub x: Option<i32>,
    pub y: Option<i32>,
    pub light: bool,
}

/// Mathematical image of a `Creature`.
pub ghost struct CreatureV {
    pub id: int,
    pub color: int,
    pub ctype: int,
    pub x: Option<int>,
    pub y: Option<int>,
    pub vx: Option<int>,
    pub vy: Option<int>,
}

/// Mathematical image of a `Drone`.
pub ghost struct DroneV {
    pub id: int,
    pub x: int,
    pub y: int,
    pub emergency: int,
    pub battery: int,
    pub is_mine: bool,
}

/// Mathematical image of a `RadarBlip`.
pub ghost struct BlipV {
    pub drone_id: int,
    pub creature_id: int,
    pub radar: int,
}

/// Mathematical image of a `Move`.
pub ghost struct MoveV {
    pub should_move: bool,
    pub x: Option<int>,
    pub y: Option<int>,
    pub light: bool,
}

impl View for Creature {
    type V = CreatureV;

    open spec fn view(&self) -> CreatureV {
        CreatureV {
            id: self.id as int,
            color: self.color as int,
            ctype: self._type as int,
            x: match self.x {
                Some(v) => Some(v as int),
                None => None,
            },
            y: match self.y {
                Some(v) => Some(v as int),
                None => None,
            },
            vx: match self.vx {
                Some(v) => Some(v as int),
                None => None,
            },
            vy: match self.vy {
                Some(v) => Some(v as int),
                None => None,
            },
        }
    }
}

impl View for Drone {
    type V = DroneV;

    open spec fn view(&self) -> DroneV {
        DroneV {
            id: self.id as int,
            x: self.x as int,
            y: self.y as int,
            emergency: self.emergency as int,
            battery: self.battery as int,
            is_mine: self.is_mine,
        }
    }
}

impl View for RadarBlip {
    type V = BlipV;

    open spec fn view(&self) -> BlipV {
        BlipV {
            drone_id: self.drone_id as int,
            creature_id: self.creature_id as int,
            radar: self.radar as int,
        }
    }
}

impl View for Move {
    type V = MoveV;

    open spec fn view(&self) -> MoveV {
        MoveV {
            should_move: self.should_move,
            x: match self.x {
                Some(v) => Some(v as int),
                None => None,
            },
            y: match self.y {
                Some(v) => Some(v as int),
                None => None,
            },
            light: self.light,
        }
    }
}

impl CreatureV {
    /// All four kinematic fields are present, or none is.
    pub open spec fn kin_consistent(self) -> bool {
        &&& (self.x is Some <==> self.y is Some)
        &&& (self.x is Some <==> self.vx is Some)
        &&& (self.x is Some <==> self.vy is Some)
    }

    /// Base point value of a scan by creature type: 1/2/3 for types 0/1/2,
    /// 0 for any other type.
    pub open spec fn spec_score(self) -> int {
        if self.ctype == 0 {
            1
        } else if self.ctype == 1 {
            2
        } else if self.ctype == 2 {
            3
        } else {
            0
        }
    }
}

impl Creature {
    pub fn get_score(&self) -> (r: i32)
        ensures
            r == self@.spec_score(),
    {
        if self._type == 0 {
            1
        } else if self._type == 1 {
            2
        } else if self._type == 2 {
            3
        } else {
            0
        }
    }
}

/// Distance from `d` to the (known) position of `c` is within the base
/// illumination radius.
pub open spec fn spec_is_near(d: DroneV, c: CreatureV) -> bool {
    spec_dist_sq(d.x, d.y, c.x.unwrap(), c.y.unwrap()) <= LIGHT_BASE_RADIUS_SQ
}

/// Distance from `d` to the (known) position of `c` is within the powered
/// illumination radius.
pub open spec fn spec_is_near_with_power(d: DroneV, c: CreatureV) -> bool {
    spec_dist_sq(d.x, d.y, c.x.unwrap(), c.y.unwrap()) <= LIGHT_POWER_RADIUS_SQ
}

impl DroneV {
    pub open spec fn coords_ok(self, b: int) -> bool {
        &&& -b <= self.x <= b
        &&& -b <= self.y <= b
    }
}

impl Drone {
    /// Squared distance from this drone to a point.
    pub fn distance_squared_from(&self, x: i32, y: i32) -> (r: u64)
        requires
            -100_000_000 <= self.x <= 100_000_000,
            -100_000_000 <= self.y <= 100_000_000,
            -100_000_000 <= x <= 100_000_000,
            -100_000_000 <= y <= 100_000_000,
        ensures
            r == spec_dist_sq(self@.x, self@.y, x as int, y as int),
    {
        dist_sq(self.x, self.y, x, y)
    }

    pub fn is_near_creature(&self, creature: &Creature) -> (r: bool)
        requires
            creature.x is Some,
            creature.y is Some,
            -100_000_000 <= self.x <= 100_000_000,
            -100_000_000 <= self.y <= 100_000_000,
            creature.x matches Some(v) && -100_000_000 <= v <= 100_000_000,
            creature.y matches Some(v) && -100_000_000 <= v <= 100_000_000,
        ensures
            r == spec_is_near(self@, creature@),
    {
        let d = self.distance_squared_from(creature.x.unwrap(), creature.y.unwrap());
        d <= LIGHT_BASE_RADIUS_SQ
    }

    pub fn is_near_creature_with_power(&self, creature: &Creature) -> (r: bool)
        requires
            creature.x is Some,
            creature.y is Some,
            -100_000_000 <= self.x <= 100_000_000,
            -100_000_000 <= self.y <= 100_000_000,
            creature.x matches Some(v) && -100_000_000 <= v <= 100_000_000,
            creature.y matches Some(v) && -100_000_000 <= v <= 100_000_000,
        ensures
            r == spec_is_near_with_power(self@, creature@),
    {
        let d = self.distance_squared_from(creature.x.unwrap(), creature.y.unwrap());
        d <= LIGHT_POWER_RADIUS_SQ
    }
}

/// Whether drone `d` of the given creature-scan pair is recorded.
pub open spec fn scanned(scans: Seq<(int, int)>, drone_id: int, creature_id: int) -> bool {
    scans.contains((drone_id, creature_id))
}

/// Some creature of the given color and type is recorded as scanned by the
/// given drone.
pub open spec fn spec_has_scanned_kind(
    creatures: Seq<CreatureV>,
    scans: Seq<(int, int)>,
    drone_id: int,
    color: int,
    ctype: int,
) -> bool {
    exists|k: int|
        0 <= k < creatures.len() && (#[trigger] creatures[k]).color == color
            && creatures[k].ctype == ctype && scanned(scans, drone_id, creatures[k].id)
}

/// The drone has scanned creatures of all three types for the given color.
pub open spec fn spec_has_all_types_of_color(
    creatures: Seq<CreatureV>,
    scans: Seq<(int, int)>,
    color: int,
    drone_id: int,
) -> bool {
    &&& spec_has_scanned_kind(creatures, scans, drone_id, color, 0)
    &&& spec_has_scanned_kind(creatures, scans, drone_id, color, 1)
    &&& spec_has_scanned_kind(creatures, scans, drone_id, color, 2)
}

/// The drone has scanned a creature of every one of the four colors for the
/// given type.
pub open spec fn spec_has_one_of_each_color(
    creatures: Seq<CreatureV>,
    scans: Seq<(int, int)>,
    ctype: int,
    drone_id: int,
) -> bool {
    &&& spec_has_scanned_kind(creatures, scans, drone_id, 0, ctype)
    &&& spec_has_scanned_kind(creatures, scans, drone_id, 1, ctype)
    &&& spec_has_scanned_kind(creatures, scans, drone_id, 2, ctype)
    &&& spec_has_scanned_kind(creatures, scans, drone_id, 3, ctype)
}

/// Complete game state for one turn or one simulated ply.
#[derive(Clone, Debug)]
pub struct GameState {
    pub was_type_0_achieved: bool,
    pub was_type_1_achieved: bool,
    pub was_type_2_achieved: bool,
    pub was_1_of_each_achieved: bool,
    pub was_all_colors_achieved: bool,
    pub my_score: i32,
    pub foe_score: i32,
    pub my_scan_count: i32,
    pub foe_scan_count: i32,
    pub creatures: Vec<Creature>,
    pub my_drone: Drone,
    pub their_drone: Drone,
    pub radar_blips: Vec<RadarBlip>,
    pub scans: Vec<(i32, i32)>,
}

/// Mathematical image of a `GameState`.
#[verifier::ext_equal]
pub ghost struct StateV {
    pub was_type_0_achieved: bool,
    pub was_type_1_achieved: bool,
    pub was_type_2_achieved: bool,
    pub was_1_of_each_achieved: bool,
    pub was_all_colors_achieved: bool,
    pub my_score: int,
    pub foe_score: int,
    pub my_scan_count: int,
    pub foe_scan_count: int,
    pub creatures: Seq<CreatureV>,
    pub my_drone: DroneV,
    pub their_drone: DroneV,
    pub radar_blips: Seq<BlipV>,
    pub scans: Seq<(int, int)>,
}

impl View for GameState {
    type V = StateV;

    open spec fn view(&self) -> StateV {
        StateV {
            was_type_0_achieved: self.was_type_0_achieved,
            was_type_1_achieved: self.was_type_1_achieved,
            was_type_2_achieved: self.was_type_2_achieved,
            was_1_of_each_achieved: self.was_1_of_each_achieved,
            was_all_colors_achieved: self.was_all_colors_achieved,
            my_score: self.my_score as int,
            foe_score: self.foe_score as int,
            my_scan_count: self.my_scan_count as int,
            foe_scan_count: self.foe_scan_count as int,
            creatures: self.creatures@.map_values(|c: Creature| c@),
            my_drone: self.my_drone@,
            their_drone: self.their_drone@,
            radar_blips: self.radar_blips@.map_values(|b: RadarBlip| b@),
            scans: self.scans@.map_values(|p: (i32, i32)| (p.0 as int, p.1 as int)),
        }
    }
}

impl StateV {
    /// Structural well-formedness: a nonempty, bounded roster of distinct
    /// creatures with consistent kinematics and bounded velocities, one
    /// drone per side with batteries in range, and a duplicate-free scan
    /// record set.
    pub open spec fn wf(self) -> bool {
        &&& 1 <= self.creatures.len() <= CREATURE_MAX
        &&& forall|i: int|
            0 <= i < self.creatures.len() ==> (#[trigger] self.creatures[i]).kin_consistent()
        &&& forall|i: int|
            0 <= i < self.creatures.len() ==> ((#[trigger] self.creatures[i]).vx matches Some(v)
                ==> -VEL_LIMIT <= v <= VEL_LIMIT)
        &&& forall|i: int|
            0 <= i < self.creatures.len() ==> ((#[trigger] self.creatures[i]).vy matches Some(v)
                ==> -VEL_LIMIT <= v <= VEL_LIMIT)
        &&& forall|i: int, j: int|
            0 <= i < j < self.creatures.len() ==> (#[trigger] self.creatures[i]).id != (
            #[trigger] self.creatures[j]).id
        &&& MIN_BATTERY <= self.my_drone.battery <= MAX_BATTERY
        &&& MIN_BATTERY <= self.their_drone.battery <= MAX_BATTERY
        &&& self.my_drone.is_mine
        &&& !self.their_drone.is_mine
        &&& self.my_drone.id != self.their_drone.id
        &&& forall|i: int, j: int|
            0 <= i < j < self.scans.len() ==> #[trigger] self.scans[i] != #[trigger] self.scans[j]
    }

    /// Every known coordinate has magnitude at most `b`.
    pub open spec fn coords_ok(self, b: int) -> bool {
        &&& forall|i: int|
            0 <= i < self.creatures.len() ==> ((#[trigger] self.creatures[i]).x matches Some(v)
                ==> -b <= v <= b)
        &&& forall|i: int|
            0 <= i < self.creatures.len() ==> ((#[trigger] self.creatures[i]).y matches Some(v)
                ==> -b <= v <= b)
        &&& self.my_drone.coords_ok(b)
        &&& self.their_drone.coords_ok(b)
    }

    /// Scores and scan counts have magnitude at most `c`, counts nonnegative.
    pub open spec fn scores_ok(self, c: int) -> bool {
        &&& -c <= self.my_score <= c
        &&& -c <= self.foe_score <= c
        &&& 0 <= self.my_scan_count <= c
        &&& 0 <= self.foe_scan_count <= c
    }

    /// The state is well formed and has room for `d` more simulated plies
    /// before any bound is reached.
    pub open spec fn sim_room(self, d: int) -> bool {
        &&& self.wf()
        &&& 0 <= d
        &&& self.coords_ok(COORD_MAX - d * COORD_STEP)
        &&& self.scores_ok(SCORE_MAX - d * SCORE_STEP)
    }
}

/// A coordinate bound weakens as it widens.
pub proof fn lemma_coords_widen(s: StateV, b1: int, b2: int)
    requires
        s.coords_ok(b1),
        b1 <= b2,
    ensures
        s.coords_ok(b2),
{
    assert forall|i: int|
        0 <= i < s.creatures.len() implies ((#[trigger] s.creatures[i]).x matches Some(v) ==> -b2
        <= v <= b2) by {
        assert(s.creatures[i].x matches Some(v) ==> -b1 <= v <= b1);
    }
    assert forall|i: int|
        0 <= i < s.creatures.len() implies ((#[trigger] s.creatures[i]).y matches Some(v) ==> -b2
        <= v <= b2) by {
        assert(s.creatures[i].y matches Some(v) ==> -b1 <= v <= b1);
    }
}

impl GameState {
    /// Whether the pair (drone, creature) is in the scan record set.
    pub fn scans_contain(&self, drone_id: i32, creature_id: i32) -> (r: bool)
        ensures
            r == scanned(self@.scans, drone_id as int, creature_id as int),
    {
        let n = self.scans.len();
        let mut i: usize = 0;
        while i < n
            invariant
                n == self.scans.len(),
                0 <= i <= n,
                forall|j: int|
                    0 <= j < i ==> #[trigger] self@.scans[j] != (
                    drone_id as int,
                    creature_id as int,
                ),
            decreases n - i,
        {
            let p = self.scans[i];
            if p.0 == drone_id && p.1 == creature_id {
                assert(self@.scans[i as int] == (drone_id as int, creature_id as int));
                return true;
            }
            i += 1;
        }
        false
    }

    /// True when the drone has scanned all three creature types of the
    /// given color, judged against this state's scan record set.
    pub fn has_scanned_all_creatures_of_color_for(&self, color: i32, drone_id: i32) -> (r: bool)
        ensures
            r == spec_has_all_types_of_color(
                self@.creatures,
                self@.scans,
                color as int,
                drone_id as int,
            ),
    {
        let mut has_scanned_type_0 = false;
        let mut has_scanned_type_1 = false;
        let mut has_scanned_type_2 = false;

        let n = self.creatures.len();
        let mut i: usize = 0;
        while i < n
            invariant
                n == self.creatures.len(),
                0 <= i <= n,
                has_scanned_type_0 == exists|k: int|
                    0 <= k < i && (#[trigger] self@.creatures[k]).color == color
                        && self@.creatures[k].ctype == 0 && scanned(
                        self@.scans,
                        drone_id as int,
                        self@.creatures[k].id,
                    ),
                has_scanned_type_1 == exists|k: int|
                    0 <= k < i && (#[trigger] self@.creatures[k]).color == color
                        && self@.creatures[k].ctype == 1 && scanned(
                        self@.scans,
                        drone_id as int,
                        self@.creatures[k].id,
                    ),
                has_scanned_type_2 == exists|k: int|
                    0 <= k < i && (#[trigger] self@.creatures[k]).color == color
                        && self@.creatures[k].ctype == 2 && scanned(
                        self@.scans,
                        drone_id as int,
                        self@.creatures[k].id,
                    ),
                !(has_scanned_type_0 && has_scanned_type_1 && has_scanned_type_2),
            decreases n - i,
        {
            let creature = self.creatures[i];
            let was_scanned = self.scans_contain(drone_id, creature.id);
            proof {
                assert(self@.creatures[i as int] == creature@);
            }

            if creature.color == color && was_scanned {
                if creature._type == 0 {
                    has_scanned_type_0 = true;
                } else if creature._type == 1 {
                    has_scanned_type_1 = true;
                } else if creature._type == 2 {
                    has_scanned_type_2 = true;
                }
            }
            i += 1;

            if has_scanned_type_0 && has_scanned_type_1 && has_scanned_type_2 {
                return true;
            }
        }

        false
    }

    /// True when the drone has scanned one creature of every one of the
    /// four colors for the given type.
    pub fn has_scanned_one_of_each_for(&self, _type: i32, drone_id: i32) -> (r: bool)
        ensures
            r == spec_has_one_of_each_color(
                self@.creatures,
                self@.scans,
                _type as int,
                drone_id as int,
            ),
    {
        let mut has_scanned_color_0 = false;
        let mut has_scanned_color_1 = false;
        let mut has_scanned_color_2 = false;
        let mut has_scanned_color_3 = false;

        let n = self.creatures.len();
        let mut i: usize = 0;
        while i < n
            invariant
                n == self.creatures.len(),
                0 <= i <= n,
                has_scanned_color_0 == exists|k: int|
                    0 <= k < i && (#[trigger] self@.creatures[k]).color == 0
                        && self@.creatures[k].ctype == _type && scanned(
                        self@.scans,
                        drone_id as int,
                        self@.creatures[k].id,
                    ),
                has_scanned_color_1 == exists|k: int|
                    0 <= k < i && (#[trigger] self@.creatures[k]).color == 1
                        && self@.creatures[k].ctype == _type && scanned(
                        self@.scans,
                        drone_id as int,
                        self@.creatures[k].id,
                    ),
                has_scanned_color_2 == exists|k: int|
                    0 <= k < i && (#[trigger] self@.creatures[k]).color == 2
                        && self@.creatures[k].ctype == _type && scanned(
                        self@.scans,
                        drone_id as int,
                        self@.creatures[k].id,
                    ),
                has_scanned_color_3 == exists|k: int|
                    0 <= k < i && (#[trigger] self@.creatures[k]).color == 3
                        && self@.creatures[k].ctype == _type && scanned(
                        self@.scans,
                        drone_id as int,
                        self@.creatures[k].id,
                    ),
                !(has_scanned_color_0 && has_scanned_color_1 && has_scanned_color_2
                    && has_scanned_color_3),
            decreases n - i,
        {
            let creature = self.creatures[i];
            let was_scanned = self.scans_contain(drone_id, creature.id);
            proof {
                assert(self@.creatures[i as int] == creature@);
            }

            if creature._type == _type && was_scanned {
                if creature.color == 0 {
                    has_scanned_color_0 = true;
                } else if creature.color == 1 {
                    has_scanned_color_1 = true;
                } else if creature.color == 2 {
                    has_scanned_color_2 = true;
                }
                if creature.color == 3 {
                    has_scanned_color_3 = true;
                }
            }
            i += 1;

            if has_scanned_color_0 && has_scanned_color_1 && has_scanned_color_2
                && has_scanned_color_3 {
                return true;
            }
        }

        false
    }

    /// A fresh game instance from the initial roster: positions and
    /// velocities unknown, no scans, no achievements, zero scores.
    pub fn new(creatures: Vec<Creature>, my_drone: Drone, their_drone: Drone) -> (r: GameState)
        requires
            1 <= creatures@.len() <= CREATURE_MAX,
            forall|i: int|
                0 <= i < creatures@.len() ==> (#[trigger] creatures@[i]).x is None
                    && creatures@[i].y is None && creatures@[i].vx is None && creatures@[i].vy
                    is None,
            forall|i: int, j: int|
                0 <= i < j < creatures@.len() ==> (#[trigger] creatures@[i]).id != (
                #[trigger] creatures@[j]).id,
            MIN_BATTERY <= my_drone.battery <= MAX_BATTERY,
            MIN_BATTERY <= their_drone.battery <= MAX_BATTERY,
            my_drone.is_mine,
            !their_drone.is_mine,
            my_drone.id != their_drone.id,
            my_drone@.coords_ok(1_000_000),
            their_drone@.coords_ok(1_000_000),
        ensures
            r@.creatures == creatures@.map_values(|c: Creature| c@),
            r@.my_drone == my_drone@,
            r@.their_drone == their_drone@,
            r@.scans == Seq::<(int, int)>::empty(),
            r@.radar_blips == Seq::<BlipV>::empty(),
            r@.my_score == 0 && r@.foe_score == 0,
            r@.my_scan_count == 0 && r@.foe_scan_count == 0,
            !r@.was_type_0_achieved && !r@.was_type_1_achieved && !r@.was_type_2_achieved,
            !r@.was_1_of_each_achieved && !r@.was_all_colors_achieved,
            r@.sim_room(DEPTH_MAX as int),
    {
        let r = GameState {
            was_type_0_achieved: false,
            was_type_1_achieved: false,
            was_type_2_achieved: false,
            was_1_of_each_achieved: false,
            was_all_colors_achieved: false,
            my_score: 0,
            foe_score: 0,
            my_scan_count: 0,
            foe_scan_count: 0,
            creatures,
            my_drone,
            their_drone,
            radar_blips: Vec::new(),
            scans: Vec::new(),
        };
        proof {
            assert(r@.scans =~= Seq::<(int, int)>::empty());
            assert(r@.radar_blips =~= Seq::<BlipV>::empty());
        }
        r
    }
}

} // verus!
