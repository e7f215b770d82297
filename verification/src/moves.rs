//! Move generation: the fixed list of ten candidate actions for a drone at
//! a given position.

use vstd::prelude::*;
use crate::model::{ARENA_MAX, COORD_MAX, GameState, Move, MoveV};

verus! {

/// Clamp a coordinate into the arena bounds `[0, ARENA_MAX]`.
pub open spec fn clamp_arena(v: int) -> int {
    if v < 0 {
        0
    } else if v > ARENA_MAX {
        ARENA_MAX as int
    } else {
        v
    }
}

/// A "move toward the clamped target" candidate.
pub open spec fn move_candidate(x: int, y: int, light: bool) -> MoveV {
    MoveV { should_move: true, x: Some(clamp_arena(x)), y: Some(clamp_arena(y)), light }
}

/// A "wait" candidate.
pub open spec fn wait_candidate(light: bool) -> MoveV {
    MoveV { should_move: false, x: None, y: None, light }
}

/// The ten candidate actions for a drone at `(x, y)`: the four diagonal
/// targets offset by the move distance, each with light on and off, then
/// the two waits.
pub open spec fn spec_moves_at(x: int, y: int) -> Seq<MoveV> {
    seq![
        move_candidate(x + 600, y + 600, true),
        move_candidate(x + 600, y + 600, false),
        move_candidate(x - 600, y - 600, true),
        move_candidate(x - 600, y - 600, false),
        move_candidate(x + 600, y - 600, true),
        move_candidate(x + 600, y - 600, false),
        move_candidate(x - 600, y + 600, true),
        move_candidate(x - 600, y + 600, false),
        wait_candidate(true),
        wait_candidate(false),
    ]
}

/// A candidate is structurally sound: a move has both target coordinates,
/// inside the arena.
pub open spec fn move_wf(m: MoveV) -> bool {
    m.should_move ==> {
        &&& m.x matches Some(v) && 0 <= v <= ARENA_MAX
        &&& m.y matches Some(v) && 0 <= v <= ARENA_MAX
    }
}

/// The generator always yields exactly ten candidates, every move target
/// clamped into the arena.
pub proof fn lemma_moves_wf(x: int, y: int)
    ensures
        spec_moves_at(x, y).len() == 10,
        forall|i: int| 0 <= i < 10 ==> move_wf(#[trigger] spec_moves_at(x, y)[i]),
{
}

/// Clamp a coordinate into the arena bounds.
pub fn clamp_to_arena(v: i32) -> (r: i32)
    ensures
        r == clamp_arena(v as int),
{
    if v < 0 {
        0
    } else if v > ARENA_MAX {
        ARENA_MAX
    } else {
        v
    }
}

/// The ten candidate actions for a drone at `(x, y)`.
pub fn possible_moves_from(x: i32, y: i32) -> (r: Vec<Move>)
    requires
        -COORD_MAX <= x <= COORD_MAX,
        -COORD_MAX <= y <= COORD_MAX,
    ensures
        r@.map_values(|m: Move| m@) == spec_moves_at(x as int, y as int),
        r@.len() == 10,
{
    let mut r: Vec<Move> = Vec::new();
    let targets: [(i32, i32); 4] = [(x + 600, y + 600), (x - 600, y - 600), (x + 600, y - 600), (
        x - 600,
        y + 600,
    )];
    let mut d: usize = 0;
    while d < 4
        invariant
            -COORD_MAX <= x <= COORD_MAX,
            -COORD_MAX <= y <= COORD_MAX,
            targets@ == seq![
                ((x + 600) as i32, (y + 600) as i32),
                ((x - 600) as i32, (y - 600) as i32),
                ((x + 600) as i32, (y - 600) as i32),
                ((x - 600) as i32, (y + 600) as i32),
            ],
            0 <= d <= 4,
            r@.len() == 2 * d,
            r@.map_values(|m: Move| m@) =~= spec_moves_at(x as int, y as int).take(2 * d),
        decreases 4 - d,
    {
        let (tx, ty) = targets[d];
        let cx = clamp_to_arena(tx);
        let cy = clamp_to_arena(ty);
        r.push(Move { should_move: true, x: Some(cx), y: Some(cy), light: true });
        r.push(Move { should_move: true, x: Some(cx), y: Some(cy), light: false });
        proof {
            assert(r@.map_values(|m: Move| m@) =~= spec_moves_at(x as int, y as int).take(
                2 * (d + 1),
            ));
        }
        d += 1;
    }
    let ghost r8 = r@;
    r.push(Move { should_move: false, x: None, y: None, light: true });
    r.push(Move { should_move: false, x: None, y: None, light: false });
    proof {
        assert forall|i: int| 0 <= i < 8 implies r@.map_values(|m: Move| m@)[i] == spec_moves_at(
            x as int,
            y as int,
        )[i] by {
            assert(r@[i] == r8[i]);
            assert(r8.map_values(|m: Move| m@)[i] == spec_moves_at(x as int, y as int).take(8)[i]);
        }
        assert(r@.map_values(|m: Move| m@) =~= spec_moves_at(x as int, y as int));
    }
    r
}

impl GameState {
    /// The candidate actions for one side's drone in this state.
    pub fn get_possible_moves(&self, mine: bool) -> (r: Vec<Move>)
        requires
            self@.coords_ok(COORD_MAX as int),
        ensures
            r@.map_values(|m: Move| m@) == spec_moves_at(
                if mine {
                    self@.my_drone.x
                } else {
                    self@.their_drone.x
                },
                if mine {
                    self@.my_drone.y
                } else {
                    self@.their_drone.y
                },
            ),
            r@.len() == 10,
    {
        if mine {
            possible_moves_from(self.my_drone.x, self.my_drone.y)
        } else {
            possible_moves_from(self.their_drone.x, self.their_drone.y)
        }
    }
}

} // verus!
