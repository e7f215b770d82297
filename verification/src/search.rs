//! Search: depth-limited minimax with alpha-beta pruning over alternating
//! simulated plies, and the root move selector with randomized tie order.

use vstd::prelude::*;
use rand::seq::SliceRandom;
use crate::evaluate::{spec_evaluate, lemma_evaluate_bounds, EVAL_BOUND};
use crate::model::{GameState, Move, MoveV, StateV, COORD_MAX, COORD_STEP, DEPTH_MAX};
use crate::moves::{move_wf, spec_moves_at, lemma_moves_wf};
use crate::simulate::{spec_apply, lemma_apply_room};

verus! {

broadcast use vstd::seq_lib::group_to_multiset_ensures;

/// Sentinel below every reachable evaluation, used as the empty maximum.
pub const NEG_SENTINEL: i64 = -4_000_000_000_000_000_000;

/// Sentinel above every reachable evaluation, used as the empty minimum.
pub const POS_SENTINEL: i64 = 4_000_000_000_000_000_000;

/// Search depth below the root candidates.
pub const SEARCH_DEPTH: u32 = 3;

/// The candidates of the side to act.
pub open spec fn acting_moves(s: StateV, mine: bool) -> Seq<MoveV> {
    if mine {
        spec_moves_at(s.my_drone.x, s.my_drone.y)
    } else {
        spec_moves_at(s.their_drone.x, s.their_drone.y)
    }
}

/// The value of one child of a node: apply the move for the acting side,
/// then search one ply deeper for the other side.
pub open spec fn child_score(s: StateV, m: MoveV, depth: int, mine: bool) -> int
    decreases depth, 0int,
    when 0 < depth
{
    spec_minimax(spec_apply(s, m, mine), depth - 1, !mine)
}

/// Greatest child value among the first `i` candidates of a maximizing node.
pub open spec fn best_max(s: StateV, ms: Seq<MoveV>, depth: int, i: int) -> int
    decreases depth, i,
{
    if i <= 0 || depth <= 0 {
        NEG_SENTINEL as int
    } else {
        let v = child_score(s, ms[i - 1], depth, true);
        let rest = best_max(s, ms, depth, i - 1);
        if v > rest {
            v
        } else {
            rest
        }
    }
}

/// Least child value among the first `i` candidates of a minimizing node.
pub open spec fn best_min(s: StateV, ms: Seq<MoveV>, depth: int, i: int) -> int
    decreases depth, i,
{
    if i <= 0 || depth <= 0 {
        POS_SENTINEL as int
    } else {
        let v = child_score(s, ms[i - 1], depth, false);
        let rest = best_min(s, ms, depth, i - 1);
        if v < rest {
            v
        } else {
            rest
        }
    }
}

/// The unpruned minimax value of a state: the evaluator at the horizon,
/// otherwise the best child value for the side to act.
pub open spec fn spec_minimax(s: StateV, depth: int, maximizing: bool) -> int
    decreases depth, 11int,
{
    if depth <= 0 {
        spec_evaluate(s)
    } else if maximizing {
        best_max(s, acting_moves(s, true), depth, 10)
    } else {
        best_min(s, acting_moves(s, false), depth, 10)
    }
}

/// A maximizing node's value dominates each of its children.
pub proof fn lemma_best_max_ge(s: StateV, ms: Seq<MoveV>, depth: int, i: int, j: int)
    requires
        0 <= j < i,
        0 < depth,
    ensures
        best_max(s, ms, depth, i) >= child_score(s, ms[j], depth, true),
    decreases i,
{
    if j < i - 1 {
        lemma_best_max_ge(s, ms, depth, i - 1, j);
    }
}

/// A minimizing node's value is dominated by each of its children.
pub proof fn lemma_best_min_le(s: StateV, ms: Seq<MoveV>, depth: int, i: int, j: int)
    requires
        0 <= j < i,
        0 < depth,
    ensures
        best_min(s, ms, depth, i) <= child_score(s, ms[j], depth, false),
    decreases i,
{
    if j < i - 1 {
        lemma_best_min_le(s, ms, depth, i - 1, j);
    }
}

/// A maximizing node's value is the sentinel or one of its children.
pub proof fn lemma_best_max_attained(s: StateV, ms: Seq<MoveV>, depth: int, i: int)
    requires
        0 <= i,
        0 < depth,
    ensures
        best_max(s, ms, depth, i) == NEG_SENTINEL || exists|j: int|
            0 <= j < i && best_max(s, ms, depth, i) == child_score(s, #[trigger] ms[j], depth, true),
    decreases i,
{
    if i > 0 {
        lemma_best_max_attained(s, ms, depth, i - 1);
        let v = child_score(s, ms[i - 1], depth, true);
        if best_max(s, ms, depth, i) == v {
            assert(0 <= i - 1 < i && best_max(s, ms, depth, i) == child_score(
                s,
                ms[i - 1],
                depth,
                true,
            ));
        }
    }
}

/// A minimizing node's value is the sentinel or one of its children.
pub proof fn lemma_best_min_attained(s: StateV, ms: Seq<MoveV>, depth: int, i: int)
    requires
        0 <= i,
        0 < depth,
    ensures
        best_min(s, ms, depth, i) == POS_SENTINEL || exists|j: int|
            0 <= j < i && best_min(s, ms, depth, i) == child_score(
                s,
                #[trigger] ms[j],
                depth,
                false,
            ),
    decreases i,
{
    if i > 0 {
        lemma_best_min_attained(s, ms, depth, i - 1);
        let v = child_score(s, ms[i - 1], depth, false);
        if best_min(s, ms, depth, i) == v {
            assert(0 <= i - 1 < i && best_min(s, ms, depth, i) == child_score(
                s,
                ms[i - 1],
                depth,
                false,
            ));
        }
    }
}

/// The minimax value of a well-bounded state stays strictly inside the
/// evaluator's band, so the sentinels never leak out of the search.
pub proof fn lemma_minimax_bounds(s: StateV, depth: int, maximizing: bool)
    requires
        s.sim_room(depth),
        0 <= depth <= DEPTH_MAX,
    ensures
        -EVAL_BOUND < spec_minimax(s, depth, maximizing) < EVAL_BOUND,
    decreases depth, 11int,
{
    if depth <= 0 {
        lemma_evaluate_bounds(s);
    } else {
        let ms = acting_moves(s, maximizing);
        if maximizing {
            lemma_moves_wf(s.my_drone.x, s.my_drone.y);
            lemma_best_bounds(s, ms, depth, 10, true);
        } else {
            lemma_moves_wf(s.their_drone.x, s.their_drone.y);
            lemma_best_bounds(s, ms, depth, 10, false);
        }
    }
}

/// The running best over a nonempty prefix of well-formed candidates is
/// strictly inside the evaluator's band.
#[verifier::rlimit(100)]
#[verifier::spinoff_prover]
pub proof fn lemma_best_bounds(s: StateV, ms: Seq<MoveV>, depth: int, i: int, maximizing: bool)
    requires
        s.sim_room(depth),
        1 <= depth <= DEPTH_MAX,
        1 <= i <= ms.len(),
        forall|j: int| 0 <= j < ms.len() ==> move_wf(#[trigger] ms[j]),
    ensures
        maximizing ==> -EVAL_BOUND < best_max(s, ms, depth, i) < EVAL_BOUND,
        !maximizing ==> -EVAL_BOUND < best_min(s, ms, depth, i) < EVAL_BOUND,
    decreases depth, 10int, i,
{
    lemma_apply_room(s, ms[i - 1], maximizing, depth);
    lemma_minimax_bounds(spec_apply(s, ms[i - 1], maximizing), depth - 1, !maximizing);
    if i > 1 {
        lemma_best_bounds(s, ms, depth, i - 1, maximizing);
    } else {
        assert(best_max(s, ms, depth, 0) == NEG_SENTINEL);
        assert(best_min(s, ms, depth, 0) == POS_SENTINEL);
    }
    if maximizing {
        let v = child_score(s, ms[i - 1], depth, true);
        assert(v == spec_minimax(spec_apply(s, ms[i - 1], true), depth - 1, false));
        assert(-EVAL_BOUND < v < EVAL_BOUND);
        let rest = best_max(s, ms, depth, i - 1);
        assert(best_max(s, ms, depth, i) == if v > rest {
            v
        } else {
            rest
        });
    } else {
        let v = child_score(s, ms[i - 1], depth, false);
        assert(v == spec_minimax(spec_apply(s, ms[i - 1], false), depth - 1, true));
        assert(-EVAL_BOUND < v < EVAL_BOUND);
        let rest = best_min(s, ms, depth, i - 1);
        assert(best_min(s, ms, depth, i) == if v < rest {
            v
        } else {
            rest
        });
    }
}

/// The value one root candidate earns: apply it for my side, then search
/// the remaining plies starting with the opponent.
pub open spec fn root_score(s: StateV, m: MoveV) -> int {
    spec_minimax(spec_apply(s, m, true), SEARCH_DEPTH as int, false)
}

/// Relies on rand's `SliceRandom::shuffle` (a Fisher-Yates pass built of
/// element swaps): the vector afterward holds the same moves, reordered.
#[verifier::external_body]
fn shuffle_moves(moves: &mut Vec<Move>)
    ensures
        final(moves)@.to_multiset() == old(moves)@.to_multiset(),
{
    moves.shuffle(&mut rand::thread_rng());
}

impl GameState {
    /// Depth-limited minimax with alpha-beta pruning. Pruning is exact:
    /// inside the window the result equals the unpruned minimax value,
    /// and outside it the result fails the same side of the window.
    #[verifier::rlimit(100)]
    pub fn minimax(&self, depth: u32, alpha: i64, beta: i64, maximizing_player: bool) -> (r: i64)
        requires
            self@.sim_room(depth as int),
            depth <= DEPTH_MAX,
            alpha < beta,
        ensures
            spec_minimax(self@, depth as int, maximizing_player) <= alpha ==> r <= alpha,
            spec_minimax(self@, depth as int, maximizing_player) >= beta ==> r >= beta,
            alpha < spec_minimax(self@, depth as int, maximizing_player) < beta ==> r
                == spec_minimax(self@, depth as int, maximizing_player),
        decreases depth,
    {
        if depth == 0 {
            let score = self.evaluate();
            return score;
        }

        let ghost sv = self@;
        let ghost ms = acting_moves(sv, maximizing_player);
        proof {
            crate::model::lemma_coords_widen(sv, COORD_MAX - depth * COORD_STEP, COORD_MAX as int);
            if maximizing_player {
                lemma_moves_wf(sv.my_drone.x, sv.my_drone.y);
            } else {
                lemma_moves_wf(sv.their_drone.x, sv.their_drone.y);
            }
        }
        let moves = self.get_possible_moves(maximizing_player);

        if maximizing_player {
            let mut a = alpha;
            let mut i: usize = 0;
            while i < 10
                invariant
                    sv == self@,
                    sv.sim_room(depth as int),
                    1 <= depth <= DEPTH_MAX,
                    maximizing_player,
                    ms == acting_moves(sv, true),
                    moves@.len() == 10,
                    ms.len() == 10,
                    moves@.map_values(|m: Move| m@) == ms,
                    forall|j: int| 0 <= j < 10 ==> move_wf(#[trigger] ms[j]),
                    0 <= i <= 10,
                    alpha <= a < beta,
                    forall|j: int|
                        0 <= j < i ==> child_score(sv, #[trigger] ms[j], depth as int, true) <= a,
                    a == alpha || exists|j: int|
                        0 <= j < i && a == child_score(sv, #[trigger] ms[j], depth as int, true),
                decreases 10 - i,
            {
                let mv = moves[i];
                proof {
                    assert(moves@[i as int]@ == ms[i as int]);
                    lemma_apply_room(sv, ms[i as int], true, depth as int);
                }
                let child = self.apply_moves(&mv, true);
                let score = child.minimax(depth - 1, a, beta, false);
                let ghost vc = child_score(sv, ms[i as int], depth as int, true);
                proof {
                    assert(child@ == spec_apply(sv, ms[i as int], true));
                    assert(vc == spec_minimax(child@, depth as int - 1, false));
                }
                if score > a {
                    a = score;
                }
                if beta <= a {
                    proof {
                        assert(vc >= beta);
                        lemma_best_max_ge(sv, ms, depth as int, 10, i as int);
                        assert(spec_minimax(sv, depth as int, true) >= vc);
                    }
                    return a;
                }
                proof {
                    assert(vc <= a);
                }
                i += 1;
            }
            proof {
                let v = spec_minimax(sv, depth as int, true);
                assert(v == best_max(sv, ms, depth as int, 10));
                lemma_best_max_attained(sv, ms, depth as int, 10);
                lemma_apply_room(sv, ms[0], true, depth as int);
                lemma_minimax_bounds(spec_apply(sv, ms[0], true), depth as int - 1, false);
                lemma_best_max_ge(sv, ms, depth as int, 10, 0);
                if a != alpha {
                    let j = choose|j: int|
                        0 <= j < 10 && a == child_score(sv, #[trigger] ms[j], depth as int, true);
                    lemma_best_max_ge(sv, ms, depth as int, 10, j);
                }
            }
            a
        } else {
            let mut b = beta;
            let mut i: usize = 0;
            while i < 10
                invariant
                    sv == self@,
                    sv.sim_room(depth as int),
                    1 <= depth <= DEPTH_MAX,
                    !maximizing_player,
                    ms == acting_moves(sv, false),
                    moves@.len() == 10,
                    ms.len() == 10,
                    moves@.map_values(|m: Move| m@) == ms,
                    forall|j: int| 0 <= j < 10 ==> move_wf(#[trigger] ms[j]),
                    0 <= i <= 10,
                    alpha < b <= beta,
                    forall|j: int|
                        0 <= j < i ==> child_score(sv, #[trigger] ms[j], depth as int, false) >= b,
                    b == beta || exists|j: int|
                        0 <= j < i && b == child_score(sv, #[trigger] ms[j], depth as int, false),
                decreases 10 - i,
            {
                let mv = moves[i];
                proof {
                    assert(moves@[i as int]@ == ms[i as int]);
                    lemma_apply_room(sv, ms[i as int], false, depth as int);
                }
                let child = self.apply_moves(&mv, false);
                let score = child.minimax(depth - 1, alpha, b, true);
                let ghost vc = child_score(sv, ms[i as int], depth as int, false);
                proof {
                    assert(child@ == spec_apply(sv, ms[i as int], false));
                    assert(vc == spec_minimax(child@, depth as int - 1, true));
                }
                if score < b {
                    b = score;
                }
                if b <= alpha {
                    proof {
                        assert(vc <= alpha);
                        lemma_best_min_le(sv, ms, depth as int, 10, i as int);
                        assert(spec_minimax(sv, depth as int, false) <= vc);
                    }
                    return b;
                }
                proof {
                    assert(vc >= b);
                }
                i += 1;
            }
            proof {
                let v = spec_minimax(sv, depth as int, false);
                assert(v == best_min(sv, ms, depth as int, 10));
                lemma_best_min_attained(sv, ms, depth as int, 10);
                lemma_apply_room(sv, ms[0], false, depth as int);
                lemma_minimax_bounds(spec_apply(sv, ms[0], false), depth as int - 1, true);
                lemma_best_min_le(sv, ms, depth as int, 10, 0);
                if b != beta {
                    let j = choose|j: int|
                        0 <= j < 10 && b == child_score(sv, #[trigger] ms[j], depth as int, false);
                    lemma_best_min_le(sv, ms, depth as int, 10, j);
                }
            }
            b
        }
    }

    /// Pick the root action: shuffle the candidates to randomize ties,
    /// score each by one forward application plus a minimax search, and
    /// return a candidate of maximal score (`None` is the representable
    /// "no candidate" outcome, never produced here since candidates
    /// always exist).
    pub fn find_best_move(&self) -> (r: Option<Move>)
        requires
            self@.sim_room(SEARCH_DEPTH as int + 1),
        ensures
            r is Some,
            acting_moves(self@, true).contains(r.unwrap()@),
            forall|j: int|
                0 <= j < acting_moves(self@, true).len() ==> root_score(
                    self@,
                    #[trigger] acting_moves(self@, true)[j],
                ) <= root_score(self@, r.unwrap()@),
    {
        let ghost sv = self@;
        let ghost ms = acting_moves(sv, true);
        proof {
            crate::model::lemma_coords_widen(
                sv,
                COORD_MAX - (SEARCH_DEPTH + 1) * COORD_STEP,
                COORD_MAX as int,
            );
            lemma_moves_wf(sv.my_drone.x, sv.my_drone.y);
        }
        let possible_moves = self.get_possible_moves(true);
        let ghost pv = possible_moves@;
        let mut shuffled = possible_moves;
        shuffle_moves(&mut shuffled);
        proof {
            assert(shuffled@.to_multiset().len() == shuffled@.len());
            assert(pv.to_multiset().len() == pv.len());
            assert(shuffled@.len() == pv.len());
        }

        let mut best: Option<Move> = None;
        let mut best_score: i64 = i64::MIN;
        let mut i: usize = 0;
        while i < 10
            invariant
                sv == self@,
                sv.sim_room(SEARCH_DEPTH as int + 1),
                ms == acting_moves(sv, true),
                pv.map_values(|m: Move| m@) == ms,
                ms.len() == 10,
                pv.len() == 10,
                shuffled@.len() == 10,
                shuffled@.to_multiset() == pv.to_multiset(),
                forall|j: int| 0 <= j < 10 ==> move_wf(#[trigger] ms[j]),
                0 <= i <= 10,
                forall|k: int|
                    0 <= k < i ==> root_score(sv, (#[trigger] shuffled@[k])@) <= best_score,
                i == 0 ==> best is None && best_score == i64::MIN,
                i > 0 ==> (best matches Some(bm) && best_score == root_score(sv, bm@)
                    && ms.contains(bm@)),
            decreases 10 - i,
        {
            let mv = shuffled[i];
            proof {
                assert(shuffled@[i as int] == mv);
                assert(shuffled@.contains(mv));
                assert(shuffled@.to_multiset().count(mv) > 0);
                assert(pv.to_multiset().count(mv) > 0);
                assert(pv.contains(mv));
                let idx = choose|idx: int| 0 <= idx < pv.len() && pv[idx] == mv;
                assert(ms[idx] == mv@);
                assert(ms.contains(mv@));
                assert(move_wf(mv@));
                lemma_apply_room(sv, mv@, true, SEARCH_DEPTH as int + 1);
            }
            let child = self.apply_moves(&mv, true);
            let score = child.minimax(SEARCH_DEPTH, i64::MIN, i64::MAX, false);
            proof {
                lemma_minimax_bounds(child@, SEARCH_DEPTH as int, false);
                assert(score == root_score(sv, mv@));
            }
            if score > best_score {
                best_score = score;
                best = Some(mv);
            }
            i += 1;
        }
        proof {
            assert forall|j: int| 0 <= j < ms.len() implies root_score(sv, #[trigger] ms[j])
                <= best_score by {
                assert(pv[j]@ == ms[j]);
                assert(pv.contains(pv[j]));
                assert(pv.to_multiset().count(pv[j]) > 0);
                assert(shuffled@.to_multiset().count(pv[j]) > 0);
                assert(shuffled@.contains(pv[j]));
                let k = choose|k: int| 0 <= k < shuffled@.len() && shuffled@[k] == pv[j];
                assert(root_score(sv, shuffled@[k]@) <= best_score);
            }
        }
        best
    }
}

} // verus!
