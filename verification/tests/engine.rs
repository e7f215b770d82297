use seabed_agent::model::{Creature, Drone, GameState};
use seabed_agent::model::{MAX_BATTERY, MIN_BATTERY};

fn creature(id: i32, color: i32, t: i32, x: i32, y: i32) -> Creature {
    Creature { id, color, _type: t, x: Some(x), y: Some(y), vx: Some(0), vy: Some(0) }
}

fn hidden_creature(id: i32, color: i32, t: i32) -> Creature {
    Creature { id, color, _type: t, x: None, y: None, vx: None, vy: None }
}

fn drone(id: i32, x: i32, y: i32, battery: i32, is_mine: bool) -> Drone {
    Drone { id, x, y, emergency: 0, battery, is_mine }
}

fn state(creatures: Vec<Creature>, my: Drone, foe: Drone) -> GameState {
    GameState {
        was_type_0_achieved: false,
        was_type_1_achieved: false,
        was_type_2_achieved: false,
        was_1_of_each_achieved: false,
        was_all_colors_achieved: false,
        my_score: 0,
        foe_score: 0,
        my_scan_count: 0,
        foe_scan_count: 0,
        creatures,
        my_drone: my,
        their_drone: foe,
        radar_blips: Vec::new(),
        scans: Vec::new(),
    }
}

fn wait_move(light: bool) -> seabed_agent::model::Move {
    seabed_agent::model::Move { should_move: false, x: None, y: None, light }
}

#[test]
fn creature_base_scores() {
    assert_eq!(creature(1, 0, 0, 0, 0).get_score(), 1);
    assert_eq!(creature(1, 0, 1, 0, 0).get_score(), 2);
    assert_eq!(creature(1, 0, 2, 0, 0).get_score(), 3);
    assert_eq!(creature(1, 0, 7, 0, 0).get_score(), 0);
}

#[test]
fn scan_within_base_radius() {
    // Drone waits (sinks to y=300); creature sits 500 units away from the
    // post-move position, light off: within the 800 base radius, scanned.
    let s = state(
        vec![creature(1, 0, 0, 300, 700)],
        drone(10, 0, 0, 20, true),
        drone(20, 9000, 9000, 20, false),
    );
    let s2 = s.apply_moves(&wait_move(false), true);
    assert_eq!(s2.scans, vec![(10, 1)]);
    assert_eq!(s2.my_scan_count, 1);
    // Base point 1, doubled as the first-ever scan of type 0.
    assert_eq!(s2.my_score, 2);
    assert!(s2.was_type_0_achieved);
    assert!(!s2.was_type_1_achieved);
    assert!(!s2.was_all_colors_achieved);
    assert!(!s2.was_1_of_each_achieved);
    // The original state is untouched.
    assert_eq!(s.my_score, 0);
    assert_eq!(s.scans.len(), 0);
    assert_eq!(s.my_drone.y, 0);
}

#[test]
fn no_scan_outside_both_radii_light_off() {
    // 1500 units away from the post-move position, light off: no scan.
    let s = state(
        vec![creature(1, 0, 0, 900, 1500)],
        drone(10, 0, 0, 20, true),
        drone(20, 9000, 9000, 20, false),
    );
    let s2 = s.apply_moves(&wait_move(false), true);
    assert_eq!(s2.scans.len(), 0);
    assert_eq!(s2.my_score, 0);
    assert_eq!(s2.my_scan_count, 0);
    assert!(!s2.was_type_0_achieved);
}

#[test]
fn scan_within_powered_radius_light_on() {
    // Same 1500-unit setup with the light on: within the 2000 powered
    // radius, scanned; the light costs 5 battery.
    let s = state(
        vec![creature(1, 0, 0, 900, 1500)],
        drone(10, 0, 0, 20, true),
        drone(20, 9000, 9000, 20, false),
    );
    let s2 = s.apply_moves(&wait_move(true), true);
    assert_eq!(s2.scans, vec![(10, 1)]);
    assert_eq!(s2.my_score, 2);
    assert_eq!(s2.my_drone.battery, 15);
}

#[test]
fn all_types_of_color_bonus_once_and_doubled() {
    // Types 0 and 1 of color 0 already scanned; scanning the final type 2
    // adds base 3 doubled (first type-2 scan) plus the all-types bonus 3,
    // itself doubled on first trigger: 6 + 6 = 12.
    let mut s = state(
        vec![
            hidden_creature(1, 0, 0),
            hidden_creature(2, 0, 1),
            creature(3, 0, 2, 300, 700),
        ],
        drone(10, 0, 0, 20, true),
        drone(20, 9000, 9000, 20, false),
    );
    s.scans.push((10, 1));
    s.scans.push((10, 2));
    s.was_type_0_achieved = true;
    s.was_type_1_achieved = true;
    let s2 = s.apply_moves(&wait_move(false), true);
    assert_eq!(s2.my_score, 12);
    assert!(s2.was_type_2_achieved);
    assert!(s2.was_all_colors_achieved);
    // Scanning nothing further changes neither score nor flags.
    let s3 = s2.apply_moves(&wait_move(false), true);
    assert_eq!(s3.my_score, 12);
    assert!(s3.was_all_colors_achieved);
}

#[test]
fn scans_and_flags_are_monotone() {
    let s = state(
        vec![creature(1, 0, 0, 300, 700), creature(2, 1, 1, 5000, 5000)],
        drone(10, 0, 0, 20, true),
        drone(20, 9000, 9000, 20, false),
    );
    let s2 = s.apply_moves(&wait_move(false), true);
    let s3 = s2.apply_moves(&wait_move(true), true);
    // Every recorded pair stays recorded; counts never decrease.
    for p in &s2.scans {
        assert!(s3.scans.contains(p));
    }
    assert!(s3.my_scan_count >= s2.my_scan_count);
    assert!(s3.foe_scan_count >= s2.foe_scan_count);
    assert!(!s2.was_type_0_achieved || s3.was_type_0_achieved);
}

#[test]
fn battery_stays_in_range_for_all_light_sequences() {
    let mut s = state(
        vec![creature(1, 0, 0, 9000, 200)],
        drone(10, 0, 5000, 2, true),
        drone(20, 9000, 9000, 29, false),
    );
    let lights = [true, true, true, false, true, false, false, true, true, true];
    for (i, &light) in lights.iter().enumerate() {
        let mine = i % 2 == 0;
        s = s.apply_moves(&wait_move(light), mine);
        assert!(s.my_drone.battery >= MIN_BATTERY && s.my_drone.battery <= MAX_BATTERY);
        assert!(s.their_drone.battery >= MIN_BATTERY && s.their_drone.battery <= MAX_BATTERY);
    }
    // Regain is capped at the maximum.
    let mut t = state(
        vec![creature(1, 0, 0, 9000, 200)],
        drone(10, 0, 5000, 30, true),
        drone(20, 9000, 9000, 0, false),
    );
    t = t.apply_moves(&wait_move(false), true);
    assert_eq!(t.my_drone.battery, 30);
    // Cost is floored at the minimum.
    let mut u = state(
        vec![creature(1, 0, 0, 9000, 200)],
        drone(10, 0, 5000, 3, true),
        drone(20, 9000, 9000, 0, false),
    );
    u = u.apply_moves(&wait_move(true), true);
    assert_eq!(u.my_drone.battery, 0);
}

#[test]
fn move_generator_yields_ten_clamped_candidates() {
    let s = state(
        vec![creature(1, 0, 0, 300, 700)],
        drone(10, 5000, 5000, 20, true),
        drone(20, 9000, 9000, 20, false),
    );
    let ms = s.get_possible_moves(true);
    assert_eq!(ms.len(), 10);
    let mut moves = 0;
    let mut waits = 0;
    for m in &ms {
        if m.should_move {
            moves += 1;
            let x = m.x.unwrap();
            let y = m.y.unwrap();
            assert!((0..=10000).contains(&x));
            assert!((0..=10000).contains(&y));
        } else {
            waits += 1;
        }
    }
    assert_eq!(moves, 8);
    assert_eq!(waits, 2);
}

#[test]
fn move_generator_clamps_at_corner() {
    let s = state(
        vec![creature(1, 0, 0, 300, 700)],
        drone(10, 0, 0, 20, true),
        drone(20, 10000, 10000, 20, false),
    );
    let ms = s.get_possible_moves(true);
    assert_eq!(ms.len(), 10);
    for m in &ms {
        if m.should_move {
            let x = m.x.unwrap();
            let y = m.y.unwrap();
            assert!((0..=10000).contains(&x));
            assert!((0..=10000).contains(&y));
        }
    }
    // The first candidate from (0, 0) aims at (600, 600); the opposite
    // diagonal is clamped to the corner itself.
    assert_eq!((ms[0].x.unwrap(), ms[0].y.unwrap()), (600, 600));
    assert_eq!((ms[2].x.unwrap(), ms[2].y.unwrap()), (0, 0));
    // Same at the far corner for the opponent's drone.
    let mf = s.get_possible_moves(false);
    assert_eq!((mf[0].x.unwrap(), mf[0].y.unwrap()), (10000, 10000));
}

#[test]
fn emphasize_value_at_zero_and_monotone() {
    assert_eq!(seabed_agent::evaluate::emphasize_value(0), -1500);
    let a = seabed_agent::evaluate::emphasize_value(100);
    let b = seabed_agent::evaluate::emphasize_value(1000);
    let c = seabed_agent::evaluate::emphasize_value(100000);
    assert!(a < b && b < c);
    assert!(a > 0);
}

#[test]
fn evaluate_is_zero_on_a_symmetric_state() {
    // Equal scores, no flags, and both drones equally far from the only
    // creature: the distance terms cancel exactly.
    let s = state(
        vec![creature(1, 0, 0, 5000, 5000)],
        drone(10, 4000, 5000, 20, true),
        drone(20, 6000, 5000, 20, false),
    );
    assert_eq!(s.evaluate(), 0);
    // A score lead dominates.
    let mut t = state(
        vec![creature(1, 0, 0, 5000, 5000)],
        drone(10, 4000, 5000, 20, true),
        drone(20, 6000, 5000, 20, false),
    );
    t.my_score = 1;
    assert_eq!(t.evaluate(), 100000);
}

#[test]
fn minimax_depth_one_matches_exhaustive_children() {
    // At depth 1 the pruned search must equal the plain maximum of the
    // evaluator over all ten applied candidates.
    let s = state(
        vec![creature(1, 0, 0, 2000, 2000), creature(2, 1, 1, 7000, 7000)],
        drone(10, 1000, 1000, 20, true),
        drone(20, 8000, 8000, 20, false),
    );
    let mut exhaustive = i64::MIN;
    for m in &s.get_possible_moves(true) {
        let child = s.apply_moves(m, true);
        let v = child.evaluate();
        if v > exhaustive {
            exhaustive = v;
        }
    }
    let pruned = s.minimax(1, i64::MIN, i64::MAX, true);
    assert_eq!(pruned, exhaustive);

    // Same for a minimizing ply over the opponent's candidates.
    let mut exhaustive_min = i64::MAX;
    for m in &s.get_possible_moves(false) {
        let child = s.apply_moves(m, false);
        let v = child.evaluate();
        if v < exhaustive_min {
            exhaustive_min = v;
        }
    }
    let pruned_min = s.minimax(1, i64::MIN, i64::MAX, false);
    assert_eq!(pruned_min, exhaustive_min);
}

#[test]
fn minimax_depth_two_matches_exhaustive_tree() {
    // Depth 2: my move then the opponent's reply. The pruned search must
    // equal the exhaustive max-of-min over the full 10x10 tree.
    let s = state(
        vec![creature(1, 0, 0, 2500, 1800), creature(2, 2, 1, 6500, 7200)],
        drone(10, 2000, 2000, 12, true),
        drone(20, 7000, 7000, 25, false),
    );
    let mut exhaustive = i64::MIN;
    for m in &s.get_possible_moves(true) {
        let mid = s.apply_moves(m, true);
        let mut worst = i64::MAX;
        for o in &mid.get_possible_moves(false) {
            let leaf = mid.apply_moves(o, false);
            let v = leaf.evaluate();
            if v < worst {
                worst = v;
            }
        }
        if worst > exhaustive {
            exhaustive = worst;
        }
    }
    let pruned = s.minimax(2, i64::MIN, i64::MAX, true);
    assert_eq!(pruned, exhaustive);
}

#[test]
fn find_best_move_returns_a_candidate() {
    let s = state(
        vec![creature(1, 0, 0, 2000, 2000)],
        drone(10, 1000, 1000, 20, true),
        drone(20, 8000, 8000, 20, false),
    );
    let best = s.find_best_move().expect("candidates always exist");
    let candidates = s.get_possible_moves(true);
    assert!(candidates.iter().any(|m| m.should_move == best.should_move && m.x == best.x
        && m.y == best.y && m.light == best.light));
}

#[test]
fn scan_queries_match_scan_records() {
    let mut s = state(
        vec![
            hidden_creature(1, 0, 0),
            hidden_creature(2, 0, 1),
            hidden_creature(3, 0, 2),
            hidden_creature(4, 1, 0),
            hidden_creature(5, 2, 0),
            hidden_creature(6, 3, 0),
        ],
        drone(10, 0, 0, 20, true),
        drone(20, 9000, 9000, 20, false),
    );
    for id in [1, 2, 3] {
        s.scans.push((10, id));
    }
    assert!(s.has_scanned_all_creatures_of_color_for(0, 10));
    assert!(!s.has_scanned_all_creatures_of_color_for(0, 20));
    assert!(!s.has_scanned_one_of_each_for(0, 10));
    for id in [4, 5, 6] {
        s.scans.push((10, id));
    }
    assert!(s.has_scanned_one_of_each_for(0, 10));
    assert!(!s.has_scanned_one_of_each_for(1, 10));
}

#[test]
fn new_game_starts_clean() {
    let s = GameState::new(
        vec![hidden_creature(1, 0, 0), hidden_creature(2, 1, 2)],
        drone(10, 0, 0, 30, true),
        drone(20, 0, 0, 30, false),
    );
    assert_eq!(s.my_score, 0);
    assert_eq!(s.foe_score, 0);
    assert_eq!(s.scans.len(), 0);
    assert!(!s.was_type_0_achieved && !s.was_all_colors_achieved);
    assert_eq!(s.creatures.len(), 2);
    assert!(s.creatures[0].x.is_none());
}

#[test]
fn update_state_overlays_and_records() {
    let mut s = GameState::new(
        vec![hidden_creature(1, 0, 0), hidden_creature(2, 1, 2)],
        drone(10, 0, 0, 30, true),
        drone(20, 0, 0, 30, false),
    );
    let visible = vec![creature(2, 1, 2, 4000, 4500)];
    s.update_state(
        7,
        3,
        &vec![2],
        &vec![1, 1],
        drone(10, 1000, 1200, 25, true),
        drone(20, 8000, 8000, 28, false),
        &visible,
        Vec::new(),
    );
    assert_eq!(s.my_score, 7);
    assert_eq!(s.foe_score, 3);
    assert_eq!(s.my_scan_count, 1);
    assert_eq!(s.foe_scan_count, 2);
    assert_eq!(s.my_drone.x, 1000);
    assert_eq!(s.their_drone.battery, 28);
    // The visible creature takes its fresh kinematics; the other stays unknown.
    assert_eq!(s.creatures[1].x, Some(4000));
    assert_eq!(s.creatures[1].y, Some(4500));
    assert!(s.creatures[0].x.is_none());
    // Scan events are recorded once per pair, under the right drone.
    assert!(s.scans.contains(&(10, 2)));
    assert!(s.scans.contains(&(20, 1)));
    assert_eq!(s.scans.len(), 2);
}

#[test]
fn moving_steps_at_capped_speed_toward_target() {
    // A move 600 units long toward a far target moves the drone exactly
    // the move speed along the axis.
    let s = state(
        vec![creature(1, 0, 0, 9900, 200)],
        drone(10, 1000, 1000, 20, true),
        drone(20, 9000, 9000, 20, false),
    );
    let m = seabed_agent::model::Move { should_move: true, x: Some(1600), y: Some(1000), light: false };
    let s2 = s.apply_moves(&m, true);
    assert_eq!(s2.my_drone.x, 1600);
    assert_eq!(s2.my_drone.y, 1000);
    // A target at the current position leaves the drone in place.
    let stay = seabed_agent::model::Move { should_move: true, x: Some(1000), y: Some(1000), light: false };
    let s3 = s.apply_moves(&stay, true);
    assert_eq!(s3.my_drone.x, 1000);
    assert_eq!(s3.my_drone.y, 1000);
}

#[test]
fn creatures_advance_by_velocity() {
    let mut c = creature(1, 0, 0, 5000, 5000);
    c.vx = Some(200);
    c.vy = Some(-100);
    let s = state(
        vec![c],
        drone(10, 0, 0, 20, true),
        drone(20, 9000, 9000, 20, false),
    );
    let s2 = s.apply_moves(&wait_move(false), true);
    assert_eq!(s2.creatures[0].x, Some(5200));
    assert_eq!(s2.creatures[0].y, Some(4900));
    // The original state still holds the old position.
    assert_eq!(s.creatures[0].x, Some(5000));
}
