//! Vehicle kinematics and point-map behaviour on concrete values.

use planner::points::GridPointMap;
use planner::points::Point;
use planner::points::PointType;
use planner::points::Pos;
use planner::state::CarState;

fn obstacle(x: i64, y: i64, id: u32, expire_at: u64) -> Point {
    Point { pos: Pos { x, y }, expire_at, point_type: PointType::Obstacle, id }
}

#[test]
fn straight_step_is_exact_translation() {
    let s = CarState { pos: Pos { x: 0, y: 0 }, angle: 0, curvature: 0, speed: 0 };
    let r = s.step_distance(200_000);
    assert_eq!(r.pos, Pos { x: 200_000, y: 0 });
    assert_eq!(r.angle, 0);
    assert_eq!(r.curvature, 0);
}

#[test]
fn straight_step_below_epsilon_is_straight() {
    // Curvature below the straight-segment threshold behaves exactly like zero.
    let s = CarState { pos: Pos { x: 50_000, y: -20_000 }, angle: 0, curvature: 999, speed: 0 };
    let r = s.step_distance(300_000);
    assert_eq!(r.pos, Pos { x: 350_000, y: -20_000 });
}

#[test]
fn curved_step_matches_chord_equations() {
    // c = 1.8/m over 0.2 m: the exact fixed-point chord displacement.
    let s = CarState { pos: Pos { x: 0, y: 0 }, angle: 0, curvature: 1_800_000, speed: 0 };
    let r = s.step_distance(200_000);
    assert_eq!(r.pos, Pos { x: 195_707, y: 35_613 });
    assert_eq!(r.angle, 360_000);
}

#[test]
fn curved_step_round_trip_returns_near_origin() {
    let s = CarState { pos: Pos { x: 0, y: 0 }, angle: 0, curvature: 1_200_000, speed: 0 };
    let out = s.step_distance(200_000);
    let back = out.step_distance(-200_000);
    assert!(back.pos.x.abs() <= 10);
    assert!(back.pos.y.abs() <= 10);
    assert_eq!(back.angle, 0);
}

#[test]
fn step_split_straight_is_exact() {
    let s = CarState { pos: Pos { x: 0, y: 0 }, angle: 0, curvature: 0, speed: 0 };
    let direct = s.step_distance(300_000);
    let split = s.step_distance(100_000).step_distance(200_000);
    assert_eq!(direct, split);
}

#[test]
fn step_split_curved_is_consistent_within_tolerance() {
    let s = CarState { pos: Pos { x: 0, y: 0 }, angle: 500_000, curvature: 600_000, speed: 0 };
    let direct = s.step_distance(300_000);
    let split = s.step_distance(100_000).step_distance(200_000);
    assert!((direct.pos.x - split.pos.x).abs() <= 10);
    assert!((direct.pos.y - split.pos.y).abs() <= 10);
    assert_eq!(direct.angle, split.angle);
}

#[test]
fn compose_accumulates_increment() {
    let base = CarState { pos: Pos { x: 100_000, y: 0 }, angle: 0, curvature: 0, speed: 0 };
    let inc = CarState {
        pos: Pos { x: 50_000, y: 10_000 },
        angle: 30_000,
        curvature: 600_000,
        speed: 200_000,
    };
    let r = base.compose(inc);
    assert_eq!(r.pos, Pos { x: 150_000, y: 10_000 });
    assert_eq!(r.angle, 30_000);
    assert_eq!(r.curvature, 600_000);
    assert_eq!(r.speed, 200_000);
}

#[test]
fn distance_is_euclidean_floor() {
    let a = Pos { x: 0, y: 0 };
    let b = Pos { x: 3_000, y: 4_000 };
    assert_eq!(a.dist(b), 5_000);
    let c = Pos { x: 1, y: 1 };
    assert_eq!(a.dist(c), 1); // floor of sqrt(2)
}

#[test]
fn area_query_is_exact_across_cell_edges() {
    let mut map = GridPointMap::new();
    // Points straddling cell boundaries (cell size 100_000).
    let inside1 = obstacle(99_999, 0, 1, u64::MAX);
    let inside2 = obstacle(100_001, 0, 2, u64::MAX);
    let inside3 = obstacle(-99_999, -99_999, 3, u64::MAX);
    let on_edge = obstacle(150_000, 0, 4, u64::MAX); // dist == radius: excluded
    let outside = obstacle(150_001, 0, 5, u64::MAX);
    let pts = vec![inside1, inside2, inside3, on_edge, outside];
    map.add_points(&pts);
    let got = map.get_points_in_area(Pos { x: 0, y: 0 }, 150_000);
    let mut ids: Vec<u32> = got.iter().map(|p| p.id).collect();
    ids.sort();
    assert_eq!(ids, vec![1, 2, 3]);
}

#[test]
fn area_query_empty_map_is_empty() {
    let map = GridPointMap::new();
    let got = map.get_points_in_area(Pos { x: 0, y: 0 }, 400_000);
    assert!(got.is_empty());
}

#[test]
fn area_query_ignores_markers() {
    let mut map = GridPointMap::new();
    let marker = Point {
        pos: Pos { x: 10_000, y: 0 },
        expire_at: u64::MAX,
        point_type: PointType::ArrowLeft,
        id: 7,
    };
    map.add_points(&vec![marker]);
    let got = map.get_points_in_area(Pos { x: 0, y: 0 }, 150_000);
    assert!(got.is_empty());
    let arrows = map.get_arrow_points();
    assert_eq!(arrows.len(), 1);
    assert_eq!(arrows[0].id, 7);
}

#[test]
fn nearest_point_picks_closest_obstacle() {
    let mut map = GridPointMap::new();
    let near = obstacle(150_000, 0, 1, u64::MAX);
    let far = obstacle(350_000, 0, 2, u64::MAX);
    map.add_points(&vec![far, near]);
    let got = map.get_nearest_point(Pos { x: 0, y: 0 }).expect("a point within range");
    assert_eq!(got.id, 1);
}

#[test]
fn nearest_point_gives_up_past_four_cells() {
    let mut map = GridPointMap::new();
    map.add_points(&vec![obstacle(450_000, 0, 1, u64::MAX)]);
    assert!(map.get_nearest_point(Pos { x: 0, y: 0 }).is_none());
}

#[test]
fn count_in_area_is_single_cell() {
    let mut map = GridPointMap::new();
    map.add_points(&vec![
        obstacle(10_000, 10_000, 1, u64::MAX),
        obstacle(90_000, 90_000, 2, u64::MAX),
        obstacle(110_000, 10_000, 3, u64::MAX), // neighbouring cell
    ]);
    assert_eq!(map.get_count_in_area(Pos { x: 50_000, y: 50_000 }), 2);
    assert_eq!(map.get_count_in_area(Pos { x: 150_000, y: 50_000 }), 1);
    assert_eq!(map.get_count_in_area(Pos { x: -50_000, y: 0 }), 0);
}

#[test]
fn eviction_is_idempotent() {
    let mut map = GridPointMap::new();
    map.add_points(&vec![
        obstacle(10_000, 0, 1, 1_000),     // expires at t=1000
        obstacle(20_000, 0, 2, 5_000_000), // lives on
    ]);
    map.remove(2_000);
    let first = map.get_last_removed_ids();
    assert_eq!(first, vec![1]);
    map.remove(2_000);
    let second = map.get_last_removed_ids();
    assert!(second.is_empty());
    let left = map.get_points_in_area(Pos { x: 0, y: 0 }, 100_000);
    assert_eq!(left.len(), 1);
    assert_eq!(left[0].id, 2);
}

#[test]
fn removed_ids_are_previously_added_and_gone() {
    let mut map = GridPointMap::new();
    let p1 = obstacle(10_000, 0, 11, 1_000);
    let p2 = obstacle(20_000, 0, 22, u64::MAX);
    let marker = Point {
        pos: Pos { x: 0, y: 0 },
        expire_at: 500,
        point_type: PointType::ArrowRight,
        id: 33,
    };
    map.add_points(&vec![p1, p2, marker]);
    map.remove(10_000);
    let mut drained = map.get_last_removed_ids();
    drained.sort();
    // Every drained identifier was added earlier, and its point is gone.
    assert_eq!(drained, vec![11, 33]);
    let around = map.get_points_in_area(Pos { x: 10_000, y: 0 }, 50_000);
    assert!(around.iter().all(|p| p.id != 11));
    assert!(map.get_arrow_points().is_empty());
    // Draining also clears the buffer.
    assert!(map.get_last_removed_ids().is_empty());
}

#[test]
fn rotate_at_zero_angle_is_identity() {
    let p = Pos { x: 123_456, y: -654_321 };
    assert_eq!(p.rotate(0), p);
}

#[test]
fn rotate_quarter_turn_swaps_axes_approximately() {
    let p = Pos { x: 1_000_000, y: 0 };
    // pi/2 in microradians; the fixed-point result is within a few
    // micrometers of (0, 1 m).
    let r = p.rotate(1_570_796);
    assert!(r.x.abs() <= 50);
    assert!((r.y - 1_000_000).abs() <= 50);
}

#[test]
fn lerp_and_dist_along_interpolate() {
    let a = Pos { x: 0, y: 0 };
    let b = Pos { x: 1_000_000, y: 0 };
    assert_eq!(a.lerp(b, 0), a);
    assert_eq!(a.lerp(b, 1_000_000), b);
    assert_eq!(a.lerp(b, 250_000), Pos { x: 250_000, y: 0 });
    assert_eq!(a.dist_along(b, 300_000), Pos { x: 300_000, y: 0 });
}
