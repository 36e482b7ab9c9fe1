//! Planner and follower behaviour on concrete scenarios.

use planner::follower::Follower;
use planner::planner::calculate_angle_change_weight_for_point;
use planner::planner::calculate_avoid_edge_weight_for_point;
use planner::planner::calculate_curvature_weight;
use planner::planner::distance;
use planner::planner::get_possible_next_states;
use planner::planner::Path;
use planner::planner::PathPoint;
use planner::planner::Planner;
use planner::points::GridPointMap;
use planner::points::Point;
use planner::points::PointType;
use planner::points::Pos;
use planner::state::CarState;

fn origin_state() -> CarState {
    CarState { pos: Pos { x: 0, y: 0 }, angle: 0, curvature: 0, speed: 0 }
}

fn obstacle(x: i64, y: i64, id: u32) -> Point {
    Point { pos: Pos { x, y }, expire_at: u64::MAX, point_type: PointType::Obstacle, id }
}

#[test]
fn avoid_edge_weight_formula() {
    let s = origin_state();
    // Beyond the safe distance: no penalty.
    assert_eq!(calculate_avoid_edge_weight_for_point(s, &obstacle(300_000, 0, 1)), 0);
    // 0.1 m away: (250_000 - 100_000) * 3_000_000 / 250_000.
    assert_eq!(calculate_avoid_edge_weight_for_point(s, &obstacle(100_000, 0, 1)), 1_800_000);
    // Standing on the point: the full weight.
    assert_eq!(calculate_avoid_edge_weight_for_point(s, &obstacle(0, 0, 1)), 3_000_000);
}

#[test]
fn curvature_weight_formula() {
    let mut s = origin_state();
    assert_eq!(calculate_curvature_weight(s), 0);
    s.curvature = 600_000;
    assert_eq!(calculate_curvature_weight(s), 28_800);
    s.curvature = -600_000;
    assert_eq!(calculate_curvature_weight(s), 28_800);
    s.curvature = 1_800_000;
    assert_eq!(calculate_curvature_weight(s), 259_200);
    // Any non-zero curvature costs at least one tick.
    s.curvature = 1_001;
    assert!(calculate_curvature_weight(s) >= 1);
}

#[test]
fn marker_weight_depends_on_turn_direction() {
    let left_marker = Point {
        pos: Pos { x: 500_000, y: 0 },
        expire_at: u64::MAX,
        point_type: PointType::ArrowLeft,
        id: 1,
    };
    let right_marker = Point { point_type: PointType::ArrowRight, ..left_marker };
    let mut s = origin_state();
    s.curvature = 1_800_000;
    // A positive-curvature probe orbits the marker clockwise (negative
    // cross product): the left marker matches, the right one does not.
    assert_eq!(calculate_angle_change_weight_for_point(s, &left_marker), 500_000);
    assert_eq!(calculate_angle_change_weight_for_point(s, &right_marker), 0);
    // Markers beyond one meter are ignored.
    let far = Point { pos: Pos { x: 1_200_000, y: 0 }, ..left_marker };
    assert_eq!(calculate_angle_change_weight_for_point(s, &far), 0);
}

#[test]
fn step_cost_sums_terms() {
    let s = origin_state();
    // Empty surroundings: only the depth bias remains.
    assert_eq!(distance(s, None, &Vec::new()), -200_000);
    // A nearby obstacle adds its full penalty at distance zero.
    assert_eq!(distance(s, Some(obstacle(0, 0, 1)), &Vec::new()), 2_800_000);
}

#[test]
fn safety_preference_on_equal_depth() {
    // Two candidate states at equal depth and equal curvature: the one
    // beyond the safe distance must cost strictly less.
    let near = obstacle(0, 0, 1);
    let safe = CarState { pos: Pos { x: 300_000, y: 0 }, angle: 0, curvature: 0, speed: 0 };
    let close = CarState { pos: Pos { x: 100_000, y: 0 }, angle: 0, curvature: 0, speed: 0 };
    let cost_safe = distance(safe, Some(near), &Vec::new());
    let cost_close = distance(close, Some(near), &Vec::new());
    assert!(cost_safe < cost_close);
}

#[test]
fn next_states_span_curvature_options() {
    let states = get_possible_next_states(origin_state());
    let curvatures: Vec<i64> = states.iter().map(|s| s.curvature).collect();
    assert_eq!(
        curvatures,
        vec![-1_800_000, -1_200_000, -600_000, 0, 600_000, 1_200_000, 1_800_000]
    );
}

#[test]
fn planner_terminates_within_step_ceiling() {
    let planner = Planner::with_budget(20_000);
    let map = GridPointMap::new();
    let path = planner.find_path(origin_state(), &map);
    assert!(path.points.len() >= 1);
    assert!(path.points.len() <= 11);
}

#[test]
fn planner_on_empty_map_goes_straight() {
    let planner = Planner::with_budget(50_000);
    let map = GridPointMap::new();
    let path = planner.find_path(origin_state(), &map);
    assert_eq!(path.points.len(), 11);
    for p in path.points.iter() {
        assert_eq!(p.curvature, 0);
        assert_eq!(p.angle, 0);
    }
    let last = &path.points[10];
    assert_eq!(last.pos, Pos { x: 2_000_000, y: 0 });
}

#[test]
fn planner_steers_away_from_obstacle_ahead() {
    let planner = Planner::with_budget(50_000);
    let mut map = GridPointMap::new();
    map.add_points(&vec![obstacle(200_000, 0, 1)]);
    let path = planner.find_path(origin_state(), &map);
    assert!(path.points.len() >= 2);
    assert_ne!(path.points[1].curvature, 0);
}

#[test]
fn follower_averages_lookahead_curvature() {
    let mk = |curvature: i64| PathPoint { pos: Pos { x: 0, y: 0 }, angle: 0, curvature };
    let path = Path {
        points: vec![mk(600_000), mk(600_000), mk(1_200_000), mk(0), mk(0), mk(1_800_000)],
    };
    let follower = Follower::new();
    let cmd = follower.command_to_follow_path(&path);
    // Average of the first five samples only.
    assert_eq!(cmd.curvature, 480_000);
    assert_eq!(cmd.speed, 200_000);
}

#[test]
fn follower_on_short_and_empty_paths() {
    let follower = Follower::new();
    let empty = Path { points: Vec::new() };
    let cmd = follower.command_to_follow_path(&empty);
    assert_eq!(cmd.curvature, 0);
    assert_eq!(cmd.speed, 200_000);
    let short = Path {
        points: vec![
            PathPoint { pos: Pos { x: 0, y: 0 }, angle: 0, curvature: 900_000 },
            PathPoint { pos: Pos { x: 0, y: 0 }, angle: 0, curvature: 300_000 },
        ],
    };
    let cmd2 = follower.command_to_follow_path(&short);
    assert_eq!(cmd2.curvature, 600_000);
}
