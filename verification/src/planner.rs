//! Time-budgeted best-first trajectory search.
//!
//! Each invocation is self-contained: from the current vehicle state the
//! search repeatedly expands the cheapest open node into seven curvature
//! options, one fixed arc-length step each, and reports the deepest node
//! reached within the wall-clock budget (ties broken by lower cost).

use vstd::prelude::*;

use crate::math::tdiv;
use crate::math::SCALE;
use crate::points::GridPointMap;
use crate::points::Point;
use crate::points::PointType;
use crate::points::Pos;
use crate::state::CarState;

verus! {

/// Arc length of one search step: 0.2 m.
pub const PLAN_STEP_SIZE: i64 = 200_000;

/// Planned horizon: 2 m, i.e. ten steps.
pub const PLAN_MAX_STEPS: usize = 10;

/// Largest commanded curvature: 1.8 per meter.
pub const MAX_CURVATURE: i64 = 1_800_000;

/// Distance under which a boundary or obstacle point starts to cost: 0.25 m.
pub const EDGE_MAX_DIST: i64 = 250_000;

/// Cost of standing exactly on a boundary or obstacle point.
pub const EDGE_MAX_WEIGHT: i64 = 3_000_000;

/// Cost applied when the probe step orbits a direction marker its mandated
/// way.
pub const DIRECTION_WEIGHT: i64 = 500_000;

/// Direction markers farther than this are ignored: 1 m.
pub const MARKER_MAX_DIST: i64 = 1_000_000;

/// Arc length of the probe step used to read the orbit direction: 0.1 m.
pub const PROBE_STEP: i64 = 100_000;

/// Numerator of the curvature smoothness penalty: 0.4 times the step size,
/// in fixed-point ticks.
pub const CURV_WEIGHT_FACTOR: i64 = 80_000;

/// Reward for depth, per step: makes the search prefer long trajectories
/// over merely cheap ones.
pub const STEP_BIAS: i64 = 200_000;

/// Largest magnitude of a single step's cost.
pub const STEP_COST_LIMIT: i64 = 12_000_000;

/// Penalty that rises linearly from zero at `EDGE_MAX_DIST` to
/// `EDGE_MAX_WEIGHT` at distance zero from the given point.
pub open spec fn spec_avoid_edge_weight(state: CarState, point: Point) -> int {
    let d = state.pos.spec_dist(point.pos);
    if d >= EDGE_MAX_DIST {
        0
    } else {
        (EDGE_MAX_DIST - d) * EDGE_MAX_WEIGHT / (EDGE_MAX_DIST as int)
    }
}

/// Weight to make the search stay away from boundaries and obstacles.
pub fn calculate_avoid_edge_weight_for_point(state: CarState, point: &Point) -> (r: i64)
    requires
        state.wf(),
        point.wf(),
    ensures
        r == spec_avoid_edge_weight(state, *point),
        0 <= r <= EDGE_MAX_WEIGHT,
{
    let d = state.pos.dist(point.pos);
    if d >= EDGE_MAX_DIST {
        0
    } else {
        let w = (EDGE_MAX_DIST - d) * EDGE_MAX_WEIGHT;
        proof {
            vstd::arithmetic::div_mod::lemma_div_pos_is_pos(w as int, EDGE_MAX_DIST as int);
            vstd::arithmetic::div_mod::lemma_div_is_ordered(
                w as int,
                EDGE_MAX_DIST as int * EDGE_MAX_WEIGHT as int,
                EDGE_MAX_DIST as int,
            );
            vstd::arithmetic::div_mod::lemma_div_multiples_vanish(
                EDGE_MAX_WEIGHT as int,
                EDGE_MAX_DIST as int,
            );
        }
        w / EDGE_MAX_DIST
    }
}

/// The sign of the z component of the cross product of the two offsets:
/// positive when the turn from `before` to `after` is counterclockwise.
pub open spec fn spec_turn_sign(before: Pos, after: Pos) -> int {
    let cross = before.x * after.y - before.y * after.x;
    if cross > 0 {
        1
    } else if cross < 0 {
        -1
    } else {
        0
    }
}

/// Weight applied near a direction marker: the vehicle's angular position
/// about the marker is compared before and after a short probe step, and
/// the fixed weight applies iff the signed change matches the marker's
/// mandated turn direction.  Markers farther than `MARKER_MAX_DIST` are
/// ignored.
pub open spec fn spec_angle_change_weight(state: CarState, marker: Point) -> int {
    if state.pos.spec_dist(marker.pos) > MARKER_MAX_DIST {
        0
    } else {
        let before = state.pos.spec_minus(marker.pos);
        let after = state.spec_step_distance(PROBE_STEP as int).pos.spec_minus(marker.pos);
        let sign = spec_turn_sign(before, after);
        let matches_marker = (marker.point_type == PointType::ArrowLeft && sign == -1) || (
        marker.point_type == PointType::ArrowRight && sign == 1);
        if matches_marker {
            DIRECTION_WEIGHT as int
        } else {
            0
        }
    }
}

/// Weight to make the search go the mandated way around direction markers.
pub fn calculate_angle_change_weight_for_point(state: CarState, marker: &Point) -> (r: i64)
    requires
        state.wf(),
        marker.wf(),
    ensures
        r == spec_angle_change_weight(state, *marker),
        0 <= r <= DIRECTION_WEIGHT,
{
    if state.pos.dist(marker.pos) > MARKER_MAX_DIST {
        return 0;
    }
    let before = state.pos.minus(marker.pos);
    let after_state = state.step_distance(PROBE_STEP);
    let after = after_state.pos.minus(marker.pos);
    proof {
        assert(-4_000_000_000_000_000_000_000_000 <= before.x as int * after.y as int
            <= 4_000_000_000_000_000_000_000_000 && -4_000_000_000_000_000_000_000_000
            <= before.y as int * after.x as int <= 4_000_000_000_000_000_000_000_000)
            by (nonlinear_arith)
            requires
                -2_000_000_000_000 <= before.x <= 2_000_000_000_000,
                -2_000_000_000_000 <= before.y <= 2_000_000_000_000,
                -2_000_000_000_000 <= after.x <= 2_000_000_000_000,
                -2_000_000_000_000 <= after.y <= 2_000_000_000_000,
        ;
    }
    let cross: i128 = (before.x as i128) * (after.y as i128) - (before.y as i128) * (
    after.x as i128);
    let sign: i64 = if cross > 0 {
        1
    } else if cross < 0 {
        -1
    } else {
        0
    };
    let matches_marker = (marker.point_type == PointType::ArrowLeft && sign == -1) || (
    marker.point_type == PointType::ArrowRight && sign == 1);
    if matches_marker {
        DIRECTION_WEIGHT
    } else {
        0
    }
}

/// Smoothness penalty: grows with the square of the curvature, and is
/// strictly positive for any non-zero curvature, so straight driving is
/// never penalized and sharp turns cost more than shallow ones.
pub open spec fn spec_curvature_weight(state: CarState) -> int {
    let c = state.curvature as int;
    if c == 0 {
        0
    } else {
        let w = tdiv(tdiv(c * c, SCALE as int) * CURV_WEIGHT_FACTOR, SCALE as int);
        if w < 1 {
            1
        } else {
            w
        }
    }
}

/// Weight to make the search take long shallow turns over short sharp ones.
pub fn calculate_curvature_weight(state: CarState) -> (r: i64)
    requires
        state.wf(),
    ensures
        r == spec_curvature_weight(state),
        0 <= r <= 8_000_000,
        state.curvature == 0 ==> r == 0,
        state.curvature != 0 ==> r >= 1,
{
    let c = state.curvature;
    if c == 0 {
        return 0;
    }
    proof {
        assert(0 <= c as int * c as int <= 100_000_000_000_000) by (nonlinear_arith)
            requires
                -10_000_000 <= c <= 10_000_000,
        ;
        crate::math::lemma_div_is_ordered_pos(c as int * c as int, 100_000_000_000_000, SCALE as int);
        assert(0 <= tdiv(c as int * c as int, SCALE as int) * CURV_WEIGHT_FACTOR as int
            <= 8_000_000_000_000) by (nonlinear_arith)
            requires
                0 <= tdiv(c as int * c as int, SCALE as int) <= 100_000_000,
                CURV_WEIGHT_FACTOR == 80_000,
        ;
        crate::math::lemma_div_is_ordered_pos(
            tdiv(c as int * c as int, SCALE as int) * CURV_WEIGHT_FACTOR as int,
            8_000_000_000_000,
            SCALE as int,
        );
    }
    let sq: i64 = c * c;
    let sq_scaled: i64 = sq / SCALE;
    let w: i64 = (sq_scaled * CURV_WEIGHT_FACTOR) / SCALE;
    if w < 1 {
        1
    } else {
        w
    }
}

/// The largest marker weight over a list of direction markers, zero when
/// there are none.
pub open spec fn spec_max_marker_weight(state: CarState, markers: Seq<Point>) -> int
    decreases markers.len(),
{
    if markers.len() == 0 {
        0
    } else {
        let rest = spec_max_marker_weight(state, markers.drop_last());
        let w = spec_angle_change_weight(state, markers.last());
        if w > rest {
            w
        } else {
            rest
        }
    }
}

/// Cost of one candidate step: a fixed negative bias that rewards depth,
/// plus the proximity penalty for the nearest obstacle (when one is
/// known), the best marker weight, and the smoothness penalty.
pub open spec fn spec_step_cost(
    state: CarState,
    nearest: Option<Point>,
    markers: Seq<Point>,
) -> int {
    -STEP_BIAS + (match nearest {
        Some(p) => spec_avoid_edge_weight(state, p),
        None => 0,
    }) + spec_max_marker_weight(state, markers) + spec_curvature_weight(state)
}

/// The traversability cost of one search step.
pub fn distance(state: CarState, closest_point_to_avoid: Option<Point>, arrow_points: &Vec<
    Point,
>) -> (r: i64)
    requires
        state.wf(),
        (closest_point_to_avoid matches Some(p) ==> p.wf()),
        forall|j: int| 0 <= j < arrow_points@.len() ==> (#[trigger] arrow_points@[j]).wf(),
    ensures
        r == spec_step_cost(state, closest_point_to_avoid, arrow_points@),
        -STEP_COST_LIMIT <= r <= STEP_COST_LIMIT,
{
    let mut total: i64 = -STEP_BIAS;
    match closest_point_to_avoid {
        Some(p) => {
            total = total + calculate_avoid_edge_weight_for_point(state, &p);
        },
        None => {},
    }
    let mut marker_weight: i64 = 0;
    let n = arrow_points.len();
    let mut j: usize = 0;
    proof {
        assert(arrow_points@.take(0) =~= Seq::<Point>::empty());
    }
    while j < n
        invariant
            state.wf(),
            n == arrow_points@.len(),
            j <= n,
            forall|k: int| 0 <= k < arrow_points@.len() ==> (#[trigger] arrow_points@[k]).wf(),
            marker_weight == spec_max_marker_weight(state, arrow_points@.take(j as int)),
            0 <= marker_weight <= DIRECTION_WEIGHT,
        decreases n - j,
    {
        let w = calculate_angle_change_weight_for_point(state, &arrow_points[j]);
        proof {
            assert(arrow_points@.take(j as int + 1).drop_last() =~= arrow_points@.take(
                j as int,
            ));
            assert(arrow_points@.take(j as int + 1).last() == arrow_points@[j as int]);
        }
        if w > marker_weight {
            marker_weight = w;
        }
        j += 1;
    }
    proof {
        assert(arrow_points@.take(n as int) =~= arrow_points@);
    }
    total = total + marker_weight;
    total = total + calculate_curvature_weight(state);
    total
}

/// The discretized curvature choices, from full left to full right.
pub open spec fn spec_curvature_options() -> Seq<i64> {
    seq![
        -1_800_000i64,
        -1_200_000i64,
        -600_000i64,
        0i64,
        600_000i64,
        1_200_000i64,
        1_800_000i64,
    ]
}

/// The same pose under each of the discretized curvature options.
pub fn get_possible_next_states(state: CarState) -> (r: Vec<CarState>)
    requires
        state.wf(),
    ensures
        r@.len() == 7,
        forall|k: int|
            0 <= k < 7 ==> #[trigger] r@[k] == state.spec_with_curvature(
                spec_curvature_options()[k],
            ),
{
    let mut out: Vec<CarState> = Vec::new();
    let mut i: i64 = -3;
    while i <= 3
        invariant
            state.wf(),
            -3 <= i <= 4,
            out@.len() == i + 3,
            forall|k: int|
                0 <= k < out@.len() ==> #[trigger] out@[k] == state.spec_with_curvature(
                    spec_curvature_options()[k],
                ),
        decreases 4 - i,
    {
        let c: i64 = MAX_CURVATURE / 3 * i;
        out.push(state.with_curvature(c));
        i += 1;
    }
    out
}


/// One sampled pose of a planned trajectory.
#[derive(Clone, Copy, PartialEq, Eq, Structural, Debug)]
pub struct PathPoint {
    pub pos: Pos,
    pub angle: i64,
    pub curvature: i64,
}

/// A planned trajectory, sampled once per arc-length step, from the current
/// pose outward.
pub struct Path {
    pub points: Vec<PathPoint>,
}

/// The vehicle state a trajectory sample stands for, given the constant
/// speed carried through the search.
pub open spec fn spec_path_state(pp: PathPoint, speed: i64) -> CarState {
    CarState { pos: pp.pos, angle: pp.angle, curvature: pp.curvature, speed }
}

/// Bounds carried by every sample of a planned trajectory.
pub open spec fn spec_path_point_wf(pp: PathPoint) -> bool {
    &&& pp.pos.wf()
    &&& -crate::math::ANGLE_LIMIT <= pp.angle <= crate::math::ANGLE_LIMIT
    &&& -crate::state::CURV_LIMIT <= pp.curvature <= crate::state::CURV_LIMIT
}

/// The trajectory sample of a vehicle state.
pub open spec fn spec_point_of_state(s: CarState) -> PathPoint {
    PathPoint { pos: s.pos, angle: s.angle, curvature: s.curvature }
}

/// `b` is reachable from `a` by one search step: some discretized curvature
/// option, advanced one fixed arc length.
pub open spec fn spec_chained(a: PathPoint, b: PathPoint, speed: i64) -> bool {
    exists|k: int|
        0 <= k < 7 && spec_path_state(b, speed) == spec_path_state(
            a,
            speed,
        ).spec_with_curvature(spec_curvature_options()[k]).spec_step_distance(
            PLAN_STEP_SIZE as int,
        )
}

/// A node of the search tree, held in an arena and linked by parent index
/// so ancestor paths are shared without reference counting.
struct PlanNode {
    state: CarState,
    cost: i64,
    steps: usize,
    parent: usize,
}

/// Shape of the arena: the root holds the start state at index zero, and
/// every other node extends its parent by exactly one discretized step.
spec fn nodes_wf(ns: Seq<PlanNode>, start: CarState) -> bool {
    &&& ns.len() >= 1
    &&& ns[0].state == start
    &&& ns[0].steps == 0
    &&& forall|i: int|
        0 <= i < ns.len() ==> (#[trigger] ns[i]).state.wf() && ns[i].state.speed == start.speed
            && ns[i].steps <= PLAN_MAX_STEPS && -STEP_COST_LIMIT * (ns[i].steps as int) <= ns[i].cost
            <= STEP_COST_LIMIT * (ns[i].steps as int)
    &&& forall|i: int|
        1 <= i < ns.len() ==> (#[trigger] ns[i]).parent < i && ns[i].steps == ns[ns[i].parent as int].steps
            + 1 && (exists|k: int|
            0 <= k < 7 && ns[i].state == ns[ns[i].parent as int].state.spec_with_curvature(
                spec_curvature_options()[k],
            ).spec_step_distance(PLAN_STEP_SIZE as int))
}

/// Removes and returns an open node of minimal cumulative cost.
fn pop_min(open: &mut Vec<usize>, nodes: &Vec<PlanNode>) -> (r: usize)
    requires
        old(open)@.len() > 0,
        forall|j: int| 0 <= j < old(open)@.len() ==> #[trigger] old(open)@[j] < nodes@.len(),
    ensures
        r < nodes@.len(),
        old(open)@.contains(r as usize),
        final(open)@.len() == old(open)@.len() - 1,
        forall|j: int| 0 <= j < final(open)@.len() ==> #[trigger] final(open)@[j] < nodes@.len(),
        forall|j: int|
            0 <= j < old(open)@.len() ==> nodes@[r as int].cost <= nodes@[#[trigger] old(open)@[j] as int].cost,
{
    let mut bi: usize = 0;
    let mut j: usize = 1;
    let n = open.len();
    while j < n
        invariant
            n == open@.len(),
            1 <= n,
            bi < n,
            j <= n,
            forall|k: int| 0 <= k < open@.len() ==> #[trigger] open@[k] < nodes@.len(),
            forall|k: int|
                0 <= k < j ==> nodes@[open@[bi as int] as int].cost <= nodes@[#[trigger] open@[k] as int].cost,
        decreases n - j,
    {
        if nodes[open[j]].cost < nodes[open[bi]].cost {
            bi = j;
        }
        j += 1;
    }
    let r = open[bi];
    open.swap_remove(bi);
    r
}

/// The planner: stateless between invocations apart from its wall-clock
/// budget.
pub struct Planner {
    pub time_budget_micros: u64,
}

/// Hard ceiling on expanded nodes, a structural termination bound; the
/// wall-clock budget fires far earlier in practice.
pub const NODE_BUDGET: u64 = 200_000;

impl Planner {
    /// A planner with the default per-cycle budget of five milliseconds.
    pub fn new() -> (r: Planner)
        ensures
            r.time_budget_micros == 5_000,
    {
        Planner { time_budget_micros: 5_000 }
    }

    /// A planner with an explicit wall-clock budget in microseconds.
    pub fn with_budget(micros: u64) -> (r: Planner)
        ensures
            r.time_budget_micros == micros,
    {
        Planner { time_budget_micros: micros }
    }

    /// Best-first search from `start_state` against the point map, bounded
    /// by the wall-clock budget.  The result always starts at the current
    /// pose, never exceeds the step ceiling, and every consecutive pair of
    /// samples is one exact arc step under some discretized curvature; a
    /// trajectory of a single sample means "hold position".
    pub fn find_path(&self, start_state: CarState, points: &GridPointMap) -> (r: Path)
        requires
            start_state.wf(),
            points.wf(),
        ensures
            1 <= r.points@.len() <= PLAN_MAX_STEPS + 1,
            r.points@[0] == spec_point_of_state(start_state),
            forall|i: int| 0 <= i < r.points@.len() ==> spec_path_point_wf(#[trigger] r.points@[i]),
            forall|i: int|
                0 <= i < r.points@.len() - 1 ==> spec_chained(
                    #[trigger] r.points@[i],
                    r.points@[i + 1],
                    start_state.speed,
                ),
    {
        let started = std::time::Instant::now();
        let mut nodes: Vec<PlanNode> = Vec::new();
        nodes.push(PlanNode { state: start_state, cost: 0, steps: 0, parent: 0 });
        let mut open: Vec<usize> = Vec::new();
        open.push(0);
        let mut best: usize = 0;
        let mut fuel: u64 = NODE_BUDGET;
        while fuel > 0
            invariant
                start_state.wf(),
                points.wf(),
                nodes_wf(nodes@, start_state),
                best < nodes@.len(),
                forall|j: int| 0 <= j < open@.len() ==> #[trigger] open@[j] < nodes@.len(),
            ensures
                nodes_wf(nodes@, start_state),
                best < nodes@.len(),
            decreases fuel,
        {
            if open.len() == 0 {
                break;
            }
            let cur = pop_min(&mut open, &nodes);
            let is_longer = nodes[cur].steps > nodes[best].steps;
            let is_cheaper_same_depth = nodes[cur].steps == nodes[best].steps
                && nodes[cur].cost < nodes[best].cost;
            if is_longer || is_cheaper_same_depth {
                best = cur;
            }
            if crate::clock::elapsed_micros(&started) > self.time_budget_micros {
                break;
            }
            if nodes[cur].steps >= PLAN_MAX_STEPS {
                fuel = fuel - 1;
                continue;
            }
            let arrow_points = points.get_arrow_points();
            proof {
                assert(forall|k: int|
                    0 <= k < arrow_points@.len() ==> (#[trigger] arrow_points@[k]).wf());
            }
            let relevant_point = points.get_nearest_point(nodes[cur].state.pos);
            let next_drive_states = get_possible_next_states(nodes[cur].state);
            let cur_cost = nodes[cur].cost;
            let cur_steps = nodes[cur].steps;
            let ghost cur_state = nodes@[cur as int].state;
            let mut k: usize = 0;
            while k < 7
                invariant
                    start_state.wf(),
                    points.wf(),
                    nodes_wf(nodes@, start_state),
                    best < nodes@.len(),
                    forall|j: int| 0 <= j < open@.len() ==> #[trigger] open@[j] < nodes@.len(),
                    k <= 7,
                    cur < nodes@.len(),
                    cur_state == nodes@[cur as int].state,
                    cur_cost == nodes@[cur as int].cost,
                    cur_steps == nodes@[cur as int].steps,
                    cur_steps < PLAN_MAX_STEPS,
                    next_drive_states@.len() == 7,
                    forall|j: int|
                        0 <= j < 7 ==> #[trigger] next_drive_states@[j]
                            == cur_state.spec_with_curvature(spec_curvature_options()[j]),
                    (relevant_point matches Some(p) ==> p.wf()),
                    forall|j: int|
                        0 <= j < arrow_points@.len() ==> (#[trigger] arrow_points@[j]).wf(),
                decreases 7 - k,
            {
                let next_state_before = next_drive_states[k];
                let next_state = next_state_before.step_distance(PLAN_STEP_SIZE);
                let step_cost = distance(next_state, relevant_point, &arrow_points);
                proof {
                    assert(-STEP_COST_LIMIT * (cur_steps as int) <= cur_cost <= STEP_COST_LIMIT
                        * (cur_steps as int));
                    assert(-STEP_COST_LIMIT * (cur_steps as int + 1) <= cur_cost + step_cost
                        <= STEP_COST_LIMIT * (cur_steps as int + 1)) by (nonlinear_arith)
                        requires
                            -STEP_COST_LIMIT * (cur_steps as int) <= cur_cost <= STEP_COST_LIMIT
                                * (cur_steps as int),
                            -STEP_COST_LIMIT <= step_cost <= STEP_COST_LIMIT,
                            STEP_COST_LIMIT == 12_000_000,
                    ;
                    assert(STEP_COST_LIMIT * (cur_steps as int + 1) <= STEP_COST_LIMIT * 11)
                        by (nonlinear_arith)
                        requires
                            cur_steps as int + 1 <= 11,
                            STEP_COST_LIMIT == 12_000_000,
                    ;
                }
                let new_node = PlanNode {
                    state: next_state,
                    cost: cur_cost + step_cost,
                    steps: cur_steps + 1,
                    parent: cur,
                };
                let ghost nodes0 = nodes@;
                nodes.push(new_node);
                open.push(nodes.len() - 1);
                proof {
                    assert forall|i: int| 1 <= i < nodes@.len() implies (
                    #[trigger] nodes@[i]).parent < i && nodes@[i].steps == nodes@[nodes@[i].parent as int].steps + 1 && (exists|j: int|
                        0 <= j < 7 && nodes@[i].state == nodes@[nodes@[i].parent as int].state.spec_with_curvature(
                            spec_curvature_options()[j],
                        ).spec_step_distance(PLAN_STEP_SIZE as int)) by {
                        if i < nodes0.len() {
                            assert(nodes@[i] == nodes0[i]);
                            assert(nodes@[nodes0[i].parent as int] == nodes0[nodes0[i].parent as int]);
                        } else {
                            assert(nodes@[i] == new_node);
                            assert(nodes@[new_node.parent as int] == nodes0[cur as int]);
                            assert(next_state == cur_state.spec_with_curvature(
                                spec_curvature_options()[k as int],
                            ).spec_step_distance(PLAN_STEP_SIZE as int));
                        }
                    }
                }
                k += 1;
            }
            fuel = fuel - 1;
        }
        reconstruct_path(&nodes, best, Ghost(start_state))
    }
}

/// Walks parent references from the selected node back to the root, then
/// reverses the collected samples into driving order.
fn reconstruct_path(nodes: &Vec<PlanNode>, best: usize, Ghost(start): Ghost<CarState>) -> (r:
    Path)
    requires
        nodes_wf(nodes@, start),
        best < nodes@.len(),
    ensures
        r.points@.len() == nodes@[best as int].steps + 1,
        1 <= r.points@.len() <= PLAN_MAX_STEPS + 1,
        r.points@[0] == spec_point_of_state(start),
        forall|i: int| 0 <= i < r.points@.len() ==> spec_path_point_wf(#[trigger] r.points@[i]),
        forall|i: int|
            0 <= i < r.points@.len() - 1 ==> spec_chained(
                #[trigger] r.points@[i],
                r.points@[i + 1],
                start.speed,
            ),
{
    let mut stack: Vec<PathPoint> = Vec::new();
    let mut cur: usize = best;
    let first = PathPoint {
        pos: nodes[cur].state.pos,
        angle: nodes[cur].state.angle,
        curvature: nodes[cur].state.curvature,
    };
    stack.push(first);
    while cur != 0
        invariant
            nodes_wf(nodes@, start),
            cur < nodes@.len(),
            stack@.len() == nodes@[best as int].steps - nodes@[cur as int].steps + 1,
            stack@.len() >= 1,
            spec_path_state(stack@.last(), start.speed) == nodes@[cur as int].state,
            forall|j: int| 0 <= j < stack@.len() ==> spec_path_point_wf(#[trigger] stack@[j]),
            forall|j: int|
                0 <= j < stack@.len() - 1 ==> spec_chained(
                    stack@[j + 1],
                    #[trigger] stack@[j],
                    start.speed,
                ),
        decreases cur,
    {
        let p = nodes[cur].parent;
        let pp = PathPoint {
            pos: nodes[p].state.pos,
            angle: nodes[p].state.angle,
            curvature: nodes[p].state.curvature,
        };
        proof {
            assert(1 <= cur && (cur as int) < nodes@.len());
            assert(nodes@[cur as int].parent < cur);
            assert(spec_path_state(pp, start.speed) == nodes@[p as int].state);
            assert(spec_chained(pp, stack@.last(), start.speed)) by {
                let witness_k = choose|j: int|
                    0 <= j < 7 && nodes@[cur as int].state == nodes@[p as int].state.spec_with_curvature(
                        spec_curvature_options()[j],
                    ).spec_step_distance(PLAN_STEP_SIZE as int);
                assert(0 <= witness_k < 7 && spec_path_state(stack@.last(), start.speed)
                    == spec_path_state(pp, start.speed).spec_with_curvature(
                    spec_curvature_options()[witness_k],
                ).spec_step_distance(PLAN_STEP_SIZE as int));
            }
        }
        stack.push(pp);
        cur = p;
    }
    let ghost stack0 = stack@;
    let n = stack.len();
    let mut out: Vec<PathPoint> = Vec::new();
    while stack.len() > 0
        invariant
            out@.len() + stack@.len() == stack0.len(),
            stack@ == stack0.take(stack@.len() as int),
            forall|i: int|
                0 <= i < out@.len() ==> #[trigger] out@[i] == stack0[stack0.len() - 1 - i],
        decreases stack@.len(),
    {
        let top = stack.pop();
        match top {
            Some(pp) => {
                out.push(pp);
            },
            None => {},
        }
    }
    proof {
        assert(stack0.take(stack0.len() as int) =~= stack0);
        assert(out@[0] == stack0[stack0.len() - 1]);
        assert(spec_path_state(stack0.last(), start.speed) == nodes@[0].state);
        assert(out@[0] == spec_point_of_state(start));
        assert forall|i: int| 0 <= i < out@.len() - 1 implies spec_chained(
            #[trigger] out@[i],
            out@[i + 1],
            start.speed,
        ) by {
            let j = stack0.len() - 2 - i;
            assert(out@[i] == stack0[j + 1] && out@[i + 1] == stack0[j]);
            assert(spec_chained(stack0[j + 1], stack0[j], start.speed));
        }
    }
    Path { points: out }
}

} // verus!
