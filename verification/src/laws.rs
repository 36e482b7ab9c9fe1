//! Properties the core guarantees, stated on their own.
//!
//! Each proof function here records a law that relates several operations;
//! properties of a single operation live in that operation's contract.

use vstd::prelude::*;

use crate::planner::spec_avoid_edge_weight;
use crate::planner::spec_curvature_weight;
use crate::planner::spec_max_marker_weight;
use crate::planner::spec_step_cost;
use crate::planner::EDGE_MAX_DIST;
use crate::planner::EDGE_MAX_WEIGHT;
use crate::points::dead_ids;
use crate::points::spec_keep_point;
use crate::points::Point;
use crate::state::CarState;
use crate::state::DIST_STEP_LIMIT;
use crate::math::COORD_LIMIT;

verus! {

/// Splitting one straight arc step into two consecutive straight steps
/// reaches exactly the same state, for a vehicle heading along the x axis.
/// (With a curved step or a rotated frame the fixed-point rounding of the
/// trigonometric terms makes the equality approximate rather than exact.)
pub proof fn lemma_step_split_straight(s: CarState, d1: i64, d2: i64)
    requires
        s.wf(),
        s.curvature == 0,
        s.angle == 0,
        0 <= d1,
        0 <= d2,
        d1 + d2 <= DIST_STEP_LIMIT,
        s.pos.x + d1 + d2 <= COORD_LIMIT,
    ensures
        s.spec_step_distance(d1 + d2) == s.spec_step_distance(d1 as int).spec_step_distance(
            d2 as int,
        ),
{
    crate::state::lemma_step_straight_ahead(s, (d1 + d2) as i64);
    crate::state::lemma_step_straight_ahead(s, d1);
    let s1 = s.spec_step_distance(d1 as int);
    assert(s1.curvature == 0 && s1.speed == s.speed);
    assert(s1.pos.y == s.pos.y);
    assert(s1.wf());
    crate::state::lemma_step_straight_ahead(s1, d2);
    let lhs = s.spec_step_distance(d1 + d2);
    let rhs = s1.spec_step_distance(d2 as int);
    assert(lhs.pos == rhs.pos);
    assert(lhs.angle == rhs.angle);
    assert(lhs.curvature == rhs.curvature && lhs.speed == rhs.speed);
}

/// Evicting twice with the same captured time is evicting once: a list
/// already pruned at `now` keeps every point and yields no identifiers
/// when pruned at `now` again.  Applied to each grid cell and to the
/// marker list, this is the idempotence of the map-wide eviction pass.
pub proof fn lemma_eviction_idempotent(s: Seq<Point>, now: u64)
    ensures
        s.filter(|p: Point| spec_keep_point(p, now)).filter(|p: Point| spec_keep_point(p, now))
            == s.filter(|p: Point| spec_keep_point(p, now)),
        dead_ids(s.filter(|p: Point| spec_keep_point(p, now)), now) == Seq::<u32>::empty(),
{
    let keep = |p: Point| spec_keep_point(p, now);
    let dead = |p: Point| !spec_keep_point(p, now);
    let kept = s.filter(keep);
    assert forall|i: int| 0 <= i < kept.len() implies keep(#[trigger] kept[i]) by {
        s.lemma_filter_pred(keep, i);
    }
    assert(kept.filter(keep) =~= kept) by {
        lemma_filter_all_pass(kept, keep);
    }
    assert(kept.filter(dead) =~= Seq::<Point>::empty()) by {
        assert(forall|i: int| 0 <= i < kept.len() ==> !dead(#[trigger] kept[i]));
        kept.lemma_all_neg_filter_empty(dead);
    }
    assert(dead_ids(kept, now) =~= Seq::<u32>::empty());
}

/// Filtering keeps a sequence whole when every element passes.
proof fn lemma_filter_all_pass(s: Seq<Point>, pred: spec_fn(Point) -> bool)
    requires
        forall|i: int| 0 <= i < s.len() ==> pred(#[trigger] s[i]),
    ensures
        s.filter(pred) == s,
    decreases s.len(),
{
    reveal(Seq::filter);
    if s.len() > 0 {
        lemma_filter_all_pass(s.drop_last(), pred);
        assert(s.filter(pred) =~= s.drop_last().push(s.last()));
        assert(s.drop_last().push(s.last()) =~= s);
    } else {
        assert(s.filter(pred) =~= s);
    }
}

/// Every identifier an eviction pass records belongs to a point that was
/// stored (hence previously added) and had expired; and when stored
/// identifiers are distinct, no surviving point carries a recorded
/// identifier, so the point is gone from every later query.
pub proof fn lemma_removed_ids_complete(s: Seq<Point>, now: u64)
    requires
        forall|j1: int, j2: int|
            0 <= j1 < j2 < s.len() ==> (#[trigger] s[j1]).id != (#[trigger] s[j2]).id,
    ensures
        forall|id: u32|
            #[trigger] dead_ids(s, now).contains(id) ==> exists|j: int|
                0 <= j < s.len() && (#[trigger] s[j]).id == id && !spec_keep_point(s[j], now),
        forall|i: int, j: int|
            0 <= i < dead_ids(s, now).len() && 0 <= j < s.len() && spec_keep_point(
                #[trigger] s[j],
                now,
            ) ==> s[j].id != #[trigger] dead_ids(s, now)[i],
{
    let keep = |p: Point| spec_keep_point(p, now);
    let dead = |p: Point| !spec_keep_point(p, now);
    let dropped = s.filter(dead);
    let kept = s.filter(keep);
    let ids = dead_ids(s, now);
    assert(ids.len() == dropped.len());
    assert forall|id: u32| #[trigger] dead_ids(s, now).contains(id) implies exists|j: int|
        0 <= j < s.len() && (#[trigger] s[j]).id == id && !spec_keep_point(s[j], now) by {
        let i = choose|i: int| 0 <= i < ids.len() && ids[i] == id;
        assert(ids[i] == dropped[i].id);
        s.lemma_filter_pred(dead, i);
        assert(dropped.contains(dropped[i]));
        s.lemma_filter_contains_rev(dead, dropped[i]);
        let jw = choose|j: int| 0 <= j < s.len() && s[j] == dropped[i];
        assert(0 <= jw < s.len() && s[jw].id == id && !spec_keep_point(s[jw], now));
    }
    assert forall|i: int, j: int|
        0 <= i < ids.len() && 0 <= j < s.len() && spec_keep_point(#[trigger] s[j], now)
        implies s[j].id != #[trigger] ids[i] by {
        assert(ids[i] == dropped[i].id);
        s.lemma_filter_pred(dead, i);
        assert(dropped.contains(dropped[i]));
        s.lemma_filter_contains_rev(dead, dropped[i]);
        let jd = choose|jj: int| 0 <= jj < s.len() && s[jj] == dropped[i];
        assert(!spec_keep_point(s[jd], now));
        assert(jd != j);
    }
}

/// At equal depth and with the smoothness and marker terms equal, a
/// candidate step that keeps the nearest obstacle at or beyond the safe
/// distance costs strictly less than one that comes closer than that.
pub proof fn lemma_safety_preference(
    s_safe: CarState,
    s_close: CarState,
    nearest: Point,
    markers: Seq<Point>,
)
    requires
        s_safe.pos.spec_dist(nearest.pos) >= EDGE_MAX_DIST,
        s_close.pos.spec_dist(nearest.pos) < EDGE_MAX_DIST,
        spec_max_marker_weight(s_safe, markers) == spec_max_marker_weight(s_close, markers),
        spec_curvature_weight(s_safe) == spec_curvature_weight(s_close),
    ensures
        spec_step_cost(s_safe, Some(nearest), markers) < spec_step_cost(
            s_close,
            Some(nearest),
            markers,
        ),
{
    assert(spec_avoid_edge_weight(s_safe, nearest) == 0);
    let d = s_close.pos.spec_dist(nearest.pos);
    assert(d >= 0) by {
        crate::math::lemma_isqrt_bounds(s_close.pos.spec_sq_dist(nearest.pos) as nat);
    }
    assert((EDGE_MAX_DIST - d) * EDGE_MAX_WEIGHT >= EDGE_MAX_WEIGHT) by (nonlinear_arith)
        requires
            0 <= d < EDGE_MAX_DIST,
            EDGE_MAX_WEIGHT > 0,
    ;
    assert(spec_avoid_edge_weight(s_close, nearest) >= 12) by {
        vstd::arithmetic::div_mod::lemma_div_is_ordered(
            EDGE_MAX_WEIGHT as int,
            (EDGE_MAX_DIST - d) * EDGE_MAX_WEIGHT,
            EDGE_MAX_DIST as int,
        );
        assert(EDGE_MAX_WEIGHT as int / (EDGE_MAX_DIST as int) == 12);
    }
}

} // verus!
