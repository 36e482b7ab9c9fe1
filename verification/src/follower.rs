//! Converts a planned trajectory into one drive command.
//!
//! A short lookahead window of trajectory samples is averaged into a single
//! steering curvature, issued at a constant nominal forward speed.

use vstd::prelude::*;

use crate::math::tdiv;
use crate::messages::SimpleDrive;
use crate::planner::spec_path_point_wf;
use crate::planner::Path;
use crate::state::CURV_LIMIT;

verus! {

/// Number of leading trajectory samples averaged for steering.
pub const LOOKAHEAD_COUNT: usize = 5;

/// Nominal forward speed of the follower: 0.2 m/s.
pub const FOLLOW_SPEED: i64 = 200_000;

/// Sum of the curvatures of the first `k` samples of `points`.
pub open spec fn spec_curvature_sum(points: Seq<crate::planner::PathPoint>, k: int) -> int
    decreases k,
{
    if k <= 0 {
        0
    } else {
        spec_curvature_sum(points, k - 1) + points[k - 1].curvature
    }
}

/// Derives a single drive command from a trajectory: pure, stateless.
pub struct Follower {}

impl Follower {
    pub fn new() -> (r: Follower) {
        Follower {  }
    }

    /// The average curvature over the lookahead window (the whole
    /// trajectory when it is shorter), at the nominal speed.  An empty
    /// trajectory steers straight.
    pub fn command_to_follow_path(&self, path: &Path) -> (r: SimpleDrive)
        requires
            forall|i: int|
                0 <= i < path.points@.len() ==> spec_path_point_wf(#[trigger] path.points@[i]),
        ensures
            r.speed == FOLLOW_SPEED,
            ({
                let k = if path.points@.len() < LOOKAHEAD_COUNT {
                    path.points@.len() as int
                } else {
                    LOOKAHEAD_COUNT as int
                };
                r.curvature == if k == 0 {
                    0
                } else {
                    tdiv(spec_curvature_sum(path.points@, k), k)
                }
            }),
            r.wf(),
    {
        let k: usize = if path.points.len() < LOOKAHEAD_COUNT {
            path.points.len()
        } else {
            LOOKAHEAD_COUNT
        };
        if k == 0 {
            return SimpleDrive { curvature: 0, speed: FOLLOW_SPEED };
        }
        let mut sum: i64 = 0;
        let mut i: usize = 0;
        while i < k
            invariant
                k <= path.points@.len(),
                k <= LOOKAHEAD_COUNT,
                i <= k,
                forall|j: int|
                    0 <= j < path.points@.len() ==> spec_path_point_wf(
                        #[trigger] path.points@[j],
                    ),
                sum == spec_curvature_sum(path.points@, i as int),
                -CURV_LIMIT * (i as int) <= sum <= CURV_LIMIT * (i as int),
            decreases k - i,
        {
            proof {
                assert(spec_path_point_wf(path.points@[i as int]));
                assert(-CURV_LIMIT * (i as int) - CURV_LIMIT <= sum
                    + path.points@[i as int].curvature <= CURV_LIMIT * (i as int) + CURV_LIMIT)
                    by (nonlinear_arith)
                    requires
                        -CURV_LIMIT * (i as int) <= sum <= CURV_LIMIT * (i as int),
                        -CURV_LIMIT <= path.points@[i as int].curvature <= CURV_LIMIT,
                ;
                assert(CURV_LIMIT * (i as int) + CURV_LIMIT == CURV_LIMIT * (i as int + 1)
                    && -CURV_LIMIT * (i as int) - CURV_LIMIT == -CURV_LIMIT * (i as int + 1))
                    by (nonlinear_arith);
                assert(CURV_LIMIT * (i as int + 1) <= CURV_LIMIT * 5) by (nonlinear_arith)
                    requires
                        i as int + 1 <= 5,
                        CURV_LIMIT > 0,
                ;
            }
            sum = sum + path.points[i].curvature;
            i += 1;
        }
        proof {
            assert(CURV_LIMIT * (k as int) <= CURV_LIMIT * 5) by (nonlinear_arith)
                requires
                    1 <= k <= 5,
                    CURV_LIMIT > 0,
            ;
            crate::math::lemma_tdiv_range(sum as int, k as int, CURV_LIMIT as int * (k as int));
            assert(CURV_LIMIT as int * (k as int) / (k as int) == CURV_LIMIT) by {
                assert(CURV_LIMIT as int * (k as int) == (k as int) * CURV_LIMIT)
                    by (nonlinear_arith);
                vstd::arithmetic::div_mod::lemma_div_multiples_vanish(
                    CURV_LIMIT as int,
                    k as int,
                );
            }
        }
        let avg = crate::math::div_fp(sum, k as i64);
        SimpleDrive { curvature: avg, speed: FOLLOW_SPEED }
    }
}

} // verus!
