//! Kinematic vehicle state and exact arc-stepping.
//!
//! A state is a pose (position, heading) together with the commanded
//! curvature and speed.  Advancing by an arc length uses the exact
//! circular-chord equations rather than Euler integration, so that the
//! planner can compound many steps without accumulating linearization bias.

use vstd::prelude::*;

use crate::math::clamp_fp;
use crate::math::COORD_LIMIT;
use crate::math::cos_fp;
use crate::math::div_fp;
use crate::math::mul_div_scale;
use crate::math::sin_fp;
use crate::math::spec_clamp;
use crate::math::spec_cos;
use crate::math::spec_sin;
use crate::math::tdiv;
use crate::math::ANGLE_LIMIT;
use crate::math::SCALE;
use crate::points::Pos;

verus! {

/// Largest curvature magnitude the core carries: ten turns per meter.
pub const CURV_LIMIT: i64 = 10_000_000;

/// Largest speed magnitude the core carries: one hundred meters per second.
pub const SPEED_LIMIT: i64 = 100_000_000;

/// Largest arc length of a single step: one kilometer.
pub const DIST_STEP_LIMIT: i64 = 1_000_000_000;

/// Longest time span of a single step: ten seconds.
pub const TIME_STEP_LIMIT: i64 = 10_000_000;

/// Below this curvature magnitude a step is treated as a straight segment.
pub const CURV_EPS: i64 = 1_000;

/// Pose plus drive command: position, heading (microradians), curvature
/// (micro-inverse-meters, signed by turn direction) and speed
/// (micrometers per second).
#[derive(Clone, Copy, PartialEq, Eq, Structural, Debug)]
pub struct CarState {
    pub pos: Pos,
    pub angle: i64,
    pub curvature: i64,
    pub speed: i64,
}

/// Local displacement of an arc of length `d` at constant curvature `c`,
/// in the frame whose x axis is the current heading.
pub open spec fn spec_along_arc(d: int, c: int) -> Pos {
    if -CURV_EPS < c < CURV_EPS {
        Pos { x: d as i64, y: 0 }
    } else {
        let theta = tdiv(c * d, SCALE as int);
        let radius = if c >= 0 {
            tdiv(SCALE as int * SCALE as int, c)
        } else {
            -tdiv(SCALE as int * SCALE as int, -c)
        };
        Pos {
            x: tdiv(spec_sin(theta) * radius, SCALE as int) as i64,
            y: tdiv((SCALE - spec_cos(theta)) * radius, SCALE as int) as i64,
        }
    }
}

impl CarState {
    pub open spec fn wf(self) -> bool {
        &&& self.pos.wf()
        &&& -ANGLE_LIMIT <= self.angle <= ANGLE_LIMIT
        &&& -CURV_LIMIT <= self.curvature <= CURV_LIMIT
        &&& -SPEED_LIMIT <= self.speed <= SPEED_LIMIT
    }

    /// The state after advancing `d` micrometers along the current arc.
    pub open spec fn spec_step_distance(self, d: int) -> CarState {
        let theta = tdiv(self.curvature * d, SCALE as int);
        let local = spec_along_arc(d, self.curvature as int);
        CarState {
            pos: self.pos.spec_plus(local.spec_rotate(self.angle as int)),
            angle: spec_clamp(
                self.angle + theta,
                -ANGLE_LIMIT as int,
                ANGLE_LIMIT as int,
            ) as i64,
            curvature: self.curvature,
            speed: self.speed,
        }
    }

    /// The state after driving for `dt` microseconds at the current speed.
    pub open spec fn spec_step_time(self, dt: int) -> CarState {
        self.spec_step_distance(tdiv(self.speed * dt, SCALE as int))
    }

    /// Pose composition: the right-hand side is a motion increment given in
    /// the left-hand side's frame.
    pub open spec fn spec_compose(self, rhs: CarState) -> CarState {
        CarState {
            pos: self.pos.spec_plus(rhs.pos.spec_rotate(self.angle as int)),
            angle: spec_clamp(
                self.angle + rhs.angle,
                -ANGLE_LIMIT as int,
                ANGLE_LIMIT as int,
            ) as i64,
            curvature: rhs.curvature,
            speed: rhs.speed,
        }
    }

    /// The same pose with a different commanded curvature.
    pub open spec fn spec_with_curvature(self, c: i64) -> CarState {
        CarState { pos: self.pos, angle: self.angle, curvature: c, speed: self.speed }
    }

    /// The all-zero state: origin, heading zero, stopped.
    pub open spec fn spec_zero() -> CarState {
        CarState { pos: Pos { x: 0, y: 0 }, angle: 0, curvature: 0, speed: 0 }
    }

    /// Advances the state forward by arc length `d` along its own curvature.
    /// Below `CURV_EPS` the segment is straight; otherwise the exact chord
    /// equations are used: local x is `sin(c d) / c`, local y is
    /// `(1 - cos(c d)) / c`, and the heading grows by `c d`.
    pub fn step_distance(&self, d: i64) -> (r: CarState)
        requires
            self.wf(),
            -DIST_STEP_LIMIT <= d <= DIST_STEP_LIMIT,
        ensures
            r == self.spec_step_distance(d as int),
            r.wf(),
    {
        proof {
            assert(-10_000_000_000_000_000 <= self.curvature as int * d as int
                <= 10_000_000_000_000_000) by (nonlinear_arith)
                requires
                    -CURV_LIMIT <= self.curvature <= CURV_LIMIT,
                    -DIST_STEP_LIMIT <= d <= DIST_STEP_LIMIT,
            ;
            crate::math::lemma_tdiv_range(
                self.curvature as int * d as int,
                SCALE as int,
                10_000_000_000_000_000,
            );
        }
        let theta_num: i64 = self.curvature * d;
        let theta: i64 = div_fp(theta_num, SCALE);
        let local: Pos = if -CURV_EPS < self.curvature && self.curvature < CURV_EPS {
            Pos { x: d, y: 0 }
        } else {
            let rr: i64 = SCALE * SCALE;
            let radius: i64 = if self.curvature >= 0 {
                div_fp(rr, self.curvature)
            } else {
                -div_fp(rr, -self.curvature)
            };
            proof {
                if self.curvature >= CURV_EPS {
                    vstd::arithmetic::div_mod::lemma_div_is_ordered_by_denominator(
                        rr as int,
                        CURV_EPS as int,
                        self.curvature as int,
                    );
                    vstd::arithmetic::div_mod::lemma_div_pos_is_pos(
                        rr as int,
                        self.curvature as int,
                    );
                } else {
                    vstd::arithmetic::div_mod::lemma_div_is_ordered_by_denominator(
                        rr as int,
                        CURV_EPS as int,
                        -self.curvature as int,
                    );
                    vstd::arithmetic::div_mod::lemma_div_pos_is_pos(
                        rr as int,
                        -self.curvature as int,
                    );
                }
            }
            let s = sin_fp(theta);
            let c = cos_fp(theta);
            proof {
                assert(-1_000_000_000_000_000 <= s as int * radius as int
                    <= 1_000_000_000_000_000 && -2_000_000_000_000_000 <= (SCALE
                    - c) as int * radius as int <= 2_000_000_000_000_000)
                    by (nonlinear_arith)
                    requires
                        -SCALE <= s <= SCALE,
                        -SCALE <= c <= SCALE,
                        -1_000_000_000 <= radius <= 1_000_000_000,
                ;
                crate::math::lemma_tdiv_range(
                    s as int * radius as int,
                    SCALE as int,
                    1_000_000_000_000_000,
                );
                crate::math::lemma_tdiv_range(
                    (SCALE - c) as int * radius as int,
                    SCALE as int,
                    2_000_000_000_000_000,
                );
            }
            let lx = mul_div_scale(s, radius);
            let ly = mul_div_scale(SCALE - c, radius);
            Pos { x: lx, y: ly }
        };
        let rotated = local.rotate(self.angle);
        CarState {
            pos: self.pos.plus(rotated),
            angle: clamp_fp(self.angle + theta, -ANGLE_LIMIT, ANGLE_LIMIT),
            curvature: self.curvature,
            speed: self.speed,
        }
    }

    /// Advances the state by the distance covered in `dt` microseconds at
    /// the current speed.
    pub fn step_time(&self, dt: i64) -> (r: CarState)
        requires
            self.wf(),
            0 <= dt <= TIME_STEP_LIMIT,
        ensures
            r == self.spec_step_time(dt as int),
            r.wf(),
    {
        proof {
            assert(-1_000_000_000_000_000 <= self.speed as int * dt as int
                <= 1_000_000_000_000_000) by (nonlinear_arith)
                requires
                    -SPEED_LIMIT <= self.speed <= SPEED_LIMIT,
                    0 <= dt <= TIME_STEP_LIMIT,
            ;
            crate::math::lemma_tdiv_range(
                self.speed as int * dt as int,
                SCALE as int,
                1_000_000_000_000_000,
            );
        }
        let dn: i64 = self.speed * dt;
        let d: i64 = div_fp(dn, SCALE);
        self.step_distance(d)
    }

    /// Accumulates a relative motion increment onto this pose: the
    /// increment's position is rotated into this heading and added, the
    /// headings are summed, and the increment's drive command is kept.
    pub fn compose(&self, rhs: CarState) -> (r: CarState)
        requires
            self.wf(),
            rhs.wf(),
        ensures
            r == self.spec_compose(rhs),
            r.wf(),
    {
        CarState {
            pos: self.pos.plus(rhs.pos.rotate(self.angle)),
            angle: clamp_fp(self.angle + rhs.angle, -ANGLE_LIMIT, ANGLE_LIMIT),
            curvature: rhs.curvature,
            speed: rhs.speed,
        }
    }

    /// The pose with a different commanded curvature.
    pub fn with_curvature(&self, c: i64) -> (r: CarState)
        requires
            self.wf(),
            -CURV_LIMIT <= c <= CURV_LIMIT,
        ensures
            r == self.spec_with_curvature(c),
            r.wf(),
    {
        CarState { pos: self.pos, angle: self.angle, curvature: c, speed: self.speed }
    }
}

impl Default for CarState {
    /// The all-zero state.
    fn default() -> (r: CarState)
        ensures
            r == CarState::spec_zero(),
            r.wf(),
    {
        CarState { pos: Pos { x: 0, y: 0 }, angle: 0, curvature: 0, speed: 0 }
    }
}

/// For curvature magnitudes below the straight-segment threshold, one arc
/// step is exactly the straight translation by `d` along the heading.
pub proof fn lemma_step_distance_straight(s: CarState, d: int)
    requires
        s.wf(),
        -CURV_EPS < s.curvature < CURV_EPS,
    ensures
        s.spec_step_distance(d).pos == s.pos.spec_plus(
            (Pos { x: d as i64, y: 0 }).spec_rotate(s.angle as int),
        ),
        s.spec_step_distance(d).curvature == s.curvature,
        s.spec_step_distance(d).speed == s.speed,
{
}

/// With zero curvature and zero heading, an arc step moves the state
/// exactly `d` micrometers straight ahead.
pub proof fn lemma_step_straight_ahead(s: CarState, d: i64)
    requires
        s.wf(),
        s.curvature == 0,
        s.angle == 0,
        0 <= d <= DIST_STEP_LIMIT,
        -COORD_LIMIT <= s.pos.x + d <= COORD_LIMIT,
    ensures
        s.spec_step_distance(d as int).pos == (Pos { x: (s.pos.x + d) as i64, y: s.pos.y }),
        s.spec_step_distance(d as int).angle == 0,
{
    crate::math::lemma_trig_zero();
    vstd::arithmetic::div_mod::lemma_div_of0(SCALE as int);
    assert(tdiv(0 * d, SCALE as int) == 0) by {
        assert(0 * d == 0) by (nonlinear_arith);
    }
    let local = spec_along_arc(d as int, 0);
    assert(local == Pos { x: d, y: 0 });
    let rotated = local.spec_rotate(0);
    assert(d as int * SCALE as int == d * 1_000_000) by (nonlinear_arith);
    assert(0 * SCALE as int == 0 && d as int * 0 == 0 && 0 * 0 == 0) by (nonlinear_arith);
    assert(tdiv(d as int * SCALE as int, SCALE as int) == d) by {
        if d >= 0 {
            vstd::arithmetic::div_mod::lemma_div_multiples_vanish(d as int, SCALE as int);
        }
    }
    assert(rotated.x == d && rotated.y == 0);
}

} // verus!
