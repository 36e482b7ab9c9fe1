//! Expiry policy for perceived points.
//!
//! A point's lifetime is inversely related to the local point density:
//! where detections arrive often, old points may expire quickly; where
//! re-detection is unlikely they are kept longer.  A multiplicative random
//! jitter keeps points inserted in the same frame from expiring together.

use rand::Rng;
use rand::SeedableRng;

use vstd::prelude::*;

use crate::math::spec_clamp;
use crate::math::tdiv;
use crate::math::SCALE;
use crate::points::spec_cell_coord;
use crate::points::spec_cell_count;
use crate::points::GridPointMap;
use crate::points::Point;
use crate::points::Pos;

verus! {

/// Smallest jitter factor, in fixed-point ticks (0.75).
pub const JITTER_MIN: u64 = 750_000;

/// One past the largest jitter factor, in fixed-point ticks (1.5).
pub const JITTER_MAX: u64 = 1_500_000;

/// Lifetime granted in an empty cell: three seconds.
pub const KEEP_FOR_MAX: i64 = 3_000_000;

/// Lifetime granted in a saturated cell: 0.3 seconds.
pub const KEEP_FOR_MIN: i64 = 300_000;

/// Cell population at which the lifetime bottoms out.
pub const DENSITY_CEILING: i64 = 100;

/// Headroom a current timestamp must leave before `u64::MAX`.
pub const EXPIRY_HEADROOM: u64 = 5_000_000;

#[verifier::external_type_specification]
#[verifier::external_body]
pub struct ExSmallRng(rand::rngs::SmallRng);

/// Relies on rand's SeedableRng::from_os_rng: a freshly seeded generator.
/// No contract: the seed comes from the operating system.
#[verifier::external_body]
fn new_rng() -> rand::rngs::SmallRng {
    rand::rngs::SmallRng::from_os_rng()
}

/// Relies on rand's Rng::random_range: a value uniformly drawn from the
/// half-open range, so within `[JITTER_MIN, JITTER_MAX)` whatever the
/// generator state.
#[verifier::external_body]
fn draw_jitter(rng: &mut rand::rngs::SmallRng) -> (r: u64)
    ensures
        JITTER_MIN <= r < JITTER_MAX,
{
    rng.random_range(JITTER_MIN..JITTER_MAX)
}

/// `x` mapped linearly from `[from_min, from_max]` onto
/// `[to_min, to_max]` (which may run backwards), clamped to that range.
pub open spec fn spec_rescale(x: int, from_min: int, from_max: int, to_min: int, to_max: int)
    -> int {
    let raw = to_min + tdiv((x - from_min) * (to_max - to_min), from_max - from_min);
    if to_min <= to_max {
        spec_clamp(raw, to_min, to_max)
    } else {
        spec_clamp(raw, to_max, to_min)
    }
}

/// Linear rescaling with clamping; the target range may run backwards, as
/// it does for lifetimes, which shrink as density grows.
pub fn rescale(x: i64, from_min: i64, from_max: i64, to_min: i64, to_max: i64) -> (r: i64)
    requires
        from_min < from_max,
        -1_000_000_000 <= x <= 1_000_000_000,
        -1_000_000_000 <= from_min <= 1_000_000_000,
        -1_000_000_000 <= from_max <= 1_000_000_000,
        -1_000_000_000 <= to_min <= 1_000_000_000,
        -1_000_000_000 <= to_max <= 1_000_000_000,
    ensures
        r == spec_rescale(x as int, from_min as int, from_max as int, to_min as int, to_max as int),
        (if to_min <= to_max {
            to_min <= r <= to_max
        } else {
            to_max <= r <= to_min
        }),
{
    let num: i64 = x - from_min;
    let span: i64 = to_max - to_min;
    proof {
        assert(-4_000_000_000_000_000_000 <= num as int * span as int
            <= 4_000_000_000_000_000_000) by (nonlinear_arith)
            requires
                -2_000_000_000 <= num <= 2_000_000_000,
                -2_000_000_000 <= span <= 2_000_000_000,
        ;
        crate::math::lemma_tdiv_range(
            num as int * span as int,
            from_max as int - from_min as int,
            4_000_000_000_000_000_000,
        );
    }
    let prod: i64 = num * span;
    let q: i64 = crate::math::div_fp(prod, from_max - from_min);
    let raw: i64 = to_min + q;
    if to_min <= to_max {
        crate::math::clamp_fp(raw, to_min, to_max)
    } else {
        crate::math::clamp_fp(raw, to_max, to_min)
    }
}

/// The lifetime granted to a new point in a cell already holding `count`
/// points, in microseconds, before jitter.
pub open spec fn spec_keep_for_micros(count: int) -> int {
    spec_rescale(count * SCALE, 0, DENSITY_CEILING * SCALE, KEEP_FOR_MAX as int, KEEP_FOR_MIN as int)
}

/// The expiry timestamp assigned with a given local density and jitter.
pub open spec fn spec_expiry(count: int, now_micros: u64, jitter: u64) -> int {
    now_micros + tdiv(spec_keep_for_micros(count) * jitter, SCALE as int)
}

/// The density-dependent part of the expiry computation, with the jitter
/// passed in explicitly.
pub fn expiry_for(count: u32, now_micros: u64, jitter: u64) -> (r: u64)
    requires
        JITTER_MIN <= jitter < JITTER_MAX,
        now_micros <= u64::MAX - EXPIRY_HEADROOM,
    ensures
        r as int == spec_expiry(count as int, now_micros, jitter),
        now_micros < r <= now_micros + EXPIRY_HEADROOM,
{
    let capped: i64 = if count > DENSITY_CEILING as u32 {
        DENSITY_CEILING
    } else {
        count as i64
    };
    proof {
        if count > DENSITY_CEILING as u32 {
            lemma_keep_for_saturates(count as int);
        }
        assert(spec_keep_for_micros(count as int) == spec_keep_for_micros(capped as int));
    }
    let keep: i64 = rescale(
        capped * SCALE,
        0,
        DENSITY_CEILING * SCALE,
        KEEP_FOR_MAX,
        KEEP_FOR_MIN,
    );
    proof {
        assert(0 <= keep as int * jitter as int <= 4_500_000_000_000) by (nonlinear_arith)
            requires
                300_000 <= keep <= 3_000_000,
                750_000 <= jitter < 1_500_000,
        ;
        crate::math::lemma_tdiv_range(
            keep as int * jitter as int,
            SCALE as int,
            4_500_000_000_000,
        );
        assert(keep as int * jitter as int >= 225_000_000_000) by (nonlinear_arith)
            requires
                300_000 <= keep,
                750_000 <= jitter,
        ;
        vstd::arithmetic::div_mod::lemma_div_is_ordered(
            225_000_000_000,
            keep as int * jitter as int,
            SCALE as int,
        );
    }
    let jittered: i64 = crate::math::mul_div_scale(keep, jitter as i64);
    now_micros + (jittered as u64)
}

/// Past the density ceiling the granted lifetime no longer changes.
proof fn lemma_keep_for_saturates(count: int)
    requires
        count > DENSITY_CEILING,
    ensures
        spec_keep_for_micros(count) == spec_keep_for_micros(DENSITY_CEILING as int),
{
    let over = spec_rescale(
        count * SCALE,
        0,
        DENSITY_CEILING as int * SCALE,
        KEEP_FOR_MAX as int,
        KEEP_FOR_MIN as int,
    );
    let at = spec_rescale(
        DENSITY_CEILING as int * SCALE,
        0,
        DENSITY_CEILING as int * SCALE,
        KEEP_FOR_MAX as int,
        KEEP_FOR_MIN as int,
    );
    let d = DENSITY_CEILING as int * (SCALE as int);
    let delta = (KEEP_FOR_MIN - KEEP_FOR_MAX) as int;
    assert(count * SCALE >= d + SCALE) by (nonlinear_arith)
        requires
            count >= DENSITY_CEILING + 1,
            SCALE > 0,
            d == DENSITY_CEILING as int * (SCALE as int),
    ;
    assert(count * SCALE * delta <= (d + SCALE) * delta) by (nonlinear_arith)
        requires
            count * SCALE >= d + SCALE,
            delta < 0,
    ;
    assert(tdiv(count * SCALE * delta, d) <= tdiv((d + SCALE) * delta, d)) by {
        vstd::arithmetic::div_mod::lemma_div_is_ordered(
            -((d + SCALE) * delta),
            -(count * SCALE * delta),
            d,
        );
        assert(-(count * SCALE * delta) >= 0 && -((d + SCALE) * delta) >= 0)
            by (nonlinear_arith)
            requires
                count * SCALE >= d + SCALE,
                d + SCALE > 0,
                delta < 0,
        ;
    }
    assert(tdiv((d + SCALE) * delta, d) <= delta) by {
        assert((d + SCALE) * delta <= d * delta) by (nonlinear_arith)
            requires
                delta < 0,
                SCALE > 0,
        ;
        assert(-(d * delta) <= -((d + SCALE) * delta)) by (nonlinear_arith)
            requires
                (d + SCALE) * delta <= d * delta,
        ;
        vstd::arithmetic::div_mod::lemma_div_is_ordered(
            -(d * delta),
            -((d + SCALE) * delta),
            d,
        );
        assert(d * delta == delta * d) by (nonlinear_arith);
        vstd::arithmetic::div_mod::lemma_div_multiples_vanish(delta, d);
        assert((-delta) * d == -(delta * d)) by (nonlinear_arith);
        vstd::arithmetic::div_mod::lemma_div_multiples_vanish(-delta, d);
    }
    assert(tdiv(d * delta, d) == delta) by {
        assert(d * delta == delta * d) by (nonlinear_arith);
        vstd::arithmetic::div_mod::lemma_div_multiples_vanish(delta, d);
        assert((-delta) * d == -(delta * d)) by (nonlinear_arith);
        vstd::arithmetic::div_mod::lemma_div_multiples_vanish(-delta, d);
    }
}

/// Whether a stored point survives a pruning pass made at `now_micros`.
pub fn should_keep_point(now_micros: u64, point: &Point) -> (r: bool)
    ensures
        r == crate::points::spec_keep_point(*point, now_micros),
{
    point.expire_at > now_micros
}

/// Assigns expiry timestamps to newly perceived points.
pub struct Pruner {
    pub rng: rand::rngs::SmallRng,
}

impl Pruner {
    /// A pruner with a freshly seeded jitter source.
    pub fn new() -> Pruner {
        Pruner { rng: new_rng() }
    }

    /// The expiry timestamp for a new point at `pos`: now plus a lifetime
    /// inversely related to the local density, scaled by a random jitter
    /// in `[JITTER_MIN, JITTER_MAX)`.
    pub fn get_point_expiry(&mut self, pos: Pos, point_map: &GridPointMap, now_micros: u64)
        -> (r: u64)
        requires
            pos.wf(),
            point_map.wf(),
            now_micros <= u64::MAX - EXPIRY_HEADROOM,
        ensures
            exists|j: u64|
                JITTER_MIN <= j < JITTER_MAX && r as int == spec_expiry(
                    spec_clamp(
                        spec_cell_count(
                            point_map.cells@,
                            spec_cell_coord(pos.x as int),
                            spec_cell_coord(pos.y as int),
                        ),
                        0,
                        u32::MAX as int,
                    ),
                    now_micros,
                    j,
                ),
            now_micros < r <= now_micros + EXPIRY_HEADROOM,
    {
        let count = point_map.get_count_in_area(pos);
        let jitter = draw_jitter(&mut self.rng);
        let r = expiry_for(count, now_micros, jitter);
        proof {
            assert(JITTER_MIN <= jitter < JITTER_MAX && r as int == spec_expiry(
                count as int,
                now_micros,
                jitter,
            ));
        }
        r
    }
}

} // verus!
