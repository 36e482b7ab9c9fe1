//! Fixed-point arithmetic for the navigation core.
//!
//! Every physical quantity is carried as a signed 64-bit integer holding
//! millionths of the physical unit: positions in micrometers, angles in
//! microradians, curvatures in micro-inverse-meters, speeds in micrometers
//! per second and times in microseconds.  All operations are total and
//! their results are pinned exactly by spec functions over `int`.

use vstd::prelude::*;

verus! {

/// One physical unit (meter, radian, 1/meter, second) in fixed-point ticks.
pub const SCALE: i64 = 1_000_000;

/// Largest coordinate magnitude the core carries: one million meters.
pub const COORD_LIMIT: i64 = 1_000_000_000_000;

/// Largest heading magnitude the core carries, in microradians.
pub const ANGLE_LIMIT: i64 = 1_000_000_000_000;

/// Half turn in microradians.
pub const PI_FP: i64 = 3_141_593;

/// Full turn in microradians.
pub const TWO_PI_FP: i64 = 6_283_185;

/// Truncated (round-toward-zero) division, the semantics of `/` on the
/// machine integers, for a positive divisor.
pub open spec fn tdiv(a: int, b: int) -> int {
    if a >= 0 {
        a / b
    } else {
        -((-a) / b)
    }
}

/// `v` forced into the interval `[lo, hi]`.
pub open spec fn spec_clamp(v: int, lo: int, hi: int) -> int {
    if v < lo {
        lo
    } else if v > hi {
        hi
    } else {
        v
    }
}

/// Floor of the square root: the unique `r >= 0` with `r * r <= n < (r + 1) * (r + 1)`.
pub open spec fn spec_isqrt(n: nat) -> nat
    decreases n,
{
    if n == 0 {
        0
    } else {
        let r = spec_isqrt((n - 1) as nat);
        if (r + 1) * (r + 1) <= n {
            r + 1
        } else {
            r
        }
    }
}

pub proof fn lemma_isqrt_bounds(n: nat)
    ensures
        spec_isqrt(n) * spec_isqrt(n) <= n,
        n < (spec_isqrt(n) + 1) * (spec_isqrt(n) + 1),
    decreases n,
{
    if n == 0 {
        assert(spec_isqrt(0) == 0);
        assert(n < (spec_isqrt(n) + 1) * (spec_isqrt(n) + 1)) by (nonlinear_arith)
            requires
                n == 0,
                spec_isqrt(n) == 0,
        ;
    } else {
        lemma_isqrt_bounds((n - 1) as nat);
        let r = spec_isqrt((n - 1) as nat);
        if (r + 1) * (r + 1) <= n {
            assert(spec_isqrt(n) == r + 1);
            assert(n < (spec_isqrt(n) + 1) * (spec_isqrt(n) + 1)) by (nonlinear_arith)
                requires
                    n - 1 < (r + 1) * (r + 1),
                    r >= 0,
                    spec_isqrt(n) == r + 1,
            ;
        } else {
            assert(spec_isqrt(n) == r);
            assert(r * r <= n - 1);
            assert(n < (spec_isqrt(n) + 1) * (spec_isqrt(n) + 1)) by (nonlinear_arith)
                requires
                    n < (r + 1) * (r + 1),
                    spec_isqrt(n) == r,
            ;
        }
    }
}

pub proof fn lemma_isqrt_unique(n: nat, r: nat)
    requires
        r * r <= n,
        n < (r + 1) * (r + 1),
    ensures
        r == spec_isqrt(n),
{
    lemma_isqrt_bounds(n);
    let s = spec_isqrt(n);
    if r < s {
        assert((r + 1) * (r + 1) <= s * s) by (nonlinear_arith)
            requires
                r + 1 <= s,
                r >= 0,
        ;
    }
    if s < r {
        assert((s + 1) * (s + 1) <= r * r) by (nonlinear_arith)
            requires
                s + 1 <= r,
                s >= 0,
        ;
    }
}

/// Bound on a truncated quotient from a bound on the dividend.
pub proof fn lemma_tdiv_range(a: int, b: int, m: int)
    requires
        b > 0,
        0 <= m,
        -m <= a <= m,
    ensures
        -(m / b) <= tdiv(a, b) <= m / b,
{
    if a >= 0 {
        vstd::arithmetic::div_mod::lemma_div_is_ordered(a, m, b);
        vstd::arithmetic::div_mod::lemma_div_pos_is_pos(a, b);
    } else {
        vstd::arithmetic::div_mod::lemma_div_is_ordered(-a, m, b);
        vstd::arithmetic::div_mod::lemma_div_pos_is_pos(-a, b);
    }
}

/// Truncated quotients never grow when the dividend shrinks in magnitude
/// toward zero on the nonnegative side.
pub proof fn lemma_div_is_ordered_pos(a: int, b: int, d: int)
    requires
        d > 0,
        0 <= a <= b,
    ensures
        0 <= a / d <= b / d,
{
    vstd::arithmetic::div_mod::lemma_div_is_ordered(a, b, d);
    vstd::arithmetic::div_mod::lemma_div_pos_is_pos(a, d);
}

/// `v` forced into `[lo, hi]`.
pub fn clamp_fp(v: i64, lo: i64, hi: i64) -> (r: i64)
    requires
        lo <= hi,
    ensures
        r == spec_clamp(v as int, lo as int, hi as int),
{
    if v < lo {
        lo
    } else if v > hi {
        hi
    } else {
        v
    }
}

/// Fixed-point product: `a * b` rescaled back down by one `SCALE`.
pub fn mul_div_scale(a: i64, b: i64) -> (r: i64)
    requires
        -0x4000_0000_0000_0000 <= a as int * b as int <= 0x4000_0000_0000_0000,
    ensures
        r == tdiv(a as int * b as int, SCALE as int),
{
    let p: i64 = a * b;
    if p >= 0 {
        p / SCALE
    } else {
        -((-p) / SCALE)
    }
}

/// Truncated division by a positive divisor.
pub fn div_fp(a: i64, b: i64) -> (r: i64)
    requires
        b > 0,
        a > i64::MIN,
    ensures
        r == tdiv(a as int, b as int),
{
    if a >= 0 {
        a / b
    } else {
        -((-a) / b)
    }
}

/// Floor division by a positive divisor (rounds toward negative infinity),
/// matching mathematical Euclidean division.
pub fn floor_div(a: i64, b: i64) -> (r: i64)
    requires
        0 < b <= 0x1_0000_0000,
        -0x1000_0000_0000_0000 <= a <= 0x1000_0000_0000_0000,
    ensures
        r == a as int / b as int,
{
    if a >= 0 {
        let r = a / b;
        r
    } else {
        let q = (-a) / b;
        let rem = (-a) % b;
        proof {
            vstd::arithmetic::div_mod::lemma_fundamental_div_mod(-a as int, b as int);
        }
        if rem == 0 {
            proof {
                assert(a as int == (-(q as int)) * (b as int) + 0) by (nonlinear_arith)
                    requires
                        -a == b * q + rem,
                        rem == 0,
                ;
                vstd::arithmetic::div_mod::lemma_fundamental_div_mod_converse_div(
                    a as int,
                    b as int,
                    -(q as int),
                    0,
                );
            }
            -q
        } else {
            proof {
                assert(a as int == (-(q as int) - 1) * (b as int) + (b - rem))
                    by (nonlinear_arith)
                    requires
                        -a == b * q + rem,
                ;
                vstd::arithmetic::div_mod::lemma_fundamental_div_mod_converse_div(
                    a as int,
                    b as int,
                    -(q as int) - 1,
                    (b - rem) as int,
                );
            }
            -q - 1
        }
    }
}

/// Floor of the square root of a 128-bit value, by binary search.
pub fn isqrt_u128(n: u128) -> (r: u64)
    ensures
        r == spec_isqrt(n as nat),
{
    let mut lo: u64 = 0;
    let mut hi: u64 = u64::MAX;
    if n >= 0xFFFF_FFFF_FFFF_FFFE_0000_0000_0000_0001 {
        proof {
            lemma_isqrt_unique(n as nat, (u64::MAX) as nat);
        }
        return u64::MAX;
    }
    // invariant: lo * lo <= n < (hi + 1) * (hi + 1)
    while lo < hi
        invariant
            lo as int * lo as int <= n,
            n < (hi as int + 1) * (hi as int + 1),
            lo <= hi,
        decreases hi - lo,
    {
        let mid: u64 = lo + (hi - lo) / 2 + 1;
        proof {
            assert(mid as u128 * mid as u128 <= u128::MAX) by (nonlinear_arith)
                requires
                    mid <= 0xFFFF_FFFF_FFFF_FFFFu64,
            ;
        }
        let sq: u128 = (mid as u128) * (mid as u128);
        if sq <= n {
            lo = mid;
        } else {
            hi = mid - 1;
        }
    }
    proof {
        lemma_isqrt_unique(n as nat, lo as nat);
    }
    lo
}

/// The angle congruent to `x` modulo a full turn, lying in
/// `(-TWO_PI_FP + PI_FP, PI_FP]`.
pub open spec fn spec_reduce_angle(x: int) -> int {
    let m = x % (TWO_PI_FP as int);
    if m > PI_FP {
        m - TWO_PI_FP
    } else {
        m
    }
}

/// Reduces an angle into the principal range around zero.
pub fn reduce_angle(x: i64) -> (r: i64)
    requires
        x > i64::MIN,
    ensures
        r == spec_reduce_angle(x as int),
        -PI_FP < r <= PI_FP,
{
    let m: i64 = if x >= 0 {
        x % TWO_PI_FP
    } else {
        let y = (-x) % TWO_PI_FP;
        proof {
            let q = (-x as int) / (TWO_PI_FP as int);
            vstd::arithmetic::div_mod::lemma_fundamental_div_mod(-x as int, TWO_PI_FP as int);
            if y == 0 {
                assert(x as int == (-q) * (TWO_PI_FP as int) + 0) by (nonlinear_arith)
                    requires
                        -x == TWO_PI_FP as int * q + y,
                        y == 0,
                ;
                vstd::arithmetic::div_mod::lemma_fundamental_div_mod_converse_mod(
                    x as int,
                    TWO_PI_FP as int,
                    -q,
                    0,
                );
            } else {
                assert(x as int == (-q - 1) * (TWO_PI_FP as int) + (TWO_PI_FP - y))
                    by (nonlinear_arith)
                    requires
                        -x == TWO_PI_FP as int * q + y,
                ;
                vstd::arithmetic::div_mod::lemma_fundamental_div_mod_converse_mod(
                    x as int,
                    TWO_PI_FP as int,
                    -q - 1,
                    (TWO_PI_FP - y) as int,
                );
            }
        }
        if y == 0 {
            0
        } else {
            TWO_PI_FP - y
        }
    };
    if m > PI_FP {
        m - TWO_PI_FP
    } else {
        m
    }
}


/// One step of the Taylor evaluation: the previous term is multiplied by
/// the scaled square of the angle and divided by the next factorial ratio.
pub open spec fn spec_taylor_step(t: int, x2: int, d: int) -> int {
    tdiv(tdiv(t * x2, SCALE as int), d)
}

/// Truncated thirteenth-order Taylor polynomial of the sine, on fixed-point
/// microradians in the principal range.
pub open spec fn spec_sin_taylor(x: int) -> int {
    let x2 = tdiv(x * x, SCALE as int);
    let t3 = spec_taylor_step(x, x2, 6);
    let t5 = spec_taylor_step(t3, x2, 20);
    let t7 = spec_taylor_step(t5, x2, 42);
    let t9 = spec_taylor_step(t7, x2, 72);
    let t11 = spec_taylor_step(t9, x2, 110);
    let t13 = spec_taylor_step(t11, x2, 156);
    x - t3 + t5 - t7 + t9 - t11 + t13
}

/// Truncated twelfth-order Taylor polynomial of the cosine.
pub open spec fn spec_cos_taylor(x: int) -> int {
    let x2 = tdiv(x * x, SCALE as int);
    let c2 = tdiv(x2, 2);
    let c4 = spec_taylor_step(c2, x2, 12);
    let c6 = spec_taylor_step(c4, x2, 30);
    let c8 = spec_taylor_step(c6, x2, 56);
    let c10 = spec_taylor_step(c8, x2, 90);
    let c12 = spec_taylor_step(c10, x2, 132);
    SCALE - c2 + c4 - c6 + c8 - c10 + c12
}

/// Fixed-point sine of an angle in microradians.
pub open spec fn spec_sin(x: int) -> int {
    spec_clamp(spec_sin_taylor(spec_reduce_angle(x)), -SCALE as int, SCALE as int)
}

/// Fixed-point cosine of an angle in microradians.
pub open spec fn spec_cos(x: int) -> int {
    spec_clamp(spec_cos_taylor(spec_reduce_angle(x)), -SCALE as int, SCALE as int)
}

/// Largest term magnitude admitted through a Taylor step.
const TERM_LIMIT: i64 = 600_000_000;

/// Largest value of the scaled squared principal angle.
const X2_LIMIT: i64 = 9_900_000;

fn taylor_step(t: i64, x2: i64, d: i64, Ghost(m): Ghost<int>) -> (r: i64)
    requires
        1 <= d <= 200,
        0 <= x2 <= X2_LIMIT,
        0 <= m <= TERM_LIMIT,
        -m <= t <= m,
    ensures
        r == spec_taylor_step(t as int, x2 as int, d as int),
        -(m * X2_LIMIT as int / SCALE as int / d as int) <= r
            <= m * X2_LIMIT as int / SCALE as int / d as int,
{
    proof {
        assert(-(m * X2_LIMIT as int) <= t as int * x2 as int <= m * X2_LIMIT as int)
            by (nonlinear_arith)
            requires
                -m <= t <= m,
                0 <= x2 <= X2_LIMIT,
                0 <= m,
        ;
        assert(m * X2_LIMIT as int <= 0x4000_0000_0000_0000) by (nonlinear_arith)
            requires
                0 <= m <= TERM_LIMIT,
        ;
        lemma_tdiv_range(t as int * x2 as int, SCALE as int, m * X2_LIMIT as int);
        lemma_div_is_ordered_pos(m * X2_LIMIT as int / SCALE as int, m * X2_LIMIT as int, 1);
        lemma_tdiv_range(
            tdiv(t as int * x2 as int, SCALE as int),
            d as int,
            m * X2_LIMIT as int / SCALE as int,
        );
    }
    let p = mul_div_scale(t, x2);
    div_fp(p, d)
}

/// Fixed-point sine: exact with respect to `spec_sin`, always within one unit.
pub fn sin_fp(x: i64) -> (r: i64)
    requires
        x > i64::MIN,
    ensures
        r == spec_sin(x as int),
        -SCALE <= r <= SCALE,
{
    let xr = reduce_angle(x);
    proof {
        assert(xr as int * xr as int <= 0x4000_0000_0000_0000 && 0 <= xr as int * xr as int
            && xr as int * xr as int <= 9_869_610_000_000) by (nonlinear_arith)
            requires
                -PI_FP < xr <= PI_FP,
        ;
        lemma_div_is_ordered_pos(xr as int * xr as int, 9_869_610_000_000, SCALE as int);
    }
    let x2 = mul_div_scale(xr, xr);
    let t3 = taylor_step(xr, x2, 6, Ghost(PI_FP as int));
    let t5 = taylor_step(t3, x2, 20, Ghost(5_183_628));
    let t7 = taylor_step(t5, x2, 42, Ghost(2_565_895));
    let t9 = taylor_step(t7, x2, 72, Ghost(604_818));
    let t11 = taylor_step(t9, x2, 110, Ghost(83_162));
    let t13 = taylor_step(t11, x2, 156, Ghost(7_484));
    let raw = xr - t3 + t5 - t7 + t9 - t11 + t13;
    clamp_fp(raw, -SCALE, SCALE)
}

/// Fixed-point cosine: exact with respect to `spec_cos`, always within one unit.
pub fn cos_fp(x: i64) -> (r: i64)
    requires
        x > i64::MIN,
    ensures
        r == spec_cos(x as int),
        -SCALE <= r <= SCALE,
{
    let xr = reduce_angle(x);
    proof {
        assert(xr as int * xr as int <= 0x4000_0000_0000_0000 && 0 <= xr as int * xr as int
            && xr as int * xr as int <= 9_869_610_000_000) by (nonlinear_arith)
            requires
                -PI_FP < xr <= PI_FP,
        ;
        lemma_div_is_ordered_pos(xr as int * xr as int, 9_869_610_000_000, SCALE as int);
    }
    let x2 = mul_div_scale(xr, xr);
    let c2 = div_fp(x2, 2);
    proof {
        lemma_div_is_ordered_pos(x2 as int, X2_LIMIT as int, 2);
    }
    let c4 = taylor_step(c2, x2, 12, Ghost(4_950_000));
    let c6 = taylor_step(c4, x2, 30, Ghost(4_083_750));
    let c8 = taylor_step(c6, x2, 56, Ghost(1_347_637));
    let c10 = taylor_step(c8, x2, 90, Ghost(238_242));
    let c12 = taylor_step(c10, x2, 132, Ghost(26_206));
    let raw = SCALE - c2 + c4 - c6 + c8 - c10 + c12;
    clamp_fp(raw, -SCALE, SCALE)
}

/// The sine of a zero angle is zero and its cosine is one.
pub proof fn lemma_trig_zero()
    ensures
        spec_sin(0) == 0,
        spec_cos(0) == SCALE,
{
    assert(spec_reduce_angle(0) == 0) by {
        vstd::arithmetic::div_mod::lemma_small_mod(0nat, TWO_PI_FP as nat);
    }
    assert(tdiv(0, SCALE as int) == 0) by {
        vstd::arithmetic::div_mod::lemma_div_of0(SCALE as int);
    }
    assert(spec_sin_taylor(0) == 0) by {
        vstd::arithmetic::div_mod::lemma_div_of0(SCALE as int);
        vstd::arithmetic::div_mod::lemma_div_of0(6);
        vstd::arithmetic::div_mod::lemma_div_of0(20);
        vstd::arithmetic::div_mod::lemma_div_of0(42);
        vstd::arithmetic::div_mod::lemma_div_of0(72);
        vstd::arithmetic::div_mod::lemma_div_of0(110);
        vstd::arithmetic::div_mod::lemma_div_of0(156);
    }
    assert(spec_cos_taylor(0) == SCALE) by {
        vstd::arithmetic::div_mod::lemma_div_of0(SCALE as int);
        vstd::arithmetic::div_mod::lemma_div_of0(2);
        vstd::arithmetic::div_mod::lemma_div_of0(12);
        vstd::arithmetic::div_mod::lemma_div_of0(30);
        vstd::arithmetic::div_mod::lemma_div_of0(56);
        vstd::arithmetic::div_mod::lemma_div_of0(90);
        vstd::arithmetic::div_mod::lemma_div_of0(132);
    }
}

} // verus!
