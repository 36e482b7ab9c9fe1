//! Planar positions and the spatial point map.
//!
//! Perceived track features are classified points with an expiry time and a
//! random identifier.  Boundary and obstacle points are bucketed into a
//! uniform grid for fast proximity queries; direction-marker points live in
//! a small side list that is always scanned exhaustively.

use vstd::prelude::*;

use vstd::multiset::Multiset;

use crate::math::clamp_fp;
use crate::math::cos_fp;
use crate::math::div_fp;
use crate::math::isqrt_u128;
use crate::math::mul_div_scale;
use crate::math::sin_fp;
use crate::math::spec_clamp;
use crate::math::spec_cos;
use crate::math::spec_isqrt;
use crate::math::spec_sin;
use crate::math::tdiv;
use crate::math::COORD_LIMIT;
use crate::math::SCALE;

verus! {

/// Side of one square grid cell, in micrometers (0.1 m).
pub const GRID_SIZE: i64 = 100_000;

/// A 2D point in micrometers, vehicle- or track-relative.
#[derive(Clone, Copy, PartialEq, Eq, Structural, Debug)]
pub struct Pos {
    pub x: i64,
    pub y: i64,
}

/// The clamped sum of two coordinates.
pub open spec fn spec_coord_add(a: int, b: int) -> int {
    spec_clamp(a + b, -COORD_LIMIT as int, COORD_LIMIT as int)
}

impl Pos {
    /// Both coordinates stay inside the core's play area.
    pub open spec fn wf(self) -> bool {
        &&& -COORD_LIMIT <= self.x <= COORD_LIMIT
        &&& -COORD_LIMIT <= self.y <= COORD_LIMIT
    }

    /// Squared Euclidean distance, exact.
    pub open spec fn spec_sq_dist(self, other: Pos) -> int {
        (self.x - other.x) * (self.x - other.x) + (self.y - other.y) * (self.y - other.y)
    }

    /// Euclidean distance rounded down to whole micrometers.
    pub open spec fn spec_dist(self, other: Pos) -> int {
        spec_isqrt(self.spec_sq_dist(other) as nat) as int
    }

    pub open spec fn spec_plus(self, rhs: Pos) -> Pos {
        Pos {
            x: spec_coord_add(self.x as int, rhs.x as int) as i64,
            y: spec_coord_add(self.y as int, rhs.y as int) as i64,
        }
    }

    pub open spec fn spec_minus(self, rhs: Pos) -> Pos {
        Pos {
            x: spec_coord_add(self.x as int, -rhs.x as int) as i64,
            y: spec_coord_add(self.y as int, -rhs.y as int) as i64,
        }
    }

    /// Rotation by an angle in microradians, with fixed-point rounding.
    pub open spec fn spec_rotate(self, angle: int) -> Pos {
        let c = spec_cos(angle);
        let s = spec_sin(angle);
        Pos {
            x: spec_clamp(
                tdiv(self.x * c - self.y * s, SCALE as int),
                -COORD_LIMIT as int,
                COORD_LIMIT as int,
            ) as i64,
            y: spec_clamp(
                tdiv(self.x * s + self.y * c, SCALE as int),
                -COORD_LIMIT as int,
                COORD_LIMIT as int,
            ) as i64,
        }
    }

    /// Componentwise translation; coordinates saturate at the play-area edge.
    pub fn plus(self, rhs: Pos) -> (r: Pos)
        requires
            self.wf(),
            rhs.wf(),
        ensures
            r == self.spec_plus(rhs),
            r.wf(),
    {
        Pos {
            x: clamp_fp(self.x + rhs.x, -COORD_LIMIT, COORD_LIMIT),
            y: clamp_fp(self.y + rhs.y, -COORD_LIMIT, COORD_LIMIT),
        }
    }

    /// Componentwise difference; coordinates saturate at the play-area edge.
    pub fn minus(self, rhs: Pos) -> (r: Pos)
        requires
            self.wf(),
            rhs.wf(),
        ensures
            r == self.spec_minus(rhs),
            r.wf(),
    {
        Pos {
            x: clamp_fp(self.x - rhs.x, -COORD_LIMIT, COORD_LIMIT),
            y: clamp_fp(self.y - rhs.y, -COORD_LIMIT, COORD_LIMIT),
        }
    }

    /// Euclidean distance to `other`, rounded down to whole micrometers.
    pub fn dist(&self, other: Pos) -> (r: i64)
        requires
            self.wf(),
            other.wf(),
        ensures
            r == self.spec_dist(other),
            0 <= r <= 3_000_000_000_000,
    {
        let dx: i64 = self.x - other.x;
        let dy: i64 = self.y - other.y;
        proof {
            assert(0 <= dx as int * dx as int <= 4_000_000_000_000_000_000_000_000
                && 0 <= dy as int * dy as int <= 4_000_000_000_000_000_000_000_000)
                by (nonlinear_arith)
                requires
                    -2_000_000_000_000 <= dx <= 2_000_000_000_000,
                    -2_000_000_000_000 <= dy <= 2_000_000_000_000,
            ;
        }
        let sx: i128 = (dx as i128) * (dx as i128);
        let sy: i128 = (dy as i128) * (dy as i128);
        let sq: u128 = (sx + sy) as u128;
        let root: u64 = isqrt_u128(sq);
        proof {
            crate::math::lemma_isqrt_bounds(sq as nat);
            assert(spec_isqrt(sq as nat) <= 3_000_000_000_000) by (nonlinear_arith)
                requires
                    spec_isqrt(sq as nat) * spec_isqrt(sq as nat) <= sq,
                    sq <= 8_000_000_000_000_000_000_000_000,
            ;
        }
        root as i64
    }

    /// Linear interpolation: at `t == 0` this is `self`, at `t == SCALE` it
    /// is `other`.
    pub fn lerp(&self, other: Pos, t: i64) -> (r: Pos)
        requires
            self.wf(),
            other.wf(),
            0 <= t <= SCALE,
        ensures
            r.x == spec_clamp(
                self.x + tdiv((other.x - self.x) * t, SCALE as int),
                -COORD_LIMIT as int,
                COORD_LIMIT as int,
            ),
            r.y == spec_clamp(
                self.y + tdiv((other.y - self.y) * t, SCALE as int),
                -COORD_LIMIT as int,
                COORD_LIMIT as int,
            ),
            r.wf(),
    {
        let dx: i64 = other.x - self.x;
        let dy: i64 = other.y - self.y;
        proof {
            assert(-0x4000_0000_0000_0000 <= dx as int * t as int <= 0x4000_0000_0000_0000
                && -0x4000_0000_0000_0000 <= dy as int * t as int <= 0x4000_0000_0000_0000)
                by (nonlinear_arith)
                requires
                    -2_000_000_000_000 <= dx <= 2_000_000_000_000,
                    -2_000_000_000_000 <= dy <= 2_000_000_000_000,
                    0 <= t <= 1_000_000,
            ;
            crate::math::lemma_tdiv_range(
                dx as int * t as int,
                SCALE as int,
                0x4000_0000_0000_0000,
            );
            crate::math::lemma_tdiv_range(
                dy as int * t as int,
                SCALE as int,
                0x4000_0000_0000_0000,
            );
        }
        let ox = mul_div_scale(dx, t);
        let oy = mul_div_scale(dy, t);
        Pos {
            x: clamp_fp(self.x + ox, -COORD_LIMIT, COORD_LIMIT),
            y: clamp_fp(self.y + oy, -COORD_LIMIT, COORD_LIMIT),
        }
    }

    /// The point `dist` micrometers along the segment from `self` toward
    /// `other`.
    pub fn dist_along(&self, other: Pos, dist: i64) -> (r: Pos)
        requires
            self.wf(),
            other.wf(),
            self.spec_dist(other) > 0,
            0 <= dist <= self.spec_dist(other),
        ensures
            ({
                let t = tdiv(dist * SCALE, self.spec_dist(other));
                r.x == spec_clamp(
                    self.x + tdiv((other.x - self.x) * t, SCALE as int),
                    -COORD_LIMIT as int,
                    COORD_LIMIT as int,
                ) && r.y == spec_clamp(
                    self.y + tdiv((other.y - self.y) * t, SCALE as int),
                    -COORD_LIMIT as int,
                    COORD_LIMIT as int,
                )
            }),
            r.wf(),
    {
        let d = self.dist(other);
        proof {
            assert(dist as int * SCALE as int <= 3_000_000_000_000_000_000
                && dist as int * SCALE as int >= 0) by (nonlinear_arith)
                requires
                    0 <= dist <= 3_000_000_000_000,
                    SCALE == 1_000_000,
            ;
            crate::math::lemma_tdiv_range(dist as int * SCALE as int, d as int, dist as int
                * SCALE as int);
            vstd::arithmetic::div_mod::lemma_div_pos_is_pos(
                dist as int * SCALE as int,
                d as int,
            );
            assert(tdiv(dist as int * SCALE as int, d as int) <= SCALE) by {
                assert(dist as int * SCALE as int <= d as int * SCALE as int)
                    by (nonlinear_arith)
                    requires
                        0 <= dist <= d,
                        SCALE > 0,
                ;
                vstd::arithmetic::div_mod::lemma_div_is_ordered(
                    dist as int * SCALE as int,
                    d as int * SCALE as int,
                    d as int,
                );
                assert(d as int * SCALE as int == SCALE as int * d as int)
                    by (nonlinear_arith);
                vstd::arithmetic::div_mod::lemma_div_multiples_vanish(SCALE as int, d as int);
            }
        }
        let num: i64 = dist * SCALE;
        let t: i64 = crate::math::div_fp(num, d);
        self.lerp(other, t)
    }

    /// Rotation about the origin by `angle` microradians.
    pub fn rotate(&self, angle: i64) -> (r: Pos)
        requires
            self.wf(),
            angle > i64::MIN,
        ensures
            r == self.spec_rotate(angle as int),
            r.wf(),
    {
        let c = cos_fp(angle);
        let s = sin_fp(angle);
        proof {
            assert(-1_000_000_000_000_000_000 <= self.x as int * c as int
                <= 1_000_000_000_000_000_000 && -1_000_000_000_000_000_000 <= self.y as int
                * s as int <= 1_000_000_000_000_000_000 && -1_000_000_000_000_000_000
                <= self.x as int * s as int <= 1_000_000_000_000_000_000
                && -1_000_000_000_000_000_000 <= self.y as int * c as int
                <= 1_000_000_000_000_000_000) by (nonlinear_arith)
                requires
                    -1_000_000_000_000 <= self.x <= 1_000_000_000_000,
                    -1_000_000_000_000 <= self.y <= 1_000_000_000_000,
                    -1_000_000 <= c <= 1_000_000,
                    -1_000_000 <= s <= 1_000_000,
            ;
            crate::math::lemma_tdiv_range(
                self.x as int * c as int - self.y as int * s as int,
                SCALE as int,
                2_000_000_000_000_000_000,
            );
            crate::math::lemma_tdiv_range(
                self.x as int * s as int + self.y as int * c as int,
                SCALE as int,
                2_000_000_000_000_000_000,
            );
        }
        let xc: i64 = self.x * c;
        let ys: i64 = self.y * s;
        let xs: i64 = self.x * s;
        let yc: i64 = self.y * c;
        let rx = div_fp(xc - ys, SCALE);
        let ry = div_fp(xs + yc, SCALE);
        Pos {
            x: clamp_fp(rx, -COORD_LIMIT, COORD_LIMIT),
            y: clamp_fp(ry, -COORD_LIMIT, COORD_LIMIT),
        }
    }
}

/// Classification of a perceived point.
#[derive(Clone, Copy, PartialEq, Eq, Structural, Debug)]
pub enum PointType {
    LeftLine,
    RightLine,
    Obstacle,
    ArrowLeft,
    ArrowRight,
}

impl PointType {
    /// Direction markers are kept out of the spatial grid.
    pub open spec fn spec_is_arrow(self) -> bool {
        self == PointType::ArrowLeft || self == PointType::ArrowRight
    }

    pub open spec fn spec_is_obstacle(self) -> bool {
        self == PointType::LeftLine || self == PointType::RightLine || self
            == PointType::Obstacle
    }

    pub fn _is_arrow(&self) -> (r: bool)
        ensures
            r == self.spec_is_arrow(),
    {
        *self == PointType::ArrowLeft || *self == PointType::ArrowRight
    }

    /// Whether the planner must keep its distance from this point.
    pub fn is_obstacle(&self) -> (r: bool)
        ensures
            r == self.spec_is_obstacle(),
    {
        *self == PointType::LeftLine || *self == PointType::RightLine || *self
            == PointType::Obstacle
    }
}

/// A single perceived feature with its expiry time (microseconds) and a
/// stable random identifier.
#[derive(Clone, Copy, PartialEq, Eq, Structural, Debug)]
pub struct Point {
    pub pos: Pos,
    pub expire_at: u64,
    pub point_type: PointType,
    pub id: u32,
}

impl Point {
    pub open spec fn wf(self) -> bool {
        self.pos.wf()
    }
}


/// Grid coordinate (cell index) of a coordinate value.
pub open spec fn spec_cell_coord(v: int) -> int {
    v / (GRID_SIZE as int)
}

/// A point is stored in the cell of its position.
pub open spec fn spec_in_cell(p: Point, cx: int, cy: int) -> bool {
    spec_cell_coord(p.pos.x as int) == cx && spec_cell_coord(p.pos.y as int) == cy
}

/// One bucket of the uniform grid.
pub struct GridCell {
    pub cx: i64,
    pub cy: i64,
    pub points: Vec<Point>,
}

impl GridCell {
    pub open spec fn wf(self) -> bool {
        forall|j: int|
            0 <= j < self.points@.len() ==> (#[trigger] self.points@[j]).wf()
                && spec_in_cell(self.points@[j], self.cx as int, self.cy as int)
                && !self.points@[j].point_type.spec_is_arrow()
    }
}

/// The multiset of points stored across a sequence of grid cells.
pub open spec fn cells_ms(cs: Seq<GridCell>) -> Multiset<Point>
    decreases cs.len(),
{
    if cs.len() == 0 {
        Multiset::empty()
    } else {
        cells_ms(cs.drop_last()).add(cs.last().points@.to_multiset())
    }
}

/// Mutable store of all currently believed-live points, bucketed spatially,
/// with an internal buffer of identifiers removed since the last drain.
pub struct GridPointMap {
    pub cells: Vec<GridCell>,
    pub arrow_points: Vec<Point>,
    pub removed_ids: Vec<u32>,
}

impl GridPointMap {
    /// The multiset of boundary and obstacle points currently stored.
    pub open spec fn grid_ms(self) -> Multiset<Point> {
        cells_ms(self.cells@)
    }

    pub open spec fn wf(self) -> bool {
        &&& forall|i: int| 0 <= i < self.cells@.len() ==> (#[trigger] self.cells@[i]).wf()
        &&& forall|i1: int, i2: int|
            0 <= i1 < i2 < self.cells@.len() ==> !((#[trigger] self.cells@[i1]).cx
                == (#[trigger] self.cells@[i2]).cx && self.cells@[i1].cy == self.cells@[i2].cy)
        &&& forall|k: int|
            0 <= k < self.arrow_points@.len() ==> (#[trigger] self.arrow_points@[k]).wf()
                && self.arrow_points@[k].point_type.spec_is_arrow()
    }

    /// An empty map.
    pub fn new() -> (r: GridPointMap)
        ensures
            r.wf(),
            r.grid_ms() == Multiset::<Point>::empty(),
            r.arrow_points@ == Seq::<Point>::empty(),
            r.removed_ids@ == Seq::<u32>::empty(),
    {
        GridPointMap { cells: Vec::new(), arrow_points: Vec::new(), removed_ids: Vec::new() }
    }

    /// Index of the cell with the given grid coordinates, if present.
    fn find_cell(&self, cx: i64, cy: i64) -> (r: Option<usize>)
        ensures
            match r {
                Some(i) => i < self.cells@.len() && self.cells@[i as int].cx == cx
                    && self.cells@[i as int].cy == cy,
                None => forall|i: int|
                    0 <= i < self.cells@.len() ==> !((#[trigger] self.cells@[i]).cx == cx
                        && self.cells@[i].cy == cy),
            },
    {
        let n = self.cells.len();
        let mut i: usize = 0;
        while i < n
            invariant
                n == self.cells@.len(),
                i <= n,
                forall|k: int|
                    0 <= k < i ==> !((#[trigger] self.cells@[k]).cx == cx && self.cells@[k].cy
                        == cy),
            decreases n - i,
        {
            let c = &self.cells[i];
            if c.cx == cx && c.cy == cy {
                return Some(i);
            }
            i += 1;
        }
        None
    }

    /// Inserts each point into its grid cell, or into the marker list for
    /// direction markers.  No deduplication takes place.
    pub fn add_points(&mut self, points: &Vec<Point>)
        requires
            old(self).wf(),
            forall|k: int| 0 <= k < points@.len() ==> (#[trigger] points@[k]).wf(),
        ensures
            final(self).wf(),
            final(self).grid_ms() == old(self).grid_ms().add(
                points@.filter(|p: Point| !p.point_type.spec_is_arrow()).to_multiset(),
            ),
            final(self).arrow_points@ == old(self).arrow_points@ + points@.filter(
                |p: Point| p.point_type.spec_is_arrow(),
            ),
            final(self).removed_ids@ == old(self).removed_ids@,
    {
        proof {
            broadcast use vstd::seq_lib::group_seq_properties;
            broadcast use Seq::<_>::lemma_filter_push;
            broadcast use vstd::seq_lib::group_to_multiset_ensures;

            assert(points@.take(0) =~= Seq::<Point>::empty());
            assert(Seq::<Point>::empty().filter(|p: Point| !p.point_type.spec_is_arrow())
                =~= Seq::<Point>::empty());
            assert(Seq::<Point>::empty().filter(|p: Point| p.point_type.spec_is_arrow())
                =~= Seq::<Point>::empty());
            assert(Seq::<Point>::empty().to_multiset() =~= Multiset::<Point>::empty());
            assert(old(self).grid_ms().add(Multiset::<Point>::empty()) =~= old(self).grid_ms());
        }
        let n = points.len();
        let mut k: usize = 0;
        while k < n
            invariant
                n == points@.len(),
                k <= n,
                self.wf(),
                forall|j: int| 0 <= j < points@.len() ==> (#[trigger] points@[j]).wf(),
                self.grid_ms() == old(self).grid_ms().add(
                    points@.take(k as int).filter(
                        |p: Point| !p.point_type.spec_is_arrow(),
                    ).to_multiset(),
                ),
                self.arrow_points@ == old(self).arrow_points@ + points@.take(k as int).filter(
                    |p: Point| p.point_type.spec_is_arrow(),
                ),
                self.removed_ids@ == old(self).removed_ids@,
            decreases n - k,
        {
            let p = points[k];
            proof {
                broadcast use vstd::seq_lib::group_seq_properties;
                broadcast use Seq::<_>::lemma_filter_push;
                broadcast use vstd::seq_lib::group_to_multiset_ensures;

                assert(points@.take(k as int + 1) =~= points@.take(k as int).push(p));
            }
            if p.point_type._is_arrow() {
                self.arrow_points.push(p);
                proof {
                    let keep_arrow = |q: Point| q.point_type.spec_is_arrow();
                    let keep_grid = |q: Point| !q.point_type.spec_is_arrow();
                    assert(points@.take(k as int + 1).filter(keep_grid) == points@.take(
                        k as int,
                    ).filter(keep_grid));
                }
            } else {
                self.insert_grid_point(p);
                proof {
                    let keep_arrow = |q: Point| q.point_type.spec_is_arrow();
                    let keep_grid = |q: Point| !q.point_type.spec_is_arrow();
                    assert(points@.take(k as int + 1).filter(keep_arrow) == points@.take(
                        k as int,
                    ).filter(keep_arrow));
                    assert(points@.take(k as int + 1).filter(keep_grid) == points@.take(
                        k as int,
                    ).filter(keep_grid).push(p));
                    assert(points@.take(k as int + 1).filter(keep_grid).to_multiset()
                        =~= points@.take(k as int).filter(keep_grid).to_multiset().insert(p));
                    assert(old(self).grid_ms().add(
                        points@.take(k as int).filter(keep_grid).to_multiset(),
                    ).insert(p) =~= old(self).grid_ms().add(
                        points@.take(k as int + 1).filter(keep_grid).to_multiset(),
                    ));
                }
            }
            k += 1;
        }
        proof {
            assert(points@.take(n as int) =~= points@);
        }
    }

    /// Puts one boundary or obstacle point into its grid cell.
    fn insert_grid_point(&mut self, p: Point)
        requires
            old(self).wf(),
            p.wf(),
            !p.point_type.spec_is_arrow(),
        ensures
            final(self).wf(),
            final(self).grid_ms() == old(self).grid_ms().insert(p),
            final(self).arrow_points@ == old(self).arrow_points@,
            final(self).removed_ids@ == old(self).removed_ids@,
    {
        let cx = crate::math::floor_div(p.pos.x, GRID_SIZE);
        let cy = crate::math::floor_div(p.pos.y, GRID_SIZE);
        match self.find_cell(cx, cy) {
            Some(ci) => {
                proof {
                    lemma_cells_ms_update_push(self.cells@, ci as int, p);
                }
                self.cells[ci].points.push(p);
            },
            None => {
                let mut pts: Vec<Point> = Vec::new();
                pts.push(p);
                let cell = GridCell { cx, cy, points: pts };
                proof {
                    broadcast use vstd::seq_lib::group_to_multiset_ensures;

                    assert(cell.points@ =~= Seq::<Point>::empty().push(p));
                    assert(cell.points@.to_multiset() =~= Multiset::<Point>::empty().insert(
                        p,
                    ));
                    lemma_cells_ms_push(self.cells@, cell);
                }
                self.cells.push(cell);
                proof {
                    assert(self.grid_ms() =~= old(self).grid_ms().insert(p));
                }
            },
        }
    }
}

/// Appending a point to one cell inserts it into the multiset of all cells.
proof fn lemma_cells_ms_update_push(cs: Seq<GridCell>, i: int, p: Point)
    requires
        0 <= i < cs.len(),
    ensures
        ({
            let c = cs[i];
            let c2 = GridCell { cx: c.cx, cy: c.cy, points: c.points };
            forall|c2: GridCell|
                c2.points@ == cs[i].points@.push(p) ==> cells_ms(cs.update(i, c2))
                    =~= cells_ms(cs).insert(p)
        }),
    decreases cs.len(),
{
    broadcast use vstd::seq_lib::group_to_multiset_ensures;

    assert forall|c2: GridCell| c2.points@ == cs[i].points@.push(p) implies cells_ms(
        cs.update(i, c2),
    ) =~= cells_ms(cs).insert(p) by {
        if i == cs.len() - 1 {
            assert(cs.update(i, c2).drop_last() =~= cs.drop_last());
            assert(cs.update(i, c2).last() == c2);
            assert(c2.points@.to_multiset() =~= cs[i].points@.to_multiset().insert(p));
        } else {
            lemma_cells_ms_update_push(cs.drop_last(), i, p);
            assert(cs.update(i, c2).drop_last() =~= cs.drop_last().update(i, c2));
            assert(cs.update(i, c2).last() == cs.last());
            assert(cells_ms(cs.drop_last().update(i, c2)) =~= cells_ms(
                cs.drop_last(),
            ).insert(p));
        }
    }
}

/// Appending a whole cell adds its contents to the multiset of all cells.
proof fn lemma_cells_ms_push(cs: Seq<GridCell>, c: GridCell)
    ensures
        cells_ms(cs.push(c)) =~= cells_ms(cs).add(c.points@.to_multiset()),
{
    assert(cs.push(c).drop_last() =~= cs);
    assert(cs.push(c).last() == c);
}


/// Whether a stored point lies strictly within `max_dist` of `around`.
pub open spec fn spec_in_area(q: Point, around: Pos, max_dist: int) -> bool {
    q.pos.spec_dist(around) < max_dist
}

/// The multiset of points across `cs` that satisfy `pred`.
pub open spec fn filtered_cells_ms(cs: Seq<GridCell>, pred: spec_fn(Point) -> bool) -> Multiset<
    Point,
>
    decreases cs.len(),
{
    if cs.len() == 0 {
        Multiset::empty()
    } else {
        filtered_cells_ms(cs.drop_last(), pred).add(
            cs.last().points@.filter(pred).to_multiset(),
        )
    }
}

/// Counting a value in a filtered sequence: the count survives iff the
/// value satisfies the predicate.
proof fn lemma_filter_to_multiset_count(s: Seq<Point>, pred: spec_fn(Point) -> bool, v: Point)
    ensures
        s.filter(pred).to_multiset().count(v) == if pred(v) {
            s.to_multiset().count(v)
        } else {
            0
        },
    decreases s.len(),
{
    broadcast use vstd::seq_lib::group_to_multiset_ensures;
    broadcast use Seq::<_>::lemma_filter_push;

    if s.len() == 0 {
        assert(s.filter(pred) =~= Seq::<Point>::empty());
        assert(Seq::<Point>::empty().to_multiset() =~= Multiset::<Point>::empty());
        assert(s.to_multiset() =~= Multiset::<Point>::empty());
    } else {
        let prefix = s.drop_last();
        lemma_filter_to_multiset_count(prefix, pred, v);
        assert(s =~= prefix.push(s.last()));
        assert(s.to_multiset() =~= prefix.to_multiset().insert(s.last()));
        if pred(s.last()) {
            assert(s.filter(pred) =~= prefix.filter(pred).push(s.last()));
            assert(s.filter(pred).to_multiset() =~= prefix.filter(pred).to_multiset().insert(
                s.last(),
            ));
        } else {
            assert(s.filter(pred) =~= prefix.filter(pred));
        }
    }
}

/// Counting a value across filtered cells.
proof fn lemma_filtered_cells_ms_count(
    cs: Seq<GridCell>,
    pred: spec_fn(Point) -> bool,
    v: Point,
)
    ensures
        filtered_cells_ms(cs, pred).count(v) == if pred(v) {
            cells_ms(cs).count(v)
        } else {
            0
        },
    decreases cs.len(),
{
    if cs.len() > 0 {
        lemma_filtered_cells_ms_count(cs.drop_last(), pred, v);
        lemma_filter_to_multiset_count(cs.last().points@, pred, v);
    }
}

/// A coordinate difference is never larger than the rounded distance.
proof fn lemma_axis_within_dist(p: Pos, q: Pos)
    ensures
        -p.spec_dist(q) <= p.x - q.x <= p.spec_dist(q),
        -p.spec_dist(q) <= p.y - q.y <= p.spec_dist(q),
{
    let sq = p.spec_sq_dist(q);
    let dx = p.x - q.x;
    let dy = p.y - q.y;
    assert(dx * dx >= 0 && dy * dy >= 0) by (nonlinear_arith);
    crate::math::lemma_isqrt_bounds(sq as nat);
    let r = spec_isqrt(sq as nat) as int;
    assert(dx * dx <= sq && dy * dy <= sq) by (nonlinear_arith)
        requires
            dx * dx >= 0,
            dy * dy >= 0,
            sq == dx * dx + dy * dy,
    ;
    assert(-r <= dx <= r) by (nonlinear_arith)
        requires
            dx * dx <= sq,
            sq < (r + 1) * (r + 1),
            r >= 0,
    ;
    assert(-r <= dy <= r) by (nonlinear_arith)
        requires
            dy * dy <= sq,
            sq < (r + 1) * (r + 1),
            r >= 0,
    ;
}

impl GridPointMap {
    /// Every stored boundary or obstacle point strictly closer to `around`
    /// than `max_dist`, exactly once per stored occurrence, and nothing
    /// else.  Direction markers are never reported here.
    pub fn get_points_in_area(&self, around: Pos, max_dist: i64) -> (r: Vec<Point>)
        requires
            self.wf(),
            around.wf(),
            0 < max_dist <= COORD_LIMIT,
        ensures
            forall|v: Point|
                #[trigger] r@.to_multiset().count(v) == if spec_in_area(
                    v,
                    around,
                    max_dist as int,
                ) {
                    self.grid_ms().count(v)
                } else {
                    0
                },
            forall|j: int|
                0 <= j < r@.len() ==> (#[trigger] r@[j]).wf() && spec_in_area(
                    r@[j],
                    around,
                    max_dist as int,
                ),
    {
        let ghost pred = |q: Point| spec_in_area(q, around, max_dist as int);
        let x0 = crate::math::floor_div(around.x - max_dist, GRID_SIZE);
        let x1 = crate::math::floor_div(around.x + max_dist, GRID_SIZE);
        let y0 = crate::math::floor_div(around.y - max_dist, GRID_SIZE);
        let y1 = crate::math::floor_div(around.y + max_dist, GRID_SIZE);
        let mut out: Vec<Point> = Vec::new();
        let n = self.cells.len();
        let mut i: usize = 0;
        proof {
            broadcast use vstd::seq_lib::group_to_multiset_ensures;

            assert(self.cells@.take(0) =~= Seq::<GridCell>::empty());
            assert(out@.to_multiset() =~= Multiset::<Point>::empty());
        }
        while i < n
            invariant
                self.wf(),
                around.wf(),
                0 < max_dist <= COORD_LIMIT,
                n == self.cells@.len(),
                i <= n,
                pred == (|q: Point| spec_in_area(q, around, max_dist as int)),
                x0 == spec_cell_coord(around.x - max_dist),
                x1 == spec_cell_coord(around.x + max_dist),
                y0 == spec_cell_coord(around.y - max_dist),
                y1 == spec_cell_coord(around.y + max_dist),
                out@.to_multiset() == filtered_cells_ms(self.cells@.take(i as int), pred),
                forall|j: int| 0 <= j < out@.len() ==> (#[trigger] out@[j]).wf() && pred(out@[j]),
            decreases n - i,
        {
            let c = &self.cells[i];
            proof {
                assert(self.cells@.take(i as int + 1).drop_last() =~= self.cells@.take(
                    i as int,
                ));
                assert(self.cells@.take(i as int + 1).last() == self.cells@[i as int]);
            }
            if c.cx < x0 || c.cx > x1 || c.cy < y0 || c.cy > y1 {
                proof {
                    broadcast use vstd::seq_lib::group_to_multiset_ensures;

                    assert forall|j: int| 0 <= j < c.points@.len() implies !pred(
                        #[trigger] c.points@[j],
                    ) by {
                        let q = c.points@[j];
                        if pred(q) {
                            lemma_axis_within_dist(q.pos, around);
                            vstd::arithmetic::div_mod::lemma_div_is_ordered(
                                around.x - max_dist,
                                q.pos.x as int,
                                GRID_SIZE as int,
                            );
                            vstd::arithmetic::div_mod::lemma_div_is_ordered(
                                q.pos.x as int,
                                around.x + max_dist,
                                GRID_SIZE as int,
                            );
                            vstd::arithmetic::div_mod::lemma_div_is_ordered(
                                around.y - max_dist,
                                q.pos.y as int,
                                GRID_SIZE as int,
                            );
                            vstd::arithmetic::div_mod::lemma_div_is_ordered(
                                q.pos.y as int,
                                around.y + max_dist,
                                GRID_SIZE as int,
                            );
                        }
                    }
                    c.points@.lemma_all_neg_filter_empty(pred);
                    assert(c.points@.filter(pred) =~= Seq::<Point>::empty());
                    assert(Seq::<Point>::empty().to_multiset() =~= Multiset::<Point>::empty());
                    assert(out@.to_multiset() =~= filtered_cells_ms(
                        self.cells@.take(i as int + 1),
                        pred,
                    ));
                }
            } else {
                let m = c.points.len();
                let mut j: usize = 0;
                proof {
                    broadcast use vstd::seq_lib::group_to_multiset_ensures;
                    broadcast use Seq::<_>::lemma_filter_push;

                    assert(c.points@.take(0) =~= Seq::<Point>::empty());
                    assert(Seq::<Point>::empty().filter(pred) =~= Seq::<Point>::empty());
                    assert(Seq::<Point>::empty().to_multiset() =~= Multiset::<Point>::empty());
                    assert(out@.to_multiset() =~= filtered_cells_ms(
                        self.cells@.take(i as int),
                        pred,
                    ).add(c.points@.take(0).filter(pred).to_multiset()));
                }
                while j < m
                    invariant
                        self.wf(),
                        around.wf(),
                        0 < max_dist <= COORD_LIMIT,
                        n == self.cells@.len(),
                        i < n,
                        m == self.cells@[i as int].points@.len(),
                        c == &self.cells@[i as int],
                        j <= m,
                        pred == (|q: Point| spec_in_area(q, around, max_dist as int)),
                        out@.to_multiset() == filtered_cells_ms(
                            self.cells@.take(i as int),
                            pred,
                        ).add(c.points@.take(j as int).filter(pred).to_multiset()),
                        forall|k: int|
                            0 <= k < out@.len() ==> (#[trigger] out@[k]).wf() && pred(out@[k]),
                    decreases m - j,
                {
                    let q = c.points[j];
                    proof {
                        broadcast use vstd::seq_lib::group_to_multiset_ensures;
                        broadcast use Seq::<_>::lemma_filter_push;

                        assert(c.points@.take(j as int + 1) =~= c.points@.take(j as int).push(
                            q,
                        ));
                    }
                    let d = q.pos.dist(around);
                    if d < max_dist {
                        out.push(q);
                        proof {
                            assert(c.points@.take(j as int + 1).filter(pred) =~= c.points@.take(
                                j as int,
                            ).filter(pred).push(q));
                            assert(out@.to_multiset() =~= filtered_cells_ms(
                                self.cells@.take(i as int),
                                pred,
                            ).add(c.points@.take(j as int + 1).filter(pred).to_multiset()));
                        }
                    } else {
                        proof {
                            assert(c.points@.take(j as int + 1).filter(pred) =~= c.points@.take(
                                j as int,
                            ).filter(pred));
                        }
                    }
                    j += 1;
                }
                proof {
                    assert(c.points@.take(m as int) =~= c.points@);
                    assert(out@.to_multiset() =~= filtered_cells_ms(
                        self.cells@.take(i as int + 1),
                        pred,
                    ));
                }
            }
            i += 1;
        }
        proof {
            assert(self.cells@.take(n as int) =~= self.cells@);
            assert forall|v: Point|
                #[trigger] out@.to_multiset().count(v) == if spec_in_area(
                    v,
                    around,
                    max_dist as int,
                ) {
                    self.grid_ms().count(v)
                } else {
                    0
                } by {
                lemma_filtered_cells_ms_count(self.cells@, pred, v);
            }
        }
        out
    }
}


/// A point survives eviction at time `now` iff its expiry is still in the
/// future.
pub open spec fn spec_keep_point(p: Point, now: u64) -> bool {
    p.expire_at > now
}

/// Identifiers of the points of `s` that expire at or before `now`, in
/// storage order.
pub open spec fn dead_ids(s: Seq<Point>, now: u64) -> Seq<u32> {
    s.filter(|p: Point| !spec_keep_point(p, now)).map_values(|p: Point| p.id)
}

/// Identifiers of the expired points across `cs`, cell by cell.
pub open spec fn cells_dead_ids(cs: Seq<GridCell>, now: u64) -> Seq<u32>
    decreases cs.len(),
{
    if cs.len() == 0 {
        Seq::empty()
    } else {
        cells_dead_ids(cs.drop_last(), now) + dead_ids(cs.last().points@, now)
    }
}

/// Drops the expired points of one list, recording their identifiers.
fn prune_points(v: &mut Vec<Point>, now: u64, removed: &mut Vec<u32>)
    ensures
        final(v)@ == old(v)@.filter(|p: Point| spec_keep_point(p, now)),
        final(removed)@ == old(removed)@ + dead_ids(old(v)@, now),
{
    let ghost keep = |p: Point| spec_keep_point(p, now);
    let ghost dead = |p: Point| !spec_keep_point(p, now);
    let mut out: Vec<Point> = Vec::new();
    let n = v.len();
    let mut j: usize = 0;
    proof {
        broadcast use Seq::<_>::lemma_filter_push;

        assert(v@.take(0) =~= Seq::<Point>::empty());
        assert(Seq::<Point>::empty().filter(keep) =~= Seq::<Point>::empty());
        assert(Seq::<Point>::empty().filter(dead) =~= Seq::<Point>::empty());
        assert(Seq::<Point>::empty().map_values(|p: Point| p.id) =~= Seq::<u32>::empty());
        assert(removed@ == old(removed)@ + v@.take(0).filter(dead).map_values(
            |p: Point| p.id,
        ));
    }
    while j < n
        invariant
            n == v@.len(),
            v@ == old(v)@,
            j <= n,
            keep == (|p: Point| spec_keep_point(p, now)),
            dead == (|p: Point| !spec_keep_point(p, now)),
            out@ == v@.take(j as int).filter(keep),
            removed@ == old(removed)@ + v@.take(j as int).filter(dead).map_values(
                |p: Point| p.id,
            ),
        decreases n - j,
    {
        let p = v[j];
        proof {
            broadcast use Seq::<_>::lemma_filter_push;

            assert(v@.take(j as int + 1) =~= v@.take(j as int).push(p));
        }
        if p.expire_at > now {
            out.push(p);
            proof {
                assert(v@.take(j as int + 1).filter(dead) =~= v@.take(j as int).filter(dead));
            }
        } else {
            removed.push(p.id);
            proof {
                assert(v@.take(j as int + 1).filter(keep) =~= v@.take(j as int).filter(keep));
                assert(v@.take(j as int + 1).filter(dead) =~= v@.take(j as int).filter(
                    dead,
                ).push(p));
                assert(v@.take(j as int + 1).filter(dead).map_values(|q: Point| q.id)
                    =~= v@.take(j as int).filter(dead).map_values(|q: Point| q.id).push(p.id));
            }
        }
        j += 1;
    }
    proof {
        assert(v@.take(n as int) =~= v@);
    }
    *v = out;
}

impl GridPointMap {
    /// The nearest stored boundary or obstacle point, found by widening the
    /// searched ring one cell size at a time.  Gives up (returns `None`)
    /// once the ring exceeds four cell sizes even if farther points exist.
    pub fn get_nearest_point(&self, around: Pos) -> (r: Option<Point>)
        requires
            self.wf(),
            around.wf(),
        ensures
            match r {
                Some(p) => p.wf() && self.grid_ms().contains(p) && p.pos.spec_dist(around) < 4
                    * GRID_SIZE && forall|v: Point|
                    self.grid_ms().contains(v) ==> p.pos.spec_dist(around)
                        <= #[trigger] v.pos.spec_dist(around),
                None => forall|v: Point|
                    self.grid_ms().contains(v) ==> #[trigger] v.pos.spec_dist(around) >= 4
                        * GRID_SIZE,
            },
    {
        let mut g: i64 = 1;
        while g < 5
            invariant
                self.wf(),
                around.wf(),
                1 <= g <= 5,
                forall|v: Point|
                    self.grid_ms().contains(v) ==> #[trigger] v.pos.spec_dist(around) >= (g - 1)
                        * GRID_SIZE,
            decreases 5 - g,
        {
            let dist = g * GRID_SIZE;
            let points = self.get_points_in_area(around, dist);
            proof {
                broadcast use vstd::seq_lib::group_to_multiset_ensures;
            }
            if points.len() > 0 {
                let mut best: Point = points[0];
                let mut best_dist: i64 = best.pos.dist(around);
                let m = points.len();
                let mut k: usize = 1;
                while k < m
                    invariant
                        self.wf(),
                        around.wf(),
                        m == points@.len(),
                        1 <= k <= m,
                        best.wf(),
                        points@.contains(best),
                        best_dist == best.pos.spec_dist(around),
                        forall|j: int|
                            0 <= j < points@.len() ==> (#[trigger] points@[j]).wf(),
                        forall|j: int|
                            0 <= j < k ==> best_dist <= (#[trigger] points@[j]).pos.spec_dist(
                                around,
                            ),
                    decreases m - k,
                {
                    let cand = points[k];
                    let cand_dist = cand.pos.dist(around);
                    if cand_dist < best_dist {
                        best = cand;
                        best_dist = cand_dist;
                    }
                    k += 1;
                }
                proof {
                    broadcast use vstd::seq_lib::group_to_multiset_ensures;

                    assert(points@.to_multiset().count(best) > 0);
                    assert forall|v: Point| self.grid_ms().contains(v) implies best.pos.spec_dist(
                        around,
                    ) <= #[trigger] v.pos.spec_dist(around) by {
                        if v.pos.spec_dist(around) < dist {
                            assert(points@.to_multiset().count(v) > 0);
                            let j = choose|j: int|
                                0 <= j < points@.len() && points@[j] == v;
                            assert(best_dist <= points@[j].pos.spec_dist(around));
                        }
                    }
                }
                return Some(best);
            }
            proof {
                broadcast use vstd::seq_lib::group_to_multiset_ensures;

                assert forall|v: Point| self.grid_ms().contains(v) implies #[trigger] v.pos.spec_dist(
                    around,
                ) >= g * GRID_SIZE by {
                    if v.pos.spec_dist(around) < dist {
                        assert(points@.to_multiset().count(v) == self.grid_ms().count(v));
                        assert(points@.to_multiset().count(v) == 0);
                    }
                }
            }
            g += 1;
        }
        None
    }

    /// Number of points in the single grid cell containing `around`; a cheap
    /// local-density estimate, not a radius query.
    pub fn get_count_in_area(&self, around: Pos) -> (r: u32)
        requires
            self.wf(),
            around.wf(),
        ensures
            r as int == crate::math::spec_clamp(
                spec_cell_count(
                    self.cells@,
                    spec_cell_coord(around.x as int),
                    spec_cell_coord(around.y as int),
                ),
                0,
                u32::MAX as int,
            ),
    {
        let cx = crate::math::floor_div(around.x, GRID_SIZE);
        let cy = crate::math::floor_div(around.y, GRID_SIZE);
        match self.find_cell(cx, cy) {
            Some(i) => {
                proof {
                    lemma_cell_count_found(self.cells@, cx as int, cy as int, i as int);
                }
                let l = self.cells[i].points.len();
                if l >= u32::MAX as usize {
                    u32::MAX
                } else {
                    l as u32
                }
            },
            None => {
                proof {
                    lemma_cell_count_absent(self.cells@, cx as int, cy as int);
                }
                0
            },
        }
    }

    /// A copy of all stored direction-marker points.
    pub fn get_arrow_points(&self) -> (r: Vec<Point>)
        requires
            self.wf(),
        ensures
            r@ == self.arrow_points@,
    {
        let mut out: Vec<Point> = Vec::new();
        let n = self.arrow_points.len();
        let mut i: usize = 0;
        while i < n
            invariant
                n == self.arrow_points@.len(),
                i <= n,
                out@ == self.arrow_points@.take(i as int),
            decreases n - i,
        {
            out.push(self.arrow_points[i]);
            proof {
                assert(self.arrow_points@.take(i as int + 1) =~= self.arrow_points@.take(
                    i as int,
                ).push(self.arrow_points@[i as int]));
            }
            i += 1;
        }
        proof {
            assert(self.arrow_points@.take(n as int) =~= self.arrow_points@);
        }
        out
    }

    /// Evicts every stored point whose expiry has passed, appending the
    /// identifiers of the evicted points to the internal removal buffer:
    /// markers first, then the grid cells in storage order.
    pub fn remove(&mut self, now: u64)
        requires
            old(self).wf(),
        ensures
            final(self).wf(),
            final(self).cells@.len() == old(self).cells@.len(),
            forall|i: int|
                0 <= i < old(self).cells@.len() ==> (#[trigger] final(self).cells@[i]).cx == old(self).cells@[i].cx && final(self).cells@[i].cy == old(self).cells@[i].cy && final(self).cells@[i].points@ == old(self).cells@[i].points@.filter(
                    |p: Point| spec_keep_point(p, now),
                ),
            final(self).arrow_points@ == old(self).arrow_points@.filter(
                |p: Point| spec_keep_point(p, now),
            ),
            final(self).removed_ids@ == old(self).removed_ids@ + dead_ids(
                old(self).arrow_points@,
                now,
            ) + cells_dead_ids(old(self).cells@, now),
            forall|v: Point|
                #[trigger] final(self).grid_ms().count(v) == if spec_keep_point(v, now) {
                    old(self).grid_ms().count(v)
                } else {
                    0
                },
    {
        let ghost keep = |p: Point| spec_keep_point(p, now);
        let ghost cells0 = self.cells@;
        let ghost arrows0 = self.arrow_points@;
        prune_points(&mut self.arrow_points, now, &mut self.removed_ids);
        let n = self.cells.len();
        let mut i: usize = 0;
        proof {
            assert(cells0.take(0) =~= Seq::<GridCell>::empty());
            assert(self.removed_ids@ =~= old(self).removed_ids@ + dead_ids(arrows0, now)
                + cells_dead_ids(cells0.take(0), now));
        }
        while i < n
            invariant
                n == self.cells@.len(),
                n == cells0.len(),
                i <= n,
                keep == (|p: Point| spec_keep_point(p, now)),
                self.arrow_points@ == arrows0.filter(keep),
                forall|j: int|
                    i <= j < n ==> #[trigger] self.cells@[j] == cells0[j],
                forall|j: int|
                    0 <= j < i ==> (#[trigger] self.cells@[j]).cx == cells0[j].cx
                        && self.cells@[j].cy == cells0[j].cy && self.cells@[j].points@
                        == cells0[j].points@.filter(keep),
                self.removed_ids@ == old(self).removed_ids@ + dead_ids(arrows0, now)
                    + cells_dead_ids(cells0.take(i as int), now),
            decreases n - i,
        {
            prune_points(&mut self.cells[i].points, now, &mut self.removed_ids);
            proof {
                assert(cells0.take(i as int + 1).drop_last() =~= cells0.take(i as int));
                assert(cells0.take(i as int + 1).last() == cells0[i as int]);
                assert(self.removed_ids@ =~= old(self).removed_ids@ + dead_ids(arrows0, now)
                    + cells_dead_ids(cells0.take(i as int + 1), now));
            }
            i += 1;
        }
        proof {
            assert(cells0.take(n as int) =~= cells0);
            assert forall|j1: int, j2: int| 0 <= j1 < j2 < self.cells@.len() implies !((
            #[trigger] self.cells@[j1]).cx == (#[trigger] self.cells@[j2]).cx
                && self.cells@[j1].cy == self.cells@[j2].cy) by {
                assert(cells0[j1].cx == self.cells@[j1].cx && cells0[j1].cy
                    == self.cells@[j1].cy);
            }
            assert forall|j: int| 0 <= j < self.cells@.len() implies (
            #[trigger] self.cells@[j]).wf() by {
                let s0 = cells0[j].points@;
                let s2 = self.cells@[j].points@;
                assert(cells0[j].wf());
                assert(s2 == s0.filter(keep));
                assert forall|k: int| 0 <= k < s2.len() implies (#[trigger] s2[k]).wf()
                    && spec_in_cell(s2[k], self.cells@[j].cx as int, self.cells@[j].cy as int)
                    && !s2[k].point_type.spec_is_arrow() by {
                    assert(s2.contains(s2[k]));
                    s0.lemma_filter_contains_rev(keep, s2[k]);
                    let idx = choose|idx: int| 0 <= idx < s0.len() && s0[idx] == s2[k];
                    assert(s0[idx].wf() && spec_in_cell(
                        s0[idx],
                        cells0[j].cx as int,
                        cells0[j].cy as int,
                    ) && !s0[idx].point_type.spec_is_arrow());
                }
            }
            assert forall|k: int| 0 <= k < self.arrow_points@.len() implies (
            #[trigger] self.arrow_points@[k]).wf()
                && self.arrow_points@[k].point_type.spec_is_arrow() by {
                let a2 = self.arrow_points@;
                assert(a2.contains(a2[k]));
                arrows0.lemma_filter_contains_rev(keep, a2[k]);
                let idx = choose|idx: int| 0 <= idx < arrows0.len() && arrows0[idx] == a2[k];
                assert(arrows0[idx].wf() && arrows0[idx].point_type.spec_is_arrow());
            }
            assert forall|v: Point|
                #[trigger] final(self).grid_ms().count(v) == if spec_keep_point(v, now) {
                    cells_ms(cells0).count(v)
                } else {
                    0
                } by {
                lemma_cells_ms_pointwise_filter(cells0, self.cells@, keep);
                lemma_filtered_cells_ms_count(cells0, keep, v);
            }
        }
    }

    /// Returns and clears the buffer of identifiers removed since the last
    /// call: the removal side of the map delta.
    pub fn get_last_removed_ids(&mut self) -> (r: Vec<u32>)
        requires
            old(self).wf(),
        ensures
            final(self).wf(),
            r@ == old(self).removed_ids@,
            final(self).removed_ids@ == Seq::<u32>::empty(),
            final(self).cells@ == old(self).cells@,
            final(self).arrow_points@ == old(self).arrow_points@,
            final(self).grid_ms() == old(self).grid_ms(),
    {
        let mut out: Vec<u32> = Vec::new();
        core::mem::swap(&mut out, &mut self.removed_ids);
        out
    }
}

/// When every cell of `cs2` holds the `pred`-filtered points of the matching
/// cell of `cs1`, the whole store is the filtered store.
proof fn lemma_cells_ms_pointwise_filter(
    cs1: Seq<GridCell>,
    cs2: Seq<GridCell>,
    pred: spec_fn(Point) -> bool,
)
    requires
        cs1.len() == cs2.len(),
        forall|i: int|
            0 <= i < cs1.len() ==> (#[trigger] cs2[i]).points@ == cs1[i].points@.filter(pred),
    ensures
        cells_ms(cs2) == filtered_cells_ms(cs1, pred),
    decreases cs1.len(),
{
    if cs1.len() > 0 {
        lemma_cells_ms_pointwise_filter(cs1.drop_last(), cs2.drop_last(), pred);
        assert(cs2.last().points@ == cs1.last().points@.filter(pred));
        assert(cells_ms(cs2) =~= filtered_cells_ms(cs1, pred));
    }
}


/// Number of points in the first cell of `cs` with the given grid
/// coordinates, zero when there is none.
pub open spec fn spec_cell_count(cs: Seq<GridCell>, cx: int, cy: int) -> int
    decreases cs.len(),
{
    if cs.len() == 0 {
        0
    } else if cs[0].cx == cx && cs[0].cy == cy {
        cs[0].points@.len() as int
    } else {
        spec_cell_count(cs.drop_first(), cx, cy)
    }
}

/// With distinct cell keys, any matching cell determines the cell count.
proof fn lemma_cell_count_found(cs: Seq<GridCell>, cx: int, cy: int, i: int)
    requires
        forall|i1: int, i2: int|
            0 <= i1 < i2 < cs.len() ==> !((#[trigger] cs[i1]).cx == (#[trigger] cs[i2]).cx
                && cs[i1].cy == cs[i2].cy),
        0 <= i < cs.len(),
        cs[i].cx == cx && cs[i].cy == cy,
    ensures
        spec_cell_count(cs, cx, cy) == cs[i].points@.len(),
    decreases cs.len(),
{
    if cs[0].cx == cx && cs[0].cy == cy {
        assert(i == 0);
    } else {
        assert(i >= 1);
        let rest = cs.drop_first();
        assert(rest[i - 1] == cs[i]);
        assert(forall|i1: int, i2: int|
            0 <= i1 < i2 < rest.len() ==> !((#[trigger] rest[i1]).cx == (#[trigger] rest[i2]).cx
                && rest[i1].cy == rest[i2].cy));
        lemma_cell_count_found(rest, cx, cy, i - 1);
    }
}

/// With no matching cell, the cell count is zero.
proof fn lemma_cell_count_absent(cs: Seq<GridCell>, cx: int, cy: int)
    requires
        forall|i: int| 0 <= i < cs.len() ==> !((#[trigger] cs[i]).cx == cx && cs[i].cy == cy),
    ensures
        spec_cell_count(cs, cx, cy) == 0,
    decreases cs.len(),
{
    if cs.len() > 0 {
        let rest = cs.drop_first();
        assert(forall|i: int|
            0 <= i < rest.len() ==> !((#[trigger] rest[i]).cx == cx && rest[i].cy == cy));
        lemma_cell_count_absent(rest, cx, cy);
    }
}

} // verus!
