use vstd::prelude::*;

use crate::task::{enter_side_spec, exit_side_spec, DependencyKind, Side};

verus! {

/// Length in pixels that a link travels straight out of, or into, a bar
/// before it turns.
pub const ROUTE_STUB: i64 = 10;

/// How far below a row a link loops back when both ends sit on that row.
pub const SAME_ROW_LOOP: i64 = 8;

/// Leftmost x that a start-to-start lane may take.
pub const LANE_MIN_X: i64 = 2;

/// Largest magnitude of a coordinate that hit-testing accepts.
pub const COORD_LIMIT: i64 = 16777216;

/// A point in pixels.
#[derive(Debug, Clone, Copy, PartialEq, Eq, Structural)]
pub struct Point {
    pub x: i64,
    pub y: i64,
}

/// An axis-aligned rectangle in pixels.
#[derive(Debug, Clone, Copy, PartialEq, Eq, Structural)]
pub struct Rect {
    pub min_x: i64,
    pub min_y: i64,
    pub max_x: i64,
    pub max_y: i64,
}

pub open spec fn pt(x: int, y: int) -> Point {
    Point { x: x as i64, y: y as i64 }
}

impl Rect {
    /// Corners in order, and small enough that adding the routing offsets to
    /// them cannot overflow.
    pub open spec fn wf(&self) -> bool {
        &&& self.min_x <= self.max_x
        &&& self.min_y <= self.max_y
        &&& -COORD_LIMIT <= self.min_x && self.max_x <= COORD_LIMIT
        &&& -COORD_LIMIT <= self.min_y && self.max_y <= COORD_LIMIT
    }

    pub open spec fn center_y_spec(&self) -> int {
        self.min_y + (self.max_y - self.min_y) / 2
    }

    pub open spec fn contains_spec(&self, p: Point) -> bool {
        self.min_x <= p.x <= self.max_x && self.min_y <= p.y <= self.max_y
    }

    /// The vertical middle of the rectangle, rounded towards `min_y`.
    pub fn center_y(&self) -> (r: i64)
        requires
            self.wf(),
        ensures
            r == self.center_y_spec(),
    {
        self.min_y + (self.max_y - self.min_y) / 2
    }

    /// Whether `p` lies inside the rectangle or on its border.
    pub fn contains(&self, p: Point) -> (r: bool)
        ensures
            r == self.contains_spec(p),
    {
        self.min_x <= p.x && p.x <= self.max_x && self.min_y <= p.y && p.y <= self.max_y
    }
}

pub open spec fn side_x(r: Rect, side: Side) -> int {
    match side {
        Side::Left => r.min_x as int,
        Side::Right => r.max_x as int,
    }
}

/// Where a link of `kind` leaves `from` and enters `to`: on the side that the
/// kind names, at the bar's vertical middle.
pub open spec fn endpoints_spec(from: Rect, to: Rect, kind: DependencyKind) -> (Point, Point) {
    (
        pt(side_x(from, exit_side_spec(kind)), from.center_y_spec()),
        pt(side_x(to, enter_side_spec(kind)), to.center_y_spec()),
    )
}

/// The exit and enter points of a link between two bars.
pub fn dependency_endpoints(from: Rect, to: Rect, kind: DependencyKind) -> (r: (Point, Point))
    requires
        from.wf(),
        to.wf(),
    ensures
        r == endpoints_spec(from, to, kind),
{
    let start_x = match kind.exit_side() {
        Side::Left => from.min_x,
        Side::Right => from.max_x,
    };
    let end_x = match kind.enter_side() {
        Side::Left => to.min_x,
        Side::Right => to.max_x,
    };
    (Point { x: start_x, y: from.center_y() }, Point { x: end_x, y: to.center_y() })
}

/// A point within the coordinate range that routing and hit-testing accept.
pub open spec fn routable(p: Point) -> bool {
    -COORD_LIMIT <= p.x <= COORD_LIMIT && -COORD_LIMIT <= p.y <= COORD_LIMIT
}

pub open spec fn min_i(a: int, b: int) -> int {
    if a <= b { a } else { b }
}

pub open spec fn max_i(a: int, b: int) -> int {
    if a >= b { a } else { b }
}

/// The lane between two rows: halfway between them, rounded towards the upper row.
pub open spec fn gutter_y(a: int, b: int) -> int {
    min_i(a, b) + (max_i(a, b) - min_i(a, b)) / 2
}

/// A path that leaves `from` sideways to `exit_x`, runs along the lane at
/// `lane_y`, and comes into `to` from `enter_x`.
pub open spec fn detour(from: Point, to: Point, exit_x: int, enter_x: int, lane_y: int) -> Seq<Point> {
    seq![
        from,
        pt(exit_x, from.y as int),
        pt(exit_x, lane_y),
        pt(enter_x, lane_y),
        pt(enter_x, to.y as int),
        to,
    ]
}

/// Route through the lane below the row when both ends share it, else
/// through the gutter between the two rows.
pub open spec fn backtrack_route(from: Point, to: Point, exit_x: int, enter_x: int) -> Seq<Point> {
    if from.y == to.y {
        detour(from, to, exit_x, enter_x, from.y + SAME_ROW_LOOP)
    } else {
        detour(from, to, exit_x, enter_x, gutter_y(from.y as int, to.y as int))
    }
}

/// A path that runs sideways to `lane_x`, straight to the target row, and
/// sideways into `to`; on a single row, a straight line through `lane_x`.
pub open spec fn lane_route(from: Point, to: Point, lane_x: int) -> Seq<Point> {
    if from.y == to.y {
        seq![from, pt(lane_x, from.y as int), to]
    } else {
        seq![from, pt(lane_x, from.y as int), pt(lane_x, to.y as int), to]
    }
}

/// The route that a link of `kind` takes from exit point `from` to enter
/// point `to`.
pub open spec fn route_spec(from: Point, to: Point, kind: DependencyKind) -> Seq<Point> {
    match kind {
        DependencyKind::FinishToStart => {
            let exit_x = from.x + ROUTE_STUB;
            let enter_x = to.x - ROUTE_STUB;
            if exit_x <= enter_x {
                if from.y == to.y {
                    seq![from, to]
                } else {
                    lane_route(from, to, exit_x)
                }
            } else {
                backtrack_route(from, to, exit_x, enter_x)
            }
        },
        DependencyKind::StartToStart => lane_route(
            from,
            to,
            max_i(min_i(from.x as int, to.x as int) - ROUTE_STUB, LANE_MIN_X as int),
        ),
        DependencyKind::FinishToFinish => lane_route(
            from,
            to,
            max_i(from.x as int, to.x as int) + ROUTE_STUB,
        ),
        DependencyKind::StartToFinish => {
            let exit_x = from.x - ROUTE_STUB;
            let enter_x = to.x + ROUTE_STUB;
            if exit_x >= enter_x {
                if from.y == to.y {
                    seq![from, to]
                } else {
                    lane_route(from, to, to.x + (from.x - to.x) / 2)
                }
            } else {
                backtrack_route(from, to, exit_x, enter_x)
            }
        },
    }
}

fn lane_route_exec(from: Point, to: Point, lane_x: i64) -> (r: Vec<Point>)
    ensures
        r@ == lane_route(from, to, lane_x as int),
{
    if from.y == to.y {
        vec![from, Point { x: lane_x, y: from.y }, to]
    } else {
        vec![from, Point { x: lane_x, y: from.y }, Point { x: lane_x, y: to.y }, to]
    }
}

fn backtrack_route_exec(from: Point, to: Point, exit_x: i64, enter_x: i64) -> (r: Vec<Point>)
    requires
        routable(from),
        routable(to),
    ensures
        r@ == backtrack_route(from, to, exit_x as int, enter_x as int),
{
    let lane_y = if from.y == to.y {
        from.y + SAME_ROW_LOOP
    } else {
        let lo = if from.y <= to.y { from.y } else { to.y };
        let hi = if from.y >= to.y { from.y } else { to.y };
        lo + (hi - lo) / 2
    };
    vec![
        from,
        Point { x: exit_x, y: from.y },
        Point { x: exit_x, y: lane_y },
        Point { x: enter_x, y: lane_y },
        Point { x: enter_x, y: to.y },
        to,
    ]
}

/// The orthogonal route of a link from exit point `from` to enter point `to`.
pub fn dependency_route_points(from: Point, to: Point, kind: DependencyKind) -> (r: Vec<Point>)
    requires
        routable(from),
        routable(to),
    ensures
        r@ == route_spec(from, to, kind),
        r@.len() >= 2,
        r@[0] == from,
        r@[r@.len() - 1] == to,
{
    match kind {
        DependencyKind::FinishToStart => {
            let exit_x = from.x + ROUTE_STUB;
            let enter_x = to.x - ROUTE_STUB;
            if exit_x <= enter_x {
                if from.y == to.y {
                    vec![from, to]
                } else {
                    lane_route_exec(from, to, exit_x)
                }
            } else {
                backtrack_route_exec(from, to, exit_x, enter_x)
            }
        },
        DependencyKind::StartToStart => {
            let low = if from.x <= to.x { from.x } else { to.x };
            let lane = if low - ROUTE_STUB >= LANE_MIN_X { low - ROUTE_STUB } else { LANE_MIN_X };
            lane_route_exec(from, to, lane)
        },
        DependencyKind::FinishToFinish => {
            let high = if from.x >= to.x { from.x } else { to.x };
            lane_route_exec(from, to, high + ROUTE_STUB)
        },
        DependencyKind::StartToFinish => {
            let exit_x = from.x - ROUTE_STUB;
            let enter_x = to.x + ROUTE_STUB;
            if exit_x >= enter_x {
                if from.y == to.y {
                    vec![from, to]
                } else {
                    lane_route_exec(from, to, to.x + (from.x - to.x) / 2)
                }
            } else {
                backtrack_route_exec(from, to, exit_x, enter_x)
            }
        },
    }
}

pub open spec fn dot(ax: int, ay: int, bx: int, by: int) -> int {
    ax * bx + ay * by
}

pub open spec fn cross(ax: int, ay: int, bx: int, by: int) -> int {
    ax * by - ay * bx
}

pub open spec fn dist_sq(p: Point, q: Point) -> int {
    dot(p.x - q.x, p.y - q.y, p.x - q.x, p.y - q.y)
}

/// Whether `p` lies closer than `threshold` to the segment from `a` to `b`. The
/// nearest point of the segment is `a + t (b - a)` with `t` the projection of
/// `p` clamped to [0, 1]: at `a` when `t <= 0`, at `b` when `t >= 1`, and
/// otherwise on the line, whose squared distance is `cross^2 / |b - a|^2`.
/// All comparisons are on squares, so no root is taken.
pub open spec fn near_segment(p: Point, a: Point, b: Point, threshold: int) -> bool {
    let abx = b.x - a.x;
    let aby = b.y - a.y;
    let apx = p.x - a.x;
    let apy = p.y - a.y;
    let len_sq = dot(abx, aby, abx, aby);
    let proj = dot(apx, apy, abx, aby);
    if len_sq == 0 || proj <= 0 {
        dist_sq(p, a) < threshold * threshold
    } else if proj >= len_sq {
        dist_sq(p, b) < threshold * threshold
    } else {
        cross(abx, aby, apx, apy) * cross(abx, aby, apx, apy) < threshold * threshold * len_sq
    }
}

/// Whether `p` lies closer than `threshold` to some segment of the polyline.
pub open spec fn near_polyline(p: Point, pts: Seq<Point>, threshold: int) -> bool {
    exists|i: int| 0 <= i < pts.len() - 1 && #[trigger] near_segment(p, pts[i], pts[i + 1], threshold)
}

proof fn lemma_mul_bound(a: int, b: int, bound_a: int, bound_b: int)
    requires
        -bound_a <= a <= bound_a,
        -bound_b <= b <= bound_b,
    ensures
        -(bound_a * bound_b) <= a * b <= bound_a * bound_b,
{
    assert(-(bound_a * bound_b) <= a * b <= bound_a * bound_b) by (nonlinear_arith)
        requires
            -bound_a <= a <= bound_a,
            -bound_b <= b <= bound_b,
    ;
}

fn sq_dist(p: Point, q: Point) -> (r: i128)
    requires
        routable(p),
        routable(q),
    ensures
        r == dist_sq(p, q),
{
    let dx = p.x as i128 - q.x as i128;
    let dy = p.y as i128 - q.y as i128;
    proof {
        lemma_mul_bound(dx as int, dx as int, 2 * COORD_LIMIT, 2 * COORD_LIMIT);
        lemma_mul_bound(dy as int, dy as int, 2 * COORD_LIMIT, 2 * COORD_LIMIT);
    }
    dx * dx + dy * dy
}

/// Whether `p` is closer than `threshold` pixels to the segment from `a` to `b`.
pub fn distance_to_segment_within(p: Point, a: Point, b: Point, threshold: i64) -> (r: bool)
    requires
        routable(p),
        routable(a),
        routable(b),
        0 <= threshold <= COORD_LIMIT,
    ensures
        r == near_segment(p, a, b, threshold as int),
{
    let abx = b.x as i128 - a.x as i128;
    let aby = b.y as i128 - a.y as i128;
    let apx = p.x as i128 - a.x as i128;
    let apy = p.y as i128 - a.y as i128;
    let t = threshold as i128;
    let lim = 2 * COORD_LIMIT as i128;
    proof {
        lemma_mul_bound(abx as int, abx as int, lim as int, lim as int);
        lemma_mul_bound(aby as int, aby as int, lim as int, lim as int);
        lemma_mul_bound(apx as int, abx as int, lim as int, lim as int);
        lemma_mul_bound(apy as int, aby as int, lim as int, lim as int);
        lemma_mul_bound(abx as int, apy as int, lim as int, lim as int);
        lemma_mul_bound(aby as int, apx as int, lim as int, lim as int);
        lemma_mul_bound(t as int, t as int, COORD_LIMIT as int, COORD_LIMIT as int);
    }
    let len_sq = abx * abx + aby * aby;
    let proj = apx * abx + apy * aby;
    let thr_sq = t * t;
    if len_sq == 0 || proj <= 0 {
        sq_dist(p, a) < thr_sq
    } else if proj >= len_sq {
        sq_dist(p, b) < thr_sq
    } else {
        let c = abx * apy - aby * apx;
        let bound = 2 * lim * lim;
        proof {
            assert(bound == 2251799813685248);
            assert((bound as int) * (bound as int) == 5070602400912917605986812821504);
            assert((COORD_LIMIT * COORD_LIMIT) as int * (bound as int) == 633825300114114700748351602688);
            lemma_mul_bound(c as int, c as int, bound as int, bound as int);
            lemma_mul_bound(thr_sq as int, len_sq as int, (COORD_LIMIT * COORD_LIMIT) as int, bound as int);
        }
        c * c < thr_sq * len_sq
    }
}

/// Whether `p` is closer than `threshold` pixels to the polyline through `pts`.
pub fn is_point_near_polyline(p: Point, pts: &Vec<Point>, threshold: i64) -> (r: bool)
    requires
        routable(p),
        forall|i: int| 0 <= i < pts@.len() ==> routable(#[trigger] pts@[i]),
        0 <= threshold <= COORD_LIMIT,
    ensures
        r == near_polyline(p, pts@, threshold as int),
{
    if pts.len() < 2 {
        return false;
    }
    let mut i: usize = 0;
    while i < pts.len() - 1
        invariant
            pts@.len() >= 2,
            i + 1 <= pts@.len(),
            routable(p),
            forall|k: int| 0 <= k < pts@.len() ==> routable(#[trigger] pts@[k]),
            0 <= threshold <= COORD_LIMIT,
            forall|k: int| 0 <= k < i ==> !#[trigger] near_segment(p, pts@[k], pts@[k + 1], threshold as int),
        decreases pts@.len() - i,
    {
        if distance_to_segment_within(p, pts[i], pts[i + 1], threshold) {
            return true;
        }
        i += 1;
    }
    false
}

} // verus!
