//! Collision and line-of-sight primitives over fixed-point coordinates.
//!
//! Every predicate here is exact: the executable code decides precisely the
//! integer predicate stated in its contract. Segment tests use orientation
//! signs; segments that merely touch count as intersecting.

use crate::components::{dist_sq, in_coord_range, Position};
use crate::ecs::world::Wall;
use crate::num::{abs_spec, COORD_LIMIT};
use vstd::prelude::*;

verus! {

/// Geometry accepts coordinates up to four times `COORD_LIMIT`, so that
/// rectangles inflated by a padding stay in range.
pub const GEOM_LIMIT: i64 = 4000000000;

pub open spec fn in_geom_range(v: int) -> bool {
    -GEOM_LIMIT <= v <= GEOM_LIMIT
}

pub open spec fn pos_in_geom_range(p: Position) -> bool {
    in_geom_range(p.x as int) && in_geom_range(p.y as int)
}

/// A wall whose corners are representable geometry inputs.
pub open spec fn wall_in_geom_range(w: Wall) -> bool {
    in_geom_range(w.x as int) && in_geom_range(w.y as int) && in_geom_range(w.x + w.width)
        && in_geom_range(w.y + w.height) && in_geom_range(w.width as int) && in_geom_range(
        w.height as int,
    )
}

/// All walls of a list are representable.
pub open spec fn walls_in_geom_range(ws: Seq<Wall>) -> bool {
    forall|i: int| 0 <= i < ws.len() ==> wall_in_geom_range(#[trigger] ws[i])
}

/// Twice the signed area of the triangle `a`, `b`, `c`.
pub open spec fn orient(ax: int, ay: int, bx: int, by: int, cx: int, cy: int) -> int {
    (bx - ax) * (cy - ay) - (by - ay) * (cx - ax)
}

/// Whether the closed segments `p1 p2` and `p3 p4` intersect, by the
/// orientation-sign test; touching at an endpoint counts.
pub open spec fn segs_intersect(p1: Position, p2: Position, p3: Position, p4: Position) -> bool {
    let d1 = orient(p1.x as int, p1.y as int, p2.x as int, p2.y as int, p3.x as int, p3.y as int);
    let d2 = orient(p1.x as int, p1.y as int, p2.x as int, p2.y as int, p4.x as int, p4.y as int);
    let d3 = orient(p3.x as int, p3.y as int, p4.x as int, p4.y as int, p1.x as int, p1.y as int);
    let d4 = orient(p3.x as int, p3.y as int, p4.x as int, p4.y as int, p2.x as int, p2.y as int);
    d1 * d2 <= 0 && d3 * d4 <= 0
}

/// Whether the segment crosses any of the four edges of the axis-aligned
/// rectangle with origin `(rx, ry)` and extents `(rw, rh)`.
pub open spec fn seg_rect_intersect(a: Position, b: Position, rx: int, ry: int, rw: int, rh: int,) -> bool {
    let tl = Position { x: rx as i64, y: ry as i64 };
    let tr = Position { x: (rx + rw) as i64, y: ry as i64 };
    let bl = Position { x: rx as i64, y: (ry + rh) as i64 };
    let br = Position { x: (rx + rw) as i64, y: (ry + rh) as i64 };
    ||| segs_intersect(a, b, tl, tr)
    ||| segs_intersect(a, b, tr, br)
    ||| segs_intersect(a, b, br, bl)
    ||| segs_intersect(a, b, bl, tl)
}

/// Whether two circles overlap: centre distance strictly below the radius
/// sum.
pub open spec fn circles_overlap(p1: Position, r1: int, p2: Position, r2: int) -> bool {
    dist_sq(p1, p2) < (r1 + r2) * (r1 + r2)
}

/// The point of the rectangle closest to `v` along one axis.
pub open spec fn clamp_spec(v: int, lo: int, hi: int) -> int {
    if v < lo {
        lo
    } else if v > hi {
        hi
    } else {
        v
    }
}

/// Whether a circle overlaps an axis-aligned rectangle: the distance from
/// the centre to the nearest rectangle point is strictly below the radius.
pub open spec fn circle_rect_hit(c: Position, r: int, rx: int, ry: int, rw: int, rh: int) -> bool {
    let nx = clamp_spec(c.x as int, rx, rx + rw);
    let ny = clamp_spec(c.y as int, ry, ry + rh);
    (c.x - nx) * (c.x - nx) + (c.y - ny) * (c.y - ny) < r * r
}

/// No wall of the list blocks the straight segment from `a` to `b`, each
/// wall inflated by `pad` on all sides.
pub open spec fn los_pad(a: Position, b: Position, ws: Seq<Wall>, pad: int) -> bool {
    forall|i: int|
        0 <= i < ws.len() ==> !seg_rect_intersect(
            a,
            b,
            (#[trigger] ws[i]).x - pad,
            ws[i].y - pad,
            ws[i].width + 2 * pad,
            ws[i].height + 2 * pad,
        )
}

/// No wall of the list blocks the straight segment from `a` to `b`.
pub open spec fn los(a: Position, b: Position, ws: Seq<Wall>) -> bool {
    los_pad(a, b, ws, 0)
}

/// Signed orientation of three points, computed exactly in wide integers.
fn orient_exec(ax: i64, ay: i64, bx: i64, by: i64, cx: i64, cy: i64) -> (r: i128)
    requires
        in_geom_range(ax as int),
        in_geom_range(ay as int),
        in_geom_range(bx as int),
        in_geom_range(by as int),
        in_geom_range(cx as int),
        in_geom_range(cy as int),
    ensures
        r == orient(ax as int, ay as int, bx as int, by as int, cx as int, cy as int),
{
    let v1 = (bx as i128) - (ax as i128);
    let v2 = (cy as i128) - (ay as i128);
    let v3 = (by as i128) - (ay as i128);
    let v4 = (cx as i128) - (ax as i128);
    proof {
        lemma_mul_bound(v1 as int, v2 as int);
        lemma_mul_bound(v3 as int, v4 as int);
    }
    v1 * v2 - v3 * v4
}

proof fn lemma_mul_bound(a: int, b: int)
    requires
        abs_spec(a) <= 8000000000,
        abs_spec(b) <= 8000000000,
    ensures
        abs_spec(a * b) <= 64000000000000000000,
{
    assert(abs_spec(a * b) <= 64000000000000000000) by (nonlinear_arith)
        requires
            abs_spec(a) <= 8000000000,
            abs_spec(b) <= 8000000000,
    ;
}

/// Whether two closed segments intersect; touching at an endpoint counts.
pub fn line_segment_intersection(p1: Position, p2: Position, p3: Position, p4: Position) -> (r:
    bool)
    requires
        pos_in_geom_range(p1),
        pos_in_geom_range(p2),
        pos_in_geom_range(p3),
        pos_in_geom_range(p4),
    ensures
        r == segs_intersect(p1, p2, p3, p4),
{
    let d1 = orient_exec(p1.x, p1.y, p2.x, p2.y, p3.x, p3.y);
    let d2 = orient_exec(p1.x, p1.y, p2.x, p2.y, p4.x, p4.y);
    let d3 = orient_exec(p3.x, p3.y, p4.x, p4.y, p1.x, p1.y);
    let d4 = orient_exec(p3.x, p3.y, p4.x, p4.y, p2.x, p2.y);
    let first = (d1 <= 0 && d2 >= 0) || (d1 >= 0 && d2 <= 0);
    let second = (d3 <= 0 && d4 >= 0) || (d3 >= 0 && d4 <= 0);
    proof {
        lemma_sign_product(d1 as int, d2 as int);
        lemma_sign_product(d3 as int, d4 as int);
    }
    first && second
}

proof fn lemma_sign_product(a: int, b: int)
    ensures
        (a * b <= 0) <==> ((a <= 0 && b >= 0) || (a >= 0 && b <= 0)),
{
    assert((a * b <= 0) <==> ((a <= 0 && b >= 0) || (a >= 0 && b <= 0))) by (nonlinear_arith);
}

/// Whether a segment crosses the rectangle's boundary.
pub fn line_rect_intersection(a: Position, b: Position, rx: i64, ry: i64, rw: i64, rh: i64) -> (r:
    bool)
    requires
        pos_in_geom_range(a),
        pos_in_geom_range(b),
        in_geom_range(rx as int),
        in_geom_range(ry as int),
        in_geom_range(rx + rw),
        in_geom_range(ry + rh),
    ensures
        r == seg_rect_intersect(a, b, rx as int, ry as int, rw as int, rh as int),
{
    let tl = Position { x: rx, y: ry };
    let tr = Position { x: rx + rw, y: ry };
    let bl = Position { x: rx, y: ry + rh };
    let br = Position { x: rx + rw, y: ry + rh };
    line_segment_intersection(a, b, tl, tr) || line_segment_intersection(a, b, tr, br)
        || line_segment_intersection(a, b, br, bl) || line_segment_intersection(a, b, bl, tl)
}

/// Whether two circles overlap.
pub fn circle_circle_collision(pos1: Position, radius1: i64, pos2: Position, radius2: i64) -> (r:
    bool)
    requires
        in_coord_range(pos1),
        in_coord_range(pos2),
        0 <= radius1 <= COORD_LIMIT,
        0 <= radius2 <= COORD_LIMIT,
    ensures
        r == circles_overlap(pos1, radius1 as int, pos2, radius2 as int),
{
    let d2 = pos1.distance_sq_to(&pos2);
    let rsum = (radius1 as i128) + (radius2 as i128);
    proof {
        lemma_mul_bound(rsum as int, rsum as int);
    }
    d2 < rsum * rsum
}

/// Whether a circle overlaps an axis-aligned rectangle.
pub fn circle_rect_collision(
    circle_pos: Position,
    radius: i64,
    rect_x: i64,
    rect_y: i64,
    rect_w: i64,
    rect_h: i64,
) -> (r: bool)
    requires
        pos_in_geom_range(circle_pos),
        in_geom_range(rect_x as int),
        in_geom_range(rect_y as int),
        in_geom_range(rect_x + rect_w),
        in_geom_range(rect_y + rect_h),
        0 <= radius <= GEOM_LIMIT,
    ensures
        r == circle_rect_hit(
            circle_pos,
            radius as int,
            rect_x as int,
            rect_y as int,
            rect_w as int,
            rect_h as int,
        ),
{
    let hi_x = rect_x + rect_w;
    let hi_y = rect_y + rect_h;
    let nx = if circle_pos.x < rect_x {
        rect_x
    } else if circle_pos.x > hi_x {
        hi_x
    } else {
        circle_pos.x
    };
    let ny = if circle_pos.y < rect_y {
        rect_y
    } else if circle_pos.y > hi_y {
        hi_y
    } else {
        circle_pos.y
    };
    let dx = (circle_pos.x as i128) - (nx as i128);
    let dy = (circle_pos.y as i128) - (ny as i128);
    proof {
        lemma_mul_bound(dx as int, dy as int);
        lemma_mul_bound(dx as int, dx as int);
        lemma_mul_bound(dy as int, dy as int);
        lemma_mul_bound(radius as int, radius as int);
    }
    dx * dx + dy * dy < (radius as i128) * (radius as i128)
}

/// Whether the point lies in the closed rectangle.
pub fn point_in_rect(point: Position, rect_x: i64, rect_y: i64, rect_w: i64, rect_h: i64) -> (r:
    bool)
    requires
        in_geom_range(rect_x + rect_w),
        in_geom_range(rect_y + rect_h),
    ensures
        r == (point.x >= rect_x && point.x <= rect_x + rect_w && point.y >= rect_y && point.y
            <= rect_y + rect_h),
{
    point.x >= rect_x && point.x <= rect_x + rect_w && point.y >= rect_y && point.y <= rect_y
        + rect_h
}

/// True exactly when no wall's four edges intersect the `from` → `to`
/// segment.
pub fn has_line_of_sight(from: Position, to: Position, walls: &Vec<Wall>) -> (r: bool)
    requires
        pos_in_geom_range(from),
        pos_in_geom_range(to),
        walls_in_geom_range(walls@),
    ensures
        r == los(from, to, walls@),
{
    let n = walls.len();
    let mut i: usize = 0;
    while i < n
        invariant
            i <= n,
            n == walls.len(),
            pos_in_geom_range(from),
            pos_in_geom_range(to),
            walls_in_geom_range(walls@),
            forall|j: int|
                0 <= j < i ==> !seg_rect_intersect(
                    from,
                    to,
                    (#[trigger] walls@[j]).x as int,
                    walls@[j].y as int,
                    walls@[j].width as int,
                    walls@[j].height as int,
                ),
        decreases n - i,
    {
        let w = walls[i];
        if line_rect_intersection(from, to, w.x, w.y, w.width, w.height) {
            return false;
        }
        i = i + 1;
    }
    true
}

/// The same test with every wall inflated by `padding` on all sides; used
/// to keep paths conservatively clear of corners.
pub fn has_line_of_sight_with_padding(
    from: Position,
    to: Position,
    walls: &Vec<Wall>,
    padding: i64,
) -> (r: bool)
    requires
        pos_in_geom_range(from),
        pos_in_geom_range(to),
        0 <= padding <= COORD_LIMIT,
        forall|i: int|
            0 <= i < walls@.len() ==> {
                &&& abs_spec((#[trigger] walls@[i]).x as int) <= COORD_LIMIT
                &&& abs_spec(walls@[i].y as int) <= COORD_LIMIT
                &&& abs_spec(walls@[i].x + walls@[i].width) <= COORD_LIMIT
                &&& abs_spec(walls@[i].y + walls@[i].height) <= COORD_LIMIT
            },
    ensures
        r == los_pad(from, to, walls@, padding as int),
{
    let n = walls.len();
    let mut i: usize = 0;
    while i < n
        invariant
            i <= n,
            n == walls.len(),
            pos_in_geom_range(from),
            pos_in_geom_range(to),
            0 <= padding <= COORD_LIMIT,
            forall|j: int|
                0 <= j < walls@.len() ==> {
                    &&& abs_spec((#[trigger] walls@[j]).x as int) <= COORD_LIMIT
                    &&& abs_spec(walls@[j].y as int) <= COORD_LIMIT
                    &&& abs_spec(walls@[j].x + walls@[j].width) <= COORD_LIMIT
                    &&& abs_spec(walls@[j].y + walls@[j].height) <= COORD_LIMIT
                },
            forall|j: int|
                0 <= j < i ==> !seg_rect_intersect(
                    from,
                    to,
                    (#[trigger] walls@[j]).x - padding,
                    walls@[j].y - padding,
                    walls@[j].width + 2 * padding,
                    walls@[j].height + 2 * padding,
                ),
        decreases n - i,
    {
        let w = walls[i];
        let inflated_x = w.x - padding;
        let inflated_y = w.y - padding;
        let inflated_w = w.width + 2 * padding;
        let inflated_h = w.height + 2 * padding;
        if line_rect_intersection(from, to, inflated_x, inflated_y, inflated_w, inflated_h) {
            return false;
        }
        i = i + 1;
    }
    true
}

} // verus!
