//! Points in canvas pixels and the corner check for thick round-joined
//! polylines.
use vstd::prelude::*;

verus! {

/// Largest absolute coordinate that a point on the canvas may have. The
/// corner check and the rasterizer decide their comparisons exactly, in
/// 128-bit integers, and this bound (the largest surface side) keeps every
/// product in range; pen positions beyond it are clamped to it.
pub const MAX_COORD: i64 = 8192;

/// Largest line width that a stroke may have, for the same reason as
/// `MAX_COORD`; wider styles are clamped to it.
pub const MAX_LINE_WIDTH: u32 = 1024;

/// A position on the canvas, in pixels.
#[derive(Clone, Copy, Debug, PartialEq, Eq, Structural)]
pub struct Point {
    pub x: i64,
    pub y: i64,
}

impl Point {
    pub open spec fn in_range(self) -> bool {
        -MAX_COORD <= self.x <= MAX_COORD && -MAX_COORD <= self.y <= MAX_COORD
    }

    pub fn new(x: i64, y: i64) -> (r: Point)
        ensures
            r.x == x,
            r.y == y,
    {
        Point { x, y }
    }

    /// The point with each coordinate clamped to `[-MAX_COORD, MAX_COORD]`,
    /// the range in which the geometry is computed exactly.
    pub fn clamped(x: i64, y: i64) -> (r: Point)
        ensures
            r.x == clamp_coord(x as int),
            r.y == clamp_coord(y as int),
            r.in_range(),
    {
        Point { x: clamp_coord_exec(x), y: clamp_coord_exec(y) }
    }
}

pub open spec fn clamp_coord(v: int) -> int {
    if v < -MAX_COORD {
        -MAX_COORD as int
    } else if v > MAX_COORD {
        MAX_COORD as int
    } else {
        v
    }
}

fn clamp_coord_exec(v: i64) -> (r: i64)
    ensures
        r == clamp_coord(v as int),
{
    if v < -MAX_COORD {
        -MAX_COORD
    } else if v > MAX_COORD {
        MAX_COORD
    } else {
        v
    }
}

/// Dot product of the vectors `a - o` and `b - o`.
pub open spec fn dot_at(o: Point, a: Point, b: Point) -> int {
    (a.x - o.x) * (b.x - o.x) + (a.y - o.y) * (b.y - o.y)
}

/// Cross product of the vectors `a - o` and `b - o`.
pub open spec fn cross_at(o: Point, a: Point, b: Point) -> int {
    (a.x - o.x) * (b.y - o.y) - (a.y - o.y) * (b.x - o.x)
}

/// Squared length of the segment from `a` to `b`.
pub open spec fn dist2(a: Point, b: Point) -> int {
    (a.x - b.x) * (a.x - b.x) + (a.y - b.y) * (a.y - b.y)
}

/// `sqrt(p) * x < y`, decided without a square root (`p` is non-negative).
pub open spec fn root_scaled_lt(p: int, x: int, y: int) -> bool {
    if x == 0 {
        0 < y
    } else if x > 0 {
        y > 0 && p * (x * x) < y * y
    } else if y >= 0 {
        y > 0 || p > 0
    } else {
        y * y < p * (x * x)
    }
}

/// Whether a segment of squared length `len2`, meeting the other segment of a
/// corner at angle `theta`, is too short for a round join of width `w`:
/// `len2 * sin^2(theta/2) < cos^2(theta/2) * (w/2)^2`.
///
/// With `cos(theta) = d / sqrt(a2 * b2)` and the half-angle identities, both
/// sides times `4 * sqrt(a2 * b2)` give
/// `sqrt(a2 * b2) * (4 * len2 - w^2) < d * (4 * len2 + w^2)`.
pub open spec fn segment_too_short(len2: int, a2: int, b2: int, d: int, w: int) -> bool {
    root_scaled_lt(a2 * b2, 4 * len2 - w * w, d * (4 * len2 + w * w))
}

/// Whether joining `p0 -> p1` and `p1 -> p2` with a round join of width `w`
/// would leave a rendering artifact: either segment is shorter than the join
/// needs at this angle. A zero-length segment has no angle and never triggers.
pub open spec fn corner_artifact(p0: Point, p1: Point, p2: Point, w: int) -> bool {
    let a2 = dist2(p0, p1);
    let b2 = dist2(p2, p1);
    let d = dot_at(p1, p0, p2);
    &&& a2 > 0
    &&& b2 > 0
    &&& (segment_too_short(a2, a2, b2, d, w) || segment_too_short(b2, a2, b2, d, w))
}

proof fn lemma_square_lt(u: int, v: int)
    requires
        0 <= u,
        0 <= v,
    ensures
        u < v <==> u * u < v * v,
{
    if u < v {
        assert(u * u <= u * v) by (nonlinear_arith)
            requires
                0 <= u,
                u < v,
        ;
        assert(u * v < v * v) by (nonlinear_arith)
            requires
                0 <= u,
                u < v,
        ;
    } else {
        assert(v * v <= u * u) by (nonlinear_arith)
            requires
                0 <= v,
                v <= u,
        ;
    }
}

/// `root_scaled_lt(p, x, y)` is `s * x < y` for the square root `s` of `p`.
pub proof fn lemma_root_scaled_lt(p: int, s: int, x: int, y: int)
    requires
        s >= 0,
        s * s == p,
    ensures
        root_scaled_lt(p, x, y) <==> s * x < y,
{
    assert(p * (x * x) == (s * x) * (s * x)) by (nonlinear_arith)
        requires
            s * s == p,
    ;
    if x > 0 {
        assert(s * x >= 0) by (nonlinear_arith)
            requires
                s >= 0,
                x > 0,
        ;
        if y > 0 {
            lemma_square_lt(s * x, y);
        }
    } else if x < 0 {
        assert(s * x <= 0) by (nonlinear_arith)
            requires
                s >= 0,
                x < 0,
        ;
        assert(p > 0 <==> s * x < 0) by (nonlinear_arith)
            requires
                s >= 0,
                x < 0,
                s * s == p,
        ;
        if y < 0 {
            lemma_square_lt(-y, -(s * x));
            assert((-y) * (-y) == y * y) by (nonlinear_arith);
            assert((-(s * x)) * (-(s * x)) == (s * x) * (s * x)) by (nonlinear_arith);
        }
    } else {
        assert(s * x == 0) by (nonlinear_arith)
            requires
                x == 0,
        ;
    }
}

fn root_scaled_lt_exec(p: i128, x: i128, y: i128) -> (r: bool)
    requires
        0 <= p <= 0x400_0000_0000_0000,
        -0x1_0000_0000 <= x <= 0x1_0000_0000,
        -0x4000_0000_0000_0000 <= y <= 0x4000_0000_0000_0000,
    ensures
        r == root_scaled_lt(p as int, x as int, y as int),
{
    assert(0 <= x * x <= 0x1_0000_0000_0000_0000) by (nonlinear_arith)
        requires
            -0x1_0000_0000 <= x <= 0x1_0000_0000,
    ;
    assert(0 <= p * (x * x) <= 0x400_0000_0000_0000 * 0x1_0000_0000_0000_0000) by (nonlinear_arith)
        requires
            0 <= p <= 0x400_0000_0000_0000,
            0 <= x * x <= 0x1_0000_0000_0000_0000,
    ;
    assert(0 <= y * y <= 0x4000_0000_0000_0000 * 0x4000_0000_0000_0000) by (nonlinear_arith)
        requires
            -0x4000_0000_0000_0000 <= y <= 0x4000_0000_0000_0000,
    ;
    if x == 0 {
        0 < y
    } else if x > 0 {
        y > 0 && p * (x * x) < y * y
    } else if y >= 0 {
        y > 0 || p > 0
    } else {
        y * y < p * (x * x)
    }
}

fn segment_too_short_exec(len2: i128, a2: i128, b2: i128, d: i128, w: i128) -> (r: bool)
    requires
        0 <= a2 <= 0x2000_0000,
        0 <= b2 <= 0x2000_0000,
        len2 == a2 || len2 == b2,
        -0x2000_0000 <= d <= 0x2000_0000,
        0 <= w <= MAX_LINE_WIDTH,
    ensures
        r == segment_too_short(len2 as int, a2 as int, b2 as int, d as int, w as int),
{
    assert(0 <= a2 * b2 <= 0x400_0000_0000_0000) by (nonlinear_arith)
        requires
            0 <= a2 <= 0x2000_0000,
            0 <= b2 <= 0x2000_0000,
    ;
    assert(0 <= w * w <= 0x10_0000) by (nonlinear_arith)
        requires
            0 <= w <= 1024,
    ;
    let z: i128 = 4 * len2 + w * w;
    assert(-0x2000_0000_0000_0000 <= d * z <= 0x2000_0000_0000_0000) by (nonlinear_arith)
        requires
            -0x2000_0000 <= d <= 0x2000_0000,
            0 <= z <= 0x1_0000_0000,
    ;
    root_scaled_lt_exec(a2 * b2, 4 * len2 - w * w, d * z)
}

/// Decides `corner_artifact` for points on the canvas.
pub fn triggers_corner_artifact(p0: Point, p1: Point, p2: Point, line_width: u32) -> (r: bool)
    requires
        p0.in_range(),
        p1.in_range(),
        p2.in_range(),
        line_width <= MAX_LINE_WIDTH,
    ensures
        r == corner_artifact(p0, p1, p2, line_width as int),
{
    let ax: i128 = p0.x as i128 - p1.x as i128;
    let ay: i128 = p0.y as i128 - p1.y as i128;
    let bx: i128 = p2.x as i128 - p1.x as i128;
    let by: i128 = p2.y as i128 - p1.y as i128;
    assert(0 <= ax * ax <= 0x1000_0000 && 0 <= ay * ay <= 0x1000_0000) by (nonlinear_arith)
        requires
            -0x4000 <= ax <= 0x4000,
            -0x4000 <= ay <= 0x4000,
    ;
    assert(0 <= bx * bx <= 0x1000_0000 && 0 <= by * by <= 0x1000_0000) by (nonlinear_arith)
        requires
            -0x4000 <= bx <= 0x4000,
            -0x4000 <= by <= 0x4000,
    ;
    assert(-0x1000_0000 <= ax * bx <= 0x1000_0000 && -0x1000_0000 <= ay * by <= 0x1000_0000)
        by (nonlinear_arith)
        requires
            -0x4000 <= ax <= 0x4000,
            -0x4000 <= ay <= 0x4000,
            -0x4000 <= bx <= 0x4000,
            -0x4000 <= by <= 0x4000,
    ;
    let a2: i128 = ax * ax + ay * ay;
    let b2: i128 = bx * bx + by * by;
    let d: i128 = ax * bx + ay * by;
    if a2 == 0 || b2 == 0 {
        return false;
    }
    let w = line_width as i128;
    segment_too_short_exec(a2, a2, b2, d, w) || segment_too_short_exec(b2, a2, b2, d, w)
}

proof fn lemma_lagrange(ax: int, ay: int, bx: int, by: int)
    ensures
        (ax * bx + ay * by) * (ax * bx + ay * by) + (ax * by - ay * bx) * (ax * by - ay * bx) == (ax
            * ax + ay * ay) * (bx * bx + by * by),
{
    let p = ax * bx;
    let q = ay * by;
    let u = ax * by;
    let v = ay * bx;
    assert((p + q) * (p + q) == p * p + 2 * (p * q) + q * q) by (nonlinear_arith);
    assert((u - v) * (u - v) == u * u - 2 * (u * v) + v * v) by (nonlinear_arith);
    assert(p * q == u * v) by (nonlinear_arith)
        requires
            p == ax * bx,
            q == ay * by,
            u == ax * by,
            v == ay * bx,
    ;
    let xx = ax * ax;
    let yy = ay * ay;
    let bxx = bx * bx;
    let byy = by * by;
    assert(p * p == xx * bxx) by (nonlinear_arith)
        requires
            p == ax * bx,
            xx == ax * ax,
            bxx == bx * bx,
    ;
    assert(q * q == yy * byy) by (nonlinear_arith)
        requires
            q == ay * by,
            yy == ay * ay,
            byy == by * by,
    ;
    assert(u * u == xx * byy) by (nonlinear_arith)
        requires
            u == ax * by,
            xx == ax * ax,
            byy == by * by,
    ;
    assert(v * v == yy * bxx) by (nonlinear_arith)
        requires
            v == ay * bx,
            yy == ay * ay,
            bxx == bx * bx,
    ;
    assert((xx + yy) * (bxx + byy) == xx * bxx + xx * byy + yy * bxx + yy * byy)
        by (nonlinear_arith);
}

/// A straight stroke is never split: when the new point continues the line
/// through the corner point (the two segments are collinear and point in
/// opposite directions, an angle of 180 degrees), the corner check does not
/// trigger, whatever the segment lengths and the line width.
pub proof fn lemma_straight_never_triggers(p0: Point, p1: Point, p2: Point, w: int)
    requires
        cross_at(p1, p0, p2) == 0,
        dot_at(p1, p0, p2) < 0,
    ensures
        !corner_artifact(p0, p1, p2, w),
{
    let a2 = dist2(p0, p1);
    let b2 = dist2(p2, p1);
    let d = dot_at(p1, p0, p2);
    let ax = p0.x - p1.x;
    let ay = p0.y - p1.y;
    let bx = p2.x - p1.x;
    let by = p2.y - p1.y;
    lemma_lagrange(ax, ay, bx, by);
    assert((-d) * (-d) == a2 * b2) by (nonlinear_arith)
        requires
            d * d == a2 * b2,
    ;
    if a2 > 0 && b2 > 0 {
        assert forall|len2: int| len2 > 0 implies !segment_too_short(len2, a2, b2, d, w) by {
            lemma_root_scaled_lt(a2 * b2, -d, 4 * len2 - w * w, d * (4 * len2 + w * w));
            assert(!((-d) * (4 * len2 - w * w) < d * (4 * len2 + w * w))) by (nonlinear_arith)
                requires
                    d < 0,
                    len2 > 0,
            ;
        }
    }
}

/// At a right angle the corner check triggers exactly when one of the two
/// segments is shorter than the stroke radius `w / 2`: segments both longer
/// than the radius never split, segments both shorter always do.
pub proof fn lemma_right_angle(p0: Point, p1: Point, p2: Point, w: int)
    requires
        p0 != p1,
        p2 != p1,
        dot_at(p1, p0, p2) == 0,
    ensures
        corner_artifact(p0, p1, p2, w) <==> (4 * dist2(p0, p1) < w * w || 4 * dist2(p2, p1)
            < w * w),
{
    let a2 = dist2(p0, p1);
    let b2 = dist2(p2, p1);
    assert(a2 > 0) by (nonlinear_arith)
        requires
            a2 == (p0.x - p1.x) * (p0.x - p1.x) + (p0.y - p1.y) * (p0.y - p1.y),
            p0.x != p1.x || p0.y != p1.y,
    ;
    assert(b2 > 0) by (nonlinear_arith)
        requires
            b2 == (p2.x - p1.x) * (p2.x - p1.x) + (p2.y - p1.y) * (p2.y - p1.y),
            p2.x != p1.x || p2.y != p1.y,
    ;
    assert(a2 * b2 > 0) by (nonlinear_arith)
        requires
            a2 > 0,
            b2 > 0,
    ;
    assert forall|len2: int| #![auto] segment_too_short(len2, a2, b2, 0, w) <==> 4 * len2 < w * w by {
        assert(0 * (4 * len2 + w * w) == 0);
    }
}

} // verus!
