//! Rasterizing paths: a pixel takes the color of the last path, in paint
//! order, that passes within half a line width of it.
use vstd::prelude::*;
use crate::canvas::Raster;
use crate::geometry::{Point, MAX_COORD, MAX_LINE_WIDTH};
use crate::pen::Rgba;
use crate::stroke::{CompletedPath, PathView, path_views, points_in_range};

verus! {

/// Whether `p` lies within `w / 2` of the segment from `a` to `b` (a point
/// when `a == b`): the distance to the nearest point of the segment, decided
/// without a square root.
pub open spec fn near_segment(a: Point, b: Point, p: Point, w: int) -> bool {
    let abx = b.x - a.x;
    let aby = b.y - a.y;
    let apx = p.x - a.x;
    let apy = p.y - a.y;
    let len2 = abx * abx + aby * aby;
    let t = apx * abx + apy * aby;
    let c = abx * apy - aby * apx;
    if t <= 0 {
        4 * (apx * apx + apy * apy) <= w * w
    } else if t >= len2 {
        4 * ((p.x - b.x) * (p.x - b.x) + (p.y - b.y) * (p.y - b.y)) <= w * w
    } else {
        4 * (c * c) <= w * w * len2
    }
}

/// The end of the `i`-th segment of a polyline: the next point, or the point
/// itself for the last one, so that a single point draws a dot.
pub open spec fn segment_end(pts: Seq<Point>, i: int) -> Point {
    if i + 1 < pts.len() {
        pts[i + 1]
    } else {
        pts[i]
    }
}

/// Whether the polyline of `path`, with round joins and caps, covers `p`.
pub open spec fn covers(path: PathView, p: Point) -> bool {
    exists|i: int|
        0 <= i < path.points.len() && near_segment(
            path.points[i],
            #[trigger] segment_end(path.points, i),
            p,
            path.line_width as int,
        )
}

/// The color of a pixel at `p` after drawing the first `n` of `paths` in
/// order over the color `under`.
pub open spec fn painted(paths: Seq<PathView>, n: int, under: Rgba, p: Point) -> Rgba
    decreases n,
{
    if n <= 0 {
        under
    } else if covers(paths[n - 1], p) {
        paths[n - 1].color
    } else {
        painted(paths, n - 1, under, p)
    }
}

/// A path that can be drawn: points on the canvas range, a bounded width.
pub open spec fn drawable(path: PathView) -> bool {
    points_in_range(path.points) && path.line_width <= MAX_LINE_WIDTH
}

fn near_segment_exec(a: Point, b: Point, p: Point, w: u32) -> (r: bool)
    requires
        a.in_range(),
        b.in_range(),
        p.in_range(),
        w <= MAX_LINE_WIDTH,
    ensures
        r == near_segment(a, b, p, w as int),
{
    let abx: i128 = b.x as i128 - a.x as i128;
    let aby: i128 = b.y as i128 - a.y as i128;
    let apx: i128 = p.x as i128 - a.x as i128;
    let apy: i128 = p.y as i128 - a.y as i128;
    let bpx: i128 = p.x as i128 - b.x as i128;
    let bpy: i128 = p.y as i128 - b.y as i128;
    let w: i128 = w as i128;
    assert(-0x1000_0000 <= abx * abx <= 0x1000_0000 && -0x1000_0000 <= aby * aby <= 0x1000_0000
        && -0x1000_0000 <= apx * apx <= 0x1000_0000 && -0x1000_0000 <= apy * apy <= 0x1000_0000
        && -0x1000_0000 <= bpx * bpx <= 0x1000_0000 && -0x1000_0000 <= bpy * bpy <= 0x1000_0000
        && -0x1000_0000 <= apx * abx <= 0x1000_0000 && -0x1000_0000 <= apy * aby <= 0x1000_0000
        && -0x1000_0000 <= abx * apy <= 0x1000_0000 && -0x1000_0000 <= aby * apx <= 0x1000_0000
        && 0 <= w * w <= 0x10_0000) by (nonlinear_arith)
        requires
            -0x4000 <= abx <= 0x4000,
            -0x4000 <= aby <= 0x4000,
            -0x4000 <= apx <= 0x4000,
            -0x4000 <= apy <= 0x4000,
            -0x4000 <= bpx <= 0x4000,
            -0x4000 <= bpy <= 0x4000,
            0 <= w <= 1024,
    ;
    let len2: i128 = abx * abx + aby * aby;
    let t: i128 = apx * abx + apy * aby;
    let c: i128 = abx * apy - aby * apx;
    if t <= 0 {
        4 * (apx * apx + apy * apy) <= w * w
    } else if t >= len2 {
        4 * (bpx * bpx + bpy * bpy) <= w * w
    } else {
        assert(0 <= c * c <= 0x400_0000_0000_0000 && 0 <= w * w * len2 <= 0x10_0000 * 0x2000_0000)
            by (nonlinear_arith)
            requires
                -0x2000_0000 <= c <= 0x2000_0000,
                0 <= w * w <= 0x10_0000,
                0 <= len2 <= 0x2000_0000,
        ;
        4 * (c * c) <= w * w * len2
    }
}

/// Decides `covers` for a drawable path.
pub fn covers_exec(path: &CompletedPath, p: Point) -> (r: bool)
    requires
        drawable(path@),
        p.in_range(),
    ensures
        r == covers(path@, p),
{
    let n = path.points.len();
    let mut i: usize = 0;
    while i < n
        invariant
            n == path.points@.len(),
            i <= n,
            drawable(path@),
            p.in_range(),
            forall|k: int|
                0 <= k < i ==> !near_segment(
                    path@.points[k],
                    #[trigger] segment_end(path@.points, k),
                    p,
                    path.line_width as int,
                ),
        decreases n - i,
    {
        let a = path.points[i];
        let b = if i + 1 < n {
            path.points[i + 1]
        } else {
            a
        };
        assert(b == segment_end(path@.points, i as int));
        if near_segment_exec(a, b, p, path.line_width) {
            return true;
        }
        i = i + 1;
    }
    false
}

/// `bx` is `(min_x, max_x, min_y, max_y)` of a box that holds every point.
pub open spec fn within_box(pts: Seq<Point>, bx: (i64, i64, i64, i64)) -> bool {
    forall|i: int|
        0 <= i < pts.len() ==> bx.0 <= (#[trigger] pts[i]).x <= bx.1 && bx.2 <= pts[i].y <= bx.3
}

/// A box `(min_x, max_x, min_y, max_y)` that holds every point.
fn bounding_box(pts: &Vec<Point>) -> (bx: (i64, i64, i64, i64))
    requires
        points_in_range(pts@),
    ensures
        within_box(pts@, bx),
        -MAX_COORD <= bx.0 <= MAX_COORD && -MAX_COORD <= bx.1 <= MAX_COORD,
        -MAX_COORD <= bx.2 <= MAX_COORD && -MAX_COORD <= bx.3 <= MAX_COORD,
{
    let mut bx: (i64, i64, i64, i64) = (MAX_COORD, -MAX_COORD, MAX_COORD, -MAX_COORD);
    let mut i: usize = 0;
    while i < pts.len()
        invariant
            points_in_range(pts@),
            i <= pts@.len(),
            within_box(pts@.take(i as int), bx),
            -MAX_COORD <= bx.0 <= MAX_COORD && -MAX_COORD <= bx.1 <= MAX_COORD,
            -MAX_COORD <= bx.2 <= MAX_COORD && -MAX_COORD <= bx.3 <= MAX_COORD,
        decreases pts@.len() - i,
    {
        let p = pts[i];
        assert(p.in_range());
        let min_x = if p.x < bx.0 { p.x } else { bx.0 };
        let max_x = if p.x > bx.1 { p.x } else { bx.1 };
        let min_y = if p.y < bx.2 { p.y } else { bx.2 };
        let max_y = if p.y > bx.3 { p.y } else { bx.3 };
        bx = (min_x, max_x, min_y, max_y);
        assert forall|j: int| 0 <= j < i + 1 implies bx.0 <= (#[trigger] pts@.take(i + 1)[j]).x
            <= bx.1 && bx.2 <= pts@.take(i + 1)[j].y <= bx.3 by {
            if j < i {
                assert(pts@.take(i + 1)[j] == pts@.take(i as int)[j]);
            }
        }
        i = i + 1;
    }
    assert(pts@.take(pts@.len() as int) =~= pts@);
    bx
}

/// `bx` bounds the path's points and lies in the canvas range.
pub open spec fn boxed(path: PathView, bx: (i64, i64, i64, i64)) -> bool {
    &&& within_box(path.points, bx)
    &&& -MAX_COORD <= bx.0 <= MAX_COORD && -MAX_COORD <= bx.1 <= MAX_COORD
    &&& -MAX_COORD <= bx.2 <= MAX_COORD && -MAX_COORD <= bx.3 <= MAX_COORD
}

/// Decides `covers`, skipping the segments when `p` lies farther than the
/// line width outside the path's box.
fn covers_within(path: &CompletedPath, bx: (i64, i64, i64, i64), p: Point) -> (r: bool)
    requires
        drawable(path@),
        boxed(path@, bx),
        p.in_range(),
    ensures
        r == covers(path@, p),
{
    let w = path.line_width as i64;
    if p.x < bx.0 - w || p.x > bx.1 + w || p.y < bx.2 - w || p.y > bx.3 + w {
        proof {
            if covers(path@, p) {
                let pts = path@.points;
                let i = choose|i: int|
                    0 <= i < pts.len() && near_segment(
                        pts[i],
                        #[trigger] segment_end(pts, i),
                        p,
                        path.line_width as int,
                    );
                lemma_near_segment_bounds(pts[i], segment_end(pts, i), p, path.line_width as int);
                assert(bx.0 <= pts[i].x <= bx.1 && bx.2 <= pts[i].y <= bx.3);
                if i + 1 < pts.len() {
                    assert(bx.0 <= pts[i + 1].x <= bx.1 && bx.2 <= pts[i + 1].y <= bx.3);
                }
            }
        }
        false
    } else {
        covers_exec(path, p)
    }
}

/// Draws `paths` in order onto `target`: each pixel takes the color of the
/// last path that covers it and keeps its own where none does.
pub fn render_paths(target: &mut Raster, paths: &Vec<CompletedPath>)
    requires
        old(target).wf(),
        forall|k: int| 0 <= k < paths@.len() ==> drawable(#[trigger] paths@[k]@),
    ensures
        final(target).wf(),
        final(target).width() == old(target).width(),
        final(target).height() == old(target).height(),
        forall|x: int, y: int|
            0 <= x < old(target).width() && 0 <= y < old(target).height() ==> #[trigger] final(target).pixel(x, y) == painted(
                path_views(paths@),
                paths@.len() as int,
                old(target).pixel(x, y),
                Point { x: x as i64, y: y as i64 },
            ),
{
    let ghost before = *target;
    let ghost views = path_views(paths@);
    proof {
        before.lemma_bounded();
    }
    let width = target.width_of();
    let height = target.height_of();
    let mut boxes: Vec<(i64, i64, i64, i64)> = Vec::new();
    let mut k: usize = 0;
    while k < paths.len()
        invariant
            k <= paths@.len(),
            forall|j: int| 0 <= j < paths@.len() ==> drawable(#[trigger] paths@[j]@),
            boxes@.len() == k,
            forall|j: int| 0 <= j < k ==> boxed(paths@[j]@, #[trigger] boxes@[j]),
        decreases paths@.len() - k,
    {
        assert(drawable(paths@[k as int]@));
        boxes.push(bounding_box(&paths[k].points));
        k = k + 1;
    }
    let mut y: u32 = 0;
    while y < height
        invariant
            target.wf(),
            before.wf(),
            target.width() == width == before.width(),
            width <= crate::canvas::MAX_SURFACE_SIDE,
            height <= crate::canvas::MAX_SURFACE_SIDE,
            target.height() == height == before.height(),
            views == path_views(paths@),
            forall|k: int| 0 <= k < paths@.len() ==> drawable(#[trigger] paths@[k]@),
            boxes@.len() == paths@.len(),
            forall|j: int| 0 <= j < paths@.len() ==> boxed(paths@[j]@, #[trigger] boxes@[j]),
            y <= height,
            forall|i: int, j: int|
                0 <= i < width && 0 <= j < height ==> #[trigger] target.pixel(i, j) == if j < y {
                    painted(views, paths@.len() as int, before.pixel(i, j), Point { x: i as i64, y: j as i64 })
                } else {
                    before.pixel(i, j)
                },
        decreases height - y,
    {
        let mut x: u32 = 0;
        while x < width
            invariant
                target.wf(),
                before.wf(),
                target.width() == width == before.width(),
                width <= crate::canvas::MAX_SURFACE_SIDE,
                height <= crate::canvas::MAX_SURFACE_SIDE,
                target.height() == height == before.height(),
                views == path_views(paths@),
                forall|k: int| 0 <= k < paths@.len() ==> drawable(#[trigger] paths@[k]@),
                boxes@.len() == paths@.len(),
                forall|j: int| 0 <= j < paths@.len() ==> boxed(paths@[j]@, #[trigger] boxes@[j]),
                y < height,
                x <= width,
                forall|i: int, j: int|
                    0 <= i < width && 0 <= j < height ==> #[trigger] target.pixel(i, j) == if j < y
                        || (j == y && i < x) {
                        painted(views, paths@.len() as int, before.pixel(i, j), Point { x: i as i64, y: j as i64 })
                    } else {
                        before.pixel(i, j)
                    },
            decreases width - x,
        {
            let p = Point::new(x as i64, y as i64);
            let mut color = target.get_pixel(x, y);
            let mut k: usize = 0;
            while k < paths.len()
                invariant
                    k <= paths@.len(),
                    views == path_views(paths@),
                    forall|k: int| 0 <= k < paths@.len() ==> drawable(#[trigger] paths@[k]@),
                    boxes@.len() == paths@.len(),
                    forall|j: int| 0 <= j < paths@.len() ==> boxed(paths@[j]@, #[trigger] boxes@[j]),
                    p.in_range(),
                    color == painted(views, k as int, before.pixel(x as int, y as int), p),
                decreases paths@.len() - k,
            {
                assert(views[k as int] == paths@[k as int]@);
                assert(boxed(paths@[k as int]@, boxes@[k as int]));
                if covers_within(&paths[k], boxes[k], p) {
                    color = paths[k].color;
                }
                k = k + 1;
            }
            target.set_pixel(x, y, color);
            x = x + 1;
        }
        y = y + 1;
    }
}

proof fn lemma_small_square(u: int, w: int)
    requires
        w >= 0,
        4 * (u * u) <= w * w,
    ensures
        -w <= u <= w,
{
    if u > w {
        assert(u * u > w * w) by (nonlinear_arith)
            requires
                u > w,
                w >= 0,
        ;
    }
    if u < -w {
        assert(u * u > w * w) by (nonlinear_arith)
            requires
                u < -w,
                w >= 0,
        ;
    }
}

/// Along one axis, with `u` the offset of `p` from `a` and `v` that of `b`,
/// and `t`, `c`, `len2` as in `near_segment`, a point near the inside of the
/// segment stays within `w` of the interval between `a` and `b`.
proof fn lemma_axis_bound(u: int, v: int, t: int, c: int, len2: int, other: int, w: int)
    requires
        w >= 0,
        0 < t < len2,
        len2 * u == t * v - c * other,
        other * other <= len2,
        4 * (c * c) <= w * w * len2,
    ensures
        u <= (if v > 0 { v } else { 0 }) + w,
        u >= (if v < 0 { v } else { 0 }) - w,
{
    let m = c * other;
    assert(m * m <= w * w * (len2 * len2)) by (nonlinear_arith)
        requires
            m == c * other,
            other * other <= len2,
            4 * (c * c) <= w * w * len2,
            len2 > 0,
    ;
    assert(-(w * len2) <= m <= w * len2) by (nonlinear_arith)
        requires
            m * m <= w * w * (len2 * len2),
            w >= 0,
            len2 > 0,
    ;
    let hi = if v > 0 { v } else { 0 };
    let lo = if v < 0 { v } else { 0 };
    assert(len2 * lo <= t * v <= len2 * hi) by (nonlinear_arith)
        requires
            0 < t < len2,
            hi == (if v > 0 { v } else { 0 }),
            lo == (if v < 0 { v } else { 0 }),
    ;
    assert(u <= hi + w) by (nonlinear_arith)
        requires
            len2 * u <= len2 * hi + w * len2,
            len2 > 0,
    ;
    assert(u >= lo - w) by (nonlinear_arith)
        requires
            len2 * u >= len2 * lo - w * len2,
            len2 > 0,
    ;
}

/// A point near a segment lies within `w` of the segment's bounding box.
pub proof fn lemma_near_segment_bounds(a: Point, b: Point, p: Point, w: int)
    requires
        w >= 0,
        near_segment(a, b, p, w),
    ensures
        (if a.x < b.x { a.x } else { b.x }) - w <= p.x <= (if a.x > b.x { a.x } else { b.x }) + w,
        (if a.y < b.y { a.y } else { b.y }) - w <= p.y <= (if a.y > b.y { a.y } else { b.y }) + w,
{
    let abx = b.x - a.x;
    let aby = b.y - a.y;
    let apx = p.x - a.x;
    let apy = p.y - a.y;
    let len2 = abx * abx + aby * aby;
    let t = apx * abx + apy * aby;
    let c = abx * apy - aby * apx;
    assert(0 <= apx * apx && 0 <= apy * apy && 0 <= abx * abx && 0 <= aby * aby)
        by (nonlinear_arith);
    if t <= 0 {
        lemma_small_square(apx, w);
        lemma_small_square(apy, w);
    } else if t >= len2 {
        let bpx = p.x - b.x;
        let bpy = p.y - b.y;
        assert(0 <= bpx * bpx && 0 <= bpy * bpy) by (nonlinear_arith);
        lemma_small_square(bpx, w);
        lemma_small_square(bpy, w);
    } else {
        assert(len2 * apx == t * abx - c * aby) by (nonlinear_arith)
            requires
                len2 == abx * abx + aby * aby,
                t == apx * abx + apy * aby,
                c == abx * apy - aby * apx,
        ;
        assert(len2 * apy == t * aby - (-c) * abx) by (nonlinear_arith)
            requires
                len2 == abx * abx + aby * aby,
                t == apx * abx + apy * aby,
                c == abx * apy - aby * apx,
        ;
        assert((-c) * (-c) == c * c) by (nonlinear_arith);
        lemma_axis_bound(apx, abx, t, c, len2, aby, w);
        lemma_axis_bound(apy, aby, t, -c, len2, abx, w);
    }
}

/// Drawing `a` and then `b` paints as drawing `a + b` does.
pub proof fn lemma_painted_concat(a: Seq<PathView>, b: Seq<PathView>, under: Rgba, p: Point)
    ensures
        painted(a + b, (a.len() + b.len()) as int, under, p) == painted(
            b,
            b.len() as int,
            painted(a, a.len() as int, under, p),
            p,
        ),
    decreases b.len(),
{
    let ab = a + b;
    if b.len() == 0 {
        assert forall|n: int| 0 <= n <= a.len() implies painted(ab, n, under, p) == painted(a, n, under, p) by {
            lemma_painted_prefix(ab, a, n, under, p);
        }
    } else {
        let b1 = b.drop_last();
        assert(a + b1 =~= ab.take(ab.len() - 1));
        lemma_painted_concat(a, b1, under, p);
        lemma_painted_prefix(ab, a + b1, (a.len() + b1.len()) as int, under, p);
        lemma_painted_prefix(b, b1, b1.len() as int, painted(a, a.len() as int, under, p), p);
        assert(ab[ab.len() - 1] == b[b.len() - 1]);
    }
}

/// Painting depends only on the paths it reaches.
proof fn lemma_painted_prefix(s: Seq<PathView>, t: Seq<PathView>, n: int, under: Rgba, p: Point)
    requires
        0 <= n <= t.len(),
        n <= s.len(),
        forall|i: int| 0 <= i < n ==> s[i] == t[i],
    ensures
        painted(s, n, under, p) == painted(t, n, under, p),
    decreases n,
{
    if n > 0 {
        lemma_painted_prefix(s, t, n - 1, under, p);
    }
}

} // verus!
