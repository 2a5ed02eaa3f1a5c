//! The buffer of an in-progress stroke, completed paths, and the per-tick
//! policy that splits a stroke at bad corners, at chunk boundaries and on
//! release.
use vstd::prelude::*;
use crate::geometry::{
    Point, corner_artifact, cross_at, dot_at, lemma_straight_never_triggers,
    triggers_corner_artifact,
};
use crate::pen::{Pen, Rgba};

verus! {

/// A buffer that reaches this many points is completed and started anew.
pub const POINTS_CHUNK_THRESHOLD: usize = 100;

/// Depth that a path reaches after `DEPTH_TIME_SPAN` time units.
pub const MAX_DEPTH: u128 = 500;

/// Time units over which the depth grows by `MAX_DEPTH`.
pub const DEPTH_TIME_SPAN: u128 = 10000;

/// The depth of a path completed at time `now`, in units of
/// `1 / DEPTH_TIME_SPAN`: `now * MAX_DEPTH / DEPTH_TIME_SPAN` exactly.
pub open spec fn depth_of(now: u64) -> int {
    now * MAX_DEPTH
}

/// The depth of a path completed at time `now`, scaled as `depth_of` says.
pub fn depth_from_time(now: u64) -> (d: u128)
    ensures
        d == depth_of(now),
{
    now as u128 * MAX_DEPTH
}

/// Paint order follows time: depths of paths completed at strictly
/// increasing times are strictly increasing.
pub proof fn lemma_depth_increasing(times: Seq<u64>)
    requires
        forall|i: int, j: int| 0 <= i < j < times.len() ==> times[i] < times[j],
    ensures
        forall|i: int, j: int|
            0 <= i < j < times.len() ==> depth_of(#[trigger] times[i]) < depth_of(
                #[trigger] times[j],
            ),
{
}

/// What a completed path is: its points, style and depth.
pub struct PathView {
    pub points: Seq<Point>,
    pub color: Rgba,
    pub line_width: u32,
    pub depth: int,
}

/// A finished stroke segment, drawn as a polyline with round joins and caps.
#[derive(Debug)]
pub struct CompletedPath {
    pub points: Vec<Point>,
    pub color: Rgba,
    pub line_width: u32,
    pub depth: u128,
}

impl View for CompletedPath {
    type V = PathView;

    open spec fn view(&self) -> PathView {
        PathView {
            points: self.points@,
            color: self.color,
            line_width: self.line_width,
            depth: self.depth as int,
        }
    }
}

/// The views of a sequence of paths.
pub open spec fn path_views(paths: Seq<CompletedPath>) -> Seq<PathView> {
    paths.map_values(|p: CompletedPath| p@)
}

/// The paths that a pen completes at time `now` from the point lists `parts`.
pub open spec fn completed_views(parts: Seq<Seq<Point>>, pen: Pen, now: u64) -> Seq<PathView> {
    parts.map_values(
        |pts: Seq<Point>|
            PathView { points: pts, color: pen.color, line_width: pen.line_width, depth: depth_of(now) },
    )
}

/// Every point lies in the canvas range.
pub open spec fn points_in_range(pts: Seq<Point>) -> bool {
    forall|i: int| 0 <= i < pts.len() ==> (#[trigger] pts[i]).in_range()
}

/// The points of one in-progress stroke.
pub struct StrokeBuffer {
    points: Vec<Point>,
}

impl View for StrokeBuffer {
    type V = Seq<Point>;

    closed spec fn view(&self) -> Seq<Point> {
        self.points@
    }
}

impl StrokeBuffer {
    pub open spec fn wf(&self) -> bool {
        points_in_range(self@)
    }

    pub fn new() -> (b: StrokeBuffer)
        ensures
            b@ == Seq::<Point>::empty(),
            b.wf(),
    {
        StrokeBuffer { points: Vec::new() }
    }

    pub fn append(&mut self, p: Point)
        requires
            old(self).wf(),
            p.in_range(),
        ensures
            final(self)@ == old(self)@.push(p),
            final(self).wf(),
    {
        self.points.push(p);
    }

    pub fn len(&self) -> (n: usize)
        ensures
            n == self@.len(),
    {
        self.points.len()
    }

    pub fn is_empty(&self) -> (e: bool)
        ensures
            e == (self@.len() == 0),
    {
        self.points.len() == 0
    }

    /// The last two points, oldest first.
    pub fn last_two(&self) -> (r: (Point, Point))
        requires
            self@.len() >= 2,
        ensures
            r == (self@[self@.len() - 2], self@[self@.len() - 1]),
    {
        let n = self.points.len();
        (self.points[n - 2], self.points[n - 1])
    }

    pub fn clear(&mut self)
        ensures
            final(self)@ == Seq::<Point>::empty(),
            final(self).wf(),
    {
        self.points.clear();
    }

    /// The points, in order.
    pub fn points(&self) -> (r: &Vec<Point>)
        ensures
            r@ == self@,
    {
        &self.points
    }
}

/// Step one of a tick: where a pressed pen that changed brings a new point,
/// and the last two points and that new point form a corner that would render
/// badly, the buffer is completed and restarts at its last point.
pub open spec fn corner_stage(pen: Pen, buf: Seq<Point>) -> (Seq<Point>, Seq<Seq<Point>>) {
    if pen.pressed && pen.updated && buf.len() >= 2 && corner_artifact(
        buf[buf.len() - 2],
        buf[buf.len() - 1],
        pen.position,
        pen.line_width as int,
    ) {
        (seq![buf[buf.len() - 1]], seq![buf])
    } else {
        (buf, seq![])
    }
}

/// Step two: a pressed pen that changed adds its position.
pub open spec fn append_stage(pen: Pen, buf: Seq<Point>) -> Seq<Point> {
    if pen.pressed && pen.updated {
        buf.push(pen.position)
    } else {
        buf
    }
}

/// Step three: a buffer of `POINTS_CHUNK_THRESHOLD` points is completed and
/// restarts at the pen's position; otherwise a non-empty buffer of a pen just
/// released is completed and left empty.
pub open spec fn finalize_stage(pen: Pen, buf: Seq<Point>) -> (Seq<Point>, Seq<Seq<Point>>) {
    if buf.len() >= POINTS_CHUNK_THRESHOLD {
        (seq![pen.position], seq![buf])
    } else if pen.just_released && buf.len() > 0 {
        (Seq::empty(), seq![buf])
    } else {
        (buf, seq![])
    }
}

/// One tick for one pen: the buffer after it, and the point lists of the
/// paths completed during it, in order.
pub open spec fn tick(pen: Pen, buf: Seq<Point>) -> (Seq<Point>, Seq<Seq<Point>>) {
    let (b1, first) = corner_stage(pen, buf);
    let b2 = append_stage(pen, b1);
    let (b3, second) = finalize_stage(pen, b2);
    (b3, first + second)
}

/// Turns the buffer into a path of the pen's style at depth `depth_of(now)`,
/// stores it and empties the buffer.
pub fn complete_pending_path(
    buffer: &mut StrokeBuffer,
    pen: &Pen,
    now: u64,
    paths: &mut Vec<CompletedPath>,
)
    requires
        old(buffer).wf(),
    ensures
        final(buffer)@ == Seq::<Point>::empty(),
        final(buffer).wf(),
        path_views(final(paths)@) == path_views(old(paths)@) + completed_views(
            seq![old(buffer)@],
            *pen,
            now,
        ),
{
    let path = CompletedPath {
        points: buffer.points.clone(),
        color: pen.color,
        line_width: pen.line_width,
        depth: depth_from_time(now),
    };
    paths.push(path);
    buffer.clear();
    proof {
        assert(path_views(final(paths)@) =~= path_views(old(paths)@) + completed_views(
            seq![old(buffer)@],
            *pen,
            now,
        ));
    }
}

/// Runs one tick of the stroke policy for `pen`: the corner check, then the
/// new point, then the chunk threshold and the release, in that order.
pub fn update_stroke(
    buffer: &mut StrokeBuffer,
    pen: &Pen,
    now: u64,
    paths: &mut Vec<CompletedPath>,
)
    requires
        old(buffer).wf(),
        pen.wf(),
    ensures
        final(buffer)@ == tick(*pen, old(buffer)@).0,
        final(buffer).wf(),
        path_views(final(paths)@) == path_views(old(paths)@) + completed_views(
            tick(*pen, old(buffer)@).1,
            *pen,
            now,
        ),
{
    let ghost buf0 = buffer@;
    let ghost paths0 = paths@;
    let ghost st1 = corner_stage(*pen, buf0);
    if pen.pressed && pen.updated && buffer.len() >= 2 {
        let (a, b) = buffer.last_two();
        if triggers_corner_artifact(a, b, pen.position, pen.line_width) {
            complete_pending_path(buffer, pen, now, paths);
            buffer.append(b);
        }
    }
    assert(buffer@ =~= st1.0);
    assert(path_views(paths@) =~= path_views(paths0) + completed_views(st1.1, *pen, now));
    let ghost paths1 = paths@;
    if pen.pressed && pen.updated {
        buffer.append(pen.position);
    }
    let ghost b2 = buffer@;
    let ghost st3 = finalize_stage(*pen, b2);
    let chunk_completed = buffer.len() >= POINTS_CHUNK_THRESHOLD;
    let just_released = pen.just_released && !buffer.is_empty();
    if chunk_completed || just_released {
        complete_pending_path(buffer, pen, now, paths);
        if chunk_completed {
            buffer.append(pen.position);
        }
    }
    assert(buffer@ =~= st3.0);
    assert(path_views(paths@) =~= path_views(paths1) + completed_views(st3.1, *pen, now));
    assert(completed_views(st1.1 + st3.1, *pen, now) =~= completed_views(st1.1, *pen, now)
        + completed_views(st3.1, *pen, now));
    assert(path_views(paths@) =~= path_views(paths0) + completed_views(
        tick(*pen, buf0).1,
        *pen,
        now,
    ));
}

/// After any tick the buffer holds fewer than `POINTS_CHUNK_THRESHOLD` points.
pub proof fn lemma_tick_keeps_buffer_short(pen: Pen, buf: Seq<Point>)
    ensures
        tick(pen, buf).0.len() < POINTS_CHUNK_THRESHOLD,
{
}

/// On the tick at which a pen is released, a path is completed exactly when
/// the stroke's buffer holds points, and the buffer ends empty: a release
/// with nothing drawn completes nothing.
pub proof fn lemma_release_completes_nonempty(pen: Pen, buf: Seq<Point>)
    requires
        pen.just_released,
        !pen.pressed,
        buf.len() < POINTS_CHUNK_THRESHOLD,
    ensures
        tick(pen, buf).0.len() == 0,
        tick(pen, buf).1.len() > 0 <==> buf.len() > 0,
{
}

/// The paths that a tick completes hold only points from the buffer and the
/// pen, so they stay in the canvas range.
pub proof fn lemma_tick_in_range(pen: Pen, buf: Seq<Point>)
    requires
        pen.wf(),
        points_in_range(buf),
    ensures
        points_in_range(tick(pen, buf).0),
        forall|k: int|
            0 <= k < tick(pen, buf).1.len() ==> points_in_range(#[trigger] tick(pen, buf).1[k]),
{
    let (b1, first) = corner_stage(pen, buf);
    let b2 = append_stage(pen, b1);
    let (b3, second) = finalize_stage(pen, b2);
    assert(points_in_range(b1));
    assert(points_in_range(b2));
    assert forall|k: int| 0 <= k < first.len() implies points_in_range(#[trigger] first[k]) by {}
    assert forall|k: int| 0 <= k < second.len() implies points_in_range(#[trigger] second[k]) by {}
    assert forall|k: int| 0 <= k < (first + second).len() implies points_in_range(#[trigger] (first + second)[k]) by {
        if k < first.len() {
            assert((first + second)[k] == first[k]);
        } else {
            assert((first + second)[k] == second[k - first.len()]);
        }
    }
}

/// Successive ticks of the stroke policy, one pen state per tick, from the
/// buffer `buf`: the buffer after them and every point list completed, in
/// order.
pub open spec fn run_ticks(pens: Seq<Pen>, buf: Seq<Point>) -> (Seq<Point>, Seq<Seq<Point>>)
    decreases pens.len(),
{
    if pens.len() == 0 {
        (buf, seq![])
    } else {
        let (b, done) = run_ticks(pens.drop_last(), buf);
        let (b2, more) = tick(pens.last(), b);
        (b2, done + more)
    }
}

/// The pen states of a straight stroke held down throughout: at tick `k` the
/// pen is pressed, has moved, was not just released, and stands at
/// `(x0 + k, y0)`.
pub open spec fn straight_pressed_stroke(pens: Seq<Pen>, x0: int, y0: int) -> bool {
    forall|k: int|
        0 <= k < pens.len() ==> (#[trigger] pens[k]).pressed && pens[k].updated
            && !pens[k].just_released
            && pens[k].position.x == x0 + k && pens[k].position.y == y0
}

/// Along a straight stroke held down for `n >= 1` ticks from an empty buffer,
/// no corner splits; a path of `POINTS_CHUNK_THRESHOLD` points is completed
/// each time the buffer fills, the buffer holds the latest points, and
/// `99 * chunks + buffered == n` (each new chunk starts from the point that
/// ended the one before).
pub proof fn lemma_straight_stroke_chunks(pens: Seq<Pen>, x0: int, y0: int)
    requires
        pens.len() >= 1,
        straight_pressed_stroke(pens, x0, y0),
    ensures
        ({
            let (b, done) = run_ticks(pens, Seq::empty());
            &&& 1 <= b.len() < POINTS_CHUNK_THRESHOLD
            &&& 99 * done.len() + b.len() == pens.len()
            &&& forall|j: int|
                0 <= j < b.len() ==> (#[trigger] b[j]).x == x0 + pens.len() - b.len() + j
                    && b[j].y == y0
            &&& forall|c: int| 0 <= c < done.len() ==> (#[trigger] done[c]).len() == POINTS_CHUNK_THRESHOLD
        }),
    decreases pens.len(),
{
    let n = pens.len();
    let last = pens.last();
    assert(last == pens[n - 1]);
    if n == 1 {
        let (b0, d0) = run_ticks(pens.drop_last(), Seq::empty());
        assert(pens.drop_last().len() == 0);
        assert(b0 == Seq::<Point>::empty());
        assert(tick(last, b0).0 =~= seq![last.position]);
        assert(d0 + tick(last, b0).1 =~= Seq::<Seq<Point>>::empty());
    } else {
        let prev = pens.drop_last();
        assert forall|k: int| 0 <= k < prev.len() implies (#[trigger] prev[k]).pressed && prev[k].updated
            && !prev[k].just_released && prev[k].position.x == x0 + k && prev[k].position.y == y0 by {
            assert(prev[k] == pens[k]);
        }
        lemma_straight_stroke_chunks(prev, x0, y0);
        let (b, done) = run_ticks(prev, Seq::empty());
        let len = b.len();
        if len >= 2 {
            let p0 = b[len - 2];
            let p1 = b[len - 1];
            let p2 = last.position;
            assert(p0.x == x0 + (n - 1) - len + len - 2);
            assert(p1.x == x0 + (n - 1) - len + len - 1);
            assert(p0.x < p1.x < p2.x);
            assert(cross_at(p1, p0, p2) == 0) by (nonlinear_arith)
                requires
                    p0.y == y0,
                    p1.y == y0,
                    p2.y == y0,
            ;
            assert(dot_at(p1, p0, p2) < 0) by (nonlinear_arith)
                requires
                    p0.y == p1.y,
                    p2.y == p1.y,
                    p0.x < p1.x,
                    p1.x < p2.x,
            ;
            lemma_straight_never_triggers(p0, p1, p2, last.line_width as int);
        }
        assert(corner_stage(last, b) == (b, Seq::<Seq<Point>>::empty()));
        let b2 = b.push(last.position);
        assert(append_stage(last, b) == b2);
        let (b3, more) = finalize_stage(last, b2);
        if b2.len() >= POINTS_CHUNK_THRESHOLD {
            assert(b3 =~= seq![last.position]);
            assert(more =~= seq![b2]);
        } else {
            assert(b3 == b2);
            assert(more =~= Seq::<Seq<Point>>::empty());
            assert forall|j: int| 0 <= j < b3.len() implies (#[trigger] b3[j]).x == x0 + n - b3.len() + j
                && b3[j].y == y0 by {
                if j < len {
                    assert(b3[j] == b[j]);
                }
            }
        }
        let all = Seq::<Seq<Point>>::empty() + more;
        assert(all =~= more);
        assert forall|c: int| 0 <= c < (done + all).len() implies (#[trigger] (done + all)[c]).len() == POINTS_CHUNK_THRESHOLD by {
            if c < done.len() {
                assert((done + all)[c] == done[c]);
            } else {
                assert((done + all)[c] == all[c - done.len()]);
            }
        }
    }
}

/// A straight stroke of 250 points held down throughout completes exactly two
/// chunks of 100 points before release, and the release tick completes one
/// more path, of the remaining 52 points, and leaves the buffer empty.
pub proof fn lemma_chunked_stroke_250(pens: Seq<Pen>, release: Pen, x0: int, y0: int)
    requires
        pens.len() == 250,
        straight_pressed_stroke(pens, x0, y0),
        release.just_released,
        !release.pressed,
    ensures
        run_ticks(pens, Seq::empty()).1.len() == 2,
        run_ticks(pens, Seq::empty()).1[0].len() == POINTS_CHUNK_THRESHOLD,
        run_ticks(pens, Seq::empty()).1[1].len() == POINTS_CHUNK_THRESHOLD,
        run_ticks(pens, Seq::empty()).0.len() == 52,
        tick(release, run_ticks(pens, Seq::empty()).0).0.len() == 0,
        tick(release, run_ticks(pens, Seq::empty()).0).1 == seq![run_ticks(pens, Seq::empty()).0],
{
    lemma_straight_stroke_chunks(pens, x0, y0);
    let b = run_ticks(pens, Seq::empty()).0;
    assert(tick(release, b).1 =~= seq![b]);
}

} // verus!
