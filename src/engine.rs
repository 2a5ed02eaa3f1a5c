//! The drawing engine: per-actor pens and stroke buffers, the store of
//! completed paths in paint order, clear events, and the canvas.
use vstd::prelude::*;
use crate::canvas::{CanvasError, CanvasManager, SurfaceEvent};
use crate::geometry::Point;
use crate::pen::{Pen, Rgba, pen_after_sample};
use crate::canvas::Raster;
use crate::render::{drawable, painted, lemma_painted_concat, render_paths};
use crate::stroke::{
    complete_pending_path, CompletedPath, PathView, StrokeBuffer, completed_views, depth_of, path_views, tick,
    update_stroke,
};

verus! {

/// A request to clear every completed path, and whether peers must hear of
/// it: a clear made here is forwarded, one that came from a peer is not.
#[derive(Clone, Copy, Debug, PartialEq, Eq, Structural)]
pub struct ClearEvent {
    forward: bool,
}

impl ClearEvent {
    pub closed spec fn forwarded(self) -> bool {
        self.forward
    }

    /// A clear made here, to be forwarded to peers.
    pub fn new() -> (e: ClearEvent)
        ensures
            e.forwarded(),
    {
        ClearEvent { forward: true }
    }

    /// A clear that came from a peer, not to be forwarded again.
    pub fn local_only() -> (e: ClearEvent)
        ensures
            !e.forwarded(),
    {
        ClearEvent { forward: false }
    }

    pub fn must_be_forwarded(&self) -> (r: bool)
        ensures
            r == self.forwarded(),
    {
        self.forward
    }
}

/// What the engine asks the peer transport to send.
#[derive(Clone, Copy, Debug, PartialEq, Eq, Structural)]
pub enum PeerMessage {
    Clear,
}

/// The messages that clearing with `forward` sends.
pub open spec fn clear_messages(forward: bool) -> Seq<PeerMessage> {
    if forward {
        seq![PeerMessage::Clear]
    } else {
        Seq::empty()
    }
}

/// One drawing actor: its pen and the points of its stroke in progress.
pub struct Actor {
    pen: Pen,
    buffer: StrokeBuffer,
}

/// Depths never decrease along the store, and none exceeds `bound`.
pub open spec fn paint_ordered(paths: Seq<PathView>, bound: int) -> bool {
    &&& forall|i: int, j: int|
        0 <= i < j < paths.len() ==> (#[trigger] paths[i]).depth <= (#[trigger] paths[j]).depth
    &&& forall|i: int| 0 <= i < paths.len() ==> (#[trigger] paths[i]).depth <= bound
}

/// The whole drawing state behind one window.
pub struct Whiteboard {
    actors: Vec<Actor>,
    paths: Vec<CompletedPath>,
    outbox: Vec<PeerMessage>,
    last_time: u64,
    canvas: CanvasManager,
}

impl Whiteboard {
    pub closed spec fn actor_count(self) -> nat {
        self.actors@.len()
    }

    pub closed spec fn pen(self, id: int) -> Pen {
        self.actors@[id].pen
    }

    pub closed spec fn buffer(self, id: int) -> Seq<Point> {
        self.actors@[id].buffer@
    }

    /// The completed paths, in paint order.
    pub closed spec fn paths(self) -> Seq<PathView> {
        path_views(self.paths@)
    }

    /// Messages waiting for the peer transport.
    pub closed spec fn outbox(self) -> Seq<PeerMessage> {
        self.outbox@
    }

    /// The time of the latest tick.
    pub closed spec fn last_time(self) -> u64 {
        self.last_time
    }

    pub closed spec fn canvas_state(self) -> CanvasManager {
        self.canvas
    }

    pub closed spec fn wf(self) -> bool {
        &&& forall|i: int|
            0 <= i < self.actors@.len() ==> (#[trigger] self.actors@[i]).pen.wf()
                && self.actors@[i].buffer.wf()
        &&& paint_ordered(path_views(self.paths@), depth_of(self.last_time))
        &&& forall|k: int|
            0 <= k < self.paths@.len() ==> drawable(#[trigger] path_views(self.paths@)[k])
        &&& self.canvas.wf()
    }

    /// The store is in paint order: depths never decrease along it, so
    /// later strokes are drawn over earlier ones.
    pub proof fn lemma_paint_order(self)
        requires
            self.wf(),
        ensures
            paint_ordered(self.paths(), depth_of(self.last_time())),
            forall|k: int| 0 <= k < self.paths().len() ==> drawable(#[trigger] self.paths()[k]),
    {
    }

    /// No actors, no paths, no canvas, time zero.
    pub fn new() -> (w: Whiteboard)
        ensures
            w.wf(),
            w.actor_count() == 0,
            w.paths() == Seq::<PathView>::empty(),
            w.outbox() == Seq::<PeerMessage>::empty(),
            w.last_time() == 0,
            w.canvas_state().active() is None,
            w.canvas_state().frozen() is None,
    {
        let w = Whiteboard {
            actors: Vec::new(),
            paths: Vec::new(),
            outbox: Vec::new(),
            last_time: 0,
            canvas: CanvasManager::new(),
        };
        assert(w.paths() =~= Seq::<PathView>::empty());
        w
    }

    /// Adds an actor with a new pen and an empty buffer; returns its id.
    pub fn add_actor(&mut self) -> (id: usize)
        requires
            old(self).wf(),
            old(self).actor_count() < usize::MAX,
        ensures
            final(self).wf(),
            id == old(self).actor_count(),
            final(self).actor_count() == old(self).actor_count() + 1,
            final(self).pen(id as int) == crate::pen::initial_pen(),
            final(self).buffer(id as int) == Seq::<Point>::empty(),
            forall|i: int|
                0 <= i < old(self).actor_count() ==> final(self).pen(i) == old(self).pen(i)
                    && final(self).buffer(i) == old(self).buffer(i),
            final(self).paths() == old(self).paths(),
            final(self).outbox() == old(self).outbox(),
            final(self).last_time() == old(self).last_time(),
            final(self).canvas_state() == old(self).canvas_state(),
    {
        let id = self.actors.len();
        self.actors.push(Actor { pen: Pen::new(), buffer: StrokeBuffer::new() });
        id
    }

    /// The pen of an actor.
    pub fn pen_of(&self, id: usize) -> (p: Pen)
        requires
            id < self.actor_count(),
        ensures
            p == self.pen(id as int),
    {
        self.actors[id].pen
    }

    /// The points of an actor's stroke in progress.
    pub fn pending_points(&self, id: usize) -> (r: &Vec<Point>)
        requires
            id < self.actor_count(),
        ensures
            r@ == self.buffer(id as int),
    {
        self.actors[id].buffer.points()
    }

    /// The completed paths, in paint order.
    pub fn completed_paths(&self) -> (r: &Vec<CompletedPath>)
        ensures
            path_views(r@) == self.paths(),
    {
        &self.paths
    }

    /// Hands the waiting messages to the transport.
    pub fn take_outbox(&mut self) -> (r: Vec<PeerMessage>)
        requires
            old(self).wf(),
        ensures
            final(self).wf(),
            r@ == old(self).outbox(),
            final(self).outbox() == Seq::<PeerMessage>::empty(),
            final(self).actor_count() == old(self).actor_count(),
            forall|i: int|
                0 <= i < old(self).actor_count() ==> final(self).pen(i) == old(self).pen(i)
                    && final(self).buffer(i) == old(self).buffer(i),
            final(self).paths() == old(self).paths(),
            final(self).last_time() == old(self).last_time(),
            final(self).canvas_state() == old(self).canvas_state(),
    {
        let mut taken: Vec<PeerMessage> = Vec::new();
        std::mem::swap(&mut self.outbox, &mut taken);
        taken
    }

    /// Sets an actor's color and line width, the width clamped to
    /// `MAX_LINE_WIDTH` (the bound of exact geometry), for the samples that
    /// follow.
    pub fn set_style(&mut self, id: usize, color: Rgba, line_width: u32)
        requires
            old(self).wf(),
            id < old(self).actor_count(),
        ensures
            final(self).wf(),
            final(self).actor_count() == old(self).actor_count(),
            final(self).pen(id as int) == (Pen {
                color,
                line_width: if line_width > crate::geometry::MAX_LINE_WIDTH {
                    crate::geometry::MAX_LINE_WIDTH
                } else {
                    line_width
                },
                ..old(self).pen(id as int)
            }),
            forall|i: int|
                0 <= i < old(self).actor_count() && i != id ==> final(self).pen(i) == old(self).pen(i),
            forall|i: int|
                0 <= i < old(self).actor_count() ==> final(self).buffer(i) == old(self).buffer(i),
            final(self).paths() == old(self).paths(),
            final(self).outbox() == old(self).outbox(),
            final(self).last_time() == old(self).last_time(),
            final(self).canvas_state() == old(self).canvas_state(),
    {
        let mut pen = self.actors[id].pen;
        pen.set_style(color, line_width);
        self.actors[id].pen = pen;
    }

    /// One tick of input for one actor at time `now`: the pen takes the
    /// sample (its position clamped as `Pen::submit_sample` says), then the stroke policy runs on the actor's buffer, and the
    /// paths it completes join the store at depth `depth_of(now)`.
    pub fn submit_sample(&mut self, id: usize, x: i64, y: i64, pressed: bool, now: u64)
        requires
            old(self).wf(),
            id < old(self).actor_count(),
            now >= old(self).last_time(),
        ensures
            final(self).wf(),
            final(self).actor_count() == old(self).actor_count(),
            final(self).pen(id as int) == pen_after_sample(old(self).pen(id as int), x, y, pressed),
            final(self).buffer(id as int) == tick(
                final(self).pen(id as int),
                old(self).buffer(id as int),
            ).0,
            final(self).paths() == old(self).paths() + completed_views(
                tick(final(self).pen(id as int), old(self).buffer(id as int)).1,
                final(self).pen(id as int),
                now,
            ),
            forall|i: int|
                0 <= i < old(self).actor_count() && i != id ==> final(self).pen(i) == old(self).pen(
                    i,
                ) && final(self).buffer(i) == old(self).buffer(i),
            final(self).outbox() == old(self).outbox(),
            final(self).last_time() == now,
            final(self).canvas_state() == old(self).canvas_state(),
    {
        let mut pen = self.actors[id].pen;
        pen.submit_sample(x, y, pressed);
        self.actors[id].pen = pen;
        let ghost before = path_views(self.paths@);
        update_stroke(&mut self.actors[id].buffer, &pen, now, &mut self.paths);
        self.last_time = now;
        proof {
            let ghost added = completed_views(tick(pen, old(self).buffer(id as int)).1, pen, now);
            let ghost after = path_views(self.paths@);
            assert(after == before + added);
            assert forall|k: int| 0 <= k < added.len() implies (#[trigger] added[k]).depth == depth_of(now) by {}
            crate::stroke::lemma_tick_in_range(pen, old(self).buffer(id as int));
            assert forall|i: int| 0 <= i < after.len() implies drawable(#[trigger] after[i]) by {
                if i >= before.len() {
                    assert(after[i] == added[i - before.len()]);
                    assert(added[i - before.len()].points == tick(pen, old(self).buffer(id as int)).1[i - before.len()]);
                } else {
                    assert(after[i] == before[i]);
                }
            }
            assert forall|i: int| 0 <= i < after.len() implies (#[trigger] after[i]).depth <= depth_of(now) by {
                if i >= before.len() {
                    assert(after[i] == added[i - before.len()]);
                } else {
                    assert(after[i] == before[i]);
                }
            }
            assert forall|i: int, j: int| 0 <= i < j < after.len() implies (#[trigger] after[i]).depth <= (#[trigger] after[j]).depth by {
                if j >= before.len() {
                    assert(after[j] == added[j - before.len()]);
                    if i >= before.len() {
                        assert(after[i] == added[i - before.len()]);
                    } else {
                        assert(after[i] == before[i]);
                    }
                } else {
                    assert(after[j] == before[j]);
                    assert(after[i] == before[i]);
                }
            }
        }
    }

    /// Removes every completed path and blanks the canvas; a forwarded clear
    /// also asks the transport, once, to tell the peers.
    pub fn clear(&mut self, forward: bool)
        requires
            old(self).wf(),
        ensures
            final(self).wf(),
            final(self).paths() == Seq::<PathView>::empty(),
            final(self).outbox() == old(self).outbox() + clear_messages(forward),
            final(self).actor_count() == old(self).actor_count(),
            forall|i: int|
                0 <= i < old(self).actor_count() ==> final(self).pen(i) == old(self).pen(i)
                    && final(self).buffer(i) == old(self).buffer(i),
            final(self).last_time() == old(self).last_time(),
            crate::canvas::erased(old(self).canvas_state(), final(self).canvas_state()),
    {
        self.paths.clear();
        self.canvas.erase();
        if forward {
            self.outbox.push(PeerMessage::Clear);
        }
        assert(self.paths() =~= Seq::<PathView>::empty());
        assert(self.outbox() =~= old(self).outbox() + clear_messages(forward));
    }

    /// Applies the clear events of one tick: any event removes every
    /// completed path and blanks the canvas, and each forwarded one sends one
    /// message.
    pub fn handle_clear_events(&mut self, events: &Vec<ClearEvent>)
        requires
            old(self).wf(),
        ensures
            final(self).wf(),
            events@.len() > 0 ==> final(self).paths() == Seq::<PathView>::empty(),
            events@.len() == 0 ==> final(self).paths() == old(self).paths(),
            final(self).outbox() == old(self).outbox() + forwarded_messages(events@),
            final(self).actor_count() == old(self).actor_count(),
            forall|i: int|
                0 <= i < old(self).actor_count() ==> final(self).pen(i) == old(self).pen(i)
                    && final(self).buffer(i) == old(self).buffer(i),
            final(self).last_time() == old(self).last_time(),
            events@.len() > 0 ==> crate::canvas::erased(old(self).canvas_state(), final(self).canvas_state()),
            events@.len() == 0 ==> final(self).canvas_state() == old(self).canvas_state(),
    {
        let mut i: usize = 0;
        while i < events.len()
            invariant
                self.wf(),
                i <= events@.len(),
                i > 0 ==> self.paths() == Seq::<PathView>::empty(),
                i == 0 ==> self.paths() == old(self).paths(),
                self.outbox() == old(self).outbox() + forwarded_messages(events@.take(i as int)),
                self.actor_count() == old(self).actor_count(),
                forall|k: int|
                    0 <= k < old(self).actor_count() ==> self.pen(k) == old(self).pen(k)
                        && self.buffer(k) == old(self).buffer(k),
                self.last_time() == old(self).last_time(),
                i > 0 ==> crate::canvas::erased(old(self).canvas_state(), self.canvas_state()),
                i == 0 ==> self.canvas_state() == old(self).canvas_state(),
            decreases events@.len() - i,
        {
            let ghost prefix = events@.take(i as int);
            let ghost next = events@.take(i + 1);
            assert(next.drop_last() =~= prefix);
            assert(next.last() == events@[i as int]);
            self.clear(events[i].must_be_forwarded());
            assert(self.outbox() =~= old(self).outbox() + forwarded_messages(next));
            i = i + 1;
        }
        assert(events@.take(events@.len() as int) == events@);
    }

    /// The paths that a resume completes from the first `n` actors: each
    /// non-empty stroke in progress, in its pen's style, at the depth of the
    /// latest tick, in the actors' order.
    pub open spec fn resume_paths(self, n: int) -> Seq<PathView>
        decreases n,
    {
        if n <= 0 {
            Seq::empty()
        } else if self.buffer(n - 1).len() > 0 {
            self.resume_paths(n - 1).push(
                PathView {
                    points: self.buffer(n - 1),
                    color: self.pen(n - 1).color,
                    line_width: self.pen(n - 1).line_width,
                    depth: depth_of(self.last_time()),
                },
            )
        } else {
            self.resume_paths(n - 1)
        }
    }

    /// Drives the canvas through a surface event. On resume every stroke in
    /// progress is completed and every pen is lifted, so that the next press
    /// starts a new stroke instead of drawing from a stale position.
    pub fn on_surface_event(&mut self, event: SurfaceEvent) -> (r: Result<(), CanvasError>)
        requires
            old(self).wf(),
        ensures
            final(self).wf(),
            final(self).actor_count() == old(self).actor_count(),
            forall|i: int|
                0 <= i < old(self).actor_count() ==> final(self).buffer(i) == if event is Resumed {
                    Seq::<Point>::empty()
                } else {
                    old(self).buffer(i)
                },
            forall|i: int|
                0 <= i < old(self).actor_count() ==> final(self).pen(i) == if event is Resumed {
                    Pen { pressed: false, ..old(self).pen(i) }
                } else {
                    old(self).pen(i)
                },
            final(self).paths() == if event is Resumed {
                old(self).paths() + old(self).resume_paths(old(self).actor_count() as int)
            } else {
                old(self).paths()
            },
            final(self).outbox() == old(self).outbox(),
            final(self).last_time() == old(self).last_time(),
            crate::canvas::event_outcome(old(self).canvas_state(), event, final(self).canvas_state(), r),
    {
        let r = self.canvas.on_surface_event(event);
        let ghost c1 = self.canvas;
        if let SurfaceEvent::Resumed { .. } = event {
            let now = self.last_time;
            let mut i: usize = 0;
            while i < self.actors.len()
                invariant
                    self.wf(),
                    now == self.last_time,
                    i <= self.actors@.len(),
                    self.actors@.len() == old(self).actors@.len(),
                    forall|k: int| 0 <= k < i ==> #[trigger] self.buffer(k) == Seq::<Point>::empty(),
                    forall|k: int| i <= k < self.actors@.len() ==> self.buffer(k) == old(self).buffer(k),
                    forall|k: int| 0 <= k < i ==> #[trigger] self.actors@[k].pen == (Pen { pressed: false, ..old(self).actors@[k].pen }),
                    forall|k: int| i <= k < self.actors@.len() ==> self.pen(k) == old(self).pen(k),
                    self.paths() == old(self).paths() + old(self).resume_paths(i as int),
                    self.outbox() == old(self).outbox(),
                    self.last_time() == old(self).last_time(),
                    self.canvas == c1,
                decreases self.actors@.len() - i,
            {
                let mut pen = self.actors[i].pen;
                assert(pen == old(self).pen(i as int));
                assert(self.buffer(i as int) == old(self).buffer(i as int));
                let ghost before = path_views(self.paths@);
                let ghost actors_before = self.actors@;
                let ghost start = *self;
                if !self.actors[i].buffer.is_empty() {
                    complete_pending_path(&mut self.actors[i].buffer, &pen, now, &mut self.paths);
                    proof {
                        let after = path_views(self.paths@);
                        let added = completed_views(seq![old(self).buffer(i as int)], pen, now);
                        assert(after == before + added);
                        assert(added =~= seq![added[0]]);
                        assert(before + added =~= old(self).paths() + old(self).resume_paths(i + 1));
                        assert(drawable(added[0]));
                        assert forall|a: int| 0 <= a < after.len() implies drawable(#[trigger] after[a]) && after[a].depth <= depth_of(now) by {
                            if a < before.len() {
                                assert(after[a] == before[a]);
                            } else {
                                assert(after[a] == added[0]);
                            }
                        }
                        assert forall|a: int, b: int| 0 <= a < b < after.len() implies (#[trigger] after[a]).depth <= (#[trigger] after[b]).depth by {
                            if b < before.len() {
                                assert(after[a] == before[a]);
                                assert(after[b] == before[b]);
                            } else if a < before.len() {
                                assert(after[a] == before[a]);
                                assert(after[b] == added[0]);
                            } else {
                                assert(after[a] == added[0]);
                                assert(after[b] == added[0]);
                            }
                        }
                    }
                } else {
                    assert(old(self).resume_paths(i + 1) == old(self).resume_paths(i as int));
                }
                pen.pressed = false;
                self.actors[i].pen = pen;
                proof {
                    assert forall|k: int| 0 <= k < self.actors@.len() && k != i implies self.actors@[k] == actors_before[k] by {}
                    assert(self.buffer(i as int) =~= Seq::<Point>::empty());
                    assert forall|k: int| 0 <= k < i + 1 implies #[trigger] self.buffer(k) == Seq::<Point>::empty() by {
                        if k < i {
                            assert(start.buffer(k) == Seq::<Point>::empty());
                            assert(self.actors@[k] == actors_before[k]);
                        }
                    }
                }
                i = i + 1;
            }
        }
        r
    }

    /// What a frame shows, bottom to top: the completed paths in paint
    /// order, then each actor's stroke in progress in its pen's style.
    pub open spec fn render_list(self) -> Seq<PathView> {
        self.paths() + self.pending_views()
    }

    /// The strokes in progress, one for each actor, in the actors' order.
    pub open spec fn pending_views(self) -> Seq<PathView> {
        Seq::new(
            self.actor_count(),
            |i: int|
                PathView {
                    points: self.buffer(i),
                    color: self.pen(i).color,
                    line_width: self.pen(i).line_width,
                    depth: depth_of(self.last_time()),
                },
        )
    }

    fn pending_paths(&self) -> (r: Vec<CompletedPath>)
        requires
            self.wf(),
        ensures
            path_views(r@) == self.pending_views(),
            forall|k: int| 0 <= k < r@.len() ==> drawable(#[trigger] r@[k]@),
    {
        let mut r: Vec<CompletedPath> = Vec::new();
        let mut i: usize = 0;
        while i < self.actors.len()
            invariant
                self.wf(),
                i <= self.actors@.len(),
                r@.len() == i,
                path_views(r@) == self.pending_views().take(i as int),
                forall|k: int| 0 <= k < r@.len() ==> drawable(#[trigger] r@[k]@),
            decreases self.actors@.len() - i,
        {
            let ghost r_old = r@;
            let actor = &self.actors[i];
            let points = actor.buffer.points().clone();
            assert(points@ =~= self.actors@[i as int].buffer@);
            r.push(
                CompletedPath {
                    points,
                    color: actor.pen.color,
                    line_width: actor.pen.line_width,
                    depth: crate::stroke::depth_from_time(self.last_time),
                },
            );
            assert(r@.last()@ == self.pending_views()[i as int]);
            assert forall|k: int| 0 <= k < i implies path_views(r@)[k] == self.pending_views()[k] by {
                assert(r@[k] == r_old[k]);
                assert(path_views(r_old)[k] == self.pending_views().take(i as int)[k]);
            }
            assert(path_views(r@) =~= self.pending_views().take(i + 1));
            i = i + 1;
        }
        assert(self.pending_views().take(self.actors@.len() as int) =~= self.pending_views());
        r
    }

    /// Draws the frame onto `target`: each pixel takes the color of the last
    /// entry of `render_list` that covers it, and keeps its own where none
    /// does.
    pub fn render_into(&self, target: &mut Raster)
        requires
            self.wf(),
            old(target).wf(),
        ensures
            final(target).wf(),
            final(target).width() == old(target).width(),
            final(target).height() == old(target).height(),
            forall|x: int, y: int|
                0 <= x < old(target).width() && 0 <= y < old(target).height() ==> #[trigger] final(target).pixel(x, y) == painted(
                    self.render_list(),
                    self.render_list().len() as int,
                    old(target).pixel(x, y),
                    Point { x: x as i64, y: y as i64 },
                ),
    {
        let ghost before = *target;
        assert forall|k: int| 0 <= k < self.paths@.len() implies drawable(#[trigger] self.paths@[k]@) by {
            assert(path_views(self.paths@)[k] == self.paths@[k]@);
        }
        render_paths(target, &self.paths);
        let ghost middle = *target;
        let pending = self.pending_paths();
        render_paths(target, &pending);
        assert forall|x: int, y: int|
            0 <= x < before.width() && 0 <= y < before.height() implies #[trigger] target.pixel(x, y) == painted(
                self.render_list(),
                self.render_list().len() as int,
                before.pixel(x, y),
                Point { x: x as i64, y: y as i64 },
            ) by {
            lemma_painted_concat(self.paths(), self.pending_views(), before.pixel(x, y), Point { x: x as i64, y: y as i64 });
            assert(middle.pixel(x, y) == painted(self.paths(), self.paths().len() as int, before.pixel(x, y), Point { x: x as i64, y: y as i64 }));
        }
    }

    /// Draws the frame onto the canvas in use, as `render_into` does; with no
    /// canvas in use nothing changes.
    pub fn render(&mut self)
        requires
            old(self).wf(),
        ensures
            final(self).wf(),
            final(self).actor_count() == old(self).actor_count(),
            forall|i: int|
                0 <= i < old(self).actor_count() ==> final(self).pen(i) == old(self).pen(i)
                    && final(self).buffer(i) == old(self).buffer(i),
            final(self).paths() == old(self).paths(),
            final(self).outbox() == old(self).outbox(),
            final(self).last_time() == old(self).last_time(),
            final(self).render_list() == old(self).render_list(),
            final(self).canvas_state().frozen() == old(self).canvas_state().frozen(),
            old(self).canvas_state().active() is None ==> final(self).canvas_state() == old(self).canvas_state(),
            old(self).canvas_state().active() matches Some(c0) ==> (final(self).canvas_state().active() matches Some(c)
                && c.wf() && c.width() == c0.width() && c.height() == c0.height()
                && forall|x: int, y: int|
                    0 <= x < c0.width() && 0 <= y < c0.height() ==> #[trigger] c.pixel(x, y) == painted(
                        old(self).render_list(),
                        old(self).render_list().len() as int,
                        c0.pixel(x, y),
                        Point { x: x as i64, y: y as i64 },
                    )),
    {
        let pending = self.pending_paths();
        let ghost ps = self.paths();
        let ghost pv = self.pending_views();
        let ghost list = self.render_list();
        assert(list == ps + pv);
        assert forall|k: int| 0 <= k < self.paths@.len() implies drawable(#[trigger] self.paths@[k]@) by {
            assert(path_views(self.paths@)[k] == self.paths@[k]@);
        }
        match self.canvas.canvas_mut() {
            Some(target) => {
                let ghost before = *target;
                render_paths(target, &self.paths);
                let ghost middle = *target;
                render_paths(target, &pending);
                assert forall|x: int, y: int|
                    0 <= x < before.width() && 0 <= y < before.height() implies #[trigger] target.pixel(x, y) == painted(
                        list,
                        list.len() as int,
                        before.pixel(x, y),
                        Point { x: x as i64, y: y as i64 },
                    ) by {
                    lemma_painted_concat(ps, pv, before.pixel(x, y), Point { x: x as i64, y: y as i64 });
                    assert(middle.pixel(x, y) == painted(ps, ps.len() as int, before.pixel(x, y), Point { x: x as i64, y: y as i64 }));
                }
            },
            None => {},
        }
    }

    /// The canvas manager.
    pub fn canvas(&self) -> (c: &CanvasManager)
        ensures
            *c == self.canvas_state(),
    {
        &self.canvas
    }
}

/// The messages that a run of clear events sends: one for each forwarded event.
pub open spec fn forwarded_messages(events: Seq<ClearEvent>) -> Seq<PeerMessage>
    decreases events.len(),
{
    if events.len() == 0 {
        Seq::empty()
    } else {
        forwarded_messages(events.drop_last()) + clear_messages(events.last().forwarded())
    }
}

} // verus!
