use lavagna::engine::{ClearEvent, PeerMessage, Whiteboard};
use lavagna::stroke::depth_from_time;
use lavagna::canvas::SurfaceEvent;

#[test]
fn depth_grows_with_time() {
    assert_eq!(depth_from_time(0), 0);
    assert_eq!(depth_from_time(10_000), 5_000_000);
    let times = [0u64, 1, 2, 17, 10_000, u64::MAX];
    for w in times.windows(2) {
        assert!(depth_from_time(w[0]) < depth_from_time(w[1]));
    }
}

#[test]
fn long_stroke_is_chunked_then_finished_on_release() {
    let mut wb = Whiteboard::new();
    let id = wb.add_actor();
    let mut t: u64 = 0;
    for i in 0..250i64 {
        t += 1;
        wb.submit_sample(id, i, 0, true, t);
    }
    assert_eq!(wb.completed_paths().len(), 2);
    assert_eq!(wb.completed_paths()[0].points.len(), 100);
    assert_eq!(wb.completed_paths()[1].points.len(), 100);
    // the second chunk starts where the first ended
    assert_eq!(wb.completed_paths()[1].points[0], wb.completed_paths()[0].points[99]);
    t += 1;
    wb.submit_sample(id, 249, 0, false, t);
    assert_eq!(wb.completed_paths().len(), 3);
    assert_eq!(wb.completed_paths()[2].points.len(), 52);
    assert!(wb.pending_points(id).is_empty());
    let d: Vec<u128> = wb.completed_paths().iter().map(|p| p.depth).collect();
    assert!(d[0] < d[1] && d[1] < d[2]);
}

#[test]
fn release_without_points_completes_nothing() {
    let mut wb = Whiteboard::new();
    let id = wb.add_actor();
    // the pen stays up: nothing is appended and nothing completes
    wb.submit_sample(id, 0, 0, false, 1);
    wb.submit_sample(id, 0, 0, false, 2);
    assert!(wb.completed_paths().is_empty());
    wb.submit_sample(id, 3, 3, true, 3);
    assert_eq!(wb.pending_points(id).len(), 1);
    wb.submit_sample(id, 3, 3, false, 4);
    assert_eq!(wb.completed_paths().len(), 1);
    assert_eq!(wb.completed_paths()[0].points.len(), 1);
    wb.submit_sample(id, 3, 3, false, 5);
    assert_eq!(wb.completed_paths().len(), 1);
}

#[test]
fn sharp_corner_splits_the_stroke() {
    let mut wb = Whiteboard::new();
    let id = wb.add_actor();
    wb.submit_sample(id, 0, 0, true, 1);
    wb.submit_sample(id, 0, 2, true, 2);
    assert_eq!(wb.completed_paths().len(), 0);
    // a right angle with segments of 2 pixels and radius 4
    wb.submit_sample(id, 2, 2, true, 3);
    assert_eq!(wb.completed_paths().len(), 1);
    assert_eq!(wb.completed_paths()[0].points.len(), 2);
    let pending = wb.pending_points(id);
    assert_eq!(pending.len(), 2);
    assert_eq!((pending[0].x, pending[0].y), (0, 2));
    assert_eq!((pending[1].x, pending[1].y), (2, 2));
}

#[test]
fn completed_path_takes_the_pen_style() {
    let mut wb = Whiteboard::new();
    let id = wb.add_actor();
    let red = lavagna::pen::Rgba::new(255, 0, 0, 255);
    wb.set_style(id, red, 3);
    wb.submit_sample(id, 1, 1, true, 7);
    wb.submit_sample(id, 1, 1, false, 8);
    let p = &wb.completed_paths()[0];
    assert_eq!(p.color, red);
    assert_eq!(p.line_width, 3);
    assert_eq!(p.depth, depth_from_time(8));
}

#[test]
fn local_clear_is_forwarded_once() {
    let mut wb = Whiteboard::new();
    let id = wb.add_actor();
    wb.submit_sample(id, 1, 1, true, 1);
    wb.submit_sample(id, 1, 1, false, 2);
    assert_eq!(wb.completed_paths().len(), 1);
    wb.clear(true);
    assert!(wb.completed_paths().is_empty());
    assert_eq!(wb.take_outbox(), vec![PeerMessage::Clear]);
    assert!(wb.take_outbox().is_empty());
}

#[test]
fn peer_clear_is_not_forwarded() {
    let mut wb = Whiteboard::new();
    let id = wb.add_actor();
    wb.submit_sample(id, 1, 1, true, 1);
    wb.submit_sample(id, 1, 1, false, 2);
    wb.clear(false);
    assert!(wb.completed_paths().is_empty());
    assert!(wb.take_outbox().is_empty());
}

#[test]
fn clear_events_of_a_tick() {
    let mut wb = Whiteboard::new();
    let e = ClearEvent::new();
    let l = ClearEvent::local_only();
    assert!(e.must_be_forwarded());
    assert!(!l.must_be_forwarded());
    wb.handle_clear_events(&vec![e, l, e]);
    assert_eq!(wb.take_outbox(), vec![PeerMessage::Clear, PeerMessage::Clear]);
    wb.handle_clear_events(&vec![]);
    assert!(wb.take_outbox().is_empty());
}

#[test]
fn actors_keep_separate_buffers() {
    let mut wb = Whiteboard::new();
    let a = wb.add_actor();
    let b = wb.add_actor();
    wb.submit_sample(a, 1, 1, true, 1);
    wb.submit_sample(b, 5, 5, true, 1);
    wb.submit_sample(a, 2, 1, true, 2);
    assert_eq!(wb.pending_points(a).len(), 2);
    assert_eq!(wb.pending_points(b).len(), 1);
    assert!(wb.pen_of(a).pressed);
}

#[test]
fn resume_completes_the_open_stroke() {
    let mut wb = Whiteboard::new();
    let id = wb.add_actor();
    wb.submit_sample(id, 1, 1, true, 1);
    wb.submit_sample(id, 2, 1, true, 2);
    assert_eq!(wb.pending_points(id).len(), 2);
    wb.on_surface_event(SurfaceEvent::Resumed { width: 8, height: 8 }).unwrap();
    assert!(wb.pending_points(id).is_empty());
    assert_eq!(wb.completed_paths().len(), 1);
    assert_eq!(wb.completed_paths()[0].points.len(), 2);
    assert_eq!(wb.completed_paths()[0].depth, depth_from_time(2));
    assert!(!wb.pen_of(id).pressed);
    wb.submit_sample(id, 2, 1, false, 3);
    wb.submit_sample(id, 6, 6, true, 4);
    // the new stroke starts at the new point, not at the old stroke's end
    assert_eq!(wb.pending_points(id).len(), 1);
    assert_eq!((wb.pending_points(id)[0].x, wb.pending_points(id)[0].y), (6, 6));
}

#[test]
fn release_tick_with_movement_adds_no_corner_path() {
    let mut wb = Whiteboard::new();
    let id = wb.add_actor();
    wb.submit_sample(id, 0, 0, true, 1);
    wb.submit_sample(id, 0, 2, true, 2);
    // released at a point that would form a sharp corner
    wb.submit_sample(id, 2, 2, false, 3);
    assert_eq!(wb.completed_paths().len(), 1);
    assert_eq!(wb.completed_paths()[0].points.len(), 2);
}
