use lavagna::canvas::{CanvasError, CanvasManager, Raster, SurfaceEvent};
use lavagna::engine::Whiteboard;
use lavagna::pen::Rgba;

fn ink() -> Rgba {
    Rgba::new(10, 20, 30, 255)
}

fn blank() -> Rgba {
    Rgba::new(0, 0, 0, 0)
}

#[test]
fn new_raster_is_blank() {
    let r = Raster::new(3, 2).unwrap();
    assert_eq!((r.width_of(), r.height_of()), (3, 2));
    for y in 0..2 {
        for x in 0..3 {
            assert_eq!(r.get_pixel(x, y), blank());
        }
    }
}

#[test]
fn invalid_sizes_are_refused() {
    assert_eq!(Raster::new(0, 5).err(), Some(CanvasError::InvalidSize));
    assert_eq!(Raster::new(5, 0).err(), Some(CanvasError::InvalidSize));
    assert_eq!(Raster::new(8193, 1).err(), Some(CanvasError::InvalidSize));
    let mut m = CanvasManager::new();
    assert_eq!(m.create(0, 10), Err(CanvasError::InvalidSize));
    assert!(m.canvas().is_none());
}

#[test]
fn resize_round_trip_keeps_the_image() {
    let mut m = CanvasManager::new();
    m.create(10, 10).unwrap();
    m.canvas_mut().unwrap().set_pixel(5, 5, ink());
    let before = m.extract_snapshot().unwrap();
    m.resize(20, 20).unwrap();
    let grown = m.canvas().unwrap();
    assert_eq!(grown.width_of(), 20);
    assert_eq!(grown.get_pixel(5, 5), ink());
    assert_eq!(grown.get_pixel(15, 15), blank());
    m.resize(10, 10).unwrap();
    let back = m.canvas().unwrap();
    for y in 0..10 {
        for x in 0..10 {
            assert_eq!(back.get_pixel(x, y), before.get_pixel(x, y));
        }
    }
}

#[test]
fn shrinking_clips_the_image() {
    let mut m = CanvasManager::new();
    m.create(10, 10).unwrap();
    m.canvas_mut().unwrap().set_pixel(8, 8, ink());
    m.canvas_mut().unwrap().set_pixel(1, 1, ink());
    m.resize(5, 5).unwrap();
    m.resize(10, 10).unwrap();
    let c = m.canvas().unwrap();
    assert_eq!(c.get_pixel(1, 1), ink());
    assert_eq!(c.get_pixel(8, 8), blank());
}

#[test]
fn suspend_and_resume_restore_the_image() {
    let mut m = CanvasManager::new();
    m.create(6, 4).unwrap();
    m.canvas_mut().unwrap().set_pixel(2, 3, ink());
    m.suspend();
    assert!(m.canvas().is_none());
    assert!(m.extract_snapshot().is_none());
    m.create(6, 4).unwrap();
    let c = m.canvas().unwrap();
    for y in 0..4 {
        for x in 0..6 {
            let want = if (x, y) == (2, 3) { ink() } else { blank() };
            assert_eq!(c.get_pixel(x, y), want);
        }
    }
}

#[test]
fn failed_resize_leaves_no_canvas_and_keeps_the_image() {
    let mut m = CanvasManager::new();
    m.create(4, 4).unwrap();
    m.canvas_mut().unwrap().set_pixel(0, 0, ink());
    assert_eq!(m.resize(0, 4), Err(CanvasError::InvalidSize));
    assert!(m.canvas().is_none());
    m.create(4, 4).unwrap();
    assert_eq!(m.canvas().unwrap().get_pixel(0, 0), ink());
}

#[test]
fn surface_events_drive_the_canvas() {
    let mut wb = Whiteboard::new();
    let id = wb.add_actor();
    wb.submit_sample(id, 1, 1, true, 1);
    assert_eq!(wb.on_surface_event(SurfaceEvent::Resumed { width: 8, height: 8 }), Ok(()));
    assert!(!wb.pen_of(id).pressed);
    assert_eq!(wb.canvas().canvas().unwrap().width_of(), 8);
    assert_eq!(wb.on_surface_event(SurfaceEvent::Resized { width: 16, height: 4 }), Ok(()));
    assert_eq!(wb.canvas().canvas().unwrap().height_of(), 4);
    assert_eq!(wb.on_surface_event(SurfaceEvent::Suspended), Ok(()));
    assert!(wb.canvas().canvas().is_none());
    assert_eq!(
        wb.on_surface_event(SurfaceEvent::Resized { width: 0, height: 4 }),
        Err(CanvasError::InvalidSize)
    );
}

#[test]
fn render_draws_a_dot_with_round_caps() {
    let mut wb = Whiteboard::new();
    let id = wb.add_actor();
    let red = Rgba::new(255, 0, 0, 255);
    wb.set_style(id, red, 4);
    wb.submit_sample(id, 5, 5, true, 1);
    wb.submit_sample(id, 5, 5, false, 2);
    let mut target = Raster::new(11, 11).unwrap();
    wb.render_into(&mut target);
    assert_eq!(target.get_pixel(5, 5), red);
    assert_eq!(target.get_pixel(7, 5), red);
    assert_eq!(target.get_pixel(5, 3), red);
    assert_eq!(target.get_pixel(7, 7), blank());
    assert_eq!(target.get_pixel(8, 5), blank());
}

#[test]
fn later_paths_paint_over_earlier_ones_and_pending_on_top() {
    let mut wb = Whiteboard::new();
    let id = wb.add_actor();
    let red = Rgba::new(255, 0, 0, 255);
    let green = Rgba::new(0, 255, 0, 255);
    let blue = Rgba::new(0, 0, 255, 255);
    wb.set_style(id, red, 2);
    wb.submit_sample(id, 0, 2, true, 1);
    wb.submit_sample(id, 6, 2, true, 2);
    wb.submit_sample(id, 6, 2, false, 3);
    wb.set_style(id, green, 2);
    wb.submit_sample(id, 3, 0, true, 4);
    wb.submit_sample(id, 3, 6, true, 5);
    wb.submit_sample(id, 3, 6, false, 6);
    wb.set_style(id, blue, 2);
    wb.submit_sample(id, 5, 2, true, 7);
    wb.on_surface_event(SurfaceEvent::Resumed { width: 7, height: 7 }).unwrap();
    wb.render();
    let c = wb.canvas().canvas().unwrap();
    assert_eq!(c.get_pixel(1, 2), red);
    assert_eq!(c.get_pixel(3, 2), green);
    assert_eq!(c.get_pixel(3, 5), green);
    assert_eq!(c.get_pixel(5, 2), blue);
    assert_eq!(c.get_pixel(0, 6), blank());
}

#[test]
fn clear_blanks_the_canvas() {
    let mut wb = Whiteboard::new();
    let id = wb.add_actor();
    wb.on_surface_event(SurfaceEvent::Resumed { width: 8, height: 8 }).unwrap();
    wb.submit_sample(id, 3, 3, true, 1);
    wb.submit_sample(id, 3, 3, false, 2);
    wb.render();
    assert_eq!(wb.canvas().canvas().unwrap().get_pixel(3, 3), Rgba::new(255, 255, 255, 255));
    wb.clear(true);
    let c = wb.canvas().canvas().unwrap();
    assert_eq!((c.width_of(), c.height_of()), (8, 8));
    assert_eq!(c.get_pixel(3, 3), blank());
}

#[test]
fn failed_resume_keeps_the_image() {
    let mut m = CanvasManager::new();
    m.create(4, 4).unwrap();
    m.canvas_mut().unwrap().set_pixel(1, 2, ink());
    assert_eq!(
        m.on_surface_event(SurfaceEvent::Resumed { width: 0, height: 0 }),
        Err(CanvasError::InvalidSize)
    );
    assert!(m.canvas().is_none());
    m.on_surface_event(SurfaceEvent::Resumed { width: 4, height: 4 }).unwrap();
    assert_eq!(m.canvas().unwrap().get_pixel(1, 2), ink());
}
