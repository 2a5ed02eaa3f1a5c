use lavagna::pen::{decr_size, incr_size, next_color, palette_color, Pen, Rgba};

#[test]
fn new_pen_is_up_white_and_eight_wide() {
    let p = Pen::new();
    assert!(!p.pressed && !p.just_released && !p.updated);
    assert_eq!(p.color, Rgba::new(255, 255, 255, 255));
    assert_eq!(p.line_width, 8);
    assert_eq!(p.position.x, 0);
}

#[test]
fn just_released_lasts_one_tick() {
    let mut p = Pen::new();
    p.submit_sample(1, 1, true);
    assert!(p.pressed && !p.just_released && p.updated);
    p.submit_sample(2, 2, true);
    assert!(!p.just_released);
    p.submit_sample(2, 2, false);
    assert!(p.just_released && p.updated);
    p.submit_sample(2, 2, false);
    assert!(!p.just_released);
    assert!(p.updated);
    p.submit_sample(2, 2, false);
    assert!(!p.just_released && !p.updated);
}

#[test]
fn update_pressed_follows_the_last_transition() {
    let mut p = Pen::new();
    p.update_pressed(&vec![true, false, true]);
    assert!(p.pressed && !p.just_released);
    p.update_pressed(&vec![false, true, false]);
    assert!(!p.pressed && p.just_released);
    p.update_pressed(&vec![]);
    assert!(!p.pressed && !p.just_released);
}

#[test]
fn colors_cycle_through_the_palette() {
    let mut c = palette_color(0);
    for i in 1..7 {
        c = next_color(c);
        assert_eq!(c, palette_color(i));
    }
    assert_eq!(next_color(c), palette_color(0));
    let odd = Rgba::new(1, 2, 3, 4);
    assert_eq!(next_color(odd), odd);
    let mut p = Pen::new();
    assert_eq!(p.next_color(), Rgba::new(0, 0, 255, 255));
}

#[test]
fn sizes_step_within_bounds() {
    assert_eq!(incr_size(8), 16);
    assert_eq!(incr_size(50), 100);
    assert_eq!(incr_size(64), 100);
    assert_eq!(incr_size(u32::MAX), 100);
    assert_eq!(decr_size(8), 4);
    assert_eq!(decr_size(3), 1);
    assert_eq!(decr_size(1), 1);
    assert_eq!(decr_size(0), 1);
    let mut p = Pen::new();
    assert_eq!(p.incr_size(), 16);
    assert_eq!(p.decr_size(), 8);
}

#[test]
fn style_width_is_limited() {
    let mut p = Pen::new();
    p.set_style(Rgba::new(9, 9, 9, 9), 5000);
    assert_eq!(p.line_width, 1024);
    assert_eq!(p.color, Rgba::new(9, 9, 9, 9));
}
