use lavagna::geometry::{triggers_corner_artifact, Point};

#[test]
fn straight_line_never_splits() {
    let a = Point::new(0, 0);
    let b = Point::new(1, 0);
    let c = Point::new(2, 0);
    assert!(!triggers_corner_artifact(a, b, c, 1024));
    assert!(!triggers_corner_artifact(a, b, c, 8));
    let far = Point::new(500, 500);
    assert!(!triggers_corner_artifact(Point::new(-100, -100), Point::new(0, 0), far, 1000));
}

#[test]
fn right_angle_with_long_segments_does_not_split() {
    // radius 4, both segments of length 10
    assert!(!triggers_corner_artifact(
        Point::new(0, 10),
        Point::new(0, 0),
        Point::new(10, 0),
        8
    ));
}

#[test]
fn right_angle_with_short_segments_splits() {
    // radius 4, both segments of length 2
    assert!(triggers_corner_artifact(
        Point::new(0, 2),
        Point::new(0, 0),
        Point::new(2, 0),
        8
    ));
    // one short segment is enough
    assert!(triggers_corner_artifact(
        Point::new(0, 2),
        Point::new(0, 0),
        Point::new(20, 0),
        8
    ));
}

#[test]
fn right_angle_at_exact_radius_does_not_split() {
    // segment length equals the radius: the comparison is strict
    assert!(!triggers_corner_artifact(
        Point::new(0, 4),
        Point::new(0, 0),
        Point::new(4, 0),
        8
    ));
}

#[test]
fn full_reversal_splits() {
    // the new point goes back over the last segment: cosine 1
    assert!(triggers_corner_artifact(
        Point::new(10, 0),
        Point::new(0, 0),
        Point::new(5, 0),
        2
    ));
}

#[test]
fn sharp_angle_depends_on_length() {
    // about 11 degrees at the corner: a join of radius 4 needs segments of
    // about 4 * cot(5.7 deg) ~ 40 pixels
    let p1 = Point::new(0, 0);
    assert!(triggers_corner_artifact(Point::new(30, 0), p1, Point::new(30, 6), 8));
    assert!(!triggers_corner_artifact(Point::new(100, 0), p1, Point::new(100, 20), 8));
}

#[test]
fn zero_length_segment_never_splits() {
    let p = Point::new(3, 3);
    assert!(!triggers_corner_artifact(p, p, Point::new(4, 3), 100));
    assert!(!triggers_corner_artifact(Point::new(4, 3), p, p, 100));
}

#[test]
fn clamped_limits_coordinates() {
    let p = Point::clamped(100_000, -100_000);
    assert_eq!(p, Point::new(8192, -8192));
    assert_eq!(Point::clamped(5, -7), Point::new(5, -7));
}
