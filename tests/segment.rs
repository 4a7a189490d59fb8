// Coordinates are in quarter units: 1 stands for 0.25.
use earclip::{Segment, Vec2};

#[test]
fn segment_intersects() {
    let segment1 = Segment(Vec2(1, 3), Vec2(3, 1));
    let segment2 = Segment(Vec2(1, 1), Vec2(3, 3));

    assert!(segment1.intersects(&segment2));
    assert!(segment2.intersects(&segment1));
    assert!(segment1.flip().intersects(&segment2));
    assert!(segment2.flip().intersects(&segment1));
}

#[test]
fn segment_intersects_collinear_endpoint() {
    let segment1 = Segment(Vec2(1, 3), Vec2(3, 1));
    let segment2 = Segment(Vec2(2, 2), Vec2(3, 3));

    assert!(segment1.intersects(&segment2));
    assert!(segment2.intersects(&segment1));
    assert!(segment1.flip().intersects(&segment2));
    assert!(segment2.flip().intersects(&segment1));
}

#[test]
fn segment_intersects_same_endpoint() {
    let segment1 = Segment(Vec2(1, 3), Vec2(3, 1));
    let segment2 = Segment(Vec2(1, 3), Vec2(3, 3));

    assert!(segment1.intersects(&segment2));
    assert!(segment2.intersects(&segment1));
    assert!(segment1.flip().intersects(&segment2));
    assert!(segment2.flip().intersects(&segment1));
}

#[test]
fn segment_projection_does_not_intersect() {
    let segment1 = Segment(Vec2(1, 3), Vec2(3, 1));
    let segment2 = Segment(Vec2(-1, 3), Vec2(1, 5));

    assert!(!segment1.intersects(&segment2));
    assert!(!segment2.intersects(&segment1));
    assert!(!segment1.flip().intersects(&segment2));
    assert!(!segment2.flip().intersects(&segment1));
}

#[test]
fn segment_flip_swaps_endpoints() {
    let s = Segment(Vec2(1, 2), Vec2(3, 4));
    assert_eq!(s.flip(), Segment(Vec2(3, 4), Vec2(1, 2)));
}

#[test]
fn segment_intersection_survives_translation() {
    let offset = Vec2(7, -5);
    let s1 = Segment(Vec2(1, 3) + offset, Vec2(3, 1) + offset);
    let s2 = Segment(Vec2(1, 1) + offset, Vec2(3, 3) + offset);
    assert!(s1.intersects(&s2));
    assert!(s2.intersects(&s1));
}

#[test]
fn segment_symmetry_on_every_reversal() {
    let cases = vec![
        (Segment(Vec2(0, 0), Vec2(4, 4)), Segment(Vec2(0, 4), Vec2(4, 0)), true),
        (Segment(Vec2(0, 0), Vec2(2, 0)), Segment(Vec2(3, 0), Vec2(5, 0)), false),
        (Segment(Vec2(0, 0), Vec2(4, 0)), Segment(Vec2(2, 0), Vec2(6, 0)), true),
        (Segment(Vec2(0, 0), Vec2(4, 0)), Segment(Vec2(6, 0), Vec2(6, 5)), false),
        (Segment(Vec2(0, 0), Vec2(4, 0)), Segment(Vec2(4, 0), Vec2(6, 5)), true),
        (Segment(Vec2(0, 0), Vec2(4, 0)), Segment(Vec2(2, 1), Vec2(3, 5)), false),
    ];
    for (a, b, expected) in cases {
        assert_eq!(a.intersects(&b), expected);
        assert_eq!(b.intersects(&a), expected);
        assert_eq!(a.flip().intersects(&b), expected);
        assert_eq!(a.intersects(&b.flip()), expected);
        assert_eq!(a.flip().intersects(&b.flip()), expected);
    }
}
