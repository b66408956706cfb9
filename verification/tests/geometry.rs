use fakeblok::geom::{Point, Rectangle};

fn expect_segments(rect: &Rectangle, bound: Point, expected: &[Rectangle]) {
    let segs = rect.segments(bound);
    let mut remaining: Vec<Rectangle> = expected.to_vec();
    for seg in segs {
        let pos = remaining
            .iter()
            .position(|r| r == &seg)
            .unwrap_or_else(|| panic!("Expected one of {:?}; got {:?}", remaining, seg));
        remaining.remove(pos);
    }
    assert!(remaining.is_empty(), "segments missing: {:?}", remaining);
}

#[test]
fn my_rectangle_segments_no_overflow() {
    let rect = Rectangle {
        top_left: Point { x: 5, y: 5 },
        width: 5,
        height: 5,
    };
    let expected_recs = vec![Rectangle::new(Point::new(5, 5), 5, 5)];
    expect_segments(&rect, Point { x: 10, y: 10 }, &expected_recs);
}

#[test]
fn my_rectangle_segments_overflow() {
    let rect = Rectangle {
        top_left: Point { x: 5, y: 5 },
        width: 5,
        height: 5,
    };
    let expected_recs = vec![
        Rectangle::new(Point::new(5, 5), 2, 5),
        Rectangle::new(Point::new(0, 5), 3, 5),
    ];
    expect_segments(&rect, Point { x: 7, y: 10 }, &expected_recs);
}

#[test]
fn rectangle_move() {
    let mut rect = Rectangle {
        top_left: Point { x: 5, y: 5 },
        width: 5,
        height: 5,
    };
    rect.move_(Point::new(5, 5), 10, 10);
    assert_eq!(rect, Rectangle::new(Point::new(0, 0), 5, 5));
    rect.move_(Point::new(-5, -5), 10, 10);
    assert_eq!(rect, Rectangle::new(Point::new(5, 5), 5, 5));
}

#[test]
fn my_rectangle_draw_no_overflow() {
    let rect = Rectangle {
        top_left: Point { x: 5, y: 5 },
        width: 5,
        height: 5,
    };
    let expected_recs = vec![Rectangle::new(Point::new(5, 5), 5, 5)];
    expect_segments(&rect, Point { x: 10, y: 10 }, &expected_recs);
}

#[test]
fn my_rectangle_draw_overflow() {
    let rect = Rectangle {
        top_left: Point { x: 5, y: 5 },
        width: 5,
        height: 5,
    };
    let expected_recs = vec![
        Rectangle::new(Point::new(5, 5), 2, 5),
        Rectangle::new(Point::new(0, 5), 3, 5),
    ];
    expect_segments(&rect, Point { x: 7, y: 10 }, &expected_recs);
}

#[test]
fn segments_corner_overflow() {
    // overflow on both axes: four pieces, corner included
    let rect = Rectangle {
        top_left: Point { x: 8, y: 9 },
        width: 4,
        height: 3,
    };
    let expected_recs = vec![
        Rectangle::new(Point::new(0, 0), 2, 2),
        Rectangle::new(Point::new(8, 0), 2, 2),
        Rectangle::new(Point::new(0, 9), 2, 1),
        Rectangle::new(Point::new(8, 9), 2, 1),
    ];
    expect_segments(&rect, Point { x: 10, y: 10 }, &expected_recs);
}

#[test]
fn move_wraps_negative_delta_into_range() {
    let mut rect = Rectangle::new(Point::new(0, 0), 3, 3);
    rect.move_(Point::new(-1, -25), 10, 10);
    assert_eq!(rect.top_left, Point::new(9, 5));
}

#[test]
fn overlap_box_exact() {
    let a = Rectangle::new(Point::new(0, 0), 10, 10);
    let b = Rectangle::new(Point::new(5, 5), 10, 10);
    let o = a.overlap(&b).expect("boxes overlap");
    assert_eq!(o, Rectangle::new(Point::new(5, 5), 5, 5));
    let c = Rectangle::new(Point::new(10, 0), 10, 10);
    assert!(a.overlap(&c).is_none());
}

#[test]
fn point_helpers() {
    let p = Point::new(3, -4);
    assert!(p.is_right_of(Point::new(2, 0)));
    assert!(!p.is_below(Point::new(0, 0)));
    assert_eq!(p.abs(), Point::new(3, 4));
    assert_eq!(p.copysign(Point::new(-1, 1)), Point::new(-3, 4));
    assert_eq!(p.max(Point::new(0, 0)), Point::new(3, 0));
    assert_eq!(p.min(Point::new(0, 0)), Point::new(0, -4));
    assert_eq!(p.at_x(7), Point::new(7, -4));
    assert_eq!(p.at_y(7), Point::new(3, 7));
    assert!(Point::new(0, 0).is_origin());
    assert!(!p.is_origin());
}
