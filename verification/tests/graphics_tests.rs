use deepcis_os::graphics::{Color, DrawError, DrawErrorExt, Point, Rectangle, Size, Vector2d};

fn rect(x: i32, y: i32, w: i32, h: i32) -> Rectangle<i32> {
    Rectangle::new(Point::new(x, y), Size::new(w, h))
}

#[test]
fn rectangle_edges() {
    let r = rect(3, 4, 10, 20);
    assert_eq!(r.x_start(), 3);
    assert_eq!(r.y_start(), 4);
    assert_eq!(r.x_end(), 13);
    assert_eq!(r.y_end(), 24);
    assert_eq!(r.x_range(), 3..13);
    assert_eq!(r.y_range(), 4..24);
}

#[test]
fn rectangle_contains_excludes_right_and_bottom_edges() {
    let r = rect(0, 0, 4, 3);
    assert!(r.contains(&Point::new(0, 0)));
    assert!(r.contains(&Point::new(3, 2)));
    assert!(!r.contains(&Point::new(4, 2)));
    assert!(!r.contains(&Point::new(3, 3)));
    assert!(!r.contains(&Point::new(-1, 0)));
    let u: Rectangle<usize> = Rectangle::new(Point::new(2, 2), Size::new(1, 1));
    assert!(u.contains(&Point::new(2, 2)));
    assert!(!u.contains(&Point::new(1, 2)));
}

#[test]
fn rectangle_points_column_by_column() {
    let r = rect(1, 5, 2, 3);
    let pts = r.points();
    let expected = vec![
        Point::new(1, 5),
        Point::new(1, 6),
        Point::new(1, 7),
        Point::new(2, 5),
        Point::new(2, 6),
        Point::new(2, 7),
    ];
    assert_eq!(pts, expected);
    assert!(rect(0, 0, 0, 5).points().is_empty());
    assert!(rect(0, 0, 5, -1).points().is_empty());
}

#[test]
fn extend_to_contain_reaches_the_point() {
    let r: Rectangle<usize> = Rectangle::new(Point::new(5, 5), Size::new(2, 2));
    let e = r.extend_to_contain(Point::new(10, 1));
    assert_eq!(e, Rectangle::new(Point::new(5, 1), Size::new(5, 6)));
    let e = r.extend_to_contain(Point::new(6, 6));
    assert_eq!(e, r);
    let e = r.extend_to_contain(Point::new(2, 3));
    assert_eq!(e, Rectangle::new(Point::new(2, 3), Size::new(5, 4)));
    let s = rect(0, 0, 1, 1).extend_to_contain(Point::new(-3, 4));
    assert_eq!(s, rect(-3, 0, 4, 4));
}

#[test]
fn from_points_keeps_its_corner_layout() {
    let r = Rectangle::from_points(Point::new(7, 2), Point::new(3, 9));
    assert_eq!(r.pos, Point::new(3, 7));
    assert_eq!(r.size, Size::new(4, 7));
}

#[test]
fn grayscale_is_the_mean_of_the_channels() {
    assert_eq!(Color::new(0, 0, 0).to_grayscale(), 0);
    assert_eq!(Color::new(255, 255, 255).to_grayscale(), 255);
    assert_eq!(Color::new(10, 20, 31).to_grayscale(), 20);
    assert_eq!(Color::new(255, 0, 0).to_grayscale(), 85);
}

#[test]
fn vector_addition() {
    let a = Vector2d::new(3, -4);
    assert_eq!(a.add(Vector2d::new(-1, 10)), Vector2d::new(2, 6));
    let mut b = Vector2d::new(1usize, 2usize);
    b.add_assign(Vector2d::new(4, 5));
    assert_eq!(b, Vector2d::new(5, 7));
}

#[test]
fn ignore_out_of_range_only_on_request() {
    let err: Result<(), DrawError> = Err(DrawError::PointOutArea(Point::new(1, 2)));
    assert_eq!(err.ignore_out_of_range(true), Ok(()));
    assert_eq!(err.ignore_out_of_range(false), err);
    let ok: Result<(), DrawError> = Ok(());
    assert_eq!(ok.ignore_out_of_range(false), Ok(()));
    assert_eq!(ok.ignore_out_of_range(true), Ok(()));
}

#[test]
fn color_as_text() {
    assert_eq!(Color::new(255, 0, 16).fmt(), b"#ff0010".to_vec());
    assert_eq!(Color::new(0, 0, 0).fmt(), b"#000000".to_vec());
}

#[test]
fn point_and_error_as_text() {
    assert_eq!(Point::new(12, -7).fmt(), b"(12, -7)".to_vec());
    assert_eq!(Point::new(0, i32::MIN).fmt(), b"(0, -2147483648)".to_vec());
    assert_eq!(
        DrawError::PointOutArea(Point::new(3, 4)).fmt(),
        b"invalid point: (3, 4)".to_vec()
    );
}

#[test]
fn conversions_from_wider_integers() {
    assert_eq!(Color::try_from((1, 2, 255)).unwrap(), Color::new(1, 2, 255));
    assert!(Color::try_from((1, 256, 3)).is_err());
    assert!(Color::try_from((-1, 0, 0)).is_err());
    assert_eq!(Vector2d::<i32>::try_from((640, 480)).unwrap(), Vector2d::new(640, 480));
    assert!(Vector2d::<i32>::try_from((1usize << 31, 0)).is_err());
}
