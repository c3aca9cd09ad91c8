use raytracer::lines::draw_line;

#[test]
fn single_point() {
    assert_eq!(draw_line(3, -4, 3, -4), vec![(3, -4)]);
}

#[test]
fn horizontal_and_vertical() {
    assert_eq!(draw_line(0, 0, 3, 0), vec![(0, 0), (1, 0), (2, 0), (3, 0)]);
    assert_eq!(draw_line(2, 5, 2, 2), vec![(2, 5), (2, 4), (2, 3), (2, 2)]);
}

#[test]
fn diagonal() {
    assert_eq!(draw_line(0, 0, -3, 3), vec![(0, 0), (-1, 1), (-2, 2), (-3, 3)]);
}

#[test]
fn shallow_line_rounds_halves_up() {
    assert_eq!(draw_line(0, 0, 4, 2), vec![(0, 0), (1, 1), (2, 1), (3, 2), (4, 2)]);
    assert_eq!(draw_line(0, 0, 4, 1), vec![(0, 0), (1, 0), (2, 1), (3, 1), (4, 1)]);
}

#[test]
fn steep_line() {
    assert_eq!(draw_line(0, 0, 1, 3), vec![(0, 0), (0, 1), (1, 2), (1, 3)]);
    assert_eq!(draw_line(5, 5, 3, 0), vec![(5, 5), (5, 4), (4, 3), (4, 2), (3, 1), (3, 0)]);
}

#[test]
fn line_is_connected_and_ends_at_endpoints() {
    let pts = draw_line(-7, 11, 13, -2);
    assert_eq!(pts.len(), 21);
    assert_eq!(pts[0], (-7, 11));
    assert_eq!(pts[pts.len() - 1], (13, -2));
    for w in pts.windows(2) {
        let (a, b) = (w[0], w[1]);
        assert!(a != b);
        assert!((a.0 - b.0).abs() <= 1 && (a.1 - b.1).abs() <= 1);
    }
}

#[test]
fn coordinates_near_the_integer_limits() {
    assert_eq!(
        draw_line(isize::MIN, isize::MAX, isize::MIN + 2, isize::MAX - 1),
        vec![(isize::MIN, isize::MAX), (isize::MIN + 1, isize::MAX - 1), (isize::MIN + 2, isize::MAX - 1)]
    );
}
