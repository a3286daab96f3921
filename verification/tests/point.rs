use advent_utils::point::Point;

#[test]
fn new_sets_both_coordinates() {
    let p = Point::new(3, 7);
    assert_eq!(p.x, 3);
    assert_eq!(p.y, 7);
}

#[test]
fn manhattan_distance_origin_to_3_4_is_7() {
    let a = Point::new(0, 0);
    let b = Point::new(3, 4);
    assert_eq!(a.manhattan_distance(&b), 7);
    assert_eq!(b.manhattan_distance(&a), 7);
}

#[test]
fn manhattan_distance_same_point_is_zero() {
    let a = Point::new(11, 4);
    assert_eq!(a.manhattan_distance(&a), 0);
}

#[test]
fn orthogonal_neighbors_order_left_right_up_down() {
    let p = Point::new(5, 9);
    let n = p.orthogonal_neighbors();
    assert_eq!(n, vec![
        Point::new(4, 9),
        Point::new(6, 9),
        Point::new(5, 8),
        Point::new(5, 10),
    ]);
}

#[test]
fn diagonal_neighbors_order() {
    let p = Point::new(5, 9);
    let n = p.diagonal_neighbors();
    assert_eq!(n, vec![
        Point::new(4, 8),
        Point::new(6, 8),
        Point::new(4, 10),
        Point::new(6, 10),
    ]);
}

#[test]
fn neighbors_are_orthogonal_then_diagonal() {
    let p = Point::new(2, 2);
    let mut expected = p.orthogonal_neighbors();
    expected.extend(p.diagonal_neighbors());
    assert_eq!(p.neighbors(), expected);
    assert_eq!(p.neighbors().len(), 8);
}

#[test]
fn neighbors_at_origin_wrap_below_zero() {
    let p = Point::new(0, 0);
    let n = p.orthogonal_neighbors();
    assert_eq!(n[0], Point::new(usize::MAX, 0));
    assert_eq!(n[2], Point::new(0, usize::MAX));
}

#[test]
fn line_fills_rectangle_x_major() {
    let points = Point::line(Point::new(0, 0), Point::new(2, 1));
    assert_eq!(points, vec![
        Point::new(0, 0),
        Point::new(0, 1),
        Point::new(1, 0),
        Point::new(1, 1),
        Point::new(2, 0),
        Point::new(2, 1),
    ]);
}

#[test]
fn line_walks_from_first_corner_toward_second() {
    let points = Point::line(Point::new(2, 3), Point::new(1, 1));
    assert_eq!(points, vec![
        Point::new(2, 3),
        Point::new(2, 2),
        Point::new(2, 1),
        Point::new(1, 3),
        Point::new(1, 2),
        Point::new(1, 1),
    ]);
}

#[test]
fn line_of_a_single_point() {
    assert_eq!(Point::line(Point::new(4, 4), Point::new(4, 4)), vec![Point::new(4, 4)]);
}
