use advent_utils::grid::Grid;
use advent_utils::grid::GridError;
use advent_utils::point::Point;

#[test]
fn set_then_get_returns_the_written_value() {
    let mut g: Grid<char> = Grid::new_with_value(4, 3, '.');
    for y in 0..3 {
        for x in 0..4 {
            let p = Point::new(x, y);
            assert_eq!(g.set(p, 'x'), Ok(()));
            assert_eq!(g.get(p), Ok(&'x'));
        }
    }
}

#[test]
fn get_out_of_bounds_fails() {
    let g: Grid<char> = Grid::new_with_value(4, 3, '.');
    assert_eq!(g.get(Point::new(4, 0)), Err(GridError::OutOfBounds));
    assert_eq!(g.get(Point::new(0, 3)), Err(GridError::OutOfBounds));
    assert_eq!(g.get(Point::new(17, 90)), Err(GridError::OutOfBounds));
}

#[test]
fn set_out_of_bounds_fails_and_changes_nothing() {
    let mut g: Grid<u32> = Grid::new_with_value(2, 2, 7);
    assert_eq!(g.set(Point::new(2, 0), 9), Err(GridError::OutOfBounds));
    assert_eq!(g.set(Point::new(0, 2), 9), Err(GridError::OutOfBounds));
    for y in 0..2 {
        for x in 0..2 {
            assert_eq!(g.get(Point::new(x, y)), Ok(&7));
        }
    }
}

#[test]
fn new_fills_with_default() {
    let g: Grid<u32> = Grid::new(3, 2);
    assert_eq!(g.width, 3);
    assert_eq!(g.height, 2);
    for y in 0..2 {
        for x in 0..3 {
            assert_eq!(g.get(Point::new(x, y)), Ok(&0));
        }
    }
}

#[test]
fn new_with_value_fills_every_cell() {
    let g: Grid<char> = Grid::new_with_value(2, 5, 'z');
    for y in 0..5 {
        for x in 0..2 {
            assert_eq!(g.get(Point::new(x, y)), Ok(&'z'));
        }
    }
}

#[test]
fn corner_cell_has_two_orthogonal_neighbors() {
    let g: Grid<char> = Grid::new_with_value(4, 3, '.');
    let n = g.orthogonal_neighbors(Point::new(0, 0));
    assert_eq!(n, vec![Point::new(1, 0), Point::new(0, 1)]);
    let n = g.orthogonal_neighbors(Point::new(3, 2));
    assert_eq!(n, vec![Point::new(2, 2), Point::new(3, 1)]);
}

#[test]
fn interior_cell_has_four_orthogonal_neighbors() {
    let g: Grid<char> = Grid::new_with_value(4, 3, '.');
    let n = g.orthogonal_neighbors(Point::new(1, 1));
    assert_eq!(n, vec![
        Point::new(0, 1),
        Point::new(2, 1),
        Point::new(1, 0),
        Point::new(1, 2),
    ]);
}

#[test]
fn neighbors_is_orthogonal_then_diagonal() {
    let g: Grid<char> = Grid::new_with_value(4, 4, '.');
    for y in 0..4 {
        for x in 0..4 {
            let p = Point::new(x, y);
            let mut expected = g.orthogonal_neighbors(p);
            expected.extend(g.diagonal_neighbors(p));
            assert_eq!(g.neighbors(p), expected);
        }
    }
}

#[test]
fn diagonal_neighbors_of_a_corner() {
    let g: Grid<char> = Grid::new_with_value(3, 3, '.');
    assert_eq!(g.diagonal_neighbors(Point::new(0, 0)), vec![Point::new(1, 1)]);
    assert_eq!(g.diagonal_neighbors(Point::new(1, 1)), vec![
        Point::new(0, 0),
        Point::new(2, 0),
        Point::new(0, 2),
        Point::new(2, 2),
    ]);
}

#[test]
fn from_str_three_by_three() {
    let g = Grid::from_str("abc\ndef\nghi").unwrap();
    assert_eq!(g.width, 3);
    assert_eq!(g.height, 3);
    assert_eq!(g.get(Point::new(0, 0)), Ok(&'a'));
    assert_eq!(g.get(Point::new(2, 2)), Ok(&'i'));
    assert_eq!(g.get(Point::new(1, 2)), Ok(&'h'));
}

#[test]
fn from_str_skips_blank_lines_and_strips_carriage_returns() {
    let g = Grid::from_str("ab\r\n\r\ncd\n\n").unwrap();
    assert_eq!(g.width, 2);
    assert_eq!(g.height, 2);
    assert_eq!(g.get(Point::new(0, 1)), Ok(&'c'));
    assert_eq!(g.get(Point::new(1, 0)), Ok(&'b'));
}

#[test]
fn from_str_rejects_ragged_input() {
    assert_eq!(Grid::from_str("abc\nde\nfgh"), Err(GridError::MalformedInput));
}

#[test]
fn from_str_rejects_empty_input() {
    assert_eq!(Grid::from_str(""), Err(GridError::MalformedInput));
    assert_eq!(Grid::from_str("\n\n"), Err(GridError::MalformedInput));
}

#[test]
fn from_str_precomp_converts_each_character() {
    let g = Grid::from_str_precomp("12\n34", |c| c as u32 - '0' as u32).unwrap();
    assert_eq!(g.get(Point::new(0, 0)), Ok(&1));
    assert_eq!(g.get(Point::new(1, 0)), Ok(&2));
    assert_eq!(g.get(Point::new(0, 1)), Ok(&3));
    assert_eq!(g.get(Point::new(1, 1)), Ok(&4));
}

#[test]
fn replace_changes_matching_cells_only() {
    let mut g = Grid::from_str("ab\nba").unwrap();
    g.replace(|c: &char| *c == 'a', 'z');
    assert_eq!(g.get(Point::new(0, 0)), Ok(&'z'));
    assert_eq!(g.get(Point::new(1, 0)), Ok(&'b'));
    assert_eq!(g.get(Point::new(0, 1)), Ok(&'b'));
    assert_eq!(g.get(Point::new(1, 1)), Ok(&'z'));
    assert_eq!(g.values.len(), 4);
}

#[test]
fn replace_twice_is_idempotent() {
    let mut once = Grid::from_str("aba\nbab").unwrap();
    once.replace(|c: &char| *c == 'a', 'q');
    let mut twice = once.clone();
    twice.replace(|c: &char| *c == 'a', 'q');
    assert_eq!(once, twice);
}

#[test]
fn true_points_in_row_major_order() {
    let mut g: Grid<bool> = Grid::new_with_value(3, 2, false);
    g.set(Point::new(2, 0), true).unwrap();
    g.set(Point::new(0, 1), true).unwrap();
    g.set(Point::new(1, 1), true).unwrap();
    assert_eq!(g.true_points(), vec![
        Point::new(2, 0),
        Point::new(0, 1),
        Point::new(1, 1),
    ]);
}

#[test]
fn render_marks_true_cells() {
    let mut g: Grid<bool> = Grid::new_with_value(3, 2, false);
    g.set(Point::new(0, 0), true).unwrap();
    g.set(Point::new(2, 1), true).unwrap();
    let text: String = g.render().into_iter().collect();
    assert_eq!(text, "#..\n..#\n");
}

#[test]
fn from_rows_concatenates_rows() {
    let g = Grid::from_rows(vec![vec![1, 2], vec![3, 4], vec![5, 6]]).unwrap();
    assert_eq!(g.width, 2);
    assert_eq!(g.height, 3);
    assert_eq!(g.get(Point::new(1, 2)), Ok(&6));
}

#[test]
fn from_rows_rejects_ragged_or_empty_input() {
    assert_eq!(
        Grid::from_rows(vec![vec![1, 2], vec![3]]),
        Err(GridError::MalformedInput)
    );
    let no_rows: Vec<Vec<u8>> = Vec::new();
    assert_eq!(Grid::from_rows(no_rows), Err(GridError::MalformedInput));
}

#[test]
fn into_cells_yields_coordinates_row_major() {
    let g = Grid::from_str("ab\ncd").unwrap();
    let cells = g.into_cells();
    assert_eq!(cells, vec![
        (Point::new(0, 0), 'a'),
        (Point::new(1, 0), 'b'),
        (Point::new(0, 1), 'c'),
        (Point::new(1, 1), 'd'),
    ]);
}
