use advent_utils::matrix::Matrix;

fn sample() -> Matrix<u32> {
    Matrix { width: 3, height: 2, values: vec![1, 2, 3, 4, 5, 6] }
}

#[test]
fn matrix_get_reads_row_major() {
    let m = sample();
    assert_eq!(*m.get(0, 0), 1);
    assert_eq!(*m.get(2, 0), 3);
    assert_eq!(*m.get(0, 1), 4);
    assert_eq!(*m.get(2, 1), 6);
}

#[test]
fn matrix_set_overwrites_one_cell() {
    let mut m = sample();
    m.set((1, 1), 50);
    assert_eq!(*m.get(1, 1), 50);
    assert_eq!(*m.get(0, 1), 4);
    assert_eq!(*m.get(1, 0), 2);
}

#[test]
fn matrix_orthogonal_neighbors_filtered_to_bounds() {
    let m = sample();
    assert_eq!(m.orthogonal_neighbors((0, 0)), vec![(1, 0), (0, 1)]);
    assert_eq!(m.orthogonal_neighbors((1, 0)), vec![(0, 0), (2, 0), (1, 1)]);
}

#[test]
fn matrix_diagonal_neighbors_filtered_to_bounds() {
    let m = sample();
    assert_eq!(m.diagonal_neighbors((0, 0)), vec![(1, 1)]);
    assert_eq!(m.diagonal_neighbors((1, 0)), vec![(0, 1), (2, 1)]);
}

#[test]
fn matrix_neighbors_concatenates_both_kinds() {
    let m = sample();
    let mut expected = m.orthogonal_neighbors((1, 1));
    expected.extend(m.diagonal_neighbors((1, 1)));
    assert_eq!(m.neighbors((1, 1)), expected);
}
