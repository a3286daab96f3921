use advent_utils::parsing::Parseable;

#[test]
fn to_matrix_converts_every_character() {
    let text = "12\n34";
    let rows: Vec<Vec<u32>> = text.to_matrix(|c| c.to_digit(10).ok_or(())).unwrap();
    assert_eq!(rows, vec![vec![1, 2], vec![3, 4]]);
}

#[test]
fn to_matrix_skips_blank_lines() {
    let text = "ab\n\ncd\n";
    let rows: Vec<Vec<char>> = text.to_matrix(|c| Ok::<char, ()>(c)).unwrap();
    assert_eq!(rows, vec![vec!['a', 'b'], vec!['c', 'd']]);
}

#[test]
fn to_matrix_propagates_the_conversion_error() {
    let text = "12\n3x";
    let r: Result<Vec<Vec<u32>>, String> =
        text.to_matrix(|c| c.to_digit(10).ok_or(format!("bad digit: {}", c)));
    assert_eq!(r, Err("bad digit: x".to_string()));
}

#[test]
fn to_vec_parses_each_line() {
    let text = "10\n20\n\n30\n";
    let out: Vec<i64> = text.to_vec(|l| l.parse::<i64>().map_err(|_| ())).unwrap();
    assert_eq!(out, vec![10, 20, 30]);
}

#[test]
fn to_vec_propagates_the_conversion_error() {
    let text = "10\nhello\n30";
    let r: Result<Vec<i64>, String> =
        text.to_vec(|l| l.parse::<i64>().map_err(|_| l.to_string()));
    assert_eq!(r, Err("hello".to_string()));
}

#[test]
fn to_vec_strips_carriage_returns() {
    let text = "1\r\n2\r\n";
    let out: Vec<i64> = text.to_vec(|l| l.parse::<i64>().map_err(|_| ())).unwrap();
    assert_eq!(out, vec![1, 2]);
}
