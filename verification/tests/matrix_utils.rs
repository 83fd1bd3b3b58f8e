use linkstream_core::EmptyInputError;
use linkstream_core::Matrix;

#[test]
fn vector_max_finds_the_greatest_cell() {
    let v: Vec<u64> = vec![3, 9, 2];
    assert_eq!(v.matrix_max(), Ok(9));
}

#[test]
fn vector_max_of_empty_input_fails() {
    let v: Vec<u64> = Vec::new();
    assert_eq!(v.matrix_max(), Err(EmptyInputError));
}

#[test]
fn matrix_max_scans_all_rows() {
    let m: Vec<Vec<u64>> = vec![vec![1, 5], vec![7, 2]];
    assert_eq!(m.matrix_max(), Ok(7));
    let all_zero: Vec<Vec<u64>> = vec![vec![0, 0], vec![0, 0]];
    assert_eq!(all_zero.matrix_max(), Ok(0));
}

#[test]
fn matrix_max_of_empty_input_fails() {
    let no_rows: Vec<Vec<u64>> = Vec::new();
    assert_eq!(no_rows.matrix_max(), Err(EmptyInputError));
    let empty_rows: Vec<Vec<u64>> = vec![Vec::new(), Vec::new()];
    assert_eq!(empty_rows.matrix_max(), Err(EmptyInputError));
}

#[test]
fn vector_map_transforms_each_cell() {
    let v: Vec<u64> = vec![1, 2, 3];
    assert_eq!(v.matrix_map(|x| x * 2), vec![2, 4, 6]);
}

#[test]
fn matrix_map_keeps_the_shape() {
    let m: Vec<Vec<u64>> = vec![vec![1, 2, 3], vec![4, 5, 6]];
    assert_eq!(m.matrix_map(|x| x + 1), vec![vec![2, 3, 4], vec![5, 6, 7]]);
    let ragged: Vec<Vec<u64>> = vec![vec![1], Vec::new(), vec![2, 3]];
    assert_eq!(ragged.matrix_map(|x| x), vec![vec![1], Vec::new(), vec![2, 3]]);
}

#[test]
fn vector_sum_one_level_totals_the_cells() {
    let v: Vec<u64> = vec![1, 2, 3];
    assert_eq!(v.sum_one_level(), 6);
    let empty: Vec<u64> = Vec::new();
    assert_eq!(empty.sum_one_level(), 0);
}

#[test]
fn matrix_sum_one_level_gives_row_sums() {
    let m: Vec<Vec<u64>> = vec![vec![1, 2], vec![3, 4], vec![0, 0]];
    assert_eq!(m.sum_one_level(), vec![3, 7, 0]);
}

#[test]
fn normalization_convention_detects_no_activity() {
    // An all-zero matrix must be flagged empty instead of divided by zero.
    let all_zero: Vec<Vec<u64>> = vec![vec![0, 0], vec![0, 0]];
    let max = all_zero.matrix_max().unwrap();
    assert_eq!(max, 0);
    let is_empty = max == 0;
    assert!(is_empty);
}
