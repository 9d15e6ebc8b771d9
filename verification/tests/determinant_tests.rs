use cofactor::determinant::{determinant_expand_row, get_determinant, minor_extraction};
use cofactor::MatrixError;

#[test]
fn det_0x0_is_additive_identity() {
    // The documented convention: the empty determinant is 0, not 1.
    let m: Vec<Vec<i64>> = vec![];
    assert_eq!(get_determinant(&m), 0);
}

#[test]
fn det_1x1_single_element() {
    let m = vec![vec![5]];
    assert_eq!(get_determinant(&m), 5);
}

#[test]
fn det_2x2_closed_form() {
    let m = vec![vec![1, 2], vec![3, 4]];
    assert_eq!(get_determinant(&m), 1 * 4 - 2 * 3);
    assert_eq!(get_determinant(&m), -2);
}

#[test]
fn det_3x3_general_case() {
    let m = vec![vec![1, 2, 1], vec![0, 3, 4], vec![3, 1, 4]];
    assert_eq!(get_determinant(&m), 23);
}

#[test]
fn det_3x3_upper_triangular() {
    let m = vec![vec![1, 0, 3], vec![-1, -1, -3], vec![0, 0, 6]];
    assert_eq!(get_determinant(&m), -6);
}

#[test]
fn det_4x4_known_value() {
    // Laplace expansion through two recursion levels.
    let m = vec![
        vec![2, 0, 0, 0],
        vec![0, 3, 0, 0],
        vec![0, 0, 5, 0],
        vec![0, 0, 0, 7],
    ];
    assert_eq!(get_determinant(&m), 210);
}

#[test]
fn det_identical_rows_is_zero() {
    let m = vec![vec![1, 2, 3], vec![4, 5, 6], vec![1, 2, 3]];
    assert_eq!(get_determinant(&m), 0);
}

#[test]
fn det_identical_adjacent_rows_is_zero() {
    let m = vec![vec![1, 2], vec![1, 2]];
    assert_eq!(get_determinant(&m), 0);
    let m4 = vec![
        vec![3, 1, 4, 1],
        vec![5, 9, 2, 6],
        vec![5, 9, 2, 6],
        vec![8, 9, 7, 9],
    ];
    assert_eq!(get_determinant(&m4), 0);
}

#[test]
fn det_identity_is_one() {
    for n in 1..6usize {
        let id: Vec<Vec<i64>> = (0..n)
            .map(|i| (0..n).map(|j| if i == j { 1 } else { 0 }).collect())
            .collect();
        assert_eq!(get_determinant(&id), 1);
    }
}

#[test]
fn minor_extraction_deletes_row_and_column() {
    let m = vec![vec![1, 2, 3], vec![4, 5, 6], vec![7, 8, 9]];
    let sub = minor_extraction(&m, 1, 1).unwrap();
    assert_eq!(sub, vec![vec![1, 3], vec![7, 9]]);
    let top_left = minor_extraction(&m, 0, 0).unwrap();
    assert_eq!(top_left, vec![vec![5, 6], vec![8, 9]]);
    let corner = minor_extraction(&m, 2, 0).unwrap();
    assert_eq!(corner, vec![vec![2, 3], vec![5, 6]]);
}

#[test]
fn minor_extraction_of_1x1_is_empty() {
    let m = vec![vec![42]];
    let sub = minor_extraction(&m, 0, 0).unwrap();
    assert_eq!(sub.len(), 0);
}

#[test]
fn minor_extraction_out_of_bounds() {
    let m = vec![vec![1, 2], vec![3, 4]];
    assert_eq!(minor_extraction(&m, 2, 0).unwrap_err(), MatrixError::OutOfBounds);
    assert_eq!(minor_extraction(&m, 0, 5).unwrap_err(), MatrixError::OutOfBounds);
}

#[test]
fn expansion_of_small_sizes() {
    let one = vec![vec![5]];
    assert_eq!(determinant_expand_row(&one, 0), 5);
    let two = vec![vec![1, 2], vec![3, 4]];
    assert_eq!(determinant_expand_row(&two, 0), -2);
    assert_eq!(determinant_expand_row(&two, 1), -2);
}

#[test]
fn det_of_transpose_agrees() {
    let m = vec![vec![2, -1, 0], vec![1, 4, -2], vec![0, 7, 6]];
    let t: Vec<Vec<i64>> = (0..3).map(|i| (0..3).map(|j| m[j][i]).collect()).collect();
    assert_eq!(get_determinant(&t), get_determinant(&m));
}

#[test]
fn expansion_along_any_row_agrees() {
    // Cofactor-expansion invariance, sampled: every row gives the value
    // that expansion along row 0 gives.
    let m = vec![vec![1, 2, 1], vec![0, 3, 4], vec![3, 1, 4]];
    let d = get_determinant(&m);
    for r in 0..3usize {
        assert_eq!(determinant_expand_row(&m, r), d);
    }
    let t = vec![
        vec![2, -1, 0, 3],
        vec![1, 4, -2, 5],
        vec![0, 7, 6, -3],
        vec![-4, 2, 1, 8],
    ];
    let dt = get_determinant(&t);
    for r in 0..4usize {
        assert_eq!(determinant_expand_row(&t, r), dt);
    }
}
