use cofactor::matrix::Matrix;
use cofactor::MatrixError;

fn mk(rows: usize, cols: usize, data: Vec<Vec<i64>>) -> Matrix {
    Matrix::new(rows, cols, data).unwrap()
}

#[test]
fn new_accepts_matching_shape() {
    let m = mk(2, 3, vec![vec![1, 2, 3], vec![4, 5, 6]]);
    assert_eq!(m.rows(), 2);
    assert_eq!(m.cols(), 3);
    assert_eq!(m.get(0, 0).unwrap(), 1);
    assert_eq!(m.get(1, 2).unwrap(), 6);
}

#[test]
fn new_rejects_wrong_shape() {
    assert_eq!(
        Matrix::new(2, 2, vec![vec![1, 2], vec![3, 4], vec![5, 6]]).unwrap_err(),
        MatrixError::ShapeMismatch
    );
    assert_eq!(
        Matrix::new(2, 2, vec![vec![1, 2], vec![3]]).unwrap_err(),
        MatrixError::ShapeMismatch
    );
}

#[test]
fn empty_is_all_zero() {
    let m = Matrix::empty(3, 2);
    assert_eq!(m.rows(), 3);
    assert_eq!(m.cols(), 2);
    for i in 0..3 {
        for j in 0..2 {
            assert_eq!(m.get(i, j).unwrap(), 0);
        }
    }
}

#[test]
fn get_out_of_bounds_fails() {
    let m = mk(2, 3, vec![vec![1, 2, 3], vec![4, 5, 6]]);
    assert_eq!(m.get(2, 0).unwrap_err(), MatrixError::OutOfBounds);
    assert_eq!(m.get(0, 3).unwrap_err(), MatrixError::OutOfBounds);
    assert_eq!(m.get(9, 9).unwrap_err(), MatrixError::OutOfBounds);
}

#[test]
fn set_writes_one_cell() {
    let mut m = mk(3, 2, vec![vec![10, 5], vec![20, 6], vec![30, 7]]);
    m.set(0, 0, 100).unwrap();
    assert_eq!(m.get(0, 0).unwrap(), 100);
    assert_eq!(m.get(0, 1).unwrap(), 5);
    assert_eq!(m.get(1, 0).unwrap(), 20);
}

#[test]
fn set_out_of_bounds_fails_and_changes_nothing() {
    let mut m = mk(2, 2, vec![vec![1, 2], vec![3, 4]]);
    assert_eq!(m.set(2, 0, 9).unwrap_err(), MatrixError::OutOfBounds);
    assert_eq!(m.set(0, 2, 9).unwrap_err(), MatrixError::OutOfBounds);
    assert_eq!(m.get(0, 0).unwrap(), 1);
    assert_eq!(m.get(1, 1).unwrap(), 4);
}

#[test]
fn add_elementwise() {
    let b = mk(3, 2, vec![vec![10, 5], vec![20, 6], vec![30, 7]]);
    let b2 = mk(3, 2, vec![vec![10, 5], vec![20, 6], vec![30, 7]]);
    let sum = b.add(&b2).unwrap();
    assert_eq!(sum, mk(3, 2, vec![vec![20, 10], vec![40, 12], vec![60, 14]]));
}

#[test]
fn sub_elementwise() {
    let b = mk(3, 2, vec![vec![10, 5], vec![20, 6], vec![30, 7]]);
    let b2 = mk(3, 2, vec![vec![10, 5], vec![20, 6], vec![30, 7]]);
    let diff = b.sub(&b2).unwrap();
    assert_eq!(diff, Matrix::empty(3, 2));
}

#[test]
fn add_shape_mismatch_fails() {
    let a = mk(2, 3, vec![vec![1, 2, 3], vec![4, 5, 6]]);
    let b = mk(3, 2, vec![vec![10, 5], vec![20, 6], vec![30, 7]]);
    assert_eq!(a.add(&b).unwrap_err(), MatrixError::ShapeMismatch);
    assert_eq!(a.sub(&b).unwrap_err(), MatrixError::ShapeMismatch);
}

#[test]
fn add_then_sub_round_trips() {
    let a = mk(2, 2, vec![vec![1, -7], vec![0, 12]]);
    let b = mk(2, 2, vec![vec![5, 5], vec![-3, 2]]);
    let back = a.add(&b).unwrap().sub(&b).unwrap();
    assert_eq!(back, a);
}

#[test]
fn scale_by_scalar() {
    let b = mk(3, 2, vec![vec![10, 5], vec![20, 6], vec![30, 7]]);
    let s = b.scale(20);
    assert_eq!(s, mk(3, 2, vec![vec![200, 100], vec![400, 120], vec![600, 140]]));
}

#[test]
fn multiply_known_product() {
    let a = mk(2, 3, vec![vec![1, 2, 3], vec![4, 5, 6]]);
    let b = mk(3, 2, vec![vec![10, 5], vec![20, 6], vec![30, 7]]);
    let p = a.multiply(&b).unwrap();
    assert_eq!(p, mk(2, 2, vec![vec![140, 38], vec![320, 92]]));
}

#[test]
fn multiply_inner_dimension_mismatch_fails() {
    let a = mk(2, 3, vec![vec![1, 2, 3], vec![4, 5, 6]]);
    let c = mk(2, 2, vec![vec![1, 0], vec![0, 1]]);
    assert_eq!(a.multiply(&c).unwrap_err(), MatrixError::ShapeMismatch);
}

#[test]
fn multiply_is_associative_sampled() {
    let a = mk(2, 3, vec![vec![1, 2, 3], vec![4, 5, 6]]);
    let b = mk(3, 2, vec![vec![10, 5], vec![20, 6], vec![30, 7]]);
    let c = mk(2, 2, vec![vec![2, -1], vec![3, 4]]);
    let left = a.multiply(&b).unwrap().multiply(&c).unwrap();
    let right = a.multiply(&b.multiply(&c).unwrap()).unwrap();
    assert_eq!(left, right);
}

#[test]
fn determinant_of_square_matrix() {
    let e = mk(3, 3, vec![vec![1, 2, 1], vec![0, 3, 4], vec![3, 1, 4]]);
    assert_eq!(e.determinant().unwrap(), 23);
    let f = mk(3, 3, vec![vec![1, 0, 3], vec![-1, -1, -3], vec![0, 0, 6]]);
    assert_eq!(f.determinant().unwrap(), -6);
}

#[test]
fn determinant_of_empty_square_matrix_is_zero() {
    let n = Matrix::empty(10, 10);
    assert_eq!(n.determinant().unwrap(), 0);
}

#[test]
fn determinant_not_square_fails() {
    let a = mk(2, 3, vec![vec![1, 2, 3], vec![4, 5, 6]]);
    assert_eq!(a.determinant().unwrap_err(), MatrixError::NotSquare);
}

#[test]
fn backing_grid_matches_contents() {
    let a = mk(2, 2, vec![vec![1, 2], vec![3, 4]]);
    assert_eq!(a.matrix(), &vec![vec![1, 2], vec![3, 4]]);
}
