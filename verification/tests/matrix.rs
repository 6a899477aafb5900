use lcs_diff::matrix::{Matrix, MatrixError};

#[test]
fn create_matrix_ok() {
    let vector_init = vec![0; 9];
    let matrix = Matrix::new(3, 3);
    assert_eq!(matrix.vector, vector_init)
}

#[test]
fn set_value_matrix_ok() {
    let mut matrix = Matrix::new(3, 3);
    assert_eq!(Ok(()), matrix.set_element(0, 0, 5))
}

#[test]
fn set_value_matrix_err() {
    let mut matrix = Matrix::new(2, 2);
    assert_eq!(Err(MatrixError::OutOfIndex), matrix.set_element(3, 3, 5))
}

#[test]
fn get_value_matrix_error_ok() {
    let mut matrix = Matrix::new(3, 3);
    let res = matrix.set_element(0, 0, 5);
    assert_eq!(Ok(()), res);
    assert_eq!(matrix.get_element(0, 0), Ok(5))
}

#[test]
fn get_value_matrix_error() {
    let matrix = Matrix::new(2, 2);
    assert_eq!(matrix.get_element(5, 5), Err(MatrixError::OutOfIndex))
}

#[test]
fn empty_matrix_has_no_cells() {
    let mut by_rows = Matrix::new(0, 4);
    assert!(by_rows.vector.is_empty());
    assert_eq!(by_rows.get_element(0, 0), Err(MatrixError::OutOfIndex));
    assert_eq!(by_rows.set_element(0, 0, 1), Err(MatrixError::OutOfIndex));
    let by_cols = Matrix::new(4, 0);
    assert!(by_cols.vector.is_empty());
    assert_eq!(by_cols.get_element(0, 0), Err(MatrixError::OutOfIndex));
}

#[test]
fn set_then_get_round_trip_everywhere() {
    let mut matrix = Matrix::new(3, 4);
    let mut value: u32 = 1;
    for row in 0..3 {
        for col in 0..4 {
            assert_eq!(matrix.set_element(row, col, value), Ok(()));
            assert_eq!(matrix.get_element(row, col), Ok(value));
            value += 1;
        }
    }
    assert_eq!(matrix.vector, vec![1, 2, 3, 4, 5, 6, 7, 8, 9, 10, 11, 12]);
}

#[test]
fn set_stores_row_by_row() {
    let mut matrix = Matrix::new(2, 3);
    assert_eq!(matrix.set_element(1, 2, 7), Ok(()));
    assert_eq!(matrix.set_element(0, 1, 9), Ok(()));
    assert_eq!(matrix.vector, vec![0, 9, 0, 0, 0, 7]);
    assert_eq!(matrix.get_element(1, 2), Ok(7));
    assert_eq!(matrix.get_element(0, 1), Ok(9));
    assert_eq!(matrix.get_element(1, 1), Ok(0));
}

#[test]
fn access_at_the_dimension_fails() {
    let mut matrix = Matrix::new(2, 3);
    assert_eq!(matrix.get_element(2, 0), Err(MatrixError::OutOfIndex));
    assert_eq!(matrix.get_element(0, 3), Err(MatrixError::OutOfIndex));
    assert_eq!(matrix.get_element(2, 3), Err(MatrixError::OutOfIndex));
    assert_eq!(matrix.set_element(2, 0, 1), Err(MatrixError::OutOfIndex));
    assert_eq!(matrix.set_element(0, 3, 1), Err(MatrixError::OutOfIndex));
    assert_eq!(matrix.vector, vec![0; 6]);
}

#[test]
fn pos_valid_tells_inside_from_outside() {
    let matrix = Matrix::new(2, 3);
    assert!(matrix.pos_valid(0, 0));
    assert!(matrix.pos_valid(1, 2));
    assert!(!matrix.pos_valid(2, 2));
    assert!(!matrix.pos_valid(1, 3));
}

#[test]
fn matrix_error_description() {
    assert_eq!(
        MatrixError::OutOfIndex.description(),
        "La posicion ingresada esta fuera de rango"
    );
}

#[test]
fn new_matrix_keeps_its_dimensions() {
    let matrix = Matrix::new(2, 5);
    assert_eq!(matrix.fil, 2);
    assert_eq!(matrix.col, 5);
    assert_eq!(matrix.vector, vec![0; 10]);
}
