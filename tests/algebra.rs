use rusterizer::algebra::{check_orientation, matrix_slot, storage_slot, vector_index, vector_shape};
use rusterizer::err::{DimensionMismatchError, OutOfBoundError};

#[test]
fn shapes_of_rows_and_columns() {
    assert_eq!(vector_shape(3, false), [3, 1]);
    assert_eq!(vector_shape(4, true), [1, 4]);
}

#[test]
fn matching_orientations_combine() {
    assert_eq!(check_orientation(3, false, false), Ok(()));
    assert_eq!(check_orientation(4, true, true), Ok(()));
}

#[test]
fn mismatched_orientations_are_reported() {
    assert_eq!(
        check_orientation(3, true, false),
        Err(DimensionMismatchError::new([1, 3], [3, 1]))
    );
    assert_eq!(
        check_orientation(4, false, true),
        Err(DimensionMismatchError::new([4, 1], [1, 4]))
    );
}

#[test]
fn vector_index_bounds() {
    assert_eq!(vector_index(3, 2), Ok(2));
    assert_eq!(vector_index(3, 3), Err(OutOfBoundError::new([2, 0], [3, 0])));
    assert_eq!(vector_index(4, 3), Ok(3));
    assert_eq!(vector_index(4, 7), Err(OutOfBoundError::new([3, 0], [7, 0])));
}

#[test]
fn matrix_slot_follows_the_transposed_flag() {
    assert_eq!(matrix_slot(4, false, 1, 3), Ok((1, 3)));
    assert_eq!(matrix_slot(4, true, 1, 3), Ok((3, 1)));
    assert_eq!(storage_slot(true, 0, 2), (2, 0));
    assert_eq!(storage_slot(false, 0, 2), (0, 2));
}

#[test]
fn matrix_slot_out_of_bounds() {
    assert_eq!(matrix_slot(4, false, 4, 0), Err(OutOfBoundError::new([3, 3], [4, 0])));
    assert_eq!(matrix_slot(3, true, 0, 3), Err(OutOfBoundError::new([2, 2], [0, 3])));
}

#[test]
fn error_fields_are_kept() {
    let e = DimensionMismatchError::new([1, 3], [3, 1]);
    assert_eq!((e.expected_shape, e.got), ([1, 3], [3, 1]));
    let o = OutOfBoundError::new([2, 0], [5, 0]);
    assert_eq!((o.range, o.got), ([2, 0], [5, 0]));
}
