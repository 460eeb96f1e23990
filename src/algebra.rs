use vstd::prelude::*;

use crate::err::{DimensionMismatchError, OutOfBoundError};

verus! {

/// Matrix times vector.
pub trait MatVecDot<Rhs> {
    fn mat_vec_dot(&self, rhs: &Rhs) -> Rhs;
}

/// Element-wise product.
pub trait Product<Rhs = Self> {
    fn product(&self, rhs: &Rhs) -> Rhs;

    fn product_(&mut self, rhs: &Rhs);
}

/// Right-handed cross product.
pub trait Cross<Rhs = Self> {
    fn cross(&self, other: &Rhs) -> Rhs;
}

/// Addition: `add` checks orientations, `add_` adds in place and `_add`
/// assumes that the caller has checked them.
pub trait Add<Output = Self> {
    fn add(&self, other: &Output) -> Result<Output, DimensionMismatchError>;

    fn add_(&mut self, other: &Output);

    fn _add(&self, other: &Output) -> Output;
}

/// Subtraction, in the same three forms as `Add`.
pub trait Minus<Rhs = Self> {
    fn minus(&self, right: &Rhs) -> Result<Rhs, DimensionMismatchError>;

    fn minus_(&mut self, right: &Rhs);

    fn _minus(&self, right: &Rhs) -> Rhs;
}

/// Transposition, by flipping the orientation flag.
pub trait Transpose<Output = Self> {
    fn transpose(&self) -> Output;

    fn transpose_(&mut self);
}

/// Scaling to unit length. The zero vector has no direction: callers keep it out.
pub trait Normalize<Output = Self> {
    fn normalize(&self) -> Output;

    fn normalize_(&mut self);
}

/// Matrix inverse. No general inverse is offered: an implementation fails
/// loudly rather than return a wrong matrix.
pub trait Inverse<Output = Self> {
    fn inverse(&self) -> Output;
}

/// The apparent shape of a vector of `size` components: a row `[1, size]`
/// when transposed, a column `[size, 1]` otherwise.
pub open spec fn shape_of(size: usize, transposed: bool) -> Seq<usize> {
    if transposed {
        seq![1usize, size]
    } else {
        seq![size, 1usize]
    }
}

pub fn vector_shape(size: usize, transposed: bool) -> (r: [usize; 2])
    ensures
        r@ == shape_of(size, transposed),
{
    let r = if transposed {
        [1, size]
    } else {
        [size, 1]
    };
    assert(r@ =~= shape_of(size, transposed));
    r
}

/// The check behind element-wise addition and subtraction of two vectors of
/// `size` components: they must agree in orientation. The error carries the
/// left operand's shape as the expected one and the right operand's as got.
pub fn check_orientation(size: usize, left_transposed: bool, right_transposed: bool) -> (r: Result<
    (),
    DimensionMismatchError,
>)
    ensures
        r.is_ok() <==> left_transposed == right_transposed,
        r matches Err(e) ==> e.expected_shape@ == shape_of(size, left_transposed) && e.got@
            == shape_of(size, right_transposed),
{
    if left_transposed != right_transposed {
        Err(
            DimensionMismatchError::new(
                vector_shape(size, left_transposed),
                vector_shape(size, right_transposed),
            ),
        )
    } else {
        Ok(())
    }
}

/// A checked component index of a vector of `size` components. The error
/// carries `[size - 1, 0]` as the range and `[index, 0]` as got.
pub fn vector_index(size: usize, index: usize) -> (r: Result<usize, OutOfBoundError>)
    requires
        size >= 1,
    ensures
        r is Ok <==> index < size,
        r matches Ok(k) ==> k == index,
        r matches Err(e) ==> e.range@ == seq![(size - 1) as usize, 0usize] && e.got@ == seq![
            index,
            0usize,
        ],
{
    if index >= size {
        let e = OutOfBoundError::new([size - 1, 0], [index, 0]);
        assert(e.range@ =~= seq![(size - 1) as usize, 0usize]);
        assert(e.got@ =~= seq![index, 0usize]);
        Err(e)
    } else {
        Ok(index)
    }
}

/// Where entry (`row`, `col`) of a `size` x `size` matrix lives in its
/// backing array: `data[row][col]`, or `data[col][row]` when the matrix is
/// flagged as transposed.
pub open spec fn slot_of(transposed: bool, row: usize, col: usize) -> (usize, usize) {
    if transposed {
        (col, row)
    } else {
        (row, col)
    }
}

/// The storage slot of an entry, for indices already known to be in range.
pub fn storage_slot(transposed: bool, row: usize, col: usize) -> (r: (usize, usize))
    ensures
        r == slot_of(transposed, row, col),
{
    if transposed {
        (col, row)
    } else {
        (row, col)
    }
}

/// A checked storage slot of entry (`row`, `col`) of a `size` x `size`
/// matrix. The error carries `[size - 1, size - 1]` as the range and
/// `[row, col]` as got.
pub fn matrix_slot(size: usize, transposed: bool, row: usize, col: usize) -> (r: Result<
    (usize, usize),
    OutOfBoundError,
>)
    requires
        size >= 1,
    ensures
        r is Ok <==> row < size && col < size,
        r matches Ok(s) ==> s == slot_of(transposed, row, col),
        r matches Err(e) ==> e.range@ == seq![(size - 1) as usize, (size - 1) as usize] && e.got@
            == seq![row, col],
{
    if row >= size || col >= size {
        let e = OutOfBoundError::new([size - 1, size - 1], [row, col]);
        assert(e.range@ =~= seq![(size - 1) as usize, (size - 1) as usize]);
        assert(e.got@ =~= seq![row, col]);
        Err(e)
    } else {
        Ok(storage_slot(transposed, row, col))
    }
}

/// Transposing by flipping the flag reads every entry at its mirror: entry
/// (row, col) of the flipped matrix lives where entry (col, row) of the
/// original does.
pub proof fn lemma_flag_flip_transposes(transposed: bool, row: usize, col: usize)
    ensures
        slot_of(!transposed, row, col) == slot_of(transposed, col, row),
{
}

} // verus!
