use vstd::prelude::*;

verus! {

/// Two vectors or matrices were combined whose orientations do not agree.
#[derive(Copy, Clone, Debug, PartialEq, Eq)]
pub struct DimensionMismatchError {
    pub expected_shape: [usize; 2],
    pub got: [usize; 2],
}

impl DimensionMismatchError {
    pub fn new(expected_shape: [usize; 2], got: [usize; 2]) -> (r: Self)
        ensures
            r.expected_shape == expected_shape,
            r.got == got,
    {
        DimensionMismatchError { expected_shape, got }
    }
}

/// An index fell outside a fixed-size vector or matrix; `range` holds the
/// largest valid index of each axis and `got` the offending one.
#[derive(Copy, Clone, Debug, PartialEq, Eq)]
pub struct OutOfBoundError {
    pub range: [usize; 2],
    pub got: [usize; 2],
}

impl OutOfBoundError {
    pub fn new(range: [usize; 2], got: [usize; 2]) -> (r: Self)
        ensures
            r.range == range,
            r.got == got,
    {
        OutOfBoundError { range, got }
    }
}

} // verus!
