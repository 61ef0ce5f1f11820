//! What the operations read of matrices and arrays.

use vstd::prelude::*;

verus! {

/// A data matrix of the C library.
#[derive(Clone, Copy, Debug, PartialEq, Eq, Structural)]
pub struct DMatrix {
    /// The C library's handle.
    pub handle: usize,
    /// The number of rows.
    pub num_rows: usize,
    /// The number of columns, 0 where it is unknown.
    pub num_cols: usize,
}

/// An array in memory: where it begins, and the number of its elements.
#[derive(Clone, Copy, Debug, PartialEq, Eq, Structural)]
pub struct ArrayRef {
    pub addr: usize,
    pub len: usize,
}

} // verus!
