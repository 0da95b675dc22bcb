//! Matrices: tensors with the vocabulary of rows and columns.

use crate::tensor::{Tensor, TensorTypeNumeric};
use vstd::prelude::*;

pub mod matrix_core;
pub mod matrix_linalg;

verus! {

/// A matrix: a tensor that owns its buffer, addressed by rows and columns.
#[derive(Debug)]
pub struct Matrix<'a, U> {
    tensor: Tensor<'a, U>,
}

impl<'a, U> Matrix<'a, U> where U: TensorTypeNumeric {
    /// The tensor that holds the matrix.
    pub closed spec fn spec_tensor(&self) -> Tensor<'a, U> {
        self.tensor
    }

    /// The invariant of the matrix: that of its tensor.
    pub open spec fn wf(&self) -> bool {
        self.spec_tensor().wf()
    }
}

} // verus!
