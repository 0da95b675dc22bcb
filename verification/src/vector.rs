//! Column vectors: tensors of one column.

use crate::tensor::{Tensor, TensorTypeNumeric};
use vstd::prelude::*;

pub mod vector_core;

verus! {

/// A column vector: a tensor of `n` rows and one column that owns its
/// buffer.
#[derive(Debug)]
pub struct Vector<'a, U> {
    tensor: Tensor<'a, U>,
}

impl<'a, U> Vector<'a, U> where U: TensorTypeNumeric {
    /// The tensor that holds the vector.
    pub closed spec fn spec_tensor(&self) -> Tensor<'a, U> {
        self.tensor
    }

    /// The invariant of the vector: that of its tensor.
    pub open spec fn wf(&self) -> bool {
        self.spec_tensor().wf()
    }
}

} // verus!
