//! Construction of column vectors and access to their elements.

use crate::tensor::{Error, Tensor, TensorEq, TensorTypeNumeric};
use crate::tensor::tensor_core::IndexFailure;
use crate::tensor::tensor_layout::{shape_size, tail_size};
use super::Vector;
use vstd::prelude::*;
use vstd::std_specs::cmp::PartialEqSpecImpl;

verus! {

/// A column of `n` rows holds `n` elements.
proof fn lemma_column_size(n: usize)
    ensures
        shape_size(seq![n, 1usize]) == n,
{
    let shape = seq![n, 1usize];
    assert(tail_size(shape, 2) == 1);
    assert(tail_size(shape, 1) == 1 * 1);
    assert(shape_size(shape) == n * (1 * 1));
}

impl<'a, U> Vector<'a, U> where U: TensorTypeNumeric {
    /// A column of `nelems` zeros.
    pub fn from_zeros(nelems: usize) -> (r: Result<Vector<'a, U>, Error>)
        ensures
            r is Ok,
            r->Ok_0.spec_tensor().spec_shape() == seq![nelems, 1usize],
            r->Ok_0.spec_tensor().is_dense(),
            r->Ok_0.wf(),
            forall|i: int|
                0 <= i < r->Ok_0.spec_tensor().spec_data().len() ==> (
                #[trigger] r->Ok_0.spec_tensor().spec_data()[i]).val() == 0,
    {
        let shape = vec![nelems, 1];
        proof {
            lemma_column_size(nelems);
        }
        let vector = Tensor::from_zeros(shape.as_slice())?;
        Ok(Vector { tensor: vector })
    }

    /// The column of the elements of `data`.
    pub fn from_vec(data: Vec<U>) -> (r: Result<Vector<'a, U>, Error>)
        ensures
            r is Ok,
            r->Ok_0.spec_tensor().spec_shape() == seq![data@.len() as usize, 1usize],
            r->Ok_0.spec_tensor().spec_data() == data@,
            r->Ok_0.spec_tensor().is_dense(),
            r->Ok_0.wf(),
    {
        let shape = vec![data.len(), 1];
        proof {
            lemma_column_size(data.len());
        }
        let vector = Tensor::from_shape(shape.as_slice(), &data)?;
        Ok(Vector { tensor: vector })
    }

    /// The column of the elements of the array `data`.
    pub fn from_arr<const N: usize>(data: &[U; N]) -> (r: Result<Vector<'a, U>, Error>)
        ensures
            r is Ok,
            r->Ok_0.spec_tensor().spec_shape() == seq![N, 1usize],
            r->Ok_0.spec_tensor().spec_data() == data@,
            r->Ok_0.spec_tensor().is_dense(),
            r->Ok_0.wf(),
    {
        let mut copy: Vec<U> = Vec::with_capacity(N);
        let mut i: usize = 0;
        while i < N
            invariant
                i <= N,
                copy@.len() == i,
                forall|k: int| 0 <= k < i ==> copy@[k] == data@[k],
            decreases N - i,
        {
            copy.push(data[i]);
            i += 1;
        }
        assert(copy@ =~= data@);
        let shape = vec![N, 1];
        proof {
            lemma_column_size(N);
        }
        let vector = Tensor::from_shape(shape.as_slice(), &copy)?;
        Ok(Vector { tensor: vector })
    }

    /// The element in row `index`. Fails with `IndexOutOfRange` when the
    /// row leads outside the buffer.
    #[inline(always)]
    pub fn get(&self, index: usize) -> (r: Result<U, Error>)
        ensures
            match self.spec_tensor().getval_spec(seq![index, 0usize]) {
                Ok(v) => r == Ok::<U, Error>(v),
                Err(IndexFailure::Rank) => r is Err && r->Err_0.is_shape_mismatch(
                    seq![index, 0usize],
                    self.spec_tensor().spec_shape(),
                ),
                Err(IndexFailure::Range) => r is Err && r->Err_0.is_index_out_of_range(
                    self.spec_tensor().failing_position(seq![index, 0usize]),
                    self.spec_tensor().spec_data().len() as usize,
                ),
            },
    {
        let at = vec![index, 0];
        self.tensor.getval(at.as_slice())
    }

    /// Writes `val` to row `index`. Fails as `get` does, and then leaves
    /// the vector as it is.
    #[inline(always)]
    pub fn set(&mut self, index: usize, val: U) -> (r: Result<bool, Error>)
        ensures
            final(self).spec_tensor().layout() == old(self).spec_tensor().layout(),
            old(self).wf() ==> final(self).wf(),
            match old(self).spec_tensor().getval_spec(seq![index, 0usize]) {
                Ok(v) => r == Ok::<bool, Error>(true) && final(self).spec_tensor().spec_data()
                    == old(self).spec_tensor().spec_data().update(
                    old(self).spec_tensor().flat_position(seq![index, 0usize]),
                    val,
                ),
                Err(IndexFailure::Rank) => r is Err && r->Err_0.is_shape_mismatch(
                    seq![index, 0usize],
                    old(self).spec_tensor().spec_shape(),
                ) && final(self).spec_tensor().spec_data() == old(
                    self,
                ).spec_tensor().spec_data(),
                Err(IndexFailure::Range) => r is Err && r->Err_0.is_index_out_of_range(
                    old(self).spec_tensor().failing_position(seq![index, 0usize]),
                    old(self).spec_tensor().spec_data().len() as usize,
                ) && final(self).spec_tensor().spec_data() == old(
                    self,
                ).spec_tensor().spec_data(),
            },
    {
        let at = vec![index, 0];
        self.tensor.setval(at.as_slice(), val)
    }
}

impl<'a, U, T> PartialEq<Vec<T>> for Vector<'a, U> where U: TensorTypeNumeric, T: TensorEq<U> {
    fn eq(&self, other: &Vec<T>) -> (r: bool) {
        self.tensor == other
    }
}

impl<'a, U, T> PartialEqSpecImpl<Vec<T>> for Vector<'a, U> where U: TensorTypeNumeric, T: TensorEq<U> {
    open spec fn obeys_eq_spec() -> bool {
        true
    }

    /// The nest is equal to the vector's tensor.
    open spec fn eq_spec(&self, other: &Vec<T>) -> bool {
        other.eq_at(
            self.spec_tensor().layout(),
            self.spec_tensor().spec_data(),
            Seq::empty(),
        )
    }
}

impl<'a, U> PartialEq<Vector<'a, U>> for Vector<'a, U> where U: TensorTypeNumeric {
    fn eq(&self, other: &Vector<U>) -> (r: bool) {
        self.tensor == &other.tensor
    }
}

impl<'a, U> PartialEqSpecImpl<Vector<'a, U>> for Vector<'a, U> where U: TensorTypeNumeric {
    open spec fn obeys_eq_spec() -> bool {
        true
    }

    /// The two tensors have the same buffer, shape and strides.
    open spec fn eq_spec(&self, other: &Vector<U>) -> bool {
        crate::tensor::tensor_eq::same_tensor(
            other.spec_tensor().layout(),
            other.spec_tensor().spec_data(),
            self.spec_tensor().layout(),
            self.spec_tensor().spec_data(),
        )
    }
}

} // verus!
