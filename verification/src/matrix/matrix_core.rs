//! Construction of matrices, rows and columns, arithmetic.

use crate::tensor::{
    ragged_nest, uncountable_shape, unfilled_shape, Error, Tensor, TensorEq, TensorTypeNumeric,
    TensorView, TensorViewMut,
};
use crate::tensor::tensor_arithmetic::{
    bc_compatible, bc_shape, can_broadcast, can_multiply, elementwise_fits, elementwise_vals,
    mm_compatible, mm_fits, mm_shape, mm_vals, pass_fits, vals,
};
use crate::tensor::tensor_core::{flat_upto, text_of, update_fits, TensorFromNDim};
use crate::tensor::tensor_iter::{map_shown, ElementOp};
use crate::tensor::tensor_layout::{shape_size, tail_size, write_shown};
use super::Matrix;
use vstd::prelude::*;
use vstd::std_specs::cmp::PartialEqSpecImpl;

verus! {

/// Rows of one width, flattened, stand one after the other.
proof fn lemma_rows_flat<U: TensorTypeNumeric>(rows: Seq<Vec<U>>, width: int, n: int)
    requires
        0 <= n <= rows.len(),
        0 <= width,
        forall|k: int| 0 <= k < n ==> (#[trigger] rows[k])@.len() == width,
    ensures
        flat_upto::<Vec<U>, U>(rows, n).len() == n * width,
        forall|i: int, j: int|
            0 <= i < n && 0 <= j < width ==> flat_upto::<Vec<U>, U>(rows, n)[i * width + j]
                == #[trigger] rows[i]@[j],
    decreases n,
{
    if n > 0 {
        lemma_rows_flat(rows, width, n - 1);
        lemma_row_flat(rows[n - 1]@, width);
        let before = flat_upto::<Vec<U>, U>(rows, n - 1);
        let row = <Vec<U>>::flat_of(&rows[n - 1]);
        assert(row =~= rows[n - 1]@);
        assert((n - 1) * width + width == n * width) by (nonlinear_arith);
        assert forall|i: int, j: int| 0 <= i < n && 0 <= j < width implies (before + row)[i
            * width + j] == #[trigger] rows[i]@[j] by {
            if i < n - 1 {
                assert(i * width + j < (n - 1) * width) by (nonlinear_arith)
                    requires
                        0 <= i < n - 1,
                        0 <= j < width,
                ;
                assert(0 <= i * width + j) by (nonlinear_arith)
                    requires
                        0 <= i,
                        0 <= j,
                        0 <= width,
                ;
            } else {
                assert(i * width + j - (n - 1) * width == j) by (nonlinear_arith)
                    requires
                        i == n - 1,
                ;
            }
        }
    } else {
        assert(0 * width == 0) by (nonlinear_arith);
    }
}

/// A row of elements, flattened, is the row.
proof fn lemma_row_flat<U: TensorTypeNumeric>(row: Seq<U>, n: int)
    requires
        0 <= n <= row.len(),
    ensures
        flat_upto::<U, U>(row, n) == row.take(n),
    decreases n,
{
    if n > 0 {
        lemma_row_flat(row, n - 1);
        assert(flat_upto::<U, U>(row, n) =~= row.take(n));
    } else {
        assert(flat_upto::<U, U>(row, n) =~= row.take(n));
    }
}

impl<'a, U> Matrix<'a, U> where U: TensorTypeNumeric {
    /// A matrix of `rows` by `cols` zeros. Fails when it would hold more
    /// elements than can be counted.
    pub fn from_zeros(rows: usize, cols: usize) -> (r: Result<Matrix<'a, U>, Error>)
        ensures
            r is Ok <==> shape_size(seq![rows, cols]) <= usize::MAX,
            r is Err ==> r->Err_0.is_invalid_param(uncountable_shape()),
            r is Ok ==> {
                &&& r->Ok_0.spec_tensor().spec_shape() == seq![rows, cols]
                &&& r->Ok_0.spec_tensor().is_dense()
                &&& r->Ok_0.wf()
                &&& forall|i: int|
                    0 <= i < r->Ok_0.spec_tensor().spec_data().len() ==> (
                    #[trigger] r->Ok_0.spec_tensor().spec_data()[i]).val() == 0
            },
    {
        let shape = vec![rows, cols];
        let matrix = Tensor::from_zeros(shape.as_slice())?;
        Ok(Matrix { tensor: matrix })
    }

    /// The matrix whose rows are the items of `data`. Fails unless every
    /// row is as long as the first.
    pub fn from_vec(data: Vec<Vec<U>>) -> (r: Result<Matrix<'a, U>, Error>)
        ensures
            r is Ok <==> <Vec<Vec<U>>>::is_regular(&data),
            r is Err ==> r->Err_0.is_invalid_param(ragged_nest()),
            r is Ok ==> {
                &&& r->Ok_0.spec_tensor().spec_shape() == <Vec<Vec<U>>>::shape_of(&data)
                &&& r->Ok_0.spec_tensor().spec_data() == <Vec<Vec<U>>>::flat_of(&data)
                &&& r->Ok_0.spec_tensor().is_dense()
                &&& r->Ok_0.wf()
            },
    {
        let matrix = Tensor::from_vec(data)?;
        Ok(Matrix { tensor: matrix })
    }

    /// The matrix whose rows are the rows of the array `data`.
    pub fn from_arr<const R: usize, const C: usize>(data: [[U; C]; R]) -> (r: Result<
        Matrix<'a, U>,
        Error,
    >)
        ensures
            r is Ok,
            r->Ok_0.spec_tensor().spec_shape() == (if R == 0 {
                seq![0usize]
            } else {
                seq![R, C]
            }),
            r->Ok_0.spec_tensor().spec_data().len() == R * C,
            forall|i: int, j: int|
                0 <= i < R && 0 <= j < C ==> r->Ok_0.spec_tensor().spec_data()[i * C + j]
                    == #[trigger] data@[i]@[j],
            r->Ok_0.spec_tensor().is_dense(),
            r->Ok_0.wf(),
    {
        let mut data_vec: Vec<Vec<U>> = Vec::with_capacity(R);
        let mut i: usize = 0;
        while i < R
            invariant
                i <= R,
                data_vec@.len() == i,
                forall|k: int| 0 <= k < i ==> (#[trigger] data_vec@[k])@ == data@[k]@,
            decreases R - i,
        {
            let mut row: Vec<U> = Vec::with_capacity(C);
            let mut j: usize = 0;
            while j < C
                invariant
                    j <= C,
                    i < R,
                    row@.len() == j,
                    forall|k: int| 0 <= k < j ==> row@[k] == data@[i as int]@[k],
                decreases C - j,
            {
                row.push(data[i][j]);
                j += 1;
            }
            assert(row@ =~= data@[i as int]@);
            data_vec.push(row);
            i += 1;
        }
        proof {
            assert forall|k: int| 0 <= k < R implies <Vec<U>>::is_regular(
                #[trigger] &data_vec@[k],
            ) && <Vec<U>>::shape_of(&data_vec@[k]) == <Vec<U>>::shape_of(&data_vec@[0]) by {
                assert(data_vec@[k]@.len() == C);
                assert(data_vec@[0]@.len() == C);
            }
            lemma_rows_flat(data_vec@, C as int, R as int);
            let flat = flat_upto::<Vec<U>, U>(data_vec@, R as int);
            assert forall|i: int, j: int| 0 <= i < R && 0 <= j < C implies flat[i * C + j]
                == #[trigger] data@[i]@[j] by {
                assert(data_vec@[i]@[j] == data@[i]@[j]);
            }
            if R > 0 {
                assert(<Vec<U>>::shape_of(&data_vec@[0]) =~= seq![C]);
                assert(<Vec<Vec<U>>>::shape_of(&data_vec) =~= seq![R, C]);
                let shape = seq![R, C];
                assert(tail_size(shape, 2) == 1);
                assert(tail_size(shape, 1) == C * 1);
                assert(shape_size(shape) == R * (C * 1));
                assert(R * (C * 1) == R * C) by (nonlinear_arith);
            } else {
                let shape = seq![0usize];
                assert(tail_size(shape, 1) == 1);
                assert(shape_size(shape) == 0 * 1);
                assert(R * C == 0) by (nonlinear_arith)
                    requires
                        R == 0,
                ;
            }
        }
        let matrix = Tensor::from_vec(data_vec)?;
        Ok(Matrix { tensor: matrix })
    }

    /// A matrix of the given shape over a copy of `data`. Fails unless
    /// `data` holds one element for each index tuple of the shape.
    pub fn from_shape(shape: &[usize], data: &Vec<U>) -> (r: Result<Matrix<'static, U>, Error>)
        ensures
            r is Ok <==> shape_size(shape@) == data@.len(),
            r is Err ==> r->Err_0.is_invalid_param(unfilled_shape()),
            r is Ok ==> {
                &&& r->Ok_0.spec_tensor().spec_shape() == shape@
                &&& r->Ok_0.spec_tensor().spec_data() == data@
                &&& r->Ok_0.spec_tensor().is_dense()
                &&& r->Ok_0.wf()
            },
    {
        let matrix = Tensor::from_shape(shape, data)?;
        Ok(Matrix { tensor: matrix })
    }

    /// The dimension sizes of the matrix.
    pub fn shape(&self) -> (r: Vec<usize>)
        ensures
            r@ == self.spec_tensor().spec_shape(),
    {
        self.tensor.shape()
    }

    /// The row `index` as a view. Fails with `InvalidSlicing` when the
    /// matrix has no such row, and with `ShapeMismatch` when it has no
    /// axis at all.
    #[inline(always)]
    pub fn row(&self, index: usize) -> (r: Result<TensorView<'_, U>, Error>)
        requires
            self.wf(),
        ensures
            self.spec_tensor().spec_shape().len() == 0 ==> r is Err
                && r->Err_0.is_shape_mismatch(seq![index], self.spec_tensor().spec_shape()),
            self.spec_tensor().spec_shape().len() >= 1 && index
                >= self.spec_tensor().spec_shape()[0] ==> r is Err
                && r->Err_0.is_invalid_slicing(seq![index], self.spec_tensor().spec_shape()),
            self.spec_tensor().spec_shape().len() >= 1 && index
                < self.spec_tensor().spec_shape()[0] ==> r is Ok && r->Ok_0.layout()
                == self.spec_tensor().layout().slice(seq![index]) && r->Ok_0.spec_data()
                == self.spec_tensor().spec_data() && r->Ok_0.wf(),
    {
        let at = vec![index];
        proof {
            assert(at@ =~= seq![index]);
            if self.tensor.spec_shape().len() >= 1 {
                assert(self.tensor.layout().admits(at@) <==> index < self.tensor.spec_shape()[0]);
            }
        }
        self.tensor.slice(at.as_slice())
    }

    /// The column `index` as a view. Fails with `InvalidAxis` when the
    /// matrix has no second axis, and with `InvalidSlicing` when it has no
    /// such column.
    #[inline(always)]
    pub fn col(&self, index: usize) -> (r: Result<TensorView<'_, U>, Error>)
        requires
            self.wf(),
        ensures
            self.spec_tensor().spec_shape().len() < 2 ==> r is Err && r->Err_0.is_invalid_axis(
                1,
                self.spec_tensor().spec_shape().len() as usize,
            ),
            self.spec_tensor().spec_shape().len() >= 2 && index
                >= self.spec_tensor().spec_shape()[1] ==> r is Err
                && r->Err_0.is_invalid_slicing(
                seq![index],
                self.spec_tensor().layout().axis(1).shape,
            ),
            self.spec_tensor().spec_shape().len() >= 2 && index
                < self.spec_tensor().spec_shape()[1] ==> r is Ok && r->Ok_0.layout()
                == self.spec_tensor().layout().axis(1).slice(seq![index]) && r->Ok_0.spec_data()
                == self.spec_tensor().spec_data() && r->Ok_0.wf(),
    {
        let at = vec![index];
        proof {
            assert(at@ =~= seq![index]);
            if self.tensor.spec_shape().len() >= 2 {
                let turned = self.tensor.layout().axis(1);
                assert(turned.shape[0] == self.tensor.spec_shape()[1]);
                assert(turned.admits(at@) <==> index < self.tensor.spec_shape()[1]);
            }
        }
        self.tensor.axis_slice(1, at.as_slice())
    }

    /// Writes the rows of `data` over the matrix and hands back a writable
    /// view of it. Fails with `ShapeMismatch` when `data` has not the
    /// shape of the matrix.
    #[inline(always)]
    pub fn update<'b>(&'b mut self, data: Vec<Vec<U>>) -> (r: Result<TensorViewMut<'b, U>, Error>)
        requires
            old(self).wf(),
        ensures
            final(self).spec_tensor().layout() == old(self).spec_tensor().layout(),
            r is Err ==> final(self).spec_tensor().spec_data() == old(
                self,
            ).spec_tensor().spec_data(),
            r is Ok <==> update_fits::<Vec<Vec<U>>, U>(
                old(self).spec_tensor().layout(),
                Seq::empty(),
                &data,
            ),
            r is Err ==> r->Err_0.is_shape_mismatch(
                <Vec<Vec<U>>>::shape_of(&data),
                old(self).spec_tensor().spec_shape(),
            ),
            r is Ok ==> r->Ok_0.layout() == old(self).spec_tensor().layout() && r->Ok_0.wf()
                && r->Ok_0.spec_data() == write_shown(
                old(self).spec_tensor().layout(),
                old(self).spec_tensor().spec_data(),
                <Vec<Vec<U>>>::flat_of(&data),
                shape_size(old(self).spec_tensor().spec_shape()),
            ) && final(self).spec_tensor().spec_data() == final(r->Ok_0.data)@,
    {
        let whole: Vec<usize> = Vec::new();
        proof {
            crate::tensor::tensor_layout::lemma_slice_nothing(
                self.tensor.layout(),
                self.tensor.spec_data().len(),
            );
            assert(self.tensor.spec_shape().skip(0) =~= self.tensor.spec_shape());
        }
        self.tensor.update(whole.as_slice(), data)
    }

    /// Writes `data` over the row `index` and hands back a writable view
    /// of that row. Fails with `InvalidSlicing` when the matrix has no
    /// such row, and with `ShapeMismatch` when it has no axis at all or
    /// `data` has not the shape of a row.
    #[inline(always)]
    pub fn update_row<'b>(&'b mut self, index: usize, data: Vec<U>) -> (r: Result<
        TensorViewMut<'b, U>,
        Error,
    >)
        requires
            old(self).wf(),
        ensures
            final(self).spec_tensor().layout() == old(self).spec_tensor().layout(),
            r is Err ==> final(self).spec_tensor().spec_data() == old(
                self,
            ).spec_tensor().spec_data(),
            old(self).spec_tensor().spec_shape().len() == 0 ==> r is Err
                && r->Err_0.is_shape_mismatch(seq![index], old(self).spec_tensor().spec_shape()),
            old(self).spec_tensor().spec_shape().len() >= 1 && index >= old(
                self,
            ).spec_tensor().spec_shape()[0] ==> r is Err && r->Err_0.is_invalid_slicing(
                seq![index],
                old(self).spec_tensor().spec_shape(),
            ),
            old(self).spec_tensor().layout().admits(seq![index]) && !update_fits::<Vec<U>, U>(
                old(self).spec_tensor().layout(),
                seq![index],
                &data,
            ) ==> r is Err && r->Err_0.is_shape_mismatch(
                <Vec<U>>::shape_of(&data),
                old(self).spec_tensor().spec_shape().skip(1),
            ),
            old(self).spec_tensor().layout().admits(seq![index]) && update_fits::<Vec<U>, U>(
                old(self).spec_tensor().layout(),
                seq![index],
                &data,
            ) ==> r is Ok && r->Ok_0.layout() == old(self).spec_tensor().layout().slice(
                seq![index],
            ) && r->Ok_0.wf() && r->Ok_0.spec_data() == write_shown(
                old(self).spec_tensor().layout().slice(seq![index]),
                old(self).spec_tensor().spec_data(),
                <Vec<U>>::flat_of(&data),
                shape_size(old(self).spec_tensor().spec_shape().skip(1)),
            ) && final(self).spec_tensor().spec_data() == final(r->Ok_0.data)@,
    {
        let at = vec![index];
        proof {
            assert(at@ =~= seq![index]);
            if self.tensor.spec_shape().len() >= 1 {
                assert(self.tensor.layout().admits(at@) <==> index < self.tensor.spec_shape()[0]);
            }
        }
        self.tensor.update(at.as_slice(), data)
    }

    /// The sum of the two matrices, element by element under
    /// broadcasting. Fails with `ShapeMismatchBroadcast` when the shapes
    /// cannot be broadcast.
    pub fn add(&self, matrix_b: &Matrix<'a, U>) -> (r: Result<Matrix<'static, U>, Error>)
        requires
            self.wf(),
            matrix_b.wf(),
            bc_compatible(self.spec_tensor().spec_shape(), matrix_b.spec_tensor().spec_shape())
                ==> can_broadcast(self.spec_tensor().layout(), matrix_b.spec_tensor().layout())
                && elementwise_fits(
                self.spec_tensor().layout(),
                self.spec_tensor().spec_data(),
                matrix_b.spec_tensor().layout(),
                matrix_b.spec_tensor().spec_data(),
                false,
            ),
        ensures
            !bc_compatible(self.spec_tensor().spec_shape(), matrix_b.spec_tensor().spec_shape())
                ==> r is Err && r->Err_0.is_broadcast_mismatch(
                self.spec_tensor().spec_shape(),
                matrix_b.spec_tensor().spec_shape(),
            ),
            bc_compatible(self.spec_tensor().spec_shape(), matrix_b.spec_tensor().spec_shape())
                ==> r is Ok && {
                &&& r->Ok_0.spec_tensor().spec_shape() == bc_shape(
                    self.spec_tensor().spec_shape(),
                    matrix_b.spec_tensor().spec_shape(),
                )
                &&& r->Ok_0.spec_tensor().is_dense()
                &&& r->Ok_0.wf()
                &&& vals(r->Ok_0.spec_tensor().spec_data()) == elementwise_vals(
                    self.spec_tensor().layout(),
                    self.spec_tensor().spec_data(),
                    matrix_b.spec_tensor().layout(),
                    matrix_b.spec_tensor().spec_data(),
                    false,
                )
            },
    {
        let matrix_c = self.tensor.add(&matrix_b.tensor.view())?;

        Ok(Matrix { tensor: matrix_c })
    }

    /// The difference of the two matrices, element by element under
    /// broadcasting. Fails with `ShapeMismatchBroadcast` when the shapes
    /// cannot be broadcast.
    pub fn sub(&self, matrix_b: &Matrix<'a, U>) -> (r: Result<Matrix<'static, U>, Error>)
        requires
            self.wf(),
            matrix_b.wf(),
            bc_compatible(self.spec_tensor().spec_shape(), matrix_b.spec_tensor().spec_shape())
                ==> can_broadcast(self.spec_tensor().layout(), matrix_b.spec_tensor().layout())
                && elementwise_fits(
                self.spec_tensor().layout(),
                self.spec_tensor().spec_data(),
                matrix_b.spec_tensor().layout(),
                matrix_b.spec_tensor().spec_data(),
                true,
            ),
        ensures
            !bc_compatible(self.spec_tensor().spec_shape(), matrix_b.spec_tensor().spec_shape())
                ==> r is Err && r->Err_0.is_broadcast_mismatch(
                self.spec_tensor().spec_shape(),
                matrix_b.spec_tensor().spec_shape(),
            ),
            bc_compatible(self.spec_tensor().spec_shape(), matrix_b.spec_tensor().spec_shape())
                ==> r is Ok && {
                &&& r->Ok_0.spec_tensor().spec_shape() == bc_shape(
                    self.spec_tensor().spec_shape(),
                    matrix_b.spec_tensor().spec_shape(),
                )
                &&& r->Ok_0.spec_tensor().is_dense()
                &&& r->Ok_0.wf()
                &&& vals(r->Ok_0.spec_tensor().spec_data()) == elementwise_vals(
                    self.spec_tensor().layout(),
                    self.spec_tensor().spec_data(),
                    matrix_b.spec_tensor().layout(),
                    matrix_b.spec_tensor().spec_data(),
                    true,
                )
            },
    {
        let matrix_c = self.tensor.sub(&matrix_b.tensor.view())?;

        Ok(Matrix { tensor: matrix_c })
    }

    /// The matrix product. Fails with `ShapeMismatchBroadcast` when the
    /// columns of the left are not as many as the rows of the right.
    pub fn mul(&self, matrix_b: &Matrix<'a, U>) -> (r: Result<Matrix<'static, U>, Error>)
        requires
            self.wf(),
            matrix_b.wf(),
            mm_compatible(self.spec_tensor().spec_shape(), matrix_b.spec_tensor().spec_shape())
                ==> can_multiply(self.spec_tensor().layout(), matrix_b.spec_tensor().layout())
                && mm_fits(
                self.spec_tensor().layout(),
                self.spec_tensor().spec_data(),
                matrix_b.spec_tensor().layout(),
                matrix_b.spec_tensor().spec_data(),
            ),
        ensures
            !mm_compatible(self.spec_tensor().spec_shape(), matrix_b.spec_tensor().spec_shape())
                ==> r is Err && r->Err_0.is_broadcast_mismatch(
                self.spec_tensor().spec_shape(),
                matrix_b.spec_tensor().spec_shape(),
            ),
            mm_compatible(self.spec_tensor().spec_shape(), matrix_b.spec_tensor().spec_shape())
                ==> r is Ok && {
                &&& r->Ok_0.spec_tensor().spec_shape() == mm_shape(
                    self.spec_tensor().spec_shape(),
                    matrix_b.spec_tensor().spec_shape(),
                )
                &&& r->Ok_0.spec_tensor().is_dense()
                &&& r->Ok_0.wf()
                &&& vals(r->Ok_0.spec_tensor().spec_data()) == mm_vals(
                    self.spec_tensor().layout(),
                    self.spec_tensor().spec_data(),
                    matrix_b.spec_tensor().layout(),
                    matrix_b.spec_tensor().spec_data(),
                )
            },
    {
        let matrix_c = self.tensor.mul(&matrix_b.tensor.view())?;

        Ok(Matrix { tensor: matrix_c })
    }

    /// Adds `scalar` to every element, in place.
    pub fn add_scalar(&mut self, scalar: U)
        requires
            old(self).wf(),
            old(self).spec_tensor().spec_shape().len() >= 1,
            pass_fits::<U>(
                old(self).spec_tensor().layout(),
                vals(old(self).spec_tensor().spec_data()),
                ElementOp::Plus(scalar.val()),
            ),
        ensures
            final(self).spec_tensor().layout() == old(self).spec_tensor().layout(),
            final(self).wf(),
            vals(final(self).spec_tensor().spec_data()) == map_shown(
                old(self).spec_tensor().layout(),
                vals(old(self).spec_tensor().spec_data()),
                ElementOp::Plus(scalar.val()),
                shape_size(old(self).spec_tensor().spec_shape()),
            ),
    {
        self.tensor.add_scalar(scalar);
    }

    /// Subtracts `scalar` from every element, in place.
    pub fn sub_scalar(&mut self, scalar: U)
        requires
            old(self).wf(),
            old(self).spec_tensor().spec_shape().len() >= 1,
            pass_fits::<U>(
                old(self).spec_tensor().layout(),
                vals(old(self).spec_tensor().spec_data()),
                ElementOp::Minus(scalar.val()),
            ),
        ensures
            final(self).spec_tensor().layout() == old(self).spec_tensor().layout(),
            final(self).wf(),
            vals(final(self).spec_tensor().spec_data()) == map_shown(
                old(self).spec_tensor().layout(),
                vals(old(self).spec_tensor().spec_data()),
                ElementOp::Minus(scalar.val()),
                shape_size(old(self).spec_tensor().spec_shape()),
            ),
    {
        self.tensor.sub_scalar(scalar);
    }

    /// Multiplies every element by `scalar`, in place.
    pub fn mul_scalar(&mut self, scalar: U)
        requires
            old(self).wf(),
            old(self).spec_tensor().spec_shape().len() >= 1,
            pass_fits::<U>(
                old(self).spec_tensor().layout(),
                vals(old(self).spec_tensor().spec_data()),
                ElementOp::Times(scalar.val()),
            ),
        ensures
            final(self).spec_tensor().layout() == old(self).spec_tensor().layout(),
            final(self).wf(),
            vals(final(self).spec_tensor().spec_data()) == map_shown(
                old(self).spec_tensor().layout(),
                vals(old(self).spec_tensor().spec_data()),
                ElementOp::Times(scalar.val()),
                shape_size(old(self).spec_tensor().spec_shape()),
            ),
    {
        self.tensor.mul_scalar(scalar);
    }

    /// The transposed matrix as a view.
    #[inline(always)]
    pub fn t(&self) -> (r: Result<TensorView<'_, U>, Error>)
        requires
            self.wf(),
        ensures
            r is Ok,
            r->Ok_0.layout() == self.spec_tensor().layout().transpose(),
            r->Ok_0.spec_data() == self.spec_tensor().spec_data(),
            r->Ok_0.wf(),
    {
        self.tensor.t()
    }

    /// The transposed matrix as a writable view.
    #[inline(always)]
    pub fn t_mut<'b>(&'b mut self) -> (r: Result<TensorViewMut<'b, U>, Error>)
        requires
            old(self).wf(),
        ensures
            final(self).spec_tensor().layout() == old(self).spec_tensor().layout(),
            r is Ok,
            r->Ok_0.layout() == old(self).spec_tensor().layout().transpose(),
            r->Ok_0.spec_data() == old(self).spec_tensor().spec_data(),
            r->Ok_0.wf(),
            final(self).spec_tensor().spec_data() == final(r->Ok_0.data)@,
    {
        self.tensor.t_mut()
    }

    /// The matrix as nested brackets: `[[1, 2, 3], [4, 5, 6]]`.
    #[inline(always)]
    pub fn print(&self) -> (r: String)
        requires
            self.wf(),
        ensures
            r@ == text_of(
                self.spec_tensor().layout(),
                self.spec_tensor().spec_data(),
                Seq::empty(),
            ),
    {
        self.tensor.print()
    }
}

impl<'a, U, T> PartialEq<Vec<T>> for Matrix<'a, U> where U: TensorTypeNumeric, T: TensorEq<U> {
    fn eq(&self, other: &Vec<T>) -> (r: bool) {
        self.tensor == other
    }
}

impl<'a, U, T> PartialEqSpecImpl<Vec<T>> for Matrix<'a, U> where U: TensorTypeNumeric, T: TensorEq<U> {
    open spec fn obeys_eq_spec() -> bool {
        true
    }

    /// The nest is equal to the matrix's tensor.
    open spec fn eq_spec(&self, other: &Vec<T>) -> bool {
        other.eq_at(
            self.spec_tensor().layout(),
            self.spec_tensor().spec_data(),
            Seq::empty(),
        )
    }
}

impl<'a, U> PartialEq<Matrix<'a, U>> for Matrix<'a, U> where U: TensorTypeNumeric {
    fn eq(&self, other: &Matrix<U>) -> (r: bool) {
        self.tensor == &other.tensor
    }
}

impl<'a, U> PartialEqSpecImpl<Matrix<'a, U>> for Matrix<'a, U> where U: TensorTypeNumeric {
    open spec fn obeys_eq_spec() -> bool {
        true
    }

    /// The two tensors have the same buffer, shape and strides.
    open spec fn eq_spec(&self, other: &Matrix<U>) -> bool {
        crate::tensor::tensor_eq::same_tensor(
            other.spec_tensor().layout(),
            other.spec_tensor().spec_data(),
            self.spec_tensor().layout(),
            self.spec_tensor().spec_data(),
        )
    }
}

} // verus!
