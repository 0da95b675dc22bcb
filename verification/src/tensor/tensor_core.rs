//! Construction, introspection, element access and view navigation.

use std::marker::PhantomData;
use std::ops::Range;
use super::{
    ragged_nest, uncountable_shape, unfilled_shape, Error, Tensor, TensorBase, TensorIterMut,
    TensorStorage, TensorStorageMut, TensorTypeNumeric, TensorView, TensorViewMut,
};
use super::tensor_iter::{cursor_left, cursor_start, odometer_step, odometer_wf};
use super::tensor_layout::{
    checked_shape_size, compute_row_major, contains_zero, dot_upto, front_axes, has_zero,
    is_permutation, last_index, lemma_dot_upto_grows, lemma_dot_upto_monotone,
    lemma_dot_within_extent, lemma_extent_row_major, lemma_front_axes_permutation,
    lemma_layout_fits_batch, lemma_layout_fits_flatten, lemma_layout_fits_select,
    lemma_layout_fits_slice, lemma_nth_index_valid, lemma_nth_position_fits,
    lemma_reversed_axes_permutation, lemma_size_zero_iff, lemma_slice_nothing, lemma_tail_size_skip,
    nth_index, ravel, reversed_axes, row_major_strides, same_numbers, select, shape_size, tail_size,
    valid_index, write_shown, Layout,
};
use vstd::prelude::*;
use vstd::slice::{slice_subrange, slice_to_vec};
use vstd::std_specs::convert::FromSpecImpl;
use vstd::string::StringExecFns;

verus! {

/// Nested sequences of elements that a tensor can be built from: an
/// element by itself, or a `Vec` of such things.
pub trait TensorFromNDim<T, U> {
    /// The shape of the nest, measured along the first item of each
    /// level.
    spec fn shape_of(data: &T) -> Seq<usize>;

    /// The elements of the nest, depth first.
    spec fn flat_of(data: &T) -> Seq<U>;

    /// The nest is regular: at each level every item has the shape of the
    /// level's first item.
    spec fn is_regular(data: &T) -> bool;

    /// A regular nest holds one element for each index tuple of its shape.
    proof fn lemma_regular_fills(data: &T)
        requires
            Self::is_regular(data),
        ensures
            Self::flat_of(data).len() == shape_size(Self::shape_of(data)),
    ;

    /// Whether the nest is regular.
    fn check_regular(data: &T) -> (regular: bool)
        ensures
            regular == Self::is_regular(data),
    ;

    /// The shape of the nest.
    fn compute_shape(data: &T) -> (shape: Vec<usize>)
        ensures
            shape@ == Self::shape_of(data),
    ;

    /// The row-major strides of `shape`.
    fn compute_strides(shape: &[usize]) -> (strides: Vec<usize>)
        requires
            shape_size(shape@) <= usize::MAX,
        ensures
            strides@ == row_major_strides(shape@),
    ;

    /// Appends the elements of the nest, depth first.
    fn flatten_data(data: &T, data_flat: &mut Vec<U>)
        ensures
            final(data_flat)@ == old(data_flat)@ + Self::flat_of(data),
    ;
}

impl<U: TensorTypeNumeric> TensorFromNDim<U, U> for U {
    open spec fn shape_of(data: &U) -> Seq<usize> {
        Seq::empty()
    }

    open spec fn flat_of(data: &U) -> Seq<U> {
        seq![*data]
    }

    open spec fn is_regular(data: &U) -> bool {
        true
    }

    proof fn lemma_regular_fills(data: &U) {
    }

    fn check_regular(_data: &U) -> (regular: bool) {
        true
    }

    fn compute_shape(_data: &U) -> (shape: Vec<usize>) {
        Vec::new()
    }

    fn compute_strides(shape: &[usize]) -> (strides: Vec<usize>) {
        compute_row_major(shape)
    }

    fn flatten_data(data: &U, data_flat: &mut Vec<U>) {
        data_flat.push(*data);
    }
}

/// The elements of the first `n` items of a sequence of nests, depth
/// first.
pub open spec fn flat_upto<T: TensorFromNDim<T, U>, U>(items: Seq<T>, n: int) -> Seq<U>
    decreases n,
{
    if n <= 0 {
        Seq::empty()
    } else {
        flat_upto::<T, U>(items, n - 1) + T::flat_of(&items[n - 1])
    }
}

/// Each of the first `n` items is regular and has the shape of the first
/// item.
pub open spec fn items_regular<T: TensorFromNDim<T, U>, U>(items: Seq<T>, n: int) -> bool {
    forall|i: int|
        0 <= i < n ==> T::is_regular(#[trigger] &items[i]) && T::shape_of(&items[i])
            == T::shape_of(&items[0])
}

/// Regular items of one shape, flattened, hold as many elements as the
/// items times the index tuples of that shape.
proof fn lemma_regular_items_fill<T: TensorFromNDim<T, U>, U>(items: Seq<T>, n: int)
    requires
        0 <= n <= items.len(),
        items_regular::<T, U>(items, n),
    ensures
        flat_upto::<T, U>(items, n).len() == n * shape_size(T::shape_of(&items[0])),
    decreases n,
{
    let each = shape_size(T::shape_of(&items[0]));
    if n > 0 {
        lemma_regular_items_fill::<T, U>(items, n - 1);
        assert(T::is_regular(&items[n - 1]));
        T::lemma_regular_fills(&items[n - 1]);
        assert((n - 1) * each + each == n * each) by (nonlinear_arith);
    } else {
        assert(0 * each == 0) by (nonlinear_arith);
    }
}

impl<T, U> TensorFromNDim<Vec<T>, U> for Vec<T> where T: TensorFromNDim<T, U>, U: TensorTypeNumeric {
    open spec fn shape_of(data: &Vec<T>) -> Seq<usize> {
        if data@.len() == 0 {
            seq![0usize]
        } else {
            seq![data@.len() as usize] + T::shape_of(&data@[0])
        }
    }

    open spec fn flat_of(data: &Vec<T>) -> Seq<U> {
        flat_upto::<T, U>(data@, data@.len() as int)
    }

    open spec fn is_regular(data: &Vec<T>) -> bool {
        items_regular::<T, U>(data@, data@.len() as int)
    }

    proof fn lemma_regular_fills(data: &Vec<T>) {
        let n = data@.len() as int;
        assert(data@.len() == data.len());
        if n > 0 {
            let inner = T::shape_of(&data@[0]);
            let shape = seq![data@.len() as usize] + inner;
            lemma_regular_items_fill::<T, U>(data@, n);
            lemma_tail_size_skip(shape, 1, 0);
            assert(shape.skip(1) =~= inner);
            assert(shape_size(shape) == n * tail_size(shape, 1));
        } else {
            let shape = seq![0usize];
            assert(tail_size(shape, 1) == 1);
            assert(shape_size(shape) == 0 * 1);
        }
    }

    fn check_regular(data: &Vec<T>) -> (regular: bool) {
        if data.len() == 0 {
            return true;
        }
        let first = T::compute_shape(&data[0]);
        let mut i: usize = 0;
        while i < data.len()
            invariant
                i <= data@.len(),
                data@.len() > 0,
                first@ == T::shape_of(&data@[0]),
                items_regular::<T, U>(data@, i as int),
            decreases data@.len() - i,
        {
            if !T::check_regular(&data[i]) {
                return false;
            }
            let shape = T::compute_shape(&data[i]);
            if !same_numbers(shape.as_slice(), first.as_slice()) {
                return false;
            }
            i += 1;
        }
        true
    }

    fn compute_shape(data: &Vec<T>) -> (shape: Vec<usize>) {
        if data.len() == 0 {
            let mut shape: Vec<usize> = Vec::new();
            shape.push(0);
            assert(shape@ =~= seq![0usize]);
            return shape;
        }
        let mut shape: Vec<usize> = Vec::new();
        shape.push(data.len());
        let mut inner = T::compute_shape(&data[0]);
        shape.append(&mut inner);
        assert(shape@ =~= seq![data@.len() as usize] + T::shape_of(&data@[0]));
        shape
    }

    fn compute_strides(shape: &[usize]) -> (strides: Vec<usize>) {
        compute_row_major(shape)
    }

    fn flatten_data(data: &Vec<T>, data_flat: &mut Vec<U>) {
        let ghost before = data_flat@;
        let mut i: usize = 0;
        while i < data.len()
            invariant
                i <= data@.len(),
                data_flat@ == before + flat_upto::<T, U>(data@, i as int),
            decreases data@.len() - i,
        {
            T::flatten_data(&data[i], data_flat);
            i += 1;
            assert(data_flat@ =~= before + flat_upto::<T, U>(data@, i as int));
        }
    }
}

impl<U: TensorTypeNumeric> TensorStorage<U> for Vec<U> {
    open spec fn elems(&self) -> Seq<U> {
        self@
    }

    proof fn lemma_len_in_range(&self) {
        assert(self@.len() == self.len());
    }

    #[inline(always)]
    fn get(&self, index: usize) -> (v: U) {
        self[index]
    }

    fn as_slice(&self) -> (s: &[U]) {
        Vec::as_slice(self)
    }
}

impl<'a, U: TensorTypeNumeric> TensorStorage<U> for &'a [U] {
    open spec fn elems(&self) -> Seq<U> {
        self@
    }

    proof fn lemma_len_in_range(&self) {
        assert(self@.len() == self.len());
    }

    #[inline(always)]
    fn get(&self, index: usize) -> (v: U) {
        self[index]
    }

    fn as_slice(&self) -> (s: &[U]) {
        *self
    }
}

impl<'a, U: TensorTypeNumeric> TensorStorage<U> for &'a mut [U] {
    open spec fn elems(&self) -> Seq<U> {
        self@
    }

    proof fn lemma_len_in_range(&self) {
        assert(self@.len() == self.len());
    }

    #[inline(always)]
    fn get(&self, index: usize) -> (v: U) {
        self[index]
    }

    fn as_slice(&self) -> (s: &[U]) {
        &**self
    }
}

impl<U: TensorTypeNumeric> TensorStorageMut<U> for Vec<U> {
    #[inline(always)]
    fn set(&mut self, index: usize, value: U) {
        self[index] = value;
    }

    fn as_mut_slice(&mut self) -> (s: &mut [U]) {
        Vec::as_mut_slice(self)
    }
}

impl<'a, U: TensorTypeNumeric> TensorStorageMut<U> for &'a mut [U] {
    #[inline(always)]
    fn set(&mut self, index: usize, value: U) {
        self[index] = value;
    }

    fn as_mut_slice(&mut self) -> (s: &mut [U]) {
        &mut **self
    }
}

/// A buffer of `n` copies of `value`.
pub fn filled<U: TensorTypeNumeric>(value: U, n: usize) -> (buf: Vec<U>)
    ensures
        buf@ == Seq::new(n as nat, |i: int| value),
{
    let mut buf: Vec<U> = Vec::new();
    let mut i: usize = 0;
    while i < n
        invariant
            i <= n,
            buf@ == Seq::new(i as nat, |k: int| value),
        decreases n - i,
    {
        buf.push(value);
        i += 1;
        assert(buf@ =~= Seq::new(i as nat, |k: int| value));
    }
    buf
}

impl<'a, U> Tensor<'a, U> where U: TensorTypeNumeric {
    /// The tensor that a nest of elements describes: its shape is measured
    /// along the first item of each level, its buffer holds the elements
    /// depth first. Fails unless the nest is regular.
    pub fn from_vec<T>(data_ndim: T) -> (r: Result<Self, Error>) where T: TensorFromNDim<T, U>
        ensures
            r is Ok <==> T::is_regular(&data_ndim),
            r is Err ==> r->Err_0.is_invalid_param(ragged_nest()),
            r matches Ok(t) ==> {
                &&& t.spec_shape() == T::shape_of(&data_ndim)
                &&& t.spec_data() == T::flat_of(&data_ndim)
                &&& t.is_dense()
                &&& t.wf()
            },
    {
        Self::from_vec_ref(&data_ndim)
    }

    /// The same as `from_vec`, for a nest that the caller keeps.
    pub fn from_vec_ref<T>(data_ndim: &T) -> (r: Result<Self, Error>) where T: TensorFromNDim<T, U>
        ensures
            r is Ok <==> T::is_regular(data_ndim),
            r is Err ==> r->Err_0.is_invalid_param(ragged_nest()),
            r matches Ok(t) ==> {
                &&& t.spec_shape() == T::shape_of(data_ndim)
                &&& t.spec_data() == T::flat_of(data_ndim)
                &&& t.is_dense()
                &&& t.wf()
            },
    {
        if !T::check_regular(data_ndim) {
            return Err(Error::InvalidParam { err_msg: String::from_str("The nested data is ragged") });
        }
        let mut data: Vec<U> = Vec::new();
        let shape = T::compute_shape(data_ndim);
        let offset: usize = 0;

        T::flatten_data(data_ndim, &mut data);
        proof {
            assert(data@ =~= T::flat_of(data_ndim));
            assert(data@.len() == data.len());
            T::lemma_regular_fills(data_ndim);
            lemma_size_zero_iff(shape@);
            if data@.len() > 0 {
                lemma_extent_row_major(shape@);
            }
        }
        let strides = T::compute_strides(shape.as_slice());

        Ok(Tensor { data, shape, strides, offset, _u: PhantomData, _s: PhantomData })
    }

    /// A tensor of the given shape whose elements are all zero. Fails when
    /// the shape has more index tuples than a `usize` counts.
    pub fn from_zeros(shape: &[usize]) -> (r: Result<Self, Error>)
        ensures
            r is Ok <==> shape_size(shape@) <= usize::MAX,
            r is Err ==> r->Err_0.is_invalid_param(uncountable_shape()),
            r matches Ok(t) ==> {
                &&& t.spec_shape() == shape@
                &&& t.is_dense()
                &&& t.wf()
                &&& forall|i: int| 0 <= i < t.spec_data().len() ==> t.spec_data()[i].val() == 0
            },
    {
        match checked_shape_size(shape) {
            None => Err(
                Error::InvalidParam {
                    err_msg: String::from_str("The shape holds more elements than can be counted"),
                },
            ),
            Some(size) => {
                let zero = U::zero();
                let data: Vec<U> = filled(zero, size);
                let strides = compute_row_major(shape);
                let shape = slice_to_vec(shape);
                proof {
                    lemma_size_zero_iff(shape@);
                    if size > 0 {
                        lemma_extent_row_major(shape@);
                    }
                }
                Ok(Tensor { shape, strides, offset: 0, data, _u: PhantomData, _s: PhantomData })
            },
        }
    }

    /// A tensor of the given shape over a copy of `data`. Fails unless
    /// `data` holds exactly one element for each index tuple of the shape.
    pub fn from_shape(shape: &[usize], data: &Vec<U>) -> (r: Result<Self, Error>)
        ensures
            r is Ok <==> shape_size(shape@) == data@.len(),
            r is Err ==> r->Err_0.is_invalid_param(unfilled_shape()),
            r matches Ok(t) ==> {
                &&& t.spec_shape() == shape@
                &&& t.spec_data() == data@
                &&& t.is_dense()
                &&& t.wf()
            },
    {
        let size = checked_shape_size(shape);
        let n = data.len();
        if size.is_some() && size.unwrap() == n {
            let strides = compute_row_major(shape);
            let shape = slice_to_vec(shape);
            let data = slice_to_vec(data.as_slice());
            proof {
                lemma_size_zero_iff(shape@);
                if n > 0 {
                    lemma_extent_row_major(shape@);
                }
            }
            Ok(Tensor { shape, strides, offset: 0, data, _u: PhantomData, _s: PhantomData })
        } else {
            Err(
                Error::InvalidParam {
                    err_msg: String::from_str("The shape does not match the number of elements"),
                },
            )
        }
    }
}

impl<'a, U, S> TensorBase<'a, U, S> where U: TensorTypeNumeric, S: TensorStorage<U> {
    /// A copy of the whole buffer.
    #[inline(always)]
    pub fn data(&self) -> (r: Vec<U>)
        ensures
            r@ == self.spec_data(),
    {
        slice_to_vec(self.data.as_slice())
    }

    /// The dimension sizes, outermost first.
    #[inline(always)]
    pub fn shape(&self) -> (r: Vec<usize>)
        ensures
            r@ == self.spec_shape(),
    {
        slice_to_vec(self.shape.as_slice())
    }

    /// The element steps per axis; none for a tensor that was built without
    /// elements.
    #[inline(always)]
    pub fn strides(&self) -> (r: Vec<usize>)
        ensures
            r@ == self.spec_strides(),
    {
        slice_to_vec(self.strides.as_slice())
    }

    /// The number of axes.
    #[inline(always)]
    pub fn ndim(&self) -> (r: usize)
        ensures
            r == self.spec_shape().len(),
    {
        self.shape.len()
    }

    /// The length of the buffer.
    #[inline(always)]
    pub fn nelems(&self) -> (r: usize)
        ensures
            r == self.spec_data().len(),
    {
        self.data.as_slice().len()
    }

    /// The row-major strides of `shape`.
    pub fn compute_strides(&self, shape: &[usize]) -> (r: Vec<usize>)
        requires
            shape_size(shape@) <= usize::MAX,
        ensures
            r@ == row_major_strides(shape@),
    {
        compute_row_major(shape)
    }

    /// The position in the buffer of the element at `index`.
    pub open spec fn flat_position(&self, index: Seq<usize>) -> int {
        self.layout().position(index)
    }

    /// The position of the element at `index`, unless a `usize` cannot
    /// hold it.
    fn flat_index(&self, index: &[usize]) -> (flat: Option<usize>)
        requires
            index@.len() == self.spec_strides().len(),
        ensures
            match flat {
                Some(f) => f == self.flat_position(index@),
                None => self.flat_position(index@) > usize::MAX,
            },
    {
        let mut flat: usize = self.offset;
        let mut i: usize = 0;
        while i < index.len()
            invariant
                i <= index@.len(),
                index@.len() == self.strides@.len(),
                flat == self.offset + dot_upto(index@, self.strides@, i as int),
            decreases index@.len() - i,
        {
            proof {
                lemma_dot_upto_grows(index@, self.strides@, i + 1, index@.len() as int);
            }
            let term = match index[i].checked_mul(self.strides[i]) {
                Some(term) => term,
                None => {
                    return None;
                },
            };
            flat = match flat.checked_add(term) {
                Some(next) => next,
                None => {
                    return None;
                },
            };
            i += 1;
        }
        Some(flat)
    }

    /// The position that `getval` reports when `index` leads nowhere: where
    /// the index leads, as far as a `usize` holds it, or the base of a
    /// tensor without strides.
    pub open spec fn failing_position(&self, index: Seq<usize>) -> usize {
        if self.spec_strides().len() != self.spec_shape().len() {
            self.spec_offset()
        } else if self.flat_position(index) > usize::MAX {
            usize::MAX
        } else {
            self.flat_position(index) as usize
        }
    }

    /// What `getval` returns for `index`: the element, or the kind of
    /// failure.
    pub open spec fn getval_spec(&self, index: Seq<usize>) -> Result<U, IndexFailure> {
        if index.len() != self.spec_shape().len() {
            Err(IndexFailure::Rank)
        } else if self.spec_strides().len() != self.spec_shape().len() || self.flat_position(
            index,
        ) >= self.spec_data().len() {
            Err(IndexFailure::Range)
        } else {
            Ok(self.spec_data()[self.flat_position(index)])
        }
    }

    /// Reads the element at `index`. Fails with `ShapeMismatch` when the
    /// index has not one coordinate per axis, and with `IndexOutOfRange`
    /// when it leads outside the buffer or the tensor has no element.
    pub fn getval(&self, index: &[usize]) -> (r: Result<U, Error>)
        ensures
            match self.getval_spec(index@) {
                Ok(v) => r == Ok::<U, Error>(v),
                Err(IndexFailure::Rank) => r is Err && r->Err_0.is_shape_mismatch(
                    index@,
                    self.spec_shape(),
                ),
                Err(IndexFailure::Range) => r is Err && r->Err_0.is_index_out_of_range(
                    self.failing_position(index@),
                    self.spec_data().len() as usize,
                ),
            },
    {
        let flat = self.position_of(index)?;
        Ok(self.data.get(flat))
    }

    /// The position in the buffer that `index` leads to, or the failure
    /// that `getval` reports for it.
    fn position_of(&self, index: &[usize]) -> (r: Result<usize, Error>)
        ensures
            match self.getval_spec(index@) {
                Ok(v) => r is Ok && r->Ok_0 == self.flat_position(index@) && r->Ok_0
                    < self.spec_data().len(),
                Err(IndexFailure::Rank) => r is Err && r->Err_0.is_shape_mismatch(
                    index@,
                    self.spec_shape(),
                ),
                Err(IndexFailure::Range) => r is Err && r->Err_0.is_index_out_of_range(
                    self.failing_position(index@),
                    self.spec_data().len() as usize,
                ),
            },
    {
        self.check_shape(index, self.shape.as_slice())?;
        if self.strides.len() != self.shape.len() {
            return Err(Error::IndexOutOfRange { index: self.offset, nelems: self.nelems() });
        }
        match self.flat_index(index) {
            Some(flat) => {
                if flat < self.nelems() {
                    Ok(flat)
                } else {
                    Err(Error::IndexOutOfRange { index: flat, nelems: self.nelems() })
                }
            },
            None => Err(Error::IndexOutOfRange { index: usize::MAX, nelems: self.nelems() }),
        }
    }

    /// A read-only view of the whole tensor.
    pub fn view<'b>(&'b self) -> (r: TensorView<'b, U>)
        ensures
            r.layout() == self.layout(),
            r.spec_data() == self.spec_data(),
    {
        TensorView {
            shape: self.shape(),
            strides: self.strides(),
            offset: self.offset,
            data: self.data.as_slice(),
            _u: PhantomData,
            _s: PhantomData,
        }
    }

    /// A read-only view of the buffer under another layout.
    fn view_as<'b>(&'b self, shape: Vec<usize>, strides: Vec<usize>, offset: usize) -> (r:
        TensorView<'b, U>)
        ensures
            r.spec_shape() == shape@,
            r.spec_strides() == strides@,
            r.spec_offset() == offset,
            r.spec_data() == self.spec_data(),
    {
        TensorView {
            shape,
            strides,
            offset,
            data: self.data.as_slice(),
            _u: PhantomData,
            _s: PhantomData,
        }
    }

    /// Shape, strides and offset of the view that has `axis` in front.
    /// Fails with `InvalidAxis` when the tensor has no such axis.
    pub fn axis_impl(&self, axis: usize) -> (r: Result<(Vec<usize>, Vec<usize>, usize), Error>)
        requires
            self.wf(),
        ensures
            axis >= self.spec_shape().len() ==> r is Err && r->Err_0.is_invalid_axis(
                axis,
                self.spec_shape().len() as usize,
            ),
            axis < self.spec_shape().len() ==> r is Ok && as_layout(r->Ok_0) == self.layout().axis(
                axis,
            ) && as_layout(r->Ok_0).fits(self.spec_data().len()),
    {
        let n = self.shape.len();
        if axis >= n {
            return Err(Error::InvalidAxis { axis: axis, ndim: n });
        }
        let dense = self.strides.len() == n;
        let ghost axes = front_axes(axis as int, n as int);
        let mut sl_shape: Vec<usize> = Vec::with_capacity(n);
        let mut sl_strides: Vec<usize> = Vec::with_capacity(n);
        let sl_offset: usize = self.offset;

        sl_shape.push(self.shape[axis]);
        if dense {
            sl_strides.push(self.strides[axis]);
        }
        let mut dim: usize = 0;
        while dim < n
            invariant
                dim <= n,
                axis < n,
                n == self.shape@.len(),
                dense == (self.strides@.len() == n),
                axes == front_axes(axis as int, n as int),
                sl_shape@.len() == (if dim > axis { dim as int } else { dim + 1 }),
                sl_strides@.len() == (if dense { sl_shape@.len() } else { 0 }),
                forall|j: int| 0 <= j < sl_shape@.len() ==> sl_shape@[j] == self.shape@[axes[j] as int],
                dense ==> forall|j: int| 0 <= j < sl_shape@.len() ==> sl_strides@[j]
                    == self.strides@[axes[j] as int],
            decreases n - dim,
        {
            if dim != axis {
                sl_shape.push(self.shape[dim]);
                if dense {
                    sl_strides.push(self.strides[dim]);
                }
            }
            dim += 1;
        }
        proof {
            lemma_front_axes_permutation(axis as int, n as int);
            assert(sl_shape@ =~= select(self.shape@, axes));
            lemma_size_zero_iff(self.shape@);
            lemma_size_zero_iff(sl_shape@);
            super::tensor_layout::lemma_has_zero_select(self.shape@, axes);
            if dense {
                assert(sl_strides@ =~= select(self.strides@, axes));
                if shape_size(self.shape@) != 0 {
                    lemma_layout_fits_select(
                        self.shape@,
                        self.strides@,
                        self.offset,
                        self.spec_data().len(),
                        axes,
                    );
                }
            } else {
                assert(sl_strides@ =~= Seq::<usize>::empty());
            }
        }
        Ok((sl_shape, sl_strides, sl_offset))
    }

    /// The view that has `axis` in front and the other axes behind it as
    /// they stand. Fails with `InvalidAxis` when the tensor has no such
    /// axis.
    pub fn axis<'b>(&'b self, axis: usize) -> (r: Result<TensorView<'b, U>, Error>)
        requires
            self.wf(),
        ensures
            axis >= self.spec_shape().len() ==> r is Err && r->Err_0.is_invalid_axis(
                axis,
                self.spec_shape().len() as usize,
            ),
            axis < self.spec_shape().len() ==> r is Ok && r->Ok_0.layout() == self.layout().axis(
                axis,
            ) && r->Ok_0.spec_data() == self.spec_data() && r->Ok_0.wf(),
    {
        let (sl_shape, sl_strides, sl_offset) = self.axis_impl(axis)?;
        Ok(self.view_as(sl_shape, sl_strides, sl_offset))
    }

    /// Shape, strides and offset of the view that fixes the first axes at
    /// the coordinates of `index`. Fails with `ShapeMismatch` when `index`
    /// is longer than the shape, and with `InvalidSlicing` when one of its
    /// coordinates lies outside its axis.
    fn slice_impl(&self, index: &[usize]) -> (r: Result<(Vec<usize>, Vec<usize>, usize), Error>)
        requires
            self.wf(),
        ensures
            index@.len() > self.spec_shape().len() ==> r is Err && r->Err_0.is_shape_mismatch(
                index@,
                self.spec_shape(),
            ),
            index@.len() <= self.spec_shape().len() && !self.layout().admits(index@) ==> r is Err
                && r->Err_0.is_invalid_slicing(index@, self.spec_shape()),
            self.layout().admits(index@) ==> r is Ok && as_layout(r->Ok_0) == self.layout().slice(
                index@,
            ) && as_layout(r->Ok_0).fits(self.spec_data().len()),
            self.layout().admits(index@) && !self.layout().is_empty() ==> r->Ok_0.2
                == self.flat_position(index@),
    {
        let n = self.shape.len();
        let p = index.len();
        if p > n {
            return Err(
                Error::ShapeMismatch { shape_a: slice_to_vec(index), shape_b: self.shape() },
            );
        }
        let dense = self.strides.len() == n;
        let live = dense && !contains_zero(self.shape.as_slice());
        proof {
            lemma_size_zero_iff(self.shape@);
        }
        let sl_shape = slice_to_vec(slice_subrange(self.shape.as_slice(), p, n));
        let sl_strides = if dense {
            slice_to_vec(slice_subrange(self.strides.as_slice(), p, n))
        } else {
            Vec::new()
        };
        let mut sl_offset: usize = self.offset;
        let mut i: usize = 0;
        while i < p
            invariant
                i <= p <= n,
                p == index@.len(),
                n == self.shape@.len(),
                self.wf(),
                dense == (self.strides@.len() == n),
                live == (dense && shape_size(self.shape@) != 0),
                forall|d: int| 0 <= d < i ==> index@[d] < self.shape@[d],
                live ==> sl_offset == self.offset + dot_upto(index@, self.strides@, i as int),
                !live ==> sl_offset == self.offset,
            decreases p - i,
        {
            if index[i] >= self.shape[i] {
                return Err(
                    Error::InvalidSlicing { slice: slice_to_vec(index), shape: self.shape() },
                );
            }
            if live {
                proof {
                    lemma_dot_upto_monotone(
                        index@,
                        last_index(self.shape@),
                        self.strides@,
                        i + 1,
                    );
                    lemma_dot_upto_grows(
                        last_index(self.shape@),
                        self.strides@,
                        i + 1,
                        n as int,
                    );
                    lemma_dot_upto_grows(index@, self.strides@, i as int, i + 1);
                    assert(dot_upto(index@, self.strides@, i + 1) == dot_upto(
                        index@,
                        self.strides@,
                        i as int,
                    ) + (index@[i as int] as int) * (self.strides@[i as int] as int));
                    assert(self.offset + dot_upto(
                        last_index(self.shape@),
                        self.strides@,
                        n as int,
                    ) < self.spec_data().len());
                    assert(0 <= (index@[i as int] as int) * (self.strides@[i as int] as int))
                        by (nonlinear_arith);
                    self.lemma_nelems_in_range();
                }
                sl_offset += index[i] * self.strides[i];
            }
            i += 1;
        }
        proof {
            assert(self.layout().admits(index@));
            assert(sl_shape@ =~= self.shape@.skip(p as int));
            if dense {
                assert(sl_strides@ =~= self.strides@.skip(p as int));
            } else {
                assert(sl_strides@ =~= Seq::<usize>::empty());
            }
            if live {
                lemma_layout_fits_slice(
                    self.shape@,
                    self.strides@,
                    self.offset,
                    self.spec_data().len(),
                    index@,
                );
            } else {
                lemma_size_zero_iff(self.shape@);
                lemma_size_zero_iff(sl_shape@);
                let z = choose|d: int| 0 <= d < self.shape@.len() && self.shape@[d] == 0;
                if z < p {
                    assert(index@[z] < self.shape@[z]);
                }
                assert(sl_shape@[z - p] == 0);
            }
        }
        Ok((sl_shape, sl_strides, sl_offset))
    }

    /// The view that fixes the first axes at the coordinates of `index`.
    /// Fails with `ShapeMismatch` when `index` is longer than the shape,
    /// and with `InvalidSlicing` when one of its coordinates lies outside
    /// its axis.
    pub fn slice<'b>(&'b self, index: &[usize]) -> (r: Result<TensorView<'b, U>, Error>)
        requires
            self.wf(),
        ensures
            index@.len() > self.spec_shape().len() ==> r is Err && r->Err_0.is_shape_mismatch(
                index@,
                self.spec_shape(),
            ),
            index@.len() <= self.spec_shape().len() && !self.layout().admits(index@) ==> r is Err
                && r->Err_0.is_invalid_slicing(index@, self.spec_shape()),
            self.layout().admits(index@) ==> r is Ok && r->Ok_0.layout() == self.layout().slice(
                index@,
            ) && r->Ok_0.spec_data() == self.spec_data() && r->Ok_0.wf(),
            self.layout().admits(index@) && !self.layout().is_empty() ==> r->Ok_0.spec_offset()
                == self.flat_position(index@),
    {
        let (sl_shape, sl_strides, sl_offset) = self.slice_impl(index)?;
        Ok(self.view_as(sl_shape, sl_strides, sl_offset))
    }

    /// `axis` brought to the front, then the first axes of that view fixed
    /// at the coordinates of `index`. Fails as `axis` does, then as `slice`
    /// does on the view that `axis` gives.
    pub fn axis_slice<'b>(&'b self, axis: usize, index: &[usize]) -> (r: Result<
        TensorView<'b, U>,
        Error,
    >)
        requires
            self.wf(),
        ensures
            axis >= self.spec_shape().len() ==> r is Err && r->Err_0.is_invalid_axis(
                axis,
                self.spec_shape().len() as usize,
            ),
            axis < self.spec_shape().len() && index@.len() > self.spec_shape().len() ==> r is Err
                && r->Err_0.is_shape_mismatch(index@, self.layout().axis(axis).shape),
            axis < self.spec_shape().len() && index@.len() <= self.spec_shape().len()
                && !self.layout().axis(axis).admits(index@) ==> r is Err
                && r->Err_0.is_invalid_slicing(index@, self.layout().axis(axis).shape),
            axis < self.spec_shape().len() && self.layout().axis(axis).admits(index@) ==> r is Ok
                && r->Ok_0.layout() == self.layout().axis(axis).slice(index@)
                && r->Ok_0.spec_data() == self.spec_data() && r->Ok_0.wf(),
    {
        let view = self.axis(axis)?;
        let (sl_shape, sl_strides, sl_offset) = view.slice_impl(index)?;
        Ok(self.view_as(sl_shape, sl_strides, sl_offset))
    }

    /// Shape, strides and offset of the view that keeps the rows of
    /// `range` along axis 0.
    fn batch_impl(&self, range: Range<usize>) -> (r: Result<(Vec<usize>, Vec<usize>, usize), Error>)
        requires
            self.wf(),
            self.spec_shape().len() >= 1,
            range.start <= range.end <= self.spec_shape()[0],
            range.start == self.spec_shape()[0] ==> self.layout().row_start_fits(range.start),
        ensures
            r is Ok,
            as_layout(r->Ok_0) == self.layout().batch(range.start, range.end),
            as_layout(r->Ok_0).fits(self.spec_data().len()),
            !self.layout().is_empty() ==> r->Ok_0.2 == self.spec_offset() + range.start
                * self.spec_strides()[0],
    {
        let n = self.shape.len();
        let rows = range.end - range.start;
        let mut shape = self.shape();
        shape[0] = rows;
        let strides = self.strides();
        proof {
            lemma_size_zero_iff(self.shape@);
            lemma_size_zero_iff(shape@);
            self.lemma_nelems_in_range();
        }
        if strides.len() != n || contains_zero(self.shape.as_slice()) {
            proof {
                let z = choose|d: int| 0 <= d < self.shape@.len() && self.shape@[d] == 0;
                assert(shape@[z] == 0);
            }
            return Ok((shape, strides, self.offset));
        }
        proof {
            if range.start < self.shape@[0] {
                lemma_layout_fits_batch(
                    self.shape@,
                    self.strides@,
                    self.offset,
                    self.spec_data().len(),
                    range.start,
                    (range.start + 1) as usize,
                );
            }
            if rows > 0 {
                lemma_layout_fits_batch(
                    self.shape@,
                    self.strides@,
                    self.offset,
                    self.spec_data().len(),
                    range.start,
                    range.end,
                );
            } else {
                assert(shape@[0] == 0);
            }
        }
        let offset = self.offset + range.start * strides[0];
        Ok((shape, strides, offset))
    }

    /// The view that keeps the rows of `range` along axis 0: that axis
    /// shrinks to the length of the range, the strides stay, and the view
    /// starts at the range's first row. The range lies within the rows of
    /// the tensor, which has at least one axis; an empty range behind the
    /// last row starts at a position that a `usize` holds.
    pub fn batch<'b>(&'b self, range: Range<usize>) -> (r: Result<TensorView<'b, U>, Error>)
        requires
            self.wf(),
            self.spec_shape().len() >= 1,
            range.start <= range.end <= self.spec_shape()[0],
            range.start == self.spec_shape()[0] ==> self.layout().row_start_fits(range.start),
        ensures
            r is Ok,
            r->Ok_0.layout() == self.layout().batch(range.start, range.end),
            r->Ok_0.spec_data() == self.spec_data(),
            r->Ok_0.wf(),
            !self.layout().is_empty() ==> r->Ok_0.spec_offset() == self.spec_offset() + range.start
                * self.spec_strides()[0],
    {
        let (shape, strides, offset) = self.batch_impl(range)?;
        Ok(self.view_as(shape, strides, offset))
    }

    /// Shape and strides with the axes in the order `axes`. Fails with
    /// `DimensionMismatch` unless `axes` has one entry per axis.
    fn permute_impl(&self, axes: &[usize]) -> (r: Result<(Vec<usize>, Vec<usize>), Error>)
        requires
            self.wf(),
            axes@.len() == self.spec_shape().len() ==> is_permutation(axes@, axes@.len() as int),
        ensures
            axes@.len() != self.spec_shape().len() ==> r is Err && r->Err_0.is_dimension_mismatch(
                self.spec_shape().len() as usize,
                axes@.len() as usize,
            ),
            axes@.len() == self.spec_shape().len() ==> r is Ok && as_layout(
                (r->Ok_0.0, r->Ok_0.1, self.spec_offset()),
            ) == self.layout().permute(axes@) && self.layout().permute(axes@).fits(
                self.spec_data().len(),
            ),
    {
        let n = self.shape.len();
        if axes.len() != n {
            return Err(Error::DimensionMismatch { tensor_dim: n, dim: axes.len() });
        }
        let dense = self.strides.len() == n;
        let mut shape: Vec<usize> = Vec::with_capacity(n);
        let mut strides: Vec<usize> = Vec::with_capacity(n);
        let mut j: usize = 0;
        while j < n
            invariant
                j <= n,
                n == self.shape@.len(),
                n == axes@.len(),
                is_permutation(axes@, n as int),
                dense == (self.strides@.len() == n),
                shape@.len() == j,
                strides@.len() == (if dense { j } else { 0 }),
                forall|k: int| 0 <= k < j ==> shape@[k] == self.shape@[axes@[k] as int],
                dense ==> forall|k: int| 0 <= k < j ==> strides@[k] == self.strides@[axes@[k] as int],
            decreases n - j,
        {
            let axis = axes[j];
            shape.push(self.shape[axis]);
            if dense {
                strides.push(self.strides[axis]);
            }
            j += 1;
        }
        proof {
            assert(shape@ =~= select(self.shape@, axes@));
            lemma_size_zero_iff(self.shape@);
            lemma_size_zero_iff(shape@);
            super::tensor_layout::lemma_has_zero_select(self.shape@, axes@);
            if dense {
                assert(strides@ =~= select(self.strides@, axes@));
                if shape_size(self.shape@) != 0 {
                    lemma_layout_fits_select(
                        self.shape@,
                        self.strides@,
                        self.offset,
                        self.spec_data().len(),
                        axes@,
                    );
                }
            } else {
                assert(strides@ =~= Seq::<usize>::empty());
            }
        }
        Ok((shape, strides))
    }

    /// The view with the axes in the order `axes`, which names each axis
    /// once. Fails with `DimensionMismatch` unless `axes` has one entry
    /// per axis.
    pub fn permute<'b>(&'b self, axes: &[usize]) -> (r: Result<TensorView<'b, U>, Error>)
        requires
            self.wf(),
            axes@.len() == self.spec_shape().len() ==> is_permutation(axes@, axes@.len() as int),
        ensures
            axes@.len() != self.spec_shape().len() ==> r is Err && r->Err_0.is_dimension_mismatch(
                self.spec_shape().len() as usize,
                axes@.len() as usize,
            ),
            axes@.len() == self.spec_shape().len() ==> r is Ok && r->Ok_0.layout()
                == self.layout().permute(axes@) && r->Ok_0.spec_data() == self.spec_data()
                && r->Ok_0.wf(),
    {
        let (shape, strides) = self.permute_impl(axes)?;
        Ok(self.view_as(shape, strides, self.offset))
    }

    /// The axes of the tensor, last first.
    fn reversed(&self) -> (axes: Vec<usize>)
        ensures
            axes@ == reversed_axes(self.spec_shape().len() as int),
            is_permutation(axes@, self.spec_shape().len() as int),
    {
        let n = self.shape.len();
        let mut axes: Vec<usize> = Vec::with_capacity(n);
        let mut j: usize = 0;
        while j < n
            invariant
                j <= n,
                axes@.len() == j,
                forall|k: int| 0 <= k < j ==> axes@[k] == n - 1 - k,
            decreases n - j,
        {
            axes.push(n - 1 - j);
            j += 1;
        }
        proof {
            assert(axes@ =~= reversed_axes(n as int));
            lemma_reversed_axes_permutation(n as int);
        }
        axes
    }

    /// The view with the axes in reverse order.
    pub fn transpose<'b>(&'b self) -> (r: Result<TensorView<'b, U>, Error>)
        requires
            self.wf(),
        ensures
            r is Ok,
            r->Ok_0.layout() == self.layout().transpose(),
            r->Ok_0.spec_data() == self.spec_data(),
            r->Ok_0.wf(),
    {
        let t_axes = self.reversed();
        let (shape, strides) = self.permute_impl(t_axes.as_slice())?;
        Ok(self.view_as(shape, strides, self.offset))
    }

    /// The view with the axes in reverse order.
    pub fn t<'b>(&'b self) -> (r: Result<TensorView<'b, U>, Error>)
        requires
            self.wf(),
        ensures
            r is Ok,
            r->Ok_0.layout() == self.layout().transpose(),
            r->Ok_0.spec_data() == self.spec_data(),
            r->Ok_0.wf(),
    {
        self.transpose()
    }

    /// Shape and strides of the view that keeps axis 0 and merges the
    /// others.
    fn flatten_impl(&self) -> (r: Result<(Vec<usize>, Vec<usize>), Error>)
        requires
            self.wf(),
            self.layout().is_contiguous(),
            self.spec_shape().len() >= 1,
            shape_size(self.spec_shape()) <= usize::MAX,
            tail_size(self.spec_shape(), 1) <= usize::MAX,
        ensures
            r is Ok,
            as_layout((r->Ok_0.0, r->Ok_0.1, self.spec_offset())) == self.layout().flatten(),
            self.layout().flatten().fits(self.spec_data().len()),
    {
        let n = self.shape.len();
        proof {
            lemma_tail_size_skip(self.shape@, 1, 0);
            assert(self.shape@.subrange(1, n as int) =~= self.shape@.skip(1));
        }
        let rest = checked_shape_size(slice_subrange(self.shape.as_slice(), 1, n));
        let width = rest.unwrap();
        let mut shape_fl: Vec<usize> = Vec::with_capacity(2);
        shape_fl.push(self.shape[0]);
        shape_fl.push(width);
        let mut strides_fl: Vec<usize> = Vec::with_capacity(2);
        if self.strides.len() == n {
            strides_fl.push(width);
            strides_fl.push(1);
        }
        proof {
            let flat = self.layout().flatten();
            assert(shape_fl@ =~= flat.shape);
            lemma_size_zero_iff(self.shape@);
            lemma_size_zero_iff(shape_fl@);
            if shape_size(self.shape@) != 0 {
                lemma_layout_fits_flatten(self.layout(), self.spec_data().len());
                assert(strides_fl@ =~= flat.strides);
            } else {
                assert(strides_fl@ =~= flat.strides);
                let z = choose|d: int| 0 <= d < self.shape@.len() && self.shape@[d] == 0;
                if z == 0 {
                    assert(shape_fl@[0] == 0);
                } else {
                    super::tensor_layout::lemma_tail_size_zero(self.shape@, 1, z);
                    assert(shape_fl@[1] == 0);
                }
            }
        }
        Ok((shape_fl, strides_fl))
    }

    /// The view that keeps axis 0 and merges all the others into one, for
    /// a tensor in row-major order.
    pub fn flatten<'b>(&'b self) -> (r: Result<TensorView<'b, U>, Error>)
        requires
            self.wf(),
            self.layout().is_contiguous(),
            self.spec_shape().len() >= 1,
            shape_size(self.spec_shape()) <= usize::MAX,
            tail_size(self.spec_shape(), 1) <= usize::MAX,
        ensures
            r is Ok,
            r->Ok_0.layout() == self.layout().flatten(),
            r->Ok_0.spec_data() == self.spec_data(),
            r->Ok_0.wf(),
    {
        let (shape, strides) = self.flatten_impl()?;
        Ok(self.view_as(shape, strides, self.offset))
    }

    /// The elements of the tensor along its first axis at the other
    /// coordinates `rest`.
    fn lane_at(&self, rest: &Vec<usize>) -> (lane: Vec<U>)
        requires
            self.wf(),
            self.spec_shape().len() >= 1,
            valid_index(rest@, self.spec_shape().skip(1)),
        ensures
            lane@.len() == self.spec_shape()[0],
            forall|i: int|
                0 <= i < lane@.len() ==> #[trigger] lane@[i] == self.spec_data()[self.flat_position(
                    seq![i as usize] + rest@,
                )],
    {
        let along = self.shape[0];
        let mut lane: Vec<U> = Vec::with_capacity(along);
        let mut i: usize = 0;
        while i < along
            invariant
                i <= along,
                along == self.spec_shape()[0],
                self.wf(),
                self.spec_shape().len() >= 1,
                valid_index(rest@, self.spec_shape().skip(1)),
                lane@.len() == i,
                forall|k: int|
                    0 <= k < i ==> #[trigger] lane@[k] == self.spec_data()[self.flat_position(
                        seq![k as usize] + rest@,
                    )],
            decreases along - i,
        {
            let mut full: Vec<usize> = Vec::with_capacity(self.shape.len());
            full.push(i);
            full.extend_from_slice(rest.as_slice());
            proof {
                let index = seq![i] + rest@;
                assert(full@ =~= index);
                assert forall|d: int| 0 <= d < self.shape@.len() implies index[d]
                    < self.shape@[d] by {
                    if d > 0 {
                        assert(index[d] == rest@[d - 1]);
                        assert(self.shape@.skip(1)[d - 1] == self.shape@[d]);
                    }
                }
                lemma_size_zero_iff(self.shape@);
                if has_zero(self.shape@) {
                    let z = choose|d: int| 0 <= d < self.shape@.len() && self.shape@[d] == 0;
                    assert(index[z] < self.shape@[z]);
                }
                lemma_dot_within_extent(index, self.shape@, self.strides@);
            }
            lane.push(self.getval(full.as_slice()).unwrap());
            i += 1;
        }
        lane
    }

    /// The elements of the tensor in lanes along `axis`: one lane for each
    /// setting of the other coordinates, the settings in row-major order,
    /// and in each lane the elements as the coordinate along `axis` grows.
    /// Fails with `InvalidAxis` when the tensor has no such axis.
    pub fn lanes(&self, axis: usize) -> (r: Result<Vec<Vec<U>>, Error>)
        requires
            self.wf(),
        ensures
            axis >= self.spec_shape().len() ==> r is Err && r->Err_0.is_invalid_axis(
                axis,
                self.spec_shape().len() as usize,
            ),
            axis < self.spec_shape().len() ==> r is Ok && are_lanes(
                r->Ok_0@,
                self.layout().axis(axis),
                self.spec_data(),
            ),
    {
        let view = self.axis(axis)?;
        let n = view.shape.len();
        let rest = slice_subrange(view.shape.as_slice(), 1, n);
        let ghost turned = view.layout();
        let ghost data = view.spec_data();
        assert(rest@ =~= turned.shape.skip(1));
        let mut lanes: Vec<Vec<U>> = Vec::new();
        if n == 1 {
            let none: Vec<usize> = Vec::new();
            proof {
                assert(shape_size(rest@) == 1);
                assert(nth_index(rest@, 0) =~= none@);
            }
            let lane = view.lane_at(&none);
            lanes.push(lane);
            return Ok(lanes);
        }
        let mut at = cursor_start(rest);
        let ghost total = shape_size(rest@);
        while at[0] < rest[0]
            invariant
                view.wf(),
                view.layout() == turned,
                view.spec_data() == data,
                rest@ == turned.shape.skip(1),
                turned.shape.len() >= 2,
                total == shape_size(rest@),
                odometer_wf(at@, rest@),
                lanes@.len() == total - cursor_left(at@, rest@),
                0 <= cursor_left(at@, rest@) <= total,
                forall|q: int|
                    0 <= q < lanes@.len() ==> (#[trigger] lanes@[q])@.len() == turned.shape[0],
                forall|q: int, i: int|
                    0 <= q < lanes@.len() && 0 <= i < turned.shape[0] ==> #[trigger] lanes@[q]@[i]
                        == data[turned.position(seq![i as usize] + nth_index(rest@, q))],
            decreases cursor_left(at@, rest@),
        {
            proof {
                lemma_nth_index_valid(rest@, ravel(at@, rest@));
            }
            let lane = view.lane_at(&at);
            lanes.push(lane);
            odometer_step(&mut at, rest);
        }
        Ok(lanes)
    }

    /// The greatest of the elements that the tensor shows, or the smallest
    /// value of the element type when it shows none. The tensor has at
    /// least one axis.
    pub fn max(&self) -> (r: U)
        requires
            self.wf(),
            self.spec_shape().len() >= 1,
        ensures
            is_max_of(r, self.elements()),
    {
        let mut max = U::min_value();
        let ghost all = self.elements();
        let ghost mut seen: int = 0;
        let mut it = self.iter();
        loop
            invariant
                it.wf(),
                0 <= seen <= all.len(),
                it.remaining() == all.skip(seen),
                is_max_of(max, all.take(seen)),
            ensures
                seen == all.len(),
            decreases it.remaining().len(),
        {
            match it.next() {
                Some(val) => {
                    proof {
                        val.lemma_val_in_range();
                        assert(all.skip(seen)[0] == all[seen]);
                        assert(all.skip(seen).skip(1) =~= all.skip(seen + 1));
                        assert(all.take(seen + 1) =~= all.take(seen).push(all[seen]));
                    }
                    let ghost prev = max;
                    if max.less_than(val) {
                        max = val;
                    }
                    proof {
                        let wider = all.take(seen + 1);
                        assert forall|i: int| 0 <= i < wider.len() implies (#[trigger] wider[i]).val()
                            <= max.val() by {
                            if i < seen {
                                assert(wider[i] == all.take(seen)[i]);
                            }
                        }
                        if max == val {
                            assert(wider[seen] == max);
                        } else if seen > 0 {
                            let i = choose|i: int| 0 <= i < seen && all.take(seen)[i] == prev;
                            assert(wider[i] == max);
                        } else {
                            U::lemma_val_determines(val, max);
                        }
                        seen = seen + 1;
                    }
                },
                None => {
                    break ;
                },
            }
        }
        assert(all.take(seen) =~= all);
        max
    }

    /// The least of the elements that the tensor shows, or the greatest
    /// value of the element type when it shows none. The tensor has at
    /// least one axis.
    pub fn min(&self) -> (r: U)
        requires
            self.wf(),
            self.spec_shape().len() >= 1,
        ensures
            is_min_of(r, self.elements()),
    {
        let mut min = U::max_value();
        let ghost all = self.elements();
        let ghost mut seen: int = 0;
        let mut it = self.iter();
        loop
            invariant
                it.wf(),
                0 <= seen <= all.len(),
                it.remaining() == all.skip(seen),
                is_min_of(min, all.take(seen)),
            ensures
                seen == all.len(),
            decreases it.remaining().len(),
        {
            match it.next() {
                Some(val) => {
                    proof {
                        val.lemma_val_in_range();
                        assert(all.skip(seen)[0] == all[seen]);
                        assert(all.skip(seen).skip(1) =~= all.skip(seen + 1));
                        assert(all.take(seen + 1) =~= all.take(seen).push(all[seen]));
                    }
                    let ghost prev = min;
                    if val.less_than(min) {
                        min = val;
                    }
                    proof {
                        let wider = all.take(seen + 1);
                        assert forall|i: int| 0 <= i < wider.len() implies (#[trigger] wider[i]).val()
                            >= min.val() by {
                            if i < seen {
                                assert(wider[i] == all.take(seen)[i]);
                            }
                        }
                        if min == val {
                            assert(wider[seen] == min);
                        } else if seen > 0 {
                            let i = choose|i: int| 0 <= i < seen && all.take(seen)[i] == prev;
                            assert(wider[i] == min);
                        } else {
                            U::lemma_val_determines(val, min);
                        }
                        seen = seen + 1;
                    }
                },
                None => {
                    break ;
                },
            }
        }
        assert(all.take(seen) =~= all);
        min
    }

    /// The text of the part of the tensor under the index prefix
    /// `indices`.
    fn print_recursive(&self, depth: usize, indices: &mut Vec<usize>) -> (r: String)
        requires
            self.wf(),
            old(indices)@.len() == depth <= self.spec_shape().len(),
            forall|d: int| 0 <= d < depth ==> old(indices)@[d] < self.spec_shape()[d],
        ensures
            final(indices)@ == old(indices)@,
            r@ == text_of(self.layout(), self.spec_data(), old(indices)@),
        decreases self.spec_shape().len() - depth,
    {
        if depth == self.ndim() {
            proof {
                lemma_size_zero_iff(self.shape@);
                if has_zero(self.shape@) {
                    let z = choose|d: int| 0 <= d < self.shape@.len() && self.shape@[d] == 0;
                    assert(indices@[z] < self.shape@[z]);
                }
                lemma_dot_within_extent(indices@, self.shape@, self.strides@);
            }
            self.getval(indices.as_slice()).unwrap().to_text()
        } else {
            let ghost prefix = indices@;
            let count = self.shape[depth];
            let mut text = String::from_str("[");
            let mut index: usize = 0;
            while index < count
                invariant
                    index <= count,
                    count == self.spec_shape()[depth as int],
                    self.wf(),
                    depth < self.spec_shape().len(),
                    depth < usize::MAX,
                    prefix.len() == depth,
                    indices@ == prefix,
                    forall|d: int| 0 <= d < depth ==> prefix[d] < self.spec_shape()[d],
                    text@ == "["@ + text_row(
                        self.layout(),
                        self.spec_data(),
                        prefix,
                        index as int,
                    ),
                decreases count - index,
            {
                if index > 0 {
                    text.append(", ");
                }
                indices.push(index);
                let part = self.print_recursive(depth + 1, indices);
                text.append(part.as_str());
                indices.pop();
                assert(indices@ =~= prefix);
                assert(text@ =~= "["@ + text_row(
                    self.layout(),
                    self.spec_data(),
                    prefix,
                    index + 1,
                ));
                index += 1;
            }
            text.append("]");
            text
        }
    }

    /// The tensor as nested brackets, the elements in decimal and
    /// separated by a comma and a space: `[[1, 2, 3], [4, 5, 6]]`.
    pub fn print(&self) -> (r: String)
        requires
            self.wf(),
        ensures
            r@ == text_of(self.layout(), self.spec_data(), Seq::empty()),
    {
        let mut indices: Vec<usize> = Vec::with_capacity(self.shape.len());
        self.print_recursive(0, &mut indices)
    }

    /// Fails with `ShapeMismatch` unless the two shapes have the same
    /// number of axes.
    #[inline(always)]
    fn check_shape(&self, shape_a: &[usize], shape_b: &[usize]) -> (r: Result<bool, Error>)
        ensures
            shape_a@.len() == shape_b@.len() ==> r == Ok::<bool, Error>(true),
            shape_a@.len() != shape_b@.len() ==> r is Err && r->Err_0.is_shape_mismatch(
                shape_a@,
                shape_b@,
            ),
    {
        if shape_a.len() != shape_b.len() {
            return Err(
                Error::ShapeMismatch {
                    shape_a: slice_to_vec(shape_a),
                    shape_b: slice_to_vec(shape_b),
                },
            );
        }
        Ok(true)
    }
}

impl<'a, U> TensorBase<'a, U, Vec<U>> where U: TensorTypeNumeric {
    /// Writes `val` at `index`. Fails as `getval` does, and then leaves
    /// the buffer as it is.
    pub fn setval(&mut self, index: &[usize], val: U) -> (r: Result<bool, Error>)
        ensures
            final(self).layout() == old(self).layout(),
            old(self).wf() ==> final(self).wf(),
            match old(self).getval_spec(index@) {
                Ok(v) => r == Ok::<bool, Error>(true) && final(self).spec_data() == old(
                    self,
                ).spec_data().update(old(self).flat_position(index@), val),
                Err(IndexFailure::Rank) => r is Err && r->Err_0.is_shape_mismatch(
                    index@,
                    old(self).spec_shape(),
                ) && final(self).spec_data() == old(self).spec_data(),
                Err(IndexFailure::Range) => r is Err && r->Err_0.is_index_out_of_range(
                    old(self).failing_position(index@),
                    old(self).spec_data().len() as usize,
                ) && final(self).spec_data() == old(self).spec_data(),
            },
    {
        let flat = self.position_of(index)?;
        self.data[flat] = val;
        Ok(true)
    }
}

impl<'a, U> TensorBase<'a, U, &'a mut [U]> where U: TensorTypeNumeric {
    /// Writes `val` at `index`, through the view into the buffer that the
    /// view was borrowed from. Fails as `getval` does, and then leaves the
    /// buffer as it is.
    pub fn setval(&mut self, index: &[usize], val: U) -> (r: Result<bool, Error>)
        ensures
            final(final(self).data)@ == final(old(self).data)@,
            final(self).layout() == old(self).layout(),
            old(self).wf() ==> final(self).wf(),
            match old(self).getval_spec(index@) {
                Ok(v) => r == Ok::<bool, Error>(true) && final(self).spec_data() == old(
                    self,
                ).spec_data().update(old(self).flat_position(index@), val),
                Err(IndexFailure::Rank) => r is Err && r->Err_0.is_shape_mismatch(
                    index@,
                    old(self).spec_shape(),
                ) && final(self).spec_data() == old(self).spec_data(),
                Err(IndexFailure::Range) => r is Err && r->Err_0.is_index_out_of_range(
                    old(self).failing_position(index@),
                    old(self).spec_data().len() as usize,
                ) && final(self).spec_data() == old(self).spec_data(),
            },
    {
        let flat = self.position_of(index)?;
        self.data[flat] = val;
        Ok(true)
    }
}

impl<'a, U> TensorBase<'a, U, Vec<U>> where U: TensorTypeNumeric {
    /// A writable view of the buffer under another layout.
    fn view_mut_as<'b>(&'b mut self, shape: Vec<usize>, strides: Vec<usize>, offset: usize) -> (r:
        TensorViewMut<'b, U>)
        ensures
            r.spec_shape() == shape@,
            r.spec_strides() == strides@,
            r.spec_offset() == offset,
            r.spec_data() == old(self).spec_data(),
            final(self).layout() == old(self).layout(),
            final(self).spec_data() == final(r.data)@,
    {
        TensorViewMut {
            shape,
            strides,
            offset,
            data: self.data.as_mut_slice(),
            _u: PhantomData,
            _s: PhantomData,
        }
    }

    /// The writable view that has `axis` in front. Fails as `axis` does.
    pub fn axis_mut<'b>(&'b mut self, axis: usize) -> (r: Result<TensorViewMut<'b, U>, Error>)
        requires
            old(self).wf(),
        ensures
            final(self).layout() == old(self).layout(),
            axis >= old(self).spec_shape().len() ==> r is Err && r->Err_0.is_invalid_axis(
                axis,
                old(self).spec_shape().len() as usize,
            ) && final(self).spec_data() == old(self).spec_data(),
            axis < old(self).spec_shape().len() ==> r is Ok && r->Ok_0.layout() == old(
                self,
            ).layout().axis(axis) && r->Ok_0.spec_data() == old(self).spec_data()
                && r->Ok_0.wf() && final(self).spec_data() == final(r->Ok_0.data)@,
    {
        let (sl_shape, sl_strides, sl_offset) = self.axis_impl(axis)?;
        Ok(self.view_mut_as(sl_shape, sl_strides, sl_offset))
    }

    /// The writable view that fixes the first axes at the coordinates of
    /// `index`. Fails as `slice` does.
    pub fn slice_mut<'b>(&'b mut self, index: &[usize]) -> (r: Result<TensorViewMut<'b, U>, Error>)
        requires
            old(self).wf(),
        ensures
            final(self).layout() == old(self).layout(),
            r is Err ==> final(self).spec_data() == old(self).spec_data(),
            index@.len() > old(self).spec_shape().len() ==> r is Err
                && r->Err_0.is_shape_mismatch(index@, old(self).spec_shape()),
            index@.len() <= old(self).spec_shape().len() && !old(self).layout().admits(index@)
                ==> r is Err && r->Err_0.is_invalid_slicing(index@, old(self).spec_shape()),
            old(self).layout().admits(index@) ==> r is Ok && r->Ok_0.layout() == old(
                self,
            ).layout().slice(index@) && r->Ok_0.spec_data() == old(self).spec_data()
                && r->Ok_0.wf() && final(self).spec_data() == final(r->Ok_0.data)@,
            old(self).layout().admits(index@) && !old(self).layout().is_empty()
                ==> r->Ok_0.spec_offset() == old(self).flat_position(index@),
    {
        let (sl_shape, sl_strides, sl_offset) = self.slice_impl(index)?;
        Ok(self.view_mut_as(sl_shape, sl_strides, sl_offset))
    }

    /// The writable view with the axes in the order `axes`. Fails as
    /// `permute` does.
    pub fn permute_mut<'b>(&'b mut self, axes: &[usize]) -> (r: Result<TensorViewMut<'b, U>, Error>)
        requires
            old(self).wf(),
            axes@.len() == old(self).spec_shape().len() ==> is_permutation(
                axes@,
                axes@.len() as int,
            ),
        ensures
            final(self).layout() == old(self).layout(),
            axes@.len() != old(self).spec_shape().len() ==> r is Err
                && r->Err_0.is_dimension_mismatch(
                old(self).spec_shape().len() as usize,
                axes@.len() as usize,
            ) && final(self).spec_data() == old(self).spec_data(),
            axes@.len() == old(self).spec_shape().len() ==> r is Ok && r->Ok_0.layout() == old(
                self,
            ).layout().permute(axes@) && r->Ok_0.spec_data() == old(self).spec_data()
                && r->Ok_0.wf() && final(self).spec_data() == final(r->Ok_0.data)@,
    {
        let (shape, strides) = self.permute_impl(axes)?;
        let offset = self.offset;
        Ok(self.view_mut_as(shape, strides, offset))
    }

    /// The writable view with the axes in reverse order.
    pub fn transpose_mut<'b>(&'b mut self) -> (r: Result<TensorViewMut<'b, U>, Error>)
        requires
            old(self).wf(),
        ensures
            final(self).layout() == old(self).layout(),
            r is Ok,
            r->Ok_0.layout() == old(self).layout().transpose(),
            r->Ok_0.spec_data() == old(self).spec_data(),
            r->Ok_0.wf(),
            final(self).spec_data() == final(r->Ok_0.data)@,
    {
        let t_axes = self.reversed();
        let (shape, strides) = self.permute_impl(t_axes.as_slice())?;
        let offset = self.offset;
        Ok(self.view_mut_as(shape, strides, offset))
    }

    /// The writable view with the axes in reverse order.
    pub fn t_mut<'b>(&'b mut self) -> (r: Result<TensorViewMut<'b, U>, Error>)
        requires
            old(self).wf(),
        ensures
            final(self).layout() == old(self).layout(),
            r is Ok,
            r->Ok_0.layout() == old(self).layout().transpose(),
            r->Ok_0.spec_data() == old(self).spec_data(),
            r->Ok_0.wf(),
            final(self).spec_data() == final(r->Ok_0.data)@,
    {
        self.transpose_mut()
    }

    /// The writable view that keeps axis 0 and merges all the others into
    /// one, for a tensor in row-major order.
    pub fn flatten_mut<'b>(&'b mut self) -> (r: Result<TensorViewMut<'b, U>, Error>)
        requires
            old(self).wf(),
            old(self).layout().is_contiguous(),
            old(self).spec_shape().len() >= 1,
            shape_size(old(self).spec_shape()) <= usize::MAX,
            tail_size(old(self).spec_shape(), 1) <= usize::MAX,
        ensures
            final(self).layout() == old(self).layout(),
            r is Ok,
            r->Ok_0.layout() == old(self).layout().flatten(),
            r->Ok_0.spec_data() == old(self).spec_data(),
            r->Ok_0.wf(),
            final(self).spec_data() == final(r->Ok_0.data)@,
    {
        let (shape, strides) = self.flatten_impl()?;
        let offset = self.offset;
        Ok(self.view_mut_as(shape, strides, offset))
    }

    /// A writable view of the whole tensor. What is written through it is
    /// written to the tensor.
    pub fn view_mut<'b>(&'b mut self) -> (r: TensorViewMut<'b, U>)
        requires
            old(self).wf(),
        ensures
            r.layout() == old(self).layout(),
            r.spec_data() == old(self).spec_data(),
            r.wf(),
            final(self).layout() == old(self).layout(),
            final(self).spec_data() == final(r.data)@,
    {
        let shape = self.shape();
        let strides = self.strides();
        let offset = self.offset;
        self.view_mut_as(shape, strides, offset)
    }
}

impl<'a, U> TensorBase<'a, U, &'a mut [U]> where U: TensorTypeNumeric {
    /// A writable view of the buffer under another layout, borrowed from
    /// this view.
    fn view_mut_as<'b>(&'b mut self, shape: Vec<usize>, strides: Vec<usize>, offset: usize) -> (r:
        TensorViewMut<'b, U>)
        ensures
            r.spec_shape() == shape@,
            r.spec_strides() == strides@,
            r.spec_offset() == offset,
            r.spec_data() == old(self).spec_data(),
            final(self).layout() == old(self).layout(),
            final(final(self).data)@ == final(old(self).data)@,
            final(self).spec_data() == final(r.data)@,
    {
        TensorViewMut {
            shape,
            strides,
            offset,
            data: &mut *self.data,
            _u: PhantomData,
            _s: PhantomData,
        }
    }

    /// The writable view that has `axis` in front. Fails as `axis` does.
    pub fn axis_mut<'b>(&'b mut self, axis: usize) -> (r: Result<TensorViewMut<'b, U>, Error>)
        requires
            old(self).wf(),
        ensures
            final(self).layout() == old(self).layout(),
            final(final(self).data)@ == final(old(self).data)@,
            axis >= old(self).spec_shape().len() ==> r is Err && r->Err_0.is_invalid_axis(
                axis,
                old(self).spec_shape().len() as usize,
            ) && final(self).spec_data() == old(self).spec_data(),
            axis < old(self).spec_shape().len() ==> r is Ok && r->Ok_0.layout() == old(
                self,
            ).layout().axis(axis) && r->Ok_0.spec_data() == old(self).spec_data()
                && r->Ok_0.wf() && final(self).spec_data() == final(r->Ok_0.data)@,
    {
        let (sl_shape, sl_strides, sl_offset) = self.axis_impl(axis)?;
        Ok(self.view_mut_as(sl_shape, sl_strides, sl_offset))
    }

    /// The writable view that fixes the first axes at the coordinates of
    /// `index`. Fails as `slice` does.
    pub fn slice_mut<'b>(&'b mut self, index: &[usize]) -> (r: Result<TensorViewMut<'b, U>, Error>)
        requires
            old(self).wf(),
        ensures
            final(self).layout() == old(self).layout(),
            final(final(self).data)@ == final(old(self).data)@,
            r is Err ==> final(self).spec_data() == old(self).spec_data(),
            index@.len() > old(self).spec_shape().len() ==> r is Err
                && r->Err_0.is_shape_mismatch(index@, old(self).spec_shape()),
            index@.len() <= old(self).spec_shape().len() && !old(self).layout().admits(index@)
                ==> r is Err && r->Err_0.is_invalid_slicing(index@, old(self).spec_shape()),
            old(self).layout().admits(index@) ==> r is Ok && r->Ok_0.layout() == old(
                self,
            ).layout().slice(index@) && r->Ok_0.spec_data() == old(self).spec_data()
                && r->Ok_0.wf() && final(self).spec_data() == final(r->Ok_0.data)@,
            old(self).layout().admits(index@) && !old(self).layout().is_empty()
                ==> r->Ok_0.spec_offset() == old(self).flat_position(index@),
    {
        let (sl_shape, sl_strides, sl_offset) = self.slice_impl(index)?;
        Ok(self.view_mut_as(sl_shape, sl_strides, sl_offset))
    }

    /// The writable view with the axes in the order `axes`. Fails as
    /// `permute` does.
    pub fn permute_mut<'b>(&'b mut self, axes: &[usize]) -> (r: Result<TensorViewMut<'b, U>, Error>)
        requires
            old(self).wf(),
            axes@.len() == old(self).spec_shape().len() ==> is_permutation(
                axes@,
                axes@.len() as int,
            ),
        ensures
            final(self).layout() == old(self).layout(),
            final(final(self).data)@ == final(old(self).data)@,
            axes@.len() != old(self).spec_shape().len() ==> r is Err
                && r->Err_0.is_dimension_mismatch(
                old(self).spec_shape().len() as usize,
                axes@.len() as usize,
            ) && final(self).spec_data() == old(self).spec_data(),
            axes@.len() == old(self).spec_shape().len() ==> r is Ok && r->Ok_0.layout() == old(
                self,
            ).layout().permute(axes@) && r->Ok_0.spec_data() == old(self).spec_data()
                && r->Ok_0.wf() && final(self).spec_data() == final(r->Ok_0.data)@,
    {
        let (shape, strides) = self.permute_impl(axes)?;
        let offset = self.offset;
        Ok(self.view_mut_as(shape, strides, offset))
    }

    /// The writable view with the axes in reverse order.
    pub fn transpose_mut<'b>(&'b mut self) -> (r: Result<TensorViewMut<'b, U>, Error>)
        requires
            old(self).wf(),
        ensures
            final(self).layout() == old(self).layout(),
            final(final(self).data)@ == final(old(self).data)@,
            r is Ok,
            r->Ok_0.layout() == old(self).layout().transpose(),
            r->Ok_0.spec_data() == old(self).spec_data(),
            r->Ok_0.wf(),
            final(self).spec_data() == final(r->Ok_0.data)@,
    {
        let t_axes = self.reversed();
        let (shape, strides) = self.permute_impl(t_axes.as_slice())?;
        let offset = self.offset;
        Ok(self.view_mut_as(shape, strides, offset))
    }

    /// The writable view with the axes in reverse order.
    pub fn t_mut<'b>(&'b mut self) -> (r: Result<TensorViewMut<'b, U>, Error>)
        requires
            old(self).wf(),
        ensures
            final(self).layout() == old(self).layout(),
            final(final(self).data)@ == final(old(self).data)@,
            r is Ok,
            r->Ok_0.layout() == old(self).layout().transpose(),
            r->Ok_0.spec_data() == old(self).spec_data(),
            r->Ok_0.wf(),
            final(self).spec_data() == final(r->Ok_0.data)@,
    {
        self.transpose_mut()
    }

    /// The writable view that keeps axis 0 and merges all the others into
    /// one, for a tensor in row-major order.
    pub fn flatten_mut<'b>(&'b mut self) -> (r: Result<TensorViewMut<'b, U>, Error>)
        requires
            old(self).wf(),
            old(self).layout().is_contiguous(),
            old(self).spec_shape().len() >= 1,
            shape_size(old(self).spec_shape()) <= usize::MAX,
            tail_size(old(self).spec_shape(), 1) <= usize::MAX,
        ensures
            final(self).layout() == old(self).layout(),
            final(final(self).data)@ == final(old(self).data)@,
            r is Ok,
            r->Ok_0.layout() == old(self).layout().flatten(),
            r->Ok_0.spec_data() == old(self).spec_data(),
            r->Ok_0.wf(),
            final(self).spec_data() == final(r->Ok_0.data)@,
    {
        let (shape, strides) = self.flatten_impl()?;
        let offset = self.offset;
        Ok(self.view_mut_as(shape, strides, offset))
    }

    /// A writable view of the whole tensor. What is written through it is
    /// written to the tensor.
    pub fn view_mut<'b>(&'b mut self) -> (r: TensorViewMut<'b, U>)
        requires
            old(self).wf(),
        ensures
            r.layout() == old(self).layout(),
            r.spec_data() == old(self).spec_data(),
            r.wf(),
            final(self).layout() == old(self).layout(),
            final(final(self).data)@ == final(old(self).data)@,
            final(self).spec_data() == final(r.data)@,
    {
        let shape = self.shape();
        let strides = self.strides();
        let offset = self.offset;
        self.view_mut_as(shape, strides, offset)
    }
}

/// `r` is the greatest of `elems`, or the smallest value of the element
/// type when there is none.
pub open spec fn is_max_of<U: TensorTypeNumeric>(r: U, elems: Seq<U>) -> bool {
    &&& forall|i: int| 0 <= i < elems.len() ==> (#[trigger] elems[i]).val() <= r.val()
    &&& elems.len() == 0 ==> r.val() == U::min_val()
    &&& elems.len() > 0 ==> exists|i: int| 0 <= i < elems.len() && #[trigger] elems[i] == r
}

/// `r` is the least of `elems`, or the greatest value of the element type
/// when there is none.
pub open spec fn is_min_of<U: TensorTypeNumeric>(r: U, elems: Seq<U>) -> bool {
    &&& forall|i: int| 0 <= i < elems.len() ==> r.val() <= (#[trigger] elems[i]).val()
    &&& elems.len() == 0 ==> r.val() == U::max_val()
    &&& elems.len() > 0 ==> exists|i: int| 0 <= i < elems.len() && #[trigger] elems[i] == r
}

/// The text of the part of a tensor under the index prefix `prefix`: an
/// element in decimal, or the parts one axis further down, separated by a
/// comma and a space, in brackets.
pub open spec fn text_of<U: TensorTypeNumeric>(layout: Layout, data: Seq<U>, prefix: Seq<usize>) -> Seq<
    char,
>
    decreases layout.shape.len() - prefix.len(), usize::MAX + 1,
{
    if prefix.len() >= layout.shape.len() {
        super::decimal_text(data[layout.position(prefix)].val())
    } else {
        "["@ + text_row(layout, data, prefix, layout.shape[prefix.len() as int] as int) + "]"@
    }
}

/// The texts of the first `n` parts under `prefix`, separated by a comma
/// and a space.
pub open spec fn text_row<U: TensorTypeNumeric>(
    layout: Layout,
    data: Seq<U>,
    prefix: Seq<usize>,
    n: int,
) -> Seq<char>
    decreases layout.shape.len() - prefix.len(), n,
{
    if prefix.len() >= layout.shape.len() || n <= 0 || n > usize::MAX {
        Seq::empty()
    } else if n == 1 {
        text_of(layout, data, prefix.push(0))
    } else {
        text_row(layout, data, prefix, n - 1) + ", "@ + text_of(
            layout,
            data,
            prefix.push((n - 1) as usize),
        )
    }
}

/// The nest can be written under the index prefix `prefix`: it is
/// regular, and under a full index it has an element, else it has the
/// shape of the axes that are left.
pub open spec fn update_fits<T: TensorFromNDim<T, U>, U>(
    layout: Layout,
    prefix: Seq<usize>,
    data: &T,
) -> bool {
    &&& T::is_regular(data)
    &&& if prefix.len() == layout.shape.len() {
        T::flat_of(data).len() >= 1
    } else {
        T::shape_of(data) == layout.shape.skip(prefix.len() as int)
    }
}

/// Nested data that can be written into a tensor.
pub trait TensorUpdate<T, U> where T: TensorFromNDim<T, U>, U: TensorTypeNumeric {
    /// Writes the elements of `data`, depth first, to the elements that the
    /// view shows under the index prefix `index`, in row-major order; under
    /// a full index the first element of `data` is written. Fails as
    /// `slice` does on `index`, and with `ShapeMismatch` when `data` is
    /// ragged or has not the shape of what lies under `index`; the buffer
    /// is then left as it is.
    fn _update(view: &mut TensorViewMut<U>, index: &mut Vec<usize>, data: &T) -> (r: Result<
        bool,
        Error,
    >)
        requires
            old(view).wf(),
        ensures
            final(view).layout() == old(view).layout(),
            final(view).wf(),
            final(final(view).data)@ == final(old(view).data)@,
            final(index)@ == old(index)@,
            r is Err ==> final(view).spec_data() == old(view).spec_data(),
            old(index)@.len() > old(view).spec_shape().len() ==> r is Err
                && r->Err_0.is_shape_mismatch(old(index)@, old(view).spec_shape()),
            old(index)@.len() <= old(view).spec_shape().len() && !old(view).layout().admits(
                old(index)@,
            ) ==> r is Err && r->Err_0.is_invalid_slicing(old(index)@, old(view).spec_shape()),
            old(view).layout().admits(old(index)@) && !update_fits::<T, U>(
                old(view).layout(),
                old(index)@,
                data,
            ) ==> r is Err && r->Err_0.is_shape_mismatch(
                T::shape_of(data),
                old(view).spec_shape().skip(old(index)@.len() as int),
            ),
            old(view).layout().admits(old(index)@) && update_fits::<T, U>(
                old(view).layout(),
                old(index)@,
                data,
            ) ==> r == Ok::<bool, Error>(true) && final(view).spec_data() == write_shown(
                old(view).layout().slice(old(index)@),
                old(view).spec_data(),
                T::flat_of(data),
                shape_size(old(view).spec_shape().skip(old(index)@.len() as int)),
            ),
    ;
}

impl<T, U> TensorUpdate<T, U> for T where T: TensorFromNDim<T, U>, U: TensorTypeNumeric {
    fn _update(view: &mut TensorViewMut<U>, index: &mut Vec<usize>, data: &T) -> (r: Result<
        bool,
        Error,
    >) {
        let (sub_shape, sub_strides, sub_offset) = view.slice_impl(index.as_slice())?;
        let shape = T::compute_shape(data);
        if !T::check_regular(data) {
            return Err(Error::ShapeMismatch { shape_a: shape, shape_b: sub_shape });
        }
        let mut flat: Vec<U> = Vec::new();
        T::flatten_data(data, &mut flat);
        proof {
            assert(flat@ =~= T::flat_of(data));
            assert(flat@.len() == flat.len());
            T::lemma_regular_fills(data);
        }
        let ghost layout = view.layout();
        let ghost target = layout.slice(index@);
        let ghost before = view.spec_data();
        proof {
            lemma_size_zero_iff(view.shape@);
            lemma_size_zero_iff(sub_shape@);
            view.lemma_nelems_in_range();
        }
        if index.len() == view.shape.len() {
            if flat.len() == 0 {
                return Err(Error::ShapeMismatch { shape_a: shape, shape_b: sub_shape });
            }
            proof {
                assert(sub_shape@ =~= Seq::<usize>::empty());
                assert(target.nth_position(0) == sub_offset) by {
                    assert(nth_index(target.shape, 0) =~= Seq::<usize>::empty());
                    assert(dot_upto(Seq::<usize>::empty(), target.strides, 0) == 0);
                }
                assert(dot_upto(last_index(sub_shape@), sub_strides@, 0) == 0);
                assert(write_shown(target, before, flat@, 0) == before);
            }
            view.data[sub_offset] = flat[0];
            return Ok(true);
        }
        assert(sub_shape@ == layout.shape.skip(index@.len() as int));
        if !same_numbers(shape.as_slice(), sub_shape.as_slice()) {
            return Err(Error::ShapeMismatch { shape_a: shape, shape_b: sub_shape });
        }
        let ghost total = shape_size(sub_shape@);
        let mut it = TensorIterMut {
            shape: sub_shape.as_slice(),
            strides: sub_strides.as_slice(),
            offset: &sub_offset,
            data: &mut *view.data,
            index: cursor_start(sub_shape.as_slice()),
            _u: PhantomData,
        };
        let ghost fate = final(it.data)@;
        let mut p: usize = 0;
        loop
            invariant
                it.wf(),
                it.layout() == target,
                total == shape_size(target.shape),
                total == flat@.len(),
                total <= usize::MAX,
                before.len() <= usize::MAX,
                p == total - it.left(),
                0 <= it.left() <= total,
                final(it.data)@ == fate,
                it.data@.len() == before.len(),
                it.data@ == write_shown(target, before, flat@, p as int),
            ensures
                it.left() == 0,
            decreases it.left(),
        {
            proof {
                if it.left() > 0 {
                    lemma_nth_position_fits(target, it.data@.len(), p as int);
                }
            }
            match it.next() {
                Some(val) => {
                    *val = flat[p];
                    p += 1;
                },
                None => {
                    break ;
                },
            }
        }
        Ok(true)
    }
}

impl<'a, U> TensorViewMut<'a, U> where U: TensorTypeNumeric {
    /// Writes the nest `data` into the view under the index prefix `slice`
    /// and hands back a writable view of what lies under that prefix.
    /// Fails as `_update` does. What was written, and what is written
    /// through the view that comes back, is written to the buffer that
    /// this view was borrowed from.
    pub fn update<'b, T>(&'b mut self, slice: &[usize], data: Vec<T>) -> (r: Result<
        TensorViewMut<'b, U>,
        Error,
    >) where Vec<T>: TensorFromNDim<Vec<T>, U> + TensorUpdate<Vec<T>, U>
        requires
            old(self).wf(),
        ensures
            final(self).layout() == old(self).layout(),
            final(final(self).data)@ == final(old(self).data)@,
            r is Err ==> final(self).spec_data() == old(self).spec_data(),
            slice@.len() > old(self).spec_shape().len() ==> r is Err
                && r->Err_0.is_shape_mismatch(slice@, old(self).spec_shape()),
            slice@.len() <= old(self).spec_shape().len() && !old(self).layout().admits(slice@)
                ==> r is Err && r->Err_0.is_invalid_slicing(slice@, old(self).spec_shape()),
            old(self).layout().admits(slice@) && !update_fits::<Vec<T>, U>(
                old(self).layout(),
                slice@,
                &data,
            ) ==> r is Err && r->Err_0.is_shape_mismatch(
                <Vec<T>>::shape_of(&data),
                old(self).spec_shape().skip(slice@.len() as int),
            ),
            old(self).layout().admits(slice@) && update_fits::<Vec<T>, U>(
                old(self).layout(),
                slice@,
                &data,
            ) ==> r is Ok && r->Ok_0.layout() == old(self).layout().slice(slice@) && r->Ok_0.wf()
                && r->Ok_0.spec_data() == write_shown(
                old(self).layout().slice(slice@),
                old(self).spec_data(),
                <Vec<T>>::flat_of(&data),
                shape_size(old(self).spec_shape().skip(slice@.len() as int)),
            ) && final(self).spec_data() == final(r->Ok_0.data)@,
            r is Ok && !old(self).layout().is_empty() ==> r->Ok_0.spec_offset() == old(
                self,
            ).flat_position(slice@),
    {
        let mut index = slice_to_vec(slice);
        {
            let mut whole = TensorViewMut {
                shape: self.shape(),
                strides: self.strides(),
                offset: self.offset,
                data: &mut *self.data,
                _u: PhantomData,
                _s: PhantomData,
            };
            <Vec<T> as TensorUpdate<Vec<T>, U>>::_update(&mut whole, &mut index, &data)?;
        }
        let (sl_shape, sl_strides, sl_offset) = self.slice_impl(slice)?;
        Ok(
            TensorViewMut {
                shape: sl_shape,
                strides: sl_strides,
                offset: sl_offset,
                data: &mut *self.data,
                _u: PhantomData,
                _s: PhantomData,
            },
        )
    }
}

impl<'a, U> Tensor<'a, U> where U: TensorTypeNumeric {
    /// Writes the nest `data` into the tensor under the index prefix
    /// `slice` and hands back a writable view of what lies under that
    /// prefix. Fails as `_update` does.
    pub fn update<'b, T>(&'b mut self, slice: &[usize], data: Vec<T>) -> (r: Result<
        TensorViewMut<'b, U>,
        Error,
    >) where Vec<T>: TensorFromNDim<Vec<T>, U> + TensorUpdate<Vec<T>, U>
        requires
            old(self).wf(),
        ensures
            final(self).layout() == old(self).layout(),
            r is Err ==> final(self).spec_data() == old(self).spec_data(),
            slice@.len() > old(self).spec_shape().len() ==> r is Err
                && r->Err_0.is_shape_mismatch(slice@, old(self).spec_shape()),
            slice@.len() <= old(self).spec_shape().len() && !old(self).layout().admits(slice@)
                ==> r is Err && r->Err_0.is_invalid_slicing(slice@, old(self).spec_shape()),
            old(self).layout().admits(slice@) && !update_fits::<Vec<T>, U>(
                old(self).layout(),
                slice@,
                &data,
            ) ==> r is Err && r->Err_0.is_shape_mismatch(
                <Vec<T>>::shape_of(&data),
                old(self).spec_shape().skip(slice@.len() as int),
            ),
            old(self).layout().admits(slice@) && update_fits::<Vec<T>, U>(
                old(self).layout(),
                slice@,
                &data,
            ) ==> r is Ok && r->Ok_0.layout() == old(self).layout().slice(slice@) && r->Ok_0.wf()
                && r->Ok_0.spec_data() == write_shown(
                old(self).layout().slice(slice@),
                old(self).spec_data(),
                <Vec<T>>::flat_of(&data),
                shape_size(old(self).spec_shape().skip(slice@.len() as int)),
            ) && final(self).spec_data() == final(r->Ok_0.data)@,
            r is Ok && !old(self).layout().is_empty() ==> r->Ok_0.spec_offset() == old(
                self,
            ).flat_position(slice@),
    {
        let mut index = slice_to_vec(slice);
        {
            let whole: Vec<usize> = Vec::new();
            proof {
                lemma_slice_nothing(self.layout(), self.spec_data().len());
            }
            let mut sl_view = self.slice_mut(whole.as_slice())?;
            <Vec<T> as TensorUpdate<Vec<T>, U>>::_update(&mut sl_view, &mut index, &data)?;
        }
        self.slice_mut(slice)
    }
}

impl<'a, U: TensorTypeNumeric> From<&'a Tensor<'a, U>> for TensorView<'a, U> {
    /// A read-only view of the whole tensor.
    fn from(item: &'a Tensor<U>) -> (r: Self)
        ensures
            r.layout() == item.layout(),
            r.spec_data() == item.spec_data(),
    {
        TensorView {
            shape: item.shape(),
            strides: item.strides(),
            offset: item.offset,
            data: item.data.as_slice(),
            _u: PhantomData,
            _s: PhantomData,
        }
    }
}

impl<'a, U: TensorTypeNumeric> FromSpecImpl<&'a Tensor<'a, U>> for TensorView<'a, U> {
    open spec fn obeys_from_spec() -> bool {
        false
    }

    open spec fn from_spec(item: &'a Tensor<'a, U>) -> Self {
        arbitrary()
    }
}

impl<'a, U: TensorTypeNumeric> From<&'a mut Tensor<'a, U>> for TensorViewMut<'a, U> {
    /// A writable view of the whole tensor.
    fn from(item: &'a mut Tensor<U>) -> (r: Self)
        ensures
            r.layout() == old(item).layout(),
            r.spec_data() == old(item).spec_data(),
            final(item).layout() == old(item).layout(),
            final(item).spec_data() == final(r.data)@,
    {
        TensorViewMut {
            shape: item.shape(),
            strides: item.strides(),
            offset: item.offset,
            data: item.data.as_mut_slice(),
            _u: PhantomData,
            _s: PhantomData,
        }
    }
}

impl<'a, U: TensorTypeNumeric> FromSpecImpl<&'a mut Tensor<'a, U>> for TensorViewMut<'a, U> {
    open spec fn obeys_from_spec() -> bool {
        false
    }

    open spec fn from_spec(item: &'a mut Tensor<'a, U>) -> Self {
        arbitrary()
    }
}

impl<U> Clone for Tensor<'_, U> where U: TensorTypeNumeric + 'static {
    /// A tensor of its own with the same layout and a copy of the buffer.
    fn clone(&self) -> (r: Self)
        ensures
            r.layout() == self.layout(),
            r.spec_data() == self.spec_data(),
    {
        Tensor {
            shape: self.shape(),
            strides: self.strides(),
            offset: self.offset,
            data: self.data(),
            _u: PhantomData,
            _s: PhantomData,
        }
    }
}

/// `lanes` are the elements that the layout `turned` shows of `data`, in
/// lanes along its first axis: one lane for each index tuple of the other
/// axes, in row-major order, and in each lane the elements as the first
/// coordinate grows.
pub open spec fn are_lanes<U>(lanes: Seq<Vec<U>>, turned: Layout, data: Seq<U>) -> bool {
    &&& lanes.len() == shape_size(turned.shape.skip(1))
    &&& forall|q: int| 0 <= q < lanes.len() ==> (#[trigger] lanes[q])@.len() == turned.shape[0]
    &&& forall|q: int, i: int|
        0 <= q < lanes.len() && 0 <= i < turned.shape[0] ==> #[trigger] lanes[q]@[i]
            == data[turned.position(seq![i as usize] + nth_index(turned.shape.skip(1), q))]
}

/// The layout that a triple of shape, strides and offset stands for.
pub open spec fn as_layout(parts: (Vec<usize>, Vec<usize>, usize)) -> Layout {
    Layout { shape: parts.0@, strides: parts.1@, offset: parts.2 }
}

/// Why an index names no element.
pub enum IndexFailure {
    /// The index has not one coordinate per axis.
    Rank,
    /// The index leads outside the buffer.
    Range,
}

} // verus!
