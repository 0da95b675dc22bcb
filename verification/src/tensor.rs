//! The tensor engine: data model, storage kinds, errors and element types.

use std::marker::PhantomData;
use vstd::prelude::*;

pub mod tensor_arithmetic;
pub mod tensor_core;
pub mod tensor_eq;
pub mod tensor_error;
pub mod tensor_iter;
pub mod tensor_laws;
pub mod tensor_layout;
pub mod tensor_linalg;
pub mod tensor_numeric;

verus! {

/// The character of a decimal digit.
pub open spec fn digit_char(d: int) -> char {
    seq!['0', '1', '2', '3', '4', '5', '6', '7', '8', '9'][d]
}

/// The decimal digits of a number, the most significant first, without
/// leading zeros; `0` for zero.
pub open spec fn digits_text(n: nat) -> Seq<char>
    decreases n,
{
    if n < 10 {
        seq![digit_char(n as int)]
    } else {
        digits_text(n / 10).push(digit_char((n % 10) as int))
    }
}

/// The decimal text of an integer, as the standard formatter writes it: a
/// minus sign for a negative number, then the digits.
pub open spec fn decimal_text(v: int) -> Seq<char> {
    if v < 0 {
        seq!['-'] + digits_text((-v) as nat)
    } else {
        digits_text(v as nat)
    }
}

/// A numeric element type. Every value stands for an integer, `val`, and
/// the arithmetic of the type is the arithmetic of those integers as long
/// as the result lies between `min_val` and `max_val`.
pub trait TensorTypeNumeric: Copy + Sized {
    /// The integer that a value stands for.
    spec fn val(self) -> int;

    /// The smallest integer that the type holds.
    spec fn min_val() -> int;

    /// The largest integer that the type holds.
    spec fn max_val() -> int;

    /// Every value lies within the type.
    proof fn lemma_val_in_range(self)
        ensures
            Self::min_val() <= self.val() <= Self::max_val(),
    ;

    /// Two values that stand for the same integer are the same value.
    proof fn lemma_val_determines(a: Self, b: Self)
        requires
            a.val() == b.val(),
        ensures
            a == b,
    ;

    /// The value that stands for zero.
    fn zero() -> (r: Self)
        ensures
            r.val() == 0,
    ;

    /// The smallest value of the type.
    fn min_value() -> (r: Self)
        ensures
            r.val() == Self::min_val(),
    ;

    /// The largest value of the type.
    fn max_value() -> (r: Self)
        ensures
            r.val() == Self::max_val(),
    ;

    /// The sum, where the type holds it.
    fn plus(self, rhs: Self) -> (r: Self)
        requires
            Self::min_val() <= self.val() + rhs.val() <= Self::max_val(),
        ensures
            r.val() == self.val() + rhs.val(),
    ;

    /// The difference, where the type holds it.
    fn minus(self, rhs: Self) -> (r: Self)
        requires
            Self::min_val() <= self.val() - rhs.val() <= Self::max_val(),
        ensures
            r.val() == self.val() - rhs.val(),
    ;

    /// The product, where the type holds it.
    fn times(self, rhs: Self) -> (r: Self)
        requires
            Self::min_val() <= self.val() * rhs.val() <= Self::max_val(),
        ensures
            r.val() == self.val() * rhs.val(),
    ;

    /// Whether this value is the smaller one.
    fn less_than(self, rhs: Self) -> (r: bool)
        ensures
            r == (self.val() < rhs.val()),
    ;

    /// Whether the two values are equal.
    fn same(self, rhs: Self) -> (r: bool)
        ensures
            r == (self.val() == rhs.val()),
    ;

    /// The value in decimal.
    fn to_text(self) -> (r: String)
        ensures
            r@ == decimal_text(self.val()),
    ;
}

/// Read access to a flat buffer of elements.
pub trait TensorStorage<U: TensorTypeNumeric> {
    /// The elements of the buffer, in order.
    spec fn elems(&self) -> Seq<U>;

    /// A buffer in memory has a length that a `usize` holds.
    proof fn lemma_len_in_range(&self)
        ensures
            self.elems().len() <= usize::MAX,
    ;

    /// The element at `index`.
    fn get(&self, index: usize) -> (v: U)
        requires
            index < self.elems().len(),
        ensures
            v == self.elems()[index as int],
    ;

    /// The buffer as a slice.
    fn as_slice(&self) -> (s: &[U])
        ensures
            s@ == self.elems(),
    ;
}

/// Write access to a flat buffer of elements.
pub trait TensorStorageMut<U: TensorTypeNumeric>: TensorStorage<U> {
    /// Writes `value` at `index`.
    fn set(&mut self, index: usize, value: U)
        requires
            index < old(self).elems().len(),
        ensures
            final(self).elems() == old(self).elems().update(index as int, value),
    ;

    /// The buffer as a writable slice: what is written to the slice is
    /// written to the buffer.
    fn as_mut_slice(&mut self) -> (s: &mut [U])
        ensures
            s@ == old(self).elems(),
            final(self).elems() == final(s)@,
    ;
}

/// A strided view of a flat buffer: `shape` and `strides` per axis, the
/// base `offset`, and the buffer in one of its three kinds. The fields are
/// open to contracts; every operation asks for `wf` and keeps it.
#[derive(Debug)]
pub struct TensorBase<'a, U, S> {
    pub shape: Vec<usize>,
    pub strides: Vec<usize>,
    pub offset: usize,
    pub data: S,
    pub _u: PhantomData<U>,
    pub _s: PhantomData<&'a S>,
}

/// A tensor that owns its buffer.
pub type Tensor<'a, U> = TensorBase<'a, U, Vec<U>>;

/// A read-only view of a buffer that something else owns.
pub type TensorView<'a, U> = TensorBase<'a, U, &'a [U]>;

/// An exclusive, writable view of a buffer that something else owns.
pub type TensorViewMut<'a, U> = TensorBase<'a, U, &'a mut [U]>;

/// What a tensor can be compared with: an element, a nest of elements, or
/// another tensor.
pub trait TensorEq<U: TensorTypeNumeric> {
    /// Whether the part of a tensor under the index prefix `prefix` is
    /// equal to `self`.
    spec fn eq_at(&self, layout: tensor_layout::Layout, data: Seq<U>, prefix: Seq<usize>) -> bool;

    /// Compares `self` with the part of `view` under the index prefix
    /// `indices`, which has `depth` coordinates.
    fn tensor_eq(&self, view: &TensorView<U>, indices: &mut Vec<usize>, depth: usize) -> (r: bool)
        requires
            depth == old(indices)@.len(),
        ensures
            r == self.eq_at(view.layout(), view.spec_data(), old(indices)@),
            final(indices)@ == old(indices)@,
    ;
}

/// The elements of a tensor one by one, in row-major order. The cursor is
/// an odometer over the shape: `index` is the index tuple of the element
/// that comes next.
pub struct TensorIter<'a, U> {
    pub shape: &'a [usize],
    pub strides: &'a [usize],
    pub offset: &'a usize,
    pub data: &'a [U],
    pub index: Vec<usize>,
    pub _u: PhantomData<U>,
}

/// The elements of a tensor one by one, in row-major order, each handed
/// out for writing.
pub struct TensorIterMut<'a, U> {
    pub shape: &'a [usize],
    pub strides: &'a [usize],
    pub offset: &'a usize,
    pub data: &'a mut [U],
    pub index: Vec<usize>,
    pub _u: PhantomData<U>,
}

/// What is said of a shape with more index tuples than a `usize` counts.
pub open spec fn uncountable_shape() -> Seq<char> {
    "The shape holds more elements than can be counted"@
}

/// What is said of a buffer that does not hold one element for each index
/// tuple of its shape.
pub open spec fn unfilled_shape() -> Seq<char> {
    "The shape does not match the number of elements"@
}

/// What is said of a nest whose items have not all one shape.
pub open spec fn ragged_nest() -> Seq<char> {
    "The nested data is ragged"@
}

/// What is said of an empty list of labels.
pub open spec fn no_labels() -> Seq<char> {
    "Label data shouldn't be an empty vector"@
}

/// The ways in which an operation of the engine fails.
#[derive(Debug)]
pub enum Error {
    InvalidAxis { axis: usize, ndim: usize },
    InvalidSlicing { slice: Vec<usize>, shape: Vec<usize> },
    ShapeMismatch { shape_a: Vec<usize>, shape_b: Vec<usize> },
    DimensionMismatch { tensor_dim: usize, dim: usize },
    ShapeMismatchBroadcast { shape_a: Vec<usize>, shape_b: Vec<usize> },
    IndexOutOfRange { index: usize, nelems: usize },
    InvalidParam { err_msg: String },
    InvalidFileContents { err_msg: String },
    Error { err_msg: String },
}

impl Error {
    /// The error is `InvalidAxis` for this axis and rank.
    pub open spec fn is_invalid_axis(&self, axis: usize, ndim: usize) -> bool {
        self matches Error::InvalidAxis { axis: a, ndim: n } && a == axis && n == ndim
    }

    /// The error is `InvalidSlicing` for this index prefix and shape.
    pub open spec fn is_invalid_slicing(&self, slice: Seq<usize>, shape: Seq<usize>) -> bool {
        self matches Error::InvalidSlicing { slice: a, shape: b } && a@ == slice && b@ == shape
    }

    /// The error is `ShapeMismatch` for these two shapes.
    pub open spec fn is_shape_mismatch(&self, shape_a: Seq<usize>, shape_b: Seq<usize>) -> bool {
        self matches Error::ShapeMismatch { shape_a: a, shape_b: b } && a@ == shape_a && b@
            == shape_b
    }

    /// The error is `DimensionMismatch` for these two ranks.
    pub open spec fn is_dimension_mismatch(&self, tensor_dim: usize, dim: usize) -> bool {
        self matches Error::DimensionMismatch { tensor_dim: a, dim: b } && a == tensor_dim && b
            == dim
    }

    /// The error is `ShapeMismatchBroadcast` for these two shapes.
    pub open spec fn is_broadcast_mismatch(&self, shape_a: Seq<usize>, shape_b: Seq<usize>) -> bool {
        self matches Error::ShapeMismatchBroadcast { shape_a: a, shape_b: b } && a@ == shape_a
            && b@ == shape_b
    }

    /// The error is `IndexOutOfRange` for this position and a buffer of
    /// this length.
    pub open spec fn is_index_out_of_range(&self, index: usize, nelems: usize) -> bool {
        self matches Error::IndexOutOfRange { index: i, nelems: n } && i == index && n == nelems
    }

    /// The error is `InvalidParam` with this description.
    pub open spec fn is_invalid_param(&self, description: Seq<char>) -> bool {
        self matches Error::InvalidParam { err_msg } && err_msg@ == description
    }
}

impl<'a, U: TensorTypeNumeric, S: TensorStorage<U>> TensorBase<'a, U, S> {
    /// The dimension sizes, outermost first.
    pub open spec fn spec_shape(&self) -> Seq<usize> {
        self.shape@
    }

    /// The element steps per axis.
    pub open spec fn spec_strides(&self) -> Seq<usize> {
        self.strides@
    }

    /// The base position in the buffer.
    pub open spec fn spec_offset(&self) -> usize {
        self.offset
    }

    /// The whole buffer that the tensor reads, not only what it shows.
    pub open spec fn spec_data(&self) -> Seq<U> {
        self.data.elems()
    }

    /// The buffer has a length that a `usize` holds.
    pub proof fn lemma_nelems_in_range(&self)
        ensures
            self.spec_data().len() <= usize::MAX,
    {
        self.data.lemma_len_in_range();
    }

    /// Shape, strides and offset together.
    pub open spec fn layout(&self) -> tensor_layout::Layout {
        tensor_layout::Layout {
            shape: self.spec_shape(),
            strides: self.spec_strides(),
            offset: self.spec_offset(),
        }
    }

    /// The invariant of every tensor and view: each of its index tuples
    /// leads to a position inside the buffer; a tensor without elements
    /// carries one stride per axis or, where it was built so, none.
    pub open spec fn wf(&self) -> bool {
        self.layout().fits(self.spec_data().len())
    }

    /// The elements that the tensor shows, in row-major order.
    pub open spec fn elements(&self) -> Seq<U> {
        tensor_layout::shown(self.layout(), self.spec_data())
    }

    /// The tensor shows its whole buffer in row-major order, as every
    /// freshly built tensor does.
    pub open spec fn is_dense(&self) -> bool {
        &&& self.spec_strides() == tensor_layout::row_major_strides(self.spec_shape())
        &&& self.spec_offset() == 0
        &&& self.spec_data().len() == tensor_layout::shape_size(self.spec_shape())
    }
}

} // verus!
