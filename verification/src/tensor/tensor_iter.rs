//! Iteration over the elements of a tensor in row-major order.

use std::marker::PhantomData;
use super::{TensorBase, TensorIter, TensorIterMut, TensorStorage, TensorTypeNumeric};
use super::tensor_layout::{
    advance, contains_zero, dot_upto, lemma_dot_upto_grows, lemma_next_index,
    lemma_nth_position_fits, lemma_ravel_nth, lemma_size_zero_iff, nth_index, ravel, shape_size,
    shown, valid_index, zero_index, Layout,
};
use vstd::prelude::*;

verus! {

/// What a pass over a tensor does to each element.
pub enum ElementOp {
    /// Adds the integer.
    Plus(int),
    /// Subtracts the integer.
    Minus(int),
    /// Multiplies by the integer.
    Times(int),
    /// Raises what is below zero to zero.
    Rectify,
}

impl ElementOp {
    /// The operation on one integer.
    pub open spec fn apply(self, v: int) -> int {
        match self {
            ElementOp::Plus(s) => v + s,
            ElementOp::Minus(s) => v - s,
            ElementOp::Times(s) => v * s,
            ElementOp::Rectify => if v < 0 {
                0
            } else {
                v
            },
        }
    }
}

/// The integers of a buffer after `op` was applied to the first `n`
/// elements that `layout` shows, one after the other in row-major order.
pub open spec fn map_shown(layout: Layout, values: Seq<int>, op: ElementOp, n: int) -> Seq<int>
    decreases n,
{
    if n <= 0 {
        values
    } else {
        let before = map_shown(layout, values, op, n - 1);
        before.update(layout.nth_position(n - 1), op.apply(before[layout.nth_position(n - 1)]))
    }
}

/// The odometer has run over at axis 0: nothing is left.
pub open spec fn cursor_done(index: Seq<usize>, shape: Seq<usize>) -> bool {
    index[0] >= shape[0]
}

/// An odometer over a shape is in order: it stands at an index tuple of
/// the shape, the one at its own place in row-major order, or has run
/// over.
pub open spec fn odometer_wf(index: Seq<usize>, shape: Seq<usize>) -> bool {
    &&& shape.len() >= 1
    &&& index.len() == shape.len()
    &&& !cursor_done(index, shape) ==> {
        &&& 0 <= ravel(index, shape) < shape_size(shape)
        &&& index == nth_index(shape, ravel(index, shape))
    }
}

/// A cursor over a layout is in order: it stands at the index tuple of the
/// element that comes next, or has run over.
pub open spec fn cursor_wf(index: Seq<usize>, layout: Layout, len: nat) -> bool {
    &&& odometer_wf(index, layout.shape)
    &&& layout.fits(len)
}

/// The number of elements that a cursor has still to visit.
pub open spec fn cursor_left(index: Seq<usize>, shape: Seq<usize>) -> int {
    if cursor_done(index, shape) {
        0
    } else {
        shape_size(shape) - ravel(index, shape)
    }
}

/// The cursor at the start of a walk over `shape`: at the first index
/// tuple, or run over at once where the shape has none.
pub fn cursor_start(shape: &[usize]) -> (index: Vec<usize>)
    requires
        shape@.len() >= 1,
    ensures
        index@.len() == shape@.len(),
        cursor_left(index@, shape@) == shape_size(shape@),
        !cursor_done(index@, shape@) ==> shape_size(shape@) > 0 && ravel(index@, shape@) == 0
            && index@ == nth_index(shape@, 0),
{
    let mut index = zero_index(shape);
    proof {
        lemma_size_zero_iff(shape@);
    }
    if contains_zero(shape) {
        index[0] = shape[0];
    } else {
        proof {
            lemma_ravel_nth(shape@, 0);
        }
    }
    index
}

/// The position in the buffer of the element at the cursor.
fn cursor_position(
    index: &Vec<usize>,
    shape: &[usize],
    strides: &[usize],
    offset: usize,
    Ghost(len): Ghost<nat>,
) -> (flat: usize)
    requires
        cursor_wf(index@, (Layout { shape: shape@, strides: strides@, offset }), len),
        !cursor_done(index@, shape@),
        len <= usize::MAX,
    ensures
        flat == (Layout { shape: shape@, strides: strides@, offset }).nth_position(
            ravel(index@, shape@),
        ),
        flat < len,
{
    let ghost layout = Layout { shape: shape@, strides: strides@, offset };
    proof {
        lemma_nth_position_fits(layout, len, ravel(index@, shape@));
        lemma_size_zero_iff(shape@);
    }
    let mut flat_index: usize = offset;
    let mut i: usize = 0;
    while i < index.len()
        invariant
            i <= index@.len(),
            index@.len() == shape@.len(),
            strides@.len() == shape@.len(),
            valid_index(index@, shape@),
            offset + dot_upto(index@, strides@, index@.len() as int) < len <= usize::MAX,
            flat_index == offset + dot_upto(index@, strides@, i as int),
        decreases index@.len() - i,
    {
        proof {
            lemma_dot_upto_grows(index@, strides@, i + 1, index@.len() as int);
            lemma_dot_upto_grows(index@, strides@, i as int, i + 1);
            assert(dot_upto(index@, strides@, i + 1) == dot_upto(index@, strides@, i as int) + (
            index@[i as int] as int) * (strides@[i as int] as int));
            assert(0 <= (index@[i as int] as int) * (strides@[i as int] as int))
                by (nonlinear_arith);
        }
        flat_index += index[i] * strides[i];
        i += 1;
    }
    flat_index
}

/// Moves the odometer to the next index tuple, or lets it run over after
/// the last one.
pub fn odometer_step(index: &mut Vec<usize>, shape: &[usize])
    requires
        odometer_wf(old(index)@, shape@),
        !cursor_done(old(index)@, shape@),
    ensures
        odometer_wf(final(index)@, shape@),
        cursor_left(final(index)@, shape@) == cursor_left(old(index)@, shape@) - 1,
        !cursor_done(final(index)@, shape@) ==> ravel(final(index)@, shape@) == ravel(
            old(index)@,
            shape@,
        ) + 1,
{
    let ghost p = ravel(index@, shape@);
    proof {
        lemma_next_index(shape@, p);
        lemma_ravel_nth(shape@, p + 1);
        super::tensor_layout::lemma_nth_index_valid(shape@, p);
    }
    advance(index, shape);
}

impl<'a, U> TensorIter<'a, U> where U: TensorTypeNumeric {
    /// The layout that the iterator walks.
    pub open spec fn layout(&self) -> Layout {
        Layout { shape: self.shape@, strides: self.strides@, offset: *self.offset }
    }

    /// The invariant of the iterator.
    pub open spec fn wf(&self) -> bool {
        cursor_wf(self.index@, self.layout(), self.data@.len())
    }

    /// The elements that the iterator has still to hand out, in order.
    pub open spec fn remaining(&self) -> Seq<U> {
        shown(self.layout(), self.data@).skip(
            shape_size(self.shape@) - cursor_left(self.index@, self.shape@),
        )
    }

    /// The next element in row-major order, or `None` when every element
    /// has been handed out.
    pub fn next(&mut self) -> (r: Option<U>)
        requires
            old(self).wf(),
        ensures
            final(self).wf(),
            final(self).layout() == old(self).layout(),
            final(self).data@ == old(self).data@,
            old(self).remaining().len() == 0 ==> r is None && final(self).remaining() == old(
                self,
            ).remaining(),
            old(self).remaining().len() > 0 ==> r == Some(old(self).remaining()[0]) && final(
                self
            ).remaining() == old(self).remaining().skip(1),
    {
        proof {
            lemma_size_zero_iff(self.shape@);
        }
        if self.index[0] >= self.shape[0] {
            return None;
        }
        let ghost p = ravel(self.index@, self.shape@);
        let ghost all = shown(self.layout(), self.data@);
        assert(self.data@.len() == self.data.len());
        let flat_index = cursor_position(
            &self.index,
            self.shape,
            self.strides,
            *self.offset,
            Ghost(self.data@.len()),
        );
        odometer_step(&mut self.index, self.shape);
        proof {
            assert(all.skip(p)[0] == all[p]);
            assert(all.skip(p).skip(1) =~= all.skip(p + 1));
        }
        Some(self.data[flat_index])
    }
}

impl<'a, U> TensorIterMut<'a, U> where U: TensorTypeNumeric {
    /// The layout that the iterator walks.
    pub open spec fn layout(&self) -> Layout {
        Layout { shape: self.shape@, strides: self.strides@, offset: *self.offset }
    }

    /// The invariant of the iterator.
    pub open spec fn wf(&self) -> bool {
        cursor_wf(self.index@, self.layout(), self.data@.len())
    }

    /// The number of elements that the iterator has still to hand out.
    pub open spec fn left(&self) -> int {
        cursor_left(self.index@, self.shape@)
    }

    /// The position in the buffer of the element that comes next.
    pub open spec fn next_position(&self) -> int {
        self.layout().nth_position(shape_size(self.shape@) - self.left())
    }

    /// The next element in row-major order, for writing, or `None` when
    /// every element has been handed out. What is written to the element
    /// is written to the buffer.
    pub fn next<'b>(&'b mut self) -> (r: Option<&'b mut U>)
        requires
            old(self).wf(),
        ensures
            final(self).wf(),
            final(self).layout() == old(self).layout(),
            final(final(self).data)@ == final(old(self).data)@,
            old(self).left() == 0 ==> r is None && final(self).left() == 0 && final(self).data@
                == old(self).data@,
            old(self).left() > 0 ==> r is Some && *r->Some_0 == old(self).data@[old(
                self,
            ).next_position()] && final(self).data@ == old(self).data@.update(
                old(self).next_position(),
                *final(r->Some_0),
            ) && final(self).left() == old(self).left() - 1,
    {
        proof {
            lemma_size_zero_iff(self.shape@);
        }
        if self.index[0] >= self.shape[0] {
            return None;
        }
        assert(self.data@.len() == self.data.len());
        let ghost len = self.data@.len();
        let flat_index = cursor_position(
            &self.index,
            self.shape,
            self.strides,
            *self.offset,
            Ghost(len),
        );
        odometer_step(&mut self.index, self.shape);
        Some(&mut self.data[flat_index])
    }
}

impl<'a, U> TensorBase<'a, U, Vec<U>> where U: TensorTypeNumeric {
    /// An iterator that hands out the elements of the tensor for writing,
    /// in row-major order. The tensor has at least one axis.
    pub fn iter_mut<'b>(&'b mut self) -> (it: TensorIterMut<'b, U>)
        requires
            old(self).wf(),
            old(self).spec_shape().len() >= 1,
        ensures
            it.wf(),
            it.layout() == old(self).layout(),
            it.data@ == old(self).spec_data(),
            it.left() == shape_size(old(self).spec_shape()),
            final(self).layout() == old(self).layout(),
            final(self).spec_data() == final(it.data)@,
    {
        let index = cursor_start(self.shape.as_slice());
        TensorIterMut {
            shape: self.shape.as_slice(),
            strides: self.strides.as_slice(),
            offset: &self.offset,
            data: self.data.as_mut_slice(),
            index,
            _u: PhantomData,
        }
    }
}

impl<'a, U> TensorBase<'a, U, &'a mut [U]> where U: TensorTypeNumeric {
    /// An iterator that hands out the elements of the tensor for writing,
    /// in row-major order. The tensor has at least one axis.
    pub fn iter_mut<'b>(&'b mut self) -> (it: TensorIterMut<'b, U>)
        requires
            old(self).wf(),
            old(self).spec_shape().len() >= 1,
        ensures
            it.wf(),
            it.layout() == old(self).layout(),
            it.data@ == old(self).spec_data(),
            it.left() == shape_size(old(self).spec_shape()),
            final(self).layout() == old(self).layout(),
            final(final(self).data)@ == final(old(self).data)@,
            final(self).spec_data() == final(it.data)@,
    {
        let index = cursor_start(self.shape.as_slice());
        TensorIterMut {
            shape: self.shape.as_slice(),
            strides: self.strides.as_slice(),
            offset: &self.offset,
            data: &mut *self.data,
            index,
            _u: PhantomData,
        }
    }
}

impl<'a, U, S> TensorBase<'a, U, S> where U: TensorTypeNumeric, S: TensorStorage<U> {
    /// An iterator over the elements of the tensor in row-major order: the
    /// last axis varies fastest. The tensor has at least one axis.
    pub fn iter<'b>(&'b self) -> (it: TensorIter<'b, U>)
        requires
            self.wf(),
            self.spec_shape().len() >= 1,
        ensures
            it.wf(),
            it.layout() == self.layout(),
            it.data@ == self.spec_data(),
            it.remaining() == self.elements(),
    {
        let index = cursor_start(self.shape.as_slice());
        let it = TensorIter {
            shape: self.shape.as_slice(),
            strides: self.strides.as_slice(),
            offset: &self.offset,
            data: self.data.as_slice(),
            index,
            _u: PhantomData,
        };
        proof {
            assert(it.remaining() =~= self.elements());
        }
        it
    }
}

} // verus!
