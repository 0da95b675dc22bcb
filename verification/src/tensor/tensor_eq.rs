//! Equality between tensors, and between a tensor and a nest of elements.

use super::{
    Tensor, TensorBase, TensorEq, TensorStorage, TensorTypeNumeric, TensorView, TensorViewMut,
};
use super::tensor_layout::{same_numbers, Layout};
use vstd::prelude::*;
use vstd::std_specs::cmp::PartialEqSpecImpl;

verus! {

/// The element that a layout shows at the full index `index`, if there is
/// one.
pub open spec fn element_at<U>(layout: Layout, data: Seq<U>, index: Seq<usize>) -> Option<U> {
    if index.len() == layout.shape.len() && layout.strides.len() == layout.shape.len()
        && layout.position(index) < data.len() {
        Some(data[layout.position(index)])
    } else {
        None
    }
}

impl<U> TensorEq<U> for U where U: TensorTypeNumeric {
    /// The prefix is a full index, and the element there is this one.
    open spec fn eq_at(&self, layout: Layout, data: Seq<U>, prefix: Seq<usize>) -> bool {
        element_at(layout, data, prefix) == Some(*self)
    }

    fn tensor_eq(&self, view: &TensorView<U>, indices: &mut Vec<usize>, _depth: usize) -> (r: bool) {
        match view.getval(indices.as_slice()) {
            Ok(v) => {
                proof {
                    if v.val() == self.val() {
                        U::lemma_val_determines(v, *self);
                    }
                }
                v.same(*self)
            },
            Err(_) => false,
        }
    }
}

/// Each of the first `n` items is equal to the part of the tensor under
/// `prefix` and the item's number.
pub open spec fn items_eq_at<U: TensorTypeNumeric, T: TensorEq<U>>(
    items: Seq<T>,
    layout: Layout,
    data: Seq<U>,
    prefix: Seq<usize>,
    n: int,
) -> bool {
    forall|i: int| 0 <= i < n ==> (#[trigger] items[i]).eq_at(layout, data, prefix.push(i as usize))
}

/// A nest is equal to the part of the tensor under `prefix`: the tensor
/// has an axis there, the nest has as many items as that axis is long,
/// and each item is equal to the part of the tensor under `prefix` and the
/// item's number.
pub open spec fn nest_eq_at<U: TensorTypeNumeric, T: TensorEq<U>>(
    items: Seq<T>,
    layout: Layout,
    data: Seq<U>,
    prefix: Seq<usize>,
) -> bool {
    &&& prefix.len() < layout.shape.len()
    &&& items.len() == layout.shape[prefix.len() as int]
    &&& items_eq_at(items, layout, data, prefix, items.len() as int)
}

/// Compares the nest with the part of the view under `indices`: its
/// length with the length of the axis, then the items one by one.
fn items_eq<U, T>(items: &Vec<T>, view: &TensorView<U>, indices: &mut Vec<usize>, depth: usize) -> (r:
    bool) where U: TensorTypeNumeric, T: TensorEq<U>
    requires
        depth == old(indices)@.len(),
    ensures
        r == nest_eq_at(items@, view.layout(), view.spec_data(), old(indices)@),
        final(indices)@ == old(indices)@,
{
    if depth >= view.shape.len() || items.len() != view.shape[depth] {
        return false;
    }
    let ghost prefix = indices@;
    let mut index: usize = 0;
    while index < items.len()
        invariant
            index <= items@.len(),
            indices@ == prefix,
            prefix == old(indices)@,
            items_eq_at(items@, view.layout(), view.spec_data(), prefix, index as int),
        decreases items@.len() - index,
    {
        indices.push(index);
        let below = indices.len();
        let same = items[index].tensor_eq(view, indices, below);
        indices.pop();
        assert(indices@ =~= prefix);
        if !same {
            assert(!items@[index as int].eq_at(
                view.layout(),
                view.spec_data(),
                prefix.push(index),
            ));
            return false;
        }
        index += 1;
    }
    true
}

impl<U, T> TensorEq<U> for Vec<T> where U: TensorTypeNumeric, T: TensorEq<U> {
    /// The nest has the length of the tensor's axis under `prefix`, and
    /// every item is equal to the part of the tensor one axis further
    /// down, at the item's number.
    open spec fn eq_at(&self, layout: Layout, data: Seq<U>, prefix: Seq<usize>) -> bool {
        nest_eq_at(self@, layout, data, prefix)
    }

    fn tensor_eq(&self, view: &TensorView<U>, indices: &mut Vec<usize>, depth: usize) -> (r: bool) {
        items_eq(self, view, indices, depth)
    }
}

impl<'a, U, T> TensorEq<U> for &'a Vec<T> where U: TensorTypeNumeric, T: TensorEq<U> {
    open spec fn eq_at(&self, layout: Layout, data: Seq<U>, prefix: Seq<usize>) -> bool {
        nest_eq_at(self@, layout, data, prefix)
    }

    fn tensor_eq(&self, view: &TensorView<U>, indices: &mut Vec<usize>, depth: usize) -> (r: bool) {
        items_eq(*self, view, indices, depth)
    }
}

/// Two tensors are equal: the same buffer, the same shape, the same
/// strides.
pub open spec fn same_tensor<U>(layout_a: Layout, data_a: Seq<U>, layout_b: Layout, data_b: Seq<U>) -> bool {
    data_a == data_b && layout_a.shape == layout_b.shape && layout_a.strides == layout_b.strides
}

/// Whether the two buffers hold the same elements.
fn same_elements<U: TensorTypeNumeric>(a: &[U], b: &[U]) -> (r: bool)
    ensures
        r == (a@ == b@),
{
    if a.len() != b.len() {
        return false;
    }
    let mut i: usize = 0;
    while i < a.len()
        invariant
            i <= a@.len(),
            a@.len() == b@.len(),
            forall|k: int| 0 <= k < i ==> a@[k] == b@[k],
        decreases a@.len() - i,
    {
        if !a[i].same(b[i]) {
            return false;
        }
        proof {
            U::lemma_val_determines(a@[i as int], b@[i as int]);
        }
        i += 1;
    }
    assert(a@ =~= b@);
    true
}

impl<'a, U, S> TensorBase<'a, U, S> where U: TensorTypeNumeric, S: TensorStorage<U> {
    /// Whether the tensor has the buffer, the shape and the strides of
    /// `view`.
    fn same_as(&self, view: &TensorView<U>) -> (r: bool)
        ensures
            r == same_tensor(self.layout(), self.spec_data(), view.layout(), view.spec_data()),
    {
        same_elements(self.data.as_slice(), view.data) && same_numbers(
            self.shape.as_slice(),
            view.shape.as_slice(),
        ) && same_numbers(self.strides.as_slice(), view.strides.as_slice())
    }
}

impl<'a, U> TensorEq<U> for Tensor<'a, U> where U: TensorTypeNumeric {
    open spec fn eq_at(&self, layout: Layout, data: Seq<U>, prefix: Seq<usize>) -> bool {
        same_tensor(self.layout(), self.spec_data(), layout, data)
    }

    fn tensor_eq(&self, view: &TensorView<U>, _indices: &mut Vec<usize>, _depth: usize) -> (r: bool) {
        self.same_as(view)
    }
}

impl<'a, U> TensorEq<U> for &Tensor<'a, U> where U: TensorTypeNumeric {
    open spec fn eq_at(&self, layout: Layout, data: Seq<U>, prefix: Seq<usize>) -> bool {
        same_tensor(self.layout(), self.spec_data(), layout, data)
    }

    fn tensor_eq(&self, view: &TensorView<U>, _indices: &mut Vec<usize>, _depth: usize) -> (r: bool) {
        self.same_as(view)
    }
}

impl<'a, U> TensorEq<U> for TensorView<'a, U> where U: TensorTypeNumeric {
    open spec fn eq_at(&self, layout: Layout, data: Seq<U>, prefix: Seq<usize>) -> bool {
        same_tensor(self.layout(), self.spec_data(), layout, data)
    }

    fn tensor_eq(&self, view: &TensorView<U>, _indices: &mut Vec<usize>, _depth: usize) -> (r: bool) {
        self.same_as(view)
    }
}

impl<'a, U> TensorEq<U> for &TensorView<'a, U> where U: TensorTypeNumeric {
    open spec fn eq_at(&self, layout: Layout, data: Seq<U>, prefix: Seq<usize>) -> bool {
        same_tensor(self.layout(), self.spec_data(), layout, data)
    }

    fn tensor_eq(&self, view: &TensorView<U>, _indices: &mut Vec<usize>, _depth: usize) -> (r: bool) {
        self.same_as(view)
    }
}

impl<'a, U> TensorEq<U> for TensorViewMut<'a, U> where U: TensorTypeNumeric {
    open spec fn eq_at(&self, layout: Layout, data: Seq<U>, prefix: Seq<usize>) -> bool {
        same_tensor(self.layout(), self.spec_data(), layout, data)
    }

    fn tensor_eq(&self, view: &TensorView<U>, _indices: &mut Vec<usize>, _depth: usize) -> (r: bool) {
        self.same_as(view)
    }
}

impl<'a, U> TensorEq<U> for &TensorViewMut<'a, U> where U: TensorTypeNumeric {
    open spec fn eq_at(&self, layout: Layout, data: Seq<U>, prefix: Seq<usize>) -> bool {
        same_tensor(self.layout(), self.spec_data(), layout, data)
    }

    fn tensor_eq(&self, view: &TensorView<U>, _indices: &mut Vec<usize>, _depth: usize) -> (r: bool) {
        self.same_as(view)
    }
}

impl<'a, U, T> PartialEq<T> for Tensor<'a, U> where U: TensorTypeNumeric, T: TensorEq<U> {
    fn eq(&self, other: &T) -> (r: bool) {
        let mut indices: Vec<usize> = Vec::with_capacity(self.ndim());
        other.tensor_eq(&self.view(), &mut indices, 0)
    }
}

impl<'a, U, T> PartialEqSpecImpl<T> for Tensor<'a, U> where U: TensorTypeNumeric, T: TensorEq<U> {
    open spec fn obeys_eq_spec() -> bool {
        true
    }

    /// The other side is equal to the whole tensor.
    open spec fn eq_spec(&self, other: &T) -> bool {
        other.eq_at(self.layout(), self.spec_data(), Seq::empty())
    }
}

impl<'a, U, T> PartialEq<T> for TensorView<'a, U> where U: TensorTypeNumeric, T: TensorEq<U> {
    fn eq(&self, other: &T) -> (r: bool) {
        let mut indices: Vec<usize> = Vec::with_capacity(self.ndim());
        other.tensor_eq(self, &mut indices, 0)
    }
}

impl<'a, U, T> PartialEqSpecImpl<T> for TensorView<'a, U> where U: TensorTypeNumeric, T: TensorEq<U> {
    open spec fn obeys_eq_spec() -> bool {
        true
    }

    open spec fn eq_spec(&self, other: &T) -> bool {
        other.eq_at(self.layout(), self.spec_data(), Seq::empty())
    }
}

impl<'a, U, T> PartialEq<T> for TensorViewMut<'a, U> where U: TensorTypeNumeric, T: TensorEq<U> {
    fn eq(&self, other: &T) -> (r: bool) {
        let mut indices: Vec<usize> = Vec::with_capacity(self.ndim());
        other.tensor_eq(&self.view(), &mut indices, 0)
    }
}

impl<'a, U, T> PartialEqSpecImpl<T> for TensorViewMut<'a, U> where U: TensorTypeNumeric, T: TensorEq<U> {
    open spec fn obeys_eq_spec() -> bool {
        true
    }

    open spec fn eq_spec(&self, other: &T) -> bool {
        other.eq_at(self.layout(), self.spec_data(), Seq::empty())
    }
}

} // verus!
