//! Facts that relate the operations of the engine to each other.

use super::{TensorBase, TensorStorage, TensorTypeNumeric};
use super::tensor_arithmetic::{
    bc_compatible, bc_index, bc_shape, can_broadcast, elementwise_fits, elementwise_vals,
    inner_size, lemma_bc_symmetric, mm_shape, mm_sum, mm_vals, vals,
};
use super::tensor_eq::same_tensor;
use super::tensor_iter::{map_shown, ElementOp};
use super::tensor_layout::{
    dot, has_zero, is_permutation, lemma_dot_row_major, lemma_dot_select, lemma_dot_upto_agree,
    lemma_dot_upto_concat, lemma_dot_upto_grows, lemma_dot_upto_monotone, lemma_dot_upto_update,
    lemma_dot_within_extent, lemma_has_zero_select, lemma_nth_of_ravel, lemma_nth_position_dense,
    lemma_reversed_axes_permutation, lemma_size_zero_iff, lemma_tail_size_monotone,
    lemma_tail_size_positive, ravel, reversed_axes, row_major_strides, select, shape_size, shown,
    tail_size, valid_index, write_shown, Layout,
};
use vstd::prelude::*;

verus! {

/// Row-major strides: the last axis steps by one element, and every other
/// axis steps over the whole of the axis behind it, so that
/// `strides[i] * shape[i] == strides[i - 1]`.
pub proof fn lemma_row_major_steps(shape: Seq<usize>)
    requires
        !has_zero(shape),
        shape.len() >= 1,
        shape_size(shape) <= usize::MAX,
    ensures
        row_major_strides(shape).len() == shape.len(),
        row_major_strides(shape)[shape.len() - 1] == 1,
        forall|i: int|
            0 < i < shape.len() ==> (#[trigger] row_major_strides(shape)[i]) * shape[i]
                == row_major_strides(shape)[i - 1],
{
    lemma_size_zero_iff(shape);
    let strides = row_major_strides(shape);
    assert(tail_size(shape, shape.len() as int) == 1);
    assert forall|i: int| 0 < i < shape.len() implies (#[trigger] strides[i]) * shape[i]
        == strides[i - 1] by {
        lemma_tail_size_monotone(shape, 0, i);
        lemma_tail_size_monotone(shape, 0, i + 1);
        lemma_tail_size_positive(shape, i + 1);
        let s = shape[i] as int;
        let t = tail_size(shape, i + 1);
        assert(tail_size(shape, i) == s * t);
        assert(t * s == s * t) by (nonlinear_arith);
    }
}

/// Every index tuple of a tensor leads to a position inside its buffer.
pub proof fn lemma_index_in_buffer(layout: Layout, len: nat, index: Seq<usize>)
    requires
        layout.fits(len),
        valid_index(index, layout.shape),
    ensures
        0 <= layout.position(index) < len,
{
    lemma_size_zero_iff(layout.shape);
    lemma_dot_within_extent(index, layout.shape, layout.strides);
}

/// A tensor in row-major order over its whole buffer, as the constructors
/// build it, shows the buffer as it is: iterating over a tensor built from
/// a shape and a buffer, or from a nest of elements, gives the buffer
/// back.
pub proof fn lemma_dense_shows_buffer<U>(layout: Layout, data: Seq<U>)
    requires
        layout.strides == row_major_strides(layout.shape),
        layout.offset == 0,
        data.len() == shape_size(layout.shape),
        data.len() <= usize::MAX,
    ensures
        shown(layout, data) == data,
{
    assert forall|p: int| 0 <= p < data.len() implies shown(layout, data)[p] == data[p] by {
        lemma_nth_position_dense(layout.shape, p);
    }
    assert(shown(layout, data) =~= data);
}

impl<'a, U, S> TensorBase<'a, U, S> where U: TensorTypeNumeric, S: TensorStorage<U> {
    /// A dense tensor shows its buffer as it is: what `data` returns of a
    /// tensor that `from_shape` or `from_vec` built is the buffer or the
    /// flattened nest that it was built from, and iteration gives the same
    /// sequence.
    pub proof fn lemma_elements_of_dense(&self)
        requires
            self.is_dense(),
        ensures
            self.elements() == self.spec_data(),
    {
        self.lemma_nelems_in_range();
        lemma_dense_shows_buffer(self.layout(), self.spec_data());
    }
}

/// The element at `index` is shown at the place of `index` in row-major
/// order.
pub proof fn lemma_shown_at_index<U>(layout: Layout, data: Seq<U>, index: Seq<usize>)
    requires
        valid_index(index, layout.shape),
    ensures
        0 <= ravel(index, layout.shape) < shape_size(layout.shape),
        shown(layout, data)[ravel(index, layout.shape)] == data[layout.position(index)],
{
    lemma_nth_of_ravel(index, layout.shape);
}

/// In a tensor in row-major order over its whole buffer, the element at
/// `index` lies at the place of `index` in row-major order.
pub proof fn lemma_dense_position(layout: Layout, index: Seq<usize>)
    requires
        valid_index(index, layout.shape),
        layout.strides == row_major_strides(layout.shape),
        layout.offset == 0,
        shape_size(layout.shape) <= usize::MAX,
    ensures
        layout.position(index) == ravel(index, layout.shape),
{
    lemma_nth_of_ravel(index, layout.shape);
    lemma_dot_row_major(index, layout.shape, layout.shape.len() as int);
}

/// The element of a sum, or of a difference, at `index` is the sum, or
/// the difference, of the elements at which the operands are read for
/// `index`.
pub proof fn lemma_sum_at_index<U: TensorTypeNumeric>(
    a: Layout,
    da: Seq<U>,
    b: Layout,
    db: Seq<U>,
    subtract: bool,
    index: Seq<usize>,
)
    requires
        valid_index(index, bc_shape(a.shape, b.shape)),
    ensures
        0 <= ravel(index, bc_shape(a.shape, b.shape)) < elementwise_vals(
            a,
            da,
            b,
            db,
            subtract,
        ).len(),
        elementwise_vals(a, da, b, db, subtract)[ravel(index, bc_shape(a.shape, b.shape))] == (
        if subtract {
            da[a.position(bc_index(index, a.shape))].val() - db[b.position(
                bc_index(index, b.shape),
            )].val()
        } else {
            da[a.position(bc_index(index, a.shape))].val() + db[b.position(
                bc_index(index, b.shape),
            )].val()
        }),
{
    lemma_nth_of_ravel(index, bc_shape(a.shape, b.shape));
}

/// The element of a matrix product at `index` is the sum over the inner
/// axis of the left operand's row times the right operand's column.
pub proof fn lemma_product_at_index<U: TensorTypeNumeric>(
    a: Layout,
    da: Seq<U>,
    b: Layout,
    db: Seq<U>,
    index: Seq<usize>,
)
    requires
        valid_index(index, mm_shape(a.shape, b.shape)),
    ensures
        0 <= ravel(index, mm_shape(a.shape, b.shape)) < mm_vals(a, da, b, db).len(),
        mm_vals(a, da, b, db)[ravel(index, mm_shape(a.shape, b.shape))] == mm_sum(
            a,
            da,
            b,
            db,
            index,
            inner_size(a.shape),
        ),
{
    lemma_nth_of_ravel(index, mm_shape(a.shape, b.shape));
}

/// The first `n` elements of a dense tensor after a pass, and the others
/// as they were.
proof fn lemma_pass_over_dense_upto(layout: Layout, values: Seq<int>, op: ElementOp, n: int)
    requires
        layout.strides == row_major_strides(layout.shape),
        layout.offset == 0,
        values.len() == shape_size(layout.shape),
        values.len() <= usize::MAX,
        0 <= n <= values.len(),
    ensures
        map_shown(layout, values, op, n) == Seq::new(
            values.len(),
            |i: int|
                if i < n {
                    op.apply(values[i])
                } else {
                    values[i]
                },
        ),
    decreases n,
{
    let goal = Seq::new(
        values.len(),
        |i: int|
            if i < n {
                op.apply(values[i])
            } else {
                values[i]
            },
    );
    if n > 0 {
        lemma_pass_over_dense_upto(layout, values, op, n - 1);
        lemma_nth_position_dense(layout.shape, n - 1);
        assert(layout.nth_position(n - 1) == n - 1);
        assert(map_shown(layout, values, op, n) =~= goal);
    } else {
        assert(map_shown(layout, values, op, n) =~= goal);
    }
}

/// A pass over a tensor in row-major order over its whole buffer applies
/// the operation to every element once: scalar arithmetic and
/// rectification on such a tensor change each element by itself.
pub proof fn lemma_pass_over_dense(layout: Layout, values: Seq<int>, op: ElementOp)
    requires
        layout.strides == row_major_strides(layout.shape),
        layout.offset == 0,
        values.len() == shape_size(layout.shape),
        values.len() <= usize::MAX,
    ensures
        map_shown(layout, values, op, shape_size(layout.shape)) == Seq::new(
            values.len(),
            |i: int| op.apply(values[i]),
        ),
{
    lemma_pass_over_dense_upto(layout, values, op, values.len() as int);
    assert(map_shown(layout, values, op, shape_size(layout.shape)) =~= Seq::new(
        values.len(),
        |i: int| op.apply(values[i]),
    ));
}

/// Writing a buffer of values over a tensor in row-major order over its
/// whole buffer leaves exactly the values: an update of the whole of such
/// a tensor replaces its buffer.
pub proof fn lemma_write_over_dense<U>(layout: Layout, data: Seq<U>, values: Seq<U>)
    requires
        layout.strides == row_major_strides(layout.shape),
        layout.offset == 0,
        data.len() == shape_size(layout.shape),
        values.len() == data.len(),
        data.len() <= usize::MAX,
    ensures
        write_shown(layout, data, values, shape_size(layout.shape)) == values,
{
    lemma_write_over_dense_upto(layout, data, values, data.len() as int);
    assert(write_shown(layout, data, values, shape_size(layout.shape)) =~= values);
}

proof fn lemma_write_over_dense_upto<U>(layout: Layout, data: Seq<U>, values: Seq<U>, n: int)
    requires
        layout.strides == row_major_strides(layout.shape),
        layout.offset == 0,
        data.len() == shape_size(layout.shape),
        values.len() == data.len(),
        data.len() <= usize::MAX,
        0 <= n <= data.len(),
    ensures
        write_shown(layout, data, values, n).len() == data.len(),
        forall|i: int|
            0 <= i < data.len() ==> #[trigger] write_shown(layout, data, values, n)[i] == (if i
                < n {
                values[i]
            } else {
                data[i]
            }),
    decreases n,
{
    if n > 0 {
        lemma_write_over_dense_upto(layout, data, values, n - 1);
        lemma_nth_position_dense(layout.shape, n - 1);
        assert(layout.nth_position(n - 1) == n - 1);
    }
}

/// A view that fixes the first axes shows, at the index `rest`, the
/// element that the tensor holds at the fixed coordinates followed by
/// `rest`.
pub proof fn lemma_slice_shows(layout: Layout, len: nat, prefix: Seq<usize>, rest: Seq<usize>)
    requires
        layout.fits(len),
        len <= usize::MAX,
        layout.admits(prefix),
        valid_index(rest, layout.slice(prefix).shape),
    ensures
        valid_index(prefix + rest, layout.shape),
        layout.slice(prefix).position(rest) == layout.position(prefix + rest),
{
    let p = prefix.len() as int;
    let whole = prefix + rest;
    lemma_size_zero_iff(layout.shape);
    lemma_size_zero_iff(layout.slice(prefix).shape);
    assert forall|d: int| 0 <= d < layout.shape.len() implies whole[d] < layout.shape[d] by {
        if d >= p {
            assert(whole[d] == rest[d - p]);
            assert(layout.shape.skip(p)[d - p] == layout.shape[d]);
        }
    }
    if has_zero(layout.shape) {
        let z = choose|d: int| 0 <= d < layout.shape.len() && layout.shape[d] == 0;
        assert(whole[z] < layout.shape[z]);
    }
    lemma_dot_upto_concat(prefix, rest, layout.strides, rest.len() as int);
    lemma_dot_within_extent(whole, layout.shape, layout.strides);
    lemma_dot_upto_agree(prefix, layout.strides, whole, layout.strides, p);
    lemma_dot_upto_grows(whole, layout.strides, p, whole.len() as int);
}

/// A view with its axes in another order shows, at an index in that
/// order, the element that the tensor holds at the index.
pub proof fn lemma_permute_shows(layout: Layout, len: nat, axes: Seq<usize>, index: Seq<usize>)
    requires
        layout.fits(len),
        is_permutation(axes, layout.shape.len() as int),
        valid_index(index, layout.shape),
    ensures
        valid_index(select(index, axes), layout.permute(axes).shape),
        layout.permute(axes).position(select(index, axes)) == layout.position(index),
{
    lemma_size_zero_iff(layout.shape);
    if has_zero(layout.shape) {
        let z = choose|d: int| 0 <= d < layout.shape.len() && layout.shape[d] == 0;
        assert(index[z] < layout.shape[z]);
    }
    lemma_dot_select(index, layout.strides, axes);
}

/// A view of a range of rows shows, at an index, the element that the
/// tensor holds at that index moved down by the first row of the range.
pub proof fn lemma_batch_shows(
    layout: Layout,
    len: nat,
    start: usize,
    end: usize,
    index: Seq<usize>,
)
    requires
        layout.fits(len),
        len <= usize::MAX,
        layout.shape.len() >= 1,
        start <= end <= layout.shape[0],
        valid_index(index, layout.batch(start, end).shape),
    ensures
        valid_index(index.update(0, (index[0] + start) as usize), layout.shape),
        layout.batch(start, end).position(index) == layout.position(
            index.update(0, (index[0] + start) as usize),
        ),
{
    let moved = index.update(0, (index[0] + start) as usize);
    let kept = layout.batch(start, end);
    lemma_size_zero_iff(layout.shape);
    assert(index[0] < kept.shape[0]);
    assert forall|d: int| 0 <= d < layout.shape.len() implies moved[d] < layout.shape[d] by {
        if d > 0 {
            assert(index[d] < kept.shape[d]);
        }
    }
    if has_zero(layout.shape) {
        let z = choose|d: int| 0 <= d < layout.shape.len() && layout.shape[d] == 0;
        assert(moved[z] < layout.shape[z]);
    }
    lemma_dot_upto_update(index, layout.strides, 0, (index[0] + start) as usize, index.len() as int);
    lemma_dot_within_extent(moved, layout.shape, layout.strides);
    lemma_dot_upto_monotone(index, index, layout.strides, index.len() as int);
    let t = layout.strides[0] as int;
    let x = index[0] as int;
    assert(moved[0] == x + start);
    assert((x + start - x) * t == start * t) by (nonlinear_arith);
    assert(0 <= start * t) by (nonlinear_arith)
        requires
            0 <= t,
            0 <= start,
    ;
    assert(start != end);
    assert(!layout.is_empty());
    assert(kept.strides == layout.strides);
    assert(dot(moved, layout.strides) == dot(index, layout.strides) + start * t);
    assert(kept.offset == layout.offset + start * t);
}

/// In a tensor in row-major order over its whole buffer, the position
/// behind the last row is the length of the buffer: every range of rows,
/// also the empty one behind the last row, starts at a position that a
/// `usize` holds.
pub proof fn lemma_dense_row_start_fits(layout: Layout, start: usize)
    requires
        layout.strides == row_major_strides(layout.shape),
        layout.offset == 0,
        layout.shape.len() >= 1,
        shape_size(layout.shape) <= usize::MAX,
        start <= layout.shape[0],
    ensures
        layout.row_start_fits(start),
{
    if !layout.is_empty() {
        lemma_size_zero_iff(layout.shape);
        lemma_tail_size_positive(layout.shape, 1);
        lemma_tail_size_monotone(layout.shape, 0, 1);
        let t = tail_size(layout.shape, 1);
        let s = layout.shape[0] as int;
        assert(layout.strides[0] as int == t);
        assert(0 <= start * t <= s * t) by (nonlinear_arith)
            requires
                0 <= start <= s,
                0 <= t,
        ;
    }
}

/// Two buffers whose elements stand for the same integers are the same.
pub proof fn lemma_vals_determine<U: TensorTypeNumeric>(a: Seq<U>, b: Seq<U>)
    requires
        vals(a) == vals(b),
    ensures
        a == b,
{
    assert(a.len() == vals(a).len());
    assert(b.len() == vals(b).len());
    assert forall|i: int| 0 <= i < a.len() implies a[i] == b[i] by {
        assert(vals(a)[i] == a[i].val());
        assert(vals(b)[i] == b[i].val());
        U::lemma_val_determines(a[i], b[i]);
    }
    assert(a =~= b);
}

/// Elementwise addition does not depend on the order of its operands:
/// the shapes are compatible either way or neither, and the sums are the
/// same.
pub proof fn lemma_add_commutes<U: TensorTypeNumeric>(a: Layout, da: Seq<U>, b: Layout, db: Seq<U>)
    ensures
        bc_compatible(a.shape, b.shape) == bc_compatible(b.shape, a.shape),
        bc_shape(a.shape, b.shape) == bc_shape(b.shape, a.shape),
        can_broadcast(a, b) == can_broadcast(b, a),
        elementwise_fits(a, da, b, db, false) == elementwise_fits(b, db, a, da, false),
        elementwise_vals(a, da, b, db, false) == elementwise_vals(b, db, a, da, false),
{
    lemma_bc_symmetric(a.shape, b.shape);
    assert(elementwise_vals(a, da, b, db, false) =~= elementwise_vals(b, db, a, da, false));
}

/// The sum of `a` and `b` and the sum of `b` and `a`, as `add` builds
/// them, are equal tensors: the same buffer, shape and strides.
pub proof fn lemma_add_results_equal<U: TensorTypeNumeric>(
    a: Layout,
    da: Seq<U>,
    b: Layout,
    db: Seq<U>,
    ab: Layout,
    dab: Seq<U>,
    ba: Layout,
    dba: Seq<U>,
)
    requires
        ab.shape == bc_shape(a.shape, b.shape),
        ab.strides == row_major_strides(ab.shape),
        vals(dab) == elementwise_vals(a, da, b, db, false),
        ba.shape == bc_shape(b.shape, a.shape),
        ba.strides == row_major_strides(ba.shape),
        vals(dba) == elementwise_vals(b, db, a, da, false),
    ensures
        same_tensor(ab, dab, ba, dba),
{
    lemma_add_commutes(a, da, b, db);
    lemma_vals_determine(dab, dba);
}

/// Subtraction is not symmetric, but the shape that it broadcasts to is.
pub proof fn lemma_sub_shape_symmetric(a: Seq<usize>, b: Seq<usize>)
    ensures
        bc_compatible(a, b) == bc_compatible(b, a),
        bc_shape(a, b) == bc_shape(b, a),
{
    lemma_bc_symmetric(a, b);
}

/// Transposing twice gives the layout back, and with it, over the same
/// buffer, every element.
pub proof fn lemma_transpose_twice<U>(layout: Layout, data: Seq<U>)
    requires
        layout.fits(data.len()),
        layout.shape.len() <= usize::MAX,
    ensures
        layout.transpose().transpose() == layout,
        shown(layout.transpose().transpose(), data) == shown(layout, data),
{
    let n = layout.shape.len() as int;
    let axes = reversed_axes(n);
    let once = layout.transpose();
    let twice = once.transpose();
    lemma_reversed_axes_permutation(n);
    lemma_has_zero_select(layout.shape, axes);
    lemma_size_zero_iff(layout.shape);
    lemma_size_zero_iff(once.shape);
    assert(twice.shape =~= layout.shape);
    assert(twice.strides =~= layout.strides);
}

} // verus!
