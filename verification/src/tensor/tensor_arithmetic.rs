//! Broadcasting, elementwise arithmetic, batched matrix multiplication and
//! arithmetic with a scalar.

use std::marker::PhantomData;
use std::ops::{Add, AddAssign, Mul, MulAssign, Sub, SubAssign};
use super::{Error, Tensor, TensorBase, TensorIterMut, TensorStorage, TensorTypeNumeric, TensorView};
use super::tensor_iter::{cursor_start, map_shown, ElementOp};
use super::tensor_layout::{
    advance, checked_shape_size, dot, dot_upto, has_zero, lemma_dot_upto_grows,
    lemma_dot_within_extent, lemma_extent_row_major, lemma_next_index, lemma_nth_index_valid,
    lemma_nth_position_fits, lemma_size_zero_iff, nth_index, shape_size, valid_index, zero_index,
    Layout,
};
use vstd::prelude::*;
use vstd::slice::{slice_subrange, slice_to_vec};
use vstd::std_specs::ops::{AddSpecImpl, MulSpecImpl, SubSpecImpl};

verus! {

/// The size that `shape` shows at axis `d` of an output of `n` axes, when
/// the shapes are aligned at their last axes: 1 where `shape` has no such
/// axis.
pub open spec fn aligned_dim(shape: Seq<usize>, n: int, d: int) -> usize {
    if d >= n - shape.len() {
        shape[d - (n - shape.len())]
    } else {
        1
    }
}

/// Two sizes that broadcasting brings together: equal, or one of them 1.
pub open spec fn dims_agree(x: usize, y: usize) -> bool {
    x == y || x == 1 || y == 1
}

/// The larger of two ranks.
pub open spec fn max_rank(a: Seq<usize>, b: Seq<usize>) -> int {
    if a.len() >= b.len() {
        a.len() as int
    } else {
        b.len() as int
    }
}

/// The two shapes can be broadcast against each other.
pub open spec fn bc_compatible(a: Seq<usize>, b: Seq<usize>) -> bool {
    forall|d: int|
        0 <= d < max_rank(a, b) ==> dims_agree(
            #[trigger] aligned_dim(a, max_rank(a, b), d),
            aligned_dim(b, max_rank(a, b), d),
        )
}

/// The shape that broadcasting two compatible shapes gives: the larger
/// size at each aligned axis.
pub open spec fn bc_shape(a: Seq<usize>, b: Seq<usize>) -> Seq<usize> {
    Seq::new(
        max_rank(a, b) as nat,
        |d: int|
            if aligned_dim(a, max_rank(a, b), d) >= aligned_dim(b, max_rank(a, b), d) {
                aligned_dim(a, max_rank(a, b), d)
            } else {
                aligned_dim(b, max_rank(a, b), d)
            },
    )
}

/// The axes of `shape` before its last two: the batch axes of a stack of
/// matrices.
pub open spec fn batch_axes(shape: Seq<usize>) -> Seq<usize> {
    shape.take(shape.len() - 2)
}

/// Two stacks of matrices can be multiplied: each has its two matrix axes,
/// the inner sizes are equal, and the batch axes can be broadcast.
pub open spec fn mm_compatible(a: Seq<usize>, b: Seq<usize>) -> bool {
    &&& a.len() >= 2
    &&& b.len() >= 2
    &&& a[a.len() - 1] == b[b.len() - 2]
    &&& bc_compatible(batch_axes(a), batch_axes(b))
}

/// The shape of the product of two stacks of matrices: the broadcast
/// batch axes, then rows of the left and columns of the right.
pub open spec fn mm_shape(a: Seq<usize>, b: Seq<usize>) -> Seq<usize> {
    bc_shape(batch_axes(a), batch_axes(b)).push(a[a.len() - 2]).push(b[b.len() - 1])
}

/// The index at which an operand of shape `shape` is read for the output
/// index `index`: the operand's axes are aligned with the last axes of the
/// output, and along an axis of size 1 it is always read at 0.
pub open spec fn bc_index(index: Seq<usize>, shape: Seq<usize>) -> Seq<usize> {
    Seq::new(
        shape.len(),
        |d: int|
            if shape[d] == 1 {
                0usize
            } else {
                index[d + index.len() - shape.len()]
            },
    )
}

/// The position in an operand's buffer that is read for the `p`-th
/// element of an output of shape `out_shape`.
pub open spec fn bc_position(operand: Layout, out_shape: Seq<usize>, p: int) -> int {
    operand.position(bc_index(nth_index(out_shape, p), operand.shape))
}

/// The integer that an operand contributes to the `p`-th element of an
/// output of shape `out_shape`.
pub open spec fn bc_val<U: TensorTypeNumeric>(
    operand: Layout,
    data: Seq<U>,
    out_shape: Seq<usize>,
    p: int,
) -> int {
    data[bc_position(operand, out_shape, p)].val()
}

/// The integers that the elements of a buffer stand for.
pub open spec fn vals<U: TensorTypeNumeric>(data: Seq<U>) -> Seq<int> {
    Seq::new(data.len(), |i: int| data[i].val())
}

/// Two operands can be combined element by element into a tensor in
/// memory: the result has a size that a `usize` holds, and an operand
/// without elements meets only a result without elements.
pub open spec fn can_broadcast(a: Layout, b: Layout) -> bool {
    let c = bc_shape(a.shape, b.shape);
    &&& shape_size(c) <= usize::MAX
    &&& shape_size(c) > 0 ==> !a.is_empty() && !b.is_empty()
}

/// The elements of the sum of two operands, or with `subtract` of their
/// difference, in row-major order of the broadcast shape.
pub open spec fn elementwise_vals<U: TensorTypeNumeric>(
    a: Layout,
    da: Seq<U>,
    b: Layout,
    db: Seq<U>,
    subtract: bool,
) -> Seq<int> {
    let c = bc_shape(a.shape, b.shape);
    Seq::new(
        shape_size(c) as nat,
        |p: int|
            if subtract {
                bc_val(a, da, c, p) - bc_val(b, db, c, p)
            } else {
                bc_val(a, da, c, p) + bc_val(b, db, c, p)
            },
    )
}

/// Every element of the sum, or of the difference, lies within the
/// element type.
pub open spec fn elementwise_fits<U: TensorTypeNumeric>(
    a: Layout,
    da: Seq<U>,
    b: Layout,
    db: Seq<U>,
    subtract: bool,
) -> bool {
    forall|p: int|
        0 <= p < elementwise_vals(a, da, b, db, subtract).len() ==> U::min_val()
            <= #[trigger] elementwise_vals(a, da, b, db, subtract)[p] <= U::max_val()
}

/// Broadcasting does not depend on the order of the two shapes.
pub proof fn lemma_bc_symmetric(a: Seq<usize>, b: Seq<usize>)
    ensures
        bc_compatible(a, b) == bc_compatible(b, a),
        bc_shape(a, b) == bc_shape(b, a),
{
    let n = max_rank(a, b);
    assert(n == max_rank(b, a));
    if bc_compatible(a, b) {
        assert forall|d: int| 0 <= d < n implies dims_agree(
            #[trigger] aligned_dim(b, n, d),
            aligned_dim(a, n, d),
        ) by {
            assert(dims_agree(aligned_dim(a, n, d), aligned_dim(b, n, d)));
        }
    }
    if bc_compatible(b, a) {
        assert forall|d: int| 0 <= d < n implies dims_agree(
            #[trigger] aligned_dim(a, n, d),
            aligned_dim(b, n, d),
        ) by {
            assert(dims_agree(aligned_dim(b, n, d), aligned_dim(a, n, d)));
        }
    }
    assert(bc_shape(a, b) =~= bc_shape(b, a));
}

/// An output index, read on an operand without zero dimension, is an
/// index of that operand.
pub proof fn lemma_bc_index_valid(index: Seq<usize>, a: Seq<usize>, b: Seq<usize>)
    requires
        bc_compatible(a, b),
        valid_index(index, bc_shape(a, b)),
        !has_zero(a),
    ensures
        valid_index(bc_index(index, a), a),
{
    let n = max_rank(a, b);
    let c = bc_shape(a, b);
    assert forall|d: int| 0 <= d < a.len() implies bc_index(index, a)[d] < a[d] by {
        let e = d + n - a.len();
        assert(aligned_dim(a, n, e) == a[d]);
        assert(dims_agree(aligned_dim(a, n, e), aligned_dim(b, n, e)));
        assert(a[d] != 0);
        assert(index[e] < c[e]);
    }
}

/// The same for the second operand.
pub proof fn lemma_bc_index_valid_right(index: Seq<usize>, a: Seq<usize>, b: Seq<usize>)
    requires
        bc_compatible(a, b),
        valid_index(index, bc_shape(a, b)),
        !has_zero(b),
    ensures
        valid_index(bc_index(index, b), b),
{
    lemma_bc_symmetric(a, b);
    lemma_bc_index_valid(index, b, a);
}

/// The distance from an operand's base at which the operand is read for
/// the output index `index`.
fn offset(index: &[usize], shape: &[usize], strides: &[usize]) -> (r: usize)
    requires
        strides@.len() == shape@.len() <= index@.len(),
        dot(bc_index(index@, shape@), strides@) <= usize::MAX,
    ensures
        r == dot(bc_index(index@, shape@), strides@),
{
    let n = shape.len();
    let shift = index.len() - n;
    let ghost read = bc_index(index@, shape@);
    let mut sum: usize = 0;
    let mut d: usize = 0;
    while d < n
        invariant
            d <= n,
            n == shape@.len(),
            n == strides@.len(),
            shift == index@.len() - n,
            index@.len() <= usize::MAX,
            read == bc_index(index@, shape@),
            dot_upto(read, strides@, n as int) <= usize::MAX,
            sum == dot_upto(read, strides@, d as int),
        decreases n - d,
    {
        proof {
            lemma_dot_upto_grows(read, strides@, d + 1, n as int);
            lemma_dot_upto_grows(read, strides@, d as int, d + 1);
        }
        let i = if shape[d] == 1 {
            0
        } else {
            index[d + shift]
        };
        assert(i == read[d as int]);
        assert(dot_upto(read, strides@, d + 1) == dot_upto(read, strides@, d as int) + (i as int)
            * (strides@[d as int] as int));
        assert(0 <= (i as int) * (strides@[d as int] as int)) by (nonlinear_arith);
        sum += i * strides[d];
        d += 1;
    }
    sum
}

/// The index at which the left operand of a matrix product is read for the
/// output index `index` and the inner position `k`: the batch axes under
/// broadcasting, then the output's row, then `k`.
pub open spec fn mm_left_index(index: Seq<usize>, a: Seq<usize>, k: int) -> Seq<usize> {
    bc_index(index.take(index.len() - 2), batch_axes(a)).push(index[index.len() - 2]).push(
        k as usize,
    )
}

/// The index at which the right operand of a matrix product is read: the
/// batch axes under broadcasting, then `k`, then the output's column.
pub open spec fn mm_right_index(index: Seq<usize>, b: Seq<usize>, k: int) -> Seq<usize> {
    bc_index(index.take(index.len() - 2), batch_axes(b)).push(k as usize).push(
        index[index.len() - 1],
    )
}

/// One product of the sum that makes the output element at `index`.
pub open spec fn mm_term<U: TensorTypeNumeric>(
    a: Layout,
    da: Seq<U>,
    b: Layout,
    db: Seq<U>,
    index: Seq<usize>,
    k: int,
) -> int {
    da[a.position(mm_left_index(index, a.shape, k))].val() * db[b.position(
        mm_right_index(index, b.shape, k),
    )].val()
}

/// The sum of the first `k` products for the output element at `index`.
pub open spec fn mm_sum<U: TensorTypeNumeric>(
    a: Layout,
    da: Seq<U>,
    b: Layout,
    db: Seq<U>,
    index: Seq<usize>,
    k: int,
) -> int
    decreases k,
{
    if k <= 0 {
        0
    } else {
        mm_sum(a, da, b, db, index, k - 1) + mm_term(a, da, b, db, index, k - 1)
    }
}

/// The size of the axis that a matrix product sums over.
pub open spec fn inner_size(a: Seq<usize>) -> int {
    a[a.len() - 1] as int
}

/// The elements of the product of two stacks of matrices, in row-major
/// order: each is the sum over the inner axis of row times column.
pub open spec fn mm_vals<U: TensorTypeNumeric>(a: Layout, da: Seq<U>, b: Layout, db: Seq<U>) -> Seq<
    int,
> {
    let c = mm_shape(a.shape, b.shape);
    Seq::new(
        shape_size(c) as nat,
        |p: int| mm_sum(a, da, b, db, nth_index(c, p), inner_size(a.shape)),
    )
}

/// Every product and every partial sum of the matrix product lies within
/// the element type.
pub open spec fn mm_fits<U: TensorTypeNumeric>(a: Layout, da: Seq<U>, b: Layout, db: Seq<U>) -> bool {
    let c = mm_shape(a.shape, b.shape);
    forall|p: int, k: int|
        0 <= p < shape_size(c) && 0 <= k < inner_size(a.shape) ==> {
            &&& U::min_val() <= #[trigger] mm_term(a, da, b, db, nth_index(c, p), k)
                <= U::max_val()
            &&& U::min_val() <= mm_sum(a, da, b, db, nth_index(c, p), k + 1) <= U::max_val()
        }
}

/// Two stacks of matrices can be multiplied into a tensor in memory: the
/// result has a size that a `usize` holds, and where anything is summed
/// up for it, both operands have elements.
pub open spec fn can_multiply(a: Layout, b: Layout) -> bool {
    let c = mm_shape(a.shape, b.shape);
    &&& shape_size(c) <= usize::MAX
    &&& shape_size(c) > 0 && inner_size(a.shape) > 0 ==> !a.is_empty() && !b.is_empty()
}

proof fn lemma_mm_batch_index(index: Seq<usize>, a: Seq<usize>, b: Seq<usize>)
    requires
        mm_compatible(a, b),
        valid_index(index, mm_shape(a, b)),
    ensures
        index.len() >= 2,
        valid_index(index.take(index.len() - 2), bc_shape(batch_axes(a), batch_axes(b))),
        index[index.len() - 2] < a[a.len() - 2],
        index[index.len() - 1] < b[b.len() - 1],
{
    let c = mm_shape(a, b);
    let batch = bc_shape(batch_axes(a), batch_axes(b));
    let n = index.len() as int;
    assert(c[n - 2] == a[a.len() - 2]);
    assert(c[n - 1] == b[b.len() - 1]);
    assert forall|d: int| 0 <= d < n - 2 implies index.take(n - 2)[d] < batch[d] by {
        assert(c[d] == batch[d]);
    }
}

proof fn lemma_mm_left(a: Layout, b: Seq<usize>, index: Seq<usize>, k: int)
    requires
        mm_compatible(a.shape, b),
        valid_index(index, mm_shape(a.shape, b)),
        a.strides.len() == a.shape.len(),
        !has_zero(a.shape),
        0 <= k < inner_size(a.shape),
    ensures
        valid_index(mm_left_index(index, a.shape, k), a.shape),
        dot(mm_left_index(index, a.shape, k), a.strides) == dot(
            bc_index(index.take(index.len() - 2), batch_axes(a.shape)),
            a.strides.take(a.shape.len() - 2),
        ) + index[index.len() - 2] * a.strides[a.shape.len() - 2] + k * a.strides[a.shape.len()
            - 1],
        0 <= dot(
            bc_index(index.take(index.len() - 2), batch_axes(a.shape)),
            a.strides.take(a.shape.len() - 2),
        ),
{
    let na = a.shape.len() as int;
    let batch_a = batch_axes(a.shape);
    let head = bc_index(index.take(index.len() - 2), batch_a);
    let left = mm_left_index(index, a.shape, k);
    lemma_mm_batch_index(index, a.shape, b);
    if has_zero(batch_a) {
        let z = choose|d: int| 0 <= d < batch_a.len() && batch_a[d] == 0;
        assert(a.shape[z] == 0);
    }
    lemma_bc_index_valid(index.take(index.len() - 2), batch_a, batch_axes(b));
    assert forall|d: int| 0 <= d < na implies left[d] < a.shape[d] by {
        if d < na - 2 {
            assert(left[d] == head[d]);
            assert(batch_a[d] == a.shape[d]);
        }
    }
    super::tensor_layout::lemma_dot_upto_agree(
        left,
        a.strides,
        head,
        a.strides.take(na - 2),
        na - 2,
    );
    super::tensor_layout::lemma_dot_upto_monotone(head, head, a.strides.take(na - 2), na - 2);
    assert(dot_upto(left, a.strides, na - 1) == dot_upto(left, a.strides, na - 2) + (left[na
        - 2] as int) * (a.strides[na - 2] as int));
    assert(dot_upto(left, a.strides, na) == dot_upto(left, a.strides, na - 1) + (left[na
        - 1] as int) * (a.strides[na - 1] as int));
}

proof fn lemma_mm_right(a: Seq<usize>, b: Layout, index: Seq<usize>, k: int)
    requires
        mm_compatible(a, b.shape),
        valid_index(index, mm_shape(a, b.shape)),
        b.strides.len() == b.shape.len(),
        !has_zero(b.shape),
        0 <= k < inner_size(a),
    ensures
        valid_index(mm_right_index(index, b.shape, k), b.shape),
        dot(mm_right_index(index, b.shape, k), b.strides) == dot(
            bc_index(index.take(index.len() - 2), batch_axes(b.shape)),
            b.strides.take(b.shape.len() - 2),
        ) + k * b.strides[b.shape.len() - 2] + index[index.len() - 1] * b.strides[b.shape.len()
            - 1],
        0 <= dot(
            bc_index(index.take(index.len() - 2), batch_axes(b.shape)),
            b.strides.take(b.shape.len() - 2),
        ),
{
    let nb = b.shape.len() as int;
    let batch_b = batch_axes(b.shape);
    let head = bc_index(index.take(index.len() - 2), batch_b);
    let right = mm_right_index(index, b.shape, k);
    lemma_mm_batch_index(index, a, b.shape);
    if has_zero(batch_b) {
        let z = choose|d: int| 0 <= d < batch_b.len() && batch_b[d] == 0;
        assert(b.shape[z] == 0);
    }
    lemma_bc_index_valid_right(index.take(index.len() - 2), batch_axes(a), batch_b);
    assert forall|d: int| 0 <= d < nb implies right[d] < b.shape[d] by {
        if d < nb - 2 {
            assert(right[d] == head[d]);
            assert(batch_b[d] == b.shape[d]);
        }
    }
    super::tensor_layout::lemma_dot_upto_agree(
        right,
        b.strides,
        head,
        b.strides.take(nb - 2),
        nb - 2,
    );
    super::tensor_layout::lemma_dot_upto_monotone(head, head, b.strides.take(nb - 2), nb - 2);
    assert(dot_upto(right, b.strides, nb - 1) == dot_upto(right, b.strides, nb - 2) + (right[nb
        - 2] as int) * (b.strides[nb - 2] as int));
    assert(dot_upto(right, b.strides, nb) == dot_upto(right, b.strides, nb - 1) + (right[nb
        - 1] as int) * (b.strides[nb - 1] as int));
}

/// Where the left operand of a matrix product is read, in the terms in
/// which the position is computed.
proof fn lemma_mm_left_read(a: Layout, len: nat, b: Seq<usize>, index: Seq<usize>, k: int)
    requires
        a.fits(len),
        !a.is_empty(),
        mm_compatible(a.shape, b),
        valid_index(index, mm_shape(a.shape, b)),
        0 <= k < inner_size(a.shape),
    ensures
        index.len() >= 2,
        0 <= dot(
            bc_index(index.take(index.len() - 2), batch_axes(a.shape)),
            a.strides.take(a.shape.len() - 2),
        ),
        0 <= index[index.len() - 2] * a.strides[a.shape.len() - 2],
        0 <= k * a.strides[a.shape.len() - 1],
        a.position(mm_left_index(index, a.shape, k)) == a.offset + dot(
            bc_index(index.take(index.len() - 2), batch_axes(a.shape)),
            a.strides.take(a.shape.len() - 2),
        ) + index[index.len() - 2] * a.strides[a.shape.len() - 2] + k * a.strides[a.shape.len()
            - 1],
        a.position(mm_left_index(index, a.shape, k)) < len,
{
    lemma_size_zero_iff(a.shape);
    lemma_mm_batch_index(index, a.shape, b);
    lemma_mm_left(a, b, index, k);
    lemma_dot_within_extent(mm_left_index(index, a.shape, k), a.shape, a.strides);
    let x = index[index.len() - 2] as int;
    let s = a.strides[a.shape.len() - 2] as int;
    let t = a.strides[a.shape.len() - 1] as int;
    assert(0 <= x * s) by (nonlinear_arith)
        requires
            0 <= x,
            0 <= s,
    ;
    assert(0 <= k * t) by (nonlinear_arith)
        requires
            0 <= k,
            0 <= t,
    ;
}

/// Where the right operand of a matrix product is read, in the terms in
/// which the position is computed.
proof fn lemma_mm_right_read(a: Seq<usize>, b: Layout, len: nat, index: Seq<usize>, k: int)
    requires
        b.fits(len),
        !b.is_empty(),
        mm_compatible(a, b.shape),
        valid_index(index, mm_shape(a, b.shape)),
        0 <= k < inner_size(a),
    ensures
        index.len() >= 2,
        0 <= dot(
            bc_index(index.take(index.len() - 2), batch_axes(b.shape)),
            b.strides.take(b.shape.len() - 2),
        ),
        0 <= k * b.strides[b.shape.len() - 2],
        0 <= index[index.len() - 1] * b.strides[b.shape.len() - 1],
        b.position(mm_right_index(index, b.shape, k)) == b.offset + dot(
            bc_index(index.take(index.len() - 2), batch_axes(b.shape)),
            b.strides.take(b.shape.len() - 2),
        ) + k * b.strides[b.shape.len() - 2] + index[index.len() - 1] * b.strides[b.shape.len()
            - 1],
        b.position(mm_right_index(index, b.shape, k)) < len,
{
    lemma_size_zero_iff(b.shape);
    lemma_mm_batch_index(index, a, b.shape);
    lemma_mm_right(a, b, index, k);
    lemma_dot_within_extent(mm_right_index(index, b.shape, k), b.shape, b.strides);
    let x = index[index.len() - 1] as int;
    let s = b.strides[b.shape.len() - 2] as int;
    let t = b.strides[b.shape.len() - 1] as int;
    assert(0 <= k * s) by (nonlinear_arith)
        requires
            0 <= k,
            0 <= s,
    ;
    assert(0 <= x * t) by (nonlinear_arith)
        requires
            0 <= x,
            0 <= t,
    ;
}

/// Every result of applying `op` to the elements that `layout` shows, one
/// after the other, lies within the element type.
pub open spec fn pass_fits<U: TensorTypeNumeric>(layout: Layout, values: Seq<int>, op: ElementOp) -> bool {
    forall|n: int|
        0 <= n < shape_size(layout.shape) ==> U::min_val() <= op.apply(
            (#[trigger] map_shown(layout, values, op, n))[layout.nth_position(n)],
        ) <= U::max_val()
}

/// What a pass over a tensor does with each element and a scalar.
pub(crate) enum PassOp {
    Add,
    Sub,
    Mul,
    Rectify,
}

impl PassOp {
    /// The operation on integers that the pass with `scaler` applies.
    pub(crate) open spec fn with(self, scaler: int) -> ElementOp {
        match self {
            PassOp::Add => ElementOp::Plus(scaler),
            PassOp::Sub => ElementOp::Minus(scaler),
            PassOp::Mul => ElementOp::Times(scaler),
            PassOp::Rectify => ElementOp::Rectify,
        }
    }
}

/// Applies `op` with `scaler` to every element that the layout shows of
/// `data`, in place, one after the other in the order of the mutable
/// iterator.
pub(crate) fn pass_over<U: TensorTypeNumeric>(
    shape: &[usize],
    strides: &[usize],
    offset: usize,
    data: &mut [U],
    op: PassOp,
    scaler: U,
)
    requires
        shape@.len() >= 1,
        (Layout { shape: shape@, strides: strides@, offset }).fits(old(data)@.len()),
        op is Rectify || pass_fits::<U>(
            (Layout { shape: shape@, strides: strides@, offset }),
            vals(old(data)@),
            op.with(scaler.val()),
        ),
    ensures
        final(data)@.len() == old(data)@.len(),
        vals(final(data)@) == map_shown(
            (Layout { shape: shape@, strides: strides@, offset }),
            vals(old(data)@),
            op.with(scaler.val()),
            shape_size(shape@),
        ),
{
    let zero = U::zero();
    let ghost layout = Layout { shape: shape@, strides: strides@, offset };
    let ghost before = vals(data@);
    let ghost total = shape_size(shape@);
    let ghost each = op.with(scaler.val());
    let ghost len = data@.len();
    let ghost fate = final(data)@;
    let mut it = TensorIterMut {
        shape,
        strides,
        offset: &offset,
        data,
        index: cursor_start(shape),
        _u: PhantomData,
    };
    loop
        invariant
            it.wf(),
            it.layout() == layout,
            total == shape_size(layout.shape),
            0 <= it.left() <= total,
            final(it.data)@ == fate,
            it.data@.len() == len,
            each == op.with(scaler.val()),
            op is Rectify || pass_fits::<U>(layout, before, each),
            vals(it.data@) == map_shown(layout, before, each, total - it.left()),
            zero.val() == 0,
        ensures
            it.left() == 0,
        decreases it.left(),
    {
        let ghost seen = total - it.left();
        let ghost current = vals(it.data@);
        proof {
            if it.left() > 0 {
                lemma_nth_position_fits(layout, it.data@.len(), seen);
                if !(op is Rectify) {
                    assert(U::min_val() <= each.apply(
                        map_shown(layout, before, each, seen)[layout.nth_position(seen)],
                    ) <= U::max_val());
                }
            }
        }
        match it.next() {
            Some(val) => {
                let ghost orig = *val;
                let x = *val;
                *val = match op {
                    PassOp::Add => x.plus(scaler),
                    PassOp::Sub => x.minus(scaler),
                    PassOp::Mul => x.times(scaler),
                    PassOp::Rectify => if x.less_than(zero) {
                        zero
                    } else {
                        x
                    },
                };
                proof {
                    let pos = layout.nth_position(seen);
                    assert(orig.val() == current[pos]);
                    assert(it.data@[pos].val() == each.apply(orig.val()));
                    assert(vals(it.data@) =~= current.update(pos, each.apply(current[pos])));
                }
            },
            None => {
                break ;
            },
        }
    }
}

/// Broadcasts `batch_a` against `batch_b`. An error names the shapes that
/// the batches were taken from.
fn elem_wise_bc(batch_a: &[usize], batch_b: &[usize], shape_a: &[usize], shape_b: &[usize]) -> (r:
    Result<Vec<usize>, Error>)
    ensures
        bc_compatible(batch_a@, batch_b@) ==> r is Ok && r->Ok_0@ == bc_shape(batch_a@, batch_b@),
        !bc_compatible(batch_a@, batch_b@) ==> r is Err && r->Err_0.is_broadcast_mismatch(
            shape_a@,
            shape_b@,
        ),
{
    let ndim_a = batch_a.len();
    let ndim_b = batch_b.len();
    let ndim_c = if ndim_a >= ndim_b {
        ndim_a
    } else {
        ndim_b
    };
    let mut shape_c: Vec<usize> = Vec::with_capacity(ndim_c);
    let mut dim: usize = 0;
    while dim < ndim_c
        invariant
            dim <= ndim_c,
            ndim_a == batch_a@.len(),
            ndim_b == batch_b@.len(),
            ndim_c == max_rank(batch_a@, batch_b@),
            shape_c@.len() == dim,
            forall|d: int|
                0 <= d < dim ==> dims_agree(
                    #[trigger] aligned_dim(batch_a@, ndim_c as int, d),
                    aligned_dim(batch_b@, ndim_c as int, d),
                ),
            forall|d: int| 0 <= d < dim ==> shape_c@[d] == bc_shape(batch_a@, batch_b@)[d],
        decreases ndim_c - dim,
    {
        let dim_a = if dim >= ndim_c - ndim_a {
            batch_a[dim - (ndim_c - ndim_a)]
        } else {
            1
        };
        let dim_b = if dim >= ndim_c - ndim_b {
            batch_b[dim - (ndim_c - ndim_b)]
        } else {
            1
        };
        assert(dim_a == aligned_dim(batch_a@, ndim_c as int, dim as int));
        assert(dim_b == aligned_dim(batch_b@, ndim_c as int, dim as int));
        if dim_a == dim_b || dim_a == 1 || dim_b == 1 {
            shape_c.push(if dim_a >= dim_b { dim_a } else { dim_b });
        } else {
            return Err(
                Error::ShapeMismatchBroadcast {
                    shape_a: slice_to_vec(shape_a),
                    shape_b: slice_to_vec(shape_b),
                },
            );
        }
        dim += 1;
    }
    assert(shape_c@ =~= bc_shape(batch_a@, batch_b@));
    Ok(shape_c)
}

impl<'a, U, S> TensorBase<'a, U, S> where U: TensorTypeNumeric, S: TensorStorage<U> {
    /// The shape of the result of an operation on tensors of shapes
    /// `shape_a` and `shape_b`: elementwise, or with `batch_mul` the
    /// product of two stacks of matrices. Fails with
    /// `ShapeMismatchBroadcast` when the shapes do not go together.
    pub fn shape_bc(shape_a: &[usize], shape_b: &[usize], batch_mul: bool) -> (r: Result<
        Vec<usize>,
        Error,
    >)
        ensures
            !batch_mul && bc_compatible(shape_a@, shape_b@) ==> r is Ok && r->Ok_0@ == bc_shape(
                shape_a@,
                shape_b@,
            ),
            !batch_mul && !bc_compatible(shape_a@, shape_b@) ==> r is Err
                && r->Err_0.is_broadcast_mismatch(shape_a@, shape_b@),
            batch_mul && mm_compatible(shape_a@, shape_b@) ==> r is Ok && r->Ok_0@ == mm_shape(
                shape_a@,
                shape_b@,
            ),
            batch_mul && !mm_compatible(shape_a@, shape_b@) ==> r is Err
                && r->Err_0.is_broadcast_mismatch(shape_a@, shape_b@),
    {
        let ndim_a = shape_a.len();
        let ndim_b = shape_b.len();
        let mut shape_c;

        if batch_mul {
            if ndim_a < 2 || ndim_b < 2 {
                return Err(
                    Error::ShapeMismatchBroadcast {
                        shape_a: slice_to_vec(shape_a),
                        shape_b: slice_to_vec(shape_b),
                    },
                );
            }
            let batch_a = slice_subrange(shape_a, 0, ndim_a - 2);
            let m = shape_a[ndim_a - 2];
            let k_a = shape_a[ndim_a - 1];

            let batch_b = slice_subrange(shape_b, 0, ndim_b - 2);
            let k_b = shape_b[ndim_b - 2];
            let n = shape_b[ndim_b - 1];

            if k_a != k_b {
                return Err(
                    Error::ShapeMismatchBroadcast {
                        shape_a: slice_to_vec(shape_a),
                        shape_b: slice_to_vec(shape_b),
                    },
                );
            }
            assert(batch_a@ =~= batch_axes(shape_a@));
            assert(batch_b@ =~= batch_axes(shape_b@));
            shape_c = elem_wise_bc(batch_a, batch_b, shape_a, shape_b)?;
            shape_c.push(m);
            shape_c.push(n);
        } else {
            shape_c = elem_wise_bc(shape_a, shape_b, shape_a, shape_b)?;
        }

        Ok(shape_c)
    }

    /// The position in this tensor's buffer that is read for the output
    /// index `index`.
    fn read_position(&self, index: &[usize], other: Ghost<Seq<usize>>) -> (r: usize)
        requires
            self.wf(),
            !self.is_empty(),
            bc_compatible(self.spec_shape(), other@) || bc_compatible(other@, self.spec_shape()),
            valid_index(index@, bc_shape(self.spec_shape(), other@)),
        ensures
            r == self.layout().position(bc_index(index@, self.spec_shape())),
            r < self.spec_data().len(),
    {
        proof {
            lemma_size_zero_iff(self.shape@);
            lemma_bc_symmetric(self.shape@, other@);
            lemma_bc_index_valid(index@, self.shape@, other@);
            lemma_dot_within_extent(bc_index(index@, self.shape@), self.shape@, self.strides@);
            self.lemma_nelems_in_range();
            assert(max_rank(self.shape@, other@) >= self.shape@.len());
        }
        self.offset + offset(index, self.shape.as_slice(), self.strides.as_slice())
    }

    /// The tensor has no element: one of its dimensions is zero.
    pub open spec fn is_empty(&self) -> bool {
        self.layout().is_empty()
    }

    /// The sum of the two tensors, or with `subtract` their difference,
    /// element by element under broadcasting.
    fn elementwise(&self, tensor_b: &TensorView<'_, U>, subtract: bool) -> (r: Result<
        Tensor<'static, U>,
        Error,
    >)
        requires
            self.wf(),
            tensor_b.wf(),
            bc_compatible(self.spec_shape(), tensor_b.spec_shape()) ==> can_broadcast(
                self.layout(),
                tensor_b.layout(),
            ) && elementwise_fits(
                self.layout(),
                self.spec_data(),
                tensor_b.layout(),
                tensor_b.spec_data(),
                subtract,
            ),
        ensures
            !bc_compatible(self.spec_shape(), tensor_b.spec_shape()) ==> r is Err
                && r->Err_0.is_broadcast_mismatch(self.spec_shape(), tensor_b.spec_shape()),
            bc_compatible(self.spec_shape(), tensor_b.spec_shape()) ==> r is Ok && {
                &&& r->Ok_0.spec_shape() == bc_shape(self.spec_shape(), tensor_b.spec_shape())
                &&& r->Ok_0.is_dense()
                &&& r->Ok_0.wf()
                &&& vals(r->Ok_0.spec_data()) == elementwise_vals(
                    self.layout(),
                    self.spec_data(),
                    tensor_b.layout(),
                    tensor_b.spec_data(),
                    subtract,
                )
            },
    {
        let shape_c = Self::shape_bc(self.shape.as_slice(), tensor_b.shape.as_slice(), false)?;
        let strides_c = self.compute_strides(shape_c.as_slice());
        let total = checked_shape_size(shape_c.as_slice()).unwrap();
        let mut data_c: Vec<U> = Vec::with_capacity(total);
        let mut index = zero_index(shape_c.as_slice());
        let ghost expected = elementwise_vals(
            self.layout(),
            self.spec_data(),
            tensor_b.layout(),
            tensor_b.spec_data(),
            subtract,
        );
        let mut p: usize = 0;
        while p < total
            invariant
                p <= total,
                total == shape_size(shape_c@),
                self.wf(),
                tensor_b.wf(),
                bc_compatible(self.spec_shape(), tensor_b.spec_shape()),
                shape_c@ == bc_shape(self.spec_shape(), tensor_b.spec_shape()),
                can_broadcast(self.layout(), tensor_b.layout()),
                expected == elementwise_vals(
                    self.layout(),
                    self.spec_data(),
                    tensor_b.layout(),
                    tensor_b.spec_data(),
                    subtract,
                ),
                elementwise_fits(
                    self.layout(),
                    self.spec_data(),
                    tensor_b.layout(),
                    tensor_b.spec_data(),
                    subtract,
                ),
                p < total ==> index@ == nth_index(shape_c@, p as int),
                data_c@.len() == p,
                forall|q: int| 0 <= q < p ==> (#[trigger] data_c@[q]).val() == expected[q],
            decreases total - p,
        {
            proof {
                lemma_nth_index_valid(shape_c@, p as int);
                lemma_bc_symmetric(self.spec_shape(), tensor_b.spec_shape());
            }
            let offset_a = self.read_position(index.as_slice(), Ghost(tensor_b.spec_shape()));
            let offset_b = tensor_b.read_position(index.as_slice(), Ghost(self.spec_shape()));
            let x = self.data.get(offset_a);
            let y = TensorStorage::get(&tensor_b.data, offset_b);
            assert(x.val() == bc_val(self.layout(), self.spec_data(), shape_c@, p as int));
            assert(y.val() == bc_val(tensor_b.layout(), tensor_b.spec_data(), shape_c@, p as int));
            assert(U::min_val() <= expected[p as int] <= U::max_val());
            let z = if subtract {
                x.minus(y)
            } else {
                x.plus(y)
            };
            data_c.push(z);
            proof {
                if shape_c@.len() >= 1 {
                    lemma_next_index(shape_c@, p as int);
                }
            }
            if p + 1 < total {
                advance(&mut index, shape_c.as_slice());
            }
            p += 1;
        }
        proof {
            lemma_size_zero_iff(shape_c@);
            if total > 0 {
                lemma_extent_row_major(shape_c@);
            }
            assert(vals(data_c@) =~= expected);
        }
        Ok(
            Tensor {
                data: data_c,
                shape: shape_c,
                strides: strides_c,
                offset: 0,
                _u: PhantomData,
                _s: PhantomData,
            },
        )
    }

    /// The same as `add`.
    #[inline(always)]
    pub fn add_alias(&self, tensor_b: &TensorView<'_, U>) -> (r: Result<Tensor<'static, U>, Error>)
        requires
            self.wf(),
            tensor_b.wf(),
            bc_compatible(self.spec_shape(), tensor_b.spec_shape()) ==> can_broadcast(
                self.layout(),
                tensor_b.layout(),
            ) && elementwise_fits(
                self.layout(),
                self.spec_data(),
                tensor_b.layout(),
                tensor_b.spec_data(),
                false,
            ),
        ensures
            !bc_compatible(self.spec_shape(), tensor_b.spec_shape()) ==> r is Err
                && r->Err_0.is_broadcast_mismatch(self.spec_shape(), tensor_b.spec_shape()),
            bc_compatible(self.spec_shape(), tensor_b.spec_shape()) ==> r is Ok && {
                &&& r->Ok_0.spec_shape() == bc_shape(self.spec_shape(), tensor_b.spec_shape())
                &&& r->Ok_0.is_dense()
                &&& r->Ok_0.wf()
                &&& vals(r->Ok_0.spec_data()) == elementwise_vals(
                    self.layout(),
                    self.spec_data(),
                    tensor_b.layout(),
                    tensor_b.spec_data(),
                    false,
                )
            },
    {
        self.add(tensor_b)
    }

    /// The sum of the two tensors, element by element under
    /// broadcasting, as a new tensor in row-major order. Fails with
    /// `ShapeMismatchBroadcast` when the shapes cannot be broadcast. No
    /// sum leaves the element type.
    pub fn add(&self, tensor_b: &TensorView<'_, U>) -> (r: Result<Tensor<'static, U>, Error>)
        requires
            self.wf(),
            tensor_b.wf(),
            bc_compatible(self.spec_shape(), tensor_b.spec_shape()) ==> can_broadcast(
                self.layout(),
                tensor_b.layout(),
            ) && elementwise_fits(
                self.layout(),
                self.spec_data(),
                tensor_b.layout(),
                tensor_b.spec_data(),
                false,
            ),
        ensures
            !bc_compatible(self.spec_shape(), tensor_b.spec_shape()) ==> r is Err
                && r->Err_0.is_broadcast_mismatch(self.spec_shape(), tensor_b.spec_shape()),
            bc_compatible(self.spec_shape(), tensor_b.spec_shape()) ==> r is Ok && {
                &&& r->Ok_0.spec_shape() == bc_shape(self.spec_shape(), tensor_b.spec_shape())
                &&& r->Ok_0.is_dense()
                &&& r->Ok_0.wf()
                &&& vals(r->Ok_0.spec_data()) == elementwise_vals(
                    self.layout(),
                    self.spec_data(),
                    tensor_b.layout(),
                    tensor_b.spec_data(),
                    false,
                )
            },
    {
        self.elementwise(tensor_b, false)
    }

    /// The element of the matrix product at the output index `index`: the
    /// sum over the inner axis of the left operand's row times the right
    /// operand's column.
    fn row_times_column(&self, tensor_b: &TensorView<'_, U>, index: &[usize]) -> (sum: U)
        requires
            self.wf(),
            tensor_b.wf(),
            !self.is_empty(),
            !tensor_b.is_empty(),
            mm_compatible(self.spec_shape(), tensor_b.spec_shape()),
            valid_index(index@, mm_shape(self.spec_shape(), tensor_b.spec_shape())),
            forall|k: int|
                0 <= k < inner_size(self.spec_shape()) ==> {
                    &&& U::min_val() <= #[trigger] mm_term(
                        self.layout(),
                        self.spec_data(),
                        tensor_b.layout(),
                        tensor_b.spec_data(),
                        index@,
                        k,
                    ) <= U::max_val()
                    &&& U::min_val() <= mm_sum(
                        self.layout(),
                        self.spec_data(),
                        tensor_b.layout(),
                        tensor_b.spec_data(),
                        index@,
                        k + 1,
                    ) <= U::max_val()
                },
        ensures
            sum.val() == mm_sum(
                self.layout(),
                self.spec_data(),
                tensor_b.layout(),
                tensor_b.spec_data(),
                index@,
                inner_size(self.spec_shape()),
            ),
    {
        let ghost la = self.layout();
        let ghost lb = tensor_b.layout();
        let ghost da = self.spec_data();
        let ghost db = tensor_b.spec_data();
        let ndim_a = self.shape.len();
        let ndim_b = tensor_b.shape.len();
        let ndim_c = index.len();
        let k = self.shape[ndim_a - 1];
        proof {
            lemma_size_zero_iff(la.shape);
            assert(k > 0);
            lemma_mm_left_read(la, da.len(), lb.shape, index@, 0);
            lemma_mm_right_read(la.shape, lb, db.len(), index@, 0);
            self.lemma_nelems_in_range();
            tensor_b.lemma_nelems_in_range();
            lemma_size_zero_iff(la.shape);
            lemma_size_zero_iff(lb.shape);
        }
        let batch = slice_subrange(index, 0, ndim_c - 2);
        let mi = index[ndim_c - 2];
        let ji = index[ndim_c - 1];
        let batch_a = slice_subrange(self.shape.as_slice(), 0, ndim_a - 2);
        let batch_b = slice_subrange(tensor_b.shape.as_slice(), 0, ndim_b - 2);
        let steps_a = slice_subrange(self.strides.as_slice(), 0, ndim_a - 2);
        let steps_b = slice_subrange(tensor_b.strides.as_slice(), 0, ndim_b - 2);
        let row_a = self.strides[ndim_a - 2];
        let col_a = self.strides[ndim_a - 1];
        let row_b = tensor_b.strides[ndim_b - 2];
        let col_b = tensor_b.strides[ndim_b - 1];
        proof {
            assert(batch@ =~= index@.take(index@.len() - 2));
            assert(batch_a@ =~= batch_axes(la.shape));
            assert(batch_b@ =~= batch_axes(lb.shape));
            assert(steps_a@ =~= la.strides.take(la.shape.len() - 2));
            assert(steps_b@ =~= lb.strides.take(lb.shape.len() - 2));
        }
        let base_a = self.offset + offset(batch, batch_a, steps_a);
        let base_b = tensor_b.offset + offset(batch, batch_b, steps_b);
        let part_a = base_a + mi * row_a;
        let part_b = base_b + ji * col_b;
        proof {
            assert forall|j: int| 0 <= j < k implies {
                &&& 0 <= j * col_a
                &&& part_a + j * col_a == #[trigger] la.position(
                    mm_left_index(index@, la.shape, j),
                )
                &&& part_a + j * col_a < da.len() <= usize::MAX
            } by {
                lemma_mm_left_read(la, da.len(), lb.shape, index@, j);
            }
            assert forall|j: int| 0 <= j < k implies {
                &&& 0 <= j * row_b
                &&& part_b + j * row_b == #[trigger] lb.position(
                    mm_right_index(index@, lb.shape, j),
                )
                &&& part_b + j * row_b < db.len() <= usize::MAX
            } by {
                lemma_mm_right_read(la.shape, lb, db.len(), index@, j);
            }
        }

        let mut sum = U::zero();
        let mut ki: usize = 0;
        while ki < k
            invariant
                ki <= k,
                k == inner_size(la.shape),
                la == self.layout(),
                lb == tensor_b.layout(),
                da == self.spec_data(),
                db == tensor_b.spec_data(),
                forall|j: int|
                    0 <= j < k ==> {
                        &&& U::min_val() <= #[trigger] mm_term(la, da, lb, db, index@, j)
                            <= U::max_val()
                        &&& U::min_val() <= mm_sum(la, da, lb, db, index@, j + 1) <= U::max_val()
                    },
                forall|j: int|
                    0 <= j < k ==> {
                        &&& 0 <= j * col_a
                        &&& part_a + j * col_a == #[trigger] la.position(
                            mm_left_index(index@, la.shape, j),
                        )
                        &&& part_a + j * col_a < da.len() <= usize::MAX
                    },
                forall|j: int|
                    0 <= j < k ==> {
                        &&& 0 <= j * row_b
                        &&& part_b + j * row_b == #[trigger] lb.position(
                            mm_right_index(index@, lb.shape, j),
                        )
                        &&& part_b + j * row_b < db.len() <= usize::MAX
                    },
                sum.val() == mm_sum(la, da, lb, db, index@, ki as int),
            decreases k - ki,
        {
            assert(la.position(mm_left_index(index@, la.shape, ki as int)) == part_a + ki * col_a);
            assert(lb.position(mm_right_index(index@, lb.shape, ki as int)) == part_b + ki
                * row_b);
            let offset_a = part_a + ki * col_a;
            let offset_b = part_b + ki * row_b;
            let x = self.data.get(offset_a);
            let y = TensorStorage::get(&tensor_b.data, offset_b);
            assert(x.val() * y.val() == mm_term(la, da, lb, db, index@, ki as int));
            assert(mm_sum(la, da, lb, db, index@, ki + 1) == mm_sum(
                la,
                da,
                lb,
                db,
                index@,
                ki as int,
            ) + mm_term(la, da, lb, db, index@, ki as int));
            sum = sum.plus(x.times(y));
            ki += 1;
        }
        sum
    }

    /// The same as `mul`.
    #[inline(always)]
    pub fn mul_alias(&self, tensor_b: &TensorView<'_, U>) -> (r: Result<Tensor<'static, U>, Error>)
        requires
            self.wf(),
            tensor_b.wf(),
            mm_compatible(self.spec_shape(), tensor_b.spec_shape()) ==> can_multiply(
                self.layout(),
                tensor_b.layout(),
            ) && mm_fits(
                self.layout(),
                self.spec_data(),
                tensor_b.layout(),
                tensor_b.spec_data(),
            ),
        ensures
            !mm_compatible(self.spec_shape(), tensor_b.spec_shape()) ==> r is Err
                && r->Err_0.is_broadcast_mismatch(self.spec_shape(), tensor_b.spec_shape()),
            mm_compatible(self.spec_shape(), tensor_b.spec_shape()) ==> r is Ok && {
                &&& r->Ok_0.spec_shape() == mm_shape(self.spec_shape(), tensor_b.spec_shape())
                &&& r->Ok_0.is_dense()
                &&& r->Ok_0.wf()
                &&& vals(r->Ok_0.spec_data()) == mm_vals(
                    self.layout(),
                    self.spec_data(),
                    tensor_b.layout(),
                    tensor_b.spec_data(),
                )
            },
    {
        self.mul(tensor_b)
    }

    /// The product of two stacks of matrices: the last two axes of each
    /// operand are rows and columns, the axes before them are broadcast,
    /// and each element of the result is the sum over the inner axis of
    /// row times column. Fails with `ShapeMismatchBroadcast` when an
    /// operand has fewer than two axes, when the inner sizes differ, or
    /// when the batch axes cannot be broadcast. No product and no partial
    /// sum leaves the element type.
    pub fn mul(&self, tensor_b: &TensorView<'_, U>) -> (r: Result<Tensor<'static, U>, Error>)
        requires
            self.wf(),
            tensor_b.wf(),
            mm_compatible(self.spec_shape(), tensor_b.spec_shape()) ==> can_multiply(
                self.layout(),
                tensor_b.layout(),
            ) && mm_fits(
                self.layout(),
                self.spec_data(),
                tensor_b.layout(),
                tensor_b.spec_data(),
            ),
        ensures
            !mm_compatible(self.spec_shape(), tensor_b.spec_shape()) ==> r is Err
                && r->Err_0.is_broadcast_mismatch(self.spec_shape(), tensor_b.spec_shape()),
            mm_compatible(self.spec_shape(), tensor_b.spec_shape()) ==> r is Ok && {
                &&& r->Ok_0.spec_shape() == mm_shape(self.spec_shape(), tensor_b.spec_shape())
                &&& r->Ok_0.is_dense()
                &&& r->Ok_0.wf()
                &&& vals(r->Ok_0.spec_data()) == mm_vals(
                    self.layout(),
                    self.spec_data(),
                    tensor_b.layout(),
                    tensor_b.spec_data(),
                )
            },
    {
        let shape_a = self.shape();
        let shape_b = tensor_b.shape();
        let shape_c = Self::shape_bc(shape_a.as_slice(), shape_b.as_slice(), true)?;

        let strides_a = self.strides();
        let strides_b = tensor_b.strides();
        let strides_c = self.compute_strides(shape_c.as_slice());

        let ndim_a = shape_a.len();
        let ndim_b = shape_b.len();
        let ndim_c = shape_c.len();

        let k = shape_a[ndim_a - 1];
        let total = checked_shape_size(shape_c.as_slice()).unwrap();

        let ghost la = self.layout();
        let ghost lb = tensor_b.layout();
        let ghost da = self.spec_data();
        let ghost db = tensor_b.spec_data();
        let ghost expected = mm_vals(la, da, lb, db);

        let mut data_c: Vec<U> = Vec::with_capacity(total);
        let mut index = zero_index(shape_c.as_slice());
        let mut p: usize = 0;
        while p < total
            invariant
                p <= total,
                total == shape_size(shape_c@),
                self.wf(),
                tensor_b.wf(),
                la == self.layout(),
                lb == tensor_b.layout(),
                da == self.spec_data(),
                db == tensor_b.spec_data(),
                shape_a@ == la.shape,
                shape_b@ == lb.shape,
                strides_a@ == la.strides,
                strides_b@ == lb.strides,
                mm_compatible(la.shape, lb.shape),
                shape_c@ == mm_shape(la.shape, lb.shape),
                ndim_a == shape_a@.len(),
                ndim_b == shape_b@.len(),
                ndim_c == shape_c@.len(),
                k == inner_size(la.shape),
                can_multiply(la, lb),
                mm_fits(la, da, lb, db),
                expected == mm_vals(la, da, lb, db),
                p < total ==> index@ == nth_index(shape_c@, p as int),
                data_c@.len() == p,
                forall|q: int| 0 <= q < p ==> (#[trigger] data_c@[q]).val() == expected[q],
            decreases total - p,
        {
            proof {
                lemma_nth_index_valid(shape_c@, p as int);
            }
            let sum = if k > 0 {
                self.row_times_column(tensor_b, index.as_slice())
            } else {
                U::zero()
            };
            assert(sum.val() == expected[p as int]);
            data_c.push(sum);
            proof {
                lemma_next_index(shape_c@, p as int);
            }
            if p + 1 < total {
                advance(&mut index, shape_c.as_slice());
            }
            p += 1;
        }
        proof {
            lemma_size_zero_iff(shape_c@);
            if total > 0 {
                lemma_extent_row_major(shape_c@);
            }
            assert(vals(data_c@) =~= expected);
        }
        Ok(
            Tensor {
                data: data_c,
                shape: shape_c,
                strides: strides_c,
                offset: 0,
                _u: PhantomData,
                _s: PhantomData,
            },
        )
    }

    /// The same as `sub`.
    #[inline(always)]
    pub fn sub_alias(&self, tensor_b: &TensorView<'_, U>) -> (r: Result<Tensor<'static, U>, Error>)
        requires
            self.wf(),
            tensor_b.wf(),
            bc_compatible(self.spec_shape(), tensor_b.spec_shape()) ==> can_broadcast(
                self.layout(),
                tensor_b.layout(),
            ) && elementwise_fits(
                self.layout(),
                self.spec_data(),
                tensor_b.layout(),
                tensor_b.spec_data(),
                true,
            ),
        ensures
            !bc_compatible(self.spec_shape(), tensor_b.spec_shape()) ==> r is Err
                && r->Err_0.is_broadcast_mismatch(self.spec_shape(), tensor_b.spec_shape()),
            bc_compatible(self.spec_shape(), tensor_b.spec_shape()) ==> r is Ok && {
                &&& r->Ok_0.spec_shape() == bc_shape(self.spec_shape(), tensor_b.spec_shape())
                &&& r->Ok_0.is_dense()
                &&& r->Ok_0.wf()
                &&& vals(r->Ok_0.spec_data()) == elementwise_vals(
                    self.layout(),
                    self.spec_data(),
                    tensor_b.layout(),
                    tensor_b.spec_data(),
                    true,
                )
            },
    {
        self.sub(tensor_b)
    }

    /// The difference of the two tensors, element by element under
    /// broadcasting, as a new tensor in row-major order. Fails with
    /// `ShapeMismatchBroadcast` when the shapes cannot be broadcast. No
    /// difference leaves the element type.
    pub fn sub(&self, tensor_b: &TensorView<'_, U>) -> (r: Result<Tensor<'static, U>, Error>)
        requires
            self.wf(),
            tensor_b.wf(),
            bc_compatible(self.spec_shape(), tensor_b.spec_shape()) ==> can_broadcast(
                self.layout(),
                tensor_b.layout(),
            ) && elementwise_fits(
                self.layout(),
                self.spec_data(),
                tensor_b.layout(),
                tensor_b.spec_data(),
                true,
            ),
        ensures
            !bc_compatible(self.spec_shape(), tensor_b.spec_shape()) ==> r is Err
                && r->Err_0.is_broadcast_mismatch(self.spec_shape(), tensor_b.spec_shape()),
            bc_compatible(self.spec_shape(), tensor_b.spec_shape()) ==> r is Ok && {
                &&& r->Ok_0.spec_shape() == bc_shape(self.spec_shape(), tensor_b.spec_shape())
                &&& r->Ok_0.is_dense()
                &&& r->Ok_0.wf()
                &&& vals(r->Ok_0.spec_data()) == elementwise_vals(
                    self.layout(),
                    self.spec_data(),
                    tensor_b.layout(),
                    tensor_b.spec_data(),
                    true,
                )
            },
    {
        self.elementwise(tensor_b, true)
    }
}

impl<'a, U> TensorBase<'a, U, Vec<U>> where U: TensorTypeNumeric {
    /// Adds `scaler` to every element that the tensor shows, in
    /// place, one after the other in row-major order. The tensor has
    /// at least one axis, and no sum leaves the element type.
    pub fn add_scalar(&mut self, scaler: U)
        requires
            old(self).wf(),
            old(self).spec_shape().len() >= 1,
            pass_fits::<U>(
                old(self).layout(),
                vals(old(self).spec_data()),
                ElementOp::Plus(scaler.val()),
            ),
        ensures
            final(self).layout() == old(self).layout(),
            final(self).wf(),
            vals(final(self).spec_data()) == map_shown(
                old(self).layout(),
                vals(old(self).spec_data()),
                ElementOp::Plus(scaler.val()),
                shape_size(old(self).spec_shape()),
            ),
    {
        pass_over(
            self.shape.as_slice(),
            self.strides.as_slice(),
            self.offset,
            self.data.as_mut_slice(),
            PassOp::Add,
            scaler,
        );
    }

    /// Subtracts `scaler` from every element that the tensor shows, in
    /// place, one after the other in row-major order. The tensor has
    /// at least one axis, and no difference leaves the element type.
    pub fn sub_scalar(&mut self, scaler: U)
        requires
            old(self).wf(),
            old(self).spec_shape().len() >= 1,
            pass_fits::<U>(
                old(self).layout(),
                vals(old(self).spec_data()),
                ElementOp::Minus(scaler.val()),
            ),
        ensures
            final(self).layout() == old(self).layout(),
            final(self).wf(),
            vals(final(self).spec_data()) == map_shown(
                old(self).layout(),
                vals(old(self).spec_data()),
                ElementOp::Minus(scaler.val()),
                shape_size(old(self).spec_shape()),
            ),
    {
        pass_over(
            self.shape.as_slice(),
            self.strides.as_slice(),
            self.offset,
            self.data.as_mut_slice(),
            PassOp::Sub,
            scaler,
        );
    }

    /// Multiplies by `scaler` every element that the tensor shows, in
    /// place, one after the other in row-major order. The tensor has
    /// at least one axis, and no product leaves the element type.
    pub fn mul_scalar(&mut self, scaler: U)
        requires
            old(self).wf(),
            old(self).spec_shape().len() >= 1,
            pass_fits::<U>(
                old(self).layout(),
                vals(old(self).spec_data()),
                ElementOp::Times(scaler.val()),
            ),
        ensures
            final(self).layout() == old(self).layout(),
            final(self).wf(),
            vals(final(self).spec_data()) == map_shown(
                old(self).layout(),
                vals(old(self).spec_data()),
                ElementOp::Times(scaler.val()),
                shape_size(old(self).spec_shape()),
            ),
    {
        pass_over(
            self.shape.as_slice(),
            self.strides.as_slice(),
            self.offset,
            self.data.as_mut_slice(),
            PassOp::Mul,
            scaler,
        );
    }
}

impl<'a, U> TensorBase<'a, U, &'a mut [U]> where U: TensorTypeNumeric {
    /// Adds `scaler` to every element that the view shows, in
    /// place, one after the other in row-major order. The view has
    /// at least one axis, and no sum leaves the element type.
    /// What is written is written to the buffer that the view was
    /// borrowed from.
    pub fn add_scalar(&mut self, scaler: U)
        requires
            old(self).wf(),
            old(self).spec_shape().len() >= 1,
            pass_fits::<U>(
                old(self).layout(),
                vals(old(self).spec_data()),
                ElementOp::Plus(scaler.val()),
            ),
        ensures
            final(self).layout() == old(self).layout(),
            final(self).wf(),
            final(final(self).data)@ == final(old(self).data)@,
            vals(final(self).spec_data()) == map_shown(
                old(self).layout(),
                vals(old(self).spec_data()),
                ElementOp::Plus(scaler.val()),
                shape_size(old(self).spec_shape()),
            ),
    {
        pass_over(
            self.shape.as_slice(),
            self.strides.as_slice(),
            self.offset,
            &mut *self.data,
            PassOp::Add,
            scaler,
        );
    }

    /// Subtracts `scaler` from every element that the view shows, in
    /// place, one after the other in row-major order. The view has
    /// at least one axis, and no difference leaves the element type.
    /// What is written is written to the buffer that the view was
    /// borrowed from.
    pub fn sub_scalar(&mut self, scaler: U)
        requires
            old(self).wf(),
            old(self).spec_shape().len() >= 1,
            pass_fits::<U>(
                old(self).layout(),
                vals(old(self).spec_data()),
                ElementOp::Minus(scaler.val()),
            ),
        ensures
            final(self).layout() == old(self).layout(),
            final(self).wf(),
            final(final(self).data)@ == final(old(self).data)@,
            vals(final(self).spec_data()) == map_shown(
                old(self).layout(),
                vals(old(self).spec_data()),
                ElementOp::Minus(scaler.val()),
                shape_size(old(self).spec_shape()),
            ),
    {
        pass_over(
            self.shape.as_slice(),
            self.strides.as_slice(),
            self.offset,
            &mut *self.data,
            PassOp::Sub,
            scaler,
        );
    }

    /// Multiplies by `scaler` every element that the view shows, in
    /// place, one after the other in row-major order. The view has
    /// at least one axis, and no product leaves the element type.
    /// What is written is written to the buffer that the view was
    /// borrowed from.
    pub fn mul_scalar(&mut self, scaler: U)
        requires
            old(self).wf(),
            old(self).spec_shape().len() >= 1,
            pass_fits::<U>(
                old(self).layout(),
                vals(old(self).spec_data()),
                ElementOp::Times(scaler.val()),
            ),
        ensures
            final(self).layout() == old(self).layout(),
            final(self).wf(),
            final(final(self).data)@ == final(old(self).data)@,
            vals(final(self).spec_data()) == map_shown(
                old(self).layout(),
                vals(old(self).spec_data()),
                ElementOp::Times(scaler.val()),
                shape_size(old(self).spec_shape()),
            ),
    {
        pass_over(
            self.shape.as_slice(),
            self.strides.as_slice(),
            self.offset,
            &mut *self.data,
            PassOp::Mul,
            scaler,
        );
    }
}

/// A tensor without axes and without elements: what the operators give
/// where the method fails.
fn nothing<U: TensorTypeNumeric>() -> (r: Tensor<'static, U>)
    ensures
        r.spec_shape().len() == 0,
        r.spec_strides().len() == 0,
        r.spec_offset() == 0,
        r.spec_data().len() == 0,
{
    Tensor {
        shape: Vec::new(),
        strides: Vec::new(),
        offset: 0,
        data: Vec::new(),
        _u: PhantomData,
        _s: PhantomData,
    }
}

impl<U, S1, S2> Add<&TensorBase<'_, U, S1>> for &TensorBase<'_, U, S2> where U: TensorTypeNumeric + 'static, S1: TensorStorage<U>, S2: TensorStorage<U> {
    type Output = TensorBase<'static, U, Vec<U>>;

    /// `a + b`: the sum as `add` gives it, or a tensor without axes
    /// and without elements where `add` fails.
    fn add(self, other: &TensorBase<'_, U, S1>) -> Self::Output {
        let tensor = self.add_alias(&other.view());
        match tensor {
            Ok(val) => val,
            Err(_) => nothing(),
        }
    }
}

impl<U, S1, S2> AddSpecImpl<&TensorBase<'_, U, S1>> for &TensorBase<'_, U, S2> where U: TensorTypeNumeric + 'static, S1: TensorStorage<U>, S2: TensorStorage<U> {
    /// The operator's result is said in words only: see `add`.
    open spec fn obeys_add_spec() -> bool {
        false
    }

    /// What `add` asks of its operands.
    open spec fn add_req(self, other: &TensorBase<'_, U, S1>) -> bool {
        &&& self.wf()
        &&& other.wf()
        &&& bc_compatible(self.spec_shape(), other.spec_shape()) ==> can_broadcast(
            self.layout(),
            other.layout(),
        ) && elementwise_fits(
            self.layout(),
            self.spec_data(),
            other.layout(),
            other.spec_data(),
            false,
        )
    }

    open spec fn add_spec(self, other: &TensorBase<'_, U, S1>) -> TensorBase<'static, U, Vec<U>> {
        arbitrary()
    }
}

impl<U, S1, S2> Sub<&TensorBase<'_, U, S1>> for &TensorBase<'_, U, S2> where U: TensorTypeNumeric + 'static, S1: TensorStorage<U>, S2: TensorStorage<U> {
    type Output = TensorBase<'static, U, Vec<U>>;

    /// `a - b`: the difference as `sub` gives it, or a tensor without axes
    /// and without elements where `sub` fails.
    fn sub(self, other: &TensorBase<'_, U, S1>) -> Self::Output {
        let tensor = self.sub_alias(&other.view());
        match tensor {
            Ok(val) => val,
            Err(_) => nothing(),
        }
    }
}

impl<U, S1, S2> SubSpecImpl<&TensorBase<'_, U, S1>> for &TensorBase<'_, U, S2> where U: TensorTypeNumeric + 'static, S1: TensorStorage<U>, S2: TensorStorage<U> {
    /// The operator's result is said in words only: see `sub`.
    open spec fn obeys_sub_spec() -> bool {
        false
    }

    /// What `sub` asks of its operands.
    open spec fn sub_req(self, other: &TensorBase<'_, U, S1>) -> bool {
        &&& self.wf()
        &&& other.wf()
        &&& bc_compatible(self.spec_shape(), other.spec_shape()) ==> can_broadcast(
            self.layout(),
            other.layout(),
        ) && elementwise_fits(
            self.layout(),
            self.spec_data(),
            other.layout(),
            other.spec_data(),
            true,
        )
    }

    open spec fn sub_spec(self, other: &TensorBase<'_, U, S1>) -> TensorBase<'static, U, Vec<U>> {
        arbitrary()
    }
}

impl<U, S1, S2> Mul<&TensorBase<'_, U, S1>> for &TensorBase<'_, U, S2> where U: TensorTypeNumeric + 'static, S1: TensorStorage<U>, S2: TensorStorage<U> {
    type Output = TensorBase<'static, U, Vec<U>>;

    /// `a * b`: the product as `mul` gives it, or a tensor without axes
    /// and without elements where `mul` fails.
    fn mul(self, other: &TensorBase<'_, U, S1>) -> Self::Output {
        let tensor = self.mul_alias(&other.view());
        match tensor {
            Ok(val) => val,
            Err(_) => nothing(),
        }
    }
}

impl<U, S1, S2> MulSpecImpl<&TensorBase<'_, U, S1>> for &TensorBase<'_, U, S2> where U: TensorTypeNumeric + 'static, S1: TensorStorage<U>, S2: TensorStorage<U> {
    /// The operator's result is said in words only: see `mul`.
    open spec fn obeys_mul_spec() -> bool {
        false
    }

    /// What `mul` asks of its operands.
    open spec fn mul_req(self, other: &TensorBase<'_, U, S1>) -> bool {
        &&& self.wf()
        &&& other.wf()
        &&& mm_compatible(self.spec_shape(), other.spec_shape()) ==> can_multiply(
            self.layout(),
            other.layout(),
        ) && mm_fits(self.layout(), self.spec_data(), other.layout(), other.spec_data())
    }

    open spec fn mul_spec(self, other: &TensorBase<'_, U, S1>) -> TensorBase<'static, U, Vec<U>> {
        arbitrary()
    }
}

impl<'a, U> AddAssign<U> for TensorBase<'a, U, Vec<U>> where U: TensorTypeNumeric {
    /// `a += s`: what `add_scalar` does.
    fn add_assign(&mut self, other: U)
        requires
            old(self).wf(),
            old(self).spec_shape().len() >= 1,
            pass_fits::<U>(
                old(self).layout(),
                vals(old(self).spec_data()),
                ElementOp::Plus(other.val()),
            ),
        ensures
            final(self).layout() == old(self).layout(),
            final(self).wf(),
            vals(final(self).spec_data()) == map_shown(
                old(self).layout(),
                vals(old(self).spec_data()),
                ElementOp::Plus(other.val()),
                shape_size(old(self).spec_shape()),
            ),
    {
        self.add_scalar(other);
    }
}

impl<'a, U> SubAssign<U> for TensorBase<'a, U, Vec<U>> where U: TensorTypeNumeric {
    /// `a -= s`: what `sub_scalar` does.
    fn sub_assign(&mut self, other: U)
        requires
            old(self).wf(),
            old(self).spec_shape().len() >= 1,
            pass_fits::<U>(
                old(self).layout(),
                vals(old(self).spec_data()),
                ElementOp::Minus(other.val()),
            ),
        ensures
            final(self).layout() == old(self).layout(),
            final(self).wf(),
            vals(final(self).spec_data()) == map_shown(
                old(self).layout(),
                vals(old(self).spec_data()),
                ElementOp::Minus(other.val()),
                shape_size(old(self).spec_shape()),
            ),
    {
        self.sub_scalar(other);
    }
}

impl<'a, U> MulAssign<U> for TensorBase<'a, U, Vec<U>> where U: TensorTypeNumeric {
    /// `a *= s`: what `mul_scalar` does.
    fn mul_assign(&mut self, other: U)
        requires
            old(self).wf(),
            old(self).spec_shape().len() >= 1,
            pass_fits::<U>(
                old(self).layout(),
                vals(old(self).spec_data()),
                ElementOp::Times(other.val()),
            ),
        ensures
            final(self).layout() == old(self).layout(),
            final(self).wf(),
            vals(final(self).spec_data()) == map_shown(
                old(self).layout(),
                vals(old(self).spec_data()),
                ElementOp::Times(other.val()),
                shape_size(old(self).spec_shape()),
            ),
    {
        self.mul_scalar(other);
    }
}

impl<'a, U> AddAssign<U> for TensorBase<'a, U, &'a mut [U]> where U: TensorTypeNumeric {
    /// `a += s`: what `add_scalar` does.
    fn add_assign(&mut self, other: U)
        requires
            old(self).wf(),
            old(self).spec_shape().len() >= 1,
            pass_fits::<U>(
                old(self).layout(),
                vals(old(self).spec_data()),
                ElementOp::Plus(other.val()),
            ),
        ensures
            final(self).layout() == old(self).layout(),
            final(self).wf(),
            final(final(self).data)@ == final(old(self).data)@,
            vals(final(self).spec_data()) == map_shown(
                old(self).layout(),
                vals(old(self).spec_data()),
                ElementOp::Plus(other.val()),
                shape_size(old(self).spec_shape()),
            ),
    {
        self.add_scalar(other);
    }
}

impl<'a, U> SubAssign<U> for TensorBase<'a, U, &'a mut [U]> where U: TensorTypeNumeric {
    /// `a -= s`: what `sub_scalar` does.
    fn sub_assign(&mut self, other: U)
        requires
            old(self).wf(),
            old(self).spec_shape().len() >= 1,
            pass_fits::<U>(
                old(self).layout(),
                vals(old(self).spec_data()),
                ElementOp::Minus(other.val()),
            ),
        ensures
            final(self).layout() == old(self).layout(),
            final(self).wf(),
            final(final(self).data)@ == final(old(self).data)@,
            vals(final(self).spec_data()) == map_shown(
                old(self).layout(),
                vals(old(self).spec_data()),
                ElementOp::Minus(other.val()),
                shape_size(old(self).spec_shape()),
            ),
    {
        self.sub_scalar(other);
    }
}

impl<'a, U> MulAssign<U> for TensorBase<'a, U, &'a mut [U]> where U: TensorTypeNumeric {
    /// `a *= s`: what `mul_scalar` does.
    fn mul_assign(&mut self, other: U)
        requires
            old(self).wf(),
            old(self).spec_shape().len() >= 1,
            pass_fits::<U>(
                old(self).layout(),
                vals(old(self).spec_data()),
                ElementOp::Times(other.val()),
            ),
        ensures
            final(self).layout() == old(self).layout(),
            final(self).wf(),
            final(final(self).data)@ == final(old(self).data)@,
            vals(final(self).spec_data()) == map_shown(
                old(self).layout(),
                vals(old(self).spec_data()),
                ElementOp::Times(other.val()),
                shape_size(old(self).spec_shape()),
            ),
    {
        self.mul_scalar(other);
    }
}

} // verus!
