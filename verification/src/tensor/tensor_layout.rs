//! The arithmetic of shapes, strides and flat offsets, as mathematical
//! functions, together with the facts about them that the engine relies on.

use vstd::arithmetic::div_mod::{
    lemma_fundamental_div_mod, lemma_fundamental_div_mod_converse, lemma_mod_bound,
    lemma_mod_breakdown,
};
use vstd::prelude::*;

verus! {

/// Product of the dimensions of `shape` from axis `k` on; 1 past the end.
pub open spec fn tail_size(shape: Seq<usize>, k: int) -> int
    decreases shape.len() - k,
{
    if k < 0 || k >= shape.len() {
        1
    } else {
        (shape[k] as int) * tail_size(shape, k + 1)
    }
}

/// Number of index tuples that `shape` admits.
pub open spec fn shape_size(shape: Seq<usize>) -> int {
    tail_size(shape, 0)
}

/// Some dimension of `shape` is zero.
pub open spec fn has_zero(shape: Seq<usize>) -> bool {
    exists|d: int| 0 <= d < shape.len() && shape[d] == 0
}

/// `index` names one element of a tensor of shape `shape`.
pub open spec fn valid_index(index: Seq<usize>, shape: Seq<usize>) -> bool {
    &&& index.len() == shape.len()
    &&& forall|d: int| 0 <= d < shape.len() ==> index[d] < shape[d]
}

/// The row-major strides of `shape`: axis `d` steps over everything behind
/// it. A shape with a zero dimension has no strides at all.
pub open spec fn row_major_strides(shape: Seq<usize>) -> Seq<usize> {
    if shape_size(shape) == 0 {
        Seq::empty()
    } else {
        Seq::new(shape.len(), |d: int| tail_size(shape, d + 1) as usize)
    }
}

/// Without a zero dimension every tail has an index tuple.
pub proof fn lemma_tail_size_positive(shape: Seq<usize>, k: int)
    requires
        !has_zero(shape),
    ensures
        tail_size(shape, k) >= 1,
    decreases shape.len() - k,
{
    if 0 <= k < shape.len() {
        lemma_tail_size_positive(shape, k + 1);
        assert(shape[k] >= 1);
        assert((shape[k] as int) * tail_size(shape, k + 1) >= 1) by (nonlinear_arith)
            requires
                shape[k] >= 1,
                tail_size(shape, k + 1) >= 1,
        ;
    }
}

/// A zero dimension leaves the tails that hold it without index tuple.
pub proof fn lemma_tail_size_zero(shape: Seq<usize>, k: int, z: int)
    requires
        0 <= k <= z < shape.len(),
        shape[z] == 0,
    ensures
        tail_size(shape, k) == 0,
    decreases z - k,
{
    if k < z {
        lemma_tail_size_zero(shape, k + 1, z);
    }
    assert((shape[k] as int) * tail_size(shape, k + 1) == 0) by (nonlinear_arith)
        requires
            shape[k] == 0 || tail_size(shape, k + 1) == 0,
    ;
}

/// No tail has fewer than no index tuples.
pub proof fn lemma_tail_size_nonneg(shape: Seq<usize>, k: int)
    ensures
        tail_size(shape, k) >= 0,
    decreases shape.len() - k,
{
    if 0 <= k < shape.len() {
        lemma_tail_size_nonneg(shape, k + 1);
        assert((shape[k] as int) * tail_size(shape, k + 1) >= 0) by (nonlinear_arith)
            requires
                shape[k] >= 0,
                tail_size(shape, k + 1) >= 0,
        ;
    }
}

/// A shape has no index tuple exactly when one of its dimensions is zero.
pub proof fn lemma_size_zero_iff(shape: Seq<usize>)
    ensures
        shape_size(shape) == 0 <==> has_zero(shape),
        shape_size(shape) >= 0,
{
    lemma_tail_size_nonneg(shape, 0);
    if has_zero(shape) {
        let z = choose|d: int| 0 <= d < shape.len() && shape[d] == 0;
        lemma_tail_size_zero(shape, 0, z);
    } else {
        lemma_tail_size_positive(shape, 0);
    }
}

/// In a shape without zero dimension the sizes of the tails grow towards
/// the front.
pub proof fn lemma_tail_size_monotone(shape: Seq<usize>, j: int, k: int)
    requires
        !has_zero(shape),
        0 <= j <= k,
    ensures
        tail_size(shape, k) <= tail_size(shape, j),
    decreases k - j,
{
    if j < k {
        lemma_tail_size_monotone(shape, j + 1, k);
        lemma_tail_size_positive(shape, j + 1);
        if j < shape.len() {
            assert(shape[j] >= 1);
            assert((shape[j] as int) * tail_size(shape, j + 1) >= tail_size(shape, j + 1))
                by (nonlinear_arith)
                requires
                    shape[j] >= 1,
                    tail_size(shape, j + 1) >= 1,
            ;
        }
    }
}

/// The tails of a shape without its first axes are the tails of the shape.
pub proof fn lemma_tail_size_skip(shape: Seq<usize>, k: int, j: int)
    requires
        0 <= k <= shape.len(),
        0 <= j,
    ensures
        tail_size(shape.skip(k), j) == tail_size(shape, k + j),
    decreases shape.len() - k - j,
{
    if k + j < shape.len() {
        lemma_tail_size_skip(shape, k, j + 1);
        assert(shape.skip(k)[j] == shape[k + j]);
    }
}

/// Sum of `index[d] * strides[d]` over the first `n` axes.
pub open spec fn dot_upto(index: Seq<usize>, strides: Seq<usize>, n: int) -> int
    decreases n,
{
    if n <= 0 {
        0
    } else {
        dot_upto(index, strides, n - 1) + (index[n - 1] as int) * (strides[n - 1] as int)
    }
}

/// Distance, in elements, from a view's base to the element at `index`.
pub open spec fn dot(index: Seq<usize>, strides: Seq<usize>) -> int {
    dot_upto(index, strides, index.len() as int)
}

/// The last index tuple of a shape without zero dimension.
pub open spec fn last_index(shape: Seq<usize>) -> Seq<usize> {
    Seq::new(shape.len(), |d: int| (shape[d] - 1) as usize)
}

/// Distance from a view's base to its farthest element.
pub open spec fn extent(shape: Seq<usize>, strides: Seq<usize>) -> int {
    dot(last_index(shape), strides)
}

/// The sum depends on the first `n` entries only.
pub proof fn lemma_dot_upto_agree(
    a: Seq<usize>,
    sa: Seq<usize>,
    b: Seq<usize>,
    sb: Seq<usize>,
    n: int,
)
    requires
        forall|d: int| 0 <= d < n ==> a[d] == b[d] && sa[d] == sb[d],
    ensures
        dot_upto(a, sa, n) == dot_upto(b, sb, n),
    decreases n,
{
    if n > 0 {
        lemma_dot_upto_agree(a, sa, b, sb, n - 1);
    }
}

/// The sum grows with each coordinate.
pub proof fn lemma_dot_upto_monotone(a: Seq<usize>, b: Seq<usize>, strides: Seq<usize>, n: int)
    requires
        forall|d: int| 0 <= d < n ==> a[d] <= b[d],
    ensures
        0 <= dot_upto(a, strides, n) <= dot_upto(b, strides, n),
    decreases n,
{
    if n > 0 {
        lemma_dot_upto_monotone(a, b, strides, n - 1);
        let x = a[n - 1] as int;
        let y = b[n - 1] as int;
        let t = strides[n - 1] as int;
        assert(0 <= x * t <= y * t) by (nonlinear_arith)
            requires
                0 <= x <= y,
                0 <= t,
        ;
    }
}

/// The sum grows with the number of axes taken.
pub proof fn lemma_dot_upto_grows(index: Seq<usize>, strides: Seq<usize>, m: int, n: int)
    requires
        0 <= m <= n,
    ensures
        0 <= dot_upto(index, strides, m) <= dot_upto(index, strides, n),
    decreases n - m,
{
    lemma_dot_upto_monotone(index, index, strides, m);
    if m < n {
        lemma_dot_upto_grows(index, strides, m + 1, n);
        let x = index[m] as int;
        let t = strides[m] as int;
        assert(0 <= x * t) by (nonlinear_arith)
            requires
                0 <= x,
                0 <= t,
        ;
    }
}

/// Every element of a view lies within the view's extent.
pub proof fn lemma_dot_within_extent(index: Seq<usize>, shape: Seq<usize>, strides: Seq<usize>)
    requires
        valid_index(index, shape),
    ensures
        0 <= dot(index, strides) <= extent(shape, strides),
{
    lemma_dot_upto_monotone(index, last_index(shape), strides, shape.len() as int);
}

/// The sum over a concatenation is the sum over its parts.
pub proof fn lemma_dot_upto_concat(
    a: Seq<usize>,
    b: Seq<usize>,
    strides: Seq<usize>,
    n: int,
)
    requires
        0 <= n <= b.len(),
        a.len() + n <= strides.len(),
    ensures
        dot_upto(a + b, strides, a.len() + n) == dot_upto(a, strides, a.len() as int) + dot_upto(
            b,
            strides.skip(a.len() as int),
            n,
        ),
    decreases n,
{
    if n == 0 {
        lemma_dot_upto_agree(a + b, strides, a, strides, a.len() as int);
    } else {
        lemma_dot_upto_concat(a, b, strides, n - 1);
        assert((a + b)[a.len() + n - 1] == b[n - 1]);
        assert(strides.skip(a.len() as int)[n - 1] == strides[a.len() + n - 1]);
    }
}

/// Replacing one coordinate changes the sum by that coordinate's term.
pub proof fn lemma_dot_upto_update(
    index: Seq<usize>,
    strides: Seq<usize>,
    k: int,
    v: usize,
    n: int,
)
    requires
        0 <= k < index.len(),
        0 <= n <= index.len(),
    ensures
        dot_upto(index.update(k, v), strides, n) == dot_upto(index, strides, n) + (if k < n {
            (v as int - index[k] as int) * (strides[k] as int)
        } else {
            0
        }),
    decreases n,
{
    if n > 0 {
        lemma_dot_upto_update(index, strides, k, v, n - 1);
        if k == n - 1 {
            let a = v as int;
            let b = index[k] as int;
            let t = strides[k] as int;
            assert(a * t == b * t + (a - b) * t) by (nonlinear_arith);
        }
    }
}

/// Axis `a` stands somewhere in `axes`.
pub open spec fn names_axis(axes: Seq<usize>, a: int) -> bool {
    exists|j: int| 0 <= j < axes.len() && axes[j] == a
}

/// `axes` names every axis below `n` exactly once.
pub open spec fn is_permutation(axes: Seq<usize>, n: int) -> bool {
    &&& axes.len() == n
    &&& forall|j: int| 0 <= j < n ==> axes[j] < n
    &&& forall|i: int, j: int| 0 <= i < j < n ==> axes[i] != axes[j]
    &&& forall|a: int| 0 <= a < n ==> #[trigger] names_axis(axes, a)
}

/// The entries of `s` picked in the order that `axes` gives.
pub open spec fn select(s: Seq<usize>, axes: Seq<usize>) -> Seq<usize> {
    Seq::new(axes.len(), |j: int| s[axes[j] as int])
}

/// The order of axes that brings `axis` to the front and keeps the others
/// as they stand.
pub open spec fn front_axes(axis: int, n: int) -> Seq<usize> {
    Seq::new(
        n as nat,
        |j: int|
            if j == 0 {
                axis as usize
            } else if j <= axis {
                (j - 1) as usize
            } else {
                j as usize
            },
    )
}

/// The axes below `n`, last first.
pub open spec fn reversed_axes(n: int) -> Seq<usize> {
    Seq::new(n as nat, |j: int| (n - 1 - j) as usize)
}

/// Sum of `a[axes[j]] * b[axes[j]]` over the first `m` entries of `axes`.
pub open spec fn picked_sum(a: Seq<usize>, b: Seq<usize>, axes: Seq<usize>, m: int) -> int
    decreases m,
{
    if m <= 0 {
        0
    } else {
        picked_sum(a, b, axes, m - 1) + (a[axes[m - 1] as int] as int) * (b[axes[m - 1] as int] as int)
    }
}

proof fn lemma_picked_sum_is_dot(a: Seq<usize>, b: Seq<usize>, axes: Seq<usize>, m: int)
    requires
        0 <= m <= axes.len(),
    ensures
        picked_sum(a, b, axes, m) == dot_upto(select(a, axes), select(b, axes), m),
    decreases m,
{
    if m > 0 {
        lemma_picked_sum_is_dot(a, b, axes, m - 1);
    }
}

proof fn lemma_picked_sum_update(
    a: Seq<usize>,
    b: Seq<usize>,
    axes: Seq<usize>,
    k: int,
    v: usize,
    m: int,
)
    requires
        0 <= k < axes.len(),
        0 <= m <= axes.len(),
    ensures
        picked_sum(a, b, axes.update(k, v), m) == picked_sum(a, b, axes, m) + (if k < m {
            (a[v as int] as int) * (b[v as int] as int) - (a[axes[k] as int] as int) * (
            b[axes[k] as int] as int)
        } else {
            0
        }),
    decreases m,
{
    if m > 0 {
        lemma_picked_sum_update(a, b, axes, k, v, m - 1);
    }
}

proof fn lemma_picked_sum_take(a: Seq<usize>, b: Seq<usize>, axes: Seq<usize>, n: int, m: int)
    requires
        0 <= m <= n <= axes.len(),
    ensures
        picked_sum(a, b, axes.take(n), m) == picked_sum(a, b, axes, m),
    decreases m,
{
    if m > 0 {
        lemma_picked_sum_take(a, b, axes, n, m - 1);
    }
}

proof fn lemma_picked_sum_permutation(a: Seq<usize>, b: Seq<usize>, axes: Seq<usize>, n: int)
    requires
        is_permutation(axes, n),
    ensures
        picked_sum(a, b, axes, n) == dot_upto(a, b, n),
    decreases n,
{
    if n > 0 {
        assert(names_axis(axes, n - 1));
        let k = choose|j: int| 0 <= j < n && axes[j] == n - 1;
        let last = axes[n - 1];
        let moved = axes.update(k, last);
        let rest = moved.take(n - 1);
        assert(is_permutation(rest, n - 1)) by {
            assert forall|j: int| 0 <= j < n - 1 implies rest[j] < n - 1 by {
                if j == k {
                    if k != n - 1 {
                        assert(axes[k] != axes[n - 1]);
                    }
                } else {
                    if j < k {
                        assert(axes[j] != axes[k]);
                    } else {
                        assert(axes[k] != axes[j]);
                    }
                }
            }
            assert forall|i: int, j: int| 0 <= i < j < n - 1 implies rest[i] != rest[j] by {
                assert(axes[i] != axes[j]);
                assert(axes[i] != axes[n - 1]);
                assert(axes[j] != axes[n - 1]);
            }
            assert forall|v: int| 0 <= v < n - 1 implies #[trigger] names_axis(rest, v) by {
                assert(names_axis(axes, v));
                let j0 = choose|j: int| 0 <= j < n && axes[j] == v;
                if j0 == n - 1 {
                    assert(rest[k] == v);
                } else {
                    assert(rest[j0] == v);
                }
            }
        }
        lemma_picked_sum_permutation(a, b, rest, n - 1);
        lemma_picked_sum_take(a, b, moved, n - 1, n - 1);
        lemma_picked_sum_update(a, b, axes, k, last, n - 1);
    }
}

/// Reordering the axes of an index and of the strides alike leaves the
/// flat distance unchanged.
pub proof fn lemma_dot_select(a: Seq<usize>, b: Seq<usize>, axes: Seq<usize>)
    requires
        is_permutation(axes, a.len() as int),
    ensures
        dot(select(a, axes), select(b, axes)) == dot(a, b),
{
    lemma_picked_sum_permutation(a, b, axes, a.len() as int);
    lemma_picked_sum_is_dot(a, b, axes, a.len() as int);
}

/// Reordering the axes of a view leaves its extent unchanged.
pub proof fn lemma_extent_select(shape: Seq<usize>, strides: Seq<usize>, axes: Seq<usize>)
    requires
        is_permutation(axes, shape.len() as int),
    ensures
        extent(select(shape, axes), select(strides, axes)) == extent(shape, strides),
{
    lemma_dot_select(last_index(shape), strides, axes);
    assert(last_index(select(shape, axes)) =~= select(last_index(shape), axes));
}

/// Reordering the axes of a shape leaves its size unchanged.
pub proof fn lemma_has_zero_select(shape: Seq<usize>, axes: Seq<usize>)
    requires
        is_permutation(axes, shape.len() as int),
    ensures
        has_zero(select(shape, axes)) <==> has_zero(shape),
{
    let picked = select(shape, axes);
    if has_zero(shape) {
        let z = choose|d: int| 0 <= d < shape.len() && shape[d] == 0;
        assert(names_axis(axes, z));
        let j = choose|j: int| 0 <= j < shape.len() && axes[j] == z;
        assert(picked[j] == 0);
    }
    if has_zero(picked) {
        let j = choose|d: int| 0 <= d < picked.len() && picked[d] == 0;
        assert(shape[axes[j] as int] == 0);
    }
}

/// Bringing an axis to the front names every axis once.
pub proof fn lemma_front_axes_permutation(axis: int, n: int)
    requires
        0 <= axis < n <= usize::MAX,
    ensures
        is_permutation(front_axes(axis, n), n),
{
    let axes = front_axes(axis, n);
    assert forall|a: int| 0 <= a < n implies #[trigger] names_axis(axes, a) by {
        if a == axis {
            assert(axes[0] == a);
        } else if a < axis {
            assert(axes[a + 1] == a);
        } else {
            assert(axes[a] == a);
        }
    }
}

/// The axes in reverse order name every axis once.
pub proof fn lemma_reversed_axes_permutation(n: int)
    requires
        0 <= n <= usize::MAX,
    ensures
        is_permutation(reversed_axes(n), n),
{
    let axes = reversed_axes(n);
    assert forall|a: int| 0 <= a < n implies #[trigger] names_axis(axes, a) by {
        assert(axes[n - 1 - a] == a);
    }
}

/// Sum of `index[d]` times the size of the tail behind axis `d`, over the
/// first `n` axes: the position of `index` in row-major order.
pub open spec fn ravel_upto(index: Seq<usize>, shape: Seq<usize>, n: int) -> int
    decreases n,
{
    if n <= 0 {
        0
    } else {
        ravel_upto(index, shape, n - 1) + (index[n - 1] as int) * tail_size(shape, n)
    }
}

/// Position of `index` among the index tuples of `shape`, in row-major
/// order.
pub open spec fn ravel(index: Seq<usize>, shape: Seq<usize>) -> int {
    ravel_upto(index, shape, shape.len() as int)
}

/// Coordinate along axis `d` of the `p`-th index tuple in row-major order.
/// Axis 0 is not reduced, so that `p == shape_size(shape)` names the
/// position one past the last tuple.
pub open spec fn nth_coord(shape: Seq<usize>, p: int, d: int) -> int {
    if d == 0 {
        p / tail_size(shape, 1)
    } else {
        (p / tail_size(shape, d + 1)) % (shape[d] as int)
    }
}

/// The `p`-th index tuple of `shape` in row-major order.
pub open spec fn nth_index(shape: Seq<usize>, p: int) -> Seq<usize> {
    Seq::new(shape.len(), |d: int| nth_coord(shape, p, d) as usize)
}

/// Every axis behind `d` stands at its last coordinate, so that a step
/// of the odometer reaches axis `d`.
pub open spec fn carries(index: Seq<usize>, shape: Seq<usize>, d: int) -> bool {
    forall|e: int| d < e < shape.len() ==> index[e] + 1 == shape[e]
}

/// One step of the odometer: the last axis advances; an axis that runs
/// over goes back to 0 and hands the step to the axis before it. Axis 0
/// is left to run over, which marks the end.
pub open spec fn next_index(index: Seq<usize>, shape: Seq<usize>) -> Seq<usize> {
    Seq::new(
        index.len(),
        |d: int|
            if !carries(index, shape, d) {
                index[d]
            } else if d == 0 || index[d] + 1 < shape[d] {
                (index[d] + 1) as usize
            } else {
                0usize
            },
    )
}

/// With row-major strides the flat distance of an index is its position.
pub proof fn lemma_dot_row_major(index: Seq<usize>, shape: Seq<usize>, n: int)
    requires
        0 < shape_size(shape) <= usize::MAX,
        0 <= n <= shape.len(),
    ensures
        dot_upto(index, row_major_strides(shape), n) == ravel_upto(index, shape, n),
    decreases n,
{
    lemma_size_zero_iff(shape);
    if n > 0 {
        lemma_dot_row_major(index, shape, n - 1);
        lemma_tail_size_monotone(shape, 0, n);
        lemma_tail_size_positive(shape, n);
    }
}

/// The tuples of a shape are counted up to its size: the last one stands
/// at position `shape_size(shape) - 1`.
pub proof fn lemma_ravel_last(shape: Seq<usize>, n: int)
    requires
        !has_zero(shape),
        0 <= n <= shape.len(),
    ensures
        ravel_upto(last_index(shape), shape, n) == shape_size(shape) - tail_size(shape, n),
    decreases n,
{
    if n > 0 {
        lemma_ravel_last(shape, n - 1);
        let s = shape[n - 1] as int;
        let t = tail_size(shape, n);
        assert(s >= 1);
        assert((s - 1) * t == s * t - t) by (nonlinear_arith);
    }
}

/// A view with row-major strides reaches exactly as far as its size.
pub proof fn lemma_extent_row_major(shape: Seq<usize>)
    requires
        0 < shape_size(shape) <= usize::MAX,
    ensures
        extent(shape, row_major_strides(shape)) == shape_size(shape) - 1,
{
    lemma_size_zero_iff(shape);
    lemma_dot_row_major(last_index(shape), shape, shape.len() as int);
    lemma_ravel_last(shape, shape.len() as int);
}

/// The `p`-th index tuple is an index tuple.
pub proof fn lemma_nth_index_valid(shape: Seq<usize>, p: int)
    requires
        0 <= p < shape_size(shape),
    ensures
        valid_index(nth_index(shape, p), shape),
        forall|d: int| 0 <= d < shape.len() ==> nth_index(shape, p)[d] == nth_coord(shape, p, d),
{
    lemma_size_zero_iff(shape);
    assert forall|d: int| 0 <= d < shape.len() implies 0 <= #[trigger] nth_coord(shape, p, d)
        < shape[d] by {
        lemma_tail_size_positive(shape, d + 1);
        let t = tail_size(shape, d + 1);
        if d == 0 {
            let s = shape[0] as int;
            lemma_fundamental_div_mod(p, t);
            lemma_mod_bound(p, t);
            assert(p / t < s) by (nonlinear_arith)
                requires
                    p == t * (p / t) + p % t,
                    0 <= p % t,
                    p < s * t,
                    t > 0,
            ;
            assert(0 <= p / t) by (nonlinear_arith)
                requires
                    p == t * (p / t) + p % t,
                    p % t < t,
                    0 <= p,
                    t > 0,
            ;
        } else {
            assert(shape[d] >= 1);
            lemma_mod_bound(p / t, shape[d] as int);
        }
    }
}

/// Counting the `p`-th index tuple gives `p` back.
pub proof fn lemma_ravel_nth_upto(shape: Seq<usize>, p: int, n: int)
    requires
        !has_zero(shape),
        0 <= p <= shape_size(shape),
        1 <= n <= shape.len(),
    ensures
        ravel_upto(nth_index(shape, p), shape, n) == p - p % tail_size(shape, n),
    decreases n,
{
    let idx = nth_index(shape, p);
    lemma_tail_size_positive(shape, n);
    let t = tail_size(shape, n);
    if n == 1 {
        lemma_fundamental_div_mod(p, t);
        lemma_mod_bound(p, t);
        let s = shape[0] as int;
        assert(0 <= p / t <= s) by (nonlinear_arith)
            requires
                p == t * (p / t) + p % t,
                0 <= p % t < t,
                0 <= p <= s * t,
                t > 0,
        ;
        assert(idx[0] as int == p / t);
        assert((p / t) * t == t * (p / t)) by (nonlinear_arith);
        assert(ravel_upto(idx, shape, 0) == 0);
    } else {
        lemma_ravel_nth_upto(shape, p, n - 1);
        let s = shape[n - 1] as int;
        assert(s >= 1);
        lemma_mod_breakdown(p, t, s);
        lemma_mod_bound(p / t, s);
        assert(idx[n - 1] as int == (p / t) % s);
        assert(tail_size(shape, n - 1) == s * t);
        assert(t * s == s * t) by (nonlinear_arith);
        assert(((p / t) % s) * t == t * ((p / t) % s)) by (nonlinear_arith);
    }
}

/// Counting the `p`-th index tuple gives `p` back; and the odometer has
/// run over at axis 0 exactly when `p` is the size of the shape.
pub proof fn lemma_ravel_nth(shape: Seq<usize>, p: int)
    requires
        shape.len() >= 1,
        0 <= p <= shape_size(shape),
        shape_size(shape) > 0,
    ensures
        ravel(nth_index(shape, p), shape) == p,
        nth_index(shape, p)[0] >= shape[0] <==> p == shape_size(shape),
{
    lemma_size_zero_iff(shape);
    lemma_ravel_nth_upto(shape, p, shape.len() as int);
    assert(tail_size(shape, shape.len() as int) == 1);
    let t = tail_size(shape, 1);
    let s = shape[0] as int;
    lemma_tail_size_positive(shape, 1);
    lemma_fundamental_div_mod(p, t);
    lemma_mod_bound(p, t);
    assert(0 <= p / t <= s && (p / t >= s <==> p == s * t)) by (nonlinear_arith)
        requires
            p == t * (p / t) + p % t,
            0 <= p % t < t,
            0 <= p <= s * t,
            t > 0,
    ;
}

/// The number that the first `n` coordinates of `index` make when they are
/// read as digits, each axis with its size as base.
pub open spec fn leading_digits(index: Seq<usize>, shape: Seq<usize>, n: int) -> int
    decreases n,
{
    if n <= 0 {
        0
    } else {
        leading_digits(index, shape, n - 1) * (shape[n - 1] as int) + (index[n - 1] as int)
    }
}

proof fn lemma_ravel_head(index: Seq<usize>, shape: Seq<usize>, n: int)
    requires
        valid_index(index, shape),
        0 <= n <= shape.len(),
    ensures
        ravel_upto(index, shape, n) == leading_digits(index, shape, n) * tail_size(shape, n),
        0 <= leading_digits(index, shape, n),
    decreases n,
{
    if n > 0 {
        lemma_ravel_head(index, shape, n - 1);
        let q = leading_digits(index, shape, n - 1);
        let s = shape[n - 1] as int;
        let x = index[n - 1] as int;
        let t = tail_size(shape, n);
        assert(tail_size(shape, n - 1) == s * t);
        assert(q * (s * t) + x * t == (q * s + x) * t) by (nonlinear_arith);
        assert(0 <= q * s + x) by (nonlinear_arith)
            requires
                0 <= q,
                0 <= s,
                0 <= x,
        ;
    } else {
        assert(0 * tail_size(shape, 0) == 0) by (nonlinear_arith);
    }
}

proof fn lemma_ravel_tail(index: Seq<usize>, shape: Seq<usize>, n: int)
    requires
        valid_index(index, shape),
        0 <= n <= shape.len(),
    ensures
        0 <= ravel(index, shape) - ravel_upto(index, shape, n) < tail_size(shape, n),
    decreases shape.len() - n,
{
    if n < shape.len() {
        lemma_ravel_tail(index, shape, n + 1);
        let s = shape[n] as int;
        let x = index[n] as int;
        let t = tail_size(shape, n + 1);
        assert(tail_size(shape, n) == s * t);
        assert(ravel_upto(index, shape, n + 1) == ravel_upto(index, shape, n) + x * t);
        assert(0 <= x * t && x * t + t <= s * t) by (nonlinear_arith)
            requires
                0 <= x < s,
                0 <= t,
        ;
    }
}

/// The index tuple that stands at the position of `index` in row-major
/// order is `index`: counting and numbering the index tuples of a shape
/// undo each other.
pub proof fn lemma_nth_of_ravel(index: Seq<usize>, shape: Seq<usize>)
    requires
        valid_index(index, shape),
    ensures
        0 <= ravel(index, shape) < shape_size(shape),
        nth_index(shape, ravel(index, shape)) == index,
{
    let r = ravel(index, shape);
    lemma_ravel_tail(index, shape, 0);
    assert(ravel_upto(index, shape, 0) == 0);
    lemma_nth_index_valid(shape, r);
    assert forall|d: int| 0 <= d < shape.len() implies nth_index(shape, r)[d] == index[d] by {
        lemma_ravel_head(index, shape, d + 1);
        lemma_ravel_tail(index, shape, d + 1);
        let q = leading_digits(index, shape, d + 1);
        let before = leading_digits(index, shape, d);
        let t = tail_size(shape, d + 1);
        let rest = r - ravel_upto(index, shape, d + 1);
        lemma_ravel_head(index, shape, d);
        let s = shape[d] as int;
        let x = index[d] as int;
        assert(r == q * t + rest);
        lemma_fundamental_div_mod_converse(r, t, q, rest);
        assert(q == before * s + x);
        assert(nth_index(shape, r)[d] == nth_coord(shape, r, d));
        if d > 0 {
            lemma_fundamental_div_mod_converse(q, s, before, x);
        } else {
            assert(before == 0);
            assert(0 * s == 0) by (nonlinear_arith);
        }
    }
    assert(nth_index(shape, r) =~= index);
}

/// In a dense layout the `p`-th element lies at position `p`.
pub proof fn lemma_nth_position_dense(shape: Seq<usize>, p: int)
    requires
        0 <= p < shape_size(shape) <= usize::MAX,
    ensures
        dot(nth_index(shape, p), row_major_strides(shape)) == p,
{
    lemma_size_zero_iff(shape);
    lemma_dot_row_major(nth_index(shape, p), shape, shape.len() as int);
    if shape.len() >= 1 {
        lemma_ravel_nth(shape, p);
    } else {
        assert(ravel_upto(nth_index(shape, p), shape, 0) == 0);
    }
}

proof fn lemma_digit_step(p: int, t: int, s: int)
    requires
        0 <= p,
        t >= 1,
        s >= 1,
    ensures
        (p + 1) % t != 0 ==> (p + 1) / t == p / t && (p + 1) % (s * t) != 0,
        (p + 1) % t == 0 ==> (p + 1) / t == p / t + 1,
        (p + 1) % t == 0 ==> ((p + 1) % (s * t) == 0 <==> (p / t) % s + 1 == s),
        (p + 1) % t == 0 ==> ((p + 1) / t) % s == (if (p / t) % s + 1 < s {
            (p / t) % s + 1
        } else {
            0
        }),
{
    let q = p / t;
    let r = p % t;
    lemma_fundamental_div_mod(p, t);
    lemma_mod_bound(p, t);
    assert(t * q == q * t) by (nonlinear_arith);
    if r + 1 < t {
        lemma_fundamental_div_mod_converse(p + 1, t, q, r + 1);
    } else {
        assert((q + 1) * t + 0 == q * t + t) by (nonlinear_arith);
        lemma_fundamental_div_mod_converse(p + 1, t, q + 1, 0);
    }
    lemma_mod_breakdown(p + 1, t, s);
    assert(t * s == s * t) by (nonlinear_arith);
    let q1 = (p + 1) / t;
    lemma_mod_bound(q1, s);
    assert(t * (q1 % s) >= 0) by (nonlinear_arith)
        requires
            t >= 1,
            q1 % s >= 0,
    ;
    assert(t * (q1 % s) == 0 <==> q1 % s == 0) by (nonlinear_arith)
        requires
            t >= 1,
            q1 % s >= 0,
    ;
    let m = q % s;
    let k = q / s;
    lemma_fundamental_div_mod(q, s);
    lemma_mod_bound(q, s);
    assert(s * k == k * s) by (nonlinear_arith);
    if m + 1 < s {
        lemma_fundamental_div_mod_converse(q + 1, s, k, m + 1);
    } else {
        assert((k + 1) * s + 0 == k * s + s) by (nonlinear_arith);
        lemma_fundamental_div_mod_converse(q + 1, s, k + 1, 0);
    }
}

proof fn lemma_carry_reaches(shape: Seq<usize>, p: int, d: int)
    requires
        0 <= p < shape_size(shape),
        0 <= d < shape.len(),
    ensures
        carries(nth_index(shape, p), shape, d) <==> (p + 1) % tail_size(shape, d + 1) == 0,
    decreases shape.len() - d,
{
    lemma_size_zero_iff(shape);
    lemma_nth_index_valid(shape, p);
    let idx = nth_index(shape, p);
    if d + 1 < shape.len() {
        lemma_carry_reaches(shape, p, d + 1);
        let t = tail_size(shape, d + 2);
        let s = shape[d + 1] as int;
        lemma_tail_size_positive(shape, d + 2);
        assert(s >= 1);
        lemma_digit_step(p, t, s);
        assert(tail_size(shape, d + 1) == s * t);
        assert(idx[d + 1] as int == (p / t) % s);
        if carries(idx, shape, d) {
            assert(carries(idx, shape, d + 1));
            assert(idx[d + 1] + 1 == shape[d + 1]);
        }
        if (p + 1) % (s * t) == 0 {
            assert(carries(idx, shape, d + 1));
            assert forall|e: int| d < e < shape.len() implies idx[e] + 1 == shape[e] by {
                if e > d + 1 {
                    assert(carries(idx, shape, d + 1));
                }
            }
        }
    } else {
        assert(tail_size(shape, d + 1) == 1);
    }
}

/// A step of the odometer leads from the `p`-th index tuple to the next
/// one in row-major order.
pub proof fn lemma_next_index(shape: Seq<usize>, p: int)
    requires
        0 <= p < shape_size(shape),
        shape.len() >= 1,
    ensures
        next_index(nth_index(shape, p), shape) == nth_index(shape, p + 1),
{
    lemma_size_zero_iff(shape);
    lemma_nth_index_valid(shape, p);
    let idx = nth_index(shape, p);
    let step = next_index(idx, shape);
    let succ = nth_index(shape, p + 1);
    assert forall|d: int| 0 <= d < shape.len() implies step[d] == succ[d] by {
        lemma_carry_reaches(shape, p, d);
        let t = tail_size(shape, d + 1);
        let s = shape[d] as int;
        lemma_tail_size_positive(shape, d + 1);
        assert(s >= 1);
        lemma_digit_step(p, t, s);
        assert(idx[d] as int == nth_coord(shape, p, d));
    }
    assert(step =~= succ);
}

/// A view of `shape`, `strides` and `offset` stays inside a buffer of `len`
/// elements. A view without elements reads nothing: it carries one stride
/// per axis, or, as a tensor that was built without elements, none.
pub open spec fn layout_fits(shape: Seq<usize>, strides: Seq<usize>, offset: usize, len: nat) -> bool {
    if shape_size(shape) == 0 {
        strides.len() == 0 || strides.len() == shape.len()
    } else {
        strides.len() == shape.len() && offset + extent(shape, strides) < len
    }
}

/// Where a tensor's elements lie in its buffer: the size and the element
/// step of each axis, and the position of the first element.
pub struct Layout {
    pub shape: Seq<usize>,
    pub strides: Seq<usize>,
    pub offset: usize,
}

impl Layout {
    /// The layout names no element: one of its dimensions is zero.
    pub open spec fn is_empty(self) -> bool {
        shape_size(self.shape) == 0
    }

    /// Every index tuple leads to a position inside a buffer of `len`
    /// elements; a layout without elements carries one stride per axis or
    /// none.
    pub open spec fn fits(self, len: nat) -> bool {
        layout_fits(self.shape, self.strides, self.offset, len)
    }

    /// The position in the buffer of the element at `index`.
    pub open spec fn position(self, index: Seq<usize>) -> int {
        self.offset + dot(index, self.strides)
    }

    /// The position in the buffer of the `p`-th element in row-major
    /// order.
    pub open spec fn nth_position(self, p: int) -> int {
        self.position(nth_index(self.shape, p))
    }

    /// The strides are the row-major strides of the shape.
    pub open spec fn is_contiguous(self) -> bool {
        self.strides == row_major_strides(self.shape)
    }

    /// The layout carries one stride per axis.
    pub open spec fn has_strides(self) -> bool {
        self.strides.len() == self.shape.len()
    }

    /// The strides after the axes changed: none where there were none.
    pub open spec fn strides_or_none(self, strides: Seq<usize>) -> Seq<usize> {
        if self.has_strides() {
            strides
        } else {
            Seq::empty()
        }
    }

    /// The axes in the order `axes`.
    pub open spec fn permute(self, axes: Seq<usize>) -> Layout {
        Layout {
            shape: select(self.shape, axes),
            strides: self.strides_or_none(select(self.strides, axes)),
            offset: self.offset,
        }
    }

    /// `axis` in front, the others behind it as they stand.
    pub open spec fn axis(self, axis: usize) -> Layout {
        self.permute(front_axes(axis as int, self.shape.len() as int))
    }

    /// The axes in reverse order.
    pub open spec fn transpose(self) -> Layout {
        self.permute(reversed_axes(self.shape.len() as int))
    }

    /// Every coordinate of `prefix` lies within its axis.
    pub open spec fn admits(self, prefix: Seq<usize>) -> bool {
        &&& prefix.len() <= self.shape.len()
        &&& forall|d: int| 0 <= d < prefix.len() ==> prefix[d] < self.shape[d]
    }

    /// The first axes fixed at the coordinates of `prefix`, the others
    /// left.
    pub open spec fn slice(self, prefix: Seq<usize>) -> Layout {
        Layout {
            shape: self.shape.skip(prefix.len() as int),
            strides: self.strides_or_none(self.strides.skip(prefix.len() as int)),
            offset: if self.is_empty() {
                self.offset
            } else {
                self.position(prefix) as usize
            },
        }
    }

    /// The rows from `start` up to `end` along axis 0: that axis shrinks to
    /// the length of the range, the strides stay, and the offset advances
    /// to the first row of the range. Where there is no element to start
    /// with, the offset stays.
    pub open spec fn batch(self, start: usize, end: usize) -> Layout {
        Layout {
            shape: self.shape.update(0, (end - start) as usize),
            strides: self.strides,
            offset: if self.is_empty() {
                self.offset
            } else {
                (self.offset + start * self.strides[0]) as usize
            },
        }
    }

    /// The position at which the row `start` begins is one that a `usize`
    /// holds. This follows from `fits` for every row of the layout; it
    /// says something only for the position behind the last row.
    pub open spec fn row_start_fits(self, start: usize) -> bool {
        self.is_empty() || self.offset + start * self.strides[0] <= usize::MAX
    }

    /// Axis 0 kept, all the others merged into one.
    pub open spec fn flatten(self) -> Layout {
        Layout {
            shape: seq![self.shape[0], tail_size(self.shape, 1) as usize],
            strides: self.strides_or_none(seq![tail_size(self.shape, 1) as usize, 1usize]),
            offset: self.offset,
        }
    }
}

/// The elements that a layout shows of a buffer, in row-major order.
pub open spec fn shown<T>(layout: Layout, data: Seq<T>) -> Seq<T> {
    Seq::new(shape_size(layout.shape) as nat, |p: int| data[layout.nth_position(p)])
}

/// The buffer after the first `n` of `values` were written, one after the
/// other, to the elements that `layout` shows in row-major order.
pub open spec fn write_shown<T>(layout: Layout, data: Seq<T>, values: Seq<T>, n: int) -> Seq<T>
    decreases n,
{
    if n <= 0 {
        data
    } else {
        write_shown(layout, data, values, n - 1).update(layout.nth_position(n - 1), values[n - 1])
    }
}

/// Every element that a layout shows lies inside the buffer.
pub proof fn lemma_nth_position_fits(layout: Layout, len: nat, p: int)
    requires
        layout.fits(len),
        0 <= p < shape_size(layout.shape),
    ensures
        0 <= layout.offset <= layout.nth_position(p) < len,
        valid_index(nth_index(layout.shape, p), layout.shape),
{
    lemma_nth_index_valid(layout.shape, p);
    lemma_dot_within_extent(nth_index(layout.shape, p), layout.shape, layout.strides);
}

/// A view whose axes are reordered stays inside the buffer.
pub proof fn lemma_layout_fits_select(
    shape: Seq<usize>,
    strides: Seq<usize>,
    offset: usize,
    len: nat,
    axes: Seq<usize>,
)
    requires
        layout_fits(shape, strides, offset, len),
        shape_size(shape) != 0,
        is_permutation(axes, shape.len() as int),
    ensures
        layout_fits(select(shape, axes), select(strides, axes), offset, len),
        layout_fits(select(shape, axes), select(strides, axes), 0, len),
        shape_size(select(shape, axes)) != 0,
{
    lemma_size_zero_iff(shape);
    lemma_size_zero_iff(select(shape, axes));
    lemma_has_zero_select(shape, axes);
    lemma_extent_select(shape, strides, axes);
}

/// Fixing the first axes of a view at coordinates within the shape leaves
/// a view that stays inside the buffer.
pub proof fn lemma_layout_fits_slice(
    shape: Seq<usize>,
    strides: Seq<usize>,
    offset: usize,
    len: nat,
    prefix: Seq<usize>,
)
    requires
        layout_fits(shape, strides, offset, len),
        shape_size(shape) != 0,
        prefix.len() <= shape.len(),
        forall|d: int| 0 <= d < prefix.len() ==> prefix[d] < shape[d],
    ensures
        shape_size(shape.skip(prefix.len() as int)) != 0,
        0 <= dot(prefix, strides),
        0 <= extent(shape.skip(prefix.len() as int), strides.skip(prefix.len() as int)),
        offset + dot(prefix, strides) + extent(
            shape.skip(prefix.len() as int),
            strides.skip(prefix.len() as int),
        ) < len,
{
    let p = prefix.len() as int;
    let last = last_index(shape);
    let rest = shape.skip(p);
    lemma_size_zero_iff(shape);
    lemma_size_zero_iff(rest);
    if has_zero(rest) {
        let z = choose|d: int| 0 <= d < rest.len() && rest[d] == 0;
        assert(shape[p + z] == 0);
    }
    lemma_dot_upto_monotone(prefix, last, strides, p);
    lemma_dot_upto_monotone(
        last_index(rest),
        last_index(rest),
        strides.skip(p),
        rest.len() as int,
    );
    lemma_dot_upto_concat(last.take(p), last.skip(p), strides, shape.len() - p);
    assert(last.take(p) + last.skip(p) =~= last);
    lemma_dot_upto_agree(last.take(p), strides, last, strides, p);
    assert(last.skip(p) =~= last_index(rest));
}

/// Keeping the rows from `start` up to `end` of a view leaves a view that
/// stays inside the buffer.
pub proof fn lemma_layout_fits_batch(
    shape: Seq<usize>,
    strides: Seq<usize>,
    offset: usize,
    len: nat,
    start: usize,
    end: usize,
)
    requires
        layout_fits(shape, strides, offset, len),
        shape_size(shape) != 0,
        shape.len() >= 1,
        start < end <= shape[0],
    ensures
        shape_size(shape.update(0, (end - start) as usize)) != 0,
        0 <= start * strides[0],
        0 <= extent(shape.update(0, (end - start) as usize), strides),
        offset + start * strides[0] + extent(shape.update(0, (end - start) as usize), strides)
            < len,
{
    let rows = (end - start) as usize;
    let kept = shape.update(0, rows);
    let n = shape.len() as int;
    lemma_size_zero_iff(shape);
    lemma_size_zero_iff(kept);
    if has_zero(kept) {
        let z = choose|d: int| 0 <= d < kept.len() && kept[d] == 0;
        assert(shape[z] == 0);
    }
    let last = last_index(shape);
    lemma_dot_upto_monotone(last_index(kept), last_index(kept), strides, n);
    assert(last_index(kept) =~= last.update(0, (rows - 1) as usize));
    lemma_dot_upto_update(last, strides, 0, (rows - 1) as usize, n);
    let t = strides[0] as int;
    let s0 = shape[0] as int;
    assert(start * t + (rows - 1 - (s0 - 1)) * t <= 0 && 0 <= start * t) by (nonlinear_arith)
        requires
            0 <= start,
            rows == end - start,
            end <= s0,
            0 <= t,
    ;
}

/// A contiguous view, flattened, stays inside the buffer.
pub proof fn lemma_layout_fits_flatten(layout: Layout, len: nat)
    requires
        layout.fits(len),
        layout.is_contiguous(),
        layout.shape.len() >= 1,
        0 < shape_size(layout.shape) <= usize::MAX,
    ensures
        layout.flatten().fits(len),
        !layout.flatten().is_empty(),
        tail_size(layout.shape, 1) <= usize::MAX,
{
    let shape = layout.shape;
    let flat = layout.flatten();
    let s0 = shape[0] as int;
    let p = tail_size(shape, 1);
    lemma_size_zero_iff(shape);
    lemma_tail_size_positive(shape, 1);
    lemma_tail_size_monotone(shape, 0, 1);
    lemma_extent_row_major(shape);
    assert(tail_size(flat.shape, 2) == 1);
    assert(tail_size(flat.shape, 1) == p * 1);
    assert(shape_size(flat.shape) == s0 * (p * 1));
    assert(s0 * (p * 1) == s0 * p) by (nonlinear_arith);
    let last = last_index(flat.shape);
    assert(dot_upto(last, flat.strides, 0) == 0);
    assert(dot_upto(last, flat.strides, 1) == (s0 - 1) * p);
    assert(dot_upto(last, flat.strides, 2) == (s0 - 1) * p + (p - 1) * 1);
    assert((s0 - 1) * p + (p - 1) * 1 == s0 * p - 1) by (nonlinear_arith);
}

/// Fixing no axis leaves the layout as it is.
pub proof fn lemma_slice_nothing(layout: Layout, len: nat)
    requires
        layout.fits(len),
    ensures
        layout.slice(Seq::empty()) == layout,
{
    let kept = layout.slice(Seq::empty());
    assert(kept.shape =~= layout.shape);
    assert(kept.strides =~= layout.strides);
    assert(dot_upto(Seq::<usize>::empty(), layout.strides, 0) == 0);
}

/// Whether some dimension of `shape` is zero.
pub fn contains_zero(shape: &[usize]) -> (found: bool)
    ensures
        found == has_zero(shape@),
{
    let mut d: usize = 0;
    while d < shape.len()
        invariant
            d <= shape.len(),
            forall|e: int| 0 <= e < d ==> shape@[e] != 0,
        decreases shape.len() - d,
    {
        if shape[d] == 0 {
            return true;
        }
        d += 1;
    }
    false
}

/// The number of index tuples of `shape`, unless it is more than a
/// `usize` holds.
pub fn checked_shape_size(shape: &[usize]) -> (size: Option<usize>)
    ensures
        match size {
            Some(n) => n == shape_size(shape@),
            None => shape_size(shape@) > usize::MAX,
        },
{
    if contains_zero(shape) {
        proof {
            lemma_size_zero_iff(shape@);
        }
        return Some(0);
    }
    let mut size: usize = 1;
    let mut d: usize = shape.len();
    while d > 0
        invariant
            d <= shape.len(),
            !has_zero(shape@),
            size == tail_size(shape@, d as int),
        decreases d,
    {
        d -= 1;
        proof {
            lemma_tail_size_positive(shape@, d + 1);
            lemma_tail_size_monotone(shape@, 0, d as int);
            assert((size as int) * (shape@[d as int] as int) == tail_size(shape@, d as int))
                by (nonlinear_arith)
                requires
                    size as int == tail_size(shape@, d + 1),
                    tail_size(shape@, d as int) == (shape@[d as int] as int) * tail_size(
                        shape@,
                        d + 1,
                    ),
            ;
        }
        match size.checked_mul(shape[d]) {
            Some(next) => {
                size = next;
            },
            None => {
                return None;
            },
        }
    }
    Some(size)
}

/// The row-major strides of `shape`.
pub fn compute_row_major(shape: &[usize]) -> (strides: Vec<usize>)
    requires
        shape_size(shape@) <= usize::MAX,
    ensures
        strides@ == row_major_strides(shape@),
{
    proof {
        lemma_size_zero_iff(shape@);
    }
    if shape.len() == 0 || contains_zero(shape) {
        let strides: Vec<usize> = Vec::new();
        assert(strides@ =~= row_major_strides(shape@));
        return strides;
    }
    let n = shape.len();
    let mut strides: Vec<usize> = Vec::new();
    let mut k: usize = 0;
    while k < n
        invariant
            k <= n,
            strides@.len() == k,
            forall|d: int| 0 <= d < k ==> strides@[d] == 1,
        decreases n - k,
    {
        strides.push(1);
        k += 1;
    }
    let mut i: usize = n - 1;
    while i > 0
        invariant
            i < n,
            n == shape@.len(),
            strides@.len() == n,
            !has_zero(shape@),
            shape_size(shape@) <= usize::MAX,
            forall|d: int| i <= d < n ==> strides@[d] as int == tail_size(shape@, d + 1),
        decreases i,
    {
        i -= 1;
        proof {
            lemma_tail_size_monotone(shape@, 0, i + 1);
            lemma_tail_size_positive(shape@, i + 2);
            assert(tail_size(shape@, i + 1) == (shape@[i + 1] as int) * tail_size(shape@, i + 2));
            assert((strides@[i + 1] as int) * (shape@[i + 1] as int) == tail_size(shape@, i + 1))
                by (nonlinear_arith)
                requires
                    strides@[i + 1] as int == tail_size(shape@, i + 2),
                    tail_size(shape@, i + 1) == (shape@[i + 1] as int) * tail_size(
                        shape@,
                        i + 2,
                    ),
            ;
        }
        let step = strides[i + 1] * shape[i + 1];
        strides[i] = step;
    }
    assert(strides@ =~= row_major_strides(shape@));
    strides
}

/// The index tuple of zeros for `shape`.
pub fn zero_index(shape: &[usize]) -> (index: Vec<usize>)
    ensures
        index@.len() == shape@.len(),
        forall|d: int| 0 <= d < index@.len() ==> index@[d] == 0,
        shape_size(shape@) > 0 ==> index@ == nth_index(shape@, 0),
{
    let n = shape.len();
    let mut index: Vec<usize> = Vec::with_capacity(n);
    let mut d: usize = 0;
    while d < n
        invariant
            d <= n,
            index@.len() == d,
            forall|e: int| 0 <= e < d ==> index@[e] == 0,
        decreases n - d,
    {
        index.push(0);
        d += 1;
    }
    proof {
        if shape_size(shape@) > 0 {
            lemma_size_zero_iff(shape@);
            assert forall|e: int| 0 <= e < n implies nth_coord(shape@, 0, e) == 0 by {
                lemma_tail_size_positive(shape@, e + 1);
                let t = tail_size(shape@, e + 1);
                lemma_fundamental_div_mod_converse(0, t, 0, 0);
                if e > 0 {
                    assert(shape@[e] >= 1);
                    lemma_fundamental_div_mod_converse(0, shape@[e] as int, 0, 0);
                }
            }
            assert(index@ =~= nth_index(shape@, 0));
        }
    }
    index
}

/// One step of the odometer over `shape`.
pub fn advance(index: &mut Vec<usize>, shape: &[usize])
    requires
        valid_index(old(index)@, shape@),
    ensures
        final(index)@ == next_index(old(index)@, shape@),
{
    let n = index.len();
    let ghost before = index@;
    let mut d: usize = n;
    while d > 0
        invariant
            d <= n,
            n == shape@.len(),
            index@.len() == n,
            valid_index(before, shape@),
            forall|e: int| 0 <= e < d ==> index@[e] == before[e],
            forall|e: int| d <= e < n ==> #[trigger] index@[e] == 0,
            forall|e: int| d <= e < n ==> #[trigger] before[e] + 1 == shape@[e],
            d == 0 ==> n == 0,
            before == old(index)@,
        decreases d,
    {
        d -= 1;
        assert(before[d as int] < shape@[d as int]);
        let bumped = index[d] + 1;
        if bumped < shape[d] || d == 0 {
            index[d] = bumped;
            assert(index@ =~= next_index(before, shape@)) by {
                assert(carries(before, shape@, d as int));
                assert forall|e: int| 0 <= e < d implies !carries(before, shape@, e) by {
                    if d > 0 {
                        assert(before[d as int] + 1 != shape@[d as int]);
                    }
                }
                assert forall|e: int| d < e < n implies carries(before, shape@, e) by {}
            }
            return ;
        }
        index[d] = 0;
    }
    assert(index@ =~= next_index(before, shape@));
}

/// Whether the two sequences of numbers are the same.
pub fn same_numbers(a: &[usize], b: &[usize]) -> (r: bool)
    ensures
        r == (a@ == b@),
{
    if a.len() != b.len() {
        return false;
    }
    let mut i: usize = 0;
    while i < a.len()
        invariant
            i <= a@.len(),
            a@.len() == b@.len(),
            forall|k: int| 0 <= k < i ==> a@[k] == b@[k],
        decreases a@.len() - i,
    {
        if a[i] != b[i] {
            return false;
        }
        i += 1;
    }
    assert(a@ =~= b@);
    true
}

} // verus!
