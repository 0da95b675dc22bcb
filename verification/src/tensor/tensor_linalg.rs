//! Numeric kernels: rectification and one-hot encoding.

use indexmap::IndexMap;
use std::hash::RandomState;
use std::marker::PhantomData;
use super::{no_labels, uncountable_shape, Error, Tensor, TensorBase, TensorTypeNumeric};
use super::tensor_arithmetic::{pass_over, vals, PassOp};
use super::tensor_core::filled;
use super::tensor_iter::{map_shown, ElementOp};
use super::tensor_layout::{dot_upto, last_index, shape_size, tail_size};
use vstd::prelude::*;
use vstd::string::StringExecFns;

verus! {

/// `indexmap::IndexMap`, a hash map that keeps its entries in the order in
/// which they came.
#[verifier::external_type_specification]
#[verifier::external_body]
#[verifier::reject_recursive_types(K)]
#[verifier::reject_recursive_types(V)]
#[verifier::reject_recursive_types(S)]
pub struct ExIndexMap<K, V, S>(IndexMap<K, V, S>);

/// The entries of a map from labels to class numbers: the number that
/// stands under each label's text.
pub uninterp spec fn class_ids(classes: IndexMap<&str, usize, RandomState>) -> Map<Seq<char>, usize>;

/// No label has a class number.
pub open spec fn no_class_ids() -> Map<Seq<char>, usize> {
    Map::empty()
}

/// `IndexMap::new`: a map without entries.
#[verifier::external_body]
fn classes_new<'a>() -> (fresh: IndexMap<&'a str, usize, RandomState>)
    ensures
        class_ids(fresh) == no_class_ids(),
{
    IndexMap::new()
}

/// `IndexMap::len`: the number of entries of the map.
#[verifier::external_body]
fn classes_len(classes: &IndexMap<&str, usize, RandomState>) -> (n: usize)
    ensures
        n == class_ids(*classes).dom().len(),
{
    classes.len()
}

/// `IndexMap::insert`: the label stands under the number `id` afterwards,
/// whether it had an entry or not, and every other entry stays. The
/// number that stood under the label before is handed back.
#[verifier::external_body]
fn classes_insert<'a>(
    classes: &mut IndexMap<&'a str, usize, RandomState>,
    label: &'a str,
    id: usize,
) -> (before: Option<usize>)
    ensures
        class_ids(*final(classes)) == class_ids(*old(classes)).insert(label@, id),
        before == (if class_ids(*old(classes)).dom().contains(label@) {
            Some(class_ids(*old(classes))[label@])
        } else {
            None
        }),
{
    classes.insert(label, id)
}

/// `IndexMap::get`: the number under the label, if the label has an entry.
#[verifier::external_body]
fn classes_get(classes: &IndexMap<&str, usize, RandomState>, label: &str) -> (id: Option<usize>)
    ensures
        id == (if class_ids(*classes).dom().contains(label@) {
            Some(class_ids(*classes)[label@])
        } else {
            None
        }),
{
    classes.get(label).copied()
}

/// The texts of the labels.
pub open spec fn label_texts(labels: Seq<&str>) -> Seq<Seq<char>> {
    Seq::new(labels.len(), |i: int| labels[i]@)
}

/// The distinct labels among the first `k`, in the order in which each was
/// seen first.
pub open spec fn classes_upto(labels: Seq<Seq<char>>, k: int) -> Seq<Seq<char>>
    decreases k,
{
    if k <= 0 {
        Seq::empty()
    } else {
        let before = classes_upto(labels, k - 1);
        if before.contains(labels[k - 1]) {
            before
        } else {
            before.push(labels[k - 1])
        }
    }
}

/// The classes of the labels: the distinct labels in the order in which
/// each was seen first.
pub open spec fn classes_of(labels: Seq<Seq<char>>) -> Seq<Seq<char>> {
    classes_upto(labels, labels.len() as int)
}

/// The number of a label's class: its place among the classes.
pub open spec fn class_number(classes: Seq<Seq<char>>, label: Seq<char>) -> int {
    choose|j: int| 0 <= j < classes.len() && classes[j] == label
}

/// A row of `width` zeros but for a 1 at `hot`.
pub open spec fn one_hot_row(width: nat, hot: int) -> Seq<u8> {
    Seq::new(
        width,
        |j: int|
            if j == hot {
                1u8
            } else {
                0u8
            },
    )
}

/// The one-hot rows of the first `k` labels, one after the other.
pub open spec fn one_hot_upto(labels: Seq<Seq<char>>, classes: Seq<Seq<char>>, k: int) -> Seq<u8>
    decreases k,
{
    if k <= 0 {
        Seq::empty()
    } else {
        one_hot_upto(labels, classes, k - 1) + one_hot_row(
            classes.len(),
            class_number(classes, labels[k - 1]),
        )
    }
}

/// The map holds the classes, each under its number.
pub open spec fn holds_classes(ids: Map<Seq<char>, usize>, classes: Seq<Seq<char>>) -> bool {
    &&& ids.dom().finite()
    &&& ids.dom().len() == classes.len()
    &&& forall|label: Seq<char>| #[trigger] ids.dom().contains(label) <==> classes.contains(label)
    &&& forall|i: int, j: int|
        0 <= i < j < classes.len() ==> #[trigger] classes[i] != #[trigger] classes[j]
    &&& forall|j: int| 0 <= j < classes.len() ==> ids[#[trigger] classes[j]] == j
}

/// Every label seen so far has its class.
proof fn lemma_classes_grow(labels: Seq<Seq<char>>, i: int, k: int)
    requires
        0 <= i < k <= labels.len(),
    ensures
        classes_upto(labels, k).contains(labels[i]),
        classes_upto(labels, k).len() <= k,
    decreases k,
{
    let before = classes_upto(labels, k - 1);
    let now = classes_upto(labels, k);
    if i < k - 1 {
        lemma_classes_grow(labels, i, k - 1);
        let j = choose|j: int| 0 <= j < before.len() && before[j] == labels[i];
        assert(now[j] == labels[i]);
    } else {
        if k > 1 {
            lemma_classes_grow(labels, 0, k - 1);
        }
        if before.contains(labels[i]) {
        } else {
            assert(now[before.len() as int] == labels[i]);
        }
    }
}

impl<'a> Tensor<'a, u8> {
    /// The one-hot encoding of `labels`: a tensor of one row per label and
    /// one column per class, where the classes are the distinct labels in
    /// the order in which each was seen first; a row holds a 1 in the
    /// column of its label's class and zeros elsewhere. Fails with
    /// `InvalidParam` when there is no label, or when the tensor would have
    /// more elements than can be counted.
    pub fn from_one_hot_enc(labels: &Vec<&str>) -> (r: Result<Self, Error>)
        ensures
            labels@.len() == 0 ==> r is Err && r->Err_0.is_invalid_param(no_labels()),
            labels@.len() * classes_of(label_texts(labels@)).len() > usize::MAX ==> r is Err
                && r->Err_0.is_invalid_param(uncountable_shape()),
            labels@.len() > 0 && labels@.len() * classes_of(label_texts(labels@)).len()
                <= usize::MAX ==> r is Ok && {
                &&& r->Ok_0.spec_shape() == seq![
                    labels@.len() as usize,
                    classes_of(label_texts(labels@)).len() as usize,
                ]
                &&& r->Ok_0.spec_strides() == seq![
                    classes_of(label_texts(labels@)).len() as usize,
                    1usize,
                ]
                &&& r->Ok_0.spec_offset() == 0
                &&& r->Ok_0.spec_data() == one_hot_upto(
                    label_texts(labels@),
                    classes_of(label_texts(labels@)),
                    labels@.len() as int,
                )
                &&& r->Ok_0.wf()
            },
    {
        let nlabels = labels.len();
        if nlabels == 0 {
            return Err(
                Error::InvalidParam {
                    err_msg: String::from_str("Label data shouldn't be an empty vector"),
                },
            );
        }
        let ghost texts = label_texts(labels@);
        let mut classes = classes_new();

        let mut i: usize = 0;
        while i < nlabels
            invariant
                i <= nlabels,
                nlabels == labels@.len(),
                texts == label_texts(labels@),
                holds_classes(class_ids(classes), classes_upto(texts, i as int)),
            decreases nlabels - i,
        {
            let label = labels[i];
            let ghost before = classes_upto(texts, i as int);
            let ghost ids = class_ids(classes);
            let nclasses = classes_len(&classes);
            if classes_get(&classes, label).is_none() {
                classes_insert(&mut classes, label, nclasses);
            }
            proof {
                let now = classes_upto(texts, i + 1);
                let grown = class_ids(classes);
                assert(texts[i as int] == label@);
                if before.contains(label@) {
                    assert(ids.dom().contains(label@));
                } else {
                    assert(!ids.dom().contains(label@));
                    assert(now == before.push(label@));
                    assert forall|l: Seq<char>| #[trigger]
                        grown.dom().contains(l) <==> now.contains(l) by {
                        if now.contains(l) {
                            let j = choose|j: int| 0 <= j < now.len() && now[j] == l;
                            if j < before.len() {
                                assert(before[j] == l);
                                assert(before.contains(l));
                            }
                        }
                        if grown.dom().contains(l) {
                            if l == label@ {
                                assert(now[before.len() as int] == l);
                            } else {
                                assert(ids.dom().contains(l));
                                let j = choose|j: int| 0 <= j < before.len() && before[j] == l;
                                assert(now[j] == l);
                            }
                        }
                    }
                    assert forall|a: int, b: int| 0 <= a < b < now.len() implies #[trigger] now[a]
                        != #[trigger] now[b] by {
                        if b == before.len() {
                            assert(before[a] == now[a]);
                            assert(before.contains(now[a]));
                        } else {
                            assert(before[a] != before[b]);
                        }
                    }
                    assert forall|j: int| 0 <= j < now.len() implies grown[#[trigger] now[j]]
                        == j by {
                        if j < before.len() {
                            assert(before[j] == now[j]);
                            assert(before.contains(now[j]));
                        }
                    }
                }
            }
            i += 1;
        }

        let nclasses = classes_len(&classes);
        let ghost all = classes_upto(texts, nlabels as int);
        let total = match nlabels.checked_mul(nclasses) {
            Some(total) => total,
            None => {
                return Err(
                    Error::InvalidParam {
                        err_msg: String::from_str(
                            "The shape holds more elements than can be counted",
                        ),
                    },
                );
            },
        };
        let mut data: Vec<u8> = Vec::with_capacity(total);

        let mut k: usize = 0;
        while k < nlabels
            invariant
                k <= nlabels,
                nlabels == labels@.len(),
                texts == label_texts(labels@),
                all == classes_upto(texts, nlabels as int),
                nclasses == all.len(),
                holds_classes(class_ids(classes), all),
                data@ == one_hot_upto(texts, all, k as int),
            decreases nlabels - k,
        {
            let label = labels[k];
            let mut label_enc = filled(0u8, nclasses);
            proof {
                assert(texts[k as int] == label@);
                lemma_classes_grow(texts, k as int, nlabels as int);
                let hot = class_number(all, label@);
                assert(class_ids(classes)[all[hot]] == hot);
            }
            if let Some(index) = classes_get(&classes, label) {
                label_enc[index] = 1;
            }
            assert(label_enc@ =~= one_hot_row(all.len(), class_number(all, label@)));
            data.append(&mut label_enc);
            k += 1;
        }

        proof {
            lemma_classes_grow(texts, 0, nlabels as int);
            let shape = seq![nlabels, nclasses];
            let strides = seq![nclasses, 1usize];
            assert(data@.len() == nlabels * nclasses) by {
                lemma_one_hot_len(texts, all, nlabels as int);
            }
            assert(tail_size(shape, 2) == 1);
            assert(tail_size(shape, 1) == nclasses * 1);
            assert(shape_size(shape) == nlabels * (nclasses * 1));
            assert(nlabels * (nclasses * 1) == nlabels * nclasses) by (nonlinear_arith);
            assert(nlabels * nclasses >= 1) by (nonlinear_arith)
                requires
                    nlabels >= 1,
                    nclasses >= 1,
            ;
            let last = last_index(shape);
            assert(dot_upto(last, strides, 0) == 0);
            assert(dot_upto(last, strides, 1) == (nlabels - 1) * nclasses);
            assert(dot_upto(last, strides, 2) == (nlabels - 1) * nclasses + (nclasses - 1) * 1);
            assert((nlabels - 1) * nclasses + (nclasses - 1) * 1 == nlabels * nclasses - 1)
                by (nonlinear_arith);
        }
        Ok(
            Tensor {
                shape: vec![nlabels, nclasses],
                strides: vec![nclasses, 1],
                offset: 0,
                data: data,
                _u: PhantomData,
                _s: PhantomData,
            },
        )
    }
}

/// The one-hot rows of `k` labels hold one element per label and class.
proof fn lemma_one_hot_len(labels: Seq<Seq<char>>, classes: Seq<Seq<char>>, k: int)
    requires
        k >= 0,
    ensures
        one_hot_upto(labels, classes, k).len() == k * classes.len(),
    decreases k,
{
    if k > 0 {
        lemma_one_hot_len(labels, classes, k - 1);
        assert((k - 1) * classes.len() + classes.len() == k * classes.len()) by (nonlinear_arith);
    } else {
        assert(0 * classes.len() == 0) by (nonlinear_arith);
    }
}

impl<'a, U> TensorBase<'a, U, Vec<U>> where U: TensorTypeNumeric {
    /// Raises every element below zero to zero, in place: every element
    /// that the tensor shows, one after the other in row-major order. The
    /// tensor has at least one axis.
    pub fn relu(&mut self) -> (r: Result<bool, Error>)
        requires
            old(self).wf(),
            old(self).spec_shape().len() >= 1,
        ensures
            r == Ok::<bool, Error>(true),
            final(self).layout() == old(self).layout(),
            final(self).wf(),
            vals(final(self).spec_data()) == map_shown(
                old(self).layout(),
                vals(old(self).spec_data()),
                ElementOp::Rectify,
                shape_size(old(self).spec_shape()),
            ),
    {
        pass_over(
            self.shape.as_slice(),
            self.strides.as_slice(),
            self.offset,
            self.data.as_mut_slice(),
            PassOp::Rectify,
            U::zero(),
        );
        Ok(true)
    }
}

impl<'a, U> TensorBase<'a, U, &'a mut [U]> where U: TensorTypeNumeric {
    /// Raises every element below zero to zero, in place: every element
    /// that the view shows, one after the other in row-major order. The
    /// view has at least one axis.
    /// What is written is written to the buffer that the view was
    /// borrowed from.
    pub fn relu(&mut self) -> (r: Result<bool, Error>)
        requires
            old(self).wf(),
            old(self).spec_shape().len() >= 1,
        ensures
            r == Ok::<bool, Error>(true),
            final(self).layout() == old(self).layout(),
            final(self).wf(),
            final(final(self).data)@ == final(old(self).data)@,
            vals(final(self).spec_data()) == map_shown(
                old(self).layout(),
                vals(old(self).spec_data()),
                ElementOp::Rectify,
                shape_size(old(self).spec_shape()),
            ),
    {
        pass_over(
            self.shape.as_slice(),
            self.strides.as_slice(),
            self.offset,
            &mut *self.data,
            PassOp::Rectify,
            U::zero(),
        );
        Ok(true)
    }
}

} // verus!
