//! One-hot encoding as a matrix.

use crate::tensor::{no_labels, uncountable_shape, Error, Tensor};
use crate::tensor::tensor_linalg::{classes_of, label_texts, one_hot_upto};
use super::Matrix;
use vstd::prelude::*;

verus! {

impl<'a> Matrix<'a, u8> {
    /// The one-hot encoding of `labels` as a matrix of one row per label
    /// and one column per class; see `Tensor::from_one_hot_enc`.
    pub fn from_one_hot_enc(labels: &Vec<&str>) -> (r: Result<Self, Error>)
        ensures
            labels@.len() == 0 ==> r is Err && r->Err_0.is_invalid_param(no_labels()),
            labels@.len() * classes_of(label_texts(labels@)).len() > usize::MAX ==> r is Err
                && r->Err_0.is_invalid_param(uncountable_shape()),
            labels@.len() > 0 && labels@.len() * classes_of(label_texts(labels@)).len()
                <= usize::MAX ==> r is Ok && {
                &&& r->Ok_0.spec_tensor().spec_shape() == seq![
                    labels@.len() as usize,
                    classes_of(label_texts(labels@)).len() as usize,
                ]
                &&& r->Ok_0.spec_tensor().spec_strides() == seq![
                    classes_of(label_texts(labels@)).len() as usize,
                    1usize,
                ]
                &&& r->Ok_0.spec_tensor().spec_offset() == 0
                &&& r->Ok_0.spec_tensor().spec_data() == one_hot_upto(
                    label_texts(labels@),
                    classes_of(label_texts(labels@)),
                    labels@.len() as int,
                )
                &&& r->Ok_0.wf()
            },
    {
        let tensor = Tensor::from_one_hot_enc(labels)?;
        Ok(Matrix { tensor })
    }
}

} // verus!
