use rs_math::tensor::{Error, Tensor};

#[test]
fn text_of_each_error() {
    assert_eq!(
        Error::InvalidAxis { axis: 3, ndim: 2 }.to_string(),
        "Invalid axis [ AXIS: 3 | NDIM: 2 ]"
    );
    assert_eq!(
        Error::InvalidSlicing {
            slice: vec![2, 0],
            shape: vec![2, 3]
        }
        .to_string(),
        "Invalid slicing [ SLICE: [2, 0] | SHAPE: [2, 3] ]"
    );
    assert_eq!(
        Error::ShapeMismatch {
            shape_a: vec![],
            shape_b: vec![4]
        }
        .to_string(),
        "Shape mismatch [ SHAPE(A): [] | SHAPE(B): [4] ]"
    );
    assert_eq!(
        Error::DimensionMismatch {
            tensor_dim: 3,
            dim: 12
        }
        .to_string(),
        "Dimension mismatch [ TENSOR_DIMENSION: 3 | DIMENSION: 12 ]"
    );
    assert_eq!(
        Error::ShapeMismatchBroadcast {
            shape_a: vec![1, 3],
            shape_b: vec![1, 4]
        }
        .to_string(),
        "The two shapes are not compatible for broadcasting [ SHAPE(A): [1, 3] | SHAPE(B): [1, 4] ]"
    );
    assert_eq!(
        Error::IndexOutOfRange {
            index: 18446744073709551615,
            nelems: 0
        }
        .to_string(),
        "Index out of range [ INDEX: 18446744073709551615 | NUM_ELEMENTS: 0 ]"
    );
    assert_eq!(
        Error::InvalidParam {
            err_msg: "no labels".to_string()
        }
        .to_string(),
        "Invalid parameter [ DESC: no labels ]"
    );
    assert_eq!(
        Error::InvalidFileContents {
            err_msg: "short file".to_string()
        }
        .to_string(),
        "Error [ ERR_MSG: short file ]"
    );
    assert_eq!(
        Error::Error {
            err_msg: "".to_string()
        }
        .to_string(),
        "Error [ ERR_MSG:  ]"
    );
}

#[test]
fn errors_carry_what_they_failed_on() {
    let tensor = Tensor::from_vec(vec![vec![1, 2, 3], vec![4, 5, 6]]).unwrap();
    assert_eq!(
        tensor.getval(&[1]).unwrap_err().to_string(),
        "Shape mismatch [ SHAPE(A): [1] | SHAPE(B): [2, 3] ]"
    );
    assert_eq!(
        tensor.getval(&[2, 0]).unwrap_err().to_string(),
        "Index out of range [ INDEX: 6 | NUM_ELEMENTS: 6 ]"
    );
    assert_eq!(
        tensor.getval(&[usize::MAX, usize::MAX]).unwrap_err().to_string(),
        "Index out of range [ INDEX: 18446744073709551615 | NUM_ELEMENTS: 6 ]"
    );
    assert_eq!(
        tensor.slice(&[0, 3]).unwrap_err().to_string(),
        "Invalid slicing [ SLICE: [0, 3] | SHAPE: [2, 3] ]"
    );
    assert_eq!(
        tensor.slice(&[0, 0, 0]).unwrap_err().to_string(),
        "Shape mismatch [ SHAPE(A): [0, 0, 0] | SHAPE(B): [2, 3] ]"
    );
    assert_eq!(
        tensor.axis(2).unwrap_err().to_string(),
        "Invalid axis [ AXIS: 2 | NDIM: 2 ]"
    );
    assert_eq!(
        tensor.permute(&[0]).unwrap_err().to_string(),
        "Dimension mismatch [ TENSOR_DIMENSION: 2 | DIMENSION: 1 ]"
    );
    let other = Tensor::from_vec(vec![vec![1, 2], vec![3, 4]]).unwrap();
    assert_eq!(
        tensor.add(&other.view()).unwrap_err().to_string(),
        "The two shapes are not compatible for broadcasting [ SHAPE(A): [2, 3] | SHAPE(B): [2, 2] ]"
    );
    assert_eq!(
        tensor.mul(&tensor.view()).unwrap_err().to_string(),
        "The two shapes are not compatible for broadcasting [ SHAPE(A): [2, 3] | SHAPE(B): [2, 3] ]"
    );
    let labels: Vec<&str> = vec![];
    assert_eq!(
        Tensor::from_one_hot_enc(&labels).unwrap_err().to_string(),
        "Invalid parameter [ DESC: Label data shouldn't be an empty vector ]"
    );
    let data = vec![1, 2, 3];
    assert_eq!(
        Tensor::from_shape(&[2, 2], &data).unwrap_err().to_string(),
        "Invalid parameter [ DESC: The shape does not match the number of elements ]"
    );
}

#[test]
fn failure_of_the_operating_system_becomes_the_generic_error() {
    let failure = std::io::Error::new(std::io::ErrorKind::NotFound, "no such file");
    let error = Error::from(failure);
    match &error {
        Error::Error { err_msg } => assert_eq!(err_msg, "no such file"),
        _ => panic!("a failure of the operating system is the generic error"),
    }
    assert_eq!(error.to_string(), "Error [ ERR_MSG: no such file ]");
}
