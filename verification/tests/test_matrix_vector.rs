use rs_math::matrix::Matrix;
use rs_math::tensor::Error;
use rs_math::vector::Vector;

#[test]
fn matrix_from_rows_of_an_array() {
    let matrix = Matrix::from_arr([[1, 2, 3], [4, 5, 6]]).unwrap();
    assert_eq!(matrix.shape(), vec![2, 3]);
    assert_eq!(matrix, vec![vec![1, 2, 3], vec![4, 5, 6]]);
    let none: [[i32; 3]; 0] = [];
    let matrix = Matrix::from_arr(none).unwrap();
    assert_eq!(matrix.shape(), vec![0]);
}

#[test]
fn matrix_from_shape_and_buffer() {
    let matrix = Matrix::from_shape(&[2, 2], &vec![1u8, 2, 3, 4]).unwrap();
    assert_eq!(matrix, vec![vec![1, 2], vec![3, 4]]);
    assert!(matches!(
        Matrix::from_shape(&[2, 2], &vec![1u8, 2, 3]),
        Err(Error::InvalidParam { .. })
    ));
    assert!(matches!(
        Matrix::<i32>::from_zeros(usize::MAX, 2),
        Err(Error::InvalidParam { .. })
    ));
}

#[test]
fn matrix_rows_and_columns_outside() {
    let matrix = Matrix::from_vec(vec![vec![1, 2, 3], vec![4, 5, 6]]).unwrap();
    assert!(matches!(matrix.row(2), Err(Error::InvalidSlicing { .. })));
    assert!(matches!(matrix.col(3), Err(Error::InvalidSlicing { .. })));
}

#[test]
fn matrix_arithmetic() {
    let a = Matrix::from_vec(vec![vec![1, 2, 3], vec![4, 5, 6]]).unwrap();
    let b = Matrix::from_vec(vec![vec![1, 2], vec![3, 4], vec![5, 6]]).unwrap();
    let c = a.mul(&b).unwrap();
    assert_eq!(c, vec![vec![22, 28], vec![49, 64]]);
    assert!(matches!(
        a.mul(&a),
        Err(Error::ShapeMismatchBroadcast { .. })
    ));
    let d = a.add(&a).unwrap();
    assert_eq!(d, vec![vec![2, 4, 6], vec![8, 10, 12]]);
    let e = d.sub(&a).unwrap();
    assert_eq!(e, a);
    assert!(matches!(
        a.add(&b),
        Err(Error::ShapeMismatchBroadcast { .. })
    ));
}

#[test]
fn matrix_scalar_arithmetic() {
    let mut matrix = Matrix::from_vec(vec![vec![1, 2], vec![3, 4]]).unwrap();
    matrix.add_scalar(1);
    assert_eq!(matrix, vec![vec![2, 3], vec![4, 5]]);
    matrix.mul_scalar(3);
    assert_eq!(matrix, vec![vec![6, 9], vec![12, 15]]);
    matrix.sub_scalar(6);
    assert_eq!(matrix, vec![vec![0, 3], vec![6, 9]]);
}

#[test]
fn matrix_transposed_and_printed() {
    let mut matrix = Matrix::from_vec(vec![vec![1, 2, 3], vec![4, 5, 6]]).unwrap();
    assert_eq!(matrix.print(), "[[1, 2, 3], [4, 5, 6]]");
    assert_eq!(
        matrix.t().unwrap(),
        vec![vec![1, 4], vec![2, 5], vec![3, 6]]
    );
    {
        let mut turned = matrix.t_mut().unwrap();
        turned.setval(&[2, 1], 60).unwrap();
    }
    assert_eq!(matrix, vec![vec![1, 2, 3], vec![4, 5, 60]]);
}

#[test]
fn matrix_update_refuses_another_shape() {
    let mut matrix = Matrix::from_vec(vec![vec![1, 2, 3], vec![4, 5, 6]]).unwrap();
    assert!(matches!(
        matrix.update(vec![vec![1, 2], vec![3, 4]]),
        Err(Error::ShapeMismatch { .. })
    ));
    assert!(matches!(
        matrix.update_row(2, vec![1, 2, 3]),
        Err(Error::InvalidSlicing { .. })
    ));
    assert!(matches!(
        matrix.update_row(0, vec![1, 2]),
        Err(Error::ShapeMismatch { .. })
    ));
    assert_eq!(matrix, vec![vec![1, 2, 3], vec![4, 5, 6]]);
}

#[test]
fn matrix_of_one_hot_rows() {
    let labels = vec!["cat", "dog", "cat"];
    let matrix = Matrix::from_one_hot_enc(&labels).unwrap();
    assert_eq!(matrix.shape(), vec![3, 2]);
    assert_eq!(matrix, vec![vec![1, 0], vec![0, 1], vec![1, 0]]);
    let none: Vec<&str> = vec![];
    assert!(matches!(
        Matrix::from_one_hot_enc(&none),
        Err(Error::InvalidParam { .. })
    ));
}

#[test]
fn vector_rows_outside() {
    let mut vector = Vector::from_vec(vec![1, 2, 3]).unwrap();
    match vector.get(3) {
        Err(Error::IndexOutOfRange { index, nelems }) => {
            assert_eq!(index, 3);
            assert_eq!(nelems, 3);
        }
        _ => panic!("there is no row 3"),
    }
    assert!(matches!(
        vector.set(3, 0),
        Err(Error::IndexOutOfRange { .. })
    ));
    assert_eq!(vector, vec![vec![1], vec![2], vec![3]]);
    let other = Vector::from_vec(vec![1, 2, 4]).unwrap();
    assert!(!(vector == other));
}
