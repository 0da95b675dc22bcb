use rs_math::tensor::{Error, Tensor, TensorBase};

#[test]
fn shapes_are_aligned_at_their_last_axes() {
    let shape = TensorBase::<i32, Vec<i32>>::shape_bc(&[2, 3], &[3], false).unwrap();
    assert_eq!(shape, vec![2, 3]);
    let shape = TensorBase::<i32, Vec<i32>>::shape_bc(&[3], &[4, 2, 3], false).unwrap();
    assert_eq!(shape, vec![4, 2, 3]);
    let shape = TensorBase::<i32, Vec<i32>>::shape_bc(&[], &[4, 2], false).unwrap();
    assert_eq!(shape, vec![4, 2]);
    assert!(matches!(
        TensorBase::<i32, Vec<i32>>::shape_bc(&[2, 3], &[2], false),
        Err(Error::ShapeMismatchBroadcast { .. })
    ));
    // Stacks of matrices: the batch axes are aligned in the same way.
    let shape = TensorBase::<i32, Vec<i32>>::shape_bc(&[3, 4], &[5, 4, 2], true).unwrap();
    assert_eq!(shape, vec![5, 3, 2]);
    assert!(matches!(
        TensorBase::<i32, Vec<i32>>::shape_bc(&[3], &[3, 2], true),
        Err(Error::ShapeMismatchBroadcast { .. })
    ));
    assert!(matches!(
        TensorBase::<i32, Vec<i32>>::shape_bc(&[2, 3, 4], &[3, 4, 2], true),
        Err(Error::ShapeMismatchBroadcast { .. })
    ));
}

#[test]
fn broadcast_mismatch_of_the_two_broadcasters() {
    match TensorBase::<i32, Vec<i32>>::shape_bc(&[1, 3], &[1, 4], false) {
        Err(Error::ShapeMismatchBroadcast { shape_a, shape_b }) => {
            assert_eq!(shape_a, vec![1, 3]);
            assert_eq!(shape_b, vec![1, 4]);
        }
        _ => panic!("3 and 4 do not go together"),
    }
    match TensorBase::<i32, Vec<i32>>::shape_bc(&[2, 3], &[2, 3], true) {
        Err(Error::ShapeMismatchBroadcast { shape_a, shape_b }) => {
            assert_eq!(shape_a, vec![2, 3]);
            assert_eq!(shape_b, vec![2, 3]);
        }
        _ => panic!("the inner sizes 3 and 2 differ"),
    }
}

#[test]
fn a_row_is_added_to_every_row() {
    let matrix = Tensor::from_vec(vec![vec![1, 2, 3], vec![4, 5, 6]]).unwrap();
    let row = Tensor::from_vec(vec![10, 20, 30]).unwrap();
    let sum = matrix.add(&row.view()).unwrap();
    assert_eq!(sum.shape(), vec![2, 3]);
    assert_eq!(sum, vec![vec![11, 22, 33], vec![14, 25, 36]]);
    let other = row.add(&matrix.view()).unwrap();
    assert_eq!(other, sum);

    let diff = matrix.sub(&row.view()).unwrap();
    assert_eq!(diff, vec![vec![-9, -18, -27], vec![-6, -15, -24]]);
    let back = row.sub(&matrix.view()).unwrap();
    assert_eq!(back.shape(), diff.shape());
    assert_eq!(back, vec![vec![9, 18, 27], vec![6, 15, 24]]);
}

#[test]
fn a_column_is_added_to_every_column() {
    let matrix = Tensor::from_vec(vec![vec![1, 2, 3], vec![4, 5, 6]]).unwrap();
    let column = Tensor::from_vec(vec![vec![100], vec![200]]).unwrap();
    let sum = matrix.add(&column.view()).unwrap();
    assert_eq!(sum, vec![vec![101, 102, 103], vec![204, 205, 206]]);
    assert_eq!(sum.strides(), vec![3, 1]);
    assert_eq!(column.add(&matrix.view()).unwrap(), sum);

    let row = Tensor::from_vec(vec![vec![1, 2, 3]]).unwrap();
    let table = column.add(&row.view()).unwrap();
    assert_eq!(table, vec![vec![101, 102, 103], vec![201, 202, 203]]);
}

#[test]
fn operands_are_read_where_their_views_lie() {
    let matrix = Tensor::from_vec(vec![vec![1, 2, 3], vec![4, 5, 6]]).unwrap();
    let second = matrix.slice(&[1]).unwrap();
    let first = matrix.slice(&[0]).unwrap();
    let sum = second.add(&first).unwrap();
    assert_eq!(sum, vec![5, 7, 9]);
    let turned = matrix.transpose().unwrap();
    let twice = turned.add(&turned).unwrap();
    assert_eq!(twice, vec![vec![2, 8], vec![4, 10], vec![6, 12]]);
    assert_eq!(twice.strides(), vec![2, 1]);
    let square = matrix.mul(&turned).unwrap();
    assert_eq!(square, vec![vec![14, 32], vec![32, 77]]);
}

#[test]
fn matrix_product_of_two_by_three_and_three_by_two() {
    let a = Tensor::from_vec(vec![vec![1, 2, 3], vec![4, 5, 6]]).unwrap();
    let b = Tensor::from_vec(vec![vec![1, 2], vec![3, 4], vec![5, 6]]).unwrap();
    let c = a.mul(&b.view()).unwrap();
    assert_eq!(c.shape(), vec![2, 2]);
    assert_eq!(c.strides(), vec![2, 1]);
    assert_eq!(c.data(), vec![22, 28, 49, 64]);
    assert_eq!(c, vec![vec![22, 28], vec![49, 64]]);
}

#[test]
fn one_matrix_times_a_stack() {
    let a = Tensor::from_vec(vec![vec![1, 0], vec![0, 2]]).unwrap();
    let stack = Tensor::from_vec(vec![
        vec![vec![1, 2], vec![3, 4]],
        vec![vec![5, 6], vec![7, 8]],
        vec![vec![9, 10], vec![11, 12]],
    ])
    .unwrap();
    let c = a.mul(&stack.view()).unwrap();
    assert_eq!(c.shape(), vec![3, 2, 2]);
    assert_eq!(
        c,
        vec![
            vec![vec![1, 2], vec![6, 8]],
            vec![vec![5, 6], vec![14, 16]],
            vec![vec![9, 10], vec![22, 24]],
        ]
    );
    let d = stack.mul(&a.view()).unwrap();
    assert_eq!(
        d,
        vec![
            vec![vec![1, 4], vec![3, 8]],
            vec![vec![5, 12], vec![7, 16]],
            vec![vec![9, 20], vec![11, 24]],
        ]
    );
}

#[test]
fn product_over_an_empty_inner_axis_is_zero() {
    let a = Tensor::<i32>::from_zeros(&[2, 0]).unwrap();
    let b = Tensor::<i32>::from_zeros(&[0, 3]).unwrap();
    let c = a.mul(&b.view()).unwrap();
    assert_eq!(c.shape(), vec![2, 3]);
    assert_eq!(c, vec![vec![0, 0, 0], vec![0, 0, 0]]);
}

#[test]
fn sum_of_tensors_without_elements() {
    let a = Tensor::<i32>::from_zeros(&[0, 3]).unwrap();
    let b = Tensor::<i32>::from_zeros(&[0, 3]).unwrap();
    let c = a.add(&b.view()).unwrap();
    assert_eq!(c.shape(), vec![0, 3]);
    assert_eq!(c.data(), Vec::<i32>::new());
}

#[test]
fn scalar_arithmetic_reaches_what_the_view_shows() {
    let mut tensor = Tensor::from_vec(vec![vec![1, 2, 3], vec![4, 5, 6]]).unwrap();
    {
        let mut row = tensor.slice_mut(&[1]).unwrap();
        row.add_scalar(10);
    }
    assert_eq!(tensor, vec![vec![1, 2, 3], vec![14, 15, 16]]);
    {
        let mut column = tensor.axis_mut(1).unwrap();
        let mut first = column.slice_mut(&[0]).unwrap();
        first.mul_scalar(-2);
    }
    assert_eq!(tensor, vec![vec![-2, 2, 3], vec![-28, 15, 16]]);
    tensor.sub_scalar(1);
    assert_eq!(tensor.data(), vec![-3, 1, 2, -29, 14, 15]);
}

#[test]
fn relu_reaches_what_the_view_shows() {
    let mut tensor = Tensor::from_vec(vec![vec![-1, -2, -3], vec![-4, 5, -6]]).unwrap();
    {
        let mut row = tensor.slice_mut(&[1]).unwrap();
        assert_eq!(row.relu().unwrap(), true);
    }
    assert_eq!(tensor, vec![vec![-1, -2, -3], vec![0, 5, 0]]);
    let mut unsigned = Tensor::from_vec(vec![0u8, 3, 255]).unwrap();
    unsigned.relu().unwrap();
    assert_eq!(unsigned.data(), vec![0, 3, 255]);
}

#[test]
fn one_hot_of_cat_dog_cat() {
    let labels = vec!["cat", "dog", "cat"];
    let tensor = Tensor::from_one_hot_enc(&labels).unwrap();
    assert_eq!(tensor.shape(), vec![3, 2]);
    assert_eq!(tensor.strides(), vec![2, 1]);
    assert_eq!(tensor.slice(&[0]).unwrap(), vec![1, 0]);
    assert_eq!(tensor.slice(&[1]).unwrap(), vec![0, 1]);
    assert_eq!(tensor.slice(&[2]).unwrap(), vec![1, 0]);
    assert_eq!(tensor.data(), vec![1, 0, 0, 1, 1, 0]);
}

#[test]
fn one_hot_numbers_the_classes_as_they_come() {
    let labels = vec!["zebra", "ant", "zebra", "bee", "ant", ""];
    let tensor = Tensor::from_one_hot_enc(&labels).unwrap();
    assert_eq!(tensor.shape(), vec![6, 4]);
    assert_eq!(
        tensor,
        vec![
            vec![1, 0, 0, 0],
            vec![0, 1, 0, 0],
            vec![1, 0, 0, 0],
            vec![0, 0, 1, 0],
            vec![0, 1, 0, 0],
            vec![0, 0, 0, 1],
        ]
    );
    // Labels are told apart by their text, not by where they are stored.
    let owned: Vec<String> = vec!["a".to_string(), "b".to_string(), "a".to_string()];
    let labels: Vec<&str> = owned.iter().map(|s| s.as_str()).collect();
    let tensor = Tensor::from_one_hot_enc(&labels).unwrap();
    assert_eq!(tensor.data(), vec![1, 0, 0, 1, 1, 0]);
}

#[test]
fn operators_give_what_the_methods_give() {
    let a = Tensor::from_vec(vec![vec![1, 2, 3], vec![4, 5, 6]]).unwrap();
    let b = Tensor::from_vec(vec![vec![1, 2], vec![3, 4], vec![5, 6]]).unwrap();
    let row = Tensor::from_vec(vec![10, 20, 30]).unwrap();
    assert_eq!(&a + &row, vec![vec![11, 22, 33], vec![14, 25, 36]]);
    assert_eq!(&a - &row, vec![vec![-9, -18, -27], vec![-6, -15, -24]]);
    assert_eq!(&a * &b, vec![vec![22, 28], vec![49, 64]]);
    assert_eq!(&a.view() * &b.view(), a.mul_alias(&b.view()).unwrap());
    assert_eq!(&a.view() + &row, a.add_alias(&row.view()).unwrap());
    // Where the method fails, the operator gives a tensor without axes and
    // without elements.
    let nothing = &a + &b;
    assert_eq!(nothing.shape(), Vec::<usize>::new());
    assert_eq!(nothing.data(), Vec::<i32>::new());
    let nothing = &a * &a;
    assert_eq!(nothing.strides(), Vec::<usize>::new());
    assert_eq!(nothing.nelems(), 0);
    let nothing = &a - &b;
    assert_eq!(nothing.nelems(), 0);
}

#[test]
fn compound_assignment_reaches_what_a_view_shows() {
    let mut tensor = Tensor::from_vec(vec![vec![1, 2, 3], vec![4, 5, 6]]).unwrap();
    tensor += 1;
    assert_eq!(tensor, vec![vec![2, 3, 4], vec![5, 6, 7]]);
    tensor *= 2;
    assert_eq!(tensor, vec![vec![4, 6, 8], vec![10, 12, 14]]);
    tensor -= 4;
    assert_eq!(tensor, vec![vec![0, 2, 4], vec![6, 8, 10]]);
    {
        let mut row = tensor.slice_mut(&[1]).unwrap();
        row += 100;
        row *= 2;
        row -= 12;
    }
    assert_eq!(tensor, vec![vec![0, 2, 4], vec![200, 204, 208]]);
}
