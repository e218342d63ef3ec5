use tensorx::error::TensorError;
use tensorx::tensor::Tensor;

#[test]
fn test_matmul() {
    let a = Tensor::from([[1.0, 2.0], [3.0, 4.0]]);
    let b = Tensor::from([[5.0, 6.0], [7.0, 8.0]]);
    let c = a.matmul(&b);

    //
    //  [ 1.0 , 2.0 ]
    //  [ 3.0 , 4.0 ]
    //
    //  [ 5.0 , 6.0 ]
    //  [ 7.0 , 8.0 ]
    //

    assert_eq!(c.unwrap().get_data(), vec![19., 22., 43., 50.]);
}

#[test]
fn matmul_of_integers_has_row_major_result() {
    let a = Tensor::from([[1i64, 2], [3, 4]]);
    let b = Tensor::from([[5i64, 6], [7, 8]]);
    let c = a.matmul(&b).unwrap();
    assert_eq!(c.get_data(), vec![19i64, 22, 43, 50]);
    assert_eq!(c.get_shape(), vec![2usize, 2]);
    assert_eq!(c.get_strides(), vec![2usize, 1]);
    assert_eq!(*c.get_offset(), 0);
}

#[test]
fn matmul_of_rectangular_operands() {
    let a = Tensor::from([[1i32, 2, 3], [4, 5, 6]]);
    let b = Tensor::from([[1i32, 0], [0, 1], [2, 2]]);
    let c = a.matmul(&b).unwrap();
    assert_eq!(c.get_shape(), vec![2usize, 2]);
    assert_eq!(c.get_data(), vec![7, 8, 16, 17]);
}

#[test]
fn matmul_reads_operands_through_their_strides() {
    let a = Tensor::from([[1i32, 2], [3, 4]]);
    let at = a.transpose(0, 1).unwrap();
    let b = Tensor::from([[5i32, 6], [7, 8]]);
    let c = at.matmul(&b).unwrap();
    // [[1, 3], [2, 4]] * [[5, 6], [7, 8]]
    assert_eq!(c.get_data(), vec![26, 30, 38, 44]);
}

#[test]
fn matmul_rejects_operands_that_are_no_matrices() {
    let a = Tensor::new(vec![2, 2, 2], 1i32);
    let b = Tensor::from([[1i32, 2], [3, 4]]);
    assert_eq!(a.matmul(&b).err(), Some(TensorError::ShapeMismatch));
    assert_eq!(b.matmul(&a).err(), Some(TensorError::ShapeMismatch));
}

#[test]
fn matmul_rejects_disagreeing_inner_extents() {
    let a = Tensor::from([[1i32, 2, 3], [4, 5, 6]]);
    let b = Tensor::from([[1i32, 2], [3, 4]]);
    assert_eq!(a.matmul(&b).err(), Some(TensorError::DimensionalMismatch));
}

#[test]
fn matmul_rejects_a_shape_that_leaves_the_buffer() {
    let mut a = Tensor::from([[1i32, 2], [3, 4]]);
    a.set_shape(vec![3, 2]).unwrap();
    let b = Tensor::from([[1i32, 2], [3, 4]]);
    assert_eq!(a.matmul(&b).err(), Some(TensorError::IndexOutOfBounds));
}

#[test]
fn matmul_with_an_empty_inner_extent_is_all_zero() {
    let a: Tensor<i32> = Tensor::new(vec![2, 0], 0);
    let b: Tensor<i32> = Tensor::new(vec![0, 3], 0);
    let c = a.matmul(&b).unwrap();
    assert_eq!(c.get_shape(), vec![2usize, 3]);
    assert_eq!(c.get_data(), vec![0; 6]);
}
