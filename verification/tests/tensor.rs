use tensorx::error::TensorError;
use tensorx::layout::{checked_product, compute_strides, is_valid_perm, strides_in_range, unravel_index};
use tensorx::tensor::Tensor;

#[test]
fn strides_are_row_major() {
    assert_eq!(compute_strides(&[2, 3, 4]), vec![12, 4, 1]);
    assert_eq!(compute_strides(&[5]), vec![1]);
    assert_eq!(compute_strides(&[]), Vec::<usize>::new());
    assert_eq!(compute_strides(&[7, 0, 3]), vec![0, 3, 1]);
}

#[test]
fn strides_end_in_one_and_multiply_up() {
    let shape = [3usize, 1, 4, 2, 5];
    let strides = compute_strides(&shape);
    assert_eq!(strides[shape.len() - 1], 1);
    for i in 0..shape.len() - 1 {
        assert_eq!(strides[i], strides[i + 1] * shape[i + 1]);
    }
}

#[test]
fn stride_range_is_checked() {
    assert!(strides_in_range(&[2, 3, 4]));
    assert!(strides_in_range(&[]));
    assert!(strides_in_range(&[usize::MAX, usize::MAX]));
    assert!(!strides_in_range(&[1, usize::MAX, 2]));
    assert!(!strides_in_range(&[0, usize::MAX, usize::MAX]));
}

#[test]
fn element_count_is_checked() {
    assert_eq!(checked_product(&[2, 3, 4]), Some(24));
    assert_eq!(checked_product(&[]), Some(1));
    assert_eq!(checked_product(&[usize::MAX, 2]), None);
    assert_eq!(checked_product(&[usize::MAX, 2, 0]), Some(0));
    assert_eq!(checked_product(&[0, usize::MAX, 2]), Some(0));
}

#[test]
fn permutations_are_recognised() {
    assert!(is_valid_perm(&[0, 1, 2]));
    assert!(is_valid_perm(&[2, 0, 1]));
    assert!(is_valid_perm(&[]));
    assert!(!is_valid_perm(&[0, 0, 1]));
    assert!(!is_valid_perm(&[0, 3, 1]));
    assert!(!is_valid_perm(&[1]));
}

#[test]
fn positions_unravel_to_coordinates() {
    let shape = [2usize, 3, 4];
    let strides = compute_strides(&shape);
    assert_eq!(unravel_index(0, &shape, &strides), vec![0, 0, 0]);
    assert_eq!(unravel_index(5, &shape, &strides), vec![0, 1, 1]);
    assert_eq!(unravel_index(23, &shape, &strides), vec![1, 2, 3]);
}

#[test]
fn new_fills_a_row_major_tensor() {
    let t = Tensor::new(vec![2, 3], 7u8);
    assert_eq!(t.get_data(), vec![7u8; 6]);
    assert_eq!(t.get_shape(), vec![2usize, 3]);
    assert_eq!(t.get_strides(), vec![3usize, 1]);
    assert_eq!(*t.get_offset(), 0);
}

#[test]
fn from_data_takes_a_matching_buffer() {
    let t = Tensor::from_data(vec![2, 2], vec![1, 2, 3, 4]).unwrap();
    assert_eq!(t.get_data(), vec![1, 2, 3, 4]);
    assert_eq!(t.get_strides(), vec![2usize, 1]);
}

#[test]
fn from_data_rejects_a_buffer_of_another_size() {
    let r = Tensor::from_data(vec![2, 3], vec![1, 2, 3, 4]);
    assert_eq!(r.err(), Some(TensorError::ShapeMismatch));
    let r = Tensor::from_data(vec![usize::MAX, 2], vec![1, 2]);
    assert_eq!(r.err(), Some(TensorError::ShapeMismatch));
}

#[test]
fn from_rows_lays_rows_end_to_end() {
    let t = Tensor::from([[1, 2, 3], [4, 5, 6]]);
    assert_eq!(t.get_shape(), vec![2usize, 3]);
    assert_eq!(t.get_strides(), vec![3usize, 1]);
    assert_eq!(t.get_data(), vec![1, 2, 3, 4, 5, 6]);
}

#[test]
fn index_is_the_sum_of_coordinate_times_stride() {
    let t = Tensor::new(vec![2, 3, 4], 0i32);
    assert_eq!(t.get_index(&[1, 2, 3]), Ok(23));
    assert_eq!(t.get_index(&[0, 0, 0]), Ok(0));
    // the index is not held against the extents
    assert_eq!(t.get_index(&[0, 5, 0]), Ok(20));
}

#[test]
fn index_rejects_a_tuple_of_the_wrong_length() {
    let t = Tensor::new(vec![2, 3], 0i32);
    assert_eq!(t.get_index(&[1]), Err(TensorError::IndexOutOfBounds));
    assert_eq!(t.get_index(&[1, 1, 1]), Err(TensorError::IndexOutOfBounds));
}

#[test]
fn index_rejects_a_position_that_is_no_machine_integer() {
    let t = Tensor::new(vec![2, 3], 0i32);
    assert_eq!(t.get_index(&[usize::MAX, 0]), Err(TensorError::IndexOutOfBounds));
    assert_eq!(t.get_index(&[0, usize::MAX]), Ok(usize::MAX));
    assert_eq!(t.get_index(&[1, usize::MAX]), Err(TensorError::IndexOutOfBounds));
}

#[test]
fn get_reads_through_the_strides() {
    let t = Tensor::from([[1, 2, 3], [4, 5, 6]]);
    assert_eq!(t.get(&[0, 0]), Ok(&1));
    assert_eq!(t.get(&[1, 2]), Ok(&6));
    assert_eq!(t.get(&[2, 0]), Err(TensorError::IndexOutOfBounds));
    assert_eq!(t.get(&[1]), Err(TensorError::IndexOutOfBounds));
}

#[test]
fn a_coordinate_past_its_extent_is_out_of_bounds() {
    let mut t = Tensor::from([[1, 2, 3], [4, 5, 6]]);
    // position 3 lies inside the buffer, but column 3 is no column
    assert_eq!(t.get_index(&[0, 3]), Ok(3));
    assert_eq!(t.get(&[0, 3]), Err(TensorError::IndexOutOfBounds));
    assert_eq!(t.get_mut(&[0, 3]).err(), Some(TensorError::IndexOutOfBounds));
    assert_eq!(t.set(&[0, 3], 9), Err(TensorError::IndexOutOfBounds));
    assert_eq!(t.get(&[0, 5]), Err(TensorError::IndexOutOfBounds));
    assert_eq!(t.get_data(), vec![1, 2, 3, 4, 5, 6]);
    assert_eq!(t.get(&[1, 0]), Ok(&4));
}

#[test]
fn coordinates_are_held_against_the_permuted_shape() {
    let t = Tensor::from([[1, 2, 3], [4, 5, 6]]);
    let tt = t.transpose(0, 1).unwrap();
    assert_eq!(tt.get(&[2, 1]), Ok(&6));
    assert_eq!(tt.get(&[1, 2]), Err(TensorError::IndexOutOfBounds));
}

#[test]
fn coordinates_are_recognised_inside_a_shape() {
    assert!(tensorx::layout::is_within(&[1, 2], &[2, 3]));
    assert!(tensorx::layout::is_within(&[], &[]));
    assert!(!tensorx::layout::is_within(&[0, 3], &[2, 3]));
    assert!(!tensorx::layout::is_within(&[2, 0], &[2, 3]));
    assert!(!tensorx::layout::is_within(&[0], &[2, 3]));
    assert!(!tensorx::layout::is_within(&[0, 0], &[2, 0]));
}

#[test]
fn set_and_get_mut_write_one_element() {
    let mut t = Tensor::from([[1, 2], [3, 4]]);
    assert_eq!(t.set(&[0, 1], 20), Ok(()));
    *t.get_mut(&[1, 0]).unwrap() = 30;
    assert_eq!(t.get_data(), vec![1, 20, 30, 4]);
    assert_eq!(t.set(&[2, 0], 9), Err(TensorError::IndexOutOfBounds));
    assert_eq!(t.get_mut(&[0]).err(), Some(TensorError::IndexOutOfBounds));
    assert_eq!(t.get_data(), vec![1, 20, 30, 4]);
}

#[test]
fn setters_hold_the_replacement_to_the_old_length() {
    let mut t = Tensor::from([[1, 2], [3, 4]]);
    assert_eq!(t.set_offset(4), Ok(()));
    assert_eq!(*t.get_offset(), 4);
    assert_eq!(t.set_offset(5), Err(TensorError::IndexOutOfBounds));
    assert_eq!(*t.get_offset(), 4);

    assert_eq!(t.set_data(vec![5, 6, 7, 8]), Ok(()));
    assert_eq!(t.set_data(vec![5, 6, 7]), Err(TensorError::DimensionalMismatch));
    assert_eq!(t.get_data(), vec![5, 6, 7, 8]);

    assert_eq!(t.set_shape(vec![4, 1]), Ok(()));
    assert_eq!(t.set_shape(vec![4]), Err(TensorError::ShapeMismatch));
    assert_eq!(t.get_shape(), vec![4usize, 1]);

    assert_eq!(t.set_strides(vec![1, 1]), Ok(()));
    assert_eq!(t.set_strides(vec![1, 1, 1]), Err(TensorError::DimensionalMismatch));
    assert_eq!(t.get_strides(), vec![1usize, 1]);
}

#[test]
fn reshape_keeps_the_elements_and_recomputes_the_strides() {
    let mut t = Tensor::from([[1, 2, 3], [4, 5, 6]]);
    let copy = t.reshape(vec![3, 2]).unwrap();
    assert_eq!(t.get_shape(), vec![3usize, 2]);
    assert_eq!(t.get_strides(), vec![2usize, 1]);
    assert_eq!(t.get_data(), vec![1, 2, 3, 4, 5, 6]);
    assert_eq!(copy.get_shape(), vec![3usize, 2]);
    assert_eq!(copy.get_strides(), vec![2usize, 1]);
    assert_eq!(copy.get_data(), vec![1, 2, 3, 4, 5, 6]);

    let copy = t.reshape(vec![6]).unwrap();
    assert_eq!(copy.get_strides(), compute_strides(&[6]));
    let copy = t.reshape(vec![1, 2, 3]).unwrap();
    assert_eq!(copy.get_strides(), compute_strides(&[1, 2, 3]));
}

#[test]
fn reshape_rejects_another_element_count() {
    let mut t = Tensor::from([[1, 2, 3], [4, 5, 6]]);
    assert_eq!(t.reshape(vec![4, 2]).err(), Some(TensorError::ShapeMismatch));
    assert_eq!(t.reshape(vec![5]).err(), Some(TensorError::ShapeMismatch));
    assert_eq!(t.reshape(vec![]).err(), Some(TensorError::ShapeMismatch));
    assert_eq!(t.get_shape(), vec![2usize, 3]);
    assert_eq!(t.get_strides(), vec![3usize, 1]);
}

#[test]
fn permute_gathers_shape_and_strides() {
    let t = Tensor::new(vec![2, 3, 4], 1u8);
    let p = t.permute(&[2, 0, 1]).unwrap();
    assert_eq!(p.get_shape(), vec![4usize, 2, 3]);
    assert_eq!(p.get_strides(), vec![1usize, 12, 4]);
    assert_eq!(*p.get_offset(), 0);
    assert_eq!(p.get_data(), t.get_data());
}

#[test]
fn permute_rejects_what_is_no_bijection() {
    let t = Tensor::new(vec![2, 3, 4], 1u8);
    assert_eq!(t.permute(&[0, 0, 1]).err(), Some(TensorError::InvalidPermutation));
    assert_eq!(t.permute(&[0, 1, 3]).err(), Some(TensorError::InvalidPermutation));
    assert_eq!(t.permute(&[0, 1]).err(), Some(TensorError::InvalidPermutation));
    assert_eq!(t.permute(&[0, 1, 2, 3]).err(), Some(TensorError::InvalidPermutation));
}

#[test]
fn transpose_is_the_identity_with_two_axes_swapped() {
    let t = Tensor::new(vec![2, 3, 4], 1u8);
    let a = t.transpose(0, 2).unwrap();
    let b = t.permute(&[2, 1, 0]).unwrap();
    assert_eq!(a.get_shape(), b.get_shape());
    assert_eq!(a.get_strides(), b.get_strides());
    assert_eq!(a.get_offset(), b.get_offset());
    assert_eq!(a.get_data(), b.get_data());
    let same = t.transpose(1, 1).unwrap();
    assert_eq!(same.get_shape(), t.get_shape());
    assert_eq!(same.get_strides(), t.get_strides());
}

#[test]
fn transpose_rejects_an_axis_that_is_not_there() {
    let t = Tensor::new(vec![2, 3], 1u8);
    assert_eq!(t.transpose(0, 2).err(), Some(TensorError::InvalidPermutation));
    assert_eq!(t.transpose(5, 0).err(), Some(TensorError::InvalidPermutation));
}

#[test]
fn transposed_elements_are_read_by_swapped_coordinates() {
    let t = Tensor::from([[1, 2, 3], [4, 5, 6]]);
    let tt = t.transpose(0, 1).unwrap();
    for i in 0..2 {
        for j in 0..3 {
            assert_eq!(tt.get(&[j, i]), t.get(&[i, j]));
        }
    }
}

#[test]
fn contiguity_is_told_from_the_strides() {
    let t = Tensor::from([[1, 2, 3], [4, 5, 6]]);
    assert!(t.is_contiguous());
    let tt = t.transpose(0, 1).unwrap();
    assert!(!tt.is_contiguous());
    let empty: Tensor<i32> = Tensor::new(vec![], 0);
    assert!(empty.is_contiguous());
    let mut odd = Tensor::new(vec![2, 2], 0i32);
    odd.set_strides(vec![2, 2]).unwrap();
    assert!(!odd.is_contiguous());
}

#[test]
fn contiguous_copies_elements_in_coordinate_order() {
    let t = Tensor::from([[1, 2, 3], [4, 5, 6]]);
    let tt = t.transpose(0, 1).unwrap();
    let c = tt.contiguous().unwrap();
    assert_eq!(c.get_shape(), vec![3usize, 2]);
    assert_eq!(c.get_strides(), vec![2usize, 1]);
    assert_eq!(*c.get_offset(), 0);
    assert_eq!(c.get_data(), vec![1, 4, 2, 5, 3, 6]);
    assert!(c.is_contiguous());
}

#[test]
fn contiguous_returns_a_contiguous_tensor_as_it_is() {
    let mut t = Tensor::from([[1, 2, 3], [4, 5, 6]]);
    t.set_offset(2).unwrap();
    let c = t.contiguous().unwrap();
    assert_eq!(c.get_shape(), t.get_shape());
    assert_eq!(c.get_strides(), t.get_strides());
    assert_eq!(c.get_data(), t.get_data());
    assert_eq!(*c.get_offset(), 2);
}

#[test]
fn contiguous_rejects_strides_that_leave_the_buffer() {
    let mut t = Tensor::from([[1, 2], [3, 4]]);
    t.set_strides(vec![3, 1]).unwrap();
    assert!(!t.is_addressable());
    assert_eq!(t.contiguous().err(), Some(TensorError::IndexOutOfBounds));
}

#[test]
fn addressability_looks_at_the_last_coordinates() {
    let t = Tensor::from([[1, 2], [3, 4]]);
    assert!(t.is_addressable());
    let mut wide = Tensor::from([[1, 2], [3, 4]]);
    wide.set_shape(vec![2, 3]).unwrap();
    assert!(!wide.is_addressable());
    let mut none = Tensor::from([[1, 2], [3, 4]]);
    none.set_shape(vec![0, 9]).unwrap();
    assert!(none.is_addressable());
}

#[test]
fn errors_describe_themselves() {
    assert_eq!(TensorError::ShapeMismatch.message(), "Tensor shapes do not match");
    assert_eq!(TensorError::IndexOutOfBounds.message(), "Index is out of bounds");
    assert_eq!(TensorError::NotImplemented.message(), "T not implemented");
    assert_eq!(TensorError::InvalidPermutation.message(), "Invalid permutation");
    assert_eq!(TensorError::DimensionalMismatch.message(), "Dimensions do not match");
    assert_eq!(TensorError::MixedStorage.message(), "");
    assert_eq!(TensorError::IncompatibleTypes("u8").message(), "");
    assert_eq!(TensorError::BroadcastError.message(), "");
    assert_eq!(TensorError::DeserializationError.message(), "Deserialization error");
    assert_eq!(TensorError::SerializationError.message(), "Serialization error");
    assert_eq!(TensorError::InvalidAxis.message(), "Invalid axis");
}

#[test]
fn strides_are_reachable_beside_the_tensor() {
    assert_eq!(tensorx::tensor::compute_strides(&[4, 5]), vec![5, 1]);
    assert!(tensorx::tensor::is_valid_perm(&[1, 0]));
}

#[test]
fn element_count_multiplies_the_extents() {
    assert_eq!(tensorx::layout::element_count(&[2, 3, 4]), 24);
    assert_eq!(tensorx::layout::element_count(&[]), 1);
    assert_eq!(tensorx::layout::element_count(&[3, 0]), 0);
}

#[test]
fn shapes_are_compared_extent_by_extent() {
    assert!(tensorx::ops::same_shape(&[2, 3], &[2, 3]));
    assert!(!tensorx::ops::same_shape(&[2, 3], &[3, 2]));
    assert!(!tensorx::ops::same_shape(&[2, 3], &[2, 3, 1]));
    assert!(tensorx::ops::same_shape(&[], &[]));
}

#[test]
fn same_shape_is_recorded_without_effect() {
    let a = Tensor::from([[1, 2], [3, 4]]);
    let b = Tensor::from([[5, 6], [7, 8]]);
    a.assert_same_shape(&b);
    assert_eq!(a.get_data(), vec![1, 2, 3, 4]);
}
