use tensorx::device::{
    binding_layout, byte_len, dispatch_grid, is_launchable, matmul_extents, workgroups, BindingKind,
    BindingRole, BindingSlot, MatMulDims, MatMulPipeline, PipelineAction, PipelineState,
    WORKGROUP_EDGE,
};
use tensorx::error::TensorError;

#[test]
fn workgroups_round_up_to_whole_tiles() {
    assert_eq!(WORKGROUP_EDGE, 8);
    assert_eq!(workgroups(0), 0);
    assert_eq!(workgroups(1), 1);
    assert_eq!(workgroups(8), 1);
    assert_eq!(workgroups(9), 2);
    assert_eq!(workgroups(16), 2);
    assert_eq!(workgroups(u32::MAX), 536_870_912);
}

#[test]
fn grid_covers_columns_then_rows() {
    let dims = MatMulDims { m: 17, k: 3, n: 8 };
    assert_eq!(dispatch_grid(&dims), (1, 3, 1));
    let dims = MatMulDims { m: 2, k: 2, n: 2 };
    assert_eq!(dispatch_grid(&dims), (1, 1, 1));
}

#[test]
fn byte_length_is_checked() {
    assert_eq!(byte_len(4, 4), Some(16));
    assert_eq!(byte_len(0, 4), Some(0));
    assert_eq!(byte_len(usize::MAX, 1), Some(usize::MAX as u64));
    assert_eq!(byte_len(usize::MAX, 2), None);
}

#[test]
fn layout_has_two_inputs_one_output_and_the_dims() {
    assert_eq!(
        binding_layout(),
        vec![
            BindingSlot { index: 0, role: BindingRole::Lhs, kind: BindingKind::ReadOnlyStorage },
            BindingSlot { index: 1, role: BindingRole::Rhs, kind: BindingKind::ReadOnlyStorage },
            BindingSlot { index: 2, role: BindingRole::Output, kind: BindingKind::ReadWriteStorage },
            BindingSlot { index: 3, role: BindingRole::Dims, kind: BindingKind::Uniform },
        ]
    );
}

#[test]
fn extents_come_from_two_matrices_that_agree() {
    assert_eq!(matmul_extents(&[2, 3], &[3, 4]), Ok((2, 3, 4)));
    assert_eq!(matmul_extents(&[2, 3], &[2, 4]), Err(TensorError::DimensionalMismatch));
    assert_eq!(matmul_extents(&[2, 3, 1], &[3, 4]), Err(TensorError::ShapeMismatch));
    assert_eq!(matmul_extents(&[2, 3], &[3]), Err(TensorError::ShapeMismatch));
}

#[test]
fn launch_limits_are_checked() {
    assert!(is_launchable(2, 2, 2, 4));
    assert!(is_launchable(0, 0, 0, 4));
    assert!(!is_launchable(u32::MAX as usize + 1, 1, 1, 4));
    assert!(!is_launchable(1, u32::MAX as usize + 1, 1, 4));
    assert!(!is_launchable(1, 1, u32::MAX as usize + 1, 4));
    assert!(!is_launchable(u32::MAX as usize, 1, u32::MAX as usize, 4));
}

#[test]
fn dims_narrow_to_words() {
    assert_eq!(MatMulDims::new(2, 3, 4), Some(MatMulDims { m: 2, k: 3, n: 4 }));
    assert_eq!(MatMulDims::new(u32::MAX as usize + 1, 3, 4), None);
    assert_eq!(MatMulDims::new(2, u32::MAX as usize + 1, 4), None);
    assert_eq!(MatMulDims::new(2, 3, u32::MAX as usize + 1), None);
}

#[test]
fn dims_record_is_three_words_in_order() {
    let dims = MatMulDims { m: 2, k: 0x0102_0304, n: 7 };
    let mut expected = Vec::new();
    expected.extend_from_slice(&2u32.to_ne_bytes());
    expected.extend_from_slice(&0x0102_0304u32.to_ne_bytes());
    expected.extend_from_slice(&7u32.to_ne_bytes());
    let bytes = dims.to_bytes();
    assert_eq!(bytes.len(), 12);
    assert_eq!(bytes, expected);
}

#[test]
fn dims_record_has_one_of_the_two_byte_orders() {
    let dims = MatMulDims { m: 0x0a0b_0c0d, k: 1, n: 0xffff_0000 };
    let words = [dims.m, dims.k, dims.n];
    let mut low_first = Vec::new();
    let mut high_first = Vec::new();
    for word in words {
        low_first.extend_from_slice(&word.to_le_bytes());
        high_first.extend_from_slice(&word.to_be_bytes());
    }
    let bytes = dims.to_bytes();
    assert!(bytes == low_first || bytes == high_first);
    assert_ne!(bytes, vec![0u8; 12]);
}

#[test]
fn pipeline_plans_the_launch() {
    let p = MatMulPipeline::new(&[2, 2], &[2, 2], 4).unwrap();
    assert_eq!(p.state(), PipelineState::Init);
    assert_eq!(p.dims(), MatMulDims { m: 2, k: 2, n: 2 });
    assert_eq!(p.output_len(), 4);
    assert_eq!(p.output_bytes(), 16);
    assert!(!p.is_complete());
}

#[test]
fn pipeline_rejects_bad_shapes_on_the_host() {
    assert_eq!(MatMulPipeline::new(&[2, 2, 2], &[2, 2], 4).err(), Some(TensorError::ShapeMismatch));
    assert_eq!(MatMulPipeline::new(&[2, 3], &[2, 2], 4).err(), Some(TensorError::DimensionalMismatch));
}

#[test]
fn pipeline_steps_through_its_states_in_order() {
    let mut p = MatMulPipeline::new(&[17, 3], &[3, 9], 4).unwrap();
    let dims = MatMulDims { m: 17, k: 3, n: 9 };
    assert_eq!(p.advance(), PipelineAction::Allocate { output_bytes: 17 * 9 * 4, dims });
    assert_eq!(p.state(), PipelineState::Uploaded);
    assert_eq!(p.advance(), PipelineAction::Bind);
    assert_eq!(p.state(), PipelineState::Dispatched);
    assert_eq!(p.advance(), PipelineAction::Dispatch { x: 2, y: 3, z: 1 });
    assert_eq!(p.state(), PipelineState::Submitted);
    assert_eq!(p.advance(), PipelineAction::Submit);
    assert_eq!(p.state(), PipelineState::Complete);
    assert!(p.is_complete());
    assert_eq!(p.advance(), PipelineAction::Finished);
    assert_eq!(p.state(), PipelineState::Complete);
    assert_eq!(p.dims(), dims);
    assert_eq!(p.output_len(), 153);
}
