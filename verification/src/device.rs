//! Launch planning for matrix multiplication on a compute device: what the
//! host decides before and between the device calls. The device calls
//! themselves are made by the caller, one per action that the pipeline hands
//! out.

use crate::error::TensorError;
use vstd::prelude::*;

verus! {

/// The edge of the square tile of output entries that one workgroup covers.
pub const WORKGROUP_EDGE: u32 = 8;

/// The shapes of one matrix multiplication: an `m` by `k` matrix times a `k`
/// by `n` matrix. The device receives it as three 32-bit words in this order.
#[derive(Clone, Copy, Debug, PartialEq, Eq)]
pub struct MatMulDims {
    pub m: u32,
    pub k: u32,
    pub n: u32,
}

/// How a buffer is bound to the compute shader.
#[derive(Clone, Copy, Debug, PartialEq, Eq)]
pub enum BindingKind {
    /// A storage buffer that the shader only reads.
    ReadOnlyStorage,
    /// A storage buffer that the shader reads and writes.
    ReadWriteStorage,
    /// A small record of constants.
    Uniform,
}

/// What a bound buffer is to the matrix product.
#[derive(Clone, Copy, Debug, PartialEq, Eq)]
pub enum BindingRole {
    /// The left operand, `m` by `k`, row-major.
    Lhs,
    /// The right operand, `k` by `n`, row-major.
    Rhs,
    /// The output, `m` by `n`, row-major.
    Output,
    /// The dims record.
    Dims,
}

/// One slot of the binding layout: where it is bound, what is bound there,
/// and how.
#[derive(Clone, Copy, Debug, PartialEq, Eq)]
pub struct BindingSlot {
    pub index: u32,
    pub role: BindingRole,
    pub kind: BindingKind,
}

/// Where a pipeline stands.
#[derive(Clone, Copy, Debug, PartialEq, Eq)]
pub enum PipelineState {
    /// Shapes are validated; the output buffer and the dims record are due.
    Init,
    /// Buffers exist; the binding layout and the compute pipeline are due.
    Uploaded,
    /// Everything is bound; the dispatch is due.
    Dispatched,
    /// The dispatch is recorded; the submission is due.
    Submitted,
    /// The work is submitted; the output may be read back.
    Complete,
}

/// What the caller does on the device for one step of the pipeline.
#[derive(Clone, Copy, Debug, PartialEq, Eq)]
pub enum PipelineAction {
    /// Compile the shader, allocate an output buffer of `output_bytes`
    /// bytes, and upload `dims` as the uniform record.
    Allocate { output_bytes: u64, dims: MatMulDims },
    /// Build the four-slot binding layout, bind the buffers to it, and build
    /// the compute pipeline.
    Bind,
    /// Record a compute pass that dispatches `x` by `y` by `z` workgroups.
    Dispatch { x: u32, y: u32, z: u32 },
    /// Close the recording and submit it to the queue.
    Submit,
    /// Nothing is left to do.
    Finished,
}

/// The number of tiles of eight that cover `extent` positions.
pub open spec fn tiles(extent: nat) -> nat {
    (extent + 7) / 8
}

/// The extents of a product, read from the shapes of its operands.
pub open spec fn product_extents(lhs: Seq<usize>, rhs: Seq<usize>) -> (usize, usize, usize) {
    (lhs[0], lhs[1], rhs[1])
}

/// Why a product of operands with these shapes is refused, if it is.
pub open spec fn shape_refusal(lhs: Seq<usize>, rhs: Seq<usize>) -> Option<TensorError> {
    if lhs.len() != 2 || rhs.len() != 2 {
        Some(TensorError::ShapeMismatch)
    } else if lhs[1] != rhs[0] {
        Some(TensorError::DimensionalMismatch)
    } else {
        None
    }
}

/// The extents fit the 32-bit words of the dims record, and the output fits
/// the sizes that the host and the device count in.
pub open spec fn launchable(m: usize, k: usize, n: usize, elem_size: usize) -> bool {
    &&& m <= u32::MAX
    &&& k <= u32::MAX
    &&& n <= u32::MAX
    &&& m * n <= usize::MAX
    &&& m * n * elem_size <= u64::MAX
}

/// The four bytes of a word, the lowest first.
pub open spec fn word_low_first(word: u32) -> Seq<u8> {
    seq![
        (word & 0xff) as u8,
        ((word >> 8) & 0xff) as u8,
        ((word >> 16) & 0xff) as u8,
        ((word >> 24) & 0xff) as u8,
    ]
}

/// The four bytes of a word, the highest first.
pub open spec fn word_high_first(word: u32) -> Seq<u8> {
    seq![
        ((word >> 24) & 0xff) as u8,
        ((word >> 16) & 0xff) as u8,
        ((word >> 8) & 0xff) as u8,
        (word & 0xff) as u8,
    ]
}

/// Three words in order, each with its lowest byte first.
pub open spec fn record_low_first(words: Seq<u32>) -> Seq<u8> {
    word_low_first(words[0]) + word_low_first(words[1]) + word_low_first(words[2])
}

/// Three words in order, each with its highest byte first.
pub open spec fn record_high_first(words: Seq<u32>) -> Seq<u8> {
    word_high_first(words[0]) + word_high_first(words[1]) + word_high_first(words[2])
}

/// The bytes hold three words in order, in one of the two byte orders that a
/// machine can have.
pub open spec fn is_record_of(bytes: Seq<u8>, words: Seq<u32>) -> bool {
    bytes == record_low_first(words) || bytes == record_high_first(words)
}

/// The binding layout of the matrix product shader: the two operands, the
/// output, and the dims record.
pub open spec fn binding_table() -> Seq<BindingSlot> {
    seq![
        BindingSlot { index: 0, role: BindingRole::Lhs, kind: BindingKind::ReadOnlyStorage },
        BindingSlot { index: 1, role: BindingRole::Rhs, kind: BindingKind::ReadOnlyStorage },
        BindingSlot { index: 2, role: BindingRole::Output, kind: BindingKind::ReadWriteStorage },
        BindingSlot { index: 3, role: BindingRole::Dims, kind: BindingKind::Uniform },
    ]
}

/// The state that follows `state`. The last state follows itself.
pub open spec fn successor(state: PipelineState) -> PipelineState {
    match state {
        PipelineState::Init => PipelineState::Uploaded,
        PipelineState::Uploaded => PipelineState::Dispatched,
        PipelineState::Dispatched => PipelineState::Submitted,
        PipelineState::Submitted => PipelineState::Complete,
        PipelineState::Complete => PipelineState::Complete,
    }
}

/// The number of workgroups that cover `extent` positions.
pub fn workgroups(extent: u32) -> (groups: u32)
    ensures
        groups == tiles(extent as nat),
        groups * 8 >= extent,
        extent > 0 ==> (groups - 1) * 8 < extent,
        extent == 0 ==> groups == 0,
{
    let full = extent / WORKGROUP_EDGE;
    if extent % WORKGROUP_EDGE == 0 {
        full
    } else {
        full + 1
    }
}

/// The dispatch grid of a product: one workgroup per tile of eight columns
/// and eight rows of the output, in a single layer.
pub fn dispatch_grid(dims: &MatMulDims) -> (grid: (u32, u32, u32))
    ensures
        grid == (tiles(dims.n as nat) as u32, tiles(dims.m as nat) as u32, 1u32),
        grid.0 * 8 >= dims.n,
        grid.1 * 8 >= dims.m,
{
    (workgroups(dims.n), workgroups(dims.m), 1)
}

/// The size in bytes of `len` elements of `elem_size` bytes each, where the
/// device can count it.
pub fn byte_len(len: usize, elem_size: usize) -> (bytes: Option<u64>)
    ensures
        match bytes {
            Some(b) => b == len * elem_size,
            None => len * elem_size > u64::MAX,
        },
{
    proof {
        assert(len * elem_size <= u128::MAX) by (nonlinear_arith)
            requires
                len <= 0xffff_ffff_ffff_ffff,
                elem_size <= 0xffff_ffff_ffff_ffff,
                u128::MAX == 0xffff_ffff_ffff_ffff_ffff_ffff_ffff_ffff,
        ;
    }
    let wide: u128 = (len as u128) * (elem_size as u128);
    if wide > u64::MAX as u128 {
        None
    } else {
        Some(wide as u64)
    }
}

/// The four slots that the shader's bindings occupy.
pub fn binding_layout() -> (slots: Vec<BindingSlot>)
    ensures
        slots@ == binding_table(),
{
    let slots = vec![
        BindingSlot { index: 0, role: BindingRole::Lhs, kind: BindingKind::ReadOnlyStorage },
        BindingSlot { index: 1, role: BindingRole::Rhs, kind: BindingKind::ReadOnlyStorage },
        BindingSlot { index: 2, role: BindingRole::Output, kind: BindingKind::ReadWriteStorage },
        BindingSlot { index: 3, role: BindingRole::Dims, kind: BindingKind::Uniform },
    ];
    proof {
        assert(slots@ =~= binding_table());
    }
    slots
}

/// Reads the extents of a product from the shapes of its operands: both must
/// have two axes, and the inner extents must agree.
pub fn matmul_extents(lhs: &[usize], rhs: &[usize]) -> (res: Result<(usize, usize, usize), TensorError>)
    ensures
        match res {
            Ok(extents) => shape_refusal(lhs@, rhs@) is None && extents == product_extents(lhs@, rhs@),
            Err(e) => shape_refusal(lhs@, rhs@) == Some(e),
        },
{
    if lhs.len() != 2 || rhs.len() != 2 {
        return Err(TensorError::ShapeMismatch);
    }
    if lhs[1] != rhs[0] {
        return Err(TensorError::DimensionalMismatch);
    }
    Ok((lhs[0], lhs[1], rhs[1]))
}

/// Tells whether a product of these extents can be launched.
pub fn is_launchable(m: usize, k: usize, n: usize, elem_size: usize) -> (ok: bool)
    ensures
        ok == launchable(m, k, n, elem_size),
{
    if m > u32::MAX as usize || k > u32::MAX as usize || n > u32::MAX as usize {
        return false;
    }
    match m.checked_mul(n) {
        Some(len) => {
            proof {
                assert(len * elem_size == m * n * elem_size) by (nonlinear_arith)
                    requires
                        len == m * n,
                ;
            }
            byte_len(len, elem_size).is_some()
        },
        None => false,
    }
}

/// The uniform record of `dims` as the device reads it.
///
/// Rests on `bytemuck::bytes_of`, which hands out the bytes of a value as
/// they lie in memory: the three words one after the other, four bytes each.
/// Which end of a word comes first is the machine's choice; the contract
/// claims only that it is one of the two, the same for all three words.
#[verifier::external_body]
fn record_bytes(words: &[u32; 3]) -> (bytes: Vec<u8>)
    ensures
        is_record_of(bytes@, words@),
{
    bytemuck::bytes_of(words).to_vec()
}

impl MatMulDims {
    /// The dims record of a product with the given extents.
    pub fn new(m: usize, k: usize, n: usize) -> (dims: Option<MatMulDims>)
        ensures
            match dims {
                Some(d) => d.m == m && d.k == k && d.n == n,
                None => m > u32::MAX || k > u32::MAX || n > u32::MAX,
            },
    {
        if m > u32::MAX as usize || k > u32::MAX as usize || n > u32::MAX as usize {
            None
        } else {
            Some(MatMulDims { m: m as u32, k: k as u32, n: n as u32 })
        }
    }

    /// The record in the layout of the device: `m`, `k`, `n`, four bytes
    /// each, in the byte order of the machine.
    pub fn to_bytes(&self) -> (bytes: Vec<u8>)
        ensures
            is_record_of(bytes@, seq![self.m, self.k, self.n]),
            bytes@.len() == 12,
    {
        let words = [self.m, self.k, self.n];
        proof {
            assert(words@ =~= seq![self.m, self.k, self.n]);
        }
        record_bytes(&words)
    }
}

/// A matrix product on its way to the device.
#[derive(Clone, Copy, Debug, PartialEq, Eq)]
pub struct MatMulPipeline {
    state: PipelineState,
    dims: MatMulDims,
    output_len: usize,
    output_bytes: u64,
}

/// What a pipeline holds.
pub ghost struct PipelineView {
    pub state: PipelineState,
    pub dims: MatMulDims,
    pub output_len: usize,
    pub output_bytes: u64,
}

impl PipelineView {
    /// The device work that belongs to the current state.
    pub open spec fn action(self) -> PipelineAction {
        match self.state {
            PipelineState::Init => PipelineAction::Allocate {
                output_bytes: self.output_bytes,
                dims: self.dims,
            },
            PipelineState::Uploaded => PipelineAction::Bind,
            PipelineState::Dispatched => PipelineAction::Dispatch {
                x: tiles(self.dims.n as nat) as u32,
                y: tiles(self.dims.m as nat) as u32,
                z: 1,
            },
            PipelineState::Submitted => PipelineAction::Submit,
            PipelineState::Complete => PipelineAction::Finished,
        }
    }

    /// The pipeline after `steps` steps.
    pub open spec fn after(self, steps: nat) -> PipelineView
        decreases steps,
    {
        if steps == 0 {
            self
        } else {
            (PipelineView { state: successor(self.state), ..self }).after((steps - 1) as nat)
        }
    }
}

impl View for MatMulPipeline {
    type V = PipelineView;

    closed spec fn view(&self) -> PipelineView {
        PipelineView {
            state: self.state,
            dims: self.dims,
            output_len: self.output_len,
            output_bytes: self.output_bytes,
        }
    }
}

impl MatMulPipeline {
    /// Validates the operand shapes on the host and plans the launch: the
    /// dims record, and the size of the output in elements and in bytes.
    pub fn new(lhs: &[usize], rhs: &[usize], elem_size: usize) -> (res: Result<Self, TensorError>)
        requires
            shape_refusal(lhs@, rhs@) is None ==> launchable(lhs@[0], lhs@[1], rhs@[1], elem_size),
        ensures
            match res {
                Ok(pipeline) => {
                    &&& shape_refusal(lhs@, rhs@) is None
                    &&& pipeline@.state == PipelineState::Init
                    &&& pipeline@.dims == (MatMulDims {
                        m: lhs@[0] as u32,
                        k: lhs@[1] as u32,
                        n: rhs@[1] as u32,
                    })
                    &&& pipeline@.output_len == lhs@[0] * rhs@[1]
                    &&& pipeline@.output_bytes == lhs@[0] * rhs@[1] * elem_size
                },
                Err(e) => shape_refusal(lhs@, rhs@) == Some(e),
            },
    {
        let (m, k, n) = match matmul_extents(lhs, rhs) {
            Ok(extents) => extents,
            Err(e) => {
                return Err(e);
            },
        };
        let output_len: usize = m * n;
        proof {
            assert(output_len * elem_size == m * n * elem_size) by (nonlinear_arith)
                requires
                    output_len == m * n,
            ;
        }
        let output_bytes: u64 = match byte_len(output_len, elem_size) {
            Some(bytes) => bytes,
            None => vstd::pervasive::unreached(),
        };
        let dims = MatMulDims { m: m as u32, k: k as u32, n: n as u32 };
        Ok(MatMulPipeline { state: PipelineState::Init, dims, output_len, output_bytes })
    }

    /// Where the pipeline stands.
    pub fn state(&self) -> (state: PipelineState)
        ensures
            state == self@.state,
    {
        self.state
    }

    /// The dims record of the product.
    pub fn dims(&self) -> (dims: MatMulDims)
        ensures
            dims == self@.dims,
    {
        self.dims
    }

    /// The number of elements of the output.
    pub fn output_len(&self) -> (len: usize)
        ensures
            len == self@.output_len,
    {
        self.output_len
    }

    /// The size of the output in bytes.
    pub fn output_bytes(&self) -> (bytes: u64)
        ensures
            bytes == self@.output_bytes,
    {
        self.output_bytes
    }

    /// Tells whether the work is submitted.
    pub fn is_complete(&self) -> (done: bool)
        ensures
            done == (self@.state == PipelineState::Complete),
    {
        match self.state {
            PipelineState::Complete => true,
            _ => false,
        }
    }

    /// Hands out the device work of the current state and moves on to the
    /// next state. Nothing but the state changes.
    pub fn advance(&mut self) -> (action: PipelineAction)
        ensures
            action == old(self)@.action(),
            final(self)@ == (PipelineView { state: successor(old(self)@.state), ..old(self)@ }),
    {
        match self.state {
            PipelineState::Init => {
                self.state = PipelineState::Uploaded;
                PipelineAction::Allocate { output_bytes: self.output_bytes, dims: self.dims }
            },
            PipelineState::Uploaded => {
                self.state = PipelineState::Dispatched;
                PipelineAction::Bind
            },
            PipelineState::Dispatched => {
                self.state = PipelineState::Submitted;
                let (x, y, z) = dispatch_grid(&self.dims);
                PipelineAction::Dispatch { x, y, z }
            },
            PipelineState::Submitted => {
                self.state = PipelineState::Complete;
                PipelineAction::Submit
            },
            PipelineState::Complete => PipelineAction::Finished,
        }
    }
}

/// A fresh pipeline is complete after four steps, and stays so.
pub proof fn lemma_pipeline_completes(start: PipelineView, steps: nat)
    requires
        start.state == PipelineState::Init,
    ensures
        start.after(steps).state == PipelineState::Complete <==> steps >= 4,
        start.after(steps).dims == start.dims,
        start.after(steps).output_len == start.output_len,
        start.after(steps).output_bytes == start.output_bytes,
{
    reveal_with_fuel(PipelineView::after, 5);
    if steps >= 4 {
        let done = start.after(4);
        lemma_after_split(start, 4, (steps - 4) as nat);
        lemma_complete_stays(done, (steps - 4) as nat);
    }
}

/// Taking `a` steps and then `b` steps is taking `a + b` steps.
pub proof fn lemma_after_split(start: PipelineView, a: nat, b: nat)
    ensures
        start.after(a + b) == start.after(a).after(b),
    decreases a,
{
    if a > 0 {
        let next = PipelineView { state: successor(start.state), ..start };
        lemma_after_split(next, (a - 1) as nat, b);
        assert(start.after(a + b) == next.after((a + b - 1) as nat));
    }
}

/// A complete pipeline stays complete and unchanged.
pub proof fn lemma_complete_stays(done: PipelineView, steps: nat)
    requires
        done.state == PipelineState::Complete,
    ensures
        done.after(steps) == done,
    decreases steps,
{
    if steps > 0 {
        let next = PipelineView { state: successor(done.state), ..done };
        assert(next == done);
        lemma_complete_stays(done, (steps - 1) as nat);
    }
}

} // verus!
