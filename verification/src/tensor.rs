//! The strided tensor: an owned buffer with the shape, strides and offset
//! that map coordinates to buffer positions.

use crate::error::TensorError;
pub use crate::layout::{compute_strides, is_valid_perm};
use crate::layout::{
    all_positive, is_within, canonical_strides, checked_product, element_count, gather, is_permutation,
    lemma_linear_index_monotone, lemma_linear_index_prefix, lemma_linear_index_step,
    lemma_matrix_shape, lemma_product_end, lemma_product_step, lemma_strides_fit,
    lemma_swapped_identity,
    linear_index, nats, shape_product, strides_fit, swapped_identity, unravel, unravel_index,
    within,
};
use vstd::pervasive::cloned;
use vstd::prelude::*;

verus! {

/// A dense array of `T` addressed through a shape and per-axis strides.
#[derive(Debug, Clone)]
pub struct Tensor<T> {
    data: Vec<T>,
    shape: Vec<usize>,
    strides: Vec<usize>,
    offset: usize,
}

/// What a tensor holds, as mathematical sequences.
pub ghost struct TensorView<T> {
    pub data: Seq<T>,
    pub shape: Seq<usize>,
    pub strides: Seq<usize>,
    pub offset: usize,
}

impl<T> TensorView<T> {
    /// The number of axes.
    pub open spec fn rank(self) -> nat {
        self.shape.len()
    }

    /// The coordinate tuple has one entry per axis and lands inside the
    /// buffer.
    pub open spec fn addresses(self, indices: Seq<usize>) -> bool {
        indices.len() == self.shape.len() && linear_index(indices, self.strides) < self.data.len()
    }

    /// The coordinate tuple names an element: every coordinate lies below
    /// the extent of its axis, and the tuple lands inside the buffer.
    pub open spec fn selects(self, indices: Seq<usize>) -> bool {
        within(indices, self.shape) && self.addresses(indices)
    }

    /// The element that a coordinate tuple selects.
    pub open spec fn at(self, indices: Seq<usize>) -> T
        recommends
            self.addresses(indices),
    {
        self.data[linear_index(indices, self.strides) as int]
    }

    /// Every coordinate tuple inside the shape lands inside the buffer.
    pub open spec fn all_addressable(self) -> bool {
        forall|coords: Seq<usize>| #[trigger] within(coords, self.shape) ==> self.addresses(coords)
    }

    /// The strides are the row-major strides of the shape.
    pub open spec fn is_row_major(self) -> bool {
        nats(self.strides) == canonical_strides(self.shape)
    }
}

/// `copy` holds a clone of each element of `source`, in the same order.
pub open spec fn clones<T: Clone>(source: Seq<T>, copy: Seq<T>) -> bool {
    &&& source.len() == copy.len()
    &&& forall|i: int| 0 <= i < source.len() ==> cloned(#[trigger] source[i], copy[i])
}

/// `out` is `source` with its axes reordered as `dims` says: shape and
/// strides are gathered, the offset is kept and the buffer is duplicated.
pub open spec fn permuted<T: Clone>(source: TensorView<T>, dims: Seq<usize>, out: TensorView<T>) -> bool {
    &&& out.shape == gather(source.shape, dims)
    &&& out.strides == gather(source.strides, dims)
    &&& out.offset == source.offset
    &&& clones(source.data, out.data)
}

/// `out` lays the elements of `source` out afresh: same shape, row-major
/// strides, no offset, and at each row-major position a clone of the element
/// that `source` holds at the coordinates of that position.
pub open spec fn materialized<T: Clone>(source: TensorView<T>, out: TensorView<T>) -> bool {
    &&& out.shape == source.shape
    &&& out.is_row_major()
    &&& out.offset == 0
    &&& out.data.len() == shape_product(source.shape)
    &&& forall|p: int|
        0 <= p < out.data.len() ==> cloned(source.at(unravel(p as nat, source.shape)), #[trigger] out.data[p])
}

impl<T> View for Tensor<T> {
    type V = TensorView<T>;

    closed spec fn view(&self) -> TensorView<T> {
        TensorView {
            data: self.data@,
            shape: self.shape@,
            strides: self.strides@,
            offset: self.offset,
        }
    }
}

impl<T> Tensor<T> {
    /// The tensor has one stride per axis.
    pub open spec fn wf(&self) -> bool {
        self@.shape.len() == self@.strides.len()
    }

    /// Assembles a tensor from its four parts.
    pub(crate) fn from_parts(data: Vec<T>, shape: Vec<usize>, strides: Vec<usize>, offset: usize) -> (tensor:
        Self)
        requires
            shape@.len() == strides@.len(),
        ensures
            tensor.wf(),
            tensor@ == (TensorView { data: data@, shape: shape@, strides: strides@, offset }),
    {
        Tensor { data, shape, strides, offset }
    }

    /// Tells whether every coordinate tuple inside the shape lands inside
    /// the buffer.
    pub fn is_addressable(&self) -> (ok: bool)
        requires
            self.wf(),
        ensures
            ok == self@.all_addressable(),
    {
        let rank = self.shape.len();
        let mut corner: Vec<usize> = Vec::new();
        let mut i: usize = 0;
        while i < rank
            invariant
                rank == self.shape@.len(),
                i <= rank,
                corner@.len() == i,
                forall|j: int| 0 <= j < i ==> #[trigger] corner@[j] + 1 == self.shape@[j],
            decreases rank - i,
        {
            let extent = self.shape[i];
            if extent == 0 {
                proof {
                    assert forall|coords: Seq<usize>| #[trigger]
                        within(coords, self@.shape) implies self@.addresses(coords) by {
                        assert(coords[i as int] < self@.shape[i as int]);
                    }
                }
                return true;
            }
            corner.push(extent - 1);
            i += 1;
        }
        let reached = self.get(corner.as_slice()).is_ok();
        proof {
            assert(within(corner@, self@.shape));
            if reached {
                assert forall|coords: Seq<usize>| #[trigger]
                    within(coords, self@.shape) implies self@.addresses(coords) by {
                    lemma_linear_index_monotone(coords, corner@, self@.strides);
                }
            }
        }
        reached
    }

    /// Tells whether the strides are the row-major strides of the shape.
    pub fn is_contiguous(&self) -> (contiguous: bool)
        requires
            self.wf(),
        ensures
            contiguous == self@.is_row_major(),
    {
        let rank = self.shape.len();
        let mut i: usize = rank;
        let mut expected: usize = 1;
        proof {
            lemma_product_end(self.shape@);
        }
        while i > 0
            invariant
                rank == self.shape@.len(),
                rank == self.strides@.len(),
                i <= rank,
                i > 0 ==> expected as nat == shape_product(self.shape@.skip(i as int)),
                forall|j: int|
                    i <= j < rank ==> #[trigger] self.strides@[j] as nat == shape_product(
                        self.shape@.skip(j + 1),
                    ),
            decreases i,
        {
            if self.strides[i - 1] != expected {
                proof {
                    assert(nats(self.strides@)[i - 1] != canonical_strides(self.shape@)[i - 1]);
                }
                return false;
            }
            if i > 1 {
                proof {
                    lemma_product_step(self.shape@, i - 1);
                    assert(self.shape@[i - 1] as nat * shape_product(self.shape@.skip(i as int))
                        == expected * self.shape@[i - 1]) by (nonlinear_arith)
                        requires
                            expected as nat == shape_product(self.shape@.skip(i as int)),
                    ;
                }
                match expected.checked_mul(self.shape[i - 1]) {
                    Some(next) => {
                        expected = next;
                    },
                    None => {
                        proof {
                            assert(nats(self.strides@)[i - 2] != canonical_strides(self.shape@)[i - 2]);
                        }
                        return false;
                    },
                }
            }
            i -= 1;
        }
        proof {
            assert(nats(self.strides@) =~= canonical_strides(self.shape@));
        }
        true
    }

    /// The base position into the buffer.
    pub fn get_offset(&self) -> (offset: &usize)
        ensures
            *offset == self@.offset,
    {
        &self.offset
    }

    /// Moves the base position; it may not lie past the end of the buffer.
    pub fn set_offset(&mut self, new: usize) -> (res: Result<(), TensorError>)
        ensures
            old(self)@.data.len() < new <==> res is Err,
            res matches Err(e) ==> e == TensorError::IndexOutOfBounds && final(self)@ == old(self)@,
            res is Ok ==> final(self)@ == (TensorView { offset: new, ..old(self)@ }),
    {
        if self.data.len() < new {
            return Err(TensorError::IndexOutOfBounds);
        }
        self.offset = new;
        Ok(())
    }

    /// The buffer, in storage order.
    pub fn get_data(&self) -> (data: &[T])
        ensures
            data@ == self@.data,
    {
        self.data.as_slice()
    }

    /// Replaces the buffer by one of the same length.
    pub fn set_data(&mut self, new: Vec<T>) -> (res: Result<(), TensorError>)
        ensures
            old(self)@.data.len() != new@.len() <==> res is Err,
            res matches Err(e) ==> e == TensorError::DimensionalMismatch && final(self)@ == old(
                self,
            )@,
            res is Ok ==> final(self)@ == (TensorView { data: new@, ..old(self)@ }),
    {
        if self.data.len() != new.len() {
            return Err(TensorError::DimensionalMismatch);
        }
        self.data = new;
        Ok(())
    }

    /// The extent of each axis.
    pub fn get_shape(&self) -> (shape: &[usize])
        ensures
            shape@ == self@.shape,
    {
        self.shape.as_slice()
    }

    /// Replaces the shape by one of the same rank.
    pub fn set_shape(&mut self, new: Vec<usize>) -> (res: Result<(), TensorError>)
        ensures
            old(self)@.shape.len() != new@.len() <==> res is Err,
            res matches Err(e) ==> e == TensorError::ShapeMismatch && final(self)@ == old(self)@,
            res is Ok ==> final(self)@ == (TensorView { shape: new@, ..old(self)@ }),
            old(self).wf() ==> final(self).wf(),
    {
        if self.shape.len() != new.len() {
            return Err(TensorError::ShapeMismatch);
        }
        self.shape = new;
        Ok(())
    }

    /// The buffer step of each axis.
    pub fn get_strides(&self) -> (strides: &[usize])
        ensures
            strides@ == self@.strides,
    {
        self.strides.as_slice()
    }

    /// Replaces the strides by as many new ones.
    pub fn set_strides(&mut self, new: Vec<usize>) -> (res: Result<(), TensorError>)
        ensures
            old(self)@.strides.len() != new@.len() <==> res is Err,
            res matches Err(e) ==> e == TensorError::DimensionalMismatch && final(self)@ == old(
                self,
            )@,
            res is Ok ==> final(self)@ == (TensorView { strides: new@, ..old(self)@ }),
            old(self).wf() ==> final(self).wf(),
    {
        if self.strides.len() != new.len() {
            return Err(TensorError::DimensionalMismatch);
        }
        self.strides = new;
        Ok(())
    }

    /// The buffer position of a coordinate tuple: the sum of each coordinate
    /// times the stride of its axis. A tuple of the wrong length, or one whose
    /// position is no machine integer, is out of bounds. The coordinates are
    /// not held against the extents here: that is done where an element is
    /// read or written.
    pub fn get_index(&self, indices: &[usize]) -> (res: Result<usize, TensorError>)
        requires
            self.wf(),
        ensures
            res is Ok <==> indices@.len() == self@.rank() && linear_index(indices@, self@.strides)
                <= usize::MAX,
            res matches Ok(i) ==> i == linear_index(indices@, self@.strides),
            res matches Err(e) ==> e == TensorError::IndexOutOfBounds,
    {
        let n = indices.len();
        if n != self.shape.len() {
            return Err(TensorError::IndexOutOfBounds);
        }
        let mut acc: usize = 0;
        let mut i: usize = 0;
        while i < n
            invariant
                n == indices@.len(),
                n == self.strides@.len(),
                i <= n,
                acc as nat == linear_index(indices@.take(i as int), self.strides@.take(i as int)),
            decreases n - i,
        {
            proof {
                lemma_linear_index_step(indices@, self.strides@, i as int);
                lemma_linear_index_prefix(indices@, self.strides@, i + 1);
            }
            match indices[i].checked_mul(self.strides[i]) {
                Some(term) => {
                    match acc.checked_add(term) {
                        Some(next) => {
                            acc = next;
                        },
                        None => {
                            return Err(TensorError::IndexOutOfBounds);
                        },
                    }
                },
                None => {
                    return Err(TensorError::IndexOutOfBounds);
                },
            }
            i += 1;
        }
        proof {
            assert(indices@.take(n as int) =~= indices@);
            assert(self.strides@.take(n as int) =~= self.strides@);
        }
        Ok(acc)
    }

    /// The buffer position of the element that a coordinate tuple names, if
    /// it names one: each coordinate is held against the extent of its axis
    /// before the position is held against the buffer.
    fn locate(&self, indices: &[usize]) -> (position: Option<usize>)
        requires
            self.wf(),
        ensures
            position is Some <==> self@.selects(indices@),
            position matches Some(index) ==> index == linear_index(indices@, self@.strides),
    {
        let len = self.data.len();
        if !is_within(indices, self.shape.as_slice()) {
            return None;
        }
        match self.get_index(indices) {
            Ok(index) => {
                if index < len {
                    Some(index)
                } else {
                    None
                }
            },
            Err(_) => None,
        }
    }

    /// The element at a coordinate tuple. A coordinate at or past the extent
    /// of its axis is out of bounds, wherever the strides would take it.
    pub fn get(&self, indices: &[usize]) -> (res: Result<&T, TensorError>)
        requires
            self.wf(),
        ensures
            res is Ok <==> self@.selects(indices@),
            res matches Ok(value) ==> *value == self@.at(indices@),
            res matches Err(e) ==> e == TensorError::IndexOutOfBounds,
    {
        match self.locate(indices) {
            Some(index) => Ok(&self.data[index]),
            None => Err(TensorError::IndexOutOfBounds),
        }
    }

    /// The element at a coordinate tuple, for writing. What the caller stores
    /// through the reference is the only change to the tensor.
    pub fn get_mut(&mut self, indices: &[usize]) -> (res: Result<&mut T, TensorError>)
        requires
            old(self).wf(),
        ensures
            res is Ok <==> old(self)@.selects(indices@),
            res matches Ok(value) ==> *value == old(self)@.at(indices@) && final(self)@ == (TensorView {
                data: old(self)@.data.update(
                    linear_index(indices@, old(self)@.strides) as int,
                    *final(value),
                ),
                ..old(self)@
            }),
            res matches Err(e) ==> e == TensorError::IndexOutOfBounds && final(self)@ == old(self)@,
    {
        match self.locate(indices) {
            Some(index) => Ok(&mut self.data[index]),
            None => Err(TensorError::IndexOutOfBounds),
        }
    }

    /// Stores `new` at a coordinate tuple.
    pub fn set(&mut self, indices: &[usize], new: T) -> (res: Result<(), TensorError>)
        requires
            old(self).wf(),
        ensures
            res is Ok <==> old(self)@.selects(indices@),
            res is Ok ==> final(self)@ == (TensorView {
                data: old(self)@.data.update(linear_index(indices@, old(self)@.strides) as int, new),
                ..old(self)@
            }),
            res matches Err(e) ==> e == TensorError::IndexOutOfBounds && final(self)@ == old(self)@,
    {
        match self.locate(indices) {
            Some(index) => {
                self.data.set(index, new);
                Ok(())
            },
            None => Err(TensorError::IndexOutOfBounds),
        }
    }
}

impl<T: Clone> Tensor<T> {
    /// A tensor of the given shape with every element a clone of `fill`, in
    /// row-major layout.
    pub fn new(shape: Vec<usize>, fill: T) -> (tensor: Self)
        requires
            shape_product(shape@) <= usize::MAX,
            strides_fit(shape@),
        ensures
            tensor.wf(),
            tensor@.shape == shape@,
            tensor@.is_row_major(),
            tensor@.offset == 0,
            tensor@.data.len() == shape_product(shape@),
            forall|i: int| 0 <= i < tensor@.data.len() ==> cloned(fill, #[trigger] tensor@.data[i]),
    {
        let total = element_count(shape.as_slice());
        let data = vec![fill; total];
        let strides = compute_strides(shape.as_slice());
        Tensor { data, shape, strides, offset: 0 }
    }

    /// A row-major tensor over the given buffer, which must hold exactly as
    /// many elements as the shape describes. Only an empty tensor can have
    /// strides too large for the machine, and those are left out.
    pub fn from_data(shape: Vec<usize>, data: Vec<T>) -> (res: Result<Self, TensorError>)
        requires
            shape_product(shape@) == data@.len() && !all_positive(shape@) ==> strides_fit(shape@),
        ensures
            res is Ok <==> shape_product(shape@) == data@.len(),
            res matches Err(e) ==> e == TensorError::ShapeMismatch,
            res matches Ok(tensor) ==> {
                &&& tensor.wf()
                &&& tensor@.shape == shape@
                &&& tensor@.data == data@
                &&& tensor@.is_row_major()
                &&& tensor@.offset == 0
            },
    {
        let len = data.len();
        match checked_product(shape.as_slice()) {
            Some(count) => {
                if count != len {
                    return Err(TensorError::ShapeMismatch);
                }
            },
            None => {
                return Err(TensorError::ShapeMismatch);
            },
        }
        proof {
            if all_positive(shape@) {
                lemma_strides_fit(shape@);
            }
        }
        let strides = compute_strides(shape.as_slice());
        Ok(Tensor { data, shape, strides, offset: 0 })
    }

    /// A tensor of two axes from nested rows, in row-major layout.
    pub fn from<const M: usize, const N: usize>(arr: [[T; N]; M]) -> (tensor: Self)
        ensures
            tensor.wf(),
            tensor@.shape == seq![M, N],
            tensor@.strides == seq![N, 1usize],
            tensor@.is_row_major(),
            tensor@.offset == 0,
            tensor@.data.len() == M * N,
            forall|i: int, j: int|
                0 <= i < M && 0 <= j < N ==> cloned(
                    #[trigger] arr@[i]@[j],
                    tensor@.data[i * N + j],
                ),
    {
        let mut data: Vec<T> = Vec::new();
        let mut i: usize = 0;
        while i < M
            invariant
                i <= M,
                data@.len() == i * N,
                forall|a: int, b: int|
                    0 <= a < i && 0 <= b < N ==> cloned(#[trigger] arr@[a]@[b], data@[a * N + b]),
            decreases M - i,
        {
            let ghost before = data@;
            data.extend_from_slice(arr[i].as_slice());
            proof {
                assert(i * N + N == (i + 1) * N) by (nonlinear_arith);
                assert forall|a: int, b: int| 0 <= a < i + 1 && 0 <= b < N implies cloned(
                    #[trigger] arr@[a]@[b],
                    data@[a * N + b],
                ) by {
                    if a < i {
                        assert(a * N + b < i * N) by (nonlinear_arith)
                            requires
                                0 <= a < i,
                                0 <= b < N,
                        ;
                        assert(data@[a * N + b] == before[a * N + b]);
                    } else {
                        assert(a * N + b == i * N + b);
                        assert(data@[i * N + b] == data@[(i * N + b) as int]);
                    }
                }
            }
            i += 1;
        }
        let shape: Vec<usize> = vec![M, N];
        proof {
            lemma_matrix_shape(M, N);
            assert(shape@ =~= seq![M, N]);
        }
        let strides = compute_strides(shape.as_slice());
        proof {
            assert(nats(strides@)[0] == canonical_strides(shape@)[0]);
            assert(nats(strides@)[1] == canonical_strides(shape@)[1]);
            assert(strides@ =~= seq![N, 1usize]);
        }
        Tensor { data, shape, strides, offset: 0 }
    }

    /// A tensor that holds a clone of every field of this one.
    pub(crate) fn duplicate(&self) -> (copy: Self)
        ensures
            self.wf() ==> copy.wf(),
            copy@.shape == self@.shape,
            copy@.strides == self@.strides,
            copy@.offset == self@.offset,
            clones(self@.data, copy@.data),
    {
        let data = self.data.clone();
        let shape = self.shape.clone();
        let strides = self.strides.clone();
        proof {
            assert(shape@ =~= self.shape@);
            assert(strides@ =~= self.strides@);
        }
        Tensor { data, shape, strides, offset: self.offset }
    }

    /// Gives a row-major tensor a new shape with the same element count, and
    /// returns a copy of the reshaped tensor.
    pub fn reshape(&mut self, new_shape: Vec<usize>) -> (res: Result<Self, TensorError>)
        requires
            old(self).wf(),
            old(self)@.is_row_major(),
            shape_product(new_shape@) == old(self)@.data.len() && !all_positive(new_shape@)
                ==> strides_fit(new_shape@),
        ensures
            res is Ok <==> shape_product(new_shape@) == old(self)@.data.len(),
            res matches Err(e) ==> e == TensorError::ShapeMismatch && final(self)@ == old(self)@,
            res matches Ok(copy) ==> {
                &&& final(self).wf()
                &&& final(self)@.shape == new_shape@
                &&& final(self)@.is_row_major()
                &&& final(self)@.data == old(self)@.data
                &&& final(self)@.offset == old(self)@.offset
                &&& copy.wf()
                &&& copy@.shape == final(self)@.shape
                &&& copy@.strides == final(self)@.strides
                &&& copy@.offset == final(self)@.offset
                &&& clones(final(self)@.data, copy@.data)
            },
    {
        let len = self.data.len();
        match checked_product(new_shape.as_slice()) {
            Some(count) => {
                if count != len {
                    return Err(TensorError::ShapeMismatch);
                }
            },
            None => {
                return Err(TensorError::ShapeMismatch);
            },
        }
        proof {
            if all_positive(new_shape@) {
                lemma_strides_fit(new_shape@);
            }
        }
        self.strides = compute_strides(new_shape.as_slice());
        self.shape = new_shape;
        Ok(self.duplicate())
    }

    /// Reorders the axes: axis `i` of the result is axis `dims[i]` of this
    /// tensor. Only shape and strides change; the buffer is duplicated.
    pub fn permute(&self, dims: &[usize]) -> (res: Result<Self, TensorError>)
        requires
            self.wf(),
        ensures
            res is Ok <==> is_permutation(dims@, self@.rank()),
            res matches Err(e) ==> e == TensorError::InvalidPermutation,
            res matches Ok(out) ==> out.wf() && permuted(self@, dims@, out@),
    {
        let rank = self.shape.len();
        if dims.len() != rank {
            return Err(TensorError::InvalidPermutation);
        }
        if !is_valid_perm(dims) {
            return Err(TensorError::InvalidPermutation);
        }
        let mut new_shape: Vec<usize> = Vec::new();
        let mut new_strides: Vec<usize> = Vec::new();
        let mut i: usize = 0;
        while i < rank
            invariant
                rank == dims@.len(),
                rank == self.shape@.len(),
                rank == self.strides@.len(),
                is_permutation(dims@, rank as nat),
                i <= rank,
                new_shape@.len() == i,
                new_strides@.len() == i,
                forall|j: int| 0 <= j < i ==> new_shape@[j] == self.shape@[dims@[j] as int],
                forall|j: int| 0 <= j < i ==> new_strides@[j] == self.strides@[dims@[j] as int],
            decreases rank - i,
        {
            let axis = dims[i];
            new_shape.push(self.shape[axis]);
            new_strides.push(self.strides[axis]);
            i += 1;
        }
        proof {
            assert(new_shape@ =~= gather(self.shape@, dims@));
            assert(new_strides@ =~= gather(self.strides@, dims@));
        }
        Ok(Tensor { data: self.data.clone(), shape: new_shape, strides: new_strides, offset: self.offset })
    }

    /// Exchanges two axes: the permutation that leaves every other axis in
    /// place. An axis that the tensor does not have is no valid permutation.
    pub fn transpose(&self, dim1: usize, dim2: usize) -> (res: Result<Self, TensorError>)
        requires
            self.wf(),
        ensures
            res is Ok <==> dim1 < self@.rank() && dim2 < self@.rank(),
            res matches Err(e) ==> e == TensorError::InvalidPermutation,
            res matches Ok(out) ==> out.wf() && permuted(
                self@,
                swapped_identity(self@.rank(), dim1, dim2),
                out@,
            ),
    {
        let rank = self.shape.len();
        if dim1 >= rank || dim2 >= rank {
            return Err(TensorError::InvalidPermutation);
        }
        let mut dims: Vec<usize> = Vec::new();
        let mut i: usize = 0;
        while i < rank
            invariant
                i <= rank,
                dims@.len() == i,
                forall|j: int| 0 <= j < i ==> dims@[j] == j,
            decreases rank - i,
        {
            dims.push(i);
            i += 1;
        }
        let first = dims[dim1];
        let second = dims[dim2];
        dims.set(dim1, second);
        dims.set(dim2, first);
        proof {
            assert(dims@ =~= swapped_identity(rank as nat, dim1, dim2));
            lemma_swapped_identity(rank as nat, dim1, dim2);
        }
        self.permute(dims.as_slice())
    }
}

impl<T: Clone> Tensor<T> {
    /// A tensor with the same elements in row-major layout. One that is laid
    /// out so already is returned as it is; any other is copied element by
    /// element, in the row-major order of its coordinates.
    pub fn contiguous(&self) -> (res: Result<Self, TensorError>)
        requires
            self.wf(),
            !self@.is_row_major() && self@.all_addressable() ==> shape_product(self@.shape)
                <= usize::MAX && strides_fit(self@.shape),
        ensures
            res is Ok <==> self@.is_row_major() || self@.all_addressable(),
            res matches Err(e) ==> e == TensorError::IndexOutOfBounds,
            res matches Ok(out) ==> out.wf() && if self@.is_row_major() {
                &&& out@.shape == self@.shape
                &&& out@.strides == self@.strides
                &&& out@.offset == self@.offset
                &&& clones(self@.data, out@.data)
            } else {
                materialized(self@, out@)
            },
    {
        if self.is_contiguous() {
            return Ok(self.duplicate());
        }
        if !self.is_addressable() {
            return Err(TensorError::IndexOutOfBounds);
        }
        let total = element_count(self.shape.as_slice());
        let strides = compute_strides(self.shape.as_slice());
        let mut data: Vec<T> = Vec::new();
        let mut p: usize = 0;
        while p < total
            invariant
                self.wf(),
                self@.all_addressable(),
                total == shape_product(self@.shape),
                nats(strides@) == canonical_strides(self@.shape),
                p <= total,
                data@.len() == p,
                forall|q: int|
                    0 <= q < p ==> cloned(self@.at(unravel(q as nat, self@.shape)), #[trigger] data@[q]),
            decreases total - p,
        {
            let coords = unravel_index(p, self.shape.as_slice(), strides.as_slice());
            match self.get(coords.as_slice()) {
                Ok(value) => {
                    data.push(value.clone());
                },
                Err(e) => {
                    return Err(e);
                },
            }
            p += 1;
        }
        let shape = self.shape.clone();
        proof {
            assert(shape@ =~= self.shape@);
        }
        Ok(Tensor { data, shape, strides, offset: 0 })
    }
}

impl<T: Copy> Tensor<T> {
    /// Records that two tensors have the same shape.
    pub fn assert_same_shape(&self, other: &Self)
        requires
            self@.shape == other@.shape,
    {
    }
}

} // verus!
