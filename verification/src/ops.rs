//! Arithmetic on tensors: element-by-element operations and the product of
//! two matrices.
//!
//! The element type brings its own arithmetic, so the contracts speak of it
//! through what each operator call admits and promises.

use crate::error::TensorError;
use crate::layout::{
    canonical_strides, compute_strides, lemma_linear_index_monotone, lemma_linear_index_pair,
    lemma_matrix_shape, linear_index, nats, pair, within,
};
use crate::tensor::{Tensor, TensorView};
use core::ops::{Add, Div, Mul, Sub};
use vstd::prelude::*;
use vstd::std_specs::ops::{AddSpec, MulSpec};

verus! {

/// The number of positions that two buffers share.
pub open spec fn shared_len<T>(a: Seq<T>, b: Seq<T>) -> nat {
    if a.len() <= b.len() {
        a.len()
    } else {
        b.len()
    }
}

/// `op` may be applied at every position that the two buffers share.
pub open spec fn pointwise_admits<T, F: Fn(T, T) -> T>(op: F, a: Seq<T>, b: Seq<T>) -> bool {
    forall|i: int| 0 <= i < shared_len(a, b) ==> call_requires(op, (#[trigger] a[i], b[i]))
}

/// `out` holds, position for position, a result of `op` on the two buffers.
pub open spec fn pointwise<T, F: Fn(T, T) -> T>(op: F, a: Seq<T>, b: Seq<T>, out: Seq<T>) -> bool {
    &&& out.len() == shared_len(a, b)
    &&& forall|i: int| 0 <= i < out.len() ==> call_ensures(op, (a[i], b[i]), #[trigger] out[i])
}

/// `out` is the element-by-element combination of two tensors: it has the
/// layout of the left operand and the buffer that `op` gives.
pub open spec fn combined<T, F: Fn(T, T) -> T>(
    op: F,
    lhs: TensorView<T>,
    rhs: TensorView<T>,
    out: TensorView<T>,
) -> bool {
    &&& out.shape == lhs.shape
    &&& out.strides == lhs.strides
    &&& out.offset == lhs.offset
    &&& pointwise(op, lhs.data, rhs.data, out.data)
}

/// Tells whether two shapes are the same.
pub fn same_shape(a: &[usize], b: &[usize]) -> (same: bool)
    ensures
        same == (a@ == b@),
{
    if a.len() != b.len() {
        return false;
    }
    let mut i: usize = 0;
    while i < a.len()
        invariant
            a@.len() == b@.len(),
            i <= a@.len(),
            forall|j: int| 0 <= j < i ==> a@[j] == b@[j],
        decreases a@.len() - i,
    {
        if a[i] != b[i] {
            return false;
        }
        i += 1;
    }
    proof {
        assert(a@ =~= b@);
    }
    true
}

/// Applies `op` at every position that two buffers share.
fn zip_with<T: Copy, F: Fn(T, T) -> T>(a: &[T], b: &[T], op: F) -> (out: Vec<T>)
    requires
        pointwise_admits(op, a@, b@),
    ensures
        pointwise(op, a@, b@, out@),
{
    let n = if a.len() <= b.len() {
        a.len()
    } else {
        b.len()
    };
    let mut out: Vec<T> = Vec::new();
    let mut i: usize = 0;
    while i < n
        invariant
            n == shared_len(a@, b@),
            i <= n,
            out@.len() == i,
            pointwise_admits(op, a@, b@),
            forall|j: int| 0 <= j < i ==> call_ensures(op, (a@[j], b@[j]), #[trigger] out@[j]),
        decreases n - i,
    {
        let x = a[i];
        let y = b[i];
        out.push(op(x, y));
        i += 1;
    }
    out
}

impl<T: Copy> Tensor<T> {
    /// Combines two tensors of one shape element by element.
    fn elementwise<F: Fn(T, T) -> T>(&self, rhs: &Self, op: F) -> (res: Result<Self, TensorError>)
        requires
            self.wf(),
            self@.shape == rhs@.shape ==> pointwise_admits(op, self@.data, rhs@.data),
        ensures
            res is Ok <==> self@.shape == rhs@.shape,
            res matches Err(e) ==> e == TensorError::ShapeMismatch,
            res matches Ok(out) ==> out.wf() && combined(op, self@, rhs@, out@),
    {
        if !same_shape(self.get_shape(), rhs.get_shape()) {
            return Err(TensorError::ShapeMismatch);
        }
        let data = zip_with(self.get_data(), rhs.get_data(), op);
        let shape = vstd::slice::slice_to_vec(self.get_shape());
        let strides = vstd::slice::slice_to_vec(self.get_strides());
        Ok(Tensor::from_parts(data, shape, strides, *self.get_offset()))
    }
}

impl<T: Copy + Add<Output = T>> Tensor<T> {
    /// The element-by-element sum of two tensors of one shape.
    pub fn elementwise_add(&self, rhs: &Self) -> (res: Result<Self, TensorError>)
        requires
            self.wf(),
            self@.shape == rhs@.shape ==> pointwise_admits(T::add, self@.data, rhs@.data),
        ensures
            res is Ok <==> self@.shape == rhs@.shape,
            res matches Err(e) ==> e == TensorError::ShapeMismatch,
            res matches Ok(out) ==> out.wf() && combined(T::add, self@, rhs@, out@),
    {
        self.elementwise(rhs, T::add)
    }
}

impl<T: Copy + Add<Output = T>> Add for Tensor<T> {
    type Output = Result<Tensor<T>, TensorError>;

    /// `a + b` is the element-by-element sum, or the error that refuses it.
    fn add(self, rhs: Self) -> (res: Result<Tensor<T>, TensorError>)
        ensures
            res is Ok <==> self@.shape == rhs@.shape,
            res matches Err(e) ==> e == TensorError::ShapeMismatch,
            res matches Ok(out) ==> out.wf() && combined(T::add, self@, rhs@, out@),
    {
        self.elementwise_add(&rhs)
    }
}

impl<T: Copy + Add<Output = T>> vstd::std_specs::ops::AddSpecImpl for Tensor<T> {
    open spec fn obeys_add_spec() -> bool {
        false
    }

    open spec fn add_req(self, rhs: Self) -> bool {
        self.wf() && (self@.shape == rhs@.shape ==> pointwise_admits(T::add, self@.data, rhs@.data))
    }

    open spec fn add_spec(self, rhs: Self) -> Result<Tensor<T>, TensorError> {
        arbitrary()
    }
}

impl<T: Copy + Sub<Output = T>> Tensor<T> {
    /// The element-by-element difference of two tensors of one shape.
    pub fn elementwise_sub(&self, rhs: &Self) -> (res: Result<Self, TensorError>)
        requires
            self.wf(),
            self@.shape == rhs@.shape ==> pointwise_admits(T::sub, self@.data, rhs@.data),
        ensures
            res is Ok <==> self@.shape == rhs@.shape,
            res matches Err(e) ==> e == TensorError::ShapeMismatch,
            res matches Ok(out) ==> out.wf() && combined(T::sub, self@, rhs@, out@),
    {
        self.elementwise(rhs, T::sub)
    }
}

impl<T: Copy + Sub<Output = T>> Sub for Tensor<T> {
    type Output = Result<Tensor<T>, TensorError>;

    /// `a - b` is the element-by-element difference, or the error that refuses it.
    fn sub(self, rhs: Self) -> (res: Result<Tensor<T>, TensorError>)
        ensures
            res is Ok <==> self@.shape == rhs@.shape,
            res matches Err(e) ==> e == TensorError::ShapeMismatch,
            res matches Ok(out) ==> out.wf() && combined(T::sub, self@, rhs@, out@),
    {
        self.elementwise_sub(&rhs)
    }
}

impl<T: Copy + Sub<Output = T>> vstd::std_specs::ops::SubSpecImpl for Tensor<T> {
    open spec fn obeys_sub_spec() -> bool {
        false
    }

    open spec fn sub_req(self, rhs: Self) -> bool {
        self.wf() && (self@.shape == rhs@.shape ==> pointwise_admits(T::sub, self@.data, rhs@.data))
    }

    open spec fn sub_spec(self, rhs: Self) -> Result<Tensor<T>, TensorError> {
        arbitrary()
    }
}

impl<T: Copy + Mul<Output = T>> Tensor<T> {
    /// The element-by-element product of two tensors of one shape.
    pub fn elementwise_mul(&self, rhs: &Self) -> (res: Result<Self, TensorError>)
        requires
            self.wf(),
            self@.shape == rhs@.shape ==> pointwise_admits(T::mul, self@.data, rhs@.data),
        ensures
            res is Ok <==> self@.shape == rhs@.shape,
            res matches Err(e) ==> e == TensorError::ShapeMismatch,
            res matches Ok(out) ==> out.wf() && combined(T::mul, self@, rhs@, out@),
    {
        self.elementwise(rhs, T::mul)
    }
}

impl<T: Copy + Mul<Output = T>> Mul for Tensor<T> {
    type Output = Result<Tensor<T>, TensorError>;

    /// `a * b` is the element-by-element product, or the error that refuses it.
    fn mul(self, rhs: Self) -> (res: Result<Tensor<T>, TensorError>)
        ensures
            res is Ok <==> self@.shape == rhs@.shape,
            res matches Err(e) ==> e == TensorError::ShapeMismatch,
            res matches Ok(out) ==> out.wf() && combined(T::mul, self@, rhs@, out@),
    {
        self.elementwise_mul(&rhs)
    }
}

impl<T: Copy + Mul<Output = T>> vstd::std_specs::ops::MulSpecImpl for Tensor<T> {
    open spec fn obeys_mul_spec() -> bool {
        false
    }

    open spec fn mul_req(self, rhs: Self) -> bool {
        self.wf() && (self@.shape == rhs@.shape ==> pointwise_admits(T::mul, self@.data, rhs@.data))
    }

    open spec fn mul_spec(self, rhs: Self) -> Result<Tensor<T>, TensorError> {
        arbitrary()
    }
}

impl<T: Copy + Div<Output = T>> Tensor<T> {
    /// The element-by-element quotient of two tensors of one shape.
    pub fn elementwise_div(&self, rhs: &Self) -> (res: Result<Self, TensorError>)
        requires
            self.wf(),
            self@.shape == rhs@.shape ==> pointwise_admits(T::div, self@.data, rhs@.data),
        ensures
            res is Ok <==> self@.shape == rhs@.shape,
            res matches Err(e) ==> e == TensorError::ShapeMismatch,
            res matches Ok(out) ==> out.wf() && combined(T::div, self@, rhs@, out@),
    {
        self.elementwise(rhs, T::div)
    }
}

impl<T: Copy + Div<Output = T>> Div for Tensor<T> {
    type Output = Result<Tensor<T>, TensorError>;

    /// `a / b` is the element-by-element quotient, or the error that refuses it.
    fn div(self, rhs: Self) -> (res: Result<Tensor<T>, TensorError>)
        ensures
            res is Ok <==> self@.shape == rhs@.shape,
            res matches Err(e) ==> e == TensorError::ShapeMismatch,
            res matches Ok(out) ==> out.wf() && combined(T::div, self@, rhs@, out@),
    {
        self.elementwise_div(&rhs)
    }
}

impl<T: Copy + Div<Output = T>> vstd::std_specs::ops::DivSpecImpl for Tensor<T> {
    open spec fn obeys_div_spec() -> bool {
        false
    }

    open spec fn div_req(self, rhs: Self) -> bool {
        self.wf() && (self@.shape == rhs@.shape ==> pointwise_admits(T::div, self@.data, rhs@.data))
    }

    open spec fn div_spec(self, rhs: Self) -> Result<Tensor<T>, TensorError> {
        arbitrary()
    }
}

/// One step of an inner product: `term` is a product of `x` and `y`, and
/// `acc` is a sum of `prev` and `term`.
pub open spec fn accumulates<T: Add<Output = T> + Mul<Output = T>>(x: T, y: T, prev: T, term: T, acc: T) -> bool {
    call_ensures(T::mul, (x, y), term) && call_ensures(T::add, (prev, term), acc)
}

/// `acc` is a value that the first `steps` terms of the inner product of `a`
/// and `b` can accumulate to: the additive identity, then one product added
/// per step.
pub open spec fn dot_reaches<T: Default + Add<Output = T> + Mul<Output = T>>(
    a: Seq<T>,
    b: Seq<T>,
    steps: nat,
    acc: T,
) -> bool
    decreases steps,
{
    if steps == 0 {
        call_ensures(T::default, (), acc)
    } else {
        exists|prev: T, term: T|
            dot_reaches(a, b, (steps - 1) as nat, prev) && #[trigger] accumulates(
                a[steps - 1],
                b[steps - 1],
                prev,
                term,
                acc,
            )
    }
}

/// After `steps` terms the inner product of `a` and `b` can stand at `prev`,
/// and `term` is a product of the next pair.
pub open spec fn dot_offers<T: Default + Add<Output = T> + Mul<Output = T>>(
    a: Seq<T>,
    b: Seq<T>,
    steps: nat,
    prev: T,
    term: T,
) -> bool {
    steps < a.len() && dot_reaches(a, b, steps, prev) && call_ensures(
        T::mul,
        (a[steps as int], b[steps as int]),
        term,
    )
}

/// Every multiplication and addition of the inner product of `a` and `b` is
/// one that the element type admits.
pub open spec fn dot_admitted<T: Default + Add<Output = T> + Mul<Output = T>>(a: Seq<T>, b: Seq<T>) -> bool {
    &&& forall|t: int| 0 <= t < a.len() ==> call_requires(T::mul, (#[trigger] a[t], b[t]))
    &&& forall|steps: nat, prev: T, term: T| #[trigger]
        dot_offers(a, b, steps, prev, term) ==> call_requires(T::add, (prev, term))
}

/// Extends an inner product by one step.
pub proof fn lemma_dot_extend<T: Default + Add<Output = T> + Mul<Output = T>>(
    a: Seq<T>,
    b: Seq<T>,
    steps: nat,
    prev: T,
    term: T,
    acc: T,
)
    requires
        dot_reaches(a, b, steps, prev),
        accumulates(a[steps as int], b[steps as int], prev, term, acc),
    ensures
        dot_reaches(a, b, steps + 1, acc),
{
    let next = steps + 1;
    assert(dot_reaches(a, b, (next - 1) as nat, prev));
    assert(accumulates(a[next - 1], b[next - 1], prev, term, acc));
}

impl<T> TensorView<T> {
    /// The first `len` elements of row `i` of a matrix.
    pub open spec fn row(self, i: usize, len: usize) -> Seq<T> {
        Seq::new(len as nat, |t: int| self.at(pair(i, t as usize)))
    }

    /// The first `len` elements of column `j` of a matrix.
    pub open spec fn column(self, j: usize, len: usize) -> Seq<T> {
        Seq::new(len as nat, |t: int| self.at(pair(t as usize, j)))
    }
}

/// Both operands are matrices and the left one has as many columns as the
/// right one has rows.
pub open spec fn matmul_conforms<T>(lhs: TensorView<T>, rhs: TensorView<T>) -> bool {
    lhs.rank() == 2 && rhs.rank() == 2 && lhs.shape[1] == rhs.shape[0]
}

/// Every element that the product reads lies inside its operand's buffer.
/// An operand is read only where the other one has a row or column to meet.
pub open spec fn matmul_addressable<T>(lhs: TensorView<T>, rhs: TensorView<T>) -> bool {
    &&& rhs.shape[1] > 0 ==> forall|i: usize, t: usize|
        i < lhs.shape[0] && t < lhs.shape[1] ==> #[trigger] lhs.addresses(pair(i, t))
    &&& lhs.shape[0] > 0 ==> forall|t: usize, j: usize|
        t < lhs.shape[1] && j < rhs.shape[1] ==> #[trigger] rhs.addresses(pair(t, j))
}

/// Why the product of two tensors is refused, if it is.
pub open spec fn matmul_refusal<T>(lhs: TensorView<T>, rhs: TensorView<T>) -> Option<TensorError> {
    if lhs.rank() != 2 || rhs.rank() != 2 {
        Some(TensorError::ShapeMismatch)
    } else if lhs.shape[1] != rhs.shape[0] {
        Some(TensorError::DimensionalMismatch)
    } else if !matmul_addressable(lhs, rhs) {
        Some(TensorError::IndexOutOfBounds)
    } else {
        None
    }
}

/// `out` is the matrix product of `lhs` and `rhs`: a row-major matrix whose
/// entry in row `i` and column `j` is an inner product of row `i` of `lhs`
/// with column `j` of `rhs`.
pub open spec fn is_matmul<T: Default + Add<Output = T> + Mul<Output = T>>(
    lhs: TensorView<T>,
    rhs: TensorView<T>,
    out: TensorView<T>,
) -> bool {
    let m = lhs.shape[0];
    let k = lhs.shape[1];
    let n = rhs.shape[1];
    &&& out.shape == seq![m, n]
    &&& out.strides == seq![n, 1usize]
    &&& out.offset == 0
    &&& out.data.len() == m * n
    &&& forall|i: usize, j: usize|
        i < m && j < n ==> dot_reaches(lhs.row(i, k), rhs.column(j, k), k as nat, #[trigger] out.data[i * n + j])
}

/// In a row-major matrix the entry in row `i` and column `j` stands at the
/// buffer position `i * cols + j`.
pub proof fn lemma_matrix_entry<T>(view: TensorView<T>, i: usize, j: usize)
    requires
        view.rank() == 2,
        view.strides == seq![view.shape[1], 1usize],
        view.data.len() == view.shape[0] * view.shape[1],
        i < view.shape[0],
        j < view.shape[1],
    ensures
        view.addresses(pair(i, j)),
        linear_index(pair(i, j), view.strides) == i * view.shape[1] + j,
        view.at(pair(i, j)) == view.data[i * view.shape[1] + j],
{
    lemma_linear_index_pair(i, j, view.strides);
    let rows = view.shape[0] as int;
    let cols = view.shape[1] as int;
    assert(i * cols + j < rows * cols) by (nonlinear_arith)
        requires
            0 <= i < rows,
            0 <= j < cols,
    ;
    assert(j as nat * 1 == j) by (nonlinear_arith);
}

/// Where the element type's addition and multiplication are functions of
/// their operands and its additive identity is one value, an inner product
/// has one value: host matrix multiplication is deterministic.
pub proof fn lemma_dot_deterministic<T: Default + Add<Output = T> + Mul<Output = T>>(
    a: Seq<T>,
    b: Seq<T>,
    steps: nat,
    first: T,
    second: T,
)
    requires
        T::obeys_add_spec(),
        T::obeys_mul_spec(),
        forall|x: T, y: T| call_ensures(T::default, (), x) && call_ensures(T::default, (), y) ==> x == y,
        dot_reaches(a, b, steps, first),
        dot_reaches(a, b, steps, second),
    ensures
        first == second,
    decreases steps,
{
    if steps > 0 {
        let (prev_a, term_a) = choose|prev: T, term: T|
            dot_reaches(a, b, (steps - 1) as nat, prev) && #[trigger] accumulates(
                a[steps - 1],
                b[steps - 1],
                prev,
                term,
                first,
            );
        let (prev_b, term_b) = choose|prev: T, term: T|
            dot_reaches(a, b, (steps - 1) as nat, prev) && #[trigger] accumulates(
                a[steps - 1],
                b[steps - 1],
                prev,
                term,
                second,
            );
        lemma_dot_deterministic(a, b, (steps - 1) as nat, prev_a, prev_b);
        assert(term_a == a[steps - 1].mul_spec(b[steps - 1]));
        assert(term_b == a[steps - 1].mul_spec(b[steps - 1]));
        assert(first == prev_a.add_spec(term_a));
        assert(second == prev_b.add_spec(term_b));
    }
}

impl<T: Copy + Default + Add<Output = T> + Mul<Output = T>> Tensor<T> {
    /// The inner product of row `i` of `self` with column `j` of `rhs`.
    fn dot(&self, rhs: &Self, i: usize, j: usize, k: usize) -> (res: Result<T, TensorError>)
        requires
            self.wf(),
            rhs.wf(),
            self@.rank() == 2,
            rhs@.rank() == 2,
            i < self@.shape[0],
            k <= self@.shape[1],
            k <= rhs@.shape[0],
            j < rhs@.shape[1],
            forall|t: usize| t < k ==> #[trigger] self@.addresses(pair(i, t)),
            forall|t: usize| t < k ==> #[trigger] rhs@.addresses(pair(t, j)),
            dot_admitted(self@.row(i, k), rhs@.column(j, k)),
        ensures
            res matches Ok(acc) && dot_reaches(self@.row(i, k), rhs@.column(j, k), k as nat, acc),
    {
        let ghost row = self@.row(i, k);
        let ghost col = rhs@.column(j, k);
        let mut sum = T::default();
        let mut t: usize = 0;
        while t < k
            invariant
                self.wf(),
                rhs.wf(),
                self@.rank() == 2,
                rhs@.rank() == 2,
                i < self@.shape[0],
                k <= self@.shape[1],
                k <= rhs@.shape[0],
                j < rhs@.shape[1],
                t <= k,
                row == self@.row(i, k),
                col == rhs@.column(j, k),
                forall|t: usize| t < k ==> #[trigger] self@.addresses(pair(i, t)),
                forall|t: usize| t < k ==> #[trigger] rhs@.addresses(pair(t, j)),
                dot_admitted(row, col),
                dot_reaches(row, col, t as nat, sum),
            decreases k - t,
        {
            let left = [i, t];
            let right = [t, j];
            proof {
                assert(left@ =~= pair(i, t));
                assert(right@ =~= pair(t, j));
                assert(self@.selects(pair(i, t)));
                assert(rhs@.selects(pair(t, j)));
            }
            let a: T = match self.get(left.as_slice()) {
                Ok(value) => *value,
                Err(e) => {
                    return Err(e);
                },
            };
            let b: T = match rhs.get(right.as_slice()) {
                Ok(value) => *value,
                Err(e) => {
                    return Err(e);
                },
            };
            proof {
                assert(a == row[t as int]);
                assert(b == col[t as int]);
            }
            let term = a * b;
            proof {
                assert(dot_offers(row, col, t as nat, sum, term));
            }
            let next = sum + term;
            proof {
                lemma_dot_extend(row, col, t as nat, sum, term, next);
            }
            sum = next;
            t += 1;
        }
        Ok(sum)
    }

    /// The matrix product of two tensors of two axes.
    pub fn matmul(&self, rhs: &Self) -> (res: Result<Self, TensorError>)
        requires
            self.wf(),
            rhs.wf(),
            matmul_conforms(self@, rhs@) ==> self@.shape[0] * rhs@.shape[1] <= usize::MAX,
            matmul_refusal(self@, rhs@) is None ==> forall|i: usize, j: usize|
                i < self@.shape[0] && j < rhs@.shape[1] ==> dot_admitted(
                    #[trigger] self@.row(i, self@.shape[1]),
                    #[trigger] rhs@.column(j, self@.shape[1]),
                ),
        ensures
            match res {
                Ok(out) => matmul_refusal(self@, rhs@) is None && out.wf() && out@.is_row_major()
                    && is_matmul(self@, rhs@, out@),
                Err(e) => matmul_refusal(self@, rhs@) == Some(e),
            },
    {
        let lhs_shape = self.get_shape();
        let rhs_shape = rhs.get_shape();
        if lhs_shape.len() != 2 || rhs_shape.len() != 2 {
            return Err(TensorError::ShapeMismatch);
        }
        let m = lhs_shape[0];
        let k = lhs_shape[1];
        let n = rhs_shape[1];
        if k != rhs_shape[0] {
            return Err(TensorError::DimensionalMismatch);
        }
        if m > 0 && n > 0 && k > 0 {
            let last_left = [m - 1, k - 1];
            let last_right = [k - 1, n - 1];
            proof {
                assert(last_left@ =~= pair((m - 1) as usize, (k - 1) as usize));
                assert(last_right@ =~= pair((k - 1) as usize, (n - 1) as usize));
                assert(within(pair((m - 1) as usize, (k - 1) as usize), self@.shape));
                assert(within(pair((k - 1) as usize, (n - 1) as usize), rhs@.shape));
            }
            if self.get(last_left.as_slice()).is_err() {
                proof {
                    assert(!self@.addresses(pair((m - 1) as usize, (k - 1) as usize)));
                }
                return Err(TensorError::IndexOutOfBounds);
            }
            if rhs.get(last_right.as_slice()).is_err() {
                proof {
                    assert(!rhs@.addresses(pair((k - 1) as usize, (n - 1) as usize)));
                }
                return Err(TensorError::IndexOutOfBounds);
            }
        }
        proof {
            if m > 0 && n > 0 && k > 0 {
                assert forall|i: usize, t: usize| i < m && t < k implies #[trigger] self@.addresses(
                    pair(i, t),
                ) by {
                    lemma_linear_index_monotone(
                        pair(i, t),
                        pair((m - 1) as usize, (k - 1) as usize),
                        self@.strides,
                    );
                }
                assert forall|t: usize, j: usize| t < k && j < n implies #[trigger] rhs@.addresses(
                    pair(t, j),
                ) by {
                    lemma_linear_index_monotone(
                        pair(t, j),
                        pair((k - 1) as usize, (n - 1) as usize),
                        rhs@.strides,
                    );
                }
            }
            assert(matmul_addressable(self@, rhs@));
        }
        let mut data: Vec<T> = Vec::new();
        let mut i: usize = 0;
        while i < m
            invariant
                self.wf(),
                rhs.wf(),
                self@.rank() == 2,
                rhs@.rank() == 2,
                m == self@.shape[0],
                k == self@.shape[1],
                k == rhs@.shape[0],
                n == rhs@.shape[1],
                m * n <= usize::MAX,
                matmul_addressable(self@, rhs@),
                forall|i: usize, j: usize|
                    i < m && j < n ==> dot_admitted(
                        #[trigger] self@.row(i, k),
                        #[trigger] rhs@.column(j, k),
                    ),
                i <= m,
                data@.len() == i * n,
                forall|a: usize, b: usize|
                    a < i && b < n ==> dot_reaches(
                        self@.row(a, k),
                        rhs@.column(b, k),
                        k as nat,
                        #[trigger] data@[a * n + b],
                    ),
            decreases m - i,
        {
            let mut j: usize = 0;
            while j < n
                invariant
                    self.wf(),
                    rhs.wf(),
                    self@.rank() == 2,
                    rhs@.rank() == 2,
                    m == self@.shape[0],
                    k == self@.shape[1],
                    k == rhs@.shape[0],
                    n == rhs@.shape[1],
                    matmul_addressable(self@, rhs@),
                    forall|i: usize, j: usize|
                        i < m && j < n ==> dot_admitted(
                            #[trigger] self@.row(i, k),
                            #[trigger] rhs@.column(j, k),
                        ),
                    i < m,
                    j <= n,
                    data@.len() == i * n + j,
                    forall|a: usize, b: usize|
                        a < i && b < n ==> dot_reaches(
                            self@.row(a, k),
                            rhs@.column(b, k),
                            k as nat,
                            #[trigger] data@[a * n + b],
                        ),
                    forall|b: usize|
                        b < j ==> dot_reaches(
                            self@.row(i, k),
                            rhs@.column(b, k),
                            k as nat,
                            #[trigger] data@[i * n + b],
                        ),
                decreases n - j,
            {
                proof {
                    assert(dot_admitted(self@.row(i, k), rhs@.column(j, k)));
                }
                let ghost before = data@;
                match self.dot(rhs, i, j, k) {
                    Ok(acc) => {
                        data.push(acc);
                    },
                    Err(e) => {
                        return Err(e);
                    },
                }
                proof {
                    assert forall|a: usize, b: usize| a < i && b < n implies dot_reaches(
                        self@.row(a, k),
                        rhs@.column(b, k),
                        k as nat,
                        #[trigger] data@[a * n + b],
                    ) by {
                        assert(a * n + b < i * n) by (nonlinear_arith)
                            requires
                                a < i,
                                b < n,
                        ;
                        assert(data@[a * n + b] == before[a * n + b]);
                    }
                    assert forall|b: usize| b < j + 1 implies dot_reaches(
                        self@.row(i, k),
                        rhs@.column(b, k),
                        k as nat,
                        #[trigger] data@[i * n + b],
                    ) by {
                        if b < j {
                            assert(data@[i * n + b] == before[i * n + b]);
                        }
                    }
                }
                j += 1;
            }
            proof {
                assert(i * n + n == (i + 1) * n) by (nonlinear_arith);
                assert forall|a: usize, b: usize| a < i + 1 && b < n implies dot_reaches(
                    self@.row(a, k),
                    rhs@.column(b, k),
                    k as nat,
                    #[trigger] data@[a * n + b],
                ) by {
                    if a == i {
                        assert(data@[i * n + b] == data@[a * n + b]);
                    }
                }
            }
            i += 1;
        }
        let shape: Vec<usize> = vec![m, n];
        proof {
            lemma_matrix_shape(m, n);
            assert(shape@ =~= seq![m, n]);
        }
        let strides = compute_strides(shape.as_slice());
        proof {
            assert(nats(strides@)[0] == canonical_strides(shape@)[0]);
            assert(nats(strides@)[1] == canonical_strides(shape@)[1]);
            assert(strides@ =~= seq![n, 1usize]);
        }
        Ok(Tensor::from_parts(data, shape, strides, 0))
    }
}

} // verus!
