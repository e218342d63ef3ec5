//! Shape arithmetic: element counts, row-major strides, linear indices and
//! axis permutations, as mathematical definitions and as executable routines
//! proved against them.

use vstd::arithmetic::div_mod::{lemma_mod_bound, lemma_mod_breakdown, lemma_small_mod};
use vstd::prelude::*;

verus! {

/// The number of elements that a shape describes: the product of its extents.
/// The empty shape describes a single element.
pub open spec fn shape_product(shape: Seq<usize>) -> nat
    decreases shape.len(),
{
    if shape.len() == 0 {
        1
    } else {
        shape[0] as nat * shape_product(shape.skip(1))
    }
}

/// The row-major strides of a shape: the step of axis `i` is the number of
/// elements spanned by all the axes after it.
pub open spec fn canonical_strides(shape: Seq<usize>) -> Seq<nat> {
    Seq::new(shape.len(), |i: int| shape_product(shape.skip(i + 1)))
}

/// Every row-major stride of the shape is a machine integer.
pub open spec fn strides_fit(shape: Seq<usize>) -> bool {
    forall|i: int| 0 <= i < shape.len() ==> #[trigger] shape_product(shape.skip(i + 1)) <= usize::MAX
}

/// A sequence of machine integers read as natural numbers.
pub open spec fn nats(s: Seq<usize>) -> Seq<nat> {
    Seq::new(s.len(), |i: int| s[i] as nat)
}

/// No extent of the shape is zero.
pub open spec fn all_positive(shape: Seq<usize>) -> bool {
    forall|i: int| 0 <= i < shape.len() ==> #[trigger] shape[i] > 0
}

/// The buffer position of a coordinate tuple: the sum of each coordinate times
/// the stride of its axis. Both sequences have the same length.
pub open spec fn linear_index(indices: Seq<usize>, strides: Seq<usize>) -> nat
    decreases indices.len(),
{
    if indices.len() == 0 || strides.len() == 0 {
        0
    } else {
        linear_index(indices.drop_last(), strides.drop_last()) + indices.last() as nat
            * strides.last() as nat
    }
}

/// The coordinate tuple of an element of a matrix: its row, then its column.
pub open spec fn pair(row: usize, col: usize) -> Seq<usize> {
    seq![row, col]
}

/// The coordinate tuple has one entry per axis, each below the extent of
/// its axis.
pub open spec fn within(coords: Seq<usize>, shape: Seq<usize>) -> bool {
    &&& coords.len() == shape.len()
    &&& forall|i: int| 0 <= i < coords.len() ==> #[trigger] coords[i] < shape[i]
}

/// The coordinates of the element that stands at `position` when the
/// elements of a shape are counted in row-major order.
pub open spec fn unravel(position: nat, shape: Seq<usize>) -> Seq<usize> {
    Seq::new(
        shape.len(),
        |i: int| ((position / canonical_strides(shape)[i]) % (shape[i] as nat)) as usize,
    )
}

/// `dims` names every axis below `rank` exactly once.
pub open spec fn is_permutation(dims: Seq<usize>, rank: nat) -> bool {
    &&& dims.len() == rank
    &&& forall|i: int| 0 <= i < dims.len() ==> #[trigger] dims[i] < rank
    &&& forall|i: int, j: int| 0 <= i < j < dims.len() ==> #[trigger] dims[i] != #[trigger] dims[j]
}

/// The entries of `source` picked out in the order that `dims` gives.
pub open spec fn gather(source: Seq<usize>, dims: Seq<usize>) -> Seq<usize> {
    Seq::new(dims.len(), |i: int| source[dims[i] as int])
}

/// The identity permutation of `rank` axes with the positions `a` and `b`
/// exchanged.
pub open spec fn swapped_identity(rank: nat, a: usize, b: usize) -> Seq<usize> {
    Seq::new(
        rank,
        |i: int|
            if i == a {
                b
            } else if i == b {
                a
            } else {
                i as usize
            },
    )
}

/// Unfolds the product of a suffix by its first extent.
pub proof fn lemma_product_step(shape: Seq<usize>, i: int)
    requires
        0 <= i < shape.len(),
    ensures
        shape_product(shape.skip(i)) == shape[i] as nat * shape_product(shape.skip(i + 1)),
{
    let s = shape.skip(i);
    assert(s[0] == shape[i]);
    assert(s.skip(1) =~= shape.skip(i + 1));
}

/// The product of the empty suffix is one.
pub proof fn lemma_product_end(shape: Seq<usize>)
    ensures
        shape_product(shape.skip(shape.len() as int)) == 1,
{
    assert(shape.skip(shape.len() as int).len() == 0);
}

/// A shape with a zero extent at `z` has no elements, and neither has any
/// suffix that still holds that extent.
pub proof fn lemma_product_zero(shape: Seq<usize>, i: int, z: int)
    requires
        0 <= i <= z < shape.len(),
        shape[z] == 0,
    ensures
        shape_product(shape.skip(i)) == 0,
    decreases z - i,
{
    lemma_product_step(shape, i);
    if i < z {
        lemma_product_zero(shape, i + 1, z);
        assert(shape[i] as nat * 0 == 0) by (nonlinear_arith);
    } else {
        assert(0 * shape_product(shape.skip(i + 1)) == 0) by (nonlinear_arith);
    }
}

/// Without a zero extent, a suffix has at least one element and never more
/// than a longer suffix.
pub proof fn lemma_product_monotone(shape: Seq<usize>, i: int, j: int)
    requires
        all_positive(shape),
        0 <= i <= j <= shape.len(),
    ensures
        1 <= shape_product(shape.skip(j)) <= shape_product(shape.skip(i)),
    decreases shape.len() - i,
{
    if j == shape.len() {
        lemma_product_end(shape);
    } else {
        lemma_product_monotone(shape, j + 1, j + 1);
        lemma_product_step(shape, j);
        let e = shape[j] as nat;
        let rest = shape_product(shape.skip(j + 1));
        assert(e >= 1);
        assert(e * rest >= 1) by (nonlinear_arith)
            requires
                e >= 1,
                rest >= 1,
        ;
    }
    if i < j {
        lemma_product_monotone(shape, i + 1, j);
        lemma_product_step(shape, i);
        let e = shape[i] as nat;
        let rest = shape_product(shape.skip(i + 1));
        assert(e >= 1);
        assert(e * rest >= rest) by (nonlinear_arith)
            requires
                e >= 1,
        ;
    }
}

/// A shape without a zero extent whose element count is a machine integer
/// has machine-integer strides.
pub proof fn lemma_strides_fit(shape: Seq<usize>)
    requires
        all_positive(shape),
        shape_product(shape) <= usize::MAX,
    ensures
        strides_fit(shape),
{
    assert(shape.skip(0) =~= shape);
    assert forall|i: int| 0 <= i < shape.len() implies #[trigger] shape_product(shape.skip(i + 1))
        <= usize::MAX by {
        lemma_product_monotone(shape, 0, i + 1);
    }
}

/// A shape of one axis has `len` elements and the stride 1.
pub proof fn lemma_vector_shape(len: usize)
    ensures
        shape_product(seq![len]) == len,
        canonical_strides(seq![len]) == seq![1nat],
        strides_fit(seq![len]),
{
    let shape = seq![len];
    lemma_product_end(shape);
    lemma_product_step(shape, 0);
    assert(shape.skip(0) =~= shape);
    assert(len as nat * 1 == len) by (nonlinear_arith);
    assert(canonical_strides(shape) =~= seq![1nat]);
}

/// A shape of two axes has `rows * cols` elements and the strides `cols`, 1.
pub proof fn lemma_matrix_shape(rows: usize, cols: usize)
    ensures
        shape_product(seq![rows, cols]) == rows * cols,
        canonical_strides(seq![rows, cols]) == seq![cols as nat, 1nat],
        strides_fit(seq![rows, cols]),
{
    let shape = seq![rows, cols];
    lemma_product_end(shape);
    lemma_product_step(shape, 1);
    lemma_product_step(shape, 0);
    assert(shape.skip(0) =~= shape);
    assert(shape_product(shape.skip(1)) == cols) by {
        assert(cols as nat * 1 == cols) by (nonlinear_arith);
    }
    assert(canonical_strides(shape) =~= seq![cols as nat, 1nat]);
    assert forall|i: int| 0 <= i < shape.len() implies #[trigger] shape_product(shape.skip(i + 1))
        <= usize::MAX by {
        if i == 0 {
        } else {
            assert(i + 1 == 2);
        }
    }
}

/// Row-major strides end in one, and each is the next stride times the next
/// extent.
pub proof fn lemma_canonical_strides(shape: Seq<usize>)
    ensures
        canonical_strides(shape).len() == shape.len(),
        shape.len() > 0 ==> canonical_strides(shape)[shape.len() - 1] == 1,
        forall|i: int|
            0 <= i < shape.len() - 1 ==> #[trigger] canonical_strides(shape)[i] == canonical_strides(
                shape,
            )[i + 1] * shape[i + 1] as nat,
{
    lemma_product_end(shape);
    assert forall|i: int| 0 <= i < shape.len() - 1 implies #[trigger] canonical_strides(shape)[i]
        == canonical_strides(shape)[i + 1] * shape[i + 1] as nat by {
        lemma_product_step(shape, i + 1);
        let a = shape[i + 1] as nat;
        let b = shape_product(shape.skip(i + 2));
        assert(a * b == b * a) by (nonlinear_arith);
    }
}

/// Exchanging two axes of the identity gives a permutation; exchanging an
/// axis with itself gives the identity.
pub proof fn lemma_swapped_identity(rank: nat, a: usize, b: usize)
    requires
        a < rank,
        b < rank,
        rank <= usize::MAX,
    ensures
        is_permutation(swapped_identity(rank, a, b), rank),
        a == b ==> swapped_identity(rank, a, b) == Seq::new(rank, |i: int| i as usize),
{
    let dims = swapped_identity(rank, a, b);
    assert forall|i: int, j: int| 0 <= i < j < dims.len() implies #[trigger] dims[i] != #[trigger] dims[j] by {
        assert(dims[i] == if i == a {
            b
        } else if i == b {
            a
        } else {
            i as usize
        });
    }
    if a == b {
        assert(dims =~= Seq::new(rank, |i: int| i as usize));
    }
}

/// Extending both sequences by one entry adds that entry's product.
pub proof fn lemma_linear_index_step(indices: Seq<usize>, strides: Seq<usize>, i: int)
    requires
        0 <= i < indices.len(),
        i < strides.len(),
    ensures
        linear_index(indices.take(i + 1), strides.take(i + 1)) == linear_index(
            indices.take(i),
            strides.take(i),
        ) + indices[i] as nat * strides[i] as nat,
{
    assert(indices.take(i + 1).drop_last() =~= indices.take(i));
    assert(strides.take(i + 1).drop_last() =~= strides.take(i));
}

/// A prefix of the coordinates never reaches past the whole tuple.
pub proof fn lemma_linear_index_prefix(indices: Seq<usize>, strides: Seq<usize>, i: int)
    requires
        indices.len() == strides.len(),
        0 <= i <= indices.len(),
    ensures
        linear_index(indices.take(i), strides.take(i)) <= linear_index(indices, strides),
    decreases indices.len() - i,
{
    if i == indices.len() {
        assert(indices.take(i) =~= indices);
        assert(strides.take(i) =~= strides);
    } else {
        lemma_linear_index_step(indices, strides, i);
        lemma_linear_index_prefix(indices, strides, i + 1);
        assert(indices[i] as nat * strides[i] as nat >= 0) by (nonlinear_arith);
    }
}

/// Computes the row-major strides of a shape.
pub fn compute_strides(shape: &[usize]) -> (strides: Vec<usize>)
    requires
        strides_fit(shape@),
    ensures
        nats(strides@) == canonical_strides(shape@),
        strides@.len() == shape@.len(),
        shape@.len() > 0 ==> strides@[shape@.len() - 1] == 1,
        forall|i: int|
            0 <= i < shape@.len() - 1 ==> #[trigger] strides@[i] == strides@[i + 1] * shape@[i + 1],
{
    let n = shape.len();
    let mut strides: Vec<usize> = Vec::new();
    let mut filled: usize = 0;
    while filled < n
        invariant
            filled <= n,
            strides@.len() == filled,
            forall|j: int| 0 <= j < filled ==> strides@[j] == 1,
        decreases n - filled,
    {
        strides.push(1);
        filled += 1;
    }
    proof {
        lemma_product_end(shape@);
    }
    if n > 0 {
        let mut i: usize = n - 1;
        while i > 0
            invariant
                n == shape@.len(),
                strides@.len() == n,
                i < n,
                strides_fit(shape@),
                forall|j: int| i <= j < n ==> #[trigger] strides@[j] as nat == shape_product(shape@.skip(j + 1)),
            decreases i,
        {
            proof {
                lemma_product_step(shape@, i as int);
                assert(shape_product(shape@.skip((i - 1) + 1)) <= usize::MAX);
                assert(strides@[i as int] as nat == shape_product(shape@.skip(i + 1)));
                assert(shape@[i as int] as nat * shape_product(shape@.skip(i + 1))
                    == strides@[i as int] * shape@[i as int]) by (nonlinear_arith)
                    requires
                        strides@[i as int] as nat == shape_product(shape@.skip(i + 1)),
                ;
            }
            let step: usize = strides[i] * shape[i];
            strides.set(i - 1, step);
            i -= 1;
        }
    }
    proof {
        assert(nats(strides@) =~= canonical_strides(shape@));
        lemma_canonical_strides(shape@);
        assert forall|i: int| 0 <= i < shape@.len() - 1 implies #[trigger] strides@[i] == strides@[i
            + 1] * shape@[i + 1] by {
            assert(nats(strides@)[i] == canonical_strides(shape@)[i]);
            assert(nats(strides@)[i + 1] == canonical_strides(shape@)[i + 1]);
        }
        if n > 0 {
            assert(nats(strides@)[n - 1] == canonical_strides(shape@)[n - 1]);
        }
    }
    strides
}

/// Tells whether every row-major stride of the shape is a machine integer.
pub fn strides_in_range(shape: &[usize]) -> (fits: bool)
    ensures
        fits == strides_fit(shape@),
{
    let n = shape.len();
    if n == 0 {
        return true;
    }
    proof {
        lemma_product_end(shape@);
    }
    let mut i: usize = n - 1;
    let mut step: usize = 1;
    while i > 0
        invariant
            n == shape@.len(),
            i < n,
            step as nat == shape_product(shape@.skip(i + 1)),
            forall|j: int| i <= j < n ==> #[trigger] shape_product(shape@.skip(j + 1)) <= usize::MAX,
        decreases i,
    {
        proof {
            lemma_product_step(shape@, i as int);
            assert(shape@[i as int] as nat * shape_product(shape@.skip(i + 1)) == step * shape@[i as int])
                by (nonlinear_arith)
                requires
                    step as nat == shape_product(shape@.skip(i + 1)),
            ;
        }
        match step.checked_mul(shape[i]) {
            Some(next) => {
                step = next;
            },
            None => {
                proof {
                    assert(shape_product(shape@.skip((i - 1) + 1)) > usize::MAX);
                }
                return false;
            },
        }
        i -= 1;
    }
    true
}

/// The element count of a shape, when it is a machine integer.
pub fn checked_product(shape: &[usize]) -> (count: Option<usize>)
    ensures
        match count {
            Some(p) => p == shape_product(shape@),
            None => shape_product(shape@) > usize::MAX,
        },
{
    let n = shape.len();
    let mut z: usize = 0;
    while z < n
        invariant
            n == shape@.len(),
            z <= n,
            forall|j: int| 0 <= j < z ==> #[trigger] shape@[j] > 0,
        decreases n - z,
    {
        if shape[z] == 0 {
            proof {
                lemma_product_zero(shape@, 0, z as int);
                assert(shape@.skip(0) =~= shape@);
            }
            return Some(0);
        }
        z += 1;
    }
    proof {
        lemma_product_end(shape@);
        assert(shape@.skip(0) =~= shape@);
    }
    let mut i: usize = n;
    let mut acc: usize = 1;
    while i > 0
        invariant
            n == shape@.len(),
            i <= n,
            all_positive(shape@),
            acc as nat == shape_product(shape@.skip(i as int)),
        decreases i,
    {
        proof {
            lemma_product_step(shape@, i - 1);
            lemma_product_monotone(shape@, 0, i - 1);
            assert(shape@[i - 1] as nat * shape_product(shape@.skip(i as int)) == acc * shape@[i - 1])
                by (nonlinear_arith)
                requires
                    acc as nat == shape_product(shape@.skip(i as int)),
            ;
        }
        match acc.checked_mul(shape[i - 1]) {
            Some(next) => {
                acc = next;
            },
            None => {
                proof {
                    assert(shape@.skip(0) =~= shape@);
                    assert(shape_product(shape@.skip(i - 1)) > usize::MAX);
                }
                return None;
            },
        }
        i -= 1;
    }
    Some(acc)
}

/// The element count of a shape that has no more elements than the machine
/// can count.
pub fn element_count(shape: &[usize]) -> (count: usize)
    requires
        shape_product(shape@) <= usize::MAX,
    ensures
        count == shape_product(shape@),
{
    match checked_product(shape) {
        Some(count) => count,
        None => vstd::pervasive::unreached(),
    }
}

/// Tells whether the coordinate tuple has one entry per axis, each below the
/// extent of its axis.
pub fn is_within(coords: &[usize], shape: &[usize]) -> (ok: bool)
    ensures
        ok == within(coords@, shape@),
{
    if coords.len() != shape.len() {
        return false;
    }
    let mut i: usize = 0;
    while i < coords.len()
        invariant
            coords@.len() == shape@.len(),
            i <= coords@.len(),
            forall|j: int| 0 <= j < i ==> #[trigger] coords@[j] < shape@[j],
        decreases coords@.len() - i,
    {
        if coords[i] >= shape[i] {
            return false;
        }
        i += 1;
    }
    true
}

/// Tells whether `dims` names every axis below its own length exactly once.
pub fn is_valid_perm(dims: &[usize]) -> (valid: bool)
    ensures
        valid == is_permutation(dims@, dims@.len()),
{
    let n = dims.len();
    let mut seen: Vec<bool> = Vec::new();
    let mut filled: usize = 0;
    while filled < n
        invariant
            filled <= n,
            seen@.len() == filled,
            forall|d: int| 0 <= d < filled ==> !seen@[d],
        decreases n - filled,
    {
        seen.push(false);
        filled += 1;
    }
    let mut i: usize = 0;
    while i < n
        invariant
            n == dims@.len(),
            seen@.len() == n,
            i <= n,
            forall|j: int| 0 <= j < i ==> #[trigger] dims@[j] < n,
            forall|j: int, k: int| 0 <= j < k < i ==> #[trigger] dims@[j] != #[trigger] dims@[k],
            forall|d: int| 0 <= d < n && #[trigger] seen@[d] ==> exists|j: int| 0 <= j < i && dims@[j] == d,
            forall|j: int| 0 <= j < i ==> seen@[#[trigger] dims@[j] as int],
        decreases n - i,
    {
        let d = dims[i];
        if d >= n {
            return false;
        }
        if seen[d] {
            proof {
                let j = choose|j: int| 0 <= j < i && dims@[j] == d;
                assert(dims@[j] == dims@[i as int]);
            }
            return false;
        }
        seen.set(d, true);
        i += 1;
    }
    true
}

/// Raising coordinates never lowers the buffer position.
pub proof fn lemma_linear_index_monotone(low: Seq<usize>, high: Seq<usize>, strides: Seq<usize>)
    requires
        low.len() == high.len(),
        high.len() == strides.len(),
        forall|i: int| 0 <= i < low.len() ==> low[i] <= high[i],
    ensures
        linear_index(low, strides) <= linear_index(high, strides),
    decreases low.len(),
{
    if low.len() > 0 {
        lemma_linear_index_monotone(low.drop_last(), high.drop_last(), strides.drop_last());
        let a = low.last() as nat;
        let b = high.last() as nat;
        let s = strides.last() as nat;
        assert(a * s <= b * s) by (nonlinear_arith)
            requires
                a <= b,
        ;
    }
}

/// The buffer position of a pair of coordinates.
pub proof fn lemma_linear_index_pair(i: usize, j: usize, strides: Seq<usize>)
    requires
        strides.len() == 2,
    ensures
        linear_index(pair(i, j), strides) == i as nat * strides[0] as nat + j as nat * strides[1] as nat,
{
    let c = pair(i, j);
    assert(c.drop_last() =~= seq![i]);
    assert(strides.drop_last() =~= seq![strides[0]]);
    assert(seq![i].drop_last() =~= Seq::<usize>::empty());
    assert(seq![strides[0]].drop_last() =~= Seq::<usize>::empty());
    assert(linear_index(Seq::<usize>::empty(), Seq::<usize>::empty()) == 0);
    assert(linear_index(seq![i], seq![strides[0]]) == i as nat * strides[0] as nat);
}

/// A shape that describes at least one element has no zero extent.
pub proof fn lemma_positive_extents(shape: Seq<usize>)
    requires
        shape_product(shape) > 0,
    ensures
        all_positive(shape),
{
    assert(shape.skip(0) =~= shape);
    assert forall|i: int| 0 <= i < shape.len() implies #[trigger] shape[i] > 0 by {
        if shape[i] == 0 {
            lemma_product_zero(shape, 0, i);
        }
    }
}

/// The first `i` coordinates of a position account for all of it but its
/// remainder by the element count of the axes that follow.
proof fn lemma_unravel_prefix(position: nat, shape: Seq<usize>, strides: Seq<usize>, i: int)
    requires
        nats(strides) == canonical_strides(shape),
        position < shape_product(shape),
        0 <= i <= shape.len(),
    ensures
        linear_index(unravel(position, shape).take(i), strides.take(i)) + position % shape_product(
            shape.skip(i),
        ) == position,
    decreases i,
{
    let coords = unravel(position, shape);
    lemma_positive_extents(shape);
    assert(nats(strides).len() == strides.len());
    assert(canonical_strides(shape).len() == shape.len());
    if i == 0 {
        assert(shape.skip(0) =~= shape);
        lemma_small_mod(position, shape_product(shape));
        assert(coords.take(0).len() == 0);
    } else {
        let j = i - 1;
        lemma_unravel_prefix(position, shape, strides, j);
        lemma_linear_index_step(coords, strides, j);
        lemma_product_step(shape, j);
        lemma_product_monotone(shape, 0, j + 1);
        let step = shape_product(shape.skip(j + 1));
        let extent = shape[j] as nat;
        assert(nats(strides)[j] == canonical_strides(shape)[j]);
        assert(strides[j] as nat == step);
        assert(extent > 0);
        lemma_mod_breakdown(position as int, step as int, extent as int);
        lemma_mod_bound(position as int / step as int, extent as int);
        assert(coords[j] as nat == (position / step) % extent);
        assert(step * extent == extent * step) by (nonlinear_arith);
        assert(coords[j] as nat * strides[j] as nat == step * ((position / step) % extent))
            by (nonlinear_arith)
            requires
                coords[j] as nat == (position / step) % extent,
                strides[j] as nat == step,
        ;
    }
}

/// The coordinates of a position lie within the shape, and their buffer
/// position under the row-major strides is the position itself.
pub proof fn lemma_unravel(position: nat, shape: Seq<usize>, strides: Seq<usize>)
    requires
        nats(strides) == canonical_strides(shape),
        position < shape_product(shape),
    ensures
        within(unravel(position, shape), shape),
        linear_index(unravel(position, shape), strides) == position,
{
    let coords = unravel(position, shape);
    let n = shape.len() as int;
    lemma_positive_extents(shape);
    assert(nats(strides).len() == strides.len());
    assert(canonical_strides(shape).len() == shape.len());
    assert forall|i: int| 0 <= i < coords.len() implies #[trigger] coords[i] < shape[i] by {
        lemma_mod_bound(position as int / canonical_strides(shape)[i] as int, shape[i] as int);
    }
    lemma_unravel_prefix(position, shape, strides, n);
    lemma_product_end(shape);
    assert(coords.take(n) =~= coords);
    assert(strides.take(n) =~= strides);
}

/// The coordinates of the element at `position` in row-major order, given
/// the shape and its row-major strides.
pub fn unravel_index(position: usize, shape: &[usize], strides: &[usize]) -> (coords: Vec<usize>)
    requires
        nats(strides@) == canonical_strides(shape@),
        position < shape_product(shape@),
    ensures
        coords@ == unravel(position as nat, shape@),
        within(coords@, shape@),
{
    let n = shape.len();
    proof {
        lemma_positive_extents(shape@);
        assert(nats(strides@).len() == strides@.len());
        assert(canonical_strides(shape@).len() == shape@.len());
    }
    let mut coords: Vec<usize> = Vec::new();
    let mut i: usize = 0;
    while i < n
        invariant
            n == shape@.len(),
            n == strides@.len(),
            nats(strides@) == canonical_strides(shape@),
            all_positive(shape@),
            i <= n,
            coords@.len() == i,
            forall|j: int| 0 <= j < i ==> #[trigger] coords@[j] == unravel(position as nat, shape@)[j],
            forall|j: int| 0 <= j < i ==> #[trigger] coords@[j] < shape@[j],
        decreases n - i,
    {
        proof {
            lemma_product_monotone(shape@, 0, i + 1);
            assert(nats(strides@)[i as int] == canonical_strides(shape@)[i as int]);
            assert(shape@[i as int] > 0);
        }
        let step = strides[i];
        let extent = shape[i];
        let c: usize = (position / step) % extent;
        coords.push(c);
        i += 1;
    }
    proof {
        assert(coords@ =~= unravel(position as nat, shape@));
    }
    coords
}

} // verus!
