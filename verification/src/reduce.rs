//! Reductions: the sum of all elements, and the sum along one axis.

use crate::error::TensorError;
use crate::layout::{
    canonical_strides, compute_strides, element_count, lemma_vector_shape,
    nats, shape_product, strides_fit, unravel, unravel_index, within,
};
use crate::tensor::{Tensor, TensorView};
use core::ops::Add;
use vstd::prelude::*;
use vstd::std_specs::ops::AddSpec;

verus! {

/// `acc` is a sum of `prev` and `x`.
pub open spec fn adds<T: Add<Output = T>>(prev: T, x: T, acc: T) -> bool {
    call_ensures(T::add, (prev, x), acc)
}

/// `acc` is a value that adding the first `steps` terms to the additive
/// identity, one after the other, can give.
pub open spec fn sum_reaches<T: Default + Add<Output = T>>(terms: Seq<T>, steps: nat, acc: T) -> bool
    decreases steps,
{
    if steps == 0 {
        call_ensures(T::default, (), acc)
    } else {
        exists|prev: T|
            sum_reaches(terms, (steps - 1) as nat, prev) && #[trigger] adds(prev, terms[steps - 1], acc)
    }
}

/// `acc` is a sum of all the terms.
pub open spec fn is_total<T: Default + Add<Output = T>>(terms: Seq<T>, acc: T) -> bool {
    sum_reaches(terms, terms.len(), acc)
}

/// After `steps` terms the sum can stand at `prev`, and another term follows.
pub open spec fn sum_offers<T: Default + Add<Output = T>>(terms: Seq<T>, steps: nat, prev: T) -> bool {
    steps < terms.len() && sum_reaches(terms, steps, prev)
}

/// Every addition of the sum is one that the element type admits.
pub open spec fn sum_admitted<T: Default + Add<Output = T>>(terms: Seq<T>) -> bool {
    forall|steps: nat, prev: T| #[trigger]
        sum_offers(terms, steps, prev) ==> call_requires(T::add, (prev, terms[steps as int]))
}

/// Extends a sum by one term.
pub proof fn lemma_sum_extend<T: Default + Add<Output = T>>(terms: Seq<T>, steps: nat, prev: T, acc: T)
    requires
        sum_reaches(terms, steps, prev),
        adds(prev, terms[steps as int], acc),
    ensures
        sum_reaches(terms, steps + 1, acc),
{
    let next = steps + 1;
    assert(sum_reaches(terms, (next - 1) as nat, prev));
    assert(adds(prev, terms[next - 1], acc));
}

/// Where the element type's addition is a function of its operands and its
/// additive identity is one value, a sum has one value.
pub proof fn lemma_sum_deterministic<T: Default + Add<Output = T>>(
    terms: Seq<T>,
    steps: nat,
    first: T,
    second: T,
)
    requires
        T::obeys_add_spec(),
        forall|x: T, y: T| call_ensures(T::default, (), x) && call_ensures(T::default, (), y) ==> x == y,
        sum_reaches(terms, steps, first),
        sum_reaches(terms, steps, second),
    ensures
        first == second,
    decreases steps,
{
    if steps > 0 {
        let prev_a = choose|prev: T|
            sum_reaches(terms, (steps - 1) as nat, prev) && #[trigger] adds(prev, terms[steps - 1], first);
        let prev_b = choose|prev: T|
            sum_reaches(terms, (steps - 1) as nat, prev) && #[trigger] adds(prev, terms[steps - 1], second);
        lemma_sum_deterministic(terms, (steps - 1) as nat, prev_a, prev_b);
        assert(first == prev_a.add_spec(terms[steps - 1]));
        assert(second == prev_b.add_spec(terms[steps - 1]));
    }
}

impl<T> TensorView<T> {
    /// The shape with the extent of `axis` set to one.
    pub open spec fn collapsed(self, axis: int) -> Seq<usize> {
        self.shape.update(axis, 1usize)
    }

    /// The elements along `axis` that share all other coordinates with the
    /// element at row-major `position` of the collapsed shape.
    pub open spec fn fiber(self, axis: int, position: nat) -> Seq<T> {
        Seq::new(
            self.shape[axis] as nat,
            |t: int| self.at(unravel(position, self.collapsed(axis)).update(axis, t as usize)),
        )
    }
}

/// Why the sum along `axis` is refused, if it is.
pub open spec fn reduce_refusal<T>(source: TensorView<T>, axis: usize) -> Option<TensorError> {
    if axis >= source.rank() {
        Some(TensorError::InvalidAxis)
    } else if !source.all_addressable() {
        Some(TensorError::IndexOutOfBounds)
    } else {
        None
    }
}

/// `out` holds the sum of all elements of `source` as a tensor of one
/// element.
pub open spec fn is_full_sum<T: Default + Add<Output = T>>(source: TensorView<T>, out: TensorView<T>) -> bool {
    &&& out.shape == seq![1usize]
    &&& out.strides == seq![1usize]
    &&& out.is_row_major()
    &&& out.offset == 0
    &&& out.data.len() == 1
    &&& is_total(source.data, out.data[0])
}

/// `out` holds the sums of `source` along `axis`: it has the shape of
/// `source` with that axis collapsed to one, in row-major layout, and each
/// of its elements is a sum of the fiber of `source` through it.
pub open spec fn is_axis_sum<T: Default + Add<Output = T>>(
    source: TensorView<T>,
    axis: int,
    out: TensorView<T>,
) -> bool {
    &&& out.shape == source.collapsed(axis)
    &&& out.is_row_major()
    &&& out.offset == 0
    &&& out.data.len() == shape_product(out.shape)
    &&& forall|p: int|
        0 <= p < out.data.len() ==> is_total(source.fiber(axis, p as nat), #[trigger] out.data[p])
}

/// What `sum` asks of its input, beyond a well-formed tensor: that every
/// addition is admitted, and that the result has a size the machine can hold.
pub open spec fn sum_ready<T: Default + Add<Output = T>>(source: TensorView<T>, axis: Option<usize>) -> bool {
    match axis {
        None => sum_admitted(source.data),
        Some(a) => reduce_refusal(source, a) is None ==> {
            &&& shape_product(source.collapsed(a as int)) <= usize::MAX
            &&& strides_fit(source.collapsed(a as int))
            &&& forall|p: nat|
                p < shape_product(source.collapsed(a as int)) ==> sum_admitted(
                    #[trigger] source.fiber(a as int, p),
                )
        },
    }
}

impl<T: Clone + Copy + Default + Add<Output = T>> Tensor<T> {
    /// The sum of a sequence of elements, added in order to the additive
    /// identity.
    fn total(terms: &[T]) -> (acc: T)
        requires
            sum_admitted(terms@),
        ensures
            is_total(terms@, acc),
    {
        let mut acc = T::default();
        let mut i: usize = 0;
        while i < terms.len()
            invariant
                i <= terms@.len(),
                sum_admitted(terms@),
                sum_reaches(terms@, i as nat, acc),
            decreases terms@.len() - i,
        {
            proof {
                assert(sum_offers(terms@, i as nat, acc));
            }
            let next = acc + terms[i];
            proof {
                lemma_sum_extend(terms@, i as nat, acc, next);
            }
            acc = next;
            i += 1;
        }
        acc
    }

    /// The sum of the fiber along `axis` through the given coordinates.
    fn fiber_total(&self, coords: Vec<usize>, axis: usize, position: usize) -> (res: Result<T, TensorError>)
        requires
            self.wf(),
            axis < self@.rank(),
            self@.all_addressable(),
            coords@ == unravel(position as nat, self@.collapsed(axis as int)),
            within(coords@, self@.collapsed(axis as int)),
            sum_admitted(self@.fiber(axis as int, position as nat)),
        ensures
            res matches Ok(acc) && is_total(self@.fiber(axis as int, position as nat), acc),
    {
        let ghost fiber = self@.fiber(axis as int, position as nat);
        let ghost base = coords@;
        let extent = self.get_shape()[axis];
        let mut coords = coords;
        let mut acc = T::default();
        let mut t: usize = 0;
        while t < extent
            invariant
                self.wf(),
                axis < self@.rank(),
                self@.all_addressable(),
                extent == self@.shape[axis as int],
                fiber == self@.fiber(axis as int, position as nat),
                base == unravel(position as nat, self@.collapsed(axis as int)),
                within(base, self@.collapsed(axis as int)),
                coords@.len() == base.len(),
                forall|i: int| 0 <= i < base.len() && i != axis ==> coords@[i] == base[i],
                sum_admitted(fiber),
                t <= extent,
                sum_reaches(fiber, t as nat, acc),
            decreases extent - t,
        {
            coords.set(axis, t);
            proof {
                assert(coords@ =~= base.update(axis as int, t));
                assert forall|i: int| 0 <= i < coords@.len() implies #[trigger] coords@[i] < self@.shape[i] by {
                    if i != axis {
                        assert(base[i] < self@.collapsed(axis as int)[i]);
                    }
                }
                assert(within(coords@, self@.shape));
            }
            let x: T = match self.get(coords.as_slice()) {
                Ok(value) => *value,
                Err(e) => {
                    return Err(e);
                },
            };
            proof {
                assert(x == fiber[t as int]);
                assert(sum_offers(fiber, t as nat, acc));
            }
            let next = acc + x;
            proof {
                lemma_sum_extend(fiber, t as nat, acc, next);
            }
            acc = next;
            t += 1;
        }
        Ok(acc)
    }

    /// The sum of the elements: of all of them, as a tensor of one element,
    /// or along one axis, which is kept with the extent one.
    pub fn sum(&self, axis: Option<usize>) -> (res: Result<Self, TensorError>)
        requires
            self.wf(),
            sum_ready(self@, axis),
        ensures
            match (axis, res) {
                (None, Ok(out)) => out.wf() && is_full_sum(self@, out@),
                (None, Err(_)) => false,
                (Some(a), Ok(out)) => reduce_refusal(self@, a) is None && out.wf() && is_axis_sum(
                    self@,
                    a as int,
                    out@,
                ),
                (Some(a), Err(e)) => reduce_refusal(self@, a) == Some(e),
            },
    {
        match axis {
            None => {
                let acc = Self::total(self.get_data());
                let data: Vec<T> = vec![acc];
                let shape: Vec<usize> = vec![1];
                let strides: Vec<usize> = vec![1];
                proof {
                    assert(shape@ =~= seq![1usize]);
                    assert(strides@ =~= seq![1usize]);
                    lemma_vector_shape(1);
                    assert(nats(strides@) =~= seq![1nat]);
                }
                Ok(Tensor::from_parts(data, shape, strides, 0))
            },
            Some(axis) => {
                if axis >= self.get_shape().len() {
                    return Err(TensorError::InvalidAxis);
                }
                if !self.is_addressable() {
                    return Err(TensorError::IndexOutOfBounds);
                }
                let mut kept = vstd::slice::slice_to_vec(self.get_shape());
                kept.set(axis, 1);
                proof {
                    assert(kept@ =~= self@.collapsed(axis as int));
                }
                let total = element_count(kept.as_slice());
                let strides = compute_strides(kept.as_slice());
                let mut data: Vec<T> = Vec::new();
                let mut p: usize = 0;
                while p < total
                    invariant
                        self.wf(),
                        axis < self@.rank(),
                        self@.all_addressable(),
                        kept@ == self@.collapsed(axis as int),
                        total == shape_product(kept@),
                        nats(strides@) == canonical_strides(kept@),
                        forall|q: nat|
                            q < shape_product(self@.collapsed(axis as int)) ==> sum_admitted(
                                #[trigger] self@.fiber(axis as int, q),
                            ),
                        p <= total,
                        data@.len() == p,
                        forall|q: int|
                            0 <= q < p ==> is_total(self@.fiber(axis as int, q as nat), #[trigger] data@[q]),
                    decreases total - p,
                {
                    let coords = unravel_index(p, kept.as_slice(), strides.as_slice());
                    proof {
                        assert(sum_admitted(self@.fiber(axis as int, p as nat)));
                    }
                    match self.fiber_total(coords, axis, p) {
                        Ok(acc) => {
                            data.push(acc);
                        },
                        Err(e) => {
                            return Err(e);
                        },
                    }
                    p += 1;
                }
                Ok(Tensor::from_parts(data, kept, strides, 0))
            },
        }
    }
}

} // verus!
