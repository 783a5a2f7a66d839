//! Operators that reduce a tensor along a dimension.
use crate::dispatch::{
    can_fill, can_view, dyn_sizes, fills, input_dyn_dims, lemma_dyn_size_of_letter, low_word,
    to_word, view_ready, Binding, Dispatch, Plan,
};
use crate::kernel::{requested, runs, Kernels};
use crate::shape::{
    checked_product_of, lemma_product_add, product, product_fits, product_of, resolved, size,
    without_dim, Dim, ShapeTracker,
};
use crate::source::{
    max_reduce_source, max_reduce_template, sum_reduce_source, sum_reduce_template, symbols,
    REDUCE_SLOTS,
};
use crate::tensor::{are_on_device, on_device, Tensor};
use std::rc::Rc;
use vstd::arithmetic::div_mod::{lemma_fundamental_div_mod, lemma_fundamental_div_mod_converse};
use vstd::prelude::*;

verus! {

/// A run that reduces dimension `dim` of an input of dimensions `actual`, with the actual sizes
/// of the planned letters.
pub open spec fn reduce_plan(
    kernel: nat,
    dim: int,
    planned: Seq<Dim>,
    actual: Seq<Dim>,
) -> Plan {
    let n = product(actual.remove(dim));
    Plan {
        kernel,
        out_bytes: 4 * n,
        bindings: seq![
            Binding::Input(0),
            Binding::Output,
            Binding::Int(low_word(n)),
            Binding::Int(low_word(product(actual.take(dim)))),
            Binding::Int(low_word(product(actual.skip(dim + 1)))),
            Binding::Int(low_word(size(actual[dim]))),
        ] + dyn_sizes(planned, actual),
        n_elements: n,
    }
}

/// What a reduction needs: an input on the device under a view known throughout that has the
/// dimension, and an output that memory can hold.
pub open spec fn reduce_ready(
    shape: &ShapeTracker,
    dim: int,
    inputs: Seq<Tensor>,
) -> bool {
    let dims = inputs[0].1.dims@;
    &&& on_device(inputs, 1)
    &&& 0 <= dim < dims.len()
    &&& dims[dim] is Known
    &&& view_ready(dims.remove(dim))
    &&& product_fits(dims.take(dim))
    &&& product_fits(dims.skip(dim + 1))
    &&& fills(shape.dims@, dims)
}

/// Tests what a reduction needs.
pub fn can_run_reduce(shape: &ShapeTracker, dim: usize, inputs: &Vec<Tensor>) -> (res: bool)
    ensures
        res == reduce_ready(shape, dim as int, inputs@),
{
    if !are_on_device(inputs, 1) {
        return false;
    }
    let dims = &inputs[0].1.dims;
    let rank = dims.len();
    if dim >= rank || dims[dim].to_usize().is_none() {
        return false;
    }
    let left = without_dim(dims, dim);
    if !can_view(&left) {
        return false;
    }
    proof {
        lemma_resolved_without(dims@, dim as int);
        assert(dims@.subrange(0, dim as int) =~= dims@.take(dim as int));
        assert(dims@.subrange(dim + 1, dims@.len() as int) =~= dims@.skip(dim + 1));
    }
    checked_product_of(dims, 0, dim).is_some() && checked_product_of(
        dims,
        dim + 1,
        rank,
    ).is_some() && can_fill(&shape.dims, dims)
}

/// Dimensions of which all but one are known and that one is are known throughout.
proof fn lemma_resolved_without(dims: Seq<Dim>, dim: int)
    requires
        0 <= dim < dims.len(),
        dims[dim] is Known,
        resolved(dims.remove(dim)),
    ensures
        resolved(dims),
        resolved(dims.take(dim)),
        resolved(dims.skip(dim + 1)),
{
    let left = dims.remove(dim);
    assert forall|i: int| 0 <= i < dims.len() implies (#[trigger] dims[i]) is Known by {
        if i < dim {
            assert(left[i] is Known);
        } else if i > dim {
            assert(left[i - 1] is Known);
        }
    }
}

/// The run of a kernel that reduces a dimension.
fn reduce_dispatch(
    kernel: usize,
    dim: usize,
    shape: &ShapeTracker,
    inputs: &Vec<Tensor>,
) -> (d: Dispatch)
    requires
        reduce_ready(shape, dim as int, inputs@),
    ensures
        d@ == reduce_plan(kernel as nat, dim as int, shape.dims@, inputs[0].1.dims@),
{
    let dims = &inputs[0].1.dims;
    let rank = dims.len();
    let left = without_dim(dims, dim);
    proof {
        lemma_resolved_without(dims@, dim as int);
        assert(left@.subrange(0, left@.len() as int) =~= left@);
        assert(dims@.subrange(0, dim as int) =~= dims@.take(dim as int));
        assert(dims@.subrange(dim + 1, dims@.len() as int) =~= dims@.skip(dim + 1));
    }
    let n = product_of(&left, 0, left.len());
    let front = product_of(dims, 0, dim);
    let back = product_of(dims, dim + 1, rank);
    assert(dims@[dim as int] is Known);
    let along = match dims[dim].to_usize() {
        Some(m) => m,
        None => 0,
    };
    let mut bindings = vec![
        Binding::Input(0),
        Binding::Output,
        Binding::Int(to_word(n)),
        Binding::Int(to_word(front)),
        Binding::Int(to_word(back)),
        Binding::Int(to_word(along)),
    ];
    input_dyn_dims(&shape.dims, dims, &mut bindings);
    let d = Dispatch { kernel, out_bytes: (n * 4) as u64, bindings, n_elements: n };
    proof {
        assert(d@.bindings =~= reduce_plan(
            kernel as nat,
            dim as int,
            shape.dims@,
            dims@,
        ).bindings);
    }
    d
}

/// Sums along a dimension.
#[derive(Clone, Debug)]
pub struct MetalSumReduce {
    pub kernel: usize,
    pub dim: usize,
    pub shape: Rc<ShapeTracker>,
}

impl PartialEq for MetalSumReduce {
    fn eq(&self, _other: &Self) -> (res: bool) {
        false
    }
}

impl vstd::std_specs::cmp::PartialEqSpecImpl for MetalSumReduce {
    open spec fn obeys_eq_spec() -> bool {
        true
    }

    open spec fn eq_spec(&self, _other: &Self) -> bool {
        false
    }
}

impl MetalSumReduce {
    /// The operator for an input of this view and a dimension, with its kernel among `kernels`.
    pub fn new(shape: Rc<ShapeTracker>, dim: usize, kernels: &mut Kernels) -> (res: Self)
        requires
            old(kernels).wf(),
        ensures
            final(kernels).wf(),
            final(kernels)@ == requested(old(kernels)@, sum_reduce_source(&shape)),
            runs(final(kernels)@, res.kernel as nat, sum_reduce_source(&shape)),
            res.dim == dim,
            res.shape == shape,
    {
        let code = sum_reduce_template(&shape);
        MetalSumReduce { kernel: kernels.request(code.as_str()), dim, shape }
    }

    /// The run on an input.
    pub fn process(&self, inputs: &Vec<Tensor>) -> (d: Dispatch)
        requires
            reduce_ready(&self.shape, self.dim as int, inputs@),
        ensures
            d@ == reduce_plan(
                self.kernel as nat,
                self.dim as int,
                self.shape.dims@,
                inputs[0].1.dims@,
            ),
    {
        reduce_dispatch(self.kernel, self.dim, &self.shape, inputs)
    }
}

/// Takes the maximum along a dimension.
#[derive(Clone, Debug)]
pub struct MetalMaxReduce {
    pub kernel: usize,
    pub dim: usize,
    pub shape: Rc<ShapeTracker>,
}

impl PartialEq for MetalMaxReduce {
    fn eq(&self, _other: &Self) -> (res: bool) {
        false
    }
}

impl vstd::std_specs::cmp::PartialEqSpecImpl for MetalMaxReduce {
    open spec fn obeys_eq_spec() -> bool {
        true
    }

    open spec fn eq_spec(&self, _other: &Self) -> bool {
        false
    }
}

impl MetalMaxReduce {
    /// The operator for an input of this view and a dimension, with its kernel among `kernels`.
    pub fn new(shape: Rc<ShapeTracker>, dim: usize, kernels: &mut Kernels) -> (res: Self)
        requires
            old(kernels).wf(),
        ensures
            final(kernels).wf(),
            final(kernels)@ == requested(old(kernels)@, max_reduce_source(&shape)),
            runs(final(kernels)@, res.kernel as nat, max_reduce_source(&shape)),
            res.dim == dim,
            res.shape == shape,
    {
        let code = max_reduce_template(&shape);
        MetalMaxReduce { kernel: kernels.request(code.as_str()), dim, shape }
    }

    /// The run on an input.
    pub fn process(&self, inputs: &Vec<Tensor>) -> (d: Dispatch)
        requires
            reduce_ready(&self.shape, self.dim as int, inputs@),
        ensures
            d@ == reduce_plan(
                self.kernel as nat,
                self.dim as int,
                self.shape.dims@,
                inputs[0].1.dims@,
            ),
    {
        reduce_dispatch(self.kernel, self.dim, &self.shape, inputs)
    }
}

/// Each letter among the planned dimensions has the buffer slot that the kernel declares for it:
/// there the actual size of a dimension of that letter is bound.
pub proof fn lemma_reduce_letters(
    kernel: nat,
    dim: int,
    planned: Seq<Dim>,
    actual: Seq<Dim>,
    k: int,
) -> (i: int)
    requires
        planned.len() == actual.len(),
        0 <= k < symbols(planned).len(),
    ensures
        0 <= i < planned.len(),
        planned[i] == Dim::Unknown(symbols(planned)[k]),
        reduce_plan(kernel, dim, planned, actual).bindings.len() == REDUCE_SLOTS + symbols(planned).len(),
        reduce_plan(kernel, dim, planned, actual).bindings[REDUCE_SLOTS + k] == Binding::Int(
            low_word(size(actual[i])),
        ),
{
    lemma_dyn_size_of_letter(planned, actual, k)
}

/// A reduction hands back one element for each in front of and behind the dimension, and reads
/// as many for each as the dimension has.
pub proof fn lemma_reduce_sizes(dims: Seq<Dim>, dim: int)
    requires
        0 <= dim < dims.len(),
    ensures
        product(dims.remove(dim)) == product(dims.take(dim)) * product(dims.skip(dim + 1)),
        product(dims) == product(dims.take(dim)) * size(dims[dim]) * product(dims.skip(dim + 1)),
{
    let front = dims.take(dim);
    let back = dims.skip(dim + 1);
    assert(dims.remove(dim) =~= front + back);
    lemma_product_add(front, back);
    assert(dims =~= front.push(dims[dim]) + back);
    lemma_product_add(front.push(dims[dim]), back);
    assert(front.push(dims[dim]).drop_last() =~= front);
}

/// The element that a reduction reads for its result `i` at `c` along the dimension, where the
/// dimension has `along` elements and there are `back` behind it.
pub open spec fn reduced_index(i: int, c: int, along: int, back: int) -> int {
    (i / back) * along * back + c * back + i % back
}

/// Every result of a reduction reads elements that are there.
pub proof fn lemma_reduced_index_within(dims: Seq<Dim>, dim: int, i: int, c: int)
    requires
        0 <= dim < dims.len(),
        0 <= i < product(dims.remove(dim)),
        0 <= c < size(dims[dim]),
    ensures
        0 <= reduced_index(
            i,
            c,
            size(dims[dim]) as int,
            product(dims.skip(dim + 1)) as int,
        ) < product(dims),
{
    let front = product(dims.take(dim)) as int;
    let back = product(dims.skip(dim + 1)) as int;
    let along = size(dims[dim]) as int;
    lemma_reduce_sizes(dims, dim);
    assert(back > 0) by (nonlinear_arith)
        requires
            0 <= i < front * back,
            back >= 0,
    ;
    let a = i / back;
    let b = i % back;
    assert(0 <= b < back && i == a * back + b && 0 <= a) by (nonlinear_arith)
        requires
            back > 0,
            a == i / back,
            b == i % back,
            i >= 0,
    ;
    assert(a < front) by (nonlinear_arith)
        requires
            i == a * back + b,
            i < front * back,
            0 <= b,
            back > 0,
    ;
    assert(0 <= a * along * back + c * back + b < front * along * back) by (nonlinear_arith)
        requires
            0 <= a < front,
            0 <= c < along,
            0 <= b < back,
    ;
}

/// The place of an element tells the result that reads it and where along the dimension.
pub proof fn lemma_reduced_index_parts(i: int, c: int, along: int, back: int)
    requires
        0 <= i,
        0 <= c < along,
        0 < back,
    ensures
        reduced_index(i, c, along, back) / back / along == i / back,
        reduced_index(i, c, along, back) / back % along == c,
        reduced_index(i, c, along, back) % back == i % back,
{
    let a = i / back;
    let b = i % back;
    let e = reduced_index(i, c, along, back);
    assert(0 <= b < back) by (nonlinear_arith)
        requires
            back > 0,
            b == i % back,
    ;
    assert(e == (a * along + c) * back + b) by (nonlinear_arith)
        requires
            e == a * along * back + c * back + b,
    ;
    lemma_fundamental_div_mod_converse(e, back, a * along + c, b);
    lemma_fundamental_div_mod_converse(a * along + c, along, a, c);
}

/// No element is read twice.
pub proof fn lemma_reduced_index_once(i: int, c: int, j: int, d: int, along: int, back: int)
    requires
        0 <= i,
        0 <= j,
        0 <= c < along,
        0 <= d < along,
        0 < back,
        reduced_index(i, c, along, back) == reduced_index(j, d, along, back),
    ensures
        i == j,
        c == d,
{
    lemma_reduced_index_parts(i, c, along, back);
    lemma_reduced_index_parts(j, d, along, back);
    lemma_fundamental_div_mod(i, back);
    lemma_fundamental_div_mod(j, back);
}

/// Every element is read: the result that reads element `e`, and where along the dimension.
pub proof fn lemma_reduced_index_covers(dims: Seq<Dim>, dim: int, e: int) -> (res: (int, int))
    requires
        0 <= dim < dims.len(),
        0 <= e < product(dims),
    ensures
        0 <= res.0 < product(dims.remove(dim)),
        0 <= res.1 < size(dims[dim]),
        reduced_index(
            res.0,
            res.1,
            size(dims[dim]) as int,
            product(dims.skip(dim + 1)) as int,
        ) == e,
{
    let front = product(dims.take(dim)) as int;
    let back = product(dims.skip(dim + 1)) as int;
    let along = size(dims[dim]) as int;
    lemma_reduce_sizes(dims, dim);
    assert(back > 0 && along > 0 && front > 0) by (nonlinear_arith)
        requires
            0 <= e < front * along * back,
            front >= 0,
            back >= 0,
            along >= 0,
    ;
    let q = e / back;
    let b = e % back;
    let a = q / along;
    let c = q % along;
    let i = a * back + b;
    lemma_fundamental_div_mod(e, back);
    lemma_fundamental_div_mod(q, along);
    assert(0 <= b < back && 0 <= c < along && 0 <= q) by (nonlinear_arith)
        requires
            back > 0,
            along > 0,
            e >= 0,
            b == e % back,
            q == e / back,
            c == q % along,
    ;
    assert(0 <= a) by (nonlinear_arith)
        requires
            along > 0,
            q >= 0,
            a == q / along,
    ;
    assert(e == a * along * back + c * back + b) by (nonlinear_arith)
        requires
            e == back * q + b,
            q == along * a + c,
    ;
    assert(a < front) by (nonlinear_arith)
        requires
            e == a * along * back + c * back + b,
            e < front * along * back,
            0 <= b,
            0 <= c,
            along > 0,
            back > 0,
    ;
    assert(0 <= i < front * back) by (nonlinear_arith)
        requires
            i == a * back + b,
            0 <= a < front,
            0 <= b < back,
    ;
    lemma_fundamental_div_mod_converse(i, back, a, b);
    (i, c)
}

} // verus!
