//! Operators on the elements of two tensors in pairs.
use crate::dispatch::{
    can_fill, can_view, dyn_sizes, fills, input_dyn_dims, lemma_dyn_size_of_letter, low_word,
    to_word, view_ready, Binding, Dispatch, Plan,
};
use crate::kernel::{requested, runs, Kernels};
use crate::shape::{product, size, Dim, ShapeTracker};
use crate::source::{
    add_source, add_template, joint_dims, less_than_source, less_than_template, mod_source,
    mod_template, mul_source, mul_template, symbols, BINARY_SLOTS,
};
use crate::tensor::{are_on_device, on_device, Tensor};
use std::rc::Rc;
use vstd::prelude::*;

verus! {

/// A run over the `n` elements of the output, with the actual sizes of the planned letters.
pub open spec fn binary_plan(
    kernel: nat,
    n: nat,
    planned: Seq<Dim>,
    actual: Seq<Dim>,
) -> Plan {
    Plan {
        kernel,
        out_bytes: 4 * n,
        bindings: seq![
            Binding::Input(0),
            Binding::Input(1),
            Binding::Output,
            Binding::Int(low_word(n)),
        ] + dyn_sizes(planned, actual),
        n_elements: n,
    }
}

/// What a run on two inputs needs: both on the device, with a size for each planned letter, the
/// first view known throughout, and an output that memory can hold.
pub open spec fn binary_ready(
    a_shape: &ShapeTracker,
    b_shape: &ShapeTracker,
    inputs: Seq<Tensor>,
) -> bool {
    &&& on_device(inputs, 2)
    &&& view_ready(inputs[0].1.dims@)
    &&& fills(a_shape.dims@, inputs[0].1.dims@)
    &&& fills(b_shape.dims@, inputs[1].1.dims@)
}

/// Tests what a run on two inputs needs.
pub fn can_run_binary(
    a_shape: &ShapeTracker,
    b_shape: &ShapeTracker,
    inputs: &Vec<Tensor>,
) -> (res: bool)
    ensures
        res == binary_ready(a_shape, b_shape, inputs@),
{
    are_on_device(inputs, 2) && can_view(&inputs[0].1.dims) && can_fill(
        &a_shape.dims,
        &inputs[0].1.dims,
    ) && can_fill(&b_shape.dims, &inputs[1].1.dims)
}

/// The run of a kernel over the elements of two tensors in pairs.
fn binary_dispatch(
    kernel: usize,
    a_shape: &ShapeTracker,
    b_shape: &ShapeTracker,
    inputs: &Vec<Tensor>,
) -> (d: Dispatch)
    requires
        binary_ready(a_shape, b_shape, inputs@),
    ensures
        d@ == binary_plan(
            kernel as nat,
            product(inputs[0].1.dims@),
            a_shape.dims@ + b_shape.dims@,
            inputs[0].1.dims@ + inputs[1].1.dims@,
        ),
{
    let n = inputs[0].1.n_elements();
    let mut bindings = vec![
        Binding::Input(0),
        Binding::Input(1),
        Binding::Output,
        Binding::Int(to_word(n)),
    ];
    let planned = joint_dims(&a_shape.dims, &b_shape.dims);
    let actual = joint_dims(&inputs[0].1.dims, &inputs[1].1.dims);
    input_dyn_dims(&planned, &actual, &mut bindings);
    let d = Dispatch { kernel, out_bytes: (n * 4) as u64, bindings, n_elements: n };
    proof {
        assert(d@.bindings =~= binary_plan(
            kernel as nat,
            n as nat,
            planned@,
            actual@,
        ).bindings);
    }
    d
}

/// Elementwise sum of two tensors.
#[derive(Clone, Debug)]
pub struct MetalAdd {
    pub kernel: usize,
    pub a_shape: Rc<ShapeTracker>,
    pub b_shape: Rc<ShapeTracker>,
}

impl PartialEq for MetalAdd {
    fn eq(&self, _other: &Self) -> (res: bool) {
        false
    }
}

impl vstd::std_specs::cmp::PartialEqSpecImpl for MetalAdd {
    open spec fn obeys_eq_spec() -> bool {
        true
    }

    open spec fn eq_spec(&self, _other: &Self) -> bool {
        false
    }
}

impl MetalAdd {
    /// The operator for inputs of these views, with its kernel among `kernels`.
    pub fn new(
        a_shape: Rc<ShapeTracker>,
        b_shape: Rc<ShapeTracker>,
        kernels: &mut Kernels,
    ) -> (res: Self)
        requires
            old(kernels).wf(),
        ensures
            final(kernels).wf(),
            final(kernels)@ == requested(old(kernels)@, add_source(&a_shape, &b_shape)),
            runs(final(kernels)@, res.kernel as nat, add_source(&a_shape, &b_shape)),
            res.a_shape == a_shape,
            res.b_shape == b_shape,
    {
        let code = add_template(&a_shape, &b_shape);
        MetalAdd { kernel: kernels.request(code.as_str()), a_shape, b_shape }
    }

    /// The run on two inputs.
    pub fn process(&self, inputs: &Vec<Tensor>) -> (d: Dispatch)
        requires
            binary_ready(&self.a_shape, &self.b_shape, inputs@),
        ensures
            d@ == binary_plan(
                self.kernel as nat,
                product(inputs[0].1.dims@),
                self.a_shape.dims@ + self.b_shape.dims@,
                inputs[0].1.dims@ + inputs[1].1.dims@,
            ),
    {
        binary_dispatch(self.kernel, &self.a_shape, &self.b_shape, inputs)
    }
}

/// Elementwise product of two tensors.
#[derive(Clone, Debug)]
pub struct MetalMul {
    pub kernel: usize,
    pub a_shape: Rc<ShapeTracker>,
    pub b_shape: Rc<ShapeTracker>,
}

impl PartialEq for MetalMul {
    fn eq(&self, _other: &Self) -> (res: bool) {
        false
    }
}

impl vstd::std_specs::cmp::PartialEqSpecImpl for MetalMul {
    open spec fn obeys_eq_spec() -> bool {
        true
    }

    open spec fn eq_spec(&self, _other: &Self) -> bool {
        false
    }
}

impl MetalMul {
    /// The operator for inputs of these views, with its kernel among `kernels`.
    pub fn new(
        a_shape: Rc<ShapeTracker>,
        b_shape: Rc<ShapeTracker>,
        kernels: &mut Kernels,
    ) -> (res: Self)
        requires
            old(kernels).wf(),
        ensures
            final(kernels).wf(),
            final(kernels)@ == requested(old(kernels)@, mul_source(&a_shape, &b_shape)),
            runs(final(kernels)@, res.kernel as nat, mul_source(&a_shape, &b_shape)),
            res.a_shape == a_shape,
            res.b_shape == b_shape,
    {
        let code = mul_template(&a_shape, &b_shape);
        MetalMul { kernel: kernels.request(code.as_str()), a_shape, b_shape }
    }

    /// The run on two inputs.
    pub fn process(&self, inputs: &Vec<Tensor>) -> (d: Dispatch)
        requires
            binary_ready(&self.a_shape, &self.b_shape, inputs@),
        ensures
            d@ == binary_plan(
                self.kernel as nat,
                product(inputs[0].1.dims@),
                self.a_shape.dims@ + self.b_shape.dims@,
                inputs[0].1.dims@ + inputs[1].1.dims@,
            ),
    {
        binary_dispatch(self.kernel, &self.a_shape, &self.b_shape, inputs)
    }
}

/// Elementwise comparison of two tensors: 1 where the first is less, else 0.
#[derive(Clone, Debug)]
pub struct MetalLessThan {
    pub kernel: usize,
    pub a_shape: Rc<ShapeTracker>,
    pub b_shape: Rc<ShapeTracker>,
}

impl PartialEq for MetalLessThan {
    fn eq(&self, _other: &Self) -> (res: bool) {
        false
    }
}

impl vstd::std_specs::cmp::PartialEqSpecImpl for MetalLessThan {
    open spec fn obeys_eq_spec() -> bool {
        true
    }

    open spec fn eq_spec(&self, _other: &Self) -> bool {
        false
    }
}

impl MetalLessThan {
    /// The operator for inputs of these views, with its kernel among `kernels`.
    pub fn new(
        a_shape: Rc<ShapeTracker>,
        b_shape: Rc<ShapeTracker>,
        kernels: &mut Kernels,
    ) -> (res: Self)
        requires
            old(kernels).wf(),
        ensures
            final(kernels).wf(),
            final(kernels)@ == requested(old(kernels)@, less_than_source(&a_shape, &b_shape)),
            runs(final(kernels)@, res.kernel as nat, less_than_source(&a_shape, &b_shape)),
            res.a_shape == a_shape,
            res.b_shape == b_shape,
    {
        let code = less_than_template(&a_shape, &b_shape);
        MetalLessThan { kernel: kernels.request(code.as_str()), a_shape, b_shape }
    }

    /// The run on two inputs.
    pub fn process(&self, inputs: &Vec<Tensor>) -> (d: Dispatch)
        requires
            binary_ready(&self.a_shape, &self.b_shape, inputs@),
        ensures
            d@ == binary_plan(
                self.kernel as nat,
                product(inputs[0].1.dims@),
                self.a_shape.dims@ + self.b_shape.dims@,
                inputs[0].1.dims@ + inputs[1].1.dims@,
            ),
    {
        binary_dispatch(self.kernel, &self.a_shape, &self.b_shape, inputs)
    }
}

/// Elementwise remainder of two tensors.
#[derive(Clone, Debug)]
pub struct MetalMod {
    pub kernel: usize,
    pub a_shape: Rc<ShapeTracker>,
    pub b_shape: Rc<ShapeTracker>,
}

impl PartialEq for MetalMod {
    fn eq(&self, _other: &Self) -> (res: bool) {
        false
    }
}

impl vstd::std_specs::cmp::PartialEqSpecImpl for MetalMod {
    open spec fn obeys_eq_spec() -> bool {
        true
    }

    open spec fn eq_spec(&self, _other: &Self) -> bool {
        false
    }
}

impl MetalMod {
    /// The operator for inputs of these views, with its kernel among `kernels`.
    pub fn new(
        a_shape: Rc<ShapeTracker>,
        b_shape: Rc<ShapeTracker>,
        kernels: &mut Kernels,
    ) -> (res: Self)
        requires
            old(kernels).wf(),
        ensures
            final(kernels).wf(),
            final(kernels)@ == requested(old(kernels)@, mod_source(&a_shape, &b_shape)),
            runs(final(kernels)@, res.kernel as nat, mod_source(&a_shape, &b_shape)),
            res.a_shape == a_shape,
            res.b_shape == b_shape,
    {
        let code = mod_template(&a_shape, &b_shape);
        MetalMod { kernel: kernels.request(code.as_str()), a_shape, b_shape }
    }

    /// The run on two inputs.
    pub fn process(&self, inputs: &Vec<Tensor>) -> (d: Dispatch)
        requires
            binary_ready(&self.a_shape, &self.b_shape, inputs@),
        ensures
            d@ == binary_plan(
                self.kernel as nat,
                product(inputs[0].1.dims@),
                self.a_shape.dims@ + self.b_shape.dims@,
                inputs[0].1.dims@ + inputs[1].1.dims@,
            ),
    {
        binary_dispatch(self.kernel, &self.a_shape, &self.b_shape, inputs)
    }
}

/// Each letter among the planned dimensions has the buffer slot that the kernel declares for it:
/// there the actual size of a dimension of that letter is bound.
pub proof fn lemma_binary_letters(
    kernel: nat,
    n: nat,
    planned: Seq<Dim>,
    actual: Seq<Dim>,
    k: int,
) -> (i: int)
    requires
        planned.len() == actual.len(),
        0 <= k < symbols(planned).len(),
    ensures
        0 <= i < planned.len(),
        planned[i] == Dim::Unknown(symbols(planned)[k]),
        binary_plan(kernel, n, planned, actual).bindings.len() == BINARY_SLOTS + symbols(planned).len(),
        binary_plan(kernel, n, planned, actual).bindings[BINARY_SLOTS + k] == Binding::Int(
            low_word(size(actual[i])),
        ),
{
    lemma_dyn_size_of_letter(planned, actual, k)
}

} // verus!
