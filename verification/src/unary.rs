//! Operators on every element of one tensor.
use crate::dispatch::{bytes_fit, low_word, to_word, Binding, Dispatch, Plan};
use crate::kernel::{requested, runs, Kernels};
use crate::source::{EXP2, LOG2, RECIP, SIN, SQRT};
use crate::tensor::{are_on_device, on_device, Tensor};
use vstd::prelude::*;

verus! {

/// A run over the `n` elements of the input's buffer, into a buffer of as many.
pub open spec fn unary_plan(kernel: nat, n: nat) -> Plan {
    Plan {
        kernel,
        out_bytes: 4 * n,
        bindings: seq![Binding::Input(0), Binding::Output, Binding::Int(low_word(n))],
        n_elements: n,
    }
}

/// What a run over every element needs: an input on the device, and an output that memory can
/// hold.
pub open spec fn unary_ready(inputs: Seq<Tensor>) -> bool {
    &&& on_device(inputs, 1)
    &&& bytes_fit(inputs[0].1.physical as nat)
}

/// Tests what a run over every element needs.
pub fn can_run_unary(inputs: &Vec<Tensor>) -> (res: bool)
    ensures
        res == unary_ready(inputs@),
{
    are_on_device(inputs, 1) && inputs[0].1.n_physical_elements() <= usize::MAX / 4
}

/// The run of a kernel over every element of a buffer.
fn unary_dispatch(kernel: usize, inputs: &Vec<Tensor>) -> (d: Dispatch)
    requires
        unary_ready(inputs@),
    ensures
        d@ == unary_plan(kernel as nat, inputs[0].1.physical as nat),
{
    let n = inputs[0].1.n_physical_elements();
    let bindings = vec![Binding::Input(0), Binding::Output, Binding::Int(to_word(n))];
    let d = Dispatch { kernel, out_bytes: (n * 4) as u64, bindings, n_elements: n };
    proof {
        assert(d@.bindings =~= unary_plan(kernel as nat, n as nat).bindings);
    }
    d
}

/// Base-2 logarithm of every element.
#[derive(Clone, Copy, Debug)]
pub struct MetalLog2 {
    pub kernel: usize,
}

impl PartialEq for MetalLog2 {
    fn eq(&self, _other: &Self) -> (res: bool) {
        false
    }
}

impl vstd::std_specs::cmp::PartialEqSpecImpl for MetalLog2 {
    open spec fn obeys_eq_spec() -> bool {
        true
    }

    open spec fn eq_spec(&self, _other: &Self) -> bool {
        false
    }
}

impl MetalLog2 {
    /// The operator, with its kernel among `kernels`.
    pub fn new(kernels: &mut Kernels) -> (res: Self)
        requires
            old(kernels).wf(),
        ensures
            final(kernels).wf(),
            final(kernels)@ == requested(old(kernels)@, LOG2@),
            runs(final(kernels)@, res.kernel as nat, LOG2@),
    {
        MetalLog2 { kernel: kernels.request(LOG2) }
    }

    /// The run on an input.
    pub fn process(&self, inputs: &Vec<Tensor>) -> (d: Dispatch)
        requires
            unary_ready(inputs@),
        ensures
            d@ == unary_plan(self.kernel as nat, inputs[0].1.physical as nat),
    {
        unary_dispatch(self.kernel, inputs)
    }
}

/// Base-2 exponential of every element.
#[derive(Clone, Copy, Debug)]
pub struct MetalExp2 {
    pub kernel: usize,
}

impl PartialEq for MetalExp2 {
    fn eq(&self, _other: &Self) -> (res: bool) {
        false
    }
}

impl vstd::std_specs::cmp::PartialEqSpecImpl for MetalExp2 {
    open spec fn obeys_eq_spec() -> bool {
        true
    }

    open spec fn eq_spec(&self, _other: &Self) -> bool {
        false
    }
}

impl MetalExp2 {
    /// The operator, with its kernel among `kernels`.
    pub fn new(kernels: &mut Kernels) -> (res: Self)
        requires
            old(kernels).wf(),
        ensures
            final(kernels).wf(),
            final(kernels)@ == requested(old(kernels)@, EXP2@),
            runs(final(kernels)@, res.kernel as nat, EXP2@),
    {
        MetalExp2 { kernel: kernels.request(EXP2) }
    }

    /// The run on an input.
    pub fn process(&self, inputs: &Vec<Tensor>) -> (d: Dispatch)
        requires
            unary_ready(inputs@),
        ensures
            d@ == unary_plan(self.kernel as nat, inputs[0].1.physical as nat),
    {
        unary_dispatch(self.kernel, inputs)
    }
}

/// Sine of every element.
#[derive(Clone, Copy, Debug)]
pub struct MetalSin {
    pub kernel: usize,
}

impl PartialEq for MetalSin {
    fn eq(&self, _other: &Self) -> (res: bool) {
        false
    }
}

impl vstd::std_specs::cmp::PartialEqSpecImpl for MetalSin {
    open spec fn obeys_eq_spec() -> bool {
        true
    }

    open spec fn eq_spec(&self, _other: &Self) -> bool {
        false
    }
}

impl MetalSin {
    /// The operator, with its kernel among `kernels`.
    pub fn new(kernels: &mut Kernels) -> (res: Self)
        requires
            old(kernels).wf(),
        ensures
            final(kernels).wf(),
            final(kernels)@ == requested(old(kernels)@, SIN@),
            runs(final(kernels)@, res.kernel as nat, SIN@),
    {
        MetalSin { kernel: kernels.request(SIN) }
    }

    /// The run on an input.
    pub fn process(&self, inputs: &Vec<Tensor>) -> (d: Dispatch)
        requires
            unary_ready(inputs@),
        ensures
            d@ == unary_plan(self.kernel as nat, inputs[0].1.physical as nat),
    {
        unary_dispatch(self.kernel, inputs)
    }
}

/// Square root of every element.
#[derive(Clone, Copy, Debug)]
pub struct MetalSqrt {
    pub kernel: usize,
}

impl PartialEq for MetalSqrt {
    fn eq(&self, _other: &Self) -> (res: bool) {
        false
    }
}

impl vstd::std_specs::cmp::PartialEqSpecImpl for MetalSqrt {
    open spec fn obeys_eq_spec() -> bool {
        true
    }

    open spec fn eq_spec(&self, _other: &Self) -> bool {
        false
    }
}

impl MetalSqrt {
    /// The operator, with its kernel among `kernels`.
    pub fn new(kernels: &mut Kernels) -> (res: Self)
        requires
            old(kernels).wf(),
        ensures
            final(kernels).wf(),
            final(kernels)@ == requested(old(kernels)@, SQRT@),
            runs(final(kernels)@, res.kernel as nat, SQRT@),
    {
        MetalSqrt { kernel: kernels.request(SQRT) }
    }

    /// The run on an input.
    pub fn process(&self, inputs: &Vec<Tensor>) -> (d: Dispatch)
        requires
            unary_ready(inputs@),
        ensures
            d@ == unary_plan(self.kernel as nat, inputs[0].1.physical as nat),
    {
        unary_dispatch(self.kernel, inputs)
    }
}

/// Reciprocal of every element.
#[derive(Clone, Copy, Debug)]
pub struct MetalRecip {
    pub kernel: usize,
}

impl PartialEq for MetalRecip {
    fn eq(&self, _other: &Self) -> (res: bool) {
        false
    }
}

impl vstd::std_specs::cmp::PartialEqSpecImpl for MetalRecip {
    open spec fn obeys_eq_spec() -> bool {
        true
    }

    open spec fn eq_spec(&self, _other: &Self) -> bool {
        false
    }
}

impl MetalRecip {
    /// The operator, with its kernel among `kernels`.
    pub fn new(kernels: &mut Kernels) -> (res: Self)
        requires
            old(kernels).wf(),
        ensures
            final(kernels).wf(),
            final(kernels)@ == requested(old(kernels)@, RECIP@),
            runs(final(kernels)@, res.kernel as nat, RECIP@),
    {
        MetalRecip { kernel: kernels.request(RECIP) }
    }

    /// The run on an input.
    pub fn process(&self, inputs: &Vec<Tensor>) -> (d: Dispatch)
        requires
            unary_ready(inputs@),
        ensures
            d@ == unary_plan(self.kernel as nat, inputs[0].1.physical as nat),
    {
        unary_dispatch(self.kernel, inputs)
    }
}

} // verus!
