//! Moves tensors as they are: between host and device, or into a contiguous layout.
use crate::dispatch::{
    bytes_fit, can_fill, can_view, dyn_sizes, fills, input_dyn_dims, lemma_dyn_size_of_letter,
    low_word, to_word, view_ready, Binding, Dispatch, Plan,
};
use crate::kernel::{requested, runs, Kernels};
use crate::shape::{product, size, Dim, ShapeTracker};
use crate::source::{contiguous_source, contiguous_template, symbols, CONTIGUOUS_SLOTS};
use crate::tensor::{are_on_device, on_device, Data, Tensor};
use std::rc::Rc;
use vstd::prelude::*;

verus! {

/// How a copy or a constant comes by its tensor.
#[derive(Clone, Copy, Debug, PartialEq, Eq, Structural)]
pub enum Transfer {
    /// Hands the input of that place on.
    Keep(usize),
    /// Fills a new device buffer of that many bytes with the floats of the first input.
    Upload(u64),
    /// Fills a new device buffer of four bytes with that word.
    Word(u32),
    /// Reads that many 32-bit floats out of the device buffer of the first input.
    Download(usize),
}

/// The copy of a tensor to the device. Where the first input is there already, the last one is
/// handed on.
pub open spec fn to_device(inputs: Seq<Tensor>) -> Transfer {
    match inputs[0].0 {
        Data::Floats(n) => Transfer::Upload((4 * n) as u64),
        _ => Transfer::Keep((inputs.len() - 1) as usize),
    }
}

/// The copy of a tensor from the device. Where the first input is off it already, the last one is
/// handed on.
pub open spec fn from_device(inputs: Seq<Tensor>) -> Transfer {
    match inputs[0].0 {
        Data::Device(bytes) => Transfer::Download((bytes / 4) as usize),
        _ => Transfer::Keep((inputs.len() - 1) as usize),
    }
}

/// What a copy to the device needs: an input on the device, or of floats that a buffer can hold.
pub open spec fn upload_ready(inputs: Seq<Tensor>) -> bool {
    &&& inputs.len() >= 1
    &&& match inputs[0].0 {
        Data::Device(_) => true,
        Data::Floats(n) => bytes_fit(n as nat),
        Data::Other => false,
    }
}

/// What a copy from the device needs: an input of floats, or a buffer whose size fits a machine
/// word.
pub open spec fn download_ready(inputs: Seq<Tensor>) -> bool {
    &&& inputs.len() >= 1
    &&& match inputs[0].0 {
        Data::Device(bytes) => bytes <= usize::MAX,
        Data::Floats(_) => true,
        Data::Other => false,
    }
}

/// Tests what a copy to the device needs.
pub fn can_upload(inputs: &Vec<Tensor>) -> (res: bool)
    ensures
        res == upload_ready(inputs@),
{
    inputs.len() >= 1 && match inputs[0].0 {
        Data::Device(_) => true,
        Data::Floats(n) => n <= usize::MAX / 4,
        Data::Other => false,
    }
}

/// Tests what a copy from the device needs.
pub fn can_download(inputs: &Vec<Tensor>) -> (res: bool)
    ensures
        res == download_ready(inputs@),
{
    inputs.len() >= 1 && match inputs[0].0 {
        Data::Device(bytes) => bytes <= usize::MAX as u64,
        Data::Floats(_) => true,
        Data::Other => false,
    }
}

/// As many floats come back from the device as were brought there.
pub proof fn lemma_round_trip(up: Seq<Tensor>, down: Seq<Tensor>, n: usize, bytes: u64)
    requires
        upload_ready(up),
        up[0].0 == Data::Floats(n),
        to_device(up) == Transfer::Upload(bytes),
        down.len() >= 1,
        down[0].0 == Data::Device(bytes),
    ensures
        bytes == 4 * n,
        download_ready(down),
        from_device(down) == Transfer::Download(n),
{
}

/// Copies a tensor to the GPU.
#[derive(Clone, Copy, Debug)]
pub struct MetalCopyToDevice;

impl PartialEq for MetalCopyToDevice {
    fn eq(&self, _other: &Self) -> (res: bool) {
        false
    }
}

impl vstd::std_specs::cmp::PartialEqSpecImpl for MetalCopyToDevice {
    open spec fn obeys_eq_spec() -> bool {
        true
    }

    open spec fn eq_spec(&self, _other: &Self) -> bool {
        false
    }
}

impl MetalCopyToDevice {
    /// The copy of the first input, or the last one where that is on the device already.
    pub fn process(&self, inputs: &Vec<Tensor>) -> (res: Transfer)
        requires
            upload_ready(inputs@),
        ensures
            res == to_device(inputs@),
    {
        match inputs[0].0 {
            Data::Floats(n) => Transfer::Upload((n * 4) as u64),
            _ => Transfer::Keep(inputs.len() - 1),
        }
    }
}

/// Copies a tensor from the GPU.
#[derive(Clone, Copy, Debug)]
pub struct MetalCopyFromDevice;

impl PartialEq for MetalCopyFromDevice {
    fn eq(&self, _other: &Self) -> (res: bool) {
        false
    }
}

impl vstd::std_specs::cmp::PartialEqSpecImpl for MetalCopyFromDevice {
    open spec fn obeys_eq_spec() -> bool {
        true
    }

    open spec fn eq_spec(&self, _other: &Self) -> bool {
        false
    }
}

impl MetalCopyFromDevice {
    /// The copy of the first input, or the last one where that is off the device already.
    pub fn process(&self, inputs: &Vec<Tensor>) -> (res: Transfer)
        requires
            download_ready(inputs@),
        ensures
            res == from_device(inputs@),
    {
        match inputs[0].0 {
            Data::Device(bytes) => Transfer::Download(bytes as usize / 4),
            _ => Transfer::Keep(inputs.len() - 1),
        }
    }
}

/// A constant on the GPU: the bits of a 32-bit float.
#[derive(Clone, Copy, Debug)]
pub struct MetalConstant(pub u32);

impl PartialEq for MetalConstant {
    fn eq(&self, _other: &Self) -> (res: bool) {
        false
    }
}

impl vstd::std_specs::cmp::PartialEqSpecImpl for MetalConstant {
    open spec fn obeys_eq_spec() -> bool {
        true
    }

    open spec fn eq_spec(&self, _other: &Self) -> bool {
        false
    }
}

impl MetalConstant {
    /// The upload of the constant: a buffer of its four bytes, whatever the inputs.
    pub fn process(&self, _inputs: &Vec<Tensor>) -> (res: Transfer)
        ensures
            res == Transfer::Word(self.0),
    {
        Transfer::Word(self.0)
    }
}

/// A run over the `n` elements of the output, with the actual sizes of the planned letters.
pub open spec fn contiguous_plan(
    kernel: nat,
    n: nat,
    planned: Seq<Dim>,
    actual: Seq<Dim>,
) -> Plan {
    Plan {
        kernel,
        out_bytes: 4 * n,
        bindings: seq![Binding::Input(0), Binding::Output, Binding::Int(low_word(n))] + dyn_sizes(
            planned,
            actual,
        ),
        n_elements: n,
    }
}

/// What laying a view out needs: an input on the device under a view known throughout, with a size
/// for each planned letter, and an output that memory can hold.
pub open spec fn contiguous_ready(shape: &ShapeTracker, inputs: Seq<Tensor>) -> bool {
    &&& on_device(inputs, 1)
    &&& view_ready(inputs[0].1.dims@)
    &&& fills(shape.dims@, inputs[0].1.dims@)
}

/// Tests what laying a view out needs.
pub fn can_run_contiguous(shape: &ShapeTracker, inputs: &Vec<Tensor>) -> (res: bool)
    ensures
        res == contiguous_ready(shape, inputs@),
{
    are_on_device(inputs, 1) && can_view(&inputs[0].1.dims) && can_fill(
        &shape.dims,
        &inputs[0].1.dims,
    )
}

/// Lays a view out contiguously.
#[derive(Clone, Debug)]
pub struct MetalContiguous {
    pub kernel: usize,
    pub shape: Rc<ShapeTracker>,
}

impl PartialEq for MetalContiguous {
    fn eq(&self, _other: &Self) -> (res: bool) {
        false
    }
}

impl vstd::std_specs::cmp::PartialEqSpecImpl for MetalContiguous {
    open spec fn obeys_eq_spec() -> bool {
        true
    }

    open spec fn eq_spec(&self, _other: &Self) -> bool {
        false
    }
}

impl MetalContiguous {
    /// The operator for an input of this view, with its kernel among `kernels`.
    pub fn new(shape: Rc<ShapeTracker>, kernels: &mut Kernels) -> (res: Self)
        requires
            old(kernels).wf(),
        ensures
            final(kernels).wf(),
            final(kernels)@ == requested(old(kernels)@, contiguous_source(&shape)),
            runs(final(kernels)@, res.kernel as nat, contiguous_source(&shape)),
            res.shape == shape,
    {
        let code = contiguous_template(&shape);
        MetalContiguous { kernel: kernels.request(code.as_str()), shape }
    }

    /// The run on an input.
    pub fn process(&self, inputs: &Vec<Tensor>) -> (d: Dispatch)
        requires
            contiguous_ready(&self.shape, inputs@),
        ensures
            d@ == contiguous_plan(
                self.kernel as nat,
                product(inputs[0].1.dims@),
                self.shape.dims@,
                inputs[0].1.dims@,
            ),
    {
        let n = inputs[0].1.n_elements();
        let mut bindings = vec![Binding::Input(0), Binding::Output, Binding::Int(to_word(n))];
        input_dyn_dims(&self.shape.dims, &inputs[0].1.dims, &mut bindings);
        let d = Dispatch {
            kernel: self.kernel,
            out_bytes: (n * 4) as u64,
            bindings,
            n_elements: n,
        };
        proof {
            assert(d@.bindings =~= contiguous_plan(
                self.kernel as nat,
                n as nat,
                self.shape.dims@,
                inputs[0].1.dims@,
            ).bindings);
        }
        d
    }
}

/// Each letter among the planned dimensions has the buffer slot that the kernel declares for it:
/// there the actual size of a dimension of that letter is bound.
pub proof fn lemma_contiguous_letters(
    kernel: nat,
    n: nat,
    planned: Seq<Dim>,
    actual: Seq<Dim>,
    k: int,
) -> (i: int)
    requires
        planned.len() == actual.len(),
        0 <= k < symbols(planned).len(),
    ensures
        0 <= i < planned.len(),
        planned[i] == Dim::Unknown(symbols(planned)[k]),
        contiguous_plan(kernel, n, planned, actual).bindings.len() == CONTIGUOUS_SLOTS + symbols(planned).len(),
        contiguous_plan(kernel, n, planned, actual).bindings[CONTIGUOUS_SLOTS + k] == Binding::Int(
            low_word(size(actual[i])),
        ),
{
    lemma_dyn_size_of_letter(planned, actual, k)
}

} // verus!
