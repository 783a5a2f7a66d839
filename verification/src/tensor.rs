//! What an operator is run on.
use crate::shape::ShapeTracker;
use std::rc::Rc;
use vstd::prelude::*;

verus! {

/// Where the data of a tensor is.
#[derive(Clone, Copy, Debug, PartialEq, Eq, Structural)]
pub enum Data {
    /// In a device buffer of that many bytes.
    Device(u64),
    /// In a host vector of that many 32-bit floats.
    Floats(usize),
    /// Anywhere else.
    Other,
}

impl Data {
    /// Whether the data is in a device buffer.
    pub fn is_on_device(&self) -> (res: bool)
        ensures
            res == (*self is Device),
    {
        match self {
            Data::Device(_) => true,
            _ => false,
        }
    }
}

/// An input of an operator: where its data is, and the view under which it is read.
pub type Tensor = (Data, Rc<ShapeTracker>);

/// The first `n` inputs are there, each in a device buffer.
pub open spec fn on_device(inputs: Seq<Tensor>, n: nat) -> bool {
    &&& inputs.len() >= n
    &&& forall|i: int| 0 <= i < n ==> (#[trigger] inputs[i]).0 is Device
}

/// Tests whether the first `n` inputs are there, each in a device buffer.
pub(crate) fn are_on_device(inputs: &Vec<Tensor>, n: usize) -> (res: bool)
    ensures
        res == on_device(inputs@, n as nat),
{
    if inputs.len() < n {
        return false;
    }
    let mut i: usize = 0;
    while i < n
        invariant
            i <= n <= inputs.len(),
            forall|k: int| 0 <= k < i ==> (#[trigger] inputs@[k]).0 is Device,
        decreases n - i,
    {
        if !inputs[i].0.is_on_device() {
            assert(!(inputs@[i as int].0 is Device));
            return false;
        }
        i = i + 1;
    }
    true
}

} // verus!
