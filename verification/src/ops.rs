//! The operators of a graph.
pub use crate::binary::{MetalAdd, MetalLessThan, MetalMod, MetalMul};
pub use crate::reduce::{MetalMaxReduce, MetalSumReduce};
pub use crate::transfer::{MetalConstant, MetalContiguous, MetalCopyFromDevice, MetalCopyToDevice};
pub use crate::unary::{MetalExp2, MetalLog2, MetalRecip, MetalSin, MetalSqrt};
use vstd::prelude::*;

verus! {

/// What a host function hands back.
#[derive(Clone, Copy, Debug, PartialEq, Eq, Structural)]
pub enum Output {
    /// A vector of 32-bit floats.
    Floats,
    /// Anything else.
    Other,
}

/// An operator: a host function, a print, a primitive, one of the Metal operators, or any
/// other.
#[derive(Clone, Debug)]
pub enum Op {
    Function(Output),
    Print,
    Constant(u32),
    Log2,
    Exp2,
    Sin,
    Sqrt,
    Recip,
    Add,
    Mul,
    LessThan,
    Mod,
    SumReduce(usize),
    MaxReduce(usize),
    Contiguous,
    MetalCopyToDevice(MetalCopyToDevice),
    MetalCopyFromDevice(MetalCopyFromDevice),
    MetalConstant(MetalConstant),
    MetalContiguous(MetalContiguous),
    MetalLog2(MetalLog2),
    MetalExp2(MetalExp2),
    MetalSin(MetalSin),
    MetalSqrt(MetalSqrt),
    MetalRecip(MetalRecip),
    MetalAdd(MetalAdd),
    MetalMul(MetalMul),
    MetalLessThan(MetalLessThan),
    MetalMod(MetalMod),
    MetalSumReduce(MetalSumReduce),
    MetalMaxReduce(MetalMaxReduce),
    Other,
}

/// The operators that run on the host.
#[derive(Clone, Copy, Debug, PartialEq, Eq, Structural)]
pub enum Kind {
    Function,
    Print,
}

impl Op {
    /// Whether the operator is a function (or a print).
    pub open spec fn is_of(&self, kind: Kind) -> bool {
        match kind {
            Kind::Function => *self is Function,
            Kind::Print => *self is Print,
        }
    }

    /// Whether the operator is a function (or a print).
    pub fn has_kind(&self, kind: Kind) -> (res: bool)
        ensures
            res == self.is_of(kind),
    {
        match (self, kind) {
            (Op::Function(_), Kind::Function) => true,
            (Op::Print, Kind::Print) => true,
            _ => false,
        }
    }
}

} // verus!
