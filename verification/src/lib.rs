//! Lowering of a tensor graph to Metal kernels, 32-bit floats.
//!
//! `primitive` inserts the copies between host and device that a graph needs and swaps every
//! primitive operator for its Metal counterpart; `readiness` tests whether it can. `guarantees`
//! states what holds of every graph that it has compiled, and `values` that such a graph computes
//! what it did before, for any meaning of the operators (`meaning`). `ops` names the operators:
//! `unary`, `binary`, `reduce` and `transfer` hold the Metal ones, each with the kernel that it is
//! generated for and the run that it makes of its inputs. `source` writes kernels, `kernel` names
//! them and keeps one of each; `elements` and `sums` state what can be made of elements.
//! `language` gives kernel source a meaning, `programs` reads the kernels in it, and `execution`
//! states what is in the output buffer when they have run as they are planned. `promises` and
//! `counterparts` state what operators plan and what has become of each in a compiled graph.
pub mod binary;
pub mod copies;
pub mod counterparts;
pub mod dispatch;
mod edges;
pub mod elements;
pub mod execution;
pub mod flow;
pub mod frame;
pub mod functions;
pub mod graph;
pub mod guarantees;
pub mod host;
pub mod kernel;
pub mod language;
pub mod lower;
pub mod meaning;
pub mod ops;
pub mod order;
pub mod outputs;
pub mod places;
pub mod primitive;
pub mod prints;
pub mod programs;
pub mod promises;
pub mod readiness;
pub mod reduce;
mod seqs;
pub mod shape;
pub mod source;
pub mod steps;
pub mod sums;
pub mod tally;
pub mod tensor;
pub mod text;
pub mod transfer;
pub mod unary;
pub mod values;
