//! What a kernel is run with.
use crate::shape::{checked_product_of, product, product_fits, resolved, size, Dim};
use crate::source::{has_letter, lemma_symbols_cover, symbols};
use vstd::prelude::*;

verus! {

/// What is bound to a buffer slot of a kernel.
#[derive(Clone, Copy, Debug, PartialEq, Eq, Structural)]
pub enum Binding {
    /// The buffer of an input tensor, by its place among the inputs.
    Input(usize),
    /// The buffer of the output tensor.
    Output,
    /// A number.
    Int(u32),
}

/// A run of a kernel: its place among the kernels, the size of the output buffer, what is bound
/// to the buffer slots from 0 on, and the number of threads.
#[derive(Debug)]
pub struct Dispatch {
    pub kernel: usize,
    pub out_bytes: u64,
    pub bindings: Vec<Binding>,
    pub n_elements: usize,
}

/// What a dispatch holds.
pub struct Plan {
    pub kernel: nat,
    pub out_bytes: nat,
    pub bindings: Seq<Binding>,
    pub n_elements: nat,
}

impl View for Dispatch {
    type V = Plan;

    open spec fn view(&self) -> Plan {
        Plan {
            kernel: self.kernel as nat,
            out_bytes: self.out_bytes as nat,
            bindings: self.bindings@,
            n_elements: self.n_elements as nat,
        }
    }
}

/// The low 32 bits of a number.
pub open spec fn low_word(n: nat) -> u32 {
    (n % 0x1_0000_0000) as u32
}

/// The low 32 bits of a number.
pub fn to_word(n: usize) -> (w: u32)
    ensures
        w == low_word(n as nat),
{
    let m = n as u64;
    assert(m as u32 == m % 0x1_0000_0000) by (bit_vector);
    m as u32
}

/// For each letter among the planned dimensions, in the order in which they first occur, the low
/// 32 bits of the actual size at its first occurrence.
pub open spec fn dyn_sizes(planned: Seq<Dim>, actual: Seq<Dim>) -> Seq<Binding>
    decreases planned.len(),
{
    if planned.len() == 0 {
        Seq::empty()
    } else {
        let rest = dyn_sizes(planned.drop_last(), actual.drop_last());
        match planned.last() {
            Dim::Unknown(c) => if symbols(planned.drop_last()).contains(c) {
                rest
            } else {
                rest.push(Binding::Int(low_word(size(actual.last()))))
            },
            Dim::Known(_) => rest,
        }
    }
}

/// Every letter of the planned dimensions has a size among the actual ones.
pub open spec fn fills(planned: Seq<Dim>, actual: Seq<Dim>) -> bool {
    &&& planned.len() == actual.len()
    &&& forall|i: int|
        0 <= i < planned.len() && (#[trigger] planned[i]) is Unknown ==> actual[i] is Known
}

/// Tests whether every letter of the planned dimensions has a size among the actual ones.
pub(crate) fn can_fill(planned: &Vec<Dim>, actual: &Vec<Dim>) -> (res: bool)
    ensures
        res == fills(planned@, actual@),
{
    if planned.len() != actual.len() {
        return false;
    }
    let mut i: usize = 0;
    while i < planned.len()
        invariant
            i <= planned.len() == actual.len(),
            forall|k: int|
                0 <= k < i && (#[trigger] planned@[k]) is Unknown ==> actual@[k] is Known,
        decreases planned.len() - i,
    {
        if planned[i].to_usize().is_none() && actual[i].to_usize().is_none() {
            assert(planned@[i as int] is Unknown && !(actual@[i as int] is Known));
            return false;
        }
        i = i + 1;
    }
    true
}

/// A view of these dimensions is known throughout, and memory can hold its elements.
pub open spec fn view_ready(dims: Seq<Dim>) -> bool {
    &&& resolved(dims)
    &&& product_fits(dims)
    &&& bytes_fit(product(dims))
}

/// Tests whether a view is known throughout and memory can hold its elements.
pub(crate) fn can_view(dims: &Vec<Dim>) -> (res: bool)
    ensures
        res == view_ready(dims@),
{
    proof {
        assert(dims@.subrange(0, dims@.len() as int) =~= dims@);
    }
    match checked_product_of(dims, 0, dims.len()) {
        Some(n) => n <= usize::MAX / 4,
        None => false,
    }
}

/// Binds the actual sizes of the dimensions that were letters when the kernel was generated.
pub fn input_dyn_dims(planned: &Vec<Dim>, actual: &Vec<Dim>, bindings: &mut Vec<Binding>)
    requires
        fills(planned@, actual@),
    ensures
        final(bindings)@ == old(bindings)@ + dyn_sizes(planned@, actual@),
{
    let ghost before = bindings@;
    let mut letters: Vec<char> = Vec::new();
    let mut i: usize = 0;
    proof {
        assert(before + dyn_sizes(planned@.take(0), actual@.take(0)) =~= before);
    }
    while i < planned.len()
        invariant
            i <= planned.len(),
            fills(planned@, actual@),
            letters@ == symbols(planned@.take(i as int)),
            bindings@ == before + dyn_sizes(planned@.take(i as int), actual@.take(i as int)),
        decreases planned.len() - i,
    {
        proof {
            assert(planned@.take(i + 1).drop_last() =~= planned@.take(i as int));
            assert(actual@.take(i + 1).drop_last() =~= actual@.take(i as int));
            assert(planned@[i as int] is Unknown ==> actual@[i as int] is Known);
        }
        match (planned[i], actual[i]) {
            (Dim::Unknown(c), Dim::Known(n)) => {
                if !has_letter(&letters, c) {
                    letters.push(c);
                    bindings.push(Binding::Int(to_word(n)));
                }
            },
            _ => {},
        }
        proof {
            assert(bindings@ =~= before + dyn_sizes(planned@.take(i + 1), actual@.take(i + 1)));
        }
        i = i + 1;
    }
    proof {
        assert(planned@.take(planned@.len() as int) =~= planned@);
        assert(actual@.take(actual@.len() as int) =~= actual@);
    }
}

/// The sizes of 32-bit floats in bytes fit a machine word.
pub open spec fn bytes_fit(n: nat) -> bool {
    4 * n <= usize::MAX
}

/// As many sizes are bound as there are letters.
pub proof fn lemma_dyn_sizes_len(planned: Seq<Dim>, actual: Seq<Dim>)
    ensures
        dyn_sizes(planned, actual).len() == symbols(planned).len(),
    decreases planned.len(),
{
    if planned.len() > 0 {
        lemma_dyn_sizes_len(planned.drop_last(), actual.drop_last());
    }
}

/// Each letter that a kernel declares is bound to the actual size of a dimension of that letter:
/// the argument and the binding stand in the same place after the fixed ones.
pub proof fn lemma_dyn_size_of_letter(planned: Seq<Dim>, actual: Seq<Dim>, k: int) -> (i: int)
    requires
        planned.len() == actual.len(),
        0 <= k < symbols(planned).len(),
    ensures
        0 <= i < planned.len(),
        planned[i] == Dim::Unknown(symbols(planned)[k]),
        dyn_sizes(planned, actual).len() == symbols(planned).len(),
        dyn_sizes(planned, actual)[k] == Binding::Int(low_word(size(actual[i]))),
    decreases planned.len(),
{
    let p = planned.drop_last();
    let a = actual.drop_last();
    lemma_dyn_sizes_len(planned, actual);
    lemma_dyn_sizes_len(p, a);
    if k < symbols(p).len() {
        lemma_dyn_size_of_letter(p, a, k)
    } else {
        planned.len() - 1
    }
}

/// Dimension `i` is the first of letter `c`.
pub open spec fn first_at(dims: Seq<Dim>, c: char, i: int) -> bool {
    &&& 0 <= i < dims.len()
    &&& dims[i] == Dim::Unknown(c)
    &&& forall|j: int| 0 <= j < i ==> #[trigger] dims[j] != Dim::Unknown(c)
}

/// The actual size, in 32 bits, of the first planned dimension of a letter, 0 for a letter of
/// none.
pub open spec fn actual_sizes(planned: Seq<Dim>, actual: Seq<Dim>) -> spec_fn(char) -> int {
    |c: char|
        if exists|i: int| #[trigger] first_at(planned, c, i) {
            low_word(size(actual[choose|i: int| #[trigger] first_at(planned, c, i)])) as int
        } else {
            0
        }
}

/// The size that is bound for a letter is that of the first dimension of the letter.
pub proof fn lemma_first_size(planned: Seq<Dim>, actual: Seq<Dim>, k: int) -> (i: int)
    requires
        planned.len() == actual.len(),
        0 <= k < symbols(planned).len(),
    ensures
        first_at(planned, symbols(planned)[k], i),
        dyn_sizes(planned, actual).len() == symbols(planned).len(),
        dyn_sizes(planned, actual)[k] == Binding::Int(low_word(size(actual[i]))),
    decreases planned.len(),
{
    let p = planned.drop_last();
    let a = actual.drop_last();
    lemma_dyn_sizes_len(planned, actual);
    lemma_dyn_sizes_len(p, a);
    if k < symbols(p).len() {
        let i = lemma_first_size(p, a, k);
        assert(planned[i] == p[i]);
        assert forall|j: int| 0 <= j < i implies #[trigger] planned[j] != Dim::Unknown(
            symbols(planned)[k],
        ) by {
            assert(p[j] == planned[j]);
        }
        i
    } else {
        let c = symbols(planned)[k];
        assert forall|j: int| 0 <= j < p.len() implies #[trigger] planned[j] != Dim::Unknown(c) by {
            assert(p[j] == planned[j]);
            if p[j] == Dim::Unknown(c) {
                lemma_symbols_cover(p, j, c);
            }
        }
        planned.len() - 1
    }
}

/// A number that 32 bits hold is its low 32 bits.
pub proof fn lemma_low_word(n: nat)
    ensures
        n <= u32::MAX ==> low_word(n) == n,
        low_word(n + 0x1_0000_0000) == low_word(n),
{
}

} // verus!
