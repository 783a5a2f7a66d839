//! What operators and tests promise, in terms of what they are given and hand back.
use crate::binary::{can_run_binary, MetalAdd, MetalLessThan, MetalMod, MetalMul};
use crate::dispatch::{
    dyn_sizes, first_at, lemma_dyn_sizes_len, lemma_first_size, Binding, Dispatch,
};
use crate::graph::{inputs, Graph, NodeId};
use crate::kernel::{kernel_of, name_of, named, KernelText, Kernels};
use crate::language::Reading;
use crate::ops::Op;
use crate::primitive::copies;
use crate::prints::prints;
use crate::programs::{
    call_program, contiguous_program, lemma_add_source, lemma_contiguous_source, lemma_exp2_text,
    lemma_less_than_source, lemma_log2_text, lemma_max_source, lemma_mod_source, lemma_mul_source,
    lemma_recip_text, lemma_sin_text, lemma_sqrt_text, lemma_sum_source, less_than_program,
    max_program, mod_program, recip_program, sign_program, sum_program,
};
use crate::readiness::can_compile;
use crate::reduce::{can_run_reduce, MetalMaxReduce, MetalSumReduce};
use crate::shape::{product, size, Dim, ShapeTracker};
use crate::source::{symbols, symbols_of};
use crate::tensor::{Data, Tensor};
use crate::transfer::{
    can_download, can_run_contiguous, can_upload, MetalConstant, MetalContiguous,
    MetalCopyFromDevice, MetalCopyToDevice, Transfer,
};
use crate::unary::{can_run_unary, MetalExp2, MetalLog2, MetalRecip, MetalSin, MetalSqrt};
use std::rc::Rc;
use vstd::prelude::*;
use vstd::std_specs::cmp::PartialEqSpec;

verus! {

/// A number modulo that of the numbers that 32 bits can hold.
pub open spec fn word(w: Binding, n: nat) -> bool {
    w matches Binding::Int(v) && v as int == n as int % 0x1_0000_0000
}

/// From slot `from` on there is one number for each letter among the planned dimensions, in the
/// order in which they are declared: the actual size of the first dimension of that letter.
pub open spec fn letters_bound(
    bindings: Seq<Binding>,
    from: int,
    planned: Seq<Dim>,
    actual: Seq<Dim>,
) -> bool {
    &&& bindings.len() == from + symbols(planned).len()
    &&& forall|k: int, i: int|
        0 <= k < symbols(planned).len() && #[trigger] first_at(
            planned,
            #[trigger] symbols(planned)[k],
            i,
        ) ==> word(bindings[from + k], size(actual[i]))
}

/// Sizes that are bound in the order of their letters are bound so.
proof fn lemma_letters_bound(
    bindings: Seq<Binding>,
    fixed: Seq<Binding>,
    planned: Seq<Dim>,
    actual: Seq<Dim>,
)
    requires
        planned.len() == actual.len(),
        bindings == fixed + dyn_sizes(planned, actual),
    ensures
        letters_bound(bindings, fixed.len() as int, planned, actual),
{
    lemma_dyn_sizes_len(planned, actual);
    assert forall|k: int, i: int|
        0 <= k < symbols(planned).len() && #[trigger] first_at(
            planned,
            #[trigger] symbols(planned)[k],
            i,
        ) implies word(bindings[fixed.len() + k], size(actual[i])) by {
        let j = lemma_first_size(planned, actual, k);
        assert(first_at(planned, symbols(planned)[k], j));
        assert(i == j);
        assert(bindings[fixed.len() + k] == dyn_sizes(planned, actual)[k]);
    }
}

/// The letters of dimensions are those that stand for one of them, each once, in the order in
/// which they first do.
pub proof fn lemma_letters_in_order(dims: &Vec<Dim>, letters: Vec<char>)
    requires
        call_ensures(symbols_of, (dims,), letters),
    ensures
        letters@.no_duplicates(),
        forall|c: char| #[trigger]
            letters@.contains(c) <==> dims@.contains(Dim::Unknown(c)),
        forall|j: int, k: int, a: int, b: int|
            0 <= j < k < letters@.len() && #[trigger] first_at(dims@, letters@[j], a)
                && #[trigger] first_at(dims@, letters@[k], b) ==> a < b,
{
    lemma_symbols_ordered(dims@);
}

proof fn lemma_symbols_ordered(dims: Seq<Dim>)
    ensures
        symbols(dims).no_duplicates(),
        forall|c: char| #[trigger] symbols(dims).contains(c) <==> dims.contains(Dim::Unknown(c)),
        forall|j: int, k: int, a: int, b: int|
            0 <= j < k < symbols(dims).len() && #[trigger] first_at(dims, symbols(dims)[j], a)
                && #[trigger] first_at(dims, symbols(dims)[k], b) ==> a < b,
    decreases dims.len(),
{
    if dims.len() > 0 {
        let r = dims.drop_last();
        let s = symbols(r);
        let t = symbols(dims);
        let x = dims.last();
        lemma_symbols_ordered(r);
        assert(dims[dims.len() - 1] == x);
        assert forall|c: char| #[trigger] t.contains(c) <==> dims.contains(Dim::Unknown(c)) by {
            if t.contains(c) {
                let k = choose|k: int| 0 <= k < t.len() && t[k] == c;
                if k < s.len() {
                    assert(s[k] == c);
                    assert(s.contains(c));
                    let i = choose|i: int| 0 <= i < r.len() && r[i] == Dim::Unknown(c);
                    assert(dims[i] == r[i]);
                }
            }
            if dims.contains(Dim::Unknown(c)) {
                let i = choose|i: int| 0 <= i < dims.len() && dims[i] == Dim::Unknown(c);
                if i < r.len() {
                    assert(r[i] == dims[i]);
                    assert(r.contains(Dim::Unknown(c)));
                    assert(s.contains(c));
                }
                if s.contains(c) {
                    let k = choose|k: int| 0 <= k < s.len() && s[k] == c;
                    assert(t[k] == c);
                } else {
                    assert(t[s.len() as int] == c);
                }
            }
        }
        assert forall|j: int, k: int, a: int, b: int|
            0 <= j < k < t.len() && #[trigger] first_at(dims, t[j], a) && #[trigger] first_at(
                dims,
                t[k],
                b,
            ) implies a < b by {
            assert(t[j] == s[j]);
            assert(s.contains(s[j]));
            let i = choose|i: int| 0 <= i < r.len() && r[i] == Dim::Unknown(s[j]);
            assert(dims[i] == r[i]);
            assert(a <= i);
            assert(first_at(r, s[j], a)) by {
                assert(r[a] == dims[a]);
                assert forall|q: int| 0 <= q < a implies #[trigger] r[q] != Dim::Unknown(s[j]) by {
                    assert(dims[q] == r[q]);
                }
            }
            if k < s.len() {
                assert(s.contains(s[k]));
                let h = choose|h: int| 0 <= h < r.len() && r[h] == Dim::Unknown(s[k]);
                assert(dims[h] == r[h]);
                assert(b <= h);
                assert(first_at(r, s[k], b)) by {
                    assert(r[b] == dims[b]);
                    assert forall|q: int| 0 <= q < b implies #[trigger] r[q] != Dim::Unknown(
                        s[k],
                    ) by {
                        assert(dims[q] == r[q]);
                    }
                }
            } else if b < r.len() {
                assert(r[b] == dims[b]);
                assert(r.contains(Dim::Unknown(t[k])));
                assert(s.contains(t[k]));
            }
        }
    }
}

/// A run of the logarithm binds the input, the output and the number of elements of the input's
/// buffer, into a buffer of as many.
pub proof fn lemma_log2_slots(op: &MetalLog2, inputs: &Vec<Tensor>, d: Dispatch)
    requires
        call_ensures(MetalLog2::process, (op, inputs), d),
    ensures
        d.kernel == op.kernel,
        d.n_elements == inputs[0].1.physical,
        d.out_bytes == 4 * inputs[0].1.physical,
        d.bindings@.len() == 3,
        d.bindings@[0] == Binding::Input(0),
        d.bindings@[1] == Binding::Output,
        word(d.bindings@[2], inputs[0].1.physical as nat),
{
}

/// A run of the exponential binds the input, the output and the number of elements of the input's
/// buffer, into a buffer of as many.
pub proof fn lemma_exp2_slots(op: &MetalExp2, inputs: &Vec<Tensor>, d: Dispatch)
    requires
        call_ensures(MetalExp2::process, (op, inputs), d),
    ensures
        d.kernel == op.kernel,
        d.n_elements == inputs[0].1.physical,
        d.out_bytes == 4 * inputs[0].1.physical,
        d.bindings@.len() == 3,
        d.bindings@[0] == Binding::Input(0),
        d.bindings@[1] == Binding::Output,
        word(d.bindings@[2], inputs[0].1.physical as nat),
{
}

/// A run of the sine binds the input, the output and the number of elements of the input's
/// buffer, into a buffer of as many.
pub proof fn lemma_sin_slots(op: &MetalSin, inputs: &Vec<Tensor>, d: Dispatch)
    requires
        call_ensures(MetalSin::process, (op, inputs), d),
    ensures
        d.kernel == op.kernel,
        d.n_elements == inputs[0].1.physical,
        d.out_bytes == 4 * inputs[0].1.physical,
        d.bindings@.len() == 3,
        d.bindings@[0] == Binding::Input(0),
        d.bindings@[1] == Binding::Output,
        word(d.bindings@[2], inputs[0].1.physical as nat),
{
}

/// A run of the square root binds the input, the output and the number of elements of the input's
/// buffer, into a buffer of as many.
pub proof fn lemma_sqrt_slots(op: &MetalSqrt, inputs: &Vec<Tensor>, d: Dispatch)
    requires
        call_ensures(MetalSqrt::process, (op, inputs), d),
    ensures
        d.kernel == op.kernel,
        d.n_elements == inputs[0].1.physical,
        d.out_bytes == 4 * inputs[0].1.physical,
        d.bindings@.len() == 3,
        d.bindings@[0] == Binding::Input(0),
        d.bindings@[1] == Binding::Output,
        word(d.bindings@[2], inputs[0].1.physical as nat),
{
}

/// A run of the reciprocal binds the input, the output and the number of elements of the input's
/// buffer, into a buffer of as many.
pub proof fn lemma_recip_slots(op: &MetalRecip, inputs: &Vec<Tensor>, d: Dispatch)
    requires
        call_ensures(MetalRecip::process, (op, inputs), d),
    ensures
        d.kernel == op.kernel,
        d.n_elements == inputs[0].1.physical,
        d.out_bytes == 4 * inputs[0].1.physical,
        d.bindings@.len() == 3,
        d.bindings@[0] == Binding::Input(0),
        d.bindings@[1] == Binding::Output,
        word(d.bindings@[2], inputs[0].1.physical as nat),
{
}

/// A run of the sum of two tensors binds the first input, the second, the output and the
/// number of elements of the first input's view, and then the sizes of letters.
pub proof fn lemma_add_slots(op: &MetalAdd, inputs: &Vec<Tensor>, d: Dispatch)
    requires
        call_ensures(MetalAdd::process, (op, inputs), d),
        op.a_shape.dims@.len() == inputs[0].1.dims@.len(),
        op.b_shape.dims@.len() == inputs[1].1.dims@.len(),
    ensures
        d.kernel == op.kernel,
        d.n_elements == product(inputs[0].1.dims@),
        d.out_bytes == 4 * product(inputs[0].1.dims@),
        d.bindings@[0] == Binding::Input(0),
        d.bindings@[1] == Binding::Input(1),
        d.bindings@[2] == Binding::Output,
        word(d.bindings@[3], product(inputs[0].1.dims@)),
        letters_bound(
            d.bindings@,
            4,
            op.a_shape.dims@ + op.b_shape.dims@,
            inputs[0].1.dims@ + inputs[1].1.dims@,
        ),
{
    let planned = op.a_shape.dims@ + op.b_shape.dims@;
    let actual = inputs[0].1.dims@ + inputs[1].1.dims@;
    let fixed = d.bindings@.take(4);
    assert(d@.bindings == d.bindings@);
    assert(d.bindings@ =~= fixed + dyn_sizes(planned, actual));
    lemma_letters_bound(d.bindings@, fixed, planned, actual);
}

/// A run of the product of two tensors binds the first input, the second, the output and the
/// number of elements of the first input's view, and then the sizes of letters.
pub proof fn lemma_mul_slots(op: &MetalMul, inputs: &Vec<Tensor>, d: Dispatch)
    requires
        call_ensures(MetalMul::process, (op, inputs), d),
        op.a_shape.dims@.len() == inputs[0].1.dims@.len(),
        op.b_shape.dims@.len() == inputs[1].1.dims@.len(),
    ensures
        d.kernel == op.kernel,
        d.n_elements == product(inputs[0].1.dims@),
        d.out_bytes == 4 * product(inputs[0].1.dims@),
        d.bindings@[0] == Binding::Input(0),
        d.bindings@[1] == Binding::Input(1),
        d.bindings@[2] == Binding::Output,
        word(d.bindings@[3], product(inputs[0].1.dims@)),
        letters_bound(
            d.bindings@,
            4,
            op.a_shape.dims@ + op.b_shape.dims@,
            inputs[0].1.dims@ + inputs[1].1.dims@,
        ),
{
    let planned = op.a_shape.dims@ + op.b_shape.dims@;
    let actual = inputs[0].1.dims@ + inputs[1].1.dims@;
    let fixed = d.bindings@.take(4);
    assert(d@.bindings == d.bindings@);
    assert(d.bindings@ =~= fixed + dyn_sizes(planned, actual));
    lemma_letters_bound(d.bindings@, fixed, planned, actual);
}

/// A run of the comparison of two tensors binds the first input, the second, the output and the
/// number of elements of the first input's view, and then the sizes of letters.
pub proof fn lemma_less_than_slots(op: &MetalLessThan, inputs: &Vec<Tensor>, d: Dispatch)
    requires
        call_ensures(MetalLessThan::process, (op, inputs), d),
        op.a_shape.dims@.len() == inputs[0].1.dims@.len(),
        op.b_shape.dims@.len() == inputs[1].1.dims@.len(),
    ensures
        d.kernel == op.kernel,
        d.n_elements == product(inputs[0].1.dims@),
        d.out_bytes == 4 * product(inputs[0].1.dims@),
        d.bindings@[0] == Binding::Input(0),
        d.bindings@[1] == Binding::Input(1),
        d.bindings@[2] == Binding::Output,
        word(d.bindings@[3], product(inputs[0].1.dims@)),
        letters_bound(
            d.bindings@,
            4,
            op.a_shape.dims@ + op.b_shape.dims@,
            inputs[0].1.dims@ + inputs[1].1.dims@,
        ),
{
    let planned = op.a_shape.dims@ + op.b_shape.dims@;
    let actual = inputs[0].1.dims@ + inputs[1].1.dims@;
    let fixed = d.bindings@.take(4);
    assert(d@.bindings == d.bindings@);
    assert(d.bindings@ =~= fixed + dyn_sizes(planned, actual));
    lemma_letters_bound(d.bindings@, fixed, planned, actual);
}

/// A run of the remainder of two tensors binds the first input, the second, the output and the
/// number of elements of the first input's view, and then the sizes of letters.
pub proof fn lemma_mod_slots(op: &MetalMod, inputs: &Vec<Tensor>, d: Dispatch)
    requires
        call_ensures(MetalMod::process, (op, inputs), d),
        op.a_shape.dims@.len() == inputs[0].1.dims@.len(),
        op.b_shape.dims@.len() == inputs[1].1.dims@.len(),
    ensures
        d.kernel == op.kernel,
        d.n_elements == product(inputs[0].1.dims@),
        d.out_bytes == 4 * product(inputs[0].1.dims@),
        d.bindings@[0] == Binding::Input(0),
        d.bindings@[1] == Binding::Input(1),
        d.bindings@[2] == Binding::Output,
        word(d.bindings@[3], product(inputs[0].1.dims@)),
        letters_bound(
            d.bindings@,
            4,
            op.a_shape.dims@ + op.b_shape.dims@,
            inputs[0].1.dims@ + inputs[1].1.dims@,
        ),
{
    let planned = op.a_shape.dims@ + op.b_shape.dims@;
    let actual = inputs[0].1.dims@ + inputs[1].1.dims@;
    let fixed = d.bindings@.take(4);
    assert(d@.bindings == d.bindings@);
    assert(d.bindings@ =~= fixed + dyn_sizes(planned, actual));
    lemma_letters_bound(d.bindings@, fixed, planned, actual);
}

/// A run of the sum along a dimension binds the input, the output, the number of results,
/// the numbers of elements in front of the dimension, behind it and along it, and then the sizes of
/// letters.
pub proof fn lemma_sum_slots(op: &MetalSumReduce, inputs: &Vec<Tensor>, d: Dispatch)
    requires
        call_ensures(MetalSumReduce::process, (op, inputs), d),
        op.shape.dims@.len() == inputs[0].1.dims@.len(),
        op.dim < inputs[0].1.dims@.len(),
    ensures
        ({
            let dims = inputs[0].1.dims@;
            let n = product(dims.remove(op.dim as int));
            &&& d.kernel == op.kernel
            &&& d.n_elements == n
            &&& d.out_bytes == 4 * n
            &&& d.bindings@[0] == Binding::Input(0)
            &&& d.bindings@[1] == Binding::Output
            &&& word(d.bindings@[2], n)
            &&& word(d.bindings@[3], product(dims.take(op.dim as int)))
            &&& word(d.bindings@[4], product(dims.skip(op.dim + 1)))
            &&& word(d.bindings@[5], size(dims[op.dim as int]))
            &&& letters_bound(d.bindings@, 6, op.shape.dims@, dims)
        }),
{
    let dims = inputs[0].1.dims@;
    let fixed = d.bindings@.take(6);
    assert(d@.bindings == d.bindings@);
    assert(d.bindings@ =~= fixed + dyn_sizes(op.shape.dims@, dims));
    lemma_letters_bound(d.bindings@, fixed, op.shape.dims@, dims);
}

/// A run of the maximum along a dimension binds the input, the output, the number of results,
/// the numbers of elements in front of the dimension, behind it and along it, and then the sizes of
/// letters.
pub proof fn lemma_max_slots(op: &MetalMaxReduce, inputs: &Vec<Tensor>, d: Dispatch)
    requires
        call_ensures(MetalMaxReduce::process, (op, inputs), d),
        op.shape.dims@.len() == inputs[0].1.dims@.len(),
        op.dim < inputs[0].1.dims@.len(),
    ensures
        ({
            let dims = inputs[0].1.dims@;
            let n = product(dims.remove(op.dim as int));
            &&& d.kernel == op.kernel
            &&& d.n_elements == n
            &&& d.out_bytes == 4 * n
            &&& d.bindings@[0] == Binding::Input(0)
            &&& d.bindings@[1] == Binding::Output
            &&& word(d.bindings@[2], n)
            &&& word(d.bindings@[3], product(dims.take(op.dim as int)))
            &&& word(d.bindings@[4], product(dims.skip(op.dim + 1)))
            &&& word(d.bindings@[5], size(dims[op.dim as int]))
            &&& letters_bound(d.bindings@, 6, op.shape.dims@, dims)
        }),
{
    let dims = inputs[0].1.dims@;
    let fixed = d.bindings@.take(6);
    assert(d@.bindings == d.bindings@);
    assert(d.bindings@ =~= fixed + dyn_sizes(op.shape.dims@, dims));
    lemma_letters_bound(d.bindings@, fixed, op.shape.dims@, dims);
}

/// A run that lays a view out binds the input, the output and the number of elements of the view,
/// and then the sizes of letters.
pub proof fn lemma_contiguous_slots(op: &MetalContiguous, inputs: &Vec<Tensor>, d: Dispatch)
    requires
        call_ensures(MetalContiguous::process, (op, inputs), d),
        op.shape.dims@.len() == inputs[0].1.dims@.len(),
    ensures
        d.kernel == op.kernel,
        d.n_elements == product(inputs[0].1.dims@),
        d.out_bytes == 4 * product(inputs[0].1.dims@),
        d.bindings@[0] == Binding::Input(0),
        d.bindings@[1] == Binding::Output,
        word(d.bindings@[2], product(inputs[0].1.dims@)),
        letters_bound(d.bindings@, 3, op.shape.dims@, inputs[0].1.dims@),
{
    let dims = inputs[0].1.dims@;
    let fixed = d.bindings@.take(3);
    assert(d@.bindings == d.bindings@);
    assert(d.bindings@ =~= fixed + dyn_sizes(op.shape.dims@, dims));
    lemma_letters_bound(d.bindings@, fixed, op.shape.dims@, dims);
}

/// Where the kernel of an operator is: under the name of the program's text. The kernels there
/// were stay in their places, and the program is added where none of its name was there.
pub open spec fn asked_for(
    before: Seq<KernelText>,
    after: Seq<KernelText>,
    k: usize,
    text: Seq<char>,
) -> bool {
    &&& k < after.len()
    &&& after[k as int].name == name_of(text)
    &&& before.len() <= after.len() <= before.len() + 1
    &&& forall|i: int| 0 <= i < before.len() ==> after[i] == #[trigger] before[i]
    &&& !named(before, name_of(text)) ==> after == before.push(kernel_of(text))
}

/// The operator of the logarithm asks for the kernel of that program.
pub proof fn lemma_log2_made<E>(r: Reading<E>, kernels: &mut Kernels, res: MetalLog2)
    requires
        call_ensures(MetalLog2::new, (kernels,), res),
    ensures
        asked_for(old(kernels)@, final(kernels)@, res.kernel, call_program(r, "log2"@).text),
{
    lemma_log2_text(r);
}

/// The operator of the exponential asks for the kernel of that program.
pub proof fn lemma_exp2_made<E>(r: Reading<E>, kernels: &mut Kernels, res: MetalExp2)
    requires
        call_ensures(MetalExp2::new, (kernels,), res),
    ensures
        asked_for(old(kernels)@, final(kernels)@, res.kernel, call_program(r, "exp2"@).text),
{
    lemma_exp2_text(r);
}

/// The operator of the sine asks for the kernel of that program.
pub proof fn lemma_sin_made<E>(r: Reading<E>, kernels: &mut Kernels, res: MetalSin)
    requires
        call_ensures(MetalSin::new, (kernels,), res),
    ensures
        asked_for(old(kernels)@, final(kernels)@, res.kernel, call_program(r, "sin"@).text),
{
    lemma_sin_text(r);
}

/// The operator of the square root asks for the kernel of that program.
pub proof fn lemma_sqrt_made<E>(r: Reading<E>, kernels: &mut Kernels, res: MetalSqrt)
    requires
        call_ensures(MetalSqrt::new, (kernels,), res),
    ensures
        asked_for(old(kernels)@, final(kernels)@, res.kernel, call_program(r, "sqrt"@).text),
{
    lemma_sqrt_text(r);
}

/// The operator of the reciprocal asks for the kernel of that program.
pub proof fn lemma_recip_made<E>(r: Reading<E>, kernels: &mut Kernels, res: MetalRecip)
    requires
        call_ensures(MetalRecip::new, (kernels,), res),
    ensures
        asked_for(old(kernels)@, final(kernels)@, res.kernel, recip_program(r).text),
{
    lemma_recip_text(r);
}

/// The operator of the sum of two tensors holds their views and asks for the kernel of that
/// program.
pub proof fn lemma_add_made<E>(
    r: Reading<E>,
    a: Rc<ShapeTracker>,
    b: Rc<ShapeTracker>,
    kernels: &mut Kernels,
    res: MetalAdd,
)
    requires
        call_ensures(MetalAdd::new, (a, b, kernels), res),
    ensures
        res.a_shape == a,
        res.b_shape == b,
        asked_for(
            old(kernels)@,
            final(kernels)@,
            res.kernel,
            sign_program(r, "+"@, &a, &b, symbols(a.dims@ + b.dims@)).text,
        ),
{
    lemma_add_source(r, &a, &b);
}

/// The operator of the product of two tensors holds their views and asks for the kernel of that
/// program.
pub proof fn lemma_mul_made<E>(
    r: Reading<E>,
    a: Rc<ShapeTracker>,
    b: Rc<ShapeTracker>,
    kernels: &mut Kernels,
    res: MetalMul,
)
    requires
        call_ensures(MetalMul::new, (a, b, kernels), res),
    ensures
        res.a_shape == a,
        res.b_shape == b,
        asked_for(
            old(kernels)@,
            final(kernels)@,
            res.kernel,
            sign_program(r, "*"@, &a, &b, symbols(a.dims@ + b.dims@)).text,
        ),
{
    lemma_mul_source(r, &a, &b);
}

/// The operator of the comparison of two tensors holds their views and asks for the kernel of that
/// program.
pub proof fn lemma_less_than_made<E>(
    r: Reading<E>,
    a: Rc<ShapeTracker>,
    b: Rc<ShapeTracker>,
    kernels: &mut Kernels,
    res: MetalLessThan,
)
    requires
        call_ensures(MetalLessThan::new, (a, b, kernels), res),
    ensures
        res.a_shape == a,
        res.b_shape == b,
        asked_for(
            old(kernels)@,
            final(kernels)@,
            res.kernel,
            less_than_program(r, &a, &b, symbols(a.dims@ + b.dims@)).text,
        ),
{
    lemma_less_than_source(r, &a, &b);
}

/// The operator of the remainder of two tensors holds their views and asks for the kernel of that
/// program.
pub proof fn lemma_mod_made<E>(
    r: Reading<E>,
    a: Rc<ShapeTracker>,
    b: Rc<ShapeTracker>,
    kernels: &mut Kernels,
    res: MetalMod,
)
    requires
        call_ensures(MetalMod::new, (a, b, kernels), res),
    ensures
        res.a_shape == a,
        res.b_shape == b,
        asked_for(
            old(kernels)@,
            final(kernels)@,
            res.kernel,
            mod_program(r, &a, &b, symbols(a.dims@ + b.dims@)).text,
        ),
{
    lemma_mod_source(r, &a, &b);
}

/// The operator of the sum along a dimension holds the view and the dimension and asks for the
/// kernel of that program.
pub proof fn lemma_sum_made<E>(
    r: Reading<E>,
    shape: Rc<ShapeTracker>,
    dim: usize,
    kernels: &mut Kernels,
    res: MetalSumReduce,
)
    requires
        call_ensures(MetalSumReduce::new, (shape, dim, kernels), res),
    ensures
        res.shape == shape,
        res.dim == dim,
        asked_for(
            old(kernels)@,
            final(kernels)@,
            res.kernel,
            sum_program(r, &shape, symbols(shape.dims@)).text,
        ),
{
    lemma_sum_source(r, &shape);
}

/// The operator of the maximum along a dimension holds the view and the dimension and asks for the
/// kernel of that program.
pub proof fn lemma_max_made<E>(
    r: Reading<E>,
    shape: Rc<ShapeTracker>,
    dim: usize,
    kernels: &mut Kernels,
    res: MetalMaxReduce,
)
    requires
        call_ensures(MetalMaxReduce::new, (shape, dim, kernels), res),
    ensures
        res.shape == shape,
        res.dim == dim,
        asked_for(
            old(kernels)@,
            final(kernels)@,
            res.kernel,
            max_program(r, &shape, symbols(shape.dims@)).text,
        ),
{
    lemma_max_source(r, &shape);
}

/// The operator of the layout holds the view and asks for the kernel of that program.
pub proof fn lemma_contiguous_made<E>(
    r: Reading<E>,
    shape: Rc<ShapeTracker>,
    kernels: &mut Kernels,
    res: MetalContiguous,
)
    requires
        call_ensures(MetalContiguous::new, (shape, kernels), res),
    ensures
        res.shape == shape,
        asked_for(
            old(kernels)@,
            final(kernels)@,
            res.kernel,
            contiguous_program(r, &shape, symbols(shape.dims@)).text,
        ),
{
    lemma_contiguous_source(r, &shape);
}

/// A run over every element can be made where the first input is on the device and the bytes of as
/// many floats as its buffer holds can be counted.
pub proof fn lemma_when_unary_runs(inputs: &Vec<Tensor>, b: bool)
    requires
        call_ensures(can_run_unary, (inputs,), b),
    ensures
        b <==> inputs@.len() >= 1 && inputs@[0].0 is Device && 4 * inputs@[0].1.physical
            <= usize::MAX,
{
}

/// Dimensions are all known, and neither their product, multiplied up from the front, nor four
/// times it is too large.
pub open spec fn countable(dims: Seq<Dim>) -> bool {
    &&& forall|i: int| 0 <= i < dims.len() ==> (#[trigger] dims[i]) is Known
    &&& forall|k: int| 0 <= k <= dims.len() ==> product(#[trigger] dims.take(k)) <= usize::MAX
    &&& 4 * product(dims) <= usize::MAX
}

/// Every planned letter stands for a known size.
pub open spec fn sized(planned: Seq<Dim>, actual: Seq<Dim>) -> bool {
    &&& planned.len() == actual.len()
    &&& forall|i: int|
        0 <= i < planned.len() ==> (#[trigger] planned[i]) is Known || actual[i] is Known
}

/// A run on two inputs can be made where both are on the device, the elements of the first can be
/// counted, and every letter has a size.
pub proof fn lemma_when_binary_runs(
    a: &ShapeTracker,
    b: &ShapeTracker,
    inputs: &Vec<Tensor>,
    res: bool,
)
    requires
        call_ensures(can_run_binary, (a, b, inputs), res),
    ensures
        res <==> inputs@.len() >= 2 && inputs@[0].0 is Device && inputs@[1].0 is Device && countable(
            inputs@[0].1.dims@,
        ) && sized(a.dims@, inputs@[0].1.dims@) && sized(b.dims@, inputs@[1].1.dims@),
{
}

/// A layout can be made where the input is on the device, its elements can be counted, and every
/// letter has a size.
pub proof fn lemma_when_contiguous_runs(shape: &ShapeTracker, inputs: &Vec<Tensor>, res: bool)
    requires
        call_ensures(can_run_contiguous, (shape, inputs), res),
    ensures
        res <==> inputs@.len() >= 1 && inputs@[0].0 is Device && countable(inputs@[0].1.dims@)
            && sized(shape.dims@, inputs@[0].1.dims@),
{
}

/// A reduction can be made where the input is on the device and has the dimension, with a known
/// size, the results can be counted, and so can what is in front of the dimension and behind it,
/// and every letter has a size.
pub proof fn lemma_when_reduce_runs(
    shape: &ShapeTracker,
    dim: usize,
    inputs: &Vec<Tensor>,
    res: bool,
)
    requires
        call_ensures(can_run_reduce, (shape, dim, inputs), res),
    ensures
        ({
            let dims = inputs@[0].1.dims@;
            let d = dim as int;
            res <==> inputs@.len() >= 1 && inputs@[0].0 is Device && d < dims.len() && dims[d] is Known
                && countable(dims.remove(d)) && (forall|k: int|
                0 <= k <= d ==> product(#[trigger] dims.take(d).take(k)) <= usize::MAX) && (forall|
                k: int,
            |
                0 <= k < dims.len() - d ==> product(#[trigger] dims.skip(d + 1).take(k))
                    <= usize::MAX) && sized(shape.dims@, dims)
        }),
{
}

/// A copy to the device can be made of what is there already, and of floats whose bytes can be
/// counted.
pub proof fn lemma_when_uploaded(inputs: &Vec<Tensor>, b: bool)
    requires
        call_ensures(can_upload, (inputs,), b),
    ensures
        b <==> inputs@.len() >= 1 && (inputs@[0].0 is Device || (inputs@[0].0 matches Data::Floats(
            n,
        ) && 4 * n <= usize::MAX)),
{
}

/// A copy from the device can be made of floats, and of a buffer whose bytes can be counted.
pub proof fn lemma_when_downloaded(inputs: &Vec<Tensor>, b: bool)
    requires
        call_ensures(can_download, (inputs,), b),
    ensures
        b <==> inputs@.len() >= 1 && (inputs@[0].0 is Floats || (inputs@[0].0 matches Data::Device(
            n,
        ) && n <= usize::MAX)),
{
}

/// A copy to the device uploads four bytes for each float of the first input, and hands the last
/// input on where the first is on the device.
pub proof fn lemma_uploads(op: &MetalCopyToDevice, inputs: &Vec<Tensor>, res: Transfer)
    requires
        call_ensures(MetalCopyToDevice::process, (op, inputs), res),
        inputs@.len() >= 1,
    ensures
        inputs@[0].0 is Device ==> (res matches Transfer::Keep(k) && k + 1 == inputs@.len()),
        inputs@[0].0 matches Data::Floats(n) ==> (res matches Transfer::Upload(bytes) && (4 * n
            <= usize::MAX ==> bytes == 4 * n)),
{
    assert(inputs@.len() == inputs.len());
}

/// A copy from the device downloads a float for each four bytes of the first input, and hands the
/// last input on where the first is off the device.
pub proof fn lemma_downloads(op: &MetalCopyFromDevice, inputs: &Vec<Tensor>, res: Transfer)
    requires
        call_ensures(MetalCopyFromDevice::process, (op, inputs), res),
        inputs@.len() >= 1,
    ensures
        inputs@[0].0 is Floats ==> (res matches Transfer::Keep(k) && k + 1 == inputs@.len()),
        inputs@[0].0 matches Data::Device(n) ==> (res matches Transfer::Download(floats) && (n
            <= usize::MAX ==> 4 * floats <= n < 4 * floats + 4)),
{
    assert(inputs@.len() == inputs.len());
}

/// A constant uploads its own bits, whatever the inputs.
pub proof fn lemma_constant_uploads(bits: u32, inputs: &Vec<Tensor>, res: Transfer)
    requires
        call_ensures(MetalConstant::process, (&MetalConstant(bits), inputs), res),
    ensures
        res == Transfer::Word(bits),
{
}

/// No Metal operator equals another of its kind, nor itself.
pub proof fn lemma_never_equal()
    ensures
        forall|a: MetalLog2, b: MetalLog2| !#[trigger] a.eq_spec(&b),
        forall|a: MetalExp2, b: MetalExp2| !#[trigger] a.eq_spec(&b),
        forall|a: MetalSin, b: MetalSin| !#[trigger] a.eq_spec(&b),
        forall|a: MetalSqrt, b: MetalSqrt| !#[trigger] a.eq_spec(&b),
        forall|a: MetalRecip, b: MetalRecip| !#[trigger] a.eq_spec(&b),
        forall|a: MetalAdd, b: MetalAdd| !#[trigger] a.eq_spec(&b),
        forall|a: MetalMul, b: MetalMul| !#[trigger] a.eq_spec(&b),
        forall|a: MetalLessThan, b: MetalLessThan| !#[trigger] a.eq_spec(&b),
        forall|a: MetalMod, b: MetalMod| !#[trigger] a.eq_spec(&b),
        forall|a: MetalSumReduce, b: MetalSumReduce| !#[trigger] a.eq_spec(&b),
        forall|a: MetalMaxReduce, b: MetalMaxReduce| !#[trigger] a.eq_spec(&b),
        forall|a: MetalContiguous, b: MetalContiguous| !#[trigger] a.eq_spec(&b),
        forall|a: MetalConstant, b: MetalConstant| !#[trigger] a.eq_spec(&b),
        forall|a: MetalCopyToDevice, b: MetalCopyToDevice| !#[trigger] a.eq_spec(&b),
        forall|a: MetalCopyFromDevice, b: MetalCopyFromDevice| !#[trigger] a.eq_spec(&b),
{
}

/// The view of a single element has no dimensions, one physical element, and reads each element in
/// place.
pub proof fn lemma_scalar_view(res: ShapeTracker)
    requires
        call_ensures(ShapeTracker::scalar, (), res),
    ensures
        res.dims@.len() == 0,
        res.physical == 1,
        res.index@ == "idx"@,
        res.valid@ == "1"@,
{
}

/// A graph can be compiled where every operator on two tensors reads two, every reduction and
/// layout one, every print one, and so does all that is retrieved and is no function; all that is
/// retrieved is there; and there are names left for the nodes and links of copies.
pub proof fn lemma_when_compiled(graph: &Graph, b: bool)
    requires
        call_ensures(can_compile, (graph,), b),
    ensures
        ({
            let s = graph@;
            b <==> (forall|n: NodeId| #[trigger]
                s.nodes.contains_key(n) ==> inputs(s.links, n).len() >= match s.nodes[n] {
                    Op::Add | Op::Mul | Op::LessThan | Op::Mod => 2nat,
                    Op::SumReduce(_) | Op::MaxReduce(_) | Op::Contiguous | Op::Print => 1nat,
                    _ => 0nat,
                }) && (forall|n: NodeId| #[trigger]
                s.to_retrieve.contains(n) ==> s.nodes.contains_key(n) && (s.nodes[n] is Function
                    || inputs(s.links, n).len() >= 1)) && s.nodes.dom().len() + copies(s)
                <= u32::MAX && s.links.len() + copies(s) < u32::MAX
        }),
{
    let s = graph@;
    let enough = forall|n: NodeId| #[trigger]
        s.nodes.contains_key(n) ==> inputs(s.links, n).len() >= match s.nodes[n] {
            Op::Add | Op::Mul | Op::LessThan | Op::Mod => 2nat,
            Op::SumReduce(_) | Op::MaxReduce(_) | Op::Contiguous | Op::Print => 1nat,
            _ => 0nat,
        };
    if b {
        assert forall|n: NodeId| #[trigger] s.nodes.contains_key(n) implies inputs(
            s.links,
            n,
        ).len() >= match s.nodes[n] {
            Op::Add | Op::Mul | Op::LessThan | Op::Mod => 2nat,
            Op::SumReduce(_) | Op::MaxReduce(_) | Op::Contiguous | Op::Print => 1nat,
            _ => 0nat,
        } by {
            if s.nodes[n] is Print {
                assert(prints(s.nodes).contains(n));
            }
        }
    } else if enough {
        assert forall|p: NodeId| #[trigger] prints(s.nodes).contains(p) implies inputs(
            s.links,
            p,
        ).len() > 0 by {
            assert(s.nodes.contains_key(p));
        }
    }
}

} // verus!
