//! What is in the output buffer when a kernel has run as its operator plans it.
use crate::binary::{MetalAdd, MetalLessThan, MetalMod, MetalMul};
use crate::dispatch::{
    actual_sizes, dyn_sizes, first_at, lemma_dyn_sizes_len, lemma_first_size, low_word, Binding,
    Dispatch,
};
use crate::elements::{
    element, gathered, is_valid, laid_out, mapped, paired, reduced, slice, Expressions,
};
use crate::language::{
    and_letters, launched, lemma_launched, lemma_letters, letter_sizes, number_in, repeated, Memory,
    Program, Reading, Signature, Start, Step,
};
use crate::programs::{
    call_program, contiguous_program, less_than_program, max_program, max_step, mod_program,
    one_input, one_reduced, recip_program, reduce_program, reduce_turn, sign_program, sum_program,
    sum_step, turn_index, two_inputs,
};
use crate::reduce::{lemma_reduce_sizes, reduced_index, MetalMaxReduce, MetalSumReduce};
use crate::shape::{product, size, Dim, ShapeTracker};
use crate::source::{lemma_symbols_cover, lemma_symbols_once, symbols};
use crate::tensor::Tensor;
use crate::transfer::MetalContiguous;
use crate::unary::{MetalExp2, MetalLog2, MetalRecip, MetalSin, MetalSqrt};
use vstd::prelude::*;

verus! {

/// The names that kernels use are different names of more than one letter.
proof fn lemma_names()
    ensures
        "inp"@.len() == 3,
        "inp_a"@.len() == 5,
        "inp_b"@.len() == 5,
        "inp_a"@ != "inp_b"@,
        "out"@.len() == 3,
        "inp"@ != "out"@,
        "n_elements"@.len() == 10,
        "idx"@.len() == 3,
        "i_"@.len() == 2,
        "a_"@.len() == 2,
        "b_"@.len() == 2,
        "c_"@.len() == 2,
        "i_"@ != "a_"@,
        "i_"@ != "b_"@,
        "i_"@ != "c_"@,
        "a_"@ != "b_"@,
        "a_"@ != "c_"@,
        "b_"@ != "c_"@,
        "front_size"@.len() == 10,
        "front_size"@ != "n_elements"@,
        "back_size"@.len() == 9,
        "dim_size"@.len() == 8,
        "a_idx"@.len() == 5,
        "a_t"@.len() == 3,
        "b_t"@.len() == 3,
        "a_t"@ != "b_t"@,
{
    reveal_strlit("inp");
    reveal_strlit("inp_a");
    reveal_strlit("inp_b");
    assert("inp_a"@[4] != "inp_b"@[4]);
    reveal_strlit("out");
    assert("inp"@[0] != "out"@[0]);
    reveal_strlit("n_elements");
    reveal_strlit("idx");
    reveal_strlit("i_");
    reveal_strlit("a_");
    reveal_strlit("b_");
    reveal_strlit("c_");
    assert("i_"@[0] == 'i' && "a_"@[0] == 'a' && "b_"@[0] == 'b' && "c_"@[0] == 'c');
    reveal_strlit("front_size");
    assert("front_size"@[0] != "n_elements"@[0]);
    reveal_strlit("back_size");
    reveal_strlit("dim_size");
    reveal_strlit("a_idx");
    reveal_strlit("a_t");
    reveal_strlit("b_t");
    assert("a_t"@[0] != "b_t"@[0]);
}

/// What expressions of views mean in a kernel that was planned for some dimensions and is run on
/// others.
pub open spec fn expressions<E>(
    r: Reading<E>,
    planned: Seq<Dim>,
    actual: Seq<Dim>,
) -> Expressions {
    |t: Seq<char>, i: int| (r.view)(t, i, actual_sizes(planned, actual))
}

/// The letters of a kernel stand for the sizes that are bound behind its fixed slots.
proof fn lemma_sizes<E>(
    a: Signature<E>,
    planned: Seq<Dim>,
    actual: Seq<Dim>,
    s: Start<E>,
    fixed: Seq<Binding>,
    m: Memory<E>,
)
    requires
        planned.len() == actual.len(),
        fixed.len() == a.slots,
        s.bindings == fixed + dyn_sizes(planned, actual),
        forall|c: char| !(#[trigger] (a.memory)(s).numbers.contains_key(seq![c])),
        ({
            let l = (and_letters(a, symbols(planned)).memory)(s);
            forall|c: char|
                #![trigger m.numbers.contains_key(seq![c])]
                m.numbers.contains_key(seq![c]) == l.numbers.contains_key(seq![c])
                    && m.numbers[seq![c]] == l.numbers[seq![c]]
        }),
    ensures
        letter_sizes(m) == actual_sizes(planned, actual),
{
    let letters = symbols(planned);
    lemma_symbols_once(planned);
    lemma_letters(a, letters, s);
    lemma_dyn_sizes_len(planned, actual);
    let l = (and_letters(a, letters).memory)(s);
    let f = letter_sizes(m);
    let g = actual_sizes(planned, actual);
    assert forall|c: char| #[trigger] f(c) == g(c) by {
        assert(seq![c][0] == c);
        assert(m.numbers.contains_key(seq![c]) == l.numbers.contains_key(seq![c]));
        if letters.contains(c) {
            let k = choose|k: int| 0 <= k < letters.len() && letters[k] == c;
            let i = lemma_first_size(planned, actual, k);
            assert(first_at(planned, c, i));
            let j = choose|i: int| #[trigger] first_at(planned, c, i);
            assert(i == j);
            assert(s.bindings[a.slots + k] == dyn_sizes(planned, actual)[k]);
            assert(l.numbers.contains_key(seq![letters[k]]));
        } else {
            assert(!(a.memory)(s).numbers.contains_key(seq![c]));
            assert(!l.numbers.contains_key(seq![c]));
            if exists|i: int| #[trigger] first_at(planned, c, i) {
                let i = choose|i: int| #[trigger] first_at(planned, c, i);
                lemma_symbols_cover(planned, i, c);
            }
        }
    }
    assert(f =~= g);
}

/// A thread of a kernel that calls a function of every element.
proof fn lemma_call_thread<E>(r: Reading<E>, f: Seq<char>, s: Start<E>)
    requires
        s.bindings[0] == Binding::Input(0),
        s.bindings[1] == Binding::Output,
    ensures
        (call_program(r, f).thread)(s) == if s.thread < number_in(s, 2) {
            s.out.update(s.thread, (r.call)(f, seq![s.inputs[0][s.thread]]))
        } else {
            s.out
        },
{
    lemma_names();
}

/// A thread of a kernel that divides 1 by every element.
proof fn lemma_recip_thread<E>(r: Reading<E>, s: Start<E>)
    requires
        s.bindings[0] == Binding::Input(0),
        s.bindings[1] == Binding::Output,
    ensures
        (recip_program(r).thread)(s) == if s.thread < number_in(s, 2) {
            s.out.update(
                s.thread,
                (r.infix)("/"@, (r.literal)("1.0"@), s.inputs[0][s.thread]),
            )
        } else {
            s.out
        },
{
    lemma_names();
}

/// A kernel that calls a function, run over a buffer.
proof fn lemma_call_launched<E>(
    r: Reading<E>,
    f: Seq<char>,
    bindings: Seq<Binding>,
    inputs: Seq<Seq<E>>,
    out: Seq<E>,
)
    requires
        bindings[0] == Binding::Input(0),
        bindings[1] == Binding::Output,
        bindings[2] == Binding::Int(out.len() as u32),
        out.len() <= u32::MAX,
    ensures
        launched(call_program(r, f), bindings, inputs, out, out.len()) == mapped(
            |e: E| (r.call)(f, seq![e]),
            inputs[0],
            out.len(),
        ),
{
    let g = |i: int, e: E| (r.call)(f, seq![inputs[0][i]]);
    assert forall|i: int, o: Seq<E>|
        0 <= i < out.len() && o.len() == out.len() implies #[trigger] (call_program(r, f).thread)(
        Start { bindings, inputs, out: o, thread: i },
    ) == o.update(i, g(i, o[i])) by {
        lemma_call_thread(r, f, Start { bindings, inputs, out: o, thread: i });
    }
    lemma_launched(call_program(r, f), bindings, inputs, out, out.len(), g);
    assert(launched(call_program(r, f), bindings, inputs, out, out.len()) =~= mapped(
        |e: E| (r.call)(f, seq![e]),
        inputs[0],
        out.len(),
    ));
}

/// Run as it is planned, the kernel of the base-2 logarithm writes that of every element of the
/// input's buffer, into a buffer that holds as many.
pub proof fn lemma_log2_runs<E>(
    r: Reading<E>,
    op: &MetalLog2,
    inputs: &Vec<Tensor>,
    d: Dispatch,
    xs: Seq<Seq<E>>,
    out: Seq<E>,
)
    requires
        call_ensures(MetalLog2::process, (op, inputs), d),
        out.len() == inputs[0].1.physical,
        out.len() <= u32::MAX,
    ensures
        d.kernel == op.kernel,
        d.out_bytes == 4 * out.len(),
        launched(call_program(r, "log2"@), d@.bindings, xs, out, d@.n_elements) == mapped(
            |e: E| (r.call)("log2"@, seq![e]),
            xs[0],
            out.len(),
        ),
{
    lemma_call_launched(r, "log2"@, d@.bindings, xs, out);
}

/// Run as it is planned, the kernel of the base-2 exponential writes that of every element of the
/// input's buffer, into a buffer that holds as many.
pub proof fn lemma_exp2_runs<E>(
    r: Reading<E>,
    op: &MetalExp2,
    inputs: &Vec<Tensor>,
    d: Dispatch,
    xs: Seq<Seq<E>>,
    out: Seq<E>,
)
    requires
        call_ensures(MetalExp2::process, (op, inputs), d),
        out.len() == inputs[0].1.physical,
        out.len() <= u32::MAX,
    ensures
        d.kernel == op.kernel,
        d.out_bytes == 4 * out.len(),
        launched(call_program(r, "exp2"@), d@.bindings, xs, out, d@.n_elements) == mapped(
            |e: E| (r.call)("exp2"@, seq![e]),
            xs[0],
            out.len(),
        ),
{
    lemma_call_launched(r, "exp2"@, d@.bindings, xs, out);
}

/// Run as it is planned, the kernel of the sine writes that of every element of the input's
/// buffer, into a buffer that holds as many.
pub proof fn lemma_sin_runs<E>(
    r: Reading<E>,
    op: &MetalSin,
    inputs: &Vec<Tensor>,
    d: Dispatch,
    xs: Seq<Seq<E>>,
    out: Seq<E>,
)
    requires
        call_ensures(MetalSin::process, (op, inputs), d),
        out.len() == inputs[0].1.physical,
        out.len() <= u32::MAX,
    ensures
        d.kernel == op.kernel,
        d.out_bytes == 4 * out.len(),
        launched(call_program(r, "sin"@), d@.bindings, xs, out, d@.n_elements) == mapped(
            |e: E| (r.call)("sin"@, seq![e]),
            xs[0],
            out.len(),
        ),
{
    lemma_call_launched(r, "sin"@, d@.bindings, xs, out);
}

/// Run as it is planned, the kernel of the square root writes that of every element of the input's
/// buffer, into a buffer that holds as many.
pub proof fn lemma_sqrt_runs<E>(
    r: Reading<E>,
    op: &MetalSqrt,
    inputs: &Vec<Tensor>,
    d: Dispatch,
    xs: Seq<Seq<E>>,
    out: Seq<E>,
)
    requires
        call_ensures(MetalSqrt::process, (op, inputs), d),
        out.len() == inputs[0].1.physical,
        out.len() <= u32::MAX,
    ensures
        d.kernel == op.kernel,
        d.out_bytes == 4 * out.len(),
        launched(call_program(r, "sqrt"@), d@.bindings, xs, out, d@.n_elements) == mapped(
            |e: E| (r.call)("sqrt"@, seq![e]),
            xs[0],
            out.len(),
        ),
{
    lemma_call_launched(r, "sqrt"@, d@.bindings, xs, out);
}

/// Run as it is planned, the kernel of the reciprocal divides 1 by every element of the input's
/// buffer, into a buffer that holds as many.
pub proof fn lemma_recip_runs<E>(
    r: Reading<E>,
    op: &MetalRecip,
    inputs: &Vec<Tensor>,
    d: Dispatch,
    xs: Seq<Seq<E>>,
    out: Seq<E>,
)
    requires
        call_ensures(MetalRecip::process, (op, inputs), d),
        out.len() == inputs[0].1.physical,
        out.len() <= u32::MAX,
    ensures
        d.kernel == op.kernel,
        d.out_bytes == 4 * out.len(),
        launched(recip_program(r), d@.bindings, xs, out, d@.n_elements) == mapped(
            |e: E| (r.infix)("/"@, (r.literal)("1.0"@), e),
            xs[0],
            out.len(),
        ),
{
    let bindings = d@.bindings;
    let g = |i: int, e: E| (r.infix)("/"@, (r.literal)("1.0"@), xs[0][i]);
    assert forall|i: int, o: Seq<E>|
        0 <= i < out.len() && o.len() == out.len() implies #[trigger] (recip_program(r).thread)(
        Start { bindings, inputs: xs, out: o, thread: i },
    ) == o.update(i, g(i, o[i])) by {
        lemma_recip_thread(r, Start { bindings, inputs: xs, out: o, thread: i });
    }
    lemma_launched(recip_program(r), bindings, xs, out, out.len(), g);
    assert(launched(recip_program(r), bindings, xs, out, out.len()) =~= mapped(
        |e: E| (r.infix)("/"@, (r.literal)("1.0"@), e),
        xs[0],
        out.len(),
    ));
}

/// A thread of a kernel that lays a view out.
proof fn lemma_contiguous_thread<E>(
    r: Reading<E>,
    shape: &ShapeTracker,
    planned: Seq<Dim>,
    actual: Seq<Dim>,
    s: Start<E>,
    fixed: Seq<Binding>,
)
    requires
        planned.len() == actual.len(),
        fixed.len() == 3,
        fixed[0] == Binding::Input(0),
        fixed[1] == Binding::Output,
        s.bindings == fixed + dyn_sizes(planned, actual),
    ensures
        ({
            let ev = expressions(r, planned, actual);
            (contiguous_program(r, shape, symbols(planned)).thread)(s) == if s.thread < number_in(
                s,
                2,
            ) && is_valid(ev, shape, s.thread) {
                s.out.update(s.thread, s.inputs[0][ev(shape.index@, s.thread)])
            } else {
                s.out
            }
        }),
{
    lemma_names();
    let a = one_input::<E>();
    let letters = symbols(planned);
    lemma_symbols_once(planned);
    lemma_letters(a, letters, s);
    let l = (and_letters(a, letters).memory)(s);
    lemma_sizes(a, planned, actual, s, fixed, l);
    assert(l.numbers.contains_key("idx"@) && l.numbers.contains_key("n_elements"@));
}

/// Run as it is planned, the kernel that lays a view out does.
pub proof fn lemma_contiguous_runs<E>(
    r: Reading<E>,
    op: &MetalContiguous,
    inputs: &Vec<Tensor>,
    d: Dispatch,
    xs: Seq<Seq<E>>,
    out: Seq<E>,
)
    requires
        call_ensures(MetalContiguous::process, (op, inputs), d),
        op.shape.dims@.len() == inputs[0].1.dims@.len(),
        out.len() == product(inputs[0].1.dims@),
        out.len() <= u32::MAX,
    ensures
        d.kernel == op.kernel,
        d.out_bytes == 4 * out.len(),
        launched(
            contiguous_program(r, &op.shape, symbols(op.shape.dims@)),
            d@.bindings,
            xs,
            out,
            d@.n_elements,
        ) == laid_out(
            expressions(r, op.shape.dims@, inputs[0].1.dims@),
            &op.shape,
            xs[0],
            out,
            out.len(),
        ),
{
    let (planned, actual) = (op.shape.dims@, inputs[0].1.dims@);
    let p = contiguous_program(r, &op.shape, symbols(planned));
    let ev = expressions(r, planned, actual);
    let bindings = d@.bindings;
    let n = out.len();
    let fixed = seq![Binding::Input(0), Binding::Output, Binding::Int(low_word(n))];
    let g = |i: int, e: E| element(ev, &op.shape, xs[0], i, e);
    assert forall|i: int, o: Seq<E>| 0 <= i < n && o.len() == out.len() implies #[trigger] (
    p.thread)(Start { bindings, inputs: xs, out: o, thread: i }) == o.update(i, g(i, o[i])) by {
        let s = Start { bindings, inputs: xs, out: o, thread: i };
        assert(bindings[2] == fixed[2]);
        lemma_contiguous_thread(r, &op.shape, planned, actual, s, fixed);
        assert(o.update(i, o[i]) =~= o);
    }
    lemma_launched(p, bindings, xs, out, n, g);
    assert(launched(p, bindings, xs, out, n) =~= laid_out(ev, &op.shape, xs[0], out, n));
}

/// A thread of a kernel that joins two elements by a sign.
proof fn lemma_sign_thread<E>(
    r: Reading<E>,
    sign: Seq<char>,
    a: &ShapeTracker,
    b: &ShapeTracker,
    planned: Seq<Dim>,
    actual: Seq<Dim>,
    s: Start<E>,
    fixed: Seq<Binding>,
)
    requires
        two_bound(planned, actual, s, fixed),
    ensures
        ({
            let ev = expressions(r, planned, actual);
            let zero = (r.literal)("0.0"@);
            (sign_program(r, sign, a, b, symbols(planned)).thread)(s) == if s.thread < number_in(
                s,
                3,
            ) {
                s.out.update(
                    s.thread,
                    (r.infix)(
                        sign,
                        element(ev, a, s.inputs[0], s.thread, zero),
                        element(ev, b, s.inputs[1], s.thread, zero),
                    ),
                )
            } else {
                s.out
            }
        }),
{
    lemma_two_known(planned, actual, s, fixed);
    lemma_names();
}

/// A thread of a kernel that takes remainders.
proof fn lemma_mod_thread<E>(
    r: Reading<E>,
    a: &ShapeTracker,
    b: &ShapeTracker,
    planned: Seq<Dim>,
    actual: Seq<Dim>,
    s: Start<E>,
    fixed: Seq<Binding>,
)
    requires
        two_bound(planned, actual, s, fixed),
    ensures
        ({
            let ev = expressions(r, planned, actual);
            let zero = (r.literal)("0.0"@);
            (mod_program(r, a, b, symbols(planned)).thread)(s) == if s.thread < number_in(s, 3) {
                s.out.update(
                    s.thread,
                    (r.call)(
                        "fmod"@,
                        seq![
                            element(ev, a, s.inputs[0], s.thread, zero),
                            element(ev, b, s.inputs[1], s.thread, zero),
                        ],
                    ),
                )
            } else {
                s.out
            }
        }),
{
    lemma_two_known(planned, actual, s, fixed);
    lemma_names();
}

/// A thread of a kernel that compares.
proof fn lemma_less_than_thread<E>(
    r: Reading<E>,
    a: &ShapeTracker,
    b: &ShapeTracker,
    planned: Seq<Dim>,
    actual: Seq<Dim>,
    s: Start<E>,
    fixed: Seq<Binding>,
)
    requires
        two_bound(planned, actual, s, fixed),
    ensures
        ({
            let ev = expressions(r, planned, actual);
            let zero = (r.literal)("0.0"@);
            (less_than_program(r, a, b, symbols(planned)).thread)(s) == if s.thread < number_in(
                s,
                3,
            ) {
                s.out.update(
                    s.thread,
                    if (r.less)(
                        element(ev, a, s.inputs[0], s.thread, zero),
                        element(ev, b, s.inputs[1], s.thread, zero),
                    ) {
                        (r.literal)("1.0"@)
                    } else {
                        zero
                    },
                )
            } else {
                s.out
            }
        }),
{
    lemma_two_known(planned, actual, s, fixed);
    lemma_names();
}

/// What a thread of a kernel of two inputs is started with.
spec fn two_bound<E>(
    planned: Seq<Dim>,
    actual: Seq<Dim>,
    s: Start<E>,
    fixed: Seq<Binding>,
) -> bool {
    &&& planned.len() == actual.len()
    &&& fixed.len() == 4
    &&& fixed[0] == Binding::Input(0)
    &&& fixed[1] == Binding::Input(1)
    &&& fixed[2] == Binding::Output
    &&& s.bindings == fixed + dyn_sizes(planned, actual)
}

/// What such a thread knows.
proof fn lemma_two_known<E>(
    planned: Seq<Dim>,
    actual: Seq<Dim>,
    s: Start<E>,
    fixed: Seq<Binding>,
)
    requires
        two_bound(planned, actual, s, fixed),
    ensures
        ({
            let l = (and_letters(two_inputs::<E>(), symbols(planned)).memory)(s);
            &&& letter_sizes(l) == actual_sizes(planned, actual)
            &&& l.numbers["idx"@] == s.thread
            &&& l.numbers["n_elements"@] == number_in(s, 3)
            &&& l.buffers["inp_a"@] == s.inputs[0]
            &&& l.buffers["inp_b"@] == s.inputs[1]
            &&& l.buffers["out"@] == s.out
        }),
{
    lemma_names();
    let a = two_inputs::<E>();
    let letters = symbols(planned);
    lemma_symbols_once(planned);
    lemma_letters(a, letters, s);
    let l = (and_letters(a, letters).memory)(s);
    lemma_sizes(a, planned, actual, s, fixed, l);
    assert(l.numbers.contains_key("idx"@) && l.numbers.contains_key("n_elements"@));
}

/// A kernel of two inputs in which every thread writes what `f` makes of its two elements, run
/// over a view.
proof fn lemma_pairs_launched<E>(
    p: Program<E>,
    ev: Expressions,
    f: spec_fn(E, E) -> E,
    zero: E,
    a: (&ShapeTracker, Seq<E>),
    b: (&ShapeTracker, Seq<E>),
    bindings: Seq<Binding>,
    xs: Seq<Seq<E>>,
    out: Seq<E>,
)
    requires
        forall|i: int, o: Seq<E>|
            0 <= i < out.len() && o.len() == out.len() ==> #[trigger] (p.thread)(
                Start { bindings, inputs: xs, out: o, thread: i },
            ) == o.update(
                i,
                f(element(ev, a.0, a.1, i, zero), element(ev, b.0, b.1, i, zero)),
            ),
    ensures
        launched(p, bindings, xs, out, out.len()) == paired(ev, f, zero, a, b, out.len()),
{
    let g = |i: int, e: E| f(element(ev, a.0, a.1, i, zero), element(ev, b.0, b.1, i, zero));
    assert forall|i: int, o: Seq<E>|
        0 <= i < out.len() && o.len() == out.len() implies #[trigger] (p.thread)(
        Start { bindings, inputs: xs, out: o, thread: i },
    ) == o.update(i, g(i, o[i])) by {
        assert((p.thread)(Start { bindings, inputs: xs, out: o, thread: i }) == o.update(
            i,
            f(element(ev, a.0, a.1, i, zero), element(ev, b.0, b.1, i, zero)),
        ));
    }
    lemma_launched(p, bindings, xs, out, out.len(), g);
    assert(launched(p, bindings, xs, out, out.len()) =~= paired(ev, f, zero, a, b, out.len()));
}

/// Run as it is planned, the kernel of the sum of two tensors writes the sum of their elements,
/// each under the view that the operator was made for, and padding read as 0: of the first input
/// and the second, in this order.
pub proof fn lemma_add_runs<E>(
    r: Reading<E>,
    op: &MetalAdd,
    inputs: &Vec<Tensor>,
    d: Dispatch,
    xs: Seq<Seq<E>>,
    out: Seq<E>,
)
    requires
        call_ensures(MetalAdd::process, (op, inputs), d),
        op.a_shape.dims@.len() == inputs[0].1.dims@.len(),
        op.b_shape.dims@.len() == inputs[1].1.dims@.len(),
        out.len() == product(inputs[0].1.dims@),
        out.len() <= u32::MAX,
    ensures
        d.kernel == op.kernel,
        d.out_bytes == 4 * out.len(),
        launched(
            sign_program(r, "+"@, &op.a_shape, &op.b_shape, symbols(op.a_shape.dims@ + op.b_shape.dims@)),
            d@.bindings,
            xs,
            out,
            d@.n_elements,
        ) == paired(
            expressions(
                r,
                op.a_shape.dims@ + op.b_shape.dims@,
                inputs[0].1.dims@ + inputs[1].1.dims@,
            ),
            |x: E, y: E| (r.infix)("+"@, x, y),
            (r.literal)("0.0"@),
            (&op.a_shape, xs[0]),
            (&op.b_shape, xs[1]),
            out.len(),
        ),
{
    let planned = op.a_shape.dims@ + op.b_shape.dims@;
    let actual = inputs[0].1.dims@ + inputs[1].1.dims@;
    let p = sign_program(r, "+"@, &op.a_shape, &op.b_shape, symbols(planned));
    let ev = expressions(r, planned, actual);
    let bindings = d@.bindings;
    let n = out.len();
    let zero = (r.literal)("0.0"@);
    let f = |x: E, y: E| (r.infix)("+"@, x, y);
    let a: (&ShapeTracker, Seq<E>) = (&op.a_shape, xs[0]);
    let b: (&ShapeTracker, Seq<E>) = (&op.b_shape, xs[1]);
    let fixed = seq![
        Binding::Input(0),
        Binding::Input(1),
        Binding::Output,
        Binding::Int(low_word(n)),
    ];
    assert forall|i: int, o: Seq<E>| 0 <= i < n && o.len() == out.len() implies #[trigger] (
    p.thread)(Start { bindings, inputs: xs, out: o, thread: i }) == o.update(
        i,
        f(element(ev, a.0, a.1, i, zero), element(ev, b.0, b.1, i, zero)),
    ) by {
        let s = Start { bindings, inputs: xs, out: o, thread: i };
        assert(bindings[3] == fixed[3]);
        lemma_sign_thread(r, "+"@, &op.a_shape, &op.b_shape, planned, actual, s, fixed);
    }
    lemma_pairs_launched(p, ev, f, zero, a, b, bindings, xs, out);
}

/// Run as it is planned, the kernel of the product of two tensors writes the product of their
/// elements, each under the view that the operator was made for, and padding read as 0: of the
/// first input and the second, in this order.
pub proof fn lemma_mul_runs<E>(
    r: Reading<E>,
    op: &MetalMul,
    inputs: &Vec<Tensor>,
    d: Dispatch,
    xs: Seq<Seq<E>>,
    out: Seq<E>,
)
    requires
        call_ensures(MetalMul::process, (op, inputs), d),
        op.a_shape.dims@.len() == inputs[0].1.dims@.len(),
        op.b_shape.dims@.len() == inputs[1].1.dims@.len(),
        out.len() == product(inputs[0].1.dims@),
        out.len() <= u32::MAX,
    ensures
        d.kernel == op.kernel,
        d.out_bytes == 4 * out.len(),
        launched(
            sign_program(r, "*"@, &op.a_shape, &op.b_shape, symbols(op.a_shape.dims@ + op.b_shape.dims@)),
            d@.bindings,
            xs,
            out,
            d@.n_elements,
        ) == paired(
            expressions(
                r,
                op.a_shape.dims@ + op.b_shape.dims@,
                inputs[0].1.dims@ + inputs[1].1.dims@,
            ),
            |x: E, y: E| (r.infix)("*"@, x, y),
            (r.literal)("0.0"@),
            (&op.a_shape, xs[0]),
            (&op.b_shape, xs[1]),
            out.len(),
        ),
{
    let planned = op.a_shape.dims@ + op.b_shape.dims@;
    let actual = inputs[0].1.dims@ + inputs[1].1.dims@;
    let p = sign_program(r, "*"@, &op.a_shape, &op.b_shape, symbols(planned));
    let ev = expressions(r, planned, actual);
    let bindings = d@.bindings;
    let n = out.len();
    let zero = (r.literal)("0.0"@);
    let f = |x: E, y: E| (r.infix)("*"@, x, y);
    let a: (&ShapeTracker, Seq<E>) = (&op.a_shape, xs[0]);
    let b: (&ShapeTracker, Seq<E>) = (&op.b_shape, xs[1]);
    let fixed = seq![
        Binding::Input(0),
        Binding::Input(1),
        Binding::Output,
        Binding::Int(low_word(n)),
    ];
    assert forall|i: int, o: Seq<E>| 0 <= i < n && o.len() == out.len() implies #[trigger] (
    p.thread)(Start { bindings, inputs: xs, out: o, thread: i }) == o.update(
        i,
        f(element(ev, a.0, a.1, i, zero), element(ev, b.0, b.1, i, zero)),
    ) by {
        let s = Start { bindings, inputs: xs, out: o, thread: i };
        assert(bindings[3] == fixed[3]);
        lemma_sign_thread(r, "*"@, &op.a_shape, &op.b_shape, planned, actual, s, fixed);
    }
    lemma_pairs_launched(p, ev, f, zero, a, b, bindings, xs, out);
}

/// Run as it is planned, the kernel of the remainder of two tensors writes the remainder of their
/// elements, each under the view that the operator was made for, and padding read as 0: of the
/// first input and the second, in this order.
pub proof fn lemma_mod_runs<E>(
    r: Reading<E>,
    op: &MetalMod,
    inputs: &Vec<Tensor>,
    d: Dispatch,
    xs: Seq<Seq<E>>,
    out: Seq<E>,
)
    requires
        call_ensures(MetalMod::process, (op, inputs), d),
        op.a_shape.dims@.len() == inputs[0].1.dims@.len(),
        op.b_shape.dims@.len() == inputs[1].1.dims@.len(),
        out.len() == product(inputs[0].1.dims@),
        out.len() <= u32::MAX,
    ensures
        d.kernel == op.kernel,
        d.out_bytes == 4 * out.len(),
        launched(
            mod_program(r, &op.a_shape, &op.b_shape, symbols(op.a_shape.dims@ + op.b_shape.dims@)),
            d@.bindings,
            xs,
            out,
            d@.n_elements,
        ) == paired(
            expressions(
                r,
                op.a_shape.dims@ + op.b_shape.dims@,
                inputs[0].1.dims@ + inputs[1].1.dims@,
            ),
            |x: E, y: E| (r.call)("fmod"@, seq![x, y]),
            (r.literal)("0.0"@),
            (&op.a_shape, xs[0]),
            (&op.b_shape, xs[1]),
            out.len(),
        ),
{
    let planned = op.a_shape.dims@ + op.b_shape.dims@;
    let actual = inputs[0].1.dims@ + inputs[1].1.dims@;
    let p = mod_program(r, &op.a_shape, &op.b_shape, symbols(planned));
    let ev = expressions(r, planned, actual);
    let bindings = d@.bindings;
    let n = out.len();
    let zero = (r.literal)("0.0"@);
    let f = |x: E, y: E| (r.call)("fmod"@, seq![x, y]);
    let a: (&ShapeTracker, Seq<E>) = (&op.a_shape, xs[0]);
    let b: (&ShapeTracker, Seq<E>) = (&op.b_shape, xs[1]);
    let fixed = seq![
        Binding::Input(0),
        Binding::Input(1),
        Binding::Output,
        Binding::Int(low_word(n)),
    ];
    assert forall|i: int, o: Seq<E>| 0 <= i < n && o.len() == out.len() implies #[trigger] (
    p.thread)(Start { bindings, inputs: xs, out: o, thread: i }) == o.update(
        i,
        f(element(ev, a.0, a.1, i, zero), element(ev, b.0, b.1, i, zero)),
    ) by {
        let s = Start { bindings, inputs: xs, out: o, thread: i };
        assert(bindings[3] == fixed[3]);
        lemma_mod_thread(r, &op.a_shape, &op.b_shape, planned, actual, s, fixed);
    }
    lemma_pairs_launched(p, ev, f, zero, a, b, bindings, xs, out);
}

/// Run as it is planned, the kernel of the comparison of two tensors writes 1 where the element
/// of the  first is less, else 0, each under the view that the operator was made for, and padding
/// read as 0: of the first input and the second, in this order.
pub proof fn lemma_less_than_runs<E>(
    r: Reading<E>,
    op: &MetalLessThan,
    inputs: &Vec<Tensor>,
    d: Dispatch,
    xs: Seq<Seq<E>>,
    out: Seq<E>,
)
    requires
        call_ensures(MetalLessThan::process, (op, inputs), d),
        op.a_shape.dims@.len() == inputs[0].1.dims@.len(),
        op.b_shape.dims@.len() == inputs[1].1.dims@.len(),
        out.len() == product(inputs[0].1.dims@),
        out.len() <= u32::MAX,
    ensures
        d.kernel == op.kernel,
        d.out_bytes == 4 * out.len(),
        launched(
            less_than_program(r, &op.a_shape, &op.b_shape, symbols(op.a_shape.dims@ + op.b_shape.dims@)),
            d@.bindings,
            xs,
            out,
            d@.n_elements,
        ) == paired(
            expressions(
                r,
                op.a_shape.dims@ + op.b_shape.dims@,
                inputs[0].1.dims@ + inputs[1].1.dims@,
            ),
            |x: E, y: E|
                if (r.less)(x, y) {
                    (r.literal)("1.0"@)
                } else {
                    (r.literal)("0.0"@)
                },
            (r.literal)("0.0"@),
            (&op.a_shape, xs[0]),
            (&op.b_shape, xs[1]),
            out.len(),
        ),
{
    let planned = op.a_shape.dims@ + op.b_shape.dims@;
    let actual = inputs[0].1.dims@ + inputs[1].1.dims@;
    let p = less_than_program(r, &op.a_shape, &op.b_shape, symbols(planned));
    let ev = expressions(r, planned, actual);
    let bindings = d@.bindings;
    let n = out.len();
    let zero = (r.literal)("0.0"@);
    let f = |x: E, y: E|
        if (r.less)(x, y) {
            (r.literal)("1.0"@)
        } else {
            (r.literal)("0.0"@)
        };
    let a: (&ShapeTracker, Seq<E>) = (&op.a_shape, xs[0]);
    let b: (&ShapeTracker, Seq<E>) = (&op.b_shape, xs[1]);
    let fixed = seq![
        Binding::Input(0),
        Binding::Input(1),
        Binding::Output,
        Binding::Int(low_word(n)),
    ];
    assert forall|i: int, o: Seq<E>| 0 <= i < n && o.len() == out.len() implies #[trigger] (
    p.thread)(Start { bindings, inputs: xs, out: o, thread: i }) == o.update(
        i,
        f(element(ev, a.0, a.1, i, zero), element(ev, b.0, b.1, i, zero)),
    ) by {
        let s = Start { bindings, inputs: xs, out: o, thread: i };
        assert(bindings[3] == fixed[3]);
        lemma_less_than_thread(r, &op.a_shape, &op.b_shape, planned, actual, s, fixed);
    }
    lemma_pairs_launched(p, ev, f, zero, a, b, bindings, xs, out);
}

/// A step that takes the element of a view into what was gathered.
spec fn takes<E>(
    r: Reading<E>,
    shape: &ShapeTracker,
    take: Step<E>,
    f: spec_fn(E, E) -> E,
    m: Memory<E>,
) -> bool {
    let t = (take.run)(m);
    let i = (r.view)(shape.index@, m.numbers["idx"@], letter_sizes(m));
    &&& t.buffers == m.buffers
    &&& t.elements["reduce_value"@] == f(m.elements["reduce_value"@], m.buffers["inp"@][i])
    &&& forall|n: Seq<char>|
        n != "a_idx"@ ==> (#[trigger] t.numbers.contains_key(n) == m.numbers.contains_key(n))
            && t.numbers[n] == m.numbers[n]
}

proof fn lemma_sum_takes<E>(r: Reading<E>, shape: &ShapeTracker, m: Memory<E>)
    ensures
        takes(r, shape, sum_step(r, shape), |a: E, b: E| (r.infix)("+"@, a, b), m),
{
}

proof fn lemma_max_takes<E>(r: Reading<E>, shape: &ShapeTracker, m: Memory<E>)
    ensures
        takes(r, shape, max_step(r, shape), |a: E, b: E| (r.call)("max"@, seq![a, b]), m),
{
}

/// What two memories share that a kernel which reduces reads in its loop.
spec fn same_turn<E>(a: Memory<E>, b: Memory<E>) -> bool {
    &&& a.buffers == b.buffers
    &&& a.numbers["a_"@] == b.numbers["a_"@]
    &&& a.numbers["b_"@] == b.numbers["b_"@]
    &&& a.numbers["i_"@] == b.numbers["i_"@]
    &&& a.numbers["dim_size"@] == b.numbers["dim_size"@]
    &&& a.numbers["back_size"@] == b.numbers["back_size"@]
    &&& forall|c: char|
        #![trigger a.numbers.contains_key(seq![c])]
        a.numbers.contains_key(seq![c]) == b.numbers.contains_key(seq![c]) && a.numbers[seq![c]]
            == b.numbers[seq![c]]
}

/// The element that a kernel takes in at `c` along the dimension, if it is there.
spec fn turn_element<E>(r: Reading<E>, shape: &ShapeTracker, m: Memory<E>) -> spec_fn(int) -> Option<
    E,
> {
    |c: int|
        {
            let e = m.numbers["a_"@] * m.numbers["dim_size"@] * m.numbers["back_size"@] + c
                * m.numbers["back_size"@] + m.numbers["b_"@];
            if (r.view)(shape.valid@, e, letter_sizes(m)) != 0 {
                Some(m.buffers["inp"@][(r.view)(shape.index@, e, letter_sizes(m))])
            } else {
                None
            }
        }
}

/// What a kernel that reduces has gathered after `k` turns.
proof fn lemma_turns<E>(
    r: Reading<E>,
    shape: &ShapeTracker,
    take: Step<E>,
    f: spec_fn(E, E) -> E,
    k: nat,
    m: Memory<E>,
)
    requires
        forall|t: Memory<E>| takes(r, shape, take, f, t),
    ensures
        ({
            let t = repeated("c_"@, reduce_turn(r, shape, take).run, k, m);
            &&& same_turn(t, m)
            &&& t.elements["reduce_value"@] == gathered(
                f,
                m.elements["reduce_value"@],
                k,
                turn_element(r, shape, m),
            )
        }),
    decreases k,
{
    lemma_names();
    if k > 0 {
        let run = reduce_turn(r, shape, take).run;
        lemma_turns(r, shape, take, f, (k - 1) as nat, m);
        let b = repeated("c_"@, run, (k - 1) as nat, m);
        let c = Memory { numbers: b.numbers.insert("c_"@, k - 1), ..b };
        let t = (turn_index::<E>().run)(c);
        let e = m.numbers["a_"@] * m.numbers["dim_size"@] * m.numbers["back_size"@] + (k - 1)
            * m.numbers["back_size"@] + m.numbers["b_"@];
        assert(t.numbers["idx"@] == e);
        assert forall|x: char| #[trigger]
            letter_sizes(t)(x) == letter_sizes(m)(x) by {
            assert(seq![x].len() == 1);
            assert(b.numbers.contains_key(seq![x]) == m.numbers.contains_key(seq![x]));
        }
        assert(letter_sizes(t) =~= letter_sizes(m));
        assert(takes(r, shape, take, f, t));
        let after = run(c);
        assert(repeated("c_"@, run, k, m) == after);
        assert forall|x: char| #![trigger after.numbers.contains_key(seq![x])]
            after.numbers.contains_key(seq![x]) == m.numbers.contains_key(seq![x])
                && after.numbers[seq![x]] == m.numbers[seq![x]] by {
            assert(seq![x].len() == 1);
            assert(b.numbers.contains_key(seq![x]) == m.numbers.contains_key(seq![x]));
            assert(t.numbers.contains_key(seq![x]) == m.numbers.contains_key(seq![x]));
            assert((take.run)(t).numbers.contains_key(seq![x]) == t.numbers.contains_key(seq![x]));
        }
        let n = (take.run)(t).numbers;
        assert(n.contains_key("a_"@) == t.numbers.contains_key("a_"@));
        assert(n.contains_key("b_"@) == t.numbers.contains_key("b_"@));
        assert(n.contains_key("i_"@) == t.numbers.contains_key("i_"@));
        assert(n.contains_key("dim_size"@) == t.numbers.contains_key("dim_size"@));
        assert(n.contains_key("back_size"@) == t.numbers.contains_key("back_size"@));
    }
}

/// A thread of a kernel that reduces.
proof fn lemma_reduce_thread<E>(
    r: Reading<E>,
    shape: &ShapeTracker,
    start: Seq<char>,
    take: Step<E>,
    f: spec_fn(E, E) -> E,
    planned: Seq<Dim>,
    actual: Seq<Dim>,
    s: Start<E>,
    fixed: Seq<Binding>,
)
    requires
        planned.len() == actual.len(),
        fixed.len() == 6,
        fixed[0] == Binding::Input(0),
        fixed[1] == Binding::Output,
        s.bindings == fixed + dyn_sizes(planned, actual),
        forall|t: Memory<E>| takes(r, shape, take, f, t),
        s.thread < number_in(s, 2),
        number_in(s, 5) >= 0,
    ensures
        ({
            let ev = expressions(r, planned, actual);
            let back = number_in(s, 4);
            let along = number_in(s, 5);
            let g = |c: int|
                {
                    let e = reduced_index(s.thread, c, along, back);
                    if is_valid(ev, shape, e) {
                        Some(s.inputs[0][ev(shape.index@, e)])
                    } else {
                        None
                    }
                };
            (reduce_program(r, shape, symbols(planned), start, take).thread)(s) == s.out.update(
                s.thread,
                gathered(f, (r.literal)(start), along as nat, g),
            )
        }),
{
    lemma_names();
    let a = one_reduced::<E>();
    let letters = symbols(planned);
    lemma_symbols_once(planned);
    lemma_letters(a, letters, s);
    let l = (and_letters(a, letters).memory)(s);
    assert(l.numbers.contains_key("i_"@) && l.numbers.contains_key("n_elements"@));
    assert(l.numbers.contains_key("back_size"@) && l.numbers.contains_key("dim_size"@));
    let back = number_in(s, 4);
    let along = number_in(s, 5);
    let i = s.thread;
    let m = Memory {
        numbers: l.numbers.insert("a_"@, i / back).insert("b_"@, i % back),
        elements: l.elements.insert("reduce_value"@, (r.literal)(start)),
        ..l
    };
    lemma_sizes(a, planned, actual, s, fixed, l);
    assert(letter_sizes(m) =~= letter_sizes(l)) by {
        assert forall|x: char| #[trigger] letter_sizes(m)(x) == letter_sizes(l)(x) by {
            assert(seq![x].len() == 1);
        }
    }
    lemma_turns(r, shape, take, f, along as nat, m);
    let ev = expressions(r, planned, actual);
    let g = |c: int|
        {
            let e = reduced_index(s.thread, c, along, back);
            if is_valid(ev, shape, e) {
                Some(s.inputs[0][ev(shape.index@, e)])
            } else {
                None
            }
        };
    assert(turn_element(r, shape, m) =~= g);
    let t = repeated("c_"@, reduce_turn(r, shape, take).run, along as nat, m);
    assert(t.buffers["out"@] == s.out);
    assert(t.numbers["i_"@] == i);
}

/// A kernel that reduces, run over a view of which 32 bits can count the elements.
proof fn lemma_reduce_launched<E>(
    r: Reading<E>,
    shape: &ShapeTracker,
    start: Seq<char>,
    take: Step<E>,
    f: spec_fn(E, E) -> E,
    planned: Seq<Dim>,
    actual: Seq<Dim>,
    dim: int,
    front: Binding,
    bindings: Seq<Binding>,
    xs: Seq<Seq<E>>,
    out: Seq<E>,
)
    requires
        planned.len() == actual.len(),
        0 <= dim < actual.len(),
        product(actual) <= u32::MAX,
        out.len() == product(actual.remove(dim)),
        out.len() <= u32::MAX,
        bindings == seq![
            Binding::Input(0),
            Binding::Output,
            Binding::Int(low_word(out.len())),
            front,
            Binding::Int(low_word(product(actual.skip(dim + 1)))),
            Binding::Int(low_word(size(actual[dim]))),
        ] + dyn_sizes(planned, actual),
        forall|t: Memory<E>| takes(r, shape, take, f, t),
    ensures
        launched(
            reduce_program(r, shape, symbols(planned), start, take),
            bindings,
            xs,
            out,
            out.len(),
        ) == reduced(
            expressions(r, planned, actual),
            f,
            (r.literal)(start),
            shape,
            xs[0],
            actual,
            dim,
        ),
{
    let p = reduce_program(r, shape, symbols(planned), start, take);
    let ev = expressions(r, planned, actual);
    let n = out.len();
    let fixed = bindings.take(6);
    let y = reduced(ev, f, (r.literal)(start), shape, xs[0], actual, dim);
    let g = |i: int, e: E| y[i];
    lemma_reduce_sizes(actual, dim);
    let along = size(actual[dim]);
    let back = product(actual.skip(dim + 1));
    let before = product(actual.take(dim));
    assert(bindings =~= fixed + dyn_sizes(planned, actual));
    assert forall|i: int, o: Seq<E>| 0 <= i < n && o.len() == out.len() implies #[trigger] (
    p.thread)(Start { bindings, inputs: xs, out: o, thread: i }) == o.update(i, g(i, o[i])) by {
        let s = Start { bindings, inputs: xs, out: o, thread: i };
        assert(back <= n && along <= product(actual)) by (nonlinear_arith)
            requires
                0 <= i < n,
                n == before * back,
                product(actual) == before * along * back,
                along >= 0,
                back >= 0,
                before >= 0,
        ;
        assert(number_in(s, 4) == back && number_in(s, 5) == along && number_in(s, 2) == n);
        lemma_reduce_thread(r, shape, start, take, f, planned, actual, s, fixed);
        let h = |c: int|
            {
                let e = reduced_index(i, c, along as int, back as int);
                if is_valid(ev, shape, e) {
                    Some(xs[0][ev(shape.index@, e)])
                } else {
                    None
                }
            };
        assert(h =~= slice(ev, shape, xs[0], actual, dim, i));
    }
    lemma_launched(p, bindings, xs, out, n, g);
    assert(launched(p, bindings, xs, out, n) =~= y);
}

/// Run as it is planned, the kernel of the sum along a dimension adds up, from 0 on, the elements
/// of the input along that dimension, under the view that the operator was made for and without
/// padding.
pub proof fn lemma_sum_runs<E>(
    r: Reading<E>,
    op: &MetalSumReduce,
    inputs: &Vec<Tensor>,
    d: Dispatch,
    xs: Seq<Seq<E>>,
    out: Seq<E>,
)
    requires
        call_ensures(MetalSumReduce::process, (op, inputs), d),
        op.shape.dims@.len() == inputs[0].1.dims@.len(),
        op.dim < inputs[0].1.dims@.len(),
        product(inputs[0].1.dims@) <= u32::MAX,
        out.len() == product(inputs[0].1.dims@.remove(op.dim as int)),
        out.len() <= u32::MAX,
    ensures
        d.kernel == op.kernel,
        d.out_bytes == 4 * out.len(),
        launched(
            sum_program(r, &op.shape, symbols(op.shape.dims@)),
            d@.bindings,
            xs,
            out,
            d@.n_elements,
        ) == reduced(
            expressions(r, op.shape.dims@, inputs[0].1.dims@),
            |a: E, b: E| (r.infix)("+"@, a, b),
            (r.literal)("0.0"@),
            &op.shape,
            xs[0],
            inputs[0].1.dims@,
            op.dim as int,
        ),
{
    let f = |a: E, b: E| (r.infix)("+"@, a, b);
    let take = sum_step(r, &op.shape);
    assert forall|t: Memory<E>| takes(r, &op.shape, take, f, t) by {
        lemma_sum_takes(r, &op.shape, t);
    }
    lemma_reduce_launched(
        r,
        &op.shape,
        "0.0"@,
        take,
        f,
        op.shape.dims@,
        inputs[0].1.dims@,
        op.dim as int,
        d@.bindings[3],
        d@.bindings,
        xs,
        out,
    );
}

/// Run as it is planned, the kernel of the maximum along a dimension takes the maximum of the
/// elements of the input along that dimension, under the view that the operator was made for and
/// without padding.
pub proof fn lemma_max_runs<E>(
    r: Reading<E>,
    op: &MetalMaxReduce,
    inputs: &Vec<Tensor>,
    d: Dispatch,
    xs: Seq<Seq<E>>,
    out: Seq<E>,
)
    requires
        call_ensures(MetalMaxReduce::process, (op, inputs), d),
        op.shape.dims@.len() == inputs[0].1.dims@.len(),
        op.dim < inputs[0].1.dims@.len(),
        product(inputs[0].1.dims@) <= u32::MAX,
        out.len() == product(inputs[0].1.dims@.remove(op.dim as int)),
        out.len() <= u32::MAX,
    ensures
        d.kernel == op.kernel,
        d.out_bytes == 4 * out.len(),
        launched(
            max_program(r, &op.shape, symbols(op.shape.dims@)),
            d@.bindings,
            xs,
            out,
            d@.n_elements,
        ) == reduced(
            expressions(r, op.shape.dims@, inputs[0].1.dims@),
            |a: E, b: E| (r.call)("max"@, seq![a, b]),
            (r.literal)("-(float)0x7f800000"@),
            &op.shape,
            xs[0],
            inputs[0].1.dims@,
            op.dim as int,
        ),
{
    let f = |a: E, b: E| (r.call)("max"@, seq![a, b]);
    let take = max_step(r, &op.shape);
    assert forall|t: Memory<E>| takes(r, &op.shape, take, f, t) by {
        lemma_max_takes(r, &op.shape, t);
    }
    lemma_reduce_launched(
        r,
        &op.shape,
        "-(float)0x7f800000"@,
        take,
        f,
        op.shape.dims@,
        inputs[0].1.dims@,
        op.dim as int,
        d@.bindings[3],
        d@.bindings,
        xs,
        out,
    );
}

} // verus!
