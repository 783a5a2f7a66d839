//! What the kernels of `source` do, read piece by piece.
use crate::language::{
    add_element, and_buffer, and_letters, and_number, and_thread, at, below, both, bracketed,
    called, called_on_two, choice, each_below, either, first_buffer, followed, guarded, held,
    in_brackets, is_zero, joined, known, less_elements, literal, modulo, name_element, name_number,
    nonzero, over, plus, program, spaced, store, times, viewed, Element, Program, Reading,
    Signature, Step,
};
use crate::shape::ShapeTracker;
use crate::source::{
    add_source, add_template, contiguous_source, contiguous_template, dyn_inputs, less_than_source,
    less_than_template, max_reduce_source, max_reduce_template, mod_source, mod_template,
    mul_source, mul_template, sum_reduce_source, sum_reduce_template, symbols, ADD_A_INDEX,
    ADD_A_VALID, ADD_B_INDEX, ADD_B_VALID, ADD_TAIL, BINARY_HEAD, CONTIGUOUS_HEAD, CONTIGUOUS_INDEX,
    CONTIGUOUS_TAIL, CONTIGUOUS_VALID, EXP2, LESS_THAN_A_INDEX, LESS_THAN_A_VALID,
    LESS_THAN_B_INDEX, LESS_THAN_B_VALID, LESS_THAN_TAIL, LOG2, MAX_INDEX, MAX_TAIL, MAX_VALID,
    MOD_A_INDEX, MOD_A_VALID, MOD_B_INDEX, MOD_B_VALID, MOD_TAIL, MUL_A_INDEX, MUL_A_VALID,
    MUL_B_INDEX, MUL_B_VALID, MUL_TAIL, RECIP, REDUCE_HEAD, SIN, SQRT, SUM_INDEX, SUM_TAIL,
    SUM_VALID,
};
use vstd::prelude::*;

verus! {

/// The arguments of a kernel of one input and one output, thread by thread.
pub open spec fn one_input<E>() -> Signature<E> {
    and_thread(
        and_number(and_buffer(first_buffer("inp"@), "out"@), "n_elements"@),
        "idx"@,
    )
}

/// The arguments of a kernel of two inputs and one output, thread by thread.
pub open spec fn two_inputs<E>() -> Signature<E> {
    and_thread(
        and_number(
            and_buffer(and_buffer(first_buffer("inp_a"@), "inp_b"@), "out"@),
            "n_elements"@,
        ),
        "idx"@,
    )
}

/// The arguments of a kernel that reduces one input to one output, thread by thread.
pub open spec fn one_reduced<E>() -> Signature<E> {
    and_thread(
        and_number(
            and_number(
                and_number(
                    and_number(and_buffer(first_buffer("inp"@), "out"@), "n_elements"@),
                    "front_size"@,
                ),
                "back_size"@,
            ),
            "dim_size"@,
        ),
        "i_"@,
    )
}

/// Writes an element where the thread is one of `n_elements`, in doubled braces.
pub open spec fn unary_body<E>(e: Element<E>) -> Step<E> {
    guarded(
        "    "@,
        below(known("idx"@), known("n_elements"@)),
        "{{"@,
        store("        "@, "out"@, known("idx"@), e),
        "}}"@,
    )
}

/// A kernel that makes of every element of a buffer another.
pub open spec fn unary_program<E>(e: Element<E>) -> Program<E> {
    program(""@, one_input(), "{{"@, unary_body(e), "}}"@)
}

/// A kernel that calls a function of every element.
pub open spec fn call_program<E>(r: Reading<E>, f: Seq<char>) -> Program<E> {
    unary_program(called(r, f, at("inp"@, known("idx"@))))
}

/// A kernel that divides 1 by every element.
pub open spec fn recip_program<E>(r: Reading<E>) -> Program<E> {
    unary_program(joined(r, literal(r, "1.0"@), "/"@, at("inp"@, known("idx"@))))
}

/// Writes the element of a view where there is one.
pub open spec fn contiguous_body<E>(r: Reading<E>, shape: &ShapeTracker) -> Step<E> {
    guarded(
        "    "@,
        both(
            below(known("idx"@), known("n_elements"@)),
            nonzero(viewed(r, shape.valid@)),
        ),
        "{"@,
        store("        "@, "out"@, known("idx"@), at("inp"@, viewed(r, shape.index@))),
        "}"@,
    )
}

/// A kernel that lays a view out, with these letters for sizes known only at run time.
pub open spec fn contiguous_program<E>(
    r: Reading<E>,
    shape: &ShapeTracker,
    letters: Seq<char>,
) -> Program<E> {
    program("\n"@, and_letters(one_input(), letters), "{"@, contiguous_body(r, shape), "}"@)
}

/// Adds the element of a view to what was gathered.
pub open spec fn sum_step<E>(r: Reading<E>, shape: &ShapeTracker) -> Step<E> {
    add_element(r, "                "@, "reduce_value"@, at("inp"@, viewed(r, shape.index@)))
}

/// Takes the maximum of the element of a view and what was gathered.
pub open spec fn max_step<E>(r: Reading<E>, shape: &ShapeTracker) -> Step<E> {
    followed(
        name_number("                "@, "int "@, "a_idx"@, viewed(r, shape.index@)),
        name_element(
            "                "@,
            ""@,
            "reduce_value"@,
            called_on_two(r, "max"@, held("reduce_value"@), at("inp"@, known("a_idx"@))),
        ),
    )
}

/// Names the element that comes next along the dimension.
pub open spec fn turn_index<E>() -> Step<E> {
    name_number(
        "            "@,
        "uint "@,
        "idx"@,
        plus(
            plus(
                times(times(known("a_"@), known("dim_size"@)), known("back_size"@)),
                times(known("c_"@), known("back_size"@)),
            ),
            known("b_"@),
        ),
    )
}

/// Names the element that comes next along the dimension, and takes it in where it is there.
pub open spec fn reduce_turn<E>(r: Reading<E>, shape: &ShapeTracker, take: Step<E>) -> Step<E> {
    followed(
        turn_index(),
        guarded("            "@, nonzero(bracketed(viewed(r, shape.valid@))), "{"@, take, "}"@),
    )
}

/// Gathers along the dimension for each result, from a literal on.
pub open spec fn reduce_body<E>(
    r: Reading<E>,
    shape: &ShapeTracker,
    start: Seq<char>,
    take: Step<E>,
) -> Step<E> {
    guarded(
        "    "@,
        below(known("i_"@), known("n_elements"@)),
        "{"@,
        followed(
            followed(
                followed(
                    followed(
                        name_number(
                            "        "@,
                            "uint "@,
                            "a_"@,
                            over(known("i_"@), known("back_size"@)),
                        ),
                        name_number(
                            "        "@,
                            "uint "@,
                            "b_"@,
                            modulo(known("i_"@), known("back_size"@)),
                        ),
                    ),
                    name_element("        "@, "float "@, "reduce_value"@, literal(r, start)),
                ),
                each_below("        "@, "c_"@, known("dim_size"@), reduce_turn(r, shape, take)),
            ),
            store("        "@, "out"@, known("i_"@), held("reduce_value"@)),
        ),
        "}"@,
    )
}

/// A kernel that reduces a dimension of a view, with these letters for sizes known only at run
/// time.
pub open spec fn reduce_program<E>(
    r: Reading<E>,
    shape: &ShapeTracker,
    letters: Seq<char>,
    start: Seq<char>,
    take: Step<E>,
) -> Program<E> {
    program(
        "\n"@,
        and_letters(one_reduced(), letters),
        "{"@,
        reduce_body(r, shape, start, take),
        "}"@,
    )
}

/// A kernel that sums along a dimension of a view.
pub open spec fn sum_program<E>(
    r: Reading<E>,
    shape: &ShapeTracker,
    letters: Seq<char>,
) -> Program<E> {
    reduce_program(r, shape, letters, "0.0"@, sum_step(r, shape))
}

/// A kernel that takes the maximum along a dimension of a view.
pub open spec fn max_program<E>(
    r: Reading<E>,
    shape: &ShapeTracker,
    letters: Seq<char>,
) -> Program<E> {
    reduce_program(r, shape, letters, "-(float)0x7f800000"@, max_step(r, shape))
}

/// The element of a view of a buffer, 0 where it is padding.
pub open spec fn operand<E>(r: Reading<E>, buffer: Seq<char>, shape: &ShapeTracker) -> Element<E> {
    choice(
        is_zero(bracketed(viewed(r, shape.valid@))),
        literal(r, "0.0"@),
        at(buffer, viewed(r, shape.index@)),
    )
}

/// A kernel that does something for each thread that is one of `n_elements`, with these letters
/// for sizes known only at run time.
pub open spec fn binary_program<E>(letters: Seq<char>, body: Step<E>) -> Program<E> {
    program(
        "\n"@,
        and_letters(two_inputs(), letters),
        "{"@,
        guarded("    "@, below(known("idx"@), known("n_elements"@)), "{"@, body, "}"@),
        "}"@,
    )
}

/// Writes the elements of two views joined by a sign.
pub open spec fn sign_step<E>(
    r: Reading<E>,
    sign: Seq<char>,
    a: &ShapeTracker,
    b: &ShapeTracker,
) -> Step<E> {
    store(
        "        "@,
        "out"@,
        known("idx"@),
        joined(
            r,
            spaced(
                "\n            "@,
                in_brackets(operand(r, "inp_a"@, a)),
                " \n           "@,
            ),
            sign,
            in_brackets(operand(r, "inp_b"@, b)),
        ),
    )
}

/// A kernel that joins the elements of two views by a sign.
pub open spec fn sign_program<E>(
    r: Reading<E>,
    sign: Seq<char>,
    a: &ShapeTracker,
    b: &ShapeTracker,
    letters: Seq<char>,
) -> Program<E> {
    binary_program(letters, sign_step(r, sign, a, b))
}

/// Writes the remainder of the elements of two views.
pub open spec fn mod_step<E>(r: Reading<E>, a: &ShapeTracker, b: &ShapeTracker) -> Step<E> {
    store(
        "        "@,
        "out"@,
        known("idx"@),
        called_on_two(r, "fmod"@, operand(r, "inp_a"@, a), operand(r, "inp_b"@, b)),
    )
}

/// A kernel that takes the remainder of the elements of two views.
pub open spec fn mod_program<E>(
    r: Reading<E>,
    a: &ShapeTracker,
    b: &ShapeTracker,
    letters: Seq<char>,
) -> Program<E> {
    binary_program(letters, mod_step(r, a, b))
}

/// Puts the element of a view of a buffer under a name, where it is no padding.
pub open spec fn load<E>(
    r: Reading<E>,
    name: Seq<char>,
    buffer: Seq<char>,
    shape: &ShapeTracker,
) -> Step<E> {
    guarded(
        "        "@,
        nonzero(bracketed(viewed(r, shape.valid@))),
        "{"@,
        name_element("            "@, ""@, name, at(buffer, viewed(r, shape.index@))),
        "}"@,
    )
}

/// Compares the elements of two views.
pub open spec fn less_than_body<E>(
    r: Reading<E>,
    a: &ShapeTracker,
    b: &ShapeTracker,
) -> Step<E> {
    followed(
        followed(
            followed(
                followed(
                    name_element("        "@, "float "@, "a_t"@, literal(r, "0.0"@)),
                    name_element("        "@, "float "@, "b_t"@, literal(r, "0.0"@)),
                ),
                load(r, "a_t"@, "inp_a"@, a),
            ),
            load(r, "b_t"@, "inp_b"@, b),
        ),
        either(
            "        "@,
            less_elements(r, held("a_t"@), held("b_t"@)),
            store("            "@, "out"@, known("idx"@), literal(r, "1.0"@)),
            store("            "@, "out"@, known("idx"@), literal(r, "0.0"@)),
        ),
    )
}

/// A kernel that compares the elements of two views.
pub open spec fn less_than_program<E>(
    r: Reading<E>,
    a: &ShapeTracker,
    b: &ShapeTracker,
    letters: Seq<char>,
) -> Program<E> {
    binary_program(letters, less_than_body(r, a, b))
}

/// The arguments for letters are those that kernels declare.
proof fn lemma_letters_text<E>(a: Signature<E>, letters: Seq<char>)
    ensures
        and_letters(a, letters).text == a.text + dyn_inputs(letters, a.slots),
        and_letters(a, letters).slots == a.slots + letters.len(),
    decreases letters.len(),
{
    if letters.len() == 0 {
        assert(a.text + dyn_inputs(letters, a.slots) =~= a.text);
    } else {
        let rest = letters.drop_last();
        lemma_letters_text(a, rest);
        let b = and_letters(a, rest);
        assert(b.slots == a.slots + letters.len() - 1);
        reveal_strlit(", device uint& ");
        assert(and_letters(a, letters).text =~= a.text + dyn_inputs(letters, a.slots));
    }
}

/// The kernel of the logarithm reads so.
pub proof fn lemma_log2_text<E>(r: Reading<E>)
    ensures
        call_program(r, "log2"@).text == LOG2@,
{
    reveal_strlit(
        "#include <metal_stdlib>
using namespace metal;
kernel void mkernel(device float *inp [[buffer(0)]], device float *out [[buffer(1)]], device uint& n_elements [[buffer(2)]], uint idx [[thread_position_in_grid]]) {{
    if (idx < n_elements) {{
        out[idx] = log2(inp[idx]);
    }}
}}
",
    );
    reveal_strlit("");
    reveal_strlit("#include <metal_stdlib>\nusing namespace metal;\nkernel void mkernel(");
    reveal_strlit("device float *");
    reveal_strlit("inp");
    reveal_strlit(" [[buffer(");
    reveal_strlit(")]]");
    reveal_strlit(", device float *");
    reveal_strlit("out");
    reveal_strlit(", device uint& ");
    reveal_strlit("n_elements");
    reveal_strlit(", uint ");
    reveal_strlit("idx");
    reveal_strlit(" [[thread_position_in_grid]]");
    reveal_strlit(") ");
    reveal_strlit("{{");
    reveal_strlit("\n");
    reveal_strlit("    ");
    reveal_strlit("if (");
    reveal_strlit(" < ");
    reveal_strlit("        ");
    reveal_strlit("[");
    reveal_strlit("] = ");
    reveal_strlit("log2");
    reveal_strlit("(");
    reveal_strlit("]");
    reveal_strlit(")");
    reveal_strlit(";\n");
    reveal_strlit("}}");
    assert(call_program(r, "log2"@).text =~= LOG2@);
}

/// The kernel of the exponential reads so.
pub proof fn lemma_exp2_text<E>(r: Reading<E>)
    ensures
        call_program(r, "exp2"@).text == EXP2@,
{
    reveal_strlit(
        "#include <metal_stdlib>
using namespace metal;
kernel void mkernel(device float *inp [[buffer(0)]], device float *out [[buffer(1)]], device uint& n_elements [[buffer(2)]], uint idx [[thread_position_in_grid]]) {{
    if (idx < n_elements) {{
        out[idx] = exp2(inp[idx]);
    }}
}}
",
    );
    reveal_strlit("");
    reveal_strlit("#include <metal_stdlib>\nusing namespace metal;\nkernel void mkernel(");
    reveal_strlit("device float *");
    reveal_strlit("inp");
    reveal_strlit(" [[buffer(");
    reveal_strlit(")]]");
    reveal_strlit(", device float *");
    reveal_strlit("out");
    reveal_strlit(", device uint& ");
    reveal_strlit("n_elements");
    reveal_strlit(", uint ");
    reveal_strlit("idx");
    reveal_strlit(" [[thread_position_in_grid]]");
    reveal_strlit(") ");
    reveal_strlit("{{");
    reveal_strlit("\n");
    reveal_strlit("    ");
    reveal_strlit("if (");
    reveal_strlit(" < ");
    reveal_strlit("        ");
    reveal_strlit("[");
    reveal_strlit("] = ");
    reveal_strlit("exp2");
    reveal_strlit("(");
    reveal_strlit("]");
    reveal_strlit(")");
    reveal_strlit(";\n");
    reveal_strlit("}}");
    assert(call_program(r, "exp2"@).text =~= EXP2@);
}

/// The kernel of the sine reads so.
pub proof fn lemma_sin_text<E>(r: Reading<E>)
    ensures
        call_program(r, "sin"@).text == SIN@,
{
    reveal_strlit(
        "#include <metal_stdlib>
using namespace metal;
kernel void mkernel(device float *inp [[buffer(0)]], device float *out [[buffer(1)]], device uint& n_elements [[buffer(2)]], uint idx [[thread_position_in_grid]]) {{
    if (idx < n_elements) {{
        out[idx] = sin(inp[idx]);
    }}
}}
",
    );
    reveal_strlit("");
    reveal_strlit("#include <metal_stdlib>\nusing namespace metal;\nkernel void mkernel(");
    reveal_strlit("device float *");
    reveal_strlit("inp");
    reveal_strlit(" [[buffer(");
    reveal_strlit(")]]");
    reveal_strlit(", device float *");
    reveal_strlit("out");
    reveal_strlit(", device uint& ");
    reveal_strlit("n_elements");
    reveal_strlit(", uint ");
    reveal_strlit("idx");
    reveal_strlit(" [[thread_position_in_grid]]");
    reveal_strlit(") ");
    reveal_strlit("{{");
    reveal_strlit("\n");
    reveal_strlit("    ");
    reveal_strlit("if (");
    reveal_strlit(" < ");
    reveal_strlit("        ");
    reveal_strlit("[");
    reveal_strlit("] = ");
    reveal_strlit("sin");
    reveal_strlit("(");
    reveal_strlit("]");
    reveal_strlit(")");
    reveal_strlit(";\n");
    reveal_strlit("}}");
    assert(call_program(r, "sin"@).text =~= SIN@);
}

/// The kernel of the square root reads so.
pub proof fn lemma_sqrt_text<E>(r: Reading<E>)
    ensures
        call_program(r, "sqrt"@).text == SQRT@,
{
    reveal_strlit(
        "#include <metal_stdlib>
using namespace metal;
kernel void mkernel(device float *inp [[buffer(0)]], device float *out [[buffer(1)]], device uint& n_elements [[buffer(2)]], uint idx [[thread_position_in_grid]]) {{
    if (idx < n_elements) {{
        out[idx] = sqrt(inp[idx]);
    }}
}}
",
    );
    reveal_strlit("");
    reveal_strlit("#include <metal_stdlib>\nusing namespace metal;\nkernel void mkernel(");
    reveal_strlit("device float *");
    reveal_strlit("inp");
    reveal_strlit(" [[buffer(");
    reveal_strlit(")]]");
    reveal_strlit(", device float *");
    reveal_strlit("out");
    reveal_strlit(", device uint& ");
    reveal_strlit("n_elements");
    reveal_strlit(", uint ");
    reveal_strlit("idx");
    reveal_strlit(" [[thread_position_in_grid]]");
    reveal_strlit(") ");
    reveal_strlit("{{");
    reveal_strlit("\n");
    reveal_strlit("    ");
    reveal_strlit("if (");
    reveal_strlit(" < ");
    reveal_strlit("        ");
    reveal_strlit("[");
    reveal_strlit("] = ");
    reveal_strlit("sqrt");
    reveal_strlit("(");
    reveal_strlit("]");
    reveal_strlit(")");
    reveal_strlit(";\n");
    reveal_strlit("}}");
    assert(call_program(r, "sqrt"@).text =~= SQRT@);
}

/// The kernel of the reciprocal reads so.
pub proof fn lemma_recip_text<E>(r: Reading<E>)
    ensures
        recip_program(r).text == RECIP@,
{
    reveal_strlit(
        "#include <metal_stdlib>
using namespace metal;
kernel void mkernel(device float *inp [[buffer(0)]], device float *out [[buffer(1)]], device uint& n_elements [[buffer(2)]], uint idx [[thread_position_in_grid]]) {{
    if (idx < n_elements) {{
        out[idx] = 1.0 / inp[idx];
    }}
}}
",
    );
    reveal_strlit("");
    reveal_strlit("#include <metal_stdlib>\nusing namespace metal;\nkernel void mkernel(");
    reveal_strlit("device float *");
    reveal_strlit("inp");
    reveal_strlit(" [[buffer(");
    reveal_strlit(")]]");
    reveal_strlit(", device float *");
    reveal_strlit("out");
    reveal_strlit(", device uint& ");
    reveal_strlit("n_elements");
    reveal_strlit(", uint ");
    reveal_strlit("idx");
    reveal_strlit(" [[thread_position_in_grid]]");
    reveal_strlit(") ");
    reveal_strlit("{{");
    reveal_strlit("\n");
    reveal_strlit("    ");
    reveal_strlit("if (");
    reveal_strlit(" < ");
    reveal_strlit("        ");
    reveal_strlit("[");
    reveal_strlit("] = ");
    reveal_strlit("1.0");
    reveal_strlit(" ");
    reveal_strlit("/");
    reveal_strlit("]");
    reveal_strlit(";\n");
    reveal_strlit("}}");
    assert(recip_program(r).text =~= RECIP@);
}

/// The head of these kernels reads so.
proof fn lemma_contiguous_head<E>()
    ensures
        CONTIGUOUS_HEAD@ == "\n"@ + "#include <metal_stdlib>\nusing namespace metal;\nkernel void mkernel("@ + one_input::<E>().text,
{
    reveal_strlit(
        "
#include <metal_stdlib>
using namespace metal;
kernel void mkernel(device float *inp [[buffer(0)]], device float *out [[buffer(1)]], device uint& n_elements [[buffer(2)]], uint idx [[thread_position_in_grid]]",
    );
    reveal_strlit("\n");
    reveal_strlit("#include <metal_stdlib>\nusing namespace metal;\nkernel void mkernel(");
    reveal_strlit("device float *");
    reveal_strlit("inp");
    reveal_strlit(" [[buffer(");
    reveal_strlit(")]]");
    reveal_strlit(", device float *");
    reveal_strlit("out");
    reveal_strlit(", device uint& ");
    reveal_strlit("n_elements");
    reveal_strlit(", uint ");
    reveal_strlit("idx");
    reveal_strlit(" [[thread_position_in_grid]]");
    assert(CONTIGUOUS_HEAD@ =~= "\n"@ + "#include <metal_stdlib>\nusing namespace metal;\nkernel void mkernel("@ + one_input::<E>().text);
}

/// The head of these kernels reads so.
proof fn lemma_binary_head<E>()
    ensures
        BINARY_HEAD@ == "\n"@ + "#include <metal_stdlib>\nusing namespace metal;\nkernel void mkernel("@ + two_inputs::<E>().text,
{
    reveal_strlit(
        "
#include <metal_stdlib>
using namespace metal;
kernel void mkernel(device float *inp_a [[buffer(0)]], device float *inp_b [[buffer(1)]], device float *out [[buffer(2)]], device uint& n_elements [[buffer(3)]], uint idx [[thread_position_in_grid]]",
    );
    reveal_strlit("\n");
    reveal_strlit("#include <metal_stdlib>\nusing namespace metal;\nkernel void mkernel(");
    reveal_strlit("device float *");
    reveal_strlit("inp_a");
    reveal_strlit(" [[buffer(");
    reveal_strlit(")]]");
    reveal_strlit(", device float *");
    reveal_strlit("inp_b");
    reveal_strlit("out");
    reveal_strlit(", device uint& ");
    reveal_strlit("n_elements");
    reveal_strlit(", uint ");
    reveal_strlit("idx");
    reveal_strlit(" [[thread_position_in_grid]]");
    assert(BINARY_HEAD@ =~= "\n"@ + "#include <metal_stdlib>\nusing namespace metal;\nkernel void mkernel("@ + two_inputs::<E>().text);
}

/// The head of these kernels reads so.
proof fn lemma_reduce_head<E>()
    ensures
        REDUCE_HEAD@ == "\n"@ + "#include <metal_stdlib>\nusing namespace metal;\nkernel void mkernel("@ + one_reduced::<E>().text,
{
    reveal_strlit(
        "
#include <metal_stdlib>
using namespace metal;
kernel void mkernel(device float *inp [[buffer(0)]], device float *out [[buffer(1)]], device uint& n_elements [[buffer(2)]], device uint& front_size [[buffer(3)]], device uint& back_size [[buffer(4)]], device uint& dim_size [[buffer(5)]], uint i_ [[thread_position_in_grid]]",
    );
    reveal_strlit("\n");
    reveal_strlit("#include <metal_stdlib>\nusing namespace metal;\nkernel void mkernel(");
    reveal_strlit("device float *");
    reveal_strlit("inp");
    reveal_strlit(" [[buffer(");
    reveal_strlit(")]]");
    reveal_strlit(", device float *");
    reveal_strlit("out");
    reveal_strlit(", device uint& ");
    reveal_strlit("n_elements");
    reveal_strlit("front_size");
    reveal_strlit("back_size");
    reveal_strlit("dim_size");
    reveal_strlit(", uint ");
    reveal_strlit("i_");
    reveal_strlit(" [[thread_position_in_grid]]");
    assert(REDUCE_HEAD@ =~= "\n"@ + "#include <metal_stdlib>\nusing namespace metal;\nkernel void mkernel("@ + one_reduced::<E>().text);
}

/// Text is the same whichever way its pieces are put together.
proof fn lemma_wrap_head(
    h: Seq<char>,
    a: Seq<char>,
    d: Seq<char>,
    p: Seq<char>,
    v: Seq<char>,
    q: Seq<char>,
    i: Seq<char>,
    t: Seq<char>,
)
    ensures
        h + a + d + p + v + q + i + t == h + (a + d) + p + v + q + i + t,
{
    assert(h + a + d =~= h + (a + d));
}

/// Text is the same whichever way its pieces are put together.
proof fn lemma_wrap_index(
    o: Seq<char>,
    p: Seq<char>,
    i: Seq<char>,
    t: Seq<char>,
    c: Seq<char>,
)
    ensures
        o + (p + i + t) + c == (o + p) + i + (t + c),
{
    assert(o + (p + i + t) + c =~= (o + p) + i + (t + c));
}

/// Text is the same whichever way its pieces are put together.
proof fn lemma_wrap_valid(
    o: Seq<char>,
    v: Seq<char>,
    w: Seq<char>,
    c: Seq<char>,
)
    ensures
        o + (v + w) + c == o + v + (w + c),
{
    assert(o + (v + w) + c =~= o + v + (w + c));
}

/// Text is the same whichever way its pieces are put together.
proof fn lemma_wrap_both(
    o: Seq<char>,
    p: Seq<char>,
    v: Seq<char>,
    w: Seq<char>,
    x: Seq<char>,
    y: Seq<char>,
    z: Seq<char>,
    s: Seq<char>,
    i: Seq<char>,
    t: Seq<char>,
    a: Seq<char>,
    b: Seq<char>,
    c: Seq<char>,
)
    ensures
        o + (p + v + w) + x + y + z + (s + i + t) + a + b + c == (o + p) + v + (w + x + y + z + s) + i + (t + a + b + c),
{
    assert(o + (p + v + w) + x + y + z + (s + i + t) + a + b + c =~= (o + p) + v + (w + x + y + z + s) + i + (t + a + b + c));
}

/// Text is the same whichever way its pieces are put together.
proof fn lemma_wrap_program(
    h: Seq<char>,
    a: Seq<char>,
    x: Seq<char>,
    y: Seq<char>,
    z: Seq<char>,
    p: Seq<char>,
    v: Seq<char>,
    q: Seq<char>,
    i: Seq<char>,
    t: Seq<char>,
    b: Seq<char>,
    c: Seq<char>,
)
    ensures
        h + a + x + y + z + (p + v + q + i + t) + b + c == h + a + (x + y + z + p) + v + q + i + (t + b + c),
{
    assert(h + a + x + y + z + (p + v + q + i + t) + b + c =~= h + a + (x + y + z + p) + v + q + i + (t + b + c));
}

/// Text is the same whichever way its pieces are put together.
proof fn lemma_prefix(
    n: Seq<char>,
    p: Seq<char>,
    v: Seq<char>,
    q: Seq<char>,
    i: Seq<char>,
    t: Seq<char>,
)
    ensures
        n + (p + v + q + i + t) == (n + p) + v + q + i + t,
{
    assert(n + (p + v + q + i + t) =~= (n + p) + v + q + i + t);
}

/// Text is the same whichever way its pieces are put together.
proof fn lemma_wrap_one(
    o: Seq<char>,
    p: Seq<char>,
    v: Seq<char>,
    q: Seq<char>,
    i: Seq<char>,
    t: Seq<char>,
    a: Seq<char>,
)
    ensures
        o + (p + v + q + i + t) + a == (o + p) + v + q + i + (t + a),
{
    assert(o + (p + v + q + i + t) + a =~= (o + p) + v + q + i + (t + a));
}

/// Text is the same whichever way its pieces are put together.
proof fn lemma_wrap_two(
    o: Seq<char>,
    p: Seq<char>,
    v: Seq<char>,
    q: Seq<char>,
    i: Seq<char>,
    t: Seq<char>,
    a: Seq<char>,
    b: Seq<char>,
)
    ensures
        o + (p + v + q + i + t) + a + b == (o + p) + v + q + i + (t + a + b),
{
    assert(o + (p + v + q + i + t) + a + b =~= (o + p) + v + q + i + (t + a + b));
}

/// Text is the same whichever way its pieces are put together.
proof fn lemma_wrap_three(
    o: Seq<char>,
    p: Seq<char>,
    v: Seq<char>,
    q: Seq<char>,
    i: Seq<char>,
    t: Seq<char>,
    a: Seq<char>,
    b: Seq<char>,
    c: Seq<char>,
)
    ensures
        o + (p + v + q + i + t) + a + b + c == (o + p) + v + q + i + (t + a + b + c),
{
    assert(o + (p + v + q + i + t) + a + b + c =~= (o + p) + v + q + i + (t + a + b + c));
}

/// The text of a test for validity, split at the expression.
proof fn lemma_valid_text<E>(r: Reading<E>, shape: &ShapeTracker)
    ensures
        nonzero(bracketed(viewed(r, shape.valid@))).text == "("@ + shape.valid@ + (")"@
            + " != 0"@),
{
    assert(nonzero(bracketed(viewed(r, shape.valid@))).text =~= "("@ + shape.valid@ + (")"@
        + " != 0"@));
}

/// The text of a kernel that lays a view out, before, between and after its expressions.
spec fn contiguous_pieces() -> (Seq<char>, Seq<char>, Seq<char>) {
    (
        ") "@ + "{"@ + "\n"@ + ("    "@ + "if ("@ + ("idx"@ + " < "@ + "n_elements"@ + " && ("@)),
        " != 0"@ + ")"@ + ") "@ + "{"@ + "\n"@ + ("        "@ + "out"@ + "["@ + "idx"@ + "] = "@ + (
        "inp"@ + "["@)),
        "]"@ + ";\n"@ + "    "@ + "}"@ + "\n"@ + "}"@ + "\n"@,
    )
}

proof fn lemma_contiguous_split<E>(r: Reading<E>, shape: &ShapeTracker, letters: Seq<char>)
    ensures
        ({
            let (p, q, t) = contiguous_pieces();
            contiguous_program(r, shape, letters).text == "\n"@ + "#include <metal_stdlib>\nusing namespace metal;\nkernel void mkernel("@ + and_letters(
                one_input::<E>(),
                letters,
            ).text + p + shape.valid@ + q + shape.index@ + t
        }),
{
    let (v, i) = (shape.valid@, shape.index@);
    let o = "        "@ + "out"@ + "["@ + "idx"@ + "] = "@;
    lemma_wrap_index(o, "inp"@ + "["@, i, "]"@, ";\n"@);
    let b = "idx"@ + " < "@ + "n_elements"@;
    lemma_wrap_valid(b + " && ("@, v, " != 0"@, ")"@);
    let s = o + ("inp"@ + "["@);
    lemma_wrap_both(
        "    "@ + "if ("@,
        b + " && ("@,
        v,
        " != 0"@ + ")"@,
        ") "@,
        "{"@,
        "\n"@,
        s,
        i,
        "]"@ + ";\n"@,
        "    "@,
        "}"@,
        "\n"@,
    );
    lemma_wrap_program(
        "\n"@ + "#include <metal_stdlib>\nusing namespace metal;\nkernel void mkernel("@,
        and_letters(one_input::<E>(), letters).text,
        ") "@,
        "{"@,
        "\n"@,
        "    "@ + "if ("@ + (b + " && ("@),
        v,
        " != 0"@ + ")"@ + ") "@ + "{"@ + "\n"@ + s,
        i,
        "]"@ + ";\n"@ + "    "@ + "}"@ + "\n"@,
        "}"@,
        "\n"@,
    );
}

/// The text of a kernel that reduces, before, between and after the expressions of the view,
/// where it starts from `start` and takes an element in by `s1`, the index and `s3`.
spec fn reduce_pieces<E>(start: Seq<char>, s1: Seq<char>, s3: Seq<char>) -> (
    Seq<char>,
    Seq<char>,
    Seq<char>,
) {
    (
        ") "@ + "{"@ + "\n"@ + (reduce_open() + (reduce_names::<E>(start) + (loop_open() + (
        turn_index::<E>().text + ("            "@ + "if ("@ + "("@))))),
        ")"@ + " != 0"@ + ") "@ + "{"@ + "\n"@ + s1,
        s3 + "            "@ + "}"@ + "\n"@ + "        "@ + "}\n"@ + ("        "@ + "out"@ + "["@
            + "i_"@ + "] = "@ + "reduce_value"@ + ";\n"@) + "    "@ + "}"@ + "\n"@ + "}"@ + "\n"@,
    )
}

spec fn reduce_open() -> Seq<char> {
    "    "@ + "if ("@ + ("i_"@ + " < "@ + "n_elements"@) + ") "@ + "{"@ + "\n"@
}

spec fn reduce_names<E>(start: Seq<char>) -> Seq<char> {
    name_number::<E>(
        "        "@,
        "uint "@,
        "a_"@,
        over(known("i_"@), known("back_size"@)),
    ).text + name_number::<E>(
        "        "@,
        "uint "@,
        "b_"@,
        modulo(known("i_"@), known("back_size"@)),
    ).text + ("        "@ + "float "@ + "reduce_value"@ + " = "@ + start + ";\n"@)
}

spec fn loop_open() -> Seq<char> {
    "        "@ + "for (uint "@ + "c_"@ + " = 0; "@ + "c_"@ + " < "@ + "dim_size"@ + "; "@ + "c_"@
        + "++) {\n"@
}

proof fn lemma_turn_split<E>(
    r: Reading<E>,
    shape: &ShapeTracker,
    take: Step<E>,
    s1: Seq<char>,
    s3: Seq<char>,
)
    requires
        take.text == s1 + shape.index@ + s3,
    ensures
        reduce_turn(r, shape, take).text == (turn_index::<E>().text + ("            "@ + "if ("@
            + "("@)) + shape.valid@ + (")"@ + " != 0"@ + ") "@ + "{"@ + "\n"@ + s1) + shape.index@
            + (s3 + "            "@ + "}"@ + "\n"@),
{
    lemma_valid_text(r, shape);
    lemma_wrap_both(
        "            "@ + "if ("@,
        "("@,
        shape.valid@,
        ")"@ + " != 0"@,
        ") "@,
        "{"@,
        "\n"@,
        s1,
        shape.index@,
        s3,
        "            "@,
        "}"@,
        "\n"@,
    );
    lemma_prefix(
        turn_index::<E>().text,
        "            "@ + "if ("@ + "("@,
        shape.valid@,
        ")"@ + " != 0"@ + ") "@ + "{"@ + "\n"@ + s1,
        shape.index@,
        s3 + "            "@ + "}"@ + "\n"@,
    );
}

proof fn lemma_reduce_split<E>(
    r: Reading<E>,
    shape: &ShapeTracker,
    letters: Seq<char>,
    start: Seq<char>,
    take: Step<E>,
    s1: Seq<char>,
    s3: Seq<char>,
)
    requires
        take.text == s1 + shape.index@ + s3,
    ensures
        ({
            let (p, q, t) = reduce_pieces::<E>(start, s1, s3);
            reduce_program(r, shape, letters, start, take).text == "\n"@ + "#include <metal_stdlib>\nusing namespace metal;\nkernel void mkernel("@ + and_letters(
                one_reduced::<E>(),
                letters,
            ).text + p + shape.valid@ + q + shape.index@ + t
        }),
{
    let (v, i) = (shape.valid@, shape.index@);
    let q = ")"@ + " != 0"@ + ") "@ + "{"@ + "\n"@ + s1;
    let n = turn_index::<E>().text + ("            "@ + "if ("@ + "("@);
    let t = s3 + "            "@ + "}"@ + "\n"@;
    let last = "        "@ + "out"@ + "["@ + "i_"@ + "] = "@ + "reduce_value"@ + ";\n"@;
    let names = reduce_names::<E>(start);
    let turns = t + "        "@ + "}\n"@;
    let a = and_letters(one_reduced::<E>(), letters).text;
    let h = "\n"@ + "#include <metal_stdlib>\nusing namespace metal;\nkernel void mkernel("@;
    lemma_turn_split(r, shape, take, s1, s3);
    lemma_wrap_two(loop_open(), n, v, q, i, t, "        "@, "}\n"@);
    lemma_wrap_one(names, loop_open() + n, v, q, i, turns, last);
    lemma_wrap_three(
        reduce_open(),
        names + (loop_open() + n),
        v,
        q,
        i,
        turns + last,
        "    "@,
        "}"@,
        "\n"@,
    );
    lemma_wrap_program(
        h,
        a,
        ") "@,
        "{"@,
        "\n"@,
        reduce_open() + (names + (loop_open() + n)),
        v,
        q,
        i,
        turns + last + "    "@ + "}"@ + "\n"@,
        "}"@,
        "\n"@,
    );
}

/// A piece of text of two views, split at their expressions.
pub open spec fn split(
    t: (Seq<char>, Seq<char>, Seq<char>, Seq<char>, Seq<char>),
    a: &ShapeTracker,
    b: &ShapeTracker,
) -> Seq<char> {
    t.0 + a.valid@ + t.1 + a.index@ + t.2 + b.valid@ + t.3 + b.index@ + t.4
}

/// Text is the same whichever way its pieces are put together.
proof fn lemma_wrap_binary(
    h: Seq<char>,
    s: Seq<char>,
    x: Seq<char>,
    y: Seq<char>,
    n: Seq<char>,
    o: Seq<char>,
    c: Seq<char>,
    d: Seq<char>,
    t: (Seq<char>, Seq<char>, Seq<char>, Seq<char>, Seq<char>),
    a: &ShapeTracker,
    b: &ShapeTracker,
)
    ensures
        h + s + x + y + n + (o + split(t, a, b) + c + d + n) + d + n == h + s + split(
            (x + y + n + o + t.0, t.1, t.2, t.3, t.4 + (c + d + n) + d + n),
            a,
            b,
        ),
{
    let mid = a.valid@ + t.1 + a.index@ + t.2 + b.valid@ + t.3 + b.index@;
    assert(split(t, a, b) =~= t.0 + mid + t.4);
    let e = t.4 + (c + d + n) + d + n;
    let f = x + y + n + o + t.0;
    assert(split((f, t.1, t.2, t.3, e), a, b) =~= f + mid + e);
    assert(h + s + x + y + n + (o + (t.0 + mid + t.4) + c + d + n) + d + n =~= h + s + (f + mid
        + e));
}

/// The text of a kernel of two views around what it does for each thread.
proof fn lemma_binary_split<E>(
    letters: Seq<char>,
    body: Step<E>,
    t: (Seq<char>, Seq<char>, Seq<char>, Seq<char>, Seq<char>),
    a: &ShapeTracker,
    b: &ShapeTracker,
)
    requires
        body.text == split(t, a, b),
    ensures
        binary_program(letters, body).text == "\n"@ + "#include <metal_stdlib>\nusing namespace metal;\nkernel void mkernel("@ + and_letters(
            two_inputs::<E>(),
            letters,
        ).text + split(
            (
                ") "@ + "{"@ + "\n"@ + ("    "@ + "if ("@ + ("idx"@ + " < "@ + "n_elements"@)
                    + ") "@ + "{"@ + "\n"@) + t.0,
                t.1,
                t.2,
                t.3,
                t.4 + ("    "@ + "}"@ + "\n"@) + "}"@ + "\n"@,
            ),
            a,
            b,
        ),
{
    let s = and_letters(two_inputs::<E>(), letters).text;
    let open = "    "@ + "if ("@ + ("idx"@ + " < "@ + "n_elements"@) + ") "@ + "{"@ + "\n"@;
    let h = "\n"@ + "#include <metal_stdlib>\nusing namespace metal;\nkernel void mkernel("@;
    lemma_wrap_binary(h, s, ") "@, "{"@, "\n"@, open, "    "@, "}"@, t, a, b);
}

/// The text of an operand, split at the expressions of its view.
proof fn lemma_operand_text<E>(r: Reading<E>, buffer: Seq<char>, shape: &ShapeTracker)
    ensures
        operand(r, buffer, shape).text == "("@ + shape.valid@ + (")"@ + " == 0"@ + " ? "@ + "0.0"@
            + " : "@ + buffer + "["@) + shape.index@ + "]"@,
{
    let test = is_zero(bracketed(viewed(r, shape.valid@)));
    assert(test.text =~= "("@ + shape.valid@ + (")"@ + " == 0"@));
    assert(operand(r, buffer, shape).text =~= "("@ + shape.valid@ + (")"@ + " == 0"@ + " ? "@
        + "0.0"@ + " : "@ + buffer + "["@) + shape.index@ + "]"@);
}

/// The text that joins two operands by a sign, around their expressions.
spec fn sign_pieces(sign: Seq<char>) -> (Seq<char>, Seq<char>, Seq<char>, Seq<char>, Seq<char>) {
    (
        "        "@ + "out"@ + "["@ + "idx"@ + "] = "@ + ("\n            "@ + "("@ + "("@),
        ")"@ + " == 0"@ + " ? "@ + "0.0"@ + " : "@ + "inp_a"@ + "["@,
        "]"@ + ")"@ + " \n           "@ + (" "@ + sign + " "@ + "("@ + "("@),
        ")"@ + " == 0"@ + " ? "@ + "0.0"@ + " : "@ + "inp_b"@ + "["@,
        "]"@ + ")"@ + ";\n"@,
    )
}

/// Two operands joined by a sign, whichever way their text is put together.
proof fn lemma_sign_joined(
    x: Seq<char>,
    y: Seq<char>,
    o: Seq<char>,
    n: Seq<char>,
    l: Seq<char>,
    r: Seq<char>,
    w: Seq<char>,
    s: Seq<char>,
    g: Seq<char>,
    e: Seq<char>,
)
    ensures
        o + ((n + (l + x + r) + w) + s + g + s + (l + y + r)) + e == (o + (n + l)) + x + (r + w + (s
            + g + s + l)) + y + (r + e),
{
    assert(o + ((n + (l + x + r) + w) + s + g + s + (l + y + r)) + e =~= (o + (n + l)) + x + (r + w
        + (s + g + s + l)) + y + (r + e));
}

/// Two operands between other text, split at their expressions.
proof fn lemma_operands_split(
    o: Seq<char>,
    l: Seq<char>,
    v: Seq<char>,
    k: Seq<char>,
    i: Seq<char>,
    r: Seq<char>,
    m: Seq<char>,
    w: Seq<char>,
    n: Seq<char>,
    j: Seq<char>,
    e: Seq<char>,
)
    ensures
        o + (l + v + k + i + r) + m + (l + w + n + j + r) + e == (o + l) + v + k + i + (r + m + l)
            + w + n + j + (r + e),
{
    assert(o + (l + v + k + i + r) + m + (l + w + n + j + r) + e =~= (o + l) + v + k + i + (r + m
        + l) + w + n + j + (r + e));
}

proof fn lemma_sign_split<E>(r: Reading<E>, sign: Seq<char>, a: &ShapeTracker, b: &ShapeTracker)
    ensures
        sign_step(r, sign, a, b).text == split(sign_pieces(sign), a, b),
{
    let t = sign_pieces(sign);
    let o = "        "@ + "out"@ + "["@ + "idx"@ + "] = "@;
    let n = "\n            "@;
    let w = " \n           "@;
    let x = operand(r, "inp_a"@, a).text;
    let y = operand(r, "inp_b"@, b).text;
    lemma_operand_text(r, "inp_a"@, a);
    lemma_operand_text(r, "inp_b"@, b);
    lemma_sign_joined(x, y, o, n, "("@, ")"@, w, " "@, sign, ";\n"@);
    let m = ")"@ + w + (" "@ + sign + " "@ + "("@);
    lemma_operands_split(
        o + (n + "("@),
        "("@,
        a.valid@,
        t.1,
        a.index@,
        "]"@,
        m,
        b.valid@,
        t.3,
        b.index@,
        ")"@ + ";\n"@,
    );
    assert(t.0 =~= o + (n + "("@) + "("@);
    assert(t.2 =~= "]"@ + m + "("@);
    assert(t.4 =~= "]"@ + (")"@ + ";\n"@));
}

/// The text that takes the remainder of two operands, around their expressions.
spec fn mod_pieces() -> (Seq<char>, Seq<char>, Seq<char>, Seq<char>, Seq<char>) {
    (
        "        "@ + "out"@ + "["@ + "idx"@ + "] = "@ + "fmod"@ + "("@ + "("@,
        ")"@ + " == 0"@ + " ? "@ + "0.0"@ + " : "@ + "inp_a"@ + "["@,
        "]"@ + ", "@ + "("@,
        ")"@ + " == 0"@ + " ? "@ + "0.0"@ + " : "@ + "inp_b"@ + "["@,
        "]"@ + ")"@ + ";\n"@,
    )
}

/// Two operands of a function, whichever way their text is put together.
proof fn lemma_call_joined(
    x: Seq<char>,
    y: Seq<char>,
    o: Seq<char>,
    f: Seq<char>,
    l: Seq<char>,
    m: Seq<char>,
    r: Seq<char>,
    e: Seq<char>,
)
    ensures
        o + (f + l + x + m + y + r) + e == (o + f + l) + x + m + y + (r + e),
{
    assert(o + (f + l + x + m + y + r) + e =~= (o + f + l) + x + m + y + (r + e));
}

proof fn lemma_mod_split<E>(r: Reading<E>, a: &ShapeTracker, b: &ShapeTracker)
    ensures
        mod_step(r, a, b).text == split(mod_pieces(), a, b),
{
    let t = mod_pieces();
    let o = "        "@ + "out"@ + "["@ + "idx"@ + "] = "@;
    let x = operand(r, "inp_a"@, a).text;
    let y = operand(r, "inp_b"@, b).text;
    lemma_operand_text(r, "inp_a"@, a);
    lemma_operand_text(r, "inp_b"@, b);
    lemma_call_joined(x, y, o, "fmod"@, "("@, ", "@, ")"@, ";\n"@);
    lemma_operands_split(
        o + "fmod"@ + "("@,
        "("@,
        a.valid@,
        t.1,
        a.index@,
        "]"@,
        ", "@,
        b.valid@,
        t.3,
        b.index@,
        ")"@ + ";\n"@,
    );
    assert(t.4 =~= "]"@ + (")"@ + ";\n"@));
}

/// The text that compares two elements, around the expressions of their views.
spec fn less_than_pieces<E>() -> (Seq<char>, Seq<char>, Seq<char>, Seq<char>, Seq<char>) {
    (
        "        "@ + "float "@ + "a_t"@ + " = "@ + "0.0"@ + ";\n"@ + ("        "@ + "float "@
            + "b_t"@ + " = "@ + "0.0"@ + ";\n"@) + ("        "@ + "if ("@ + "("@),
        ")"@ + " != 0"@ + ") "@ + "{"@ + "\n"@ + ("            "@ + ""@ + "a_t"@ + " = "@ + "inp_a"@
            + "["@),
        "]"@ + ";\n"@ + "        "@ + "}"@ + "\n"@ + ("        "@ + "if ("@ + "("@),
        ")"@ + " != 0"@ + ") "@ + "{"@ + "\n"@ + ("            "@ + ""@ + "b_t"@ + " = "@ + "inp_b"@
            + "["@),
        "]"@ + ";\n"@ + "        "@ + "}"@ + "\n"@ + ("        "@ + "if ("@ + ("a_t"@ + " < "@
            + "b_t"@) + ") {\n"@ + ("            "@ + "out"@ + "["@ + "idx"@ + "] = "@ + "1.0"@
            + ";\n"@) + "        "@ + "} else {\n"@ + ("            "@ + "out"@ + "["@ + "idx"@
            + "] = "@ + "0.0"@ + ";\n"@) + "        "@ + "}\n"@),
    )
}

/// The text that loads an element, split at the expressions of its view.
proof fn lemma_load_text<E>(
    r: Reading<E>,
    name: Seq<char>,
    buffer: Seq<char>,
    shape: &ShapeTracker,
)
    ensures
        load(r, name, buffer, shape).text == ("        "@ + "if ("@ + "("@) + shape.valid@ + (")"@
            + " != 0"@ + ") "@ + "{"@ + "\n"@ + ("            "@ + ""@ + name + " = "@ + buffer
            + "["@)) + shape.index@ + ("]"@ + ";\n"@ + "        "@ + "}"@ + "\n"@),
{
    lemma_valid_text(r, shape);
    let i = shape.index@;
    let n = "            "@ + ""@ + name + " = "@;
    lemma_wrap_index(n, buffer + "["@, i, "]"@, ";\n"@);
    assert(n + (buffer + "["@) =~= n + buffer + "["@);
    lemma_wrap_both(
        "        "@ + "if ("@,
        "("@,
        shape.valid@,
        ")"@ + " != 0"@,
        ") "@,
        "{"@,
        "\n"@,
        n + buffer + "["@,
        i,
        "]"@ + ";\n"@,
        "        "@,
        "}"@,
        "\n"@,
    );
}

/// Text is the same whichever way its pieces are put together.
proof fn lemma_loads_joined(
    o: Seq<char>,
    q: Seq<char>,
    v: Seq<char>,
    k: Seq<char>,
    i: Seq<char>,
    e: Seq<char>,
    w: Seq<char>,
    n: Seq<char>,
    j: Seq<char>,
    z: Seq<char>,
)
    ensures
        o + (q + v + k + i + e) + (q + w + n + j + e) + z == (o + q) + v + k + i + (e + q) + w + n
            + j + (e + z),
{
    assert(o + (q + v + k + i + e) + (q + w + n + j + e) + z =~= (o + q) + v + k + i + (e + q) + w
        + n + j + (e + z));
}

proof fn lemma_less_than_split<E>(r: Reading<E>, a: &ShapeTracker, b: &ShapeTracker)
    ensures
        less_than_body(r, a, b).text == split(less_than_pieces::<E>(), a, b),
{
    let t = less_than_pieces::<E>();
    lemma_load_text(r, "a_t"@, "inp_a"@, a);
    lemma_load_text(r, "b_t"@, "inp_b"@, b);
    let z = either(
        "        "@,
        less_elements(r, held("a_t"@), held("b_t"@)),
        store("            "@, "out"@, known("idx"@), literal(r, "1.0"@)),
        store("            "@, "out"@, known("idx"@), literal(r, "0.0"@)),
    ).text;
    let o = "        "@ + "float "@ + "a_t"@ + " = "@ + "0.0"@ + ";\n"@ + ("        "@ + "float "@
        + "b_t"@ + " = "@ + "0.0"@ + ";\n"@);
    let q = "        "@ + "if ("@ + "("@;
    let e = "]"@ + ";\n"@ + "        "@ + "}"@ + "\n"@;
    lemma_loads_joined(o, q, a.valid@, t.1, a.index@, e, b.valid@, t.3, b.index@, z);
}

/// The pieces of text around the expressions of the view.
proof fn lemma_contiguous_text_pieces()
    ensures
        ({
            let p = contiguous_pieces();
            &&& CONTIGUOUS_VALID@ == p.0
            &&& CONTIGUOUS_INDEX@ == p.1
            &&& CONTIGUOUS_TAIL@ == p.2
        }),
{
    reveal_strlit(
        ") {
    if (idx < n_elements && (",
    );
    reveal_strlit(
        " != 0)) {
        out[idx] = inp[",
    );
    reveal_strlit(
        "];
    }
}
",
    );
    reveal_strlit(") ");
    reveal_strlit("{");
    reveal_strlit("\n");
    reveal_strlit("    ");
    reveal_strlit("if (");
    reveal_strlit("idx");
    reveal_strlit(" < ");
    reveal_strlit("n_elements");
    reveal_strlit(" && (");
    reveal_strlit(" != 0");
    reveal_strlit(")");
    reveal_strlit("        ");
    reveal_strlit("out");
    reveal_strlit("[");
    reveal_strlit("] = ");
    reveal_strlit("inp");
    reveal_strlit("]");
    reveal_strlit(";\n");
    reveal_strlit("}");
}

/// The template that lays a view out is the program that does, on the expressions of the view.
pub proof fn lemma_contiguous_source<E>(r: Reading<E>, shape: &ShapeTracker)
    ensures
        contiguous_source(shape) == contiguous_program(r, shape, symbols(shape.dims@)).text,
{
    let letters = symbols(shape.dims@);
    lemma_contiguous_head::<E>();
    lemma_letters_text(one_input::<E>(), letters);
    lemma_contiguous_text_pieces();
    lemma_contiguous_split(r, shape, letters);
    let (p, q, t) = contiguous_pieces();
    let h = "\n"@ + "#include <metal_stdlib>\nusing namespace metal;\nkernel void mkernel("@;
    let a = one_input::<E>().text;
    let d = dyn_inputs(letters, one_input::<E>().slots);
    let v = shape.valid@;
    let i = shape.index@;
    lemma_wrap_head(h, a, d, p, v, q, i, t);
}

/// What is written as a template is the source of that program.
pub proof fn lemma_contiguous_text<E>(r: Reading<E>, shape: &ShapeTracker, template: String)
    requires
        call_ensures(contiguous_template, (shape,), template),
    ensures
        template@ == contiguous_program(r, shape, symbols(shape.dims@)).text,
{
    lemma_contiguous_source(r, shape);
}

/// The text that adds an element, split at the index.
proof fn lemma_sum_step_text<E>(r: Reading<E>, shape: &ShapeTracker)
    ensures
        sum_step(r, shape).text == "                "@ + "reduce_value"@ + " += "@ + "inp"@ + "["@
            + shape.index@ + ("]"@ + ";\n"@),
{
    assert(sum_step(r, shape).text =~= "                "@ + "reduce_value"@ + " += "@ + "inp"@ + "["@
        + shape.index@ + ("]"@ + ";\n"@));
}

/// The text that takes a maximum, split at the index.
proof fn lemma_max_step_text<E>(r: Reading<E>, shape: &ShapeTracker)
    ensures
        max_step(r, shape).text == "                "@ + "int "@ + "a_idx"@ + " = "@ + shape.index@
            + (";\n"@ + max_tail::<E>()),
{
    let s1 = "                "@ + "int "@ + "a_idx"@ + " = "@;
    assert(s1 + shape.index@ + ";\n"@ + max_tail::<E>() =~= s1 + shape.index@ + (";\n"@
        + max_tail::<E>()));
}

/// The pieces of text around the expressions of the view.
proof fn lemma_sum_text_pieces<E>()
    ensures
        ({
            let p = reduce_pieces::<E>(
        "0.0"@,
        "                "@ + "reduce_value"@ + " += "@ + "inp"@ + "["@,
        "]"@ + ";\n"@,
    );
            &&& SUM_VALID@ == p.0
            &&& SUM_INDEX@ == p.1
            &&& SUM_TAIL@ == p.2
        }),
{
    reveal_strlit(
        ") {
    if (i_ < n_elements) {
        uint a_ = i_ / back_size;
        uint b_ = i_ % back_size;
        float reduce_value = 0.0;
        for (uint c_ = 0; c_ < dim_size; c_++) {
            uint idx = a_ * dim_size * back_size + c_ * back_size + b_;
            if ((",
    );
    reveal_strlit(
        ") != 0) {
                reduce_value += inp[",
    );
    reveal_strlit(
        "];
            }
        }
        out[i_] = reduce_value;
    }
}
",
    );
    reveal_strlit(") ");
    reveal_strlit("{");
    reveal_strlit("\n");
    reveal_strlit("    ");
    reveal_strlit("if (");
    reveal_strlit("i_");
    reveal_strlit(" < ");
    reveal_strlit("n_elements");
    reveal_strlit("        ");
    reveal_strlit("uint ");
    reveal_strlit("a_");
    reveal_strlit(" = ");
    reveal_strlit(" / ");
    reveal_strlit("back_size");
    reveal_strlit(";\n");
    reveal_strlit("b_");
    reveal_strlit(" % ");
    reveal_strlit("float ");
    reveal_strlit("reduce_value");
    reveal_strlit("0.0");
    reveal_strlit("for (uint ");
    reveal_strlit("c_");
    reveal_strlit(" = 0; ");
    reveal_strlit("dim_size");
    reveal_strlit("; ");
    reveal_strlit("++) {\n");
    reveal_strlit("            ");
    reveal_strlit("idx");
    reveal_strlit(" * ");
    reveal_strlit(" + ");
    reveal_strlit("(");
    reveal_strlit(")");
    reveal_strlit(" != 0");
    reveal_strlit("                ");
    reveal_strlit(" += ");
    reveal_strlit("inp");
    reveal_strlit("[");
    reveal_strlit("]");
    reveal_strlit("}");
    reveal_strlit("}\n");
    reveal_strlit("out");
    reveal_strlit("] = ");
}

/// The template of the sum along a dimension is the program that sums, on the expressions of the
/// view.
pub proof fn lemma_sum_source<E>(r: Reading<E>, shape: &ShapeTracker)
    ensures
        sum_reduce_source(shape) == sum_program(r, shape, symbols(shape.dims@)).text,
{
    let letters = symbols(shape.dims@);
    lemma_reduce_head::<E>();
    lemma_letters_text(one_reduced::<E>(), letters);
    lemma_sum_text_pieces::<E>();
    let s1 = "                "@ + "reduce_value"@ + " += "@ + "inp"@ + "["@;
    let s3 = "]"@ + ";\n"@;
    lemma_sum_step_text(r, shape);
    lemma_reduce_split(r, shape, letters, "0.0"@, sum_step(r, shape), s1, s3);
    let (p, q, t) = reduce_pieces::<E>(
        "0.0"@,
        "                "@ + "reduce_value"@ + " += "@ + "inp"@ + "["@,
        "]"@ + ";\n"@,
    );
    let h = "\n"@ + "#include <metal_stdlib>\nusing namespace metal;\nkernel void mkernel("@;
    let a = one_reduced::<E>().text;
    let d = dyn_inputs(letters, one_reduced::<E>().slots);
    let v = shape.valid@;
    let i = shape.index@;
    lemma_wrap_head(h, a, d, p, v, q, i, t);
}

/// What is written as a template is the source of that program.
pub proof fn lemma_sum_text<E>(r: Reading<E>, shape: &ShapeTracker, template: String)
    requires
        call_ensures(sum_reduce_template, (shape,), template),
    ensures
        template@ == sum_program(r, shape, symbols(shape.dims@)).text,
{
    lemma_sum_source(r, shape);
}

/// The text that takes a maximum.
spec fn max_tail<E>() -> Seq<char> {
    "                "@ + ""@ + "reduce_value"@ + " = "@ + ("max"@ + "("@ + "reduce_value"@ + ", "@ + (
    "inp"@ + "["@ + "a_idx"@ + "]"@) + ")"@) + ";\n"@
}

/// The pieces of text around the expressions of the view.
proof fn lemma_max_text_pieces<E>()
    ensures
        ({
            let p = reduce_pieces::<E>(
        "-(float)0x7f800000"@,
        "                "@ + "int "@ + "a_idx"@ + " = "@,
        ";\n"@ + max_tail::<E>(),
    );
            &&& MAX_VALID@ == p.0
            &&& MAX_INDEX@ == p.1
            &&& MAX_TAIL@ == p.2
        }),
{
    reveal_strlit(
        ") {
    if (i_ < n_elements) {
        uint a_ = i_ / back_size;
        uint b_ = i_ % back_size;
        float reduce_value = -(float)0x7f800000;
        for (uint c_ = 0; c_ < dim_size; c_++) {
            uint idx = a_ * dim_size * back_size + c_ * back_size + b_;
            if ((",
    );
    reveal_strlit(
        ") != 0) {
                int a_idx = ",
    );
    reveal_strlit(
        ";
                reduce_value = max(reduce_value, inp[a_idx]);
            }
        }
        out[i_] = reduce_value;
    }
}
",
    );
    reveal_strlit(") ");
    reveal_strlit("{");
    reveal_strlit("\n");
    reveal_strlit("    ");
    reveal_strlit("if (");
    reveal_strlit("i_");
    reveal_strlit(" < ");
    reveal_strlit("n_elements");
    reveal_strlit("        ");
    reveal_strlit("uint ");
    reveal_strlit("a_");
    reveal_strlit(" = ");
    reveal_strlit(" / ");
    reveal_strlit("back_size");
    reveal_strlit(";\n");
    reveal_strlit("b_");
    reveal_strlit(" % ");
    reveal_strlit("float ");
    reveal_strlit("reduce_value");
    reveal_strlit("-(float)0x7f800000");
    reveal_strlit("for (uint ");
    reveal_strlit("c_");
    reveal_strlit(" = 0; ");
    reveal_strlit("dim_size");
    reveal_strlit("; ");
    reveal_strlit("++) {\n");
    reveal_strlit("            ");
    reveal_strlit("idx");
    reveal_strlit(" * ");
    reveal_strlit(" + ");
    reveal_strlit("(");
    reveal_strlit(")");
    reveal_strlit(" != 0");
    reveal_strlit("                ");
    reveal_strlit("int ");
    reveal_strlit("a_idx");
    reveal_strlit("");
    reveal_strlit("max");
    reveal_strlit(", ");
    reveal_strlit("inp");
    reveal_strlit("[");
    reveal_strlit("]");
    reveal_strlit("}");
    reveal_strlit("}\n");
    reveal_strlit("out");
    reveal_strlit("] = ");
}

/// The template of the maximum along a dimension is the program that takes it, on the expressions
/// of the view.
pub proof fn lemma_max_source<E>(r: Reading<E>, shape: &ShapeTracker)
    ensures
        max_reduce_source(shape) == max_program(r, shape, symbols(shape.dims@)).text,
{
    let letters = symbols(shape.dims@);
    lemma_reduce_head::<E>();
    lemma_letters_text(one_reduced::<E>(), letters);
    lemma_max_text_pieces::<E>();
    let s1 = "                "@ + "int "@ + "a_idx"@ + " = "@;
    let s3 = ";\n"@ + max_tail::<E>();
    lemma_max_step_text(r, shape);
    lemma_reduce_split(
        r,
        shape,
        letters,
        "-(float)0x7f800000"@,
        max_step(r, shape),
        s1,
        s3,
    );
    let (p, q, t) = reduce_pieces::<E>(
        "-(float)0x7f800000"@,
        "                "@ + "int "@ + "a_idx"@ + " = "@,
        ";\n"@ + max_tail::<E>(),
    );
    let h = "\n"@ + "#include <metal_stdlib>\nusing namespace metal;\nkernel void mkernel("@;
    let a = one_reduced::<E>().text;
    let d = dyn_inputs(letters, one_reduced::<E>().slots);
    let v = shape.valid@;
    let i = shape.index@;
    lemma_wrap_head(h, a, d, p, v, q, i, t);
}

/// What is written as a template is the source of that program.
pub proof fn lemma_max_text<E>(r: Reading<E>, shape: &ShapeTracker, template: String)
    requires
        call_ensures(max_reduce_template, (shape,), template),
    ensures
        template@ == max_program(r, shape, symbols(shape.dims@)).text,
{
    lemma_max_source(r, shape);
}

/// A head and a piece of text of two views, put together.
proof fn lemma_head_joined(
    h: Seq<char>,
    s: Seq<char>,
    d: Seq<char>,
    t: (Seq<char>, Seq<char>, Seq<char>, Seq<char>, Seq<char>),
    a: &ShapeTracker,
    b: &ShapeTracker,
)
    ensures
        h + s + d + t.0 + a.valid@ + t.1 + a.index@ + t.2 + b.valid@ + t.3 + b.index@ + t.4 == h + (s
            + d) + split(t, a, b),
{
    assert(h + s + d + t.0 + a.valid@ + t.1 + a.index@ + t.2 + b.valid@ + t.3 + b.index@ + t.4 =~= h + (
    s + d) + split(t, a, b));
}

/// The pieces of text around the expressions of the views.
proof fn lemma_add_text_pieces()
    ensures
        ({
            let p = sign_pieces("+"@);
            &&& ADD_A_VALID@ == ") "@ + "{"@ + "\n"@ + ("    "@ + "if ("@ + ("idx"@ + " < "@ + "n_elements"@) + ") "@ + "{"@
                + "\n"@) + p.0
            &&& ADD_A_INDEX@ == p.1
            &&& ADD_B_VALID@ == p.2
            &&& ADD_B_INDEX@ == p.3
            &&& ADD_TAIL@ == p.4 + ("    "@ + "}"@ + "\n"@) + "}"@ + "\n"@
        }),
{
    reveal_strlit(
        ") {
    if (idx < n_elements) {
        out[idx] = 
            ((",
    );
    reveal_strlit(
        ") == 0 ? 0.0 : inp_a[",
    );
    reveal_strlit(
        "]) 
            + ((",
    );
    reveal_strlit(
        ") == 0 ? 0.0 : inp_b[",
    );
    reveal_strlit(
        "]);
    }
}
",
    );
    reveal_strlit(") ");
    reveal_strlit("{");
    reveal_strlit("\n");
    reveal_strlit("    ");
    reveal_strlit("if (");
    reveal_strlit("idx");
    reveal_strlit(" < ");
    reveal_strlit("n_elements");
    reveal_strlit("        ");
    reveal_strlit("out");
    reveal_strlit("[");
    reveal_strlit("] = ");
    reveal_strlit("\n            ");
    reveal_strlit("(");
    reveal_strlit(")");
    reveal_strlit(" == 0");
    reveal_strlit(" ? ");
    reveal_strlit("0.0");
    reveal_strlit(" : ");
    reveal_strlit("inp_a");
    reveal_strlit("]");
    reveal_strlit(" \n           ");
    reveal_strlit(" ");
    reveal_strlit("+");
    reveal_strlit("inp_b");
    reveal_strlit(";\n");
    reveal_strlit("}");
}

/// The template of the sum of two tensors is the program of it, on the expressions of both views.
pub proof fn lemma_add_source<E>(r: Reading<E>, a: &ShapeTracker, b: &ShapeTracker)
    ensures
        add_source(a, b) == sign_program(r, "+"@, a, b, symbols(a.dims@ + b.dims@)).text,
{
    let letters = symbols(a.dims@ + b.dims@);
    lemma_binary_head::<E>();
    lemma_letters_text(two_inputs::<E>(), letters);
    lemma_add_text_pieces();
    lemma_sign_split(r, "+"@, a, b);
    lemma_binary_split(letters, sign_step(r, "+"@, a, b), sign_pieces("+"@), a, b);
    let h = "\n"@ + "#include <metal_stdlib>\nusing namespace metal;\nkernel void mkernel("@;
    let s = two_inputs::<E>().text;
    let d = dyn_inputs(letters, two_inputs::<E>().slots);
    let t = (ADD_A_VALID@, ADD_A_INDEX@, ADD_B_VALID@, ADD_B_INDEX@, ADD_TAIL@);
    lemma_head_joined(h, s, d, t, a, b);
}

/// What is written as a template is the source of that program.
pub proof fn lemma_add_text<E>(
    r: Reading<E>,
    a: &ShapeTracker,
    b: &ShapeTracker,
    template: String,
)
    requires
        call_ensures(add_template, (a, b), template),
    ensures
        template@ == sign_program(r, "+"@, a, b, symbols(a.dims@ + b.dims@)).text,
{
    lemma_add_source(r, a, b);
}

/// The pieces of text around the expressions of the views.
proof fn lemma_mul_text_pieces()
    ensures
        ({
            let p = sign_pieces("*"@);
            &&& MUL_A_VALID@ == ") "@ + "{"@ + "\n"@ + ("    "@ + "if ("@ + ("idx"@ + " < "@ + "n_elements"@) + ") "@ + "{"@
                + "\n"@) + p.0
            &&& MUL_A_INDEX@ == p.1
            &&& MUL_B_VALID@ == p.2
            &&& MUL_B_INDEX@ == p.3
            &&& MUL_TAIL@ == p.4 + ("    "@ + "}"@ + "\n"@) + "}"@ + "\n"@
        }),
{
    reveal_strlit(
        ") {
    if (idx < n_elements) {
        out[idx] = 
            ((",
    );
    reveal_strlit(
        ") == 0 ? 0.0 : inp_a[",
    );
    reveal_strlit(
        "]) 
            * ((",
    );
    reveal_strlit(
        ") == 0 ? 0.0 : inp_b[",
    );
    reveal_strlit(
        "]);
    }
}
",
    );
    reveal_strlit(") ");
    reveal_strlit("{");
    reveal_strlit("\n");
    reveal_strlit("    ");
    reveal_strlit("if (");
    reveal_strlit("idx");
    reveal_strlit(" < ");
    reveal_strlit("n_elements");
    reveal_strlit("        ");
    reveal_strlit("out");
    reveal_strlit("[");
    reveal_strlit("] = ");
    reveal_strlit("\n            ");
    reveal_strlit("(");
    reveal_strlit(")");
    reveal_strlit(" == 0");
    reveal_strlit(" ? ");
    reveal_strlit("0.0");
    reveal_strlit(" : ");
    reveal_strlit("inp_a");
    reveal_strlit("]");
    reveal_strlit(" \n           ");
    reveal_strlit(" ");
    reveal_strlit("*");
    reveal_strlit("inp_b");
    reveal_strlit(";\n");
    reveal_strlit("}");
}

/// The template of the product of two tensors is the program of it, on the expressions of both
/// views.
pub proof fn lemma_mul_source<E>(r: Reading<E>, a: &ShapeTracker, b: &ShapeTracker)
    ensures
        mul_source(a, b) == sign_program(r, "*"@, a, b, symbols(a.dims@ + b.dims@)).text,
{
    let letters = symbols(a.dims@ + b.dims@);
    lemma_binary_head::<E>();
    lemma_letters_text(two_inputs::<E>(), letters);
    lemma_mul_text_pieces();
    lemma_sign_split(r, "*"@, a, b);
    lemma_binary_split(letters, sign_step(r, "*"@, a, b), sign_pieces("*"@), a, b);
    let h = "\n"@ + "#include <metal_stdlib>\nusing namespace metal;\nkernel void mkernel("@;
    let s = two_inputs::<E>().text;
    let d = dyn_inputs(letters, two_inputs::<E>().slots);
    let t = (MUL_A_VALID@, MUL_A_INDEX@, MUL_B_VALID@, MUL_B_INDEX@, MUL_TAIL@);
    lemma_head_joined(h, s, d, t, a, b);
}

/// What is written as a template is the source of that program.
pub proof fn lemma_mul_text<E>(
    r: Reading<E>,
    a: &ShapeTracker,
    b: &ShapeTracker,
    template: String,
)
    requires
        call_ensures(mul_template, (a, b), template),
    ensures
        template@ == sign_program(r, "*"@, a, b, symbols(a.dims@ + b.dims@)).text,
{
    lemma_mul_source(r, a, b);
}

/// The pieces of text around the expressions of the views.
proof fn lemma_less_than_text_pieces<E>()
    ensures
        ({
            let p = less_than_pieces::<E>();
            &&& LESS_THAN_A_VALID@ == ") "@ + "{"@ + "\n"@ + ("    "@ + "if ("@ + ("idx"@ + " < "@ + "n_elements"@) + ") "@ + "{"@
                + "\n"@) + p.0
            &&& LESS_THAN_A_INDEX@ == p.1
            &&& LESS_THAN_B_VALID@ == p.2
            &&& LESS_THAN_B_INDEX@ == p.3
            &&& LESS_THAN_TAIL@ == p.4 + ("    "@ + "}"@ + "\n"@) + "}"@ + "\n"@
        }),
{
    reveal_strlit(
        ") {
    if (idx < n_elements) {
        float a_t = 0.0;
        float b_t = 0.0;
        if ((",
    );
    reveal_strlit(
        ") != 0) {
            a_t = inp_a[",
    );
    reveal_strlit(
        "];
        }
        if ((",
    );
    reveal_strlit(
        ") != 0) {
            b_t = inp_b[",
    );
    reveal_strlit(
        "];
        }
        if (a_t < b_t) {
            out[idx] = 1.0;
        } else {
            out[idx] = 0.0;
        }
    }
}
",
    );
    reveal_strlit(") ");
    reveal_strlit("{");
    reveal_strlit("\n");
    reveal_strlit("    ");
    reveal_strlit("if (");
    reveal_strlit("idx");
    reveal_strlit(" < ");
    reveal_strlit("n_elements");
    reveal_strlit("        ");
    reveal_strlit("float ");
    reveal_strlit("a_t");
    reveal_strlit(" = ");
    reveal_strlit("0.0");
    reveal_strlit(";\n");
    reveal_strlit("b_t");
    reveal_strlit("(");
    reveal_strlit(")");
    reveal_strlit(" != 0");
    reveal_strlit("            ");
    reveal_strlit("");
    reveal_strlit("inp_a");
    reveal_strlit("[");
    reveal_strlit("]");
    reveal_strlit("}");
    reveal_strlit("inp_b");
    reveal_strlit(") {\n");
    reveal_strlit("out");
    reveal_strlit("] = ");
    reveal_strlit("1.0");
    reveal_strlit("} else {\n");
    reveal_strlit("}\n");
}

/// The template of the comparison of two tensors is the program of it, on the expressions of both
/// views.
pub proof fn lemma_less_than_source<E>(r: Reading<E>, a: &ShapeTracker, b: &ShapeTracker)
    ensures
        less_than_source(a, b) == less_than_program(r, a, b, symbols(a.dims@ + b.dims@)).text,
{
    let letters = symbols(a.dims@ + b.dims@);
    lemma_binary_head::<E>();
    lemma_letters_text(two_inputs::<E>(), letters);
    lemma_less_than_text_pieces::<E>();
    lemma_less_than_split(r, a, b);
    lemma_binary_split(letters, less_than_body(r, a, b), less_than_pieces::<E>(), a, b);
    let h = "\n"@ + "#include <metal_stdlib>\nusing namespace metal;\nkernel void mkernel("@;
    let s = two_inputs::<E>().text;
    let d = dyn_inputs(letters, two_inputs::<E>().slots);
    let t = (
        LESS_THAN_A_VALID@,
        LESS_THAN_A_INDEX@,
        LESS_THAN_B_VALID@,
        LESS_THAN_B_INDEX@,
        LESS_THAN_TAIL@,
    );
    lemma_head_joined(h, s, d, t, a, b);
}

/// What is written as a template is the source of that program.
pub proof fn lemma_less_than_text<E>(
    r: Reading<E>,
    a: &ShapeTracker,
    b: &ShapeTracker,
    template: String,
)
    requires
        call_ensures(less_than_template, (a, b), template),
    ensures
        template@ == less_than_program(r, a, b, symbols(a.dims@ + b.dims@)).text,
{
    lemma_less_than_source(r, a, b);
}

/// The pieces of text around the expressions of the views.
proof fn lemma_mod_text_pieces()
    ensures
        ({
            let p = mod_pieces();
            &&& MOD_A_VALID@ == ") "@ + "{"@ + "\n"@ + ("    "@ + "if ("@ + ("idx"@ + " < "@ + "n_elements"@) + ") "@ + "{"@
                + "\n"@) + p.0
            &&& MOD_A_INDEX@ == p.1
            &&& MOD_B_VALID@ == p.2
            &&& MOD_B_INDEX@ == p.3
            &&& MOD_TAIL@ == p.4 + ("    "@ + "}"@ + "\n"@) + "}"@ + "\n"@
        }),
{
    reveal_strlit(
        ") {
    if (idx < n_elements) {
        out[idx] = fmod((",
    );
    reveal_strlit(
        ") == 0 ? 0.0 : inp_a[",
    );
    reveal_strlit(
        "], (",
    );
    reveal_strlit(
        ") == 0 ? 0.0 : inp_b[",
    );
    reveal_strlit(
        "]);
    }
}
",
    );
    reveal_strlit(") ");
    reveal_strlit("{");
    reveal_strlit("\n");
    reveal_strlit("    ");
    reveal_strlit("if (");
    reveal_strlit("idx");
    reveal_strlit(" < ");
    reveal_strlit("n_elements");
    reveal_strlit("        ");
    reveal_strlit("out");
    reveal_strlit("[");
    reveal_strlit("] = ");
    reveal_strlit("fmod");
    reveal_strlit("(");
    reveal_strlit(")");
    reveal_strlit(" == 0");
    reveal_strlit(" ? ");
    reveal_strlit("0.0");
    reveal_strlit(" : ");
    reveal_strlit("inp_a");
    reveal_strlit("]");
    reveal_strlit(", ");
    reveal_strlit("inp_b");
    reveal_strlit(";\n");
    reveal_strlit("}");
}

/// The template of the remainder of two tensors is the program of it, on the expressions of both
/// views.
pub proof fn lemma_mod_source<E>(r: Reading<E>, a: &ShapeTracker, b: &ShapeTracker)
    ensures
        mod_source(a, b) == mod_program(r, a, b, symbols(a.dims@ + b.dims@)).text,
{
    let letters = symbols(a.dims@ + b.dims@);
    lemma_binary_head::<E>();
    lemma_letters_text(two_inputs::<E>(), letters);
    lemma_mod_text_pieces();
    lemma_mod_split(r, a, b);
    lemma_binary_split(letters, mod_step(r, a, b), mod_pieces(), a, b);
    let h = "\n"@ + "#include <metal_stdlib>\nusing namespace metal;\nkernel void mkernel("@;
    let s = two_inputs::<E>().text;
    let d = dyn_inputs(letters, two_inputs::<E>().slots);
    let t = (MOD_A_VALID@, MOD_A_INDEX@, MOD_B_VALID@, MOD_B_INDEX@, MOD_TAIL@);
    lemma_head_joined(h, s, d, t, a, b);
}

/// What is written as a template is the source of that program.
pub proof fn lemma_mod_text<E>(
    r: Reading<E>,
    a: &ShapeTracker,
    b: &ShapeTracker,
    template: String,
)
    requires
        call_ensures(mod_template, (a, b), template),
    ensures
        template@ == mod_program(r, a, b, symbols(a.dims@ + b.dims@)).text,
{
    lemma_mod_source(r, a, b);
}

} // verus!
