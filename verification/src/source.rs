//! Kernel templates: Metal source in which `mkernel` stands for the name of the kernel.
use crate::shape::{Dim, ShapeTracker};
use crate::text::{decimal, push_decimal};
use vstd::prelude::*;

verus! {

/// The number of buffer slots that laying a view out takes before the sizes known only at run
/// time.
pub const CONTIGUOUS_SLOTS: u64 = 3;

/// The number of buffer slots that a kernel of two inputs takes before the sizes known only at
/// run time.
pub const BINARY_SLOTS: u64 = 4;

/// The number of buffer slots that a reduction takes before the sizes known only at run time.
pub const REDUCE_SLOTS: u64 = 6;

/// The template of the base-2 logarithm.
pub const LOG2: &'static str = "#include <metal_stdlib>
using namespace metal;
kernel void mkernel(device float *inp [[buffer(0)]], device float *out [[buffer(1)]], device uint& n_elements [[buffer(2)]], uint idx [[thread_position_in_grid]]) {{
    if (idx < n_elements) {{
        out[idx] = log2(inp[idx]);
    }}
}}
";

/// The template of the base-2 exponential.
pub const EXP2: &'static str = "#include <metal_stdlib>
using namespace metal;
kernel void mkernel(device float *inp [[buffer(0)]], device float *out [[buffer(1)]], device uint& n_elements [[buffer(2)]], uint idx [[thread_position_in_grid]]) {{
    if (idx < n_elements) {{
        out[idx] = exp2(inp[idx]);
    }}
}}
";

/// The template of the sine.
pub const SIN: &'static str = "#include <metal_stdlib>
using namespace metal;
kernel void mkernel(device float *inp [[buffer(0)]], device float *out [[buffer(1)]], device uint& n_elements [[buffer(2)]], uint idx [[thread_position_in_grid]]) {{
    if (idx < n_elements) {{
        out[idx] = sin(inp[idx]);
    }}
}}
";

/// The template of the square root.
pub const SQRT: &'static str = "#include <metal_stdlib>
using namespace metal;
kernel void mkernel(device float *inp [[buffer(0)]], device float *out [[buffer(1)]], device uint& n_elements [[buffer(2)]], uint idx [[thread_position_in_grid]]) {{
    if (idx < n_elements) {{
        out[idx] = sqrt(inp[idx]);
    }}
}}
";

/// The template of the reciprocal.
pub const RECIP: &'static str = "#include <metal_stdlib>
using namespace metal;
kernel void mkernel(device float *inp [[buffer(0)]], device float *out [[buffer(1)]], device uint& n_elements [[buffer(2)]], uint idx [[thread_position_in_grid]]) {{
    if (idx < n_elements) {{
        out[idx] = 1.0 / inp[idx];
    }}
}}
";

/// The head of the template that lays a view out, up to the sizes known only at run time.
pub const CONTIGUOUS_HEAD: &'static str = "
#include <metal_stdlib>
using namespace metal;
kernel void mkernel(device float *inp [[buffer(0)]], device float *out [[buffer(1)]], device uint& n_elements [[buffer(2)]], uint idx [[thread_position_in_grid]]";

/// The head of the templates of two inputs, up to the sizes known only at run time.
pub const BINARY_HEAD: &'static str = "
#include <metal_stdlib>
using namespace metal;
kernel void mkernel(device float *inp_a [[buffer(0)]], device float *inp_b [[buffer(1)]], device float *out [[buffer(2)]], device uint& n_elements [[buffer(3)]], uint idx [[thread_position_in_grid]]";

/// The head of the templates that reduce, up to the sizes known only at run time.
pub const REDUCE_HEAD: &'static str = "
#include <metal_stdlib>
using namespace metal;
kernel void mkernel(device float *inp [[buffer(0)]], device float *out [[buffer(1)]], device uint& n_elements [[buffer(2)]], device uint& front_size [[buffer(3)]], device uint& back_size [[buffer(4)]], device uint& dim_size [[buffer(5)]], uint i_ [[thread_position_in_grid]]";

/// The template that lays a view out up to where it asks whether an element is valid.
pub const CONTIGUOUS_VALID: &'static str = ") {
    if (idx < n_elements && (";

/// The template that lays a view out from there to the index of the element.
pub const CONTIGUOUS_INDEX: &'static str = " != 0)) {
        out[idx] = inp[";

/// The rest of the template that lays a view out.
pub const CONTIGUOUS_TAIL: &'static str = "];
    }
}
";

/// The template of the sum up to where it asks whether an element is valid.
pub const SUM_VALID: &'static str = ") {
    if (i_ < n_elements) {
        uint a_ = i_ / back_size;
        uint b_ = i_ % back_size;
        float reduce_value = 0.0;
        for (uint c_ = 0; c_ < dim_size; c_++) {
            uint idx = a_ * dim_size * back_size + c_ * back_size + b_;
            if ((";

/// The template of the sum from there to the index of the element.
pub const SUM_INDEX: &'static str = ") != 0) {
                reduce_value += inp[";

/// The rest of the template of the sum.
pub const SUM_TAIL: &'static str = "];
            }
        }
        out[i_] = reduce_value;
    }
}
";

/// The template of the maximum up to where it asks whether an element is valid.
pub const MAX_VALID: &'static str = ") {
    if (i_ < n_elements) {
        uint a_ = i_ / back_size;
        uint b_ = i_ % back_size;
        float reduce_value = -(float)0x7f800000;
        for (uint c_ = 0; c_ < dim_size; c_++) {
            uint idx = a_ * dim_size * back_size + c_ * back_size + b_;
            if ((";

/// The template of the maximum from there to the index of the element.
pub const MAX_INDEX: &'static str = ") != 0) {
                int a_idx = ";

/// The rest of the template of the maximum.
pub const MAX_TAIL: &'static str = ";
                reduce_value = max(reduce_value, inp[a_idx]);
            }
        }
        out[i_] = reduce_value;
    }
}
";

/// The template of the sum of two tensors up to where it asks whether an element of the first is valid.
pub const ADD_A_VALID: &'static str = ") {
    if (idx < n_elements) {
        out[idx] = 
            ((";

/// The template of the sum of two tensors from there to the index of that element.
pub const ADD_A_INDEX: &'static str = ") == 0 ? 0.0 : inp_a[";

/// The template of the sum of two tensors from there to where it asks the same of the second.
pub const ADD_B_VALID: &'static str = "]) 
            + ((";

/// The template of the sum of two tensors from there to the index of that element.
pub const ADD_B_INDEX: &'static str = ") == 0 ? 0.0 : inp_b[";

/// The rest of the template of the sum of two tensors.
pub const ADD_TAIL: &'static str = "]);
    }
}
";

/// The template of their product up to where it asks whether an element of the first is valid.
pub const MUL_A_VALID: &'static str = ") {
    if (idx < n_elements) {
        out[idx] = 
            ((";

/// The template of their product from there to the index of that element.
pub const MUL_A_INDEX: &'static str = ") == 0 ? 0.0 : inp_a[";

/// The template of their product from there to where it asks the same of the second.
pub const MUL_B_VALID: &'static str = "]) 
            * ((";

/// The template of their product from there to the index of that element.
pub const MUL_B_INDEX: &'static str = ") == 0 ? 0.0 : inp_b[";

/// The rest of the template of their product.
pub const MUL_TAIL: &'static str = "]);
    }
}
";

/// The template of their comparison up to where it asks whether an element of the first is valid.
pub const LESS_THAN_A_VALID: &'static str = ") {
    if (idx < n_elements) {
        float a_t = 0.0;
        float b_t = 0.0;
        if ((";

/// The template of their comparison from there to the index of that element.
pub const LESS_THAN_A_INDEX: &'static str = ") != 0) {
            a_t = inp_a[";

/// The template of their comparison from there to where it asks the same of the second.
pub const LESS_THAN_B_VALID: &'static str = "];
        }
        if ((";

/// The template of their comparison from there to the index of that element.
pub const LESS_THAN_B_INDEX: &'static str = ") != 0) {
            b_t = inp_b[";

/// The rest of the template of their comparison.
pub const LESS_THAN_TAIL: &'static str = "];
        }
        if (a_t < b_t) {
            out[idx] = 1.0;
        } else {
            out[idx] = 0.0;
        }
    }
}
";

/// The template of their remainder up to where it asks whether an element of the first is valid.
pub const MOD_A_VALID: &'static str = ") {
    if (idx < n_elements) {
        out[idx] = fmod((";

/// The template of their remainder from there to the index of that element.
pub const MOD_A_INDEX: &'static str = ") == 0 ? 0.0 : inp_a[";

/// The template of their remainder from there to where it asks the same of the second.
pub const MOD_B_VALID: &'static str = "], (";

/// The template of their remainder from there to the index of that element.
pub const MOD_B_INDEX: &'static str = ") == 0 ? 0.0 : inp_b[";

/// The rest of the template of their remainder.
pub const MOD_TAIL: &'static str = "]);
    }
}
";

/// The letters among dimensions, each once, in the order in which they first occur.
pub open spec fn symbols(dims: Seq<Dim>) -> Seq<char>
    decreases dims.len(),
{
    if dims.len() == 0 {
        Seq::empty()
    } else {
        let rest = symbols(dims.drop_last());
        match dims.last() {
            Dim::Unknown(c) => if rest.contains(c) {
                rest
            } else {
                rest.push(c)
            },
            Dim::Known(_) => rest,
        }
    }
}

/// The kernel arguments for sizes known only at run time: one for each letter, in the buffer
/// slots from `offset` on.
pub open spec fn dyn_inputs(letters: Seq<char>, offset: nat) -> Seq<char>
    decreases letters.len(),
{
    if letters.len() == 0 {
        Seq::empty()
    } else {
        (((dyn_inputs(letters.drop_last(), offset) + ", device uint& "@).push(letters.last())
            + " [[buffer("@) + decimal((offset + letters.len() - 1) as nat)) + ")]]"@
    }
}

/// Whether a letter is among letters.
pub(crate) fn has_letter(letters: &Vec<char>, c: char) -> (res: bool)
    ensures
        res == letters@.contains(c),
{
    let mut i: usize = 0;
    while i < letters.len()
        invariant
            i <= letters.len(),
            forall|k: int| 0 <= k < i ==> letters@[k] != c,
        decreases letters.len() - i,
    {
        if letters[i] == c {
            assert(letters@[i as int] == c);
            return true;
        }
        i = i + 1;
    }
    false
}

/// The letters among dimensions, each once, in the order in which they first occur.
pub fn symbols_of(dims: &Vec<Dim>) -> (letters: Vec<char>)
    ensures
        letters@ == symbols(dims@),
{
    let mut letters: Vec<char> = Vec::new();
    let mut i: usize = 0;
    while i < dims.len()
        invariant
            i <= dims.len(),
            letters@ == symbols(dims@.take(i as int)),
        decreases dims.len() - i,
    {
        proof {
            assert(dims@.take(i + 1).drop_last() =~= dims@.take(i as int));
        }
        match dims[i] {
            Dim::Unknown(c) => {
                if !has_letter(&letters, c) {
                    letters.push(c);
                }
            },
            Dim::Known(_) => {},
        }
        i = i + 1;
    }
    proof {
        assert(dims@.take(dims@.len() as int) =~= dims@);
    }
    letters
}

/// The kernel arguments for the sizes of `dims` that are known only at run time, in the buffer
/// slots from `offset` on.
pub fn render_dyn_dim_inputs(dims: &Vec<Dim>, offset: u64) -> (res: String)
    ensures
        res@ == dyn_inputs(symbols(dims@), offset as nat),
{
    let letters = symbols_of(dims);
    let mut res = String::new();
    let mut i: usize = 0;
    while i < letters.len()
        invariant
            i <= letters.len(),
            res@ == dyn_inputs(letters@.take(i as int), offset as nat),
        decreases letters.len() - i,
    {
        proof {
            assert(letters@.take(i + 1).drop_last() =~= letters@.take(i as int));
        }
        res.append(", device uint& ");
        res.push(letters[i]);
        res.append(" [[buffer(");
        push_decimal(&mut res, offset as u128 + i as u128);
        res.append(")]]");
        i = i + 1;
    }
    proof {
        assert(letters@.take(letters@.len() as int) =~= letters@);
    }
    res
}

/// Each letter is declared once.
pub proof fn lemma_symbols_once(dims: Seq<Dim>)
    ensures
        symbols(dims).no_duplicates(),
    decreases dims.len(),
{
    if dims.len() > 0 {
        lemma_symbols_once(dims.drop_last());
    }
}

/// Every letter among dimensions is declared.
pub proof fn lemma_symbols_cover(dims: Seq<Dim>, i: int, c: char)
    requires
        0 <= i < dims.len(),
        dims[i] == Dim::Unknown(c),
    ensures
        symbols(dims).contains(c),
    decreases dims.len(),
{
    let rest = symbols(dims.drop_last());
    if i < dims.len() - 1 {
        lemma_symbols_cover(dims.drop_last(), i, c);
        let k = choose|k: int| 0 <= k < rest.len() && rest[k] == c;
        assert(symbols(dims)[k] == c);
    } else if !rest.contains(c) {
        assert(symbols(dims)[rest.len() as int] == c);
    }
}

/// The dimensions of two views side by side.
pub fn joint_dims(a: &Vec<Dim>, b: &Vec<Dim>) -> (res: Vec<Dim>)
    ensures
        res@ == a@ + b@,
{
    let mut res: Vec<Dim> = Vec::new();
    let mut i: usize = 0;
    while i < a.len()
        invariant
            i <= a.len(),
            res@ == a@.take(i as int),
        decreases a.len() - i,
    {
        res.push(a[i]);
        assert(res@ =~= a@.take(i + 1));
        i = i + 1;
    }
    let mut j: usize = 0;
    assert(res@ =~= a@ + b@.take(0));
    while j < b.len()
        invariant
            j <= b.len(),
            res@ == a@ + b@.take(j as int),
        decreases b.len() - j,
    {
        res.push(b[j]);
        assert(res@ =~= a@ + b@.take(j + 1));
        j = j + 1;
    }
    assert(res@ =~= a@ + b@);
    res
}

/// A template of one view: a head, the sizes known only at run time from slot `offset` on, and
/// the expressions of the view between three pieces of text.
pub open spec fn view_source(
    head: Seq<char>,
    offset: nat,
    valid: Seq<char>,
    index: Seq<char>,
    tail: Seq<char>,
    shape: &ShapeTracker,
) -> Seq<char> {
    head + dyn_inputs(symbols(shape.dims@), offset) + valid + shape.valid@ + index + shape.index@
        + tail
}

/// A template of one view.
fn view_template(
    head: &str,
    offset: u64,
    valid: &str,
    index: &str,
    tail: &str,
    shape: &ShapeTracker,
) -> (res: String)
    ensures
        res@ == view_source(head@, offset as nat, valid@, index@, tail@, shape),
{
    let mut res = head.to_string();
    res.append(render_dyn_dim_inputs(&shape.dims, offset).as_str());
    res.append(valid);
    res.append(shape.valid.as_str());
    res.append(index);
    res.append(shape.index.as_str());
    res.append(tail);
    res
}

/// A template of two views: the head, the sizes known only at run time after it, and the
/// expressions of the views between five pieces of text.
pub open spec fn binary_source(
    a_valid: Seq<char>,
    a_index: Seq<char>,
    b_valid: Seq<char>,
    b_index: Seq<char>,
    tail: Seq<char>,
    a: &ShapeTracker,
    b: &ShapeTracker,
) -> Seq<char> {
    BINARY_HEAD@ + dyn_inputs(symbols(a.dims@ + b.dims@), BINARY_SLOTS as nat) + a_valid + a.valid@ + a_index
        + a.index@ + b_valid + b.valid@ + b_index + b.index@ + tail
}

/// A template of two views.
fn binary_template(
    a_valid: &str,
    a_index: &str,
    b_valid: &str,
    b_index: &str,
    tail: &str,
    a: &ShapeTracker,
    b: &ShapeTracker,
) -> (res: String)
    ensures
        res@ == binary_source(a_valid@, a_index@, b_valid@, b_index@, tail@, a, b),
{
    let dims = joint_dims(&a.dims, &b.dims);
    let mut res = BINARY_HEAD.to_string();
    res.append(render_dyn_dim_inputs(&dims, BINARY_SLOTS).as_str());
    res.append(a_valid);
    res.append(a.valid.as_str());
    res.append(a_index);
    res.append(a.index.as_str());
    res.append(b_valid);
    res.append(b.valid.as_str());
    res.append(b_index);
    res.append(b.index.as_str());
    res.append(tail);
    res
}

/// The template that lays a view out.
pub open spec fn contiguous_source(shape: &ShapeTracker) -> Seq<char> {
    view_source(
        CONTIGUOUS_HEAD@,
        CONTIGUOUS_SLOTS as nat,
        CONTIGUOUS_VALID@,
        CONTIGUOUS_INDEX@,
        CONTIGUOUS_TAIL@,
        shape,
    )
}

/// The template that lays a view out.
pub fn contiguous_template(shape: &ShapeTracker) -> (res: String)
    ensures
        res@ == contiguous_source(shape),
{
    view_template(
        CONTIGUOUS_HEAD,
        CONTIGUOUS_SLOTS,
        CONTIGUOUS_VALID,
        CONTIGUOUS_INDEX,
        CONTIGUOUS_TAIL,
        shape,
    )
}

/// The template of the sum along a dimension.
pub open spec fn sum_reduce_source(shape: &ShapeTracker) -> Seq<char> {
    view_source(REDUCE_HEAD@, REDUCE_SLOTS as nat, SUM_VALID@, SUM_INDEX@, SUM_TAIL@, shape)
}

/// The template of the sum along a dimension.
pub fn sum_reduce_template(shape: &ShapeTracker) -> (res: String)
    ensures
        res@ == sum_reduce_source(shape),
{
    view_template(REDUCE_HEAD, REDUCE_SLOTS, SUM_VALID, SUM_INDEX, SUM_TAIL, shape)
}

/// The template of the maximum along a dimension.
pub open spec fn max_reduce_source(shape: &ShapeTracker) -> Seq<char> {
    view_source(REDUCE_HEAD@, REDUCE_SLOTS as nat, MAX_VALID@, MAX_INDEX@, MAX_TAIL@, shape)
}

/// The template of the maximum along a dimension.
pub fn max_reduce_template(shape: &ShapeTracker) -> (res: String)
    ensures
        res@ == max_reduce_source(shape),
{
    view_template(REDUCE_HEAD, REDUCE_SLOTS, MAX_VALID, MAX_INDEX, MAX_TAIL, shape)
}

/// The template of the sum of two tensors.
pub open spec fn add_source(a: &ShapeTracker, b: &ShapeTracker) -> Seq<char> {
    binary_source(
        ADD_A_VALID@,
        ADD_A_INDEX@,
        ADD_B_VALID@,
        ADD_B_INDEX@,
        ADD_TAIL@,
        a,
        b,
    )
}

/// The template of the sum of two tensors.
pub fn add_template(a: &ShapeTracker, b: &ShapeTracker) -> (res: String)
    ensures
        res@ == add_source(a, b),
{
    binary_template(
        ADD_A_VALID,
        ADD_A_INDEX,
        ADD_B_VALID,
        ADD_B_INDEX,
        ADD_TAIL,
        a,
        b,
    )
}

/// The template of the product of two tensors.
pub open spec fn mul_source(a: &ShapeTracker, b: &ShapeTracker) -> Seq<char> {
    binary_source(
        MUL_A_VALID@,
        MUL_A_INDEX@,
        MUL_B_VALID@,
        MUL_B_INDEX@,
        MUL_TAIL@,
        a,
        b,
    )
}

/// The template of the product of two tensors.
pub fn mul_template(a: &ShapeTracker, b: &ShapeTracker) -> (res: String)
    ensures
        res@ == mul_source(a, b),
{
    binary_template(
        MUL_A_VALID,
        MUL_A_INDEX,
        MUL_B_VALID,
        MUL_B_INDEX,
        MUL_TAIL,
        a,
        b,
    )
}

/// The template of the comparison of two tensors.
pub open spec fn less_than_source(a: &ShapeTracker, b: &ShapeTracker) -> Seq<char> {
    binary_source(
        LESS_THAN_A_VALID@,
        LESS_THAN_A_INDEX@,
        LESS_THAN_B_VALID@,
        LESS_THAN_B_INDEX@,
        LESS_THAN_TAIL@,
        a,
        b,
    )
}

/// The template of the comparison of two tensors.
pub fn less_than_template(a: &ShapeTracker, b: &ShapeTracker) -> (res: String)
    ensures
        res@ == less_than_source(a, b),
{
    binary_template(
        LESS_THAN_A_VALID,
        LESS_THAN_A_INDEX,
        LESS_THAN_B_VALID,
        LESS_THAN_B_INDEX,
        LESS_THAN_TAIL,
        a,
        b,
    )
}

/// The template of the remainder of two tensors.
pub open spec fn mod_source(a: &ShapeTracker, b: &ShapeTracker) -> Seq<char> {
    binary_source(
        MOD_A_VALID@,
        MOD_A_INDEX@,
        MOD_B_VALID@,
        MOD_B_INDEX@,
        MOD_TAIL@,
        a,
        b,
    )
}

/// The template of the remainder of two tensors.
pub fn mod_template(a: &ShapeTracker, b: &ShapeTracker) -> (res: String)
    ensures
        res@ == mod_source(a, b),
{
    binary_template(
        MOD_A_VALID,
        MOD_A_INDEX,
        MOD_B_VALID,
        MOD_B_INDEX,
        MOD_TAIL,
        a,
        b,
    )
}

} // verus!
