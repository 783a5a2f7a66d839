use metal_prims::kernel::Kernels;
use metal_prims::shape::{Dim, ShapeTracker};
use metal_prims::source::{
    add_template, contiguous_template, less_than_template, max_reduce_template, mod_template,
    mul_template, render_dyn_dim_inputs, sum_reduce_template, symbols_of, EXP2, LOG2, RECIP, SIN,
    SQRT,
};
use metal_prims::text::{hash, push_decimal, replace};
use std::collections::hash_map::DefaultHasher;
use std::hash::{Hash, Hasher};

fn std_hash(text: &str) -> u64 {
    let mut hasher = DefaultHasher::new();
    text.hash(&mut hasher);
    hasher.finish()
}

fn view(dims: Vec<Dim>, index: &str, valid: &str) -> ShapeTracker {
    ShapeTracker::new(dims, 0, index.to_string(), valid.to_string())
}

const UNARY_HEAD: &str = "#include <metal_stdlib>
using namespace metal;
kernel void mkernel(device float *inp [[buffer(0)]], device float *out [[buffer(1)]], device uint& n_elements [[buffer(2)]], uint idx [[thread_position_in_grid]]) {{
    if (idx < n_elements) {{
        out[idx] = ";

#[test]
fn unary_templates_read() {
    let cases = [
        (LOG2, "log2(inp[idx])"),
        (EXP2, "exp2(inp[idx])"),
        (SIN, "sin(inp[idx])"),
        (SQRT, "sqrt(inp[idx])"),
        (RECIP, "1.0 / inp[idx]"),
    ];
    for (template, body) in cases {
        assert_eq!(template, format!("{UNARY_HEAD}{body};\n    }}}}\n}}}}\n"));
    }
}

#[test]
fn contiguous_template_reads() {
    let shape = view(vec![Dim::Known(3), Dim::Unknown('s')], "idx / s", "idx < 5");
    assert_eq!(
        contiguous_template(&shape),
        "
#include <metal_stdlib>
using namespace metal;
kernel void mkernel(device float *inp [[buffer(0)]], device float *out [[buffer(1)]], device uint& n_elements [[buffer(2)]], uint idx [[thread_position_in_grid]], device uint& s [[buffer(3)]]) {
    if (idx < n_elements && (idx < 5 != 0)) {
        out[idx] = inp[idx / s];
    }
}
"
    );
}

#[test]
fn sum_reduce_template_reads() {
    let shape = view(vec![Dim::Unknown('a'), Dim::Unknown('b')], "idx * 2", "1");
    assert_eq!(
        sum_reduce_template(&shape),
        "
#include <metal_stdlib>
using namespace metal;
kernel void mkernel(device float *inp [[buffer(0)]], device float *out [[buffer(1)]], device uint& n_elements [[buffer(2)]], device uint& front_size [[buffer(3)]], device uint& back_size [[buffer(4)]], device uint& dim_size [[buffer(5)]], uint i_ [[thread_position_in_grid]], device uint& a [[buffer(6)]], device uint& b [[buffer(7)]]) {
    if (i_ < n_elements) {
        uint a_ = i_ / back_size;
        uint b_ = i_ % back_size;
        float reduce_value = 0.0;
        for (uint c_ = 0; c_ < dim_size; c_++) {
            uint idx = a_ * dim_size * back_size + c_ * back_size + b_;
            if ((1) != 0) {
                reduce_value += inp[idx * 2];
            }
        }
        out[i_] = reduce_value;
    }
}
"
    );
}

#[test]
fn max_reduce_template_reads() {
    let shape = view(vec![Dim::Known(2)], "idx", "idx > 0");
    assert_eq!(
        max_reduce_template(&shape),
        "
#include <metal_stdlib>
using namespace metal;
kernel void mkernel(device float *inp [[buffer(0)]], device float *out [[buffer(1)]], device uint& n_elements [[buffer(2)]], device uint& front_size [[buffer(3)]], device uint& back_size [[buffer(4)]], device uint& dim_size [[buffer(5)]], uint i_ [[thread_position_in_grid]]) {
    if (i_ < n_elements) {
        uint a_ = i_ / back_size;
        uint b_ = i_ % back_size;
        float reduce_value = -(float)0x7f800000;
        for (uint c_ = 0; c_ < dim_size; c_++) {
            uint idx = a_ * dim_size * back_size + c_ * back_size + b_;
            if ((idx > 0) != 0) {
                int a_idx = idx;
                reduce_value = max(reduce_value, inp[a_idx]);
            }
        }
        out[i_] = reduce_value;
    }
}
"
    );
}

const BINARY_HEAD: &str = "
#include <metal_stdlib>
using namespace metal;
kernel void mkernel(device float *inp_a [[buffer(0)]], device float *inp_b [[buffer(1)]], device float *out [[buffer(2)]], device uint& n_elements [[buffer(3)]], uint idx [[thread_position_in_grid]], device uint& s [[buffer(4)]], device uint& t [[buffer(5)]]) {
    if (idx < n_elements) {
        out[idx] = ";

#[test]
fn binary_templates_read() {
    let a = view(vec![Dim::Unknown('s'), Dim::Known(2)], "ia", "va");
    let b = view(vec![Dim::Unknown('t'), Dim::Unknown('s')], "ib", "vb");
    assert_eq!(
        add_template(&a, &b),
        format!(
            "{BINARY_HEAD}\n            ((va) == 0 ? 0.0 : inp_a[ia]) \n            + ((vb) == 0 ? 0.0 : inp_b[ib]);\n    }}\n}}\n"
        )
    );
    assert_eq!(
        mod_template(&a, &b),
        format!(
            "{BINARY_HEAD}fmod((va) == 0 ? 0.0 : inp_a[ia], (vb) == 0 ? 0.0 : inp_b[ib]);\n    }}\n}}\n"
        )
    );
    assert_eq!(
        mul_template(&a, &b),
        format!(
            "{BINARY_HEAD}\n            ((va) == 0 ? 0.0 : inp_a[ia]) \n            * ((vb) == 0 ? 0.0 : inp_b[ib]);\n    }}\n}}\n"
        )
    );
    let head = BINARY_HEAD.replace("        out[idx] = ", "");
    assert_eq!(
        less_than_template(&a, &b),
        format!(
            "{head}        float a_t = 0.0;
        float b_t = 0.0;
        if ((va) != 0) {{
            a_t = inp_a[ia];
        }}
        if ((vb) != 0) {{
            b_t = inp_b[ib];
        }}
        if (a_t < b_t) {{
            out[idx] = 1.0;
        }} else {{
            out[idx] = 0.0;
        }}
    }}
}}
"
        )
    );
}

#[test]
fn letters_are_declared_once_in_order() {
    let dims = vec![
        Dim::Unknown('z'),
        Dim::Known(4),
        Dim::Unknown('a'),
        Dim::Unknown('z'),
    ];
    assert_eq!(symbols_of(&dims), vec!['z', 'a']);
    assert_eq!(
        render_dyn_dim_inputs(&dims, 9),
        ", device uint& z [[buffer(9)]], device uint& a [[buffer(10)]]"
    );
    assert_eq!(render_dyn_dim_inputs(&vec![Dim::Known(1)], 9), "");
}

#[test]
fn a_kernel_is_named_by_the_hash_of_its_template() {
    let mut kernels = Kernels::new();
    assert_eq!(kernels.request(SIN), 0);
    let name = format!("kernel_{}", std_hash(SIN));
    assert_eq!(kernels.get(0).name, name);
    assert_eq!(kernels.get(0).code, SIN.replace("mkernel", &name));
}

#[test]
fn a_kernel_is_kept_once() {
    let mut kernels = Kernels::new();
    assert_eq!(kernels.request(SIN), 0);
    assert_eq!(kernels.request(SQRT), 1);
    assert_eq!(kernels.request(SIN), 0);
    assert_eq!(kernels.request(SQRT), 1);
    assert_eq!(kernels.len(), 2);
    assert_ne!(kernels.get(0).name, kernels.get(1).name);
}

#[test]
fn texts_hash_as_texts() {
    for text in ["", "a", "mkernel", SIN, "\u{e9}\u{1F600}"] {
        assert_eq!(hash(text), std_hash(text));
    }
}

#[test]
fn numbers_in_decimal() {
    for n in [0u128, 9, 10, 1234567890, u64::MAX as u128, u128::MAX] {
        let mut text = "n".to_string();
        push_decimal(&mut text, n);
        assert_eq!(text, format!("n{n}"));
    }
}

#[test]
fn replacing_goes_from_the_left_without_overlap() {
    assert_eq!(replace("aaa", "aa", "b"), "ba");
    assert_eq!(replace("mkernel mmkernel", "mkernel", "k"), "k mk");
    assert_eq!(replace("abc", "x", "y"), "abc");
    assert_eq!(replace("", "x", "y"), "");
    assert_eq!(replace("ab", "abc", "y"), "ab");
}
