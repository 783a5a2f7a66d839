//! What has become of each primitive operator in a compiled graph.
use crate::dispatch::Dispatch;
use crate::elements::reduced;
use crate::execution::{expressions, lemma_max_runs, lemma_sum_runs};
use crate::graph::{inputs, GraphState, Link, NodeId};
use crate::guarantees::{lemma_nodes_lowered, lemma_views_kept};
use crate::kernel::{name_of, KernelText};
use crate::language::{launched, Reading};
use crate::lower::{at_place, in_order_below, views};
use crate::meaning::lemma_place_link;
use crate::ops::{MetalConstant, MetalMaxReduce, MetalSumReduce, Op};
use crate::places::{distinct_places, lemma_distinct_place, lemma_place_links, place_links};
use crate::primitive::{compiled, ready};
use crate::programs::{
    call_program, contiguous_program, lemma_add_source, lemma_contiguous_source, lemma_exp2_text,
    lemma_less_than_source, lemma_log2_text, lemma_max_source, lemma_mod_source, lemma_mul_source,
    lemma_recip_text, lemma_sin_text, lemma_sqrt_text, lemma_sum_source, less_than_program,
    max_program, mod_program, recip_program, sign_program, sum_program,
};
use crate::shape::product;
use crate::source::symbols;
use crate::tensor::Tensor;
use vstd::prelude::*;

verus! {

/// Link `l` carries a tensor to `n`, and no other link carries one to it at its place or a lower
/// one.
pub open spec fn reads_lowest(links: Seq<Link>, n: NodeId, l: Link) -> bool {
    &&& links.contains(l)
    &&& l.target == n
    &&& l.weight is Data
    &&& forall|x: Link| #[trigger]
        links.contains(x) && x.target == n && x.weight is Data && x.weight->input_order
            <= l.weight->input_order ==> x == l
}

/// Links `l` and `h` carry tensors to `n`, `l` at a lower place, and no other link carries one to
/// it at the place of `h` or a lower one.
pub open spec fn reads_lowest_two(links: Seq<Link>, n: NodeId, l: Link, h: Link) -> bool {
    &&& reads_lowest(links, n, l)
    &&& links.contains(h)
    &&& h.target == n
    &&& h.weight is Data
    &&& l.weight->input_order < h.weight->input_order
    &&& forall|x: Link| #[trigger]
        links.contains(x) && x.target == n && x.weight is Data && x.weight->input_order
            <= h.weight->input_order ==> x == l || x == h
}

/// Where no tensor has a place from `j` on below `k`, none is added there.
proof fn lemma_none_between(links: Seq<Link>, n: NodeId, j: nat, k: nat)
    requires
        j <= k <= 256,
        forall|x: Link| #[trigger]
            links.contains(x) && x.target == n && x.weight is Data ==> !(j
                <= x.weight->input_order < k),
    ensures
        in_order_below(inputs(links, n), k) == in_order_below(inputs(links, n), j),
    decreases k,
{
    if j < k {
        let p = (k - 1) as u8;
        lemma_none_between(links, n, j, (k - 1) as nat);
        lemma_place_links(links, n, p);
        let s = place_links(links, n, p);
        if s.len() > 0 {
            assert(s.contains(s[0]));
            lemma_place_link(links, n, p, s[0]);
        }
        let t = in_order_below(inputs(links, n), j);
        assert(t + at_place(inputs(links, n), p) =~= t);
    }
}

/// What comes by place up to some place comes first.
proof fn lemma_first_places(links: Seq<Link>, n: NodeId, j: nat, k: nat)
    requires
        j <= k <= 256,
    ensures
        in_order_below(inputs(links, n), j).len() <= in_order_below(inputs(links, n), k).len(),
        forall|i: int|
            0 <= i < in_order_below(inputs(links, n), j).len() ==> in_order_below(
                inputs(links, n),
                k,
            )[i] == #[trigger] in_order_below(inputs(links, n), j)[i],
    decreases k,
{
    if j < k {
        lemma_first_places(links, n, j, (k - 1) as nat);
    }
}

/// A tensor with a place of its own comes right after those of lower places.
proof fn lemma_at_own_place(links: Seq<Link>, n: NodeId, l: Link)
    requires
        distinct_places(inputs(links, n)),
        links.contains(l),
        l.target == n,
        l.weight is Data,
    ensures
        ({
            let k = l.weight->input_order as nat;
            in_order_below(inputs(links, n), k + 1) == in_order_below(inputs(links, n), k).push(
                (l.weight->input_order, l.weight->output_order, l.weight->shape),
            )
        }),
{
    let p = l.weight->input_order;
    lemma_distinct_place(inputs(links, n), p);
    lemma_place_links(links, n, p);
    lemma_place_link(links, n, p, l);
    let s = place_links(links, n, p);
    assert(s[0] == l);
    assert(((p as nat + 1) - 1) as u8 == p);
    let t = in_order_below(inputs(links, n), p as nat);
    assert(t + at_place(inputs(links, n), p) =~= t.push(
        (l.weight->input_order, l.weight->output_order, l.weight->shape),
    ));
}

/// The tensor of the lowest place comes first.
proof fn lemma_lowest_view(links: Seq<Link>, n: NodeId, l: Link)
    requires
        distinct_places(inputs(links, n)),
        reads_lowest(links, n, l),
    ensures
        views(links, n).len() >= 1,
        views(links, n)[0] == l.weight->shape,
{
    let k = l.weight->input_order as nat;
    lemma_none_between(links, n, 0, k);
    lemma_at_own_place(links, n, l);
    lemma_first_places(links, n, k + 1, 256);
    let t = in_order_below(inputs(links, n), k + 1);
    assert(t.len() == 1 && t[0].2 == l.weight->shape);
}

/// The tensors of the lowest two places come first and second.
proof fn lemma_lowest_views(links: Seq<Link>, n: NodeId, l: Link, h: Link)
    requires
        distinct_places(inputs(links, n)),
        reads_lowest_two(links, n, l, h),
    ensures
        views(links, n).len() >= 2,
        views(links, n)[0] == l.weight->shape,
        views(links, n)[1] == h.weight->shape,
{
    let j = l.weight->input_order as nat;
    let k = h.weight->input_order as nat;
    lemma_none_between(links, n, 0, j);
    lemma_at_own_place(links, n, l);
    lemma_none_between(links, n, j + 1, k);
    lemma_at_own_place(links, n, h);
    lemma_first_places(links, n, k + 1, 256);
    let t = in_order_below(inputs(links, n), k + 1);
    assert(t.len() == 2 && t[0].2 == l.weight->shape && t[1].2 == h.weight->shape);
}

/// The node of a constant holds, once compiled, that very constant.
pub proof fn lemma_constant_compiled(
    pre: GraphState,
    post: GraphState,
    kernels: Seq<KernelText>,
    n: NodeId,
    c: u32,
)
    requires
        pre.closed(),
        ready(pre),
        compiled(pre, post, kernels),
        pre.nodes.contains_key(n),
        pre.nodes[n] == Op::Constant(c),
    ensures
        post.nodes.contains_key(n),
        post.nodes[n] == Op::MetalConstant(MetalConstant(c)),
{
    lemma_nodes_lowered(pre, post, kernels, n);
}

/// A node with any other operator than a constant, one on every element, one on two tensors, a
/// reduction or a layout holds what it held.
pub proof fn lemma_others_compiled(
    pre: GraphState,
    post: GraphState,
    kernels: Seq<KernelText>,
    n: NodeId,
)
    requires
        pre.closed(),
        ready(pre),
        compiled(pre, post, kernels),
        pre.nodes.contains_key(n),
        match pre.nodes[n] {
            Op::Constant(_) | Op::Log2 | Op::Exp2 | Op::Sin | Op::Sqrt | Op::Recip => false,
            Op::Add | Op::Mul | Op::LessThan | Op::Mod => false,
            Op::SumReduce(_) | Op::MaxReduce(_) | Op::Contiguous => false,
            _ => true,
        },
    ensures
        post.nodes.contains_key(n),
        post.nodes[n] == pre.nodes[n],
{
    lemma_nodes_lowered(pre, post, kernels, n);
}

/// The node of a base-2 logarithm holds, once compiled, the Metal one, on the kernel of that
/// program.
pub proof fn lemma_log2_compiled<E>(
    r: Reading<E>,
    pre: GraphState,
    post: GraphState,
    kernels: Seq<KernelText>,
    n: NodeId,
)
    requires
        pre.closed(),
        ready(pre),
        compiled(pre, post, kernels),
        pre.nodes.contains_key(n),
        pre.nodes[n] == Op::Log2,
    ensures
        post.nodes.contains_key(n),
        post.nodes[n] matches Op::MetalLog2(m) && m.kernel < kernels.len()
            && kernels[m.kernel as int].name == name_of(call_program(r, "log2"@).text),
{
    lemma_nodes_lowered(pre, post, kernels, n);
    lemma_log2_text(r);
}

/// The node of a base-2 exponential holds, once compiled, the Metal one, on the kernel of that
/// program.
pub proof fn lemma_exp2_compiled<E>(
    r: Reading<E>,
    pre: GraphState,
    post: GraphState,
    kernels: Seq<KernelText>,
    n: NodeId,
)
    requires
        pre.closed(),
        ready(pre),
        compiled(pre, post, kernels),
        pre.nodes.contains_key(n),
        pre.nodes[n] == Op::Exp2,
    ensures
        post.nodes.contains_key(n),
        post.nodes[n] matches Op::MetalExp2(m) && m.kernel < kernels.len()
            && kernels[m.kernel as int].name == name_of(call_program(r, "exp2"@).text),
{
    lemma_nodes_lowered(pre, post, kernels, n);
    lemma_exp2_text(r);
}

/// The node of a sine holds, once compiled, the Metal one, on the kernel of that program.
pub proof fn lemma_sin_compiled<E>(
    r: Reading<E>,
    pre: GraphState,
    post: GraphState,
    kernels: Seq<KernelText>,
    n: NodeId,
)
    requires
        pre.closed(),
        ready(pre),
        compiled(pre, post, kernels),
        pre.nodes.contains_key(n),
        pre.nodes[n] == Op::Sin,
    ensures
        post.nodes.contains_key(n),
        post.nodes[n] matches Op::MetalSin(m) && m.kernel < kernels.len()
            && kernels[m.kernel as int].name == name_of(call_program(r, "sin"@).text),
{
    lemma_nodes_lowered(pre, post, kernels, n);
    lemma_sin_text(r);
}

/// The node of a square root holds, once compiled, the Metal one, on the kernel of that program.
pub proof fn lemma_sqrt_compiled<E>(
    r: Reading<E>,
    pre: GraphState,
    post: GraphState,
    kernels: Seq<KernelText>,
    n: NodeId,
)
    requires
        pre.closed(),
        ready(pre),
        compiled(pre, post, kernels),
        pre.nodes.contains_key(n),
        pre.nodes[n] == Op::Sqrt,
    ensures
        post.nodes.contains_key(n),
        post.nodes[n] matches Op::MetalSqrt(m) && m.kernel < kernels.len()
            && kernels[m.kernel as int].name == name_of(call_program(r, "sqrt"@).text),
{
    lemma_nodes_lowered(pre, post, kernels, n);
    lemma_sqrt_text(r);
}

/// The node of a reciprocal holds, once compiled, the Metal one, on the kernel of that program.
pub proof fn lemma_recip_compiled<E>(
    r: Reading<E>,
    pre: GraphState,
    post: GraphState,
    kernels: Seq<KernelText>,
    n: NodeId,
)
    requires
        pre.closed(),
        ready(pre),
        compiled(pre, post, kernels),
        pre.nodes.contains_key(n),
        pre.nodes[n] == Op::Recip,
    ensures
        post.nodes.contains_key(n),
        post.nodes[n] matches Op::MetalRecip(m) && m.kernel < kernels.len()
            && kernels[m.kernel as int].name == name_of(recip_program(r).text),
{
    lemma_nodes_lowered(pre, post, kernels, n);
    lemma_recip_text(r);
}

/// The node of a sum of two tensors holds, once compiled, the Metal one, on the kernel of that
/// program for the views that it holds. Where every input has a place of its own, these are the
/// views of the tensors of the lowest two places, in this order.
pub proof fn lemma_add_compiled<E>(
    r: Reading<E>,
    pre: GraphState,
    post: GraphState,
    kernels: Seq<KernelText>,
    n: NodeId,
    l: Link,
    h: Link,
)
    requires
        pre.closed(),
        ready(pre),
        compiled(pre, post, kernels),
        pre.nodes.contains_key(n),
        pre.nodes[n] == Op::Add,
        distinct_places(inputs(pre.links, n)),
        reads_lowest_two(pre.links, n, l, h),
    ensures
        post.nodes.contains_key(n),
        post.nodes[n] matches Op::MetalAdd(m) && m.a_shape == l.weight->shape && m.b_shape
            == h.weight->shape && m.kernel < kernels.len() && kernels[m.kernel as int].name == name_of(
            sign_program(
                r,
                "+"@,
                &m.a_shape,
                &m.b_shape,
                symbols(m.a_shape.dims@ + m.b_shape.dims@),
            ).text,
        ),
{
    lemma_nodes_lowered(pre, post, kernels, n);
    lemma_views_kept(pre, post, kernels, n);
    lemma_lowest_views(pre.links, n, l, h);
    lemma_add_source(r, &l.weight->shape, &h.weight->shape);
}

/// The node of a product of two tensors holds, once compiled, the Metal one, on the kernel of that
/// program for the views that it holds. Where every input has a place of its own, these are the
/// views of the tensors of the lowest two places, in this order.
pub proof fn lemma_mul_compiled<E>(
    r: Reading<E>,
    pre: GraphState,
    post: GraphState,
    kernels: Seq<KernelText>,
    n: NodeId,
    l: Link,
    h: Link,
)
    requires
        pre.closed(),
        ready(pre),
        compiled(pre, post, kernels),
        pre.nodes.contains_key(n),
        pre.nodes[n] == Op::Mul,
        distinct_places(inputs(pre.links, n)),
        reads_lowest_two(pre.links, n, l, h),
    ensures
        post.nodes.contains_key(n),
        post.nodes[n] matches Op::MetalMul(m) && m.a_shape == l.weight->shape && m.b_shape
            == h.weight->shape && m.kernel < kernels.len() && kernels[m.kernel as int].name == name_of(
            sign_program(
                r,
                "*"@,
                &m.a_shape,
                &m.b_shape,
                symbols(m.a_shape.dims@ + m.b_shape.dims@),
            ).text,
        ),
{
    lemma_nodes_lowered(pre, post, kernels, n);
    lemma_views_kept(pre, post, kernels, n);
    lemma_lowest_views(pre.links, n, l, h);
    lemma_mul_source(r, &l.weight->shape, &h.weight->shape);
}

/// The node of a comparison of two tensors holds, once compiled, the Metal one, on the kernel of
/// that program for the views that it holds. Where every input has a place of its own, these are
/// the views of the tensors of the lowest two places, in this order.
pub proof fn lemma_less_than_compiled<E>(
    r: Reading<E>,
    pre: GraphState,
    post: GraphState,
    kernels: Seq<KernelText>,
    n: NodeId,
    l: Link,
    h: Link,
)
    requires
        pre.closed(),
        ready(pre),
        compiled(pre, post, kernels),
        pre.nodes.contains_key(n),
        pre.nodes[n] == Op::LessThan,
        distinct_places(inputs(pre.links, n)),
        reads_lowest_two(pre.links, n, l, h),
    ensures
        post.nodes.contains_key(n),
        post.nodes[n] matches Op::MetalLessThan(m) && m.a_shape == l.weight->shape && m.b_shape
            == h.weight->shape && m.kernel < kernels.len() && kernels[m.kernel as int].name == name_of(
            less_than_program(
                r,
                &m.a_shape,
                &m.b_shape,
                symbols(m.a_shape.dims@ + m.b_shape.dims@),
            ).text,
        ),
{
    lemma_nodes_lowered(pre, post, kernels, n);
    lemma_views_kept(pre, post, kernels, n);
    lemma_lowest_views(pre.links, n, l, h);
    lemma_less_than_source(r, &l.weight->shape, &h.weight->shape);
}

/// The node of a remainder of two tensors holds, once compiled, the Metal one, on the kernel of
/// that program for the views that it holds. Where every input has a place of its own, these are
/// the views of the tensors of the lowest two places, in this order.
pub proof fn lemma_mod_compiled<E>(
    r: Reading<E>,
    pre: GraphState,
    post: GraphState,
    kernels: Seq<KernelText>,
    n: NodeId,
    l: Link,
    h: Link,
)
    requires
        pre.closed(),
        ready(pre),
        compiled(pre, post, kernels),
        pre.nodes.contains_key(n),
        pre.nodes[n] == Op::Mod,
        distinct_places(inputs(pre.links, n)),
        reads_lowest_two(pre.links, n, l, h),
    ensures
        post.nodes.contains_key(n),
        post.nodes[n] matches Op::MetalMod(m) && m.a_shape == l.weight->shape && m.b_shape
            == h.weight->shape && m.kernel < kernels.len() && kernels[m.kernel as int].name == name_of(
            mod_program(
                r,
                &m.a_shape,
                &m.b_shape,
                symbols(m.a_shape.dims@ + m.b_shape.dims@),
            ).text,
        ),
{
    lemma_nodes_lowered(pre, post, kernels, n);
    lemma_views_kept(pre, post, kernels, n);
    lemma_lowest_views(pre.links, n, l, h);
    lemma_mod_source(r, &l.weight->shape, &h.weight->shape);
}

/// The node of a sum along a dimension holds, once compiled, the Metal one for that very
/// dimension, on the kernel of that program for the view that it holds. Where every input has a
/// place of its own, this is the view of the tensor of the lowest place.
pub proof fn lemma_sum_compiled<E>(
    r: Reading<E>,
    pre: GraphState,
    post: GraphState,
    kernels: Seq<KernelText>,
    n: NodeId,
    dim: usize,
    l: Link,
)
    requires
        pre.closed(),
        ready(pre),
        compiled(pre, post, kernels),
        pre.nodes.contains_key(n),
        pre.nodes[n] == Op::SumReduce(dim),
        distinct_places(inputs(pre.links, n)),
        reads_lowest(pre.links, n, l),
    ensures
        post.nodes.contains_key(n),
        post.nodes[n] matches Op::MetalSumReduce(m) && m.dim == dim && m.shape == l.weight->shape && m.kernel
            < kernels.len() && kernels[m.kernel as int].name == name_of(
            sum_program(r, &m.shape, symbols(m.shape.dims@)).text,
        ),
{
    lemma_nodes_lowered(pre, post, kernels, n);
    lemma_views_kept(pre, post, kernels, n);
    lemma_lowest_view(pre.links, n, l);
    lemma_sum_source(r, &l.weight->shape);
}

/// The node of a maximum along a dimension holds, once compiled, the Metal one for that very
/// dimension, on the kernel of that program for the view that it holds. Where every input has a
/// place of its own, this is the view of the tensor of the lowest place.
pub proof fn lemma_max_compiled<E>(
    r: Reading<E>,
    pre: GraphState,
    post: GraphState,
    kernels: Seq<KernelText>,
    n: NodeId,
    dim: usize,
    l: Link,
)
    requires
        pre.closed(),
        ready(pre),
        compiled(pre, post, kernels),
        pre.nodes.contains_key(n),
        pre.nodes[n] == Op::MaxReduce(dim),
        distinct_places(inputs(pre.links, n)),
        reads_lowest(pre.links, n, l),
    ensures
        post.nodes.contains_key(n),
        post.nodes[n] matches Op::MetalMaxReduce(m) && m.dim == dim && m.shape == l.weight->shape && m.kernel
            < kernels.len() && kernels[m.kernel as int].name == name_of(
            max_program(r, &m.shape, symbols(m.shape.dims@)).text,
        ),
{
    lemma_nodes_lowered(pre, post, kernels, n);
    lemma_views_kept(pre, post, kernels, n);
    lemma_lowest_view(pre.links, n, l);
    lemma_max_source(r, &l.weight->shape);
}

/// The node of a layout holds, once compiled, the Metal one, on the kernel of that program for the
/// view that it holds. Where every input has a place of its own, this is the view of the tensor of
/// the lowest place.
pub proof fn lemma_contiguous_compiled<E>(
    r: Reading<E>,
    pre: GraphState,
    post: GraphState,
    kernels: Seq<KernelText>,
    n: NodeId,
    l: Link,
)
    requires
        pre.closed(),
        ready(pre),
        compiled(pre, post, kernels),
        pre.nodes.contains_key(n),
        pre.nodes[n] == Op::Contiguous,
        distinct_places(inputs(pre.links, n)),
        reads_lowest(pre.links, n, l),
    ensures
        post.nodes.contains_key(n),
        post.nodes[n] matches Op::MetalContiguous(m) && m.shape == l.weight->shape && m.kernel
            < kernels.len() && kernels[m.kernel as int].name == name_of(
            contiguous_program(r, &m.shape, symbols(m.shape.dims@)).text,
        ),
{
    lemma_nodes_lowered(pre, post, kernels, n);
    lemma_views_kept(pre, post, kernels, n);
    lemma_lowest_view(pre.links, n, l);
    lemma_contiguous_source(r, &l.weight->shape);
}

/// Whatever places its inputs have, a sum along a dimension is compiled for that very dimension.
pub proof fn lemma_sum_dimension_kept(
    pre: GraphState,
    post: GraphState,
    kernels: Seq<KernelText>,
    n: NodeId,
    dim: usize,
)
    requires
        pre.closed(),
        ready(pre),
        compiled(pre, post, kernels),
        pre.nodes.contains_key(n),
        pre.nodes[n] == Op::SumReduce(dim),
    ensures
        post.nodes.contains_key(n),
        post.nodes[n] matches Op::MetalSumReduce(m) && m.dim == dim,
{
    lemma_nodes_lowered(pre, post, kernels, n);
}

/// Whatever places its inputs have, a maximum along a dimension is compiled for that very
/// dimension.
pub proof fn lemma_max_dimension_kept(
    pre: GraphState,
    post: GraphState,
    kernels: Seq<KernelText>,
    n: NodeId,
    dim: usize,
)
    requires
        pre.closed(),
        ready(pre),
        compiled(pre, post, kernels),
        pre.nodes.contains_key(n),
        pre.nodes[n] == Op::MaxReduce(dim),
    ensures
        post.nodes.contains_key(n),
        post.nodes[n] matches Op::MetalMaxReduce(m) && m.dim == dim,
{
    lemma_nodes_lowered(pre, post, kernels, n);
}

/// What a sum along a dimension was to give, it gives once compiled: run as it is planned, it
/// gathers along that very dimension, under the view of the tensor of the lowest place.
pub proof fn lemma_sum_compiled_runs<E>(
    r: Reading<E>,
    pre: GraphState,
    post: GraphState,
    kernels: Seq<KernelText>,
    n: NodeId,
    dim: usize,
    l: Link,
    op: &MetalSumReduce,
    tensors: &Vec<Tensor>,
    d: Dispatch,
    xs: Seq<Seq<E>>,
    out: Seq<E>,
)
    requires
        pre.closed(),
        ready(pre),
        compiled(pre, post, kernels),
        pre.nodes.contains_key(n),
        pre.nodes[n] == Op::SumReduce(dim),
        distinct_places(inputs(pre.links, n)),
        reads_lowest(pre.links, n, l),
        post.nodes[n] == Op::MetalSumReduce(*op),
        call_ensures(MetalSumReduce::process, (op, tensors), d),
        l.weight->shape.dims@.len() == tensors[0].1.dims@.len(),
        dim < tensors[0].1.dims@.len(),
        product(tensors[0].1.dims@) <= u32::MAX,
        out.len() == product(tensors[0].1.dims@.remove(dim as int)),
        out.len() <= u32::MAX,
    ensures
        ({
            let shape = l.weight->shape;
            let p = sum_program(r, &shape, symbols(shape.dims@));
            &&& d.kernel < kernels.len()
            &&& kernels[d.kernel as int].name == name_of(p.text)
            &&& launched(p, d@.bindings, xs, out, d@.n_elements) == reduced(
                expressions(r, shape.dims@, tensors[0].1.dims@),
                |a: E, b: E| (r.infix)("+"@, a, b),
                (r.literal)("0.0"@),
                &shape,
                xs[0],
                tensors[0].1.dims@,
                dim as int,
            )
        }),
{
    lemma_sum_compiled(r, pre, post, kernels, n, dim, l);
    lemma_sum_runs(r, op, tensors, d, xs, out);
}

/// What a maximum along a dimension was to give, it gives once compiled: run as it is planned, it
/// gathers along that very dimension, under the view of the tensor of the lowest place.
pub proof fn lemma_max_compiled_runs<E>(
    r: Reading<E>,
    pre: GraphState,
    post: GraphState,
    kernels: Seq<KernelText>,
    n: NodeId,
    dim: usize,
    l: Link,
    op: &MetalMaxReduce,
    tensors: &Vec<Tensor>,
    d: Dispatch,
    xs: Seq<Seq<E>>,
    out: Seq<E>,
)
    requires
        pre.closed(),
        ready(pre),
        compiled(pre, post, kernels),
        pre.nodes.contains_key(n),
        pre.nodes[n] == Op::MaxReduce(dim),
        distinct_places(inputs(pre.links, n)),
        reads_lowest(pre.links, n, l),
        post.nodes[n] == Op::MetalMaxReduce(*op),
        call_ensures(MetalMaxReduce::process, (op, tensors), d),
        l.weight->shape.dims@.len() == tensors[0].1.dims@.len(),
        dim < tensors[0].1.dims@.len(),
        product(tensors[0].1.dims@) <= u32::MAX,
        out.len() == product(tensors[0].1.dims@.remove(dim as int)),
        out.len() <= u32::MAX,
    ensures
        ({
            let shape = l.weight->shape;
            let p = max_program(r, &shape, symbols(shape.dims@));
            &&& d.kernel < kernels.len()
            &&& kernels[d.kernel as int].name == name_of(p.text)
            &&& launched(p, d@.bindings, xs, out, d@.n_elements) == reduced(
                expressions(r, shape.dims@, tensors[0].1.dims@),
                |a: E, b: E| (r.call)("max"@, seq![a, b]),
                (r.literal)("-(float)0x7f800000"@),
                &shape,
                xs[0],
                tensors[0].1.dims@,
                dim as int,
            )
        }),
{
    lemma_max_compiled(r, pre, post, kernels, n, dim, l);
    lemma_max_runs(r, op, tensors, d, xs, out);
}

} // verus!
