//! Metal operators in the place of primitive ones.
use crate::graph::{inputs, lists, Graph, GraphState, Input, Link, NodeId};
use crate::kernel::{all_requested, requested, runs, KernelText, Kernels};
use crate::ops::{
    MetalAdd, MetalConstant, MetalContiguous, MetalExp2, MetalLessThan, MetalLog2, MetalMaxReduce,
    MetalMod, MetalMul, MetalRecip, MetalSin, MetalSqrt, MetalSumReduce, Op,
};
use crate::seqs::lemma_filter_push;
use crate::shape::{share, ShapeTracker};
use crate::source::{
    add_source, contiguous_source, less_than_source, max_reduce_source, mod_source, mul_source,
    sum_reduce_source, EXP2, LOG2, RECIP, SIN, SQRT,
};
use itertools::Itertools;
use std::rc::Rc;
use vstd::prelude::*;

verus! {

/// A tensor of place `k`.
pub open spec fn has_place(k: u8) -> spec_fn(Input) -> bool {
    |t: Input| t.0 == k
}

/// The tensors of place `k`, in the order in which they come.
pub open spec fn at_place(tensors: Seq<Input>, k: u8) -> Seq<Input> {
    tensors.filter(has_place(k))
}

/// The tensors of the first `k` places, by place, those of one place in the order in which they
/// come.
pub open spec fn in_order_below(tensors: Seq<Input>, k: nat) -> Seq<Input>
    decreases k,
{
    if k == 0 {
        Seq::empty()
    } else {
        in_order_below(tensors, (k - 1) as nat) + at_place(tensors, (k - 1) as u8)
    }
}

/// The tensors by place, those of one place in the order in which they come.
pub open spec fn in_order(tensors: Seq<Input>) -> Seq<Input> {
    in_order_below(tensors, 256)
}

/// `Itertools::sorted_by_key` with the place among the inputs for the key: a stable sort, so
/// the tensors come by place, and those of one place stay in the order in which they came.
#[verifier::external_body]
fn sorted_by_place(tensors: Vec<Input>) -> (res: Vec<Input>)
    ensures
        res@ == in_order(tensors@),
{
    tensors.into_iter().sorted_by_key(|t| t.0).collect()
}

/// The views under which a node reads its tensors, by place among its inputs.
pub open spec fn views(links: Seq<Link>, n: NodeId) -> Seq<Rc<ShapeTracker>> {
    in_order(inputs(links, n)).map_values(|t: Input| t.2)
}

/// The template of the kernel that an operator takes on inputs of the given views, if it takes
/// one.
pub open spec fn template_of(op: Op, shapes: Seq<Rc<ShapeTracker>>) -> Option<Seq<char>> {
    match op {
        Op::Log2 => Some(LOG2@),
        Op::Exp2 => Some(EXP2@),
        Op::Sin => Some(SIN@),
        Op::Sqrt => Some(SQRT@),
        Op::Recip => Some(RECIP@),
        Op::Add => Some(add_source(&shapes[0], &shapes[1])),
        Op::Mul => Some(mul_source(&shapes[0], &shapes[1])),
        Op::LessThan => Some(less_than_source(&shapes[0], &shapes[1])),
        Op::Mod => Some(mod_source(&shapes[0], &shapes[1])),
        Op::SumReduce(_) => Some(sum_reduce_source(&shapes[0])),
        Op::MaxReduce(_) => Some(max_reduce_source(&shapes[0])),
        Op::Contiguous => Some(contiguous_source(&shapes[0])),
        _ => None,
    }
}

/// Whether `metal` takes the place of `op` on inputs of the given views: it runs the kernel of
/// its template, and holds the views and numbers that it was made from. An operator that is no
/// primitive stays.
pub open spec fn lowered(
    op: Op,
    shapes: Seq<Rc<ShapeTracker>>,
    kernels: Seq<KernelText>,
    metal: Op,
) -> bool {
    match op {
        Op::Constant(c) => metal == Op::MetalConstant(MetalConstant(c)),
        Op::Log2 => metal matches Op::MetalLog2(m) && runs(kernels, m.kernel as nat, LOG2@),
        Op::Exp2 => metal matches Op::MetalExp2(m) && runs(kernels, m.kernel as nat, EXP2@),
        Op::Sin => metal matches Op::MetalSin(m) && runs(kernels, m.kernel as nat, SIN@),
        Op::Sqrt => metal matches Op::MetalSqrt(m) && runs(kernels, m.kernel as nat, SQRT@),
        Op::Recip => metal matches Op::MetalRecip(m) && runs(kernels, m.kernel as nat, RECIP@),
        Op::Add => metal matches Op::MetalAdd(m) && m.a_shape == shapes[0] && m.b_shape
            == shapes[1] && runs(
            kernels,
            m.kernel as nat,
            add_source(&shapes[0], &shapes[1]),
        ),
        Op::Mul => metal matches Op::MetalMul(m) && m.a_shape == shapes[0] && m.b_shape
            == shapes[1] && runs(
            kernels,
            m.kernel as nat,
            mul_source(&shapes[0], &shapes[1]),
        ),
        Op::LessThan => metal matches Op::MetalLessThan(m) && m.a_shape == shapes[0] && m.b_shape
            == shapes[1] && runs(
            kernels,
            m.kernel as nat,
            less_than_source(&shapes[0], &shapes[1]),
        ),
        Op::Mod => metal matches Op::MetalMod(m) && m.a_shape == shapes[0] && m.b_shape
            == shapes[1] && runs(
            kernels,
            m.kernel as nat,
            mod_source(&shapes[0], &shapes[1]),
        ),
        Op::SumReduce(dim) => metal matches Op::MetalSumReduce(m) && m.dim == dim && m.shape
            == shapes[0] && runs(kernels, m.kernel as nat, sum_reduce_source(&shapes[0])),
        Op::MaxReduce(dim) => metal matches Op::MetalMaxReduce(m) && m.dim == dim && m.shape
            == shapes[0] && runs(kernels, m.kernel as nat, max_reduce_source(&shapes[0])),
        Op::Contiguous => metal matches Op::MetalContiguous(m) && m.shape == shapes[0] && runs(
            kernels,
            m.kernel as nat,
            contiguous_source(&shapes[0]),
        ),
        _ => metal == op,
    }
}

/// The number of tensors that an operator has to read for its kernel.
pub open spec fn arity(op: Op) -> nat {
    match op {
        Op::Add | Op::Mul | Op::LessThan | Op::Mod => 2,
        Op::SumReduce(_) | Op::MaxReduce(_) | Op::Contiguous => 1,
        _ => 0,
    }
}

/// The kernels once that of an operator, if it takes one, has been asked for.
pub open spec fn with_kernel(
    kernels: Seq<KernelText>,
    op: Op,
    shapes: Seq<Rc<ShapeTracker>>,
) -> Seq<KernelText> {
    match template_of(op, shapes) {
        Some(template) => requested(kernels, template),
        None => kernels,
    }
}

/// The Metal operator that takes the place of a primitive one on inputs of the given views, with
/// its kernel among `kernels`; nothing for an operator that is no primitive.
pub fn lower(op: &Op, shapes: &Vec<Rc<ShapeTracker>>, kernels: &mut Kernels) -> (res: Option<Op>)
    requires
        old(kernels).wf(),
        shapes.len() >= arity(*op),
    ensures
        final(kernels).wf(),
        final(kernels)@ == with_kernel(old(kernels)@, *op, shapes@),
        match res {
            Some(metal) => lowered(*op, shapes@, final(kernels)@, metal) && metal != *op,
            None => lowered(*op, shapes@, final(kernels)@, *op),
        },
{
    match op {
        Op::Constant(c) => Some(Op::MetalConstant(MetalConstant(*c))),
        Op::Log2 => Some(Op::MetalLog2(MetalLog2::new(kernels))),
        Op::Exp2 => Some(Op::MetalExp2(MetalExp2::new(kernels))),
        Op::Sin => Some(Op::MetalSin(MetalSin::new(kernels))),
        Op::Sqrt => Some(Op::MetalSqrt(MetalSqrt::new(kernels))),
        Op::Recip => Some(Op::MetalRecip(MetalRecip::new(kernels))),
        Op::Add => Some(
            Op::MetalAdd(MetalAdd::new(share(&shapes[0]), share(&shapes[1]), kernels)),
        ),
        Op::Mul => Some(
            Op::MetalMul(MetalMul::new(share(&shapes[0]), share(&shapes[1]), kernels)),
        ),
        Op::LessThan => Some(
            Op::MetalLessThan(MetalLessThan::new(share(&shapes[0]), share(&shapes[1]), kernels)),
        ),
        Op::Mod => Some(
            Op::MetalMod(MetalMod::new(share(&shapes[0]), share(&shapes[1]), kernels)),
        ),
        Op::SumReduce(dim) => Some(
            Op::MetalSumReduce(MetalSumReduce::new(share(&shapes[0]), *dim, kernels)),
        ),
        Op::MaxReduce(dim) => Some(
            Op::MetalMaxReduce(MetalMaxReduce::new(share(&shapes[0]), *dim, kernels)),
        ),
        Op::Contiguous => Some(
            Op::MetalContiguous(MetalContiguous::new(share(&shapes[0]), kernels)),
        ),
        _ => None,
    }
}

/// Every node reads as many tensors as its operator has to.
pub open spec fn readable(s: GraphState) -> bool {
    forall|n: NodeId| #[trigger]
        s.nodes.contains_key(n) ==> inputs(s.links, n).len() >= arity(s.nodes[n])
}

/// The templates of the kernels that the nodes `ids` take, in turn.
pub open spec fn templates(s: GraphState, ids: Seq<NodeId>) -> Seq<Seq<char>>
    decreases ids.len(),
{
    if ids.len() == 0 {
        Seq::empty()
    } else {
        let rest = templates(s, ids.drop_last());
        match template_of(s.nodes[ids.last()], views(s.links, ids.last())) {
            Some(template) => rest.push(template),
            None => rest,
        }
    }
}

/// Each template is that of one of the nodes.
pub proof fn lemma_template_of_node(s: GraphState, ids: Seq<NodeId>, j: int) -> (k: int)
    requires
        0 <= j < templates(s, ids).len(),
    ensures
        0 <= k < ids.len(),
        template_of(s.nodes[ids[k]], views(s.links, ids[k])) == Some(templates(s, ids)[j]),
    decreases ids.len(),
{
    let rest = templates(s, ids.drop_last());
    if j < rest.len() {
        lemma_template_of_node(s, ids.drop_last(), j)
    } else {
        ids.len() - 1
    }
}

/// Whether `post` is `pre` with Metal operators in the place of primitive ones, on the kernels
/// of the nodes in ascending order.
pub open spec fn swapped(pre: GraphState, post: GraphState, kernels: Seq<KernelText>) -> bool {
    &&& post == (GraphState { nodes: post.nodes, ..pre })
    &&& post.nodes.dom() == pre.nodes.dom()
    &&& forall|n: NodeId| #[trigger]
        pre.nodes.contains_key(n) ==> lowered(
            pre.nodes[n],
            views(pre.links, n),
            kernels,
            post.nodes[n],
        )
    &&& exists|ids: Seq<NodeId>|
        lists(ids, pre.nodes.dom()) && kernels == all_requested(
            Seq::empty(),
            #[trigger] templates(pre, ids),
        )
}

/// One more tensor is the last of its place.
pub proof fn lemma_at_place_push(tensors: Seq<Input>, x: Input, k: u8)
    ensures
        at_place(tensors.push(x), k) == if x.0 == k {
            at_place(tensors, k).push(x)
        } else {
            at_place(tensors, k)
        },
{
    lemma_filter_push(tensors, x, has_place(k));
}

/// One more tensor is one more among those of its place and after.
pub proof fn lemma_in_order_below_push(tensors: Seq<Input>, x: Input, k: nat)
    requires
        k <= 256,
    ensures
        in_order_below(tensors.push(x), k).len() == in_order_below(tensors, k).len() + if x.0 < k {
            1nat
        } else {
            0nat
        },
    decreases k,
{
    if k > 0 {
        let j = (k - 1) as u8;
        lemma_in_order_below_push(tensors, x, (k - 1) as nat);
        lemma_at_place_push(tensors, x, j);
    }
}

/// Ordering keeps the number of tensors.
pub proof fn lemma_in_order_len(tensors: Seq<Input>)
    ensures
        in_order(tensors).len() == tensors.len(),
    decreases tensors.len(),
{
    if tensors.len() == 0 {
        lemma_in_order_empty(tensors, 256);
    } else {
        lemma_in_order_len(tensors.drop_last());
        lemma_in_order_below_push(tensors.drop_last(), tensors.last(), 256);
        assert(tensors.drop_last().push(tensors.last()) =~= tensors);
    }
}

proof fn lemma_in_order_empty(tensors: Seq<Input>, k: nat)
    requires
        tensors.len() == 0,
    ensures
        in_order_below(tensors, k).len() == 0,
    decreases k,
{
    if k > 0 {
        lemma_in_order_empty(tensors, (k - 1) as nat);
        reveal(Seq::filter);
    }
}

/// An operator that runs its kernel still does when further kernels are asked for.
pub proof fn lemma_lowered_keeps(
    op: Op,
    shapes: Seq<Rc<ShapeTracker>>,
    kernels: Seq<KernelText>,
    metal: Op,
    next: Op,
    views: Seq<Rc<ShapeTracker>>,
)
    requires
        lowered(op, shapes, kernels, metal),
    ensures
        lowered(op, shapes, with_kernel(kernels, next, views), metal),
{
}

/// The views under which a node reads its tensors, by place among its inputs.
pub fn source_shapes(graph: &Graph, n: NodeId) -> (res: Vec<Rc<ShapeTracker>>)
    requires
        graph.wf(),
    ensures
        res@ == views(graph@.links, n),
{
    let tensors = sorted_by_place(graph.inputs(n));
    let mut res: Vec<Rc<ShapeTracker>> = Vec::new();
    let mut i: usize = 0;
    while i < tensors.len()
        invariant
            i <= tensors.len(),
            res@ == tensors@.take(i as int).map_values(|t: Input| t.2),
        decreases tensors.len() - i,
    {
        res.push(share(&tensors[i].2));
        proof {
            assert(res@ =~= tensors@.take(i + 1).map_values(|t: Input| t.2));
        }
        i = i + 1;
    }
    proof {
        assert(tensors@.take(tensors@.len() as int) =~= tensors@);
    }
    res
}

/// Puts Metal operators in the place of primitive ones and hands back the kernels that they run.
pub fn swap_primitives(graph: &mut Graph) -> (kernels: Kernels)
    requires
        old(graph).wf(),
        readable(old(graph)@),
    ensures
        final(graph).wf(),
        kernels.wf(),
        swapped(old(graph)@, final(graph)@, kernels@),
{
    let ids = graph.node_indices();
    let mut kernels = Kernels::new();
    let ghost s0 = graph@;
    let mut i: usize = 0;
    proof {
        assert(ids@.take(0) =~= Seq::<NodeId>::empty());
        assert(graph@.nodes.dom() =~= s0.nodes.dom());
    }
    while i < ids.len()
        invariant
            i <= ids.len(),
            graph.wf(),
            kernels.wf(),
            readable(s0),
            lists(ids@, s0.nodes.dom()),
            graph@ == (GraphState { nodes: graph@.nodes, ..s0 }),
            graph@.nodes.dom() == s0.nodes.dom(),
            kernels@ == all_requested(Seq::empty(), templates(s0, ids@.take(i as int))),
            forall|k: int|
                0 <= k < i ==> lowered(
                    s0.nodes[#[trigger] ids@[k]],
                    views(s0.links, ids@[k]),
                    kernels@,
                    graph@.nodes[ids@[k]],
                ),
            forall|k: int|
                i <= k < ids@.len() ==> graph@.nodes[#[trigger] ids@[k]] == s0.nodes[ids@[k]],
        decreases ids.len() - i,
    {
        let n = ids[i];
        let ghost before = graph@;
        let ghost known = kernels@;
        let shapes = source_shapes(graph, n);
        proof {
            assert(ids@[i as int] == n);
            assert(ids@.contains(n));
            lemma_in_order_len(inputs(s0.links, n));
            assert(ids@.take(i + 1).drop_last() =~= ids@.take(i as int));
            assert(ids@.take(i + 1).last() == n);
        }
        let metal = match graph.node_weight(n) {
            Some(op) => lower(op, &shapes, &mut kernels),
            None => None,
        };
        if let Some(metal) = metal {
            if let Some(op) = graph.node_weight_mut(n) {
                *op = metal;
            }
        }
        proof {
            let template = template_of(s0.nodes[n], views(s0.links, n));
            let rest = templates(s0, ids@.take(i as int));
            match template {
                Some(t) => {
                    assert(rest.push(t).drop_last() =~= rest);
                },
                None => {},
            }
            assert(graph@.nodes.dom() =~= s0.nodes.dom());
            assert forall|k: int| 0 <= k < i + 1 implies lowered(
                s0.nodes[#[trigger] ids@[k]],
                views(s0.links, ids@[k]),
                kernels@,
                graph@.nodes[ids@[k]],
            ) by {
                if k < i {
                    assert(graph@.nodes[ids@[k]] == before.nodes[ids@[k]]);
                    lemma_lowered_keeps(
                        s0.nodes[ids@[k]],
                        views(s0.links, ids@[k]),
                        known,
                        before.nodes[ids@[k]],
                        s0.nodes[n],
                        views(s0.links, n),
                    );
                }
            }
        }
        i = i + 1;
    }
    proof {
        assert(ids@.take(ids@.len() as int) =~= ids@);
        assert forall|n: NodeId| #[trigger] s0.nodes.contains_key(n) implies lowered(
            s0.nodes[n],
            views(s0.links, n),
            kernels@,
            graph@.nodes[n],
        ) by {
            assert(ids@.contains(n));
            let k = choose|k: int| 0 <= k < ids@.len() && ids@[k] == n;
            assert(ids@[k] == n);
        }
    }
    kernels
}

} // verus!
