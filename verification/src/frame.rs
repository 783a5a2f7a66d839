//! What inserting copies keeps of a graph.
use crate::copies::{
    lemma_copies_added_trans, lemma_incoming_tally, lemma_inputs_tally, only_copies_added,
    reads_tensor, within,
};
use crate::functions::{input_step, lemma_input_step, lemma_output_step, output_step};
use crate::graph::{directed, inputs, Dependency, Direction, GraphState, Link, NodeId};
use crate::ops::Op;
use crate::shape::ShapeTracker;
use crate::tally::tally;
use std::rc::Rc;
use vstd::prelude::*;

verus! {

/// Of a link that carries a tensor to a print, `p` only asks that it does.
pub open spec fn blind(p: spec_fn(NodeId, Dependency) -> bool, nodes: Map<NodeId, Op>) -> bool {
    forall|n: NodeId, w: Dependency, v: Dependency|
        #![trigger p(n, w), p(n, v)]
        nodes.contains_key(n) && nodes[n] is Print && w is Data && v is Data ==> p(n, w) == p(
            n,
            v,
        )
}

/// What inserting copies keeps: every node holds what it held, and what the links carry to it
/// counts the same, whatever is counted, but for the views and places of what a print reads.
pub open spec fn keeps(pre: GraphState, post: GraphState) -> bool {
    &&& post.closed()
    &&& only_copies_added(pre.nodes, post.nodes)
    &&& forall|p: spec_fn(NodeId, Dependency) -> bool|
        #![trigger within(p, pre.nodes)]
        within(p, pre.nodes) && blind(p, pre.nodes) ==> tally(post.links, p) == tally(
            pre.links,
            p,
        )
}

pub proof fn lemma_keeps_trans(a: GraphState, b: GraphState, c: GraphState)
    requires
        keeps(a, b),
        keeps(b, c),
    ensures
        keeps(a, c),
{
    assert forall|p: spec_fn(NodeId, Dependency) -> bool|
        #![trigger within(p, a.nodes)]
        within(p, a.nodes) && blind(p, a.nodes) implies tally(c.links, p) == tally(
        a.links,
        p,
    ) by {
        assert(within(p, b.nodes)) by {
            assert forall|t: NodeId, w: Dependency| #[trigger] p(t, w) implies b.nodes.contains_key(
                t,
            ) by {
                assert(a.nodes.contains_key(t));
            }
        }
        assert(blind(p, b.nodes)) by {
            assert forall|n: NodeId, w: Dependency, v: Dependency|
                #![trigger p(n, w), p(n, v)]
                b.nodes.contains_key(n) && b.nodes[n] is Print && w is Data
                    && v is Data implies p(n, w) == p(n, v) by {
                if !a.nodes.contains_key(n) {
                    assert(b.nodes.contains_key(n) && !a.nodes.contains_key(n));
                }
            }
        }
    }
    lemma_copies_added_trans(a.nodes, b.nodes, c.nodes);
}

pub proof fn lemma_keeps_refl(s: GraphState)
    requires
        s.closed(),
    ensures
        keeps(s, s),
{
}

/// A node reads as many tensors as before.
pub proof fn lemma_keeps_inputs(pre: GraphState, post: GraphState, n: NodeId)
    requires
        keeps(pre, post),
        pre.nodes.contains_key(n),
    ensures
        inputs(post.links, n).len() == inputs(pre.links, n).len(),
{
    let q = reads_tensor(n);
    assert(within(q, pre.nodes));
    assert(blind(q, pre.nodes));
    lemma_inputs_tally(pre.links, n);
    lemma_inputs_tally(post.links, n);
}

/// As many links lead to a node as before.
pub proof fn lemma_keeps_incoming(pre: GraphState, post: GraphState, n: NodeId)
    requires
        keeps(pre, post),
        pre.nodes.contains_key(n),
    ensures
        directed(post.links, n, Direction::Incoming).len() == directed(
            pre.links,
            n,
            Direction::Incoming,
        ).len(),
{
    let q = |t: NodeId, w: Dependency| t == n;
    assert(within(q, pre.nodes));
    assert(blind(q, pre.nodes));
    lemma_incoming_tally(pre.links, n, q);
    lemma_incoming_tally(post.links, n, q);
}

/// The ends of a link of a closed state are nodes.
pub proof fn lemma_closed_link(s: GraphState, l: Link)
    requires
        s.closed(),
        s.links.contains(l),
    ensures
        s.nodes.contains_key(l.source),
        s.nodes.contains_key(l.target),
{
    let i = choose|i: int| 0 <= i < s.links.len() && s.links[i] == l;
    assert(s.nodes.contains_key(s.links[i].source));
}

/// Copying the output of a function keeps the graph.
pub proof fn lemma_output_keeps(
    pre: GraphState,
    mid: GraphState,
    f: NodeId,
    scalar: Rc<ShapeTracker>,
)
    requires
        pre.closed(),
        pre.nodes.contains_key(f),
        output_step(pre, mid, f, scalar),
    ensures
        keeps(pre, mid),
{
    lemma_output_step(pre, mid, f, scalar);
}

/// Copying the inputs of a function keeps the graph.
pub proof fn lemma_input_keeps(
    mid: GraphState,
    post: GraphState,
    f: NodeId,
    scalar: Rc<ShapeTracker>,
)
    requires
        mid.closed(),
        mid.nodes.contains_key(f),
        input_step(mid, post, f, scalar),
    ensures
        keeps(mid, post),
{
    lemma_input_step(mid, post, f, scalar);
}

} // verus!
