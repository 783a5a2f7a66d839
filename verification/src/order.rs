//! Inserting copies leaves an acyclic graph acyclic.
use crate::copies::{copy_input, fresh, with_copies};
use crate::flow::{
    hop, lemma_copy_source, lemma_hop, lemma_input_hop, lemma_output_hop, lemma_outputs_hop,
    reads_first,
};
use crate::frame::{lemma_closed_link, lemma_input_keeps, lemma_output_keeps};
use crate::functions::{
    function_copied, functions_copied, input_step, inputs_copied, output_copied, output_step,
};
use crate::graph::{directed, Direction, GraphState, Link, NodeId};
use crate::host::{lemma_copied_link, lemma_rerouted_link};
use crate::meaning::{acyclic, ranked};
use crate::ops::{Op, Output};
use crate::outputs::{lemma_references_frame, names, output_reads, outputs_copied, Retrieved};
use crate::prints::{latest_read, lemma_latest_read, print_copied, print_step, prints_copied};
use crate::seqs::lemma_last_once;
use crate::shape::ShapeTracker;
use crate::steps::lemma_prints_copied;
use std::rc::Rc;
use vstd::prelude::*;

verus! {

/// Link `l` of `post` stands between nodes of `pre` as it did, leads from one to a new copy of
/// it, or from a new copy to a reader of what is copied.
pub open spec fn placed(pre: GraphState, post: GraphState, l: Link) -> bool {
    if pre.nodes.contains_key(l.source) && pre.nodes.contains_key(l.target) {
        pre.links.contains(l)
    } else if pre.nodes.contains_key(l.source) {
        hop(post, l.source, l.target)
    } else {
        pre.nodes.contains_key(l.target) && exists|m: Link| #[trigger]
            pre.links.contains(m) && m.target == l.target && hop(post, m.source, l.source)
                && pre.nodes.contains_key(m.source)
    }
}

/// Where every link stands so, an acyclic graph stays acyclic.
proof fn lemma_acyclic_step(pre: GraphState, post: GraphState)
    requires
        acyclic(pre),
        forall|l: Link| #[trigger] post.links.contains(l) ==> placed(pre, post, l),
    ensures
        acyclic(post),
{
    let rank = choose|rank: spec_fn(NodeId) -> nat| ranked(pre, rank);
    let next = |n: NodeId|
        if pre.nodes.contains_key(n) {
            2 * rank(n)
        } else {
            2 * rank(choose|x: NodeId| hop(post, x, n)) + 1
        };
    assert forall|l: Link| #[trigger] post.links.contains(l) implies next(l.source) < next(
        l.target,
    ) by {
        assert(placed(pre, post, l));
        if pre.nodes.contains_key(l.source) && pre.nodes.contains_key(l.target) {
            assert(pre.links.contains(l));
        } else if pre.nodes.contains_key(l.source) {
            let x = choose|x: NodeId| hop(post, x, l.target);
            lemma_one_source(post, x, l.source, l.target);
        } else {
            let m = choose|m: Link| #[trigger]
                pre.links.contains(m) && m.target == l.target && hop(post, m.source, l.source)
                    && pre.nodes.contains_key(m.source);
            let x = choose|x: NodeId| hop(post, x, l.source);
            lemma_one_source(post, x, m.source, l.source);
        }
    }
    assert(ranked(post, next));
}

/// A copy has one source.
proof fn lemma_one_source(s: GraphState, x: NodeId, z: NodeId, y: NodeId)
    requires
        hop(s, x, y),
        hop(s, z, y),
    ensures
        x == z,
{
    let l = choose|l: Link| #[trigger] s.links.contains(l) && reads_first(l, z, y);
    assert(l == (Link { source: z, target: y, weight: l.weight }));
    lemma_copy_source(s, x, z, y, l.weight);
}

/// Copying the output of a function leaves the graph acyclic.
proof fn lemma_output_acyclic(
    pre: GraphState,
    mid: GraphState,
    f: NodeId,
    scalar: Rc<ShapeTracker>,
)
    requires
        pre.closed(),
        acyclic(pre),
        pre.nodes.contains_key(f),
        output_step(pre, mid, f, scalar),
    ensures
        acyclic(mid),
{
    if pre.nodes[f] == Op::Function(Output::Floats) {
        let c = choose|c: NodeId|
            !pre.nodes.contains_key(c) && mid == #[trigger] output_copied(pre, f, c, scalar);
        lemma_output_hop(pre, mid, f, c, scalar);
        assert forall|l: Link| #[trigger] mid.links.contains(l) implies placed(pre, mid, l) by {
            lemma_rerouted_link(pre.links, f, c, scalar, l);
            if pre.links.contains(l) && l.source != f {
                lemma_closed_link(pre, l);
            } else if l.source == c {
                let m = Link { source: f, target: l.target, weight: l.weight };
                if pre.links.contains(m) {
                    lemma_closed_link(pre, m);
                }
            }
        }
        lemma_acyclic_step(pre, mid);
    }
}

/// Copying the inputs of a function leaves the graph acyclic.
proof fn lemma_input_acyclic(
    mid: GraphState,
    post: GraphState,
    f: NodeId,
    scalar: Rc<ShapeTracker>,
)
    requires
        mid.closed(),
        acyclic(mid),
        mid.nodes.contains_key(f),
        input_step(mid, post, f, scalar),
    ensures
        acyclic(post),
{
    let ds = choose|ds: Seq<NodeId>|
        ds.len() == directed(mid.links, f, Direction::Incoming).len() && fresh(mid.nodes, ds)
            && post == #[trigger] inputs_copied(mid, f, ds, scalar);
    assert forall|l: Link| #[trigger] post.links.contains(l) implies placed(mid, post, l) by {
        let m = lemma_copied_link(mid, f, ds, scalar, l);
        if mid.links.contains(l) && l.target != f {
            lemma_closed_link(mid, l);
        } else {
            lemma_closed_link(mid, m);
            let y = if l.target == f && ds.contains(l.source) { l.source } else { l.target };
            let k = choose|k: int| 0 <= k < ds.len() && ds[k] == y;
            assert(!mid.nodes.contains_key(ds[k]));
            lemma_input_hop(mid, f, ds, scalar, k);
            let x = directed(mid.links, f, Direction::Incoming)[k].source;
            if y == l.source && l.target == f {
                lemma_copy_source(post, x, m.source, y, copy_input(scalar));
            } else {
                assert(l == (Link { source: l.source, target: y, weight: l.weight }));
                lemma_copy_source(post, x, l.source, y, l.weight);
            }
        }
    }
    lemma_acyclic_step(mid, post);
}

/// Setting functions between copies leaves the graph acyclic.
pub proof fn lemma_functions_acyclic(
    pre: GraphState,
    post: GraphState,
    fs: Seq<NodeId>,
    scalar: Rc<ShapeTracker>,
)
    requires
        pre.closed(),
        acyclic(pre),
        forall|k: int| 0 <= k < fs.len() ==> pre.nodes.contains_key(#[trigger] fs[k]),
        functions_copied(pre, post, fs, scalar),
    ensures
        acyclic(post),
        post.closed(),
        forall|n: NodeId| #[trigger] pre.nodes.contains_key(n) ==> post.nodes.contains_key(n),
    decreases fs.len(),
{
    if fs.len() > 0 {
        let r = fs.drop_last();
        let f = fs.last();
        let mid = choose|mid: GraphState|
            functions_copied(pre, mid, r, scalar) && #[trigger] function_copied(
                mid,
                post,
                f,
                scalar,
            );
        assert forall|k: int| 0 <= k < r.len() implies pre.nodes.contains_key(#[trigger] r[k]) by {
            assert(r[k] == fs[k]);
        }
        lemma_functions_acyclic(pre, mid, r, scalar);
        assert(fs[fs.len() - 1] == f);
        assert(mid.nodes.contains_key(f));
        let copied = choose|copied: GraphState| #[trigger]
            output_step(mid, copied, f, scalar) && input_step(copied, post, f, scalar);
        lemma_output_keeps(mid, copied, f, scalar);
        lemma_output_acyclic(mid, copied, f, scalar);
        assert(copied.nodes.contains_key(f));
        lemma_input_keeps(copied, post, f, scalar);
        lemma_input_acyclic(copied, post, f, scalar);
        assert forall|n: NodeId| #[trigger] pre.nodes.contains_key(n) implies post.nodes.contains_key(
            n,
        ) by {
            assert(mid.nodes.contains_key(n));
            assert(copied.nodes.contains_key(n));
        }
    }
}

/// Copying what is retrieved leaves the graph acyclic.
pub proof fn lemma_outputs_acyclic(s: GraphState, outs: Seq<Retrieved>, ds: Seq<NodeId>)
    requires
        s.closed(),
        acyclic(s),
        ds.len() == outs.len(),
        fresh(s.nodes, ds),
        forall|i: int| 0 <= i < outs.len() ==> s.nodes.contains_key((#[trigger] outs[i]).0),
    ensures
        acyclic(outputs_copied(s, outs, ds)),
{
    let post = outputs_copied(s, outs, ds);
    let new = output_reads(outs, ds);
    let mid = GraphState { nodes: with_copies(s.nodes, ds), links: s.links + new, ..s };
    lemma_references_frame(mid, mid, names(outs), ds);
    assert forall|l: Link| #[trigger] post.links.contains(l) implies placed(s, post, l) by {
        let i = choose|i: int| 0 <= i < post.links.len() && post.links[i] == l;
        if i < s.links.len() {
            assert(s.links[i] == l);
            assert(s.links.contains(l));
            lemma_closed_link(s, l);
        } else {
            let k = i - s.links.len();
            assert(new[k] == l);
            assert(!s.nodes.contains_key(ds[k]));
            assert(s.nodes.contains_key(outs[k].0));
            lemma_outputs_hop(s, outs, ds, k);
        }
    }
    lemma_acyclic_step(s, post);
}

/// Copying for prints leaves the graph acyclic.
pub proof fn lemma_prints_acyclic(pre: GraphState, post: GraphState, ps: Seq<NodeId>)
    requires
        pre.closed(),
        acyclic(pre),
        ps.no_duplicates(),
        forall|k: int|
            0 <= k < ps.len() ==> pre.nodes.contains_key(#[trigger] ps[k])
                && pre.nodes[ps[k]] is Print && latest_read(pre.links, ps[k]) >= 0,
        prints_copied(pre, post, ps),
    ensures
        acyclic(post),
    decreases ps.len(),
{
    if ps.len() > 0 {
        let r = ps.drop_last();
        let p = ps.last();
        let mid = choose|mid: GraphState|
            prints_copied(pre, mid, r) && #[trigger] print_step(mid, post, p);
        assert forall|k: int| 0 <= k < r.len() implies pre.nodes.contains_key(#[trigger] r[k])
            && pre.nodes[r[k]] is Print && latest_read(pre.links, r[k]) >= 0 by {
            assert(r[k] == ps[k]);
        }
        lemma_prints_copied(pre, mid, r);
        lemma_prints_acyclic(pre, mid, r);
        assert(ps[ps.len() - 1] == p);
        lemma_last_once(ps);
        assert(latest_read(mid.links, p) >= 0);
        lemma_print_acyclic(mid, post, p);
    }
}

/// Copying for a print leaves the graph acyclic.
proof fn lemma_print_acyclic(pre: GraphState, post: GraphState, p: NodeId)
    requires
        pre.closed(),
        acyclic(pre),
        pre.nodes.contains_key(p),
        pre.nodes[p] is Print,
        latest_read(pre.links, p) >= 0,
        print_step(pre, post, p),
    ensures
        acyclic(post),
{
    let d = choose|d: NodeId|
        !pre.nodes.contains_key(d) && post == #[trigger] print_copied(pre, p, d);
    let i = latest_read(pre.links, p);
    lemma_latest_read(pre.links, p);
    let read = pre.links[i];
    let n = pre.links.len();
    assert(pre.links.contains(read));
    lemma_closed_link(pre, read);
    assert forall|j: int| 0 <= j < n - 1 implies #[trigger] post.links[j] == pre.links[if j < i {
        j
    } else {
        j + 1
    }] by {}
    assert forall|j: int| 0 <= j < post.links.len() && j != n - 1 implies (
    #[trigger] post.links[j]).target != d by {}
    lemma_hop(post, n - 1, d);
    assert forall|l: Link| #[trigger] post.links.contains(l) implies placed(pre, post, l) by {
        let k = choose|k: int| 0 <= k < post.links.len() && post.links[k] == l;
        if k < n - 1 {
            assert(pre.links.contains(pre.links[if k < i { k } else { k + 1 }]));
            lemma_closed_link(pre, l);
        }
    }
    lemma_acyclic_step(pre, post);
}

} // verus!
