//! How what nodes read reaches them through copies.
use crate::copies::{
    copy_input, fresh, lemma_copies_added_trans, lemma_incoming_tally, only_copies_added,
    with_copies,
};
use crate::frame::{
    keeps, lemma_closed_link, lemma_input_keeps, lemma_keeps_incoming, lemma_keeps_trans,
    lemma_output_keeps,
};
use crate::functions::{
    copied_reads, function_copied, functions_copied, input_step, inputs_copied, output_copied,
    output_step, rerouted,
};
use crate::graph::{directed, meets, undirected, Dependency, Direction, GraphState, Link, NodeId};
use crate::host::{lemma_copied_link, lemma_rerouted_link};
use crate::ops::{Op, Output};
use crate::outputs::{lemma_references_frame, names, output_reads, outputs_copied, Retrieved};
use crate::prints::{latest_read, lemma_latest_read, print_copied, print_step, prints_copied};
use crate::seqs::{lemma_filter_contains, lemma_last_once};
use crate::shape::ShapeTracker;
use crate::steps::{lemma_print_copied, lemma_prints_copied};
use crate::tally::{lemma_tally_none, lemma_tally_remove};
use std::rc::Rc;
use vstd::prelude::*;

verus! {

/// An operator that copies between host and device.
pub open spec fn is_copy(op: Op) -> bool {
    op is MetalCopyToDevice || op is MetalCopyFromDevice
}

/// A link by which `y` reads the first tensor that `x` hands out.
pub open spec fn reads_first(l: Link, x: NodeId, y: NodeId) -> bool {
    l.source == x && l.target == y && l.weight is Data && l.weight->output_order == 0
}

/// Node `y` copies the first tensor that `x` hands out, and reads nothing else.
pub open spec fn hop(s: GraphState, x: NodeId, y: NodeId) -> bool {
    &&& s.nodes.contains_key(y)
    &&& is_copy(s.nodes[y])
    &&& directed(s.links, y, Direction::Incoming).len() == 1
    &&& exists|l: Link| #[trigger] s.links.contains(l) && reads_first(l, x, y)
}

/// A copy that link `i` leads to and no other copies what the link carries.
pub proof fn lemma_hop(s: GraphState, i: int, y: NodeId)
    requires
        0 <= i < s.links.len(),
        reads_first(s.links[i], s.links[i].source, y),
        forall|j: int| 0 <= j < s.links.len() && j != i ==> (#[trigger] s.links[j]).target != y,
        s.nodes.contains_key(y),
        is_copy(s.nodes[y]),
    ensures
        hop(s, s.links[i].source, y),
{
    let q = |t: NodeId, w: Dependency| t == y;
    let rest = s.links.remove(i);
    lemma_tally_remove(s.links, i, q);
    assert forall|j: int| 0 <= j < rest.len() implies !q((#[trigger] rest[j]).target, rest[j].weight)
        by {
        assert(rest[j] == s.links[if j < i { j } else { j + 1 }]);
    }
    lemma_tally_none(rest, q);
    lemma_incoming_tally(s.links, y, q);
    assert(s.links.contains(s.links[i]));
}

/// A copy has one source.
pub proof fn lemma_copy_source(s: GraphState, x: NodeId, z: NodeId, y: NodeId, w: Dependency)
    requires
        hop(s, x, y),
        s.links.contains(Link { source: z, target: y, weight: w }),
    ensures
        x == z,
{
    let q = |l: Link| meets(l, y, Direction::Incoming);
    let a = choose|l: Link| #[trigger] s.links.contains(l) && reads_first(l, x, y);
    let b = Link { source: z, target: y, weight: w };
    let r = s.links.filter(q);
    lemma_filter_contains(s.links, q, a);
    lemma_filter_contains(s.links, q, b);
    assert(r.len() == 1);
    assert(r.contains(a) && r.contains(b));
}

/// A copy that reads one node still reads nothing else once further copies are there.
pub proof fn lemma_hop_kept(
    pre: GraphState,
    post: GraphState,
    x: NodeId,
    y: NodeId,
    m: Link,
)
    requires
        keeps(pre, post),
        hop(pre, x, y),
        post.links.contains(m),
        reads_first(m, m.source, y),
    ensures
        hop(post, m.source, y),
{
    lemma_keeps_incoming(pre, post, y);
}

/// Node `y` hands out what `x` does after `k` copies.
pub open spec fn flows_in(s: GraphState, x: NodeId, y: NodeId, k: nat) -> bool
    decreases k,
{
    if k == 0 {
        x == y
    } else {
        exists|z: NodeId| flows_in(s, x, z, (k - 1) as nat) && #[trigger] hop(s, z, y)
    }
}

/// Node `y` hands out what `x` does, copied some number of times.
pub open spec fn flows(s: GraphState, x: NodeId, y: NodeId) -> bool {
    exists|k: nat| #[trigger] flows_in(s, x, y, k)
}

/// Whether a link that carries `v` to a node does for one that carried `w`: it is the same, but
/// that a print reads a tensor as its first input.
pub open spec fn carries(reader: Op, w: Dependency, v: Dependency) -> bool {
    if reader is Print && w is Data {
        v is Data && v->shape == w->shape && (v == w || v->input_order == 0 && v->output_order == 0)
    } else {
        v == w
    }
}

/// Link `m` of `post` does for link `l` of `pre`: it leads to the same node, carries the same,
/// and comes from a node that hands out what the source of `l` does.
pub open spec fn delivers(pre: GraphState, post: GraphState, l: Link, m: Link) -> bool {
    &&& pre.links.contains(l)
    &&& post.links.contains(m)
    &&& m.target == l.target
    &&& carries(pre.nodes[l.target], l.weight, m.weight)
    &&& flows(post, l.source, m.source)
}

/// Some link of `post` does for link `l` of `pre`.
#[verifier::opaque]
pub open spec fn delivered(pre: GraphState, post: GraphState, l: Link) -> bool {
    exists|m: Link| delivers(pre, post, l, m)
}

/// Link `m` of `post` does for some link of `pre`.
#[verifier::opaque]
pub open spec fn sourced(pre: GraphState, post: GraphState, m: Link) -> bool {
    exists|l: Link| delivers(pre, post, l, m)
}

/// A link that no copy is set upon: from no function that hands floats back, into neither a
/// function nor a print.
pub open spec fn stays_bare(nodes: Map<NodeId, Op>, l: Link) -> bool {
    &&& nodes[l.source] != Op::Function(Output::Floats)
    &&& !(nodes[l.target] is Function)
    &&& !(nodes[l.target] is Print)
}

/// What inserting copies keeps of what nodes read: each node there was reads what it read,
/// through copies alone, and nothing else; links that no copy is set upon stay, and every new
/// link has a new end.
pub open spec fn refines(pre: GraphState, post: GraphState) -> bool {
    &&& only_copies_added(pre.nodes, post.nodes)
    &&& forall|l: Link| #[trigger]
        pre.links.contains(l) && stays_bare(pre.nodes, l) ==> post.links.contains(l)
    &&& forall|l: Link| #[trigger]
        post.links.contains(l) && pre.nodes.contains_key(l.source) && pre.nodes.contains_key(
            l.target,
        ) ==> pre.links.contains(l)
    &&& forall|l: Link| #[trigger] pre.links.contains(l) ==> delivered(pre, post, l)
    &&& forall|m: Link| #[trigger]
        post.links.contains(m) && pre.nodes.contains_key(m.target) ==> sourced(pre, post, m)
}

proof fn lemma_flows_refl(s: GraphState, x: NodeId)
    ensures
        flows(s, x, x),
{
    assert(flows_in(s, x, x, 0));
}

proof fn lemma_flows_hop(s: GraphState, x: NodeId, y: NodeId, z: NodeId)
    requires
        flows(s, x, y),
        hop(s, y, z),
    ensures
        flows(s, x, z),
{
    let k = choose|k: nat| #[trigger] flows_in(s, x, y, k);
    assert(flows_in(s, x, z, k + 1));
}

proof fn lemma_flows_trans(s: GraphState, x: NodeId, y: NodeId, z: NodeId, k: nat)
    requires
        flows(s, x, y),
        flows_in(s, y, z, k),
    ensures
        flows(s, x, z),
    decreases k,
{
    if k > 0 {
        let w = choose|w: NodeId| flows_in(s, y, w, (k - 1) as nat) && #[trigger] hop(s, w, z);
        lemma_flows_trans(s, x, y, w, (k - 1) as nat);
        lemma_flows_hop(s, x, w, z);
    }
}

/// What reached a node through copies still does.
proof fn lemma_flows_kept(pre: GraphState, post: GraphState, x: NodeId, y: NodeId, k: nat)
    requires
        keeps(pre, post),
        refines(pre, post),
        flows_in(pre, x, y, k),
    ensures
        flows(post, x, y),
    decreases k,
{
    if k == 0 {
        lemma_flows_refl(post, x);
    } else {
        let z = choose|z: NodeId| flows_in(pre, x, z, (k - 1) as nat) && #[trigger] hop(pre, z, y);
        lemma_flows_kept(pre, post, x, z, (k - 1) as nat);
        let l = choose|l: Link| #[trigger] pre.links.contains(l) && reads_first(l, z, y);
        assert(delivered(pre, post, l));
        reveal(delivered);
        let m = choose|m: Link| delivers(pre, post, l, m);
        let j = choose|j: nat| #[trigger] flows_in(post, z, m.source, j);
        lemma_flows_trans(post, x, z, m.source, j);
        assert(pre.nodes.contains_key(y));
        lemma_hop_kept(pre, post, z, y, m);
        lemma_flows_hop(post, x, m.source, y);
    }
}

/// What a link does for another it does for all that the other does for.
proof fn lemma_delivers_trans(
    a: GraphState,
    b: GraphState,
    c: GraphState,
    l: Link,
    m: Link,
    r: Link,
)
    requires
        a.closed(),
        only_copies_added(a.nodes, b.nodes),
        keeps(b, c),
        refines(b, c),
        delivers(a, b, l, m),
        delivers(b, c, m, r),
    ensures
        delivers(a, c, l, r),
{
    let k = choose|k: nat| #[trigger] flows_in(b, l.source, m.source, k);
    lemma_flows_kept(b, c, l.source, m.source, k);
    let j = choose|j: nat| #[trigger] flows_in(c, m.source, r.source, j);
    lemma_flows_trans(c, l.source, m.source, r.source, j);
    lemma_closed_link(a, l);
    assert(a.nodes.contains_key(l.target));
}

pub proof fn lemma_refines_trans(a: GraphState, b: GraphState, c: GraphState)
    requires
        a.closed(),
        refines(a, b),
        keeps(b, c),
        refines(b, c),
    ensures
        refines(a, c),
{
    lemma_copies_added_trans(a.nodes, b.nodes, c.nodes);
    assert forall|l: Link| #[trigger]
        a.links.contains(l) && stays_bare(a.nodes, l) implies c.links.contains(l) by {
        lemma_closed_link(a, l);
        assert(b.links.contains(l));
    }
    assert forall|l: Link| #[trigger]
        c.links.contains(l) && a.nodes.contains_key(l.source) && a.nodes.contains_key(
            l.target,
        ) implies a.links.contains(l) by {
        assert(b.nodes.contains_key(l.source) && b.nodes.contains_key(l.target));
        assert(b.links.contains(l));
    }
    assert forall|l: Link| #[trigger] a.links.contains(l) implies delivered(a, c, l) by {
        reveal(delivered);
        let m = choose|m: Link| delivers(a, b, l, m);
        assert(b.links.contains(m));
        let r = choose|r: Link| delivers(b, c, m, r);
        lemma_delivers_trans(a, b, c, l, m, r);
    }
    assert forall|r: Link| #[trigger]
        c.links.contains(r) && a.nodes.contains_key(r.target) implies sourced(a, c, r) by {
        reveal(sourced);
        assert(b.nodes.contains_key(r.target));
        let m = choose|m: Link| delivers(b, c, m, r);
        assert(b.links.contains(m));
        let l = choose|l: Link| delivers(a, b, l, m);
        lemma_delivers_trans(a, b, c, l, m, r);
    }
}

pub proof fn lemma_refines_refl(s: GraphState)
    ensures
        refines(s, s),
{
    reveal(delivered);
    reveal(sourced);
    assert forall|l: Link| #[trigger] s.links.contains(l) implies delivers(s, s, l, l) by {
        lemma_flows_refl(s, l.source);
    }
}

/// Where no link is lost and all new ones lead to copies, nodes read what they read.
proof fn lemma_refines_added(pre: GraphState, post: GraphState)
    requires
        only_copies_added(pre.nodes, post.nodes),
        forall|l: Link| #[trigger] pre.links.contains(l) ==> post.links.contains(l),
        forall|l: Link| #[trigger]
            post.links.contains(l) && pre.nodes.contains_key(l.target) ==> pre.links.contains(l),
    ensures
        refines(pre, post),
{
    assert forall|l: Link| #[trigger] pre.links.contains(l) implies delivered(pre, post, l) by {
        reveal(delivered);
        lemma_flows_refl(post, l.source);
        assert(delivers(pre, post, l, l));
    }
    assert forall|m: Link| #[trigger]
        post.links.contains(m) && pre.nodes.contains_key(m.target) implies sourced(
        pre,
        post,
        m,
    ) by {
        reveal(sourced);
        lemma_flows_refl(post, m.source);
        assert(pre.links.contains(m));
        assert(delivers(pre, post, m, m));
    }
}

/// The copy of the output of a function copies it.
pub proof fn lemma_output_hop(
    pre: GraphState,
    mid: GraphState,
    f: NodeId,
    c: NodeId,
    scalar: Rc<ShapeTracker>,
)
    requires
        pre.closed(),
        !pre.nodes.contains_key(c),
        mid == output_copied(pre, f, c, scalar),
    ensures
        hop(mid, f, c),
        mid.links.contains(Link { source: f, target: c, weight: copy_input(scalar) }),
{
    let out = directed(pre.links, f, Direction::Outgoing);
    let kept = undirected(pre.links, f, Direction::Outgoing);
    let q = |l: Link| meets(l, f, Direction::Outgoing);
    let s = pre.links.filter(q);
    assert(mid.links == rerouted(pre.links, f, c, scalar));
    assert forall|j: int| 0 <= j < mid.links.len() && j != kept.len() implies (
    #[trigger] mid.links[j]).target != c by {
        if j < kept.len() {
            assert(kept.contains(kept[j]));
            lemma_filter_contains(
                pre.links,
                |l: Link| !meets(l, f, Direction::Outgoing),
                kept[j],
            );
            lemma_closed_link(pre, kept[j]);
        } else {
            let x = out[j - kept.len() - 1];
            assert(s[s.len() - 1 - (j - kept.len() - 1)] == x);
            assert(s.contains(x));
            lemma_filter_contains(pre.links, q, x);
            lemma_closed_link(pre, x);
        }
    }
    assert(mid.links[kept.len() as int] == (Link {
        source: f,
        target: c,
        weight: copy_input(scalar),
    }));
    lemma_hop(mid, kept.len() as int, c);
}

/// Each copy of an input of a function copies it.
pub proof fn lemma_input_hop(
    mid: GraphState,
    f: NodeId,
    ds: Seq<NodeId>,
    scalar: Rc<ShapeTracker>,
    k: int,
)
    requires
        mid.closed(),
        mid.nodes.contains_key(f),
        ds.len() == directed(mid.links, f, Direction::Incoming).len(),
        fresh(mid.nodes, ds),
        0 <= k < ds.len(),
    ensures
        hop(
            inputs_copied(mid, f, ds, scalar),
            directed(mid.links, f, Direction::Incoming)[k].source,
            ds[k],
        ),
{
    let post = inputs_copied(mid, f, ds, scalar);
    let reads = directed(mid.links, f, Direction::Incoming);
    let kept = undirected(mid.links, f, Direction::Incoming);
    let new = copied_reads(reads, ds, f, scalar);
    let i = kept.len() + 2 * k;
    assert((2 * k) / 2 == k);
    assert(new[2 * k] == post.links[i]);
    assert(!mid.nodes.contains_key(ds[k]));
    assert(ds.contains(ds[k]));
    assert forall|j: int| 0 <= j < post.links.len() && j != i implies (
    #[trigger] post.links[j]).target != ds[k] by {
        if j < kept.len() {
            assert(kept.contains(kept[j]));
            lemma_filter_contains(
                mid.links,
                |l: Link| !meets(l, f, Direction::Incoming),
                kept[j],
            );
            lemma_closed_link(mid, kept[j]);
        } else {
            let h = j - kept.len();
            assert(post.links[j] == new[h]);
            if h % 2 == 0 {
                assert(h / 2 != k);
                assert(ds[h / 2] != ds[k]);
            }
        }
    }
    lemma_hop(post, i, ds[k]);
}

/// Each copy of what is retrieved copies it.
pub proof fn lemma_outputs_hop(s: GraphState, outs: Seq<Retrieved>, ds: Seq<NodeId>, k: int)
    requires
        s.closed(),
        ds.len() == outs.len(),
        fresh(s.nodes, ds),
        0 <= k < ds.len(),
    ensures
        hop(outputs_copied(s, outs, ds), outs[k].0, ds[k]),
        outputs_copied(s, outs, ds).links.contains(
            Link { source: outs[k].0, target: ds[k], weight: copy_input(outs[k].1) },
        ),
        outputs_copied(s, outs, ds).nodes[ds[k]] is MetalCopyFromDevice,
{
    let post = outputs_copied(s, outs, ds);
    let new = output_reads(outs, ds);
    let mid = GraphState { nodes: with_copies(s.nodes, ds), links: s.links + new, ..s };
    lemma_references_frame(mid, mid, names(outs), ds);
    let i = s.links.len() + k;
    assert(post.links[i] == new[k]);
    assert(ds.contains(ds[k]));
    assert(!s.nodes.contains_key(ds[k]));
    assert forall|j: int| 0 <= j < post.links.len() && j != i implies (
    #[trigger] post.links[j]).target != ds[k] by {
        if j < s.links.len() {
            assert(post.links[j] == s.links[j]);
            assert(s.nodes.contains_key(s.links[j].target));
        } else {
            assert(post.links[j] == new[j - s.links.len()]);
            assert(ds[j - s.links.len()] != ds[k]);
        }
    }
    lemma_hop(post, i, ds[k]);
}

/// Copying the output of a function leaves what nodes read.
pub proof fn lemma_output_refines(
    pre: GraphState,
    mid: GraphState,
    f: NodeId,
    scalar: Rc<ShapeTracker>,
)
    requires
        pre.closed(),
        pre.nodes.contains_key(f),
        output_step(pre, mid, f, scalar),
    ensures
        refines(pre, mid),
{
    lemma_output_keeps(pre, mid, f, scalar);
    if pre.nodes[f] == Op::Function(Output::Floats) {
        let c = choose|c: NodeId|
            !pre.nodes.contains_key(c) && mid == #[trigger] output_copied(pre, f, c, scalar);
        let out = directed(pre.links, f, Direction::Outgoing);
        let kept = undirected(pre.links, f, Direction::Outgoing);
        assert(mid.links == rerouted(pre.links, f, c, scalar));
        lemma_output_hop(pre, mid, f, c, scalar);
        assert forall|l: Link| pre.links.contains(l) && l.source != f implies
        #[trigger] mid.links.contains(l) by {
            lemma_filter_contains(pre.links, |l: Link| !meets(l, f, Direction::Outgoing), l);
            let k = choose|k: int| 0 <= k < kept.len() && kept[k] == l;
            assert(mid.links[k] == l);
        }
        assert forall|l: Link| #[trigger]
            mid.links.contains(l) && pre.nodes.contains_key(l.source) && pre.nodes.contains_key(
                l.target,
            ) implies pre.links.contains(l) by {
            lemma_rerouted_link(pre.links, f, c, scalar, l);
        }
        lemma_flows_refl(mid, f);
        lemma_flows_hop(mid, f, f, c);
        assert forall|l: Link| #[trigger] pre.links.contains(l) implies delivered(pre, mid, l) by {
            reveal(delivered);
            if l.source == f {
                let q = |l: Link| meets(l, f, Direction::Outgoing);
                let s = pre.links.filter(q);
                lemma_filter_contains(pre.links, q, l);
                let k = choose|k: int| 0 <= k < s.len() && s[k] == l;
                assert(out[s.len() - 1 - k] == l);
                let m = Link { source: c, target: l.target, weight: l.weight };
                assert(mid.links[kept.len() + 1 + (s.len() - 1 - k)] == m);
                assert(mid.links.contains(m));
                assert(delivers(pre, mid, l, m));
            } else {
                assert(mid.links.contains(l));
                lemma_flows_refl(mid, l.source);
                assert(delivers(pre, mid, l, l));
            }
        }
        assert forall|m: Link| #[trigger]
            mid.links.contains(m) && pre.nodes.contains_key(m.target) implies sourced(pre, mid, m) by {
            reveal(sourced);
            lemma_rerouted_link(pre.links, f, c, scalar, m);
            if pre.links.contains(m) && m.source != f {
                lemma_flows_refl(mid, m.source);
                assert(delivers(pre, mid, m, m));
            } else {
                let l = Link { source: f, target: m.target, weight: m.weight };
                assert(pre.links.contains(l));
                assert(delivers(pre, mid, l, m));
            }
        }
    } else {
        lemma_refines_refl(pre);
    }
}

/// Copying the inputs of a function leaves what nodes read.
pub proof fn lemma_input_refines(
    mid: GraphState,
    post: GraphState,
    f: NodeId,
    scalar: Rc<ShapeTracker>,
)
    requires
        mid.closed(),
        mid.nodes.contains_key(f),
        mid.nodes[f] is Function,
        input_step(mid, post, f, scalar),
    ensures
        refines(mid, post),
{
    lemma_input_keeps(mid, post, f, scalar);
    let ds = choose|ds: Seq<NodeId>|
        ds.len() == directed(mid.links, f, Direction::Incoming).len() && fresh(mid.nodes, ds)
            && post == #[trigger] inputs_copied(mid, f, ds, scalar);
    let reads = directed(mid.links, f, Direction::Incoming);
    let kept = undirected(mid.links, f, Direction::Incoming);
    let new = copied_reads(reads, ds, f, scalar);
    assert forall|n: NodeId| ds.contains(n) implies !#[trigger] mid.nodes.contains_key(n)
        && post.nodes.contains_key(n) && is_copy(post.nodes[n]) by {
        let k = choose|k: int| 0 <= k < ds.len() && ds[k] == n;
        assert(!mid.nodes.contains_key(ds[k]));
    }
    assert forall|l: Link| mid.links.contains(l) && l.target != f implies
    #[trigger] post.links.contains(l) by {
        lemma_filter_contains(mid.links, |l: Link| !meets(l, f, Direction::Incoming), l);
        let k = choose|k: int| 0 <= k < kept.len() && kept[k] == l;
        assert(post.links[k] == l);
    }
    assert forall|l: Link| #[trigger]
        post.links.contains(l) && mid.nodes.contains_key(l.source) && mid.nodes.contains_key(
            l.target,
        ) implies mid.links.contains(l) by {
        lemma_copied_link(mid, f, ds, scalar, l);
    }
    assert forall|l: Link| #[trigger] mid.links.contains(l) implies delivered(mid, post, l) by {
        reveal(delivered);
        if l.target == f {
            let q = |l: Link| meets(l, f, Direction::Incoming);
            let s = mid.links.filter(q);
            lemma_filter_contains(mid.links, q, l);
            let j = choose|j: int| 0 <= j < s.len() && s[j] == l;
            let k = s.len() - 1 - j;
            assert(reads[k] == l);
            let m = Link { source: ds[k], target: f, weight: l.weight };
            assert((2 * k + 1) / 2 == k);
            assert(new[2 * k + 1] == m);
            assert(post.links[kept.len() + 2 * k + 1] == m);
            assert(post.links.contains(m));
            lemma_input_hop(mid, f, ds, scalar, k);
            lemma_flows_refl(post, l.source);
            lemma_flows_hop(post, l.source, l.source, ds[k]);
            assert(delivers(mid, post, l, m));
        } else {
            assert(post.links.contains(l));
            lemma_flows_refl(post, l.source);
            assert(delivers(mid, post, l, l));
        }
    }
    assert forall|m: Link| #[trigger]
        post.links.contains(m) && mid.nodes.contains_key(m.target) implies sourced(mid, post, m) by {
        reveal(sourced);
        let l = lemma_copied_link(mid, f, ds, scalar, m);
        if mid.links.contains(m) && m.target != f {
            lemma_flows_refl(post, m.source);
            assert(delivers(mid, post, m, m));
        } else {
            let k = choose|k: int| 0 <= k < ds.len() && ds[k] == m.source;
            lemma_input_hop(mid, f, ds, scalar, k);
            let x = reads[k].source;
            lemma_copy_source(post, x, l.source, m.source, copy_input(scalar));
            lemma_flows_refl(post, l.source);
            lemma_flows_hop(post, l.source, l.source, m.source);
            assert(delivers(mid, post, l, m));
        }
    }
}

/// Setting functions between copies leaves what nodes read.
pub proof fn lemma_functions_refine(
    pre: GraphState,
    post: GraphState,
    fs: Seq<NodeId>,
    scalar: Rc<ShapeTracker>,
)
    requires
        pre.closed(),
        forall|k: int|
            0 <= k < fs.len() ==> pre.nodes.contains_key(#[trigger] fs[k])
                && pre.nodes[fs[k]] is Function,
        functions_copied(pre, post, fs, scalar),
    ensures
        refines(pre, post),
        post.closed(),
    decreases fs.len(),
{
    if fs.len() == 0 {
        lemma_refines_refl(pre);
    } else {
        let r = fs.drop_last();
        let f = fs.last();
        let mid = choose|mid: GraphState|
            functions_copied(pre, mid, r, scalar) && #[trigger] function_copied(
                mid,
                post,
                f,
                scalar,
            );
        assert forall|k: int| 0 <= k < r.len() implies pre.nodes.contains_key(#[trigger] r[k])
            && pre.nodes[r[k]] is Function by {
            assert(r[k] == fs[k]);
        }
        lemma_functions_refine(pre, mid, r, scalar);
        assert(fs[fs.len() - 1] == f);
        let copied = choose|copied: GraphState| #[trigger]
            output_step(mid, copied, f, scalar) && input_step(copied, post, f, scalar);
        assert(mid.nodes.contains_key(f) && mid.nodes[f] == pre.nodes[f]);
        lemma_output_keeps(mid, copied, f, scalar);
        lemma_output_refines(mid, copied, f, scalar);
        assert(copied.nodes.contains_key(f) && copied.nodes[f] == pre.nodes[f]);
        lemma_input_keeps(copied, post, f, scalar);
        lemma_input_refines(copied, post, f, scalar);
        lemma_keeps_trans(mid, copied, post);
        lemma_refines_trans(mid, copied, post);
        lemma_refines_trans(pre, mid, post);
    }
}

/// Copying what is retrieved leaves what nodes read.
pub proof fn lemma_outputs_refine(s: GraphState, outs: Seq<Retrieved>, ds: Seq<NodeId>)
    requires
        ds.len() == outs.len(),
        fresh(s.nodes, ds),
    ensures
        refines(s, outputs_copied(s, outs, ds)),
{
    let post = outputs_copied(s, outs, ds);
    let new = output_reads(outs, ds);
    let mid = GraphState { nodes: with_copies(s.nodes, ds), links: s.links + new, ..s };
    lemma_references_frame(mid, mid, names(outs), ds);
    assert forall|n: NodeId| ds.contains(n) implies !#[trigger] s.nodes.contains_key(n) by {
        let k = choose|k: int| 0 <= k < ds.len() && ds[k] == n;
        assert(!s.nodes.contains_key(ds[k]));
    }
    assert forall|l: Link| #[trigger] s.links.contains(l) implies post.links.contains(l) by {
        let i = choose|i: int| 0 <= i < s.links.len() && s.links[i] == l;
        assert(post.links[i] == l);
    }
    assert forall|l: Link| #[trigger]
        post.links.contains(l) && s.nodes.contains_key(l.target) implies s.links.contains(l) by {
        let i = choose|i: int| 0 <= i < post.links.len() && post.links[i] == l;
        if i < s.links.len() {
            assert(s.links[i] == l);
        } else {
            let k = i - s.links.len();
            assert(new[k] == l);
            assert(!s.nodes.contains_key(ds[k]));
        }
    }
    lemma_refines_added(s, post);
}

/// Copying for a print leaves what nodes read.
pub proof fn lemma_print_refines(pre: GraphState, post: GraphState, p: NodeId)
    requires
        pre.closed(),
        pre.nodes.contains_key(p),
        pre.nodes[p] is Print,
        latest_read(pre.links, p) >= 0,
        print_step(pre, post, p),
    ensures
        refines(pre, post),
{
    lemma_print_copied(pre, post, p);
    let d = choose|d: NodeId|
        !pre.nodes.contains_key(d) && post == #[trigger] print_copied(pre, p, d);
    let i = latest_read(pre.links, p);
    lemma_latest_read(pre.links, p);
    let read = pre.links[i];
    assert(pre.links.contains(read));
    let weight = copy_input(read.weight->shape);
    let a = Link { source: read.source, target: d, weight };
    let b = Link { source: d, target: p, weight };
    let n = pre.links.len();
    assert(post.links[n - 1] == a);
    assert(post.links[n as int] == b);
    assert(post.links.contains(b));
    assert forall|j: int| 0 <= j < post.links.len() && j != n - 1 implies (
    #[trigger] post.links[j]).target != d by {
        if j < n - 1 {
            assert(post.links[j] == pre.links[if j < i { j } else { j + 1 }]);
        }
    }
    lemma_hop(post, n - 1, d);
    lemma_flows_refl(post, read.source);
    lemma_flows_hop(post, read.source, read.source, d);
    assert(delivers(pre, post, read, b));
    assert forall|l: Link| #[trigger]
        post.links.contains(l) && pre.nodes.contains_key(l.source) && pre.nodes.contains_key(
            l.target,
        ) implies pre.links.contains(l) by {
        let k = choose|k: int| 0 <= k < post.links.len() && post.links[k] == l;
        if k < n - 1 {
            assert(pre.links[if k < i { k } else { k + 1 }] == l);
        }
    }
    assert forall|l: Link| #[trigger] pre.links.contains(l) implies delivered(pre, post, l) by {
        reveal(delivered);
        let k = choose|k: int| 0 <= k < pre.links.len() && pre.links[k] == l;
        if k == i {
            assert(delivers(pre, post, l, b));
        } else {
            assert(post.links[if k < i { k } else { k - 1 }] == l);
            lemma_flows_refl(post, l.source);
            assert(delivers(pre, post, l, l));
        }
    }
    assert forall|m: Link| #[trigger]
        post.links.contains(m) && pre.nodes.contains_key(m.target) implies sourced(pre, post, m) by {
        reveal(sourced);
        let k = choose|k: int| 0 <= k < post.links.len() && post.links[k] == m;
        if k < n - 1 {
            assert(pre.links[if k < i { k } else { k + 1 }] == m);
            lemma_flows_refl(post, m.source);
            assert(delivers(pre, post, m, m));
        } else {
            assert(m == b);
            assert(delivers(pre, post, read, m));
        }
    }
}

/// Copying for prints leaves what nodes read.
pub proof fn lemma_prints_refine(pre: GraphState, post: GraphState, ps: Seq<NodeId>)
    requires
        pre.closed(),
        ps.no_duplicates(),
        forall|k: int|
            0 <= k < ps.len() ==> pre.nodes.contains_key(#[trigger] ps[k])
                && pre.nodes[ps[k]] is Print && latest_read(pre.links, ps[k]) >= 0,
        prints_copied(pre, post, ps),
    ensures
        refines(pre, post),
    decreases ps.len(),
{
    if ps.len() == 0 {
        lemma_refines_refl(pre);
    } else {
        let r = ps.drop_last();
        let p = ps.last();
        let mid = choose|mid: GraphState|
            prints_copied(pre, mid, r) && #[trigger] print_step(mid, post, p);
        assert forall|k: int| 0 <= k < r.len() implies pre.nodes.contains_key(#[trigger] r[k])
            && pre.nodes[r[k]] is Print && latest_read(pre.links, r[k]) >= 0 by {
            assert(r[k] == ps[k]);
        }
        lemma_prints_copied(pre, mid, r);
        lemma_prints_refine(pre, mid, r);
        assert(ps[ps.len() - 1] == p);
        lemma_last_once(ps);
        assert(latest_read(mid.links, p) >= 0);
        lemma_print_copied(mid, post, p);
        lemma_print_refines(mid, post, p);
        lemma_refines_trans(pre, mid, post);
    }
}

} // verus!
