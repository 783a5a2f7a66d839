//! A compiled graph hands out what the graph did that was compiled.
use crate::copies::within;
use crate::flow::{delivers, flows_in, hop, refines, sourced};
use crate::frame::{blind, keeps, lemma_closed_link};
use crate::graph::{inputs, GraphState, Link, NodeId};
use crate::guarantees::{
    lemma_copied, lemma_flows_swapped, lemma_functions_hand_to_copies, lemma_other_functions_stay,
    lemma_outputs_retrieved_by_copy, lemma_retrieved_on_host,
};
use crate::host::has_inputs;
use crate::kernel::KernelText;
use crate::lower::{lowered, swapped, views};
use crate::meaning::{
    acyclic, carried, faithful, lemma_flow_value, lemma_outcome_settled, lemma_place_link,
    lemma_reads_views, outcome, ranked, reads, reads_below, settled, Meaning, Outcome,
};
use crate::ops::{Op, Output};
use crate::places::{
    distinct_places, lemma_distinct_place, lemma_place_links, place_links, reads_place,
};
use crate::primitive::{compiled, ready};
use crate::shape::ShapeTracker;
use crate::tally::tally;
use std::rc::Rc;
use vstd::prelude::*;

verus! {

/// Every node but a print has a place of its own for each input, and every tensor that is read is
/// the first that its node hands out.
pub open spec fn plain_reads(s: GraphState) -> bool {
    &&& forall|n: NodeId| #[trigger]
        s.nodes.contains_key(n) && !(s.nodes[n] is Print) ==> distinct_places(inputs(s.links, n))
    &&& forall|l: Link| #[trigger]
        s.links.contains(l) && l.weight is Data ==> l.weight->output_order == 0
}

/// A node reads the same at one of its places, where all that it read before hands out the same.
proof fn lemma_place_reads<V>(
    pre: GraphState,
    c: GraphState,
    post: GraphState,
    kernels: Seq<KernelText>,
    m: Meaning<V>,
    u: Outcome<V>,
    w: Outcome<V>,
    n: NodeId,
    k: u8,
)
    requires
        plain_reads(pre),
        keeps(pre, c),
        refines(pre, c),
        swapped(c, post, kernels),
        faithful(m, kernels),
        settled(post, m, w),
        pre.nodes.contains_key(n),
        !(pre.nodes[n] is Print),
        forall|l: Link| #[trigger]
            pre.links.contains(l) && l.target == n ==> w(l.source) == u(l.source),
    ensures
        place_links(post.links, n, k).map_values(carried(w)) == place_links(
            pre.links,
            n,
            k,
        ).map_values(carried(u)),
{
    let p = reads_place(n, k);
    let a = place_links(pre.links, n, k);
    let b = place_links(c.links, n, k);
    assert(within(p, pre.nodes));
    assert(blind(p, pre.nodes));
    assert(a.len() == tally(pre.links, p));
    assert(b.len() == tally(c.links, p));
    lemma_distinct_place(inputs(pre.links, n), k);
    lemma_place_links(pre.links, n, k);
    if b.len() == 0 {
        assert(b.map_values(carried(w)) =~= a.map_values(carried(u)));
    } else {
        let y = b[0];
        assert(b.contains(y));
        lemma_place_link(c.links, n, k, y);
        assert(sourced(pre, c, y));
        reveal(sourced);
        let l = choose|l: Link| delivers(pre, c, l, y);
        lemma_place_link(pre.links, n, k, l);
        assert(a.contains(l));
        assert(a[0] == l);
        let j = choose|j: nat| #[trigger] flows_in(c, l.source, y.source, j);
        lemma_flows_swapped(c, post, kernels, l.source, y.source, j);
        lemma_flow_value(post, m, kernels, w, l.source, y.source, j);
        assert(pre.links.contains(l));
        assert(carried(w)(y) == carried(u)(l));
        assert(b.map_values(carried(w)) =~= seq![carried(w)(y)]);
        assert(a.map_values(carried(u)) =~= seq![carried(u)(l)]);
    }
}

/// Reads that agree at every place agree.
proof fn lemma_reads_agree<V>(
    a: Seq<Link>,
    b: Seq<Link>,
    n: NodeId,
    u: Outcome<V>,
    w: Outcome<V>,
    k: nat,
)
    requires
        forall|j: u8| #[trigger]
            place_links(a, n, j).map_values(carried(u)) == place_links(b, n, j).map_values(
                carried(w),
            ),
    ensures
        reads_below(a, n, u, k) == reads_below(b, n, w, k),
    decreases k,
{
    if k > 0 {
        let j = (k - 1) as u8;
        lemma_reads_agree(a, b, n, u, w, (k - 1) as nat);
        assert(place_links(a, n, j).map_values(carried(u)) == place_links(b, n, j).map_values(
            carried(w),
        ));
    }
}

/// A node hands out after compiling what it did before.
proof fn lemma_value_kept<V>(
    pre: GraphState,
    c: GraphState,
    post: GraphState,
    kernels: Seq<KernelText>,
    m: Meaning<V>,
    rank: spec_fn(NodeId) -> nat,
    u: Outcome<V>,
    w: Outcome<V>,
    n: NodeId,
)
    requires
        pre.closed(),
        ranked(pre, rank),
        plain_reads(pre),
        keeps(pre, c),
        refines(pre, c),
        swapped(c, post, kernels),
        faithful(m, kernels),
        settled(pre, m, u),
        settled(post, m, w),
        pre.nodes.contains_key(n),
    ensures
        w(n) == u(n),
    decreases rank(n),
{
    assert(c.nodes.contains_key(n) && c.nodes[n] == pre.nodes[n]);
    assert(post.nodes.contains_key(n));
    assert(lowered(pre.nodes[n], views(c.links, n), kernels, post.nodes[n]));
    let before = reads(pre.links, n, u);
    let after = reads(post.links, n, w);
    assert(u(n) == m(n, pre.nodes[n], before));
    assert(w(n) == m(n, post.nodes[n], after));
    if pre.nodes[n] is Print {
        assert(m(n, Op::Print, before) == m(n, Op::Print, after));
    } else {
        assert forall|l: Link| #[trigger] pre.links.contains(l) && l.target == n implies w(
            l.source,
        ) == u(l.source) by {
            lemma_closed_link(pre, l);
            lemma_value_kept(pre, c, post, kernels, m, rank, u, w, l.source);
        }
        assert forall|k: u8| #[trigger]
            place_links(post.links, n, k).map_values(carried(w)) == place_links(
                pre.links,
                n,
                k,
            ).map_values(carried(u)) by {
            lemma_place_reads(pre, c, post, kernels, m, u, w, n, k);
        }
        lemma_reads_agree(post.links, pre.links, n, w, u, 256);
        lemma_reads_views(post.links, n, w, 256);
        assert(after.map_values(|x: (Rc<ShapeTracker>, V)| x.0) == views(post.links, n));
        assert(m(n, post.nodes[n], after) == m(n, pre.nodes[n], after));
    }
}

/// A compiled graph computes what the graph did that was compiled. Let copies hand out what they
/// read, prints the same whatever they read, and Metal operators what the primitive ones do whose
/// places they take. Then, in an acyclic graph of plain reads, every node hands out after
/// compiling what it did before, and the graph is acyclic still.
pub proof fn lemma_outcome_kept<V>(
    pre: GraphState,
    post: GraphState,
    kernels: Seq<KernelText>,
    m: Meaning<V>,
    n: NodeId,
)
    requires
        pre.closed(),
        ready(pre),
        compiled(pre, post, kernels),
        acyclic(pre),
        plain_reads(pre),
        faithful(m, kernels),
        pre.nodes.contains_key(n),
    ensures
        acyclic(post),
        outcome(post, m)(n) == outcome(pre, m)(n),
{
    let c = lemma_copied(pre, post, kernels);
    let rank = choose|rank: spec_fn(NodeId) -> nat| ranked(pre, rank);
    let next = choose|rank: spec_fn(NodeId) -> nat| ranked(c, rank);
    assert(ranked(post, next));
    lemma_outcome_settled(pre, m);
    lemma_outcome_settled(post, m);
    lemma_value_kept(
        pre,
        c,
        post,
        kernels,
        m,
        rank,
        outcome(pre, m),
        outcome(post, m),
        n,
    );
}

/// Following the map of replaced nodes from `n` `k` times leads to `d`.
pub open spec fn leads(id_remap: Map<NodeId, NodeId>, n: NodeId, d: NodeId, k: nat) -> bool
    decreases k,
{
    if k == 0 {
        n == d
    } else {
        id_remap.contains_key(n) && leads(id_remap, id_remap[n], d, (k - 1) as nat)
    }
}

/// What is retrieved of a compiled graph is what was retrieved of the graph that was compiled: from
/// a node that was to be retrieved, the map of replaced nodes leads to one that is retrieved, on
/// the host, and hands out the same tensor. The map leads no further unless it did before.
pub proof fn lemma_retrieved_outcome<V>(
    pre: GraphState,
    post: GraphState,
    kernels: Seq<KernelText>,
    m: Meaning<V>,
    n: NodeId,
) -> (res: (NodeId, nat))
    requires
        pre.closed(),
        ready(pre),
        compiled(pre, post, kernels),
        acyclic(pre),
        plain_reads(pre),
        faithful(m, kernels),
        pre.to_retrieve.contains(n),
    ensures
        leads(post.id_remap, n, res.0, res.1),
        post.id_remap.contains_key(res.0) == pre.id_remap.contains_key(res.0),
        post.to_retrieve.contains(res.0),
        post.nodes.contains_key(res.0),
        post.nodes[res.0] is Function || post.nodes[res.0] is MetalCopyFromDevice,
        outcome(post, m)(res.0)[0] == outcome(pre, m)(n)[0],
{
    let c = lemma_copied(pre, post, kernels);
    let w = outcome(post, m);
    assert(pre.nodes.contains_key(n));
    lemma_outcome_kept(pre, post, kernels, m, n);
    lemma_outcome_settled(post, m);
    if !(pre.nodes[n] is Function) {
        lemma_outputs_retrieved_by_copy(pre, post, kernels, n);
        let d = post.id_remap[n];
        lemma_copy_outcome(post, m, kernels, w, n, d);
        assert(c.to_retrieve.contains(d));
        assert(c.nodes.contains_key(d));
        assert(leads(post.id_remap, d, d, 0));
        assert(leads(post.id_remap, n, d, 1));
        (d, 1)
    } else if pre.nodes[n] == Op::Function(Output::Other) {
        lemma_other_functions_stay(pre, post, kernels, n);
        lemma_retrieved_on_host(pre, post, kernels, n);
        (n, 0)
    } else {
        let x = lemma_functions_hand_to_copies(pre, post, kernels, n);
        if has_inputs(pre, n) {
            let d = post.id_remap[x];
            lemma_copy_outcome(post, m, kernels, w, n, x);
            lemma_copy_outcome(post, m, kernels, w, x, d);
            assert(c.to_retrieve.contains(d));
            assert(c.nodes.contains_key(d));
            assert(leads(post.id_remap, d, d, 0));
            assert(leads(post.id_remap, x, d, 1));
            assert(leads(post.id_remap, n, d, 2));
            (d, 2)
        } else {
            lemma_retrieved_on_host(pre, post, kernels, n);
            (n, 0)
        }
    }
}

/// A copy hands out what it copies.
proof fn lemma_copy_outcome<V>(
    s: GraphState,
    m: Meaning<V>,
    kernels: Seq<KernelText>,
    v: Outcome<V>,
    x: NodeId,
    y: NodeId,
)
    requires
        faithful(m, kernels),
        settled(s, m, v),
        hop(s, x, y),
    ensures
        v(y)[0] == v(x)[0],
{
    assert(flows_in(s, x, x, 0));
    assert(flows_in(s, x, y, 1));
    lemma_flow_value(s, m, kernels, v, x, y, 1);
}

} // verus!
