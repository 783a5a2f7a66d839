//! Copies from the device of the tensors that are printed.
use crate::copies::{copy_input, lemma_inputs_tally, only_copies_added, reads_tensor, within};
use crate::edges::lemma_without_absent;
use crate::graph::{
    directed_edges, distinct_ids, inputs, lemma_wf_closed, links_of, lists, meets, of_kind,
    without_edge, Dependency, Direction, Edge, Graph, GraphState, Link, NodeId,
};
use crate::ops::{Kind, MetalCopyFromDevice, Op};
use crate::seqs::{lemma_filter_contains, lemma_filter_push};
use crate::shape::share;
use crate::tally::{lemma_tally_none, lemma_tally_push, lemma_tally_remove, tally};
use vstd::prelude::*;

verus! {

/// The place of the latest link that carries a tensor to `p`, -1 where none does.
pub open spec fn latest_read(links: Seq<Link>, p: NodeId) -> int
    decreases links.len(),
{
    if links.len() == 0 {
        -1
    } else if links.last().target == p && links.last().weight is Data {
        links.len() - 1
    } else {
        latest_read(links.drop_last(), p)
    }
}

/// What a graph holds once print `p` reads its latest tensor through the copy `d`.
pub open spec fn print_copied(s: GraphState, p: NodeId, d: NodeId) -> GraphState {
    let i = latest_read(s.links, p);
    let read = s.links[i];
    let weight = copy_input(read.weight->shape);
    GraphState {
        nodes: s.nodes.insert(d, Op::MetalCopyFromDevice(MetalCopyFromDevice)),
        links: s.links.remove(i).push(Link { source: read.source, target: d, weight }).push(
            Link { source: d, target: p, weight },
        ),
        ..s
    }
}

/// The latest read is a link that carries a tensor to `p`.
pub proof fn lemma_latest_read(links: Seq<Link>, p: NodeId)
    ensures
        -1 <= latest_read(links, p) < links.len(),
        latest_read(links, p) >= 0 ==> links[latest_read(links, p)].target == p
            && links[latest_read(links, p)].weight is Data,
        forall|i: int|
            latest_read(links, p) < i < links.len() ==> (#[trigger] links[i]).target != p
                || links[i].weight is Schedule,
    decreases links.len(),
{
    if links.len() > 0 {
        let r = links.drop_last();
        lemma_latest_read(r, p);
        assert forall|i: int| latest_read(links, p) < i < links.len() implies (
        #[trigger] links[i]).target != p || links[i].weight is Schedule by {
            if i < r.len() {
                assert(links[i] == r[i]);
            }
        }
    }
}

/// The first of the edges into `p` that carries a tensor is the latest read.
pub proof fn lemma_first_read(edges: Seq<Edge>, p: NodeId, j: int)
    requires
        0 <= j < directed_edges(edges, p, Direction::Incoming).len(),
        directed_edges(edges, p, Direction::Incoming)[j].link.weight is Data,
        forall|k: int|
            0 <= k < j ==> (#[trigger] directed_edges(
                edges,
                p,
                Direction::Incoming,
            )[k]).link.weight is Schedule,
    ensures
        0 <= latest_read(links_of(edges), p) < edges.len(),
        edges[latest_read(links_of(edges), p)] == directed_edges(
            edges,
            p,
            Direction::Incoming,
        )[j],
    decreases edges.len(),
{
    let q = |e: Edge| meets(e.link, p, Direction::Incoming);
    let all = directed_edges(edges, p, Direction::Incoming);
    if edges.len() == 0 {
        reveal(Seq::filter);
    } else {
        let r = edges.drop_last();
        let y = edges.last();
        assert(r.push(y) =~= edges);
        lemma_filter_push(r, y, q);
        let rest = directed_edges(r, p, Direction::Incoming);
        assert(links_of(edges).drop_last() =~= links_of(r));
        assert(links_of(edges).last() == y.link);
        if y.link.target == p {
            assert(all =~= seq![y] + rest);
            if y.link.weight is Data {
                if j > 0 {
                    assert(all[0].link.weight is Schedule);
                }
            } else {
                assert(j > 0);
                assert(rest[j - 1] == all[j]);
                assert forall|k: int| 0 <= k < j - 1 implies (
                #[trigger] rest[k]).link.weight is Schedule by {
                    assert(all[k + 1] == rest[k]);
                }
                lemma_first_read(r, p, j - 1);
            }
        } else {
            assert(all == rest);
            lemma_first_read(r, p, j);
        }
    }
}

/// Where some link carries a tensor to `p`, so does one of the edges into it.
pub proof fn lemma_read_is_directed(edges: Seq<Edge>, p: NodeId)
    requires
        latest_read(links_of(edges), p) >= 0,
    ensures
        exists|j: int|
            0 <= j < directed_edges(edges, p, Direction::Incoming).len() && (
            #[trigger] directed_edges(edges, p, Direction::Incoming)[j]).link.weight is Data,
{
    let q = |e: Edge| meets(e.link, p, Direction::Incoming);
    lemma_latest_read(links_of(edges), p);
    let e = edges[latest_read(links_of(edges), p)];
    assert(links_of(edges)[latest_read(links_of(edges), p)] == e.link);
    let s = edges.filter(q);
    assert(edges.contains(e));
    lemma_filter_contains(edges, q, e);
    let k = choose|k: int| 0 <= k < s.len() && s[k] == e;
    assert(directed_edges(edges, p, Direction::Incoming)[s.len() - 1 - k] == e);
}

/// Taking an edge out by its name takes it out of its place.
pub proof fn lemma_without_is_remove(edges: Seq<Edge>, k: int)
    requires
        distinct_ids(edges),
        0 <= k < edges.len(),
    ensures
        without_edge(edges, edges[k].id) == edges.remove(k),
    decreases edges.len(),
{
    let r = edges.drop_last();
    let y = edges.last();
    let id = edges[k].id;
    assert(r.push(y) =~= edges);
    lemma_filter_push(r, y, |e: Edge| e.id != id);
    if k == r.len() {
        assert forall|i: int| 0 <= i < r.len() implies (#[trigger] r[i]).id != id by {
            assert(edges[i].id != edges[k].id);
        }
        lemma_without_absent(r, id);
        assert(edges.remove(k) =~= r);
    } else {
        assert(edges[k].id != edges[r.len() as int].id);
        assert forall|i: int, j: int| 0 <= i < j < r.len() implies (#[trigger] r[i]).id != (
        #[trigger] r[j]).id by {
            assert(edges[i].id != edges[j].id);
        }
        lemma_without_is_remove(r, k);
        assert(edges.remove(k) =~= r.remove(k).push(y));
    }
}

/// Lets print `p` read a new copy from the device of the latest tensor that it reads.
pub fn copy_print(graph: &mut Graph, p: NodeId) -> (d: NodeId)
    requires
        old(graph).wf(),
        old(graph)@.nodes.contains_key(p),
        latest_read(old(graph)@.links, p) >= 0,
        old(graph)@.nodes.dom().len() < u32::MAX,
        old(graph)@.links.len() + 1 < u32::MAX,
    ensures
        final(graph).wf(),
        !old(graph)@.nodes.contains_key(d),
        final(graph)@ == print_copied(old(graph)@, p, d),
{
    let ghost e0 = graph.edges();
    let ghost s0 = graph@;
    let reads = graph.edges_directed(p, Direction::Incoming);
    let mut j: usize = 0;
    proof {
        lemma_read_is_directed(e0, p);
    }
    while reads[j].link.weight.is_schedule()
        invariant
            j < reads.len(),
            forall|k: int| 0 <= k < j ==> (#[trigger] reads@[k]).link.weight is Schedule,
            exists|k: int| 0 <= k < reads@.len() && (#[trigger] reads@[k]).link.weight is Data,
        decreases reads.len() - j,
    {
        j = j + 1;
        proof {
            let k = choose|k: int|
                0 <= k < reads@.len() && (#[trigger] reads@[k]).link.weight is Data;
            assert(k >= j);
        }
    }
    let ghost i = latest_read(s0.links, p);
    proof {
        lemma_first_read(e0, p, j as int);
        assert(e0[i] == reads@[j as int]);
        assert(s0.links[i] == e0[i].link);
    }
    let d = graph.add_op(Op::MetalCopyFromDevice(MetalCopyFromDevice));
    if let Dependency::Data { shape, .. } = &reads[j].link.weight {
        graph.add_edge(
            reads[j].link.source,
            d,
            Dependency::Data { input_order: 0, output_order: 0, shape: share(shape) },
        );
        graph.add_edge(
            d,
            p,
            Dependency::Data { input_order: 0, output_order: 0, shape: share(shape) },
        );
    }
    let ghost e2 = graph.edges();
    graph.remove_edge(reads[j].id);
    proof {
        assert(e2.len() == e0.len() + 2);
        assert(e2[i] == e0[i]);
        lemma_without_is_remove(e2, i);
        assert(links_of(e2.remove(i)) =~= links_of(e2).remove(i));
        assert(links_of(e2).remove(i) =~= print_copied(s0, p, d).links);
    }
    d
}

/// Whether `post` is `pre` with print `p` reading its latest tensor through a new copy.
pub open spec fn print_step(pre: GraphState, post: GraphState, p: NodeId) -> bool {
    exists|d: NodeId| !pre.nodes.contains_key(d) && post == #[trigger] print_copied(pre, p, d)
}

/// Whether `post` is `pre` with the prints `ps` reading through copies one after the other.
pub open spec fn prints_copied(pre: GraphState, post: GraphState, ps: Seq<NodeId>) -> bool
    decreases ps.len(),
{
    if ps.len() == 0 {
        post == pre
    } else {
        exists|mid: GraphState|
            prints_copied(pre, mid, ps.drop_last()) && #[trigger] print_step(mid, post, ps.last())
    }
}

/// One more print reads through a copy.
pub proof fn lemma_prints_copied_push(
    pre: GraphState,
    mid: GraphState,
    post: GraphState,
    ps: Seq<NodeId>,
    p: NodeId,
)
    requires
        prints_copied(pre, mid, ps),
        print_step(mid, post, p),
    ensures
        prints_copied(pre, post, ps.push(p)),
{
    let all = ps.push(p);
    assert(all.drop_last() =~= ps);
    assert(print_step(mid, post, all.last()));
}

/// The prints among the nodes.
pub open spec fn prints(nodes: Map<NodeId, Op>) -> Set<NodeId> {
    of_kind(nodes, Kind::Print)
}

/// A print that reads a tensor has a latest read.
pub proof fn lemma_has_read(links: Seq<Link>, p: NodeId)
    ensures
        latest_read(links, p) >= 0 <==> inputs(links, p).len() > 0,
{
    lemma_inputs_tally(links, p);
    lemma_latest_read(links, p);
    let q = |l: Link| reads_tensor(p)(l.target, l.weight);
    if latest_read(links, p) >= 0 {
        let x = links[latest_read(links, p)];
        assert(links.contains(x));
        lemma_filter_contains(links, q, x);
        assert(links.filter(q).contains(x));
    } else {
        lemma_tally_none(links, reads_tensor(p));
    }
}

/// Copying for a print changes how links into nodes there were count by one link into the print.
pub proof fn lemma_print_step(pre: GraphState, post: GraphState, p: NodeId)
    requires
        pre.closed(),
        pre.nodes.contains_key(p),
        latest_read(pre.links, p) >= 0,
        print_step(pre, post, p),
    ensures
        post.closed(),
        only_copies_added(pre.nodes, post.nodes),
        post.nodes.dom().len() == pre.nodes.dom().len() + 1,
        post.links.len() == pre.links.len() + 1,
        forall|q: spec_fn(NodeId, Dependency) -> bool|
            #![trigger within(q, pre.nodes)]
            within(q, pre.nodes) && (forall|w: Dependency, v: Dependency|
                #![trigger q(p, w), q(p, v)]
                w is Data && v is Data ==> q(p, w) == q(p, v)) ==> tally(post.links, q) == tally(
                pre.links,
                q,
            ),
{
    let d = choose|d: NodeId|
        !pre.nodes.contains_key(d) && post == #[trigger] print_copied(pre, p, d);
    let i = latest_read(pre.links, p);
    lemma_latest_read(pre.links, p);
    let read = pre.links[i];
    let weight = copy_input(read.weight->shape);
    let a = Link { source: read.source, target: d, weight };
    let b = Link { source: d, target: p, weight };
    let kept = pre.links.remove(i);
    assert forall|q: spec_fn(NodeId, Dependency) -> bool|
        #![trigger within(q, pre.nodes)]
        within(q, pre.nodes) && (forall|w: Dependency, v: Dependency|
            #![trigger q(p, w), q(p, v)]
            w is Data && v is Data ==> q(p, w) == q(p, v)) implies tally(post.links, q) == tally(
        pre.links,
        q,
    ) by {
        lemma_tally_push(kept, a, q);
        lemma_tally_push(kept.push(a), b, q);
        lemma_tally_remove(pre.links, i, q);
        assert(q(p, weight) == q(p, read.weight));
        assert(!q(d, weight));
    }
    assert forall|k: int| 0 <= k < post.links.len() implies post.nodes.contains_key(
        (#[trigger] post.links[k]).source,
    ) && post.nodes.contains_key(post.links[k].target) by {
        if k < i {
            assert(post.links[k] == pre.links[k]);
        } else if k < kept.len() {
            assert(post.links[k] == pre.links[k + 1]);
        }
    }
}

/// Copies for the prints of a graph: each reads its latest tensor through a new copy from the
/// device. Hands back the prints in the order in which they were treated.
pub fn copy_prints(graph: &mut Graph) -> (ps: Vec<NodeId>)
    requires
        old(graph).wf(),
        forall|p: NodeId| #[trigger]
            prints(old(graph)@.nodes).contains(p) ==> inputs(old(graph)@.links, p).len() > 0,
        old(graph)@.nodes.dom().len() + prints(old(graph)@.nodes).len() <= u32::MAX,
        old(graph)@.links.len() + prints(old(graph)@.nodes).len() < u32::MAX,
    ensures
        final(graph).wf(),
        lists(ps@, prints(old(graph)@.nodes)),
        prints_copied(old(graph)@, final(graph)@, ps@),
{
    let ps = graph.nodes_of(Kind::Print);
    let ghost s0 = graph@;
    proof {
        assert(ps@.no_duplicates());
        ps@.unique_seq_to_set();
        assert(ps@.to_set() =~= prints(s0.nodes));
        assert(ps@.take(0) =~= Seq::<NodeId>::empty());
        assert forall|k: int| 0 <= k < ps@.len() implies s0.nodes.contains_key(#[trigger] ps@[k])
            && latest_read(s0.links, ps@[k]) >= 0 by {
            assert(ps@.contains(ps@[k]));
            lemma_has_read(s0.links, ps@[k]);
        }
    }
    let mut i: usize = 0;
    while i < ps.len()
        invariant
            i <= ps.len(),
            graph.wf(),
            prints_copied(s0, graph@, ps@.take(i as int)),
            forall|k: int|
                0 <= k < ps@.len() ==> graph@.nodes.contains_key(#[trigger] ps@[k]) && latest_read(
                    graph@.links,
                    ps@[k],
                ) >= 0,
            graph@.nodes.dom().len() + (ps.len() - i) <= u32::MAX,
            graph@.links.len() + (ps.len() - i) < u32::MAX,
        decreases ps.len() - i,
    {
        let ghost pre = graph@;
        let p = ps[i];
        proof {
            lemma_wf_closed(*graph);
            assert(ps@[i as int] == p);
        }
        copy_print(graph, p);
        proof {
            assert(print_step(pre, graph@, p));
            lemma_print_step(pre, graph@, p);
            lemma_prints_copied_push(s0, pre, graph@, ps@.take(i as int), p);
            assert(ps@.take(i as int).push(p) =~= ps@.take(i + 1));
            assert forall|k: int| 0 <= k < ps@.len() implies graph@.nodes.contains_key(
                #[trigger] ps@[k],
            ) && latest_read(graph@.links, ps@[k]) >= 0 by {
                let n = ps@[k];
                assert(pre.nodes.contains_key(n));
                let q = reads_tensor(n);
                assert(within(q, pre.nodes));
                lemma_has_read(pre.links, n);
                lemma_has_read(graph@.links, n);
                lemma_inputs_tally(pre.links, n);
                lemma_inputs_tally(graph@.links, n);
            }
        }
        i = i + 1;
    }
    proof {
        assert(ps@.take(ps@.len() as int) =~= ps@);
    }
    ps
}

} // verus!
