//! Copies between the device and the functions that run on the host.
use crate::copies::{
    copy_input, fresh, lemma_incoming_tally, lemma_with_copies_len, lemma_with_copies_push,
    only_copies_added, with_copies, within,
};
use crate::edges::{
    dropped, ids_of, lemma_directed_distinct, lemma_directed_links, lemma_drop_directed,
    lemma_drop_next, lemma_dropped_contains, lemma_dropped_none, lemma_links_add, lemma_links_push,
    lemma_without_len,
};
use crate::graph::{
    directed, lemma_directed_from, lemma_wf_closed, links_of, lists, meets, move_references,
    of_kind, references_moved, undirected, Dependency, Direction, Edge, Graph, GraphState, Link,
    NodeId,
};
use crate::ops::{Kind, MetalCopyFromDevice, MetalCopyToDevice, Op, Output};
use crate::seqs::{
    lemma_filter_congruent, lemma_filter_contains, lemma_filter_partition, lemma_filter_push,
};
use crate::shape::{share, ShapeTracker};
use crate::tally::{
    lemma_tally_add, lemma_tally_congruent, lemma_tally_disjoint, lemma_tally_none,
    lemma_tally_push, lemma_tally_reverse, lemma_tally_same, lemma_tally_split, tally,
};
use std::rc::Rc;
use vstd::prelude::*;

verus! {

/// What links look like when node `c` reads `f`, under the view `scalar`, and all that read `f`
/// read `c` instead, the latest reader first.
pub open spec fn rerouted(
    links: Seq<Link>,
    f: NodeId,
    c: NodeId,
    scalar: Rc<ShapeTracker>,
) -> Seq<Link> {
    undirected(links, f, Direction::Outgoing).push(
        Link { source: f, target: c, weight: copy_input(scalar) },
    ) + directed(links, f, Direction::Outgoing).map_values(
        |l: Link| Link { source: c, target: l.target, weight: l.weight },
    )
}

/// Links count the same once the readers of `f` read `c`, but for those into `c`.
pub proof fn lemma_rerouted_tally(
    links: Seq<Link>,
    f: NodeId,
    c: NodeId,
    scalar: Rc<ShapeTracker>,
    p: spec_fn(NodeId, Dependency) -> bool,
)
    requires
        !p(c, copy_input(scalar)),
    ensures
        tally(rerouted(links, f, c, scalar), p) == tally(links, p),
{
    let out = directed(links, f, Direction::Outgoing);
    let kept = undirected(links, f, Direction::Outgoing);
    let fc = Link { source: f, target: c, weight: copy_input(scalar) };
    let q = |l: Link| meets(l, f, Direction::Outgoing);
    let moved = out.map_values(
        |l: Link| Link { source: c, target: l.target, weight: l.weight },
    );
    lemma_tally_add(kept.push(fc), moved, p);
    lemma_tally_push(kept, fc, p);
    lemma_tally_same(moved, out, p);
    lemma_tally_reverse(links.filter(q), p);
    lemma_tally_split(links, q, p);
    lemma_filter_congruent(
        links,
        |l: Link| !q(l),
        |l: Link| !meets(l, f, Direction::Outgoing),
    );
}

/// What a graph holds once the floats that function `f` hands back are copied to the device by
/// node `c`: all that read `f` read `c`; where `f` is retrieved, so is `c`; and where `f` has
/// inputs, `c` has taken its place.
pub open spec fn output_copied(
    s: GraphState,
    f: NodeId,
    c: NodeId,
    scalar: Rc<ShapeTracker>,
) -> GraphState {
    let copied = GraphState {
        nodes: s.nodes.insert(c, Op::MetalCopyToDevice(MetalCopyToDevice)),
        links: rerouted(s.links, f, c, scalar),
        to_retrieve: if s.to_retrieve.contains(f) {
            s.to_retrieve.insert(c)
        } else {
            s.to_retrieve
        },
        ..s
    };
    if directed(s.links, f, Direction::Incoming).len() == 0 {
        copied
    } else {
        references_moved(copied, f, c)
    }
}

/// Lets all readers of `f` read a new copy of it on the device.
pub fn copy_output(graph: &mut Graph, f: NodeId, scalar: &Rc<ShapeTracker>) -> (c: NodeId)
    requires
        old(graph).wf(),
        old(graph)@.nodes.contains_key(f),
        old(graph)@.nodes.dom().len() < u32::MAX,
        old(graph)@.links.len() + 1 < u32::MAX,
    ensures
        final(graph).wf(),
        !old(graph)@.nodes.contains_key(c),
        final(graph)@ == output_copied(old(graph)@, f, c, *scalar),
{
    let ghost e0 = graph.edges();
    let ghost s0 = graph@;
    let reads = graph.edges_directed(f, Direction::Outgoing);
    let c = graph.add_op(Op::MetalCopyToDevice(MetalCopyToDevice));
    graph.add_edge(
        f,
        c,
        Dependency::Data { input_order: 0, output_order: 0, shape: share(scalar) },
    );
    let ghost base = graph.edges();
    let ghost nodes = graph.nodes();
    let ghost ids = ids_of(reads@);
    let ghost mut added = Seq::<Edge>::empty();
    proof {
        lemma_directed_distinct(e0, f, Direction::Outgoing);
        assert forall|k: int| 0 <= k < reads@.len() implies base.contains(#[trigger] reads@[k])
            && nodes.contains_key(reads@[k].link.target) by {
            lemma_directed_from(e0, f, Direction::Outgoing, k);
            let m = choose|m: int| 0 <= m < e0.len() && e0[m] == reads@[k];
            assert(base[m] == reads@[k]);
        }
        lemma_dropped_none(base, ids.take(0));
        assert(base + added =~= base);
    }
    let mut i: usize = 0;
    while i < reads.len()
        invariant
            i <= reads.len(),
            graph.wf(),
            graph.nodes() == nodes,
            nodes.contains_key(c),
            graph.to_retrieve@ == s0.to_retrieve,
            graph.no_delete@ == s0.no_delete,
            graph.id_remap@ == s0.id_remap,
            ids == ids_of(reads@),
            ids.no_duplicates(),
            forall|k: int|
                0 <= k < reads@.len() ==> base.contains(#[trigger] reads@[k])
                    && nodes.contains_key(reads@[k].link.target),
            graph.edges() == dropped(base, ids.take(i as int)) + added,
            graph.edges().len() == base.len(),
            base.len() < u32::MAX,
            added.len() == i,
            forall|k: int|
                0 <= k < i ==> (#[trigger] added[k]).link == (Link {
                    source: c,
                    target: reads@[k].link.target,
                    weight: reads@[k].link.weight,
                }),
        decreases reads.len() - i,
    {
        let ghost before = graph.edges();
        let id = graph.add_edge(c, reads[i].link.target, reads[i].link.weight.duplicate());
        proof {
            let x = reads@[i as int];
            let next = added.push(
                Edge {
                    id,
                    link: Link { source: c, target: x.link.target, weight: x.link.weight },
                },
            );
            let done = ids.take(i as int);
            assert(graph.edges() =~= dropped(base, done) + next);
            assert(ids[i as int] == x.id);
            assert(!done.contains(x.id));
            lemma_drop_next(base, done, next, x);
            assert(done.push(x.id) =~= ids.take(i + 1));
            lemma_dropped_contains(base, done, x);
            let k = choose|k: int|
                0 <= k < dropped(base, done).len() && dropped(base, done)[k] == x;
            assert(graph.edges()[k] == x);
            lemma_without_len(graph.edges(), x);
            added = next;
        }
        graph.remove_edge(reads[i].id);
        i = i + 1;
    }
    proof {
        assert(ids.take(ids.len() as int) =~= ids);
        lemma_drop_directed(e0, f, Direction::Outgoing);
        lemma_directed_links(e0, f, Direction::Outgoing);
        let fc = base.last();
        assert(base =~= e0.push(fc));
        assert(!ids.contains(fc.id)) by {
            if ids.contains(fc.id) {
                let k = choose|k: int| 0 <= k < ids.len() && ids[k] == fc.id;
                lemma_directed_from(e0, f, Direction::Outgoing, k);
                let m = choose|m: int| 0 <= m < e0.len() && e0[m] == reads@[k];
                assert(e0[m].id != fc.id);
            }
        }
        lemma_filter_push(e0, fc, |e: Edge| !ids.contains(e.id));
        let kept = dropped(e0, ids).push(fc);
        assert(graph.edges() == kept + added);
        lemma_links_add(kept, added);
        lemma_links_push(dropped(e0, ids), fc);
        assert(links_of(added) =~= directed(s0.links, f, Direction::Outgoing).map_values(
            |l: Link| Link { source: c, target: l.target, weight: l.weight },
        )) by {
            assert(directed(s0.links, f, Direction::Outgoing) == links_of(reads@));
        }
        assert(links_of(graph.edges()) == rerouted(s0.links, f, c, *scalar));
        let q = |t: NodeId, w: Dependency| t == f;
        lemma_rerouted_tally(s0.links, f, c, *scalar, q);
        lemma_incoming_tally(s0.links, f, q);
        lemma_incoming_tally(links_of(graph.edges()), f, q);
        lemma_directed_links(graph.edges(), f, Direction::Incoming);
    }
    if graph.to_retrieve.contains(&f) {
        graph.to_retrieve.insert(c);
    }
    if graph.edges_directed(f, Direction::Incoming).len() != 0 {
        move_references(
            &mut graph.id_remap,
            &mut graph.no_delete,
            &mut graph.to_retrieve,
            f,
            c,
        );
    }
    c
}

/// The links by which `f` reads, through the copies `ds` in turn, what `reads` carried to it.
pub open spec fn copied_reads(
    reads: Seq<Link>,
    ds: Seq<NodeId>,
    f: NodeId,
    scalar: Rc<ShapeTracker>,
) -> Seq<Link> {
    Seq::new(
        2 * reads.len(),
        |k: int|
            if k % 2 == 0 {
                Link {
                    source: reads[k / 2].source,
                    target: ds[k / 2],
                    weight: copy_input(scalar),
                }
            } else {
                Link { source: ds[k / 2], target: f, weight: reads[k / 2].weight }
            },
    )
}

/// What a graph holds once all that `f` reads is copied from the device by the nodes `ds`, the
/// latest input first.
pub open spec fn inputs_copied(
    s: GraphState,
    f: NodeId,
    ds: Seq<NodeId>,
    scalar: Rc<ShapeTracker>,
) -> GraphState {
    GraphState {
        nodes: with_copies(s.nodes, ds),
        links: undirected(s.links, f, Direction::Incoming) + copied_reads(
            directed(s.links, f, Direction::Incoming),
            ds,
            f,
            scalar,
        ),
        ..s
    }
}

/// Lets `f` read new copies from the device of all that it reads; hands the copies back, that of
/// the latest input first.
pub fn copy_inputs(graph: &mut Graph, f: NodeId, scalar: &Rc<ShapeTracker>) -> (ds: Vec<NodeId>)
    requires
        old(graph).wf(),
        old(graph)@.nodes.contains_key(f),
        old(graph)@.nodes.dom().len() + directed(
            old(graph)@.links,
            f,
            Direction::Incoming,
        ).len() <= u32::MAX,
        old(graph)@.links.len() + directed(old(graph)@.links, f, Direction::Incoming).len()
            < u32::MAX,
    ensures
        final(graph).wf(),
        ds@.len() == directed(old(graph)@.links, f, Direction::Incoming).len(),
        fresh(old(graph)@.nodes, ds@),
        final(graph)@ == inputs_copied(old(graph)@, f, ds@, *scalar),
{
    let ghost base = graph.edges();
    let ghost s0 = graph@;
    let reads = graph.edges_directed(f, Direction::Incoming);
    let ghost ids = ids_of(reads@);
    let ghost links = links_of(reads@);
    let ghost mut added = Seq::<Edge>::empty();
    let mut ds: Vec<NodeId> = Vec::new();
    proof {
        lemma_directed_links(base, f, Direction::Incoming);
        lemma_directed_distinct(base, f, Direction::Incoming);
        assert forall|k: int| 0 <= k < reads@.len() implies base.contains(#[trigger] reads@[k])
            && s0.nodes.contains_key(reads@[k].link.source) by {
            lemma_directed_from(base, f, Direction::Incoming, k);
        }
        lemma_dropped_none(base, ids.take(0));
        assert(base + added =~= base);
        assert(with_copies(s0.nodes, ds@) =~= s0.nodes);
        assert(links_of(added) =~= copied_reads(links.take(0), ds@, f, *scalar));
    }
    let mut i: usize = 0;
    while i < reads.len()
        invariant
            i <= reads.len(),
            graph.wf(),
            s0.nodes.dom().finite(),
            s0.nodes.contains_key(f),
            s0.nodes.dom().len() + reads.len() <= u32::MAX,
            base.len() + reads.len() < u32::MAX,
            ds@.len() == i,
            fresh(s0.nodes, ds@),
            graph.nodes() == with_copies(s0.nodes, ds@),
            graph.nodes().dom().len() == s0.nodes.dom().len() + i,
            graph.to_retrieve@ == s0.to_retrieve,
            graph.no_delete@ == s0.no_delete,
            graph.id_remap@ == s0.id_remap,
            ids == ids_of(reads@),
            links == links_of(reads@),
            ids.no_duplicates(),
            forall|k: int|
                0 <= k < reads@.len() ==> base.contains(#[trigger] reads@[k])
                    && s0.nodes.contains_key(reads@[k].link.source),
            graph.edges() == dropped(base, ids.take(i as int)) + added,
            graph.edges().len() == base.len() + i,
            links_of(added) == copied_reads(links.take(i as int), ds@, f, *scalar),
        decreases reads.len() - i,
    {
        let ghost x = reads@[i as int];
        let ghost done = ids.take(i as int);
        let d = graph.add_op(Op::MetalCopyFromDevice(MetalCopyFromDevice));
        let first = graph.add_edge(
            reads[i].link.source,
            d,
            Dependency::Data { input_order: 0, output_order: 0, shape: share(scalar) },
        );
        let second = graph.add_edge(d, f, reads[i].link.weight.duplicate());
        proof {
            let a = Edge {
                id: first,
                link: Link { source: x.link.source, target: d, weight: copy_input(*scalar) },
            };
            let b = Edge {
                id: second,
                link: Link { source: d, target: f, weight: x.link.weight },
            };
            let next = added.push(a).push(b);
            assert(graph.edges() =~= dropped(base, done) + next);
            assert(ids[i as int] == x.id);
            assert(!done.contains(x.id));
            lemma_drop_next(base, done, next, x);
            assert(done.push(x.id) =~= ids.take(i + 1));
            lemma_dropped_contains(base, done, x);
            let k = choose|k: int|
                0 <= k < dropped(base, done).len() && dropped(base, done)[k] == x;
            assert(graph.edges()[k] == x);
            lemma_without_len(graph.edges(), x);
            lemma_links_push(added, a);
            lemma_links_push(added.push(a), b);
            lemma_copied_reads_push(links.take(i as int), ds@, x.link, d, f, *scalar);
            assert(links.take(i + 1) =~= links.take(i as int).push(x.link));
            lemma_with_copies_push(s0.nodes, ds@, d);
            added = next;
        }
        graph.remove_edge(reads[i].id);
        ds.push(d);
        i = i + 1;
    }
    proof {
        assert(ids.take(ids.len() as int) =~= ids);
        assert(links.take(links.len() as int) =~= links);
        lemma_drop_directed(base, f, Direction::Incoming);
        lemma_links_add(dropped(base, ids), added);
    }
    ds
}

/// One more read goes through one more copy.
pub proof fn lemma_copied_reads_push(
    reads: Seq<Link>,
    ds: Seq<NodeId>,
    x: Link,
    d: NodeId,
    f: NodeId,
    scalar: Rc<ShapeTracker>,
)
    requires
        reads.len() == ds.len(),
    ensures
        copied_reads(reads.push(x), ds.push(d), f, scalar) == copied_reads(
            reads,
            ds,
            f,
            scalar,
        ).push(Link { source: x.source, target: d, weight: copy_input(scalar) }).push(
            Link { source: d, target: f, weight: x.weight },
        ),
{
    let a = copied_reads(reads.push(x), ds.push(d), f, scalar);
    let b = copied_reads(reads, ds, f, scalar).push(
        Link { source: x.source, target: d, weight: copy_input(scalar) },
    ).push(Link { source: d, target: f, weight: x.weight });
    assert(a.len() == b.len());
    assert forall|k: int| 0 <= k < a.len() implies a[k] == b[k] by {
        if k < 2 * reads.len() {
            assert(k / 2 < reads.len());
        }
    }
    assert(a =~= b);
}

/// Links count the same once `f` reads copies, but for those into the copies.
pub proof fn lemma_copied_reads_tally(
    reads: Seq<Link>,
    ds: Seq<NodeId>,
    f: NodeId,
    scalar: Rc<ShapeTracker>,
    p: spec_fn(NodeId, Dependency) -> bool,
)
    requires
        reads.len() == ds.len(),
        forall|i: int| 0 <= i < reads.len() ==> (#[trigger] reads[i]).target == f,
        forall|i: int| 0 <= i < ds.len() ==> !p(#[trigger] ds[i], copy_input(scalar)),
    ensures
        tally(copied_reads(reads, ds, f, scalar), p) == tally(reads, p),
    decreases reads.len(),
{
    if reads.len() == 0 {
        assert(copied_reads(reads, ds, f, scalar) =~= reads);
    } else {
        let r = reads.drop_last();
        let x = reads.last();
        let e = ds.drop_last();
        let d = ds.last();
        assert(r.push(x) =~= reads);
        assert(e.push(d) =~= ds);
        assert forall|i: int| 0 <= i < r.len() implies (#[trigger] r[i]).target == f by {
            assert(r[i] == reads[i]);
        }
        assert forall|i: int| 0 <= i < e.len() implies !p(#[trigger] e[i], copy_input(scalar)) by {
            assert(e[i] == ds[i]);
        }
        assert(reads[reads.len() - 1].target == f);
        assert(!p(ds[ds.len() - 1], copy_input(scalar)));
        lemma_copied_reads_tally(r, e, f, scalar, p);
        lemma_copied_reads_push(r, e, x, d, f, scalar);
        let c = copied_reads(r, e, f, scalar);
        let a = Link { source: x.source, target: d, weight: copy_input(scalar) };
        let b = Link { source: d, target: f, weight: x.weight };
        lemma_tally_push(c, a, p);
        lemma_tally_push(c.push(a), b, p);
        lemma_tally_push(r, x, p);
    }
}

/// Whether `mid` is `pre` with the floats that function `f` hands back, if it does, copied to
/// the device by a new node.
pub open spec fn output_step(
    pre: GraphState,
    mid: GraphState,
    f: NodeId,
    scalar: Rc<ShapeTracker>,
) -> bool {
    if pre.nodes[f] == Op::Function(Output::Floats) {
        exists|c: NodeId|
            !pre.nodes.contains_key(c) && mid == #[trigger] output_copied(pre, f, c, scalar)
    } else {
        mid == pre
    }
}

/// Whether `post` is `mid` with all that `f` reads copied from the device by new nodes.
pub open spec fn input_step(
    mid: GraphState,
    post: GraphState,
    f: NodeId,
    scalar: Rc<ShapeTracker>,
) -> bool {
    exists|ds: Seq<NodeId>|
        ds.len() == directed(mid.links, f, Direction::Incoming).len() && fresh(mid.nodes, ds)
            && post == #[trigger] inputs_copied(mid, f, ds, scalar)
}

/// Whether `post` is `pre` with function `f` set between copies.
pub open spec fn function_copied(
    pre: GraphState,
    post: GraphState,
    f: NodeId,
    scalar: Rc<ShapeTracker>,
) -> bool {
    exists|mid: GraphState| #[trigger]
        output_step(pre, mid, f, scalar) && input_step(mid, post, f, scalar)
}

/// Whether `post` is `pre` with the functions `fs` set between copies one after the other.
pub open spec fn functions_copied(
    pre: GraphState,
    post: GraphState,
    fs: Seq<NodeId>,
    scalar: Rc<ShapeTracker>,
) -> bool
    decreases fs.len(),
{
    if fs.len() == 0 {
        post == pre
    } else {
        exists|mid: GraphState|
            functions_copied(pre, mid, fs.drop_last(), scalar) && #[trigger] function_copied(
                mid,
                post,
                fs.last(),
                scalar,
            )
    }
}

/// One more function is set between copies.
pub proof fn lemma_functions_copied_push(
    pre: GraphState,
    mid: GraphState,
    post: GraphState,
    fs: Seq<NodeId>,
    f: NodeId,
    scalar: Rc<ShapeTracker>,
)
    requires
        functions_copied(pre, mid, fs, scalar),
        function_copied(mid, post, f, scalar),
    ensures
        functions_copied(pre, post, fs.push(f), scalar),
{
    let all = fs.push(f);
    assert(all.drop_last() =~= fs);
    assert(functions_copied(pre, mid, all.drop_last(), scalar));
    assert(function_copied(mid, post, all.last(), scalar));
}

/// The functions among the nodes.
pub open spec fn functions(nodes: Map<NodeId, Op>) -> Set<NodeId> {
    of_kind(nodes, Kind::Function)
}

/// The number of copies that setting function `f` between copies takes.
pub open spec fn copies_of(s: GraphState, f: NodeId) -> nat {
    directed(s.links, f, Direction::Incoming).len() + if s.nodes[f] == Op::Function(
        Output::Floats,
    ) {
        1nat
    } else {
        0nat
    }
}

/// The number of copies that setting the functions `fs` between copies takes.
pub open spec fn copies_of_all(s: GraphState, fs: Seq<NodeId>) -> nat
    decreases fs.len(),
{
    if fs.len() == 0 {
        0
    } else {
        copies_of(s, fs[0]) + copies_of_all(s, fs.drop_first())
    }
}

/// One more function takes the copies that it takes.
pub proof fn lemma_copies_of_all_push(s: GraphState, fs: Seq<NodeId>, f: NodeId)
    ensures
        copies_of_all(s, fs.push(f)) == copies_of_all(s, fs) + copies_of(s, f),
    decreases fs.len(),
{
    if fs.len() == 0 {
        assert(fs.push(f).drop_first() =~= fs);
    } else {
        lemma_copies_of_all_push(s, fs.drop_first(), f);
        assert(fs.push(f).drop_first() =~= fs.drop_first().push(f));
    }
}

/// Copying an output keeps all links into the nodes there were.
pub proof fn lemma_output_step(
    pre: GraphState,
    mid: GraphState,
    f: NodeId,
    scalar: Rc<ShapeTracker>,
)
    requires
        pre.closed(),
        pre.nodes.contains_key(f),
        output_step(pre, mid, f, scalar),
    ensures
        mid.closed(),
        only_copies_added(pre.nodes, mid.nodes),
        forall|p: spec_fn(NodeId, Dependency) -> bool| #[trigger]
            within(p, pre.nodes) ==> tally(mid.links, p) == tally(pre.links, p),
        mid.links.len() == pre.links.len() + copies_of(pre, f) - directed(
            pre.links,
            f,
            Direction::Incoming,
        ).len(),
        mid.nodes.dom().len() - pre.nodes.dom().len() == mid.links.len() - pre.links.len(),
{
    if pre.nodes[f] == Op::Function(Output::Floats) {
        let c = choose|c: NodeId|
            !pre.nodes.contains_key(c) && mid == #[trigger] output_copied(pre, f, c, scalar);
        let q = |l: Link| meets(l, f, Direction::Outgoing);
        let kept = undirected(pre.links, f, Direction::Outgoing);
        lemma_filter_partition(pre.links, q);
        lemma_filter_congruent(
            pre.links,
            |l: Link| !q(l),
            |l: Link| !meets(l, f, Direction::Outgoing),
        );
        assert forall|p: spec_fn(NodeId, Dependency) -> bool| #[trigger]
            within(p, pre.nodes) implies tally(mid.links, p) == tally(pre.links, p) by {
            assert(!p(c, copy_input(scalar)));
            lemma_rerouted_tally(pre.links, f, c, scalar, p);
        }
        assert forall|i: int| 0 <= i < mid.links.len() implies mid.nodes.contains_key(
            (#[trigger] mid.links[i]).source,
        ) && mid.nodes.contains_key(mid.links[i].target) by {
            let out = directed(pre.links, f, Direction::Outgoing);
            if i < kept.len() {
                assert(kept.contains(kept[i]));
                lemma_filter_contains(
                    pre.links,
                    |l: Link| !meets(l, f, Direction::Outgoing),
                    kept[i],
                );
            } else if i > kept.len() {
                let s = pre.links.filter(q);
                let x = out[i - kept.len() - 1];
                assert(s[s.len() - 1 - (i - kept.len() - 1)] == x);
                assert(s.contains(x));
                lemma_filter_contains(pre.links, q, x);
            }
        }
    }
}

/// Copying inputs keeps all links into the nodes there were.
pub proof fn lemma_input_step(
    mid: GraphState,
    post: GraphState,
    f: NodeId,
    scalar: Rc<ShapeTracker>,
)
    requires
        mid.closed(),
        mid.nodes.contains_key(f),
        input_step(mid, post, f, scalar),
    ensures
        post.closed(),
        only_copies_added(mid.nodes, post.nodes),
        forall|p: spec_fn(NodeId, Dependency) -> bool| #[trigger]
            within(p, mid.nodes) ==> tally(post.links, p) == tally(mid.links, p),
        post.links.len() == mid.links.len() + directed(mid.links, f, Direction::Incoming).len(),
        post.nodes.dom().len() - mid.nodes.dom().len() == post.links.len() - mid.links.len(),
{
    let ds = choose|ds: Seq<NodeId>|
        ds.len() == directed(mid.links, f, Direction::Incoming).len() && fresh(mid.nodes, ds)
            && post == #[trigger] inputs_copied(mid, f, ds, scalar);
    let q = |l: Link| meets(l, f, Direction::Incoming);
    let kept = undirected(mid.links, f, Direction::Incoming);
    let reads = directed(mid.links, f, Direction::Incoming);
    let new = copied_reads(reads, ds, f, scalar);
    let s = mid.links.filter(q);
    lemma_filter_partition(mid.links, q);
    lemma_filter_congruent(
        mid.links,
        |l: Link| !q(l),
        |l: Link| !meets(l, f, Direction::Incoming),
    );
    lemma_with_copies_len(mid.nodes, ds);
    assert forall|k: int| 0 <= k < reads.len() implies (#[trigger] reads[k]).target == f
        && mid.nodes.contains_key(reads[k].source) by {
        assert(s[s.len() - 1 - k] == reads[k]);
        assert(s.contains(reads[k]));
        lemma_filter_contains(mid.links, q, reads[k]);
    }
    assert forall|p: spec_fn(NodeId, Dependency) -> bool| #[trigger]
        within(p, mid.nodes) implies tally(post.links, p) == tally(mid.links, p) by {
        lemma_copied_reads_tally(reads, ds, f, scalar, p);
        lemma_tally_add(kept, new, p);
        lemma_tally_reverse(s, p);
        lemma_tally_split(mid.links, q, p);
    }
    assert forall|i: int| 0 <= i < post.links.len() implies post.nodes.contains_key(
        (#[trigger] post.links[i]).source,
    ) && post.nodes.contains_key(post.links[i].target) by {
        if i < kept.len() {
            assert(kept.contains(kept[i]));
            lemma_filter_contains(
                mid.links,
                |l: Link| !meets(l, f, Direction::Incoming),
                kept[i],
            );
        } else {
            let k = i - kept.len();
            assert(post.links[i] == new[k]);
            assert(0 <= k / 2 < reads.len());
            assert(ds.contains(ds[k / 2]));
            assert(reads[k / 2].target == f);
        }
    }
}

/// The functions that hand floats back.
pub open spec fn float_functions(nodes: Map<NodeId, Op>) -> Set<NodeId> {
    Set::new(|n: NodeId| nodes.contains_key(n) && nodes[n] == Op::Function(Output::Floats))
}

/// The number of links into functions.
pub open spec fn function_reads(s: GraphState) -> nat {
    tally(s.links, |t: NodeId, w: Dependency| functions(s.nodes).contains(t))
}

/// The number of copies that setting all functions between copies takes: one for each link into
/// a function, one for each function that hands floats back.
pub open spec fn function_copies(s: GraphState) -> nat {
    function_reads(s) + float_functions(s.nodes).len()
}

/// The copies that the functions take one by one are those that they take together.
pub proof fn lemma_copies_of_all(s: GraphState, fs: Seq<NodeId>)
    requires
        fs.no_duplicates(),
    ensures
        copies_of_all(s, fs) == tally(s.links, |t: NodeId, w: Dependency| fs.contains(t))
            + Set::new(
            |n: NodeId| fs.contains(n) && s.nodes[n] == Op::Function(Output::Floats),
        ).len(),
        Set::new(
            |n: NodeId| fs.contains(n) && s.nodes[n] == Op::Function(Output::Floats),
        ).finite(),
    decreases fs.len(),
{
    let all = |t: NodeId, w: Dependency| fs.contains(t);
    let floats = Set::new(
        |n: NodeId| fs.contains(n) && s.nodes[n] == Op::Function(Output::Floats),
    );
    if fs.len() == 0 {
        assert(floats =~= Set::<NodeId>::empty());
        assert(tally(s.links, all) == 0) by {
            lemma_tally_none(s.links, all);
        }
    } else {
        let f = fs[0];
        let r = fs.drop_first();
        lemma_copies_of_all(s, r);
        let one = |t: NodeId, w: Dependency| t == f;
        let rest = |t: NodeId, w: Dependency| r.contains(t);
        let rest_floats = Set::new(
            |n: NodeId| r.contains(n) && s.nodes[n] == Op::Function(Output::Floats),
        );
        assert forall|n: NodeId| fs.contains(n) == (n == f || r.contains(n)) && !(n == f
            && r.contains(n)) by {
            if fs.contains(n) {
                let k = choose|k: int| 0 <= k < fs.len() && fs[k] == n;
                if k > 0 {
                    assert(r[k - 1] == n);
                }
            }
            if r.contains(n) {
                let k = choose|k: int| 0 <= k < r.len() && r[k] == n;
                assert(fs[k + 1] == n);
            }
        }
        lemma_tally_disjoint(s.links, one, rest, all);
        lemma_incoming_tally(s.links, f, one);
        if s.nodes[f] == Op::Function(Output::Floats) {
            assert(floats =~= rest_floats.insert(f));
            assert(!rest_floats.contains(f));
        } else {
            assert(floats =~= rest_floats);
        }
    }
}

/// The copies that the functions of a graph take one by one are those that they take together.
pub proof fn lemma_function_copies(s: GraphState, fs: Seq<NodeId>)
    requires
        lists(fs, functions(s.nodes)),
    ensures
        copies_of_all(s, fs) == function_copies(s),
{
    assert(fs.no_duplicates());
    lemma_copies_of_all(s, fs);
    lemma_tally_congruent(
        s.links,
        |t: NodeId, w: Dependency| fs.contains(t),
        |t: NodeId, w: Dependency| functions(s.nodes).contains(t),
    );
    assert(Set::new(|n: NodeId| fs.contains(n) && s.nodes[n] == Op::Function(Output::Floats))
        =~= float_functions(s.nodes)) by {
        assert forall|n: NodeId| (fs.contains(n) && s.nodes[n] == Op::Function(Output::Floats))
            == float_functions(s.nodes).contains(n) by {
            assert(fs.contains(n) <==> functions(s.nodes).contains(n));
        }
    }
}

/// Sets every function of a graph between copies: what it reads is copied from the device, and
/// the floats that it hands back are copied to the device. Hands back the functions in the order
/// in which they were treated.
pub fn copy_functions(graph: &mut Graph, scalar: &Rc<ShapeTracker>) -> (fs: Vec<NodeId>)
    requires
        old(graph).wf(),
        old(graph)@.nodes.dom().len() + function_copies(old(graph)@) <= u32::MAX,
        old(graph)@.links.len() + function_copies(old(graph)@) < u32::MAX,
    ensures
        final(graph).wf(),
        lists(fs@, functions(old(graph)@.nodes)),
        functions_copied(old(graph)@, final(graph)@, fs@, *scalar),
        final(graph)@.nodes.dom().len() == old(graph)@.nodes.dom().len() + function_copies(
            old(graph)@,
        ),
        final(graph)@.links.len() == old(graph)@.links.len() + function_copies(old(graph)@),
{
    let fs = graph.nodes_of(Kind::Function);
    let ghost s0 = graph@;
    let ghost mut left = copies_of_all(s0, fs@);
    proof {
        lemma_function_copies(s0, fs@);
        assert(fs@.take(0) =~= Seq::<NodeId>::empty());
        assert(fs@.skip(0) =~= fs@);
        assert forall|k: int| 0 <= k < fs@.len() implies functions(s0.nodes).contains(
            #[trigger] fs@[k],
        ) by {
            assert(fs@.contains(fs@[k]));
        }
    }
    let mut i: usize = 0;
    while i < fs.len()
        invariant
            i <= fs.len(),
            graph.wf(),
            lists(fs@, functions(s0.nodes)),
            functions_copied(s0, graph@, fs@.take(i as int), *scalar),
            forall|k: int|
                0 <= k < fs@.len() ==> functions(s0.nodes).contains(#[trigger] fs@[k])
                    && graph@.nodes.contains_key(fs@[k]),
            forall|k: int|
                i <= k < fs@.len() ==> copies_of(graph@, #[trigger] fs@[k]) == copies_of(
                    s0,
                    fs@[k],
                ),
            left == copies_of_all(s0, fs@.skip(i as int)),
            s0.nodes.dom().len() + function_copies(s0) <= u32::MAX,
            s0.links.len() + function_copies(s0) < u32::MAX,
            graph@.nodes.dom().len() + left == s0.nodes.dom().len() + function_copies(s0),
            graph@.links.len() + left == s0.links.len() + function_copies(s0),
        decreases fs.len() - i,
    {
        let f = fs[i];
        let ghost pre = graph@;
        let ghost copies = copies_of(s0, f);
        proof {
            lemma_wf_closed(*graph);
            assert(fs@.skip(i as int)[0] == f);
            assert(fs@.skip(i as int).drop_first() =~= fs@.skip(i + 1));
            assert(fs@[i as int] == f);
            assert(copies_of(pre, f) == copies);
        }
        let floats = match graph.node_weight(f) {
            Some(op) => match op {
                Op::Function(Output::Floats) => true,
                _ => false,
            },
            None => false,
        };
        if floats {
            copy_output(graph, f, scalar);
        }
        let ghost mid = graph@;
        proof {
            assert(output_step(pre, mid, f, *scalar));
            lemma_output_step(pre, mid, f, *scalar);
            let q = |t: NodeId, w: Dependency| t == f;
            assert(within(q, pre.nodes));
            lemma_incoming_tally(pre.links, f, q);
            lemma_incoming_tally(mid.links, f, q);
        }
        copy_inputs(graph, f, scalar);
        proof {
            assert(input_step(mid, graph@, f, *scalar));
            lemma_input_step(mid, graph@, f, *scalar);
            assert(function_copied(pre, graph@, f, *scalar));
            lemma_functions_copied_push(s0, pre, graph@, fs@.take(i as int), f, *scalar);
            assert(fs@.take(i as int).push(f) =~= fs@.take(i + 1));
            assert forall|k: int| i + 1 <= k < fs@.len() implies copies_of(
                graph@,
                #[trigger] fs@[k],
            ) == copies_of(s0, fs@[k]) by {
                let n = fs@[k];
                let q = |t: NodeId, w: Dependency| t == n;
                assert(pre.nodes.contains_key(n) && mid.nodes.contains_key(n));
                assert(within(q, pre.nodes));
                assert(within(q, mid.nodes));
                lemma_incoming_tally(pre.links, n, q);
                lemma_incoming_tally(graph@.links, n, q);
                assert(copies_of(pre, n) == copies_of(s0, n));
            }
            left = (left - copies) as nat;
        }
        i = i + 1;
    }
    proof {
        assert(fs@.take(fs@.len() as int) =~= fs@);
    }
    fs
}

} // verus!
