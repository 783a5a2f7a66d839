//! Copies from the device of the tensors that are retrieved.
use crate::copies::{copy_input, fresh, lemma_with_copies_push, with_copies};
use crate::graph::{
    inputs, move_references, references_moved, Dependency, Graph, GraphState, Input, Link, NodeId,
};
use crate::ops::{MetalCopyFromDevice, Op};
use crate::shape::{share, ShapeTracker};
use std::collections::HashSet;
use std::rc::Rc;
use vstd::prelude::*;

verus! {

broadcast use vstd::std_specs::hash::group_hash_axioms;

/// The members of a set, each once, in the order in which the set hands them out.
pub(crate) fn members(s: &HashSet<NodeId>) -> (res: Vec<NodeId>)
    ensures
        res@.no_duplicates(),
        res@.to_set() == s@,
{
    let mut res: Vec<NodeId> = Vec::new();
    for n in it: s.iter()
        invariant
            res@ == it.seq().unref().take(it.index() as int),
            it.seq().unref().to_set() == s@,
            it.seq().no_duplicates(),
            it.index() == it.seq().len() ==> res@ == it.seq().unref(),
    {
        res.push(*n);
        assert(res@ =~= it.seq().unref().take(it.index() + 1));
        assert(it.seq().unref().take(it.seq().len() as int) =~= it.seq().unref());
    }
    res
}

/// A node whose tensor is retrieved, with the view under which it is.
pub type Retrieved = (NodeId, Rc<ShapeTracker>);

/// The view with the most physical elements, the last of several.
pub open spec fn largest(tensors: Seq<Input>) -> Rc<ShapeTracker>
    recommends
        tensors.len() > 0,
    decreases tensors.len(),
{
    if tensors.len() <= 1 {
        tensors[0].2
    } else {
        let m = largest(tensors.drop_last());
        if tensors.last().2.physical >= m.physical {
            tensors.last().2
        } else {
            m
        }
    }
}

/// The view with the most physical elements, the last of several.
fn largest_view(tensors: &Vec<Input>) -> (shape: Rc<ShapeTracker>)
    requires
        tensors.len() > 0,
    ensures
        shape == largest(tensors@),
{
    let mut best = share(&tensors[0].2);
    let mut i: usize = 1;
    while i < tensors.len()
        invariant
            1 <= i <= tensors.len(),
            best == largest(tensors@.take(i as int)),
        decreases tensors.len() - i,
    {
        proof {
            assert(tensors@.take(i + 1).drop_last() =~= tensors@.take(i as int));
        }
        if tensors[i].2.n_physical_elements() >= best.n_physical_elements() {
            best = share(&tensors[i].2);
        }
        i = i + 1;
    }
    proof {
        assert(tensors@.take(tensors@.len() as int) =~= tensors@);
    }
    best
}

/// The nodes that are retrieved but for the functions.
pub open spec fn outputs(s: GraphState) -> Set<NodeId> {
    Set::new(|n: NodeId| s.to_retrieve.contains(n) && !(s.nodes[n] is Function))
}

/// Every node that is retrieved is there, and reads a tensor unless it is a function.
pub open spec fn retrievable(s: GraphState) -> bool {
    forall|n: NodeId| #[trigger]
        s.to_retrieve.contains(n) ==> s.nodes.contains_key(n) && (s.nodes[n] is Function || inputs(
            s.links,
            n,
        ).len() > 0)
}

/// The names of retrieved nodes.
pub open spec fn names(outs: Seq<Retrieved>) -> Seq<NodeId> {
    outs.map_values(|o: Retrieved| o.0)
}

/// `outs` holds the retrieved nodes of a state but for the functions, each once, under the
/// largest view of what it reads.
pub open spec fn retrieves(outs: Seq<Retrieved>, s: GraphState) -> bool {
    &&& names(outs).no_duplicates()
    &&& names(outs).to_set() == outputs(s)
    &&& forall|i: int|
        0 <= i < outs.len() ==> (#[trigger] outs[i]).1 == largest(inputs(s.links, outs[i].0))
}

/// The retrieved nodes of a graph but for the functions, in the order in which the set of
/// retrieved nodes hands them out, each under the largest view of what it reads.
pub fn retrieved_outputs(graph: &Graph) -> (outs: Vec<Retrieved>)
    requires
        graph.wf(),
        retrievable(graph@),
    ensures
        retrieves(outs@, graph@),
{
    let all = members(&graph.to_retrieve);
    let mut outs: Vec<Retrieved> = Vec::new();
    let mut i: usize = 0;
    while i < all.len()
        invariant
            i <= all.len(),
            graph.wf(),
            retrievable(graph@),
            all@.no_duplicates(),
            all@.to_set() == graph@.to_retrieve,
            names(outs@).no_duplicates(),
            forall|k: int|
                0 <= k < outs@.len() ==> outputs(graph@).contains((#[trigger] outs@[k]).0)
                    && all@.take(i as int).contains(outs@[k].0) && outs@[k].1 == largest(
                    inputs(graph@.links, outs@[k].0),
                ),
            forall|m: int|
                0 <= m < i && outputs(graph@).contains(#[trigger] all@[m]) ==> names(
                    outs@,
                ).contains(all@[m]),
        decreases all.len() - i,
    {
        let n = all[i];
        let ghost before = outs@;
        proof {
            assert(all@.contains(n));
            assert(graph@.to_retrieve.contains(n));
            assert forall|k: int| 0 <= k < before.len() implies all@.take(i + 1).contains(
                (#[trigger] before[k]).0,
            ) && before[k].0 != n by {
                let m = choose|m: int|
                    0 <= m < i && all@.take(i as int)[m] == before[k].0;
                assert(all@.take(i + 1)[m] == before[k].0);
                assert(all@[m] != all@[i as int]);
            }
            assert(all@.take(i + 1)[i as int] == n);
        }
        let is_function = match graph.node_weight(n) {
            Some(op) => match op {
                Op::Function(_) => true,
                _ => false,
            },
            None => false,
        };
        if !is_function {
            let tensors = graph.inputs(n);
            outs.push((n, largest_view(&tensors)));
            proof {
                assert(names(outs@) =~= names(before).push(n));
                assert forall|k: int, m: int|
                    0 <= k < names(outs@).len() && 0 <= m < names(outs@).len() && k != m implies names(
                    outs@,
                )[k] != names(outs@)[m] by {
                    if k < before.len() && m < before.len() {
                        assert(names(before)[k] != names(before)[m]);
                    } else if k < before.len() {
                        assert(before[k].0 != n);
                    } else {
                        assert(before[m].0 != n);
                    }
                }
                assert(names(outs@)[before.len() as int] == n);
                assert forall|m: int|
                    0 <= m < i && outputs(graph@).contains(#[trigger] all@[m]) implies names(
                    outs@,
                ).contains(all@[m]) by {
                    let k = choose|k: int|
                        0 <= k < names(before).len() && names(before)[k] == all@[m];
                    assert(names(outs@)[k] == all@[m]);
                }
            }
        }
        i = i + 1;
    }
    proof {
        assert(names(outs@).to_set() =~= outputs(graph@)) by {
            assert forall|n: NodeId| names(outs@).to_set().contains(n) == outputs(
                graph@,
            ).contains(n) by {
                if outputs(graph@).contains(n) {
                    assert(all@.to_set().contains(n));
                    let m = choose|m: int| 0 <= m < all@.len() && all@[m] == n;
                    assert(names(outs@).contains(all@[m]));
                }
                if names(outs@).to_set().contains(n) {
                    let k = choose|k: int| 0 <= k < names(outs@).len() && names(outs@)[k] == n;
                    assert(outs@[k].0 == n);
                }
            }
        }
    }
    outs
}

/// Each retrieved node that is no function is handed back once, with the view of one of the tensors
/// that it reads: none has more physical elements, and none that comes after it has as many.
pub proof fn lemma_retrieved_views(graph: &Graph, outs: Vec<Retrieved>)
    requires
        call_ensures(retrieved_outputs, (graph,), outs),
        retrievable(graph@),
    ensures
        forall|i: int, j: int| 0 <= i < j < outs@.len() ==> outs@[i].0 != outs@[j].0,
        forall|n: NodeId| #[trigger]
            graph@.to_retrieve.contains(n) && !(graph@.nodes[n] is Function) ==> exists|i: int|
                0 <= i < outs@.len() && (#[trigger] outs@[i]).0 == n,
        forall|i: int|
            0 <= i < outs@.len() ==> graph@.to_retrieve.contains((#[trigger] outs@[i]).0) && !(
            graph@.nodes[outs@[i].0] is Function) && exists|k: int|
                #![trigger inputs(graph@.links, outs@[i].0)[k]]
                latest_largest(inputs(graph@.links, outs@[i].0), k, outs@[i].1),
{
    let s = graph@;
    let ns = names(outs@);
    assert forall|i: int, j: int| 0 <= i < j < outs@.len() implies outs@[i].0 != outs@[j].0 by {
        assert(ns[i] != ns[j]);
    }
    assert forall|n: NodeId| #[trigger]
        s.to_retrieve.contains(n) && !(s.nodes[n] is Function) implies exists|i: int|
        0 <= i < outs@.len() && (#[trigger] outs@[i]).0 == n by {
        assert(outputs(s).contains(n));
        assert(ns.to_set().contains(n));
        let i = choose|i: int| 0 <= i < ns.len() && ns[i] == n;
        assert(outs@[i].0 == n);
    }
    assert forall|i: int| 0 <= i < outs@.len() implies s.to_retrieve.contains(
        (#[trigger] outs@[i]).0,
    ) && !(s.nodes[outs@[i].0] is Function) && exists|k: int|
        #![trigger inputs(s.links, outs@[i].0)[k]]
        latest_largest(inputs(s.links, outs@[i].0), k, outs@[i].1) by {
        assert(ns[i] == outs@[i].0);
        assert(ns.to_set().contains(outs@[i].0));
        assert(outputs(s).contains(outs@[i].0));
        let k = lemma_latest_largest(inputs(s.links, outs@[i].0));
        let t = inputs(s.links, outs@[i].0)[k];
    }
}

/// Tensor `k` has the view `shape`: none has more physical elements, and none that comes after it
/// has as many.
pub open spec fn latest_largest(tensors: Seq<Input>, k: int, shape: Rc<ShapeTracker>) -> bool {
    &&& 0 <= k < tensors.len()
    &&& tensors[k].2 == shape
    &&& forall|j: int|
        0 <= j < tensors.len() ==> (#[trigger] tensors[j]).2.physical <= shape.physical
    &&& forall|j: int| k < j < tensors.len() ==> (#[trigger] tensors[j]).2.physical < shape.physical
}

proof fn lemma_latest_largest(tensors: Seq<Input>) -> (k: int)
    requires
        tensors.len() > 0,
    ensures
        latest_largest(tensors, k, largest(tensors)),
    decreases tensors.len(),
{
    if tensors.len() == 1 {
        0
    } else {
        let r = tensors.drop_last();
        let k = lemma_latest_largest(r);
        let last = tensors.len() - 1;
        assert(tensors[k] == r[k]);
        assert forall|j: int| 0 <= j < last implies #[trigger] tensors[j] == r[j] by {}
        assert forall|j: int| 0 <= j < tensors.len() implies (#[trigger] tensors[j]).2.physical
            <= largest(tensors).physical by {
            if j < last {
                assert(tensors[j] == r[j]);
            }
        }
        if tensors.last().2.physical >= largest(r).physical {
            last
        } else {
            assert forall|j: int| k < j < tensors.len() implies (
            #[trigger] tensors[j]).2.physical < largest(tensors).physical by {
                if j < last {
                    assert(tensors[j] == r[j]);
                }
            }
            k
        }
    }
}

/// A state in which each of `to` has taken the place of its counterpart in `from`, in turn.
pub open spec fn all_references_moved(
    s: GraphState,
    from: Seq<NodeId>,
    to: Seq<NodeId>,
) -> GraphState
    decreases from.len(),
{
    if from.len() == 0 {
        s
    } else {
        references_moved(
            all_references_moved(s, from.drop_last(), to.drop_last()),
            from.last(),
            to.last(),
        )
    }
}

/// The links by which the copies `ds` read `outs`.
pub open spec fn output_reads(outs: Seq<Retrieved>, ds: Seq<NodeId>) -> Seq<Link> {
    Seq::new(
        outs.len(),
        |i: int| Link { source: outs[i].0, target: ds[i], weight: copy_input(outs[i].1) },
    )
}

/// What a graph holds once the nodes `ds` copy `outs` from the device and have taken their
/// places.
pub open spec fn outputs_copied(
    s: GraphState,
    outs: Seq<Retrieved>,
    ds: Seq<NodeId>,
) -> GraphState {
    all_references_moved(
        GraphState {
            nodes: with_copies(s.nodes, ds),
            links: s.links + output_reads(outs, ds),
            ..s
        },
        names(outs),
        ds,
    )
}

/// Moving references touches neither nodes nor links.
pub proof fn lemma_references_frame(
    a: GraphState,
    b: GraphState,
    from: Seq<NodeId>,
    to: Seq<NodeId>,
)
    requires
        a.to_retrieve == b.to_retrieve,
        a.no_delete == b.no_delete,
        a.id_remap == b.id_remap,
    ensures
        all_references_moved(a, from, to).nodes == a.nodes,
        all_references_moved(a, from, to).links == a.links,
        all_references_moved(a, from, to) == (GraphState {
            nodes: a.nodes,
            links: a.links,
            ..all_references_moved(b, from, to)
        }),
    decreases from.len(),
{
    if from.len() > 0 {
        lemma_references_frame(a, b, from.drop_last(), to.drop_last());
    }
}

/// Copies retrieved tensors from the device: each node of `outs` is read by a new copy, which
/// takes its place. Hands back the copies.
pub fn copy_outputs(graph: &mut Graph, outs: &Vec<Retrieved>) -> (ds: Vec<NodeId>)
    requires
        old(graph).wf(),
        forall|i: int|
            0 <= i < outs.len() ==> old(graph)@.nodes.contains_key((#[trigger] outs[i]).0),
        old(graph)@.nodes.dom().len() + outs.len() <= u32::MAX,
        old(graph)@.links.len() + outs.len() <= u32::MAX,
    ensures
        final(graph).wf(),
        ds@.len() == outs@.len(),
        fresh(old(graph)@.nodes, ds@),
        final(graph)@ == outputs_copied(old(graph)@, outs@, ds@),
{
    let ghost s0 = graph@;
    let mut ds: Vec<NodeId> = Vec::new();
    let mut i: usize = 0;
    proof {
        assert(with_copies(s0.nodes, ds@) =~= s0.nodes);
        assert(s0.links + output_reads(outs@.take(0), ds@) =~= s0.links);
        assert(graph@ == outputs_copied(s0, outs@.take(0), ds@));
    }
    while i < outs.len()
        invariant
            i <= outs.len(),
            graph.wf(),
            s0.nodes.dom().finite(),
            forall|k: int| 0 <= k < outs.len() ==> s0.nodes.contains_key((#[trigger] outs[k]).0),
            s0.nodes.dom().len() + outs.len() <= u32::MAX,
            s0.links.len() + outs.len() <= u32::MAX,
            ds@.len() == i,
            fresh(s0.nodes, ds@),
            graph@ == outputs_copied(s0, outs@.take(i as int), ds@),
            graph@.nodes == with_copies(s0.nodes, ds@),
            graph@.links == s0.links + output_reads(outs@.take(i as int), ds@),
            graph@.nodes.dom().len() == s0.nodes.dom().len() + i,
        decreases outs.len() - i,
    {
        let ghost before = ds@;
        let ghost some = outs@.take(i as int);
        let ghost mid = GraphState {
            nodes: with_copies(s0.nodes, before),
            links: s0.links + output_reads(some, before),
            ..s0
        };
        let n = outs[i].0;
        assert(graph@.links.len() == s0.links.len() + i);
        let d = graph.add_op(Op::MetalCopyFromDevice(MetalCopyFromDevice));
        graph.add_edge(
            n,
            d,
            Dependency::Data { input_order: 0, output_order: 0, shape: share(&outs[i].1) },
        );
        move_references(
            &mut graph.id_remap,
            &mut graph.no_delete,
            &mut graph.to_retrieve,
            n,
            d,
        );
        ds.push(d);
        proof {
            let more = outs@.take(i + 1);
            assert(more =~= some.push(outs@[i as int]));
            lemma_with_copies_push(s0.nodes, before, d);
            assert(s0.links + output_reads(more, ds@) =~= (s0.links + output_reads(
                some,
                before,
            )).push(Link { source: n, target: d, weight: copy_input(outs@[i as int].1) }));
            let next = GraphState {
                nodes: with_copies(s0.nodes, ds@),
                links: s0.links + output_reads(more, ds@),
                ..s0
            };
            assert(names(more).drop_last() =~= names(some));
            assert(ds@.drop_last() =~= before);
            assert(names(more).last() == n);
            lemma_references_frame(mid, s0, names(some), before);
            lemma_references_frame(next, s0, names(some), before);
        }
        i = i + 1;
    }
    proof {
        assert(outs@.take(outs@.len() as int) =~= outs@);
    }
    ds
}

} // verus!
