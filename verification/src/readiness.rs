//! Tests whether a graph can be compiled.
use crate::functions::{copies_of, copies_of_all, function_copies, functions, lemma_function_copies};
use crate::graph::{inputs, lemma_directed_edges_len, lists, Direction, Graph, GraphState, NodeId};
use crate::lower::{arity, readable};
use crate::ops::{Kind, Op, Output};
use crate::outputs::{members, outputs, retrievable};
use crate::primitive::{copies, float_outputs, printable, ready};
use crate::prints::prints;
use vstd::prelude::*;

verus! {

/// The number of tensors that an operator has to read for its kernel.
fn arity_of(op: &Op) -> (n: usize)
    ensures
        n == arity(*op),
{
    match op {
        Op::Add | Op::Mul | Op::LessThan | Op::Mod => 2,
        Op::SumReduce(_) | Op::MaxReduce(_) | Op::Contiguous => 1,
        _ => 0,
    }
}

/// Tests whether every node reads as many tensors as its operator has to.
fn can_read(graph: &Graph, ids: &Vec<NodeId>) -> (res: bool)
    requires
        graph.wf(),
        lists(ids@, graph@.nodes.dom()),
    ensures
        res == readable(graph@),
{
    let mut i: usize = 0;
    while i < ids.len()
        invariant
            i <= ids.len(),
            graph.wf(),
            lists(ids@, graph@.nodes.dom()),
            forall|k: int|
                0 <= k < i ==> inputs(graph@.links, #[trigger] ids@[k]).len() >= arity(
                    graph@.nodes[ids@[k]],
                ),
        decreases ids.len() - i,
    {
        let n = ids[i];
        assert(ids@.contains(n));
        let needed = match graph.node_weight(n) {
            Some(op) => arity_of(op),
            None => 0,
        };
        if graph.inputs(n).len() < needed {
            assert(graph@.nodes.contains_key(n));
            return false;
        }
        i = i + 1;
    }
    assert forall|n: NodeId| #[trigger] graph@.nodes.contains_key(n) implies inputs(
        graph@.links,
        n,
    ).len() >= arity(graph@.nodes[n]) by {
        assert(ids@.contains(n));
        let k = choose|k: int| 0 <= k < ids@.len() && ids@[k] == n;
        assert(inputs(graph@.links, ids@[k]).len() >= arity(graph@.nodes[ids@[k]]));
    }
    true
}

/// Tests whether every print reads a tensor.
fn can_print(graph: &Graph, ps: &Vec<NodeId>) -> (res: bool)
    requires
        graph.wf(),
        lists(ps@, prints(graph@.nodes)),
    ensures
        res == printable(graph@),
{
    let mut i: usize = 0;
    while i < ps.len()
        invariant
            i <= ps.len(),
            graph.wf(),
            lists(ps@, prints(graph@.nodes)),
            forall|k: int| 0 <= k < i ==> inputs(graph@.links, #[trigger] ps@[k]).len() > 0,
        decreases ps.len() - i,
    {
        if graph.inputs(ps[i]).len() == 0 {
            assert(ps@.contains(ps@[i as int]));
            assert(prints(graph@.nodes).contains(ps@[i as int]));
            return false;
        }
        i = i + 1;
    }
    assert forall|p: NodeId| #[trigger] prints(graph@.nodes).contains(p) implies inputs(
        graph@.links,
        p,
    ).len() > 0 by {
        assert(ps@.contains(p));
        let k = choose|k: int| 0 <= k < ps@.len() && ps@[k] == p;
        assert(inputs(graph@.links, ps@[k]).len() > 0);
    }
    true
}

/// The nodes among `ns` that are retrieved through copies.
spec fn copied_of(s: GraphState, ns: Seq<NodeId>) -> Set<NodeId> {
    Set::new(|n: NodeId| ns.contains(n) && s.nodes[n] != Op::Function(Output::Other))
}

/// One more node is one more, where it is retrieved through a copy.
proof fn lemma_copied_push(s: GraphState, ns: Seq<NodeId>, n: NodeId)
    requires
        copied_of(s, ns).finite(),
        !ns.contains(n),
    ensures
        copied_of(s, ns.push(n)).finite(),
        copied_of(s, ns.push(n)).len() == copied_of(s, ns).len() + if s.nodes[n] != Op::Function(
            Output::Other,
        ) {
            1nat
        } else {
            0nat
        },
{
    let next = ns.push(n);
    assert forall|x: NodeId| next.contains(x) == (ns.contains(x) || x == n) by {
        if ns.contains(x) {
            let k = choose|k: int| 0 <= k < ns.len() && ns[k] == x;
            assert(next[k] == x);
        }
        if x == n {
            assert(next[ns.len() as int] == x);
        }
    }
    if s.nodes[n] != Op::Function(Output::Other) {
        assert(copied_of(s, next) =~= copied_of(s, ns).insert(n));
    } else {
        assert(copied_of(s, next) =~= copied_of(s, ns));
    }
}

/// The number of copies that what is retrieved takes, if all of it can be retrieved.
fn retrieved_copies(graph: &Graph) -> (res: Option<usize>)
    requires
        graph.wf(),
    ensures
        match res {
            Some(n) => retrievable(graph@) && n == outputs(graph@).len() + float_outputs(
                graph@,
            ).len(),
            None => !retrievable(graph@),
        },
{
    let all = members(&graph.to_retrieve);
    let mut count: usize = 0;
    let mut i: usize = 0;
    let ghost s = graph@;
    proof {
        assert(copied_of(s, all@.take(0)) =~= Set::<NodeId>::empty());
    }
    while i < all.len()
        invariant
            i <= all.len(),
            graph.wf(),
            s == graph@,
            all@.no_duplicates(),
            all@.to_set() == s.to_retrieve,
            copied_of(s, all@.take(i as int)).finite(),
            count == copied_of(s, all@.take(i as int)).len(),
            count <= i,
            forall|k: int|
                0 <= k < i ==> s.nodes.contains_key(#[trigger] all@[k]) && (
                s.nodes[all@[k]] is Function || inputs(s.links, all@[k]).len() > 0),
        decreases all.len() - i,
    {
        let n = all[i];
        proof {
            assert(all@.contains(n));
            assert(s.to_retrieve.contains(n));
            assert(!all@.take(i as int).contains(n)) by {
                if all@.take(i as int).contains(n) {
                    let k = choose|k: int| 0 <= k < i && all@.take(i as int)[k] == n;
                    assert(all@[k] == all@[i as int]);
                }
            }
            assert(all@.take(i + 1) =~= all@.take(i as int).push(n));
            lemma_copied_push(s, all@.take(i as int), n);
        }
        match graph.node_weight(n) {
            Some(op) => match op {
                Op::Function(Output::Other) => {},
                Op::Function(Output::Floats) => {
                    count = count + 1;
                },
                _ => {
                    if graph.inputs(n).len() == 0 {
                        return None;
                    }
                    count = count + 1;
                },
            },
            None => {
                return None;
            },
        }
        i = i + 1;
    }
    proof {
        assert(all@.take(all@.len() as int) =~= all@);
        assert forall|n: NodeId| #[trigger] s.to_retrieve.contains(n) implies s.nodes.contains_key(n)
            && (s.nodes[n] is Function || inputs(s.links, n).len() > 0) by {
            assert(all@.to_set().contains(n));
            let k = choose|k: int| 0 <= k < all@.len() && all@[k] == n;
            assert(s.nodes.contains_key(all@[k]));
        }
        let both = copied_of(s, all@);
        assert forall|n: NodeId| all@.contains(n) == s.to_retrieve.contains(n) by {
            assert(all@.to_set().contains(n) == all@.contains(n));
        }
        assert(both =~= outputs(s).union(float_outputs(s)));
        assert(outputs(s).subset_of(both) && float_outputs(s).subset_of(both));
        vstd::set_lib::lemma_len_subset(outputs(s), both);
        vstd::set_lib::lemma_len_subset(float_outputs(s), both);
        assert(outputs(s).disjoint(float_outputs(s)));
        vstd::set_lib::lemma_set_disjoint_lens(outputs(s), float_outputs(s));
    }
    Some(count)
}

/// The number of copies that the functions take, if it fits 32 bits.
fn functions_copies(graph: &Graph, fs: &Vec<NodeId>) -> (res: Option<u32>)
    requires
        graph.wf(),
        lists(fs@, functions(graph@.nodes)),
    ensures
        match res {
            Some(n) => n == function_copies(graph@),
            None => function_copies(graph@) > u32::MAX,
        },
{
    let mut count: u32 = 0;
    let mut i: usize = 0;
    let ghost s = graph@;
    proof {
        lemma_function_copies(s, fs@);
        assert(fs@.skip(0) =~= fs@);
    }
    while i < fs.len()
        invariant
            i <= fs.len(),
            graph.wf(),
            s == graph@,
            lists(fs@, functions(s.nodes)),
            count + copies_of_all(s, fs@.skip(i as int)) == function_copies(s),
        decreases fs.len() - i,
    {
        let f = fs[i];
        proof {
            assert(fs@.contains(f));
            assert(fs@.skip(i as int)[0] == f);
            assert(fs@.skip(i as int).drop_first() =~= fs@.skip(i + 1));
            lemma_directed_edges_len(*graph, f, Direction::Incoming);
        }
        let incoming = graph.edges_directed(f, Direction::Incoming).len();
        let floats: u128 = match graph.node_weight(f) {
            Some(Op::Function(Output::Floats)) => 1,
            _ => 0,
        };
        assert(incoming + floats == copies_of(s, f));
        let next: u128 = count as u128 + incoming as u128 + floats;
        if next > u32::MAX as u128 {
            return None;
        }
        count = next as u32;
        i = i + 1;
    }
    Some(count)
}

/// Tests whether a graph can be compiled.
pub fn can_compile(graph: &Graph) -> (res: bool)
    requires
        graph.wf(),
    ensures
        res == ready(graph@),
{
    let ids = graph.node_indices();
    let ps = graph.nodes_of(Kind::Print);
    let fs = graph.nodes_of(Kind::Function);
    if !can_read(graph, &ids) || !can_print(graph, &ps) {
        return false;
    }
    let retrieved = match retrieved_copies(graph) {
        Some(n) => n,
        None => {
            return false;
        },
    };
    proof {
        assert(ids@.no_duplicates());
        ids@.unique_seq_to_set();
        assert(ids@.to_set() =~= graph@.nodes.dom());
        assert(ps@.no_duplicates());
        ps@.unique_seq_to_set();
        assert(ps@.to_set() =~= prints(graph@.nodes));
    }
    match functions_copies(graph, &fs) {
        Some(n) => {
            let total: u128 = n as u128 + retrieved as u128 + ps.len() as u128;
            ids.len() as u128 + total <= u32::MAX as u128 && graph.edge_count() as u128 + total
                < u32::MAX as u128
        },
        None => false,
    }
}

} // verus!
