//! What the nodes of a graph hand out when it runs, for any meaning of the operators.
use crate::flow::{flows_in, hop, is_copy, reads_first};
use crate::graph::{inputs, meets, Direction, GraphState, Input, Link, NodeId};
use crate::kernel::KernelText;
use crate::lower::{at_place, in_order_below, lowered, views};
use crate::ops::Op;
use crate::places::{lemma_place_links, place_links, reads_place};
use crate::seqs::{
    lemma_filter_congruent, lemma_filter_contains, lemma_filter_filter, lemma_filter_push,
};
use crate::shape::ShapeTracker;
use std::rc::Rc;
use vstd::prelude::*;

verus! {

/// What a node with an operator hands out when it reads these tensors, each under its view, by
/// place among its inputs.
pub type Meaning<V> = spec_fn(NodeId, Op, Seq<(Rc<ShapeTracker>, V)>) -> Seq<V>;

/// What every node hands out.
pub type Outcome<V> = spec_fn(NodeId) -> Seq<V>;

/// What a link carries, where the nodes hand out `v`: a tensor under its view.
pub open spec fn carried<V>(v: Outcome<V>) -> spec_fn(Link) -> (Rc<ShapeTracker>, V) {
    |l: Link| (l.weight->shape, v(l.source)[l.weight->output_order as int])
}

/// The tensors that `n` reads at its first `k` places, where the nodes hand out `v`.
pub open spec fn reads_below<V>(
    links: Seq<Link>,
    n: NodeId,
    v: Outcome<V>,
    k: nat,
) -> Seq<(Rc<ShapeTracker>, V)>
    decreases k,
{
    if k == 0 {
        Seq::empty()
    } else {
        reads_below(links, n, v, (k - 1) as nat) + place_links(
            links,
            n,
            (k - 1) as u8,
        ).map_values(carried(v))
    }
}

/// The tensors that `n` reads, by place, where the nodes hand out `v`.
pub open spec fn reads<V>(links: Seq<Link>, n: NodeId, v: Outcome<V>) -> Seq<
    (Rc<ShapeTracker>, V),
> {
    reads_below(links, n, v, 256)
}

/// What the nodes hand out after at most `k` rounds in which every node runs.
pub open spec fn run_for<V>(s: GraphState, m: Meaning<V>, k: nat) -> Outcome<V>
    decreases k,
{
    if k == 0 {
        |n: NodeId| m(n, s.nodes[n], Seq::empty())
    } else {
        let before = run_for(s, m, (k - 1) as nat);
        |n: NodeId| m(n, s.nodes[n], reads(s.links, n, before))
    }
}

/// Every link leads to a node of higher rank.
pub open spec fn ranked(s: GraphState, rank: spec_fn(NodeId) -> nat) -> bool {
    forall|l: Link| #[trigger] s.links.contains(l) ==> rank(l.source) < rank(l.target)
}

/// No node reads, through others, itself.
pub open spec fn acyclic(s: GraphState) -> bool {
    exists|rank: spec_fn(NodeId) -> nat| ranked(s, rank)
}

/// What the nodes of an acyclic graph hand out when it runs.
pub open spec fn outcome<V>(s: GraphState, m: Meaning<V>) -> Outcome<V> {
    let rank = choose|rank: spec_fn(NodeId) -> nat| ranked(s, rank);
    |n: NodeId| run_for(s, m, rank(n) + 1)(n)
}

/// Every node hands out what its operator makes of what it reads.
pub open spec fn settled<V>(s: GraphState, m: Meaning<V>, v: Outcome<V>) -> bool {
    forall|n: NodeId| #[trigger]
        s.nodes.contains_key(n) ==> v(n) == m(n, s.nodes[n], reads(s.links, n, v))
}

/// A link of a place is one of the links, and leads to the node.
pub proof fn lemma_place_link(links: Seq<Link>, n: NodeId, k: u8, l: Link)
    ensures
        place_links(links, n, k).contains(l) <==> links.contains(l) && reads_place(n, k)(
            l.target,
            l.weight,
        ),
{
    let r = |l: Link| reads_place(n, k)(l.target, l.weight);
    let s = links.filter(r);
    lemma_filter_contains(links, r, l);
    if s.contains(l) {
        let i = choose|i: int| 0 <= i < s.len() && s[i] == l;
        assert(s.reverse()[s.len() - 1 - i] == l);
    }
    if s.reverse().contains(l) {
        let i = choose|i: int| 0 <= i < s.len() && s.reverse()[i] == l;
        assert(s[s.len() - 1 - i] == l);
    }
}

/// A node reads the same where all that it reads hands out the same.
proof fn lemma_reads_same<V>(
    links: Seq<Link>,
    n: NodeId,
    v: Outcome<V>,
    w: Outcome<V>,
    k: nat,
)
    requires
        k <= 256,
        forall|l: Link| #[trigger] links.contains(l) && l.target == n ==> v(l.source) == w(l.source),
    ensures
        reads_below(links, n, v, k) == reads_below(links, n, w, k),
    decreases k,
{
    if k > 0 {
        let j = (k - 1) as u8;
        lemma_reads_same(links, n, v, w, (k - 1) as nat);
        let p = place_links(links, n, j);
        assert forall|i: int| 0 <= i < p.len() implies #[trigger] carried(v)(p[i]) == carried(w)(
            p[i],
        ) by {
            assert(p.contains(p[i]));
            lemma_place_link(links, n, j, p[i]);
        }
        assert(p.map_values(carried(v)) =~= p.map_values(carried(w)));
    }
}

/// A node hands out the same after any number of rounds above its rank.
proof fn lemma_run_stable<V>(
    s: GraphState,
    m: Meaning<V>,
    rank: spec_fn(NodeId) -> nat,
    n: NodeId,
    j: nat,
    k: nat,
)
    requires
        ranked(s, rank),
        j > rank(n),
        k > rank(n),
    ensures
        run_for(s, m, j)(n) == run_for(s, m, k)(n),
    decreases rank(n),
{
    let v = run_for(s, m, (j - 1) as nat);
    let w = run_for(s, m, (k - 1) as nat);
    assert forall|l: Link| #[trigger] s.links.contains(l) && l.target == n implies v(l.source)
        == w(l.source) by {
        lemma_run_stable(s, m, rank, l.source, (j - 1) as nat, (k - 1) as nat);
    }
    lemma_reads_same(s.links, n, v, w, 256);
}

/// When an acyclic graph has run, every node has handed out what its operator makes of what it
/// reads.
pub proof fn lemma_outcome_settled<V>(s: GraphState, m: Meaning<V>)
    requires
        acyclic(s),
    ensures
        settled(s, m, outcome(s, m)),
{
    let rank = choose|rank: spec_fn(NodeId) -> nat| ranked(s, rank);
    let v = outcome(s, m);
    assert forall|n: NodeId| #[trigger] s.nodes.contains_key(n) implies v(n) == m(
        n,
        s.nodes[n],
        reads(s.links, n, v),
    ) by {
        let w = run_for(s, m, rank(n));
        assert forall|l: Link| #[trigger] s.links.contains(l) && l.target == n implies w(l.source)
            == v(l.source) by {
            lemma_run_stable(s, m, rank, l.source, rank(n), rank(l.source) + 1);
        }
        lemma_reads_same(s.links, n, w, v, 256);
    }
}

/// The views under which a node reads are those of the tensors that it reads.
pub proof fn lemma_reads_views<V>(links: Seq<Link>, n: NodeId, v: Outcome<V>, k: nat)
    requires
        k <= 256,
    ensures
        reads_below(links, n, v, k).map_values(|r: (Rc<ShapeTracker>, V)| r.0) == in_order_below(
            inputs(links, n),
            k,
        ).map_values(|t: Input| t.2),
    decreases k,
{
    let f = |r: (Rc<ShapeTracker>, V)| r.0;
    let g = |t: Input| t.2;
    if k == 0 {
        assert(Seq::<(Rc<ShapeTracker>, V)>::empty().map_values(f) =~= Seq::<Input>::empty().map_values(
            g,
        ));
    } else {
        let j = (k - 1) as u8;
        lemma_reads_views(links, n, v, (k - 1) as nat);
        lemma_place_links(links, n, j);
        let p = place_links(links, n, j);
        let a = p.map_values(carried(v));
        let b = at_place(inputs(links, n), j);
        assert(a.map_values(f) =~= b.map_values(g));
        let x = reads_below(links, n, v, (k - 1) as nat);
        let y = in_order_below(inputs(links, n), (k - 1) as nat);
        assert((x + a).map_values(f) =~= x.map_values(f) + a.map_values(f));
        assert((y + b).map_values(g) =~= y.map_values(g) + b.map_values(g));
    }
}

/// What a copy reads at its first `k` places is what its one link carries, if its place is among
/// them.
proof fn lemma_copy_reads<V>(s: GraphState, x: NodeId, y: NodeId, l: Link, v: Outcome<V>, k: nat)
    requires
        k <= 256,
        hop(s, x, y),
        s.links.contains(l),
        reads_first(l, x, y),
    ensures
        reads_below(s.links, y, v, k) == if l.weight->input_order < k {
            seq![carried(v)(l)]
        } else {
            Seq::empty()
        },
    decreases k,
{
    if k > 0 {
        let j = (k - 1) as u8;
        lemma_copy_reads(s, x, y, l, v, (k - 1) as nat);
        let q = |l: Link| meets(l, y, Direction::Incoming);
        let r = |l: Link| reads_place(y, j)(l.target, l.weight);
        let t = s.links.filter(q);
        lemma_filter_contains(s.links, q, l);
        assert(t.len() == 1 && t.contains(l));
        assert(t =~= Seq::empty().push(l));
        lemma_filter_filter(s.links, q, r);
        lemma_filter_congruent(s.links, |l: Link| q(l) && r(l), r);
        lemma_filter_push(Seq::<Link>::empty(), l, r);
        assert(Seq::<Link>::empty().filter(r) =~= Seq::<Link>::empty()) by {
            reveal(Seq::filter);
        }
        let p = place_links(s.links, y, j);
        if l.weight->input_order == j {
            assert(p =~= seq![l]);
            assert(p.map_values(carried(v)) =~= seq![carried(v)(l)]);
        } else {
            assert(p =~= Seq::<Link>::empty());
            assert(p.map_values(carried(v)) =~= Seq::empty());
        }
    }
}

/// Copies hand out the tensor that they read; prints hand out the same whatever they read; and
/// where a Metal operator takes the place of a primitive one, it hands out the same.
pub open spec fn faithful<V>(m: Meaning<V>, kernels: Seq<KernelText>) -> bool {
    &&& forall|n: NodeId, op: Op, r: Seq<(Rc<ShapeTracker>, V)>|
        is_copy(op) && r.len() == 1 ==> #[trigger] m(n, op, r) == seq![r[0].1]
    &&& forall|n: NodeId, q: Seq<(Rc<ShapeTracker>, V)>, r: Seq<(Rc<ShapeTracker>, V)>|
        #[trigger] m(n, Op::Print, q) == #[trigger] m(n, Op::Print, r)
    &&& forall|n: NodeId, op: Op, metal: Op, r: Seq<(Rc<ShapeTracker>, V)>|
        lowered(op, r.map_values(|x: (Rc<ShapeTracker>, V)| x.0), kernels, metal)
            ==> #[trigger] m(n, metal, r) == #[trigger] m(n, op, r)
}

/// What reaches a node through copies is what it hands out.
pub proof fn lemma_flow_value<V>(
    s: GraphState,
    m: Meaning<V>,
    kernels: Seq<KernelText>,
    v: Outcome<V>,
    x: NodeId,
    y: NodeId,
    k: nat,
)
    requires
        faithful(m, kernels),
        settled(s, m, v),
        flows_in(s, x, y, k),
    ensures
        v(y)[0] == v(x)[0],
    decreases k,
{
    if k > 0 {
        let z = choose|z: NodeId| flows_in(s, x, z, (k - 1) as nat) && #[trigger] hop(s, z, y);
        lemma_flow_value(s, m, kernels, v, x, z, (k - 1) as nat);
        let l = choose|l: Link| #[trigger] s.links.contains(l) && reads_first(l, z, y);
        lemma_copy_reads(s, z, y, l, v, 256);
        assert(s.nodes.contains_key(y));
        let r = reads(s.links, y, v);
        assert(r == seq![carried(v)(l)]);
        assert(v(y) == m(y, s.nodes[y], r));
        assert(m(y, s.nodes[y], r) == seq![r[0].1]);
    }
}

} // verus!
