//! The nodes that copy tensors between host and device.
use crate::graph::{directed, inputs, meets, Dependency, Direction, Link, NodeId};
use crate::ops::{MetalCopyFromDevice, Op};
use crate::seqs::{lemma_filter_congruent, lemma_filter_filter, lemma_filter_reverse};
use crate::shape::ShapeTracker;
use crate::tally::tally;
use std::rc::Rc;
use vstd::prelude::*;

verus! {

/// The first input of a copy, under the view `shape`.
pub open spec fn copy_input(shape: Rc<ShapeTracker>) -> Dependency {
    Dependency::Data { input_order: 0, output_order: 0, shape }
}

/// Names that no node has, each once.
pub open spec fn fresh(nodes: Map<NodeId, Op>, ds: Seq<NodeId>) -> bool {
    &&& ds.no_duplicates()
    &&& forall|i: int| 0 <= i < ds.len() ==> !nodes.contains_key(#[trigger] ds[i])
}

/// The operators once copies from the device stand under the names `ds`.
pub open spec fn with_copies(nodes: Map<NodeId, Op>, ds: Seq<NodeId>) -> Map<NodeId, Op> {
    Map::new(
        |n: NodeId| nodes.contains_key(n) || ds.contains(n),
        |n: NodeId|
            if ds.contains(n) {
                Op::MetalCopyFromDevice(MetalCopyFromDevice)
            } else {
                nodes[n]
            },
    )
}

/// One more copy is one more node.
pub proof fn lemma_with_copies_push(nodes: Map<NodeId, Op>, ds: Seq<NodeId>, d: NodeId)
    requires
        fresh(nodes, ds),
        !with_copies(nodes, ds).contains_key(d),
    ensures
        fresh(nodes, ds.push(d)),
        with_copies(nodes, ds.push(d)) == with_copies(nodes, ds).insert(
            d,
            Op::MetalCopyFromDevice(MetalCopyFromDevice),
        ),
{
    let next = ds.push(d);
    assert forall|n: NodeId| next.contains(n) == (ds.contains(n) || n == d) by {
        if ds.contains(n) {
            let k = choose|k: int| 0 <= k < ds.len() && ds[k] == n;
            assert(next[k] == n);
        }
        if n == d {
            assert(next[ds.len() as int] == n);
        }
    }
    assert(with_copies(nodes, next) =~= with_copies(nodes, ds).insert(
        d,
        Op::MetalCopyFromDevice(MetalCopyFromDevice),
    ));
}

/// The number of links into `n` is their tally.
pub proof fn lemma_incoming_tally(
    links: Seq<Link>,
    n: NodeId,
    p: spec_fn(NodeId, Dependency) -> bool,
)
    requires
        forall|t: NodeId, w: Dependency| #[trigger] p(t, w) == (t == n),
    ensures
        directed(links, n, Direction::Incoming).len() == tally(links, p),
{
    lemma_filter_congruent(
        links,
        |l: Link| meets(l, n, Direction::Incoming),
        |l: Link| p(l.target, l.weight),
    );
}

/// Copies add to the number of nodes.
pub proof fn lemma_with_copies_len(nodes: Map<NodeId, Op>, ds: Seq<NodeId>)
    requires
        nodes.dom().finite(),
        fresh(nodes, ds),
    ensures
        with_copies(nodes, ds).dom().finite(),
        with_copies(nodes, ds).dom().len() == nodes.dom().len() + ds.len(),
    decreases ds.len(),
{
    if ds.len() == 0 {
        assert(with_copies(nodes, ds) =~= nodes);
    } else {
        let r = ds.drop_last();
        let d = ds.last();
        assert(r.push(d) =~= ds);
        assert forall|i: int| 0 <= i < r.len() implies !nodes.contains_key(#[trigger] r[i]) by {
            assert(ds[i] == r[i]);
        }
        lemma_with_copies_len(nodes, r);
        assert(!r.contains(d)) by {
            if r.contains(d) {
                let k = choose|k: int| 0 <= k < r.len() && r[k] == d;
                assert(ds[k] == ds[ds.len() - 1]);
            }
        }
        assert(!nodes.contains_key(ds[ds.len() - 1]));
        lemma_with_copies_push(nodes, r, d);
    }
}

/// Only links into nodes satisfy `p`.
pub open spec fn within(
    p: spec_fn(NodeId, Dependency) -> bool,
    nodes: Map<NodeId, Op>,
) -> bool {
    forall|t: NodeId, w: Dependency| #[trigger] p(t, w) ==> nodes.contains_key(t)
}

/// What inserting copies keeps of the nodes: each holds what it held, and each new one copies.
pub open spec fn only_copies_added(pre: Map<NodeId, Op>, post: Map<NodeId, Op>) -> bool {
    &&& forall|n: NodeId| #[trigger]
        pre.contains_key(n) ==> post.contains_key(n) && post[n] == pre[n]
    &&& forall|n: NodeId| #[trigger]
        post.contains_key(n) && !pre.contains_key(n) ==> post[n] is MetalCopyToDevice
            || post[n] is MetalCopyFromDevice
}

/// Copies added to copies added are copies added.
pub proof fn lemma_copies_added_trans(
    a: Map<NodeId, Op>,
    b: Map<NodeId, Op>,
    c: Map<NodeId, Op>,
)
    requires
        only_copies_added(a, b),
        only_copies_added(b, c),
    ensures
        only_copies_added(a, c),
{
    assert forall|n: NodeId| #[trigger] a.contains_key(n) implies c.contains_key(n) && c[n]
        == a[n] by {
        assert(b.contains_key(n));
    }
    assert forall|n: NodeId| #[trigger]
        c.contains_key(n) && !a.contains_key(n) implies c[n] is MetalCopyToDevice
        || c[n] is MetalCopyFromDevice by {
        if b.contains_key(n) {
            assert(b.contains_key(n) && !a.contains_key(n));
        }
    }
}

/// A link that carries a tensor to `n`.
pub open spec fn reads_tensor(n: NodeId) -> spec_fn(NodeId, Dependency) -> bool {
    |t: NodeId, w: Dependency| t == n && w is Data
}

/// The number of tensors that a node reads is the tally of the links that carry them.
pub proof fn lemma_inputs_tally(links: Seq<Link>, n: NodeId)
    ensures
        inputs(links, n).len() == tally(links, reads_tensor(n)),
{
    let q = |l: Link| meets(l, n, Direction::Incoming);
    let d = |l: Link| l.weight is Data;
    let s = links.filter(q);
    lemma_filter_reverse(s, d);
    lemma_filter_filter(links, q, d);
    lemma_filter_congruent(
        links,
        |l: Link| q(l) && d(l),
        |l: Link| reads_tensor(n)(l.target, l.weight),
    );
}

} // verus!
