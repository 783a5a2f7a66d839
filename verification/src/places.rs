//! The tensors that a node reads by their places among its inputs.
use crate::copies::within;
use crate::frame::{blind, keeps};
use crate::graph::{inputs, meets, Dependency, Direction, GraphState, Input, Link, NodeId};
use crate::lower::{at_place, has_place, in_order_below, lemma_at_place_push};
use crate::seqs::{
    lemma_filter_congruent, lemma_filter_contains, lemma_filter_filter, lemma_filter_map,
    lemma_filter_reverse,
};
use crate::tally::tally;
use vstd::prelude::*;

verus! {

/// Every tensor has a place of its own.
pub open spec fn distinct_places(tensors: Seq<Input>) -> bool {
    forall|i: int, j: int| 0 <= i < j < tensors.len() ==> (#[trigger] tensors[i]).0 != (
    #[trigger] tensors[j]).0
}

/// A link that carries a tensor to `n` as its input of place `k`.
pub open spec fn reads_place(n: NodeId, k: u8) -> spec_fn(NodeId, Dependency) -> bool {
    |t: NodeId, w: Dependency| t == n && w is Data && w->input_order == k
}

/// The links that carry a tensor to `n` as its input of place `k`, the latest first.
pub open spec fn place_links(links: Seq<Link>, n: NodeId, k: u8) -> Seq<Link> {
    links.filter(|l: Link| reads_place(n, k)(l.target, l.weight)).reverse()
}

/// The tensors of one place are those that the links of that place carry.
pub proof fn lemma_place_links(links: Seq<Link>, n: NodeId, k: u8)
    ensures
        at_place(inputs(links, n), k) == place_links(links, n, k).map_values(
            |l: Link| (l.weight->input_order, l.weight->output_order, l.weight->shape),
        ),
{
    let f = |l: Link| (l.weight->input_order, l.weight->output_order, l.weight->shape);
    let q = |l: Link| meets(l, n, Direction::Incoming);
    let d = |l: Link| l.weight is Data;
    let r = |l: Link| reads_place(n, k)(l.target, l.weight);
    let hp = has_place(k);
    let at = |l: Link| hp(f(l));
    let s = links.filter(q);
    let t = s.filter(d);
    lemma_filter_reverse(s, d);
    assert(inputs(links, n) == t.reverse().map_values(f));
    lemma_filter_map(t.reverse(), f, hp);
    assert(at_place(inputs(links, n), k) == t.reverse().filter(at).map_values(f));
    lemma_filter_reverse(t, at);
    lemma_filter_filter(s, d, at);
    let both = |l: Link| d(l) && at(l);
    assert(t.filter(at) == s.filter(both));
    lemma_filter_filter(links, q, both);
    lemma_filter_congruent(links, |l: Link| q(l) && both(l), r);
    assert(s.filter(both) == links.filter(r));
}

/// A tensor with a place of its own stays the one of that place.
pub proof fn lemma_place_kept(pre: GraphState, post: GraphState, n: NodeId, k: u8)
    requires
        keeps(pre, post),
        pre.nodes.contains_key(n),
        !(pre.nodes[n] is Print),
        distinct_places(inputs(pre.links, n)),
    ensures
        at_place(inputs(post.links, n), k) == at_place(inputs(pre.links, n), k),
{
    let f = |l: Link| (l.weight->input_order, l.weight->output_order, l.weight->shape);
    let p = reads_place(n, k);
    let r = |l: Link| p(l.target, l.weight);
    let a = pre.links.filter(r);
    let b = post.links.filter(r);
    lemma_place_links(pre.links, n, k);
    lemma_place_links(post.links, n, k);
    assert(within(p, pre.nodes));
    assert(blind(p, pre.nodes));
    assert(a.len() == b.len());
    lemma_distinct_place(inputs(pre.links, n), k);
    if a.len() == 0 {
        assert(a =~= b);
    } else {
        let x = a[0];
        assert(a.contains(x));
        lemma_filter_contains(pre.links, r, x);
        let w = x.weight;
        let q = |t: NodeId, v: Dependency| t == n && v == w;
        let s = |l: Link| q(l.target, l.weight);
        assert(within(q, pre.nodes));
        assert(blind(q, pre.nodes));
        lemma_filter_contains(pre.links, s, x);
        assert(pre.links.filter(s).contains(x));
        assert(tally(post.links, q) > 0);
        let y = post.links.filter(s)[0];
        assert(post.links.filter(s).contains(y));
        lemma_filter_contains(post.links, s, y);
        lemma_filter_contains(post.links, r, y);
        assert(b.contains(y));
        assert(b[0] == y);
        assert(a.reverse().map_values(f) =~= seq![f(x)]);
        assert(b.reverse().map_values(f) =~= seq![f(y)]);
    }
}

/// Where every tensor has a place of its own, no place has two.
pub proof fn lemma_distinct_place(tensors: Seq<Input>, k: u8)
    requires
        distinct_places(tensors),
    ensures
        at_place(tensors, k).len() <= 1,
    decreases tensors.len(),
{
    if tensors.len() == 0 {
        reveal(Seq::filter);
    } else {
        let r = tensors.drop_last();
        let x = tensors.last();
        assert(r.push(x) =~= tensors);
        lemma_distinct_place(r, k);
        lemma_at_place_push(r, x, k);
        if x.0 == k && at_place(r, k).len() > 0 {
            let y = at_place(r, k)[0];
            assert(at_place(r, k).contains(y));
            lemma_filter_contains(r, has_place(k), y);
            let i = choose|i: int| 0 <= i < r.len() && r[i] == y;
            assert(tensors[i].0 != tensors[tensors.len() - 1].0);
        }
    }
}

/// Tensors that agree at every place come in the same order.
pub proof fn lemma_in_order_same(a: Seq<Input>, b: Seq<Input>, k: nat)
    requires
        forall|j: u8| #[trigger] at_place(a, j) == at_place(b, j),
    ensures
        in_order_below(a, k) == in_order_below(b, k),
    decreases k,
{
    if k > 0 {
        lemma_in_order_same(a, b, (k - 1) as nat);
        assert(at_place(a, (k - 1) as u8) == at_place(b, (k - 1) as u8));
    }
}

} // verus!
