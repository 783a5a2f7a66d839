//! Counting links by what they carry to whom.
use crate::graph::{Dependency, Link, NodeId};
use crate::seqs::{lemma_filter_congruent, lemma_filter_push, lemma_filter_reverse};
use vstd::prelude::*;

verus! {

/// The number of links whose target and weight satisfy `p`.
pub open spec fn tally(links: Seq<Link>, p: spec_fn(NodeId, Dependency) -> bool) -> nat {
    links.filter(|l: Link| p(l.target, l.weight)).len()
}

pub proof fn lemma_tally_push(links: Seq<Link>, x: Link, p: spec_fn(NodeId, Dependency) -> bool)
    ensures
        tally(links.push(x), p) == tally(links, p) + if p(x.target, x.weight) {
            1nat
        } else {
            0nat
        },
{
    lemma_filter_push(links, x, |l: Link| p(l.target, l.weight));
}

pub proof fn lemma_tally_add(
    a: Seq<Link>,
    b: Seq<Link>,
    p: spec_fn(NodeId, Dependency) -> bool,
)
    ensures
        tally(a + b, p) == tally(a, p) + tally(b, p),
{
    Seq::filter_distributes_over_add(a, b, |l: Link| p(l.target, l.weight));
}

pub proof fn lemma_tally_reverse(links: Seq<Link>, p: spec_fn(NodeId, Dependency) -> bool)
    ensures
        tally(links.reverse(), p) == tally(links, p),
{
    lemma_filter_reverse(links, |l: Link| p(l.target, l.weight));
}

/// Links of the same targets and weights count the same.
pub proof fn lemma_tally_same(a: Seq<Link>, b: Seq<Link>, p: spec_fn(NodeId, Dependency) -> bool)
    requires
        a.len() == b.len(),
        forall|i: int|
            0 <= i < a.len() ==> (#[trigger] a[i]).target == b[i].target && a[i].weight
                == b[i].weight,
    ensures
        tally(a, p) == tally(b, p),
    decreases a.len(),
{
    if a.len() > 0 {
        let x = a.drop_last();
        let y = b.drop_last();
        assert forall|i: int| 0 <= i < x.len() implies (#[trigger] x[i]).target == y[i].target
            && x[i].weight == y[i].weight by {
            assert(x[i] == a[i] && y[i] == b[i]);
        }
        lemma_tally_same(x, y, p);
        assert(x.push(a.last()) =~= a);
        assert(y.push(b.last()) =~= b);
        lemma_tally_push(x, a.last(), p);
        lemma_tally_push(y, b.last(), p);
        assert(a[a.len() - 1].target == b[a.len() - 1].target);
    } else {
        assert(a =~= b);
    }
}

/// Any predicate splits a tally in two.
pub proof fn lemma_tally_split(
    links: Seq<Link>,
    q: spec_fn(Link) -> bool,
    p: spec_fn(NodeId, Dependency) -> bool,
)
    ensures
        tally(links.filter(q), p) + tally(links.filter(|l: Link| !q(l)), p) == tally(links, p),
    decreases links.len(),
{
    let r = |l: Link| !q(l);
    if links.len() > 0 {
        let x = links.drop_last();
        let y = links.last();
        lemma_tally_split(x, q, p);
        assert(x.push(y) =~= links);
        lemma_tally_push(x, y, p);
        lemma_filter_push(x, y, q);
        lemma_filter_push(x, y, r);
        lemma_tally_push(x.filter(q), y, p);
        lemma_tally_push(x.filter(r), y, p);
    } else {
        reveal(Seq::filter);
        assert(links.filter(q) =~= links);
        assert(links.filter(r) =~= links);
        assert(links.filter(|l: Link| p(l.target, l.weight)) =~= links);
    }
}

/// Predicates that never hold together add up.
pub proof fn lemma_tally_disjoint(
    links: Seq<Link>,
    p: spec_fn(NodeId, Dependency) -> bool,
    q: spec_fn(NodeId, Dependency) -> bool,
    r: spec_fn(NodeId, Dependency) -> bool,
)
    requires
        forall|t: NodeId, w: Dependency| #[trigger]
            r(t, w) == (p(t, w) || q(t, w)) && !(p(t, w) && q(t, w)),
    ensures
        tally(links, r) == tally(links, p) + tally(links, q),
    decreases links.len(),
{
    if links.len() > 0 {
        let x = links.drop_last();
        let y = links.last();
        lemma_tally_disjoint(x, p, q, r);
        assert(x.push(y) =~= links);
        lemma_tally_push(x, y, p);
        lemma_tally_push(x, y, q);
        lemma_tally_push(x, y, r);
        assert(r(y.target, y.weight) == (p(y.target, y.weight) || q(y.target, y.weight)));
    } else {
        reveal(Seq::filter);
    }
}

/// Where no link satisfies the predicate, the tally is 0.
pub proof fn lemma_tally_none(links: Seq<Link>, p: spec_fn(NodeId, Dependency) -> bool)
    requires
        forall|i: int|
            0 <= i < links.len() ==> !p((#[trigger] links[i]).target, links[i].weight),
    ensures
        tally(links, p) == 0,
    decreases links.len(),
{
    if links.len() > 0 {
        let x = links.drop_last();
        let y = links.last();
        assert forall|i: int| 0 <= i < x.len() implies !p((#[trigger] x[i]).target, x[i].weight) by {
            assert(x[i] == links[i]);
        }
        lemma_tally_none(x, p);
        assert(x.push(y) =~= links);
        assert(!p(links[links.len() - 1].target, links[links.len() - 1].weight));
        lemma_tally_push(x, y, p);
    } else {
        reveal(Seq::filter);
    }
}

/// Without one link the tally is less by what that link counts.
pub proof fn lemma_tally_remove(
    links: Seq<Link>,
    i: int,
    p: spec_fn(NodeId, Dependency) -> bool,
)
    requires
        0 <= i < links.len(),
    ensures
        tally(links, p) == tally(links.remove(i), p) + if p(links[i].target, links[i].weight) {
            1nat
        } else {
            0nat
        },
{
    let a = links.take(i);
    let b = links.skip(i + 1);
    assert(links =~= a.push(links[i]) + b);
    assert(links.remove(i) =~= a + b);
    lemma_tally_add(a.push(links[i]), b, p);
    lemma_tally_add(a, b, p);
    lemma_tally_push(a, links[i], p);
}

/// Predicates that agree count the same.
pub proof fn lemma_tally_congruent(
    links: Seq<Link>,
    p: spec_fn(NodeId, Dependency) -> bool,
    q: spec_fn(NodeId, Dependency) -> bool,
)
    requires
        forall|t: NodeId, w: Dependency| #[trigger] p(t, w) == q(t, w),
    ensures
        tally(links, p) == tally(links, q),
{
    lemma_filter_congruent(
        links,
        |l: Link| p(l.target, l.weight),
        |l: Link| q(l.target, l.weight),
    );
}

} // verus!
