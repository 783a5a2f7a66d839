//! What the steps of a compilation do to a graph as a whole.
use crate::copies::{copy_input, fresh, lemma_with_copies_len, with_copies, within};
use crate::flow::lemma_hop_kept;
use crate::frame::{blind, keeps, lemma_closed_link, lemma_keeps_refl, lemma_keeps_trans};
use crate::graph::{Dependency, GraphState, Link, NodeId};
use crate::host::{fed_by_copies, handed_to, lemma_single_kept, reads_scalar, reads_single};
use crate::outputs::{
    all_references_moved, lemma_references_frame, names, output_reads, outputs, outputs_copied,
    retrievable, retrieves, Retrieved,
};
use crate::prints::{
    latest_read, lemma_latest_read, lemma_print_step, print_copied, print_step, prints_copied,
};
use crate::seqs::{lemma_contains_last, lemma_last_once};
use crate::tally::{lemma_tally_add, lemma_tally_none, tally};
use vstd::prelude::*;

verus! {

/// Where each of `to` takes the place of its counterpart in `from`, it stands among what is
/// retrieved and what is kept in its stead, and the counterpart is mapped to it.
pub proof fn lemma_all_references_moved(s: GraphState, from: Seq<NodeId>, to: Seq<NodeId>)
    requires
        from.len() == to.len(),
        from.no_duplicates(),
        to.no_duplicates(),
        forall|i: int| 0 <= i < from.len() ==> s.to_retrieve.contains(#[trigger] from[i]),
        forall|i: int|
            0 <= i < to.len() ==> !s.to_retrieve.contains(#[trigger] to[i]) && !from.contains(
                to[i],
            ),
    ensures
        forall|n: NodeId| #[trigger]
            all_references_moved(s, from, to).to_retrieve.contains(n) <==> to.contains(n) || (
            s.to_retrieve.contains(n) && !from.contains(n)),
        forall|i: int|
            0 <= i < from.len() ==> all_references_moved(s, from, to).id_remap.contains_key(
                #[trigger] from[i],
            ) && all_references_moved(s, from, to).id_remap[from[i]] == to[i],
        forall|n: NodeId|
            !from.contains(n) ==> (#[trigger] all_references_moved(s, from, to).id_remap.contains_key(
                n,
            ) == s.id_remap.contains_key(n)) && all_references_moved(s, from, to).id_remap[n]
                == s.id_remap[n],
        forall|i: int|
            0 <= i < from.len() ==> !all_references_moved(s, from, to).no_delete.contains(
                #[trigger] from[i],
            ) && (s.no_delete.contains(from[i]) ==> all_references_moved(
                s,
                from,
                to,
            ).no_delete.contains(to[i])),
        forall|n: NodeId|
            !from.contains(n) && !to.contains(n) ==> #[trigger] all_references_moved(
                s,
                from,
                to,
            ).no_delete.contains(n) == s.no_delete.contains(n),
    decreases from.len(),
{
    if from.len() > 0 {
        let f = from.drop_last();
        let t = to.drop_last();
        let x = from.last();
        let y = to.last();
        assert(from[from.len() - 1] == x && to[to.len() - 1] == y);
        lemma_contains_last(from);
        lemma_contains_last(to);
        lemma_last_once(from);
        lemma_last_once(to);
        assert forall|i: int| 0 <= i < f.len() implies s.to_retrieve.contains(#[trigger] f[i]) by {
            assert(f[i] == from[i]);
        }
        assert forall|i: int| 0 <= i < t.len() implies !s.to_retrieve.contains(#[trigger] t[i])
            && !f.contains(t[i]) by {
            assert(t[i] == to[i]);
        }
        lemma_all_references_moved(s, f, t);
        assert(!t.contains(x)) by {
            if t.contains(x) {
                let k = choose|k: int| 0 <= k < t.len() && t[k] == x;
                assert(to[k] == x);
            }
        }
        let mid = all_references_moved(s, f, t);
        let post = all_references_moved(s, from, to);
        assert(from.contains(x));
        assert(mid.to_retrieve.contains(x));
        assert(x != y);
        assert forall|n: NodeId| #[trigger]
            post.to_retrieve.contains(n) <==> to.contains(n) || (s.to_retrieve.contains(n)
                && !from.contains(n)) by {
            assert(post.to_retrieve.contains(n) <==> n == y || (n != x
                && mid.to_retrieve.contains(n)));
        }
        assert forall|n: NodeId| !from.contains(n) implies (
        #[trigger] post.id_remap.contains_key(n) == s.id_remap.contains_key(n))
            && post.id_remap[n] == s.id_remap[n] by {
            assert(!f.contains(n) && n != x);
            assert(mid.id_remap.contains_key(n) == s.id_remap.contains_key(n));
        }
        assert(mid.no_delete.contains(x) == s.no_delete.contains(x));
        assert forall|i: int| 0 <= i < from.len() implies !post.no_delete.contains(
            #[trigger] from[i],
        ) && (s.no_delete.contains(from[i]) ==> post.no_delete.contains(to[i])) by {
            assert(from.contains(from[i]) && !from.contains(to[i]) && !from.contains(y));
            if i < f.len() {
                assert(f[i] == from[i] && t[i] == to[i]);
                assert(!mid.no_delete.contains(f[i]));
            }
        }
        assert forall|n: NodeId|
            !from.contains(n) && !to.contains(n) implies #[trigger] post.no_delete.contains(n)
            == s.no_delete.contains(n) by {
            assert(mid.no_delete.contains(n) == s.no_delete.contains(n));
        }
        assert forall|i: int| 0 <= i < from.len() implies all_references_moved(
            s,
            from,
            to,
        ).id_remap.contains_key(#[trigger] from[i]) && all_references_moved(
            s,
            from,
            to,
        ).id_remap[from[i]] == to[i] by {
            if i < f.len() {
                assert(f[i] == from[i] && t[i] == to[i]);
                assert(f.contains(f[i]));
            }
        }
    }
}

/// Copying what is retrieved keeps the graph and the functions between their copies; what is
/// retrieved then are functions and the copies.
pub proof fn lemma_outputs_copied(s: GraphState, outs: Seq<Retrieved>, ds: Seq<NodeId>)
    requires
        s.closed(),
        retrievable(s),
        retrieves(outs, s),
        ds.len() == outs.len(),
        fresh(s.nodes, ds),
    ensures
        keeps(s, outputs_copied(s, outs, ds)),
        outputs_copied(s, outs, ds).nodes.dom().len() == s.nodes.dom().len() + ds.len(),
        outputs_copied(s, outs, ds).links.len() == s.links.len() + ds.len(),
        forall|n: NodeId| #[trigger]
            outputs_copied(s, outs, ds).to_retrieve.contains(n) <==> ds.contains(n) || (
            s.to_retrieve.contains(n) && s.nodes[n] is Function),
        forall|i: int|
            0 <= i < outs.len() ==> outputs_copied(s, outs, ds).id_remap.contains_key(
                (#[trigger] outs[i]).0,
            ) && outputs_copied(s, outs, ds).id_remap[outs[i].0] == ds[i],
        forall|f: NodeId|
            s.nodes.contains_key(f) && #[trigger] fed_by_copies(s, f) ==> fed_by_copies(
                outputs_copied(s, outs, ds),
                f,
            ),
        forall|f: NodeId, c: NodeId|
            s.nodes.contains_key(f) && s.nodes[f] is Function && #[trigger] handed_to(s, f, c)
                ==> handed_to(outputs_copied(s, outs, ds), f, c),
        forall|n: NodeId|
            !outputs(s).contains(n) ==> (#[trigger] outputs_copied(
                s,
                outs,
                ds,
            ).id_remap.contains_key(n) == s.id_remap.contains_key(n)) && outputs_copied(
                s,
                outs,
                ds,
            ).id_remap[n] == s.id_remap[n],
        forall|i: int|
            0 <= i < outs.len() ==> !outputs_copied(s, outs, ds).no_delete.contains(
                (#[trigger] outs[i]).0,
            ) && (s.no_delete.contains(outs[i].0) ==> outputs_copied(
                s,
                outs,
                ds,
            ).no_delete.contains(ds[i])),
        forall|n: NodeId|
            s.nodes.contains_key(n) && !outputs(s).contains(n) ==> #[trigger] outputs_copied(
                s,
                outs,
                ds,
            ).no_delete.contains(n) == s.no_delete.contains(n),
{
    let post = outputs_copied(s, outs, ds);
    let new = output_reads(outs, ds);
    let mid = GraphState { nodes: with_copies(s.nodes, ds), links: s.links + new, ..s };
    lemma_references_frame(mid, mid, names(outs), ds);
    lemma_with_copies_len(s.nodes, ds);
    assert forall|i: int| 0 <= i < outs.len() implies outputs(s).contains(
        (#[trigger] outs[i]).0,
    ) && names(outs)[i] == outs[i].0 && s.nodes.contains_key(outs[i].0) by {
        assert(names(outs).contains(names(outs)[i]));
        assert(names(outs).to_set().contains(outs[i].0));
    }
    assert forall|i: int| 0 <= i < names(outs).len() implies s.to_retrieve.contains(
        #[trigger] names(outs)[i],
    ) by {
        assert(outputs(s).contains(outs[i].0));
    }
    assert forall|i: int| 0 <= i < ds.len() implies !s.to_retrieve.contains(#[trigger] ds[i])
        && !names(outs).contains(ds[i]) by {
        assert(!s.nodes.contains_key(ds[i]));
        if names(outs).contains(ds[i]) {
            assert(names(outs).to_set().contains(ds[i]));
        }
    }
    lemma_all_references_moved(mid, names(outs), ds);
    assert forall|n: NodeId| #[trigger]
        post.to_retrieve.contains(n) <==> ds.contains(n) || (s.to_retrieve.contains(n)
            && s.nodes[n] is Function) by {
        assert(names(outs).contains(n) == names(outs).to_set().contains(n));
    }
    assert forall|i: int| 0 <= i < outs.len() implies post.id_remap.contains_key(
        (#[trigger] outs[i]).0,
    ) && post.id_remap[outs[i].0] == ds[i] by {
        assert(names(outs)[i] == outs[i].0);
    }
    assert forall|l: Link| post.links.contains(l) implies s.links.contains(l) || (ds.contains(
        l.target,
    ) && outputs(s).contains(l.source)) by {
        let i = choose|i: int| 0 <= i < post.links.len() && post.links[i] == l;
        if i < s.links.len() {
            assert(s.links[i] == l);
        } else {
            let k = i - s.links.len();
            assert(new[k] == l);
            assert(ds.contains(ds[k]));
            assert(outs[k].0 == l.source);
        }
    }
    assert forall|n: NodeId| ds.contains(n) implies !#[trigger] s.nodes.contains_key(n) by {
        let k = choose|k: int| 0 <= k < ds.len() && ds[k] == n;
        assert(!s.nodes.contains_key(ds[k]));
    }
    assert(post.closed()) by {
        assert forall|i: int| 0 <= i < post.links.len() implies post.nodes.contains_key(
            (#[trigger] post.links[i]).source,
        ) && post.nodes.contains_key(post.links[i].target) by {
            let l = post.links[i];
            assert(post.links.contains(l));
            if s.links.contains(l) {
                lemma_closed_link(s, l);
            } else {
                assert(s.to_retrieve.contains(l.source));
            }
        }
    }
    assert forall|p: spec_fn(NodeId, Dependency) -> bool|
        #![trigger within(p, s.nodes)]
        within(p, s.nodes) && blind(p, s.nodes) implies tally(post.links, p) == tally(
        s.links,
        p,
    ) by {
        lemma_tally_add(s.links, new, p);
        assert forall|k: int| 0 <= k < new.len() implies !p(
            (#[trigger] new[k]).target,
            new[k].weight,
        ) by {
            assert(!s.nodes.contains_key(ds[k]));
        }
        lemma_tally_none(new, p);
    }
    assert forall|f: NodeId|
        s.nodes.contains_key(f) && #[trigger] fed_by_copies(s, f) implies fed_by_copies(
        post,
        f,
    ) by {
        assert forall|l: Link| #[trigger]
            post.links.contains(l) && l.target
                == f implies post.nodes[l.source] is MetalCopyFromDevice && reads_single(
            post,
            l.source,
        ) by {
            if s.links.contains(l) {
                lemma_closed_link(s, l);
                lemma_single_kept(s, post, l.source);
            }
        }
    }
    assert forall|l: Link| s.links.contains(l) implies #[trigger] post.links.contains(l) by {
        let i = choose|i: int| 0 <= i < s.links.len() && s.links[i] == l;
        assert(post.links[i] == l);
    }
    assert forall|f: NodeId, c: NodeId|
        s.nodes.contains_key(f) && s.nodes[f] is Function && #[trigger] handed_to(
            s,
            f,
            c,
        ) implies handed_to(post, f, c) by {
        let m = choose|m: Link| #[trigger] s.links.contains(m) && reads_scalar(m, f, c);
        assert(post.links.contains(m));
        assert(s.nodes.contains_key(c));
        lemma_hop_kept(s, post, f, c, m);
        assert forall|l: Link| #[trigger] post.links.contains(l) && l.source == f implies l.target
            == c by {
            if s.links.contains(l) {
                lemma_closed_link(s, l);
            }
        }
    }
    assert forall|n: NodeId| !outputs(s).contains(n) implies (
    #[trigger] post.id_remap.contains_key(n) == s.id_remap.contains_key(n)) && post.id_remap[n]
        == s.id_remap[n] by {
        assert(names(outs).contains(n) == names(outs).to_set().contains(n));
    }
    assert forall|i: int| 0 <= i < outs.len() implies !post.no_delete.contains(
        (#[trigger] outs[i]).0,
    ) && (s.no_delete.contains(outs[i].0) ==> post.no_delete.contains(ds[i])) by {
        assert(names(outs)[i] == outs[i].0);
    }
    assert forall|n: NodeId|
        s.nodes.contains_key(n) && !outputs(s).contains(n) implies #[trigger] post.no_delete.contains(
        n,
    ) == s.no_delete.contains(n) by {
        assert(names(outs).contains(n) == names(outs).to_set().contains(n));
        assert(!ds.contains(n));
    }
}

/// Print `p` reads its latest tensor, as its first input, from a copy from the device that reads
/// under the same view.
pub open spec fn prints_copy(s: GraphState, p: NodeId) -> bool {
    let l = s.links[latest_read(s.links, p)];
    &&& latest_read(s.links, p) >= 0
    &&& s.nodes[l.source] is MetalCopyFromDevice
    &&& l.weight->input_order == 0
    &&& l.weight->output_order == 0
    &&& exists|m: Link| #[trigger]
        s.links.contains(m) && m.target == l.source && m.weight == l.weight
}

/// Taking out a link into another node leaves the latest read.
pub proof fn lemma_latest_read_remove(links: Seq<Link>, i: int, p: NodeId)
    requires
        0 <= i < links.len(),
        links[i].target != p,
    ensures
        latest_read(links.remove(i), p) == if latest_read(links, p) > i {
            latest_read(links, p) - 1
        } else {
            latest_read(links, p)
        },
    decreases links.len(),
{
    let r = links.drop_last();
    lemma_latest_read(links, p);
    if i == links.len() - 1 {
        assert(links.remove(i) =~= r);
        lemma_latest_read(r, p);
    } else {
        assert(links.remove(i).drop_last() =~= r.remove(i));
        assert(links.remove(i).last() == links.last());
        lemma_latest_read_remove(r, i, p);
    }
}

/// A new link into another node leaves the latest read.
pub proof fn lemma_latest_read_push(links: Seq<Link>, x: Link, p: NodeId)
    ensures
        latest_read(links.push(x), p) == if x.target == p && x.weight is Data {
            links.len() as int
        } else {
            latest_read(links, p)
        },
{
    assert(links.push(x).drop_last() =~= links);
}

/// Copying for one print keeps the graph and the functions between their copies, lets the print
/// read a copy, and leaves the prints that do.
pub proof fn lemma_print_copied(pre: GraphState, post: GraphState, p: NodeId)
    requires
        pre.closed(),
        pre.nodes.contains_key(p),
        pre.nodes[p] is Print,
        latest_read(pre.links, p) >= 0,
        print_step(pre, post, p),
    ensures
        keeps(pre, post),
        post == (GraphState { nodes: post.nodes, links: post.links, ..pre }),
        post.nodes.dom().len() == pre.nodes.dom().len() + 1,
        post.links.len() == pre.links.len() + 1,
        prints_copy(post, p),
        forall|l: Link| #[trigger]
            pre.links.contains(l) && !(pre.nodes[l.target] is Print) ==> post.links.contains(l),
        forall|q: NodeId|
            pre.nodes.contains_key(q) && q != p && latest_read(pre.links, q) >= 0
                ==> #[trigger] latest_read(post.links, q) >= 0,
        forall|q: NodeId|
            pre.nodes.contains_key(q) && q != p && #[trigger] prints_copy(pre, q) ==> prints_copy(
                post,
                q,
            ),
        forall|f: NodeId|
            pre.nodes.contains_key(f) && pre.nodes[f] is Function && #[trigger] fed_by_copies(
                pre,
                f,
            ) ==> fed_by_copies(post, f),
        forall|f: NodeId, c: NodeId|
            pre.nodes.contains_key(f) && #[trigger] handed_to(pre, f, c) ==> handed_to(
                post,
                f,
                c,
            ),
{
    lemma_print_step(pre, post, p);
    let d = choose|d: NodeId|
        !pre.nodes.contains_key(d) && post == #[trigger] print_copied(pre, p, d);
    let i = latest_read(pre.links, p);
    lemma_latest_read(pre.links, p);
    let read = pre.links[i];
    assert(pre.links.contains(read));
    lemma_closed_link(pre, read);
    let weight = copy_input(read.weight->shape);
    let a = Link { source: read.source, target: d, weight };
    let b = Link { source: d, target: p, weight };
    let kept = pre.links.remove(i);
    assert(post.links == kept.push(a).push(b));
    assert(keeps(pre, post)) by {
        assert forall|q: spec_fn(NodeId, Dependency) -> bool|
            #![trigger within(q, pre.nodes)]
            within(q, pre.nodes) && blind(q, pre.nodes) implies tally(post.links, q) == tally(
            pre.links,
            q,
        ) by {
            assert forall|w: Dependency, v: Dependency|
                #![trigger q(p, w), q(p, v)]
                w is Data && v is Data implies q(p, w) == q(p, v) by {}
        }
    }
    lemma_latest_read_push(kept.push(a), b, p);
    assert(post.links[post.links.len() - 1] == b);
    assert(post.links[post.links.len() - 2] == a);
    assert(post.links.contains(a));
    assert forall|q: NodeId| pre.nodes.contains_key(q) && q != p implies (latest_read(
        pre.links,
        q,
    ) >= 0 ==> #[trigger] latest_read(post.links, q) >= 0 && post.links[latest_read(
        post.links,
        q,
    )] == pre.links[latest_read(pre.links, q)]) by {
        lemma_latest_read(pre.links, q);
        lemma_latest_read_remove(pre.links, i, q);
        lemma_latest_read_push(kept, a, q);
        lemma_latest_read_push(kept.push(a), b, q);
    }
    assert forall|q: NodeId|
        pre.nodes.contains_key(q) && q != p && #[trigger] prints_copy(pre, q) implies prints_copy(
        post,
        q,
    ) by {
        assert(latest_read(post.links, q) >= 0);
        lemma_latest_read(pre.links, q);
        let l = pre.links[latest_read(pre.links, q)];
        assert(pre.links.contains(l));
        lemma_closed_link(pre, l);
        let m = choose|m: Link| #[trigger]
            pre.links.contains(m) && m.target == l.source && m.weight == l.weight;
        let k = choose|k: int| 0 <= k < pre.links.len() && pre.links[k] == m;
        assert(post.links[if k < i { k } else { k - 1 }] == m);
        assert(post.links.contains(m));
    }
    assert forall|l: Link| #[trigger]
        pre.links.contains(l) && !(pre.nodes[l.target] is Print) implies post.links.contains(l) by {
        let k = choose|k: int| 0 <= k < pre.links.len() && pre.links[k] == l;
        assert(post.links[if k < i { k } else { k - 1 }] == l);
    }
    assert forall|l: Link| post.links.contains(l) implies pre.links.contains(l) || l == a || l
        == b by {
        let k = choose|k: int| 0 <= k < post.links.len() && post.links[k] == l;
        if k < i {
            assert(pre.links[k] == l);
        } else if k < kept.len() {
            assert(pre.links[k + 1] == l);
        }
    }
    assert forall|f: NodeId|
        pre.nodes.contains_key(f) && pre.nodes[f] is Function && #[trigger] fed_by_copies(
            pre,
            f,
        ) implies fed_by_copies(post, f) by {
        assert forall|l: Link| #[trigger]
            post.links.contains(l) && l.target
                == f implies post.nodes[l.source] is MetalCopyFromDevice && reads_single(
            post,
            l.source,
        ) by {
            if pre.links.contains(l) {
                lemma_closed_link(pre, l);
                lemma_single_kept(pre, post, l.source);
            }
        }
    }
    assert forall|f: NodeId, c: NodeId|
        pre.nodes.contains_key(f) && #[trigger] handed_to(pre, f, c) implies handed_to(
        post,
        f,
        c,
    ) by {
        let m = choose|m: Link| #[trigger] pre.links.contains(m) && reads_scalar(m, f, c);
        assert(post.links.contains(m));
        assert(pre.nodes.contains_key(c));
        lemma_hop_kept(pre, post, f, c, m);
        assert forall|l: Link| #[trigger] post.links.contains(l) && l.source == f implies l.target
            == c by {
            if pre.links.contains(l) {
                lemma_closed_link(pre, l);
            } else if l == a {
                assert(pre.links.contains(read));
            }
        }
    }
}

/// Copying for prints keeps the graph and the functions between their copies, and lets each
/// print read a copy.
pub proof fn lemma_prints_copied(pre: GraphState, post: GraphState, ps: Seq<NodeId>)
    requires
        pre.closed(),
        ps.no_duplicates(),
        forall|k: int|
            0 <= k < ps.len() ==> pre.nodes.contains_key(#[trigger] ps[k])
                && pre.nodes[ps[k]] is Print && latest_read(pre.links, ps[k]) >= 0,
        prints_copied(pre, post, ps),
    ensures
        keeps(pre, post),
        post == (GraphState { nodes: post.nodes, links: post.links, ..pre }),
        post.nodes.dom().len() == pre.nodes.dom().len() + ps.len(),
        post.links.len() == pre.links.len() + ps.len(),
        forall|k: int| 0 <= k < ps.len() ==> prints_copy(post, #[trigger] ps[k]),
        forall|l: Link| #[trigger]
            pre.links.contains(l) && !(pre.nodes[l.target] is Print) ==> post.links.contains(l),
        forall|q: NodeId|
            pre.nodes.contains_key(q) && !ps.contains(q) && latest_read(pre.links, q) >= 0
                ==> #[trigger] latest_read(post.links, q) >= 0,
        forall|f: NodeId|
            pre.nodes.contains_key(f) && pre.nodes[f] is Function && #[trigger] fed_by_copies(
                pre,
                f,
            ) ==> fed_by_copies(post, f),
        forall|f: NodeId, c: NodeId|
            pre.nodes.contains_key(f) && #[trigger] handed_to(pre, f, c) ==> handed_to(
                post,
                f,
                c,
            ),
    decreases ps.len(),
{
    if ps.len() == 0 {
        lemma_keeps_refl(pre);
    } else {
        let r = ps.drop_last();
        let p = ps.last();
        let mid = choose|mid: GraphState|
            prints_copied(pre, mid, r) && #[trigger] print_step(mid, post, p);
        assert forall|k: int| 0 <= k < r.len() implies pre.nodes.contains_key(#[trigger] r[k])
            && pre.nodes[r[k]] is Print && latest_read(pre.links, r[k]) >= 0 by {
            assert(r[k] == ps[k]);
        }
        lemma_prints_copied(pre, mid, r);
        assert(ps[ps.len() - 1] == p);
        lemma_last_once(ps);
        assert(latest_read(mid.links, p) >= 0);
        lemma_print_copied(mid, post, p);
        lemma_keeps_trans(pre, mid, post);
        assert forall|k: int| 0 <= k < ps.len() implies prints_copy(post, #[trigger] ps[k]) by {
            if k < r.len() {
                assert(r[k] == ps[k]);
                assert(r.contains(r[k]));
                assert(prints_copy(mid, r[k]));
                assert(mid.nodes.contains_key(ps[k]));
            }
        }
        assert forall|l: Link| #[trigger]
            pre.links.contains(l) && !(pre.nodes[l.target] is Print) implies post.links.contains(
            l,
        ) by {
            lemma_closed_link(pre, l);
            assert(mid.links.contains(l));
        }
        assert forall|q: NodeId|
            pre.nodes.contains_key(q) && !ps.contains(q) && latest_read(
                pre.links,
                q,
            ) >= 0 implies #[trigger] latest_read(post.links, q) >= 0 by {
            assert(!r.contains(q)) by {
                if r.contains(q) {
                    let k = choose|k: int| 0 <= k < r.len() && r[k] == q;
                    assert(ps[k] == q);
                }
            }
            assert(ps.contains(ps[ps.len() - 1]));
            assert(latest_read(mid.links, q) >= 0);
            assert(mid.nodes.contains_key(q));
        }
        assert forall|f: NodeId|
            pre.nodes.contains_key(f) && pre.nodes[f] is Function && #[trigger] fed_by_copies(
                pre,
                f,
            ) implies fed_by_copies(post, f) by {
            assert(mid.nodes.contains_key(f));
            assert(fed_by_copies(mid, f));
        }
        assert forall|f: NodeId, c: NodeId|
            pre.nodes.contains_key(f) && #[trigger] handed_to(pre, f, c) implies handed_to(
            post,
            f,
            c,
        ) by {
            assert(mid.nodes.contains_key(f));
            assert(handed_to(mid, f, c));
        }
    }
}

} // verus!
