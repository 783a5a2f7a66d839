//! How a list of edges changes while some of its edges are replaced one by one.
use crate::graph::{
    directed, directed_edges, distinct_ids, links_of, meets, undirected, without_edge, Direction,
    Edge, EdgeId, Link, NodeId,
};
use crate::seqs::{
    lemma_filter_congruent, lemma_filter_contains, lemma_filter_filter, lemma_filter_map,
    lemma_filter_push,
};
use vstd::prelude::*;

verus! {

/// The edges whose names are not among `ids`.
pub open spec fn dropped(edges: Seq<Edge>, ids: Seq<EdgeId>) -> Seq<Edge> {
    edges.filter(|e: Edge| !ids.contains(e.id))
}

/// The names of edges.
pub open spec fn ids_of(edges: Seq<Edge>) -> Seq<EdgeId> {
    edges.map_values(|e: Edge| e.id)
}

/// The names can be left out before or after putting lists side by side.
pub proof fn lemma_links_add(a: Seq<Edge>, b: Seq<Edge>)
    ensures
        links_of(a + b) == links_of(a) + links_of(b),
{
    assert(links_of(a + b) =~= links_of(a) + links_of(b));
}

pub proof fn lemma_links_push(a: Seq<Edge>, x: Edge)
    ensures
        links_of(a.push(x)) == links_of(a).push(x.link),
{
    assert(links_of(a.push(x)) =~= links_of(a).push(x.link));
}

/// Two edges of one name are one edge.
pub proof fn lemma_same_id(edges: Seq<Edge>, a: Edge, b: Edge)
    requires
        distinct_ids(edges),
        edges.contains(a),
        edges.contains(b),
        a.id == b.id,
    ensures
        a == b,
{
    let i = choose|i: int| 0 <= i < edges.len() && edges[i] == a;
    let j = choose|j: int| 0 <= j < edges.len() && edges[j] == b;
    if i < j {
        assert(edges[i].id != edges[j].id);
    } else if j < i {
        assert(edges[j].id != edges[i].id);
    }
}

/// An edge that was not dropped is still there.
pub proof fn lemma_dropped_contains(edges: Seq<Edge>, ids: Seq<EdgeId>, e: Edge)
    ensures
        dropped(edges, ids).contains(e) <==> edges.contains(e) && !ids.contains(e.id),
{
    lemma_filter_contains(edges, |e: Edge| !ids.contains(e.id), e);
}

/// Dropping no edge changes nothing.
pub proof fn lemma_dropped_none(edges: Seq<Edge>, ids: Seq<EdgeId>)
    requires
        ids.len() == 0,
    ensures
        dropped(edges, ids) == edges,
    decreases edges.len(),
{
    reveal(Seq::filter);
    if edges.len() > 0 {
        lemma_dropped_none(edges.drop_last(), ids);
        assert(edges.drop_last().push(edges.last()) =~= edges);
    }
}

/// Taking out a name that no edge has changes nothing.
pub proof fn lemma_without_absent(edges: Seq<Edge>, id: EdgeId)
    requires
        forall|i: int| 0 <= i < edges.len() ==> (#[trigger] edges[i]).id != id,
    ensures
        without_edge(edges, id) == edges,
    decreases edges.len(),
{
    reveal(Seq::filter);
    if edges.len() > 0 {
        assert(forall|i: int|
            0 <= i < edges.drop_last().len() ==> edges.drop_last()[i] == edges[i]);
        lemma_without_absent(edges.drop_last(), id);
        assert(edges[edges.len() - 1].id != id);
        assert(edges.drop_last().push(edges.last()) =~= edges);
    }
}

/// Taking out an edge that is there makes the list one shorter.
pub proof fn lemma_without_len(edges: Seq<Edge>, x: Edge)
    requires
        distinct_ids(edges),
        edges.contains(x),
    ensures
        without_edge(edges, x.id).len() == edges.len() - 1,
    decreases edges.len(),
{
    let r = edges.drop_last();
    let y = edges.last();
    assert(r.push(y) =~= edges);
    lemma_filter_push(r, y, |e: Edge| e.id != x.id);
    let k = choose|k: int| 0 <= k < edges.len() && edges[k] == x;
    if k == r.len() {
        assert forall|i: int| 0 <= i < r.len() implies (#[trigger] r[i]).id != x.id by {
            assert(edges[i].id != edges[k].id);
        }
        lemma_without_absent(r, x.id);
    } else {
        assert(r[k] == x);
        assert(edges[k].id != edges[r.len() as int].id);
        assert forall|i: int, j: int| 0 <= i < j < r.len() implies (#[trigger] r[i]).id != (
        #[trigger] r[j]).id by {
            assert(edges[i].id != edges[j].id);
        }
        lemma_without_len(r, x);
    }
}

/// Dropping one more edge of the base leaves what was added as it is.
pub proof fn lemma_drop_next(base: Seq<Edge>, ids: Seq<EdgeId>, added: Seq<Edge>, x: Edge)
    requires
        distinct_ids(dropped(base, ids) + added),
        base.contains(x),
        !ids.contains(x.id),
    ensures
        without_edge(dropped(base, ids) + added, x.id) == dropped(base, ids.push(x.id)) + added,
{
    let d = dropped(base, ids);
    let p = |e: Edge| e.id != x.id;
    lemma_dropped_contains(base, ids, x);
    let k = choose|k: int| 0 <= k < d.len() && d[k] == x;
    assert forall|i: int| 0 <= i < added.len() implies (#[trigger] added[i]).id != x.id by {
        assert((d + added)[k] == x);
        assert((d + added)[d.len() + i] == added[i]);
    }
    lemma_without_absent(added, x.id);
    Seq::filter_distributes_over_add(d, added, p);
    let q = |e: Edge| !ids.contains(e.id);
    lemma_filter_filter(base, q, p);
    let r = |e: Edge| !ids.push(x.id).contains(e.id);
    assert forall|i: int| 0 <= i < base.len() implies ({
        let e = #[trigger] base[i];
        (q(e) && p(e)) == r(e)
    }) by {
        let e = base[i];
        let pushed = ids.push(x.id);
        if ids.contains(e.id) {
            let m = choose|m: int| 0 <= m < ids.len() && ids[m] == e.id;
            assert(pushed[m] == e.id);
        }
        if e.id == x.id {
            assert(pushed[ids.len() as int] == e.id);
        }
        if pushed.contains(e.id) {
            let m = choose|m: int| 0 <= m < pushed.len() && pushed[m] == e.id;
            if m < ids.len() {
                assert(ids[m] == e.id);
            }
        }
    }
    lemma_filter_congruent(base, |e: Edge| q(e) && p(e), r);
}

/// Dropping all edges that leave (or enter) a node leaves the others.
pub proof fn lemma_drop_directed(base: Seq<Edge>, n: NodeId, dir: Direction)
    requires
        distinct_ids(base),
    ensures
        links_of(dropped(base, ids_of(directed_edges(base, n, dir)))) == undirected(
            links_of(base),
            n,
            dir,
        ),
{
    let out = directed_edges(base, n, dir);
    let ids = ids_of(out);
    let p = |e: Edge| meets(e.link, n, dir);
    let q = |e: Edge| !ids.contains(e.id);
    let f = |e: Edge| e.link;
    let r = |l: Link| !meets(l, n, dir);
    assert forall|i: int| 0 <= i < base.len() implies q(#[trigger] base[i]) == r(f(base[i])) by {
        let e = base[i];
        assert(base.contains(e));
        lemma_filter_contains(base, p, e);
        let s = base.filter(p);
        if meets(e.link, n, dir) {
            let k = choose|k: int| 0 <= k < s.len() && s[k] == e;
            assert(out[s.len() - 1 - k] == e);
            assert(ids[s.len() - 1 - k] == e.id);
        } else if ids.contains(e.id) {
            let k = choose|k: int| 0 <= k < ids.len() && ids[k] == e.id;
            let y = out[k];
            assert(s[s.len() - 1 - k] == y);
            assert(s.contains(y));
            lemma_filter_contains(base, p, y);
            lemma_same_id(base, e, y);
        }
    }
    lemma_filter_congruent(base, q, |e: Edge| r(f(e)));
    lemma_filter_map(base, f, r);
}

/// The directed edges without their names are the directed links.
pub proof fn lemma_directed_links(edges: Seq<Edge>, n: NodeId, dir: Direction)
    ensures
        links_of(directed_edges(edges, n, dir)) == directed(links_of(edges), n, dir),
{
    let f = |e: Edge| e.link;
    let p = |l: Link| meets(l, n, dir);
    lemma_filter_map(edges, f, p);
    lemma_filter_congruent(edges, |e: Edge| p(f(e)), |e: Edge| meets(e.link, n, dir));
    let s = edges.filter(|e: Edge| meets(e.link, n, dir));
    assert(s.reverse().map_values(f) =~= s.map_values(f).reverse());
}

/// The directed edges have distinct names.
pub proof fn lemma_directed_distinct(edges: Seq<Edge>, n: NodeId, dir: Direction)
    requires
        distinct_ids(edges),
    ensures
        ids_of(directed_edges(edges, n, dir)).no_duplicates(),
{
    let p = |e: Edge| meets(e.link, n, dir);
    lemma_filter_distinct(edges, p);
    let s = edges.filter(p);
    let ids = ids_of(s.reverse());
    assert forall|i: int, j: int| 0 <= i < ids.len() && 0 <= j < ids.len() && i != j implies ids[i]
        != ids[j] by {
        if i < j {
            assert(s[s.len() - 1 - j].id != s[s.len() - 1 - i].id);
        } else {
            assert(s[s.len() - 1 - i].id != s[s.len() - 1 - j].id);
        }
    }
}

/// A selection of edges with distinct names has distinct names.
pub proof fn lemma_filter_distinct(edges: Seq<Edge>, p: spec_fn(Edge) -> bool)
    requires
        distinct_ids(edges),
    ensures
        distinct_ids(edges.filter(p)),
    decreases edges.len(),
{
    reveal(Seq::filter);
    if edges.len() > 0 {
        let r = edges.drop_last();
        assert forall|i: int, j: int| 0 <= i < j < r.len() implies (#[trigger] r[i]).id != (
        #[trigger] r[j]).id by {
            assert(edges[i].id != edges[j].id);
        }
        lemma_filter_distinct(r, p);
        let s = r.filter(p);
        let w = edges.filter(p);
        assert forall|i: int, j: int| 0 <= i < j < w.len() implies (#[trigger] w[i]).id != (
        #[trigger] w[j]).id by {
            if j == s.len() {
                assert(s.contains(s[i]));
                lemma_filter_contains(r, p, s[i]);
                let k = choose|k: int| 0 <= k < r.len() && r[k] == s[i];
                assert(edges[k].id != edges[edges.len() - 1].id);
            } else {
                assert(s[i] == w[i] && s[j] == w[j]);
            }
        }
    }
}

} // verus!
