//! What holds of the functions of a graph once they are set between copies.
use crate::copies::{copy_input, fresh, lemma_inputs_tally, reads_tensor, within};
use crate::flow::{hop, lemma_hop_kept, lemma_output_hop, reads_first};
use crate::frame::{
    blind, keeps, lemma_closed_link, lemma_input_keeps, lemma_keeps_incoming, lemma_keeps_inputs,
    lemma_keeps_refl, lemma_keeps_trans, lemma_output_keeps,
};
use crate::functions::{
    copied_reads, copies_of_all, function_copied, functions_copied, input_step, inputs_copied,
    lemma_copies_of_all_push, lemma_input_step, lemma_output_step, output_copied, output_step,
    rerouted,
};
use crate::graph::{
    directed, inputs, meets, undirected, Dependency, Direction, GraphState, Link, NodeId,
};
use crate::ops::{Op, Output};
use crate::outputs::{outputs, retrievable};
use crate::seqs::{lemma_contains_last, lemma_filter_contains, lemma_last_once};
use crate::shape::ShapeTracker;
use crate::tally::tally;
use std::rc::Rc;
use vstd::prelude::*;

verus! {

/// Node `d` reads a first tensor as its first input, under the view of a single element.
pub open spec fn reads_single(s: GraphState, d: NodeId) -> bool {
    exists|m: Link| #[trigger] s.links.contains(m) && reads_scalar(m, m.source, d)
}

/// All that `f` reads comes from copies from the device, each of which reads under the view of a
/// single element.
pub open spec fn fed_by_copies(s: GraphState, f: NodeId) -> bool {
    forall|l: Link| #[trigger]
        s.links.contains(l) && l.target == f ==> s.nodes[l.source] is MetalCopyFromDevice
            && reads_single(s, l.source)
}

/// A copy still reads under the view of a single element once further copies are there.
pub proof fn lemma_single_kept(pre: GraphState, post: GraphState, d: NodeId)
    requires
        keeps(pre, post),
        pre.nodes.contains_key(d),
        pre.nodes[d] is MetalCopyFromDevice,
        reads_single(pre, d),
    ensures
        reads_single(post, d),
{
    let q = |t: NodeId, w: Dependency|
        t == d && w is Data && w->input_order == 0 && w->output_order == 0 && w->shape.is_scalar();
    let s = |l: Link| q(l.target, l.weight);
    assert(within(q, pre.nodes));
    assert(blind(q, pre.nodes));
    assert(tally(post.links, q) == tally(pre.links, q));
    let m = choose|m: Link| #[trigger] pre.links.contains(m) && reads_scalar(m, m.source, d);
    lemma_filter_contains(pre.links, s, m);
    let x = post.links.filter(s)[0];
    assert(post.links.filter(s).contains(x));
    lemma_filter_contains(post.links, s, x);
}

/// A link by which `y` reads the first tensor that `x` hands out as its first input, under the
/// view of a single element.
pub open spec fn reads_scalar(l: Link, x: NodeId, y: NodeId) -> bool {
    reads_first(l, x, y) && l.weight->input_order == 0 && l.weight->shape.is_scalar()
}

/// All that `f` hands out goes to `c`, which copies it to the device.
pub open spec fn handed_to(s: GraphState, f: NodeId, c: NodeId) -> bool {
    &&& hop(s, f, c)
    &&& s.nodes[c] is MetalCopyToDevice
    &&& exists|l: Link| #[trigger] s.links.contains(l) && reads_scalar(l, f, c)
    &&& forall|l: Link| #[trigger] s.links.contains(l) && l.source == f ==> l.target == c
}

/// Some link leads to `f`.
pub open spec fn has_inputs(s: GraphState, f: NodeId) -> bool {
    directed(s.links, f, Direction::Incoming).len() > 0
}

/// Node `n` is retrieved, kept and mapped to another if it was, and to the same.
pub open spec fn references_stay(pre: GraphState, s: GraphState, n: NodeId) -> bool {
    &&& s.to_retrieve.contains(n) == pre.to_retrieve.contains(n)
    &&& s.no_delete.contains(n) == pre.no_delete.contains(n)
    &&& s.id_remap.contains_key(n) == pre.id_remap.contains_key(n)
    &&& s.id_remap[n] == pre.id_remap[n]
}

/// What has become in `s` of the floats that function `f` of `pre` hands back: they go to a copy
/// `c`, which is retrieved if `f` was. Where `f` has inputs, `c` has taken its place.
pub open spec fn output_moved(pre: GraphState, s: GraphState, f: NodeId, c: NodeId) -> bool {
    &&& handed_to(s, f, c)
    &&& s.to_retrieve.contains(c) == pre.to_retrieve.contains(f)
    &&& if has_inputs(pre, f) {
        &&& s.id_remap.contains_key(f)
        &&& s.id_remap[f] == c
        &&& !s.to_retrieve.contains(f)
        &&& !s.no_delete.contains(f)
        &&& pre.no_delete.contains(f) ==> s.no_delete.contains(c)
    } else {
        references_stay(pre, s, f)
    }
}

/// The functions among `fs` that hand floats back and are retrieved.
pub open spec fn retrieved_floats(s: GraphState, fs: Seq<NodeId>) -> Set<NodeId> {
    Set::new(
        |n: NodeId|
            fs.contains(n) && s.to_retrieve.contains(n) && s.nodes[n] == Op::Function(
                Output::Floats,
            ),
    )
}

/// Where links come from that run through the copy of an output.
pub proof fn lemma_rerouted_link(
    links: Seq<Link>,
    f: NodeId,
    c: NodeId,
    scalar: Rc<ShapeTracker>,
    l: Link,
)
    requires
        rerouted(links, f, c, scalar).contains(l),
    ensures
        ({
            ||| links.contains(l) && l.source != f
            ||| l.source == f && l.target == c
            ||| l.source == c && links.contains(
                Link { source: f, target: l.target, weight: l.weight },
            )
        }),
{
    let out = directed(links, f, Direction::Outgoing);
    let kept = undirected(links, f, Direction::Outgoing);
    let all = rerouted(links, f, c, scalar);
    let i = choose|i: int| 0 <= i < all.len() && all[i] == l;
    if i < kept.len() {
        assert(kept[i] == l);
        assert(kept.contains(l));
        lemma_filter_contains(links, |l: Link| !meets(l, f, Direction::Outgoing), l);
    } else if i > kept.len() {
        let q = |l: Link| meets(l, f, Direction::Outgoing);
        let s = links.filter(q);
        let x = out[i - kept.len() - 1];
        assert(s[s.len() - 1 - (i - kept.len() - 1)] == x);
        assert(s.contains(x));
        lemma_filter_contains(links, q, x);
        assert(x == (Link { source: f, target: l.target, weight: l.weight }));
    }
}

/// Where links come from that run through the copies of inputs.
pub proof fn lemma_copied_link(
    s: GraphState,
    f: NodeId,
    ds: Seq<NodeId>,
    scalar: Rc<ShapeTracker>,
    l: Link,
) -> (m: Link)
    requires
        ds.len() == directed(s.links, f, Direction::Incoming).len(),
        inputs_copied(s, f, ds, scalar).links.contains(l),
    ensures
        ({
            ||| s.links.contains(l) && l.target != f
            ||| s.links.contains(m) && m.target == f && m.weight == l.weight && l.target == f
                && ds.contains(l.source) && inputs_copied(s, f, ds, scalar).links.contains(
                Link { source: m.source, target: l.source, weight: copy_input(scalar) },
            )
            ||| s.links.contains(m) && m.target == f && m.source == l.source && ds.contains(
                l.target,
            )
        }),
{
    let reads = directed(s.links, f, Direction::Incoming);
    let kept = undirected(s.links, f, Direction::Incoming);
    let new = copied_reads(reads, ds, f, scalar);
    let all = inputs_copied(s, f, ds, scalar).links;
    let i = choose|i: int| 0 <= i < all.len() && all[i] == l;
    if i < kept.len() {
        assert(kept[i] == l);
        assert(kept.contains(l));
        lemma_filter_contains(s.links, |l: Link| !meets(l, f, Direction::Incoming), l);
        l
    } else {
        let k = i - kept.len();
        assert(new[k] == l);
        assert(0 <= k / 2 < reads.len());
        let q = |l: Link| meets(l, f, Direction::Incoming);
        let r = s.links.filter(q);
        let x = reads[k / 2];
        assert(r[r.len() - 1 - k / 2] == x);
        assert(r.contains(x));
        lemma_filter_contains(s.links, q, x);
        assert(ds.contains(ds[k / 2]));
        if k % 2 == 1 {
            assert(new[k - 1] == all[i - 1]);
            assert((k - 1) / 2 == k / 2);
            assert(all[i - 1] == (Link {
                source: x.source,
                target: l.source,
                weight: copy_input(scalar),
            }));
        }
        x
    }
}

/// Once its output is copied, what a function hands out goes to the copy; other functions stay
/// set between copies where they were.
proof fn lemma_output_hosts(
    pre: GraphState,
    mid: GraphState,
    f: NodeId,
    scalar: Rc<ShapeTracker>,
)
    requires
        pre.closed(),
        pre.nodes.contains_key(f),
        pre.nodes[f] is Function,
        retrievable(pre),
        scalar.is_scalar(),
        output_step(pre, mid, f, scalar),
    ensures
        pre.nodes[f] == Op::Function(Output::Floats) ==> exists|c: NodeId|
            #[trigger] output_moved(pre, mid, f, c) && mid.nodes.contains_key(c)
                && !pre.nodes.contains_key(c),
        forall|g: NodeId|
            pre.nodes.contains_key(g) && #[trigger] fed_by_copies(pre, g) ==> fed_by_copies(
                mid,
                g,
            ),
        forall|g: NodeId, c: NodeId|
            pre.nodes.contains_key(g) && g != f && #[trigger] handed_to(pre, g, c) ==> handed_to(
                mid,
                g,
                c,
            ),
        forall|n: NodeId|
            n != f || pre.nodes[f] != Op::Function(Output::Floats) ==> (
            #[trigger] mid.id_remap.contains_key(n) == pre.id_remap.contains_key(n))
                && mid.id_remap[n] == pre.id_remap[n],
        forall|n: NodeId|
            pre.nodes.contains_key(n) && (n != f || pre.nodes[f] != Op::Function(Output::Floats))
                ==> #[trigger] mid.no_delete.contains(n) == pre.no_delete.contains(n),
{
    if pre.nodes[f] == Op::Function(Output::Floats) {
        let c = choose|c: NodeId|
            !pre.nodes.contains_key(c) && mid == #[trigger] output_copied(pre, f, c, scalar);
        let kept = undirected(pre.links, f, Direction::Outgoing);
        lemma_output_hop(pre, mid, f, c, scalar);
        lemma_output_keeps(pre, mid, f, scalar);
        assert forall|l: Link| #[trigger] mid.links.contains(l) && l.source == f implies l.target
            == c by {
            lemma_rerouted_link(pre.links, f, c, scalar, l);
        }
        let fc = Link { source: f, target: c, weight: copy_input(scalar) };
        assert(mid.links.contains(fc) && reads_scalar(fc, f, c));
        assert(handed_to(mid, f, c));
        assert(!pre.to_retrieve.contains(c));
        assert(output_moved(pre, mid, f, c));
        assert forall|g: NodeId|
            pre.nodes.contains_key(g) && #[trigger] fed_by_copies(pre, g) implies fed_by_copies(
            mid,
            g,
        ) by {
            assert forall|l: Link| #[trigger]
                mid.links.contains(l) && l.target
                    == g implies mid.nodes[l.source] is MetalCopyFromDevice && reads_single(
                mid,
                l.source,
            ) by {
                lemma_rerouted_link(pre.links, f, c, scalar, l);
                if pre.links.contains(l) {
                    lemma_closed_link(pre, l);
                    lemma_single_kept(pre, mid, l.source);
                }
            }
        }
        assert forall|g: NodeId, x: NodeId|
            pre.nodes.contains_key(g) && g != f && #[trigger] handed_to(
                pre,
                g,
                x,
            ) implies handed_to(mid, g, x) by {
            let m = choose|m: Link| #[trigger] pre.links.contains(m) && reads_scalar(m, g, x);
            lemma_filter_contains(pre.links, |l: Link| !meets(l, f, Direction::Outgoing), m);
            let k = choose|k: int| 0 <= k < kept.len() && kept[k] == m;
            assert(mid.links[k] == m);
            assert(mid.links.contains(m) && reads_scalar(m, g, x));
            lemma_hop_kept(pre, mid, g, x, m);
            assert forall|l: Link| #[trigger]
                mid.links.contains(l) && l.source == g implies l.target == x by {
                lemma_rerouted_link(pre.links, f, c, scalar, l);
            }
        }
    }
}

/// Once its inputs are copied, all that a function reads comes from copies; other functions
/// stay set between copies where they were.
proof fn lemma_input_hosts(
    mid: GraphState,
    post: GraphState,
    f: NodeId,
    scalar: Rc<ShapeTracker>,
)
    requires
        mid.closed(),
        mid.nodes.contains_key(f),
        mid.nodes[f] is Function,
        scalar.is_scalar(),
        input_step(mid, post, f, scalar),
    ensures
        fed_by_copies(post, f),
        forall|g: NodeId|
            mid.nodes.contains_key(g) && #[trigger] fed_by_copies(mid, g) ==> fed_by_copies(
                post,
                g,
            ),
        forall|g: NodeId, c: NodeId|
            mid.nodes.contains_key(g) && #[trigger] handed_to(mid, g, c) ==> handed_to(
                post,
                g,
                c,
            ),
{
    let ds = choose|ds: Seq<NodeId>|
        ds.len() == directed(mid.links, f, Direction::Incoming).len() && fresh(mid.nodes, ds)
            && post == #[trigger] inputs_copied(mid, f, ds, scalar);
    lemma_input_keeps(mid, post, f, scalar);
    assert forall|n: NodeId| ds.contains(n) implies !#[trigger] mid.nodes.contains_key(n)
        && post.nodes[n] is MetalCopyFromDevice by {
        let k = choose|k: int| 0 <= k < ds.len() && ds[k] == n;
        assert(!mid.nodes.contains_key(ds[k]));
    }
    assert forall|l: Link| #[trigger]
        post.links.contains(l) && l.target == f implies post.nodes[l.source] is MetalCopyFromDevice
        && reads_single(post, l.source) by {
        let m = lemma_copied_link(mid, f, ds, scalar, l);
        if ds.contains(l.source) {
            let x = Link { source: m.source, target: l.source, weight: copy_input(scalar) };
            if post.links.contains(x) {
                assert(reads_scalar(x, x.source, l.source));
            }
        }
    }
    assert forall|g: NodeId|
        mid.nodes.contains_key(g) && #[trigger] fed_by_copies(mid, g) implies fed_by_copies(
        post,
        g,
    ) by {
        assert forall|l: Link| #[trigger]
            post.links.contains(l) && l.target
                == g implies post.nodes[l.source] is MetalCopyFromDevice && reads_single(
            post,
            l.source,
        ) by {
            lemma_copied_link(mid, f, ds, scalar, l);
            if mid.links.contains(l) && g != f {
                lemma_closed_link(mid, l);
                lemma_single_kept(mid, post, l.source);
            }
        }
    }
    assert forall|g: NodeId, c: NodeId|
        mid.nodes.contains_key(g) && #[trigger] handed_to(mid, g, c) implies handed_to(
        post,
        g,
        c,
    ) by {
        let kept = undirected(mid.links, f, Direction::Incoming);
        let m = choose|m: Link| #[trigger] mid.links.contains(m) && reads_scalar(m, g, c);
        lemma_filter_contains(mid.links, |l: Link| !meets(l, f, Direction::Incoming), m);
        let k = choose|k: int| 0 <= k < kept.len() && kept[k] == m;
        assert(post.links[k] == m);
        lemma_hop_kept(mid, post, g, c, m);
        assert(post.nodes.contains_key(c) && post.nodes[c] == mid.nodes[c]) by {
            assert(mid.nodes.contains_key(c));
        }
        assert forall|l: Link| #[trigger]
            post.links.contains(l) && l.source == g implies l.target == c by {
            let r = lemma_copied_link(mid, f, ds, scalar, l);
            if mid.links.contains(r) && r.source == g {
                assert(r.target == c);
            }
            if mid.links.contains(l) {
                assert(l.target == c);
            }
        }
    }
}

/// The nodes that are retrieved but for the functions are finitely many.
pub proof fn lemma_outputs_finite(s: GraphState)
    requires
        s.closed(),
        retrievable(s),
    ensures
        outputs(s).finite(),
{
    assert(outputs(s).subset_of(s.nodes.dom()));
    vstd::set_lib::lemma_len_subset(outputs(s), s.nodes.dom());
}

/// Where the output of a function is copied, the copy is retrieved if the function was.
proof fn lemma_output_retrieves(
    pre: GraphState,
    mid: GraphState,
    f: NodeId,
    scalar: Rc<ShapeTracker>,
)
    requires
        pre.closed(),
        pre.nodes.contains_key(f),
        pre.nodes[f] is Function,
        retrievable(pre),
        output_step(pre, mid, f, scalar),
    ensures
        retrievable(mid),
        outputs(mid).len() == outputs(pre).len() + if pre.to_retrieve.contains(f)
            && pre.nodes[f] == Op::Function(Output::Floats) {
            1nat
        } else {
            0nat
        },
        forall|n: NodeId|
            pre.nodes.contains_key(n) && (n != f || pre.nodes[f] != Op::Function(Output::Floats))
                ==> #[trigger] mid.to_retrieve.contains(n) == pre.to_retrieve.contains(n),
{
    lemma_output_keeps(pre, mid, f, scalar);
    lemma_outputs_finite(pre);
    if pre.nodes[f] == Op::Function(Output::Floats) {
        let c = choose|c: NodeId|
            !pre.nodes.contains_key(c) && mid == #[trigger] output_copied(pre, f, c, scalar);
        let fc = Link { source: f, target: c, weight: copy_input(scalar) };
        assert(inputs(mid.links, c).len() > 0) by {
            let kept = undirected(pre.links, f, Direction::Outgoing);
            assert(mid.links[kept.len() as int] == fc);
            assert(mid.links.contains(fc));
            let q = |l: Link| reads_tensor(c)(l.target, l.weight);
            lemma_filter_contains(mid.links, q, fc);
            assert(mid.links.filter(q).contains(fc));
            lemma_inputs_tally(mid.links, c);
        }
        assert forall|n: NodeId| #[trigger]
            mid.to_retrieve.contains(n) implies mid.nodes.contains_key(n) && (
        mid.nodes[n] is Function || inputs(mid.links, n).len() > 0) by {
            if n != c {
                assert(pre.to_retrieve.contains(n));
                lemma_keeps_inputs(pre, mid, n);
            }
        }
        if pre.to_retrieve.contains(f) {
            assert(mid.to_retrieve.contains(c));
            assert(outputs(mid) =~= outputs(pre).insert(c)) by {
                assert forall|n: NodeId| outputs(mid).contains(n) == outputs(pre).insert(
                    c,
                ).contains(n) by {
                    if pre.to_retrieve.contains(n) {
                        assert(pre.nodes.contains_key(n));
                    }
                }
            }
            assert(!outputs(pre).contains(c));
        } else {
            assert(mid.to_retrieve =~= pre.to_retrieve);
            assert(outputs(mid) =~= outputs(pre)) by {
                assert forall|n: NodeId| outputs(mid).contains(n) == outputs(pre).contains(n) by {
                    if pre.to_retrieve.contains(n) {
                        assert(pre.nodes.contains_key(n));
                    }
                }
            }
        }
    }
}

/// Copying the inputs of a function leaves what is retrieved.
proof fn lemma_input_retrieves(
    mid: GraphState,
    post: GraphState,
    f: NodeId,
    scalar: Rc<ShapeTracker>,
)
    requires
        mid.closed(),
        mid.nodes.contains_key(f),
        retrievable(mid),
        input_step(mid, post, f, scalar),
    ensures
        retrievable(post),
        post.to_retrieve == mid.to_retrieve,
        post.no_delete == mid.no_delete,
        post.id_remap == mid.id_remap,
        outputs(post) == outputs(mid),
{
    lemma_input_keeps(mid, post, f, scalar);
    assert forall|n: NodeId| #[trigger]
        post.to_retrieve.contains(n) implies post.nodes.contains_key(n) && (
    post.nodes[n] is Function || inputs(post.links, n).len() > 0) by {
        assert(mid.to_retrieve.contains(n));
        lemma_keeps_inputs(mid, post, n);
    }
    assert(outputs(post) =~= outputs(mid)) by {
        assert forall|n: NodeId| outputs(post).contains(n) == outputs(mid).contains(n) by {
            if mid.to_retrieve.contains(n) {
                assert(mid.nodes.contains_key(n));
            }
        }
    }
}

/// Setting functions between copies keeps the graph, feeds them from copies, moves the floats
/// that they hand back to copies, and adds to what is retrieved the copies of the floats that
/// were.
pub proof fn lemma_functions_copied(
    pre: GraphState,
    post: GraphState,
    fs: Seq<NodeId>,
    scalar: Rc<ShapeTracker>,
)
    requires
        pre.closed(),
        retrievable(pre),
        scalar.is_scalar(),
        fs.no_duplicates(),
        forall|k: int|
            0 <= k < fs.len() ==> pre.nodes.contains_key(#[trigger] fs[k])
                && pre.nodes[fs[k]] is Function,
        functions_copied(pre, post, fs, scalar),
    ensures
        keeps(pre, post),
        retrievable(post),
        outputs(post).len() == outputs(pre).len() + retrieved_floats(pre, fs).len(),
        retrieved_floats(pre, fs).finite(),
        forall|n: NodeId|
            pre.nodes.contains_key(n) && !(fs.contains(n) && pre.nodes[n] == Op::Function(
                Output::Floats,
            )) ==> #[trigger] post.to_retrieve.contains(n) == pre.to_retrieve.contains(n),
        forall|n: NodeId|
            !(fs.contains(n) && pre.nodes[n] == Op::Function(Output::Floats)) ==> (
            #[trigger] post.id_remap.contains_key(n) == pre.id_remap.contains_key(n))
                && post.id_remap[n] == pre.id_remap[n],
        forall|n: NodeId|
            pre.nodes.contains_key(n) && !(fs.contains(n) && pre.nodes[n] == Op::Function(
                Output::Floats,
            )) ==> #[trigger] post.no_delete.contains(n) == pre.no_delete.contains(n),
        forall|k: int| 0 <= k < fs.len() ==> fed_by_copies(post, #[trigger] fs[k]),
        forall|k: int|
            0 <= k < fs.len() && pre.nodes[#[trigger] fs[k]] == Op::Function(Output::Floats)
                ==> exists|c: NodeId| #[trigger] output_moved(pre, post, fs[k], c),
    decreases fs.len(),
{
    if fs.len() == 0 {
        lemma_keeps_refl(pre);
        assert(retrieved_floats(pre, fs) =~= Set::<NodeId>::empty());
    } else {
        let r = fs.drop_last();
        let f = fs.last();
        let mid = choose|mid: GraphState|
            functions_copied(pre, mid, r, scalar) && #[trigger] function_copied(
                mid,
                post,
                f,
                scalar,
            );
        assert forall|k: int| 0 <= k < r.len() implies pre.nodes.contains_key(#[trigger] r[k])
            && pre.nodes[r[k]] is Function by {
            assert(r[k] == fs[k]);
        }
        lemma_functions_copied(pre, mid, r, scalar);
        assert(fs[fs.len() - 1] == f);
        lemma_last_once(fs);
        lemma_contains_last(fs);
        let copied = choose|copied: GraphState| #[trigger]
            output_step(mid, copied, f, scalar) && input_step(copied, post, f, scalar);
        assert(mid.nodes.contains_key(f) && mid.nodes[f] == pre.nodes[f]);
        lemma_output_keeps(mid, copied, f, scalar);
        lemma_output_hosts(mid, copied, f, scalar);
        lemma_output_retrieves(mid, copied, f, scalar);
        assert(copied.nodes.contains_key(f) && copied.nodes[f] == pre.nodes[f]);
        lemma_input_keeps(copied, post, f, scalar);
        lemma_input_hosts(copied, post, f, scalar);
        lemma_input_retrieves(copied, post, f, scalar);
        lemma_keeps_trans(mid, copied, post);
        lemma_keeps_trans(pre, mid, post);
        assert forall|n: NodeId|
            pre.nodes.contains_key(n) && !(fs.contains(n) && pre.nodes[n] == Op::Function(
                Output::Floats,
            )) implies #[trigger] post.to_retrieve.contains(n) == pre.to_retrieve.contains(n) by {
            assert(mid.nodes.contains_key(n));
            assert(copied.to_retrieve.contains(n) == mid.to_retrieve.contains(n));
        }
        assert forall|n: NodeId|
            !(fs.contains(n) && pre.nodes[n] == Op::Function(Output::Floats)) implies (
        #[trigger] post.id_remap.contains_key(n) == pre.id_remap.contains_key(n))
            && post.id_remap[n] == pre.id_remap[n] by {
            assert(copied.id_remap.contains_key(n) == mid.id_remap.contains_key(n));
            assert(mid.id_remap.contains_key(n) == pre.id_remap.contains_key(n));
        }
        assert forall|n: NodeId|
            pre.nodes.contains_key(n) && !(fs.contains(n) && pre.nodes[n] == Op::Function(
                Output::Floats,
            )) implies #[trigger] post.no_delete.contains(n) == pre.no_delete.contains(n) by {
            assert(mid.nodes.contains_key(n));
            assert(copied.no_delete.contains(n) == mid.no_delete.contains(n));
            assert(mid.no_delete.contains(n) == pre.no_delete.contains(n));
        }
        assert(mid.to_retrieve.contains(f) == pre.to_retrieve.contains(f));
        assert(mid.no_delete.contains(f) == pre.no_delete.contains(f));
        assert(mid.id_remap.contains_key(f) == pre.id_remap.contains_key(f));
        if pre.to_retrieve.contains(f) && pre.nodes[f] == Op::Function(Output::Floats) {
            assert(retrieved_floats(pre, fs) =~= retrieved_floats(pre, r).insert(f));
        } else {
            assert(retrieved_floats(pre, fs) =~= retrieved_floats(pre, r));
        }
        assert forall|k: int| 0 <= k < fs.len() implies fed_by_copies(post, #[trigger] fs[k]) by {
            if k < r.len() {
                assert(r[k] == fs[k]);
                assert(mid.nodes.contains_key(fs[k]));
                assert(fed_by_copies(mid, r[k]));
                assert(fed_by_copies(copied, r[k]));
            }
        }
        assert(has_inputs(mid, f) == has_inputs(pre, f)) by {
            lemma_keeps_incoming(pre, mid, f);
        }
        assert forall|k: int|
            0 <= k < fs.len() && pre.nodes[#[trigger] fs[k]] == Op::Function(
                Output::Floats,
            ) implies exists|c: NodeId| #[trigger] output_moved(pre, post, fs[k], c) by {
            if k < r.len() {
                assert(r[k] == fs[k]);
                assert(r.contains(r[k]));
                assert(pre.nodes[r[k]] == Op::Function(Output::Floats));
                let c = choose|c: NodeId| #[trigger] output_moved(pre, mid, r[k], c);
                assert(mid.nodes.contains_key(fs[k]));
                assert(handed_to(copied, fs[k], c));
                assert(mid.nodes.contains_key(c));
                assert(copied.to_retrieve.contains(c) == mid.to_retrieve.contains(c));
                assert(copied.to_retrieve.contains(fs[k]) == mid.to_retrieve.contains(fs[k]));
                assert(copied.id_remap.contains_key(fs[k]) == mid.id_remap.contains_key(fs[k]));
                assert(copied.no_delete.contains(c) == mid.no_delete.contains(c));
                assert(copied.no_delete.contains(fs[k]) == mid.no_delete.contains(fs[k]));
                assert(output_moved(pre, post, fs[k], c));
            } else {
                let c = choose|c: NodeId| #[trigger]
                    output_moved(mid, copied, f, c) && copied.nodes.contains_key(c)
                        && !mid.nodes.contains_key(c);
                assert(handed_to(post, f, c));
                assert(output_moved(pre, post, fs[k], c));
            }
        }
    }
}

/// Setting functions between copies adds as many nodes and links as it takes copies.
pub proof fn lemma_functions_counted(
    pre: GraphState,
    post: GraphState,
    fs: Seq<NodeId>,
    scalar: Rc<ShapeTracker>,
)
    requires
        pre.closed(),
        forall|k: int| 0 <= k < fs.len() ==> pre.nodes.contains_key(#[trigger] fs[k]),
        functions_copied(pre, post, fs, scalar),
    ensures
        keeps(pre, post),
        post.nodes.dom().len() == pre.nodes.dom().len() + copies_of_all(pre, fs),
        post.links.len() == pre.links.len() + copies_of_all(pre, fs),
    decreases fs.len(),
{
    if fs.len() == 0 {
        lemma_keeps_refl(pre);
    } else {
        let r = fs.drop_last();
        let f = fs.last();
        let mid = choose|mid: GraphState|
            functions_copied(pre, mid, r, scalar) && #[trigger] function_copied(
                mid,
                post,
                f,
                scalar,
            );
        assert forall|k: int| 0 <= k < r.len() implies pre.nodes.contains_key(#[trigger] r[k]) by {
            assert(r[k] == fs[k]);
        }
        lemma_functions_counted(pre, mid, r, scalar);
        assert(fs[fs.len() - 1] == f);
        assert(r.push(f) =~= fs);
        lemma_copies_of_all_push(pre, r, f);
        let copied = choose|copied: GraphState| #[trigger]
            output_step(mid, copied, f, scalar) && input_step(copied, post, f, scalar);
        assert(mid.nodes.contains_key(f) && mid.nodes[f] == pre.nodes[f]);
        lemma_output_keeps(mid, copied, f, scalar);
        lemma_output_step(mid, copied, f, scalar);
        assert(copied.nodes.contains_key(f));
        lemma_input_keeps(copied, post, f, scalar);
        lemma_input_step(copied, post, f, scalar);
        lemma_keeps_trans(mid, copied, post);
        lemma_keeps_trans(pre, mid, post);
        lemma_keeps_incoming(pre, mid, f);
        lemma_keeps_incoming(mid, copied, f);
    }
}

} // verus!
