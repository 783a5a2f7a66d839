//! What holds of a compiled graph.
use crate::copies::{copy_input, fresh, within};
use crate::flow::{
    delivered, delivers, flows, flows_in, hop, is_copy, lemma_functions_refine, lemma_hop_kept,
    lemma_outputs_hop, lemma_outputs_refine, lemma_prints_refine, lemma_refines_trans, reads_first,
    refines, sourced, stays_bare,
};
use crate::frame::{blind, keeps, lemma_closed_link, lemma_keeps_inputs, lemma_keeps_trans};
use crate::functions::{functions, functions_copied, lemma_function_copies};
use crate::graph::{inputs, lists, Dependency, GraphState, Input, Link, NodeId};
use crate::host::{
    fed_by_copies, handed_to, has_inputs, lemma_functions_copied, lemma_functions_counted,
    output_moved, reads_scalar, references_stay,
};
use crate::kernel::{
    all_requested, kernel_of, lemma_kernel_from_template, lemma_requested_unique, unique_names,
    KernelText,
};
use crate::lower::{
    at_place, has_place, lemma_template_of_node, lowered, swapped, template_of, templates, views,
};
use crate::meaning::{acyclic, lemma_place_link};
use crate::ops::{Op, Output};
use crate::order::{lemma_functions_acyclic, lemma_outputs_acyclic, lemma_prints_acyclic};
use crate::outputs::{largest, names, outputs, outputs_copied, retrieves, Retrieved};
use crate::places::{
    distinct_places, lemma_in_order_same, lemma_place_kept, lemma_place_links, place_links,
};
use crate::primitive::{
    compiled, copies, functions_done, lemma_functions_stage, lemma_listed_prints, lemma_outs_len,
    lemma_same_prints, outputs_done, prints_done, ready,
};
use crate::prints::{latest_read, lemma_latest_read, prints, prints_copied};
use crate::seqs::lemma_filter_contains;
use crate::shape::ShapeTracker;
use crate::steps::{lemma_outputs_copied, lemma_prints_copied, prints_copy};
use crate::tally::tally;
use std::rc::Rc;
use vstd::prelude::*;

verus! {

/// Node `n` has given way to a copy of it from the device, which is retrieved in its stead.
pub open spec fn retrieved_by_copy(s: GraphState, n: NodeId) -> bool {
    let d = s.id_remap[n];
    &&& s.id_remap.contains_key(n)
    &&& s.to_retrieve.contains(d)
    &&& s.nodes.contains_key(d)
    &&& s.nodes[d] is MetalCopyFromDevice
    &&& hop(s, n, d)
}

/// Node `n` is not kept, and where it was, the node that it is mapped to is kept in its stead.
pub open spec fn kept_by_copy(pre: GraphState, s: GraphState, n: NodeId) -> bool {
    !s.no_delete.contains(n) && (pre.no_delete.contains(n) ==> s.no_delete.contains(
        s.id_remap[n],
    ))
}

/// A link by which a copy reads all of `n` under the largest of the views under which `n` read: the
/// view is one of those, and no other has more physical elements.
pub open spec fn reads_largest(pre: GraphState, n: NodeId, l: Link) -> bool {
    &&& l.source == n
    &&& l.weight is Data
    &&& l.weight->input_order == 0
    &&& l.weight->output_order == 0
    &&& exists|x: Link| #[trigger]
        pre.links.contains(x) && x.target == n && x.weight is Data && x.weight->shape
            == l.weight->shape
    &&& forall|x: Link| #[trigger]
        pre.links.contains(x) && x.target == n && x.weight is Data ==> x.weight->shape.physical
            <= l.weight->shape.physical
}

/// Node `n` is copied, by the node that it is mapped to, under the largest of its views.
pub open spec fn copied_largest(pre: GraphState, s: GraphState, n: NodeId) -> bool {
    exists|l: Link| #[trigger]
        s.links.contains(l) && l.target == s.id_remap[n] && reads_largest(pre, n, l)
}

/// A node reads a tensor exactly where a link carries it there.
proof fn lemma_input_link(links: Seq<Link>, n: NodeId, t: Input)
    ensures
        inputs(links, n).contains(t) <==> exists|l: Link| #[trigger]
            links.contains(l) && l.target == n && l.weight == (Dependency::Data {
                input_order: t.0,
                output_order: t.1,
                shape: t.2,
            }),
{
    let p = place_links(links, n, t.0);
    let f = |l: Link| (l.weight->input_order, l.weight->output_order, l.weight->shape);
    lemma_place_links(links, n, t.0);
    lemma_filter_contains(inputs(links, n), has_place(t.0), t);
    if inputs(links, n).contains(t) {
        assert(p.map_values(f).contains(t));
        let i = choose|i: int| 0 <= i < p.len() && p.map_values(f)[i] == t;
        assert(p.contains(p[i]));
        lemma_place_link(links, n, t.0, p[i]);
        assert(links.contains(p[i]));
    }
    if exists|l: Link| #[trigger]
        links.contains(l) && l.target == n && l.weight == (Dependency::Data {
            input_order: t.0,
            output_order: t.1,
            shape: t.2,
        }) {
        let l = choose|l: Link| #[trigger]
            links.contains(l) && l.target == n && l.weight == (Dependency::Data {
                input_order: t.0,
                output_order: t.1,
                shape: t.2,
            });
        lemma_place_link(links, n, t.0, l);
        let i = choose|i: int| 0 <= i < p.len() && p[i] == l;
        assert(p.map_values(f)[i] == t);
    }
}

/// The largest view is one of the views, and none has more physical elements.
proof fn lemma_largest(tensors: Seq<Input>)
    requires
        tensors.len() > 0,
    ensures
        exists|i: int| 0 <= i < tensors.len() && (#[trigger] tensors[i]).2 == largest(tensors),
        forall|i: int|
            0 <= i < tensors.len() ==> (#[trigger] tensors[i]).2.physical <= largest(
                tensors,
            ).physical,
    decreases tensors.len(),
{
    if tensors.len() == 1 {
        assert(tensors[0].2 == largest(tensors));
    } else {
        let r = tensors.drop_last();
        lemma_largest(r);
        let i = choose|i: int| 0 <= i < r.len() && (#[trigger] r[i]).2 == largest(r);
        assert(tensors[i] == r[i]);
        assert(tensors[tensors.len() - 1] == tensors.last());
        assert forall|j: int| 0 <= j < tensors.len() implies (#[trigger] tensors[j]).2.physical
            <= largest(tensors).physical by {
            if j < r.len() {
                assert(r[j] == tensors[j]);
            }
        }
    }
}

/// Where copies are inserted, a node that is no print is reached by a link that carries something
/// exactly where it was.
proof fn lemma_weight_kept(pre: GraphState, post: GraphState, n: NodeId, w: Dependency)
    requires
        keeps(pre, post),
        pre.nodes.contains_key(n),
        !(pre.nodes[n] is Print),
    ensures
        (exists|l: Link| #[trigger] pre.links.contains(l) && l.target == n && l.weight == w) <==> (
        exists|l: Link| #[trigger] post.links.contains(l) && l.target == n && l.weight == w),
{
    let q = |t: NodeId, v: Dependency| t == n && v == w;
    let s = |l: Link| q(l.target, l.weight);
    assert(within(q, pre.nodes));
    assert(blind(q, pre.nodes));
    assert(tally(post.links, q) == tally(pre.links, q));
    if exists|l: Link| #[trigger] pre.links.contains(l) && l.target == n && l.weight == w {
        let l = choose|l: Link| #[trigger] pre.links.contains(l) && l.target == n && l.weight == w;
        lemma_filter_contains(pre.links, s, l);
        let x = post.links.filter(s)[0];
        assert(post.links.filter(s).contains(x));
        lemma_filter_contains(post.links, s, x);
    }
    if exists|l: Link| #[trigger] post.links.contains(l) && l.target == n && l.weight == w {
        let l = choose|l: Link| #[trigger] post.links.contains(l) && l.target == n && l.weight == w;
        lemma_filter_contains(post.links, s, l);
        let x = pre.links.filter(s)[0];
        assert(pre.links.filter(s).contains(x));
        lemma_filter_contains(pre.links, s, x);
    }
}

/// A copy that reads under the largest view of what a node reads once functions are set between
/// copies reads under the largest of what it read before.
proof fn lemma_reads_largest(pre: GraphState, a: GraphState, n: NodeId, l: Link)
    requires
        keeps(pre, a),
        pre.nodes.contains_key(n),
        !(pre.nodes[n] is Print),
        inputs(a.links, n).len() > 0,
        l.source == n,
        l.weight == copy_input(largest(inputs(a.links, n))),
    ensures
        reads_largest(pre, n, l),
{
    let ts = inputs(a.links, n);
    lemma_largest(ts);
    let i = choose|i: int| 0 <= i < ts.len() && (#[trigger] ts[i]).2 == largest(ts);
    let t = ts[i];
    let w = Dependency::Data { input_order: t.0, output_order: t.1, shape: t.2 };
    assert(ts.contains(t));
    lemma_input_link(a.links, n, t);
    lemma_weight_kept(pre, a, n, w);
    let x = choose|x: Link| #[trigger] pre.links.contains(x) && x.target == n && x.weight == w;
    assert(x.weight->shape == l.weight->shape);
    assert forall|x: Link| #[trigger]
        pre.links.contains(x) && x.target == n && x.weight is Data implies x.weight->shape.physical
        <= l.weight->shape.physical by {
        let u = (x.weight->input_order, x.weight->output_order, x.weight->shape);
        lemma_weight_kept(pre, a, n, x.weight);
        lemma_input_link(a.links, n, u);
        let j = choose|j: int| 0 <= j < ts.len() && ts[j] == u;
        assert(ts[j].2.physical <= largest(ts).physical);
    }
}

/// What has become in `s` of the floats that function `f` of `pre` hands back: they go to a copy
/// `c` to the device, and where `f` was retrieved, `c` has given way to a copy of it from the
/// device, which is. Where `f` has inputs, `c` has taken its place, also among what is kept, unless
/// it has given way itself; else `f` is retrieved, kept and mapped to another if it was.
pub open spec fn output_hosted(pre: GraphState, s: GraphState, f: NodeId, c: NodeId) -> bool {
    &&& handed_to(s, f, c)
    &&& pre.to_retrieve.contains(f) ==> retrieved_by_copy(s, c)
    &&& if has_inputs(pre, f) {
        &&& s.id_remap.contains_key(f)
        &&& s.id_remap[f] == c
        &&& !s.to_retrieve.contains(f)
        &&& !s.no_delete.contains(f)
        &&& pre.no_delete.contains(f) ==> s.no_delete.contains(
            if pre.to_retrieve.contains(f) {
                s.id_remap[c]
            } else {
                c
            },
        )
    } else {
        references_stay(pre, s, f)
    }
}

/// The graph that a compilation holds when only the primitive operators are left to swap, and
/// what holds of it.
pub proof fn lemma_copied(pre: GraphState, post: GraphState, kernels: Seq<KernelText>) -> (c:
    GraphState)
    requires
        pre.closed(),
        ready(pre),
        compiled(pre, post, kernels),
    ensures
        keeps(pre, c),
        refines(pre, c),
        swapped(c, post, kernels),
        c.nodes.dom().len() == pre.nodes.dom().len() + copies(pre),
        c.links.len() == pre.links.len() + copies(pre),
        forall|f: NodeId| #[trigger]
            functions(pre.nodes).contains(f) ==> fed_by_copies(c, f) && (pre.nodes[f]
                == Op::Function(Output::Floats) ==> exists|x: NodeId| #[trigger]
                output_hosted(pre, c, f, x)),
        forall|p: NodeId| #[trigger] prints(pre.nodes).contains(p) ==> prints_copy(c, p),
        forall|n: NodeId| #[trigger]
            c.to_retrieve.contains(n) ==> c.nodes.contains_key(n) && (c.nodes[n] is Function
                || c.nodes[n] is MetalCopyFromDevice),
        forall|n: NodeId| #[trigger]
            outputs(pre).contains(n) ==> retrieved_by_copy(c, n) && kept_by_copy(pre, c, n) && (
            !(pre.nodes[n] is Print) ==> copied_largest(pre, c, n)),
        forall|f: NodeId| #[trigger]
            functions(pre.nodes).contains(f) && pre.nodes[f] == Op::Function(Output::Other)
                ==> references_stay(pre, c, f),
        forall|n: NodeId| #[trigger]
            pre.nodes.contains_key(n) && !(pre.nodes[n] is Function) && !pre.to_retrieve.contains(n)
                ==> references_stay(pre, c, n),
        forall|d: NodeId| #[trigger]
            c.to_retrieve.contains(d) && !(c.nodes[d] is Function)
                ==> c.id_remap.contains_key(d) == pre.id_remap.contains_key(d),
        acyclic(pre) ==> acyclic(c),
{
    let (scalar, a, b, c) = choose|
        scalar: Rc<ShapeTracker>,
        a: GraphState,
        b: GraphState,
        c: GraphState,
    | #[trigger]
        functions_done(pre, a, scalar) && #[trigger] outputs_done(a, b) && #[trigger] prints_done(
            b,
            c,
        ) && swapped(c, post, kernels);
    let fs = choose|fs: Seq<NodeId>|
        lists(fs, functions(pre.nodes)) && #[trigger] functions_copied(pre, a, fs, scalar);
    let (outs, ds) = choose|outs: Seq<Retrieved>, ds: Seq<NodeId>|
        retrieves(outs, a) && ds.len() == outs.len() && fresh(a.nodes, ds) && b
            == #[trigger] outputs_copied(a, outs, ds);
    let ps = choose|ps: Seq<NodeId>|
        lists(ps, prints(b.nodes)) && #[trigger] prints_copied(b, c, ps);
    lemma_functions_stage(pre, a, fs, scalar);
    assert(fs.no_duplicates());
    assert forall|k: int| 0 <= k < fs.len() implies pre.nodes.contains_key(#[trigger] fs[k])
        && pre.nodes[fs[k]] is Function by {
        assert(fs.contains(fs[k]));
    }
    lemma_functions_copied(pre, a, fs, scalar);
    lemma_functions_refine(pre, a, fs, scalar);
    lemma_functions_counted(pre, a, fs, scalar);
    lemma_function_copies(pre, fs);
    lemma_outs_len(a, outs);
    lemma_outputs_copied(a, outs, ds);
    lemma_outputs_refine(a, outs, ds);
    lemma_same_prints(pre, a);
    lemma_same_prints(a, b);
    lemma_listed_prints(b, ps);
    lemma_prints_copied(b, c, ps);
    lemma_prints_refine(b, c, ps);
    ps.unique_seq_to_set();
    assert(ps.to_set() =~= prints(b.nodes));
    lemma_keeps_trans(pre, a, b);
    lemma_keeps_trans(pre, b, c);
    lemma_keeps_trans(a, b, c);
    lemma_refines_trans(a, b, c);
    lemma_refines_trans(pre, a, c);
    assert forall|p: NodeId| #[trigger] prints(pre.nodes).contains(p) implies prints_copy(c, p) by {
        assert(ps.contains(p));
        let k = choose|k: int| 0 <= k < ps.len() && ps[k] == p;
        assert(prints_copy(c, ps[k]));
    }
    assert forall|d: NodeId| ds.contains(d) implies #[trigger] b.nodes.contains_key(d)
        && b.nodes[d] is MetalCopyFromDevice by {
        let k = choose|k: int| 0 <= k < ds.len() && ds[k] == d;
        lemma_outputs_hop(a, outs, ds, k);
    }
    assert forall|n: NodeId| #[trigger] c.to_retrieve.contains(n) implies c.nodes.contains_key(n)
        && (c.nodes[n] is Function || c.nodes[n] is MetalCopyFromDevice) by {
        assert(b.to_retrieve.contains(n));
        if !ds.contains(n) {
            assert(a.to_retrieve.contains(n));
            assert(a.nodes.contains_key(n));
        }
        assert(b.nodes.contains_key(n));
    }
    assert forall|n: NodeId| #[trigger] outputs(a).contains(n) implies retrieved_by_copy(
        c,
        n,
    ) && kept_by_copy(a, c, n) && (pre.nodes.contains_key(n) && !(pre.nodes[n] is Print)
        ==> copied_largest(pre, c, n)) by {
        assert(a.to_retrieve.contains(n));
        assert(a.nodes.contains_key(n));
        assert(names(outs).to_set().contains(n));
        let i = choose|i: int| 0 <= i < names(outs).len() && names(outs)[i] == n;
        assert(outs[i].0 == n);
        let d = ds[i];
        assert(ds.contains(d));
        assert(b.id_remap[outs[i].0] == d);
        assert(b.to_retrieve.contains(d));
        assert(b.nodes.contains_key(d));
        lemma_outputs_hop(a, outs, ds, i);
        let l = Link { source: n, target: d, weight: copy_input(outs[i].1) };
        assert(c.links.contains(l));
        lemma_hop_kept(b, c, n, d, l);
        if pre.nodes.contains_key(n) && !(pre.nodes[n] is Print) {
            assert(inputs(a.links, n).len() > 0);
            lemma_reads_largest(pre, a, n, l);
            assert(copied_largest(pre, c, n));
        }
    }
    assert forall|n: NodeId| #[trigger]
        pre.nodes.contains_key(n) && !(pre.nodes[n] is Function)
            && !pre.to_retrieve.contains(n) implies references_stay(pre, c, n) by {
        assert(a.nodes.contains_key(n));
        assert(!ds.contains(n)) by {
            if ds.contains(n) {
                let j = choose|j: int| 0 <= j < ds.len() && ds[j] == n;
                assert(!a.nodes.contains_key(ds[j]));
            }
        }
        assert(a.to_retrieve.contains(n) == pre.to_retrieve.contains(n));
        assert(a.no_delete.contains(n) == pre.no_delete.contains(n));
        assert(a.id_remap.contains_key(n) == pre.id_remap.contains_key(n));
        assert(!outputs(a).contains(n));
        assert(b.to_retrieve.contains(n) == a.to_retrieve.contains(n));
        assert(b.no_delete.contains(n) == a.no_delete.contains(n));
        assert(b.id_remap.contains_key(n) == a.id_remap.contains_key(n));
    }
    assert forall|n: NodeId| #[trigger] outputs(pre).contains(n) implies retrieved_by_copy(
        c,
        n,
    ) && kept_by_copy(pre, c, n) && (!(pre.nodes[n] is Print) ==> copied_largest(pre, c, n)) by {
        assert(pre.to_retrieve.contains(n));
        assert(pre.nodes.contains_key(n));
        assert(!fs.contains(n)) by {
            assert(fs.contains(n) <==> functions(pre.nodes).contains(n));
        }
        assert(a.to_retrieve.contains(n));
        assert(a.no_delete.contains(n) == pre.no_delete.contains(n));
        assert(outputs(a).contains(n));
    }
    assert forall|f: NodeId| #[trigger] functions(pre.nodes).contains(f) implies references_stay(
        a,
        c,
        f,
    ) by {
        assert(pre.nodes.contains_key(f));
        assert(a.nodes.contains_key(f));
        assert(!ds.contains(f)) by {
            if ds.contains(f) {
                let j = choose|j: int| 0 <= j < ds.len() && ds[j] == f;
                assert(!a.nodes.contains_key(ds[j]));
            }
        }
        assert(!outputs(a).contains(f));
        assert(b.to_retrieve.contains(f) == a.to_retrieve.contains(f));
        assert(b.no_delete.contains(f) == a.no_delete.contains(f));
        assert(b.id_remap.contains_key(f) == a.id_remap.contains_key(f));
    }
    assert forall|f: NodeId| #[trigger] functions(pre.nodes).contains(f) implies fed_by_copies(
        c,
        f,
    ) && (pre.nodes[f] == Op::Function(Output::Floats) ==> exists|x: NodeId| #[trigger]
        output_hosted(pre, c, f, x)) by {
        assert(fs.contains(f));
        let k = choose|k: int| 0 <= k < fs.len() && fs[k] == f;
        assert(fed_by_copies(a, fs[k]));
        assert(pre.nodes.contains_key(f));
        assert(a.nodes.contains_key(f));
        assert(b.nodes.contains_key(f));
        assert(fed_by_copies(b, f));
        if pre.nodes[f] == Op::Function(Output::Floats) {
            assert(pre.nodes[fs[k]] == Op::Function(Output::Floats));
            let x = choose|x: NodeId| #[trigger] output_moved(pre, a, fs[k], x);
            assert(handed_to(b, f, x));
            assert(handed_to(c, f, x));
            if pre.to_retrieve.contains(f) {
                assert(outputs(a).contains(x));
            }
            assert(references_stay(a, c, f));
            assert(b.id_remap.contains_key(f) == a.id_remap.contains_key(f));
            assert(a.nodes.contains_key(x));
            if !pre.to_retrieve.contains(f) {
                assert(!outputs(a).contains(x));
                assert(b.no_delete.contains(x) == a.no_delete.contains(x));
            }
            assert(output_hosted(pre, c, f, x));
        }
    }
    assert forall|f: NodeId| #[trigger]
        functions(pre.nodes).contains(f) && pre.nodes[f] == Op::Function(
            Output::Other,
        ) implies references_stay(pre, c, f) by {
        assert(pre.nodes.contains_key(f));
        assert(references_stay(a, c, f));
        assert(a.to_retrieve.contains(f) == pre.to_retrieve.contains(f));
        assert(a.no_delete.contains(f) == pre.no_delete.contains(f));
        assert(a.id_remap.contains_key(f) == pre.id_remap.contains_key(f));
    }
    assert forall|d: NodeId| #[trigger]
        c.to_retrieve.contains(d) && !(c.nodes[d] is Function) implies c.id_remap.contains_key(d)
        == pre.id_remap.contains_key(d) by {
        assert(b.to_retrieve.contains(d));
        if !ds.contains(d) {
            assert(a.to_retrieve.contains(d) && a.nodes[d] is Function);
            assert(a.nodes.contains_key(d));
            assert(b.nodes.contains_key(d));
        }
        let k = choose|k: int| 0 <= k < ds.len() && ds[k] == d;
        assert(!a.nodes.contains_key(ds[k]));
        assert(!fs.contains(d)) by {
            assert(fs.contains(d) <==> functions(pre.nodes).contains(d));
            if pre.nodes.contains_key(d) {
                assert(a.nodes.contains_key(d));
            }
        }
        assert(!outputs(a).contains(d));
        assert(b.id_remap.contains_key(d) == a.id_remap.contains_key(d));
        assert(a.id_remap.contains_key(d) == pre.id_remap.contains_key(d));
    }
    if acyclic(pre) {
        lemma_functions_acyclic(pre, a, fs, scalar);
        lemma_outputs_acyclic(a, outs, ds);
        lemma_prints_acyclic(b, c, ps);
    }
    c
}

/// What reaches a node through copies still does once primitive operators are swapped.
pub proof fn lemma_flows_swapped(
    pre: GraphState,
    post: GraphState,
    kernels: Seq<KernelText>,
    x: NodeId,
    y: NodeId,
    k: nat,
)
    requires
        swapped(pre, post, kernels),
        flows_in(pre, x, y, k),
    ensures
        flows_in(post, x, y, k),
    decreases k,
{
    if k > 0 {
        let z = choose|z: NodeId| flows_in(pre, x, z, (k - 1) as nat) && #[trigger] hop(pre, z, y);
        lemma_flows_swapped(pre, post, kernels, x, z, (k - 1) as nat);
        lemma_hop_swapped(pre, post, kernels, z, y);
    }
}

proof fn lemma_hop_swapped(
    pre: GraphState,
    post: GraphState,
    kernels: Seq<KernelText>,
    x: NodeId,
    y: NodeId,
)
    requires
        swapped(pre, post, kernels),
        hop(pre, x, y),
    ensures
        hop(post, x, y),
{
    assert(pre.nodes.contains_key(y));
    let l = choose|l: Link| #[trigger] pre.links.contains(l) && reads_first(l, x, y);
    assert(post.links.contains(l));
}

/// In a compiled graph every function reads copies from the device alone.
pub proof fn lemma_functions_read_copies(
    pre: GraphState,
    post: GraphState,
    kernels: Seq<KernelText>,
    f: NodeId,
)
    requires
        pre.closed(),
        ready(pre),
        compiled(pre, post, kernels),
        pre.nodes.contains_key(f),
        pre.nodes[f] is Function,
    ensures
        post.nodes.contains_key(f),
        post.nodes[f] == pre.nodes[f],
        fed_by_copies(post, f),
{
    let c = lemma_copied(pre, post, kernels);
    assert(functions(pre.nodes).contains(f));
    assert(c.nodes.contains_key(f));
    assert forall|l: Link| #[trigger]
        post.links.contains(l) && l.target == f implies post.nodes[l.source] is MetalCopyFromDevice by {
        lemma_closed_link(c, l);
        assert(c.nodes.contains_key(l.source));
    }
}

/// In a compiled graph the floats that a function hands back are read by one copy to the device
/// alone, which reads them as its first input under the view of a single element. Where the
/// function was to be retrieved, a copy of that copy from the device is. Where
/// the function has inputs, the copy has taken its place.
pub proof fn lemma_functions_hand_to_copies(
    pre: GraphState,
    post: GraphState,
    kernels: Seq<KernelText>,
    f: NodeId,
) -> (x: NodeId)
    requires
        pre.closed(),
        ready(pre),
        compiled(pre, post, kernels),
        pre.nodes.contains_key(f),
        pre.nodes[f] == Op::Function(Output::Floats),
    ensures
        output_hosted(pre, post, f, x),
{
    let c = lemma_copied(pre, post, kernels);
    assert(functions(pre.nodes).contains(f));
    let x = choose|x: NodeId| #[trigger] output_hosted(pre, c, f, x);
    assert(c.nodes.contains_key(x));
    lemma_hop_swapped(c, post, kernels, f, x);
    let l = choose|l: Link| #[trigger] c.links.contains(l) && reads_scalar(l, f, x);
    assert(post.links.contains(l));
    if pre.to_retrieve.contains(f) {
        let d = c.id_remap[x];
        assert(c.nodes.contains_key(d));
        lemma_hop_swapped(c, post, kernels, x, d);
    }
    x
}

/// A function that hands back anything but floats is retrieved, kept and mapped to another if it
/// was.
pub proof fn lemma_other_functions_stay(
    pre: GraphState,
    post: GraphState,
    kernels: Seq<KernelText>,
    f: NodeId,
)
    requires
        pre.closed(),
        ready(pre),
        compiled(pre, post, kernels),
        pre.nodes.contains_key(f),
        pre.nodes[f] == Op::Function(Output::Other),
    ensures
        references_stay(pre, post, f),
{
    let c = lemma_copied(pre, post, kernels);
    assert(functions(pre.nodes).contains(f));
    assert(references_stay(pre, c, f));
}

/// A link from no function that hands floats back into neither a function nor a print stays.
pub proof fn lemma_bare_links_stay(
    pre: GraphState,
    post: GraphState,
    kernels: Seq<KernelText>,
    l: Link,
)
    requires
        pre.closed(),
        ready(pre),
        compiled(pre, post, kernels),
        pre.links.contains(l),
        stays_bare(pre.nodes, l),
    ensures
        post.links.contains(l),
{
    let c = lemma_copied(pre, post, kernels);
    assert(c.links.contains(l));
}

/// Every new link has a new end.
pub proof fn lemma_new_links_have_new_ends(
    pre: GraphState,
    post: GraphState,
    kernels: Seq<KernelText>,
    l: Link,
)
    requires
        pre.closed(),
        ready(pre),
        compiled(pre, post, kernels),
        post.links.contains(l),
        !pre.links.contains(l),
    ensures
        !pre.nodes.contains_key(l.source) || !pre.nodes.contains_key(l.target),
{
    let c = lemma_copied(pre, post, kernels);
    assert(c.links.contains(l));
}

/// All that is retrieved of a compiled graph is on the host: it is handed back by a function or
/// copied from the device.
pub proof fn lemma_retrieved_on_host(
    pre: GraphState,
    post: GraphState,
    kernels: Seq<KernelText>,
    n: NodeId,
)
    requires
        pre.closed(),
        ready(pre),
        compiled(pre, post, kernels),
        post.to_retrieve.contains(n),
    ensures
        post.nodes.contains_key(n),
        post.nodes[n] is Function || post.nodes[n] is MetalCopyFromDevice,
{
    let c = lemma_copied(pre, post, kernels);
    assert(c.to_retrieve.contains(n));
    assert(c.nodes.contains_key(n));
}

/// What was to be retrieved and is no function has given way to a copy of it from the device:
/// it is mapped to the copy, and the copy is retrieved, and kept if it was.
pub proof fn lemma_outputs_retrieved_by_copy(
    pre: GraphState,
    post: GraphState,
    kernels: Seq<KernelText>,
    n: NodeId,
)
    requires
        pre.closed(),
        ready(pre),
        compiled(pre, post, kernels),
        pre.to_retrieve.contains(n),
        !(pre.nodes[n] is Function),
    ensures
        retrieved_by_copy(post, n),
        kept_by_copy(pre, post, n),
{
    let c = lemma_copied(pre, post, kernels);
    assert(outputs(pre).contains(n));
    assert(retrieved_by_copy(c, n));
    assert(c.nodes.contains_key(c.id_remap[n]));
    lemma_hop_swapped(c, post, kernels, n, c.id_remap[n]);
}

/// What was to be retrieved and is neither a function nor a print is copied under the largest of
/// the views under which it read.
pub proof fn lemma_outputs_copied_largest(
    pre: GraphState,
    post: GraphState,
    kernels: Seq<KernelText>,
    n: NodeId,
)
    requires
        pre.closed(),
        ready(pre),
        compiled(pre, post, kernels),
        pre.to_retrieve.contains(n),
        !(pre.nodes[n] is Function),
        !(pre.nodes[n] is Print),
    ensures
        copied_largest(pre, post, n),
{
    let c = lemma_copied(pre, post, kernels);
    assert(outputs(pre).contains(n));
    let l = choose|l: Link| #[trigger]
        c.links.contains(l) && l.target == c.id_remap[n] && reads_largest(pre, n, l);
    assert(post.links.contains(l));
}

/// A node that is no function and was not to be retrieved is not, and is kept and mapped to
/// another if it was, and to the same.
pub proof fn lemma_other_nodes_stay(
    pre: GraphState,
    post: GraphState,
    kernels: Seq<KernelText>,
    n: NodeId,
)
    requires
        pre.closed(),
        ready(pre),
        compiled(pre, post, kernels),
        pre.nodes.contains_key(n),
        !(pre.nodes[n] is Function),
        !pre.to_retrieve.contains(n),
    ensures
        references_stay(pre, post, n),
{
    let c = lemma_copied(pre, post, kernels);
}

/// In a compiled graph every print reads its latest tensor from a copy from the device.
pub proof fn lemma_prints_read_copies(
    pre: GraphState,
    post: GraphState,
    kernels: Seq<KernelText>,
    p: NodeId,
)
    requires
        pre.closed(),
        ready(pre),
        compiled(pre, post, kernels),
        pre.nodes.contains_key(p),
        pre.nodes[p] is Print,
    ensures
        prints_copy(post, p),
{
    let c = lemma_copied(pre, post, kernels);
    assert(prints(pre.nodes).contains(p));
    lemma_latest_read(c.links, p);
    let l = c.links[latest_read(c.links, p)];
    assert(c.links.contains(l));
    lemma_closed_link(c, l);
    assert(c.nodes.contains_key(l.source));
}

/// An operator that compiling replaces.
pub open spec fn is_primitive(op: Op) -> bool {
    op is Constant || template_of(op, Seq::empty()) is Some
}

/// A compiled graph holds no primitive operator.
pub proof fn lemma_no_primitive_left(
    pre: GraphState,
    post: GraphState,
    kernels: Seq<KernelText>,
    n: NodeId,
)
    requires
        pre.closed(),
        ready(pre),
        compiled(pre, post, kernels),
        post.nodes.contains_key(n),
    ensures
        !is_primitive(post.nodes[n]),
{
    let c = lemma_copied(pre, post, kernels);
    assert(c.nodes.contains_key(n));
}

/// Every node of the graph that was compiled is there, and holds what it held or, for a
/// primitive operator, the Metal one on the views under which the node reads.
pub proof fn lemma_nodes_lowered(
    pre: GraphState,
    post: GraphState,
    kernels: Seq<KernelText>,
    n: NodeId,
)
    requires
        pre.closed(),
        ready(pre),
        compiled(pre, post, kernels),
        pre.nodes.contains_key(n),
    ensures
        post.nodes.contains_key(n),
        lowered(pre.nodes[n], views(post.links, n), kernels, post.nodes[n]),
{
    let c = lemma_copied(pre, post, kernels);
    assert(c.nodes.contains_key(n));
}

/// Every node that compiling added copies between host and device.
pub proof fn lemma_new_nodes_copy(
    pre: GraphState,
    post: GraphState,
    kernels: Seq<KernelText>,
    n: NodeId,
)
    requires
        pre.closed(),
        ready(pre),
        compiled(pre, post, kernels),
        !pre.nodes.contains_key(n),
        post.nodes.contains_key(n),
    ensures
        is_copy(post.nodes[n]),
{
    let c = lemma_copied(pre, post, kernels);
    assert(c.nodes.contains_key(n) && !pre.nodes.contains_key(n));
}

/// Every kernel of a compiled graph is that of a node of the graph that was compiled, and no two
/// share a name.
pub proof fn lemma_kernels_needed(
    pre: GraphState,
    post: GraphState,
    kernels: Seq<KernelText>,
    k: int,
) -> (n: NodeId)
    requires
        pre.closed(),
        ready(pre),
        compiled(pre, post, kernels),
        0 <= k < kernels.len(),
    ensures
        unique_names(kernels),
        pre.nodes.contains_key(n),
        template_of(pre.nodes[n], views(post.links, n)) matches Some(template) && kernels[k]
            == kernel_of(template),
{
    let c = lemma_copied(pre, post, kernels);
    let ids = choose|ids: Seq<NodeId>|
        lists(ids, c.nodes.dom()) && kernels == all_requested(
            Seq::empty(),
            #[trigger] templates(c, ids),
        );
    lemma_requested_unique(templates(c, ids));
    let j = lemma_kernel_from_template(templates(c, ids), k);
    let i = lemma_template_of_node(c, ids, j);
    let n = ids[i];
    assert(ids.contains(n));
    assert(c.nodes.contains_key(n));
    if !pre.nodes.contains_key(n) {
        assert(c.nodes.contains_key(n) && !pre.nodes.contains_key(n));
    }
    n
}

/// Compiling adds one node and one link for each copy that the graph needs.
pub proof fn lemma_copies_counted(pre: GraphState, post: GraphState, kernels: Seq<KernelText>)
    requires
        pre.closed(),
        ready(pre),
        compiled(pre, post, kernels),
    ensures
        post.nodes.dom().len() == pre.nodes.dom().len() + copies(pre),
        post.links.len() == pre.links.len() + copies(pre),
{
    let c = lemma_copied(pre, post, kernels);
}

/// What a node read before compiling it reads after, through copies alone: for each link into it
/// there is one that carries the same and comes from a node that hands out what the source of
/// the first does. (What a print reads becomes its first input.)
pub proof fn lemma_reads_delivered(
    pre: GraphState,
    post: GraphState,
    kernels: Seq<KernelText>,
    l: Link,
)
    requires
        pre.closed(),
        ready(pre),
        compiled(pre, post, kernels),
        pre.links.contains(l),
    ensures
        exists|m: Link| delivers(pre, post, l, m),
{
    let c = lemma_copied(pre, post, kernels);
    assert(delivered(pre, c, l));
    reveal(delivered);
    let m = choose|m: Link| delivers(pre, c, l, m);
    let k = choose|k: nat| #[trigger] flows_in(c, l.source, m.source, k);
    lemma_flows_swapped(c, post, kernels, l.source, m.source, k);
    assert(flows(post, l.source, m.source));
    assert(delivers(pre, post, l, m));
}

/// Nodes read nothing after compiling that they did not read before: each link into a node there
/// was carries what one did before, out of a node that hands out, through copies alone, what the
/// source of that one does.
pub proof fn lemma_reads_sourced(
    pre: GraphState,
    post: GraphState,
    kernels: Seq<KernelText>,
    m: Link,
)
    requires
        pre.closed(),
        ready(pre),
        compiled(pre, post, kernels),
        post.links.contains(m),
        pre.nodes.contains_key(m.target),
    ensures
        exists|l: Link| delivers(pre, post, l, m),
{
    let c = lemma_copied(pre, post, kernels);
    assert(c.links.contains(m));
    assert(sourced(pre, c, m));
    reveal(sourced);
    let l = choose|l: Link| delivers(pre, c, l, m);
    let k = choose|k: nat| #[trigger] flows_in(c, l.source, m.source, k);
    lemma_flows_swapped(c, post, kernels, l.source, m.source, k);
    assert(flows(post, l.source, m.source));
    assert(delivers(pre, post, l, m));
}

/// A node that is no print is reached by as many links that satisfy `q` as before.
pub proof fn lemma_reads_counted(
    pre: GraphState,
    post: GraphState,
    kernels: Seq<KernelText>,
    n: NodeId,
    q: spec_fn(Dependency) -> bool,
)
    requires
        pre.closed(),
        ready(pre),
        compiled(pre, post, kernels),
        pre.nodes.contains_key(n),
        !(pre.nodes[n] is Print),
    ensures
        tally(post.links, |t: NodeId, w: Dependency| t == n && q(w)) == tally(
            pre.links,
            |t: NodeId, w: Dependency| t == n && q(w),
        ),
{
    let c = lemma_copied(pre, post, kernels);
    let p = |t: NodeId, w: Dependency| t == n && q(w);
    assert(within(p, pre.nodes));
    assert(blind(p, pre.nodes));
}

/// A node reads as many tensors as before.
pub proof fn lemma_inputs_counted(
    pre: GraphState,
    post: GraphState,
    kernels: Seq<KernelText>,
    n: NodeId,
)
    requires
        pre.closed(),
        ready(pre),
        compiled(pre, post, kernels),
        pre.nodes.contains_key(n),
    ensures
        inputs(post.links, n).len() == inputs(pre.links, n).len(),
{
    let c = lemma_copied(pre, post, kernels);
    lemma_keeps_inputs(pre, c, n);
}

/// Where every input has a place of its own, a node that is no print reads under the same views
/// as before: the Metal operators and kernels of a compiled graph are those for the views of the
/// graph that was compiled.
pub proof fn lemma_views_kept(
    pre: GraphState,
    post: GraphState,
    kernels: Seq<KernelText>,
    n: NodeId,
)
    requires
        pre.closed(),
        ready(pre),
        compiled(pre, post, kernels),
        pre.nodes.contains_key(n),
        !(pre.nodes[n] is Print),
        distinct_places(inputs(pre.links, n)),
    ensures
        views(post.links, n) == views(pre.links, n),
{
    let c = lemma_copied(pre, post, kernels);
    assert forall|k: u8| #[trigger]
        at_place(inputs(c.links, n), k) == at_place(inputs(pre.links, n), k) by {
        lemma_place_kept(pre, c, n, k);
    }
    lemma_in_order_same(inputs(c.links, n), inputs(pre.links, n), 256);
}

} // verus!
