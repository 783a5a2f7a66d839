//! Compilation of primitive operators to Metal kernels.
use crate::copies::fresh;
use crate::frame::{keeps, lemma_keeps_inputs, lemma_keeps_trans};
use crate::functions::{copy_functions, function_copies, functions, functions_copied};
use crate::graph::{inputs, lemma_wf_closed, lists, Graph, GraphState, NodeId};
use crate::host::{lemma_functions_copied, retrieved_floats};
use crate::kernel::{KernelText, Kernels};
use crate::lower::{arity, readable, swap_primitives, swapped};
use crate::ops::{Op, Output};
use crate::outputs::{
    copy_outputs, names, outputs, outputs_copied, retrievable, retrieved_outputs, retrieves,
    Retrieved,
};
use crate::prints::{copy_prints, latest_read, lemma_has_read, prints, prints_copied};
use crate::shape::ShapeTracker;
use crate::steps::{lemma_outputs_copied, lemma_prints_copied};
use std::rc::Rc;
use vstd::prelude::*;

verus! {

/// Every print reads a tensor.
pub open spec fn printable(s: GraphState) -> bool {
    forall|p: NodeId| #[trigger] prints(s.nodes).contains(p) ==> inputs(s.links, p).len() > 0
}

/// The functions that hand floats back and are retrieved.
pub open spec fn float_outputs(s: GraphState) -> Set<NodeId> {
    Set::new(
        |n: NodeId| s.to_retrieve.contains(n) && s.nodes[n] == Op::Function(Output::Floats),
    )
}

/// The number of copies that compiling a graph inserts: around functions, of what is retrieved,
/// and for prints.
pub open spec fn copies(s: GraphState) -> nat {
    function_copies(s) + outputs(s).len() + float_outputs(s).len() + prints(s.nodes).len()
}

/// What a graph has to be for its compilation: every node reads as many tensors as its operator
/// takes, what is retrieved is there and reads a tensor unless it is a function, every print
/// reads one, and there are names left for the copies.
pub open spec fn ready(s: GraphState) -> bool {
    &&& readable(s)
    &&& retrievable(s)
    &&& printable(s)
    &&& s.nodes.dom().len() + copies(s) <= u32::MAX
    &&& s.links.len() + copies(s) < u32::MAX
}

/// Whether `post` is `pre` with its functions between copies, in ascending order.
pub open spec fn functions_done(
    pre: GraphState,
    post: GraphState,
    scalar: Rc<ShapeTracker>,
) -> bool {
    &&& scalar.is_scalar()
    &&& exists|fs: Seq<NodeId>|
        lists(fs, functions(pre.nodes)) && #[trigger] functions_copied(pre, post, fs, scalar)
}

/// Whether `post` is `pre` with copies in the place of what is retrieved, in some order.
pub open spec fn outputs_done(pre: GraphState, post: GraphState) -> bool {
    exists|outs: Seq<Retrieved>, ds: Seq<NodeId>|
        retrieves(outs, pre) && ds.len() == outs.len() && fresh(pre.nodes, ds) && post
            == #[trigger] outputs_copied(pre, outs, ds)
}

/// Whether `post` is `pre` with its prints reading copies, in ascending order.
pub open spec fn prints_done(pre: GraphState, post: GraphState) -> bool {
    exists|ps: Seq<NodeId>|
        lists(ps, prints(pre.nodes)) && #[trigger] prints_copied(pre, post, ps)
}

/// Whether `post` and `kernels` are what compiling `pre` gives: functions are set between
/// copies, then what is retrieved is copied, then what is printed, then primitive operators give
/// way to Metal ones.
pub open spec fn compiled(pre: GraphState, post: GraphState, kernels: Seq<KernelText>) -> bool {
    exists|scalar: Rc<ShapeTracker>, a: GraphState, b: GraphState, c: GraphState| #[trigger]
        functions_done(pre, a, scalar) && #[trigger] outputs_done(a, b) && #[trigger] prints_done(
            b,
            c,
        ) && swapped(c, post, kernels)
}

/// Setting functions between copies leaves what is needed for the steps after.
pub proof fn lemma_functions_stage(
    pre: GraphState,
    a: GraphState,
    fs: Seq<NodeId>,
    scalar: Rc<ShapeTracker>,
)
    requires
        pre.closed(),
        retrievable(pre),
        scalar.is_scalar(),
        lists(fs, functions(pre.nodes)),
        functions_copied(pre, a, fs, scalar),
    ensures
        keeps(pre, a),
        retrievable(a),
        outputs(a).len() == outputs(pre).len() + float_outputs(pre).len(),
{
    assert(fs.no_duplicates());
    assert forall|k: int| 0 <= k < fs.len() implies pre.nodes.contains_key(#[trigger] fs[k])
        && pre.nodes[fs[k]] is Function by {
        assert(fs.contains(fs[k]));
    }
    lemma_functions_copied(pre, a, fs, scalar);
    assert(retrieved_floats(pre, fs) =~= float_outputs(pre)) by {
        assert forall|n: NodeId| retrieved_floats(pre, fs).contains(n) == float_outputs(
            pre,
        ).contains(n) by {
            if pre.to_retrieve.contains(n) {
                assert(fs.contains(n) <==> functions(pre.nodes).contains(n));
            }
        }
    }
}

/// There are as many retrieved nodes as the state has.
pub proof fn lemma_outs_len(s: GraphState, outs: Seq<Retrieved>)
    requires
        s.closed(),
        retrievable(s),
        retrieves(outs, s),
    ensures
        outs.len() == outputs(s).len(),
        forall|i: int| 0 <= i < outs.len() ==> s.nodes.contains_key((#[trigger] outs[i]).0),
{
    names(outs).unique_seq_to_set();
    assert forall|i: int| 0 <= i < outs.len() implies s.nodes.contains_key(
        (#[trigger] outs[i]).0,
    ) by {
        assert(names(outs)[i] == outs[i].0);
        assert(names(outs).to_set().contains(outs[i].0));
    }
}

/// Graphs that differ in copies have the same prints, which read as many tensors.
pub proof fn lemma_same_prints(pre: GraphState, post: GraphState)
    requires
        keeps(pre, post),
    ensures
        prints(post.nodes) == prints(pre.nodes),
        printable(pre) ==> printable(post),
{
    assert forall|n: NodeId| prints(post.nodes).contains(n) == prints(pre.nodes).contains(n) by {
        if post.nodes.contains_key(n) && !pre.nodes.contains_key(n) {
            assert(!(post.nodes[n] is Print));
        }
        if pre.nodes.contains_key(n) {
            assert(post.nodes.contains_key(n));
        }
    }
    assert(prints(post.nodes) =~= prints(pre.nodes));
    assert forall|p: NodeId| #[trigger]
        prints(post.nodes).contains(p) && printable(pre) implies inputs(post.links, p).len()
        > 0 by {
        assert(prints(pre.nodes).contains(p));
        lemma_keeps_inputs(pre, post, p);
    }
}

/// Copying for the prints keeps the graph.
proof fn lemma_prints_stage(b: GraphState, c: GraphState, ps: Seq<NodeId>)
    requires
        b.closed(),
        printable(b),
        lists(ps, prints(b.nodes)),
        prints_copied(b, c, ps),
    ensures
        keeps(b, c),
{
    lemma_listed_prints(b, ps);
    lemma_prints_copied(b, c, ps);
}

/// Listed prints are prints with a latest read, each once.
pub proof fn lemma_listed_prints(s: GraphState, ps: Seq<NodeId>)
    requires
        printable(s),
        lists(ps, prints(s.nodes)),
    ensures
        ps.no_duplicates(),
        forall|k: int|
            0 <= k < ps.len() ==> s.nodes.contains_key(#[trigger] ps[k]) && s.nodes[ps[k]] is Print
                && latest_read(s.links, ps[k]) >= 0,
{
    assert forall|k: int| 0 <= k < ps.len() implies s.nodes.contains_key(#[trigger] ps[k])
        && s.nodes[ps[k]] is Print && latest_read(s.links, ps[k]) >= 0 by {
        assert(ps.contains(ps[k]));
        assert(prints(s.nodes).contains(ps[k]));
        lemma_has_read(s.links, ps[k]);
    }
}

/// Inserting copies leaves every node with the tensors that its operator takes.
proof fn lemma_readable_kept(pre: GraphState, post: GraphState)
    requires
        keeps(pre, post),
        readable(pre),
    ensures
        readable(post),
{
    assert forall|n: NodeId| #[trigger] post.nodes.contains_key(n) implies inputs(
        post.links,
        n,
    ).len() >= arity(post.nodes[n]) by {
        if pre.nodes.contains_key(n) {
            lemma_keeps_inputs(pre, post, n);
        } else {
            assert(post.nodes.contains_key(n) && !pre.nodes.contains_key(n));
        }
    }
}

/// Compiles primitive operators to Metal kernels.
#[derive(Default)]
pub struct PrimitiveCompiler;

impl PrimitiveCompiler {
    /// Inserts the copies between host and device that a graph needs, puts Metal operators in
    /// the place of primitive ones, and hands back the kernels that they run.
    pub fn compile(&self, graph: &mut Graph) -> (kernels: Kernels)
        requires
            old(graph).wf(),
            ready(old(graph)@),
        ensures
            final(graph).wf(),
            kernels.wf(),
            compiled(old(graph)@, final(graph)@, kernels@),
    {
        let ghost pre = graph@;
        proof {
            lemma_wf_closed(*graph);
        }
        let scalar = Rc::new(ShapeTracker::scalar());
        let fs = copy_functions(graph, &scalar);
        let ghost a = graph@;
        proof {
            lemma_functions_stage(pre, a, fs@, scalar);
            assert(functions_done(pre, a, scalar));
        }
        let outs = retrieved_outputs(graph);
        proof {
            lemma_outs_len(a, outs@);
        }
        let ds = copy_outputs(graph, &outs);
        let ghost b = graph@;
        proof {
            lemma_outputs_copied(a, outs@, ds@);
            assert(outputs_done(a, b));
            lemma_same_prints(pre, a);
            lemma_same_prints(a, b);
        }
        let ps = copy_prints(graph);
        let ghost c = graph@;
        proof {
            lemma_prints_stage(b, c, ps@);
            assert(prints_done(b, c));
            lemma_keeps_trans(pre, a, b);
            lemma_keeps_trans(pre, b, c);
            lemma_readable_kept(pre, c);
        }
        swap_primitives(graph)
    }
}

} // verus!
