//! A graph of operators: nodes hold operators, edges what one node reads of another.
use crate::edges::lemma_directed_links;
use crate::ops::{Kind, Op};
use crate::seqs::{lemma_filter_contains, lemma_filter_push};
use crate::shape::{share, ShapeTracker};
use petgraph::Directed;
use petgraph::stable_graph::{EdgeIndex, NodeIndex, StableGraph};
use petgraph::visit::EdgeRef;
use std::collections::{HashMap, HashSet};
use std::rc::Rc;
use vstd::prelude::*;

verus! {

broadcast use vstd::std_specs::hash::group_hash_axioms;

pub type NodeId = u32;

pub type EdgeId = u32;

/// What an edge carries: a tensor, with its place among the inputs of the reader, its place
/// among the outputs of the writer and the view under which it is read; or nothing but that the
/// writer runs first.
#[derive(Debug)]
pub enum Dependency {
    Data { input_order: u8, output_order: u8, shape: Rc<ShapeTracker> },
    Schedule,
}

impl Dependency {
    /// The places and the view of a tensor that the edge carries.
    pub fn as_data(&self) -> (res: Option<(u8, u8, Rc<ShapeTracker>)>)
        ensures
            res == (match *self {
                Dependency::Data { input_order, output_order, shape } => Some(
                    (input_order, output_order, shape),
                ),
                Dependency::Schedule => None,
            }),
    {
        match self {
            Dependency::Data { input_order, output_order, shape } => Some(
                (*input_order, *output_order, share(shape)),
            ),
            Dependency::Schedule => None,
        }
    }

    /// Whether the edge carries no tensor.
    pub fn is_schedule(&self) -> (res: bool)
        ensures
            res == (*self is Schedule),
    {
        match self {
            Dependency::Data { .. } => false,
            Dependency::Schedule => true,
        }
    }

    /// The same dependency once more.
    pub fn duplicate(&self) -> (res: Dependency)
        ensures
            res == *self,
    {
        match self {
            Dependency::Data { input_order, output_order, shape } => Dependency::Data {
                input_order: *input_order,
                output_order: *output_order,
                shape: share(shape),
            },
            Dependency::Schedule => Dependency::Schedule,
        }
    }
}

/// An edge by its ends and what it carries.
#[derive(Debug)]
pub struct Link {
    pub source: NodeId,
    pub target: NodeId,
    pub weight: Dependency,
}

/// An edge by its name, its ends and what it carries.
#[derive(Debug)]
pub struct Edge {
    pub id: EdgeId,
    pub link: Link,
}

/// The end of an edge at which a node stands: the node writes what an outgoing edge carries and
/// reads what an incoming one does.
#[derive(Clone, Copy, Debug, PartialEq, Eq, Structural)]
pub enum Direction {
    Outgoing,
    Incoming,
}

/// Whether `link` leaves (or enters) `n`.
pub open spec fn meets(link: Link, n: NodeId, dir: Direction) -> bool {
    match dir {
        Direction::Outgoing => link.source == n,
        Direction::Incoming => link.target == n,
    }
}

/// The edges that leave (or enter) `n`, the latest first.
pub open spec fn directed_edges(edges: Seq<Edge>, n: NodeId, dir: Direction) -> Seq<Edge> {
    edges.filter(|e: Edge| meets(e.link, n, dir)).reverse()
}

/// All edges but the one of name `id`.
pub open spec fn without_edge(edges: Seq<Edge>, id: EdgeId) -> Seq<Edge> {
    edges.filter(|e: Edge| e.id != id)
}

/// No two edges share a name.
pub open spec fn distinct_ids(edges: Seq<Edge>) -> bool {
    forall|i: int, j: int| 0 <= i < j < edges.len() ==> (#[trigger] edges[i]).id != (
    #[trigger] edges[j]).id
}

/// The edges without their names, the earliest first.
pub open spec fn links_of(edges: Seq<Edge>) -> Seq<Link> {
    edges.map_values(|e: Edge| e.link)
}

/// The links that leave (or enter) `n`, the latest first.
pub open spec fn directed(links: Seq<Link>, n: NodeId, dir: Direction) -> Seq<Link> {
    links.filter(|l: Link| meets(l, n, dir)).reverse()
}

/// The links that do not leave (or enter) `n`, the earliest first.
pub open spec fn undirected(links: Seq<Link>, n: NodeId, dir: Direction) -> Seq<Link> {
    links.filter(|l: Link| !meets(l, n, dir))
}

/// A tensor that a node reads: its place among the inputs, its place among the outputs of the
/// writer, and the view under which it is read.
pub type Input = (u8, u8, Rc<ShapeTracker>);

/// The tensors among what links carry.
pub open spec fn tensors(links: Seq<Link>) -> Seq<Input> {
    links.filter(|l: Link| l.weight is Data).map_values(
        |l: Link| (l.weight->input_order, l.weight->output_order, l.weight->shape),
    )
}

/// The tensors that a node reads, the latest link first.
pub open spec fn inputs(links: Seq<Link>, n: NodeId) -> Seq<Input> {
    tensors(directed(links, n, Direction::Incoming))
}

/// `petgraph`'s graph whose indices survive removals.
#[verifier::external_type_specification]
#[verifier::external_body]
#[verifier::reject_recursive_types(N)]
#[verifier::reject_recursive_types(E)]
#[verifier::reject_recursive_types(Ty)]
#[verifier::reject_recursive_types(Ix)]
pub struct ExStableGraph<N, E, Ty, Ix>(petgraph::stable_graph::StableGraph<N, E, Ty, Ix>);

/// `petgraph`'s mark of a graph with directed edges.
#[verifier::external_type_specification]
#[verifier::external_body]
pub struct ExDirected(petgraph::Directed);

/// The operators that a `petgraph` graph holds, by node index.
pub uninterp spec fn node_weights(g: StableGraph<Op, Dependency, Directed, u32>) -> Map<
    NodeId,
    Op,
>;

/// The edges that a `petgraph` graph holds, in the order in which they were added.
pub uninterp spec fn edge_list(g: StableGraph<Op, Dependency, Directed, u32>) -> Seq<Edge>;

/// `StableGraph::new`: a graph without nodes and edges.
#[verifier::external_body]
fn stable_new() -> (g: StableGraph<Op, Dependency, Directed, u32>)
    ensures
        node_weights(g).dom() == Set::<NodeId>::empty(),
        edge_list(g) == Seq::<Edge>::empty(),
{
    StableGraph::new()
}

/// `StableGraph::add_node`: the operator is put under an index that was free, which one is left
/// open; nothing else changes. The call panics where all indices are taken.
#[verifier::external_body]
fn stable_add_node(g: &mut StableGraph<Op, Dependency, Directed, u32>, op: Op) -> (id: NodeId)
    requires
        node_weights(*old(g)).dom().finite(),
        node_weights(*old(g)).dom().len() < u32::MAX,
    ensures
        !node_weights(*old(g)).contains_key(id),
        node_weights(*final(g)) == node_weights(*old(g)).insert(id, op),
        edge_list(*final(g)) == edge_list(*old(g)),
{
    g.add_node(op).index() as u32
}

/// `StableGraph::add_edge`: the edge becomes the latest, under an index that was free, which one
/// is left open; nothing else changes. The call panics where an end is no node and where all
/// indices are taken.
#[verifier::external_body]
fn stable_add_edge(
    g: &mut StableGraph<Op, Dependency, Directed, u32>,
    source: NodeId,
    target: NodeId,
    weight: Dependency,
) -> (id: EdgeId)
    requires
        node_weights(*old(g)).contains_key(source),
        node_weights(*old(g)).contains_key(target),
        edge_list(*old(g)).len() < u32::MAX,
    ensures
        forall|i: int|
            0 <= i < edge_list(*old(g)).len() ==> (#[trigger] edge_list(*old(g))[i]).id != id,
        edge_list(*final(g)) == edge_list(*old(g)).push(
            Edge { id, link: Link { source, target, weight } },
        ),
        node_weights(*final(g)) == node_weights(*old(g)),
{
    g.add_edge(
        NodeIndex::new(source as usize),
        NodeIndex::new(target as usize),
        weight,
    ).index() as u32
}

/// `StableGraph::remove_edge`: the edge of that index leaves, if there is one, and what it
/// carried is handed back; the others keep their indices and their order.
#[verifier::external_body]
fn stable_remove_edge(g: &mut StableGraph<Op, Dependency, Directed, u32>, id: EdgeId) -> (res:
    Option<Dependency>)
    ensures
        edge_list(*final(g)) == without_edge(edge_list(*old(g)), id),
        node_weights(*final(g)) == node_weights(*old(g)),
        match res {
            Some(weight) => exists|i: int|
                0 <= i < edge_list(*old(g)).len() && (#[trigger] edge_list(*old(g))[i]).id == id
                    && edge_list(*old(g))[i].link.weight == weight,
            None => forall|i: int|
                0 <= i < edge_list(*old(g)).len() ==> (#[trigger] edge_list(*old(g))[i]).id != id,
        },
{
    g.remove_edge(EdgeIndex::new(id as usize))
}

/// `StableGraph::node_indices`: the indices of all nodes in ascending order.
#[verifier::external_body]
fn stable_node_indices(g: &StableGraph<Op, Dependency, Directed, u32>) -> (res: Vec<NodeId>)
    ensures
        lists(res@, node_weights(*g).dom()),
{
    g.node_indices().map(|n| n.index() as u32).collect()
}

/// `StableGraph::node_weight`: the operator under that index, if there is one.
#[verifier::external_body]
fn stable_node_weight(g: &StableGraph<Op, Dependency, Directed, u32>, n: NodeId) -> (res: Option<
    &Op,
>)
    ensures
        match res {
            Some(op) => node_weights(*g).contains_key(n) && *op == node_weights(*g)[n],
            None => !node_weights(*g).contains_key(n),
        },
{
    g.node_weight(NodeIndex::new(n as usize))
}

/// `StableGraph::node_weight_mut`: the operator under that index, if there is one, for a change
/// in place; nothing else changes.
#[verifier::external_body]
fn stable_node_weight_mut(
    g: &mut StableGraph<Op, Dependency, Directed, u32>,
    n: NodeId,
) -> (res: Option<&mut Op>)
    ensures
        edge_list(*final(g)) == edge_list(*old(g)),
        match res {
            Some(op) => {
                &&& node_weights(*old(g)).contains_key(n)
                &&& *op == node_weights(*old(g))[n]
                &&& node_weights(*final(g)) == node_weights(*old(g)).insert(n, *final(op))
            },
            None => {
                &&& !node_weights(*old(g)).contains_key(n)
                &&& node_weights(*final(g)) == node_weights(*old(g))
            },
        },
{
    g.node_weight_mut(NodeIndex::new(n as usize))
}

/// `StableGraph::edges_directed`: index, source and target of every edge that leaves (or enters)
/// the node, the latest edge first.
#[verifier::external_body]
fn stable_edges_directed(
    g: &StableGraph<Op, Dependency, Directed, u32>,
    n: NodeId,
    dir: Direction,
) -> (res: Vec<(EdgeId, NodeId, NodeId)>)
    ensures
        res@ == directed_edges(edge_list(*g), n, dir).map_values(
            |e: Edge| (e.id, e.link.source, e.link.target),
        ),
{
    let dir = match dir {
        Direction::Outgoing => petgraph::Direction::Outgoing,
        Direction::Incoming => petgraph::Direction::Incoming,
    };
    g.edges_directed(NodeIndex::new(n as usize), dir).map(
        |e| (e.id().index() as u32, e.source().index() as u32, e.target().index() as u32),
    ).collect()
}

/// `StableGraph::edge_weight`: what the edge of that index carries, if there is one.
#[verifier::external_body]
fn stable_edge_weight(g: &StableGraph<Op, Dependency, Directed, u32>, id: EdgeId) -> (res: Option<
    &Dependency,
>)
    ensures
        match res {
            Some(weight) => exists|i: int|
                0 <= i < edge_list(*g).len() && (#[trigger] edge_list(*g)[i]).id == id
                    && edge_list(*g)[i].link.weight == *weight,
            None => forall|i: int|
                0 <= i < edge_list(*g).len() ==> (#[trigger] edge_list(*g)[i]).id != id,
        },
{
    g.edge_weight(EdgeIndex::new(id as usize))
}

/// `StableGraph::edge_count`: the number of edges.
#[verifier::external_body]
fn stable_edge_count(g: &StableGraph<Op, Dependency, Directed, u32>) -> (n: usize)
    ensures
        n == edge_list(*g).len(),
{
    g.edge_count()
}

/// `ids` holds the nodes of `s`, each once, in ascending order.
pub open spec fn lists(ids: Seq<NodeId>, s: Set<NodeId>) -> bool {
    &&& forall|i: int, j: int| 0 <= i < j < ids.len() ==> ids[i] < ids[j]
    &&& forall|n: NodeId| ids.contains(n) <==> s.contains(n)
}

/// The functions (or the prints) among the nodes.
pub open spec fn of_kind(nodes: Map<NodeId, Op>, kind: Kind) -> Set<NodeId> {
    Set::new(|n: NodeId| nodes.contains_key(n) && nodes[n].is_of(kind))
}

/// What a graph holds: the operators by node, the edges in the order in which they were added,
/// the nodes whose tensors are retrieved, those that are kept, and the node that has taken the
/// place of another.
pub struct GraphState {
    pub nodes: Map<NodeId, Op>,
    pub links: Seq<Link>,
    pub to_retrieve: Set<NodeId>,
    pub no_delete: Set<NodeId>,
    pub id_remap: Map<NodeId, NodeId>,
}

impl GraphState {
    /// The ends of every link are nodes.
    pub open spec fn closed(&self) -> bool {
        &&& self.nodes.dom().finite()
        &&& forall|i: int|
            0 <= i < self.links.len() ==> self.nodes.contains_key(
                (#[trigger] self.links[i]).source,
            ) && self.nodes.contains_key(self.links[i].target)
    }
}

/// A graph of operators.
pub struct Graph {
    pub graph: StableGraph<Op, Dependency, Directed, u32>,
    /// The nodes whose tensors are retrieved after a run.
    pub to_retrieve: HashSet<NodeId>,
    /// The nodes whose tensors are kept after a run.
    pub no_delete: HashSet<NodeId>,
    /// For a node that another has taken the place of, that other.
    pub id_remap: HashMap<NodeId, NodeId>,
}

impl View for Graph {
    type V = GraphState;

    open spec fn view(&self) -> GraphState {
        GraphState {
            nodes: self.nodes(),
            links: links_of(self.edges()),
            to_retrieve: self.to_retrieve@,
            no_delete: self.no_delete@,
            id_remap: self.id_remap@,
        }
    }
}

impl Graph {
    /// The operators by node.
    pub open spec fn nodes(&self) -> Map<NodeId, Op> {
        node_weights(self.graph)
    }

    /// The edges, the earliest first.
    pub open spec fn edges(&self) -> Seq<Edge> {
        edge_list(self.graph)
    }

    /// The ends of every edge are nodes, and no two edges share a name.
    pub open spec fn wf(&self) -> bool {
        &&& self.nodes().dom().finite()
        &&& distinct_ids(self.edges())
        &&& forall|i: int|
            0 <= i < self.edges().len() ==> self.nodes().contains_key(
                (#[trigger] self.edges()[i]).link.source,
            ) && self.nodes().contains_key(self.edges()[i].link.target)
    }

    /// A graph without nodes.
    pub fn new() -> (res: Self)
        ensures
            res.wf(),
            res@.nodes == Map::<NodeId, Op>::empty(),
            res@.links == Seq::<Link>::empty(),
            res@.to_retrieve == Set::<NodeId>::empty(),
            res@.no_delete == Set::<NodeId>::empty(),
            res@.id_remap == Map::<NodeId, NodeId>::empty(),
    {
        let res = Graph {
            graph: stable_new(),
            to_retrieve: HashSet::new(),
            no_delete: HashSet::new(),
            id_remap: HashMap::new(),
        };
        proof {
            assert(res@.nodes =~= Map::<NodeId, Op>::empty());
            assert(res@.links =~= Seq::<Link>::empty());
        }
        res
    }

    /// Adds a node under a name that no node has.
    pub fn add_op(&mut self, op: Op) -> (id: NodeId)
        requires
            old(self).wf(),
            old(self).nodes().dom().len() < u32::MAX,
        ensures
            final(self).wf(),
            !old(self).nodes().contains_key(id),
            final(self).nodes() == old(self).nodes().insert(id, op),
            final(self).edges() == old(self).edges(),
            final(self)@ == (GraphState { nodes: old(self)@.nodes.insert(id, op), ..old(self)@ }),
    {
        stable_add_node(&mut self.graph, op)
    }

    /// Adds an edge between two nodes, the latest of all.
    pub fn add_edge(&mut self, source: NodeId, target: NodeId, weight: Dependency) -> (id: EdgeId)
        requires
            old(self).wf(),
            old(self).nodes().contains_key(source),
            old(self).nodes().contains_key(target),
            old(self).edges().len() < u32::MAX,
        ensures
            final(self).wf(),
            forall|i: int|
                0 <= i < old(self).edges().len() ==> (#[trigger] old(self).edges()[i]).id != id,
            final(self).edges() == old(self).edges().push(
                Edge { id, link: Link { source, target, weight } },
            ),
            final(self).nodes() == old(self).nodes(),
            final(self)@ == (GraphState {
                links: old(self)@.links.push(Link { source, target, weight }),
                ..old(self)@
            }),
    {
        let id = stable_add_edge(&mut self.graph, source, target, weight);
        proof {
            assert(links_of(self.edges()) =~= links_of(old(self).edges()).push(
                Link { source, target, weight },
            ));
        }
        id
    }

    /// Removes an edge.
    pub fn remove_edge(&mut self, id: EdgeId) -> (res: Option<Dependency>)
        requires
            old(self).wf(),
        ensures
            final(self).wf(),
            final(self).edges() == without_edge(old(self).edges(), id),
            final(self).nodes() == old(self).nodes(),
            final(self).to_retrieve@ == old(self).to_retrieve@,
            final(self).no_delete@ == old(self).no_delete@,
            final(self).id_remap@ == old(self).id_remap@,
            match res {
                Some(weight) => exists|i: int|
                    0 <= i < old(self).edges().len() && (#[trigger] old(self).edges()[i]).id == id
                        && old(self).edges()[i].link.weight == weight,
                None => forall|i: int|
                    0 <= i < old(self).edges().len() ==> (#[trigger] old(self).edges()[i]).id != id,
            },
    {
        proof {
            lemma_without_edge(self.edges(), id);
        }
        stable_remove_edge(&mut self.graph, id)
    }

    /// The number of edges.
    pub fn edge_count(&self) -> (n: usize)
        ensures
            n == self@.links.len(),
    {
        stable_edge_count(&self.graph)
    }

    /// The names of all nodes in ascending order.
    pub fn node_indices(&self) -> (res: Vec<NodeId>)
        ensures
            lists(res@, self@.nodes.dom()),
    {
        stable_node_indices(&self.graph)
    }

    /// The functions (or the prints) in ascending order.
    pub fn nodes_of(&self, kind: Kind) -> (res: Vec<NodeId>)
        ensures
            lists(res@, of_kind(self@.nodes, kind)),
    {
        let all = self.node_indices();
        let mut res: Vec<NodeId> = Vec::new();
        let mut i: usize = 0;
        let ghost wanted = of_kind(self@.nodes, kind);
        while i < all.len()
            invariant
                i <= all.len(),
                lists(all@, self@.nodes.dom()),
                wanted == of_kind(self@.nodes, kind),
                forall|k: int, m: int| 0 <= k < m < res@.len() ==> res@[k] < res@[m],
                forall|k: int, m: int|
                    0 <= k < res@.len() && i <= m < all@.len() ==> res@[k] < all@[m],
                forall|k: int| 0 <= k < res@.len() ==> wanted.contains(#[trigger] res@[k]),
                forall|m: int|
                    0 <= m < i && wanted.contains(#[trigger] all@[m]) ==> res@.contains(all@[m]),
            decreases all.len() - i,
        {
            let n = all[i];
            let ghost before = res@;
            assert(all@.contains(n));
            let found = match self.node_weight(n) {
                Some(op) => op.has_kind(kind),
                None => false,
            };
            if found {
                res.push(n);
                assert(res@[before.len() as int] == n);
                assert forall|m: int| 0 <= m < i && wanted.contains(
                    #[trigger] all@[m],
                ) implies res@.contains(all@[m]) by {
                    let k = choose|k: int| 0 <= k < before.len() && before[k] == all@[m];
                    assert(res@[k] == all@[m]);
                }
            }
            i = i + 1;
        }
        assert forall|n: NodeId| res@.contains(n) <==> wanted.contains(n) by {
            if wanted.contains(n) {
                assert(all@.contains(n));
                let m = choose|m: int| 0 <= m < all@.len() && all@[m] == n;
                assert(res@.contains(all@[m]));
            }
        }
        res
    }

    /// The operator of a node.
    pub fn node_weight(&self, n: NodeId) -> (res: Option<&Op>)
        ensures
            match res {
                Some(op) => self@.nodes.contains_key(n) && *op == self@.nodes[n],
                None => !self@.nodes.contains_key(n),
            },
    {
        stable_node_weight(&self.graph, n)
    }

    /// The operator of a node, for a change in place.
    pub fn node_weight_mut(&mut self, n: NodeId) -> (res: Option<&mut Op>)
        requires
            old(self).wf(),
        ensures
            final(self).wf(),
            final(self).edges() == old(self).edges(),
            match res {
                Some(op) => {
                    &&& old(self)@.nodes.contains_key(n)
                    &&& *op == old(self)@.nodes[n]
                    &&& final(self).nodes() == old(self).nodes().insert(n, *final(op))
                    &&& final(self)@ == (GraphState {
                        nodes: old(self)@.nodes.insert(n, *final(op)),
                        ..old(self)@
                    })
                },
                None => {
                    &&& !old(self)@.nodes.contains_key(n)
                    &&& final(self)@ == old(self)@
                },
            },
    {
        stable_node_weight_mut(&mut self.graph, n)
    }

    /// The edges that leave (or enter) a node, the latest first.
    pub fn edges_directed(&self, n: NodeId, dir: Direction) -> (res: Vec<Edge>)
        requires
            self.wf(),
        ensures
            res@ == directed_edges(self.edges(), n, dir),
    {
        let found = stable_edges_directed(&self.graph, n, dir);
        let mut res: Vec<Edge> = Vec::new();
        let mut i: usize = 0;
        let ghost all = directed_edges(self.edges(), n, dir);
        while i < found.len()
            invariant
                self.wf(),
                all == directed_edges(self.edges(), n, dir),
                found@ == all.map_values(|e: Edge| (e.id, e.link.source, e.link.target)),
                i <= found.len(),
                res@ == all.take(i as int),
            decreases found.len() - i,
        {
            let (id, source, target) = found[i];
            proof {
                lemma_directed_from(self.edges(), n, dir, i as int);
            }
            match stable_edge_weight(&self.graph, id) {
                Some(weight) => {
                    res.push(Edge { id, link: Link { source, target, weight: weight.duplicate() } });
                },
                None => {},
            }
            proof {
                assert(res@.last() == all[i as int]);
                assert(res@ =~= all.take(i + 1));
            }
            i = i + 1;
        }
        proof {
            assert(all.take(all.len() as int) =~= all);
        }
        res
    }

    /// The tensors that a node reads, the latest link first.
    pub fn inputs(&self, n: NodeId) -> (res: Vec<Input>)
        requires
            self.wf(),
        ensures
            res@ == inputs(self@.links, n),
    {
        let reads = self.edges_directed(n, Direction::Incoming);
        let ghost links = links_of(reads@);
        let mut res: Vec<Input> = Vec::new();
        let mut i: usize = 0;
        proof {
            lemma_directed_links(self.edges(), n, Direction::Incoming);
            reveal(Seq::filter);
            assert(res@ =~= tensors(links.take(0)));
        }
        while i < reads.len()
            invariant
                i <= reads.len(),
                links == links_of(reads@),
                res@ == tensors(links.take(i as int)),
            decreases reads.len() - i,
        {
            proof {
                assert(links.take(i + 1) =~= links.take(i as int).push(links[i as int]));
                lemma_tensors_push(links.take(i as int), links[i as int]);
            }
            match reads[i].link.weight.as_data() {
                Some(input) => {
                    res.push(input);
                },
                None => {},
            }
            i = i + 1;
        }
        proof {
            assert(links.take(links.len() as int) =~= links);
        }
        res
    }
}

/// One more link adds the tensor that it carries, if it does.
pub proof fn lemma_tensors_push(links: Seq<Link>, x: Link)
    ensures
        tensors(links.push(x)) == match x.weight {
            Dependency::Data { input_order, output_order, shape } => tensors(links).push(
                (input_order, output_order, shape),
            ),
            Dependency::Schedule => tensors(links),
        },
{
    let p = |l: Link| l.weight is Data;
    let f = |l: Link| (l.weight->input_order, l.weight->output_order, l.weight->shape);
    lemma_filter_push(links, x, p);
    if x.weight is Data {
        assert(links.filter(p).push(x).map_values(f) =~= links.filter(p).map_values(f).push(f(x)));
    }
}

/// A set in which `to` stands where `from` stood.
pub open spec fn moved(s: Set<NodeId>, from: NodeId, to: NodeId) -> Set<NodeId> {
    if s.contains(from) {
        s.remove(from).insert(to)
    } else {
        s
    }
}

/// A state in which `to` has taken the place of `from`.
pub open spec fn references_moved(s: GraphState, from: NodeId, to: NodeId) -> GraphState {
    GraphState {
        to_retrieve: moved(s.to_retrieve, from, to),
        no_delete: moved(s.no_delete, from, to),
        id_remap: s.id_remap.insert(from, to),
        ..s
    }
}

/// Lets `trg` take the place of `src`: in the map of replaced nodes, among the nodes that are
/// kept and among those that are retrieved.
pub fn move_references(
    id_remap: &mut HashMap<NodeId, NodeId>,
    no_delete: &mut HashSet<NodeId>,
    to_retrieve: &mut HashSet<NodeId>,
    src: NodeId,
    trg: NodeId,
)
    ensures
        final(id_remap)@ == old(id_remap)@.insert(src, trg),
        final(no_delete)@ == moved(old(no_delete)@, src, trg),
        final(to_retrieve)@ == moved(old(to_retrieve)@, src, trg),
{
    id_remap.insert(src, trg);
    if no_delete.remove(&src) {
        no_delete.insert(trg);
    }
    if to_retrieve.remove(&src) {
        to_retrieve.insert(trg);
    }
    proof {
        assert(final(no_delete)@ =~= moved(old(no_delete)@, src, trg));
        assert(final(to_retrieve)@ =~= moved(old(to_retrieve)@, src, trg));
    }
}

/// Where one node takes the place of another, it is the one that the other is mapped to, and it is
/// kept, and retrieved, if it was or the other was; the other is neither, and all else stays.
pub proof fn lemma_references_move(
    id_remap: &mut HashMap<NodeId, NodeId>,
    no_delete: &mut HashSet<NodeId>,
    to_retrieve: &mut HashSet<NodeId>,
    src: NodeId,
    trg: NodeId,
)
    requires
        call_ensures(move_references, (id_remap, no_delete, to_retrieve, src, trg), ()),
        src != trg,
    ensures
        final(id_remap)@.contains_key(src) && final(id_remap)@[src] == trg,
        forall|n: NodeId|
            n != src ==> (#[trigger] final(id_remap)@.contains_key(n)
                == old(id_remap)@.contains_key(n)) && final(id_remap)@[n] == old(id_remap)@[n],
        !final(no_delete)@.contains(src),
        !final(to_retrieve)@.contains(src),
        final(no_delete)@.contains(trg) == (old(no_delete)@.contains(trg)
            || old(no_delete)@.contains(src)),
        final(to_retrieve)@.contains(trg) == (old(to_retrieve)@.contains(trg)
            || old(to_retrieve)@.contains(src)),
        forall|n: NodeId|
            n != src && n != trg ==> #[trigger] final(no_delete)@.contains(n)
                == old(no_delete)@.contains(n),
        forall|n: NodeId|
            n != src && n != trg ==> #[trigger] final(to_retrieve)@.contains(n)
                == old(to_retrieve)@.contains(n),
{
}

/// A well-formed graph holds a closed state.
pub proof fn lemma_wf_closed(graph: Graph)
    requires
        graph.wf(),
    ensures
        graph@.closed(),
{
    assert forall|i: int| 0 <= i < graph@.links.len() implies graph@.nodes.contains_key(
        (#[trigger] graph@.links[i]).source,
    ) && graph@.nodes.contains_key(graph@.links[i].target) by {
        assert(graph@.links[i] == graph.edges()[i].link);
    }
}

/// As many edges leave (or enter) a node as links do.
pub proof fn lemma_directed_edges_len(graph: Graph, n: NodeId, dir: Direction)
    ensures
        directed_edges(graph.edges(), n, dir).len() == directed(graph@.links, n, dir).len(),
{
    lemma_directed_links(graph.edges(), n, dir);
}

/// A directed edge is one of the edges.
pub proof fn lemma_directed_from(edges: Seq<Edge>, n: NodeId, dir: Direction, i: int)
    requires
        0 <= i < directed_edges(edges, n, dir).len(),
    ensures
        edges.contains(directed_edges(edges, n, dir)[i]),
        meets(directed_edges(edges, n, dir)[i].link, n, dir),
{
    let p = |e: Edge| meets(e.link, n, dir);
    let s = edges.filter(p);
    let x = s.reverse()[i];
    assert(x == s[s.len() - 1 - i]);
    assert(s.contains(x));
    lemma_filter_contains(edges, p, x);
}

/// Taking an edge out leaves the names of the others distinct.
pub proof fn lemma_without_edge(edges: Seq<Edge>, id: EdgeId)
    requires
        distinct_ids(edges),
    ensures
        distinct_ids(without_edge(edges, id)),
        forall|i: int|
            0 <= i < without_edge(edges, id).len() ==> edges.contains(
                #[trigger] without_edge(edges, id)[i],
            ),
    decreases edges.len(),
{
    let p = |e: Edge| e.id != id;
    let w = without_edge(edges, id);
    assert forall|i: int| 0 <= i < w.len() implies edges.contains(#[trigger] w[i]) by {
        lemma_filter_contains(edges, p, w[i]);
    }
    if edges.len() > 0 {
        let r = edges.drop_last();
        let x = edges.last();
        lemma_without_edge(r, id);
        assert(r.push(x) =~= edges);
        lemma_filter_push(r, x, p);
        assert forall|i: int, j: int| 0 <= i < j < w.len() implies (#[trigger] w[i]).id != (
        #[trigger] w[j]).id by {
            let v = without_edge(r, id);
            if x.id != id && j == v.len() {
                assert(r.contains(v[i]));
                let k = choose|k: int| 0 <= k < r.len() && r[k] == v[i];
                assert(edges[k] == w[i]);
            } else {
                assert(v[i] == w[i] && v[j] == w[j]);
            }
        }
    }
}

} // verus!
