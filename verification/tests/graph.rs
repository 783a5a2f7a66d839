use metal_prims::graph::{move_references, Dependency, Direction, Graph};
use metal_prims::ops::{Kind, Op, Output};
use metal_prims::shape::{Dim, ShapeTracker};
use std::collections::{HashMap, HashSet};
use std::rc::Rc;

fn data(input_order: u8) -> Dependency {
    Dependency::Data {
        input_order,
        output_order: 1,
        shape: Rc::new(ShapeTracker::scalar()),
    }
}

#[test]
fn nodes_have_names_of_their_own() {
    let mut graph = Graph::new();
    let a = graph.add_op(Op::Sin);
    let b = graph.add_op(Op::Print);
    let c = graph.add_op(Op::Function(Output::Floats));
    assert!(a != b && b != c && a != c);
    assert_eq!(graph.node_indices(), vec![a, b, c]);
    assert_eq!(graph.nodes_of(Kind::Print), vec![b]);
    assert_eq!(graph.nodes_of(Kind::Function), vec![c]);
    assert!(matches!(graph.node_weight(a), Some(Op::Sin)));
    assert!(graph.node_weight(c + 1).is_none());
}

#[test]
fn an_operator_changes_in_place() {
    let mut graph = Graph::new();
    let a = graph.add_op(Op::Sin);
    let b = graph.add_op(Op::Sqrt);
    *graph.node_weight_mut(a).unwrap() = Op::Recip;
    assert!(matches!(graph.node_weight(a), Some(Op::Recip)));
    assert!(matches!(graph.node_weight(b), Some(Op::Sqrt)));
    assert!(graph.node_weight_mut(b + 1).is_none());
}

#[test]
fn edges_come_latest_first_and_survive_removals() {
    let mut graph = Graph::new();
    let a = graph.add_op(Op::Other);
    let b = graph.add_op(Op::Other);
    let e0 = graph.add_edge(a, b, data(0));
    let e1 = graph.add_edge(a, b, Dependency::Schedule);
    let e2 = graph.add_edge(a, b, data(2));
    let e3 = graph.add_edge(b, a, data(3));
    let ids = |g: &Graph, n: u32, dir: Direction| {
        g.edges_directed(n, dir)
            .iter()
            .map(|e| e.id)
            .collect::<Vec<u32>>()
    };
    assert_eq!(ids(&graph, a, Direction::Outgoing), vec![e2, e1, e0]);
    assert_eq!(ids(&graph, b, Direction::Incoming), vec![e2, e1, e0]);
    assert_eq!(ids(&graph, a, Direction::Incoming), vec![e3]);
    assert_eq!(graph.edge_count(), 4);
    assert!(graph.remove_edge(e1).unwrap().is_schedule());
    assert_eq!(graph.edge_count(), 3);
    assert!(graph.remove_edge(e1).is_none());
    assert_eq!(ids(&graph, a, Direction::Outgoing), vec![e2, e0]);
    // A new edge is the latest, whatever its name.
    let e4 = graph.add_edge(a, b, data(4));
    assert_eq!(ids(&graph, a, Direction::Outgoing), vec![e4, e2, e0]);
}

#[test]
fn inputs_are_the_tensors_alone() {
    let mut graph = Graph::new();
    let a = graph.add_op(Op::Other);
    let b = graph.add_op(Op::Other);
    graph.add_edge(a, b, data(5));
    graph.add_edge(a, b, Dependency::Schedule);
    graph.add_edge(a, b, data(2));
    let inputs = graph.inputs(b);
    let places: Vec<(u8, u8)> = inputs.iter().map(|i| (i.0, i.1)).collect();
    assert_eq!(places, vec![(2, 1), (5, 1)]);
    assert!(graph.inputs(a).is_empty());
}

#[test]
fn a_dependency_hands_out_its_tensor() {
    let shape = Rc::new(ShapeTracker::new(
        vec![Dim::Known(2)],
        2,
        "idx".to_string(),
        "1".to_string(),
    ));
    let d = Dependency::Data {
        input_order: 3,
        output_order: 4,
        shape: shape.clone(),
    };
    let (i, o, s) = d.as_data().unwrap();
    assert_eq!((i, o), (3, 4));
    assert!(Rc::ptr_eq(&s, &shape));
    assert!(!d.is_schedule());
    assert!(Rc::ptr_eq(&d.duplicate().as_data().unwrap().2, &shape));
    assert!(Dependency::Schedule.as_data().is_none());
    assert!(Dependency::Schedule.duplicate().is_schedule());
}

#[test]
fn references_move_where_they_stand() {
    let mut remap: HashMap<u32, u32> = HashMap::new();
    let mut kept: HashSet<u32> = HashSet::new();
    let mut retrieved: HashSet<u32> = HashSet::new();
    retrieved.insert(1);
    retrieved.insert(2);
    move_references(&mut remap, &mut kept, &mut retrieved, 1, 9);
    assert_eq!(remap.get(&1), Some(&9));
    assert!(kept.is_empty());
    assert!(!retrieved.contains(&1));
    assert!(retrieved.contains(&9) && retrieved.contains(&2));
    kept.insert(4);
    move_references(&mut remap, &mut kept, &mut retrieved, 4, 5);
    assert!(kept.contains(&5) && !kept.contains(&4));
    assert_eq!(retrieved.len(), 2);
    assert_eq!(remap.get(&4), Some(&5));
}
