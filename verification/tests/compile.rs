use metal_prims::graph::{Dependency, Direction, Edge, Graph};
use metal_prims::kernel::Kernels;
use metal_prims::ops::{Op, Output};
use metal_prims::primitive::PrimitiveCompiler;
use metal_prims::readiness::can_compile;
use metal_prims::shape::{Dim, ShapeTracker};
use std::rc::Rc;

fn view(sizes: &[usize], physical: usize) -> Rc<ShapeTracker> {
    let dims: Vec<Dim> = sizes.iter().map(|n| Dim::Known(*n)).collect();
    Rc::new(ShapeTracker::new(
        dims,
        physical,
        "idx".to_string(),
        "1".to_string(),
    ))
}

fn data(input_order: u8, shape: &Rc<ShapeTracker>) -> Dependency {
    Dependency::Data {
        input_order,
        output_order: 0,
        shape: shape.clone(),
    }
}

fn compile(graph: &mut Graph) -> Kernels {
    assert!(can_compile(graph));
    PrimitiveCompiler::default().compile(graph)
}

fn op(graph: &Graph, n: u32) -> Op {
    graph.node_weight(n).unwrap().clone()
}

fn into(graph: &Graph, n: u32) -> Vec<Edge> {
    graph.edges_directed(n, Direction::Incoming)
}

fn out_of(graph: &Graph, n: u32) -> Vec<Edge> {
    graph.edges_directed(n, Direction::Outgoing)
}

#[test]
fn a_float_function_is_read_through_a_copy_to_the_device() {
    let s = view(&[2, 3], 6);
    let mut graph = Graph::new();
    let f = graph.add_op(Op::Function(Output::Floats));
    let a = graph.add_op(Op::Sin);
    let b = graph.add_op(Op::Sqrt);
    graph.add_edge(f, a, data(0, &s));
    graph.add_edge(f, b, data(0, &s));
    compile(&mut graph);

    let outs = out_of(&graph, f);
    assert_eq!(outs.len(), 1);
    let c = outs[0].link.target;
    assert!(matches!(op(&graph, c), Op::MetalCopyToDevice(_)));
    let (io, oo, scalar) = outs[0].link.weight.as_data().unwrap();
    assert_eq!((io, oo), (0, 0));
    assert_eq!(scalar.dims.len(), 0);
    assert_eq!(scalar.physical, 1);
    for n in [a, b] {
        let reads = into(&graph, n);
        assert_eq!(reads.len(), 1);
        assert_eq!(reads[0].link.source, c);
        assert!(Rc::ptr_eq(&reads[0].link.weight.as_data().unwrap().2, &s));
    }
    // The function itself reads nothing, so nothing has taken its place.
    assert!(graph.id_remap.is_empty());
    assert!(matches!(op(&graph, f), Op::Function(Output::Floats)));
}

#[test]
fn the_readers_of_a_function_move_to_its_copy_latest_first() {
    let s = view(&[1], 1);
    let mut graph = Graph::new();
    let f = graph.add_op(Op::Function(Output::Floats));
    let a = graph.add_op(Op::Sin);
    let b = graph.add_op(Op::Sqrt);
    graph.add_edge(f, a, data(0, &s));
    graph.add_edge(f, b, data(0, &s));
    compile(&mut graph);
    let c = out_of(&graph, f)[0].link.target;
    // Rerouted from `b` to `a`, so the link to `a` is the latest.
    let readers: Vec<u32> = out_of(&graph, c).iter().map(|e| e.link.target).collect();
    assert_eq!(readers, vec![a, b]);
}

#[test]
fn a_function_of_another_type_gets_no_copy() {
    let s = view(&[1], 1);
    let mut graph = Graph::new();
    let f = graph.add_op(Op::Function(Output::Other));
    let a = graph.add_op(Op::Sin);
    graph.add_edge(f, a, data(0, &s));
    graph.to_retrieve.insert(f);
    compile(&mut graph);
    assert_eq!(graph.node_indices(), vec![f, a]);
    assert_eq!(into(&graph, a)[0].link.source, f);
    assert!(graph.to_retrieve.contains(&f));
    assert_eq!(graph.to_retrieve.len(), 1);
}

#[test]
fn a_function_reads_through_copies_from_the_device() {
    let s = view(&[4], 4);
    let mut graph = Graph::new();
    let x = graph.add_op(Op::Exp2);
    let y = graph.add_op(Op::Recip);
    let f = graph.add_op(Op::Function(Output::Other));
    graph.add_edge(x, f, data(0, &s));
    graph.add_edge(y, f, Dependency::Schedule);
    compile(&mut graph);
    let reads = into(&graph, f);
    assert_eq!(reads.len(), 2);
    // Copied from the latest input to the first, so the first is the latest link.
    assert!(Rc::ptr_eq(&reads[0].link.weight.as_data().unwrap().2, &s));
    assert!(reads[1].link.weight.is_schedule());
    for (read, source) in [(&reads[0], x), (&reads[1], y)] {
        let d = read.link.source;
        assert!(matches!(op(&graph, d), Op::MetalCopyFromDevice(_)));
        let inner = into(&graph, d);
        assert_eq!(inner.len(), 1);
        assert_eq!(inner[0].link.source, source);
        assert_eq!(inner[0].link.weight.as_data().unwrap().2.physical, 1);
    }
}

#[test]
fn a_function_with_inputs_gives_way_to_its_copy() {
    let s = view(&[4], 4);
    let mut graph = Graph::new();
    let x = graph.add_op(Op::Exp2);
    let f = graph.add_op(Op::Function(Output::Floats));
    let y = graph.add_op(Op::Sin);
    graph.add_edge(x, f, data(0, &s));
    graph.add_edge(f, y, data(0, &s));
    graph.no_delete.insert(f);
    compile(&mut graph);
    let c = out_of(&graph, f)[0].link.target;
    assert_eq!(graph.id_remap.get(&f), Some(&c));
    assert!(graph.no_delete.contains(&c));
    assert!(!graph.no_delete.contains(&f));
    assert!(graph.to_retrieve.is_empty());
}

#[test]
fn a_retrieved_function_stays_and_its_copy_is_copied_back() {
    let mut graph = Graph::new();
    let f = graph.add_op(Op::Function(Output::Floats));
    graph.to_retrieve.insert(f);
    compile(&mut graph);
    // The function, its copy to the device, and the copy of that from the device.
    assert_eq!(graph.node_indices().len(), 3);
    let c = out_of(&graph, f)[0].link.target;
    let d = out_of(&graph, c)[0].link.target;
    assert!(matches!(op(&graph, c), Op::MetalCopyToDevice(_)));
    assert!(matches!(op(&graph, d), Op::MetalCopyFromDevice(_)));
    assert!(graph.to_retrieve.contains(&f));
    assert!(graph.to_retrieve.contains(&d));
    assert!(!graph.to_retrieve.contains(&c));
    assert_eq!(graph.id_remap.get(&c), Some(&d));
}

#[test]
fn a_retrieved_function_with_inputs_is_retrieved_through_its_copy_alone() {
    let s = view(&[4], 4);
    let mut graph = Graph::new();
    let x = graph.add_op(Op::Exp2);
    let f = graph.add_op(Op::Function(Output::Floats));
    graph.add_edge(x, f, data(0, &s));
    graph.to_retrieve.insert(f);
    compile(&mut graph);
    let c = out_of(&graph, f)[0].link.target;
    let d = out_of(&graph, c)[0].link.target;
    assert_eq!(graph.to_retrieve.iter().copied().collect::<Vec<u32>>(), vec![d]);
    assert_eq!(graph.id_remap.get(&f), Some(&c));
    assert_eq!(graph.id_remap.get(&c), Some(&d));
}

#[test]
fn a_kept_function_with_inputs_is_kept_through_its_copies() {
    let s = view(&[4], 4);
    let mut graph = Graph::new();
    let x = graph.add_op(Op::Exp2);
    let f = graph.add_op(Op::Function(Output::Floats));
    graph.add_edge(x, f, data(0, &s));
    graph.to_retrieve.insert(f);
    graph.no_delete.insert(f);
    compile(&mut graph);
    let c = out_of(&graph, f)[0].link.target;
    let d = out_of(&graph, c)[0].link.target;
    assert_eq!(graph.no_delete.iter().copied().collect::<Vec<u32>>(), vec![d]);
}

#[test]
fn a_kept_function_without_inputs_stays_kept() {
    let mut graph = Graph::new();
    let f = graph.add_op(Op::Function(Output::Floats));
    let g = graph.add_op(Op::Function(Output::Floats));
    let h = graph.add_op(Op::Function(Output::Other));
    graph.to_retrieve.insert(f);
    graph.no_delete.insert(f);
    graph.no_delete.insert(h);
    compile(&mut graph);
    let mut kept: Vec<u32> = graph.no_delete.iter().copied().collect();
    kept.sort();
    assert_eq!(kept, vec![f, h]);
    assert!(!graph.id_remap.contains_key(&f));
    assert!(!graph.id_remap.contains_key(&g));
    assert!(!graph.id_remap.contains_key(&h));
}

#[test]
fn links_away_from_functions_and_prints_stay() {
    let s = view(&[4], 4);
    let mut graph = Graph::new();
    let x = graph.add_op(Op::Other);
    let y = graph.add_op(Op::Sin);
    let f = graph.add_op(Op::Function(Output::Floats));
    let z = graph.add_op(Op::Add);
    let p = graph.add_op(Op::Print);
    graph.add_edge(x, y, data(0, &s));
    graph.add_edge(y, z, data(0, &s));
    graph.add_edge(x, z, Dependency::Schedule);
    graph.add_edge(y, f, data(0, &s));
    graph.add_edge(f, z, data(1, &s));
    graph.add_edge(z, p, data(0, &s));
    graph.to_retrieve.insert(z);
    compile(&mut graph);
    assert_eq!(into(&graph, y)[0].link.source, x);
    assert!(Rc::ptr_eq(&into(&graph, y)[0].link.weight.as_data().unwrap().2, &s));
    // Of the links between two nodes that were there, those are left that were there: the three
    // that touch neither a function nor a print.
    let old = [x, y, f, z, p];
    let mut left: Vec<(u32, u32)> = vec![];
    for n in old {
        for edge in into(&graph, n) {
            if old.contains(&edge.link.source) {
                left.push((edge.link.source, n));
            }
        }
    }
    left.sort();
    assert_eq!(left, vec![(x, y), (x, z), (y, z)]);
}

#[test]
fn an_output_is_copied_back_under_its_largest_view() {
    let small = view(&[2], 2);
    let large = view(&[2], 8);
    let also_large = view(&[4], 8);
    let mut graph = Graph::new();
    let x = graph.add_op(Op::Other);
    let n = graph.add_op(Op::Add);
    graph.add_edge(x, n, data(0, &also_large));
    graph.add_edge(x, n, data(1, &small));
    graph.add_edge(x, n, data(2, &large));
    graph.add_edge(x, n, Dependency::Schedule);
    graph.to_retrieve.insert(n);
    graph.no_delete.insert(n);
    compile(&mut graph);
    let d = out_of(&graph, n)[0].link.target;
    assert!(matches!(op(&graph, d), Op::MetalCopyFromDevice(_)));
    // Of two largest views that of the link walked last, which is the earliest, is taken.
    let shape = into(&graph, d)[0].link.weight.as_data().unwrap().2;
    assert!(Rc::ptr_eq(&shape, &also_large));
    assert_eq!(graph.to_retrieve.iter().copied().collect::<Vec<u32>>(), vec![d]);
    assert_eq!(graph.no_delete.iter().copied().collect::<Vec<u32>>(), vec![d]);
    assert_eq!(graph.id_remap.get(&n), Some(&d));
}

#[test]
fn a_print_reads_its_latest_tensor_through_a_copy() {
    let s = view(&[2], 2);
    let t = view(&[3], 3);
    let mut graph = Graph::new();
    let x = graph.add_op(Op::Other);
    let y = graph.add_op(Op::Other);
    let p = graph.add_op(Op::Print);
    graph.add_edge(x, p, data(0, &s));
    graph.add_edge(
        y,
        p,
        Dependency::Data {
            input_order: 7,
            output_order: 5,
            shape: t.clone(),
        },
    );
    graph.add_edge(x, p, Dependency::Schedule);
    compile(&mut graph);
    let reads = into(&graph, p);
    assert_eq!(reads.len(), 3);
    let d = reads[0].link.source;
    assert!(matches!(op(&graph, d), Op::MetalCopyFromDevice(_)));
    let (io, oo, shape) = reads[0].link.weight.as_data().unwrap();
    assert_eq!((io, oo), (0, 0));
    assert!(Rc::ptr_eq(&shape, &t));
    assert!(reads[1].link.weight.is_schedule());
    assert_eq!(reads[2].link.source, x);
    assert!(Rc::ptr_eq(&reads[2].link.weight.as_data().unwrap().2, &s));
    let inner = into(&graph, d);
    assert_eq!(inner.len(), 1);
    assert_eq!(inner[0].link.source, y);
    assert!(Rc::ptr_eq(&inner[0].link.weight.as_data().unwrap().2, &t));
}

#[test]
fn two_functions_in_a_row_are_joined_by_copies_both_ways() {
    let s = view(&[2], 2);
    let mut graph = Graph::new();
    // The reader has the smaller name, so it is treated first.
    let g = graph.add_op(Op::Function(Output::Floats));
    let f = graph.add_op(Op::Function(Output::Floats));
    graph.add_edge(f, g, data(0, &s));
    compile(&mut graph);
    let d = into(&graph, g)[0].link.source;
    assert!(matches!(op(&graph, d), Op::MetalCopyFromDevice(_)));
    let c = into(&graph, d)[0].link.source;
    assert!(matches!(op(&graph, c), Op::MetalCopyToDevice(_)));
    assert_eq!(into(&graph, c)[0].link.source, f);
    assert_eq!(out_of(&graph, f).len(), 1);
    let shape = into(&graph, g)[0].link.weight.as_data().unwrap().2;
    assert!(Rc::ptr_eq(&shape, &s));
}

#[test]
fn every_primitive_gives_way_to_its_metal_counterpart() {
    let s = view(&[2, 3], 6);
    let t = view(&[2, 3], 6);
    let mut graph = Graph::new();
    let x = graph.add_op(Op::Other);
    let primitives = vec![
        Op::Constant(0x3f80_0000),
        Op::Log2,
        Op::Exp2,
        Op::Sin,
        Op::Sqrt,
        Op::Recip,
        Op::Add,
        Op::Mul,
        Op::LessThan,
        Op::Mod,
        Op::SumReduce(1),
        Op::MaxReduce(0),
        Op::Contiguous,
        Op::Other,
    ];
    let mut ids = Vec::new();
    for primitive in primitives {
        let n = graph.add_op(primitive);
        graph.add_edge(x, n, data(0, &s));
        graph.add_edge(x, n, data(1, &t));
        ids.push(n);
    }
    let kernels = compile(&mut graph);
    assert_eq!(kernels.len(), 12);
    match op(&graph, ids[0]) {
        Op::MetalConstant(c) => assert_eq!(c.0, 0x3f80_0000),
        _ => panic!("no constant"),
    }
    assert!(matches!(op(&graph, ids[1]), Op::MetalLog2(m) if m.kernel == 0));
    assert!(matches!(op(&graph, ids[2]), Op::MetalExp2(m) if m.kernel == 1));
    assert!(matches!(op(&graph, ids[3]), Op::MetalSin(m) if m.kernel == 2));
    assert!(matches!(op(&graph, ids[4]), Op::MetalSqrt(m) if m.kernel == 3));
    assert!(matches!(op(&graph, ids[5]), Op::MetalRecip(m) if m.kernel == 4));
    assert!(matches!(op(&graph, ids[6]), Op::MetalAdd(m) if m.kernel == 5
        && Rc::ptr_eq(&m.a_shape, &s) && Rc::ptr_eq(&m.b_shape, &t)));
    assert!(matches!(op(&graph, ids[7]), Op::MetalMul(m) if m.kernel == 6
        && Rc::ptr_eq(&m.a_shape, &s) && Rc::ptr_eq(&m.b_shape, &t)));
    assert!(matches!(op(&graph, ids[8]), Op::MetalLessThan(m) if m.kernel == 7
        && Rc::ptr_eq(&m.a_shape, &s) && Rc::ptr_eq(&m.b_shape, &t)));
    assert!(matches!(op(&graph, ids[9]), Op::MetalMod(m) if m.kernel == 8
        && Rc::ptr_eq(&m.a_shape, &s) && Rc::ptr_eq(&m.b_shape, &t)));
    assert!(matches!(op(&graph, ids[10]), Op::MetalSumReduce(m) if m.kernel == 9
        && m.dim == 1 && Rc::ptr_eq(&m.shape, &s)));
    assert!(matches!(op(&graph, ids[11]), Op::MetalMaxReduce(m) if m.kernel == 10
        && m.dim == 0 && Rc::ptr_eq(&m.shape, &s)));
    assert!(matches!(op(&graph, ids[12]), Op::MetalContiguous(m) if m.kernel == 11
        && Rc::ptr_eq(&m.shape, &s)));
    assert!(matches!(op(&graph, ids[13]), Op::Other));
}

#[test]
fn operators_of_one_template_share_a_kernel() {
    let s = view(&[2], 2);
    let other = Rc::new(ShapeTracker::new(
        vec![Dim::Known(2)],
        2,
        "idx % 2".to_string(),
        "1".to_string(),
    ));
    let mut graph = Graph::new();
    let x = graph.add_op(Op::Other);
    let a = graph.add_op(Op::Sin);
    let b = graph.add_op(Op::Contiguous);
    let c = graph.add_op(Op::Sin);
    let d = graph.add_op(Op::Contiguous);
    graph.add_edge(x, a, data(0, &s));
    graph.add_edge(x, b, data(0, &s));
    graph.add_edge(x, c, data(0, &s));
    graph.add_edge(x, d, data(0, &other));
    let kernels = compile(&mut graph);
    assert_eq!(kernels.len(), 3);
    assert!(matches!(op(&graph, a), Op::MetalSin(m) if m.kernel == 0));
    assert!(matches!(op(&graph, b), Op::MetalContiguous(m) if m.kernel == 1));
    assert!(matches!(op(&graph, c), Op::MetalSin(m) if m.kernel == 0));
    assert!(matches!(op(&graph, d), Op::MetalContiguous(m) if m.kernel == 2));
    assert_ne!(kernels.get(1).name, kernels.get(2).name);
}

#[test]
fn inputs_go_by_their_place_not_by_the_order_of_links() {
    let s = view(&[1], 1);
    let t = view(&[1], 2);
    let mut graph = Graph::new();
    let x = graph.add_op(Op::Other);
    let m = graph.add_op(Op::LessThan);
    let n = graph.add_op(Op::LessThan);
    graph.add_edge(x, m, data(1, &t));
    graph.add_edge(x, m, data(0, &s));
    graph.add_edge(x, n, data(0, &s));
    graph.add_edge(x, n, data(1, &t));
    compile(&mut graph);
    for id in [m, n] {
        match op(&graph, id) {
            Op::MetalLessThan(l) => {
                assert!(Rc::ptr_eq(&l.a_shape, &s));
                assert!(Rc::ptr_eq(&l.b_shape, &t));
            }
            _ => panic!("no comparison"),
        }
    }
}

#[test]
fn inputs_of_one_place_go_latest_first() {
    let s = view(&[1], 1);
    let t = view(&[1], 2);
    let u = view(&[1], 3);
    let mut graph = Graph::new();
    let x = graph.add_op(Op::Other);
    let n = graph.add_op(Op::Mul);
    graph.add_edge(x, n, data(3, &s));
    graph.add_edge(x, n, data(3, &t));
    graph.add_edge(x, n, data(255, &u));
    compile(&mut graph);
    match op(&graph, n) {
        Op::MetalMul(m) => {
            assert!(Rc::ptr_eq(&m.a_shape, &t));
            assert!(Rc::ptr_eq(&m.b_shape, &s));
        }
        _ => panic!("no product"),
    }
}

#[test]
fn copying_leaves_the_views_of_operators() {
    let s = view(&[2], 2);
    let t = view(&[2], 4);
    let mut graph = Graph::new();
    let f = graph.add_op(Op::Function(Output::Floats));
    let n = graph.add_op(Op::Add);
    graph.add_edge(f, n, data(0, &s));
    graph.add_edge(f, n, data(1, &t));
    compile(&mut graph);
    match op(&graph, n) {
        Op::MetalAdd(m) => {
            assert!(Rc::ptr_eq(&m.a_shape, &s));
            assert!(Rc::ptr_eq(&m.b_shape, &t));
        }
        _ => panic!("no sum"),
    }
    assert_eq!(graph.inputs(n).len(), 2);
}

#[test]
fn an_empty_graph_needs_nothing() {
    let mut graph = Graph::new();
    let kernels = compile(&mut graph);
    assert_eq!(kernels.len(), 0);
    assert!(graph.node_indices().is_empty());
}

#[test]
fn compiling_adds_one_node_and_one_link_for_each_copy() {
    let s = view(&[2], 2);
    let mut graph = Graph::new();
    let f = graph.add_op(Op::Function(Output::Floats));
    let g = graph.add_op(Op::Function(Output::Other));
    let n = graph.add_op(Op::Mul);
    let p = graph.add_op(Op::Print);
    graph.add_edge(f, n, data(0, &s));
    graph.add_edge(f, n, data(1, &s));
    graph.add_edge(n, g, data(0, &s));
    graph.add_edge(n, g, Dependency::Schedule);
    graph.add_edge(n, p, data(0, &s));
    graph.to_retrieve.insert(n);
    graph.to_retrieve.insert(f);
    graph.to_retrieve.insert(g);
    let before = graph.node_indices();
    compile(&mut graph);
    // Two links into functions, one function of floats, which is retrieved, one other retrieved
    // node, one print.
    let copies = 2 + 1 + 1 + 1 + 1;
    let after = graph.node_indices();
    assert_eq!(after.len(), before.len() + copies);
    let links: usize = after.iter().map(|n| into(&graph, *n).len()).sum();
    assert_eq!(links, 5 + copies);
    for id in after {
        let now = op(&graph, id);
        if before.contains(&id) {
            assert!(!matches!(now, Op::Mul));
        } else {
            assert!(matches!(now, Op::MetalCopyToDevice(_) | Op::MetalCopyFromDevice(_)));
        }
    }
    for id in graph.to_retrieve.iter() {
        assert!(matches!(
            op(&graph, *id),
            Op::Function(_) | Op::MetalCopyFromDevice(_)
        ));
    }
}

#[test]
fn some_graphs_cannot_be_compiled() {
    let s = view(&[2], 2);
    let mut few = Graph::new();
    let x = few.add_op(Op::Other);
    let n = few.add_op(Op::Add);
    few.add_edge(x, n, data(0, &s));
    few.add_edge(x, n, Dependency::Schedule);
    assert!(!can_compile(&few));
    few.add_edge(x, n, data(1, &s));
    assert!(can_compile(&few));

    let mut unread = Graph::new();
    let y = unread.add_op(Op::Sin);
    assert!(can_compile(&unread));
    unread.to_retrieve.insert(y);
    assert!(!can_compile(&unread));

    let mut missing = Graph::new();
    missing.to_retrieve.insert(7);
    assert!(!can_compile(&missing));

    let mut printed = Graph::new();
    printed.add_op(Op::Print);
    assert!(!can_compile(&printed));

    let mut reduced = Graph::new();
    reduced.add_op(Op::SumReduce(0));
    assert!(!can_compile(&reduced));
}

/// What a node hands out, where numbers stand for tensors.
fn value(graph: &Graph, n: u32) -> i64 {
    let mut reads: Vec<(u8, i64)> = into(graph, n)
        .iter()
        .filter_map(|e| {
            let input = e.link.weight.as_data()?;
            Some((input.0, value(graph, e.link.source)))
        })
        .collect();
    reads.sort();
    match op(graph, n) {
        Op::Function(_) => 10 + n as i64 + reads.iter().map(|r| 3 * r.1).sum::<i64>(),
        Op::Constant(c) => c as i64,
        Op::MetalConstant(c) => c.0 as i64,
        Op::Sin | Op::MetalSin(_) => reads[0].1 * 7 + 1,
        Op::Add | Op::MetalAdd(_) => reads[0].1 + reads[1].1,
        Op::LessThan | Op::MetalLessThan(_) => (reads[0].1 < reads[1].1) as i64,
        Op::MetalCopyToDevice(_) | Op::MetalCopyFromDevice(_) => reads[0].1,
        Op::Print => 0,
        _ => panic!("no such operator here"),
    }
}

#[test]
fn a_compiled_graph_computes_what_it_did() {
    let s = view(&[2], 2);
    let t = view(&[2], 4);
    let mut graph = Graph::new();
    let f = graph.add_op(Op::Function(Output::Floats));
    let k = graph.add_op(Op::Constant(5));
    let sum = graph.add_op(Op::Add);
    let g = graph.add_op(Op::Function(Output::Floats));
    let less = graph.add_op(Op::LessThan);
    let sin = graph.add_op(Op::Sin);
    let h = graph.add_op(Op::Function(Output::Other));
    let p = graph.add_op(Op::Print);
    graph.add_edge(k, sum, data(1, &t));
    graph.add_edge(f, sum, data(0, &s));
    graph.add_edge(sum, g, data(0, &s));
    graph.add_edge(g, less, data(1, &s));
    graph.add_edge(f, less, data(0, &s));
    graph.add_edge(g, sin, data(0, &s));
    graph.add_edge(sin, h, data(0, &s));
    graph.add_edge(sin, h, Dependency::Schedule);
    graph.add_edge(less, p, data(0, &s));
    let retrieved = [f, sum, g, less, sin, h];
    let expected: Vec<i64> = retrieved.iter().map(|n| value(&graph, *n)).collect();
    for n in retrieved {
        graph.to_retrieve.insert(n);
    }
    compile(&mut graph);
    for (n, expected) in retrieved.iter().zip(expected) {
        let mut d = *n;
        while let Some(next) = graph.id_remap.get(&d) {
            d = *next;
        }
        assert!(graph.to_retrieve.contains(&d));
        assert!(matches!(
            op(&graph, d),
            Op::Function(_) | Op::MetalCopyFromDevice(_)
        ));
        assert_eq!(value(&graph, d), expected);
        assert_eq!(value(&graph, *n), expected);
    }
}
