use metal_prims::dispatch::{Binding, Dispatch};
use metal_prims::kernel::Kernels;
use metal_prims::ops::{MetalAdd, MetalContiguous, MetalLessThan, MetalMaxReduce, MetalRecip};
use metal_prims::shape::{Dim, ShapeTracker};
use metal_prims::tensor::{Data, Tensor};
use std::rc::Rc;

/// A view together with what its two expressions say of each element.
struct View {
    shape: Rc<ShapeTracker>,
    index: fn(usize) -> usize,
    valid: fn(usize) -> bool,
}

fn view(
    sizes: &[usize],
    physical: usize,
    texts: (&str, &str),
    index: fn(usize) -> usize,
    valid: fn(usize) -> bool,
) -> View {
    let dims: Vec<Dim> = sizes.iter().map(|n| Dim::Known(*n)).collect();
    let shape = ShapeTracker::new(dims, physical, texts.0.to_string(), texts.1.to_string());
    View {
        shape: Rc::new(shape),
        index,
        valid,
    }
}

fn in_place(sizes: &[usize]) -> View {
    view(sizes, sizes.iter().product(), ("idx", "1"), |i| i, |_| true)
}

fn there(view: &View) -> Tensor {
    (Data::Device(0), view.shape.clone())
}

fn number(binding: &Binding) -> usize {
    match binding {
        Binding::Int(n) => *n as usize,
        _ => panic!("no number"),
    }
}

fn element(view: &View, x: &[f32], i: usize) -> Option<f32> {
    if (view.valid)(i) {
        Some(x[(view.index)(i)])
    } else {
        None
    }
}

fn lay_out(v: &View, x: &[f32], out: &[f32]) -> Vec<f32> {
    let op = MetalContiguous::new(v.shape.clone(), &mut Kernels::new());
    let run = op.process(&vec![there(v)]);
    assert_eq!(run.out_bytes as usize, 4 * out.len());
    let mut out = out.to_vec();
    for i in 0..number(&run.bindings[2]) {
        if let Some(e) = element(v, x, i) {
            out[i] = e;
        }
    }
    out
}

fn pair(run: &Dispatch, f: fn(f32, f32) -> f32, a: (&View, &[f32]), b: (&View, &[f32])) -> Vec<f32> {
    (0..number(&run.bindings[3]))
        .map(|i| {
            f(
                element(a.0, a.1, i).unwrap_or(0.0),
                element(b.0, b.1, i).unwrap_or(0.0),
            )
        })
        .collect()
}

fn sum(a: (&View, &[f32]), b: (&View, &[f32])) -> Vec<f32> {
    let op = MetalAdd::new(a.0.shape.clone(), b.0.shape.clone(), &mut Kernels::new());
    let run = op.process(&vec![there(a.0), there(b.0)]);
    pair(&run, |x, y| x + y, a, b)
}

fn less(a: (&View, &[f32]), b: (&View, &[f32])) -> Vec<f32> {
    let op = MetalLessThan::new(a.0.shape.clone(), b.0.shape.clone(), &mut Kernels::new());
    let run = op.process(&vec![there(a.0), there(b.0)]);
    pair(&run, |x, y| if x < y { 1.0 } else { 0.0 }, a, b)
}

fn maximum(v: &View, dim: usize, x: &[f32]) -> Vec<f32> {
    let op = MetalMaxReduce::new(v.shape.clone(), dim, &mut Kernels::new());
    let run = op.process(&vec![there(v)]);
    let back = number(&run.bindings[4]);
    let along = number(&run.bindings[5]);
    (0..number(&run.bindings[2]))
        .map(|i| {
            (0..along)
                .filter_map(|c| element(v, x, (i / back) * along * back + c * back + i % back))
                .fold(-2139095040.0, f32::max)
        })
        .collect()
}

/// Two rows of three as three of two, with padding in place of the last element.
fn turned() -> View {
    view(
        &[3, 2],
        6,
        ("(idx % 2) * 3 + idx / 2", "idx < 5"),
        |i| (i % 2) * 3 + i / 2,
        |i| i < 5,
    )
}

#[test]
fn laying_out_twice_changes_nothing() {
    let x = [1.0, 2.0, 3.0, 4.0, 5.0, 6.0];
    let once = lay_out(&turned(), &x, &[9.0; 6]);
    assert_eq!(once, vec![1.0, 4.0, 2.0, 5.0, 3.0, 9.0]);
    let twice = lay_out(&in_place(&[3, 2]), &once, &[8.0; 6]);
    assert_eq!(twice, once);
}

#[test]
fn a_reciprocal_run_twice_gives_the_buffer_back() {
    let x = vec![1.0f32, 2.0, -4.0, 0.125, 1024.0];
    let run = MetalRecip::new(&mut Kernels::new()).process(&vec![there(&in_place(&[5]))]);
    let recip = |x: &[f32]| -> Vec<f32> {
        (0..number(&run.bindings[2])).map(|i| 1.0 / x[i]).collect()
    };
    let once = recip(&x);
    assert_eq!(once, vec![1.0, 0.5, -0.25, 8.0, 0.0009765625]);
    assert_eq!(recip(&once), x);
}

#[test]
fn a_sum_does_not_depend_on_the_order_of_its_tensors() {
    let x = [1.0, 2.0, 3.0, 4.0, 5.0, 6.0];
    let y = [10.0, 20.0, 30.0, 40.0, 50.0, 60.0];
    let (a, b) = (turned(), in_place(&[3, 2]));
    let expected = vec![11.0, 24.0, 32.0, 45.0, 53.0, 60.0];
    assert_eq!(sum((&a, &x), (&b, &y)), expected);
    assert_eq!(sum((&b, &y), (&a, &x)), expected);
}

#[test]
fn a_tensor_added_to_itself_is_doubled() {
    let x = [1.0, 2.0, 3.0, 4.0, 5.0, 6.0];
    let b = in_place(&[3, 2]);
    assert_eq!(
        sum((&b, &x), (&b, &x)),
        vec![2.0, 4.0, 6.0, 8.0, 10.0, 12.0]
    );
    let a = turned();
    assert_eq!(sum((&a, &x), (&a, &x)), vec![2.0, 8.0, 4.0, 10.0, 6.0, 0.0]);
}

#[test]
fn comparing_both_ways_tells_where_elements_differ() {
    let x = [1.0, 2.0, 3.0, 4.0, 5.0, 6.0];
    let y = [1.0, 3.0, 3.0, 5.0, 3.0, 0.0];
    let (a, b) = (turned(), in_place(&[3, 2]));
    let (one, other) = (less((&a, &x), (&b, &y)), less((&b, &y), (&a, &x)));
    assert_eq!(one, vec![0.0, 0.0, 1.0, 0.0, 0.0, 0.0]);
    assert_eq!(other, vec![0.0, 1.0, 0.0, 0.0, 0.0, 0.0]);
    assert_eq!(less((&a, &x), (&a, &x)), vec![0.0; 6]);
}

#[test]
fn a_maximum_is_the_highest_of_its_slice() {
    let x = [4.0, 2.0, 9.0, -1.0, 5.0, -6.0];
    let v = in_place(&[2, 3]);
    assert_eq!(maximum(&v, 0, &x), vec![4.0, 5.0, 9.0]);
    assert_eq!(maximum(&v, 1, &x), vec![9.0, 5.0]);
    // Padding has no part in it.
    assert_eq!(maximum(&turned(), 1, &x), vec![4.0, 5.0, 9.0]);
}

#[test]
fn a_maximum_of_less_than_its_start_is_the_start() {
    let v = in_place(&[1, 2]);
    assert_eq!(maximum(&v, 1, &[-3.0e9, -4.0e9]), vec![-2139095040.0]);
}

#[test]
fn a_maximum_over_an_expanded_dimension_gives_the_tensor_back() {
    let x = [4.0, 2.0, 9.0, -1.0, 5.0, -6.0];
    let front = view(&[4, 2, 3], 6, ("idx % 6", "1"), |i| i % 6, |_| true);
    let middle = view(
        &[2, 4, 3],
        6,
        ("(idx / 12) * 3 + idx % 3", "1"),
        |i| (i / 12) * 3 + i % 3,
        |_| true,
    );
    let back = view(&[2, 3, 4], 6, ("idx / 4", "1"), |i| i / 4, |_| true);
    assert_eq!(maximum(&front, 0, &x), x.to_vec());
    assert_eq!(maximum(&middle, 1, &x), x.to_vec());
    assert_eq!(maximum(&back, 2, &x), x.to_vec());
}
