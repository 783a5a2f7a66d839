use metal_prims::dispatch::{to_word, Binding, Dispatch};
use metal_prims::kernel::Kernels;
use metal_prims::ops::{
    MetalAdd, MetalConstant, MetalContiguous, MetalCopyFromDevice, MetalCopyToDevice, MetalExp2,
    MetalLessThan, MetalLog2, MetalMaxReduce, MetalMod, MetalMul, MetalRecip, MetalSin, MetalSqrt,
    MetalSumReduce,
};
use metal_prims::shape::{checked_product_of, product_of, without_dim, Dim, ShapeTracker};
use metal_prims::binary::can_run_binary;
use metal_prims::reduce::can_run_reduce;
use metal_prims::tensor::{Data, Tensor};
use metal_prims::transfer::{can_download, can_run_contiguous, can_upload, Transfer};
use metal_prims::unary::can_run_unary;
use std::rc::Rc;

fn view(dims: Vec<Dim>, physical: usize) -> Rc<ShapeTracker> {
    Rc::new(ShapeTracker::new(
        dims,
        physical,
        "idx".to_string(),
        "1".to_string(),
    ))
}

/// An input on the device.
fn there(shape: &Rc<ShapeTracker>) -> Tensor {
    (Data::Device(0), shape.clone())
}

fn known(sizes: &[usize]) -> Vec<Dim> {
    sizes.iter().map(|n| Dim::Known(*n)).collect()
}

fn assert_dispatch(d: &Dispatch, kernel: usize, n: usize, bindings: Vec<Binding>) {
    assert_eq!(d.kernel, kernel);
    assert_eq!(d.n_elements, n);
    assert_eq!(d.out_bytes, 4 * n as u64);
    assert_eq!(d.bindings, bindings);
}

#[test]
fn unary_operators_run_over_the_buffer() {
    let inputs = vec![there(&view(known(&[2, 3]), 10))];
    let expected = || vec![Binding::Input(0), Binding::Output, Binding::Int(10)];
    let mut kernels = Kernels::new();
    let log2 = MetalLog2::new(&mut kernels);
    let exp2 = MetalExp2::new(&mut kernels);
    let sin = MetalSin::new(&mut kernels);
    let sqrt = MetalSqrt::new(&mut kernels);
    let recip = MetalRecip::new(&mut kernels);
    assert_dispatch(&log2.process(&inputs), 0, 10, expected());
    assert_dispatch(&exp2.process(&inputs), 1, 10, expected());
    assert_dispatch(&sin.process(&inputs), 2, 10, expected());
    assert_dispatch(&sqrt.process(&inputs), 3, 10, expected());
    assert_dispatch(&recip.process(&inputs), 4, 10, expected());
    assert_eq!(kernels.len(), 5);
}

#[test]
fn binary_operators_run_over_the_view() {
    let planned_a = view(vec![Dim::Unknown('s'), Dim::Known(3)], 0);
    let planned_b = view(vec![Dim::Unknown('t'), Dim::Unknown('s')], 0);
    let inputs = vec![
        there(&view(known(&[2, 3]), 99)),
        there(&view(known(&[7, 2]), 99)),
    ];
    let expected = || {
        vec![
            Binding::Input(0),
            Binding::Input(1),
            Binding::Output,
            Binding::Int(6),
            Binding::Int(2),
            Binding::Int(7),
        ]
    };
    let mut kernels = Kernels::new();
    let add = MetalAdd::new(planned_a.clone(), planned_b.clone(), &mut kernels);
    let mul = MetalMul::new(planned_a.clone(), planned_b.clone(), &mut kernels);
    let less = MetalLessThan::new(planned_a.clone(), planned_b.clone(), &mut kernels);
    let rem = MetalMod::new(planned_a, planned_b, &mut kernels);
    assert_dispatch(&add.process(&inputs), 0, 6, expected());
    assert_dispatch(&mul.process(&inputs), 1, 6, expected());
    assert_dispatch(&less.process(&inputs), 2, 6, expected());
    assert_dispatch(&rem.process(&inputs), 3, 6, expected());
}

#[test]
fn reductions_tell_what_is_before_and_behind() {
    let planned = view(vec![Dim::Known(2), Dim::Unknown('s'), Dim::Known(5)], 0);
    let inputs = vec![there(&view(known(&[2, 3, 5]), 30))];
    let expected = || {
        vec![
            Binding::Input(0),
            Binding::Output,
            Binding::Int(10),
            Binding::Int(2),
            Binding::Int(5),
            Binding::Int(3),
            Binding::Int(3),
        ]
    };
    let mut kernels = Kernels::new();
    let sum = MetalSumReduce::new(planned.clone(), 1, &mut kernels);
    let max = MetalMaxReduce::new(planned, 1, &mut kernels);
    assert_dispatch(&sum.process(&inputs), 0, 10, expected());
    assert_dispatch(&max.process(&inputs), 1, 10, expected());
}

#[test]
fn reductions_along_the_first_and_the_last_dimension() {
    let shape = view(known(&[2, 3, 5]), 30);
    let inputs = vec![there(&shape)];
    let mut kernels = Kernels::new();
    let first = MetalSumReduce::new(shape.clone(), 0, &mut kernels).process(&inputs);
    assert_eq!(first.n_elements, 15);
    assert_eq!(
        first.bindings[2..],
        [
            Binding::Int(15),
            Binding::Int(1),
            Binding::Int(15),
            Binding::Int(2)
        ]
    );
    let last = MetalMaxReduce::new(shape, 2, &mut kernels).process(&inputs);
    assert_eq!(last.n_elements, 6);
    assert_eq!(
        last.bindings[2..],
        [
            Binding::Int(6),
            Binding::Int(6),
            Binding::Int(1),
            Binding::Int(5)
        ]
    );
}

fn number(binding: &Binding) -> usize {
    match binding {
        Binding::Int(n) => *n as usize,
        _ => panic!("no number"),
    }
}

/// The elements that a reduction of contiguous dimensions reads for each of its results.
fn read_by(sizes: &[usize], dim: usize) -> Vec<Vec<usize>> {
    let shape = view(known(sizes), sizes.iter().product());
    let mut kernels = Kernels::new();
    let run = MetalSumReduce::new(shape.clone(), dim, &mut kernels).process(&vec![there(&shape)]);
    let n = number(&run.bindings[2]);
    let back = number(&run.bindings[4]);
    let along = number(&run.bindings[5]);
    (0..n)
        .map(|i| {
            (0..along)
                .map(|c| (i / back) * along * back + c * back + i % back)
                .collect()
        })
        .collect()
}

#[test]
fn a_reduction_reads_every_element_once() {
    for dim in 0..3 {
        let mut read: Vec<usize> = read_by(&[2, 3, 5], dim).into_iter().flatten().collect();
        read.sort();
        assert_eq!(read, (0..30).collect::<Vec<usize>>());
    }
}

#[test]
fn sums_come_out_the_same_in_any_order() {
    let x: Vec<i64> = (0..30).map(|n| n * n - 7 * n).collect();
    let sum = |x: &[i64], sizes: &[usize], dim: usize| -> Vec<i64> {
        read_by(sizes, dim)
            .iter()
            .map(|places| places.iter().map(|p| x[*p]).sum())
            .collect()
    };
    let u = sum(&sum(&x, &[2, 3, 5], 2), &[2, 3], 1);
    let w = sum(&sum(&x, &[2, 3, 5], 1), &[2, 5], 1);
    assert_eq!(u, w);
    assert_eq!(u, vec![x[..15].iter().sum::<i64>(), x[15..].iter().sum::<i64>()]);
}

#[test]
fn contiguous_runs_over_the_view() {
    let planned = view(vec![Dim::Unknown('s'), Dim::Unknown('t')], 0);
    let inputs = vec![there(&view(known(&[4, 2]), 1))];
    let mut kernels = Kernels::new();
    let op = MetalContiguous::new(planned, &mut kernels);
    assert_dispatch(
        &op.process(&inputs),
        0,
        8,
        vec![
            Binding::Input(0),
            Binding::Output,
            Binding::Int(8),
            Binding::Int(4),
            Binding::Int(2),
        ],
    );
}

#[test]
fn an_element_count_is_bound_by_its_low_word() {
    assert_eq!(to_word(7), 7);
    assert_eq!(to_word(0x1_0000_0003), 3);
}

#[test]
fn copies_move_what_is_elsewhere() {
    let to = MetalCopyToDevice;
    let from = MetalCopyFromDevice;
    let s = view(known(&[3]), 3);
    let input = |data: Data| vec![(data, s.clone())];
    assert_eq!(to.process(&input(Data::Floats(3))), Transfer::Upload(12));
    assert_eq!(to.process(&input(Data::Device(12))), Transfer::Keep(0));
    assert_eq!(from.process(&input(Data::Device(12))), Transfer::Download(3));
    assert_eq!(from.process(&input(Data::Device(15))), Transfer::Download(3));
    assert_eq!(from.process(&input(Data::Floats(3))), Transfer::Keep(0));
    // Of several inputs the last is handed on.
    let two = vec![(Data::Device(4), s.clone()), (Data::Floats(1), s.clone())];
    assert_eq!(to.process(&two), Transfer::Keep(1));
    assert!(can_upload(&two) && can_download(&two));
    assert!(!can_upload(&input(Data::Other)) && !can_download(&input(Data::Other)));
    assert!(!can_upload(&vec![]) && !can_download(&vec![]));
    assert!(!can_upload(&input(Data::Floats(usize::MAX))));
}

#[test]
fn a_constant_uploads_its_bits() {
    let s = view(known(&[3]), 3);
    for value in [3.5f32, 0.0, -0.0, f32::MAX] {
        let constant = MetalConstant(value.to_bits());
        assert_eq!(constant.process(&vec![]), Transfer::Word(value.to_bits()));
        let other = vec![(Data::Other, s.clone()), there(&s)];
        assert_eq!(constant.process(&other), Transfer::Word(value.to_bits()));
    }
}

#[test]
fn runs_need_inputs_on_the_device() {
    let s = view(known(&[2, 3]), 6);
    let on = there(&s);
    let off = (Data::Floats(6), s.clone());
    assert!(can_run_unary(&vec![on.clone()]));
    assert!(!can_run_unary(&vec![off.clone()]));
    assert!(!can_run_unary(&vec![]));
    assert!(!can_run_unary(&vec![there(&view(known(&[1]), usize::MAX))]));
    assert!(can_run_binary(&s, &s, &vec![on.clone(), on.clone()]));
    assert!(!can_run_binary(&s, &s, &vec![on.clone(), off.clone()]));
    assert!(!can_run_binary(&s, &s, &vec![off.clone(), on.clone()]));
    assert!(!can_run_binary(&s, &s, &vec![on.clone()]));
    assert!(can_run_reduce(&s, 1, &vec![on.clone()]));
    assert!(!can_run_reduce(&s, 2, &vec![on.clone()]));
    assert!(!can_run_reduce(&s, 1, &vec![off.clone()]));
    assert!(can_run_contiguous(&s, &vec![on]));
    assert!(!can_run_contiguous(&s, &vec![off]));
}

#[test]
fn runs_need_sizes() {
    let planned = view(vec![Dim::Unknown('s'), Dim::Known(3)], 6);
    let open = vec![there(&planned)];
    assert!(!can_run_contiguous(&planned, &open));
    assert!(!can_run_reduce(&planned, 0, &open));
    assert!(!can_run_reduce(&planned, 1, &open));
    let known_one = vec![there(&view(known(&[2, 3]), 6))];
    assert!(can_run_contiguous(&planned, &known_one));
    assert!(can_run_reduce(&planned, 0, &known_one));
    let other_rank = vec![there(&view(known(&[2, 3, 1]), 6))];
    assert!(!can_run_contiguous(&planned, &other_rank));
    let half = usize::MAX / 2 + 1;
    let large = view(known(&[half, 2]), 1);
    assert!(!can_run_contiguous(&large, &vec![there(&large)]));
}

#[test]
fn operators_never_equal() {
    let mut kernels = Kernels::new();
    let s = view(known(&[1]), 1);
    let sin = MetalSin::new(&mut kernels);
    assert!(sin != sin.clone());
    assert!(MetalLog2::new(&mut kernels) != MetalLog2::new(&mut kernels));
    assert!(MetalExp2::new(&mut kernels) != MetalExp2::new(&mut kernels));
    assert!(MetalSqrt::new(&mut kernels) != MetalSqrt::new(&mut kernels));
    assert!(MetalRecip::new(&mut kernels) != MetalRecip::new(&mut kernels));
    assert!(MetalCopyToDevice != MetalCopyToDevice);
    assert!(MetalCopyFromDevice != MetalCopyFromDevice);
    assert!(MetalConstant(0) != MetalConstant(0));
    let add = MetalAdd::new(s.clone(), s.clone(), &mut kernels);
    assert!(add != add.clone());
    let mul = MetalMul::new(s.clone(), s.clone(), &mut kernels);
    assert!(mul != mul.clone());
    let less = MetalLessThan::new(s.clone(), s.clone(), &mut kernels);
    assert!(less != less.clone());
    let rem = MetalMod::new(s.clone(), s.clone(), &mut kernels);
    assert!(rem != rem.clone());
    let sum = MetalSumReduce::new(s.clone(), 0, &mut kernels);
    assert!(sum != sum.clone());
    let max = MetalMaxReduce::new(s.clone(), 0, &mut kernels);
    assert!(max != max.clone());
    let contiguous = MetalContiguous::new(s, &mut kernels);
    assert!(contiguous != contiguous.clone());
}

#[test]
fn products_of_dimensions() {
    let dims = known(&[2, 3, 5]);
    assert_eq!(product_of(&dims, 0, 3), 30);
    assert_eq!(product_of(&dims, 1, 2), 3);
    assert_eq!(product_of(&dims, 2, 2), 1);
    assert_eq!(checked_product_of(&dims, 0, 3), Some(30));
    assert_eq!(checked_product_of(&known(&[usize::MAX, 2]), 0, 2), None);
    assert_eq!(checked_product_of(&vec![Dim::Unknown('s')], 0, 1), None);
    assert_eq!(without_dim(&dims, 1), known(&[2, 5]));
    assert_eq!(view(dims, 7).n_elements(), 30);
    assert_eq!(Dim::Unknown('s').to_usize(), None);
    assert_eq!(Dim::Known(4).to_usize(), Some(4));
    let scalar = ShapeTracker::scalar();
    assert_eq!(scalar.n_elements(), 1);
    assert_eq!(scalar.n_physical_elements(), 1);
}
