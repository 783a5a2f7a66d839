//! What the kernels of `source` make of elements, whatever elements are and whatever index
//! expressions mean. A kernel counts in 32 bits: of `n` elements it writes the first
//! `low_word(n)`.
use crate::dispatch::low_word;
use crate::reduce::{
    lemma_reduce_sizes, lemma_reduced_index_parts, lemma_reduced_index_within, reduced_index,
};
use crate::shape::{product, size, Dim, ShapeTracker};
use crate::sums::{sum, summed};
use vstd::arithmetic::div_mod::lemma_fundamental_div_mod;
use vstd::prelude::*;
use vstd::relations::total_ordering;

verus! {

/// The value of an expression of kernel source for the element `idx` of a view.
pub type Expressions = spec_fn(Seq<char>, int) -> int;

/// `idx` is the number of the element, and `1` is 1.
pub open spec fn literal(ev: Expressions) -> bool {
    &&& forall|i: int| #[trigger] ev("idx"@, i) == i
    &&& forall|i: int| #[trigger] ev("1"@, i) == 1
}

/// Element `i` of the view is element `i` of the buffer.
pub open spec fn in_place(shape: &ShapeTracker) -> bool {
    shape.index@ == "idx"@ && shape.valid@ == "1"@
}

/// Element `i` of the view is in the buffer, and no padding.
pub open spec fn is_valid(ev: Expressions, shape: &ShapeTracker, i: int) -> bool {
    ev(shape.valid@, i) != 0
}

/// Element `i` of a view of the buffer `x`, `zero` where it is padding.
pub open spec fn element<E>(
    ev: Expressions,
    shape: &ShapeTracker,
    x: Seq<E>,
    i: int,
    zero: E,
) -> E {
    if is_valid(ev, shape, i) {
        x[ev(shape.index@, i)]
    } else {
        zero
    }
}

/// What laying out a view of `x` leaves in an output buffer that held `out`, where the kernel
/// writes the first `n` elements: padding is not written.
pub open spec fn laid_out<E>(
    ev: Expressions,
    shape: &ShapeTracker,
    x: Seq<E>,
    out: Seq<E>,
    n: nat,
) -> Seq<E> {
    Seq::new(
        out.len(),
        |i: int|
            if i < n {
                element(ev, shape, x, i, out[i])
            } else {
                out[i]
            },
    )
}

/// Laying out what is in place already changes nothing.
pub proof fn lemma_laid_out_in_place<E>(
    ev: Expressions,
    shape: &ShapeTracker,
    x: Seq<E>,
    out: Seq<E>,
    n: nat,
)
    requires
        literal(ev),
        in_place(shape),
        n <= x.len(),
        out.len() == x.len(),
    ensures
        laid_out(ev, shape, x, out, n).take(n as int) == x.take(n as int),
        n == x.len() ==> laid_out(ev, shape, x, out, n) == x,
{
    let y = laid_out(ev, shape, x, out, n);
    assert(y.take(n as int) =~= x.take(n as int));
    if n == x.len() {
        assert(y =~= x);
    }
}

/// Laying a tensor out contiguously a second time changes nothing, neither in what the kernel
/// writes nor, where it can count all elements, in the whole buffer.
pub proof fn lemma_laid_out_twice<E>(
    ev: Expressions,
    shape: &ShapeTracker,
    contiguous: &ShapeTracker,
    x: Seq<E>,
    first: Seq<E>,
    second: Seq<E>,
)
    requires
        literal(ev),
        in_place(contiguous),
        contiguous.dims@ == shape.dims@,
        first.len() == product(shape.dims@),
        second.len() == product(contiguous.dims@),
    ensures
        ({
            let n = low_word(product(shape.dims@)) as nat;
            let once = laid_out(ev, shape, x, first, n);
            let twice = laid_out(ev, contiguous, once, second, n);
            &&& twice.take(n as int) == once.take(n as int)
            &&& product(shape.dims@) <= u32::MAX ==> twice == once
        }),
{
    let n = low_word(product(shape.dims@)) as nat;
    lemma_laid_out_in_place(ev, contiguous, laid_out(ev, shape, x, first, n), second, n);
}

/// What an operator on every element hands back for the first `n` elements of a buffer.
pub open spec fn mapped<E>(f: spec_fn(E) -> E, x: Seq<E>, n: nat) -> Seq<E> {
    Seq::new(n, |i: int| f(x[i]))
}

/// An operator that undoes itself on every element, as the reciprocal does, gives the buffer back
/// when it is run twice.
pub proof fn lemma_mapped_twice<E>(f: spec_fn(E) -> E, x: Seq<E>, n: nat)
    requires
        n <= x.len(),
        forall|i: int| 0 <= i < n ==> f(f(#[trigger] x[i])) == x[i],
    ensures
        mapped(f, mapped(f, x, n), n) == x.take(n as int),
        n == x.len() ==> mapped(f, mapped(f, x, n), n) == x,
{
    assert(mapped(f, mapped(f, x, n), n) =~= x.take(n as int));
    if n == x.len() {
        assert(x.take(n as int) =~= x);
    }
}

/// What an operator on two tensors in pairs hands back for the first `n` elements, padding read
/// as `zero`.
pub open spec fn paired<E, F>(
    ev: Expressions,
    f: spec_fn(E, E) -> F,
    zero: E,
    a: (&ShapeTracker, Seq<E>),
    b: (&ShapeTracker, Seq<E>),
    n: nat,
) -> Seq<F> {
    Seq::new(n, |i: int| f(element(ev, a.0, a.1, i, zero), element(ev, b.0, b.1, i, zero)))
}

/// Where the order of two elements does not matter, as in their sum and in their product, neither
/// does the order of two tensors of the same dimensions: as many elements are handed back, and
/// the same.
pub proof fn lemma_paired_commutes<E, F>(
    ev: Expressions,
    f: spec_fn(E, E) -> F,
    zero: E,
    a: (&ShapeTracker, Seq<E>),
    b: (&ShapeTracker, Seq<E>),
)
    requires
        forall|x: E, y: E| #[trigger] f(x, y) == f(y, x),
        a.0.dims@ == b.0.dims@,
    ensures
        paired(ev, f, zero, a, b, low_word(product(a.0.dims@)) as nat) == paired(
            ev,
            f,
            zero,
            b,
            a,
            low_word(product(b.0.dims@)) as nat,
        ),
{
    let n = low_word(product(a.0.dims@)) as nat;
    assert(paired(ev, f, zero, a, b, n) =~= paired(ev, f, zero, b, a, n));
}

/// A tensor paired with itself: every element meets itself, as in the sum, which doubles it.
/// Where the tensor is in place, that is an operator on every element of its buffer.
pub proof fn lemma_paired_with_itself<E>(
    ev: Expressions,
    f: spec_fn(E, E) -> E,
    zero: E,
    a: (&ShapeTracker, Seq<E>),
    n: nat,
)
    ensures
        forall|i: int|
            0 <= i < n ==> #[trigger] paired(ev, f, zero, a, a, n)[i] == f(
                element(ev, a.0, a.1, i, zero),
                element(ev, a.0, a.1, i, zero),
            ),
        literal(ev) && in_place(a.0) ==> paired(ev, f, zero, a, a, n) == mapped(
            |x: E| f(x, x),
            a.1,
            n,
        ),
{
    if literal(ev) && in_place(a.0) {
        assert(paired(ev, f, zero, a, a, n) =~= mapped(|x: E| f(x, x), a.1, n));
    }
}

/// The comparison of two elements under an order: 1 where the first is less, else 0.
pub open spec fn less<E>(le: spec_fn(E, E) -> bool) -> spec_fn(E, E) -> int {
    |x: E, y: E|
        if le(x, y) && x != y {
            1
        } else {
            0
        }
}

/// Comparing two tensors both ways gives 1 in all where their elements differ, and 0 where they
/// are equal.
pub proof fn lemma_compared_both_ways<E>(
    ev: Expressions,
    le: spec_fn(E, E) -> bool,
    zero: E,
    a: (&ShapeTracker, Seq<E>),
    b: (&ShapeTracker, Seq<E>),
    i: int,
)
    requires
        total_ordering(le),
        a.0.dims@ == b.0.dims@,
        0 <= i < low_word(product(a.0.dims@)),
    ensures
        paired(ev, less(le), zero, a, b, low_word(product(a.0.dims@)) as nat)[i] + paired(
            ev,
            less(le),
            zero,
            b,
            a,
            low_word(product(b.0.dims@)) as nat,
        )[i] == if element(ev, a.0, a.1, i, zero) == element(ev, b.0, b.1, i, zero) {
            0int
        } else {
            1int
        },
{
    let x = element(ev, a.0, a.1, i, zero);
    let y = element(ev, b.0, b.1, i, zero);
    assert(le(x, y) || le(y, x));
    assert(le(x, y) && le(y, x) ==> x == y);
}

/// Comparing a tensor with itself gives 0 throughout.
pub proof fn lemma_compared_with_itself<E>(
    ev: Expressions,
    le: spec_fn(E, E) -> bool,
    zero: E,
    a: (&ShapeTracker, Seq<E>),
    n: nat,
)
    ensures
        paired(ev, less(le), zero, a, a, n) == Seq::new(n, |i: int| 0int),
{
    assert(paired(ev, less(le), zero, a, a, n) =~= Seq::new(n, |i: int| 0int));
}

/// The highest of `start` and those of the first `n` elements that `g` gives.
pub open spec fn highest<E>(
    le: spec_fn(E, E) -> bool,
    start: E,
    n: nat,
    g: spec_fn(int) -> Option<E>,
) -> E
    decreases n,
{
    if n == 0 {
        start
    } else {
        let before = highest(le, start, (n - 1) as nat, g);
        match g(n - 1) {
            Some(x) => if le(before, x) {
                x
            } else {
                before
            },
            None => before,
        }
    }
}

/// What the maximum along dimension `dim` of a view with dimensions `dims` of the buffer `x` reads
/// for its result `i`, nothing at padding.
pub open spec fn slice<E>(
    ev: Expressions,
    shape: &ShapeTracker,
    x: Seq<E>,
    dims: Seq<Dim>,
    dim: int,
    i: int,
) -> spec_fn(int) -> Option<E> {
    let along = size(dims[dim]) as int;
    let back = product(dims.skip(dim + 1)) as int;
    |c: int|
        {
            let e = reduced_index(i, c, along, back);
            if is_valid(ev, shape, e) {
                Some(x[ev(shape.index@, e)])
            } else {
                None
            }
        }
}

/// What `f` gathers, from `start` on, of those of the first `n` elements that `g` gives.
pub open spec fn gathered<E>(
    f: spec_fn(E, E) -> E,
    start: E,
    n: nat,
    g: spec_fn(int) -> Option<E>,
) -> E
    decreases n,
{
    if n == 0 {
        start
    } else {
        let before = gathered(f, start, (n - 1) as nat, g);
        match g(n - 1) {
            Some(x) => f(before, x),
            None => before,
        }
    }
}

/// What is handed back where `f` gathers along a dimension, from `start` on.
pub open spec fn reduced<E>(
    ev: Expressions,
    f: spec_fn(E, E) -> E,
    start: E,
    shape: &ShapeTracker,
    x: Seq<E>,
    dims: Seq<Dim>,
    dim: int,
) -> Seq<E> {
    Seq::new(
        product(dims.remove(dim)),
        |i: int| gathered(f, start, size(dims[dim]), slice(ev, shape, x, dims, dim, i)),
    )
}

/// What the maximum along a dimension hands back, where it starts from `start`, of a view that 32
/// bits can index.
pub open spec fn maximized<E>(
    ev: Expressions,
    le: spec_fn(E, E) -> bool,
    start: E,
    shape: &ShapeTracker,
    x: Seq<E>,
    dims: Seq<Dim>,
    dim: int,
) -> Seq<E> {
    Seq::new(
        product(dims.remove(dim)),
        |i: int| highest(le, start, size(dims[dim]), slice(ev, shape, x, dims, dim, i)),
    )
}

/// Gathering by the higher of two elements finds the highest.
proof fn lemma_gathered_highest<E>(
    le: spec_fn(E, E) -> bool,
    f: spec_fn(E, E) -> E,
    start: E,
    n: nat,
    g: spec_fn(int) -> Option<E>,
)
    requires
        forall|a: E, b: E| #[trigger]
            f(a, b) == if le(a, b) {
                b
            } else {
                a
            },
    ensures
        gathered(f, start, n, g) == highest(le, start, n, g),
    decreases n,
{
    if n > 0 {
        lemma_gathered_highest(le, f, start, (n - 1) as nat, g);
    }
}

/// What the higher of two elements gathers along a dimension is the maximum along it.
pub proof fn lemma_reduced_maximum<E>(
    ev: Expressions,
    le: spec_fn(E, E) -> bool,
    f: spec_fn(E, E) -> E,
    start: E,
    shape: &ShapeTracker,
    x: Seq<E>,
    dims: Seq<Dim>,
    dim: int,
)
    requires
        forall|a: E, b: E| #[trigger]
            f(a, b) == if le(a, b) {
                b
            } else {
                a
            },
    ensures
        reduced(ev, f, start, shape, x, dims, dim) == maximized(
            ev,
            le,
            start,
            shape,
            x,
            dims,
            dim,
        ),
{
    let y = reduced(ev, f, start, shape, x, dims, dim);
    assert forall|i: int| 0 <= i < y.len() implies y[i] == maximized(
        ev,
        le,
        start,
        shape,
        x,
        dims,
        dim,
    )[i] by {
        lemma_gathered_highest(
            le,
            f,
            start,
            size(dims[dim]),
            slice(ev, shape, x, dims, dim, i),
        );
    }
    assert(y =~= maximized(ev, le, start, shape, x, dims, dim));
}

/// What addition gathers of elements that are all there is their sum.
proof fn lemma_gathered_sum(n: nat, g: spec_fn(int) -> Option<int>, h: spec_fn(int) -> int)
    requires
        forall|c: int| 0 <= c < n ==> #[trigger] g(c) == Some(h(c)),
    ensures
        gathered(|a: int, b: int| a + b, 0, n, g) == sum(n, h),
    decreases n,
{
    if n > 0 {
        lemma_gathered_sum((n - 1) as nat, g, h);
        assert(g(n - 1) == Some(h(n - 1)));
    }
}

/// What addition gathers along a dimension of elements in place is their sum along it.
pub proof fn lemma_reduced_sum(
    ev: Expressions,
    shape: &ShapeTracker,
    x: Seq<int>,
    dims: Seq<Dim>,
    dim: int,
)
    requires
        literal(ev),
        in_place(shape),
    ensures
        reduced(ev, |a: int, b: int| a + b, 0, shape, x, dims, dim) == summed(x, dims, dim),
{
    let y = reduced(ev, |a: int, b: int| a + b, 0, shape, x, dims, dim);
    let along = size(dims[dim]);
    let back = product(dims.skip(dim + 1)) as int;
    assert forall|i: int| 0 <= i < y.len() implies y[i] == summed(x, dims, dim)[i] by {
        let h = |c: int| x[reduced_index(i, c, along as int, back)];
        let g = slice(ev, shape, x, dims, dim, i);
        assert forall|c: int| 0 <= c < along implies #[trigger] g(c) == Some(h(c)) by {
            let e = reduced_index(i, c, along as int, back);
            assert(ev("1"@, e) == 1 && ev("idx"@, e) == e);
        }
        lemma_gathered_sum(along, g, h);
    }
    assert(y =~= summed(x, dims, dim));
}

/// The highest is no lower than the start and than any of the elements, and is one of these.
proof fn lemma_highest<E>(
    le: spec_fn(E, E) -> bool,
    start: E,
    n: nat,
    g: spec_fn(int) -> Option<E>,
)
    requires
        total_ordering(le),
    ensures
        le(start, highest(le, start, n, g)),
        forall|c: int|
            0 <= c < n && (#[trigger] g(c)) is Some ==> le(g(c)->0, highest(le, start, n, g)),
        highest(le, start, n, g) == start || exists|c: int|
            0 <= c < n && #[trigger] g(c) == Some(highest(le, start, n, g)),
    decreases n,
{
    let top = highest(le, start, n, g);
    if n == 0 {
        assert(le(start, start));
    } else {
        let before = highest(le, start, (n - 1) as nat, g);
        lemma_highest(le, start, (n - 1) as nat, g);
        assert(le(before, before));
        if let Some(x) = g(n - 1) {
            assert(le(before, x) || le(x, before));
            assert(le(x, x));
        }
        assert(le(before, top));
        assert(le(start, before) && le(before, top) ==> le(start, top));
        assert forall|c: int| 0 <= c < n && (#[trigger] g(c)) is Some implies le(g(c)->0, top) by {
            if c < n - 1 {
                assert(le(g(c)->0, before));
                assert(le(g(c)->0, before) && le(before, top) ==> le(g(c)->0, top));
            }
        }
        if top != start {
            if top == before {
                let c = choose|c: int| 0 <= c < n - 1 && #[trigger] g(c) == Some(before);
                assert(g(c) == Some(top));
            } else {
                assert(g(n - 1) == Some(top));
            }
        }
    }
}

/// The maximum along a dimension is at least every element of its slice, and is one of them where
/// one is no less than the start; else it is the start.
pub proof fn lemma_maximum<E>(
    ev: Expressions,
    le: spec_fn(E, E) -> bool,
    start: E,
    shape: &ShapeTracker,
    x: Seq<E>,
    dims: Seq<Dim>,
    dim: int,
    i: int,
)
    requires
        total_ordering(le),
        0 <= dim < dims.len(),
        0 <= i < product(dims.remove(dim)),
    ensures
        ({
            let top = maximized(ev, le, start, shape, x, dims, dim)[i];
            let g = slice(ev, shape, x, dims, dim, i);
            &&& forall|c: int|
                0 <= c < size(dims[dim]) && (#[trigger] g(c)) is Some ==> le(g(c)->0, top)
            &&& if exists|c: int|
                0 <= c < size(dims[dim]) && (#[trigger] g(c)) is Some && le(start, g(c)->0) {
                exists|c: int| 0 <= c < size(dims[dim]) && #[trigger] g(c) == Some(top)
            } else {
                top == start
            }
        }),
{
    let n = size(dims[dim]);
    let g = slice(ev, shape, x, dims, dim, i);
    let top = highest(le, start, n, g);
    lemma_highest(le, start, n, g);
    assert(maximized(ev, le, start, shape, x, dims, dim)[i] == top);
    if exists|c: int| 0 <= c < n && (#[trigger] g(c)) is Some && le(start, g(c)->0) {
        let c = choose|c: int| 0 <= c < n && (#[trigger] g(c)) is Some && le(start, g(c)->0);
        if top == start {
            assert(le(g(c)->0, start) && le(start, g(c)->0));
            assert(g(c) == Some(top));
        }
    } else if top != start {
        let c = choose|c: int| 0 <= c < n && #[trigger] g(c) == Some(top);
        assert(le(start, g(c)->0));
    }
}

/// Taking the maximum over a dimension along which a view repeats the buffer gives the buffer
/// back, whatever the size of the dimension.
pub proof fn lemma_maximum_of_repeated<E>(
    ev: Expressions,
    le: spec_fn(E, E) -> bool,
    start: E,
    shape: &ShapeTracker,
    x: Seq<E>,
    dims: Seq<Dim>,
    dim: int,
)
    requires
        total_ordering(le),
        0 <= dim < dims.len(),
        size(dims[dim]) >= 1,
        x.len() == product(dims.remove(dim)),
        forall|i: int| 0 <= i < x.len() ==> le(start, #[trigger] x[i]),
        forall|i: int, c: int|
            0 <= i < x.len() && 0 <= c < size(dims[dim]) ==> (#[trigger] slice(
                ev,
                shape,
                x,
                dims,
                dim,
                i,
            )(c)) == Some(x[i]),
    ensures
        maximized(ev, le, start, shape, x, dims, dim) == x,
{
    let y = maximized(ev, le, start, shape, x, dims, dim);
    assert forall|i: int| 0 <= i < x.len() implies y[i] == x[i] by {
        let g = slice(ev, shape, x, dims, dim, i);
        lemma_maximum(ev, le, start, shape, x, dims, dim, i);
        assert(g(0) == Some(x[i]) && le(start, x[i]));
        let c = choose|c: int| 0 <= c < size(dims[dim]) && #[trigger] g(c) == Some(y[i]);
        assert(g(c) == Some(x[i]));
    }
    assert(y =~= x);
}

/// The element of a contiguous buffer that a view repeats as its element `e`, where the dimension
/// along which it does has `along` elements and there are `back` behind it.
pub open spec fn repeated_index(e: int, along: int, back: int) -> int {
    (e / back / along) * back + e % back
}

/// Expanding a contiguous buffer by a dimension and taking the maximum along it gives the buffer
/// back.
pub proof fn lemma_maximum_undoes_expansion<E>(
    ev: Expressions,
    le: spec_fn(E, E) -> bool,
    start: E,
    shape: &ShapeTracker,
    x: Seq<E>,
    dims: Seq<Dim>,
    dim: int,
)
    requires
        total_ordering(le),
        0 <= dim < dims.len(),
        size(dims[dim]) >= 1,
        x.len() == product(dims.remove(dim)),
        forall|i: int| 0 <= i < x.len() ==> le(start, #[trigger] x[i]),
        forall|e: int|
            0 <= e < product(dims) ==> #[trigger] ev(shape.index@, e) == repeated_index(
                e,
                size(dims[dim]) as int,
                product(dims.skip(dim + 1)) as int,
            ),
        forall|e: int| 0 <= e < product(dims) ==> #[trigger] is_valid(ev, shape, e),
    ensures
        maximized(ev, le, start, shape, x, dims, dim) == x,
{
    let along = size(dims[dim]) as int;
    let back = product(dims.skip(dim + 1)) as int;
    lemma_reduce_sizes(dims, dim);
    assert forall|i: int, c: int| 0 <= i < x.len() && 0 <= c < size(dims[dim]) implies (
    #[trigger] slice(ev, shape, x, dims, dim, i)(c)) == Some(x[i]) by {
        let e = reduced_index(i, c, along, back);
        assert(back > 0) by (nonlinear_arith)
            requires
                0 <= i < product(dims.take(dim)) * back,
                back >= 0,
        ;
        lemma_reduced_index_within(dims, dim, i, c);
        lemma_reduced_index_parts(i, c, along, back);
        lemma_fundamental_div_mod(i, back);
        assert((i / back) * back == back * (i / back)) by (nonlinear_arith);
        assert(is_valid(ev, shape, e));
        assert(ev(shape.index@, e) == i);
    }
    lemma_maximum_of_repeated(ev, le, start, shape, x, dims, dim);
}

} // verus!
