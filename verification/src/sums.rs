//! Sums along dimensions of elements that add up exactly.
use crate::reduce::{lemma_reduce_sizes, lemma_reduced_index_within, reduced_index};
use crate::shape::{lemma_product_add, product, size, Dim};
use vstd::arithmetic::div_mod::{lemma_fundamental_div_mod, lemma_fundamental_div_mod_converse};
use vstd::prelude::*;

verus! {

/// The sum of `g` over the first `n` numbers.
pub open spec fn sum(n: nat, g: spec_fn(int) -> int) -> int
    decreases n,
{
    if n == 0 {
        0
    } else {
        sum((n - 1) as nat, g) + g(n - 1)
    }
}

/// What a sum along dimension `dim` of contiguous elements `x` hands back.
pub open spec fn summed(x: Seq<int>, dims: Seq<Dim>, dim: int) -> Seq<int> {
    let along = size(dims[dim]);
    let back = product(dims.skip(dim + 1)) as int;
    Seq::new(
        product(dims.remove(dim)),
        |i: int| sum(along, |c: int| x[reduced_index(i, c, along as int, back)]),
    )
}

proof fn lemma_sum_same(n: nat, g: spec_fn(int) -> int, h: spec_fn(int) -> int)
    requires
        forall|i: int| 0 <= i < n ==> #[trigger] g(i) == h(i),
    ensures
        sum(n, g) == sum(n, h),
    decreases n,
{
    if n > 0 {
        lemma_sum_same((n - 1) as nat, g, h);
        assert(g(n - 1) == h(n - 1));
    }
}

proof fn lemma_sum_plus(
    n: nat,
    f: spec_fn(int) -> int,
    g: spec_fn(int) -> int,
    h: spec_fn(int) -> int,
)
    requires
        forall|i: int| 0 <= i < n ==> #[trigger] h(i) == f(i) + g(i),
    ensures
        sum(n, h) == sum(n, f) + sum(n, g),
    decreases n,
{
    if n > 0 {
        lemma_sum_plus((n - 1) as nat, f, g, h);
        assert(h(n - 1) == f(n - 1) + g(n - 1));
    }
}

proof fn lemma_sum_zero(n: nat, g: spec_fn(int) -> int)
    requires
        forall|i: int| 0 <= i < n ==> #[trigger] g(i) == 0,
    ensures
        sum(n, g) == 0,
    decreases n,
{
    if n > 0 {
        lemma_sum_zero((n - 1) as nat, g);
        assert(g(n - 1) == 0);
    }
}

/// The rows of a table add up to what its columns do.
proof fn lemma_sum_swap(n: nat, k: nat, g: spec_fn(int, int) -> int)
    ensures
        sum(n, |i: int| sum(k, |j: int| g(i, j))) == sum(k, |j: int| sum(n, |i: int| g(i, j))),
    decreases n,
{
    let rows = |i: int| sum(k, |j: int| g(i, j));
    let columns = |j: int| sum(n, |i: int| g(i, j));
    if n == 0 {
        lemma_sum_zero(k, columns);
    } else {
        let m = (n - 1) as nat;
        let shorter = |j: int| sum(m, |i: int| g(i, j));
        let last = |j: int| g(m as int, j);
        lemma_sum_swap(m, k, g);
        assert forall|j: int| 0 <= j < k implies #[trigger] columns(j) == shorter(j) + last(j) by {
            let f = |i: int| g(i, j);
            assert(sum(n, f) == sum(m, f) + f(n - 1));
        }
        lemma_sum_plus(k, shorter, last, columns);
        lemma_sum_same(k, last, |j: int| g(m as int, j));
        assert(rows(n - 1) == sum(k, |j: int| g(n - 1, j)));
    }
}

/// The first `n * k` numbers are `n` rows of `k`.
proof fn lemma_sum_rows(n: nat, k: nat, g: spec_fn(int) -> int)
    ensures
        sum(n * k, g) == sum(n, |q: int| sum(k, |r: int| g(q * k + r))),
    decreases n,
{
    let rows = |q: int| sum(k, |r: int| g(q * k + r));
    if n == 0 {
        assert(n * k == 0) by (nonlinear_arith)
            requires
                n == 0,
        ;
    } else {
        let m = (n - 1) as nat;
        lemma_sum_rows(m, k, g);
        assert(n * k == m * k + k) by (nonlinear_arith)
            requires
                n == m + 1,
        ;
        lemma_sum_more(m * k, k, g);
        lemma_sum_same(k, |r: int| g(m * k + r), |r: int| g((n - 1) * k + r));
        assert(rows(n - 1) == sum(k, |r: int| g((n - 1) * k + r)));
    }
}

/// The first `n + k` numbers are the first `n` and `k` more.
proof fn lemma_sum_more(n: nat, k: nat, g: spec_fn(int) -> int)
    ensures
        sum(n + k, g) == sum(n, g) + sum(k, |r: int| g(n + r)),
    decreases k,
{
    let more = |r: int| g(n + r);
    if k > 0 {
        lemma_sum_more(n, (k - 1) as nat, g);
        assert(more(k - 1) == g(n + (k - 1)));
    }
}

/// Two reductions read the same elements in either order.
pub proof fn lemma_reduced_twice(
    o: int,
    c: int,
    d: int,
    first: int,
    between: int,
    second: int,
    back: int,
)
    requires
        0 <= o,
        0 <= c < first,
        0 <= d < second,
        0 < between,
        0 < back,
    ensures
        reduced_index(reduced_index(o, c, first, between * back), d, second, back)
            == reduced_index(
            reduced_index(o, d, second, back),
            c,
            first,
            between * second * back,
        ),
{
    let w = between * back;
    assert(w > 0) by (nonlinear_arith)
        requires
            w == between * back,
            between > 0,
            back > 0,
    ;
    let a = o / w;
    let r = o % w;
    let m = r / back;
    let t = r % back;
    lemma_fundamental_div_mod(o, w);
    lemma_fundamental_div_mod(r, back);
    assert(0 <= r < w && 0 <= t < back && 0 <= a) by (nonlinear_arith)
        requires
            w > 0,
            back > 0,
            o >= 0,
            r == o % w,
            t == r % back,
            a == o / w,
    ;
    assert(0 <= m < between) by (nonlinear_arith)
        requires
            r == back * m + t,
            0 <= r < between * back,
            0 <= t < back,
            back > 0,
    ;
    let inner = reduced_index(o, c, first, w);
    let q = a * first * between + c * between + m;
    assert(inner == q * back + t) by (nonlinear_arith)
        requires
            inner == a * first * w + c * w + r,
            w == between * back,
            r == back * m + t,
            q == a * first * between + c * between + m,
    ;
    lemma_fundamental_div_mod_converse(inner, back, q, t);
    let p = a * between + m;
    assert(o == p * back + t) by (nonlinear_arith)
        requires
            o == w * a + r,
            w == between * back,
            r == back * m + t,
            p == a * between + m,
    ;
    lemma_fundamental_div_mod_converse(o, back, p, t);
    let other = reduced_index(o, d, second, back);
    let wide = between * second * back;
    let rest = m * second * back + d * back + t;
    assert(other == a * wide + rest) by (nonlinear_arith)
        requires
            other == p * second * back + d * back + t,
            p == a * between + m,
            wide == between * second * back,
            rest == m * second * back + d * back + t,
    ;
    assert(0 <= rest < wide) by (nonlinear_arith)
        requires
            rest == m * second * back + d * back + t,
            wide == between * second * back,
            0 <= m < between,
            0 <= d < second,
            0 <= t < back,
    ;
    lemma_fundamental_div_mod_converse(other, wide, a, rest);
    let u = second * back;
    let af = a * first;
    assert(wide == between * u) by (nonlinear_arith)
        requires
            wide == between * second * back,
            u == second * back,
    ;
    assert(q * u == af * wide + c * wide + m * u) by (nonlinear_arith)
        requires
            q == af * between + c * between + m,
            wide == between * u,
    ;
    assert(q * second * back == q * u && m * second * back == m * u) by (nonlinear_arith)
        requires
            u == second * back,
    ;
}

/// The order in which two dimensions are summed up does not matter.
pub proof fn lemma_sums_in_any_order(x: Seq<int>, dims: Seq<Dim>, i: int, j: int)
    requires
        0 <= i < j < dims.len(),
    ensures
        summed(summed(x, dims, j), dims.remove(j), i) == summed(
            summed(x, dims, i),
            dims.remove(i),
            j - 1,
        ),
{
    let a = dims.remove(j);
    let b = dims.remove(i);
    let first = size(dims[i]);
    let second = size(dims[j]);
    let between = product(dims.subrange(i + 1, j));
    let back = product(dims.skip(j + 1));
    let one = summed(x, dims, j);
    let two = summed(x, dims, i);
    let left = summed(one, a, i);
    let right = summed(two, b, j - 1);
    assert(a.remove(i) =~= b.remove(j - 1));
    assert(a.skip(i + 1) =~= dims.subrange(i + 1, j) + dims.skip(j + 1));
    lemma_product_add(dims.subrange(i + 1, j), dims.skip(j + 1));
    assert(b.skip(j) =~= dims.skip(j + 1));
    assert(dims.skip(i + 1) =~= dims.subrange(i + 1, j).push(dims[j]) + dims.skip(j + 1));
    lemma_product_add(dims.subrange(i + 1, j).push(dims[j]), dims.skip(j + 1));
    assert(dims.subrange(i + 1, j).push(dims[j]).drop_last() =~= dims.subrange(i + 1, j));
    assert(product(a.skip(i + 1)) == between * back);
    assert(product(dims.skip(i + 1)) == between * second * back);
    lemma_reduce_sizes(a, i);
    assert forall|o: int| 0 <= o < left.len() implies left[o] == right[o] by {
        assert(between > 0 && back > 0) by (nonlinear_arith)
            requires
                0 <= o < product(a.take(i)) * (between * back),
                between >= 0,
                back >= 0,
        ;
        let g = |c: int, d: int|
            x[reduced_index(
                reduced_index(o, c, first as int, (between * back) as int),
                d,
                second as int,
                back as int,
            )];
        let rows = |c: int| one[reduced_index(o, c, first as int, (between * back) as int)];
        let columns = |d: int| two[reduced_index(o, d, second as int, back as int)];
        assert forall|c: int| 0 <= c < first implies #[trigger] rows(c) == sum(
            second,
            |d: int| g(c, d),
        ) by {
            lemma_reduced_index_within(a, i, o, c);
            let e = reduced_index(o, c, first as int, (between * back) as int);
            lemma_sum_same(
                second,
                |d: int| x[reduced_index(e, d, second as int, back as int)],
                |d: int| g(c, d),
            );
        }
        assert forall|d: int| 0 <= d < second implies #[trigger] columns(d) == sum(
            first,
            |c: int| g(c, d),
        ) by {
            lemma_reduced_index_within(b, j - 1, o, d);
            let e = reduced_index(o, d, second as int, back as int);
            let h = |c: int|
                x[reduced_index(e, c, first as int, (between * second * back) as int)];
            assert forall|c: int| 0 <= c < first implies #[trigger] h(c) == g(c, d) by {
                lemma_reduced_twice(
                    o,
                    c,
                    d,
                    first as int,
                    between as int,
                    second as int,
                    back as int,
                );
            }
            lemma_sum_same(first, h, |c: int| g(c, d));
        }
        lemma_sum_same(first, rows, |c: int| sum(second, |d: int| g(c, d)));
        lemma_sum_same(second, columns, |d: int| sum(first, |c: int| g(c, d)));
        lemma_sum_swap(first, second, g);
        assert(left[o] == sum(first, rows));
        assert(right[o] == sum(second, columns));
    }
    assert(left =~= right);
}

/// Summing a dimension up keeps the total of all elements.
pub proof fn lemma_total_kept(x: Seq<int>, dims: Seq<Dim>, dim: int)
    requires
        0 <= dim < dims.len(),
        x.len() == product(dims),
    ensures
        sum(product(dims.remove(dim)), |i: int| summed(x, dims, dim)[i]) == sum(
            x.len(),
            |e: int| x[e],
        ),
{
    let front = product(dims.take(dim));
    let along = size(dims[dim]);
    let back = product(dims.skip(dim + 1));
    let y = summed(x, dims, dim);
    let whole = |e: int| x[e];
    let parts = |i: int| y[i];
    lemma_reduce_sizes(dims, dim);
    // The results, one row for each element in front.
    lemma_sum_rows(front, back, parts);
    // The elements, one row for each in front and along the dimension.
    lemma_sum_rows(front * along, back, whole);
    let lines = |q: int| sum(back, |b: int| whole(q * back + b));
    lemma_sum_rows(front, along, lines);
    let left = |a: int| sum(back, |b: int| parts(a * back + b));
    let right = |a: int| sum(along, |c: int| lines(a * along + c));
    assert forall|a: int| 0 <= a < front implies #[trigger] left(a) == right(a) by {
        let g = |b: int, c: int| whole((a * along + c) * back + b);
        assert forall|b: int| 0 <= b < back implies #[trigger] parts(a * back + b) == sum(
            along,
            |c: int| g(b, c),
        ) by {
            let i = a * back + b;
            assert(0 <= i < front * back) by (nonlinear_arith)
                requires
                    i == a * back + b,
                    0 <= a < front,
                    0 <= b < back,
            ;
            lemma_fundamental_div_mod_converse(i, back as int, a, b);
            let h = |c: int| x[reduced_index(i, c, along as int, back as int)];
            assert forall|c: int| 0 <= c < along implies #[trigger] h(c) == g(b, c) by {
                assert(a * along * back + c * back + b == (a * along + c) * back + b)
                    by (nonlinear_arith);
            }
            lemma_sum_same(along, h, |c: int| g(b, c));
        }
        lemma_sum_same(
            back,
            |b: int| parts(a * back + b),
            |b: int| sum(along, |c: int| g(b, c)),
        );
        lemma_sum_swap(back, along, g);
        assert forall|c: int| 0 <= c < along implies #[trigger] lines(a * along + c) == sum(
            back,
            |b: int| g(b, c),
        ) by {
            lemma_sum_same(back, |b: int| whole((a * along + c) * back + b), |b: int| g(b, c));
        }
        lemma_sum_same(
            along,
            |c: int| lines(a * along + c),
            |c: int| sum(back, |b: int| g(b, c)),
        );
    }
    lemma_sum_same(front, left, right);
}

} // verus!
