//! Facts about sequences.
use vstd::prelude::*;

verus! {

/// Two predicates that agree on the elements of a sequence select the same subsequence.
pub proof fn lemma_filter_congruent<A>(
    s: Seq<A>,
    p: spec_fn(A) -> bool,
    q: spec_fn(A) -> bool,
)
    requires
        forall|i: int| 0 <= i < s.len() ==> p(#[trigger] s[i]) == q(s[i]),
    ensures
        s.filter(p) == s.filter(q),
    decreases s.len(),
{
    reveal(Seq::filter);
    if s.len() > 0 {
        assert forall|i: int| 0 <= i < s.drop_last().len() implies p(#[trigger] s.drop_last()[i])
            == q(s.drop_last()[i]) by {
            assert(s.drop_last()[i] == s[i]);
        }
        lemma_filter_congruent(s.drop_last(), p, q);
        assert(p(s[s.len() - 1]) == q(s[s.len() - 1]));
    }
}

/// Selecting twice is selecting by both predicates.
pub proof fn lemma_filter_filter<A>(s: Seq<A>, p: spec_fn(A) -> bool, q: spec_fn(A) -> bool)
    ensures
        s.filter(p).filter(q) == s.filter(|x: A| p(x) && q(x)),
    decreases s.len(),
{
    reveal(Seq::filter);
    if s.len() > 0 {
        lemma_filter_filter(s.drop_last(), p, q);
        let r = s.drop_last().filter(p);
        if p(s.last()) {
            assert(r.push(s.last()).drop_last() =~= r);
        }
    }
}

/// Selecting after a map is mapping what the composed predicate selects.
pub proof fn lemma_filter_map<A, B>(s: Seq<A>, f: spec_fn(A) -> B, q: spec_fn(B) -> bool)
    ensures
        s.map_values(f).filter(q) == s.filter(|x: A| q(f(x))).map_values(f),
    decreases s.len(),
{
    reveal(Seq::filter);
    if s.len() > 0 {
        lemma_filter_map(s.drop_last(), f, q);
        assert(s.map_values(f).drop_last() =~= s.drop_last().map_values(f));
        assert(s.map_values(f).last() == f(s.last()));
        let r = s.drop_last().filter(|x: A| q(f(x)));
        assert(r.push(s.last()).map_values(f) =~= r.map_values(f).push(f(s.last())));
    } else {
        assert(s.map_values(f) =~= Seq::<B>::empty());
        assert(Seq::<A>::empty().map_values(f) =~= Seq::<B>::empty());
    }
}

/// What a predicate selects and what it leaves make up the whole length.
pub proof fn lemma_filter_partition<A>(s: Seq<A>, p: spec_fn(A) -> bool)
    ensures
        s.filter(p).len() + s.filter(|x: A| !p(x)).len() == s.len(),
    decreases s.len(),
{
    reveal(Seq::filter);
    if s.len() > 0 {
        lemma_filter_partition(s.drop_last(), p);
    }
}

/// Selecting from a reversed sequence is reversing the selection.
pub proof fn lemma_filter_reverse<A>(s: Seq<A>, p: spec_fn(A) -> bool)
    ensures
        s.reverse().filter(p) == s.filter(p).reverse(),
    decreases s.len(),
{
    reveal_with_fuel(Seq::filter, 2);
    if s.len() > 0 {
        let r = s.drop_last();
        lemma_filter_reverse(r, p);
        assert(s.reverse() =~= seq![s.last()] + r.reverse());
        Seq::filter_distributes_over_add(seq![s.last()], r.reverse(), p);
        assert(seq![s.last()].drop_last() =~= Seq::<A>::empty());
        if p(s.last()) {
            assert(seq![s.last()].filter(p) =~= seq![s.last()]);
            assert(s.filter(p).reverse() =~= seq![s.last()] + r.filter(p).reverse());
        } else {
            assert(seq![s.last()].filter(p) =~= Seq::<A>::empty());
            assert(Seq::<A>::empty() + r.filter(p).reverse() =~= r.filter(p).reverse());
        }
    } else {
        assert(s.reverse() =~= s);
        assert(s.filter(p).reverse() =~= s.filter(p));
    }
}

/// One more element at the end adds itself to the selection where the predicate holds of it.
pub proof fn lemma_filter_push<A>(s: Seq<A>, x: A, p: spec_fn(A) -> bool)
    ensures
        s.push(x).filter(p) == if p(x) {
            s.filter(p).push(x)
        } else {
            s.filter(p)
        },
{
    reveal(Seq::filter);
    assert(s.push(x).drop_last() =~= s);
}

/// An element is selected if and only if it is in the sequence and the predicate holds of it.
pub proof fn lemma_filter_contains<A>(s: Seq<A>, p: spec_fn(A) -> bool, x: A)
    ensures
        s.filter(p).contains(x) <==> s.contains(x) && p(x),
    decreases s.len(),
{
    reveal(Seq::filter);
    if s.len() > 0 {
        lemma_filter_contains(s.drop_last(), p, x);
        let r = s.drop_last().filter(p);
        if s.filter(p).contains(x) {
            let i = choose|i: int| 0 <= i < s.filter(p).len() && s.filter(p)[i] == x;
            if p(s.last()) && i == r.len() {
                assert(s[s.len() - 1] == x);
            } else {
                assert(r[i] == x);
                let j = choose|j: int| 0 <= j < s.drop_last().len() && s.drop_last()[j] == x;
                assert(s[j] == x);
            }
        }
        if s.contains(x) && p(x) {
            let j = choose|j: int| 0 <= j < s.len() && s[j] == x;
            if j < s.len() - 1 {
                assert(s.drop_last()[j] == x);
                let i = choose|i: int| 0 <= i < r.len() && r[i] == x;
                assert(s.filter(p)[i] == x);
            } else {
                assert(s.filter(p)[r.len() as int] == x);
            }
        }
    }
}

/// A sequence holds its last element and what stands before it.
pub proof fn lemma_contains_last<A>(s: Seq<A>)
    requires
        s.len() > 0,
    ensures
        forall|x: A| #[trigger] s.contains(x) <==> s.drop_last().contains(x) || x == s.last(),
        forall|x: A| #[trigger] s.drop_last().contains(x) ==> s.contains(x),
{
    let r = s.drop_last();
    assert forall|x: A| s.contains(x) == (r.contains(x) || x == s.last()) by {
        if s.contains(x) {
            let k = choose|k: int| 0 <= k < s.len() && s[k] == x;
            if k < r.len() {
                assert(r[k] == x);
            }
        }
        if r.contains(x) {
            let k = choose|k: int| 0 <= k < r.len() && r[k] == x;
            assert(s[k] == x);
        }
        if x == s.last() {
            assert(s[s.len() - 1] == x);
        }
    }
}

/// Where nothing stands twice, the last element does not stand before itself.
pub proof fn lemma_last_once<A>(s: Seq<A>)
    requires
        s.len() > 0,
        s.no_duplicates(),
    ensures
        !s.drop_last().contains(s.last()),
        s.drop_last().no_duplicates(),
{
    let r = s.drop_last();
    if r.contains(s.last()) {
        let k = choose|k: int| 0 <= k < r.len() && r[k] == s.last();
        assert(s[k] == s[s.len() - 1]);
    }
}

} // verus!
