//! What the compiler reads of a tensor's view.
use std::rc::Rc;
use vstd::arithmetic::mul::lemma_mul_is_associative;
use vstd::prelude::*;

verus! {

/// One dimension: a size, or the letter that stands for a size known only when the graph runs.
#[derive(Clone, Copy, Debug, PartialEq, Eq, Structural)]
pub enum Dim {
    Known(usize),
    Unknown(char),
}

/// The size of a dimension, 0 where it is not known.
pub open spec fn size(d: Dim) -> nat {
    match d {
        Dim::Known(n) => n as nat,
        Dim::Unknown(_) => 0,
    }
}

/// Every dimension has a size.
pub open spec fn resolved(dims: Seq<Dim>) -> bool {
    forall|i: int| 0 <= i < dims.len() ==> (#[trigger] dims[i]) is Known
}

/// The product of all sizes, 1 for no dimension.
pub open spec fn product(dims: Seq<Dim>) -> nat
    decreases dims.len(),
{
    if dims.len() == 0 {
        1
    } else {
        product(dims.drop_last()) * size(dims.last())
    }
}

/// Multiplying the sizes up from the front never leaves `usize`.
pub open spec fn product_fits(dims: Seq<Dim>) -> bool {
    forall|k: int| 0 <= k <= dims.len() ==> product(#[trigger] dims.take(k)) <= usize::MAX
}

/// The view of a tensor: its dimensions, the number of elements that its buffer holds, and the
/// two expressions by which a kernel finds the element that a thread reads and learns whether
/// there is one.
#[derive(Debug)]
pub struct ShapeTracker {
    pub dims: Vec<Dim>,
    pub physical: usize,
    pub index: String,
    pub valid: String,
}

impl Dim {
    /// The size, if it is known.
    pub fn to_usize(&self) -> (res: Option<usize>)
        ensures
            res == (match *self {
                Dim::Known(n) => Some(n),
                Dim::Unknown(_) => None,
            }),
    {
        match *self {
            Dim::Known(n) => Some(n),
            Dim::Unknown(_) => None,
        }
    }
}

impl ShapeTracker {
    /// The view of a single element: no dimensions, one element, thread `idx` reads element
    /// `idx`, and every read is valid.
    pub open spec fn is_scalar(&self) -> bool {
        &&& self.dims@ == Seq::<Dim>::empty()
        &&& self.physical == 1
        &&& self.index@ == "idx"@
        &&& self.valid@ == "1"@
    }

    /// A view from its parts.
    pub fn new(dims: Vec<Dim>, physical: usize, index: String, valid: String) -> (res: Self)
        ensures
            res.dims == dims,
            res.physical == physical,
            res.index == index,
            res.valid == valid,
    {
        ShapeTracker { dims, physical, index, valid }
    }

    /// The view of a single element.
    pub fn scalar() -> (res: Self)
        ensures
            res.is_scalar(),
    {
        ShapeTracker {
            dims: Vec::new(),
            physical: 1,
            index: "idx".to_string(),
            valid: "1".to_string(),
        }
    }

    /// The number of elements in the view.
    pub fn n_elements(&self) -> (n: usize)
        requires
            resolved(self.dims@),
            product_fits(self.dims@),
        ensures
            n == product(self.dims@),
    {
        proof {
            assert(self.dims@.subrange(0, self.dims.len() as int) =~= self.dims@);
        }
        product_of(&self.dims, 0, self.dims.len())
    }

    /// The number of elements in the buffer behind the view.
    pub fn n_physical_elements(&self) -> (n: usize)
        ensures
            n == self.physical,
    {
        self.physical
    }
}

/// The product of the sizes from `from` up to `to`.
pub fn product_of(dims: &Vec<Dim>, from: usize, to: usize) -> (n: usize)
    requires
        from <= to <= dims.len(),
        resolved(dims@.subrange(from as int, to as int)),
        product_fits(dims@.subrange(from as int, to as int)),
    ensures
        n == product(dims@.subrange(from as int, to as int)),
{
    let mut n: usize = 1;
    let mut i: usize = from;
    let ghost part = dims@.subrange(from as int, to as int);
    proof {
        assert(part.take(0) =~= Seq::<Dim>::empty());
    }
    while i < to
        invariant
            from <= i <= to <= dims.len(),
            part == dims@.subrange(from as int, to as int),
            resolved(part),
            product_fits(part),
            n == product(part.take(i - from)),
        decreases to - i,
    {
        proof {
            let k = i - from;
            assert(part.take(k + 1).drop_last() =~= part.take(k));
            assert(part.take(k + 1).last() == part[k]);
            assert(part[k] is Known);
            assert(product(part.take(k + 1)) <= usize::MAX);
        }
        match dims[i] {
            Dim::Known(d) => {
                n = n * d;
            },
            Dim::Unknown(_) => {},
        }
        i = i + 1;
    }
    proof {
        assert(part.take(to - from) =~= part);
    }
    n
}

/// The product of the sizes from `from` up to `to`, if all are known and multiplying them up
/// never leaves `usize`.
pub fn checked_product_of(dims: &Vec<Dim>, from: usize, to: usize) -> (res: Option<usize>)
    requires
        from <= to <= dims.len(),
    ensures
        match res {
            Some(n) => {
                &&& resolved(dims@.subrange(from as int, to as int))
                &&& product_fits(dims@.subrange(from as int, to as int))
                &&& n == product(dims@.subrange(from as int, to as int))
            },
            None => !resolved(dims@.subrange(from as int, to as int)) || !product_fits(
                dims@.subrange(from as int, to as int),
            ),
        },
{
    let mut n: usize = 1;
    let mut i: usize = from;
    let ghost part = dims@.subrange(from as int, to as int);
    proof {
        assert(part.take(0) =~= Seq::<Dim>::empty());
    }
    while i < to
        invariant
            from <= i <= to <= dims.len(),
            part == dims@.subrange(from as int, to as int),
            forall|k: int| 0 <= k < i - from ==> (#[trigger] part[k]) is Known,
            forall|k: int| 0 <= k <= i - from ==> product(#[trigger] part.take(k)) <= usize::MAX,
            n == product(part.take(i - from)),
        decreases to - i,
    {
        proof {
            let k = i - from;
            assert(part.take(k + 1).drop_last() =~= part.take(k));
            assert(part.take(k + 1).last() == part[k]);
            assert(part[k] == dims@[i as int]);
        }
        match dims[i] {
            Dim::Known(d) => match n.checked_mul(d) {
                Some(m) => {
                    n = m;
                },
                None => {
                    assert(product(part.take(i - from + 1)) > usize::MAX);
                    return None;
                },
            },
            Dim::Unknown(_) => {
                return None;
            },
        }
        i = i + 1;
    }
    proof {
        assert(part.take(to - from) =~= part);
    }
    Some(n)
}

/// The dimensions but for one.
pub fn without_dim(dims: &Vec<Dim>, axis: usize) -> (res: Vec<Dim>)
    requires
        axis < dims.len(),
    ensures
        res@ == dims@.remove(axis as int),
{
    let mut res: Vec<Dim> = Vec::new();
    let mut i: usize = 0;
    while i < dims.len()
        invariant
            i <= dims.len(),
            axis < dims.len(),
            res@ == if i <= axis {
                dims@.take(i as int)
            } else {
                dims@.take(i as int).remove(axis as int)
            },
        decreases dims.len() - i,
    {
        if i != axis {
            res.push(dims[i]);
        }
        assert(dims@.take(i + 1) =~= dims@.take(i as int).push(dims@[i as int]));
        if i == axis {
            assert(dims@.take(i + 1).remove(axis as int) =~= dims@.take(i as int));
        } else if i > axis {
            assert(dims@.take(i + 1).remove(axis as int) =~= dims@.take(i as int).remove(
                axis as int,
            ).push(dims@[i as int]));
        }
        i = i + 1;
    }
    assert(dims@.take(dims@.len() as int) =~= dims@);
    res
}

/// Another reference to the same view, by `Rc::clone`: what it points to is what `shape` points
/// to.
#[verifier::external_body]
pub(crate) fn share(shape: &Rc<ShapeTracker>) -> (res: Rc<ShapeTracker>)
    ensures
        res == *shape,
{
    shape.clone()
}

/// The product of two stretches of dimensions side by side is the product of their products.
pub proof fn lemma_product_add(a: Seq<Dim>, b: Seq<Dim>)
    ensures
        product(a + b) == product(a) * product(b),
    decreases b.len(),
{
    if b.len() == 0 {
        assert(a + b =~= a);
        assert(product(a) * product(b) == product(a)) by (nonlinear_arith)
            requires
                product(b) == 1,
        ;
    } else {
        assert((a + b).drop_last() =~= a + b.drop_last());
        assert((a + b).last() == b.last());
        lemma_product_add(a, b.drop_last());
        lemma_mul_is_associative(
            product(a) as int,
            product(b.drop_last()) as int,
            size(b.last()) as int,
        );
    }
}

/// The product of one known dimension is its size, and that of none is 1.
pub proof fn lemma_product_one(n: usize)
    ensures
        product(seq![Dim::Known(n)]) == n,
        product(Seq::<Dim>::empty()) == 1,
{
    let s = seq![Dim::Known(n)];
    assert(s.drop_last() =~= Seq::<Dim>::empty());
    assert(product(s.drop_last()) == 1);
    assert(product(s) == product(s.drop_last()) * size(s.last()));
    assert(1 * size(s.last()) == size(s.last())) by (nonlinear_arith);
}

} // verus!
