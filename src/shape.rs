use vstd::prelude::*;
use smallvec::SmallVec;

verus! {

/// Inline storage for the dimensions of a shape, kept in a `SmallVec`.
#[verifier::external_body]
pub struct DimBuf {
    v: SmallVec<[usize; 4]>,
}

/// The dimensions held by the buffer, in order.
pub uninterp spec fn small_dims(b: DimBuf) -> Seq<usize>;

/// Relies on `SmallVec::from_slice`: the new vector holds a copy of the slice.
#[verifier::external_body]
fn dims_from_slice(s: &[usize]) -> (r: DimBuf)
    ensures
        small_dims(r) == s@,
{
    DimBuf { v: SmallVec::from_slice(s) }
}

/// Relies on `SmallVec::as_slice`: the slice shows the elements of the vector.
#[verifier::external_body]
fn dims_as_slice(b: &DimBuf) -> (r: &[usize])
    ensures
        r@ == small_dims(*b),
{
    b.v.as_slice()
}

/// Relies on `IndexMut<usize>` of `SmallVec`: writes one element in place.
#[verifier::external_body]
fn dims_set(b: &mut DimBuf, i: usize, x: usize)
    requires
        i < small_dims(*old(b)).len(),
    ensures
        small_dims(*final(b)) == small_dims(*old(b)).update(i as int, x),
{
    b.v[i] = x;
}

/// Product of the dimensions.
pub open spec fn dims_product(d: Seq<usize>) -> int
    decreases d.len(),
{
    if d.len() == 0 {
        1
    } else {
        dims_product(d.drop_last()) * d.last()
    }
}

/// Error of reading a shape as a fixed-rank array.
#[derive(Debug, Clone, Copy, PartialEq, Eq)]
pub enum ShapeError {
    /// The shape's rank differs from the array's length.
    RankMismatch { expected: usize, actual: usize },
}

/// The shape of a tensor: an ordered sequence of dimension sizes.
pub struct Shape(DimBuf);

impl View for Shape {
    type V = Seq<usize>;

    closed spec fn view(&self) -> Seq<usize> {
        small_dims(self.0)
    }
}

impl PartialEq for Shape {
    fn eq(&self, other: &Shape) -> (r: bool) {
        self.same_as(other)
    }
}

impl vstd::std_specs::cmp::PartialEqSpecImpl for Shape {
    open spec fn obeys_eq_spec() -> bool {
        true
    }

    open spec fn eq_spec(&self, other: &Shape) -> bool {
        self@ == other@
    }
}

impl Eq for Shape {
}

impl Clone for Shape {
    fn clone(&self) -> (r: Self)
        ensures
            r@ == self@,
    {
        Shape(dims_from_slice(dims_as_slice(&self.0)))
    }
}

proof fn lemma_product_prefix_bound(d: Seq<usize>, i: int)
    requires
        0 <= i <= d.len(),
        dims_product(d) <= usize::MAX,
        forall|k: int| 0 <= k < d.len() ==> d[k] > 0,
    ensures
        0 < dims_product(d.subrange(0, i)) <= dims_product(d),
    decreases d.len() - i,
{
    if i == d.len() {
        assert(d.subrange(0, i) =~= d);
        lemma_product_positive(d);
    } else {
        lemma_product_prefix_bound(d, i + 1);
        let p = d.subrange(0, i + 1);
        assert(p.drop_last() =~= d.subrange(0, i));
        lemma_product_positive(d.subrange(0, i));
        let a = dims_product(d.subrange(0, i));
        let b = d[i] as int;
        assert(a <= a * b) by (nonlinear_arith)
            requires
                a > 0,
                b > 0,
        ;
    }
}

/// The product of dimensions is never negative.
pub proof fn lemma_product_nonneg(d: Seq<usize>)
    ensures
        dims_product(d) >= 0,
    decreases d.len(),
{
    if d.len() > 0 {
        lemma_product_nonneg(d.drop_last());
        let a = dims_product(d.drop_last());
        let b = d.last() as int;
        assert(a * b >= 0) by (nonlinear_arith)
            requires
                a >= 0,
                b >= 0,
        ;
    }
}

proof fn lemma_product_positive(d: Seq<usize>)
    requires
        forall|k: int| 0 <= k < d.len() ==> d[k] > 0,
    ensures
        dims_product(d) > 0,
    decreases d.len(),
{
    if d.len() > 0 {
        lemma_product_positive(d.drop_last());
        let a = dims_product(d.drop_last());
        let b = d.last() as int;
        assert(a * b > 0) by (nonlinear_arith)
            requires
                a > 0,
                b > 0,
        ;
    }
}

proof fn lemma_product_has_zero(d: Seq<usize>, z: int)
    requires
        0 <= z < d.len(),
        d[z] == 0,
    ensures
        dims_product(d) == 0,
    decreases d.len(),
{
    if z == d.len() - 1 {
        let a = dims_product(d.drop_last());
        assert(a * 0 == 0) by (nonlinear_arith);
    } else {
        lemma_product_has_zero(d.drop_last(), z);
        let b = d.last() as int;
        assert(0 * b == 0) by (nonlinear_arith);
    }
}

impl Shape {
    pub fn new(dims: &[usize]) -> (r: Self)
        ensures
            r@ == dims@,
    {
        Shape(dims_from_slice(dims))
    }

    /// Number of dimensions.
    pub fn rank(&self) -> (r: usize)
        ensures
            r == self@.len(),
    {
        dims_as_slice(&self.0).len()
    }

    /// Number of elements: the product of the dimensions.
    pub fn numel(&self) -> (r: usize)
        requires
            dims_product(self@) <= usize::MAX,
        ensures
            r == dims_product(self@),
    {
        let d = dims_as_slice(&self.0);
        let n = d.len();
        let mut z: usize = 0;
        while z < n
            invariant
                n == d@.len(),
                d@ == self@,
                z <= n,
                forall|k: int| 0 <= k < z ==> d@[k] > 0,
            decreases n - z,
        {
            if d[z] == 0 {
                proof {
                    lemma_product_has_zero(d@, z as int);
                }
                return 0;
            }
            z = z + 1;
        }
        let mut prod: usize = 1;
        let mut i: usize = 0;
        while i < n
            invariant
                n == d@.len(),
                i <= n,
                d@ == self@,
                dims_product(d@) <= usize::MAX,
                forall|k: int| 0 <= k < n ==> d@[k] > 0,
                prod == dims_product(d@.subrange(0, i as int)),
            decreases n - i,
        {
            proof {
                lemma_product_prefix_bound(d@, i + 1);
                assert(d@.subrange(0, i + 1).drop_last() =~= d@.subrange(0, i as int));
            }
            prod = prod * d[i];
            i = i + 1;
        }
        assert(d@.subrange(0, n as int) =~= d@);
        prod
    }

    /// The dimensions as a vector.
    pub fn to_vec(&self) -> (r: Vec<usize>)
        ensures
            r@ == self@,
    {
        let d = dims_as_slice(&self.0);
        let mut v: Vec<usize> = Vec::new();
        let mut i: usize = 0;
        while i < d.len()
            invariant
                i <= d@.len(),
                v@ == d@.subrange(0, i as int),
            decreases d@.len() - i,
        {
            v.push(d[i]);
            i = i + 1;
            assert(v@ =~= d@.subrange(0, i as int));
        }
        assert(d@.subrange(0, d@.len() as int) =~= d@);
        v
    }

    /// The dimension at `index`.
    pub fn dim(&self, index: usize) -> (r: usize)
        requires
            index < self@.len(),
        ensures
            r == self@[index as int],
    {
        dims_as_slice(&self.0)[index]
    }

    /// Replaces the dimension at `index`.
    pub fn set_dim(&mut self, index: usize, value: usize)
        requires
            index < old(self)@.len(),
        ensures
            final(self)@ == old(self)@.update(index as int, value),
    {
        dims_set(&mut self.0, index, value);
    }

    /// Whether both shapes have the same dimensions in the same order.
    pub fn same_as(&self, other: &Shape) -> (r: bool)
        ensures
            r == (self@ == other@),
    {
        let a = dims_as_slice(&self.0);
        let b = dims_as_slice(&other.0);
        if a.len() != b.len() {
            return false;
        }
        let mut i: usize = 0;
        while i < a.len()
            invariant
                a@ == self@,
                b@ == other@,
                a@.len() == b@.len(),
                i <= a@.len(),
                forall|k: int| 0 <= k < i ==> a@[k] == b@[k],
            decreases a@.len() - i,
        {
            if a[i] != b[i] {
                assert(a@[i as int] != b@[i as int]);
                return false;
            }
            i = i + 1;
        }
        assert(a@ =~= b@);
        true
    }

    /// The dimensions as an array of length `N`; fails when the rank is not `N`.
    pub fn try_into_array<const N: usize>(&self) -> (r: Result<[usize; N], ShapeError>)
        ensures
            r is Ok <==> self@.len() == N,
            r matches Ok(a) ==> a@ == self@,
            r matches Err(e) ==> e == (ShapeError::RankMismatch { expected: N, actual: self@.len() as usize }),
    {
        let d = dims_as_slice(&self.0);
        if d.len() != N {
            return Err(ShapeError::RankMismatch { expected: N, actual: d.len() });
        }
        let mut a: [usize; N] = [1usize; N];
        let mut i: usize = 0;
        while i < N
            invariant
                d@.len() == N,
                a@.len() == N,
                i <= N,
                forall|k: int| 0 <= k < i ==> a@[k] == d@[k],
            decreases N - i,
        {
            a[i] = d[i];
            i = i + 1;
        }
        assert(a@ =~= d@);
        Ok(a)
    }
}

} // verus!
