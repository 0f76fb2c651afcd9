use vstd::prelude::*;
use crate::dtype::{lemma_size_of_four, spec_size_of, DType};
use crate::shape::{dims_product, Shape};
use crate::storage::{layout_ok, CPUStorage, Storage, StorageError};

verus! {

/// Relies on `bytemuck::cast_slice`: the words reinterpreted as bytes, four for each word.
#[verifier::external_body]
fn words_as_bytes(words: &[u32]) -> (r: Vec<u8>)
    ensures
        r@.len() == 4 * words@.len(),
{
    bytemuck::cast_slice::<u32, u8>(words).to_vec()
}

/// A tensor: element type, shape, and the storage that holds its bytes.
pub struct Tensor<S: Storage> {
    dt: DType,
    shape: Shape,
    storage: S,
}

/// A tensor whose bytes are in host memory.
pub type CPUTensor = Tensor<CPUStorage>;

/// Bytes taken by the elements of a shape.
pub open spec fn spec_n_bytes(dt: DType, dims: Seq<usize>) -> int {
    dims_product(dims) * spec_size_of(dt)
}

impl<S: Storage> Tensor<S> {
    pub closed spec fn spec_dt(&self) -> DType {
        self.dt
    }

    pub closed spec fn spec_shape(&self) -> Seq<usize> {
        self.shape@
    }

    pub closed spec fn spec_storage(&self) -> S {
        self.storage
    }

    pub fn new(dt: DType, shape: Shape, storage: S) -> (r: Self)
        ensures
            r.spec_dt() == dt,
            r.spec_shape() == shape@,
            r.spec_storage() == storage,
    {
        Tensor { dt, shape, storage }
    }

    pub fn dt(&self) -> (r: DType)
        ensures
            r == self.spec_dt(),
    {
        self.dt
    }

    pub fn shape(&self) -> (r: &Shape)
        ensures
            r@ == self.spec_shape(),
    {
        &self.shape
    }

    pub fn storage(&self) -> (r: &S)
        ensures
            *r == self.spec_storage(),
    {
        &self.storage
    }

    pub fn storage_mut(&mut self) -> (r: &mut S)
        ensures
            *r == old(self).spec_storage(),
            final(self).spec_storage() == *final(r),
            final(self).spec_dt() == old(self).spec_dt(),
            final(self).spec_shape() == old(self).spec_shape(),
    {
        &mut self.storage
    }

    /// Bytes taken by the elements: element count times element size.
    pub fn n_bytes(&self) -> (r: usize)
        requires
            spec_n_bytes(self.spec_dt(), self.spec_shape()) <= usize::MAX,
        ensures
            r == spec_n_bytes(self.spec_dt(), self.spec_shape()),
    {
        proof {
            lemma_size_of_four(self.dt);
            crate::shape::lemma_product_nonneg(self.shape@);
            assert(dims_product(self.shape@) <= usize::MAX) by (nonlinear_arith)
                requires
                    dims_product(self.shape@) * spec_size_of(self.dt) <= usize::MAX,
                    dims_product(self.shape@) >= 0,
                    spec_size_of(self.dt) >= 1,
            ;
        }
        self.shape.numel() * self.dt.size_of()
    }

    /// Takes the tensor apart.
    pub fn into_inner(self) -> (r: (DType, Shape, S))
        ensures
            r.0 == self.spec_dt(),
            r.1@ == self.spec_shape(),
            r.2 == self.spec_storage(),
    {
        (self.dt, self.shape, self.storage)
    }
}

impl Tensor<CPUStorage> {
    /// A host tensor of zero bytes, laid out for `alignment`; fails when that layout
    /// cannot be described.
    pub fn uninitialized(dt: DType, shape: Shape, alignment: usize) -> (r: Result<
        CPUTensor,
        StorageError,
    >)
        requires
            dims_product(shape@) <= usize::MAX,
        ensures
            r is Ok <==> layout_ok(spec_n_bytes(dt, shape@), alignment as int),
            r matches Ok(t) ==> t.spec_dt() == dt && t.spec_shape() == shape@
                && t.spec_storage()@.1 == alignment
                && t.spec_storage()@.0 == Seq::new(
                spec_n_bytes(dt, shape@) as nat,
                |i: int| 0u8,
            ),
            r matches Err(e) ==> e == StorageError::InvalidLayout,
    {
        let numel = shape.numel();
        let size = dt.size_of();
        proof {
            lemma_size_of_four(dt);
        }
        if numel > (isize::MAX as usize) / size {
            proof {
                crate::shape::lemma_product_nonneg(shape@);
                assert(spec_n_bytes(dt, shape@) > isize::MAX);
                lemma_layout_too_large(spec_n_bytes(dt, shape@), alignment as int);
            }
            return Err(StorageError::InvalidLayout);
        }
        let n = numel * size;
        let mut data: Vec<u8> = Vec::new();
        let mut i: usize = 0;
        while i < n
            invariant
                i <= n,
                data@ == Seq::new(i as nat, |k: int| 0u8),
            decreases n - i,
        {
            data.push(0u8);
            i = i + 1;
            assert(data@ =~= Seq::new(i as nat, |k: int| 0u8));
        }
        match CPUStorage::new(data, alignment) {
            Ok(storage) => Ok(Tensor { dt, shape, storage }),
            Err(e) => Err(e),
        }
    }

    /// A host tensor of zeros.
    pub fn zeros(dt: DType, shape: Shape) -> (r: CPUTensor)
        requires
            spec_n_bytes(dt, shape@) <= isize::MAX,
        ensures
            r.spec_dt() == dt,
            r.spec_shape() == shape@,
            r.spec_storage()@.0 == Seq::new(spec_n_bytes(dt, shape@) as nat, |i: int| 0u8),
    {
        proof {
            lemma_size_of_four(dt);
            crate::shape::lemma_product_nonneg(shape@);
            assert(dims_product(shape@) <= usize::MAX) by (nonlinear_arith)
                requires
                    dims_product(shape@) * spec_size_of(dt) <= isize::MAX,
                    dims_product(shape@) >= 0,
                    spec_size_of(dt) == 4,
            ;
            lemma_layout_word_aligned(spec_n_bytes(dt, shape@));
        }
        let size = dt.size_of();
        Self::uninitialized(dt, shape, size).unwrap()
    }

    /// A host tensor over `bytes`, aligned to its element size; fails unless the bytes are
    /// exactly as many as the elements of the shape take.
    pub fn from_bytes(bytes: Vec<u8>, shape: Shape, dt: DType) -> (r: Result<
        CPUTensor,
        StorageError,
    >)
        requires
            spec_n_bytes(dt, shape@) <= isize::MAX,
        ensures
            r is Ok <==> bytes@.len() == spec_n_bytes(dt, shape@),
            r matches Ok(t) ==> t.spec_dt() == dt && t.spec_shape() == shape@
                && t.spec_storage()@ == (bytes@, spec_size_of(dt) as usize),
            r matches Err(e) ==> e == StorageError::LengthMismatch,
    {
        proof {
            lemma_size_of_four(dt);
            crate::shape::lemma_product_nonneg(shape@);
            assert(dims_product(shape@) <= usize::MAX) by (nonlinear_arith)
                requires
                    dims_product(shape@) * spec_size_of(dt) <= isize::MAX,
                    dims_product(shape@) >= 0,
                    spec_size_of(dt) == 4,
            ;
        }
        let numel = shape.numel();
        let size = dt.size_of();
        if bytes.len() != numel * size {
            return Err(StorageError::LengthMismatch);
        }
        proof {
            lemma_layout_word_aligned(bytes@.len() as int);
        }
        let storage = CPUStorage::new(bytes, size).unwrap();
        Ok(Tensor { dt, shape, storage })
    }

    /// A host tensor over the bytes of packed words, aligned to the element size of `dt`.
    pub fn from_quantized(words: &[u32], shape: Shape, dt: DType) -> (r: CPUTensor)
        requires
            4 * words@.len() <= isize::MAX,
        ensures
            r.spec_dt() == dt,
            r.spec_shape() == shape@,
            r.spec_storage()@.0.len() == 4 * words@.len(),
            r.spec_storage()@.1 == spec_size_of(dt),
    {
        let bytes = words_as_bytes(words);
        proof {
            lemma_size_of_four(dt);
            lemma_layout_word_aligned(bytes@.len() as int);
        }
        let storage = CPUStorage::new(bytes, dt.size_of()).unwrap();
        Tensor { dt, shape, storage }
    }
}

proof fn lemma_layout_too_large(size: int, align: int)
    requires
        size > isize::MAX,
    ensures
        !layout_ok(size, align),
{
    if crate::storage::is_power_of_two(align) {
        assert(align > 0);
        vstd::arithmetic::div_mod::lemma_fundamental_div_mod(size + align - 1, align);
        let q = (size + align - 1) / align;
        let r = (size + align - 1) % align;
        assert(q * align >= size) by (nonlinear_arith)
            requires
                size + align - 1 == align * q + r,
                r < align,
        ;
    }
}

proof fn lemma_layout_word_aligned(size: int)
    requires
        0 <= size <= isize::MAX,
    ensures
        layout_ok(size, 4) || size % 4 != 0,
        size % 4 == 0 ==> layout_ok(size, 4),
{
    assert(crate::storage::is_power_of_two(4)) by {
        assert(crate::storage::is_power_of_two(1));
        assert(crate::storage::is_power_of_two(2));
    }
    if size % 4 == 0 {
        assert(crate::workload::ceil_div(size, 4) * 4 == size);
    }
}

} // verus!
