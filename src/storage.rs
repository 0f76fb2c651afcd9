use vstd::prelude::*;
use crate::workload::{ceil_div, Workload};

verus! {

/// Smallest byte size given to a storage buffer on the device.
pub const MIN_STORAGE_BUFFER_SIZE: usize = 16;

/// Size and alignment in bytes of a host allocation.
#[derive(Debug, Clone, Copy, PartialEq, Eq)]
pub struct StorageLayout {
    pub size: usize,
    pub align: usize,
}

/// Error of building host storage.
#[derive(Debug, Clone, Copy, PartialEq, Eq)]
pub enum StorageError {
    /// The alignment is not a power of two, or the size rounded up to it exceeds `isize::MAX`.
    InvalidLayout,
    /// The bytes given do not match the size that the shape and element type ask for.
    LengthMismatch,
}

/// `n` is a power of two.
pub open spec fn is_power_of_two(n: int) -> bool
    decreases n,
{
    if n <= 0 {
        false
    } else if n == 1 {
        true
    } else {
        n % 2 == 0 && is_power_of_two(n / 2)
    }
}

/// An allocation of `size` bytes aligned to `align` can be described: the alignment is a
/// power of two and the size rounded up to it does not exceed `isize::MAX`.
pub open spec fn layout_ok(size: int, align: int) -> bool {
    is_power_of_two(align) && ceil_div(size, align) * align <= isize::MAX
}

/// Whether `n` is a power of two.
pub fn power_of_two(n: usize) -> (r: bool)
    ensures
        r == is_power_of_two(n as int),
{
    if n == 0 {
        return false;
    }
    let mut m: usize = n;
    while m > 1
        invariant
            m > 0,
            is_power_of_two(n as int) == is_power_of_two(m as int),
        decreases m,
    {
        if m % 2 == 1 {
            return false;
        }
        m = m / 2;
    }
    true
}

/// Whether an allocation of `size` bytes aligned to `align` can be described.
pub fn layout_valid(size: usize, align: usize) -> (r: bool)
    ensures
        r == layout_ok(size as int, align as int),
{
    if !power_of_two(align) {
        return false;
    }
    let q = Workload::ceil(size, align);
    if q > (isize::MAX as usize) / align {
        proof {
            let qi = q as int;
            let ai = align as int;
            let m = isize::MAX as int;
            vstd::arithmetic::div_mod::lemma_fundamental_div_mod(m, ai);
            assert(qi * ai > m) by (nonlinear_arith)
                requires
                    qi > m / ai,
                    ai > 0,
                    m == ai * (m / ai) + m % ai,
                    0 <= m % ai < ai,
            ;
        }
        return false;
    }
    proof {
        let qi = q as int;
        let ai = align as int;
        let m = isize::MAX as int;
        vstd::arithmetic::div_mod::lemma_fundamental_div_mod(m, ai);
        assert(qi * ai <= m) by (nonlinear_arith)
            requires
                qi <= m / ai,
                ai > 0,
                m == ai * (m / ai) + m % ai,
                0 <= m % ai,
        ;
    }
    true
}

/// Host storage of a tensor: its bytes and the alignment they were laid out for.
pub struct CPUStorage {
    data: Vec<u8>,
    align: usize,
}

impl View for CPUStorage {
    type V = (Seq<u8>, usize);

    closed spec fn view(&self) -> (Seq<u8>, usize) {
        (self.data@, self.align)
    }
}

impl CPUStorage {
    #[verifier::type_invariant]
    spec fn inv(self) -> bool {
        layout_ok(self.data@.len() as int, self.align as int)
    }

    /// Storage over `data` aligned to `align`; fails when that layout cannot be described.
    pub fn new(data: Vec<u8>, align: usize) -> (r: Result<Self, StorageError>)
        ensures
            r is Ok <==> layout_ok(data@.len() as int, align as int),
            r matches Ok(s) ==> s@ == (data@, align),
            r matches Err(e) ==> e == StorageError::InvalidLayout,
    {
        if layout_valid(data.len(), align) {
            Ok(CPUStorage { data, align })
        } else {
            Err(StorageError::InvalidLayout)
        }
    }

    /// The bytes and their layout.
    pub fn inner(&self) -> (r: (&[u8], StorageLayout))
        ensures
            r.0@ == self@.0,
            r.1 == (StorageLayout { size: self@.0.len() as usize, align: self@.1 }),
            layout_ok(self@.0.len() as int, self@.1 as int),
    {
        proof {
            use_type_invariant(self);
        }
        (self.data.as_slice(), StorageLayout { size: self.data.len(), align: self.align })
    }

    pub fn as_bytes(&self) -> (r: &[u8])
        ensures
            r@ == self@.0,
    {
        self.data.as_slice()
    }

    /// The bytes handed to the device: the stored bytes, zero-padded up to the smallest
    /// storage buffer size.
    pub fn upload_bytes(&self) -> (r: Vec<u8>)
        ensures
            self@.0.len() >= MIN_STORAGE_BUFFER_SIZE ==> r@ == self@.0,
            self@.0.len() < MIN_STORAGE_BUFFER_SIZE ==> r@ == self@.0.add(
                Seq::new((MIN_STORAGE_BUFFER_SIZE - self@.0.len()) as nat, |i: int| 0u8),
            ),
    {
        let mut out: Vec<u8> = Vec::new();
        let n = self.data.len();
        let mut i: usize = 0;
        while i < n
            invariant
                n == self@.0.len(),
                i <= n,
                out@ == self@.0.subrange(0, i as int),
            decreases n - i,
        {
            out.push(self.data[i]);
            i = i + 1;
            assert(out@ =~= self@.0.subrange(0, i as int));
        }
        assert(self@.0.subrange(0, n as int) =~= self@.0);
        let mut k: usize = n;
        while k < MIN_STORAGE_BUFFER_SIZE
            invariant
                n == self@.0.len(),
                n <= k <= MIN_STORAGE_BUFFER_SIZE || (k == n && n >= MIN_STORAGE_BUFFER_SIZE),
                out@ == self@.0.add(Seq::new((k - n) as nat, |i: int| 0u8)),
            decreases MIN_STORAGE_BUFFER_SIZE - k,
        {
            out.push(0u8);
            k = k + 1;
            assert(out@ =~= self@.0.add(Seq::new((k - n) as nat, |i: int| 0u8)));
        }
        if n >= MIN_STORAGE_BUFFER_SIZE {
            assert(out@ =~= self@.0);
        }
        out
    }
}

impl Clone for CPUStorage {
    fn clone(&self) -> (r: Self)
        ensures
            r@ == self@,
    {
        proof {
            use_type_invariant(self);
        }
        let data = self.data.clone();
        assert(data@ =~= self.data@);
        CPUStorage { data, align: self.align }
    }
}

/// Where the bytes of a tensor live.
pub trait Storage: Sized {
    /// Size of the storage in bytes.
    fn n_bytes(&self) -> usize;
}

impl Storage for CPUStorage {
    fn n_bytes(&self) -> (r: usize)
        ensures
            r == self@.0.len(),
    {
        self.data.len()
    }
}

} // verus!
