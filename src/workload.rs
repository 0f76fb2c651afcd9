use vstd::prelude::*;

verus! {

/// Number of workgroups dispatched along each axis (the grid of a dispatch).
#[derive(Debug, Clone, Copy, PartialEq, Eq)]
pub struct WorkgroupCount(pub u32, pub u32, pub u32);

impl WorkgroupCount {
    pub fn new(x: u32, y: u32, z: u32) -> (r: Self)
        ensures
            r == WorkgroupCount(x, y, z),
    {
        WorkgroupCount(x, y, z)
    }

    pub fn as_tuple(&self) -> (r: (u32, u32, u32))
        ensures
            r == (self.0, self.1, self.2),
    {
        (self.0, self.1, self.2)
    }
}

/// Number of threads in one workgroup along each axis.
#[derive(Debug, Clone, Copy, PartialEq, Eq)]
pub struct WorkgroupSize(pub u32, pub u32, pub u32);

impl WorkgroupSize {
    pub open spec fn spec_total(&self) -> int {
        self.0 as int * self.1 as int * self.2 as int
    }

    pub fn new(x: u32, y: u32, z: u32) -> (r: Self)
        ensures
            r == WorkgroupSize(x, y, z),
    {
        WorkgroupSize(x, y, z)
    }

    /// Threads per workgroup.
    pub fn total(&self) -> (r: u32)
        requires
            self.spec_total() <= u32::MAX,
        ensures
            r == self.spec_total(),
    {
        if self.2 == 0 {
            assert(self.spec_total() == 0) by (nonlinear_arith)
                requires
                    self.2 == 0,
            ;
            return 0;
        }
        proof {
            lemma_product_bound(self.0 as int, self.1 as int, self.2 as int);
        }
        self.0 * self.1 * self.2
    }
}

proof fn lemma_product_bound(a: int, b: int, c: int)
    requires
        0 <= a,
        0 <= b,
        0 <= c,
        a * b * c <= u32::MAX,
    ensures
        c > 0 ==> a * b <= u32::MAX,
{
    if c > 0 {
        assert(a * b <= a * b * c) by (nonlinear_arith)
            requires
                0 <= a,
                0 <= b,
                0 < c,
        ;
    }
}

/// The whole piece of work: the shape of one workgroup and the grid of workgroups.
#[derive(Debug, Clone, Copy, PartialEq, Eq)]
pub struct Workload {
    size: WorkgroupSize,
    count: WorkgroupCount,
}

/// Axis of a workload, used to pick the limit that applies to it.
#[derive(Debug, Clone, Copy, PartialEq, Eq)]
pub enum WorkloadDim {
    X,
    Y,
    Z,
}

pub const MAX_WORKGROUP_SIZE_X: usize = 256;

pub const MAX_WORKGROUP_SIZE_Y: usize = 256;

pub const MAX_WORKGROUP_SIZE_Z: usize = 64;

pub const MAX_COMPUTE_WORKGROUPS_PER_DIMENSION: usize = 65535;

/// Smallest `q` with `q * div >= num`.
pub open spec fn ceil_div(num: int, div: int) -> int {
    (num + div - 1) / div
}

/// Largest workgroup extent the device accepts along `dim`.
pub open spec fn spec_max_workgroup_size(dim: WorkloadDim) -> int {
    match dim {
        WorkloadDim::X => MAX_WORKGROUP_SIZE_X as int,
        WorkloadDim::Y => MAX_WORKGROUP_SIZE_Y as int,
        WorkloadDim::Z => MAX_WORKGROUP_SIZE_Z as int,
    }
}

impl Workload {
    pub closed spec fn spec_size(&self) -> WorkgroupSize {
        self.size
    }

    pub closed spec fn spec_count(&self) -> WorkgroupCount {
        self.count
    }

    /// The workload respects the device limits: every workgroup extent is positive and
    /// at most the axis maximum, and every group count is positive and at most the
    /// per-dimension dispatch limit.
    pub open spec fn within_limits(&self) -> bool {
        &&& 0 < self.spec_size().0 <= MAX_WORKGROUP_SIZE_X
        &&& 0 < self.spec_size().1 <= MAX_WORKGROUP_SIZE_Y
        &&& 0 < self.spec_size().2 <= MAX_WORKGROUP_SIZE_Z
        &&& 0 < self.spec_count().0 <= MAX_COMPUTE_WORKGROUPS_PER_DIMENSION
        &&& 0 < self.spec_count().1 <= MAX_COMPUTE_WORKGROUPS_PER_DIMENSION
        &&& 0 < self.spec_count().2 <= MAX_COMPUTE_WORKGROUPS_PER_DIMENSION
    }

    pub fn new(size: WorkgroupSize, count: WorkgroupCount) -> (r: Self)
        ensures
            r.spec_size() == size,
            r.spec_count() == count,
    {
        Self { size, count }
    }

    pub fn count(&self) -> (r: &WorkgroupCount)
        ensures
            *r == self.spec_count(),
    {
        &self.count
    }

    pub fn size(&self) -> (r: &WorkgroupSize)
        ensures
            *r == self.spec_size(),
    {
        &self.size
    }

    /// Whether the workload fits the device limits.
    pub fn is_within_limits(&self) -> (r: bool)
        ensures
            r == self.within_limits(),
    {
        0 < self.size.0 && self.size.0 as usize <= MAX_WORKGROUP_SIZE_X
            && 0 < self.size.1 && self.size.1 as usize <= MAX_WORKGROUP_SIZE_Y
            && 0 < self.size.2 && self.size.2 as usize <= MAX_WORKGROUP_SIZE_Z
            && 0 < self.count.0 && self.count.0 as usize <= MAX_COMPUTE_WORKGROUPS_PER_DIMENSION
            && 0 < self.count.1 && self.count.1 as usize <= MAX_COMPUTE_WORKGROUPS_PER_DIMENSION
            && 0 < self.count.2 && self.count.2 as usize <= MAX_COMPUTE_WORKGROUPS_PER_DIMENSION
    }

    /// Largest workgroup extent the device accepts along `dim`.
    pub fn max_workgroup_size(dim: WorkloadDim) -> (r: usize)
        ensures
            r == spec_max_workgroup_size(dim),
    {
        match dim {
            WorkloadDim::X => MAX_WORKGROUP_SIZE_X,
            WorkloadDim::Y => MAX_WORKGROUP_SIZE_Y,
            WorkloadDim::Z => MAX_WORKGROUP_SIZE_Z,
        }
    }

    /// Ceiling division: the number of tiles of size `div` needed to cover `num`.
    pub fn ceil(num: usize, div: usize) -> (r: usize)
        requires
            div > 0,
        ensures
            r == ceil_div(num as int, div as int),
    {
        let q = num / div;
        if num % div == 0 {
            proof {
                lemma_ceil_exact(num as int, div as int);
            }
            q
        } else {
            proof {
                lemma_ceil_inexact(num as int, div as int);
            }
            q + 1
        }
    }
}

proof fn lemma_ceil_exact(num: int, div: int)
    requires
        0 <= num,
        0 < div,
        num % div == 0,
    ensures
        ceil_div(num, div) == num / div,
{
    vstd::arithmetic::div_mod::lemma_fundamental_div_mod(num, div);
    vstd::arithmetic::div_mod::lemma_div_multiples_vanish_fancy(num / div, div - 1, div);
}

proof fn lemma_ceil_inexact(num: int, div: int)
    requires
        0 <= num,
        0 < div,
        num % div != 0,
    ensures
        ceil_div(num, div) == num / div + 1,
        num / div + 1 <= num,
{
    vstd::arithmetic::div_mod::lemma_fundamental_div_mod(num, div);
    let q = num / div;
    let r = num % div;
    assert(num + div - 1 == (q + 1) * div + (r - 1)) by (nonlinear_arith)
        requires
            num == div * q + r,
    ;
    vstd::arithmetic::div_mod::lemma_div_multiples_vanish_fancy(q + 1, r - 1, div);
    assert(q + 1 <= num) by (nonlinear_arith)
        requires
            num == div * q + r,
            0 < r < div,
            q >= 0,
            div >= 1,
    ;
}

/// Ceiling division covers its input and overshoots by less than one tile:
/// `ceil(num, div) * div >= num` and `ceil(num, div) * div < num + div`,
/// that is, `ceil(num, div)` is below `num / div + 1` in exact division.
pub proof fn lemma_ceil_bounds(num: int, div: int)
    requires
        0 < num,
        0 < div,
    ensures
        ceil_div(num, div) * div >= num,
        ceil_div(num, div) * div < num + div,
{
    vstd::arithmetic::div_mod::lemma_fundamental_div_mod(num + div - 1, div);
    let q = ceil_div(num, div);
    let r = (num + div - 1) % div;
    assert(q * div == num + div - 1 - r) by (nonlinear_arith)
        requires
            num + div - 1 == div * q + r,
    ;
}

/// Rounding up to a multiple of `div` lands at or above `num` and less than `div` above it,
/// also for `num == 0`.
pub proof fn lemma_ceil_bounds_zero_ok(num: int, div: int)
    requires
        0 <= num,
        0 < div,
    ensures
        ceil_div(num, div) * div >= num,
        ceil_div(num, div) * div < num + div,
        ceil_div(num, div) >= 0,
{
    vstd::arithmetic::div_mod::lemma_fundamental_div_mod(num + div - 1, div);
    let q = ceil_div(num, div);
    let r = (num + div - 1) % div;
    assert(q * div == num + div - 1 - r) by (nonlinear_arith)
        requires
            num + div - 1 == div * q + r,
    ;
    assert(q >= 0) by (nonlinear_arith)
        requires
            q * div == num + div - 1 - r,
            0 <= r < div,
            num >= 0,
            div > 0,
    ;
}

} // verus!
