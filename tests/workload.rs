use gpu_bench::workload::{
    MAX_COMPUTE_WORKGROUPS_PER_DIMENSION, MAX_WORKGROUP_SIZE_X, MAX_WORKGROUP_SIZE_Z,
};
use gpu_bench::{WorkgroupCount, WorkgroupSize, Workload, WorkloadDim};

#[test]
fn ceil_division_values() {
    assert_eq!(Workload::ceil(0, 4), 0);
    assert_eq!(Workload::ceil(1, 4), 1);
    assert_eq!(Workload::ceil(8, 4), 2);
    assert_eq!(Workload::ceil(9, 4), 3);
    assert_eq!(Workload::ceil(usize::MAX, 1), usize::MAX);
    assert_eq!(Workload::ceil(usize::MAX, 2), usize::MAX / 2 + 1);
}

#[test]
fn ceil_bounds_hold() {
    for num in 1..200usize {
        for div in 1..40usize {
            let c = Workload::ceil(num, div);
            assert!(c * div >= num);
            assert!(c * div < num + div);
        }
    }
}

#[test]
fn workload_parts() {
    let w = Workload::new(WorkgroupSize::new(16, 16, 1), WorkgroupCount::new(64, 32, 1));
    assert_eq!(w.size().total(), 256);
    assert_eq!(w.count().as_tuple(), (64, 32, 1));
    assert!(w.is_within_limits());
}

#[test]
fn workload_limits() {
    let too_wide = Workload::new(WorkgroupSize::new(257, 1, 1), WorkgroupCount::new(1, 1, 1));
    assert!(!too_wide.is_within_limits());
    let too_deep = Workload::new(WorkgroupSize::new(1, 1, 65), WorkgroupCount::new(1, 1, 1));
    assert!(!too_deep.is_within_limits());
    let too_many = Workload::new(WorkgroupSize::new(1, 1, 1), WorkgroupCount::new(65536, 1, 1));
    assert!(!too_many.is_within_limits());
    let empty = Workload::new(WorkgroupSize::new(1, 1, 1), WorkgroupCount::new(0, 1, 1));
    assert!(!empty.is_within_limits());
    let edge = Workload::new(WorkgroupSize::new(256, 256, 64), WorkgroupCount::new(65535, 65535, 65535));
    assert!(edge.is_within_limits());
    assert_eq!(Workload::max_workgroup_size(WorkloadDim::X), MAX_WORKGROUP_SIZE_X);
    assert_eq!(Workload::max_workgroup_size(WorkloadDim::Y), 256);
    assert_eq!(Workload::max_workgroup_size(WorkloadDim::Z), MAX_WORKGROUP_SIZE_Z);
    assert_eq!(MAX_COMPUTE_WORKGROUPS_PER_DIMENSION, 65535);
}

#[test]
fn workgroup_total_with_zero_axis() {
    assert_eq!(WorkgroupSize::new(70000, 70000, 0).total(), 0);
    assert_eq!(WorkgroupSize::new(8, 4, 2).total(), 64);
}
