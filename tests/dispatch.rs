use gpu_bench::device::{adapter_score, after_request, first_request, select_adapter, RELAXED_MAX_BUFFER_SIZE};
use gpu_bench::bind::plan_bindings;
use gpu_bench::metadata::uniform_buffer_size;
use gpu_bench::{
    BindSource, BindingSlot, DType, DataType, DeviceKind, KernelContextExt, LimitsChoice,
    NpyKind, NpyTypeDesc, RequestStep, WorkgroupCount, WorkgroupSize, Workload,
};

#[test]
fn adapter_preference() {
    assert_eq!(adapter_score(DeviceKind::DiscreteGpu), 5);
    assert_eq!(adapter_score(DeviceKind::Cpu), 1);
    assert_eq!(select_adapter(&[]), None);
    assert_eq!(
        select_adapter(&[DeviceKind::Cpu, DeviceKind::IntegratedGpu, DeviceKind::VirtualGpu]),
        Some(1)
    );
    assert_eq!(
        select_adapter(&[DeviceKind::Other, DeviceKind::DiscreteGpu, DeviceKind::DiscreteGpu]),
        Some(1)
    );
    assert_eq!(select_adapter(&[DeviceKind::Cpu, DeviceKind::Cpu]), Some(0));
}

#[test]
fn device_request_falls_back_once() {
    assert_eq!(first_request(), RequestStep::Request(LimitsChoice::Relaxed));
    assert_eq!(after_request(LimitsChoice::Relaxed, true), RequestStep::Ready);
    assert_eq!(
        after_request(LimitsChoice::Relaxed, false),
        RequestStep::Request(LimitsChoice::AdapterDefault)
    );
    assert_eq!(after_request(LimitsChoice::AdapterDefault, false), RequestStep::Fatal);
    assert_eq!(after_request(LimitsChoice::AdapterDefault, true), RequestStep::Ready);
    assert_eq!(RELAXED_MAX_BUFFER_SIZE, (1 << 30) - 1);
}

#[test]
fn bindings_chunked_by_four() {
    let plan = plan_bindings(&[1, 2, 1, 1]);
    assert_eq!(plan.len(), 6);
    assert_eq!(
        plan[0],
        BindingSlot { group: 0, binding: 0, source: BindSource::Segment { tensor: 0, segment: 0 } }
    );
    assert_eq!(
        plan[2],
        BindingSlot { group: 0, binding: 2, source: BindSource::Segment { tensor: 1, segment: 1 } }
    );
    assert_eq!(
        plan[4],
        BindingSlot { group: 1, binding: 0, source: BindSource::Segment { tensor: 3, segment: 0 } }
    );
    assert_eq!(plan[5], BindingSlot { group: 2, binding: 0, source: BindSource::Uniform });
}

#[test]
fn uniform_gets_own_last_group() {
    let plan = plan_bindings(&[1, 1, 1, 1]);
    assert_eq!(plan.len(), 5);
    assert_eq!(plan[3].group, 0);
    assert_eq!(plan[4], BindingSlot { group: 1, binding: 0, source: BindSource::Uniform });
    let only = plan_bindings(&[]);
    assert_eq!(only, vec![BindingSlot { group: 0, binding: 0, source: BindSource::Uniform }]);
}

#[test]
fn uniform_sizes() {
    assert_eq!(uniform_buffer_size(0), 256);
    assert_eq!(uniform_buffer_size(12), 256);
    assert_eq!(uniform_buffer_size(256), 512);
    assert_eq!(uniform_buffer_size(300), 512);
}

#[test]
fn dtype_facts() {
    assert_eq!(DType::F32.size_of(), 4);
    assert_eq!(DType::I32.size_of(), 4);
    assert_eq!(DType::U32.as_str(), "u32");
    assert_eq!(DType::F32.as_str(), "f32");
    assert_eq!(DType::default(), DType::F32);
    assert_eq!(<i32 as DataType>::dt(), DType::I32);
    assert_eq!(<u32 as DataType>::one(), 1);
    let little_float = NpyTypeDesc { little_endian: true, kind: NpyKind::Float, size: 4 };
    assert_eq!(DType::from_npy(little_float), Some(DType::F32));
    let little_uint = NpyTypeDesc { little_endian: true, kind: NpyKind::Uint, size: 4 };
    assert_eq!(DType::from_npy(little_uint), Some(DType::U32));
    let big = NpyTypeDesc { little_endian: false, kind: NpyKind::Int, size: 4 };
    assert_eq!(DType::from_npy(big), None);
    let wide = NpyTypeDesc { little_endian: true, kind: NpyKind::Float, size: 8 };
    assert_eq!(DType::from_npy(wide), None);
}

#[test]
fn context_gets_workgroup_size() {
    let mut ctx = tera::Context::new();
    let w = Workload::new(WorkgroupSize::new(8, 4, 2), WorkgroupCount::new(1, 1, 1));
    ctx.insert_workload(&w);
    assert!(ctx.contains_key("workgroup_size_x"));
    assert!(ctx.contains_key("workgroup_size_y"));
    assert!(ctx.contains_key("workgroup_size_z"));
    let json = ctx.into_json();
    assert_eq!(json["workgroup_size_x"], 8);
    assert_eq!(json["workgroup_size_z"], 2);
}
