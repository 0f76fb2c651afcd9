//! Verified core of a GPU compute-kernel benchmarking harness: dispatch geometry, the ring
//! of hardware timestamp slots and the tick arithmetic of a measurement, tensor shapes,
//! element types and host storage, the packed quantization formats, bind-group layout,
//! adapter selection and the device-request fallback.
use vstd::prelude::*;

pub mod bind;
pub mod device;
pub mod dtype;
pub mod kernel;
pub mod metadata;
pub mod quant;
pub mod query;
pub mod shape;
pub mod storage;
pub mod tensor;
pub mod workload;

pub use bind::{BindSource, BindingSlot};
pub use device::{DeviceKind, LimitsChoice, RequestStep};
pub use dtype::{DType, DataType, NpyKind, NpyTypeDesc};
pub use kernel::KernelContextExt;
pub use quant::Quantization;
pub use query::{QueryCursor, QueryError, QueryPair, MAX_QUERIES};
pub use shape::{Shape, ShapeError};
pub use storage::{CPUStorage, Storage, StorageError, StorageLayout};
pub use tensor::{CPUTensor, Tensor};
pub use workload::{WorkgroupCount, WorkgroupSize, Workload, WorkloadDim};
