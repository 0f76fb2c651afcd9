use gpu_bench::storage::power_of_two;
use gpu_bench::{CPUStorage, CPUTensor, DType, Shape, Storage, StorageError, Tensor};

#[test]
fn storage_layout_checks() {
    assert!(power_of_two(1));
    assert!(power_of_two(256));
    assert!(!power_of_two(0));
    assert!(!power_of_two(12));
    assert!(CPUStorage::new(vec![1, 2, 3], 4).is_ok());
    assert_eq!(CPUStorage::new(vec![1, 2, 3], 3).err(), Some(StorageError::InvalidLayout));
    assert_eq!(CPUStorage::new(vec![], 0).err(), Some(StorageError::InvalidLayout));
    let s = CPUStorage::new(vec![9, 8], 2).unwrap();
    let (bytes, layout) = s.inner();
    assert_eq!(bytes, &[9, 8]);
    assert_eq!(layout.size, 2);
    assert_eq!(layout.align, 2);
    assert_eq!(s.clone().as_bytes(), &[9, 8]);
    assert_eq!(s.n_bytes(), 2);
}

#[test]
fn upload_bytes_pad_small_buffers() {
    let s = CPUStorage::new(vec![1, 2, 3], 1).unwrap();
    let up = s.upload_bytes();
    assert_eq!(up.len(), 16);
    assert_eq!(&up[..3], &[1, 2, 3]);
    assert!(up[3..].iter().all(|&b| b == 0));
    let big = CPUStorage::new((0..20u8).collect(), 4).unwrap();
    assert_eq!(big.upload_bytes(), (0..20u8).collect::<Vec<u8>>());
}

#[test]
fn zeros_and_sizes() {
    let t = CPUTensor::zeros(DType::F32, Shape::new(&[2, 3]));
    assert_eq!(t.dt(), DType::F32);
    assert_eq!(t.n_bytes(), 24);
    assert_eq!(t.storage().n_bytes(), 24);
    assert!(t.storage().as_bytes().iter().all(|&b| b == 0));
    assert_eq!(t.shape().to_vec(), vec![2, 3]);
}

#[test]
fn uninitialized_checks_alignment() {
    let t = Tensor::uninitialized(DType::U32, Shape::new(&[4]), 256).unwrap();
    assert_eq!(t.storage().inner().1.align, 256);
    assert_eq!(t.storage().n_bytes(), 16);
    let bad = Tensor::uninitialized(DType::U32, Shape::new(&[4]), 48);
    assert_eq!(bad.err(), Some(StorageError::InvalidLayout));
    let huge = Tensor::uninitialized(DType::I32, Shape::new(&[usize::MAX / 2]), 4);
    assert_eq!(huge.err(), Some(StorageError::InvalidLayout));
}

#[test]
fn from_bytes_checks_length() {
    let ok = CPUTensor::from_bytes(vec![0; 8], Shape::new(&[2]), DType::I32).unwrap();
    assert_eq!(ok.n_bytes(), 8);
    let (dt, shape, storage) = ok.into_inner();
    assert_eq!(dt, DType::I32);
    assert_eq!(shape.numel(), 2);
    assert_eq!(storage.inner().1.align, 4);
    let bad = CPUTensor::from_bytes(vec![0; 7], Shape::new(&[2]), DType::I32);
    assert_eq!(bad.err(), Some(StorageError::LengthMismatch));
}

#[test]
fn from_quantized_keeps_word_bytes() {
    let t = CPUTensor::from_quantized(&[0x04030201, 0xFFFFFFFF], Shape::new(&[8]), DType::U32);
    assert_eq!(t.storage().n_bytes(), 8);
    let bytes = t.storage().as_bytes().to_vec();
    assert_eq!(bytes, [0x04030201u32.to_ne_bytes(), 0xFFFFFFFFu32.to_ne_bytes()].concat());
    assert_eq!(t.shape().numel(), 8);
}

#[test]
fn storage_mut_replaces_storage() {
    let mut t = CPUTensor::zeros(DType::U32, Shape::new(&[1]));
    *t.storage_mut() = CPUStorage::new(vec![1, 2, 3, 4], 4).unwrap();
    assert_eq!(t.storage().as_bytes(), &[1, 2, 3, 4]);
}
