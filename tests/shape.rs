use gpu_bench::{Shape, ShapeError};

#[test]
fn numel_is_product() {
    let s = Shape::new(&[2, 3, 4]);
    assert_eq!(s.rank(), 3);
    assert_eq!(s.numel(), 24);
    assert_eq!(Shape::new(&[]).numel(), 1);
    assert_eq!(Shape::new(&[5, 0, 7]).numel(), 0);
    assert_eq!(Shape::new(&[1, 2, 3, 4, 5, 6]).numel(), 720);
}

#[test]
fn try_into_array_checks_rank() {
    let s = Shape::new(&[2, 3]);
    let a: Result<[usize; 2], ShapeError> = s.try_into_array::<2>();
    assert_eq!(a, Ok([2, 3]));
    assert_eq!(
        s.try_into_array::<3>(),
        Err(ShapeError::RankMismatch { expected: 3, actual: 2 })
    );
    assert_eq!(
        s.try_into_array::<1>(),
        Err(ShapeError::RankMismatch { expected: 1, actual: 2 })
    );
    assert_eq!(Shape::new(&[1, 2, 3, 4]).try_into_array::<4>(), Ok([1, 2, 3, 4]));
}

#[test]
fn shape_edit_and_compare() {
    let mut s = Shape::new(&[4, 8]);
    let t = s.clone();
    assert!(s == t);
    s.set_dim(0, 8);
    s.set_dim(1, 4);
    assert_eq!(s.to_vec(), vec![8, 4]);
    assert_eq!(s.dim(1), 4);
    assert!(s != t);
    assert!(!s.same_as(&Shape::new(&[8, 4, 1])));
}
