use pqpart::partition::partition_bounds;
use pqpart::EngineError;

#[test]
fn partition_seven_by_three() {
    let bounds = partition_bounds(7, 3).unwrap();
    assert_eq!(bounds, vec![(0, 3), (3, 6), (6, 7)]);
}

#[test]
fn partition_exact_multiple() {
    let bounds = partition_bounds(6, 3).unwrap();
    assert_eq!(bounds, vec![(0, 3), (3, 6)]);
}

#[test]
fn partition_single_chunk() {
    let bounds = partition_bounds(2, 5).unwrap();
    assert_eq!(bounds, vec![(0, 2)]);
}

#[test]
fn partition_empty_input() {
    let bounds = partition_bounds(0, 4).unwrap();
    assert!(bounds.is_empty());
}

#[test]
fn partition_zero_chunk_size_rejected() {
    let r = partition_bounds(7, 0);
    assert!(matches!(r, Err(EngineError::InvalidConfig)));
}
