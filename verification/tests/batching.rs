use pqpart::batch::{plan_batches, BatchCursor};
use pqpart::cat::row_in_window;
use pqpart::utils::hashset;
use pqpart::EngineError;

#[test]
fn batches_cover_total_with_short_tail() {
    assert_eq!(plan_batches(10, 4).unwrap(), vec![4, 4, 2]);
    assert_eq!(plan_batches(8, 4).unwrap(), vec![4, 4]);
    assert_eq!(plan_batches(3, 4).unwrap(), vec![3]);
    assert_eq!(plan_batches(0, 4).unwrap(), Vec::<u64>::new());
}

#[test]
fn batch_size_zero_rejected() {
    assert!(matches!(plan_batches(10, 0), Err(EngineError::InvalidConfig)));
}

#[test]
fn cursor_is_single_pass() {
    let mut c = BatchCursor::new(vec![4, 4, 2]);
    assert_eq!(c.next(), Some(4));
    assert_eq!(c.next(), Some(4));
    assert_eq!(c.next(), Some(2));
    assert_eq!(c.next(), None);
    assert_eq!(c.next(), None);
}

#[test]
fn cursor_failure_ends_the_sequence() {
    let mut c = BatchCursor::new(vec![4, 4, 2]);
    assert_eq!(c.next(), Some(4));
    c.mark_failed();
    assert_eq!(c.next(), None);
}

#[test]
fn row_window_offset_and_limit() {
    // No offset, no limit: everything is emitted.
    assert!(row_in_window(0, 0, 0));
    assert!(row_in_window(1_000_000, 0, 0));
    // A limit alone cuts the tail.
    assert!(row_in_window(4, 0, 5));
    assert!(!row_in_window(5, 0, 5));
    // An offset alone extends a positive limit by the skipped rows.
    assert!(!row_in_window(2, 3, 5));
    assert!(row_in_window(3, 3, 5));
    assert!(row_in_window(7, 3, 5));
    assert!(!row_in_window(8, 3, 5));
}

#[test]
fn hashset_holds_exactly_the_given_values() {
    let s = hashset(vec![3, 1, 4, 1, 5]);
    assert_eq!(s.len(), 4);
    assert!(s.contains(&3));
    assert!(s.contains(&1));
    assert!(s.contains(&4));
    assert!(s.contains(&5));
    assert!(!s.contains(&2));
    assert!(hashset(vec![]).is_empty());
}

#[test]
fn error_categories_name_the_variant() {
    assert_eq!(EngineError::InvalidConfig.category(), "invalid configuration");
    assert_eq!(EngineError::IoFailure.category(), "io failure");
    assert_eq!(EngineError::DecodeFailure.category(), "decode failure");
    assert_eq!(EngineError::ClosedContainer.category(), "closed container");
    assert_eq!(EngineError::WorkerStalled.category(), "worker stalled");
    let mismatch = EngineError::SchemaMismatch {
        first: 0,
        second: 1,
        expected: vec![],
        actual: vec![],
    };
    assert_eq!(mismatch.category(), "schema mismatch");
}
