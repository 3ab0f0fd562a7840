use pqpart::batch::plan_batches;
use pqpart::dispatch::{plan_outputs, WriterWorker};
use pqpart::EngineError;

#[test]
fn plan_outputs_with_row_limit_is_ceiling() {
    // 100 rows, 2 groups of 5 rows per file: ceil(100 / 10) = 10 files.
    assert_eq!(plan_outputs(100, 10_000, 2, 5, 4).unwrap(), 10);
    // 101 rows round up to an 11th file.
    assert_eq!(plan_outputs(101, 10_000, 2, 5, 4).unwrap(), 11);
    // An empty source still produces one file.
    assert_eq!(plan_outputs(0, 10_000, 2, 5, 4).unwrap(), 1);
}

#[test]
fn plan_outputs_without_limit_follows_jobs() {
    // No group-count limit: a small source fits one file...
    assert_eq!(plan_outputs(9_999, 10_000, 0, 5, 4).unwrap(), 1);
    // ...a larger one gets one file per job.
    assert_eq!(plan_outputs(10_000, 10_000, 0, 5, 4).unwrap(), 4);
}

#[test]
fn plan_outputs_rejects_zero_size_and_zero_jobs() {
    assert!(matches!(plan_outputs(100, 10_000, 2, 0, 4), Err(EngineError::InvalidConfig)));
    assert!(matches!(plan_outputs(100, 10_000, 2, 5, 0), Err(EngineError::InvalidConfig)));
}

#[test]
fn worker_appends_then_closes_exactly_once() {
    let mut w = WriterWorker::new();
    w.on_batch(10).unwrap();
    w.on_batch(5).unwrap();
    assert_eq!(w.rows_written, 15);
    assert_eq!(w.batches_written, 2);
    assert!(!w.closed);

    w.on_termination().unwrap();
    assert!(w.closed);
    assert!(!w.stalled);
    // A second termination signal would be a double close: rejected.
    assert!(matches!(w.on_termination(), Err(EngineError::ClosedContainer)));
    // An append after close is rejected and changes nothing.
    assert!(matches!(w.on_batch(1), Err(EngineError::ClosedContainer)));
    assert_eq!(w.rows_written, 15);
}

#[test]
fn worker_timeout_closes_partial_output_and_reports() {
    let mut w = WriterWorker::new();
    w.on_batch(3).unwrap();
    let e = w.on_timeout();
    assert!(matches!(e, EngineError::WorkerStalled));
    assert!(w.closed);
    assert!(w.stalled);
    assert_eq!(w.rows_written, 3);
}

#[test]
fn repartition_conserves_rows_across_workers() {
    // 23 rows in batches of 4, fanned out over 3 outputs with 2 jobs: however
    // the batches are distributed, the output row counts add up to 23.
    let batches = plan_batches(23, 4).unwrap();
    assert_eq!(batches, vec![4, 4, 4, 4, 4, 3]);

    let t = 3usize;
    let mut workers: Vec<WriterWorker> = (0..t).map(|_| WriterWorker::new()).collect();
    // One admissible schedule: batches round-robin over the live workers.
    for (i, b) in batches.iter().enumerate() {
        workers[i % t].on_batch(*b).unwrap();
    }
    // The source is exhausted: exactly one termination signal per output.
    for w in workers.iter_mut() {
        w.on_termination().unwrap();
    }
    let total: u64 = workers.iter().map(|w| w.rows_written).sum();
    assert_eq!(total, 23);
    assert!(workers.iter().all(|w| w.closed && !w.stalled));

    // Sequential consumption (jobs = 1) conserves rows just the same.
    let mut lone = WriterWorker::new();
    for b in plan_batches(23, 4).unwrap() {
        lone.on_batch(b).unwrap();
    }
    lone.on_termination().unwrap();
    assert_eq!(lone.rows_written, 23);
}
