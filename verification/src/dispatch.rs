//! The concurrent repartition pipeline: output planning, the writer's
//! decision logic, and a transition model of the bounded queue with its
//! admission-credit pool.
//!
//! One reader enqueues decoded batches, in order, into a single bounded queue
//! shared by all writers, and, once the source is exhausted, enqueues exactly
//! one termination signal per planned output file. A credit pool of `jobs`
//! credits gates writer startup, capping how many outputs are open at once
//! however many outputs are planned. The model below describes every
//! interleaving of those actors; the conservation and termination lemmas hold
//! over all of them.

use vstd::prelude::*;

use crate::error::EngineError;
use crate::partition::{ceil_div, lemma_ceil_div_exact};

verus! {

/// How many output files the repartition produces.
///
/// With a configured per-file row limit (`max_group_count * max_group_size`
/// rows), the answer is `ceil(total_rows / limit)`, at least 1. With no limit
/// (a zero group count), it is one file when the source holds less than one
/// batch, else one file per parallel job. A zero row-group size never
/// configures a usable limit and is rejected, as is a zero job count, under
/// which no writer could ever start; both are rejected before any file is
/// opened.
pub fn plan_outputs(
    total_rows: u64,
    batch_size: u64,
    max_group_count: u32,
    max_group_size: u32,
    jobs: u32,
) -> (r: Result<u64, EngineError>)
    ensures
        max_group_size == 0 || jobs == 0 <==> r is Err,
        r is Err ==> r matches Err(EngineError::InvalidConfig),
        r matches Ok(t) ==> ({
            let limit = (max_group_count as int) * (max_group_size as int);
            &&& t >= 1
            &&& (limit == 0 ==> t == if total_rows < batch_size {
                1u64
            } else {
                jobs as u64
            })
            &&& (limit > 0 ==> t == if total_rows == 0 {
                1int
            } else {
                ceil_div(total_rows as nat, limit as nat) as int
            })
        }),
{
    if max_group_size == 0 || jobs == 0 {
        return Err(EngineError::InvalidConfig);
    }
    proof {
        assert((max_group_count as int) * (max_group_size as int) <= 0xffff_ffffu64
            * 0xffff_ffffu64) by (nonlinear_arith)
            requires
                max_group_count <= 0xffff_ffffu32,
                max_group_size <= 0xffff_ffffu32,
        ;
    }
    let limit: u64 = (max_group_count as u64) * (max_group_size as u64);
    if limit == 0 {
        if total_rows < batch_size {
            Ok(1)
        } else {
            Ok(jobs as u64)
        }
    } else {
        if total_rows == 0 {
            Ok(1)
        } else {
            let t = (total_rows - 1) / limit + 1;
            proof {
                lemma_ceil_div_formula(total_rows as nat, limit as nat);
            }
            Ok(t)
        }
    }
}

/// Ceiling division computed from truncating division.
proof fn lemma_ceil_div_formula(n: nat, g: nat)
    requires
        n >= 1,
        g >= 1,
    ensures
        ceil_div(n, g) == ((n - 1) as int) / (g as int) + 1,
{
    let q = ((n - 1) as int) / (g as int);
    let r = ((n - 1) as int) % (g as int);
    vstd::arithmetic::div_mod::lemma_fundamental_div_mod((n - 1) as int, g as int);
    vstd::arithmetic::div_mod::lemma_mod_bound((n - 1) as int, g as int);
    assert(q >= 0) by (nonlinear_arith)
        requires
            n - 1 == (g as int) * q + r,
            0 <= r < g,
            g >= 1,
            n >= 1,
    ;
    assert(q * g == (g as int) * q) by (nonlinear_arith);
    assert((q + 1) * g == (g as int) * q + g) by (nonlinear_arith);
    lemma_ceil_div_exact(n, g, (q + 1) as nat);
}

/// The decision state of one writer: how much it has written, whether it has
/// closed its output, and whether it gave up on a stalled queue. Mirrors one
/// output container's lifecycle: appends only while open, one close, never a
/// second.
#[derive(Debug)]
pub struct WriterWorker {
    pub rows_written: u64,
    pub batches_written: u64,
    pub closed: bool,
    pub stalled: bool,
}

impl WriterWorker {
    /// A writer that has just acquired its admission credit and owns a fresh,
    /// empty output.
    pub fn new() -> (w: WriterWorker)
        ensures
            w.rows_written == 0,
            w.batches_written == 0,
            !w.closed,
            !w.stalled,
    {
        WriterWorker { rows_written: 0, batches_written: 0, closed: false, stalled: false }
    }

    /// A data task was dequeued: append the batch to the owned output.
    /// Appending after close is the lifecycle error `ClosedContainer` and
    /// changes nothing.
    pub fn on_batch(&mut self, rows: u64) -> (r: Result<(), EngineError>)
        requires
            old(self).rows_written + rows <= u64::MAX,
            old(self).batches_written + 1 <= u64::MAX,
        ensures
            final(self).closed == old(self).closed,
            final(self).stalled == old(self).stalled,
            old(self).closed ==> (r matches Err(EngineError::ClosedContainer))
                && final(self).rows_written == old(self).rows_written
                && final(self).batches_written == old(self).batches_written,
            !old(self).closed ==> r is Ok && final(self).rows_written == old(self).rows_written
                + rows && final(self).batches_written == old(self).batches_written + 1,
    {
        if self.closed {
            return Err(EngineError::ClosedContainer);
        }
        self.rows_written = self.rows_written + rows;
        self.batches_written = self.batches_written + 1;
        Ok(())
    }

    /// The writer's termination signal was dequeued: flush and close, exactly
    /// once. A second termination is the lifecycle error `ClosedContainer`.
    pub fn on_termination(&mut self) -> (r: Result<(), EngineError>)
        ensures
            final(self).rows_written == old(self).rows_written,
            final(self).batches_written == old(self).batches_written,
            final(self).stalled == old(self).stalled,
            final(self).closed,
            old(self).closed ==> r matches Err(EngineError::ClosedContainer),
            !old(self).closed ==> r is Ok,
    {
        if self.closed {
            return Err(EngineError::ClosedContainer);
        }
        self.closed = true;
        Ok(())
    }

    /// The wait on the shared queue timed out: close the (possibly partial)
    /// output rather than block forever, and report `WorkerStalled`. The
    /// output must not be treated as complete.
    pub fn on_timeout(&mut self) -> (r: EngineError)
        ensures
            final(self).rows_written == old(self).rows_written,
            final(self).batches_written == old(self).batches_written,
            final(self).closed,
            old(self).closed ==> (r matches EngineError::ClosedContainer) && final(self).stalled
                == old(self).stalled,
            !old(self).closed ==> (r matches EngineError::WorkerStalled) && final(self).stalled,
    {
        if self.closed {
            return EngineError::ClosedContainer;
        }
        self.closed = true;
        self.stalled = true;
        EngineError::WorkerStalled
    }
}

/// One entry of the shared queue: a decoded batch of so many rows, or the
/// termination signal.
pub enum TaskModel {
    Batch(nat),
    Term,
}

/// The modelled state of one writer.
pub struct WorkerModel {
    pub started: bool,
    pub closed: bool,
    pub rows: nat,
    pub terms: nat,
}

/// The modelled state of the whole pipeline: the batches the reader has not
/// yet enqueued, the shared queue, the termination signals still owed, the
/// writers, and the free admission credits.
pub struct DispatchModel {
    pub pending: Seq<nat>,
    pub queue: Seq<TaskModel>,
    pub terms_left: nat,
    pub workers: Seq<WorkerModel>,
    pub credits: nat,
}

/// The fixed shape of one run: how many outputs were planned, the parallelism
/// budget, and the queue capacity.
pub struct DispatchConfig {
    pub outputs: nat,
    pub jobs: nat,
    pub capacity: nat,
}

pub open spec fn task_rows(t: TaskModel) -> nat {
    match t {
        TaskModel::Batch(r) => r,
        TaskModel::Term => 0,
    }
}

pub open spec fn task_is_term(t: TaskModel) -> nat {
    match t {
        TaskModel::Batch(_) => 0,
        TaskModel::Term => 1,
    }
}

pub open spec fn seq_sum(s: Seq<nat>) -> nat
    decreases s.len(),
{
    if s.len() == 0 {
        0
    } else {
        s.first() + seq_sum(s.drop_first())
    }
}

pub open spec fn queue_rows(q: Seq<TaskModel>) -> nat
    decreases q.len(),
{
    if q.len() == 0 {
        0
    } else {
        task_rows(q.first()) + queue_rows(q.drop_first())
    }
}

pub open spec fn queue_terms(q: Seq<TaskModel>) -> nat
    decreases q.len(),
{
    if q.len() == 0 {
        0
    } else {
        task_is_term(q.first()) + queue_terms(q.drop_first())
    }
}

pub open spec fn workers_rows(ws: Seq<WorkerModel>) -> nat
    decreases ws.len(),
{
    if ws.len() == 0 {
        0
    } else {
        workers_rows(ws.drop_last()) + ws.last().rows
    }
}

pub open spec fn workers_closed(ws: Seq<WorkerModel>) -> nat
    decreases ws.len(),
{
    if ws.len() == 0 {
        0
    } else {
        workers_closed(ws.drop_last()) + if ws.last().closed {
            1nat
        } else {
            0nat
        }
    }
}

pub open spec fn workers_active(ws: Seq<WorkerModel>) -> nat
    decreases ws.len(),
{
    if ws.len() == 0 {
        0
    } else {
        workers_active(ws.drop_last()) + if ws.last().started && !ws.last().closed {
            1nat
        } else {
            0nat
        }
    }
}

/// The planned batches, handed to the model: feeding the reader the batch
/// plan makes the model's total the plan's total, so conservation speaks of
/// the source's row count.
pub proof fn lemma_planned_batches_total(s: Seq<u64>)
    ensures
        seq_sum(s.map_values(|b: u64| b as nat)) == crate::batch::sum_batches(s),
    decreases s.len(),
{
    let mapped = s.map_values(|b: u64| b as nat);
    if s.len() == 0 {
    } else {
        lemma_planned_batches_total(s.drop_last());
        assert(mapped =~= s.drop_last().map_values(|b: u64| b as nat).push(s.last() as nat));
        lemma_seq_sum_push(s.drop_last().map_values(|b: u64| b as nat), s.last() as nat);
    }
}

/// The starting state: nothing enqueued, one termination signal owed per
/// planned output, one idle writer per planned output, all credits free.
pub open spec fn dispatch_init(
    m: DispatchModel,
    batches: Seq<nat>,
    cfg: DispatchConfig,
) -> bool {
    &&& m.pending == batches
    &&& m.queue == Seq::<TaskModel>::empty()
    &&& m.terms_left == cfg.outputs
    &&& m.workers.len() == cfg.outputs
    &&& forall|i: int| 0 <= i < m.workers.len() ==> #[trigger] m.workers[i] == WorkerModel {
        started: false,
        closed: false,
        rows: 0,
        terms: 0,
    }
    &&& m.credits == cfg.jobs
}

/// The reader enqueues the next batch; it blocks instead while the queue is
/// full.
pub open spec fn step_enqueue_batch(
    m1: DispatchModel,
    m2: DispatchModel,
    cfg: DispatchConfig,
) -> bool {
    &&& m1.pending.len() > 0
    &&& m1.queue.len() < cfg.capacity
    &&& m2 == DispatchModel {
        pending: m1.pending.drop_first(),
        queue: m1.queue.push(TaskModel::Batch(m1.pending.first())),
        ..m1
    }
}

/// The source is exhausted: the reader enqueues one of the owed termination
/// signals.
pub open spec fn step_enqueue_term(
    m1: DispatchModel,
    m2: DispatchModel,
    cfg: DispatchConfig,
) -> bool {
    &&& m1.pending.len() == 0
    &&& m1.terms_left > 0
    &&& m1.queue.len() < cfg.capacity
    &&& m2 == DispatchModel {
        queue: m1.queue.push(TaskModel::Term),
        terms_left: (m1.terms_left - 1) as nat,
        ..m1
    }
}

/// An idle writer acquires a credit and starts consuming.
pub open spec fn step_start_worker(
    m1: DispatchModel,
    m2: DispatchModel,
    cfg: DispatchConfig,
    i: int,
) -> bool {
    &&& 0 <= i < m1.workers.len()
    &&& !m1.workers[i].started
    &&& m1.credits > 0
    &&& m2 == DispatchModel {
        workers: m1.workers.update(i, WorkerModel { started: true, ..m1.workers[i] }),
        credits: (m1.credits - 1) as nat,
        ..m1
    }
}

/// A running writer dequeues a data task and appends the batch to its output.
pub open spec fn step_take_batch(
    m1: DispatchModel,
    m2: DispatchModel,
    cfg: DispatchConfig,
    i: int,
) -> bool {
    &&& 0 <= i < m1.workers.len()
    &&& m1.workers[i].started
    &&& !m1.workers[i].closed
    &&& m1.queue.len() > 0
    &&& m1.queue.first() is Batch
    &&& m2 == DispatchModel {
        queue: m1.queue.drop_first(),
        workers: m1.workers.update(
            i,
            WorkerModel {
                rows: m1.workers[i].rows + task_rows(m1.queue.first()),
                ..m1.workers[i]
            },
        ),
        ..m1
    }
}

/// A running writer dequeues a termination signal, closes its output once and
/// for all, and returns its credit.
pub open spec fn step_take_term(
    m1: DispatchModel,
    m2: DispatchModel,
    cfg: DispatchConfig,
    i: int,
) -> bool {
    &&& 0 <= i < m1.workers.len()
    &&& m1.workers[i].started
    &&& !m1.workers[i].closed
    &&& m1.queue.len() > 0
    &&& m1.queue.first() is Term
    &&& m2 == DispatchModel {
        queue: m1.queue.drop_first(),
        workers: m1.workers.update(
            i,
            WorkerModel {
                closed: true,
                terms: m1.workers[i].terms + 1,
                ..m1.workers[i]
            },
        ),
        credits: m1.credits + 1,
        ..m1
    }
}

/// Any single move of the pipeline, by whichever actor the scheduler picks.
pub open spec fn dispatch_step(m1: DispatchModel, m2: DispatchModel, cfg: DispatchConfig) -> bool {
    ||| step_enqueue_batch(m1, m2, cfg)
    ||| step_enqueue_term(m1, m2, cfg)
    ||| exists|i: int| step_start_worker(m1, m2, cfg, i)
    ||| exists|i: int| step_take_batch(m1, m2, cfg, i)
    ||| exists|i: int| step_take_term(m1, m2, cfg, i)
}

/// The pipeline invariant.
///
/// Rows are conserved: what the reader still holds, what sits in the queue
/// and what the writers have written always add up to the source's total.
/// Terminations are conserved: signals still owed, signals in flight and
/// writers already closed always add up to the planned output count, each
/// writer sees at most one, and a writer is closed exactly when it has seen
/// one. Credits are conserved: free credits plus running writers equal the
/// parallelism budget. The queue never exceeds its capacity.
pub open spec fn dispatch_inv(m: DispatchModel, batches: Seq<nat>, cfg: DispatchConfig) -> bool {
    &&& m.workers.len() == cfg.outputs
    &&& seq_sum(m.pending) + queue_rows(m.queue) + workers_rows(m.workers) == seq_sum(batches)
    &&& m.terms_left + queue_terms(m.queue) + workers_closed(m.workers) == cfg.outputs
    &&& forall|i: int| 0 <= i < m.workers.len() ==> (#[trigger] m.workers[i]).terms <= 1
    &&& forall|i: int| 0 <= i < m.workers.len() ==> ((#[trigger] m.workers[i]).closed <==> m.workers[i].terms == 1)
    &&& forall|i: int| 0 <= i < m.workers.len() ==> ((#[trigger] m.workers[i]).closed ==> m.workers[i].started)
    &&& m.credits + workers_active(m.workers) == cfg.jobs
    &&& m.queue.len() <= cfg.capacity
}

proof fn lemma_seq_sum_push(s: Seq<nat>, x: nat)
    ensures
        seq_sum(s.push(x)) == seq_sum(s) + x,
    decreases s.len(),
{
    if s.len() == 0 {
        assert(s.push(x).first() == x);
        assert(s.push(x).drop_first() =~= Seq::<nat>::empty());
        assert(seq_sum(s.push(x)) == x + seq_sum(s.push(x).drop_first()));
    } else {
        assert(s.push(x).first() == s.first());
        assert(s.push(x).drop_first() =~= s.drop_first().push(x));
        lemma_seq_sum_push(s.drop_first(), x);
        assert(seq_sum(s.push(x)) == s.first() + seq_sum(s.push(x).drop_first()));
        assert(seq_sum(s) == s.first() + seq_sum(s.drop_first()));
    }
}

proof fn lemma_queue_push(q: Seq<TaskModel>, t: TaskModel)
    ensures
        queue_rows(q.push(t)) == queue_rows(q) + task_rows(t),
        queue_terms(q.push(t)) == queue_terms(q) + task_is_term(t),
    decreases q.len(),
{
    if q.len() == 0 {
        assert(q.push(t).first() == t);
        assert(q.push(t).drop_first() =~= Seq::<TaskModel>::empty());
        assert(queue_rows(q) == 0);
        assert(queue_rows(q.push(t).drop_first()) == 0);
        assert(queue_rows(q.push(t)) == task_rows(t) + queue_rows(q.push(t).drop_first()));
        assert(queue_terms(q) == 0);
        assert(queue_terms(q.push(t).drop_first()) == 0);
        assert(queue_terms(q.push(t)) == task_is_term(t) + queue_terms(q.push(t).drop_first()));
    } else {
        assert(q.push(t).first() == q.first());
        assert(q.push(t).drop_first() =~= q.drop_first().push(t));
        lemma_queue_push(q.drop_first(), t);
        assert(queue_rows(q.push(t)) == task_rows(q.first()) + queue_rows(q.push(t).drop_first()));
        assert(queue_rows(q) == task_rows(q.first()) + queue_rows(q.drop_first()));
        assert(queue_terms(q.push(t)) == task_is_term(q.first()) + queue_terms(
            q.push(t).drop_first(),
        ));
        assert(queue_terms(q) == task_is_term(q.first()) + queue_terms(q.drop_first()));
    }
}

proof fn lemma_workers_update(ws: Seq<WorkerModel>, i: int, w: WorkerModel)
    requires
        0 <= i < ws.len(),
    ensures
        workers_rows(ws.update(i, w)) + ws[i].rows == workers_rows(ws) + w.rows,
        workers_closed(ws.update(i, w)) + if ws[i].closed {
            1nat
        } else {
            0nat
        } == workers_closed(ws) + if w.closed {
            1nat
        } else {
            0nat
        },
        workers_active(ws.update(i, w)) + if ws[i].started && !ws[i].closed {
            1nat
        } else {
            0nat
        } == workers_active(ws) + if w.started && !w.closed {
            1nat
        } else {
            0nat
        },
    decreases ws.len(),
{
    if i == ws.len() - 1 {
        assert(ws.update(i, w).drop_last() =~= ws.drop_last());
        assert(ws.update(i, w).last() == w);
    } else {
        assert(ws.update(i, w).drop_last() =~= ws.drop_last().update(i, w));
        assert(ws.update(i, w).last() == ws.last());
        lemma_workers_update(ws.drop_last(), i, w);
    }
}

/// The starting state satisfies the invariant.
pub proof fn lemma_dispatch_init(m: DispatchModel, batches: Seq<nat>, cfg: DispatchConfig)
    requires
        dispatch_init(m, batches, cfg),
    ensures
        dispatch_inv(m, batches, cfg),
{
    lemma_workers_all_idle(m.workers);
}

proof fn lemma_workers_all_idle(ws: Seq<WorkerModel>)
    requires
        forall|i: int| 0 <= i < ws.len() ==> (#[trigger] ws[i] == WorkerModel {
            started: false,
            closed: false,
            rows: 0,
            terms: 0,
        }),
    ensures
        workers_rows(ws) == 0,
        workers_closed(ws) == 0,
        workers_active(ws) == 0,
    decreases ws.len(),
{
    if ws.len() > 0 {
        lemma_workers_all_idle(ws.drop_last());
    }
}

/// Every move of every actor preserves the invariant, whatever the
/// interleaving.
pub proof fn lemma_dispatch_step(
    m1: DispatchModel,
    m2: DispatchModel,
    batches: Seq<nat>,
    cfg: DispatchConfig,
)
    requires
        dispatch_inv(m1, batches, cfg),
        dispatch_step(m1, m2, cfg),
    ensures
        dispatch_inv(m2, batches, cfg),
{
    if step_enqueue_batch(m1, m2, cfg) {
        assert(m1.pending =~= seq![m1.pending.first()].add(m1.pending.drop_first()));
        assert(seq_sum(m1.pending) == m1.pending.first() + seq_sum(m1.pending.drop_first()));
        lemma_queue_push(m1.queue, TaskModel::Batch(m1.pending.first()));
    } else if step_enqueue_term(m1, m2, cfg) {
        lemma_queue_push(m1.queue, TaskModel::Term);
    } else if exists|i: int| step_start_worker(m1, m2, cfg, i) {
        let i = choose|i: int| step_start_worker(m1, m2, cfg, i);
        lemma_workers_update(m1.workers, i, WorkerModel { started: true, ..m1.workers[i] });
    } else if exists|i: int| step_take_batch(m1, m2, cfg, i) {
        let i = choose|i: int| step_take_batch(m1, m2, cfg, i);
        lemma_workers_update(
            m1.workers,
            i,
            WorkerModel { rows: m1.workers[i].rows + task_rows(m1.queue.first()), ..m1.workers[i] },
        );
    } else {
        let i = choose|i: int| step_take_term(m1, m2, cfg, i);
        lemma_workers_update(
            m1.workers,
            i,
            WorkerModel { closed: true, terms: m1.workers[i].terms + 1, ..m1.workers[i] },
        );
    }
}

/// A run of the pipeline: a sequence of states each reached from its
/// predecessor — the first from `m0` — by one step of some actor.
pub open spec fn dispatch_run(m0: DispatchModel, ms: Seq<DispatchModel>, cfg: DispatchConfig) -> bool {
    forall|k: int| 0 <= k < ms.len() ==> dispatch_step(
        if k == 0 {
            m0
        } else {
            ms[k - 1]
        },
        #[trigger] ms[k],
        cfg,
    )
}

/// Every state of every run from the starting state satisfies the invariant:
/// the conservation and termination lemmas below hold of every reachable
/// state.
pub proof fn lemma_dispatch_run_inv(
    m0: DispatchModel,
    ms: Seq<DispatchModel>,
    batches: Seq<nat>,
    cfg: DispatchConfig,
)
    requires
        dispatch_init(m0, batches, cfg),
        dispatch_run(m0, ms, cfg),
    ensures
        forall|k: int| 0 <= k < ms.len() ==> dispatch_inv(#[trigger] ms[k], batches, cfg),
{
    assert forall|k: int| 0 <= k < ms.len() implies dispatch_inv(
        #[trigger] ms[k],
        batches,
        cfg,
    ) by {
        lemma_dispatch_run_inv_at(m0, ms, batches, cfg, k);
    }
}

proof fn lemma_dispatch_run_inv_at(
    m0: DispatchModel,
    ms: Seq<DispatchModel>,
    batches: Seq<nat>,
    cfg: DispatchConfig,
    k: int,
)
    requires
        dispatch_init(m0, batches, cfg),
        dispatch_run(m0, ms, cfg),
        0 <= k < ms.len(),
    ensures
        dispatch_inv(ms[k], batches, cfg),
    decreases k,
{
    if k == 0 {
        lemma_dispatch_init(m0, batches, cfg);
        assert(dispatch_step(m0, ms[0], cfg));
        lemma_dispatch_step(m0, ms[0], batches, cfg);
    } else {
        lemma_dispatch_run_inv_at(m0, ms, batches, cfg, k - 1);
        assert(dispatch_step(ms[k - 1], ms[k], cfg));
        lemma_dispatch_step(ms[k - 1], ms[k], batches, cfg);
    }
}

/// Repartition conservation: in any reachable state in which the reader has
/// nothing left and the queue has drained — however the batches were
/// interleaved among the writers, and for any jobs and capacity — the row
/// counts accumulated across all writers add up exactly to the source's total
/// row count.
pub proof fn lemma_dispatch_conservation(m: DispatchModel, batches: Seq<nat>, cfg: DispatchConfig)
    requires
        dispatch_inv(m, batches, cfg),
        m.pending.len() == 0,
        m.queue.len() == 0,
    ensures
        workers_rows(m.workers) == seq_sum(batches),
{
}

/// Termination correctness: in any reachable state in which all owed
/// termination signals have been sent and consumed — even when the planned
/// output count exceeds the parallelism budget — every one of the planned
/// writers has received exactly one termination signal and has closed exactly
/// once.
pub proof fn lemma_dispatch_termination(m: DispatchModel, batches: Seq<nat>, cfg: DispatchConfig)
    requires
        dispatch_inv(m, batches, cfg),
        m.terms_left == 0,
        m.queue.len() == 0,
    ensures
        forall|i: int| 0 <= i < m.workers.len() ==> (#[trigger] m.workers[i]).closed
            && m.workers[i].terms == 1,
{
    lemma_workers_closed_saturated(m.workers);
}

proof fn lemma_workers_closed_saturated(ws: Seq<WorkerModel>)
    requires
        workers_closed(ws) == ws.len(),
    ensures
        forall|i: int| 0 <= i < ws.len() ==> (#[trigger] ws[i]).closed,
    decreases ws.len(),
{
    if ws.len() > 0 {
        lemma_workers_closed_bound(ws.drop_last());
        lemma_workers_closed_saturated(ws.drop_last());
        assert forall|i: int| 0 <= i < ws.len() implies (#[trigger] ws[i]).closed by {
            if i < ws.len() - 1 {
                assert(ws.drop_last()[i] == ws[i]);
            }
        }
    }
}

proof fn lemma_workers_closed_bound(ws: Seq<WorkerModel>)
    ensures
        workers_closed(ws) <= ws.len(),
    decreases ws.len(),
{
    if ws.len() > 0 {
        lemma_workers_closed_bound(ws.drop_last());
    }
}

} // verus!
