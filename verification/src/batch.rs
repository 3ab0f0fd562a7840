//! The batch source of the decode/re-encode path.
//!
//! Re-sharding a container decodes it into an ordered, finite sequence of row
//! batches of a configured size, consumed through a single-pass forward
//! cursor: consuming advances the position irreversibly, and a decode failure
//! ends the sequence early instead of being skipped.

use vstd::prelude::*;

use crate::error::EngineError;

verus! {

/// The total row count of a sequence of batch sizes.
pub open spec fn sum_batches(s: Seq<u64>) -> int
    decreases s.len(),
{
    if s.len() == 0 {
        0
    } else {
        sum_batches(s.drop_last()) + s.last()
    }
}

/// Cut a total row count into ordered batches of the configured size: every
/// batch holds exactly `batch_size` rows except possibly the last, every
/// batch is non-empty, and the batches add up to the total. A zero batch size
/// is rejected.
pub fn plan_batches(total_rows: u64, batch_size: u64) -> (r: Result<Vec<u64>, EngineError>)
    ensures
        batch_size == 0 <==> r is Err,
        r is Err ==> r matches Err(EngineError::InvalidConfig),
        r matches Ok(v) ==> ({
            &&& sum_batches(v@) == total_rows
            &&& forall|k: int| 0 <= k < v@.len() ==> 1 <= #[trigger] v@[k] <= batch_size
            &&& forall|k: int| 0 <= k < v@.len() - 1 ==> #[trigger] v@[k] == batch_size
        }),
{
    if batch_size == 0 {
        return Err(EngineError::InvalidConfig);
    }
    let mut v: Vec<u64> = Vec::new();
    let mut remaining = total_rows;
    while remaining > 0
        invariant
            batch_size >= 1,
            remaining <= total_rows,
            sum_batches(v@) == total_rows - remaining,
            remaining > 0 ==> forall|k: int| 0 <= k < v@.len() ==> #[trigger] v@[k] == batch_size,
            forall|k: int| 0 <= k < v@.len() ==> 1 <= #[trigger] v@[k] <= batch_size,
            forall|k: int| 0 <= k < v@.len() - 1 ==> #[trigger] v@[k] == batch_size,
        decreases remaining,
    {
        let b = if remaining < batch_size {
            remaining
        } else {
            batch_size
        };
        let ghost pre = v@;
        v.push(b);
        proof {
            assert(v@.drop_last() =~= pre);
        }
        remaining = remaining - b;
    }
    Ok(v)
}

/// A lazy, finite, non-restartable sequence of decoded batches, identified by
/// their row counts: a single-pass forward cursor over the planned batches.
#[derive(Debug)]
pub struct BatchCursor {
    pub batches: Vec<u64>,
    pub pos: usize,
    pub failed: bool,
}

impl BatchCursor {
    pub open spec fn wf(self) -> bool {
        self.pos <= self.batches@.len()
    }

    /// The batches not yet consumed, in order.
    pub open spec fn remaining(self) -> Seq<u64> {
        self.batches@.subrange(self.pos as int, self.batches@.len() as int)
    }

    pub fn new(batches: Vec<u64>) -> (c: BatchCursor)
        ensures
            c.wf(),
            !c.failed,
            c.remaining() == batches@,
    {
        let c = BatchCursor { batches, pos: 0, failed: false };
        proof {
            assert(c.remaining() =~= c.batches@);
        }
        c
    }

    /// Advance the cursor by one batch. Once the cursor has failed or run
    /// out, it yields nothing, ever again: consumption is irreversible.
    pub fn next(&mut self) -> (r: Option<u64>)
        requires
            old(self).wf(),
        ensures
            final(self).wf(),
            final(self).failed == old(self).failed,
            old(self).failed || old(self).remaining().len() == 0 ==> r is None
                && final(self).remaining() == old(self).remaining(),
            !old(self).failed && old(self).remaining().len() > 0 ==> r == Some(
                old(self).remaining().first(),
            ) && final(self).remaining() == old(self).remaining().drop_first(),
    {
        if self.failed || self.pos == self.batches.len() {
            return None;
        }
        let b = self.batches[self.pos];
        self.pos = self.pos + 1;
        proof {
            assert(self.remaining() =~= old(self).remaining().drop_first());
        }
        Some(b)
    }

    /// A batch failed to decode: the sequence terminates early, and the
    /// failure is the caller's to surface.
    pub fn mark_failed(&mut self)
        requires
            old(self).wf(),
        ensures
            final(self).wf(),
            final(self).failed,
            final(self).remaining() == old(self).remaining(),
    {
        self.failed = true;
    }
}

} // verus!
