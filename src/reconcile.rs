//! The decisions of the chunked reconciliation: which slice of the dependency list is
//! upserted next, when the run is over, and what a failed batch does to it. The caller
//! performs each batch (one insert-or-touch per dependency, run concurrently) and
//! reports whether all of them succeeded.
use vstd::prelude::*;

verus! {

/// The number of dependencies upserted together in one batch.
pub const BATCH_SIZE: usize = 10;

/// Where a reconciliation run stands: `completed` dependencies of `total` have been
/// upserted, batch by batch; `failed` once a batch has failed.
#[derive(Debug, Clone, Copy, PartialEq, Eq, Structural)]
pub struct ReconcileProgress {
    pub total: usize,
    pub completed: usize,
    pub failed: bool,
}

/// What the caller does next.
#[derive(Debug, Clone, Copy, PartialEq, Eq, Structural)]
pub enum ReconcileStep {
    /// Upsert the dependencies at indices `start..end`, concurrently, and report.
    Upsert { start: usize, end: usize },
    /// Every dependency was upserted.
    Finished { upserted: usize },
    /// A batch failed; `upserted` dependencies had been upserted by earlier batches.
    Aborted { upserted: usize },
}

/// The end of the batch that starts at `start`.
pub open spec fn batch_end(start: int, total: int) -> int {
    if start + BATCH_SIZE < total {
        start + BATCH_SIZE
    } else {
        total
    }
}

/// The step that follows from a progress value.
pub open spec fn step_of(p: ReconcileProgress) -> ReconcileStep {
    if p.failed {
        ReconcileStep::Aborted { upserted: p.completed }
    } else if p.completed >= p.total {
        ReconcileStep::Finished { upserted: p.total }
    } else {
        ReconcileStep::Upsert {
            start: p.completed,
            end: batch_end(p.completed as int, p.total as int) as usize,
        }
    }
}

impl ReconcileProgress {
    pub open spec fn wf(&self) -> bool {
        self.completed <= self.total
    }

    /// A run over `total` dependencies, with nothing upserted yet.
    pub fn new(total: usize) -> (r: Self)
        ensures
            r.wf(),
            r.total == total,
            r.completed == 0,
            !r.failed,
    {
        ReconcileProgress { total, completed: 0, failed: false }
    }

    /// The next step: the next batch while dependencies remain, else the outcome.
    pub fn next_step(&self) -> (r: ReconcileStep)
        requires
            self.wf(),
        ensures
            r == step_of(*self),
    {
        if self.failed {
            ReconcileStep::Aborted { upserted: self.completed }
        } else if self.completed >= self.total {
            ReconcileStep::Finished { upserted: self.total }
        } else {
            let end = if self.total - self.completed > BATCH_SIZE {
                self.completed + BATCH_SIZE
            } else {
                self.total
            };
            ReconcileStep::Upsert { start: self.completed, end }
        }
    }

    /// Records the outcome of the batch that `next_step` asked for: on success the
    /// batch counts as upserted, on failure the run stops.
    pub fn batch_done(&mut self, all_succeeded: bool)
        requires
            old(self).wf(),
            !old(self).failed,
            old(self).completed < old(self).total,
        ensures
            final(self).wf(),
            final(self).total == old(self).total,
            all_succeeded ==> final(self).completed == batch_end(
                old(self).completed as int,
                old(self).total as int,
            ) && !final(self).failed,
            !all_succeeded ==> final(self).completed == old(self).completed && final(self).failed,
    {
        if all_succeeded {
            if self.total - self.completed > BATCH_SIZE {
                self.completed = self.completed + BATCH_SIZE;
            } else {
                self.completed = self.total;
            }
        } else {
            self.failed = true;
        }
    }
}

} // verus!
