//! Bookkeeping of the bounded worker dispatch pool: a fixed set of
//! workers plus an unbounded queue of waiting tasks. The pool decides, on
//! each event, whether a task starts at once or waits; the surrounding
//! program performs the action. The invariant is that no more sessions
//! run concurrently than there are workers.

use vstd::prelude::*;

verus! {

/// What the pool decides when a task is submitted.
#[derive(PartialEq, Eq, Structural, Clone, Copy, Debug)]
pub enum SubmitAction {
    /// A worker is free: the task starts at once.
    StartNow,
    /// All workers are busy: the task waits in the queue.
    Enqueue,
}

/// What the pool decides when a running task completes.
#[derive(PartialEq, Eq, Structural, Clone, Copy, Debug)]
pub enum FinishAction {
    /// A queued task takes the freed worker at once.
    StartQueued,
    /// Nothing waits: the worker goes idle.
    WorkerIdle,
}

/// The state of the dispatch pool: how many workers exist, how many run a
/// session now, and how many accepted tasks wait for one.
pub struct Pool {
    pub worker_count: usize,
    pub busy: usize,
    pub queued: usize,
}

impl Pool {
    /// The pool's invariant: at least one worker, and never more running
    /// sessions than workers.
    pub open spec fn wf(&self) -> bool {
        &&& self.worker_count >= 1
        &&& self.busy <= self.worker_count
    }

    /// A fresh pool with a fixed worker count and nothing running.
    pub fn new(worker_count: usize) -> (p: Pool)
        requires
            worker_count >= 1,
        ensures
            p.wf(),
            p.worker_count == worker_count,
            p.busy == 0,
            p.queued == 0,
    {
        Pool { worker_count, busy: 0, queued: 0 }
    }

    /// A connection was accepted: it starts at once when a worker is
    /// free, and waits in the queue otherwise. Submitting never blocks
    /// and never exceeds the worker count.
    pub fn submit(&mut self) -> (a: SubmitAction)
        requires
            old(self).wf(),
            old(self).queued < usize::MAX,
        ensures
            final(self).wf(),
            final(self).worker_count == old(self).worker_count,
            old(self).busy < old(self).worker_count ==> {
                &&& a == SubmitAction::StartNow
                &&& final(self).busy == old(self).busy + 1
                &&& final(self).queued == old(self).queued
            },
            old(self).busy == old(self).worker_count ==> {
                &&& a == SubmitAction::Enqueue
                &&& final(self).busy == old(self).busy
                &&& final(self).queued == old(self).queued + 1
            },
    {
        if self.busy < self.worker_count {
            self.busy = self.busy + 1;
            SubmitAction::StartNow
        } else {
            self.queued = self.queued + 1;
            SubmitAction::Enqueue
        }
    }

    /// A running session ended, however it ended: the freed worker takes
    /// the oldest queued task at once if one waits, else it goes idle.
    pub fn task_finished(&mut self) -> (a: FinishAction)
        requires
            old(self).wf(),
            old(self).busy >= 1,
        ensures
            final(self).wf(),
            final(self).worker_count == old(self).worker_count,
            old(self).queued > 0 ==> {
                &&& a == FinishAction::StartQueued
                &&& final(self).busy == old(self).busy
                &&& final(self).queued == old(self).queued - 1
            },
            old(self).queued == 0 ==> {
                &&& a == FinishAction::WorkerIdle
                &&& final(self).busy == old(self).busy - 1
                &&& final(self).queued == 0
            },
    {
        if self.queued > 0 {
            self.queued = self.queued - 1;
            FinishAction::StartQueued
        } else {
            self.busy = self.busy - 1;
            FinishAction::WorkerIdle
        }
    }
}

} // verus!
