//! The executable heart of the worker pool: the shared record the pool's
//! lock guards, the transitions a lock holder may perform on it, and the
//! phase tracker that rejects a second start or a post to a stopped pool.
//!
//! The thread plumbing around these transitions (the mutex, the condition
//! variable, spawning and joining) lives outside the library; each of its
//! decisions is one call here, made while the lock is held.

use vstd::prelude::*;
use crate::model::{PoolModel, PoolEvent, apply_event};

verus! {

/// The record every worker and the pool handle share: the tasks awaiting
/// execution, newest last, and the stop flag. The flag is monotonic: no
/// transition here resets it.
pub struct SharedState<T> {
    pending: Vec<T>,
    stopping: bool,
}

impl<T> View for SharedState<T> {
    type V = PoolModel<T>;

    closed spec fn view(&self) -> PoolModel<T> {
        PoolModel { pending: self.pending@, stopping: self.stopping }
    }
}

/// What a worker holding the lock must do next: wait for a signal, run a
/// task it now owns, or exit its loop for good.
pub enum WorkerStep<T> {
    Wait,
    Run(T),
    Exit,
}

impl<T> SharedState<T> {
    /// A fresh record: nothing pending, not stopping.
    pub fn new() -> (s: Self)
        ensures
            s@.pending == Seq::<T>::empty(),
            !s@.stopping,
    {
        SharedState { pending: Vec::new(), stopping: false }
    }

    /// Whether shutdown has been requested.
    pub fn is_stopping(&self) -> (r: bool)
        ensures
            r == self@.stopping,
    {
        self.stopping
    }

    /// How many tasks await a worker.
    pub fn pending_count(&self) -> (n: usize)
        ensures
            n == self@.pending.len(),
    {
        self.pending.len()
    }

    /// Whether a worker holding the lock must block on the condition
    /// variable: there is nothing to run and no shutdown yet.
    pub fn must_wait(&self) -> (r: bool)
        ensures
            r == (self@.pending.len() == 0 && !self@.stopping),
    {
        self.pending.is_empty() && !self.stopping
    }

    /// A submission, as performed under the lock: while the pool is not
    /// stopping the task is appended and will be run; once it is stopping
    /// the task is discarded silently and the record is left untouched.
    /// Returns whether the task was kept, which tells the caller whether
    /// one waiting worker should be signalled.
    pub fn enqueue(&mut self, task: T) -> (kept: bool)
        ensures
            kept == !old(self)@.stopping,
            final(self)@ == apply_event(old(self)@, PoolEvent::Post(task)),
            kept ==> final(self)@.pending == old(self)@.pending.push(task),
            !kept ==> final(self)@ == old(self)@,
    {
        if self.stopping {
            false
        } else {
            self.pending.push(task);
            true
        }
    }

    /// The worker's decision, made while holding the lock: take the newest
    /// pending task and run it; with nothing pending, exit if the pool is
    /// stopping, otherwise wait. Exiting is thus possible only once the
    /// queue has drained, and a taken task leaves the record before the
    /// lock is released, so no other worker can take it again.
    pub fn next_step(&mut self) -> (step: WorkerStep<T>)
        ensures
            final(self)@ == apply_event(old(self)@, PoolEvent::<T>::Take),
            old(self)@.pending.len() > 0 ==> step == WorkerStep::Run(old(self)@.pending.last())
                && final(self)@.pending == old(self)@.pending.drop_last(),
            old(self)@.pending.len() == 0 && old(self)@.stopping ==> step == WorkerStep::<T>::Exit,
            old(self)@.pending.len() == 0 && !old(self)@.stopping ==> step == WorkerStep::<T>::Wait,
            final(self)@.stopping == old(self)@.stopping,
    {
        let taken = self.pending.pop();
        match taken {
            Some(task) => {
                proof {
                    assert(old(self)@.pending.drop_last() =~= old(self)@.pending.subrange(
                        0,
                        old(self)@.pending.len() - 1,
                    ));
                }
                WorkerStep::Run(task)
            },
            None => {
                if self.stopping {
                    WorkerStep::Exit
                } else {
                    WorkerStep::Wait
                }
            },
        }
    }

    /// Shutdown, as performed under the lock: the stop flag is set and the
    /// pending tasks are left in place for the workers to drain. The
    /// caller then wakes every waiting worker, so each re-checks its exit
    /// condition, and joins their threads.
    pub fn request_stop(&mut self)
        ensures
            final(self)@ == apply_event(old(self)@, PoolEvent::<T>::Stop),
            final(self)@.stopping,
            final(self)@.pending == old(self)@.pending,
    {
        self.stopping = true;
    }
}

/// The delay of a timed submission, in milliseconds: a negative request is
/// clamped to zero, anything else is kept as it is. The submitted task is
/// wrapped so that the worker that takes it first sleeps this long and
/// only then runs the task, occupying its execution slot for the whole
/// delay.
pub fn clamp_delay(delay_ms: i32) -> (delay: u64)
    ensures
        delay == if delay_ms < 0 {
            0
        } else {
            delay_ms as u64
        },
{
    if delay_ms < 0 {
        0
    } else {
        delay_ms as u64
    }
}

/// Where a pool stands in its life: built but not yet started, running,
/// or stopped for good.
#[derive(Clone, Copy, Debug, PartialEq, Eq, Structural)]
pub enum Phase {
    Idle,
    Running,
    Stopped,
}

/// The pool's phase tracker. The pool owns one of these beside its worker
/// threads; it makes starting twice, or stopping what never ran, a checked
/// error instead of silent misbehaviour, and it remembers how many worker
/// threads a start must spawn.
pub struct Lifecycle {
    phase: Phase,
    worker_count: usize,
}

impl Lifecycle {
    /// A pool begins idle, with no threads running.
    pub fn new(worker_count: usize) -> (c: Self)
        ensures
            c.phase() == Phase::Idle,
            c.worker_count() == worker_count,
    {
        Lifecycle { phase: Phase::Idle, worker_count }
    }

    /// The current phase.
    pub closed spec fn phase(&self) -> Phase {
        self.phase
    }

    /// How many worker threads a start spawns.
    pub closed spec fn worker_count(&self) -> usize {
        self.worker_count
    }

    /// The number of threads to spawn, for the loop that starts them.
    pub fn threads_to_spawn(&self) -> (n: usize)
        ensures
            n == self.worker_count(),
    {
        self.worker_count
    }

    /// Starting is allowed exactly once, from the idle phase; a second
    /// start is refused and changes nothing.
    pub fn begin_start(&mut self) -> (ok: bool)
        ensures
            ok == (old(self).phase() == Phase::Idle),
            ok ==> final(self).phase() == Phase::Running,
            !ok ==> final(self).phase() == old(self).phase(),
            final(self).worker_count() == old(self).worker_count(),
    {
        if self.phase == Phase::Idle {
            self.phase = Phase::Running;
            true
        } else {
            false
        }
    }

    /// Stopping is allowed exactly once, from the running phase; stopping
    /// a pool that never started, or twice, is refused and changes
    /// nothing.
    pub fn begin_stop(&mut self) -> (ok: bool)
        ensures
            ok == (old(self).phase() == Phase::Running),
            ok ==> final(self).phase() == Phase::Stopped,
            !ok ==> final(self).phase() == old(self).phase(),
            final(self).worker_count() == old(self).worker_count(),
    {
        if self.phase == Phase::Running {
            self.phase = Phase::Stopped;
            true
        } else {
            false
        }
    }
}

} // verus!
