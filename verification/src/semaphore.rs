use vstd::prelude::*;

use crate::scheduler::ops::{current_unqueued, m_block, m_unblock, spec_current_pid};
use crate::scheduler::{SchedModel, Scheduler};
use crate::waitqueue::{WaitQueue, wq_empty, wq_pop, wq_push, wq_remove};

verus! {

#[derive(Clone, Copy, Debug, PartialEq, Eq, Structural)]
pub enum SemaphoreError {
    QueueFull,
    Timeout,
    NoCurrentTask,
}

/// Outcome of one acquisition attempt: finished, or the calling task is now
/// blocked and must call `resume_acquire` once it runs again.
#[derive(Clone, Copy, Debug, PartialEq, Eq)]
pub enum SemAcquireStep {
    Done(Result<(), SemaphoreError>),
    Blocked(usize),
}

/// Counting semaphore with a fixed-size wait queue.  A token released to a
/// waiter is handed over directly (`granted`), so no other task can take it.
pub struct Semaphore<const N: usize> {
    count: u32,
    max: u32,
    waiters: WaitQueue<N>,
    granted: WaitQueue<N>,
}

pub struct SemModel {
    pub count: u32,
    pub max: u32,
    pub waiters: Seq<Option<usize>>,
    pub granted: Seq<Option<usize>>,
}

/// `release`: a waiter (first slot) is woken and handed the token (when the
/// hand-over queue is full, the count goes up instead, unless it is at its
/// maximum); with no waiter the count goes up unless it is at its maximum.
/// The result is true when a token was released or a waiter woken.
pub open spec fn m_sem_release(s: SemModel, m: SchedModel, now: u32) -> (SemModel, SchedModel, bool) {
    let (w1, popped) = wq_pop(s.waiters);
    match popped {
        Some(pid) => {
            let (g1, handed) = wq_push(s.granted, pid);
            let m1 = m_unblock(m, pid, now).0;
            if handed {
                (SemModel { waiters: w1, granted: g1, ..s }, m1, true)
            } else if s.count < s.max {
                (SemModel { waiters: w1, count: (s.count + 1) as u32, ..s }, m1, true)
            } else {
                (SemModel { waiters: w1, ..s }, m1, true)
            }
        },
        None => if s.count < s.max {
            (SemModel { count: (s.count + 1) as u32, ..s }, m, true)
        } else {
            (s, m, false)
        },
    }
}

/// First phase of `acquire` for the current task.
pub open spec fn m_sem_acquire(s: SemModel, m: SchedModel, timeout_ms: Option<u32>, now: u32) -> (
    SemModel,
    SchedModel,
    SemAcquireStep,
) {
    match spec_current_pid(m) {
        None => (s, m, SemAcquireStep::Done(Err(SemaphoreError::NoCurrentTask))),
        Some(pid) => if s.count > 0 {
            (SemModel { count: (s.count - 1) as u32, ..s }, m, SemAcquireStep::Done(Ok(())))
        } else {
            let (g1, got) = wq_remove(s.granted, pid);
            if got {
                (SemModel { granted: g1, ..s }, m, SemAcquireStep::Done(Ok(())))
            } else {
                let (w1, queued) = wq_push(s.waiters, pid);
                if !queued {
                    (s, m, SemAcquireStep::Done(Err(SemaphoreError::QueueFull)))
                } else {
                    (SemModel { waiters: w1, ..s }, m_block(m, timeout_ms, now), SemAcquireStep::Blocked(pid))
                }
            }
        },
    }
}

/// Second phase of `acquire`, once the blocked task runs again: `None` means
/// try again from the first phase.
pub open spec fn m_sem_resume(s: SemModel, pid: usize, timeout_ms: Option<u32>) -> (
    SemModel,
    Option<Result<(), SemaphoreError>>,
) {
    let (g1, got) = wq_remove(s.granted, pid);
    if got {
        (SemModel { granted: g1, ..s }, Some(Ok(())))
    } else if s.count > 0 {
        (SemModel { count: (s.count - 1) as u32, ..s }, Some(Ok(())))
    } else {
        let s1 = SemModel { waiters: wq_remove(s.waiters, pid).0, ..s };
        if timeout_ms is Some {
            (s1, Some(Err(SemaphoreError::Timeout)))
        } else {
            (s1, None)
        }
    }
}

impl<const N: usize> Semaphore<N> {
    pub closed spec fn model(&self) -> SemModel {
        SemModel { count: self.count, max: self.max, waiters: self.waiters@, granted: self.granted@ }
    }

    pub closed spec fn wf(&self) -> bool {
        self.waiters.wf() && self.granted.wf() && self.count <= self.max
    }

    /// The number of available tokens never exceeds the maximum.
    pub proof fn law_count_within_max(&self)
        requires
            self.wf(),
        ensures
            self.model().count <= self.model().max,
    {
    }

    /// A semaphore holding `initial` tokens (at most `max`).
    pub fn new(initial: u32, max: u32) -> (s: Self)
        ensures
            s.wf(),
            s.model() == (SemModel {
                count: if initial > max {
                    max
                } else {
                    initial
                },
                max,
                waiters: wq_empty(N as nat),
                granted: wq_empty(N as nat),
            }),
    {
        let init = if initial > max {
            max
        } else {
            initial
        };
        Self { count: init, max, waiters: WaitQueue::new(), granted: WaitQueue::new() }
    }

    pub fn available(&self) -> (c: u32)
        ensures
            c == self.model().count,
    {
        self.count
    }

    pub fn max(&self) -> (c: u32)
        ensures
            c == self.model().max,
    {
        self.max
    }

    /// Take a token if one is available.
    pub fn try_acquire(&mut self) -> (ok: bool)
        requires
            old(self).wf(),
        ensures
            final(self).wf(),
            ok == (old(self).model().count > 0),
            final(self).model() == (if ok {
                SemModel { count: (old(self).model().count - 1) as u32, ..old(self).model() }
            } else {
                old(self).model()
            }),
    {
        if self.count > 0 {
            self.count = self.count - 1;
            true
        } else {
            false
        }
    }

    /// Release a token.  Returns true if a token was released or a waiter
    /// was woken.
    pub fn release(&mut self, sched: &mut Scheduler, now: u32) -> (released: bool)
        requires
            old(self).wf(),
            old(sched).wf(),
        ensures
            final(self).wf(),
            final(sched).wf(),
            (final(self).model(), final(sched)@, released) == m_sem_release(
                old(self).model(),
                old(sched)@,
                now,
            ),
    {
        let mut released = false;
        match self.waiters.pop() {
            Some(pid) => {
                if self.granted.push(pid) {
                    released = true;
                } else {
                    if self.count < self.max {
                        self.count = self.count + 1;
                    }
                    released = true;
                }
                let _ = sched.unblock(pid, now);
            },
            None => {
                if self.count < self.max {
                    self.count = self.count + 1;
                    released = true;
                }
            },
        }
        released
    }

    /// First phase of a blocking acquire by the current task.
    pub fn acquire(&mut self, sched: &mut Scheduler, timeout_ms: Option<u32>, now: u32) -> (step: SemAcquireStep)
        requires
            old(self).wf(),
            old(sched).wf(),
            current_unqueued(old(sched)@),
        ensures
            final(self).wf(),
            final(sched).wf(),
            (final(self).model(), final(sched)@, step) == m_sem_acquire(
                old(self).model(),
                old(sched)@,
                timeout_ms,
                now,
            ),
    {
        let pid = match sched.current_pid() {
            Some(pid) => pid,
            None => {
                return SemAcquireStep::Done(Err(SemaphoreError::NoCurrentTask));
            },
        };
        if self.count > 0 {
            self.count = self.count - 1;
            return SemAcquireStep::Done(Ok(()));
        }
        if self.granted.remove(pid) {
            return SemAcquireStep::Done(Ok(()));
        }
        if !self.waiters.push(pid) {
            return SemAcquireStep::Done(Err(SemaphoreError::QueueFull));
        }
        sched.block_current(timeout_ms, now);
        SemAcquireStep::Blocked(pid)
    }

    /// Second phase of a blocking acquire, after the task `pid` was woken or
    /// timed out.  `None` means start over with `acquire`.
    pub fn resume_acquire(&mut self, pid: usize, timeout_ms: Option<u32>) -> (r: Option<
        Result<(), SemaphoreError>,
    >)
        requires
            old(self).wf(),
        ensures
            final(self).wf(),
            (final(self).model(), r) == m_sem_resume(old(self).model(), pid, timeout_ms),
    {
        if self.granted.remove(pid) {
            return Some(Ok(()));
        }
        if self.count > 0 {
            self.count = self.count - 1;
            return Some(Ok(()));
        }
        let _ = self.waiters.remove(pid);
        if timeout_ms.is_some() {
            Some(Err(SemaphoreError::Timeout))
        } else {
            None
        }
    }
}

} // verus!
