use vstd::prelude::*;

use crate::scheduler::ops::{
    current_unqueued, m_add_boost, m_block, m_remove_boost, m_unblock, spec_current_pid,
    spec_task_priority,
};
use crate::scheduler::{SchedModel, Scheduler};
use crate::waitqueue::{WaitQueue, occupants, wq_empty, wq_pop_highest, wq_push, wq_remove};

verus! {

#[derive(Clone, Copy, Debug, PartialEq, Eq, Structural)]
pub enum MutexError {
    QueueFull,
    Timeout,
    NoCurrentTask,
    NotOwner,
    WouldDeadlock,
}

/// Outcome of one lock attempt: finished, or the calling task (with its
/// priority when it asked) is now blocked and must call `resume_acquire`.
#[derive(Clone, Copy, Debug, PartialEq, Eq)]
pub enum MutexAcquireStep {
    Done(Result<(), MutexError>),
    Blocked(usize, u8),
}

/// Blocking, non-recursive mutex with a fixed-size wait queue and priority
/// inheritance: the owner is boosted to the priority of each waiter.
pub struct BlockingMutex<T, const N: usize> {
    owner: Option<usize>,
    value: T,
    waiters: WaitQueue<N>,
}

pub struct MutexModel {
    pub owner: Option<usize>,
    pub waiters: Seq<Option<usize>>,
}

/// Boost `owner` once for each waiter, at that waiter's current priority.
pub open spec fn m_add_boosts(m: SchedModel, owner: usize, ws: Seq<usize>, now: u32) -> SchedModel
    decreases ws.len(),
{
    if ws.len() == 0 {
        m
    } else {
        let m1 = match spec_task_priority(m, ws[0]) {
            Some(p) => m_add_boost(m, owner, p, now).0,
            None => m,
        };
        m_add_boosts(m1, owner, ws.drop_first(), now)
    }
}

/// Take from `owner` the boost of each waiter, at that waiter's current
/// priority.
pub open spec fn m_remove_boosts(m: SchedModel, owner: usize, ws: Seq<usize>, now: u32) -> SchedModel
    decreases ws.len(),
{
    if ws.len() == 0 {
        m
    } else {
        let m1 = match spec_task_priority(m, ws[0]) {
            Some(p) => m_remove_boost(m, owner, p, now).0,
            None => m,
        };
        m_remove_boosts(m1, owner, ws.drop_first(), now)
    }
}

/// First phase of `acquire` for the current task.
pub open spec fn m_mutex_acquire(s: MutexModel, m: SchedModel, timeout_ms: Option<u32>, now: u32) -> (
    MutexModel,
    SchedModel,
    MutexAcquireStep,
) {
    match spec_current_pid(m) {
        None => (s, m, MutexAcquireStep::Done(Err(MutexError::NoCurrentTask))),
        Some(pid) => match spec_task_priority(m, pid) {
            None => (s, m, MutexAcquireStep::Done(Err(MutexError::NoCurrentTask))),
            Some(prio) => match s.owner {
                None => (MutexModel { owner: Some(pid), ..s }, m, MutexAcquireStep::Done(Ok(()))),
                Some(owner) => if owner == pid {
                    (s, m, MutexAcquireStep::Done(Err(MutexError::WouldDeadlock)))
                } else {
                    let (w1, queued) = if s.waiters.contains(Some(pid)) {
                        (s.waiters, true)
                    } else {
                        wq_push(s.waiters, pid)
                    };
                    if !queued {
                        (s, m, MutexAcquireStep::Done(Err(MutexError::QueueFull)))
                    } else {
                        let m1 = m_add_boost(m, owner, prio, now).0;
                        (
                            MutexModel { waiters: w1, ..s },
                            m_block(m1, timeout_ms, now),
                            MutexAcquireStep::Blocked(pid, prio),
                        )
                    }
                }
            },
        },
    }
}

/// Second phase of `acquire`, once the blocked task runs again: `None`
/// means try again from the first phase.
pub open spec fn m_mutex_resume(
    s: MutexModel,
    m: SchedModel,
    pid: usize,
    prio: u8,
    timeout_ms: Option<u32>,
    now: u32,
) -> (MutexModel, SchedModel, Option<Result<(), MutexError>>) {
    if s.owner == Some(pid) {
        (s, m, Some(Ok(())))
    } else {
        let (w1, removed) = wq_remove(s.waiters, pid);
        let m1 = if removed && s.owner is Some {
            m_remove_boost(m, s.owner->0, prio, now).0
        } else {
            m
        };
        let s1 = MutexModel { waiters: w1, ..s };
        if removed && timeout_ms is Some {
            (s1, m1, Some(Err(MutexError::Timeout)))
        } else {
            (s1, m1, None)
        }
    }
}

/// `release` by the current task: ownership passes to the most urgent
/// waiter, which is woken and inherits the remaining waiters' boosts; the
/// releasing task loses the boosts it held.
pub open spec fn m_mutex_release(s: MutexModel, m: SchedModel, now: u32) -> (
    MutexModel,
    SchedModel,
    Result<(), MutexError>,
) {
    match spec_current_pid(m) {
        None => (s, m, Err(MutexError::NoCurrentTask)),
        Some(pid) => if s.owner != Some(pid) {
            (s, m, Err(MutexError::NotOwner))
        } else {
            let old_waiters = occupants(s.waiters);
            let (w1, next) = wq_pop_highest(m, s.waiters);
            let m1 = m_remove_boosts(m, pid, old_waiters, now);
            match next {
                Some(n) => {
                    let m2 = m_add_boosts(m1, n, occupants(w1), now);
                    (MutexModel { owner: Some(n), waiters: w1 }, m_unblock(m2, n, now).0, Ok(()))
                },
                None => (MutexModel { owner: None, waiters: w1 }, m1, Ok(())),
            }
        },
    }
}

impl<T, const N: usize> BlockingMutex<T, N> {
    pub closed spec fn model(&self) -> MutexModel {
        MutexModel { owner: self.owner, waiters: self.waiters@ }
    }

    pub closed spec fn value(&self) -> T {
        self.value
    }

    pub closed spec fn wf(&self) -> bool {
        self.waiters.wf()
    }

    pub fn new(value: T) -> (mx: Self)
        ensures
            mx.wf(),
            mx.model() == (MutexModel { owner: None, waiters: wq_empty(N as nat) }),
            mx.value() == value,
    {
        Self { owner: None, value, waiters: WaitQueue::new() }
    }

    /// First phase of a blocking lock by the current task.
    pub fn acquire(&mut self, sched: &mut Scheduler, timeout_ms: Option<u32>, now: u32) -> (step:
        MutexAcquireStep)
        requires
            old(self).wf(),
            old(sched).wf(),
            current_unqueued(old(sched)@),
        ensures
            final(self).wf(),
            final(sched).wf(),
            final(self).value() == old(self).value(),
            (final(self).model(), final(sched)@, step) == m_mutex_acquire(
                old(self).model(),
                old(sched)@,
                timeout_ms,
                now,
            ),
    {
        let pid = match sched.current_pid() {
            Some(pid) => pid,
            None => {
                return MutexAcquireStep::Done(Err(MutexError::NoCurrentTask));
            },
        };
        let waiter_prio = match sched.task_priority(pid) {
            Some(p) => p,
            None => {
                return MutexAcquireStep::Done(Err(MutexError::NoCurrentTask));
            },
        };
        match self.owner {
            None => {
                self.owner = Some(pid);
                MutexAcquireStep::Done(Ok(()))
            },
            Some(owner) => {
                if owner == pid {
                    return MutexAcquireStep::Done(Err(MutexError::WouldDeadlock));
                }
                if !self.waiters.contains(pid) {
                    if !self.waiters.push(pid) {
                        return MutexAcquireStep::Done(Err(MutexError::QueueFull));
                    }
                }
                let _ = sched.add_priority_boost(owner, waiter_prio, now);
                proof {
                    assert(current_unqueued(sched@));
                }
                sched.block_current(timeout_ms, now);
                MutexAcquireStep::Blocked(pid, waiter_prio)
            },
        }
    }

    /// Second phase of a blocking lock, after the task `pid` (which asked at
    /// priority `prio`) was woken or timed out.  `None` means start over.
    pub fn resume_acquire(
        &mut self,
        sched: &mut Scheduler,
        pid: usize,
        prio: u8,
        timeout_ms: Option<u32>,
        now: u32,
    ) -> (r: Option<Result<(), MutexError>>)
        requires
            old(self).wf(),
            old(sched).wf(),
        ensures
            final(self).wf(),
            final(sched).wf(),
            final(self).value() == old(self).value(),
            (final(self).model(), final(sched)@, r) == m_mutex_resume(
                old(self).model(),
                old(sched)@,
                pid,
                prio,
                timeout_ms,
                now,
            ),
    {
        if self.owner == Some(pid) {
            return Some(Ok(()));
        }
        let removed = self.waiters.remove(pid);
        if removed {
            if let Some(owner) = self.owner {
                let _ = sched.remove_priority_boost(owner, prio, now);
            }
        }
        if removed && timeout_ms.is_some() {
            Some(Err(MutexError::Timeout))
        } else {
            None
        }
    }

    fn remove_boosts(sched: &mut Scheduler, owner: usize, ws: &[usize], now: u32)
        requires
            old(sched).wf(),
        ensures
            final(sched).wf(),
            final(sched)@ == m_remove_boosts(old(sched)@, owner, ws@, now),
    {
        let mut i: usize = 0;
        proof {
            assert(ws@.skip(0) =~= ws@);
        }
        while i < ws.len()
            invariant
                sched.wf(),
                0 <= i <= ws@.len(),
                m_remove_boosts(sched@, owner, ws@.skip(i as int), now) == m_remove_boosts(
                    old(sched)@,
                    owner,
                    ws@,
                    now,
                ),
            decreases ws@.len() - i,
        {
            proof {
                assert(ws@.skip(i as int).drop_first() =~= ws@.skip(i + 1));
            }
            if let Some(prio) = sched.task_priority(ws[i]) {
                let _ = sched.remove_priority_boost(owner, prio, now);
            }
            i = i + 1;
        }
        proof {
            assert(ws@.skip(i as int).len() == 0);
        }
    }

    fn add_boosts(sched: &mut Scheduler, owner: usize, ws: &[usize], now: u32)
        requires
            old(sched).wf(),
        ensures
            final(sched).wf(),
            final(sched)@ == m_add_boosts(old(sched)@, owner, ws@, now),
    {
        let mut i: usize = 0;
        proof {
            assert(ws@.skip(0) =~= ws@);
        }
        while i < ws.len()
            invariant
                sched.wf(),
                0 <= i <= ws@.len(),
                m_add_boosts(sched@, owner, ws@.skip(i as int), now) == m_add_boosts(
                    old(sched)@,
                    owner,
                    ws@,
                    now,
                ),
            decreases ws@.len() - i,
        {
            proof {
                assert(ws@.skip(i as int).drop_first() =~= ws@.skip(i + 1));
            }
            if let Some(prio) = sched.task_priority(ws[i]) {
                let _ = sched.add_priority_boost(owner, prio, now);
            }
            i = i + 1;
        }
        proof {
            assert(ws@.skip(i as int).len() == 0);
        }
    }

    /// Release the mutex held by the current task.
    pub fn release(&mut self, sched: &mut Scheduler, now: u32) -> (r: Result<(), MutexError>)
        requires
            old(self).wf(),
            old(sched).wf(),
        ensures
            final(self).wf(),
            final(sched).wf(),
            final(self).value() == old(self).value(),
            (final(self).model(), final(sched)@, r) == m_mutex_release(old(self).model(), old(sched)@, now),
    {
        let pid = match sched.current_pid() {
            Some(pid) => pid,
            None => {
                return Err(MutexError::NoCurrentTask);
            },
        };
        if self.owner != Some(pid) {
            return Err(MutexError::NotOwner);
        }
        let mut old_waiters: [usize; N] = vstd::array::array_fill_for_copy_types(usize::MAX);
        let old_count = self.waiters.snapshot(&mut old_waiters);
        let mut remaining: [usize; N] = vstd::array::array_fill_for_copy_types(usize::MAX);
        let mut remaining_count: usize = 0;
        let next = self.waiters.pop_highest(sched);
        match next {
            Some(next_pid) => {
                self.owner = Some(next_pid);
                remaining_count = self.waiters.snapshot(&mut remaining);
            },
            None => {
                self.owner = None;
            },
        }
        proof {
            vstd::array::array_len_matches_n(&old_waiters);
            vstd::array::array_len_matches_n(&remaining);
        }
        let old_slice = vstd::slice::slice_subrange(old_waiters.as_slice(), 0, old_count);
        Self::remove_boosts(sched, pid, old_slice, now);
        if let Some(owner) = next {
            let rest = vstd::slice::slice_subrange(remaining.as_slice(), 0, remaining_count);
            Self::add_boosts(sched, owner, rest, now);
            let _ = sched.unblock(owner, now);
        }
        Ok(())
    }

    /// Access to the protected value, for the owning task only.
    pub fn with_owner(&mut self, sched: &Scheduler) -> (r: Result<&mut T, MutexError>)
        requires
            old(self).wf(),
        ensures
            final(self).wf(),
            final(self).model() == old(self).model(),
            match spec_current_pid(sched@) {
                None => r == Err::<&mut T, MutexError>(MutexError::NoCurrentTask) && final(self).value()
                    == old(self).value(),
                Some(pid) => if old(self).model().owner != Some(pid) {
                    r == Err::<&mut T, MutexError>(MutexError::NotOwner) && final(self).value()
                        == old(self).value()
                } else {
                    r matches Ok(v) && *v == old(self).value() && final(self).value() == *final(v)
                },
            },
    {
        let pid = match sched.current_pid() {
            Some(pid) => pid,
            None => {
                return Err(MutexError::NoCurrentTask);
            },
        };
        if self.owner != Some(pid) {
            return Err(MutexError::NotOwner);
        }
        Ok(&mut self.value)
    }
}

} // verus!
