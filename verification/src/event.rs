use vstd::prelude::*;

use crate::scheduler::ops::{current_unqueued, m_block, m_unblock, spec_current_pid};
use crate::scheduler::{SchedModel, Scheduler};
use crate::waitqueue::{WaitQueue, count_some, occupants, wq_empty, wq_pop, wq_push, wq_remove};

verus! {

#[derive(Clone, Copy, Debug, PartialEq, Eq, Structural)]
pub enum EventError {
    QueueFull,
    Timeout,
    NoCurrentTask,
}

/// Outcome of one wait attempt: finished, or the calling task is now blocked
/// (having seen the given signal count) and must call `resume_wait`.
#[derive(Clone, Copy, Debug, PartialEq, Eq)]
pub enum EventWaitStep {
    Done(Result<(), EventError>),
    Blocked(usize, u32),
}

/// Manual-reset event with a fixed-size wait queue.
pub struct Event<const N: usize> {
    signaled: bool,
    signal_seq: u32,
    waiters: WaitQueue<N>,
}

pub struct EventModel {
    pub signaled: bool,
    pub signal_seq: u32,
    pub waiters: Seq<Option<usize>>,
}

/// Wake each task of `pids`, in order.
pub open spec fn m_unblock_all(m: SchedModel, pids: Seq<usize>, now: u32) -> SchedModel
    decreases pids.len(),
{
    if pids.len() == 0 {
        m
    } else {
        m_unblock_all(m_unblock(m, pids[0], now).0, pids.drop_first(), now)
    }
}

/// `set`: the event becomes signaled, its signal count goes up, and every
/// waiter (in slot order) is woken.
pub open spec fn m_event_set(e: EventModel, m: SchedModel, now: u32) -> (EventModel, SchedModel, usize) {
    let woken = occupants(e.waiters);
    (
        EventModel {
            signaled: true,
            signal_seq: e.signal_seq.wrapping_add(1),
            waiters: wq_empty(e.waiters.len()),
        },
        m_unblock_all(m, woken, now),
        woken.len() as usize,
    )
}

/// First phase of `wait` for the current task.
pub open spec fn m_event_wait(e: EventModel, m: SchedModel, timeout_ms: Option<u32>, now: u32) -> (
    EventModel,
    SchedModel,
    EventWaitStep,
) {
    match spec_current_pid(m) {
        None => (e, m, EventWaitStep::Done(Err(EventError::NoCurrentTask))),
        Some(pid) => if e.signaled {
            (e, m, EventWaitStep::Done(Ok(())))
        } else {
            let (w1, queued) = wq_push(e.waiters, pid);
            if !queued {
                (e, m, EventWaitStep::Done(Err(EventError::QueueFull)))
            } else {
                (
                    EventModel { waiters: w1, ..e },
                    m_block(m, timeout_ms, now),
                    EventWaitStep::Blocked(pid, e.signal_seq),
                )
            }
        },
    }
}

/// Second phase of `wait`: done if the event was set since the task blocked;
/// otherwise the task leaves the queue and either times out or (`None`)
/// starts over.
pub open spec fn m_event_resume(e: EventModel, pid: usize, epoch: u32, timeout_ms: Option<u32>) -> (
    EventModel,
    Option<Result<(), EventError>>,
) {
    if e.signaled || e.signal_seq != epoch {
        (e, Some(Ok(())))
    } else {
        let e1 = EventModel { waiters: wq_remove(e.waiters, pid).0, ..e };
        if timeout_ms is Some {
            (e1, Some(Err(EventError::Timeout)))
        } else {
            (e1, None)
        }
    }
}

/// Popping every waiter of a wait queue yields its occupants in order and
/// leaves it empty.
proof fn lemma_pop_all_step(s: Seq<Option<usize>>)
    requires
        count_some(s) > 0,
    ensures
        wq_pop(s).1 is Some,
        occupants(s) == seq![wq_pop(s).1->0] + occupants(wq_pop(s).0),
        count_some(wq_pop(s).0) == count_some(s) - 1,
        wq_pop(s).0.len() == s.len(),
{
    crate::waitqueue::lemma_pop_occupants(s);
}

impl<const N: usize> Event<N> {
    pub closed spec fn model(&self) -> EventModel {
        EventModel { signaled: self.signaled, signal_seq: self.signal_seq, waiters: self.waiters@ }
    }

    pub closed spec fn wf(&self) -> bool {
        self.waiters.wf()
    }

    pub fn new() -> (e: Self)
        ensures
            e.wf(),
            e.model() == (EventModel { signaled: false, signal_seq: 0, waiters: wq_empty(N as nat) }),
    {
        Self { signaled: false, signal_seq: 0, waiters: WaitQueue::new() }
    }

    pub fn is_set(&self) -> (b: bool)
        ensures
            b == self.model().signaled,
    {
        self.signaled
    }

    pub fn clear(&mut self)
        requires
            old(self).wf(),
        ensures
            final(self).wf(),
            final(self).model() == (EventModel { signaled: false, ..old(self).model() }),
    {
        self.signaled = false;
    }

    /// Non-blocking wait: whether the event is set.
    pub fn try_wait(&self) -> (b: bool)
        ensures
            b == self.model().signaled,
    {
        self.signaled
    }

    /// Set the event and wake all waiting tasks; returns how many were woken.
    pub fn set(&mut self, sched: &mut Scheduler, now: u32) -> (woken: usize)
        requires
            old(self).wf(),
            old(sched).wf(),
        ensures
            final(self).wf(),
            final(sched).wf(),
            (final(self).model(), final(sched)@, woken) == m_event_set(old(self).model(), old(sched)@, now),
    {
        let mut to_wake: Vec<usize> = Vec::new();
        self.signaled = true;
        self.signal_seq = self.signal_seq.wrapping_add(1);
        let ghost all = occupants(self.waiters@);
        proof {
            crate::waitqueue::lemma_occupants_len(self.waiters@);
            self.waiters.lemma_len();
        }
        loop
            invariant
                self.waiters.wf(),
                self.waiters@.len() == N,
                to_wake@ + occupants(self.waiters@) == all,
                self.signaled,
                self.signal_seq == old(self).signal_seq.wrapping_add(1),
            ensures
                self.signaled,
                self.signal_seq == old(self).signal_seq.wrapping_add(1),
                self.waiters.wf(),
                to_wake@ == all,
                self.waiters@ == wq_empty(N as nat),
            decreases count_some(self.waiters@),
        {
            let ghost before = self.waiters@;
            proof {
                self.waiters.lemma_len();
            }
            match self.waiters.pop() {
                Some(pid) => {
                    proof {
                        lemma_pop_all_step(before);
                    }
                    to_wake.push(pid);
                    proof {
                        assert(to_wake@ + occupants(self.waiters@) =~= all);
                    }
                },
                None => {
                    proof {
                        crate::waitqueue::lemma_empty_queue(before);
                        assert(to_wake@ =~= all);
                    }
                    break;
                },
            }
        }
        let wake_count = to_wake.len();
        let mut i: usize = 0;
        proof {
            assert(to_wake@.skip(0) =~= to_wake@);
        }
        while i < wake_count
            invariant
                sched.wf(),
                wake_count == to_wake@.len(),
                0 <= i <= wake_count,
                m_unblock_all(sched@, to_wake@.skip(i as int), now) == m_unblock_all(
                    old(sched)@,
                    all,
                    now,
                ),
                to_wake@ == all,
            decreases wake_count - i,
        {
            proof {
                assert(to_wake@.skip(i as int).drop_first() =~= to_wake@.skip(i + 1));
            }
            let _ = sched.unblock(to_wake[i], now);
            i = i + 1;
        }
        proof {
            assert(to_wake@.skip(i as int).len() == 0);
        }
        wake_count
    }

    /// First phase of a blocking wait by the current task.
    pub fn wait(&mut self, sched: &mut Scheduler, timeout_ms: Option<u32>, now: u32) -> (step: EventWaitStep)
        requires
            old(self).wf(),
            old(sched).wf(),
            current_unqueued(old(sched)@),
        ensures
            final(self).wf(),
            final(sched).wf(),
            (final(self).model(), final(sched)@, step) == m_event_wait(
                old(self).model(),
                old(sched)@,
                timeout_ms,
                now,
            ),
    {
        let pid = match sched.current_pid() {
            Some(pid) => pid,
            None => {
                return EventWaitStep::Done(Err(EventError::NoCurrentTask));
            },
        };
        if self.signaled {
            return EventWaitStep::Done(Ok(()));
        }
        if !self.waiters.push(pid) {
            return EventWaitStep::Done(Err(EventError::QueueFull));
        }
        let epoch = self.signal_seq;
        sched.block_current(timeout_ms, now);
        EventWaitStep::Blocked(pid, epoch)
    }

    /// Second phase of a blocking wait by task `pid`, which blocked having
    /// seen signal count `epoch`.  `None` means start over with `wait`.
    pub fn resume_wait(&mut self, pid: usize, epoch: u32, timeout_ms: Option<u32>) -> (r: Option<
        Result<(), EventError>,
    >)
        requires
            old(self).wf(),
        ensures
            final(self).wf(),
            (final(self).model(), r) == m_event_resume(old(self).model(), pid, epoch, timeout_ms),
    {
        if self.signaled || self.signal_seq != epoch {
            return Some(Ok(()));
        }
        let _ = self.waiters.remove(pid);
        if timeout_ms.is_some() {
            Some(Err(EventError::Timeout))
        } else {
            None
        }
    }
}

} // verus!
