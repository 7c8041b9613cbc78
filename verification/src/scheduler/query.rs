use vstd::prelude::*;

use crate::diagnostics::{TaskDiagnostics, TraceCounters, zero_counters};
use crate::scheduler::ops::m_delete;
use crate::scheduler::{
    DEFAULT_TIME_SLICE_TICKS, IDLE_PID, IDLE_PRIORITY, INVALID_PID, MAX_TASKS, STACK_SENTINEL,
    SchedModel, Scheduler, TIMEOUT_WHEEL_SIZE, m_request_switch, rq_ok, strip, task_at, wq_ok,
};
use crate::tcb::{MAX_PRIORITY, Tcb, spec_tcb_init};

verus! {

/// The pids of the live tasks among the first `n` slots, in increasing order.
pub open spec fn live_pids(tasks: Seq<Option<Tcb>>, n: int) -> Seq<usize>
    decreases n,
{
    if n <= 0 {
        Seq::empty()
    } else {
        let prev = live_pids(tasks, n - 1);
        if tasks[n - 1] is Some {
            prev.push((n - 1) as usize)
        } else {
            prev
        }
    }
}

/// Number of stack words, from the bottom, still holding the fill pattern.
pub open spec fn leading_sentinels(stack: Seq<u32>) -> nat
    decreases stack.len(),
{
    if stack.len() == 0 || stack[0] != STACK_SENTINEL {
        0
    } else {
        1 + leading_sentinels(stack.drop_first())
    }
}

/// Diagnostics of a task at time `now`, given the words of its stack.
pub open spec fn spec_diagnostics(t: Tcb, now: u32, stack: Seq<u32>) -> TaskDiagnostics {
    let size = ((t.stack_end - t.stack_start) / 4) as usize;
    let free = leading_sentinels(stack) as usize;
    let age = now.wrapping_sub(t.heartbeat_last_seen_tick);
    TaskDiagnostics {
        pid: t.pid,
        state: t.state,
        base_priority: t.base_priority,
        priority: t.priority,
        remaining_slice: t.remaining_slice,
        wake_tick: t.wake_tick,
        has_timeout: t.has_timeout,
        runtime_ticks: t.runtime_ticks,
        stack_size_words: size,
        stack_free_low_water_words: free,
        stack_used_high_water_words: if size >= free {
            (size - free) as usize
        } else {
            0
        },
        heartbeat_registered: t.heartbeat_registered,
        heartbeat_timeout_ticks: t.heartbeat_timeout_ticks,
        heartbeat_age_ticks: age,
        heartbeat_stale: t.heartbeat_registered && age > t.heartbeat_timeout_ticks,
    }
}

/// Freshly initialised scheduler: only the idle task exists, nothing is
/// queued, and no task is current.
pub open spec fn spec_init_model(
    now: u32,
    idle_sp: usize,
    idle_stack_start: usize,
    idle_stack_end: usize,
    idle_entry: usize,
) -> SchedModel {
    SchedModel {
        tasks: Seq::new(
            MAX_TASKS as nat,
            |i: int|
                if i == IDLE_PID {
                    strip(
                        Some(
                            spec_tcb_init(
                                IDLE_PID,
                                idle_sp,
                                IDLE_PRIORITY,
                                DEFAULT_TIME_SLICE_TICKS,
                                idle_stack_start,
                                idle_stack_end,
                                idle_entry,
                                0,
                            ),
                        ),
                    )
                } else {
                    None
                },
        ),
        ready: Seq::new(MAX_PRIORITY as nat, |p: int| Seq::<usize>::empty()),
        wheel: Seq::new(TIMEOUT_WHEEL_SIZE as nat, |b: int| Seq::<usize>::empty()),
        last_tick: now,
        current: INVALID_PID,
        started: false,
        counters: zero_counters(),
        hook_installed: false,
        events: Seq::empty(),
        switch_pending: false,
    }
}

/// Number of stack words, from the bottom, still holding the fill pattern.
pub fn stack_free_low_water_words(stack: &[u32]) -> (n: usize)
    ensures
        n == leading_sentinels(stack@),
{
    let mut i: usize = 0;
    proof {
        assert(stack@.skip(0) =~= stack@);
    }
    while i < stack.len()
        invariant
            0 <= i <= stack@.len(),
            leading_sentinels(stack@) == i + leading_sentinels(stack@.skip(i as int)),
        ensures
            0 <= i <= stack@.len(),
            leading_sentinels(stack@) == i + leading_sentinels(stack@.skip(i as int)),
            i < stack@.len() ==> stack@[i as int] != STACK_SENTINEL,
        decreases stack.len() - i,
    {
        if stack[i] != STACK_SENTINEL {
            break;
        }
        proof {
            let rest = stack@.skip(i as int);
            assert(rest[0] == stack@[i as int]);
            assert(rest.drop_first() =~= stack@.skip(i + 1));
        }
        i = i + 1;
    }
    proof {
        if i < stack.len() {
            assert(stack@.skip(i as int)[0] == stack@[i as int]);
        } else {
            assert(stack@.skip(i as int).len() == 0);
        }
    }
    i
}

impl Scheduler {
    /// Initialize task storage with only the idle task, whose first frame the
    /// caller has laid out at `idle_sp`.
    pub fn init(
        now: u32,
        idle_sp: usize,
        idle_stack_start: usize,
        idle_stack_end: usize,
        idle_entry: usize,
    ) -> (s: Scheduler)
        requires
            idle_stack_start <= idle_stack_end,
        ensures
            s.wf(),
            s@ == spec_init_model(now, idle_sp, idle_stack_start, idle_stack_end, idle_entry),
    {
        let idle = Tcb::init(
            IDLE_PID,
            idle_sp,
            IDLE_PRIORITY,
            DEFAULT_TIME_SLICE_TICKS,
            idle_stack_start,
            idle_stack_end,
            idle_entry,
            0,
        );
        let mut tasks: [Option<Tcb>; MAX_TASKS] = [None; MAX_TASKS];
        tasks[IDLE_PID] = Some(idle);
        let s = Scheduler {
            tasks,
            ready_heads: [None; MAX_PRIORITY],
            ready_tails: [None; MAX_PRIORITY],
            ready_counts: [0; MAX_PRIORITY],
            ready_mask: 0,
            wheel_heads: [None; TIMEOUT_WHEEL_SIZE],
            wheel_tails: [None; TIMEOUT_WHEEL_SIZE],
            last_tick: now,
            current: INVALID_PID,
            started: false,
            counters: TraceCounters::new(),
            hook_installed: false,
            trace_events: Vec::new(),
            switch_pending: false,
            ready: Ghost(Seq::new(MAX_PRIORITY as nat, |p: int| Seq::<usize>::empty())),
            wheel: Ghost(Seq::new(TIMEOUT_WHEEL_SIZE as nat, |b: int| Seq::<usize>::empty())),
        };
        proof {
            assert(0u32 >> 0u32 & 1u32 == 0u32) by (bit_vector);
            assert forall|p: u32| p < 32 implies !crate::scheduler::bit(0u32, p) by {
                assert((0u32 >> p) & 1u32 == 0u32) by (bit_vector);
            }
            assert forall|p: int| 0 <= p < MAX_PRIORITY implies #[trigger] rq_ok(
                s.tasks@,
                s.ready@[p],
                p,
                s.ready_heads@[p],
                s.ready_tails@[p],
                s.ready_counts@[p],
            ) by {}
            assert forall|b: int| 0 <= b < TIMEOUT_WHEEL_SIZE implies #[trigger] wq_ok(
                s.tasks@,
                s.wheel@[b],
                b,
                s.wheel_heads@[b],
                s.wheel_tails@[b],
            ) by {}
            assert(s@.tasks =~= spec_init_model(
                now,
                idle_sp,
                idle_stack_start,
                idle_stack_end,
                idle_entry,
            ).tasks);
            assert(s@.ready =~= spec_init_model(
                now,
                idle_sp,
                idle_stack_start,
                idle_stack_end,
                idle_entry,
            ).ready);
            assert(s@.wheel =~= spec_init_model(
                now,
                idle_sp,
                idle_stack_start,
                idle_stack_end,
                idle_entry,
            ).wheel);
            assert(s@.events =~= Seq::<crate::diagnostics::TraceEvent>::empty());
        }
        s
    }

    /// Whether the current task, if any, sits in no queue (the idle task may
    /// sit in a ready queue); blocking calls need this.
    pub fn current_is_unqueued(&self) -> (r: bool)
        requires
            self.wf(),
        ensures
            r == crate::scheduler::ops::current_unqueued(self@),
    {
        let cur = self.current;
        if cur >= MAX_TASKS {
            return true;
        }
        proof {
            assert(self@.tasks[cur as int] == strip(self.tasks@[cur as int]));
        }
        match self.tasks[cur] {
            Some(t) => !t.in_timeout_queue && (!t.in_ready_queue || cur == IDLE_PID),
            None => true,
        }
    }

    /// Whether scheduling has started.
    pub fn is_started(&self) -> (r: bool)
        ensures
            r == self@.started,
    {
        self.started
    }

    /// Whether a slot is free for a new task.
    pub fn has_free_slot(&self) -> (r: bool)
        requires
            self.wf(),
        ensures
            r == exists|i: int| 0 <= i < MAX_TASKS && self@.tasks[i] is None,
    {
        let mut i: usize = 0;
        while i < MAX_TASKS
            invariant
                0 <= i <= MAX_TASKS,
                forall|j: int| 0 <= j < i ==> self@.tasks[j] is Some,
            decreases MAX_TASKS - i,
        {
            if self.tasks[i].is_none() {
                assert(self@.tasks[i as int] is None);
                return true;
            }
            i = i + 1;
        }
        false
    }

    /// Write the pids of live tasks, lowest first, into `buffer` until it is
    /// full; returns how many were written.
    pub fn list_tasks(&self, buffer: &mut [usize]) -> (written: usize)
        requires
            self.wf(),
        ensures
            ({
                let live = live_pids(self@.tasks, MAX_TASKS as int);
                &&& written == if old(buffer)@.len() < live.len() {
                    old(buffer)@.len()
                } else {
                    live.len()
                }
                &&& final(buffer)@ == live.take(written as int) + old(buffer)@.skip(written as int)
            }),
    {
        let mut written: usize = 0;
        let mut pid: usize = 0;
        let ghost tasks = self@.tasks;
        while pid < MAX_TASKS
            invariant
                0 <= pid <= MAX_TASKS,
                tasks == self@.tasks,
                buffer@.len() == old(buffer)@.len(),
                written <= buffer@.len(),
                written == if old(buffer)@.len() < live_pids(tasks, pid as int).len() {
                    old(buffer)@.len()
                } else {
                    live_pids(tasks, pid as int).len()
                },
                buffer@ == live_pids(tasks, pid as int).take(written as int) + old(buffer)@.skip(
                    written as int,
                ),
            decreases MAX_TASKS - pid,
        {
            let ghost prev = live_pids(tasks, pid as int);
            proof {
                assert(self@.tasks[pid as int] == strip(self.tasks@[pid as int]));
            }
            if self.tasks[pid].is_some() && written < buffer.len() {
                let ghost old_buf = buffer@;
                buffer[written] = pid;
                proof {
                    let next = live_pids(tasks, pid + 1);
                    assert(next == prev.push(pid));
                    assert(buffer@ =~= next.take(written + 1) + old(buffer)@.skip(written + 1));
                }
                written = written + 1;
            } else {
                proof {
                    let next = live_pids(tasks, pid + 1);
                    if tasks[pid as int] is Some {
                        assert(next == prev.push(pid));
                        assert(next.take(written as int) =~= prev.take(written as int));
                    } else {
                        assert(next == prev);
                    }
                }
            }
            pid = pid + 1;
        }
        written
    }

    /// Diagnostics of a live task; `stack` holds the words of its stack.
    pub fn task_diagnostics(&self, pid: usize, now: u32, stack: &[u32]) -> (d: Option<TaskDiagnostics>)
        requires
            self.wf(),
        ensures
            d == match task_at(self@, pid) {
                Some(t) => Some(spec_diagnostics(t, now, stack@)),
                None => None,
            },
            d matches Some(x) ==> x.pid == pid,
    {
        proof {
            if pid < MAX_TASKS && self.tasks@[pid as int] is Some {
                assert(crate::scheduler::slot_coherent(pid as int, self.tasks@[pid as int]->0));
            }
        }
        if pid >= MAX_TASKS {
            return None;
        }
        proof {
            assert(self@.tasks[pid as int] == strip(self.tasks@[pid as int]));
        }
        let task = match self.tasks[pid] {
            Some(t) => t,
            None => {
                return None;
            },
        };
        let stack_size_words = (task.stack_end - task.stack_start) / 4;
        let stack_free = stack_free_low_water_words(stack);
        let heartbeat_age_ticks = now.wrapping_sub(task.heartbeat_last_seen_tick);
        let heartbeat_stale = task.heartbeat_registered && heartbeat_age_ticks
            > task.heartbeat_timeout_ticks;
        Some(
            TaskDiagnostics {
                pid: task.pid,
                state: task.state,
                base_priority: task.base_priority,
                priority: task.priority,
                remaining_slice: task.remaining_slice,
                wake_tick: task.wake_tick,
                has_timeout: task.has_timeout,
                runtime_ticks: task.runtime_ticks,
                stack_size_words,
                stack_free_low_water_words: stack_free,
                stack_used_high_water_words: stack_size_words.saturating_sub(stack_free),
                heartbeat_registered: task.heartbeat_registered,
                heartbeat_timeout_ticks: task.heartbeat_timeout_ticks,
                heartbeat_age_ticks,
                heartbeat_stale,
            },
        )
    }

    /// The current task deletes itself and a switch is requested.
    pub fn exit_current(&mut self, now: u32)
        requires
            old(self).wf(),
        ensures
            final(self).wf(),
            final(self)@ == m_request_switch(m_delete(old(self)@, old(self)@.current, now).0, now),
    {
        let pid = self.current;
        let _ = self.delete_task(pid, now);
        self.request_context_switch(now);
    }
}

} // verus!
