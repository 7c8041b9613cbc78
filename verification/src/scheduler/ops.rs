use vstd::prelude::*;

use crate::diagnostics::{TraceCounters, TraceEvent, TraceEventKind, zero_counters};
use crate::scheduler::ready::highest_ready_priority;
use crate::scheduler::{
    DEFAULT_TIME_SLICE_TICKS, IDLE_PID, INVALID_PID, MAX_TASKS, SchedModel, Scheduler, m_emit,
    m_ready_push, m_ready_remove, m_request_switch, m_timeout_push, m_timeout_remove, set_task,
    highest_nonempty, strip, task_at,
};
use crate::systick::{ms_to_ticks, spec_ms_to_ticks};
use crate::tcb::{MAX_PRIORITY, TaskState, Tcb, spec_tcb_init};

verus! {

/// A timeout of `ms` milliseconds, in ticks, never shorter than one tick.
pub open spec fn spec_timeout_delay_ticks(ms: u32) -> u32 {
    if spec_ms_to_ticks(ms) == 0 {
        1
    } else {
        spec_ms_to_ticks(ms)
    }
}

pub fn timeout_delay_ticks(ms: u32) -> (ticks: u32)
    ensures
        ticks == spec_timeout_delay_ticks(ms),
        ticks >= 1,
{
    let ticks = ms_to_ticks(ms);
    if ticks == 0 {
        1
    } else {
        ticks
    }
}

/// The current task is in no queue (the idle task may sit in a ready queue).
pub open spec fn current_unqueued(m: SchedModel) -> bool {
    match task_at(m, m.current) {
        Some(t) => !t.in_timeout_queue && (t.in_ready_queue ==> m.current == IDLE_PID),
        None => true,
    }
}

pub open spec fn spec_current_pid(m: SchedModel) -> Option<usize> {
    if m.current == INVALID_PID {
        None
    } else {
        Some(m.current)
    }
}

pub open spec fn spec_task_priority(m: SchedModel, pid: usize) -> Option<u8> {
    match task_at(m, pid) {
        Some(t) => Some(t.priority),
        None => None,
    }
}

/// Make a task ready again: it leaves the timeout wheel and, unless it is
/// already queued as ready, joins the tail of its ready queue.  The idle task
/// never enters a ready queue this way: unblocking it changes nothing.
pub open spec fn m_unblock(m: SchedModel, pid: usize, now: u32) -> (SchedModel, bool) {
    if pid == IDLE_PID {
        (m, false)
    } else {
    match task_at(m, pid) {
        None => (m, false),
        Some(t) => {
            let m1 = if t.in_timeout_queue {
                m_timeout_remove(m, pid).0
            } else {
                m
            };
            if t.state != TaskState::Ready || !t.in_ready_queue {
                let t1 = task_at(m1, pid)->0;
                let m2 = set_task(
                    m1,
                    pid,
                    Tcb {
                        state: TaskState::Ready,
                        has_timeout: false,
                        wake_tick: 0,
                        remaining_slice: DEFAULT_TIME_SLICE_TICKS,
                        ..t1
                    },
                );
                let m3 = m_ready_push(m2, pid).0;
                if m3.started {
                    (m_request_switch(m_emit(m3, TraceEventKind::TaskUnblock, pid, 0, now), now), true)
                } else {
                    (m3, true)
                }
            } else {
                (m1, false)
            }
        },
    }
    }
}

/// Remove a task (never the idle task) from every queue and free its slot.
pub open spec fn m_delete(m: SchedModel, pid: usize, now: u32) -> (SchedModel, bool) {
    if pid == IDLE_PID {
        (m, false)
    } else {
        match task_at(m, pid) {
            None => (m, false),
            Some(t) => {
                let was_ready = t.state == TaskState::Ready && t.in_ready_queue;
                let was_running = t.state == TaskState::Running;
                let m1 = if was_ready {
                    m_ready_remove(m, pid).0
                } else {
                    m
                };
                let m2 = if t.in_timeout_queue {
                    m_timeout_remove(m1, pid).0
                } else {
                    m1
                };
                let m3 = SchedModel { tasks: m2.tasks.update(pid as int, None), ..m2 };
                let is_current = m3.current == pid;
                let m4 = if is_current {
                    SchedModel { current: INVALID_PID, ..m3 }
                } else {
                    m3
                };
                let m5 = if (was_running || is_current) && m4.started {
                    m_request_switch(m4, now)
                } else {
                    m4
                };
                (m_emit(m5, TraceEventKind::TaskDelete, pid, 0, now), true)
            },
        }
    }
}

/// Put the current task to sleep for `ms` milliseconds.
pub open spec fn m_sleep(m: SchedModel, ms: u32, now: u32) -> SchedModel {
    let cur = m.current;
    let m2 = match task_at(m, cur) {
        Some(t) => m_timeout_push(
            set_task(
                m,
                cur,
                Tcb {
                    state: TaskState::Sleeping,
                    wake_tick: now.wrapping_add(spec_timeout_delay_ticks(ms)),
                    has_timeout: false,
                    ..t
                },
            ),
            cur,
            now,
        ).0,
        None => m,
    };
    m_request_switch(m_emit(m2, TraceEventKind::TaskSleep, cur, ms as usize, now), now)
}

/// Block the current task, with an optional timeout in milliseconds.
pub open spec fn m_block(m: SchedModel, timeout_ms: Option<u32>, now: u32) -> SchedModel {
    let cur = m.current;
    let has_timeout = timeout_ms is Some;
    let wake = match timeout_ms {
        Some(ms) => now.wrapping_add(spec_timeout_delay_ticks(ms)),
        None => 0,
    };
    let m2 = match task_at(m, cur) {
        Some(t) => {
            let m1 = set_task(
                m,
                cur,
                Tcb { state: TaskState::Blocked, has_timeout, wake_tick: wake, ..t },
            );
            if has_timeout {
                m_timeout_push(m1, cur, now).0
            } else {
                m1
            }
        },
        None => m,
    };
    let aux = match timeout_ms {
        Some(ms) => ms as usize,
        None => 0,
    };
    m_request_switch(m_emit(m2, TraceEventKind::TaskBlock, cur, aux, now), now)
}

/// The lowest free slot at or above `i`.
pub open spec fn first_free_from(tasks: Seq<Option<Tcb>>, i: int) -> Option<usize>
    decreases tasks.len() - i,
{
    if i < 0 || i >= tasks.len() {
        None
    } else if tasks[i] is None {
        Some(i as usize)
    } else {
        first_free_from(tasks, i + 1)
    }
}

/// Create a task in the lowest free slot and make it ready.
pub open spec fn m_create(
    m: SchedModel,
    entry: usize,
    arg: usize,
    stack_start: usize,
    stack_end: usize,
    sp: usize,
    priority: u8,
    now: u32,
) -> (SchedModel, Option<usize>) {
    if priority as int >= MAX_PRIORITY {
        (m, None)
    } else {
        match first_free_from(m.tasks, 0) {
            None => (m, None),
            Some(pid) => {
                let t = spec_tcb_init(
                    pid,
                    sp,
                    priority,
                    DEFAULT_TIME_SLICE_TICKS,
                    stack_start,
                    stack_end,
                    entry,
                    arg,
                );
                let m2 = m_ready_push(set_task(m, pid, t), pid).0;
                (m_emit(m2, TraceEventKind::TaskCreate, pid, priority as usize, now), Some(pid))
            },
        }
    }
}

/// Register a heartbeat for a task.
pub open spec fn m_register_heartbeat(m: SchedModel, pid: usize, timeout_ms: u32, now: u32) -> (
    SchedModel,
    bool,
) {
    match task_at(m, pid) {
        None => (m, false),
        Some(t) => (
            set_task(
                m,
                pid,
                Tcb {
                    heartbeat_registered: true,
                    heartbeat_timeout_ticks: spec_timeout_delay_ticks(timeout_ms),
                    heartbeat_last_seen_tick: now,
                    ..t
                },
            ),
            true,
        ),
    }
}

/// Record a heartbeat of the current task, if it registered one.
pub open spec fn m_heartbeat(m: SchedModel, now: u32) -> (SchedModel, bool) {
    match spec_current_pid(m) {
        None => (m, false),
        Some(pid) => match task_at(m, pid) {
            None => (m, false),
            Some(t) => if !t.heartbeat_registered {
                (m, false)
            } else {
                (set_task(m, pid, Tcb { heartbeat_last_seen_tick: now, ..t }), true)
            },
        },
    }
}


/// The most urgent boost level in use at or above `i`.
pub open spec fn first_boost_from(boosts: Seq<u8>, i: int) -> Option<int>
    decreases MAX_PRIORITY - i,
{
    if i < 0 || i >= MAX_PRIORITY {
        None
    } else if boosts[i] > 0 {
        Some(i)
    } else {
        first_boost_from(boosts, i + 1)
    }
}

/// Without boosts a task runs at its base priority.
pub proof fn lemma_no_boosts(t: Tcb)
    requires
        forall|i: int| 0 <= i < MAX_PRIORITY ==> t.priority_boosts@[i] == 0,
    ensures
        spec_effective_priority(t) == t.base_priority,
{
    reveal_with_fuel(first_boost_from, 9);
    assert(t.priority_boosts@[0] == 0 && t.priority_boosts@[1] == 0 && t.priority_boosts@[2] == 0
        && t.priority_boosts@[3] == 0 && t.priority_boosts@[4] == 0 && t.priority_boosts@[5] == 0
        && t.priority_boosts@[6] == 0 && t.priority_boosts@[7] == 0);
}

/// A task runs at its base priority, or at the most urgent boost it holds
/// when that is more urgent.
pub open spec fn spec_effective_priority(t: Tcb) -> u8 {
    match first_boost_from(t.priority_boosts@, 0) {
        Some(p) => if (p as u8) < t.base_priority {
            p as u8
        } else {
            t.base_priority
        },
        None => t.base_priority,
    }
}

/// Bring a task's priority in line with its base priority and boosts,
/// moving it between ready queues when it is queued.  The flag tells whether
/// the change calls for a context switch.
pub open spec fn m_update_priority(m: SchedModel, pid: usize) -> (SchedModel, bool) {
    match task_at(m, pid) {
        None => (m, false),
        Some(t) => {
            let new_prio = spec_effective_priority(t);
            if t.priority == new_prio {
                (m, false)
            } else {
                let was_ready = t.state == TaskState::Ready && t.in_ready_queue;
                let was_running = t.state == TaskState::Running;
                let m1 = if was_ready {
                    m_ready_remove(m, pid).0
                } else {
                    m
                };
                let m2 = set_task(m1, pid, Tcb { priority: new_prio, ..task_at(m1, pid)->0 });
                let m3 = if was_ready {
                    m_ready_push(m2, pid).0
                } else {
                    m2
                };
                let preempts = was_ready && m3.current != pid && match task_at(m3, m3.current) {
                    Some(c) => c.state == TaskState::Running && new_prio < c.priority,
                    None => false,
                };
                let outranked = was_running && match highest_nonempty(m3.ready) {
                    Some(best) => best < new_prio,
                    None => false,
                };
                (m3, preempts || outranked)
            }
        },
    }
}

/// Finish a priority change: switch if needed, and trace it.
pub open spec fn m_after_priority_change(m: SchedModel, need: bool, pid: usize, aux: usize, now: u32) -> SchedModel {
    let m1 = if need && m.started {
        m_request_switch(m, now)
    } else {
        m
    };
    m_emit(m1, TraceEventKind::PriorityUpdate, pid, aux, now)
}

/// Change the base priority of a task (not the idle task).
pub open spec fn m_set_priority(m: SchedModel, pid: usize, new_prio: u8, now: u32) -> (SchedModel, bool) {
    if new_prio as int >= MAX_PRIORITY || pid == IDLE_PID {
        (m, false)
    } else {
        match task_at(m, pid) {
            None => (m, false),
            Some(t) => if t.base_priority == new_prio {
                (m_emit(m, TraceEventKind::PriorityUpdate, pid, new_prio as usize, now), true)
            } else {
                let (m1, need) = m_update_priority(
                    set_task(m, pid, Tcb { base_priority: new_prio, ..t }),
                    pid,
                );
                (m_after_priority_change(m1, need, pid, new_prio as usize, now), true)
            },
        }
    }
}

/// Add one boost at level `boost` to a task (not the idle task).
pub open spec fn m_add_boost(m: SchedModel, pid: usize, boost: u8, now: u32) -> (SchedModel, bool) {
    if pid == IDLE_PID || boost as int >= MAX_PRIORITY {
        (m, false)
    } else {
        match task_at(m, pid) {
            None => (m, false),
            Some(t) => {
                let b = boost as int;
                let boosts = t.priority_boosts@;
                let count = boosts[b];
                let new_count: u8 = if count == u8::MAX { u8::MAX } else { (count + 1) as u8 };
                let t1 = Tcb {
                    priority_boosts: vstd::array::spec_array_update(t.priority_boosts, b, new_count),
                    ..t
                };
                let (m1, need) = m_update_priority(set_task(m, pid, t1), pid);
                (m_after_priority_change(m1, need, pid, boost as usize, now), true)
            },
        }
    }
}


/// Take one boost at level `boost` away from a task (not the idle task).
pub open spec fn m_remove_boost(m: SchedModel, pid: usize, boost: u8, now: u32) -> (SchedModel, bool) {
    if pid == IDLE_PID || boost as int >= MAX_PRIORITY {
        (m, false)
    } else {
        match task_at(m, pid) {
            None => (m, false),
            Some(t) => {
                let b = boost as int;
                let count = t.priority_boosts@[b];
                if count == 0 {
                    (m, false)
                } else {
                    let t1 = Tcb {
                        priority_boosts: vstd::array::spec_array_update(
                            t.priority_boosts,
                            b,
                            (count - 1) as u8,
                        ),
                        ..t
                    };
                    let (m1, need) = m_update_priority(set_task(m, pid, t1), pid);
                    (m_after_priority_change(m1, need, pid, boost as usize, now), true)
                }
            },
        }
    }
}

impl Scheduler {
    pub fn current_pid(&self) -> (r: Option<usize>)
        ensures
            r == spec_current_pid(self@),
    {
        if self.current == INVALID_PID {
            None
        } else {
            Some(self.current)
        }
    }

    pub fn task_priority(&self, pid: usize) -> (r: Option<u8>)
        requires
            self.wf(),
        ensures
            r == spec_task_priority(self@, pid),
    {
        if pid < MAX_TASKS {
            match self.tasks[pid] {
                Some(t) => Some(t.priority),
                None => None,
            }
        } else {
            None
        }
    }

    pub fn current_priority(&self) -> (r: Option<u8>)
        requires
            self.wf(),
        ensures
            r == (match spec_current_pid(self@) {
                Some(pid) => spec_task_priority(self@, pid),
                None => None,
            }),
    {
        match self.current_pid() {
            Some(pid) => self.task_priority(pid),
            None => None,
        }
    }

    pub fn trace_counters(&self) -> (c: TraceCounters)
        ensures
            c == self@.counters,
    {
        self.counters
    }

    pub fn clear_trace_counters(&mut self)
        requires
            old(self).wf(),
        ensures
            final(self).wf(),
            final(self)@ == (SchedModel { counters: zero_counters(), ..old(self)@ }),
    {
        self.counters = TraceCounters::new();
    }

    /// Install or remove the trace hook; events are queued for the hook only
    /// while one is installed.
    pub fn set_trace_hook(&mut self, installed: bool)
        requires
            old(self).wf(),
        ensures
            final(self).wf(),
            final(self)@ == (SchedModel { hook_installed: installed, ..old(self)@ }),
    {
        self.hook_installed = installed;
    }

    /// Hand over the queued trace events, oldest first.
    pub fn take_trace_events(&mut self) -> (events: Vec<TraceEvent>)
        requires
            old(self).wf(),
        ensures
            final(self).wf(),
            events@ == old(self)@.events,
            final(self)@ == (SchedModel { events: Seq::empty(), ..old(self)@ }),
    {
        let mut events = Vec::new();
        std::mem::swap(&mut events, &mut self.trace_events);
        proof {
            assert(self.trace_events@ =~= Seq::<TraceEvent>::empty());
        }
        events
    }

    /// Whether a context switch was requested; the request is consumed.
    pub fn take_switch_request(&mut self) -> (pending: bool)
        requires
            old(self).wf(),
        ensures
            final(self).wf(),
            pending == old(self)@.switch_pending,
            final(self)@ == (SchedModel { switch_pending: false, ..old(self)@ }),
    {
        let pending = self.switch_pending;
        self.switch_pending = false;
        pending
    }

    pub fn register_task_heartbeat(&mut self, pid: usize, timeout_ms: u32, now: u32) -> (ok: bool)
        requires
            old(self).wf(),
        ensures
            final(self).wf(),
            final(self)@ == m_register_heartbeat(old(self)@, pid, timeout_ms, now).0,
            ok == m_register_heartbeat(old(self)@, pid, timeout_ms, now).1,
    {
        let timeout_ticks = timeout_delay_ticks(timeout_ms);
        if pid >= MAX_TASKS {
            return false;
        }
        match self.tasks[pid] {
            None => false,
            Some(t) => {
                let mut t2 = t;
                t2.heartbeat_registered = true;
                t2.heartbeat_timeout_ticks = timeout_ticks;
                t2.heartbeat_last_seen_tick = now;
                self.update_task(pid, t2);
                true
            },
        }
    }

    pub fn register_current_heartbeat(&mut self, timeout_ms: u32, now: u32) -> (ok: bool)
        requires
            old(self).wf(),
        ensures
            final(self).wf(),
            match spec_current_pid(old(self)@) {
                Some(pid) => {
                    &&& final(self)@ == m_register_heartbeat(old(self)@, pid, timeout_ms, now).0
                    &&& ok == m_register_heartbeat(old(self)@, pid, timeout_ms, now).1
                },
                None => final(self)@ == old(self)@ && !ok,
            },
    {
        match self.current_pid() {
            Some(pid) => self.register_task_heartbeat(pid, timeout_ms, now),
            None => false,
        }
    }

    pub fn task_heartbeat(&mut self, now: u32) -> (ok: bool)
        requires
            old(self).wf(),
        ensures
            final(self).wf(),
            final(self)@ == m_heartbeat(old(self)@, now).0,
            ok == m_heartbeat(old(self)@, now).1,
    {
        let pid = match self.current_pid() {
            Some(pid) => pid,
            None => {
                return false;
            },
        };
        if pid >= MAX_TASKS {
            return false;
        }
        match self.tasks[pid] {
            None => false,
            Some(t) => {
                if !t.heartbeat_registered {
                    return false;
                }
                let mut t2 = t;
                t2.heartbeat_last_seen_tick = now;
                self.update_task(pid, t2);
                true
            },
        }
    }

    /// Make a blocked or sleeping task ready.  The idle task is left alone.
    pub fn unblock(&mut self, pid: usize, now: u32) -> (unblocked: bool)
        requires
            old(self).wf(),
        ensures
            final(self).wf(),
            final(self)@ == m_unblock(old(self)@, pid, now).0,
            unblocked == m_unblock(old(self)@, pid, now).1,
    {
        if pid >= MAX_TASKS || pid == IDLE_PID {
            return false;
        }
        let t = match self.tasks[pid] {
            Some(t) => t,
            None => {
                return false;
            },
        };
        let remove_timeout = t.in_timeout_queue;
        let make_ready = t.state != TaskState::Ready || !t.in_ready_queue;
        if remove_timeout {
            let _ = self.timeout_remove(pid);
        }
        let ghost m1 = self@;
        if make_ready {
            if let Some(t1) = self.tasks[pid] {
                let mut t2 = t1;
                t2.state = TaskState::Ready;
                t2.has_timeout = false;
                t2.wake_tick = 0;
                t2.remaining_slice = DEFAULT_TIME_SLICE_TICKS;
                self.update_task(pid, t2);
            }
            let _ = self.ready_push_back(pid);
            if self.started {
                self.emit_trace(TraceEventKind::TaskUnblock, pid, 0, now);
                self.request_context_switch(now);
            }
        }
        make_ready
    }

    /// Delete a task.  The idle task cannot be deleted.
    pub fn delete_task(&mut self, pid: usize, now: u32) -> (removed: bool)
        requires
            old(self).wf(),
        ensures
            final(self).wf(),
            final(self)@ == m_delete(old(self)@, pid, now).0,
            removed == m_delete(old(self)@, pid, now).1,
    {
        if pid == IDLE_PID {
            return false;
        }
        if pid >= MAX_TASKS {
            return false;
        }
        let t = match self.tasks[pid] {
            Some(t) => t,
            None => {
                return false;
            },
        };
        let was_ready = t.state == TaskState::Ready && t.in_ready_queue;
        let was_running = t.state == TaskState::Running;
        let was_timed = t.in_timeout_queue;
        if was_ready {
            let _ = self.ready_remove(pid);
        }
        if was_timed {
            let _ = self.timeout_remove(pid);
        }
        let mut need_switch = was_running;
        proof {
            assert(old(self).tasks@[pid as int] is Some);
            assert(t.in_ready_queue ==> was_ready);
            assert(self@.tasks[pid as int] == strip(self.tasks@[pid as int]));
        }
        self.set_slot(pid, None);
        if self.current == pid {
            self.current = INVALID_PID;
            need_switch = true;
        }
        if need_switch && self.started {
            self.request_context_switch(now);
        }
        self.emit_trace(TraceEventKind::TaskDelete, pid, 0, now);
        true
    }

    /// Put the current task to sleep for `ms` milliseconds.
    pub fn sleep_ms(&mut self, ms: u32, now: u32)
        requires
            old(self).wf(),
            current_unqueued(old(self)@),
        ensures
            final(self).wf(),
            final(self)@ == m_sleep(old(self)@, ms, now),
    {
        let current_pid = self.current;
        if current_pid < MAX_TASKS {
            if let Some(t) = self.tasks[current_pid] {
                let wake = now.wrapping_add(timeout_delay_ticks(ms));
                let mut t2 = t;
                t2.state = TaskState::Sleeping;
                t2.wake_tick = wake;
                t2.has_timeout = false;
                self.update_task(current_pid, t2);
                let _ = self.timeout_push(current_pid, now);
            }
        }
        self.emit_trace(TraceEventKind::TaskSleep, current_pid, ms as usize, now);
        self.request_context_switch(now);
    }

    /// Block the current task, with an optional timeout in milliseconds.
    pub fn block_current(&mut self, timeout_ms: Option<u32>, now: u32)
        requires
            old(self).wf(),
            current_unqueued(old(self)@),
        ensures
            final(self).wf(),
            final(self)@ == m_block(old(self)@, timeout_ms, now),
    {
        let current_pid = self.current;
        if current_pid < MAX_TASKS {
            if let Some(t) = self.tasks[current_pid] {
                let (has_timeout, wake_tick) = match timeout_ms {
                    Some(ms) => (true, now.wrapping_add(timeout_delay_ticks(ms))),
                    None => (false, 0u32),
                };
                let mut t2 = t;
                t2.state = TaskState::Blocked;
                t2.has_timeout = has_timeout;
                t2.wake_tick = wake_tick;
                self.update_task(current_pid, t2);
                if has_timeout {
                    let _ = self.timeout_push(current_pid, now);
                }
            }
        }
        let aux = match timeout_ms {
            Some(ms) => ms as usize,
            None => 0,
        };
        self.emit_trace(TraceEventKind::TaskBlock, current_pid, aux, now);
        self.request_context_switch(now);
    }

    /// Create a task in the lowest free slot and make it ready.  The caller
    /// has laid out the task's first frame on its stack; `sp` points to it.
    pub fn create_task(
        &mut self,
        entry: usize,
        arg: usize,
        stack_start: usize,
        stack_end: usize,
        sp: usize,
        priority: u8,
        now: u32,
    ) -> (pid: Option<usize>)
        requires
            old(self).wf(),
            stack_start <= stack_end,
        ensures
            final(self).wf(),
            final(self)@ == m_create(old(self)@, entry, arg, stack_start, stack_end, sp, priority, now).0,
            pid == m_create(old(self)@, entry, arg, stack_start, stack_end, sp, priority, now).1,
    {
        if priority as usize >= MAX_PRIORITY {
            return None;
        }
        let mut i: usize = 0;
        while i < MAX_TASKS
            invariant
                self.wf(),
                0 <= i <= MAX_TASKS,
                *self == *old(self),
                first_free_from(self@.tasks, 0) == first_free_from(self@.tasks, i as int),
            ensures
                self.wf(),
                *self == *old(self),
                i <= MAX_TASKS,
                i < MAX_TASKS ==> self.tasks@[i as int] is None,
                first_free_from(self@.tasks, 0) == first_free_from(self@.tasks, i as int),
            decreases MAX_TASKS - i,
        {
            if self.tasks[i].is_none() {
                break;
            }
            i = i + 1;
        }
        if i == MAX_TASKS {
            return None;
        }
        let pid = i;
        proof {
            assert(self@.tasks[pid as int] == strip(self.tasks@[pid as int]));
        }
        let t = Tcb::init(pid, sp, priority, DEFAULT_TIME_SLICE_TICKS, stack_start, stack_end, entry, arg);
        self.set_slot(pid, Some(t));
        let _ = self.ready_push_back(pid);
        self.emit_trace(TraceEventKind::TaskCreate, pid, priority as usize, now);
        Some(pid)
    }
}

pub fn effective_priority(t: &Tcb) -> (p: u8)
    ensures
        p == spec_effective_priority(*t),
{
    let mut effective = t.base_priority;
    let mut i: usize = 0;
    while i < MAX_PRIORITY
        invariant
            0 <= i <= MAX_PRIORITY,
            effective == t.base_priority,
            first_boost_from(t.priority_boosts@, 0) == first_boost_from(t.priority_boosts@, i as int),
        decreases MAX_PRIORITY - i,
    {
        if t.priority_boosts[i] > 0 {
            if (i as u8) < effective {
                effective = i as u8;
            }
            return effective;
        }
        i = i + 1;
    }
    effective
}

impl Scheduler {
    /// Give a task a new base priority and boosts, and bring its priority in
    /// line with them (moving it between ready queues when it is queued).
    fn retarget_priority_locked(&mut self, pid: usize, base: u8, boosts: [u8; MAX_PRIORITY]) -> (need_switch: bool)
        requires
            old(self).wf(),
            pid != IDLE_PID,
            pid < MAX_TASKS,
            old(self).tasks@[pid as int] is Some,
            base < MAX_PRIORITY,
        ensures
            final(self).wf(),
            ({
                let mb = set_task(
                    old(self)@,
                    pid,
                    Tcb { base_priority: base, priority_boosts: boosts, ..task_at(old(self)@, pid)->0 },
                );
                &&& final(self)@ == m_update_priority(mb, pid).0
                &&& need_switch == m_update_priority(mb, pid).1
            }),
    {
        let t = match self.tasks[pid] {
            Some(t) => t,
            None => {
                return false;
            },
        };
        let ghost mb = set_task(
            old(self)@,
            pid,
            Tcb { base_priority: base, priority_boosts: boosts, ..task_at(old(self)@, pid)->0 },
        );
        let mut tn = t;
        tn.base_priority = base;
        tn.priority_boosts = boosts;
        let old_prio = t.priority;
        let new_prio = effective_priority(&tn);
        proof {
            assert(old(self)@.tasks[pid as int] == strip(old(self).tasks@[pid as int]));
            assert(task_at(mb, pid)->0.priority_boosts == boosts);
            assert(spec_effective_priority(task_at(mb, pid)->0) == new_prio);
        }
        if old_prio == new_prio {
            self.update_task(pid, tn);
            proof {
                assert(self@.tasks =~= mb.tasks);
            }
            return false;
        }
        let was_ready = t.state == TaskState::Ready && t.in_ready_queue;
        let was_running = t.state == TaskState::Running;
        let current_pid = self.current;
        let mut need_switch = false;
        proof {
            assert(old(self).tasks@[pid as int] is Some);
            assert(t.in_ready_queue ==> was_ready);
            assert(new_prio < MAX_PRIORITY);
        }
        if was_ready {
            let _ = self.ready_remove(pid);
        }
        proof {
            assert(self@.tasks[pid as int] == strip(self.tasks@[pid as int]));
        }
        if let Some(t1) = self.tasks[pid] {
            let mut t2 = t1;
            t2.base_priority = base;
            t2.priority_boosts = boosts;
            t2.priority = new_prio;
            proof {
                assert(t2.priority_boosts == boosts);
            }
            self.update_task(pid, t2);
        }
        proof {
            let mb1 = if was_ready { m_ready_remove(mb, pid).0 } else { mb };
            assert(self@.tasks =~= set_task(mb1, pid, Tcb { priority: new_prio, ..task_at(mb1, pid)->0 }).tasks);
        }
        if was_ready {
            let _ = self.ready_push_back(pid);
            if current_pid != pid {
                if current_pid < MAX_TASKS {
                    if let Some(current) = self.tasks[current_pid] {
                        if current.state == TaskState::Running && new_prio < current.priority {
                            need_switch = true;
                        }
                    }
                }
            }
        }
        if was_running {
            proof {
                self.lemma_mask_matches();
            }
            if let Some(best_prio) = highest_ready_priority(self.ready_mask) {
                if best_prio < new_prio {
                    need_switch = true;
                }
            }
        }
        proof {
            assert(current_pid < MAX_TASKS ==> self@.tasks[current_pid as int] == strip(
                self.tasks@[current_pid as int],
            ));
        }
        need_switch
    }

    /// Finish a priority change: switch if needed, and trace it.
    fn after_priority_change(&mut self, need: bool, pid: usize, aux: usize, now: u32)
        requires
            old(self).wf(),
        ensures
            final(self).wf(),
            final(self)@ == m_after_priority_change(old(self)@, need, pid, aux, now),
    {
        if need && self.started {
            self.request_context_switch(now);
        }
        self.emit_trace(TraceEventKind::PriorityUpdate, pid, aux, now);
    }

    /// Change the base priority of a task.  The idle task keeps its priority.
    pub fn set_priority(&mut self, pid: usize, new_prio: u8, now: u32) -> (updated: bool)
        requires
            old(self).wf(),
        ensures
            final(self).wf(),
            final(self)@ == m_set_priority(old(self)@, pid, new_prio, now).0,
            updated == m_set_priority(old(self)@, pid, new_prio, now).1,
            updated ==> (task_at(final(self)@, pid) matches Some(t) && t.base_priority == new_prio
                && t.priority == spec_effective_priority(t)),
    {
        proof {
            if pid < MAX_TASKS && self.tasks@[pid as int] is Some {
                assert(crate::scheduler::slot_coherent(pid as int, self.tasks@[pid as int]->0));
            }
        }
        if new_prio as usize >= MAX_PRIORITY || pid == IDLE_PID {
            return false;
        }
        if pid >= MAX_TASKS {
            return false;
        }
        let t = match self.tasks[pid] {
            Some(t) => t,
            None => {
                return false;
            },
        };
        if t.base_priority == new_prio {
            self.emit_trace(TraceEventKind::PriorityUpdate, pid, new_prio as usize, now);
            return true;
        }
        let need = self.retarget_priority_locked(pid, new_prio, t.priority_boosts);
        proof {
            assert(old(self)@.tasks[pid as int] == strip(old(self).tasks@[pid as int]));
            assert(self@.tasks[pid as int] == strip(self.tasks@[pid as int]));
            assert(self.tasks@[pid as int] is Some);
            assert(crate::scheduler::slot_coherent(pid as int, self.tasks@[pid as int]->0));
        }
        self.after_priority_change(need, pid, new_prio as usize, now);
        true
    }

    /// Add one priority boost at level `boost_prio` (priority inheritance).
    pub fn add_priority_boost(&mut self, pid: usize, boost_prio: u8, now: u32) -> (changed: bool)
        requires
            old(self).wf(),
        ensures
            final(self).wf(),
            final(self)@ == m_add_boost(old(self)@, pid, boost_prio, now).0,
            changed == m_add_boost(old(self)@, pid, boost_prio, now).1,
    {
        if pid == IDLE_PID || boost_prio as usize >= MAX_PRIORITY {
            return false;
        }
        if pid >= MAX_TASKS {
            return false;
        }
        let t = match self.tasks[pid] {
            Some(t) => t,
            None => {
                return false;
            },
        };
        let mut t2 = t;
        let b = boost_prio as usize;
        t2.priority_boosts[b] = t.priority_boosts[b].saturating_add(1);
        proof {
            broadcast use vstd::array::group_array_axioms;

            assert(t2.priority_boosts =~= vstd::array::spec_array_update(
                t.priority_boosts,
                b as int,
                t2.priority_boosts[b as int],
            ));
        }
        let need = self.retarget_priority_locked(pid, t.base_priority, t2.priority_boosts);
        proof {
            assert(old(self)@.tasks[pid as int] == strip(old(self).tasks@[pid as int]));
        }
        self.after_priority_change(need, pid, boost_prio as usize, now);
        true
    }

    /// Take one priority boost at level `boost_prio` away.
    pub fn remove_priority_boost(&mut self, pid: usize, boost_prio: u8, now: u32) -> (changed: bool)
        requires
            old(self).wf(),
        ensures
            final(self).wf(),
            final(self)@ == m_remove_boost(old(self)@, pid, boost_prio, now).0,
            changed == m_remove_boost(old(self)@, pid, boost_prio, now).1,
    {
        if pid == IDLE_PID || boost_prio as usize >= MAX_PRIORITY {
            return false;
        }
        if pid >= MAX_TASKS {
            return false;
        }
        let t = match self.tasks[pid] {
            Some(t) => t,
            None => {
                return false;
            },
        };
        let b = boost_prio as usize;
        if t.priority_boosts[b] == 0 {
            return false;
        }
        let mut t2 = t;
        t2.priority_boosts[b] = t.priority_boosts[b] - 1;
        proof {
            broadcast use vstd::array::group_array_axioms;

            assert(t2.priority_boosts =~= vstd::array::spec_array_update(
                t.priority_boosts,
                b as int,
                t2.priority_boosts[b as int],
            ));
        }
        let need = self.retarget_priority_locked(pid, t.base_priority, t2.priority_boosts);
        proof {
            assert(old(self)@.tasks[pid as int] == strip(old(self).tasks@[pid as int]));
        }
        self.after_priority_change(need, pid, boost_prio as usize, now);
        true
    }
}

} // verus!
