use vstd::prelude::*;

use crate::diagnostics::TraceEventKind;
use crate::scheduler::ready::highest_ready_priority;
use crate::scheduler::timeouts::m_process_slot;
use crate::scheduler::{
    DEFAULT_TIME_SLICE_TICKS, IDLE_PID, MAX_TASKS, SchedModel, Scheduler, highest_nonempty, m_emit,
    m_pop_highest, m_ready_push, m_request_switch, set_task, strip, task_at,
};
use crate::tcb::{TaskState, Tcb};

verus! {

/// The running task is charged one tick of run time (saturating).
pub open spec fn m_account_runtime(m: SchedModel) -> SchedModel {
    match task_at(m, m.current) {
        Some(t) => if t.state == TaskState::Running {
            set_task(
                m,
                m.current,
                Tcb {
                    runtime_ticks: if t.runtime_ticks == u32::MAX {
                        u32::MAX
                    } else {
                        (t.runtime_ticks + 1) as u32
                    },
                    ..t
                },
            )
        } else {
            m
        },
        None => m,
    }
}

/// Visit the wheel buckets of the `count` ticks after `from`, in order.
pub open spec fn m_process_ticks(m: SchedModel, from: u32, count: nat, now: u32) -> (SchedModel, bool)
    decreases count,
{
    if count == 0 {
        (m, false)
    } else {
        let t = from.wrapping_add(1);
        let (m1, r1) = m_process_slot(m, t, now);
        let (m2, r2) = m_process_ticks(m1, t, (count - 1) as nat, now);
        (m2, r1 || r2)
    }
}

/// Time-slice bookkeeping for the current task after the timeouts of a
/// tick: returns the new state, whether the current task goes back to its
/// ready queue, and whether a switch is due.
pub open spec fn m_slice(m: SchedModel, pend: bool) -> (SchedModel, bool, bool) {
    let cur = m.current;
    match task_at(m, cur) {
        Some(c) => if c.state == TaskState::Running {
            if cur == IDLE_PID {
                (m, false, pend || highest_nonempty(m.ready) is Some)
            } else {
                let rs: u32 = if c.remaining_slice > 0 {
                    (c.remaining_slice - 1) as u32
                } else {
                    0
                };
                if rs == 0 {
                    (
                        set_task(
                            m,
                            cur,
                            Tcb {
                                remaining_slice: DEFAULT_TIME_SLICE_TICKS,
                                state: TaskState::Ready,
                                ..c
                            },
                        ),
                        true,
                        true,
                    )
                } else if !pend && (match highest_nonempty(m.ready) {
                    Some(best) => best < c.priority,
                    None => false,
                }) {
                    (set_task(m, cur, Tcb { remaining_slice: rs, state: TaskState::Ready, ..c }), true, true)
                } else {
                    (set_task(m, cur, Tcb { remaining_slice: rs, ..c }), false, pend)
                }
            }
        } else {
            (m, false, true)
        },
        None => (m, false, true),
    }
}

/// One system tick at time `now`.
pub open spec fn m_tick(m: SchedModel, now: u32) -> SchedModel {
    if !m.started {
        m
    } else {
        let m1 = m_account_runtime(m);
        let (m2, pend0) = m_process_ticks(m1, m1.last_tick, now.wrapping_sub(m1.last_tick) as nat, now);
        let m3 = SchedModel { last_tick: now, ..m2 };
        let (m4, requeue, pend) = m_slice(m3, pend0);
        let m5 = if requeue {
            m_ready_push(m4, m4.current).0
        } else {
            m4
        };
        if pend {
            m_request_switch(m5, now)
        } else {
            m5
        }
    }
}

/// A stack pointer lies inside its task's stack, 8-byte aligned, with room
/// for a full saved frame of sixteen words above it.
pub open spec fn spec_stack_pointer_is_sane(t: Tcb, sp: usize) -> bool {
    &&& sp != 0
    &&& sp % 8 == 0
    &&& sp >= t.stack_start
    &&& sp + 64 <= t.stack_end
}

pub fn stack_pointer_is_sane(t: &Tcb, sp: usize) -> (r: bool)
    ensures
        r == spec_stack_pointer_is_sane(*t, sp),
{
    assert(sp & 7usize == sp % 8) by (bit_vector);
    sp != 0 && (sp & 7) == 0 && sp >= t.stack_start && sp <= t.stack_end && t.stack_end - sp >= 64
}

/// The task chosen to run is marked running, with a fresh slice if its slice
/// was used up.
pub open spec fn m_mark_running(m: SchedModel, pid: usize) -> SchedModel {
    match task_at(m, pid) {
        Some(t) => set_task(
            m,
            pid,
            Tcb {
                state: TaskState::Running,
                remaining_slice: if t.remaining_slice == 0 {
                    DEFAULT_TIME_SLICE_TICKS
                } else {
                    t.remaining_slice
                },
                ..t
            },
        ),
        None => m,
    }
}

/// Save the outgoing task's stack pointer and, if it was running, queue it
/// again (the idle task is never queued here).
pub open spec fn m_save_outgoing(m: SchedModel, save_sp: usize) -> (SchedModel, bool) {
    let from = m.current;
    match task_at(m, from) {
        Some(c) => if from != IDLE_PID && c.state == TaskState::Running {
            (set_task(m, from, Tcb { sp: save_sp, state: TaskState::Ready, ..c }), true)
        } else {
            (set_task(m, from, Tcb { sp: save_sp, ..c }), false)
        },
        None => (m, false),
    }
}

/// PendSV: save the outgoing task, pick the next one, and return its stack
/// pointer.  A pick whose stack pointer is not sane falls back to idle.
pub open spec fn m_context_switch(m: SchedModel, save_sp: usize, now: u32) -> (SchedModel, usize) {
    let from = m.current;
    let (m1, requeue) = m_save_outgoing(m, save_sp);
    let m2 = if requeue {
        m_ready_push(m1, from).0
    } else {
        m1
    };
    let (m3, popped) = m_pop_highest(m2);
    let pid0 = match popped {
        Some(p) => p,
        None => IDLE_PID,
    };
    let sp0 = match task_at(m3, pid0) {
        Some(t) => t.sp,
        None => 0,
    };
    let sane = match task_at(m3, pid0) {
        Some(t) => spec_stack_pointer_is_sane(t, sp0),
        None => false,
    };
    let pid = if sane {
        pid0
    } else {
        IDLE_PID
    };
    let sp = if sane {
        sp0
    } else {
        match task_at(m3, IDLE_PID) {
            Some(t) => t.sp,
            None => save_sp,
        }
    };
    let m5 = SchedModel { current: pid, ..m_mark_running(m3, pid) };
    (m_emit(m5, TraceEventKind::ContextSwitch, pid, from, now), sp)
}

/// Start scheduling: the most urgent ready task (or idle) becomes current.
pub open spec fn m_start_first(m: SchedModel) -> (SchedModel, usize) {
    let (m1, popped) = m_pop_highest(m);
    let pid = match popped {
        Some(p) => p,
        None => IDLE_PID,
    };
    let sp = task_at(m1, pid)->0.sp;
    (SchedModel { current: pid, started: true, ..m_mark_running(m1, pid) }, sp)
}

impl Scheduler {
    fn account_runtime_tick(&mut self)
        requires
            old(self).wf(),
        ensures
            final(self).wf(),
            final(self)@ == m_account_runtime(old(self)@),
    {
        let cur = self.current;
        if cur < MAX_TASKS {
            if let Some(t) = self.tasks[cur] {
                if t.state == TaskState::Running {
                    let mut t2 = t;
                    t2.runtime_ticks = t.runtime_ticks.saturating_add(1);
                    self.update_task(cur, t2);
                }
            }
        }
    }

    fn process_elapsed_ticks(&mut self, now: u32, pend_switch: &mut bool)
        requires
            old(self).wf(),
        ensures
            final(self).wf(),
            final(self)@ == m_process_ticks(
                old(self)@,
                old(self)@.last_tick,
                now.wrapping_sub(old(self)@.last_tick) as nat,
                now,
            ).0,
            *final(pend_switch) == (*old(pend_switch) || m_process_ticks(
                old(self)@,
                old(self)@.last_tick,
                now.wrapping_sub(old(self)@.last_tick) as nat,
                now,
            ).1),
    {
        let ghost m0 = self@;
        let ghost goal = m_process_ticks(m0, m0.last_tick, now.wrapping_sub(m0.last_tick) as nat, now);
        let mut processed_tick = self.last_tick;
        loop
            invariant
                self.wf(),
                m_process_ticks(self@, processed_tick, now.wrapping_sub(processed_tick) as nat, now).0
                    == goal.0,
                (*pend_switch || m_process_ticks(
                    self@,
                    processed_tick,
                    now.wrapping_sub(processed_tick) as nat,
                    now,
                ).1) == (*old(pend_switch) || goal.1),
            ensures
                self.wf(),
                self@ == goal.0,
                *pend_switch == (*old(pend_switch) || goal.1),
            decreases now.wrapping_sub(processed_tick),
        {
            if processed_tick == now {
                break;
            }
            let ghost before = self@;
            let ghost p0 = processed_tick;
            processed_tick = processed_tick.wrapping_add(1);
            self.process_timeout_slot(processed_tick, now, pend_switch);
            proof {
                assert(now.wrapping_sub(processed_tick) as nat == (now.wrapping_sub(p0) - 1) as nat);
            }
        }
    }

    /// Time-slice bookkeeping for the current task.
    fn slice_step(&mut self, pend: bool) -> (r: (bool, bool))
        requires
            old(self).wf(),
        ensures
            final(self).wf(),
            final(self)@ == m_slice(old(self)@, pend).0,
            r == (m_slice(old(self)@, pend).1, m_slice(old(self)@, pend).2),
    {
        let current_pid = self.current;
        let mut pend_switch = pend;
        let mut requeue_current = false;
        proof {
            self.lemma_mask_matches();
        }
        if current_pid < MAX_TASKS {
            if let Some(current) = self.tasks[current_pid] {
                if current.state == TaskState::Running {
                    if current_pid == IDLE_PID {
                        if !pend_switch && self.ready_mask != 0 {
                            pend_switch = true;
                        }
                    } else {
                        let mut c = current;
                        if c.remaining_slice > 0 {
                            c.remaining_slice = c.remaining_slice - 1;
                        }
                        if c.remaining_slice == 0 {
                            c.remaining_slice = DEFAULT_TIME_SLICE_TICKS;
                            c.state = TaskState::Ready;
                            requeue_current = true;
                            pend_switch = true;
                        } else if !pend_switch {
                            if let Some(best_prio) = highest_ready_priority(self.ready_mask) {
                                if best_prio < c.priority {
                                    c.state = TaskState::Ready;
                                    requeue_current = true;
                                    pend_switch = true;
                                }
                            }
                        }
                        proof {
                            assert(old(self).tasks@[current_pid as int] is Some);
                        }
                        self.update_task(current_pid, c);
                    }
                } else {
                    pend_switch = true;
                }
            } else {
                pend_switch = true;
            }
        } else {
            pend_switch = true;
        }
        proof {
            assert(current_pid < MAX_TASKS ==> old(self)@.tasks[current_pid as int] == strip(
                old(self).tasks@[current_pid as int],
            ));
        }
        (requeue_current, pend_switch)
    }

    /// One system tick at time `now` (the SysTick handler's scheduler part).
    pub fn tick_at(&mut self, now: u32)
        requires
            old(self).wf(),
        ensures
            final(self).wf(),
            final(self)@ == m_tick(old(self)@, now),
    {
        if !self.started {
            return;
        }
        let mut pend_switch = false;
        self.account_runtime_tick();
        self.process_elapsed_ticks(now, &mut pend_switch);
        self.last_tick = now;
        let (requeue_current, pend) = self.slice_step(pend_switch);
        if requeue_current {
            let cur = self.current;
            proof {
                assert(cur < MAX_TASKS ==> self@.tasks[cur as int] == strip(self.tasks@[cur as int]));
            }
            let _ = self.ready_push_back(cur);
        }
        if pend {
            self.request_context_switch(now);
        }
    }
}

impl Scheduler {
    fn mark_running(&mut self, pid: usize)
        requires
            old(self).wf(),
            pid == IDLE_PID || task_at(old(self)@, pid) is None || !task_at(old(self)@, pid)->0.in_ready_queue,
            pid == IDLE_PID || task_at(old(self)@, pid) is None || !task_at(old(self)@, pid)->0.in_timeout_queue,
        ensures
            final(self).wf(),
            final(self)@ == m_mark_running(old(self)@, pid),
    {
        if pid < MAX_TASKS {
            if let Some(t) = self.tasks[pid] {
                let mut t2 = t;
                t2.state = TaskState::Running;
                if t2.remaining_slice == 0 {
                    t2.remaining_slice = DEFAULT_TIME_SLICE_TICKS;
                }
                proof {
                    assert(old(self)@.tasks[pid as int] == strip(old(self).tasks@[pid as int]));
                }
                self.update_task(pid, t2);
            }
        }
    }

    fn save_outgoing(&mut self, save_sp: usize) -> (requeue: bool)
        requires
            old(self).wf(),
        ensures
            final(self).wf(),
            final(self)@ == m_save_outgoing(old(self)@, save_sp).0,
            requeue == m_save_outgoing(old(self)@, save_sp).1,
    {
        let current_pid = self.current;
        let mut requeue_current = false;
        if current_pid < MAX_TASKS {
            if let Some(current) = self.tasks[current_pid] {
                let mut c = current;
                c.sp = save_sp;
                if current_pid != IDLE_PID && c.state == TaskState::Running {
                    c.state = TaskState::Ready;
                    requeue_current = true;
                }
                proof {
                    assert(old(self).tasks@[current_pid as int] is Some);
                    assert(old(self)@.tasks[current_pid as int] == strip(
                        old(self).tasks@[current_pid as int],
                    ));
                }
                self.update_task(current_pid, c);
            }
        }
        requeue_current
    }

    /// PendSV: save the outgoing task's stack pointer, pick the next task and
    /// return its stack pointer.
    #[verifier::rlimit(80)]
    pub fn context_switch(&mut self, save_sp: usize, now: u32) -> (next_sp: usize)
        requires
            old(self).wf(),
        ensures
            final(self).wf(),
            final(self)@ == m_context_switch(old(self)@, save_sp, now).0,
            next_sp == m_context_switch(old(self)@, save_sp, now).1,
    {
        let switched_from = self.current;
        let requeue_current = self.save_outgoing(save_sp);
        if requeue_current {
            let _ = self.ready_push_back(switched_from);
        }
        let mut pid = match self.ready_pop_highest() {
            Some(p) => p,
            None => IDLE_PID,
        };
        let ghost m3 = self@;
        proof {
            let m2 = old(self)@;
            assert(pid != IDLE_PID && task_at(m3, pid) is Some ==> !task_at(m3, pid)->0.in_ready_queue);
            assert(pid < MAX_TASKS ==> self@.tasks[pid as int] == strip(self.tasks@[pid as int]));
            assert(self@.tasks[IDLE_PID as int] == strip(self.tasks@[IDLE_PID as int]));
        }
        let mut sp: usize = 0;
        let mut selected_sane = false;
        if pid < MAX_TASKS {
            if let Some(t) = self.tasks[pid] {
                sp = t.sp;
                selected_sane = stack_pointer_is_sane(&t, sp);
            }
        }
        if !selected_sane {
            pid = IDLE_PID;
            sp = match self.tasks[IDLE_PID] {
                Some(t) => t.sp,
                None => save_sp,
            };
        }
        self.mark_running(pid);
        self.current = pid;
        self.emit_trace(TraceEventKind::ContextSwitch, pid, switched_from, now);
        sp
    }

    /// Start scheduling: the most urgent ready task, or the idle task, becomes
    /// current.  Returns its saved stack pointer.
    pub fn start_first_task(&mut self) -> (first_sp: usize)
        requires
            old(self).wf(),
        ensures
            final(self).wf(),
            final(self)@ == m_start_first(old(self)@).0,
            first_sp == m_start_first(old(self)@).1,
    {
        let pid = match self.ready_pop_highest() {
            Some(p) => p,
            None => IDLE_PID,
        };
        proof {
            assert(pid < MAX_TASKS ==> self@.tasks[pid as int] == strip(self.tasks@[pid as int]));
        }
        let sp = match self.tasks[pid] {
            Some(t) => t.sp,
            None => 0,
        };
        self.mark_running(pid);
        self.current = pid;
        self.started = true;
        sp
    }
}

} // verus!
