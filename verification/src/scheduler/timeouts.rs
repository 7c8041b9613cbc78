use vstd::prelude::*;

use crate::diagnostics::TraceEventKind;
use crate::scheduler::wheel::timeout_bucket_index;
use crate::scheduler::{
    DEFAULT_TIME_SLICE_TICKS, IDLE_PID, MAX_TASKS, SchedModel, Scheduler, TIMEOUT_WHEEL_SIZE,
    bucket_of, m_emit, m_ready_push, m_timeout_remove, set_task, task_at, wq_node_ok, wq_ok,
};
use crate::systick::{spec_time_after_eq, time_after_eq};
use crate::tcb::{TaskState, Tcb};

verus! {

/// A task whose timeout has come: sleepers and timed waiters become ready;
/// any other task only loses its pending timeout.  The flag tells whether
/// the task became ready.
pub open spec fn expired_task(t: Tcb) -> (Tcb, bool) {
    match t.state {
        TaskState::Sleeping => (
            Tcb { state: TaskState::Ready, remaining_slice: DEFAULT_TIME_SLICE_TICKS, wake_tick: 0, ..t },
            true,
        ),
        TaskState::Blocked => if t.has_timeout {
            (
                Tcb {
                    state: TaskState::Ready,
                    has_timeout: false,
                    wake_tick: 0,
                    remaining_slice: DEFAULT_TIME_SLICE_TICKS,
                    ..t
                },
                true,
            )
        } else {
            (Tcb { has_timeout: false, wake_tick: 0, ..t }, false)
        },
        _ => (Tcb { has_timeout: false, wake_tick: 0, ..t }, false),
    }
}

/// One wheel entry visited at `tick`: a task with turns left loses one turn;
/// a task whose wake tick has come expires (and joins its ready queue,
/// unless it is the idle task); any other task waits on.
pub open spec fn m_slot_step(m: SchedModel, pid: usize, tick: u32, now: u32) -> (SchedModel, bool) {
    match task_at(m, pid) {
        None => (m, false),
        Some(t) => if t.timeout_rounds > 0 {
            (set_task(m, pid, Tcb { timeout_rounds: (t.timeout_rounds - 1) as u32, ..t }), false)
        } else if spec_time_after_eq(tick, t.wake_tick) {
            let m1 = m_timeout_remove(m, pid).0;
            let (nt, became_ready) = expired_task(task_at(m1, pid)->0);
            let m2 = set_task(m1, pid, nt);
            if became_ready {
                (
                    m_emit(
                        if pid == IDLE_PID {
                            m2
                        } else {
                            m_ready_push(m2, pid).0
                        },
                        TraceEventKind::TimeoutExpire,
                        pid,
                        tick as usize,
                        now,
                    ),
                    true,
                )
            } else {
                (m2, false)
            }
        } else {
            (m, false)
        },
    }
}

/// Visit the given wheel entries in order; the flag tells whether any task
/// became ready.
pub open spec fn m_process_list(m: SchedModel, list: Seq<usize>, tick: u32, now: u32) -> (
    SchedModel,
    bool,
)
    decreases list.len(),
{
    if list.len() == 0 {
        (m, false)
    } else {
        let (m1, r1) = m_slot_step(m, list[0], tick, now);
        let (m2, r2) = m_process_list(m1, list.drop_first(), tick, now);
        (m2, r1 || r2)
    }
}

/// Visit every entry of the wheel bucket of `tick`, front to back.
pub open spec fn m_process_slot(m: SchedModel, tick: u32, now: u32) -> (SchedModel, bool) {
    m_process_list(m, m.wheel[bucket_of(tick)], tick, now)
}

/// Removing the first element of the suffix of a duplicate-free sequence.
proof fn lemma_remove_at_seam(done: Seq<usize>, rest: Seq<usize>)
    requires
        (done + rest).no_duplicates(),
        rest.len() > 0,
    ensures
        (done + rest).index_of(rest[0]) == done.len(),
        (done + rest).remove((done + rest).index_of(rest[0])) =~= done + rest.drop_first(),
{
    let s = done + rest;
    assert(s[done.len() as int] == rest[0]);
    assert(s.contains(rest[0]));
    let i = s.index_of(rest[0]);
    assert(s[i] == rest[0]);
}

impl Scheduler {
    /// Visit the wheel bucket of `tick`: count down the turns of tasks that
    /// must wait longer, and wake the tasks whose wake tick has come.
    #[verifier::rlimit(50)]
    pub fn process_timeout_slot(&mut self, tick: u32, now: u32, pend_switch: &mut bool)
        requires
            old(self).wf(),
        ensures
            final(self).wf(),
            final(self)@ == m_process_slot(old(self)@, tick, now).0,
            *final(pend_switch) == (*old(pend_switch) || m_process_slot(old(self)@, tick, now).1),
    {
        let bucket = timeout_bucket_index(tick);
        let ghost orig = self.wheel@[bucket as int];
        let ghost m0 = self@;
        let ghost mut done: Seq<usize> = Seq::empty();
        let ghost mut k: int = 0;
        proof {
            assert(wq_ok(
                self.tasks@,
                orig,
                bucket as int,
                self.wheel_heads@[bucket as int],
                self.wheel_tails@[bucket as int],
            ));
            assert(orig.subrange(0, orig.len() as int) =~= orig);
            assert(done + orig =~= orig);
        }
        let mut cursor = self.wheel_heads[bucket];
        loop
            invariant
                self.wf(),
                bucket as int == bucket_of(tick),
                bucket < TIMEOUT_WHEEL_SIZE,
                0 <= k <= orig.len(),
                cursor == (if k < orig.len() { Some(orig[k]) } else { None::<usize> }),
                self.wheel@[bucket as int] == done + orig.subrange(k, orig.len() as int),
                m_process_list(self@, orig.subrange(k, orig.len() as int), tick, now).0
                    == m_process_list(m0, orig, tick, now).0,
                (*pend_switch || m_process_list(self@, orig.subrange(k, orig.len() as int), tick, now).1)
                    == (*old(pend_switch) || m_process_list(m0, orig, tick, now).1),
            ensures
                self.wf(),
                self@ == m_process_list(m0, orig, tick, now).0,
                *pend_switch == (*old(pend_switch) || m_process_list(m0, orig, tick, now).1),
            decreases orig.len() - k,
        {
            let pid = match cursor {
                Some(pid) => pid,
                None => {
                    proof {
                        assert(orig.subrange(k, orig.len() as int).len() == 0);
                    }
                    break;
                },
            };
            let ghost rest = orig.subrange(k, orig.len() as int);
            let ghost cur = done + rest;
            proof {
                assert(rest[0] == pid);
                assert(wq_ok(
                    self.tasks@,
                    cur,
                    bucket as int,
                    self.wheel_heads@[bucket as int],
                    self.wheel_tails@[bucket as int],
                ));
                assert(cur[done.len() as int] == pid);
                assert(wq_node_ok(self.tasks@, cur, bucket as int, done.len() as int));
                if done.len() + 1 < cur.len() {
                    assert(cur[done.len() + 1int] == orig[k + 1]);
                }
                assert(rest.drop_first() =~= orig.subrange(k + 1, orig.len() as int));
            }
            let ghost before = self@;
            let next = match self.tasks[pid] {
                Some(t) => t.timeout_next,
                None => None,
            };
            let mut due = false;
            let mut became_ready = false;
            if let Some(task) = self.tasks[pid] {
                if task.timeout_rounds > 0 {
                    let mut t2 = task;
                    t2.timeout_rounds = task.timeout_rounds - 1;
                    self.update_task(pid, t2);
                } else if time_after_eq(tick, task.wake_tick) {
                    due = true;
                }
            }
            if due {
                let _ = self.timeout_remove(pid);
                proof {
                    lemma_remove_at_seam(done, rest);
                }
                if let Some(task) = self.tasks[pid] {
                    let mut t2 = task;
                    match task.state {
                        TaskState::Sleeping => {
                            t2.state = TaskState::Ready;
                            t2.remaining_slice = DEFAULT_TIME_SLICE_TICKS;
                            t2.wake_tick = 0;
                            became_ready = true;
                        },
                        TaskState::Blocked => {
                            if task.has_timeout {
                                t2.state = TaskState::Ready;
                                t2.has_timeout = false;
                                t2.wake_tick = 0;
                                t2.remaining_slice = DEFAULT_TIME_SLICE_TICKS;
                                became_ready = true;
                            } else {
                                t2.has_timeout = false;
                                t2.wake_tick = 0;
                            }
                        },
                        _ => {
                            t2.has_timeout = false;
                            t2.wake_tick = 0;
                        },
                    }
                    self.update_task(pid, t2);
                }
                if became_ready {
                    if pid != IDLE_PID {
                        let _ = self.ready_push_back(pid);
                    }
                    self.emit_trace(TraceEventKind::TimeoutExpire, pid, tick as usize, now);
                    *pend_switch = true;
                }
            }
            proof {
                assert(self@ == m_slot_step(before, pid, tick, now).0);
                assert(became_ready == m_slot_step(before, pid, tick, now).1);
                if !due {
                    done = done.push(pid);
                    assert(done + rest.drop_first() =~= cur);
                }
                k = k + 1;
            }
            cursor = next;
        }
    }
}

} // verus!
