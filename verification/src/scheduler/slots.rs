use vstd::prelude::*;

use crate::diagnostics::TraceEventKind;
use crate::diagnostics::TraceEvent;
use crate::scheduler::{
    IDLE_PID, MAX_TASKS, SchedModel, Scheduler, TIMEOUT_WHEEL_SIZE, lemma_rq_frame, lemma_wq_frame,
    m_emit, m_request_switch, ready_part, rq_node_ok, rq_ok, strip, wheel_part, wq_node_ok, wq_ok,
};
use crate::scheduler::ops::spec_effective_priority;
use crate::tcb::{MAX_PRIORITY, TaskState, Tcb};

verus! {

/// `t` keeps every field of `o` that the queues depend on.
pub open spec fn same_queue_fields(o: Tcb, t: Tcb) -> bool {
    &&& t.pid == o.pid
    &&& (o.in_ready_queue ==> t.priority == o.priority)
    &&& t.priority < MAX_PRIORITY
    &&& t.in_ready_queue == o.in_ready_queue
    &&& t.ready_prev == o.ready_prev
    &&& t.ready_next == o.ready_next
    &&& t.in_timeout_queue == o.in_timeout_queue
    &&& t.timeout_prev == o.timeout_prev
    &&& t.timeout_next == o.timeout_next
    &&& (o.in_timeout_queue ==> t.wake_tick == o.wake_tick)
}

/// A slot content that belongs to no queue and respects the priority range.
pub open spec fn free_standing(o: Option<Tcb>) -> bool {
    match o {
        None => true,
        Some(t) => !t.in_ready_queue && !t.in_timeout_queue && t.priority < MAX_PRIORITY
            && t.base_priority < MAX_PRIORITY && t.stack_start <= t.stack_end,
    }
}

impl Scheduler {
    /// The queue facts of `wf` that concern the queues alone hold after
    /// `tasks` changes only where no queue looks.
    proof fn lemma_queues_frame(old_s: &Scheduler, new_s: &Scheduler)
        requires
            old_s.wf(),
            new_s.ready@ == old_s.ready@,
            new_s.wheel@ == old_s.wheel@,
            new_s.ready_heads == old_s.ready_heads,
            new_s.ready_tails == old_s.ready_tails,
            new_s.ready_counts == old_s.ready_counts,
            new_s.ready_mask == old_s.ready_mask,
            new_s.wheel_heads == old_s.wheel_heads,
            new_s.wheel_tails == old_s.wheel_tails,
            forall|i: int|
                0 <= i < MAX_TASKS ==> ready_part(#[trigger] new_s.tasks@[i]) == ready_part(
                    old_s.tasks@[i],
                ) || !(exists|p: int, j: int|
                    0 <= p < MAX_PRIORITY && 0 <= j < old_s.ready@[p].len() && old_s.ready@[p][j]
                        == i),
            forall|i: int|
                0 <= i < MAX_TASKS ==> wheel_part(#[trigger] new_s.tasks@[i]) == wheel_part(
                    old_s.tasks@[i],
                ) || !(exists|b: int, j: int|
                    0 <= b < TIMEOUT_WHEEL_SIZE && 0 <= j < old_s.wheel@[b].len()
                        && old_s.wheel@[b][j] == i),
        ensures
            forall|p: int| 0 <= p < MAX_PRIORITY ==> #[trigger] rq_ok(
                new_s.tasks@,
                new_s.ready@[p],
                p,
                new_s.ready_heads@[p],
                new_s.ready_tails@[p],
                new_s.ready_counts@[p],
            ),
            forall|b: int| 0 <= b < TIMEOUT_WHEEL_SIZE ==> #[trigger] wq_ok(
                new_s.tasks@,
                new_s.wheel@[b],
                b,
                new_s.wheel_heads@[b],
                new_s.wheel_tails@[b],
            ),
    {
        let t1 = old_s.tasks@;
        let t2 = new_s.tasks@;
        assert forall|p: int| 0 <= p < MAX_PRIORITY implies #[trigger] rq_ok(
            t2,
            new_s.ready@[p],
            p,
            new_s.ready_heads@[p],
            new_s.ready_tails@[p],
            new_s.ready_counts@[p],
        ) by {
            let q = old_s.ready@[p];
            assert(rq_ok(t1, q, p, old_s.ready_heads@[p], old_s.ready_tails@[p], old_s.ready_counts@[p]));
            assert forall|j: int| 0 <= j < q.len() implies ready_part(#[trigger] t2[q[j] as int])
                == ready_part(t1[q[j] as int]) by {
                assert(rq_node_ok(t1, q, p, j));
                let i = q[j] as int;
                if ready_part(t2[i]) != ready_part(t1[i]) {
                    assert(0 <= p < MAX_PRIORITY && 0 <= j < old_s.ready@[p].len() && old_s.ready@[p][j]
                        == i);
                }
            }
            lemma_rq_frame(t1, t2, q, p, old_s.ready_heads@[p], old_s.ready_tails@[p], old_s.ready_counts@[p]);
        }
        assert forall|b: int| 0 <= b < TIMEOUT_WHEEL_SIZE implies #[trigger] wq_ok(
            t2,
            new_s.wheel@[b],
            b,
            new_s.wheel_heads@[b],
            new_s.wheel_tails@[b],
        ) by {
            let q = old_s.wheel@[b];
            assert(wq_ok(t1, q, b, old_s.wheel_heads@[b], old_s.wheel_tails@[b]));
            assert forall|j: int| 0 <= j < q.len() implies wheel_part(#[trigger] t2[q[j] as int])
                == wheel_part(t1[q[j] as int]) by {
                assert(wq_node_ok(t1, q, b, j));
                let i = q[j] as int;
                if wheel_part(t2[i]) != wheel_part(t1[i]) {
                    assert(0 <= b < TIMEOUT_WHEEL_SIZE && 0 <= j < old_s.wheel@[b].len()
                        && old_s.wheel@[b][j] == i);
                }
            }
            lemma_wq_frame(t1, t2, q, b, old_s.wheel_heads@[b], old_s.wheel_tails@[b]);
        }
    }

    /// Overwrite fields of a live task that no queue depends on.
    pub fn update_task(&mut self, pid: usize, t: Tcb)
        requires
            old(self).wf(),
            pid < MAX_TASKS,
            old(self).tasks@[pid as int] is Some,
            same_queue_fields(old(self).tasks@[pid as int]->0, t),
            t.base_priority < MAX_PRIORITY,
            t.stack_start <= t.stack_end,
            t.in_ready_queue && pid != IDLE_PID ==> t.state == TaskState::Ready,
            t.in_timeout_queue && pid != IDLE_PID ==> t.state != TaskState::Running,
            t.priority == spec_effective_priority(t),
        ensures
            final(self).wf(),
            final(self)@ == (SchedModel {
                tasks: old(self)@.tasks.update(pid as int, strip(Some(t))),
                ..old(self)@
            }),
            final(self).tasks@[pid as int] == Some(t),
    {
        let ghost old_s = *self;
        proof {
            if !t.in_ready_queue {
                assert forall|p: int, j: int|
                    0 <= p < MAX_PRIORITY && 0 <= j < old_s.ready@[p].len() implies old_s.ready@[p][j]
                    != pid by {
                    assert(rq_ok(
                        old_s.tasks@,
                        old_s.ready@[p],
                        p,
                        old_s.ready_heads@[p],
                        old_s.ready_tails@[p],
                        old_s.ready_counts@[p],
                    ));
                    assert(rq_node_ok(old_s.tasks@, old_s.ready@[p], p, j));
                }
            }
            if !t.in_timeout_queue {
                assert forall|b: int, j: int|
                    0 <= b < TIMEOUT_WHEEL_SIZE && 0 <= j < old_s.wheel@[b].len() implies old_s.wheel@[b][j]
                    != pid by {
                    assert(wq_ok(
                        old_s.tasks@,
                        old_s.wheel@[b],
                        b,
                        old_s.wheel_heads@[b],
                        old_s.wheel_tails@[b],
                    ));
                    assert(wq_node_ok(old_s.tasks@, old_s.wheel@[b], b, j));
                }
            }
        }
        self.tasks[pid] = Some(t);
        proof {
            Self::lemma_queues_frame(&old_s, self);
            let tasks = self.tasks@;
            assert forall|i: int| 0 <= i < MAX_TASKS && #[trigger] tasks[i] is Some implies {
                let t = tasks[i]->0;
                &&& t.priority < MAX_PRIORITY
                &&& t.base_priority < MAX_PRIORITY
                &&& (t.in_ready_queue ==> self.ready@[t.priority as int].contains(i as usize))
                &&& (t.in_ready_queue && i != IDLE_PID ==> t.state == TaskState::Ready)
                &&& (t.in_timeout_queue ==> self.wheel@[t.wake_tick as int
                    % TIMEOUT_WHEEL_SIZE as int].contains(i as usize))
            } by {
                assert(old_s.tasks@[i] is Some);
            }
            assert(self@.tasks =~= old(self)@.tasks.update(pid as int, strip(Some(t))));
        }
    }

    /// Replace the content of a slot whose old and new content belong to no queue.
    pub fn set_slot(&mut self, pid: usize, o: Option<Tcb>)
        requires
            old(self).wf(),
            pid < MAX_TASKS,
            free_standing(old(self).tasks@[pid as int]),
            free_standing(o),
            o matches Some(t) ==> t.pid == pid && t.priority == spec_effective_priority(t),
            pid == IDLE_PID ==> o is Some,
        ensures
            final(self).wf(),
            final(self)@ == (SchedModel {
                tasks: old(self)@.tasks.update(pid as int, strip(o)),
                ..old(self)@
            }),
            final(self).tasks@[pid as int] == o,
    {
        let ghost old_s = *self;
        proof {
            assert forall|p: int, j: int|
                0 <= p < MAX_PRIORITY && 0 <= j < old_s.ready@[p].len() implies old_s.ready@[p][j]
                != pid by {
                assert(rq_ok(
                    old_s.tasks@,
                    old_s.ready@[p],
                    p,
                    old_s.ready_heads@[p],
                    old_s.ready_tails@[p],
                    old_s.ready_counts@[p],
                ));
                assert(rq_node_ok(old_s.tasks@, old_s.ready@[p], p, j));
            }
            assert forall|b: int, j: int|
                0 <= b < TIMEOUT_WHEEL_SIZE && 0 <= j < old_s.wheel@[b].len() implies old_s.wheel@[b][j]
                != pid by {
                assert(wq_ok(
                    old_s.tasks@,
                    old_s.wheel@[b],
                    b,
                    old_s.wheel_heads@[b],
                    old_s.wheel_tails@[b],
                ));
                assert(wq_node_ok(old_s.tasks@, old_s.wheel@[b], b, j));
            }
        }
        self.tasks[pid] = o;
        proof {
            Self::lemma_queues_frame(&old_s, self);
            let tasks = self.tasks@;
            assert forall|i: int| 0 <= i < MAX_TASKS && #[trigger] tasks[i] is Some implies {
                let t = tasks[i]->0;
                &&& t.priority < MAX_PRIORITY
                &&& t.base_priority < MAX_PRIORITY
                &&& (t.in_ready_queue ==> self.ready@[t.priority as int].contains(i as usize))
                &&& (t.in_ready_queue && i != IDLE_PID ==> t.state == TaskState::Ready)
                &&& (t.in_timeout_queue ==> self.wheel@[t.wake_tick as int
                    % TIMEOUT_WHEEL_SIZE as int].contains(i as usize))
            } by {
                if i != pid as int {
                    assert(old_s.tasks@[i] is Some);
                }
            }
            assert(self@.tasks =~= old(self)@.tasks.update(pid as int, strip(o)));
        }
    }

    /// Count a trace event and hand it to the hook, when one is installed.
    pub fn emit_trace(&mut self, kind: TraceEventKind, pid: usize, aux: usize, now: u32)
        requires
            old(self).wf(),
        ensures
            final(self).wf(),
            final(self)@ == m_emit(old(self)@, kind, pid, aux, now),
    {
        self.counters.bump(kind);
        if self.hook_installed {
            self.trace_events.push(TraceEvent { tick: now, kind, pid, aux });
        }
    }

    /// Ask for a context switch (PendSV).
    pub fn request_context_switch(&mut self, now: u32)
        requires
            old(self).wf(),
        ensures
            final(self).wf(),
            final(self)@ == m_request_switch(old(self)@, now),
    {
        let current = self.current;
        self.emit_trace(TraceEventKind::PendSvRequest, current, 0, now);
        self.switch_pending = true;
    }
}

} // verus!
