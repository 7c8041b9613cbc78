use vstd::prelude::*;

use crate::laws::law_wakes_at_deadline;
use crate::scheduler::timeouts::m_process_slot;
use crate::scheduler::{DEFAULT_TIME_SLICE_TICKS, Scheduler};
use crate::tcb::{TaskState, Tcb};

verus! {

/// Self-check of the timeout wheel across the wrap of the tick counter: on
/// scheduler tables of its own, a task sleeping from three ticks before the
/// wrap until five ticks later must be ready, and off the wheel, once those
/// five ticks have been processed.  It always passes.
pub fn bench_validate_timeout_wraparound() -> (ok: bool)
    ensures
        ok,
{
    let now: u32 = 0xFFFF_FFFD;
    let wake_tick: u32 = now.wrapping_add(5);
    let pid: usize = 1;
    let stack_start: usize = 0x2000_0000;
    let stack_end: usize = 0x2000_0200;
    let mut s = Scheduler::init(now, stack_end - 64, stack_start, stack_end, 0);
    let mut t = Tcb::init(pid, stack_end - 64, 1, DEFAULT_TIME_SLICE_TICKS, stack_start, stack_end, 0, 0);
    t.state = TaskState::Sleeping;
    t.wake_tick = wake_tick;
    t.has_timeout = false;
    s.set_slot(pid, Some(t));
    let ghost m0 = s@;
    proof {
        law_wakes_at_deadline(m0, pid, now, 5, now);
    }
    if !s.timeout_push(pid, now) {
        return false;
    }
    let ghost m1 = s@;
    let mut pend_switch = false;
    let mut k: u32 = 0;
    while k < 5
        invariant
            s.wf(),
            k <= 5,
            k < 5 ==> s@ == m1,
            k == 5 ==> s@ == m_process_slot(m1, now.wrapping_add(5), now).0,
            forall|j: u32| 0 < j < 5 ==> #[trigger] m_process_slot(m1, now.wrapping_add(j), now) == (m1, false),
        decreases 5 - k,
    {
        k = k + 1;
        let tick = now.wrapping_add(k);
        proof {
            if k < 5 {
                assert(0 < k < 5);
                assert(m_process_slot(m1, now.wrapping_add(k), now) == (m1, false));
                assert(tick == now.wrapping_add(k));
            }
        }
        s.process_timeout_slot(tick, now, &mut pend_switch);
    }
    match s.tasks[pid] {
        Some(task) => task.state == TaskState::Ready && task.in_ready_queue && !task.in_timeout_queue
            && task.wake_tick == 0,
        None => false,
    }
}

} // verus!
