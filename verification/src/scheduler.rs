use vstd::prelude::*;

use crate::diagnostics::{TraceCounters, TraceEvent, TraceEventKind, bump_counter, zero_counters};
use crate::scheduler::ops::spec_effective_priority;
use crate::tcb::{MAX_PRIORITY, TaskState, Tcb};

pub mod ready;
pub mod wheel;
pub mod slots;
pub mod timeouts;
pub mod ops;
pub mod switch;
pub mod query;

verus! {

pub const MAX_TASKS: usize = 8;
pub const DEFAULT_TIME_SLICE_TICKS: u32 = 10;
pub const TIMEOUT_WHEEL_SIZE: usize = 256;
pub const TIMEOUT_WHEEL_MASK: usize = 255;
pub const INVALID_PID: usize = usize::MAX;
pub const IDLE_PID: usize = 0;
pub const IDLE_PRIORITY: u8 = 7;
pub const STACK_SENTINEL: u32 = 0xA5A5_F00D;

// ---------------------------------------------------------------------------
// Abstract state
// ---------------------------------------------------------------------------

/// A control block with its queue links erased: what the queues mean is held
/// by the ghost sequences of the model instead.
pub open spec fn strip(o: Option<Tcb>) -> Option<Tcb> {
    match o {
        Some(t) => Some(
            Tcb { ready_prev: None, ready_next: None, timeout_prev: None, timeout_next: None, ..t },
        ),
        None => None,
    }
}

/// Mathematical model of the scheduler.
pub struct SchedModel {
    /// Task table, indexed by pid, with queue links erased.
    pub tasks: Seq<Option<Tcb>>,
    /// Ready queue of each priority, front first.
    pub ready: Seq<Seq<usize>>,
    /// Timeout wheel buckets, front first.
    pub wheel: Seq<Seq<usize>>,
    pub last_tick: u32,
    pub current: usize,
    pub started: bool,
    pub counters: TraceCounters,
    pub hook_installed: bool,
    /// Events handed to the trace hook, oldest first.
    pub events: Seq<TraceEvent>,
    /// A context switch has been requested and not yet taken.
    pub switch_pending: bool,
}

pub open spec fn task_at(m: SchedModel, pid: usize) -> Option<Tcb> {
    if pid < m.tasks.len() {
        m.tasks[pid as int]
    } else {
        None
    }
}

pub open spec fn set_task(m: SchedModel, pid: usize, t: Tcb) -> SchedModel {
    SchedModel { tasks: m.tasks.update(pid as int, Some(t)), ..m }
}

/// Record one trace event: its counter goes up, and the hook (when one is
/// installed) receives it.
pub open spec fn m_emit(m: SchedModel, kind: TraceEventKind, pid: usize, aux: usize, now: u32) -> SchedModel {
    SchedModel {
        counters: bump_counter(m.counters, kind),
        events: if m.hook_installed {
            m.events.push(TraceEvent { tick: now, kind, pid, aux })
        } else {
            m.events
        },
        ..m
    }
}

/// Ask for a context switch.
pub open spec fn m_request_switch(m: SchedModel, now: u32) -> SchedModel {
    SchedModel { switch_pending: true, ..m_emit(m, TraceEventKind::PendSvRequest, m.current, 0, now) }
}

/// Append a task to the ready queue of its priority.
pub open spec fn m_ready_push(m: SchedModel, pid: usize) -> (SchedModel, bool) {
    match task_at(m, pid) {
        None => (m, false),
        Some(t) => if t.priority as int >= MAX_PRIORITY || t.in_ready_queue {
            (m, false)
        } else {
            let p = t.priority as int;
            (
                SchedModel {
                    ready: m.ready.update(p, m.ready[p].push(pid)),
                    ..set_task(m, pid, Tcb { in_ready_queue: true, ..t })
                },
                true,
            )
        },
    }
}

/// Take a task out of the ready queue it is in.
pub open spec fn m_ready_remove(m: SchedModel, pid: usize) -> (SchedModel, bool) {
    match task_at(m, pid) {
        None => (m, false),
        Some(t) => if t.priority as int >= MAX_PRIORITY || !t.in_ready_queue {
            (m, false)
        } else {
            let p = t.priority as int;
            (
                SchedModel {
                    ready: m.ready.update(p, m.ready[p].remove(m.ready[p].index_of(pid))),
                    ..set_task(m, pid, Tcb { in_ready_queue: false, ..t })
                },
                true,
            )
        },
    }
}

/// The most urgent priority whose ready queue is not empty.
pub open spec fn highest_nonempty(ready: Seq<Seq<usize>>) -> Option<int> {
    if exists|p: int| 0 <= p < MAX_PRIORITY && #[trigger] ready[p].len() > 0 {
        Some(choose|p: int| 0 <= p < MAX_PRIORITY && ready[p].len() > 0
            && forall|q: int| 0 <= q < p ==> #[trigger] ready[q].len() == 0)
    } else {
        None
    }
}

/// Remove and return the front task of the most urgent non-empty ready queue.
pub open spec fn m_pop_highest(m: SchedModel) -> (SchedModel, Option<usize>) {
    match highest_nonempty(m.ready) {
        None => (m, None),
        Some(p) => {
            let pid = m.ready[p][0];
            let (m2, removed) = m_ready_remove(m, pid);
            if removed { (m2, Some(pid)) } else { (m2, None) }
        },
    }
}


/// Wheel bucket of a wake tick.
pub open spec fn bucket_of(tick: u32) -> int {
    tick as int % TIMEOUT_WHEEL_SIZE as int
}

/// Put a task on the timeout wheel, in the bucket of its wake tick.
pub open spec fn m_timeout_push(m: SchedModel, pid: usize, now: u32) -> (SchedModel, bool) {
    match task_at(m, pid) {
        None => (m, false),
        Some(t) => if t.in_timeout_queue {
            (m, false)
        } else {
            let delta = t.wake_tick.wrapping_sub(now);
            if delta == 0 {
                (m, false)
            } else {
                let b = bucket_of(t.wake_tick);
                (
                    SchedModel {
                        wheel: m.wheel.update(b, m.wheel[b].push(pid)),
                        ..set_task(
                            m,
                            pid,
                            Tcb {
                                in_timeout_queue: true,
                                timeout_rounds: ((delta - 1) / TIMEOUT_WHEEL_SIZE as int) as u32,
                                ..t
                            },
                        )
                    },
                    true,
                )
            }
        },
    }
}

/// Take a task off the timeout wheel.
pub open spec fn m_timeout_remove(m: SchedModel, pid: usize) -> (SchedModel, bool) {
    match task_at(m, pid) {
        None => (m, false),
        Some(t) => if !t.in_timeout_queue {
            (m, false)
        } else {
            let b = bucket_of(t.wake_tick);
            (
                SchedModel {
                    wheel: m.wheel.update(b, m.wheel[b].remove(m.wheel[b].index_of(pid))),
                    ..set_task(m, pid, Tcb { in_timeout_queue: false, timeout_rounds: 0, ..t })
                },
                true,
            )
        },
    }
}

// ---------------------------------------------------------------------------
// Concrete state
// ---------------------------------------------------------------------------

pub struct Scheduler {
    pub tasks: [Option<Tcb>; MAX_TASKS],
    pub ready_heads: [Option<usize>; MAX_PRIORITY],
    pub ready_tails: [Option<usize>; MAX_PRIORITY],
    pub ready_counts: [u8; MAX_PRIORITY],
    pub ready_mask: u32,
    pub wheel_heads: [Option<usize>; TIMEOUT_WHEEL_SIZE],
    pub wheel_tails: [Option<usize>; TIMEOUT_WHEEL_SIZE],
    pub last_tick: u32,
    pub current: usize,
    pub started: bool,
    pub counters: TraceCounters,
    pub hook_installed: bool,
    pub trace_events: Vec<TraceEvent>,
    pub switch_pending: bool,
    pub ready: Ghost<Seq<Seq<usize>>>,
    pub wheel: Ghost<Seq<Seq<usize>>>,
}

/// Bit `p` of `mask` is set.
pub open spec fn bit(mask: u32, p: u32) -> bool {
    (mask >> p) & 1u32 == 1u32
}

/// Position `j` of ready queue `q` (priority `p`) is linked correctly.
pub open spec fn rq_node_ok(tasks: Seq<Option<Tcb>>, q: Seq<usize>, p: int, j: int) -> bool {
    let pid = q[j];
    &&& pid < tasks.len()
    &&& tasks[pid as int] is Some
    &&& tasks[pid as int]->0.priority == p
    &&& tasks[pid as int]->0.in_ready_queue
    &&& tasks[pid as int]->0.ready_prev == (if j == 0 { None::<usize> } else { Some(q[j - 1]) })
    &&& tasks[pid as int]->0.ready_next == (if j + 1 == q.len() { None::<usize> } else { Some(q[j + 1]) })
}

pub open spec fn rq_ok(
    tasks: Seq<Option<Tcb>>,
    q: Seq<usize>,
    p: int,
    head: Option<usize>,
    tail: Option<usize>,
    count: u8,
) -> bool {
    &&& q.no_duplicates()
    &&& forall|j: int| 0 <= j < q.len() ==> #[trigger] rq_node_ok(tasks, q, p, j)
    &&& head == (if q.len() == 0 { None::<usize> } else { Some(q[0]) })
    &&& tail == (if q.len() == 0 { None::<usize> } else { Some(q[q.len() - 1]) })
    &&& count == q.len()
}

/// The ready-queue part of a slot.
pub open spec fn ready_part(o: Option<Tcb>) -> Option<(u8, bool, Option<usize>, Option<usize>)> {
    match o {
        Some(t) => Some((t.priority, t.in_ready_queue, t.ready_prev, t.ready_next)),
        None => None,
    }
}

/// Position `j` of wheel bucket `q` (bucket `b`) is linked correctly.
pub open spec fn wq_node_ok(tasks: Seq<Option<Tcb>>, q: Seq<usize>, b: int, j: int) -> bool {
    let pid = q[j];
    &&& pid < tasks.len()
    &&& tasks[pid as int] is Some
    &&& tasks[pid as int]->0.wake_tick as int % TIMEOUT_WHEEL_SIZE as int == b
    &&& tasks[pid as int]->0.in_timeout_queue
    &&& tasks[pid as int]->0.timeout_prev == (if j == 0 { None::<usize> } else { Some(q[j - 1]) })
    &&& tasks[pid as int]->0.timeout_next == (if j + 1 == q.len() { None::<usize> } else { Some(q[j + 1]) })
}

pub open spec fn wq_ok(
    tasks: Seq<Option<Tcb>>,
    q: Seq<usize>,
    b: int,
    head: Option<usize>,
    tail: Option<usize>,
) -> bool {
    &&& q.no_duplicates()
    &&& forall|j: int| 0 <= j < q.len() ==> #[trigger] wq_node_ok(tasks, q, b, j)
    &&& head == (if q.len() == 0 { None::<usize> } else { Some(q[0]) })
    &&& tail == (if q.len() == 0 { None::<usize> } else { Some(q[q.len() - 1]) })
}

/// The timeout-wheel part of a slot.
pub open spec fn wheel_part(o: Option<Tcb>) -> Option<(u32, bool, Option<usize>, Option<usize>)> {
    match o {
        Some(t) => Some((t.wake_tick, t.in_timeout_queue, t.timeout_prev, t.timeout_next)),
        None => None,
    }
}

impl View for Scheduler {
    type V = SchedModel;

    open spec fn view(&self) -> SchedModel {
        SchedModel {
            tasks: self.tasks@.map_values(|o: Option<Tcb>| strip(o)),
            ready: self.ready@,
            wheel: self.wheel@,
            last_tick: self.last_tick,
            current: self.current,
            started: self.started,
            counters: self.counters,
            hook_installed: self.hook_installed,
            events: self.trace_events@,
            switch_pending: self.switch_pending,
        }
    }
}

/// A live control block agrees with its slot: it carries the slot's pid, it
/// never waits on the timeout wheel while queued as ready or (but for the
/// idle task) while running, the idle task never enters a ready queue, and
/// the task runs at the priority its base priority and boosts give it.
pub open spec fn slot_coherent(i: int, t: Tcb) -> bool {
    &&& t.pid == i
    &&& !(t.in_ready_queue && t.in_timeout_queue)
    &&& (i == IDLE_PID ==> !t.in_ready_queue)
    &&& (i != IDLE_PID && t.state == TaskState::Running ==> !t.in_timeout_queue)
    &&& t.priority == spec_effective_priority(t)
}

impl Scheduler {
    /// Invariant of the scheduler's tables.
    pub open spec fn wf(&self) -> bool {
        let tasks = self.tasks@;
        &&& self.ready@.len() == MAX_PRIORITY
        &&& self.wheel@.len() == TIMEOUT_WHEEL_SIZE
        &&& forall|p: int| 0 <= p < MAX_PRIORITY ==> #[trigger] rq_ok(
            tasks,
            self.ready@[p],
            p,
            self.ready_heads@[p],
            self.ready_tails@[p],
            self.ready_counts@[p],
        )
        &&& forall|b: int| 0 <= b < TIMEOUT_WHEEL_SIZE ==> #[trigger] wq_ok(
            tasks,
            self.wheel@[b],
            b,
            self.wheel_heads@[b],
            self.wheel_tails@[b],
        )
        &&& forall|i: int| 0 <= i < MAX_TASKS && #[trigger] tasks[i] is Some ==> {
            let t = tasks[i]->0;
            &&& t.priority < MAX_PRIORITY
            &&& t.base_priority < MAX_PRIORITY
            &&& (t.in_ready_queue ==> self.ready@[t.priority as int].contains(i as usize))
            &&& (t.in_ready_queue && i != IDLE_PID ==> t.state == TaskState::Ready)
            &&& (t.in_timeout_queue ==> self.wheel@[t.wake_tick as int % TIMEOUT_WHEEL_SIZE as int].contains(
                i as usize,
            ))
        }
        &&& tasks[IDLE_PID as int] is Some
        &&& forall|i: int| 0 <= i < MAX_TASKS && #[trigger] tasks[i] is Some ==> slot_coherent(i, tasks[i]->0)
        &&& forall|i: int|
            0 <= i < MAX_TASKS && #[trigger] tasks[i] is Some ==> tasks[i]->0.stack_start
                <= tasks[i]->0.stack_end
        &&& self.ready_mask < 256
        &&& forall|p: int|
            0 <= p < MAX_PRIORITY ==> (bit(self.ready_mask, p as u32) <==> (#[trigger] self.ready@[p]).len()
                > 0)
    }

}

// ---------------------------------------------------------------------------
// Lemmas
// ---------------------------------------------------------------------------

/// A duplicate-free sequence of values below `n` has at most `n` elements.
pub proof fn lemma_distinct_len_bound(s: Seq<usize>, n: usize)
    requires
        s.no_duplicates(),
        forall|j: int| 0 <= j < s.len() ==> s[j] < n,
    ensures
        s.len() <= n,
{
    let si = s.map_values(|x: usize| x as int);
    assert(si.no_duplicates()) by {
        assert forall|a: int, b: int| 0 <= a < si.len() && 0 <= b < si.len() && a != b implies si[a]
            != si[b] by {
            assert(s[a] != s[b]);
        }
    }
    si.unique_seq_to_set();
    vstd::set_lib::lemma_int_range(0, n as int);
    assert(si.to_set().subset_of(vstd::set_lib::set_int_range(0, n as int))) by {
        assert forall|x: int| si.to_set().contains(x) implies vstd::set_lib::set_int_range(
            0,
            n as int,
        ).contains(x) by {
            let j = choose|j: int| 0 <= j < si.len() && si[j] == x;
            assert(s[j] < n);
        }
    }
    vstd::set_lib::lemma_len_subset(si.to_set(), vstd::set_lib::set_int_range(0, n as int));
}

/// Setting or clearing bit `p` leaves every other bit alone.
pub proof fn lemma_bit_or(m: u32, p: u32, q: u32)
    requires
        p < 32,
        q < 32,
    ensures
        bit(m | (1u32 << p), q) == (q == p || bit(m, q)),
        bit(m & !(1u32 << p), q) == (q != p && bit(m, q)),
{
    assert(((m | (1u32 << p)) >> q) & 1u32 == 1u32 <==> (q == p || (m >> q) & 1u32 == 1u32))
        by (bit_vector)
        requires
            p < 32,
            q < 32,
    ;
    assert(((m & !(1u32 << p)) >> q) & 1u32 == 1u32 <==> (q != p && (m >> q) & 1u32 == 1u32))
        by (bit_vector)
        requires
            p < 32,
            q < 32,
    ;
}

/// A mask below 256 stays below 256 when a low bit is set or cleared.
pub proof fn lemma_mask_small(m: u32, p: u32)
    requires
        m < 256,
        p < 8,
    ensures
        m | (1u32 << p) < 256,
        m & !(1u32 << p) < 256,
{
    assert(m | (1u32 << p) < 256) by (bit_vector)
        requires
            m < 256,
            p < 8,
    ;
    assert(m & !(1u32 << p) < 256) by (bit_vector)
        requires
            m < 256,
    ;
}

/// A ready queue stays well linked when the slots of its members keep their
/// ready-queue fields.
pub proof fn lemma_rq_frame(
    t1: Seq<Option<Tcb>>,
    t2: Seq<Option<Tcb>>,
    q: Seq<usize>,
    p: int,
    head: Option<usize>,
    tail: Option<usize>,
    count: u8,
)
    requires
        rq_ok(t1, q, p, head, tail, count),
        t1.len() == t2.len(),
        forall|j: int| 0 <= j < q.len() ==> ready_part(#[trigger] t2[q[j] as int]) == ready_part(
            t1[q[j] as int],
        ),
    ensures
        rq_ok(t2, q, p, head, tail, count),
{
    assert forall|j: int| 0 <= j < q.len() implies #[trigger] rq_node_ok(t2, q, p, j) by {
        assert(rq_node_ok(t1, q, p, j));
        assert(ready_part(t2[q[j] as int]) == ready_part(t1[q[j] as int]));
    }
}

/// A wheel bucket stays well linked when the slots of its members keep their
/// timeout fields.
pub proof fn lemma_wq_frame(
    t1: Seq<Option<Tcb>>,
    t2: Seq<Option<Tcb>>,
    q: Seq<usize>,
    b: int,
    head: Option<usize>,
    tail: Option<usize>,
)
    requires
        wq_ok(t1, q, b, head, tail),
        t1.len() == t2.len(),
        forall|j: int| 0 <= j < q.len() ==> wheel_part(#[trigger] t2[q[j] as int]) == wheel_part(
            t1[q[j] as int],
        ),
    ensures
        wq_ok(t2, q, b, head, tail),
{
    assert forall|j: int| 0 <= j < q.len() implies #[trigger] wq_node_ok(t2, q, b, j) by {
        assert(wq_node_ok(t1, q, b, j));
        assert(wheel_part(t2[q[j] as int]) == wheel_part(t1[q[j] as int]));
    }
}

} // verus!
