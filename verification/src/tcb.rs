use vstd::prelude::*;

verus! {

/// Number of priority levels; level 0 is the most urgent.
pub const MAX_PRIORITY: usize = 8;

#[derive(Debug, Clone, Copy, PartialEq, Eq, Structural)]
pub enum TaskState {
    Ready,
    Running,
    Blocked,
    Sleeping,
}

/// Task control block.  Stack addresses and the entry point are plain
/// machine addresses; the scheduler never dereferences them.
#[derive(Debug, Clone, Copy)]
pub struct Tcb {
    pub pid: usize,
    pub sp: usize,
    pub priority: u8,
    pub base_priority: u8,
    pub state: TaskState,
    pub remaining_slice: u32,
    pub wake_tick: u32,
    pub has_timeout: bool,
    pub stack_start: usize,
    pub stack_end: usize,
    pub entry: usize,
    pub arg: usize,
    pub runtime_ticks: u32,
    pub heartbeat_registered: bool,
    pub heartbeat_timeout_ticks: u32,
    pub heartbeat_last_seen_tick: u32,
    pub priority_boosts: [u8; MAX_PRIORITY],
    pub ready_prev: Option<usize>,
    pub ready_next: Option<usize>,
    pub in_ready_queue: bool,
    pub timeout_prev: Option<usize>,
    pub timeout_next: Option<usize>,
    pub in_timeout_queue: bool,
    pub timeout_rounds: u32,
}

/// The control block that `Tcb::init` builds.
pub open spec fn spec_tcb_init(
    pid: usize,
    sp: usize,
    priority: u8,
    remaining_slice: u32,
    stack_start: usize,
    stack_end: usize,
    entry: usize,
    arg: usize,
) -> Tcb {
    Tcb {
        pid,
        sp,
        priority,
        base_priority: priority,
        state: TaskState::Ready,
        remaining_slice,
        wake_tick: 0,
        has_timeout: false,
        stack_start,
        stack_end,
        entry,
        arg,
        runtime_ticks: 0,
        heartbeat_registered: false,
        heartbeat_timeout_ticks: 0,
        heartbeat_last_seen_tick: 0,
        priority_boosts: [0u8; MAX_PRIORITY],
        ready_prev: None,
        ready_next: None,
        in_ready_queue: false,
        timeout_prev: None,
        timeout_next: None,
        in_timeout_queue: false,
        timeout_rounds: 0,
    }
}

impl Tcb {
    /// Initialize a task control block in the ready state.
    pub fn init(
        pid: usize,
        sp: usize,
        priority: u8,
        remaining_slice: u32,
        stack_start: usize,
        stack_end: usize,
        entry: usize,
        arg: usize,
    ) -> (t: Self)
        ensures
            t == spec_tcb_init(pid, sp, priority, remaining_slice, stack_start, stack_end, entry, arg),
            crate::scheduler::ops::spec_effective_priority(t) == priority,
    {
        let t = Tcb {
            pid,
            sp,
            priority,
            base_priority: priority,
            state: TaskState::Ready,
            remaining_slice,
            wake_tick: 0,
            has_timeout: false,
            stack_start,
            stack_end,
            entry,
            arg,
            runtime_ticks: 0,
            heartbeat_registered: false,
            heartbeat_timeout_ticks: 0,
            heartbeat_last_seen_tick: 0,
            priority_boosts: [0u8; MAX_PRIORITY],
            ready_prev: None,
            ready_next: None,
            in_ready_queue: false,
            timeout_prev: None,
            timeout_next: None,
            in_timeout_queue: false,
            timeout_rounds: 0,
        };
        proof {
            broadcast use vstd::array::group_array_axioms;

            crate::scheduler::ops::lemma_no_boosts(t);
        }
        t
    }
}

} // verus!
