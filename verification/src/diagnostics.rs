use vstd::prelude::*;

use crate::tcb::TaskState;

verus! {

/// Per-task health snapshot.
#[derive(Debug, Clone, Copy, PartialEq, Eq)]
pub struct TaskDiagnostics {
    pub pid: usize,
    pub state: TaskState,
    pub base_priority: u8,
    pub priority: u8,
    pub remaining_slice: u32,
    pub wake_tick: u32,
    pub has_timeout: bool,
    pub runtime_ticks: u32,
    pub stack_size_words: usize,
    pub stack_free_low_water_words: usize,
    pub stack_used_high_water_words: usize,
    pub heartbeat_registered: bool,
    pub heartbeat_timeout_ticks: u32,
    pub heartbeat_age_ticks: u32,
    pub heartbeat_stale: bool,
}

#[derive(Debug, Clone, Copy, PartialEq, Eq, Structural)]
pub enum ResetReason {
    Unknown,
    PowerOn,
    PinReset,
    Software,
    IndependentWatchdog,
    WindowWatchdog,
    Brownout,
    LowPower,
}

/// The label under which each reset cause is reported.
pub open spec fn reset_reason_label(r: ResetReason) -> Seq<char> {
    match r {
        ResetReason::Unknown => "unknown"@,
        ResetReason::PowerOn => "power_on"@,
        ResetReason::PinReset => "pin_reset"@,
        ResetReason::Software => "software"@,
        ResetReason::IndependentWatchdog => "iwdg"@,
        ResetReason::WindowWatchdog => "wwdg"@,
        ResetReason::Brownout => "brownout"@,
        ResetReason::LowPower => "low_power"@,
    }
}

impl ResetReason {
    pub fn as_str(self) -> (s: &'static str)
        ensures
            s@ == reset_reason_label(self),
    {
        match self {
            ResetReason::Unknown => "unknown",
            ResetReason::PowerOn => "power_on",
            ResetReason::PinReset => "pin_reset",
            ResetReason::Software => "software",
            ResetReason::IndependentWatchdog => "iwdg",
            ResetReason::WindowWatchdog => "wwdg",
            ResetReason::Brownout => "brownout",
            ResetReason::LowPower => "low_power",
        }
    }
}

/// System-wide health summary.
#[derive(Debug, Clone, Copy, PartialEq, Eq)]
pub struct SystemHealth {
    pub uptime_ticks: u32,
    pub live_tasks: u32,
    pub registered_heartbeats: u32,
    pub stale_tasks: u32,
    pub stack_warning_tasks: u32,
    pub reset_reason: ResetReason,
    pub watchdog_enabled: bool,
    pub watchdog_feeds: u32,
    pub uart_rx_bytes: u32,
    pub uart_tx_bytes: u32,
    pub uart_rx_overflows: u32,
    pub uart_tx_overflows: u32,
    pub uart_rx_errors: u32,
}

/// Counts of scheduler events since the last reset of the counters.
#[derive(Debug, Clone, Copy, PartialEq, Eq)]
pub struct TraceCounters {
    pub task_creates: u32,
    pub context_switches: u32,
    pub task_sleeps: u32,
    pub task_blocks: u32,
    pub task_unblocks: u32,
    pub task_deletes: u32,
    pub timeout_expirations: u32,
    pub priority_updates: u32,
    pub pendsv_requests: u32,
}

#[derive(Debug, Clone, Copy, PartialEq, Eq, Structural)]
pub enum TraceEventKind {
    TaskCreate,
    ContextSwitch,
    TaskSleep,
    TaskBlock,
    TaskUnblock,
    TaskDelete,
    TimeoutExpire,
    PriorityUpdate,
    PendSvRequest,
}

#[derive(Debug, Clone, Copy, PartialEq, Eq)]
pub struct TraceEvent {
    pub tick: u32,
    pub kind: TraceEventKind,
    pub pid: usize,
    pub aux: usize,
}

/// All counters at zero.
pub open spec fn zero_counters() -> TraceCounters {
    TraceCounters {
        task_creates: 0,
        context_switches: 0,
        task_sleeps: 0,
        task_blocks: 0,
        task_unblocks: 0,
        task_deletes: 0,
        timeout_expirations: 0,
        priority_updates: 0,
        pendsv_requests: 0,
    }
}

/// The counters after one more event of the given kind (each counter wraps).
pub open spec fn bump_counter(c: TraceCounters, kind: TraceEventKind) -> TraceCounters {
    match kind {
        TraceEventKind::TaskCreate => TraceCounters { task_creates: c.task_creates.wrapping_add(1), ..c },
        TraceEventKind::ContextSwitch => TraceCounters {
            context_switches: c.context_switches.wrapping_add(1),
            ..c
        },
        TraceEventKind::TaskSleep => TraceCounters { task_sleeps: c.task_sleeps.wrapping_add(1), ..c },
        TraceEventKind::TaskBlock => TraceCounters { task_blocks: c.task_blocks.wrapping_add(1), ..c },
        TraceEventKind::TaskUnblock => TraceCounters {
            task_unblocks: c.task_unblocks.wrapping_add(1),
            ..c
        },
        TraceEventKind::TaskDelete => TraceCounters { task_deletes: c.task_deletes.wrapping_add(1), ..c },
        TraceEventKind::TimeoutExpire => TraceCounters {
            timeout_expirations: c.timeout_expirations.wrapping_add(1),
            ..c
        },
        TraceEventKind::PriorityUpdate => TraceCounters {
            priority_updates: c.priority_updates.wrapping_add(1),
            ..c
        },
        TraceEventKind::PendSvRequest => TraceCounters {
            pendsv_requests: c.pendsv_requests.wrapping_add(1),
            ..c
        },
    }
}

impl TraceCounters {
    pub fn new() -> (c: Self)
        ensures
            c == zero_counters(),
    {
        TraceCounters {
            task_creates: 0,
            context_switches: 0,
            task_sleeps: 0,
            task_blocks: 0,
            task_unblocks: 0,
            task_deletes: 0,
            timeout_expirations: 0,
            priority_updates: 0,
            pendsv_requests: 0,
        }
    }

    /// Count one event of the given kind.
    pub fn bump(&mut self, kind: TraceEventKind)
        ensures
            *final(self) == bump_counter(*old(self), kind),
    {
        match kind {
            TraceEventKind::TaskCreate => self.task_creates = self.task_creates.wrapping_add(1),
            TraceEventKind::ContextSwitch => self.context_switches = self.context_switches.wrapping_add(1),
            TraceEventKind::TaskSleep => self.task_sleeps = self.task_sleeps.wrapping_add(1),
            TraceEventKind::TaskBlock => self.task_blocks = self.task_blocks.wrapping_add(1),
            TraceEventKind::TaskUnblock => self.task_unblocks = self.task_unblocks.wrapping_add(1),
            TraceEventKind::TaskDelete => self.task_deletes = self.task_deletes.wrapping_add(1),
            TraceEventKind::TimeoutExpire => self.timeout_expirations = self.timeout_expirations.wrapping_add(1),
            TraceEventKind::PriorityUpdate => self.priority_updates = self.priority_updates.wrapping_add(1),
            TraceEventKind::PendSvRequest => self.pendsv_requests = self.pendsv_requests.wrapping_add(1),
        }
    }
}

} // verus!
