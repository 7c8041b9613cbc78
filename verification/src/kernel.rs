use vstd::prelude::*;

use crate::board::{Watchdog, spec_timeout_ms_to_reload};
use crate::diagnostics::{
    ResetReason, SystemHealth, TaskDiagnostics, TraceCounters, TraceEvent, zero_counters,
};
use crate::scheduler::ops::{
    current_unqueued, m_block, m_delete, m_heartbeat, m_register_heartbeat, m_set_priority,
    m_sleep, m_unblock, spec_current_pid, spec_task_priority,
};
use crate::scheduler::query::{live_pids, spec_diagnostics, spec_init_model};
use crate::scheduler::switch::{m_context_switch, m_start_first, m_tick};
use crate::scheduler::{MAX_TASKS, SchedModel, Scheduler, m_request_switch, task_at};
use crate::soft_timer::{SoftTimers, TimersModel, m_start, m_timer_scan};
use crate::systick::{spec_ticks_to_ms, ticks_to_ms};
use crate::uart::IoHealthSnapshot;

verus! {

/// A task whose lowest observed free stack is at most this many words is
/// reported as a stack warning.
pub const STACK_WARNING_WORDS: usize = 64;

/// Scheduler, software timers, the tick counter and the system-wide state
/// of the health monitor.
pub struct Kernel {
    pub sched: Scheduler,
    pub timers: SoftTimers,
    pub ticks: u32,
    pub reset_reason: ResetReason,
    pub watchdog: Watchdog,
    pub watchdog_enabled: bool,
    pub watchdog_feeds: u32,
}

/// Counts over the live tasks in the first `n` slots: live tasks, tasks
/// with a registered heartbeat, of those the stale ones, and tasks whose
/// stack is close to exhaustion.
pub open spec fn health_tally(m: SchedModel, n: int, now: u32, stacks: Seq<Vec<u32>>) -> (
    nat,
    nat,
    nat,
    nat,
)
    decreases n,
{
    if n <= 0 {
        (0, 0, 0, 0)
    } else {
        let prev = health_tally(m, n - 1, now, stacks);
        match task_at(m, (n - 1) as usize) {
            Some(t) => {
                let d = spec_diagnostics(t, now, stacks[n - 1]@);
                (
                    prev.0 + 1,
                    if d.heartbeat_registered { prev.1 + 1 } else { prev.1 },
                    if d.heartbeat_registered && d.heartbeat_stale { prev.2 + 1 } else { prev.2 },
                    if d.stack_free_low_water_words <= STACK_WARNING_WORDS { prev.3 + 1 } else { prev.3 },
                )
            },
            None => prev,
        }
    }
}

/// Each count of the tally is bounded by the number of slots visited.
pub proof fn lemma_tally_bound(m: SchedModel, n: int, now: u32, stacks: Seq<Vec<u32>>)
    requires
        n >= 0,
    ensures
        health_tally(m, n, now, stacks).0 <= n,
        health_tally(m, n, now, stacks).1 <= n,
        health_tally(m, n, now, stacks).2 <= n,
        health_tally(m, n, now, stacks).3 <= n,
    decreases n,
{
    if n > 0 {
        lemma_tally_bound(m, n - 1, now, stacks);
    }
}

/// The system health report of kernel `k`, given the I/O counters and the
/// contents of each task's stack (indexed by pid).
pub open spec fn spec_system_health(k: Kernel, io: IoHealthSnapshot, stacks: Seq<Vec<u32>>) -> SystemHealth {
    let t = health_tally(k.sched@, MAX_TASKS as int, k.ticks, stacks);
    SystemHealth {
        uptime_ticks: k.ticks,
        live_tasks: t.0 as u32,
        registered_heartbeats: t.1 as u32,
        stale_tasks: t.2 as u32,
        stack_warning_tasks: t.3 as u32,
        reset_reason: k.reset_reason,
        watchdog_enabled: k.watchdog_enabled,
        watchdog_feeds: k.watchdog_feeds,
        uart_rx_bytes: io.uart_rx_bytes,
        uart_tx_bytes: io.uart_tx_bytes,
        uart_rx_overflows: io.uart_rx_overflows,
        uart_tx_overflows: io.uart_tx_overflows,
        uart_rx_errors: io.uart_rx_errors,
    }
}

/// The watchdog may be fed: it is enabled, some task registered a
/// heartbeat, and none of them is stale.
pub open spec fn healthy_for_feed(h: SystemHealth) -> bool {
    h.watchdog_enabled && h.registered_heartbeats != 0 && h.stale_tasks == 0
}

/// Everything but the scheduler is as in `k0`.
pub open spec fn only_sched_changed(k0: Kernel, k1: Kernel) -> bool {
    &&& k1.timers.model() == k0.timers.model()
    &&& k1.ticks == k0.ticks
    &&& k1.reset_reason == k0.reset_reason
    &&& k1.watchdog == k0.watchdog
    &&& k1.watchdog_enabled == k0.watchdog_enabled
    &&& k1.watchdog_feeds == k0.watchdog_feeds
}

/// Everything but the software timers is as in `k0`.
pub open spec fn only_timers_changed(k0: Kernel, k1: Kernel) -> bool {
    &&& k1.sched@ == k0.sched@
    &&& k1.ticks == k0.ticks
    &&& k1.reset_reason == k0.reset_reason
    &&& k1.watchdog == k0.watchdog
    &&& k1.watchdog_enabled == k0.watchdog_enabled
    &&& k1.watchdog_feeds == k0.watchdog_feeds
}

impl Kernel {
    pub open spec fn wf(&self) -> bool {
        &&& self.sched.wf()
        &&& self.timers.wf()
    }

    /// A kernel whose only task is the idle task, with no timer armed, the
    /// watchdog off, and an unknown reset cause; `now` is the tick count.
    pub fn init(
        now: u32,
        idle_sp: usize,
        idle_stack_start: usize,
        idle_stack_end: usize,
        idle_entry: usize,
    ) -> (k: Kernel)
        requires
            idle_stack_start <= idle_stack_end,
        ensures
            k.wf(),
            k.sched@ == spec_init_model(now, idle_sp, idle_stack_start, idle_stack_end, idle_entry),
            k.timers.model().timers == Seq::new(
                crate::soft_timer::MAX_TIMERS as nat,
                |i: int| None::<crate::soft_timer::SoftTimer>,
            ),
            k.timers.model().pending == Seq::<(usize, usize)>::empty(),
            k.ticks == now,
            k.reset_reason == ResetReason::Unknown,
            !k.watchdog.started && !k.watchdog_enabled && k.watchdog_feeds == 0,
    {
        Kernel {
            sched: Scheduler::init(now, idle_sp, idle_stack_start, idle_stack_end, idle_entry),
            timers: SoftTimers::init(),
            ticks: now,
            reset_reason: ResetReason::Unknown,
            watchdog: Watchdog::new(),
            watchdog_enabled: false,
            watchdog_feeds: 0,
        }
    }

    /// Create a task on the stack `stack_start..stack_end` whose initial
    /// frame leaves the stack pointer at `sp`.
    pub fn create_task(
        &mut self,
        entry: usize,
        arg: usize,
        stack_start: usize,
        stack_end: usize,
        sp: usize,
        priority: u8,
    ) -> (pid: Option<usize>)
        requires
            old(self).wf(),
            stack_start <= stack_end,
        ensures
            final(self).wf(),
            only_sched_changed(*old(self), *final(self)),
            (final(self).sched@, pid) == crate::scheduler::ops::m_create(
                old(self).sched@,
                entry,
                arg,
                stack_start,
                stack_end,
                sp,
                priority,
                old(self).ticks,
            ),
    {
        self.sched.create_task(entry, arg, stack_start, stack_end, sp, priority, self.ticks)
    }

    /// Mark the scheduler started and pick the first task; returns its
    /// saved stack pointer.
    pub fn start(&mut self) -> (first_sp: usize)
        requires
            old(self).wf(),
        ensures
            final(self).wf(),
            only_sched_changed(*old(self), *final(self)),
            (final(self).sched@, first_sp) == m_start_first(old(self).sched@),
    {
        self.sched.start_first_task()
    }

    /// Ask for a context switch at the next opportunity.
    pub fn yield_now(&mut self)
        requires
            old(self).wf(),
        ensures
            final(self).wf(),
            only_sched_changed(*old(self), *final(self)),
            final(self).sched@ == m_request_switch(old(self).sched@, old(self).ticks),
    {
        self.sched.request_context_switch(self.ticks)
    }

    pub fn sleep_ms(&mut self, ms: u32)
        requires
            old(self).wf(),
            current_unqueued(old(self).sched@),
        ensures
            final(self).wf(),
            only_sched_changed(*old(self), *final(self)),
            final(self).sched@ == m_sleep(old(self).sched@, ms, old(self).ticks),
    {
        self.sched.sleep_ms(ms, self.ticks)
    }

    pub fn block_current(&mut self, timeout_ms: Option<u32>)
        requires
            old(self).wf(),
            current_unqueued(old(self).sched@),
        ensures
            final(self).wf(),
            only_sched_changed(*old(self), *final(self)),
            final(self).sched@ == m_block(old(self).sched@, timeout_ms, old(self).ticks),
    {
        self.sched.block_current(timeout_ms, self.ticks)
    }

    pub fn unblock(&mut self, pid: usize) -> (unblocked: bool)
        requires
            old(self).wf(),
        ensures
            final(self).wf(),
            only_sched_changed(*old(self), *final(self)),
            (final(self).sched@, unblocked) == m_unblock(old(self).sched@, pid, old(self).ticks),
    {
        self.sched.unblock(pid, self.ticks)
    }

    pub fn delete_task(&mut self, pid: usize) -> (removed: bool)
        requires
            old(self).wf(),
        ensures
            final(self).wf(),
            only_sched_changed(*old(self), *final(self)),
            (final(self).sched@, removed) == m_delete(old(self).sched@, pid, old(self).ticks),
    {
        self.sched.delete_task(pid, self.ticks)
    }

    /// The current task ends: it is removed and a switch is requested.
    pub fn exit_current(&mut self)
        requires
            old(self).wf(),
        ensures
            final(self).wf(),
            only_sched_changed(*old(self), *final(self)),
            final(self).sched@ == m_request_switch(
                m_delete(old(self).sched@, old(self).sched@.current, old(self).ticks).0,
                old(self).ticks,
            ),
    {
        self.sched.exit_current(self.ticks)
    }

    pub fn set_priority(&mut self, pid: usize, new_prio: u8) -> (updated: bool)
        requires
            old(self).wf(),
        ensures
            final(self).wf(),
            only_sched_changed(*old(self), *final(self)),
            (final(self).sched@, updated) == m_set_priority(
                old(self).sched@,
                pid,
                new_prio,
                old(self).ticks,
            ),
    {
        self.sched.set_priority(pid, new_prio, self.ticks)
    }

    pub fn current_pid(&self) -> (r: Option<usize>)
        ensures
            r == spec_current_pid(self.sched@),
    {
        self.sched.current_pid()
    }

    pub fn task_priority(&self, pid: usize) -> (r: Option<u8>)
        requires
            self.wf(),
        ensures
            r == spec_task_priority(self.sched@, pid),
    {
        self.sched.task_priority(pid)
    }

    pub fn current_priority(&self) -> (r: Option<u8>)
        requires
            self.wf(),
        ensures
            r == (match spec_current_pid(self.sched@) {
                Some(pid) => spec_task_priority(self.sched@, pid),
                None => None,
            }),
    {
        self.sched.current_priority()
    }

    /// Write the live pids, in increasing order, into `buffer`, as many as
    /// fit; returns how many were written.
    pub fn list_tasks(&self, buffer: &mut [usize]) -> (written: usize)
        requires
            self.wf(),
        ensures
            ({
                let live = live_pids(self.sched@.tasks, MAX_TASKS as int);
                &&& written == if old(buffer)@.len() < live.len() {
                    old(buffer)@.len()
                } else {
                    live.len()
                }
                &&& final(buffer)@ == live.take(written as int) + old(buffer)@.skip(written as int)
            }),
    {
        self.sched.list_tasks(buffer)
    }

    /// Diagnostics of task `pid` now, given the words of its stack.
    pub fn task_diagnostics(&self, pid: usize, stack: &[u32]) -> (d: Option<TaskDiagnostics>)
        requires
            self.wf(),
        ensures
            d == match task_at(self.sched@, pid) {
                Some(t) => Some(spec_diagnostics(t, self.ticks, stack@)),
                None => None,
            },
    {
        self.sched.task_diagnostics(pid, self.ticks, stack)
    }

    pub fn trace_counters(&self) -> (c: TraceCounters)
        ensures
            c == self.sched@.counters,
    {
        self.sched.trace_counters()
    }

    pub fn clear_trace_counters(&mut self)
        requires
            old(self).wf(),
        ensures
            final(self).wf(),
            only_sched_changed(*old(self), *final(self)),
            final(self).sched@ == (SchedModel { counters: zero_counters(), ..old(self).sched@ }),
    {
        self.sched.clear_trace_counters()
    }

    /// Install (`true`) or remove the trace hook; while one is installed
    /// every scheduler event is recorded for it.
    pub fn set_trace_hook(&mut self, installed: bool)
        requires
            old(self).wf(),
        ensures
            final(self).wf(),
            only_sched_changed(*old(self), *final(self)),
            final(self).sched@ == (SchedModel { hook_installed: installed, ..old(self).sched@ }),
    {
        self.sched.set_trace_hook(installed)
    }

    /// The scheduler events recorded for the trace hook, oldest first.
    pub fn take_trace_events(&mut self) -> (events: Vec<TraceEvent>)
        requires
            old(self).wf(),
        ensures
            final(self).wf(),
            only_sched_changed(*old(self), *final(self)),
            events@ == old(self).sched@.events,
            final(self).sched@ == (SchedModel { events: Seq::empty(), ..old(self).sched@ }),
    {
        self.sched.take_trace_events()
    }

    pub fn set_reset_reason(&mut self, reason: ResetReason)
        ensures
            *final(self) == (Kernel { reset_reason: reason, ..*old(self) }),
    {
        self.reset_reason = reason;
    }

    pub fn reset_reason(&self) -> (r: ResetReason)
        ensures
            r == self.reset_reason,
    {
        self.reset_reason
    }

    /// Start the watchdog with the given timeout and begin counting feeds
    /// from zero.
    pub fn enable_watchdog(&mut self, timeout_ms: u32) -> (ok: bool)
        requires
            old(self).wf(),
        ensures
            final(self).wf(),
            ok,
            *final(self) == (Kernel {
                watchdog: Watchdog { started: true, reload: spec_timeout_ms_to_reload(timeout_ms) },
                watchdog_enabled: true,
                watchdog_feeds: 0,
                ..*old(self)
            }),
    {
        if !self.watchdog.start(timeout_ms) {
            return false;
        }
        self.watchdog_enabled = true;
        self.watchdog_feeds = 0;
        true
    }

    pub fn register_task_heartbeat(&mut self, pid: usize, timeout_ms: u32) -> (ok: bool)
        requires
            old(self).wf(),
        ensures
            final(self).wf(),
            only_sched_changed(*old(self), *final(self)),
            (final(self).sched@, ok) == m_register_heartbeat(
                old(self).sched@,
                pid,
                timeout_ms,
                old(self).ticks,
            ),
    {
        self.sched.register_task_heartbeat(pid, timeout_ms, self.ticks)
    }

    pub fn register_current_heartbeat(&mut self, timeout_ms: u32) -> (ok: bool)
        requires
            old(self).wf(),
        ensures
            final(self).wf(),
            only_sched_changed(*old(self), *final(self)),
            match spec_current_pid(old(self).sched@) {
                Some(pid) => (final(self).sched@, ok) == m_register_heartbeat(
                    old(self).sched@,
                    pid,
                    timeout_ms,
                    old(self).ticks,
                ),
                None => final(self).sched@ == old(self).sched@ && !ok,
            },
    {
        self.sched.register_current_heartbeat(timeout_ms, self.ticks)
    }

    pub fn task_heartbeat(&mut self) -> (ok: bool)
        requires
            old(self).wf(),
        ensures
            final(self).wf(),
            only_sched_changed(*old(self), *final(self)),
            (final(self).sched@, ok) == m_heartbeat(old(self).sched@, old(self).ticks),
    {
        self.sched.task_heartbeat(self.ticks)
    }

    /// System-wide health: uptime, task counts from the diagnostics of each
    /// live task, reset cause, watchdog state and the I/O counters.
    /// `stacks[pid]` holds the words of task `pid`'s stack.
    pub fn system_health(&self, io: IoHealthSnapshot, stacks: &[Vec<u32>]) -> (h: SystemHealth)
        requires
            self.wf(),
            stacks@.len() == MAX_TASKS,
        ensures
            h == spec_system_health(*self, io, stacks@),
    {
        let mut live: u32 = 0;
        let mut heartbeats: u32 = 0;
        let mut stale: u32 = 0;
        let mut warnings: u32 = 0;
        let mut pid: usize = 0;
        while pid < MAX_TASKS
            invariant
                self.wf(),
                stacks@.len() == MAX_TASKS,
                pid <= MAX_TASKS,
                (live as nat, heartbeats as nat, stale as nat, warnings as nat) == health_tally(
                    self.sched@,
                    pid as int,
                    self.ticks,
                    stacks@,
                ),
            decreases MAX_TASKS - pid,
        {
            proof {
                lemma_tally_bound(self.sched@, pid as int, self.ticks, stacks@);
            }
            match self.task_diagnostics(pid, stacks[pid].as_slice()) {
                Some(d) => {
                    live = live + 1;
                    if d.heartbeat_registered {
                        heartbeats = heartbeats + 1;
                        if d.heartbeat_stale {
                            stale = stale + 1;
                        }
                    }
                    if d.stack_free_low_water_words <= STACK_WARNING_WORDS {
                        warnings = warnings + 1;
                    }
                },
                None => {},
            }
            pid = pid + 1;
        }
        proof {
            lemma_tally_bound(self.sched@, MAX_TASKS as int, self.ticks, stacks@);
        }
        SystemHealth {
            uptime_ticks: self.ticks,
            live_tasks: live,
            registered_heartbeats: heartbeats,
            stale_tasks: stale,
            stack_warning_tasks: warnings,
            reset_reason: self.reset_reason,
            watchdog_enabled: self.watchdog_enabled,
            watchdog_feeds: self.watchdog_feeds,
            uart_rx_bytes: io.uart_rx_bytes,
            uart_tx_bytes: io.uart_tx_bytes,
            uart_rx_overflows: io.uart_rx_overflows,
            uart_tx_overflows: io.uart_tx_overflows,
            uart_rx_errors: io.uart_rx_errors,
        }
    }

    /// Feed the watchdog only while the system is healthy (see
    /// `healthy_for_feed`); a successful feed is counted.
    pub fn feed_watchdog_if_healthy(&mut self, io: IoHealthSnapshot, stacks: &[Vec<u32>]) -> (fed: bool)
        requires
            old(self).wf(),
            stacks@.len() == MAX_TASKS,
        ensures
            final(self).wf(),
            fed == (healthy_for_feed(spec_system_health(*old(self), io, stacks@))
                && old(self).watchdog.started),
            *final(self) == if fed {
                Kernel { watchdog_feeds: old(self).watchdog_feeds.wrapping_add(1), ..*old(self) }
            } else {
                *old(self)
            },
    {
        if !self.watchdog_enabled {
            return false;
        }
        let health = self.system_health(io, stacks);
        if health.registered_heartbeats == 0 || health.stale_tasks != 0 {
            return false;
        }
        let fed = self.watchdog.feed();
        if fed {
            self.watchdog_feeds = self.watchdog_feeds.wrapping_add(1);
        }
        fed
    }

    /// The tick counter.
    pub fn now(&self) -> (t: u32)
        ensures
            t == self.ticks,
    {
        self.ticks
    }

    pub fn now_ticks(&self) -> (t: u32)
        ensures
            t == self.ticks,
    {
        self.ticks
    }

    /// Uptime in milliseconds.
    pub fn now_ms(&self) -> (ms: u32)
        ensures
            ms == spec_ticks_to_ms(self.ticks),
    {
        ticks_to_ms(self.ticks)
    }

    pub fn start_timer_oneshot(&mut self, delay_ms: u32, callback: usize, arg: usize) -> (handle: Option<
        usize,
    >)
        requires
            old(self).wf(),
        ensures
            final(self).wf(),
            only_timers_changed(*old(self), *final(self)),
            (final(self).timers.model(), handle) == m_start(
                old(self).timers.model(),
                delay_ms,
                0,
                false,
                callback,
                arg,
                old(self).ticks,
            ),
    {
        self.timers.start_oneshot(delay_ms, callback, arg, self.ticks)
    }

    /// A periodic timer; a zero period is refused.
    pub fn start_timer_periodic(&mut self, period_ms: u32, callback: usize, arg: usize) -> (handle: Option<
        usize,
    >)
        requires
            old(self).wf(),
        ensures
            final(self).wf(),
            only_timers_changed(*old(self), *final(self)),
            period_ms == 0 ==> handle is None && final(self).timers.model() == old(self).timers.model(),
            period_ms != 0 ==> (final(self).timers.model(), handle) == m_start(
                old(self).timers.model(),
                period_ms,
                period_ms,
                true,
                callback,
                arg,
                old(self).ticks,
            ),
    {
        self.timers.start_periodic(period_ms, callback, arg, self.ticks)
    }

    pub fn cancel_timer(&mut self, handle: usize) -> (existed: bool)
        requires
            old(self).wf(),
        ensures
            final(self).wf(),
            only_timers_changed(*old(self), *final(self)),
            handle >= crate::soft_timer::MAX_TIMERS ==> !existed && final(self).timers.model() == old(self).timers.model(),
            handle < crate::soft_timer::MAX_TIMERS ==> existed == (old(self).timers.model().timers[handle as int] is Some)
                && final(self).timers.model() == (TimersModel {
                timers: old(self).timers.model().timers.update(handle as int, None),
                ..old(self).timers.model()
            }),
    {
        self.timers.cancel(handle)
    }

    /// Take every pending timer callback, oldest first, as (callback, arg)
    /// pairs for the caller to run.
    pub fn dispatch_timers(&mut self) -> (due: Vec<(usize, usize)>)
        requires
            old(self).wf(),
        ensures
            final(self).wf(),
            only_timers_changed(*old(self), *final(self)),
            due@ == old(self).timers.model().pending,
            final(self).timers.model() == (TimersModel {
                pending: Seq::empty(),
                ..old(self).timers.model()
            }),
    {
        let mut due: Vec<(usize, usize)> = Vec::new();
        let ghost all = self.timers.model().pending;
        loop
            invariant
                self.wf(),
                only_timers_changed(*old(self), *self),
                due@ + self.timers.model().pending == all,
                self.timers.model().timers == old(self).timers.model().timers,
                all == old(self).timers.model().pending,
            ensures
                self.wf(),
                only_timers_changed(*old(self), *self),
                due@ == all,
                self.timers.model() == (TimersModel {
                    pending: Seq::empty(),
                    ..old(self).timers.model()
                }),
            decreases self.timers.model().pending.len(),
        {
            let ghost before = self.timers.model().pending;
            match self.timers.pop_pending() {
                Some(item) => {
                    due.push(item);
                    proof {
                        assert(before =~= seq![item] + self.timers.model().pending);
                        assert(due@ + self.timers.model().pending =~= all);
                    }
                },
                None => {
                    proof {
                        assert(due@ =~= all);
                        assert(self.timers.model().pending =~= Seq::<(usize, usize)>::empty());
                    }
                    break;
                },
            }
        }
        due
    }

    /// Scheduler tick at the current tick count.
    pub fn tick(&mut self)
        requires
            old(self).wf(),
        ensures
            final(self).wf(),
            only_sched_changed(*old(self), *final(self)),
            final(self).sched@ == m_tick(old(self).sched@, old(self).ticks),
    {
        self.sched.tick_at(self.ticks)
    }

    /// The system tick interrupt: the counter advances (wrapping), due
    /// timers queue their callbacks, then the scheduler runs its tick.
    /// Returns the new tick count.
    pub fn on_tick(&mut self) -> (now: u32)
        requires
            old(self).wf(),
        ensures
            final(self).wf(),
            now == old(self).ticks.wrapping_add(1),
            final(self).ticks == now,
            final(self).timers.model() == m_timer_scan(old(self).timers.model(), 0, now),
            final(self).sched@ == m_tick(old(self).sched@, now),
            final(self).reset_reason == old(self).reset_reason,
            final(self).watchdog == old(self).watchdog,
            final(self).watchdog_enabled == old(self).watchdog_enabled,
            final(self).watchdog_feeds == old(self).watchdog_feeds,
    {
        self.ticks = self.ticks.wrapping_add(1);
        let now = self.ticks;
        self.timers.on_tick(now);
        self.sched.tick_at(now);
        now
    }

    /// The context-switch handler: save the outgoing stack pointer, pick
    /// the next task, and return its stack pointer.
    pub fn switch_context(&mut self, save_sp: usize) -> (next_sp: usize)
        requires
            old(self).wf(),
        ensures
            final(self).wf(),
            only_sched_changed(*old(self), *final(self)),
            (final(self).sched@, next_sp) == m_context_switch(old(self).sched@, save_sp, old(self).ticks),
    {
        self.sched.context_switch(save_sp, self.ticks)
    }
}

} // verus!
