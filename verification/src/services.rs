use vstd::prelude::*;

use crate::diagnostics::SystemHealth;
use crate::kernel::{Kernel, only_sched_changed};
use crate::scheduler::SchedModel;
use crate::scheduler::ops::{m_create, m_register_heartbeat};

verus! {

/// Heartbeat timeout of the service tasks on boards with a blocking UART
/// wait.
pub const HEARTBEAT_TIMEOUT_MS: u32 = 1_000;

/// Heartbeat timeout of the service tasks on boards that poll the UART.
pub const POLLED_HEARTBEAT_TIMEOUT_MS: u32 = 60_000;

/// Period of the health task's loop.
pub const HEALTH_PERIOD_MS: u32 = 250;

/// Interval between health reports (and between diagnostics dumps).
pub const HEALTH_REPORT_MS: u32 = 5_000;

/// Where a task starts and the stack it runs on.
#[derive(Clone, Copy, Debug, PartialEq, Eq)]
pub struct TaskSpec {
    pub entry: usize,
    pub stack_start: usize,
    pub stack_end: usize,
    pub sp: usize,
}

pub open spec fn create_from(m: SchedModel, t: TaskSpec, priority: u8, now: u32) -> (SchedModel, Option<usize>) {
    m_create(m, t.entry, 0, t.stack_start, t.stack_end, t.sp, priority, now)
}

/// The four service tasks: command handling first (priority 1), then UART
/// receive (2), UART transmit (3) and health (4); creation stops at the
/// first failure.  Once all four exist each gets a heartbeat.  The pids
/// come back as receive, command, transmit, health.
pub open spec fn spec_create_default_tasks(
    m: SchedModel,
    rx: TaskSpec,
    cmd: TaskSpec,
    tx: TaskSpec,
    health: TaskSpec,
    timeout_ms: u32,
    now: u32,
) -> (SchedModel, Option<Seq<usize>>) {
    let (m1, c) = create_from(m, cmd, 1, now);
    let (m2, r) = create_from(m1, rx, 2, now);
    let (m3, t) = create_from(m2, tx, 3, now);
    let (m4, h) = create_from(m3, health, 4, now);
    if c is None {
        (m1, None)
    } else if r is None {
        (m2, None)
    } else if t is None {
        (m3, None)
    } else if h is None {
        (m4, None)
    } else {
        let m5 = m_register_heartbeat(m4, r->0, timeout_ms, now).0;
        let m6 = m_register_heartbeat(m5, c->0, timeout_ms, now).0;
        let m7 = m_register_heartbeat(m6, t->0, timeout_ms, now).0;
        let m8 = m_register_heartbeat(m7, h->0, timeout_ms, now).0;
        (m8, Some(seq![r->0, c->0, t->0, h->0]))
    }
}

/// Create the service tasks (see `spec_create_default_tasks`).
pub fn create_default_tasks(
    k: &mut Kernel,
    rx: TaskSpec,
    cmd: TaskSpec,
    tx: TaskSpec,
    health: TaskSpec,
    heartbeat_timeout_ms: u32,
) -> (pids: Option<[usize; 4]>)
    requires
        old(k).wf(),
        rx.stack_start <= rx.stack_end,
        cmd.stack_start <= cmd.stack_end,
        tx.stack_start <= tx.stack_end,
        health.stack_start <= health.stack_end,
    ensures
        final(k).wf(),
        only_sched_changed(*old(k), *final(k)),
        ({
            let (m, r) = spec_create_default_tasks(
                old(k).sched@,
                rx,
                cmd,
                tx,
                health,
                heartbeat_timeout_ms,
                old(k).ticks,
            );
            &&& final(k).sched@ == m
            &&& match pids {
                Some(a) => r == Some(a@),
                None => r is None,
            }
        }),
{
    let cmd_pid = match k.create_task(cmd.entry, 0, cmd.stack_start, cmd.stack_end, cmd.sp, 1) {
        Some(p) => p,
        None => {
            return None;
        },
    };
    let rx_pid = match k.create_task(rx.entry, 0, rx.stack_start, rx.stack_end, rx.sp, 2) {
        Some(p) => p,
        None => {
            return None;
        },
    };
    let tx_pid = match k.create_task(tx.entry, 0, tx.stack_start, tx.stack_end, tx.sp, 3) {
        Some(p) => p,
        None => {
            return None;
        },
    };
    let health_pid = match k.create_task(health.entry, 0, health.stack_start, health.stack_end, health.sp, 4) {
        Some(p) => p,
        None => {
            return None;
        },
    };
    let _ = k.register_task_heartbeat(rx_pid, heartbeat_timeout_ms);
    let _ = k.register_task_heartbeat(cmd_pid, heartbeat_timeout_ms);
    let _ = k.register_task_heartbeat(tx_pid, heartbeat_timeout_ms);
    let _ = k.register_task_heartbeat(health_pid, heartbeat_timeout_ms);
    let pids = [rx_pid, cmd_pid, tx_pid, health_pid];
    proof {
        assert(pids@ =~= seq![rx_pid, cmd_pid, tx_pid, health_pid]);
    }
    Some(pids)
}

/// A periodic report is due once `HEALTH_REPORT_MS` ticks have passed
/// since the last one (on the wrapping tick counter).
pub open spec fn spec_report_due(now: u32, last: u32) -> bool {
    now.wrapping_sub(last) >= HEALTH_REPORT_MS
}

pub fn report_due(now: u32, last: u32) -> (due: bool)
    ensures
        due == spec_report_due(now, last),
{
    now.wrapping_sub(last) >= HEALTH_REPORT_MS
}

/// A diagnostics dump is due when some task is stale or short of stack and
/// the last dump is at least a report interval old.
pub open spec fn spec_diagnostics_due(h: SystemHealth, now: u32, last: u32) -> bool {
    (h.stale_tasks != 0 || h.stack_warning_tasks != 0) && spec_report_due(now, last)
}

pub fn diagnostics_due(h: &SystemHealth, now: u32, last: u32) -> (due: bool)
    ensures
        due == spec_diagnostics_due(*h, now, last),
{
    (h.stale_tasks != 0 || h.stack_warning_tasks != 0) && report_due(now, last)
}

} // verus!
