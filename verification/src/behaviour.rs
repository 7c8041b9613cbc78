use vstd::prelude::*;

use crate::event::{EventModel as EventState, m_event_set, m_unblock_all};
use crate::protocol::{CommandModel, LedCommand, ParseError, spec_parse_command};
use crate::board::{Controls, spec_pwm_compare, spec_reset_reason_from_csr, spec_timeout_ms_to_reload};
use crate::diagnostics::ResetReason;
use crate::services::spec_report_due;
use crate::soft_timer::{MAX_TIMERS, SoftTimer, TimersModel, first_free_timer, m_start, m_timer_scan, m_timer_slot};
use crate::commands::{ReplyModel, spec_handle_text, spec_led_command};
use crate::event::{EventWaitStep, m_event_wait};
use crate::mutex::{MutexAcquireStep, MutexError, MutexModel, m_mutex_acquire, m_mutex_release};
use crate::scheduler::query::spec_diagnostics;
use crate::scheduler::ops::{m_register_heartbeat, current_unqueued, first_free_from, m_block, m_create, m_delete, m_sleep, m_unblock, spec_current_pid};
use crate::semaphore::{SemAcquireStep, m_sem_acquire};
use crate::scheduler::switch::{m_account_runtime, m_context_switch, m_process_ticks, m_slice, m_tick, spec_stack_pointer_is_sane};
use crate::scheduler::timeouts::{expired_task, m_process_list, m_process_slot, m_slot_step};
use crate::scheduler::{
    MAX_TASKS, IDLE_PID, SchedModel, Scheduler, highest_nonempty, m_ready_push, m_timeout_remove, rq_node_ok, rq_ok, task_at,
};
use crate::semaphore::{SemModel, m_sem_release};
use crate::tcb::{MAX_PRIORITY, TaskState, Tcb};
use crate::waitqueue::{count_some, occupants, wq_pop, wq_push};

verus! {

// ---------------------------------------------------------------------------
// Semaphores: one release, one token
// ---------------------------------------------------------------------------

/// With no task waiting, a release adds exactly one token while the count
/// is below its maximum, and none at the maximum; the count never passes
/// the maximum and the scheduler is not touched.
pub proof fn law_release_adds_one_token(s: SemModel, m: SchedModel, now: u32)
    requires
        wq_pop(s.waiters).1 is None,
        s.count <= s.max,
    ensures
        ({
            let (s1, m1, released) = m_sem_release(s, m, now);
            &&& s.count < s.max ==> released && s1.count == s.count + 1
            &&& s.count == s.max ==> !released && s1.count == s.count
            &&& s1.max == s.max
            &&& s1.count <= s1.max
            &&& m1 == m
        }),
{
}

// ---------------------------------------------------------------------------
// Run time: a tick charges the running task
// ---------------------------------------------------------------------------

/// The tasks of `m2` are those of `m1`, with the same run times, and the
/// same task is current.
pub open spec fn same_runtimes(m1: SchedModel, m2: SchedModel) -> bool {
    &&& m2.tasks.len() == m1.tasks.len()
    &&& m2.current == m1.current
    &&& forall|x: usize| #[trigger] task_at(m2, x) is Some == task_at(m1, x) is Some
    &&& forall|x: usize| task_at(m1, x) is Some ==> #[trigger] task_at(m2, x)->0.runtime_ticks == task_at(
        m1,
        x,
    )->0.runtime_ticks
}

proof fn lemma_step_runtimes(m: SchedModel, q: usize, tick: u32, now: u32)
    ensures
        same_runtimes(m, m_slot_step(m, q, tick, now).0),
{
    let r = m_slot_step(m, q, tick, now).0;
    assert forall|x: usize| #[trigger] task_at(r, x) is Some == task_at(m, x) is Some by {}
    assert forall|x: usize| task_at(m, x) is Some implies #[trigger] task_at(r, x)->0.runtime_ticks == task_at(
        m,
        x,
    )->0.runtime_ticks by {}
}

proof fn lemma_list_runtimes(m: SchedModel, list: Seq<usize>, tick: u32, now: u32)
    ensures
        same_runtimes(m, m_process_list(m, list, tick, now).0),
    decreases list.len(),
{
    if list.len() > 0 {
        let m1 = m_slot_step(m, list[0], tick, now).0;
        lemma_step_runtimes(m, list[0], tick, now);
        lemma_list_runtimes(m1, list.drop_first(), tick, now);
    }
}

proof fn lemma_ticks_runtimes(m: SchedModel, from: u32, count: nat, now: u32)
    ensures
        same_runtimes(m, m_process_ticks(m, from, count, now).0),
    decreases count,
{
    if count > 0 {
        let t = from.wrapping_add(1);
        let m1 = m_process_slot(m, t, now).0;
        lemma_list_runtimes(m, m.wheel[crate::scheduler::bucket_of(t)], t, now);
        lemma_ticks_runtimes(m1, t, (count - 1) as nat, now);
    }
}

/// A system tick that finds the current task running charges it one tick of
/// run time (saturating at the largest count).
pub proof fn law_tick_charges_running_task(m: SchedModel, now: u32)
    requires
        m.started,
        task_at(m, m.current) matches Some(t) && t.state == TaskState::Running,
    ensures
        ({
            let t = task_at(m, m.current)->0;
            let u = task_at(m_tick(m, now), m.current);
            &&& u is Some
            &&& u->0.runtime_ticks == if t.runtime_ticks == u32::MAX {
                u32::MAX
            } else {
                (t.runtime_ticks + 1) as u32
            }
        }),
{
    let cur = m.current;
    let m1 = m_account_runtime(m);
    lemma_ticks_runtimes(m1, m1.last_tick, now.wrapping_sub(m1.last_tick) as nat, now);
    let m2 = m_process_ticks(m1, m1.last_tick, now.wrapping_sub(m1.last_tick) as nat, now).0;
    assert(task_at(m2, cur) is Some == task_at(m1, cur) is Some);
    let m3 = SchedModel { last_tick: now, ..m2 };
    assert(task_at(m3, cur) == task_at(m2, cur));
    assert(m3.current == cur);
    assert(task_at(m3, cur) is Some);
    let pend0 = m_process_ticks(m1, m1.last_tick, now.wrapping_sub(m1.last_tick) as nat, now).1;
    let (m4b, requeue_b, pend_b) = m_slice(m3, pend0);
    assert(task_at(m4b, cur) is Some);
    assert(task_at(m4b, cur)->0.runtime_ticks == task_at(m3, cur)->0.runtime_ticks);
    assert(m4b.current == cur);
    let m5 = if requeue_b {
        m_ready_push(m4b, m4b.current).0
    } else {
        m4b
    };
    assert(task_at(m5, cur)->0.runtime_ticks == task_at(m4b, cur)->0.runtime_ticks);
}

// ---------------------------------------------------------------------------
// Context switch: a task whose frame fits is run
// ---------------------------------------------------------------------------

/// A saved stack pointer is accepted exactly when it is non-null, 8-byte
/// aligned, at or above the stack's start and leaves the sixteen words of a
/// saved frame below the stack's end; in particular the frame a new task
/// starts with, sixteen words below the aligned end of its stack, is
/// accepted.
pub proof fn law_frame_pointer_accepted(t: Tcb, sp: usize)
    ensures
        spec_stack_pointer_is_sane(t, sp) == (sp != 0 && sp % 8 == 0 && t.stack_start <= sp && sp + 64
            <= t.stack_end),
        ({
            let top = t.stack_end - t.stack_end % 8;
            top >= 64 && top - 64 >= t.stack_start && top - 64 > 0 ==> spec_stack_pointer_is_sane(
                t,
                (top - 64) as usize,
            )
        }),
{
    let top = t.stack_end - t.stack_end % 8;
    if top >= 64 && top - 64 >= t.stack_start && top - 64 > 0 {
        let e = t.stack_end;
        assert((e - e % 8 - 64) % 8 == 0 && e - e % 8 <= e) by (nonlinear_arith);
    }
}

/// The outgoing task is a running task other than the idle task, so a
/// switch puts it back in its ready queue.
pub open spec fn outgoing_runs_on(m: SchedModel) -> bool {
    &&& m.current != IDLE_PID
    &&& task_at(m, m.current) matches Some(c) && c.state == TaskState::Running
}

/// When the outgoing task is not running on (it blocked, slept or is the
/// idle task), a context switch runs the front task of the most urgent
/// non-empty ready queue whenever that task's saved stack pointer is
/// accepted, and hands back that stack pointer; the idle task runs instead
/// only when no task is ready or the pick's stack pointer is refused.
pub proof fn law_switch_runs_ready_task(s: Scheduler, save_sp: usize, now: u32)
    requires
        s.wf(),
        !outgoing_runs_on(s@),
    ensures
        ({
            let m = s@;
            let (m2, sp) = m_context_switch(m, save_sp, now);
            match highest_nonempty(m.ready) {
                Some(p) => {
                    let x = m.ready[p][0];
                    let t = task_at(m, x)->0;
                    let xsp = if x == m.current {
                        save_sp
                    } else {
                        t.sp
                    };
                    &&& (xsp != 0 && xsp % 8 == 0 && t.stack_start <= xsp && xsp + 64 <= t.stack_end)
                        ==> m2.current == x && sp == xsp
                    &&& !(xsp != 0 && xsp % 8 == 0 && t.stack_start <= xsp && xsp + 64 <= t.stack_end)
                        ==> m2.current == IDLE_PID
                },
                None => m2.current == IDLE_PID,
            }
        }),
{
    let m = s@;
    if let Some(p) = highest_nonempty(m.ready) {
        crate::laws::lemma_highest_nonempty(m.ready);
        assert(rq_ok(
            s.tasks@,
            s.ready@[p],
            p,
            s.ready_heads@[p],
            s.ready_tails@[p],
            s.ready_counts@[p],
        ));
        assert(rq_node_ok(s.tasks@, s.ready@[p], p, 0));
    }
}

// ---------------------------------------------------------------------------
// Events: a set wakes every waiter
// ---------------------------------------------------------------------------

/// A task that can be made ready: live, not the idle task, with a valid
/// priority, and queued as ready only when it is ready.
pub open spec fn wakeable(m: SchedModel, x: usize) -> bool {
    &&& x != IDLE_PID
    &&& task_at(m, x) is Some
    &&& (task_at(m, x)->0.priority as int) < MAX_PRIORITY
    &&& (task_at(m, x)->0.in_ready_queue ==> task_at(m, x)->0.state == TaskState::Ready)
}

/// The task is ready and in its ready queue.
pub open spec fn ready_queued(m: SchedModel, x: usize) -> bool {
    task_at(m, x) is Some && task_at(m, x)->0.state == TaskState::Ready && task_at(m, x)->0.in_ready_queue
}

proof fn lemma_unblock_readies(m: SchedModel, x: usize, now: u32)
    requires
        wakeable(m, x),
    ensures
        ready_queued(m_unblock(m, x, now).0, x),
        (task_at(m_unblock(m, x, now).0, x)->0.priority as int) < MAX_PRIORITY,
        forall|y: usize| y != x ==> #[trigger] task_at(m_unblock(m, x, now).0, y) == task_at(m, y),
{
}

proof fn lemma_unblock_all_readies(m: SchedModel, ws: Seq<usize>, now: u32)
    requires
        forall|i: int| 0 <= i < ws.len() ==> #[trigger] wakeable(m, ws[i]),
    ensures
        forall|i: int| 0 <= i < ws.len() ==> #[trigger] ready_queued(m_unblock_all(m, ws, now), ws[i]),
    decreases ws.len(),
{
    if ws.len() > 0 {
        let x = ws[0];
        assert(wakeable(m, ws[0]));
        lemma_unblock_readies(m, x, now);
        let m1 = m_unblock(m, x, now).0;
        let rest = ws.drop_first();
        assert forall|i: int| 0 <= i < rest.len() implies #[trigger] wakeable(m1, rest[i]) by {
            assert(rest[i] == ws[i + 1]);
            assert(wakeable(m, ws[i + 1]));
            if rest[i] != x {
                assert(task_at(m1, rest[i]) == task_at(m, rest[i]));
            }
        }
        lemma_unblock_all_readies(m1, rest, now);
        let r = m_unblock_all(m, ws, now);
        assert(r == m_unblock_all(m1, rest, now));
        lemma_unblock_all_keeps_ready(m1, rest, now, x);
        assert forall|i: int| 0 <= i < ws.len() implies #[trigger] ready_queued(r, ws[i]) by {
            if i > 0 {
                assert(ws[i] == rest[i - 1]);
            }
        }
    }
}

/// Waking tasks never takes a ready, queued task out of that state.
proof fn lemma_unblock_all_keeps_ready(m: SchedModel, ws: Seq<usize>, now: u32, x: usize)
    requires
        ready_queued(m, x),
    ensures
        ready_queued(m_unblock_all(m, ws, now), x),
    decreases ws.len(),
{
    if ws.len() > 0 {
        let m1 = m_unblock(m, ws[0], now).0;
        assert(ready_queued(m1, x));
        lemma_unblock_all_keeps_ready(m1, ws.drop_first(), now, x);
    }
}

/// Setting an event wakes every task waiting on it: each becomes ready and
/// joins its ready queue, the count returned is the number of waiters, and
/// the event is left signaled with no waiter.
pub proof fn law_set_wakes_every_waiter(e: EventState, m: SchedModel, now: u32)
    requires
        e.waiters.len() <= usize::MAX,
        forall|i: int| 0 <= i < occupants(e.waiters).len() ==> #[trigger] wakeable(m, occupants(e.waiters)[i]),
    ensures
        ({
            let ws = occupants(e.waiters);
            let (e1, m1, n) = m_event_set(e, m, now);
            &&& n == ws.len()
            &&& forall|i: int| 0 <= i < ws.len() ==> #[trigger] ready_queued(m1, ws[i])
            &&& e1.signaled
        }),
{
    let ws = occupants(e.waiters);
    lemma_unblock_all_readies(m, ws, now);
    crate::waitqueue::lemma_occupants_len(e.waiters);
    crate::waitqueue::lemma_count_bound(e.waiters);
}

} // verus!

verus! {

// ---------------------------------------------------------------------------
// The command table
// ---------------------------------------------------------------------------

/// `w` spells the upper-case word `upper` in any mix of ASCII cases.
pub open spec fn spells(w: Seq<char>, upper: Seq<char>) -> bool {
    &&& w.len() == upper.len()
    &&& forall|k: int| 0 <= k < w.len() ==> (#[trigger] w[k] == upper[k] || w[k] as u32 == upper[k] as u32 + 32)
}

/// `upper` is made of upper-case ASCII letters.
pub open spec fn upper_word(upper: Seq<char>) -> bool {
    forall|k: int| 0 <= k < upper.len() ==> 0x41 <= #[trigger] upper[k] as u32 <= 0x5A
}

/// A line made of a command word, one space and an argument.
pub open spec fn command_line(c: Seq<char>, arg: Seq<char>) -> Seq<char> {
    c + seq![' '] + arg
}

/// `d` is a non-empty run of ASCII decimal digits.
pub open spec fn decimal(d: Seq<char>) -> bool {
    &&& d.len() > 0
    &&& forall|k: int| 0 <= k < d.len() ==> 0x30 <= #[trigger] d[k] as u32 <= 0x39
}

/// The value of a run of decimal digits.
pub open spec fn decimal_value(d: Seq<char>) -> int
    decreases d.len(),
{
    if d.len() == 0 {
        0
    } else {
        decimal_value(d.drop_last()) * 10 + (d.last() as u32 - 0x30)
    }
}

proof fn lemma_word_no_ws(w: Seq<char>, upper: Seq<char>)
    requires
        upper_word(upper),
        spells(w, upper),
    ensures
        forall|k: int| 0 <= k < w.len() ==> !crate::protocol::spec_is_whitespace(#[trigger] w[k]),
{
    assert forall|k: int| 0 <= k < w.len() implies !crate::protocol::spec_is_whitespace(#[trigger] w[k]) by {
        assert(0x41 <= upper[k] as u32 <= 0x5A);
    }
}

proof fn lemma_word_matches(s: Seq<char>, i: int, w: Seq<char>, upper: Seq<char>, lit: Seq<char>)
    requires
        upper_word(upper),
        spells(w, upper),
        0 <= i,
        i + w.len() <= s.len(),
        forall|k: int| 0 <= k < w.len() ==> s[i + k] == #[trigger] w[k],
        lit.len() == upper.len(),
    ensures
        crate::protocol::eq_ignore_ascii_case(s, i, i + w.len(), lit) == (forall|k: int|
            0 <= k < lit.len() ==> crate::protocol::ascii_lower(#[trigger] lit[k] as u32) == upper[k] as u32 + 32),
{
    assert forall|k: int| 0 <= k < w.len() implies crate::protocol::ascii_lower(#[trigger] s[i + k] as u32) == upper[k] as u32
        + 32 by {
        assert(s[i + k] == w[k]);
        assert(0x41 <= upper[k] as u32 <= 0x5A);
    }
    if crate::protocol::eq_ignore_ascii_case(s, i, i + w.len(), lit) {
        assert forall|k: int| 0 <= k < lit.len() implies crate::protocol::ascii_lower(#[trigger] lit[k] as u32)
            == upper[k] as u32 + 32 by {
            assert(crate::protocol::ascii_lower(s[i + k] as u32) == crate::protocol::ascii_lower(lit[k] as u32));
        }
    }
}

proof fn lemma_find_ws(s: Seq<char>, i: int, j: int, k: int)
    requires
        0 <= i <= k <= j <= s.len(),
        forall|m: int| i <= m < k ==> !crate::protocol::spec_is_whitespace(#[trigger] s[m]),
        k < j ==> crate::protocol::spec_is_whitespace(s[k]),
    ensures
        crate::protocol::find_ws(s, i, j) == k,
    decreases k - i,
{
    if i < k {
        lemma_find_ws(s, i + 1, j, k);
    }
}

/// Where the parser finds the pieces of a command line.
proof fn lemma_line_pieces(c: Seq<char>, arg: Seq<char>)
    requires
        c.len() > 0,
        arg.len() > 0,
        forall|k: int| 0 <= k < c.len() ==> !crate::protocol::spec_is_whitespace(#[trigger] c[k]),
        !crate::protocol::spec_is_whitespace(arg[0]),
        !crate::protocol::spec_is_whitespace(arg.last()),
    ensures
        ({
            let s = command_line(c, arg);
            let n = s.len() as int;
            &&& crate::protocol::skip_ws(s, 0, n) == 0
            &&& crate::protocol::trim_end(s, 0, n) == n
            &&& crate::protocol::find_ws(s, 0, n) == c.len()
            &&& crate::protocol::skip_ws(s, c.len() as int + 1, n) == c.len() as int + 1
            &&& crate::protocol::trim_end(s, c.len() as int + 1, n) == n
            &&& s.subrange(c.len() as int + 1, n) == arg
            &&& forall|k: int| 0 <= k < c.len() ==> s[k] == #[trigger] c[k]
            &&& forall|k: int| 0 <= k < arg.len() ==> s[c.len() as int + 1 + k] == #[trigger] arg[k]
        }),
{
    let s = command_line(c, arg);
    let n = s.len() as int;
    assert(s[0] == c[0]);
    assert(s[n - 1] == arg[arg.len() - 1]);
    assert(s[c.len() as int] == ' ');
    assert(s[c.len() as int + 1] == arg[0]);
    assert forall|m: int| 0 <= m < c.len() implies !crate::protocol::spec_is_whitespace(#[trigger] s[m]) by {
        assert(s[m] == c[m]);
    }
    lemma_find_ws(s, 0, n, c.len() as int);
    assert(s.subrange(c.len() as int + 1, n) =~= arg);
}

/// Where the parser finds the pieces of a line that is one word.
proof fn lemma_word_line(c: Seq<char>)
    requires
        c.len() > 0,
        forall|k: int| 0 <= k < c.len() ==> !crate::protocol::spec_is_whitespace(#[trigger] c[k]),
    ensures
        crate::protocol::skip_ws(c, 0, c.len() as int) == 0,
        crate::protocol::trim_end(c, 0, c.len() as int) == c.len(),
        crate::protocol::find_ws(c, 0, c.len() as int) == c.len(),
{
    lemma_find_ws(c, 0, c.len() as int, c.len() as int);
    assert(!crate::protocol::spec_is_whitespace(c[c.len() - 1]));
}

/// The words of the command table, in any mix of ASCII cases: `PING` and
/// `STAT` alone, `LED ON`, `LED OFF` and `LED TOGGLE` switch, `ECHO` gives
/// back its argument, and `PWM` takes a duty cycle from 0 to 100 percent
/// (anything above is refused).
pub proof fn law_command_table(c: Seq<char>, w: Seq<char>)
    ensures
        spells(c, "PING"@) ==> spec_parse_command(c) == Ok::<CommandModel, ParseError>(CommandModel::Ping),
        spells(c, "STAT"@) ==> spec_parse_command(c) == Ok::<CommandModel, ParseError>(CommandModel::Stat),
        spells(c, "LED"@) && spells(w, "ON"@) ==> spec_parse_command(command_line(c, w)) == Ok::<
            CommandModel,
            ParseError,
        >(CommandModel::Led(LedCommand::On)),
        spells(c, "LED"@) && spells(w, "OFF"@) ==> spec_parse_command(command_line(c, w)) == Ok::<
            CommandModel,
            ParseError,
        >(CommandModel::Led(LedCommand::Off)),
        spells(c, "LED"@) && spells(w, "TOGGLE"@) ==> spec_parse_command(command_line(c, w)) == Ok::<
            CommandModel,
            ParseError,
        >(CommandModel::Led(LedCommand::Toggle)),
        spells(c, "ECHO"@) && w.len() > 0 && !crate::protocol::spec_is_whitespace(w[0])
            && !crate::protocol::spec_is_whitespace(w.last()) ==> spec_parse_command(command_line(c, w)) == Ok::<
            CommandModel,
            ParseError,
        >(CommandModel::Echo(w)),
        spells(c, "PWM"@) && decimal(w) ==> spec_parse_command(command_line(c, w)) == if decimal_value(w) <= 100 {
            Ok::<CommandModel, ParseError>(CommandModel::Pwm(decimal_value(w) as u8))
        } else {
            Err::<CommandModel, ParseError>(ParseError::InvalidPwm)
        },
{
    lemma_table_words(c);
    lemma_table_led(c, w);
    lemma_table_echo(c, w);
    lemma_table_pwm(c, w);
}

proof fn lemma_upper_words()
    ensures
        upper_word("PING"@) && upper_word("STAT"@) && upper_word("LED"@) && upper_word("ECHO"@)
            && upper_word("PWM"@) && upper_word("ON"@) && upper_word("OFF"@) && upper_word("TOGGLE"@),
        "PING"@.len() == 4 && "STAT"@.len() == 4 && "ECHO"@.len() == 4 && "LED"@.len() == 3 && "PWM"@.len() == 3,
        "ON"@.len() == 2 && "OFF"@.len() == 3 && "TOGGLE"@.len() == 6,
{
    reveal_strlit("PING");
    reveal_strlit("STAT");
    reveal_strlit("LED");
    reveal_strlit("ECHO");
    reveal_strlit("PWM");
    reveal_strlit("ON");
    reveal_strlit("OFF");
    reveal_strlit("TOGGLE");
}

proof fn lemma_table_words(c: Seq<char>)
    ensures
        spells(c, "PING"@) ==> spec_parse_command(c) == Ok::<CommandModel, ParseError>(CommandModel::Ping),
        spells(c, "STAT"@) ==> spec_parse_command(c) == Ok::<CommandModel, ParseError>(CommandModel::Stat),
{
    lemma_upper_words();
    reveal_strlit("PING");
    reveal_strlit("STAT");
    reveal_strlit("ECHO");
    if spells(c, "PING"@) {
        lemma_word_no_ws(c, "PING"@);
        lemma_word_line(c);
        lemma_word_matches(c, 0, c, "PING"@, "PING"@);
    }
    if spells(c, "STAT"@) {
        lemma_word_no_ws(c, "STAT"@);
        lemma_word_line(c);
        lemma_word_matches(c, 0, c, "STAT"@, "STAT"@);
        lemma_word_matches(c, 0, c, "STAT"@, "PING"@);
        lemma_word_matches(c, 0, c, "STAT"@, "ECHO"@);
        assert(crate::protocol::ascii_lower("PING"@[0] as u32) != "STAT"@[0] as u32 + 32);
        assert(crate::protocol::ascii_lower("ECHO"@[0] as u32) != "STAT"@[0] as u32 + 32);
    }
}

proof fn lemma_table_led(c: Seq<char>, w: Seq<char>)
    ensures
        spells(c, "LED"@) && spells(w, "ON"@) ==> spec_parse_command(command_line(c, w)) == Ok::<
            CommandModel,
            ParseError,
        >(CommandModel::Led(LedCommand::On)),
        spells(c, "LED"@) && spells(w, "OFF"@) ==> spec_parse_command(command_line(c, w)) == Ok::<
            CommandModel,
            ParseError,
        >(CommandModel::Led(LedCommand::Off)),
        spells(c, "LED"@) && spells(w, "TOGGLE"@) ==> spec_parse_command(command_line(c, w)) == Ok::<
            CommandModel,
            ParseError,
        >(CommandModel::Led(LedCommand::Toggle)),
{
    lemma_upper_words();
    if spells(c, "LED"@) && (spells(w, "ON"@) || spells(w, "OFF"@) || spells(w, "TOGGLE"@)) {
        let u = if spells(w, "ON"@) {
            "ON"@
        } else if spells(w, "OFF"@) {
            "OFF"@
        } else {
            "TOGGLE"@
        };
        lemma_word_no_ws(c, "LED"@);
        lemma_word_no_ws(w, u);
        lemma_line_pieces(c, w);
        let s = command_line(c, w);
        lemma_word_matches(s, 0, c, "LED"@, "LED"@);
        lemma_word_matches(s, c.len() as int + 1, w, u, u);
    }
}

proof fn lemma_table_echo(c: Seq<char>, w: Seq<char>)
    ensures
        spells(c, "ECHO"@) && w.len() > 0 && !crate::protocol::spec_is_whitespace(w[0])
            && !crate::protocol::spec_is_whitespace(w.last()) ==> spec_parse_command(command_line(c, w)) == Ok::<
            CommandModel,
            ParseError,
        >(CommandModel::Echo(w)),
{
    lemma_upper_words();
    reveal_strlit("PING");
    reveal_strlit("ECHO");
    if spells(c, "ECHO"@) && w.len() > 0 && !crate::protocol::spec_is_whitespace(w[0])
        && !crate::protocol::spec_is_whitespace(w.last()) {
        lemma_word_no_ws(c, "ECHO"@);
        lemma_line_pieces(c, w);
        let s = command_line(c, w);
        lemma_word_matches(s, 0, c, "ECHO"@, "ECHO"@);
        lemma_word_matches(s, 0, c, "ECHO"@, "PING"@);
        assert(crate::protocol::ascii_lower("PING"@[0] as u32) != "ECHO"@[0] as u32 + 32);
    }
}

#[verifier::rlimit(30)]
proof fn lemma_table_pwm(c: Seq<char>, w: Seq<char>)
    ensures
        spells(c, "PWM"@) && decimal(w) ==> spec_parse_command(command_line(c, w)) == if decimal_value(w) <= 100 {
            Ok::<CommandModel, ParseError>(CommandModel::Pwm(decimal_value(w) as u8))
        } else {
            Err::<CommandModel, ParseError>(ParseError::InvalidPwm)
        },
{
    lemma_upper_words();
    reveal_strlit("PWM");
    reveal_strlit("LED");
    if spells(c, "PWM"@) && decimal(w) {
        lemma_word_no_ws(c, "PWM"@);
        assert(!crate::protocol::spec_is_whitespace(w[0]) && !crate::protocol::spec_is_whitespace(w.last())) by {
            assert(0x30 <= w[0] as u32 <= 0x39);
            assert(0x30 <= w[w.len() - 1] as u32 <= 0x39);
        }
        lemma_line_pieces(c, w);
        let s = command_line(c, w);
        lemma_word_matches(s, 0, c, "PWM"@, "PWM"@);
        lemma_word_matches(s, 0, c, "PWM"@, "LED"@);
        assert(crate::protocol::ascii_lower("LED"@[0] as u32) != "PWM"@[0] as u32 + 32);
        assert(crate::protocol::strip_plus(w) == w) by {
            assert(0x30 <= w[0] as u32 <= 0x39);
        }
        assert(crate::protocol::all_digits(w)) by {
            assert forall|k: int| 0 <= k < w.len() implies crate::protocol::is_ascii_digit(#[trigger] w[k]) by {
                assert(0x30 <= w[k] as u32 <= 0x39);
            }
        }
        lemma_decimal_value(w);
        lemma_decimal_nonneg(w);
    }
}

proof fn lemma_decimal_value(d: Seq<char>)
    ensures
        crate::protocol::digits_value(d) == decimal_value(d),
    decreases d.len(),
{
    if d.len() > 0 {
        lemma_decimal_value(d.drop_last());
    }
}

proof fn lemma_decimal_nonneg(d: Seq<char>)
    requires
        forall|k: int| 0 <= k < d.len() ==> 0x30 <= #[trigger] d[k] as u32 <= 0x39,
    ensures
        decimal_value(d) >= 0,
    decreases d.len(),
{
    if d.len() > 0 {
        assert forall|k: int| 0 <= k < d.drop_last().len() implies 0x30 <= #[trigger] d.drop_last()[k] as u32
            <= 0x39 by {
            assert(d.drop_last()[k] == d[k]);
        }
        lemma_decimal_nonneg(d.drop_last());
        assert(0x30 <= d[d.len() - 1] as u32 <= 0x39);
    }
}

} // verus!

verus! {

// ---------------------------------------------------------------------------
// Scheduler operations, stated directly
// ---------------------------------------------------------------------------

/// Unblocking a task that is blocked or asleep makes it ready: it leaves
/// the timeout wheel, joins its ready queue, and the call reports it.
pub proof fn law_unblock_makes_ready(s: Scheduler, pid: usize, now: u32)
    requires
        s.wf(),
        pid != IDLE_PID,
        task_at(s@, pid) matches Some(t) && (t.state == TaskState::Blocked || t.state == TaskState::Sleeping),
    ensures
        ({
            let (m1, done) = m_unblock(s@, pid, now);
            &&& done
            &&& ready_queued(m1, pid)
            &&& !task_at(m1, pid)->0.in_timeout_queue
        }),
{
    let t = s.tasks@[pid as int]->0;
    assert(crate::scheduler::slot_coherent(pid as int, t));
}

/// The wait a sleep or a timed block lasts, in ticks: the milliseconds
/// asked for at the 1 kHz tick, and at least one tick.
pub open spec fn wait_ticks(ms: u32) -> u32 {
    if ms == 0 {
        1
    } else {
        ms
    }
}

/// Sleeping puts the current task to sleep on the timeout wheel until
/// `ms` milliseconds (at least one tick) from now, and asks for a switch.
pub proof fn law_sleep_waits_on_wheel(s: Scheduler, ms: u32, now: u32)
    requires
        s.wf(),
        current_unqueued(s@),
        task_at(s@, s@.current) is Some,
    ensures
        ({
            let m1 = m_sleep(s@, ms, now);
            let u = task_at(m1, s@.current);
            &&& u is Some
            &&& u->0.state == TaskState::Sleeping
            &&& u->0.in_timeout_queue
            &&& u->0.wake_tick == now.wrapping_add(wait_ticks(ms))
            &&& m1.switch_pending
        }),
{
    let w = now.wrapping_add(wait_ticks(ms));
    let d = wait_ticks(ms);
    assert(w.wrapping_sub(now) == d) by (bit_vector)
        requires
            w == now.wrapping_add(d),
    ;
}

/// Blocking the current task marks it blocked; with a timeout it also waits
/// on the timeout wheel until that many milliseconds from now; a switch is
/// asked for.
pub proof fn law_block_marks_blocked(s: Scheduler, timeout_ms: Option<u32>, now: u32)
    requires
        s.wf(),
        current_unqueued(s@),
        task_at(s@, s@.current) is Some,
    ensures
        ({
            let m1 = m_block(s@, timeout_ms, now);
            let u = task_at(m1, s@.current);
            &&& u is Some
            &&& u->0.state == TaskState::Blocked
            &&& u->0.has_timeout == timeout_ms is Some
            &&& u->0.in_timeout_queue == timeout_ms is Some
            &&& (timeout_ms matches Some(ms) ==> u->0.wake_tick == now.wrapping_add(wait_ticks(ms)))
            &&& m1.switch_pending
        }),
{
    if let Some(ms) = timeout_ms {
        let w = now.wrapping_add(wait_ticks(ms));
        let d = wait_ticks(ms);
        assert(w.wrapping_sub(now) == d) by (bit_vector)
            requires
                w == now.wrapping_add(d),
        ;
    }
}

/// Deleting a live task other than idle frees its slot and reports it;
/// the idle task cannot be deleted.
pub proof fn law_delete_frees_slot(s: Scheduler, pid: usize, now: u32)
    requires
        s.wf(),
    ensures
        pid != IDLE_PID && task_at(s@, pid) is Some ==> m_delete(s@, pid, now).1 && task_at(
            m_delete(s@, pid, now).0,
            pid,
        ) is None,
        pid == IDLE_PID ==> !m_delete(s@, pid, now).1 && m_delete(s@, pid, now).0 == s@,
{
}

/// Creating a task at a valid priority takes the lowest free slot (when
/// there is one) and leaves there a ready, queued task of that priority,
/// with the given entry and stack; an invalid priority is refused.
pub proof fn law_create_lowest_free_slot(
    s: Scheduler,
    entry: usize,
    arg: usize,
    stack_start: usize,
    stack_end: usize,
    sp: usize,
    priority: u8,
    now: u32,
)
    requires
        s.wf(),
    ensures
        ({
            let (m1, r) = m_create(s@, entry, arg, stack_start, stack_end, sp, priority, now);
            &&& (priority as int) >= MAX_PRIORITY ==> r is None && m1 == s@
            &&& r matches Some(pid) ==> {
                &&& task_at(s@, pid) is None
                &&& forall|j: usize| j < pid ==> #[trigger] task_at(s@, j) is Some
                &&& ready_queued(m1, pid)
                &&& task_at(m1, pid)->0.priority == priority
                &&& task_at(m1, pid)->0.base_priority == priority
                &&& task_at(m1, pid)->0.entry == entry
                &&& task_at(m1, pid)->0.sp == sp
                &&& task_at(m1, pid)->0.stack_start == stack_start
                &&& task_at(m1, pid)->0.stack_end == stack_end
            }
            &&& (priority as int) < MAX_PRIORITY && (exists|j: usize| j < MAX_TASKS && #[trigger] task_at(s@, j)
                is None) ==> r is Some
        }),
{
    if (priority as int) < MAX_PRIORITY {
        lemma_first_free_from(s@.tasks, 0);
        if exists|j: usize| j < MAX_TASKS && #[trigger] task_at(s@, j) is None {
            let j = choose|j: usize| j < MAX_TASKS && #[trigger] task_at(s@, j) is None;
            assert(s@.tasks[j as int] is None);
        }
    }
}

proof fn lemma_first_free_from(tasks: Seq<Option<Tcb>>, i: int)
    requires
        0 <= i,
        tasks.len() == MAX_TASKS,
    ensures
        match first_free_from(tasks, i) {
            Some(p) => i <= p < tasks.len() && tasks[p as int] is None && forall|j: int| i <= j < p ==> (
            #[trigger] tasks[j]) is Some,
            None => forall|j: int| i <= j < tasks.len() ==> (#[trigger] tasks[j]) is Some,
        },
    decreases tasks.len() - i,
{
    if i < tasks.len() && tasks[i] is Some {
        lemma_first_free_from(tasks, i + 1);
    }
}

/// Time slicing: a running task other than idle whose slice runs out at
/// this tick goes back, ready, to the tail of its ready queue with a fresh
/// slice, and a switch is due; with slice left and no more urgent task
/// ready, it runs on with one tick less.
pub proof fn law_slice_round_robin(m: SchedModel, pend: bool)
    requires
        m.current != IDLE_PID,
        task_at(m, m.current) matches Some(c) && c.state == TaskState::Running,
    ensures
        ({
            let c = task_at(m, m.current)->0;
            let (m1, requeue, switch) = m_slice(m, pend);
            let u = task_at(m1, m.current)->0;
            &&& c.remaining_slice <= 1 ==> requeue && switch && u.state == TaskState::Ready
                && u.remaining_slice == crate::scheduler::DEFAULT_TIME_SLICE_TICKS
            &&& c.remaining_slice > 1 && !pend && highest_nonempty(m.ready) is None ==> !requeue && !switch
                && u.state == TaskState::Running && u.remaining_slice == c.remaining_slice - 1
        }),
{
}

// ---------------------------------------------------------------------------
// Semaphores, mutexes and events, stated directly
// ---------------------------------------------------------------------------

/// Acquiring a semaphore with tokens left takes exactly one, at once; with
/// none left (and none handed to the caller) the caller blocks in its wait
/// queue, when there is room.
pub proof fn law_acquire_takes_one_token(s: SemModel, m: SchedModel, timeout_ms: Option<u32>, now: u32)
    requires
        spec_current_pid(m) is Some,
    ensures
        ({
            let (s1, m1, step) = m_sem_acquire(s, m, timeout_ms, now);
            &&& s.count > 0 ==> s1.count == s.count - 1 && m1 == m && step == SemAcquireStep::Done(Ok(()))
            &&& s.count == 0 && !s.granted.contains(Some(m.current)) && wq_push(s.waiters, m.current).1
                ==> s1.count == 0 && step == SemAcquireStep::Blocked(m.current) && (task_at(m, m.current) is Some
                ==> task_at(m1, m.current)->0.state == TaskState::Blocked)
        }),
{
}

/// Locking a free mutex makes the caller its owner at once; locking one the
/// caller already owns is refused as a deadlock and changes nothing.
pub proof fn law_lock_free_mutex(s: MutexModel, m: SchedModel, timeout_ms: Option<u32>, now: u32)
    requires
        spec_current_pid(m) is Some,
        task_at(m, m.current) is Some,
    ensures
        ({
            let (s1, m1, step) = m_mutex_acquire(s, m, timeout_ms, now);
            &&& s.owner is None ==> s1.owner == Some(m.current) && m1 == m && step == MutexAcquireStep::Done(Ok(()))
            &&& s.owner == Some(m.current) ==> s1 == s && m1 == m && step == MutexAcquireStep::Done(
                Err(MutexError::WouldDeadlock),
            )
        }),
{
}

/// Only the owner can unlock a mutex; an owner that unlocks it with no task
/// waiting leaves it free.
pub proof fn law_unlock_by_owner_only(s: MutexModel, m: SchedModel, now: u32)
    requires
        spec_current_pid(m) is Some,
    ensures
        ({
            let (s1, m1, r) = m_mutex_release(s, m, now);
            &&& s.owner != Some(m.current) ==> r == Err::<(), MutexError>(MutexError::NotOwner) && s1 == s && m1 == m
            &&& s.owner == Some(m.current) && count_some(s.waiters) == 0 ==> r == Ok::<(), MutexError>(())
                && s1.owner is None
        }),
{
    if s.owner == Some(m.current) && count_some(s.waiters) == 0 {
        crate::waitqueue::lemma_empty_queue(s.waiters);
    }
}

/// Waiting on a set event returns at once and changes nothing; waiting on a
/// clear one blocks the caller (when the wait queue has room) without
/// setting the event.
pub proof fn law_wait_on_event(e: EventState, m: SchedModel, timeout_ms: Option<u32>, now: u32)
    requires
        spec_current_pid(m) is Some,
    ensures
        ({
            let (e1, m1, step) = m_event_wait(e, m, timeout_ms, now);
            &&& e.signaled ==> e1 == e && m1 == m && step == EventWaitStep::Done(Ok(()))
            &&& !e.signaled && wq_push(e.waiters, m.current).1 ==> !e1.signaled && step == EventWaitStep::Blocked(
                m.current,
                e.signal_seq,
            ) && (task_at(m, m.current) is Some ==> task_at(m1, m.current)->0.state == TaskState::Blocked)
        }),
{
}

// ---------------------------------------------------------------------------
// Commands
// ---------------------------------------------------------------------------

/// The LED commands drive the two LED lines: `ON` pulls PC13 low and drives
/// PA1 high, `OFF` the reverse, `TOGGLE` inverts both; each answers `OK`
/// and leaves the PWM alone.  Before the LED is set up nothing changes and
/// the answer is an error.
pub proof fn law_led_commands(c: Controls, cmd: LedCommand)
    ensures
        ({
            let (c1, reply) = spec_led_command(c, cmd);
            &&& c.led_ready && cmd == LedCommand::On ==> !c1.pc13_high && c1.pa1_high
            &&& c.led_ready && cmd == LedCommand::Off ==> c1.pc13_high && !c1.pa1_high
            &&& c.led_ready && cmd == LedCommand::Toggle ==> c1.pc13_high == !c.pc13_high && c1.pa1_high == !c.pa1_high
            &&& c.led_ready ==> reply == "OK"@ && c1.pwm_ccr == c.pwm_ccr && c1.led_ready && c1.pwm_ready == c.pwm_ready
            &&& !c.led_ready ==> c1 == c && reply != "OK"@
        }),
{
    reveal_strlit("OK");
    reveal_strlit("ERR led_unavailable");
    assert("OK"@.len() != "ERR led_unavailable"@.len());
}

/// The PWM compare value grows with the duty cycle asked for: 0 % gives
/// 0, 100 % (or more) the full period, 50 % half of it.
pub proof fn law_pwm_compare(p: u8, q: u8)
    ensures
        spec_pwm_compare(0) == 0,
        spec_pwm_compare(100) == crate::board::PWM_ARR,
        spec_pwm_compare(50) == 500,
        p <= q ==> spec_pwm_compare(p) <= spec_pwm_compare(q),
        p >= 100 ==> spec_pwm_compare(p) == crate::board::PWM_ARR,
{
    let cp: int = if p > 100 { 100 } else { p as int };
    let cq: int = if q > 100 { 100 } else { q as int };
    if p <= q {
        assert(1000 * cp / 100 <= 1000 * cq / 100) by (nonlinear_arith)
            requires
                cp <= cq,
                0 <= cp,
        ;
    }
}

/// A line answers as the protocol says: `PING` with `PONG`, `STAT` with the
/// status report, an empty line with nothing, an unknown word with an
/// error, and bytes that are not text with `ERR utf8`; none of these moves
/// the LED or the PWM.
pub proof fn law_command_replies(c: Controls, w: Seq<char>)
    ensures
        spells(w, "PING"@) ==> spec_handle_text(c, Some(w)) == (c, ReplyModel::Text("PONG"@)),
        spells(w, "STAT"@) ==> spec_handle_text(c, Some(w)) == (c, ReplyModel::StatReport),
        spec_handle_text(c, None) == (c, ReplyModel::Text("ERR utf8"@)),
        spec_handle_text(c, Some(Seq::empty())) == (c, ReplyModel::Silent),
{
    lemma_table_words(w);
}

} // verus!

verus! {

// ---------------------------------------------------------------------------
// Software timers
// ---------------------------------------------------------------------------

/// Arming a timer takes the lowest free slot, if any, and sets it to expire
/// the given number of milliseconds (ticks) from now, with its callback.
pub proof fn law_timer_start(
    m: TimersModel,
    first_ms: u32,
    period_ms: u32,
    periodic: bool,
    callback: usize,
    arg: usize,
    now: u32,
)
    requires
        m.timers.len() == MAX_TIMERS,
    ensures
        ({
            let (m1, r) = m_start(m, first_ms, period_ms, periodic, callback, arg, now);
            &&& r matches Some(i) ==> {
                &&& i < MAX_TIMERS
                &&& m.timers[i as int] is None
                &&& forall|j: int| 0 <= j < i ==> (#[trigger] m.timers[j]) is Some
                &&& m1.timers[i as int] == Some(SoftTimer {
                    expire_tick: now.wrapping_add(first_ms),
                    period_ticks: period_ms,
                    callback,
                    arg,
                    periodic,
                })
                &&& m1.pending == m.pending
            }
            &&& r is None ==> m1 == m && forall|j: int| 0 <= j < MAX_TIMERS ==> (#[trigger] m.timers[j]) is Some
        }),
{
    lemma_first_free_timer(m.timers, 0);
}

proof fn lemma_first_free_timer(timers: Seq<Option<SoftTimer>>, i: int)
    requires
        0 <= i,
        timers.len() == MAX_TIMERS,
    ensures
        match first_free_timer(timers, i) {
            Some(p) => i <= p < MAX_TIMERS && timers[p as int] is None && forall|j: int| i <= j < p ==> (
            #[trigger] timers[j]) is Some,
            None => forall|j: int| i <= j < MAX_TIMERS ==> (#[trigger] timers[j]) is Some,
        },
    decreases MAX_TIMERS - i,
{
    if i < MAX_TIMERS && timers[i] is Some {
        lemma_first_free_timer(timers, i + 1);
    }
}

/// The callbacks, in slot order, of the timers among slots `i..` that have
/// expired at tick `now`.
pub open spec fn due_callbacks(timers: Seq<Option<SoftTimer>>, i: int, now: u32) -> Seq<(usize, usize)>
    decreases MAX_TIMERS - i,
{
    if i < 0 || i >= MAX_TIMERS {
        Seq::empty()
    } else {
        let rest = due_callbacks(timers, i + 1, now);
        match timers[i] {
            Some(t) => if now.wrapping_sub(t.expire_tick) < 0x8000_0000 {
                seq![(t.callback, t.arg)] + rest
            } else {
                rest
            },
            None => rest,
        }
    }
}

/// A timer tick with nothing pending runs through every timer: each one
/// whose expiry tick has come has its callback queued, in slot order, and
/// is re-armed one period later when periodic, freed otherwise; every other
/// timer is left as it was.
pub proof fn law_timer_tick(m: TimersModel, now: u32)
    requires
        m.timers.len() == MAX_TIMERS,
        m.pending.len() == 0,
    ensures
        ({
            let m1 = m_timer_scan(m, 0, now);
            &&& m1.pending == due_callbacks(m.timers, 0, now)
            &&& m1.timers.len() == MAX_TIMERS
            &&& forall|i: int| 0 <= i < MAX_TIMERS ==> #[trigger] m1.timers[i] == match m.timers[i] {
                Some(t) => if now.wrapping_sub(t.expire_tick) < 0x8000_0000 {
                    if t.periodic {
                        Some(SoftTimer { expire_tick: t.expire_tick.wrapping_add(t.period_ticks), ..t })
                    } else {
                        None
                    }
                } else {
                    Some(t)
                },
                None => None,
            }
        }),
{
    lemma_timer_scan(m, m.timers, 0, now);
    assert(m.pending + due_callbacks(m.timers, 0, now) =~= due_callbacks(m.timers, 0, now));
}

proof fn lemma_due_len(timers: Seq<Option<SoftTimer>>, i: int, now: u32)
    requires
        0 <= i <= MAX_TIMERS,
    ensures
        due_callbacks(timers, i, now).len() <= MAX_TIMERS - i,
    decreases MAX_TIMERS - i,
{
    if i < MAX_TIMERS {
        lemma_due_len(timers, i + 1, now);
    }
}

proof fn lemma_timer_scan(m: TimersModel, orig: Seq<Option<SoftTimer>>, i: int, now: u32)
    requires
        0 <= i <= MAX_TIMERS,
        m.timers.len() == MAX_TIMERS,
        orig.len() == MAX_TIMERS,
        forall|j: int| i <= j < MAX_TIMERS ==> #[trigger] m.timers[j] == orig[j],
        m.pending.len() <= i,
    ensures
        ({
            let m1 = m_timer_scan(m, i, now);
            &&& m1.pending == m.pending + due_callbacks(orig, i, now)
            &&& m1.timers.len() == MAX_TIMERS
            &&& forall|j: int| 0 <= j < i ==> #[trigger] m1.timers[j] == m.timers[j]
            &&& forall|j: int| i <= j < MAX_TIMERS ==> #[trigger] m1.timers[j] == match orig[j] {
                Some(t) => if now.wrapping_sub(t.expire_tick) < 0x8000_0000 {
                    if t.periodic {
                        Some(SoftTimer { expire_tick: t.expire_tick.wrapping_add(t.period_ticks), ..t })
                    } else {
                        None
                    }
                } else {
                    Some(t)
                },
                None => None,
            }
        }),
    decreases MAX_TIMERS - i,
{
    if i == MAX_TIMERS {
        assert(m.pending + Seq::<(usize, usize)>::empty() =~= m.pending);
        return;
    }
    let m1 = m_timer_slot(m, i, now);
    assert(m1.pending.len() <= i + 1);
    assert forall|j: int| i + 1 <= j < MAX_TIMERS implies #[trigger] m1.timers[j] == orig[j] by {
        assert(m.timers[j] == orig[j]);
    }
    lemma_timer_scan(m1, orig, i + 1, now);
    let r = m_timer_scan(m, i, now);
    assert(r == m_timer_scan(m1, i + 1, now));
    let rest = due_callbacks(orig, i + 1, now);
    match orig[i] {
        Some(t) => {
            if now.wrapping_sub(t.expire_tick) < 0x8000_0000 {
                assert(m1.pending == m.pending.push((t.callback, t.arg)));
                assert(m.pending.push((t.callback, t.arg)) + rest =~= m.pending + (seq![(t.callback, t.arg)]
                    + rest));
            }
        },
        None => {},
    }
}

// ---------------------------------------------------------------------------
// Board policy
// ---------------------------------------------------------------------------

/// The reset cause: each flag alone names its own cause, a watchdog reset
/// wins over any other flag, and no flag at all is an unknown cause.
pub proof fn law_reset_reason(csr: u32)
    ensures
        spec_reset_reason_from_csr(1u32 << 29u32) == ResetReason::IndependentWatchdog,
        spec_reset_reason_from_csr(1u32 << 30u32) == ResetReason::WindowWatchdog,
        spec_reset_reason_from_csr(1u32 << 28u32) == ResetReason::Software,
        spec_reset_reason_from_csr(1u32 << 31u32) == ResetReason::LowPower,
        spec_reset_reason_from_csr(1u32 << 26u32) == ResetReason::PinReset,
        spec_reset_reason_from_csr(1u32 << 27u32) == ResetReason::PowerOn,
        csr & (1u32 << 29u32) != 0 ==> spec_reset_reason_from_csr(csr) == ResetReason::IndependentWatchdog,
        csr & 0xFC00_0000u32 == 0 ==> spec_reset_reason_from_csr(csr) == ResetReason::Unknown,
{
    assert((1u32 << 29u32) & (1u32 << 29u32) != 0) by (bit_vector);
    assert((1u32 << 30u32) & (1u32 << 29u32) == 0 && (1u32 << 30u32) & (1u32 << 30u32) != 0) by (bit_vector);
    assert((1u32 << 28u32) & (1u32 << 29u32) == 0 && (1u32 << 28u32) & (1u32 << 30u32) == 0 && (1u32 << 28u32)
        & (1u32 << 28u32) != 0) by (bit_vector);
    assert((1u32 << 31u32) & (1u32 << 29u32) == 0 && (1u32 << 31u32) & (1u32 << 30u32) == 0 && (1u32 << 31u32)
        & (1u32 << 28u32) == 0 && (1u32 << 31u32) & (1u32 << 31u32) != 0) by (bit_vector);
    assert((1u32 << 26u32) & (1u32 << 29u32) == 0 && (1u32 << 26u32) & (1u32 << 30u32) == 0 && (1u32 << 26u32)
        & (1u32 << 28u32) == 0 && (1u32 << 26u32) & (1u32 << 31u32) == 0 && (1u32 << 26u32) & (1u32 << 26u32)
        != 0) by (bit_vector);
    assert((1u32 << 27u32) & (1u32 << 29u32) == 0 && (1u32 << 27u32) & (1u32 << 30u32) == 0 && (1u32 << 27u32)
        & (1u32 << 28u32) == 0 && (1u32 << 27u32) & (1u32 << 31u32) == 0 && (1u32 << 27u32) & (1u32 << 26u32)
        == 0 && (1u32 << 27u32) & (1u32 << 27u32) != 0) by (bit_vector);
    assert(csr & 0xFC00_0000u32 == 0 ==> csr & (1u32 << 29u32) == 0 && csr & (1u32 << 30u32) == 0 && csr & (1u32
        << 28u32) == 0 && csr & (1u32 << 31u32) == 0 && csr & (1u32 << 26u32) == 0 && csr & (1u32 << 27u32) == 0)
        by (bit_vector);
}

/// The watchdog reload for a timeout: the watchdog counts 625 times a
/// second, so the reload plus one is the timeout's count of watchdog ticks
/// (rounded down), at least 0 and capped at the counter's largest value; a
/// longer timeout never gets a smaller reload.
pub proof fn law_watchdog_reload(a: u32, b: u32)
    ensures
        spec_timeout_ms_to_reload(a) <= crate::board::IWDG_MAX_RELOAD,
        a <= b ==> spec_timeout_ms_to_reload(a) <= spec_timeout_ms_to_reload(b),
        2 <= a <= 6552 ==> (spec_timeout_ms_to_reload(a) + 1) * 1000 <= a * 625 < (spec_timeout_ms_to_reload(a)
            + 2) * 1000,
        a <= 1 ==> spec_timeout_ms_to_reload(a) == 0,
        a >= 6556 ==> spec_timeout_ms_to_reload(a) == crate::board::IWDG_MAX_RELOAD,
{
    if a <= b {
        assert((a as int * 625) / 1000 <= (b as int * 625) / 1000) by (nonlinear_arith)
            requires
                a as int <= b as int,
                0 <= a,
        ;
    }
    vstd::arithmetic::div_mod::lemma_fundamental_div_mod(a as int * 625, 1000);
}

/// A health report is due exactly when a full report interval has passed
/// since the last one, also across the wrap of the tick counter.
pub proof fn law_report_due(last: u32, d: u32)
    ensures
        spec_report_due(last.wrapping_add(d), last) == (d >= crate::services::HEALTH_REPORT_MS),
{
    let now = last.wrapping_add(d);
    assert(now.wrapping_sub(last) == d) by (bit_vector)
        requires
            now == last.wrapping_add(d),
    ;
}

} // verus!

verus! {

// ---------------------------------------------------------------------------
// Task diagnostics and heartbeats
// ---------------------------------------------------------------------------

/// A task's diagnostics: the stack's size in words, the free low-water mark
/// as the number of bottom words still holding the fill pattern, the used
/// high-water mark as the rest of the stack, and the task's own run time,
/// state and priorities.
pub proof fn law_diagnostics(t: Tcb, now: u32, stack: Seq<u32>)
    requires
        t.stack_start <= t.stack_end,
        stack.len() <= usize::MAX,
    ensures
        ({
            let d = spec_diagnostics(t, now, stack);
            let free = d.stack_free_low_water_words as int;
            &&& d.stack_size_words == (t.stack_end - t.stack_start) / 4
            &&& free <= stack.len()
            &&& forall|k: int| 0 <= k < free ==> #[trigger] stack[k] == crate::scheduler::STACK_SENTINEL
            &&& free < stack.len() ==> stack[free] != crate::scheduler::STACK_SENTINEL
            &&& free <= d.stack_size_words ==> d.stack_used_high_water_words + free == d.stack_size_words
            &&& d.runtime_ticks == t.runtime_ticks
            &&& d.state == t.state
            &&& d.priority == t.priority
            &&& d.base_priority == t.base_priority
            &&& d.heartbeat_age_ticks == now.wrapping_sub(t.heartbeat_last_seen_tick)
        }),
{
    lemma_sentinels(stack);
}

proof fn lemma_sentinels(stack: Seq<u32>)
    ensures
        crate::scheduler::query::leading_sentinels(stack) <= stack.len(),
        forall|k: int| 0 <= k < crate::scheduler::query::leading_sentinels(stack) ==> #[trigger] stack[k]
            == crate::scheduler::STACK_SENTINEL,
        crate::scheduler::query::leading_sentinels(stack) < stack.len() ==> stack[crate::scheduler::query::leading_sentinels(
            stack,
        ) as int] != crate::scheduler::STACK_SENTINEL,
    decreases stack.len(),
{
    if stack.len() > 0 && stack[0] == crate::scheduler::STACK_SENTINEL {
        let rest = stack.drop_first();
        lemma_sentinels(rest);
        assert forall|k: int| 0 <= k < crate::scheduler::query::leading_sentinels(stack) implies #[trigger] stack[k]
            == crate::scheduler::STACK_SENTINEL by {
            if k > 0 {
                assert(stack[k] == rest[k - 1]);
            }
        }
        let n = crate::scheduler::query::leading_sentinels(stack);
        if n < stack.len() {
            assert(stack[n as int] == rest[n - 1]);
        }
    }
}

/// Registering a heartbeat for a live task arms it with the timeout asked
/// for (at least one tick), counted from now.
pub proof fn law_register_heartbeat(m: SchedModel, pid: usize, timeout_ms: u32, now: u32)
    ensures
        ({
            let (m1, ok) = m_register_heartbeat(m, pid, timeout_ms, now);
            &&& ok == task_at(m, pid) is Some
            &&& ok ==> {
                let u = task_at(m1, pid)->0;
                &&& u.heartbeat_registered
                &&& u.heartbeat_timeout_ticks == wait_ticks(timeout_ms)
                &&& u.heartbeat_last_seen_tick == now
                &&& u.runtime_ticks == task_at(m, pid)->0.runtime_ticks
            }
        }),
{
}

} // verus!
