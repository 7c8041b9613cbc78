use vstd::prelude::*;

use crate::bench::{is_sorted, nearest_rank_index, stats_of};
use crate::commands::{CMD_POOL_DEPTH, first_free_slot, pool_matches_queue, rx_take};
use crate::protocol::MAX_LINE_LEN;
use crate::ringbuf::keep_through_last;
use crate::uart::{RX_BUF_SIZE, RxLineModel, rx_on_data, rx_on_error};
use crate::event::{
    EventError, EventModel as EventState, EventWaitStep, m_event_resume, m_event_set, m_event_wait,
};
use crate::memory::{PoolError, count_free, first_free_block, pool_alloc, pool_free, spec_stride};
use crate::mqueue::{queue_recv, queue_send};
use crate::protocol::{AssemblerModel, EventModel, spec_push_byte};
use crate::scheduler::ops::{
    first_boost_from, m_add_boost, m_after_priority_change, m_block, m_heartbeat, m_remove_boost,
    m_unblock, spec_task_priority,
    m_update_priority, spec_current_pid, spec_effective_priority,
};
use crate::scheduler::query::spec_diagnostics;
use crate::scheduler::ready::{lemma_mask_lowest, spec_highest_ready_priority};
use crate::scheduler::switch::{m_context_switch, m_save_outgoing, m_slice};
use crate::scheduler::timeouts::{m_process_list, m_process_slot};
use crate::scheduler::{
    IDLE_PID, SchedModel, Scheduler, TIMEOUT_WHEEL_SIZE, bit, bucket_of, highest_nonempty, slot_coherent,
    m_pop_highest, m_ready_push, m_ready_remove, m_timeout_push, rq_node_ok, rq_ok, set_task,
    strip, task_at,
};
use crate::semaphore::{SemModel, SemaphoreError, m_sem_release, m_sem_resume};
use crate::systick::{spec_ms_to_ticks, spec_ticks_to_ms, spec_time_after_eq};
use crate::tcb::{MAX_PRIORITY, TaskState, Tcb};
use crate::mutex::{
    MutexAcquireStep, MutexError, MutexModel, m_add_boosts, m_mutex_acquire, m_mutex_release, m_mutex_resume,
    m_remove_boosts,
};
use crate::waitqueue::{
    count_some, law_pop_highest_most_urgent, lemma_pop_highest_from_slot, lemma_push_holds, occupants, wq_pop,
    wq_pop_highest, wq_push,
};

verus! {

// ---------------------------------------------------------------------------
// Time
// ---------------------------------------------------------------------------

/// On the wrapping tick counter, a deadline less than half the counter range
/// ahead is reached exactly when that many ticks have passed: `t + d` is at
/// or after `t`, and `t` is not at or after `t + d` unless `d` is 0.
pub proof fn law_deadline_survives_wrap(t: u32, d: u32)
    requires
        d < 0x8000_0000,
    ensures
        spec_time_after_eq(t.wrapping_add(d), t),
        d > 0 ==> !spec_time_after_eq(t, t.wrapping_add(d)),
{
    assert(t.wrapping_add(d).wrapping_sub(t) == d) by (bit_vector);
    if d > 0 {
        assert(t.wrapping_sub(t.wrapping_add(d)) >= 0x8000_0000) by (bit_vector)
            requires
                0 < d < 0x8000_0000,
        ;
    }
}

/// At a 1 kHz tick, converting milliseconds to ticks and back gives the
/// milliseconds again.
pub proof fn law_ms_ticks_roundtrip(ms: u32)
    ensures
        spec_ticks_to_ms(spec_ms_to_ticks(ms)) == ms,
{
}

// ---------------------------------------------------------------------------
// Line assembly
// ---------------------------------------------------------------------------

/// The assembler state after a series of bytes, and the events seen.
pub open spec fn feed(a: AssemblerModel, n: nat, bytes: Seq<u8>) -> (AssemblerModel, Seq<EventModel>)
    decreases bytes.len(),
{
    if bytes.len() == 0 {
        (a, Seq::empty())
    } else {
        let (a1, e) = spec_push_byte(a, n, bytes[0]);
        let (a2, es) = feed(a1, n, bytes.drop_first());
        (a2, seq![e] + es)
    }
}

/// A byte that is neither a line end nor a carriage return.
pub open spec fn plain_byte(b: u8) -> bool {
    b != 10u8 && b != 13u8
}

proof fn lemma_feed_plain(a: AssemblerModel, n: nat, bytes: Seq<u8>)
    requires
        !a.dropping,
        a.len + bytes.len() <= n,
        a.bytes.len() == n,
        forall|i: int| 0 <= i < bytes.len() ==> plain_byte(#[trigger] bytes[i]),
    ensures
        feed(a, n, bytes).0 == (AssemblerModel {
            bytes: feed(a, n, bytes).0.bytes,
            len: a.len + bytes.len(),
            dropping: false,
        }),
        feed(a, n, bytes).0.bytes.len() == n,
        feed(a, n, bytes).0.bytes.take((a.len + bytes.len()) as int) == a.bytes.take(a.len as int) + bytes,
        forall|i: int| 0 <= i < bytes.len() ==> #[trigger] feed(a, n, bytes).1[i] == EventModel::NoEvent,
        feed(a, n, bytes).1.len() == bytes.len(),
    decreases bytes.len(),
{
    if bytes.len() > 0 {
        let (a1, e) = spec_push_byte(a, n, bytes[0]);
        assert(a1.bytes.take(a1.len as int) =~= a.bytes.take(a.len as int) + seq![bytes[0]]);
        let rest = bytes.drop_first();
        assert forall|i: int| 0 <= i < rest.len() implies plain_byte(#[trigger] rest[i]) by {
            assert(rest[i] == bytes[i + 1]);
        }
        lemma_feed_plain(a1, n, rest);
        let r = feed(a1, n, rest);
        assert(r.0.bytes.take((a.len + bytes.len()) as int) =~= a.bytes.take(a.len as int) + bytes) by {
            assert(a.bytes.take(a.len as int) + seq![bytes[0]] + rest =~= a.bytes.take(a.len as int)
                + bytes);
        }
        let es = seq![e] + r.1;
        assert forall|i: int| 0 <= i < bytes.len() implies #[trigger] feed(a, n, bytes).1[i]
            == EventModel::NoEvent by {
            if i > 0 {
                assert(es[i] == r.1[i - 1]);
            }
        }
    }
}

/// A line of at most `n` ordinary bytes followed by a line end comes out
/// of an idle assembler as exactly that line, and leaves it idle again.
pub proof fn law_line_roundtrip(a: AssemblerModel, n: nat, line: Seq<u8>)
    requires
        a.len == 0,
        !a.dropping,
        a.bytes.len() == n,
        0 < line.len() <= n,
        forall|i: int| 0 <= i < line.len() ==> plain_byte(#[trigger] line[i]),
    ensures
        ({
            let (a2, events) = feed(a, n, line.push(10u8));
            &&& events.last() == EventModel::Line(line)
            &&& forall|i: int| 0 <= i < line.len() ==> #[trigger] events[i] == EventModel::NoEvent
            &&& a2.len == 0 && !a2.dropping
        }),
{
    lemma_feed_split(a, n, line, seq![10u8]);
    lemma_feed_plain(a, n, line);
    let mid = feed(a, n, line).0;
    assert(mid.bytes.take(mid.len as int) =~= line);
    let (a2, events) = feed(a, n, line.push(10u8));
    assert(line.push(10u8) =~= line + seq![10u8]);
    let tail = feed(mid, n, seq![10u8]);
    assert(seq![10u8].drop_first() =~= Seq::<u8>::empty());
    reveal_with_fuel(feed, 2);
    assert(tail.1.len() == 1);
    assert(tail.1[0] == EventModel::Line(line));
    assert(events =~= feed(a, n, line).1 + tail.1);
    assert(events.last() == tail.1[0]);
    assert forall|i: int| 0 <= i < line.len() implies #[trigger] events[i] == EventModel::NoEvent by {
        assert(events[i] == feed(a, n, line).1[i]);
    }
}

/// Feeding two byte strings one after the other is feeding their
/// concatenation.
pub proof fn lemma_feed_split(a: AssemblerModel, n: nat, x: Seq<u8>, y: Seq<u8>)
    ensures
        feed(a, n, x + y).0 == feed(feed(a, n, x).0, n, y).0,
        feed(a, n, x + y).1 == feed(a, n, x).1 + feed(feed(a, n, x).0, n, y).1,
    decreases x.len(),
{
    if x.len() == 0 {
        assert(x + y =~= y);
        assert(feed(a, n, x).1 + feed(a, n, y).1 =~= feed(a, n, y).1);
    } else {
        let (a1, e) = spec_push_byte(a, n, x[0]);
        assert((x + y).drop_first() =~= x.drop_first() + y);
        assert((x + y)[0] == x[0]);
        lemma_feed_split(a1, n, x.drop_first(), y);
        let l = feed(a1, n, x.drop_first()).1;
        let r = feed(feed(a1, n, x.drop_first()).0, n, y).1;
        assert(seq![e] + (l + r) =~= (seq![e] + l) + r);
    }
}

/// After an overlong line was dropped, the rest of it up to its line end is
/// ignored, and the assembler is then ready for the next line.
pub proof fn law_recovers_after_overflow(a: AssemblerModel, n: nat, rest: Seq<u8>)
    requires
        a.dropping,
        forall|i: int| 0 <= i < rest.len() ==> plain_byte(#[trigger] rest[i]),
    ensures
        ({
            let (a2, events) = feed(a, n, rest.push(10u8));
            &&& a2.len == 0 && !a2.dropping
            &&& forall|i: int| 0 <= i < events.len() ==> #[trigger] events[i] == EventModel::NoEvent
        }),
    decreases rest.len(),
{
    if rest.len() == 0 {
        assert(rest.push(10u8) =~= seq![10u8]);
        assert(seq![10u8].drop_first() =~= Seq::<u8>::empty());
        reveal_with_fuel(feed, 2);
    } else {
        let r2 = rest.drop_first();
        assert(rest.push(10u8).drop_first() =~= r2.push(10u8));
        assert(rest.push(10u8)[0] == rest[0]);
        assert forall|i: int| 0 <= i < r2.len() implies plain_byte(#[trigger] r2[i]) by {
            assert(r2[i] == rest[i + 1]);
        }
        let (a1, e) = spec_push_byte(a, n, rest[0]);
        assert(a1 == a && e == EventModel::NoEvent);
        law_recovers_after_overflow(a, n, r2);
        let es = feed(a, n, rest.push(10u8)).1;
        let tail = feed(a, n, r2.push(10u8)).1;
        assert(es =~= seq![e] + tail);
        assert forall|i: int| 0 <= i < es.len() implies #[trigger] es[i] == EventModel::NoEvent by {
            if i > 0 {
                assert(es[i] == tail[i - 1]);
            }
        }
    }
}

// ---------------------------------------------------------------------------
// Command queue
// ---------------------------------------------------------------------------

/// A command line queued while the command queue is empty is the line the
/// command task receives next, and afterwards the pool and queue are as
/// before.
pub proof fn law_command_roundtrip(pool: Seq<Option<Seq<u8>>>, queue: Seq<usize>, line: Seq<u8>)
    requires
        pool_matches_queue(pool, queue),
        queue.len() == 0,
    ensures
        first_free_slot(pool, 0) is Some,
        ({
            let i = first_free_slot(pool, 0)->0;
            let pool1 = pool.update(i as int, Some(line));
            let queue1 = queue.push(i);
            &&& pool1[queue1[0] as int] == Some(line)
            &&& pool1.update(queue1[0] as int, None) == pool
            &&& queue1.drop_first() == queue
        }),
{
    assert forall|i: int| 0 <= i < CMD_POOL_DEPTH implies #[trigger] pool[i] is None by {
        assert(!queue.contains(i as usize));
    }
    assert(first_free_slot(pool, 0) == Some(0usize));
    let pool1 = pool.update(0, Some(line));
    assert(pool1.update(0, None) =~= pool);
    assert(queue.push(0usize).drop_first() =~= queue);
}

// ---------------------------------------------------------------------------
// Benchmark statistics
// ---------------------------------------------------------------------------

/// The nearest-rank index grows with the percentile.
pub proof fn law_rank_monotone(len: nat, p: u32, q: u32)
    requires
        len > 0,
        p <= q,
    ensures
        nearest_rank_index(len, p) <= nearest_rank_index(len, q),
        0 <= nearest_rank_index(len, p) < len,
{
    let n = len as u32;
    assert(n * p <= n * q) by (nonlinear_arith)
        requires
            p <= q,
    ;
}

/// Of a sorted series, the median never exceeds the 95th percentile.
pub proof fn law_median_below_p95(sorted: Seq<u32>)
    requires
        sorted.len() > 0,
        is_sorted(sorted),
    ensures
        sorted[nearest_rank_index(sorted.len(), 50)] <= sorted[nearest_rank_index(sorted.len(), 95)],
{
    law_rank_monotone(sorted.len(), 50, 95);
    law_rank_monotone(sorted.len(), 95, 95);
}

/// The statistics of a series bound every sample: the minimum is at most
/// and the maximum at least each one, and the count is the number of
/// samples (saturating).
pub proof fn law_stats_bound_samples(xs: Seq<u32>)
    ensures
        forall|i: int| 0 <= i < xs.len() ==> stats_of(xs).min <= #[trigger] xs[i] <= stats_of(xs).max,
        stats_of(xs).count == if xs.len() > u32::MAX { u32::MAX as int } else { xs.len() as int },
    decreases xs.len(),
{
    if xs.len() > 0 {
        let init = xs.drop_last();
        law_stats_bound_samples(init);
        assert forall|i: int| 0 <= i < xs.len() implies stats_of(xs).min <= #[trigger] xs[i]
            <= stats_of(xs).max by {
            if i < xs.len() - 1 {
                assert(xs[i] == init[i]);
            }
        }
    }
}

} // verus!

verus! {

// ---------------------------------------------------------------------------
// Scheduling
// ---------------------------------------------------------------------------

proof fn lemma_first_nonempty_from(ready: Seq<Seq<usize>>, i: int)
    requires
        0 <= i <= MAX_PRIORITY,
        forall|q: int| 0 <= q < i ==> #[trigger] ready[q].len() == 0,
        exists|p: int| i <= p < MAX_PRIORITY && #[trigger] ready[p].len() > 0,
    ensures
        exists|p: int|
            0 <= p < MAX_PRIORITY && ready[p].len() > 0 && forall|q: int| 0 <= q < p ==> #[trigger] ready[q].len()
                == 0,
    decreases MAX_PRIORITY - i,
{
    if ready[i].len() > 0 {
        assert(0 <= i < MAX_PRIORITY && ready[i].len() > 0 && forall|q: int| 0 <= q < i ==> #[trigger] ready[q].len() == 0);
    } else {
        lemma_first_nonempty_from(ready, i + 1);
    }
}

/// `highest_nonempty` names the most urgent non-empty ready queue, or
/// `None` when every queue is empty.
pub proof fn lemma_highest_nonempty(ready: Seq<Seq<usize>>)
    ensures
        match highest_nonempty(ready) {
            Some(p) => 0 <= p < MAX_PRIORITY && ready[p].len() > 0 && forall|q: int|
                0 <= q < p ==> #[trigger] ready[q].len() == 0,
            None => forall|p: int| 0 <= p < MAX_PRIORITY ==> #[trigger] ready[p].len() == 0,
        },
{
    if exists|p: int| 0 <= p < MAX_PRIORITY && #[trigger] ready[p].len() > 0 {
        lemma_first_nonempty_from(ready, 0);
    }
}

/// The task a scheduling decision takes is the front of the most urgent
/// non-empty ready queue, at that priority; when nothing is ready, nothing
/// is taken.
pub proof fn law_pick_most_urgent(s: Scheduler)
    requires
        s.wf(),
    ensures
        match m_pop_highest(s@).1 {
            Some(pid) => exists|p: int|
                0 <= p < MAX_PRIORITY && s@.ready[p].len() > 0 && pid == s@.ready[p][0] && (forall|q: int|
                    0 <= q < p ==> #[trigger] s@.ready[q].len() == 0) && (task_at(s@, pid) matches Some(t)
                    && t.priority == p),
            None => forall|p: int| 0 <= p < MAX_PRIORITY ==> #[trigger] s@.ready[p].len() == 0,
        },
{
    let m = s@;
    lemma_highest_nonempty(m.ready);
    match highest_nonempty(m.ready) {
        None => {},
        Some(p) => {
            assert(rq_ok(
                s.tasks@,
                s.ready@[p],
                p,
                s.ready_heads@[p],
                s.ready_tails@[p],
                s.ready_counts@[p],
            ));
            assert(rq_node_ok(s.tasks@, s.ready@[p], p, 0));
            let pid = m.ready[p][0];
            assert(m.tasks[pid as int] == strip(s.tasks@[pid as int]));
        },
    }
}

/// Within one priority, ready tasks run first come, first served: with
/// nothing more urgent ready, of two tasks made ready in turn the first is
/// taken first and the second next.
pub proof fn law_ready_fifo(m: SchedModel, a: usize, b: usize, p: int)
    requires
        m.ready.len() == MAX_PRIORITY,
        0 <= p < MAX_PRIORITY,
        a != b,
        task_at(m, a) matches Some(t) && t.priority == p && !t.in_ready_queue,
        task_at(m, b) matches Some(t) && t.priority == p && !t.in_ready_queue,
        forall|q: int| 0 <= q <= p ==> #[trigger] m.ready[q].len() == 0,
    ensures
        ({
            let m1 = m_ready_push(m, a).0;
            let m2 = m_ready_push(m1, b).0;
            let (m3, first) = m_pop_highest(m2);
            let (m4, second) = m_pop_highest(m3);
            first == Some(a) && second == Some(b)
        }),
{
    let m1 = m_ready_push(m, a).0;
    let m2 = m_ready_push(m1, b).0;
    assert(m2.ready[p] =~= seq![a, b]);
    assert forall|q: int| 0 <= q < p implies #[trigger] m2.ready[q].len() == 0 by {
        assert(m2.ready[q] == m.ready[q]);
    }
    lemma_highest_nonempty(m2.ready);
    assert(highest_nonempty(m2.ready) == Some(p));
    assert(seq![a, b].index_of(a) == 0);
    let m3 = m_pop_highest(m2).0;
    assert(m3.ready[p] =~= seq![b]);
    assert forall|q: int| 0 <= q < p implies #[trigger] m3.ready[q].len() == 0 by {
        assert(m3.ready[q] == m.ready[q]);
    }
    lemma_highest_nonempty(m3.ready);
    assert(highest_nonempty(m3.ready) == Some(p));
    assert(seq![b].index_of(b) == 0);
}

// ---------------------------------------------------------------------------
// Priority inheritance
// ---------------------------------------------------------------------------

proof fn lemma_first_boost_at_most(boosts: Seq<u8>, i: int, b: int)
    requires
        0 <= i <= b < MAX_PRIORITY,
        boosts[b] > 0,
    ensures
        first_boost_from(boosts, i) matches Some(k) && i <= k <= b,
    decreases MAX_PRIORITY - i,
{
    if boosts[i] == 0 {
        lemma_first_boost_at_most(boosts, i + 1, b);
    }
}

/// Re-deriving a task's priority keeps everything but its priority and
/// queue membership, and leaves the priority at its effective value.
proof fn lemma_update_priority_task(m: SchedModel, pid: usize)
    requires
        pid < m.tasks.len(),
        task_at(m, pid) is Some,
    ensures
        ({
            let t = task_at(m, pid)->0;
            let t2 = task_at(m_update_priority(m, pid).0, pid);
            &&& t2 is Some
            &&& t2->0.priority == spec_effective_priority(t)
            &&& t2->0.priority_boosts == t.priority_boosts
            &&& t2->0.base_priority == t.base_priority
            &&& m_update_priority(m, pid).0.tasks.len() == m.tasks.len()
        }),
{
}

/// Lending a task a priority boost makes it run at least that urgently,
/// and taking the same boost back returns it to the priority its base and
/// its other boosts give (what a mutex does for the task holding it while
/// a more urgent task waits).
pub proof fn law_priority_inheritance(s: Scheduler, pid: usize, boost: u8, now: u32)
    requires
        s.wf(),
        pid != IDLE_PID,
        (boost as int) < MAX_PRIORITY,
        task_at(s@, pid) is Some,
        task_at(s@, pid)->0.priority_boosts@[boost as int] < u8::MAX,
    ensures
        ({
            let t = task_at(s@, pid)->0;
            let (m1, lent) = m_add_boost(s@, pid, boost, now);
            let (m2, returned) = m_remove_boost(m1, pid, boost, now);
            &&& lent && returned
            &&& task_at(m1, pid)->0.priority <= boost
            &&& task_at(m2, pid)->0.priority_boosts@ == t.priority_boosts@
            &&& task_at(m2, pid)->0.priority == spec_effective_priority(t)
        }),
{
    let m = s@;
    let t = task_at(m, pid)->0;
    let b = boost as int;
    let c = t.priority_boosts@[b];
    let t1 = Tcb {
        priority_boosts: vstd::array::spec_array_update(t.priority_boosts, b, (c + 1) as u8),
        ..t
    };
    assert(t1.priority_boosts@ == t.priority_boosts@.update(b, (c + 1) as u8));
    let ma = set_task(m, pid, t1);
    lemma_update_priority_task(ma, pid);
    let (mu, need) = m_update_priority(ma, pid);
    let m1 = m_add_boost(m, pid, boost, now).0;
    assert(m1 == m_after_priority_change(mu, need, pid, boost as usize, now));
    assert(m1.tasks == mu.tasks);
    assert(m_add_boost(m, pid, boost, now).1);
    lemma_first_boost_at_most(t1.priority_boosts@, 0, b);
    let u = task_at(m1, pid)->0;
    assert(u.priority == spec_effective_priority(t1));
    assert(u.priority <= boost);
    assert(u.priority_boosts@[b] == c + 1);
    let t2 = Tcb {
        priority_boosts: vstd::array::spec_array_update(u.priority_boosts, b, c),
        ..u
    };
    assert(t2.priority_boosts@ =~= t.priority_boosts@);
    let mb = set_task(m1, pid, t2);
    lemma_update_priority_task(mb, pid);
    let (mv, need2) = m_update_priority(mb, pid);
    let m2 = m_remove_boost(m1, pid, boost, now).0;
    assert(m2 == m_after_priority_change(mv, need2, pid, boost as usize, now));
    assert(m2.tasks == mv.tasks);
    assert(m_remove_boost(m1, pid, boost, now).1);
    assert(spec_effective_priority(t2) == spec_effective_priority(t));
}

} // verus!

verus! {

// ---------------------------------------------------------------------------
// Timeout wheel
// ---------------------------------------------------------------------------

proof fn lemma_bucket_distinct(now: u32, k: u32, d: u32)
    requires
        0 < k < d <= TIMEOUT_WHEEL_SIZE,
    ensures
        bucket_of(now.wrapping_add(k)) != bucket_of(now.wrapping_add(d)),
{
    assert(now.wrapping_add(k) % 256 != now.wrapping_add(d) % 256) by (bit_vector)
        requires
            0 < k < d,
            d <= 256,
    ;
}

/// A sleeping task put on an empty timeout wheel `d` ticks ahead (at most
/// one turn of the wheel, and across the wrap of the tick counter too) is
/// left alone by the ticks before its deadline and made ready, off the
/// wheel, by the tick of its deadline.
pub proof fn law_wakes_at_deadline(m: SchedModel, pid: usize, now: u32, d: u32, later: u32)
    requires
        m.wheel.len() == TIMEOUT_WHEEL_SIZE,
        m.ready.len() == MAX_PRIORITY,
        forall|b: int| 0 <= b < TIMEOUT_WHEEL_SIZE ==> #[trigger] m.wheel[b].len() == 0,
        0 < d <= TIMEOUT_WHEEL_SIZE,
        pid != IDLE_PID,
        task_at(m, pid) matches Some(t) && t.state == TaskState::Sleeping && !t.in_timeout_queue
            && !t.in_ready_queue && (t.priority as int) < MAX_PRIORITY && t.wake_tick == now.wrapping_add(d),
    ensures
        ({
            let (m1, queued) = m_timeout_push(m, pid, now);
            &&& queued
            &&& forall|k: u32| 0 < k < d ==> #[trigger] m_process_slot(m1, now.wrapping_add(k), later) == (
                m1,
                false,
            )
            &&& ({
                let (m2, woke) = m_process_slot(m1, now.wrapping_add(d), later);
                &&& woke
                &&& task_at(m2, pid) matches Some(t2) && t2.state == TaskState::Ready && t2.in_ready_queue
                    && !t2.in_timeout_queue && t2.wake_tick == 0
            })
        }),
{
    let t = task_at(m, pid)->0;
    let w = now.wrapping_add(d);
    assert(w.wrapping_sub(now) == d) by (bit_vector)
        requires
            w == now.wrapping_add(d),
    ;
    let b = bucket_of(w);
    assert(0 <= b < TIMEOUT_WHEEL_SIZE);
    let m1 = m_timeout_push(m, pid, now).0;
    assert(m1.wheel[b] =~= seq![pid]);
    assert forall|k: u32| 0 < k < d implies #[trigger] m_process_slot(m1, now.wrapping_add(k), later) == (
        m1,
        false,
    ) by {
        lemma_bucket_distinct(now, k, d);
        let bk = bucket_of(now.wrapping_add(k));
        assert(0 <= bk < TIMEOUT_WHEEL_SIZE);
        assert(m1.wheel[bk] == m.wheel[bk]);
        assert(m1.wheel[bk].len() == 0);
    }
    let t1 = task_at(m1, pid)->0;
    assert(t1.timeout_rounds == 0);
    assert(spec_time_after_eq(w, t1.wake_tick)) by {
        assert(w.wrapping_sub(w) == 0) by (bit_vector);
    }
    assert(seq![pid].index_of(pid) == 0);
    reveal_with_fuel(m_process_list, 2);
    assert(seq![pid].drop_first() =~= Seq::<usize>::empty());
}

} // verus!

verus! {

/// Right after a context switch, no ready task is more urgent than the task
/// that now runs (unless the idle task had to take over).
pub proof fn law_switch_runs_most_urgent(s: Scheduler, save_sp: usize, now: u32)
    requires
        s.wf(),
    ensures
        ({
            let m2 = m_context_switch(s@, save_sp, now).0;
            m2.current != IDLE_PID ==> (task_at(m2, m2.current) matches Some(t) && forall|q: int|
                0 <= q < t.priority ==> #[trigger] m2.ready[q].len() == 0)
        }),
{
    let m = s@;
    let from = m.current;
    let (m1, requeue) = m_save_outgoing(m, save_sp);
    let ma = if requeue {
        m_ready_push(m1, from).0
    } else {
        m1
    };
    lemma_highest_nonempty(ma.ready);
    assert(m1.ready == m.ready);
    assert(ma.ready.len() == MAX_PRIORITY);
    match highest_nonempty(ma.ready) {
        None => {},
        Some(p) => {
            let pid = ma.ready[p][0];
            assert(rq_ok(
                s.tasks@,
                s.ready@[p],
                p,
                s.ready_heads@[p],
                s.ready_tails@[p],
                s.ready_counts@[p],
            ));
            if m.ready[p].len() > 0 {
                assert(rq_node_ok(s.tasks@, s.ready@[p], p, 0));
                assert(m.tasks[m.ready[p][0] as int] == strip(s.tasks@[m.ready[p][0] as int]));
                assert(ma.ready[p][0] == m.ready[p][0]);
            }
            assert(task_at(ma, pid) matches Some(t) && t.priority == p && t.in_ready_queue);
        },
    }
}

} // verus!

verus! {

/// The ready bitmap names the same most urgent priority as the ready
/// queues themselves (the bitmap is what the scheduler consults).
pub proof fn law_mask_matches_queues(s: Scheduler)
    requires
        s.wf(),
    ensures
        spec_highest_ready_priority(s.ready_mask) == match highest_nonempty(s@.ready) {
            Some(p) => Some(p as u8),
            None => None::<u8>,
        },
{
    lemma_mask_lowest(s.ready_mask);
    lemma_highest_nonempty(s@.ready);
    if s.ready_mask == 0 {
        assert forall|p: int| 0 <= p < MAX_PRIORITY implies #[trigger] s@.ready[p].len() == 0 by {
            assert(!bit(s.ready_mask, p as u32));
        }
    } else {
        let tz = s.ready_mask.trailing_zeros();
        assert(s@.ready[tz as int].len() > 0);
        assert forall|q: int| 0 <= q < tz implies #[trigger] s@.ready[q].len() == 0 by {
            assert(!bit(s.ready_mask, q as u32));
        }
        match highest_nonempty(s@.ready) {
            Some(p) => {
                if p < tz {
                    assert(s@.ready[p].len() == 0);
                } else if p > tz {
                    assert(s@.ready[tz as int].len() == 0);
                }
            },
            None => {
                assert(s@.ready[tz as int].len() == 0);
            },
        }
    }
}

} // verus!

verus! {

// ---------------------------------------------------------------------------
// Events
// ---------------------------------------------------------------------------

/// A task that blocked waiting on an event is released by the next `set`,
/// even when the event is cleared again before the task gets to run: its
/// wait completes successfully, with or without a timeout.
pub proof fn law_set_releases_blocked_waiter(
    e: EventState,
    m: SchedModel,
    timeout_ms: Option<u32>,
    now: u32,
    set_at: u32,
)
    requires
        m_event_wait(e, m, timeout_ms, now).2 matches EventWaitStep::Blocked(_, _),
    ensures
        ({
            let (e1, m1, step) = m_event_wait(e, m, timeout_ms, now);
            let (pid, epoch) = match step {
                EventWaitStep::Blocked(p, ep) => (p, ep),
                _ => (0usize, 0u32),
            };
            let e2 = m_event_set(e1, m1, set_at).0;
            let e3 = EventState { signaled: false, ..e2 };
            &&& m_event_resume(e2, pid, epoch, timeout_ms).1 == Some(Ok::<(), EventError>(()))
            &&& m_event_resume(e3, pid, epoch, timeout_ms).1 == Some(Ok::<(), EventError>(()))
        }),
{
    let epoch = e.signal_seq;
    assert(epoch.wrapping_add(1) != epoch) by (bit_vector);
}

} // verus!

verus! {

// ---------------------------------------------------------------------------
// Semaphores
// ---------------------------------------------------------------------------

/// A release while tasks wait hands the token straight to the first
/// waiter: the count does not move (so no other task can take the token in
/// between), and that waiter's pending acquire then succeeds.
pub proof fn law_release_hands_token_to_waiter(s: SemModel, m: SchedModel, now: u32, timeout_ms: Option<u32>)
    requires
        wq_pop(s.waiters).1 is Some,
        wq_push(s.granted, wq_pop(s.waiters).1->0).1,
    ensures
        ({
            let pid = wq_pop(s.waiters).1->0;
            let (s1, m1, released) = m_sem_release(s, m, now);
            &&& released
            &&& s1.count == s.count
            &&& m_sem_resume(s1, pid, timeout_ms).1 == Some(Ok::<(), SemaphoreError>(()))
        }),
{
    let pid = wq_pop(s.waiters).1->0;
    lemma_push_holds(s.granted, pid);
}

} // verus!

verus! {

// ---------------------------------------------------------------------------
// The idle task
// ---------------------------------------------------------------------------

/// The idle task takes no part in time slicing: a tick that finds it running
/// leaves it as it is and never queues it, and asks for a switch exactly
/// when a switch was already due or some task is ready.
pub proof fn law_idle_not_sliced(m: SchedModel, pend: bool)
    requires
        m.current == IDLE_PID,
        task_at(m, IDLE_PID) matches Some(t) && t.state == TaskState::Running,
    ensures
        m_slice(m, pend) == (m, false, pend || highest_nonempty(m.ready) is Some),
{
}

proof fn lemma_remove_keeps_out(r: Seq<usize>, i: int, x: usize)
    requires
        0 <= i < r.len(),
        !r.contains(x),
    ensures
        !r.remove(i).contains(x),
{
    if r.remove(i).contains(x) {
        let j = choose|j: int| 0 <= j < r.remove(i).len() && r.remove(i)[j] == x;
        if j < i {
            assert(r[j] == x);
        } else {
            assert(r[j + 1] == x);
        }
    }
}

proof fn lemma_push_keeps_out(r: Seq<usize>, y: usize, x: usize)
    requires
        !r.contains(x),
        y != x,
    ensures
        !r.push(y).contains(x),
{
    if r.push(y).contains(x) {
        let j = choose|j: int| 0 <= j < r.push(y).len() && r.push(y)[j] == x;
        if j < r.len() {
            assert(r[j] == x);
        }
    }
}

/// Every task in a ready queue is live and has that queue's priority.
pub open spec fn queues_consistent(m: SchedModel) -> bool {
    forall|q: int, j: int|
        0 <= q < MAX_PRIORITY && 0 <= j < m.ready[q].len() ==> (task_at(m, #[trigger] m.ready[q][j]) matches Some(
            t,
        ) && t.priority == q)
}

/// No ready queue holds the idle task.
pub open spec fn idle_unqueued(ready: Seq<Seq<usize>>) -> bool {
    forall|p: int| 0 <= p < MAX_PRIORITY ==> !(#[trigger] ready[p]).contains(IDLE_PID)
}

proof fn lemma_queues_hold_no_idle(s: Scheduler)
    requires
        s.wf(),
        task_at(s@, IDLE_PID) matches Some(t) && !t.in_ready_queue,
    ensures
        idle_unqueued(s@.ready),
        queues_consistent(s@),
{
    let m = s@;
    assert forall|q: int, j: int| 0 <= q < MAX_PRIORITY && 0 <= j < m.ready[q].len() implies (task_at(
        m,
        #[trigger] m.ready[q][j],
    ) matches Some(t) && t.priority == q) by {
        assert(rq_ok(
            s.tasks@,
            s.ready@[q],
            q,
            s.ready_heads@[q],
            s.ready_tails@[q],
            s.ready_counts@[q],
        ));
        assert(rq_node_ok(s.tasks@, s.ready@[q], q, j));
        assert(m.tasks[m.ready[q][j] as int] == strip(s.tasks@[m.ready[q][j] as int]));
    }
    assert forall|p: int| 0 <= p < MAX_PRIORITY implies !(#[trigger] m.ready[p]).contains(IDLE_PID) by {
        assert(rq_ok(
            s.tasks@,
            s.ready@[p],
            p,
            s.ready_heads@[p],
            s.ready_tails@[p],
            s.ready_counts@[p],
        ));
        if m.ready[p].contains(IDLE_PID) {
            let j = choose|j: int| 0 <= j < m.ready[p].len() && m.ready[p][j] == IDLE_PID;
            assert(rq_node_ok(s.tasks@, s.ready@[p], p, j));
            assert(m.tasks[IDLE_PID as int] == strip(s.tasks@[IDLE_PID as int]));
        }
    }
}

proof fn lemma_requeue_keeps_idle_out(m: SchedModel, save_sp: usize)
    requires
        m.ready.len() == MAX_PRIORITY,
        idle_unqueued(m.ready),
        queues_consistent(m),
        task_at(m, IDLE_PID) matches Some(t) && !t.in_ready_queue,
    ensures
        ({
            let (m1, requeue) = m_save_outgoing(m, save_sp);
            let ma = if requeue { m_ready_push(m1, m.current).0 } else { m1 };
            &&& idle_unqueued(ma.ready)
            &&& queues_consistent(ma)
            &&& ma.ready.len() == MAX_PRIORITY
            &&& task_at(ma, IDLE_PID) matches Some(t) && !t.in_ready_queue
        }),
{
    let from = m.current;
    let (m1, requeue) = m_save_outgoing(m, save_sp);
    assert(m1.ready == m.ready);
    assert forall|q: int, j: int| 0 <= q < MAX_PRIORITY && 0 <= j < m1.ready[q].len() implies (task_at(
        m1,
        #[trigger] m1.ready[q][j],
    ) matches Some(t) && t.priority == q) by {
        assert(task_at(m, m.ready[q][j]) matches Some(t) && t.priority == q);
    }
    if requeue {
        let ma = m_ready_push(m1, from).0;
        assert forall|q: int, j: int| 0 <= q < MAX_PRIORITY && 0 <= j < ma.ready[q].len() implies (task_at(
            ma,
            #[trigger] ma.ready[q][j],
        ) matches Some(t) && t.priority == q) by {
            if ma.ready[q] != m1.ready[q] && j == m1.ready[q].len() {
                assert(ma.ready[q][j] == from);
            } else {
                assert(ma.ready[q][j] == m1.ready[q][j]);
                assert(task_at(m1, m1.ready[q][j]) matches Some(t) && t.priority == q);
            }
        }
    }
    if requeue {
        let ma = m_ready_push(m1, from).0;
        assert forall|p: int| 0 <= p < MAX_PRIORITY implies !(#[trigger] ma.ready[p]).contains(IDLE_PID) by {
            if ma.ready[p] != m.ready[p] {
                lemma_push_keeps_out(m.ready[p], from, IDLE_PID);
            }
        }
    }
}

proof fn lemma_pop_keeps_idle_out(m: SchedModel)
    requires
        m.ready.len() == MAX_PRIORITY,
        idle_unqueued(m.ready),
        queues_consistent(m),
        task_at(m, IDLE_PID) matches Some(t) && !t.in_ready_queue,
    ensures
        ({
            let (m3, popped) = m_pop_highest(m);
            &&& idle_unqueued(m3.ready)
            &&& task_at(m3, IDLE_PID) matches Some(t) && !t.in_ready_queue
            &&& popped != Some(IDLE_PID)
        }),
{
    match highest_nonempty(m.ready) {
        None => {},
        Some(p) => {
            lemma_highest_nonempty(m.ready);
            let pid = m.ready[p][0];
            assert(pid != IDLE_PID);
            assert(task_at(m, pid) matches Some(t) && t.priority == p);
            assert(m.ready[p].contains(pid));
            let mb = m_ready_remove(m, pid).0;
            if m_ready_remove(m, pid).1 {
                let r = m.ready[p];
                let tp = task_at(m, pid)->0;
                assert forall|q: int| 0 <= q < MAX_PRIORITY implies !(#[trigger] mb.ready[q]).contains(IDLE_PID) by {
                    if q == tp.priority {
                        lemma_remove_keeps_out(m.ready[q], m.ready[q].index_of(pid), IDLE_PID);
                    }
                }
            }
        },
    }
}

/// A context switch never puts the idle task into a ready queue: if it was
/// in none before, it is in none after.
pub proof fn law_switch_keeps_idle_unqueued(s: Scheduler, save_sp: usize, now: u32)
    requires
        s.wf(),
        task_at(s@, IDLE_PID) matches Some(t) && !t.in_ready_queue,
    ensures
        ({
            let m2 = m_context_switch(s@, save_sp, now).0;
            &&& task_at(m2, IDLE_PID) matches Some(t) && !t.in_ready_queue
            &&& idle_unqueued(m2.ready)
        }),
{
    let m = s@;
    lemma_queues_hold_no_idle(s);
    lemma_requeue_keeps_idle_out(m, save_sp);
    let (m1, requeue) = m_save_outgoing(m, save_sp);
    let ma = if requeue { m_ready_push(m1, m.current).0 } else { m1 };
    lemma_pop_keeps_idle_out(ma);
}

} // verus!

verus! {

// ---------------------------------------------------------------------------
// Health monitoring
// ---------------------------------------------------------------------------

/// A task that has just reported its heartbeat counts as stale exactly once
/// more than its heartbeat timeout has passed since (on the wrapping tick
/// counter); before that the health report does not count it.
pub proof fn law_heartbeat_fresh_until_timeout(m: SchedModel, now: u32, later: u32, stack: Seq<u32>)
    requires
        m_heartbeat(m, now).1,
    ensures
        ({
            let pid = spec_current_pid(m)->0;
            let t = task_at(m_heartbeat(m, now).0, pid)->0;
            &&& t.heartbeat_registered
            &&& spec_diagnostics(t, later, stack).heartbeat_stale == (later.wrapping_sub(now)
                > t.heartbeat_timeout_ticks)
        }),
{
}

} // verus!

verus! {

// ---------------------------------------------------------------------------
// Events over sequences of calls
// ---------------------------------------------------------------------------

/// A call on an event, as a law about call sequences speaks of it.
pub enum EventCall {
    SetEvent,
    ClearEvent,
    Wait(Option<u32>),
    Resume(usize, u32, Option<u32>),
}

/// The event after a sequence of calls (the scheduler is carried along).
pub open spec fn run_event_calls(e: EventState, m: SchedModel, calls: Seq<EventCall>, now: u32) -> EventState
    decreases calls.len(),
{
    if calls.len() == 0 {
        e
    } else {
        let (e1, m1) = match calls[0] {
            EventCall::SetEvent => (m_event_set(e, m, now).0, m_event_set(e, m, now).1),
            EventCall::ClearEvent => (EventState { signaled: false, ..e }, m),
            EventCall::Wait(t) => (m_event_wait(e, m, t, now).0, m_event_wait(e, m, t, now).1),
            EventCall::Resume(pid, epoch, t) => (m_event_resume(e, pid, epoch, t).0, m),
        };
        run_event_calls(e1, m1, calls.drop_first(), now)
    }
}

/// Manual reset: once set, an event stays set through any calls but
/// `clear` (waits that return do not consume the signal), so `try_wait`
/// keeps answering true; right after a `clear` it answers false.
pub proof fn law_event_manual_reset(e: EventState, m: SchedModel, calls: Seq<EventCall>, now: u32)
    ensures
        (forall|i: int| 0 <= i < calls.len() ==> !(#[trigger] calls[i] is ClearEvent)) ==> run_event_calls(
            e,
            m,
            seq![EventCall::SetEvent] + calls,
            now,
        ).signaled,
        !run_event_calls(e, m, calls.push(EventCall::ClearEvent), now).signaled,
    decreases calls.len(),
{
    lemma_event_no_clear(m_event_set(e, m, now).0, m_event_set(e, m, now).1, calls, now);
    assert((seq![EventCall::SetEvent] + calls).drop_first() =~= calls);
    lemma_event_last_clear(e, m, calls, now);
}

proof fn lemma_event_no_clear(e: EventState, m: SchedModel, calls: Seq<EventCall>, now: u32)
    requires
        e.signaled,
    ensures
        (forall|i: int| 0 <= i < calls.len() ==> !(#[trigger] calls[i] is ClearEvent)) ==> run_event_calls(
            e,
            m,
            calls,
            now,
        ).signaled,
    decreases calls.len(),
{
    if calls.len() > 0 && (forall|i: int| 0 <= i < calls.len() ==> !(#[trigger] calls[i] is ClearEvent)) {
        let rest = calls.drop_first();
        assert(!(calls[0] is ClearEvent));
        let (e1, m1) = match calls[0] {
            EventCall::SetEvent => (m_event_set(e, m, now).0, m_event_set(e, m, now).1),
            EventCall::ClearEvent => (EventState { signaled: false, ..e }, m),
            EventCall::Wait(t) => (m_event_wait(e, m, t, now).0, m_event_wait(e, m, t, now).1),
            EventCall::Resume(pid, epoch, t) => (m_event_resume(e, pid, epoch, t).0, m),
        };
        assert(e1.signaled);
        assert forall|i: int| 0 <= i < rest.len() implies !(#[trigger] rest[i] is ClearEvent) by {
            assert(rest[i] == calls[i + 1]);
        }
        lemma_event_no_clear(e1, m1, rest, now);
    }
}

proof fn lemma_event_last_clear(e: EventState, m: SchedModel, calls: Seq<EventCall>, now: u32)
    ensures
        !run_event_calls(e, m, calls.push(EventCall::ClearEvent), now).signaled,
    decreases calls.len(),
{
    if calls.len() == 0 {
        assert(calls.push(EventCall::ClearEvent).drop_first() =~= Seq::<EventCall>::empty());
        assert(calls.push(EventCall::ClearEvent)[0] == EventCall::ClearEvent);
        reveal_with_fuel(run_event_calls, 2);
    } else {
        let (e1, m1) = match calls[0] {
            EventCall::SetEvent => (m_event_set(e, m, now).0, m_event_set(e, m, now).1),
            EventCall::ClearEvent => (EventState { signaled: false, ..e }, m),
            EventCall::Wait(t) => (m_event_wait(e, m, t, now).0, m_event_wait(e, m, t, now).1),
            EventCall::Resume(pid, epoch, t) => (m_event_resume(e, pid, epoch, t).0, m),
        };
        assert(calls.push(EventCall::ClearEvent).drop_first() =~= calls.drop_first().push(EventCall::ClearEvent));
        assert(calls.push(EventCall::ClearEvent)[0] == calls[0]);
        lemma_event_last_clear(e1, m1, calls.drop_first(), now);
    }
}

// ---------------------------------------------------------------------------
// Message queues
// ---------------------------------------------------------------------------

/// The queue after sending each message of `msgs` in turn.
pub open spec fn queue_send_all(q: Seq<usize>, cap: nat, msgs: Seq<usize>) -> Seq<usize>
    decreases msgs.len(),
{
    if msgs.len() == 0 {
        q
    } else {
        queue_send_all(queue_send(q, cap, msgs[0]), cap, msgs.drop_first())
    }
}

/// The messages `k` calls of `recv` return (`None` for an empty queue), and
/// the queue afterwards.
pub open spec fn queue_recv_n(q: Seq<usize>, k: nat) -> (Seq<Option<usize>>, Seq<usize>)
    decreases k,
{
    if k == 0 {
        (Seq::empty(), q)
    } else {
        let (r, q1) = queue_recv(q);
        let (rs, q2) = queue_recv_n(q1, (k - 1) as nat);
        (seq![r] + rs, q2)
    }
}

/// A queue is first in, first out: messages sent to an empty queue, no more
/// than it holds, come out of the following receives in the order they were
/// sent; one receive more finds it empty and changes nothing.
pub proof fn law_queue_fifo(cap: nat, msgs: Seq<usize>)
    requires
        msgs.len() <= cap,
    ensures
        queue_send_all(Seq::empty(), cap, msgs) == msgs,
        queue_recv_n(msgs, msgs.len() + 1).0 == msgs.map_values(|x: usize| Some(x)).push(None),
        queue_recv_n(msgs, msgs.len() + 1).1 == Seq::<usize>::empty(),
{
    lemma_send_all(Seq::empty(), cap, msgs);
    assert(Seq::<usize>::empty() + msgs =~= msgs);
    lemma_recv_all(msgs);
}

proof fn lemma_send_all(q: Seq<usize>, cap: nat, msgs: Seq<usize>)
    requires
        q.len() + msgs.len() <= cap,
    ensures
        queue_send_all(q, cap, msgs) == q + msgs,
    decreases msgs.len(),
{
    if msgs.len() > 0 {
        lemma_send_all(q.push(msgs[0]), cap, msgs.drop_first());
        assert(q.push(msgs[0]) + msgs.drop_first() =~= q + msgs);
    } else {
        assert(q + msgs =~= q);
    }
}

proof fn lemma_recv_all(msgs: Seq<usize>)
    ensures
        queue_recv_n(msgs, msgs.len() + 1).0 == msgs.map_values(|x: usize| Some(x)).push(None),
        queue_recv_n(msgs, msgs.len() + 1).1 == Seq::<usize>::empty(),
    decreases msgs.len(),
{
    if msgs.len() == 0 {
        reveal_with_fuel(queue_recv_n, 2);
        assert(msgs.map_values(|x: usize| Some(x)).push(None) =~= seq![None::<usize>] + Seq::<Option<usize>>::empty());
    } else {
        let rest = msgs.drop_first();
        lemma_recv_all(rest);
        assert(msgs.map_values(|x: usize| Some(x)).push(None) =~= seq![Some(msgs[0])]
            + rest.map_values(|x: usize| Some(x)).push(None));
    }
}

} // verus!

verus! {

// ---------------------------------------------------------------------------
// Block pool
// ---------------------------------------------------------------------------

proof fn lemma_count_free_ext(a: Seq<bool>, b: Seq<bool>, n: int)
    requires
        forall|j: int| 0 <= j < n ==> a[j] == b[j],
    ensures
        count_free(a, n) == count_free(b, n),
    decreases n,
{
    if n > 0 {
        lemma_count_free_ext(a, b, n - 1);
    }
}

proof fn lemma_count_free_update(free: Seq<bool>, n: int, i: int, v: bool)
    requires
        0 <= i < n <= free.len(),
    ensures
        count_free(free.update(i, v), n) + (if free[i] { 1int } else { 0int }) == count_free(free, n) + (
        if v { 1int } else { 0int }),
    decreases n,
{
    if n - 1 > i {
        lemma_count_free_update(free, n - 1, i, v);
    } else {
        lemma_count_free_ext(free.update(i, v), free, n - 1);
    }
}

/// Allocation and release round trip: the block the pool hands out (the
/// lowest free one) is given back by freeing its address, which the pool
/// accepts as the start of a block inside it; the pool is then as before,
/// with one block more available than while the block was out.
pub proof fn law_pool_roundtrip(free: Seq<bool>, base: int, block_size: usize)
    requires
        first_free_block(free, 0) is Some,
        free.len() <= usize::MAX,
        block_size > 0,
        base > 0,
    ensures
        ({
            let i = first_free_block(free, 0)->0 as int;
            let stride = spec_stride(block_size);
            let ptr = base + stride * i;
            let held = free.update(i, false);
            &&& ptr != 0 && base <= ptr < base + stride * free.len() && (ptr - base) % stride == 0
            &&& held.update((ptr - base) / stride, true) == free
            &&& count_free(held, free.len() as int) + 1 == count_free(free, free.len() as int)
        }),
{
    let i = first_free_block(free, 0)->0 as int;
    lemma_first_free(free, 0);
    let stride = spec_stride(block_size);
    assert(stride > 0);
    let len = free.len() as int;
    assert(stride * i < stride * len) by (nonlinear_arith)
        requires
            stride > 0,
            0 <= i < len,
    ;
    assert(stride * i >= 0) by (nonlinear_arith)
        requires
            stride > 0,
            0 <= i,
    ;
    vstd::arithmetic::div_mod::lemma_fundamental_div_mod_converse(stride * i, stride, i, 0);
    let held = free.update(i, false);
    assert(held.update(i, true) =~= free);
    lemma_count_free_update(free, len, i, false);
}

/// The lowest free block is free and lies inside the pool.
proof fn lemma_first_free(free: Seq<bool>, i: int)
    requires
        0 <= i,
        free.len() <= usize::MAX,
        first_free_block(free, i) is Some,
    ensures
        i <= first_free_block(free, i)->0 < free.len(),
        free[first_free_block(free, i)->0 as int],
    decreases free.len() - i,
{
    if i < free.len() && !free[i] {
        lemma_first_free(free, i + 1);
    }
}

} // verus!

verus! {

// ---------------------------------------------------------------------------
// Line assembly, any history
// ---------------------------------------------------------------------------

/// `s` with its carriage returns taken out.
pub open spec fn without_cr(s: Seq<u8>) -> Seq<u8>
    decreases s.len(),
{
    if s.len() == 0 {
        s
    } else if s.last() == 13u8 {
        without_cr(s.drop_last())
    } else {
        without_cr(s.drop_last()).push(s.last())
    }
}

/// An assembler that is between lines.
pub open spec fn assembler_idle(a: AssemblerModel, n: nat) -> bool {
    a.len == 0 && !a.dropping && a.bytes.len() == n
}

/// What an idle assembler holds after the bytes `s` of an unfinished line:
/// the line so far without carriage returns while it fits, or the mark that
/// the line is being dropped once it does not.
proof fn lemma_partial_line(a: AssemblerModel, n: nat, s: Seq<u8>)
    requires
        assembler_idle(a, n),
        !s.contains(10u8),
    ensures
        ({
            let st = feed(a, n, s).0;
            let c = without_cr(s);
            &&& st.bytes.len() == n
            &&& c.len() <= n ==> !st.dropping && st.len == c.len() && st.bytes.take(st.len as int) == c
            &&& c.len() > n ==> st.dropping
        }),
    decreases s.len(),
{
    if s.len() == 0 {
        assert(a.bytes.take(0) =~= Seq::<u8>::empty());
    } else {
        let p = s.drop_last();
        let b = s.last();
        assert(!p.contains(10u8)) by {
            if p.contains(10u8) {
                let k = choose|k: int| 0 <= k < p.len() && p[k] == 10u8;
                assert(s[k] == 10u8);
            }
        }
        assert(b != 10u8) by {
            assert(s[s.len() - 1] == b);
        }
        lemma_partial_line(a, n, p);
        assert(p + seq![b] =~= s);
        lemma_feed_split(a, n, p, seq![b]);
        let st = feed(a, n, p).0;
        assert(seq![b].drop_first() =~= Seq::<u8>::empty());
        assert(seq![b][0] == b);
        reveal_with_fuel(feed, 2);
        assert(feed(st, n, seq![b]).0 == spec_push_byte(st, n, b).0);
        let c = without_cr(p);
        if b != 13u8 && c.len() < n {
            let st2 = spec_push_byte(st, n, b).0;
            assert(st2.bytes.take(st2.len as int) =~= c.push(b));
        }
    }
}

/// Line assembly over any history: after the bytes `s` of an unfinished
/// line (`s` holds no line end), with `c` the line without its carriage
/// returns, a line end yields `c` as a line when it is 1 to `n` bytes long
/// and nothing otherwise, and leaves the assembler between lines; any other
/// byte but a carriage return is reported dropped exactly when `c` already
/// fills the buffer; and a carriage return yields nothing and changes
/// nothing.
pub proof fn law_line_history(a: AssemblerModel, n: nat, s: Seq<u8>, b: u8)
    requires
        assembler_idle(a, n),
        !s.contains(10u8),
    ensures
        ({
            let c = without_cr(s);
            let (st, _) = feed(a, n, s);
            let (st2, events) = feed(a, n, s.push(b));
            &&& events.len() == s.len() + 1
            &&& b == 10u8 ==> {
                &&& events.last() == if 1 <= c.len() <= n {
                    EventModel::Line(c)
                } else {
                    EventModel::NoEvent
                }
                &&& assembler_idle(st2, n)
            }
            &&& b == 13u8 ==> events.last() == EventModel::NoEvent && st2 == st
            &&& plain_byte(b) ==> (events.last() == EventModel::Dropped) == (c.len() == n) && (
            events.last() == EventModel::Dropped || events.last() == EventModel::NoEvent)
        }),
{
    lemma_partial_line(a, n, s);
    assert(s + seq![b] =~= s.push(b));
    lemma_feed_split(a, n, s, seq![b]);
    lemma_feed_len(a, n, s);
    let st = feed(a, n, s).0;
    assert(seq![b].drop_first() =~= Seq::<u8>::empty());
    assert(seq![b][0] == b);
    reveal_with_fuel(feed, 2);
    assert(feed(st, n, seq![b]).1 =~= seq![spec_push_byte(st, n, b).1]);
    let events = feed(a, n, s.push(b)).1;
    assert(events =~= feed(a, n, s).1 + seq![spec_push_byte(st, n, b).1]);
    assert(events.last() == spec_push_byte(st, n, b).1);
}

/// Feeding bytes yields one event per byte.
proof fn lemma_feed_len(a: AssemblerModel, n: nat, s: Seq<u8>)
    ensures
        feed(a, n, s).1.len() == s.len(),
    decreases s.len(),
{
    if s.len() > 0 {
        let (a1, e) = spec_push_byte(a, n, s[0]);
        lemma_feed_len(a1, n, s.drop_first());
    }
}

} // verus!

verus! {

// ---------------------------------------------------------------------------
// Priority inheritance over a whole wait on a mutex
// ---------------------------------------------------------------------------

proof fn lemma_contains_counts(s: Seq<Option<usize>>, pid: usize)
    requires
        s.contains(Some(pid)),
    ensures
        count_some(s) > 0,
    decreases s.len(),
{
    if s.last() != Some(pid) {
        let k = choose|k: int| 0 <= k < s.len() && s[k] == Some(pid);
        assert(s.drop_last()[k] == Some(pid));
        lemma_contains_counts(s.drop_last(), pid);
    }
}

/// In a scheduler, a task that holds a boost at some level runs at least
/// that urgently: while the boost a mutex owner got for a waiter is in
/// place, the owner's priority is at most the waiter's.
pub proof fn law_boost_bounds_priority(s: Scheduler, pid: usize, level: u8)
    requires
        s.wf(),
        (level as int) < MAX_PRIORITY,
        task_at(s@, pid) is Some,
        task_at(s@, pid)->0.priority_boosts@[level as int] > 0,
    ensures
        task_at(s@, pid)->0.priority <= level,
{
    let t = s.tasks@[pid as int]->0;
    assert(slot_coherent(pid as int, t));
    lemma_first_boost_at_most(t.priority_boosts@, 0, level as int);
}

/// Priority inheritance over a whole wait: when a task blocks on a mutex,
/// the owner is lent a boost at the waiter's priority and so runs at least
/// that urgently; when the wait ends by a timeout, with the owner's base
/// priority and boosts as the block left them (the boost lent for this
/// waiter still in place), the boost is taken back and the owner falls back
/// to the priority its own base and remaining boosts give it, exactly as
/// before the wait.
pub proof fn law_inheritance_across_wait(
    s: MutexModel,
    m: SchedModel,
    timeout_ms: Option<u32>,
    now: u32,
    mid: SchedModel,
    timeout: u32,
    later: u32,
)
    requires
        s.owner is Some,
        s.owner->0 != IDLE_PID,
        task_at(m, s.owner->0) is Some,
        m_mutex_acquire(s, m, timeout_ms, now).2 is Blocked,
        (task_at(m, m.current)->0.priority as int) < MAX_PRIORITY,
        task_at(m, s.owner->0)->0.priority_boosts@[task_at(m, m.current)->0.priority as int] < u8::MAX,
        task_at(mid, s.owner->0) is Some,
        task_at(mid, s.owner->0)->0.priority_boosts == task_at(m_mutex_acquire(s, m, timeout_ms, now).1, s.owner->0)->0.priority_boosts,
        task_at(mid, s.owner->0)->0.base_priority == task_at(m, s.owner->0)->0.base_priority,
    ensures
        ({
            let o = s.owner->0;
            let t = task_at(m, o)->0;
            let (s1, m1, step) = m_mutex_acquire(s, m, timeout_ms, now);
            let (w, pw) = match step {
                MutexAcquireStep::Blocked(w, pw) => (w, pw),
                _ => (0usize, 0u8),
            };
            let (s2, m2, r) = m_mutex_resume(s1, mid, w, pw, Some(timeout), later);
            &&& task_at(m1, o)->0.priority <= pw
            &&& task_at(m1, o)->0.priority_boosts@ == t.priority_boosts@.update(
                pw as int,
                (t.priority_boosts@[pw as int] + 1) as u8,
            )
            &&& r == Some(Err::<(), MutexError>(MutexError::Timeout))
            &&& s2.owner == s.owner
            &&& task_at(m2, o)->0.priority_boosts@ == t.priority_boosts@
            &&& task_at(m2, o)->0.priority == spec_effective_priority(t)
        }),
{
    let o = s.owner->0;
    let t = task_at(m, o)->0;
    let w = m.current;
    let pw = task_at(m, w)->0.priority;
    let (s1, m1, step) = m_mutex_acquire(s, m, timeout_ms, now);
    assert(m1 == m_block(m_add_boost(m, o, pw, now).0, timeout_ms, now));
    lemma_lend_boost(m, o, pw, now);
    assert(task_at(m1, o) == task_at(m_add_boost(m, o, pw, now).0, o));
    assert(s1.waiters.contains(Some(w))) by {
        if !s.waiters.contains(Some(w)) {
            lemma_push_holds(s.waiters, w);
        }
    }
    lemma_contains_counts(s1.waiters, w);
    lemma_take_back_boost(mid, o, pw, t, later);
}

/// Lending a boost: the task's boost count at that level goes up by one and
/// its priority becomes its effective one, at most the level.
proof fn lemma_lend_boost(m: SchedModel, o: usize, pw: u8, now: u32)
    requires
        o != IDLE_PID,
        task_at(m, o) is Some,
        (pw as int) < MAX_PRIORITY,
        task_at(m, o)->0.priority_boosts@[pw as int] < u8::MAX,
    ensures
        ({
            let t = task_at(m, o)->0;
            let u = task_at(m_add_boost(m, o, pw, now).0, o);
            &&& u is Some
            &&& u->0.priority <= pw
            &&& u->0.base_priority == t.base_priority
            &&& u->0.priority_boosts@ == t.priority_boosts@.update(
                pw as int,
                (t.priority_boosts@[pw as int] + 1) as u8,
            )
        }),
{
    let t = task_at(m, o)->0;
    let b = pw as int;
    let c = t.priority_boosts@[b];
    let t1 = Tcb {
        priority_boosts: vstd::array::spec_array_update(t.priority_boosts, b, (c + 1) as u8),
        ..t
    };
    assert(t1.priority_boosts@ == t.priority_boosts@.update(b, (c + 1) as u8));
    let ma = set_task(m, o, t1);
    lemma_update_priority_task(ma, o);
    let (mu, need) = m_update_priority(ma, o);
    let ml = m_add_boost(m, o, pw, now).0;
    assert(ml == m_after_priority_change(mu, need, o, pw as usize, now));
    lemma_first_boost_at_most(t1.priority_boosts@, 0, b);
}

/// Taking back a boost lent to `t`: the task's boosts and priority are as
/// before the loan.
proof fn lemma_take_back_boost(mid: SchedModel, o: usize, pw: u8, t: Tcb, later: u32)
    requires
        o != IDLE_PID,
        task_at(mid, o) is Some,
        (pw as int) < MAX_PRIORITY,
        t.priority_boosts@[pw as int] < u8::MAX,
        task_at(mid, o)->0.priority_boosts@ == t.priority_boosts@.update(
            pw as int,
            (t.priority_boosts@[pw as int] + 1) as u8,
        ),
        task_at(mid, o)->0.base_priority == t.base_priority,
    ensures
        ({
            let u = task_at(m_remove_boost(mid, o, pw, later).0, o);
            &&& m_remove_boost(mid, o, pw, later).1
            &&& u is Some
            &&& u->0.priority_boosts@ == t.priority_boosts@
            &&& u->0.priority == spec_effective_priority(t)
        }),
{
    let b = pw as int;
    let c = t.priority_boosts@[b];
    let v = task_at(mid, o)->0;
    assert(v.priority_boosts@[b] == c + 1);
    let t2 = Tcb { priority_boosts: vstd::array::spec_array_update(v.priority_boosts, b, c), ..v };
    assert(t2.priority_boosts@ =~= t.priority_boosts@);
    let mb = set_task(mid, o, t2);
    lemma_update_priority_task(mb, o);
    let (mv, need2) = m_update_priority(mb, o);
    let m2 = m_remove_boost(mid, o, pw, later).0;
    assert(m2 == m_after_priority_change(mv, need2, o, pw as usize, later));
    assert(spec_effective_priority(t2) == spec_effective_priority(t));
}

} // verus!

verus! {

// ---------------------------------------------------------------------------
// Receive errors and line integrity
// ---------------------------------------------------------------------------

/// Clean bytes arriving at the port one after the other.
pub open spec fn rx_isr_bytes(r: RxLineModel, bs: Seq<u8>) -> RxLineModel
    decreases bs.len(),
{
    if bs.len() == 0 {
        r
    } else {
        rx_isr_bytes(rx_on_data(r, bs[0]).0, bs.drop_first())
    }
}

/// The receiving task taking `k` bytes in turn: the receive side and the
/// assembler afterwards, and the event of each take.
pub open spec fn rx_reads(r: RxLineModel, a: AssemblerModel, k: nat) -> (
    RxLineModel,
    AssemblerModel,
    Seq<Option<EventModel>>,
)
    decreases k,
{
    if k == 0 {
        (r, a, Seq::empty())
    } else {
        let (r1, a1, e) = rx_take(r, a);
        let (r2, a2, es) = rx_reads(r1, a1, (k - 1) as nat);
        (r2, a2, seq![e] + es)
    }
}

proof fn lemma_isr_clean(r: RxLineModel, bs: Seq<u8>)
    requires
        !r.discarding,
        r.ring.len() + bs.len() <= RX_BUF_SIZE,
    ensures
        rx_isr_bytes(r, bs) == (RxLineModel { ring: r.ring + bs, ..r }),
    decreases bs.len(),
{
    if bs.len() == 0 {
        assert(r.ring + bs =~= r.ring);
    } else {
        let r1 = rx_on_data(r, bs[0]).0;
        lemma_isr_clean(r1, bs.drop_first());
        assert(r1.ring + bs.drop_first() =~= r.ring + bs);
    }
}

proof fn lemma_isr_skip(r: RxLineModel, bs: Seq<u8>)
    requires
        r.discarding,
        !bs.contains(10u8),
    ensures
        rx_isr_bytes(r, bs.push(10u8)) == (RxLineModel { discarding: false, ..r }),
    decreases bs.len(),
{
    if bs.len() == 0 {
        assert(bs.push(10u8) =~= seq![10u8]);
        assert(seq![10u8].drop_first() =~= Seq::<u8>::empty());
        reveal_with_fuel(rx_isr_bytes, 2);
    } else {
        assert(bs[0] != 10u8) by {
            if bs[0] == 10u8 {
                assert(bs.contains(10u8));
            }
        }
        let rest = bs.drop_first();
        assert(!rest.contains(10u8)) by {
            if rest.contains(10u8) {
                let k = choose|k: int| 0 <= k < rest.len() && rest[k] == 10u8;
                assert(bs[k + 1] == 10u8);
            }
        }
        assert(bs.push(10u8).drop_first() =~= rest.push(10u8));
        assert(bs.push(10u8)[0] == bs[0]);
        lemma_isr_skip(r, rest);
    }
}

proof fn lemma_reads_plain(r: RxLineModel, a: AssemblerModel, k: nat)
    requires
        !r.line_reset,
        k <= r.ring.len(),
    ensures
        ({
            let (r2, a2, es) = rx_reads(r, a, k);
            let f = feed(a, MAX_LINE_LEN as nat, r.ring.take(k as int));
            &&& r2 == (RxLineModel { ring: r.ring.skip(k as int), ..r })
            &&& a2 == f.0
            &&& es == f.1.map_values(|e: EventModel| Some(e))
        }),
    decreases k,
{
    if k == 0 {
        assert(r.ring.skip(0) =~= r.ring);
        assert(r.ring.take(0) =~= Seq::<u8>::empty());
        assert(Seq::<EventModel>::empty().map_values(|e: EventModel| Some(e)) =~= Seq::<Option<EventModel>>::empty());
    } else {
        let (r1, a1, e) = rx_take(r, a);
        lemma_reads_plain(r1, a1, (k - 1) as nat);
        assert(r1.ring.skip((k - 1) as int) =~= r.ring.skip(k as int));
        let t = r.ring.take(k as int);
        assert(t[0] == r.ring[0]);
        assert(t.drop_first() =~= r1.ring.take((k - 1) as int));
        let f1 = feed(a1, MAX_LINE_LEN as nat, r1.ring.take((k - 1) as int));
        assert(feed(a, MAX_LINE_LEN as nat, t).1 == seq![e->0] + f1.1);
        assert((seq![e->0] + f1.1).map_values(|x: EventModel| Some(x)) =~= seq![e] + f1.1.map_values(
            |x: EventModel| Some(x),
        ));
    }
}

proof fn lemma_no_end_kept_empty(s: Seq<u8>)
    requires
        !s.contains(10u8),
    ensures
        keep_through_last(s, 10u8) == Seq::<u8>::empty(),
    decreases s.len(),
{
    if s.len() > 0 {
        assert(s.last() != 10u8) by {
            assert(s[s.len() - 1] == s.last());
        }
        assert(!s.drop_last().contains(10u8)) by {
            if s.drop_last().contains(10u8) {
                let k = choose|k: int| 0 <= k < s.drop_last().len() && s.drop_last()[k] == 10u8;
                assert(s[k] == 10u8);
            }
        }
        lemma_no_end_kept_empty(s.drop_last());
    }
}

proof fn lemma_feed_no_line(a: AssemblerModel, n: nat, bs: Seq<u8>)
    requires
        !bs.contains(10u8),
    ensures
        forall|i: int| 0 <= i < feed(a, n, bs).1.len() ==> !(#[trigger] feed(a, n, bs).1[i] is Line),
    decreases bs.len(),
{
    if bs.len() > 0 {
        let rest = bs.drop_first();
        assert(bs[0] != 10u8) by {
            if bs[0] == 10u8 {
                assert(bs.contains(10u8));
            }
        }
        assert(!rest.contains(10u8)) by {
            if rest.contains(10u8) {
                let k = choose|k: int| 0 <= k < rest.len() && rest[k] == 10u8;
                assert(bs[k + 1] == 10u8);
            }
        }
        let (a1, e) = spec_push_byte(a, n, bs[0]);
        lemma_feed_no_line(a1, n, rest);
        let es = feed(a, n, bs).1;
        let tail = feed(a1, n, rest).1;
        assert(es =~= seq![e] + tail);
        assert forall|i: int| 0 <= i < es.len() implies !(#[trigger] es[i] is Line) by {
            if i > 0 {
                assert(es[i] == tail[i - 1]);
            }
        }
    }
}

/// A line hit by a receive error is dropped whole: whatever part of it the
/// receiving task had already taken, the error takes back the part still in
/// the ring, skips the rest up to and including its line end, and has the
/// task throw away what it had; no event of that line is a complete line,
/// and the next line comes out intact, leaving everything between lines.
pub proof fn law_rx_error_drops_line(a: AssemblerModel, s1: Seq<u8>, k: nat, s2: Seq<u8>, s3: Seq<u8>)
    requires
        assembler_idle(a, MAX_LINE_LEN as nat),
        !s1.contains(10u8),
        !s2.contains(10u8),
        forall|i: int| 0 <= i < s3.len() ==> plain_byte(#[trigger] s3[i]),
        s1.len() <= RX_BUF_SIZE,
        k <= s1.len(),
        0 < s3.len() <= MAX_LINE_LEN,
    ensures
        ({
            let r0 = RxLineModel { ring: Seq::empty(), discarding: false, line_reset: false };
            let r1 = rx_isr_bytes(r0, s1);
            let (r2, a2, ev1) = rx_reads(r1, a, k);
            let r3 = rx_on_error(r2);
            let r4 = rx_isr_bytes(r3, s2.push(10u8));
            let r5 = rx_isr_bytes(r4, s3.push(10u8));
            let (r6, a6, ev2) = rx_reads(r5, a2, s3.len() + 1);
            &&& forall|i: int| 0 <= i < ev1.len() ==> !(#[trigger] ev1[i] matches Some(EventModel::Line(_)))
            &&& forall|i: int| 0 <= i < s3.len() ==> #[trigger] ev2[i] == Some(EventModel::NoEvent)
            &&& ev2.len() == s3.len() + 1
            &&& ev2.last() == Some(EventModel::Line(s3))
            &&& assembler_idle(a6, MAX_LINE_LEN as nat)
            &&& r6 == r0
        }),
{
    let n = MAX_LINE_LEN as nat;
    let r0 = RxLineModel { ring: Seq::empty(), discarding: false, line_reset: false };
    lemma_isr_clean(r0, s1);
    let r1 = rx_isr_bytes(r0, s1);
    assert(r1.ring =~= s1);
    lemma_reads_plain(r1, a, k);
    let (r2, a2, ev1) = rx_reads(r1, a, k);
    let taken = s1.take(k as int);
    assert(!taken.contains(10u8)) by {
        if taken.contains(10u8) {
            let j = choose|j: int| 0 <= j < taken.len() && taken[j] == 10u8;
            assert(s1[j] == 10u8);
        }
    }
    lemma_feed_no_line(a, n, taken);
    assert forall|i: int| 0 <= i < ev1.len() implies !(#[trigger] ev1[i] matches Some(EventModel::Line(_))) by {
        assert(ev1[i] == Some(feed(a, n, taken).1[i]));
    }
    lemma_partial_line(a, n, taken);
    assert(a2.bytes.len() == n);
    // The error: nothing of the line stays in the ring, and the task is told.
    assert(!r2.ring.contains(10u8)) by {
        if r2.ring.contains(10u8) {
            let j = choose|j: int| 0 <= j < r2.ring.len() && r2.ring[j] == 10u8;
            assert(s1[j + k] == 10u8);
        }
    }
    lemma_no_end_kept_empty(r2.ring);
    let r3 = rx_on_error(r2);
    assert(r3.line_reset);
    lemma_isr_skip(r3, s2);
    let r4 = rx_isr_bytes(r3, s2.push(10u8));
    lemma_isr_clean(r4, s3.push(10u8));
    let r5 = rx_isr_bytes(r4, s3.push(10u8));
    let line = s3.push(10u8);
    assert(r5.ring =~= line);
    assert(r5.line_reset);
    // The next line, from a freshly reset assembler.
    let (r1b, a1b, e0) = rx_take(r5, a2);
    let a0 = AssemblerModel { len: 0, dropping: false, ..a2 };
    lemma_reads_plain(r1b, a1b, s3.len());
    law_line_roundtrip(a0, n, s3);
    let f = feed(a0, n, line);
    assert(line[0] == s3[0]);
    assert(line.drop_first() =~= r1b.ring.take(s3.len() as int));
    assert(r1b.ring.skip(s3.len() as int) =~= Seq::<u8>::empty());
    let (r6, a6, ev2) = rx_reads(r5, a2, s3.len() + 1);
    let ftail = feed(a1b, n, r1b.ring.take(s3.len() as int));
    assert(f.1 == seq![e0->0] + ftail.1);
    assert(ev2 =~= seq![e0] + ftail.1.map_values(|x: EventModel| Some(x)));
    assert(ev2 =~= f.1.map_values(|x: EventModel| Some(x)));
    lemma_feed_len(a0, n, line);
    assert(ev2.last() == Some(f.1.last()));
    assert forall|i: int| 0 <= i < s3.len() implies #[trigger] ev2[i] == Some(EventModel::NoEvent) by {
        assert(ev2[i] == Some(f.1[i]));
    }
    assert(f.0 == a6);
    lemma_feed_plain(a0, n, s3);
    lemma_feed_split(a0, n, s3, seq![10u8]);
    assert(s3 + seq![10u8] =~= line);
    assert(seq![10u8].drop_first() =~= Seq::<u8>::empty());
    reveal_with_fuel(feed, 2);
}

} // verus!

verus! {

// ---------------------------------------------------------------------------
// Block pool, with other calls in between
// ---------------------------------------------------------------------------

/// A call on a block pool, as a law about call sequences speaks of it.
pub enum PoolCall {
    Allocate(usize, usize),
    Free(usize),
}

/// The free flags of a pool after a sequence of calls.
pub open spec fn run_pool_calls(free: Seq<bool>, base: int, block_size: usize, calls: Seq<PoolCall>) -> Seq<bool>
    decreases calls.len(),
{
    if calls.len() == 0 {
        free
    } else {
        let f1 = match calls[0] {
            PoolCall::Allocate(size, align) => pool_alloc(free, base, block_size, size, align).0,
            PoolCall::Free(ptr) => pool_free(free, base, block_size, ptr).0,
        };
        run_pool_calls(f1, base, block_size, calls.drop_first())
    }
}

/// A block that is out stays out through any calls but the freeing of its
/// own address.
proof fn lemma_block_stays_out(free: Seq<bool>, base: int, block_size: usize, calls: Seq<PoolCall>, i: int)
    requires
        0 <= i < free.len(),
        !free[i],
        free.len() <= usize::MAX,
        block_size > 0,
        forall|k: int| 0 <= k < calls.len() ==> #[trigger] calls[k] != PoolCall::Free(
            (base + spec_stride(block_size) * i) as usize,
        ),
        0 <= base + spec_stride(block_size) * i <= usize::MAX,
    ensures
        run_pool_calls(free, base, block_size, calls).len() == free.len(),
        !run_pool_calls(free, base, block_size, calls)[i],
    decreases calls.len(),
{
    if calls.len() > 0 {
        let stride = spec_stride(block_size);
        let ptr = (base + stride * i) as usize;
        let f1 = match calls[0] {
            PoolCall::Allocate(size, align) => pool_alloc(free, base, block_size, size, align).0,
            PoolCall::Free(q) => pool_free(free, base, block_size, q).0,
        };
        match calls[0] {
            PoolCall::Allocate(size, align) => {
                if first_free_block(free, 0) is Some {
                    lemma_first_free(free, 0);
                }
            },
            PoolCall::Free(q) => {
                assert(calls[0] != PoolCall::Free(ptr));
                assert(q != ptr);
                if q != 0 && base <= q < base + stride * free.len() && (q - base) % stride == 0 {
                    let j = (q - base) / stride;
                    vstd::arithmetic::div_mod::lemma_fundamental_div_mod(q - base, stride);
                    assert(0 <= j < free.len()) by (nonlinear_arith)
                        requires
                            0 <= q - base < stride * free.len(),
                            stride > 0,
                            j == (q - base) / stride,
                    ;
                    if j == i {
                        assert(q - base == stride * i);
                        assert(false);
                    }
                }
            },
        }
        let rest = calls.drop_first();
        assert forall|k: int| 0 <= k < rest.len() implies #[trigger] rest[k] != PoolCall::Free(ptr) by {
            assert(rest[k] == calls[k + 1]);
        }
        lemma_block_stays_out(f1, base, block_size, rest, i);
    }
}

/// Allocation and release round trip, whatever calls come between: a block
/// handed out and not freed since is given back by freeing its address,
/// which raises the number of free blocks by one; freeing the null address
/// is refused and changes nothing.
pub proof fn law_pool_free_after_calls(
    free: Seq<bool>,
    base: int,
    block_size: usize,
    size: usize,
    align: usize,
    calls: Seq<PoolCall>,
)
    requires
        free.len() <= usize::MAX,
        block_size > 0,
        base > 0,
        base + spec_stride(block_size) * free.len() <= usize::MAX,
        pool_alloc(free, base, block_size, size, align).1 is Ok,
        forall|k: int| 0 <= k < calls.len() ==> #[trigger] calls[k] != PoolCall::Free(
            pool_alloc(free, base, block_size, size, align).1->Ok_0,
        ),
    ensures
        ({
            let (held, r) = pool_alloc(free, base, block_size, size, align);
            let ptr = r->Ok_0;
            let later = run_pool_calls(held, base, block_size, calls);
            let (after, freed) = pool_free(later, base, block_size, ptr);
            &&& freed == Ok::<(), PoolError>(())
            &&& count_free(after, free.len() as int) == count_free(later, free.len() as int) + 1
            &&& pool_free(later, base, block_size, 0) == (later, Err::<(), PoolError>(PoolError::InvalidLayout))
        }),
{
    let i = first_free_block(free, 0)->0 as int;
    lemma_first_free(free, 0);
    let stride = spec_stride(block_size);
    let len = free.len() as int;
    assert(stride > 0);
    assert(0 <= stride * i < stride * len) by (nonlinear_arith)
        requires
            stride > 0,
            0 <= i < len,
    ;
    let held = free.update(i, false);
    let ptr = (base + stride * i) as usize;
    assert(ptr as int == base + stride * i);
    lemma_block_stays_out(held, base, block_size, calls, i);
    let later = run_pool_calls(held, base, block_size, calls);
    vstd::arithmetic::div_mod::lemma_fundamental_div_mod_converse(stride * i, stride, i, 0);
    lemma_count_free_update(later, len, i, true);
}

} // verus!

verus! {

// ---------------------------------------------------------------------------
// Priority inheritance when a release hands the mutex over
// ---------------------------------------------------------------------------

/// How many of the tasks `ws` currently run at priority `level` (the boosts
/// a mutex owner holds for those waiters, one each at its priority).
pub open spec fn lent_at(m: SchedModel, ws: Seq<usize>, level: int) -> nat
    decreases ws.len(),
{
    if ws.len() == 0 {
        0
    } else {
        lent_at(m, ws.drop_first(), level) + if runs_at(m, ws[0], level) {
            1nat
        } else {
            0nat
        }
    }
}

/// Task `x` exists and runs at priority `level`.
pub open spec fn runs_at(m: SchedModel, x: usize, level: int) -> bool {
    spec_task_priority(m, x) matches Some(p) && p as int == level
}

/// Task `x` exists and its priority is a valid one.
pub open spec fn valid_priority(m: SchedModel, x: usize) -> bool {
    spec_task_priority(m, x) matches Some(p) && (p as int) < MAX_PRIORITY
}

proof fn lemma_lent_frame(m: SchedModel, m1: SchedModel, ws: Seq<usize>, level: int)
    requires
        forall|i: int| 0 <= i < ws.len() ==> task_at(m1, #[trigger] ws[i]) == task_at(m, ws[i]),
    ensures
        lent_at(m1, ws, level) == lent_at(m, ws, level),
    decreases ws.len(),
{
    if ws.len() > 0 {
        assert(task_at(m1, ws[0]) == task_at(m, ws[0]));
        let rest = ws.drop_first();
        assert forall|i: int| 0 <= i < rest.len() implies task_at(m1, #[trigger] rest[i]) == task_at(m, rest[i]) by {
            assert(rest[i] == ws[i + 1]);
        }
        lemma_lent_frame(m, m1, rest, level);
    }
}

/// Re-deriving one task's priority leaves every other task alone.
proof fn lemma_update_priority_frame(m: SchedModel, pid: usize, x: usize)
    requires
        x != pid,
    ensures
        task_at(m_update_priority(m, pid).0, x) == task_at(m, x),
        m_update_priority(m, pid).0.tasks.len() == m.tasks.len(),
{
}

/// Lending or taking back a boost changes no other task.
proof fn lemma_boost_frame(m: SchedModel, o: usize, p: u8, now: u32, x: usize)
    requires
        x != o,
    ensures
        task_at(m_add_boost(m, o, p, now).0, x) == task_at(m, x),
        task_at(m_remove_boost(m, o, p, now).0, x) == task_at(m, x),
        m_add_boost(m, o, p, now).0.tasks.len() == m.tasks.len(),
        m_remove_boost(m, o, p, now).0.tasks.len() == m.tasks.len(),
{
    if o != IDLE_PID && (p as int) < MAX_PRIORITY && task_at(m, o) is Some {
        let t = task_at(m, o)->0;
        let b = p as int;
        let t1 = Tcb {
            priority_boosts: vstd::array::spec_array_update(t.priority_boosts, b, 0u8),
            ..t
        };
        let count = t.priority_boosts@[b];
        let tadd = Tcb {
            priority_boosts: vstd::array::spec_array_update(
                t.priority_boosts,
                b,
                if count == u8::MAX { u8::MAX } else { (count + 1) as u8 },
            ),
            ..t
        };
        lemma_update_priority_frame(set_task(m, o, tadd), o, x);
        if count > 0 {
            let trem = Tcb {
                priority_boosts: vstd::array::spec_array_update(t.priority_boosts, b, (count - 1) as u8),
                ..t
            };
            lemma_update_priority_frame(set_task(m, o, trem), o, x);
        }
    }
}

/// Lending boosts to `n` for a list of waiters changes no other task.
proof fn lemma_add_boosts_frame(m: SchedModel, n: usize, ws: Seq<usize>, now: u32, x: usize)
    requires
        x != n,
    ensures
        task_at(m_add_boosts(m, n, ws, now), x) == task_at(m, x),
        m_add_boosts(m, n, ws, now).tasks.len() == m.tasks.len(),
    decreases ws.len(),
{
    if ws.len() > 0 {
        let m1 = match spec_task_priority(m, ws[0]) {
            Some(p) => m_add_boost(m, n, p, now).0,
            None => m,
        };
        if let Some(p) = spec_task_priority(m, ws[0]) {
            lemma_boost_frame(m, n, p, now, x);
        }
        lemma_add_boosts_frame(m1, n, ws.drop_first(), now, x);
    }
}

/// Waking one task changes no other task.
proof fn lemma_unblock_frame(m: SchedModel, n: usize, now: u32, x: usize)
    requires
        x != n,
    ensures
        task_at(m_unblock(m, n, now).0, x) == task_at(m, x),
{
}

/// Taking back from `o` the boosts lent for the waiters `ws`, one at each
/// waiter's priority: `o` loses exactly those boosts and runs at its
/// effective priority; no other task changes.
proof fn lemma_take_back_all(m: SchedModel, o: usize, ws: Seq<usize>, now: u32)
    requires
        o != IDLE_PID,
        task_at(m, o) is Some,
        task_at(m, o)->0.priority == spec_effective_priority(task_at(m, o)->0),
        !ws.contains(o),
        forall|i: int| 0 <= i < ws.len() ==> #[trigger] valid_priority(m, ws[i]),
        forall|q: int| 0 <= q < MAX_PRIORITY ==> #[trigger] task_at(m, o)->0.priority_boosts@[q] >= lent_at(m, ws, q),
    ensures
        ({
            let r = m_remove_boosts(m, o, ws, now);
            let t = task_at(m, o)->0;
            &&& task_at(r, o) is Some
            &&& task_at(r, o)->0.base_priority == t.base_priority
            &&& task_at(r, o)->0.priority == spec_effective_priority(task_at(r, o)->0)
            &&& forall|q: int| 0 <= q < MAX_PRIORITY ==> #[trigger] task_at(r, o)->0.priority_boosts@[q]
                == t.priority_boosts@[q] - lent_at(m, ws, q)
            &&& forall|x: usize| x != o ==> #[trigger] task_at(r, x) == task_at(m, x)
            &&& r.tasks.len() == m.tasks.len()
        }),
    decreases ws.len(),
{
    let t = task_at(m, o)->0;
    if ws.len() == 0 {
        return;
    }
    let x0 = ws[0];
    let rest = ws.drop_first();
    assert(valid_priority(m, ws[0]));
    let p = spec_task_priority(m, x0)->0;
    let b = p as int;
    assert(x0 != o) by {
        assert(ws[0] == x0);
    }
    assert(lent_at(m, ws, b) >= 1);
    let c = t.priority_boosts@[b];
    assert(c >= 1);
    let t1 = Tcb { priority_boosts: vstd::array::spec_array_update(t.priority_boosts, b, (c - 1) as u8), ..t };
    assert(t1.priority_boosts@ == t.priority_boosts@.update(b, (c - 1) as u8));
    let mb = set_task(m, o, t1);
    lemma_update_priority_task(mb, o);
    let (mv, need) = m_update_priority(mb, o);
    let m1 = m_remove_boost(m, o, p, now).0;
    assert(m1 == m_after_priority_change(mv, need, o, p as usize, now));
    assert forall|x: usize| x != o implies #[trigger] task_at(m1, x) == task_at(m, x) by {
        lemma_boost_frame(m, o, p, now, x);
    }
    lemma_boost_frame(m, o, p, now, x0);
    assert forall|i: int| 0 <= i < rest.len() implies task_at(m1, #[trigger] rest[i]) == task_at(m, rest[i]) by {
        assert(rest[i] == ws[i + 1]);
        assert(ws[i + 1] != o);
    }
    assert forall|q: int| 0 <= q < MAX_PRIORITY implies lent_at(m1, rest, q) == lent_at(m, rest, q) by {
        lemma_lent_frame(m, m1, rest, q);
    }
    assert(!rest.contains(o)) by {
        if rest.contains(o) {
            let k = choose|k: int| 0 <= k < rest.len() && rest[k] == o;
            assert(ws[k + 1] == o);
        }
    }
    assert forall|i: int| 0 <= i < rest.len() implies #[trigger] valid_priority(m1, rest[i]) by {
        assert(rest[i] == ws[i + 1]);
        assert(valid_priority(m, ws[i + 1]));
    }
    let u = task_at(m1, o)->0;
    assert forall|q: int| 0 <= q < MAX_PRIORITY implies #[trigger] u.priority_boosts@[q] >= lent_at(m1, rest, q) by {
        assert(lent_at(m, ws, q) == lent_at(m, rest, q) + if q == b { 1nat } else { 0nat });
    }
    lemma_take_back_all(m1, o, rest, now);
    let r = m_remove_boosts(m, o, ws, now);
    assert(r == m_remove_boosts(m1, o, rest, now));
    assert forall|q: int| 0 <= q < MAX_PRIORITY implies #[trigger] task_at(r, o)->0.priority_boosts@[q]
        == t.priority_boosts@[q] - lent_at(m, ws, q) by {
        assert(lent_at(m, ws, q) == lent_at(m, rest, q) + if q == b { 1nat } else { 0nat });
        assert(lent_at(m1, rest, q) == lent_at(m, rest, q));
    }
}

} // verus!

verus! {

proof fn lemma_occupant_in_slot(s: Seq<Option<usize>>, x: usize)
    requires
        occupants(s).contains(x),
    ensures
        s.contains(Some(x)),
    decreases s.len(),
{
    if s.len() > 0 {
        let prev = occupants(s.drop_last());
        if s.last() == Some(x) {
            assert(s[s.len() - 1] == Some(x));
        } else {
            assert(prev.contains(x)) by {
                let k = choose|k: int| 0 <= k < occupants(s).len() && occupants(s)[k] == x;
                match s.last() {
                    Some(p) => {
                        assert(occupants(s) == prev.push(p));
                        assert(k < prev.len());
                        assert(prev[k] == x);
                    },
                    None => {
                        assert(occupants(s) == prev);
                    },
                }
            }
            lemma_occupant_in_slot(s.drop_last(), x);
            let k = choose|k: int| 0 <= k < s.drop_last().len() && s.drop_last()[k] == Some(x);
            assert(s[k] == Some(x));
        }
    }
}

/// Priority inheritance when the wait ends by a hand-over: when the owner
/// releases a mutex that tasks wait on, ownership passes to a waiter, and the
/// old owner gives back every boost it was lent for the waiters, one at each
/// waiter's priority (provided the waiters' priorities are those the boosts
/// were lent at); it then runs at the priority its own base and remaining
/// boosts give it.  No waiter's boost is left behind with it.
pub proof fn law_release_takes_back_boosts(s: MutexModel, m: SchedModel, now: u32)
    requires
        s.owner is Some,
        spec_current_pid(m) == s.owner,
        s.owner->0 != IDLE_PID,
        task_at(m, s.owner->0) is Some,
        task_at(m, s.owner->0)->0.priority == spec_effective_priority(task_at(m, s.owner->0)->0),
        forall|k: int| 0 <= k < s.waiters.len() ==> #[trigger] s.waiters[k] != Some(s.owner->0),
        forall|i: int| 0 <= i < occupants(s.waiters).len() ==> #[trigger] valid_priority(m, occupants(s.waiters)[i]),
        forall|q: int| 0 <= q < MAX_PRIORITY ==> #[trigger] task_at(m, s.owner->0)->0.priority_boosts@[q]
            >= lent_at(m, occupants(s.waiters), q),
    ensures
        ({
            let o = s.owner->0;
            let t = task_at(m, o)->0;
            let ws = occupants(s.waiters);
            let (s1, m1, r) = m_mutex_release(s, m, now);
            &&& r == Ok::<(), MutexError>(())
            &&& count_some(s.waiters) > 0 ==> s1.owner is Some && s1.owner != s.owner
            &&& count_some(s.waiters) == 0 ==> s1.owner is None
            &&& task_at(m1, o) is Some
            &&& task_at(m1, o)->0.base_priority == t.base_priority
            &&& task_at(m1, o)->0.priority == spec_effective_priority(task_at(m1, o)->0)
            &&& forall|q: int| 0 <= q < MAX_PRIORITY ==> #[trigger] task_at(m1, o)->0.priority_boosts@[q]
                == t.priority_boosts@[q] - lent_at(m, ws, q)
        }),
{
    let o = s.owner->0;
    let ws = occupants(s.waiters);
    assert(!ws.contains(o)) by {
        if ws.contains(o) {
            lemma_occupant_in_slot(s.waiters, o);
            let k = choose|k: int| 0 <= k < s.waiters.len() && s.waiters[k] == Some(o);
            assert(s.waiters[k] != Some(o));
        }
    }
    lemma_take_back_all(m, o, ws, now);
    let mr = m_remove_boosts(m, o, ws, now);
    let (w1, next) = wq_pop_highest(m, s.waiters);
    lemma_pop_highest_from_slot(m, s.waiters);
    if count_some(s.waiters) > 0 {
        law_pop_highest_most_urgent(m, s.waiters);
    }
    if let Some(n) = next {
        let k = choose|k: int| 0 <= k < s.waiters.len() && s.waiters[k] == Some(n);
        assert(s.waiters[k] != Some(o));
        assert(n != o);
        let m2 = m_add_boosts(mr, n, occupants(w1), now);
        lemma_add_boosts_frame(mr, n, occupants(w1), now, o);
        lemma_unblock_frame(m2, n, now, o);
    }
}

} // verus!
