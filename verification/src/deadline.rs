use vstd::prelude::*;

use crate::scheduler::switch::m_process_ticks;
use crate::scheduler::timeouts::{m_process_list, m_process_slot, m_slot_step};
use crate::scheduler::{
    IDLE_PID, SchedModel, Scheduler, TIMEOUT_WHEEL_SIZE, bucket_of, m_timeout_push, m_timeout_remove, task_at, wq_node_ok,
    wq_ok,
};
use crate::systick::spec_time_after_eq;
use crate::tcb::{MAX_PRIORITY, TaskState, Tcb};

verus! {

// ---------------------------------------------------------------------------
// Deadlines on the timeout wheel
// ---------------------------------------------------------------------------

/// The timeout wheel of a model is consistent: each bucket lists distinct
/// tasks, each of them on the wheel with a wake tick that falls in that
/// bucket.
pub open spec fn wheel_consistent(m: SchedModel) -> bool {
    &&& m.wheel.len() == TIMEOUT_WHEEL_SIZE
    &&& forall|b: int| 0 <= b < TIMEOUT_WHEEL_SIZE ==> (#[trigger] m.wheel[b]).no_duplicates()
    &&& forall|b: int, j: int|
        0 <= b < TIMEOUT_WHEEL_SIZE && 0 <= j < m.wheel[b].len() ==> {
            let t = task_at(m, #[trigger] m.wheel[b][j]);
            &&& t is Some
            &&& t->0.in_timeout_queue
            &&& bucket_of(t->0.wake_tick) == b
        }
}

/// Every scheduler keeps its wheel consistent.
pub proof fn lemma_wf_wheel_consistent(s: Scheduler)
    requires
        s.wf(),
    ensures
        wheel_consistent(s@),
{
    let m = s@;
    assert forall|b: int| 0 <= b < TIMEOUT_WHEEL_SIZE implies (#[trigger] m.wheel[b]).no_duplicates() by {
        assert(wq_ok(s.tasks@, s.wheel@[b], b, s.wheel_heads@[b], s.wheel_tails@[b]));
    }
    assert forall|b: int, j: int| 0 <= b < TIMEOUT_WHEEL_SIZE && 0 <= j < m.wheel[b].len() implies {
        let t = task_at(m, #[trigger] m.wheel[b][j]);
        &&& t is Some
        &&& t->0.in_timeout_queue
        &&& bucket_of(t->0.wake_tick) == b
    } by {
        assert(wq_ok(s.tasks@, s.wheel@[b], b, s.wheel_heads@[b], s.wheel_tails@[b]));
        assert(wq_node_ok(s.tasks@, s.wheel@[b], b, j));
    }
}

/// A task on a consistent wheel sits in the bucket of its wake tick only.
proof fn lemma_only_bucket(m: SchedModel, x: usize, b: int)
    requires
        wheel_consistent(m),
        0 <= b < TIMEOUT_WHEEL_SIZE,
        m.wheel[b].contains(x),
    ensures
        task_at(m, x) is Some,
        task_at(m, x)->0.in_timeout_queue,
        bucket_of(task_at(m, x)->0.wake_tick) == b,
{
    let j = choose|j: int| 0 <= j < m.wheel[b].len() && m.wheel[b][j] == x;
    assert(m.wheel[b][j] == x);
}

/// Removing the entry `q` from a duplicate-free list keeps every other entry
/// and adds none.
proof fn lemma_remove_entry(s: Seq<usize>, q: usize)
    requires
        s.no_duplicates(),
        s.contains(q),
    ensures
        s.remove(s.index_of(q)).no_duplicates(),
        forall|x: usize| x != q ==> (s.remove(s.index_of(q)).contains(x) <==> s.contains(x)),
        !s.remove(s.index_of(q)).contains(q),
{
    let i = s.index_of(q);
    let r = s.remove(i);
    assert(s[i] == q);
    assert forall|x: usize| x != q implies (r.contains(x) <==> s.contains(x)) by {
        if r.contains(x) {
            let k = choose|k: int| 0 <= k < r.len() && r[k] == x;
            if k < i {
                assert(s[k] == x);
            } else {
                assert(s[k + 1] == x);
            }
        }
        if s.contains(x) {
            let k = choose|k: int| 0 <= k < s.len() && s[k] == x;
            assert(k != i);
            if k < i {
                assert(r[k] == x);
            } else {
                assert(r[k - 1] == x);
            }
        }
    }
    if r.contains(q) {
        let k = choose|k: int| 0 <= k < r.len() && r[k] == q;
        if k < i {
            assert(s[k] == q);
        } else {
            assert(s[k + 1] == q);
        }
    }
}

/// One wheel entry `q` visited at `tick`: the wheel stays consistent, no
/// other task changes, every other task keeps its place on the wheel, and `q`
/// stays listed while it stays on the wheel.
proof fn lemma_step_frame(m: SchedModel, q: usize, tick: u32, now: u32)
    requires
        wheel_consistent(m),
        m.wheel[bucket_of(tick)].contains(q),
    ensures
        ({
            let m1 = m_slot_step(m, q, tick, now).0;
            &&& wheel_consistent(m1)
            &&& m1.tasks.len() == m.tasks.len()
            &&& forall|x: usize| x != q ==> #[trigger] task_at(m1, x) == task_at(m, x)
            &&& forall|x: usize, b: int|
                0 <= b < TIMEOUT_WHEEL_SIZE && x != q && #[trigger] m.wheel[b].contains(x) ==> m1.wheel[b].contains(x)
            &&& task_at(m1, q) is Some && task_at(m1, q)->0.in_timeout_queue ==> m1.wheel[bucket_of(tick)].contains(q)
        }),
{
    let bt = bucket_of(tick);
    assert(0 <= bt < TIMEOUT_WHEEL_SIZE);
    lemma_only_bucket(m, q, bt);
    let t = task_at(m, q)->0;
    let m1 = m_slot_step(m, q, tick, now).0;
    if t.timeout_rounds > 0 {
        assert(m1.wheel == m.wheel);
        assert forall|b: int, j: int| 0 <= b < TIMEOUT_WHEEL_SIZE && 0 <= j < m1.wheel[b].len() implies {
            let u = task_at(m1, #[trigger] m1.wheel[b][j]);
            &&& u is Some
            &&& u->0.in_timeout_queue
            &&& bucket_of(u->0.wake_tick) == b
        } by {
            assert(m.wheel[b][j] == m1.wheel[b][j]);
        }
    } else if spec_time_after_eq(tick, t.wake_tick) {
        let mr = m_timeout_remove(m, q).0;
        lemma_remove_entry(m.wheel[bt], q);
        assert(mr.wheel[bt] == m.wheel[bt].remove(m.wheel[bt].index_of(q)));
        assert forall|b: int| 0 <= b < TIMEOUT_WHEEL_SIZE implies !(#[trigger] mr.wheel[b]).contains(q) by {
            if b != bt && mr.wheel[b].contains(q) {
                assert(mr.wheel[b] == m.wheel[b]);
                lemma_only_bucket(m, q, b);
            }
        }
        assert forall|b: int, j: int| 0 <= b < TIMEOUT_WHEEL_SIZE && 0 <= j < m1.wheel[b].len() implies {
            let u = task_at(m1, #[trigger] m1.wheel[b][j]);
            &&& u is Some
            &&& u->0.in_timeout_queue
            &&& bucket_of(u->0.wake_tick) == b
        } by {
            assert(m1.wheel[b] == mr.wheel[b]);
            let x = m1.wheel[b][j];
            assert(mr.wheel[b].contains(x));
            assert(x != q);
            assert(m.wheel[b].contains(x));
            lemma_only_bucket(m, x, b);
        }
        assert forall|b: int| 0 <= b < TIMEOUT_WHEEL_SIZE implies (#[trigger] m1.wheel[b]).no_duplicates() by {
            assert(m1.wheel[b] == mr.wheel[b]);
            if b != bt {
                assert(mr.wheel[b] == m.wheel[b]);
            }
        }
        assert forall|x: usize, b: int|
            0 <= b < TIMEOUT_WHEEL_SIZE && x != q && #[trigger] m.wheel[b].contains(x) implies m1.wheel[b].contains(x) by {
            assert(m1.wheel[b] == mr.wheel[b]);
        }
    } else {
    }
}

/// Visiting a duplicate-free list of entries of the bucket of `tick`: the
/// wheel stays consistent, tasks not in the list are left alone and keep
/// their place on the wheel, and a listed task fares as its own visit makes
/// it fare.
proof fn lemma_list_frame(m: SchedModel, list: Seq<usize>, tick: u32, now: u32, pid: usize)
    requires
        wheel_consistent(m),
        list.no_duplicates(),
        forall|i: int| 0 <= i < list.len() ==> m.wheel[bucket_of(tick)].contains(#[trigger] list[i]),
    ensures
        ({
            let r = m_process_list(m, list, tick, now).0;
            &&& wheel_consistent(r)
            &&& r.tasks.len() == m.tasks.len()
            &&& forall|x: usize| !list.contains(x) ==> #[trigger] task_at(r, x) == task_at(m, x)
            &&& forall|x: usize, b: int|
                0 <= b < TIMEOUT_WHEEL_SIZE && !list.contains(x) && #[trigger] m.wheel[b].contains(x)
                    ==> r.wheel[b].contains(x)
            &&& list.contains(pid) ==> task_at(r, pid) == task_at(m_slot_step(m, pid, tick, now).0, pid)
            &&& list.contains(pid) && task_at(r, pid) is Some && task_at(r, pid)->0.in_timeout_queue
                ==> r.wheel[bucket_of(tick)].contains(pid)
        }),
    decreases list.len(),
{
    if list.len() == 0 {
        return;
    }
    let q = list[0];
    let rest = list.drop_first();
    assert(m.wheel[bucket_of(tick)].contains(list[0]));
    lemma_step_frame(m, q, tick, now);
    let m1 = m_slot_step(m, q, tick, now).0;
    assert forall|i: int| 0 <= i < rest.len() implies m1.wheel[bucket_of(tick)].contains(#[trigger] rest[i]) by {
        assert(rest[i] == list[i + 1]);
        assert(list[i + 1] != list[0]);
        assert(m.wheel[bucket_of(tick)].contains(list[i + 1]));
        assert(0 <= bucket_of(tick) < TIMEOUT_WHEEL_SIZE);
    }
    assert(rest.no_duplicates()) by {
        assert forall|a: int, b: int| 0 <= a < rest.len() && 0 <= b < rest.len() && a != b implies rest[a]
            != rest[b] by {
            assert(list[a + 1] != list[b + 1]);
        }
    }
    lemma_list_frame(m1, rest, tick, now, pid);
    let r = m_process_list(m1, rest, tick, now).0;
    assert(r == m_process_list(m, list, tick, now).0);
    assert(!rest.contains(q)) by {
        if rest.contains(q) {
            let k = choose|k: int| 0 <= k < rest.len() && rest[k] == q;
            assert(list[k + 1] == list[0]);
        }
    }
    assert forall|x: usize| !list.contains(x) implies #[trigger] task_at(r, x) == task_at(m, x) by {
        assert(x != list[0]);
        if rest.contains(x) {
            let k = choose|k: int| 0 <= k < rest.len() && rest[k] == x;
            assert(list[k + 1] == x);
        }
        assert(task_at(m1, x) == task_at(m, x));
    }
    assert forall|x: usize, b: int|
        0 <= b < TIMEOUT_WHEEL_SIZE && !list.contains(x) && #[trigger] m.wheel[b].contains(x)
            implies r.wheel[b].contains(x) by {
        assert(x != list[0]);
        if rest.contains(x) {
            let k = choose|k: int| 0 <= k < rest.len() && rest[k] == x;
            assert(list[k + 1] == x);
        }
        assert(m1.wheel[b].contains(x));
    }
    if list.contains(pid) {
        if pid == q {
            assert(task_at(r, pid) == task_at(m1, pid));
            if task_at(r, pid) is Some && task_at(r, pid)->0.in_timeout_queue {
                assert(m1.wheel[bucket_of(tick)].contains(pid));
                assert(0 <= bucket_of(tick) < TIMEOUT_WHEEL_SIZE);
            }
        } else {
            let k = choose|k: int| 0 <= k < list.len() && list[k] == pid;
            assert(k != 0);
            assert(rest[k - 1] == pid);
            assert(task_at(m1, pid) == task_at(m, pid));
            lemma_step_same_task(m1, m, pid, tick, now);
        }
    }
}

/// A visit's effect on the visited task depends on that task alone.
proof fn lemma_step_same_task(ma: SchedModel, mb: SchedModel, pid: usize, tick: u32, now: u32)
    requires
        task_at(ma, pid) == task_at(mb, pid),
        ma.tasks.len() == mb.tasks.len(),
    ensures
        task_at(m_slot_step(ma, pid, tick, now).0, pid) == task_at(m_slot_step(mb, pid, tick, now).0, pid),
{
}

/// The bucket of `tick` is visited again `k` ticks later exactly when `k`
/// is a multiple of the wheel size.
proof fn lemma_same_bucket(now: u32, k: u32, d: u32)
    requires
        k <= d,
    ensures
        (bucket_of(now.wrapping_add(k)) == bucket_of(now.wrapping_add(d))) == ((d - k) % 256 == 0),
{
    assert((now.wrapping_add(k) % 256 == now.wrapping_add(d) % 256) == ((d - k) % 256 == 0)) by (bit_vector)
        requires
            k <= d,
    ;
}

/// Visiting the buckets of `k + 1` ticks is visiting those of `k` ticks,
/// then the bucket of the last one.
proof fn lemma_ticks_split(m: SchedModel, from: u32, k: nat, now: u32)
    requires
        k < u32::MAX,
    ensures
        m_process_ticks(m, from, k + 1, now).0 == m_process_slot(
            m_process_ticks(m, from, k, now).0,
            from.wrapping_add((k + 1) as u32),
            now,
        ).0,
    decreases k,
{
    let f1 = from.wrapping_add(1);
    let m1 = m_process_slot(m, f1, now).0;
    if k == 0 {
        assert(m_process_ticks(m1, f1, 0, now).0 == m1);
    } else {
        lemma_ticks_split(m1, f1, (k - 1) as nat, now);
        assert(m_process_ticks(m, from, k, now).0 == m_process_ticks(m1, f1, (k - 1) as nat, now).0);
        let kk = k as u32;
        assert(f1.wrapping_add(kk) == from.wrapping_add((kk + 1) as u32)) by (bit_vector)
            requires
                f1 == from.wrapping_add(1),
                kk < 0xffff_ffff,
        ;
    }
}

/// A task that waits for a deadline (a sleeper, or a task blocked with a
/// timeout) is put on a consistent timeout wheel `d` ticks ahead, for any
/// `d > 0`: however many turns of the wheel that takes, across the wrap of
/// the tick counter and among any other tasks on the wheel, the ticks before
/// its deadline leave it waiting on the wheel, and the tick of its deadline
/// makes it ready, in its ready queue and off the wheel.
pub proof fn law_timeout_fires_at_deadline(m: SchedModel, pid: usize, now: u32, d: u32, at: u32)
    requires
        wheel_consistent(m),
        0 < d,
        pid != IDLE_PID,
        task_at(m, pid) matches Some(t) && (t.state == TaskState::Sleeping || (t.state == TaskState::Blocked
            && t.has_timeout)) && !t.in_timeout_queue && !t.in_ready_queue && (t.priority as int) < MAX_PRIORITY
            && t.wake_tick == now.wrapping_add(d),
    ensures
        ({
            let (m1, queued) = m_timeout_push(m, pid, now);
            let t = task_at(m, pid)->0;
            &&& queued
            &&& forall|k: nat|
                k < d ==> {
                    let u = task_at(#[trigger] m_process_ticks(m1, now, k, at).0, pid);
                    &&& u is Some
                    &&& u->0.state == t.state
                    &&& u->0.in_timeout_queue
                    &&& !u->0.in_ready_queue
                    &&& u->0.wake_tick == t.wake_tick
                }
            &&& ({
                let md = m_process_ticks(m1, now, d as nat, at).0;
                let u = task_at(md, pid);
                &&& u is Some
                &&& u->0.state == TaskState::Ready
                &&& u->0.in_ready_queue
                &&& !u->0.in_timeout_queue
                &&& u->0.wake_tick == 0
                &&& forall|b: int| 0 <= b < TIMEOUT_WHEEL_SIZE ==> !(#[trigger] md.wheel[b]).contains(pid)
            })
        }),
{
    let t = task_at(m, pid)->0;
    let w = now.wrapping_add(d);
    assert(w.wrapping_sub(now) == d) by (bit_vector)
        requires
            w == now.wrapping_add(d),
    ;
    let bw = bucket_of(w);
    assert(0 <= bw < TIMEOUT_WHEEL_SIZE);
    let m1 = m_timeout_push(m, pid, now).0;
    // pid was on no bucket, so the push keeps the wheel consistent.
    assert forall|b: int| 0 <= b < TIMEOUT_WHEEL_SIZE implies !(#[trigger] m.wheel[b]).contains(pid) by {
        if m.wheel[b].contains(pid) {
            lemma_only_bucket(m, pid, b);
        }
    }
    assert(m1.wheel[bw] == m.wheel[bw].push(pid));
    assert(wheel_consistent(m1)) by {
        assert forall|b: int| 0 <= b < TIMEOUT_WHEEL_SIZE implies (#[trigger] m1.wheel[b]).no_duplicates() by {
            if b == bw {
                assert forall|i: int, j: int| 0 <= i < m1.wheel[b].len() && 0 <= j < m1.wheel[b].len() && i != j
                    implies m1.wheel[b][i] != m1.wheel[b][j] by {
                    if i == m.wheel[b].len() as int {
                        assert(m1.wheel[b][j] == m.wheel[b][j]);
                    } else if j == m.wheel[b].len() as int {
                        assert(m1.wheel[b][i] == m.wheel[b][i]);
                    }
                }
            }
        }
        assert forall|b: int, j: int| 0 <= b < TIMEOUT_WHEEL_SIZE && 0 <= j < m1.wheel[b].len() implies {
            let u = task_at(m1, #[trigger] m1.wheel[b][j]);
            &&& u is Some
            &&& u->0.in_timeout_queue
            &&& bucket_of(u->0.wake_tick) == b
        } by {
            if b == bw && j == m.wheel[b].len() as int {
            } else {
                assert(m1.wheel[b][j] == m.wheel[b][j]);
                let x = m.wheel[b][j];
                assert(m.wheel[b].contains(x));
                assert(x != pid);
            }
        }
    }
    let t1 = task_at(m1, pid)->0;
    assert(m1.wheel[bw].contains(pid)) by {
        assert(m1.wheel[bw][m.wheel[bw].len() as int] == pid);
    }
    // Invariant before the deadline.
    assert forall|k: nat| k < d implies {
        let mk = #[trigger] m_process_ticks(m1, now, k, at).0;
        &&& wheel_consistent(mk)
        &&& task_at(mk, pid) == Some(Tcb { timeout_rounds: ((d - 1 - k) / 256) as u32, ..t1 })
        &&& mk.wheel[bw].contains(pid)
        &&& mk.tasks.len() == m1.tasks.len()
    } by {
        lemma_before_deadline(m1, pid, now, d, at, k, t1);
    }
    // The tick of the deadline.
    let k = (d - 1) as nat;
    lemma_ticks_split(m1, now, k, at);
    let mk = m_process_ticks(m1, now, k, at).0;
    let tick = now.wrapping_add(d);
    assert(((k + 1) as u32) == d);
    assert(task_at(mk, pid) == Some(Tcb { timeout_rounds: 0, ..t1 }));
    let list = mk.wheel[bucket_of(tick)];
    assert(list.contains(pid));
    assert forall|i: int| 0 <= i < list.len() implies mk.wheel[bucket_of(tick)].contains(#[trigger] list[i]) by {
        assert(list[i] == list[i]);
    }
    lemma_list_frame(mk, list, tick, at, pid);
    assert(spec_time_after_eq(tick, t1.wake_tick)) by {
        assert(tick.wrapping_sub(tick) == 0) by (bit_vector);
    }
    let md = m_process_ticks(m1, now, d as nat, at).0;
    assert(md == m_process_list(mk, list, tick, at).0);
    let ms = m_slot_step(mk, pid, tick, at).0;
    assert(task_at(md, pid) == task_at(ms, pid));
    assert forall|b: int| 0 <= b < TIMEOUT_WHEEL_SIZE implies !(#[trigger] md.wheel[b]).contains(pid) by {
        if md.wheel[b].contains(pid) {
            lemma_only_bucket(md, pid, b);
        }
    }
}

/// Before its deadline a waiting task only loses turns, one each time its
/// bucket comes round.
proof fn lemma_before_deadline(m1: SchedModel, pid: usize, now: u32, d: u32, at: u32, k: nat, t1: Tcb)
    requires
        wheel_consistent(m1),
        k < d,
        task_at(m1, pid) == Some(t1),
        t1.in_timeout_queue,
        t1.wake_tick == now.wrapping_add(d),
        t1.timeout_rounds == ((d - 1) / 256) as u32,
        m1.wheel[bucket_of(now.wrapping_add(d))].contains(pid),
    ensures
        ({
            let mk = m_process_ticks(m1, now, k, at).0;
            &&& wheel_consistent(mk)
            &&& task_at(mk, pid) == Some(Tcb { timeout_rounds: ((d - 1 - k) / 256) as u32, ..t1 })
            &&& mk.wheel[bucket_of(now.wrapping_add(d))].contains(pid)
            &&& mk.tasks.len() == m1.tasks.len()
        }),
    decreases k,
{
    let bw = bucket_of(now.wrapping_add(d));
    assert(0 <= bw < TIMEOUT_WHEEL_SIZE);
    if k == 0 {
        assert(m_process_ticks(m1, now, 0, at).0 == m1);
        assert(Tcb { timeout_rounds: ((d - 1 - 0) / 256) as u32, ..t1 } == t1);
        return;
    }
    let j = (k - 1) as nat;
    lemma_before_deadline(m1, pid, now, d, at, j, t1);
    lemma_ticks_split(m1, now, j, at);
    let mj = m_process_ticks(m1, now, j, at).0;
    let tick = now.wrapping_add(k as u32);
    assert(((j + 1) as u32) == k as u32);
    let bt = bucket_of(tick);
    assert(0 <= bt < TIMEOUT_WHEEL_SIZE);
    let list = mj.wheel[bt];
    assert forall|i: int| 0 <= i < list.len() implies mj.wheel[bucket_of(tick)].contains(#[trigger] list[i]) by {
        assert(list[i] == list[i]);
    }
    lemma_list_frame(mj, list, tick, at, pid);
    let mk = m_process_ticks(m1, now, k, at).0;
    assert(mk == m_process_list(mj, list, tick, at).0);
    lemma_same_bucket(now, k as u32, d);
    if bt == bw {
        assert(list.contains(pid));
        assert((d - k) % 256 == 0);
        let r = (d - 1 - j) / 256;
        assert(r >= 1 && (d - 1 - k) / 256 == r - 1) by {
            let q = (d - k) / 256;
            vstd::arithmetic::div_mod::lemma_fundamental_div_mod((d - k) as int, 256);
            assert(d - k == 256 * q);
            assert(q >= 1);
            vstd::arithmetic::div_mod::lemma_fundamental_div_mod_converse((d - 1 - j) as int, 256, q, 0);
            vstd::arithmetic::div_mod::lemma_fundamental_div_mod_converse((d - 1 - k) as int, 256, q - 1, 255);
        }
        assert(task_at(mj, pid)->0.timeout_rounds > 0);
        let ms = m_slot_step(mj, pid, tick, at).0;
        assert(task_at(mk, pid) == task_at(ms, pid));
    } else {
        assert(!list.contains(pid)) by {
            if list.contains(pid) {
                lemma_only_bucket(mj, pid, bt);
            }
        }
        assert((d - k) % 256 != 0);
        assert((d - 1 - k) / 256 == (d - 1 - j) / 256) by {
            let q = (d - 1 - j) / 256;
            let rem = (d - 1 - j) % 256;
            vstd::arithmetic::div_mod::lemma_fundamental_div_mod((d - 1 - j) as int, 256);
            assert(rem != 0);
            vstd::arithmetic::div_mod::lemma_fundamental_div_mod_converse((d - 1 - k) as int, 256, q, rem - 1);
        }
        assert(task_at(mk, pid) == task_at(mj, pid));
        assert(mk.wheel[bw].contains(pid));
    }
}

} // verus!
