use vstd::prelude::*;

use crate::scheduler::{
    IDLE_PID, MAX_TASKS, SchedModel, Scheduler, TIMEOUT_WHEEL_SIZE, bit, highest_nonempty,
    lemma_bit_or, lemma_distinct_len_bound, lemma_mask_small, lemma_rq_frame, lemma_wq_frame,
    m_pop_highest, m_ready_push, m_ready_remove, ready_part, rq_node_ok, rq_ok, task_at, wheel_part,
    wq_node_ok, wq_ok,
};
use crate::tcb::{MAX_PRIORITY, TaskState};

verus! {

// ---------------------------------------------------------------------------
// Ready queues
// ---------------------------------------------------------------------------

impl Scheduler {
    pub proof fn lemma_queue_members(&self, p: int, j: int)
        requires
            self.wf(),
            0 <= p < MAX_PRIORITY,
            0 <= j < self.ready@[p].len(),
        ensures
            rq_node_ok(self.tasks@, self.ready@[p], p, j),
            self.ready@[p][j] < MAX_TASKS,
    {
        assert(rq_ok(
            self.tasks@,
            self.ready@[p],
            p,
            self.ready_heads@[p],
            self.ready_tails@[p],
            self.ready_counts@[p],
        ));
    }

    /// Append `pid` at the tail of the ready queue of its priority.
    pub fn ready_push_back(&mut self, pid: usize) -> (pushed: bool)
        requires
            old(self).wf(),
            pid != IDLE_PID && task_at(old(self)@, pid) is Some ==> task_at(old(self)@, pid)->0.state
                == TaskState::Ready,
            task_at(old(self)@, pid) is Some ==> !task_at(old(self)@, pid)->0.in_timeout_queue,
            pid != IDLE_PID,
        ensures
            final(self).wf(),
            final(self)@ == m_ready_push(old(self)@, pid).0,
            pushed == m_ready_push(old(self)@, pid).1,
    {
        if pid >= MAX_TASKS {
            return false;
        }
        let t = match self.tasks[pid] {
            Some(t) => t,
            None => {
                return false;
            },
        };
        let prio = t.priority as usize;
        if prio >= MAX_PRIORITY || t.in_ready_queue {
            return false;
        }
        let ghost old_tasks = self.tasks@;
        let ghost q = self.ready@[prio as int];
        proof {
            assert(rq_ok(
                old_tasks,
                q,
                prio as int,
                self.ready_heads@[prio as int],
                self.ready_tails@[prio as int],
                self.ready_counts@[prio as int],
            ));
            // pid is in no queue, since it is not marked as queued
            assert forall|pp: int, j: int|
                0 <= pp < MAX_PRIORITY && 0 <= j < self.ready@[pp].len() implies self.ready@[pp][j]
                != pid by {
                self.lemma_queue_members(pp, j);
            }
            assert(!q.contains(pid));
            assert forall|j: int| 0 <= j < q.len() implies q[j] < MAX_TASKS by {
                self.lemma_queue_members(prio as int, j);
            }
            lemma_distinct_len_bound(q, MAX_TASKS);
        }
        let prev_tail = self.ready_tails[prio];
        let mut nt = t;
        nt.ready_prev = prev_tail;
        nt.ready_next = None;
        nt.in_ready_queue = true;
        self.tasks[pid] = Some(nt);
        match prev_tail {
            Some(tail_pid) => {
                proof {
                    assert(rq_node_ok(old_tasks, q, prio as int, q.len() - 1));
                }
                if tail_pid < MAX_TASKS {
                    if let Some(mut tail) = self.tasks[tail_pid] {
                        tail.ready_next = Some(pid);
                        self.tasks[tail_pid] = Some(tail);
                    }
                }
            },
            None => {
                self.ready_heads[prio] = Some(pid);
            },
        }
        self.ready_tails[prio] = Some(pid);
        let old_count = self.ready_counts[prio];
        self.ready_counts[prio] = old_count.saturating_add(1);
        let ghost old_mask = self.ready_mask;
        if self.ready_counts[prio] == 1 {
            self.ready_mask = self.ready_mask | (1u32 << (prio as u32));
        }
        proof {
            let nq = q.push(pid);
            self.ready@ = self.ready@.update(prio as int, nq);
            let tasks = self.tasks@;
            assert forall|pp: u32| pp < 32 implies bit(self.ready_mask, pp) == (bit(old_mask, pp) || (
            pp == prio && q.len() == 0)) by {
                lemma_bit_or(old_mask, prio as u32, pp);
            }
            lemma_mask_small(old_mask, prio as u32);
            // the extended queue
            assert(nq.no_duplicates());
            assert forall|j: int| 0 <= j < nq.len() implies #[trigger] rq_node_ok(
                tasks,
                nq,
                prio as int,
                j,
            ) by {
                if j < q.len() {
                    assert(rq_node_ok(old_tasks, q, prio as int, j));
                }
            }
            // every other queue is untouched
            assert forall|pp: int| 0 <= pp < MAX_PRIORITY implies #[trigger] rq_ok(
                tasks,
                self.ready@[pp],
                pp,
                self.ready_heads@[pp],
                self.ready_tails@[pp],
                self.ready_counts@[pp],
            ) by {
                if pp != prio as int {
                    let qq = self.ready@[pp];
                    assert(rq_ok(
                        old_tasks,
                        qq,
                        pp,
                        self.ready_heads@[pp],
                        self.ready_tails@[pp],
                        self.ready_counts@[pp],
                    ));
                    assert forall|j: int| 0 <= j < qq.len() implies ready_part(
                        #[trigger] tasks[qq[j] as int],
                    ) == ready_part(old_tasks[qq[j] as int]) by {
                        assert(rq_node_ok(old_tasks, qq, pp, j));
                    }
                    lemma_rq_frame(
                        old_tasks,
                        tasks,
                        qq,
                        pp,
                        self.ready_heads@[pp],
                        self.ready_tails@[pp],
                        self.ready_counts@[pp],
                    );
                }
            }
            assert forall|b: int| 0 <= b < TIMEOUT_WHEEL_SIZE implies #[trigger] wq_ok(
                tasks,
                self.wheel@[b],
                b,
                self.wheel_heads@[b],
                self.wheel_tails@[b],
            ) by {
                let qq = self.wheel@[b];
                assert(wq_ok(old_tasks, qq, b, self.wheel_heads@[b], self.wheel_tails@[b]));
                assert forall|j: int| 0 <= j < qq.len() implies wheel_part(
                    #[trigger] tasks[qq[j] as int],
                ) == wheel_part(old_tasks[qq[j] as int]) by {
                    assert(wq_node_ok(old_tasks, qq, b, j));
                }
                lemma_wq_frame(old_tasks, tasks, qq, b, self.wheel_heads@[b], self.wheel_tails@[b]);
            }
            assert forall|i: int| 0 <= i < MAX_TASKS && #[trigger] tasks[i] is Some implies {
                let t = tasks[i]->0;
                &&& t.priority < MAX_PRIORITY
                &&& t.base_priority < MAX_PRIORITY
                &&& (t.in_ready_queue ==> self.ready@[t.priority as int].contains(i as usize))
                &&& (t.in_ready_queue && i != IDLE_PID ==> t.state == TaskState::Ready)
                &&& (t.in_timeout_queue ==> self.wheel@[t.wake_tick as int
                    % TIMEOUT_WHEEL_SIZE as int].contains(i as usize))
            } by {
                assert(old_tasks[i] is Some);
                let ot = old_tasks[i]->0;
                assert(old(self).wf());
                if i == pid as int {
                    assert(nq[q.len() as int] == pid);
                    assert(nq.contains(pid));
                } else {
                    if ot.in_ready_queue && ot.priority == prio {
                        let j = choose|j: int| 0 <= j < q.len() && q[j] == i as usize;
                        assert(nq[j] == i as usize);
                        assert(nq.contains(i as usize));
                    }
                }
            }
            assert(self@.tasks =~= m_ready_push(old(self)@, pid).0.tasks);
        }
        true
    }
}


impl Scheduler {
    /// Unlink `pid` from the ready queue of its priority.
    #[verifier::rlimit(100)]
    pub fn ready_remove(&mut self, pid: usize) -> (removed: bool)
        requires
            old(self).wf(),
        ensures
            final(self).wf(),
            final(self)@ == m_ready_remove(old(self)@, pid).0,
            removed == m_ready_remove(old(self)@, pid).1,
    {
        if pid >= MAX_TASKS {
            return false;
        }
        let t = match self.tasks[pid] {
            Some(t) => t,
            None => {
                return false;
            },
        };
        let prio = t.priority as usize;
        if prio >= MAX_PRIORITY || !t.in_ready_queue {
            return false;
        }
        let ghost old_tasks = self.tasks@;
        let ghost q = self.ready@[prio as int];
        let ghost j = q.index_of(pid);
        proof {
            assert(rq_ok(
                old_tasks,
                q,
                prio as int,
                self.ready_heads@[prio as int],
                self.ready_tails@[prio as int],
                self.ready_counts@[prio as int],
            ));
            assert(old_tasks[pid as int] is Some);
            assert(q.contains(pid));
            assert(0 <= j < q.len() && q[j] == pid);
            assert(rq_node_ok(old_tasks, q, prio as int, j));
            if j > 0 {
                assert(rq_node_ok(old_tasks, q, prio as int, j - 1));
            }
            if j + 1 < q.len() {
                assert(rq_node_ok(old_tasks, q, prio as int, j + 1));
            }
        }
        let prev = t.ready_prev;
        let next = t.ready_next;
        match prev {
            Some(prev_pid) => {
                if prev_pid < MAX_TASKS {
                    if let Some(mut pt) = self.tasks[prev_pid] {
                        pt.ready_next = next;
                        self.tasks[prev_pid] = Some(pt);
                    }
                }
            },
            None => {
                self.ready_heads[prio] = next;
            },
        }
        match next {
            Some(next_pid) => {
                if next_pid < MAX_TASKS {
                    if let Some(mut nt) = self.tasks[next_pid] {
                        nt.ready_prev = prev;
                        self.tasks[next_pid] = Some(nt);
                    }
                }
            },
            None => {
                self.ready_tails[prio] = prev;
            },
        }
        if let Some(mut me) = self.tasks[pid] {
            me.ready_prev = None;
            me.ready_next = None;
            me.in_ready_queue = false;
            self.tasks[pid] = Some(me);
        }
        let ghost old_mask = self.ready_mask;
        if self.ready_counts[prio] > 0 {
            self.ready_counts[prio] = self.ready_counts[prio] - 1;
            if self.ready_counts[prio] == 0 {
                self.ready_mask = self.ready_mask & !(1u32 << (prio as u32));
            }
        }
        proof {
            let nq = q.remove(j);
            self.ready@ = self.ready@.update(prio as int, nq);
            let tasks = self.tasks@;
            assert forall|pp: u32| pp < 32 implies bit(self.ready_mask, pp) == (bit(old_mask, pp) && !(
            pp == prio && q.len() == 1)) by {
                lemma_bit_or(old_mask, prio as u32, pp);
            }
            lemma_mask_small(old_mask, prio as u32);
            assert(nq.no_duplicates());
            assert forall|k: int| 0 <= k < nq.len() implies #[trigger] rq_node_ok(
                tasks,
                nq,
                prio as int,
                k,
            ) by {
                if k < j {
                    assert(rq_node_ok(old_tasks, q, prio as int, k));
                    assert(nq[k] == q[k]);
                } else {
                    assert(rq_node_ok(old_tasks, q, prio as int, k + 1));
                    assert(nq[k] == q[k + 1]);
                }
                if k > 0 {
                    if k - 1 < j {
                        assert(nq[k - 1] == q[k - 1]);
                    } else {
                        assert(nq[k - 1] == q[k]);
                    }
                }
                if k + 1 < nq.len() {
                    if k + 1 < j {
                        assert(nq[k + 1] == q[k + 1]);
                    } else {
                        assert(nq[k + 1] == q[k + 2]);
                    }
                }
            }
            assert forall|pp: int| 0 <= pp < MAX_PRIORITY implies #[trigger] rq_ok(
                tasks,
                self.ready@[pp],
                pp,
                self.ready_heads@[pp],
                self.ready_tails@[pp],
                self.ready_counts@[pp],
            ) by {
                if pp != prio as int {
                    let qq = self.ready@[pp];
                    assert(rq_ok(
                        old_tasks,
                        qq,
                        pp,
                        self.ready_heads@[pp],
                        self.ready_tails@[pp],
                        self.ready_counts@[pp],
                    ));
                    assert forall|k: int| 0 <= k < qq.len() implies ready_part(
                        #[trigger] tasks[qq[k] as int],
                    ) == ready_part(old_tasks[qq[k] as int]) by {
                        assert(rq_node_ok(old_tasks, qq, pp, k));
                    }
                    lemma_rq_frame(
                        old_tasks,
                        tasks,
                        qq,
                        pp,
                        self.ready_heads@[pp],
                        self.ready_tails@[pp],
                        self.ready_counts@[pp],
                    );
                } else {
                    if nq.len() > 0 {
                        if j == 0 {
                            assert(nq[0] == q[1]);
                        } else {
                            assert(nq[0] == q[0]);
                        }
                        if j == q.len() - 1 {
                            assert(nq[nq.len() - 1] == q[q.len() - 2]);
                        } else {
                            assert(nq[nq.len() - 1] == q[q.len() - 1]);
                        }
                    }
                }
            }
            assert forall|b: int| 0 <= b < TIMEOUT_WHEEL_SIZE implies #[trigger] wq_ok(
                tasks,
                self.wheel@[b],
                b,
                self.wheel_heads@[b],
                self.wheel_tails@[b],
            ) by {
                let qq = self.wheel@[b];
                assert(wq_ok(old_tasks, qq, b, self.wheel_heads@[b], self.wheel_tails@[b]));
                assert forall|k: int| 0 <= k < qq.len() implies wheel_part(
                    #[trigger] tasks[qq[k] as int],
                ) == wheel_part(old_tasks[qq[k] as int]) by {
                    assert(wq_node_ok(old_tasks, qq, b, k));
                }
                lemma_wq_frame(old_tasks, tasks, qq, b, self.wheel_heads@[b], self.wheel_tails@[b]);
            }
            assert forall|i: int| 0 <= i < MAX_TASKS && #[trigger] tasks[i] is Some implies {
                let t = tasks[i]->0;
                &&& t.priority < MAX_PRIORITY
                &&& t.base_priority < MAX_PRIORITY
                &&& (t.in_ready_queue ==> self.ready@[t.priority as int].contains(i as usize))
                &&& (t.in_ready_queue && i != IDLE_PID ==> t.state == TaskState::Ready)
                &&& (t.in_timeout_queue ==> self.wheel@[t.wake_tick as int
                    % TIMEOUT_WHEEL_SIZE as int].contains(i as usize))
            } by {
                assert(old_tasks[i] is Some);
                let ot = old_tasks[i]->0;
                assert(old(self).wf());
                if i != pid as int {
                    if ot.in_ready_queue && ot.priority == prio {
                        let k = choose|k: int| 0 <= k < q.len() && q[k] == i as usize;
                        assert(k != j);
                        if k < j {
                            assert(nq[k] == i as usize);
                        } else {
                            assert(nq[k - 1] == i as usize);
                        }
                        assert(nq.contains(i as usize));
                    }
                }
            }
            assert(self@.tasks =~= m_ready_remove(old(self)@, pid).0.tasks);
        }
        true
    }
}


/// The most urgent priority present in a ready mask.
pub open spec fn spec_highest_ready_priority(mask: u32) -> Option<u8> {
    if mask == 0 {
        None
    } else {
        Some(mask.trailing_zeros() as u8)
    }
}

pub fn highest_ready_priority(mask: u32) -> (r: Option<u8>)
    ensures
        r == spec_highest_ready_priority(mask),
{
    if mask == 0 {
        None
    } else {
        Some(mask.trailing_zeros() as u8)
    }
}

/// For a mask below 256, the lowest set bit is its trailing-zero count, and
/// the mask is zero exactly when none of its eight low bits is set.
pub proof fn lemma_mask_lowest(m: u32)
    requires
        m < 256,
    ensures
        (m == 0) <==> (forall|p: u32| p < 8 ==> !bit(m, p)),
        m != 0 ==> {
            let tz = m.trailing_zeros();
            &&& tz < 8
            &&& bit(m, tz)
            &&& forall|j: u32| j < tz ==> !bit(m, j)
        },
{
    vstd::std_specs::bits::axiom_u32_trailing_zeros(m);
    assert(m < 256 ==> ((m == 0) <==> (!bit(m, 0) && !bit(m, 1) && !bit(m, 2) && !bit(m, 3) && !bit(
        m,
        4,
    ) && !bit(m, 5) && !bit(m, 6) && !bit(m, 7)))) by (bit_vector);
    if m != 0 {
        let tz = m.trailing_zeros();
        assert(bit(m, tz));
        assert(m < 256 && tz < 32 && (m >> tz) & 1u32 == 1u32 ==> tz < 8) by (bit_vector);
        assert forall|j: u32| j < tz implies !bit(m, j) by {
            assert((m >> j) & 1u32 == 0u32);
        }
    }
    if forall|p: u32| p < 8 ==> !bit(m, p) {
        assert(!bit(m, 0) && !bit(m, 1) && !bit(m, 2) && !bit(m, 3) && !bit(m, 4) && !bit(m, 5)
            && !bit(m, 6) && !bit(m, 7));
    }
}

impl Scheduler {
    /// The ready mask tells which ready queue is the most urgent non-empty one.
    pub proof fn lemma_mask_matches(&self)
        requires
            self.wf(),
        ensures
            spec_highest_ready_priority(self.ready_mask) matches Some(p) ==> highest_nonempty(
                self.ready@,
            ) == Some(p as int),
            spec_highest_ready_priority(self.ready_mask) is None ==> highest_nonempty(self.ready@)
                is None,
    {
        let m = self.ready_mask;
        lemma_mask_lowest(m);
        if m == 0 {
            assert forall|p: int| 0 <= p < MAX_PRIORITY implies !(#[trigger] self.ready@[p].len()
                > 0) by {
                assert(!bit(m, p as u32));
            }
        } else {
            let tz = m.trailing_zeros();
            assert(self.ready@[tz as int].len() > 0);
            assert forall|q: int| 0 <= q < tz implies #[trigger] self.ready@[q].len() == 0 by {
                assert(!bit(m, q as u32));
            }
            let c = choose|p: int|
                0 <= p < MAX_PRIORITY && self.ready@[p].len() > 0 && forall|q: int|
                    0 <= q < p ==> #[trigger] self.ready@[q].len() == 0;
            assert(c == tz as int) by {
                if c < tz as int {
                    assert(self.ready@[c].len() == 0);
                } else if c > tz as int {
                    assert(self.ready@[tz as int].len() == 0);
                }
            }
        }
    }

    /// Remove and return the front task of the most urgent non-empty ready queue.
    pub fn ready_pop_highest(&mut self) -> (pid: Option<usize>)
        requires
            old(self).wf(),
        ensures
            final(self).wf(),
            final(self)@ == m_pop_highest(old(self)@).0,
            pid == m_pop_highest(old(self)@).1,
    {
        proof {
            self.lemma_mask_matches();
        }
        let prio = match highest_ready_priority(self.ready_mask) {
            Some(p) => p as usize,
            None => {
                return None;
            },
        };
        proof {
            assert(rq_ok(
                self.tasks@,
                self.ready@[prio as int],
                prio as int,
                self.ready_heads@[prio as int],
                self.ready_tails@[prio as int],
                self.ready_counts@[prio as int],
            ));
        }
        let pid = match self.ready_heads[prio] {
            Some(pid) => pid,
            None => {
                return None;
            },
        };
        let removed = self.ready_remove(pid);
        if removed {
            Some(pid)
        } else {
            None
        }
    }
}



} // verus!
