use vstd::prelude::*;

use crate::scheduler::{
    IDLE_PID, MAX_TASKS, Scheduler, TIMEOUT_WHEEL_MASK, TIMEOUT_WHEEL_SIZE, bucket_of,
    lemma_distinct_len_bound, lemma_rq_frame, lemma_wq_frame, m_timeout_push, m_timeout_remove,
    ready_part, rq_node_ok, rq_ok, task_at, wheel_part, wq_node_ok, wq_ok,
};
use crate::tcb::{MAX_PRIORITY, TaskState};

verus! {

/// Bucket index of a tick on the timeout wheel.
pub fn timeout_bucket_index(tick: u32) -> (b: usize)
    ensures
        b as int == bucket_of(tick),
        b < TIMEOUT_WHEEL_SIZE,
{
    let x = tick as usize;
    assert(x & 255usize == x % 256usize && x & 255usize < 256usize) by (bit_vector);
    x & TIMEOUT_WHEEL_MASK
}

impl Scheduler {
    /// Put `pid` at the tail of the wheel bucket of its wake tick, with the
    /// number of full wheel turns it must wait.
    #[verifier::rlimit(100)]
    pub fn timeout_push(&mut self, pid: usize, now: u32) -> (pushed: bool)
        requires
            old(self).wf(),
            task_at(old(self)@, pid) is Some ==> !task_at(old(self)@, pid)->0.in_ready_queue,
            task_at(old(self)@, pid) is Some && pid != IDLE_PID ==> task_at(old(self)@, pid)->0.state
                != TaskState::Running,
        ensures
            final(self).wf(),
            final(self)@ == m_timeout_push(old(self)@, pid, now).0,
            pushed == m_timeout_push(old(self)@, pid, now).1,
    {
        if pid >= MAX_TASKS {
            return false;
        }
        let t = match self.tasks[pid] {
            Some(t) => t,
            None => {
                return false;
            },
        };
        if t.in_timeout_queue {
            return false;
        }
        let wake_tick = t.wake_tick;
        let delta = wake_tick.wrapping_sub(now);
        if delta == 0 {
            return false;
        }
        let bucket = timeout_bucket_index(wake_tick);
        let ghost old_tasks = self.tasks@;
        let ghost q = self.wheel@[bucket as int];
        proof {
            assert(wq_ok(
                old_tasks,
                q,
                bucket as int,
                self.wheel_heads@[bucket as int],
                self.wheel_tails@[bucket as int],
            ));
            assert forall|bb: int, j: int|
                0 <= bb < TIMEOUT_WHEEL_SIZE && 0 <= j < self.wheel@[bb].len() implies self.wheel@[bb][j]
                != pid by {
                assert(wq_ok(
                    old_tasks,
                    self.wheel@[bb],
                    bb,
                    self.wheel_heads@[bb],
                    self.wheel_tails@[bb],
                ));
                assert(wq_node_ok(old_tasks, self.wheel@[bb], bb, j));
            }
            assert(!q.contains(pid));
        }
        let prev_tail = self.wheel_tails[bucket];
        let rounds = (delta - 1) / (TIMEOUT_WHEEL_SIZE as u32);
        let mut nt = t;
        nt.timeout_prev = prev_tail;
        nt.timeout_next = None;
        nt.in_timeout_queue = true;
        nt.timeout_rounds = rounds;
        self.tasks[pid] = Some(nt);
        match prev_tail {
            Some(tail_pid) => {
                proof {
                    assert(wq_node_ok(old_tasks, q, bucket as int, q.len() - 1));
                }
                if tail_pid < MAX_TASKS {
                    if let Some(mut tail) = self.tasks[tail_pid] {
                        tail.timeout_next = Some(pid);
                        self.tasks[tail_pid] = Some(tail);
                    }
                }
            },
            None => {
                self.wheel_heads[bucket] = Some(pid);
            },
        }
        self.wheel_tails[bucket] = Some(pid);
        proof {
            let nq = q.push(pid);
            self.wheel@ = self.wheel@.update(bucket as int, nq);
            let tasks = self.tasks@;
            assert(nq.no_duplicates());
            assert forall|j: int| 0 <= j < nq.len() implies #[trigger] wq_node_ok(
                tasks,
                nq,
                bucket as int,
                j,
            ) by {
                if j < q.len() {
                    assert(wq_node_ok(old_tasks, q, bucket as int, j));
                }
            }
            assert forall|bb: int| 0 <= bb < TIMEOUT_WHEEL_SIZE implies #[trigger] wq_ok(
                tasks,
                self.wheel@[bb],
                bb,
                self.wheel_heads@[bb],
                self.wheel_tails@[bb],
            ) by {
                if bb != bucket as int {
                    let qq = self.wheel@[bb];
                    assert(wq_ok(old_tasks, qq, bb, self.wheel_heads@[bb], self.wheel_tails@[bb]));
                    assert forall|j: int| 0 <= j < qq.len() implies wheel_part(
                        #[trigger] tasks[qq[j] as int],
                    ) == wheel_part(old_tasks[qq[j] as int]) by {
                        assert(wq_node_ok(old_tasks, qq, bb, j));
                    }
                    lemma_wq_frame(old_tasks, tasks, qq, bb, self.wheel_heads@[bb], self.wheel_tails@[bb]);
                }
            }
            assert forall|p: int| 0 <= p < MAX_PRIORITY implies #[trigger] rq_ok(
                tasks,
                self.ready@[p],
                p,
                self.ready_heads@[p],
                self.ready_tails@[p],
                self.ready_counts@[p],
            ) by {
                let qq = self.ready@[p];
                assert(rq_ok(
                    old_tasks,
                    qq,
                    p,
                    self.ready_heads@[p],
                    self.ready_tails@[p],
                    self.ready_counts@[p],
                ));
                assert forall|j: int| 0 <= j < qq.len() implies ready_part(
                    #[trigger] tasks[qq[j] as int],
                ) == ready_part(old_tasks[qq[j] as int]) by {
                    assert(rq_node_ok(old_tasks, qq, p, j));
                }
                lemma_rq_frame(
                    old_tasks,
                    tasks,
                    qq,
                    p,
                    self.ready_heads@[p],
                    self.ready_tails@[p],
                    self.ready_counts@[p],
                );
            }
            assert forall|i: int| 0 <= i < MAX_TASKS && #[trigger] tasks[i] is Some implies {
                let t = tasks[i]->0;
                &&& t.priority < MAX_PRIORITY
                &&& t.base_priority < MAX_PRIORITY
                &&& (t.in_ready_queue ==> self.ready@[t.priority as int].contains(i as usize))
                &&& (t.in_ready_queue && i != IDLE_PID ==> t.state == TaskState::Ready)
                &&& (t.in_timeout_queue ==> self.wheel@[t.wake_tick as int
                    % TIMEOUT_WHEEL_SIZE as int].contains(i as usize))
            } by {
                assert(old_tasks[i] is Some);
                let ot = old_tasks[i]->0;
                assert(old(self).wf());
                if i == pid as int {
                    assert(nq[q.len() as int] == pid);
                    assert(nq.contains(pid));
                } else {
                    if ot.in_timeout_queue && bucket_of(ot.wake_tick) == bucket as int {
                        let j = choose|j: int| 0 <= j < q.len() && q[j] == i as usize;
                        assert(nq[j] == i as usize);
                        assert(nq.contains(i as usize));
                    }
                }
            }
            assert(self@.tasks =~= m_timeout_push(old(self)@, pid, now).0.tasks);
        }
        true
    }

    /// Unlink `pid` from the wheel bucket it waits in.
    #[verifier::rlimit(100)]
    pub fn timeout_remove(&mut self, pid: usize) -> (removed: bool)
        requires
            old(self).wf(),
        ensures
            final(self).wf(),
            final(self)@ == m_timeout_remove(old(self)@, pid).0,
            removed == m_timeout_remove(old(self)@, pid).1,
    {
        if pid >= MAX_TASKS {
            return false;
        }
        let t = match self.tasks[pid] {
            Some(t) => t,
            None => {
                return false;
            },
        };
        if !t.in_timeout_queue {
            return false;
        }
        let bucket = timeout_bucket_index(t.wake_tick);
        let ghost old_tasks = self.tasks@;
        let ghost q = self.wheel@[bucket as int];
        let ghost j = q.index_of(pid);
        proof {
            assert(wq_ok(
                old_tasks,
                q,
                bucket as int,
                self.wheel_heads@[bucket as int],
                self.wheel_tails@[bucket as int],
            ));
            assert(old_tasks[pid as int] is Some);
            assert(q.contains(pid));
            assert(0 <= j < q.len() && q[j] == pid);
            assert(wq_node_ok(old_tasks, q, bucket as int, j));
            if j > 0 {
                assert(wq_node_ok(old_tasks, q, bucket as int, j - 1));
            }
            if j + 1 < q.len() {
                assert(wq_node_ok(old_tasks, q, bucket as int, j + 1));
            }
        }
        let prev = t.timeout_prev;
        let next = t.timeout_next;
        match prev {
            Some(prev_pid) => {
                if prev_pid < MAX_TASKS {
                    if let Some(mut pt) = self.tasks[prev_pid] {
                        pt.timeout_next = next;
                        self.tasks[prev_pid] = Some(pt);
                    }
                }
            },
            None => {
                self.wheel_heads[bucket] = next;
            },
        }
        match next {
            Some(next_pid) => {
                if next_pid < MAX_TASKS {
                    if let Some(mut nt) = self.tasks[next_pid] {
                        nt.timeout_prev = prev;
                        self.tasks[next_pid] = Some(nt);
                    }
                }
            },
            None => {
                self.wheel_tails[bucket] = prev;
            },
        }
        if let Some(mut me) = self.tasks[pid] {
            me.timeout_prev = None;
            me.timeout_next = None;
            me.in_timeout_queue = false;
            me.timeout_rounds = 0;
            self.tasks[pid] = Some(me);
        }
        proof {
            let nq = q.remove(j);
            self.wheel@ = self.wheel@.update(bucket as int, nq);
            let tasks = self.tasks@;
            assert(nq.no_duplicates());
            assert forall|k: int| 0 <= k < nq.len() implies #[trigger] wq_node_ok(
                tasks,
                nq,
                bucket as int,
                k,
            ) by {
                if k < j {
                    assert(wq_node_ok(old_tasks, q, bucket as int, k));
                    assert(nq[k] == q[k]);
                } else {
                    assert(wq_node_ok(old_tasks, q, bucket as int, k + 1));
                    assert(nq[k] == q[k + 1]);
                }
                if k > 0 {
                    if k - 1 < j {
                        assert(nq[k - 1] == q[k - 1]);
                    } else {
                        assert(nq[k - 1] == q[k]);
                    }
                }
                if k + 1 < nq.len() {
                    if k + 1 < j {
                        assert(nq[k + 1] == q[k + 1]);
                    } else {
                        assert(nq[k + 1] == q[k + 2]);
                    }
                }
            }
            assert forall|bb: int| 0 <= bb < TIMEOUT_WHEEL_SIZE implies #[trigger] wq_ok(
                tasks,
                self.wheel@[bb],
                bb,
                self.wheel_heads@[bb],
                self.wheel_tails@[bb],
            ) by {
                if bb != bucket as int {
                    let qq = self.wheel@[bb];
                    assert(wq_ok(old_tasks, qq, bb, self.wheel_heads@[bb], self.wheel_tails@[bb]));
                    assert forall|k: int| 0 <= k < qq.len() implies wheel_part(
                        #[trigger] tasks[qq[k] as int],
                    ) == wheel_part(old_tasks[qq[k] as int]) by {
                        assert(wq_node_ok(old_tasks, qq, bb, k));
                    }
                    lemma_wq_frame(old_tasks, tasks, qq, bb, self.wheel_heads@[bb], self.wheel_tails@[bb]);
                } else {
                    if nq.len() > 0 {
                        if j == 0 {
                            assert(nq[0] == q[1]);
                        } else {
                            assert(nq[0] == q[0]);
                        }
                        if j == q.len() - 1 {
                            assert(nq[nq.len() - 1] == q[q.len() - 2]);
                        } else {
                            assert(nq[nq.len() - 1] == q[q.len() - 1]);
                        }
                    }
                }
            }
            assert forall|p: int| 0 <= p < MAX_PRIORITY implies #[trigger] rq_ok(
                tasks,
                self.ready@[p],
                p,
                self.ready_heads@[p],
                self.ready_tails@[p],
                self.ready_counts@[p],
            ) by {
                let qq = self.ready@[p];
                assert(rq_ok(
                    old_tasks,
                    qq,
                    p,
                    self.ready_heads@[p],
                    self.ready_tails@[p],
                    self.ready_counts@[p],
                ));
                assert forall|k: int| 0 <= k < qq.len() implies ready_part(
                    #[trigger] tasks[qq[k] as int],
                ) == ready_part(old_tasks[qq[k] as int]) by {
                    assert(rq_node_ok(old_tasks, qq, p, k));
                }
                lemma_rq_frame(
                    old_tasks,
                    tasks,
                    qq,
                    p,
                    self.ready_heads@[p],
                    self.ready_tails@[p],
                    self.ready_counts@[p],
                );
            }
            assert forall|i: int| 0 <= i < MAX_TASKS && #[trigger] tasks[i] is Some implies {
                let t = tasks[i]->0;
                &&& t.priority < MAX_PRIORITY
                &&& t.base_priority < MAX_PRIORITY
                &&& (t.in_ready_queue ==> self.ready@[t.priority as int].contains(i as usize))
                &&& (t.in_ready_queue && i != IDLE_PID ==> t.state == TaskState::Ready)
                &&& (t.in_timeout_queue ==> self.wheel@[t.wake_tick as int
                    % TIMEOUT_WHEEL_SIZE as int].contains(i as usize))
            } by {
                assert(old_tasks[i] is Some);
                let ot = old_tasks[i]->0;
                assert(old(self).wf());
                if i != pid as int {
                    if ot.in_timeout_queue && bucket_of(ot.wake_tick) == bucket as int {
                        let k = choose|k: int| 0 <= k < q.len() && q[k] == i as usize;
                        assert(k != j);
                        if k < j {
                            assert(nq[k] == i as usize);
                        } else {
                            assert(nq[k - 1] == i as usize);
                        }
                        assert(nq.contains(i as usize));
                    }
                }
            }
            assert(self@.tasks =~= m_timeout_remove(old(self)@, pid).0.tasks);
        }
        true
    }
}

} // verus!
