use vstd::prelude::*;

use crate::scheduler::Scheduler;
use crate::scheduler::ops::spec_task_priority;
use crate::scheduler::SchedModel;

verus! {

/// Number of occupied slots.
pub open spec fn count_some(s: Seq<Option<usize>>) -> nat
    decreases s.len(),
{
    if s.len() == 0 {
        0
    } else {
        count_some(s.drop_last()) + if s.last() is Some {
            1nat
        } else {
            0nat
        }
    }
}

/// First index at or after `i` whose slot satisfies `pred`.
pub open spec fn first_slot(s: Seq<Option<usize>>, i: int, pred: spec_fn(Option<usize>) -> bool) -> Option<int>
    decreases s.len() - i,
{
    if i < 0 || i >= s.len() {
        None
    } else if pred(s[i]) {
        Some(i)
    } else {
        first_slot(s, i + 1, pred)
    }
}

pub open spec fn is_free(o: Option<usize>) -> bool {
    o is None
}

pub open spec fn is_used(o: Option<usize>) -> bool {
    o is Some
}

pub open spec fn holds(pid: usize) -> spec_fn(Option<usize>) -> bool {
    |o: Option<usize>| o == Some(pid)
}

/// The pids in the occupied slots, in slot order.
pub open spec fn occupants(s: Seq<Option<usize>>) -> Seq<usize>
    decreases s.len(),
{
    if s.len() == 0 {
        Seq::empty()
    } else {
        let prev = occupants(s.drop_last());
        match s.last() {
            Some(p) => prev.push(p),
            None => prev,
        }
    }
}

/// Priority used to rank a waiter: its task's priority, or the lowest
/// possible rank when the task is gone.
pub open spec fn rank(m: SchedModel, pid: usize) -> u8 {
    match spec_task_priority(m, pid) {
        Some(p) => p,
        None => u8::MAX,
    }
}

/// Index of the occupied slot among `s[i..]` with the most urgent rank; the
/// earliest such slot wins ties.  `best` is the winner among `s[..i]`.
pub open spec fn best_slot(m: SchedModel, s: Seq<Option<usize>>, i: int, best: Option<int>) -> Option<int>
    decreases s.len() - i,
{
    if i < 0 || i >= s.len() {
        best
    } else {
        let next = match s[i] {
            Some(pid) => match best {
                None => Some(i),
                Some(b) => if rank(m, pid) < rank(m, s[b]->0) {
                    Some(i)
                } else {
                    best
                },
            },
            None => best,
        };
        best_slot(m, s, i + 1, next)
    }
}


/// `push`: the first free slot takes `pid`, unless every slot is taken.
pub open spec fn wq_push(s: Seq<Option<usize>>, pid: usize) -> (Seq<Option<usize>>, bool) {
    if count_some(s) < s.len() {
        (s.update(first_slot(s, 0, |o: Option<usize>| is_free(o))->0, Some(pid)), true)
    } else {
        (s, false)
    }
}

/// `pop`: the first occupied slot is emptied and its pid returned.
pub open spec fn wq_pop(s: Seq<Option<usize>>) -> (Seq<Option<usize>>, Option<usize>) {
    if count_some(s) == 0 {
        (s, None)
    } else {
        let k = first_slot(s, 0, |o: Option<usize>| is_used(o))->0;
        (s.update(k, None), s[k])
    }
}

/// `remove`: the first slot holding `pid` is emptied.
pub open spec fn wq_remove(s: Seq<Option<usize>>, pid: usize) -> (Seq<Option<usize>>, bool) {
    if count_some(s) > 0 && s.contains(Some(pid)) {
        (s.update(first_slot(s, 0, holds(pid))->0, None), true)
    } else {
        (s, false)
    }
}

/// `pop_highest`: the most urgent waiter leaves.
pub open spec fn wq_pop_highest(m: SchedModel, s: Seq<Option<usize>>) -> (Seq<Option<usize>>, Option<usize>) {
    if count_some(s) == 0 {
        (s, None)
    } else {
        match best_slot(m, s, 0, None) {
            Some(k) => (s.update(k, None), s[k]),
            None => (s, None),
        }
    }
}

/// A wait queue with every slot free.
pub open spec fn wq_empty(n: nat) -> Seq<Option<usize>> {
    Seq::new(n, |i: int| None::<usize>)
}

/// A fixed-size set of waiting task ids, kept in slots.
pub struct WaitQueue<const N: usize> {
    buf: [Option<usize>; N],
    len: usize,
}

proof fn lemma_count_update(s: Seq<Option<usize>>, i: int, v: Option<usize>)
    requires
        0 <= i < s.len(),
    ensures
        count_some(s.update(i, v)) == count_some(s) - (if s[i] is Some {
            1int
        } else {
            0int
        }) + (if v is Some {
            1int
        } else {
            0int
        }),
    decreases s.len(),
{
    let t = s.update(i, v);
    if i == s.len() - 1 {
        assert(t.drop_last() =~= s.drop_last());
    } else {
        assert(t.drop_last() =~= s.drop_last().update(i, v));
        lemma_count_update(s.drop_last(), i, v);
    }
}

pub proof fn lemma_count_bound(s: Seq<Option<usize>>)
    ensures
        count_some(s) <= s.len(),
        count_some(s) < s.len() ==> exists|i: int| 0 <= i < s.len() && s[i] is None,
        count_some(s) > 0 ==> exists|i: int| 0 <= i < s.len() && s[i] is Some,
    decreases s.len(),
{
    if s.len() > 0 {
        lemma_count_bound(s.drop_last());
        if count_some(s.drop_last()) < s.drop_last().len() {
            let i = choose|i: int| 0 <= i < s.drop_last().len() && s.drop_last()[i] is None;
            assert(s[i] is None);
        }
        if count_some(s.drop_last()) > 0 {
            let i = choose|i: int| 0 <= i < s.drop_last().len() && s.drop_last()[i] is Some;
            assert(s[i] is Some);
        }
    }
}

proof fn lemma_first_slot(s: Seq<Option<usize>>, i: int, pred: spec_fn(Option<usize>) -> bool)
    requires
        0 <= i <= s.len(),
    ensures
        match first_slot(s, i, pred) {
            Some(k) => i <= k < s.len() && pred(s[k]) && forall|j: int| i <= j < k ==> !pred(s[j]),
            None => forall|j: int| i <= j < s.len() ==> !pred(s[j]),
        },
    decreases s.len() - i,
{
    if i < s.len() && !pred(s[i]) {
        lemma_first_slot(s, i + 1, pred);
    }
}

impl<const N: usize> View for WaitQueue<N> {
    type V = Seq<Option<usize>>;

    closed spec fn view(&self) -> Seq<Option<usize>> {
        self.buf@
    }
}

impl<const N: usize> WaitQueue<N> {
    /// The count matches the occupied slots.
    pub closed spec fn wf(&self) -> bool {
        &&& self.buf@.len() == N
        &&& self.len == count_some(self.buf@)
    }

    pub proof fn lemma_len(&self)
        requires
            self.wf(),
        ensures
            self@.len() == N,
    {
    }

    pub fn new() -> (q: Self)
        ensures
            q.wf(),
            q@ == Seq::new(N as nat, |i: int| None::<usize>),
            q@ == wq_empty(N as nat),
    {
        let buf: [Option<usize>; N] = vstd::array::array_fill_for_copy_types(None);
        proof {
            vstd::array::array_len_matches_n(&buf);
            assert(buf@ =~= Seq::new(N as nat, |i: int| None::<usize>));
            lemma_count_none(buf@);
        }
        Self { buf, len: 0 }
    }

    pub fn contains(&self, pid: usize) -> (r: bool)
        requires
            self.wf(),
        ensures
            r == self@.contains(Some(pid)),
    {
        let mut i: usize = 0;
        while i < N
            invariant
                self.wf(),
                0 <= i <= N,
                forall|j: int| 0 <= j < i ==> self@[j] != Some(pid),
            decreases N - i,
        {
            if self.buf[i] == Some(pid) {
                assert(self@[i as int] == Some(pid));
                return true;
            }
            i = i + 1;
        }
        false
    }

    /// Put `pid` into the first free slot; fails when every slot is taken.
    pub fn push(&mut self, pid: usize) -> (r: bool)
        requires
            old(self).wf(),
        ensures
            final(self).wf(),
            r == (count_some(old(self)@) < N),
            r ==> final(self)@ == old(self)@.update(
                first_slot(old(self)@, 0, |o: Option<usize>| is_free(o))->0,
                Some(pid),
            ),
            !r ==> final(self)@ == old(self)@,
            (final(self)@, r) == wq_push(old(self)@, pid),
    {
        if self.len >= N {
            return false;
        }
        proof {
            lemma_count_bound(self.buf@);
            lemma_first_slot(self.buf@, 0, |o: Option<usize>| is_free(o));
        }
        let mut i: usize = 0;
        while i < N
            invariant
                self.wf(),
                *self == *old(self),
                0 <= i <= N,
                first_slot(self@, 0, |o: Option<usize>| is_free(o)) == first_slot(
                    self@,
                    i as int,
                    |o: Option<usize>| is_free(o),
                ),
                first_slot(self@, 0, |o: Option<usize>| is_free(o)) is Some,
                self.len < N,
            decreases N - i,
        {
            if self.buf[i].is_none() {
                proof {
                    lemma_count_update(self.buf@, i as int, Some(pid));
                }
                self.buf[i] = Some(pid);
                self.len = self.len + 1;
                return true;
            }
            i = i + 1;
        }
        false
    }

    /// Take the pid in the first occupied slot.
    pub fn pop(&mut self) -> (r: Option<usize>)
        requires
            old(self).wf(),
        ensures
            final(self).wf(),
            count_some(old(self)@) == 0 ==> r is None && final(self)@ == old(self)@,
            count_some(old(self)@) > 0 ==> {
                let k = first_slot(old(self)@, 0, |o: Option<usize>| is_used(o))->0;
                &&& r == old(self)@[k]
                &&& r is Some
                &&& final(self)@ == old(self)@.update(k, None)
            },
            (final(self)@, r) == wq_pop(old(self)@),
    {
        if self.len == 0 {
            return None;
        }
        proof {
            lemma_count_bound(self.buf@);
            lemma_first_slot(self.buf@, 0, |o: Option<usize>| is_used(o));
        }
        let mut i: usize = 0;
        while i < N
            invariant
                self.wf(),
                *self == *old(self),
                0 <= i <= N,
                first_slot(self@, 0, |o: Option<usize>| is_used(o)) == first_slot(
                    self@,
                    i as int,
                    |o: Option<usize>| is_used(o),
                ),
                first_slot(self@, 0, |o: Option<usize>| is_used(o)) is Some,
            decreases N - i,
        {
            if let Some(pid) = self.buf[i] {
                proof {
                    lemma_count_update(self.buf@, i as int, None);
                }
                self.buf[i] = None;
                self.len = self.len - 1;
                return Some(pid);
            }
            i = i + 1;
        }
        None
    }

    /// Clear the first slot holding `pid`.
    pub fn remove(&mut self, pid: usize) -> (r: bool)
        requires
            old(self).wf(),
        ensures
            final(self).wf(),
            r == (count_some(old(self)@) > 0 && old(self)@.contains(Some(pid))),
            r ==> final(self)@ == old(self)@.update(first_slot(old(self)@, 0, holds(pid))->0, None),
            !r ==> final(self)@ == old(self)@,
            (final(self)@, r) == wq_remove(old(self)@, pid),
    {
        if self.len == 0 {
            return false;
        }
        proof {
            lemma_first_slot(self.buf@, 0, holds(pid));
        }
        let mut i: usize = 0;
        while i < N
            invariant
                self.wf(),
                *self == *old(self),
                0 <= i <= N,
                first_slot(self@, 0, holds(pid)) == first_slot(self@, i as int, holds(pid)),
                forall|j: int| 0 <= j < i ==> self@[j] != Some(pid),
            decreases N - i,
        {
            if self.buf[i] == Some(pid) {
                proof {
                    assert(self@.contains(Some(pid)));
                    lemma_count_update(self.buf@, i as int, None);
                }
                self.buf[i] = None;
                self.len = self.len - 1;
                return true;
            }
            i = i + 1;
        }
        false
    }

    /// Copy the waiting pids, in slot order, into `out`; returns how many.
    pub fn snapshot(&self, out: &mut [usize; N]) -> (count: usize)
        requires
            self.wf(),
        ensures
            count == occupants(self@).len(),
            count <= N,
            final(out)@.len() == N,
            final(out)@.take(count as int) == occupants(self@),
            final(out)@.skip(count as int) == old(out)@.skip(count as int),
    {
        let mut count: usize = 0;
        let mut i: usize = 0;
        proof {
            vstd::array::array_len_matches_n(out);
        }
        while i < N
            invariant
                self.wf(),
                0 <= i <= N,
                out@.len() == N,
                count == occupants(self@.take(i as int)).len(),
                count <= i,
                out@.take(count as int) == occupants(self@.take(i as int)),
                forall|k: int| count <= k < N ==> out@[k] == old(out)@[k],
            decreases N - i,
        {
            let ghost pre = self@.take(i as int);
            proof {
                assert(self@.take(i + 1).drop_last() =~= pre);
            }
            if let Some(pid) = self.buf[i] {
                out[count] = pid;
                proof {
                    assert(out@.take(count + 1) =~= occupants(pre).push(pid));
                }
                count = count + 1;
            } else {
                proof {
                    assert(out@.take(count as int) =~= occupants(pre));
                }
            }
            i = i + 1;
        }
        proof {
            assert(self@.take(N as int) =~= self@);
            assert(out@.skip(count as int) =~= old(out)@.skip(count as int));
        }
        count
    }

    /// Take the waiter whose task has the most urgent priority (earliest slot
    /// on ties; a waiter whose task is gone ranks last).
    pub fn pop_highest(&mut self, sched: &Scheduler) -> (r: Option<usize>)
        requires
            old(self).wf(),
            sched.wf(),
        ensures
            final(self).wf(),
            count_some(old(self)@) == 0 ==> r is None && final(self)@ == old(self)@,
            count_some(old(self)@) > 0 ==> match best_slot(sched@, old(self)@, 0, None) {
                Some(k) => r == old(self)@[k] && final(self)@ == old(self)@.update(k, None),
                None => r is None && final(self)@ == old(self)@,
            },
            (final(self)@, r) == wq_pop_highest(sched@, old(self)@),
    {
        if self.len == 0 {
            return None;
        }
        let mut best_idx: Option<usize> = None;
        let mut best_prio: u8 = u8::MAX;
        let mut i: usize = 0;
        while i < N
            invariant
                self.wf(),
                *self == *old(self),
                sched.wf(),
                0 <= i <= N,
                best_slot(sched@, self@, 0, None) == best_slot(
                    sched@,
                    self@,
                    i as int,
                    match best_idx {
                        Some(b) => Some(b as int),
                        None => None,
                    },
                ),
                best_idx matches Some(b) ==> b < i && self@[b as int] is Some && best_prio == rank(
                    sched@,
                    self@[b as int]->0,
                ),
            decreases N - i,
        {
            if let Some(pid) = self.buf[i] {
                let prio = match sched.task_priority(pid) {
                    Some(p) => p,
                    None => u8::MAX,
                };
                if best_idx.is_none() || prio < best_prio {
                    best_idx = Some(i);
                    best_prio = prio;
                }
            }
            i = i + 1;
        }
        let idx = match best_idx {
            Some(idx) => idx,
            None => {
                return None;
            },
        };
        let pid = match self.buf[idx] {
            Some(p) => p,
            None => {
                return None;
            },
        };
        proof {
            lemma_count_update(self.buf@, idx as int, None);
        }
        self.buf[idx] = None;
        self.len = self.len - 1;
        Some(pid)
    }
}


/// Each occupied slot contributes one pid.
pub proof fn lemma_occupants_len(s: Seq<Option<usize>>)
    ensures
        occupants(s).len() == count_some(s),
    decreases s.len(),
{
    if s.len() > 0 {
        lemma_occupants_len(s.drop_last());
    }
}

/// A queue with no occupied slot has no occupants and only free slots.
pub proof fn lemma_empty_queue(s: Seq<Option<usize>>)
    requires
        count_some(s) == 0,
    ensures
        occupants(s) == Seq::<usize>::empty(),
        s == wq_empty(s.len()),
    decreases s.len(),
{
    lemma_count_bound(s);
    if s.len() > 0 {
        assert(s.last() is None);
        lemma_empty_queue(s.drop_last());
        assert forall|j: int| 0 <= j < s.len() implies s[j] == wq_empty(s.len())[j] by {
            if j < s.len() - 1 {
                assert(s[j] == s.drop_last()[j]);
            }
        }
        assert(s =~= wq_empty(s.len()));
    } else {
        assert(s =~= wq_empty(s.len()));
    }
}

proof fn lemma_none_prefix(s: Seq<Option<usize>>)
    requires
        forall|j: int| 0 <= j < s.len() ==> s[j] is None,
    ensures
        occupants(s) == Seq::<usize>::empty(),
        count_some(s) == 0,
    decreases s.len(),
{
    if s.len() > 0 {
        lemma_none_prefix(s.drop_last());
    }
}

/// Popping takes the first occupant.
pub proof fn lemma_pop_occupants(s: Seq<Option<usize>>)
    requires
        count_some(s) > 0,
    ensures
        wq_pop(s).1 is Some,
        occupants(s) == seq![wq_pop(s).1->0] + occupants(wq_pop(s).0),
        count_some(wq_pop(s).0) == count_some(s) - 1,
        wq_pop(s).0.len() == s.len(),
    decreases s.len(),
{
    lemma_count_bound(s);
    lemma_first_slot(s, 0, |o: Option<usize>| is_used(o));
    let k = first_slot(s, 0, |o: Option<usize>| is_used(o))->0;
    let t = s.update(k, None);
    lemma_count_update(s, k, None);
    if k == s.len() - 1 {
        lemma_none_prefix(s.drop_last());
        assert(t.drop_last() =~= s.drop_last());
        assert(occupants(t) == occupants(t.drop_last()));
    } else {
        let d = s.drop_last();
        assert(t.drop_last() =~= d.update(k, None));
        lemma_first_slot(d, 0, |o: Option<usize>| is_used(o));
        assert(d[k] is Some);
        assert(count_some(d) > 0) by {
            if count_some(d) == 0 {
                lemma_empty_queue(d);
                assert(d[k] == wq_empty(d.len())[k]);
            }
        }
        let kd = first_slot(d, 0, |o: Option<usize>| is_used(o))->0;
        assert(kd == k) by {
            if kd < k {
                assert(!is_used(s[kd]));
            } else if kd > k {
                assert(!is_used(d[k]));
            }
        }
        lemma_pop_occupants(d);
        assert(occupants(s) =~= seq![s[k]->0] + occupants(t));
    }
}

proof fn lemma_count_none(s: Seq<Option<usize>>)
    requires
        forall|i: int| 0 <= i < s.len() ==> s[i] is None,
    ensures
        count_some(s) == 0,
    decreases s.len(),
{
    if s.len() > 0 {
        lemma_count_none(s.drop_last());
    }
}


proof fn lemma_best_slot(m: SchedModel, s: Seq<Option<usize>>, i: int, best: Option<int>)
    requires
        0 <= i <= s.len(),
        best matches Some(b) ==> 0 <= b < s.len() && s[b] is Some,
    ensures
        (best is Some || exists|j: int| i <= j < s.len() && #[trigger] s[j] is Some) ==> best_slot(
            m,
            s,
            i,
            best,
        ) is Some,
        best_slot(m, s, i, best) matches Some(k) ==> {
            &&& 0 <= k < s.len()
            &&& s[k] is Some
            &&& (best matches Some(b) ==> rank(m, s[k]->0) <= rank(m, s[b]->0))
            &&& forall|j: int| i <= j < s.len() && #[trigger] s[j] is Some ==> rank(m, s[k]->0) <= rank(
                m,
                s[j]->0,
            )
        },
    decreases s.len() - i,
{
    if i < s.len() {
        let next = match s[i] {
            Some(pid) => match best {
                None => Some(i),
                Some(b) => if rank(m, pid) < rank(m, s[b]->0) {
                    Some(i)
                } else {
                    best
                },
            },
            None => best,
        };
        lemma_best_slot(m, s, i + 1, next);
    }
}

/// Of the tasks waiting in a queue, the one taken out by priority order is
/// at least as urgent as every other waiter (so a released mutex goes to
/// its most urgent waiter).
pub proof fn law_pop_highest_most_urgent(m: SchedModel, s: Seq<Option<usize>>)
    requires
        count_some(s) > 0,
    ensures
        wq_pop_highest(m, s).1 matches Some(n) && forall|j: int|
            0 <= j < s.len() && #[trigger] s[j] is Some ==> rank(m, n) <= rank(m, s[j]->0),
{
    if forall|j: int| 0 <= j < s.len() ==> #[trigger] s[j] is None {
        lemma_count_none(s);
    }
    lemma_best_slot(m, s, 0, None);
}

/// The waiter taken out by priority order sits in one of the queue's slots.
pub proof fn lemma_pop_highest_from_slot(m: SchedModel, s: Seq<Option<usize>>)
    ensures
        wq_pop_highest(m, s).1 matches Some(n) ==> exists|k: int| 0 <= k < s.len() && s[k] == Some(n),
{
    lemma_best_slot(m, s, 0, None);
    if let Some(k) = best_slot(m, s, 0, None) {
        if count_some(s) > 0 {
            assert(s[k] == Some(s[k]->0));
        }
    }
}

/// After a successful push the queue holds the pushed pid.
pub proof fn lemma_push_holds(s: Seq<Option<usize>>, pid: usize)
    requires
        wq_push(s, pid).1,
    ensures
        wq_push(s, pid).0.contains(Some(pid)),
        count_some(wq_push(s, pid).0) > 0,
{
    lemma_count_bound(s);
    let k = first_slot(s, 0, |o: Option<usize>| is_free(o));
    if k is None {
        assert forall|j: int| 0 <= j < s.len() implies #[trigger] s[j] is Some by {
            lemma_first_slot(s, 0, |o: Option<usize>| is_free(o));
            assert(!is_free(s[j]));
        }
        lemma_all_some_count(s);
    }
    lemma_first_slot(s, 0, |o: Option<usize>| is_free(o));
    let i = k->0;
    let t = s.update(i, Some(pid));
    assert(t[i] == Some(pid));
    lemma_count_update(s, i, Some(pid));
}

proof fn lemma_all_some_count(s: Seq<Option<usize>>)
    requires
        forall|j: int| 0 <= j < s.len() ==> #[trigger] s[j] is Some,
    ensures
        count_some(s) == s.len(),
    decreases s.len(),
{
    if s.len() > 0 {
        assert forall|j: int| 0 <= j < s.drop_last().len() implies #[trigger] s.drop_last()[j] is Some by {
            assert(s.drop_last()[j] == s[j]);
        }
        lemma_all_some_count(s.drop_last());
    }
}
} // verus!
