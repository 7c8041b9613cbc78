use vstd::prelude::*;

use crate::mqueue::{lemma_mod_is_wrap, wrap_index};
use crate::systick::{ms_to_ticks, spec_ms_to_ticks, spec_time_after_eq, time_after_eq};

verus! {

pub const MAX_TIMERS: usize = 16;
pub const MAX_PENDING: usize = 16;

/// One armed software timer.  The callback is the address of the function
/// to run; the caller runs it when the timer is dispatched.
#[derive(Clone, Copy, Debug, PartialEq, Eq)]
pub struct SoftTimer {
    pub expire_tick: u32,
    pub period_ticks: u32,
    pub callback: usize,
    pub arg: usize,
    pub periodic: bool,
}

/// Callbacks of expired timers waiting to be run, oldest first.
pub struct PendingQueue {
    buf: [Option<(usize, usize)>; MAX_PENDING],
    head: usize,
    tail: usize,
    len: usize,
}

impl View for PendingQueue {
    type V = Seq<(usize, usize)>;

    closed spec fn view(&self) -> Seq<(usize, usize)> {
        Seq::new(self.len as nat, |i: int| self.buf@[wrap_index(self.head + i, MAX_PENDING as int)]->0)
    }
}

impl PendingQueue {
    pub closed spec fn wf(&self) -> bool {
        &&& self.len <= MAX_PENDING
        &&& self.head < MAX_PENDING
        &&& self.tail < MAX_PENDING
        &&& self.tail as int == wrap_index(self.head + self.len, MAX_PENDING as int)
        &&& forall|i: int| 0 <= i < self.len ==> (#[trigger] self.buf@[wrap_index(self.head + i, MAX_PENDING as int)]) is Some
    }

    pub fn new() -> (q: Self)
        ensures
            q.wf(),
            q@ == Seq::<(usize, usize)>::empty(),
    {
        let q = Self { buf: [None; MAX_PENDING], head: 0, tail: 0, len: 0 };
        assert(q@ =~= Seq::<(usize, usize)>::empty());
        q
    }

    pub fn clear(&mut self)
        requires
            old(self).wf(),
        ensures
            final(self).wf(),
            final(self)@ == Seq::<(usize, usize)>::empty(),
    {
        self.head = 0;
        self.tail = 0;
        self.len = 0;
        assert(self@ =~= Seq::<(usize, usize)>::empty());
    }

    pub fn len(&self) -> (l: usize)
        requires
            self.wf(),
        ensures
            l == self@.len(),
    {
        self.len
    }

    /// Queue a callback; refused when the queue is full.
    pub fn push(&mut self, item: (usize, usize)) -> (ok: bool)
        requires
            old(self).wf(),
        ensures
            final(self).wf(),
            ok == (old(self)@.len() < MAX_PENDING),
            final(self)@ == if ok {
                old(self)@.push(item)
            } else {
                old(self)@
            },
    {
        if self.len >= MAX_PENDING {
            return false;
        }
        let ghost old_q = self@;
        self.buf[self.tail] = Some(item);
        proof {
            lemma_mod_is_wrap(self.tail + 1, MAX_PENDING as int);
        }
        self.tail = (self.tail + 1) % MAX_PENDING;
        self.len = self.len + 1;
        proof {
            assert(self@ =~= old_q.push(item));
        }
        true
    }

    /// Take the oldest queued callback.
    pub fn pop(&mut self) -> (r: Option<(usize, usize)>)
        requires
            old(self).wf(),
        ensures
            final(self).wf(),
            old(self)@.len() == 0 ==> r is None && final(self)@ == old(self)@,
            old(self)@.len() > 0 ==> r == Some(old(self)@[0]) && final(self)@ == old(self)@.drop_first(),
    {
        if self.len == 0 {
            return None;
        }
        let ghost old_q = self@;
        proof {
            assert(self.buf@[wrap_index(self.head + 0, MAX_PENDING as int)] is Some);
        }
        let item = self.buf[self.head].take();
        proof {
            lemma_mod_is_wrap(self.head + 1, MAX_PENDING as int);
        }
        self.head = (self.head + 1) % MAX_PENDING;
        self.len = self.len - 1;
        proof {
            assert forall|i: int| 0 <= i < self.len implies (#[trigger] self.buf@[wrap_index(
                self.head + i,
                MAX_PENDING as int,
            )]) is Some by {
                assert(wrap_index(self.head + i, MAX_PENDING as int) == wrap_index(
                    old(self).head + (i + 1),
                    MAX_PENDING as int,
                ));
            }
            assert(self@ =~= old_q.drop_first());
        }
        item
    }
}

/// Timer table and the callbacks waiting to run.
pub struct SoftTimers {
    timers: [Option<SoftTimer>; MAX_TIMERS],
    pending: PendingQueue,
}

pub struct TimersModel {
    pub timers: Seq<Option<SoftTimer>>,
    pub pending: Seq<(usize, usize)>,
}

/// What one timer slot does at tick `now`: an expired timer queues its
/// callback (if the queue has room) and is re-armed one period later, or
/// freed when it is one-shot.
pub open spec fn m_timer_slot(m: TimersModel, i: int, now: u32) -> TimersModel {
    match m.timers[i] {
        None => m,
        Some(t) => if spec_time_after_eq(now, t.expire_tick) && m.pending.len() < MAX_PENDING {
            TimersModel {
                timers: m.timers.update(
                    i,
                    if t.periodic {
                        Some(SoftTimer { expire_tick: t.expire_tick.wrapping_add(t.period_ticks), ..t })
                    } else {
                        None
                    },
                ),
                pending: m.pending.push((t.callback, t.arg)),
            }
        } else {
            m
        },
    }
}

/// Slots `i..` visited in order at tick `now`.
pub open spec fn m_timer_scan(m: TimersModel, i: int, now: u32) -> TimersModel
    decreases MAX_TIMERS - i,
{
    if i < 0 || i >= MAX_TIMERS {
        m
    } else {
        m_timer_scan(m_timer_slot(m, i, now), i + 1, now)
    }
}

/// Lowest free timer slot at or above `i`.
pub open spec fn first_free_timer(timers: Seq<Option<SoftTimer>>, i: int) -> Option<usize>
    decreases MAX_TIMERS - i,
{
    if i < 0 || i >= MAX_TIMERS {
        None
    } else if timers[i] is None {
        Some(i as usize)
    } else {
        first_free_timer(timers, i + 1)
    }
}

/// Arm a timer in the lowest free slot.
pub open spec fn m_start(
    m: TimersModel,
    first_ms: u32,
    period_ms: u32,
    periodic: bool,
    callback: usize,
    arg: usize,
    now: u32,
) -> (TimersModel, Option<usize>) {
    let t = SoftTimer {
        expire_tick: now.wrapping_add(spec_ms_to_ticks(first_ms)),
        period_ticks: spec_ms_to_ticks(period_ms),
        callback,
        arg,
        periodic,
    };
    match first_free_timer(m.timers, 0) {
        Some(i) => (TimersModel { timers: m.timers.update(i as int, Some(t)), ..m }, Some(i)),
        None => (m, None),
    }
}

impl SoftTimers {
    pub closed spec fn model(&self) -> TimersModel {
        TimersModel { timers: self.timers@, pending: self.pending@ }
    }

    pub closed spec fn wf(&self) -> bool {
        self.pending.wf()
    }

    /// No timer armed, nothing pending.
    pub fn init() -> (s: Self)
        ensures
            s.wf(),
            s.model().timers == Seq::new(MAX_TIMERS as nat, |i: int| None::<SoftTimer>),
            s.model().pending == Seq::<(usize, usize)>::empty(),
    {
        let s = Self { timers: [None; MAX_TIMERS], pending: PendingQueue::new() };
        assert(s.model().timers =~= Seq::new(MAX_TIMERS as nat, |i: int| None::<SoftTimer>));
        s
    }

    fn start_internal(
        &mut self,
        first_ms: u32,
        period_ms: u32,
        periodic: bool,
        callback: usize,
        arg: usize,
        now: u32,
    ) -> (handle: Option<usize>)
        requires
            old(self).wf(),
        ensures
            final(self).wf(),
            (final(self).model(), handle) == m_start(
                old(self).model(),
                first_ms,
                period_ms,
                periodic,
                callback,
                arg,
                now,
            ),
    {
        let first_ticks = ms_to_ticks(first_ms);
        let period_ticks = ms_to_ticks(period_ms);
        let timer = SoftTimer {
            expire_tick: now.wrapping_add(first_ticks),
            period_ticks,
            callback,
            arg,
            periodic,
        };
        let mut i: usize = 0;
        while i < MAX_TIMERS
            invariant
                self.wf(),
                *self == *old(self),
                0 <= i <= MAX_TIMERS,
                first_free_timer(self.timers@, 0) == first_free_timer(self.timers@, i as int),
                timer == (SoftTimer {
                    expire_tick: now.wrapping_add(spec_ms_to_ticks(first_ms)),
                    period_ticks: spec_ms_to_ticks(period_ms),
                    callback,
                    arg,
                    periodic,
                }),
            decreases MAX_TIMERS - i,
        {
            if self.timers[i].is_none() {
                let ghost before = self.timers@;
                self.timers[i] = Some(timer);
                proof {
                    assert(first_free_timer(before, i as int) == Some(i));
                    assert(self.timers@ =~= before.update(i as int, Some(timer)));
                }
                return Some(i);
            }
            i = i + 1;
        }
        None
    }

    /// Arm a one-shot timer that fires `delay_ms` from now.
    pub fn start_oneshot(&mut self, delay_ms: u32, callback: usize, arg: usize, now: u32) -> (handle:
        Option<usize>)
        requires
            old(self).wf(),
        ensures
            final(self).wf(),
            (final(self).model(), handle) == m_start(old(self).model(), delay_ms, 0, false, callback, arg, now),
    {
        self.start_internal(delay_ms, 0, false, callback, arg, now)
    }

    /// Arm a periodic timer; a zero period is refused.
    pub fn start_periodic(&mut self, period_ms: u32, callback: usize, arg: usize, now: u32) -> (handle:
        Option<usize>)
        requires
            old(self).wf(),
        ensures
            final(self).wf(),
            period_ms == 0 ==> handle is None && final(self).model() == old(self).model(),
            period_ms != 0 ==> (final(self).model(), handle) == m_start(
                old(self).model(),
                period_ms,
                period_ms,
                true,
                callback,
                arg,
                now,
            ),
    {
        if period_ms == 0 {
            return None;
        }
        self.start_internal(period_ms, period_ms, true, callback, arg, now)
    }

    /// Disarm a timer; returns whether it was armed.
    pub fn cancel(&mut self, handle: usize) -> (existed: bool)
        requires
            old(self).wf(),
        ensures
            final(self).wf(),
            handle >= MAX_TIMERS ==> !existed && final(self).model() == old(self).model(),
            handle < MAX_TIMERS ==> existed == (old(self).model().timers[handle as int] is Some)
                && final(self).model() == (TimersModel {
                timers: old(self).model().timers.update(handle as int, None),
                ..old(self).model()
            }),
    {
        if handle >= MAX_TIMERS {
            return false;
        }
        let existed = self.timers[handle].is_some();
        self.timers[handle] = None;
        existed
    }

    /// The SysTick part of the soft timers: queue the callbacks of every
    /// expired timer.
    pub fn on_tick(&mut self, now_tick: u32)
        requires
            old(self).wf(),
        ensures
            final(self).wf(),
            final(self).model() == m_timer_scan(old(self).model(), 0, now_tick),
    {
        let mut i: usize = 0;
        while i < MAX_TIMERS
            invariant
                self.wf(),
                0 <= i <= MAX_TIMERS,
                m_timer_scan(self.model(), i as int, now_tick) == m_timer_scan(old(self).model(), 0, now_tick),
            decreases MAX_TIMERS - i,
        {
            let ghost before = self.model();
            if let Some(t) = self.timers[i] {
                if time_after_eq(now_tick, t.expire_tick) {
                    let enqueued = self.pending.push((t.callback, t.arg));
                    if enqueued {
                        if t.periodic {
                            let mut t2 = t;
                            t2.expire_tick = t.expire_tick.wrapping_add(t.period_ticks);
                            self.timers[i] = Some(t2);
                        } else {
                            self.timers[i] = None;
                        }
                    }
                }
            }
            proof {
                assert(self.model().timers =~= m_timer_slot(before, i as int, now_tick).timers);
            }
            i = i + 1;
        }
    }

    /// Next callback to run, oldest first (the caller runs it: `dispatch`).
    pub fn pop_pending(&mut self) -> (r: Option<(usize, usize)>)
        requires
            old(self).wf(),
        ensures
            final(self).wf(),
            old(self).model().pending.len() == 0 ==> r is None && final(self).model() == old(self).model(),
            old(self).model().pending.len() > 0 ==> r == Some(old(self).model().pending[0])
                && final(self).model() == (TimersModel {
                pending: old(self).model().pending.drop_first(),
                ..old(self).model()
            }),
    {
        self.pending.pop()
    }
}

} // verus!
