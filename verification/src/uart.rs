use vstd::prelude::*;

use crate::event::{Event, EventModel, EventWaitStep, m_event_set, m_event_wait};
use crate::ringbuf::{RingBuf, keep_through_last};
use crate::scheduler::ops::current_unqueued;
use crate::scheduler::{SchedModel, Scheduler};
use crate::waitqueue::wq_empty;

verus! {

/// Receive ring capacity of the application UART.
pub const RX_BUF_SIZE: usize = 256;

/// Transmit ring capacity of the application UART.
pub const TX_BUF_SIZE: usize = 1024;

/// Which job a UART serves.
#[derive(Debug, Clone, Copy, PartialEq, Eq, Structural)]
pub enum UartRole {
    BootConsole,
    AppUart,
}

/// Traffic and error counters of the application UART.
#[derive(Debug, Clone, Copy, PartialEq, Eq)]
pub struct UartStats {
    pub rx_bytes: u32,
    pub tx_bytes: u32,
    pub rx_overflows: u32,
    pub tx_overflows: u32,
    pub rx_errors: u32,
    pub rx_pending: usize,
    pub tx_pending: usize,
}

/// The I/O part of the system health report.
#[derive(Debug, Clone, Copy, PartialEq, Eq)]
pub struct IoHealthSnapshot {
    pub uart_rx_bytes: u32,
    pub uart_tx_bytes: u32,
    pub uart_rx_overflows: u32,
    pub uart_tx_overflows: u32,
    pub uart_rx_errors: u32,
}

/// The health snapshot carries the UART counters unchanged.
pub open spec fn spec_io_health(stats: UartStats) -> IoHealthSnapshot {
    IoHealthSnapshot {
        uart_rx_bytes: stats.rx_bytes,
        uart_tx_bytes: stats.tx_bytes,
        uart_rx_overflows: stats.rx_overflows,
        uart_tx_overflows: stats.tx_overflows,
        uart_rx_errors: stats.rx_errors,
    }
}

pub fn io_health(stats: UartStats) -> (io: IoHealthSnapshot)
    ensures
        io == spec_io_health(stats),
{
    IoHealthSnapshot {
        uart_rx_bytes: stats.rx_bytes,
        uart_tx_bytes: stats.tx_bytes,
        uart_rx_overflows: stats.rx_overflows,
        uart_tx_overflows: stats.tx_overflows,
        uart_rx_errors: stats.rx_errors,
    }
}

/// Status register bits: parity, framing, noise and overrun errors.
pub const SR_ERROR_MASK: u32 = 0x0F;

/// Status register bit: a received byte is waiting in the data register.
pub const SR_RXNE: u32 = 0x20;

/// What one read of the receive status register calls for.
#[derive(Debug, Clone, Copy, PartialEq, Eq, Structural)]
pub enum RxStatusKind {
    /// Nothing received and no error flag: the interrupt is serviced.
    Idle,
    /// An error flag is up: the data register is read and the byte dropped.
    Error,
    /// A clean byte waits in the data register.
    Data,
}

pub open spec fn spec_rx_status_kind(status: u32) -> RxStatusKind {
    if status & SR_ERROR_MASK != 0 {
        RxStatusKind::Error
    } else if status & SR_RXNE == 0 {
        RxStatusKind::Idle
    } else {
        RxStatusKind::Data
    }
}

pub fn rx_status_kind(status: u32) -> (k: RxStatusKind)
    ensures
        k == spec_rx_status_kind(status),
{
    if status & SR_ERROR_MASK != 0 {
        RxStatusKind::Error
    } else if status & SR_RXNE == 0 {
        RxStatusKind::Idle
    } else {
        RxStatusKind::Data
    }
}

/// Interrupt-driven application UART: receive and transmit rings, the two
/// events tasks wait on, and the traffic counters.
pub struct UartPort {
    pub ready: bool,
    pub rx: RingBuf<RX_BUF_SIZE>,
    pub tx: RingBuf<TX_BUF_SIZE>,
    pub rx_event: Event<1>,
    pub tx_event: Event<1>,
    pub rx_bytes: u32,
    pub tx_bytes: u32,
    pub rx_overflows: u32,
    pub tx_overflows: u32,
    pub rx_errors: u32,
    /// A receive error hit the line being received: its remaining bytes,
    /// up to and including its `\n`, are thrown away.
    pub rx_discarding: bool,
    /// The receiving task must throw away the part of a line it has already
    /// taken from the ring before it reads on.
    pub rx_line_reset: bool,
}

/// The counters and queue depths that `app_stats` reports.
pub open spec fn spec_uart_stats(p: UartPort) -> UartStats {
    UartStats {
        rx_bytes: p.rx_bytes,
        tx_bytes: p.tx_bytes,
        rx_overflows: p.rx_overflows,
        tx_overflows: p.tx_overflows,
        rx_errors: p.rx_errors,
        rx_pending: p.rx@.len() as usize,
        tx_pending: p.tx@.len() as usize,
    }
}

/// The receive side of a port as far as line integrity goes: the bytes in
/// the ring, whether the rest of a damaged line is being skipped, and
/// whether the receiving task must throw away the line it has started.
pub struct RxLineModel {
    pub ring: Seq<u8>,
    pub discarding: bool,
    pub line_reset: bool,
}

pub open spec fn rx_model(p: UartPort) -> RxLineModel {
    RxLineModel { ring: p.rx@, discarding: p.rx_discarding, line_reset: p.rx_line_reset }
}

/// A receive error: the damaged line's bytes still in the ring are taken
/// back, the rest of it is to be skipped, and when none of the ring's bytes
/// end a line the receiving task must throw away what it has of the line.
pub open spec fn rx_on_error(r: RxLineModel) -> RxLineModel {
    RxLineModel {
        ring: keep_through_last(r.ring, 10u8),
        discarding: true,
        line_reset: r.line_reset || !r.ring.contains(10u8),
    }
}

/// A clean byte: skipped while a damaged line is (its `\n` ends the
/// skipping), otherwise queued when the ring has room.  The flag tells
/// whether it was queued.
pub open spec fn rx_on_data(r: RxLineModel, b: u8) -> (RxLineModel, bool) {
    if r.discarding {
        (RxLineModel { discarding: b != 10u8, ..r }, false)
    } else if r.ring.len() < RX_BUF_SIZE {
        (RxLineModel { ring: r.ring.push(b), ..r }, true)
    } else {
        (r, false)
    }
}

/// Bytes of a transmit request that did not fit in the ring.
pub open spec fn dropped_count(requested: nat, written: nat) -> u32 {
    if requested > written {
        (requested - written) as u32
    } else {
        0
    }
}

/// The ready flag, the receive line state and every traffic counter are as
/// in `p0`.
pub open spec fn counters_unchanged(p0: UartPort, p1: UartPort) -> bool {
    &&& p1.ready == p0.ready
    &&& p1.rx_discarding == p0.rx_discarding
    &&& p1.rx_line_reset == p0.rx_line_reset
    &&& p1.rx_bytes == p0.rx_bytes
    &&& p1.tx_bytes == p0.tx_bytes
    &&& p1.rx_overflows == p0.rx_overflows
    &&& p1.tx_overflows == p0.tx_overflows
    &&& p1.rx_errors == p0.rx_errors
}

/// Queueing `bytes` for transmission took port `p0` to `p1` and scheduler
/// `m0` to `m1`, `written` of them fitting.
pub open spec fn enqueue_tx_post(
    p0: UartPort,
    p1: UartPort,
    m0: SchedModel,
    m1: SchedModel,
    bytes: Seq<u8>,
    written: usize,
    now: u32,
) -> bool {
    &&& written == if bytes.len() < TX_BUF_SIZE - p0.tx@.len() {
        bytes.len()
    } else {
        (TX_BUF_SIZE - p0.tx@.len()) as nat
    }
    &&& p1.tx@ == p0.tx@ + bytes.take(written as int)
    &&& p1.tx_overflows == if dropped_count(bytes.len(), written as nat) > 0 {
        p0.tx_overflows.wrapping_add(dropped_count(bytes.len(), written as nat))
    } else {
        p0.tx_overflows
    }
    &&& written > 0 ==> (p1.tx_event.model(), m1) == (
        m_event_set(p0.tx_event.model(), m0, now).0,
        m_event_set(p0.tx_event.model(), m0, now).1,
    )
    &&& written == 0 ==> p1.tx_event.model() == p0.tx_event.model() && m1 == m0
    &&& p1.rx@ == p0.rx@
    &&& p1.rx_event.model() == p0.rx_event.model()
    &&& p1.ready == p0.ready
    &&& p1.tx_bytes == p0.tx_bytes
    &&& p1.rx_bytes == p0.rx_bytes
    &&& p1.rx_overflows == p0.rx_overflows
    &&& p1.rx_errors == p0.rx_errors
    &&& p1.rx_discarding == p0.rx_discarding
    &&& p1.rx_line_reset == p0.rx_line_reset
}

impl UartPort {
    pub open spec fn wf(&self) -> bool {
        &&& self.rx.wf()
        &&& self.tx.wf()
        &&& self.rx_event.wf()
        &&& self.tx_event.wf()
    }

    /// A port that has not been brought up: empty rings, zero counters.
    pub fn new() -> (p: Self)
        ensures
            p.wf(),
            !p.ready,
            p.rx@ == Seq::<u8>::empty(),
            p.tx@ == Seq::<u8>::empty(),
            p.rx_event.model() == (EventModel { signaled: false, signal_seq: 0, waiters: wq_empty(1) }),
            p.tx_event.model() == (EventModel { signaled: false, signal_seq: 0, waiters: wq_empty(1) }),
            p.rx_bytes == 0 && p.tx_bytes == 0 && p.rx_overflows == 0,
            p.tx_overflows == 0 && p.rx_errors == 0,
            !p.rx_discarding && !p.rx_line_reset,
    {
        UartPort {
            ready: false,
            rx: RingBuf::new(),
            tx: RingBuf::new(),
            rx_event: Event::new(),
            tx_event: Event::new(),
            rx_bytes: 0,
            tx_bytes: 0,
            rx_overflows: 0,
            tx_overflows: 0,
            rx_errors: 0,
            rx_discarding: false,
            rx_line_reset: false,
        }
    }

    /// Bring the application UART up: rings emptied, events cleared,
    /// counters zeroed, and the port marked ready.
    pub fn init_app_uart(&mut self)
        requires
            old(self).wf(),
        ensures
            final(self).wf(),
            final(self).ready,
            final(self).rx@ == Seq::<u8>::empty(),
            final(self).tx@ == Seq::<u8>::empty(),
            final(self).rx_event.model() == (EventModel {
                signaled: false,
                ..old(self).rx_event.model()
            }),
            final(self).tx_event.model() == (EventModel {
                signaled: false,
                ..old(self).tx_event.model()
            }),
            final(self).rx_bytes == 0 && final(self).tx_bytes == 0,
            final(self).rx_overflows == 0 && final(self).tx_overflows == 0,
            final(self).rx_errors == 0,
            !final(self).rx_discarding && !final(self).rx_line_reset,
    {
        self.rx.clear();
        self.tx.clear();
        self.rx_event.clear();
        self.tx_event.clear();
        self.rx_bytes = 0;
        self.tx_bytes = 0;
        self.rx_overflows = 0;
        self.tx_overflows = 0;
        self.rx_errors = 0;
        self.rx_discarding = false;
        self.rx_line_reset = false;
        self.ready = true;
    }

    pub fn app_is_ready(&self) -> (b: bool)
        ensures
            b == self.ready,
    {
        self.ready
    }

    /// Start waiting, as the current task, for received data.
    pub fn app_wait_for_rx(&mut self, sched: &mut Scheduler, timeout_ms: Option<u32>, now: u32) -> (step:
        EventWaitStep)
        requires
            old(self).wf(),
            old(sched).wf(),
            current_unqueued(old(sched)@),
        ensures
            final(self).wf(),
            final(sched).wf(),
            (final(self).rx_event.model(), final(sched)@, step) == m_event_wait(
                old(self).rx_event.model(),
                old(sched)@,
                timeout_ms,
                now,
            ),
            final(self).rx@ == old(self).rx@ && final(self).tx@ == old(self).tx@,
            final(self).tx_event.model() == old(self).tx_event.model(),
            counters_unchanged(*old(self), *final(self)),
    {
        self.rx_event.wait(sched, timeout_ms, now)
    }

    pub fn app_clear_rx_event(&mut self)
        requires
            old(self).wf(),
        ensures
            final(self).wf(),
            final(self).rx_event.model() == (EventModel {
                signaled: false,
                ..old(self).rx_event.model()
            }),
            final(self).rx@ == old(self).rx@ && final(self).tx@ == old(self).tx@,
            final(self).tx_event.model() == old(self).tx_event.model(),
            counters_unchanged(*old(self), *final(self)),
    {
        self.rx_event.clear();
    }

    /// The oldest received byte, if any.
    pub fn app_read_byte(&mut self) -> (r: Option<u8>)
        requires
            old(self).wf(),
        ensures
            final(self).wf(),
            old(self).rx@.len() == 0 ==> r is None && final(self).rx@ == old(self).rx@,
            old(self).rx@.len() > 0 ==> r == Some(old(self).rx@[0]) && final(self).rx@ == old(self).rx@.drop_first(),
            final(self).tx@ == old(self).tx@,
            final(self).rx_event.model() == old(self).rx_event.model(),
            final(self).tx_event.model() == old(self).tx_event.model(),
            counters_unchanged(*old(self), *final(self)),
    {
        self.rx.pop()
    }

    /// Start waiting, as the current task, for transmit work.
    pub fn app_wait_for_tx(&mut self, sched: &mut Scheduler, timeout_ms: Option<u32>, now: u32) -> (step:
        EventWaitStep)
        requires
            old(self).wf(),
            old(sched).wf(),
            current_unqueued(old(sched)@),
        ensures
            final(self).wf(),
            final(sched).wf(),
            (final(self).tx_event.model(), final(sched)@, step) == m_event_wait(
                old(self).tx_event.model(),
                old(sched)@,
                timeout_ms,
                now,
            ),
            final(self).rx@ == old(self).rx@ && final(self).tx@ == old(self).tx@,
            final(self).rx_event.model() == old(self).rx_event.model(),
            counters_unchanged(*old(self), *final(self)),
    {
        self.tx_event.wait(sched, timeout_ms, now)
    }

    pub fn app_clear_tx_event(&mut self)
        requires
            old(self).wf(),
        ensures
            final(self).wf(),
            final(self).tx_event.model() == (EventModel {
                signaled: false,
                ..old(self).tx_event.model()
            }),
            final(self).rx@ == old(self).rx@ && final(self).tx@ == old(self).tx@,
            final(self).rx_event.model() == old(self).rx_event.model(),
            counters_unchanged(*old(self), *final(self)),
    {
        self.tx_event.clear();
    }

    /// Queue bytes for transmission.  What does not fit is counted as an
    /// overflow; when anything was queued the transmit event is set.
    /// Returns how many bytes were queued.
    pub fn app_enqueue_tx_bytes(&mut self, sched: &mut Scheduler, bytes: &[u8], now: u32) -> (written:
        usize)
        requires
            old(self).wf(),
            old(sched).wf(),
        ensures
            final(self).wf(),
            final(sched).wf(),
            enqueue_tx_post(*old(self), *final(self), old(sched)@, final(sched)@, bytes@, written, now),
    {
        let written = self.tx.push_slice(bytes);
        let dropped: usize = if bytes.len() > written {
            bytes.len() - written
        } else {
            0
        };
        if dropped > 0 {
            self.tx_overflows = self.tx_overflows.wrapping_add(dropped as u32);
        }
        if written > 0 {
            let _ = self.tx_event.set(sched, now);
        }
        written
    }

    /// Take every queued transmit byte, oldest first, for the hardware to
    /// send; the transmitted-byte counter grows by their number.
    pub fn app_drain_tx(&mut self) -> (sent: Vec<u8>)
        requires
            old(self).wf(),
        ensures
            final(self).wf(),
            sent@ == old(self).tx@,
            final(self).tx@ == Seq::<u8>::empty(),
            final(self).tx_bytes == old(self).tx_bytes.wrapping_add(old(self).tx@.len() as u32),
            final(self).rx@ == old(self).rx@,
            final(self).rx_event.model() == old(self).rx_event.model(),
            final(self).tx_event.model() == old(self).tx_event.model(),
            final(self).ready == old(self).ready,
            final(self).rx_bytes == old(self).rx_bytes,
            final(self).tx_overflows == old(self).tx_overflows,
            final(self).rx_overflows == old(self).rx_overflows,
            final(self).rx_errors == old(self).rx_errors,
            final(self).rx_discarding == old(self).rx_discarding,
            final(self).rx_line_reset == old(self).rx_line_reset,
    {
        let mut sent: Vec<u8> = Vec::new();
        let ghost all = self.tx@;
        proof {
            self.tx.lemma_len_bound();
        }
        loop
            invariant
                self.wf(),
                sent@ + self.tx@ == all,
                all.len() <= TX_BUF_SIZE,
                self.rx@ == old(self).rx@,
                self.rx_event.model() == old(self).rx_event.model(),
                self.tx_event.model() == old(self).tx_event.model(),
                self.ready == old(self).ready,
                self.tx_bytes == old(self).tx_bytes,
                self.rx_bytes == old(self).rx_bytes,
                self.tx_overflows == old(self).tx_overflows,
                self.rx_overflows == old(self).rx_overflows,
                self.rx_errors == old(self).rx_errors,
                self.rx_discarding == old(self).rx_discarding,
                self.rx_line_reset == old(self).rx_line_reset,
            ensures
                self.wf(),
                sent@ == all,
                self.tx@ == Seq::<u8>::empty(),
                self.rx@ == old(self).rx@,
                self.rx_event.model() == old(self).rx_event.model(),
                self.tx_event.model() == old(self).tx_event.model(),
                self.ready == old(self).ready,
                self.tx_bytes == old(self).tx_bytes,
                self.rx_bytes == old(self).rx_bytes,
                self.tx_overflows == old(self).tx_overflows,
                self.rx_overflows == old(self).rx_overflows,
                self.rx_errors == old(self).rx_errors,
                self.rx_discarding == old(self).rx_discarding,
                self.rx_line_reset == old(self).rx_line_reset,
            decreases self.tx@.len(),
        {
            let ghost before = self.tx@;
            match self.tx.pop() {
                Some(b) => {
                    sent.push(b);
                    proof {
                        assert(sent@ + self.tx@ =~= all) by {
                            assert(before =~= seq![b] + self.tx@);
                        }
                    }
                },
                None => {
                    proof {
                        assert(sent@ =~= all);
                        assert(self.tx@ =~= Seq::<u8>::empty());
                    }
                    break;
                },
            }
        }
        let count = sent.len();
        self.tx_bytes = self.tx_bytes.wrapping_add(count as u32);
        sent
    }

    pub fn app_stats(&self) -> (s: UartStats)
        requires
            self.wf(),
        ensures
            s == spec_uart_stats(*self),
    {
        UartStats {
            rx_bytes: self.rx_bytes,
            tx_bytes: self.tx_bytes,
            rx_overflows: self.rx_overflows,
            tx_overflows: self.tx_overflows,
            rx_errors: self.rx_errors,
            rx_pending: self.rx.len(),
            tx_pending: self.tx.len(),
        }
    }

    /// Route log output: once the application UART is up the bytes are
    /// queued (`Some` of how many were), before that the caller writes them
    /// to the boot console itself (`None`).
    pub fn log_bytes(&mut self, sched: &mut Scheduler, bytes: &[u8], now: u32) -> (r: Option<usize>)
        requires
            old(self).wf(),
            old(sched).wf(),
        ensures
            final(self).wf(),
            final(sched).wf(),
            !old(self).ready ==> r is None && *final(self) == *old(self) && final(sched)@ == old(sched)@,
            old(self).ready ==> (r matches Some(w) && enqueue_tx_post(
                *old(self),
                *final(self),
                old(sched)@,
                final(sched)@,
                bytes@,
                w,
                now,
            )),
    {
        proof {
            self.tx.lemma_len_bound();
        }
        if self.ready {
            Some(self.app_enqueue_tx_bytes(sched, bytes, now))
        } else {
            None
        }
    }

    /// Account for one serviced receive status (not `Idle`) and the data
    /// register read that went with it.  A receive error is counted and
    /// throws away the whole line it hit: the bytes of that line still in
    /// the ring are taken back, the rest of the line up to and including its
    /// `\n` is skipped, and when the receiving task may already hold the
    /// start of the line it is told to throw that away.  A clean byte
    /// outside such a line is queued, or counted as an overflow when the ring
    /// is full.  Returns whether a byte was queued.
    pub fn service_rx(&mut self, status: u32, data: u8) -> (queued: bool)
        requires
            old(self).wf(),
            spec_rx_status_kind(status) != RxStatusKind::Idle,
        ensures
            final(self).wf(),
            spec_rx_status_kind(status) == RxStatusKind::Error ==> {
                &&& !queued
                &&& final(self).rx@ == keep_through_last(old(self).rx@, 10u8)
                &&& final(self).rx_errors == old(self).rx_errors.wrapping_add(1)
                &&& final(self).rx_discarding
                &&& final(self).rx_line_reset == (old(self).rx_line_reset || !old(self).rx@.contains(10u8))
                &&& final(self).rx_bytes == old(self).rx_bytes
                &&& final(self).rx_overflows == old(self).rx_overflows
            },
            spec_rx_status_kind(status) == RxStatusKind::Data && old(self).rx_discarding ==> {
                &&& !queued
                &&& final(self).rx@ == old(self).rx@
                &&& final(self).rx_discarding == (data != 10u8)
                &&& final(self).rx_line_reset == old(self).rx_line_reset
                &&& final(self).rx_bytes == old(self).rx_bytes
                &&& final(self).rx_overflows == old(self).rx_overflows
                &&& final(self).rx_errors == old(self).rx_errors
            },
            spec_rx_status_kind(status) == RxStatusKind::Data && !old(self).rx_discarding ==> {
                &&& queued == (old(self).rx@.len() < RX_BUF_SIZE)
                &&& queued ==> final(self).rx@ == old(self).rx@.push(data) && final(self).rx_bytes
                    == old(self).rx_bytes.wrapping_add(1) && final(self).rx_overflows == old(self).rx_overflows
                &&& !queued ==> final(self).rx@ == old(self).rx@ && final(self).rx_bytes == old(self).rx_bytes
                    && final(self).rx_overflows == old(self).rx_overflows.wrapping_add(1)
                &&& final(self).rx_errors == old(self).rx_errors
                &&& !final(self).rx_discarding
                &&& final(self).rx_line_reset == old(self).rx_line_reset
            },
            spec_rx_status_kind(status) == RxStatusKind::Error ==> rx_model(*final(self)) == rx_on_error(
                rx_model(*old(self)),
            ),
            spec_rx_status_kind(status) == RxStatusKind::Data ==> (rx_model(*final(self)), queued)
                == rx_on_data(rx_model(*old(self)), data),
            final(self).tx@ == old(self).tx@,
            final(self).ready == old(self).ready,
            final(self).tx_bytes == old(self).tx_bytes,
            final(self).tx_overflows == old(self).tx_overflows,
            final(self).rx_event.model() == old(self).rx_event.model(),
            final(self).tx_event.model() == old(self).tx_event.model(),
    {
        proof {
            self.rx.lemma_len_bound();
        }
        match rx_status_kind(status) {
            RxStatusKind::Error => {
                self.rx_errors = self.rx_errors.wrapping_add(1);
                let had_line_end = self.rx.cut_back_to(10u8);
                if !had_line_end {
                    self.rx_line_reset = true;
                }
                self.rx_discarding = true;
                false
            },
            _ => {
                if self.rx_discarding {
                    if data == 10u8 {
                        self.rx_discarding = false;
                    }
                    false
                } else if self.rx.push(data).is_ok() {
                    self.rx_bytes = self.rx_bytes.wrapping_add(1);
                    true
                } else {
                    self.rx_overflows = self.rx_overflows.wrapping_add(1);
                    false
                }
            },
        }
    }

    /// Whether the receiving task must throw away the part of a line it has
    /// taken so far; the request is cleared.
    pub fn app_take_line_reset(&mut self) -> (reset: bool)
        requires
            old(self).wf(),
        ensures
            final(self).wf(),
            reset == old(self).rx_line_reset,
            !final(self).rx_line_reset,
            final(self).rx_discarding == old(self).rx_discarding,
            final(self).rx@ == old(self).rx@ && final(self).tx@ == old(self).tx@,
            final(self).rx_event.model() == old(self).rx_event.model(),
            final(self).tx_event.model() == old(self).tx_event.model(),
            final(self).ready == old(self).ready,
            final(self).rx_bytes == old(self).rx_bytes && final(self).tx_bytes == old(self).tx_bytes,
            final(self).rx_overflows == old(self).rx_overflows,
            final(self).tx_overflows == old(self).tx_overflows,
            final(self).rx_errors == old(self).rx_errors,
    {
        let reset = self.rx_line_reset;
        self.rx_line_reset = false;
        reset
    }

    /// End of a receive interrupt: when any byte was queued, waiting tasks
    /// are woken through the receive event.
    pub fn finish_rx_irq(&mut self, sched: &mut Scheduler, received: bool, now: u32)
        requires
            old(self).wf(),
            old(sched).wf(),
        ensures
            final(self).wf(),
            received ==> (final(self).rx_event.model(), final(sched)@) == (
                m_event_set(old(self).rx_event.model(), old(sched)@, now).0,
                m_event_set(old(self).rx_event.model(), old(sched)@, now).1,
            ),
            !received ==> final(self).rx_event.model() == old(self).rx_event.model() && final(sched)@
                == old(sched)@,
            final(self).rx@ == old(self).rx@ && final(self).tx@ == old(self).tx@,
            final(self).tx_event.model() == old(self).tx_event.model(),
            counters_unchanged(*old(self), *final(self)),
    {
        if received {
            let _ = self.rx_event.set(sched, now);
        }
    }
}

} // verus!
