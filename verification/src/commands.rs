use vstd::prelude::*;

use crate::board::{Controls, spec_pwm_compare};
use crate::mqueue::{MsgQueue, MsgQueueError};
use crate::uart::{RxLineModel, UartPort, rx_model};
use crate::protocol::{
    AssemblerModel, EventModel, spec_push_byte, CommandModel, LedCommand, LineAssembler, LineAssemblerEvent, MAX_LINE_LEN, ParseError,
    ParsedCommand, parse_command, result_model, spec_parse_command,
};

verus! {

/// Number of command buffers (and capacity of the command queue).
pub const CMD_POOL_DEPTH: usize = 8;

/// One buffered command line.
#[derive(Clone, Copy)]
pub struct CommandSlot {
    pub in_use: bool,
    pub len: usize,
    pub bytes: [u8; MAX_LINE_LEN],
}

/// The line held by a slot, if it is in use.
pub open spec fn slot_content(s: CommandSlot) -> Option<Seq<u8>> {
    if s.in_use {
        Some(s.bytes@.take(s.len as int))
    } else {
        None
    }
}

/// Lowest free slot at or above `i`.
pub open spec fn first_free_slot(pool: Seq<Option<Seq<u8>>>, i: int) -> Option<usize>
    decreases CMD_POOL_DEPTH - i,
{
    if i < 0 || i >= CMD_POOL_DEPTH {
        None
    } else if pool[i] is None {
        Some(i as usize)
    } else {
        first_free_slot(pool, i + 1)
    }
}

proof fn lemma_first_free_slot(pool: Seq<Option<Seq<u8>>>, i: int)
    requires
        0 <= i <= CMD_POOL_DEPTH,
    ensures
        match first_free_slot(pool, i) {
            Some(k) => i <= k < CMD_POOL_DEPTH && pool[k as int] is None && forall|j: int|
                i <= j < k ==> pool[j] is Some,
            None => forall|j: int| i <= j < CMD_POOL_DEPTH ==> pool[j] is Some,
        },
    decreases CMD_POOL_DEPTH - i,
{
    if i < CMD_POOL_DEPTH {
        lemma_first_free_slot(pool, i + 1);
    }
}

/// Fixed pool of command line buffers.
pub struct CommandPool {
    pub slots: [CommandSlot; CMD_POOL_DEPTH],
}

impl View for CommandPool {
    type V = Seq<Option<Seq<u8>>>;

    open spec fn view(&self) -> Seq<Option<Seq<u8>>> {
        self.slots@.map_values(|s: CommandSlot| slot_content(s))
    }
}

impl CommandPool {
    pub open spec fn wf(&self) -> bool {
        forall|i: int| 0 <= i < CMD_POOL_DEPTH ==> #[trigger] self.slots@[i].len <= MAX_LINE_LEN
    }

    /// All slots free.
    pub fn new() -> (p: Self)
        ensures
            p.wf(),
            p@ == Seq::new(CMD_POOL_DEPTH as nat, |i: int| None::<Seq<u8>>),
    {
        let empty = CommandSlot { in_use: false, len: 0, bytes: [0u8; MAX_LINE_LEN] };
        let p = CommandPool { slots: [empty; CMD_POOL_DEPTH] };
        proof {
            assert(p@ =~= Seq::new(CMD_POOL_DEPTH as nat, |i: int| None::<Seq<u8>>));
        }
        p
    }

    /// Copy `bytes` into the lowest free slot and return its index; `None`
    /// when every slot is in use.
    pub fn alloc_command_slot(&mut self, bytes: &[u8]) -> (r: Option<usize>)
        requires
            old(self).wf(),
            bytes@.len() <= MAX_LINE_LEN,
        ensures
            final(self).wf(),
            r == first_free_slot(old(self)@, 0),
            match r {
                Some(i) => final(self)@ == old(self)@.update(i as int, Some(bytes@)),
                None => final(self)@ == old(self)@,
            },
    {
        proof {
            lemma_first_free_slot(self@, 0);
        }
        let mut idx: usize = 0;
        while idx < CMD_POOL_DEPTH
            invariant
                0 <= idx <= CMD_POOL_DEPTH,
                self.wf(),
                *self == *old(self),
                bytes@.len() <= MAX_LINE_LEN,
                forall|j: int| 0 <= j < idx ==> self@[j] is Some,
                first_free_slot(self@, 0) == first_free_slot(self@, idx as int),
            decreases CMD_POOL_DEPTH - idx,
        {
            if !self.slots[idx].in_use {
                let n = bytes.len();
                let mut slot = self.slots[idx];
                slot.in_use = true;
                slot.len = n;
                let mut j: usize = 0;
                while j < n
                    invariant
                        0 <= j <= n,
                        n == bytes@.len(),
                        n <= MAX_LINE_LEN,
                        slot.bytes@.len() == MAX_LINE_LEN,
                        slot.in_use,
                        slot.len == n,
                        slot.bytes@.take(j as int) == bytes@.take(j as int),
                    decreases n - j,
                {
                    slot.bytes[j] = bytes[j];
                    proof {
                        assert(slot.bytes@.take(j + 1) =~= bytes@.take(j + 1));
                    }
                    j = j + 1;
                }
                self.slots[idx] = slot;
                proof {
                    assert(bytes@.take(n as int) =~= bytes@);
                    assert(self@ =~= old(self)@.update(idx as int, Some(bytes@)));
                }
                return Some(idx);
            }
            proof {
                assert(self@[idx as int] == slot_content(self.slots@[idx as int]));
            }
            idx = idx + 1;
        }
        None
    }

    /// Copy the line of slot `slot_idx` into `out`, free the slot, and
    /// return the line's length; `None` (nothing changed) for an index out
    /// of range or a free slot.
    pub fn take_command(&mut self, slot_idx: usize, out: &mut [u8; MAX_LINE_LEN]) -> (r: Option<usize>)
        requires
            old(self).wf(),
        ensures
            final(self).wf(),
            (slot_idx >= CMD_POOL_DEPTH || old(self)@[slot_idx as int] is None) ==> r is None
                && final(self)@ == old(self)@ && final(out)@ == old(out)@,
            slot_idx < CMD_POOL_DEPTH && old(self)@[slot_idx as int] is Some ==> ({
                let line = old(self)@[slot_idx as int]->0;
                &&& r == Some(line.len() as usize)
                &&& final(out)@ == line + old(out)@.skip(line.len() as int)
                &&& final(self)@ == old(self)@.update(slot_idx as int, None)
            }),
    {
        if slot_idx >= CMD_POOL_DEPTH {
            return None;
        }
        let mut slot = self.slots[slot_idx];
        if !slot.in_use {
            return None;
        }
        let len = if slot.len < MAX_LINE_LEN {
            slot.len
        } else {
            MAX_LINE_LEN
        };
        let mut j: usize = 0;
        while j < len
            invariant
                0 <= j <= len,
                len == slot.len,
                len <= MAX_LINE_LEN,
                slot.bytes@.len() == MAX_LINE_LEN,
                out@.len() == MAX_LINE_LEN,
                out@.take(j as int) == slot.bytes@.take(j as int),
                forall|k: int| j <= k < MAX_LINE_LEN ==> out@[k] == old(out)@[k],
            decreases len - j,
        {
            out[j] = slot.bytes[j];
            proof {
                assert(out@.take(j + 1) =~= slot.bytes@.take(j + 1));
            }
            j = j + 1;
        }
        proof {
            assert(out@.skip(len as int) =~= old(out)@.skip(len as int));
        }
        slot.in_use = false;
        slot.len = 0;
        self.slots[slot_idx] = slot;
        proof {
            assert(out@ =~= out@.take(len as int) + out@.skip(len as int));
            assert(self@ =~= old(self)@.update(slot_idx as int, None));
        }
        Some(len)
    }

    /// Release slot `slot_idx` (nothing happens for an index out of range).
    pub fn free_command_slot(&mut self, slot_idx: usize)
        requires
            old(self).wf(),
        ensures
            final(self).wf(),
            slot_idx >= CMD_POOL_DEPTH ==> final(self)@ == old(self)@,
            slot_idx < CMD_POOL_DEPTH ==> final(self)@ == old(self)@.update(slot_idx as int, None),
    {
        if slot_idx < CMD_POOL_DEPTH {
            let mut slot = self.slots[slot_idx];
            slot.in_use = false;
            slot.len = 0;
            self.slots[slot_idx] = slot;
            proof {
                assert(self@ =~= old(self)@.update(slot_idx as int, None));
            }
        }
    }
}

/// The pool and the queue agree: the queue holds distinct slot indices,
/// and a slot is in use exactly when its index is queued.
pub open spec fn pool_matches_queue(pool: Seq<Option<Seq<u8>>>, queue: Seq<usize>) -> bool {
    &&& pool.len() == CMD_POOL_DEPTH
    &&& queue.no_duplicates()
    &&& forall|j: int| 0 <= j < queue.len() ==> #[trigger] queue[j] < CMD_POOL_DEPTH
    &&& forall|i: int| 0 <= i < CMD_POOL_DEPTH ==> (#[trigger] pool[i] is Some <==> queue.contains(
        i as usize,
    ))
}

/// Command lines travelling from the receive task to the command task:
/// the line buffers, the queue of filled buffers, and drop counters.
pub struct CommandChannel {
    pub pool: CommandPool,
    pub queue: MsgQueue<CMD_POOL_DEPTH>,
    pub line_drops: u32,
    pub cmd_drops: u32,
}

/// The receiving task takes the next byte, if any, from the port into its
/// assembler, first throwing away the line it has started when the port
/// asks for it: the receive side and assembler afterwards, and the event the
/// byte gave (none when the ring was empty).
pub open spec fn rx_take(r: RxLineModel, a: AssemblerModel) -> (RxLineModel, AssemblerModel, Option<EventModel>) {
    let a0 = if r.line_reset {
        AssemblerModel { len: 0, dropping: false, ..a }
    } else {
        a
    };
    if r.ring.len() == 0 {
        (RxLineModel { line_reset: false, ..r }, a0, None)
    } else {
        let (a1, e) = spec_push_byte(a0, MAX_LINE_LEN as nat, r.ring[0]);
        (RxLineModel { ring: r.ring.drop_first(), line_reset: false, ..r }, a1, Some(e))
    }
}

/// What taking an assembler event does to the channel: a dropped line is
/// counted; a complete line is buffered and queued, or counted as a dropped
/// command when no buffer or queue place is free.
pub open spec fn accept_post(c0: CommandChannel, c1: CommandChannel, ev: crate::protocol::EventModel) -> bool {
    match ev {
        crate::protocol::EventModel::NoEvent => c1.pool@ == c0.pool@ && c1.queue@ == c0.queue@
            && c1.line_drops == c0.line_drops && c1.cmd_drops == c0.cmd_drops,
        crate::protocol::EventModel::Dropped => c1.pool@ == c0.pool@ && c1.queue@ == c0.queue@
            && c1.line_drops == c0.line_drops.wrapping_add(1) && c1.cmd_drops == c0.cmd_drops,
        crate::protocol::EventModel::Line(line) => {
            let ok = first_free_slot(c0.pool@, 0) is Some && c0.queue@.len() < CMD_POOL_DEPTH;
            &&& ok ==> c1.pool@ == c0.pool@.update(first_free_slot(c0.pool@, 0)->0 as int, Some(line))
                && c1.queue@ == c0.queue@.push(first_free_slot(c0.pool@, 0)->0) && c1.cmd_drops
                == c0.cmd_drops
            &&& !ok ==> c1.pool@ == c0.pool@ && c1.queue@ == c0.queue@ && c1.cmd_drops
                == c0.cmd_drops.wrapping_add(1)
            &&& c1.line_drops == c0.line_drops
        },
    }
}

impl CommandChannel {
    pub open spec fn wf(&self) -> bool {
        &&& self.pool.wf()
        &&& self.queue.wf()
        &&& pool_matches_queue(self.pool@, self.queue@)
    }

    pub fn new() -> (c: Self)
        ensures
            c.wf(),
            c.pool@ == Seq::new(CMD_POOL_DEPTH as nat, |i: int| None::<Seq<u8>>),
            c.queue@ == Seq::<usize>::empty(),
            c.line_drops == 0 && c.cmd_drops == 0,
    {
        let c = CommandChannel { pool: CommandPool::new(), queue: MsgQueue::new(), line_drops: 0, cmd_drops: 0 };
        proof {
            assert forall|i: int| 0 <= i < CMD_POOL_DEPTH implies (#[trigger] c.pool@[i] is Some
                <==> c.queue@.contains(i as usize)) by {
                assert(!c.queue@.contains(i as usize));
            }
        }
        c
    }

    /// Buffer a command line and queue it; `false` (nothing changed) when no
    /// buffer is free or the queue is full.
    pub fn enqueue_command(&mut self, bytes: &[u8]) -> (queued: bool)
        requires
            old(self).wf(),
            bytes@.len() <= MAX_LINE_LEN,
        ensures
            final(self).wf(),
            queued == (first_free_slot(old(self).pool@, 0) is Some && old(self).queue@.len()
                < CMD_POOL_DEPTH),
            queued ==> ({
                let i = first_free_slot(old(self).pool@, 0)->0;
                &&& final(self).pool@ == old(self).pool@.update(i as int, Some(bytes@))
                &&& final(self).queue@ == old(self).queue@.push(i)
            }),
            !queued ==> final(self).pool@ == old(self).pool@ && final(self).queue@ == old(self).queue@,
            final(self).line_drops == old(self).line_drops,
            final(self).cmd_drops == old(self).cmd_drops,
    {
        proof {
            lemma_first_free_slot(self.pool@, 0);
        }
        let slot_idx = match self.pool.alloc_command_slot(bytes) {
            Some(i) => i,
            None => {
                return false;
            },
        };
        proof {
            self.queue.lemma_len_bound();
        }
        match self.queue.send(slot_idx) {
            Ok(()) => {
                proof {
                    let q0 = old(self).queue@;
                    let q1 = self.queue@;
                    assert(q1 == q0.push(slot_idx));
                    assert(old(self).pool@[slot_idx as int] is None);
                    assert(!q0.contains(slot_idx));
                    assert forall|a: int, b: int| 0 <= a < b < q1.len() implies q1[a] != q1[b] by {
                        if b == q1.len() - 1 {
                            assert(q1[a] == q0[a]);
                            assert(q0.contains(q0[a]));
                        } else {
                            assert(q1[a] == q0[a] && q1[b] == q0[b]);
                        }
                    }
                    assert forall|i: int| 0 <= i < CMD_POOL_DEPTH implies (#[trigger] self.pool@[i] is Some
                        <==> self.queue@.contains(i as usize)) by {
                        if i == slot_idx {
                            assert(q1[q0.len() as int] == slot_idx);
                        } else {
                            assert(self.pool@[i] == old(self).pool@[i]);
                            if q1.contains(i as usize) {
                                let k = choose|k: int| 0 <= k < q1.len() && q1[k] == i as usize;
                                assert(k < q0.len());
                                assert(q0[k] == i as usize);
                            }
                            if q0.contains(i as usize) {
                                let k = choose|k: int| 0 <= k < q0.len() && q0[k] == i as usize;
                                assert(q1[k] == i as usize);
                            }
                        }
                    }
                }
                true
            },
            Err(MsgQueueError::Full) => {
                self.pool.free_command_slot(slot_idx);
                proof {
                    assert(self.pool@ =~= old(self).pool@);
                }
                false
            },
        }
    }

    /// Take the oldest queued command: `None` when the queue is empty,
    /// otherwise the line is copied into `out`, its buffer freed, and its
    /// length returned.
    pub fn recv_command(&mut self, out: &mut [u8; MAX_LINE_LEN]) -> (r: Option<usize>)
        requires
            old(self).wf(),
        ensures
            final(self).wf(),
            old(self).queue@.len() == 0 ==> r is None && final(self).queue@ == old(self).queue@
                && final(self).pool@ == old(self).pool@ && final(out)@ == old(out)@,
            old(self).queue@.len() > 0 ==> ({
                let i = old(self).queue@[0];
                let line = old(self).pool@[i as int]->0;
                &&& r == Some(line.len() as usize)
                &&& final(out)@ == line + old(out)@.skip(line.len() as int)
                &&& final(self).queue@ == old(self).queue@.drop_first()
                &&& final(self).pool@ == old(self).pool@.update(i as int, None)
            }),
            final(self).line_drops == old(self).line_drops,
            final(self).cmd_drops == old(self).cmd_drops,
    {
        let ghost q0 = self.queue@;
        match self.queue.recv() {
            None => None,
            Some(slot_idx) => {
                proof {
                    assert(q0.contains(slot_idx));
                    assert(q0[0] == slot_idx);
                }
                let r = self.pool.take_command(slot_idx, out);
                proof {
                    let q1 = self.queue@;
                    assert(q1 =~= q0.drop_first());
                    assert forall|a: int, b: int| 0 <= a < b < q1.len() implies q1[a] != q1[b] by {
                        assert(q1[a] == q0[a + 1] && q1[b] == q0[b + 1]);
                    }
                    assert forall|i: int| 0 <= i < CMD_POOL_DEPTH implies (#[trigger] self.pool@[i] is Some
                        <==> self.queue@.contains(i as usize)) by {
                        if q1.contains(i as usize) {
                            let k = choose|k: int| 0 <= k < q1.len() && q1[k] == i as usize;
                            assert(q0[k + 1] == i as usize);
                            assert(q0.contains(i as usize));
                            assert(i as usize != slot_idx);
                        }
                        if i as usize != slot_idx && q0.contains(i as usize) {
                            let k = choose|k: int| 0 <= k < q0.len() && q0[k] == i as usize;
                            assert(k != 0);
                            assert(q1[k - 1] == i as usize);
                        }
                    }
                }
                r
            },
        }
    }

    /// Feed one received byte to the line assembler: a dropped (overlong)
    /// line and a complete line that cannot be queued are each counted.
    pub fn accept_rx_byte(&mut self, assembler: &mut LineAssembler<MAX_LINE_LEN>, byte: u8)
        requires
            old(self).wf(),
            old(assembler).wf(),
        ensures
            final(self).wf(),
            final(assembler).wf(),
            final(assembler).model() == crate::protocol::spec_push_byte(
                old(assembler).model(),
                MAX_LINE_LEN as nat,
                byte,
            ).0,
            accept_post(
                *old(self),
                *final(self),
                crate::protocol::spec_push_byte(old(assembler).model(), MAX_LINE_LEN as nat, byte).1,
            ),
    {
        match assembler.push_byte(byte) {
            LineAssemblerEvent::NoEvent => {},
            LineAssemblerEvent::Dropped => {
                self.line_drops = self.line_drops.wrapping_add(1);
            },
            LineAssemblerEvent::Line(line) => {
                if !self.enqueue_command(line.as_bytes()) {
                    self.cmd_drops = self.cmd_drops.wrapping_add(1);
                }
            },
        }
    }

    /// Move the next received byte, if any, from the port into the line
    /// assembler.  When the port asks for it (a receive error hit the line
    /// being collected), the assembler first throws that line away.  Returns
    /// whether a byte was taken.
    pub fn pump_rx(&mut self, uart: &mut UartPort, assembler: &mut LineAssembler<MAX_LINE_LEN>) -> (got: bool)
        requires
            old(self).wf(),
            old(uart).wf(),
            old(assembler).wf(),
        ensures
            final(self).wf(),
            final(uart).wf(),
            final(assembler).wf(),
            got == (old(uart).rx@.len() > 0),
            !final(uart).rx_line_reset,
            final(uart).rx@ == (if got { old(uart).rx@.drop_first() } else { old(uart).rx@ }),
            ({
                let a0 = if old(uart).rx_line_reset {
                    AssemblerModel { len: 0, dropping: false, ..old(assembler).model() }
                } else {
                    old(assembler).model()
                };
                &&& !got ==> final(assembler).model() == a0 && accept_post(
                    *old(self),
                    *final(self),
                    EventModel::NoEvent,
                )
                &&& got ==> final(assembler).model() == spec_push_byte(
                    a0,
                    MAX_LINE_LEN as nat,
                    old(uart).rx@[0],
                ).0 && accept_post(
                    *old(self),
                    *final(self),
                    spec_push_byte(a0, MAX_LINE_LEN as nat, old(uart).rx@[0]).1,
                )
            }),
            ({
                let (r1, a1, e) = rx_take(rx_model(*old(uart)), old(assembler).model());
                &&& rx_model(*final(uart)) == r1
                &&& final(assembler).model() == a1
                &&& got == e is Some
            }),
            final(uart).tx@ == old(uart).tx@,
            final(uart).rx_event.model() == old(uart).rx_event.model(),
            final(uart).tx_event.model() == old(uart).tx_event.model(),
            final(uart).ready == old(uart).ready,
            final(uart).rx_discarding == old(uart).rx_discarding,
            final(uart).rx_bytes == old(uart).rx_bytes && final(uart).tx_bytes == old(uart).tx_bytes,
            final(uart).rx_overflows == old(uart).rx_overflows,
            final(uart).tx_overflows == old(uart).tx_overflows,
            final(uart).rx_errors == old(uart).rx_errors,
    {
        if uart.app_take_line_reset() {
            assembler.reset();
        }
        match uart.app_read_byte() {
            Some(byte) => {
                self.accept_rx_byte(assembler, byte);
                true
            },
            None => false,
        }
    }
}

} // verus!

verus! {

/// The UTF-8 decoding of a byte string, when it is valid UTF-8.
pub uninterp spec fn utf8_decode(bytes: Seq<u8>) -> Option<Seq<char>>;

/// `core::str::from_utf8`: the text of `bytes` when they are valid UTF-8.
/// The contract only names the outcome (`utf8_decode`); which byte strings
/// are valid and how they decode is what the standard library decides.
#[verifier::external_body]
fn str_from_utf8(bytes: &[u8]) -> (r: Option<&str>)
    ensures
        match r {
            Some(s) => utf8_decode(bytes@) == Some(s@),
            None => utf8_decode(bytes@) is None,
        },
{
    match core::str::from_utf8(bytes) {
        Ok(s) => Some(s),
        Err(_) => None,
    }
}

/// What the command task answers to one line.
#[derive(Clone, Copy, Debug, PartialEq, Eq)]
pub enum CommandReply<'a> {
    /// Nothing (an empty line).
    Silent,
    /// A fixed reply line.
    Text(&'static str),
    /// The argument of an `ECHO`, sent back as is.
    Echo(&'a str),
    /// The full status report (`STAT`), which the caller renders.
    StatReport,
}

pub enum ReplyModel {
    Silent,
    Text(Seq<char>),
    Echo(Seq<char>),
    StatReport,
}

pub open spec fn reply_model(r: CommandReply) -> ReplyModel {
    match r {
        CommandReply::Silent => ReplyModel::Silent,
        CommandReply::Text(t) => ReplyModel::Text(t@),
        CommandReply::Echo(a) => ReplyModel::Echo(a@),
        CommandReply::StatReport => ReplyModel::StatReport,
    }
}

/// LED command: the controls after it and the reply.
pub open spec fn spec_led_command(c: Controls, cmd: LedCommand) -> (Controls, Seq<char>) {
    if !c.led_ready {
        (c, "ERR led_unavailable"@)
    } else {
        match cmd {
            LedCommand::On => (Controls { pc13_high: false, pa1_high: true, ..c }, "OK"@),
            LedCommand::Off => (Controls { pc13_high: true, pa1_high: false, ..c }, "OK"@),
            LedCommand::Toggle => (Controls { pc13_high: !c.pc13_high, pa1_high: !c.pa1_high, ..c }, "OK"@),
        }
    }
}

/// PWM command: the controls after it and the reply.
pub open spec fn spec_pwm_command(c: Controls, percent: u8) -> (Controls, Seq<char>) {
    if !c.pwm_ready {
        (c, "ERR pwm_unavailable"@)
    } else {
        (Controls { pwm_ccr: spec_pwm_compare(percent), ..c }, "OK"@)
    }
}

/// A decoded line (`None`: not valid UTF-8): the controls after it and the
/// reply.
pub open spec fn spec_handle_text(c: Controls, text: Option<Seq<char>>) -> (Controls, ReplyModel) {
    match text {
        None => (c, ReplyModel::Text("ERR utf8"@)),
        Some(t) => match spec_parse_command(t) {
            Ok(CommandModel::Ping) => (c, ReplyModel::Text("PONG"@)),
            Ok(CommandModel::Echo(a)) => (c, ReplyModel::Echo(a)),
            Ok(CommandModel::Led(cmd)) => (spec_led_command(c, cmd).0, ReplyModel::Text(spec_led_command(c, cmd).1)),
            Ok(CommandModel::Pwm(p)) => (spec_pwm_command(c, p).0, ReplyModel::Text(spec_pwm_command(c, p).1)),
            Ok(CommandModel::Stat) => (c, ReplyModel::StatReport),
            Err(ParseError::Empty) => (c, ReplyModel::Silent),
            Err(ParseError::Unknown) => (c, ReplyModel::Text("ERR unknown"@)),
            Err(ParseError::InvalidLed) => (c, ReplyModel::Text("ERR led"@)),
            Err(ParseError::InvalidPwm) => (c, ReplyModel::Text("ERR pwm"@)),
        },
    }
}

pub fn handle_led_command(controls: &mut Controls, command: LedCommand) -> (reply: &'static str)
    ensures
        (*final(controls), reply@) == spec_led_command(*old(controls), command),
{
    let ok = match command {
        LedCommand::On => controls.set_led(true),
        LedCommand::Off => controls.set_led(false),
        LedCommand::Toggle => controls.toggle_led(),
    };
    if !ok {
        "ERR led_unavailable"
    } else {
        "OK"
    }
}

pub fn handle_pwm_command(controls: &mut Controls, percent: u8) -> (reply: &'static str)
    ensures
        (*final(controls), reply@) == spec_pwm_command(*old(controls), percent),
{
    if !controls.set_pwm_percent(percent) {
        "ERR pwm_unavailable"
    } else {
        "OK"
    }
}

/// Act on a decoded command line (`None`: the bytes were not UTF-8).
pub fn handle_text_command<'a>(controls: &mut Controls, text: Option<&'a str>) -> (reply: CommandReply<'a>)
    ensures
        (*final(controls), reply_model(reply)) == spec_handle_text(
            *old(controls),
            match text {
                Some(t) => Some(t@),
                None => None,
            },
        ),
{
    let t = match text {
        Some(t) => t,
        None => {
            return CommandReply::Text("ERR utf8");
        },
    };
    let parsed = parse_command(t);
    match parsed {
        Ok(ParsedCommand::Ping) => CommandReply::Text("PONG"),
        Ok(ParsedCommand::Echo(arg)) => CommandReply::Echo(arg),
        Ok(ParsedCommand::Led(cmd)) => CommandReply::Text(handle_led_command(controls, cmd)),
        Ok(ParsedCommand::Pwm(percent)) => CommandReply::Text(handle_pwm_command(controls, percent)),
        Ok(ParsedCommand::Stat) => CommandReply::StatReport,
        Err(ParseError::Empty) => CommandReply::Silent,
        Err(ParseError::Unknown) => CommandReply::Text("ERR unknown"),
        Err(ParseError::InvalidLed) => CommandReply::Text("ERR led"),
        Err(ParseError::InvalidPwm) => CommandReply::Text("ERR pwm"),
    }
}

/// Act on one received command line.
pub fn handle_command<'a>(controls: &mut Controls, line: &'a [u8]) -> (reply: CommandReply<'a>)
    ensures
        (*final(controls), reply_model(reply)) == spec_handle_text(*old(controls), utf8_decode(line@)),
{
    let text = str_from_utf8(line);
    handle_text_command(controls, text)
}

} // verus!
