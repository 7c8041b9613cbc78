use vstd::prelude::*;

verus! {

/// Capacity of the probe's line buffer.
pub const PROBE_LINE_LEN: usize = 128;

/// What one received byte makes the probe do.
#[derive(Clone, Copy, Debug, PartialEq, Eq, Structural)]
pub enum ProbeAction {
    /// Nothing to send.
    Quiet,
    /// Echo the buffered line (its first `len` bytes) back.
    EchoLine(usize),
    /// Report that the line was too long (it is discarded).
    Overflow,
}

/// Line echo of the standalone UART probe: bytes are collected until a
/// carriage return or line feed; a line longer than the buffer is dropped
/// with an overflow report.
pub struct ProbeLine {
    pub buf: [u8; PROBE_LINE_LEN],
    pub len: usize,
}

impl ProbeLine {
    pub open spec fn wf(&self) -> bool {
        self.len <= PROBE_LINE_LEN
    }

    /// The bytes of the line being collected.
    pub open spec fn line(&self) -> Seq<u8> {
        self.buf@.take(self.len as int)
    }

    pub fn new() -> (p: Self)
        ensures
            p.wf(),
            p.len == 0,
            p.buf@ == Seq::new(PROBE_LINE_LEN as nat, |i: int| 0u8),
    {
        let p = ProbeLine { buf: [0u8; PROBE_LINE_LEN], len: 0 };
        proof {
            vstd::array::array_len_matches_n(&p.buf);
            assert(p.buf@ =~= Seq::new(PROBE_LINE_LEN as nat, |i: int| 0u8));
        }
        p
    }

    /// Take one received byte.  A line end echoes the line collected so far
    /// (if any) and starts a new one; another byte is appended, or, when the
    /// buffer is full, the line is discarded and an overflow reported.
    pub fn push_byte(&mut self, byte: u8) -> (a: ProbeAction)
        requires
            old(self).wf(),
        ensures
            final(self).wf(),
            (byte == 13u8 || byte == 10u8) && old(self).len != 0 ==> a == ProbeAction::EchoLine(
                old(self).len as usize,
            ) && final(self).line() == Seq::<u8>::empty() && final(self).buf@ == old(self).buf@,
            (byte == 13u8 || byte == 10u8) && old(self).len == 0 ==> a == ProbeAction::Quiet && final(self).line() == Seq::<u8>::empty(),
            !(byte == 13u8 || byte == 10u8) && old(self).len < PROBE_LINE_LEN ==> a == ProbeAction::Quiet
                && final(self).line() == old(self).line().push(byte),
            !(byte == 13u8 || byte == 10u8) && old(self).len >= PROBE_LINE_LEN ==> a == ProbeAction::Overflow
                && final(self).line() == Seq::<u8>::empty(),
    {
        proof {
            vstd::array::array_len_matches_n(&self.buf);
        }
        if byte == 13u8 || byte == 10u8 {
            if self.len != 0 {
                let n = self.len;
                self.len = 0;
                return ProbeAction::EchoLine(n);
            }
            return ProbeAction::Quiet;
        }
        if self.len < PROBE_LINE_LEN {
            let ghost before = self.line();
            self.buf[self.len] = byte;
            self.len = self.len + 1;
            proof {
                assert(self.line() =~= before.push(byte));
            }
            ProbeAction::Quiet
        } else {
            self.len = 0;
            ProbeAction::Overflow
        }
    }
}

/// Advance a free-running loop counter: it wraps to 0 (and fires) on
/// reaching `limit`.
pub fn count_to(counter: u32, limit: u32) -> (r: (u32, bool))
    ensures
        ({
            let next = counter.wrapping_add(1);
            r == if next >= limit { (0u32, true) } else { (next, false) }
        }),
{
    let next = counter.wrapping_add(1);
    if next >= limit {
        (0, true)
    } else {
        (next, false)
    }
}

} // verus!
