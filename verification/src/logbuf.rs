use vstd::prelude::*;

verus! {

/// Capacity of the log line buffer.
pub const LOG_BUF_SIZE: usize = 256;

/// Line buffer of the logger: output is collected and handed on a line at a
/// time, or whenever the buffer fills up.
pub struct LogBuffer {
    len: usize,
    buf: [u8; LOG_BUF_SIZE],
}

impl View for LogBuffer {
    type V = Seq<u8>;

    /// The bytes waiting to be handed on.
    closed spec fn view(&self) -> Seq<u8> {
        self.buf@.take(self.len as int)
    }
}

impl LogBuffer {
    pub closed spec fn wf(&self) -> bool {
        &&& self.len <= LOG_BUF_SIZE
        &&& self.buf@.len() == LOG_BUF_SIZE
    }

    pub fn new() -> (b: Self)
        ensures
            b.wf(),
            b@ == Seq::<u8>::empty(),
    {
        let b = LogBuffer { len: 0, buf: [0u8; LOG_BUF_SIZE] };
        proof {
            assert(b@ =~= Seq::<u8>::empty());
        }
        b
    }

    /// The buffer cannot take another byte before it is handed on.
    pub fn is_full(&self) -> (full: bool)
        requires
            self.wf(),
        ensures
            full == (self@.len() == LOG_BUF_SIZE),
    {
        self.len == LOG_BUF_SIZE
    }

    /// Append one byte; the result tells whether it ended a line, so that
    /// the buffer is to be handed on now.
    pub fn push(&mut self, byte: u8) -> (line_end: bool)
        requires
            old(self).wf(),
            old(self)@.len() < LOG_BUF_SIZE,
        ensures
            final(self).wf(),
            final(self)@ == old(self)@.push(byte),
            line_end == (byte == 10u8),
    {
        let ghost before = self@;
        self.buf[self.len] = byte;
        self.len = self.len + 1;
        proof {
            assert(self@ =~= before.push(byte));
        }
        byte == 10u8
    }

    /// The bytes waiting to be handed on.
    pub fn pending(&self) -> (s: &[u8])
        requires
            self.wf(),
        ensures
            s@ == self@,
    {
        vstd::slice::slice_subrange(self.buf.as_slice(), 0, self.len)
    }

    /// Record how many of the pending bytes the output accepted: all of
    /// them empties the buffer; fewer is an error and nothing is dropped.
    pub fn handed_on(&mut self, accepted: usize) -> (r: Result<(), ()>)
        requires
            old(self).wf(),
        ensures
            final(self).wf(),
            accepted == old(self)@.len() ==> r is Ok && final(self)@ == Seq::<u8>::empty(),
            accepted != old(self)@.len() ==> r is Err && final(self)@ == old(self)@,
    {
        if accepted == self.len {
            self.len = 0;
            proof {
                assert(self@ =~= Seq::<u8>::empty());
            }
            Ok(())
        } else {
            Err(())
        }
    }
}

} // verus!
