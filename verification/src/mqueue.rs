use vstd::prelude::*;

verus! {

#[derive(Clone, Copy, Debug, PartialEq, Eq, Structural)]
pub enum MsgQueueError {
    Full,
}

/// Fixed-size FIFO queue of `usize` messages.
pub struct MsgQueue<const N: usize> {
    buf: [usize; N],
    head: usize,
    tail: usize,
    len: usize,
}

impl<const N: usize> View for MsgQueue<N> {
    type V = Seq<usize>;

    /// The queued messages, oldest first.
    closed spec fn view(&self) -> Seq<usize> {
        Seq::new(self.len as nat, |i: int| self.buf@[wrap_index(self.tail + i, N as int)])
    }
}

impl<const N: usize> MsgQueue<N> {
    /// Indices stay in range and the write index sits `len` slots past the
    /// read index.
    pub closed spec fn wf(&self) -> bool {
        &&& self.buf@.len() == N
        &&& self.len <= N
        &&& N > 0 ==> self.head < N && self.tail < N && self.head as int == wrap_index(
            self.tail + self.len,
            N as int,
        )
    }

    /// A well-formed queue never holds more than its capacity.
    pub proof fn lemma_len_bound(&self)
        requires
            self.wf(),
        ensures
            self@.len() <= N,
    {
    }

    pub fn new() -> (q: Self)
        ensures
            q.wf(),
            q@ == Seq::<usize>::empty(),
    {
        let buf: [usize; N] = vstd::array::array_fill_for_copy_types(0usize);
        proof {
            vstd::array::array_len_matches_n(&buf);
        }
        let q = Self { buf, head: 0, tail: 0, len: 0 };
        assert(q@ =~= Seq::<usize>::empty());
        q
    }

    pub fn capacity(&self) -> (c: usize)
        ensures
            c == N,
    {
        N
    }

    pub fn len(&self) -> (l: usize)
        requires
            self.wf(),
        ensures
            l == self@.len(),
    {
        self.len
    }

    pub fn is_empty(&self) -> (b: bool)
        requires
            self.wf(),
        ensures
            b == (self@.len() == 0),
    {
        self.len == 0
    }

    pub fn is_full(&self) -> (b: bool)
        requires
            self.wf(),
        ensures
            b == (self@.len() == N),
    {
        self.len == N
    }

    pub fn clear(&mut self)
        requires
            old(self).wf(),
        ensures
            final(self).wf(),
            final(self)@ == Seq::<usize>::empty(),
    {
        self.head = 0;
        self.tail = 0;
        self.len = 0;
        assert(self@ =~= Seq::<usize>::empty());
    }

    /// Append a message; a full queue refuses it and stays unchanged.
    pub fn send(&mut self, msg: usize) -> (r: Result<(), MsgQueueError>)
        requires
            old(self).wf(),
        ensures
            final(self).wf(),
            old(self)@.len() == N ==> r == Err::<(), MsgQueueError>(MsgQueueError::Full) && final(self)@
                == old(self)@,
            old(self)@.len() < N ==> r == Ok::<(), MsgQueueError>(()) && final(self)@ == old(self)@.push(
                msg,
            ),
            final(self)@ == queue_send(old(self)@, N as nat, msg),
    {
        if self.is_full() {
            return Err(MsgQueueError::Full);
        }
        proof {
            vstd::array::array_len_matches_n(&self.buf);
        }
        let ghost old_q = self@;
        self.buf[self.head] = msg;
        proof {
            lemma_mod_is_wrap(self.head + 1, N as int);
        }
        self.head = (self.head + 1) % N;
        self.len = self.len + 1;
        proof {
            assert(self@ =~= old_q.push(msg));
        }
        Ok(())
    }

    /// Take the oldest message, if any.
    pub fn recv(&mut self) -> (r: Option<usize>)
        requires
            old(self).wf(),
        ensures
            final(self).wf(),
            old(self)@.len() == 0 ==> r is None && final(self)@ == old(self)@,
            old(self)@.len() > 0 ==> r == Some(old(self)@[0]) && final(self)@ == old(self)@.drop_first(),
            (r, final(self)@) == queue_recv(old(self)@),
    {
        if self.is_empty() {
            return None;
        }
        proof {
            vstd::array::array_len_matches_n(&self.buf);
        }
        let ghost old_q = self@;
        let msg = self.buf[self.tail];
        proof {
            assert(old_q[0] == self.buf@[wrap_index(self.tail + 0, N as int)]);
            lemma_mod_is_wrap(self.tail + 1, N as int);
        }
        self.tail = (self.tail + 1) % N;
        self.len = self.len - 1;
        proof {
            assert(self@ =~= old_q.drop_first());
        }
        Some(msg)
    }
}

/// `send` on a queue holding `q` with room for `cap` messages: appended, or
/// refused when the queue is full.
pub open spec fn queue_send(q: Seq<usize>, cap: nat, msg: usize) -> Seq<usize> {
    if q.len() < cap {
        q.push(msg)
    } else {
        q
    }
}

/// `recv` on a queue holding `q`: the oldest message and the rest, or
/// nothing from an empty queue.
pub open spec fn queue_recv(q: Seq<usize>) -> (Option<usize>, Seq<usize>) {
    if q.len() == 0 {
        (None, q)
    } else {
        (Some(q[0]), q.drop_first())
    }
}

/// Index `x` folded once into `[0, n)`.
pub open spec fn wrap_index(x: int, n: int) -> int {
    if x < n {
        x
    } else {
        x - n
    }
}

/// For `0 <= x < 2n`, `x % n` folds `x` once.
pub proof fn lemma_mod_is_wrap(x: int, n: int)
    requires
        0 <= x < 2 * n,
    ensures
        x % n == wrap_index(x, n),
{
    if x < n {
        vstd::arithmetic::div_mod::lemma_small_mod(x as nat, n as nat);
    } else {
        vstd::arithmetic::div_mod::lemma_fundamental_div_mod_converse(x, n, 1, x - n);
    }
}

} // verus!
