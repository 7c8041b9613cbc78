use vstd::prelude::*;

use crate::mqueue::{lemma_mod_is_wrap, wrap_index};

verus! {

#[derive(Clone, Copy, Debug, PartialEq, Eq, Structural)]
pub enum RingBufError {
    Full,
}

/// Fixed-size FIFO byte buffer.
pub struct RingBuf<const N: usize> {
    buf: [u8; N],
    head: usize,
    tail: usize,
    len: usize,
}

impl<const N: usize> View for RingBuf<N> {
    type V = Seq<u8>;

    /// The buffered bytes, oldest first.
    closed spec fn view(&self) -> Seq<u8> {
        Seq::new(self.len as nat, |i: int| self.buf@[wrap_index(self.tail + i, N as int)])
    }
}

impl<const N: usize> RingBuf<N> {
    /// Indices stay in range and the write index sits `len` slots past the
    /// read index.
    pub closed spec fn wf(&self) -> bool {
        &&& self.buf@.len() == N
        &&& self.len <= N
        &&& N > 0 ==> self.head < N && self.tail < N && self.head as int == wrap_index(
            self.tail + self.len,
            N as int,
        )
    }

    /// A well-formed ring never holds more than its capacity.
    pub proof fn lemma_len_bound(&self)
        requires
            self.wf(),
        ensures
            self@.len() <= N,
    {
    }

    pub fn new() -> (q: Self)
        ensures
            q.wf(),
            q@ == Seq::<u8>::empty(),
    {
        let buf: [u8; N] = vstd::array::array_fill_for_copy_types(0u8);
        proof {
            vstd::array::array_len_matches_n(&buf);
        }
        let q = Self { buf, head: 0, tail: 0, len: 0 };
        assert(q@ =~= Seq::<u8>::empty());
        q
    }

    pub fn capacity(&self) -> (c: usize)
        ensures
            c == N,
    {
        N
    }

    pub fn len(&self) -> (l: usize)
        requires
            self.wf(),
        ensures
            l == self@.len(),
    {
        self.len
    }

    pub fn is_empty(&self) -> (b: bool)
        requires
            self.wf(),
        ensures
            b == (self@.len() == 0),
    {
        self.len == 0
    }

    pub fn is_full(&self) -> (b: bool)
        requires
            self.wf(),
        ensures
            b == (self@.len() == N),
    {
        self.len == N
    }

    pub fn clear(&mut self)
        requires
            old(self).wf(),
        ensures
            final(self).wf(),
            final(self)@ == Seq::<u8>::empty(),
    {
        self.head = 0;
        self.tail = 0;
        self.len = 0;
        assert(self@ =~= Seq::<u8>::empty());
    }

    /// Append a byte; a full buffer refuses it and stays unchanged.
    pub fn push(&mut self, byte: u8) -> (r: Result<(), RingBufError>)
        requires
            old(self).wf(),
        ensures
            final(self).wf(),
            old(self)@.len() == N ==> r == Err::<(), RingBufError>(RingBufError::Full) && final(self)@
                == old(self)@,
            old(self)@.len() < N ==> r == Ok::<(), RingBufError>(()) && final(self)@ == old(self)@.push(
                byte,
            ),
    {
        if self.is_full() {
            return Err(RingBufError::Full);
        }
        proof {
            vstd::array::array_len_matches_n(&self.buf);
        }
        let ghost old_q = self@;
        self.buf[self.head] = byte;
        proof {
            lemma_mod_is_wrap(self.head + 1, N as int);
        }
        self.head = (self.head + 1) % N;
        self.len = self.len + 1;
        proof {
            assert(self@ =~= old_q.push(byte));
        }
        Ok(())
    }

    /// Take the oldest byte, if any.
    pub fn pop(&mut self) -> (r: Option<u8>)
        requires
            old(self).wf(),
        ensures
            final(self).wf(),
            old(self)@.len() == 0 ==> r is None && final(self)@ == old(self)@,
            old(self)@.len() > 0 ==> r == Some(old(self)@[0]) && final(self)@ == old(self)@.drop_first(),
    {
        if self.is_empty() {
            return None;
        }
        proof {
            vstd::array::array_len_matches_n(&self.buf);
        }
        let ghost old_q = self@;
        let b = self.buf[self.tail];
        proof {
            assert(old_q[0] == self.buf@[wrap_index(self.tail + 0, N as int)]);
            lemma_mod_is_wrap(self.tail + 1, N as int);
        }
        self.tail = (self.tail + 1) % N;
        self.len = self.len - 1;
        proof {
            assert(self@ =~= old_q.drop_first());
        }
        Some(b)
    }
}


/// `s` cut back to its last `end` byte (kept), or emptied when it holds none.
pub open spec fn keep_through_last(s: Seq<u8>, end: u8) -> Seq<u8>
    decreases s.len(),
{
    if s.len() == 0 || s.last() == end {
        s
    } else {
        keep_through_last(s.drop_last(), end)
    }
}

impl<const N: usize> RingBuf<N> {
    /// The newest byte, if any.
    pub fn newest(&self) -> (r: Option<u8>)
        requires
            self.wf(),
        ensures
            self@.len() == 0 ==> r is None,
            self@.len() > 0 ==> r == Some(self@.last()),
    {
        if self.len == 0 {
            return None;
        }
        proof {
            vstd::array::array_len_matches_n(&self.buf);
        }
        let h = if self.head == 0 {
            N - 1
        } else {
            self.head - 1
        };
        assert(self@[self@.len() - 1] == self.buf@[wrap_index(self.tail + (self.len - 1), N as int)]);
        Some(self.buf[h])
    }

    /// Take back the newest byte, if any.
    pub fn pop_newest(&mut self) -> (r: Option<u8>)
        requires
            old(self).wf(),
        ensures
            final(self).wf(),
            old(self)@.len() == 0 ==> r is None && final(self)@ == old(self)@,
            old(self)@.len() > 0 ==> r == Some(old(self)@.last()) && final(self)@ == old(self)@.drop_last(),
    {
        if self.len == 0 {
            return None;
        }
        proof {
            vstd::array::array_len_matches_n(&self.buf);
        }
        let ghost old_q = self@;
        let h = if self.head == 0 {
            N - 1
        } else {
            self.head - 1
        };
        assert(old_q[old_q.len() - 1] == self.buf@[wrap_index(self.tail + (self.len - 1), N as int)]);
        let b = self.buf[h];
        self.head = h;
        self.len = self.len - 1;
        proof {
            assert(self@ =~= old_q.drop_last());
        }
        Some(b)
    }

    /// Take back every byte after the newest `end` byte (all of them when
    /// there is none).  Returns whether an `end` byte was buffered.
    pub fn cut_back_to(&mut self, end: u8) -> (had_end: bool)
        requires
            old(self).wf(),
        ensures
            final(self).wf(),
            final(self)@ == keep_through_last(old(self)@, end),
            had_end == old(self)@.contains(end),
    {
        loop
            invariant
                self.wf(),
                keep_through_last(self@, end) == keep_through_last(old(self)@, end),
                self@.contains(end) == old(self)@.contains(end),
            decreases self@.len(),
        {
            match self.newest() {
                None => {
                    assert(!self@.contains(end));
                    return false;
                },
                Some(b) => {
                    if b == end {
                        assert(self@.contains(end)) by {
                            assert(self@[self@.len() - 1] == end);
                        }
                        return true;
                    }
                    let ghost before = self@;
                    let _ = self.pop_newest();
                    proof {
                        assert(self@.contains(end) == before.contains(end)) by {
                            if before.contains(end) {
                                let i = choose|i: int| 0 <= i < before.len() && before[i] == end;
                                assert(i != before.len() - 1);
                                assert(self@[i] == end);
                            }
                            if self@.contains(end) {
                                let i = choose|i: int| 0 <= i < self@.len() && self@[i] == end;
                                assert(before[i] == end);
                            }
                        }
                    }
                },
            }
        }
    }

    /// Append as many leading bytes of `data` as fit; returns how many.
    pub fn push_slice(&mut self, data: &[u8]) -> (n: usize)
        requires
            old(self).wf(),
        ensures
            final(self).wf(),
            n == if data@.len() < N - old(self)@.len() {
                data@.len()
            } else {
                (N - old(self)@.len()) as nat
            },
            final(self)@ == old(self)@ + data@.take(n as int),
    {
        let mut n: usize = 0;
        while n < data.len()
            invariant
                self.wf(),
                n <= data@.len(),
                old(self)@.len() + n <= N,
                self@ == old(self)@ + data@.take(n as int),
            ensures
                self.wf(),
                n <= data@.len(),
                self@ == old(self)@ + data@.take(n as int),
                n == data@.len() || self@.len() == N,
            decreases data@.len() - n,
        {
            if self.is_full() {
                break;
            }
            let r = self.push(data[n]);
            proof {
                assert(data@.take(n + 1) =~= data@.take(n as int).push(data@[n as int]));
            }
            n = n + 1;
        }
        n
    }

    /// Move up to `out.len()` of the oldest bytes into `out`; returns how many.
    pub fn pop_slice(&mut self, out: &mut [u8]) -> (n: usize)
        requires
            old(self).wf(),
        ensures
            final(self).wf(),
            n == if old(out)@.len() < old(self)@.len() {
                old(out)@.len()
            } else {
                old(self)@.len()
            },
            final(out)@ == old(self)@.take(n as int) + old(out)@.skip(n as int),
            final(self)@ == old(self)@.skip(n as int),
    {
        let mut n: usize = 0;
        proof {
            assert(old(self)@.skip(0) =~= old(self)@);
            assert(out@ =~= old(self)@.take(0) + old(out)@.skip(0));
        }
        while n < out.len()
            invariant
                self.wf(),
                n <= old(out)@.len(),
                n <= old(self)@.len(),
                out@.len() == old(out)@.len(),
                self@ == old(self)@.skip(n as int),
                out@ == old(self)@.take(n as int) + old(out)@.skip(n as int),
            ensures
                self.wf(),
                n <= old(out)@.len(),
                n <= old(self)@.len(),
                self@ == old(self)@.skip(n as int),
                out@ == old(self)@.take(n as int) + old(out)@.skip(n as int),
                n == old(out)@.len() || n == old(self)@.len(),
            decreases old(out)@.len() - n,
        {
            let b = match self.pop() {
                Some(b) => b,
                None => {
                    break;
                },
            };
            out[n] = b;
            proof {
                assert(self@ =~= old(self)@.skip(n + 1));
                assert(out@ =~= old(self)@.take(n + 1) + old(out)@.skip(n + 1));
            }
            n = n + 1;
        }
        n
    }
}

} // verus!
