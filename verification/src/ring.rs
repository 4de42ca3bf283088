//! A bounded byte queue over a circular buffer.

use vstd::prelude::*;

verus! {

/// A circular buffer; its view is the queue of the bytes it holds, oldest
/// first.
pub struct ByteRing {
    pub buf: Vec<u8>,
    pub head: usize,
    pub len: usize,
}

/// The buffer position of the `k`-th byte behind `head`.
pub open spec fn ring_slot(head: int, k: int, cap: int) -> int {
    if head + k < cap {
        head + k
    } else {
        head + k - cap
    }
}

impl ByteRing {
    pub open spec fn cap(&self) -> int {
        self.buf@.len() as int
    }

    pub open spec fn wf(&self) -> bool {
        &&& self.head < self.buf@.len()
        &&& self.len <= self.buf@.len()
        &&& self.buf@.len() <= 0x1000_0000
    }

    pub open spec fn view(&self) -> Seq<u8> {
        Seq::new(
            self.len as nat,
            |k: int| self.buf@[ring_slot(self.head as int, k, self.buf@.len() as int)],
        )
    }

    /// An empty ring of `cap` bytes.
    pub fn new(cap: usize) -> (r: ByteRing)
        requires
            0 < cap <= 0x1000_0000,
        ensures
            r.wf(),
            r.cap() == cap,
            r@ == Seq::<u8>::empty(),
    {
        let buf: Vec<u8> = vec![0u8; cap];
        let r = ByteRing { buf, head: 0, len: 0 };
        assert(r@ =~= Seq::<u8>::empty());
        r
    }

    /// Appends as much of `data` as fits and says how much that was.
    pub fn push(&mut self, data: &[u8]) -> (n: usize)
        requires
            old(self).wf(),
        ensures
            final(self).wf(),
            final(self).cap() == old(self).cap(),
            n == if data@.len() < old(self).cap() - old(self).len {
                data@.len() as int
            } else {
                old(self).cap() - old(self).len
            },
            final(self)@ == old(self)@ + data@.take(n as int),
    {
        let cap: usize = self.buf.len();
        let room: usize = cap - self.len;
        let n: usize = if data.len() < room {
            data.len()
        } else {
            room
        };
        let ghost q0 = self@;
        let mut i: usize = 0;
        while i < n
            invariant
                i <= n,
                n <= data@.len(),
                cap == self.buf@.len(),
                cap <= 0x1000_0000,
                self.head == old(self).head,
                self.head < cap,
                self.len == old(self).len,
                self.len + n <= cap,
                old(self).buf@.len() == cap,
                q0 == old(self)@,
                forall|k: int|
                    0 <= k < self.len ==> self.buf@[ring_slot(self.head as int, k, cap as int)] == #[trigger] q0[k],
                forall|k: int|
                    0 <= k < i ==> self.buf@[ring_slot(self.head as int, self.len + k, cap as int)]
                        == #[trigger] data@[k],
            decreases n - i,
        {
            let at0: usize = self.head + self.len + i;
            let at: usize = if at0 < cap {
                at0
            } else {
                at0 - cap
            };
            self.buf[at] = data[i];
            i = i + 1;
        }
        self.len = self.len + n;
        assert(self@ =~= q0 + data@.take(n as int)) by {
            assert forall|k: int| 0 <= k < self.len implies self@[k] == (q0 + data@.take(n as int))[k] by {
                if k >= q0.len() {
                    let j = k - q0.len();
                    assert(data@[j] == data@.take(n as int)[j]);
                }
            }
        }
        n
    }

    /// A copy of the oldest `n` bytes.
    pub fn peek(&self, n: usize) -> (out: Vec<u8>)
        requires
            self.wf(),
            n <= self.len,
        ensures
            out@ == self@.take(n as int),
    {
        let cap: usize = self.buf.len();
        let mut out: Vec<u8> = Vec::new();
        let mut i: usize = 0;
        while i < n
            invariant
                self.wf(),
                i <= n <= self.len,
                cap == self.buf@.len(),
                out@ == self@.take(i as int),
            decreases n - i,
        {
            let at0: usize = self.head + i;
            let at: usize = if at0 < cap {
                at0
            } else {
                at0 - cap
            };
            out.push(self.buf[at]);
            i = i + 1;
            assert(out@ =~= self@.take(i as int));
        }
        out
    }

    /// Forgets the oldest `n` bytes, or all of them if there are fewer.
    pub fn drop_front(&mut self, n: usize)
        requires
            old(self).wf(),
        ensures
            final(self).wf(),
            final(self).cap() == old(self).cap(),
            final(self)@ == old(self)@.skip(if n < old(self).len { n as int } else { old(self).len as int }),
    {
        let cap: usize = self.buf.len();
        let k: usize = if n < self.len {
            n
        } else {
            self.len
        };
        let h: usize = self.head + k;
        self.head = if h < cap {
            h
        } else {
            h - cap
        };
        self.len = self.len - k;
        assert(self@ =~= old(self)@.skip(k as int));
    }

    /// Takes out the oldest bytes, `max` of them at most.
    pub fn pop(&mut self, max: usize) -> (out: Vec<u8>)
        requires
            old(self).wf(),
        ensures
            final(self).wf(),
            final(self).cap() == old(self).cap(),
            out@ == old(self)@.take(if max < old(self).len { max as int } else { old(self).len as int }),
            final(self)@ == old(self)@.skip(if max < old(self).len { max as int } else { old(self).len as int }),
    {
        let n: usize = if max < self.len {
            max
        } else {
            self.len
        };
        let out: Vec<u8> = self.peek(n);
        self.drop_front(n);
        out
    }
}

/// Bytes come out in the order in which they went in: what is pushed stands
/// behind what was there, and popping it all gives both back in that order.
pub proof fn law_ring_fifo(before: Seq<u8>, data: Seq<u8>)
    ensures
        (before + data).take(before.len() as int) == before,
        (before + data).skip(before.len() as int) == data,
{
    assert((before + data).take(before.len() as int) =~= before);
    assert((before + data).skip(before.len() as int) =~= data);
}

} // verus!
