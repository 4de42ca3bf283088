//! The serial port: 115200 baud, 8 bits, no parity, 1 stop bit, polled.

use vstd::prelude::*;

verus! {

/// A serial port at a base I/O address.
pub struct SerialPort {
    pub base: u16,
}

pub const COM1_BASE: u16 = 0x3F8;

/// The bytes that go out for `s`: a carriage return before each line feed.
pub open spec fn sent(s: Seq<u8>) -> Seq<u8>
    decreases s.len(),
{
    if s.len() == 0 {
        Seq::empty()
    } else if s.last() == 10 {
        sent(s.drop_last()).push(13).push(10)
    } else {
        sent(s.drop_last()).push(s.last())
    }
}

impl SerialPort {
    pub fn new(base: u16) -> (p: SerialPort)
        ensures
            p.base == base,
    {
        SerialPort { base }
    }

    /// The port writes that set the line up.
    pub fn init(&self) -> (w: Vec<(u16, u8)>)
        requires
            self.base + 7 <= u16::MAX,
        ensures
            w@ == seq![
                ((self.base + 1) as u16, 0x00u8),
                ((self.base + 3) as u16, 0x80u8),
                (self.base, 0x01u8),
                ((self.base + 1) as u16, 0x00u8),
                ((self.base + 3) as u16, 0x03u8),
                ((self.base + 2) as u16, 0xC7u8),
                ((self.base + 4) as u16, 0x0Bu8),
            ],
    {
        let b: u16 = self.base;
        let mut w: Vec<(u16, u8)> = Vec::new();
        w.push((b + 1, 0x00));
        w.push((b + 3, 0x80));
        w.push((b, 0x01));
        w.push((b + 1, 0x00));
        w.push((b + 3, 0x03));
        w.push((b + 2, 0xC7));
        w.push((b + 4, 0x0B));
        assert(w@ =~= seq![
            ((self.base + 1) as u16, 0x00u8),
            ((self.base + 3) as u16, 0x80u8),
            (self.base, 0x01u8),
            ((self.base + 1) as u16, 0x00u8),
            ((self.base + 3) as u16, 0x03u8),
            ((self.base + 2) as u16, 0xC7u8),
            ((self.base + 4) as u16, 0x0Bu8),
        ]);
        w
    }

    /// Whether the line-status register says that a byte may be sent.
    pub fn transmit_empty(&self, status: u8) -> (r: bool)
        ensures
            r == (status & 0x20 != 0),
    {
        status & 0x20 != 0
    }

    /// The bytes to send for `s`, each once the line is ready for it.
    pub fn write_bytes(&self, s: &[u8]) -> (out: Vec<u8>)
        ensures
            out@ == sent(s@),
    {
        let n: usize = s.len();
        let mut out: Vec<u8> = Vec::new();
        let mut i: usize = 0;
        assert(s@.take(0) =~= Seq::empty());
        while i < n
            invariant
                n == s@.len(),
                i <= n,
                out@ == sent(s@.take(i as int)),
            decreases n - i,
        {
            let b: u8 = s[i];
            assert(s@.take(i + 1).drop_last() =~= s@.take(i as int));
            if b == 10 {
                out.push(13);
            }
            out.push(b);
            i = i + 1;
        }
        assert(s@.take(n as int) =~= s@);
        out
    }
}

} // verus!
