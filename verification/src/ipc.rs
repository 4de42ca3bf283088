//! Named byte-stream channels: the IPC primitive.
//!
//! Eight global channels, each a 256-byte ring buffer. A call that cannot
//! make progress registers its task as the channel's waiter and answers
//! WOULD-BLOCK; the peer that completes the opposite operation gets that
//! waiter handed back and wakes it.

use vstd::prelude::*;

use crate::ring::ByteRing;

verus! {

pub const NCHANS: usize = 8;

/// Ring capacity in bytes.
pub const CAP: usize = 256;

/// One send carries at most this many bytes.
pub const MAXMSG: usize = 64;

/// "No waiter": slot indices are stored plus one.
pub const NONE: u16 = 0;

pub const WOULD_BLOCK: i64 = -2;

pub struct Chan {
    pub used: bool,
    pub key: u64,  // rendezvous key (0 = private); open(key) joins an existing one
    pub ring: ByteRing,
    pub wait_recv: u16,  // task slot + 1, single waiter per side
    pub wait_send: u16,
    pub sent: u64,
    pub got: u64,
}

pub struct ChanV {
    pub used: bool,
    pub key: u64,
    pub bytes: Seq<u8>,
    pub wait_recv: u16,
    pub wait_send: u16,
    pub sent: u64,
    pub got: u64,
}

pub open spec fn fresh_chan() -> ChanV {
    ChanV { used: false, key: 0, bytes: Seq::empty(), wait_recv: NONE, wait_send: NONE, sent: 0, got: 0 }
}

impl Chan {
    pub open spec fn wf(&self) -> bool {
        self.ring.wf() && self.ring.cap() == CAP
    }

    pub open spec fn view(&self) -> ChanV {
        ChanV {
            used: self.used,
            key: self.key,
            bytes: self.ring@,
            wait_recv: self.wait_recv,
            wait_send: self.wait_send,
            sent: self.sent,
            got: self.got,
        }
    }

    fn fresh() -> (c: Chan)
        ensures
            c.wf(),
            c@ == fresh_chan(),
    {
        Chan {
            used: false,
            key: 0,
            ring: ByteRing::new(CAP),
            wait_recv: NONE,
            wait_send: NONE,
            sent: 0,
            got: 0,
        }
    }
}

pub struct ChanTable {
    pub chans: Vec<Chan>,
}

impl ChanTable {
    pub open spec fn wf(&self) -> bool {
        &&& self.chans@.len() == NCHANS
        &&& forall|i: int| 0 <= i < NCHANS ==> (#[trigger] self.chans@[i]).wf()
    }

    pub open spec fn view(&self) -> Seq<ChanV> {
        self.chans@.map_values(|c: Chan| c@)
    }

    pub fn new() -> (t: ChanTable)
        ensures
            t.wf(),
            t@ == Seq::new(NCHANS as nat, |i: int| fresh_chan()),
    {
        let mut chans: Vec<Chan> = Vec::new();
        let mut i: usize = 0;
        while i < NCHANS
            invariant
                i <= NCHANS,
                chans@.len() == i,
                forall|j: int| 0 <= j < i ==> (#[trigger] chans@[j]).wf() && chans@[j]@ == fresh_chan(),
            decreases NCHANS - i,
        {
            chans.push(Chan::fresh());
            i = i + 1;
        }
        let t = ChanTable { chans };
        assert(t@ =~= Seq::new(NCHANS as nat, |i: int| fresh_chan()));
        t
    }
}

pub open spec fn keyed(key: u64) -> spec_fn(ChanV) -> bool {
    |c: ChanV| c.used && c.key == key
}

pub open spec fn unused_chan() -> spec_fn(ChanV) -> bool {
    |c: ChanV| !c.used
}

pub open spec fn open_spec(t: Seq<ChanV>, key: u64) -> (Seq<ChanV>, int) {
    match crate::seqs::first(t, keyed(key)) {
        Some(i) if key != 0 => (t, i),
        _ => match crate::seqs::first(t, unused_chan()) {
            Some(i) => (t.update(i, ChanV { used: true, key, ..fresh_chan() }), i),
            None => (t, -1),
        },
    }
}

/// Open (or join, when key != 0) a channel; returns its id, or -1 when the
/// table is full.
pub fn open(t: &mut ChanTable, key: u64) -> (r: i64)
    requires
        old(t).wf(),
    ensures
        final(t).wf(),
        (final(t)@, r as int) == open_spec(old(t)@, key),
{
    if key != 0 {
        let mut i: usize = 0;
        while i < NCHANS
            invariant
                t.wf(),
                *t == *old(t),
                i <= NCHANS,
                key != 0,
                crate::seqs::first_from(t@, keyed(key), i as int) == crate::seqs::first(t@, keyed(key)),
            ensures
                t.wf(),
                *t == *old(t),
                crate::seqs::first(t@, keyed(key)) is None,
            decreases NCHANS - i,
        {
            assert(t@[i as int] == t.chans@[i as int]@);
            if t.chans[i].used && t.chans[i].key == key {
                return i as i64;
            }
            i = i + 1;
        }
    }
    let mut i: usize = 0;
    while i < NCHANS
        invariant
            t.wf(),
            *t == *old(t),
            i <= NCHANS,
            key != 0 ==> crate::seqs::first(t@, keyed(key)) is None,
            crate::seqs::first_from(t@, unused_chan(), i as int) == crate::seqs::first(t@, unused_chan()),
        decreases NCHANS - i,
    {
        assert(t@[i as int] == t.chans@[i as int]@);
        if !t.chans[i].used {
            let mut c = Chan::fresh();
            c.used = true;
            c.key = key;
            let ghost cv = c@;
            t.chans[i] = c;
            assert(t@ =~= old(t)@.update(i as int, cv));
            return i as i64;
        }
        i = i + 1;
    }
    -1
}

/// The outcome of a channel call: the answer, the waiter to wake, and whether
/// the caller has to park.
#[derive(Clone, Copy, PartialEq, Eq, Structural)]
pub struct Outcome {
    pub ret: i64,
    pub wake: u16,
    pub park: bool,
}

pub open spec fn answer(ret: int) -> Outcome {
    Outcome { ret: ret as i64, wake: NONE, park: false }
}

pub open spec fn parked() -> Outcome {
    Outcome { ret: WOULD_BLOCK, wake: NONE, park: true }
}

pub open spec fn send_spec(t: Seq<ChanV>, id: u64, data: Seq<u8>, slot: u16) -> (Seq<ChanV>, Outcome) {
    if id >= NCHANS {
        (t, answer(-1))
    } else if data.len() == 0 {
        (t, answer(0))
    } else if !t[id as int].used {
        (t, answer(-1))
    } else {
        let c = t[id as int];
        if c.bytes.len() + data.len() <= CAP {
            (
                t.update(
                    id as int,
                    ChanV {
                        bytes: c.bytes + data,
                        sent: ((c.sent + 1) % 0x1_0000_0000_0000_0000) as u64,
                        wait_recv: NONE,
                        ..c
                    },
                ),
                Outcome { ret: data.len() as i64, wake: c.wait_recv, park: false },
            )
        } else {
            (t.update(id as int, ChanV { wait_send: (slot + 1) as u16, ..c }), parked())
        }
    }
}

/// send(id, buf) by the task in `slot`: `data` holds the caller's bytes, one
/// message at most. All of it is enqueued or, when it does not fit, the
/// caller becomes the sender-waiter and parks.
pub fn send(t: &mut ChanTable, id: u64, data: &[u8], slot: u16) -> (r: Outcome)
    requires
        old(t).wf(),
        data@.len() <= MAXMSG,
        slot < 0xFFFF,
    ensures
        final(t).wf(),
        (final(t)@, r) == send_spec(old(t)@, id, data@, slot),
{
    let i: usize = match chan_index(id) {
        Some(i) => i,
        None => {
            return Outcome { ret: -1, wake: NONE, park: false };
        },
    };
    let len: usize = data.len();
    if len == 0 {
        return Outcome { ret: 0, wake: NONE, park: false };
    }
    let ghost c0 = t@[i as int];
    assert(c0 == t.chans@[i as int]@);
    if !t.chans[i].used {
        return Outcome { ret: -1, wake: NONE, park: false };
    }
    if t.chans[i].ring.len + len <= CAP {
        let _n: usize = t.chans[i].ring.push(data);
        assert(data@.take(data@.len() as int) =~= data@);
        t.chans[i].sent = t.chans[i].sent.wrapping_add(1);
        let wake: u16 = t.chans[i].wait_recv;
        t.chans[i].wait_recv = NONE;
        assert(t@ =~= old(t)@.update(i as int, t.chans@[i as int]@));
        return Outcome { ret: len as i64, wake, park: false };
    }
    t.chans[i].wait_send = slot + 1;
    assert(t@ =~= old(t)@.update(i as int, t.chans@[i as int]@));
    Outcome { ret: WOULD_BLOCK, wake: NONE, park: true }
}

/// What one `recv` gives: an answer (with the caller parked or not), or bytes
/// to hand out.
pub enum Recv {
    Ret(Outcome),
    Data(Vec<u8>),
}

pub enum RecvV {
    Ret(Outcome),
    Data(Seq<u8>),
}

impl Recv {
    pub open spec fn view(&self) -> RecvV {
        match *self {
            Recv::Ret(o) => RecvV::Ret(o),
            Recv::Data(d) => RecvV::Data(d@),
        }
    }
}

/// How many bytes a receive of `len` drains.
pub open spec fn recv_count(c: ChanV, len: u64) -> int {
    let cap = if len < MAXMSG { len as int } else { MAXMSG as int };
    if c.bytes.len() < cap {
        c.bytes.len() as int
    } else {
        cap
    }
}

pub open spec fn recv_spec(t: Seq<ChanV>, id: u64, len: u64, slot: u16) -> (Seq<ChanV>, RecvV) {
    if id >= NCHANS {
        (t, RecvV::Ret(answer(-1)))
    } else if len == 0 {
        (t, RecvV::Ret(answer(0)))
    } else if !t[id as int].used {
        (t, RecvV::Ret(answer(-1)))
    } else {
        let c = t[id as int];
        if c.bytes.len() == 0 {
            (t.update(id as int, ChanV { wait_recv: (slot + 1) as u16, ..c }), RecvV::Ret(parked()))
        } else {
            let n = recv_count(c, len);
            (
                t.update(
                    id as int,
                    ChanV { bytes: c.bytes.skip(n), got: ((c.got + n) % 0x1_0000_0000_0000_0000) as u64, ..c },
                ),
                RecvV::Data(c.bytes.take(n)),
            )
        }
    }
}

/// recv(id, len) by the task in `slot`: drain up to `len` bytes, or park.
/// When the bytes have reached the caller, `recv_delivered` tells which
/// sender to wake; bytes that cannot be delivered are consumed all the same.
pub fn recv(t: &mut ChanTable, id: u64, len: u64, slot: u16) -> (r: Recv)
    requires
        old(t).wf(),
        slot < 0xFFFF,
    ensures
        final(t).wf(),
        (final(t)@, r@) == recv_spec(old(t)@, id, len, slot),
{
    let i: usize = match chan_index(id) {
        Some(i) => i,
        None => {
            return Recv::Ret(Outcome { ret: -1, wake: NONE, park: false });
        },
    };
    let cap: usize = if len < MAXMSG as u64 {
        len as usize
    } else {
        MAXMSG
    };
    if cap == 0 {
        return Recv::Ret(Outcome { ret: 0, wake: NONE, park: false });
    }
    let ghost c0 = t@[i as int];
    assert(c0 == t.chans@[i as int]@);
    if !t.chans[i].used {
        return Recv::Ret(Outcome { ret: -1, wake: NONE, park: false });
    }
    if t.chans[i].ring.len == 0 {
        t.chans[i].wait_recv = slot + 1;
        assert(t@ =~= old(t)@.update(i as int, t.chans@[i as int]@));
        return Recv::Ret(Outcome { ret: WOULD_BLOCK, wake: NONE, park: true });
    }
    let out: Vec<u8> = t.chans[i].ring.pop(cap);
    t.chans[i].got = t.chans[i].got.wrapping_add(out.len() as u64);
    assert(t@ =~= old(t)@.update(i as int, t.chans@[i as int]@));
    Recv::Data(out)
}

/// The sender that waits for room in channel `id`; it is forgotten.
pub fn recv_delivered(t: &mut ChanTable, id: u64) -> (wake: u16)
    requires
        old(t).wf(),
        id < NCHANS,
    ensures
        final(t).wf(),
        wake == old(t)@[id as int].wait_send,
        final(t)@ == old(t)@.update(id as int, ChanV { wait_send: NONE, ..old(t)@[id as int] }),
{
    let i: usize = id as usize;
    assert(t@[i as int] == t.chans@[i as int]@);
    let wake: u16 = t.chans[i].wait_send;
    t.chans[i].wait_send = NONE;
    assert(t@ =~= old(t)@.update(i as int, t.chans@[i as int]@));
    wake
}

pub open spec fn chan_row() -> spec_fn(int, ChanV) -> Option<(usize, u64, usize, u64, u64, bool, bool)> {
    |i: int, c: ChanV|
        if c.used {
            Some(
                (i as usize, c.key, c.bytes.len() as usize, c.sent, c.got, c.wait_send != NONE, c.wait_recv != NONE),
            )
        } else {
            None
        }
}

/// Snapshot for the shell's `ipc` command: id, key, bytes held, messages
/// sent, bytes got, sender waiting, receiver waiting.
pub fn for_each(t: &ChanTable) -> (rows: Vec<(usize, u64, usize, u64, u64, bool, bool)>)
    requires
        t.wf(),
    ensures
        rows@ == crate::seqs::collect_some(t@, chan_row(), NCHANS as int),
{
    let mut rows: Vec<(usize, u64, usize, u64, u64, bool, bool)> = Vec::new();
    let mut i: usize = 0;
    while i < NCHANS
        invariant
            t.wf(),
            i <= NCHANS,
            rows@ == crate::seqs::collect_some(t@, chan_row(), i as int),
        decreases NCHANS - i,
    {
        let c = &t.chans[i];
        assert(t@[i as int] == c@);
        if c.used {
            rows.push((i, c.key, c.ring.len, c.sent, c.got, c.wait_send != NONE, c.wait_recv != NONE));
        }
        i = i + 1;
    }
    rows
}

fn chan_index(id: u64) -> (r: Option<usize>)
    ensures
        r is Some <==> id < NCHANS,
        r matches Some(i) ==> i == id,
{
    if id < NCHANS as u64 {
        Some(id as usize)
    } else {
        None
    }
}

// --- laws ---
/// Opening the same key twice joins: both openers get one channel.
pub proof fn law_open_joins(t: Seq<ChanV>, key: u64)
    requires
        key != 0,
        open_spec(t, key).1 >= 0,
    ensures
        open_spec(open_spec(t, key).0, key) == open_spec(t, key),
{
    let (t2, id) = open_spec(t, key);
    crate::seqs::lemma_first_from(t, keyed(key), 0);
    crate::seqs::lemma_first_from(t, unused_chan(), 0);
    assert(keyed(key)(t2[id]));
    assert forall|j: int| 0 <= j < id implies !keyed(key)(#[trigger] t2[j]) by {
        assert(t2[j] == t[j]);
    }
    crate::seqs::lemma_first_is(t2, keyed(key), 0, id);
}

/// A message sent into an empty channel is what the next receive hands out.
pub proof fn law_send_then_recv(t: Seq<ChanV>, id: u64, data: Seq<u8>, s1: u16, s2: u16)
    requires
        t.len() == NCHANS,
        id < NCHANS,
        t[id as int].used,
        t[id as int].bytes.len() == 0,
        0 < data.len() <= MAXMSG,
    ensures
        ({
            let (t2, o) = send_spec(t, id, data, s1);
            &&& o == (Outcome { ret: data.len() as i64, wake: t[id as int].wait_recv, park: false })
            &&& recv_spec(t2, id, MAXMSG as u64, s2).1 == RecvV::Data(data)
        }),
{
    let c = t[id as int];
    assert(c.bytes + data =~= data);
    assert(data.take(data.len() as int) =~= data);
}

/// A receiver that parks on an empty channel is the one that the next send
/// wakes.
pub proof fn law_no_lost_wakeup(t: Seq<ChanV>, id: u64, data: Seq<u8>, len: u64, s1: u16, s2: u16)
    requires
        t.len() == NCHANS,
        id < NCHANS,
        t[id as int].used,
        t[id as int].bytes.len() == 0,
        0 < data.len() <= MAXMSG,
        len > 0,
        s2 < 0xFFFF,
    ensures
        ({
            let (t2, r) = recv_spec(t, id, len, s2);
            &&& r == RecvV::Ret(parked())
            &&& send_spec(t2, id, data, s1).1.wake == s2 + 1
        }),
{
}

} // verus!
