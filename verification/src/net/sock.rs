//! UDP sockets for ring 3: bind / sendto / recvfrom / close.
//!
//! Eight global sockets, each a fixed-size datagram queue. A program binds a
//! port, the demultiplexer (or the loopback fast path) drops datagrams into
//! its queue, and the program pulls them with `recvfrom`.
//!
//! A call that cannot make progress registers the calling task as the
//! socket's waiter and answers WOULD-BLOCK: a receive on a socket with nothing
//! queued, and a send over loopback to a socket whose queue is full. Whoever
//! delivers a datagram, or takes one out, gets that waiter handed back and
//! wakes it.
//!
//! Loopback: a datagram to our own address never touches the NIC or ARP.

use vstd::prelude::*;
use vstd::slice::{slice_subrange, slice_to_vec};

use crate::net::OUR_IP;

verus! {

pub const NSOCK: usize = 8;

/// Payload bytes per datagram.
pub const DGRAM_MAX: usize = 256;

/// Datagrams per socket.
pub const QUEUE_DEPTH: usize = 8;

/// "No waiter": slot indices are stored plus one.
pub const NONE: u16 = 0;

pub const WOULD_BLOCK: i64 = -2;

pub struct Dgram {
    pub src_ip: u32,
    pub src_port: u16,
    pub data: Vec<u8>,
}

pub struct DgramV {
    pub src_ip: u32,
    pub src_port: u16,
    pub data: Seq<u8>,
}

impl Dgram {
    pub open spec fn view(&self) -> DgramV {
        DgramV { src_ip: self.src_ip, src_port: self.src_port, data: self.data@ }
    }
}

pub struct UdpSock {
    pub used: bool,
    pub port: u16,
    pub queue: Vec<Dgram>,
    pub head: usize,  // next enqueue position
    pub count: usize,  // datagrams currently queued
    pub waiter: u16,  // task slot + 1, single waiter
    pub recv_n: u64,  // datagrams delivered to userland
    pub drop_n: u64,  // datagrams dropped (queue full)
}

/// A socket as the contracts see it: the queue is oldest first.
pub struct UdpV {
    pub used: bool,
    pub port: u16,
    pub queue: Seq<DgramV>,
    pub waiter: u16,
    pub recv_n: u64,
    pub drop_n: u64,
}

pub open spec fn fresh_udp() -> UdpV {
    UdpV { used: false, port: 0, queue: Seq::empty(), waiter: NONE, recv_n: 0, drop_n: 0 }
}

/// The position of the `k`-th oldest of `count` datagrams behind `head`.
pub open spec fn queue_slot(head: int, count: int, k: int) -> int {
    if head - count + k >= 0 {
        head - count + k
    } else {
        head - count + k + QUEUE_DEPTH
    }
}

impl UdpSock {
    pub open spec fn wf(&self) -> bool {
        &&& self.queue@.len() == QUEUE_DEPTH
        &&& self.head < QUEUE_DEPTH
        &&& self.count <= QUEUE_DEPTH
        &&& forall|i: int| 0 <= i < QUEUE_DEPTH ==> (#[trigger] self.queue@[i]).data@.len() <= DGRAM_MAX
    }

    pub open spec fn view(&self) -> UdpV {
        UdpV {
            used: self.used,
            port: self.port,
            queue: Seq::new(
                self.count as nat,
                |k: int| self.queue@[queue_slot(self.head as int, self.count as int, k)]@,
            ),
            waiter: self.waiter,
            recv_n: self.recv_n,
            drop_n: self.drop_n,
        }
    }

    fn fresh() -> (s: UdpSock)
        ensures
            s.wf(),
            s@ == fresh_udp(),
    {
        let mut queue: Vec<Dgram> = Vec::new();
        let mut i: usize = 0;
        while i < QUEUE_DEPTH
            invariant
                i <= QUEUE_DEPTH,
                queue@.len() == i,
                forall|j: int| 0 <= j < i ==> (#[trigger] queue@[j]).data@.len() <= DGRAM_MAX,
            decreases QUEUE_DEPTH - i,
        {
            let d = Dgram { src_ip: 0, src_port: 0, data: Vec::new() };
            queue.push(d);
            i = i + 1;
        }
        let s = UdpSock {
            used: false,
            port: 0,
            queue,
            head: 0,
            count: 0,
            waiter: NONE,
            recv_n: 0,
            drop_n: 0,
        };
        assert(s@.queue =~= Seq::<DgramV>::empty());
        s
    }

    /// Puts a datagram at the end of a queue that has room.
    fn enqueue(&mut self, d: Dgram)
        requires
            old(self).wf(),
            old(self).count < QUEUE_DEPTH,
            d.data@.len() <= DGRAM_MAX,
        ensures
            final(self).wf(),
            final(self)@ == (UdpV { queue: old(self)@.queue.push(d@), ..old(self)@ }),
    {
        let h: usize = self.head;
        let ghost dv = d@;
        self.queue[h] = d;
        self.head = if h + 1 < QUEUE_DEPTH {
            h + 1
        } else {
            0
        };
        self.count = self.count + 1;
        assert(self@.queue =~= old(self)@.queue.push(dv)) by {
            assert forall|k: int| 0 <= k < self.count implies self@.queue[k] == old(self)@.queue.push(dv)[k] by {
                if k < old(self).count {
                    assert(queue_slot(self.head as int, self.count as int, k) == queue_slot(
                        h as int,
                        old(self).count as int,
                        k,
                    ));
                    assert(queue_slot(h as int, old(self).count as int, k) != h);
                }
            }
        }
    }

    /// Takes the oldest datagram out of a queue that has one.
    fn dequeue(&mut self) -> (d: Dgram)
        requires
            old(self).wf(),
            old(self).count > 0,
        ensures
            final(self).wf(),
            final(self)@ == (UdpV { queue: old(self)@.queue.skip(1), ..old(self)@ }),
            d@ == old(self)@.queue[0],
            d.data@.len() <= DGRAM_MAX,
    {
        let tail: usize = if self.head >= self.count {
            self.head - self.count
        } else {
            self.head + QUEUE_DEPTH - self.count
        };
        let mut d = Dgram { src_ip: 0, src_port: 0, data: Vec::new() };
        core::mem::swap(&mut self.queue[tail], &mut d);
        self.count = self.count - 1;
        assert(self@.queue =~= old(self)@.queue.skip(1)) by {
            assert forall|k: int| 0 <= k < self.count implies self@.queue[k] == old(self)@.queue[k + 1] by {
                assert(queue_slot(self.head as int, self.count as int, k) == queue_slot(
                    old(self).head as int,
                    old(self).count as int,
                    k + 1,
                ));
                assert(queue_slot(self.head as int, self.count as int, k) != tail);
            }
        }
        d
    }
}

pub struct SockTable {
    pub socks: Vec<UdpSock>,
}

impl SockTable {
    pub open spec fn wf(&self) -> bool {
        &&& self.socks@.len() == NSOCK
        &&& forall|i: int| 0 <= i < NSOCK ==> (#[trigger] self.socks@[i]).wf()
    }

    pub open spec fn view(&self) -> Seq<UdpV> {
        self.socks@.map_values(|s: UdpSock| s@)
    }

    pub fn new() -> (t: SockTable)
        ensures
            t.wf(),
            t@ == Seq::new(NSOCK as nat, |i: int| fresh_udp()),
    {
        let mut socks: Vec<UdpSock> = Vec::new();
        let mut i: usize = 0;
        while i < NSOCK
            invariant
                i <= NSOCK,
                socks@.len() == i,
                forall|j: int| 0 <= j < i ==> (#[trigger] socks@[j]).wf() && socks@[j]@ == fresh_udp(),
            decreases NSOCK - i,
        {
            socks.push(UdpSock::fresh());
            i = i + 1;
        }
        let t = SockTable { socks };
        assert(t@ =~= Seq::new(NSOCK as nat, |i: int| fresh_udp()));
        t
    }
}

pub open spec fn bound_to(port: u16) -> spec_fn(UdpV) -> bool {
    |c: UdpV| c.used && c.port == port
}

pub open spec fn unbound() -> spec_fn(UdpV) -> bool {
    |c: UdpV| !c.used
}

fn find_port(t: &SockTable, port: u16) -> (r: Option<usize>)
    requires
        t.wf(),
    ensures
        r matches Some(i) ==> i < NSOCK && crate::seqs::first(t@, bound_to(port)) == Some(i as int),
        r is None ==> crate::seqs::first(t@, bound_to(port)) is None,
{
    let mut i: usize = 0;
    while i < NSOCK
        invariant
            t.wf(),
            i <= NSOCK,
            crate::seqs::first_from(t@, bound_to(port), i as int) == crate::seqs::first(t@, bound_to(port)),
        decreases NSOCK - i,
    {
        assert(t@[i as int] == t.socks@[i as int]@);
        if t.socks[i].used && t.socks[i].port == port {
            return Some(i);
        }
        i = i + 1;
    }
    None
}

pub open spec fn bind_spec(t: Seq<UdpV>, port: u16) -> (Seq<UdpV>, int) {
    if port == 0 || crate::seqs::first(t, bound_to(port)) is Some {
        (t, -1)
    } else {
        match crate::seqs::first(t, unbound()) {
            Some(i) => (t.update(i, UdpV { used: true, port, ..fresh_udp() }), i),
            None => (t, -1),
        }
    }
}

/// Bind a fresh socket to `port`. Port 0 is rejected; a port already bound to
/// another socket, or a full table, yields -1. Returns the socket id.
pub fn bind(t: &mut SockTable, port: u16) -> (r: i64)
    requires
        old(t).wf(),
    ensures
        final(t).wf(),
        (final(t)@, r as int) == bind_spec(old(t)@, port),
{
    if port == 0 {
        return -1;
    }
    if find_port(t, port).is_some() {
        return -1;
    }
    let mut i: usize = 0;
    while i < NSOCK
        invariant
            t.wf(),
            *t == *old(t),
            i <= NSOCK,
            port != 0,
            crate::seqs::first(t@, bound_to(port)) is None,
            crate::seqs::first_from(t@, unbound(), i as int) == crate::seqs::first(t@, unbound()),
        decreases NSOCK - i,
    {
        assert(t@[i as int] == t.socks@[i as int]@);
        if !t.socks[i].used {
            let mut s = UdpSock::fresh();
            s.used = true;
            s.port = port;
            let ghost sv = s@;
            assert(sv.queue =~= Seq::<DgramV>::empty());
            t.socks[i] = s;
            assert(t@ =~= old(t)@.update(i as int, sv));
            return i as i64;
        }
        i = i + 1;
    }
    -1
}

pub open spec fn close_spec(t: Seq<UdpV>, id: u64) -> (Seq<UdpV>, int) {
    if id >= NSOCK || !t[id as int].used {
        (t, -1)
    } else {
        (t.update(id as int, fresh_udp()), 0)
    }
}

/// Close a socket: drop any queued datagrams and free the slot.
pub fn close(t: &mut SockTable, id: u64) -> (r: i64)
    requires
        old(t).wf(),
    ensures
        final(t).wf(),
        (final(t)@, r as int) == close_spec(old(t)@, id),
{
    match sock_index(id) {
        None => -1,
        Some(i) => {
            assert(t@[i as int] == t.socks@[i as int]@);
            if !t.socks[i].used {
                return -1;
            }
            t.socks[i] = UdpSock::fresh();
            assert(t@ =~= old(t)@.update(i as int, fresh_udp()));
            0
        },
    }
}

fn sock_index(id: u64) -> (r: Option<usize>)
    ensures
        r is Some <==> id < NSOCK,
        r matches Some(i) ==> i == id,
{
    if id < NSOCK as u64 {
        Some(id as usize)
    } else {
        None
    }
}

/// How a `sendto` goes on: answered at once, delivered locally (with the
/// waiter to wake, if any), to be transmitted from `src_port`, or the caller
/// has to park (it is now the waiter of the socket that is full).
#[derive(Clone, Copy, PartialEq, Eq, Structural)]
pub enum SendTo {
    Ret(i64),
    Local { ret: i64, wake: u16 },
    Wire { src_port: u16 },
    Park,
}

/// The socket bound to a port, if its queue is full.
pub open spec fn full_at(t: Seq<UdpV>, port: u16) -> Option<int> {
    match crate::seqs::first(t, bound_to(port)) {
        Some(j) if t[j].queue.len() == QUEUE_DEPTH => Some(j),
        _ => None,
    }
}

pub open spec fn sendto_spec(
    t: Seq<UdpV>,
    id: u64,
    dst_ip: u32,
    dst_port: u16,
    data: Seq<u8>,
    slot: u16,
) -> (Seq<UdpV>, SendTo) {
    if id >= NSOCK {
        (t, SendTo::Ret((-1) as i64))
    } else if data.len() == 0 {
        (t, SendTo::Ret(0))
    } else if !t[id as int].used {
        (t, SendTo::Ret((-1) as i64))
    } else if dst_ip != OUR_IP {
        (t, SendTo::Wire { src_port: t[id as int].port })
    } else {
        match full_at(t, dst_port) {
            Some(j) => (t.update(j, UdpV { waiter: (slot + 1) as u16, ..t[j] }), SendTo::Park),
            None => {
                let (t2, ok, wake) = deliver_spec(t, dst_port, dst_ip, t[id as int].port, data);
                (t2, SendTo::Local { ret: if ok { data.len() as i64 } else { (-1) as i64 }, wake })
            },
        }
    }
}

/// sendto(id, dst, dst_port, payload) by the task in `slot`: `data` holds the
/// caller's bytes, one datagram at most. Loopback delivers straight into the
/// peer queue; -1 if no socket has the port. If the queue is full the caller
/// becomes that socket's waiter and parks. Anything else goes out with the
/// socket's own port as source port.
pub fn sendto(t: &mut SockTable, id: u64, dst_ip: u32, dst_port: u16, data: &[u8], slot: u16) -> (r: SendTo)
    requires
        old(t).wf(),
        data@.len() <= DGRAM_MAX,
        slot < 0xFFFF,
    ensures
        final(t).wf(),
        (final(t)@, r) == sendto_spec(old(t)@, id, dst_ip, dst_port, data@, slot),
{
    let i: usize = match sock_index(id) {
        Some(i) => i,
        None => {
            return SendTo::Ret(-1);
        },
    };
    if data.len() == 0 {
        return SendTo::Ret(0);
    }
    assert(t@[i as int] == t.socks@[i as int]@);
    if !t.socks[i].used {
        return SendTo::Ret(-1);
    }
    let src_port: u16 = t.socks[i].port;
    if dst_ip == OUR_IP {
        match find_port(t, dst_port) {
            Some(j) => {
                let ghost s0 = t@[j as int];
                assert(s0 == t.socks@[j as int]@);
                if t.socks[j].count == QUEUE_DEPTH {
                    t.socks[j].waiter = slot + 1;
                    assert(t.socks@[j as int]@.queue =~= s0.queue);
                    assert(t@ =~= old(t)@.update(j as int, t.socks@[j as int]@));
                    return SendTo::Park;
                }
            },
            None => {},
        }
        let (ok, wake) = deliver(t, dst_port, dst_ip, src_port, data);
        if ok {
            return SendTo::Local { ret: data.len() as i64, wake };
        }
        return SendTo::Local { ret: -1, wake };
    }
    SendTo::Wire { src_port }
}

/// The answer of a `sendto` that went to the wire.
pub fn sendto_done(sent: bool, len: usize) -> (r: i64)
    requires
        len <= DGRAM_MAX,
    ensures
        r == if sent { len as int } else { -1 },
{
    if sent {
        len as i64
    } else {
        -1
    }
}

/// The first `n` bytes of `s`, or all of them if there are fewer.
pub open spec fn cut(s: Seq<u8>, n: int) -> Seq<u8> {
    if s.len() <= n {
        s
    } else {
        s.take(n)
    }
}

pub open spec fn deliver_spec(
    t: Seq<UdpV>,
    dst_port: u16,
    src_ip: u32,
    src_port: u16,
    payload: Seq<u8>,
) -> (Seq<UdpV>, bool, u16) {
    match crate::seqs::first(t, bound_to(dst_port)) {
        None => (t, false, NONE),
        Some(i) => if t[i].queue.len() == QUEUE_DEPTH {
            (
                t.update(
                    i,
                    UdpV { drop_n: ((t[i].drop_n + 1) % 0x1_0000_0000_0000_0000) as u64, ..t[i] },
                ),
                false,
                NONE,
            )
        } else {
            (
                t.update(
                    i,
                    UdpV {
                        queue: t[i].queue.push(
                            DgramV { src_ip, src_port, data: cut(payload, DGRAM_MAX as int) },
                        ),
                        waiter: NONE,
                        ..t[i]
                    },
                ),
                true,
                t[i].waiter,
            )
        },
    }
}

/// Deliver one datagram into the socket bound to `dst_port`; the second
/// result is the waiter to wake. False when nobody is listening or the queue
/// is full.
pub fn deliver(t: &mut SockTable, dst_port: u16, src_ip: u32, src_port: u16, payload: &[u8]) -> (r: (bool, u16))
    requires
        old(t).wf(),
    ensures
        final(t).wf(),
        (final(t)@, r.0, r.1) == deliver_spec(old(t)@, dst_port, src_ip, src_port, payload@),
{
    match find_port(t, dst_port) {
        None => (false, NONE),
        Some(i) => {
            let ghost s0 = old(t)@[i as int];
            assert(s0 == old(t).socks@[i as int]@);
            if t.socks[i].count == QUEUE_DEPTH {
                t.socks[i].drop_n = t.socks[i].drop_n.wrapping_add(1);
                assert(t.socks@[i as int]@.queue =~= s0.queue);
                assert(t@ =~= old(t)@.update(i as int, t.socks@[i as int]@));
                return (false, NONE);
            }
            let n: usize = if payload.len() < DGRAM_MAX {
                payload.len()
            } else {
                DGRAM_MAX
            };
            let data: Vec<u8> = slice_to_vec(slice_subrange(payload, 0, n));
            assert(data@ =~= cut(payload@, DGRAM_MAX as int));
            let d = Dgram { src_ip, src_port, data };
            let ghost dv = d@;
            t.socks[i].enqueue(d);
            let wake: u16 = t.socks[i].waiter;
            t.socks[i].waiter = NONE;
            assert(t.socks@[i as int]@.queue =~= s0.queue.push(dv));
            assert(t@ =~= old(t)@.update(i as int, t.socks@[i as int]@));
            (true, wake)
        },
    }
}

/// What one `recvfrom` gives: an answer, a datagram to hand out (with the
/// waiter to wake, if any, now that there is room), or the caller has to park
/// (it is now the socket's waiter).
pub enum RecvFrom {
    Ret(i64),
    Data(Dgram, u16),
    Park,
}

pub enum RecvFromV {
    Ret(int),
    Data(DgramV, u16),
    Park,
}

impl RecvFrom {
    pub open spec fn view(&self) -> RecvFromV {
        match *self {
            RecvFrom::Ret(r) => RecvFromV::Ret(r as int),
            RecvFrom::Data(d, wake) => RecvFromV::Data(d@, wake),
            RecvFrom::Park => RecvFromV::Park,
        }
    }
}

pub open spec fn recvfrom_spec(t: Seq<UdpV>, id: u64, len: u64, slot: u16) -> (Seq<UdpV>, RecvFromV) {
    if id >= NSOCK {
        (t, RecvFromV::Ret(-1))
    } else if len == 0 {
        (t, RecvFromV::Ret(0))
    } else if !t[id as int].used {
        (t, RecvFromV::Ret(-1))
    } else {
        let s = t[id as int];
        if s.queue.len() == 0 {
            (t.update(id as int, UdpV { waiter: (slot + 1) as u16, ..s }), RecvFromV::Park)
        } else {
            let cap = if len < DGRAM_MAX { len as int } else { DGRAM_MAX as int };
            (
                t.update(
                    id as int,
                    UdpV {
                        queue: s.queue.skip(1),
                        waiter: NONE,
                        recv_n: ((s.recv_n + 1) % 0x1_0000_0000_0000_0000) as u64,
                        ..s
                    },
                ),
                RecvFromV::Data(DgramV { data: cut(s.queue[0].data, cap), ..s.queue[0] }, s.waiter),
            )
        }
    }
}

/// recvfrom(id, len) by the task in `slot`: pop one datagram (whole-datagram
/// semantics: a short buffer truncates and the rest is discarded), which makes
/// room for whoever waits. With nothing queued the caller becomes the socket's
/// waiter and parks.
pub fn recvfrom(t: &mut SockTable, id: u64, len: u64, slot: u16) -> (r: RecvFrom)
    requires
        old(t).wf(),
        slot < 0xFFFF,
    ensures
        final(t).wf(),
        (final(t)@, r@) == recvfrom_spec(old(t)@, id, len, slot),
{
    let i: usize = match sock_index(id) {
        Some(i) => i,
        None => {
            return RecvFrom::Ret(-1);
        },
    };
    let cap: usize = if len < DGRAM_MAX as u64 {
        len as usize
    } else {
        DGRAM_MAX
    };
    if cap == 0 {
        return RecvFrom::Ret(0);
    }
    let ghost s0 = t@[i as int];
    assert(s0 == t.socks@[i as int]@);
    if !t.socks[i].used {
        return RecvFrom::Ret(-1);
    }
    if t.socks[i].count == 0 {
        t.socks[i].waiter = slot + 1;
        assert(t.socks@[i as int]@.queue =~= s0.queue);
        assert(t@ =~= old(t)@.update(i as int, t.socks@[i as int]@));
        return RecvFrom::Park;
    }
    let mut d: Dgram = t.socks[i].dequeue();
    let wake: u16 = t.socks[i].waiter;
    t.socks[i].waiter = NONE;
    t.socks[i].recv_n = t.socks[i].recv_n.wrapping_add(1);
    assert(t.socks@[i as int]@.queue =~= s0.queue.skip(1));
    assert(t@ =~= old(t)@.update(i as int, t.socks@[i as int]@));
    if d.data.len() > cap {
        d.data.truncate(cap);
    }
    RecvFrom::Data(d, wake)
}

/// The six bytes of source metadata that go with a received datagram:
/// [ip 4][port 2], big-endian.
pub fn source_meta(src_ip: u32, src_port: u16) -> (m: Vec<u8>)
    ensures
        m@ == crate::bytes::be4(src_ip) + crate::bytes::be2(src_port),
{
    let mut m: Vec<u8> = vec![0u8; 6];
    crate::bytes::put_be4(&mut m, 0, src_ip);
    crate::bytes::put_be2(&mut m, 4, src_port);
    assert(m@ =~= crate::bytes::be4(src_ip) + crate::bytes::be2(src_port));
    m
}

pub open spec fn udp_row() -> spec_fn(int, UdpV) -> Option<(usize, u16, usize, u64, u64, bool)> {
    |i: int, c: UdpV|
        if c.used {
            Some((i as usize, c.port, c.queue.len() as usize, c.recv_n, c.drop_n, c.waiter != NONE))
        } else {
            None
        }
}

/// Snapshot for the shell's `net` command: id, port, datagrams queued,
/// received, dropped, and whether somebody waits.
pub fn for_each(t: &SockTable) -> (rows: Vec<(usize, u16, usize, u64, u64, bool)>)
    requires
        t.wf(),
    ensures
        rows@ == crate::seqs::collect_some(t@, udp_row(), NSOCK as int),
{
    let mut rows: Vec<(usize, u16, usize, u64, u64, bool)> = Vec::new();
    let mut i: usize = 0;
    while i < NSOCK
        invariant
            t.wf(),
            i <= NSOCK,
            rows@ == crate::seqs::collect_some(t@, udp_row(), i as int),
        decreases NSOCK - i,
    {
        let c = &t.socks[i];
        assert(t@[i as int] == c@);
        if c.used {
            rows.push((i, c.port, c.count, c.recv_n, c.drop_n, c.waiter != NONE));
        }
        i = i + 1;
    }
    rows
}

// --- laws ---
/// A datagram delivered to an idle socket is what the next receive hands out,
/// with its source, cut only to the buffer.
pub proof fn law_deliver_then_recv(
    t: Seq<UdpV>,
    id: u64,
    src_ip: u32,
    src_port: u16,
    payload: Seq<u8>,
    len: u64,
    slot: u16,
)
    requires
        t.len() == NSOCK,
        id < NSOCK,
        crate::seqs::first(t, bound_to(t[id as int].port)) == Some(id as int),
        t[id as int].queue.len() == 0,
        payload.len() <= DGRAM_MAX,
        len > 0,
    ensures
        ({
            let (t2, ok, wake) = deliver_spec(t, t[id as int].port, src_ip, src_port, payload);
            let cap = if len < DGRAM_MAX { len as int } else { DGRAM_MAX as int };
            &&& ok
            &&& wake == t[id as int].waiter
            &&& recvfrom_spec(t2, id, len, slot).1 == RecvFromV::Data(
                DgramV { src_ip, src_port, data: cut(payload, cap) },
                NONE,
            )
        }),
{
    crate::seqs::lemma_first_from(t, bound_to(t[id as int].port), 0);
}

/// Datagrams leave a socket in the order in which they came.
pub proof fn law_udp_fifo(
    t: Seq<UdpV>,
    id: u64,
    src_ip: u32,
    src_port: u16,
    payload: Seq<u8>,
    len: u64,
    slot: u16,
)
    requires
        t.len() == NSOCK,
        id < NSOCK,
        crate::seqs::first(t, bound_to(t[id as int].port)) == Some(id as int),
        0 < t[id as int].queue.len() < QUEUE_DEPTH,
        len > 0,
    ensures
        ({
            let t2 = deliver_spec(t, t[id as int].port, src_ip, src_port, payload).0;
            let r1 = recvfrom_spec(t, id, len, slot);
            let r2 = recvfrom_spec(t2, id, len, slot);
            &&& r1.1 is Data
            &&& r2.1 is Data
            &&& r1.1->Data_0 == r2.1->Data_0
            &&& r2.0[id as int].queue == r1.0[id as int].queue.push(
                DgramV { src_ip, src_port, data: cut(payload, DGRAM_MAX as int) },
            )
        }),
{
    crate::seqs::lemma_first_from(t, bound_to(t[id as int].port), 0);
    let q = t[id as int].queue;
    let d = DgramV { src_ip, src_port, data: cut(payload, DGRAM_MAX as int) };
    assert(q.push(d).skip(1) =~= q.skip(1).push(d));
}

/// Two processes on one machine are network peers: a datagram that a socket
/// sends to our own address is what the socket bound to the destination port
/// receives, with our address and the sender's port as its source.
pub proof fn law_loopback(
    t: Seq<UdpV>,
    from: u64,
    to: u64,
    data: Seq<u8>,
    slot: u16,
)
    requires
        t.len() == NSOCK,
        from < NSOCK,
        to < NSOCK,
        t[from as int].used,
        crate::seqs::first(t, bound_to(t[to as int].port)) == Some(to as int),
        t[to as int].queue.len() == 0,
        0 < data.len() <= DGRAM_MAX,
    ensures
        ({
            let (t2, r) = sendto_spec(t, from, OUR_IP, t[to as int].port, data, slot);
            &&& r == (SendTo::Local { ret: data.len() as i64, wake: t[to as int].waiter })
            &&& recvfrom_spec(t2, to, DGRAM_MAX as u64, slot).1 == RecvFromV::Data(
                DgramV { src_ip: OUR_IP, src_port: t[from as int].port, data },
                NONE,
            )
        }),
{
    law_deliver_then_recv(t, to, OUR_IP, t[from as int].port, data, DGRAM_MAX as u64, slot);
}

/// A sender that finds the queue of its peer full is not forgotten: nothing of
/// the queue changes, the next receive on that socket hands it back to be
/// woken, and the same send then goes through.
pub proof fn law_full_queue_parks_the_sender(
    t: Seq<UdpV>,
    from: u64,
    to: u64,
    data: Seq<u8>,
    sender: u16,
    len: u64,
    receiver: u16,
)
    requires
        t.len() == NSOCK,
        from < NSOCK,
        to < NSOCK,
        t[from as int].used,
        crate::seqs::first(t, bound_to(t[to as int].port)) == Some(to as int),
        t[to as int].queue.len() == QUEUE_DEPTH,
        0 < data.len() <= DGRAM_MAX,
        len > 0,
        sender < 0xFFFF,
    ensures
        ({
            let port = t[to as int].port;
            let (t1, r1) = sendto_spec(t, from, OUR_IP, port, data, sender);
            let (t2, r2) = recvfrom_spec(t1, to, len, receiver);
            let (t3, r3) = sendto_spec(t2, from, OUR_IP, port, data, sender);
            &&& r1 == SendTo::Park
            &&& t1[to as int].queue == t[to as int].queue
            &&& r2 is Data
            &&& r2->Data_1 == sender + 1
            &&& r3 == (SendTo::Local { ret: data.len() as i64, wake: NONE })
            &&& t3[to as int].queue.last() == (DgramV { src_ip: OUR_IP, src_port: t[from as int].port, data })
        }),
{
    let port = t[to as int].port;
    let f = bound_to(port);
    let (t1, r1) = sendto_spec(t, from, OUR_IP, port, data, sender);
    let (t2, r2) = recvfrom_spec(t1, to, len, receiver);
    crate::seqs::lemma_first_from(t, f, 0);
    assert(f(t[to as int]));
    assert forall|j: int| 0 <= j < to implies !f(#[trigger] t2[j]) by {
        assert(!f(t[j]));
        assert(t2[j] == t[j]);
    }
    assert(f(t2[to as int]));
    crate::seqs::lemma_first_is(t2, f, 0, to as int);
    assert(cut(data, DGRAM_MAX as int) == data);
}

} // verus!
