//! TCP for ring 3: a small, honest stream transport.
//!
//!   * passive open: listen(port) -> SYN -> SYN|ACK -> ACK; the completed
//!     connection becomes a fresh socket that `accept` hands out while the
//!     listener keeps listening (one pending connection at a time);
//!   * active open: connect(ip, port) -> SYN -> SYN|ACK -> ACK, 1 s SYN
//!     retransmit, 8 s give-up;
//!   * data: in-order byte stream, immediate ACKs; out-of-order segments
//!     are dropped and re-ACKed at rcv_nxt; a full RX ring accepts what fits
//!     and ACKs only that, so the peer resends the tail;
//!   * retransmission: the TX ring holds unacked bytes; the tick resends the
//!     oldest 1400 bytes every 400 ms (8 retries -> reset);
//!   * close: FIN once, then the slot is freed; inbound FIN moves to
//!     CloseWait, `recv` reports EOF.
//!
//! Blocking calls are written as one step each: the caller sleeps and asks
//! again while a step says so. A segment to transmit is handed back to the
//! caller, which resolves the address and owns the wire.

use vstd::prelude::*;

use crate::net::proto::{
    eth_put, ipv4_put, tcp_checksum_ok, tcp_parse, tcp_put, TcpSeg, ETHERTYPE_IPV4, ETH_HDR, IPV4_HDR_MIN, PROTO_TCP,
    TCP_ACK, TCP_FIN, TCP_HDR_MIN, TCP_PSH, TCP_RST, TCP_SYN,
};
use crate::net::OUR_IP;
use crate::ring::ByteRing;

verus! {

pub const NSOCK: usize = 8;

pub const MSS: usize = 1400;

pub const TX_CAP: usize = 8192;

pub const RX_CAP: usize = 8192;

pub const RCV_WIN: u16 = 8192;

/// How long a blocked caller sleeps between two steps.
pub const TICK_SLEEP_MS: u64 = 5;

/// An active open that is not answered within this time fails.
pub const CONNECT_TIMEOUT_US: u64 = 8_000_000;

#[derive(Clone, Copy, PartialEq, Eq, Structural)]
pub enum St {
    Free,
    Listen,
    SynSent,
    SynRcvd,
    Estab,
    CloseWait,  // peer closed; app drains + closes
    FinWait,  // we sent FIN; waiting for the final ACK
}

/// The printed name of a state.
pub open spec fn st_name(st: St) -> Seq<char> {
    match st {
        St::Free => "FREE"@,
        St::Listen => "LISTEN"@,
        St::SynSent => "SYN-SENT"@,
        St::SynRcvd => "SYN-RCVD"@,
        St::Estab => "ESTAB"@,
        St::CloseWait => "CLOSE-WAIT"@,
        St::FinWait => "FIN-WAIT"@,
    }
}

impl St {
    pub fn as_str(self) -> (r: &'static str)
        ensures
            r@ == st_name(self),
    {
        match self {
            St::Free => "FREE",
            St::Listen => "LISTEN",
            St::SynSent => "SYN-SENT",
            St::SynRcvd => "SYN-RCVD",
            St::Estab => "ESTAB",
            St::CloseWait => "CLOSE-WAIT",
            St::FinWait => "FIN-WAIT",
        }
    }
}

/// Whether `flags` holds the single-bit flag `bit`.
pub open spec fn flag_set(flags: u8, bit: u8) -> bool {
    (flags / bit) % 2 == 1
}

fn has_flag(flags: u8, bit: u8) -> (r: bool)
    requires
        bit > 0,
    ensures
        r == flag_set(flags, bit),
{
    (flags / bit) % 2 == 1
}

pub struct TcpSock {
    pub used: bool,
    pub st: St,
    pub local_port: u16,
    pub peer_ip: u32,
    pub peer_port: u16,
    pub iss: u32,
    pub snd_una: u32,  // oldest unacked byte
    pub snd_nxt: u32,  // next byte to send
    pub rcv_nxt: u32,  // next expected byte from the peer
    pub tx: ByteRing,  // unacked bytes
    pub rx: ByteRing,  // received bytes
    pub rx_eof: bool,  // peer FIN seen: recv returns 0 once the ring drains
    pub last_tx_us: u64,
    pub retries: u32,
    pub snd_n: u64,
    pub rcv_n: u64,
    pub pend_id: Option<u32>,  // listener: the pending connection's socket id
}

/// A socket as the contracts see it: the rings are byte queues.
pub struct SockV {
    pub used: bool,
    pub st: St,
    pub local_port: u16,
    pub peer_ip: u32,
    pub peer_port: u16,
    pub iss: u32,
    pub snd_una: u32,
    pub snd_nxt: u32,
    pub rcv_nxt: u32,
    pub tx: Seq<u8>,
    pub rx: Seq<u8>,
    pub rx_eof: bool,
    pub last_tx_us: u64,
    pub retries: u32,
    pub snd_n: u64,
    pub rcv_n: u64,
    pub pend_id: Option<u32>,
}

/// A socket slot that was never used.
pub open spec fn fresh_sock() -> SockV {
    SockV {
        used: false,
        st: St::Free,
        local_port: 0,
        peer_ip: 0,
        peer_port: 0,
        iss: 0,
        snd_una: 0,
        snd_nxt: 0,
        rcv_nxt: 0,
        tx: Seq::empty(),
        rx: Seq::empty(),
        rx_eof: false,
        last_tx_us: 0,
        retries: 0,
        snd_n: 0,
        rcv_n: 0,
        pend_id: None,
    }
}

impl SockV {
    /// What every reachable socket keeps: a slot is free exactly when it is
    /// unused, the rings respect their capacity, the retry counter stops at
    /// its limit, a stream's ring holds exactly the bytes between `snd_una`
    /// and `snd_nxt`, and a socket that is no stream yet holds none.
    pub open spec fn inv(self) -> bool {
        &&& self.used <==> self.st != St::Free
        &&& self.tx.len() <= TX_CAP
        &&& self.rx.len() <= RX_CAP
        &&& self.retries <= 9
        &&& self.used ==> self.retries <= 8
        &&& self.used && (self.st == St::Estab || self.st == St::CloseWait) ==> (self.snd_una + self.tx.len())
            % 0x1_0000_0000 == self.snd_nxt
        &&& self.used && (self.st == St::Listen || self.st == St::SynSent || self.st == St::SynRcvd)
            ==> self.tx.len() == 0
    }

    /// The slot after its connection has gone.
    pub open spec fn freed(self) -> SockV {
        SockV { used: false, st: St::Free, ..self }
    }
}

impl TcpSock {
    pub open spec fn view(&self) -> SockV {
        SockV {
            used: self.used,
            st: self.st,
            local_port: self.local_port,
            peer_ip: self.peer_ip,
            peer_port: self.peer_port,
            iss: self.iss,
            snd_una: self.snd_una,
            snd_nxt: self.snd_nxt,
            rcv_nxt: self.rcv_nxt,
            tx: self.tx@,
            rx: self.rx@,
            rx_eof: self.rx_eof,
            last_tx_us: self.last_tx_us,
            retries: self.retries,
            snd_n: self.snd_n,
            rcv_n: self.rcv_n,
            pend_id: self.pend_id,
        }
    }

    pub open spec fn rings_ok(&self) -> bool {
        &&& self.tx.wf()
        &&& self.tx.cap() == TX_CAP
        &&& self.rx.wf()
        &&& self.rx.cap() == RX_CAP
    }

    fn fresh() -> (s: TcpSock)
        ensures
            s@ == fresh_sock(),
            s.rings_ok(),
    {
        TcpSock {
            used: false,
            st: St::Free,
            local_port: 0,
            peer_ip: 0,
            peer_port: 0,
            iss: 0,
            snd_una: 0,
            snd_nxt: 0,
            rcv_nxt: 0,
            tx: ByteRing::new(TX_CAP),
            rx: ByteRing::new(RX_CAP),
            rx_eof: false,
            last_tx_us: 0,
            retries: 0,
            snd_n: 0,
            rcv_n: 0,
            pend_id: None,
        }
    }
}

/// The socket table with its two counters: the next ephemeral port and the
/// next initial sequence number.
pub struct TcpTable {
    pub socks: Vec<TcpSock>,
    pub ephemeral: u32,
    pub iss_next: u32,
}

pub struct TcpV {
    pub socks: Seq<SockV>,
    pub ephemeral: u32,
    pub iss_next: u32,
}

impl TcpV {
    pub open spec fn inv(self) -> bool {
        &&& self.socks.len() == NSOCK
        &&& forall|i: int| 0 <= i < NSOCK ==> (#[trigger] self.socks[i]).inv()
    }

    /// The table with slot `i` replaced.
    pub open spec fn with(self, i: int, s: SockV) -> TcpV {
        TcpV { socks: self.socks.update(i, s), ..self }
    }
}

impl TcpTable {
    pub open spec fn view(&self) -> TcpV {
        TcpV {
            socks: self.socks@.map_values(|s: TcpSock| s@),
            ephemeral: self.ephemeral,
            iss_next: self.iss_next,
        }
    }

    pub open spec fn wf(&self) -> bool {
        &&& self@.inv()
        &&& forall|i: int| 0 <= i < self.socks@.len() ==> (#[trigger] self.socks@[i]).rings_ok()
    }

    /// The table at boot.
    pub fn new() -> (t: TcpTable)
        ensures
            t.wf(),
            t@ == (TcpV {
                socks: Seq::new(NSOCK as nat, |i: int| fresh_sock()),
                ephemeral: 20_000,
                iss_next: 0x474C_4D00,
            }),
    {
        let mut socks: Vec<TcpSock> = Vec::new();
        let mut i: usize = 0;
        while i < NSOCK
            invariant
                i <= NSOCK,
                socks@.len() == i,
                forall|j: int| 0 <= j < i ==> (#[trigger] socks@[j])@ == fresh_sock() && socks@[j].rings_ok(),
            decreases NSOCK - i,
        {
            socks.push(TcpSock::fresh());
            i = i + 1;
        }
        let t = TcpTable { socks, ephemeral: 20_000, iss_next: 0x474C_4D00 };
        assert(t@.socks =~= Seq::new(NSOCK as nat, |i: int| fresh_sock()));
        t
    }
}

// --- segments on their way out ---
/// A segment to transmit; the sender fills in our address and window.
pub struct SegOut {
    pub dst_ip: u32,
    pub dst_port: u16,
    pub local_port: u16,
    pub seq: u32,
    pub ack: u32,
    pub flags: u8,
    pub payload: Vec<u8>,
}

pub struct SegV {
    pub dst_ip: u32,
    pub dst_port: u16,
    pub local_port: u16,
    pub seq: u32,
    pub ack: u32,
    pub flags: u8,
    pub payload: Seq<u8>,
}

impl SegOut {
    pub open spec fn view(&self) -> SegV {
        SegV {
            dst_ip: self.dst_ip,
            dst_port: self.dst_port,
            local_port: self.local_port,
            seq: self.seq,
            ack: self.ack,
            flags: self.flags,
            payload: self.payload@,
        }
    }
}

/// The view of an optional segment.
pub open spec fn seg_view(s: Option<SegOut>) -> Option<SegV> {
    match s {
        Some(x) => Some(x@),
        None => None,
    }
}

/// A segment without payload.
pub open spec fn bare_seg(dst_ip: u32, dst_port: u16, local_port: u16, seq: u32, ack: u32, flags: u8) -> SegV {
    SegV { dst_ip, dst_port, local_port, seq, ack, flags, payload: Seq::empty() }
}

fn bare(dst_ip: u32, dst_port: u16, local_port: u16, seq: u32, ack: u32, flags: u8) -> (s: SegOut)
    ensures
        s@ == bare_seg(dst_ip, dst_port, local_port, seq, ack, flags),
{
    let payload: Vec<u8> = Vec::new();
    assert(payload@ =~= Seq::<u8>::empty());
    SegOut { dst_ip, dst_port, local_port, seq, ack, flags, payload }
}

/// The Ethernet frame that carries a segment.
pub open spec fn seg_frame(mac: Seq<u8>, our: Seq<u8>, ip_id: u16, s: SegV) -> Seq<u8> {
    crate::net::proto::eth_header(mac, our, ETHERTYPE_IPV4) + crate::net::proto::ipv4_wire_header(
        ip_id,
        PROTO_TCP,
        OUR_IP,
        s.dst_ip,
        20 + s.payload.len(),
    ) + crate::net::proto::tcp_wire(
        OUR_IP,
        s.dst_ip,
        s.local_port,
        s.dst_port,
        s.seq,
        s.ack,
        s.flags,
        RCV_WIN,
        s.payload,
    )
}

/// The frame for a segment: none when the NIC is down (`online`) or the
/// peer's address did not resolve (`mac`).
pub fn send_seg(online: bool, mac: Option<[u8; 6]>, our: &[u8; 6], ip_id: u16, s: &SegOut) -> (r: Option<Vec<u8>>)
    requires
        s.payload@.len() <= MSS,
    ensures
        r is Some <==> online && mac is Some,
        r matches Some(f) ==> f@ == seg_frame(mac->Some_0@, our@, ip_id, s@),
{
    if !online {
        return None;
    }
    let mac = match mac {
        Some(m) => m,
        None => {
            return None;
        },
    };
    let tl: usize = TCP_HDR_MIN + s.payload.len();
    let mut eth: Vec<u8> = vec![0u8; ETH_HDR];
    let mut ip: Vec<u8> = vec![0u8; IPV4_HDR_MIN];
    let mut tcp: Vec<u8> = vec![0u8; tl];
    let _a: usize = eth_put(&mut eth, &mac, our, ETHERTYPE_IPV4);
    let _b: usize = ipv4_put(&mut ip, ip_id, PROTO_TCP, OUR_IP, s.dst_ip, tl);
    proof {
        crate::net::proto::lemma_word_sum_bound(
            crate::net::proto::tcp_segment(
                s.local_port,
                s.dst_port,
                s.seq,
                s.ack,
                s.flags,
                RCV_WIN,
                0,
                s.payload@,
            ),
        );
    }
    let _c: usize = tcp_put(
        &mut tcp,
        OUR_IP,
        s.dst_ip,
        s.local_port,
        s.dst_port,
        s.seq,
        s.ack,
        s.flags,
        RCV_WIN,
        s.payload.as_slice(),
    );
    eth.append(&mut ip);
    eth.append(&mut tcp);
    assert(eth@ =~= seg_frame(mac@, our@, ip_id, s@));
    Some(eth)
}

// --- lookups ---
pub open spec fn is_unused() -> spec_fn(SockV) -> bool {
    |c: SockV| !c.used
}

pub open spec fn on_port(port: u16) -> spec_fn(SockV) -> bool {
    |c: SockV| c.used && c.local_port == port
}

/// A socket past the SYN that belongs to this four-tuple.
pub open spec fn in_band(local_port: u16, ip: u32, port: u16) -> spec_fn(SockV) -> bool {
    |c: SockV|
        c.used && c.local_port == local_port && c.peer_ip == ip && c.peer_port == port && (c.st == St::SynSent || c.st
            == St::SynRcvd || c.st == St::Estab || c.st == St::CloseWait || c.st == St::FinWait)
}

pub open spec fn listening(port: u16) -> spec_fn(SockV) -> bool {
    |c: SockV| c.used && c.st == St::Listen && c.local_port == port
}

fn find_unused(t: &TcpTable) -> (r: Option<usize>)
    requires
        t.wf(),
    ensures
        r is Some <==> crate::seqs::first(t@.socks, is_unused()) is Some,
        r matches Some(i) ==> i < NSOCK && crate::seqs::first(t@.socks, is_unused()) == Some(i as int)
            && !t@.socks[i as int].used,
{
    let mut i: usize = 0;
    while i < t.socks.len()
        invariant
            t.wf(),
            i <= NSOCK,
            crate::seqs::first_from(t@.socks, is_unused(), i as int) == crate::seqs::first(t@.socks, is_unused()),
        decreases NSOCK - i,
    {
        assert(t@.socks[i as int] == t.socks@[i as int]@);
        if !t.socks[i].used {
            return Some(i);
        }
        i = i + 1;
    }
    None
}

// --- public API ---
pub open spec fn listen_spec(t: TcpV, port: u16) -> (TcpV, int) {
    if port == 0 || crate::seqs::first(t.socks, on_port(port)) is Some {
        (t, -1)
    } else {
        match crate::seqs::first(t.socks, is_unused()) {
            Some(i) => (t.with(i, SockV { used: true, st: St::Listen, local_port: port, ..fresh_sock() }), i),
            None => (t, -1),
        }
    }
}

/// tcp_listen(port): allocate a socket in Listen. -1 when the port is zero or
/// taken, or the table is full.
pub fn listen(t: &mut TcpTable, port: u16) -> (r: i64)
    requires
        old(t).wf(),
    ensures
        final(t).wf(),
        (final(t)@, r as int) == listen_spec(old(t)@, port),
{
    if port == 0 {
        return -1;
    }
    let mut i: usize = 0;
    while i < t.socks.len()
        invariant
            t.wf(),
            *t == *old(t),
            i <= NSOCK,
            port != 0,
            crate::seqs::first_from(t@.socks, on_port(port), i as int) == crate::seqs::first(t@.socks, on_port(port)),
        decreases NSOCK - i,
    {
        assert(t@.socks[i as int] == t.socks@[i as int]@);
        if t.socks[i].used && t.socks[i].local_port == port {
            return -1;
        }
        i = i + 1;
    }
    match find_unused(t) {
        Some(k) => {
            let mut s = TcpSock::fresh();
            s.used = true;
            s.st = St::Listen;
            s.local_port = port;
            let ghost sv = s@;
            t.socks[k] = s;
            assert(t@.socks =~= old(t)@.socks.update(k as int, sv));
            k as i64
        },
        None => -1,
    }
}

/// The socket of an active open at its start.
pub open spec fn syn_sent_sock(t: TcpV, dst_ip: u32, dst_port: u16, now_us: u64) -> SockV {
    SockV {
        used: true,
        st: St::SynSent,
        local_port: (t.ephemeral % 20000 + 20000) as u16,
        peer_ip: dst_ip,
        peer_port: dst_port,
        iss: t.iss_next,
        snd_una: t.iss_next,
        snd_nxt: ((t.iss_next + 1) % 0x1_0000_0000) as u32,
        last_tx_us: now_us,
        ..fresh_sock()
    }
}

pub open spec fn connect_spec(t: TcpV, dst_ip: u32, dst_port: u16, now_us: u64) -> (TcpV, int, Option<SegV>) {
    if dst_port == 0 || dst_ip == OUR_IP {
        (t, -1, None)
    } else {
        match crate::seqs::first(t.socks, is_unused()) {
            None => (t, -1, None),
            Some(i) => {
                let s = syn_sent_sock(t, dst_ip, dst_port, now_us);
                (
                    TcpV {
                        socks: t.socks.update(i, s),
                        ephemeral: ((t.ephemeral + 1) % 0x1_0000_0000) as u32,
                        iss_next: ((t.iss_next + 64000) % 0x1_0000_0000) as u32,
                    },
                    i,
                    Some(bare_seg(dst_ip, dst_port, s.local_port, s.iss, 0, TCP_SYN)),
                )
            },
        }
    }
}

/// tcp_connect(ip, port), opening step: a socket in SynSent and the SYN to
/// send, or -1. The caller then asks `connect_poll` until it has an answer.
pub fn connect(t: &mut TcpTable, dst_ip: u32, dst_port: u16, now_us: u64) -> (r: (i64, Option<SegOut>))
    requires
        old(t).wf(),
    ensures
        final(t).wf(),
        (final(t)@, r.0 as int, seg_view(r.1)) == connect_spec(old(t)@, dst_ip, dst_port, now_us),
{
    if dst_port == 0 || dst_ip == OUR_IP {
        return (-1, None);  // no TCP loopback by design
    }
    match find_unused(t) {
        None => (-1, None),
        Some(k) => {
            let mut s = TcpSock::fresh();
            s.used = true;
            s.st = St::SynSent;
            s.local_port = (t.ephemeral % 20000 + 20000) as u16;
            t.ephemeral = t.ephemeral.wrapping_add(1);
            s.peer_ip = dst_ip;
            s.peer_port = dst_port;
            s.iss = t.iss_next;
            t.iss_next = t.iss_next.wrapping_add(64000);
            s.snd_una = s.iss;
            s.snd_nxt = s.iss.wrapping_add(1);
            s.last_tx_us = now_us;
            let lp: u16 = s.local_port;
            let iss: u32 = s.iss;
            let ghost sv = s@;
            assert(sv == syn_sent_sock(old(t)@, dst_ip, dst_port, now_us));
            t.socks[k] = s;
            assert(t@.socks =~= old(t)@.socks.update(k as int, sv));
            (k as i64, Some(bare(dst_ip, dst_port, lp, iss, 0, TCP_SYN)))
        },
    }
}

/// What a waiting caller is told: sleep and ask again, or the result.
#[derive(Clone, Copy, PartialEq, Eq, Structural)]
pub enum Step {
    Wait,
    Done(i64),
}

/// The answer -1.
pub open spec fn failed() -> Step {
    Step::Done((-1) as i64)
}

pub open spec fn connect_poll_spec(t: TcpV, id: int, t0: u64, now_us: u64) -> (TcpV, Step) {
    if !t.socks[id].used {
        (t, failed())
    } else if t.socks[id].st == St::Estab {
        (t, Step::Done(id as i64))
    } else if now_us - t0 > CONNECT_TIMEOUT_US {
        (t.with(id, t.socks[id].freed()), failed())
    } else {
        (t, Step::Wait)
    }
}

/// One look at an active open that began at `t0`: refused or reset, done,
/// timed out (the slot is freed), or still under way.
pub fn connect_poll(t: &mut TcpTable, id: usize, t0: u64, now_us: u64) -> (r: Step)
    requires
        old(t).wf(),
        id < NSOCK,
    ensures
        final(t).wf(),
        (final(t)@, r) == connect_poll_spec(old(t)@, id as int, t0, now_us),
{
    assert(t@.socks[id as int] == t.socks@[id as int]@);
    if !t.socks[id].used {
        return Step::Done(-1);  // reset / freed by the tick
    }
    if t.socks[id].st == St::Estab {
        return Step::Done(id as i64);
    }
    if now_us.saturating_sub(t0) > CONNECT_TIMEOUT_US {
        free_sock(t, id);
        return Step::Done(-1);
    }
    Step::Wait
}

fn free_sock(t: &mut TcpTable, i: usize)
    requires
        old(t).wf(),
        i < NSOCK,
    ensures
        final(t).wf(),
        final(t)@ == old(t)@.with(i as int, old(t)@.socks[i as int].freed()),
{
    t.socks[i].used = false;
    t.socks[i].st = St::Free;
    assert(old(t)@.socks[i as int] == old(t).socks@[i as int]@);
    assert(t@.socks =~= old(t)@.socks.update(i as int, old(t)@.socks[i as int].freed()));
    assert forall|j: int| 0 <= j < t.socks@.len() implies (#[trigger] t.socks@[j]).rings_ok() by {
        assert(old(t).socks@[j].rings_ok());
    }
}

pub open spec fn accept_spec(t: TcpV, lid: u64) -> (TcpV, Step) {
    if lid >= NSOCK || !t.socks[lid as int].used {
        (t, failed())
    } else {
        match t.socks[lid as int].pend_id {
            Some(id) => (
                t.with(lid as int, SockV { pend_id: None, ..t.socks[lid as int] }),
                Step::Done(id as i64),
            ),
            None => (t, Step::Wait),
        }
    }
}

/// tcp_accept(listen_id), one look: the fresh socket's id once a connection
/// has completed (the listener keeps listening), -1 on a bad listener.
pub fn accept(t: &mut TcpTable, lid: u64) -> (r: Step)
    requires
        old(t).wf(),
    ensures
        final(t).wf(),
        (final(t)@, r) == accept_spec(old(t)@, lid),
{
    if lid >= NSOCK as u64 {
        return Step::Done(-1);
    }
    let i: usize = lid as usize;
    assert(t@.socks[i as int] == t.socks@[i as int]@);
    if !t.socks[i].used {
        return Step::Done(-1);
    }
    match t.socks[i].pend_id {
        Some(id) => {
            t.socks[i].pend_id = None;
            assert(t@.socks =~= old(t)@.socks.update(i as int, SockV { pend_id: None, ..old(t)@.socks[i as int] }));
            assert forall|j: int| 0 <= j < t.socks@.len() implies (#[trigger] t.socks@[j]).rings_ok() by {
                assert(old(t).socks@[j].rings_ok());
            }
            Step::Done(id as i64)
        },
        None => Step::Wait,
    }
}

/// How many bytes one `send` of `len` takes: one MSS at most, and no more
/// than the TX ring has room for.
pub open spec fn send_count(s: SockV, len: int) -> int {
    crate::pixels::min(crate::pixels::min(len, MSS as int), TX_CAP - s.tx.len())
}

pub open spec fn send_spec(t: TcpV, id: u64, data: Seq<u8>, now_us: u64) -> (TcpV, int, Option<SegV>) {
    if id >= NSOCK {
        (t, -1, None)
    } else if data.len() == 0 {
        (t, 0, None)
    } else {
        let s = t.socks[id as int];
        if !s.used || (s.st != St::Estab && s.st != St::CloseWait) || s.tx.len() == TX_CAP {
            (t, -1, None)
        } else {
            let fit = data.take(send_count(s, data.len() as int));
            (
                t.with(
                    id as int,
                    SockV {
                        tx: s.tx + fit,
                        snd_nxt: ((s.snd_nxt + fit.len()) % 0x1_0000_0000) as u32,
                        snd_n: ((s.snd_n + fit.len()) % 0x1_0000_0000_0000_0000) as u64,
                        last_tx_us: now_us,
                        ..s
                    },
                ),
                fit.len() as int,
                Some(
                    SegV {
                        dst_ip: s.peer_ip,
                        dst_port: s.peer_port,
                        local_port: s.local_port,
                        seq: s.snd_nxt,
                        ack: 0,
                        flags: (TCP_ACK + TCP_PSH) as u8,
                        payload: fit,
                    },
                ),
            )
        }
    }
}

/// tcp_send(id, buf, len): `data` holds the caller's bytes. One MSS of them
/// at most goes into the TX ring, as far as it fits, and out at once. Returns
/// how many were taken, or -1 on a bad socket or a full ring.
pub fn send(t: &mut TcpTable, id: u64, data: &[u8], now_us: u64) -> (r: (i64, Option<SegOut>))
    requires
        old(t).wf(),
    ensures
        final(t).wf(),
        (final(t)@, r.0 as int, seg_view(r.1)) == send_spec(old(t)@, id, data@, now_us),
{
    if id >= NSOCK as u64 {
        return (-1, None);
    }
    let i: usize = id as usize;
    let len: usize = if data.len() < MSS {
        data.len()
    } else {
        MSS
    };
    if len == 0 {
        return (0, None);
    }
    let ghost s0 = t@.socks[i as int];
    assert(s0 == t.socks@[i as int]@);
    assert(s0.inv() && t.socks@[i as int].rings_ok());
    if !t.socks[i].used || (t.socks[i].st != St::Estab && t.socks[i].st != St::CloseWait) {
        return (-1, None);
    }
    let free: usize = TX_CAP - t.socks[i].tx.len;
    let n: usize = if len < free {
        len
    } else {
        free
    };
    if n == 0 {
        return (-1, None);  // TX ring full: back off and retry
    }
    let payload: Vec<u8> = vstd::slice::slice_to_vec(vstd::slice::slice_subrange(data, 0, n));
    let ghost fit = data@.take(n as int);
    assert(payload@ =~= fit);
    let _k: usize = t.socks[i].tx.push(payload.as_slice());
    assert(fit.take(n as int) =~= fit);
    let seq: u32 = t.socks[i].snd_nxt;
    t.socks[i].snd_nxt = seq.wrapping_add(n as u32);
    t.socks[i].snd_n = t.socks[i].snd_n.wrapping_add(n as u64);
    t.socks[i].last_tx_us = now_us;
    let out = SegOut {
        dst_ip: t.socks[i].peer_ip,
        dst_port: t.socks[i].peer_port,
        local_port: t.socks[i].local_port,
        seq,
        ack: 0,
        flags: TCP_ACK + TCP_PSH,
        payload,
    };
    let ghost sv = send_spec(old(t)@, id, data@, now_us).0.socks[i as int];
    assert(t.socks@[i as int]@ == sv);
    assert(t@.socks =~= old(t)@.socks.update(i as int, sv));
    assert(sv.inv()) by {
        assert(((s0.snd_una + s0.tx.len()) % 0x1_0000_0000 + n) % 0x1_0000_0000 == (s0.snd_una + s0.tx.len() + n)
            % 0x1_0000_0000);
    }
    assert forall|j: int| 0 <= j < t.socks@.len() implies (#[trigger] t.socks@[j]).rings_ok() by {
        assert(old(t).socks@[j].rings_ok());
    }
    (n as i64, Some(out))
}

/// What one look at a socket's receive side gives.
pub enum RecvStep {
    Data(Vec<u8>),
    Ret(i64),
    Block,
}

pub enum RecvV {
    Data(Seq<u8>),
    Ret(int),
    Block,
}

impl RecvStep {
    pub open spec fn view(&self) -> RecvV {
        match *self {
            RecvStep::Data(d) => RecvV::Data(d@),
            RecvStep::Ret(r) => RecvV::Ret(r as int),
            RecvStep::Block => RecvV::Block,
        }
    }
}

/// The number of bytes one `recv` of `len` hands out.
pub open spec fn recv_count(s: SockV, len: u64) -> int {
    let cap = if len < MSS { len as int } else { MSS as int };
    if cap < s.rx.len() {
        cap
    } else {
        s.rx.len() as int
    }
}

pub open spec fn recv_spec(t: TcpV, id: u64, len: u64) -> (TcpV, RecvV) {
    if id >= NSOCK {
        (t, RecvV::Ret(-1))
    } else if len == 0 {
        (t, RecvV::Ret(0))
    } else {
        let s = t.socks[id as int];
        let n = recv_count(s, len);
        if s.rx.len() > 0 {
            (t.with(id as int, SockV { rx: s.rx.skip(n), ..s }), RecvV::Data(s.rx.take(n)))
        } else if !s.used {
            (t, RecvV::Ret(-1))
        } else if s.rx_eof || s.st == St::CloseWait {
            (t, RecvV::Ret(0))
        } else {
            (t, RecvV::Block)
        }
    }
}

/// tcp_recv(id, len), one look: in-order bytes (up to one MSS), 0 once the
/// peer has closed and the stream has drained, -1 on a bad socket, or nothing
/// yet.
pub fn recv(t: &mut TcpTable, id: u64, len: u64) -> (r: RecvStep)
    requires
        old(t).wf(),
    ensures
        final(t).wf(),
        (final(t)@, r@) == recv_spec(old(t)@, id, len),
{
    if id >= NSOCK as u64 {
        return RecvStep::Ret(-1);
    }
    let i: usize = id as usize;
    let cap: usize = if len < MSS as u64 {
        len as usize
    } else {
        MSS
    };
    if cap == 0 {
        return RecvStep::Ret(0);
    }
    let ghost s0 = t@.socks[i as int];
    assert(s0 == t.socks@[i as int]@);
    assert(s0.inv() && t.socks@[i as int].rings_ok());
    if t.socks[i].rx.len > 0 {
        let out: Vec<u8> = t.socks[i].rx.pop(cap);
        let ghost n = recv_count(s0, len);
        let ghost sv = SockV { rx: s0.rx.skip(n), ..s0 };
        assert(t.socks@[i as int]@ == sv);
        assert(t@.socks =~= old(t)@.socks.update(i as int, sv));
        assert forall|j: int| 0 <= j < t.socks@.len() implies (#[trigger] t.socks@[j]).rings_ok() by {
            assert(old(t).socks@[j].rings_ok());
        }
        return RecvStep::Data(out);
    }
    if !t.socks[i].used {
        return RecvStep::Ret(-1);
    }
    if t.socks[i].rx_eof || t.socks[i].st == St::CloseWait {
        return RecvStep::Ret(0);
    }
    RecvStep::Block
}

pub open spec fn close_spec(t: TcpV, id: u64) -> (TcpV, int, Option<SegV>) {
    if id >= NSOCK || !t.socks[id as int].used {
        (t, -1, None)
    } else {
        let s = t.socks[id as int];
        (
            t.with(id as int, s.freed()),
            0,
            if s.peer_ip != 0 {
                Some(
                    bare_seg(
                        s.peer_ip,
                        s.peer_port,
                        s.local_port,
                        s.snd_nxt,
                        s.rcv_nxt,
                        if s.rcv_nxt != 0 { (TCP_FIN + TCP_ACK) as u8 } else { TCP_FIN },
                    ),
                )
            } else {
                None
            },
        )
    }
}

/// tcp_close(id): FIN once (fire-and-forget) and free the slot.
pub fn close(t: &mut TcpTable, id: u64) -> (r: (i64, Option<SegOut>))
    requires
        old(t).wf(),
    ensures
        final(t).wf(),
        (final(t)@, r.0 as int, seg_view(r.1)) == close_spec(old(t)@, id),
{
    if id >= NSOCK as u64 {
        return (-1, None);
    }
    let i: usize = id as usize;
    assert(t@.socks[i as int] == t.socks@[i as int]@);
    if !t.socks[i].used {
        return (-1, None);
    }
    let dip: u32 = t.socks[i].peer_ip;
    let dp: u16 = t.socks[i].peer_port;
    let lp: u16 = t.socks[i].local_port;
    let seq: u32 = t.socks[i].snd_nxt;
    let ack: u32 = t.socks[i].rcv_nxt;
    free_sock(t, i);
    if dip != 0 {
        let flags: u8 = if ack != 0 {
            TCP_FIN + TCP_ACK
        } else {
            TCP_FIN
        };
        return (0, Some(bare(dip, dp, lp, seq, ack, flags)));
    }
    (0, None)
}

// --- ingress ---
/// The fields of an inbound segment.
pub struct InSeg {
    pub src_port: u16,
    pub dst_port: u16,
    pub seq: u32,
    pub ack: u32,
    pub flags: u8,
    pub payload: Seq<u8>,
}

/// The segment that the bytes `p` hold.
pub open spec fn in_seg(p: Seq<u8>) -> InSeg {
    InSeg {
        src_port: crate::bytes::rd_be2(p, 0),
        dst_port: crate::bytes::rd_be2(p, 2),
        seq: crate::bytes::rd_be4(p, 4),
        ack: crate::bytes::rd_be4(p, 8),
        flags: p[13],
        payload: p.subrange(crate::net::proto::tcp_doff(p), p.len() as int),
    }
}

/// A SYN on listener `lid`: the handshake is held on the listener itself and
/// answered with SYN|ACK.
pub open spec fn handle_syn_spec(t: TcpV, lid: int, src_ip: u32, g: InSeg, now_us: u64) -> (TcpV, Option<SegV>) {
    let s = t.socks[lid];
    let rcv = ((g.seq + 1) % 0x1_0000_0000) as u32;
    (
        TcpV {
            socks: t.socks.update(
                lid,
                SockV {
                    st: St::SynRcvd,
                    peer_ip: src_ip,
                    peer_port: g.src_port,
                    iss: t.iss_next,
                    snd_nxt: ((t.iss_next + 1) % 0x1_0000_0000) as u32,
                    snd_una: t.iss_next,
                    rcv_nxt: rcv,
                    last_tx_us: now_us,
                    ..s
                },
            ),
            iss_next: ((t.iss_next + 64000) % 0x1_0000_0000) as u32,
            ..t
        },
        Some(bare_seg(src_ip, g.src_port, s.local_port, t.iss_next, rcv, (TCP_SYN + TCP_ACK) as u8)),
    )
}

/// The ACK that completes a passive open promotes the pending handshake to a
/// fresh socket; with no room for one it is reset. Either way the listener
/// listens again.
pub open spec fn promote_spec(t: TcpV, i: int, ack: u32) -> (TcpV, Option<SegV>) {
    let s = SockV { snd_una: ack, ..t.socks[i] };
    match crate::seqs::first(t.socks, is_unused()) {
        None => (
            t.with(i, SockV { st: St::Listen, ..s }),
            Some(bare_seg(s.peer_ip, s.peer_port, s.local_port, ack, 0, TCP_RST)),
        ),
        Some(ni) => (
            t.with(
                ni,
                SockV {
                    used: true,
                    st: St::Estab,
                    local_port: s.local_port,
                    peer_ip: s.peer_ip,
                    peer_port: s.peer_port,
                    iss: s.iss,
                    snd_una: ack,
                    snd_nxt: ack,
                    rcv_nxt: s.rcv_nxt,
                    ..fresh_sock()
                },
            ).with(i, SockV { st: St::Listen, pend_id: Some(ni as u32), ..s }),
            None,
        ),
    }
}

/// How many bytes of the TX ring an acknowledgement number covers; more than
/// there are if it acknowledges what was never sent, or has wrapped behind
/// `snd_una`.
pub open spec fn ack_span(s: SockV, ack: u32) -> int {
    (ack - s.snd_una) % 0x1_0000_0000
}

/// A stream socket after the ACK field of a segment: an acknowledgement after
/// `snd_una` and up to `snd_nxt` frees the bytes that it covers.
pub open spec fn acked_sock(s: SockV, g: InSeg, now_us: u64) -> SockV {
    let n = ack_span(s, g.ack);
    if flag_set(g.flags, TCP_ACK) && 0 < n <= s.tx.len() {
        SockV { tx: s.tx.skip(n), snd_una: g.ack, retries: 0, last_tx_us: now_us, ..s }
    } else {
        s
    }
}

/// How much of a segment's payload a socket takes: all that fits of the next
/// expected bytes, nothing of any others.
pub open spec fn taken(s: SockV, g: InSeg) -> Seq<u8> {
    if g.seq != s.rcv_nxt {
        Seq::empty()
    } else if g.payload.len() < RX_CAP - s.rx.len() {
        g.payload
    } else {
        g.payload.take(RX_CAP - s.rx.len())
    }
}

/// A stream socket after the payload of a segment.
pub open spec fn data_sock(s: SockV, g: InSeg) -> SockV {
    let d = taken(s, g);
    SockV {
        rx: s.rx + d,
        rcv_n: ((s.rcv_n + d.len()) % 0x1_0000_0000_0000_0000) as u64,
        rcv_nxt: ((s.rcv_nxt + d.len()) % 0x1_0000_0000) as u32,
        ..s
    }
}

/// Whether a socket takes the FIN of a segment: the segment is the next
/// expected one, and all of its payload before the FIN is taken.
pub open spec fn takes_fin(s: SockV, g: InSeg) -> bool {
    flag_set(g.flags, TCP_FIN) && g.seq == s.rcv_nxt && taken(s, g).len() == g.payload.len()
}

/// A stream socket after a FIN that it takes.
pub open spec fn fin_sock(s: SockV) -> SockV {
    let rcv = ((s.rcv_nxt + 1) % 0x1_0000_0000) as u32;
    if s.st == St::Estab {
        SockV { rcv_nxt: rcv, st: St::CloseWait, rx_eof: true, ..s }
    } else {
        SockV { rcv_nxt: rcv, ..s }
    }
}

/// A stream socket after a segment: ACK, then data, then FIN.
pub open spec fn stream_sock(s: SockV, g: InSeg, now_us: u64) -> SockV {
    let a = acked_sock(s, g, now_us);
    let d = data_sock(a, g);
    if takes_fin(a, g) {
        fin_sock(d)
    } else {
        d
    }
}

/// Everything after a SYN for a matched socket.
pub open spec fn handle_inband_spec(t: TcpV, i: int, src_ip: u32, g: InSeg, now_us: u64) -> (TcpV, Option<SegV>) {
    let s = t.socks[i];
    if flag_set(g.flags, TCP_RST) {
        (t.with(i, s.freed()), None)
    } else {
        match s.st {
            St::SynSent => if flag_set(g.flags, TCP_SYN) && g.ack == s.snd_nxt {
                let rcv = ((g.seq + 1) % 0x1_0000_0000) as u32;
                (
                    t.with(i, SockV { rcv_nxt: rcv, snd_una: g.ack, st: St::Estab, last_tx_us: now_us, ..s }),
                    Some(bare_seg(src_ip, g.src_port, s.local_port, s.snd_nxt, rcv, TCP_ACK)),
                )
            } else {
                (t, None)
            },
            St::SynRcvd => if flag_set(g.flags, TCP_ACK) && g.ack == s.snd_nxt {
                promote_spec(t, i, g.ack)
            } else {
                (t, None)
            },
            St::Estab | St::CloseWait => {
                let s2 = stream_sock(s, g, now_us);
                (
                    t.with(i, s2),
                    if g.payload.len() > 0 || flag_set(g.flags, TCP_FIN) {
                        Some(bare_seg(src_ip, g.src_port, s.local_port, s.snd_nxt, s2.rcv_nxt, TCP_ACK))
                    } else {
                        None
                    },
                )
            },
            St::FinWait => if flag_set(g.flags, TCP_ACK) {
                (t.with(i, s.freed()), None)
            } else {
                (t, None)
            },
            _ => (t, None),
        }
    }
}

/// Where a valid segment goes: to the connection of its four-tuple, else (a
/// plain SYN) to a listener, else it is answered with a RST.
pub open spec fn route_spec(t: TcpV, src_ip: u32, g: InSeg, now_us: u64) -> (TcpV, Option<SegV>) {
    match crate::seqs::first(t.socks, in_band(g.dst_port, src_ip, g.src_port)) {
        Some(i) => handle_inband_spec(t, i, src_ip, g, now_us),
        None => match crate::seqs::first(t.socks, listening(g.dst_port)) {
            Some(i) => if flag_set(g.flags, TCP_SYN) && !flag_set(g.flags, TCP_ACK) {
                handle_syn_spec(t, i, src_ip, g, now_us)
            } else {
                (t, None)
            },
            None => if !flag_set(g.flags, TCP_RST) {
                (t, Some(bare_seg(src_ip, g.src_port, g.dst_port, 0, 0, TCP_RST)))
            } else {
                (t, None)
            },
        },
    }
}

pub open spec fn ingress_spec(t: TcpV, src_ip: u32, p: Seq<u8>, now_us: u64) -> (TcpV, Option<SegV>) {
    if !crate::net::proto::tcp_parse_ok(p) || !crate::net::proto::tcp_sum_ok(src_ip, OUR_IP, p) {
        (t, None)
    } else {
        route_spec(t, src_ip, in_seg(p), now_us)
    }
}

/// Handle one inbound TCP segment from `src_ip`: a matching connection first,
/// then listeners for SYNs, and a RST for whatever belongs to nobody.
pub fn ingress(t: &mut TcpTable, src_ip: u32, p: &[u8], now_us: u64) -> (r: Option<SegOut>)
    requires
        old(t).wf(),
        p@.len() <= 65535,
    ensures
        final(t).wf(),
        (final(t)@, seg_view(r)) == ingress_spec(old(t)@, src_ip, p@, now_us),
{
    let seg = match tcp_parse(p) {
        Some(s) => s,
        None => {
            return None;
        },
    };
    proof {
        crate::net::proto::lemma_word_sum_bound(p@);
    }
    if !tcp_checksum_ok(src_ip, OUR_IP, p) {
        return None;
    }
    let ghost g = in_seg(p@);
    let ghost pred = in_band(g.dst_port, src_ip, g.src_port);
    let mut i: usize = 0;
    while i < t.socks.len()
        invariant
            t.wf(),
            *t == *old(t),
            i <= NSOCK,
            p@.len() <= 65535,
            g == in_seg(p@),
            seg.src_port == g.src_port,
            seg.dst_port == g.dst_port,
            seg.seq == g.seq,
            seg.ack == g.ack,
            seg.flags == g.flags,
            seg.payload@ == g.payload,
            crate::net::proto::tcp_parse_ok(p@),
            crate::net::proto::tcp_sum_ok(src_ip, OUR_IP, p@),
            pred == in_band(g.dst_port, src_ip, g.src_port),
            crate::seqs::first_from(t@.socks, pred, i as int) == crate::seqs::first(t@.socks, pred),
        decreases NSOCK - i,
    {
        assert(t@.socks[i as int] == t.socks@[i as int]@);
        let c = &t.socks[i];
        if c.used && c.local_port == seg.dst_port && c.peer_ip == src_ip && c.peer_port == seg.src_port && (c.st
            == St::SynSent || c.st == St::SynRcvd || c.st == St::Estab || c.st == St::CloseWait || c.st
            == St::FinWait) {
            return handle_inband(t, i, src_ip, &seg, now_us, Ghost(g));
        }
        i = i + 1;
    }
    let ghost lp = listening(g.dst_port);
    let mut k: usize = 0;
    while k < t.socks.len()
        invariant
            t.wf(),
            *t == *old(t),
            k <= NSOCK,
            p@.len() <= 65535,
            g == in_seg(p@),
            seg.src_port == g.src_port,
            seg.dst_port == g.dst_port,
            seg.seq == g.seq,
            seg.ack == g.ack,
            seg.flags == g.flags,
            seg.payload@ == g.payload,
            crate::net::proto::tcp_parse_ok(p@),
            crate::net::proto::tcp_sum_ok(src_ip, OUR_IP, p@),
            crate::seqs::first(t@.socks, in_band(g.dst_port, src_ip, g.src_port)) is None,
            lp == listening(g.dst_port),
            crate::seqs::first_from(t@.socks, lp, k as int) == crate::seqs::first(t@.socks, lp),
        decreases NSOCK - k,
    {
        assert(t@.socks[k as int] == t.socks@[k as int]@);
        if t.socks[k].used && t.socks[k].st == St::Listen && t.socks[k].local_port == seg.dst_port {
            if has_flag(seg.flags, TCP_SYN) && !has_flag(seg.flags, TCP_ACK) {
                return handle_syn(t, k, src_ip, &seg, now_us, Ghost(g));
            }
            return None;
        }
        k = k + 1;
    }
    if !has_flag(seg.flags, TCP_RST) {
        return Some(bare(src_ip, seg.src_port, seg.dst_port, 0, 0, TCP_RST));
    }
    None
}

/// SYN on a listener: answer SYN|ACK and hold the pending handshake on the
/// listener itself (state SynRcvd, one pending connection at a time).
fn handle_syn(
    t: &mut TcpTable,
    lid: usize,
    src_ip: u32,
    seg: &TcpSeg<'_>,
    now_us: u64,
    Ghost(g): Ghost<InSeg>,
) -> (r: Option<SegOut>)
    requires
        old(t).wf(),
        lid < NSOCK,
        old(t)@.socks[lid as int].used,
        old(t)@.socks[lid as int].st == St::Listen,
        seg.src_port == g.src_port,
        seg.seq == g.seq,
    ensures
        final(t).wf(),
        (final(t)@, seg_view(r)) == handle_syn_spec(old(t)@, lid as int, src_ip, g, now_us),
{
    let iss: u32 = t.iss_next;
    t.iss_next = iss.wrapping_add(64000);
    let ghost s0 = old(t)@.socks[lid as int];
    assert(s0 == old(t).socks@[lid as int]@);
    let rcv: u32 = seg.seq.wrapping_add(1);  // consume the SYN
    t.socks[lid].st = St::SynRcvd;
    t.socks[lid].peer_ip = src_ip;
    t.socks[lid].peer_port = seg.src_port;
    t.socks[lid].iss = iss;
    t.socks[lid].snd_nxt = iss.wrapping_add(1);
    t.socks[lid].snd_una = iss;
    t.socks[lid].rcv_nxt = rcv;
    t.socks[lid].last_tx_us = now_us;
    let lp: u16 = t.socks[lid].local_port;
    let ghost sv = handle_syn_spec(old(t)@, lid as int, src_ip, g, now_us).0.socks[lid as int];
    assert(t.socks@[lid as int]@ == sv);
    assert(t@.socks =~= old(t)@.socks.update(lid as int, sv));
    assert forall|j: int| 0 <= j < t.socks@.len() implies (#[trigger] t.socks@[j]).rings_ok() by {
        assert(old(t).socks@[j].rings_ok());
    }
    Some(bare(src_ip, seg.src_port, lp, iss, rcv, TCP_SYN + TCP_ACK))
}

fn promote(t: &mut TcpTable, i: usize, ack: u32) -> (r: Option<SegOut>)
    requires
        old(t).wf(),
        i < NSOCK,
        old(t)@.socks[i as int].used,
        old(t)@.socks[i as int].st == St::SynRcvd,
    ensures
        final(t).wf(),
        (final(t)@, seg_view(r)) == promote_spec(old(t)@, i as int, ack),
{
    let ghost s0 = old(t)@.socks[i as int];
    assert(s0 == old(t).socks@[i as int]@);
    let dip: u32 = t.socks[i].peer_ip;
    let dp: u16 = t.socks[i].peer_port;
    let lp: u16 = t.socks[i].local_port;
    let rcv: u32 = t.socks[i].rcv_nxt;
    match find_unused(t) {
        None => {
            // table full: reset the pending connection, keep listening
            t.socks[i].snd_una = ack;
            t.socks[i].st = St::Listen;
            assert(t@.socks =~= old(t)@.socks.update(i as int, SockV { snd_una: ack, st: St::Listen, ..s0 }));
            assert forall|j: int| 0 <= j < t.socks@.len() implies (#[trigger] t.socks@[j]).rings_ok() by {
                assert(old(t).socks@[j].rings_ok());
            }
            Some(bare(dip, dp, lp, ack, 0, TCP_RST))
        },
        Some(ni) => {
            let mut s = TcpSock::fresh();
            s.used = true;
            s.st = St::Estab;
            s.local_port = lp;
            s.peer_ip = dip;
            s.peer_port = dp;
            s.iss = t.socks[i].iss;
            s.snd_una = ack;
            s.snd_nxt = ack;
            s.rcv_nxt = rcv;
            let ghost sv = s@;
            t.socks[ni] = s;
            // the listener goes back to Listen and remembers the child
            t.socks[i].snd_una = ack;
            t.socks[i].st = St::Listen;
            t.socks[i].pend_id = Some(ni as u32);
            assert(t@.socks =~= old(t)@.socks.update(ni as int, sv).update(
                i as int,
                SockV { st: St::Listen, pend_id: Some(ni as u32), snd_una: ack, ..s0 },
            ));
            assert forall|j: int| 0 <= j < t.socks@.len() implies (#[trigger] t.socks@[j]).rings_ok() by {
                assert(old(t).socks@[j].rings_ok());
            }
            None
        },
    }
}

/// Everything after a SYN for a matched socket.
fn handle_inband(
    t: &mut TcpTable,
    i: usize,
    src_ip: u32,
    seg: &TcpSeg<'_>,
    now_us: u64,
    Ghost(g): Ghost<InSeg>,
) -> (r: Option<SegOut>)
    requires
        old(t).wf(),
        i < NSOCK,
        old(t)@.socks[i as int].used,
        seg.src_port == g.src_port,
        seg.dst_port == g.dst_port,
        seg.seq == g.seq,
        seg.ack == g.ack,
        seg.flags == g.flags,
        seg.payload@ == g.payload,
        g.payload.len() <= 65535,
    ensures
        final(t).wf(),
        (final(t)@, seg_view(r)) == handle_inband_spec(old(t)@, i as int, src_ip, g, now_us),
{
    let ghost s0 = old(t)@.socks[i as int];
    assert(s0 == old(t).socks@[i as int]@);
    assert(s0.inv() && old(t).socks@[i as int].rings_ok());
    // RST kills the connection in any state
    if has_flag(seg.flags, TCP_RST) {
        free_sock(t, i);
        return None;
    }
    match t.socks[i].st {
        St::SynSent => {
            if has_flag(seg.flags, TCP_SYN) && seg.ack == t.socks[i].snd_nxt {
                let rcv: u32 = seg.seq.wrapping_add(1);
                t.socks[i].rcv_nxt = rcv;
                t.socks[i].snd_una = seg.ack;
                t.socks[i].st = St::Estab;
                t.socks[i].last_tx_us = now_us;
                let lp: u16 = t.socks[i].local_port;
                let snd: u32 = t.socks[i].snd_nxt;
                assert(t@.socks =~= old(t)@.socks.update(
                    i as int,
                    SockV { rcv_nxt: rcv, snd_una: g.ack, st: St::Estab, last_tx_us: now_us, ..s0 },
                ));
                assert forall|j: int| 0 <= j < t.socks@.len() implies (#[trigger] t.socks@[j]).rings_ok() by {
                    assert(old(t).socks@[j].rings_ok());
                }
                return Some(bare(src_ip, seg.src_port, lp, snd, rcv, TCP_ACK));
            }
            None
        },
        St::SynRcvd => {
            // the ACK completes the handshake: promote to a fresh socket
            if has_flag(seg.flags, TCP_ACK) && seg.ack == t.socks[i].snd_nxt {
                return promote(t, i, seg.ack);
            }
            None
        },
        St::Estab | St::CloseWait => stream_segment(t, i, src_ip, seg, now_us, Ghost(g)),
        St::FinWait => {
            // final ACK for our FIN -> done
            if has_flag(seg.flags, TCP_ACK) {
                free_sock(t, i);
            }
            None
        },
        _ => None,
    }
}

/// A segment for an established stream: ACK, then data, then FIN.
#[verifier::spinoff_prover]
#[verifier::rlimit(60)]
fn stream_segment(
    t: &mut TcpTable,
    i: usize,
    src_ip: u32,
    seg: &TcpSeg<'_>,
    now_us: u64,
    Ghost(g): Ghost<InSeg>,
) -> (r: Option<SegOut>)
    requires
        old(t).wf(),
        i < NSOCK,
        old(t)@.socks[i as int].used,
        old(t)@.socks[i as int].st == St::Estab || old(t)@.socks[i as int].st == St::CloseWait,
        !flag_set(g.flags, TCP_RST),
        seg.src_port == g.src_port,
        seg.seq == g.seq,
        seg.ack == g.ack,
        seg.flags == g.flags,
        seg.payload@ == g.payload,
        g.payload.len() <= 65535,
    ensures
        final(t).wf(),
        (final(t)@, seg_view(r)) == handle_inband_spec(old(t)@, i as int, src_ip, g, now_us),
{
    let ghost s0 = old(t)@.socks[i as int];
    assert(s0 == old(t).socks@[i as int]@);
    assert(s0.inv() && old(t).socks@[i as int].rings_ok());
    let mut need_ack = false;
    // ACK advance: free acked TX bytes
    if has_flag(seg.flags, TCP_ACK) {
        let span: u32 = seg.ack.wrapping_sub(t.socks[i].snd_una);
        assert(span == ack_span(s0, g.ack));
        if span > 0 && span as usize <= t.socks[i].tx.len {
            t.socks[i].tx.drop_front(span as usize);
            t.socks[i].snd_una = seg.ack;
            t.socks[i].retries = 0;
            t.socks[i].last_tx_us = now_us;
        }
    }
    let ghost s1 = acked_sock(s0, g, now_us);
    assert(t.socks@[i as int]@ == s1);
    assert(s1.inv());
    // in-order data; anything else is only re-ACKed
    let in_order: bool = seg.seq == t.socks[i].rcv_nxt;
    let mut whole: bool = in_order;
    if seg.payload.len() > 0 {
        need_ack = true;
        if in_order {
            let take: usize = t.socks[i].rx.push(seg.payload);
            t.socks[i].rcv_n = t.socks[i].rcv_n.wrapping_add(take as u64);
            // only consume what was kept: the tail is retransmitted after our ACK
            t.socks[i].rcv_nxt = t.socks[i].rcv_nxt.wrapping_add(take as u32);
            whole = take == seg.payload.len();
        }
    }
    let ghost s2 = data_sock(s1, g);
    proof {
        assert(g.payload.take(g.payload.len() as int) =~= g.payload);
        assert(t.socks@[i as int].rx@ =~= s2.rx);
        assert(t.socks@[i as int]@ == s2);
    }
    // FIN: the last thing of its segment, taken only with all that precedes it
    if has_flag(seg.flags, TCP_FIN) {
        need_ack = true;
        if whole {
            t.socks[i].rcv_nxt = t.socks[i].rcv_nxt.wrapping_add(1);
            if t.socks[i].st == St::Estab {
                t.socks[i].st = St::CloseWait;
                t.socks[i].rx_eof = true;
            }
        }
    }
    let ghost s3 = stream_sock(s0, g, now_us);
    assert(t.socks@[i as int]@ == s3);
    assert(s3.inv());
    assert(t@.socks =~= old(t)@.socks.update(i as int, s3));
    assert forall|j: int| 0 <= j < t.socks@.len() implies (#[trigger] t.socks@[j]).rings_ok() by {
        assert(old(t).socks@[j].rings_ok());
    }
    if need_ack {
        let lp: u16 = t.socks[i].local_port;
        let snd: u32 = t.socks[i].snd_nxt;
        let rcv: u32 = t.socks[i].rcv_nxt;
        return Some(bare(src_ip, seg.src_port, lp, snd, rcv, TCP_ACK));
    }
    None
}

// --- timers ---
/// One socket's part of a tick: what becomes of it and what it resends.
pub open spec fn tick_sock(s: SockV, now_us: u64) -> (SockV, Option<SegV>) {
    let bumped = SockV { retries: (s.retries + 1) as u32, last_tx_us: now_us, ..s };
    if s.used && s.st == St::SynSent && now_us - s.last_tx_us > 1_000_000 {
        if bumped.retries > 8 {
            (bumped.freed(), None)
        } else {
            (bumped, Some(bare_seg(s.peer_ip, s.peer_port, s.local_port, s.iss, 0, TCP_SYN)))
        }
    } else if s.used && (s.st == St::Estab || s.st == St::CloseWait) && s.tx.len() > 0 && now_us - s.last_tx_us
        > 400_000 {
        if bumped.retries > 8 {
            (bumped.freed(), None)
        } else {
            (
                bumped,
                Some(
                    SegV {
                        dst_ip: s.peer_ip,
                        dst_port: s.peer_port,
                        local_port: s.local_port,
                        seq: s.snd_una,
                        ack: 0,
                        flags: (TCP_ACK + TCP_PSH) as u8,
                        payload: s.tx.take(if s.tx.len() < MSS { s.tx.len() as int } else { MSS as int }),
                    },
                ),
            )
        }
    } else {
        (s, None)
    }
}

pub open spec fn tick_emits(now_us: u64) -> spec_fn(int, SockV) -> Option<SegV> {
    |i: int, s: SockV| tick_sock(s, now_us).1
}

/// Retransmission pass, called from the network loop every ~5 ms.
pub fn tick(t: &mut TcpTable, now_us: u64) -> (out: Vec<SegOut>)
    requires
        old(t).wf(),
    ensures
        final(t).wf(),
        final(t)@ == (TcpV {
            socks: old(t)@.socks.map_values(|s: SockV| tick_sock(s, now_us).0),
            ..old(t)@
        }),
        out@.map_values(|s: SegOut| s@) == crate::seqs::collect_some(old(t)@.socks, tick_emits(now_us), NSOCK as int),
{
    let mut out: Vec<SegOut> = Vec::new();
    let ghost v0 = old(t)@;
    let ghost emits = tick_emits(now_us);
    assert(out@.map_values(|s: SegOut| s@) =~= crate::seqs::collect_some(v0.socks, emits, 0));
    let mut i: usize = 0;
    while i < NSOCK
        invariant
            i <= NSOCK,
            t.wf(),
            v0 == old(t)@,
            old(t).wf(),
            emits == tick_emits(now_us),
            t.ephemeral == old(t).ephemeral,
            t.iss_next == old(t).iss_next,
            forall|j: int| 0 <= j < i ==> #[trigger] t@.socks[j] == tick_sock(v0.socks[j], now_us).0,
            forall|j: int| i <= j < NSOCK ==> #[trigger] t@.socks[j] == v0.socks[j],
            out@.map_values(|s: SegOut| s@) == crate::seqs::collect_some(v0.socks, emits, i as int),
        decreases NSOCK - i,
    {
        let ghost before = t@;
        let ghost outs = out@;
        let seg: Option<SegOut> = tick_one(t, i, now_us);
        assert(before.socks[i as int] == v0.socks[i as int]);
        assert forall|j: int| 0 <= j < NSOCK && j != i implies #[trigger] t@.socks[j] == before.socks[j] by {}
        match seg {
            Some(s) => {
                out.push(s);
                assert(out@.map_values(|s: SegOut| s@) =~= outs.map_values(|s: SegOut| s@).push(s@));
            },
            None => {},
        }
        i = i + 1;
    }
    assert(t@.socks =~= v0.socks.map_values(|s: SockV| tick_sock(s, now_us).0));
    out
}

fn tick_one(t: &mut TcpTable, i: usize, now_us: u64) -> (r: Option<SegOut>)
    requires
        old(t).wf(),
        i < NSOCK,
    ensures
        final(t).wf(),
        final(t)@ == old(t)@.with(i as int, tick_sock(old(t)@.socks[i as int], now_us).0),
        seg_view(r) == tick_sock(old(t)@.socks[i as int], now_us).1,
{
    let ghost s0 = old(t)@.socks[i as int];
    assert(s0 == old(t).socks@[i as int]@);
    assert(s0.inv() && old(t).socks@[i as int].rings_ok());
    let quiet: u64 = now_us.saturating_sub(t.socks[i].last_tx_us);
    let used = t.socks[i].used;
    let syn = used && t.socks[i].st == St::SynSent && quiet > 1_000_000;
    let data = used && (t.socks[i].st == St::Estab || t.socks[i].st == St::CloseWait) && t.socks[i].tx.len > 0
        && quiet > 400_000;
    if !syn && !data {
        assert(t@.socks =~= old(t)@.socks.update(i as int, s0));
        return None;
    }
    let tries: u32 = t.socks[i].retries;
    let now_tries: u32 = tries + 1;
    t.socks[i].last_tx_us = now_us;
    let ghost bumped = tick_sock(s0, now_us).0;
    if now_tries > 8 {
        // retransmit limit: reset
        t.socks[i].retries = now_tries;
        t.socks[i].used = false;
        t.socks[i].st = St::Free;
        assert(t.socks@[i as int]@ == bumped);
        assert(t@.socks =~= old(t)@.socks.update(i as int, bumped));
        assert forall|j: int| 0 <= j < t.socks@.len() implies (#[trigger] t.socks@[j]).rings_ok() by {
            assert(old(t).socks@[j].rings_ok());
        }
        return None;
    }
    t.socks[i].retries = now_tries;
    assert(t.socks@[i as int]@ == bumped);
    assert(t@.socks =~= old(t)@.socks.update(i as int, bumped));
    assert forall|j: int| 0 <= j < t.socks@.len() implies (#[trigger] t.socks@[j]).rings_ok() by {
        assert(old(t).socks@[j].rings_ok());
    }
    let dip: u32 = t.socks[i].peer_ip;
    let dp: u16 = t.socks[i].peer_port;
    let lp: u16 = t.socks[i].local_port;
    if syn {
        let iss: u32 = t.socks[i].iss;
        return Some(bare(dip, dp, lp, iss, 0, TCP_SYN));
    }
    let n: usize = if t.socks[i].tx.len < MSS {
        t.socks[i].tx.len
    } else {
        MSS
    };
    let payload: Vec<u8> = t.socks[i].tx.peek(n);
    Some(
        SegOut {
            dst_ip: dip,
            dst_port: dp,
            local_port: lp,
            seq: t.socks[i].snd_una,
            ack: 0,
            flags: TCP_ACK + TCP_PSH,
            payload,
        },
    )
}

/// Snapshot for the shell's `net` command: id, state, local port, peer
/// address and port, bytes in RX and TX, bytes sent and received.
pub fn for_each(t: &TcpTable) -> (rows: Vec<(usize, St, u16, u32, u16, usize, usize, u64, u64)>)
    requires
        t.wf(),
    ensures
        rows@ == crate::seqs::collect_some(t@.socks, sock_row(), NSOCK as int),
{
    let mut rows: Vec<(usize, St, u16, u32, u16, usize, usize, u64, u64)> = Vec::new();
    let mut i: usize = 0;
    while i < NSOCK
        invariant
            t.wf(),
            i <= NSOCK,
            rows@ == crate::seqs::collect_some(t@.socks, sock_row(), i as int),
        decreases NSOCK - i,
    {
        let c = &t.socks[i];
        assert(t@.socks[i as int] == c@);
        if c.used {
            rows.push((i, c.st, c.local_port, c.peer_ip, c.peer_port, c.rx.len, c.tx.len, c.snd_n, c.rcv_n));
        }
        i = i + 1;
    }
    rows
}

pub open spec fn sock_row() -> spec_fn(int, SockV) -> Option<(usize, St, u16, u32, u16, usize, usize, u64, u64)> {
    |i: int, c: SockV|
        if c.used {
            Some(
                (
                    i as usize,
                    c.st,
                    c.local_port,
                    c.peer_ip,
                    c.peer_port,
                    c.rx.len() as usize,
                    c.tx.len() as usize,
                    c.snd_n,
                    c.rcv_n,
                ),
            )
        } else {
            None
        }
}

// --- laws ---
/// In-order bytes that fit are delivered in order: what a stream socket takes
/// from the segment it expects next is what the next receives hand out,
/// behind whatever waited before.
pub proof fn law_stream_in_order(t: TcpV, id: u64, src_ip: u32, g: InSeg, now_us: u64, len: u64)
    requires
        t.inv(),
        id < NSOCK,
        t.socks[id as int].used,
        t.socks[id as int].st == St::Estab,
        !flag_set(g.flags, TCP_RST),
        g.seq == t.socks[id as int].rcv_nxt,
        g.payload.len() > 0,
        t.socks[id as int].rx.len() + g.payload.len() <= RX_CAP,
        len > 0,
    ensures
        ({
            let t2 = handle_inband_spec(t, id as int, src_ip, g, now_us).0;
            let all = t.socks[id as int].rx + g.payload;
            let n = recv_count(t2.socks[id as int], len);
            &&& n > 0
            &&& recv_spec(t2, id, len).1 == RecvV::Data(all.take(n))
            &&& recv_spec(t2, id, len).0.socks[id as int].rx == all.skip(n)
        }),
{
    let s = t.socks[id as int];
    let s1 = acked_sock(s, g, now_us);
    assert(taken(s1, g) =~= g.payload);
}

/// A segment that is not the next expected one is dropped, with a FIN or
/// without: it changes neither the received bytes nor the sequence tracking
/// nor the state, and is re-ACKed at `rcv_nxt`.
pub proof fn law_out_of_order_reacked(t: TcpV, i: int, src_ip: u32, g: InSeg, now_us: u64)
    requires
        t.inv(),
        0 <= i < NSOCK,
        t.socks[i].st == St::Estab || t.socks[i].st == St::CloseWait,
        !flag_set(g.flags, TCP_RST),
        g.seq != t.socks[i].rcv_nxt,
        g.payload.len() > 0 || flag_set(g.flags, TCP_FIN),
    ensures
        ({
            let (t2, out) = handle_inband_spec(t, i, src_ip, g, now_us);
            &&& t2.socks[i].rx == t.socks[i].rx
            &&& t2.socks[i].rcv_n == t.socks[i].rcv_n
            &&& t2.socks[i].rcv_nxt == t.socks[i].rcv_nxt
            &&& t2.socks[i].st == t.socks[i].st
            &&& t2.socks[i].rx_eof == t.socks[i].rx_eof
            &&& out == Some(
                bare_seg(
                    src_ip,
                    g.src_port,
                    t.socks[i].local_port,
                    t.socks[i].snd_nxt,
                    t.socks[i].rcv_nxt,
                    TCP_ACK,
                ),
            )
        }),
{
    let s1 = acked_sock(t.socks[i], g, now_us);
    assert(data_sock(s1, g).rx =~= s1.rx);
}

/// The FIN of the next expected segment ends the stream behind its payload:
/// it is acknowledged, and once what waits is drained, receives read 0.
pub proof fn law_fin_ends_the_stream(t: TcpV, id: u64, src_ip: u32, g: InSeg, now_us: u64)
    requires
        t.inv(),
        id < NSOCK,
        t.socks[id as int].st == St::Estab,
        !flag_set(g.flags, TCP_RST),
        flag_set(g.flags, TCP_FIN),
        g.seq == t.socks[id as int].rcv_nxt,
        t.socks[id as int].rx.len() + g.payload.len() <= RX_CAP,
    ensures
        ({
            let (t2, out) = handle_inband_spec(t, id as int, src_ip, g, now_us);
            &&& t2.socks[id as int].st == St::CloseWait
            &&& t2.socks[id as int].rx == t.socks[id as int].rx + g.payload
            &&& out is Some
            &&& out->Some_0.ack == (g.seq + g.payload.len() + 1) % 0x1_0000_0000
            &&& out->Some_0.flags == TCP_ACK
        }),
{
    let s1 = acked_sock(t.socks[id as int], g, now_us);
    assert(taken(s1, g) =~= g.payload);
}

/// An acknowledgement of the first `n` unacknowledged bytes frees exactly
/// those; one of none, or of more than was sent, frees nothing.
pub proof fn law_ack_frees_what_it_covers(t: TcpV, i: int, src_ip: u32, g: InSeg, now_us: u64, n: int)
    requires
        t.inv(),
        0 <= i < NSOCK,
        t.socks[i].st == St::Estab || t.socks[i].st == St::CloseWait,
        !flag_set(g.flags, TCP_RST),
        flag_set(g.flags, TCP_ACK),
        0 <= n < 0x1_0000_0000,
        g.ack == (t.socks[i].snd_una + n) % 0x1_0000_0000,
    ensures
        ({
            let s = t.socks[i];
            let s2 = handle_inband_spec(t, i, src_ip, g, now_us).0.socks[i];
            &&& s2.snd_nxt == s.snd_nxt
            &&& if 0 < n <= s.tx.len() {
                s2.tx == s.tx.skip(n) && s2.snd_una == g.ack && s2.retries == 0
            } else {
                s2.tx == s.tx && s2.snd_una == s.snd_una && s2.retries == s.retries
            }
        }),
{
    let s = t.socks[i];
    assert(s.inv());
    assert(ack_span(s, g.ack) == n);
}

/// What `send` reports is what it queued: that many of the caller's bytes, in
/// order, wait for their acknowledgement and go out in the segment.
pub proof fn law_send_reports_what_it_queued(t: TcpV, id: u64, data: Seq<u8>, now_us: u64)
    requires
        t.inv(),
        id < NSOCK,
        data.len() > 0,
        send_spec(t, id, data, now_us).1 != -1,
    ensures
        ({
            let (t2, n, out) = send_spec(t, id, data, now_us);
            &&& 0 < n <= data.len()
            &&& n <= MSS
            &&& t2.socks[id as int].tx == t.socks[id as int].tx + data.take(n)
            &&& t2.socks[id as int].snd_nxt == (t.socks[id as int].snd_nxt + n) % 0x1_0000_0000
            &&& out is Some
            &&& out->Some_0.seq == t.socks[id as int].snd_nxt
            &&& out->Some_0.payload == data.take(n)
        }),
{
    assert(t.socks[id as int].inv());
}

/// A full RX ring acknowledges only what it kept: the acknowledged position
/// moves by exactly the bytes that entered the ring, and by one more for a FIN
/// only if they were all there were before it.
pub proof fn law_ack_only_what_fits(t: TcpV, i: int, src_ip: u32, g: InSeg, now_us: u64)
    requires
        t.inv(),
        0 <= i < NSOCK,
        t.socks[i].st == St::Estab || t.socks[i].st == St::CloseWait,
        !flag_set(g.flags, TCP_RST),
        g.payload.len() > 0,
    ensures
        ({
            let (t2, out) = handle_inband_spec(t, i, src_ip, g, now_us);
            let kept = t2.socks[i].rx.len() - t.socks[i].rx.len();
            let fin: int = if flag_set(g.flags, TCP_FIN) && kept == g.payload.len() {
                1
            } else {
                0
            };
            &&& 0 <= kept <= g.payload.len()
            &&& out is Some
            &&& out->Some_0.ack == (t.socks[i].rcv_nxt + kept + fin) % 0x1_0000_0000
        }),
{
    assert(t.socks[i].inv());
}

/// A passive open completes: a listener that gets a SYN answers SYN|ACK, the
/// peer's ACK turns the handshake into an established socket in the first
/// unused slot, and the listener listens again; `accept` on it gives that
/// slot at once.
pub proof fn law_passive_open(t: TcpV, l: int, src_ip: u32, syn: InSeg, ack: InSeg, now1: u64, now2: u64)
    requires
        t.inv(),
        0 <= l < NSOCK,
        crate::seqs::first(t.socks, listening(syn.dst_port)) == Some(l),
        crate::seqs::first(t.socks, in_band(syn.dst_port, src_ip, syn.src_port)) is None,
        crate::seqs::first(t.socks, is_unused()) is Some,
        flag_set(syn.flags, TCP_SYN),
        !flag_set(syn.flags, TCP_ACK),
        ack.src_port == syn.src_port,
        ack.dst_port == syn.dst_port,
        flag_set(ack.flags, TCP_ACK),
        !flag_set(ack.flags, TCP_RST),
        ack.ack == (t.iss_next + 1) % 0x1_0000_0000,
    ensures
        ({
            let (t1, out1) = route_spec(t, src_ip, syn, now1);
            let (t2, out2) = route_spec(t1, src_ip, ack, now2);
            let n = crate::seqs::first(t.socks, is_unused())->Some_0;
            &&& out1 is Some
            &&& out1->Some_0.flags == TCP_SYN + TCP_ACK
            &&& out1->Some_0.ack == (syn.seq + 1) % 0x1_0000_0000
            &&& t2.socks[n].used
            &&& t2.socks[n].st == St::Estab
            &&& t2.socks[n].peer_ip == src_ip
            &&& t2.socks[n].peer_port == syn.src_port
            &&& t2.socks[n].local_port == syn.dst_port
            &&& t2.socks[n].rcv_nxt == (syn.seq + 1) % 0x1_0000_0000
            &&& t2.socks[l].st == St::Listen
            &&& t2.socks[l].pend_id == Some(n as u32)
            &&& 0 <= n < NSOCK
            &&& accept_spec(t2, l as u64).1 == Step::Done(n as i64)
        }),
{
    let lp = listening(syn.dst_port);
    let ib = in_band(syn.dst_port, src_ip, syn.src_port);
    crate::seqs::lemma_first_from(t.socks, lp, 0);
    crate::seqs::lemma_first_from(t.socks, ib, 0);
    crate::seqs::lemma_first_from(t.socks, is_unused(), 0);
    let n = crate::seqs::first(t.socks, is_unused())->Some_0;
    let t1 = route_spec(t, src_ip, syn, now1).0;
    assert forall|j: int| 0 <= j < l implies !ib(#[trigger] t1.socks[j]) by {
        assert(t1.socks[j] == t.socks[j]);
    }
    assert(ib(t1.socks[l]));
    crate::seqs::lemma_first_is(t1.socks, ib, 0, l);
    assert forall|j: int| 0 <= j < n implies !is_unused()(#[trigger] t1.socks[j]) by {
        assert(is_unused()(t1.socks[j]) == is_unused()(t.socks[j]));
    }
    assert(n != l);
    assert(is_unused()(t1.socks[n]));
    crate::seqs::lemma_first_is(t1.socks, is_unused(), 0, n);
}

/// A pending connection is handed out once: `accept` returns its id and
/// forgets it, and the listener stays as it was.
pub proof fn law_accept_once(t: TcpV, lid: u64)
    requires
        t.inv(),
        lid < NSOCK,
        t.socks[lid as int].used,
        t.socks[lid as int].pend_id is Some,
    ensures
        ({
            let (t2, r) = accept_spec(t, lid);
            &&& r == Step::Done(t.socks[lid as int].pend_id->Some_0 as i64)
            &&& t2.socks[lid as int].used
            &&& t2.socks[lid as int].st == t.socks[lid as int].st
            &&& accept_spec(t2, lid) == (t2, Step::Wait)
        }),
{
}

/// A retransmission repeats the oldest unacknowledged bytes from `snd_una`,
/// leaves the queue as it is, and after eight unanswered ones the connection
/// is reset.
pub proof fn law_retransmit(s: SockV, now_us: u64)
    requires
        s.inv(),
        s.used,
        s.st == St::Estab || s.st == St::CloseWait,
        s.tx.len() > 0,
        now_us - s.last_tx_us > 400_000,
    ensures
        s.retries < 8 ==> {
            let (s2, out) = tick_sock(s, now_us);
            &&& s2.tx == s.tx
            &&& s2.retries == s.retries + 1
            &&& out is Some
            &&& out->Some_0.seq == s.snd_una
            &&& out->Some_0.payload == s.tx.take(
                if s.tx.len() < MSS {
                    s.tx.len() as int
                } else {
                    MSS as int
                },
            )
        },
        s.retries == 8 ==> tick_sock(s, now_us).0.st == St::Free && tick_sock(s, now_us).1 is None,
{
}

/// A segment that belongs to no socket is answered with a RST, unless it is
/// one, and changes nothing.
pub proof fn law_stray_segment(t: TcpV, src_ip: u32, g: InSeg, now_us: u64)
    requires
        forall|i: int|
            0 <= i < t.socks.len() ==> !((#[trigger] t.socks[i]).used && t.socks[i].local_port == g.dst_port),
    ensures
        route_spec(t, src_ip, g, now_us).0 == t,
        route_spec(t, src_ip, g, now_us).1 == if flag_set(g.flags, TCP_RST) {
            None::<SegV>
        } else {
            Some(bare_seg(src_ip, g.src_port, g.dst_port, 0, 0, TCP_RST))
        },
{
    crate::seqs::lemma_first_none(t.socks, in_band(g.dst_port, src_ip, g.src_port), 0);
    crate::seqs::lemma_first_none(t.socks, listening(g.dst_port), 0);
}

/// After the peer's FIN a receiver first drains what waits, then reads 0.
pub proof fn law_eof_after_drain(t: TcpV, id: u64, len: u64)
    requires
        t.inv(),
        id < NSOCK,
        t.socks[id as int].st == St::CloseWait,
        len > 0,
    ensures
        t.socks[id as int].rx.len() > 0 ==> recv_spec(t, id, len).1 is Data,
        t.socks[id as int].rx.len() == 0 ==> recv_spec(t, id, len).1 == RecvV::Ret(0),
{
    assert(t.socks[id as int].inv());
}

} // verus!
