//! The network daemon's rules: ARP cache, ICMP engine, demultiplexing.
//!
//! Inbound frames come in as bytes; what has to go out (a frame, a TCP
//! segment, a task to wake) is handed back. Everything blocking is written as
//! one step at a time.

use vstd::prelude::*;
use vstd::slice::slice_subrange;
use vstd::string::StringExecFns;

use crate::console::{nothing, say, say_color, Out, OutV, GLM_CYAN, GLM_GRAY, GLM_GREEN, GLM_WHITE, GLM_YELLOW};
use crate::net::e1000::{mac_str, Nic};
use crate::net::ip_str;
use crate::net::pci::PciDev;
use crate::net::proto::{
    arp_parse, arp_put, eth_parse, eth_put, icmp_echo_parse, icmp_echo_put, ipv4_parse, ipv4_put, udp_checksum_ok, udp_parse, udp_put,
    ARP_PKT, ARP_REPLY, ARP_REQUEST, ETHERTYPE_ARP, ETHERTYPE_IPV4, ETH_HDR, ICMP_ECHO_REPLY,
    ICMP_ECHO_REQUEST, ICMP_HDR, IPV4_HDR_MIN, PROTO_ICMP, PROTO_TCP, PROTO_UDP, UDP_HDR,
};
use crate::net::sock::{deliver, SockTable, UdpV};
use crate::net::tcp::{ingress, SegOut, SegV, TcpTable, TcpV};
use crate::net::{GW_IP, OUR_IP};
use crate::text::{chars_of, parse_uint, push_dec, push_dec_right, push_hex, split};

verus! {

// ---------------------------------------------------------------------------
// Microsecond clock: a cycle counter calibrated once
// ---------------------------------------------------------------------------
/// The calibration of the cycle counter: cycles per millisecond (0 before
/// calibration) and the count at calibration.
#[derive(Clone, Copy, PartialEq, Eq, Structural)]
pub struct Clock {
    pub tsc_per_ms: u64,
    pub tsc0: u64,
}

/// The calibration from two readings 250 ms apart.
pub fn calibrate(t0: u64, t1: u64) -> (c: Clock)
    requires
        t0 <= t1,
    ensures
        c.tsc0 == t0,
        c.tsc_per_ms == if (t1 - t0) / 250 < 1 { 1 } else { (t1 - t0) / 250 },
{
    let per_ms: u64 = (t1 - t0) / 250;
    Clock {
        tsc_per_ms: if per_ms < 1 {
            1
        } else {
            per_ms
        },
        tsc0: t0,
    }
}

/// Microseconds since calibration (monotonic); before it, the uptime.
pub fn now_us(c: &Clock, tsc: u64, uptime_ms: u64) -> (r: u64)
    requires
        c.tsc_per_ms == 0 ==> uptime_ms * 1000 <= u64::MAX,
        c.tsc_per_ms != 0 ==> c.tsc0 <= tsc && (tsc - c.tsc0) * 1000 <= u64::MAX,
    ensures
        r == if c.tsc_per_ms == 0 {
            uptime_ms * 1000
        } else {
            (tsc - c.tsc0) * 1000 / (c.tsc_per_ms as int)
        },
{
    if c.tsc_per_ms == 0 {
        return uptime_ms * 1000;
    }
    (tsc - c.tsc0) * 1000 / c.tsc_per_ms
}

// ---------------------------------------------------------------------------
// State
// ---------------------------------------------------------------------------
pub const ARP_SLOTS: usize = 8;

pub const PING_ID: u16 = 0x474C;  // 'GL'

#[derive(Clone, Copy)]
pub struct ArpEntry {
    pub ip: u32,
    pub mac: [u8; 6],
    pub stamp_us: u64,
    pub valid: bool,
}

pub struct ArpV {
    pub ip: u32,
    pub mac: Seq<u8>,
    pub stamp_us: u64,
    pub valid: bool,
}

impl ArpEntry {
    pub open spec fn view(&self) -> ArpV {
        ArpV { ip: self.ip, mac: self.mac@, stamp_us: self.stamp_us, valid: self.valid }
    }
}

/// The entries of an ARP table.
pub open spec fn arp_view(t: Seq<ArpEntry>) -> Seq<ArpV> {
    t.map_values(|e: ArpEntry| e@)
}

/// The last echo reply that answers one of our pings.
#[derive(Clone, Copy, PartialEq, Eq, Structural)]
pub struct ReplySlot {
    pub ip: u32,
    pub seq: u16,
    pub ttl: u8,
    pub t_us: u64,
    pub valid: bool,
}

/// The daemon's state: our address, the ARP cache, the IPv4 id counter, the
/// ping engine's reply slot and the two socket tables.
pub struct NetState {
    pub mac: [u8; 6],
    pub arp: Vec<ArpEntry>,
    pub ip_id: u64,
    pub reply: ReplySlot,
    pub udp: SockTable,
    pub tcp: TcpTable,
}

pub struct NetV {
    pub mac: Seq<u8>,
    pub arp: Seq<ArpV>,
    pub ip_id: u64,
    pub reply: ReplySlot,
    pub udp: Seq<UdpV>,
    pub tcp: TcpV,
}

impl NetState {
    pub open spec fn view(&self) -> NetV {
        NetV {
            mac: self.mac@,
            arp: arp_view(self.arp@),
            ip_id: self.ip_id,
            reply: self.reply,
            udp: self.udp@,
            tcp: self.tcp@,
        }
    }

    pub open spec fn wf(&self) -> bool {
        &&& self.arp@.len() == ARP_SLOTS
        &&& self.udp.wf()
        &&& self.tcp.wf()
    }

    /// The state at boot.
    pub fn new(mac: [u8; 6]) -> (n: NetState)
        ensures
            n.wf(),
            n@.mac == mac@,
            n.ip_id == 0x474C,
            !n.reply.valid,
            forall|i: int| 0 <= i < ARP_SLOTS ==> !(#[trigger] n.arp@[i]).valid,
            n@.udp == Seq::new(8, |i: int| crate::net::sock::fresh_udp()),
            n@.tcp == (TcpV {
                socks: Seq::new(8, |i: int| crate::net::tcp::fresh_sock()),
                ephemeral: 20_000,
                iss_next: 0x474C_4D00,
            }),
    {
        let mut arp: Vec<ArpEntry> = Vec::new();
        let mut i: usize = 0;
        while i < ARP_SLOTS
            invariant
                i <= ARP_SLOTS,
                arp@.len() == i,
                forall|j: int| 0 <= j < i ==> !(#[trigger] arp@[j]).valid,
            decreases ARP_SLOTS - i,
        {
            let none: [u8; 6] = [0, 0, 0, 0, 0, 0];
            arp.push(ArpEntry { ip: 0, mac: none, stamp_us: 0, valid: false });
            i = i + 1;
        }
        NetState {
            mac,
            arp,
            ip_id: 0x474C,
            reply: ReplySlot { ip: 0, seq: 0, ttl: 0, t_us: 0, valid: false },
            udp: SockTable::new(),
            tcp: TcpTable::new(),
        }
    }
}

/// The IPv4 id that the counter gives.
pub open spec fn id_of(ip_id: u64) -> u16 {
    (ip_id % 0x1_0000) as u16
}

pub open spec fn next_id(ip_id: u64) -> u64 {
    ((ip_id + 1) % 0x1_0000_0000_0000_0000) as u64
}

/// Monotonically increasing IPv4 id field.
pub fn ipv4_id(st: &mut NetState) -> (r: u16)
    ensures
        r == id_of(old(st).ip_id),
        *final(st) == (NetState { ip_id: next_id(old(st).ip_id), ..*old(st) }),
{
    let r: u16 = (st.ip_id % 0x1_0000) as u16;
    st.ip_id = st.ip_id.wrapping_add(1);
    r
}

pub fn our_mac(st: &NetState) -> (m: [u8; 6])
    ensures
        m == st.mac,
{
    st.mac
}

// ---------------------------------------------------------------------------
// ARP table
// ---------------------------------------------------------------------------
pub open spec fn arp_for(ip: u32) -> spec_fn(ArpV) -> bool {
    |e: ArpV| e.valid && e.ip == ip
}

pub open spec fn arp_free() -> spec_fn(ArpV) -> bool {
    |e: ArpV| !e.valid
}

/// The first of the entries with the smallest time stamp among the first `n`.
pub open spec fn oldest(t: Seq<ArpV>, n: int) -> int
    decreases n,
{
    if n <= 1 {
        0
    } else {
        let o = oldest(t, n - 1);
        if t[n - 1].stamp_us < t[o].stamp_us {
            n - 1
        } else {
            o
        }
    }
}

/// The slot that a new address goes to: its own, else a free one, else the
/// oldest entry's.
pub open spec fn arp_slot(t: Seq<ArpV>, ip: u32) -> int {
    match crate::seqs::first(t, arp_for(ip)) {
        Some(i) => i,
        None => match crate::seqs::first(t, arp_free()) {
            Some(i) => i,
            None => oldest(t, t.len() as int),
        },
    }
}

pub open spec fn arp_learn_spec(t: Seq<ArpV>, ip: u32, mac: Seq<u8>, now: u64) -> Seq<ArpV> {
    if ip == 0 {
        t
    } else {
        t.update(arp_slot(t, ip), ArpV { ip, mac, stamp_us: now, valid: true })
    }
}

pub open spec fn arp_lookup_spec(t: Seq<ArpV>, ip: u32) -> Option<Seq<u8>> {
    match crate::seqs::first(t, arp_for(ip)) {
        Some(i) => Some(t[i].mac),
        None => None,
    }
}

fn arp_learn(arp: &mut Vec<ArpEntry>, ip: u32, mac: &[u8; 6], now: u64)
    requires
        old(arp)@.len() == ARP_SLOTS,
    ensures
        arp_view(final(arp)@) == arp_learn_spec(arp_view(old(arp)@), ip, mac@, now),
        final(arp)@.len() == ARP_SLOTS,
{
    if ip == 0 {
        return;
    }
    let ghost t = arp_view(arp@);
    let e = ArpEntry { ip, mac: *mac, stamp_us: now, valid: true };
    let mut at: usize = 0;
    let mut found = false;
    let mut i: usize = 0;
    while i < ARP_SLOTS && !found
        invariant
            *arp == *old(arp),
            t == arp_view(arp@),
            arp@.len() == ARP_SLOTS,
            i <= ARP_SLOTS,
            at < ARP_SLOTS,
            found ==> crate::seqs::first(t, arp_for(ip)) == Some(at as int),
            !found ==> crate::seqs::first_from(t, arp_for(ip), i as int) == crate::seqs::first(t, arp_for(ip)),
        decreases ARP_SLOTS - i,
    {
        assert(t[i as int] == arp@[i as int]@);
        if arp[i].valid && arp[i].ip == ip {
            at = i;
            found = true;
        }
        i = i + 1;
    }
    if !found {
        let mut k: usize = 0;
        while k < ARP_SLOTS && !found
            invariant
                *arp == *old(arp),
                t == arp_view(arp@),
                arp@.len() == ARP_SLOTS,
                k <= ARP_SLOTS,
                at < ARP_SLOTS,
                found ==> crate::seqs::first(t, arp_free()) == Some(at as int),
                !found ==> crate::seqs::first_from(t, arp_free(), k as int) == crate::seqs::first(t, arp_free()),
            decreases ARP_SLOTS - k,
        {
            assert(t[k as int] == arp@[k as int]@);
            if !arp[k].valid {
                at = k;
                found = true;
            }
            k = k + 1;
        }
        if !found {
            at = oldest_slot(arp);
        }
    }
    assert(at == arp_slot(t, ip));
    arp[at] = e;
    assert(arp_view(arp@) =~= arp_learn_spec(t, ip, mac@, now));
}

fn oldest_slot(arp: &Vec<ArpEntry>) -> (o: usize)
    requires
        arp@.len() == ARP_SLOTS,
    ensures
        o < ARP_SLOTS,
        o == oldest(arp_view(arp@), ARP_SLOTS as int),
{
    let mut o: usize = 0;
    let mut j: usize = 1;
    while j < ARP_SLOTS
        invariant
            arp@.len() == ARP_SLOTS,
            1 <= j <= ARP_SLOTS,
            o < ARP_SLOTS,
            o == oldest(arp_view(arp@), j as int),
        decreases ARP_SLOTS - j,
    {
        assert(arp_view(arp@)[j as int] == arp@[j as int]@);
        assert(arp_view(arp@)[o as int] == arp@[o as int]@);
        if arp[j].stamp_us < arp[o].stamp_us {
            o = j;
        }
        j = j + 1;
    }
    o
}

fn arp_lookup(arp: &Vec<ArpEntry>, ip: u32) -> (r: Option<[u8; 6]>)
    requires
        arp@.len() == ARP_SLOTS,
    ensures
        r is Some <==> arp_lookup_spec(arp_view(arp@), ip) is Some,
        r matches Some(m) ==> arp_lookup_spec(arp_view(arp@), ip) == Some(m@),
{
    let ghost t = arp_view(arp@);
    let mut i: usize = 0;
    while i < ARP_SLOTS
        invariant
            t == arp_view(arp@),
            arp@.len() == ARP_SLOTS,
            i <= ARP_SLOTS,
            crate::seqs::first_from(t, arp_for(ip), i as int) == crate::seqs::first(t, arp_for(ip)),
        decreases ARP_SLOTS - i,
    {
        assert(t[i as int] == arp@[i as int]@);
        if arp[i].valid && arp[i].ip == ip {
            return Some(arp[i].mac);
        }
        i = i + 1;
    }
    None
}

/// An ARP packet in its Ethernet frame.
pub open spec fn arp_frame(
    dst: Seq<u8>,
    our: Seq<u8>,
    oper: u16,
    tha: Seq<u8>,
    tpa: u32,
) -> Seq<u8> {
    crate::net::proto::eth_header(dst, our, ETHERTYPE_ARP) + crate::net::proto::arp_packet(oper, our, OUR_IP, tha, tpa)
}

fn build_arp(dst: &[u8; 6], our: &[u8; 6], oper: u16, tha: &[u8; 6], tpa: u32) -> (f: Vec<u8>)
    ensures
        f@ == arp_frame(dst@, our@, oper, tha@, tpa),
{
    let mut eth: Vec<u8> = vec![0u8; ETH_HDR];
    let mut pkt: Vec<u8> = vec![0u8; ARP_PKT];
    let _a: usize = eth_put(&mut eth, dst, our, ETHERTYPE_ARP);
    let _b: usize = arp_put(&mut pkt, oper, our, OUR_IP, tha, tpa);
    eth.append(&mut pkt);
    assert(eth@ =~= arp_frame(dst@, our@, oper, tha@, tpa));
    eth
}

/// The broadcast frame that asks who has `ip`.
pub open spec fn arp_request_frame(our: Seq<u8>, ip: u32) -> Seq<u8> {
    arp_frame(seq![0xFFu8, 0xFF, 0xFF, 0xFF, 0xFF, 0xFF], our, ARP_REQUEST, seq![0u8, 0, 0, 0, 0, 0], ip)
}

fn send_arp_request(our: &[u8; 6], ip: u32) -> (f: Vec<u8>)
    ensures
        f@ == arp_request_frame(our@, ip),
{
    let all: [u8; 6] = [0xFF, 0xFF, 0xFF, 0xFF, 0xFF, 0xFF];
    let none: [u8; 6] = [0, 0, 0, 0, 0, 0];
    assert(all@ =~= seq![0xFFu8, 0xFF, 0xFF, 0xFF, 0xFF, 0xFF]);
    assert(none@ =~= seq![0u8, 0, 0, 0, 0, 0]);
    build_arp(&all, our, ARP_REQUEST, &none, ip)
}

/// How an address resolution goes on: known, ask (transmit the frame, sleep
/// 120 ms, look again), or given up.
pub enum Resolve {
    Found([u8; 6]),
    Ask(Vec<u8>),
    Failed,
}

/// Resolve an IPv4 address to a MAC, one look: `tries` requests have gone out
/// so far, five at most do.
pub fn arp_resolve(st: &NetState, ip: u32, tries: u8) -> (r: Resolve)
    requires
        st.wf(),
    ensures
        match r {
            Resolve::Found(m) => arp_lookup_spec(st@.arp, ip) == Some(m@),
            Resolve::Ask(f) => arp_lookup_spec(st@.arp, ip) is None && tries < 5 && f@ == arp_request_frame(
                st@.mac,
                ip,
            ),
            Resolve::Failed => arp_lookup_spec(st@.arp, ip) is None && tries >= 5,
        },
{
    match arp_lookup(&st.arp, ip) {
        Some(m) => Resolve::Found(m),
        None => {
            if tries < 5 {
                Resolve::Ask(send_arp_request(&st.mac, ip))
            } else {
                Resolve::Failed
            }
        },
    }
}

// ---------------------------------------------------------------------------
// TX helpers
// ---------------------------------------------------------------------------
/// An IPv4 packet from us in its Ethernet frame.
pub open spec fn ipv4_frame(dst: Seq<u8>, our: Seq<u8>, id: u16, proto: u8, dst_ip: u32, payload: Seq<u8>) -> Seq<
    u8,
> {
    crate::net::proto::eth_header(dst, our, ETHERTYPE_IPV4) + crate::net::proto::ipv4_wire_header(
        id,
        proto,
        OUR_IP,
        dst_ip,
        payload.len(),
    ) + payload
}

fn send_ipv4(dst_mac: &[u8; 6], our: &[u8; 6], id: u16, proto: u8, dst_ip: u32, payload: &Vec<u8>) -> (f: Vec<u8>)
    requires
        payload@.len() <= 65535,
    ensures
        f@ == ipv4_frame(dst_mac@, our@, id, proto, dst_ip, payload@),
{
    let mut eth: Vec<u8> = vec![0u8; ETH_HDR];
    let mut ip: Vec<u8> = vec![0u8; IPV4_HDR_MIN];
    let _a: usize = eth_put(&mut eth, dst_mac, our, ETHERTYPE_IPV4);
    let _b: usize = ipv4_put(&mut ip, id, proto, OUR_IP, dst_ip, payload.len());
    eth.append(&mut ip);
    let mut i: usize = 0;
    let ghost head = eth@;
    while i < payload.len()
        invariant
            i <= payload@.len(),
            eth@ == head + payload@.take(i as int),
        decreases payload@.len() - i,
    {
        eth.push(payload[i]);
        i = i + 1;
        assert(eth@ =~= head + payload@.take(i as int));
    }
    assert(payload@.take(payload@.len() as int) =~= payload@);
    assert(eth@ =~= ipv4_frame(dst_mac@, our@, id, proto, dst_ip, payload@));
    eth
}

/// The bytes that a ping carries: the pattern, over and over.
pub open spec fn ping_payload() -> Seq<u8> {
    Seq::new(
        32,
        |i: int|
            seq![0x47u8, 0x4C, 0x4D, 0x2D, 0x4F, 0x53, 0x2D, 0x50, 0x49, 0x4E, 0x47][i % 11],
    )
}

fn build_ping_payload() -> (p: Vec<u8>)
    ensures
        p@ == ping_payload(),
{
    let pattern: [u8; 11] = [0x47, 0x4C, 0x4D, 0x2D, 0x4F, 0x53, 0x2D, 0x50, 0x49, 0x4E, 0x47];
    assert(pattern@ =~= seq![0x47u8, 0x4C, 0x4D, 0x2D, 0x4F, 0x53, 0x2D, 0x50, 0x49, 0x4E, 0x47]);
    let mut p: Vec<u8> = Vec::new();
    let mut i: usize = 0;
    while i < 32
        invariant
            i <= 32,
            pattern@ == seq![0x47u8, 0x4C, 0x4D, 0x2D, 0x4F, 0x53, 0x2D, 0x50, 0x49, 0x4E, 0x47],
            p@ == ping_payload().take(i as int),
        decreases 32 - i,
    {
        p.push(pattern[i % 11]);
        i = i + 1;
        assert(p@ =~= ping_payload().take(i as int));
    }
    assert(ping_payload().take(32) =~= ping_payload());
    p
}

/// An echo message in a buffer of its own.
fn echo_message(kind: u8, id: u16, seq: u16, payload: &[u8]) -> (m: Vec<u8>)
    requires
        payload@.len() <= 32,
    ensures
        m@ == crate::net::proto::icmp_wire(kind, id, seq, payload@),
        m@.len() == 8 + payload@.len(),
{
    let mut m: Vec<u8> = vec![0u8; ICMP_HDR + payload.len()];
    proof {
        crate::net::proto::lemma_word_sum_bound(crate::net::proto::icmp_echo(kind, 0, id, seq, payload@));
    }
    let _n: usize = icmp_echo_put(&mut m, kind, id, seq, payload);
    assert(m@ =~= crate::net::proto::icmp_wire(kind, id, seq, payload@));
    m
}

/// The frame of echo request `seq` to `dst_ip`, if its address is known.
pub open spec fn echo_request_spec(n: NetV, dst_ip: u32, seq: u16) -> Option<Seq<u8>> {
    match arp_lookup_spec(n.arp, dst_ip) {
        None => None,
        Some(m) => Some(
            ipv4_frame(
                m,
                n.mac,
                id_of(n.ip_id),
                PROTO_ICMP,
                dst_ip,
                crate::net::proto::icmp_wire(ICMP_ECHO_REQUEST, PING_ID, seq, ping_payload()),
            ),
        ),
    }
}

fn send_echo_request(st: &mut NetState, dst_ip: u32, seq: u16) -> (r: Option<Vec<u8>>)
    requires
        old(st).wf(),
    ensures
        final(st).wf(),
        r is Some <==> echo_request_spec(old(st)@, dst_ip, seq) is Some,
        r matches Some(f) ==> echo_request_spec(old(st)@, dst_ip, seq) == Some(f@),
        *final(st) == (NetState { ip_id: if r is Some { next_id(old(st).ip_id) } else { old(st).ip_id }, ..*old(st) }),
{
    match arp_lookup(&st.arp, dst_ip) {
        None => None,
        Some(mac) => {
            let payload: Vec<u8> = build_ping_payload();
            let m: Vec<u8> = echo_message(ICMP_ECHO_REQUEST, PING_ID, seq, payload.as_slice());
            let id: u16 = ipv4_id(st);
            Some(send_ipv4(&mac, &st.mac, id, PROTO_ICMP, dst_ip, &m))
        },
    }
}

// ---------------------------------------------------------------------------
// Inbound processing
// ---------------------------------------------------------------------------
/// What an inbound frame calls for.
pub enum NetOut {
    Nothing,
    Frame(Vec<u8>),
    Wake(u16),
    Segment(SegOut),
}

pub enum NetOutV {
    Nothing,
    Frame(Seq<u8>),
    Wake(u16),
    Segment(SegV),
}

impl NetOut {
    pub open spec fn view(&self) -> NetOutV {
        match *self {
            NetOut::Nothing => NetOutV::Nothing,
            NetOut::Frame(f) => NetOutV::Frame(f@),
            NetOut::Wake(w) => NetOutV::Wake(w),
            NetOut::Segment(s) => NetOutV::Segment(s@),
        }
    }
}

pub open spec fn handle_arp_spec(n: NetV, p: Seq<u8>, src: Seq<u8>, now: u64) -> (NetV, NetOutV) {
    let spa = crate::bytes::rd_be4(p, 14);
    let sha = p.subrange(8, 14);
    let n2 = NetV { arp: arp_learn_spec(n.arp, spa, sha, now), ..n };
    if crate::bytes::rd_be2(p, 6) == ARP_REQUEST && crate::bytes::rd_be4(p, 24) == OUR_IP {
        (n2, NetOutV::Frame(arp_frame(src, n.mac, ARP_REPLY, sha, spa)))
    } else {
        (n2, NetOutV::Nothing)
    }
}

pub open spec fn handle_udp_spec(n: NetV, src_ip: u32, p: Seq<u8>) -> (NetV, NetOutV) {
    if p.len() >= 8 && crate::bytes::rd_be2(p, 4) >= 8 && crate::net::proto::udp_sum_ok(src_ip, OUR_IP, p) {
        let (udp, ok, wake) = crate::net::sock::deliver_spec(
            n.udp,
            crate::bytes::rd_be2(p, 2),
            src_ip,
            crate::bytes::rd_be2(p, 0),
            crate::net::proto::udp_payload(p),
        );
        (NetV { udp, ..n }, NetOutV::Wake(wake))
    } else {
        (n, NetOutV::Nothing)
    }
}

pub open spec fn handle_echo_spec(n: NetV, src_ip: u32, ttl: u8, p: Seq<u8>, src: Seq<u8>, now: u64) -> (
    NetV,
    NetOutV,
) {
    let id = crate::bytes::rd_be2(p, 4);
    let seq = crate::bytes::rd_be2(p, 6);
    if !crate::net::proto::icmp_echo_ok(p) {
        (n, NetOutV::Nothing)
    } else if p[0] == ICMP_ECHO_REQUEST {
        let kept = if p.len() < 40 { p.skip(8) } else { p.subrange(8, 40) };
        (
            NetV { ip_id: next_id(n.ip_id), ..n },
            NetOutV::Frame(
                ipv4_frame(
                    src,
                    n.mac,
                    id_of(n.ip_id),
                    PROTO_ICMP,
                    src_ip,
                    crate::net::proto::icmp_wire(ICMP_ECHO_REPLY, id, seq, kept),
                ),
            ),
        )
    } else if id == PING_ID {
        (NetV { reply: ReplySlot { ip: src_ip, seq, ttl, t_us: now, valid: true }, ..n }, NetOutV::Nothing)
    } else {
        (n, NetOutV::Nothing)
    }
}

pub open spec fn handle_tcp_spec(n: NetV, src_ip: u32, p: Seq<u8>, now: u64) -> (NetV, NetOutV) {
    let (tcp, out) = crate::net::tcp::ingress_spec(n.tcp, src_ip, p, now);
    (
        NetV { tcp, ..n },
        match out {
            Some(s) => NetOutV::Segment(s),
            None => NetOutV::Nothing,
        },
    )
}

pub open spec fn handle_ipv4_spec(n: NetV, p: Seq<u8>, src: Seq<u8>, now: u64) -> (NetV, NetOutV) {
    let ip = crate::bytes::rd_be4(p, 12);
    let body = crate::net::proto::ipv4_payload(p);
    if !crate::net::proto::ipv4_ok(p) || crate::bytes::rd_be4(p, 16) != OUR_IP {
        (n, NetOutV::Nothing)
    } else if p[9] == PROTO_ICMP {
        handle_echo_spec(n, ip, p[8], body, src, now)
    } else if p[9] == PROTO_UDP {
        handle_udp_spec(n, ip, body)
    } else if p[9] == PROTO_TCP {
        handle_tcp_spec(n, ip, body, now)
    } else {
        (n, NetOutV::Nothing)
    }
}

pub open spec fn handle_frame_spec(n: NetV, f: Seq<u8>, now: u64) -> (NetV, NetOutV) {
    let p = f.skip(14);
    let src = f.subrange(6, 12);
    let etype = crate::bytes::rd_be2(f, 12);
    if f.len() < 14 {
        (n, NetOutV::Nothing)
    } else if etype == ETHERTYPE_ARP && p.len() >= 28 {
        handle_arp_spec(n, p, src, now)
    } else if etype == ETHERTYPE_IPV4 {
        handle_ipv4_spec(n, p, src, now)
    } else {
        (n, NetOutV::Nothing)
    }
}

/// One inbound frame: ARP is learned and answered, echo requests are
/// answered, echo replies noted, UDP and TCP go to their sockets.
pub fn handle_frame(st: &mut NetState, frame: &[u8], now: u64) -> (out: NetOut)
    requires
        old(st).wf(),
        frame@.len() <= 65535,
    ensures
        final(st).wf(),
        (final(st)@, out@) == handle_frame_spec(old(st)@, frame@, now),
{
    match eth_parse(frame) {
        None => NetOut::Nothing,
        Some(eth) => {
            assert(eth.payload@ =~= frame@.skip(14));
            if eth.ethertype == ETHERTYPE_ARP {
                handle_arp(st, eth.payload, &eth.src, now)
            } else if eth.ethertype == ETHERTYPE_IPV4 {
                handle_ipv4(st, eth.payload, &eth.src, now)
            } else {
                NetOut::Nothing
            }
        },
    }
}

fn handle_arp(st: &mut NetState, p: &[u8], src: &[u8; 6], now: u64) -> (out: NetOut)
    requires
        old(st).wf(),
    ensures
        final(st).wf(),
        (final(st)@, out@) == if p@.len() >= 28 {
            handle_arp_spec(old(st)@, p@, src@, now)
        } else {
            (old(st)@, NetOutV::Nothing)
        },
{
    match arp_parse(p) {
        None => NetOut::Nothing,
        Some(a) => {
            arp_learn(&mut st.arp, a.spa, &a.sha, now);
            if a.oper == ARP_REQUEST && a.tpa == OUR_IP {
                // answer: who has our address? tell the sender
                return NetOut::Frame(build_arp(src, &st.mac, ARP_REPLY, &a.sha, a.spa));
            }
            NetOut::Nothing
        },
    }
}

fn handle_ipv4(st: &mut NetState, p: &[u8], src: &[u8; 6], now: u64) -> (out: NetOut)
    requires
        old(st).wf(),
        p@.len() <= 65535,
    ensures
        final(st).wf(),
        (final(st)@, out@) == handle_ipv4_spec(old(st)@, p@, src@, now),
{
    match ipv4_parse(p) {
        None => NetOut::Nothing,
        Some(ip) => {
            if ip.dst != OUR_IP {
                return NetOut::Nothing;
            }
            if ip.proto == PROTO_ICMP {
                handle_echo(st, ip.src, ip.ttl, ip.payload, src, now)
            } else if ip.proto == PROTO_UDP {
                handle_udp(st, ip.src, ip.payload)
            } else if ip.proto == PROTO_TCP {
                match ingress(&mut st.tcp, ip.src, ip.payload, now) {
                    Some(s) => NetOut::Segment(s),
                    None => NetOut::Nothing,
                }
            } else {
                NetOut::Nothing
            }
        },
    }
}

fn handle_echo(st: &mut NetState, src_ip: u32, ttl: u8, p: &[u8], src: &[u8; 6], now: u64) -> (out: NetOut)
    requires
        old(st).wf(),
        p@.len() <= 65535,
    ensures
        final(st).wf(),
        (final(st)@, out@) == handle_echo_spec(old(st)@, src_ip, ttl, p@, src@, now),
{
    proof {
        crate::net::proto::lemma_word_sum_bound(p@);
    }
    match icmp_echo_parse(p) {
        None => NetOut::Nothing,
        Some(echo) => {
            if echo.kind == ICMP_ECHO_REQUEST {
                // reply with the same id/seq/payload
                let kept: &[u8] = slice_subrange(echo.payload.as_slice(), 0, echo.payload_len);
                assert(kept@ =~= if p@.len() < 40 { p@.skip(8) } else { p@.subrange(8, 40) });
                let m: Vec<u8> = echo_message(ICMP_ECHO_REPLY, echo.id, echo.seq, kept);
                let id: u16 = ipv4_id(st);
                NetOut::Frame(send_ipv4(src, &st.mac, id, PROTO_ICMP, src_ip, &m))
            } else {
                if echo.id == PING_ID {
                    st.reply = ReplySlot { ip: src_ip, seq: echo.seq, ttl, t_us: now, valid: true };
                }
                NetOut::Nothing
            }
        },
    }
}

/// Inbound UDP: demux to the userland socket table.
/// Inbound UDP: a datagram with a bad checksum is dropped, the others go to
/// the sockets.
fn handle_udp(st: &mut NetState, src_ip: u32, p: &[u8]) -> (out: NetOut)
    requires
        old(st).wf(),
        p@.len() <= 65535,
    ensures
        final(st).wf(),
        (final(st)@, out@) == handle_udp_spec(old(st)@, src_ip, p@),
{
    match udp_parse(p) {
        None => NetOut::Nothing,
        Some(u) => {
            if !udp_checksum_ok(src_ip, OUR_IP, p) {
                return NetOut::Nothing;
            }
            let (_ok, wake) = deliver(&mut st.udp, u.dst_port, src_ip, u.src_port, u.payload);
            NetOut::Wake(wake)
        },
    }
}

/// The frame of a UDP datagram from us.
pub open spec fn udp_frame(
    mac: Seq<u8>,
    our: Seq<u8>,
    id: u16,
    dst_ip: u32,
    dst_port: u16,
    src_port: u16,
    payload: Seq<u8>,
) -> Seq<u8> {
    ipv4_frame(
        mac,
        our,
        id,
        PROTO_UDP,
        dst_ip,
        crate::net::proto::udp_wire(OUR_IP, dst_ip, src_port, dst_port, payload),
    )
}

/// TX path for userland sendto(): the frame for a resolved address, none when
/// the NIC is down or the address did not resolve.
pub fn udp_send(
    st: &mut NetState,
    online: bool,
    mac: Option<[u8; 6]>,
    dst_ip: u32,
    dst_port: u16,
    src_port: u16,
    payload: &[u8],
) -> (r: Option<Vec<u8>>)
    requires
        old(st).wf(),
        payload@.len() <= 256,
    ensures
        final(st).wf(),
        r is Some <==> online && mac is Some,
        r matches Some(f) ==> f@ == udp_frame(
            mac->Some_0@,
            old(st)@.mac,
            id_of(old(st).ip_id),
            dst_ip,
            dst_port,
            src_port,
            payload@,
        ),
        *final(st) == (NetState { ip_id: if r is Some { next_id(old(st).ip_id) } else { old(st).ip_id }, ..*old(st) }),
{
    if !online {
        return None;
    }
    match mac {
        None => None,
        Some(m) => {
            let mut d: Vec<u8> = vec![0u8; UDP_HDR + payload.len()];
            proof {
                crate::net::proto::lemma_word_sum_bound(
                    crate::net::proto::udp_datagram(src_port, dst_port, 0, payload@),
                );
            }
            let _n: usize = udp_put(&mut d, OUR_IP, dst_ip, src_port, dst_port, payload);
            assert(d@ =~= crate::net::proto::udp_wire(OUR_IP, dst_ip, src_port, dst_port, payload@));
            let id: u16 = ipv4_id(st);
            Some(send_ipv4(&m, &st.mac, id, PROTO_UDP, dst_ip, &d))
        },
    }
}

// ---------------------------------------------------------------------------
// Ping engine (shell-facing)
// ---------------------------------------------------------------------------
/// Whether a piece of a dotted quad is a number of at most 255.
pub open spec fn octet(p: Seq<char>) -> Option<nat> {
    crate::text::uint_of(p, 255)
}

/// The address that a dotted quad names.
pub open spec fn ip_of_text(s: Seq<char>) -> Option<u32> {
    let p = crate::text::pieces(s, '.');
    if p.len() == 4 && octet(p[0]) is Some && octet(p[1]) is Some && octet(p[2]) is Some && octet(p[3]) is Some {
        Some(
            (octet(p[0])->Some_0 * 0x100_0000 + octet(p[1])->Some_0 * 0x1_0000 + octet(p[2])->Some_0 * 256 + octet(
                p[3],
            )->Some_0) as u32,
        )
    } else {
        None
    }
}

/// Parse a dotted quad ("10.0.2.2").
pub fn parse_ip(s: &str) -> (r: Option<u32>)
    ensures
        r == ip_of_text(s@),
{
    let cs: Vec<char> = chars_of(s);
    let parts: Vec<Vec<char>> = split(cs.as_slice(), '.');
    let ghost p = crate::text::pieces(s@, '.');
    assert(parts@.len() == p.len());
    if parts.len() != 4 {
        return None;
    }
    assert(p[0] == parts@[0]@ && p[1] == parts@[1]@ && p[2] == parts@[2]@ && p[3] == parts@[3]@);
    match (
        parse_uint(parts[0].as_slice(), 255),
        parse_uint(parts[1].as_slice(), 255),
        parse_uint(parts[2].as_slice(), 255),
        parse_uint(parts[3].as_slice(), 255),
    ) {
        (Some(a), Some(b), Some(c), Some(d)) => Some(
            (a * 0x100_0000 + b * 0x1_0000 + c * 256 + d) as u32,
        ),
        _ => None,
    }
}

/// Where a ping stands.
#[derive(Clone, Copy, PartialEq, Eq, Structural)]
pub enum Ping {
    Resolve { target: u32, tries: u8 },
    Send { target: u32, seq: u16, sent: u64, received: u64 },
    Sent { target: u32, seq: u16, sent: u64, received: u64 },
    Wait { target: u32, seq: u16, sent: u64, received: u64, t0: u64 },
    Done,
}

/// What the caller of a ping step does before the next one.
pub enum PingDo {
    Nothing,
    Transmit(Vec<u8>),
    Ask(Vec<u8>),
    Sleep(u64),
    Stop,
}

pub enum PingDoV {
    Nothing,
    Transmit(Seq<u8>),
    Ask(Seq<u8>),
    Sleep(u64),
    Stop,
}

impl PingDo {
    pub open spec fn view(&self) -> PingDoV {
        match *self {
            PingDo::Nothing => PingDoV::Nothing,
            PingDo::Transmit(f) => PingDoV::Transmit(f@),
            PingDo::Ask(f) => PingDoV::Ask(f@),
            PingDo::Sleep(ms) => PingDoV::Sleep(ms),
            PingDo::Stop => PingDoV::Stop,
        }
    }
}

/// The target that a ping's argument names: the gateway when it is empty.
pub open spec fn ping_target(arg: Seq<char>) -> Option<u32> {
    if arg.len() == 0 {
        Some(GW_IP)
    } else {
        ip_of_text(arg)
    }
}

pub open spec fn ping_shell_spec(online: bool, arg: Seq<char>) -> (Ping, Seq<OutV>) {
    if !online {
        (
            Ping::Done,
            seq![crate::console::colored("net: offline (no nic detected at boot)\n"@, GLM_YELLOW)],
        )
    } else {
        match ping_target(arg) {
            None => (
                Ping::Done,
                seq![
                    crate::console::colored("usage: ping <a.b.c.d>  (empty = default gateway)\n"@, GLM_YELLOW),
                ],
            ),
            Some(t) => (
                Ping::Resolve { target: t, tries: 0 },
                seq![
                    crate::console::plain("PING "@ + crate::net::ip_text(t) + ": 32 data bytes\n"@),
                    crate::console::plain("ARP resolving "@ + crate::net::ip_text(t) + " ... "@),
                ],
            ),
        }
    }
}

/// The shell `ping` command: 4 echo requests, classic report. This is its
/// opening; `ping_step` goes on from the state it gives.
pub fn ping_shell(online: bool, arg: &str) -> (r: (Ping, Vec<Out>))
    ensures
        (r.0, crate::console::outs(r.1@)) == ping_shell_spec(online, arg@),
{
    let mut v: Vec<Out> = nothing();
    if !online {
        say_color(&mut v, "net: offline (no nic detected at boot)\n".to_owned(), GLM_YELLOW);
        assert(crate::console::outs(v@) =~= ping_shell_spec(online, arg@).1);
        return (Ping::Done, v);
    }
    let target: Option<u32> = if arg.is_empty() {
        Some(GW_IP)
    } else {
        parse_ip(arg)
    };
    match target {
        None => {
            say_color(&mut v, "usage: ping <a.b.c.d>  (empty = default gateway)\n".to_owned(), GLM_YELLOW);
            assert(crate::console::outs(v@) =~= ping_shell_spec(online, arg@).1);
            (Ping::Done, v)
        },
        Some(t) => {
            let ip: String = ip_str(t);
            let mut a: String = "PING ".to_owned();
            a.append(ip.as_str());
            a.append(": 32 data bytes\n");
            say(&mut v, a);
            let mut b: String = "ARP resolving ".to_owned();
            b.append(ip.as_str());
            b.append(" ... ");
            say(&mut v, b);
            assert(crate::console::outs(v@) =~= ping_shell_spec(online, arg@).1);
            (Ping::Resolve { target: t, tries: 0 }, v)
        },
    }
}

/// The lost share of `sent` requests in percent.
pub open spec fn loss_percent(sent: u64, received: u64) -> int {
    if sent == 0 {
        100
    } else {
        (sent - received) * 100 / (sent as int)
    }
}

/// The closing statistics.
pub open spec fn stats_line(target: u32, sent: u64, received: u64) -> OutV {
    crate::console::colored(
        "--- "@ + crate::net::ip_text(target) + " ping statistics ---\n"@ + crate::text::dec_text(sent as nat)
            + " packets transmitted, "@ + crate::text::dec_text(received as nat) + " received, "@
            + crate::text::dec_text(loss_percent(sent, received) as nat) + "% packet loss\n"@,
        GLM_GRAY,
    )
}

fn say_stats(v: &mut Vec<Out>, target: u32, sent: u64, received: u64)
    requires
        received <= sent <= 4,
    ensures
        crate::console::outs(final(v)@) == crate::console::outs(old(v)@).push(stats_line(target, sent, received)),
{
    let loss: u64 = if sent == 0 {
        100
    } else {
        (sent - received) * 100 / sent
    };
    let mut s: String = "--- ".to_owned();
    s.append(ip_str(target).as_str());
    s.append(" ping statistics ---\n");
    push_dec(&mut s, sent);
    s.append(" packets transmitted, ");
    push_dec(&mut s, received);
    s.append(" received, ");
    push_dec(&mut s, loss);
    s.append("% packet loss\n");
    say_color(v, s, GLM_GRAY);
}

/// The report of one reply: the round trip in milliseconds and tenths.
pub open spec fn reply_line(target: u32, seq: u16, ttl: u8, rtt_us: u64) -> OutV {
    crate::console::colored(
        "64 bytes from "@ + crate::net::ip_text(target) + ": icmp_seq="@ + crate::text::dec_text(seq as nat) + " ttl="@
            + crate::text::dec_text(ttl as nat) + " time="@ + crate::text::dec_text((rtt_us / 1000) as nat) + "."@
            + crate::text::dec_text((rtt_us % 1000 / 100) as nat) + " ms\n"@,
        GLM_CYAN,
    )
}

fn say_reply(v: &mut Vec<Out>, target: u32, seq: u16, ttl: u8, rtt_us: u64)
    ensures
        crate::console::outs(final(v)@) == crate::console::outs(old(v)@).push(reply_line(target, seq, ttl, rtt_us)),
{
    let mut s: String = "64 bytes from ".to_owned();
    s.append(ip_str(target).as_str());
    s.append(": icmp_seq=");
    push_dec(&mut s, seq as u64);
    s.append(" ttl=");
    push_dec(&mut s, ttl as u64);
    s.append(" time=");
    push_dec(&mut s, rtt_us / 1000);
    s.append(".");
    push_dec(&mut s, rtt_us % 1000 / 100);
    s.append(" ms\n");
    say_color(v, s, GLM_CYAN);
}

pub open spec fn timeout_line(seq: u16) -> OutV {
    crate::console::colored("request timeout for icmp_seq "@ + crate::text::dec_text(seq as nat) + "\n"@, GLM_YELLOW)
}

fn say_timeout(v: &mut Vec<Out>, seq: u16)
    ensures
        crate::console::outs(final(v)@) == crate::console::outs(old(v)@).push(timeout_line(seq)),
{
    let mut s: String = "request timeout for icmp_seq ".to_owned();
    push_dec(&mut s, seq as u64);
    s.append("\n");
    say_color(v, s, GLM_YELLOW);
}

impl Ping {
    /// At most four requests go out and at most one reply counts for each.
    pub open spec fn wf(self) -> bool {
        match self {
            Ping::Resolve { target, tries } => tries <= 5,
            Ping::Send { target, seq, sent, received } => seq <= 4 && received <= sent && sent == seq,
            Ping::Sent { target, seq, sent, received } => seq < 4 && received < sent && sent == seq + 1,
            Ping::Wait { target, seq, sent, received, t0 } => seq < 4 && received < sent && sent == seq + 1,
            Ping::Done => true,
        }
    }
}

pub open spec fn ping_step_spec(p: Ping, n: NetV, now: u64) -> (Ping, NetV, Seq<OutV>, PingDoV) {
    match p {
        Ping::Resolve { target, tries } => match arp_lookup_spec(n.arp, target) {
            Some(m) => (
                Ping::Send { target, seq: 0, sent: 0, received: 0 },
                n,
                seq![crate::console::colored("ok ("@ + crate::net::e1000::mac_text(m) + ")\n"@, GLM_GREEN)],
                PingDoV::Nothing,
            ),
            None => if tries < 5 {
                (
                    Ping::Resolve { target, tries: (tries + 1) as u8 },
                    n,
                    Seq::empty(),
                    PingDoV::Ask(arp_request_frame(n.mac, target)),
                )
            } else {
                (
                    Ping::Done,
                    n,
                    seq![
                        crate::console::colored("no answer\n"@, GLM_YELLOW),
                        crate::console::colored(
                            "--- ping aborted (host unreachable at layer 2) ---\n"@,
                            GLM_GRAY,
                        ),
                    ],
                    PingDoV::Stop,
                )
            },
        },
        Ping::Send { target, seq, sent, received } => {
            let cleared = NetV { reply: ReplySlot { valid: false, ..n.reply }, ..n };
            if seq >= 4 {
                (Ping::Done, n, seq![stats_line(target, sent, received)], PingDoV::Stop)
            } else {
                match echo_request_spec(n, target, seq) {
                    None => (
                        Ping::Done,
                        cleared,
                        seq![
                            crate::console::colored(
                                "net: arp entry vanished, re-resolving failed\n"@,
                                GLM_YELLOW,
                            ),
                            stats_line(target, sent, received),
                        ],
                        PingDoV::Stop,
                    ),
                    Some(f) => (
                        Ping::Sent { target, seq, sent: (sent + 1) as u64, received },
                        NetV { ip_id: next_id(n.ip_id), ..cleared },
                        Seq::empty(),
                        PingDoV::Transmit(f),
                    ),
                }
            }
        },
        Ping::Sent { target, seq, sent, received } => (
            Ping::Wait { target, seq, sent, received, t0: now },
            n,
            Seq::empty(),
            PingDoV::Sleep(2),
        ),
        Ping::Wait { target, seq, sent, received, t0 } => {
            if n.reply.valid && n.reply.seq == seq {
                let rtt = if n.reply.t_us > t0 { (n.reply.t_us - t0) as u64 } else { 0u64 };
                (
                    Ping::Send { target, seq: (seq + 1) as u16, sent, received: (received + 1) as u64 },
                    NetV { reply: ReplySlot { valid: false, ..n.reply }, ..n },
                    seq![reply_line(target, seq, n.reply.ttl, rtt)],
                    PingDoV::Sleep(200),
                )
            } else if now - t0 < 2_000_000 {
                (p, n, Seq::empty(), PingDoV::Sleep(2))
            } else {
                (
                    Ping::Send { target, seq: (seq + 1) as u16, sent, received },
                    n,
                    seq![timeout_line(seq)],
                    PingDoV::Sleep(200),
                )
            }
        },
        Ping::Done => (p, n, Seq::empty(), PingDoV::Stop),
    }
}

/// One step of a ping at time `now`: resolve the target, then four times send
/// a request and wait up to two seconds for its reply, then the statistics.
pub fn ping_step(p: Ping, st: &mut NetState, now: u64) -> (r: (Ping, Vec<Out>, PingDo))
    requires
        old(st).wf(),
        p.wf(),
    ensures
        final(st).wf(),
        r.0.wf(),
        (r.0, final(st)@, crate::console::outs(r.1@), r.2@) == ping_step_spec(p, old(st)@, now),
{
    let mut v: Vec<Out> = nothing();
    match p {
        Ping::Resolve { target, tries } => {
            match arp_resolve(st, target, tries) {
                Resolve::Found(m) => {
                    let mut s: String = "ok (".to_owned();
                    s.append(mac_str(&m).as_str());
                    s.append(")\n");
                    say_color(&mut v, s, GLM_GREEN);
                    assert(crate::console::outs(v@) =~= ping_step_spec(p, old(st)@, now).2);
                    (Ping::Send { target, seq: 0, sent: 0, received: 0 }, v, PingDo::Nothing)
                },
                Resolve::Ask(f) => (Ping::Resolve { target, tries: tries + 1 }, v, PingDo::Ask(f)),
                Resolve::Failed => {
                    say_color(&mut v, "no answer\n".to_owned(), GLM_YELLOW);
                    say_color(
                        &mut v,
                        "--- ping aborted (host unreachable at layer 2) ---\n".to_owned(),
                        GLM_GRAY,
                    );
                    assert(crate::console::outs(v@) =~= ping_step_spec(p, old(st)@, now).2);
                    (Ping::Done, v, PingDo::Stop)
                },
            }
        },
        Ping::Send { target, seq, sent, received } => {
            if seq >= 4 {
                say_stats(&mut v, target, sent, received);
                assert(crate::console::outs(v@) =~= ping_step_spec(p, old(st)@, now).2);
                return (Ping::Done, v, PingDo::Stop);
            }
            st.reply.valid = false;
            match send_echo_request(st, target, seq) {
                None => {
                    say_color(
                        &mut v,
                        "net: arp entry vanished, re-resolving failed\n".to_owned(),
                        GLM_YELLOW,
                    );
                    say_stats(&mut v, target, sent, received);
                    assert(crate::console::outs(v@) =~= ping_step_spec(p, old(st)@, now).2);
                    (Ping::Done, v, PingDo::Stop)
                },
                Some(f) => (Ping::Sent { target, seq, sent: sent + 1, received }, v, PingDo::Transmit(f)),
            }
        },
        Ping::Sent { target, seq, sent, received } => (
            Ping::Wait { target, seq, sent, received, t0: now },
            v,
            PingDo::Sleep(2),
        ),
        Ping::Wait { target, seq, sent, received, t0 } => {
            if st.reply.valid && st.reply.seq == seq {
                let rtt: u64 = st.reply.t_us.saturating_sub(t0);
                st.reply.valid = false;
                say_reply(&mut v, target, seq, st.reply.ttl, rtt);
                assert(crate::console::outs(v@) =~= ping_step_spec(p, old(st)@, now).2);
                return (
                    Ping::Send { target, seq: seq + 1, sent, received: received + 1 },
                    v,
                    PingDo::Sleep(200),
                );
            }
            if now.saturating_sub(t0) < 2_000_000 {
                return (p, v, PingDo::Sleep(2));
            }
            say_timeout(&mut v, seq);
            assert(crate::console::outs(v@) =~= ping_step_spec(p, old(st)@, now).2);
            (Ping::Send { target, seq: seq + 1, sent, received }, v, PingDo::Sleep(200))
        },
        Ping::Done => (Ping::Done, v, PingDo::Stop),
    }
}

// ---------------------------------------------------------------------------
// Shell status printers
// ---------------------------------------------------------------------------
/// The row of one UDP socket.
pub open spec fn udp_row_line(r: (usize, u16, usize, u64, u64, bool)) -> OutV {
    crate::console::plain(
        "          "@ + crate::text::right_in(crate::text::dec_text(r.0 as nat), 2) + " "@ + crate::text::right_in(
            crate::text::dec_text(r.1 as nat),
            4,
        ) + "  "@ + crate::text::right_in(crate::text::dec_text(r.2 as nat), 5) + "  "@ + crate::text::right_in(
            crate::text::dec_text(r.3 as nat),
            4,
        ) + "  "@ + crate::text::right_in(crate::text::dec_text(r.4 as nat), 4) + "  "@ + (if r.5 {
            "recvfrom"@
        } else {
            "-"@
        }) + "\n"@,
    )
}

/// The socket part of the status: a heading and a row for each socket, or a
/// line that there is none.
pub open spec fn udp_lines(rows: Seq<(usize, u16, usize, u64, u64, bool)>) -> Seq<OutV> {
    if rows.len() == 0 {
        seq![
            crate::console::colored("Sockets:  (none bound - userland can bind via int 0x80)\n"@, GLM_GRAY),
        ]
    } else {
        seq![crate::console::colored("Sockets:  ID PORT  QUEUE  RECV  DROP  WAITER\n"@, GLM_WHITE)]
            + rows.map_values(|r: (usize, u16, usize, u64, u64, bool)| udp_row_line(r))
    }
}

fn say_udp_row(v: &mut Vec<Out>, r: (usize, u16, usize, u64, u64, bool))
    ensures
        crate::console::outs(final(v)@) == crate::console::outs(old(v)@).push(udp_row_line(r)),
{
    let mut s: String = "          ".to_owned();
    push_dec_right(&mut s, r.0 as u64, 2);
    s.append(" ");
    push_dec_right(&mut s, r.1 as u64, 4);
    s.append("  ");
    push_dec_right(&mut s, r.2 as u64, 5);
    s.append("  ");
    push_dec_right(&mut s, r.3, 4);
    s.append("  ");
    push_dec_right(&mut s, r.4, 4);
    s.append("  ");
    if r.5 {
        s.append("recvfrom");
    } else {
        s.append("-");
    }
    s.append("\n");
    say(v, s);
}

/// What is printed of the device: its BAR0, or nothing without one.
pub open spec fn bar0_text(dev: Option<PciDev>) -> Seq<char> {
    match dev {
        Some(d) => "bar0="@ + "0x"@ + crate::text::hex_text(d.bar0_phys as nat, false),
        None => Seq::empty(),
    }
}

pub open spec fn net_status_spec(nic: Nic, dev: Option<PciDev>, mac: Seq<u8>, link: bool, rows: Seq<
    (usize, u16, usize, u64, u64, bool),
>) -> Seq<OutV> {
    if !nic.online {
        seq![crate::console::colored("net: offline (no nic detected at boot)\n"@, GLM_YELLOW)]
    } else {
        seq![
            crate::console::colored(
                "NIC:      intel e1000, mmio "@ + bar0_text(dev) + ", mac "@ + crate::net::e1000::mac_text(mac) + "\n"@,
                GLM_WHITE,
            ),
            crate::console::plain(
                "IPv4:     "@ + crate::net::ip_text(OUR_IP) + "/24 via "@ + crate::net::ip_text(GW_IP)
                    + " (qemu slirp)\n"@,
            ),
            crate::console::plain(
                "Link:     "@ + (if link { "up"@ } else { "down"@ }) + ", irq vector "@ + "0x"@ + crate::text::hex_text(
                    crate::net::e1000::vector_of(dev) as nat,
                    false,
                ) + "\n"@,
            ),
            crate::console::colored(
                "Counters: "@ + crate::text::dec_text(nic.irq_n as nat) + " irq ("@ + crate::text::dec_text(
                    nic.irq_kicks as nat,
                ) + " rx kicks), "@ + crate::text::dec_text(nic.rx_total as nat) + " rx, "@ + crate::text::dec_text(
                    nic.tx_total as nat,
                ) + " tx, "@ + crate::text::dec_text(nic.dropped as nat) + " dropped\n"@,
                GLM_CYAN,
            ),
        ] + udp_lines(rows)
    }
}

/// The shell's `net` command: NIC, IP configuration, link state, interrupt
/// counters and the userland UDP sockets.
pub fn net_status(nic: &Nic, dev: &Option<PciDev>, st: &NetState, link: bool) -> (v: Vec<Out>)
    requires
        st.wf(),
    ensures
        crate::console::outs(v@) == net_status_spec(
            *nic,
            *dev,
            st@.mac,
            link,
            crate::seqs::collect_some(st@.udp, crate::net::sock::udp_row(), 8),
        ),
{
    let mut v: Vec<Out> = nothing();
    let ghost rows = crate::seqs::collect_some(st@.udp, crate::net::sock::udp_row(), 8);
    let ghost want = net_status_spec(*nic, *dev, st@.mac, link, rows);
    if !nic.online {
        say_color(&mut v, "net: offline (no nic detected at boot)\n".to_owned(), GLM_YELLOW);
        assert(crate::console::outs(v@) =~= want);
        return v;
    }
    let mut bar: String = String::new();
    match dev {
        Some(d) => {
            bar.append("bar0=");
            bar.append("0x");
            push_hex(&mut bar, d.bar0_phys as u64, false);
        },
        None => {},
    }
    assert(bar@ =~= bar0_text(*dev));
    let mut a: String = "NIC:      intel e1000, mmio ".to_owned();
    a.append(bar.as_str());
    a.append(", mac ");
    a.append(mac_str(&st.mac).as_str());
    a.append("\n");
    say_color(&mut v, a, GLM_WHITE);
    let mut b: String = "IPv4:     ".to_owned();
    b.append(ip_str(OUR_IP).as_str());
    b.append("/24 via ");
    b.append(ip_str(GW_IP).as_str());
    b.append(" (qemu slirp)\n");
    say(&mut v, b);
    let mut c: String = "Link:     ".to_owned();
    if link {
        c.append("up");
    } else {
        c.append("down");
    }
    c.append(", irq vector ");
    c.append("0x");
    push_hex(&mut c, crate::net::e1000::nic_vector(dev) as u64, false);
    c.append("\n");
    say(&mut v, c);
    let mut d: String = "Counters: ".to_owned();
    push_dec(&mut d, nic.irq_n);
    d.append(" irq (");
    push_dec(&mut d, nic.irq_kicks);
    d.append(" rx kicks), ");
    push_dec(&mut d, nic.rx_total);
    d.append(" rx, ");
    push_dec(&mut d, nic.tx_total);
    d.append(" tx, ");
    push_dec(&mut d, nic.dropped);
    d.append(" dropped\n");
    say_color(&mut v, d, GLM_CYAN);
    let ghost head = crate::console::outs(v@);
    let table: Vec<(usize, u16, usize, u64, u64, bool)> = crate::net::sock::for_each(&st.udp);
    if table.len() == 0 {
        say_color(
            &mut v,
            "Sockets:  (none bound - userland can bind via int 0x80)\n".to_owned(),
            GLM_GRAY,
        );
        assert(crate::console::outs(v@) =~= want);
        return v;
    }
    say_color(&mut v, "Sockets:  ID PORT  QUEUE  RECV  DROP  WAITER\n".to_owned(), GLM_WHITE);
    let ghost head2 = crate::console::outs(v@);
    let mut i: usize = 0;
    while i < table.len()
        invariant
            i <= table@.len(),
            crate::console::outs(v@) == head2 + table@.take(i as int).map_values(
                |r: (usize, u16, usize, u64, u64, bool)| udp_row_line(r),
            ),
        decreases table@.len() - i,
    {
        say_udp_row(&mut v, table[i]);
        i = i + 1;
        assert(crate::console::outs(v@) =~= head2 + table@.take(i as int).map_values(
            |r: (usize, u16, usize, u64, u64, bool)| udp_row_line(r),
        ));
    }
    assert(table@.take(table@.len() as int) =~= table@);
    assert(crate::console::outs(v@) =~= want);
    v
}

/// The line of one ARP entry, with its age at `now`.
pub open spec fn arp_line(e: ArpV, now: u64) -> OutV {
    crate::console::plain(
        "  "@ + crate::net::ip_text(e.ip) + " at "@ + crate::net::e1000::mac_text(e.mac) + " ("@ + crate::text::dec_text(
            ((if now > e.stamp_us { (now - e.stamp_us) as u64 } else { 0u64 }) / 1_000_000) as nat,
        ) + " s old)\n"@,
    )
}

pub open spec fn arp_row(now: u64) -> spec_fn(int, ArpV) -> Option<OutV> {
    |i: int, e: ArpV| if e.valid { Some(arp_line(e, now)) } else { None }
}

pub open spec fn arp_dump_spec(online: bool, t: Seq<ArpV>, now: u64) -> Seq<OutV> {
    let rows = crate::seqs::collect_some(t, arp_row(now), ARP_SLOTS as int);
    if !online {
        seq![crate::console::colored("net: offline\n"@, GLM_YELLOW)]
    } else {
        seq![crate::console::colored("ARP cache:\n"@, GLM_CYAN)] + if rows.len() == 0 {
            seq![crate::console::colored("  (empty - run ping to populate)\n"@, GLM_GRAY)]
        } else {
            rows
        }
    }
}

/// The shell's `arp` command.
pub fn arp_dump(online: bool, st: &NetState, now: u64) -> (v: Vec<Out>)
    requires
        st.wf(),
    ensures
        crate::console::outs(v@) == arp_dump_spec(online, st@.arp, now),
{
    let mut v: Vec<Out> = nothing();
    if !online {
        say_color(&mut v, "net: offline\n".to_owned(), GLM_YELLOW);
        assert(crate::console::outs(v@) =~= arp_dump_spec(online, st@.arp, now));
        return v;
    }
    say_color(&mut v, "ARP cache:\n".to_owned(), GLM_CYAN);
    let ghost head = crate::console::outs(v@);
    let ghost t = st@.arp;
    let mut any = false;
    let mut i: usize = 0;
    while i < ARP_SLOTS
        invariant
            st.wf(),
            t == st@.arp,
            i <= ARP_SLOTS,
            any == (crate::seqs::collect_some(t, arp_row(now), i as int).len() > 0),
            crate::console::outs(v@) == head + crate::seqs::collect_some(t, arp_row(now), i as int),
        decreases ARP_SLOTS - i,
    {
        assert(t[i as int] == st.arp@[i as int]@);
        if st.arp[i].valid {
            any = true;
            let mut s: String = "  ".to_owned();
            s.append(ip_str(st.arp[i].ip).as_str());
            s.append(" at ");
            s.append(mac_str(&st.arp[i].mac).as_str());
            s.append(" (");
            push_dec(&mut s, now.saturating_sub(st.arp[i].stamp_us) / 1_000_000);
            s.append(" s old)\n");
            say(&mut v, s);
        }
        i = i + 1;
        assert(crate::console::outs(v@) =~= head + crate::seqs::collect_some(t, arp_row(now), i as int));
    }
    if !any {
        say_color(&mut v, "  (empty - run ping to populate)\n".to_owned(), GLM_GRAY);
    }
    assert(crate::console::outs(v@) =~= arp_dump_spec(online, st@.arp, now));
    v
}

// ---------------------------------------------------------------------------
// Laws
// ---------------------------------------------------------------------------
/// What is learned is what is looked up.
pub proof fn law_arp_learned(t: Seq<ArpV>, ip: u32, mac: Seq<u8>, now: u64)
    requires
        t.len() == ARP_SLOTS,
        ip != 0,
    ensures
        arp_lookup_spec(arp_learn_spec(t, ip, mac, now), ip) == Some(mac),
{
    let k = arp_slot(t, ip);
    let t2 = arp_learn_spec(t, ip, mac, now);
    let p = arp_for(ip);
    crate::seqs::lemma_first_from(t, p, 0);
    crate::seqs::lemma_first_from(t, arp_free(), 0);
    lemma_oldest(t, t.len() as int);
    assert forall|j: int| 0 <= j < k implies !p(#[trigger] t2[j]) by {
        assert(t2[j] == t[j]);
    }
    assert(p(t2[k]));
    crate::seqs::lemma_first_is(t2, p, 0, k);
}

/// The entry that makes room when the table is full is one with the smallest
/// time stamp.
pub proof fn lemma_oldest(t: Seq<ArpV>, n: int)
    requires
        1 <= n <= t.len(),
    ensures
        0 <= oldest(t, n) < n,
        forall|j: int| 0 <= j < n ==> t[oldest(t, n)].stamp_us <= (#[trigger] t[j]).stamp_us,
    decreases n,
{
    if n > 1 {
        lemma_oldest(t, n - 1);
    }
}

/// Learning one address leaves every other known address as it was, unless
/// the table is full and its entry is the evicted one.
pub proof fn law_arp_others_kept(t: Seq<ArpV>, ip: u32, mac: Seq<u8>, now: u64, other: u32)
    requires
        t.len() == ARP_SLOTS,
        other != ip,
        arp_lookup_spec(t, other) is Some,
        crate::seqs::first(t, arp_for(other)) != Some(arp_slot(t, ip)),
    ensures
        arp_lookup_spec(arp_learn_spec(t, ip, mac, now), other) == arp_lookup_spec(t, other),
{
    let p = arp_for(other);
    let t2 = arp_learn_spec(t, ip, mac, now);
    let k = crate::seqs::first(t, p)->Some_0;
    crate::seqs::lemma_first_from(t, p, 0);
    crate::seqs::lemma_first_from(t, arp_for(ip), 0);
    crate::seqs::lemma_first_from(t, arp_free(), 0);
    lemma_oldest(t, t.len() as int);
    if ip != 0 {
        assert forall|j: int| 0 <= j < k implies !p(#[trigger] t2[j]) by {
            assert(!p(t[j]));
        }
        assert(t2[k] == t[k]);
        crate::seqs::lemma_first_is(t2, p, 0, k);
    }
}

/// An address written as a dotted quad reads back as itself.
pub proof fn law_ip_text_round_trip(ip: u32)
    ensures
        ip_of_text(crate::net::ip_text(ip)) == Some(ip),
{
    let a = (ip / 0x100_0000) as nat;
    let b = (ip / 0x1_0000 % 256) as nat;
    let c = (ip / 256 % 256) as nat;
    let d = (ip % 256) as nat;
    let ta = crate::text::dec_text(a);
    let tb = crate::text::dec_text(b);
    let tc = crate::text::dec_text(c);
    let td = crate::text::dec_text(d);
    reveal_strlit(".");
    lemma_octet(a);
    lemma_octet(b);
    lemma_octet(c);
    lemma_octet(d);
    let e = Seq::<char>::empty();
    crate::text::lemma_pieces_extend(e, ta, '.');
    assert(e + ta =~= ta);
    assert(crate::text::pieces(ta, '.') =~= seq![ta]);
    lemma_dot_piece(ta, tb);
    lemma_dot_piece(ta + "."@ + tb, tc);
    lemma_dot_piece(ta + "."@ + tb + "."@ + tc, td);
    let p = crate::text::pieces(crate::net::ip_text(ip), '.');
    assert(p =~= seq![ta, tb, tc, td]);
    lemma_quad(ip);
}

proof fn lemma_quad(ip: u32)
    ensures
        ip / 0x100_0000 * 0x100_0000 + ip / 0x1_0000 % 256 * 0x1_0000 + ip / 256 % 256 * 256 + ip % 256 == ip,
{
}

proof fn lemma_dot_piece(s: Seq<char>, t: Seq<char>)
    requires
        forall|i: int| 0 <= i < t.len() ==> #[trigger] t[i] != '.',
    ensures
        crate::text::pieces(s + "."@ + t, '.') == crate::text::pieces(s, '.').push(t),
{
    reveal_strlit(".");
    assert(s + "."@ =~= s.push('.'));
    crate::text::lemma_pieces_sep(s, '.');
    crate::text::lemma_pieces_extend(s + "."@, t, '.');
    assert(Seq::<char>::empty() + t =~= t);
    assert(crate::text::pieces(s + "."@ + t, '.') =~= crate::text::pieces(s, '.').push(t));
}

proof fn lemma_octet(n: nat)
    requires
        n <= 255,
    ensures
        octet(crate::text::dec_text(n)) == Some(n),
        forall|i: int| 0 <= i < crate::text::dec_text(n).len() ==> #[trigger] crate::text::dec_text(n)[i] != '.',
{
    crate::text::law_dec_round_trip(n);
    let t = crate::text::dec_text(n);
    assert forall|i: int| 0 <= i < t.len() implies #[trigger] t[i] != '.' by {
        assert(crate::text::is_digit(t[i]));
    }
}

} // verus!
