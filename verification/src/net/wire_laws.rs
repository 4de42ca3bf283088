//! What stands on the wire, byte for byte, and what a frame from the wire
//! comes to.

use vstd::prelude::*;

use crate::net::netd::{ArpV, NetOutV, NetV, Ping, PingDoV, ReplySlot};
use crate::net::sock::DgramV;
use crate::net::tcp::{InSeg, SegV};

verus! {

/// Two bytes, the high one first.
pub open spec fn two(s: Seq<u8>, i: int) -> int {
    256 * s[i] + s[i + 1]
}

/// Four bytes, the highest first.
pub open spec fn four(s: Seq<u8>, i: int) -> int {
    0x100_0000 * s[i] + 0x1_0000 * s[i + 1] + 256 * s[i + 2] + s[i + 3]
}

/// Fields are read and written high byte first on the network and low byte
/// first on disks and in programs.
pub proof fn law_byte_order(x: u16, y: u32, s: Seq<u8>, i: int)
    ensures
        crate::bytes::be2(x).len() == 2 && two(crate::bytes::be2(x), 0) == x,
        crate::bytes::be4(y).len() == 4 && four(crate::bytes::be4(y), 0) == y,
        crate::bytes::rd_be2(s, i) == two(s, i),
        crate::bytes::rd_be4(s, i) == four(s, i),
        crate::bytes::rd_le2(s, i) == s[i] + 256 * s[i + 1],
        crate::bytes::rd_le4(s, i) == s[i] + 256 * s[i + 1] + 0x1_0000 * s[i + 2] + 0x100_0000 * s[i + 3],
        crate::bytes::rd_le8(s, i) == s[i] + 256 * s[i + 1] + 0x1_0000 * s[i + 2] + 0x100_0000 * s[i + 3]
            + 0x1_0000_0000 * (s[i + 4] + 256 * s[i + 5] + 0x1_0000 * s[i + 6] + 0x100_0000 * s[i + 7]),
{
}

/// The sum of the 16-bit words of some bytes from `i` on, an odd one at the
/// end taken with a zero behind it.
pub open spec fn words(s: Seq<u8>, i: int) -> int
    decreases s.len() - i,
{
    if i >= s.len() {
        0
    } else if i + 1 == s.len() {
        256 * s[i]
    } else {
        two(s, i) + words(s, i + 2)
    }
}

proof fn lemma_words(s: Seq<u8>, i: int)
    requires
        0 <= i,
    ensures
        crate::net::proto::word_sum_from(s, i) == words(s, i),
    decreases s.len() - i,
{
    if i + 1 < s.len() {
        lemma_words(s, i + 2);
    }
}

/// An Ethernet frame: 6 bytes of destination, 6 of source, 2 of type, payload.
pub proof fn law_ethernet_layout(dst: Seq<u8>, src: Seq<u8>, etype: u16, payload: Seq<u8>)
    requires
        dst.len() == 6,
        src.len() == 6,
    ensures
        ({
            let f = crate::net::proto::eth_header(dst, src, etype) + payload;
            &&& f.len() == 14 + payload.len()
            &&& forall|i: int| 0 <= i < 6 ==> #[trigger] dst[i] == f[i]
            &&& forall|i: int| 0 <= i < 6 ==> #[trigger] src[i] == f[6 + i]
            &&& two(f, 12) == etype
            &&& forall|i: int| 0 <= i < payload.len() ==> #[trigger] payload[i] == f[14 + i]
        }),
{
}

/// An ARP packet for Ethernet and IPv4: 28 bytes.
pub proof fn law_arp_layout(oper: u16, sha: Seq<u8>, spa: u32, tha: Seq<u8>, tpa: u32)
    requires
        sha.len() == 6,
        tha.len() == 6,
    ensures
        ({
            let p = crate::net::proto::arp_packet(oper, sha, spa, tha, tpa);
            &&& p.len() == 28
            &&& two(p, 0) == 1 && two(p, 2) == 0x0800 && p[4] == 6 && p[5] == 4
            &&& two(p, 6) == oper
            &&& forall|i: int| 0 <= i < 6 ==> #[trigger] sha[i] == p[8 + i]
            &&& four(p, 14) == spa
            &&& forall|i: int| 0 <= i < 6 ==> #[trigger] tha[i] == p[18 + i]
            &&& four(p, 24) == tpa
        }),
{
}

/// An IPv4 header: version 4 with 5 words, the total length, the id, no
/// fragments, 64 hops, the protocol, the addresses, and a checksum that makes
/// the sum of the words 0 modulo 65535.
pub proof fn law_ipv4_layout(id: u16, proto: u8, src: u32, dst: u32, n: nat)
    requires
        20 + n <= 65535,
    ensures
        ({
            let p = crate::net::proto::ipv4_wire_header(id, proto, src, dst, n);
            &&& p.len() == 20
            &&& p[0] == 0x45 && p[1] == 0
            &&& two(p, 2) == 20 + n
            &&& two(p, 4) == id
            &&& two(p, 6) == 0x4000
            &&& p[8] == 64
            &&& p[9] == proto
            &&& four(p, 12) == src
            &&& four(p, 16) == dst
            &&& words(p, 0) % 65535 == 0
        }),
{
    let p = crate::net::proto::ipv4_wire_header(id, proto, src, dst, n);
    let payload = Seq::new(n, |i: int| 0u8);
    crate::net::proto::law_ipv4_round_trip(id, proto, src, dst, payload);
    assert((p + payload).subrange(0, 20) =~= p);
    lemma_words(p, 0);
}

/// A UDP datagram: the ports, the length with the 8 bytes of header, the
/// checksum over addresses, protocol 17, length and datagram, the payload.
pub proof fn law_udp_layout(src_ip: u32, dst_ip: u32, src_port: u16, dst_port: u16, payload: Seq<u8>)
    requires
        payload.len() + 8 <= 65535,
    ensures
        ({
            let p = crate::net::proto::udp_wire(src_ip, dst_ip, src_port, dst_port, payload);
            &&& p.len() == 8 + payload.len()
            &&& two(p, 0) == src_port
            &&& two(p, 2) == dst_port
            &&& two(p, 4) == p.len()
            &&& forall|i: int| 0 <= i < payload.len() ==> #[trigger] payload[i] == p[8 + i]
            &&& two(p, 6) == 0 || (src_ip / 65536 + src_ip % 65536 + dst_ip / 65536 + dst_ip % 65536 + 17 + p.len()
                + words(p, 0)) % 65535 == 0
        }),
{
    let p = crate::net::proto::udp_wire(src_ip, dst_ip, src_port, dst_port, payload);
    crate::net::proto::law_udp_round_trip(src_ip, dst_ip, src_port, dst_port, payload);
    assert(crate::net::proto::udp_bytes(p) =~= p);
    lemma_words(p, 0);
}

/// An ICMP echo: the kind, code 0, the checksum, the id, the number, the
/// payload.
pub proof fn law_echo_layout(kind: u8, id: u16, seq: u16, payload: Seq<u8>)
    requires
        kind == 8 || kind == 0,
    ensures
        ({
            let p = crate::net::proto::icmp_wire(kind, id, seq, payload);
            &&& p.len() == 8 + payload.len()
            &&& p[0] == kind && p[1] == 0
            &&& two(p, 4) == id
            &&& two(p, 6) == seq
            &&& forall|i: int| 0 <= i < payload.len() ==> #[trigger] payload[i] == p[8 + i]
            &&& words(p, 0) % 65535 == 0
        }),
{
    let p = crate::net::proto::icmp_wire(kind, id, seq, payload);
    crate::net::proto::law_icmp_round_trip(kind, id, seq, payload);
    lemma_words(p, 0);
}

/// A TCP segment: the ports, the numbers, 5 words of header, the flags, the
/// window, the checksum over addresses, protocol 6, length and segment, the
/// payload.
#[verifier::spinoff_prover]
pub proof fn law_tcp_layout(
    src_ip: u32,
    dst_ip: u32,
    src_port: u16,
    dst_port: u16,
    seq: u32,
    ack: u32,
    flags: u8,
    window: u16,
    payload: Seq<u8>,
)
    requires
        payload.len() + 20 <= 65535,
    ensures
        ({
            let p = crate::net::proto::tcp_wire(
                src_ip,
                dst_ip,
                src_port,
                dst_port,
                seq,
                ack,
                flags,
                window,
                payload,
            );
            &&& p.len() == 20 + payload.len()
            &&& two(p, 0) == src_port
            &&& two(p, 2) == dst_port
            &&& four(p, 4) == seq
            &&& four(p, 8) == ack
            &&& p[12] == 0x50
            &&& p[13] == flags
            &&& two(p, 14) == window
            &&& two(p, 18) == 0
            &&& forall|i: int| 0 <= i < payload.len() ==> #[trigger] payload[i] == p[20 + i]
            &&& (src_ip / 65536 + src_ip % 65536 + dst_ip / 65536 + dst_ip % 65536 + 6 + p.len() + words(p, 0)) % 65535
                == 0
        }),
{
    let p = crate::net::proto::tcp_wire(src_ip, dst_ip, src_port, dst_port, seq, ack, flags, window, payload);
    crate::net::proto::law_tcp_round_trip(
        src_ip,
        dst_ip,
        src_port,
        dst_port,
        seq,
        ack,
        flags,
        window,
        payload,
        p,
    );
    assert(crate::bytes::overlay(p, 0, p).take(p.len() as int) =~= p);
    lemma_words(p, 0);
}

// ---------------------------------------------------------------------------
// Frames that come in
// ---------------------------------------------------------------------------
/// A frame as another machine sends it to us: its payload behind the Ethernet
/// and IPv4 headers.
pub open spec fn from_peer(our: Seq<u8>, mac: Seq<u8>, ip: u32, id: u16, proto: u8, body: Seq<u8>) -> Seq<u8> {
    crate::net::proto::eth_header(our, mac, 0x0800) + (crate::net::proto::ipv4_wire_header(
        id,
        proto,
        ip,
        0x0A00_020F,
        body.len(),
    ) + body)
}

proof fn lemma_from_peer(our: Seq<u8>, mac: Seq<u8>, ip: u32, id: u16, proto: u8, body: Seq<u8>)
    requires
        our.len() == 6,
        mac.len() == 6,
        body.len() + 20 <= 65535,
    ensures
        ({
            let f = from_peer(our, mac, ip, id, proto, body);
            let p = f.skip(14);
            &&& f.len() >= 14
            &&& crate::bytes::rd_be2(f, 12) == 0x0800
            &&& f.subrange(6, 12) == mac
            &&& crate::net::proto::ipv4_ok(p)
            &&& p[9] == proto
            &&& p[8] == 64
            &&& crate::bytes::rd_be4(p, 12) == ip
            &&& crate::bytes::rd_be4(p, 16) == 0x0A00_020F
            &&& crate::net::proto::ipv4_payload(p) == body
        }),
{
    let p = crate::net::proto::ipv4_wire_header(id, proto, ip, 0x0A00_020F, body.len()) + body;
    crate::net::proto::law_ipv4_round_trip(id, proto, ip, 0x0A00_020F, body);
    crate::net::proto::law_eth_round_trip(our, mac, 0x0800, p);
    let f = from_peer(our, mac, ip, id, proto, body);
    assert(f.skip(14) =~= p);
}

/// Where a frame from another machine goes.
proof fn lemma_goes_to(n: NetV, mac: Seq<u8>, ip: u32, id: u16, proto: u8, body: Seq<u8>, now: u64)
    requires
        n.mac.len() == 6,
        mac.len() == 6,
        body.len() + 20 <= 65535,
    ensures
        ({
            let r = crate::net::netd::handle_frame_spec(n, from_peer(n.mac, mac, ip, id, proto, body), now);
            &&& proto == 1 ==> r == crate::net::netd::handle_echo_spec(n, ip, 64, body, mac, now)
            &&& proto == 17 ==> r == crate::net::netd::handle_udp_spec(n, ip, body)
            &&& proto == 6 ==> r == crate::net::netd::handle_tcp_spec(n, ip, body, now)
        }),
{
    lemma_from_peer(n.mac, mac, ip, id, proto, body);
}

/// A segment reads back as it was sent.
#[verifier::spinoff_prover]
proof fn lemma_segment_reads(ip: u32, g: InSeg, window: u16)
    requires
        g.payload.len() <= 1400,
    ensures
        ({
            let body = crate::net::proto::tcp_wire(
                ip,
                0x0A00_020F,
                g.src_port,
                g.dst_port,
                g.seq,
                g.ack,
                g.flags,
                window,
                g.payload,
            );
            &&& body.len() == 20 + g.payload.len()
            &&& crate::net::proto::tcp_parse_ok(body)
            &&& crate::net::proto::tcp_sum_ok(ip, 0x0A00_020F, body)
            &&& crate::net::tcp::in_seg(body) == g
        }),
{
    let body = crate::net::proto::tcp_wire(
        ip,
        0x0A00_020F,
        g.src_port,
        g.dst_port,
        g.seq,
        g.ack,
        g.flags,
        window,
        g.payload,
    );
    crate::net::proto::law_tcp_round_trip(
        ip,
        0x0A00_020F,
        g.src_port,
        g.dst_port,
        g.seq,
        g.ack,
        g.flags,
        window,
        g.payload,
        body,
    );
    assert(crate::bytes::overlay(body, 0, body).take(body.len() as int) =~= body);
}

/// The answer to an echo request, byte for byte.
proof fn lemma_answer(mac: Seq<u8>, our: Seq<u8>, id: u16, ip: u32, echo: u16, seq: u16, data: Seq<u8>)
    requires
        mac.len() == 6,
        our.len() == 6,
        data.len() <= 32,
    ensures
        ({
            let w = crate::net::proto::icmp_wire(0, echo, seq, data);
            let a = crate::net::netd::ipv4_frame(mac, our, id, 1, ip, w);
            &&& a.len() == 42 + data.len()
            &&& forall|i: int| 0 <= i < 6 ==> #[trigger] mac[i] == a[i]
            &&& forall|i: int| 0 <= i < 6 ==> #[trigger] our[i] == a[6 + i]
            &&& two(a, 12) == 0x0800
            &&& a[23] == 1
            &&& four(a, 26) == 0x0A00_020F
            &&& four(a, 30) == ip
            &&& a[34] == 0 && a[35] == 0
            &&& two(a, 38) == echo
            &&& two(a, 40) == seq
            &&& forall|i: int| 0 <= i < data.len() ==> #[trigger] data[i] == a[42 + i]
        }),
{
    let w = crate::net::proto::icmp_wire(0, echo, seq, data);
    lemma_sent_packet(mac, our, id, 1, ip, w);
    law_echo_layout(0, echo, seq, data);
    let a = crate::net::netd::ipv4_frame(mac, our, id, 1, ip, w);
    assert(a[34] == w[0] && a[35] == w[1] && a[38] == w[4] && a[39] == w[5] && a[40] == w[6] && a[41] == w[7]);
    assert forall|i: int| 0 <= i < data.len() implies #[trigger] data[i] == a[42 + i] by {
        assert(a[34 + (8 + i)] == w[8 + i]);
    }
}

/// A datagram that another machine sends to a port of ours waits at the socket
/// that is bound to it, with its bytes, its sender's address and port; the
/// task that waits there is woken.
pub proof fn law_datagram_from_the_wire(
    n: NetV,
    mac: Seq<u8>,
    ip: u32,
    id: u16,
    src_port: u16,
    data: Seq<u8>,
    i: int,
    now: u64,
)
    requires
        n.mac.len() == 6,
        mac.len() == 6,
        n.udp.len() == 8,
        0 <= i < 8,
        n.udp[i].used,
        forall|j: int| 0 <= j < i ==> !((#[trigger] n.udp[j]).used && n.udp[j].port == n.udp[i].port),
        n.udp[i].queue.len() < 8,
        data.len() <= 256,
    ensures
        ({
            let f = from_peer(
                n.mac,
                mac,
                ip,
                id,
                17,
                crate::net::proto::udp_wire(ip, 0x0A00_020F, src_port, n.udp[i].port, data),
            );
            let (n1, out) = crate::net::netd::handle_frame_spec(n, f, now);
            &&& n1.udp[i].queue == n.udp[i].queue.push(DgramV { src_ip: ip, src_port, data })
            &&& forall|j: int| 0 <= j < 8 && j != i ==> #[trigger] n1.udp[j] == n.udp[j]
            &&& n1.tcp == n.tcp && n1.arp == n.arp
            &&& out == NetOutV::Wake(n.udp[i].waiter)
        }),
{
    let body = crate::net::proto::udp_wire(ip, 0x0A00_020F, src_port, n.udp[i].port, data);
    lemma_from_peer(n.mac, mac, ip, id, 17, body);
    crate::net::proto::law_udp_round_trip(ip, 0x0A00_020F, src_port, n.udp[i].port, data);
    crate::user::call_laws::law_datagram_reaches_its_port(n.udp, i, ip, src_port, data);
    assert(data.subrange(0, data.len() as int) =~= data);
}

/// A TCP segment that another machine sends reaches the connections as it was
/// sent, and what they answer goes out.
#[verifier::spinoff_prover]
pub proof fn law_segment_from_the_wire(
    n: NetV,
    mac: Seq<u8>,
    ip: u32,
    id: u16,
    g: InSeg,
    window: u16,
    now: u64,
)
    requires
        n.mac.len() == 6,
        mac.len() == 6,
        g.payload.len() <= 1400,
    ensures
        ({
            let f = from_peer(
                n.mac,
                mac,
                ip,
                id,
                6,
                crate::net::proto::tcp_wire(
                    ip,
                    0x0A00_020F,
                    g.src_port,
                    g.dst_port,
                    g.seq,
                    g.ack,
                    g.flags,
                    window,
                    g.payload,
                ),
            );
            let (n1, out) = crate::net::netd::handle_frame_spec(n, f, now);
            let (t1, answer) = crate::net::tcp::route_spec(n.tcp, ip, g, now);
            &&& n1 == NetV { tcp: t1, ..n }
            &&& answer matches Some(s) ==> out == NetOutV::Segment(s)
            &&& answer is None ==> out == NetOutV::Nothing
        }),
{
    let body = crate::net::proto::tcp_wire(
        ip,
        0x0A00_020F,
        g.src_port,
        g.dst_port,
        g.seq,
        g.ack,
        g.flags,
        window,
        g.payload,
    );
    lemma_segment_reads(ip, g, window);
    lemma_goes_to(n, mac, ip, id, 6, body, now);
}

/// The segments that we send are what the peer reads: the frame goes to its
/// MAC address, the packet to its address, and the segment has the numbers,
/// flags and bytes of the connection.
#[verifier::spinoff_prover]
pub proof fn law_segment_onto_the_wire(mac: Seq<u8>, our: Seq<u8>, id: u16, s: SegV)
    requires
        mac.len() == 6,
        our.len() == 6,
        s.payload.len() <= 1400,
    ensures
        ({
            let f = crate::net::tcp::seg_frame(mac, our, id, s);
            let n = s.payload.len();
            &&& f.len() == 54 + n
            &&& forall|i: int| 0 <= i < 6 ==> #[trigger] mac[i] == f[i]
            &&& forall|i: int| 0 <= i < 6 ==> #[trigger] our[i] == f[6 + i]
            &&& two(f, 12) == 0x0800
            &&& f[14] == 0x45
            &&& two(f, 16) == 40 + n
            &&& f[23] == 6
            &&& four(f, 26) == 0x0A00_020F
            &&& four(f, 30) == s.dst_ip
            &&& two(f, 34) == s.local_port
            &&& two(f, 36) == s.dst_port
            &&& four(f, 38) == s.seq
            &&& four(f, 42) == s.ack
            &&& f[46] == 0x50
            &&& f[47] == s.flags
            &&& forall|i: int| 0 <= i < n ==> #[trigger] s.payload[i] == f[54 + i]
        }),
{
    law_ethernet_layout(mac, our, 0x0800, Seq::empty());
    law_ipv4_layout(id, 6, 0x0A00_020F, s.dst_ip, 20 + s.payload.len());
    let h = crate::net::proto::eth_header(mac, our, 0x0800);
    let q = crate::net::proto::ipv4_wire_header(id, 6, 0x0A00_020F, s.dst_ip, 20 + s.payload.len());
    let w = crate::net::proto::tcp_wire(
        0x0A00_020F,
        s.dst_ip,
        s.local_port,
        s.dst_port,
        s.seq,
        s.ack,
        s.flags,
        crate::net::tcp::RCV_WIN,
        s.payload,
    );
    law_tcp_layout(
        0x0A00_020F,
        s.dst_ip,
        s.local_port,
        s.dst_port,
        s.seq,
        s.ack,
        s.flags,
        crate::net::tcp::RCV_WIN,
        s.payload,
    );
    let f = crate::net::tcp::seg_frame(mac, our, id, s);
    assert(f == h + q + w);
    assert forall|i: int| 0 <= i < 20 implies f[14 + i] == #[trigger] q[i] by {}
    assert forall|i: int| 0 <= i < w.len() implies f[34 + i] == #[trigger] w[i] by {}
    assert(f[12] == h[12] && f[13] == h[13]);
    assert(f[16] == q[2] && f[17] == q[3] && f[26] == q[12] && f[27] == q[13] && f[28] == q[14] && f[29] == q[15]);
    assert(f[30] == q[16] && f[31] == q[17] && f[32] == q[18] && f[33] == q[19]);
}

/// An ARP request for our address is answered to whoever asked, with our MAC
/// address and theirs, and its sender is remembered.
#[verifier::spinoff_prover]
pub proof fn law_arp_request_is_answered(n: NetV, mac: Seq<u8>, ip: u32, now: u64)
    requires
        n.mac.len() == 6,
        mac.len() == 6,
        n.arp.len() == 8,
        ip != 0,
    ensures
        ({
            let f = crate::net::proto::eth_header(seq![0xFFu8, 0xFF, 0xFF, 0xFF, 0xFF, 0xFF], mac, 0x0806)
                + crate::net::proto::arp_packet(1, mac, ip, seq![0u8, 0, 0, 0, 0, 0], 0x0A00_020F);
            let (n1, out) = crate::net::netd::handle_frame_spec(n, f, now);
            &&& crate::net::netd::arp_lookup_spec(n1.arp, ip) == Some(mac)
            &&& n1.udp == n.udp && n1.tcp == n.tcp
            &&& out matches NetOutV::Frame(a) && {
                &&& a.len() == 42
                &&& forall|i: int| 0 <= i < 6 ==> #[trigger] mac[i] == a[i] && mac[i] == a[32 + i]
                &&& forall|i: int| 0 <= i < 6 ==> #[trigger] n.mac[i] == a[6 + i] && n.mac[i] == a[22 + i]
                &&& two(a, 12) == 0x0806
                &&& two(a, 20) == 2
                &&& four(a, 28) == 0x0A00_020F
                &&& four(a, 38) == ip
            }
        }),
{
    let dst = seq![0xFFu8, 0xFF, 0xFF, 0xFF, 0xFF, 0xFF];
    let tha = seq![0u8, 0, 0, 0, 0, 0];
    let q = crate::net::proto::arp_packet(1, mac, ip, tha, 0x0A00_020F);
    crate::net::proto::law_arp_round_trip(1, mac, ip, tha, 0x0A00_020F);
    crate::net::proto::law_eth_round_trip(dst, mac, 0x0806, q);
    let f = crate::net::proto::eth_header(dst, mac, 0x0806) + q;
    assert(f.skip(14) =~= q);
    crate::net::netd::law_arp_learned(n.arp, ip, mac, now);
    law_arp_layout(2, n.mac, 0x0A00_020F, mac, ip);
    let a = crate::net::netd::arp_frame(mac, n.mac, 2, mac, ip);
    let p = crate::net::proto::arp_packet(2, n.mac, 0x0A00_020F, mac, ip);
    assert forall|i: int| 0 <= i < 28 implies a[14 + i] == #[trigger] p[i] by {}
    assert(a[20] == p[6] && a[21] == p[7] && a[28] == p[14] && a[29] == p[15] && a[30] == p[16] && a[31] == p[17]);
    assert(a[38] == p[24] && a[39] == p[25] && a[40] == p[26] && a[41] == p[27]);
    assert forall|i: int| 0 <= i < 6 implies #[trigger] mac[i] == a[i] && mac[i] == a[32 + i] by {
        assert(a[14 + (18 + i)] == p[18 + i]);
    }
    assert forall|i: int| 0 <= i < 6 implies #[trigger] n.mac[i] == a[6 + i] && n.mac[i] == a[22 + i] by {
        assert(a[14 + (8 + i)] == p[8 + i]);
    }
}

/// An echo request is answered to its sender with the same id, number and
/// bytes, up to 32 of them.
pub proof fn law_ping_is_answered(n: NetV, mac: Seq<u8>, ip: u32, id: u16, echo: u16, seq: u16, data: Seq<u8>, now: u64)
    requires
        n.mac.len() == 6,
        mac.len() == 6,
        data.len() <= 32,
    ensures
        ({
            let f = from_peer(n.mac, mac, ip, id, 1, crate::net::proto::icmp_wire(8, echo, seq, data));
            let (n1, out) = crate::net::netd::handle_frame_spec(n, f, now);
            &&& n1.udp == n.udp && n1.tcp == n.tcp && n1.arp == n.arp && n1.reply == n.reply
            &&& out matches NetOutV::Frame(a) && {
                &&& a.len() == 42 + data.len()
                &&& forall|i: int| 0 <= i < 6 ==> #[trigger] mac[i] == a[i]
                &&& forall|i: int| 0 <= i < 6 ==> #[trigger] n.mac[i] == a[6 + i]
                &&& two(a, 12) == 0x0800
                &&& a[23] == 1
                &&& four(a, 26) == 0x0A00_020F
                &&& four(a, 30) == ip
                &&& a[34] == 0 && a[35] == 0
                &&& two(a, 38) == echo
                &&& two(a, 40) == seq
                &&& forall|i: int| 0 <= i < data.len() ==> #[trigger] data[i] == a[42 + i]
            }
        }),
{
    let body = crate::net::proto::icmp_wire(8, echo, seq, data);
    crate::net::proto::law_icmp_round_trip(8, echo, seq, data);
    assert(body.len() == 8 + data.len());
    lemma_goes_to(n, mac, ip, id, 1, body, now);
    if data.len() == 32 {
        assert(body.subrange(8, 40) =~= data);
    }
    lemma_answer(mac, n.mac, crate::net::netd::id_of(n.ip_id), ip, echo, seq, data);
}

/// The headers of a packet that we send, and the packet behind them.
proof fn lemma_sent_packet(mac: Seq<u8>, our: Seq<u8>, id: u16, proto: u8, ip: u32, w: Seq<u8>)
    requires
        mac.len() == 6,
        our.len() == 6,
        20 + w.len() <= 65535,
    ensures
        ({
            let a = crate::net::netd::ipv4_frame(mac, our, id, proto, ip, w);
            &&& a.len() == 34 + w.len()
            &&& forall|i: int| 0 <= i < 6 ==> #[trigger] mac[i] == a[i]
            &&& forall|i: int| 0 <= i < 6 ==> #[trigger] our[i] == a[6 + i]
            &&& two(a, 12) == 0x0800
            &&& a[14] == 0x45
            &&& two(a, 16) == 20 + w.len()
            &&& a[23] == proto
            &&& four(a, 26) == 0x0A00_020F
            &&& four(a, 30) == ip
            &&& forall|i: int| 0 <= i < w.len() ==> a[34 + i] == #[trigger] w[i]
        }),
{
    law_ipv4_layout(id, proto, 0x0A00_020F, ip, w.len());
    let a = crate::net::netd::ipv4_frame(mac, our, id, proto, ip, w);
    let h = crate::net::proto::eth_header(mac, our, 0x0800);
    let q = crate::net::proto::ipv4_wire_header(id, proto, 0x0A00_020F, ip, w.len());
    assert(a == h + q + w);
    assert forall|i: int| 0 <= i < 20 implies a[14 + i] == #[trigger] q[i] by {}
    assert(a[12] == h[12] && a[13] == h[13]);
    assert(a[14] == q[0] && a[16] == q[2] && a[17] == q[3] && a[23] == q[9]);
    assert(a[26] == q[12] && a[27] == q[13] && a[28] == q[14] && a[29] == q[15]);
    assert(a[30] == q[16] && a[31] == q[17] && a[32] == q[18] && a[33] == q[19]);
}

/// The answer to a ping of ours is kept with its sender, number, hops and
/// time; nothing is sent.
pub proof fn law_answer_to_a_ping_is_kept(
    n: NetV,
    mac: Seq<u8>,
    ip: u32,
    id: u16,
    seq: u16,
    data: Seq<u8>,
    now: u64,
)
    requires
        n.mac.len() == 6,
        mac.len() == 6,
        data.len() <= 1400,
    ensures
        ({
            let f = from_peer(n.mac, mac, ip, id, 1, crate::net::proto::icmp_wire(0, 0x474C, seq, data));
            let (n1, out) = crate::net::netd::handle_frame_spec(n, f, now);
            &&& n1.reply == ReplySlot { ip, seq, ttl: 64, t_us: now, valid: true }
            &&& out == NetOutV::Nothing
        }),
{
    let body = crate::net::proto::icmp_wire(0, 0x474C, seq, data);
    lemma_from_peer(n.mac, mac, ip, id, 1, body);
    crate::net::proto::law_icmp_round_trip(0, 0x474C, seq, data);
}

/// What is not for us changes nothing: another address, a broken checksum of
/// the header, another kind of frame, or one that is too short.
pub proof fn law_foreign_frames_are_dropped(n: NetV, f: Seq<u8>, now: u64)
    requires
        f.len() < 14 || (two(f, 12) != 0x0806 && two(f, 12) != 0x0800) || (two(f, 12) == 0x0800 && f.len() >= 34 && (
        four(f, 30) != 0x0A00_020F || (f[14] == 0x45 && words(f.subrange(14, 34), 0) % 65535 != 0))),
    ensures
        crate::net::netd::handle_frame_spec(n, f, now) == (n, NetOutV::Nothing),
{
    if f.len() >= 34 && two(f, 12) == 0x0800 {
        let p = f.skip(14);
        assert(p[16] == f[30] && p[17] == f[31] && p[18] == f[32] && p[19] == f[33]);
        if f[14] == 0x45 && words(f.subrange(14, 34), 0) % 65535 != 0 {
            assert(p.subrange(0, 20) =~= f.subrange(14, 34));
            lemma_words(p.subrange(0, 20), 0);
        }
    }
}

/// The cache of addresses: a new one takes the place of its former entry, or a
/// free one, or that of the oldest.
#[verifier::spinoff_prover]
pub proof fn law_arp_cache(t: Seq<ArpV>, ip: u32, mac: Seq<u8>, now: u64, i: int)
    requires
        t.len() == 8,
        ip != 0,
        0 <= i < 8,
        ({
            ||| t[i].valid && t[i].ip == ip && forall|j: int|
                0 <= j < i ==> !((#[trigger] t[j]).valid && t[j].ip == ip)
            ||| !t[i].valid && (forall|j: int| 0 <= j < i ==> (#[trigger] t[j]).valid) && forall|j: int|
                0 <= j < 8 ==> !((#[trigger] t[j]).valid && t[j].ip == ip)
            ||| (forall|j: int| 0 <= j < 8 ==> (#[trigger] t[j]).valid && t[j].ip != ip) && (forall|j: int|
                0 <= j < 8 ==> t[i].stamp_us <= (#[trigger] t[j]).stamp_us) && (forall|j: int|
                0 <= j < i ==> t[i].stamp_us < (#[trigger] t[j]).stamp_us)
        }),
    ensures
        crate::net::netd::arp_learn_spec(t, ip, mac, now) == t.update(i, ArpV { ip, mac, stamp_us: now, valid: true }),
{
    let q = crate::net::netd::arp_for(ip);
    let u = crate::net::netd::arp_free();
    if t[i].valid && t[i].ip == ip && forall|j: int| 0 <= j < i ==> !((#[trigger] t[j]).valid && t[j].ip == ip) {
        assert(q(t[i]));
        assert forall|j: int| 0 <= j < i implies !q(#[trigger] t[j]) by {
            assert(!(t[j].valid && t[j].ip == ip));
        }
        crate::seqs::lemma_first_is(t, q, 0, i);
    } else {
        assert forall|j: int| 0 <= j < t.len() implies !q(#[trigger] t[j]) by {
            assert(!(t[j].valid && t[j].ip == ip));
        }
        crate::seqs::lemma_first_none(t, q, 0);
        if !t[i].valid {
            assert(u(t[i]));
            assert forall|j: int| 0 <= j < i implies !u(#[trigger] t[j]) by {
                assert(t[j].valid);
            }
            crate::seqs::lemma_first_is(t, u, 0, i);
        } else {
            assert forall|j: int| 0 <= j < t.len() implies !u(#[trigger] t[j]) by {
                assert(t[j].valid);
            }
            crate::seqs::lemma_first_none(t, u, 0);
            lemma_oldest(t, i, 8);
        }
    }
}

proof fn lemma_oldest(t: Seq<ArpV>, i: int, n: int)
    requires
        t.len() == 8,
        0 <= i < 8,
        0 < n <= 8,
        forall|j: int| 0 <= j < 8 ==> t[i].stamp_us <= (#[trigger] t[j]).stamp_us,
        forall|j: int| 0 <= j < i ==> t[i].stamp_us < (#[trigger] t[j]).stamp_us,
    ensures
        0 <= crate::net::netd::oldest(t, n) < n,
        i < n ==> crate::net::netd::oldest(t, n) == i,
    decreases n,
{
    if n > 1 {
        lemma_oldest(t, i, n - 1);
    }
}

/// A ping: the address is asked for up to five times; then four requests,
/// numbered from 0, each followed by a wait for its own answer of at most two
/// seconds; an answer counts once. At the end it stops.
pub proof fn law_ping(n: NetV, target: u32, seq: u16, sent: u64, received: u64, t0: u64, now: u64, tries: u8)
    requires
        seq < 4,
        sent < 100,
        received < 100,
        now >= t0,
    ensures
        ({
            let (p, n1, _, d) = crate::net::netd::ping_step_spec(Ping::Resolve { target, tries }, n, now);
            &&& crate::net::netd::arp_lookup_spec(n.arp, target) is Some ==> p == (Ping::Send {
                target,
                seq: 0,
                sent: 0,
                received: 0,
            })
            &&& crate::net::netd::arp_lookup_spec(n.arp, target) is None && tries < 5 ==> p == (Ping::Resolve {
                target,
                tries: (tries + 1) as u8,
            }) && d is Ask
            &&& crate::net::netd::arp_lookup_spec(n.arp, target) is None && tries >= 5 ==> p == Ping::Done
        }),
        ({
            let (p, n1, _, d) = crate::net::netd::ping_step_spec(Ping::Send { target, seq, sent, received }, n, now);
            crate::net::netd::arp_lookup_spec(n.arp, target) is Some ==> {
                &&& p == (Ping::Sent { target, seq, sent: (sent + 1) as u64, received })
                &&& d is Transmit
                &&& !n1.reply.valid
            }
        }),
        crate::net::netd::ping_step_spec(Ping::Sent { target, seq, sent, received }, n, now).0 == (Ping::Wait {
            target,
            seq,
            sent,
            received,
            t0: now,
        }),
        ({
            let (p, n1, _, d) = crate::net::netd::ping_step_spec(
                Ping::Wait { target, seq, sent, received, t0 },
                n,
                now,
            );
            if n.reply.valid && n.reply.seq == seq {
                p == (Ping::Send { target, seq: (seq + 1) as u16, sent, received: (received + 1) as u64 })
                    && !n1.reply.valid
            } else if now - t0 < 2_000_000 {
                p == (Ping::Wait { target, seq, sent, received, t0 }) && n1 == n
            } else {
                p == (Ping::Send { target, seq: (seq + 1) as u16, sent, received })
            }
        }),
        crate::net::netd::ping_step_spec(Ping::Send { target, seq: 4, sent, received }, n, now).0 == Ping::Done,
        crate::net::netd::ping_step_spec(Ping::Send { target, seq: 4, sent, received }, n, now).3 is Stop,
{
}

/// The request of a ping: an ICMP echo request with the id 0x474C, that number
/// and 32 bytes, to the MAC address that the target was found at.
pub proof fn law_ping_request(n: NetV, ip: u32, seq: u16, mac: Seq<u8>)
    requires
        n.mac.len() == 6,
        mac.len() == 6,
        crate::net::netd::arp_lookup_spec(n.arp, ip) == Some(mac),
    ensures
        crate::net::netd::echo_request_spec(n, ip, seq) matches Some(a) && {
            &&& a.len() == 74
            &&& forall|i: int| 0 <= i < 6 ==> #[trigger] mac[i] == a[i]
            &&& a[23] == 1
            &&& four(a, 30) == ip
            &&& a[34] == 8
            &&& two(a, 38) == 0x474C
            &&& two(a, 40) == seq
        },
{
    let w = crate::net::proto::icmp_wire(8, 0x474C, seq, crate::net::netd::ping_payload());
    let mine = crate::net::netd::id_of(n.ip_id);
    lemma_sent_packet(mac, n.mac, mine, 1, ip, w);
    law_echo_layout(8, 0x474C, seq, crate::net::netd::ping_payload());
    let a = crate::net::netd::ipv4_frame(mac, n.mac, mine, 1, ip, w);
    assert(a[34] == w[0] && a[38] == w[4] && a[39] == w[5] && a[40] == w[6] && a[41] == w[7]);
}

/// A datagram that we send: from our address and port to that address and
/// port, with its bytes.
pub proof fn law_datagram_onto_the_wire(
    mac: Seq<u8>,
    our: Seq<u8>,
    id: u16,
    ip: u32,
    dst_port: u16,
    src_port: u16,
    data: Seq<u8>,
)
    requires
        mac.len() == 6,
        our.len() == 6,
        data.len() <= 1400,
    ensures
        ({
            let a = crate::net::netd::udp_frame(mac, our, id, ip, dst_port, src_port, data);
            &&& a.len() == 42 + data.len()
            &&& forall|i: int| 0 <= i < 6 ==> #[trigger] mac[i] == a[i]
            &&& a[23] == 17
            &&& four(a, 26) == 0x0A00_020F
            &&& four(a, 30) == ip
            &&& two(a, 34) == src_port
            &&& two(a, 36) == dst_port
            &&& two(a, 38) == 8 + data.len()
            &&& forall|i: int| 0 <= i < data.len() ==> #[trigger] data[i] == a[42 + i]
        }),
{
    let w = crate::net::proto::udp_wire(0x0A00_020F, ip, src_port, dst_port, data);
    lemma_sent_packet(mac, our, id, 17, ip, w);
    law_udp_layout(0x0A00_020F, ip, src_port, dst_port, data);
    let a = crate::net::netd::udp_frame(mac, our, id, ip, dst_port, src_port, data);
    assert(a[34] == w[0] && a[35] == w[1] && a[36] == w[2] && a[37] == w[3] && a[38] == w[4] && a[39] == w[5]);
    assert forall|i: int| 0 <= i < data.len() implies #[trigger] data[i] == a[42 + i] by {
        assert(a[34 + (8 + i)] == w[8 + i]);
    }
}

} // verus!
