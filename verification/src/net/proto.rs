//! Minimal protocol encoders/decoders: Ethernet II, ARP, IPv4, UDP, ICMP echo
//! and TCP segments, as plain byte surgery. The internet checksum is the
//! classic 16-bit ones' complement sum.

use vstd::prelude::*;
use vstd::slice::slice_subrange;

use crate::bytes::{get_be2, get_be4, put_be2, put_be4, put_bytes};
use crate::net::OUR_IP;

verus! {

pub const ETHERTYPE_ARP: u16 = 0x0806;

pub const ETHERTYPE_IPV4: u16 = 0x0800;

pub const ETH_HDR: usize = 14;

pub const ARP_PKT: usize = 28;

pub const IPV4_HDR_MIN: usize = 20;

pub const ICMP_HDR: usize = 8;

pub const UDP_HDR: usize = 8;

pub const TCP_HDR_MIN: usize = 20;

pub const ICMP_ECHO_REPLY: u8 = 0;

pub const ICMP_ECHO_REQUEST: u8 = 8;

pub const ARP_REQUEST: u16 = 1;

pub const ARP_REPLY: u16 = 2;

pub const PROTO_ICMP: u8 = 1;

pub const PROTO_UDP: u8 = 17;

pub const PROTO_TCP: u8 = 6;

pub const TCP_FIN: u8 = 0x01;

pub const TCP_SYN: u8 = 0x02;

pub const TCP_RST: u8 = 0x04;

pub const TCP_PSH: u8 = 0x08;

pub const TCP_ACK: u8 = 0x10;

/// Broadcast MAC.
pub const MAC_BCAST: [u8; 6] = [0xFF, 0xFF, 0xFF, 0xFF, 0xFF, 0xFF];

// ---------------------------------------------------------------------------
// Internet checksum
// ---------------------------------------------------------------------------
/// The sum of the big-endian 16-bit words of `s` from position `i` on; an odd
/// last byte counts as the high half of a word.
pub open spec fn word_sum_from(s: Seq<u8>, i: int) -> nat
    decreases s.len() - i,
{
    if i < 0 || i >= s.len() {
        0
    } else if i + 1 == s.len() {
        (s[i] * 256) as nat
    } else {
        (s[i] * 256 + s[i + 1]) as nat + word_sum_from(s, i + 2)
    }
}

/// The sum of all big-endian 16-bit words of `s`.
pub open spec fn word_sum(s: Seq<u8>) -> nat {
    word_sum_from(s, 0)
}

/// The ones' complement 16-bit value of a sum: its residue modulo 65535, with
/// 65535 (not 0) standing for every multiple of 65535 except 0 itself.
pub open spec fn fold16(sum: nat) -> nat {
    if sum == 0 {
        0
    } else {
        ((sum - 1) % 65535 + 1) as nat
    }
}

/// The internet checksum of `s`, on top of a sum `base` of further words.
pub open spec fn inet_checksum(base: nat, s: Seq<u8>) -> u16 {
    (65535 - fold16(base + word_sum(s))) as u16
}

/// What the pseudo header of UDP and TCP adds to the checksum's sum.
pub open spec fn pseudo_sum(src_ip: u32, dst_ip: u32, proto: u8, len: nat) -> nat {
    (src_ip / 65536 + src_ip % 65536 + dst_ip / 65536 + dst_ip % 65536 + proto + len % 65536) as nat
}

proof fn lemma_word_sum_from_bound(s: Seq<u8>, i: int)
    requires
        0 <= i,
    ensures
        i <= s.len() ==> word_sum_from(s, i) <= 65535 * ((s.len() - i + 1) / 2),
        i > s.len() ==> word_sum_from(s, i) == 0,
    decreases s.len() - i,
{
    if i + 1 < s.len() {
        lemma_word_sum_from_bound(s, i + 2);
    }
}

/// The word sum of `n` bytes is at most 65535 for every two of them, so
/// anything up to 128 KiB sums within 32 bits.
pub proof fn lemma_word_sum_bound(s: Seq<u8>)
    ensures
        word_sum(s) <= 65535 * ((s.len() + 1) / 2),
{
    lemma_word_sum_from_bound(s, 0);
}

proof fn lemma_word_sum_zero_tail(s: Seq<u8>, t: Seq<u8>, k: int, i: int)
    requires
        0 <= i,
        i % 2 == 0,
        k % 2 == 0,
        0 <= k,
        k + 2 <= s.len(),
        t == s.update(k, 0u8).update(k + 1, 0u8),
    ensures
        word_sum_from(s, i) == word_sum_from(t, i) + (if i <= k {
            (s[k] * 256 + s[k + 1]) as nat
        } else {
            0nat
        }),
    decreases s.len() - i,
{
    if i + 1 < s.len() {
        lemma_word_sum_zero_tail(s, t, k, i + 2);
    }
}

/// Putting the checksum of a message (taken with a zeroed, even-placed
/// checksum field) into that field makes the whole sum to 65535, so that the
/// receiver's checksum of it is zero.
pub proof fn lemma_checksum_verifies(base: nat, zeroed: Seq<u8>, k: int, full: Seq<u8>)
    requires
        0 <= k,
        k % 2 == 0,
        k + 2 <= zeroed.len(),
        zeroed[k] == 0,
        zeroed[k + 1] == 0,
        full == crate::bytes::overlay(zeroed, k, crate::bytes::be2(inet_checksum(base, zeroed))),
    ensures
        fold16(base + word_sum(full)) == 65535,
        inet_checksum(base, full) == 0,
{
    let c = inet_checksum(base, zeroed);
    let t = full.update(k, 0u8).update(k + 1, 0u8);
    assert(t =~= zeroed);
    lemma_word_sum_zero_tail(full, t, k, 0);
    assert(full[k] * 256 + full[k + 1] == c);
    let sum = base + word_sum(zeroed);
    assert(base + word_sum(full) == sum + c);
    assert(0 <= fold16(sum) <= 65535);
    assert(c == 65535 - fold16(sum));
    if sum == 0 {
        assert((65535 - 1) % 65535 + 1 == 65535);
    } else {
        let q = (sum - 1) / 65535;
        assert(sum - 1 == 65535 * q + (sum - 1) % 65535);
        assert(sum + c == 65535 * (q + 1));
        assert((65535 * (q + 1) - 1) % 65535 == 65534) by {
            assert(65535 * (q + 1) - 1 == 65535 * q + 65534);
        }
    }
}

/// Sums the words of `data` onto `base`.
fn sum_words(base: u32, data: &[u8]) -> (sum: u32)
    requires
        base + word_sum(data@) <= u32::MAX,
    ensures
        sum == base + word_sum(data@),
{
    let n: usize = data.len();
    let mut sum: u32 = base;
    let mut i: usize = 0;
    while n - i >= 2
        invariant
            n == data@.len(),
            i <= n,
            sum + word_sum_from(data@, i as int) == base + word_sum(data@),
            base + word_sum(data@) <= u32::MAX,
        decreases n - i,
    {
        assert(word_sum_from(data@, i as int) == (data@[i as int] * 256 + data@[i + 1])
            + word_sum_from(data@, i + 2));
        sum = sum + (data[i] as u32 * 256 + data[i + 1] as u32);
        i = i + 2;
    }
    if i < n {
        sum = sum + data[i] as u32 * 256;
        assert(word_sum_from(data@, i as int) == data@[i as int] * 256);
    }
    sum
}

/// Folds a 32-bit sum to its 16-bit ones' complement value.
fn fold(sum: u32) -> (r: u16)
    ensures
        r == fold16(sum as nat),
{
    let mut s: u32 = sum;
    while s / 65536 != 0
        invariant
            fold16(s as nat) == fold16(sum as nat),
        decreases s,
    {
        let t: u32 = s % 65536 + s / 65536;
        assert(s == 65535 * (s / 65536) + t);
        assert(t >= 1);
        assert(fold16(t as nat) == fold16(s as nat)) by {
            vstd::arithmetic::div_mod::lemma_mod_multiples_vanish((s / 65536) as int, t - 1, 65535);
        }
        s = t;
    }
    assert(s < 65536);
    assert(s >= 1 ==> (s - 1) % 65535 == s - 1 || s == 65535 + 1);
    s as u16
}

/// The internet checksum of `data`.
pub fn checksum(data: &[u8]) -> (r: u16)
    requires
        word_sum(data@) <= u32::MAX,
    ensures
        r == inet_checksum(0, data@),
{
    let sum: u32 = sum_words(0, data);
    65535 - fold(sum)
}

/// The pseudo-header part of a UDP or TCP checksum.
fn pseudo(src_ip: u32, dst_ip: u32, proto: u8, len: usize) -> (r: u32)
    ensures
        r == pseudo_sum(src_ip, dst_ip, proto, len as nat),
        r <= 5 * 65535 + 255,
{
    src_ip / 65536 + src_ip % 65536 + dst_ip / 65536 + dst_ip % 65536 + proto as u32 + (len % 65536) as u32
}

// ---------------------------------------------------------------------------
// Ethernet II
// ---------------------------------------------------------------------------
/// The 14 bytes of an Ethernet II header: destination, source, type.
pub open spec fn eth_header(dst: Seq<u8>, src: Seq<u8>, etype: u16) -> Seq<u8> {
    dst + src + crate::bytes::be2(etype)
}

/// [dst 6][src 6][type 2] then payload.
pub fn eth_put(buf: &mut [u8], dst: &[u8; 6], src: &[u8; 6], etype: u16) -> (n: usize)
    requires
        old(buf)@.len() >= ETH_HDR,
    ensures
        n == ETH_HDR,
        final(buf)@ == crate::bytes::overlay(old(buf)@, 0, eth_header(dst@, src@, etype)),
{
    put_bytes(buf, 0, dst.as_slice());
    put_bytes(buf, 6, src.as_slice());
    put_be2(buf, 12, etype);
    assert(buf@ =~= crate::bytes::overlay(old(buf)@, 0, eth_header(dst@, src@, etype)));
    ETH_HDR
}

pub struct EthFrame<'a> {
    pub dst: [u8; 6],
    pub src: [u8; 6],
    pub ethertype: u16,
    pub payload: &'a [u8],
}

/// Splits a frame into its header fields and its payload; too short is `None`.
pub fn eth_parse(frame: &[u8]) -> (r: Option<EthFrame<'_>>)
    ensures
        r is Some <==> frame@.len() >= ETH_HDR,
        r matches Some(f) ==> {
            &&& f.dst@ == frame@.subrange(0, 6)
            &&& f.src@ == frame@.subrange(6, 12)
            &&& f.ethertype == crate::bytes::rd_be2(frame@, 12)
            &&& f.payload@ == frame@.subrange(14, frame@.len() as int)
        },
{
    if frame.len() < ETH_HDR {
        return None;
    }
    let dst: [u8; 6] = get_mac(frame, 0);
    let src: [u8; 6] = get_mac(frame, 6);
    Some(
        EthFrame {
            dst,
            src,
            ethertype: get_be2(frame, 12),
            payload: slice_subrange(frame, ETH_HDR, frame.len()),
        },
    )
}

/// The six bytes of `p` from `at` on.
fn get_mac(p: &[u8], at: usize) -> (m: [u8; 6])
    requires
        at + 6 <= p@.len(),
    ensures
        m@ == p@.subrange(at as int, at + 6),
{
    let _n: usize = p.len();
    let m: [u8; 6] = [p[at], p[at + 1], p[at + 2], p[at + 3], p[at + 4], p[at + 5]];
    assert(m@ =~= p@.subrange(at as int, at + 6));
    m
}

// ---------------------------------------------------------------------------
// ARP
// ---------------------------------------------------------------------------
/// The 28 bytes of an Ethernet/IPv4 ARP packet.
pub open spec fn arp_packet(oper: u16, sha: Seq<u8>, spa: u32, tha: Seq<u8>, tpa: u32) -> Seq<u8> {
    seq![0u8, 1, 8, 0, 6, 4] + crate::bytes::be2(oper) + sha + crate::bytes::be4(spa) + tha
        + crate::bytes::be4(tpa)
}

/// Build an ARP packet into `buf` (after the 14-byte eth header).
/// Returns the packet length (28).
pub fn arp_put(
    buf: &mut [u8],
    oper: u16,
    sender_mac: &[u8; 6],
    sender_ip: u32,
    target_mac: &[u8; 6],
    target_ip: u32,
) -> (n: usize)
    requires
        old(buf)@.len() >= ARP_PKT,
    ensures
        n == ARP_PKT,
        final(buf)@ == crate::bytes::overlay(
            old(buf)@,
            0,
            arp_packet(oper, sender_mac@, sender_ip, target_mac@, target_ip),
        ),
{
    put_be2(buf, 0, 1);
    put_be2(buf, 2, ETHERTYPE_IPV4);
    buf[4] = 6;
    buf[5] = 4;
    put_be2(buf, 6, oper);
    put_bytes(buf, 8, sender_mac.as_slice());
    put_be4(buf, 14, sender_ip);
    put_bytes(buf, 18, target_mac.as_slice());
    put_be4(buf, 24, target_ip);
    assert(buf@ =~= crate::bytes::overlay(
        old(buf)@,
        0,
        arp_packet(oper, sender_mac@, sender_ip, target_mac@, target_ip),
    ));
    ARP_PKT
}

pub struct ArpPkt {
    pub oper: u16,
    pub sha: [u8; 6],
    pub spa: u32,
    pub tha: [u8; 6],
    pub tpa: u32,
}

/// Reads the fields of an ARP packet; fewer than 28 bytes is `None`.
pub fn arp_parse(p: &[u8]) -> (r: Option<ArpPkt>)
    ensures
        r is Some <==> p@.len() >= ARP_PKT,
        r matches Some(a) ==> {
            &&& a.oper == crate::bytes::rd_be2(p@, 6)
            &&& a.sha@ == p@.subrange(8, 14)
            &&& a.spa == crate::bytes::rd_be4(p@, 14)
            &&& a.tha@ == p@.subrange(18, 24)
            &&& a.tpa == crate::bytes::rd_be4(p@, 24)
        },
{
    if p.len() < ARP_PKT {
        return None;
    }
    Some(
        ArpPkt {
            oper: get_be2(p, 6),
            sha: get_mac(p, 8),
            spa: get_be4(p, 14),
            tha: get_mac(p, 18),
            tpa: get_be4(p, 24),
        },
    )
}

// ---------------------------------------------------------------------------
// IPv4
// ---------------------------------------------------------------------------
/// A 20-byte IPv4 header (no fragmentation, TTL 64) with the given checksum.
pub open spec fn ipv4_header(total: u16, id: u16, proto: u8, sum: u16, src: u32, dst: u32) -> Seq<u8> {
    seq![0x45u8, 0] + crate::bytes::be2(total) + crate::bytes::be2(id) + seq![0x40u8, 0, 64, proto]
        + crate::bytes::be2(sum) + crate::bytes::be4(src) + crate::bytes::be4(dst)
}

/// The IPv4 header that goes on the wire: its checksum field makes it verify.
pub open spec fn ipv4_wire_header(id: u16, proto: u8, src: u32, dst: u32, payload_len: nat) -> Seq<u8> {
    let total = ((20 + payload_len) % 65536) as u16;
    ipv4_header(
        total,
        id,
        proto,
        inet_checksum(0, ipv4_header(total, id, proto, 0, src, dst)),
        src,
        dst,
    )
}

/// Build an IPv4 header with identification `id` into `buf`. Returns the
/// header length (20).
pub fn ipv4_put(buf: &mut [u8], id: u16, proto: u8, src: u32, dst: u32, payload_len: usize) -> (n: usize)
    requires
        old(buf)@.len() >= IPV4_HDR_MIN,
        payload_len + 20 <= usize::MAX,
    ensures
        n == IPV4_HDR_MIN,
        final(buf)@ == crate::bytes::overlay(
            old(buf)@,
            0,
            ipv4_wire_header(id, proto, src, dst, payload_len as nat),
        ),
{
    let total_len: u16 = ((IPV4_HDR_MIN + payload_len) % 65536) as u16;
    let ghost zeroed = ipv4_header(total_len, id, proto, 0, src, dst);
    buf[0] = 0x45;
    buf[1] = 0;
    put_be2(buf, 2, total_len);
    put_be2(buf, 4, id);
    put_be2(buf, 6, 0x4000);
    buf[8] = 64;
    buf[9] = proto;
    put_be2(buf, 10, 0);
    put_be4(buf, 12, src);
    put_be4(buf, 16, dst);
    assert(buf@ =~= crate::bytes::overlay(old(buf)@, 0, zeroed));
    let head: &[u8] = slice_subrange(buf, 0, IPV4_HDR_MIN);
    assert(head@ =~= zeroed);
    proof {
        lemma_word_sum_bound(zeroed);
    }
    let sum: u16 = checksum(head);
    put_be2(buf, 10, sum);
    assert(buf@ =~= crate::bytes::overlay(
        old(buf)@,
        0,
        ipv4_wire_header(id, proto, src, dst, payload_len as nat),
    ));
    IPV4_HDR_MIN
}

pub struct Ipv4Hdr<'a> {
    pub ihl: usize,
    pub proto: u8,
    pub src: u32,
    pub dst: u32,
    pub ttl: u8,
    pub payload: &'a [u8],
}

/// The header length that the first byte of an IPv4 packet announces.
pub open spec fn ipv4_ihl(p: Seq<u8>) -> int {
    (p[0] % 16) * 4
}

/// Whether `p` starts with an acceptable IPv4 header: version 4, at least 20
/// header bytes, all of them present, with a checksum that verifies.
pub open spec fn ipv4_ok(p: Seq<u8>) -> bool {
    &&& p.len() >= 20
    &&& p[0] / 16 == 4
    &&& ipv4_ihl(p) >= 20
    &&& p.len() >= ipv4_ihl(p)
    &&& inet_checksum(0, p.subrange(0, ipv4_ihl(p))) == 0
}

/// The bytes after the header, cut to the announced total length.
pub open spec fn ipv4_payload(p: Seq<u8>) -> Seq<u8> {
    let ihl = ipv4_ihl(p);
    let total = crate::bytes::rd_be2(p, 2) as int;
    let want = if total < ihl { 0 } else { total - ihl };
    let have = p.len() - ihl;
    p.subrange(ihl, ihl + if want < have { want } else { have })
}

/// Reads an IPv4 header and the payload behind it.
pub fn ipv4_parse(p: &[u8]) -> (r: Option<Ipv4Hdr<'_>>)
    ensures
        r is Some <==> ipv4_ok(p@),
        r matches Some(h) ==> {
            &&& h.ihl == ipv4_ihl(p@)
            &&& h.proto == p@[9]
            &&& h.ttl == p@[8]
            &&& h.src == crate::bytes::rd_be4(p@, 12)
            &&& h.dst == crate::bytes::rd_be4(p@, 16)
            &&& h.payload@ == ipv4_payload(p@)
        },
{
    if p.len() < IPV4_HDR_MIN {
        return None;
    }
    let ihl: usize = (p[0] % 16) as usize * 4;
    if p[0] / 16 != 4 || ihl < IPV4_HDR_MIN || p.len() < ihl {
        return None;
    }
    let total: usize = get_be2(p, 2) as usize;
    let want: usize = if total < ihl { 0 } else { total - ihl };
    let have: usize = p.len() - ihl;
    let payload_len: usize = if want < have { want } else { have };
    let head: &[u8] = slice_subrange(p, 0, ihl);
    proof {
        lemma_word_sum_bound(head@);
    }
    // header checksum must verify
    if checksum(head) != 0 {
        return None;
    }
    Some(
        Ipv4Hdr {
            ihl,
            proto: p[9],
            ttl: p[8],
            src: get_be4(p, 12),
            dst: get_be4(p, 16),
            payload: slice_subrange(p, ihl, ihl + payload_len),
        },
    )
}

/// Is this IPv4 address ours?
pub fn is_ours(ip: u32) -> (r: bool)
    ensures
        r == (ip == OUR_IP),
{
    ip == OUR_IP
}

// ---------------------------------------------------------------------------
// UDP
// ---------------------------------------------------------------------------
/// A UDP datagram with the given checksum field.
pub open spec fn udp_datagram(src_port: u16, dst_port: u16, sum: u16, payload: Seq<u8>) -> Seq<u8> {
    crate::bytes::be2(src_port) + crate::bytes::be2(dst_port) + crate::bytes::be2(
        ((8 + payload.len()) % 65536) as u16,
    ) + crate::bytes::be2(sum) + payload
}

/// The UDP datagram that goes on the wire, its checksum over the pseudo
/// header (addresses, protocol, length) and the datagram.
pub open spec fn udp_wire(src_ip: u32, dst_ip: u32, src_port: u16, dst_port: u16, payload: Seq<u8>) -> Seq<u8> {
    udp_datagram(
        src_port,
        dst_port,
        inet_checksum(
            pseudo_sum(src_ip, dst_ip, PROTO_UDP, 8 + payload.len()),
            udp_datagram(src_port, dst_port, 0, payload),
        ),
        payload,
    )
}

/// Build a UDP datagram into `buf` (after the IPv4 header). The checksum
/// covers the classic pseudo header so the peer can verify it end to end.
/// Returns bytes written (8 + payload.len()).
pub fn udp_put(
    buf: &mut [u8],
    src_ip: u32,
    dst_ip: u32,
    src_port: u16,
    dst_port: u16,
    payload: &[u8],
) -> (n: usize)
    requires
        old(buf)@.len() >= UDP_HDR + payload@.len(),
        word_sum(udp_datagram(src_port, dst_port, 0, payload@)) + 5 * 65535 + 255 <= u32::MAX,
    ensures
        n == UDP_HDR + payload@.len(),
        final(buf)@ == crate::bytes::overlay(
            old(buf)@,
            0,
            udp_wire(src_ip, dst_ip, src_port, dst_port, payload@),
        ),
{
    let _total: usize = buf.len();
    let n: usize = UDP_HDR + payload.len();
    let ghost zeroed = udp_datagram(src_port, dst_port, 0, payload@);
    put_be2(buf, 0, src_port);
    put_be2(buf, 2, dst_port);
    put_be2(buf, 4, (n % 65536) as u16);
    put_be2(buf, 6, 0);
    put_bytes(buf, UDP_HDR, payload);
    assert(buf@ =~= crate::bytes::overlay(old(buf)@, 0, zeroed));
    let base: u32 = pseudo(src_ip, dst_ip, PROTO_UDP, n);
    let whole: &[u8] = slice_subrange(buf, 0, n);
    assert(whole@ =~= zeroed);
    let sum: u32 = sum_words(base, whole);
    put_be2(buf, 6, 65535 - fold(sum));
    assert(buf@ =~= crate::bytes::overlay(
        old(buf)@,
        0,
        udp_wire(src_ip, dst_ip, src_port, dst_port, payload@),
    ));
    n
}

pub struct UdpHdr<'a> {
    pub src_port: u16,
    pub dst_port: u16,
    pub payload: &'a [u8],
}

/// The payload of a UDP datagram: the announced length, cut to the bytes
/// that are there.
pub open spec fn udp_payload(p: Seq<u8>) -> Seq<u8> {
    let want = crate::bytes::rd_be2(p, 4) - 8;
    let have = p.len() - 8;
    p.subrange(8, 8 + if want < have { want } else { have })
}

/// The bytes of a UDP datagram: as many as it announces, cut to those that
/// are there.
pub open spec fn udp_bytes(p: Seq<u8>) -> Seq<u8> {
    let want = crate::bytes::rd_be2(p, 4);
    if want < p.len() {
        p.take(want as int)
    } else {
        p
    }
}

/// Whether the checksum of a UDP datagram between these addresses verifies. A
/// zero says that it is not used.
pub open spec fn udp_sum_ok(src_ip: u32, dst_ip: u32, p: Seq<u8>) -> bool {
    crate::bytes::rd_be2(p, 6) == 0 || fold16(
        pseudo_sum(src_ip, dst_ip, PROTO_UDP, crate::bytes::rd_be2(p, 4) as nat) + word_sum(udp_bytes(p)),
    ) == 65535
}

/// Verify a UDP checksum; a zero checksum ("not used") is accepted.
pub fn udp_checksum_ok(src_ip: u32, dst_ip: u32, p: &[u8]) -> (r: bool)
    requires
        UDP_HDR <= p@.len() <= 65535,
    ensures
        r == udp_sum_ok(src_ip, dst_ip, p@),
{
    if get_be2(p, 6) == 0 {
        return true;
    }
    let want: usize = get_be2(p, 4) as usize;
    let n: usize = if want < p.len() { want } else { p.len() };
    let base: u32 = pseudo(src_ip, dst_ip, PROTO_UDP, want);
    let whole: &[u8] = slice_subrange(p, 0, n);
    assert(whole@ =~= udp_bytes(p@));
    proof {
        lemma_word_sum_bound(whole@);
    }
    let sum: u32 = sum_words(base, whole);
    fold(sum) == 0xFFFF
}

/// Parse a UDP header + payload. The length field is trusted only within
/// the bounds of the actual bytes.
pub fn udp_parse(p: &[u8]) -> (r: Option<UdpHdr<'_>>)
    ensures
        r is Some <==> p@.len() >= 8 && crate::bytes::rd_be2(p@, 4) >= 8,
        r matches Some(h) ==> {
            &&& h.src_port == crate::bytes::rd_be2(p@, 0)
            &&& h.dst_port == crate::bytes::rd_be2(p@, 2)
            &&& h.payload@ == udp_payload(p@)
        },
{
    if p.len() < UDP_HDR {
        return None;
    }
    let dgram_len: usize = get_be2(p, 4) as usize;
    if dgram_len < UDP_HDR {
        return None;
    }
    let want: usize = dgram_len - UDP_HDR;
    let have: usize = p.len() - UDP_HDR;
    let payload_len: usize = if want < have { want } else { have };
    Some(
        UdpHdr {
            src_port: get_be2(p, 0),
            dst_port: get_be2(p, 2),
            payload: slice_subrange(p, UDP_HDR, UDP_HDR + payload_len),
        },
    )
}

// ---------------------------------------------------------------------------
// ICMP echo
// ---------------------------------------------------------------------------
/// An ICMP echo message with the given checksum field.
pub open spec fn icmp_echo(kind: u8, sum: u16, id: u16, seq: u16, payload: Seq<u8>) -> Seq<u8> {
    seq![kind, 0u8] + crate::bytes::be2(sum) + crate::bytes::be2(id) + crate::bytes::be2(seq) + payload
}

/// The ICMP echo message that goes on the wire.
pub open spec fn icmp_wire(kind: u8, id: u16, seq: u16, payload: Seq<u8>) -> Seq<u8> {
    icmp_echo(kind, inet_checksum(0, icmp_echo(kind, 0, id, seq, payload)), id, seq, payload)
}

/// Build an ICMP echo (request or reply) after the IPv4 header.
/// Returns bytes written (8 + payload.len()).
pub fn icmp_echo_put(buf: &mut [u8], kind: u8, id: u16, seq: u16, payload: &[u8]) -> (n: usize)
    requires
        old(buf)@.len() >= ICMP_HDR + payload@.len(),
        word_sum(icmp_echo(kind, 0, id, seq, payload@)) <= u32::MAX,
    ensures
        n == ICMP_HDR + payload@.len(),
        final(buf)@ == crate::bytes::overlay(old(buf)@, 0, icmp_wire(kind, id, seq, payload@)),
{
    let _total: usize = buf.len();
    let n: usize = ICMP_HDR + payload.len();
    let ghost zeroed = icmp_echo(kind, 0, id, seq, payload@);
    buf[0] = kind;
    buf[1] = 0;
    put_be2(buf, 2, 0);
    put_be2(buf, 4, id);
    put_be2(buf, 6, seq);
    put_bytes(buf, ICMP_HDR, payload);
    assert(buf@ =~= crate::bytes::overlay(old(buf)@, 0, zeroed));
    let whole: &[u8] = slice_subrange(buf, 0, n);
    assert(whole@ =~= zeroed);
    let sum: u16 = checksum(whole);
    put_be2(buf, 2, sum);
    assert(buf@ =~= crate::bytes::overlay(old(buf)@, 0, icmp_wire(kind, id, seq, payload@)));
    n
}

pub struct IcmpEcho {
    pub kind: u8,
    pub id: u16,
    pub seq: u16,
    pub payload: [u8; 32],
    pub payload_len: usize,
}

/// Whether `p` is an ICMP echo request or reply whose checksum verifies.
pub open spec fn icmp_echo_ok(p: Seq<u8>) -> bool {
    &&& p.len() >= 8
    &&& (p[0] == ICMP_ECHO_REQUEST || p[0] == ICMP_ECHO_REPLY)
    &&& inet_checksum(0, p) == 0
}

/// Parse an ICMP echo request/reply (the only ICMP kinds we care about). At
/// most 32 payload bytes are kept.
pub fn icmp_echo_parse(p: &[u8]) -> (r: Option<IcmpEcho>)
    requires
        word_sum(p@) <= u32::MAX,
    ensures
        r is Some <==> icmp_echo_ok(p@),
        r matches Some(e) ==> {
            &&& e.kind == p@[0]
            &&& e.id == crate::bytes::rd_be2(p@, 4)
            &&& e.seq == crate::bytes::rd_be2(p@, 6)
            &&& e.payload_len == if p@.len() - 8 < 32 {
                p@.len() - 8
            } else {
                32
            }
            &&& forall|i: int|
                0 <= i < 32 ==> #[trigger] e.payload@[i] == if i < e.payload_len {
                    p@[8 + i]
                } else {
                    0u8
                }
        },
{
    if p.len() < ICMP_HDR {
        return None;
    }
    let kind: u8 = p[0];
    if kind != ICMP_ECHO_REQUEST && kind != ICMP_ECHO_REPLY {
        return None;
    }
    if checksum(p) != 0 {
        return None;
    }
    let have: usize = p.len() - ICMP_HDR;
    let plen: usize = if have < 32 { have } else { 32 };
    let mut payload: [u8; 32] = [0u8; 32];
    let mut i: usize = 0;
    while i < plen
        invariant
            i <= plen <= 32,
            plen + 8 <= p@.len(),
            forall|j: int| 0 <= j < 32 ==> #[trigger] payload@[j] == if j < i { p@[8 + j] } else { 0u8 },
        decreases plen - i,
    {
        payload[i] = p[ICMP_HDR + i];
        i = i + 1;
    }
    Some(IcmpEcho { kind, id: get_be2(p, 4), seq: get_be2(p, 6), payload, payload_len: plen })
}

// ---------------------------------------------------------------------------
// TCP
// ---------------------------------------------------------------------------
/// A 20-byte TCP header without options, with the given checksum field.
pub open spec fn tcp_header(
    src_port: u16,
    dst_port: u16,
    seq: u32,
    ack: u32,
    flags: u8,
    window: u16,
    sum: u16,
) -> Seq<u8> {
    crate::bytes::be2(src_port) + crate::bytes::be2(dst_port) + crate::bytes::be4(seq) + crate::bytes::be4(ack)
        + seq![0x50u8, flags] + crate::bytes::be2(window) + crate::bytes::be2(sum) + seq![0u8, 0]
}

/// A TCP segment without options, with the given checksum field.
pub open spec fn tcp_segment(
    src_port: u16,
    dst_port: u16,
    seq: u32,
    ack: u32,
    flags: u8,
    window: u16,
    sum: u16,
    payload: Seq<u8>,
) -> Seq<u8> {
    tcp_header(src_port, dst_port, seq, ack, flags, window, sum) + payload
}

proof fn lemma_tcp_header(src_port: u16, dst_port: u16, seq: u32, ack: u32, flags: u8, window: u16, sum: u16)
    ensures
        ({
            let h = tcp_header(src_port, dst_port, seq, ack, flags, window, sum);
            &&& h.len() == 20
            &&& crate::bytes::rd_be2(h, 0) == src_port
            &&& crate::bytes::rd_be2(h, 2) == dst_port
            &&& crate::bytes::rd_be4(h, 4) == seq
            &&& crate::bytes::rd_be4(h, 8) == ack
            &&& h[12] == 0x50
            &&& h[13] == flags
            &&& crate::bytes::rd_be2(h, 14) == window
            &&& h[16] == crate::bytes::be2(sum)[0]
            &&& h[17] == crate::bytes::be2(sum)[1]
            &&& h == crate::bytes::overlay(
                tcp_header(src_port, dst_port, seq, ack, flags, window, 0),
                16,
                crate::bytes::be2(sum),
            )
        }),
{
    let h = tcp_header(src_port, dst_port, seq, ack, flags, window, sum);
    assert(h.subrange(0, 2) =~= crate::bytes::be2(src_port));
    assert(h.subrange(2, 4) =~= crate::bytes::be2(dst_port));
    assert(h.subrange(4, 8) =~= crate::bytes::be4(seq));
    assert(h.subrange(8, 12) =~= crate::bytes::be4(ack));
    assert(h.subrange(14, 16) =~= crate::bytes::be2(window));
    crate::bytes::lemma_rd_be2_at(h, 0, src_port);
    crate::bytes::lemma_rd_be2_at(h, 2, dst_port);
    crate::bytes::lemma_rd_be4_at(h, 4, seq);
    crate::bytes::lemma_rd_be4_at(h, 8, ack);
    crate::bytes::lemma_rd_be2_at(h, 14, window);
    assert(h =~= crate::bytes::overlay(
        tcp_header(src_port, dst_port, seq, ack, flags, window, 0),
        16,
        crate::bytes::be2(sum),
    ));
}

/// The TCP segment that goes on the wire, its checksum over the pseudo header
/// and the segment.
pub open spec fn tcp_wire(
    src_ip: u32,
    dst_ip: u32,
    src_port: u16,
    dst_port: u16,
    seq: u32,
    ack: u32,
    flags: u8,
    window: u16,
    payload: Seq<u8>,
) -> Seq<u8> {
    tcp_segment(
        src_port,
        dst_port,
        seq,
        ack,
        flags,
        window,
        inet_checksum(
            pseudo_sum(src_ip, dst_ip, PROTO_TCP, 20 + payload.len()),
            tcp_segment(src_port, dst_port, seq, ack, flags, window, 0, payload),
        ),
        payload,
    )
}

/// Build a TCP segment into `buf` (after the IPv4 header) with the classic
/// pseudo-header checksum. Returns bytes written (header + payload).
pub fn tcp_put(
    buf: &mut [u8],
    src_ip: u32,
    dst_ip: u32,
    src_port: u16,
    dst_port: u16,
    seq: u32,
    ack: u32,
    flags: u8,
    window: u16,
    payload: &[u8],
) -> (n: usize)
    requires
        old(buf)@.len() >= TCP_HDR_MIN + payload@.len(),
        word_sum(tcp_segment(src_port, dst_port, seq, ack, flags, window, 0, payload@)) + 5 * 65535 + 255
            <= u32::MAX,
    ensures
        n == TCP_HDR_MIN + payload@.len(),
        final(buf)@ == crate::bytes::overlay(
            old(buf)@,
            0,
            tcp_wire(src_ip, dst_ip, src_port, dst_port, seq, ack, flags, window, payload@),
        ),
{
    let _total: usize = buf.len();
    let n: usize = TCP_HDR_MIN + payload.len();
    let ghost zeroed = tcp_segment(src_port, dst_port, seq, ack, flags, window, 0, payload@);
    put_be2(buf, 0, src_port);
    put_be2(buf, 2, dst_port);
    put_be4(buf, 4, seq);
    put_be4(buf, 8, ack);
    buf[12] = 0x50;
    buf[13] = flags;
    put_be2(buf, 14, window);
    put_be2(buf, 16, 0);
    put_be2(buf, 18, 0);
    put_bytes(buf, TCP_HDR_MIN, payload);
    assert(buf@ =~= crate::bytes::overlay(old(buf)@, 0, zeroed));
    let base: u32 = pseudo(src_ip, dst_ip, PROTO_TCP, n);
    let whole: &[u8] = slice_subrange(buf, 0, n);
    assert(whole@ =~= zeroed);
    let sum: u32 = sum_words(base, whole);
    put_be2(buf, 16, 65535 - fold(sum));
    assert(buf@ =~= crate::bytes::overlay(
        old(buf)@,
        0,
        tcp_wire(src_ip, dst_ip, src_port, dst_port, seq, ack, flags, window, payload@),
    ));
    n
}

/// Whether the checksum of a TCP segment between these addresses verifies.
pub open spec fn tcp_sum_ok(src_ip: u32, dst_ip: u32, p: Seq<u8>) -> bool {
    fold16(pseudo_sum(src_ip, dst_ip, PROTO_TCP, p.len()) + word_sum(p)) == 65535
}

/// Verify a TCP segment checksum (the pseudo header carries src/dst ip,
/// so the segment bytes alone are not enough).
pub fn tcp_checksum_ok(src_ip: u32, dst_ip: u32, p: &[u8]) -> (r: bool)
    requires
        word_sum(p@) + 5 * 65535 + 255 <= u32::MAX,
    ensures
        r == tcp_sum_ok(src_ip, dst_ip, p@),
{
    let base: u32 = pseudo(src_ip, dst_ip, PROTO_TCP, p.len());
    let sum: u32 = sum_words(base, p);
    fold(sum) == 0xFFFF
}

pub struct TcpSeg<'a> {
    pub src_port: u16,
    pub dst_port: u16,
    pub seq: u32,
    pub ack: u32,
    pub flags: u8,
    pub window: u16,
    pub payload: &'a [u8],
}

#[verifier::ext_equal]
pub struct TcpSegV {
    pub src_port: u16,
    pub dst_port: u16,
    pub seq: u32,
    pub ack: u32,
    pub flags: u8,
    pub window: u16,
    pub payload: Seq<u8>,
}

impl<'a> TcpSeg<'a> {
    pub open spec fn view(&self) -> TcpSegV {
        TcpSegV {
            src_port: self.src_port,
            dst_port: self.dst_port,
            seq: self.seq,
            ack: self.ack,
            flags: self.flags,
            window: self.window,
            payload: self.payload@,
        }
    }
}

/// The header length that a TCP segment announces.
pub open spec fn tcp_doff(p: Seq<u8>) -> int {
    (p[12] / 16) * 4
}

/// Whether `p` holds a whole TCP header.
pub open spec fn tcp_parse_ok(p: Seq<u8>) -> bool {
    p.len() >= 20 && tcp_doff(p) >= 20 && p.len() >= tcp_doff(p)
}

/// The segment that the bytes hold, if they hold a whole header. Options are
/// skipped: the payload is everything behind the announced header.
pub open spec fn tcp_parsed(p: Seq<u8>) -> Option<TcpSegV> {
    if !tcp_parse_ok(p) {
        None
    } else {
        Some(
            TcpSegV {
                src_port: crate::bytes::rd_be2(p, 0),
                dst_port: crate::bytes::rd_be2(p, 2),
                seq: crate::bytes::rd_be4(p, 4),
                ack: crate::bytes::rd_be4(p, 8),
                flags: p[13],
                window: crate::bytes::rd_be2(p, 14),
                payload: p.subrange(tcp_doff(p), p.len() as int),
            },
        )
    }
}

/// Parse a TCP segment. The payload is everything behind the header (the IPv4
/// layer already clamped to the IP total length).
pub fn tcp_parse(p: &[u8]) -> (r: Option<TcpSeg<'_>>)
    ensures
        match (r, tcp_parsed(p@)) {
            (Some(t), Some(v)) => t@ == v,
            (None, None) => true,
            _ => false,
        },
{
    if p.len() < TCP_HDR_MIN {
        return None;
    }
    let doff: usize = (p[12] / 16) as usize * 4;
    if doff < TCP_HDR_MIN || p.len() < doff {
        return None;
    }
    Some(
        TcpSeg {
            src_port: get_be2(p, 0),
            dst_port: get_be2(p, 2),
            seq: get_be4(p, 4),
            ack: get_be4(p, 8),
            flags: p[13],
            window: get_be2(p, 14),
            payload: slice_subrange(p, doff, p.len()),
        },
    )
}

// ---------------------------------------------------------------------------
// Laws: what is written is what is read back
// ---------------------------------------------------------------------------
/// A written Ethernet frame parses back to its addresses, type and payload.
pub proof fn law_eth_round_trip(dst: Seq<u8>, src: Seq<u8>, etype: u16, payload: Seq<u8>)
    requires
        dst.len() == 6,
        src.len() == 6,
    ensures
        ({
            let f = eth_header(dst, src, etype) + payload;
            &&& f.len() >= ETH_HDR
            &&& f.subrange(0, 6) == dst
            &&& f.subrange(6, 12) == src
            &&& crate::bytes::rd_be2(f, 12) == etype
            &&& f.subrange(14, f.len() as int) == payload
        }),
{
    let f = eth_header(dst, src, etype) + payload;
    assert(f.subrange(0, 6) =~= dst);
    assert(f.subrange(6, 12) =~= src);
    assert(f.subrange(14, f.len() as int) =~= payload);
}

/// A written ARP packet parses back to its fields.
pub proof fn law_arp_round_trip(oper: u16, sha: Seq<u8>, spa: u32, tha: Seq<u8>, tpa: u32)
    requires
        sha.len() == 6,
        tha.len() == 6,
    ensures
        ({
            let p = arp_packet(oper, sha, spa, tha, tpa);
            &&& p.len() == ARP_PKT
            &&& crate::bytes::rd_be2(p, 6) == oper
            &&& p.subrange(8, 14) == sha
            &&& crate::bytes::rd_be4(p, 14) == spa
            &&& p.subrange(18, 24) == tha
            &&& crate::bytes::rd_be4(p, 24) == tpa
        }),
{
    let p = arp_packet(oper, sha, spa, tha, tpa);
    assert(p.subrange(6, 8) =~= crate::bytes::be2(oper));
    assert(p.subrange(8, 14) =~= sha);
    assert(p.subrange(14, 18) =~= crate::bytes::be4(spa));
    assert(p.subrange(18, 24) =~= tha);
    assert(p.subrange(24, 28) =~= crate::bytes::be4(tpa));
    crate::bytes::lemma_rd_be2_at(p, 6, oper);
    crate::bytes::lemma_rd_be4_at(p, 14, spa);
    crate::bytes::lemma_rd_be4_at(p, 24, tpa);
}

/// A written IPv4 header verifies and parses back to its fields, and the
/// payload behind it comes out whole when it fits the 16-bit total length.
pub proof fn law_ipv4_round_trip(id: u16, proto: u8, src: u32, dst: u32, payload: Seq<u8>)
    requires
        payload.len() + 20 <= 65535,
    ensures
        ({
            let p = ipv4_wire_header(id, proto, src, dst, payload.len()) + payload;
            &&& ipv4_ok(p)
            &&& ipv4_ihl(p) == 20
            &&& p[9] == proto
            &&& p[8] == 64
            &&& crate::bytes::rd_be4(p, 12) == src
            &&& crate::bytes::rd_be4(p, 16) == dst
            &&& ipv4_payload(p) == payload
        }),
{
    let total = ((20 + payload.len()) % 65536) as u16;
    let zeroed = ipv4_header(total, id, proto, 0, src, dst);
    let wire = ipv4_wire_header(id, proto, src, dst, payload.len());
    let p = wire + payload;
    assert(wire =~= crate::bytes::overlay(zeroed, 10, crate::bytes::be2(inet_checksum(0, zeroed))));
    lemma_checksum_verifies(0, zeroed, 10, wire);
    assert(p.subrange(0, 20) =~= wire);
    assert(p.subrange(2, 4) =~= crate::bytes::be2(total));
    assert(p.subrange(12, 16) =~= crate::bytes::be4(src));
    assert(p.subrange(16, 20) =~= crate::bytes::be4(dst));
    crate::bytes::lemma_rd_be2_at(p, 2, total);
    crate::bytes::lemma_rd_be4_at(p, 12, src);
    crate::bytes::lemma_rd_be4_at(p, 16, dst);
    assert(ipv4_payload(p) =~= payload);
}

/// A written UDP datagram verifies, and parses back to its ports and payload,
/// when its length fits the 16-bit length field.
pub proof fn law_udp_round_trip(src_ip: u32, dst_ip: u32, src_port: u16, dst_port: u16, payload: Seq<u8>)
    requires
        payload.len() + 8 <= 65535,
    ensures
        ({
            let p = udp_wire(src_ip, dst_ip, src_port, dst_port, payload);
            &&& p.len() >= 8
            &&& crate::bytes::rd_be2(p, 4) >= 8
            &&& crate::bytes::rd_be2(p, 0) == src_port
            &&& crate::bytes::rd_be2(p, 2) == dst_port
            &&& udp_payload(p) == payload
            &&& udp_sum_ok(src_ip, dst_ip, p)
        }),
{
    let base = pseudo_sum(src_ip, dst_ip, PROTO_UDP, 8 + payload.len());
    let zeroed = udp_datagram(src_port, dst_port, 0, payload);
    let p = udp_wire(src_ip, dst_ip, src_port, dst_port, payload);
    assert(p =~= crate::bytes::overlay(zeroed, 6, crate::bytes::be2(inet_checksum(base, zeroed))));
    lemma_checksum_verifies(base, zeroed, 6, p);
    assert(p.subrange(0, 2) =~= crate::bytes::be2(src_port));
    assert(p.subrange(2, 4) =~= crate::bytes::be2(dst_port));
    assert(p.subrange(4, 6) =~= crate::bytes::be2((8 + payload.len()) as u16));
    crate::bytes::lemma_rd_be2_at(p, 0, src_port);
    crate::bytes::lemma_rd_be2_at(p, 2, dst_port);
    crate::bytes::lemma_rd_be2_at(p, 4, (8 + payload.len()) as u16);
    assert(udp_payload(p) =~= payload);
    assert(udp_bytes(p) =~= p);
}

/// A written ICMP echo message verifies and parses back to its fields; up to
/// 32 payload bytes come back.
pub proof fn law_icmp_round_trip(kind: u8, id: u16, seq: u16, payload: Seq<u8>)
    requires
        kind == ICMP_ECHO_REQUEST || kind == ICMP_ECHO_REPLY,
    ensures
        ({
            let p = icmp_wire(kind, id, seq, payload);
            &&& icmp_echo_ok(p)
            &&& p[0] == kind
            &&& crate::bytes::rd_be2(p, 4) == id
            &&& crate::bytes::rd_be2(p, 6) == seq
            &&& p.skip(8) == payload
        }),
{
    let zeroed = icmp_echo(kind, 0, id, seq, payload);
    let p = icmp_wire(kind, id, seq, payload);
    assert(p =~= crate::bytes::overlay(zeroed, 2, crate::bytes::be2(inet_checksum(0, zeroed))));
    lemma_checksum_verifies(0, zeroed, 2, p);
    assert(p.subrange(4, 6) =~= crate::bytes::be2(id));
    assert(p.subrange(6, 8) =~= crate::bytes::be2(seq));
    crate::bytes::lemma_rd_be2_at(p, 4, id);
    crate::bytes::lemma_rd_be2_at(p, 6, seq);
    assert(p.skip(8) =~= payload);
}

/// Whatever the bytes are, a TCP segment is refused exactly when they are
/// shorter than the least header or than the header that they announce, or
/// when that is shorter than the least; otherwise the payload is what follows
/// the announced header, behind any options.
pub proof fn law_tcp_parse_skips_options(p: Seq<u8>)
    ensures
        p.len() < 20 ==> tcp_parsed(p) is None,
        p.len() >= 20 ==> {
            let doff = (p[12] >> 4) * 4;
            &&& tcp_parsed(p) is None <==> doff < 20 || p.len() < doff
            &&& tcp_parsed(p) matches Some(s) ==> s.payload == p.subrange(doff, p.len() as int)
        },
{
    if p.len() >= 20 {
        let x = p[12];
        assert(x >> 4 == x / 16) by (bit_vector);
    }
}

/// A TCP segment that was put into a buffer passes the receiver's checksum
/// between the same addresses and parses back to its fields and payload.
pub proof fn law_tcp_round_trip(
    src_ip: u32,
    dst_ip: u32,
    src_port: u16,
    dst_port: u16,
    seq: u32,
    ack: u32,
    flags: u8,
    window: u16,
    payload: Seq<u8>,
    buf: Seq<u8>,
)
    requires
        buf.len() >= TCP_HDR_MIN + payload.len(),
    ensures
        ({
            let w = tcp_wire(src_ip, dst_ip, src_port, dst_port, seq, ack, flags, window, payload);
            let p = crate::bytes::overlay(buf, 0, w).take(TCP_HDR_MIN + payload.len());
            &&& tcp_sum_ok(src_ip, dst_ip, p)
            &&& tcp_parsed(p) == Some(TcpSegV { src_port, dst_port, seq, ack, flags, window, payload })
        }),
{
    let base = pseudo_sum(src_ip, dst_ip, PROTO_TCP, 20 + payload.len());
    let zeroed = tcp_segment(src_port, dst_port, seq, ack, flags, window, 0, payload);
    let sum = inet_checksum(base, zeroed);
    let h = tcp_header(src_port, dst_port, seq, ack, flags, window, sum);
    let h0 = tcp_header(src_port, dst_port, seq, ack, flags, window, 0);
    let p = h + payload;
    lemma_tcp_header(src_port, dst_port, seq, ack, flags, window, sum);
    lemma_tcp_header(src_port, dst_port, seq, ack, flags, window, 0);
    assert(forall|i: int| 0 <= i < 20 ==> p[i] == h[i]);
    assert(p =~= crate::bytes::overlay(zeroed, 16, crate::bytes::be2(sum)));
    assert(zeroed[16] == h0[16] && zeroed[17] == h0[17]);
    lemma_checksum_verifies(base, zeroed, 16, p);
    assert(tcp_doff(p) == 20);
    assert(p.subrange(20, p.len() as int) =~= payload);
    assert(crate::bytes::overlay(buf, 0, p).take(TCP_HDR_MIN + payload.len()) =~= p);
}

} // verus!
