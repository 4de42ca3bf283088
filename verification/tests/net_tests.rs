use glm_os::ipc;
use glm_os::net::e1000;
use glm_os::net::netd::{self, NetOut, NetState, Ping, PingDo, Resolve};
use glm_os::net::pci::{self, SlotHeader};
use glm_os::net::proto;
use glm_os::net::sock::{self, RecvFrom, SendTo, SockTable};
use glm_os::net::tcp::{self, RecvStep, St, Step, TcpTable};
use glm_os::net::{ip_str, GW_IP, OUR_IP};

const MAC: [u8; 6] = [0x52, 0x54, 0, 0x12, 0x34, 0x56];
const PEER: [u8; 6] = [2, 4, 6, 8, 10, 12];

#[test]
fn checksum_of_known_bytes() {
    assert_eq!(proto::checksum(&[0x00, 0x01, 0xf2, 0x03, 0xf4, 0xf5, 0xf6, 0xf7]), 0x220d);
    assert_eq!(proto::checksum(&[1]), 0xfeff);
    assert_eq!(proto::checksum(&[]), 0xffff);
}

#[test]
fn eth_round_trip() {
    let mut buf = [0u8; 60];
    assert_eq!(proto::eth_put(&mut buf, &PEER, &MAC, proto::ETHERTYPE_IPV4), 14);
    buf[14] = 9;
    let f = proto::eth_parse(&buf).unwrap();
    assert_eq!(f.dst, PEER);
    assert_eq!(f.src, MAC);
    assert_eq!(f.ethertype, 0x0800);
    assert_eq!(f.payload[0], 9);
    assert!(proto::eth_parse(&buf[..13]).is_none());
}

#[test]
fn arp_round_trip() {
    let mut buf = [0u8; 28];
    assert_eq!(proto::arp_put(&mut buf, proto::ARP_REQUEST, &MAC, OUR_IP, &[0; 6], GW_IP), 28);
    let a = proto::arp_parse(&buf).unwrap();
    assert_eq!(a.oper, 1);
    assert_eq!(a.sha, MAC);
    assert_eq!(a.spa, OUR_IP);
    assert_eq!(a.tpa, GW_IP);
    assert!(proto::arp_parse(&buf[..27]).is_none());
}

#[test]
fn ipv4_and_udp_round_trip() {
    let mut buf = [0u8; 64];
    let n = proto::udp_put(&mut buf[20..], OUR_IP, GW_IP, 5000, 53, b"hello");
    assert_eq!(n, 13);
    assert_eq!(proto::ipv4_put(&mut buf, 7, proto::PROTO_UDP, OUR_IP, GW_IP, n), 20);
    assert_eq!(proto::checksum(&buf[..20]), 0);
    let h = proto::ipv4_parse(&buf[..33]).unwrap();
    assert_eq!((h.ihl, h.proto, h.src, h.dst), (20, 17, OUR_IP, GW_IP));
    let u = proto::udp_parse(h.payload).unwrap();
    assert_eq!((u.src_port, u.dst_port), (5000, 53));
    assert_eq!(u.payload, b"hello");
    assert!(proto::ipv4_parse(&buf[..10]).is_none());
}

#[test]
fn icmp_round_trip() {
    let mut buf = [0u8; 64];
    let n = proto::icmp_echo_put(&mut buf, proto::ICMP_ECHO_REQUEST, 0x474C, 3, &[7; 32]);
    assert_eq!(n, 40);
    assert_eq!(proto::checksum(&buf[..n]), 0);
    let e = proto::icmp_echo_parse(&buf[..n]).unwrap();
    assert_eq!((e.kind, e.id, e.seq, e.payload_len), (8, 0x474C, 3, 32));
}

#[test]
fn tcp_round_trip() {
    let mut buf = [0u8; 64];
    let n = proto::tcp_put(&mut buf, GW_IP, OUR_IP, 80, 5000, 1000, 2000, proto::TCP_ACK | proto::TCP_PSH, 8192, b"ab");
    assert_eq!(n, 22);
    assert!(proto::tcp_checksum_ok(GW_IP, OUR_IP, &buf[..n]));
    let s = proto::tcp_parse(&buf[..n]).unwrap();
    assert_eq!((s.src_port, s.dst_port, s.seq, s.ack, s.flags, s.window), (80, 5000, 1000, 2000, 0x18, 8192));
    assert_eq!(s.payload, b"ab");
    buf[21] ^= 1;
    assert!(!proto::tcp_checksum_ok(GW_IP, OUR_IP, &buf[..n]));
}

#[test]
fn addresses_as_text() {
    assert_eq!(ip_str(OUR_IP), "10.0.2.15");
    assert_eq!(netd::parse_ip("10.0.2.15"), Some(OUR_IP));
    assert_eq!(netd::parse_ip("10.0.2"), None);
    assert_eq!(netd::parse_ip("10.0.2.256"), None);
    assert_eq!(netd::parse_ip(""), None);
    assert!(proto::is_ours(OUR_IP));
}

#[test]
fn arp_request_is_answered_and_learned() {
    let mut st = NetState::new(MAC);
    let mut f = [0u8; 60];
    proto::eth_put(&mut f, &proto::MAC_BCAST, &PEER, proto::ETHERTYPE_ARP);
    proto::arp_put(&mut f[14..], proto::ARP_REQUEST, &PEER, GW_IP, &[0; 6], OUR_IP);
    match netd::handle_frame(&mut st, &f, 1000) {
        NetOut::Frame(r) => {
            let e = proto::eth_parse(&r).unwrap();
            assert_eq!((e.dst, e.src), (PEER, MAC));
            let a = proto::arp_parse(e.payload).unwrap();
            assert_eq!((a.oper, a.sha, a.spa, a.tha, a.tpa), (2, MAC, OUR_IP, PEER, GW_IP));
        }
        _ => panic!("no answer"),
    }
    match netd::arp_resolve(&st, GW_IP, 0) {
        Resolve::Found(m) => assert_eq!(m, PEER),
        _ => panic!("not learned"),
    }
    assert!(matches!(netd::arp_resolve(&st, 0x0A000203, 0), Resolve::Ask(_)));
}

#[test]
fn udp_sockets() {
    let mut t = SockTable::new();
    assert_eq!(sock::bind(&mut t, 0), -1);
    assert_eq!(sock::bind(&mut t, 7000), 0);
    assert_eq!(sock::bind(&mut t, 7000), -1);
    assert_eq!(sock::bind(&mut t, 7001), 1);
    assert!(matches!(sock::recvfrom(&mut t, 0, 64, 3), RecvFrom::Park));
    assert_eq!(sock::deliver(&mut t, 7000, GW_IP, 99, b"one"), (true, 4));
    assert_eq!(sock::deliver(&mut t, 7000, GW_IP, 99, b"two"), (true, 0));
    assert_eq!(sock::deliver(&mut t, 7002, GW_IP, 99, b"x").0, false);
    match sock::recvfrom(&mut t, 0, 64, 3) {
        RecvFrom::Data(d, _) => assert_eq!((d.src_ip, d.src_port, d.data), (GW_IP, 99, b"one".to_vec())),
        _ => panic!(),
    }
    match sock::recvfrom(&mut t, 0, 2, 3) {
        RecvFrom::Data(d, _) => assert_eq!(d.data, b"tw".to_vec()),
        _ => panic!(),
    }
    // two processes of one machine
    match sock::sendto(&mut t, 1, OUR_IP, 7000, b"local", 5) {
        SendTo::Local { ret, .. } => assert_eq!(ret, 5),
        _ => panic!(),
    }
    match sock::recvfrom(&mut t, 0, 64, 3) {
        RecvFrom::Data(d, _) => assert_eq!((d.src_ip, d.src_port, d.data), (OUR_IP, 7001, b"local".to_vec())),
        _ => panic!(),
    }
    assert!(matches!(sock::sendto(&mut t, 0, GW_IP, 9, b"out", 5), SendTo::Wire { src_port: 7000 }));
    assert_eq!(sock::close(&mut t, 0), 0);
    assert_eq!(sock::close(&mut t, 0), -1);
}

#[test]
fn a_full_queue_parks_the_sender() {
    let mut t = SockTable::new();
    assert_eq!(sock::bind(&mut t, 7000), 0);
    assert_eq!(sock::bind(&mut t, 7001), 1);
    for i in 0..8u8 {
        match sock::sendto(&mut t, 1, OUR_IP, 7000, &[i], 5) {
            SendTo::Local { ret, wake } => assert_eq!((ret, wake), (1, 0)),
            _ => panic!(),
        }
    }
    // the ninth waits, and nothing of the queue changes
    assert!(matches!(sock::sendto(&mut t, 1, OUR_IP, 7000, b"late", 5), SendTo::Park));
    assert_eq!((t.socks[0].count, t.socks[0].waiter, t.socks[0].drop_n), (8, 6, 0));
    // one from the wire is dropped instead
    assert_eq!(sock::deliver(&mut t, 7000, GW_IP, 99, b"wire").0, false);
    assert_eq!((t.socks[0].count, t.socks[0].drop_n), (8, 1));
    // nobody has the port
    assert!(matches!(sock::sendto(&mut t, 1, OUR_IP, 7002, b"x", 5), SendTo::Local { ret: -1, wake: 0 }));
    // the receiver makes room and wakes the sender, which then goes through
    assert!(t.socks[0].waiter == 6);
    match sock::recvfrom(&mut t, 0, 64, 3) {
        RecvFrom::Data(d, wake) => assert_eq!((d.data, wake), (vec![0u8], 6)),
        _ => panic!(),
    }
    assert!(matches!(sock::sendto(&mut t, 1, OUR_IP, 7000, b"late", 5), SendTo::Local { ret: 4, wake: 0 }));
    for i in 1..8u8 {
        match sock::recvfrom(&mut t, 0, 64, 3) {
            RecvFrom::Data(d, wake) => assert_eq!((d.data, wake), (vec![i], 0)),
            _ => panic!(),
        }
    }
    match sock::recvfrom(&mut t, 0, 64, 3) {
        RecvFrom::Data(d, wake) => assert_eq!((d.data, wake), (b"late".to_vec(), 0)),
        _ => panic!(),
    }
}

#[test]
fn the_network_at_boot() {
    let st = NetState::new(MAC);
    assert_eq!((st.tcp.socks.len(), st.tcp.ephemeral, st.tcp.iss_next), (8, 20_000, 0x474C_4D00));
    assert!(st.tcp.socks.iter().all(|s| !s.used));
    assert_eq!(st.udp.socks.len(), 8);
    assert!(st.udp.socks.iter().all(|s| !s.used && s.count == 0));
}

#[test]
fn tcp_options_are_skipped() {
    // a header of 24 bytes: four bytes of options, then the payload
    let mut b = vec![0u8; 24];
    b[0..4].copy_from_slice(&[0x1F, 0x90, 0, 80]);
    b[12] = 0x60;
    b.extend_from_slice(b"data");
    let s = proto::tcp_parse(&b).unwrap();
    assert_eq!((s.src_port, s.dst_port, s.payload), (8080, 80, b"data".as_slice()));
    // too short for any header, for the announced one, or announced too short
    assert!(proto::tcp_parse(&b[..19]).is_none());
    assert!(proto::tcp_parse(&b[..23]).is_none());
    b[12] = 0x40;
    assert!(proto::tcp_parse(&b).is_none());
}

fn seg(sport: u16, dport: u16, seq: u32, ack: u32, flags: u8, data: &[u8]) -> Vec<u8> {
    let mut b = vec![0u8; 20 + data.len()];
    proto::tcp_put(&mut b, GW_IP, OUR_IP, sport, dport, seq, ack, flags, 8192, data);
    b
}

#[test]
fn tcp_passive_open_and_stream() {
    let mut t = TcpTable::new();
    assert_eq!(tcp::listen(&mut t, 0), -1);
    let l = tcp::listen(&mut t, 7777);
    assert_eq!(l, 0);
    assert_eq!(tcp::listen(&mut t, 7777), -1);
    let sa = tcp::ingress(&mut t, GW_IP, &seg(4000, 7777, 100, 0, proto::TCP_SYN, b""), 0).unwrap();
    assert_eq!((sa.flags, sa.ack), (proto::TCP_SYN | proto::TCP_ACK, 101));
    assert!(matches!(tcp::accept(&mut t, 0), Step::Wait));
    tcp::ingress(&mut t, GW_IP, &seg(4000, 7777, 101, sa.seq.wrapping_add(1), proto::TCP_ACK, b""), 0);
    assert!(matches!(tcp::accept(&mut t, 0), Step::Done(1)));
    assert!(matches!(tcp::accept(&mut t, 0), Step::Wait));
    // in order, then out of order
    let a = tcp::ingress(&mut t, GW_IP, &seg(4000, 7777, 101, sa.seq.wrapping_add(1), proto::TCP_ACK, b"abc"), 0).unwrap();
    assert_eq!(a.ack, 104);
    let b = tcp::ingress(&mut t, GW_IP, &seg(4000, 7777, 999, sa.seq.wrapping_add(1), proto::TCP_ACK, b"zzz"), 0).unwrap();
    assert_eq!(b.ack, 104);
    match tcp::recv(&mut t, 1, 100) {
        RecvStep::Data(d) => assert_eq!(d, b"abc".to_vec()),
        _ => panic!(),
    }
    assert!(matches!(tcp::recv(&mut t, 1, 100), RecvStep::Block));
    // sending, and sending again
    let (n, s) = tcp::send(&mut t, 1, b"hello", 1_000_000);
    assert_eq!(n, 5);
    let first = s.unwrap();
    assert!(tcp::tick(&mut t, 1_100_000).is_empty());
    let again = tcp::tick(&mut t, 1_500_001);
    assert_eq!(again.len(), 1);
    assert_eq!((again[0].seq, again[0].payload.clone()), (first.seq, b"hello".to_vec()));
    // the other side ends
    tcp::ingress(&mut t, GW_IP, &seg(4000, 7777, 104, first.seq.wrapping_add(5), proto::TCP_FIN | proto::TCP_ACK, b""), 0);
    assert!(matches!(tcp::recv(&mut t, 1, 100), RecvStep::Ret(0)));
    let rows = tcp::for_each(&t);
    assert_eq!(rows.len(), 2);
    assert!(rows[1].1 == St::CloseWait);
    assert_eq!(rows[1].1.as_str(), "CLOSE-WAIT");
}

#[test]
fn tcp_stray_segments_are_reset() {
    let mut t = TcpTable::new();
    let r = tcp::ingress(&mut t, GW_IP, &seg(1, 2, 3, 4, proto::TCP_ACK, b""), 0).unwrap();
    assert_eq!((r.flags, r.dst_port, r.local_port), (proto::TCP_RST, 1, 2));
    assert!(tcp::ingress(&mut t, GW_IP, &seg(1, 2, 3, 4, proto::TCP_RST, b""), 0).is_none());
    assert!(matches!(tcp::recv(&mut t, 9, 1), RecvStep::Ret(-1)));
    assert_eq!(tcp::send(&mut t, 0, b"x", 0).0, -1);
    assert_eq!(tcp::close(&mut t, 0).0, -1);
}

#[test]
fn tcp_active_open() {
    let mut t = TcpTable::new();
    assert_eq!(tcp::connect(&mut t, OUR_IP, 80, 0).0, -1);
    assert_eq!(tcp::connect(&mut t, GW_IP, 0, 0).0, -1);
    let (id, s) = tcp::connect(&mut t, GW_IP, 80, 0);
    let syn = s.unwrap();
    assert_eq!((id, syn.flags, syn.dst_port), (0, proto::TCP_SYN, 80));
    assert!(matches!(tcp::connect_poll(&mut t, 0, 0, 10), Step::Wait));
    tcp::ingress(
        &mut t,
        GW_IP,
        &seg(80, syn.local_port, 500, syn.seq.wrapping_add(1), proto::TCP_SYN | proto::TCP_ACK, b""),
        10,
    );
    assert!(matches!(tcp::connect_poll(&mut t, 0, 0, 20), Step::Done(0)));
    let (id2, _) = tcp::connect(&mut t, GW_IP, 81, 0);
    assert!(matches!(tcp::connect_poll(&mut t, id2 as usize, 0, 9_000_000), Step::Done(-1)));
}

#[test]
fn segments_become_frames() {
    let mut t = TcpTable::new();
    let syn = tcp::connect(&mut t, GW_IP, 80, 0).1.unwrap();
    assert!(tcp::send_seg(false, Some(PEER), &MAC, 1, &syn).is_none());
    assert!(tcp::send_seg(true, None, &MAC, 1, &syn).is_none());
    let f = tcp::send_seg(true, Some(PEER), &MAC, 1, &syn).unwrap();
    let e = proto::eth_parse(&f).unwrap();
    assert_eq!((e.dst, e.src), (PEER, MAC));
    let h = proto::ipv4_parse(e.payload).unwrap();
    assert_eq!((h.proto, h.dst), (proto::PROTO_TCP, GW_IP));
    assert!(proto::tcp_checksum_ok(OUR_IP, GW_IP, &h.payload[..20]));
}

#[test]
fn udp_frames() {
    let mut st = NetState::new(MAC);
    assert!(netd::udp_send(&mut st, false, Some(PEER), GW_IP, 53, 7000, b"q").is_none());
    let f = netd::udp_send(&mut st, true, Some(PEER), GW_IP, 53, 7000, b"query").unwrap();
    let h = proto::ipv4_parse(proto::eth_parse(&f).unwrap().payload).unwrap();
    let u = proto::udp_parse(h.payload).unwrap();
    assert_eq!((u.src_port, u.dst_port), (7000, 53));
    assert_eq!(&u.payload[..5], b"query");
}

#[test]
fn ping_asks_for_the_gateway() {
    let mut st = NetState::new(MAC);
    let (p, out) = netd::ping_shell(false, "");
    assert!(matches!(p, Ping::Done));
    assert!(!out.is_empty());
    let (p, _) = netd::ping_shell(true, "1.2.3");
    assert!(matches!(p, Ping::Done));
    let (p, _) = netd::ping_shell(true, "");
    match &p {
        Ping::Resolve { target, .. } => assert_eq!(*target, GW_IP),
        _ => panic!(),
    }
    let (_, _, what) = netd::ping_step(p, &mut st, 0);
    assert!(matches!(what, PingDo::Ask(_)));
}

#[test]
fn the_network_card() {
    assert_eq!(e1000::mac(0x1200_5452, 0x5634), [0x52, 0x54, 0x00, 0x12, 0x34, 0x56]);
    assert_eq!(e1000::mac_str(&MAC), "52:54:00:12:34:56");
    assert!(e1000::link_up(2));
    assert!(!e1000::link_up(0));
    let n = e1000::Nic::new();
    assert!(!e1000::online(&n));
    assert_eq!(e1000::counters(&n), (0, 0, 0, 0, 0));
    assert!(e1000::send_frame(&n, b"x", 0, 0x1000).is_none());
}

#[test]
fn the_bus() {
    assert_eq!(pci::cfg_address(0, 3, 0, 0x10), 0x8000_1810);
    let none = SlotHeader { id: 0xFFFF_FFFF, command: 0, bar0: 0, int_line: 0 };
    let nic = SlotHeader { id: 0x100E_8086, command: 0, bar0: 0xFEBC_0000, int_line: 11 };
    assert!(pci::probe(&[none; 32]).is_none());
    let mut slots: Vec<SlotHeader> = Vec::new();
    for i in 0..32 {
        if i == 3 {
            slots.push(nic);
        } else {
            slots.push(none);
        }
    }
    let (d, _) = pci::probe(&slots).unwrap();
    assert_eq!((d.vendor, d.device, d.irq, d.bar0_phys), (0x8086, 0x100E, 11, 0xFEBC_0000));
}

#[test]
fn channels() {
    let mut t = ipc::ChanTable::new();
    assert_eq!(ipc::open(&mut t, 42), 0);
    assert_eq!(ipc::open(&mut t, 42), 0);
    assert_eq!(ipc::open(&mut t, 0), 1);
    // a receiver parks and is woken by the next message
    match ipc::recv(&mut t, 0, 64, 5) {
        ipc::Recv::Ret(o) => assert!(o.park && o.ret == ipc::WOULD_BLOCK),
        _ => panic!(),
    }
    let o = ipc::send(&mut t, 0, b"msg", 1);
    assert_eq!((o.ret, o.wake, o.park), (3, 6, false));
    match ipc::recv(&mut t, 0, 64, 5) {
        ipc::Recv::Data(d) => assert_eq!(d, b"msg".to_vec()),
        _ => panic!(),
    }
    assert_eq!(ipc::send(&mut t, 7, b"x", 1).ret, -1);
    assert_eq!(ipc::send(&mut t, 99, b"x", 1).ret, -1);
    for _ in 0..4 {
        assert_eq!(ipc::send(&mut t, 0, &[0; 64], 1).ret, 64);
    }
    assert!(ipc::send(&mut t, 0, &[0; 64], 1).park);
    let rows = ipc::for_each(&t);
    assert_eq!((rows.len(), rows[0].0, rows[0].1, rows[0].2), (2, 0, 42, 256));
}

/// A table with a stream in the slot `Done` gives, and the numbers of both
/// sides.
fn stream(t: &mut TcpTable) -> (u32, u32) {
    assert_eq!(tcp::listen(t, 7777), 0);
    let sa = tcp::ingress(t, GW_IP, &seg(4000, 7777, 100, 0, proto::TCP_SYN, b""), 0).unwrap();
    let una = sa.seq.wrapping_add(1);
    tcp::ingress(t, GW_IP, &seg(4000, 7777, 101, una, proto::TCP_ACK, b""), 0);
    assert!(matches!(tcp::accept(t, 0), Step::Done(1)));
    (una, 101)
}

#[test]
fn tcp_child_in_the_first_slot_is_accepted() {
    let mut t = TcpTable::new();
    let (id, _) = tcp::connect(&mut t, GW_IP, 80, 0);
    assert_eq!(id, 0);
    assert_eq!(tcp::listen(&mut t, 7777), 1);
    assert!(matches!(tcp::connect_poll(&mut t, 0, 0, 9_000_000), Step::Done(-1)));
    let sa = tcp::ingress(&mut t, GW_IP, &seg(4000, 7777, 100, 0, proto::TCP_SYN, b""), 0).unwrap();
    tcp::ingress(&mut t, GW_IP, &seg(4000, 7777, 101, sa.seq.wrapping_add(1), proto::TCP_ACK, b""), 0);
    assert!(matches!(tcp::accept(&mut t, 1), Step::Done(0)));
    assert!(matches!(tcp::accept(&mut t, 1), Step::Wait));
    let rows = tcp::for_each(&t);
    assert!(rows[0].1 == St::Estab && rows[1].1 == St::Listen);
}

#[test]
fn tcp_sends_what_it_queues() {
    let mut t = TcpTable::new();
    let (una, _) = stream(&mut t);
    let data: Vec<u8> = (0..2000u32).map(|i| (i % 251) as u8).collect();
    let mut queued: u32 = 0;
    // one MSS at most
    for _ in 0..5 {
        let (n, s) = tcp::send(&mut t, 1, &data, 1);
        assert_eq!(n, 1400);
        assert_eq!(s.unwrap().seq, una.wrapping_add(queued));
        queued += 1400;
    }
    let (n, _) = tcp::send(&mut t, 1, &data[..1000], 1);
    assert_eq!(n, 1000);
    // 192 bytes are left
    let (n, s) = tcp::send(&mut t, 1, &data[..1000], 1);
    let s = s.unwrap();
    assert_eq!((n, s.payload.clone()), (192, data[..192].to_vec()));
    assert_eq!(s.seq, una.wrapping_add(8000));
    assert_eq!(tcp::for_each(&t)[1].6, 8192);
    let (n, s) = tcp::send(&mut t, 1, b"x", 1);
    assert!(n == -1 && s.is_none());
}

#[test]
fn tcp_partial_acknowledgements() {
    let mut t = TcpTable::new();
    let (una, rcv) = stream(&mut t);
    let data: Vec<u8> = (0..300u32).map(|i| (i % 251) as u8).collect();
    assert_eq!(tcp::send(&mut t, 1, &data, 1_000_000).0, 300);
    // nothing new, and more than was sent
    for a in [0u32, 301, 0xFFFF_FFFF] {
        tcp::ingress(&mut t, GW_IP, &seg(4000, 7777, rcv, una.wrapping_add(a), proto::TCP_ACK, b""), 1_000_000);
        assert_eq!(tcp::for_each(&t)[1].6, 300);
    }
    tcp::ingress(&mut t, GW_IP, &seg(4000, 7777, rcv, una.wrapping_add(100), proto::TCP_ACK, b""), 1_000_000);
    assert_eq!(tcp::for_each(&t)[1].6, 200);
    let again = tcp::tick(&mut t, 2_000_000);
    assert_eq!(again.len(), 1);
    assert_eq!((again[0].seq, again[0].payload.clone()), (una.wrapping_add(100), data[100..].to_vec()));
    tcp::ingress(&mut t, GW_IP, &seg(4000, 7777, rcv, una.wrapping_add(300), proto::TCP_ACK, b""), 2_000_000);
    assert_eq!(tcp::for_each(&t)[1].6, 0);
    assert!(tcp::tick(&mut t, 9_000_000).is_empty());
}

#[test]
fn tcp_a_fin_counts_in_order_only() {
    let mut t = TcpTable::new();
    let (una, rcv) = stream(&mut t);
    let fin = proto::TCP_FIN | proto::TCP_ACK;
    // ahead of what is missing: dropped, with its payload
    for data in [&b"later"[..], b""] {
        let a = tcp::ingress(&mut t, GW_IP, &seg(4000, 7777, rcv + 5, una, fin, data), 0).unwrap();
        assert_eq!((a.ack, a.flags, a.payload.len()), (rcv, proto::TCP_ACK, 0));
        assert!(tcp::for_each(&t)[1].1 == St::Estab);
        assert!(matches!(tcp::recv(&mut t, 1, 100), RecvStep::Block));
    }
    let a = tcp::ingress(&mut t, GW_IP, &seg(4000, 7777, rcv, una, fin, b"first"), 0).unwrap();
    assert_eq!(a.ack, rcv + 6);
    assert!(tcp::for_each(&t)[1].1 == St::CloseWait);
    // the same FIN again is only acknowledged again
    let a = tcp::ingress(&mut t, GW_IP, &seg(4000, 7777, rcv, una, fin, b"first"), 0).unwrap();
    assert_eq!(a.ack, rcv + 6);
    match tcp::recv(&mut t, 1, 100) {
        RecvStep::Data(d) => assert_eq!(d, b"first".to_vec()),
        _ => panic!(),
    }
    assert!(matches!(tcp::recv(&mut t, 1, 100), RecvStep::Ret(0)));
}

#[test]
fn tcp_a_fin_waits_for_the_bytes_before_it() {
    let mut t = TcpTable::new();
    let (una, rcv) = stream(&mut t);
    let big = vec![7u8; 8190];
    let fin = proto::TCP_FIN | proto::TCP_ACK;
    let a = tcp::ingress(&mut t, GW_IP, &seg(4000, 7777, rcv, una, proto::TCP_ACK, &big), 0).unwrap();
    assert_eq!(a.ack, rcv + 8190);
    let a = tcp::ingress(&mut t, GW_IP, &seg(4000, 7777, rcv + 8190, una, fin, b"tail"), 0).unwrap();
    assert_eq!(a.ack, rcv + 8192);
    assert!(tcp::for_each(&t)[1].1 == St::Estab);
}

fn udp_in(data: &[u8], tweak: impl Fn(&mut [u8])) -> Vec<u8> {
    let n = 8 + data.len();
    let mut f = vec![0u8; 34 + n];
    proto::eth_put(&mut f, &MAC, &PEER, proto::ETHERTYPE_IPV4);
    proto::ipv4_put(&mut f[14..], 1, proto::PROTO_UDP, GW_IP, OUR_IP, n);
    assert_eq!(proto::udp_put(&mut f[34..], GW_IP, OUR_IP, 53, 7000, data), n);
    tweak(&mut f[34..]);
    f
}

#[test]
fn only_intact_datagrams_are_delivered() {
    let mut st = NetState::new(MAC);
    assert_eq!(sock::bind(&mut st.udp, 7000), 0);
    // an intact one, one that lost a bit, and one without a checksum
    let good = udp_in(b"intact", |_| {});
    assert!(proto::udp_checksum_ok(GW_IP, OUR_IP, &good[34..]));
    assert!(matches!(netd::handle_frame(&mut st, &good, 1), NetOut::Wake(_)));
    let bad = udp_in(b"broken", |u| u[8] ^= 1);
    assert!(!proto::udp_checksum_ok(GW_IP, OUR_IP, &bad[34..]));
    assert!(matches!(netd::handle_frame(&mut st, &bad, 2), NetOut::Nothing));
    let bare = udp_in(b"bare", |u| {
        u[6] = 0;
        u[7] = 0;
    });
    assert!(matches!(netd::handle_frame(&mut st, &bare, 3), NetOut::Wake(_)));
    for want in [&b"intact"[..], &b"bare"[..]] {
        match sock::recvfrom(&mut st.udp, 0, 64, 3) {
            RecvFrom::Data(d, _) => assert_eq!(d.data, want.to_vec()),
            _ => panic!(),
        }
    }
    assert!(matches!(sock::recvfrom(&mut st.udp, 0, 64, 3), RecvFrom::Park));
}
