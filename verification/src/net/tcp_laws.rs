//! What a TCP connection promises: it opens from either side, carries bytes
//! in order from one end to the other, and ends when an end is closed.

use vstd::prelude::*;

use crate::net::tcp::{InSeg, RecvV, SegV, SockV, St, Step, TcpV};

verus! {

/// The flag bits of a segment: FIN 1, SYN 2, RST 4, PSH 8, ACK 16.
pub open spec fn fin(flags: u8) -> bool {
    flags % 2 == 1
}

pub open spec fn syn(flags: u8) -> bool {
    (flags / 2) % 2 == 1
}

pub open spec fn rst(flags: u8) -> bool {
    (flags / 4) % 2 == 1
}

pub open spec fn ack(flags: u8) -> bool {
    (flags / 16) % 2 == 1
}

/// The sequence number `n` after `x`.
pub open spec fn after(x: u32, n: int) -> u32 {
    ((x + n) % 0x1_0000_0000) as u32
}

/// A segment as the other end gets it.
pub open spec fn arriving(s: SegV) -> InSeg {
    InSeg {
        src_port: s.local_port,
        dst_port: s.dst_port,
        seq: s.seq,
        ack: s.ack,
        flags: s.flags,
        payload: s.payload,
    }
}

/// Connected with that peer, on that port, or about to be.
pub open spec fn speaks_with(c: SockV, local: u16, ip: u32, port: u16) -> bool {
    &&& c.used
    &&& c.local_port == local
    &&& c.peer_ip == ip
    &&& c.peer_port == port
    &&& c.st != St::Free
    &&& c.st != St::Listen
}

/// The socket that a segment belongs to: the first that is connected with its
/// sender.
pub open spec fn belongs(t: TcpV, src_ip: u32, g: InSeg, i: int) -> bool {
    &&& 0 <= i < 8
    &&& speaks_with(t.socks[i], g.dst_port, src_ip, g.src_port)
    &&& forall|j: int| 0 <= j < i ==> !speaks_with(#[trigger] t.socks[j], g.dst_port, src_ip, g.src_port)
}

proof fn lemma_belongs(t: TcpV, src_ip: u32, g: InSeg, i: int)
    requires
        t.socks.len() == 8,
        belongs(t, src_ip, g, i),
    ensures
        crate::seqs::first(t.socks, crate::net::tcp::in_band(g.dst_port, src_ip, g.src_port)) == Some(i),
{
    let q = crate::net::tcp::in_band(g.dst_port, src_ip, g.src_port);
    assert(q(t.socks[i]));
    assert forall|j: int| 0 <= j < i implies !q(#[trigger] t.socks[j]) by {
        assert(!speaks_with(t.socks[j], g.dst_port, src_ip, g.src_port));
    }
    crate::seqs::lemma_first_is(t.socks, q, 0, i);
}

/// A segment of a connection touches the socket of that connection and no
/// other, unless it completes a connection that came in.
pub proof fn law_segments_reach_their_connection(t: TcpV, src_ip: u32, g: InSeg, now: u64, i: int, j: int)
    requires
        t.inv(),
        belongs(t, src_ip, g, i),
        t.socks[i].st != St::SynRcvd,
        0 <= j < 8,
        j != i,
    ensures
        crate::net::tcp::route_spec(t, src_ip, g, now).0.socks[j] == t.socks[j],
        crate::net::tcp::route_spec(t, src_ip, g, now).1 matches Some(s) ==> s.dst_ip == src_ip && s.dst_port
            == g.src_port && s.local_port == g.dst_port,
{
    lemma_belongs(t, src_ip, g, i);
}

/// Opening a connection: the SYN goes to the peer asked for, from a port
/// between 20000 and 39999, and takes one sequence number; the socket waits
/// for the answer, and no other changes.
pub proof fn law_connect_sends_a_syn(t: TcpV, dst_ip: u32, dst_port: u16, now: u64, i: int)
    requires
        t.inv(),
        dst_port != 0,
        dst_ip != 0x0A00_020F,
        0 <= i < 8,
        !t.socks[i].used,
        forall|j: int| 0 <= j < i ==> (#[trigger] t.socks[j]).used,
    ensures
        ({
            let (t1, id, out) = crate::net::tcp::connect_spec(t, dst_ip, dst_port, now);
            let s = t1.socks[i];
            &&& id == i
            &&& s.used
            &&& s.st == St::SynSent
            &&& s.peer_ip == dst_ip
            &&& s.peer_port == dst_port
            &&& 20000 <= s.local_port < 40000
            &&& s.tx.len() == 0
            &&& s.rx.len() == 0
            &&& s.snd_nxt == after(s.iss, 1)
            &&& s.snd_una == s.iss
            &&& out == Some(
                SegV {
                    dst_ip,
                    dst_port,
                    local_port: s.local_port,
                    seq: s.iss,
                    ack: 0,
                    flags: 2,
                    payload: Seq::empty(),
                },
            )
            &&& forall|j: int| 0 <= j < 8 && j != i ==> #[trigger] t1.socks[j] == t.socks[j]
        }),
{
    let q = crate::net::tcp::is_unused();
    assert(q(t.socks[i]));
    assert forall|j: int| 0 <= j < i implies !q(#[trigger] t.socks[j]) by {
        assert(t.socks[j].used);
    }
    crate::seqs::lemma_first_is(t.socks, q, 0, i);
}

/// The peer's answer opens the connection: a SYN and ACK that acknowledges our
/// SYN is answered by an ACK of the number right after the peer's SYN, which
/// the socket expects next; the waiting `connect` returns the socket. The data
/// that starts at that number is then acknowledged up to its end, and received
/// byte for byte.
pub proof fn law_active_open(
    t: TcpV,
    src_ip: u32,
    g: InSeg,
    d: InSeg,
    i: int,
    now1: u64,
    now2: u64,
    t0: u64,
    len: u64,
)
    requires
        t.inv(),
        belongs(t, src_ip, g, i),
        t.socks[i].st == St::SynSent,
        t.socks[i].rx.len() == 0,
        syn(g.flags),
        ack(g.flags),
        !rst(g.flags),
        g.ack == t.socks[i].snd_nxt,
        d.src_port == g.src_port,
        d.dst_port == g.dst_port,
        d.seq == after(g.seq, 1),
        !rst(d.flags),
        !fin(d.flags),
        0 < d.payload.len() <= 1400,
        len >= d.payload.len(),
    ensures
        ({
            let s = t.socks[i];
            let (t1, out1) = crate::net::tcp::route_spec(t, src_ip, g, now1);
            let (t2, out2) = crate::net::tcp::route_spec(t1, src_ip, d, now2);
            &&& t1.socks[i].st == St::Estab
            &&& t1.socks[i].rcv_nxt == after(g.seq, 1)
            &&& t1.socks[i].snd_una == g.ack
            &&& out1 == Some(
                SegV {
                    dst_ip: src_ip,
                    dst_port: g.src_port,
                    local_port: g.dst_port,
                    seq: g.ack,
                    ack: after(g.seq, 1),
                    flags: 16,
                    payload: Seq::empty(),
                },
            )
            &&& crate::net::tcp::connect_poll_spec(t1, i, t0, now1) == (t1, Step::Done(i as i64))
            &&& out2 matches Some(o) && o.ack == after(d.seq, d.payload.len() as int) && o.flags == 16
            &&& crate::net::tcp::recv_spec(t2, i as u64, len).1 == RecvV::Data(d.payload)
        }),
{
    lemma_belongs(t, src_ip, g, i);
    let (t1, out1) = crate::net::tcp::route_spec(t, src_ip, g, now1);
    assert forall|j: int| 0 <= j < i implies !speaks_with(#[trigger] t1.socks[j], d.dst_port, src_ip, d.src_port) by {
        assert(!speaks_with(t.socks[j], g.dst_port, src_ip, g.src_port));
    }
    lemma_belongs(t1, src_ip, d, i);
    assert(t1.socks[i].inv());
    let (t2, out2) = crate::net::tcp::route_spec(t1, src_ip, d, now2);
    assert(t2.socks[i].rx =~= d.payload);
    assert(d.payload.take(d.payload.len() as int) =~= d.payload);
}

/// An answer that does not acknowledge our SYN opens nothing.
pub proof fn law_wrong_answer_opens_nothing(t: TcpV, src_ip: u32, g: InSeg, i: int, now: u64)
    requires
        t.inv(),
        belongs(t, src_ip, g, i),
        t.socks[i].st == St::SynSent,
        !rst(g.flags),
        !syn(g.flags) || g.ack != t.socks[i].snd_nxt,
    ensures
        crate::net::tcp::route_spec(t, src_ip, g, now) == (t, None::<SegV>),
{
    lemma_belongs(t, src_ip, g, i);
}

/// A reset ends the connection at once and is not answered.
pub proof fn law_reset_ends_the_connection(t: TcpV, src_ip: u32, g: InSeg, i: int, now: u64)
    requires
        t.inv(),
        belongs(t, src_ip, g, i),
        rst(g.flags),
    ensures
        ({
            let (t1, out) = crate::net::tcp::route_spec(t, src_ip, g, now);
            &&& !t1.socks[i].used
            &&& t1.socks[i].st == St::Free
            &&& out is None
            &&& forall|j: int| 0 <= j < 8 && j != i ==> #[trigger] t1.socks[j] == t.socks[j]
        }),
{
    lemma_belongs(t, src_ip, g, i);
}

/// The two ends of one connection, the way from `a` to `b` empty: what `a`
/// sends next is what `b` expects next.
pub open spec fn joined(a: SockV, a_ip: u32, b: SockV, b_ip: u32) -> bool {
    &&& a.used && b.used
    &&& a.st == St::Estab && b.st == St::Estab
    &&& a.peer_ip == b_ip && a.peer_port == b.local_port
    &&& b.peer_ip == a_ip && b.peer_port == a.local_port
    &&& a.tx.len() == 0
    &&& a.snd_nxt == b.rcv_nxt
}

/// A send of up to a segment on a connection with nothing under way.
#[verifier::spinoff_prover]
proof fn lemma_sent(t: TcpV, a: int, data: Seq<u8>, now: u64)
    requires
        t.inv(),
        0 <= a < 8,
        t.socks[a].used,
        t.socks[a].st == St::Estab,
        t.socks[a].tx.len() == 0,
        0 < data.len() <= 1400,
    ensures
        ({
            let s = t.socks[a];
            let (t1, n, seg) = crate::net::tcp::send_spec(t, a as u64, data, now);
            let s1 = t1.socks[a];
            &&& n == data.len()
            &&& seg == Some(
                SegV {
                    dst_ip: s.peer_ip,
                    dst_port: s.peer_port,
                    local_port: s.local_port,
                    seq: s.snd_nxt,
                    ack: 0,
                    flags: 24,
                    payload: data,
                },
            )
            &&& t1.inv()
            &&& s1.tx == data
            &&& s1.snd_nxt == after(s.snd_nxt, data.len() as int)
            &&& s1.snd_una == s.snd_nxt
            &&& s1.used && s1.st == St::Estab
            &&& s1.local_port == s.local_port && s1.peer_ip == s.peer_ip && s1.peer_port == s.peer_port
            &&& s1.rcv_nxt == s.rcv_nxt
            &&& forall|j: int| 0 <= j < 8 && j != a ==> #[trigger] t1.socks[j] == t.socks[j]
        }),
{
    assert(t.socks[a].inv());
    assert(data.take(data.len() as int) =~= data);
    let t1 = crate::net::tcp::send_spec(t, a as u64, data, now).0;
    assert(t1.socks[a].tx =~= data);
    let s = t.socks[a];
    let s1 = t1.socks[a];
    assert(s.snd_una == s.snd_nxt);
    assert(s1.snd_una == s.snd_nxt && s1.snd_nxt == after(s.snd_nxt, data.len() as int));
    assert(s1.inv());
    assert forall|j: int| 0 <= j < 8 implies (#[trigger] t1.socks[j]).inv() by {
        if j != a {
            assert(t1.socks[j] == t.socks[j]);
        }
    }
    assert(t1.inv());
}

/// Data that comes in order on an established connection.
proof fn lemma_delivered(t: TcpV, b: int, src_ip: u32, g: InSeg, now: u64)
    requires
        t.inv(),
        belongs(t, src_ip, g, b),
        t.socks[b].st == St::Estab,
        g.seq == t.socks[b].rcv_nxt,
        g.flags == 24,
        g.payload.len() > 0,
        t.socks[b].rx.len() + g.payload.len() <= 8192,
    ensures
        ({
            let s = t.socks[b];
            let (t1, reply) = crate::net::tcp::route_spec(t, src_ip, g, now);
            let s1 = t1.socks[b];
            &&& s1.rx == s.rx + g.payload
            &&& s1.rcv_nxt == after(s.rcv_nxt, g.payload.len() as int)
            &&& s1.used && s1.st == St::Estab
            &&& s1.local_port == s.local_port && s1.peer_ip == s.peer_ip && s1.peer_port == s.peer_port
            &&& reply == Some(
                SegV {
                    dst_ip: src_ip,
                    dst_port: g.src_port,
                    local_port: g.dst_port,
                    seq: s.snd_nxt,
                    ack: s1.rcv_nxt,
                    flags: 16,
                    payload: Seq::empty(),
                },
            )
        }),
{
    assert(t.socks[b].inv());
    assert(!rst(24u8) && !fin(24u8));
    lemma_belongs(t, src_ip, g, b);
    assert(g.payload.take(g.payload.len() as int) =~= g.payload);
    assert(t.socks[b].rx + g.payload =~= crate::net::tcp::data_sock(t.socks[b], g).rx);
}

/// An acknowledgement of all that is under way.
proof fn lemma_acknowledged(t: TcpV, a: int, src_ip: u32, h: InSeg, now: u64)
    requires
        t.inv(),
        belongs(t, src_ip, h, a),
        t.socks[a].st == St::Estab,
        h.flags == 16,
        h.payload.len() == 0,
        h.ack == t.socks[a].snd_nxt,
        0 < t.socks[a].tx.len() <= 1400,
        h.ack == after(t.socks[a].snd_una, t.socks[a].tx.len() as int),
    ensures
        ({
            let s = t.socks[a];
            let (t1, more) = crate::net::tcp::route_spec(t, src_ip, h, now);
            let s1 = t1.socks[a];
            &&& more is None
            &&& s1.tx.len() == 0
            &&& s1.snd_nxt == s.snd_nxt
            &&& s1.rcv_nxt == s.rcv_nxt
            &&& s1.used && s1.st == St::Estab
            &&& s1.local_port == s.local_port && s1.peer_ip == s.peer_ip && s1.peer_port == s.peer_port
        }),
{
    let s = t.socks[a];
    assert(s.inv());
    assert(!rst(16u8) && !fin(16u8) && ack(16u8));
    lemma_belongs(t, src_ip, h, a);
    assert(crate::net::tcp::ack_span(s, h.ack) == s.tx.len());
}

/// What one end sends the other receives: a send of up to a segment queues all
/// its bytes and puts them on the wire; delivered, they stand behind what the
/// peer has not read yet, and the peer's acknowledgement, delivered in turn,
/// empties the queue of the sender, so that the two ends agree again.
pub proof fn law_bytes_cross_the_connection(
    ta: TcpV,
    a: int,
    a_ip: u32,
    tb: TcpV,
    b: int,
    b_ip: u32,
    data: Seq<u8>,
    now1: u64,
    now2: u64,
    now3: u64,
)
    requires
        ta.inv(),
        tb.inv(),
        0 <= a < 8,
        0 <= b < 8,
        joined(ta.socks[a], a_ip, tb.socks[b], b_ip),
        0 < data.len() <= 1400,
        tb.socks[b].rx.len() + data.len() <= 8192,
        forall|j: int|
            0 <= j < a ==> !speaks_with(
                #[trigger] ta.socks[j],
                ta.socks[a].local_port,
                b_ip,
                ta.socks[a].peer_port,
            ),
        forall|j: int|
            0 <= j < b ==> !speaks_with(
                #[trigger] tb.socks[j],
                tb.socks[b].local_port,
                a_ip,
                tb.socks[b].peer_port,
            ),
    ensures
        ({
            let (ta1, n, seg) = crate::net::tcp::send_spec(ta, a as u64, data, now1);
            let (tb1, reply) = crate::net::tcp::route_spec(tb, a_ip, arriving(seg->Some_0), now2);
            let (ta2, more) = crate::net::tcp::route_spec(ta1, b_ip, arriving(reply->Some_0), now3);
            &&& n == data.len()
            &&& seg matches Some(s) && s.dst_ip == b_ip && s.dst_port == tb.socks[b].local_port && s.local_port
                == ta.socks[a].local_port && s.payload == data
            &&& ta1.socks[a].tx == data
            &&& tb1.socks[b].rx == tb.socks[b].rx + data
            &&& reply matches Some(s) && s.dst_ip == a_ip && s.payload.len() == 0 && s.ack == after(
                ta.socks[a].snd_nxt,
                data.len() as int,
            )
            &&& ta2.socks[a].tx.len() == 0
            &&& more is None
            &&& joined(ta2.socks[a], a_ip, tb1.socks[b], b_ip)
        }),
{
    let (ta1, n, seg) = crate::net::tcp::send_spec(ta, a as u64, data, now1);
    lemma_sent(ta, a, data, now1);
    let g = arriving(seg->Some_0);
    lemma_delivered(tb, b, a_ip, g, now2);
    let (tb1, reply) = crate::net::tcp::route_spec(tb, a_ip, g, now2);
    let h = arriving(reply->Some_0);
    assert forall|j: int| 0 <= j < a implies !speaks_with(#[trigger] ta1.socks[j], h.dst_port, b_ip, h.src_port) by {
        assert(!speaks_with(ta.socks[j], ta.socks[a].local_port, b_ip, ta.socks[a].peer_port));
    }
    lemma_acknowledged(ta1, a, b_ip, h, now3);
}

/// Reading takes bytes from the front of the stream and loses none: what comes
/// back, with what stays, is what was there, and it is as much as asked for,
/// as there is, and as fits a segment.
pub proof fn law_receive_takes_from_the_front(t: TcpV, id: u64, len: u64)
    requires
        t.inv(),
        id < 8,
        len > 0,
        t.socks[id as int].rx.len() > 0,
    ensures
        ({
            let rx = t.socks[id as int].rx;
            let (t1, r) = crate::net::tcp::recv_spec(t, id, len);
            &&& r matches RecvV::Data(d) && d + t1.socks[id as int].rx == rx && d.len() <= len && d.len() <= 1400 && (
            d.len() == len || d.len() == 1400 || d.len() == rx.len())
            &&& forall|j: int| 0 <= j < 8 && j != id ==> #[trigger] t1.socks[j] == t.socks[j]
        }),
{
    let rx = t.socks[id as int].rx;
    let n = crate::net::tcp::recv_count(t.socks[id as int], len);
    assert(rx.take(n) + rx.skip(n) =~= rx);
}

/// Nothing to read yet: the reader of an open stream waits, the reader of one
/// that the peer has ended gets 0, and of one that is not there, -1.
pub proof fn law_empty_receive(t: TcpV, id: u64, len: u64)
    requires
        t.inv(),
        id < 8,
        len > 0,
        t.socks[id as int].rx.len() == 0,
    ensures
        ({
            let s = t.socks[id as int];
            let (t1, r) = crate::net::tcp::recv_spec(t, id, len);
            &&& t1 == t
            &&& !s.used ==> r == RecvV::Ret(-1)
            &&& s.used && s.st == St::Estab && !s.rx_eof ==> r == RecvV::Block
            &&& s.used && s.st == St::CloseWait ==> r == RecvV::Ret(0)
        }),
{
}

/// Closing one end ends the stream of the other: the FIN that `a` sends,
/// delivered to `b`, lets `b` read what it has and then gives the end of the
/// stream; the slot of `a` is free.
pub proof fn law_close_ends_the_stream_of_the_peer(
    ta: TcpV,
    a: int,
    a_ip: u32,
    tb: TcpV,
    b: int,
    b_ip: u32,
    now: u64,
    len: u64,
)
    requires
        ta.inv(),
        tb.inv(),
        0 <= a < 8,
        0 <= b < 8,
        joined(ta.socks[a], a_ip, tb.socks[b], b_ip),
        b_ip != 0,
        len > 0,
        forall|j: int|
            0 <= j < b ==> !speaks_with(
                #[trigger] tb.socks[j],
                tb.socks[b].local_port,
                a_ip,
                tb.socks[b].peer_port,
            ),
    ensures
        ({
            let (ta1, r, seg) = crate::net::tcp::close_spec(ta, a as u64);
            let (tb1, reply) = crate::net::tcp::route_spec(tb, a_ip, arriving(seg->Some_0), now);
            &&& r == 0
            &&& !ta1.socks[a].used
            &&& ta1.socks[a].st == St::Free
            &&& seg matches Some(s) && s.dst_ip == b_ip && fin(s.flags)
            &&& tb1.socks[b].rx == tb.socks[b].rx
            &&& reply matches Some(s) && s.ack == after(ta.socks[a].snd_nxt, 1)
            &&& tb.socks[b].rx.len() == 0 ==> crate::net::tcp::recv_spec(tb1, b as u64, len).1 == RecvV::Ret(0)
            &&& tb.socks[b].rx.len() > 0 ==> crate::net::tcp::recv_spec(tb1, b as u64, len).1 is Data
        }),
{
    let (ta1, r, seg) = crate::net::tcp::close_spec(ta, a as u64);
    assert(ta.socks[a].inv() && tb.socks[b].inv());
    assert(fin(17u8) && fin(1u8) && !rst(17u8) && !rst(1u8));
    let g = arriving(seg->Some_0);
    lemma_belongs(tb, a_ip, g, b);
    let (tb1, reply) = crate::net::tcp::route_spec(tb, a_ip, g, now);
    assert(tb1.socks[b].rx =~= tb.socks[b].rx);
}

/// What was not acknowledged is sent again: more than 400 ms after the last
/// transmission, the oldest 1400 bytes from the first unacknowledged number
/// on, and a SYN that is unanswered for more than a second. After eight times
/// the socket is given up. Before its time nothing is sent.
pub proof fn law_unacknowledged_is_sent_again(s: SockV, now: u64)
    requires
        s.inv(),
        s.used,
    ensures
        ({
            let (s1, out) = crate::net::tcp::tick_sock(s, now);
            let quiet = now - s.last_tx_us;
            let stream = s.st == St::Estab || s.st == St::CloseWait;
            &&& stream && s.tx.len() > 0 && quiet > 400_000 && s.retries < 8 ==> {
                &&& out matches Some(o) && {
                    &&& o.dst_ip == s.peer_ip
                    &&& o.dst_port == s.peer_port
                    &&& o.local_port == s.local_port
                    &&& o.seq == s.snd_una
                    &&& ack(o.flags)
                    &&& o.payload.len() <= 1400
                    &&& o.payload.len() == 1400 || o.payload.len() == s.tx.len()
                    &&& o.payload == s.tx.subrange(0, o.payload.len() as int)
                }
                &&& s1 == SockV { retries: (s.retries + 1) as u32, last_tx_us: now, ..s }
            }
            &&& s.st == St::SynSent && quiet > 1_000_000 && s.retries < 8 ==> {
                &&& out matches Some(o) && o.dst_ip == s.peer_ip && o.dst_port == s.peer_port && o.local_port
                    == s.local_port && o.seq == s.iss && o.flags == 2 && o.payload.len() == 0
                &&& s1 == SockV { retries: (s.retries + 1) as u32, last_tx_us: now, ..s }
            }
            &&& ((stream && s.tx.len() > 0 && quiet > 400_000) || (s.st == St::SynSent && quiet > 1_000_000))
                && s.retries == 8 ==> out is None && !s1.used && s1.st == St::Free
            &&& (stream && (s.tx.len() == 0 || quiet <= 400_000)) || (s.st == St::SynSent && quiet <= 1_000_000)
                || s.st == St::Listen ==> out is None && s1 == s
        }),
{
    let n = if s.tx.len() < 1400 {
        s.tx.len() as int
    } else {
        1400
    };
    assert(s.tx.take(n) =~= s.tx.subrange(0, n));
}

/// A port can be listened on once: a listener on a port that none has waits
/// there, and a second one is refused.
#[verifier::spinoff_prover]
pub proof fn law_listen(t: TcpV, port: u16, i: int)
    requires
        t.inv(),
        port != 0,
        forall|j: int| 0 <= j < 8 ==> !((#[trigger] t.socks[j]).used && t.socks[j].local_port == port),
        0 <= i < 8,
        !t.socks[i].used,
        forall|j: int| 0 <= j < i ==> (#[trigger] t.socks[j]).used,
    ensures
        ({
            let (t1, id) = crate::net::tcp::listen_spec(t, port);
            &&& id == i
            &&& t1.socks[i].used
            &&& t1.socks[i].st == St::Listen
            &&& t1.socks[i].local_port == port
            &&& t1.socks[i].pend_id is None
            &&& forall|j: int| 0 <= j < 8 && j != i ==> #[trigger] t1.socks[j] == t.socks[j]
            &&& crate::net::tcp::listen_spec(t1, port) == (t1, -1int)
        }),
{
    let q = crate::net::tcp::on_port(port);
    let u = crate::net::tcp::is_unused();
    assert forall|j: int| 0 <= j < t.socks.len() implies !q(#[trigger] t.socks[j]) by {
        assert(!(t.socks[j].used && t.socks[j].local_port == port));
    }
    crate::seqs::lemma_first_none(t.socks, q, 0);
    assert forall|j: int| 0 <= j < i implies !u(#[trigger] t.socks[j]) by {
        assert(t.socks[j].used);
    }
    crate::seqs::lemma_first_is(t.socks, u, 0, i);
    let t1 = crate::net::tcp::listen_spec(t, port).0;
    assert(q(t1.socks[i]));
    crate::seqs::lemma_first_from(t1.socks, q, 0);
}

/// A connection that comes in: a SYN for a listener is answered with SYN and
/// ACK of the number after it, to its sender; the sender's ACK of that makes a
/// new socket, connected with the sender, that `accept` hands out, and the
/// data that starts at the number after the SYN is received on it.
#[verifier::spinoff_prover]
pub proof fn law_incoming_connection(
    t: TcpV,
    l: int,
    n: int,
    src_ip: u32,
    g: InSeg,
    h: InSeg,
    d: InSeg,
    now1: u64,
    now2: u64,
    now3: u64,
    len: u64,
)
    requires
        t.inv(),
        0 <= l < 8,
        t.socks[l].used,
        t.socks[l].st == St::Listen,
        t.socks[l].local_port == g.dst_port,
        forall|j: int|
            0 <= j < 8 && j != l ==> !((#[trigger] t.socks[j]).used && t.socks[j].local_port == g.dst_port),
        0 <= n < 8,
        n != l,
        !t.socks[n].used,
        forall|j: int| 0 <= j < n ==> (#[trigger] t.socks[j]).used,
        syn(g.flags),
        !ack(g.flags),
        !rst(g.flags),
        h.src_port == g.src_port,
        h.dst_port == g.dst_port,
        ack(h.flags),
        !rst(h.flags),
        h.ack == after(t.iss_next, 1),
        d.src_port == g.src_port,
        d.dst_port == g.dst_port,
        d.seq == after(g.seq, 1),
        !rst(d.flags),
        !fin(d.flags),
        0 < d.payload.len() <= 1400,
        len >= d.payload.len(),
    ensures
        ({
            let (t1, out1) = crate::net::tcp::route_spec(t, src_ip, g, now1);
            let (t2, out2) = crate::net::tcp::route_spec(t1, src_ip, h, now2);
            let (t3, got) = crate::net::tcp::accept_spec(t2, l as u64);
            let (t4, out4) = crate::net::tcp::route_spec(t3, src_ip, d, now3);
            &&& out1 == Some(
                SegV {
                    dst_ip: src_ip,
                    dst_port: g.src_port,
                    local_port: g.dst_port,
                    seq: t.iss_next,
                    ack: after(g.seq, 1),
                    flags: 18,
                    payload: Seq::empty(),
                },
            )
            &&& got == Step::Done(n as i64)
            &&& t3.socks[n].used
            &&& t3.socks[n].st == St::Estab
            &&& t3.socks[n].peer_ip == src_ip
            &&& t3.socks[n].peer_port == g.src_port
            &&& t3.socks[n].snd_nxt == h.ack
            &&& t3.socks[l].st == St::Listen
            &&& out4 matches Some(o) && o.ack == after(d.seq, d.payload.len() as int)
            &&& crate::net::tcp::recv_spec(t4, n as u64, len).1 == RecvV::Data(d.payload)
        }),
{
    let ib = crate::net::tcp::in_band(g.dst_port, src_ip, g.src_port);
    let li = crate::net::tcp::listening(g.dst_port);
    let u = crate::net::tcp::is_unused();
    assert forall|j: int| 0 <= j < t.socks.len() implies !ib(#[trigger] t.socks[j]) by {
        assert(j == l || !(t.socks[j].used && t.socks[j].local_port == g.dst_port));
    }
    crate::seqs::lemma_first_none(t.socks, ib, 0);
    assert(li(t.socks[l]));
    assert forall|j: int| 0 <= j < l implies !li(#[trigger] t.socks[j]) by {
        assert(!(t.socks[j].used && t.socks[j].local_port == g.dst_port));
    }
    crate::seqs::lemma_first_is(t.socks, li, 0, l);
    let (t1, out1) = crate::net::tcp::route_spec(t, src_ip, g, now1);
    assert forall|j: int| 0 <= j < l implies !speaks_with(#[trigger] t1.socks[j], h.dst_port, src_ip, h.src_port) by {
        assert(!(t.socks[j].used && t.socks[j].local_port == g.dst_port));
    }
    lemma_belongs(t1, src_ip, h, l);
    assert forall|j: int| 0 <= j < n implies !u(#[trigger] t1.socks[j]) by {
        assert(t.socks[j].used);
    }
    assert(u(t1.socks[n]));
    crate::seqs::lemma_first_is(t1.socks, u, 0, n);
    let (t2, out2) = crate::net::tcp::route_spec(t1, src_ip, h, now2);
    let (t3, got) = crate::net::tcp::accept_spec(t2, l as u64);
    assert forall|j: int| 0 <= j < n implies !speaks_with(#[trigger] t3.socks[j], d.dst_port, src_ip, d.src_port) by {
        assert(j == l || !(t.socks[j].used && t.socks[j].local_port == g.dst_port));
    }
    lemma_belongs(t3, src_ip, d, n);
    let (t4, out4) = crate::net::tcp::route_spec(t3, src_ip, d, now3);
    assert(t4.socks[n].rx =~= d.payload);
    assert(d.payload.take(d.payload.len() as int) =~= d.payload);
}

} // verus!
