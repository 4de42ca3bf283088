//! What a program gets from its system calls, by their numbers.

use vstd::prelude::*;

use crate::cpu::idt::Regs;
use crate::cpu::smp::Cpu;
use crate::ipc::ChanV;
use crate::kernel::KernelV;
use crate::net::sock::{DgramV, UdpV};
use crate::sched::{State, TaskV};

verus! {

/// A task runs on the processor.
pub open spec fn caller(k: KernelV, cpu: int, me: int) -> bool {
    &&& k.sched.wf()
    &&& k.sched.on
    &&& 0 <= cpu < k.smp.cpus.len()
    &&& k.smp.cpus[cpu].current == me
    &&& 0 <= me < 16
    &&& k.chans.len() == 8
    &&& k.net.udp.len() == 8
}

/// The caller waits in that state, and its processor is to switch.
pub open spec fn waits(k: KernelV, k1: KernelV, cpu: int, me: int, st: State) -> bool {
    &&& k1.sched.tasks == k.sched.tasks.update(me, TaskV { state: st, ..k.sched.tasks[me] })
    &&& k1.smp.cpus == k.smp.cpus.update(cpu, Cpu { switch_requested: true, ..k.smp.cpus[cpu] })
}

/// How a byte looks on the screen: printable ones, blanks and line ends as
/// they are, a tab as a blank, anything else as a dot in the middle.
pub open spec fn looks(b: u8) -> char {
    if b == 10 || (32 <= b && b <= 126) {
        b as char
    } else if b == 9 {
        ' '
    } else {
        '\u{B7}'
    }
}

proof fn lemma_run(k: KernelV, pml4: u64, va: u64, n: int, i: int)
    requires
        crate::user::uaccess::readable(k.mem, pml4, va, n),
        0 <= i <= n,
    ensures
        crate::user::syscall::mapped_run(k.mem, pml4, va, n, i) == n,
    decreases n - i,
{
    if i < n {
        assert(crate::mem::vmm::translate_spec(k.mem, pml4, crate::user::uaccess::user_at(va, i)) is Some);
        lemma_run(k, pml4, va, n, i + 1);
    }
}

/// Call 0 prints: every byte of the program's text, up to 8 KiB, in order, and
/// returns how many; the kernel stays as it is.
pub proof fn law_write_prints(k: KernelV, cpu: int, cr3: u64, now: u64, r: Regs)
    requires
        r.rax == 0,
        r.rsi > 0,
        crate::user::uaccess::readable(k.mem, crate::mem::vmm::frame_of(cr3), r.rdi, if r.rsi < 8192 {
            r.rsi as int
        } else {
            8192
        }),
    ensures
        ({
            let n = if r.rsi < 8192 {
                r.rsi as int
            } else {
                8192
            };
            let (k1, g, e) = crate::user::syscall::call_spec(k, cpu, cr3, now, r);
            &&& k1 == k
            &&& g == Regs { rax: n as u64, ..r }
            &&& e.out.len() == 1
            &&& e.out[0].color is None
            &&& e.out[0].text.len() == n
            &&& forall|i: int|
                0 <= i < n ==> #[trigger] e.out[0].text[i] == looks(
                    crate::user::uaccess::user_byte(
                        k.mem,
                        crate::mem::vmm::frame_of(cr3),
                        crate::user::uaccess::user_at(r.rdi, i),
                    ),
                )
            &&& e.ended is None && e.wire is None
        }),
{
    lemma_run(
        k,
        crate::mem::vmm::frame_of(cr3),
        r.rdi,
        if r.rsi < 8192 {
            r.rsi as int
        } else {
            8192
        },
        0,
    );
}

/// Call 1 gives the oldest key that waits and takes it away; with none the
/// caller waits for one.
pub proof fn law_readchar(k: KernelV, cpu: int, cr3: u64, now: u64, r: Regs, me: int)
    requires
        caller(k, cpu, me),
        r.rax == 1,
    ensures
        ({
            let (k1, g, e) = crate::user::syscall::call_spec(k, cpu, cr3, now, r);
            &&& k.keys.queue.len() > 0 ==> {
                &&& g == Regs { rax: g.rax, ..r }
                &&& seq![g.rax as u8] + k1.keys.queue == k.keys.queue
                &&& g.rax < 256
                &&& k1.sched == k.sched && k1.smp == k.smp
            }
            &&& k.keys.queue.len() == 0 ==> waits(k, k1, cpu, me, State::BlockedInput) && k1.keys == k.keys
        }),
{
    if k.keys.queue.len() > 0 {
        let b = k.keys.queue[0];
        assert(b as u64 as u8 == b);
        assert(seq![b] + k.keys.queue.skip(1) =~= k.keys.queue);
    }
}

/// Calls 3 and 4 tell the time in milliseconds and the caller's pid; call 5
/// gives the processor away; call 6 sleeps that many milliseconds from now;
/// call 23 tells the machine's address (0) and the gateway's (1).
pub proof fn law_plain_calls(k: KernelV, cpu: int, cr3: u64, now: u64, r: Regs, me: int)
    requires
        caller(k, cpu, me),
        now + r.rdi <= u64::MAX,
    ensures
        ({
            let (k1, g, e) = crate::user::syscall::call_spec(k, cpu, cr3, now, r);
            &&& r.rax == 3 ==> k1 == k && g == Regs { rax: now, ..r }
            &&& r.rax == 4 ==> k1 == k && g == Regs { rax: k.sched.tasks[me].pid, ..r }
            &&& r.rax == 5 ==> {
                &&& g == r
                &&& k1.sched == k.sched
                &&& k1.smp.cpus == k.smp.cpus.update(cpu, Cpu { switch_requested: true, ..k.smp.cpus[cpu] })
            }
            &&& r.rax == 6 ==> {
                &&& g == Regs { rax: 0, ..r }
                &&& k1.sched.tasks == k.sched.tasks.update(
                    me,
                    TaskV { state: State::Sleeping, wake_at_ms: (now + r.rdi) as u64, ..k.sched.tasks[me] },
                )
                &&& k1.smp.cpus == k.smp.cpus.update(cpu, Cpu { switch_requested: true, ..k.smp.cpus[cpu] })
            }
            &&& r.rax == 23 ==> k1 == k && g == Regs {
                rax: if r.rdi == 0 {
                    0x0A00_020F
                } else if r.rdi == 1 {
                    0x0A00_0202
                } else {
                    0xFFFF_FFFF_FFFF_FFFF
                },
                ..r
            }
        }),
{
}

/// Call 9 sets the handler of a signal that may be caught (10, 12, 15) and
/// gives the one before; of any other it is refused. Call 18 sets the base of
/// the thread's own data, in the lower half only.
pub proof fn law_handlers_and_bases(k: KernelV, cpu: int, cr3: u64, now: u64, r: Regs, me: int)
    requires
        caller(k, cpu, me),
        k.sched.tasks[me].is_user,
    ensures
        ({
            let t = k.sched.tasks[me];
            let (k1, g, e) = crate::user::syscall::call_spec(k, cpu, cr3, now, r);
            &&& r.rax == 9 && (r.rdi == 10 || r.rdi == 12 || r.rdi == 15) ==> {
                &&& g.rax == t.sig_handlers[r.rdi as int]
                &&& k1.sched.tasks == k.sched.tasks.update(
                    me,
                    TaskV { sig_handlers: t.sig_handlers.update(r.rdi as int, r.rsi), ..t },
                )
            }
            &&& r.rax == 9 && !(r.rdi == 10 || r.rdi == 12 || r.rdi == 15) ==> k1 == k && g.rax
                == 0xFFFF_FFFF_FFFF_FFFF
            &&& r.rax == 18 && r.rdi < 0x8000_0000_0000 ==> g.rax == 0 && k1.sched.tasks == k.sched.tasks.update(
                me,
                TaskV { fs_base: r.rdi, ..t },
            )
            &&& r.rax == 18 && r.rdi >= 0x8000_0000_0000 ==> k1 == k && g.rax == 0xFFFF_FFFF_FFFF_FFFF
        }),
{
    let h = k.sched.tasks[me].sig_handlers[r.rdi as int];
    assert(h as i64 as u64 == h) by (bit_vector);
}

// ---------------------------------------------------------------------------
// Channels
// ---------------------------------------------------------------------------
/// Opening: a key that a channel has joins it, whoever asks; any other key, and
/// 0 always, takes the first free channel, which is empty.
#[verifier::spinoff_prover]
pub proof fn law_channel_open(t: Seq<ChanV>, key: u64, i: int)
    requires
        t.len() == 8,
        0 <= i < 8,
    ensures
        ({
            let (t1, id) = crate::ipc::open_spec(t, key);
            &&& key != 0 && t[i].used && t[i].key == key && (forall|j: int|
                0 <= j < i ==> !((#[trigger] t[j]).used && t[j].key == key)) ==> t1 == t && id == i
            &&& !t[i].used && (forall|j: int| 0 <= j < i ==> (#[trigger] t[j]).used) && (key == 0 || forall|j: int|
                0 <= j < 8 ==> !((#[trigger] t[j]).used && t[j].key == key)) ==> {
                &&& id == i
                &&& t1 == t.update(i, t1[i])
                &&& t1[i].used && t1[i].key == key && t1[i].bytes.len() == 0
            }
        }),
{
    let q = crate::ipc::keyed(key);
    let u = crate::ipc::unused_chan();
    if key != 0 && t[i].used && t[i].key == key && (forall|j: int|
        0 <= j < i ==> !((#[trigger] t[j]).used && t[j].key == key)) {
        assert(q(t[i]));
        assert forall|j: int| 0 <= j < i implies !q(#[trigger] t[j]) by {
            assert(!(t[j].used && t[j].key == key));
        }
        crate::seqs::lemma_first_is(t, q, 0, i);
    }
    if !t[i].used && (forall|j: int| 0 <= j < i ==> (#[trigger] t[j]).used) && (key == 0 || forall|j: int|
        0 <= j < 8 ==> !((#[trigger] t[j]).used && t[j].key == key)) {
        assert(u(t[i]));
        assert forall|j: int| 0 <= j < i implies !u(#[trigger] t[j]) by {
            assert(t[j].used);
        }
        crate::seqs::lemma_first_is(t, u, 0, i);
        if key != 0 {
            assert forall|j: int| 0 <= j < t.len() implies !q(#[trigger] t[j]) by {
                assert(!(t[j].used && t[j].key == key));
            }
            crate::seqs::lemma_first_none(t, q, 0);
        }
        assert(t.update(i, ChanV { used: true, key, ..crate::ipc::fresh_chan() }) =~= t.update(
            i,
            crate::ipc::open_spec(t, key).0[i],
        ));
    }
}

/// Bytes that one program sends another receives: call 12 takes up to 64 bytes
/// of the sender's memory behind those that wait in the channel, and call 13,
/// made by a program in another space, puts the oldest ones into its memory.
#[verifier::spinoff_prover]
pub proof fn law_bytes_cross_the_channel(
    k: KernelV,
    cpu: int,
    cr3: u64,
    r: Regs,
    me: int,
    cpu2: int,
    cr3_2: u64,
    g: Regs,
    now: u64,
)
    requires
        caller(k, cpu, me),
        r.rax == 12,
        r.rdi < 8,
        0 < r.rdx <= 64,
        k.chans[r.rdi as int].used,
        k.chans[r.rdi as int].bytes.len() == 0,
        crate::user::uaccess::readable(k.mem, crate::mem::vmm::frame_of(cr3), r.rsi, r.rdx as int),
        g.rax == 13,
        g.rdi == r.rdi,
        g.rdx >= r.rdx,
        crate::mem::vmm_laws::sound(k.mem),
        crate::user::uaccess::own_range(k.mem, crate::mem::vmm::frame_of(cr3_2), g.rsi, r.rdx as int),
    ensures
        ({
            let (k1, r1, _) = crate::user::syscall::call_spec(k, cpu, cr3, now, r);
            let (k2, g1, _) = crate::user::syscall::call_spec(k1, cpu2, cr3_2, now, g);
            let w = k.chans[r.rdi as int].wait_recv;
            &&& r1 == Regs { rax: r.rdx, ..r }
            &&& g1 == Regs { rax: r.rdx, ..g }
            &&& k1.mem == k.mem
            &&& k2.chans[r.rdi as int].bytes.len() == 0
            &&& 0 < w <= 16 && k.sched.tasks[w - 1].state == State::BlockedChan ==> k1.sched.tasks[w - 1].state
                == State::Ready
            &&& forall|i: int|
                0 <= i < r.rdx ==> #[trigger] crate::user::uaccess::user_byte(
                    k2.mem,
                    crate::mem::vmm::frame_of(cr3_2),
                    crate::user::uaccess::user_at(g.rsi, i),
                ) == crate::user::uaccess::user_byte(
                    k.mem,
                    crate::mem::vmm::frame_of(cr3),
                    crate::user::uaccess::user_at(r.rsi, i),
                )
        }),
{
    let id = r.rdi as int;
    let pml4 = crate::mem::vmm::frame_of(cr3);
    let pml4_2 = crate::mem::vmm::frame_of(cr3_2);
    let data = crate::user::uaccess::user_bytes(k.mem, pml4, r.rsi, r.rdx as int);
    let (k1, r1, _) = crate::user::syscall::call_spec(k, cpu, cr3, now, r);
    assert(k1.chans[id].bytes =~= data);
    assert(data.take(data.len() as int) =~= data);
    crate::user::uaccess::law_written_bytes_read_back(k.mem, pml4_2, g.rsi, data);
    let (k2, g1, _) = crate::user::syscall::call_spec(k1, cpu2, cr3_2, now, g);
    assert forall|i: int| 0 <= i < r.rdx implies #[trigger] crate::user::uaccess::user_byte(
        k2.mem,
        pml4_2,
        crate::user::uaccess::user_at(g.rsi, i),
    ) == crate::user::uaccess::user_byte(k.mem, pml4, crate::user::uaccess::user_at(r.rsi, i)) by {
        assert(crate::user::uaccess::user_bytes(k2.mem, pml4_2, g.rsi, r.rdx as int)[i] == data[i]);
    }
}

/// A channel is a queue of bytes, 256 at most: sending puts all of the bytes
/// at its end or, where they do not fit, none and lets the sender wait;
/// receiving takes from its front up to 64 bytes, as many as were asked for or
/// are there, and lets the reader wait where none is.
#[verifier::spinoff_prover]
pub proof fn law_channel_is_a_queue(t: Seq<ChanV>, id: u64, data: Seq<u8>, len: u64, slot: u16)
    requires
        t.len() == 8,
        id < 8,
        t[id as int].used,
        0 < data.len(),
        0 < len,
        slot < 16,
    ensures
        ({
            let c = t[id as int];
            let (t1, o) = crate::ipc::send_spec(t, id, data, slot);
            let (t2, r) = crate::ipc::recv_spec(t, id, len, slot);
            &&& t1 == t.update(id as int, t1[id as int])
            &&& t2 == t.update(id as int, t2[id as int])
            &&& c.bytes.len() + data.len() <= 256 ==> {
                &&& t1[id as int].bytes == c.bytes + data
                &&& o.ret == data.len() && !o.park && o.wake == c.wait_recv
            }
            &&& c.bytes.len() + data.len() > 256 ==> {
                &&& t1[id as int].bytes == c.bytes
                &&& t1[id as int].wait_send == slot + 1
                &&& o.park
            }
            &&& c.bytes.len() == 0 ==> {
                &&& t2[id as int].bytes == c.bytes
                &&& t2[id as int].wait_recv == slot + 1
                &&& r matches crate::ipc::RecvV::Ret(x) && x.park
            }
            &&& c.bytes.len() > 0 ==> (r matches crate::ipc::RecvV::Data(d) && {
                &&& d + t2[id as int].bytes == c.bytes
                &&& d.len() <= len && d.len() <= 64
                &&& d.len() == len || d.len() == 64 || d.len() == c.bytes.len()
            })
        }),
{
    let c = t[id as int];
    let n = crate::ipc::recv_count(c, len);
    if c.bytes.len() > 0 {
        assert(c.bytes.take(n) + c.bytes.skip(n) =~= c.bytes);
    }
    assert(crate::ipc::send_spec(t, id, data, slot).0 =~= t.update(
        id as int,
        crate::ipc::send_spec(t, id, data, slot).0[id as int],
    ));
    assert(crate::ipc::recv_spec(t, id, len, slot).0 =~= t.update(
        id as int,
        crate::ipc::recv_spec(t, id, len, slot).0[id as int],
    ));
}

/// Who waits on a channel is told: a sender without room and a reader without
/// bytes stop, and a receive wakes the sender that waits.
pub proof fn law_channel_waits(k: KernelV, cpu: int, cr3: u64, now: u64, r: Regs, me: int)
    requires
        caller(k, cpu, me),
        r.rdi < 8,
        k.chans[r.rdi as int].used,
        r.rax == 12 || r.rax == 13,
        r.rdx > 0,
    ensures
        ({
            let c = k.chans[r.rdi as int];
            let pml4 = crate::mem::vmm::frame_of(cr3);
            let n: int = if r.rdx < 64 {
                r.rdx as int
            } else {
                64
            };
            let (k1, g, _) = crate::user::syscall::call_spec(k, cpu, cr3, now, r);
            &&& r.rax == 12 && crate::user::uaccess::readable(k.mem, pml4, r.rsi, n) && c.bytes.len() + n > 256 ==> waits(
                k,
                k1,
                cpu,
                me,
                State::BlockedChan,
            ) && k1.chans[r.rdi as int].wait_send == me + 1 && k1.chans[r.rdi as int].bytes == c.bytes
            &&& r.rax == 13 && c.bytes.len() == 0 ==> waits(k, k1, cpu, me, State::BlockedChan)
                && k1.chans[r.rdi as int].wait_recv == me + 1
            &&& r.rax == 13 && c.bytes.len() > 0 && g.rax < 0x8000_0000_0000_0000 && 0 < c.wait_send <= 16
                && k.sched.tasks[c.wait_send - 1].state == State::BlockedChan ==> k1.sched.tasks[c.wait_send - 1].state
                == State::Ready
        }),
{
    crate::user::syscall::lemma_minus_one();
}

// ---------------------------------------------------------------------------
// Datagrams
// ---------------------------------------------------------------------------
/// Binding: a port that no socket has takes the first free socket, with an
/// empty queue; a port that is taken, and 0, is refused. Closing frees it.
#[verifier::spinoff_prover]
pub proof fn law_bind_and_close(t: Seq<UdpV>, port: u16, i: int)
    requires
        t.len() == 8,
        0 <= i < 8,
        !t[i].used,
        forall|j: int| 0 <= j < i ==> (#[trigger] t[j]).used,
    ensures
        port != 0 && (forall|j: int| 0 <= j < 8 ==> !((#[trigger] t[j]).used && t[j].port == port)) ==> {
            let (t1, id) = crate::net::sock::bind_spec(t, port);
            let (t2, x) = crate::net::sock::close_spec(t1, i as u64);
            &&& id == i
            &&& t1 == t.update(i, t1[i])
            &&& t1[i].used && t1[i].port == port && t1[i].queue.len() == 0
            &&& crate::net::sock::bind_spec(t1, port) == (t1, -1int)
            &&& x == 0
            &&& !t2[i].used
            &&& crate::net::sock::close_spec(t2, i as u64) == (t2, -1int)
        },
        crate::net::sock::bind_spec(t, 0) == (t, -1int),
{
    if port != 0 && (forall|j: int| 0 <= j < 8 ==> !((#[trigger] t[j]).used && t[j].port == port)) {
        let q = crate::net::sock::bound_to(port);
        let u = crate::net::sock::unbound();
        assert forall|j: int| 0 <= j < t.len() implies !q(#[trigger] t[j]) by {
            assert(!(t[j].used && t[j].port == port));
        }
        crate::seqs::lemma_first_none(t, q, 0);
        assert(u(t[i]));
        assert forall|j: int| 0 <= j < i implies !u(#[trigger] t[j]) by {
            assert(t[j].used);
        }
        crate::seqs::lemma_first_is(t, u, 0, i);
        let t1 = crate::net::sock::bind_spec(t, port).0;
        assert(t1 =~= t.update(i, t1[i]));
        assert(q(t1[i]));
        crate::seqs::lemma_first_from(t1, q, 0);
    }
}

/// A datagram for a port goes to the socket that is bound to it, with the
/// address and port that it came from, behind those that wait, of which there
/// are 8 at most; cut to 256 bytes. The task that waits there is to be woken.
pub proof fn law_datagram_reaches_its_port(
    t: Seq<UdpV>,
    i: int,
    src_ip: u32,
    src_port: u16,
    data: Seq<u8>,
)
    requires
        t.len() == 8,
        0 <= i < 8,
        t[i].used,
        forall|j: int| 0 <= j < i ==> !((#[trigger] t[j]).used && t[j].port == t[i].port),
    ensures
        ({
            let (t1, ok, wake) = crate::net::sock::deliver_spec(t, t[i].port, src_ip, src_port, data);
            let n: int = if data.len() < 256 {
                data.len() as int
            } else {
                256
            };
            &&& t1 == t.update(i, t1[i])
            &&& t[i].queue.len() < 8 ==> {
                &&& ok && wake == t[i].waiter
                &&& t1[i].queue == t[i].queue.push(DgramV { src_ip, src_port, data: data.subrange(0, n) })
            }
            &&& t[i].queue.len() == 8 ==> !ok && t1[i].queue == t[i].queue
        }),
{
    let q = crate::net::sock::bound_to(t[i].port);
    assert(q(t[i]));
    assert forall|j: int| 0 <= j < i implies !q(#[trigger] t[j]) by {
        assert(!(t[j].used && t[j].port == t[i].port));
    }
    crate::seqs::lemma_first_is(t, q, 0, i);
    assert(data.subrange(0, data.len() as int) =~= data);
    let t1 = crate::net::sock::deliver_spec(t, t[i].port, src_ip, src_port, data).0;
    assert(t1 =~= t.update(i, t1[i]));
}

/// Call 20 to another machine hands the program's bytes, up to 256, to the
/// wire, to that address and port, from the port of the socket.
pub proof fn law_sendto_goes_out(k: KernelV, cpu: int, cr3: u64, now: u64, r: Regs)
    requires
        k.net.udp.len() == 8,
        r.rax == 20,
        r.rdi < 8,
        k.net.udp[r.rdi as int].used,
        r.rsi < 0x1_0000_0000,
        r.rsi != 0x0A00_020F,
        r.rdx < 0x1_0000,
        0 < r.r8 <= 256,
        crate::user::uaccess::readable(k.mem, crate::mem::vmm::frame_of(cr3), r.rcx, r.r8 as int),
    ensures
        ({
            let (k1, g, e) = crate::user::syscall::call_spec(k, cpu, cr3, now, r);
            &&& e.wire matches Some(w) && {
                &&& w.dst_ip == r.rsi
                &&& w.dst_port == r.rdx
                &&& w.src_port == k.net.udp[r.rdi as int].port
                &&& w.data.len() == r.r8
                &&& forall|i: int|
                    0 <= i < r.r8 ==> #[trigger] w.data[i] == crate::user::uaccess::user_byte(
                        k.mem,
                        crate::mem::vmm::frame_of(cr3),
                        crate::user::uaccess::user_at(r.rcx, i),
                    )
            }
            &&& k1.sched == k.sched && k1.mem == k.mem
        }),
{
}

/// Call 21 gives the oldest datagram, cut to what was asked for, and takes it
/// away; with none the caller waits.
#[verifier::spinoff_prover]
pub proof fn law_recvfrom_gives_the_oldest(k: KernelV, cpu: int, cr3: u64, now: u64, r: Regs, me: int)
    requires
        caller(k, cpu, me),
        r.rax == 21,
        r.rdi < 8,
        k.net.udp[r.rdi as int].used,
        0 < r.rdx,
        r.rcx == 0,
        crate::mem::vmm_laws::sound(k.mem),
        k.net.udp[r.rdi as int].queue.len() > 0 ==> k.net.udp[r.rdi as int].queue[0].data.len() <= 256
            && crate::user::uaccess::own_range(
            k.mem,
            crate::mem::vmm::frame_of(cr3),
            r.rsi,
            if k.net.udp[r.rdi as int].queue[0].data.len() < r.rdx {
                k.net.udp[r.rdi as int].queue[0].data.len() as int
            } else {
                r.rdx as int
            },
        ),
    ensures
        ({
            let s = k.net.udp[r.rdi as int];
            let (k1, g, _) = crate::user::syscall::call_spec(k, cpu, cr3, now, r);
            &&& s.queue.len() == 0 ==> waits(k, k1, cpu, me, State::BlockedSock) && k1.net.udp[r.rdi as int].waiter
                == me + 1
            &&& s.queue.len() > 0 ==> {
                let d = s.queue[0].data;
                &&& g.rax == if d.len() < r.rdx {
                    d.len() as int
                } else {
                    r.rdx as int
                }
                &&& seq![s.queue[0]] + k1.net.udp[r.rdi as int].queue == s.queue
                &&& forall|i: int|
                    0 <= i < g.rax ==> #[trigger] crate::user::uaccess::user_byte(
                        k1.mem,
                        crate::mem::vmm::frame_of(cr3),
                        crate::user::uaccess::user_at(r.rsi, i),
                    ) == d[i]
            }
        }),
{
    let s = k.net.udp[r.rdi as int];
    if s.queue.len() > 0 {
        let pml4 = crate::mem::vmm::frame_of(cr3);
        let cap = if r.rdx < 256 {
            r.rdx as int
        } else {
            256
        };
        let d = crate::net::sock::cut(s.queue[0].data, cap);
        crate::user::uaccess::law_written_bytes_read_back(k.mem, pml4, r.rsi, d);
        assert(seq![s.queue[0]] + s.queue.skip(1) =~= s.queue);
        let (k1, g, _) = crate::user::syscall::call_spec(k, cpu, cr3, now, r);
        assert forall|i: int| 0 <= i < g.rax implies #[trigger] crate::user::uaccess::user_byte(
            k1.mem,
            pml4,
            crate::user::uaccess::user_at(r.rsi, i),
        ) == s.queue[0].data[i] by {
            assert(crate::user::uaccess::user_bytes(k1.mem, pml4, r.rsi, d.len() as int)[i] == d[i]);
        }
    }
}

} // verus!
