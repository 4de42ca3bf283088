//! System calls: rax is the number, rdi, rsi, rdx, rcx and r8 the arguments,
//! and the result comes back in rax.

use vstd::prelude::*;

use crate::console::{nothing, say, Out, OutV};
use crate::cpu::idt::Regs;
use crate::cpu::keyboard;
use crate::cpu::keyboard::KeyV;
use crate::ipc::{recv_delivered, ChanV, Outcome, Recv, RecvV, MAXMSG, NCHANS};
use crate::kernel::{Kernel, KernelV};
use crate::mem::vmm::{AddressSpace, MemV, Memory};
use crate::net::netd::NetV;
use crate::net::sock::{source_meta, RecvFrom, RecvFromV, SendTo, DGRAM_MAX, NSOCK};
use crate::net::{GW_IP, OUR_IP};
use crate::sched::process::{
    exit_current, sys_clone, sys_fork, sys_join, sys_set_fs_current, sys_texit_current, sys_wait,
};
use crate::sched::switch::{
    mark_blocked_chan, mark_blocked_sock, send_signal, sig_set_handler_current, sys_block_on_input, sys_sleep,
    sys_yield_now, wake_chan_waiter, wake_sock_waiter,
};
use crate::sched::{State, TaskV};
use crate::text::{latin1, push_char};
use crate::user::signal::sys_sigreturn;
use crate::user::uaccess::{read_user_bytes, write_user_bytes};

verus! {

pub const SYS_WRITE: u64 = 0;

pub const SYS_READCHAR: u64 = 1;

pub const SYS_EXIT: u64 = 2;

pub const SYS_UPTIME: u64 = 3;

pub const SYS_GETPID: u64 = 4;

pub const SYS_YIELD: u64 = 5;

pub const SYS_SLEEP: u64 = 6;

pub const SYS_WAIT: u64 = 7;

pub const SYS_KILL: u64 = 8;

pub const SYS_SIGACTION: u64 = 9;

pub const SYS_SIGRETURN: u64 = 10;

pub const SYS_CHAN_OPEN: u64 = 11;

pub const SYS_CHAN_SEND: u64 = 12;

pub const SYS_CHAN_RECV: u64 = 13;

pub const SYS_FORK: u64 = 14;

pub const SYS_CLONE: u64 = 15;

pub const SYS_TEXIT: u64 = 16;

pub const SYS_JOIN: u64 = 17;

pub const SYS_SET_FS: u64 = 18;

pub const SYS_NET_BIND: u64 = 19;

pub const SYS_NET_SENDTO: u64 = 20;

pub const SYS_NET_RECVFROM: u64 = 21;

pub const SYS_NET_CLOSE: u64 = 22;

pub const SYS_NET_INFO: u64 = 23;

/// The most that one write prints.
pub const MAX_WRITE: usize = 8192;

/// The result of a call that fails.
pub const FAIL: u64 = 0xFFFF_FFFF_FFFF_FFFF;

// ---------------------------------------------------------------------------
// Printing
// ---------------------------------------------------------------------------
/// How a byte is printed: as it is if it is printable, a blank or a line end,
/// a tab as a blank, and anything else as a dot.
pub open spec fn shown(b: u8) -> char {
    if (0x21 <= b && b <= 0x7E) || b == 0x20 || b == 0x0A {
        b as char
    } else if b == 0x09 {
        ' '
    } else {
        '\u{B7}'
    }
}

pub open spec fn shown_text(b: Seq<u8>) -> Seq<char> {
    b.map_values(|x: u8| shown(x))
}

/// How many of the `n` bytes at `va` come before the first that is not
/// mapped; the `i` before are.
pub open spec fn mapped_run(m: MemV, pml4: u64, va: u64, n: int, i: int) -> int
    decreases n - i,
{
    if i >= n || crate::mem::vmm::translate_spec(m, pml4, crate::user::uaccess::user_at(va, i)) is None {
        i
    } else {
        mapped_run(m, pml4, va, n, i + 1)
    }
}

pub open spec fn write_len(len: u64) -> int {
    if len < MAX_WRITE {
        len as int
    } else {
        MAX_WRITE as int
    }
}

/// What a write prints.
pub open spec fn write_text(m: MemV, cr3: u64, va: u64, len: u64) -> Seq<char> {
    let pml4 = crate::mem::vmm::frame_of(cr3);
    shown_text(
        crate::user::uaccess::user_bytes(m, pml4, va, mapped_run(m, pml4, va, write_len(len), 0)),
    )
}

fn show(b: u8) -> (c: char)
    ensures
        c == shown(b),
{
    if (b >= 0x21 && b <= 0x7E) || b == 0x20 || b == 0x0A {
        latin1(b)
    } else if b == 0x09 {
        ' '
    } else {
        '\u{B7}'
    }
}

/// Prints user memory; stops at the first byte that is not mapped.
fn sys_write(m: &Memory, cr3: u64, uptr: u64, len: u64) -> (r: String)
    requires
        m.wf(),
    ensures
        r@ == write_text(m@, cr3, uptr, len),
        r@.len() <= MAX_WRITE,
{
    let n: usize = if len < MAX_WRITE as u64 {
        len as usize
    } else {
        MAX_WRITE
    };
    let space = AddressSpace::from_pml4(cr3);
    let ghost pml4 = crate::mem::vmm::frame_of(cr3);
    let mut s: String = String::new();
    let mut va: u64 = uptr;
    let mut i: usize = 0;
    assert(s@ =~= shown_text(crate::user::uaccess::user_bytes(m@, pml4, uptr, 0)));
    while i < n
        invariant
            i <= n <= MAX_WRITE,
            n == write_len(len),
            m.wf(),
            space.pml4 == pml4,
            pml4 == crate::mem::vmm::frame_of(cr3),
            va == crate::user::uaccess::user_at(uptr, i as int),
            s@ == shown_text(crate::user::uaccess::user_bytes(m@, pml4, uptr, i as int)),
            mapped_run(m@, pml4, uptr, n as int, i as int) == mapped_run(m@, pml4, uptr, n as int, 0),
        decreases n - i,
    {
        match space.translate(m, va) {
            None => {
                return s;
            },
            Some(pa) => {
                push_char(&mut s, show(m.ram.byte(pa)));
            },
        }
        va = va.wrapping_add(1);
        i = i + 1;
        assert(s@ =~= shown_text(crate::user::uaccess::user_bytes(m@, pml4, uptr, i as int)));
    }
    s
}

// ---------------------------------------------------------------------------
// Channels
// ---------------------------------------------------------------------------
/// The task of `cpu` parked in a state, with a switch asked for.
pub open spec fn parked_in(k: KernelV, cpu: int, st: State) -> KernelV {
    let me = k.slot(cpu);
    KernelV {
        sched: k.sched.with_task(me, TaskV { state: st, ..k.sched.tasks[me] }),
        smp: crate::cpu::smp::asked(k.smp, cpu),
        ..k
    }
}

/// What the outcome of a channel call leaves: the caller parked, or a waiter
/// woken.
pub open spec fn chan_outcome(k: KernelV, cpu: int, o: Outcome) -> KernelV {
    if o.park {
        parked_in(k, cpu, State::BlockedChan)
    } else {
        KernelV { sched: crate::sched::switch::waiter_woken(k.sched, o.wake, State::BlockedChan), ..k }
    }
}

pub open spec fn cut_len(len: u64, max: int) -> int {
    if len < max {
        len as int
    } else {
        max
    }
}

pub open spec fn chan_send_spec(k: KernelV, cpu: int, cr3: u64, id: u64, va: u64, len: u64) -> (KernelV, i64) {
    let pml4 = crate::mem::vmm::frame_of(cr3);
    let n = cut_len(len, MAXMSG as int);
    if id >= NCHANS {
        (k, (-1) as i64)
    } else if n == 0 {
        (k, 0)
    } else if !crate::user::uaccess::readable(k.mem, pml4, va, n) {
        (k, (-1) as i64)
    } else {
        let (t, o) = crate::ipc::send_spec(
            k.chans,
            id,
            crate::user::uaccess::user_bytes(k.mem, pml4, va, n),
            k.slot(cpu) as u16,
        );
        (chan_outcome(KernelV { chans: t, ..k }, cpu, o), o.ret)
    }
}

pub open spec fn chan_recv_spec(k: KernelV, cpu: int, cr3: u64, id: u64, va: u64, len: u64) -> (KernelV, i64) {
    let (t, r) = crate::ipc::recv_spec(k.chans, id, len, k.slot(cpu) as u16);
    let k1 = KernelV { chans: t, ..k };
    match r {
        RecvV::Ret(o) => (chan_outcome(k1, cpu, o), o.ret),
        RecvV::Data(d) => {
            let (m, ok) = crate::user::uaccess::written(k.mem, crate::mem::vmm::frame_of(cr3), va, d, 0);
            let k2 = KernelV { mem: m, ..k1 };
            if !ok {
                (k2, (-1) as i64)
            } else {
                let c = t[id as int];
                (
                    KernelV {
                        chans: t.update(id as int, ChanV { wait_send: 0, ..c }),
                        sched: crate::sched::switch::waiter_woken(k.sched, c.wait_send, State::BlockedChan),
                        ..k2
                    },
                    d.len() as i64,
                )
            }
        },
    }
}

fn after_chan(k: &mut Kernel, cpu: usize, o: Outcome)
    requires
        old(k).runs_on(cpu),
    ensures
        final(k).runs_on(cpu),
        final(k)@ == chan_outcome(old(k)@, cpu as int, o),
{
    if o.park {
        mark_blocked_chan(&mut k.sched, &k.smp, cpu);
        crate::cpu::smp::request_switch(&mut k.smp, cpu);
    } else {
        wake_chan_waiter(&mut k.sched, o.wake);
    }
}

fn chan_send(k: &mut Kernel, cpu: usize, cr3: u64, id: u64, va: u64, len: u64) -> (r: i64)
    requires
        old(k).runs_on(cpu),
    ensures
        final(k).runs_on(cpu),
        (final(k)@, r) == chan_send_spec(old(k)@, cpu as int, cr3, id, va, len),
{
    if id >= NCHANS as u64 {
        return -1;
    }
    let n: usize = if len < MAXMSG as u64 {
        len as usize
    } else {
        MAXMSG
    };
    if n == 0 {
        return 0;
    }
    let space = AddressSpace::from_pml4(cr3);
    let data: Vec<u8> = match read_user_bytes(&k.mem, &space, va, n) {
        Err(_) => {
            return -1;
        },
        Ok(v) => v,
    };
    let slot: u16 = k.smp.cpus[cpu].current as u16;
    let o = crate::ipc::send(&mut k.chans, id, data.as_slice(), slot);
    after_chan(k, cpu, o);
    o.ret
}

fn chan_recv(k: &mut Kernel, cpu: usize, cr3: u64, id: u64, va: u64, len: u64) -> (r: i64)
    requires
        old(k).runs_on(cpu),
    ensures
        final(k).runs_on(cpu),
        (final(k)@, r) == chan_recv_spec(old(k)@, cpu as int, cr3, id, va, len),
{
    let slot: u16 = k.smp.cpus[cpu].current as u16;
    let got = crate::ipc::recv(&mut k.chans, id, len, slot);
    match got {
        Recv::Ret(o) => {
            after_chan(k, cpu, o);
            o.ret
        },
        Recv::Data(d) => {
            let space = AddressSpace::from_pml4(cr3);
            match write_user_bytes(&mut k.mem, &space, va, d.as_slice()) {
                Err(_) => -1,
                Ok(_) => {
                    let w: u16 = recv_delivered(&mut k.chans, id);
                    wake_chan_waiter(&mut k.sched, w);
                    d.len() as i64
                },
            }
        },
    }
}

// ---------------------------------------------------------------------------
// Sockets
// ---------------------------------------------------------------------------
/// A datagram that has to go out; the call's result is the answer to that.
pub struct Wire {
    pub dst_ip: u32,
    pub dst_port: u16,
    pub src_port: u16,
    pub data: Vec<u8>,
}

pub struct WireV {
    pub dst_ip: u32,
    pub dst_port: u16,
    pub src_port: u16,
    pub data: Seq<u8>,
}

impl Wire {
    pub open spec fn view(&self) -> WireV {
        WireV { dst_ip: self.dst_ip, dst_port: self.dst_port, src_port: self.src_port, data: self.data@ }
    }
}

pub open spec fn wire_view(w: Option<Wire>) -> Option<WireV> {
    match w {
        None => None,
        Some(x) => Some(x@),
    }
}

/// A send: the kernel, the result, and the datagram that has to go out.
pub open spec fn sendto_call_spec(
    k: KernelV,
    cpu: int,
    cr3: u64,
    id: u64,
    dst_ip: u32,
    dst_port: u16,
    va: u64,
    len: u64,
) -> (KernelV, i64, Option<WireV>) {
    let pml4 = crate::mem::vmm::frame_of(cr3);
    let n = cut_len(len, DGRAM_MAX as int);
    if id >= NSOCK {
        (k, (-1) as i64, None)
    } else if n == 0 {
        (k, 0, None)
    } else if !crate::user::uaccess::readable(k.mem, pml4, va, n) {
        (k, (-1) as i64, None)
    } else {
        let data = crate::user::uaccess::user_bytes(k.mem, pml4, va, n);
        let (t, r) = crate::net::sock::sendto_spec(k.net.udp, id, dst_ip, dst_port, data, k.slot(cpu) as u16);
        let k1 = KernelV { net: NetV { udp: t, ..k.net }, ..k };
        match r {
            SendTo::Ret(x) => (k1, x, None),
            SendTo::Local { ret, wake } => (
                KernelV { sched: crate::sched::switch::waiter_woken(k.sched, wake, State::BlockedSock), ..k1 },
                ret,
                None,
            ),
            SendTo::Wire { src_port } => (k1, 0, Some(WireV { dst_ip, dst_port, src_port, data })),
            SendTo::Park => (parked_in(k1, cpu, State::BlockedSock), (-2) as i64, None),
        }
    }
}

pub open spec fn recvfrom_call_spec(k: KernelV, cpu: int, cr3: u64, id: u64, va: u64, len: u64, out: u64) -> (
    KernelV,
    i64,
) {
    let pml4 = crate::mem::vmm::frame_of(cr3);
    let (t, r) = crate::net::sock::recvfrom_spec(k.net.udp, id, len, k.slot(cpu) as u16);
    let k1 = KernelV { net: NetV { udp: t, ..k.net }, ..k };
    match r {
        RecvFromV::Ret(x) => (k1, x as i64),
        RecvFromV::Park => (parked_in(k1, cpu, State::BlockedSock), (-2) as i64),
        RecvFromV::Data(d, wake) => {
            let k2 = KernelV {
                sched: crate::sched::switch::waiter_woken(k.sched, wake, State::BlockedSock),
                ..k1
            };
            let (m, ok) = crate::user::uaccess::written(k.mem, pml4, va, d.data, 0);
            if !ok {
                (KernelV { mem: m, ..k2 }, (-1) as i64)
            } else if out == 0 {
                (KernelV { mem: m, ..k2 }, d.data.len() as i64)
            } else {
                let meta = crate::bytes::be4(d.src_ip) + crate::bytes::be2(d.src_port);
                (
                    KernelV { mem: crate::user::uaccess::written(m, pml4, out, meta, 0).0, ..k2 },
                    d.data.len() as i64,
                )
            }
        },
    }
}

fn sendto_call(k: &mut Kernel, cpu: usize, cr3: u64, id: u64, dst_ip: u32, dst_port: u16, va: u64, len: u64) -> (r: (
    i64,
    Option<Wire>,
))
    requires
        old(k).runs_on(cpu),
    ensures
        final(k).runs_on(cpu),
        (final(k)@, r.0, wire_view(r.1)) == sendto_call_spec(
            old(k)@,
            cpu as int,
            cr3,
            id,
            dst_ip,
            dst_port,
            va,
            len,
        ),
{
    if id >= NSOCK as u64 {
        return (-1, None);
    }
    let n: usize = if len < DGRAM_MAX as u64 {
        len as usize
    } else {
        DGRAM_MAX
    };
    if n == 0 {
        return (0, None);
    }
    let space = AddressSpace::from_pml4(cr3);
    let data: Vec<u8> = match read_user_bytes(&k.mem, &space, va, n) {
        Err(_) => {
            return (-1, None);
        },
        Ok(v) => v,
    };
    let slot: u16 = k.smp.cpus[cpu].current as u16;
    match crate::net::sock::sendto(&mut k.net.udp, id, dst_ip, dst_port, data.as_slice(), slot) {
        SendTo::Ret(x) => (x, None),
        SendTo::Local { ret, wake } => {
            wake_sock_waiter(&mut k.sched, wake);
            (ret, None)
        },
        SendTo::Wire { src_port } => (0, Some(Wire { dst_ip, dst_port, src_port, data })),
        SendTo::Park => {
            mark_blocked_sock(&mut k.sched, &k.smp, cpu);
            crate::cpu::smp::request_switch(&mut k.smp, cpu);
            (-2, None)
        },
    }
}

fn recvfrom_call(k: &mut Kernel, cpu: usize, cr3: u64, id: u64, va: u64, len: u64, out: u64) -> (r: i64)
    requires
        old(k).runs_on(cpu),
    ensures
        final(k).runs_on(cpu),
        (final(k)@, r) == recvfrom_call_spec(old(k)@, cpu as int, cr3, id, va, len, out),
{
    let slot: u16 = k.smp.cpus[cpu].current as u16;
    match crate::net::sock::recvfrom(&mut k.net.udp, id, len, slot) {
        RecvFrom::Ret(x) => x,
        RecvFrom::Park => {
            mark_blocked_sock(&mut k.sched, &k.smp, cpu);
            crate::cpu::smp::request_switch(&mut k.smp, cpu);
            -2
        },
        RecvFrom::Data(d, wake) => {
            wake_sock_waiter(&mut k.sched, wake);
            let space = AddressSpace::from_pml4(cr3);
            match write_user_bytes(&mut k.mem, &space, va, d.data.as_slice()) {
                Err(_) => -1,
                Ok(_) => {
                    if out != 0 {
                        let meta: Vec<u8> = source_meta(d.src_ip, d.src_port);
                        let _r = write_user_bytes(&mut k.mem, &space, out, meta.as_slice());
                    }
                    d.data.len() as i64
                },
            }
        },
    }
}

// ---------------------------------------------------------------------------
// The call
// ---------------------------------------------------------------------------
/// A task that ended: its pid, the threads that ended with it, and whether it
/// was a whole process. Its windows and files are to be closed.
pub struct Ended {
    pub pid: u64,
    pub swept: Vec<u64>,
    pub process: bool,
}

pub struct EndedV {
    pub pid: u64,
    pub swept: Seq<u64>,
    pub process: bool,
}

/// What a call leaves to do: text to print, a task that ended, pages whose
/// translations must be dropped everywhere, a datagram to send.
pub struct Effects {
    pub out: Vec<Out>,
    pub ended: Option<Ended>,
    pub stale: Vec<u64>,
    pub wire: Option<Wire>,
}

pub struct EffectsV {
    pub out: Seq<OutV>,
    pub ended: Option<EndedV>,
    pub stale: Seq<u64>,
    pub wire: Option<WireV>,
}

pub open spec fn ended_view(e: Option<Ended>) -> Option<EndedV> {
    match e {
        None => None,
        Some(x) => Some(EndedV { pid: x.pid, swept: x.swept@, process: x.process }),
    }
}

impl Effects {
    pub open spec fn view(&self) -> EffectsV {
        EffectsV {
            out: crate::console::outs(self.out@),
            ended: ended_view(self.ended),
            stale: self.stale@,
            wire: wire_view(self.wire),
        }
    }
}

pub open spec fn no_effects() -> EffectsV {
    EffectsV { out: Seq::empty(), ended: None, stale: Seq::empty(), wire: None }
}

/// The frame with a result.
pub open spec fn answer(r: Regs, rax: u64) -> Regs {
    Regs { rax, ..r }
}

/// The calls that only ask or wait.
pub open spec fn plain_call(k: KernelV, cpu: int, now: u64, r: Regs) -> (KernelV, Regs) {
    let me = k.slot(cpu);
    if r.rax == SYS_READCHAR {
        if k.keys.queue.len() > 0 {
            (
                KernelV { keys: KeyV { queue: k.keys.queue.skip(1), ..k.keys }, ..k },
                answer(r, k.keys.queue[0] as u64),
            )
        } else {
            (parked_in(k, cpu, State::BlockedInput), answer(r, FAIL))
        }
    } else if r.rax == SYS_UPTIME {
        (k, answer(r, now))
    } else if r.rax == SYS_GETPID {
        (k, answer(r, crate::sched::current_pid_spec(k.sched, k.smp.cpus, cpu)))
    } else if r.rax == SYS_YIELD {
        (KernelV { smp: crate::cpu::smp::asked(k.smp, cpu), ..k }, r)
    } else if r.rax == SYS_SLEEP {
        (
            KernelV {
                sched: k.sched.with_task(
                    me,
                    TaskV {
                        wake_at_ms: now.wrapping_add(r.rdi),
                        state: State::Sleeping,
                        ..k.sched.tasks[me]
                    },
                ),
                smp: crate::cpu::smp::asked(k.smp, cpu),
                ..k
            },
            answer(r, 0),
        )
    } else {
        (
            k,
            answer(
                r,
                if r.rdi == 0 {
                    OUR_IP as u64
                } else if r.rdi == 1 {
                    GW_IP as u64
                } else {
                    FAIL
                },
            ),
        )
    }
}

pub open spec fn is_plain(n: u64) -> bool {
    n == SYS_READCHAR || n == SYS_UPTIME || n == SYS_GETPID || n == SYS_YIELD || n == SYS_SLEEP || n == SYS_NET_INFO
}

/// The calls on signals.
pub open spec fn signal_call(k: KernelV, cpu: int, cr3: u64, r: Regs) -> (KernelV, Regs) {
    let me = k.slot(cpu);
    let t = k.sched.tasks[me];
    if r.rax == SYS_KILL {
        let (s, x) = crate::sched::switch::send_signal_spec(k.sched, k.smp.cpus, cpu, r.rdi, r.rsi);
        (
            KernelV { sched: s, ..k },
            answer(
                r,
                if x is Ok {
                    0
                } else {
                    FAIL
                },
            ),
        )
    } else if r.rax == SYS_SIGACTION {
        if !crate::user::signal::is_catchable(r.rdi) || !t.is_user {
            (k, answer(r, FAIL))
        } else {
            (
                KernelV {
                    sched: k.sched.with_task(
                        me,
                        TaskV { sig_handlers: t.sig_handlers.update(r.rdi as int, r.rsi), ..t },
                    ),
                    ..k
                },
                answer(r, t.sig_handlers[r.rdi as int] as i64 as u64),
            )
        }
    } else {
        match crate::user::signal::sigreturn_spec(t, k.mem, cr3, r) {
            None => (k, answer(r, FAIL)),
            Some((u, g)) => (KernelV { sched: k.sched.with_task(me, u), ..k }, g),
        }
    }
}

pub open spec fn is_signal(n: u64) -> bool {
    n == SYS_KILL || n == SYS_SIGACTION || n == SYS_SIGRETURN
}

/// The calls on processes and threads.
pub open spec fn process_call(k: KernelV, cpu: int, cr3: u64, r: Regs) -> (KernelV, Regs, EffectsV) {
    let me = k.slot(cpu);
    let asked = crate::cpu::smp::asked(k.smp, cpu);
    if r.rax == SYS_EXIT {
        let (s, m, swept) = crate::sched::process::exit_spec(k.sched, k.mem, me, r.rdi as i64);
        (
            KernelV { sched: s, mem: m, smp: asked, ..k },
            r,
            EffectsV { ended: Some(EndedV { pid: s.tasks[me].pid, swept, process: true }), ..no_effects() },
        )
    } else if r.rax == SYS_TEXIT {
        let (s, m, swept) = crate::sched::process::texit_spec(k.sched, k.mem, me, r.rdi as i64);
        (
            KernelV { sched: s, mem: m, smp: asked, ..k },
            r,
            EffectsV {
                ended: Some(
                    EndedV {
                        pid: s.tasks[me].pid,
                        swept,
                        process: k.sched.tasks[me].pid == k.sched.tasks[me].tgid,
                    },
                ),
                ..no_effects()
            },
        )
    } else if r.rax == SYS_WAIT {
        let (s, p, g) = crate::sched::process::wait_spec(k.sched, k.smp, cpu, r, r.rdi);
        (KernelV { sched: s, smp: p, ..k }, g, no_effects())
    } else if r.rax == SYS_JOIN {
        let (s, m, p, g) = crate::sched::process::join_spec(k.sched, k.mem, k.smp, cpu, r, r.rdi);
        (KernelV { sched: s, mem: m, smp: p, ..k }, g, no_effects())
    } else if r.rax == SYS_FORK {
        let (s, m, x, stale) = crate::sched::process::sys_fork_spec(k.sched, k.mem, k.smp.cpus, cpu, cr3, r);
        (
            KernelV { sched: s, mem: m, ..k },
            answer(r, x as u64),
            EffectsV { stale, ..no_effects() },
        )
    } else if r.rax == SYS_CLONE {
        let (s, m, x) = crate::sched::process::sys_clone_spec(k.sched, k.mem, k.smp.cpus, cpu, r);
        (KernelV { sched: s, mem: m, ..k }, answer(r, x as u64), no_effects())
    } else {
        let t = k.sched.tasks[me];
        if r.rdi >= crate::sched::USER_HALF_LIMIT || !t.is_user {
            (k, answer(r, FAIL), no_effects())
        } else {
            (
                KernelV { sched: k.sched.with_task(me, TaskV { fs_base: r.rdi, ..t }), ..k },
                answer(r, 0),
                no_effects(),
            )
        }
    }
}

pub open spec fn is_process(n: u64) -> bool {
    n == SYS_EXIT || n == SYS_TEXIT || n == SYS_WAIT || n == SYS_JOIN || n == SYS_FORK || n == SYS_CLONE || n == SYS_SET_FS
}

/// The calls on channels and sockets.
pub open spec fn message_call(k: KernelV, cpu: int, cr3: u64, r: Regs) -> (KernelV, Regs, EffectsV) {
    if r.rax == SYS_CHAN_OPEN {
        let (t, x) = crate::ipc::open_spec(k.chans, r.rdi);
        (KernelV { chans: t, ..k }, answer(r, x as i64 as u64), no_effects())
    } else if r.rax == SYS_CHAN_SEND {
        let (k1, x) = chan_send_spec(k, cpu, cr3, r.rdi, r.rsi, r.rdx);
        (k1, answer(r, x as u64), no_effects())
    } else if r.rax == SYS_CHAN_RECV {
        let (k1, x) = chan_recv_spec(k, cpu, cr3, r.rdi, r.rsi, r.rdx);
        (k1, answer(r, x as u64), no_effects())
    } else if r.rax == SYS_NET_BIND {
        let (t, x) = crate::net::sock::bind_spec(k.net.udp, r.rdi as u16);
        (KernelV { net: NetV { udp: t, ..k.net }, ..k }, answer(r, x as i64 as u64), no_effects())
    } else if r.rax == SYS_NET_SENDTO {
        let (k1, x, w) = sendto_call_spec(k, cpu, cr3, r.rdi, r.rsi as u32, r.rdx as u16, r.rcx, r.r8);
        (k1, answer(r, x as u64), EffectsV { wire: w, ..no_effects() })
    } else if r.rax == SYS_NET_RECVFROM {
        let (k1, x) = recvfrom_call_spec(k, cpu, cr3, r.rdi, r.rsi, r.rdx, r.rcx);
        (k1, answer(r, x as u64), no_effects())
    } else {
        let (t, x) = crate::net::sock::close_spec(k.net.udp, r.rdi);
        (KernelV { net: NetV { udp: t, ..k.net }, ..k }, answer(r, x as i64 as u64), no_effects())
    }
}

pub open spec fn is_message(n: u64) -> bool {
    (SYS_CHAN_OPEN <= n && n <= SYS_CHAN_RECV) || (SYS_NET_BIND <= n && n <= SYS_NET_CLOSE)
}

/// What a call does, by its number; one that does not exist fails.
pub open spec fn call_spec(k: KernelV, cpu: int, cr3: u64, now: u64, r: Regs) -> (KernelV, Regs, EffectsV) {
    if r.rax == SYS_WRITE {
        let t = write_text(k.mem, cr3, r.rdi, r.rsi);
        (
            k,
            answer(r, t.len() as u64),
            EffectsV {
                out: if r.rsi == 0 {
                    Seq::empty()
                } else {
                    seq![crate::console::plain(t)]
                },
                ..no_effects()
            },
        )
    } else if is_plain(r.rax) {
        let (k1, g) = plain_call(k, cpu, now, r);
        (k1, g, no_effects())
    } else if is_signal(r.rax) {
        let (k1, g) = signal_call(k, cpu, cr3, r);
        (k1, g, no_effects())
    } else if is_process(r.rax) {
        process_call(k, cpu, cr3, r)
    } else if is_message(r.rax) {
        message_call(k, cpu, cr3, r)
    } else {
        (k, answer(r, FAIL), no_effects())
    }
}

fn no_effect() -> (e: Effects)
    ensures
        e@ == no_effects(),
{
    let e = Effects { out: nothing(), ended: None, stale: Vec::new(), wire: None };
    assert(e@.stale =~= Seq::<u64>::empty());
    e
}

fn do_plain(k: &mut Kernel, cpu: usize, now: u64, regs: &mut Regs)
    requires
        old(k).runs_on(cpu),
        is_plain(old(regs).rax),
    ensures
        final(k).runs_on(cpu),
        (final(k)@, *final(regs)) == plain_call(old(k)@, cpu as int, now, *old(regs)),
{
    let n: u64 = regs.rax;
    if n == SYS_READCHAR {
        match keyboard::pop(&mut k.keys) {
            Some(c) => {
                regs.rax = c as u64;
            },
            None => {
                regs.rax = FAIL;
                sys_block_on_input(&mut k.sched, &mut k.smp, cpu);
            },
        }
    } else if n == SYS_UPTIME {
        regs.rax = now;
    } else if n == SYS_GETPID {
        regs.rax = crate::sched::current_pid(&k.sched, &k.smp, cpu);
    } else if n == SYS_YIELD {
        sys_yield_now(&mut k.smp, cpu);
    } else if n == SYS_SLEEP {
        sys_sleep(&mut k.sched, &mut k.smp, cpu, now, regs.rdi);
        regs.rax = 0;
    } else {
        regs.rax = if regs.rdi == 0 {
            OUR_IP as u64
        } else if regs.rdi == 1 {
            GW_IP as u64
        } else {
            FAIL
        };
    }
}

fn do_signal(k: &mut Kernel, cpu: usize, cr3: u64, regs: &mut Regs)
    requires
        old(k).runs_on(cpu),
        is_signal(old(regs).rax),
    ensures
        final(k).runs_on(cpu),
        (final(k)@, *final(regs)) == signal_call(old(k)@, cpu as int, cr3, *old(regs)),
{
    let n: u64 = regs.rax;
    if n == SYS_KILL {
        regs.rax = match send_signal(&mut k.sched, &k.smp, cpu, regs.rdi, regs.rsi) {
            Ok(_) => 0,
            Err(_) => FAIL,
        };
    } else if n == SYS_SIGACTION {
        let x: i64 = sig_set_handler_current(&mut k.sched, &k.smp, cpu, regs.rdi, regs.rsi);
        proof {
            lemma_minus_one();
        }
        regs.rax = x as u64;
    } else {
        if sys_sigreturn(&mut k.sched, &k.mem, &k.smp, cpu, cr3, regs) < 0 {
            regs.rax = FAIL;
        }
    }
}

fn do_process(k: &mut Kernel, cpu: usize, cr3: u64, regs: &mut Regs) -> (e: Effects)
    requires
        old(k).runs_on(cpu),
        is_process(old(regs).rax),
    ensures
        final(k).wf(),
        (final(k)@, *final(regs), e@) == process_call(old(k)@, cpu as int, cr3, *old(regs)),
{
    let n: u64 = regs.rax;
    let mut e = no_effect();
    if n == SYS_EXIT {
        let (pid, swept) = exit_current(&mut k.sched, &mut k.mem, &mut k.smp, cpu, regs.rdi as i64);
        e.ended = Some(Ended { pid, swept, process: true });
    } else if n == SYS_TEXIT {
        let (pid, swept, process) = sys_texit_current(&mut k.sched, &mut k.mem, &mut k.smp, cpu, regs.rdi as i64);
        e.ended = Some(Ended { pid, swept, process });
    } else if n == SYS_WAIT {
        let target: u64 = regs.rdi;
        sys_wait(&mut k.sched, &mut k.smp, cpu, regs, target);
    } else if n == SYS_JOIN {
        let target: u64 = regs.rdi;
        sys_join(&mut k.sched, &mut k.mem, &mut k.smp, cpu, regs, target);
    } else if n == SYS_FORK {
        let (x, stale) = sys_fork(&mut k.sched, &mut k.mem, &k.smp, cpu, cr3, regs);
        regs.rax = x as u64;
        e.stale = stale;
    } else if n == SYS_CLONE {
        let x: i64 = sys_clone(&mut k.sched, &mut k.mem, &k.smp, cpu, regs);
        regs.rax = x as u64;
    } else {
        let x: i64 = sys_set_fs_current(&mut k.sched, &k.smp, cpu, regs.rdi);
        proof {
            lemma_minus_one();
        }
        regs.rax = x as u64;
    }
    e
}

fn do_message(k: &mut Kernel, cpu: usize, cr3: u64, regs: &mut Regs) -> (e: Effects)
    requires
        old(k).runs_on(cpu),
        is_message(old(regs).rax),
    ensures
        final(k).runs_on(cpu),
        (final(k)@, *final(regs), e@) == message_call(old(k)@, cpu as int, cr3, *old(regs)),
{
    let n: u64 = regs.rax;
    let mut e = no_effect();
    let x: i64 = if n == SYS_CHAN_OPEN {
        crate::ipc::open(&mut k.chans, regs.rdi)
    } else if n == SYS_CHAN_SEND {
        chan_send(k, cpu, cr3, regs.rdi, regs.rsi, regs.rdx)
    } else if n == SYS_CHAN_RECV {
        chan_recv(k, cpu, cr3, regs.rdi, regs.rsi, regs.rdx)
    } else if n == SYS_NET_BIND {
        crate::net::sock::bind(&mut k.net.udp, regs.rdi as u16)
    } else if n == SYS_NET_SENDTO {
        let (x, w) = sendto_call(k, cpu, cr3, regs.rdi, regs.rsi as u32, regs.rdx as u16, regs.rcx, regs.r8);
        e.wire = w;
        x
    } else if n == SYS_NET_RECVFROM {
        recvfrom_call(k, cpu, cr3, regs.rdi, regs.rsi, regs.rdx, regs.rcx)
    } else {
        crate::net::sock::close(&mut k.net.udp, regs.rdi)
    };
    regs.rax = x as u64;
    e
}

/// Serves a system call of the task that runs on `cpu`. `cr3` is the caller's
/// address space and `now` the uptime. Where a datagram has to go out, the
/// result of the call is that of the transmission.
pub fn dispatch(k: &mut Kernel, cpu: usize, cr3: u64, now: u64, regs: &mut Regs) -> (e: Effects)
    requires
        old(k).runs_on(cpu),
    ensures
        final(k).wf(),
        (final(k)@, *final(regs), e@) == call_spec(old(k)@, cpu as int, cr3, now, *old(regs)),
{
    let n: u64 = regs.rax;
    if n == SYS_WRITE {
        let mut e = no_effect();
        let t: String = sys_write(&k.mem, cr3, regs.rdi, regs.rsi);
        let len: usize = crate::text::chars_of(t.as_str()).len();
        if regs.rsi != 0 {
            say(&mut e.out, t);
        }
        assert(e@.out =~= call_spec(old(k)@, cpu as int, cr3, now, *old(regs)).2.out);
        regs.rax = len as u64;
        return e;
    }
    if n == SYS_READCHAR || n == SYS_UPTIME || n == SYS_GETPID || n == SYS_YIELD || n == SYS_SLEEP || n == SYS_NET_INFO {
        do_plain(k, cpu, now, regs);
        return no_effect();
    }
    if n == SYS_KILL || n == SYS_SIGACTION || n == SYS_SIGRETURN {
        do_signal(k, cpu, cr3, regs);
        return no_effect();
    }
    if n == SYS_EXIT || n == SYS_TEXIT || n == SYS_WAIT || n == SYS_JOIN || n == SYS_FORK || n == SYS_CLONE || n
        == SYS_SET_FS {
        return do_process(k, cpu, cr3, regs);
    }
    if (n >= SYS_CHAN_OPEN && n <= SYS_CHAN_RECV) || (n >= SYS_NET_BIND && n <= SYS_NET_CLOSE) {
        return do_message(k, cpu, cr3, regs);
    }
    regs.rax = FAIL;
    no_effect()
}

/// A send over loopback to a socket whose queue is full parks the caller and
/// sends nothing; whoever next receives on that socket wakes it again.
pub proof fn law_sender_waits_for_room(
    k: KernelV,
    cpu: int,
    cr3: u64,
    from: u64,
    to: u64,
    va: u64,
    len: u64,
    cpu2: int,
    cr3_2: u64,
    va_2: u64,
    len_2: u64,
    out: u64,
)
    requires
        k.sched.tasks.len() == crate::sched::MAX_TASKS,
        0 <= k.slot(cpu) < crate::sched::MAX_TASKS,
        k.net.udp.len() == NSOCK,
        from < NSOCK,
        to < NSOCK,
        k.net.udp[from as int].used,
        crate::seqs::first(k.net.udp, crate::net::sock::bound_to(k.net.udp[to as int].port)) == Some(to as int),
        k.net.udp[to as int].queue.len() == crate::net::sock::QUEUE_DEPTH,
        len > 0,
        crate::user::uaccess::readable(
            k.mem,
            crate::mem::vmm::frame_of(cr3),
            va,
            cut_len(len, DGRAM_MAX as int),
        ),
        len_2 > 0,
    ensures
        ({
            let me = k.slot(cpu);
            let port = k.net.udp[to as int].port;
            let (k1, x, wire) = sendto_call_spec(k, cpu, cr3, from, crate::net::OUR_IP, port, va, len);
            let (k2, _) = recvfrom_call_spec(k1, cpu2, cr3_2, to, va_2, len_2, out);
            &&& x == crate::net::sock::WOULD_BLOCK
            &&& wire is None
            &&& k1.net.udp[to as int].queue == k.net.udp[to as int].queue
            &&& k1.sched.tasks[me].state == State::BlockedSock
            &&& k2.sched.tasks[me].state == State::Ready
        }),
{
    let pml4 = crate::mem::vmm::frame_of(cr3);
    let n = cut_len(len, DGRAM_MAX as int);
    let data = crate::user::uaccess::user_bytes(k.mem, pml4, va, n);
    let port = k.net.udp[to as int].port;
    let (k1, _, _) = sendto_call_spec(k, cpu, cr3, from, crate::net::OUR_IP, port, va, len);
    crate::net::sock::law_full_queue_parks_the_sender(
        k.net.udp,
        from,
        to,
        data,
        k.slot(cpu) as u16,
        len_2,
        k1.slot(cpu2) as u16,
    );
}

/// The failure of a call as a register holds it.
pub proof fn lemma_minus_one()
    ensures
        (-1i64) as u64 == 0xFFFF_FFFF_FFFF_FFFFu64,
{
    assert((-1i64) as u64 == 0xFFFF_FFFF_FFFF_FFFFu64) by (bit_vector);
}

/// A call that does not exist changes nothing and fails.
pub proof fn law_unknown_calls_fail(k: KernelV, cpu: int, cr3: u64, now: u64, r: Regs)
    requires
        r.rax > SYS_NET_INFO,
    ensures
        call_spec(k, cpu, cr3, now, r) == (k, answer(r, FAIL), no_effects()),
{
}

} // verus!
