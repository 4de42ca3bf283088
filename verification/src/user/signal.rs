//! Signals. A signal is a bit in a task's pending set and, if the task asked
//! for it, a handler. It is delivered when the task is about to be resumed:
//! a frame with the interrupted context goes onto the user stack, and the task
//! is resumed in the handler. The handler returns into a page that is mapped
//! in every address space and asks for the context back.

use vstd::prelude::*;

use crate::bytes::{get_le8, push_le8};
use crate::cpu::idt::Regs;
use crate::cpu::smp::Smp;
use crate::mem::frames;
use crate::mem::vmm::{AddressSpace, MemV, Memory};
use crate::sched::{Sched, Task, TaskV};
use crate::user::uaccess::{read_user_bytes, write_user_bytes};

verus! {

pub const SIGKILL: u64 = 9;

pub const SIGUSR1: u64 = 10;

pub const SIGUSR2: u64 = 12;

pub const SIGTERM: u64 = 15;

/// Signals are numbered below this.
pub const NSIG: usize = 16;

/// Signals that a task may handle: never the one that kills.
pub open spec fn is_catchable(sig: u64) -> bool {
    sig == SIGUSR1 || sig == SIGUSR2 || sig == SIGTERM
}

pub fn catchable(sig: u64) -> (r: bool)
    ensures
        r == is_catchable(sig),
{
    sig == SIGUSR1 || sig == SIGUSR2 || sig == SIGTERM
}

/// Where the return page is mapped.
pub const SIGTRAMP_VA: u64 = 0x0000_7FFF_F000;

/// The code of the return page: the system call that gives the context back,
/// then a halt.
pub open spec fn trampoline() -> Seq<u8> {
    seq![0xB8u8, 10, 0, 0, 0, 0xCD, 0x80, 0xF4, 0x90, 0x90]
}

/// Physical memory with the bytes of `b` from `i` on at `pa`.
pub open spec fn laid(ram: Map<u64, Seq<u64>>, pa: u64, b: Seq<u8>, i: int) -> Map<u64, Seq<u64>>
    decreases b.len() - i,
{
    if i < 0 || i >= b.len() {
        ram
    } else {
        laid(crate::mem::phys::with_byte_at(ram, (pa + i) as u64, b[i]), pa, b, i + 1)
    }
}

pub open spec fn map_trampoline_spec(m: MemV, pml4: u64) -> (MemV, Result<(), Seq<char>>) {
    let (f, got) = crate::mem::frames::alloc_spec(m.frames);
    match got {
        None => (MemV { frames: f, ..m }, Err("signal: no frame for trampoline"@)),
        Some(frame) => {
            let (m1, r) = crate::mem::vmm::map_spec(MemV { frames: f, ..m }, pml4, SIGTRAMP_VA, frame, 5);
            match r {
                Err(e) => (m1, Err(e)),
                Ok(_) => (MemV { ram: laid(m1.ram, frame, trampoline(), 0), ..m1 }, Ok(())),
            }
        },
    }
}

/// Maps the return page, executable for user code, into an address space.
pub fn map_trampoline(m: &mut Memory, space: &AddressSpace) -> (r: Result<(), &'static str>)
    requires
        old(m).wf(),
    ensures
        final(m).wf(),
        final(m)@ == map_trampoline_spec(old(m)@, space.pml4).0,
        crate::text::told(r, map_trampoline_spec(old(m)@, space.pml4).1),
{
    let frame: u64 = match frames::alloc_frame(&mut m.frames) {
        None => {
            return Err("signal: no frame for trampoline");
        },
        Some(f) => f,
    };
    proof {
        old(m).frames.lemma_wf();
        crate::mem::frames::law_alloc_hands_out_a_free_frame(old(m)@.frames);
    }
    match space.map(m, SIGTRAMP_VA, frame, 5) {
        Err(e) => {
            return Err(e);
        },
        Ok(_) => {},
    }
    let ghost m1 = m@;
    let code: [u8; 10] = [0xB8, 10, 0, 0, 0, 0xCD, 0x80, 0xF4, 0x90, 0x90];
    assert(code@ =~= trampoline());
    let mut i: usize = 0;
    while i < 10
        invariant
            i <= 10,
            m.wf(),
            frame <= 0x4000_0000,
            code@ == trampoline(),
            m@ == (MemV { ram: m@.ram, ..m1 }),
            laid(m@.ram, frame, trampoline(), i as int) == laid(m1.ram, frame, trampoline(), 0),
        decreases 10 - i,
    {
        m.ram.set_byte(frame + i as u64, code[i]);
        i = i + 1;
    }
    Ok(())
}

// ---------------------------------------------------------------------------
// The frame
// ---------------------------------------------------------------------------
/// The user context that a handler interrupts.
#[derive(Clone, Copy)]
pub struct UserCtx {
    pub r15: u64,
    pub r14: u64,
    pub r13: u64,
    pub r12: u64,
    pub r11: u64,
    pub r10: u64,
    pub r9: u64,
    pub r8: u64,
    pub rbp: u64,
    pub rdi: u64,
    pub rsi: u64,
    pub rdx: u64,
    pub rcx: u64,
    pub rbx: u64,
    pub rax: u64,
    pub rip: u64,
    pub rflags: u64,
    pub rsp: u64,
}

/// What goes onto the user stack before a handler runs. The stack pointer is
/// at its start, so that the handler's return goes to `restorer`.
pub struct SigFrame {
    pub restorer: u64,
    pub signum: u64,
    pub magic: u64,
    pub ctx: UserCtx,
}

pub const FRAME_MAGIC: u64 = 0x0000_5347_4652_3035;

/// Bytes of a signal frame.
pub const FRAME_SIZE: u64 = 168;

/// The words of a signal frame, in order.
pub open spec fn frame_words(f: SigFrame) -> Seq<u64> {
    let c = f.ctx;
    seq![
        f.restorer,
        f.signum,
        f.magic,
        c.r15,
        c.r14,
        c.r13,
        c.r12,
        c.r11,
        c.r10,
        c.r9,
        c.r8,
        c.rbp,
        c.rdi,
        c.rsi,
        c.rdx,
        c.rcx,
        c.rbx,
        c.rax,
        c.rip,
        c.rflags,
        c.rsp,
    ]
}

/// The first `n` words as bytes.
pub open spec fn words_bytes(w: Seq<u64>, n: int) -> Seq<u8>
    decreases n,
{
    if n <= 0 {
        Seq::empty()
    } else {
        words_bytes(w, n - 1) + crate::bytes::le8(w[n - 1])
    }
}

/// A signal frame as it lies in memory.
pub open spec fn frame_bytes(f: SigFrame) -> Seq<u8> {
    words_bytes(frame_words(f), 21)
}

/// The signal frame that lies in `b`.
pub open spec fn frame_in(b: Seq<u8>) -> SigFrame {
    SigFrame {
        restorer: crate::bytes::rd_le8(b, 0),
        signum: crate::bytes::rd_le8(b, 8),
        magic: crate::bytes::rd_le8(b, 16),
        ctx: UserCtx {
            r15: crate::bytes::rd_le8(b, 24),
            r14: crate::bytes::rd_le8(b, 32),
            r13: crate::bytes::rd_le8(b, 40),
            r12: crate::bytes::rd_le8(b, 48),
            r11: crate::bytes::rd_le8(b, 56),
            r10: crate::bytes::rd_le8(b, 64),
            r9: crate::bytes::rd_le8(b, 72),
            r8: crate::bytes::rd_le8(b, 80),
            rbp: crate::bytes::rd_le8(b, 88),
            rdi: crate::bytes::rd_le8(b, 96),
            rsi: crate::bytes::rd_le8(b, 104),
            rdx: crate::bytes::rd_le8(b, 112),
            rcx: crate::bytes::rd_le8(b, 120),
            rbx: crate::bytes::rd_le8(b, 128),
            rax: crate::bytes::rd_le8(b, 136),
            rip: crate::bytes::rd_le8(b, 144),
            rflags: crate::bytes::rd_le8(b, 152),
            rsp: crate::bytes::rd_le8(b, 160),
        },
    }
}

pub proof fn lemma_words(w: Seq<u64>, n: int, k: int)
    requires
        0 <= k < n <= w.len(),
    ensures
        words_bytes(w, n).len() == 8 * n,
        words_bytes(w, n).subrange(8 * k, 8 * k + 8) == crate::bytes::le8(w[k]),
    decreases n,
{
    let a = words_bytes(w, n - 1);
    lemma_words_len(w, n - 1);
    if k == n - 1 {
        assert(words_bytes(w, n).subrange(8 * k, 8 * k + 8) =~= crate::bytes::le8(w[k]));
    } else {
        lemma_words(w, n - 1, k);
        assert(words_bytes(w, n).subrange(8 * k, 8 * k + 8) =~= a.subrange(8 * k, 8 * k + 8));
    }
}

proof fn lemma_words_len(w: Seq<u64>, n: int)
    requires
        0 <= n <= w.len(),
    ensures
        words_bytes(w, n).len() == 8 * n,
    decreases n,
{
    if n > 0 {
        lemma_words_len(w, n - 1);
    }
}

proof fn lemma_word_back(f: SigFrame, k: int)
    requires
        0 <= k < 21,
    ensures
        crate::bytes::rd_le8(frame_bytes(f), 8 * k) == frame_words(f)[k],
{
    lemma_words(frame_words(f), 21, k);
    crate::bytes::lemma_le8_round(frame_bytes(f), 8 * k, frame_words(f)[k]);
}

/// A signal frame reads back as it was written.
pub proof fn law_frame_round_trip(f: SigFrame)
    ensures
        frame_in(frame_bytes(f)) == f,
        frame_bytes(f).len() == FRAME_SIZE,
{
    lemma_words_len(frame_words(f), 21);
    lemma_word_back(f, 0);
    lemma_word_back(f, 1);
    lemma_word_back(f, 2);
    lemma_word_back(f, 3);
    lemma_word_back(f, 4);
    lemma_word_back(f, 5);
    lemma_word_back(f, 6);
    lemma_word_back(f, 7);
    lemma_word_back(f, 8);
    lemma_word_back(f, 9);
    lemma_word_back(f, 10);
    lemma_word_back(f, 11);
    lemma_word_back(f, 12);
    lemma_word_back(f, 13);
    lemma_word_back(f, 14);
    lemma_word_back(f, 15);
    lemma_word_back(f, 16);
    lemma_word_back(f, 17);
    lemma_word_back(f, 18);
    lemma_word_back(f, 19);
    lemma_word_back(f, 20);
}

// ---------------------------------------------------------------------------
// Delivery
// ---------------------------------------------------------------------------
/// The context that a frame of registers holds.
pub open spec fn ctx_of(r: Regs) -> UserCtx {
    UserCtx {
        r15: r.r15,
        r14: r.r14,
        r13: r.r13,
        r12: r.r12,
        r11: r.r11,
        r10: r.r10,
        r9: r.r9,
        r8: r.r8,
        rbp: r.rbp,
        rdi: r.rdi,
        rsi: r.rsi,
        rdx: r.rdx,
        rcx: r.rcx,
        rbx: r.rbx,
        rax: r.rax,
        rip: r.rip,
        rflags: r.rflags,
        rsp: r.rsp,
    }
}

/// A frame of registers with a context put back.
pub open spec fn with_ctx(r: Regs, c: UserCtx) -> Regs {
    Regs {
        r15: c.r15,
        r14: c.r14,
        r13: c.r13,
        r12: c.r12,
        r11: c.r11,
        r10: c.r10,
        r9: c.r9,
        r8: c.r8,
        rbp: c.rbp,
        rdi: c.rdi,
        rsi: c.rsi,
        rdx: c.rdx,
        rcx: c.rcx,
        rbx: c.rbx,
        rax: c.rax,
        rip: c.rip,
        rflags: c.rflags,
        rsp: c.rsp,
        ..r
    }
}

/// Where the signal frame goes, and the stack pointer at the handler's entry:
/// below a gap of 128 bytes under the stack pointer, 8 bytes past a multiple
/// of 16 as if the handler had been called.
pub open spec fn frame_va(rsp: u64) -> u64 {
    let top = if rsp < 128 {
        0
    } else {
        (rsp - 128) - (rsp - 128) % 16
    };
    (top as u64).wrapping_sub(184)
}

/// The signal frame of a signal that interrupts `r`.
pub open spec fn frame_for(r: Regs, sig: u64) -> SigFrame {
    SigFrame { restorer: SIGTRAMP_VA, signum: sig, magic: FRAME_MAGIC, ctx: ctx_of(r) }
}

/// The task and memory once the task is set to enter its handler, and whether
/// that was possible.
pub open spec fn enter_spec(t: TaskV, m: MemV, sig: u64, handler: u64) -> (TaskV, MemV, bool) {
    match (t.user_space, t.saved) {
        (Some(space), Some(r)) => {
            let va = frame_va(r.rsp);
            let (m1, ok) = crate::user::uaccess::written(m, space.pml4, va, frame_bytes(frame_for(r, sig)), 0);
            if ok {
                (
                    TaskV {
                        saved: Some(Regs { rip: handler, rdi: sig, rsi: 0, rdx: 0, rax: 0, rsp: va, ..r }),
                        sig_frame_va: va,
                        sig_depth: (t.sig_depth + 1) as u8,
                        ..t
                    },
                    m1,
                    true,
                )
            } else {
                (t, m1, false)
            }
        },
        _ => (t, m, false),
    }
}

fn push_frame(r: &Regs, sig: u64) -> (b: Vec<u8>)
    ensures
        b@ == frame_bytes(frame_for(*r, sig)),
{
    let ghost w = frame_words(frame_for(*r, sig));
    let words: [u64; 21] = [
        SIGTRAMP_VA,
        sig,
        FRAME_MAGIC,
        r.r15,
        r.r14,
        r.r13,
        r.r12,
        r.r11,
        r.r10,
        r.r9,
        r.r8,
        r.rbp,
        r.rdi,
        r.rsi,
        r.rdx,
        r.rcx,
        r.rbx,
        r.rax,
        r.rip,
        r.rflags,
        r.rsp,
    ];
    assert(words@ =~= w);
    let mut b: Vec<u8> = Vec::new();
    let mut i: usize = 0;
    while i < 21
        invariant
            i <= 21,
            words@ == w,
            b@ == words_bytes(w, i as int),
        decreases 21 - i,
    {
        push_le8(&mut b, words[i]);
        i = i + 1;
    }
    b
}

/// Sets a suspended user task to enter its handler when it is resumed, with
/// the signal number as its first argument. Fails if the task has no user
/// memory or no frame, or if its stack cannot take the signal frame.
pub fn enter_handler(m: &mut Memory, t: &mut Task, sig: u64, handler: u64) -> (r: Result<(), ()>)
    requires
        old(m).wf(),
        old(t)@.sig_depth < 255,
    ensures
        final(m).wf(),
        (final(t)@, final(m)@, r is Ok) == enter_spec(old(t)@, old(m)@, sig, handler),
{
    let space: AddressSpace = match t.user_space {
        None => {
            return Err(());
        },
        Some(s) => s,
    };
    let mut frame: Regs = match t.saved {
        None => {
            return Err(());
        },
        Some(f) => f,
    };
    let top: u64 = if frame.rsp < 128 {
        0
    } else {
        (frame.rsp - 128) - (frame.rsp - 128) % 16
    };
    let va: u64 = top.wrapping_sub(184);
    let bytes: Vec<u8> = push_frame(&frame, sig);
    if write_user_bytes(m, &space, va, bytes.as_slice()).is_err() {
        return Err(());
    }
    frame.rip = handler;
    frame.rdi = sig;
    frame.rsi = 0;
    frame.rdx = 0;
    frame.rax = 0;
    frame.rsp = va;
    t.saved = Some(frame);
    t.sig_frame_va = va;
    t.sig_depth = t.sig_depth + 1;
    Ok(())
}

/// The task, and the registers to go on with, when a handler gives its
/// context back; nothing if there is no frame or it is not one.
pub open spec fn sigreturn_spec(t: TaskV, m: MemV, cr3: u64, r: Regs) -> Option<(TaskV, Regs)> {
    let pml4 = crate::mem::vmm::frame_of(cr3);
    let f = frame_in(crate::user::uaccess::user_bytes(m, pml4, t.sig_frame_va, FRAME_SIZE as int));
    if t.sig_frame_va == 0 || t.sig_depth == 0 || !crate::user::uaccess::readable(
        m,
        pml4,
        t.sig_frame_va,
        FRAME_SIZE as int,
    ) || f.magic != FRAME_MAGIC {
        None
    } else {
        Some((TaskV { sig_frame_va: 0, sig_depth: (t.sig_depth - 1) as u8, ..t }, with_ctx(r, f.ctx)))
    }
}

/// The system call of the return page: puts back every register that the
/// signal frame holds. Gives 0, or -1 if there is no frame to be had.
pub fn sys_sigreturn(s: &mut Sched, m: &Memory, p: &Smp, cpu: usize, cr3: u64, regs: &mut Regs) -> (r: i64)
    requires
        old(s).wf(),
        m.wf(),
        crate::sched::runs_task(*p, cpu),
    ensures
        final(s).wf(),
        ({
            let i = crate::sched::slot_on(p.cpus@, cpu as int);
            match sigreturn_spec(old(s)@.tasks[i], m@, cr3, *old(regs)) {
                None => r == -1 && final(s)@ == old(s)@ && *final(regs) == *old(regs),
                Some((t, g)) => r == 0 && final(s)@ == old(s)@.with_task(i, t) && *final(regs) == g,
            }
        }),
{
    let slot: usize = crate::sched::current_slot(p, cpu);
    let (va, depth) = crate::sched::switch::sig_frame_of(s, slot);
    if va == 0 || depth == 0 {
        return -1;
    }
    let space = AddressSpace::from_pml4(cr3);
    let buf: Vec<u8> = match read_user_bytes(m, &space, va, FRAME_SIZE as usize) {
        Err(_) => {
            return -1;
        },
        Ok(b) => b,
    };
    let b = buf.as_slice();
    if get_le8(b, 16) != FRAME_MAGIC {
        return -1;
    }
    regs.r15 = get_le8(b, 24);
    regs.r14 = get_le8(b, 32);
    regs.r13 = get_le8(b, 40);
    regs.r12 = get_le8(b, 48);
    regs.r11 = get_le8(b, 56);
    regs.r10 = get_le8(b, 64);
    regs.r9 = get_le8(b, 72);
    regs.r8 = get_le8(b, 80);
    regs.rbp = get_le8(b, 88);
    regs.rdi = get_le8(b, 96);
    regs.rsi = get_le8(b, 104);
    regs.rdx = get_le8(b, 112);
    regs.rcx = get_le8(b, 120);
    regs.rbx = get_le8(b, 128);
    regs.rax = get_le8(b, 136);
    regs.rip = get_le8(b, 144);
    regs.rflags = get_le8(b, 152);
    regs.rsp = get_le8(b, 160);
    crate::sched::switch::sig_frame_consumed(s, slot);
    0
}

/// A handler is entered with the stack as a call leaves it, and the frame
/// lies below the gap under the interrupted stack pointer.
pub proof fn law_handler_stack(rsp: u64)
    ensures
        frame_va(rsp) % 16 == 8,
        rsp >= 0x200 ==> frame_va(rsp) + FRAME_SIZE + 128 <= rsp,
{
}

/// A handler that returns puts its task back where it was: the context of the
/// frame that was entered from is the one that is given back, provided the
/// bytes of the signal frame are still there.
pub proof fn law_handler_returns(t: TaskV, m: MemV, m2: MemV, sig: u64, handler: u64, cr3: u64, now: Regs)
    requires
        t.sig_depth < 255,
        enter_spec(t, m, sig, handler).2,
        frame_va(t.saved->Some_0.rsp) != 0,
        crate::user::uaccess::readable(
            m2,
            crate::mem::vmm::frame_of(cr3),
            frame_va(t.saved->Some_0.rsp),
            FRAME_SIZE as int,
        ),
        crate::user::uaccess::user_bytes(
            m2,
            crate::mem::vmm::frame_of(cr3),
            frame_va(t.saved->Some_0.rsp),
            FRAME_SIZE as int,
        ) == frame_bytes(frame_for(t.saved->Some_0, sig)),
    ensures
        ({
            let u = enter_spec(t, m, sig, handler).0;
            let back = sigreturn_spec(u, m2, cr3, now);
            &&& back is Some
            &&& back->Some_0.0.sig_depth == t.sig_depth
            &&& back->Some_0.0.sig_frame_va == 0
            &&& ctx_of(back->Some_0.1) == ctx_of(t.saved->Some_0)
        }),
{
    law_frame_round_trip(frame_for(t.saved->Some_0, sig));
}

} // verus!
