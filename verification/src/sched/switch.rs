//! Parking and waking, signals, and the switch from one task to the next.

use vstd::prelude::*;
use vstd::string::StringExecFns;

use crate::console::{nothing, say, say_color, Out, OutV, GLM_GRAY, GLM_RED};
use crate::cpu::apic::TIMER_VECTOR;
use crate::cpu::gdt::MAX_CPUS;
use crate::cpu::idt::Regs;
use crate::cpu::keyboard::{KeyV, Keyboard};
use crate::cpu::smp::{Cpu, Smp, SmpV};
use crate::mem::vmm::{MemV, Memory};
use crate::sched::process::{finish_zombie, reap_zombie};
use crate::sched::{
    current_pid, find_pid, is_idle_name, Sched, SchedV, State, TaskV, CPU_ANY, MAX_TASKS,
    THREAD_KILLED_CODE,
};
use crate::text::push_dec;
use crate::user::signal::{catchable, enter_handler, NSIG, SIGKILL};

verus! {

// ---------------------------------------------------------------------------
// Parking
// ---------------------------------------------------------------------------
/// Gives the processor up.
pub fn sys_yield_now(p: &mut Smp, cpu: usize)
    requires
        old(p).wf(),
        cpu < MAX_CPUS,
    ensures
        final(p).wf(),
        final(p)@ == crate::cpu::smp::asked(old(p)@, cpu as int),
{
    crate::cpu::smp::request_switch(p, cpu);
}

/// Puts the running task to sleep for a time.
pub fn sys_sleep(s: &mut Sched, p: &mut Smp, cpu: usize, now: u64, ms: u64)
    requires
        old(s).wf(),
        crate::sched::runs_task(*old(p), cpu),
    ensures
        final(s).wf(),
        final(p).wf(),
        final(p)@ == crate::cpu::smp::asked(old(p)@, cpu as int),
        ({
            let me = crate::sched::slot_on(old(p)@.cpus, cpu as int);
            final(s)@ == old(s)@.with_task(
                me,
                TaskV { wake_at_ms: now.wrapping_add(ms), state: State::Sleeping, ..old(s)@.tasks[me] },
            )
        }),
{
    let me: usize = p.cpus[cpu].current;
    s.tasks[me].wake_at_ms = now.wrapping_add(ms);
    s.tasks[me].state = State::Sleeping;
    assert(s@.tasks =~= old(s)@.tasks.update(
        me as int,
        TaskV { wake_at_ms: now.wrapping_add(ms), state: State::Sleeping, ..old(s)@.tasks[me as int] },
    ));
    crate::cpu::smp::request_switch(p, cpu);
}

/// Parks the running task until a key arrives.
pub fn sys_block_on_input(s: &mut Sched, p: &mut Smp, cpu: usize)
    requires
        old(s).wf(),
        crate::sched::runs_task(*old(p), cpu),
    ensures
        final(s).wf(),
        final(p).wf(),
        final(p)@ == crate::cpu::smp::asked(old(p)@, cpu as int),
        ({
            let me = crate::sched::slot_on(old(p)@.cpus, cpu as int);
            final(s)@ == old(s)@.with_task(me, TaskV { state: State::BlockedInput, ..old(s)@.tasks[me] })
        }),
{
    let me: usize = p.cpus[cpu].current;
    s.set_state(me, State::BlockedInput);
    crate::cpu::smp::request_switch(p, cpu);
}

/// Marks the running task as parked on a channel. The channel table must be
/// held while this is done, so that the wake-up of a peer cannot be lost.
pub fn mark_blocked_chan(s: &mut Sched, p: &Smp, cpu: usize)
    requires
        old(s).wf(),
        crate::sched::runs_task(*p, cpu),
    ensures
        final(s).wf(),
        ({
            let me = crate::sched::slot_on(p.cpus@, cpu as int);
            final(s)@ == old(s)@.with_task(me, TaskV { state: State::BlockedChan, ..old(s)@.tasks[me] })
        }),
{
    s.set_state(p.cpus[cpu].current, State::BlockedChan);
}

/// Marks the running task as parked on a socket.
pub fn mark_blocked_sock(s: &mut Sched, p: &Smp, cpu: usize)
    requires
        old(s).wf(),
        crate::sched::runs_task(*p, cpu),
    ensures
        final(s).wf(),
        ({
            let me = crate::sched::slot_on(p.cpus@, cpu as int);
            final(s)@ == old(s)@.with_task(me, TaskV { state: State::BlockedSock, ..old(s)@.tasks[me] })
        }),
{
    s.set_state(p.cpus[cpu].current, State::BlockedSock);
}

/// The scheduler after a waiter, given as its slot plus one, was woken from a
/// state; 0 is nobody.
pub open spec fn waiter_woken(k: SchedV, slot_plus_one: u16, from: State) -> SchedV {
    let i = slot_plus_one - 1;
    if slot_plus_one == 0 || i >= MAX_TASKS || k.tasks[i].state != from {
        k
    } else {
        k.with_task(i, TaskV { state: State::Ready, ..k.tasks[i] })
    }
}

fn wake_from(s: &mut Sched, slot_plus_one: u16, from: State)
    requires
        old(s).wf(),
    ensures
        final(s).wf(),
        final(s)@ == waiter_woken(old(s)@, slot_plus_one, from),
{
    if slot_plus_one == 0 {
        return;
    }
    let i: usize = slot_plus_one as usize - 1;
    if i >= MAX_TASKS {
        return;
    }
    assert(s@.tasks[i as int] == s.tasks@[i as int]@);
    if s.tasks[i].state == from {
        s.set_state(i, State::Ready);
    }
}

/// Wakes a task that is parked on a channel.
pub fn wake_chan_waiter(s: &mut Sched, slot_plus_one: u16)
    requires
        old(s).wf(),
    ensures
        final(s).wf(),
        final(s)@ == waiter_woken(old(s)@, slot_plus_one, State::BlockedChan),
{
    wake_from(s, slot_plus_one, State::BlockedChan);
}

/// Wakes a task that is parked on a socket.
pub fn wake_sock_waiter(s: &mut Sched, slot_plus_one: u16)
    requires
        old(s).wf(),
    ensures
        final(s).wf(),
        final(s)@ == waiter_woken(old(s)@, slot_plus_one, State::BlockedSock),
{
    wake_from(s, slot_plus_one, State::BlockedSock);
}

// ---------------------------------------------------------------------------
// Signals
// ---------------------------------------------------------------------------
/// A state in which a task would not resume on its own.
pub open spec fn is_parked(st: State) -> bool {
    st == State::BlockedInput || st == State::BlockedChan || st == State::BlockedSock || st == State::WaitingChild || st
        == State::BlockedJoin
}

/// A task with a signal added to its pending ones; a parked task is woken, so
/// that the signal can be delivered.
pub open spec fn signalled(t: TaskV, sig: u64) -> TaskV {
    TaskV {
        sig_pending: t.sig_pending | (1u64 << sig),
        state: if is_parked(t.state) {
            State::Ready
        } else {
            t.state
        },
        ..t
    }
}

pub open spec fn send_signal_spec(k: SchedV, cpus: Seq<Cpu>, cpu: int, pid: u64, sig: u64) -> (
    SchedV,
    Result<Seq<char>, Seq<char>>,
) {
    if !k.on {
        (k, Err("scheduler offline"@))
    } else if sig >= NSIG {
        (k, Err("bad signal number"@))
    } else if pid == crate::sched::current_pid_spec(k, cpus, cpu) {
        (k, Err("cannot signal the calling task"@))
    } else {
        match crate::seqs::first(k.tasks, crate::sched::has_pid(pid)) {
            None => (k, Err("no such task"@)),
            Some(i) => if !k.tasks[i].is_user {
                (k, Err("not a user task"@))
            } else if k.tasks[i].state == State::Zombie {
                (k, Err("task is a zombie"@))
            } else {
                (k.with_task(i, signalled(k.tasks[i], sig)), Ok("signal queued (delivers on resume)"@))
            },
        }
    }
}

pub proof fn lemma_pending_bound(p: u64, sig: u64)
    requires
        p < 0x1_0000,
        sig < 16,
    ensures
        p | (1u64 << sig) < 0x1_0000,
        p & !(1u64 << sig) < 0x1_0000,
{
    assert(p | (1u64 << sig) < 0x1_0000 && p & !(1u64 << sig) < 0x1_0000) by (bit_vector)
        requires
            p < 0x1_0000,
            sig < 16,
    ;
}

/// Sends a signal to a user task; it is delivered when the task is resumed.
pub fn send_signal(s: &mut Sched, p: &Smp, cpu: usize, pid: u64, sig: u64) -> (r: Result<&'static str, &'static str>)
    requires
        old(s).wf(),
        p.wf(),
        cpu < MAX_CPUS,
    ensures
        final(s).wf(),
        ({
            let (k, x) = send_signal_spec(old(s)@, p.cpus@, cpu as int, pid, sig);
            final(s)@ == k && crate::sched::process::in_words(r, x)
        }),
{
    if !s.on {
        return Err("scheduler offline");
    }
    if sig >= NSIG as u64 {
        return Err("bad signal number");
    }
    if pid == current_pid(s, p, cpu) {
        return Err("cannot signal the calling task");
    }
    let i: usize = match find_pid(s, pid) {
        None => {
            return Err("no such task");
        },
        Some(i) => i,
    };
    assert(s@.tasks[i as int] == s.tasks@[i as int]@);
    if !s.tasks[i].is_user {
        return Err("not a user task");
    }
    let st: State = s.tasks[i].state;
    if st == State::Zombie {
        return Err("task is a zombie");
    }
    proof {
        assert(s@.tasks[i as int].wf());
        lemma_pending_bound(s@.tasks[i as int].sig_pending, sig);
    }
    s.tasks[i].sig_pending = s.tasks[i].sig_pending | (1u64 << sig);
    if st == State::BlockedInput || st == State::BlockedChan || st == State::BlockedSock || st == State::WaitingChild
        || st == State::BlockedJoin {
        s.tasks[i].state = State::Ready;
    }
    assert(s@.tasks =~= old(s)@.tasks.update(i as int, signalled(old(s)@.tasks[i as int], sig)));
    Ok("signal queued (delivers on resume)")
}

/// Installs a handler for the running task: the one before it, or -1 for a
/// signal that cannot be handled or a kernel task.
pub fn sig_set_handler_current(s: &mut Sched, p: &Smp, cpu: usize, sig: u64, handler: u64) -> (r: i64)
    requires
        old(s).wf(),
        crate::sched::runs_task(*p, cpu),
    ensures
        final(s).wf(),
        ({
            let me = crate::sched::slot_on(p.cpus@, cpu as int);
            let t = old(s)@.tasks[me];
            if !crate::user::signal::is_catchable(sig) || !t.is_user {
                r == -1 && final(s)@ == old(s)@
            } else {
                r == t.sig_handlers[sig as int] as i64 && final(s)@ == old(s)@.with_task(
                    me,
                    TaskV { sig_handlers: t.sig_handlers.update(sig as int, handler), ..t },
                )
            }
        }),
{
    if !catchable(sig) {
        return -1;
    }
    let me: usize = p.cpus[cpu].current;
    assert(s@.tasks[me as int] == s.tasks@[me as int]@);
    assert(s@.tasks[me as int].wf());
    if !s.tasks[me].is_user {
        return -1;
    }
    let before: u64 = s.tasks[me].sig_handlers[sig as usize];
    s.tasks[me].sig_handlers[sig as usize] = handler;
    assert(s@.tasks =~= old(s)@.tasks.update(
        me as int,
        TaskV {
            sig_handlers: old(s)@.tasks[me as int].sig_handlers.update(sig as int, handler),
            ..old(s)@.tasks[me as int]
        },
    ));
    before as i64
}

/// Where the frame of a task's running handler lies, and how deep handlers
/// are nested.
pub fn sig_frame_of(s: &Sched, slot: usize) -> (r: (u64, u8))
    requires
        s.wf(),
        slot < MAX_TASKS,
    ensures
        r == (s@.tasks[slot as int].sig_frame_va, s@.tasks[slot as int].sig_depth),
{
    (s.tasks[slot].sig_frame_va, s.tasks[slot].sig_depth)
}

/// The task after a handler has given its context back.
pub open spec fn consumed(t: TaskV) -> TaskV {
    if t.sig_frame_va != 0 {
        TaskV {
            sig_frame_va: 0,
            sig_depth: if t.sig_depth == 0 {
                0
            } else {
                (t.sig_depth - 1) as u8
            },
            ..t
        }
    } else {
        t
    }
}

/// Notes that the signal frame of a task was used up.
pub fn sig_frame_consumed(s: &mut Sched, slot: usize)
    requires
        old(s).wf(),
        slot < MAX_TASKS,
    ensures
        final(s).wf(),
        final(s)@ == old(s)@.with_task(slot as int, consumed(old(s)@.tasks[slot as int])),
{
    if s.tasks[slot].sig_frame_va != 0 {
        s.tasks[slot].sig_frame_va = 0;
        let d: u8 = s.tasks[slot].sig_depth;
        s.tasks[slot].sig_depth = if d == 0 {
            0
        } else {
            d - 1
        };
    }
    assert(s@.tasks =~= old(s)@.tasks.update(slot as int, consumed(old(s)@.tasks[slot as int])));
}

/// What came of a delivery.
#[derive(Clone, Copy, PartialEq, Eq, Structural, Debug)]
pub enum Delivery {
    Nothing,
    /// The task enters its handler when it is resumed.
    Handled,
    /// The task is a zombie now.
    Terminated,
}

/// The lowest pending signal from `b` on.
pub open spec fn lowest_signal(pending: u64, b: int) -> Option<int>
    decreases NSIG - b,
{
    if b < 0 || b >= NSIG {
        None
    } else if crate::mem::frames::bit(pending, b as u64) {
        Some(b)
    } else {
        lowest_signal(pending, b + 1)
    }
}

/// What is printed of a task that a signal ended.
pub open spec fn killed_lines(pid: u64, sig: u64) -> Seq<OutV> {
    seq![
        crate::console::colored("  [ "@, GLM_GRAY),
        crate::console::colored("sig"@, GLM_RED),
        crate::console::colored(" ] "@, GLM_GRAY),
        crate::console::plain(
            "task "@ + crate::text::dec_text(pid as nat) + " terminated by signal "@ + crate::text::dec_text(sig as nat)
                + "\n"@,
        ),
    ]
}

/// Delivers the lowest pending signal to a user task that is suspended: its
/// handler is entered, or the task ends: without a handler, by the signal
/// that cannot be caught, when handlers are nested four deep, or when its
/// stack cannot take the frame.
pub open spec fn deliver_spec(k: SchedV, m: MemV, i: int) -> (SchedV, MemV, Seq<OutV>, Delivery) {
    let t = k.tasks[i];
    match lowest_signal(t.sig_pending, 0) {
        Some(b) if t.is_user && t.user_space is Some => {
            let sig = b as u64;
            let handler = t.sig_handlers[b];
            if sig == SIGKILL || handler == 0 || t.sig_depth >= 4 {
                let (k1, m1) = crate::sched::process::finished(k, m, i, (128 + sig) as i64);
                (k1, m1, killed_lines(t.pid, sig), Delivery::Terminated)
            } else {
                let (t1, m1, ok) = crate::user::signal::enter_spec(t, m, sig, handler);
                if ok {
                    (
                        k.with_task(i, TaskV { sig_pending: t.sig_pending & !(1u64 << sig), ..t1 }),
                        m1,
                        Seq::empty(),
                        Delivery::Handled,
                    )
                } else {
                    let (k1, m2) = crate::sched::process::finished(k, m1, i, 139);
                    (k1, m2, Seq::empty(), Delivery::Terminated)
                }
            }
        },
        _ => (k, m, Seq::empty(), Delivery::Nothing),
    }
}

fn find_signal(pending: u64) -> (r: Option<u64>)
    ensures
        match (r, lowest_signal(pending, 0)) {
            (Some(a), Some(b)) => a == b && a < NSIG,
            (None, None) => true,
            _ => false,
        },
{
    let mut b: u64 = 0;
    while b < NSIG as u64
        invariant
            b <= NSIG,
            lowest_signal(pending, b as int) == lowest_signal(pending, 0),
        decreases NSIG - b,
    {
        if (pending >> b) & 1 == 1 {
            return Some(b);
        }
        b = b + 1;
    }
    None
}

fn say_killed(pid: u64, sig: u64) -> (v: Vec<Out>)
    ensures
        crate::console::outs(v@) == killed_lines(pid, sig),
{
    let mut v = nothing();
    say_color(&mut v, "  [ ".to_owned(), GLM_GRAY);
    say_color(&mut v, "sig".to_owned(), GLM_RED);
    say_color(&mut v, " ] ".to_owned(), GLM_GRAY);
    let mut t: String = "task ".to_owned();
    push_dec(&mut t, pid);
    t.append(" terminated by signal ");
    push_dec(&mut t, sig);
    t.append("\n");
    say(&mut v, t);
    assert(crate::console::outs(v@) =~= killed_lines(pid, sig));
    v
}

fn deliver_pending(s: &mut Sched, m: &mut Memory, i: usize) -> (r: (Vec<Out>, Delivery))
    requires
        old(s).wf(),
        old(m).wf(),
        i < MAX_TASKS,
    ensures
        final(s).wf(),
        final(m).wf(),
        (final(s)@, final(m)@, crate::console::outs(r.0@), r.1) == deliver_spec(old(s)@, old(m)@, i as int),
{
    assert(s@.tasks[i as int] == s.tasks@[i as int]@);
    assert(s@.tasks[i as int].wf());
    let pending: u64 = s.tasks[i].sig_pending;
    let sig: u64 = match find_signal(pending) {
        None => {
            return (nothing(), Delivery::Nothing);
        },
        Some(b) => b,
    };
    if !s.tasks[i].is_user || s.tasks[i].user_space.is_none() {
        return (nothing(), Delivery::Nothing);
    }
    let handler: u64 = s.tasks[i].sig_handlers[sig as usize];
    let pid: u64 = s.tasks[i].pid;
    if sig == SIGKILL || handler == 0 || s.tasks[i].sig_depth >= 4 {
        finish_zombie(s, m, i, 128 + sig as i64);
        return (say_killed(pid, sig), Delivery::Terminated);
    }
    let r = enter_handler(m, &mut s.tasks[i], sig, handler);
    match r {
        Ok(_) => {
            proof {
                lemma_pending_bound(pending, sig);
            }
            s.tasks[i].sig_pending = pending & !(1u64 << sig);
            assert(s@.tasks =~= deliver_spec(old(s)@, old(m)@, i as int).0.tasks);
            (nothing(), Delivery::Handled)
        },
        Err(_) => {
            assert(s@.tasks =~= old(s)@.tasks);
            finish_zombie(s, m, i, 139);
            (nothing(), Delivery::Terminated)
        },
    }
}

// ---------------------------------------------------------------------------
// The timer
// ---------------------------------------------------------------------------
/// A task after its sleep is over.
pub open spec fn rested(t: TaskV, now: u64) -> TaskV {
    if t.state == State::Sleeping && t.wake_at_ms <= now {
        TaskV { state: State::Ready, ..t }
    } else {
        t
    }
}

pub open spec fn waits_for_key() -> spec_fn(TaskV) -> bool {
    |t: TaskV| t.state == State::BlockedInput
}

/// A key goes to the first task that waits for one.
pub open spec fn key_delivered(k: SchedV, kb: KeyV) -> (SchedV, KeyV) {
    match crate::seqs::first(k.tasks, waits_for_key()) {
        Some(i) if kb.queue.len() > 0 => (
            k.with_task(
                i,
                TaskV {
                    saved: crate::sched::process::answered(k.tasks[i].saved, kb.queue[0] as u64),
                    state: State::Ready,
                    ..k.tasks[i]
                },
            ),
            KeyV { queue: kb.queue.skip(1), ..kb },
        ),
        _ => (k, kb),
    }
}

/// What a timer tick does: sleepers wake, a key is delivered, and a user task
/// that runs is preempted. Kernel tasks never are.
pub open spec fn timer_spec(k: SchedV, p: SmpV, kb: KeyV, cpu: int, now: u64) -> (SchedV, SmpV, KeyV) {
    let k1 = SchedV { tasks: k.tasks.map_values(|t: TaskV| rested(t, now)), ..k };
    let (k2, kb2) = key_delivered(k1, kb);
    let cur = crate::sched::slot_on(p.cpus, cpu);
    if cur < MAX_TASKS && k2.tasks[cur].is_user && k2.tasks[cur].state == State::Running {
        (
            k2.with_task(cur, TaskV { state: State::Ready, ..k2.tasks[cur] }),
            crate::cpu::smp::asked(p, cpu),
            kb2,
        )
    } else {
        (k2, p, kb2)
    }
}

fn wake_sleepers(s: &mut Sched, now: u64)
    requires
        old(s).wf(),
    ensures
        final(s).wf(),
        final(s)@ == (SchedV { tasks: old(s)@.tasks.map_values(|t: TaskV| rested(t, now)), ..old(s)@ }),
{
    let mut i: usize = 0;
    while i < MAX_TASKS
        invariant
            i <= MAX_TASKS,
            s.wf(),
            old(s).wf(),
            s@ == (SchedV { tasks: s@.tasks, ..old(s)@ }),
            forall|j: int| 0 <= j < i ==> #[trigger] s@.tasks[j] == rested(old(s)@.tasks[j], now),
            forall|j: int| i <= j < MAX_TASKS ==> #[trigger] s@.tasks[j] == old(s)@.tasks[j],
        decreases MAX_TASKS - i,
    {
        assert(s@.tasks[i as int] == s.tasks@[i as int]@);
        if s.tasks[i].state == State::Sleeping && s.tasks[i].wake_at_ms <= now {
            s.set_state(i, State::Ready);
        }
        i = i + 1;
    }
    assert(s@.tasks =~= old(s)@.tasks.map_values(|t: TaskV| rested(t, now)));
}

fn find_key_waiter(s: &Sched) -> (r: Option<usize>)
    requires
        s.wf(),
    ensures
        match (r, crate::seqs::first(s@.tasks, waits_for_key())) {
            (Some(i), Some(j)) => i == j && i < MAX_TASKS,
            (None, None) => true,
            _ => false,
        },
{
    let mut i: usize = 0;
    while i < MAX_TASKS
        invariant
            i <= MAX_TASKS,
            s.wf(),
            crate::seqs::first_from(s@.tasks, waits_for_key(), i as int) == crate::seqs::first(
                s@.tasks,
                waits_for_key(),
            ),
        decreases MAX_TASKS - i,
    {
        assert(s@.tasks[i as int] == s.tasks@[i as int]@);
        if s.tasks[i].state == State::BlockedInput {
            return Some(i);
        }
        i = i + 1;
    }
    None
}

fn deliver_key(s: &mut Sched, kb: &mut Keyboard)
    requires
        old(s).wf(),
        old(kb).wf(),
    ensures
        final(s).wf(),
        final(kb).wf(),
        (final(s)@, final(kb)@) == key_delivered(old(s)@, old(kb)@),
{
    match find_key_waiter(s) {
        None => {},
        Some(i) => {
            match crate::cpu::keyboard::pop(kb) {
                None => {},
                Some(c) => {
                    assert(s@.tasks[i as int] == s.tasks@[i as int]@);
                    match s.tasks[i].saved {
                        Some(f) => {
                            let mut g = f;
                            g.rax = c as u64;
                            s.tasks[i].saved = Some(g);
                        },
                        None => {},
                    }
                    s.tasks[i].state = State::Ready;
                    assert(s@.tasks =~= key_delivered(old(s)@, old(kb)@).0.tasks);
                },
            }
        },
    }
}

fn timer_duties(s: &mut Sched, p: &mut Smp, kb: &mut Keyboard, cpu: usize, now: u64)
    requires
        old(s).wf(),
        old(p).wf(),
        old(kb).wf(),
        cpu < MAX_CPUS,
    ensures
        final(s).wf(),
        final(p).wf(),
        final(kb).wf(),
        (final(s)@, final(p)@, final(kb)@) == timer_spec(old(s)@, old(p)@, old(kb)@, cpu as int, now),
{
    wake_sleepers(s, now);
    deliver_key(s, kb);
    let cur: usize = p.cpus[cpu].current;
    if cur >= MAX_TASKS {
        return;
    }
    assert(s@.tasks[cur as int] == s.tasks@[cur as int]@);
    if s.tasks[cur].is_user && s.tasks[cur].state == State::Running {
        s.set_state(cur, State::Ready);
        crate::cpu::smp::request_switch(p, cpu);
    }
}

// ---------------------------------------------------------------------------
// The next task
// ---------------------------------------------------------------------------
/// A task that a processor may take up.
pub open spec fn may_run(t: TaskV, cpu: int) -> bool {
    t.state == State::Ready && (t.pinned_cpu == CPU_ANY || t.pinned_cpu == cpu)
}

/// In the round, `a` comes before `b`: those after the current pid first, the
/// lowest pid of them first.
pub open spec fn sooner(a: u64, b: u64, cur: u64) -> bool {
    if (a > cur) != (b > cur) {
        a > cur
    } else {
        a < b
    }
}

/// The choice after the slots up to `n`: the best task, and the last idle one.
pub open spec fn picked(tasks: Seq<TaskV>, me: int, cpu: int, n: int) -> (Option<int>, Option<int>)
    decreases n,
{
    if n <= 0 {
        (None, None)
    } else {
        let (best, idle) = picked(tasks, me, cpu, n - 1);
        let t = tasks[n - 1];
        if n - 1 == me || !may_run(t, cpu) {
            (best, idle)
        } else if crate::sched::idle_name(t.name) {
            (best, Some(n - 1))
        } else {
            (
                match best {
                    None => Some(n - 1),
                    Some(b) => if sooner(t.pid, tasks[b].pid, tasks[me].pid) {
                        Some(n - 1)
                    } else {
                        Some(b)
                    },
                },
                idle,
            )
        }
    }
}

/// The next task of a processor: any other that is ready, in the round; the
/// idle task if there is none; nobody if that is not ready either.
pub open spec fn pick_spec(tasks: Seq<TaskV>, me: int, cpu: int) -> Option<int> {
    let (best, idle) = picked(tasks, me, cpu, MAX_TASKS as int);
    match best {
        Some(b) => Some(b),
        None => idle,
    }
}

proof fn lemma_picked(tasks: Seq<TaskV>, me: int, cpu: int, n: int)
    requires
        0 <= n <= tasks.len(),
    ensures
        ({
            let (best, idle) = picked(tasks, me, cpu, n);
            &&& best matches Some(b) ==> 0 <= b < n && b != me && may_run(tasks[b], cpu)
            &&& idle matches Some(b) ==> 0 <= b < n && b != me && may_run(tasks[b], cpu)
        }),
    decreases n,
{
    if n > 0 {
        lemma_picked(tasks, me, cpu, n - 1);
    }
}

fn pick_next(s: &Sched, me: usize, cpu: usize) -> (r: Option<usize>)
    requires
        s.wf(),
        me < MAX_TASKS,
        cpu < MAX_CPUS,
    ensures
        match (r, pick_spec(s@.tasks, me as int, cpu as int)) {
            (Some(i), Some(j)) => i == j && i < MAX_TASKS,
            (None, None) => true,
            _ => false,
        },
{
    assert(s@.tasks[me as int] == s.tasks@[me as int]@);
    let cur: u64 = s.tasks[me].pid;
    let mut best: Option<usize> = None;
    let mut idle: Option<usize> = None;
    let mut i: usize = 0;
    while i < MAX_TASKS
        invariant
            i <= MAX_TASKS,
            s.wf(),
            me < MAX_TASKS,
            cpu < MAX_CPUS,
            cur == s@.tasks[me as int].pid,
            ({
                let (b, d) = picked(s@.tasks, me as int, cpu as int, i as int);
                &&& match (best, b) {
                    (Some(x), Some(y)) => x == y && x < i,
                    (None, None) => true,
                    _ => false,
                }
                &&& match (idle, d) {
                    (Some(x), Some(y)) => x == y && x < i,
                    (None, None) => true,
                    _ => false,
                }
            }),
        decreases MAX_TASKS - i,
    {
        assert(s@.tasks[i as int] == s.tasks@[i as int]@);
        let pin: u8 = s.tasks[i].pinned_cpu;
        if s.tasks[i].state == State::Ready && i != me && (pin == CPU_ANY || pin == cpu as u8) {
            if is_idle_name(&s.tasks[i].name) {
                idle = Some(i);
            } else {
                let pid: u64 = s.tasks[i].pid;
                let better: bool = match best {
                    None => true,
                    Some(b) => {
                        assert(s@.tasks[b as int] == s.tasks@[b as int]@);
                        let bp: u64 = s.tasks[b].pid;
                        if (pid > cur) != (bp > cur) {
                            pid > cur
                        } else {
                            pid < bp
                        }
                    },
                };
                if better {
                    best = Some(i);
                }
            }
        }
        i = i + 1;
    }
    match best {
        Some(b) => Some(b),
        None => idle,
    }
}

// ---------------------------------------------------------------------------
// The switch
// ---------------------------------------------------------------------------
/// Reclaims the zombies from slot `i` on, except the current context.
pub open spec fn reap_all(k: SchedV, m: MemV, me: int, i: int) -> (SchedV, MemV)
    decreases MAX_TASKS - i,
{
    if i < 0 || i >= MAX_TASKS {
        (k, m)
    } else if k.tasks[i].state == State::Zombie && k.tasks[i].pid != k.tasks[me].pid {
        let (k1, m1) = crate::sched::process::reaped(k, m, i);
        reap_all(k1, m1, me, i + 1)
    } else {
        reap_all(k, m, me, i + 1)
    }
}

fn reap_zombies(s: &mut Sched, m: &mut Memory, me: usize)
    requires
        old(s).wf(),
        old(m).wf(),
        me < MAX_TASKS,
    ensures
        final(s).wf(),
        final(m).wf(),
        (final(s)@, final(m)@) == reap_all(old(s)@, old(m)@, me as int, 0),
{
    let mut i: usize = 0;
    while i < MAX_TASKS
        invariant
            i <= MAX_TASKS,
            me < MAX_TASKS,
            s.wf(),
            m.wf(),
            reap_all(s@, m@, me as int, i as int) == reap_all(old(s)@, old(m)@, me as int, 0),
        decreases MAX_TASKS - i,
    {
        assert(s@.tasks[i as int] == s.tasks@[i as int]@);
        assert(s@.tasks[me as int] == s.tasks@[me as int]@);
        if s.tasks[i].state == State::Zombie && s.tasks[i].pid != s.tasks[me].pid {
            reap_zombie(s, m, i);
        }
        i = i + 1;
    }
}

pub open spec fn is_live(st: State) -> bool {
    st != State::Dead && st != State::Zombie
}

/// How many of the first `n` tasks live.
pub open spec fn live_count(tasks: Seq<TaskV>, n: int) -> nat
    decreases n,
{
    if n <= 0 {
        0
    } else {
        live_count(tasks, n - 1) + if is_live(tasks[n - 1].state) {
            1nat
        } else {
            0nat
        }
    }
}

proof fn lemma_fewer(a: Seq<TaskV>, b: Seq<TaskV>, i: int, n: int)
    requires
        forall|j: int| 0 <= j < n && j != i ==> is_live((#[trigger] a[j]).state) == is_live(b[j].state),
        !is_live(a[i].state),
        is_live(b[i].state),
        0 <= i,
    ensures
        live_count(b, n) == live_count(a, n) + if i < n {
            1nat
        } else {
            0nat
        },
    decreases n,
{
    if n > 0 {
        lemma_fewer(a, b, i, n - 1);
        if n - 1 != i {
            assert(is_live(a[n - 1].state) == is_live(b[n - 1].state));
        }
    }
}

/// A delivery that ends a task leaves fewer tasks alive.
pub proof fn lemma_terminated(k: SchedV, m: MemV, i: int)
    requires
        k.wf(),
        0 <= i < MAX_TASKS,
        is_live(k.tasks[i].state),
        deliver_spec(k, m, i).3 == Delivery::Terminated,
    ensures
        deliver_spec(k, m, i).0.wf(),
        live_count(deliver_spec(k, m, i).0.tasks, MAX_TASKS as int) < live_count(k.tasks, MAX_TASKS as int),
{
    let t = k.tasks[i];
    let sig = lowest_signal(t.sig_pending, 0)->Some_0 as u64;
    let m1 = crate::user::signal::enter_spec(t, m, sig, t.sig_handlers[sig as int]).1;
    crate::sched::process::lemma_finished_keeps(k, m, i, (128 + sig) as i64);
    crate::sched::process::lemma_finished_keeps(k, m1, i, 139);
    lemma_fewer(deliver_spec(k, m, i).0.tasks, k.tasks, i, MAX_TASKS as int);
}

/// The next task, with its pending signal delivered; one that the signal ends
/// is passed over.
pub open spec fn choose_spec(k: SchedV, m: MemV, out: Seq<OutV>, me: int, cpu: int) -> (
    SchedV,
    MemV,
    Seq<OutV>,
    Option<int>,
)
    decreases live_count(k.tasks, MAX_TASKS as int),
    when k.wf()
    via choose_decreases
{
    match pick_spec(k.tasks, me, cpu) {
        None => (k, m, out, None),
        Some(n) => {
            let (k1, m1, o, d) = deliver_spec(k, m, n);
            if d == Delivery::Terminated {
                choose_spec(k1, m1, out + o, me, cpu)
            } else {
                (k1, m1, out + o, Some(n))
            }
        },
    }
}

#[via_fn]
proof fn choose_decreases(k: SchedV, m: MemV, out: Seq<OutV>, me: int, cpu: int) {
    lemma_picked(k.tasks, me, cpu, MAX_TASKS as int);
    match pick_spec(k.tasks, me, cpu) {
        None => {},
        Some(n) => {
            if deliver_spec(k, m, n).3 == Delivery::Terminated {
                lemma_terminated(k, m, n);
            }
        },
    }
}

fn append_outs(v: &mut Vec<Out>, w: Vec<Out>)
    ensures
        crate::console::outs(final(v)@) == crate::console::outs(old(v)@) + crate::console::outs(w@),
{
    let ghost a = v@;
    let ghost b = w@;
    let mut w = w;
    v.append(&mut w);
    assert(crate::console::outs(v@) =~= crate::console::outs(a) + crate::console::outs(b));
}

fn choose_next(s: &mut Sched, m: &mut Memory, v: &mut Vec<Out>, me: usize, cpu: usize) -> (r: Option<usize>)
    requires
        old(s).wf(),
        old(m).wf(),
        me < MAX_TASKS,
        cpu < MAX_CPUS,
    ensures
        final(s).wf(),
        final(m).wf(),
        ({
            let (k, n, o, x) = choose_spec(
                old(s)@,
                old(m)@,
                crate::console::outs(old(v)@),
                me as int,
                cpu as int,
            );
            &&& final(s)@ == k
            &&& final(m)@ == n
            &&& crate::console::outs(final(v)@) == o
            &&& match (r, x) {
                (Some(a), Some(b)) => a == b && a < MAX_TASKS,
                (None, None) => true,
                _ => false,
            }
        }),
{
    let ghost goal = choose_spec(s@, m@, crate::console::outs(v@), me as int, cpu as int);
    let mut going: bool = true;
    let mut chosen: Option<usize> = None;
    while going
        invariant
            s.wf(),
            m.wf(),
            me < MAX_TASKS,
            cpu < MAX_CPUS,
            going ==> chosen is None,
            going ==> choose_spec(s@, m@, crate::console::outs(v@), me as int, cpu as int) == goal,
            !going ==> {
                &&& s@ == goal.0
                &&& m@ == goal.1
                &&& crate::console::outs(v@) == goal.2
                &&& match (chosen, goal.3) {
                    (Some(a), Some(b)) => a == b && a < MAX_TASKS,
                    (None, None) => true,
                    _ => false,
                }
            },
        decreases live_count(s@.tasks, MAX_TASKS as int), (if going {
            1int
        } else {
            0int
        }),
    {
        proof {
            lemma_picked(s@.tasks, me as int, cpu as int, MAX_TASKS as int);
        }
        match pick_next(s, me, cpu) {
            None => {
                going = false;
            },
            Some(n) => {
                let ghost k0 = s@;
                let ghost m0 = m@;
                let (o, d) = deliver_pending(s, m, n);
                append_outs(v, o);
                if d == Delivery::Terminated {
                    proof {
                        lemma_terminated(k0, m0, n as int);
                    }
                } else {
                    chosen = Some(n);
                    going = false;
                    proof {
                        lemma_delivered_keeps(k0, m0, n as int);
                    }
                }
            },
        }
    }
    chosen
}

/// A delivery that does not end a task leaves as many alive.
proof fn lemma_delivered_keeps(k: SchedV, m: MemV, i: int)
    requires
        k.wf(),
        0 <= i < MAX_TASKS,
        deliver_spec(k, m, i).3 != Delivery::Terminated,
    ensures
        live_count(deliver_spec(k, m, i).0.tasks, MAX_TASKS as int) == live_count(k.tasks, MAX_TASKS as int),
{
    lemma_same_count(deliver_spec(k, m, i).0.tasks, k.tasks, MAX_TASKS as int);
}

proof fn lemma_same_count(a: Seq<TaskV>, b: Seq<TaskV>, n: int)
    requires
        forall|j: int| 0 <= j < n ==> (#[trigger] a[j]).state == b[j].state,
    ensures
        live_count(a, n) == live_count(b, n),
    decreases n,
{
    if n > 0 {
        lemma_same_count(a, b, n - 1);
        assert(a[n - 1].state == b[n - 1].state);
    }
}

/// What resuming another task takes: its kernel stack for entries from user
/// mode, its tables, its thread-local base, and the frame to resume.
#[derive(Clone, Copy)]
pub struct Resume {
    pub slot: usize,
    pub rsp0: u64,
    pub pml4: u64,
    pub fs_base: u64,
    pub frame: Option<Regs>,
}

pub open spec fn resume_of(k: SchedV, n: int) -> Resume {
    let t = k.tasks[n];
    Resume { slot: n as usize, rsp0: t.kstack_top, pml4: t.pml4, fs_base: t.fs_base, frame: t.saved }
}

/// The current context parked: it is on no processor any more, and ready
/// unless it is doing something else.
pub open spec fn parked(k: SchedV, me: int, r: Regs) -> SchedV {
    let t = k.tasks[me];
    k.with_task(
        me,
        TaskV {
            saved: Some(r),
            state: if t.state == State::Running {
                State::Ready
            } else {
                t.state
            },
            on_cpu: CPU_ANY,
            ..t
        },
    )
}

/// Whether an interrupt is the scheduler's tick: that of the local timer, or
/// that of the interval timer on a machine without one.
pub open spec fn is_tick(vec: u64, apic_on: bool) -> bool {
    vec == TIMER_VECTOR || (vec == 32 && !apic_on)
}

/// The switch proper, once it is wanted.
pub open spec fn switch_spec(k: SchedV, m: MemV, p: SmpV, cpu: int, r: Regs) -> (
    SchedV,
    MemV,
    SmpV,
    Seq<OutV>,
    Option<Resume>,
) {
    let me = crate::sched::slot_on(p.cpus, cpu);
    let (k1, m1) = reap_all(parked(k, me, r), m, me, 0);
    let (k2, m2, out, next) = choose_spec(k1, m1, Seq::empty(), me, cpu);
    match next {
        None => (
            k2.with_task(me, TaskV { state: State::Running, on_cpu: cpu as u8, ..k2.tasks[me] }),
            m2,
            p,
            out,
            None,
        ),
        Some(n) => {
            let (k3, p3) = taken_up(k2, p, cpu, n);
            (k3, m2, p3, out, Some(resume_of(k3, n)))
        },
    }
}

/// What the end of an interrupt does.
pub open spec fn dispatch_spec(
    k: SchedV,
    m: MemV,
    p: SmpV,
    kb: KeyV,
    cpu: int,
    now: u64,
    vec: u64,
    apic_on: bool,
    r: Regs,
) -> (SchedV, MemV, SmpV, KeyV, Seq<OutV>, Option<Resume>) {
    if !k.on {
        (k, m, p, kb, Seq::empty(), None)
    } else {
        let me = crate::sched::slot_on(p.cpus, cpu);
        let (k1, p1, kb1) = if is_tick(vec, apic_on) {
            timer_spec(k, p, kb, cpu, now)
        } else {
            (k, p, kb)
        };
        let (k2, m2) = if k1.tasks[me].die_flag && k1.tasks[me].state == State::Running {
            crate::sched::process::finished(k1, m, me, THREAD_KILLED_CODE)
        } else {
            (k1, m)
        };
        let p2 = p1.with_cpu(cpu, Cpu { switch_requested: false, ..p1.cpus[cpu] });
        if !p1.cpus[cpu].switch_requested && k2.tasks[me].state == State::Running {
            (k2, m2, p2, kb1, Seq::empty(), None)
        } else {
            let (k3, m3, p3, out, next) = switch_spec(k2, m2, p2, cpu, r);
            (k3, m3, p3, kb1, out, next)
        }
    }
}

fn park(s: &mut Sched, me: usize, regs: &Regs)
    requires
        old(s).wf(),
        me < MAX_TASKS,
    ensures
        final(s).wf(),
        final(s)@ == parked(old(s)@, me as int, *regs),
{
    assert(s@.tasks[me as int] == s.tasks@[me as int]@);
    if s.tasks[me].state == State::Running {
        s.tasks[me].state = State::Ready;
    }
    s.tasks[me].on_cpu = CPU_ANY;
    s.tasks[me].saved = Some(*regs);
    assert(s@.tasks =~= parked(old(s)@, me as int, *regs).tasks);
}

/// The scheduler and the processor after a task was taken up.
pub open spec fn taken_up(k: SchedV, p: SmpV, cpu: int, n: int) -> (SchedV, SmpV) {
    let c = p.cpus[cpu];
    (
        SchedV { switches: k.switches.wrapping_add(1), ..k }.with_task(
            n,
            TaskV { state: State::Running, on_cpu: cpu as u8, ..k.tasks[n] },
        ),
        p.with_cpu(cpu, Cpu { switches: c.switches.wrapping_add(1), current: n as usize, ..c }),
    )
}

fn take_up(s: &mut Sched, p: &mut Smp, cpu: usize, n: usize) -> (r: Resume)
    requires
        old(s).wf(),
        old(p).wf(),
        cpu < MAX_CPUS,
        n < MAX_TASKS,
    ensures
        final(s).wf(),
        final(p).wf(),
        (final(s)@, final(p)@) == taken_up(old(s)@, old(p)@, cpu as int, n as int),
        r == resume_of(final(s)@, n as int),
{
    assert(s@.tasks[n as int] == s.tasks@[n as int]@);
    s.tasks[n].state = State::Running;
    s.tasks[n].on_cpu = cpu as u8;
    s.switches = s.switches.wrapping_add(1);
    assert(s@.tasks =~= taken_up(old(s)@, old(p)@, cpu as int, n as int).0.tasks);
    assert(s@.tasks[n as int] == s.tasks@[n as int]@);
    let res = Resume {
        slot: n,
        rsp0: s.tasks[n].kstack_top,
        pml4: s.tasks[n].pml4,
        fs_base: s.tasks[n].fs_base,
        frame: s.tasks[n].saved,
    };
    crate::cpu::smp::count_switch(p, cpu);
    crate::cpu::smp::set_current_task(p, cpu, n);
    assert(p@.cpus =~= taken_up(old(s)@, old(p)@, cpu as int, n as int).1.cpus);
    res
}

fn switch_now(s: &mut Sched, m: &mut Memory, p: &mut Smp, cpu: usize, regs: &Regs) -> (r: (Vec<Out>, Option<Resume>))
    requires
        old(s).wf(),
        old(m).wf(),
        crate::sched::runs_task(*old(p), cpu),
    ensures
        final(s).wf(),
        final(m).wf(),
        final(p).wf(),
        (final(s)@, final(m)@, final(p)@, crate::console::outs(r.0@), r.1) == switch_spec(
            old(s)@,
            old(m)@,
            old(p)@,
            cpu as int,
            *regs,
        ),
{
    let me: usize = p.cpus[cpu].current;
    park(s, me, regs);
    reap_zombies(s, m, me);
    let mut out = nothing();
    let next = choose_next(s, m, &mut out, me, cpu);
    match next {
        None => {
            let ghost k2 = s@;
            assert(s@.tasks[me as int] == s.tasks@[me as int]@);
            s.tasks[me].state = State::Running;
            s.tasks[me].on_cpu = cpu as u8;
            assert(s@.tasks =~= k2.tasks.update(
                me as int,
                TaskV { state: State::Running, on_cpu: cpu as u8, ..k2.tasks[me as int] },
            ));
            (out, None)
        },
        Some(n) => {
            let res = take_up(s, p, cpu, n);
            (out, Some(res))
        },
    }
}

/// The end of every interrupt: does the duties of a timer tick, ends a thread
/// whose process is gone, and switches tasks if that is wanted. Gives what is
/// printed and, on a switch, what resuming the next task takes; without one
/// the interrupted context goes on.
pub fn post_dispatch(
    s: &mut Sched,
    m: &mut Memory,
    p: &mut Smp,
    kb: &mut Keyboard,
    cpu: usize,
    now: u64,
    vec: u64,
    apic_on: bool,
    regs: &Regs,
) -> (r: (Vec<Out>, Option<Resume>))
    requires
        old(s).wf(),
        old(m).wf(),
        old(kb).wf(),
        crate::sched::runs_task(*old(p), cpu),
    ensures
        final(s).wf(),
        final(m).wf(),
        final(p).wf(),
        final(kb).wf(),
        (final(s)@, final(m)@, final(p)@, final(kb)@, crate::console::outs(r.0@), r.1) == dispatch_spec(
            old(s)@,
            old(m)@,
            old(p)@,
            old(kb)@,
            cpu as int,
            now,
            vec,
            apic_on,
            *regs,
        ),
{
    if !s.on {
        return (nothing(), None);
    }
    let me: usize = p.cpus[cpu].current;
    if vec == TIMER_VECTOR as u64 || (vec == 32 && !apic_on) {
        timer_duties(s, p, kb, cpu, now);
    }
    assert(s@.tasks[me as int] == s.tasks@[me as int]@);
    if s.tasks[me].die_flag && s.tasks[me].state == State::Running {
        finish_zombie(s, m, me, THREAD_KILLED_CODE);
    }
    let asked: bool = crate::cpu::smp::take_switch_request(p, cpu);
    assert(s@.tasks[me as int] == s.tasks@[me as int]@);
    if !asked && s.tasks[me].state == State::Running {
        return (nothing(), None);
    }
    switch_now(s, m, p, cpu, regs)
}

/// The task that a processor switches to was ready and may run there.
pub proof fn law_switch_resumes_a_ready_task(tasks: Seq<TaskV>, me: int, cpu: int)
    requires
        tasks.len() == MAX_TASKS,
    ensures
        pick_spec(tasks, me, cpu) matches Some(n) ==> 0 <= n < MAX_TASKS && n != me && tasks[n].state == State::Ready && (
        tasks[n].pinned_cpu == CPU_ANY || tasks[n].pinned_cpu == cpu),
{
    lemma_picked(tasks, me, cpu, MAX_TASKS as int);
}

/// No task runs on two processors: one that a processor took up runs there,
/// and no other picks it while it does.
pub proof fn law_no_task_runs_twice(k: SchedV, p: SmpV, cpu: int, n: int, other: int, me: int)
    requires
        k.tasks.len() == MAX_TASKS,
        0 <= cpu < MAX_CPUS,
        0 <= n < MAX_TASKS,
    ensures
        taken_up(k, p, cpu, n).0.tasks[n].state == State::Running,
        taken_up(k, p, cpu, n).0.tasks[n].on_cpu == cpu,
        pick_spec(taken_up(k, p, cpu, n).0.tasks, me, other) != Some(n),
{
    lemma_picked(taken_up(k, p, cpu, n).0.tasks, me, other, MAX_TASKS as int);
}

/// A kill cannot be caught: whatever handlers a task has, it ends when a kill
/// is the first of its pending signals.
pub proof fn law_kill_cannot_be_caught(k: SchedV, m: MemV, i: int)
    requires
        k.tasks[i].is_user,
        k.tasks[i].user_space is Some,
        lowest_signal(k.tasks[i].sig_pending, 0) == Some(SIGKILL as int),
    ensures
        ({
            let (k1, m1, _, d) = deliver_spec(k, m, i);
            d == Delivery::Terminated && (k1, m1) == crate::sched::process::finished(k, m, i, 137)
        }),
{
}

proof fn lemma_round(tasks: Seq<TaskV>, me: int, cpu: int, n: int, j: int)
    requires
        0 <= j < n <= tasks.len(),
        j != me,
        may_run(tasks[j], cpu),
    ensures
        !crate::sched::idle_name(tasks[j].name) ==> (picked(tasks, me, cpu, n).0 matches Some(b) && !sooner(
            tasks[j].pid,
            tasks[b].pid,
            tasks[me].pid,
        )),
        crate::sched::idle_name(tasks[j].name) ==> picked(tasks, me, cpu, n).1 is Some,
    decreases n,
{
    if j < n - 1 {
        lemma_round(tasks, me, cpu, n - 1, j);
    }
}

/// The round is fair: the task that is picked comes first, in the order of
/// pids that starts after the current one, among the tasks that may run; an
/// idle task runs only when nothing else may, and nobody is picked only when
/// nobody else may run.
pub proof fn law_round_robin(tasks: Seq<TaskV>, me: int, cpu: int, j: int)
    requires
        tasks.len() == MAX_TASKS,
        0 <= j < MAX_TASKS,
        j != me,
        may_run(tasks[j], cpu),
    ensures
        pick_spec(tasks, me, cpu) is Some,
        !crate::sched::idle_name(tasks[j].name) ==> ({
            let n = pick_spec(tasks, me, cpu)->Some_0;
            !crate::sched::idle_name(tasks[n].name) && !sooner(tasks[j].pid, tasks[n].pid, tasks[me].pid)
        }),
{
    lemma_round(tasks, me, cpu, MAX_TASKS as int, j);
    lemma_not_idle(tasks, me, cpu, MAX_TASKS as int);
}

proof fn lemma_not_idle(tasks: Seq<TaskV>, me: int, cpu: int, n: int)
    ensures
        picked(tasks, me, cpu, n).0 matches Some(b) ==> !crate::sched::idle_name(tasks[b].name),
    decreases n,
{
    if n > 0 {
        lemma_not_idle(tasks, me, cpu, n - 1);
    }
}

/// A tick never takes the processor from a kernel task.
pub proof fn law_kernel_tasks_are_not_preempted(k: SchedV, p: SmpV, kb: KeyV, cpu: int, now: u64)
    requires
        k.wf(),
        0 <= crate::sched::slot_on(p.cpus, cpu) < MAX_TASKS,
        !k.tasks[crate::sched::slot_on(p.cpus, cpu)].is_user,
        k.tasks[crate::sched::slot_on(p.cpus, cpu)].state == State::Running,
    ensures
        timer_spec(k, p, kb, cpu, now).1 == p,
        timer_spec(k, p, kb, cpu, now).0.tasks[crate::sched::slot_on(p.cpus, cpu)].state == State::Running,
{
    let k1 = SchedV { tasks: k.tasks.map_values(|t: TaskV| rested(t, now)), ..k };
    crate::seqs::lemma_first_from(k1.tasks, waits_for_key(), 0);
}

} // verus!
