//! Processes and threads: how they end, and how others wait for it; fork,
//! clone, exec and kill.

use vstd::prelude::*;

use crate::cpu::gdt::{MAX_CPUS, USER_CODE_RPL3, USER_DATA_RPL3};
use crate::cpu::idt::Regs;
use crate::cpu::smp::{Cpu, Smp, SmpV};
use crate::mem::frames;
use crate::mem::vmm::{AddressSpace, MemV, Memory};
use crate::sched::{
    alloc_kstack, current_out_win, current_pid, cut_name, find_dead, find_pid, Ended, Sched, SchedV, State, Task, TaskV,
    CPU_ANY, KSTACK_PAGES, MAX_TASKS, THREAD_KILLED_CODE, USER_HALF_LIMIT,
};
use crate::user::signal::NSIG;

verus! {

// ---------------------------------------------------------------------------
// The exit-code mailbox
// ---------------------------------------------------------------------------
/// The mailbox with a task added; the oldest one makes room.
pub open spec fn log_push(log: Seq<Ended>, e: Ended) -> Seq<Ended> {
    if log.len() >= MAX_TASKS {
        log.skip(1).push(e)
    } else {
        log.push(e)
    }
}

fn reap_log_push(s: &mut Sched, e: Ended)
    requires
        old(s).wf(),
    ensures
        final(s).wf(),
        final(s)@ == (SchedV { log: log_push(old(s)@.log, e), ..old(s)@ }),
{
    if s.log.len() >= MAX_TASKS {
        s.log.remove(0);
        assert(s.log@ =~= old(s)@.log.skip(1));
    }
    s.log.push(e);
    assert(s@.log =~= log_push(old(s)@.log, e));
}

/// The mailbox entry of the child process `target` of `parent`.
pub open spec fn logs_child(parent: u64, target: u64) -> spec_fn(Ended) -> bool {
    |e: Ended| e.pid == target && e.pid == e.tgid && e.parent == parent
}

/// The mailbox entry of the thread `target` of the process `tgid`, beside
/// `pid`, that no join has had.
pub open spec fn logs_thread(tgid: u64, pid: u64, target: u64) -> spec_fn(Ended) -> bool {
    |e: Ended| e.pid == target && e.tgid == tgid && e.pid != pid && !e.joined
}

/// The exit code of a task in the mailbox, which is taken out.
pub open spec fn log_take(k: SchedV, f: spec_fn(Ended) -> bool) -> (SchedV, Option<i64>) {
    match crate::seqs::first(k.log, f) {
        None => (k, None),
        Some(i) => (SchedV { log: k.log.remove(i), ..k }, Some(k.log[i].code)),
    }
}

fn reap_log_take(s: &mut Sched, thread: bool, owner: u64, pid: u64, target: u64) -> (r: Option<i64>)
    requires
        old(s).wf(),
    ensures
        final(s).wf(),
        (final(s)@, r) == log_take(
            old(s)@,
            if thread {
                logs_thread(owner, pid, target)
            } else {
                logs_child(owner, target)
            },
        ),
{
    let ghost f = if thread {
        logs_thread(owner, pid, target)
    } else {
        logs_child(owner, target)
    };
    let n: usize = s.log.len();
    let mut i: usize = 0;
    while i < n
        invariant
            n == s.log@.len(),
            i <= n,
            s.wf(),
            *s == *old(s),
            f == (if thread {
                logs_thread(owner, pid, target)
            } else {
                logs_child(owner, target)
            }),
            crate::seqs::first_from(s@.log, f, i as int) == crate::seqs::first(s@.log, f),
        decreases n - i,
    {
        let e: Ended = s.log[i];
        let right: bool = if thread {
            e.tgid == owner && e.pid != pid && !e.joined
        } else {
            e.pid == e.tgid && e.parent == owner
        };
        if e.pid == target && right {
            s.log.remove(i);
            assert(s@.log =~= old(s)@.log.remove(i as int));
            return Some(e.code);
        }
        i = i + 1;
    }
    None
}

// ---------------------------------------------------------------------------
// Reclaiming
// ---------------------------------------------------------------------------
/// Memory with the frames of a kernel stack from `i` on given back.
pub open spec fn stack_freed(m: MemV, pa: u64, i: int) -> MemV
    decreases KSTACK_PAGES - i,
{
    if i < 0 || i >= KSTACK_PAGES {
        m
    } else {
        stack_freed(
            MemV { frames: crate::mem::frames::free_spec(m.frames, pa.wrapping_add((i * 4096) as u64)), ..m },
            pa,
            i + 1,
        )
    }
}

/// A slot is emptied; a kernel stack that the task owned is given back.
pub open spec fn slot_freed(k: SchedV, m: MemV, i: int) -> (SchedV, MemV) {
    let t = k.tasks[i];
    (
        k.with_task(i, crate::sched::dead_task()),
        if t.kstack_owned && t.kstack_bottom != 0 {
            stack_freed(m, t.kstack_bottom.wrapping_sub(k.hhdm), 0)
        } else {
            m
        },
    )
}

fn free_slot(s: &mut Sched, m: &mut Memory, i: usize)
    requires
        old(s).wf(),
        old(m).wf(),
        i < MAX_TASKS,
    ensures
        final(s).wf(),
        final(m).wf(),
        (final(s)@, final(m)@) == slot_freed(old(s)@, old(m)@, i as int),
{
    assert(s@.tasks[i as int] == s.tasks@[i as int]@);
    if s.tasks[i].kstack_owned && s.tasks[i].kstack_bottom != 0 {
        let pa: u64 = s.tasks[i].kstack_bottom.wrapping_sub(s.hhdm);
        let mut k: usize = 0;
        while k < KSTACK_PAGES
            invariant
                k <= KSTACK_PAGES,
                m.wf(),
                stack_freed(m@, pa, k as int) == stack_freed(old(m)@, pa, 0),
            decreases KSTACK_PAGES - k,
        {
            frames::free(&mut m.frames, pa.wrapping_add((k * 4096) as u64));
            k = k + 1;
        }
    }
    s.put(i, Task::dead());
}

/// A zombie is reclaimed; its exit code goes into the mailbox.
pub open spec fn reaped(k: SchedV, m: MemV, i: int) -> (SchedV, MemV) {
    slot_freed(SchedV { log: log_push(k.log, ended(k.tasks[i])), ..k }, m, i)
}

/// What the mailbox keeps of a task.
pub open spec fn ended(t: TaskV) -> Ended {
    Ended { pid: t.pid, code: t.exit_code, tgid: t.tgid, parent: t.parent, joined: t.joined }
}

pub fn reap_zombie(s: &mut Sched, m: &mut Memory, i: usize)
    requires
        old(s).wf(),
        old(m).wf(),
        i < MAX_TASKS,
    ensures
        final(s).wf(),
        final(m).wf(),
        (final(s)@, final(m)@) == reaped(old(s)@, old(m)@, i as int),
{
    assert(s@.tasks[i as int] == s.tasks@[i as int]@);
    let e = Ended {
        pid: s.tasks[i].pid,
        code: s.tasks[i].exit_code,
        tgid: s.tasks[i].tgid,
        parent: s.tasks[i].parent,
        joined: s.tasks[i].joined,
    };
    reap_log_push(s, e);
    free_slot(s, m, i);
}

/// No other task shares the address space of the one in slot `i`.
pub open spec fn last_owner(tasks: Seq<TaskV>, i: int) -> bool {
    forall|j: int|
        0 <= j < tasks.len() && j != i ==> !((#[trigger] tasks[j]).user_space is Some && tasks[j].user_space->Some_0.pml4
            == tasks[i].user_space->Some_0.pml4)
}

fn is_last_owner(s: &Sched, i: usize, pml4: u64) -> (r: bool)
    requires
        s.wf(),
        i < MAX_TASKS,
        s@.tasks[i as int].user_space is Some,
        s@.tasks[i as int].user_space->Some_0.pml4 == pml4,
    ensures
        r == last_owner(s@.tasks, i as int),
{
    let mut j: usize = 0;
    while j < MAX_TASKS
        invariant
            j <= MAX_TASKS,
            s.wf(),
            i < MAX_TASKS,
            s@.tasks[i as int].user_space is Some,
            s@.tasks[i as int].user_space->Some_0.pml4 == pml4,
            forall|l: int|
                0 <= l < j && l != i ==> !((#[trigger] s@.tasks[l]).user_space is Some
                    && s@.tasks[l].user_space->Some_0.pml4 == pml4),
        decreases MAX_TASKS - j,
    {
        assert(s@.tasks[j as int] == s.tasks@[j as int]@);
        if j != i {
            match s.tasks[j].user_space {
                Some(x) => {
                    if x.pml4 == pml4 {
                        return false;
                    }
                },
                None => {},
            }
        }
        j = j + 1;
    }
    true
}

/// A task lets go of its address space; with its last owner the space goes.
/// On the exit path the PML4 may still be loaded and is kept.
pub open spec fn space_dropped(k: SchedV, m: MemV, i: int, keep_root: bool) -> (SchedV, MemV) {
    let t = k.tasks[i];
    (
        k.with_task(i, TaskV { user_space: None, ..t }),
        match t.user_space {
            Some(sp) => if last_owner(k.tasks, i) {
                crate::mem::vmm::free_all_spec(m, sp.pml4, sp.owns_lower_half, keep_root).0
            } else {
                m
            },
            None => m,
        },
    )
}

fn drop_space(s: &mut Sched, m: &mut Memory, i: usize, keep_root: bool)
    requires
        old(s).wf(),
        old(m).wf(),
        i < MAX_TASKS,
    ensures
        final(s).wf(),
        final(m).wf(),
        (final(s)@, final(m)@) == space_dropped(old(s)@, old(m)@, i as int, keep_root),
{
    assert(s@.tasks[i as int] == s.tasks@[i as int]@);
    match s.tasks[i].user_space {
        Some(sp) => {
            if is_last_owner(s, i, sp.pml4) {
                if keep_root {
                    let _n: u64 = sp.destroy_keep_root(m);
                } else {
                    let _n: u64 = sp.destroy(m);
                }
            }
        },
        None => {},
    }
    s.tasks[i].user_space = None;
    assert(s@.tasks =~= old(s)@.tasks.update(i as int, TaskV { user_space: None, ..old(s)@.tasks[i as int] }));
}

// ---------------------------------------------------------------------------
// Ending
// ---------------------------------------------------------------------------
pub open spec fn waits_for(parent: u64, pid: u64) -> spec_fn(TaskV) -> bool {
    |t: TaskV|
        t.state == State::WaitingChild && t.pid == parent && (t.wait_target == 0 || t.wait_target == pid)
}

pub open spec fn joins_on(tgid: u64, pid: u64) -> spec_fn(TaskV) -> bool {
    |t: TaskV| t.state == State::BlockedJoin && t.tgid == tgid && (t.join_target == pid || t.join_target == 0)
}

/// A suspended frame with a result put into it.
pub open spec fn answered(f: Option<Regs>, rax: u64) -> Option<Regs> {
    match f {
        Some(r) => Some(Regs { rax, ..r }),
        None => None,
    }
}

/// The one that waits for the end of the task in slot `i` is woken, with the
/// exit code as its result: the parent of a process, or a thread that joins a
/// thread, which is then marked as joined.
pub open spec fn woken(k: SchedV, i: int, process: bool, code: i64) -> SchedV {
    let t = k.tasks[i];
    if process {
        match crate::seqs::first(k.tasks, waits_for(t.parent, t.pid)) {
            Some(j) => k.with_task(
                j,
                TaskV {
                    saved: answered(k.tasks[j].saved, code as u64),
                    wait_target: 0,
                    state: State::Ready,
                    ..k.tasks[j]
                },
            ),
            None => k,
        }
    } else {
        match crate::seqs::first(k.tasks, joins_on(t.tgid, t.pid)) {
            Some(j) => {
                let k1 = k.with_task(
                    j,
                    TaskV {
                        saved: answered(k.tasks[j].saved, code as u64),
                        join_target: 0,
                        state: State::Ready,
                        ..k.tasks[j]
                    },
                );
                k1.with_task(i, TaskV { joined: true, ..k1.tasks[i] })
            },
            None => k,
        }
    }
}

fn find_waiter(s: &Sched, i: usize, process: bool) -> (r: Option<usize>)
    requires
        s.wf(),
        i < MAX_TASKS,
    ensures
        match (
            r,
            crate::seqs::first(
                s@.tasks,
                if process {
                    waits_for(s@.tasks[i as int].parent, s@.tasks[i as int].pid)
                } else {
                    joins_on(s@.tasks[i as int].tgid, s@.tasks[i as int].pid)
                },
            ),
        ) {
            (Some(j), Some(l)) => j == l && j < MAX_TASKS,
            (None, None) => true,
            _ => false,
        },
{
    assert(s@.tasks[i as int] == s.tasks@[i as int]@);
    let pid: u64 = s.tasks[i].pid;
    let parent: u64 = s.tasks[i].parent;
    let tgid: u64 = s.tasks[i].tgid;
    let ghost f = if process {
        waits_for(parent, pid)
    } else {
        joins_on(tgid, pid)
    };
    let mut j: usize = 0;
    while j < MAX_TASKS
        invariant
            j <= MAX_TASKS,
            i < MAX_TASKS,
            s.wf(),
            pid == s@.tasks[i as int].pid,
            parent == s@.tasks[i as int].parent,
            tgid == s@.tasks[i as int].tgid,
            f == (if process {
                waits_for(parent, pid)
            } else {
                joins_on(tgid, pid)
            }),
            crate::seqs::first_from(s@.tasks, f, j as int) == crate::seqs::first(s@.tasks, f),
        decreases MAX_TASKS - j,
    {
        assert(s@.tasks[j as int] == s.tasks@[j as int]@);
        let hit: bool = if process {
            s.tasks[j].state == State::WaitingChild && s.tasks[j].pid == parent && (s.tasks[j].wait_target == 0
                || s.tasks[j].wait_target == pid)
        } else {
            s.tasks[j].state == State::BlockedJoin && s.tasks[j].tgid == tgid && (s.tasks[j].join_target == pid
                || s.tasks[j].join_target == 0)
        };
        if hit {
            return Some(j);
        }
        j = j + 1;
    }
    None
}

fn wake_waiter(s: &mut Sched, i: usize, process: bool, code: i64)
    requires
        old(s).wf(),
        i < MAX_TASKS,
    ensures
        final(s).wf(),
        final(s)@ == woken(old(s)@, i as int, process, code),
{
    let j: usize = match find_waiter(s, i, process) {
        None => {
            return;
        },
        Some(j) => j,
    };
    let ghost k = s@;
    assert(s@.tasks[j as int] == s.tasks@[j as int]@);
    match s.tasks[j].saved {
        Some(f) => {
            let mut g = f;
            g.rax = code as u64;
            s.tasks[j].saved = Some(g);
        },
        None => {},
    }
    if process {
        s.tasks[j].wait_target = 0;
    } else {
        s.tasks[j].join_target = 0;
    }
    s.tasks[j].state = State::Ready;
    if process {
        assert(s@.tasks =~= woken(k, i as int, process, code).tasks);
    } else {
        let ghost k1 = s@;
        assert(k1.tasks =~= k.with_task(
            j as int,
            TaskV {
                saved: answered(k.tasks[j as int].saved, code as u64),
                join_target: 0,
                state: State::Ready,
                ..k.tasks[j as int]
            },
        ).tasks);
        assert(k1.tasks[i as int] == s.tasks@[i as int]@);
        s.tasks[i].joined = true;
        assert(s@.tasks =~= k1.tasks.update(i as int, TaskV { joined: true, ..k1.tasks[i as int] }));
    }
}

/// The task in slot `i` becomes a zombie with an exit code: it lets go of its
/// address space, and whoever waits for it is woken.
pub open spec fn finished(k: SchedV, m: MemV, i: int, code: i64) -> (SchedV, MemV) {
    let process = k.tasks[i].pid == k.tasks[i].tgid;
    let (k1, m1) = space_dropped(k, m, i, true);
    let k2 = k1.with_task(
        i,
        TaskV { exit_code: code, state: State::Zombie, on_cpu: CPU_ANY, ..k1.tasks[i] },
    );
    (woken(k2, i, process, code), m1)
}

pub fn finish_zombie(s: &mut Sched, m: &mut Memory, i: usize, code: i64)
    requires
        old(s).wf(),
        old(m).wf(),
        i < MAX_TASKS,
    ensures
        final(s).wf(),
        final(m).wf(),
        (final(s)@, final(m)@) == finished(old(s)@, old(m)@, i as int, code),
{
    assert(s@.tasks[i as int] == s.tasks@[i as int]@);
    let process: bool = s.tasks[i].pid == s.tasks[i].tgid;
    drop_space(s, m, i, true);
    let ghost k1 = s@;
    s.tasks[i].exit_code = code;
    s.tasks[i].state = State::Zombie;
    s.tasks[i].on_cpu = CPU_ANY;
    assert(s@.tasks =~= k1.tasks.update(
        i as int,
        TaskV { exit_code: code, state: State::Zombie, on_cpu: CPU_ANY, ..k1.tasks[i as int] },
    ));
    wake_waiter(s, i, process, code);
}

/// A thread of the process `tgid` that still lives.
pub open spec fn lives_in(t: TaskV, tgid: u64) -> bool {
    t.state != State::Dead && t.state != State::Zombie && t.is_user && t.tgid == tgid
}

/// Takes the threads of a process down, from slot `i` on, all but `me`: one
/// that runs is marked, the others end at once. `swept` are the pids of those.
pub open spec fn sweep(k: SchedV, m: MemV, me: int, tgid: u64, i: int, swept: Seq<u64>) -> (SchedV, MemV, Seq<u64>)
    decreases MAX_TASKS - i,
{
    if i < 0 || i >= MAX_TASKS {
        (k, m, swept)
    } else {
        let t = k.tasks[i];
        if i == me || !lives_in(t, tgid) {
            sweep(k, m, me, tgid, i + 1, swept)
        } else if t.state == State::Running {
            sweep(k.with_task(i, TaskV { die_flag: true, ..t }), m, me, tgid, i + 1, swept)
        } else {
            let (k1, m1) = finished(k, m, i, THREAD_KILLED_CODE);
            sweep(k1, m1, me, tgid, i + 1, swept.push(t.pid))
        }
    }
}

/// What the end of a process leaves: the pids of the threads that ended with
/// it.
pub open spec fn exit_spec(k: SchedV, m: MemV, me: int, code: i64) -> (SchedV, MemV, Seq<u64>) {
    let t = k.tasks[me];
    let (k1, m1, swept) = if t.is_user {
        sweep(k, m, me, t.tgid, 0, Seq::empty())
    } else {
        (k, m, Seq::empty())
    };
    let (k2, m2) = finished(k1, m1, me, code);
    (k2, m2, swept)
}

fn sweep_threads(s: &mut Sched, m: &mut Memory, me: usize, tgid: u64) -> (swept: Vec<u64>)
    requires
        old(s).wf(),
        old(m).wf(),
        me < MAX_TASKS,
    ensures
        final(s).wf(),
        final(m).wf(),
        (final(s)@, final(m)@, swept@) == sweep(old(s)@, old(m)@, me as int, tgid, 0, Seq::empty()),
{
    let mut swept: Vec<u64> = Vec::new();
    let mut i: usize = 0;
    assert(swept@ =~= Seq::empty());
    while i < MAX_TASKS
        invariant
            i <= MAX_TASKS,
            s.wf(),
            m.wf(),
            sweep(s@, m@, me as int, tgid, i as int, swept@) == sweep(
                old(s)@,
                old(m)@,
                me as int,
                tgid,
                0,
                Seq::empty(),
            ),
        decreases MAX_TASKS - i,
    {
        assert(s@.tasks[i as int] == s.tasks@[i as int]@);
        let st: State = s.tasks[i].state;
        if i != me && st != State::Dead && st != State::Zombie && s.tasks[i].is_user && s.tasks[i].tgid == tgid {
            if st == State::Running {
                let ghost k0 = s@;
                s.tasks[i].die_flag = true;
                assert(s@.tasks =~= k0.tasks.update(i as int, TaskV { die_flag: true, ..k0.tasks[i as int] }));
            } else {
                let pid: u64 = s.tasks[i].pid;
                finish_zombie(s, m, i, THREAD_KILLED_CODE);
                swept.push(pid);
            }
        }
        i = i + 1;
    }
    swept
}

/// Ends the running process. Its other threads end with it, those that run on
/// other processors at their next interrupt. Gives its pid and those of the
/// threads that ended: the windows of the former and the files of all are
/// theirs to take along. The processor must switch.
pub fn exit_current(s: &mut Sched, m: &mut Memory, p: &mut Smp, cpu: usize, code: i64) -> (r: (u64, Vec<u64>))
    requires
        old(s).wf(),
        old(m).wf(),
        crate::sched::runs_task(*old(p), cpu),
    ensures
        final(s).wf(),
        final(m).wf(),
        final(p).wf(),
        final(p)@ == crate::cpu::smp::asked(old(p)@, cpu as int),
        ({
            let me = crate::sched::slot_on(old(p)@.cpus, cpu as int);
            &&& (final(s)@, final(m)@, r.1@) == exit_spec(old(s)@, old(m)@, me, code)
            &&& r.0 == final(s)@.tasks[me].pid
        }),
{
    let me: usize = p.cpus[cpu].current;
    assert(s@.tasks[me as int] == s.tasks@[me as int]@);
    let tgid: u64 = s.tasks[me].tgid;
    let mut swept: Vec<u64> = Vec::new();
    assert(swept@ =~= Seq::empty());
    if s.tasks[me].is_user {
        swept = sweep_threads(s, m, me, tgid);
    }
    finish_zombie(s, m, me, code);
    assert(s@.tasks[me as int] == s.tasks@[me as int]@);
    crate::cpu::smp::request_switch(p, cpu);
    (s.tasks[me].pid, swept)
}

/// What the end of a thread leaves; that of a main thread is the end of its
/// process.
pub open spec fn texit_spec(k: SchedV, m: MemV, me: int, code: i64) -> (SchedV, MemV, Seq<u64>) {
    if k.tasks[me].pid == k.tasks[me].tgid {
        exit_spec(k, m, me, code)
    } else {
        let (k1, m1) = finished(k, m, me, code);
        (k1, m1, Seq::empty())
    }
}

/// Ends the running thread; the process goes on, unless it is its main
/// thread. Gives the pid, those of threads that ended with it, and whether
/// the whole process ended. The processor must switch.
pub fn sys_texit_current(s: &mut Sched, m: &mut Memory, p: &mut Smp, cpu: usize, code: i64) -> (r: (
    u64,
    Vec<u64>,
    bool,
))
    requires
        old(s).wf(),
        old(m).wf(),
        crate::sched::runs_task(*old(p), cpu),
    ensures
        final(s).wf(),
        final(m).wf(),
        final(p).wf(),
        final(p)@ == crate::cpu::smp::asked(old(p)@, cpu as int),
        ({
            let me = crate::sched::slot_on(old(p)@.cpus, cpu as int);
            &&& (final(s)@, final(m)@, r.1@) == texit_spec(old(s)@, old(m)@, me, code)
            &&& r.0 == final(s)@.tasks[me].pid
            &&& r.2 == (old(s)@.tasks[me].pid == old(s)@.tasks[me].tgid)
        }),
{
    let me: usize = p.cpus[cpu].current;
    assert(s@.tasks[me as int] == s.tasks@[me as int]@);
    if s.tasks[me].pid == s.tasks[me].tgid {
        let (pid, swept) = exit_current(s, m, p, cpu, code);
        return (pid, swept, true);
    }
    finish_zombie(s, m, me, code);
    assert(s@.tasks[me as int] == s.tasks@[me as int]@);
    crate::cpu::smp::request_switch(p, cpu);
    let none: Vec<u64> = Vec::new();
    assert(none@ =~= Seq::empty());
    (s.tasks[me].pid, none, false)
}

// ---------------------------------------------------------------------------
// Waiting
// ---------------------------------------------------------------------------
pub open spec fn ended_child(parent: u64, target: u64) -> spec_fn(TaskV) -> bool {
    |t: TaskV|
        t.state == State::Zombie && t.parent == parent && t.pid == t.tgid && (target == 0 || target == t.pid)
}

/// What waiting for a child does: the exit code is there, among the zombies
/// or in the mailbox, or the task is parked until it is.
pub open spec fn wait_spec(k: SchedV, p: SmpV, cpu: int, r: Regs, target: u64) -> (SchedV, SmpV, Regs) {
    let me = crate::sched::slot_on(p.cpus, cpu);
    let (k1, done) = match crate::seqs::first(k.tasks, ended_child(k.tasks[me].pid, target)) {
        Some(i) => (k, Some(k.tasks[i].exit_code)),
        None => if target != 0 {
            log_take(k, logs_child(k.tasks[me].pid, target))
        } else {
            (k, None)
        },
    };
    match done {
        Some(code) => (k1, p, Regs { rax: code as u64, ..r }),
        None => (
            k1.with_task(me, TaskV { wait_target: target, state: State::WaitingChild, ..k1.tasks[me] }),
            crate::cpu::smp::asked(p, cpu),
            Regs { rax: 0, ..r },
        ),
    }
}

fn find_ended_child(s: &Sched, parent: u64, target: u64) -> (r: Option<usize>)
    requires
        s.wf(),
    ensures
        match (r, crate::seqs::first(s@.tasks, ended_child(parent, target))) {
            (Some(i), Some(j)) => i == j && i < MAX_TASKS,
            (None, None) => true,
            _ => false,
        },
{
    let mut i: usize = 0;
    while i < MAX_TASKS
        invariant
            i <= MAX_TASKS,
            s.wf(),
            crate::seqs::first_from(s@.tasks, ended_child(parent, target), i as int) == crate::seqs::first(
                s@.tasks,
                ended_child(parent, target),
            ),
        decreases MAX_TASKS - i,
    {
        assert(s@.tasks[i as int] == s.tasks@[i as int]@);
        if s.tasks[i].state == State::Zombie && s.tasks[i].parent == parent && s.tasks[i].pid == s.tasks[i].tgid && (target
            == 0 || target == s.tasks[i].pid) {
            return Some(i);
        }
        i = i + 1;
    }
    None
}

/// Waits for a child process, any of them if `target` is 0. The exit code is
/// the result of the call, at once or when the child exits.
pub fn sys_wait(s: &mut Sched, p: &mut Smp, cpu: usize, regs: &mut Regs, target: u64)
    requires
        old(s).wf(),
        crate::sched::runs_task(*old(p), cpu),
    ensures
        final(s).wf(),
        final(p).wf(),
        (final(s)@, final(p)@, *final(regs)) == wait_spec(old(s)@, old(p)@, cpu as int, *old(regs), target),
{
    let me: usize = p.cpus[cpu].current;
    assert(s@.tasks[me as int] == s.tasks@[me as int]@);
    let pid: u64 = s.tasks[me].pid;
    let mut done: Option<i64> = None;
    match find_ended_child(s, pid, target) {
        Some(i) => {
            assert(s@.tasks[i as int] == s.tasks@[i as int]@);
            done = Some(s.tasks[i].exit_code);
        },
        None => {
            if target != 0 {
                done = reap_log_take(s, false, pid, pid, target);
            }
        },
    }
    match done {
        Some(code) => {
            regs.rax = code as u64;
            return;
        },
        None => {},
    }
    let ghost k1 = s@;
    s.tasks[me].wait_target = target;
    s.tasks[me].state = State::WaitingChild;
    assert(s@.tasks =~= k1.tasks.update(
        me as int,
        TaskV { wait_target: target, state: State::WaitingChild, ..k1.tasks[me as int] },
    ));
    regs.rax = 0;
    crate::cpu::smp::request_switch(p, cpu);
}

pub open spec fn ended_thread(tgid: u64, pid: u64, target: u64) -> spec_fn(TaskV) -> bool {
    |t: TaskV|
        t.state == State::Zombie && !t.joined && t.tgid == tgid && t.pid != pid && (target == 0 || target == t.pid)
}

pub open spec fn live_thread(tgid: u64, pid: u64, target: u64) -> spec_fn(TaskV) -> bool {
    |t: TaskV| lives_in(t, tgid) && t.pid != pid && (target == 0 || target == t.pid)
}

/// What joining a thread does: a thread that ended, and that no other has
/// joined, is reclaimed and its exit code given; one that was reclaimed before
/// left it in the mailbox; one that lives is waited for; else there is none.
pub open spec fn join_spec(k: SchedV, m: MemV, p: SmpV, cpu: int, r: Regs, target: u64) -> (SchedV, MemV, SmpV, Regs) {
    let me = crate::sched::slot_on(p.cpus, cpu);
    let t = k.tasks[me];
    if !t.is_user {
        (k, m, p, Regs { rax: u64::MAX, ..r })
    } else {
        match crate::seqs::first(k.tasks, ended_thread(t.tgid, t.pid, target)) {
            Some(i) => {
                let (k1, m1) = reaped(k.with_task(i, TaskV { joined: true, ..k.tasks[i] }), m, i);
                (k1, m1, p, Regs { rax: k.tasks[i].exit_code as u64, ..r })
            },
            None => {
                let (k1, code) = if target != 0 {
                    log_take(k, logs_thread(t.tgid, t.pid, target))
                } else {
                    (k, None)
                };
                match code {
                    Some(c) => (k1, m, p, Regs { rax: c as u64, ..r }),
                    None => if crate::seqs::first(k1.tasks, live_thread(t.tgid, t.pid, target)) is None {
                        (k1, m, p, Regs { rax: u64::MAX, ..r })
                    } else {
                        (
                            k1.with_task(me, TaskV { join_target: target, state: State::BlockedJoin, ..k1.tasks[me] }),
                            m,
                            crate::cpu::smp::asked(p, cpu),
                            Regs { rax: 0, ..r },
                        )
                    },
                }
            },
        }
    }
}

fn find_thread(s: &Sched, ended: bool, tgid: u64, pid: u64, target: u64) -> (r: Option<usize>)
    requires
        s.wf(),
    ensures
        match (
            r,
            crate::seqs::first(
                s@.tasks,
                if ended {
                    ended_thread(tgid, pid, target)
                } else {
                    live_thread(tgid, pid, target)
                },
            ),
        ) {
            (Some(i), Some(j)) => i == j && i < MAX_TASKS,
            (None, None) => true,
            _ => false,
        },
{
    let ghost f = if ended {
        ended_thread(tgid, pid, target)
    } else {
        live_thread(tgid, pid, target)
    };
    let mut i: usize = 0;
    while i < MAX_TASKS
        invariant
            i <= MAX_TASKS,
            s.wf(),
            f == (if ended {
                ended_thread(tgid, pid, target)
            } else {
                live_thread(tgid, pid, target)
            }),
            crate::seqs::first_from(s@.tasks, f, i as int) == crate::seqs::first(s@.tasks, f),
        decreases MAX_TASKS - i,
    {
        assert(s@.tasks[i as int] == s.tasks@[i as int]@);
        let st: State = s.tasks[i].state;
        let right: bool = if ended {
            st == State::Zombie && !s.tasks[i].joined
        } else {
            st != State::Dead && st != State::Zombie && s.tasks[i].is_user
        };
        if right && s.tasks[i].tgid == tgid && s.tasks[i].pid != pid && (target == 0 || target == s.tasks[i].pid) {
            return Some(i);
        }
        i = i + 1;
    }
    None
}

/// Waits for a thread of the same process, any of them if `target` is 0. The
/// result of the call is its exit code, or -1 if there is no such thread.
pub fn sys_join(s: &mut Sched, m: &mut Memory, p: &mut Smp, cpu: usize, regs: &mut Regs, target: u64)
    requires
        old(s).wf(),
        old(m).wf(),
        crate::sched::runs_task(*old(p), cpu),
    ensures
        final(s).wf(),
        final(m).wf(),
        final(p).wf(),
        (final(s)@, final(m)@, final(p)@, *final(regs)) == join_spec(
            old(s)@,
            old(m)@,
            old(p)@,
            cpu as int,
            *old(regs),
            target,
        ),
{
    let me: usize = p.cpus[cpu].current;
    assert(s@.tasks[me as int] == s.tasks@[me as int]@);
    if !s.tasks[me].is_user {
        regs.rax = u64::MAX;
        return;
    }
    let tgid: u64 = s.tasks[me].tgid;
    let pid: u64 = s.tasks[me].pid;
    match find_thread(s, true, tgid, pid, target) {
        Some(i) => {
            assert(s@.tasks[i as int] == s.tasks@[i as int]@);
            let code: i64 = s.tasks[i].exit_code;
            s.tasks[i].joined = true;
            assert(s@.tasks =~= old(s)@.tasks.update(
                i as int,
                TaskV { joined: true, ..old(s)@.tasks[i as int] },
            ));
            reap_zombie(s, m, i);
            regs.rax = code as u64;
            return;
        },
        None => {},
    }
    if target != 0 {
        match reap_log_take(s, true, tgid, pid, target) {
            Some(code) => {
                regs.rax = code as u64;
                return;
            },
            None => {},
        }
    }
    if find_thread(s, false, tgid, pid, target).is_none() {
        regs.rax = u64::MAX;
        return;
    }
    let ghost k1 = s@;
    s.tasks[me].join_target = target;
    s.tasks[me].state = State::BlockedJoin;
    assert(s@.tasks =~= k1.tasks.update(
        me as int,
        TaskV { join_target: target, state: State::BlockedJoin, ..k1.tasks[me as int] },
    ));
    regs.rax = 0;
    crate::cpu::smp::request_switch(p, cpu);
}

// ---------------------------------------------------------------------------
// Killing
// ---------------------------------------------------------------------------
pub open spec fn kill_spec(k: SchedV, m: MemV, cpus: Seq<Cpu>, cpu: int, pid: u64) -> (
    SchedV,
    MemV,
    Result<Seq<char>, Seq<char>>,
) {
    if !k.on {
        (k, m, Err("scheduler offline"@))
    } else if pid == crate::sched::current_pid_spec(k, cpus, cpu) {
        (k, m, Err("cannot kill the running task"@))
    } else {
        match crate::seqs::first(k.tasks, crate::sched::has_pid(pid)) {
            None => (k, m, Err("no such task"@)),
            Some(i) => match k.tasks[i].state {
                State::Running => (k, m, Err("cannot kill a running task"@)),
                State::Zombie => {
                    let (k1, m1) = reaped(k, m, i);
                    (k1, m1, Ok("zombie reaped"@))
                },
                _ => {
                    let (k1, m1) = space_dropped(k, m, i, false);
                    let (k2, m2) = slot_freed(k1, m1, i);
                    (k2, m2, Ok("terminated"@))
                },
            },
        }
    }
}

/// A result in words.
pub open spec fn in_words(r: Result<&'static str, &'static str>, x: Result<Seq<char>, Seq<char>>) -> bool {
    match (r, x) {
        (Ok(a), Ok(b)) => a@ == b,
        (Err(a), Err(b)) => a@ == b,
        _ => false,
    }
}

/// Kills a task that does not run; a zombie is reclaimed.
pub fn kill(s: &mut Sched, m: &mut Memory, p: &Smp, cpu: usize, pid: u64) -> (r: Result<&'static str, &'static str>)
    requires
        old(s).wf(),
        old(m).wf(),
        p.wf(),
        cpu < MAX_CPUS,
    ensures
        final(s).wf(),
        final(m).wf(),
        ({
            let (k, n, x) = kill_spec(old(s)@, old(m)@, p.cpus@, cpu as int, pid);
            final(s)@ == k && final(m)@ == n && in_words(r, x)
        }),
{
    if !s.on {
        return Err("scheduler offline");
    }
    if pid == current_pid(s, p, cpu) {
        return Err("cannot kill the running task");
    }
    let i: usize = match find_pid(s, pid) {
        None => {
            return Err("no such task");
        },
        Some(i) => i,
    };
    assert(s@.tasks[i as int] == s.tasks@[i as int]@);
    let st: State = s.tasks[i].state;
    if st == State::Running {
        return Err("cannot kill a running task");
    }
    if st == State::Zombie {
        reap_zombie(s, m, i);
        return Ok("zombie reaped");
    }
    drop_space(s, m, i, false);
    free_slot(s, m, i);
    Ok("terminated")
}

// ---------------------------------------------------------------------------
// Fork and clone
// ---------------------------------------------------------------------------
/// The child of a fork: a new process with the parent's name and handlers, in
/// the parent's frame with a result of 0. Pending signals and thread-local
/// storage stay behind.
pub open spec fn forked_task(
    parent: TaskV,
    pid: u64,
    top: u64,
    bottom: u64,
    space: AddressSpace,
    frame: Regs,
    out_win: u32,
) -> TaskV {
    TaskV {
        pid,
        name: parent.name,
        state: State::Ready,
        kstack_top: top,
        kstack_bottom: bottom,
        kstack_owned: true,
        saved: Some(Regs { rax: 0, ..frame }),
        pml4: space.pml4,
        user_space: Some(space),
        parent: parent.pid,
        tgid: pid,
        is_user: true,
        sig_handlers: parent.sig_handlers,
        out_win,
        ..crate::sched::dead_task()
    }
}

/// A fork: the scheduler, memory, the result, and the pages of the parent
/// whose translations must be dropped everywhere.
pub open spec fn sys_fork_spec(k: SchedV, m: MemV, cpus: Seq<Cpu>, cpu: int, cr3: u64, frame: Regs) -> (
    SchedV,
    MemV,
    i64,
    Seq<u64>,
) {
    let me = crate::sched::slot_on(cpus, cpu);
    if !k.on || !k.tasks[me].is_user {
        (k, m, (-1) as i64, Seq::empty())
    } else {
        let (m1, got, stale) = crate::mem::vmm::fork_spec(m, crate::mem::vmm::frame_of(cr3));
        match got {
            None => (k, m1, (-1) as i64, stale),
            Some(root) => match crate::seqs::first(k.tasks, crate::sched::is_dead()) {
                None => (k, crate::mem::vmm::free_all_spec(m1, root, true, false).0, (-1) as i64, stale),
                Some(i) => {
                    let (m2, st) = crate::sched::kstack_spec(m1, k.hhdm);
                    match st {
                        None => (k, crate::mem::vmm::free_all_spec(m2, root, true, false).0, (-1) as i64, stale),
                        Some((top, bottom)) => {
                            let pid = k.next_pid;
                            let space = AddressSpace { pml4: root, owns_lower_half: true };
                            let out = crate::sched::current_out_spec(k, cpus, cpu);
                            (
                                SchedV { next_pid: pid.wrapping_add(1), ..k }.with_task(
                                    i,
                                    forked_task(k.tasks[me], pid, top, bottom, space, frame, out),
                                ),
                                m2,
                                pid as i64,
                                stale,
                            )
                        },
                    }
                },
            },
        }
    }
}

/// Forks the running user task: the child has a copy-on-write clone of its
/// memory and continues from the same frame with a result of 0. Gives the
/// child's pid, or -1, and the pages whose translations must be dropped on
/// this processor, and by a shootdown on the others. A fork that fails halfway
/// has such pages too.
pub fn sys_fork(s: &mut Sched, m: &mut Memory, p: &Smp, cpu: usize, cr3: u64, regs: &Regs) -> (r: (i64, Vec<u64>))
    requires
        old(s).wf(),
        old(m).wf(),
        crate::sched::runs_task(*p, cpu),
    ensures
        final(s).wf(),
        final(m).wf(),
        (final(s)@, final(m)@, r.0, r.1@) == sys_fork_spec(old(s)@, old(m)@, p.cpus@, cpu as int, cr3, *regs),
{
    let none: Vec<u64> = Vec::new();
    assert(none@ =~= Seq::empty());
    if !s.on {
        return (-1, none);
    }
    let me: usize = p.cpus[cpu].current;
    assert(s@.tasks[me as int] == s.tasks@[me as int]@);
    if !s.tasks[me].is_user {
        return (-1, none);
    }
    let parent_space = AddressSpace::from_pml4(cr3);
    let (got, stale) = parent_space.fork_cow(m);
    let space: AddressSpace = match got {
        None => {
            return (-1, stale);
        },
        Some(x) => x,
    };
    let slot: usize = match find_dead(s) {
        None => {
            let _n: u64 = space.destroy(m);
            return (-1, stale);
        },
        Some(i) => i,
    };
    let (top, bottom) = match alloc_kstack(m, s.hhdm) {
        None => {
            let _n: u64 = space.destroy(m);
            return (-1, stale);
        },
        Some(x) => x,
    };
    let pid: u64 = s.next_pid;
    let out_win: u32 = current_out_win(s, p, cpu);
    s.next_pid = s.next_pid.wrapping_add(1);
    let mut frame: Regs = *regs;
    frame.rax = 0;
    let mut t = Task::dead();
    t.pid = pid;
    t.name = s.name_of(me);
    t.state = State::Ready;
    t.kstack_top = top;
    t.kstack_bottom = bottom;
    t.kstack_owned = true;
    t.saved = Some(frame);
    t.pml4 = space.pml4;
    t.user_space = Some(space);
    t.parent = s.tasks[me].pid;
    t.tgid = pid;
    t.is_user = true;
    t.sig_handlers = s.handlers_of(me);
    t.out_win = out_win;
    assert(t@ =~= forked_task(old(s)@.tasks[me as int], pid, top, bottom, space, *regs, out_win));
    s.put(slot, t);
    (pid as i64, stale)
}

/// The frame that a thread starts from.
pub open spec fn thread_frame(entry: u64, stack: u64, arg: u64) -> Regs {
    Regs {
        rip: entry,
        rflags: 0x202,
        rsp: stack,
        cs: USER_CODE_RPL3 as u64,
        ss: USER_DATA_RPL3 as u64,
        rdi: arg,
        ..crate::cpu::idt::zero_regs()
    }
}

/// A new thread of the process of `me`, in the same address space.
pub open spec fn cloned_task(
    me: TaskV,
    pid: u64,
    top: u64,
    bottom: u64,
    space: AddressSpace,
    frame: Regs,
    out_win: u32,
) -> TaskV {
    TaskV {
        pid,
        name: me.name,
        state: State::Ready,
        kstack_top: top,
        kstack_bottom: bottom,
        kstack_owned: true,
        saved: Some(frame),
        pml4: space.pml4,
        user_space: Some(space),
        parent: me.tgid,
        tgid: me.tgid,
        is_user: true,
        sig_handlers: me.sig_handlers,
        out_win,
        ..crate::sched::dead_task()
    }
}

pub open spec fn sys_clone_spec(k: SchedV, m: MemV, cpus: Seq<Cpu>, cpu: int, r: Regs) -> (SchedV, MemV, i64) {
    let me = crate::sched::slot_on(cpus, cpu);
    let t = k.tasks[me];
    if !k.on || r.rdi == 0 || r.rsi == 0 || r.rdi >= USER_HALF_LIMIT || r.rsi >= USER_HALF_LIMIT || !t.is_user {
        (k, m, (-1) as i64)
    } else {
        match crate::seqs::first(k.tasks, crate::sched::is_dead()) {
            None => (k, m, (-1) as i64),
            Some(i) => {
                let (m1, st) = crate::sched::kstack_spec(m, k.hhdm);
                match (st, t.user_space) {
                    (Some((top, bottom)), Some(space)) => {
                        let pid = k.next_pid;
                        let out = crate::sched::current_out_spec(k, cpus, cpu);
                        (
                            SchedV { next_pid: pid.wrapping_add(1), ..k }.with_task(
                                i,
                                cloned_task(
                                    t,
                                    pid,
                                    top,
                                    bottom,
                                    space,
                                    thread_frame(r.rdi, r.rsi, r.rdx),
                                    out,
                                ),
                            ),
                            m1,
                            pid as i64,
                        )
                    },
                    _ => (k, m1, (-1) as i64),
                }
            },
        }
    }
}

/// Creates a thread in the process of the running task: it starts at the
/// address in `rdi`, on the stack in `rsi`, with the argument in `rdx`. Gives
/// its pid, or -1.
pub fn sys_clone(s: &mut Sched, m: &mut Memory, p: &Smp, cpu: usize, regs: &Regs) -> (r: i64)
    requires
        old(s).wf(),
        old(m).wf(),
        crate::sched::runs_task(*p, cpu),
    ensures
        final(s).wf(),
        final(m).wf(),
        (final(s)@, final(m)@, r) == sys_clone_spec(old(s)@, old(m)@, p.cpus@, cpu as int, *regs),
{
    if !s.on {
        return -1;
    }
    let entry: u64 = regs.rdi;
    let stack: u64 = regs.rsi;
    let arg: u64 = regs.rdx;
    if entry == 0 || stack == 0 || entry >= USER_HALF_LIMIT || stack >= USER_HALF_LIMIT {
        return -1;
    }
    let me: usize = p.cpus[cpu].current;
    assert(s@.tasks[me as int] == s.tasks@[me as int]@);
    if !s.tasks[me].is_user {
        return -1;
    }
    let slot: usize = match find_dead(s) {
        None => {
            return -1;
        },
        Some(i) => i,
    };
    let (top, bottom) = match alloc_kstack(m, s.hhdm) {
        None => {
            return -1;
        },
        Some(x) => x,
    };
    let space: AddressSpace = match s.tasks[me].user_space {
        None => {
            return -1;
        },
        Some(x) => x,
    };
    let pid: u64 = s.next_pid;
    let out_win: u32 = current_out_win(s, p, cpu);
    s.next_pid = s.next_pid.wrapping_add(1);
    let mut frame = Regs::zero();
    frame.rip = entry;
    frame.rflags = 0x202;
    frame.rsp = stack;
    frame.cs = USER_CODE_RPL3 as u64;
    frame.ss = USER_DATA_RPL3 as u64;
    frame.rdi = arg;
    let mut t = Task::dead();
    t.pid = pid;
    t.name = s.name_of(me);
    t.state = State::Ready;
    t.kstack_top = top;
    t.kstack_bottom = bottom;
    t.kstack_owned = true;
    t.saved = Some(frame);
    t.pml4 = space.pml4;
    t.user_space = Some(space);
    t.parent = s.tasks[me].tgid;
    t.tgid = s.tasks[me].tgid;
    t.is_user = true;
    t.sig_handlers = s.handlers_of(me);
    t.out_win = out_win;
    assert(t@ =~= cloned_task(
        old(s)@.tasks[me as int],
        pid,
        top,
        bottom,
        space,
        thread_frame(entry, stack, arg),
        out_win,
    ));
    s.put(slot, t);
    pid as i64
}

/// Sets the base of the running task's thread-local storage: 0, or -1 for a
/// kernel task or an address that is not a user's. The register must be
/// loaded with it.
pub fn sys_set_fs_current(s: &mut Sched, p: &Smp, cpu: usize, v: u64) -> (r: i64)
    requires
        old(s).wf(),
        crate::sched::runs_task(*p, cpu),
    ensures
        final(s).wf(),
        ({
            let me = crate::sched::slot_on(p.cpus@, cpu as int);
            if v >= USER_HALF_LIMIT || !old(s)@.tasks[me].is_user {
                r == -1 && final(s)@ == old(s)@
            } else {
                r == 0 && final(s)@ == old(s)@.with_task(me, TaskV { fs_base: v, ..old(s)@.tasks[me] })
            }
        }),
{
    if v >= USER_HALF_LIMIT {
        return -1;
    }
    let me: usize = p.cpus[cpu].current;
    assert(s@.tasks[me as int] == s.tasks@[me as int]@);
    if !s.tasks[me].is_user {
        return -1;
    }
    s.tasks[me].fs_base = v;
    assert(s@.tasks =~= old(s)@.tasks.update(me as int, TaskV { fs_base: v, ..old(s)@.tasks[me as int] }));
    0
}

// ---------------------------------------------------------------------------
// Exec
// ---------------------------------------------------------------------------
pub open spec fn groupmate(tgid: u64, pid: u64) -> spec_fn(TaskV) -> bool {
    |t: TaskV| t.pid != pid && t.tgid == tgid && t.state != State::Dead
}

/// The task with a new image: handlers back to their defaults, no pending
/// signals, no thread-local storage, a new name.
pub open spec fn new_image(t: TaskV, space: AddressSpace, name: Seq<char>) -> TaskV {
    TaskV {
        user_space: Some(space),
        pml4: space.pml4,
        sig_handlers: crate::sched::no_handlers(),
        sig_pending: 0,
        sig_depth: 0,
        sig_frame_va: 0,
        fs_base: 0,
        name: crate::sched::name12(name),
        ..t
    }
}

pub open spec fn exec_spec(
    k: SchedV,
    m: MemV,
    me: int,
    space: AddressSpace,
    entry: u64,
    rsp: u64,
    args: (u64, u64),
    name: Seq<char>,
    r: Regs,
) -> (SchedV, MemV, Regs, Result<(), Seq<char>>) {
    let t = k.tasks[me];
    let undone = crate::mem::vmm::free_all_spec(m, space.pml4, space.owns_lower_half, false).0;
    if !t.is_user {
        (k, undone, r, Err("exec from a kernel task makes no sense"@))
    } else if crate::seqs::first(k.tasks, groupmate(t.tgid, t.pid)) is Some {
        (k, undone, r, Err("exec inside a thread group is not supported"@))
    } else {
        let (k1, m1) = space_dropped(k, m, me, false);
        (
            k1.with_task(me, new_image(t, space, name)),
            m1,
            Regs { rip: entry, rsp, rdi: args.0, rsi: args.1, rax: 0, ..r },
            Ok(()),
        )
    }
}

fn has_groupmate(s: &Sched, tgid: u64, pid: u64) -> (r: bool)
    requires
        s.wf(),
    ensures
        r == (crate::seqs::first(s@.tasks, groupmate(tgid, pid)) is Some),
{
    let mut i: usize = 0;
    while i < MAX_TASKS
        invariant
            i <= MAX_TASKS,
            s.wf(),
            crate::seqs::first_from(s@.tasks, groupmate(tgid, pid), i as int) == crate::seqs::first(
                s@.tasks,
                groupmate(tgid, pid),
            ),
        decreases MAX_TASKS - i,
    {
        assert(s@.tasks[i as int] == s.tasks@[i as int]@);
        if s.tasks[i].pid != pid && s.tasks[i].tgid == tgid && s.tasks[i].state != State::Dead {
            return true;
        }
        i = i + 1;
    }
    false
}

/// Replaces the image of the running task by one that is complete: the frame
/// of its system call is rewritten to enter the new image, and the old one is
/// taken down. Refused for a kernel task and inside a thread group; the new
/// image is then taken down instead. The new PML4 must be loaded, and the
/// thread-local base cleared, before the frame is resumed.
pub fn exec_replace_image(
    s: &mut Sched,
    m: &mut Memory,
    p: &Smp,
    cpu: usize,
    space: AddressSpace,
    entry: u64,
    rsp: u64,
    args: (u64, u64),
    name: &str,
    regs: &mut Regs,
) -> (r: Result<(), &'static str>)
    requires
        old(s).wf(),
        old(m).wf(),
        crate::sched::runs_task(*p, cpu),
    ensures
        final(s).wf(),
        final(m).wf(),
        ({
            let me = crate::sched::slot_on(p.cpus@, cpu as int);
            let (k, n, g, x) = exec_spec(old(s)@, old(m)@, me, space, entry, rsp, args, name@, *old(regs));
            final(s)@ == k && final(m)@ == n && *final(regs) == g && crate::text::told(r, x)
        }),
{
    let me: usize = p.cpus[cpu].current;
    assert(s@.tasks[me as int] == s.tasks@[me as int]@);
    if !s.tasks[me].is_user {
        let _n: u64 = space.destroy(m);
        return Err("exec from a kernel task makes no sense");
    }
    let pid: u64 = s.tasks[me].pid;
    let tgid: u64 = s.tasks[me].tgid;
    if has_groupmate(s, tgid, pid) {
        let _n: u64 = space.destroy(m);
        return Err("exec inside a thread group is not supported");
    }
    drop_space(s, m, me, false);
    let ghost k1 = s@;
    assert(s@.tasks[me as int] == s.tasks@[me as int]@);
    let handlers: Vec<u64> = vec![0u64; NSIG];
    assert(handlers@ =~= crate::sched::no_handlers());
    s.tasks[me].user_space = Some(space);
    s.tasks[me].pml4 = space.pml4;
    s.tasks[me].sig_handlers = handlers;
    s.tasks[me].sig_pending = 0;
    s.tasks[me].sig_depth = 0;
    s.tasks[me].sig_frame_va = 0;
    s.tasks[me].fs_base = 0;
    s.tasks[me].name = cut_name(name);
    assert(s@.tasks =~= k1.tasks.update(me as int, new_image(old(s)@.tasks[me as int], space, name@)));
    regs.rip = entry;
    regs.rsp = rsp;
    regs.rdi = args.0;
    regs.rsi = args.1;
    regs.rax = 0;
    Ok(())
}

// ---------------------------------------------------------------------------
// Laws
// ---------------------------------------------------------------------------
/// A fork returns twice: the parent gets the child's pid, and the child goes
/// on from the same frame with 0. No other task is touched.
pub proof fn law_fork_returns_twice(k: SchedV, m: MemV, cpus: Seq<Cpu>, cpu: int, cr3: u64, frame: Regs)
    requires
        k.wf(),
        k.next_pid <= i64::MAX,
        sys_fork_spec(k, m, cpus, cpu, cr3, frame).2 != -1,
    ensures
        ({
            let (k1, _, r, _) = sys_fork_spec(k, m, cpus, cpu, cr3, frame);
            let i = crate::seqs::first(k.tasks, crate::sched::is_dead())->Some_0;
            let me = crate::sched::slot_on(cpus, cpu);
            &&& 0 <= i < MAX_TASKS
            &&& k.tasks[i].state == State::Dead
            &&& k1.tasks[i].pid == r
            &&& k1.tasks[i].parent == k.tasks[me].pid
            &&& k1.tasks[i].state == State::Ready
            &&& k1.tasks[i].saved == Some(Regs { rax: 0, ..frame })
            &&& forall|j: int| 0 <= j < MAX_TASKS && j != i ==> #[trigger] k1.tasks[j] == k.tasks[j]
        }),
{
    crate::seqs::lemma_first_from(k.tasks, crate::sched::is_dead(), 0);
}

/// An exit code that a parent came too late for is still there: waiting for a
/// child that was reclaimed before gives its code at once.
pub proof fn law_reaped_child_is_not_lost(k: SchedV, m: MemV, i: int, p: SmpV, cpu: int, r: Regs)
    requires
        k.wf(),
        0 <= i < MAX_TASKS,
        k.tasks[i].pid != 0,
        k.tasks[i].pid == k.tasks[i].tgid,
        k.tasks[i].state == State::Zombie,
        0 <= crate::sched::slot_on(p.cpus, cpu) < MAX_TASKS,
        crate::sched::slot_on(p.cpus, cpu) != i,
        k.tasks[i].parent == k.tasks[crate::sched::slot_on(p.cpus, cpu)].pid,
        crate::seqs::first(k.log, logs_child(k.tasks[i].parent, k.tasks[i].pid)) is None,
        forall|j: int|
            0 <= j < MAX_TASKS && j != i && (#[trigger] k.tasks[j]).state == State::Zombie ==> k.tasks[j].pid
                != k.tasks[i].pid,
    ensures
        ({
            let pid = k.tasks[i].pid;
            let code = k.tasks[i].exit_code;
            let (k1, m1) = reaped(k, m, i);
            let (k2, p2, r2) = wait_spec(k1, p, cpu, r, pid);
            &&& r2 == Regs { rax: code as u64, ..r }
            &&& p2 == p
            &&& crate::seqs::first(k2.log, logs_child(k.tasks[i].parent, pid)) is None
        }),
{
    let pid = k.tasks[i].pid;
    let k1 = reaped(k, m, i).0;
    let me = crate::sched::slot_on(p.cpus, cpu);
    let f = ended_child(k1.tasks[me].pid, pid);
    let g = logs_child(k.tasks[i].parent, pid);
    assert(k1.tasks[me] == k.tasks[me]);
    assert forall|j: int| 0 <= j < k1.tasks.len() implies !f(#[trigger] k1.tasks[j]) by {
        if j != i {
            assert(k1.tasks[j] == k.tasks[j]);
        }
    }
    crate::seqs::lemma_first_none(k1.tasks, f, 0);
    crate::seqs::lemma_first_from(k.log, g, 0);
    let l = k1.log;
    assert(l.last() == ended(k.tasks[i]));
    let at = l.len() - 1;
    assert forall|j: int| 0 <= j < at implies !g(#[trigger] l[j]) by {
        if k.log.len() >= MAX_TASKS {
            assert(l[j] == k.log[j + 1]);
            assert(!g(k.log[j + 1]));
        } else {
            assert(l[j] == k.log[j]);
            assert(!g(k.log[j]));
        }
    }
    crate::seqs::lemma_first_is(l, g, 0, at);
    let l2 = l.remove(at);
    assert forall|j: int| 0 <= j < l2.len() implies !g(#[trigger] l2[j]) by {
        assert(l2[j] == l[j]);
    }
    crate::seqs::lemma_first_none(l2, g, 0);
}

/// A thread that was joined leaves nothing in the mailbox that can be joined.
proof fn lemma_push_joined(log: Seq<Ended>, e: Ended, tgid: u64, pid: u64, target: u64)
    requires
        e.joined,
        crate::seqs::first(log, logs_thread(tgid, pid, target)) is None,
    ensures
        crate::seqs::first(log_push(log, e), logs_thread(tgid, pid, target)) is None,
{
    let f = logs_thread(tgid, pid, target);
    let l = log_push(log, e);
    crate::seqs::lemma_first_from(log, f, 0);
    assert forall|j: int| 0 <= j < l.len() implies !f(#[trigger] l[j]) by {
        if j < l.len() - 1 {
            if log.len() >= MAX_TASKS {
                assert(l[j] == log[j + 1]);
                assert(!f(log[j + 1]));
            } else {
                assert(l[j] == log[j]);
                assert(!f(log[j]));
            }
        }
    }
    crate::seqs::lemma_first_none(l, f, 0);
}

/// A thread that ends while another one waits to join it is joined by that: a
/// join of it after that gives -1, whether or not it has been reclaimed.
pub proof fn law_parked_join_once(k: SchedV, m: MemV, p: SmpV, cpu: int, r: Regs, i: int, code: i64)
    requires
        k.wf(),
        0 <= i < MAX_TASKS,
        0 <= crate::sched::slot_on(p.cpus, cpu) < MAX_TASKS,
        ({
            let me = crate::sched::slot_on(p.cpus, cpu);
            let t = k.tasks[me];
            let pid = k.tasks[i].pid;
            &&& t.is_user
            &&& me != i
            &&& pid != 0
            &&& pid != k.tasks[i].tgid
            &&& crate::seqs::first(k.tasks, joins_on(k.tasks[i].tgid, pid)) == Some(me)
            &&& crate::seqs::first(k.log, logs_thread(t.tgid, t.pid, pid)) is None
            &&& forall|j: int|
                0 <= j < MAX_TASKS && j != i ==> (#[trigger] k.tasks[j]).state == State::Dead || k.tasks[j].pid != pid
        }),
    ensures
        ({
            let me = crate::sched::slot_on(p.cpus, cpu);
            let pid = k.tasks[i].pid;
            let (k1, m1) = finished(k, m, i, code);
            let (k2, m2) = reaped(k1, m1, i);
            &&& k1.tasks[me].saved == answered(k.tasks[me].saved, code as u64)
            &&& k1.tasks[me].state == State::Ready
            &&& join_spec(k1, m1, p, cpu, r, pid) == (k1, m1, p, Regs { rax: u64::MAX, ..r })
            &&& join_spec(k2, m2, p, cpu, r, pid) == (k2, m2, p, Regs { rax: u64::MAX, ..r })
        }),
{
    let me = crate::sched::slot_on(p.cpus, cpu);
    let t = k.tasks[me];
    let pid = k.tasks[i].pid;
    let q = joins_on(k.tasks[i].tgid, pid);
    let a = space_dropped(k, m, i, true).0;
    let b = a.with_task(i, TaskV { exit_code: code, state: State::Zombie, on_cpu: CPU_ANY, ..a.tasks[i] });
    crate::seqs::lemma_first_from(k.tasks, q, 0);
    assert(q(k.tasks[me]));
    assert forall|j: int| 0 <= j < me implies !q(#[trigger] b.tasks[j]) by {
        if j != i {
            assert(b.tasks[j] == k.tasks[j]);
            assert(!q(k.tasks[j]));
        }
    }
    assert(b.tasks[me] == t);
    crate::seqs::lemma_first_is(b.tasks, q, 0, me);
    let (k1, m1) = finished(k, m, i, code);
    let (k2, m2) = reaped(k1, m1, i);
    let f = ended_thread(t.tgid, t.pid, pid);
    let g = live_thread(t.tgid, t.pid, pid);
    assert(k1.tasks[i].joined && k1.tasks[i].state == State::Zombie);
    assert(k1.tasks[me].tgid == t.tgid && k1.tasks[me].pid == t.pid && k1.tasks[me].is_user);
    assert(k2.tasks[me] == k1.tasks[me]);
    assert forall|j: int| 0 <= j < MAX_TASKS implies !f(#[trigger] k1.tasks[j]) && !g(k1.tasks[j]) by {
        if j != i && j != me {
            assert(k1.tasks[j] == k.tasks[j]);
            assert(k.tasks[j].state == State::Dead || k.tasks[j].pid != pid);
        }
    }
    assert forall|j: int| 0 <= j < MAX_TASKS implies !f(#[trigger] k2.tasks[j]) && !g(k2.tasks[j]) by {
        if j != i {
            assert(k2.tasks[j] == k1.tasks[j]);
            assert(!f(k1.tasks[j]) && !g(k1.tasks[j]));
        }
    }
    crate::seqs::lemma_first_none(k1.tasks, f, 0);
    crate::seqs::lemma_first_none(k1.tasks, g, 0);
    crate::seqs::lemma_first_none(k2.tasks, f, 0);
    crate::seqs::lemma_first_none(k2.tasks, g, 0);
    lemma_push_joined(k1.log, ended(k1.tasks[i]), t.tgid, t.pid, pid);
}

/// A thread can be joined once: the second join of it gives -1.
pub proof fn law_join_once(k: SchedV, m: MemV, p: SmpV, cpu: int, r: Regs, i: int)
    requires
        k.wf(),
        0 <= i < MAX_TASKS,
        0 <= crate::sched::slot_on(p.cpus, cpu) < MAX_TASKS,
        ({
            let t = k.tasks[crate::sched::slot_on(p.cpus, cpu)];
            let pid = k.tasks[i].pid;
            &&& t.is_user
            &&& pid != 0
            &&& ended_thread(t.tgid, t.pid, pid)(k.tasks[i])
            &&& crate::seqs::first(k.log, logs_thread(t.tgid, t.pid, pid)) is None
            &&& forall|j: int|
                0 <= j < MAX_TASKS && j != i ==> (#[trigger] k.tasks[j]).state == State::Dead || k.tasks[j].pid != pid
        }),
    ensures
        ({
            let pid = k.tasks[i].pid;
            let (k1, m1, p1, r1) = join_spec(k, m, p, cpu, r, pid);
            &&& r1 == Regs { rax: k.tasks[i].exit_code as u64, ..r }
            &&& join_spec(k1, m1, p1, cpu, r, pid) == (k1, m1, p1, Regs { rax: u64::MAX, ..r })
        }),
{
    let me = crate::sched::slot_on(p.cpus, cpu);
    let t = k.tasks[me];
    let pid = k.tasks[i].pid;
    let f = ended_thread(t.tgid, t.pid, pid);
    let g = live_thread(t.tgid, t.pid, pid);
    assert forall|j: int| 0 <= j < i implies !f(#[trigger] k.tasks[j]) by {
        assert(k.tasks[j].state == State::Dead || k.tasks[j].pid != pid);
    }
    crate::seqs::lemma_first_is(k.tasks, f, 0, i);
    let k1 = reaped(k.with_task(i, TaskV { joined: true, ..k.tasks[i] }), m, i).0;
    assert(i != me);
    assert(k1.tasks[me] == t);
    assert forall|j: int| 0 <= j < k1.tasks.len() implies !f(#[trigger] k1.tasks[j]) && !g(k1.tasks[j]) by {
        if j != i {
            assert(k1.tasks[j] == k.tasks[j]);
            assert(k.tasks[j].state == State::Dead || k.tasks[j].pid != pid);
        }
    }
    crate::seqs::lemma_first_none(k1.tasks, f, 0);
    crate::seqs::lemma_first_none(k1.tasks, g, 0);
    lemma_push_joined(k.log, Ended { joined: true, ..ended(k.tasks[i]) }, t.tgid, t.pid, pid);
}

/// A parent that waits for a child, or for any, is woken by the child's exit
/// with the exit code as the result of its call.
pub proof fn law_exit_wakes_the_parent(k: SchedV, m: MemV, i: int, j: int, code: i64)
    requires
        k.wf(),
        0 <= i < MAX_TASKS,
        0 <= j < MAX_TASKS,
        i != j,
        k.tasks[i].pid == k.tasks[i].tgid,
        waits_for(k.tasks[i].parent, k.tasks[i].pid)(k.tasks[j]),
        k.tasks[j].saved is Some,
        forall|l: int|
            0 <= l < MAX_TASKS && l != j && l != i ==> !waits_for(k.tasks[i].parent, k.tasks[i].pid)(
                #[trigger] k.tasks[l],
            ),
    ensures
        ({
            let k1 = finished(k, m, i, code).0;
            &&& k1.tasks[i].state == State::Zombie
            &&& k1.tasks[i].exit_code == code
            &&& k1.tasks[i].user_space is None
            &&& k1.tasks[j].state == State::Ready
            &&& k1.tasks[j].saved == Some(Regs { rax: code as u64, ..k.tasks[j].saved->Some_0 })
            &&& forall|l: int| 0 <= l < MAX_TASKS && l != i && l != j ==> #[trigger] k1.tasks[l] == k.tasks[l]
        }),
{
    let f = waits_for(k.tasks[i].parent, k.tasks[i].pid);
    let (ka, ma) = space_dropped(k, m, i, true);
    let kb = ka.with_task(i, TaskV { exit_code: code, state: State::Zombie, on_cpu: CPU_ANY, ..ka.tasks[i] });
    assert forall|l: int| 0 <= l < j implies !f(#[trigger] kb.tasks[l]) by {
        if l != i {
            assert(kb.tasks[l] == k.tasks[l]);
            assert(!f(k.tasks[l]));
        }
    }
    assert(kb.tasks[j] == k.tasks[j]);
    crate::seqs::lemma_first_is(kb.tasks, f, 0, j);
}

/// A process exit leaves no thread of it alive: each has ended or is marked
/// to end at its next interrupt.
pub proof fn law_exit_takes_all_threads(k: SchedV, m: MemV, me: int, code: i64)
    requires
        k.wf(),
        0 <= me < MAX_TASKS,
        k.tasks[me].is_user,
    ensures
        ({
            let (k1, m1, swept) = exit_spec(k, m, me, code);
            forall|j: int|
                0 <= j < MAX_TASKS && lives_in(#[trigger] k1.tasks[j], k.tasks[me].tgid) ==> k1.tasks[j].die_flag
        }),
{
    let tgid = k.tasks[me].tgid;
    lemma_sweep(k, m, me, tgid, 0, Seq::empty());
    let (k1, m1, swept) = sweep(k, m, me, tgid, 0, Seq::empty());
    lemma_finished_keeps(k1, m1, me, code);
}

/// What ending one task keeps of the others.
pub proof fn lemma_finished_keeps(k: SchedV, m: MemV, i: int, code: i64)
    requires
        k.wf(),
        0 <= i < MAX_TASKS,
    ensures
        ({
            let k1 = finished(k, m, i, code).0;
            &&& k1.wf()
            &&& k1.tasks[i].state == State::Zombie
            &&& forall|j: int|
                0 <= j < MAX_TASKS && j != i ==> {
                    let a = #[trigger] k1.tasks[j];
                    let b = k.tasks[j];
                    &&& a.tgid == b.tgid
                    &&& a.pid == b.pid
                    &&& a.is_user == b.is_user
                    &&& a.die_flag == b.die_flag
                    &&& a.state == b.state || ((b.state == State::WaitingChild || b.state == State::BlockedJoin)
                        && a.state == State::Ready)
                }
        }),
{
    let t = k.tasks[i];
    let (ka, ma) = space_dropped(k, m, i, true);
    let kb = ka.with_task(i, TaskV { exit_code: code, state: State::Zombie, on_cpu: CPU_ANY, ..ka.tasks[i] });
    crate::seqs::lemma_first_from(kb.tasks, waits_for(t.parent, t.pid), 0);
    crate::seqs::lemma_first_from(kb.tasks, joins_on(t.tgid, t.pid), 0);
    assert(kb.wf());
}

proof fn lemma_sweep(k: SchedV, m: MemV, me: int, tgid: u64, i: int, swept: Seq<u64>)
    requires
        k.wf(),
        0 <= me < MAX_TASKS,
        0 <= i,
        forall|j: int|
            0 <= j < i && j < MAX_TASKS && j != me && lives_in(#[trigger] k.tasks[j], tgid) ==> k.tasks[j].die_flag,
    ensures
        sweep(k, m, me, tgid, i, swept).0.wf(),
        forall|j: int|
            0 <= j < MAX_TASKS && j != me && lives_in(
                #[trigger] sweep(k, m, me, tgid, i, swept).0.tasks[j],
                tgid,
            ) ==> sweep(k, m, me, tgid, i, swept).0.tasks[j].die_flag,
    decreases MAX_TASKS - i,
{
    if i < MAX_TASKS {
        let t = k.tasks[i];
        if i == me || !lives_in(t, tgid) {
            lemma_sweep(k, m, me, tgid, i + 1, swept);
        } else if t.state == State::Running {
            let k1 = k.with_task(i, TaskV { die_flag: true, ..t });
            assert(k1.wf());
            lemma_sweep(k1, m, me, tgid, i + 1, swept);
        } else {
            lemma_finished_keeps(k, m, i, THREAD_KILLED_CODE);
            let (k1, m1) = finished(k, m, i, THREAD_KILLED_CODE);
            assert forall|j: int|
                0 <= j < i + 1 && j < MAX_TASKS && j != me && lives_in(
                    #[trigger] k1.tasks[j],
                    tgid,
                ) implies k1.tasks[j].die_flag by {
                if j < i {
                    assert(lives_in(k.tasks[j], tgid));
                }
            }
            lemma_sweep(k1, m1, me, tgid, i + 1, swept.push(t.pid));
        }
    }
}

} // verus!
