//! The life of processes and threads: how they start, what their end leaves,
//! and what those get that wait for it.

use vstd::prelude::*;

use crate::cpu::idt::Regs;
use crate::cpu::smp::{Cpu, SmpV};
use crate::mem::vmm::{AddressSpace, MemV};
use crate::sched::{Ended, NewTask, SchedV, State, TaskV};

verus! {

// ---------------------------------------------------------------------------
// Starting
// ---------------------------------------------------------------------------
proof fn lemma_run_within(taken: Seq<bool>, b: int, n: int)
    requires
        0 <= b,
    ensures
        crate::mem::frames::first_run(taken, b, n) matches Some(x) ==> crate::mem::frames::run_free(taken, x, n),
    decreases taken.len() - b,
{
    if b < taken.len() {
        lemma_run_within(taken, b + 1, n);
    }
}

/// A kernel stack is 64 KiB of frames that were free and are taken.
pub proof fn law_kernel_stack_is_fresh(m: MemV, hhdm: u64)
    requires
        m.frames.wf(),
        hhdm <= 0xFFFF_FFFF_8000_0000,
        crate::sched::kstack_spec(m, hhdm).1 is Some,
    ensures
        ({
            let (m1, r) = crate::sched::kstack_spec(m, hhdm);
            let (top, bottom) = r->Some_0;
            &&& top - bottom == 0x1_0000
            &&& bottom >= hhdm
            &&& (bottom - hhdm) % 4096 == 0
            &&& (bottom - hhdm) / 4096 + 16 <= m.frames.taken.len()
            &&& forall|i: int|
                0 <= i < 16 ==> !(#[trigger] m.frames.taken[(bottom - hhdm) / 4096 + i])
                    && m1.frames.taken[(bottom - hhdm) / 4096 + i]
            &&& m1.ram == m.ram
        }),
{
    lemma_run_within(m.frames.taken, 0, 16);
    let b = crate::mem::frames::first_run(m.frames.taken, 0, 16)->Some_0;
    let (m1, r) = crate::sched::kstack_spec(m, hhdm);
    let (top, bottom) = r->Some_0;
    assert(crate::mem::frames::run_free(m.frames.taken, b, 16));
    assert(bottom - hhdm == b * 4096);
    assert((bottom - hhdm) / 4096 == b);
}

/// The first free slot of the table.
pub open spec fn free_slot(tasks: Seq<TaskV>, i: int) -> bool {
    &&& 0 <= i < 16
    &&& tasks[i].state == State::Dead
    &&& forall|j: int| 0 <= j < i ==> (#[trigger] tasks[j]).state != State::Dead
}

pub proof fn lemma_free_slot(tasks: Seq<TaskV>, i: int)
    requires
        tasks.len() == 16,
        free_slot(tasks, i),
    ensures
        crate::seqs::first(tasks, crate::sched::is_dead()) == Some(i),
{
    let q = crate::sched::is_dead();
    assert forall|j: int| 0 <= j < i implies !q(#[trigger] tasks[j]) by {
        assert(tasks[j].state != State::Dead);
    }
    crate::seqs::lemma_first_is(tasks, q, 0, i);
}

/// A task that was spawned is ready in the first free slot, under the pid that
/// comes back and that the next one does not get. Its first instruction is the
/// entry, with the two arguments; a user task starts in user mode on the stack
/// given, a kernel task on its own, as after a call. It is a child of its
/// creator and prints where that prints. No other task changes.
pub proof fn law_spawned_task_starts_at_its_entry(k: SchedV, m: MemV, cpus: Seq<Cpu>, cpu: int, new: NewTask, i: int)
    requires
        k.wf(),
        m.frames.wf(),
        k.on,
        0 <= cpu < cpus.len(),
        cpus[cpu].current < 16,
        free_slot(k.tasks, i),
        crate::sched::kstack_spec(m, k.hhdm).1 is Some,
    ensures
        ({
            let (k1, m1, r) = crate::sched::spawn_spec(k, m, cpus, cpu, new);
            let me = k.tasks[cpus[cpu].current as int];
            let t = k1.tasks[i];
            &&& r == Some(k.next_pid)
            &&& k1.next_pid == k.next_pid.wrapping_add(1)
            &&& t.state == State::Ready
            &&& t.pid == k.next_pid
            &&& t.tgid == t.pid
            &&& t.parent == me.pid
            &&& t.out_win == me.out_win
            &&& t.pml4 == new.pml4
            &&& t.user_space == new.user_space
            &&& t.is_user == new.is_user
            &&& t.pinned_cpu == new.pinned_cpu
            &&& t.sig_pending == 0
            &&& !t.die_flag
            &&& Some((t.kstack_top, t.kstack_bottom)) == crate::sched::kstack_spec(m, k.hhdm).1
            &&& t.kstack_owned
            &&& t.saved matches Some(f) && {
                &&& f.rip == new.entry
                &&& f.rdi == new.entry_regs.0
                &&& f.rsi == new.entry_regs.1
                &&& f.rflags == 0x202
                &&& new.user_rsp matches Some(sp) ==> f.rsp == sp && f.cs % 4 == 3 && f.ss % 4 == 3
                &&& new.user_rsp is None ==> f.cs % 4 == 0 && f.ss % 4 == 0 && f.rsp % 16 == 8 && f.rsp < t.kstack_top
                    && t.kstack_top - f.rsp <= 24
            }
            &&& forall|j: int| 0 <= j < 16 ==> #[trigger] t.sig_handlers[j] == 0
            &&& forall|j: int| 0 <= j < 16 && j != i ==> #[trigger] k1.tasks[j] == k.tasks[j]
        }),
{
    lemma_free_slot(k.tasks, i);
    law_kernel_stack_is_fresh(m, k.hhdm);
}

/// A fork makes a second process: the call returns the child's pid in the
/// parent and 0 in the child, which goes on from the very same registers. The
/// child is a process of its own, a child of the parent, with its handlers,
/// its name and its window, and no signals; it lives in the new address space.
/// Nobody else changes.
pub proof fn law_fork_makes_a_second_process(
    k: SchedV,
    m: MemV,
    cpus: Seq<Cpu>,
    cpu: int,
    cr3: u64,
    frame: Regs,
    i: int,
)
    requires
        k.wf(),
        k.on,
        k.next_pid <= 0x7FFF_FFFF_FFFF_FFFF,
        0 <= cpu < cpus.len(),
        cpus[cpu].current < 16,
        k.tasks[cpus[cpu].current as int].is_user,
        free_slot(k.tasks, i),
        i != cpus[cpu].current,
        crate::mem::vmm::fork_spec(m, cr3 & 0x000F_FFFF_FFFF_F000).1 is Some,
        crate::sched::kstack_spec(crate::mem::vmm::fork_spec(m, cr3 & 0x000F_FFFF_FFFF_F000).0, k.hhdm).1 is Some,
    ensures
        ({
            let me = k.tasks[cpus[cpu].current as int];
            let (k1, _, r, stale) = crate::sched::process::sys_fork_spec(k, m, cpus, cpu, cr3, frame);
            let (_, root, marked) = crate::mem::vmm::fork_spec(m, cr3 & 0x000F_FFFF_FFFF_F000);
            let t = k1.tasks[i];
            &&& r == k.next_pid
            &&& k1.next_pid == k.next_pid + 1
            &&& stale == marked
            &&& t.pid == r
            &&& t.tgid == r
            &&& t.parent == me.pid
            &&& t.state == State::Ready
            &&& t.is_user
            &&& t.saved == Some(Regs { rax: 0, ..frame })
            &&& Some(t.pml4) == root
            &&& t.user_space == Some(AddressSpace { pml4: t.pml4, owns_lower_half: true })
            &&& t.sig_handlers == me.sig_handlers
            &&& t.sig_pending == 0
            &&& t.name == me.name
            &&& t.out_win == me.out_win
            &&& t.pinned_cpu == 0xFF
            &&& forall|j: int| 0 <= j < 16 && j != i ==> #[trigger] k1.tasks[j] == k.tasks[j]
        }),
{
    lemma_free_slot(k.tasks, i);
}

/// A thread that was cloned is ready in the same address space and process,
/// under the pid that comes back; it starts at the entry, on the stack and
/// with the argument given. Nobody else changes.
pub proof fn law_clone_makes_a_thread(
    k: SchedV,
    m: MemV,
    cpus: Seq<Cpu>,
    cpu: int,
    r: Regs,
    i: int,
    space: AddressSpace,
)
    requires
        k.wf(),
        k.on,
        k.next_pid <= 0x7FFF_FFFF_FFFF_FFFF,
        0 <= cpu < cpus.len(),
        cpus[cpu].current < 16,
        k.tasks[cpus[cpu].current as int].is_user,
        k.tasks[cpus[cpu].current as int].user_space == Some(space),
        free_slot(k.tasks, i),
        0 < r.rdi < 0x0000_8000_0000_0000,
        0 < r.rsi < 0x0000_8000_0000_0000,
        crate::sched::kstack_spec(m, k.hhdm).1 is Some,
    ensures
        ({
            let me = k.tasks[cpus[cpu].current as int];
            let (k1, _, x) = crate::sched::process::sys_clone_spec(k, m, cpus, cpu, r);
            let t = k1.tasks[i];
            &&& x == k.next_pid
            &&& k1.next_pid == k.next_pid + 1
            &&& t.pid == x
            &&& t.tgid == me.tgid
            &&& t.state == State::Ready
            &&& t.is_user
            &&& t.user_space == Some(space)
            &&& t.pml4 == space.pml4
            &&& t.sig_handlers == me.sig_handlers
            &&& t.saved matches Some(f) && f.rip == r.rdi && f.rsp == r.rsi && f.rdi == r.rdx && f.cs % 4 == 3 && f.ss % 4
                == 3 && f.rflags == 0x202
            &&& forall|j: int| 0 <= j < 16 && j != i ==> #[trigger] k1.tasks[j] == k.tasks[j]
        }),
{
    lemma_free_slot(k.tasks, i);
}

// ---------------------------------------------------------------------------
// Ending, and waiting for it
// ---------------------------------------------------------------------------
/// A child process whose end nobody has seen yet: a zombie of this parent.
pub open spec fn over(t: TaskV, parent: u64, target: u64) -> bool {
    &&& t.state == State::Zombie
    &&& t.parent == parent
    &&& t.pid == t.tgid
    &&& target == 0 || t.pid == target
}

/// Waiting for a child that has ended returns its exit code at once; the
/// caller goes on, and the child is still there.
pub proof fn law_wait_gives_the_exit_code(k: SchedV, p: SmpV, cpu: int, r: Regs, target: u64, i: int)
    requires
        k.wf(),
        0 <= cpu < p.cpus.len(),
        p.cpus[cpu].current < 16,
        0 <= i < 16,
        over(k.tasks[i], k.tasks[p.cpus[cpu].current as int].pid, target),
        forall|j: int| 0 <= j < i ==> !over(#[trigger] k.tasks[j], k.tasks[p.cpus[cpu].current as int].pid, target),
    ensures
        crate::sched::process::wait_spec(k, p, cpu, r, target) == (
            k,
            p,
            Regs { rax: k.tasks[i].exit_code as u64, ..r },
        ),
{
    let me = p.cpus[cpu].current as int;
    let q = crate::sched::process::ended_child(k.tasks[me].pid, target);
    assert(q(k.tasks[i]));
    assert forall|j: int| 0 <= j < i implies !q(#[trigger] k.tasks[j]) by {
        assert(!over(k.tasks[j], k.tasks[me].pid, target));
    }
    crate::seqs::lemma_first_is(k.tasks, q, 0, i);
}

/// Waiting for a child that has not ended parks the caller until it does, with
/// a switch asked for: nothing else changes.
pub proof fn law_wait_parks(k: SchedV, p: SmpV, cpu: int, r: Regs, target: u64)
    requires
        k.wf(),
        0 <= cpu < p.cpus.len(),
        p.cpus[cpu].current < 16,
        forall|j: int|
            0 <= j < 16 ==> !over(#[trigger] k.tasks[j], k.tasks[p.cpus[cpu].current as int].pid, target),
        forall|j: int|
            0 <= j < k.log.len() ==> (#[trigger] k.log[j]).pid != target || k.log[j].tgid != target || k.log[j].parent
                != k.tasks[p.cpus[cpu].current as int].pid,
    ensures
        ({
            let me = p.cpus[cpu].current as int;
            let (k1, p1, r1) = crate::sched::process::wait_spec(k, p, cpu, r, target);
            &&& k1.tasks[me] == TaskV { state: State::WaitingChild, wait_target: target, ..k.tasks[me] }
            &&& forall|j: int| 0 <= j < 16 && j != me ==> #[trigger] k1.tasks[j] == k.tasks[j]
            &&& k1.log == k.log
            &&& p1.cpus[cpu].switch_requested
        }),
{
    let me = p.cpus[cpu].current as int;
    let q = crate::sched::process::ended_child(k.tasks[me].pid, target);
    assert forall|j: int| 0 <= j < k.tasks.len() implies !q(#[trigger] k.tasks[j]) by {
        assert(!over(k.tasks[j], k.tasks[me].pid, target));
    }
    crate::seqs::lemma_first_none(k.tasks, q, 0);
    let g = crate::sched::process::logs_child(k.tasks[me].pid, target);
    assert forall|j: int| 0 <= j < k.log.len() implies !g(#[trigger] k.log[j]) by {
    }
    crate::seqs::lemma_first_none(k.log, g, 0);
}

/// A parent that is parked until a child ends.
pub open spec fn awaits(t: TaskV, parent: u64, child: u64) -> bool {
    t.state == State::WaitingChild && t.pid == parent && (t.wait_target == 0 || t.wait_target == child)
}

/// The end of a process gives its exit code to the parent that waits for it,
/// or for any child: the parent is ready, and its call returns the code. The
/// process is a zombie with that code, without memory.
pub proof fn law_exit_answers_the_parent(k: SchedV, m: MemV, i: int, j: int, code: i64, f: Regs)
    requires
        k.wf(),
        0 <= i < 16,
        0 <= j < 16,
        i != j,
        k.tasks[i].pid == k.tasks[i].tgid,
        awaits(k.tasks[j], k.tasks[i].parent, k.tasks[i].pid),
        k.tasks[j].saved == Some(f),
        forall|l: int|
            0 <= l < 16 && l != i && l != j ==> !awaits(#[trigger] k.tasks[l], k.tasks[i].parent, k.tasks[i].pid),
    ensures
        ({
            let k1 = crate::sched::process::finished(k, m, i, code).0;
            &&& k1.tasks[i].state == State::Zombie
            &&& k1.tasks[i].exit_code == code
            &&& k1.tasks[i].pid == k.tasks[i].pid
            &&& k1.tasks[i].parent == k.tasks[i].parent
            &&& k1.tasks[i].user_space is None
            &&& k1.tasks[j].state == State::Ready
            &&& k1.tasks[j].saved == Some(Regs { rax: code as u64, ..f })
            &&& forall|l: int| 0 <= l < 16 && l != i && l != j ==> #[trigger] k1.tasks[l] == k.tasks[l]
        }),
{
    let q = crate::sched::process::waits_for(k.tasks[i].parent, k.tasks[i].pid);
    assert(q(k.tasks[j]));
    assert forall|l: int| 0 <= l < 16 && l != j && l != i implies !q(#[trigger] k.tasks[l]) by {
        assert(!awaits(k.tasks[l], k.tasks[i].parent, k.tasks[i].pid));
    }
    crate::sched::process::law_exit_wakes_the_parent(k, m, i, j, code);
    let (ka, ma) = crate::sched::process::space_dropped(k, m, i, true);
    let kb = ka.with_task(
        i,
        TaskV { exit_code: code, state: State::Zombie, on_cpu: crate::sched::CPU_ANY, ..ka.tasks[i] },
    );
    crate::seqs::lemma_first_from(kb.tasks, q, 0);
}

/// The end of a thread gives its exit code to the thread of its process that
/// waits to join it, or any.
#[verifier::spinoff_prover]
pub proof fn law_thread_end_answers_the_joiner(k: SchedV, m: MemV, i: int, j: int, code: i64, f: Regs)
    requires
        k.wf(),
        0 <= i < 16,
        0 <= j < 16,
        i != j,
        k.tasks[i].pid != k.tasks[i].tgid,
        k.tasks[j].state == State::BlockedJoin,
        k.tasks[j].tgid == k.tasks[i].tgid,
        k.tasks[j].join_target == 0 || k.tasks[j].join_target == k.tasks[i].pid,
        k.tasks[j].saved == Some(f),
        forall|l: int|
            0 <= l < j && l != i ==> (#[trigger] k.tasks[l]).state != State::BlockedJoin || k.tasks[l].tgid
                != k.tasks[i].tgid,
    ensures
        ({
            let k1 = crate::sched::process::finished(k, m, i, code).0;
            &&& k1.tasks[i].state == State::Zombie
            &&& k1.tasks[i].exit_code == code
            &&& k1.tasks[i].joined
            &&& k1.tasks[j].state == State::Ready
            &&& k1.tasks[j].saved == Some(Regs { rax: code as u64, ..f })
            &&& forall|l: int| 0 <= l < 16 && l != i && l != j ==> #[trigger] k1.tasks[l] == k.tasks[l]
        }),
{
    let t = k.tasks[i];
    let q = crate::sched::process::joins_on(t.tgid, t.pid);
    let (ka, ma) = crate::sched::process::space_dropped(k, m, i, true);
    let kb = ka.with_task(
        i,
        TaskV { exit_code: code, state: State::Zombie, on_cpu: crate::sched::CPU_ANY, ..ka.tasks[i] },
    );
    assert(q(kb.tasks[j]));
    assert forall|l: int| 0 <= l < j implies !q(#[trigger] kb.tasks[l]) by {
        if l != i {
            assert(kb.tasks[l] == k.tasks[l]);
            assert(k.tasks[l].state != State::BlockedJoin || k.tasks[l].tgid != t.tgid);
        }
    }
    crate::seqs::lemma_first_is(kb.tasks, q, 0, j);
}

/// Memory that another task still lives in outlasts the end of this one.
pub proof fn law_shared_memory_outlasts(k: SchedV, m: MemV, i: int, j: int, code: i64, s: AddressSpace, u: AddressSpace)
    requires
        k.wf(),
        0 <= i < 16,
        0 <= j < 16,
        i != j,
        k.tasks[i].user_space == Some(s),
        k.tasks[j].user_space == Some(u),
        s.pml4 == u.pml4,
    ensures
        crate::sched::process::finished(k, m, i, code).1 == m,
{
    assert(k.tasks[j].user_space is Some && k.tasks[j].user_space->Some_0.pml4
        == k.tasks[i].user_space->Some_0.pml4);
    assert(!crate::sched::process::last_owner(k.tasks, i));
}

/// The last task of an address space takes it along: what its end leaves of
/// memory is what tearing the space down leaves, but for the root.
pub proof fn law_last_task_frees_the_memory(k: SchedV, m: MemV, i: int, code: i64, s: AddressSpace)
    requires
        k.wf(),
        0 <= i < 16,
        k.tasks[i].user_space == Some(s),
        forall|j: int|
            0 <= j < 16 && j != i ==> (#[trigger] k.tasks[j]).user_space is None || k.tasks[j].user_space->Some_0.pml4
                != s.pml4,
    ensures
        crate::sched::process::finished(k, m, i, code).1 == crate::mem::vmm::free_all_spec(
            m,
            s.pml4,
            s.owns_lower_half,
            true,
        ).0,
{
    assert(crate::sched::process::last_owner(k.tasks, i));
}

/// A zombie is reclaimed with its exit code kept for a parent that comes
/// later: the slot is free, and the newest entry of the mailbox tells who
/// ended, how, and whose child it was.
pub proof fn law_reclaimed_zombie_leaves_its_code(k: SchedV, m: MemV, i: int)
    requires
        k.wf(),
        0 <= i < 16,
    ensures
        ({
            let t = k.tasks[i];
            let k1 = crate::sched::process::reaped(k, m, i).0;
            &&& k1.tasks[i].state == State::Dead
            &&& k1.tasks[i].pid == 0
            &&& k1.log.len() > 0
            &&& k1.log.last() == (Ended {
                pid: t.pid,
                code: t.exit_code,
                tgid: t.tgid,
                parent: t.parent,
                joined: t.joined,
            })
            &&& k1.log.len() <= 16
            &&& forall|j: int| 0 <= j < 16 && j != i ==> #[trigger] k1.tasks[j] == k.tasks[j]
        }),
{
}

/// A thread whose process has ended does not run on: the next interrupt on
/// its processor makes it a zombie with the code of such threads.
pub proof fn law_marked_thread_ends(
    k: SchedV,
    m: MemV,
    p: SmpV,
    kb: crate::cpu::keyboard::KeyV,
    cpu: int,
    now: u64,
    vec: u64,
    apic_on: bool,
    r: Regs,
)
    requires
        k.wf(),
        k.on,
        p.cpus.len() == 8,
        0 <= cpu < 8,
        p.cpus[cpu].current < 16,
        vec != 0x60,
        vec != 32,
        k.tasks[p.cpus[cpu].current as int].die_flag,
        k.tasks[p.cpus[cpu].current as int].state == State::Running,
    ensures
        ({
            let me = p.cpus[cpu].current as int;
            let (k1, _, _, _, _, next) = crate::sched::switch::dispatch_spec(k, m, p, kb, cpu, now, vec, apic_on, r);
            &&& k1.tasks[me].exit_code == 143
            &&& next is Some ==> k1.tasks[me].state == State::Zombie
        }),
{
    let me = p.cpus[cpu].current as int;
    let t = k.tasks[me];
    let (k1, m1) = crate::sched::process::finished(k, m, me, 143);
    crate::sched::laws::lemma_finished(k, m, me, 143);
    let p2 = p.with_cpu(cpu, Cpu { switch_requested: false, ..p.cpus[cpu] });
    let k3 = crate::sched::switch::parked(k1, me, r);
    assert(k3.wf());
    crate::sched::laws::lemma_reap_all(k3, m1, me, 0);
    let (k4, m4) = crate::sched::switch::reap_all(k3, m1, me, 0);
    crate::sched::laws::lemma_choose_keeps(k4, m4, Seq::empty(), me, cpu);
}

/// Killing a task by pid that neither runs nor has ended takes it out of the
/// table; one that runs cannot be killed, one that is not there either, and
/// then nothing changes.
pub proof fn law_kill_takes_the_task_out(k: SchedV, m: MemV, cpus: Seq<Cpu>, cpu: int, pid: u64, i: int)
    requires
        k.wf(),
        k.on,
        0 <= cpu < cpus.len(),
        cpus[cpu].current < 16,
        pid != k.tasks[cpus[cpu].current as int].pid,
        0 <= i < 16,
        k.tasks[i].pid == pid,
        k.tasks[i].state != State::Dead,
        forall|j: int|
            0 <= j < i ==> (#[trigger] k.tasks[j]).state == State::Dead || k.tasks[j].pid != pid,
    ensures
        ({
            let (k1, m1, x) = crate::sched::process::kill_spec(k, m, cpus, cpu, pid);
            &&& k.tasks[i].state == State::Running ==> x is Err && k1 == k && m1 == m
            &&& k.tasks[i].state != State::Running ==> x is Ok && k1.tasks[i].state == State::Dead
            &&& forall|j: int| 0 <= j < 16 && j != i ==> #[trigger] k1.tasks[j] == k.tasks[j]
        }),
{
    let q = crate::sched::has_pid(pid);
    assert(q(k.tasks[i]));
    assert forall|j: int| 0 <= j < i implies !q(#[trigger] k.tasks[j]) by {
        assert(k.tasks[j].state == State::Dead || k.tasks[j].pid != pid);
    }
    crate::seqs::lemma_first_is(k.tasks, q, 0, i);
}

/// The end of a process ends its threads: each other task of it that does not
/// run is a zombie then, each that runs is marked, and the caller is a zombie
/// with the exit code. Tasks of other processes that wait for nobody do not
/// change.
pub proof fn law_exit_ends_the_whole_process(k: SchedV, m: MemV, me: int, code: i64, j: int)
    requires
        k.wf(),
        0 <= me < 16,
        k.tasks[me].is_user,
        0 <= j < 16,
        j != me,
    ensures
        ({
            let k1 = crate::sched::process::exit_spec(k, m, me, code).0;
            &&& k1.tasks[me].state == State::Zombie
            &&& k1.tasks[me].exit_code == code
            &&& k.tasks[j].is_user && k.tasks[j].tgid == k.tasks[me].tgid ==> (k1.tasks[j].die_flag
                || k1.tasks[j].state == State::Zombie || k1.tasks[j].state == State::Dead)
            &&& k.tasks[j].state != State::WaitingChild && k.tasks[j].state != State::BlockedJoin && !(
            k.tasks[j].is_user && k.tasks[j].tgid == k.tasks[me].tgid) ==> k1.tasks[j] == k.tasks[j]
        }),
{
    crate::sched::process::law_exit_takes_all_threads(k, m, me, code);
    let tgid = k.tasks[me].tgid;
    lemma_swept(k, m, me, tgid, 0, Seq::empty());
    let (k1, m1, swept) = crate::sched::process::sweep(k, m, me, tgid, 0, Seq::empty());
    crate::sched::laws::lemma_finished(k1, m1, me, code);
    crate::sched::process::lemma_finished_keeps(k1, m1, me, code);
}

#[verifier::spinoff_prover]
proof fn lemma_swept(k: SchedV, m: MemV, me: int, tgid: u64, i: int, swept: Seq<u64>)
    requires
        k.wf(),
        0 <= me < 16,
        0 <= i,
    ensures
        ({
            let k1 = crate::sched::process::sweep(k, m, me, tgid, i, swept).0;
            &&& k1.wf()
            &&& forall|j: int|
                0 <= j < 16 ==> (#[trigger] k1.tasks[j]).tgid == k.tasks[j].tgid && k1.tasks[j].is_user
                    == k.tasks[j].is_user
            &&& forall|j: int|
                0 <= j < 16 && (#[trigger] k.tasks[j]).state != State::WaitingChild && k.tasks[j].state
                    != State::BlockedJoin && !(k.tasks[j].is_user && k.tasks[j].tgid == tgid) ==> k1.tasks[j]
                    == k.tasks[j]
        }),
    decreases 16 - i,
{
    if i < 16 {
        let t = k.tasks[i];
        if i == me || !crate::sched::process::lives_in(t, tgid) {
            lemma_swept(k, m, me, tgid, i + 1, swept);
        } else if t.state == State::Running {
            let k1 = k.with_task(i, TaskV { die_flag: true, ..t });
            assert(k1.wf());
            lemma_swept(k1, m, me, tgid, i + 1, swept);
            let k2 = crate::sched::process::sweep(k, m, me, tgid, i, swept).0;
            assert forall|j: int|
                0 <= j < 16 && (#[trigger] k.tasks[j]).state != State::WaitingChild && k.tasks[j].state
                    != State::BlockedJoin && !(k.tasks[j].is_user && k.tasks[j].tgid == tgid) implies k2.tasks[j]
                == k.tasks[j] by {
                assert(k1.tasks[j] == k.tasks[j]);
            }
        } else {
            let (k1, m1) = crate::sched::process::finished(k, m, i, 143);
            crate::sched::laws::lemma_finished(k, m, i, 143);
            crate::sched::process::lemma_finished_keeps(k, m, i, 143);
            lemma_finished_same(k, m, i, 143);
            lemma_swept(k1, m1, me, tgid, i + 1, swept.push(t.pid));
            let k2 = crate::sched::process::sweep(k, m, me, tgid, i, swept).0;
            assert forall|j: int|
                0 <= j < 16 && (#[trigger] k.tasks[j]).state != State::WaitingChild && k.tasks[j].state
                    != State::BlockedJoin && !(k.tasks[j].is_user && k.tasks[j].tgid == tgid) implies k2.tasks[j]
                == k.tasks[j] by {
                assert(k1.tasks[j] == k.tasks[j]);
            }
            assert forall|j: int| 0 <= j < 16 implies (#[trigger] k2.tasks[j]).tgid == k.tasks[j].tgid
                && k2.tasks[j].is_user == k.tasks[j].is_user by {
                assert(k1.tasks[j].tgid == k.tasks[j].tgid);
            }
        }
    }
}

proof fn lemma_finished_same(k: SchedV, m: MemV, i: int, code: i64)
    requires
        k.wf(),
        0 <= i < 16,
    ensures
        ({
            let k1 = crate::sched::process::finished(k, m, i, code).0;
            k1.tasks[i].tgid == k.tasks[i].tgid && k1.tasks[i].is_user == k.tasks[i].is_user
        }),
{
    let t = k.tasks[i];
    let (ka, ma) = crate::sched::process::space_dropped(k, m, i, true);
    let kb = ka.with_task(
        i,
        TaskV { exit_code: code, state: State::Zombie, on_cpu: crate::sched::CPU_ANY, ..ka.tasks[i] },
    );
    crate::seqs::lemma_first_from(kb.tasks, crate::sched::process::waits_for(t.parent, t.pid), 0);
    crate::seqs::lemma_first_from(kb.tasks, crate::sched::process::joins_on(t.tgid, t.pid), 0);
}

/// A new image in a task: the process keeps its pid, its parent and its place;
/// it goes on at the entry, on the new stack, with the arguments; handlers are
/// back to their defaults, and no signal is pending. In a process with other
/// threads, or a kernel task, nothing of that happens.
#[verifier::spinoff_prover]
pub proof fn law_exec_becomes_the_new_program(
    k: SchedV,
    m: MemV,
    me: int,
    space: AddressSpace,
    entry: u64,
    rsp: u64,
    args: (u64, u64),
    name: Seq<char>,
    r: Regs,
)
    requires
        k.wf(),
        0 <= me < 16,
    ensures
        ({
            let (k1, _, g, x) = crate::sched::process::exec_spec(k, m, me, space, entry, rsp, args, name, r);
            let alone = forall|j: int|
                0 <= j < 16 ==> (#[trigger] k.tasks[j]).pid == k.tasks[me].pid || k.tasks[j].tgid != k.tasks[me].tgid
                    || k.tasks[j].state == State::Dead;
            &&& x is Ok <==> k.tasks[me].is_user && alone
            &&& x is Err ==> k1 == k && g == r
            &&& x is Ok ==> {
                let t = k1.tasks[me];
                &&& t.user_space == Some(space)
                &&& t.pml4 == space.pml4
                &&& t.pid == k.tasks[me].pid
                &&& t.tgid == k.tasks[me].tgid
                &&& t.parent == k.tasks[me].parent
                &&& t.state == k.tasks[me].state
                &&& t.sig_pending == 0
                &&& t.fs_base == 0
                &&& forall|i: int| 0 <= i < 16 ==> #[trigger] t.sig_handlers[i] == 0
                &&& g.rip == entry
                &&& g.rsp == rsp
                &&& g.rdi == args.0
                &&& g.rsi == args.1
                &&& g.cs == r.cs
                &&& forall|j: int| 0 <= j < 16 && j != me ==> #[trigger] k1.tasks[j] == k.tasks[j]
            }
        }),
{
    let t = k.tasks[me];
    let q = crate::sched::process::groupmate(t.tgid, t.pid);
    crate::seqs::lemma_first_from(k.tasks, q, 0);
    if crate::seqs::first(k.tasks, q) is None {
        assert forall|j: int| 0 <= j < 16 implies (#[trigger] k.tasks[j]).pid == t.pid || k.tasks[j].tgid != t.tgid
            || k.tasks[j].state == State::Dead by {
            assert(!q(k.tasks[j]));
        }
    } else {
        let j = crate::seqs::first(k.tasks, q)->Some_0;
        assert(q(k.tasks[j]));
        assert(!(k.tasks[j].pid == t.pid || k.tasks[j].tgid != t.tgid || k.tasks[j].state == State::Dead));
    }
}

} // verus!
