//! What the scheduler is for: programs take turns, sleepers wake on time, a
//! task goes on where it stopped, and whoever waits is told.

use vstd::prelude::*;

use crate::console::OutV;
use crate::cpu::idt::Regs;
use crate::cpu::keyboard::KeyV;
use crate::cpu::smp::{Cpu, SmpV};
use crate::mem::vmm::MemV;
use crate::sched::switch::Delivery;
use crate::sched::{SchedV, State, TaskV};

verus! {

// ---------------------------------------------------------------------------
// The tick
// ---------------------------------------------------------------------------
/// A tick takes the processor from a program: a user task that runs is ready
/// after it, and a switch is asked for on that processor and on no other.
pub proof fn law_tick_preempts_programs(k: SchedV, p: SmpV, kb: KeyV, cpu: int, now: u64)
    requires
        k.wf(),
        0 <= cpu < p.cpus.len(),
        p.cpus[cpu].current < 16,
        k.tasks[p.cpus[cpu].current as int].is_user,
        k.tasks[p.cpus[cpu].current as int].state == State::Running,
    ensures
        ({
            let me = p.cpus[cpu].current as int;
            let (k1, p1, _) = crate::sched::switch::timer_spec(k, p, kb, cpu, now);
            &&& k1.tasks[me] == TaskV { state: State::Ready, ..k.tasks[me] }
            &&& p1.cpus[cpu] == Cpu { switch_requested: true, ..p.cpus[cpu] }
            &&& forall|c: int| 0 <= c < p.cpus.len() && c != cpu ==> #[trigger] p1.cpus[c] == p.cpus[c]
        }),
{
    lemma_tick(k, p, kb, cpu, now);
}

/// What a tick does to each task.
#[verifier::spinoff_prover]
proof fn lemma_tick(k: SchedV, p: SmpV, kb: KeyV, cpu: int, now: u64)
    requires
        k.wf(),
        0 <= cpu < p.cpus.len(),
        p.cpus[cpu].current < 16,
    ensures
        ({
            let me = p.cpus[cpu].current as int;
            let (k1, p1, kb1) = crate::sched::switch::timer_spec(k, p, kb, cpu, now);
            &&& k1.wf()
            &&& k1.on == k.on
            &&& k1.log == k.log
            &&& p1.cpus.len() == p.cpus.len()
            &&& forall|i: int|
                0 <= i < 16 && i != me && (#[trigger] k.tasks[i]).state != State::Sleeping && k.tasks[i].state
                    != State::BlockedInput ==> k1.tasks[i] == k.tasks[i]
            &&& forall|i: int|
                0 <= i < 16 && (#[trigger] k.tasks[i]).state == State::Sleeping ==> k1.tasks[i] == (if k.tasks[i].wake_at_ms
                    <= now {
                    TaskV { state: State::Ready, ..k.tasks[i] }
                } else {
                    k.tasks[i]
                })
            &&& k.tasks[me].is_user && k.tasks[me].state == State::Running ==> k1.tasks[me] == TaskV {
                state: State::Ready,
                ..k.tasks[me]
            } && p1.cpus == p.cpus.update(cpu, Cpu { switch_requested: true, ..p.cpus[cpu] })
        }),
{
    let k1 = SchedV {
        tasks: k.tasks.map_values(|t: TaskV| crate::sched::switch::rested(t, now)),
        ..k
    };
    let q = crate::sched::switch::waits_for_key();
    crate::seqs::lemma_first_from(k1.tasks, q, 0);
    let (k2, kb2) = crate::sched::switch::key_delivered(k1, kb);
    assert forall|i: int| 0 <= i < 16 implies (#[trigger] k2.tasks[i]).wf() && (k1.tasks[i].state
        != State::BlockedInput ==> k2.tasks[i] == k1.tasks[i]) by {
        assert(k.tasks[i].wf());
    }
    assert forall|i: int| 0 <= i < 16 implies #[trigger] k1.tasks[i] == crate::sched::switch::rested(
        k.tasks[i],
        now,
    ) by {
    }
    assert(k2.wf());
    let t = crate::sched::switch::timer_spec(k, p, kb, cpu, now).0;
    assert forall|i: int| 0 <= i < 16 implies (#[trigger] t.tasks[i]).wf() by {
        assert(k2.tasks[i].wf());
    }
}

/// A task that sleeps is ready at the first tick at or after the time it asked
/// for, and asleep at every tick before it.
pub proof fn law_sleepers_wake_on_time(k: SchedV, p: SmpV, kb: KeyV, cpu: int, now: u64, i: int)
    requires
        k.wf(),
        0 <= cpu < p.cpus.len(),
        p.cpus[cpu].current < 16,
        0 <= i < 16,
        k.tasks[i].state == State::Sleeping,
    ensures
        ({
            let k1 = crate::sched::switch::timer_spec(k, p, kb, cpu, now).0;
            &&& now >= k.tasks[i].wake_at_ms ==> k1.tasks[i] == TaskV { state: State::Ready, ..k.tasks[i] }
            &&& now < k.tasks[i].wake_at_ms ==> k1.tasks[i] == k.tasks[i]
        }),
{
    lemma_tick(k, p, kb, cpu, now);
}

/// A tick leaves every other task as it is: none but a sleeper whose time has
/// come, one that waits for a key, and the program that runs.
pub proof fn law_tick_leaves_the_others(k: SchedV, p: SmpV, kb: KeyV, cpu: int, now: u64, i: int)
    requires
        k.wf(),
        0 <= cpu < p.cpus.len(),
        p.cpus[cpu].current < 16,
        0 <= i < 16,
        i != p.cpus[cpu].current,
        k.tasks[i].state != State::Sleeping,
        k.tasks[i].state != State::BlockedInput,
    ensures
        crate::sched::switch::timer_spec(k, p, kb, cpu, now).0.tasks[i] == k.tasks[i],
{
    lemma_tick(k, p, kb, cpu, now);
}

/// A key goes to a task that waits for one: the tick takes the oldest key out
/// of the queue, and the call of the first such task returns it. Without a key
/// the tick leaves those tasks waiting; without such a task, the keys.
#[verifier::spinoff_prover]
pub proof fn law_keys_reach_who_waits(k: SchedV, p: SmpV, kb: KeyV, cpu: int, now: u64, i: int, f: Regs)
    requires
        k.wf(),
        0 <= cpu < p.cpus.len(),
        p.cpus[cpu].current < 16,
        0 <= i < 16,
        i != p.cpus[cpu].current,
        k.tasks[i].state == State::BlockedInput,
        k.tasks[i].saved == Some(f),
        forall|j: int| 0 <= j < i ==> (#[trigger] k.tasks[j]).state != State::BlockedInput,
    ensures
        ({
            let (k1, _, kb1) = crate::sched::switch::timer_spec(k, p, kb, cpu, now);
            &&& kb.queue.len() > 0 ==> {
                &&& k1.tasks[i].state == State::Ready
                &&& k1.tasks[i].saved == Some(Regs { rax: kb.queue[0] as u64, ..f })
                &&& kb1.queue == kb.queue.subrange(1, kb.queue.len() as int)
                &&& forall|j: int|
                    0 <= j < 16 && j != i && (#[trigger] k.tasks[j]).state == State::BlockedInput ==> k1.tasks[j].state
                        == State::BlockedInput
            }
            &&& kb.queue.len() == 0 ==> k1.tasks[i] == k.tasks[i] && kb1.queue == kb.queue
        }),
{
    let k1 = SchedV {
        tasks: k.tasks.map_values(|t: TaskV| crate::sched::switch::rested(t, now)),
        ..k
    };
    let q = crate::sched::switch::waits_for_key();
    assert(q(k1.tasks[i]));
    assert forall|j: int| 0 <= j < i implies !q(#[trigger] k1.tasks[j]) by {
        assert(k.tasks[j].state != State::BlockedInput);
    }
    crate::seqs::lemma_first_is(k1.tasks, q, 0, i);
    assert(kb.queue.skip(1) =~= kb.queue.subrange(1, kb.queue.len() as int)) by {
        if kb.queue.len() > 0 {
        }
    }
}

/// With nobody waiting for a key, a tick takes none out of the queue.
pub proof fn law_keys_wait_for_a_reader(k: SchedV, p: SmpV, kb: KeyV, cpu: int, now: u64)
    requires
        k.wf(),
        forall|j: int| 0 <= j < 16 ==> (#[trigger] k.tasks[j]).state != State::BlockedInput,
    ensures
        crate::sched::switch::timer_spec(k, p, kb, cpu, now).2 == kb,
{
    let k1 = SchedV {
        tasks: k.tasks.map_values(|t: TaskV| crate::sched::switch::rested(t, now)),
        ..k
    };
    let q = crate::sched::switch::waits_for_key();
    assert forall|j: int| 0 <= j < k1.tasks.len() implies !q(#[trigger] k1.tasks[j]) by {
        assert(k.tasks[j].state != State::BlockedInput);
    }
    crate::seqs::lemma_first_none(k1.tasks, q, 0);
}

// ---------------------------------------------------------------------------
// The round
// ---------------------------------------------------------------------------
/// Ready, and allowed on a processor: pinned to it or to none.
pub open spec fn eligible(t: TaskV, cpu: int) -> bool {
    t.state == State::Ready && (t.pinned_cpu == 0xFF || t.pinned_cpu == cpu)
}

/// A task whose name starts with "kidle".
pub open spec fn idles(t: TaskV) -> bool {
    t.name.len() >= 5 && t.name.take(5) == seq![107u8, 105u8, 100u8, 108u8, 101u8]
}

proof fn lemma_idles(t: TaskV)
    ensures
        idles(t) == crate::sched::idle_name(t.name),
{
    if t.name.len() >= 5 {
        let a = t.name.take(5);
        let b = seq![107u8, 105u8, 100u8, 108u8, 101u8];
        assert(a.len() == 5 && b.len() == 5);
        if crate::sched::idle_name(t.name) {
            assert(a =~= b);
        }
        if a == b {
            assert(a[0] == 107 && a[1] == 105 && a[2] == 100 && a[3] == 108 && a[4] == 101);
        }
    }
}

/// The distance from `cur` to a pid, going up and starting over after the
/// highest: what the round goes by.
pub open spec fn ahead_of(cur: u64, pid: u64) -> int {
    if pid > cur {
        pid - cur
    } else {
        pid - cur + 0x1_0000_0000_0000_0000
    }
}

/// A processor takes up the task that is next in the round: of all that are
/// ready and allowed on it, but for the current one and idle tasks, the one
/// whose pid comes first after the current pid. It idles only if there is
/// none, and stays with what it does only if it cannot idle either.
pub proof fn law_next_in_the_round(tasks: Seq<TaskV>, me: int, cpu: int)
    requires
        tasks.len() == 16,
        0 <= me < 16,
    ensures
        match crate::sched::switch::pick_spec(tasks, me, cpu) {
            Some(n) => {
                &&& 0 <= n < 16
                &&& n != me
                &&& eligible(tasks[n], cpu)
                &&& !idles(tasks[n]) ==> forall|j: int|
                    0 <= j < 16 && j != me && eligible(#[trigger] tasks[j], cpu) && !idles(tasks[j]) ==> ahead_of(
                        tasks[me].pid,
                        tasks[n].pid,
                    ) <= ahead_of(tasks[me].pid, tasks[j].pid)
                &&& idles(tasks[n]) ==> forall|j: int|
                    0 <= j < 16 && j != me && eligible(#[trigger] tasks[j], cpu) ==> idles(tasks[j])
            },
            None => forall|j: int| 0 <= j < 16 && j != me ==> !eligible(#[trigger] tasks[j], cpu),
        },
{
    lemma_round_so_far(tasks, me, cpu, 16);
}

proof fn lemma_round_so_far(tasks: Seq<TaskV>, me: int, cpu: int, n: int)
    requires
        tasks.len() == 16,
        0 <= me < 16,
        0 <= n <= 16,
    ensures
        ({
            let (best, idle) = crate::sched::switch::picked(tasks, me, cpu, n);
            &&& match best {
                Some(b) => {
                    &&& 0 <= b < n
                    &&& b != me
                    &&& eligible(tasks[b], cpu)
                    &&& !idles(tasks[b])
                    &&& forall|j: int|
                        0 <= j < n && j != me && eligible(#[trigger] tasks[j], cpu) && !idles(tasks[j]) ==> ahead_of(
                            tasks[me].pid,
                            tasks[b].pid,
                        ) <= ahead_of(tasks[me].pid, tasks[j].pid)
                },
                None => forall|j: int|
                    0 <= j < n && j != me && eligible(#[trigger] tasks[j], cpu) ==> idles(tasks[j]),
            }
            &&& match idle {
                Some(b) => 0 <= b < n && b != me && eligible(tasks[b], cpu) && idles(tasks[b]),
                None => forall|j: int| 0 <= j < n && j != me && eligible(#[trigger] tasks[j], cpu) ==> !idles(tasks[j]),
            }
        }),
    decreases n,
{
    if n > 0 {
        lemma_round_so_far(tasks, me, cpu, n - 1);
        lemma_idles(tasks[n - 1]);
    }
}

// ---------------------------------------------------------------------------
// The switch
// ---------------------------------------------------------------------------
/// Reclaiming zombies touches nobody else.
#[verifier::spinoff_prover]
pub proof fn lemma_reap_all(k: SchedV, m: MemV, me: int, i: int)
    requires
        k.wf(),
        0 <= me < 16,
        0 <= i,
    ensures
        ({
            let k1 = crate::sched::switch::reap_all(k, m, me, i).0;
            &&& k1.wf()
            &&& k1.tasks[me] == k.tasks[me]
            &&& forall|j: int|
                0 <= j < 16 && (#[trigger] k.tasks[j]).state != State::Zombie ==> k1.tasks[j] == k.tasks[j]
        }),
    decreases 16 - i,
{
    if i < 16 {
        if k.tasks[i].state == State::Zombie && k.tasks[i].pid != k.tasks[me].pid {
            let (k1, m1) = crate::sched::process::reaped(k, m, i);
            assert(k1.wf());
            lemma_reap_all(k1, m1, me, i + 1);
            let k2 = crate::sched::switch::reap_all(k, m, me, i).0;
            assert forall|j: int|
                0 <= j < 16 && (#[trigger] k.tasks[j]).state != State::Zombie implies k2.tasks[j] == k.tasks[j] by {
                assert(k1.tasks[j] == k.tasks[j]);
            }
        } else {
            lemma_reap_all(k, m, me, i + 1);
        }
    }
}

/// Who ends wakes at most somebody who waits for that.
pub proof fn lemma_finished(k: SchedV, m: MemV, i: int, code: i64)
    requires
        k.wf(),
        0 <= i < 16,
    ensures
        ({
            let k1 = crate::sched::process::finished(k, m, i, code).0;
            &&& k1.wf()
            &&& k1.tasks[i].state == State::Zombie
            &&& k1.tasks[i].exit_code == code
            &&& k1.tasks[i].pid == k.tasks[i].pid
            &&& forall|j: int|
                0 <= j < 16 && j != i && (#[trigger] k.tasks[j]).state != State::WaitingChild && k.tasks[j].state
                    != State::BlockedJoin ==> k1.tasks[j] == k.tasks[j]
        }),
{
    let t = k.tasks[i];
    let (ka, ma) = crate::sched::process::space_dropped(k, m, i, true);
    let kb = ka.with_task(
        i,
        TaskV { exit_code: code, state: State::Zombie, on_cpu: crate::sched::CPU_ANY, ..ka.tasks[i] },
    );
    crate::seqs::lemma_first_from(kb.tasks, crate::sched::process::waits_for(t.parent, t.pid), 0);
    crate::seqs::lemma_first_from(kb.tasks, crate::sched::process::joins_on(t.tgid, t.pid), 0);
    crate::sched::process::lemma_finished_keeps(k, m, i, code);
}

/// What a delivery leaves: other tasks that wait for nobody, and a task
/// without signals.
#[verifier::spinoff_prover]
proof fn lemma_deliver(k: SchedV, m: MemV, i: int)
    requires
        k.wf(),
        0 <= i < 16,
    ensures
        ({
            let (k1, _, _, d) = crate::sched::switch::deliver_spec(k, m, i);
            &&& k1.wf()
            &&& k.tasks[i].sig_pending == 0 ==> k1 == k && d == Delivery::Nothing
            &&& d != Delivery::Terminated ==> k1.tasks[i].state == k.tasks[i].state
            &&& d != Delivery::Handled ==> (d == Delivery::Nothing ==> k1 == k)
            &&& forall|j: int|
                0 <= j < 16 && j != i && (#[trigger] k.tasks[j]).state != State::WaitingChild && k.tasks[j].state
                    != State::BlockedJoin ==> k1.tasks[j] == k.tasks[j]
        }),
{
    let t = k.tasks[i];
    assert(t.wf());
    lemma_lowest(t.sig_pending, 0);
    match crate::sched::switch::lowest_signal(t.sig_pending, 0) {
        Some(b) => {
            let sig = b as u64;
            let m1 = crate::user::signal::enter_spec(t, m, sig, t.sig_handlers[b]).1;
            lemma_finished(k, m, i, (128 + sig) as i64);
            lemma_finished(k, m1, i, 139);
            crate::sched::switch::lemma_pending_bound(t.sig_pending, sig);
            let (t1, _, ok) = crate::user::signal::enter_spec(t, m, sig, t.sig_handlers[b]);
            assert(t1.name == t.name && t1.sig_handlers == t.sig_handlers && t1.state == t.state);
        },
        None => {},
    }
}

/// The lowest pending signal: its bit is set, and none below it.
proof fn lemma_lowest(p: u64, b: int)
    requires
        0 <= b,
    ensures
        match crate::sched::switch::lowest_signal(p, b) {
            Some(s) => b <= s < 16 && (p >> (s as u64)) & 1 == 1 && forall|j: u64|
                b <= j < s ==> #[trigger] (p >> j) & 1 == 0,
            None => forall|j: u64| b <= j < 16 ==> #[trigger] (p >> j) & 1 == 0,
        },
        p == 0 ==> crate::sched::switch::lowest_signal(p, b) is None,
    decreases 16 - b,
{
    if b < 16 {
        let x = b as u64;
        assert(((p >> x) & 1 == 0 || (p >> x) & 1 == 1) && (p == 0 ==> (p >> x) & 1 == 0)) by (bit_vector);
        lemma_lowest(p, b + 1);
    }
}

/// Somebody is chosen if somebody is ready who no signal can end, and those
/// without signals are as they were.
#[verifier::spinoff_prover]
proof fn lemma_choose(k: SchedV, m: MemV, out: Seq<OutV>, me: int, cpu: int, j: int)
    requires
        k.wf(),
        0 <= me < 16,
        0 <= j < 16,
        j != me,
        eligible(k.tasks[j], cpu),
        k.tasks[j].sig_pending == 0,
        k.tasks[me].state != State::WaitingChild,
        k.tasks[me].state != State::BlockedJoin,
    ensures
        ({
            let (k1, _, _, r) = crate::sched::switch::choose_spec(k, m, out, me, cpu);
            &&& k1.wf()
            &&& r matches Some(n) && 0 <= n < 16 && n != me && k1.tasks[n].state == State::Ready
            &&& k1.tasks[me] == k.tasks[me]
            &&& forall|l: int|
                0 <= l < 16 && (#[trigger] k.tasks[l]).state == State::Ready && k.tasks[l].sig_pending == 0
                    ==> k1.tasks[l] == k.tasks[l]
        }),
    decreases crate::sched::switch::live_count(k.tasks, 16),
{
    law_next_in_the_round(k.tasks, me, cpu);
    let n = crate::sched::switch::pick_spec(k.tasks, me, cpu)->Some_0;
    let (k1, m1, o, d) = crate::sched::switch::deliver_spec(k, m, n);
    lemma_deliver(k, m, n);
    if d == Delivery::Terminated {
        crate::sched::switch::lemma_terminated(k, m, n);
        assert(n != j);
        assert(k1.tasks[j] == k.tasks[j]);
        lemma_choose(k1, m1, out + o, me, cpu, j);
        let k2 = crate::sched::switch::choose_spec(k, m, out, me, cpu).0;
        assert forall|l: int|
            0 <= l < 16 && (#[trigger] k.tasks[l]).state == State::Ready && k.tasks[l].sig_pending
                == 0 implies k2.tasks[l] == k.tasks[l] by {
            assert(l != n);
            assert(k1.tasks[l] == k.tasks[l]);
        }
    }
}

/// The choice of the next task leaves one that waits for nobody.
pub proof fn lemma_choose_keeps(k: SchedV, m: MemV, out: Seq<OutV>, me: int, cpu: int)
    requires
        k.wf(),
        0 <= me < 16,
        k.tasks[me].state != State::WaitingChild,
        k.tasks[me].state != State::BlockedJoin,
    ensures
        crate::sched::switch::choose_spec(k, m, out, me, cpu).0.wf(),
        crate::sched::switch::choose_spec(k, m, out, me, cpu).0.tasks[me] == k.tasks[me],
        crate::sched::switch::choose_spec(k, m, out, me, cpu).3 matches Some(n) ==> 0 <= n < 16 && n != me,
    decreases crate::sched::switch::live_count(k.tasks, 16),
{
    law_next_in_the_round(k.tasks, me, cpu);
    match crate::sched::switch::pick_spec(k.tasks, me, cpu) {
        None => {},
        Some(n) => {
            let (k1, m1, o, d) = crate::sched::switch::deliver_spec(k, m, n);
            lemma_deliver(k, m, n);
            if d == Delivery::Terminated {
                crate::sched::switch::lemma_terminated(k, m, n);
                lemma_choose_keeps(k1, m1, out + o, me, cpu);
            }
        },
    }
}

/// Programs take turns: when the timer interrupts a program and another task
/// is ready that may run there, the processor goes on with another task. The
/// program is ready again, with the registers it was interrupted with; the
/// task that goes on is the processor's, and if it has no signals it goes on
/// with the registers, the memory, the stack and the thread-local base it has.
#[verifier::spinoff_prover]
pub proof fn law_programs_take_turns(
    k: SchedV,
    m: MemV,
    p: SmpV,
    kb: KeyV,
    cpu: int,
    now: u64,
    apic_on: bool,
    r: Regs,
    j: int,
)
    requires
        k.wf(),
        k.on,
        p.cpus.len() == 8,
        0 <= cpu < 8,
        p.cpus[cpu].current < 16,
        0 <= j < 16,
        j != p.cpus[cpu].current,
        k.tasks[p.cpus[cpu].current as int].is_user,
        k.tasks[p.cpus[cpu].current as int].state == State::Running,
        eligible(k.tasks[j], cpu),
        k.tasks[j].sig_pending == 0,
    ensures
        ({
            let me = p.cpus[cpu].current as int;
            let (k1, _, p1, _, _, next) = crate::sched::switch::dispatch_spec(
                k,
                m,
                p,
                kb,
                cpu,
                now,
                0x60,
                apic_on,
                r,
            );
            &&& next matches Some(x) && {
                let n = x.slot as int;
                &&& 0 <= n < 16
                &&& n != me
                &&& k1.tasks[n].state == State::Running
                &&& k1.tasks[n].on_cpu == cpu
                &&& p1.cpus[cpu].current == n
                &&& x.frame == k1.tasks[n].saved
                &&& x.pml4 == k1.tasks[n].pml4
                &&& x.rsp0 == k1.tasks[n].kstack_top
                &&& x.fs_base == k1.tasks[n].fs_base
                &&& k.tasks[n].state == State::Ready && k.tasks[n].sig_pending == 0 ==> k1.tasks[n] == TaskV {
                    state: State::Running,
                    on_cpu: cpu as u8,
                    ..k.tasks[n]
                }
            }
            &&& k1.tasks[me].state == State::Ready
            &&& k1.tasks[me].saved == Some(r)
            &&& k1.tasks[me].on_cpu == 0xFF
            &&& !p1.cpus[cpu].switch_requested
        }),
{
    let me = p.cpus[cpu].current as int;
    lemma_tick(k, p, kb, cpu, now);
    let (k1, p1, kb1) = crate::sched::switch::timer_spec(k, p, kb, cpu, now);
    let p2 = p1.with_cpu(cpu, Cpu { switch_requested: false, ..p1.cpus[cpu] });
    let k3 = crate::sched::switch::parked(k1, me, r);
    assert(k3.wf());
    lemma_reap_all(k3, m, me, 0);
    let (k4, m4) = crate::sched::switch::reap_all(k3, m, me, 0);
    assert(k3.tasks[j] == k.tasks[j]);
    lemma_choose(k4, m4, Seq::empty(), me, cpu, j);
    let (k5, m5, out, next) = crate::sched::switch::choose_spec(k4, m4, Seq::empty(), me, cpu);
    let n = next->Some_0;
    if k.tasks[n].state == State::Ready && k.tasks[n].sig_pending == 0 {
        assert(k1.tasks[n] == k.tasks[n]);
        assert(k3.tasks[n] == k.tasks[n]);
        assert(k4.tasks[n] == k.tasks[n]);
        assert(k5.tasks[n] == k.tasks[n]);
    }
}

/// A task that gave the processor up, or can go on no longer, is switched away
/// from in the same way, whatever the interrupt was; its registers are kept.
pub proof fn law_parked_tasks_make_way(
    k: SchedV,
    m: MemV,
    p: SmpV,
    kb: KeyV,
    cpu: int,
    now: u64,
    vec: u64,
    apic_on: bool,
    r: Regs,
    j: int,
)
    requires
        k.wf(),
        k.on,
        p.cpus.len() == 8,
        0 <= cpu < 8,
        p.cpus[cpu].current < 16,
        0 <= j < 16,
        j != p.cpus[cpu].current,
        vec != 0x60,
        vec != 32,
        p.cpus[cpu].switch_requested || k.tasks[p.cpus[cpu].current as int].state != State::Running,
        !k.tasks[p.cpus[cpu].current as int].die_flag,
        k.tasks[p.cpus[cpu].current as int].state != State::WaitingChild,
        k.tasks[p.cpus[cpu].current as int].state != State::BlockedJoin,
        eligible(k.tasks[j], cpu),
        k.tasks[j].sig_pending == 0,
    ensures
        ({
            let me = p.cpus[cpu].current as int;
            let (k1, _, p1, _, _, next) = crate::sched::switch::dispatch_spec(
                k,
                m,
                p,
                kb,
                cpu,
                now,
                vec,
                apic_on,
                r,
            );
            &&& next matches Some(x) && x.slot != me && p1.cpus[cpu].current == x.slot && k1.tasks[x.slot as int].state
                == State::Running
            &&& k1.tasks[me].saved == Some(r)
            &&& k1.tasks[me].state == (if k.tasks[me].state == State::Running {
                State::Ready
            } else {
                k.tasks[me].state
            })
        }),
{
    let me = p.cpus[cpu].current as int;
    let p2 = p.with_cpu(cpu, Cpu { switch_requested: false, ..p.cpus[cpu] });
    let k3 = crate::sched::switch::parked(k, me, r);
    assert(k3.wf());
    lemma_reap_all(k3, m, me, 0);
    let (k4, m4) = crate::sched::switch::reap_all(k3, m, me, 0);
    assert(k3.tasks[j] == k.tasks[j]);
    lemma_choose(k4, m4, Seq::empty(), me, cpu, j);
}

/// Any other interrupt of a task that runs and was not asked to make way
/// leaves it running: nothing but the request mark changes.
pub proof fn law_other_interrupts_return(
    k: SchedV,
    m: MemV,
    p: SmpV,
    kb: KeyV,
    cpu: int,
    now: u64,
    vec: u64,
    apic_on: bool,
    r: Regs,
)
    requires
        k.on,
        0 <= cpu < p.cpus.len(),
        p.cpus[cpu].current < 16,
        vec != 0x60,
        vec != 32,
        !p.cpus[cpu].switch_requested,
        k.tasks[p.cpus[cpu].current as int].state == State::Running,
        !k.tasks[p.cpus[cpu].current as int].die_flag,
    ensures
        ({
            let (k1, m1, p1, kb1, out, next) = crate::sched::switch::dispatch_spec(
                k,
                m,
                p,
                kb,
                cpu,
                now,
                vec,
                apic_on,
                r,
            );
            k1 == k && m1 == m && p1.cpus == p.cpus && kb1 == kb && out.len() == 0 && next is None
        }),
{
    let p2 = p.with_cpu(cpu, Cpu { switch_requested: false, ..p.cpus[cpu] });
    assert(p2.cpus =~= p.cpus);
}

// ---------------------------------------------------------------------------
// Signals
// ---------------------------------------------------------------------------
/// Setting and clearing one bit of a word.
proof fn lemma_bits(a: u64, s: u64, c: u64)
    requires
        s < 16,
        c < 64,
        c != s,
    ensures
        ((a | (1u64 << s)) >> s) & 1 == 1,
        ((a & !(1u64 << s)) >> s) & 1 == 0,
        ((a | (1u64 << s)) >> c) & 1 == (a >> c) & 1,
        ((a & !(1u64 << s)) >> c) & 1 == (a >> c) & 1,
{
    assert(((a | (1u64 << s)) >> s) & 1 == 1 && ((a & !(1u64 << s)) >> s) & 1 == 0 && ((a | (1u64 << s)) >> c) & 1 == (a
        >> c) & 1 && ((a & !(1u64 << s)) >> c) & 1 == (a >> c) & 1) by (bit_vector)
        requires
            s < 16,
            c < 64,
            c != s,
    ;
}

/// A signal that was sent is pending, and none other came or went; the task
/// can resume: it was parked on keys, a channel, a socket, a child or a
/// thread and is ready, or it is as it was.
pub proof fn law_sent_signal_is_pending(k: SchedV, cpus: Seq<Cpu>, cpu: int, pid: u64, sig: u64, i: int)
    requires
        k.wf(),
        k.on,
        sig < 16,
        0 <= cpu < cpus.len(),
        cpus[cpu].current < 16,
        pid != k.tasks[cpus[cpu].current as int].pid,
        0 <= i < 16,
        k.tasks[i].pid == pid,
        k.tasks[i].is_user,
        k.tasks[i].state != State::Dead,
        k.tasks[i].state != State::Zombie,
        forall|j: int|
            0 <= j < 16 && j != i ==> (#[trigger] k.tasks[j]).state == State::Dead || k.tasks[j].pid != pid,
    ensures
        ({
            let (k1, x) = crate::sched::switch::send_signal_spec(k, cpus, cpu, pid, sig);
            let st = k.tasks[i].state;
            &&& x is Ok
            &&& (k1.tasks[i].sig_pending >> sig) & 1 == 1
            &&& forall|b: u64|
                b < 64 && b != sig ==> #[trigger] (k1.tasks[i].sig_pending >> b) & 1 == (k.tasks[i].sig_pending >> b) & 1
            &&& k1.tasks[i].state == (if st == State::BlockedInput || st == State::BlockedChan || st
                == State::BlockedSock || st == State::WaitingChild || st == State::BlockedJoin {
                State::Ready
            } else {
                st
            })
            &&& k1.tasks[i].saved == k.tasks[i].saved
            &&& forall|j: int| 0 <= j < 16 && j != i ==> #[trigger] k1.tasks[j] == k.tasks[j]
        }),
{
    let q = crate::sched::has_pid(pid);
    assert(q(k.tasks[i]));
    assert forall|j: int| 0 <= j < i implies !q(#[trigger] k.tasks[j]) by {
        assert(k.tasks[j].state == State::Dead || k.tasks[j].pid != pid);
    }
    crate::seqs::lemma_first_is(k.tasks, q, 0, i);
    let a = k.tasks[i].sig_pending;
    let b = a | (1u64 << sig);
    lemma_bits(a, sig, 63);
    assert forall|c: u64| c < 64 && c != sig implies #[trigger] (b >> c) & 1 == (a >> c) & 1 by {
        lemma_bits(a, sig, c);
    }
}

/// A delivery takes the lowest pending signal. One without a handler ends the
/// task with 128 and its number; so does number 9, whatever the handlers are.
/// With a handler the task lives on, and that signal alone is not pending any
/// more.
pub proof fn law_delivery(k: SchedV, m: MemV, i: int, sig: u64)
    requires
        k.wf(),
        0 <= i < 16,
        k.tasks[i].is_user,
        k.tasks[i].user_space is Some,
        sig < 16,
        (k.tasks[i].sig_pending >> sig) & 1 == 1,
        forall|b: u64| b < sig ==> #[trigger] (k.tasks[i].sig_pending >> b) & 1 == 0,
    ensures
        ({
            let t = k.tasks[i];
            let (k1, _, _, d) = crate::sched::switch::deliver_spec(k, m, i);
            &&& sig == 9 || t.sig_handlers[sig as int] == 0 ==> {
                &&& d == Delivery::Terminated
                &&& k1.tasks[i].state == State::Zombie
                &&& k1.tasks[i].exit_code == 128 + sig
                &&& k1.tasks[i].user_space is None
            }
            &&& d == Delivery::Handled ==> {
                let a = k1.tasks[i].sig_pending;
                &&& (a >> sig) & 1 == 0
                &&& forall|b: u64| b < 64 && b != sig ==> #[trigger] (a >> b) & 1 == (t.sig_pending >> b) & 1
                &&& k1.tasks[i].state == t.state
            }
            &&& d != Delivery::Nothing
        }),
{
    let t = k.tasks[i];
    lemma_lowest(t.sig_pending, 0);
    let b = crate::sched::switch::lowest_signal(t.sig_pending, 0)->Some_0;
    assert(b == sig);
    lemma_finished(k, m, i, (128 + sig) as i64);
    lemma_ended_has_no_space(k, m, i, (128 + sig) as i64);
    let p = t.sig_pending;
    let a = p & !(1u64 << sig);
    lemma_bits(p, sig, 63);
    assert forall|c: u64| c < 64 && c != sig implies #[trigger] (a >> c) & 1 == (p >> c) & 1 by {
        lemma_bits(p, sig, c);
    }
}

proof fn lemma_ended_has_no_space(k: SchedV, m: MemV, i: int, code: i64)
    requires
        k.wf(),
        0 <= i < 16,
    ensures
        crate::sched::process::finished(k, m, i, code).0.tasks[i].user_space is None,
{
    let t = k.tasks[i];
    let (ka, ma) = crate::sched::process::space_dropped(k, m, i, true);
    let kb = ka.with_task(
        i,
        TaskV { exit_code: code, state: State::Zombie, on_cpu: crate::sched::CPU_ANY, ..ka.tasks[i] },
    );
    crate::seqs::lemma_first_from(kb.tasks, crate::sched::process::waits_for(t.parent, t.pid), 0);
    crate::seqs::lemma_first_from(kb.tasks, crate::sched::process::joins_on(t.tgid, t.pid), 0);
}

} // verus!
