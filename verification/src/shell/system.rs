//! What the shell tells of memory, tasks, processors and channels.

use vstd::prelude::*;
use vstd::string::StringExecFns;

use crate::console::{
    nothing, say, say_color, Out, OutV, GLM_CYAN, GLM_GRAY, GLM_GREEN, GLM_MAGENTA, GLM_RED, GLM_YELLOW,
};
use crate::cpu::gdt::MAX_CPUS;
use crate::cpu::mouse::Mouse;
use crate::cpu::smp::Smp;
use crate::mem::frames::Stats;
use crate::mem::heap::HeapStats;
use crate::mem::paging::{describe, dump, DirectMap};
use crate::mem::vmm::{cow_stats, MemV, Memory, USER_IMG_BASE, USER_STACK_TOP};
use crate::sched::process::kill;
use crate::sched::switch::send_signal;
use crate::sched::{current_pid, for_each_task, task_state, Sched, SchedV, State, TaskV, MAX_TASKS};
use crate::text::{chars_of, latin1, parse_uint, push_char, push_dec, push_dec_right, push_hexp, push_left, push_right};
use crate::user::signal::{SIGKILL, SIGTERM, SIGUSR1};
use crate::words::trim;

verus! {

pub open spec fn num(n: int) -> Seq<char> {
    crate::text::dec_text(n as nat)
}

/// A number with its sign.
pub open spec fn signed_num(n: i64) -> Seq<char> {
    if n < 0 {
        "-"@ + crate::text::dec_text((-n) as nat)
    } else {
        crate::text::dec_text(n as nat)
    }
}

pub fn push_signed(s: &mut String, n: i64)
    ensures
        final(s)@ == old(s)@ + signed_num(n),
{
    if n < 0 {
        s.append("-");
        push_dec(s, (-(n as i128)) as u64);
    } else {
        push_dec(s, n as u64);
    }
    assert(s@ =~= old(s)@ + signed_num(n));
}

/// The binary digits of a number.
pub open spec fn bits_text(n: nat) -> Seq<char>
    decreases n,
{
    if n < 2 {
        seq![crate::text::digit_char(n, false)]
    } else {
        bits_text(n / 2).push(crate::text::digit_char(n % 2, false))
    }
}

fn push_bits(s: &mut String, n: u8)
    ensures
        final(s)@ == old(s)@ + bits_text(n as nat),
    decreases n,
{
    if n >= 2 {
        push_bits(s, n / 2);
    }
    push_char(
        s,
        if n % 2 == 0 {
            '0'
        } else {
            '1'
        },
    );
    assert(s@ =~= old(s)@ + bits_text(n as nat));
}

/// A name as text.
pub open spec fn name_text(b: Seq<u8>) -> Seq<char> {
    b.map_values(|x: u8| x as char)
}

pub fn name_string(b: &Vec<u8>) -> (s: String)
    ensures
        s@ == name_text(b@),
{
    let mut s: String = String::new();
    let n: usize = b.len();
    let mut i: usize = 0;
    assert(s@ =~= name_text(b@.take(0)));
    while i < n
        invariant
            i <= n,
            n == b@.len(),
            s@ == name_text(b@.take(i as int)),
        decreases n - i,
    {
        push_char(&mut s, latin1(b[i]));
        i = i + 1;
        assert(s@ =~= name_text(b@.take(i as int)));
    }
    assert(b@.take(n as int) =~= b@);
    s
}

// ---------------------------------------------------------------------------
// The mouse
// ---------------------------------------------------------------------------
pub open spec fn yes(b: bool) -> Seq<char> {
    if b {
        "true"@
    } else {
        "false"@
    }
}

pub open spec fn mouse_lines(m: Mouse) -> Seq<OutV> {
    seq![
        crate::console::colored("ps/2 mouse (irq12, port 2):\n"@, GLM_CYAN),
        crate::console::plain(
            "  online: "@ + yes(m.online) + " | packets: "@ + num(m.packets as int) + " | resyncs: "@ + num(
                m.resync as int,
            ) + " | buttons: 0b"@ + bits_text(m.buttons as nat) + "\n"@,
        ),
    ]
}

pub fn cmd_mouse(m: &Mouse) -> (v: Vec<Out>)
    ensures
        crate::console::outs(v@) == mouse_lines(*m),
{
    let mut v = nothing();
    say_color(&mut v, "ps/2 mouse (irq12, port 2):\n".to_owned(), GLM_CYAN);
    let mut s: String = "  online: ".to_owned();
    if m.online {
        s.append("true");
    } else {
        s.append("false");
    }
    s.append(" | packets: ");
    push_dec(&mut s, m.packets);
    s.append(" | resyncs: ");
    push_dec(&mut s, m.resync);
    s.append(" | buttons: 0b");
    push_bits(&mut s, m.buttons);
    s.append("\n");
    say(&mut v, s);
    assert(crate::console::outs(v@) =~= mouse_lines(*m));
    v
}

// ---------------------------------------------------------------------------
// Memory
// ---------------------------------------------------------------------------
pub open spec fn frames_text(f: Stats) -> Seq<char> {
    "  usable: "@ + num(f.total * 4 / 1024) + " MiB in "@ + num(f.regions as int) + " regions | used: "@ + num(
        f.used as int,
    ) + " frames | free: "@ + num(f.total - f.used) + " frames\n"@
}

pub open spec fn heap_text(h: HeapStats) -> Seq<char> {
    "  size: "@ + num(h.size as int / 1_048_576) + " MiB | allocated: "@ + num(h.allocated as int / 1024)
        + " KiB | allocs: "@ + num(h.allocs as int) + " | frees: "@ + num(h.frees as int) + " | fails: "@ + num(
        h.fails as int,
    ) + "\n"@
}

pub open spec fn mem_lines(f: Stats, heap: Option<HeapStats>) -> Seq<OutV> {
    let a = seq![
        crate::console::colored("physical memory (bitmap frame allocator):\n"@, GLM_CYAN),
        crate::console::plain(frames_text(f)),
    ];
    match heap {
        None => a,
        Some(h) => a.push(crate::console::colored("kernel heap (free-list allocator):\n"@, GLM_CYAN)).push(
            crate::console::plain(heap_text(h)),
        ),
    }
}

pub fn cmd_mem(f: &Stats, heap: &Option<HeapStats>) -> (v: Vec<Out>)
    requires
        f.used <= f.total <= 0x3FFF_FFFF,
    ensures
        crate::console::outs(v@) == mem_lines(*f, *heap),
{
    let mut v = nothing();
    say_color(&mut v, "physical memory (bitmap frame allocator):\n".to_owned(), GLM_CYAN);
    let mut s: String = "  usable: ".to_owned();
    push_dec(&mut s, (f.total * 4 / 1024) as u64);
    s.append(" MiB in ");
    push_dec(&mut s, f.regions as u64);
    s.append(" regions | used: ");
    push_dec(&mut s, f.used as u64);
    s.append(" frames | free: ");
    push_dec(&mut s, (f.total - f.used) as u64);
    s.append(" frames\n");
    assert(s@ =~= frames_text(*f));
    say(&mut v, s);
    match heap {
        None => {},
        Some(h) => {
            say_color(&mut v, "kernel heap (free-list allocator):\n".to_owned(), GLM_CYAN);
            let mut t: String = "  size: ".to_owned();
            push_dec(&mut t, (h.size / 1_048_576) as u64);
            t.append(" MiB | allocated: ");
            push_dec(&mut t, (h.allocated / 1024) as u64);
            t.append(" KiB | allocs: ");
            push_dec(&mut t, h.allocs as u64);
            t.append(" | frees: ");
            push_dec(&mut t, h.frees as u64);
            t.append(" | fails: ");
            push_dec(&mut t, h.fails as u64);
            t.append("\n");
            assert(t@ =~= heap_text(*h));
            say(&mut v, t);
        },
    }
    assert(crate::console::outs(v@) =~= mem_lines(*f, *heap));
    v
}

pub open spec fn hexp(n: int) -> Seq<char> {
    crate::text::hexp_text(n as nat)
}

pub open spec fn paging_lines(m: MemV, offset: u64, cr3: u64) -> Seq<OutV> {
    let pml4 = crate::mem::vmm::frame_of(cr3);
    seq![
        crate::console::colored("paging (bootloader page tables active):\n"@, GLM_CYAN),
        crate::console::plain(
            "  cr3 (pml4 phys) = "@ + hexp(pml4 + offset) + " | hhdm offset = "@ + hexp(offset as int)
                + " | entries mapped: "@ + num(crate::mem::paging::present_in(m, pml4, 512) as int) + "/512\n"@,
        ),
        crate::console::plain("      pml4 entry  address            flags\n"@),
    ] + crate::mem::paging::entry_lines(m, pml4, 0, 6)
}

pub fn cmd_paging(d: &DirectMap, m: &Memory, cr3: u64) -> (v: Vec<Out>)
    requires
        m.wf(),
        crate::mem::vmm::frame_of(cr3) + d.offset <= u64::MAX,
    ensures
        crate::console::outs(v@) == paging_lines(m@, d.offset, cr3),
{
    let (at, mapped) = describe(d, m, cr3);
    let mut v = nothing();
    say_color(&mut v, "paging (bootloader page tables active):\n".to_owned(), GLM_CYAN);
    let mut s: String = "  cr3 (pml4 phys) = ".to_owned();
    push_hexp(&mut s, at);
    s.append(" | hhdm offset = ");
    push_hexp(&mut s, d.offset);
    s.append(" | entries mapped: ");
    push_dec(&mut s, mapped as u64);
    s.append("/512\n");
    say(&mut v, s);
    let mut w = dump(m, cr3, 6);
    let ghost a = v@;
    let ghost b = w@;
    v.append(&mut w);
    assert(crate::console::outs(v@) =~= crate::console::outs(a) + crate::console::outs(b));
    assert(crate::console::outs(v@) =~= paging_lines(m@, d.offset, cr3));
    v
}

pub open spec fn vmm_head_lines(m: MemV, offset: u64) -> Seq<OutV> {
    seq![
        crate::console::colored("vmm: own page-table manager\n"@, GLM_CYAN),
        crate::console::plain(
            "  kernel cr3 = "@ + hexp(m.kernel as int) + " | hhdm offset = "@ + hexp(offset as int) + "\n"@,
        ),
        crate::console::plain(
            "  user image base = "@ + hexp(USER_IMG_BASE as int) + " | user stack top = "@ + hexp(USER_STACK_TOP as int)
                + "\n"@,
        ),
        crate::console::plain(
            "  cow: "@ + num(m.forks as int) + " fork(s), last marked "@ + num(m.marked as int) + " pages, "@ + num(
                m.faults as int,
            ) + " write faults resolved\n"@,
        ),
        crate::console::plain(
            "  frames shared >1 space right now: "@ + num(
                crate::mem::frames::shared_in(m.frames.refs, crate::mem::frames::MAX_FRAMES as int) as int,
            ) + "\n"@,
        ),
        crate::console::plain("  self-test:\n"@),
    ]
}

/// What is printed before the test of the page tables.
pub fn cmd_vmm(m: &Memory, d: &DirectMap) -> (v: Vec<Out>)
    requires
        m.wf(),
    ensures
        crate::console::outs(v@) == vmm_head_lines(m@, d.offset),
{
    let mut v = nothing();
    say_color(&mut v, "vmm: own page-table manager\n".to_owned(), GLM_CYAN);
    let mut a: String = "  kernel cr3 = ".to_owned();
    push_hexp(&mut a, crate::mem::vmm::kernel_cr3(m));
    a.append(" | hhdm offset = ");
    push_hexp(&mut a, d.offset);
    a.append("\n");
    say(&mut v, a);
    let mut b: String = "  user image base = ".to_owned();
    push_hexp(&mut b, USER_IMG_BASE);
    b.append(" | user stack top = ");
    push_hexp(&mut b, USER_STACK_TOP);
    b.append("\n");
    say(&mut v, b);
    let (forks, marked, faults) = cow_stats(m);
    let mut c: String = "  cow: ".to_owned();
    push_dec(&mut c, forks);
    c.append(" fork(s), last marked ");
    push_dec(&mut c, marked);
    c.append(" pages, ");
    push_dec(&mut c, faults);
    c.append(" write faults resolved\n");
    say(&mut v, c);
    let mut e: String = "  frames shared >1 space right now: ".to_owned();
    push_dec(&mut e, crate::mem::frames::shared_count(&m.frames) as u64);
    e.append("\n");
    say(&mut v, e);
    say(&mut v, "  self-test:\n".to_owned());
    assert(crate::console::outs(v@) =~= vmm_head_lines(m@, d.offset));
    v
}

/// What is printed after the test of the page tables.
pub fn say_vmm_result(ok: bool) -> (v: Vec<Out>)
    ensures
        crate::console::outs(v@) == seq![
            if ok {
                crate::console::colored("  result: PASS\n"@, GLM_GREEN)
            } else {
                crate::console::colored("  result: FAIL\n"@, GLM_RED)
            },
        ],
{
    let mut v = nothing();
    if ok {
        say_color(&mut v, "  result: PASS\n".to_owned(), GLM_GREEN);
    } else {
        say_color(&mut v, "  result: FAIL\n".to_owned(), GLM_RED);
    }
    assert(crate::console::outs(v@) =~= seq![
        if ok {
            crate::console::colored("  result: PASS\n"@, GLM_GREEN)
        } else {
            crate::console::colored("  result: FAIL\n"@, GLM_RED)
        },
    ]);
    v
}

// ---------------------------------------------------------------------------
// Tasks
// ---------------------------------------------------------------------------
pub open spec fn state_color(s: State) -> u8 {
    match s {
        State::Running => GLM_GREEN,
        State::Ready => GLM_CYAN,
        State::WaitingChild => GLM_MAGENTA,
        State::Zombie => GLM_RED,
        State::Dead => GLM_GRAY,
        _ => GLM_YELLOW,
    }
}

fn color_of(s: State) -> (c: u8)
    ensures
        c == state_color(s),
{
    match s {
        State::Running => GLM_GREEN,
        State::Ready => GLM_CYAN,
        State::WaitingChild => GLM_MAGENTA,
        State::Zombie => GLM_RED,
        State::Dead => GLM_GRAY,
        _ => GLM_YELLOW,
    }
}

pub open spec fn right(s: Seq<char>, w: nat) -> Seq<char> {
    crate::text::right_in(s, w)
}

pub open spec fn left(s: Seq<char>, w: nat) -> Seq<char> {
    crate::text::left_in(s, w)
}

pub open spec fn task_front(t: TaskV) -> Seq<char> {
    "  "@ + right(num(t.pid as int), 4) + "  "@ + left(name_text(t.name), 12) + " "@
}

pub open spec fn task_back(t: TaskV) -> Seq<char> {
    right(
        if t.state == State::Running && t.on_cpu != 0xFF {
            num(t.on_cpu as int)
        } else {
            "-"@
        },
        4,
    ) + "  "@ + right(num(t.parent as int), 5) + "  "@ + right(num(t.tgid as int), 5) + "  "@ + hexp(t.pml4 as int) + if t.state
        == State::Zombie {
        "  (exit "@ + signed_num(t.exit_code) + ")"@
    } else {
        Seq::empty()
    }
}

pub open spec fn task_row(t: TaskV) -> Seq<OutV> {
    seq![
        crate::console::plain(task_front(t)),
        crate::console::colored(crate::sched::state_text(t.state), state_color(t.state)),
        crate::console::plain(task_back(t)),
        crate::console::plain("\n"@),
    ]
}

pub open spec fn task_rows(k: SchedV, slots: Seq<usize>, n: int) -> Seq<OutV>
    decreases n,
{
    if n <= 0 {
        Seq::empty()
    } else {
        task_rows(k, slots, n - 1) + task_row(k.tasks[slots[n - 1] as int])
    }
}

pub open spec fn ps_lines(k: SchedV) -> Seq<OutV> {
    let slots = crate::sched::live_slots(k.tasks, MAX_TASKS as int);
    seq![
        crate::console::colored("task table (round-robin, per-cpu LAPIC timer preemption):\n"@, GLM_CYAN),
        crate::console::plain("  switches so far: "@ + num(k.switches as int) + "\n"@),
        crate::console::plain("   PID  NAME         STATE     CPU   PPID  TGID PML4\n"@),
    ] + task_rows(k, slots, slots.len() as int)
}

fn say_task(v: &mut Vec<Out>, s: &Sched, i: usize)
    requires
        s.wf(),
        i < MAX_TASKS,
    ensures
        crate::console::outs(final(v)@) == crate::console::outs(old(v)@) + task_row(s@.tasks[i as int]),
{
    assert(s@.tasks[i as int] == s.tasks@[i as int]@);
    let ghost t = s@.tasks[i as int];
    let mut a: String = "  ".to_owned();
    push_dec_right(&mut a, s.tasks[i].pid, 4);
    a.append("  ");
    push_left(&mut a, name_string(&s.tasks[i].name).as_str(), 12);
    a.append(" ");
    assert(a@ =~= task_front(t));
    say(v, a);
    say_color(v, s.tasks[i].state.as_str().to_owned(), color_of(s.tasks[i].state));
    let mut b: String = String::new();
    if s.tasks[i].state == State::Running && s.tasks[i].on_cpu != 0xFF {
        push_dec_right(&mut b, s.tasks[i].on_cpu as u64, 4);
    } else {
        push_right(&mut b, "-", 4);
    }
    b.append("  ");
    push_dec_right(&mut b, s.tasks[i].parent, 5);
    b.append("  ");
    push_dec_right(&mut b, s.tasks[i].tgid, 5);
    b.append("  ");
    push_hexp(&mut b, s.tasks[i].pml4);
    if s.tasks[i].state == State::Zombie {
        b.append("  (exit ");
        push_signed(&mut b, s.tasks[i].exit_code);
        b.append(")");
    }
    assert(b@ =~= task_back(t));
    say(v, b);
    say(v, "\n".to_owned());
    assert(crate::console::outs(v@) =~= crate::console::outs(old(v)@) + task_row(t));
}

/// The task table.
pub fn cmd_ps(s: &Sched) -> (v: Vec<Out>)
    requires
        s.wf(),
    ensures
        crate::console::outs(v@) == ps_lines(s@),
{
    let mut v = nothing();
    say_color(&mut v, "task table (round-robin, per-cpu LAPIC timer preemption):\n".to_owned(), GLM_CYAN);
    let mut a: String = "  switches so far: ".to_owned();
    push_dec(&mut a, crate::sched::switches(s));
    a.append("\n");
    say(&mut v, a);
    say(&mut v, "   PID  NAME         STATE     CPU   PPID  TGID PML4\n".to_owned());
    let ghost head = crate::console::outs(v@);
    let slots: Vec<usize> = for_each_task(s);
    let mut i: usize = 0;
    assert(crate::console::outs(v@) =~= head + task_rows(s@, slots@, 0));
    while i < slots.len()
        invariant
            i <= slots@.len(),
            s.wf(),
            slots@ == crate::sched::live_slots(s@.tasks, MAX_TASKS as int),
            crate::console::outs(v@) == head + task_rows(s@, slots@, i as int),
        decreases slots@.len() - i,
    {
        proof {
            lemma_live_slots(s@.tasks, MAX_TASKS as int, i as int);
        }
        say_task(&mut v, s, slots[i]);
        i = i + 1;
        assert(crate::console::outs(v@) =~= head + task_rows(s@, slots@, i as int));
    }
    assert(crate::console::outs(v@) =~= ps_lines(s@));
    v
}

proof fn lemma_live_slots(tasks: Seq<TaskV>, n: int, i: int)
    requires
        0 <= i < crate::sched::live_slots(tasks, n).len(),
        n <= MAX_TASKS,
    ensures
        crate::sched::live_slots(tasks, n)[i] < n,
    decreases n,
{
    if n > 0 {
        if i < crate::sched::live_slots(tasks, n - 1).len() {
            lemma_live_slots(tasks, n - 1, i);
        }
    }
}

// ---------------------------------------------------------------------------
// Killing
// ---------------------------------------------------------------------------
/// The signal and the rest of the arguments of `kill`.
pub open spec fn kill_args(rest: Seq<char>) -> (u64, Seq<char>) {
    if rest.len() >= 3 && rest.take(3) == "-9 "@ {
        (SIGKILL, rest.skip(3))
    } else if rest.len() >= 3 && rest.take(3) == "-u "@ {
        (SIGUSR1, rest.skip(3))
    } else {
        (SIGTERM, rest)
    }
}

/// The task that `kill` names.
pub open spec fn kill_pid(rest: Seq<char>) -> Option<nat> {
    crate::text::uint_of(crate::words::trimmed(kill_args(rest).1), u64::MAX as nat)
}

/// A zombie is reclaimed, a kernel task is killed, and a user task gets the
/// signal.
pub open spec fn kill_done(k: SchedV, m: MemV, cpus: Seq<crate::cpu::smp::Cpu>, cpu: int, pid: u64, sig: u64) -> (
    SchedV,
    MemV,
    Result<Seq<char>, Seq<char>>,
) {
    match crate::seqs::first(k.tasks, crate::sched::has_pid(pid)) {
        None => (k, m, Err("no such task"@)),
        Some(i) => if k.tasks[i].state != State::Zombie && k.tasks[i].is_user {
            let (k1, x) = crate::sched::switch::send_signal_spec(k, cpus, cpu, pid, sig);
            (k1, m, x)
        } else {
            crate::sched::process::kill_spec(k, m, cpus, cpu, pid)
        },
    }
}

pub open spec fn kill_lines(pid: u64, x: Result<Seq<char>, Seq<char>>) -> Seq<OutV> {
    match x {
        Ok(t) => seq![
            crate::console::colored("  [ "@, GLM_GRAY),
            crate::console::colored("kill "@, GLM_CYAN),
            crate::console::colored(" ] "@, GLM_GRAY),
            crate::console::plain("pid "@ + num(pid as int) + ": "@ + t + "\n"@),
        ],
        Err(t) => seq![
            crate::console::colored("kill: "@, GLM_YELLOW),
            crate::console::plain("pid "@ + num(pid as int) + ": "@ + t + "\n"@),
        ],
    }
}

pub open spec fn kill_spec(k: SchedV, m: MemV, cpus: Seq<crate::cpu::smp::Cpu>, cpu: int, rest: Seq<char>) -> (
    SchedV,
    MemV,
    Seq<OutV>,
) {
    match kill_pid(rest) {
        None => (
            k,
            m,
            seq![crate::console::colored("usage: kill [-9|-u] <pid>  (see 'ps')\n"@, GLM_YELLOW)],
        ),
        Some(p) => {
            let pid = p as u64;
            if pid == crate::sched::current_pid_spec(k, cpus, cpu) {
                (
                    k,
                    m,
                    seq![crate::console::colored("kill: refusing to signal the shell itself\n"@, GLM_YELLOW)],
                )
            } else {
                let (k1, m1, x) = kill_done(k, m, cpus, cpu, pid, kill_args(rest).0);
                (k1, m1, kill_lines(pid, x))
            }
        },
    }
}

fn starts_with(c: &Vec<char>, flag: &str) -> (r: bool)
    requires
        flag@.len() == 3,
    ensures
        r == (c@.len() >= 3 && c@.take(3) == flag@),
{
    if c.len() < 3 {
        return false;
    }
    let f: Vec<char> = chars_of(flag);
    let r: bool = c[0] == f[0] && c[1] == f[1] && c[2] == f[2];
    assert(r ==> c@.take(3) =~= flag@);
    assert(!r ==> c@.take(3) != flag@) by {
        if c@.take(3) == flag@ {
            assert(c@.take(3)[0] == f@[0] && c@.take(3)[1] == f@[1] && c@.take(3)[2] == f@[2]);
        }
    }
    r
}

fn parse_kill(rest: &str) -> (r: (u64, Option<u64>))
    ensures
        r.0 == kill_args(rest@).0,
        match (r.1, kill_pid(rest@)) {
            (Some(a), Some(b)) => a == b,
            (None, None) => true,
            _ => false,
        },
{
    proof {
        reveal_strlit("-9 ");
        reveal_strlit("-u ");
    }
    let c: Vec<char> = chars_of(rest);
    let (sig, from): (u64, usize) = if starts_with(&c, "-9 ") {
        (SIGKILL, 3)
    } else if starts_with(&c, "-u ") {
        (SIGUSR1, 3)
    } else {
        (SIGTERM, 0)
    };
    let tail: &[char] = vstd::slice::slice_subrange(c.as_slice(), from, c.len());
    assert(tail@ =~= kill_args(rest@).1);
    let t: Vec<char> = trim(tail);
    (sig, parse_uint(t.as_slice(), u64::MAX))
}

fn say_killed(pid: u64, r: &Result<&'static str, &'static str>, x: Ghost<Result<Seq<char>, Seq<char>>>) -> (v: Vec<Out>)
    requires
        crate::sched::process::in_words(*r, x@),
    ensures
        crate::console::outs(v@) == kill_lines(pid, x@),
{
    let mut v = nothing();
    let mut s: String = "pid ".to_owned();
    push_dec(&mut s, pid);
    s.append(": ");
    match r {
        Ok(t) => {
            say_color(&mut v, "  [ ".to_owned(), GLM_GRAY);
            say_color(&mut v, "kill ".to_owned(), GLM_CYAN);
            say_color(&mut v, " ] ".to_owned(), GLM_GRAY);
            s.append(t);
        },
        Err(t) => {
            say_color(&mut v, "kill: ".to_owned(), GLM_YELLOW);
            s.append(t);
        },
    }
    s.append("\n");
    say(&mut v, s);
    assert(crate::console::outs(v@) =~= kill_lines(pid, x@));
    v
}

/// Signals or kills a task.
pub fn cmd_kill(s: &mut Sched, m: &mut Memory, p: &Smp, cpu: usize, rest: &str) -> (v: Vec<Out>)
    requires
        old(s).wf(),
        old(m).wf(),
        p.wf(),
        cpu < MAX_CPUS,
    ensures
        final(s).wf(),
        final(m).wf(),
        (final(s)@, final(m)@, crate::console::outs(v@)) == kill_spec(old(s)@, old(m)@, p.cpus@, cpu as int, rest@),
{
    let (sig, arg) = parse_kill(rest);
    let pid: u64 = match arg {
        None => {
            let mut v = nothing();
            say_color(&mut v, "usage: kill [-9|-u] <pid>  (see 'ps')\n".to_owned(), GLM_YELLOW);
            assert(crate::console::outs(v@) =~= kill_spec(old(s)@, old(m)@, p.cpus@, cpu as int, rest@).2);
            return v;
        },
        Some(n) => n,
    };
    if pid == current_pid(s, p, cpu) {
        let mut v = nothing();
        say_color(&mut v, "kill: refusing to signal the shell itself\n".to_owned(), GLM_YELLOW);
        assert(crate::console::outs(v@) =~= kill_spec(old(s)@, old(m)@, p.cpus@, cpu as int, rest@).2);
        return v;
    }
    let ghost x = kill_done(old(s)@, old(m)@, p.cpus@, cpu as int, pid, sig).2;
    let r: Result<&'static str, &'static str> = match task_state(s, pid) {
        None => Err("no such task"),
        Some((st, user)) => if st != State::Zombie && user {
            send_signal(s, p, cpu, pid, sig)
        } else {
            kill(s, m, p, cpu, pid)
        },
    };
    say_killed(pid, &r, Ghost(x))
}

} // verus!
