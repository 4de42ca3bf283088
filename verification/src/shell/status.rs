//! What the shell tells of processors, channels and time.

use vstd::prelude::*;
use vstd::string::StringExecFns;

use crate::console::{nothing, say, say_color, Out, OutV, GLM_CYAN, GLM_GRAY, GLM_GREEN, GLM_YELLOW};
use crate::cpu::gdt::MAX_CPUS;
use crate::cpu::smp::Smp;
use crate::ipc::{for_each, ChanTable};
use crate::mem::frames::Stats;
use crate::sched::{task_brief, Sched, SchedV, State, MAX_TASKS};
use crate::shell::system::name_string;
use crate::text::{chars_of, parse_uint, push_dec, push_dec_right, push_left};
use crate::words::trim;

verus! {

// ---------------------------------------------------------------------------
// Processors
// ---------------------------------------------------------------------------
/// What `cpu` was asked for.
#[derive(Clone, Copy, PartialEq, Eq, Structural, Debug)]
pub enum CpuAsk {
    Table,
    Usage,
    /// The number of the processor is missing.
    IpiUsage,
    Ipi(usize),
}

pub open spec fn cpu_ask(rest: Seq<char>) -> CpuAsk {
    if rest == "ipi"@ || (rest.len() >= 4 && rest.take(4) == "ipi "@) {
        match crate::text::uint_of(crate::words::trimmed(rest.skip(3)), usize::MAX as nat) {
            Some(n) => CpuAsk::Ipi(n as usize),
            None => CpuAsk::IpiUsage,
        }
    } else if rest.len() > 0 {
        CpuAsk::Usage
    } else {
        CpuAsk::Table
    }
}

/// Reads the arguments of `cpu`.
pub fn parse_cpu(rest: &str) -> (r: CpuAsk)
    ensures
        r == cpu_ask(rest@),
{
    proof {
        reveal_strlit("ipi");
        reveal_strlit("ipi ");
    }
    let c: Vec<char> = chars_of(rest);
    let n: usize = c.len();
    let ipi: bool = n >= 3 && c[0] == 'i' && c[1] == 'p' && c[2] == 'i' && (n == 3 || c[3] == ' ');
    assert(ipi == (rest@ == "ipi"@ || (rest@.len() >= 4 && rest@.take(4) == "ipi "@))) by {
        if ipi && n == 3 {
            assert(rest@ =~= "ipi"@);
        }
        if ipi && n > 3 {
            assert(rest@.take(4) =~= "ipi "@);
        }
        if rest@.len() >= 4 && rest@.take(4) == "ipi "@ {
            assert(rest@.take(4)[0] == 'i' && rest@.take(4)[1] == 'p' && rest@.take(4)[2] == 'i' && rest@.take(4)[3]
                == ' ');
        }
    }
    if ipi {
        let tail: &[char] = vstd::slice::slice_subrange(c.as_slice(), 3, n);
        assert(tail@ =~= rest@.skip(3));
        let t: Vec<char> = trim(tail);
        match parse_uint(t.as_slice(), usize::MAX as u64) {
            Some(v) => CpuAsk::Ipi(v as usize),
            None => CpuAsk::IpiUsage,
        }
    } else if n > 0 {
        CpuAsk::Usage
    } else {
        CpuAsk::Table
    }
}

/// How an interrupt to another processor went.
#[derive(Clone, Copy, PartialEq, Eq, Structural, Debug)]
pub enum Answer {
    /// It was taken; so many were in all.
    Taken(u64),
    Silence,
}

pub open spec fn ipi_lines(n: usize, a: Answer) -> Seq<OutV> {
    match a {
        Answer::Taken(total) => seq![
            crate::console::colored("  [ "@, GLM_GRAY),
            crate::console::colored(" ok "@, GLM_GREEN),
            crate::console::colored(" ] "@, GLM_GRAY),
            crate::console::plain(
                "ipi delivered to cpu"@ + crate::text::dec_text(n as nat) + " ("@ + crate::text::dec_text(total as nat)
                    + " received total)\n"@,
            ),
        ],
        Answer::Silence => seq![
            crate::console::colored("cpu ipi: no answer from cpu{}\n"@, GLM_YELLOW),
            crate::console::plain("\n"@),
        ],
    }
}

/// What is printed after an interrupt to another processor.
pub fn say_ipi(n: usize, a: Answer) -> (v: Vec<Out>)
    ensures
        crate::console::outs(v@) == ipi_lines(n, a),
{
    let mut v = nothing();
    match a {
        Answer::Taken(total) => {
            say_color(&mut v, "  [ ".to_owned(), GLM_GRAY);
            say_color(&mut v, " ok ".to_owned(), GLM_GREEN);
            say_color(&mut v, " ] ".to_owned(), GLM_GRAY);
            let mut s: String = "ipi delivered to cpu".to_owned();
            push_dec(&mut s, n as u64);
            s.append(" (");
            push_dec(&mut s, total);
            s.append(" received total)\n");
            say(&mut v, s);
        },
        Answer::Silence => {
            say_color(&mut v, "cpu ipi: no answer from cpu{}\n".to_owned(), GLM_YELLOW);
            say(&mut v, "\n".to_owned());
        },
    }
    assert(crate::console::outs(v@) =~= ipi_lines(n, a));
    v
}

/// How long the answer to an interrupt is waited for, in ticks.
pub const IPI_TICKS: u64 = 20;

/// Whether to wait on for the answer to an interrupt.
pub fn ipi_waits(before: u64, seen: u64, t0: u64, now: u64) -> (r: bool)
    ensures
        r == (seen == before && crate::pixels::max(now - t0, 0) < IPI_TICKS),
{
    seen == before && (now < t0 || now - t0 < IPI_TICKS)
}

/// The answer, once there is one or the time is over.
pub fn ipi_answer(before: u64, seen: u64) -> (a: Answer)
    ensures
        a == if seen > before {
            Answer::Taken(seen)
        } else {
            Answer::Silence
        },
{
    if seen > before {
        Answer::Taken(seen)
    } else {
        Answer::Silence
    }
}

/// An interrupt that cannot be sent.
pub fn say_ipi_failed(why: &str) -> (v: Vec<Out>)
    ensures
        crate::console::outs(v@) == seq![
            crate::console::colored("cpu ipi: "@, GLM_YELLOW),
            crate::console::plain(why@),
            crate::console::plain("\n"@),
        ],
{
    let mut v = nothing();
    say_color(&mut v, "cpu ipi: ".to_owned(), GLM_YELLOW);
    say(&mut v, why.to_owned());
    say(&mut v, "\n".to_owned());
    assert(crate::console::outs(v@) =~= seq![
        crate::console::colored("cpu ipi: "@, GLM_YELLOW),
        crate::console::plain(why@),
        crate::console::plain("\n"@),
    ]);
    v
}

/// How `cpu` is used.
pub fn say_cpu_usage(ipi: bool) -> (v: Vec<Out>)
    ensures
        crate::console::outs(v@) == seq![
            if ipi {
                crate::console::colored("usage: cpu ipi <cpu index>\n"@, GLM_YELLOW)
            } else {
                crate::console::colored("usage: cpu  |  cpu ipi <n>\n"@, GLM_YELLOW)
            },
        ],
{
    let mut v = nothing();
    if ipi {
        say_color(&mut v, "usage: cpu ipi <cpu index>\n".to_owned(), GLM_YELLOW);
    } else {
        say_color(&mut v, "usage: cpu  |  cpu ipi <n>\n".to_owned(), GLM_YELLOW);
    }
    assert(crate::console::outs(v@) =~= seq![
        if ipi {
            crate::console::colored("usage: cpu ipi <cpu index>\n"@, GLM_YELLOW)
        } else {
            crate::console::colored("usage: cpu  |  cpu ipi <n>\n"@, GLM_YELLOW)
        },
    ]);
    v
}

/// The task that a processor runs, as its number and its name.
pub open spec fn running_text(k: SchedV, p: Smp, i: int) -> Seq<char> {
    let slot = p.cpus@[i].current as int;
    if p.up@[i] && k.tasks[slot].state != State::Dead {
        crate::text::dec_text(k.tasks[slot].pid as nat) + ":"@ + crate::shell::system::name_text(k.tasks[slot].name)
    } else {
        "-"@
    }
}

pub open spec fn cpu_row(k: SchedV, p: Smp, i: int) -> Seq<OutV> {
    seq![
        crate::console::plain("  "@ + crate::text::right_in(crate::text::dec_text(i as nat), 3) + " "@),
        crate::console::plain(
            crate::text::left_in(crate::text::dec_text(p.cpus@[i].lapic_id as nat), 8) + " "@,
        ),
        if p.up@[i] {
            crate::console::colored("online"@, GLM_GREEN)
        } else {
            crate::console::colored("offline"@, GLM_GRAY)
        },
        crate::console::plain(
            " "@ + crate::text::left_in(running_text(k, p, i), 12) + " "@ + crate::text::right_in(
                crate::text::dec_text(p.cpus@[i].switches as nat),
                9,
            ) + " "@ + crate::text::right_in(crate::text::dec_text(p.cpus@[i].ipis as nat), 5) + "\n"@,
        ),
    ]
}

pub open spec fn cpu_rows(k: SchedV, p: Smp, n: int) -> Seq<OutV>
    decreases n,
{
    if n <= 0 {
        Seq::empty()
    } else {
        cpu_rows(k, p, n - 1) + cpu_row(k, p, n - 1)
    }
}

pub open spec fn cpu_lines(k: SchedV, p: Smp) -> Seq<OutV> {
    seq![
        crate::console::colored("cpus (limine mp bringup, per-cpu lapic timer @ 250 Hz):\n"@, GLM_CYAN),
        crate::console::plain("  CPU LAPIC    STATE    CURRENT       SWITCHES  IPIs\n"@),
    ] + cpu_rows(k, p, crate::pixels::min(p.count as int, MAX_CPUS as int))
}

/// Every processor that is up runs a task of the table.
pub open spec fn slots_ok(p: Smp) -> bool {
    forall|i: int| 0 <= i < MAX_CPUS && p.up@[i] ==> (#[trigger] p.cpus@[i]).current < MAX_TASKS
}

fn running_string(s: &Sched, p: &Smp, i: usize) -> (r: String)
    requires
        s.wf(),
        p.wf(),
        i < MAX_CPUS,
        slots_ok(*p),
    ensures
        r@ == running_text(s@, *p, i as int),
{
    if p.up[i] {
        assert(p.cpus@[i as int].current < MAX_TASKS);
        match task_brief(s, p.cpus[i].current) {
            Some((pid, name)) => {
                let mut r: String = String::new();
                push_dec(&mut r, pid);
                r.append(":");
                r.append(name_string(&name).as_str());
                assert(r@ =~= running_text(s@, *p, i as int));
                r
            },
            None => "-".to_owned(),
        }
    } else {
        "-".to_owned()
    }
}

fn say_cpu(v: &mut Vec<Out>, s: &Sched, p: &Smp, i: usize)
    requires
        s.wf(),
        p.wf(),
        i < MAX_CPUS,
        slots_ok(*p),
    ensures
        crate::console::outs(final(v)@) == crate::console::outs(old(v)@) + cpu_row(s@, *p, i as int),
{
    let mut a: String = "  ".to_owned();
    push_dec_right(&mut a, i as u64, 3);
    a.append(" ");
    say(v, a);
    let mut id: String = String::new();
    push_dec(&mut id, p.cpus[i].lapic_id as u64);
    assert(id@ =~= crate::text::dec_text(p.cpus@[i as int].lapic_id as nat));
    let mut b: String = String::new();
    push_left(&mut b, id.as_str(), 8);
    b.append(" ");
    assert(b@ =~= crate::text::left_in(id@, 8) + " "@);
    say(v, b);
    if p.up[i] {
        say_color(v, "online".to_owned(), GLM_GREEN);
    } else {
        say_color(v, "offline".to_owned(), GLM_GRAY);
    }
    let mut c: String = " ".to_owned();
    push_left(&mut c, running_string(s, p, i).as_str(), 12);
    c.append(" ");
    push_dec_right(&mut c, p.cpus[i].switches, 9);
    c.append(" ");
    push_dec_right(&mut c, p.cpus[i].ipis, 5);
    c.append("\n");
    say(v, c);
    assert(crate::console::outs(v@) =~= crate::console::outs(old(v)@) + cpu_row(s@, *p, i as int));
}

/// The table of processors.
pub fn cmd_cpu(s: &Sched, p: &Smp) -> (v: Vec<Out>)
    requires
        s.wf(),
        p.wf(),
        slots_ok(*p),
    ensures
        crate::console::outs(v@) == cpu_lines(s@, *p),
{
    let mut v = nothing();
    say_color(&mut v, "cpus (limine mp bringup, per-cpu lapic timer @ 250 Hz):\n".to_owned(), GLM_CYAN);
    say(&mut v, "  CPU LAPIC    STATE    CURRENT       SWITCHES  IPIs\n".to_owned());
    let ghost head = crate::console::outs(v@);
    let n: usize = if p.count < MAX_CPUS {
        p.count
    } else {
        MAX_CPUS
    };
    let mut i: usize = 0;
    assert(crate::console::outs(v@) =~= head + cpu_rows(s@, *p, 0));
    while i < n
        invariant
            i <= n <= MAX_CPUS,
            s.wf(),
            p.wf(),
            slots_ok(*p),
            crate::console::outs(v@) == head + cpu_rows(s@, *p, i as int),
        decreases n - i,
    {
        say_cpu(&mut v, s, p, i);
        i = i + 1;
        assert(crate::console::outs(v@) =~= head + cpu_rows(s@, *p, i as int));
    }
    assert(crate::console::outs(v@) =~= cpu_lines(s@, *p));
    v
}

// ---------------------------------------------------------------------------
// Channels
// ---------------------------------------------------------------------------
pub type ChanRow = (usize, u64, usize, u64, u64, bool, bool);

pub open spec fn waits(b: bool) -> OutV {
    if b {
        crate::console::colored("yes"@, GLM_YELLOW)
    } else {
        crate::console::plain("-"@)
    }
}

pub open spec fn chan_line(r: ChanRow) -> Seq<OutV> {
    let n = |x: int, w: nat| crate::text::right_in(crate::text::dec_text(x as nat), w);
    seq![
        crate::console::plain(
            "  "@ + n(r.0 as int, 3) + " "@ + n(r.1 as int, 5) + " "@ + n(r.2 as int, 7) + " "@ + n(r.3 as int, 7) + " "@
                + n(r.4 as int, 7) + " "@,
        ),
        waits(r.5),
        crate::console::plain("      "@),
        waits(r.6),
        crate::console::plain("\n"@),
    ]
}

pub open spec fn chan_lines(rows: Seq<ChanRow>, n: int) -> Seq<OutV>
    decreases n,
{
    if n <= 0 {
        Seq::empty()
    } else {
        chan_lines(rows, n - 1) + chan_line(rows[n - 1])
    }
}

pub open spec fn ipc_lines(rows: Seq<ChanRow>) -> Seq<OutV> {
    let head = seq![
        crate::console::colored("ipc channels (named byte rings; open/send/recv via int 0x80):\n"@, GLM_CYAN),
        crate::console::plain("   ID   KEY   BYTES    SENT     GOT S-WAIT   R-WAIT  \n"@),
    ];
    if rows.len() == 0 {
        head.push(crate::console::colored("  (no channels open - run PING.ELF / PONG.ELF)\n"@, GLM_GRAY))
    } else {
        head + chan_lines(rows, rows.len() as int)
    }
}

fn say_wait(v: &mut Vec<Out>, b: bool)
    ensures
        crate::console::outs(final(v)@) == crate::console::outs(old(v)@).push(waits(b)),
{
    if b {
        say_color(v, "yes".to_owned(), GLM_YELLOW);
    } else {
        say(v, "-".to_owned());
    }
}

fn say_chan(v: &mut Vec<Out>, r: &ChanRow)
    ensures
        crate::console::outs(final(v)@) == crate::console::outs(old(v)@) + chan_line(*r),
{
    let mut s: String = "  ".to_owned();
    push_dec_right(&mut s, r.0 as u64, 3);
    s.append(" ");
    push_dec_right(&mut s, r.1, 5);
    s.append(" ");
    push_dec_right(&mut s, r.2 as u64, 7);
    s.append(" ");
    push_dec_right(&mut s, r.3, 7);
    s.append(" ");
    push_dec_right(&mut s, r.4, 7);
    s.append(" ");
    say(v, s);
    say_wait(v, r.5);
    say(v, "      ".to_owned());
    say_wait(v, r.6);
    say(v, "\n".to_owned());
    assert(crate::console::outs(v@) =~= crate::console::outs(old(v)@) + chan_line(*r));
}

/// The table of channels.
pub fn cmd_ipc(t: &ChanTable) -> (v: Vec<Out>)
    requires
        t.wf(),
    ensures
        crate::console::outs(v@) == ipc_lines(
            crate::seqs::collect_some(t@, crate::ipc::chan_row(), crate::ipc::NCHANS as int),
        ),
{
    let mut v = nothing();
    say_color(&mut v, "ipc channels (named byte rings; open/send/recv via int 0x80):\n".to_owned(), GLM_CYAN);
    say(&mut v, "   ID   KEY   BYTES    SENT     GOT S-WAIT   R-WAIT  \n".to_owned());
    let rows = for_each(t);
    let ghost head = crate::console::outs(v@);
    if rows.len() == 0 {
        say_color(&mut v, "  (no channels open - run PING.ELF / PONG.ELF)\n".to_owned(), GLM_GRAY);
    } else {
        let mut i: usize = 0;
        assert(crate::console::outs(v@) =~= head + chan_lines(rows@, 0));
        while i < rows.len()
            invariant
                i <= rows@.len(),
                crate::console::outs(v@) == head + chan_lines(rows@, i as int),
            decreases rows@.len() - i,
        {
            say_chan(&mut v, &rows[i]);
            i = i + 1;
            assert(crate::console::outs(v@) =~= head + chan_lines(rows@, i as int));
        }
    }
    assert(crate::console::outs(v@) =~= ipc_lines(rows@));
    v
}

// ---------------------------------------------------------------------------
// Sleep
// ---------------------------------------------------------------------------
pub open spec fn sleep_lines(rest: Seq<char>) -> Seq<OutV> {
    match crate::text::uint_of(rest, u64::MAX as nat) {
        None => seq![crate::console::colored("usage: sleep <milliseconds>\n"@, GLM_YELLOW)],
        Some(ms) => seq![crate::console::plain("sleeping "@ + crate::text::dec_text(ms) + " ms...\n"@)],
    }
}

/// How long to sleep, if that can be read, and what is printed before.
pub fn cmd_sleep(rest: &str) -> (r: (Option<u64>, Vec<Out>))
    ensures
        match (r.0, crate::text::uint_of(rest@, u64::MAX as nat)) {
            (Some(a), Some(b)) => a == b,
            (None, None) => true,
            _ => false,
        },
        crate::console::outs(r.1@) == sleep_lines(rest@),
{
    let c: Vec<char> = chars_of(rest);
    let mut v = nothing();
    match parse_uint(c.as_slice(), u64::MAX) {
        None => {
            say_color(&mut v, "usage: sleep <milliseconds>\n".to_owned(), GLM_YELLOW);
            assert(crate::console::outs(v@) =~= sleep_lines(rest@));
            (None, v)
        },
        Some(ms) => {
            let mut s: String = "sleeping ".to_owned();
            push_dec(&mut s, ms);
            s.append(" ms...\n");
            say(&mut v, s);
            assert(crate::console::outs(v@) =~= sleep_lines(rest@));
            (Some(ms), v)
        },
    }
}

/// What is printed after the sleep.
pub fn say_awake() -> (v: Vec<Out>)
    ensures
        crate::console::outs(v@) == seq![crate::console::colored("awake (scheduler kept us honest)\n"@, GLM_GREEN)],
{
    let mut v = nothing();
    say_color(&mut v, "awake (scheduler kept us honest)\n".to_owned(), GLM_GREEN);
    assert(crate::console::outs(v@) =~= seq![
        crate::console::colored("awake (scheduler kept us honest)\n"@, GLM_GREEN),
    ]);
    v
}

// ---------------------------------------------------------------------------
// The line of the statistics task
// ---------------------------------------------------------------------------
/// How often it is printed, in milliseconds.
pub const KSTAT_MS: u64 = 5000;

/// How many of the first `n` are set.
pub open spec fn count_set(v: Seq<bool>, n: int) -> nat
    decreases n,
{
    if n <= 0 {
        0
    } else {
        count_set(v, n - 1) + if v[n - 1] {
            1nat
        } else {
            0nat
        }
    }
}

/// How many processors run.
pub fn online_count(p: &Smp) -> (n: usize)
    requires
        p.wf(),
    ensures
        n == count_set(p.up@, MAX_CPUS as int),
        n <= MAX_CPUS,
{
    let mut n: usize = 0;
    let mut i: usize = 0;
    while i < MAX_CPUS
        invariant
            i <= MAX_CPUS,
            p.wf(),
            n <= i,
            n == count_set(p.up@, i as int),
        decreases MAX_CPUS - i,
    {
        if p.up[i] {
            n = n + 1;
        }
        i = i + 1;
    }
    n
}

pub open spec fn kstat_lines(gui: bool, ms: u64, cpus: nat, alive: nat, switches: u64, f: Stats) -> Seq<OutV> {
    if gui {
        Seq::empty()
    } else {
        seq![
            crate::console::colored("[kstat] "@, GLM_GRAY),
            crate::console::plain(
                "up "@ + crate::text::dec_text((ms / 1000) as nat) + "s | cpus "@ + crate::text::dec_text(cpus)
                    + " | tasks "@ + crate::text::dec_text(alive) + " | switches "@ + crate::text::dec_text(
                    switches as nat,
                ) + " | frames free "@ + crate::text::dec_text((f.total - f.used) as nat),
            ),
            crate::console::plain("\n"@),
        ]
    }
}

/// What the statistics task prints: nothing while the desktop has the screen.
pub fn kstat_line(gui: bool, ms: u64, s: &Sched, p: &Smp, f: &Stats) -> (v: Vec<Out>)
    requires
        s.wf(),
        p.wf(),
        f.used <= f.total,
    ensures
        crate::console::outs(v@) == kstat_lines(
            gui,
            ms,
            count_set(p.up@, MAX_CPUS as int),
            crate::sched::live_slots(s@.tasks, MAX_TASKS as int).len(),
            s@.switches,
            *f,
        ),
{
    let mut v = nothing();
    if !gui {
        let cpus: usize = online_count(p);
        let alive: usize = crate::sched::for_each_task(s).len();
        say_color(&mut v, "[kstat] ".to_owned(), GLM_GRAY);
        let mut t: String = "up ".to_owned();
        push_dec(&mut t, ms / 1000);
        t.append("s | cpus ");
        push_dec(&mut t, cpus as u64);
        t.append(" | tasks ");
        push_dec(&mut t, alive as u64);
        t.append(" | switches ");
        push_dec(&mut t, crate::sched::switches(s));
        t.append(" | frames free ");
        push_dec(&mut t, (f.total - f.used) as u64);
        say(&mut v, t);
        say(&mut v, "\n".to_owned());
    }
    assert(crate::console::outs(v@) =~= kstat_lines(
        gui,
        ms,
        count_set(p.up@, MAX_CPUS as int),
        crate::sched::live_slots(s@.tasks, MAX_TASKS as int).len(),
        s@.switches,
        *f,
    ));
    v
}

} // verus!
