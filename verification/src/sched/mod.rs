//! The scheduler: preemptive round-robin multitasking over a table of tasks.
//!
//! A task that does not run is suspended in an interrupt frame, which its
//! table entry holds. Switching tasks is parking the frame of the current one
//! and resuming that of the next.

pub mod laws;
pub mod life_laws;
pub mod process;
pub mod switch;

use vstd::prelude::*;

use crate::cpu::gdt::{KERNEL_CODE, KERNEL_DATA, MAX_CPUS, USER_CODE_RPL3, USER_DATA_RPL3};
use crate::cpu::idt::Regs;
use crate::cpu::smp::{Cpu, Smp};
use crate::mem::frames;
use crate::mem::vmm::{AddressSpace, MemV, Memory};
use crate::user::signal::NSIG;

verus! {

/// Tasks at most.
pub const MAX_TASKS: usize = 16;

/// Frames of a kernel stack.
pub const KSTACK_PAGES: usize = 16;

/// Bytes of a kernel stack.
pub const KSTACK_SIZE: u64 = 0x1_0000;

/// Not pinned to any processor; not running on any.
pub const CPU_ANY: u8 = 0xFF;

pub const SYS_YIELD: u64 = 5;

pub const SYS_SLEEP: u64 = 6;

pub const SYS_WAIT: u64 = 7;

/// The exit code of threads that their process takes down with it.
pub const THREAD_KILLED_CODE: i64 = 143;

/// Where user addresses end.
pub const USER_HALF_LIMIT: u64 = 0x0000_8000_0000_0000;

/// What a task is doing.
#[derive(Clone, Copy, PartialEq, Eq, Structural, Debug)]
pub enum State {
    /// On a processor.
    Running,
    /// In the run queue.
    Ready,
    /// Asleep until a time.
    Sleeping,
    /// Waiting for a key.
    BlockedInput,
    /// Parked on a channel.
    BlockedChan,
    /// Parked on a socket.
    BlockedSock,
    /// Waiting for a child to exit.
    WaitingChild,
    /// Waiting for a thread of its process to exit.
    BlockedJoin,
    /// Exited, not yet reclaimed.
    Zombie,
    /// A free slot.
    Dead,
}

pub open spec fn state_text(s: State) -> Seq<char> {
    match s {
        State::Running => "RUN"@,
        State::Ready => "READY"@,
        State::Sleeping => "SLEEP"@,
        State::BlockedInput => "KEYWAIT"@,
        State::BlockedChan => "CHAN"@,
        State::BlockedSock => "SOCK"@,
        State::WaitingChild => "WAIT"@,
        State::BlockedJoin => "JOIN"@,
        State::Zombie => "ZOMBIE"@,
        State::Dead => "-"@,
    }
}

impl State {
    /// The state as the task list shows it.
    pub fn as_str(self) -> (r: &'static str)
        ensures
            r@ == state_text(self),
    {
        match self {
            State::Running => "RUN",
            State::Ready => "READY",
            State::Sleeping => "SLEEP",
            State::BlockedInput => "KEYWAIT",
            State::BlockedChan => "CHAN",
            State::BlockedSock => "SOCK",
            State::WaitingChild => "WAIT",
            State::BlockedJoin => "JOIN",
            State::Zombie => "ZOMBIE",
            State::Dead => "-",
        }
    }
}

/// A task.
pub struct Task {
    pub pid: u64,
    /// At most twelve bytes.
    pub name: Vec<u8>,
    pub state: State,
    pub pinned_cpu: u8,
    pub on_cpu: u8,
    pub kstack_top: u64,
    pub kstack_bottom: u64,
    /// The boot task runs on the boot stack, which is not its own.
    pub kstack_owned: bool,
    /// The frame it was last suspended in.
    pub saved: Option<Regs>,
    pub pml4: u64,
    /// The user address space, shared by the threads of a process.
    pub user_space: Option<AddressSpace>,
    pub parent: u64,
    /// The child it waits for, 0 for any.
    pub wait_target: u64,
    /// The process it belongs to: the pid of the main thread.
    pub tgid: u64,
    /// The thread it waits for, 0 for any.
    pub join_target: u64,
    /// Its process has exited: it ends at its next interrupt.
    pub die_flag: bool,
    /// A thread that joined this one has its exit code.
    pub joined: bool,
    /// Base of the thread-local storage.
    pub fs_base: u64,
    pub exit_code: i64,
    pub wake_at_ms: u64,
    pub is_user: bool,
    /// Handler address of each signal, 0 for the default action.
    pub sig_handlers: Vec<u64>,
    /// A bit for each signal that was sent and not yet delivered.
    pub sig_pending: u64,
    /// Where the frame of the running handler lies, 0 if none runs.
    pub sig_frame_va: u64,
    pub sig_depth: u8,
    /// The terminal window that its output goes to, 0 for the console.
    pub out_win: u32,
}

#[verifier::ext_equal]
pub struct TaskV {
    pub pid: u64,
    pub name: Seq<u8>,
    pub state: State,
    pub pinned_cpu: u8,
    pub on_cpu: u8,
    pub kstack_top: u64,
    pub kstack_bottom: u64,
    pub kstack_owned: bool,
    pub saved: Option<Regs>,
    pub pml4: u64,
    pub user_space: Option<AddressSpace>,
    pub parent: u64,
    pub wait_target: u64,
    pub tgid: u64,
    pub join_target: u64,
    pub die_flag: bool,
    pub joined: bool,
    pub fs_base: u64,
    pub exit_code: i64,
    pub wake_at_ms: u64,
    pub is_user: bool,
    pub sig_handlers: Seq<u64>,
    pub sig_pending: u64,
    pub sig_frame_va: u64,
    pub sig_depth: u8,
    pub out_win: u32,
}

/// A free slot.
pub open spec fn dead_task() -> TaskV {
    TaskV {
        pid: 0,
        name: Seq::empty(),
        state: State::Dead,
        pinned_cpu: CPU_ANY,
        on_cpu: CPU_ANY,
        kstack_top: 0,
        kstack_bottom: 0,
        kstack_owned: false,
        saved: None,
        pml4: 0,
        user_space: None,
        parent: 0,
        wait_target: 0,
        tgid: 0,
        join_target: 0,
        die_flag: false,
        joined: false,
        fs_base: 0,
        exit_code: 0,
        wake_at_ms: 0,
        is_user: false,
        sig_handlers: no_handlers(),
        sig_pending: 0,
        sig_frame_va: 0,
        sig_depth: 0,
        out_win: 0,
    }
}

pub open spec fn no_handlers() -> Seq<u64> {
    Seq::new(NSIG as nat, |i: int| 0u64)
}

impl TaskV {
    pub open spec fn wf(self) -> bool {
        &&& self.name.len() <= 12
        &&& self.sig_handlers.len() == NSIG
        &&& self.sig_pending < 0x1_0000
    }
}

impl Task {
    pub open spec fn view(&self) -> TaskV {
        TaskV {
            pid: self.pid,
            name: self.name@,
            state: self.state,
            pinned_cpu: self.pinned_cpu,
            on_cpu: self.on_cpu,
            kstack_top: self.kstack_top,
            kstack_bottom: self.kstack_bottom,
            kstack_owned: self.kstack_owned,
            saved: self.saved,
            pml4: self.pml4,
            user_space: self.user_space,
            parent: self.parent,
            wait_target: self.wait_target,
            tgid: self.tgid,
            join_target: self.join_target,
            die_flag: self.die_flag,
            joined: self.joined,
            fs_base: self.fs_base,
            exit_code: self.exit_code,
            wake_at_ms: self.wake_at_ms,
            is_user: self.is_user,
            sig_handlers: self.sig_handlers@,
            sig_pending: self.sig_pending,
            sig_frame_va: self.sig_frame_va,
            sig_depth: self.sig_depth,
            out_win: self.out_win,
        }
    }

    /// A free slot.
    pub fn dead() -> (t: Task)
        ensures
            t@ == dead_task(),
    {
        let sig_handlers: Vec<u64> = vec![0u64; NSIG];
        assert(sig_handlers@ =~= no_handlers());
        let t = Task {
            pid: 0,
            name: Vec::new(),
            state: State::Dead,
            pinned_cpu: CPU_ANY,
            on_cpu: CPU_ANY,
            kstack_top: 0,
            kstack_bottom: 0,
            kstack_owned: false,
            saved: None,
            pml4: 0,
            user_space: None,
            parent: 0,
            wait_target: 0,
            tgid: 0,
            join_target: 0,
            die_flag: false,
            joined: false,
            fs_base: 0,
            exit_code: 0,
            wake_at_ms: 0,
            is_user: false,
            sig_handlers,
            sig_pending: 0,
            sig_frame_va: 0,
            sig_depth: 0,
            out_win: 0,
        };
        assert(t@.name =~= Seq::empty());
        t
    }

    /// The name.
    pub fn name_str(&self) -> (r: &Vec<u8>)
        ensures
            r@ == self@.name,
    {
        &self.name
    }
}

/// What is remembered of a task that was reclaimed.
#[derive(Clone, Copy, PartialEq, Eq, Structural, Debug)]
pub struct Ended {
    pub pid: u64,
    pub code: i64,
    pub tgid: u64,
    pub parent: u64,
    /// A thread that joined it has the code.
    pub joined: bool,
}

/// The scheduler.
pub struct Sched {
    pub tasks: Vec<Task>,
    pub next_pid: u64,
    pub switches: u64,
    /// Exit codes of tasks that were reclaimed before anyone asked, oldest
    /// first.
    pub log: Vec<Ended>,
    pub on: bool,
    /// Offset of the direct map, by which kernel stacks are reached.
    pub hhdm: u64,
}

#[verifier::ext_equal]
pub struct SchedV {
    pub tasks: Seq<TaskV>,
    pub next_pid: u64,
    pub switches: u64,
    pub log: Seq<Ended>,
    pub on: bool,
    pub hhdm: u64,
}

pub open spec fn views(s: Seq<Task>) -> Seq<TaskV> {
    s.map_values(|t: Task| t@)
}

impl SchedV {
    pub open spec fn wf(self) -> bool {
        &&& self.tasks.len() == MAX_TASKS
        &&& forall|i: int| 0 <= i < MAX_TASKS ==> (#[trigger] self.tasks[i]).wf()
        &&& self.log.len() <= MAX_TASKS
        &&& self.hhdm <= 0xFFFF_FFFF_8000_0000
    }

    /// The scheduler with slot `i` set.
    pub open spec fn with_task(self, i: int, t: TaskV) -> SchedV {
        SchedV { tasks: self.tasks.update(i, t), ..self }
    }
}

impl Sched {
    pub open spec fn view(&self) -> SchedV {
        SchedV {
            tasks: views(self.tasks@),
            next_pid: self.next_pid,
            switches: self.switches,
            log: self.log@,
            on: self.on,
            hhdm: self.hhdm,
        }
    }

    pub open spec fn wf(&self) -> bool {
        self@.wf()
    }

    /// A scheduler without tasks, not yet started.
    pub fn new(hhdm: u64) -> (s: Sched)
        requires
            hhdm <= 0xFFFF_FFFF_8000_0000,
        ensures
            s.wf(),
            s@ == (SchedV {
                tasks: Seq::new(MAX_TASKS as nat, |i: int| dead_task()),
                next_pid: 1,
                switches: 0,
                log: Seq::empty(),
                on: false,
                hhdm,
            }),
    {
        let mut tasks: Vec<Task> = Vec::new();
        let mut i: usize = 0;
        while i < MAX_TASKS
            invariant
                i <= MAX_TASKS,
                tasks@.len() == i,
                forall|j: int| 0 <= j < i ==> (#[trigger] tasks@[j])@ == dead_task(),
            decreases MAX_TASKS - i,
        {
            tasks.push(Task::dead());
            i = i + 1;
        }
        let s = Sched { tasks, next_pid: 1, switches: 0, log: Vec::new(), on: false, hhdm };
        assert(s@.tasks =~= Seq::new(MAX_TASKS as nat, |i: int| dead_task()));
        assert(s@.log =~= Seq::empty());
        s
    }

    /// Puts a task into slot `i`.
    pub fn put(&mut self, i: usize, t: Task)
        requires
            i < old(self)@.tasks.len(),
        ensures
            final(self)@ == old(self)@.with_task(i as int, t@),
    {
        self.tasks.set(i, t);
        assert(self@.tasks =~= old(self)@.tasks.update(i as int, t@));
    }

    /// Sets the state of the task in slot `i`.
    pub fn set_state(&mut self, i: usize, st: State)
        requires
            i < old(self)@.tasks.len(),
        ensures
            final(self)@ == old(self)@.with_task(i as int, TaskV { state: st, ..old(self)@.tasks[i as int] }),
    {
        self.tasks[i].state = st;
        assert(self@.tasks =~= old(self)@.tasks.update(
            i as int,
            TaskV { state: st, ..old(self)@.tasks[i as int] },
        ));
    }

    /// Copies a list of handlers.
    pub fn handlers_of(&self, i: usize) -> (v: Vec<u64>)
        requires
            i < self@.tasks.len(),
            self@.tasks[i as int].sig_handlers.len() == NSIG,
        ensures
            v@ == self@.tasks[i as int].sig_handlers,
    {
        let mut v: Vec<u64> = Vec::new();
        let mut k: usize = 0;
        while k < NSIG
            invariant
                k <= NSIG,
                i < self@.tasks.len(),
                self@.tasks[i as int].sig_handlers.len() == NSIG,
                v@ == self@.tasks[i as int].sig_handlers.take(k as int),
            decreases NSIG - k,
        {
            v.push(self.tasks[i].sig_handlers[k]);
            k = k + 1;
            assert(v@ =~= self@.tasks[i as int].sig_handlers.take(k as int));
        }
        assert(self@.tasks[i as int].sig_handlers.take(NSIG as int) =~= self@.tasks[i as int].sig_handlers);
        v
    }

    /// Copies a name.
    pub fn name_of(&self, i: usize) -> (v: Vec<u8>)
        requires
            i < self@.tasks.len(),
        ensures
            v@ == self@.tasks[i as int].name,
    {
        vstd::slice::slice_to_vec(self.tasks[i].name.as_slice())
    }
}

/// Whether the scheduler was started.
pub fn online(s: &Sched) -> (r: bool)
    ensures
        r == s@.on,
{
    s.on
}

/// Task switches so far.
pub fn switches(s: &Sched) -> (r: u64)
    ensures
        r == s@.switches,
{
    s.switches
}

/// The slot of the task that runs on a processor.
pub open spec fn slot_on(cpus: Seq<Cpu>, cpu: int) -> int {
    cpus[cpu].current as int
}

/// A processor that runs a task of the table.
pub open spec fn runs_task(p: Smp, cpu: usize) -> bool {
    p.wf() && cpu < MAX_CPUS && p.cpus@[cpu as int].current < MAX_TASKS
}

pub open spec fn current_pid_spec(k: SchedV, cpus: Seq<Cpu>, cpu: int) -> u64 {
    if !k.on || slot_on(cpus, cpu) >= MAX_TASKS {
        0
    } else {
        k.tasks[slot_on(cpus, cpu)].pid
    }
}

/// The pid of the task that runs on a processor, 0 before there is one.
pub fn current_pid(s: &Sched, p: &Smp, cpu: usize) -> (r: u64)
    requires
        s.wf(),
        p.wf(),
        cpu < MAX_CPUS,
    ensures
        r == current_pid_spec(s@, p.cpus@, cpu as int),
{
    if !s.on {
        return 0;
    }
    let i: usize = p.cpus[cpu].current;
    if i >= MAX_TASKS {
        return 0;
    }
    s.tasks[i].pid
}

pub open spec fn current_out_spec(k: SchedV, cpus: Seq<Cpu>, cpu: int) -> u32 {
    if !k.on || slot_on(cpus, cpu) >= MAX_TASKS {
        0
    } else {
        k.tasks[slot_on(cpus, cpu)].out_win
    }
}

/// The terminal window that the output of the running task goes to.
pub fn current_out_win(s: &Sched, p: &Smp, cpu: usize) -> (r: u32)
    requires
        s.wf(),
        p.wf(),
        cpu < MAX_CPUS,
    ensures
        r == current_out_spec(s@, p.cpus@, cpu as int),
{
    if !s.on {
        return 0;
    }
    let i: usize = p.cpus[cpu].current;
    if i >= MAX_TASKS {
        return 0;
    }
    s.tasks[i].out_win
}

/// Sends the output of the running task to a terminal window.
pub fn set_current_out_win(s: &mut Sched, p: &Smp, cpu: usize, win: u32)
    requires
        old(s).wf(),
        p.wf(),
        cpu < MAX_CPUS,
    ensures
        final(s).wf(),
        ({
            let i = slot_on(p.cpus@, cpu as int);
            final(s)@ == if old(s)@.on && i < MAX_TASKS {
                old(s)@.with_task(i, TaskV { out_win: win, ..old(s)@.tasks[i] })
            } else {
                old(s)@
            }
        }),
{
    if !s.on {
        return;
    }
    let i: usize = p.cpus[cpu].current;
    if i < MAX_TASKS {
        s.tasks[i].out_win = win;
        assert(s@.tasks =~= old(s)@.tasks.update(i as int, TaskV { out_win: win, ..old(s)@.tasks[i as int] }));
    }
}

/// The slot of the running task.
pub fn current_slot(p: &Smp, cpu: usize) -> (r: usize)
    requires
        p.wf(),
        cpu < MAX_CPUS,
    ensures
        r == slot_on(p.cpus@, cpu as int),
{
    p.cpus[cpu].current
}

/// Asks the processor to switch tasks at its next interrupt.
pub fn request_switch(p: &mut Smp, cpu: usize)
    requires
        old(p).wf(),
        cpu < MAX_CPUS,
    ensures
        final(p).wf(),
        final(p)@ == crate::cpu::smp::asked(old(p)@, cpu as int),
{
    crate::cpu::smp::request_switch(p, cpu);
}

// ---------------------------------------------------------------------------
// Creating tasks
// ---------------------------------------------------------------------------
/// What a new task is to be.
pub struct NewTask<'a> {
    pub name: &'a str,
    pub entry: u64,
    /// The user stack, for a user task.
    pub user_rsp: Option<u64>,
    pub pml4: u64,
    pub is_user: bool,
    pub user_space: Option<AddressSpace>,
    pub pinned_cpu: u8,
    /// First two arguments of the entry.
    pub entry_regs: (u64, u64),
}

pub open spec fn is_dead() -> spec_fn(TaskV) -> bool {
    |t: TaskV| t.state == State::Dead
}

/// The first free slot.
pub fn find_dead(s: &Sched) -> (r: Option<usize>)
    requires
        s.wf(),
    ensures
        match (r, crate::seqs::first(s@.tasks, is_dead())) {
            (Some(i), Some(j)) => i == j && i < MAX_TASKS,
            (None, None) => true,
            _ => false,
        },
{
    let mut i: usize = 0;
    while i < MAX_TASKS
        invariant
            i <= MAX_TASKS,
            s.wf(),
            crate::seqs::first_from(s@.tasks, is_dead(), i as int) == crate::seqs::first(s@.tasks, is_dead()),
        decreases MAX_TASKS - i,
    {
        assert(s@.tasks[i as int] == s.tasks@[i as int]@);
        if s.tasks[i].state == State::Dead {
            return Some(i);
        }
        i = i + 1;
    }
    None
}

/// A kernel stack is taken: its top and its bottom.
pub open spec fn kstack_spec(m: MemV, hhdm: u64) -> (MemV, Option<(u64, u64)>) {
    let (f, r) = crate::mem::frames::contig_spec(m.frames, KSTACK_PAGES);
    (
        MemV { frames: f, ..m },
        match r {
            Some(pa) => Some(((pa + hhdm + KSTACK_SIZE) as u64, (pa + hhdm) as u64)),
            None => None,
        },
    )
}

pub fn alloc_kstack(m: &mut Memory, hhdm: u64) -> (r: Option<(u64, u64)>)
    requires
        old(m).wf(),
        hhdm <= 0xFFFF_FFFF_8000_0000,
    ensures
        final(m).wf(),
        (final(m)@, r) == kstack_spec(old(m)@, hhdm),
        r matches Some(x) ==> x.0 >= KSTACK_SIZE,
{
    match frames::alloc_contig(&mut m.frames, KSTACK_PAGES) {
        None => None,
        Some(pa) => {
            proof {
                old(m).frames.lemma_wf();
                assert(crate::mem::frames::run_free(old(m).frames@.taken, (pa / 4096) as int, KSTACK_PAGES as int));
            }
            Some((pa + hhdm + KSTACK_SIZE, pa + hhdm))
        },
    }
}

/// The first twelve bytes of a name.
pub open spec fn name12(n: Seq<char>) -> Seq<u8> {
    let b = vstd::utf8::encode_utf8(n);
    b.take(
        if b.len() < 12 {
            b.len() as int
        } else {
            12
        },
    )
}

pub fn cut_name(n: &str) -> (v: Vec<u8>)
    ensures
        v@ == name12(n@),
        v@.len() <= 12,
{
    let b = n.as_bytes();
    let k: usize = if b.len() < 12 {
        b.len()
    } else {
        12
    };
    let mut v: Vec<u8> = Vec::new();
    let mut i: usize = 0;
    while i < k
        invariant
            i <= k,
            k <= b@.len(),
            v@ == b@.take(i as int),
        decreases k - i,
    {
        v.push(b[i]);
        i = i + 1;
        assert(v@ =~= b@.take(i as int));
    }
    v
}

/// The frame that a task starts from: a user task on its user stack, a kernel
/// task as if its entry had been called at the top of its kernel stack.
pub open spec fn boot_frame(top: u64, entry: u64, user_rsp: Option<u64>, args: (u64, u64)) -> Regs {
    let r = Regs { rip: entry, rflags: 0x202, rdi: args.0, rsi: args.1, ..crate::cpu::idt::zero_regs() };
    match user_rsp {
        Some(sp) => Regs { cs: USER_CODE_RPL3 as u64, ss: USER_DATA_RPL3 as u64, rsp: sp, ..r },
        None => Regs {
            cs: KERNEL_CODE as u64,
            ss: KERNEL_DATA as u64,
            rsp: (top - top % 16 - 8) as u64,
            ..r
        },
    }
}

fn bootstrap_frame(top: u64, entry: u64, user_rsp: Option<u64>, args: (u64, u64)) -> (r: Regs)
    requires
        top >= 16,
    ensures
        r == boot_frame(top, entry, user_rsp, args),
{
    let mut r = Regs::zero();
    r.rip = entry;
    r.rflags = 0x202;
    r.rdi = args.0;
    r.rsi = args.1;
    match user_rsp {
        Some(sp) => {
            r.cs = USER_CODE_RPL3 as u64;
            r.ss = USER_DATA_RPL3 as u64;
            r.rsp = sp;
        },
        None => {
            r.cs = KERNEL_CODE as u64;
            r.ss = KERNEL_DATA as u64;
            r.rsp = top - top % 16 - 8;
        },
    }
    r
}

/// The entry of a new task.
pub open spec fn new_task(new: NewTask, pid: u64, top: u64, bottom: u64, parent: u64, out_win: u32) -> TaskV {
    TaskV {
        pid,
        name: name12(new.name@),
        state: State::Ready,
        pinned_cpu: new.pinned_cpu,
        kstack_top: top,
        kstack_bottom: bottom,
        kstack_owned: true,
        saved: Some(boot_frame(top, new.entry, new.user_rsp, new.entry_regs)),
        pml4: new.pml4,
        user_space: new.user_space,
        parent,
        tgid: pid,
        is_user: new.is_user,
        out_win,
        ..dead_task()
    }
}

pub open spec fn spawn_spec(k: SchedV, m: MemV, cpus: Seq<Cpu>, cpu: int, new: NewTask) -> (SchedV, MemV, Option<u64>) {
    match crate::seqs::first(k.tasks, is_dead()) {
        None => (k, m, None),
        Some(i) => {
            let pid = k.next_pid;
            let k1 = SchedV { next_pid: pid.wrapping_add(1), ..k };
            let (m1, st) = kstack_spec(m, k.hhdm);
            match st {
                None => (k1, m1, None),
                Some((top, bottom)) => (
                    k1.with_task(
                        i,
                        new_task(
                            new,
                            pid,
                            top,
                            bottom,
                            current_pid_spec(k, cpus, cpu),
                            current_out_spec(k, cpus, cpu),
                        ),
                    ),
                    m1,
                    Some(pid),
                ),
            }
        },
    }
}

/// Creates a task and puts it into the run queue. Gives its pid, or nothing
/// if the table is full or there is no stack for it. A child prints where its
/// creator prints.
pub fn spawn(s: &mut Sched, m: &mut Memory, p: &Smp, cpu: usize, new: NewTask) -> (r: Option<u64>)
    requires
        old(s).wf(),
        old(m).wf(),
        p.wf(),
        cpu < MAX_CPUS,
    ensures
        final(s).wf(),
        final(m).wf(),
        (final(s)@, final(m)@, r) == spawn_spec(old(s)@, old(m)@, p.cpus@, cpu as int, new),
{
    let slot: usize = match find_dead(s) {
        None => {
            return None;
        },
        Some(i) => i,
    };
    let parent: u64 = current_pid(s, p, cpu);
    let out_win: u32 = current_out_win(s, p, cpu);
    let pid: u64 = s.next_pid;
    s.next_pid = s.next_pid.wrapping_add(1);
    let (top, bottom) = match alloc_kstack(m, s.hhdm) {
        None => {
            return None;
        },
        Some(x) => x,
    };
    let mut t = Task::dead();
    t.pid = pid;
    t.name = cut_name(new.name);
    t.state = State::Ready;
    t.pinned_cpu = new.pinned_cpu;
    t.kstack_top = top;
    t.kstack_bottom = bottom;
    t.kstack_owned = true;
    t.saved = Some(bootstrap_frame(top, new.entry, new.user_rsp, new.entry_regs));
    t.pml4 = new.pml4;
    t.user_space = new.user_space;
    t.parent = parent;
    t.tgid = pid;
    t.is_user = new.is_user;
    t.out_win = out_win;
    assert(t@ =~= new_task(new, pid, top, bottom, parent, out_win));
    s.put(slot, t);
    Some(pid)
}

/// The top of a task's kernel stack.
pub fn task_kstack_top(s: &Sched, slot: usize) -> (r: u64)
    requires
        s.wf(),
        slot < MAX_TASKS,
    ensures
        r == s@.tasks[slot as int].kstack_top,
{
    s.tasks[slot].kstack_top
}

/// The pid and the name of the task in a slot, if there is one.
pub fn task_brief(s: &Sched, slot: usize) -> (r: Option<(u64, Vec<u8>)>)
    requires
        s.wf(),
        slot < MAX_TASKS,
    ensures
        match r {
            None => s@.tasks[slot as int].state == State::Dead,
            Some((pid, name)) => s@.tasks[slot as int].state != State::Dead && pid == s@.tasks[slot as int].pid && name@
                == s@.tasks[slot as int].name,
        },
{
    if s.tasks[slot].state == State::Dead {
        None
    } else {
        Some((s.tasks[slot].pid, s.name_of(slot)))
    }
}

/// The name of the idle task of a processor.
pub open spec fn kidle_text(cpu: int) -> Seq<char> {
    if cpu <= 0 {
        "kidle"@
    } else if cpu == 1 {
        "kidle1"@
    } else if cpu == 2 {
        "kidle2"@
    } else if cpu == 3 {
        "kidle3"@
    } else if cpu == 4 {
        "kidle4"@
    } else if cpu == 5 {
        "kidle5"@
    } else if cpu == 6 {
        "kidle6"@
    } else {
        "kidle7"@
    }
}

fn kidle_name(cpu: usize) -> (r: &'static str)
    ensures
        r@ == kidle_text(cpu as int),
{
    if cpu == 0 {
        "kidle"
    } else if cpu == 1 {
        "kidle1"
    } else if cpu == 2 {
        "kidle2"
    } else if cpu == 3 {
        "kidle3"
    } else if cpu == 4 {
        "kidle4"
    } else if cpu == 5 {
        "kidle5"
    } else if cpu == 6 {
        "kidle6"
    } else {
        "kidle7"
    }
}

/// A name that begins with "kidle".
pub open spec fn idle_name(n: Seq<u8>) -> bool {
    n.len() >= 5 && n[0] == 107 && n[1] == 105 && n[2] == 100 && n[3] == 108 && n[4] == 101
}

pub fn is_idle_name(n: &Vec<u8>) -> (r: bool)
    ensures
        r == idle_name(n@),
{
    n.len() >= 5 && n[0] == 107 && n[1] == 105 && n[2] == 100 && n[3] == 108 && n[4] == 101
}

pub open spec fn is_kidle_of(cpu: u8) -> spec_fn(TaskV) -> bool {
    |t: TaskV| t.state != State::Dead && idle_name(t.name) && t.pinned_cpu == cpu
}

/// What the idle task of a processor is to be; `entry` is its code.
pub open spec fn kidle_task(kernel: u64, cpu: u8, entry: u64, name: &'static str) -> NewTask<'static> {
    NewTask {
        name,
        entry,
        user_rsp: None,
        pml4: kernel,
        is_user: false,
        user_space: None,
        pinned_cpu: cpu,
        entry_regs: (0, 0),
    }
}

fn find_kidle(s: &Sched, cpu: u8) -> (r: Option<usize>)
    requires
        s.wf(),
    ensures
        match (r, crate::seqs::first(s@.tasks, is_kidle_of(cpu))) {
            (Some(i), Some(j)) => i == j && i < MAX_TASKS,
            (None, None) => true,
            _ => false,
        },
{
    let mut i: usize = 0;
    while i < MAX_TASKS
        invariant
            i <= MAX_TASKS,
            s.wf(),
            crate::seqs::first_from(s@.tasks, is_kidle_of(cpu), i as int) == crate::seqs::first(
                s@.tasks,
                is_kidle_of(cpu),
            ),
        decreases MAX_TASKS - i,
    {
        assert(s@.tasks[i as int] == s.tasks@[i as int]@);
        if s.tasks[i].state != State::Dead && is_idle_name(&s.tasks[i].name) && s.tasks[i].pinned_cpu == cpu {
            return Some(i);
        }
        i = i + 1;
    }
    None
}

/// Creates the idle task of a processor, pinned to it, before the processor
/// is released; gives its slot.
pub fn spawn_ap_kidle(s: &mut Sched, m: &mut Memory, p: &Smp, me: usize, cpu: usize, entry: u64) -> (r: Option<usize>)
    requires
        old(s).wf(),
        old(m).wf(),
        p.wf(),
        me < MAX_CPUS,
        cpu < MAX_CPUS,
    ensures
        final(s).wf(),
        final(m).wf(),
        exists|name: &'static str|
            {
                &&& #[trigger] name@ == kidle_text(cpu as int)
                &&& ({
                    let (k1, m1, pid) = spawn_spec(
                        old(s)@,
                        old(m)@,
                        p.cpus@,
                        me as int,
                        kidle_task(old(m)@.kernel, cpu as u8, entry, name),
                    );
                    &&& final(s)@ == k1
                    &&& final(m)@ == m1
                    &&& match (r, crate::seqs::first(k1.tasks, is_kidle_of(cpu as u8))) {
                        (Some(i), Some(j)) => pid is Some && i == j,
                        (None, None) => true,
                        (None, Some(_)) => pid is None,
                        _ => false,
                    }
                })
            },
{
    let name: &'static str = kidle_name(cpu);
    let kernel: u64 = m.kernel;
    let new = NewTask {
        name,
        entry,
        user_rsp: None,
        pml4: kernel,
        is_user: false,
        user_space: None,
        pinned_cpu: cpu as u8,
        entry_regs: (0, 0),
    };
    assert(name@ == kidle_text(cpu as int));
    match spawn(s, m, p, me, new) {
        None => None,
        Some(_) => find_kidle(s, cpu as u8),
    }
}

/// Hands a processor that has just started its idle task.
pub fn ap_go(s: &mut Sched, p: &mut Smp, cpu: usize, slot: usize)
    requires
        old(s).wf(),
        old(p).wf(),
        cpu < MAX_CPUS,
        slot < MAX_TASKS,
    ensures
        final(s).wf(),
        final(p).wf(),
        final(s)@ == old(s)@.with_task(
            slot as int,
            TaskV { state: State::Running, on_cpu: cpu as u8, ..old(s)@.tasks[slot as int] },
        ),
        final(p)@ == old(p)@.with_cpu(cpu as int, Cpu { current: slot, ..old(p)@.cpus[cpu as int] }),
{
    s.tasks[slot].state = State::Running;
    s.tasks[slot].on_cpu = cpu as u8;
    assert(s@.tasks =~= old(s)@.tasks.update(
        slot as int,
        TaskV { state: State::Running, on_cpu: cpu as u8, ..old(s)@.tasks[slot as int] },
    ));
    crate::cpu::smp::set_current_task(p, cpu, slot);
}

/// Adopts the context that is running, on the boot stack, as the shell, and
/// starts the idle task of the boot processor and the statistics task. The
/// table must have a free slot.
pub fn init(s: &mut Sched, m: &mut Memory, p: &mut Smp, boot_stack: u64, kidle: u64, kstat: u64)
    requires
        old(s).wf(),
        old(m).wf(),
        old(p).wf(),
        crate::seqs::first(old(s)@.tasks, is_dead()) is Some,
    ensures
        final(s).wf(),
        final(m).wf(),
        final(p).wf(),
        final(s)@.on,
        ({
            let i = crate::seqs::first(old(s)@.tasks, is_dead())->Some_0;
            final(p)@ == old(p)@.with_cpu(0, Cpu { current: i as usize, ..old(p)@.cpus[0] })
        }),
        exists|a: NewTask<'static>, b: NewTask<'static>|
            {
                &&& #[trigger] kidle_new(a, old(m)@.kernel, kidle)
                &&& #[trigger] kstat_new(b, old(m)@.kernel, kstat)
                &&& (final(s)@, final(m)@) == init_spec(old(s)@, old(m)@, final(p)@.cpus, boot_stack, a, b)
            },
{
    let kernel: u64 = m.kernel;
    let slot: usize = match find_dead(s) {
        Some(i) => i,
        None => 0,
    };
    let mut t = Task::dead();
    t.pid = s.next_pid;
    s.next_pid = s.next_pid.wrapping_add(1);
    t.tgid = t.pid;
    t.name = cut_name("glmsh");
    t.state = State::Running;
    t.pinned_cpu = 0;
    t.on_cpu = 0;
    t.kstack_top = boot_stack;
    t.pml4 = kernel;
    assert(t@ =~= shell_task(old(s)@.next_pid, boot_stack, kernel));
    s.put(slot, t);
    crate::cpu::smp::set_current_task(p, 0, slot);
    let a = NewTask {
        name: "kidle",
        entry: kidle,
        user_rsp: None,
        pml4: kernel,
        is_user: false,
        user_space: None,
        pinned_cpu: 0,
        entry_regs: (0, 0),
    };
    let b = NewTask {
        name: "kstat",
        entry: kstat,
        user_rsp: None,
        pml4: kernel,
        is_user: false,
        user_space: None,
        pinned_cpu: CPU_ANY,
        entry_regs: (0, 0),
    };
    let ghost (ga, gb) = (a, b);
    assert(kidle_new(ga, old(m)@.kernel, kidle));
    assert(kstat_new(gb, old(m)@.kernel, kstat));
    let _ = spawn(s, m, p, 0, a);
    let _ = spawn(s, m, p, 0, b);
    s.on = true;
    assert((s@, m@) == init_spec(old(s)@, old(m)@, p@.cpus, boot_stack, ga, gb));
}

/// The shell, adopted on the boot stack.
pub open spec fn shell_task(pid: u64, boot_stack: u64, kernel: u64) -> TaskV {
    TaskV {
        pid,
        tgid: pid,
        name: name12("glmsh"@),
        state: State::Running,
        pinned_cpu: 0,
        on_cpu: 0,
        kstack_top: boot_stack,
        pml4: kernel,
        ..dead_task()
    }
}

pub open spec fn kidle_new(a: NewTask, kernel: u64, entry: u64) -> bool {
    a.name@ == "kidle"@ && a.entry == entry && a.user_rsp is None && a.pml4 == kernel && !a.is_user && a.user_space is None
        && a.pinned_cpu == 0 && a.entry_regs == (0u64, 0u64)
}

pub open spec fn kstat_new(b: NewTask, kernel: u64, entry: u64) -> bool {
    b.name@ == "kstat"@ && b.entry == entry && b.user_rsp is None && b.pml4 == kernel && !b.is_user && b.user_space is None
        && b.pinned_cpu == CPU_ANY && b.entry_regs == (0u64, 0u64)
}

pub open spec fn init_spec(k: SchedV, m: MemV, cpus: Seq<Cpu>, boot_stack: u64, a: NewTask, b: NewTask) -> (SchedV, MemV) {
    let i = crate::seqs::first(k.tasks, is_dead())->Some_0;
    let k1 = SchedV { next_pid: k.next_pid.wrapping_add(1), ..k }.with_task(
        i,
        shell_task(k.next_pid, boot_stack, m.kernel),
    );
    let (k2, m2, x) = spawn_spec(k1, m, cpus, 0, a);
    let (k3, m3, y) = spawn_spec(k2, m2, cpus, 0, b);
    (SchedV { on: true, ..k3 }, m3)
}

// ---------------------------------------------------------------------------
// Looking at tasks
// ---------------------------------------------------------------------------
pub open spec fn has_pid(pid: u64) -> spec_fn(TaskV) -> bool {
    |t: TaskV| t.state != State::Dead && t.pid == pid
}

/// The slot of the task with a pid.
pub fn find_pid(s: &Sched, pid: u64) -> (r: Option<usize>)
    requires
        s.wf(),
    ensures
        match (r, crate::seqs::first(s@.tasks, has_pid(pid))) {
            (Some(i), Some(j)) => i == j && i < MAX_TASKS,
            (None, None) => true,
            _ => false,
        },
{
    let mut i: usize = 0;
    while i < MAX_TASKS
        invariant
            i <= MAX_TASKS,
            s.wf(),
            crate::seqs::first_from(s@.tasks, has_pid(pid), i as int) == crate::seqs::first(s@.tasks, has_pid(pid)),
        decreases MAX_TASKS - i,
    {
        assert(s@.tasks[i as int] == s.tasks@[i as int]@);
        if s.tasks[i].state != State::Dead && s.tasks[i].pid == pid {
            return Some(i);
        }
        i = i + 1;
    }
    None
}

/// The state of a task, and whether it is a user task.
pub fn task_state(s: &Sched, pid: u64) -> (r: Option<(State, bool)>)
    requires
        s.wf(),
    ensures
        r == (match crate::seqs::first(s@.tasks, has_pid(pid)) {
            Some(i) => Some((s@.tasks[i].state, s@.tasks[i].is_user)),
            None => None,
        }),
{
    match find_pid(s, pid) {
        Some(i) => {
            assert(s@.tasks[i as int] == s.tasks@[i as int]@);
            Some((s.tasks[i].state, s.tasks[i].is_user))
        },
        None => None,
    }
}

/// The slots of the first `n` that hold a task.
pub open spec fn live_slots(tasks: Seq<TaskV>, n: int) -> Seq<usize>
    decreases n,
{
    if n <= 0 {
        Seq::empty()
    } else if tasks[n - 1].state != State::Dead {
        live_slots(tasks, n - 1).push((n - 1) as usize)
    } else {
        live_slots(tasks, n - 1)
    }
}

/// The slots of all tasks, in order.
pub fn for_each_task(s: &Sched) -> (v: Vec<usize>)
    requires
        s.wf(),
    ensures
        v@ == live_slots(s@.tasks, MAX_TASKS as int),
{
    let mut v: Vec<usize> = Vec::new();
    let mut i: usize = 0;
    while i < MAX_TASKS
        invariant
            i <= MAX_TASKS,
            s.wf(),
            v@ == live_slots(s@.tasks, i as int),
        decreases MAX_TASKS - i,
    {
        assert(s@.tasks[i as int] == s.tasks@[i as int]@);
        if s.tasks[i].state != State::Dead {
            v.push(i);
        }
        i = i + 1;
    }
    v
}

} // verus!
