//! Terminal windows: a shell that lives in a window of the desktop.

use vstd::prelude::*;

use crate::console::{nothing, Out, OutV};
use crate::cpu::gdt::MAX_CPUS;
use crate::cpu::smp::Smp;
use crate::gui::calls::Desk;
use crate::gui::scene::SceneV;
use crate::gui::term_state::TermV;
use crate::gui::terms::{term_caret_tick, term_closed, term_open_for, term_pop_input};
use crate::mem::vmm::Memory;
use crate::sched::{spawn, NewTask, Sched, CPU_ANY};
use crate::shell::edit::{banner, prompt, type_key, Typed, CARET_TICKS, LINE_MAX};

verus! {

/// How long a session sleeps when no key waits, in milliseconds.
pub const IDLE_MS: u64 = 10;

/// Starts the task of a terminal session.
pub fn launch(s: &mut Sched, m: &mut Memory, p: &Smp, cpu: usize, entry: u64, kernel_cr3: u64) -> (r: bool)
    requires
        old(s).wf(),
        old(m).wf(),
        p.wf(),
        cpu < MAX_CPUS,
    ensures
        final(s).wf(),
        final(m).wf(),
        exists|name: &'static str|
            #![trigger name@]
            name@ == "kterm"@ && ({
                let (k, n, pid) = crate::sched::spawn_spec(
                    old(s)@,
                    old(m)@,
                    p.cpus@,
                    cpu as int,
                    session_task(name, entry, kernel_cr3),
                );
                final(s)@ == k && final(m)@ == n && r == pid is Some
            }),
{
    let name: &'static str = "kterm";
    let new = NewTask {
        name,
        entry,
        user_rsp: None,
        pml4: kernel_cr3,
        is_user: false,
        user_space: None,
        pinned_cpu: CPU_ANY,
        entry_regs: (0, 0),
    };
    assert(new == session_task(name, entry, kernel_cr3));
    let r: Option<u64> = spawn(s, m, p, cpu, new);
    assert(name@ == "kterm"@);
    r.is_some()
}

/// A kernel task that may run on any processor.
pub open spec fn session_task(name: &'static str, entry: u64, kernel_cr3: u64) -> NewTask<'static> {
    NewTask {
        name,
        entry,
        user_rsp: None,
        pml4: kernel_cr3,
        is_user: false,
        user_space: None,
        pinned_cpu: CPU_ANY,
        entry_regs: (0, 0),
    }
}

/// A session: its window, the line that is being typed, and when the caret
/// last changed.
pub struct Session {
    pub win: u32,
    pub line: Vec<u8>,
    pub last_caret: u64,
}

/// What a session does next.
#[derive(Clone, Copy, PartialEq, Eq, Structural, Debug)]
pub enum Next {
    /// Execute the line.
    Execute,
    /// Look for the next key.
    Again,
    /// Sleep a while.
    Sleep,
    /// End with a code.
    Exit(i64),
}

/// Opens the window of a session: the session, and what it prints; without a
/// window the task ends with code 1.
pub fn session_main(d: &mut Option<Desk>, pid: u64, now: u64) -> (r: (Option<Session>, Next, Vec<Out>))
    requires
        crate::gui::calls::desk_ok(*old(d)),
    ensures
        crate::gui::calls::desk_ok(*final(d)),
        crate::gui::calls::back_of(*final(d)) == crate::gui::calls::back_of(*old(d)),
        match crate::gui::calls::scene_of(*old(d)) {
            None => r.0 is None && crate::gui::calls::scene_of(*final(d)) is None,
            Some(sc) => {
                let (s, x) = crate::gui::terms::term_open_spec(sc, pid);
                &&& crate::gui::calls::scene_of(*final(d)) == Some(s)
                &&& r.0 is Some <==> x is Some
                &&& r.0 matches Some(t) ==> Some(t.win) == x
            },
        },
        r.0 is None ==> r.1 == Next::Exit(1) && crate::console::outs(r.2@) == Seq::<OutV>::empty(),
        r.0 matches Some(t) ==> t.line@.len() == 0 && t.last_caret == now && r.1 == Next::Again && crate::console::outs(
            r.2@,
        ) == crate::shell::edit::banner_lines() + crate::shell::edit::prompt_lines(),
{
    match term_open_for(d, pid) {
        None => (None, Next::Exit(1), nothing()),
        Some(win) => {
            let mut v = banner();
            let mut q = prompt();
            let ghost a = v@;
            let ghost b = q@;
            v.append(&mut q);
            assert(crate::console::outs(v@) =~= crate::console::outs(a) + crate::console::outs(b));
            (Some(Session { win, line: Vec::new(), last_caret: now }), Next::Again, v)
        },
    }
}

/// The first keystroke is taken.
pub open spec fn key_taken() -> spec_fn(TermV) -> TermV {
    |t: TermV|
        if t.input.len() > 0 {
            TermV { input: t.input.skip(1), ..t }
        } else {
            t
        }
}

pub open spec fn caret_turned() -> spec_fn(TermV) -> TermV {
    |t: TermV| TermV { caret: !t.caret, ..t }
}

/// The key that waits for a session.
pub open spec fn waiting_key(d: Option<Desk>, win: u32) -> Option<u8> {
    match crate::gui::calls::scene_of(d) {
        None => None,
        Some(sc) => crate::gui::terms::next_key(sc, win),
    }
}

proof fn lemma_no_key(sc: SceneV, win: u32)
    requires
        crate::gui::terms::next_key(sc, win) is None,
    ensures
        crate::gui::terms::termed(sc, win, key_taken(), false) == sc,
{
    crate::seqs::lemma_first_from(sc.wins, SceneV::has_id(win), 0);
    match crate::gui::terms::term_at(sc, win) {
        None => {},
        Some(i) => {
            assert(key_taken()(sc.wins[i].term) == sc.wins[i].term);
            assert(sc.wins.update(i, sc.wins[i]) =~= sc.wins);
            assert(crate::gui::terms::termed(sc, win, key_taken(), false) =~= sc);
        },
    }
}

/// Looks for a key: it goes into the line. Without one the caret blinks.
pub fn session_poll(d: &mut Option<Desk>, s: &mut Session, now: u64) -> (r: (Next, Vec<Out>))
    requires
        crate::gui::calls::desk_ok(*old(d)),
        old(s).line@.len() <= LINE_MAX,
    ensures
        crate::gui::calls::desk_ok(*final(d)),
        final(s).win == old(s).win,
        final(s).line@.len() <= LINE_MAX,
        match waiting_key(*old(d), old(s).win) {
            Some(k) => {
                let (line, t) = crate::shell::edit::typed_spec(old(s).line@, k);
                &&& crate::gui::terms::desk_termed(*old(d), *final(d), old(s).win, key_taken(), false)
                &&& final(s).line@ == line
                &&& final(s).last_caret == old(s).last_caret
                &&& r.0 == if t == Typed::Done {
                    Next::Execute
                } else {
                    Next::Again
                }
                &&& crate::console::outs(r.1@) == crate::shell::edit::echo_lines(k, t)
            },
            None => {
                &&& final(s).line@ == old(s).line@
                &&& r.0 == Next::Sleep
                &&& crate::console::outs(r.1@) == Seq::<OutV>::empty()
                &&& if crate::shell::edit::due(now, old(s).last_caret, CARET_TICKS) {
                    &&& final(s).last_caret == now
                    &&& crate::gui::terms::desk_termed(*old(d), *final(d), old(s).win, caret_turned(), true)
                } else {
                    &&& final(s).last_caret == old(s).last_caret
                    &&& crate::gui::calls::scene_of(*final(d)) == crate::gui::calls::scene_of(*old(d))
                    &&& crate::gui::calls::back_of(*final(d)) == crate::gui::calls::back_of(*old(d))
                }
            },
        },
{
    match term_pop_input(d, s.win) {
        Some(k) => {
            let (t, v) = type_key(&mut s.line, k);
            let next: Next = match t {
                Typed::Done => Next::Execute,
                _ => Next::Again,
            };
            (next, v)
        },
        None => {
            proof {
                match crate::gui::calls::scene_of(*old(d)) {
                    None => {},
                    Some(sc) => lemma_no_key(sc, s.win),
                }
            }
            if now >= s.last_caret && now - s.last_caret >= CARET_TICKS {
                s.last_caret = now;
                term_caret_tick(d, s.win);
            }
            (Next::Sleep, nothing())
        },
    }
}

/// After a line was executed: the session ends if that closed its window;
/// else there is a new line.
pub fn session_executed(d: &Option<Desk>, s: &mut Session) -> (r: (Next, Vec<Out>))
    ensures
        final(s).win == old(s).win && final(s).last_caret == old(s).last_caret,
        final(s).line@.len() == 0,
        window_gone(*d, old(s).win) ==> r.0 == Next::Exit(0) && crate::console::outs(r.1@) == Seq::<OutV>::empty(),
        !window_gone(*d, old(s).win) ==> r.0 == Next::Again && crate::console::outs(r.1@)
            == crate::shell::edit::prompt_lines(),
{
    s.line = Vec::new();
    if term_closed(d, s.win) {
        (Next::Exit(0), nothing())
    } else {
        (Next::Again, prompt())
    }
}

/// The window of a session is closed, or the desktop is gone.
pub open spec fn window_gone(d: Option<Desk>, win: u32) -> bool {
    match crate::gui::calls::scene_of(d) {
        None => true,
        Some(sc) => crate::gui::terms::term_at(sc, win) is None,
    }
}

/// A session ends when its window is closed.
pub fn session_check(d: &Option<Desk>, s: &Session) -> (r: Next)
    ensures
        r == if window_gone(*d, s.win) {
            Next::Exit(0)
        } else {
            Next::Again
        },
{
    if term_closed(d, s.win) {
        Next::Exit(0)
    } else {
        Next::Again
    }
}

} // verus!
