//! Terminal windows, and what happens to windows when a task ends.

use vstd::prelude::*;

use crate::gui::actions::open_win;
use crate::gui::calls::{place, take_slot, Desk};
use crate::gui::rect::Rect;
use crate::gui::scene::{half, Kind, Scene, SceneV, Win, WinV, MONITOR, TERM_H, TERM_W};
use crate::gui::term_state::{TermState, TermV};

verus! {

// ---------------------------------------------------------------------------
// The end of a task
// ---------------------------------------------------------------------------
/// The windows of a task closed, from slot `i` on, and whether there was one.
pub open spec fn exit_closes(sc: SceneV, pid: u64, i: int, any: bool) -> (SceneV, bool)
    decreases sc.wins.len() - i,
{
    if i < 0 || i >= sc.wins.len() {
        (sc, any)
    } else {
        let w = sc.wins[i];
        if w.kind == Kind::User && w.open && w.owner == pid {
            exit_closes(
                sc.with_win(i, WinV { open: false, buf: Seq::empty(), ..w }).with_dirty_win(i),
                pid,
                i + 1,
                true,
            )
        } else if w.kind == Kind::Term && w.open && w.owner == pid {
            exit_closes(
                sc.with_win(i, WinV { open: false, term: TermV { input: Seq::empty(), ..w.term }, ..w }).with_dirty_win(
                    i,
                ),
                pid,
                i + 1,
                true,
            )
        } else {
            exit_closes(sc, pid, i + 1, any)
        }
    }
}

pub open spec fn exit_spec(sc: SceneV, pid: u64) -> SceneV {
    let (s, any) = exit_closes(sc, pid, 0, false);
    if any {
        s.with_dirty(s.taskbar())
    } else {
        s
    }
}

fn close_term(sc: &mut Scene, i: usize)
    requires
        old(sc)@.wf(),
        i < old(sc).wins@.len(),
    ensures
        final(sc)@.wf(),
        final(sc)@ == term_shut(old(sc)@, i as int),
{
    assert(sc@.wins[i as int] == sc.wins@[i as int]@);
    assert(sc@.wins[i as int].wf());
    sc.wins[i].open = false;
    sc.wins[i].term.input = Vec::new();
    assert(sc@.wins =~= old(sc)@.wins.update(
        i as int,
        WinV {
            open: false,
            term: TermV { input: Seq::empty(), ..old(sc)@.wins[i as int].term },
            ..old(sc)@.wins[i as int]
        },
    ));
    sc.dirty_win(i);
}

/// A terminal window closed; its keystrokes are dropped.
pub open spec fn term_shut(sc: SceneV, i: int) -> SceneV {
    let w = sc.wins[i];
    sc.with_win(i, WinV { open: false, term: TermV { input: Seq::empty(), ..w.term }, ..w }).with_dirty_win(i)
}

fn close_all(sc: &mut Scene, pid: u64)
    requires
        old(sc)@.wf(),
    ensures
        final(sc)@.wf(),
        final(sc).w == old(sc).w && final(sc).h == old(sc).h,
        final(sc)@ == exit_spec(old(sc)@, pid),
{
    let n: usize = sc.wins.len();
    let mut any: bool = false;
    let mut i: usize = 0;
    while i < n
        invariant
            i <= n,
            n == sc.wins@.len(),
            sc@.wf(),
            sc.w == old(sc).w && sc.h == old(sc).h,
            exit_closes(sc@, pid, i as int, any) == exit_closes(old(sc)@, pid, 0, false),
        decreases n - i,
    {
        assert(sc@.wins[i as int] == sc.wins@[i as int]@);
        assert(sc@.wins[i as int].wf());
        if sc.wins[i].open && sc.wins[i].owner == pid {
            if sc.wins[i].kind == Kind::User {
                let ghost s0 = sc@;
                sc.wins[i].open = false;
                sc.wins[i].buf = Vec::new();
                assert(sc@.wins =~= s0.wins.update(
                    i as int,
                    WinV { open: false, buf: Seq::empty(), ..s0.wins[i as int] },
                ));
                sc.dirty_win(i);
                any = true;
            } else if sc.wins[i].kind == Kind::Term {
                close_term(sc, i);
                any = true;
            }
        }
        i = i + 1;
    }
    if any {
        let t: Rect = sc.taskbar_rect();
        sc.dirty_rect(t);
    }
}

/// A task that ended takes its windows with it.
pub fn on_task_exit(d: &mut Option<Desk>, pid: u64)
    requires
        crate::gui::calls::desk_ok(*old(d)),
    ensures
        crate::gui::calls::desk_ok(*final(d)),
        crate::gui::calls::back_of(*final(d)) == crate::gui::calls::back_of(*old(d)),
        match crate::gui::calls::scene_of(*old(d)) {
            None => crate::gui::calls::scene_of(*final(d)) is None,
            Some(sc) => crate::gui::calls::scene_of(*final(d)) == Some(exit_spec(sc, pid)),
        },
{
    match d {
        None => {},
        Some(x) => close_all(&mut x.sc, pid),
    }
}

// ---------------------------------------------------------------------------
// Terminals
// ---------------------------------------------------------------------------
/// The window of a new terminal: next to the monitor or in the middle, and
/// further on for each that is open.
pub open spec fn term_win(sc: SceneV, base: WinV, id: u32, pid: u64) -> WinV {
    let m = sc.wins[MONITOR as int];
    let n = sc.kind_count(Kind::Term, sc.wins.len() as int);
    WinV {
        id,
        owner: pid,
        title: "terminal"@,
        x: (26 * n + if m.open {
            m.x + 44
        } else {
            crate::gui::scene::halved(sc.w - TERM_W)
        }) as i32,
        y: (26 * n + if m.open {
            m.y + 40
        } else {
            crate::gui::scene::halved(sc.taskbar_y() - TERM_H) - 20
        }) as i32,
        w: TERM_W,
        h: TERM_H,
        open: true,
        minimized: false,
        ev: Seq::empty(),
        term: TermV { cols: 56, ..crate::gui::term_state::empty_term() },
        ..base
    }
}

pub open spec fn term_open_spec(sc: SceneV, pid: u64) -> (SceneV, Option<u32>) {
    match crate::gui::calls::slot_for(sc, Kind::Term) {
        None => (sc, None),
        Some((s, i)) => {
            let id = sc.s.next_id.wrapping_add(1);
            (crate::gui::calls::placed(s, i, term_win(s, s.wins[i as int], id, pid)), Some(id))
        },
    }
}

fn open_term(sc: &mut Scene, pid: u64) -> (r: Option<u32>)
    requires
        old(sc)@.wf(),
    ensures
        final(sc)@.wf(),
        (final(sc)@, r) == term_open_spec(old(sc)@, pid),
{
    let slot: usize = match take_slot(sc, Kind::Term) {
        None => {
            return None;
        },
        Some(i) => i,
    };
    let ghost s1 = sc@;
    assert(sc@.wins[MONITOR as int] == sc.wins@[MONITOR as int]@);
    let (mut x, mut y) = if sc.wins[MONITOR].open {
        (sc.wins[MONITOR].x + 44, sc.wins[MONITOR].y + 40)
    } else {
        (half(sc.w as i32 - TERM_W), half(sc.taskbar_y() - TERM_H) - 20)
    };
    let (_all, n) = sc.count_open(Kind::Term);
    x = x + 26 * (n as i32);
    y = y + 26 * (n as i32);
    let id: u32 = sc.s.next_id.wrapping_add(1);
    assert(sc@.wins[slot as int] == sc.wins@[slot as int]@);
    let mut buf: Vec<u32> = Vec::new();
    core::mem::swap(&mut buf, &mut sc.wins[slot].buf);
    let mut term = TermState::empty();
    term.cols = 56;
    let win = Win {
        id,
        kind: Kind::Term,
        owner: pid,
        title: "terminal".to_owned(),
        x,
        y,
        w: TERM_W,
        h: TERM_H,
        open: true,
        minimized: false,
        buf,
        ev: Vec::new(),
        term,
    };
    assert(win@ =~= term_win(s1, s1.wins[slot as int], id, pid));
    assert(sc@.wins =~= s1.wins.update(slot as int, WinV { buf: Seq::empty(), ..s1.wins[slot as int] }));
    place(sc, slot, win);
    assert(sc@ =~= crate::gui::calls::placed(s1, slot, win@));
    Some(id)
}

/// Opens a terminal window for a session: its number.
pub fn term_open_for(d: &mut Option<Desk>, pid: u64) -> (r: Option<u32>)
    requires
        crate::gui::calls::desk_ok(*old(d)),
    ensures
        crate::gui::calls::desk_ok(*final(d)),
        crate::gui::calls::back_of(*final(d)) == crate::gui::calls::back_of(*old(d)),
        match crate::gui::calls::scene_of(*old(d)) {
            None => r is None && crate::gui::calls::scene_of(*final(d)) is None,
            Some(sc) => {
                let (s, x) = term_open_spec(sc, pid);
                crate::gui::calls::scene_of(*final(d)) == Some(s) && r == x
            },
        },
{
    match d {
        None => None,
        Some(x) => open_term(&mut x.sc, pid),
    }
}

/// An open terminal window by its number.
pub open spec fn term_at(sc: SceneV, id: u32) -> Option<int> {
    match crate::seqs::first(sc.wins, SceneV::has_id(id)) {
        Some(i) if sc.wins[i].kind == Kind::Term && sc.wins[i].open => Some(i),
        _ => None,
    }
}

fn term_slot(sc: &Scene, id: u32) -> (r: Option<usize>)
    ensures
        match (r, term_at(sc@, id)) {
            (Some(i), Some(j)) => i == j && i < sc.wins@.len(),
            (None, None) => true,
            _ => false,
        },
{
    match sc.find_by_id(id) {
        None => None,
        Some(i) => {
            assert(sc@.wins[i as int] == sc.wins@[i as int]@);
            if sc.wins[i].kind == Kind::Term && sc.wins[i].open {
                Some(i)
            } else {
                None
            }
        },
    }
}

/// A scene with the terminal of a window changed; with `show`, the window has
/// to be drawn again. Without such a window nothing changes.
pub open spec fn termed(sc: SceneV, id: u32, f: spec_fn(TermV) -> TermV, show: bool) -> SceneV {
    match term_at(sc, id) {
        None => sc,
        Some(i) => {
            let s = sc.with_win(i, WinV { term: f(sc.wins[i].term), ..sc.wins[i] });
            if show {
                s.with_dirty_win(i)
            } else {
                s
            }
        },
    }
}

/// What a call on a terminal leaves of the desktop.
pub open spec fn desk_termed(a: Option<Desk>, b: Option<Desk>, id: u32, f: spec_fn(TermV) -> TermV, show: bool) -> bool {
    &&& crate::gui::calls::desk_ok(b)
    &&& crate::gui::calls::back_of(b) == crate::gui::calls::back_of(a)
    &&& match crate::gui::calls::scene_of(a) {
        None => crate::gui::calls::scene_of(b) is None,
        Some(sc) => crate::gui::calls::scene_of(b) == Some(termed(sc, id, f, show)),
    }
}

/// Writes into a terminal.
pub fn term_feed(d: &mut Option<Desk>, id: u32, s: &str)
    requires
        crate::gui::calls::desk_ok(*old(d)),
    ensures
        desk_termed(*old(d), *final(d), id, |t: TermV| t.fed_all(vstd::utf8::encode_utf8(s@), 0), true),
{
    match d {
        None => {},
        Some(x) => {
            match term_slot(&x.sc, id) {
                None => {},
                Some(i) => {
                    let ghost s0 = x.sc@;
                    assert(s0.wins[i as int] == x.sc.wins@[i as int]@);
                    assert(s0.wins[i as int].wf());
                    x.sc.wins[i].term.feed(s);
                    assert(x.sc@.wins =~= s0.wins.update(
                        i as int,
                        WinV { term: x.sc.wins@[i as int].term@, ..s0.wins[i as int] },
                    ));
                    x.sc.dirty_win(i);
                },
            }
        },
    }
}

/// Sets the color of new characters.
pub fn term_set_color(d: &mut Option<Desk>, id: u32, color: u8)
    requires
        crate::gui::calls::desk_ok(*old(d)),
    ensures
        desk_termed(
            *old(d),
            *final(d),
            id,
            |t: TermV|
                TermV {
                    fg: if color < 15 {
                        color
                    } else {
                        15
                    },
                    ..t
                },
            false,
        ),
{
    match d {
        None => {},
        Some(x) => {
            match term_slot(&x.sc, id) {
                None => {},
                Some(i) => {
                    let ghost s0 = x.sc@;
                    assert(s0.wins[i as int] == x.sc.wins@[i as int]@);
                    assert(s0.wins[i as int].wf());
                    x.sc.wins[i].term.fg = if color < 15 {
                        color
                    } else {
                        15
                    };
                    assert(x.sc@.wins =~= s0.wins.update(
                        i as int,
                        WinV { term: x.sc.wins@[i as int].term@, ..s0.wins[i as int] },
                    ));
                },
            }
        },
    }
}

/// Empties a terminal.
pub fn term_clear(d: &mut Option<Desk>, id: u32)
    requires
        crate::gui::calls::desk_ok(*old(d)),
    ensures
        desk_termed(*old(d), *final(d), id, |t: TermV| TermV { lines: Seq::empty(), cur: Seq::empty(), ..t }, true),
{
    match d {
        None => {},
        Some(x) => {
            match term_slot(&x.sc, id) {
                None => {},
                Some(i) => {
                    let ghost s0 = x.sc@;
                    assert(s0.wins[i as int] == x.sc.wins@[i as int]@);
                    assert(s0.wins[i as int].wf());
                    x.sc.wins[i].term.lines = Vec::new();
                    x.sc.wins[i].term.cur = Vec::new();
                    assert(x.sc.wins@[i as int].term@ =~= TermV {
                        lines: Seq::empty(),
                        cur: Seq::empty(),
                        ..s0.wins[i as int].term
                    });
                    assert(x.sc@.wins =~= s0.wins.update(
                        i as int,
                        WinV { term: x.sc.wins@[i as int].term@, ..s0.wins[i as int] },
                    ));
                    x.sc.dirty_win(i);
                },
            }
        },
    }
}

/// Takes the last character of the line away.
pub fn term_backspace(d: &mut Option<Desk>, id: u32)
    requires
        crate::gui::calls::desk_ok(*old(d)),
    ensures
        desk_termed(*old(d), *final(d), id, |t: TermV| t.popped(), true),
{
    match d {
        None => {},
        Some(x) => {
            match term_slot(&x.sc, id) {
                None => {},
                Some(i) => {
                    let ghost s0 = x.sc@;
                    assert(s0.wins[i as int] == x.sc.wins@[i as int]@);
                    assert(s0.wins[i as int].wf());
                    x.sc.wins[i].term.backspace();
                    assert(x.sc@.wins =~= s0.wins.update(
                        i as int,
                        WinV { term: x.sc.wins@[i as int].term@, ..s0.wins[i as int] },
                    ));
                    x.sc.dirty_win(i);
                },
            }
        },
    }
}

/// Shows or hides the caret.
pub fn term_caret_tick(d: &mut Option<Desk>, id: u32)
    requires
        crate::gui::calls::desk_ok(*old(d)),
    ensures
        desk_termed(*old(d), *final(d), id, |t: TermV| TermV { caret: !t.caret, ..t }, true),
{
    match d {
        None => {},
        Some(x) => {
            match term_slot(&x.sc, id) {
                None => {},
                Some(i) => {
                    let ghost s0 = x.sc@;
                    assert(s0.wins[i as int] == x.sc.wins@[i as int]@);
                    assert(s0.wins[i as int].wf());
                    x.sc.wins[i].term.caret = !x.sc.wins[i].term.caret;
                    assert(x.sc@.wins =~= s0.wins.update(
                        i as int,
                        WinV { term: x.sc.wins@[i as int].term@, ..s0.wins[i as int] },
                    ));
                    x.sc.dirty_win(i);
                },
            }
        },
    }
}

/// The next keystroke of a terminal.
pub open spec fn next_key(sc: SceneV, id: u32) -> Option<u8> {
    match term_at(sc, id) {
        Some(i) if sc.wins[i].term.input.len() > 0 => Some(sc.wins[i].term.input[0]),
        _ => None,
    }
}

/// Takes the next keystroke of a terminal.
pub fn term_pop_input(d: &mut Option<Desk>, id: u32) -> (r: Option<u8>)
    requires
        crate::gui::calls::desk_ok(*old(d)),
    ensures
        desk_termed(
            *old(d),
            *final(d),
            id,
            |t: TermV|
                if t.input.len() > 0 {
                    TermV { input: t.input.skip(1), ..t }
                } else {
                    t
                },
            false,
        ),
        r == match crate::gui::calls::scene_of(*old(d)) {
            None => None,
            Some(sc) => next_key(sc, id),
        },
{
    match d {
        None => None,
        Some(x) => {
            match term_slot(&x.sc, id) {
                None => None,
                Some(i) => {
                    let ghost s0 = x.sc@;
                    assert(s0.wins[i as int] == x.sc.wins@[i as int]@);
                    assert(s0.wins[i as int].wf());
                    if x.sc.wins[i].term.input.len() == 0 {
                        assert(s0.wins =~= s0.wins.update(i as int, s0.wins[i as int]));
                        return None;
                    }
                    let k: u8 = x.sc.wins[i].term.input.remove(0);
                    assert(x.sc.wins@[i as int].term@ =~= TermV {
                        input: s0.wins[i as int].term.input.skip(1),
                        ..s0.wins[i as int].term
                    });
                    assert(x.sc@.wins =~= s0.wins.update(
                        i as int,
                        WinV { term: x.sc.wins@[i as int].term@, ..s0.wins[i as int] },
                    ));
                    Some(k)
                },
            }
        },
    }
}

/// Whether a terminal window is gone.
pub fn term_closed(d: &Option<Desk>, id: u32) -> (r: bool)
    ensures
        r == match crate::gui::calls::scene_of(*d) {
            None => true,
            Some(sc) => term_at(sc, id) is None,
        },
{
    match d {
        None => true,
        Some(x) => term_slot(&x.sc, id).is_none(),
    }
}

/// Closes a terminal window.
pub fn term_close(d: &mut Option<Desk>, id: u32)
    requires
        crate::gui::calls::desk_ok(*old(d)),
    ensures
        crate::gui::calls::desk_ok(*final(d)),
        crate::gui::calls::back_of(*final(d)) == crate::gui::calls::back_of(*old(d)),
        match crate::gui::calls::scene_of(*old(d)) {
            None => crate::gui::calls::scene_of(*final(d)) is None,
            Some(sc) => crate::gui::calls::scene_of(*final(d)) == Some(
                match term_at(sc, id) {
                    None => sc,
                    Some(i) => {
                        let s = term_shut(sc, i);
                        s.with_dirty(s.taskbar())
                    },
                },
            ),
        },
{
    match d {
        None => {},
        Some(x) => {
            match term_slot(&x.sc, id) {
                None => {},
                Some(i) => {
                    close_term(&mut x.sc, i);
                    let t: Rect = x.sc.taskbar_rect();
                    x.sc.dirty_rect(t);
                },
            }
        },
    }
}

/// Opens the system monitor, or brings it back.
pub fn desktop_open_monitor(d: &mut Option<Desk>)
    requires
        crate::gui::calls::desk_ok(*old(d)),
    ensures
        crate::gui::calls::desk_ok(*final(d)),
        crate::gui::calls::back_of(*final(d)) == crate::gui::calls::back_of(*old(d)),
        match crate::gui::calls::scene_of(*old(d)) {
            None => crate::gui::calls::scene_of(*final(d)) is None,
            Some(sc) => crate::gui::calls::scene_of(*final(d)) == Some(crate::gui::actions::open_spec(sc, MONITOR)),
        },
{
    match d {
        None => {},
        Some(x) => open_win(&mut x.sc, MONITOR),
    }
}

} // verus!
