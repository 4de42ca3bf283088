//! What the person at the desktop, and the programs on it, may rely on.

use vstd::prelude::*;

use crate::gui::actions::Click;
use crate::gui::scene::{Hands, Kind, Reason, SceneV, WinV};

verus! {

/// The window in front: the last in the order of those that show.
pub open spec fn in_front(sc: SceneV, p: int) -> bool {
    &&& 0 <= p < sc.z.len()
    &&& sc.wins[sc.z[p] as int].open
    &&& !sc.wins[sc.z[p] as int].minimized
    &&& forall|j: int|
        p < j < sc.z.len() ==> !((#[trigger] sc.wins[sc.z[j] as int]).open && !sc.wins[sc.z[j] as int].minimized)
}

/// The pointer is in the rectangle.
pub open spec fn at(sc: SceneV, x: int, y: int, w: int, h: int) -> bool {
    x <= sc.s.cur_x < x + w && y <= sc.s.cur_y < y + h
}

/// The pointer is over the desk, above the bar of 28 rows, and no menu is open.
pub open spec fn over_the_desk(sc: SceneV) -> bool {
    !sc.s.menu_open && sc.s.cur_y < sc.h - 28
}

pub proof fn lemma_in_front(sc: SceneV, p: int, n: int)
    requires
        in_front(sc, p),
        p < n <= sc.z.len(),
    ensures
        sc.active_below(n) == Some(sc.z[p]),
        ({
            let w = sc.wins[sc.z[p] as int];
            at(sc, w.x as int, w.y as int, w.w as int, w.h as int)
        }) ==> crate::gui::actions::hit_below(sc, n) == Some(sc.z[p]),
    decreases n,
{
    if n > p + 1 {
        assert(!(sc.wins[sc.z[n - 1] as int].open && !sc.wins[sc.z[n - 1] as int].minimized));
        lemma_in_front(sc, p, n - 1);
    }
}

/// The event at the end of the queue of a window: a new one behind those that
/// wait, of which 32 are kept.
pub open spec fn told(before: WinV, after: WinV, kind: int, a: int, b: int) -> bool {
    let e = after.ev.last();
    &&& after.ev.len() > 0
    &&& e / 0x1_0000_0000 == kind
    &&& e / 0x1_0000 % 0x1_0000 == a
    &&& e % 0x1_0000 == b
    &&& before.ev.len() < 32 ==> after.ev == before.ev.push(e)
    &&& before.ev.len() >= 32 ==> after.ev == before.ev.skip(1).push(e)
}

/// A click inside a program's window names the point of the canvas under the
/// pointer. The canvas starts 2 columns right of and 23 rows below the corner
/// of the window; the event unpacks to 2, the column and the row. No other
/// window hears of it, and nothing else happens.
pub proof fn law_click_names_the_point(sc: SceneV, p: int)
    requires
        sc.wf(),
        over_the_desk(sc),
        in_front(sc, p),
        sc.wins[sc.z[p] as int].kind == Kind::User,
        ({
            let w = sc.wins[sc.z[p] as int];
            &&& at(sc, w.x + 2, w.y + 23, w.w - 4, w.h - 24)
            &&& !at(sc, w.x + w.w - 14, w.y + w.h - 14, 14, 14)
        }),
    ensures
        ({
            let i = sc.z[p] as int;
            let w = sc.wins[i];
            let (r, k) = crate::gui::actions::click_spec(sc);
            &&& k == Click::Nothing
            &&& told(w, r.wins[i], 2, sc.s.cur_x - (w.x + 2), sc.s.cur_y - (w.y + 23))
            &&& r == (SceneV { wins: sc.wins.update(i, WinV { ev: r.wins[i].ev, ..w }), ..sc })
        }),
{
    lemma_in_front(sc, p, sc.z.len() as int);
    let w = sc.wins[sc.z[p] as int];
    assert(w.wf());
    crate::gui::actions::law_event_round_trip(2, sc.s.cur_x - (w.x + 2), sc.s.cur_y - (w.y + 23));
}

/// Moving a window and the pointer together leaves the click what it was: two
/// clicks at the same place of a window's canvas give the same event, wherever
/// the windows stand.
pub proof fn law_click_moves_with_the_window(a: SceneV, p: int, b: SceneV, q: int)
    requires
        a.wf(),
        b.wf(),
        over_the_desk(a),
        over_the_desk(b),
        in_front(a, p),
        in_front(b, q),
        ({
            let v = a.wins[a.z[p] as int];
            let w = b.wins[b.z[q] as int];
            &&& v.kind == Kind::User && w.kind == Kind::User
            &&& v.w == w.w && v.h == w.h
            &&& a.s.cur_x - v.x == b.s.cur_x - w.x
            &&& a.s.cur_y - v.y == b.s.cur_y - w.y
            &&& at(a, v.x + 2, v.y + 23, v.w - 4, v.h - 24)
            &&& !at(a, v.x + v.w - 14, v.y + v.h - 14, 14, 14)
        }),
    ensures
        crate::gui::actions::click_spec(a).0.wins[a.z[p] as int].ev.last() == crate::gui::actions::click_spec(
            b,
        ).0.wins[b.z[q] as int].ev.last(),
{
    law_click_names_the_point(a, p);
    law_click_names_the_point(b, q);
}

/// A program reads its events in the order in which they came, each once; with
/// none waiting it reads 0, and of a window that is not its own it is refused.
pub proof fn law_events_come_in_order(sc: SceneV, pid: u64, id: u64, i: int)
    requires
        id < 0x1_0000_0000,
        0 <= i < sc.wins.len(),
        sc.wins[i].id == id,
        forall|j: int| 0 <= j < i ==> (#[trigger] sc.wins[j]).id != id,
    ensures
        ({
            let w = sc.wins[i];
            let (r, e) = crate::gui::calls::event_call(sc, pid, id);
            if w.owner != pid {
                r == sc && e == 0xFFFF_FFFF_FFFF_FFFF
            } else if w.ev.len() == 0 {
                r == sc && e == 0
            } else {
                &&& e == w.ev[0]
                &&& r == (SceneV { wins: sc.wins.update(i, r.wins[i]), ..sc })
                &&& r.wins[i] == (WinV { ev: r.wins[i].ev, ..w })
                &&& seq![e] + r.wins[i].ev == w.ev
            }
        }),
{
    lemma_found(sc, id, i);
    let w = sc.wins[i];
    if w.ev.len() > 0 {
        assert(seq![w.ev[0]] + w.ev.skip(1) =~= w.ev);
    }
}

pub proof fn lemma_found(sc: SceneV, id: u64, i: int)
    requires
        id < 0x1_0000_0000,
        0 <= i < sc.wins.len(),
        sc.wins[i].id == id,
        forall|j: int| 0 <= j < i ==> (#[trigger] sc.wins[j]).id != id,
    ensures
        crate::gui::calls::win_at(sc, id) == Some(i),
{
    let q = SceneV::has_id((id % 0x1_0000_0000) as u32);
    assert(q(sc.wins[i]));
    assert forall|j: int| 0 <= j < i implies !q(#[trigger] sc.wins[j]) by {
        assert(sc.wins[j].id != id);
    }
    crate::seqs::lemma_first_is(sc.wins, q, 0, i);
}

// ---------------------------------------------------------------------------
// Windows
// ---------------------------------------------------------------------------
/// The close button of the window in front closes it, a program is told so
/// (event 1), and with the last window the desktop ends.
#[verifier::spinoff_prover]
pub proof fn law_close_button(sc: SceneV, p: int)
    requires
        sc.wf(),
        over_the_desk(sc),
        in_front(sc, p),
        ({
            let w = sc.wins[sc.z[p] as int];
            &&& w.w >= 140 && w.h >= 90
            &&& at(sc, w.x + w.w - 24, w.y + 4, 18, 14)
        }),
    ensures
        ({
            let i = sc.z[p] as int;
            let w = sc.wins[i];
            let (r, k) = crate::gui::actions::click_spec(sc);
            &&& !r.wins[i].open
            &&& w.kind == Kind::User ==> told(w, r.wins[i], 1, 0, 0)
            &&& w.kind != Kind::User ==> r.wins[i].ev == w.ev
            &&& forall|j: int| 0 <= j < sc.wins.len() && j != i ==> (#[trigger] r.wins[j]).open == sc.wins[j].open
            &&& (forall|j: int| 0 <= j < sc.wins.len() && j != i ==> !(#[trigger] sc.wins[j]).open) ==> k == Click::End(
                Reason::AllClosed,
            )
            &&& (exists|j: int| 0 <= j < sc.wins.len() && j != i && (#[trigger] sc.wins[j]).open) ==> k
                == Click::Nothing
        }),
{
    lemma_in_front(sc, p, sc.z.len() as int);
    let i = sc.z[p];
    let w = sc.wins[i as int];
    assert(w.wf());
    crate::gui::actions::law_event_round_trip(1, 0, 0);
    let c = sc.with_win(i as int, WinV { open: false, ..w }).with_dirty_win(i as int);
    let d = if w.kind == Kind::User {
        crate::gui::actions::event_spec(c, i as int, crate::gui::actions::packed_ev(1, 0, 0))
    } else {
        c
    };
    assert forall|j: int| 0 <= j < sc.wins.len() && j != i implies #[trigger] d.wins[j] == sc.wins[j] by {}
    if d.any_open() {
        let j = choose|j: int| 0 <= j < d.wins.len() && (#[trigger] d.wins[j]).open;
        assert(j != i && sc.wins[j].open);
        lemma_refocused(d);
    } else {
        assert forall|j: int| 0 <= j < sc.wins.len() && j != i implies !(#[trigger] sc.wins[j]).open by {
            assert(!d.wins[j].open);
        }
    }
}

/// Giving the focus on changes no window but that it shows.
proof fn lemma_refocused(sc: SceneV)
    requires
        sc.z.len() == sc.wins.len(),
        forall|j: int| 0 <= j < sc.z.len() ==> (#[trigger] sc.z[j]) < sc.wins.len(),
    ensures
        ({
            let r = crate::gui::actions::refocused(sc);
            &&& r.wins.len() == sc.wins.len()
            &&& forall|j: int|
                0 <= j < sc.wins.len() ==> #[trigger] r.wins[j] == sc.wins[j]
        }),
{
    if sc.active() is Some {
        let t = sc.active()->Some_0;
        lemma_active_shows(sc, sc.z.len() as int);
        lemma_focused(sc, t);
    }
}

proof fn lemma_active_shows(sc: SceneV, n: int)
    requires
        0 <= n <= sc.z.len(),
        sc.z.len() == sc.wins.len(),
        forall|j: int| 0 <= j < sc.z.len() ==> (#[trigger] sc.z[j]) < sc.wins.len(),
    ensures
        sc.active_below(n) matches Some(t) ==> t < sc.wins.len() && sc.wins[t as int].open && !sc.wins[t as int].minimized,
    decreases n,
{
    if n > 0 {
        lemma_active_shows(sc, n - 1);
    }
}

/// The focus brings a window up and leaves all else of every window alone.
proof fn lemma_focused(sc: SceneV, i: usize)
    requires
        i < sc.wins.len(),
    ensures
        ({
            let r = crate::gui::actions::focus_spec(sc, i);
            &&& r.wins.len() == sc.wins.len()
            &&& r.s == sc.s
            &&& r.wins[i as int] == (WinV { minimized: false, ..sc.wins[i as int] })
            &&& forall|j: int| 0 <= j < sc.wins.len() && j != i ==> #[trigger] r.wins[j] == sc.wins[j]
            &&& r.z.len() > 0 && r.z.last() == i
        }),
{
    let up = SceneV { z: crate::gui::actions::raised(sc.z, i), ..sc }.with_win(
        i as int,
        WinV { minimized: false, ..sc.wins[i as int] },
    );
    lemma_all_dirty(up, 0);
}

proof fn lemma_all_dirty(sc: SceneV, j: int)
    ensures
        ({
            let r = crate::gui::actions::all_dirty(sc, j);
            r.wins == sc.wins && r.z == sc.z && r.s == sc.s && r.w == sc.w && r.h == sc.h
        }),
    decreases sc.wins.len() - j,
{
    if 0 <= j < sc.wins.len() {
        if sc.wins[j].visible() {
            lemma_all_dirty(sc.with_dirty_win(j), j + 1);
        } else {
            lemma_all_dirty(sc, j + 1);
        }
    }
}

/// The minimize button, left of it, hides the window, which stays open.
pub proof fn law_minimize_button(sc: SceneV, p: int)
    requires
        sc.wf(),
        over_the_desk(sc),
        in_front(sc, p),
        ({
            let w = sc.wins[sc.z[p] as int];
            &&& w.w >= 140 && w.h >= 90
            &&& at(sc, w.x + w.w - 42, w.y + 4, 18, 14)
        }),
    ensures
        ({
            let i = sc.z[p] as int;
            let (r, k) = crate::gui::actions::click_spec(sc);
            &&& r.wins[i] == (WinV { minimized: true, ..sc.wins[i] })
            &&& forall|j: int| 0 <= j < sc.wins.len() && j != i ==> #[trigger] r.wins[j] == sc.wins[j]
            &&& k == Click::Nothing
        }),
{
    lemma_in_front(sc, p, sc.z.len() as int);
    let i = sc.z[p];
    let w = sc.wins[i as int];
    assert(w.wf());
    let m = sc.with_win(i as int, WinV { minimized: true, ..w }).with_dirty_win(i as int);
    lemma_refocused(m);
}

/// A click on a window that is not in front brings it there and does nothing
/// else to it; one on no window does nothing.
pub proof fn law_click_raises(sc: SceneV, p: int, q: int)
    requires
        sc.wf(),
        over_the_desk(sc),
        in_front(sc, p),
        0 <= q < p,
        ({
            let w = sc.wins[sc.z[q] as int];
            &&& w.open && !w.minimized
            &&& at(sc, w.x as int, w.y as int, w.w as int, w.h as int)
        }),
        forall|j: int|
            q < j <= p ==> !({
                let v = #[trigger] sc.wins[sc.z[j] as int];
                v.open && !v.minimized && at(sc, v.x as int, v.y as int, v.w as int, v.h as int)
            }),
    ensures
        ({
            let (r, k) = crate::gui::actions::click_spec(sc);
            &&& k == Click::Nothing
            &&& r.wins == sc.wins
            &&& r.z.last() == sc.z[q]
            &&& r.active() == Some(sc.z[q])
        }),
{
    lemma_in_front(sc, p, sc.z.len() as int);
    lemma_hit(sc, q, sc.z.len() as int);
    let i = sc.z[q];
    assert(sc.z[p] != i);
    lemma_focused(sc, i);
    crate::gui::laws::law_focus_gives_the_focus(sc, i);
    let r = crate::gui::actions::click_spec(sc).0;
    assert(r.wins =~= sc.wins);
}

proof fn lemma_hit(sc: SceneV, q: int, n: int)
    requires
        0 <= q < n <= sc.z.len(),
        ({
            let w = sc.wins[sc.z[q] as int];
            &&& w.open && !w.minimized
            &&& at(sc, w.x as int, w.y as int, w.w as int, w.h as int)
        }),
        forall|j: int|
            q < j < n ==> !({
                let v = #[trigger] sc.wins[sc.z[j] as int];
                v.open && !v.minimized && at(sc, v.x as int, v.y as int, v.w as int, v.h as int)
            }),
    ensures
        crate::gui::actions::hit_below(sc, n) == Some(sc.z[q]),
    decreases n,
{
    if n > q + 1 {
        let v = sc.wins[sc.z[n - 1] as int];
        assert(!(v.open && !v.minimized && at(sc, v.x as int, v.y as int, v.w as int, v.h as int)));
        lemma_hit(sc, q, n - 1);
    }
}

/// Dragging: press on the title of the window in front and move the pointer;
/// the window moves as far as the pointer, as long as both stay on the screen.
/// Letting go ends that: the next motion moves the pointer alone.
#[verifier::spinoff_prover]
pub proof fn law_drag_moves_the_window(sc: SceneV, p: int, dx: int, dy: int, ex: int, ey: int)
    requires
        sc.wf(),
        over_the_desk(sc),
        in_front(sc, p),
        !sc.s.prev_left,
        sc.s.dragging is None,
        sc.s.resizing is None,
        sc.s.clicks < u64::MAX && sc.s.moves + 1 < u64::MAX && sc.s.drags < u64::MAX,
        ({
            let w = sc.wins[sc.z[p] as int];
            &&& w.w >= 140 && w.h >= 90
            &&& at(sc, w.x as int, w.y as int, w.w - 42, 22)
            &&& 0 <= w.x + dx && w.x + dx + w.w + 2 <= sc.w
            &&& 0 <= w.y + dy && w.y + dy + w.h + 2 <= sc.h - 28
        }),
        0 <= sc.s.cur_x + dx <= sc.w - 2,
        0 <= sc.s.cur_y + dy <= sc.h - 2,
        dx != 0 || dy != 0,
        ex != 0 || ey != 0,
    ensures
        ({
            let i = sc.z[p] as int;
            let w = sc.wins[i];
            let (a, k) = crate::gui::session::pressed(sc, true);
            let b = crate::gui::session::moved(a, dx, dy);
            let (c, k2) = crate::gui::session::pressed(b, false);
            let d = crate::gui::session::moved(c, ex, ey);
            &&& k == Click::Nothing && k2 == Click::Nothing
            &&& a.wins == sc.wins
            &&& b.wins == sc.wins.update(i, WinV { x: (w.x + dx) as i32, y: (w.y + dy) as i32, ..w })
            &&& b.s.cur_x == sc.s.cur_x + dx && b.s.cur_y == sc.s.cur_y + dy
            &&& c.wins == b.wins && c.s.dragging is None
            &&& d.wins == b.wins
        }),
{
    let q = SceneV { s: Hands { clicks: (sc.s.clicks + 1) as u64, ..sc.s }, ..sc };
    assert(q.wins[q.z[p] as int] == sc.wins[sc.z[p] as int]);
    assert forall|j: int| p < j < q.z.len() implies !((#[trigger] q.wins[q.z[j] as int]).open
        && !q.wins[q.z[j] as int].minimized) by {
        assert(!(sc.wins[sc.z[j] as int].open && !sc.wins[sc.z[j] as int].minimized));
    }
    lemma_in_front(q, p, q.z.len() as int);
    let w = sc.wins[sc.z[p] as int];
    assert(w.wf());
    let (a, k) = crate::gui::session::pressed(sc, true);
    assert(a.s.dragging is Some && a.s.resizing is None);
    let b = crate::gui::session::moved(a, dx, dy);
    assert(b.wins =~= sc.wins.update(
        sc.z[p] as int,
        WinV { x: (w.x + dx) as i32, y: (w.y + dy) as i32, ..w },
    ));
}

/// Resizing: press in the corner of the window in front and move the pointer;
/// the corner follows it, down to 140 by 90 and within the screen. Letting go
/// tells a program its new size (event 4).
#[verifier::spinoff_prover]
pub proof fn law_resize_follows_the_pointer(sc: SceneV, p: int, dx: int, dy: int)
    requires
        sc.wf(),
        over_the_desk(sc),
        in_front(sc, p),
        !sc.s.prev_left,
        sc.s.dragging is None,
        sc.s.resizing is None,
        sc.s.clicks < u64::MAX && sc.s.moves < u64::MAX,
        ({
            let w = sc.wins[sc.z[p] as int];
            &&& w.w >= 140 && w.h >= 90
            &&& at(sc, w.x + w.w - 14, w.y + w.h - 14, 14, 14)
            &&& 140 <= sc.s.cur_x + dx - w.x + 1 <= sc.w - w.x - 2
            &&& 90 <= sc.s.cur_y + dy - w.y + 1 <= sc.h - 28 - w.y - 2
        }),
        0 <= sc.s.cur_x + dx <= sc.w - 2,
        0 <= sc.s.cur_y + dy <= sc.h - 2,
        dx != 0 || dy != 0,
    ensures
        ({
            let i = sc.z[p] as int;
            let w = sc.wins[i];
            let a = crate::gui::session::pressed(sc, true).0;
            let b = crate::gui::session::moved(a, dx, dy);
            let c = crate::gui::session::pressed(b, false).0;
            let v = b.wins[i];
            &&& v.x == w.x && v.y == w.y
            &&& v.x + v.w == b.s.cur_x + 1
            &&& v.y + v.h == b.s.cur_y + 1
            &&& b.s.cur_x == sc.s.cur_x + dx && b.s.cur_y == sc.s.cur_y + dy
            &&& forall|j: int| 0 <= j < sc.wins.len() && j != i ==> #[trigger] b.wins[j] == sc.wins[j]
            &&& w.kind == Kind::User ==> told(v, c.wins[i], 4, v.w as int, v.h as int)
            &&& c.s.resizing is None
        }),
{
    let q = SceneV { s: Hands { clicks: (sc.s.clicks + 1) as u64, ..sc.s }, ..sc };
    assert(q.wins[q.z[p] as int] == sc.wins[sc.z[p] as int]);
    assert forall|j: int| p < j < q.z.len() implies !((#[trigger] q.wins[q.z[j] as int]).open
        && !q.wins[q.z[j] as int].minimized) by {
        assert(!(sc.wins[sc.z[j] as int].open && !sc.wins[sc.z[j] as int].minimized));
    }
    lemma_in_front(q, p, q.z.len() as int);
    let i = sc.z[p] as int;
    let w = sc.wins[i];
    assert(w.wf());
    let (a, k) = crate::gui::session::pressed(sc, true);
    assert(a.s.resizing == Some(sc.z[p]) && a.s.dragging is None);
    let b = crate::gui::session::moved(a, dx, dy);
    let v = b.wins[i];
    crate::gui::actions::law_event_round_trip(4, v.w as int, v.h as int);
}

/// The pointer goes where it is moved, and stays on the screen.
pub proof fn law_pointer_moves(sc: SceneV, dx: int, dy: int)
    requires
        sc.wf(),
        sc.s.moves < u64::MAX,
        sc.s.drags < u64::MAX,
    ensures
        ({
            let r = crate::gui::session::moved(sc, dx, dy);
            &&& 0 <= r.s.cur_x <= sc.w - 2
            &&& 0 <= r.s.cur_y <= sc.h - 2
            &&& 0 <= sc.s.cur_x + dx <= sc.w - 2 ==> r.s.cur_x == sc.s.cur_x + dx
            &&& 0 <= sc.s.cur_y + dy <= sc.h - 2 ==> r.s.cur_y == sc.s.cur_y + dy
            &&& sc.s.dragging is None && sc.s.resizing is None ==> r.wins == sc.wins && r.z == sc.z
        }),
{
}

/// A key goes to the window in front: a program reads it as event 3, a
/// terminal at the end of its input, of which it keeps 128 bytes.
pub proof fn law_key_goes_to_the_front(sc: SceneV, p: int, k: u8)
    requires
        sc.wf(),
        in_front(sc, p),
        sc.s.keys < u64::MAX,
    ensures
        ({
            let i = sc.z[p] as int;
            let w = sc.wins[i];
            let r = crate::gui::session::key_given(sc, k);
            &&& w.kind == Kind::User ==> told(w, r.wins[i], 3, k as int, 0)
            &&& w.kind == Kind::Term && w.term.input.len() < 128 ==> r.wins[i].term.input == w.term.input.push(k)
            &&& w.kind == Kind::Term && w.term.input.len() >= 128 ==> r.wins[i] == w
            &&& forall|j: int| 0 <= j < sc.wins.len() && j != i ==> #[trigger] r.wins[j] == sc.wins[j]
        }),
{
    lemma_in_front(sc, p, sc.z.len() as int);
    assert(sc.wins[sc.z[p] as int].wf());
    crate::gui::actions::law_event_round_trip(3, k as int, 0);
}

/// The start button opens the menu, a click beside it closes it, and its
/// entries, from the top: a terminal, the monitor, the about window, the
/// demonstration, and after a gap reboot and halt.
pub proof fn law_menu(sc: SceneV, k: int)
    requires
        sc.wf(),
        0 <= k < 6,
    ensures
        ({
            let (r, c) = crate::gui::actions::click_spec(sc);
            let y = sc.h - 160 + 20 * k + if k < 4 {
                0int
            } else {
                6
            };
            &&& !sc.s.menu_open && at(sc, 6, sc.h - 24, 56, 20) ==> r.s.menu_open && r.wins == sc.wins && c
                == Click::Nothing
            &&& sc.s.menu_open && at(sc, 8, y, 186, 20) ==> {
                &&& !r.s.menu_open
                &&& c == (if k == 0 {
                    Click::Terminal
                } else if k == 3 {
                    Click::Demo
                } else if k == 4 {
                    Click::End(Reason::Reboot)
                } else if k == 5 {
                    Click::End(Reason::Halt)
                } else {
                    Click::Nothing
                })
                &&& k == 1 ==> r.wins[0].open && !r.wins[0].minimized
                &&& k == 2 ==> r.wins[1].open && !r.wins[1].minimized
            }
            &&& sc.s.menu_open && !at(sc, 6, sc.h - 164, 194, 136) ==> !r.s.menu_open && r.wins == sc.wins && c
                == Click::Nothing
        }),
{
    reveal_with_fuel(SceneV::item_from, 8);
    let m = crate::gui::actions::menu_closed(sc);
    lemma_opened(m, 0);
    lemma_opened(m, 1);
}

proof fn lemma_opened(sc: SceneV, k: usize)
    requires
        k < 2,
        2 <= sc.wins.len(),
    ensures
        ({
            let r = crate::gui::actions::open_spec(sc, k);
            r.wins[k as int].open && !r.wins[k as int].minimized && r.s == sc.s
        }),
{
    let w = sc.wins[k as int];
    if w.open {
        lemma_focused(sc.with_win(k as int, WinV { minimized: false, ..w }), k);
    } else {
        let a = sc.with_win(k as int, WinV { open: true, ..w });
        let b = if k == 1 {
            a.with_win(1, crate::gui::actions::about_placed(a))
        } else {
            a
        };
        lemma_focused(b.with_win(k as int, b.win_clamped(b.wins[k as int])), k);
    }
}

// ---------------------------------------------------------------------------
// What programs draw
// ---------------------------------------------------------------------------
/// A coordinate in sixteen bits: the upper half of the numbers is below zero.
pub open spec fn signed(v: int) -> int {
    if v < 0x8000 {
        v
    } else {
        v - 0x1_0000
    }
}

/// A rectangle that a program draws: the pixels of its canvas inside it have
/// the color, all others stay; no other window changes. Only the owner may.
pub proof fn law_drawn_rectangle(sc: SceneV, pid: u64, id: u64, i: int, xy: u64, wh: u64, col: u32, x: int, y: int)
    requires
        sc.wf(),
        id < 0x1_0000_0000,
        0 <= i < sc.wins.len(),
        sc.wins[i].id == id,
        forall|j: int| 0 <= j < i ==> (#[trigger] sc.wins[j]).id != id,
        sc.wins[i].open,
        sc.wins[i].w > 4 && sc.wins[i].h > 24,
        sc.wins[i].buf.len() == (sc.wins[i].w - 4) * (sc.wins[i].h - 24),
        xy < 0x1_0000_0000,
        wh < 0x1_0000_0000,
        0 <= x < sc.wins[i].w - 4,
        0 <= y < sc.wins[i].h - 24,
    ensures
        ({
            let w = sc.wins[i];
            let (r, c) = crate::gui::calls::rect_call(sc, pid, id, xy, wh, col);
            if w.owner != pid {
                r == sc && c == -1
            } else {
                let (x0, y0) = (signed((xy % 0x1_0000) as int), signed((xy / 0x1_0000) as int));
                let inside = x0 <= x < x0 + wh % 0x1_0000 && y0 <= y < y0 + wh / 0x1_0000;
                &&& c == 0
                &&& r.wins[i].buf.len() == w.buf.len()
                &&& r.wins[i].buf[y * (w.w - 4) + x] == if inside {
                    col
                } else {
                    w.buf[y * (w.w - 4) + x]
                }
                &&& forall|j: int| 0 <= j < sc.wins.len() && j != i ==> #[trigger] r.wins[j] == sc.wins[j]
            }
        }),
{
    lemma_found(sc, id, i);
    let w = sc.wins[i];
    let (cw, ch) = (w.w - 4, w.h - 24);
    if w.owner == pid {
        let k = y * cw + x;
        assert(0 <= k < cw * ch && k / cw == y && k % cw == x) by (nonlinear_arith)
            requires
                k == y * cw + x,
                0 <= x < cw,
                0 <= y < ch,
        ;
    }
}

// ---------------------------------------------------------------------------
// The order of the windows, and their buttons
// ---------------------------------------------------------------------------
proof fn lemma_without(z: Seq<usize>, q: int, n: int)
    requires
        0 <= q < z.len(),
        0 <= n <= z.len(),
        forall|j: int| 0 <= j < z.len() && j != q ==> #[trigger] z[j] != z[q],
    ensures
        ({
            let v = crate::gui::actions::without(z, z[q], n);
            &&& v.len() == if n <= q {
                n
            } else {
                n - 1
            }
            &&& forall|j: int|
                0 <= j < v.len() ==> #[trigger] v[j] == if j < q {
                    z[j]
                } else {
                    z[j + 1]
                }
        }),
    decreases n,
{
    if n > 0 {
        lemma_without(z, q, n - 1);
    }
}

/// A window that is raised is the last of the order; the others keep theirs.
pub proof fn law_raise_keeps_the_order(z: Seq<usize>, q: int, p: int)
    requires
        0 <= q < z.len(),
        forall|j: int| 0 <= j < z.len() && j != q ==> #[trigger] z[j] != z[q],
        0 <= p < z.len(),
    ensures
        ({
            let v = crate::gui::actions::raised(z, z[q]);
            &&& v.len() == z.len()
            &&& v[p] == if p < q {
                z[p]
            } else if p < z.len() - 1 {
                z[p + 1]
            } else {
                z[q]
            }
        }),
{
    lemma_without(z, q, z.len() as int);
}

/// The number of open windows in the slots below `i`.
pub open spec fn open_before(sc: SceneV, i: int) -> int
    decreases i,
{
    if i <= 0 {
        0
    } else {
        open_before(sc, i - 1) + if sc.wins[i - 1].open {
            1int
        } else {
            0int
        }
    }
}

proof fn lemma_buttons(sc: SceneV, i: int, n: int)
    requires
        0 <= i < n <= sc.wins.len(),
        sc.wins.len() <= usize::MAX,
        sc.wins[i].open,
    ensures
        ({
            let v = sc.open_slots(n);
            &&& 0 <= open_before(sc, i) < v.len()
            &&& v[open_before(sc, i)] == i
        }),
    decreases n,
{
    if n > i + 1 {
        lemma_buttons(sc, i, n - 1);
    } else {
        lemma_button_count(sc, i);
    }
}

proof fn lemma_button_count(sc: SceneV, i: int)
    requires
        0 <= i <= sc.wins.len(),
    ensures
        sc.open_slots(i).len() == open_before(sc, i),
        0 <= open_before(sc, i) <= i,
    decreases i,
{
    if i > 0 {
        lemma_button_count(sc, i - 1);
    }
}

proof fn lemma_button_hit(sc: SceneV, slots: Seq<usize>, k: int, n: int)
    requires
        0 <= k <= n < slots.len() <= 64,
        28 <= sc.h <= 0x7FFF,
        at(sc, 68 + 136 * n, sc.h - 24, 132, 20),
    ensures
        crate::gui::actions::button_hit(sc, slots, k) == Some(slots[n]),
    decreases n - k,
{
    if k < n {
        lemma_button_hit(sc, slots, k + 1, n);
    }
}

/// The buttons on the task bar, one for each open window, side by side in the
/// order of the slots: a click on that of the window in front hides it, a
/// click on another shows its window and brings it to the front; no other
/// window changes.
#[verifier::spinoff_prover]
pub proof fn law_task_buttons(sc: SceneV, i: int)
    requires
        sc.wf(),
        !sc.s.menu_open,
        0 <= i < sc.wins.len(),
        sc.wins[i].open,
        at(sc, 68 + 136 * open_before(sc, i), sc.h - 24, 132, 20),
    ensures
        ({
            let (r, k) = crate::gui::actions::click_spec(sc);
            let front = exists|p: int| #[trigger] in_front(sc, p) && sc.z[p] == i;
            &&& k == Click::Nothing
            &&& front ==> r.wins[i] == (WinV { minimized: true, ..sc.wins[i] })
            &&& !front ==> r.wins[i] == (WinV { minimized: false, ..sc.wins[i] }) && r.z.last() == i
            &&& forall|j: int| 0 <= j < sc.wins.len() && j != i ==> #[trigger] r.wins[j] == sc.wins[j]
        }),
{
    let n = sc.wins.len() as int;
    lemma_buttons(sc, i, n);
    lemma_button_count(sc, n);
    lemma_button_hit(sc, sc.open_slots(n), 0, open_before(sc, i));
    let u = i as usize;
    if exists|p: int| #[trigger] in_front(sc, p) && sc.z[p] == i {
        let p = choose|p: int| #[trigger] in_front(sc, p) && sc.z[p] == i;
        lemma_in_front(sc, p, sc.z.len() as int);
        let m = sc.with_win(i, WinV { minimized: true, ..sc.wins[i] }).with_dirty_win(i);
        lemma_refocused(m);
    } else {
        if sc.active() == Some(u) {
            lemma_active_in_front(sc, sc.z.len() as int);
        }
        lemma_focused(sc, u);
    }
}

/// The window that is active is in front.
proof fn lemma_active_in_front(sc: SceneV, n: int)
    requires
        0 <= n <= sc.z.len(),
        sc.active_below(n) is Some,
        forall|j: int|
            n <= j < sc.z.len() ==> !((#[trigger] sc.wins[sc.z[j] as int]).open && !sc.wins[sc.z[j] as int].minimized),
    ensures
        exists|p: int| #[trigger] in_front(sc, p) && sc.z[p] == sc.active_below(n)->Some_0,
    decreases n,
{
    if n > 0 {
        if sc.wins[sc.z[n - 1] as int].visible() {
            assert(in_front(sc, n - 1));
        } else {
            lemma_active_in_front(sc, n - 1);
        }
    }
}

} // verus!
