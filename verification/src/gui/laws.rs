//! What holds of the desktop whatever happens.

use vstd::prelude::*;

use crate::gui::rect::Rect;
use crate::gui::scene::{SceneV, WinV};
use crate::gui::session::ESC;

verus! {

proof fn lemma_dirty_keeps(sc: SceneV, j: int)
    ensures
        crate::gui::actions::all_dirty(sc, j).wins == sc.wins,
        crate::gui::actions::all_dirty(sc, j).z == sc.z,
    decreases sc.wins.len() - j,
{
    if 0 <= j < sc.wins.len() {
        lemma_dirty_keeps(sc.with_dirty_win(j), j + 1);
        lemma_dirty_keeps(sc, j + 1);
    }
}

/// A window that is open has the focus once it was focused.
pub proof fn law_focus_gives_the_focus(sc: SceneV, i: usize)
    requires
        sc.wf(),
        i < sc.wins.len(),
        sc.wins[i as int].open,
    ensures
        crate::gui::actions::focus_spec(sc, i).active() == Some(i),
        crate::gui::actions::focus_spec(sc, i).wins[i as int].visible(),
{
    let r = crate::gui::actions::focus_spec(sc, i);
    if !(sc.z.last() == i && !sc.wins[i as int].minimized) {
        let up = SceneV { z: crate::gui::actions::raised(sc.z, i), ..sc }.with_win(
            i as int,
            WinV { minimized: false, ..sc.wins[i as int] },
        );
        lemma_dirty_keeps(up, 0);
        assert(r.wins == up.wins && r.z == up.z);
        assert(r.z.last() == i);
    }
    assert(r.z[r.z.len() - 1] == i);
}

proof fn lemma_dirty_grows(sc: SceneV, j: int, r: Rect)
    requires
        sc.dirty.contains(r),
    ensures
        crate::gui::actions::all_dirty(sc, j).dirty.contains(r),
    decreases sc.wins.len() - j,
{
    if 0 <= j < sc.wins.len() {
        let k = choose|k: int| 0 <= k < sc.dirty.len() && sc.dirty[k] == r;
        let t = sc.with_dirty_win(j);
        assert(t.dirty[k] == r);
        lemma_dirty_grows(t, j + 1, r);
        lemma_dirty_grows(sc, j + 1, r);
    }
}

proof fn lemma_shown_is_dirty(sc: SceneV, j: int, i: int)
    requires
        sc.wf(),
        0 <= j <= i < sc.wins.len(),
        sc.wins[i].visible(),
    ensures
        crate::gui::actions::all_dirty(sc, j).dirty.contains(sc.wins[i].full()),
    decreases sc.wins.len() - j,
{
    let t = sc.with_dirty_win(j);
    assert(sc.wins[i].wf());
    if j == i {
        assert(t.dirty.last() == sc.wins[i].full());
        lemma_dirty_grows(t, j + 1, sc.wins[i].full());
    } else {
        lemma_shown_is_dirty(t, j + 1, i);
        lemma_shown_is_dirty(sc, j + 1, i);
    }
}

/// A window of the system that is opened, or brought back, shows and has the
/// focus. If it was not the topmost already, the place where it now stands is
/// drawn again.
pub proof fn law_opened_window_has_the_focus(sc: SceneV, k: usize)
    requires
        sc.wf(),
        k < 2,
        !sc.wins[k as int].visible(),
    ensures
        ({
            let r = crate::gui::actions::open_spec(sc, k);
            &&& r.active() == Some(k)
            &&& r.wins[k as int].visible()
            &&& sc.z.last() != k ==> r.dirty.contains(r.wins[k as int].full())
        }),
{
    let w = sc.wins[k as int];
    let a = sc.with_win(k as int, WinV { open: true, ..w });
    let b = if k == crate::gui::scene::ABOUT {
        a.with_win(k as int, crate::gui::actions::about_placed(a))
    } else {
        a
    };
    let c = if w.open {
        sc.with_win(k as int, WinV { minimized: false, ..w })
    } else {
        b.with_win(k as int, b.win_clamped(b.wins[k as int]))
    };
    let up = SceneV { z: crate::gui::actions::raised(c.z, k), ..c }.with_win(
        k as int,
        WinV { minimized: false, ..c.wins[k as int] },
    );
    let r = crate::gui::actions::open_spec(sc, k);
    assert(w.wf());
    assert(sc.wins[crate::gui::scene::MONITOR as int].wf());
    if sc.z.last() == k && !c.wins[k as int].minimized {
        assert(r == c);
        assert(r.z[r.z.len() - 1] == k);
    } else {
        lemma_dirty_keeps(up, 0);
        assert(r.z[r.z.len() - 1] == k);
        crate::gui::actions::lemma_raised(c.z, k, sc.wins.len() as int);
        assert(up.wf());
        lemma_shown_is_dirty(up, 0, k as int);
        let d = crate::gui::actions::all_dirty(up, 0);
        let n = choose|n: int| 0 <= n < d.dirty.len() && d.dirty[n] == up.wins[k as int].full();
        assert(r.dirty[n] == up.wins[k as int].full());
    }
}

/// A window that was moved onto the screen lies on it, above the task bar, if
/// it is small enough; in any case its corner does.
pub proof fn law_clamped_windows_are_on_the_screen(sc: SceneV, w: WinV)
    requires
        sc.wf(),
        w.wf(),
    ensures
        ({
            let c = sc.win_clamped(w);
            &&& 0 <= c.x && 0 <= c.y
            &&& c.w == w.w && c.h == w.h
            &&& w.w + 2 <= sc.w ==> c.x + c.w + 2 <= sc.w
            &&& w.h + 2 <= sc.taskbar_y() ==> c.y + c.h + 2 <= sc.taskbar_y()
        }),
{
}

proof fn lemma_active_is_a_window(sc: SceneV, n: int)
    requires
        sc.wf(),
        0 <= n <= sc.z.len(),
    ensures
        sc.active_below(n) matches Some(i) ==> i < sc.wins.len(),
    decreases n,
{
    if n > 0 {
        assert(sc.z[n - 1] < sc.wins.len());
        lemma_active_is_a_window(sc, n - 1);
    }
}

/// A key reaches the window with the focus and no other.
pub proof fn law_keys_reach_only_the_focus(sc: SceneV, k: u8, j: int)
    requires
        sc.wf(),
        0 <= j < sc.wins.len(),
        sc.active() != Some(j as usize),
    ensures
        crate::gui::session::key_given(sc, k).wins[j] == sc.wins[j],
{
    lemma_active_is_a_window(sc, sc.z.len() as int);
}

/// Escape ends the desktop just if the menu is not open.
pub proof fn law_escape(sc: SceneV, q: Seq<u8>)
    requires
        sc.wf(),
        q.len() > 0,
        q[0] == ESC,
        forall|i: int| 1 <= i < q.len() ==> q[i] != ESC,
    ensures
        crate::gui::session::keyed(sc, q).2 == !sc.s.menu_open,
{
    if sc.s.menu_open {
        lemma_no_escape(crate::gui::actions::menu_closed(sc), q.skip(1));
    }
}

proof fn lemma_no_escape(sc: SceneV, q: Seq<u8>)
    requires
        forall|i: int| 0 <= i < q.len() ==> q[i] != ESC,
    ensures
        !crate::gui::session::keyed(sc, q).2,
    decreases q.len(),
{
    if q.len() > 0 {
        lemma_no_escape(crate::gui::session::key_given(sc, q[0]), q.skip(1));
    }
}

/// While a window is dragged it stays on the screen.
pub proof fn law_dragged_windows_stay_on_the_screen(sc: SceneV)
    requires
        sc.wf(),
        sc.s.dragging is Some,
    ensures
        ({
            let w = crate::gui::session::dragged(sc).wins[sc.s.dragging->0.slot as int];
            0 <= w.x && 0 <= w.y && (w.w + 2 <= sc.w ==> w.x + w.w + 2 <= sc.w) && (w.h + 2 <= sc.taskbar_y() ==> w.y
                + w.h + 2 <= sc.taskbar_y())
        }),
{
}

} // verus!
