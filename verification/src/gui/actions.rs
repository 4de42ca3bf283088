//! What happens to the windows: focus, opening, minimizing, and clicks.

use vstd::prelude::*;

use crate::gui::rect::{point_in, Rect};
use crate::gui::scene::{
    half, Drag, Hands, Kind, Reason, Scene, SceneV, WinV, ABOUT, ABOUT_H, ABOUT_W, EV_CAP, MONITOR,
    TASKBAR_H, TITLE_H,
};

verus! {

// ---------------------------------------------------------------------------
// Events
// ---------------------------------------------------------------------------
pub const EV_NONE: u64 = 0;

pub const EV_CLOSE: u64 = 1;

pub const EV_CLICK: u64 = 2;

pub const EV_KEY: u64 = 3;

pub const EV_RESIZE: u64 = 4;

pub open spec fn low16(a: int) -> int {
    if a < 0 {
        0
    } else {
        a % 0x1_0000
    }
}

/// An event in one word: its type, and two numbers of 16 bits.
pub open spec fn packed_ev(t: u64, a: int, b: int) -> u64 {
    (t * 0x1_0000_0000 + low16(a) * 0x1_0000 + low16(b)) as u64
}

pub fn pack_ev(t: u64, a: i32, b: i32) -> (v: u64)
    requires
        t <= 0xFFFF,
    ensures
        v == packed_ev(t, a as int, b as int),
{
    let x: u64 = if a < 0 {
        0
    } else {
        (a % 0x1_0000) as u64
    };
    let y: u64 = if b < 0 {
        0
    } else {
        (b % 0x1_0000) as u64
    };
    t * 0x1_0000_0000 + x * 0x1_0000 + y
}

/// The type and the two numbers of an event.
pub fn unpack_ev(v: u64) -> (r: (u64, u64, u64))
    ensures
        r == (v / 0x1_0000_0000 % 0x1_0000, v / 0x1_0000 % 0x1_0000, v % 0x1_0000),
{
    (v / 0x1_0000_0000 % 0x1_0000, v / 0x1_0000 % 0x1_0000, v % 0x1_0000)
}

/// An event reads as what it was made from.
pub proof fn law_event_round_trip(t: u64, a: int, b: int)
    requires
        t <= 0xFFFF,
        0 <= a < 0x1_0000,
        0 <= b < 0x1_0000,
    ensures
        ({
            let v = packed_ev(t, a, b);
            v / 0x1_0000_0000 % 0x1_0000 == t && v / 0x1_0000 % 0x1_0000 == a && v % 0x1_0000 == b
        }),
{
}

/// A queue with an event added; the oldest goes if it is full.
pub open spec fn queued(q: Seq<u64>, e: u64) -> Seq<u64> {
    if q.len() >= EV_CAP {
        q.skip(1).push(e)
    } else {
        q.push(e)
    }
}

pub open spec fn event_spec(sc: SceneV, i: int, e: u64) -> SceneV {
    sc.with_win(i, WinV { ev: queued(sc.wins[i].ev, e), ..sc.wins[i] })
}

/// Puts an event into the queue of a window.
pub fn push_event(sc: &mut Scene, i: usize, e: u64)
    requires
        old(sc)@.wf(),
        i < old(sc).wins@.len(),
    ensures
        final(sc)@.wf(),
        final(sc).w == old(sc).w && final(sc).h == old(sc).h,
        final(sc)@ == event_spec(old(sc)@, i as int, e),
{
    assert(sc@.wins[i as int] == sc.wins@[i as int]@);
    assert(sc@.wins[i as int].wf());
    if sc.wins[i].ev.len() >= EV_CAP {
        let _gone: u64 = sc.wins[i].ev.remove(0);
        assert(sc.wins@[i as int].ev@ =~= old(sc).wins@[i as int].ev@.skip(1));
    }
    sc.wins[i].ev.push(e);
    assert(sc.wins@[i as int].ev@ =~= queued(old(sc).wins@[i as int].ev@, e));
    assert(sc@ =~= event_spec(old(sc)@, i as int, e));
}

// ---------------------------------------------------------------------------
// The order of the windows
// ---------------------------------------------------------------------------
/// The first `n` slots without one of them.
pub open spec fn without(z: Seq<usize>, i: usize, n: int) -> Seq<usize>
    decreases n,
{
    if n <= 0 {
        Seq::empty()
    } else if z[n - 1] == i {
        without(z, i, n - 1)
    } else {
        without(z, i, n - 1).push(z[n - 1])
    }
}

/// A slot raised to the top.
pub open spec fn raised(z: Seq<usize>, i: usize) -> Seq<usize> {
    without(z, i, z.len() as int).push(i)
}

/// Taking a slot out of an order keeps the others, each once.
pub proof fn lemma_without(z: Seq<usize>, i: usize, n: int)
    requires
        0 <= n <= z.len(),
        forall|a: int, b: int| 0 <= a < b < z.len() ==> z[a] != z[b],
    ensures
        ({
            let r = without(z, i, n);
            &&& r.len() == if z.take(n).contains(i) {
                n - 1
            } else {
                n
            }
            &&& forall|k: int| 0 <= k < r.len() ==> (#[trigger] r[k]) != i && z.take(n).contains(r[k])
            &&& forall|k: usize| k != i && z.take(n).contains(k) ==> #[trigger] r.contains(k)
            &&& forall|a: int, b: int| 0 <= a < b < r.len() ==> r[a] != r[b]
        }),
    decreases n,
{
    if n > 0 {
        lemma_without(z, i, n - 1);
        let q = without(z, i, n - 1);
        let r = without(z, i, n);
        let t = z.take(n);
        let s = z.take(n - 1);
        assert(t =~= s.push(z[n - 1]));
        assert(t[n - 1] == z[n - 1]);
        assert forall|k: usize| s.contains(k) implies #[trigger] t.contains(k) by {
            let j = choose|j: int| 0 <= j < s.len() && s[j] == k;
            assert(t[j] == k);
        }
        assert(!s.contains(z[n - 1])) by {
            if s.contains(z[n - 1]) {
                let j = choose|j: int| 0 <= j < s.len() && s[j] == z[n - 1];
                assert(z[j] == z[n - 1]);
            }
        }
        assert forall|k: usize| t.contains(k) && k != z[n - 1] implies s.contains(k) by {
            let j = choose|j: int| 0 <= j < t.len() && t[j] == k;
            assert(s[j] == k);
        }
        if z[n - 1] != i {
            assert forall|k: usize| k != i && t.contains(k) implies #[trigger] r.contains(k) by {
                if k == z[n - 1] {
                    assert(r[r.len() - 1] == k);
                } else {
                    assert(q.contains(k));
                    let j = choose|j: int| 0 <= j < q.len() && q[j] == k;
                    assert(r[j] == k);
                }
            }
        }
    }
}

/// An order in which each of `n` slots occurs once.
pub open spec fn is_order(z: Seq<usize>, n: int) -> bool {
    &&& z.len() == n
    &&& forall|i: int| 0 <= i < z.len() ==> (#[trigger] z[i]) < n
    &&& forall|i: int, j: int| 0 <= i < j < z.len() ==> z[i] != z[j]
    &&& forall|i: usize| i < n ==> #[trigger] z.contains(i)
}

/// Raising keeps an order; raising a new slot makes an order of one more.
pub proof fn lemma_raised(z: Seq<usize>, i: usize, n: int)
    requires
        is_order(z, n),
        i <= n,
    ensures
        is_order(
            raised(z, i),
            if i < n {
                n
            } else {
                n + 1
            },
        ),
{
    let r = raised(z, i);
    let m = if i < n {
        n
    } else {
        n + 1
    };
    lemma_without(z, i, z.len() as int);
    assert(z.take(z.len() as int) =~= z);
    let q = without(z, i, z.len() as int);
    if i == n {
        if z.contains(i) {
            let j = choose|j: int| 0 <= j < z.len() && z[j] == i;
            assert(z[j] < n);
        }
    }
    assert forall|k: int| 0 <= k < r.len() implies (#[trigger] r[k]) < m by {
        if k < q.len() {
            assert(r[k] == q[k]);
            let j = choose|j: int| 0 <= j < z.len() && z[j] == q[k];
            assert(z[j] < n);
        }
    }
    assert forall|k: usize| k < m implies #[trigger] r.contains(k) by {
        if k == i {
            assert(r[r.len() - 1] == i);
        } else {
            assert(z.contains(k));
            assert(q.contains(k));
            let j = choose|j: int| 0 <= j < q.len() && q[j] == k;
            assert(r[j] == k);
        }
    }
}

/// Raises a slot to the top.
pub fn raise(z: &mut Vec<usize>, i: usize)
    ensures
        final(z)@ == raised(old(z)@, i),
{
    let mut r: Vec<usize> = Vec::new();
    let mut k: usize = 0;
    assert(r@ =~= without(z@, i, 0));
    while k < z.len()
        invariant
            k <= z@.len(),
            z@ == old(z)@,
            r@ == without(z@, i, k as int),
        decreases z@.len() - k,
    {
        let v: usize = z[k];
        if v != i {
            r.push(v);
        }
        k = k + 1;
    }
    r.push(i);
    *z = r;
}

// ---------------------------------------------------------------------------
// Focus
// ---------------------------------------------------------------------------
/// The windows from `j` on that show have to be drawn again.
pub open spec fn all_dirty(sc: SceneV, j: int) -> SceneV
    decreases sc.wins.len() - j,
{
    if j < 0 || j >= sc.wins.len() {
        sc
    } else if sc.wins[j].visible() {
        all_dirty(sc.with_dirty_win(j), j + 1)
    } else {
        all_dirty(sc, j + 1)
    }
}

/// A window on top, and not minimized.
pub open spec fn focus_spec(sc: SceneV, i: usize) -> SceneV {
    if sc.z.len() > 0 && sc.z.last() == i && !sc.wins[i as int].minimized {
        sc
    } else {
        let up = SceneV { z: raised(sc.z, i), ..sc }.with_win(
            i as int,
            WinV { minimized: false, ..sc.wins[i as int] },
        );
        let d = all_dirty(up, 0);
        d.with_dirty(d.taskbar())
    }
}

fn dirty_all(sc: &mut Scene)
    requires
        old(sc)@.wf(),
    ensures
        final(sc)@.wf(),
        final(sc).w == old(sc).w && final(sc).h == old(sc).h,
        final(sc)@ == all_dirty(old(sc)@, 0),
{
    let n: usize = sc.wins.len();
    let mut j: usize = 0;
    while j < n
        invariant
            j <= n,
            n == sc.wins@.len(),
            sc@.wf(),
            sc.w == old(sc).w && sc.h == old(sc).h,
            all_dirty(sc@, j as int) == all_dirty(old(sc)@, 0),
        decreases n - j,
    {
        assert(sc@.wins[j as int] == sc.wins@[j as int]@);
        if sc.wins[j].open && !sc.wins[j].minimized {
            sc.dirty_win(j);
        }
        j = j + 1;
    }
}

/// Raises a window and gives it the focus.
pub fn focus(sc: &mut Scene, i: usize)
    requires
        old(sc)@.wf(),
        i < old(sc).wins@.len(),
    ensures
        final(sc)@.wf(),
        final(sc).w == old(sc).w && final(sc).h == old(sc).h,
        final(sc)@ == focus_spec(old(sc)@, i),
{
    assert(sc@.wins[i as int] == sc.wins@[i as int]@);
    assert(sc@.wins[i as int].wf());
    let n: usize = sc.z.len();
    if n > 0 && sc.z[n - 1] == i && !sc.wins[i].minimized {
        return;
    }
    raise(&mut sc.z, i);
    proof {
        lemma_raised(old(sc)@.z, i, old(sc)@.wins.len() as int);
    }
    sc.wins[i].minimized = false;
    assert(sc@ =~= SceneV { z: raised(old(sc)@.z, i), ..old(sc)@ }.with_win(
        i as int,
        WinV { minimized: false, ..old(sc)@.wins[i as int] },
    ));
    dirty_all(sc);
    let t: Rect = sc.taskbar_rect();
    sc.dirty_rect(t);
}

// ---------------------------------------------------------------------------
// Opening and minimizing
// ---------------------------------------------------------------------------
/// Where the window about the system opens: next to the monitor if that is
/// open, else in the middle.
pub open spec fn about_placed(sc: SceneV) -> WinV {
    let m = sc.wins[MONITOR as int];
    WinV {
        x: if m.open {
            (m.x + 36) as i32
        } else {
            crate::gui::scene::halved(sc.w - ABOUT_W) as i32
        },
        y: if m.open {
            (m.y + 36) as i32
        } else {
            (crate::gui::scene::halved(sc.taskbar_y() - ABOUT_H) - 24) as i32
        },
        w: ABOUT_W,
        h: ABOUT_H,
        ..sc.wins[ABOUT as int]
    }
}

/// One of the two windows of the system, opened or brought back.
pub open spec fn open_spec(sc: SceneV, k: usize) -> SceneV {
    let w = sc.wins[k as int];
    if w.open {
        focus_spec(sc.with_win(k as int, WinV { minimized: false, ..w }), k)
    } else {
        let a = sc.with_win(k as int, WinV { open: true, ..w });
        let b = if k == ABOUT {
            a.with_win(ABOUT as int, about_placed(a))
        } else {
            a
        };
        focus_spec(b.with_win(k as int, b.win_clamped(b.wins[k as int])), k)
    }
}

pub fn open_win(sc: &mut Scene, k: usize)
    requires
        old(sc)@.wf(),
        k < 2,
    ensures
        final(sc)@.wf(),
        final(sc).w == old(sc).w && final(sc).h == old(sc).h,
        final(sc)@ == open_spec(old(sc)@, k),
{
    assert(sc@.wins[k as int] == sc.wins@[k as int]@);
    assert(sc@.wins[k as int].wf());
    assert(sc@.wins[MONITOR as int].wf());
    if sc.wins[k].open {
        sc.wins[k].minimized = false;
        assert(sc@ =~= old(sc)@.with_win(k as int, WinV { minimized: false, ..old(sc)@.wins[k as int] }));
        focus(sc, k);
        return;
    }
    sc.wins[k].open = true;
    let ghost a = sc@;
    assert(a =~= old(sc)@.with_win(k as int, WinV { open: true, ..old(sc)@.wins[k as int] }));
    if k == ABOUT {
        assert(sc@.wins[MONITOR as int] == sc.wins@[MONITOR as int]@);
        let (mx, my) = (sc.wins[MONITOR].x, sc.wins[MONITOR].y);
        if sc.wins[MONITOR].open {
            sc.wins[ABOUT].x = mx + 36;
            sc.wins[ABOUT].y = my + 36;
        } else {
            let tb: i32 = sc.h as i32 - TASKBAR_H;
            sc.wins[ABOUT].x = half(sc.w as i32 - ABOUT_W);
            sc.wins[ABOUT].y = half(tb - ABOUT_H) - 24;
        }
        sc.wins[ABOUT].w = ABOUT_W;
        sc.wins[ABOUT].h = ABOUT_H;
        assert(sc@ =~= a.with_win(ABOUT as int, about_placed(a)));
    }
    let ghost b = sc@;
    assert(sc@.wins[k as int] == sc.wins@[k as int]@);
    sc.clamp_win(k);
    assert(sc@.wf());
    focus(sc, k);
}

/// The topmost window that is left gets the focus; without one the task bar
/// changes.
pub open spec fn refocused(sc: SceneV) -> SceneV {
    match sc.active() {
        Some(t) => focus_spec(sc, t),
        None => sc.with_dirty(sc.taskbar()),
    }
}

fn refocus(sc: &mut Scene)
    requires
        old(sc)@.wf(),
    ensures
        final(sc)@.wf(),
        final(sc).w == old(sc).w && final(sc).h == old(sc).h,
        final(sc)@ == refocused(old(sc)@),
{
    match sc.active_idx() {
        Some(t) => focus(sc, t),
        None => {
            let r: Rect = sc.taskbar_rect();
            sc.dirty_rect(r);
        },
    }
}

pub open spec fn minimize_spec(sc: SceneV, i: usize) -> SceneV {
    let m = sc.with_win(i as int, WinV { minimized: true, ..sc.wins[i as int] });
    refocused(m.with_dirty_win(i as int))
}

pub fn minimize_win(sc: &mut Scene, i: usize)
    requires
        old(sc)@.wf(),
        i < old(sc).wins@.len(),
    ensures
        final(sc)@.wf(),
        final(sc).w == old(sc).w && final(sc).h == old(sc).h,
        final(sc)@ == minimize_spec(old(sc)@, i),
{
    assert(sc@.wins[i as int] == sc.wins@[i as int]@);
    assert(sc@.wins[i as int].wf());
    sc.wins[i].minimized = true;
    assert(sc@ =~= old(sc)@.with_win(i as int, WinV { minimized: true, ..old(sc)@.wins[i as int] }));
    sc.dirty_win(i);
    refocus(sc);
}

/// A click on the button of a window: one with the focus is minimized, any
/// other gets it.
pub open spec fn task_btn_spec(sc: SceneV, i: usize) -> SceneV {
    if sc.active() == Some(i) && !sc.wins[i as int].minimized {
        minimize_spec(sc, i)
    } else {
        focus_spec(sc, i)
    }
}

pub fn task_btn_click(sc: &mut Scene, i: usize)
    requires
        old(sc)@.wf(),
        i < old(sc).wins@.len(),
    ensures
        final(sc)@.wf(),
        final(sc).w == old(sc).w && final(sc).h == old(sc).h,
        final(sc)@ == task_btn_spec(old(sc)@, i),
{
    assert(sc@.wins[i as int] == sc.wins@[i as int]@);
    let active: bool = match sc.active_idx() {
        Some(k) => k == i,
        None => false,
    };
    if active && !sc.wins[i].minimized {
        minimize_win(sc, i);
    } else {
        focus(sc, i);
    }
}

// ---------------------------------------------------------------------------
// Clicks
// ---------------------------------------------------------------------------
/// What a click asks of the system.
#[derive(Clone, Copy, PartialEq, Eq, Structural, Debug)]
pub enum Click {
    Nothing,
    /// A new terminal.
    Terminal,
    /// The demonstration program.
    Demo,
    /// The desktop ends.
    End(Reason),
}

/// The menu goes away.
pub open spec fn menu_closed(sc: SceneV) -> SceneV {
    SceneV { s: Hands { menu_open: false, menu_hover: None, ..sc.s }, ..sc }.with_dirty(sc.menu_full())
}

pub open spec fn menu_opened(sc: SceneV) -> SceneV {
    SceneV { s: Hands { menu_open: true, menu_hover: None, ..sc.s }, ..sc }.with_dirty(sc.taskbar()).with_dirty(
        sc.menu_full(),
    )
}

pub open spec fn whole_screen(sc: SceneV) -> Rect {
    Rect { x: 0, y: 0, w: sc.w as i32, h: sc.h as i32 }
}

/// A click while the menu is open: an item acts, and a click outside closes
/// it.
pub open spec fn menu_click(sc: SceneV) -> (SceneV, Click) {
    match sc.item_from(0) {
        Some(k) => {
            let m = menu_closed(sc);
            if k == 0 {
                (m, Click::Terminal)
            } else if k == 1 {
                (open_spec(m, MONITOR), Click::Nothing)
            } else if k == 2 {
                (open_spec(m, ABOUT), Click::Nothing)
            } else if k == 3 {
                (m.with_dirty(whole_screen(sc)), Click::Demo)
            } else if k == 4 {
                (m, Click::End(Reason::Reboot))
            } else {
                (m, Click::End(Reason::Halt))
            }
        },
        None => if crate::gui::rect::holds(sc.menu_full(), sc.s.cur_x as int, sc.s.cur_y as int) {
            (sc, Click::Nothing)
        } else {
            (menu_closed(sc), Click::Nothing)
        },
    }
}

/// The first button, from the `n`-th on, that was hit.
pub open spec fn button_hit(sc: SceneV, slots: Seq<usize>, n: int) -> Option<usize>
    decreases slots.len() - n,
{
    if n < 0 || n >= slots.len() {
        None
    } else if crate::gui::rect::holds(sc.task_btn(n), sc.s.cur_x as int, sc.s.cur_y as int) {
        Some(slots[n])
    } else {
        button_hit(sc, slots, n + 1)
    }
}

/// A click on the task bar.
pub open spec fn bar_click(sc: SceneV) -> SceneV {
    if crate::gui::rect::holds(sc.start(), sc.s.cur_x as int, sc.s.cur_y as int) {
        menu_opened(sc)
    } else {
        match button_hit(sc, sc.open_slots(sc.wins.len() as int), 0) {
            Some(i) => task_btn_spec(sc, i),
            None => sc,
        }
    }
}

/// The topmost window under the pointer, among the lowest `n`.
pub open spec fn hit_below(sc: SceneV, n: int) -> Option<usize>
    decreases n,
{
    if n <= 0 {
        None
    } else {
        let w = sc.wins[sc.z[n - 1] as int];
        if w.visible() && crate::gui::rect::holds(w.body(), sc.s.cur_x as int, sc.s.cur_y as int) {
            Some(sc.z[n - 1])
        } else {
            hit_below(sc, n - 1)
        }
    }
}

pub open spec fn close_box(w: WinV) -> Rect {
    Rect { x: (w.x + w.w - 24) as i32, y: (w.y + 4) as i32, w: 18, h: 14 }
}

pub open spec fn minimize_box(w: WinV) -> Rect {
    Rect { x: (w.x + w.w - 42) as i32, y: (w.y + 4) as i32, w: 18, h: 14 }
}

/// A window closed by its box; the program of one is told.
pub open spec fn close_click(sc: SceneV, i: usize) -> (SceneV, Click) {
    let w = sc.wins[i as int];
    let c = sc.with_win(i as int, WinV { open: false, ..w }).with_dirty_win(i as int);
    let d = if w.kind == Kind::User {
        event_spec(c, i as int, packed_ev(EV_CLOSE, 0, 0))
    } else {
        c
    };
    if !d.any_open() {
        (d, Click::End(Reason::AllClosed))
    } else {
        (refocused(d), Click::Nothing)
    }
}

/// A click in the window with the focus: its boxes, its grip, its title, or
/// its content.
pub open spec fn inside_click(sc: SceneV, i: usize) -> (SceneV, Click) {
    let w = sc.wins[i as int];
    let (x, y) = (sc.s.cur_x as int, sc.s.cur_y as int);
    if crate::gui::rect::holds(close_box(w), x, y) {
        close_click(sc, i)
    } else if crate::gui::rect::holds(minimize_box(w), x, y) {
        (minimize_spec(sc, i), Click::Nothing)
    } else if crate::gui::rect::holds(w.grip(), x, y) {
        (SceneV { s: Hands { resizing: Some(i), ..sc.s }, ..sc }, Click::Nothing)
    } else if y < w.y + TITLE_H && x < w.x + w.w - 42 {
        (
            SceneV {
                s: Hands {
                    dragging: Some(Drag { slot: i, dx: (x - w.x) as i32, dy: (y - w.y) as i32 }),
                    ..sc.s
                },
                ..sc
            },
            Click::Nothing,
        )
    } else if w.kind == Kind::User {
        (
            event_spec(sc, i as int, packed_ev(EV_CLICK, x - (w.x + 2), y - (w.y + TITLE_H + 1))),
            Click::Nothing,
        )
    } else {
        (sc, Click::Nothing)
    }
}

/// A click: in the menu if it is open, on the task bar, or on the topmost
/// window under the pointer, which first gets the focus.
pub open spec fn click_spec(sc: SceneV) -> (SceneV, Click) {
    if sc.s.menu_open {
        menu_click(sc)
    } else if sc.s.cur_y >= sc.taskbar_y() {
        (bar_click(sc), Click::Nothing)
    } else {
        match hit_below(sc, sc.z.len() as int) {
            None => (sc, Click::Nothing),
            Some(i) => if sc.active() != Some(i) {
                (focus_spec(sc, i), Click::Nothing)
            } else {
                inside_click(sc, i)
            },
        }
    }
}

pub fn close_menu(sc: &mut Scene)
    requires
        old(sc)@.wf(),
    ensures
        final(sc)@.wf(),
        final(sc).w == old(sc).w && final(sc).h == old(sc).h,
        final(sc)@ == menu_closed(old(sc)@),
{
    let r: Rect = sc.menu_full_rect();
    sc.s.menu_open = false;
    sc.s.menu_hover = None;
    sc.dirty_rect(r);
}

fn click_menu(sc: &mut Scene) -> (r: Click)
    requires
        old(sc)@.wf(),
    ensures
        final(sc)@.wf(),
        final(sc).w == old(sc).w && final(sc).h == old(sc).h,
        (final(sc)@, r) == menu_click(old(sc)@),
{
    match sc.menu_item_at() {
        Some(k) => {
            close_menu(sc);
            if k == 0 {
                Click::Terminal
            } else if k == 1 {
                open_win(sc, MONITOR);
                Click::Nothing
            } else if k == 2 {
                open_win(sc, ABOUT);
                Click::Nothing
            } else if k == 3 {
                let all = Rect { x: 0, y: 0, w: sc.w as i32, h: sc.h as i32 };
                sc.dirty_rect(all);
                Click::Demo
            } else if k == 4 {
                Click::End(Reason::Reboot)
            } else {
                Click::End(Reason::Halt)
            }
        },
        None => {
            if !point_in(sc.s.cur_x, sc.s.cur_y, sc.menu_full_rect()) {
                close_menu(sc);
            }
            Click::Nothing
        },
    }
}

fn find_button(sc: &Scene, slots: &Vec<usize>) -> (r: Option<usize>)
    requires
        sc@.wf(),
        slots@.len() <= sc.wins@.len(),
        forall|i: int| 0 <= i < slots@.len() ==> (#[trigger] slots@[i]) < sc.wins@.len(),
    ensures
        r == button_hit(sc@, slots@, 0),
        r matches Some(i) ==> i < sc.wins@.len(),
{
    let mut n: usize = 0;
    while n < slots.len()
        invariant
            n <= slots@.len(),
            sc@.wf(),
            slots@.len() <= sc.wins@.len(),
            forall|i: int| 0 <= i < slots@.len() ==> (#[trigger] slots@[i]) < sc.wins@.len(),
            button_hit(sc@, slots@, n as int) == button_hit(sc@, slots@, 0),
        decreases slots@.len() - n,
    {
        if point_in(sc.s.cur_x, sc.s.cur_y, sc.task_btn_rect(n)) {
            return Some(slots[n]);
        }
        n = n + 1;
    }
    None
}

fn click_bar(sc: &mut Scene)
    requires
        old(sc)@.wf(),
    ensures
        final(sc)@.wf(),
        final(sc).w == old(sc).w && final(sc).h == old(sc).h,
        final(sc)@ == bar_click(old(sc)@),
{
    if point_in(sc.s.cur_x, sc.s.cur_y, sc.start_rect()) {
        let t: Rect = sc.taskbar_rect();
        let m: Rect = sc.menu_full_rect();
        sc.s.menu_open = true;
        sc.s.menu_hover = None;
        sc.dirty_rect(t);
        sc.dirty_rect(m);
        return;
    }
    let slots = sc.open_task_slots();
    match find_button(sc, &slots) {
        Some(i) => task_btn_click(sc, i),
        None => {},
    }
}

fn find_hit(sc: &Scene) -> (r: Option<usize>)
    requires
        sc@.wf(),
    ensures
        r == hit_below(sc@, sc@.z.len() as int),
        r matches Some(i) ==> i < sc.wins@.len(),
{
    let mut n: usize = sc.z.len();
    while n > 0
        invariant
            n <= sc.z@.len(),
            sc@.wf(),
            hit_below(sc@, n as int) == hit_below(sc@, sc@.z.len() as int),
        decreases n,
    {
        let i: usize = sc.z[n - 1];
        assert(i == sc@.z[n - 1]);
        assert(sc@.wins[i as int] == sc.wins@[i as int]@);
        assert(sc@.wins[i as int].wf());
        if sc.wins[i].open && !sc.wins[i].minimized && point_in(sc.s.cur_x, sc.s.cur_y, sc.wins[i].body_rect()) {
            return Some(i);
        }
        n = n - 1;
    }
    None
}

fn click_close(sc: &mut Scene, i: usize) -> (r: Click)
    requires
        old(sc)@.wf(),
        i < old(sc).wins@.len(),
    ensures
        final(sc)@.wf(),
        final(sc).w == old(sc).w && final(sc).h == old(sc).h,
        (final(sc)@, r) == close_click(old(sc)@, i),
{
    assert(sc@.wins[i as int] == sc.wins@[i as int]@);
    assert(sc@.wins[i as int].wf());
    let kind: Kind = sc.wins[i].kind;
    sc.wins[i].open = false;
    assert(sc@ =~= old(sc)@.with_win(i as int, WinV { open: false, ..old(sc)@.wins[i as int] }));
    sc.dirty_win(i);
    if kind == Kind::User {
        push_event(sc, i, pack_ev(EV_CLOSE, 0, 0));
    }
    if !sc.any_open() {
        return Click::End(Reason::AllClosed);
    }
    refocus(sc);
    Click::Nothing
}

fn click_inside(sc: &mut Scene, i: usize) -> (r: Click)
    requires
        old(sc)@.wf(),
        i < old(sc).wins@.len(),
    ensures
        final(sc)@.wf(),
        final(sc).w == old(sc).w && final(sc).h == old(sc).h,
        (final(sc)@, r) == inside_click(old(sc)@, i),
{
    assert(sc@.wins[i as int] == sc.wins@[i as int]@);
    assert(sc@.wins[i as int].wf());
    let (x, y) = (sc.s.cur_x, sc.s.cur_y);
    let (wx, wy, ww) = (sc.wins[i].x, sc.wins[i].y, sc.wins[i].w);
    if point_in(x, y, Rect { x: wx + ww - 24, y: wy + 4, w: 18, h: 14 }) {
        return click_close(sc, i);
    }
    if point_in(x, y, Rect { x: wx + ww - 42, y: wy + 4, w: 18, h: 14 }) {
        minimize_win(sc, i);
        return Click::Nothing;
    }
    if point_in(x, y, sc.wins[i].grip_rect()) {
        sc.s.resizing = Some(i);
        return Click::Nothing;
    }
    if y < wy + TITLE_H && x < wx + ww - 42 {
        sc.s.dragging = Some(Drag { slot: i, dx: x - wx, dy: y - wy });
        return Click::Nothing;
    }
    if sc.wins[i].kind == Kind::User {
        push_event(sc, i, pack_ev(EV_CLICK, x - (wx + 2), y - (wy + TITLE_H + 1)));
    }
    Click::Nothing
}

/// The left button was pressed.
pub fn on_click(sc: &mut Scene) -> (r: Click)
    requires
        old(sc)@.wf(),
    ensures
        final(sc)@.wf(),
        final(sc).w == old(sc).w && final(sc).h == old(sc).h,
        (final(sc)@, r) == click_spec(old(sc)@),
{
    if sc.s.menu_open {
        return click_menu(sc);
    }
    if sc.s.cur_y >= sc.taskbar_y() {
        click_bar(sc);
        return Click::Nothing;
    }
    match find_hit(sc) {
        None => Click::Nothing,
        Some(i) => {
            let active: bool = match sc.active_idx() {
                Some(k) => k == i,
                None => false,
            };
            if !active {
                focus(sc, i);
                Click::Nothing
            } else {
                click_inside(sc, i)
            }
        },
    }
}

} // verus!
