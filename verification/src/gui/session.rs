//! The desktop from its start to its end, one frame after another.

use vstd::prelude::*;
use vstd::string::StringExecFns;

use crate::console::font::Font;
use crate::console::screen::{redraw_all_global, Console, ConsoleV};
use crate::console::{Format, Rgb};
use crate::cpu::keyboard::{drain, pop, KeyV, Keyboard};
use crate::gui::actions::{close_menu, on_click, pack_ev, push_event, Click, EV_KEY, EV_RESIZE};
use crate::gui::calls::{zero_buf, Desk};
use crate::gui::desktop::{compose, draw_halt_screen};
use crate::gui::draw::{stamp_cursor, Readings};
use crate::gui::rect::{intersect_screen, rects_intersect, Rect};
use crate::gui::scene::{
    clamp, Colors, Hands, Kind, Reason, Scene, SceneV, Win, WinV, ABOUT_H, ABOUT_W, MIN_WIN_H, MIN_WIN_W,
    MONITOR, MON_H, MON_W, SCREEN_LIMIT, TASKBAR_H, TITLE_H,
};
use crate::gui::term_state::{TermState, TermV, TERM_IN_CAP};

verus! {

/// The room that is drawn again where the pointer was.
pub const SAVE_W: usize = 16;

pub const SAVE_H: usize = 24;

/// The key that closes the menu, or else the desktop.
pub const ESC: u8 = 0x1B;

// ---------------------------------------------------------------------------
// The ground
// ---------------------------------------------------------------------------
/// A quotient, towards zero.
pub open spec fn toward_zero(n: int, d: int) -> int {
    if n < 0 {
        -((-n) / d)
    } else {
        n / d
    }
}

/// A color channel at step `t` of `den` between two.
pub open spec fn channel_at(x: u8, y: u8, t: int, den: int) -> u8 {
    crate::gui::scene::clamped(x + toward_zero((y - x) * t, crate::pixels::max(den, 1)), 0, 255) as u8
}

pub open spec fn between(a: Rgb, b: Rgb, t: int, den: int) -> Rgb {
    Rgb(channel_at(a.0, b.0, t, den), channel_at(a.1, b.1, t, den), channel_at(a.2, b.2, t, den))
}

fn lerp_channel(x: u8, y: u8, t: u32, den: u32) -> (r: u8)
    requires
        t <= 0xFFFF,
        1 <= den <= 0xFFFF,
    ensures
        r == channel_at(x, y, t as int, den as int),
{
    let (d, n) = (den as i32, t as i32);
    assert(-0xFF_0000 <= (y - x) * n <= 0xFF_0000) by (nonlinear_arith)
        requires
            -255 <= y - x <= 255,
            0 <= n <= 0xFFFF,
    ;
    let p: i32 = (y as i32 - x as i32) * n;
    let q: i32 = if p < 0 {
        -((-p) / d)
    } else {
        p / d
    };
    assert(q == toward_zero(p as int, d as int));
    assert(-0xFF_0000 <= q <= 0xFF_0000) by (nonlinear_arith)
        requires
            -0xFF_0000 <= p <= 0xFF_0000,
            1 <= d,
            q == (if p < 0 {
                -((-(p as int)) / (d as int))
            } else {
                (p as int) / (d as int)
            }),
    ;
    clamp(x as i32 + q, 0, 255) as u8
}

/// A color between two.
fn lerp_rgb(a: &Rgb, b: &Rgb, t: u32, den: u32) -> (r: Rgb)
    requires
        t <= 0xFFFF,
        1 <= den <= 0xFFFF,
    ensures
        r == between(*a, *b, t as int, den as int),
{
    Rgb(lerp_channel(a.0, b.0, t, den), lerp_channel(a.1, b.1, t, den), lerp_channel(a.2, b.2, t, den))
}

/// The colors of the rows, from the top to the bottom.
pub open spec fn gradient(f: Format, h: int) -> Seq<u32> {
    Seq::new(
        h as nat,
        |y: int| f.packed(between(Rgb(26, 30, 56), Rgb(10, 12, 22), y, crate::pixels::max(h, 2) - 1)),
    )
}

fn rows_colors(f: &Format, h: usize) -> (v: Vec<u32>)
    requires
        f.wf(),
        2 <= h <= SCREEN_LIMIT,
    ensures
        v@ == gradient(*f, h as int),
{
    let mut v: Vec<u32> = Vec::new();
    let (top, bottom) = (Rgb(26, 30, 56), Rgb(10, 12, 22));
    let mut y: usize = 0;
    while y < h
        invariant
            y <= h,
            2 <= h <= SCREEN_LIMIT,
            f.wf(),
            top == Rgb(26, 30, 56),
            bottom == Rgb(10, 12, 22),
            v@ =~= gradient(*f, h as int).take(y as int),
        decreases h - y,
    {
        let c: Rgb = lerp_rgb(&top, &bottom, y as u32, (h - 1) as u32);
        v.push(f.pack(&c));
        y = y + 1;
    }
    assert(gradient(*f, h as int).take(h as int) =~= gradient(*f, h as int));
    v
}

// ---------------------------------------------------------------------------
// The start
// ---------------------------------------------------------------------------
pub open spec fn fixed_win(kind: Kind, title: Seq<char>, x: i32, y: i32, w: i32, h: i32, open: bool) -> WinV {
    WinV {
        id: 0,
        kind,
        owner: 0,
        title,
        x,
        y,
        w,
        h,
        open,
        minimized: false,
        buf: Seq::empty(),
        ev: Seq::empty(),
        term: crate::gui::term_state::empty_term(),
    }
}

/// The pointer is in the middle, and nothing has happened yet.
pub open spec fn first_hands(w: int, h: int) -> Hands {
    Hands {
        cur_x: (w / 2) as i32,
        cur_y: (h / 2) as i32,
        prev_left: false,
        dragging: None,
        resizing: None,
        menu_open: false,
        menu_hover: None,
        next_id: 0,
        moves: 0,
        clicks: 0,
        drags: 0,
        keys: 0,
        stats_at: 0,
        clock_at: 0,
        frames: 0,
        fps: 0,
        fps_at: 0,
        net_prev: 0,
        net_led: false,
        live: true,
    }
}

/// The desktop at its start: the monitor is open, near the middle.
pub open spec fn first_scene(w: int, h: int, c: Colors, grad: Seq<u32>) -> SceneV {
    let s = SceneV {
        w,
        h,
        c,
        grad,
        wins: seq![
            fixed_win(
                Kind::Monitor,
                "GLM OS 1.6 - system monitor"@,
                ((w - MON_W) / 2) as i32,
                crate::pixels::max((h - TASKBAR_H - MON_H) / 2 - 24, 0) as i32,
                MON_W,
                MON_H,
                true,
            ),
            fixed_win(Kind::About, "GLM OS 1.6 - about"@, 0, 0, ABOUT_W, ABOUT_H, false),
        ],
        z: seq![0usize, 1usize],
        dirty: Seq::empty(),
        s: first_hands(w, h),
    };
    s.with_win(0, s.win_clamped(s.wins[0]))
}

/// The screen with the whole picture on it.
pub open spec fn shown(c: ConsoleV, back: Seq<u32>, w: int, h: int) -> ConsoleV {
    crate::console::screen::blitted(c, back, w, 0, 0, 0, 0, w, h)
}

/// A screen that the desktop can use.
pub open spec fn roomy(c: Option<Console>) -> bool {
    c matches Some(x) ==> x@.wf() && MON_W <= x@.width <= SCREEN_LIMIT && MON_H + TASKBAR_H <= x@.height <= SCREEN_LIMIT
}

fn make_win(kind: Kind, title: &str, x: i32, y: i32, w: i32, h: i32, open: bool) -> (r: Win)
    ensures
        r@ == fixed_win(kind, title@, x, y, w, h, open),
{
    Win {
        id: 0,
        kind,
        owner: 0,
        title: title.to_owned(),
        x,
        y,
        w,
        h,
        open,
        minimized: false,
        buf: Vec::new(),
        ev: Vec::new(),
        term: TermState::empty(),
    }
}

fn make_hands(w: usize, h: usize) -> (s: Hands)
    requires
        w <= SCREEN_LIMIT,
        h <= SCREEN_LIMIT,
    ensures
        s == first_hands(w as int, h as int),
{
    Hands {
        cur_x: (w / 2) as i32,
        cur_y: (h / 2) as i32,
        prev_left: false,
        dragging: None,
        resizing: None,
        menu_open: false,
        menu_hover: None,
        next_id: 0,
        moves: 0,
        clicks: 0,
        drags: 0,
        keys: 0,
        stats_at: 0,
        clock_at: 0,
        frames: 0,
        fps: 0,
        fps_at: 0,
        net_prev: 0,
        net_led: false,
        live: true,
    }
}

/// The desktop at its start is in order.
proof fn lemma_first_scene(w: int, h: int, c: Colors, grad: Seq<u32>)
    requires
        MON_W <= w <= SCREEN_LIMIT,
        MON_H + TASKBAR_H <= h <= SCREEN_LIMIT,
        grad.len() == h,
    ensures
        first_scene(w, h, c, grad).wf(),
{
    let s = first_scene(w, h, c, grad);
    assert(s.z[0] == 0 && s.z[1] == 1);
    assert forall|i: usize| i < s.wins.len() implies #[trigger] s.z.contains(i) by {
        assert(s.z[i as int] == i);
    }
}

fn make_scene(w: usize, h: usize, f: &Format) -> (sc: Scene)
    requires
        MON_W <= w <= SCREEN_LIMIT,
        MON_H + TASKBAR_H <= h <= SCREEN_LIMIT,
        f.wf(),
    ensures
        sc@.wf(),
        sc.c == crate::gui::scene::colors_of(*f, sc.c.pal),
        crate::gui::scene::is_palette(*f, sc.c.pal@),
        sc@ == first_scene(w as int, h as int, sc.c, gradient(*f, h as int)),
{
    let c: Colors = Colors::build(f);
    let grad: Vec<u32> = rows_colors(f, h);
    let top: i32 = (h as i32 - TASKBAR_H - MON_H) / 2 - 24;
    let y: i32 = if top > 0 {
        top
    } else {
        0
    };
    let mut wins: Vec<Win> = Vec::new();
    wins.push(make_win(Kind::Monitor, "GLM OS 1.6 - system monitor", (w as i32 - MON_W) / 2, y, MON_W, MON_H, true));
    wins.push(make_win(Kind::About, "GLM OS 1.6 - about", 0, 0, ABOUT_W, ABOUT_H, false));
    let mut z: Vec<usize> = Vec::new();
    z.push(0);
    z.push(1);
    let mut sc: Scene = Scene { w, h, c, grad, wins, z, dirty: Vec::new(), s: make_hands(w, h) };
    assert(sc@.wins[0] == sc.wins@[0]@);
    sc.clamp_win(MONITOR);
    assert(sc@ =~= first_scene(w as int, h as int, sc.c, gradient(*f, h as int)));
    proof {
        lemma_first_scene(w as int, h as int, sc.c, gradient(*f, h as int));
    }
    sc
}

/// Takes the screen over. It gives up if there is no screen, or no room for a
/// picture of it.
pub fn run(desk: &mut Option<Desk>, con: &mut Option<Console>, keys: &mut Keyboard, f: &Font, rd: &Readings, room: bool) -> (r: bool)
    requires
        roomy(*old(con)),
        old(keys).wf(),
        f.wf(),
    ensures
        final(keys).wf(),
        final(keys)@ == (KeyV { queue: Seq::empty(), ..old(keys)@ }),
        roomy(*final(con)),
        r == (*old(con) is Some && room),
        !r ==> *final(desk) == *old(desk) && *final(con) == *old(con),
        r ==> crate::gui::calls::desk_ok(*final(desk)) && *final(desk) is Some && *final(con) is Some,
        r ==> ({
            let v = old(con)->0@;
            let d = final(desk)->0;
            let (w, h) = (v.width, v.height);
            let sc = first_scene(w, h, d.sc.c, gradient(v.format, h));
            &&& d.sc.c == crate::gui::scene::colors_of(v.format, d.sc.c.pal)
            &&& crate::gui::scene::is_palette(v.format, d.sc.c.pal@)
            &&& d.sc@ == sc
            &&& d.back@ == crate::gui::desktop::composed(
                crate::gui::calls::zeros((w * h) as nat),
                sc,
                *f,
                *rd,
                crate::gui::actions::whole_screen(sc),
            )
            &&& final(con)->0@ == crate::gui::draw::stamped(
                shown(v, d.back@, w, h),
                sc.s.cur_x as int,
                sc.s.cur_y as int,
                0,
            )
        }),
{
    drain(keys);
    match con {
        None => false,
        Some(c) => {
            if !room {
                return false;
            }
            let (w, h) = (c.width(), c.height());
            let sc: Scene = make_scene(w, h, &c.format);
            assert(0 <= w * h <= 0x3FFF_0001) by (nonlinear_arith)
                requires
                    0 <= w <= 0x7FFF,
                    0 <= h <= 0x7FFF,
            ;
            let back: Vec<u32> = zero_buf(w * h);
            let mut d: Desk = Desk { sc, back };
            compose(&mut d, f, rd, Rect { x: 0, y: 0, w: w as i32, h: h as i32 });
            c.blit_from(&d.back, w, 0, 0, 0, 0, w, h);
            stamp_cursor(c, d.sc.s.cur_x, d.sc.s.cur_y);
            *desk = Some(d);
            true
        },
    }
}

// ---------------------------------------------------------------------------
// The pointer
// ---------------------------------------------------------------------------
/// What the mouse did since the last frame.
#[derive(Clone, Copy)]
pub struct Motion {
    pub dx: i32,
    pub dy: i32,
    pub left: bool,
}

/// The pointer after a motion.
pub open spec fn pointed(sc: SceneV, dx: int, dy: int) -> SceneV {
    SceneV {
        s: Hands {
            moves: (sc.s.moves + 1) as u64,
            cur_x: crate::gui::scene::clamped(sc.s.cur_x + dx, 0, sc.w - 2) as i32,
            cur_y: crate::gui::scene::clamped(sc.s.cur_y + dy, 0, sc.h - 2) as i32,
            ..sc.s
        },
        ..sc
    }
}

/// The window that is being dragged follows the pointer.
pub open spec fn dragged(sc: SceneV) -> SceneV {
    match sc.s.dragging {
        None => sc,
        Some(d) => {
            let w = sc.wins[d.slot as int];
            let n = sc.win_clamped(WinV { x: (sc.s.cur_x - d.dx) as i32, y: (sc.s.cur_y - d.dy) as i32, ..w });
            SceneV { s: Hands { drags: (sc.s.drags + 1) as u64, ..sc.s }, ..sc.with_win(d.slot as int, n) }.with_dirty(
                w.full(),
            ).with_dirty(n.full())
        },
    }
}

/// A window with the corner at the pointer; a program's picture is new.
pub open spec fn stretched(sc: SceneV, w: WinV) -> WinV {
    let nw = crate::gui::scene::clamped(sc.s.cur_x - w.x + 1, MIN_WIN_W as int, sc.w - w.x - 2);
    let nh = crate::gui::scene::clamped(sc.s.cur_y - w.y + 1, MIN_WIN_H as int, sc.taskbar_y() - w.y - 2);
    if nw == w.w && nh == w.h {
        w
    } else {
        WinV {
            w: nw as i32,
            h: nh as i32,
            buf: if w.kind == Kind::User {
                crate::gui::calls::zeros(
                    (crate::pixels::max(nw - 4, 1) * crate::pixels::max(nh - TITLE_H - 2, 1)) as nat,
                )
            } else {
                w.buf
            },
            ..w
        }
    }
}

/// The window that is being resized follows the pointer.
pub open spec fn resized(sc: SceneV) -> SceneV {
    match sc.s.resizing {
        None => sc,
        Some(i) => {
            let w = sc.wins[i as int];
            let n = stretched(sc, w);
            sc.with_win(i as int, n).with_dirty(w.full()).with_dirty(n.full())
        },
    }
}

/// The pointer, and what it holds, after a motion.
pub open spec fn moved(sc: SceneV, dx: int, dy: int) -> SceneV {
    if dx != 0 || dy != 0 {
        resized(dragged(pointed(sc, dx, dy)))
    } else {
        sc
    }
}

/// The button was let go: nothing is held any more, and a program whose
/// window was resized is told.
pub open spec fn released(sc: SceneV) -> SceneV {
    let r = match sc.s.resizing {
        None => sc,
        Some(i) => {
            let w = sc.wins[i as int];
            let q = SceneV { s: Hands { resizing: None, ..sc.s }, ..sc };
            if w.kind == Kind::User {
                crate::gui::actions::event_spec(
                    q,
                    i as int,
                    crate::gui::actions::packed_ev(EV_RESIZE, w.w as int, w.h as int),
                )
            } else {
                q
            }
        },
    };
    SceneV { s: Hands { dragging: None, ..r.s }, ..r }
}

/// The button: it acts when it goes down.
pub open spec fn pressed(sc: SceneV, left: bool) -> (SceneV, Click) {
    let (a, k) = if left && !sc.s.prev_left {
        crate::gui::actions::click_spec(SceneV { s: Hands { clicks: (sc.s.clicks + 1) as u64, ..sc.s }, ..sc })
    } else {
        (sc, Click::Nothing)
    };
    let b = if !left && a.s.prev_left {
        released(a)
    } else {
        a
    };
    (SceneV { s: Hands { prev_left: left, ..b.s }, ..b }, k)
}

/// Only one thing is held at a time, and only while the button is down.
pub open spec fn held_ok(s: Hands) -> bool {
    &&& s.dragging is None || s.resizing is None
    &&& !s.prev_left ==> s.dragging is None && s.resizing is None
}

/// The window that is being resized has room for the least size.
pub open spec fn resize_room(sc: SceneV) -> bool {
    sc.s.resizing matches Some(i) ==> {
        let w = sc.wins[i as int];
        w.x + MIN_WIN_W + 2 <= sc.w && w.y + MIN_WIN_H + 2 <= sc.taskbar_y()
    }
}

/// The counters are far from their limits.
pub open spec fn counts_ok(s: Hands) -> bool {
    &&& s.moves < 0x7FFF_FFFF_FFFF_FFFF
    &&& s.clicks < 0x7FFF_FFFF_FFFF_FFFF
    &&& s.drags < 0x7FFF_FFFF_FFFF_FFFF
    &&& s.keys < 0x7FFF_FFFF_FFFF_FFFF
    &&& s.frames < 0x7FFF_FFFF
}

fn drag_step(sc: &mut Scene)
    requires
        old(sc)@.wf(),
        old(sc).s.drags < u64::MAX,
    ensures
        final(sc)@.wf(),
        final(sc).w == old(sc).w && final(sc).h == old(sc).h,
        final(sc)@ == dragged(old(sc)@),
{
    match sc.s.dragging {
        None => {},
        Some(d) => {
            let i: usize = d.slot;
            assert(sc@.wins[i as int] == sc.wins@[i as int]@);
            assert(sc@.wins[i as int].wf());
            let was: Rect = sc.wins[i].full_rect();
            sc.wins[i].x = sc.s.cur_x - d.dx;
            sc.wins[i].y = sc.s.cur_y - d.dy;
            assert(sc@.wins[i as int] == sc.wins@[i as int]@);
            sc.clamp_win(i);
            assert(sc@.wins.len() == sc.wins@.len());
            assert(sc@.wins[i as int] == sc.wins@[i as int]@);
            let now: Rect = sc.wins[i].full_rect();
            sc.s.drags = sc.s.drags + 1;
            sc.dirty_rect(was);
            sc.dirty_rect(now);
            assert(sc@ =~= dragged(old(sc)@));
        },
    }
}

#[verifier::spinoff_prover]
fn resize_step(sc: &mut Scene)
    requires
        old(sc)@.wf(),
        resize_room(old(sc)@),
    ensures
        final(sc)@.wf(),
        final(sc).w == old(sc).w && final(sc).h == old(sc).h,
        final(sc)@ == resized(old(sc)@),
{
    match sc.s.resizing {
        None => {},
        Some(i) => {
            assert(sc@.wins[i as int] == sc.wins@[i as int]@);
            assert(sc@.wins[i as int].wf());
            let was: Rect = sc.wins[i].full_rect();
            let (sw, ty) = (sc.w as i32, sc.taskbar_y());
            let (wx, wy) = (sc.wins[i].x, sc.wins[i].y);
            let nw: i32 = clamp(sc.s.cur_x - wx + 1, MIN_WIN_W, sw - wx - 2);
            let nh: i32 = clamp(sc.s.cur_y - wy + 1, MIN_WIN_H, ty - wy - 2);
            if nw != sc.wins[i].w || nh != sc.wins[i].h {
                sc.wins[i].w = nw;
                sc.wins[i].h = nh;
                if sc.wins[i].kind == Kind::User {
                    let (cw, ch) = ((nw - 4) as usize, (nh - TITLE_H - 2) as usize);
                    assert(0 <= cw * ch <= 0xFFFE_0001) by (nonlinear_arith)
                        requires
                            0 <= cw <= 0xFFFF,
                            0 <= ch <= 0xFFFF,
                    ;
                    sc.wins[i].buf = zero_buf(cw * ch);
                }
            }
            assert(sc@.wins[i as int] == sc.wins@[i as int]@);
            assert(sc@.wins[i as int] =~= stretched(old(sc)@, old(sc)@.wins[i as int]));
            assert(sc@.wins =~= old(sc)@.wins.update(i as int, sc@.wins[i as int]));
            let now: Rect = sc.wins[i].full_rect();
            sc.dirty_rect(was);
            sc.dirty_rect(now);
        },
    }
}

/// The pointer moves, with what it holds.
fn move_step(sc: &mut Scene, dx: i32, dy: i32)
    requires
        old(sc)@.wf(),
        counts_ok(old(sc).s),
        held_ok(old(sc).s),
        resize_room(old(sc)@),
        -0x4000_0000 <= dx <= 0x4000_0000,
        -0x4000_0000 <= dy <= 0x4000_0000,
    ensures
        final(sc)@.wf(),
        final(sc).w == old(sc).w && final(sc).h == old(sc).h,
        final(sc)@ == moved(old(sc)@, dx as int, dy as int),
        final(sc).s.keys == old(sc).s.keys && final(sc).s.clicks == old(sc).s.clicks,
        final(sc).s.frames == old(sc).s.frames,
        final(sc).s.prev_left == old(sc).s.prev_left,
        final(sc).s.dragging == old(sc).s.dragging && final(sc).s.resizing == old(sc).s.resizing,
{
    if dx != 0 || dy != 0 {
        sc.s.moves = sc.s.moves + 1;
        sc.s.cur_x = sc.s.cur_x + dx;
        sc.s.cur_y = sc.s.cur_y + dy;
        sc.clamp_cur();
        assert(sc@ =~= pointed(old(sc)@, dx as int, dy as int));
        drag_step(sc);
        resize_step(sc);
    }
}

fn release_step(sc: &mut Scene)
    requires
        old(sc)@.wf(),
    ensures
        final(sc)@.wf(),
        final(sc).w == old(sc).w && final(sc).h == old(sc).h,
        final(sc)@ == released(old(sc)@),
{
    match sc.s.resizing {
        None => {},
        Some(i) => {
            assert(sc@.wins[i as int] == sc.wins@[i as int]@);
            assert(sc@.wins[i as int].wf());
            let (w, h) = (sc.wins[i].w, sc.wins[i].h);
            sc.s.resizing = None;
            if sc.wins[i].kind == Kind::User {
                push_event(sc, i, pack_ev(EV_RESIZE, w, h));
            }
        },
    }
    sc.s.dragging = None;
    assert(sc@ =~= released(old(sc)@));
}

fn button_step(sc: &mut Scene, left: bool) -> (r: Click)
    requires
        old(sc)@.wf(),
        old(sc).s.clicks < u64::MAX,
    ensures
        final(sc)@.wf(),
        final(sc).w == old(sc).w && final(sc).h == old(sc).h,
        (final(sc)@, r) == pressed(old(sc)@, left),
{
    let mut r: Click = Click::Nothing;
    if left && !sc.s.prev_left {
        sc.s.clicks = sc.s.clicks + 1;
        assert(sc@ =~= SceneV {
            s: Hands { clicks: (old(sc)@.s.clicks + 1) as u64, ..old(sc)@.s },
            ..old(sc)@
        });
        r = on_click(sc);
    }
    if !left && sc.s.prev_left {
        release_step(sc);
    }
    sc.s.prev_left = left;
    r
}

// ---------------------------------------------------------------------------
// The keys
// ---------------------------------------------------------------------------
/// A key goes to the window with the focus, if that is a program's or a
/// terminal's.
pub open spec fn key_given(sc: SceneV, k: u8) -> SceneV {
    match sc.active() {
        None => sc,
        Some(i) => {
            let w = sc.wins[i as int];
            if w.kind == Kind::User {
                crate::gui::actions::event_spec(
                    SceneV { s: Hands { keys: (sc.s.keys + 1) as u64, ..sc.s }, ..sc },
                    i as int,
                    crate::gui::actions::packed_ev(EV_KEY, k as int, 0),
                )
            } else if w.kind == Kind::Term && w.term.input.len() < TERM_IN_CAP {
                sc.with_win(i as int, WinV { term: TermV { input: w.term.input.push(k), ..w.term }, ..w })
            } else {
                sc
            }
        },
    }
}

/// The keys that wait: escape closes the menu, or else ends the desktop and
/// leaves the rest.
pub open spec fn keyed(sc: SceneV, q: Seq<u8>) -> (SceneV, Seq<u8>, bool)
    decreases q.len(),
{
    if q.len() == 0 {
        (sc, q, false)
    } else if q[0] != ESC {
        keyed(key_given(sc, q[0]), q.skip(1))
    } else if sc.s.menu_open {
        keyed(crate::gui::actions::menu_closed(sc), q.skip(1))
    } else {
        (sc, q.skip(1), true)
    }
}

fn key_step(sc: &mut Scene, k: u8)
    requires
        old(sc)@.wf(),
        old(sc).s.keys < u64::MAX,
    ensures
        final(sc)@.wf(),
        final(sc).w == old(sc).w && final(sc).h == old(sc).h,
        final(sc).s.keys <= old(sc).s.keys + 1,
        final(sc)@ == key_given(old(sc)@, k),
{
    match sc.active_idx() {
        None => {},
        Some(i) => {
            assert(sc@.wins[i as int] == sc.wins@[i as int]@);
            assert(sc@.wins[i as int].wf());
            match sc.wins[i].kind {
                Kind::User => {
                    sc.s.keys = sc.s.keys + 1;
                    push_event(sc, i, pack_ev(EV_KEY, k as i32, 0));
                },
                Kind::Term => {
                    if sc.wins[i].term.input.len() < TERM_IN_CAP {
                        sc.wins[i].term.input.push(k);
                        assert(sc@.wins[i as int] == sc.wins@[i as int]@);
                        assert(sc@ =~= key_given(old(sc)@, k));
                    }
                },
                _ => {},
            }
        },
    }
}

/// Takes the keys that wait.
fn keys_step(sc: &mut Scene, keys: &mut Keyboard) -> (quit: bool)
    requires
        old(sc)@.wf(),
        old(sc).s.keys < 0x7FFF_FFFF_FFFF_FFFF,
        old(keys).wf(),
    ensures
        final(sc)@.wf(),
        final(sc).w == old(sc).w && final(sc).h == old(sc).h,
        final(keys).wf(),
        final(keys)@ == (KeyV { queue: final(keys)@.queue, ..old(keys)@ }),
        (final(sc)@, final(keys)@.queue, quit) == keyed(old(sc)@, old(keys)@.queue),
{
    let ghost all = old(keys)@.queue.len();
    proof {
        assert(all <= crate::cpu::keyboard::RING_SIZE);
    }
    loop
        invariant
            sc@.wf(),
            sc.w == old(sc).w && sc.h == old(sc).h,
            keys.wf(),
            keys@ == (KeyV { queue: keys@.queue, ..old(keys)@ }),
            keys@.queue.len() <= all <= crate::cpu::keyboard::RING_SIZE,
            sc.s.keys + keys@.queue.len() <= old(sc).s.keys + all,
            old(sc).s.keys < 0x7FFF_FFFF_FFFF_FFFF,
            keyed(sc@, keys@.queue) == keyed(old(sc)@, old(keys)@.queue),
        decreases keys@.queue.len(),
    {
        match pop(keys) {
            None => {
                return false;
            },
            Some(k) => {
                if k != ESC {
                    key_step(sc, k);
                } else if sc.s.menu_open {
                    close_menu(sc);
                } else {
                    return true;
                }
            },
        }
    }
}

// ---------------------------------------------------------------------------
// What changes with time
// ---------------------------------------------------------------------------
/// The menu item under the pointer stands out.
pub open spec fn hovered(sc: SceneV) -> SceneV {
    if sc.s.menu_open && sc.item_from(0) != sc.s.menu_hover {
        SceneV { s: Hands { menu_hover: sc.item_from(0), ..sc.s }, ..sc }.with_dirty(sc.menu_full())
    } else {
        sc
    }
}

pub open spec fn since(now: u64, then: u64) -> int {
    crate::pixels::max(now - then, 0)
}

/// The monitor is drawn again twice a second.
pub open spec fn stats_ticked(sc: SceneV, now: u64) -> SceneV {
    if since(now, sc.s.stats_at) >= 500 {
        let q = SceneV { s: Hands { stats_at: now, live: !sc.s.live, ..sc.s }, ..sc };
        if sc.wins[MONITOR as int].visible() {
            q.with_dirty(sc.wins[MONITOR as int].content())
        } else {
            q
        }
    } else {
        sc
    }
}

/// The tray is drawn again once a second; its light tells of traffic.
pub open spec fn clock_ticked(sc: SceneV, now: u64, traffic: u64) -> SceneV {
    if since(now, sc.s.clock_at) >= 1000 {
        SceneV {
            s: Hands { clock_at: now, net_led: traffic != sc.s.net_prev, net_prev: traffic, ..sc.s },
            ..sc
        }.with_dirty(sc.tray())
    } else {
        sc
    }
}

/// The frames of a second are counted.
pub open spec fn fps_ticked(sc: SceneV, now: u64) -> SceneV {
    if since(now, sc.s.fps_at) >= 1000 {
        SceneV {
            s: Hands { fps: (sc.s.frames * 1000 / (now - sc.s.fps_at)) as u32, frames: 0, fps_at: now, ..sc.s },
            ..sc
        }
    } else {
        sc
    }
}

pub open spec fn ticked(sc: SceneV, now: u64, traffic: u64) -> SceneV {
    fps_ticked(clock_ticked(stats_ticked(sc, now), now, traffic), now)
}

fn hover_step(sc: &mut Scene)
    requires
        old(sc)@.wf(),
    ensures
        final(sc)@.wf(),
        final(sc).w == old(sc).w && final(sc).h == old(sc).h,
        final(sc)@ == hovered(old(sc)@),
{
    if sc.s.menu_open {
        let hov: Option<usize> = sc.menu_item_at();
        let same: bool = match (hov, sc.s.menu_hover) {
            (Some(a), Some(b)) => a == b,
            (None, None) => true,
            _ => false,
        };
        if !same {
            let r: Rect = sc.menu_full_rect();
            sc.s.menu_hover = hov;
            sc.dirty_rect(r);
            assert(sc@ =~= hovered(old(sc)@));
        }
    }
}

fn passed(now: u64, then: u64, ms: u64) -> (r: bool)
    requires
        ms > 0,
    ensures
        r == (since(now, then) >= ms),
{
    now >= then && now - then >= ms
}

fn tick_step(sc: &mut Scene, now: u64, traffic: u64)
    requires
        old(sc)@.wf(),
    ensures
        final(sc)@.wf(),
        final(sc).w == old(sc).w && final(sc).h == old(sc).h,
        final(sc)@ == ticked(old(sc)@, now, traffic),
{
    if passed(now, sc.s.stats_at, 500) {
        sc.s.stats_at = now;
        sc.s.live = !sc.s.live;
        assert(sc@.wins[MONITOR as int] == sc.wins@[MONITOR as int]@);
        assert(sc@.wins[MONITOR as int].wf());
        if sc.wins[MONITOR].open && !sc.wins[MONITOR].minimized {
            let r: Rect = sc.wins[MONITOR].content_rect();
            sc.dirty_rect(r);
        }
    }
    assert(sc@ =~= stats_ticked(old(sc)@, now));
    if passed(now, sc.s.clock_at, 1000) {
        let r: Rect = sc.tray_rect();
        sc.s.clock_at = now;
        sc.s.net_led = traffic != sc.s.net_prev;
        sc.s.net_prev = traffic;
        sc.dirty_rect(r);
    }
    assert(sc@ =~= clock_ticked(stats_ticked(old(sc)@, now), now, traffic));
    let ghost mid = sc@;
    if passed(now, sc.s.fps_at, 1000) {
        let span: u64 = now - sc.s.fps_at;
        let n: u64 = sc.s.frames as u64 * 1000;
        assert(n / span <= sc.s.frames) by (nonlinear_arith)
            requires
                n == sc.s.frames * 1000,
                span >= 1000,
        ;
        sc.s.fps = (n / span) as u32;
        sc.s.frames = 0;
        sc.s.fps_at = now;
    }
    assert(sc@ =~= fps_ticked(mid, now));
}

// ---------------------------------------------------------------------------
// A frame
// ---------------------------------------------------------------------------
/// What a frame does to the scene before it is drawn; the keys that are
/// left, what a click asked for, and whether the desktop was left.
pub open spec fn acted(sc: SceneV, m: Motion, q: Seq<u8>, rd: Readings) -> (SceneV, Seq<u8>, Click, bool) {
    let (a, k) = pressed(moved(sc, m.dx as int, m.dy as int), m.left);
    let (b, rest, quit) = keyed(a, q);
    (ticked(hovered(b), rd.uptime_ms, (rd.rx + rd.tx) as u64), rest, k, quit)
}

/// The rectangles from the `i`-th on are drawn again.
pub open spec fn all_composed(back: Seq<u32>, sc: SceneV, f: Font, rd: Readings, i: int) -> Seq<u32>
    decreases sc.dirty.len() - i,
{
    if i < 0 || i >= sc.dirty.len() {
        back
    } else {
        all_composed(crate::gui::desktop::composed(back, sc, f, rd, sc.dirty[i]), sc, f, rd, i + 1)
    }
}

/// The rectangles from the `i`-th on are copied to the screen.
pub open spec fn all_shown(c: ConsoleV, back: Seq<u32>, sc: SceneV, i: int) -> ConsoleV
    decreases sc.dirty.len() - i,
{
    if i < 0 || i >= sc.dirty.len() {
        c
    } else {
        let r = crate::gui::rect::on_screen(sc.dirty[i], sc.w, sc.h);
        let d = if r.w > 0 && r.h > 0 {
            crate::console::screen::blitted(
                c,
                back,
                sc.w,
                r.x as int,
                r.y as int,
                r.x as int,
                r.y as int,
                r.w as int,
                r.h as int,
            )
        } else {
            c
        };
        all_shown(d, back, sc, i + 1)
    }
}

/// The room of the pointer.
pub open spec fn pointer_room(sc: SceneV) -> Rect {
    Rect { x: sc.s.cur_x, y: sc.s.cur_y, w: SAVE_W as i32, h: SAVE_H as i32 }
}

pub open spec fn touches(v: Seq<Rect>, r: Rect) -> bool {
    exists|i: int| 0 <= i < v.len() && crate::gui::rect::overlap(#[trigger] v[i], r)
}

/// The screen after a frame: what changed is copied, the pointer is taken
/// from where it was, and drawn where it is.
pub open spec fn refreshed(c: ConsoleV, back: Seq<u32>, sc: SceneV, went: bool, ox: int, oy: int) -> ConsoleV {
    let d = all_shown(c, back, sc, 0);
    let e = if went {
        crate::console::screen::blitted(d, back, sc.w, ox, oy, ox, oy, SAVE_W as int, SAVE_H as int)
    } else {
        d
    };
    if went || touches(sc.dirty, pointer_room(sc)) {
        crate::gui::draw::stamped(e, sc.s.cur_x as int, sc.s.cur_y as int, 0)
    } else {
        e
    }
}

/// Nothing has to be drawn any more.
pub open spec fn settled(sc: SceneV) -> SceneV {
    SceneV { dirty: Seq::empty(), s: Hands { frames: (sc.s.frames + 1) as u32, ..sc.s }, ..sc }
}

fn compose_all(d: &mut Desk, f: &Font, rd: &Readings)
    requires
        old(d).sc@.wf(),
        old(d).back@.len() == old(d).sc@.w * old(d).sc@.h,
        f.wf(),
    ensures
        final(d).sc == old(d).sc,
        final(d).back@.len() == old(d).back@.len(),
        final(d).back@ == all_composed(old(d).back@, old(d).sc@, *f, *rd, 0),
{
    let mut i: usize = 0;
    while i < d.sc.dirty.len()
        invariant
            d.sc == old(d).sc,
            d.sc@.wf(),
            d.back@.len() == d.sc@.w * d.sc@.h,
            i <= d.sc.dirty@.len(),
            f.wf(),
            all_composed(d.back@, d.sc@, *f, *rd, i as int) == all_composed(old(d).back@, old(d).sc@, *f, *rd, 0),
        decreases d.sc.dirty@.len() - i,
    {
        let r: Rect = d.sc.dirty[i];
        assert(r == d.sc@.dirty[i as int]);
        compose(d, f, rd, r);
        i = i + 1;
    }
}

fn show_all(c: &mut Console, d: &Desk)
    requires
        old(c)@.wf(),
        d.sc@.wf(),
    ensures
        final(c)@.wf(),
        final(c)@.width == old(c)@.width && final(c)@.height == old(c)@.height,
        final(c)@ == all_shown(old(c)@, d.back@, d.sc@, 0),
{
    let mut i: usize = 0;
    while i < d.sc.dirty.len()
        invariant
            i <= d.sc.dirty@.len(),
            d.sc@.wf(),
            c@.wf(),
            c@.width == old(c)@.width && c@.height == old(c)@.height,
            all_shown(c@, d.back@, d.sc@, i as int) == all_shown(old(c)@, d.back@, d.sc@, 0),
        decreases d.sc.dirty@.len() - i,
    {
        assert(d.sc.dirty@[i as int] == d.sc@.dirty[i as int]);
        let r: Rect = intersect_screen(d.sc.dirty[i], d.sc.w, d.sc.h);
        if r.w > 0 && r.h > 0 {
            c.blit_from(
                &d.back,
                d.sc.w,
                r.x as usize,
                r.y as usize,
                r.x as usize,
                r.y as usize,
                r.w as usize,
                r.h as usize,
            );
        }
        i = i + 1;
    }
}

fn any_touch(sc: &Scene, r: Rect) -> (b: bool)
    requires
        sc@.wf(),
        crate::gui::rect::edges_ok(r),
    ensures
        b == touches(sc@.dirty, r),
{
    let mut i: usize = 0;
    while i < sc.dirty.len()
        invariant
            i <= sc.dirty@.len(),
            sc@.wf(),
            crate::gui::rect::edges_ok(r),
            forall|j: int| 0 <= j < i ==> !crate::gui::rect::overlap(#[trigger] sc@.dirty[j], r),
        decreases sc.dirty@.len() - i,
    {
        assert(sc.dirty@[i as int] == sc@.dirty[i as int]);
        if rects_intersect(sc.dirty[i], r) {
            return true;
        }
        i = i + 1;
    }
    false
}

/// Draws what changed, and brings it to the screen.
fn render(d: &mut Desk, con: &mut Option<Console>, f: &Font, rd: &Readings, went: bool, ox: i32, oy: i32)
    requires
        old(d).sc@.wf(),
        old(d).back@.len() == old(d).sc@.w * old(d).sc@.h,
        old(d).sc.s.frames < u32::MAX,
        f.wf(),
        *old(con) matches Some(x) ==> x@.wf(),
        0 <= ox,
        0 <= oy,
    ensures
        final(d).sc@.wf(),
        final(d).sc@ == settled(old(d).sc@),
        final(d).back@.len() == old(d).back@.len(),
        final(d).back@ == all_composed(old(d).back@, old(d).sc@, *f, *rd, 0),
        *final(con) is Some == *old(con) is Some,
        *final(con) matches Some(x) ==> x@.wf() && x@ == refreshed(
            old(con)->0@,
            final(d).back@,
            old(d).sc@,
            went,
            ox as int,
            oy as int,
        ) && x@.width == old(con)->0@.width && x@.height == old(con)->0@.height,
{
    let room: Rect = Rect { x: d.sc.s.cur_x, y: d.sc.s.cur_y, w: SAVE_W as i32, h: SAVE_H as i32 };
    let again: bool = went || any_touch(&d.sc, room);
    compose_all(d, f, rd);
    match con {
        None => {},
        Some(c) => {
            show_all(c, d);
            if went {
                c.blit_from(&d.back, d.sc.w, ox as usize, oy as usize, ox as usize, oy as usize, SAVE_W, SAVE_H);
            }
            if again {
                stamp_cursor(c, d.sc.s.cur_x, d.sc.s.cur_y);
            }
        },
    }
    d.sc.dirty = Vec::new();
    d.sc.s.frames = d.sc.s.frames + 1;
    assert(d.sc@ =~= settled(old(d).sc@));
}

/// Why the desktop ends, after a frame.
pub open spec fn ending(k: Click, quit: bool) -> Option<Reason> {
    match k {
        Click::End(r) => Some(r),
        _ => if quit {
            Some(Reason::Esc)
        } else {
            None
        },
    }
}

/// The desktop can go through another frame.
pub open spec fn frame_ready(d: Desk) -> bool {
    &&& d.sc@.wf()
    &&& d.back@.len() == d.sc@.w * d.sc@.h
    &&& held_ok(d.sc.s)
}

proof fn lemma_dirty_hands(sc: SceneV, j: int)
    ensures
        crate::gui::actions::all_dirty(sc, j).s == sc.s,
    decreases sc.wins.len() - j,
{
    if 0 <= j < sc.wins.len() {
        lemma_dirty_hands(sc.with_dirty_win(j), j + 1);
        lemma_dirty_hands(sc, j + 1);
    }
}

/// Focusing a window takes nothing up.
proof fn lemma_focus_hands(sc: SceneV, i: usize)
    ensures
        crate::gui::actions::focus_spec(sc, i).s == sc.s,
{
    let up = SceneV { z: crate::gui::actions::raised(sc.z, i), ..sc }.with_win(
        i as int,
        WinV { minimized: false, ..sc.wins[i as int] },
    );
    lemma_dirty_hands(up, 0);
}

/// The button takes up one thing at most.
proof fn lemma_pressed_held(sc: SceneV, left: bool)
    requires
        held_ok(sc.s),
    ensures
        held_ok(pressed(sc, left).0.s),
        pressed(sc, left).0.s.keys == sc.s.keys,
        pressed(sc, left).0.s.frames == sc.s.frames,
{
    assert forall|t: SceneV, i: usize| (#[trigger] crate::gui::actions::focus_spec(t, i)).s == t.s by {
        lemma_focus_hands(t, i);
    }
}

/// The keys take up nothing.
proof fn lemma_keyed_held(sc: SceneV, q: Seq<u8>)
    ensures
        keyed(sc, q).0.s.dragging == sc.s.dragging,
        keyed(sc, q).0.s.resizing == sc.s.resizing,
        keyed(sc, q).0.s.prev_left == sc.s.prev_left,
        keyed(sc, q).0.s.frames == sc.s.frames,
    decreases q.len(),
{
    if q.len() > 0 {
        if q[0] != ESC {
            lemma_keyed_held(key_given(sc, q[0]), q.skip(1));
        } else if sc.s.menu_open {
            lemma_keyed_held(crate::gui::actions::menu_closed(sc), q.skip(1));
        }
    }
}

/// One frame: the mouse, the keys and the clock act on the scene, and what
/// changed is drawn. It tells what a click asked for, and why the desktop
/// ends, if it does.
pub fn frame(d: &mut Desk, con: &mut Option<Console>, keys: &mut Keyboard, f: &Font, m: &Motion, rd: &Readings) -> (r: (
    Click,
    Option<Reason>,
))
    requires
        frame_ready(*old(d)),
        counts_ok(old(d).sc.s),
        resize_room(old(d).sc@),
        *old(con) matches Some(x) ==> x@.wf(),
        old(keys).wf(),
        f.wf(),
        -0x4000_0000 <= m.dx <= 0x4000_0000,
        -0x4000_0000 <= m.dy <= 0x4000_0000,
        rd.rx + rd.tx <= u64::MAX,
    ensures
        frame_ready(*final(d)),
        final(keys).wf(),
        final(keys)@ == (KeyV { queue: final(keys)@.queue, ..old(keys)@ }),
        *final(con) is Some == *old(con) is Some,
        *final(con) matches Some(x) ==> x@.wf(),
        ({
            let (sc, rest, k, quit) = acted(old(d).sc@, *m, old(keys)@.queue, *rd);
            &&& final(d).sc@ == settled(sc)
            &&& final(keys)@.queue == rest
            &&& final(d).back@ == all_composed(old(d).back@, sc, *f, *rd, 0)
            &&& r == (k, ending(k, quit))
            &&& *final(con) matches Some(x) ==> x@ == refreshed(
                old(con)->0@,
                final(d).back@,
                sc,
                m.dx != 0 || m.dy != 0,
                old(d).sc.s.cur_x as int,
                old(d).sc.s.cur_y as int,
            )
        }),
{
    let (ox, oy) = (d.sc.s.cur_x, d.sc.s.cur_y);
    move_step(&mut d.sc, m.dx, m.dy);
    let ghost s1 = d.sc@;
    let k: Click = button_step(&mut d.sc, m.left);
    let ghost s2 = d.sc@;
    proof {
        lemma_pressed_held(s1, m.left);
    }
    let quit: bool = keys_step(&mut d.sc, keys);
    proof {
        lemma_keyed_held(s2, old(keys)@.queue);
    }
    hover_step(&mut d.sc);
    tick_step(&mut d.sc, rd.uptime_ms, rd.rx + rd.tx);
    let end: Option<Reason> = match k {
        Click::End(r) => Some(r),
        _ => if quit {
            Some(Reason::Esc)
        } else {
            None
        },
    };
    let went: bool = m.dx != 0 || m.dy != 0;
    render(d, con, f, rd, went, ox, oy);
    (k, end)
}

// ---------------------------------------------------------------------------
// The end
// ---------------------------------------------------------------------------
/// What the system does after the desktop.
#[derive(Clone, Copy, PartialEq, Eq, Structural, Debug)]
pub enum After {
    /// The shell goes on.
    Shell,
    Reboot,
    /// The last picture stays for good.
    Frozen,
}

/// The text screen, painted again if it was kept.
pub open spec fn handed_back(c: Option<ConsoleV>) -> Option<ConsoleV> {
    match c {
        None => None,
        Some(v) => if v.grid.on {
            Some(v.redrawn(0))
        } else {
            Some(v)
        },
    }
}

/// Takes the desktop down, and gives the screen back to the text.
fn teardown(desk: &mut Option<Desk>, con: &mut Option<Console>)
    requires
        *old(con) matches Some(x) ==> x@.wf(),
    ensures
        *final(desk) is None,
        *final(con) matches Some(x) ==> x@.wf(),
        crate::console::screen::console_view(*final(con)) == handed_back(crate::console::screen::console_view(*old(con))),
{
    *desk = None;
    redraw_all_global(con);
}

/// Ends the desktop. After a halt it stays, with its last picture.
pub fn finish(desk: &mut Option<Desk>, con: &mut Option<Console>, f: &Font, why: Reason) -> (r: After)
    requires
        crate::gui::calls::desk_ok(*old(desk)),
        *old(con) matches Some(x) ==> x@.wf(),
        f.wf(),
    ensures
        crate::gui::calls::desk_ok(*final(desk)),
        *final(con) matches Some(x) ==> x@.wf(),
        r == match why {
            Reason::Esc => After::Shell,
            Reason::AllClosed => After::Shell,
            Reason::Reboot => After::Reboot,
            Reason::Halt => After::Frozen,
        },
        why != Reason::Halt ==> *final(desk) is None && crate::console::screen::console_view(*final(con))
            == handed_back(crate::console::screen::console_view(*old(con))),
        why == Reason::Halt ==> crate::gui::calls::scene_of(*final(desk)) == crate::gui::calls::scene_of(*old(desk)),
        why == Reason::Halt && *old(desk) is None ==> *final(con) == *old(con),
        why == Reason::Halt && *old(desk) is Some ==> ({
            let d = old(desk)->0;
            let back = crate::gui::desktop::halted(
                crate::gui::desktop::whole(d.back@, d.sc@),
                *f,
                d.sc@,
            ).buf;
            &&& crate::gui::calls::back_of(*final(desk)) == back
            &&& *final(con) is Some == *old(con) is Some
            &&& *final(con) matches Some(x) ==> x@ == shown(old(con)->0@, back, d.sc@.w, d.sc@.h)
        }),
{
    match why {
        Reason::Esc => {
            teardown(desk, con);
            After::Shell
        },
        Reason::AllClosed => {
            teardown(desk, con);
            After::Shell
        },
        Reason::Reboot => {
            teardown(desk, con);
            After::Reboot
        },
        Reason::Halt => {
            match desk {
                None => {},
                Some(d) => {
                    draw_halt_screen(d, f);
                    match con {
                        None => {},
                        Some(c) => {
                            c.blit_from(&d.back, d.sc.w, 0, 0, 0, 0, d.sc.w, d.sc.h);
                        },
                    }
                },
            }
            After::Frozen
        },
    }
}

} // verus!
