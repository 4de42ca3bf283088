//! The windows and the rest of what the desktop is made of.

use vstd::prelude::*;

use crate::console::{palette, Format, Rgb};
use crate::gui::rect::{push_rect, Rect};
use crate::gui::term_state::{TermState, TermV};

verus! {

// ---------------------------------------------------------------------------
// Colors
// ---------------------------------------------------------------------------
/// The colors of the desktop as pixels of the screen, and those of the text
/// palette.
#[derive(Clone, Copy)]
pub struct Colors {
    pub desk_top: u32,
    pub desk_bot: u32,
    pub mark: u32,
    pub taskbar: u32,
    pub taskbar_edge: u32,
    pub win_bg: u32,
    pub win_edge: u32,
    pub shadow: u32,
    pub title: u32,
    pub title_dim: u32,
    pub title_fg: u32,
    pub text: u32,
    pub dim: u32,
    pub accent: u32,
    pub cyan: u32,
    pub warn: u32,
    pub red: u32,
    pub btn: u32,
    pub btn_edge: u32,
    pub btn_fg: u32,
    pub close_bg: u32,
    pub menu_bg: u32,
    pub menu_edge: u32,
    pub hover: u32,
    pub tb_idle: u32,
    pub tb_active: u32,
    pub white: u32,
    pub black: u32,
    pub grip: u32,
    pub term_bg: u32,
    pub pal: [u32; 16],
}

/// The colors for a format of pixels.
pub open spec fn colors_of(f: Format, pal: [u32; 16]) -> Colors {
    Colors {
        desk_top: f.packed(Rgb(26, 30, 56)),
        desk_bot: f.packed(Rgb(10, 12, 22)),
        mark: f.packed(Rgb(48, 58, 100)),
        taskbar: f.packed(Rgb(10, 11, 18)),
        taskbar_edge: f.packed(Rgb(58, 64, 88)),
        win_bg: f.packed(Rgb(24, 27, 36)),
        win_edge: f.packed(Rgb(82, 88, 110)),
        shadow: f.packed(Rgb(4, 4, 7)),
        title: f.packed(Rgb(40, 96, 210)),
        title_dim: f.packed(Rgb(62, 68, 90)),
        title_fg: f.packed(Rgb(238, 240, 246)),
        text: f.packed(Rgb(198, 204, 216)),
        dim: f.packed(Rgb(126, 132, 148)),
        accent: f.packed(Rgb(94, 226, 141)),
        cyan: f.packed(Rgb(70, 226, 226)),
        warn: f.packed(Rgb(255, 220, 93)),
        red: f.packed(Rgb(235, 90, 90)),
        btn: f.packed(Rgb(54, 58, 72)),
        btn_edge: f.packed(Rgb(122, 128, 150)),
        btn_fg: f.packed(Rgb(235, 235, 235)),
        close_bg: f.packed(Rgb(200, 58, 58)),
        menu_bg: f.packed(Rgb(18, 20, 30)),
        menu_edge: f.packed(Rgb(70, 76, 100)),
        hover: f.packed(Rgb(44, 52, 80)),
        tb_idle: f.packed(Rgb(26, 30, 42)),
        tb_active: f.packed(Rgb(44, 52, 78)),
        white: f.packed(Rgb(245, 245, 245)),
        black: f.packed(Rgb(12, 12, 16)),
        grip: f.packed(Rgb(150, 158, 182)),
        term_bg: f.packed(Rgb(12, 13, 18)),
        pal,
    }
}

/// The palette as pixels.
pub open spec fn is_palette(f: Format, pal: Seq<u32>) -> bool {
    pal.len() == 16 && forall|i: int| 0 <= i < 16 ==> #[trigger] pal[i] == f.packed(crate::console::palette_rgb(i))
}

impl Colors {
    pub fn build(f: &Format) -> (c: Colors)
        requires
            f.wf(),
        ensures
            c == colors_of(*f, c.pal),
            is_palette(*f, c.pal@),
    {
        let mut pal: [u32; 16] = [0u32; 16];
        let mut i: u8 = 0;
        while i < 16
            invariant
                i <= 16,
                f.wf(),
                pal@.len() == 16,
                forall|j: int| 0 <= j < i ==> #[trigger] pal@[j] == f.packed(crate::console::palette_rgb(j)),
            decreases 16 - i,
        {
            let c: Rgb = palette(i);
            pal[i as usize] = f.pack(&c);
            i = i + 1;
        }
        Colors {
            desk_top: f.pack(&Rgb(26, 30, 56)),
            desk_bot: f.pack(&Rgb(10, 12, 22)),
            mark: f.pack(&Rgb(48, 58, 100)),
            taskbar: f.pack(&Rgb(10, 11, 18)),
            taskbar_edge: f.pack(&Rgb(58, 64, 88)),
            win_bg: f.pack(&Rgb(24, 27, 36)),
            win_edge: f.pack(&Rgb(82, 88, 110)),
            shadow: f.pack(&Rgb(4, 4, 7)),
            title: f.pack(&Rgb(40, 96, 210)),
            title_dim: f.pack(&Rgb(62, 68, 90)),
            title_fg: f.pack(&Rgb(238, 240, 246)),
            text: f.pack(&Rgb(198, 204, 216)),
            dim: f.pack(&Rgb(126, 132, 148)),
            accent: f.pack(&Rgb(94, 226, 141)),
            cyan: f.pack(&Rgb(70, 226, 226)),
            warn: f.pack(&Rgb(255, 220, 93)),
            red: f.pack(&Rgb(235, 90, 90)),
            btn: f.pack(&Rgb(54, 58, 72)),
            btn_edge: f.pack(&Rgb(122, 128, 150)),
            btn_fg: f.pack(&Rgb(235, 235, 235)),
            close_bg: f.pack(&Rgb(200, 58, 58)),
            menu_bg: f.pack(&Rgb(18, 20, 30)),
            menu_edge: f.pack(&Rgb(70, 76, 100)),
            hover: f.pack(&Rgb(44, 52, 80)),
            tb_idle: f.pack(&Rgb(26, 30, 42)),
            tb_active: f.pack(&Rgb(44, 52, 78)),
            white: f.pack(&Rgb(245, 245, 245)),
            black: f.pack(&Rgb(12, 12, 16)),
            grip: f.pack(&Rgb(150, 158, 182)),
            term_bg: f.pack(&Rgb(12, 13, 18)),
            pal,
        }
    }
}

// ---------------------------------------------------------------------------
// Sizes
// ---------------------------------------------------------------------------
pub const MON_W: i32 = 380;

pub const MON_H: i32 = 244;

pub const ABOUT_W: i32 = 330;

pub const ABOUT_H: i32 = 190;

pub const TERM_W: i32 = 464;

pub const TERM_H: i32 = 304;

pub const TITLE_H: i32 = 22;

pub const TASKBAR_H: i32 = 28;

pub const START_W: i32 = 56;

pub const TASKBTN_W: i32 = 132;

/// From one line of small text to the next.
pub const LINE_H: i32 = 14;

pub const MARGIN: i32 = 12;

pub const MIN_WIN_W: i32 = 140;

pub const MIN_WIN_H: i32 = 90;

pub const GRIP_SIZE: i32 = 14;

pub const MENU_W: i32 = 190;

pub const MENU_ITEM_H: i32 = 20;

pub const MENU_COUNT: usize = 6;

/// Four items, a line, and two more, with a little room.
pub const MENU_H: i32 = 132;

/// The slot of the system monitor.
pub const MONITOR: usize = 0;

/// The slot of the window about the system.
pub const ABOUT: usize = 1;

pub const MAX_WINS: usize = 10;

/// Events that can wait for a window.
pub const EV_CAP: usize = 32;

/// The widest and highest screen: events carry sizes in 16 bits.
pub const SCREEN_LIMIT: usize = 0x7FFF;

/// Half of a number, towards zero.
pub open spec fn halved(v: int) -> int {
    if v < 0 {
        -((-v) / 2)
    } else {
        v / 2
    }
}

pub fn half(v: i32) -> (r: i32)
    requires
        v > i32::MIN,
    ensures
        r == halved(v as int),
{
    if v < 0 {
        -((-v) / 2)
    } else {
        v / 2
    }
}

/// A number held between two others.
pub open spec fn clamped(v: int, lo: int, hi: int) -> int {
    if v < lo {
        lo
    } else if v > hi {
        hi
    } else {
        v
    }
}

pub fn clamp(v: i32, lo: i32, hi: i32) -> (r: i32)
    requires
        lo <= hi,
    ensures
        r == clamped(v as int, lo as int, hi as int),
{
    if v < lo {
        lo
    } else if v > hi {
        hi
    } else {
        v
    }
}

// ---------------------------------------------------------------------------
// Windows
// ---------------------------------------------------------------------------
#[derive(Clone, Copy, PartialEq, Eq, Structural, Debug)]
pub enum Kind {
    Monitor,
    About,
    User,
    Term,
}

/// A window. Those of programs have a picture of their content and a queue of
/// events; those of terminals have a terminal.
pub struct Win {
    pub id: u32,
    pub kind: Kind,
    /// The task that it belongs to.
    pub owner: u64,
    pub title: String,
    pub x: i32,
    pub y: i32,
    pub w: i32,
    pub h: i32,
    pub open: bool,
    pub minimized: bool,
    pub buf: Vec<u32>,
    pub ev: Vec<u64>,
    pub term: TermState,
}

#[verifier::ext_equal]
pub struct WinV {
    pub id: u32,
    pub kind: Kind,
    pub owner: u64,
    pub title: Seq<char>,
    pub x: i32,
    pub y: i32,
    pub w: i32,
    pub h: i32,
    pub open: bool,
    pub minimized: bool,
    pub buf: Seq<u32>,
    pub ev: Seq<u64>,
    pub term: TermV,
}

impl WinV {
    pub open spec fn wf(self) -> bool {
        &&& -0x8000 <= self.x <= 0x1_0000
        &&& -0x8000 <= self.y <= 0x1_0000
        &&& 0 < self.w <= 0x1_0000
        &&& 0 < self.h <= 0x1_0000
        &&& self.ev.len() <= EV_CAP
        &&& self.term.wf()
    }

    pub open spec fn visible(self) -> bool {
        self.open && !self.minimized
    }

    /// The name on the task bar.
    pub open spec fn short(self) -> Seq<char> {
        match self.kind {
            Kind::Monitor => "system monitor"@,
            Kind::About => "about"@,
            Kind::User => if self.title.len() == 0 {
                "ring-3 app"@
            } else {
                self.title
            },
            Kind::Term => "terminal"@,
        }
    }

    /// Inside the border and below the title.
    pub open spec fn content(self) -> Rect {
        Rect {
            x: (self.x + 2) as i32,
            y: (self.y + TITLE_H + 1) as i32,
            w: (self.w - 4) as i32,
            h: (self.h - TITLE_H - 2) as i32,
        }
    }

    /// With the shadow.
    pub open spec fn full(self) -> Rect {
        Rect { x: self.x, y: self.y, w: (self.w + 4) as i32, h: (self.h + 4) as i32 }
    }

    pub open spec fn body(self) -> Rect {
        Rect { x: self.x, y: self.y, w: self.w, h: self.h }
    }

    /// The corner that resizes.
    pub open spec fn grip(self) -> Rect {
        Rect {
            x: (self.x + self.w - GRIP_SIZE) as i32,
            y: (self.y + self.h - GRIP_SIZE) as i32,
            w: GRIP_SIZE,
            h: GRIP_SIZE,
        }
    }

    /// The width of the content's picture.
    pub open spec fn buf_w(self) -> int {
        crate::pixels::max(self.w - 4, 0)
    }

    pub open spec fn buf_h(self) -> int {
        crate::pixels::max(self.h - TITLE_H - 2, 0)
    }
}

impl Win {
    pub open spec fn view(&self) -> WinV {
        WinV {
            id: self.id,
            kind: self.kind,
            owner: self.owner,
            title: self.title@,
            x: self.x,
            y: self.y,
            w: self.w,
            h: self.h,
            open: self.open,
            minimized: self.minimized,
            buf: self.buf@,
            ev: self.ev@,
            term: self.term@,
        }
    }

    pub fn short(&self) -> (r: &str)
        ensures
            r@ == self@.short(),
    {
        match self.kind {
            Kind::Monitor => "system monitor",
            Kind::About => "about",
            Kind::User => {
                let n: usize = crate::text::chars_of(self.title.as_str()).len();
                if n == 0 {
                    "ring-3 app"
                } else {
                    self.title.as_str()
                }
            },
            Kind::Term => "terminal",
        }
    }

    pub fn content_rect(&self) -> (r: Rect)
        requires
            self@.wf(),
        ensures
            r == self@.content(),
    {
        Rect { x: self.x + 2, y: self.y + TITLE_H + 1, w: self.w - 4, h: self.h - TITLE_H - 2 }
    }

    pub fn full_rect(&self) -> (r: Rect)
        requires
            self@.wf(),
        ensures
            r == self@.full(),
    {
        Rect { x: self.x, y: self.y, w: self.w + 4, h: self.h + 4 }
    }

    pub fn body_rect(&self) -> (r: Rect)
        ensures
            r == self@.body(),
    {
        Rect { x: self.x, y: self.y, w: self.w, h: self.h }
    }

    pub fn grip_rect(&self) -> (r: Rect)
        requires
            self@.wf(),
        ensures
            r == self@.grip(),
    {
        Rect { x: self.x + self.w - GRIP_SIZE, y: self.y + self.h - GRIP_SIZE, w: GRIP_SIZE, h: GRIP_SIZE }
    }
}

// ---------------------------------------------------------------------------
// The scene
// ---------------------------------------------------------------------------
/// Why the desktop ends.
#[derive(Clone, Copy, PartialEq, Eq, Structural, Debug)]
pub enum Reason {
    Esc,
    AllClosed,
    Reboot,
    Halt,
}

impl Reason {
    pub open spec fn name(self) -> Seq<char> {
        match self {
            Reason::Esc => "esc"@,
            Reason::AllClosed => "all-closed"@,
            Reason::Reboot => "reboot"@,
            Reason::Halt => "halt"@,
        }
    }

    pub fn as_str(self) -> (r: &'static str)
        ensures
            r@ == self.name(),
    {
        match self {
            Reason::Esc => "esc",
            Reason::AllClosed => "all-closed",
            Reason::Reboot => "reboot",
            Reason::Halt => "halt",
        }
    }
}

/// A window that is being dragged: its slot, and where it was taken.
#[derive(Clone, Copy, PartialEq, Eq, Structural, Debug)]
pub struct Drag {
    pub slot: usize,
    pub dx: i32,
    pub dy: i32,
}

/// The pointer, the menu and the counters of the desktop.
#[derive(Clone, Copy)]
pub struct Hands {
    pub cur_x: i32,
    pub cur_y: i32,
    pub prev_left: bool,
    pub dragging: Option<Drag>,
    pub resizing: Option<usize>,
    pub menu_open: bool,
    pub menu_hover: Option<usize>,
    pub next_id: u32,
    pub moves: u64,
    pub clicks: u64,
    pub drags: u64,
    pub keys: u64,
    pub stats_at: u64,
    pub clock_at: u64,
    pub frames: u32,
    pub fps: u32,
    pub fps_at: u64,
    pub net_prev: u64,
    pub net_led: bool,
    pub live: bool,
}

/// The desktop without its picture. `z` has the slots of the windows, the
/// topmost last; `dirty` what has to be drawn again.
pub struct Scene {
    pub w: usize,
    pub h: usize,
    pub c: Colors,
    pub grad: Vec<u32>,
    pub wins: Vec<Win>,
    pub z: Vec<usize>,
    pub dirty: Vec<Rect>,
    pub s: Hands,
}

#[verifier::ext_equal]
pub struct SceneV {
    pub w: int,
    pub h: int,
    pub c: Colors,
    pub grad: Seq<u32>,
    pub wins: Seq<WinV>,
    pub z: Seq<usize>,
    pub dirty: Seq<Rect>,
    pub s: Hands,
}

pub open spec fn win_views(v: Seq<Win>) -> Seq<WinV> {
    v.map_values(|w: Win| w@)
}

impl SceneV {
    pub open spec fn wf(self) -> bool {
        &&& MON_W <= self.w <= SCREEN_LIMIT
        &&& MON_H + TASKBAR_H <= self.h <= SCREEN_LIMIT
        &&& self.grad.len() == self.h
        &&& 2 <= self.wins.len() <= MAX_WINS
        &&& self.wins[0].kind == Kind::Monitor
        &&& self.wins[1].kind == Kind::About
        &&& 0 <= self.wins[0].x <= 0x8000 && 0 <= self.wins[0].y <= 0x8000
        &&& 0 <= self.wins[1].x <= 0x8000 && 0 <= self.wins[1].y <= 0x8000
        &&& forall|i: int| 2 <= i < self.wins.len() ==> (#[trigger] self.wins[i]).kind == Kind::User || self.wins[i].kind
            == Kind::Term
        &&& forall|i: int| 0 <= i < self.wins.len() ==> (#[trigger] self.wins[i]).wf()
        &&& self.z.len() == self.wins.len()
        &&& forall|i: int| 0 <= i < self.z.len() ==> (#[trigger] self.z[i]) < self.wins.len()
        &&& forall|i: int, j: int| 0 <= i < j < self.z.len() ==> self.z[i] != self.z[j]
        &&& forall|i: usize| i < self.wins.len() ==> #[trigger] self.z.contains(i)
        &&& crate::gui::rect::all_ok(self.dirty)
        &&& 0 <= self.s.cur_x <= self.w - 2
        &&& 0 <= self.s.cur_y <= self.h - 2
        &&& self.s.dragging matches Some(d) ==> d.slot < self.wins.len() && -0x2_0000 <= d.dx <= 0x2_0000 && -0x2_0000
            <= d.dy <= 0x2_0000
        &&& self.s.resizing matches Some(i) ==> i < self.wins.len()
        &&& self.s.menu_hover matches Some(k) ==> k < MENU_COUNT
    }

    pub open spec fn taskbar_y(self) -> int {
        self.h - TASKBAR_H
    }

    pub open spec fn with_win(self, i: int, w: WinV) -> SceneV {
        SceneV { wins: self.wins.update(i, w), ..self }
    }

    pub open spec fn with_dirty(self, r: Rect) -> SceneV {
        SceneV { dirty: crate::gui::rect::added(self.dirty, r), ..self }
    }

    /// A window has to be drawn again.
    pub open spec fn with_dirty_win(self, i: int) -> SceneV {
        self.with_dirty(self.wins[i].full())
    }

    pub open spec fn taskbar(self) -> Rect {
        Rect { x: 0, y: self.taskbar_y() as i32, w: self.w as i32, h: TASKBAR_H }
    }

    pub open spec fn tray(self) -> Rect {
        Rect { x: (self.w - 220) as i32, y: self.taskbar_y() as i32, w: 220, h: TASKBAR_H }
    }

    pub open spec fn start(self) -> Rect {
        Rect { x: 6, y: (self.taskbar_y() + 4) as i32, w: START_W, h: 20 }
    }

    pub open spec fn menu_panel(self) -> Rect {
        Rect { x: 6, y: (self.taskbar_y() - MENU_H - 4) as i32, w: MENU_W, h: MENU_H }
    }

    /// With its border and shadow.
    pub open spec fn menu_full(self) -> Rect {
        Rect { x: 6, y: (self.taskbar_y() - MENU_H - 4) as i32, w: (MENU_W + 4) as i32, h: (MENU_H + 4) as i32 }
    }

    /// The top of a menu item: four above the line, two below it.
    pub open spec fn menu_item_y(self, k: int) -> int {
        let my = self.taskbar_y() - MENU_H - 4;
        if k < 4 {
            my + 4 + k * MENU_ITEM_H
        } else {
            my + 4 + 4 * MENU_ITEM_H + 6 + (k - 4) * MENU_ITEM_H
        }
    }

    pub open spec fn menu_item(self, k: int) -> Rect {
        Rect { x: 8, y: self.menu_item_y(k) as i32, w: (MENU_W - 4) as i32, h: MENU_ITEM_H }
    }

    /// The item under the pointer, from `k` on.
    pub open spec fn item_from(self, k: int) -> Option<usize>
        decreases MENU_COUNT - k,
    {
        if k < 0 || k >= MENU_COUNT {
            None
        } else if crate::gui::rect::holds(self.menu_item(k), self.s.cur_x as int, self.s.cur_y as int) {
            Some(k as usize)
        } else {
            self.item_from(k + 1)
        }
    }

    /// The button of the `n`-th window on the task bar.
    pub open spec fn task_btn(self, n: int) -> Rect {
        Rect {
            x: (6 + START_W + 6 + n * (TASKBTN_W + 4)) as i32,
            y: (self.taskbar_y() + 4) as i32,
            w: TASKBTN_W,
            h: 20,
        }
    }

    /// The slots of the windows that are open, up to slot `n`.
    pub open spec fn open_slots(self, n: int) -> Seq<usize>
        decreases n,
    {
        if n <= 0 {
            Seq::empty()
        } else if self.wins[n - 1].open {
            self.open_slots(n - 1).push((n - 1) as usize)
        } else {
            self.open_slots(n - 1)
        }
    }

    /// The topmost window that shows, among the lowest `n`.
    pub open spec fn active_below(self, n: int) -> Option<usize>
        decreases n,
    {
        if n <= 0 {
            None
        } else if self.wins[self.z[n - 1] as int].visible() {
            Some(self.z[n - 1])
        } else {
            self.active_below(n - 1)
        }
    }

    /// The window with the focus.
    pub open spec fn active(self) -> Option<usize> {
        self.active_below(self.z.len() as int)
    }

    pub open spec fn any_open(self) -> bool {
        exists|i: int| 0 <= i < self.wins.len() && (#[trigger] self.wins[i]).open
    }

    pub open spec fn has_id(id: u32) -> spec_fn(WinV) -> bool {
        |w: WinV| w.id == id
    }

    /// A window moved so that it is on the screen, above the task bar.
    pub open spec fn win_clamped(self, w: WinV) -> WinV {
        WinV {
            x: clamped(w.x as int, 0, crate::pixels::max(self.w - w.w - 2, 0)) as i32,
            y: clamped(w.y as int, 0, crate::pixels::max(self.taskbar_y() - w.h - 2, 0)) as i32,
            ..w
        }
    }

    /// How many of the first `n` windows are open.
    pub open spec fn open_count(self, n: int) -> nat
        decreases n,
    {
        if n <= 0 {
            0
        } else {
            self.open_count(n - 1) + if self.wins[n - 1].open {
                1nat
            } else {
                0nat
            }
        }
    }

    /// How many of the first `n` windows are open and of a kind.
    pub open spec fn kind_count(self, k: Kind, n: int) -> nat
        decreases n,
    {
        if n <= 0 {
            0
        } else {
            self.kind_count(k, n - 1) + if self.wins[n - 1].open && self.wins[n - 1].kind == k {
                1nat
            } else {
                0nat
            }
        }
    }
}

impl Scene {
    pub open spec fn view(&self) -> SceneV {
        SceneV {
            w: self.w as int,
            h: self.h as int,
            c: self.c,
            grad: self.grad@,
            wins: win_views(self.wins@),
            z: self.z@,
            dirty: self.dirty@,
            s: self.s,
        }
    }

    pub fn taskbar_y(&self) -> (r: i32)
        requires
            self@.wf(),
        ensures
            r == self@.taskbar_y(),
    {
        self.h as i32 - TASKBAR_H
    }

    pub fn clamp_cur(&mut self)
        requires
            MON_W <= old(self).w <= SCREEN_LIMIT,
            MON_H <= old(self).h <= SCREEN_LIMIT,
        ensures
            final(self)@ == (SceneV {
                s: Hands {
                    cur_x: clamped(old(self).s.cur_x as int, 0, old(self).w - 2) as i32,
                    cur_y: clamped(old(self).s.cur_y as int, 0, old(self).h - 2) as i32,
                    ..old(self).s
                },
                ..old(self)@
            }),
    {
        self.s.cur_x = clamp(self.s.cur_x, 0, self.w as i32 - 2);
        self.s.cur_y = clamp(self.s.cur_y, 0, self.h as i32 - 2);
    }

    pub fn clamp_win(&mut self, i: usize)
        requires
            MON_W <= old(self).w <= SCREEN_LIMIT,
            MON_H <= old(self).h <= SCREEN_LIMIT,
            i < old(self).wins@.len(),
            0 < old(self).wins@[i as int].w <= 0x1_0000,
            0 < old(self).wins@[i as int].h <= 0x1_0000,
        ensures
            final(self)@ == old(self)@.with_win(i as int, old(self)@.win_clamped(old(self)@.wins[i as int])),
    {
        assert(self@.wins[i as int] == self.wins@[i as int]@);
        let (ww, wh) = (self.wins[i].w, self.wins[i].h);
        let xm: i32 = self.w as i32 - ww - 2;
        let ym: i32 = self.h as i32 - TASKBAR_H - wh - 2;
        let xmax: i32 = if xm > 0 {
            xm
        } else {
            0
        };
        let ymax: i32 = if ym > 0 {
            ym
        } else {
            0
        };
        self.wins[i].x = clamp(self.wins[i].x, 0, xmax);
        self.wins[i].y = clamp(self.wins[i].y, 0, ymax);
        assert(self@.wins =~= old(self)@.wins.update(i as int, old(self)@.win_clamped(old(self)@.wins[i as int])));
    }

    /// The window with the focus: the topmost that shows.
    pub fn active_idx(&self) -> (r: Option<usize>)
        requires
            self@.wf(),
        ensures
            r == self@.active(),
            r matches Some(i) ==> i < self.wins@.len(),
    {
        let mut n: usize = self.z.len();
        while n > 0
            invariant
                n <= self.z@.len(),
                self@.wf(),
                self@.active_below(n as int) == self@.active(),
            decreases n,
        {
            let i: usize = self.z[n - 1];
            assert(i == self@.z[n - 1]);
            assert(self@.wins[i as int] == self.wins@[i as int]@);
            if self.wins[i].open && !self.wins[i].minimized {
                return Some(i);
            }
            n = n - 1;
        }
        None
    }

    pub fn any_open(&self) -> (r: bool)
        ensures
            r == self@.any_open(),
    {
        let mut i: usize = 0;
        while i < self.wins.len()
            invariant
                i <= self.wins@.len(),
                forall|j: int| 0 <= j < i ==> !(#[trigger] self@.wins[j]).open,
            decreases self.wins@.len() - i,
        {
            assert(self@.wins[i as int] == self.wins@[i as int]@);
            if self.wins[i].open {
                return true;
            }
            i = i + 1;
        }
        false
    }

    pub fn find_by_id(&self, id: u32) -> (r: Option<usize>)
        ensures
            match (r, crate::seqs::first(self@.wins, SceneV::has_id(id))) {
                (Some(i), Some(j)) => i == j && i < self.wins@.len(),
                (None, None) => true,
                _ => false,
            },
    {
        let mut i: usize = 0;
        while i < self.wins.len()
            invariant
                i <= self.wins@.len(),
                crate::seqs::first_from(self@.wins, SceneV::has_id(id), i as int) == crate::seqs::first(
                    self@.wins,
                    SceneV::has_id(id),
                ),
            decreases self.wins@.len() - i,
        {
            assert(self@.wins[i as int] == self.wins@[i as int]@);
            if self.wins[i].id == id {
                return Some(i);
            }
            i = i + 1;
        }
        None
    }

    pub fn dirty_rect(&mut self, r: Rect)
        ensures
            final(self)@ == old(self)@.with_dirty(r),
    {
        push_rect(&mut self.dirty, r);
        assert(self@ =~= old(self)@.with_dirty(r));
    }

    pub fn dirty_win(&mut self, i: usize)
        requires
            old(self)@.wf(),
            i < old(self).wins@.len(),
        ensures
            final(self)@.wf(),
            final(self)@ == old(self)@.with_dirty_win(i as int),
    {
        assert(self@.wins[i as int] == self.wins@[i as int]@);
        assert(self@.wins[i as int].wf());
        let r: Rect = self.wins[i].full_rect();
        self.dirty_rect(r);
    }

    pub fn taskbar_rect(&self) -> (r: Rect)
        requires
            self@.wf(),
        ensures
            r == self@.taskbar(),
            crate::gui::rect::rect_ok(r),
    {
        Rect { x: 0, y: self.taskbar_y(), w: self.w as i32, h: TASKBAR_H }
    }

    pub fn tray_rect(&self) -> (r: Rect)
        requires
            self@.wf(),
        ensures
            r == self@.tray(),
            crate::gui::rect::rect_ok(r),
    {
        Rect { x: self.w as i32 - 220, y: self.taskbar_y(), w: 220, h: TASKBAR_H }
    }

    pub fn start_rect(&self) -> (r: Rect)
        requires
            self@.wf(),
        ensures
            r == self@.start(),
            crate::gui::rect::rect_ok(r),
    {
        Rect { x: 6, y: self.taskbar_y() + 4, w: START_W, h: 20 }
    }

    pub fn menu_panel_rect(&self) -> (r: Rect)
        requires
            self@.wf(),
        ensures
            r == self@.menu_panel(),
            crate::gui::rect::rect_ok(r),
    {
        Rect { x: 6, y: self.taskbar_y() - MENU_H - 4, w: MENU_W, h: MENU_H }
    }

    pub fn menu_full_rect(&self) -> (r: Rect)
        requires
            self@.wf(),
        ensures
            r == self@.menu_full(),
            crate::gui::rect::rect_ok(r),
    {
        Rect { x: 6, y: self.taskbar_y() - MENU_H - 4, w: MENU_W + 4, h: MENU_H + 4 }
    }

    pub fn menu_item_y(&self, k: usize) -> (y: i32)
        requires
            self@.wf(),
            k < MENU_COUNT,
        ensures
            y == self@.menu_item_y(k as int),
    {
        let my: i32 = self.taskbar_y() - MENU_H - 4;
        if k < 4 {
            my + 4 + (k as i32) * MENU_ITEM_H
        } else {
            my + 4 + 4 * MENU_ITEM_H + 6 + ((k - 4) as i32) * MENU_ITEM_H
        }
    }

    pub fn menu_item_rect(&self, k: usize) -> (r: Rect)
        requires
            self@.wf(),
            k < MENU_COUNT,
        ensures
            r == self@.menu_item(k as int),
            crate::gui::rect::rect_ok(r),
    {
        Rect { x: 8, y: self.menu_item_y(k), w: MENU_W - 4, h: MENU_ITEM_H }
    }

    /// The menu item under the pointer.
    pub fn menu_item_at(&self) -> (r: Option<usize>)
        requires
            self@.wf(),
        ensures
            r == self@.item_from(0),
            r matches Some(k) ==> k < MENU_COUNT,
    {
        let mut k: usize = 0;
        while k < MENU_COUNT
            invariant
                k <= MENU_COUNT,
                self@.wf(),
                self@.item_from(k as int) == self@.item_from(0),
            decreases MENU_COUNT - k,
        {
            if crate::gui::rect::point_in(self.s.cur_x, self.s.cur_y, self.menu_item_rect(k)) {
                return Some(k);
            }
            k = k + 1;
        }
        None
    }

    pub fn task_btn_rect(&self, n: usize) -> (r: Rect)
        requires
            self@.wf(),
            n < MAX_WINS,
        ensures
            r == self@.task_btn(n as int),
            crate::gui::rect::rect_ok(r),
    {
        Rect { x: 6 + START_W + 6 + (n as i32) * (TASKBTN_W + 4), y: self.taskbar_y() + 4, w: TASKBTN_W, h: 20 }
    }

    /// The slots of the windows that are open, in the order of the task bar.
    pub fn open_task_slots(&self) -> (v: Vec<usize>)
        ensures
            v@ == self@.open_slots(self.wins@.len() as int),
            v@.len() <= self.wins@.len(),
            forall|i: int| 0 <= i < v@.len() ==> (#[trigger] v@[i]) < self.wins@.len(),
    {
        let mut v: Vec<usize> = Vec::new();
        let mut i: usize = 0;
        assert(v@ =~= self@.open_slots(0));
        while i < self.wins.len()
            invariant
                i <= self.wins@.len(),
                v@ == self@.open_slots(i as int),
                v@.len() <= i,
                forall|j: int| 0 <= j < v@.len() ==> (#[trigger] v@[j]) < i,
            decreases self.wins@.len() - i,
        {
            assert(self@.wins[i as int] == self.wins@[i as int]@);
            if self.wins[i].open {
                v.push(i);
            }
            i = i + 1;
        }
        v
    }

    /// How many windows are open, and how many of them are of a kind.
    pub fn count_open(&self, k: Kind) -> (r: (usize, usize))
        requires
            self.wins@.len() <= MAX_WINS,
        ensures
            r.0 == self@.open_count(self.wins@.len() as int),
            r.1 == self@.kind_count(k, self.wins@.len() as int),
            r.1 <= r.0 <= MAX_WINS,
    {
        let mut a: usize = 0;
        let mut b: usize = 0;
        let mut i: usize = 0;
        while i < self.wins.len()
            invariant
                i <= self.wins@.len() <= MAX_WINS,
                b <= a <= i,
                a == self@.open_count(i as int),
                b == self@.kind_count(k, i as int),
            decreases self.wins@.len() - i,
        {
            assert(self@.wins[i as int] == self.wins@[i as int]@);
            if self.wins[i].open {
                a = a + 1;
                if self.wins[i].kind == k {
                    b = b + 1;
                }
            }
            i = i + 1;
        }
        (a, b)
    }
}

} // verus!
