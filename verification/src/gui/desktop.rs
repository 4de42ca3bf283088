//! The whole picture of the desktop.

use vstd::prelude::*;
use vstd::string::StringExecFns;

use crate::console::font::Font;
use crate::gui::calls::Desk;
use crate::gui::draw::{draw_window, mon_stats, MonStats, Readings};
use crate::gui::paint::{PaintV, Painter};
use crate::gui::rect::{intersect_screen, Rect};
use crate::gui::scene::{half, Colors, Scene, SceneV, WinV, MAX_WINS, MENU_COUNT, MENU_ITEM_H, START_W, TASKBAR_H};
use crate::text::{chars_of, push_dec_zeros, text_of};

verus! {

/// The name of the system in large letters, with a line below.
pub open spec fn watermark_drawn(p: PaintV, f: Font, c: Colors) -> PaintV {
    p.text(f, "GLM OS"@, crate::gui::scene::halved(p.w - 192), p.h / 6, c.mark, None, 4).text(
        f,
        "v1.4 - terminal windows on the desktop"@,
        crate::gui::scene::halved(p.w - 304),
        p.h / 6 + 46,
        c.mark,
        None,
        1,
    )
}

fn draw_watermark(p: &mut Painter, f: &Font, c: &Colors)
    requires
        old(p)@.wf(),
        f.wf(),
    ensures
        final(p)@.wf(),
        crate::gui::paint::same_frame(final(p)@, old(p)@),
        final(p)@ == watermark_drawn(old(p)@, *f, *c),
{
    let (w, h) = (p.w as i32, p.h as i32);
    p.str8(f, "GLM OS", half(w - 192), h / 6, c.mark, None, 4);
    p.str8(f, "v1.4 - terminal windows on the desktop", half(w - 304), h / 6 + 46, c.mark, None, 1);
}

// ---------------------------------------------------------------------------
// The task bar
// ---------------------------------------------------------------------------
/// The bar and the start button, which looks pressed while the menu is open.
pub open spec fn bar_drawn(p: PaintV, f: Font, sc: SceneV) -> PaintV {
    let c = sc.c;
    let ty = sc.taskbar_y();
    let bg = if sc.s.menu_open {
        c.hover
    } else {
        c.btn
    };
    p.rect(0, ty, sc.w, TASKBAR_H as int, c.taskbar).rect(0, ty, sc.w, 1, c.taskbar_edge).rect(
        6,
        ty + 4,
        START_W as int,
        20,
        bg,
    ).rect(6, ty + 4, START_W as int, 1, c.btn_edge).rect(6, ty + 23, START_W as int, 1, c.btn_edge).rect(
        6,
        ty + 4,
        1,
        20,
        c.btn_edge,
    ).rect(5 + START_W, ty + 4, 1, 20, c.btn_edge).rect(12, ty + 10, 8, 8, c.accent).text(
        f,
        "GLM"@,
        26,
        ty + 10,
        c.title_fg,
        Some(bg),
        1,
    )
}

/// The first letters of the name of a window.
pub open spec fn label_of(w: WinV) -> Seq<char> {
    if w.short().len() < 15 {
        w.short()
    } else {
        w.short().take(15)
    }
}

/// The button of a window on the task bar.
pub open spec fn button_drawn(p: PaintV, f: Font, sc: SceneV, n: int, i: usize) -> PaintV {
    let c = sc.c;
    let w = sc.wins[i as int];
    let b = sc.task_btn(n);
    let (bx, by, bw, bh) = (b.x as int, b.y as int, b.w as int, b.h as int);
    let on = sc.active() == Some(i) && !w.minimized;
    let bg = if on {
        c.tb_active
    } else {
        c.tb_idle
    };
    let q = p.rect(bx, by, bw, bh, bg);
    let q1 = if on {
        q.rect(bx, by, bw, 2, c.accent)
    } else {
        q
    };
    q1.rect(bx, by, 1, bh, c.taskbar_edge).rect(bx + bw - 1, by, 1, bh, c.taskbar_edge).rect(
        bx,
        by + bh - 1,
        bw,
        1,
        c.taskbar_edge,
    ).text(
        f,
        label_of(w),
        bx + 8,
        by + 6,
        if w.minimized {
            c.dim
        } else if on {
            c.title_fg
        } else {
            c.text
        },
        Some(bg),
        1,
    )
}

/// The buttons from the `n`-th on.
pub open spec fn buttons_drawn(p: PaintV, f: Font, sc: SceneV, slots: Seq<usize>, n: int) -> PaintV
    decreases slots.len() - n,
{
    if n < 0 || n >= slots.len() {
        p
    } else {
        buttons_drawn(button_drawn(p, f, sc, n, slots[n]), f, sc, slots, n + 1)
    }
}

/// A number in two places.
pub open spec fn two(n: int) -> Seq<char> {
    crate::text::zeros_in(crate::text::dec_text(n as nat), 2)
}

/// The clock and the version.
pub open spec fn tray_text(ms: u64) -> Seq<char> {
    two((ms / 3_600_000 % 100) as int) + ":"@ + two((ms / 60_000 % 60) as int) + ":"@ + two((ms / 1000 % 60) as int)
        + "  GLM 1.6"@
}

fn tray_string(ms: u64) -> (s: String)
    ensures
        s@ == tray_text(ms),
{
    let mut s: String = String::new();
    push_dec_zeros(&mut s, ms / 3_600_000 % 100, 2);
    s.append(":");
    push_dec_zeros(&mut s, ms / 60_000 % 60, 2);
    s.append(":");
    push_dec_zeros(&mut s, ms / 1000 % 60, 2);
    s.append("  GLM 1.6");
    assert(s@ =~= tray_text(ms));
    s
}

/// The tray: a light for traffic, and a text of 17 letters that ends 12
/// pixels before the edge.
pub open spec fn tray_drawn(p: PaintV, f: Font, sc: SceneV, ms: u64) -> PaintV {
    let tx = sc.w - 148;
    p.rect(
        tx - 14,
        sc.taskbar_y() + 12,
        4,
        4,
        if sc.s.net_led {
            sc.c.accent
        } else {
            sc.c.btn_edge
        },
    ).text(f, tray_text(ms), tx, sc.taskbar_y() + 10, sc.c.text, None, 1)
}

pub open spec fn taskbar_drawn(p: PaintV, f: Font, sc: SceneV, ms: u64) -> PaintV {
    tray_drawn(
        buttons_drawn(bar_drawn(p, f, sc), f, sc, sc.open_slots(sc.wins.len() as int), 0),
        f,
        sc,
        ms,
    )
}

fn draw_bar(p: &mut Painter, f: &Font, sc: &Scene)
    requires
        old(p)@.wf(),
        f.wf(),
        sc@.wf(),
    ensures
        final(p)@.wf(),
        crate::gui::paint::same_frame(final(p)@, old(p)@),
        final(p)@ == bar_drawn(old(p)@, *f, sc@),
{
    let c: Colors = sc.c;
    let ty: i32 = sc.taskbar_y();
    let w: i32 = sc.w as i32;
    p.fill_rect(0, ty, w, TASKBAR_H, c.taskbar);
    p.fill_rect(0, ty, w, 1, c.taskbar_edge);
    let bg: u32 = if sc.s.menu_open {
        c.hover
    } else {
        c.btn
    };
    p.fill_rect(6, ty + 4, START_W, 20, bg);
    p.fill_rect(6, ty + 4, START_W, 1, c.btn_edge);
    p.fill_rect(6, ty + 23, START_W, 1, c.btn_edge);
    p.fill_rect(6, ty + 4, 1, 20, c.btn_edge);
    p.fill_rect(5 + START_W, ty + 4, 1, 20, c.btn_edge);
    p.fill_rect(12, ty + 10, 8, 8, c.accent);
    p.str8(f, "GLM", 26, ty + 10, c.title_fg, Some(bg), 1);
}

fn draw_button(p: &mut Painter, f: &Font, sc: &Scene, n: usize, i: usize)
    requires
        old(p)@.wf(),
        f.wf(),
        sc@.wf(),
        n < MAX_WINS,
        i < sc.wins@.len(),
    ensures
        final(p)@.wf(),
        crate::gui::paint::same_frame(final(p)@, old(p)@),
        final(p)@ == button_drawn(old(p)@, *f, sc@, n as int, i),
{
    assert(sc@.wins[i as int] == sc.wins@[i as int]@);
    let c: Colors = sc.c;
    let b: Rect = sc.task_btn_rect(n);
    let (bx, by, bw, bh) = (b.x, b.y, b.w, b.h);
    let mini: bool = sc.wins[i].minimized;
    let on: bool = match sc.active_idx() {
        Some(k) => k == i && !mini,
        None => false,
    };
    let bg: u32 = if on {
        c.tb_active
    } else {
        c.tb_idle
    };
    p.fill_rect(bx, by, bw, bh, bg);
    if on {
        p.fill_rect(bx, by, bw, 2, c.accent);
    }
    p.fill_rect(bx, by, 1, bh, c.taskbar_edge);
    p.fill_rect(bx + bw - 1, by, 1, bh, c.taskbar_edge);
    p.fill_rect(bx, by + bh - 1, bw, 1, c.taskbar_edge);
    let fg: u32 = if mini {
        c.dim
    } else if on {
        c.title_fg
    } else {
        c.text
    };
    let name: Vec<char> = chars_of(sc.wins[i].short());
    let cut: usize = if name.len() < 15 {
        name.len()
    } else {
        15
    };
    let label: String = text_of(vstd::slice::slice_subrange(name.as_slice(), 0, cut));
    assert(label@ =~= label_of(sc@.wins[i as int]));
    p.str8(f, label.as_str(), bx + 8, by + 6, fg, Some(bg), 1);
}

/// Draws the task bar.
fn draw_taskbar(p: &mut Painter, f: &Font, sc: &Scene, ms: u64)
    requires
        old(p)@.wf(),
        f.wf(),
        sc@.wf(),
    ensures
        final(p)@.wf(),
        crate::gui::paint::same_frame(final(p)@, old(p)@),
        final(p)@ == taskbar_drawn(old(p)@, *f, sc@, ms),
{
    draw_bar(p, f, sc);
    let ghost p1 = p@;
    let slots: Vec<usize> = sc.open_task_slots();
    let mut n: usize = 0;
    while n < slots.len()
        invariant
            n <= slots@.len(),
            slots@ == sc@.open_slots(sc@.wins.len() as int),
            slots@.len() <= sc@.wins.len(),
            forall|j: int| 0 <= j < slots@.len() ==> (#[trigger] slots@[j]) < sc@.wins.len(),
            p@.wf(),
            crate::gui::paint::same_frame(p@, old(p)@),
            f.wf(),
            sc@.wf(),
            buttons_drawn(p@, *f, sc@, slots@, n as int) == buttons_drawn(p1, *f, sc@, slots@, 0),
        decreases slots@.len() - n,
    {
        draw_button(p, f, sc, n, slots[n]);
        n = n + 1;
    }
    let s: String = tray_string(ms);
    let tx: i32 = sc.w as i32 - 148;
    let ty: i32 = sc.taskbar_y();
    let led: u32 = if sc.s.net_led {
        sc.c.accent
    } else {
        sc.c.btn_edge
    };
    p.fill_rect(tx - 14, ty + 12, 4, 4, led);
    p.str8(f, s.as_str(), tx, ty + 10, sc.c.text, None, 1);
}

// ---------------------------------------------------------------------------
// The menu
// ---------------------------------------------------------------------------
/// The names of the items.
pub open spec fn item_name(k: int) -> Seq<char> {
    if k == 0 {
        "terminal"@
    } else if k == 1 {
        "system monitor"@
    } else if k == 2 {
        "about glm os"@
    } else if k == 3 {
        "run ring-3 demo"@
    } else if k == 4 {
        "reboot"@
    } else {
        "halt"@
    }
}

fn item_text(k: usize) -> (r: &'static str)
    ensures
        r@ == item_name(k as int),
{
    if k == 0 {
        "terminal"
    } else if k == 1 {
        "system monitor"
    } else if k == 2 {
        "about glm os"
    } else if k == 3 {
        "run ring-3 demo"
    } else if k == 4 {
        "reboot"
    } else {
        "halt"
    }
}

pub open spec fn item_icon(c: Colors, k: int) -> u32 {
    if k == 0 {
        c.accent
    } else if k == 1 {
        c.cyan
    } else if k == 2 {
        c.title
    } else if k == 3 {
        c.warn
    } else if k == 4 {
        c.text
    } else {
        c.red
    }
}

fn item_color(c: &Colors, k: usize) -> (r: u32)
    ensures
        r == item_icon(*c, k as int),
{
    if k == 0 {
        c.accent
    } else if k == 1 {
        c.cyan
    } else if k == 2 {
        c.title
    } else if k == 3 {
        c.warn
    } else if k == 4 {
        c.text
    } else {
        c.red
    }
}

/// An item; a line is above the first of the last two.
pub open spec fn item_drawn(p: PaintV, f: Font, sc: SceneV, k: int) -> PaintV {
    let c = sc.c;
    let m = sc.menu_panel();
    let iy = sc.menu_item_y(k);
    let hot = sc.s.menu_hover == Some(k as usize);
    let q = if k == 4 {
        p.rect(m.x + 4, iy - 3, m.w - 8, 1, c.menu_edge)
    } else {
        p
    };
    let q1 = if hot {
        q.rect(m.x + 2, iy, m.w - 4, MENU_ITEM_H as int, c.hover)
    } else {
        q
    };
    q1.rect(m.x + 8, iy + 6, 8, 8, item_icon(c, k)).text(
        f,
        item_name(k),
        m.x + 24,
        iy + 6,
        if hot {
            c.white
        } else {
            c.text
        },
        None,
        1,
    )
}

pub open spec fn items_drawn(p: PaintV, f: Font, sc: SceneV, k: int) -> PaintV
    decreases MENU_COUNT - k,
{
    if k < 0 || k >= MENU_COUNT {
        p
    } else {
        items_drawn(item_drawn(p, f, sc, k), f, sc, k + 1)
    }
}

/// The menu: shadow, panel, border and items.
pub open spec fn menu_drawn(p: PaintV, f: Font, sc: SceneV) -> PaintV {
    let c = sc.c;
    let m = sc.menu_panel();
    let (mx, my, mw, mh) = (m.x as int, m.y as int, m.w as int, m.h as int);
    items_drawn(
        p.rect(mx + 3, my + 3, mw, mh, c.shadow).rect(mx, my, mw, mh, c.menu_bg).rect(mx, my, mw, 1, c.menu_edge).rect(
            mx,
            my + mh - 1,
            mw,
            1,
            c.menu_edge,
        ).rect(mx, my, 1, mh, c.menu_edge).rect(mx + mw - 1, my, 1, mh, c.menu_edge),
        f,
        sc,
        0,
    )
}

fn draw_item(p: &mut Painter, f: &Font, sc: &Scene, k: usize)
    requires
        old(p)@.wf(),
        f.wf(),
        sc@.wf(),
        k < MENU_COUNT,
    ensures
        final(p)@.wf(),
        crate::gui::paint::same_frame(final(p)@, old(p)@),
        final(p)@ == item_drawn(old(p)@, *f, sc@, k as int),
{
    let c: Colors = sc.c;
    let m: Rect = sc.menu_panel_rect();
    let iy: i32 = sc.menu_item_y(k);
    if k == 4 {
        p.fill_row(iy - 3, m.x + 4, m.x + m.w - 4, c.menu_edge);
    }
    let hot: bool = match sc.s.menu_hover {
        Some(j) => j == k,
        None => false,
    };
    if hot {
        p.fill_rect(m.x + 2, iy, m.w - 4, MENU_ITEM_H, c.hover);
    }
    p.fill_rect(m.x + 8, iy + 6, 8, 8, item_color(&c, k));
    let fg: u32 = if hot {
        c.white
    } else {
        c.text
    };
    p.str8(f, item_text(k), m.x + 24, iy + 6, fg, None, 1);
}

/// Draws the menu.
fn draw_menu(p: &mut Painter, f: &Font, sc: &Scene)
    requires
        old(p)@.wf(),
        f.wf(),
        sc@.wf(),
    ensures
        final(p)@.wf(),
        crate::gui::paint::same_frame(final(p)@, old(p)@),
        final(p)@ == menu_drawn(old(p)@, *f, sc@),
{
    let c: Colors = sc.c;
    let m: Rect = sc.menu_panel_rect();
    let (mx, my, mw, mh) = (m.x, m.y, m.w, m.h);
    p.fill_rect(mx + 3, my + 3, mw, mh, c.shadow);
    p.fill_rect(mx, my, mw, mh, c.menu_bg);
    p.fill_rect(mx, my, mw, 1, c.menu_edge);
    p.fill_rect(mx, my + mh - 1, mw, 1, c.menu_edge);
    p.fill_rect(mx, my, 1, mh, c.menu_edge);
    p.fill_rect(mx + mw - 1, my, 1, mh, c.menu_edge);
    let ghost p1 = p@;
    let mut k: usize = 0;
    while k < MENU_COUNT
        invariant
            k <= MENU_COUNT,
            p@.wf(),
            crate::gui::paint::same_frame(p@, old(p)@),
            f.wf(),
            sc@.wf(),
            items_drawn(p@, *f, sc@, k as int) == items_drawn(p1, *f, sc@, 0),
        decreases MENU_COUNT - k,
    {
        draw_item(p, f, sc, k);
        k = k + 1;
    }
}

// ---------------------------------------------------------------------------
// All of it
// ---------------------------------------------------------------------------
/// The rows from `y` on, each in its color.
pub open spec fn rows_drawn(p: PaintV, grad: Seq<u32>, y: int, end: int, x: int, w: int) -> PaintV
    decreases end - y,
{
    if y < 0 || y >= end || y >= grad.len() {
        p
    } else {
        rows_drawn(p.rect(x, y, w, 1, grad[y]), grad, y + 1, end, x, w)
    }
}

fn draw_rows(p: &mut Painter, grad: &Vec<u32>, y0: i32, end: i32, x: i32, w: i32)
    requires
        old(p)@.wf(),
        0 <= y0 <= 0x1_0000,
        end <= grad@.len() <= 0x1_0000,
        0 <= x <= 0x1_0000,
        0 <= w <= 0x1_0000,
    ensures
        final(p)@.wf(),
        crate::gui::paint::same_frame(final(p)@, old(p)@),
        final(p)@ == rows_drawn(old(p)@, grad@, y0 as int, end as int, x as int, w as int),
{
    let mut y: i32 = y0;
    while y < end
        invariant
            0 <= y <= 0x1_0000,
            end <= grad@.len() <= 0x1_0000,
            0 <= x <= 0x1_0000,
            0 <= w <= 0x1_0000,
            p@.wf(),
            crate::gui::paint::same_frame(p@, old(p)@),
            rows_drawn(p@, grad@, y as int, end as int, x as int, w as int) == rows_drawn(
                old(p)@,
                grad@,
                y0 as int,
                end as int,
                x as int,
                w as int,
            ),
        decreases end - y,
    {
        p.fill_row(y, x, x + w, grad[y as usize]);
        y = y + 1;
    }
}

/// The windows that show, from the `k`-th lowest on.
pub open spec fn windows_drawn(p: PaintV, f: Font, sc: SceneV, rd: Readings, k: int) -> PaintV
    decreases sc.z.len() - k,
{
    if k < 0 || k >= sc.z.len() {
        p
    } else {
        let i = sc.z[k];
        let w = sc.wins[i as int];
        let q = if w.visible() {
            crate::gui::draw::window_drawn(
                p,
                f,
                sc.c,
                w,
                sc.active() == Some(i),
                crate::gui::draw::stats_of(sc),
                rd,
            )
        } else {
            p
        };
        windows_drawn(q, f, sc, rd, k + 1)
    }
}

fn draw_windows(p: &mut Painter, f: &Font, sc: &Scene, rd: &Readings)
    requires
        old(p)@.wf(),
        f.wf(),
        sc@.wf(),
    ensures
        final(p)@.wf(),
        crate::gui::paint::same_frame(final(p)@, old(p)@),
        final(p)@ == windows_drawn(old(p)@, *f, sc@, *rd, 0),
{
    let st: MonStats = mon_stats(sc);
    let active: Option<usize> = sc.active_idx();
    let mut k: usize = 0;
    while k < sc.z.len()
        invariant
            k <= sc.z@.len(),
            p@.wf(),
            crate::gui::paint::same_frame(p@, old(p)@),
            f.wf(),
            sc@.wf(),
            active == sc@.active(),
            st == crate::gui::draw::stats_of(sc@),
            windows_drawn(p@, *f, sc@, *rd, k as int) == windows_drawn(old(p)@, *f, sc@, *rd, 0),
        decreases sc.z@.len() - k,
    {
        let i: usize = sc.z[k];
        assert(sc@.z[k as int] == i);
        assert(sc@.wins[i as int] == sc.wins@[i as int]@);
        assert(sc@.wins[i as int].wf());
        if sc.wins[i].open && !sc.wins[i].minimized {
            let on: bool = match active {
                Some(a) => a == i,
                None => false,
            };
            draw_window(p, f, &sc.c, &sc.wins[i], on, &st, rd);
        }
        k = k + 1;
    }
}

/// What is in a rectangle of the desktop: the ground, the windows from the
/// lowest to the topmost, the task bar, and the menu above all.
pub open spec fn layers(p: PaintV, f: Font, sc: SceneV, rd: Readings) -> PaintV {
    let c = p.clip;
    let q = taskbar_drawn(
        windows_drawn(
            watermark_drawn(rows_drawn(p, sc.grad, c.y as int, c.y + c.h, c.x as int, c.w as int), f, sc.c),
            f,
            sc,
            rd,
            0,
        ),
        f,
        sc,
        rd.uptime_ms,
    );
    if sc.s.menu_open {
        menu_drawn(q, f, sc)
    } else {
        q
    }
}

/// The picture with a rectangle drawn again.
pub open spec fn composed(back: Seq<u32>, sc: SceneV, f: Font, rd: Readings, r: Rect) -> Seq<u32> {
    let clip = crate::gui::rect::on_screen(r, sc.w, sc.h);
    if clip.w <= 0 || clip.h <= 0 {
        back
    } else {
        layers(PaintV { buf: back, w: sc.w, h: sc.h, clip }, f, sc, rd).buf
    }
}

/// Draws a rectangle of the desktop again.
pub fn compose(d: &mut Desk, f: &Font, rd: &Readings, r: Rect)
    requires
        old(d).sc@.wf(),
        old(d).back@.len() == old(d).sc@.w * old(d).sc@.h,
        f.wf(),
        crate::gui::rect::edges_ok(r),
    ensures
        final(d).sc == old(d).sc,
        final(d).back@.len() == old(d).back@.len(),
        final(d).back@ == composed(old(d).back@, old(d).sc@, *f, *rd, r),
{
    let clip: Rect = intersect_screen(r, d.sc.w, d.sc.h);
    if clip.w <= 0 || clip.h <= 0 {
        return;
    }
    let mut buf: Vec<u32> = Vec::new();
    core::mem::swap(&mut buf, &mut d.back);
    let mut p: Painter = Painter { buf, w: d.sc.w, h: d.sc.h, clip };
    draw_rows(&mut p, &d.sc.grad, clip.y, clip.y + clip.h, clip.x, clip.w);
    draw_watermark(&mut p, f, &d.sc.c);
    draw_windows(&mut p, f, &d.sc, rd);
    draw_taskbar(&mut p, f, &d.sc, rd.uptime_ms);
    if d.sc.s.menu_open {
        draw_menu(&mut p, f, &d.sc);
    }
    d.back = p.buf;
}

/// The last picture, after the system was halted.
pub open spec fn halted(p: PaintV, f: Font, sc: SceneV) -> PaintV {
    rows_drawn(p, sc.grad, 0, p.h, 0, p.w).text(
        f,
        "GLM OS 1.6"@,
        crate::gui::scene::halved(p.w - 240),
        p.h / 2 - 44,
        sc.c.accent,
        None,
        3,
    ).text(
        f,
        "it is now safe to turn off your computer."@,
        crate::gui::scene::halved(p.w - 328),
        p.h / 2 + 6,
        sc.c.white,
        None,
        1,
    ).text(
        f,
        "halted from the start menu - scheduler still alive"@,
        crate::gui::scene::halved(p.w - 400),
        p.h / 2 + 26,
        sc.c.dim,
        None,
        1,
    )
}

pub open spec fn whole(back: Seq<u32>, sc: SceneV) -> PaintV {
    PaintV { buf: back, w: sc.w, h: sc.h, clip: Rect { x: 0, y: 0, w: sc.w as i32, h: sc.h as i32 } }
}

/// Draws the last picture.
pub fn draw_halt_screen(d: &mut Desk, f: &Font)
    requires
        old(d).sc@.wf(),
        old(d).back@.len() == old(d).sc@.w * old(d).sc@.h,
        f.wf(),
    ensures
        final(d).sc == old(d).sc,
        final(d).back@.len() == old(d).back@.len(),
        final(d).back@ == halted(whole(old(d).back@, old(d).sc@), *f, old(d).sc@).buf,
{
    let mut buf: Vec<u32> = Vec::new();
    core::mem::swap(&mut buf, &mut d.back);
    let (w, h) = (d.sc.w as i32, d.sc.h as i32);
    let c: Colors = d.sc.c;
    let mut p: Painter = Painter { buf, w: d.sc.w, h: d.sc.h, clip: Rect { x: 0, y: 0, w, h } };
    draw_rows(&mut p, &d.sc.grad, 0, h, 0, w);
    p.str8(f, "GLM OS 1.6", half(w - 240), h / 2 - 44, c.accent, None, 3);
    p.str8(f, "it is now safe to turn off your computer.", half(w - 328), h / 2 + 6, c.white, None, 1);
    p.str8(f, "halted from the start menu - scheduler still alive", half(w - 400), h / 2 + 26, c.dim, None, 1);
    d.back = p.buf;
}

} // verus!
