//! How the desktop looks.

use vstd::prelude::*;
use vstd::string::StringExecFns;

use crate::console::font::Font;
use crate::console::screen::{Console, ConsoleV};
use crate::console::Rgb;
use crate::gui::paint::{PaintV, Painter};
use crate::gui::rect::Rect;
use crate::gui::scene::{Colors, Kind, Scene, SceneV, Win, WinV, GRIP_SIZE, LINE_H, MARGIN, TITLE_H};
use crate::text::push_dec;

verus! {

// ---------------------------------------------------------------------------
// What the monitor shows
// ---------------------------------------------------------------------------
/// Numbers from the rest of the system.
#[derive(Clone, Copy)]
pub struct Readings {
    pub uptime_ms: u64,
    pub tasks: usize,
    pub switches: u64,
    pub frames_used: usize,
    pub frames_total: usize,
    /// Bytes in use and allocations, if the heap is up.
    pub heap: Option<(usize, usize)>,
    pub packets: u64,
    pub resyncs: u64,
    pub irqs: u64,
    pub rx: u64,
    pub tx: u64,
    pub drops: u64,
}

/// Numbers of the desktop itself.
#[derive(Clone, Copy)]
pub struct MonStats {
    pub open_wins: usize,
    pub user_wins: usize,
    pub fps: u32,
    pub live: bool,
    pub cur_x: i32,
    pub cur_y: i32,
}

pub open spec fn stats_of(sc: SceneV) -> MonStats {
    MonStats {
        open_wins: sc.open_count(sc.wins.len() as int) as usize,
        user_wins: sc.kind_count(Kind::User, sc.wins.len() as int) as usize,
        fps: sc.s.fps,
        live: sc.s.live,
        cur_x: sc.s.cur_x,
        cur_y: sc.s.cur_y,
    }
}

pub fn mon_stats(sc: &Scene) -> (r: MonStats)
    requires
        sc@.wf(),
    ensures
        r == stats_of(sc@),
{
    let (a, b) = sc.count_open(Kind::User);
    MonStats {
        open_wins: a,
        user_wins: b,
        fps: sc.s.fps,
        live: sc.s.live,
        cur_x: sc.s.cur_x,
        cur_y: sc.s.cur_y,
    }
}

pub open spec fn dec(n: int) -> Seq<char> {
    crate::text::dec_text(n as nat)
}

/// The lines of the monitor.
pub open spec fn monitor_line(r: Readings, st: MonStats, n: int) -> Seq<char> {
    let ms = r.uptime_ms;
    if n == 0 {
        "uptime:  "@ + dec((ms / 3_600_000) as int) + "h "@ + dec((ms / 60_000 % 60) as int) + "m "@ + dec(
            (ms / 1000 % 60) as int,
        ) + "s"@
    } else if n == 1 {
        "tasks:   "@ + dec(r.tasks as int) + " alive   ctx switches: "@ + dec(r.switches as int)
    } else if n == 2 {
        "memory:  "@ + dec(r.frames_used as int) + "/"@ + dec(r.frames_total as int) + " frames used"@
    } else if n == 3 {
        match r.heap {
            Some((bytes, allocs)) => "heap:    "@ + dec((bytes / 1024) as int) + " KiB in use ("@ + dec(allocs as int)
                + " allocs)"@,
            None => "heap:    offline"@,
        }
    } else if n == 4 {
        "mouse:   "@ + dec(r.packets as int) + " packets   resync "@ + dec(r.resyncs as int)
    } else if n == 5 {
        "net:     rx "@ + dec(r.rx as int) + " tx "@ + dec(r.tx as int) + " drop "@ + dec(r.drops as int) + " (irq "@
            + dec(r.irqs as int) + ")"@
    } else if n == 6 {
        "gui:     "@ + dec(st.open_wins as int) + " windows ("@ + dec(st.user_wins as int) + " ring-3), "@ + dec(
            st.fps as int,
        ) + " fps"@
    } else {
        "cursor:  "@ + dec(st.cur_x as int) + ", "@ + dec(st.cur_y as int)
    }
}

fn line_text(r: &Readings, st: &MonStats, n: usize) -> (s: String)
    requires
        0 <= st.cur_x,
        0 <= st.cur_y,
    ensures
        s@ == monitor_line(*r, *st, n as int),
{
    let ms: u64 = r.uptime_ms;
    let mut s: String = String::new();
    if n == 0 {
        s = "uptime:  ".to_owned();
        push_dec(&mut s, ms / 3_600_000);
        s.append("h ");
        push_dec(&mut s, ms / 60_000 % 60);
        s.append("m ");
        push_dec(&mut s, ms / 1000 % 60);
        s.append("s");
    } else if n == 1 {
        s = "tasks:   ".to_owned();
        push_dec(&mut s, r.tasks as u64);
        s.append(" alive   ctx switches: ");
        push_dec(&mut s, r.switches);
    } else if n == 2 {
        s = "memory:  ".to_owned();
        push_dec(&mut s, r.frames_used as u64);
        s.append("/");
        push_dec(&mut s, r.frames_total as u64);
        s.append(" frames used");
    } else if n == 3 {
        match r.heap {
            Some((bytes, allocs)) => {
                s = "heap:    ".to_owned();
                push_dec(&mut s, (bytes / 1024) as u64);
                s.append(" KiB in use (");
                push_dec(&mut s, allocs as u64);
                s.append(" allocs)");
            },
            None => {
                s = "heap:    offline".to_owned();
            },
        }
    } else if n == 4 {
        s = "mouse:   ".to_owned();
        push_dec(&mut s, r.packets);
        s.append(" packets   resync ");
        push_dec(&mut s, r.resyncs);
    } else if n == 5 {
        s = "net:     rx ".to_owned();
        push_dec(&mut s, r.rx);
        s.append(" tx ");
        push_dec(&mut s, r.tx);
        s.append(" drop ");
        push_dec(&mut s, r.drops);
        s.append(" (irq ");
        push_dec(&mut s, r.irqs);
        s.append(")");
    } else if n == 6 {
        s = "gui:     ".to_owned();
        push_dec(&mut s, st.open_wins as u64);
        s.append(" windows (");
        push_dec(&mut s, st.user_wins as u64);
        s.append(" ring-3), ");
        push_dec(&mut s, st.fps as u64);
        s.append(" fps");
    } else {
        s = "cursor:  ".to_owned();
        push_dec(&mut s, st.cur_x as u64);
        s.append(", ");
        push_dec(&mut s, st.cur_y as u64);
    }
    s
}

/// The lines of the monitor from the `n`-th on.
pub open spec fn monitor_lines(p: PaintV, f: Font, c: Colors, w: WinV, st: MonStats, r: Readings, n: int) -> PaintV
    decreases 8 - n,
{
    if n < 0 || n >= 8 {
        p
    } else {
        monitor_lines(
            p.text(
                f,
                monitor_line(r, st, n),
                w.x + MARGIN,
                w.y + TITLE_H + 8 + n * LINE_H,
                if n == 6 {
                    c.accent
                } else {
                    c.text
                },
                None,
                1,
            ),
            f,
            c,
            w,
            st,
            r,
            n + 1,
        )
    }
}

pub open spec fn content_cleared(p: PaintV, c: Colors, w: WinV) -> PaintV {
    p.rect(w.x + 2, w.y + TITLE_H + 1, w.w - 4, w.h - TITLE_H - 2, c.win_bg)
}

/// The monitor: its lines, a dot that blinks, and a hint.
pub open spec fn monitor_drawn(p: PaintV, f: Font, c: Colors, w: WinV, st: MonStats, r: Readings) -> PaintV {
    monitor_lines(content_cleared(p, c, w), f, c, w, st, r, 0).rect(
        w.x + w.w - 14,
        w.y + TITLE_H + 10,
        6,
        6,
        if st.live {
            c.accent
        } else {
            c.win_bg
        },
    ).text(f, "esc exits - drag title, grip resizes"@, w.x + MARGIN, w.y + w.h - 18, c.warn, None, 1)
}

fn draw_monitor_content(p: &mut Painter, f: &Font, c: &Colors, win: &Win, st: &MonStats, r: &Readings)
    requires
        old(p)@.wf(),
        f.wf(),
        win@.wf(),
        0 <= st.cur_x,
        0 <= st.cur_y,
    ensures
        final(p)@.wf(),
        crate::gui::paint::same_frame(final(p)@, old(p)@),
        final(p)@ == monitor_drawn(old(p)@, *f, *c, win@, *st, *r),
{
    let (wx, wy, ww, wh) = (win.x, win.y, win.w, win.h);
    p.fill_rect(wx + 2, wy + TITLE_H + 1, ww - 4, wh - TITLE_H - 2, c.win_bg);
    let ghost p1 = p@;
    let mut n: usize = 0;
    while n < 8
        invariant
            n <= 8,
            p@.wf(),
            crate::gui::paint::same_frame(p@, old(p)@),
            f.wf(),
            win@.wf(),
            wx == win.x && wy == win.y,
            0 <= st.cur_x,
            0 <= st.cur_y,
            monitor_lines(p@, *f, *c, win@, *st, *r, n as int) == monitor_lines(p1, *f, *c, win@, *st, *r, 0),
        decreases 8 - n,
    {
        let s: String = line_text(r, st, n);
        let fg: u32 = if n == 6 {
            c.accent
        } else {
            c.text
        };
        p.str8(f, s.as_str(), wx + MARGIN, wy + TITLE_H + 8 + (n as i32) * LINE_H, fg, None, 1);
        n = n + 1;
    }
    let dot: u32 = if st.live {
        c.accent
    } else {
        c.win_bg
    };
    p.fill_rect(wx + ww - 14, wy + TITLE_H + 10, 6, 6, dot);
    p.str8(f, "esc exits - drag title, grip resizes", wx + MARGIN, wy + wh - 18, c.warn, None, 1);
}

// ---------------------------------------------------------------------------
// The window about the system
// ---------------------------------------------------------------------------
pub open spec fn about_line(c: Colors, n: int) -> (Seq<char>, u32) {
    if n == 0 {
        ("the operating system designed,"@, c.text)
    } else if n == 1 {
        ("written and tested by GLM (z.ai)"@, c.text)
    } else if n == 3 {
        ("no_std | preemptive smp | ring3"@, c.text)
    } else if n == 4 {
        ("udp+tcp+icmp networking | fat32"@, c.text)
    } else if n == 5 {
        ("resizable windows + gui syscalls"@, c.accent)
    } else if n == 6 {
        ("double buffered framebuffer gui"@, c.accent)
    } else if n == 8 {
        ("github.com/mel0k1/glm-os"@, c.cyan)
    } else {
        (""@, c.text)
    }
}

fn about_text(c: &Colors, n: usize) -> (r: (&'static str, u32))
    ensures
        (r.0@, r.1) == about_line(*c, n as int),
{
    if n == 0 {
        ("the operating system designed,", c.text)
    } else if n == 1 {
        ("written and tested by GLM (z.ai)", c.text)
    } else if n == 3 {
        ("no_std | preemptive smp | ring3", c.text)
    } else if n == 4 {
        ("udp+tcp+icmp networking | fat32", c.text)
    } else if n == 5 {
        ("resizable windows + gui syscalls", c.accent)
    } else if n == 6 {
        ("double buffered framebuffer gui", c.accent)
    } else if n == 8 {
        ("github.com/mel0k1/glm-os", c.cyan)
    } else {
        ("", c.text)
    }
}

pub open spec fn about_lines(p: PaintV, f: Font, c: Colors, w: WinV, n: int) -> PaintV
    decreases 9 - n,
{
    if n < 0 || n >= 9 {
        p
    } else {
        about_lines(
            p.text(f, about_line(c, n).0, w.x + 16, w.y + 78 + n * LINE_H, about_line(c, n).1, None, 1),
            f,
            c,
            w,
            n + 1,
        )
    }
}

pub open spec fn about_drawn(p: PaintV, f: Font, c: Colors, w: WinV) -> PaintV {
    about_lines(
        content_cleared(p, c, w).text(f, "GLM"@, w.x + 16, w.y + 32, c.accent, None, 2).text(
            f,
            "OS"@,
            w.x + 72,
            w.y + 32,
            c.title_fg,
            None,
            2,
        ).text(
            f,
            "version 1.6.0 - ring-3 file syscalls: userland owns the disk"@,
            w.x + 16,
            w.y + 58,
            c.dim,
            None,
            1,
        ),
        f,
        c,
        w,
        0,
    )
}

fn draw_about_content(p: &mut Painter, f: &Font, c: &Colors, win: &Win)
    requires
        old(p)@.wf(),
        f.wf(),
        win@.wf(),
    ensures
        final(p)@.wf(),
        crate::gui::paint::same_frame(final(p)@, old(p)@),
        final(p)@ == about_drawn(old(p)@, *f, *c, win@),
{
    let (wx, wy, ww, wh) = (win.x, win.y, win.w, win.h);
    p.fill_rect(wx + 2, wy + TITLE_H + 1, ww - 4, wh - TITLE_H - 2, c.win_bg);
    p.str8(f, "GLM", wx + 16, wy + 32, c.accent, None, 2);
    p.str8(f, "OS", wx + 72, wy + 32, c.title_fg, None, 2);
    p.str8(
        f,
        "version 1.6.0 - ring-3 file syscalls: userland owns the disk",
        wx + 16,
        wy + 58,
        c.dim,
        None,
        1,
    );
    let ghost p1 = p@;
    let mut n: usize = 0;
    while n < 9
        invariant
            n <= 9,
            p@.wf(),
            crate::gui::paint::same_frame(p@, old(p)@),
            f.wf(),
            win@.wf(),
            wx == win.x && wy == win.y,
            about_lines(p@, *f, *c, win@, n as int) == about_lines(p1, *f, *c, win@, 0),
        decreases 9 - n,
    {
        let (s, fg) = about_text(c, n);
        p.str8(f, s, wx + 16, wy + 78 + (n as i32) * LINE_H, fg, None, 1);
        n = n + 1;
    }
}

// ---------------------------------------------------------------------------
// Terminals
// ---------------------------------------------------------------------------
/// A color of the palette; one that is too large is the last.
pub open spec fn pal_at(c: Colors, i: u8) -> u32 {
    c.pal@[
        if i < 15 {
            i as int
        } else {
            15
        }
    ]
}

fn pal_color(c: &Colors, i: u8) -> (r: u32)
    ensures
        r == pal_at(*c, i),
{
    if i < 15 {
        c.pal[i as usize]
    } else {
        c.pal[15]
    }
}

/// The cells of a line from `j` on, up to the width.
pub open spec fn cells_drawn(p: PaintV, f: Font, c: Colors, l: Seq<(u8, u8)>, x: int, y: int, cols: int, j: int) -> PaintV
    decreases l.len() - j,
{
    if j < 0 || j >= l.len() || j >= cols {
        p
    } else {
        cells_drawn(
            p.glyph(f, l[j].0, x + j * 8, y, pal_at(c, l[j].1), None, 1),
            f,
            c,
            l,
            x,
            y,
            cols,
            j + 1,
        )
    }
}

fn draw_cells(p: &mut Painter, f: &Font, c: &Colors, l: &Vec<(u8, u8)>, x: i32, y: i32, cols: usize)
    requires
        old(p)@.wf(),
        f.wf(),
        crate::gui::paint::near(x as int),
        crate::gui::paint::near(y as int),
        cols <= 0x1_0000,
    ensures
        final(p)@.wf(),
        crate::gui::paint::same_frame(final(p)@, old(p)@),
        final(p)@ == cells_drawn(old(p)@, *f, *c, l@, x as int, y as int, cols as int, 0),
{
    let n: usize = l.len();
    let mut j: usize = 0;
    while j < n && j < cols
        invariant
            j <= n,
            n == l@.len(),
            cols <= 0x1_0000,
            j <= cols,
            p@.wf(),
            crate::gui::paint::same_frame(p@, old(p)@),
            f.wf(),
            crate::gui::paint::near(x as int),
            crate::gui::paint::near(y as int),
            cells_drawn(p@, *f, *c, l@, x as int, y as int, cols as int, j as int) == cells_drawn(
                old(p)@,
                *f,
                *c,
                l@,
                x as int,
                y as int,
                cols as int,
                0,
            ),
        decreases n - j,
    {
        let (ch, fg) = l[j];
        p.draw_char(f, ch, x + (j as i32) * 8, y, pal_color(c, fg), None, 1);
        j = j + 1;
    }
}

/// The lines from `i` on, each below the one before; `top` is the first that
/// shows.
pub open spec fn lines_drawn(
    p: PaintV,
    f: Font,
    c: Colors,
    l: Seq<Seq<(u8, u8)>>,
    top: int,
    i: int,
    x: int,
    y: int,
    cols: int,
) -> PaintV
    decreases l.len() - i,
{
    if i < 0 || i >= l.len() {
        p
    } else {
        lines_drawn(
            cells_drawn(p, f, c, l[i], x, y + (i - top) * LINE_H, cols, 0),
            f,
            c,
            l,
            top,
            i + 1,
            x,
            y,
            cols,
        )
    }
}

/// How many columns and rows of text a content of a size shows.
pub open spec fn text_cols(w: int) -> int {
    crate::pixels::max((w - 12) / 8, 1)
}

pub open spec fn text_rows(h: int) -> int {
    crate::pixels::max((h - 10) / 14, 1)
}

/// A terminal: the last lines that fit, the line that is being written, and
/// the caret behind it.
pub open spec fn term_drawn(p: PaintV, f: Font, c: Colors, w: WinV) -> PaintV {
    let cr = w.content();
    let p1 = p.rect(cr.x as int, cr.y as int, cr.w as int, cr.h as int, c.term_bg);
    if cr.w < 20 || cr.h < 20 {
        p1
    } else {
        let t = w.term;
        let cols = text_cols(cr.w as int);
        let keep = text_rows(cr.h as int) - 1;
        let top = crate::pixels::max(t.lines.len() - keep, 0);
        let (ox, oy) = (cr.x + 6, cr.y + 5);
        let ly = oy + (t.lines.len() - top) * LINE_H;
        let p2 = lines_drawn(p1, f, c, t.lines, top, top, ox, oy, cols);
        let p3 = cells_drawn(p2, f, c, t.cur, ox, ly, cols, 0);
        if t.caret && t.cur.len() < cols {
            p3.rect(ox + t.cur.len() * 8, ly + 1, 8, LINE_H - 5, pal_at(c, t.fg))
        } else {
            p3
        }
    }
}

#[verifier::spinoff_prover]
fn draw_term_content(p: &mut Painter, f: &Font, c: &Colors, win: &Win)
    requires
        old(p)@.wf(),
        f.wf(),
        win@.wf(),
    ensures
        final(p)@.wf(),
        crate::gui::paint::same_frame(final(p)@, old(p)@),
        final(p)@ == term_drawn(old(p)@, *f, *c, win@),
{
    let cr: Rect = win.content_rect();
    p.fill_rect(cr.x, cr.y, cr.w, cr.h, c.term_bg);
    if cr.w < 20 || cr.h < 20 {
        return;
    }
    let (ox, oy) = (cr.x + 6, cr.y + 5);
    let cols: usize = if (cr.w - 12) / 8 > 1 {
        ((cr.w - 12) / 8) as usize
    } else {
        1
    };
    let rows: usize = if (cr.h - 10) / 14 > 1 {
        ((cr.h - 10) / 14) as usize
    } else {
        1
    };
    let n: usize = win.term.lines.len();
    let top: usize = if n > rows - 1 {
        n - (rows - 1)
    } else {
        0
    };
    let ghost p1 = p@;
    let ghost lines = win@.term.lines;
    let mut i: usize = top;
    while i < n
        invariant
            top <= i <= n,
            n == win.term.lines@.len(),
            n <= 400,
            lines == win@.term.lines,
            cols <= 0x1_0000,
            -0x1_0000 <= ox <= 0x2_0000,
            -0x1_0000 <= oy <= 0x2_0000,
            p@.wf(),
            crate::gui::paint::same_frame(p@, old(p)@),
            f.wf(),
            lines_drawn(p@, *f, *c, lines, top as int, i as int, ox as int, oy as int, cols as int) == lines_drawn(
                p1,
                *f,
                *c,
                lines,
                top as int,
                top as int,
                ox as int,
                oy as int,
                cols as int,
            ),
        decreases n - i,
    {
        assert(lines[i as int] == win.term.lines@[i as int]@);
        draw_cells(p, f, c, &win.term.lines[i], ox, oy + ((i - top) as i32) * LINE_H, cols);
        i = i + 1;
    }
    let ly: i32 = oy + ((n - top) as i32) * LINE_H;
    draw_cells(p, f, c, &win.term.cur, ox, ly, cols);
    let len: usize = win.term.cur.len();
    if win.term.caret && len < cols {
        p.fill_rect(ox + (len as i32) * 8, ly + 1, 8, LINE_H - 5, pal_color(c, win.term.fg));
    }
}

// ---------------------------------------------------------------------------
// Windows
// ---------------------------------------------------------------------------
/// A diagonal of the grip, from its `k`-th pixel on.
pub open spec fn grip_line(p: PaintV, gx: int, gy: int, o: int, k: int, col: u32) -> PaintV
    decreases GRIP_SIZE - o - k,
{
    if k < 0 || k >= GRIP_SIZE - o {
        p
    } else {
        grip_line(p.rect(gx + o + k, gy + GRIP_SIZE - 1 - o - k, 1, 1, col), gx, gy, o, k + 1, col)
    }
}

fn draw_grip_line(p: &mut Painter, gx: i32, gy: i32, o: i32, col: u32)
    requires
        old(p)@.wf(),
        -0x2_0000 <= gx <= 0x4_0000,
        -0x2_0000 <= gy <= 0x4_0000,
        0 <= o <= GRIP_SIZE,
    ensures
        final(p)@.wf(),
        crate::gui::paint::same_frame(final(p)@, old(p)@),
        final(p)@ == grip_line(old(p)@, gx as int, gy as int, o as int, 0, col),
{
    let mut k: i32 = 0;
    while k < GRIP_SIZE - o
        invariant
            0 <= k <= GRIP_SIZE - o,
            0 <= o <= GRIP_SIZE,
            -0x2_0000 <= gx <= 0x4_0000,
            -0x2_0000 <= gy <= 0x4_0000,
            p@.wf(),
            crate::gui::paint::same_frame(p@, old(p)@),
            grip_line(p@, gx as int, gy as int, o as int, k as int, col) == grip_line(
                old(p)@,
                gx as int,
                gy as int,
                o as int,
                0,
                col,
            ),
        decreases GRIP_SIZE - o - k,
    {
        p.px(gx + o + k, gy + GRIP_SIZE - 1 - o - k, col);
        k = k + 1;
    }
}

/// The frame of a window: shadow, body, border, title and boxes.
pub open spec fn frame_drawn(p: PaintV, f: Font, c: Colors, w: WinV, active: bool) -> PaintV {
    let (x, y, ww, wh) = (w.x as int, w.y as int, w.w as int, w.h as int);
    let tb = if active {
        c.title
    } else {
        c.title_dim
    };
    p.rect(x + 4, y + 4, ww, wh, c.shadow).rect(x, y, ww, wh, c.win_bg).rect(x, y, ww, 1, c.win_edge).rect(
        x,
        y + wh - 1,
        ww,
        1,
        c.win_edge,
    ).rect(x, y, 1, wh, c.win_edge).rect(x + ww - 1, y, 1, wh, c.win_edge).rect(
        x + 1,
        y + 1,
        ww - 2,
        TITLE_H - 1,
        tb,
    ).text(f, w.title, x + 8, y + 7, c.title_fg, Some(tb), 1).rect(x + ww - 42, y + 4, 18, 14, c.btn).text(
        f,
        "-"@,
        x + ww - 35,
        y + 7,
        c.btn_fg,
        Some(c.btn),
        1,
    ).rect(x + ww - 24, y + 4, 18, 14, c.close_bg).text(
        f,
        "x"@,
        x + ww - 18,
        y + 7,
        c.title_fg,
        Some(c.close_bg),
        1,
    )
}

/// The content of a program's window: its picture, if that has the size.
pub open spec fn user_drawn(p: PaintV, c: Colors, w: WinV) -> PaintV {
    let cr = w.content();
    if w.buf.len() == w.buf_w() * w.buf_h() && w.buf_w() > 0 {
        p.picture(w.buf, cr.x as int, cr.y as int, w.buf_w(), w.buf_h())
    } else {
        p.rect(cr.x as int, cr.y as int, cr.w as int, cr.h as int, c.win_bg)
    }
}

pub open spec fn content_drawn(p: PaintV, f: Font, c: Colors, w: WinV, st: MonStats, r: Readings) -> PaintV {
    match w.kind {
        Kind::User => user_drawn(p, c, w),
        Kind::Monitor => monitor_drawn(p, f, c, w, st, r),
        Kind::About => about_drawn(p, f, c, w),
        Kind::Term => term_drawn(p, f, c, w),
    }
}

/// A window: its frame, its content and its grip.
pub open spec fn window_drawn(p: PaintV, f: Font, c: Colors, w: WinV, active: bool, st: MonStats, r: Readings) -> PaintV {
    let q = content_drawn(frame_drawn(p, f, c, w, active), f, c, w, st, r);
    let (gx, gy) = (w.x + w.w - GRIP_SIZE, w.y + w.h - GRIP_SIZE);
    grip_line(
        grip_line(grip_line(q, gx, gy, 0, 0, c.grip), gx, gy, 4, 0, c.grip),
        gx,
        gy,
        8,
        0,
        c.grip,
    )
}

fn draw_frame(p: &mut Painter, f: &Font, c: &Colors, win: &Win, active: bool)
    requires
        old(p)@.wf(),
        f.wf(),
        win@.wf(),
    ensures
        final(p)@.wf(),
        crate::gui::paint::same_frame(final(p)@, old(p)@),
        final(p)@ == frame_drawn(old(p)@, *f, *c, win@, active),
{
    let (x, y, ww, wh) = (win.x, win.y, win.w, win.h);
    p.fill_rect(x + 4, y + 4, ww, wh, c.shadow);
    p.fill_rect(x, y, ww, wh, c.win_bg);
    p.fill_rect(x, y, ww, 1, c.win_edge);
    p.fill_rect(x, y + wh - 1, ww, 1, c.win_edge);
    p.fill_rect(x, y, 1, wh, c.win_edge);
    p.fill_rect(x + ww - 1, y, 1, wh, c.win_edge);
    let tb: u32 = if active {
        c.title
    } else {
        c.title_dim
    };
    p.fill_rect(x + 1, y + 1, ww - 2, TITLE_H - 1, tb);
    p.str8(f, win.title.as_str(), x + 8, y + 7, c.title_fg, Some(tb), 1);
    p.fill_rect(x + ww - 42, y + 4, 18, 14, c.btn);
    p.str8(f, "-", x + ww - 35, y + 7, c.btn_fg, Some(c.btn), 1);
    p.fill_rect(x + ww - 24, y + 4, 18, 14, c.close_bg);
    p.str8(f, "x", x + ww - 18, y + 7, c.title_fg, Some(c.close_bg), 1);
}

fn draw_user_content(p: &mut Painter, c: &Colors, win: &Win)
    requires
        old(p)@.wf(),
        win@.wf(),
    ensures
        final(p)@.wf(),
        crate::gui::paint::same_frame(final(p)@, old(p)@),
        final(p)@ == user_drawn(old(p)@, *c, win@),
{
    let cr: Rect = win.content_rect();
    let cw: i32 = if cr.w > 0 {
        cr.w
    } else {
        0
    };
    let ch: i32 = if cr.h > 0 {
        cr.h
    } else {
        0
    };
    assert(0 <= cw * ch <= 0x1_0000_0000) by (nonlinear_arith)
        requires
            0 <= cw <= 0x1_0000,
            0 <= ch <= 0x1_0000,
    ;
    if win.buf.len() as u64 == cw as u64 * ch as u64 && cw > 0 {
        p.blit(&win.buf, cr.x, cr.y, cw, ch);
    } else {
        p.fill_rect(cr.x, cr.y, cr.w, cr.h, c.win_bg);
    }
}

pub fn draw_window(p: &mut Painter, f: &Font, c: &Colors, win: &Win, active: bool, st: &MonStats, r: &Readings)
    requires
        old(p)@.wf(),
        f.wf(),
        win@.wf(),
        0 <= st.cur_x,
        0 <= st.cur_y,
    ensures
        final(p)@.wf(),
        crate::gui::paint::same_frame(final(p)@, old(p)@),
        final(p)@ == window_drawn(old(p)@, *f, *c, win@, active, *st, *r),
{
    draw_frame(p, f, c, win, active);
    match win.kind {
        Kind::User => draw_user_content(p, c, win),
        Kind::Monitor => draw_monitor_content(p, f, c, win, st, r),
        Kind::About => draw_about_content(p, f, c, win),
        Kind::Term => draw_term_content(p, f, c, win),
    }
    let (gx, gy) = (win.x + win.w - GRIP_SIZE, win.y + win.h - GRIP_SIZE);
    draw_grip_line(p, gx, gy, 0, c.grip);
    draw_grip_line(p, gx, gy, 4, c.grip);
    draw_grip_line(p, gx, gy, 8, c.grip);
}

// ---------------------------------------------------------------------------
// The cursor
// ---------------------------------------------------------------------------
/// The arrow: the pixels of each row that are filled, the leftmost the lowest
/// bit.
pub const CURSOR_FILL: [u16; 18] = [
    0x001,
    0x003,
    0x005,
    0x009,
    0x011,
    0x021,
    0x041,
    0x081,
    0x101,
    0x201,
    0x401,
    0x7E1,
    0x029,
    0x055,
    0x052,
    0x0A1,
    0x040,
    0x000,
];

/// Those of its outline.
pub const CURSOR_EDGE: [u16; 18] = [
    0x000,
    0x000,
    0x002,
    0x006,
    0x00E,
    0x01E,
    0x03E,
    0x07E,
    0x0FE,
    0x1FE,
    0x3FE,
    0x01E,
    0x016,
    0x022,
    0x021,
    0x040,
    0x080,
    0x000,
];

pub open spec fn cursor_white() -> Rgb {
    Rgb(245, 245, 245)
}

pub open spec fn cursor_black() -> Rgb {
    Rgb(12, 12, 16)
}

/// The pixels of the arrow from the `k`-th on, twelve to a row.
pub open spec fn stamped(c: ConsoleV, x: int, y: int, k: int) -> ConsoleV
    decreases 216 - k,
{
    if k < 0 || k >= 216 {
        c
    } else {
        let (row, col) = (k / 12, k % 12);
        let d = if (CURSOR_FILL@[row] >> col as u16) & 1 == 1 {
            c.rect_filled(x + col, y + row, 1, 1, cursor_white())
        } else if (CURSOR_EDGE@[row] >> col as u16) & 1 == 1 {
            c.rect_filled(x + col, y + row, 1, 1, cursor_black())
        } else {
            c
        };
        stamped(d, x, y, k + 1)
    }
}

/// Draws the arrow on the screen.
pub fn stamp_cursor(c: &mut Console, x: i32, y: i32)
    requires
        old(c)@.wf(),
    ensures
        final(c)@.wf(),
        final(c)@.width == old(c)@.width && final(c)@.height == old(c)@.height,
        final(c)@ == stamped(
            old(c)@,
            crate::pixels::max(x as int, 0),
            crate::pixels::max(y as int, 0),
            0,
        ),
{
    let x0: usize = if x > 0 {
        x as usize
    } else {
        0
    };
    let y0: usize = if y > 0 {
        y as usize
    } else {
        0
    };
    let white: Rgb = Rgb(245, 245, 245);
    let black: Rgb = Rgb(12, 12, 16);
    let mut k: usize = 0;
    while k < 216
        invariant
            k <= 216,
            x0 <= i32::MAX,
            y0 <= i32::MAX,
            c@.wf(),
            c@.width == old(c)@.width && c@.height == old(c)@.height,
            white == cursor_white(),
            black == cursor_black(),
            stamped(c@, x0 as int, y0 as int, k as int) == stamped(old(c)@, x0 as int, y0 as int, 0),
        decreases 216 - k,
    {
        let (row, col) = (k / 12, k % 12);
        if (CURSOR_FILL[row] >> col as u16) & 1 == 1 {
            c.px(x0 + col, y0 + row, &white);
        } else if (CURSOR_EDGE[row] >> col as u16) & 1 == 1 {
            c.px(x0 + col, y0 + row, &black);
        }
        k = k + 1;
    }
}

} // verus!
