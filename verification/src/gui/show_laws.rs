//! What the desktop shows of its windows.

use vstd::prelude::*;

use crate::console::font::Font;
use crate::gui::draw::Readings;
use crate::gui::paint::PaintV;
use crate::gui::rect::Rect;
use crate::gui::scene::{Kind, SceneV, WinV};

verus! {

/// The pixel in a column of a row.
pub open spec fn pixel(p: PaintV, x: int, y: int) -> u32 {
    p.buf[y * p.w + x]
}

/// A picture of its size, with the pixel in it and in the part that is drawn.
pub open spec fn lit(p: PaintV, x: int, y: int) -> bool {
    &&& p.buf.len() == p.w * p.h
    &&& 0 <= x < p.w
    &&& 0 <= y < p.h
    &&& p.clip.x <= x < p.clip.x + p.clip.w
    &&& p.clip.y <= y < p.clip.y + p.clip.h
}

proof fn lemma_at(p: PaintV, x: int, y: int)
    requires
        lit(p, x, y),
    ensures
        0 <= y * p.w + x < p.buf.len(),
        (y * p.w + x) / p.w == y,
        (y * p.w + x) % p.w == x,
{
    assert((y + 1) * p.w <= p.w * p.h) by (nonlinear_arith)
        requires
            0 <= y < p.h,
            p.w >= 0,
    ;
    crate::pixels::lemma_place(p.w, x, y, p.buf.len() as int);
}

/// A rectangle: inside it the color, outside what was there.
pub proof fn law_rectangle(p: PaintV, rx: int, ry: int, rw: int, rh: int, col: u32, x: int, y: int)
    requires
        lit(p, x, y),
    ensures
        ({
            let q = p.rect(rx, ry, rw, rh, col);
            &&& lit(q, x, y) && q.w == p.w && q.h == p.h && q.clip == p.clip
            &&& pixel(q, x, y) == if rx <= x < rx + rw && ry <= y < ry + rh {
                col
            } else {
                pixel(p, x, y)
            }
        }),
{
    lemma_at(p, x, y);
}

/// A picture: inside its rectangle the pixels of the source, outside what was
/// there.
pub proof fn law_picture(p: PaintV, src: Seq<u32>, dx: int, dy: int, bw: int, bh: int, x: int, y: int)
    requires
        lit(p, x, y),
    ensures
        ({
            let q = p.picture(src, dx, dy, bw, bh);
            &&& lit(q, x, y) && q.w == p.w && q.h == p.h && q.clip == p.clip
            &&& pixel(q, x, y) == if dx <= x < dx + bw && dy <= y < dy + bh {
                src[(y - dy) * bw + (x - dx)]
            } else {
                pixel(p, x, y)
            }
        }),
{
    lemma_at(p, x, y);
}

/// Text stays in its eight rows of dots.
proof fn lemma_bytes(
    p: PaintV,
    f: Font,
    b: Seq<u8>,
    i: int,
    tx: int,
    ty: int,
    fg: u32,
    bg: Option<u32>,
    scale: int,
    x: int,
    y: int,
)
    requires
        lit(p, x, y),
        y < ty || y >= ty + 8 * scale,
    ensures
        ({
            let q = p.bytes(f, b, i, tx, ty, fg, bg, scale);
            &&& lit(q, x, y) && q.w == p.w && q.h == p.h && q.clip == p.clip
            &&& pixel(q, x, y) == pixel(p, x, y)
        }),
    decreases b.len() - i,
{
    if 0 <= i < b.len() {
        lemma_at(p, x, y);
        lemma_bytes(p.glyph(f, b[i], tx + i * 8 * scale, ty, fg, bg, scale), f, b, i + 1, tx, ty, fg, bg, scale, x, y);
    }
}

proof fn lemma_grip(p: PaintV, gx: int, gy: int, o: int, k: int, col: u32, x: int, y: int)
    requires
        lit(p, x, y),
        0 <= o,
        0 <= k,
        x < gx || y < gy,
    ensures
        ({
            let q = crate::gui::draw::grip_line(p, gx, gy, o, k, col);
            &&& lit(q, x, y) && q.w == p.w && q.h == p.h && q.clip == p.clip
            &&& pixel(q, x, y) == pixel(p, x, y)
        }),
    decreases 14 - o - k,
{
    if k < 14 - o {
        law_rectangle(p, gx + o + k, gy + 13 - o - k, 1, 1, col, x, y);
        lemma_grip(p.rect(gx + o + k, gy + 13 - o - k, 1, 1, col), gx, gy, o, k + 1, col, x, y);
    }
}

/// The frame of a window keeps the picture a picture.
#[verifier::spinoff_prover]
proof fn lemma_frame(p: PaintV, f: Font, c: crate::gui::scene::Colors, w: WinV, active: bool, x: int, y: int)
    requires
        lit(p, x, y),
    ensures
        ({
            let q = crate::gui::draw::frame_drawn(p, f, c, w, active);
            lit(q, x, y) && q.w == p.w && q.h == p.h && q.clip == p.clip
        }),
{
    let (wx, wy, ww, wh) = (w.x as int, w.y as int, w.w as int, w.h as int);
    let tb = if active {
        c.title
    } else {
        c.title_dim
    };
    let a = p.rect(wx + 4, wy + 4, ww, wh, c.shadow).rect(wx, wy, ww, wh, c.win_bg).rect(
        wx,
        wy,
        ww,
        1,
        c.win_edge,
    ).rect(wx, wy + wh - 1, ww, 1, c.win_edge).rect(wx, wy, 1, wh, c.win_edge).rect(
        wx + ww - 1,
        wy,
        1,
        wh,
        c.win_edge,
    ).rect(wx + 1, wy + 1, ww - 2, 21, tb);
    lemma_kept_size(a, f, vstd::utf8::encode_utf8(w.title), 0, wx + 8, wy + 7, c.title_fg, Some(tb), 1);
    let b = a.text(f, w.title, wx + 8, wy + 7, c.title_fg, Some(tb), 1).rect(wx + ww - 42, wy + 4, 18, 14, c.btn);
    lemma_kept_size(b, f, vstd::utf8::encode_utf8("-"@), 0, wx + ww - 35, wy + 7, c.btn_fg, Some(c.btn), 1);
    let d = b.text(f, "-"@, wx + ww - 35, wy + 7, c.btn_fg, Some(c.btn), 1).rect(
        wx + ww - 24,
        wy + 4,
        18,
        14,
        c.close_bg,
    );
    lemma_kept_size(d, f, vstd::utf8::encode_utf8("x"@), 0, wx + ww - 18, wy + 7, c.title_fg, Some(c.close_bg), 1);
}

proof fn lemma_kept_size(
    p: PaintV,
    f: Font,
    b: Seq<u8>,
    i: int,
    tx: int,
    ty: int,
    fg: u32,
    bg: Option<u32>,
    scale: int,
)
    ensures
        ({
            let q = p.bytes(f, b, i, tx, ty, fg, bg, scale);
            q.buf.len() == p.buf.len() && q.w == p.w && q.h == p.h && q.clip == p.clip
        }),
    decreases b.len() - i,
{
    if 0 <= i < b.len() {
        lemma_kept_size(p.glyph(f, b[i], tx + i * 8 * scale, ty, fg, bg, scale), f, b, i + 1, tx, ty, fg, bg, scale);
    }
}

/// The window of a program as it is drawn: its canvas from its corner, 2
/// columns right and 23 rows down, apart from the grip.
#[verifier::spinoff_prover]
pub proof fn law_window_shows_its_canvas(
    p: PaintV,
    f: Font,
    c: crate::gui::scene::Colors,
    w: WinV,
    active: bool,
    st: crate::gui::draw::MonStats,
    rd: Readings,
    x: int,
    y: int,
)
    requires
        lit(p, x, y),
        w.wf(),
        w.kind == Kind::User,
        w.w > 4 && w.h > 24,
        w.buf.len() == (w.w - 4) * (w.h - 24),
        w.x + 2 <= x < w.x + w.w - 2,
        w.y + 23 <= y < w.y + w.h - 1,
        x < w.x + w.w - 14 || y < w.y + w.h - 14,
    ensures
        ({
            let q = crate::gui::draw::window_drawn(p, f, c, w, active, st, rd);
            &&& lit(q, x, y) && q.w == p.w && q.h == p.h && q.clip == p.clip
            &&& pixel(q, x, y) == w.buf[(y - (w.y + 23)) * (w.w - 4) + (x - (w.x + 2))]
        }),
{
    let a = crate::gui::draw::frame_drawn(p, f, c, w, active);
    lemma_frame(p, f, c, w, active, x, y);
    law_picture(a, w.buf, w.x + 2, w.y + 23, w.w - 4, w.h - 24, x, y);
    let q = a.picture(w.buf, w.x + 2, w.y + 23, w.w - 4, w.h - 24);
    assert(crate::gui::draw::user_drawn(a, c, w) == q);
    let (gx, gy) = (w.x + w.w - 14, w.y + w.h - 14);
    lemma_grip(q, gx, gy, 0, 0, c.grip, x, y);
    let q1 = crate::gui::draw::grip_line(q, gx, gy, 0, 0, c.grip);
    lemma_grip(q1, gx, gy, 4, 0, c.grip, x, y);
    let q2 = crate::gui::draw::grip_line(q1, gx, gy, 4, 0, c.grip);
    lemma_grip(q2, gx, gy, 8, 0, c.grip, x, y);
}

/// The window in front is drawn last and as the active one: nothing of another
/// window covers it.
pub proof fn law_front_window_is_on_top(p: PaintV, f: Font, sc: SceneV, rd: Readings, k: int)
    requires
        crate::gui::desk_laws::in_front(sc, k),
    ensures
        crate::gui::desktop::windows_drawn(p, f, sc, rd, k) == crate::gui::draw::window_drawn(
            p,
            f,
            sc.c,
            sc.wins[sc.z[k] as int],
            true,
            crate::gui::draw::stats_of(sc),
            rd,
        ),
{
    crate::gui::desk_laws::lemma_in_front(sc, k, sc.z.len() as int);
    let q = crate::gui::draw::window_drawn(
        p,
        f,
        sc.c,
        sc.wins[sc.z[k] as int],
        true,
        crate::gui::draw::stats_of(sc),
        rd,
    );
    lemma_nothing_more(q, f, sc, rd, k + 1);
}

proof fn lemma_nothing_more(p: PaintV, f: Font, sc: SceneV, rd: Readings, k: int)
    requires
        0 <= k <= sc.z.len(),
        forall|j: int|
            k <= j < sc.z.len() ==> !((#[trigger] sc.wins[sc.z[j] as int]).open && !sc.wins[sc.z[j] as int].minimized),
    ensures
        crate::gui::desktop::windows_drawn(p, f, sc, rd, k) == p,
    decreases sc.z.len() - k,
{
    if k < sc.z.len() {
        assert(!(sc.wins[sc.z[k] as int].open && !sc.wins[sc.z[k] as int].minimized));
        lemma_nothing_more(p, f, sc, rd, k + 1);
    }
}

/// Drawing a part of the desktop again leaves the rest of the picture alone
/// where nothing of that part is on the screen.
pub proof fn law_nothing_on_the_screen_is_nothing_drawn(back: Seq<u32>, sc: SceneV, f: Font, rd: Readings, r: Rect)
    requires
        r.x >= sc.w || r.y >= sc.h || r.x + r.w <= 0 || r.y + r.h <= 0,
        sc.w >= 0 && sc.h >= 0,
    ensures
        crate::gui::desktop::composed(back, sc, f, rd, r) == back,
{
}

/// A letter in a picture: its dots in one color and, where there is one, the
/// rest of its cell in the other; every other pixel stays.
pub proof fn law_letter(p: PaintV, f: Font, ch: u8, gx: int, gy: int, fg: u32, bg: Option<u32>, x: int, y: int)
    requires
        lit(p, x, y),
    ensures
        ({
            let q = p.glyph(f, ch, gx, gy, fg, bg, 1);
            let inside = gx <= x < gx + 8 && gy <= y < gy + 8;
            let dot = (f.rows(ch)[y - gy] >> (x - gx) as u8) & 1 == 1;
            &&& lit(q, x, y)
            &&& inside && dot ==> pixel(q, x, y) == fg
            &&& inside && !dot && bg is Some ==> pixel(q, x, y) == bg->Some_0
            &&& inside && !dot && bg is None ==> pixel(q, x, y) == pixel(p, x, y)
            &&& !inside ==> pixel(q, x, y) == pixel(p, x, y)
        }),
{
    lemma_at(p, x, y);
}

/// Letters side by side, eight columns each: a pixel in the row of letters is
/// that of the letter whose cell it is in; every other pixel stays.
pub proof fn law_letters_side_by_side(
    p: PaintV,
    f: Font,
    b: Seq<u8>,
    tx: int,
    ty: int,
    fg: u32,
    bg: Option<u32>,
    x: int,
    y: int,
)
    requires
        lit(p, x, y),
    ensures
        ({
            let q = p.bytes(f, b, 0, tx, ty, fg, bg, 1);
            let n = (x - tx) / 8;
            let inside = tx <= x < tx + 8 * b.len() && ty <= y < ty + 8;
            let dot = (f.rows(b[n])[y - ty] >> ((x - tx) % 8) as u8) & 1 == 1;
            &&& lit(q, x, y)
            &&& inside && dot ==> pixel(q, x, y) == fg
            &&& inside && !dot && bg is Some ==> pixel(q, x, y) == bg->Some_0
            &&& inside && !dot && bg is None ==> pixel(q, x, y) == pixel(p, x, y)
            &&& !inside ==> pixel(q, x, y) == pixel(p, x, y)
        }),
{
    lemma_letters(p, f, b, 0, tx, ty, fg, bg, x, y);
}

#[verifier::spinoff_prover]
proof fn lemma_letters(
    p: PaintV,
    f: Font,
    b: Seq<u8>,
    i: int,
    tx: int,
    ty: int,
    fg: u32,
    bg: Option<u32>,
    x: int,
    y: int,
)
    requires
        lit(p, x, y),
        0 <= i <= b.len(),
    ensures
        ({
            let q = p.bytes(f, b, i, tx, ty, fg, bg, 1);
            let n = (x - tx) / 8;
            let inside = tx + 8 * i <= x < tx + 8 * b.len() && ty <= y < ty + 8;
            let dot = (f.rows(b[n])[y - ty] >> ((x - tx) % 8) as u8) & 1 == 1;
            &&& lit(q, x, y) && q.w == p.w && q.h == p.h && q.clip == p.clip
            &&& inside && dot ==> pixel(q, x, y) == fg
            &&& inside && !dot && bg is Some ==> pixel(q, x, y) == bg->Some_0
            &&& inside && !dot && bg is None ==> pixel(q, x, y) == pixel(p, x, y)
            &&& !inside ==> pixel(q, x, y) == pixel(p, x, y)
        }),
    decreases b.len() - i,
{
    if i < b.len() {
        let gx = tx + i * 8 * 1;
        law_letter(p, f, b[i], gx, ty, fg, bg, x, y);
        let q = p.glyph(f, b[i], gx, ty, fg, bg, 1);
        lemma_letters(q, f, b, i + 1, tx, ty, fg, bg, x, y);
        if gx <= x < gx + 8 {
            assert((x - tx) / 8 == i && (x - tx) % 8 == x - gx);
        }
    }
}

/// Nothing is drawn outside the part of the picture that is to be drawn.
pub proof fn law_drawing_stays_inside(
    p: PaintV,
    f: Font,
    ch: u8,
    src: Seq<u32>,
    rx: int,
    ry: int,
    rw: int,
    rh: int,
    col: u32,
    x: int,
    y: int,
)
    requires
        p.buf.len() == p.w * p.h,
        0 <= x < p.w,
        0 <= y < p.h,
        !(p.clip.x <= x < p.clip.x + p.clip.w && p.clip.y <= y < p.clip.y + p.clip.h),
    ensures
        pixel(p.rect(rx, ry, rw, rh, col), x, y) == pixel(p, x, y),
        pixel(p.picture(src, rx, ry, rw, rh), x, y) == pixel(p, x, y),
        pixel(p.glyph(f, ch, rx, ry, col, None, 1), x, y) == pixel(p, x, y),
        pixel(p.glyph(f, ch, rx, ry, col, Some(col), 1), x, y) == pixel(p, x, y),
{
    assert((y + 1) * p.w <= p.w * p.h) by (nonlinear_arith)
        requires
            0 <= y < p.h,
            p.w >= 0,
    ;
    crate::pixels::lemma_place(p.w, x, y, p.buf.len() as int);
}

/// Text that a program writes on its canvas: from the point named in two
/// signed halves, the letters side by side, their dots in the color, a question
/// mark for what is no letter; nothing else changes, and no other window does.
/// Only the owner may.
#[verifier::spinoff_prover]
pub proof fn law_written_text(
    sc: SceneV,
    f: Font,
    pid: u64,
    id: u64,
    i: int,
    xy: u64,
    b: Seq<u8>,
    col: u32,
    x: int,
    y: int,
)
    requires
        sc.wf(),
        id < 0x1_0000_0000,
        0 <= i < sc.wins.len(),
        sc.wins[i].id == id,
        forall|j: int| 0 <= j < i ==> (#[trigger] sc.wins[j]).id != id,
        sc.wins[i].open,
        sc.wins[i].w > 4 && sc.wins[i].h > 24,
        sc.wins[i].buf.len() == (sc.wins[i].w - 4) * (sc.wins[i].h - 24),
        xy < 0x1_0000_0000,
        0 <= x < sc.wins[i].w - 4,
        0 <= y < sc.wins[i].h - 24,
    ensures
        ({
            let w = sc.wins[i];
            let (r, c) = crate::gui::calls::text_call(sc, f, pid, id, xy, b, col);
            if w.owner != pid {
                r == sc && c == -1
            } else {
                let x0 = crate::gui::desk_laws::signed((xy % 0x1_0000) as int);
                let y0 = crate::gui::desk_laws::signed((xy / 0x1_0000) as int);
                let n = (x - x0) / 8;
                let ch = if 0x20 <= b[n] && b[n] <= 0x7E {
                    b[n]
                } else {
                    0x3Fu8
                };
                let dot = x0 <= x < x0 + 8 * b.len() && y0 <= y < y0 + 8 && (f.rows(ch)[y - y0] >> ((x - x0) % 8) as u8) & 1
                    == 1;
                &&& c == b.len()
                &&& r.wins[i].buf.len() == w.buf.len()
                &&& r.wins[i].buf[y * (w.w - 4) + x] == if dot {
                    col
                } else {
                    w.buf[y * (w.w - 4) + x]
                }
                &&& forall|j: int| 0 <= j < sc.wins.len() && j != i ==> #[trigger] r.wins[j] == sc.wins[j]
            }
        }),
{
    crate::gui::desk_laws::lemma_found(sc, id, i);
    let w = sc.wins[i];
    if w.owner == pid {
        let t = crate::gui::calls::clean(b);
        assert(vstd::utf8::is_ascii_chars(t));
        vstd::utf8::is_ascii_chars_encode_utf8(t);
        let e = vstd::utf8::encode_utf8(t);
        let p = crate::gui::calls::canvas(w);
        let x0 = crate::gui::desk_laws::signed((xy % 0x1_0000) as int);
        let y0 = crate::gui::desk_laws::signed((xy / 0x1_0000) as int);
        assert(crate::gui::calls::signed16(xy as int) == x0);
        assert(crate::gui::calls::signed16((xy / 0x1_0000) as int) == y0);
        law_letters_side_by_side(p, f, e, x0, y0, col, None, x, y);
        lemma_kept_size(p, f, e, 0, x0, y0, col, None, 1);
        let n = (x - x0) / 8;
        if 0 <= n < b.len() {
            assert(t[n] as u8 == e[n]);
            assert(t[n] == crate::gui::calls::clean_char(b[n]));
        }
    }
}

} // verus!
