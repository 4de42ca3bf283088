//! What a frame puts on the screen.

use vstd::prelude::*;

use crate::console::screen::ConsoleV;
use crate::gui::scene::SceneV;

verus! {

/// The pixel in column `x` of row `y` of the screen.
pub open spec fn dot(c: ConsoleV, x: int, y: int) -> u32 {
    c.fb[y * c.pitch + x]
}

/// The screen has a pixel in column `x` of row `y`.
pub open spec fn on(c: ConsoleV, x: int, y: int) -> bool {
    &&& 0 < c.pitch
    &&& 0 <= x < c.width <= c.pitch
    &&& 0 <= y < c.height
    &&& c.fb.len() == c.pitch * c.height
}

/// Two screens of the same shape.
pub open spec fn alike(a: ConsoleV, b: ConsoleV) -> bool {
    a.width == b.width && a.height == b.height && a.pitch == b.pitch && a.fb.len() == b.fb.len() && a.format == b.format
}

proof fn lemma_dot(c: ConsoleV, x: int, y: int)
    requires
        on(c, x, y),
    ensures
        0 <= y * c.pitch + x < c.fb.len(),
        (y * c.pitch + x) / c.pitch == y,
        (y * c.pitch + x) % c.pitch == x,
{
    assert((y + 1) * c.pitch <= c.pitch * c.height) by (nonlinear_arith)
        requires
            y + 1 <= c.height,
            0 < c.pitch,
    ;
    crate::pixels::lemma_place(c.pitch, x, y, c.fb.len() as int);
}

/// A picture on the screen: the pixels of the target rectangle are those of
/// the source, as far as the source goes; all others stay.
pub proof fn law_blit(
    c: ConsoleV,
    src: Seq<u32>,
    sw: int,
    sx: int,
    sy: int,
    dx: int,
    dy: int,
    w: int,
    h: int,
    x: int,
    y: int,
)
    requires
        on(c, x, y),
        0 < sw,
        0 <= sx && 0 <= sy && 0 <= dx && 0 <= dy && 0 <= w && 0 <= h,
    ensures
        ({
            let d = crate::console::screen::blitted(c, src, sw, sx, sy, dx, dy, w, h);
            let (u, v) = (sx + (x - dx), sy + (y - dy));
            &&& alike(c, d)
            &&& dot(d, x, y) == if dx <= x < dx + w && dy <= y < dy + h && u < sw && v < src.len() as int / sw {
                src[v * sw + u]
            } else {
                dot(c, x, y)
            }
        }),
{
    lemma_dot(c, x, y);
}

/// The pointer, from its `k`-th pixel on.
#[verifier::spinoff_prover]
proof fn lemma_pointer(c: ConsoleV, px: int, py: int, k: int, x: int, y: int)
    requires
        on(c, x, y),
        0 <= k <= 216,
    ensures
        ({
            let d = crate::gui::draw::stamped(c, px, py, k);
            let (col, row) = (x - px, y - py);
            &&& alike(c, d)
            &&& dot(d, x, y) == if 0 <= col < 12 && 0 <= row < 18 && row * 12 + col >= k {
                if (crate::gui::draw::CURSOR_FILL@[row] >> col as u16) & 1 == 1 {
                    c.format.packed(crate::console::Rgb(245, 245, 245))
                } else if (crate::gui::draw::CURSOR_EDGE@[row] >> col as u16) & 1 == 1 {
                    c.format.packed(crate::console::Rgb(12, 12, 16))
                } else {
                    dot(c, x, y)
                }
            } else {
                dot(c, x, y)
            }
        }),
    decreases 216 - k,
{
    if k < 216 {
        let (row, col) = (k / 12, k % 12);
        let e = if (crate::gui::draw::CURSOR_FILL@[row] >> col as u16) & 1 == 1 {
            c.rect_filled(px + col, py + row, 1, 1, crate::gui::draw::cursor_white())
        } else if (crate::gui::draw::CURSOR_EDGE@[row] >> col as u16) & 1 == 1 {
            c.rect_filled(px + col, py + row, 1, 1, crate::gui::draw::cursor_black())
        } else {
            c
        };
        lemma_dot(c, x, y);
        lemma_pointer(e, px, py, k + 1, x, y);
        assert(k == row * 12 + col);
    }
}

/// The pointer: white where its shape is filled, black at its edge, and what
/// was there before elsewhere; it is 12 pixels wide and 18 high.
pub proof fn law_pointer_is_drawn(c: ConsoleV, px: int, py: int, x: int, y: int)
    requires
        on(c, x, y),
    ensures
        ({
            let d = crate::gui::draw::stamped(c, px, py, 0);
            let (col, row) = (x - px, y - py);
            &&& alike(c, d)
            &&& dot(d, x, y) == if 0 <= col < 12 && 0 <= row < 18 {
                if (crate::gui::draw::CURSOR_FILL@[row] >> col as u16) & 1 == 1 {
                    c.format.packed(crate::console::Rgb(245, 245, 245))
                } else if (crate::gui::draw::CURSOR_EDGE@[row] >> col as u16) & 1 == 1 {
                    c.format.packed(crate::console::Rgb(12, 12, 16))
                } else {
                    dot(c, x, y)
                }
            } else {
                dot(c, x, y)
            }
        }),
{
    lemma_pointer(c, px, py, 0, x, y);
}

/// A pixel lies in one of the rectangles from the `i`-th on.
pub open spec fn marked(sc: SceneV, i: int, x: int, y: int) -> bool {
    exists|j: int|
        i <= j < sc.dirty.len() && (#[trigger] sc.dirty[j]).x <= x < sc.dirty[j].x + sc.dirty[j].w && sc.dirty[j].y <= y
            < sc.dirty[j].y + sc.dirty[j].h
}

#[verifier::spinoff_prover]
proof fn lemma_marked(c: ConsoleV, back: Seq<u32>, sc: SceneV, i: int, x: int, y: int)
    requires
        on(c, x, y),
        sc.wf(),
        c.width == sc.w,
        c.height == sc.h,
        back.len() == sc.w * sc.h,
        0 <= i <= sc.dirty.len(),
    ensures
        ({
            let d = crate::gui::session::all_shown(c, back, sc, i);
            &&& alike(c, d)
            &&& dot(d, x, y) == if marked(sc, i, x, y) {
                back[y * sc.w + x]
            } else {
                dot(c, x, y)
            }
        }),
    decreases sc.dirty.len() - i,
{
    if i < sc.dirty.len() {
        let q = sc.dirty[i];
        let r = crate::gui::rect::on_screen(q, sc.w, sc.h);
        assert(crate::gui::rect::edges_ok(q));
        crate::gui::rect::law_on_screen(q, sc.w, sc.h, x, y);
        assert(crate::gui::rect::holds(r, x, y) <==> q.x <= x < q.x + q.w && q.y <= y < q.y + q.h);
        assert(back.len() as int / sc.w == sc.h) by (nonlinear_arith)
            requires
                back.len() == sc.w * sc.h,
                sc.w > 0,
        ;
        let e = if r.w > 0 && r.h > 0 {
            crate::console::screen::blitted(
                c,
                back,
                sc.w,
                r.x as int,
                r.y as int,
                r.x as int,
                r.y as int,
                r.w as int,
                r.h as int,
            )
        } else {
            c
        };
        if r.w > 0 && r.h > 0 {
            law_blit(
                c,
                back,
                sc.w,
                r.x as int,
                r.y as int,
                r.x as int,
                r.y as int,
                r.w as int,
                r.h as int,
                x,
                y,
            );
        }
        lemma_marked(e, back, sc, i + 1, x, y);
        assert(marked(sc, i, x, y) <==> (q.x <= x < q.x + q.w && q.y <= y < q.y + q.h) || marked(sc, i + 1, x, y));
    }
}

/// A frame on the screen: outside the pointer every pixel that changed, and
/// every pixel that the pointer left, is that of the picture; all others stay.
/// So a screen that showed the picture shows it again, and the pointer leaves
/// no trace. Where the pointer went, or something under it changed, it is
/// drawn anew.
#[verifier::spinoff_prover]
pub proof fn law_frame_is_shown(
    c: ConsoleV,
    back: Seq<u32>,
    sc: SceneV,
    went: bool,
    ox: int,
    oy: int,
    x: int,
    y: int,
)
    requires
        on(c, x, y),
        sc.wf(),
        c.width == sc.w,
        c.height == sc.h,
        back.len() == sc.w * sc.h,
        0 <= ox,
        0 <= oy,
    ensures
        ({
            let d = crate::gui::session::refreshed(c, back, sc, went, ox, oy);
            let (px, py) = (sc.s.cur_x as int, sc.s.cur_y as int);
            let (col, row) = (x - px, y - py);
            let fresh = marked(sc, 0, x, y) || went && ox <= x < ox + 16 && oy <= y < oy + 24;
            let under = if fresh {
                back[y * sc.w + x]
            } else {
                dot(c, x, y)
            };
            &&& alike(c, d)
            &&& !(0 <= col < 12 && 0 <= row < 18) ==> dot(d, x, y) == under
            &&& 0 <= col < 12 && 0 <= row < 18 && (went || marked(sc, 0, x, y)) ==> dot(d, x, y) == if (
            crate::gui::draw::CURSOR_FILL@[row] >> col as u16) & 1 == 1 {
                c.format.packed(crate::console::Rgb(245, 245, 245))
            } else if (crate::gui::draw::CURSOR_EDGE@[row] >> col as u16) & 1 == 1 {
                c.format.packed(crate::console::Rgb(12, 12, 16))
            } else {
                under
            }
        }),
{
    lemma_marked(c, back, sc, 0, x, y);
    let d = crate::gui::session::all_shown(c, back, sc, 0);
    assert(back.len() as int / sc.w == sc.h) by (nonlinear_arith)
        requires
            back.len() == sc.w * sc.h,
            sc.w > 0,
    ;
    law_blit(d, back, sc.w, ox, oy, ox, oy, 16, 24, x, y);
    let e = if went {
        crate::console::screen::blitted(d, back, sc.w, ox, oy, ox, oy, 16, 24)
    } else {
        d
    };
    law_pointer_is_drawn(e, sc.s.cur_x as int, sc.s.cur_y as int, x, y);
    let (px, py) = (sc.s.cur_x as int, sc.s.cur_y as int);
    if marked(sc, 0, x, y) && px <= x < px + 12 && py <= y < py + 18 {
        let j = choose|j: int|
            0 <= j < sc.dirty.len() && (#[trigger] sc.dirty[j]).x <= x < sc.dirty[j].x + sc.dirty[j].w && sc.dirty[j].y
                <= y < sc.dirty[j].y + sc.dirty[j].h;
        assert(crate::gui::rect::overlap(sc.dirty[j], crate::gui::session::pointer_room(sc)));
        assert(crate::gui::session::touches(sc.dirty, crate::gui::session::pointer_room(sc)));
    }
}

} // verus!
