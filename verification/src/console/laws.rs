//! What holds of the text screen whatever is printed on it.

use vstd::prelude::*;

use crate::console::screen::ConsoleV;
use crate::console::Cell;

verus! {

/// The column and the row of the cell that a pixel is in.
pub open spec fn cell_of(v: ConsoleV, k: int) -> (int, int) {
    ((k % v.pitch) / v.cell_w(), (k / v.pitch) / v.cell_h())
}

/// Whether a pixel belongs to the letter of a cell, and not to the gap between
/// two lines or to the edge of the screen.
pub open spec fn in_text(v: ConsoleV, k: int) -> bool {
    let (col, row) = cell_of(v, k);
    &&& col < v.cols
    &&& row < v.rows
    &&& (k / v.pitch) % v.cell_h() < 8 * v.scale
}

/// What a cell shows at a pixel.
pub open spec fn color_in(v: ConsoleV, c: Cell, k: int) -> u32 {
    crate::pixels::glyph_color(
        v.font.rows(c.ch),
        (k % v.pitch) % v.cell_w() / v.scale,
        (k / v.pitch) % v.cell_h() / v.scale,
        v.format.packed(c.fg),
        Some(v.format.packed(c.bg)),
    )->Some_0
}

/// The cell of the grid that a pixel is in.
pub open spec fn kept_cell(v: ConsoleV, k: int) -> Cell {
    let (col, row) = cell_of(v, k);
    v.grid.data[row * v.cols + col]
}

/// The screen shows what the grid keeps.
pub open spec fn mirrored(v: ConsoleV) -> bool {
    forall|k: int| 0 <= k < v.fb.len() && in_text(v, k) ==> #[trigger] v.fb[k] == color_in(v, kept_cell(v, k), k)
}

proof fn lemma_place_of(v: ConsoleV, k: int)
    requires
        v.wf(),
        0 <= k < v.fb.len(),
    ensures
        0 <= k % v.pitch < v.pitch,
        0 <= k / v.pitch < v.height,
{
    vstd::arithmetic::div_mod::lemma_fundamental_div_mod(k, v.pitch);
    vstd::arithmetic::div_mod::lemma_mod_bound(k, v.pitch);
    assert(0 <= k / v.pitch < v.height) by (nonlinear_arith)
        requires
            k == v.pitch * (k / v.pitch) + k % v.pitch,
            0 <= k % v.pitch < v.pitch,
            0 <= k < v.pitch * v.height,
    ;
}

/// A pixel is in the letter of a cell just if it is in the cell.
proof fn lemma_cell_bounds(scale: int, x: int, y: int, col: int, row: int, width: int, height: int)
    requires
        scale == 1 || scale == 2,
        0 <= x,
        0 <= y,
        0 <= col,
        0 <= row,
        x / (8 * scale) < width / (8 * scale),
        y / (8 * scale + 2) < height / (8 * scale + 2),
        y % (8 * scale + 2) < 8 * scale,
    ensures
        x < width,
        y < height,
        ({
            let (gx, gy) = (col * (8 * scale), row * (8 * scale + 2));
            &&& (gx <= x < gx + 8 * scale && gy <= y < gy + 8 * scale) <==> (x / (8 * scale) == col && y / (8 * scale + 2)
                == row)
            &&& x / (8 * scale) == col ==> x - gx == x % (8 * scale)
            &&& y / (8 * scale + 2) == row ==> y - gy == y % (8 * scale + 2)
        }),
{
    if scale == 1 {
        assert(x / 8 < width / 8 && y / 10 < height / 10 && y % 10 < 8);
        assert(col * (8 * scale) == col * 8 && row * (8 * scale + 2) == row * 10);
    } else {
        assert(x / 16 < width / 16 && y / 18 < height / 18 && y % 18 < 16);
        assert(col * (8 * scale) == col * 16 && row * (8 * scale + 2) == row * 18);
    }
}

/// Drawing a cell changes the pixels of its letter and no other letter.
#[verifier::spinoff_prover]
proof fn lemma_cell_drawn(v: ConsoleV, c: Cell, col: int, row: int, k: int)
    requires
        v.wf(),
        0 <= col < v.cols,
        0 <= row < v.rows,
        0 <= k < v.fb.len(),
        in_text(v, k),
    ensures
        ({
            let w = v.cell_drawn(c.ch, col, row, c.fg, c.bg);
            w.fb[k] == if cell_of(v, k) == (col, row) {
                color_in(v, c, k)
            } else {
                v.fb[k]
            }
        }),
{
    lemma_place_of(v, k);
    let (x, y) = (k % v.pitch, k / v.pitch);
    let (cw, ch) = (v.cell_w(), v.cell_h());
    lemma_cell_bounds(v.scale, x, y, col, row, v.width, v.height);
    let a = crate::pixels::meet(v.screen(), crate::pixels::area_at(col * cw, row * ch, 8 * v.scale, 8 * v.scale));
    assert(a.has(x, y) <==> x / cw == col && y / ch == row);
}

/// The number of a cell says where it is.
proof fn lemma_cell_number(cols: int, col: int, row: int)
    requires
        0 <= col < cols,
        0 <= row,
    ensures
        (row * cols + col) % cols == col,
        (row * cols + col) / cols == row,
{
    vstd::arithmetic::div_mod::lemma_fundamental_div_mod_converse(row * cols + col, cols, row, col);
}

proof fn lemma_cell_in_grid(v: ConsoleV, col: int, row: int)
    requires
        v.wf(),
        v.grid.on,
        0 <= col < v.cols,
        0 <= row < v.rows,
    ensures
        0 <= row * v.cols + col < v.grid.data.len(),
{
    let (n, m) = (v.cols, v.rows);
    assert(0 <= row * n + col && row * n + col < n * m) by (nonlinear_arith)
        requires
            0 <= col < n,
            0 <= row < m,
    ;
}

proof fn lemma_cell_of_pixel(v: ConsoleV, k: int)
    requires
        v.wf(),
        0 <= k < v.fb.len(),
    ensures
        0 <= cell_of(v, k).0,
        0 <= cell_of(v, k).1,
{
    lemma_place_of(v, k);
}

/// From the cell `n` on every letter is drawn; the ones before stay.
#[verifier::spinoff_prover]
proof fn lemma_redrawn(v: ConsoleV, n: int, k: int)
    requires
        v.wf(),
        v.grid.on,
        0 <= n <= v.grid.data.len(),
        0 <= k < v.fb.len(),
        in_text(v, k),
    ensures
        ({
            let (col, row) = cell_of(v, k);
            let w = v.redrawn(n);
            &&& w == ConsoleV { fb: w.fb, ..v }
            &&& w.fb.len() == v.fb.len()
            &&& w.fb[k] == if row * v.cols + col >= n {
                color_in(v, kept_cell(v, k), k)
            } else {
                v.fb[k]
            }
        }),
    decreases v.grid.data.len() - n,
{
    let (col, row) = cell_of(v, k);
    lemma_cell_of_pixel(v, k);
    lemma_cell_in_grid(v, col, row);
    lemma_cell_number(v.cols, col, row);
    if n < v.grid.data.len() {
        let c = v.grid.data[n];
        let (nc, nr) = (n % v.cols, n / v.cols);
        vstd::arithmetic::div_mod::lemma_fundamental_div_mod(n, v.cols);
        vstd::arithmetic::div_mod::lemma_mod_bound(n, v.cols);
        let (cols, rows) = (v.cols, v.rows);
        assert(0 <= nr < rows && nr * cols + nc == n) by (nonlinear_arith)
            requires
                n == cols * nr + nc,
                0 <= nc < cols,
                0 <= n < cols * rows,
        ;
        let w = v.cell_drawn(c.ch, nc, nr, c.fg, c.bg);
        assert(w == ConsoleV { fb: w.fb, ..v });
        lemma_cell_drawn(v, c, nc, nr, k);
        lemma_redrawn(w, n + 1, k);
    }
}

proof fn lemma_redraw_keeps(v: ConsoleV, n: int)
    requires
        0 <= n,
    ensures
        v.redrawn(n) == (ConsoleV { fb: v.redrawn(n).fb, ..v }),
        v.redrawn(n).fb.len() == v.fb.len(),
    decreases v.grid.data.len() - n,
{
    if n < v.grid.data.len() {
        let c = v.grid.data[n];
        lemma_redraw_keeps(v.cell_drawn(c.ch, n % v.grid.cols, n / v.grid.cols, c.fg, c.bg), n + 1);
    }
}

/// Redrawing shows what the grid keeps, whatever was on the screen.
pub proof fn law_redraw_shows_the_grid(v: ConsoleV)
    requires
        v.wf(),
        v.grid.on,
    ensures
        mirrored(v.redrawn(0)),
{
    let w = v.redrawn(0);
    lemma_redraw_keeps(v, 0);
    assert forall|k: int| 0 <= k < w.fb.len() && in_text(w, k) implies #[trigger] w.fb[k] == color_in(
        w,
        kept_cell(w, k),
        k,
    ) by {
        lemma_redrawn(v, 0, k);
        lemma_cell_of_pixel(v, k);
        let (col, row) = cell_of(v, k);
        lemma_cell_in_grid(v, col, row);
    }
}

/// The text comes back: whatever was drawn over a screen that showed the
/// grid, redrawing gives every pixel of every letter its value again.
pub proof fn law_text_comes_back(v: ConsoleV, over: Seq<u32>, k: int)
    requires
        v.wf(),
        v.grid.on,
        mirrored(v),
        over.len() == v.fb.len(),
        0 <= k < v.fb.len(),
        in_text(v, k),
    ensures
        (ConsoleV { fb: over, ..v }).redrawn(0).fb[k] == v.fb[k],
{
    let w = ConsoleV { fb: over, ..v };
    let (col, row) = cell_of(v, k);
    lemma_cell_of_pixel(v, k);
    lemma_cell_in_grid(v, col, row);
    lemma_redrawn(w, 0, k);
}

/// The blank of the font shows nothing.
pub open spec fn blank_is_blank(v: ConsoleV) -> bool {
    forall|x: int, y: int| 0 <= x < 8 && 0 <= y < 8 ==> !#[trigger] crate::pixels::glyph_bit(v.font.rows(0x20), x, y)
}

/// Whether a pixel is below the last line.
pub open spec fn below_text(v: ConsoleV, k: int) -> bool {
    let (col, row) = cell_of(v, k);
    col < v.cols && row >= v.rows
}

/// The screen shows what the grid keeps, and nothing below it.
pub open spec fn agrees(v: ConsoleV) -> bool {
    &&& mirrored(v)
    &&& forall|k: int| 0 <= k < v.fb.len() && below_text(v, k) ==> #[trigger] v.fb[k] == v.format.packed(v.bg)
}

proof fn lemma_blank_color(v: ConsoleV, k: int)
    requires
        v.wf(),
        blank_is_blank(v),
        0 <= k < v.fb.len(),
        in_text(v, k),
    ensures
        color_in(v, crate::console::blank_cell(v.fg, v.bg), k) == v.format.packed(v.bg),
{
    lemma_place_of(v, k);
    let (x, y) = (k % v.pitch, k / v.pitch);
    if v.scale == 1 {
        assert(0 <= x % 8 / 1 < 8 && 0 <= y % 10 / 1 < 8);
    } else {
        assert(0 <= x % 16 / 2 < 8 && 0 <= y % 18 / 2 < 8);
    }
}

/// The pixel one line below.
proof fn lemma_line_below(v: ConsoleV, k: int)
    requires
        v.wf(),
        0 <= k < v.fb.len(),
    ensures
        ({
            let j = k + v.cell_h() * v.pitch;
            &&& j % v.pitch == k % v.pitch
            &&& j / v.pitch == k / v.pitch + v.cell_h()
            &&& j < v.fb.len() <==> k / v.pitch + v.cell_h() < v.height
            &&& (j / v.pitch) / v.cell_h() == (k / v.pitch) / v.cell_h() + 1
            &&& (j / v.pitch) % v.cell_h() == (k / v.pitch) % v.cell_h()
        }),
{
    lemma_place_of(v, k);
    let (x, y, p, h) = (k % v.pitch, k / v.pitch, v.pitch, v.height);
    let up = v.cell_h() * p;
    let c = v.cell_h();
    vstd::arithmetic::div_mod::lemma_fundamental_div_mod(k, p);
    assert(k + up == (y + c) * p + x) by (nonlinear_arith)
        requires
            k == p * y + x,
            up == c * p,
    ;
    vstd::arithmetic::div_mod::lemma_fundamental_div_mod_converse(k + up, p, y + c, x);
    if y + c < h {
        assert((y + c) * p + x < p * h) by (nonlinear_arith)
            requires
                y + c + 1 <= h,
                0 <= x < p,
        ;
    } else {
        assert((y + c) * p + x >= p * h) by (nonlinear_arith)
            requires
                y + c >= h,
                0 <= x,
                0 < p,
        ;
    }
    if v.scale == 1 {
        assert((y + 10) / 10 == y / 10 + 1 && (y + 10) % 10 == y % 10);
    } else {
        assert((y + 18) / 18 == y / 18 + 1 && (y + 18) % 18 == y % 18);
    }
}

/// Where the last line and the lines above it end.
proof fn lemma_last_line(v: ConsoleV, k: int)
    requires
        v.wf(),
        0 <= k < v.fb.len(),
        cell_of(v, k).0 < v.cols,
    ensures
        k % v.pitch < v.width,
        k / v.pitch >= v.height - v.cell_h() ==> cell_of(v, k).1 >= v.rows - 1,
        cell_of(v, k).1 >= v.rows ==> k / v.pitch >= v.height - v.cell_h(),
{
    lemma_place_of(v, k);
    let (x, y) = (k % v.pitch, k / v.pitch);
    if v.scale == 1 {
        assert(x / 8 < v.width / 8);
        assert(y >= v.height - 10 ==> y / 10 >= v.height / 10 - 1);
        assert(y / 10 >= v.height / 10 ==> y >= v.height - 10);
    } else {
        assert(x / 16 < v.width / 16);
        assert(y >= v.height - 18 ==> y / 18 >= v.height / 18 - 1);
        assert(y / 18 >= v.height / 18 ==> y >= v.height - 18);
    }
}

#[verifier::spinoff_prover]
proof fn lemma_scrolled_pixel(v: ConsoleV, k: int)
    requires
        v.prints(),
        v.grid.on,
        blank_is_blank(v),
        agrees(v),
        0 <= k < v.fb.len(),
    ensures
        in_text(v, k) ==> v.scrolled().fb[k] == color_in(v, kept_cell(v.scrolled(), k), k),
        below_text(v, k) ==> v.scrolled().fb[k] == v.format.packed(v.bg),
{
    let w = v.scrolled();
    let (col, row) = cell_of(v, k);
    let j = k + v.cell_h() * v.pitch;
    let last = crate::pixels::meet(
        v.screen(),
        crate::pixels::area_at(0, v.height - v.cell_h(), v.width, v.cell_h()),
    );
    lemma_place_of(v, k);
    lemma_cell_of_pixel(v, k);
    if in_text(v, k) || below_text(v, k) {
        lemma_last_line(v, k);
        lemma_line_below(v, k);
        assert(last.has(k % v.pitch, k / v.pitch) <==> k / v.pitch >= v.height - v.cell_h());
        if in_text(v, k) {
            lemma_blank_color(v, k);
            lemma_cell_in_grid(v, col, row);
            let (n, m) = (v.cols, v.rows);
            if row < v.rows - 1 {
                lemma_cell_in_grid(v, col, row + 1);
                assert((row + 1) * n + col == row * n + col + n) by (nonlinear_arith);
                assert(kept_cell(w, k) == v.grid.data[(row + 1) * n + col]);
                assert(j < v.fb.len());
                assert(in_text(v, j));
                assert(v.fb[j] == color_in(v, kept_cell(v, j), j));
            } else {
                assert(row * n + col + n >= n * m) by (nonlinear_arith)
                    requires
                        row == m - 1,
                        0 <= col,
                ;
                assert(kept_cell(w, k) == crate::console::blank_cell(v.fg, v.bg));
                if k / v.pitch < v.height - v.cell_h() {
                    assert(j < v.fb.len());
                    assert(below_text(v, j));
                    assert(v.fb[j] == v.format.packed(v.bg));
                }
            }
        }
    }
}

/// A line that ends, at the end of the screen too, where all lines move up,
/// leaves the screen showing what the grid keeps.
pub proof fn law_line_end_agrees(v: ConsoleV)
    requires
        v.prints(),
        v.grid.on,
        blank_is_blank(v),
        agrees(v),
    ensures
        agrees(v.lined()),
{
    let w = v.lined();
    if v.cy + 1 >= v.rows {
        let s = v.scrolled();
        assert forall|k: int| 0 <= k < w.fb.len() && in_text(w, k) implies #[trigger] w.fb[k] == color_in(
            w,
            kept_cell(w, k),
            k,
        ) by {
            lemma_scrolled_pixel(v, k);
            assert(kept_cell(w, k) == kept_cell(s, k));
        }
        assert forall|k: int| 0 <= k < w.fb.len() && below_text(w, k) implies #[trigger] w.fb[k] == w.format.packed(
            w.bg,
        ) by {
            lemma_scrolled_pixel(v, k);
        }
    } else {
        assert forall|k: int| 0 <= k < w.fb.len() && in_text(w, k) implies #[trigger] w.fb[k] == color_in(
            w,
            kept_cell(w, k),
            k,
        ) by {
            assert(v.fb[k] == color_in(v, kept_cell(v, k), k));
        }
        assert forall|k: int| 0 <= k < w.fb.len() && below_text(w, k) implies #[trigger] w.fb[k] == w.format.packed(
            w.bg,
        ) by {
            assert(below_text(v, k));
        }
    }
}

/// There is room for text, the grid is kept, and the screen shows it.
pub open spec fn in_step(v: ConsoleV) -> bool {
    &&& v.prints()
    &&& v.grid.on
    &&& blank_is_blank(v)
    &&& agrees(v)
}

proof fn lemma_room_shown(v: ConsoleV, ch: u8)
    requires
        in_step(v),
        v.cx < v.cols,
    ensures
        in_step(v.shown(ch)),
{
    let w = v.shown(ch);
    let c = Cell { ch, fg: v.fg, bg: v.bg };
    lemma_cell_in_grid(v, v.cx, v.cy);
    assert forall|k: int| 0 <= k < w.fb.len() && in_text(w, k) implies #[trigger] w.fb[k] == color_in(
        w,
        kept_cell(w, k),
        k,
    ) by {
        let (col, row) = cell_of(v, k);
        lemma_cell_drawn(v, c, v.cx, v.cy, k);
        lemma_cell_of_pixel(v, k);
        lemma_cell_in_grid(v, col, row);
        lemma_cell_number(v.cols, col, row);
        lemma_cell_number(v.cols, v.cx, v.cy);
        assert(v.fb[k] == color_in(v, kept_cell(v, k), k));
    }
    assert forall|k: int| 0 <= k < w.fb.len() && below_text(w, k) implies #[trigger] w.fb[k] == w.format.packed(w.bg) by {
        assert(below_text(v, k));
        assert(v.fb[k] == v.format.packed(v.bg));
        lemma_below_cells(v, v.cx, v.cy, k);
    }
}

/// No cell reaches below the text.
proof fn lemma_below_cells(v: ConsoleV, col: int, row: int, k: int)
    requires
        v.wf(),
        0 <= col < v.cols,
        0 <= row < v.rows,
        0 <= k < v.fb.len(),
        below_text(v, k),
    ensures
        k / v.pitch >= row * v.cell_h() + 8 * v.scale,
{
    lemma_place_of(v, k);
    let y = k / v.pitch;
    if v.scale == 1 {
        assert(y / 10 >= v.rows && row * v.cell_h() == row * 10);
    } else {
        assert(y / 18 >= v.rows && row * v.cell_h() == row * 18);
    }
}

/// A letter that is printed is kept in the grid, and the screen goes on
/// showing what the grid keeps.
pub proof fn law_printed_letter_is_kept(v: ConsoleV, ch: u8)
    requires
        in_step(v),
    ensures
        in_step(v.shown(ch)),
        ({
            let w = v.shown(ch);
            w.grid.data[w.cy * w.cols + w.cx - 1] == (Cell { ch, fg: v.fg, bg: v.bg })
        }),
{
    let c = if v.cx >= v.cols {
        v.lined()
    } else {
        v
    };
    law_line_end_agrees(v);
    lemma_cell_in_grid(c, c.cx, c.cy);
    lemma_room_shown(c, ch);
}

/// Whatever is printed, the screen goes on showing what the grid keeps.
pub proof fn law_text_agrees(v: ConsoleV, b: Seq<u8>, i: int)
    requires
        in_step(v),
        0 <= i <= b.len(),
    ensures
        in_step(v.printed(b, i)),
    decreases b.len() - i,
{
    if i < b.len() {
        let ch = if b[i] < 128 {
            b[i]
        } else {
            0x3Fu8
        };
        law_line_end_agrees(v);
        law_printed_letter_is_kept(v, ch);
        if ch == 0x0D {
            let w = ConsoleV { cx: 0, ..v };
            assert forall|k: int| 0 <= k < w.fb.len() && in_text(w, k) implies #[trigger] w.fb[k] == color_in(
                w,
                kept_cell(w, k),
                k,
            ) by {
                assert(v.fb[k] == color_in(v, kept_cell(v, k), k));
            }
            assert forall|k: int| 0 <= k < w.fb.len() && below_text(w, k) implies #[trigger] w.fb[k] == w.format.packed(
                w.bg,
            ) by {
                assert(below_text(v, k));
            }
        }
        if ch == 0x09 {
            law_printed_letter_is_kept(v, 0x20);
            law_printed_letter_is_kept(v.shown(0x20), 0x20);
            law_printed_letter_is_kept(v.shown(0x20).shown(0x20), 0x20);
            law_printed_letter_is_kept(v.shown(0x20).shown(0x20).shown(0x20), 0x20);
        }
        law_text_agrees(v.put(ch), b, i + 1);
    }
}

/// A screen that was cleared shows what the grid keeps, whatever was on it.
pub proof fn law_cleared_screen_agrees(v: ConsoleV)
    requires
        v.prints(),
        v.grid.on,
        blank_is_blank(v),
    ensures
        in_step(v.cleared()),
{
    let w = v.cleared();
    assert forall|k: int| 0 <= k < w.fb.len() && in_text(w, k) implies #[trigger] w.fb[k] == color_in(
        w,
        kept_cell(w, k),
        k,
    ) by {
        let (col, row) = cell_of(v, k);
        lemma_place_of(v, k);
        lemma_cell_of_pixel(v, k);
        lemma_cell_in_grid(v, col, row);
        lemma_last_line(v, k);
        lemma_blank_color(v, k);
    }
    assert forall|k: int| 0 <= k < w.fb.len() && below_text(w, k) implies #[trigger] w.fb[k] == w.format.packed(w.bg) by {
        lemma_place_of(v, k);
        lemma_last_line(v, k);
    }
}

} // verus!
