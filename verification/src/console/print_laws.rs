//! What printing does to the text screen.

use vstd::prelude::*;

use crate::console::screen::ConsoleV;
use crate::console::{Cell, Format, OutV, Rgb};

verus! {

/// The cell in a column of a row.
pub open spec fn cell(v: ConsoleV, col: int, row: int) -> Cell {
    v.grid.data[row * v.cols + col]
}

/// A character goes where the cursor is, in the colors of the moment, and the
/// cursor goes one column on; every other cell stays.
pub proof fn law_letter_at_the_cursor(v: ConsoleV, ch: u8, col: int, row: int)
    requires
        v.prints(),
        v.grid.on,
        v.cx < v.cols,
        ch != 9 && ch != 10 && ch != 13,
        0 <= col < v.cols,
        0 <= row < v.rows,
    ensures
        ({
            let w = v.put(ch);
            &&& w.cx == v.cx + 1 && w.cy == v.cy
            &&& w.fg == v.fg && w.bg == v.bg && w.cols == v.cols
            &&& cell(w, v.cx, v.cy) == (Cell { ch, fg: v.fg, bg: v.bg })
            &&& (col != v.cx || row != v.cy) ==> cell(w, col, row) == cell(v, col, row)
        }),
{
    lemma_cell(v.cols, v.rows, v.cx, v.cy);
    lemma_cell(v.cols, v.rows, col, row);
    if (col != v.cx || row != v.cy) && row * v.cols + col == v.cy * v.cols + v.cx {
        lemma_apart(v.cols, col, row, v.cx, v.cy);
    }
}

proof fn lemma_cell(cols: int, rows: int, col: int, row: int)
    requires
        0 <= col < cols,
        0 <= row < rows,
    ensures
        0 <= row * cols + col < cols * rows,
{
    assert(0 <= row * cols + col < cols * rows) by (nonlinear_arith)
        requires
            0 <= col < cols,
            0 <= row < rows,
    ;
}

proof fn lemma_apart(cols: int, a: int, r: int, b: int, s: int)
    requires
        0 <= a < cols,
        0 <= b < cols,
        r * cols + a == s * cols + b,
    ensures
        a == b && r == s,
{
    assert(a == b && r == s) by (nonlinear_arith)
        requires
            0 <= a < cols,
            0 <= b < cols,
            r * cols + a == s * cols + b,
    ;
}

/// How a character looks: of its eight by eight cell, each dot `scale` pixels
/// wide and high, those of the letter in one color and the rest in the other;
/// the low bit of a row is its left end. The pixels elsewhere stay.
pub proof fn law_letter_on_the_screen(v: ConsoleV, ch: u8, x: int, y: int)
    requires
        v.prints(),
        v.cx < v.cols,
        ch != 9 && ch != 10 && ch != 13,
        0 <= x < v.width,
        0 <= y < v.height,
    ensures
        ({
            let w = v.put(ch);
            let (i, j) = (x - v.cx * 8 * v.scale, y - v.cy * (8 * v.scale + 2));
            let inside = 0 <= i < 8 * v.scale && 0 <= j < 8 * v.scale;
            &&& w.fb.len() == v.fb.len()
            &&& inside ==> w.fb[y * v.pitch + x] == v.format.packed(
                if (v.font.rows(ch)[j / v.scale] >> (i / v.scale) as u8) & 1 == 1 {
                    v.fg
                } else {
                    v.bg
                },
            )
            &&& !inside ==> w.fb[y * v.pitch + x] == v.fb[y * v.pitch + x]
        }),
{
    let k = y * v.pitch + x;
    assert(0 <= k < v.pitch * v.height && k / v.pitch == y && k % v.pitch == x) by (nonlinear_arith)
        requires
            k == y * v.pitch + x,
            0 <= x < v.pitch,
            0 <= y < v.height,
    ;
    assert(v.cx * (8 * v.scale) == v.cx * 8 * v.scale) by (nonlinear_arith);
}

/// A line end: the cursor goes to the start of the next row. In the last one
/// the text moves up by a row first, and the last row is blank.
pub proof fn law_line_end(v: ConsoleV, col: int, row: int)
    requires
        v.prints(),
        v.grid.on,
        0 <= col < v.cols,
        0 <= row < v.rows,
    ensures
        ({
            let w = v.put(10);
            &&& w.cx == 0
            &&& v.cy + 1 < v.rows ==> w.cy == v.cy + 1 && w.grid == v.grid && w.fb == v.fb
            &&& v.cy + 1 == v.rows ==> {
                &&& w.cy == v.cy
                &&& row + 1 < v.rows ==> cell(w, col, row) == cell(v, col, row + 1)
                &&& row + 1 == v.rows ==> cell(w, col, row) == (Cell { ch: 0x20, fg: v.fg, bg: v.bg })
            }
        }),
{
    lemma_cell(v.cols, v.rows, col, row);
    assert((row + 1) * v.cols + col == row * v.cols + col + v.cols) by (nonlinear_arith);
    if row + 1 < v.rows {
        lemma_cell(v.cols, v.rows, col, row + 1);
    } else {
        assert(row * v.cols + col + v.cols >= v.cols * v.rows) by (nonlinear_arith)
            requires
                row + 1 == v.rows,
                0 <= col,
        ;
    }
}

/// At the end of a row a character starts the next one; a carriage return goes
/// back to the start of the row, and a tab is four blanks.
pub proof fn law_wrap_and_return(v: ConsoleV, ch: u8)
    requires
        v.prints(),
        ch != 9 && ch != 10 && ch != 13,
    ensures
        v.cx >= v.cols ==> v.put(ch) == v.put(10).put(ch),
        v.put(13) == (ConsoleV { cx: 0, ..v }),
        v.put(9) == v.put(32).put(32).put(32).put(32),
{
}

/// Text is printed byte by byte, in order; two texts one after the other are
/// one text.
pub proof fn law_printing_goes_on(v: ConsoleV, a: Seq<u8>, b: Seq<u8>)
    ensures
        v.printed(a + b, 0) == v.printed(a, 0).printed(b, 0),
        a.len() == 1 && a[0] < 128 ==> v.printed(a, 0) == v.put(a[0]),
        a.len() == 1 && a[0] >= 128 ==> v.printed(a, 0) == v.put(0x3F),
{
    lemma_goes_on(v, a, b, 0);
    reveal_with_fuel(ConsoleV::printed, 3);
}

#[verifier::spinoff_prover]
proof fn lemma_goes_on(v: ConsoleV, a: Seq<u8>, b: Seq<u8>, i: int)
    requires
        0 <= i <= a.len(),
    ensures
        v.printed(a + b, i) == v.printed(a, i).printed(b, 0),
    decreases a.len() - i,
{
    if i < a.len() {
        assert((a + b)[i] == a[i]);
        let c = v.put(
            if a[i] < 128 {
                a[i]
            } else {
                0x3F
            },
        );
        lemma_goes_on(c, a, b, i + 1);
    } else {
        lemma_second(v, a, b, 0);
    }
}

proof fn lemma_second(v: ConsoleV, a: Seq<u8>, b: Seq<u8>, i: int)
    requires
        0 <= i <= b.len(),
    ensures
        v.printed(a + b, a.len() + i) == v.printed(b, i),
    decreases b.len() - i,
{
    if i < b.len() {
        assert((a + b)[a.len() + i] == b[i]);
        let c = v.put(
            if b[i] < 128 {
                b[i]
            } else {
                0x3F
            },
        );
        lemma_second(c, a, b, i + 1);
    }
}

/// A text in a color is printed in that color of the palette, and what follows
/// is gray again; one without a color is printed in the color of the moment.
pub proof fn law_colored_text(v: ConsoleV, o: OutV)
    ensures
        ({
            let w = v.said(o);
            let b = vstd::utf8::encode_utf8(o.text);
            &&& o.color is None ==> w == v.printed(b, 0)
            &&& o.color matches Some(c) ==> {
                let d = ConsoleV { fg: crate::console::palette_rgb(c as int), ..v }.printed(b, 0);
                w == (ConsoleV { fg: Rgb(0xB8, 0xB8, 0xB8), ..d })
            }
        }),
{
    assert(crate::console::palette_rgb(7) == Rgb(0xB8, 0xB8, 0xB8));
}

/// Clearing leaves blanks in the colors of the moment, and the cursor at the
/// top.
pub proof fn law_cleared_screen(v: ConsoleV, col: int, row: int)
    requires
        v.prints(),
        v.grid.on,
        0 <= col < v.cols,
        0 <= row < v.rows,
    ensures
        v.cleared().cx == 0 && v.cleared().cy == 0,
        cell(v.cleared(), col, row) == (Cell { ch: 0x20, fg: v.fg, bg: v.bg }),
{
    lemma_cell(v.cols, v.rows, col, row);
}

/// A pixel with a byte for each channel, red above green above blue.
pub proof fn law_pixel(r: u8, g: u8, b: u8)
    ensures
        (Format { rsh: 16, gsh: 8, bsh: 0, rsz: 8, gsz: 8, bsz: 8 }).packed(Rgb(r, g, b)) == 0x1_0000 * r + 256 * g + b,
{
    let (x, y, z) = (r as u32, g as u32, b as u32);
    assert((x << 16) | (y << 8) | (z << 0) == 0x1_0000 * x + 256 * y + z) by (bit_vector)
        requires
            x < 256,
            y < 256,
            z < 256,
    ;
}

} // verus!
