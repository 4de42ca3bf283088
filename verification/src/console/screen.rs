//! The console itself.

use vstd::prelude::*;

use crate::console::font::Font;
use crate::console::{palette, Cell, Format, Grid, GridV, Out, OutV, Rgb, GLM_GRAY};
use crate::pixels::{copy, fill, glyph, set_pixel, Area};

verus! {

pub const GLYPH_W: usize = 8;

pub const GLYPH_H: usize = 8;

/// The largest screen, in pixels each way.
pub const SCREEN_MAX: usize = 0x4000_0000;

pub struct Console {
    pub fb: Vec<u32>,
    pub pitch_px: usize,
    pub width: usize,
    pub height: usize,
    pub format: Format,
    pub scale: usize,
    pub cols: usize,
    pub rows: usize,
    pub cx: usize,
    pub cy: usize,
    pub fg: Rgb,
    pub bg: Rgb,
    pub grid: Grid,
    pub font: Font,
}

#[verifier::ext_equal]
pub struct ConsoleV {
    pub fb: Seq<u32>,
    pub pitch: int,
    pub width: int,
    pub height: int,
    pub format: Format,
    pub scale: int,
    pub cols: int,
    pub rows: int,
    pub cx: int,
    pub cy: int,
    pub fg: Rgb,
    pub bg: Rgb,
    pub grid: GridV,
    pub font: Font,
}

impl ConsoleV {
    pub open spec fn wf(self) -> bool {
        &&& 0 < self.pitch
        &&& 0 <= self.width <= self.pitch
        &&& self.width <= SCREEN_MAX
        &&& 0 <= self.height <= SCREEN_MAX
        &&& self.fb.len() == self.pitch * self.height
        &&& self.format.wf()
        &&& self.scale == 1 || self.scale == 2
        &&& self.cols == self.width / (8 * self.scale)
        &&& self.rows == self.height / (8 * self.scale + 2)
        &&& self.grid.wf()
        &&& self.grid.on ==> self.grid.cols == self.cols && self.grid.rows == self.rows
        &&& self.font.wf()
        &&& 0 <= self.cx <= self.cols
        &&& 0 <= self.cy <= self.rows
    }

    /// There is room for text.
    pub open spec fn prints(self) -> bool {
        &&& self.wf()
        &&& self.cols >= 1
        &&& self.rows >= 1
        &&& self.cy < self.rows
    }

    pub open spec fn screen(self) -> Area {
        Area { x0: 0, y0: 0, x1: self.width, y1: self.height }
    }

    pub open spec fn cell_w(self) -> int {
        8 * self.scale
    }

    pub open spec fn cell_h(self) -> int {
        8 * self.scale + 2
    }

    pub open spec fn rect_filled(self, x: int, y: int, w: int, h: int, c: Rgb) -> ConsoleV {
        ConsoleV {
            fb: crate::pixels::filled(
                self.fb,
                self.pitch,
                crate::pixels::meet(self.screen(), crate::pixels::area_at(x, y, w, h)),
                self.format.packed(c),
            ),
            ..self
        }
    }

    pub open spec fn char_drawn(self, ch: u8, px: int, py: int, fg: Rgb, bg: Rgb, scale: int) -> ConsoleV {
        ConsoleV {
            fb: crate::pixels::glyphed(
                self.fb,
                self.pitch,
                self.screen(),
                px,
                py,
                scale,
                self.font.rows(ch),
                self.format.packed(fg),
                Some(self.format.packed(bg)),
            ),
            ..self
        }
    }

    pub open spec fn cell_drawn(self, ch: u8, col: int, row: int, fg: Rgb, bg: Rgb) -> ConsoleV {
        self.char_drawn(ch, col * self.cell_w(), row * self.cell_h(), fg, bg, self.scale)
    }

    /// Every text line moves up by one, and the last is blank.
    pub open spec fn scrolled(self) -> ConsoleV {
        let up = self.cell_h() * self.pitch;
        let moved = ConsoleV {
            fb: Seq::new(
                self.fb.len(),
                |k: int|
                    if k + up < self.fb.len() {
                        self.fb[k + up]
                    } else {
                        self.fb[k]
                    },
            ),
            grid: self.grid.scrolled(crate::console::blank_cell(self.fg, self.bg)),
            ..self
        };
        moved.rect_filled(0, self.height - self.cell_h(), self.width, self.cell_h(), self.bg)
    }

    pub open spec fn lined(self) -> ConsoleV {
        if self.cy + 1 >= self.rows {
            ConsoleV { cx: 0, cy: self.rows - 1, ..self.scrolled() }
        } else {
            ConsoleV { cx: 0, cy: self.cy + 1, ..self }
        }
    }

    /// A character that shows; a full line is ended first.
    pub open spec fn shown(self, ch: u8) -> ConsoleV {
        let c = if self.cx >= self.cols {
            self.lined()
        } else {
            self
        };
        let d = c.cell_drawn(ch, c.cx, c.cy, c.fg, c.bg);
        ConsoleV {
            grid: c.grid.stored(c.cx, c.cy, Cell { ch, fg: c.fg, bg: c.bg }),
            cx: c.cx + 1,
            ..d
        }
    }

    pub open spec fn put(self, ch: u8) -> ConsoleV {
        if ch == 0x0A {
            self.lined()
        } else if ch == 0x0D {
            ConsoleV { cx: 0, ..self }
        } else if ch == 0x09 {
            self.shown(0x20).shown(0x20).shown(0x20).shown(0x20)
        } else {
            self.shown(ch)
        }
    }

    /// The bytes from `i` on printed; a byte that is not ASCII as a question
    /// mark.
    pub open spec fn printed(self, b: Seq<u8>, i: int) -> ConsoleV
        decreases b.len() - i,
    {
        if i < 0 || i >= b.len() {
            self
        } else {
            self.put(
                if b[i] < 128 {
                    b[i]
                } else {
                    0x3F
                },
            ).printed(b, i + 1)
        }
    }

    pub open spec fn text(self, s: Seq<char>) -> ConsoleV {
        self.printed(vstd::utf8::encode_utf8(s), 0)
    }

    pub open spec fn colored(self, color: int) -> ConsoleV {
        ConsoleV { fg: crate::console::palette_rgb(color), ..self }
    }

    pub open spec fn cleared(self) -> ConsoleV {
        ConsoleV {
            cx: 0,
            cy: 0,
            grid: self.grid.cleared(crate::console::blank_cell(self.fg, self.bg)),
            ..self.rect_filled(0, 0, self.width, self.height, self.bg)
        }
    }

    /// The cells from `k` on drawn again.
    pub open spec fn redrawn(self, k: int) -> ConsoleV
        decreases self.grid.data.len() - k,
    {
        if k < 0 || k >= self.grid.data.len() {
            self
        } else {
            let c = self.grid.data[k];
            self.cell_drawn(c.ch, k % self.grid.cols, k / self.grid.cols, c.fg, c.bg).redrawn(k + 1)
        }
    }

    /// The cursor in a color: the lowest pixels of the current cell.
    pub open spec fn cursor(self, c: Rgb) -> ConsoleV {
        let h = 2 * self.scale;
        self.rect_filled(
            self.cx * self.cell_w(),
            self.cy * self.cell_h() + self.cell_h() - h,
            self.cell_w(),
            h,
            c,
        )
    }

    /// A piece of output: in its own color, after which the usual one is set,
    /// or in the one that is set.
    pub open spec fn said(self, o: OutV) -> ConsoleV {
        match o.color {
            None => self.text(o.text),
            Some(c) => self.colored(c as int).text(o.text).colored(GLM_GRAY as int),
        }
    }

    pub open spec fn said_all(self, v: Seq<OutV>, i: int) -> ConsoleV
        decreases v.len() - i,
    {
        if i < 0 || i >= v.len() {
            self
        } else {
            self.said(v[i]).said_all(v, i + 1)
        }
    }
}

/// A console on a picture of a size, with a blank line between text lines.
pub open spec fn fresh_console(
    fb: Seq<u32>,
    pitch: int,
    width: int,
    height: int,
    format: Format,
    font: Font,
) -> ConsoleV {
    let scale: int = if width / 8 >= 120 {
        2
    } else {
        1
    };
    let cols = width / (8 * scale);
    let rows = height / (8 * scale + 2);
    let fg = crate::console::palette_rgb(GLM_GRAY as int);
    let bg = Rgb(6, 7, 10);
    ConsoleV {
        fb,
        pitch,
        width,
        height,
        format,
        scale,
        cols,
        rows,
        cx: 0,
        cy: 0,
        fg,
        bg,
        grid: crate::console::fresh_grid(cols, rows, fg, bg),
        font,
    }
}

proof fn lemma_rows_fit(c: ConsoleV, y0: int, y1: int)
    requires
        c.wf(),
        0 <= y0,
        y1 <= c.height,
    ensures
        y0 < y1 ==> y1 * c.pitch <= c.fb.len(),
{
    assert(y1 * c.pitch <= c.pitch * c.height) by (nonlinear_arith)
        requires
            y1 <= c.height,
            0 < c.pitch,
    ;
}

proof fn lemma_cell_fits(n: int, cell: int, total: int, k: int)
    requires
        cell > 0,
        total >= 0,
        n == total / cell,
        0 <= k < n,
    ensures
        0 <= k * cell,
        k * cell + cell <= total,
{
    vstd::arithmetic::div_mod::lemma_fundamental_div_mod(total, cell);
    assert(k * cell + cell <= n * cell && 0 <= k * cell) by (nonlinear_arith)
        requires
            0 <= k < n,
            cell > 0,
    ;
    assert(n * cell == cell * n) by (nonlinear_arith);
}

impl Console {
    pub open spec fn view(&self) -> ConsoleV {
        ConsoleV {
            fb: self.fb@,
            pitch: self.pitch_px as int,
            width: self.width as int,
            height: self.height as int,
            format: self.format,
            scale: self.scale as int,
            cols: self.cols as int,
            rows: self.rows as int,
            cx: self.cx as int,
            cy: self.cy as int,
            fg: self.fg,
            bg: self.bg,
            grid: self.grid@,
            font: self.font,
        }
    }

    /// A console on a picture of `height` rows of `pitch / 4` pixels, of which
    /// `width` show.
    pub fn new(fb: Vec<u32>, pitch: usize, width: usize, height: usize, format: Format, font: Font) -> (c: Console)
        requires
            4 <= pitch,
            width <= pitch / 4,
            width <= SCREEN_MAX,
            height <= SCREEN_MAX,
            fb@.len() == (pitch / 4) * height,
            format.wf(),
            font.wf(),
        ensures
            c@.wf(),
            c@ == fresh_console(fb@, (pitch / 4) as int, width as int, height as int, format, font),
    {
        let scale: usize = if width / 8 >= 120 {
            2
        } else {
            1
        };
        let cols: usize = width / (GLYPH_W * scale);
        let rows: usize = height / (GLYPH_H * scale + 2);
        let fg: Rgb = palette(GLM_GRAY);
        let bg: Rgb = Rgb(6, 7, 10);
        let grid = Grid::fresh(cols, rows, fg, bg);
        Console { fb, pitch_px: pitch / 4, width, height, format, scale, cols, rows, cx: 0, cy: 0, fg, bg, grid, font }
    }

    pub fn fill_rect(&mut self, x0: usize, y0: usize, w: usize, h: usize, c: &Rgb)
        requires
            old(self)@.wf(),
        ensures
            final(self)@.wf(),
            final(self)@ == old(self)@.rect_filled(x0 as int, y0 as int, w as int, h as int, *c),
    {
        let p: u32 = self.format.pack(c);
        if x0 < self.width && y0 < self.height {
            let x1: usize = if w < self.width - x0 {
                x0 + w
            } else {
                self.width
            };
            let y1: usize = if h < self.height - y0 {
                y0 + h
            } else {
                self.height
            };
            proof {
                lemma_rows_fit(self@, y0 as int, y1 as int);
            }
            fill(&mut self.fb, self.pitch_px, x0, y0, x1, y1, p);
        }
        assert(self@.fb =~= old(self)@.rect_filled(x0 as int, y0 as int, w as int, h as int, *c).fb);
    }

    pub fn cell_w(&self) -> (r: usize)
        requires
            self@.wf(),
        ensures
            r == self@.cell_w(),
    {
        GLYPH_W * self.scale
    }

    pub fn cell_h(&self) -> (r: usize)
        requires
            self@.wf(),
        ensures
            r == self@.cell_h(),
    {
        GLYPH_H * self.scale + 2
    }

    /// A glyph at any pixel, in any size.
    pub fn draw_char_px(&mut self, ch: u8, px: usize, py: usize, fg: &Rgb, bg: &Rgb, scale: usize)
        requires
            old(self)@.wf(),
            1 <= scale <= 0x1000,
        ensures
            final(self)@.wf(),
            final(self)@ == old(self)@.char_drawn(ch, px as int, py as int, *fg, *bg, scale as int),
    {
        let bits = self.font.glyph_for(ch);
        let fgp: u32 = self.format.pack(fg);
        let bgp: u32 = self.format.pack(bg);
        if px < self.width && py < self.height {
            proof {
                lemma_rows_fit(self@, 0, self.height as int);
            }
            glyph(
                &mut self.fb,
                self.pitch_px,
                0,
                0,
                self.width,
                self.height,
                px as i64,
                py as i64,
                scale as i64,
                &bits,
                fgp,
                Some(bgp),
            );
        }
        assert(self@.fb =~= old(self)@.char_drawn(ch, px as int, py as int, *fg, *bg, scale as int).fb);
    }

    /// A glyph in a cell of the text screen.
    pub fn draw_char(&mut self, ch: u8, col: usize, row: usize, fg: &Rgb, bg: &Rgb)
        requires
            old(self)@.wf(),
            col < old(self)@.cols,
            row < old(self)@.rows,
        ensures
            final(self)@.wf(),
            final(self)@ == old(self)@.cell_drawn(ch, col as int, row as int, *fg, *bg),
    {
        let cw: usize = self.cell_w();
        let chh: usize = self.cell_h();
        proof {
            lemma_cell_fits(self.cols as int, cw as int, self.width as int, col as int);
            lemma_cell_fits(self.rows as int, chh as int, self.height as int, row as int);
        }
        let scale: usize = self.scale;
        self.draw_char_px(ch, col * cw, row * chh, fg, bg, scale);
    }

    fn scroll(&mut self)
        requires
            old(self)@.prints(),
        ensures
            final(self)@.prints(),
            final(self)@ == old(self)@.scrolled(),
    {
        let ch: usize = self.cell_h();
        proof {
            lemma_cell_fits(self.rows as int, ch as int, self.height as int, 0);
            assert(ch * self.pitch_px <= self.pitch_px * self.height) by (nonlinear_arith)
                requires
                    ch <= self.height,
                    0 < self.pitch_px,
            ;
        }
        let n: usize = self.fb.len();
        let up: usize = ch * self.pitch_px;
        let mut k: usize = 0;
        while k < n - up
            invariant
                up <= n,
                k <= n - up,
                n == self.fb@.len(),
                n == old(self).fb@.len(),
                *self == (Console { fb: self.fb, ..*old(self) }),
                forall|j: int| k <= j < n ==> self.fb@[j] == old(self).fb@[j],
                forall|j: int| 0 <= j < k ==> #[trigger] self.fb@[j] == old(self).fb@[j + up],
            decreases n - up - k,
        {
            let v: u32 = self.fb[k + up];
            self.fb.set(k, v);
            k = k + 1;
        }
        let blank = Cell { ch: 0x20, fg: self.fg, bg: self.bg };
        self.grid.scroll(blank);
        let bg: Rgb = self.bg;
        let (y, w) = (self.height - ch, self.width);
        let ghost c1 = self@;
        self.fill_rect(0, y, w, ch, &bg);
        assert(c1.fb =~= Seq::new(
            old(self)@.fb.len(),
            |k: int|
                if k + up < old(self)@.fb.len() {
                    old(self)@.fb[k + up]
                } else {
                    old(self)@.fb[k]
                },
        ));
    }

    fn newline(&mut self)
        requires
            old(self)@.prints(),
        ensures
            final(self)@.prints(),
            final(self)@ == old(self)@.lined(),
    {
        if self.cy + 1 >= self.rows {
            self.scroll();
            self.cy = self.rows - 1;
        } else {
            self.cy = self.cy + 1;
        }
        self.cx = 0;
    }

    fn show(&mut self, ch: u8)
        requires
            old(self)@.prints(),
        ensures
            final(self)@.prints(),
            final(self)@ == old(self)@.shown(ch),
    {
        if self.cx >= self.cols {
            self.newline();
        }
        let (cx, cy) = (self.cx, self.cy);
        let (fg, bg) = (self.fg, self.bg);
        self.draw_char(ch, cx, cy, &fg, &bg);
        self.grid.store(cx, cy, Cell { ch, fg, bg });
        self.cx = self.cx + 1;
    }

    pub fn put_char(&mut self, ch: u8)
        requires
            old(self)@.prints(),
        ensures
            final(self)@.prints(),
            final(self)@ == old(self)@.put(ch),
    {
        if ch == 0x0A {
            self.newline();
        } else if ch == 0x0D {
            self.cx = 0;
        } else if ch == 0x09 {
            self.show(0x20);
            self.show(0x20);
            self.show(0x20);
            self.show(0x20);
        } else {
            self.show(ch);
        }
    }

    pub fn write_str(&mut self, s: &str)
        requires
            old(self)@.prints(),
        ensures
            final(self)@.prints(),
            final(self)@ == old(self)@.text(s@),
    {
        let b: &[u8] = s.as_bytes();
        let n: usize = b.len();
        let mut i: usize = 0;
        while i < n
            invariant
                i <= n,
                n == b@.len(),
                self@.prints(),
                self@.printed(b@, i as int) == old(self)@.printed(b@, 0),
            decreases n - i,
        {
            let x: u8 = b[i];
            self.put_char(if x < 128 {
                x
            } else {
                0x3F
            });
            i = i + 1;
        }
    }

    pub fn set_color(&mut self, color: u8)
        requires
            color < 16,
        ensures
            final(self)@ == old(self)@.colored(color as int),
    {
        self.fg = palette(color);
    }

    pub fn set_fg(&mut self, c: Rgb)
        ensures
            final(self)@ == (ConsoleV { fg: c, ..old(self)@ }),
    {
        self.fg = c;
    }

    pub fn clear(&mut self)
        requires
            old(self)@.wf(),
        ensures
            final(self)@.wf(),
            final(self)@ == old(self)@.cleared(),
    {
        self.cx = 0;
        self.cy = 0;
        let bg: Rgb = self.bg;
        let (w, h) = (self.width, self.height);
        self.fill_rect(0, 0, w, h, &bg);
        let blank = Cell { ch: 0x20, fg: self.fg, bg: self.bg };
        self.grid.clear(blank);
    }

    pub fn width(&self) -> (r: usize)
        ensures
            r == self@.width,
    {
        self.width
    }

    pub fn height(&self) -> (r: usize)
        ensures
            r == self@.height,
    {
        self.height
    }

    pub fn scale(&self) -> (r: usize)
        ensures
            r == self@.scale,
    {
        self.scale
    }

    /// A color as a pixel of this screen.
    pub fn pack_rgb(&self, c: &Rgb) -> (p: u32)
        requires
            self@.format.wf(),
        ensures
            p == self@.format.packed(*c),
    {
        self.format.pack(c)
    }

    /// Sets one pixel.
    pub fn px(&mut self, x: usize, y: usize, c: &Rgb)
        requires
            old(self)@.wf(),
        ensures
            final(self)@.wf(),
            final(self)@ == old(self)@.rect_filled(x as int, y as int, 1, 1, *c),
    {
        self.fill_rect(x, y, 1, 1, c);
    }

    /// Sets one pixel to a packed value.
    pub fn px_packed(&mut self, x: usize, y: usize, packed: u32)
        requires
            old(self)@.wf(),
        ensures
            final(self)@.wf(),
            final(self)@ == (ConsoleV {
                fb: crate::pixels::filled(
                    old(self)@.fb,
                    old(self)@.pitch,
                    crate::pixels::meet(old(self)@.screen(), crate::pixels::area_at(x as int, y as int, 1, 1)),
                    packed,
                ),
                ..old(self)@
            }),
    {
        if x < self.width && y < self.height {
            proof {
                lemma_rows_fit(self@, 0, y + 1);
            }
            set_pixel(&mut self.fb, self.pitch_px, x, y, packed);
        }
        assert(self@.fb =~= crate::pixels::filled(
            old(self)@.fb,
            old(self)@.pitch,
            crate::pixels::meet(old(self)@.screen(), crate::pixels::area_at(x as int, y as int, 1, 1)),
            packed,
        ));
    }

    /// Reads one pixel; 0 outside the screen.
    pub fn grab(&self, x: usize, y: usize) -> (p: u32)
        requires
            self@.wf(),
        ensures
            p == if x < self@.width && y < self@.height {
                self@.fb[y * self@.pitch + x]
            } else {
                0
            },
    {
        let n: usize = self.fb.len();
        if x < self.width && y < self.height {
            proof {
                lemma_rows_fit(self@, 0, y + 1);
                crate::pixels::lemma_place(self@.pitch, x as int, y as int, self@.fb.len() as int);
            }
            assert(y * self.pitch_px <= usize::MAX) by (nonlinear_arith)
                requires
                    y * self.pitch_px + x < n,
                    n <= usize::MAX,
                    0 <= x,
            ;
            self.fb[y * self.pitch_px + x]
        } else {
            0
        }
    }

    /// Copies a rectangle from a picture whose rows are `src_pitch` wide; it is
    /// cut at the edges of the picture and of the screen.
    pub fn blit_from(
        &mut self,
        src: &Vec<u32>,
        src_pitch: usize,
        sx: usize,
        sy: usize,
        dx: usize,
        dy: usize,
        w: usize,
        h: usize,
    )
        requires
            old(self)@.wf(),
        ensures
            final(self)@.wf(),
            final(self)@ == blitted(
                old(self)@,
                src@,
                src_pitch as int,
                sx as int,
                sy as int,
                dx as int,
                dy as int,
                w as int,
                h as int,
            ),
    {
        if src_pitch == 0 || w == 0 || h == 0 {
            return;
        }
        let src_h: usize = src.len() / src_pitch;
        if sx >= src_pitch || sy >= src_h || dx >= self.width || dy >= self.height {
            return;
        }
        let w1: usize = if w < src_pitch - sx {
            w
        } else {
            src_pitch - sx
        };
        let h1: usize = if h < src_h - sy {
            h
        } else {
            src_h - sy
        };
        let w2: usize = if w1 < self.width - dx {
            w1
        } else {
            self.width - dx
        };
        let h2: usize = if h1 < self.height - dy {
            h1
        } else {
            self.height - dy
        };
        proof {
            lemma_rows_fit(self@, dy as int, dy + h2);
            vstd::arithmetic::div_mod::lemma_fundamental_div_mod(src@.len() as int, src_pitch as int);
            assert((sy + h2) * src_pitch <= src@.len()) by (nonlinear_arith)
                requires
                    sy + h2 <= src_h,
                    src@.len() == src_pitch * src_h + src@.len() % (src_pitch as nat),
                    src_pitch > 0,
            ;
        }
        copy(&mut self.fb, self.pitch_px, dx, dy, dx + w2, dy + h2, src, src_pitch, sx, sy);
    }

    /// Draws the text screen again from the grid.
    pub fn redraw_all(&mut self)
        requires
            old(self)@.wf(),
        ensures
            final(self)@.wf(),
            final(self)@ == if old(self)@.grid.on {
                old(self)@.redrawn(0)
            } else {
                old(self)@
            },
    {
        if !self.grid.on {
            return;
        }
        let n: usize = self.grid.data.len();
        let cols: usize = self.grid.cols;
        let mut k: usize = 0;
        while k < n
            invariant
                k <= n,
                self@.wf(),
                self.grid.on,
                self@.grid == old(self)@.grid,
                n == self.grid.data@.len(),
                cols == self.grid.cols,
                self@.redrawn(k as int) == old(self)@.redrawn(0),
            decreases n - k,
        {
            let c: Cell = self.grid.data[k];
            proof {
                crate::pixels::lemma_told(cols as int, k as int);
                lemma_row_of(k as int, cols as int, self.rows as int);
            }
            self.draw_char(c.ch, k % cols, k / cols, &c.fg, &c.bg);
            k = k + 1;
        }
    }

    /// Draws the cursor.
    pub fn cursor_draw(&mut self)
        requires
            old(self)@.prints(),
        ensures
            final(self)@.prints(),
            final(self)@ == old(self)@.cursor(old(self)@.fg),
    {
        let c: Rgb = self.fg;
        self.cursor_in(&c);
    }

    /// Takes the cursor off the screen.
    pub fn cursor_erase(&mut self)
        requires
            old(self)@.prints(),
        ensures
            final(self)@.prints(),
            final(self)@ == old(self)@.cursor(old(self)@.bg),
    {
        let c: Rgb = self.bg;
        self.cursor_in(&c);
    }

    fn cursor_in(&mut self, c: &Rgb)
        requires
            old(self)@.prints(),
        ensures
            final(self)@.prints(),
            final(self)@ == old(self)@.cursor(*c),
    {
        let (cw, ch) = (self.cell_w(), self.cell_h());
        let h: usize = 2 * self.scale;
        proof {
            lemma_cell_fits(self.rows as int, ch as int, self.height as int, self.cy as int);
            vstd::arithmetic::div_mod::lemma_fundamental_div_mod(self.width as int, cw as int);
            assert(0 <= self.cx * cw <= self.width) by (nonlinear_arith)
                requires
                    0 <= self.cx <= self.cols,
                    self.width == cw * self.cols + self.width % cw,
                    0 < cw,
            ;
        }
        let (x, y) = (self.cx * cw, self.cy * ch + ch - h);
        self.fill_rect(x, y, cw, h, c);
    }
}

proof fn lemma_row_of(k: int, cols: int, rows: int)
    requires
        0 < cols,
        0 <= k < cols * rows,
    ensures
        k / cols < rows,
{
    assert(k / cols < rows) by (nonlinear_arith)
        requires
            0 < cols,
            0 <= k < cols * rows,
    ;
}

/// The console with a rectangle of a picture copied in.
pub open spec fn blitted(
    c: ConsoleV,
    src: Seq<u32>,
    src_pitch: int,
    sx: int,
    sy: int,
    dx: int,
    dy: int,
    w: int,
    h: int,
) -> ConsoleV {
    if src_pitch == 0 || w == 0 || h == 0 || sx >= src_pitch || sy >= (src.len() as int) / src_pitch || dx >= c.width
        || dy >= c.height {
        c
    } else {
        let src_h = (src.len() as int) / src_pitch;
        let ww = crate::pixels::min(crate::pixels::min(w, src_pitch - sx), c.width - dx);
        let hh = crate::pixels::min(crate::pixels::min(h, src_h - sy), c.height - dy);
        ConsoleV {
            fb: crate::pixels::copied(
                c.fb,
                c.pitch,
                crate::pixels::area_at(dx, dy, ww, hh),
                src,
                src_pitch,
                sx,
                sy,
            ),
            ..c
        }
    }
}

// ---------------------------------------------------------------------------
// The console of the system, if there is one
// ---------------------------------------------------------------------------
/// There is room for text, if there is a console.
pub open spec fn usable(c: Option<Console>) -> bool {
    c matches Some(x) ==> x@.prints()
}

pub open spec fn console_view(c: Option<Console>) -> Option<ConsoleV> {
    match c {
        None => None,
        Some(x) => Some(x@),
    }
}

/// A console with something done to it.
pub open spec fn with(c: Option<ConsoleV>, f: spec_fn(ConsoleV) -> ConsoleV) -> Option<ConsoleV> {
    match c {
        None => None,
        Some(x) => Some(f(x)),
    }
}

/// The console for a framebuffer of 32 bits a pixel.
pub fn init(fb: Vec<u32>, pitch: usize, width: usize, height: usize, format: Format, font: Font) -> (c: Option<Console>)
    requires
        4 <= pitch,
        width <= pitch / 4,
        width <= SCREEN_MAX,
        height <= SCREEN_MAX,
        fb@.len() == (pitch / 4) * height,
        format.wf(),
        font.wf(),
    ensures
        console_view(c) == Some(
            fresh_console(fb@, (pitch / 4) as int, width as int, height as int, format, font),
        ),
        c->Some_0@.wf(),
{
    Some(Console::new(fb, pitch, width, height, format, font))
}

/// Paints the text screen again.
pub fn redraw_all_global(c: &mut Option<Console>)
    requires
        *old(c) matches Some(x) ==> x@.wf(),
    ensures
        *final(c) matches Some(x) ==> x@.wf(),
        console_view(*final(c)) == with(
            console_view(*old(c)),
            |v: ConsoleV|
                if v.grid.on {
                    v.redrawn(0)
                } else {
                    v
                },
        ),
{
    match c {
        None => {},
        Some(x) => x.redraw_all(),
    }
}

pub fn print(c: &mut Option<Console>, s: &str)
    requires
        usable(*old(c)),
    ensures
        usable(*final(c)),
        console_view(*final(c)) == with(console_view(*old(c)), |v: ConsoleV| v.text(s@)),
{
    match c {
        None => {},
        Some(x) => x.write_str(s),
    }
}

/// Prints a text that was put together.
pub fn print_args(c: &mut Option<Console>, s: &String)
    requires
        usable(*old(c)),
    ensures
        usable(*final(c)),
        console_view(*final(c)) == with(console_view(*old(c)), |v: ConsoleV| v.text(s@)),
{
    match c {
        None => {},
        Some(x) => x.write_str(s.as_str()),
    }
}

pub fn set_color_global(c: &mut Option<Console>, color: u8)
    requires
        usable(*old(c)),
        color < 16,
    ensures
        usable(*final(c)),
        console_view(*final(c)) == with(console_view(*old(c)), |v: ConsoleV| v.colored(color as int)),
{
    match c {
        None => {},
        Some(x) => x.set_color(color),
    }
}

/// Prints in a color; the usual one is set after it.
pub fn print_color(c: &mut Option<Console>, s: &str, color: u8)
    requires
        usable(*old(c)),
        color < 16,
    ensures
        usable(*final(c)),
        console_view(*final(c)) == with(
            console_view(*old(c)),
            |v: ConsoleV| v.said(OutV { text: s@, color: Some(color) }),
        ),
{
    match c {
        None => {},
        Some(x) => {
            x.set_color(color);
            x.write_str(s);
            x.set_color(GLM_GRAY);
        },
    }
}

/// Pieces of output whose colors are in the palette.
pub open spec fn in_palette(v: Seq<OutV>) -> bool {
    forall|i: int| 0 <= i < v.len() ==> ((#[trigger] v[i]).color matches Some(c) ==> c < 16)
}

/// Prints all pieces of output in turn.
pub fn print_all(c: &mut Option<Console>, v: &Vec<Out>)
    requires
        usable(*old(c)),
        in_palette(crate::console::outs(v@)),
    ensures
        usable(*final(c)),
        console_view(*final(c)) == with(
            console_view(*old(c)),
            |x: ConsoleV| x.said_all(crate::console::outs(v@), 0),
        ),
{
    let ghost o = crate::console::outs(v@);
    let ghost f = |x: ConsoleV| x.said_all(o, 0);
    let mut i: usize = 0;
    while i < v.len()
        invariant
            i <= v@.len(),
            usable(*c),
            o == crate::console::outs(v@),
            in_palette(o),
            match (console_view(*c), console_view(*old(c))) {
                (None, None) => true,
                (Some(x), Some(y)) => x.said_all(o, i as int) == y.said_all(o, 0),
                _ => false,
            },
        decreases v@.len() - i,
    {
        assert(o[i as int] == v@[i as int]@);
        match v[i].color {
            None => print(c, v[i].text.as_str()),
            Some(k) => print_color(c, v[i].text.as_str(), k),
        }
        i = i + 1;
    }
}

pub fn newline(c: &mut Option<Console>)
    requires
        usable(*old(c)),
    ensures
        usable(*final(c)),
        console_view(*final(c)) == with(console_view(*old(c)), |v: ConsoleV| v.lined()),
{
    match c {
        None => {},
        Some(x) => x.put_char(0x0A),
    }
}

pub fn cursor_draw(c: &mut Option<Console>)
    requires
        usable(*old(c)),
    ensures
        usable(*final(c)),
        console_view(*final(c)) == with(console_view(*old(c)), |v: ConsoleV| v.cursor(v.fg)),
{
    match c {
        None => {},
        Some(x) => x.cursor_draw(),
    }
}

pub fn cursor_erase(c: &mut Option<Console>)
    requires
        usable(*old(c)),
    ensures
        usable(*final(c)),
        console_view(*final(c)) == with(console_view(*old(c)), |v: ConsoleV| v.cursor(v.bg)),
{
    match c {
        None => {},
        Some(x) => x.cursor_erase(),
    }
}

pub fn clear(c: &mut Option<Console>)
    requires
        usable(*old(c)),
    ensures
        usable(*final(c)),
        console_view(*final(c)) == with(console_view(*old(c)), |v: ConsoleV| v.cleared()),
{
    match c {
        None => {},
        Some(x) => x.clear(),
    }
}

/// The size of the text screen; nothing without a console.
pub fn size(c: &Option<Console>) -> (r: (usize, usize))
    ensures
        match console_view(*c) {
            None => r == (0usize, 0usize),
            Some(v) => r.0 == v.cols && r.1 == v.rows,
        },
{
    match c {
        None => (0, 0),
        Some(x) => (x.cols, x.rows),
    }
}

} // verus!
