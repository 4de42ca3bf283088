//! The framebuffer text console: a font drawn into a picture of packed pixels,
//! and a grid that holds what was drawn, so that the text screen can be
//! painted again after something else used the screen.

pub mod font;
pub mod laws;
pub mod print_laws;
pub mod screen;

use vstd::prelude::*;


verus! {

pub const GLM_CYAN: u8 = 11;

pub const GLM_GREEN: u8 = 10;

pub const GLM_WHITE: u8 = 15;

pub const GLM_GRAY: u8 = 7;

pub const GLM_MAGENTA: u8 = 13;

pub const GLM_YELLOW: u8 = 14;

pub const GLM_RED: u8 = 12;

/// A color, 0 to 255 for each channel.
#[derive(Clone, Copy, PartialEq, Eq, Structural, Debug)]
pub struct Rgb(pub u8, pub u8, pub u8);

/// The sixteen colors of the text screen, red in the highest byte.
pub const PALETTE: [u32; 16] = [
    0x00_0000,
    0x1C_4ABD,
    0x2E_B872,
    0x26_BDBD,
    0xC4_3939,
    0xAD_47C7,
    0xC8_8D2B,
    0xB8_B8B8,
    0x5A_5A5A,
    0x54_86FF,
    0x5E_E28D,
    0x46_E2E2,
    0xFF_6363,
    0xDB_72FF,
    0xFF_DC5D,
    0xF0_F0F0,
];

/// A color of the palette.
pub open spec fn palette_rgb(i: int) -> Rgb {
    let v = PALETTE@[i];
    Rgb((v / 0x1_0000) as u8, (v / 0x100 % 0x100) as u8, (v % 0x100) as u8)
}

pub fn palette(i: u8) -> (c: Rgb)
    requires
        i < 16,
    ensures
        c == palette_rgb(i as int),
{
    let v: u32 = PALETTE[i as usize];
    Rgb((v / 0x1_0000) as u8, (v / 0x100 % 0x100) as u8, (v % 0x100) as u8)
}

/// A piece of console output: a text and its palette color, or the color that
/// is set.
pub struct Out {
    pub text: String,
    pub color: Option<u8>,
}

pub struct OutV {
    pub text: Seq<char>,
    pub color: Option<u8>,
}

impl Out {
    pub open spec fn view(&self) -> OutV {
        OutV { text: self.text@, color: self.color }
    }
}

/// The outputs of `v`, in order.
pub open spec fn outs(v: Seq<Out>) -> Seq<OutV> {
    v.map_values(|o: Out| o@)
}

pub open spec fn colored(text: Seq<char>, color: u8) -> OutV {
    OutV { text, color: Some(color) }
}

pub open spec fn plain(text: Seq<char>) -> OutV {
    OutV { text, color: None }
}

/// Appends a text in a palette color.
pub fn say_color(v: &mut Vec<Out>, text: String, color: u8)
    ensures
        outs(final(v)@) == outs(old(v)@).push(colored(text@, color)),
{
    let ghost before = v@;
    let o = Out { text, color: Some(color) };
    let ghost ov = o@;
    v.push(o);
    assert(outs(v@) =~= outs(before).push(ov));
}

/// Appends a text in the color that is set.
pub fn say(v: &mut Vec<Out>, text: String)
    ensures
        outs(final(v)@) == outs(old(v)@).push(plain(text@)),
{
    let ghost before = v@;
    let o = Out { text, color: None };
    let ghost ov = o@;
    v.push(o);
    assert(outs(v@) =~= outs(before).push(ov));
}

/// No output yet.
pub fn nothing() -> (v: Vec<Out>)
    ensures
        outs(v@) == Seq::<OutV>::empty(),
{
    let v: Vec<Out> = Vec::new();
    assert(outs(v@) =~= Seq::<OutV>::empty());
    v
}

// ---------------------------------------------------------------------------
// Pixels
// ---------------------------------------------------------------------------
/// How a color is packed into a pixel: where each channel is, and how wide.
#[derive(Clone, Copy, PartialEq, Eq, Structural, Debug)]
pub struct Format {
    pub rsh: u32,
    pub gsh: u32,
    pub bsh: u32,
    pub rsz: u32,
    pub gsz: u32,
    pub bsz: u32,
}

/// A channel, cut to its width.
pub open spec fn channel(v: u8, sz: u32) -> u32 {
    if sz == 0 || sz >= 8 {
        v as u32
    } else {
        (v as u32) >> (8 - sz) as u32
    }
}

impl Format {
    pub open spec fn wf(self) -> bool {
        self.rsh < 32 && self.gsh < 32 && self.bsh < 32
    }

    /// A color as a pixel.
    pub open spec fn packed(self, c: Rgb) -> u32 {
        (channel(c.0, self.rsz) << self.rsh) | (channel(c.1, self.gsz) << self.gsh) | (channel(c.2, self.bsz)
            << self.bsh)
    }

    pub fn pack(&self, c: &Rgb) -> (p: u32)
        requires
            self.wf(),
        ensures
            p == self.packed(*c),
    {
        (cut_channel(c.0, self.rsz) << self.rsh) | (cut_channel(c.1, self.gsz) << self.gsh) | (cut_channel(
            c.2,
            self.bsz,
        ) << self.bsh)
    }
}

fn cut_channel(v: u8, sz: u32) -> (r: u32)
    ensures
        r == channel(v, sz),
{
    if sz == 0 || sz >= 8 {
        v as u32
    } else {
        (v as u32) >> (8 - sz)
    }
}

// ---------------------------------------------------------------------------
// The grid
// ---------------------------------------------------------------------------
pub const MAX_COLS: usize = 128;

pub const MAX_ROWS: usize = 96;

#[derive(Clone, Copy, PartialEq, Eq, Structural, Debug)]
pub struct Cell {
    pub ch: u8,
    pub fg: Rgb,
    pub bg: Rgb,
}

/// What the text screen shows, row by row; it is kept for screens up to a
/// size.
pub struct Grid {
    pub data: Vec<Cell>,
    pub cols: usize,
    pub rows: usize,
    pub on: bool,
}

#[verifier::ext_equal]
pub struct GridV {
    pub data: Seq<Cell>,
    pub cols: int,
    pub rows: int,
    pub on: bool,
}

impl GridV {
    pub open spec fn wf(self) -> bool {
        self.on ==> {
            &&& 0 < self.cols <= MAX_COLS
            &&& 0 < self.rows <= MAX_ROWS
            &&& self.data.len() == self.cols * self.rows
        }
    }

    pub open spec fn stored(self, col: int, row: int, cell: Cell) -> GridV {
        if self.on && col < self.cols && row < self.rows {
            GridV { data: self.data.update(row * self.cols + col, cell), ..self }
        } else {
            self
        }
    }

    /// Every row moves up by one, and the last is blank.
    pub open spec fn scrolled(self, blank: Cell) -> GridV {
        if self.on {
            GridV {
                data: Seq::new(
                    self.data.len(),
                    |k: int|
                        if k + self.cols < self.data.len() {
                            self.data[k + self.cols]
                        } else {
                            blank
                        },
                ),
                ..self
            }
        } else {
            self
        }
    }

    pub open spec fn cleared(self, blank: Cell) -> GridV {
        if self.on {
            GridV { data: Seq::new(self.data.len(), |k: int| blank), ..self }
        } else {
            self
        }
    }
}

pub open spec fn blank_cell(fg: Rgb, bg: Rgb) -> Cell {
    Cell { ch: 0x20, fg, bg }
}

/// A blank grid.
pub open spec fn fresh_grid(cols: int, rows: int, fg: Rgb, bg: Rgb) -> GridV {
    let on = 0 < cols <= MAX_COLS && 0 < rows <= MAX_ROWS;
    GridV {
        data: Seq::new(
            if on {
                (cols * rows) as nat
            } else {
                0
            },
            |k: int| blank_cell(fg, bg),
        ),
        cols,
        rows,
        on,
    }
}

proof fn lemma_grid_size(cols: int, rows: int)
    requires
        0 < cols <= MAX_COLS,
        0 < rows <= MAX_ROWS,
    ensures
        0 < cols * rows <= 12288,
        cols <= cols * rows,
{
    assert(0 < cols * rows && cols * rows <= 12288 && cols <= cols * rows) by (nonlinear_arith)
        requires
            0 < cols <= 128,
            0 < rows <= 96,
    ;
}

impl Grid {
    pub open spec fn view(&self) -> GridV {
        GridV { data: self.data@, cols: self.cols as int, rows: self.rows as int, on: self.on }
    }

    pub fn fresh(cols: usize, rows: usize, fg: Rgb, bg: Rgb) -> (g: Grid)
        ensures
            g@ == fresh_grid(cols as int, rows as int, fg, bg),
            g@.wf(),
    {
        let on: bool = cols > 0 && cols <= MAX_COLS && rows > 0 && rows <= MAX_ROWS;
        let blank = Cell { ch: 0x20, fg, bg };
        let mut data: Vec<Cell> = Vec::new();
        if on {
            proof {
                lemma_grid_size(cols as int, rows as int);
            }
            let n: usize = cols * rows;
            while data.len() < n
                invariant
                    data@.len() <= n,
                    blank == blank_cell(fg, bg),
                    forall|k: int| 0 <= k < data@.len() ==> data@[k] == blank,
                decreases n - data@.len(),
            {
                data.push(blank);
            }
        }
        let g = Grid { data, cols, rows, on };
        assert(g@ =~= fresh_grid(cols as int, rows as int, fg, bg));
        g
    }

    pub(crate) fn store(&mut self, col: usize, row: usize, cell: Cell)
        requires
            old(self)@.wf(),
        ensures
            final(self)@.wf(),
            final(self)@ == old(self)@.stored(col as int, row as int, cell),
    {
        if self.on && col < self.cols && row < self.rows {
            proof {
                lemma_grid_size(self.cols as int, self.rows as int);
                crate::pixels::lemma_place(self.cols as int, col as int, row as int, (row + 1) * self.cols);
                assert((row + 1) * self.cols <= self.cols * self.rows) by (nonlinear_arith)
                    requires
                        row + 1 <= self.rows,
                        0 < self.cols,
                ;
            }
            let k: usize = row * self.cols + col;
            self.data.set(k, cell);
        }
    }

    pub(crate) fn scroll(&mut self, blank: Cell)
        requires
            old(self)@.wf(),
        ensures
            final(self)@.wf(),
            final(self)@ == old(self)@.scrolled(blank),
    {
        if !self.on {
            return;
        }
        proof {
            lemma_grid_size(self.cols as int, self.rows as int);
        }
        let n: usize = self.data.len();
        let cols: usize = self.cols;
        let mut k: usize = 0;
        while k < n
            invariant
                k <= n,
                n == self.data@.len(),
                n <= 12288,
                cols <= 128,
                cols == self.cols,
                cols > 0,
                n == old(self).data@.len(),
                self.cols == old(self).cols,
                self.rows == old(self).rows,
                self.on == old(self).on,
                forall|j: int| k <= j < n ==> self.data@[j] == old(self).data@[j],
                forall|j: int|
                    0 <= j < k ==> #[trigger] self.data@[j] == if j + cols < n {
                        old(self).data@[j + cols]
                    } else {
                        blank
                    },
            decreases n - k,
        {
            let c: Cell = if k + cols < n {
                self.data[k + cols]
            } else {
                blank
            };
            self.data.set(k, c);
            k = k + 1;
        }
        assert(self@ =~= old(self)@.scrolled(blank));
    }

    pub(crate) fn clear(&mut self, blank: Cell)
        requires
            old(self)@.wf(),
        ensures
            final(self)@.wf(),
            final(self)@ == old(self)@.cleared(blank),
    {
        if !self.on {
            return;
        }
        let n: usize = self.data.len();
        let mut k: usize = 0;
        while k < n
            invariant
                k <= n,
                n == self.data@.len(),
                n == old(self).data@.len(),
                self.cols == old(self).cols,
                self.rows == old(self).rows,
                self.on == old(self).on,
                forall|j: int| 0 <= j < k ==> self.data@[j] == blank,
            decreases n - k,
        {
            self.data.set(k, blank);
            k = k + 1;
        }
        assert(self@ =~= old(self)@.cleared(blank));
    }
}

} // verus!
