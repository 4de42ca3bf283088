//! Drawing into a picture, of which a part may be changed.

use vstd::prelude::*;

use crate::console::font::Font;
use crate::gui::rect::Rect;
use crate::pixels::{copy, fill, glyph, Area};

verus! {

/// A picture of `w` times `h` pixels, of which only `clip` is drawn to.
pub struct Painter {
    pub buf: Vec<u32>,
    pub w: usize,
    pub h: usize,
    pub clip: Rect,
}

#[verifier::ext_equal]
pub struct PaintV {
    pub buf: Seq<u32>,
    pub w: int,
    pub h: int,
    pub clip: Rect,
}

pub open spec fn near(v: int) -> bool {
    -0x1000_0000 <= v <= 0x1000_0000
}

/// Pictures of one size, of which the same part may be changed.
pub open spec fn same_frame(a: PaintV, b: PaintV) -> bool {
    a.w == b.w && a.h == b.h && a.clip == b.clip
}

impl PaintV {
    pub open spec fn wf(self) -> bool {
        &&& 0 <= self.w <= 0x1_0000
        &&& 0 <= self.h <= 0x1_0000
        &&& self.buf.len() == self.w * self.h
        &&& crate::gui::rect::rect_ok(self.clip)
    }

    /// What may be drawn to.
    pub open spec fn area(self) -> Area {
        crate::pixels::meet(
            Area { x0: 0, y0: 0, x1: self.w, y1: self.h },
            crate::pixels::area_at(self.clip.x as int, self.clip.y as int, self.clip.w as int, self.clip.h as int),
        )
    }

    pub open spec fn rect(self, x: int, y: int, w: int, h: int, col: u32) -> PaintV {
        PaintV {
            buf: crate::pixels::filled(
                self.buf,
                self.w,
                crate::pixels::meet(self.area(), crate::pixels::area_at(x, y, w, h)),
                col,
            ),
            ..self
        }
    }

    pub open spec fn glyph(self, f: Font, ch: u8, x: int, y: int, fg: u32, bg: Option<u32>, scale: int) -> PaintV {
        PaintV {
            buf: crate::pixels::glyphed(self.buf, self.w, self.area(), x, y, scale, f.rows(ch), fg, bg),
            ..self
        }
    }

    /// The bytes from `i` on as characters, side by side.
    pub open spec fn bytes(
        self,
        f: Font,
        b: Seq<u8>,
        i: int,
        x: int,
        y: int,
        fg: u32,
        bg: Option<u32>,
        scale: int,
    ) -> PaintV
        decreases b.len() - i,
    {
        if i < 0 || i >= b.len() {
            self
        } else {
            self.glyph(f, b[i], x + i * 8 * scale, y, fg, bg, scale).bytes(f, b, i + 1, x, y, fg, bg, scale)
        }
    }

    pub open spec fn text(self, f: Font, s: Seq<char>, x: int, y: int, fg: u32, bg: Option<u32>, scale: int) -> PaintV {
        self.bytes(f, vstd::utf8::encode_utf8(s), 0, x, y, fg, bg, scale)
    }

    /// A picture of `bw` times `bh` at (dx, dy).
    pub open spec fn picture(self, src: Seq<u32>, dx: int, dy: int, bw: int, bh: int) -> PaintV {
        let a = crate::pixels::meet(self.area(), crate::pixels::area_at(dx, dy, bw, bh));
        PaintV {
            buf: crate::pixels::copied(self.buf, self.w, a, src, bw, a.x0 - dx, a.y0 - dy),
            ..self
        }
    }
}

proof fn lemma_inside(p: PaintV, a: Area)
    requires
        p.wf(),
        0 <= a.x0,
        0 <= a.y0,
        a.x1 <= p.w,
        a.y1 <= p.h,
    ensures
        a.inside(p.w, p.buf.len() as int),
{
    assert(a.y1 * p.w <= p.w * p.h) by (nonlinear_arith)
        requires
            a.y1 <= p.h,
            0 <= p.w,
    ;
}

/// Characters to the right of the picture change nothing.
proof fn lemma_off_the_edge(p: PaintV, f: Font, b: Seq<u8>, i: int, x: int, y: int, fg: u32, bg: Option<u32>, scale: int)
    requires
        p.wf(),
        0 <= i,
        1 <= scale,
        x + i * 8 * scale >= p.w,
    ensures
        p.bytes(f, b, i, x, y, fg, bg, scale) == p,
    decreases b.len() - i,
{
    if i < b.len() {
        let q = p.glyph(f, b[i], x + i * 8 * scale, y, fg, bg, scale);
        assert forall|k: int| 0 <= k < p.buf.len() implies #[trigger] q.buf[k] == p.buf[k] by {
            if p.w > 0 {
                crate::pixels::lemma_told(p.w, k);
            } else {
                assert(p.w * p.h == 0) by (nonlinear_arith)
                    requires
                        p.w == 0,
                ;
            }
        }
        assert(q =~= p);
        assert((i + 1) * 8 * scale >= i * 8 * scale) by (nonlinear_arith)
            requires
                1 <= scale,
        ;
        lemma_off_the_edge(p, f, b, i + 1, x, y, fg, bg, scale);
    }
}

/// The greater of a number and 0, up to a limit.
fn low_edge(v: i32, c: i32) -> (r: i32)
    ensures
        r == crate::pixels::max(crate::pixels::max(0, c as int), v as int),
{
    let m: i32 = if c > 0 {
        c
    } else {
        0
    };
    if v > m {
        v
    } else {
        m
    }
}

fn high_edge(v: i32, c: i32, n: i32) -> (r: i32)
    ensures
        r == crate::pixels::min(crate::pixels::min(n as int, c as int), v as int),
{
    let m: i32 = if n < c {
        n
    } else {
        c
    };
    if m < v {
        m
    } else {
        v
    }
}

impl Painter {
    pub open spec fn view(&self) -> PaintV {
        PaintV { buf: self.buf@, w: self.w as int, h: self.h as int, clip: self.clip }
    }

    /// Fills a rectangle.
    pub fn fill_rect(&mut self, x: i32, y: i32, w: i32, h: i32, col: u32)
        requires
            old(self)@.wf(),
            near(x as int),
            near(y as int),
            near(w as int),
            near(h as int),
        ensures
            final(self)@.wf(),
            final(self)@ == old(self)@.rect(x as int, y as int, w as int, h as int, col),
    {
        let x0: i32 = low_edge(x, self.clip.x);
        let y0: i32 = low_edge(y, self.clip.y);
        let x1: i32 = high_edge(x + w, self.clip.x + self.clip.w, self.w as i32);
        let y1: i32 = high_edge(y + h, self.clip.y + self.clip.h, self.h as i32);
        if x0 < x1 && y0 < y1 {
            proof {
                lemma_inside(self@, Area { x0: x0 as int, y0: y0 as int, x1: x1 as int, y1: y1 as int });
            }
            fill(&mut self.buf, self.w, x0 as usize, y0 as usize, x1 as usize, y1 as usize, col);
        }
        assert(self@.buf =~= old(self)@.rect(x as int, y as int, w as int, h as int, col).buf);
    }

    /// Sets one pixel.
    pub fn px(&mut self, x: i32, y: i32, col: u32)
        requires
            old(self)@.wf(),
            near(x as int),
            near(y as int),
        ensures
            final(self)@.wf(),
            final(self)@ == old(self)@.rect(x as int, y as int, 1, 1, col),
    {
        self.fill_rect(x, y, 1, 1, col);
    }

    /// Fills the columns `xa .. xb` of a row.
    pub fn fill_row(&mut self, y: i32, xa: i32, xb: i32, col: u32)
        requires
            old(self)@.wf(),
            near(y as int),
            -0x800_0000 <= xa <= 0x800_0000,
            -0x800_0000 <= xb <= 0x800_0000,
        ensures
            final(self)@.wf(),
            final(self)@ == old(self)@.rect(xa as int, y as int, xb - xa, 1, col),
    {
        self.fill_rect(xa, y, xb - xa, 1, col);
    }

    /// Copies a picture of `bw` times `bh` to (dx, dy).
    pub fn blit(&mut self, src: &Vec<u32>, dx: i32, dy: i32, bw: i32, bh: i32)
        requires
            old(self)@.wf(),
            near(dx as int),
            near(dy as int),
            0 <= bw <= 0x1_0000,
            0 <= bh <= 0x1_0000,
            src@.len() == bw * bh,
        ensures
            final(self)@.wf(),
            final(self)@ == old(self)@.picture(src@, dx as int, dy as int, bw as int, bh as int),
    {
        let x0: i32 = low_edge(dx, self.clip.x);
        let y0: i32 = low_edge(dy, self.clip.y);
        let x1: i32 = high_edge(dx + bw, self.clip.x + self.clip.w, self.w as i32);
        let y1: i32 = high_edge(dy + bh, self.clip.y + self.clip.h, self.h as i32);
        if x0 < x1 && y0 < y1 {
            proof {
                lemma_inside(self@, Area { x0: x0 as int, y0: y0 as int, x1: x1 as int, y1: y1 as int });
                assert((y1 - dy) * bw <= bw * bh) by (nonlinear_arith)
                    requires
                        y1 - dy <= bh,
                        0 <= bw,
                ;
            }
            copy(
                &mut self.buf,
                self.w,
                x0 as usize,
                y0 as usize,
                x1 as usize,
                y1 as usize,
                src,
                bw as usize,
                (x0 - dx) as usize,
                (y0 - dy) as usize,
            );
        }
        assert(self@.buf =~= old(self)@.picture(src@, dx as int, dy as int, bw as int, bh as int).buf);
    }

    /// Draws a character; where nothing is behind it, what was there stays.
    pub fn draw_char(&mut self, f: &Font, ch: u8, x: i32, y: i32, fg: u32, bg: Option<u32>, scale: i32)
        requires
            old(self)@.wf(),
            f.wf(),
            -0x3000_0000 <= x <= 0x3000_0000,
            near(y as int),
            1 <= scale <= 16,
        ensures
            final(self)@.wf(),
            final(self)@ == old(self)@.glyph(*f, ch, x as int, y as int, fg, bg, scale as int),
    {
        let bits = f.glyph_for(ch);
        let x0: i32 = low_edge(0, self.clip.x);
        let y0: i32 = low_edge(0, self.clip.y);
        let x1: i32 = high_edge(0x1_0000, self.clip.x + self.clip.w, self.w as i32);
        let y1: i32 = high_edge(0x1_0000, self.clip.y + self.clip.h, self.h as i32);
        if x0 < x1 && y0 < y1 {
            proof {
                lemma_inside(self@, Area { x0: x0 as int, y0: y0 as int, x1: x1 as int, y1: y1 as int });
            }
            glyph(
                &mut self.buf,
                self.w,
                x0 as usize,
                y0 as usize,
                x1 as usize,
                y1 as usize,
                x as i64,
                y as i64,
                scale as i64,
                &bits,
                fg,
                bg,
            );
        }
        assert(self@.buf =~= old(self)@.glyph(*f, ch, x as int, y as int, fg, bg, scale as int).buf);
    }

    /// Draws a text.
    pub fn str8(&mut self, f: &Font, s: &str, x: i32, y: i32, fg: u32, bg: Option<u32>, scale: i32)
        requires
            old(self)@.wf(),
            f.wf(),
            near(x as int),
            near(y as int),
            1 <= scale <= 16,
        ensures
            final(self)@.wf(),
            final(self)@.w == old(self)@.w && final(self)@.h == old(self)@.h && final(self)@.clip == old(self)@.clip,
            final(self)@ == old(self)@.text(*f, s@, x as int, y as int, fg, bg, scale as int),
    {
        let b: &[u8] = s.as_bytes();
        let n: usize = b.len();
        let mut i: usize = 0;
        while i < n
            invariant
                i <= n,
                n == b@.len(),
                b@ == vstd::utf8::encode_utf8(s@),
                self@.wf(),
                self@.w == old(self)@.w && self@.h == old(self)@.h && self@.clip == old(self)@.clip,
                f.wf(),
                near(x as int),
                near(y as int),
                1 <= scale <= 16,
                self@.bytes(*f, b@, i as int, x as int, y as int, fg, bg, scale as int) == old(self)@.bytes(
                    *f,
                    b@,
                    0,
                    x as int,
                    y as int,
                    fg,
                    bg,
                    scale as int,
                ),
            decreases n - i,
        {
            if i >= 0x400_0000 {
                assert(i * 8 * scale >= 0x2000_0000) by (nonlinear_arith)
                    requires
                        0x400_0000 <= i,
                        1 <= scale,
                ;
                proof {
                    lemma_off_the_edge(self@, *f, b@, i as int, x as int, y as int, fg, bg, scale as int);
                }
                return;
            }
            let far: i64 = (i as i64) * 8;
            assert(0 <= far * scale <= 0x2_0000_0000) by (nonlinear_arith)
                requires
                    0 <= far <= 0x2000_0000,
                    1 <= scale <= 16,
            ;
            assert(i * 8 * scale == far * scale);
            if far * (scale as i64) >= 0x1001_0000 {
                proof {
                    lemma_off_the_edge(self@, *f, b@, i as int, x as int, y as int, fg, bg, scale as int);
                }
                return;
            }
            let at: i32 = (far * (scale as i64)) as i32;
            self.draw_char(f, b[i], x + at, y, fg, bg, scale);
            i = i + 1;
        }
    }
}

} // verus!
