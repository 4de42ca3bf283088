//! Pictures: rows of packed pixels, and what is drawn into them.

use vstd::prelude::*;

verus! {

/// A part of a picture: the columns `x0 .. x1` of the rows `y0 .. y1`.
pub struct Area {
    pub x0: int,
    pub y0: int,
    pub x1: int,
    pub y1: int,
}

impl Area {
    pub open spec fn has(self, x: int, y: int) -> bool {
        self.x0 <= x < self.x1 && self.y0 <= y < self.y1
    }

    /// It lies inside a picture of `len` pixels with rows of `pitch`.
    pub open spec fn inside(self, pitch: int, len: int) -> bool {
        &&& 0 <= self.x0
        &&& 0 <= self.y0
        &&& self.x1 <= pitch
        &&& self.y0 < self.y1 ==> self.y1 * pitch <= len
    }
}

pub open spec fn min(a: int, b: int) -> int {
    if a < b {
        a
    } else {
        b
    }
}

pub open spec fn max(a: int, b: int) -> int {
    if a > b {
        a
    } else {
        b
    }
}

/// What two areas have in common.
pub open spec fn meet(a: Area, b: Area) -> Area {
    Area { x0: max(a.x0, b.x0), y0: max(a.y0, b.y0), x1: min(a.x1, b.x1), y1: min(a.y1, b.y1) }
}

/// The area of a rectangle.
pub open spec fn area_at(x: int, y: int, w: int, h: int) -> Area {
    Area { x0: x, y0: y, x1: x + w, y1: y + h }
}

/// A picture with an area in one color.
pub open spec fn filled(buf: Seq<u32>, pitch: int, a: Area, col: u32) -> Seq<u32> {
    Seq::new(
        buf.len(),
        |k: int|
            if a.has(k % pitch, k / pitch) {
                col
            } else {
                buf[k]
            },
    )
}

/// Whether a glyph of eight rows has the pixel in a column and a row.
pub open spec fn glyph_bit(bits: Seq<u8>, col: int, row: int) -> bool {
    (bits[row] >> col as u8) & 1 == 1
}

/// What a glyph shows at a place in it: the color of the letter, the one
/// behind it, or what was there.
pub open spec fn glyph_color(bits: Seq<u8>, col: int, row: int, fg: u32, bg: Option<u32>) -> Option<u32> {
    if glyph_bit(bits, col, row) {
        Some(fg)
    } else {
        bg
    }
}

/// A picture with a glyph at (gx, gy), each of its pixels `scale` wide and
/// high, drawn where it is in an area.
pub open spec fn glyphed(
    buf: Seq<u32>,
    pitch: int,
    a: Area,
    gx: int,
    gy: int,
    scale: int,
    bits: Seq<u8>,
    fg: u32,
    bg: Option<u32>,
) -> Seq<u32> {
    let g = meet(a, area_at(gx, gy, 8 * scale, 8 * scale));
    Seq::new(
        buf.len(),
        |k: int|
            if g.has(k % pitch, k / pitch) {
                match glyph_color(bits, (k % pitch - gx) / scale, (k / pitch - gy) / scale, fg, bg) {
                    Some(c) => c,
                    None => buf[k],
                }
            } else {
                buf[k]
            },
    )
}

/// A picture with an area copied from another one, whose rows are `sw` wide;
/// the area's corner comes from (sx, sy).
pub open spec fn copied(buf: Seq<u32>, pitch: int, a: Area, src: Seq<u32>, sw: int, sx: int, sy: int) -> Seq<u32> {
    Seq::new(
        buf.len(),
        |k: int|
            if a.has(k % pitch, k / pitch) {
                src[(k / pitch - a.y0 + sy) * sw + (k % pitch - a.x0 + sx)]
            } else {
                buf[k]
            },
    )
}

/// The pixel in column `x` of row `y`.
pub proof fn lemma_place(pitch: int, x: int, y: int, len: int)
    requires
        0 <= x < pitch,
        0 <= y,
        (y + 1) * pitch <= len,
    ensures
        0 <= y * pitch + x < len,
        (y * pitch + x) / pitch == y,
        (y * pitch + x) % pitch == x,
{
    assert(y * pitch + x < (y + 1) * pitch && 0 <= y * pitch) by (nonlinear_arith)
        requires
            0 <= x < pitch,
            0 <= y,
    ;
    vstd::arithmetic::div_mod::lemma_fundamental_div_mod_converse(y * pitch + x, pitch, y, x);
}

/// A place in a picture is told by its column and row.
pub proof fn lemma_told(pitch: int, k: int)
    requires
        pitch > 0,
        k >= 0,
    ensures
        k == (k / pitch) * pitch + k % pitch,
        0 <= k % pitch < pitch,
        0 <= k / pitch,
{
    vstd::arithmetic::div_mod::lemma_fundamental_div_mod(k, pitch);
    vstd::arithmetic::mul::lemma_mul_is_commutative(pitch, k / pitch);
    vstd::arithmetic::div_mod::lemma_div_pos_is_pos(k, pitch);
}

proof fn lemma_rows(pitch: int, y: int, y1: int, len: int)
    requires
        0 <= y < y1,
        0 <= pitch,
        y1 * pitch <= len,
    ensures
        (y + 1) * pitch <= len,
{
    assert((y + 1) * pitch <= y1 * pitch) by (nonlinear_arith)
        requires
            y + 1 <= y1,
            0 <= pitch,
    ;
}

/// Sets the pixel in column `x` of row `y`.
pub fn set_pixel(buf: &mut Vec<u32>, pitch: usize, x: usize, y: usize, col: u32)
    requires
        x < pitch,
        (y + 1) * pitch <= old(buf)@.len(),
    ensures
        final(buf)@ == filled(old(buf)@, pitch as int, area_at(x as int, y as int, 1, 1), col),
{
    let ghost len = buf.len();
    proof {
        lemma_place(pitch as int, x as int, y as int, len as int);
    }
    assert(y * pitch <= usize::MAX) by (nonlinear_arith)
        requires
            (y + 1) * pitch <= len,
            len <= usize::MAX,
            0 <= pitch,
    ;
    let k: usize = y * pitch + x;
    buf.set(k, col);
    assert forall|j: int| 0 <= j < len implies #[trigger] buf@[j] == filled(
        old(buf)@,
        pitch as int,
        area_at(x as int, y as int, 1, 1),
        col,
    )[j] by {
        lemma_told(pitch as int, j);
    }
    assert(buf@ =~= filled(old(buf)@, pitch as int, area_at(x as int, y as int, 1, 1), col));
}

/// Fills an area with one color.
pub fn fill(buf: &mut Vec<u32>, pitch: usize, x0: usize, y0: usize, x1: usize, y1: usize, col: u32)
    requires
        pitch > 0,
        (Area { x0: x0 as int, y0: y0 as int, x1: x1 as int, y1: y1 as int }).inside(
            pitch as int,
            old(buf)@.len() as int,
        ),
    ensures
        final(buf)@ == filled(
            old(buf)@,
            pitch as int,
            Area { x0: x0 as int, y0: y0 as int, x1: x1 as int, y1: y1 as int },
            col,
        ),
{
    let ghost a = Area { x0: x0 as int, y0: y0 as int, x1: x1 as int, y1: y1 as int };
    let mut y: usize = y0;
    assert(buf@ =~= filled(old(buf)@, pitch as int, Area { y1: y0 as int, ..a }, col));
    while y < y1
        invariant
            y0 <= y,
            y <= y1 || y == y0,
            pitch > 0,
            a == (Area { x0: x0 as int, y0: y0 as int, x1: x1 as int, y1: y1 as int }),
            a.inside(pitch as int, old(buf)@.len() as int),
            buf@ == filled(old(buf)@, pitch as int, Area { y1: y as int, ..a }, col),
        decreases y1 - y,
    {
        let ghost b0 = buf@;
        let mut x: usize = x0;
        proof {
            lemma_rows(pitch as int, y as int, y1 as int, buf@.len() as int);
        }
        assert(buf@ =~= filled(b0, pitch as int, area_at(x0 as int, y as int, 0, 1), col));
        while x < x1
            invariant
                x0 <= x,
                x <= x1 || x == x0,
                x1 <= pitch,
                (y + 1) * pitch <= buf@.len(),
                buf@ == filled(b0, pitch as int, area_at(x0 as int, y as int, x - x0, 1), col),
            decreases x1 - x,
        {
            let ghost b1 = buf@;
            set_pixel(buf, pitch, x, y, col);
            x = x + 1;
            assert(buf@ =~= filled(b0, pitch as int, area_at(x0 as int, y as int, x - x0, 1), col));
        }
        y = y + 1;
        assert(buf@ =~= filled(old(buf)@, pitch as int, Area { y1: y as int, ..a }, col));
    }
    assert(buf@ =~= filled(old(buf)@, pitch as int, a, col));
}

/// Copies an area from another picture.
pub fn copy(
    buf: &mut Vec<u32>,
    pitch: usize,
    x0: usize,
    y0: usize,
    x1: usize,
    y1: usize,
    src: &Vec<u32>,
    sw: usize,
    sx: usize,
    sy: usize,
)
    requires
        pitch > 0,
        x0 <= x1,
        y0 <= y1,
        (Area { x0: x0 as int, y0: y0 as int, x1: x1 as int, y1: y1 as int }).inside(
            pitch as int,
            old(buf)@.len() as int,
        ),
        area_at(sx as int, sy as int, x1 - x0, y1 - y0).inside(sw as int, src@.len() as int),
    ensures
        final(buf)@ == copied(
            old(buf)@,
            pitch as int,
            Area { x0: x0 as int, y0: y0 as int, x1: x1 as int, y1: y1 as int },
            src@,
            sw as int,
            sx as int,
            sy as int,
        ),
{
    let ghost a = Area { x0: x0 as int, y0: y0 as int, x1: x1 as int, y1: y1 as int };
    let len: usize = src.len();
    let mut y: usize = y0;
    assert(buf@ =~= copied(old(buf)@, pitch as int, Area { y1: y0 as int, ..a }, src@, sw as int, sx as int, sy as int));
    while y < y1
        invariant
            y0 <= y <= y1,
            x0 <= x1,
            pitch > 0,
            len == src@.len(),
            a == (Area { x0: x0 as int, y0: y0 as int, x1: x1 as int, y1: y1 as int }),
            a.inside(pitch as int, old(buf)@.len() as int),
            area_at(sx as int, sy as int, x1 - x0, y1 - y0).inside(sw as int, src@.len() as int),
            buf@ == copied(
                old(buf)@,
                pitch as int,
                Area { y1: y as int, ..a },
                src@,
                sw as int,
                sx as int,
                sy as int,
            ),
        decreases y1 - y,
    {
        let ghost b0 = buf@;
        let ghost row = Area { y0: y as int, y1: y + 1, ..a };
        let ghost srow = y - y0 + sy;
        let mut x: usize = x0;
        proof {
            lemma_rows(pitch as int, y as int, y1 as int, buf@.len() as int);
            if x0 < x1 {
                lemma_rows(sw as int, srow, sy + (y1 - y0), len as int);
            }
        }
        assert(buf@ =~= copied(b0, pitch as int, Area { x1: x0 as int, ..row }, src@, sw as int, sx as int, srow));
        while x < x1
            invariant
                x0 <= x <= x1,
                y0 <= y,
                x1 <= pitch,
                len == src@.len(),
                row == (Area { x0: x0 as int, y0: y as int, x1: x1 as int, y1: y + 1 }),
                srow == y - y0 + sy,
                x0 < x1 ==> (srow + 1) * sw <= len,
                sx + (x1 - x0) <= sw,
                (y + 1) * pitch <= buf@.len(),
                buf@ == copied(b0, pitch as int, Area { x1: x as int, ..row }, src@, sw as int, sx as int, srow),
            decreases x1 - x,
        {
            let ghost b1 = buf@;
            proof {
                lemma_place(sw as int, sx + (x - x0), srow, len as int);
                assert(srow * sw <= len && srow <= len) by (nonlinear_arith)
                    requires
                        (srow + 1) * sw <= len,
                        0 <= srow,
                        1 <= sw,
                ;
            }
            let sr: usize = sy + (y - y0);
            let c: u32 = src[sr * sw + (sx + (x - x0))];
            set_pixel(buf, pitch, x, y, c);
            assert forall|k: int| 0 <= k < buf@.len() implies #[trigger] buf@[k] == copied(
                b0,
                pitch as int,
                Area { x1: x + 1, ..row },
                src@,
                sw as int,
                sx as int,
                srow,
            )[k] by {
                lemma_told(pitch as int, k);
            }
            x = x + 1;
            assert(buf@ =~= copied(b0, pitch as int, Area { x1: x as int, ..row }, src@, sw as int, sx as int, srow));
        }
        y = y + 1;
        assert forall|k: int| 0 <= k < buf@.len() implies #[trigger] buf@[k] == copied(
            old(buf)@,
            pitch as int,
            Area { y1: y as int, ..a },
            src@,
            sw as int,
            sx as int,
            sy as int,
        )[k] by {
            lemma_told(pitch as int, k);
        }
        assert(buf@ =~= copied(
            old(buf)@,
            pitch as int,
            Area { y1: y as int, ..a },
            src@,
            sw as int,
            sx as int,
            sy as int,
        ));
    }
}

/// Draws a glyph.
pub fn glyph(
    buf: &mut Vec<u32>,
    pitch: usize,
    x0: usize,
    y0: usize,
    x1: usize,
    y1: usize,
    gx: i64,
    gy: i64,
    scale: i64,
    bits: &[u8; 8],
    fg: u32,
    bg: Option<u32>,
)
    requires
        pitch > 0,
        1 <= scale <= 0x1000,
        -0x4000_0000 <= gx <= 0x4000_0000,
        -0x4000_0000 <= gy <= 0x4000_0000,
        (Area { x0: x0 as int, y0: y0 as int, x1: x1 as int, y1: y1 as int }).inside(
            pitch as int,
            old(buf)@.len() as int,
        ),
    ensures
        final(buf)@ == glyphed(
            old(buf)@,
            pitch as int,
            Area { x0: x0 as int, y0: y0 as int, x1: x1 as int, y1: y1 as int },
            gx as int,
            gy as int,
            scale as int,
            bits@,
            fg,
            bg,
        ),
{
    let ghost a = Area { x0: x0 as int, y0: y0 as int, x1: x1 as int, y1: y1 as int };
    let ghost g = meet(a, area_at(gx as int, gy as int, 8 * scale, 8 * scale));
    let xa: usize = if gx > 0 && gx as u64 > x0 as u64 {
        gx as usize
    } else {
        x0
    };
    let ya: usize = if gy > 0 && gy as u64 > y0 as u64 {
        gy as usize
    } else {
        y0
    };
    let xe: i64 = gx + 8 * scale;
    let ye: i64 = gy + 8 * scale;
    let xb: usize = if xe <= 0 {
        0
    } else if (xe as u64) < x1 as u64 {
        xe as usize
    } else {
        x1
    };
    let yb: usize = if ye <= 0 {
        0
    } else if (ye as u64) < y1 as u64 {
        ye as usize
    } else {
        y1
    };
    let mut y: usize = ya;
    assert(buf@ =~= glyphed(
        old(buf)@,
        pitch as int,
        Area { y1: ya as int, ..a },
        gx as int,
        gy as int,
        scale as int,
        bits@,
        fg,
        bg,
    ));
    while y < yb
        invariant
            ya <= y,
            y <= yb || y == ya,
            pitch > 0,
            1 <= scale <= 0x1000,
            -0x4000_0000 <= gx <= 0x4000_0000,
            -0x4000_0000 <= gy <= 0x4000_0000,
            xe == gx + 8 * scale,
            ye == gy + 8 * scale,
            a == (Area { x0: x0 as int, y0: y0 as int, x1: x1 as int, y1: y1 as int }),
            ya == max(gy as int, y0 as int),
            xa == max(gx as int, x0 as int),
            yb <= y1,
            yb <= ye || yb == 0,
            yb == min(ye as int, y1 as int) || ye <= 0,
            xb <= x1,
            xb <= xe || xb == 0,
            xb == min(xe as int, x1 as int) || xe <= 0,
            a.inside(pitch as int, old(buf)@.len() as int),
            buf@ == glyphed(
                old(buf)@,
                pitch as int,
                Area { y1: y as int, ..a },
                gx as int,
                gy as int,
                scale as int,
                bits@,
                fg,
                bg,
            ),
        decreases yb - y,
    {
        let ghost b0 = buf@;
        let ghost row = Area { y0: y as int, y1: y + 1, ..a };
        let gr: i64 = (y as i64 - gy) / scale;
        proof {
            lemma_rows(pitch as int, y as int, y1 as int, buf@.len() as int);
            lemma_scaled(y - gy, scale as int);
        }
        let line: u8 = bits[gr as usize];
        let mut x: usize = xa;
        assert(buf@ =~= glyphed(
            b0,
            pitch as int,
            Area { x1: xa as int, ..row },
            gx as int,
            gy as int,
            scale as int,
            bits@,
            fg,
            bg,
        ));
        while x < xb
            invariant
                xa <= x,
                x <= xb || x == xa,
                xb <= x1 <= pitch,
                xb <= xe || xb == 0,
                xa >= x0,
                xa >= gx,
                xe == gx + 8 * scale,
                1 <= scale <= 0x1000,
                -0x4000_0000 <= gx <= 0x4000_0000,
                gy <= y < gy + 8 * scale,
                y0 <= y,
                row == (Area { x0: x0 as int, y0: y as int, x1: x1 as int, y1: y + 1 }),
                gr == (y - gy) / (scale as int),
                0 <= gr < 8,
                line == bits@[gr as int],
                (y + 1) * pitch <= buf@.len(),
                buf@ == glyphed(
                    b0,
                    pitch as int,
                    Area { x1: x as int, ..row },
                    gx as int,
                    gy as int,
                    scale as int,
                    bits@,
                    fg,
                    bg,
                ),
            decreases xb - x,
        {
            let ghost b1 = buf@;
            proof {
                lemma_scaled(x - gx, scale as int);
            }
            let gc: i64 = (x as i64 - gx) / scale;
            if (line >> gc as u8) & 1 == 1 {
                set_pixel(buf, pitch, x, y, fg);
            } else {
                match bg {
                    Some(c) => {
                        set_pixel(buf, pitch, x, y, c);
                    },
                    None => {},
                }
            }
            x = x + 1;
            assert(buf@ =~= glyphed(
                b0,
                pitch as int,
                Area { x1: x as int, ..row },
                gx as int,
                gy as int,
                scale as int,
                bits@,
                fg,
                bg,
            ));
        }
        y = y + 1;
        assert(buf@ =~= glyphed(
            old(buf)@,
            pitch as int,
            Area { y1: y as int, ..a },
            gx as int,
            gy as int,
            scale as int,
            bits@,
            fg,
            bg,
        ));
    }
    assert(buf@ =~= glyphed(old(buf)@, pitch as int, a, gx as int, gy as int, scale as int, bits@, fg, bg));
}

proof fn lemma_scaled(d: int, scale: int)
    requires
        0 <= d < 8 * scale,
        scale >= 1,
    ensures
        0 <= d / scale < 8,
{
    vstd::arithmetic::div_mod::lemma_div_pos_is_pos(d, scale);
    vstd::arithmetic::div_mod::lemma_div_is_ordered_by_denominator(d, 1, scale);
    assert(d / scale < 8) by (nonlinear_arith)
        requires
            0 <= d < 8 * scale,
            scale >= 1,
    ;
}

} // verus!
