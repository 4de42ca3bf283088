//! Rectangles on the screen.

use vstd::prelude::*;

verus! {

/// A rectangle: its corner, its width and its height.
#[derive(Clone, Copy, PartialEq, Eq, Structural, Debug)]
pub struct Rect {
    pub x: i32,
    pub y: i32,
    pub w: i32,
    pub h: i32,
}

/// A rectangle whose right and lower edge are numbers of its kind.
pub open spec fn edges_ok(r: Rect) -> bool {
    &&& i32::MIN <= r.x + r.w <= i32::MAX
    &&& i32::MIN <= r.y + r.h <= i32::MAX
}

/// A rectangle of a desktop: far from where coordinates end, so that windows
/// can be moved about.
pub open spec fn rect_ok(r: Rect) -> bool {
    &&& -0x1000_0000 <= r.x <= 0x1000_0000
    &&& -0x1000_0000 <= r.y <= 0x1000_0000
    &&& -0x1000_0000 <= r.w <= 0x1000_0000
    &&& -0x1000_0000 <= r.h <= 0x1000_0000
}

pub open spec fn all_ok(v: Seq<Rect>) -> bool {
    forall|i: int| 0 <= i < v.len() ==> rect_ok(#[trigger] v[i])
}

/// The pixel is in the rectangle.
pub open spec fn holds(r: Rect, x: int, y: int) -> bool {
    r.x <= x < r.x + r.w && r.y <= y < r.y + r.h
}

pub fn point_in(x: i32, y: i32, r: Rect) -> (b: bool)
    requires
        edges_ok(r),
    ensures
        b == holds(r, x as int, y as int),
{
    x >= r.x && x < r.x + r.w && y >= r.y && y < r.y + r.h
}

/// The rectangles have a pixel in common, or touch so that they would.
pub open spec fn overlap(a: Rect, b: Rect) -> bool {
    a.x < b.x + b.w && b.x < a.x + a.w && a.y < b.y + b.h && b.y < a.y + a.h
}

pub fn rects_intersect(a: Rect, b: Rect) -> (r: bool)
    requires
        edges_ok(a),
        edges_ok(b),
    ensures
        r == overlap(a, b),
{
    a.x < b.x + b.w && b.x < a.x + a.w && a.y < b.y + b.h && b.y < a.y + a.h
}

/// What of a rectangle is on a screen; nothing is the empty rectangle at the
/// corner.
pub open spec fn on_screen(r: Rect, w: int, h: int) -> Rect {
    let x0 = if r.x < 0 {
        0
    } else {
        r.x as int
    };
    let y0 = if r.y < 0 {
        0
    } else {
        r.y as int
    };
    let x1 = if r.x + r.w < w {
        r.x + r.w
    } else {
        w
    };
    let y1 = if r.y + r.h < h {
        r.y + r.h
    } else {
        h
    };
    if x0 < x1 && y0 < y1 {
        Rect { x: x0 as i32, y: y0 as i32, w: (x1 - x0) as i32, h: (y1 - y0) as i32 }
    } else {
        Rect { x: 0, y: 0, w: 0, h: 0 }
    }
}

pub fn intersect_screen(r: Rect, w: usize, h: usize) -> (s: Rect)
    requires
        edges_ok(r),
        w <= i32::MAX,
        h <= i32::MAX,
    ensures
        s == on_screen(r, w as int, h as int),
        edges_ok(s),
        w <= 0x1000_0000 && h <= 0x1000_0000 ==> rect_ok(s),
{
    let x0: i32 = if r.x < 0 {
        0
    } else {
        r.x
    };
    let y0: i32 = if r.y < 0 {
        0
    } else {
        r.y
    };
    let x1: i32 = if r.x + r.w < w as i32 {
        r.x + r.w
    } else {
        w as i32
    };
    let y1: i32 = if r.y + r.h < h as i32 {
        r.y + r.h
    } else {
        h as i32
    };
    if x0 < x1 && y0 < y1 {
        Rect { x: x0, y: y0, w: x1 - x0, h: y1 - y0 }
    } else {
        Rect { x: 0, y: 0, w: 0, h: 0 }
    }
}

/// A list with a rectangle added, unless it is empty.
pub open spec fn added(v: Seq<Rect>, r: Rect) -> Seq<Rect> {
    if r.w > 0 && r.h > 0 {
        v.push(r)
    } else {
        v
    }
}

pub fn push_rect(v: &mut Vec<Rect>, r: Rect)
    ensures
        final(v)@ == added(old(v)@, r),
{
    if r.w > 0 && r.h > 0 {
        v.push(r);
    }
}

/// What is on the screen of a rectangle is just its pixels that are. It is
/// the empty rectangle at the corner, or one of a positive size within the
/// screen.
pub proof fn law_on_screen(r: Rect, w: int, h: int, x: int, y: int)
    requires
        edges_ok(r),
        0 <= w <= i32::MAX,
        0 <= h <= i32::MAX,
    ensures
        holds(on_screen(r, w, h), x, y) <==> holds(r, x, y) && 0 <= x < w && 0 <= y < h,
        ({
            let s = on_screen(r, w, h);
            ||| s == (Rect { x: 0, y: 0, w: 0, h: 0 })
            ||| s.w > 0 && s.h > 0 && 0 <= s.x && s.x + s.w <= w && 0 <= s.y && s.y + s.h <= h
        }),
{
}

/// A rectangle without a pixel on the screen gives the empty rectangle at the
/// corner.
pub proof fn law_off_screen(r: Rect, w: int, h: int)
    requires
        edges_ok(r),
        0 <= w <= i32::MAX,
        0 <= h <= i32::MAX,
        forall|x: int, y: int| #[trigger] holds(r, x, y) ==> !(0 <= x < w && 0 <= y < h),
    ensures
        on_screen(r, w, h) == (Rect { x: 0, y: 0, w: 0, h: 0 }),
{
    let s = on_screen(r, w, h);
    if s.w > 0 && s.h > 0 {
        assert(holds(r, s.x as int, s.y as int));
    }
}

/// Cutting to the screen twice is cutting once.
pub proof fn law_on_screen_twice(r: Rect, w: int, h: int)
    requires
        edges_ok(r),
        0 <= w <= i32::MAX,
        0 <= h <= i32::MAX,
    ensures
        on_screen(on_screen(r, w, h), w, h) == on_screen(r, w, h),
{
}

} // verus!
