//! What programs and terminal sessions ask of the desktop.

use vstd::prelude::*;
use vstd::string::StringExecFns;

use crate::console::font::Font;
use crate::console::{Format, Rgb};
use crate::gui::actions::{raise, EV_NONE};
use crate::gui::paint::{PaintV, Painter};
use crate::gui::rect::Rect;
use crate::gui::scene::{
    half, Hands, Kind, Scene, SceneV, Win, WinV, MAX_WINS, MIN_WIN_H, MIN_WIN_W, MONITOR, TITLE_H,
};
use crate::gui::term_state::TermState;
use crate::mem::vmm::{AddressSpace, MemV, Memory};
use crate::text::{latin1, push_char};
use crate::user::uaccess::read_user_bytes;

verus! {

/// The desktop: the scene, and its picture.
pub struct Desk {
    pub sc: Scene,
    pub back: Vec<u32>,
}

/// The desktop, if it is up, is in order.
pub open spec fn desk_ok(d: Option<Desk>) -> bool {
    d matches Some(x) ==> x.sc@.wf() && x.back@.len() == x.sc@.w * x.sc@.h
}

/// The scene, if the desktop is up.
pub open spec fn scene_of(d: Option<Desk>) -> Option<SceneV> {
    match d {
        None => None,
        Some(x) => Some(x.sc@),
    }
}

/// The picture, if the desktop is up.
pub open spec fn back_of(d: Option<Desk>) -> Seq<u32> {
    match d {
        None => Seq::empty(),
        Some(x) => x.back@,
    }
}

// ---------------------------------------------------------------------------
// Arguments
// ---------------------------------------------------------------------------
/// A number of 16 bits with a sign.
pub open spec fn signed16(v: int) -> int {
    let l = v % 0x1_0000;
    if l >= 0x8000 {
        l - 0x1_0000
    } else {
        l
    }
}

fn sign16(v: u64) -> (r: i32)
    ensures
        r == signed16(v as int),
        -0x8000 <= r < 0x8000,
{
    let l: i32 = (v % 0x1_0000) as i32;
    if l >= 0x8000 {
        l - 0x1_0000
    } else {
        l
    }
}

/// Text that can be shown: anything else is a question mark.
pub open spec fn clean_char(b: u8) -> char {
    if 0x20 <= b && b <= 0x7E {
        b as char
    } else {
        '?'
    }
}

pub open spec fn clean(b: Seq<u8>) -> Seq<char> {
    b.map_values(|x: u8| clean_char(x))
}

fn sanitize(b: &Vec<u8>) -> (s: String)
    ensures
        s@ == clean(b@),
{
    let mut s: String = String::new();
    let n: usize = b.len();
    let mut i: usize = 0;
    assert(s@ =~= clean(b@.take(0)));
    while i < n
        invariant
            i <= n,
            n == b@.len(),
            s@ == clean(b@.take(i as int)),
        decreases n - i,
    {
        let x: u8 = b[i];
        push_char(
            &mut s,
            if x >= 0x20 && x <= 0x7E {
                latin1(x)
            } else {
                '?'
            },
        );
        i = i + 1;
        assert(s@ =~= clean(b@.take(i as int)));
    }
    assert(b@.take(n as int) =~= b@);
    s
}

/// The text at an address, cut to a length; nothing, if it cannot be read.
pub open spec fn text_at(m: MemV, cr3: u64, va: u64, len: u64, most: int) -> Option<Seq<u8>> {
    let n = if len < most {
        len as int
    } else {
        most
    };
    let pml4 = crate::mem::vmm::frame_of(cr3);
    if crate::user::uaccess::readable(m, pml4, va, n) {
        Some(crate::user::uaccess::user_bytes(m, pml4, va, n))
    } else {
        None
    }
}

fn copy_user_bytes(m: &Memory, cr3: u64, va: u64, len: u64, most: u64) -> (r: Option<Vec<u8>>)
    requires
        m.wf(),
        most <= 0x1000,
    ensures
        match (r, text_at(m@, cr3, va, len, most as int)) {
            (Some(a), Some(b)) => a@ == b && a@.len() <= most,
            (None, None) => true,
            _ => false,
        },
{
    let n: u64 = if len < most {
        len
    } else {
        most
    };
    let space = AddressSpace::from_pml4(cr3);
    match read_user_bytes(m, &space, va, n as usize) {
        Err(_) => None,
        Ok(v) => Some(v),
    }
}

/// A color of a call as a pixel: red in the third byte.
pub open spec fn call_color(f: Option<Format>, rgb: u32) -> u32 {
    match f {
        None => rgb,
        Some(x) => x.packed(Rgb((rgb / 0x1_0000 % 0x100) as u8, (rgb / 0x100 % 0x100) as u8, (rgb % 0x100) as u8)),
    }
}

fn pack_rgb_col(f: &Option<Format>, rgb: u32) -> (p: u32)
    requires
        *f matches Some(x) ==> x.wf(),
    ensures
        p == call_color(*f, rgb),
{
    match f {
        None => rgb,
        Some(x) => x.pack(&Rgb((rgb / 0x1_0000 % 0x100) as u8, (rgb / 0x100 % 0x100) as u8, (rgb % 0x100) as u8)),
    }
}

// ---------------------------------------------------------------------------
// Opening
// ---------------------------------------------------------------------------
pub open spec fn reusable(k: Kind) -> spec_fn(WinV) -> bool {
    |w: WinV| w.kind == k && !w.open
}

/// A window that is not used yet.
pub open spec fn blank_win(k: Kind) -> WinV {
    WinV {
        id: 0,
        kind: k,
        owner: 0,
        title: Seq::empty(),
        x: 0,
        y: 0,
        w: MIN_WIN_W,
        h: MIN_WIN_H,
        open: false,
        minimized: false,
        buf: Seq::empty(),
        ev: Seq::empty(),
        term: crate::gui::term_state::empty_term(),
    }
}

/// A slot for a new window of a kind: a closed one, or one more. Nothing, if
/// there are too many.
pub open spec fn slot_for(sc: SceneV, k: Kind) -> Option<(SceneV, usize)> {
    match crate::seqs::first(sc.wins, reusable(k)) {
        Some(i) => Some((sc, i as usize)),
        None => if sc.wins.len() >= MAX_WINS {
            None
        } else {
            Some(
                (
                    SceneV {
                        wins: sc.wins.push(blank_win(k)),
                        z: crate::gui::actions::raised(sc.z, sc.wins.len() as usize),
                        ..sc
                    },
                    sc.wins.len() as usize,
                ),
            )
        },
    }
}

/// A window put into a slot, on top of the others.
pub open spec fn placed(sc: SceneV, i: usize, w: WinV) -> SceneV {
    let a = SceneV {
        z: crate::gui::actions::raised(sc.z, i),
        s: Hands { next_id: sc.s.next_id.wrapping_add(1), ..sc.s },
        ..sc
    }.with_win(i as int, w);
    let b = a.with_dirty(w.full());
    b.with_dirty(b.taskbar())
}

fn find_reusable(sc: &Scene, k: Kind) -> (r: Option<usize>)
    ensures
        match (r, crate::seqs::first(sc@.wins, reusable(k))) {
            (Some(i), Some(j)) => i == j && i < sc.wins@.len(),
            (None, None) => true,
            _ => false,
        },
{
    let mut i: usize = 0;
    while i < sc.wins.len()
        invariant
            i <= sc.wins@.len(),
            crate::seqs::first_from(sc@.wins, reusable(k), i as int) == crate::seqs::first(sc@.wins, reusable(k)),
        decreases sc.wins@.len() - i,
    {
        assert(sc@.wins[i as int] == sc.wins@[i as int]@);
        if sc.wins[i].kind == k && !sc.wins[i].open {
            return Some(i);
        }
        i = i + 1;
    }
    None
}

/// Finds a slot for a new window.
pub(crate) fn take_slot(sc: &mut Scene, k: Kind) -> (r: Option<usize>)
    requires
        old(sc)@.wf(),
        k == Kind::User || k == Kind::Term,
    ensures
        final(sc)@.wf(),
        match (r, slot_for(old(sc)@, k)) {
            (Some(i), Some((s, j))) => {
                &&& final(sc)@ == s
                &&& i == j
                &&& 2 <= i < final(sc).wins@.len()
                &&& final(sc)@.wins[i as int].kind == k
            },
            (None, None) => final(sc)@ == old(sc)@,
            _ => false,
        },
{
    match find_reusable(sc, k) {
        Some(i) => {
            proof {
                crate::seqs::lemma_first_from(sc@.wins, reusable(k), 0);
            }
            Some(i)
        },
        None => {
            let n: usize = sc.wins.len();
            if n >= MAX_WINS {
                return None;
            }
            let w = Win {
                id: 0,
                kind: k,
                owner: 0,
                title: String::new(),
                x: 0,
                y: 0,
                w: MIN_WIN_W,
                h: MIN_WIN_H,
                open: false,
                minimized: false,
                buf: Vec::new(),
                ev: Vec::new(),
                term: TermState::empty(),
            };
            assert(w@ =~= blank_win(k));
            sc.wins.push(w);
            raise(&mut sc.z, n);
            proof {
                crate::gui::actions::lemma_raised(old(sc)@.z, n, n as int);
            }
            assert(sc@.wins =~= old(sc)@.wins.push(blank_win(k)));
            Some(n)
        },
    }
}

/// Puts a window into a slot.
pub(crate) fn place(sc: &mut Scene, i: usize, w: Win)
    requires
        old(sc)@.wf(),
        2 <= i < old(sc).wins@.len(),
        w@.wf(),
        w@.kind == Kind::User || w@.kind == Kind::Term,
    ensures
        final(sc)@.wf(),
        final(sc)@ == placed(old(sc)@, i, w@),
{
    let ghost wv = w@;
    let r: Rect = w.full_rect();
    sc.s.next_id = sc.s.next_id.wrapping_add(1);
    sc.wins.set(i, w);
    raise(&mut sc.z, i);
    proof {
        crate::gui::actions::lemma_raised(old(sc)@.z, i, old(sc)@.wins.len() as int);
    }
    assert(sc@.wins =~= old(sc)@.wins.update(i as int, wv));
    sc.dirty_rect(r);
    let t: Rect = sc.taskbar_rect();
    sc.dirty_rect(t);
}

/// The size of a window: within bounds, and on the screen.
pub open spec fn fit(v: int, least: int, most: int, room: int) -> int {
    let c = crate::gui::scene::clamped(v, least, most);
    if c < room {
        c
    } else {
        room
    }
}

fn fit_size(v: i32, least: i32, most: i32, room: i32) -> (r: i32)
    requires
        least <= most,
    ensures
        r == fit(v as int, least as int, most as int, room as int),
{
    let c: i32 = crate::gui::scene::clamp(v, least, most);
    if c < room {
        c
    } else {
        room
    }
}

pub open spec fn zeros(n: nat) -> Seq<u32> {
    Seq::new(n, |i: int| 0u32)
}

/// A window of a program: where it was asked for, or, if a coordinate is
/// negative, next to the monitor or in the middle.
pub open spec fn user_win(sc: SceneV, base: WinV, id: u32, pid: u64, title: Seq<char>, xy: u64, wh: u64) -> WinV {
    let w = fit((wh % 0x1_0000) as int, MIN_WIN_W as int, 1200, sc.w - 8);
    let h = fit((wh / 0x1_0000 % 0x1_0000) as int, MIN_WIN_H as int, 800, sc.taskbar_y() - 8);
    let x = signed16(xy as int);
    let y = signed16((xy / 0x1_0000) as int);
    let auto = x < 0 || y < 0;
    let m = sc.wins[MONITOR as int];
    WinV {
        id,
        owner: pid,
        title,
        x: if !auto {
            x as i32
        } else if m.open {
            (m.x + 48) as i32
        } else {
            crate::gui::scene::halved(sc.w - w) as i32
        },
        y: if !auto {
            y as i32
        } else if m.open {
            (m.y + 48) as i32
        } else {
            (crate::gui::scene::halved(sc.taskbar_y() - h) - 24) as i32
        },
        w: w as i32,
        h: h as i32,
        open: true,
        minimized: false,
        buf: zeros(((w - 4) * (h - TITLE_H - 2)) as nat),
        ev: Seq::empty(),
        ..base
    }
}

/// A window for a program: the scene, and its number or -1.
pub open spec fn open_call(sc: SceneV, pid: u64, title: Seq<char>, xy: u64, wh: u64) -> (SceneV, int) {
    match slot_for(sc, Kind::User) {
        None => (sc, -1),
        Some((s, i)) => {
            let id = sc.s.next_id.wrapping_add(1);
            (placed(s, i, user_win(sc, s.wins[i as int], id, pid, title, xy, wh)), id as int)
        },
    }
}

pub fn zero_buf(n: usize) -> (v: Vec<u32>)
    ensures
        v@ == zeros(n as nat),
{
    let v: Vec<u32> = vec![0u32; n];
    assert(v@ =~= zeros(n as nat));
    v
}

fn open_user(sc: &mut Scene, pid: u64, title: String, xy: u64, wh: u64) -> (r: i64)
    requires
        old(sc)@.wf(),
    ensures
        final(sc)@.wf(),
        (final(sc)@, r as int) == open_call(old(sc)@, pid, title@, xy, wh),
{
    let w: i32 = fit_size((wh % 0x1_0000) as i32, MIN_WIN_W, 1200, sc.w as i32 - 8);
    let h: i32 = fit_size((wh / 0x1_0000 % 0x1_0000) as i32, MIN_WIN_H, 800, sc.taskbar_y() - 8);
    let mut x: i32 = sign16(xy);
    let mut y: i32 = sign16(xy / 0x1_0000);
    assert(sc@.wins[MONITOR as int] == sc.wins@[MONITOR as int]@);
    assert(sc@.wins[MONITOR as int].wf());
    if x < 0 || y < 0 {
        if sc.wins[MONITOR].open {
            x = sc.wins[MONITOR].x + 48;
            y = sc.wins[MONITOR].y + 48;
        } else {
            x = half(sc.w as i32 - w);
            y = half(sc.taskbar_y() - h) - 24;
        }
    }
    let slot: usize = match take_slot(sc, Kind::User) {
        None => {
            return -1;
        },
        Some(i) => i,
    };
    let id: u32 = sc.s.next_id.wrapping_add(1);
    let cw: usize = (w - 4) as usize;
    let ch: usize = (h - TITLE_H - 2) as usize;
    assert(0 <= cw * ch <= 1200 * 800) by (nonlinear_arith)
        requires
            0 <= cw <= 1200,
            0 <= ch <= 800,
    ;
    assert(sc@.wins[slot as int] == sc.wins@[slot as int]@);
    assert(sc@.wins[slot as int].wf());
    let mut term = TermState::empty();
    core::mem::swap(&mut term, &mut sc.wins[slot].term);
    let ghost s1 = slot_for(old(sc)@, Kind::User)->Some_0.0;
    let win = Win {
        id,
        kind: Kind::User,
        owner: pid,
        title,
        x,
        y,
        w,
        h,
        open: true,
        minimized: false,
        buf: zero_buf(cw * ch),
        ev: Vec::new(),
        term,
    };
    assert(win@ =~= user_win(old(sc)@, s1.wins[slot as int], id, pid, title@, xy, wh));
    let ghost t1 = sc@;
    assert(t1.wins =~= s1.wins.update(
        slot as int,
        WinV { term: crate::gui::term_state::empty_term(), ..s1.wins[slot as int] },
    ));
    place(sc, slot, win);
    assert(sc@ =~= placed(s1, slot, win@));
    id as i64
}

/// open(title, place, size) by a task: the number of the window, or -1.
pub fn sys_open(d: &mut Option<Desk>, m: &Memory, cr3: u64, pid: u64, title_ptr: u64, title_len: u64, xy: u64, wh: u64) -> (r:
    i64)
    requires
        desk_ok(*old(d)),
        m.wf(),
    ensures
        desk_ok(*final(d)),
        back_of(*final(d)) == back_of(*old(d)),
        match (text_at(m@, cr3, title_ptr, title_len, 24), scene_of(*old(d))) {
            (Some(t), Some(sc)) => {
                let (s, x) = open_call(sc, pid, clean(t), xy, wh);
                scene_of(*final(d)) == Some(s) && r == x
            },
            _ => r == -1 && scene_of(*final(d)) == scene_of(*old(d)),
        },
{
    let title: String = match copy_user_bytes(m, cr3, title_ptr, title_len, 24) {
        None => {
            return -1;
        },
        Some(b) => sanitize(&b),
    };
    match d {
        None => -1,
        Some(x) => open_user(&mut x.sc, pid, title, xy, wh),
    }
}

// ---------------------------------------------------------------------------
// Windows of programs
// ---------------------------------------------------------------------------
/// A window by its number.
pub open spec fn win_at(sc: SceneV, id: u64) -> Option<int> {
    crate::seqs::first(sc.wins, SceneV::has_id((id % 0x1_0000_0000) as u32))
}

pub open spec fn close_call(sc: SceneV, pid: u64, id: u64) -> (SceneV, int) {
    match win_at(sc, id) {
        Some(i) if sc.wins[i].owner == pid && sc.wins[i].kind == Kind::User => {
            let c = sc.with_win(i, WinV { open: false, buf: Seq::empty(), ..sc.wins[i] });
            (
                if sc.wins[i].open {
                    c.with_dirty_win(i)
                } else {
                    c
                },
                0,
            )
        },
        _ => (sc, -1),
    }
}

fn close_user(sc: &mut Scene, pid: u64, id: u64) -> (r: i64)
    requires
        old(sc)@.wf(),
    ensures
        final(sc)@.wf(),
        (final(sc)@, r as int) == close_call(old(sc)@, pid, id),
{
    let i: usize = match sc.find_by_id((id % 0x1_0000_0000) as u32) {
        None => {
            return -1;
        },
        Some(i) => i,
    };
    assert(sc@.wins[i as int] == sc.wins@[i as int]@);
    assert(sc@.wins[i as int].wf());
    if sc.wins[i].owner != pid || sc.wins[i].kind != Kind::User {
        return -1;
    }
    let was: bool = sc.wins[i].open;
    sc.wins[i].open = false;
    sc.wins[i].buf = Vec::new();
    assert(sc@ =~= old(sc)@.with_win(i as int, WinV { open: false, buf: Seq::empty(), ..old(sc)@.wins[i as int] }));
    if was {
        sc.dirty_win(i);
    }
    0
}

/// close(id) by a task: 0, or -1 if the window is not its own.
pub fn sys_close(d: &mut Option<Desk>, pid: u64, id: u64) -> (r: i64)
    requires
        desk_ok(*old(d)),
    ensures
        desk_ok(*final(d)),
        back_of(*final(d)) == back_of(*old(d)),
        match scene_of(*old(d)) {
            None => r == -1 && scene_of(*final(d)) is None,
            Some(sc) => scene_of(*final(d)) == Some(close_call(sc, pid, id).0) && r == close_call(sc, pid, id).1,
        },
{
    match d {
        None => -1,
        Some(x) => close_user(&mut x.sc, pid, id),
    }
}

/// The content of a window as a picture to draw into.
pub open spec fn canvas(w: WinV) -> PaintV {
    PaintV {
        buf: w.buf,
        w: w.buf_w(),
        h: w.buf_h(),
        clip: Rect { x: 0, y: 0, w: w.buf_w() as i32, h: w.buf_h() as i32 },
    }
}

/// The window that a task may draw into: its own, open, and with a picture of
/// the size that it has.
pub open spec fn drawable(sc: SceneV, pid: u64, id: u64) -> Option<int> {
    match win_at(sc, id) {
        Some(i) if sc.wins[i].owner == pid && sc.wins[i].open && sc.wins[i].buf.len() == sc.wins[i].buf_w()
            * sc.wins[i].buf_h() => Some(i),
        _ => None,
    }
}

pub open spec fn drawn(sc: SceneV, i: int, p: PaintV) -> SceneV {
    sc.with_win(i, WinV { buf: p.buf, ..sc.wins[i] }).with_dirty_win(i)
}

fn find_drawable(sc: &Scene, pid: u64, id: u64) -> (r: Option<usize>)
    requires
        sc@.wf(),
    ensures
        match (r, drawable(sc@, pid, id)) {
            (Some(i), Some(j)) => i == j && i < sc.wins@.len(),
            (None, None) => true,
            _ => false,
        },
{
    let i: usize = match sc.find_by_id((id % 0x1_0000_0000) as u32) {
        None => {
            return None;
        },
        Some(i) => i,
    };
    assert(sc@.wins[i as int] == sc.wins@[i as int]@);
    assert(sc@.wins[i as int].wf());
    if sc.wins[i].owner != pid || !sc.wins[i].open {
        return None;
    }
    let (cw, ch) = canvas_size(sc.wins[i].w, sc.wins[i].h);
    assert(0 <= cw * ch <= 0x1_0000_0000) by (nonlinear_arith)
        requires
            0 <= cw <= 0x1_0000,
            0 <= ch <= 0x1_0000,
    ;
    if sc.wins[i].buf.len() as u64 != cw as u64 * ch as u64 {
        return None;
    }
    Some(i)
}

fn canvas_size(w: i32, h: i32) -> (r: (usize, usize))
    requires
        0 < w <= 0x1_0000,
        0 < h <= 0x1_0000,
    ensures
        r.0 == crate::pixels::max(w - 4, 0),
        r.1 == crate::pixels::max(h - TITLE_H - 2, 0),
        r.0 <= 0x1_0000,
        r.1 <= 0x1_0000,
{
    let cw: i32 = w - 4;
    let ch: i32 = h - TITLE_H - 2;
    (if cw > 0 {
        cw as usize
    } else {
        0
    }, if ch > 0 {
        ch as usize
    } else {
        0
    })
}

/// Takes the content of a window out, to be drawn into.
fn take_canvas(sc: &mut Scene, i: usize) -> (p: Painter)
    requires
        old(sc)@.wf(),
        i < old(sc).wins@.len(),
        old(sc)@.wins[i as int].buf.len() == old(sc)@.wins[i as int].buf_w() * old(sc)@.wins[i as int].buf_h(),
    ensures
        p@.wf(),
        p@ == canvas(old(sc)@.wins[i as int]),
        final(sc)@.wf(),
        final(sc)@ == old(sc)@.with_win(i as int, WinV { buf: Seq::empty(), ..old(sc)@.wins[i as int] }),
{
    assert(sc@.wins[i as int] == sc.wins@[i as int]@);
    assert(sc@.wins[i as int].wf());
    let (cw, ch) = canvas_size(sc.wins[i].w, sc.wins[i].h);
    let mut buf: Vec<u32> = Vec::new();
    core::mem::swap(&mut buf, &mut sc.wins[i].buf);
    assert(sc@ =~= old(sc)@.with_win(i as int, WinV { buf: Seq::empty(), ..old(sc)@.wins[i as int] }));
    Painter { buf, w: cw, h: ch, clip: Rect { x: 0, y: 0, w: cw as i32, h: ch as i32 } }
}

/// Puts the content of a window back.
fn put_canvas(sc: &mut Scene, i: usize, p: Painter)
    requires
        old(sc)@.wf(),
        i < old(sc).wins@.len(),
    ensures
        final(sc)@.wf(),
        final(sc)@ == drawn(old(sc)@, i as int, p@),
{
    assert(sc@.wins[i as int] == sc.wins@[i as int]@);
    assert(sc@.wins[i as int].wf());
    let ghost pv = p@;
    sc.wins[i].buf = p.buf;
    assert(sc@ =~= old(sc)@.with_win(i as int, WinV { buf: pv.buf, ..old(sc)@.wins[i as int] }));
    sc.dirty_win(i);
}

pub open spec fn rect_call(sc: SceneV, pid: u64, id: u64, xy: u64, wh: u64, col: u32) -> (SceneV, int) {
    match drawable(sc, pid, id) {
        None => (sc, -1),
        Some(i) => (
            drawn(
                sc,
                i,
                canvas(sc.wins[i]).rect(
                    signed16(xy as int),
                    signed16((xy / 0x1_0000) as int),
                    (wh % 0x1_0000) as int,
                    (wh / 0x1_0000 % 0x1_0000) as int,
                    col,
                ),
            ),
            0,
        ),
    }
}

fn rect_user(sc: &mut Scene, pid: u64, id: u64, xy: u64, wh: u64, col: u32) -> (r: i64)
    requires
        old(sc)@.wf(),
    ensures
        final(sc)@.wf(),
        (final(sc)@, r as int) == rect_call(old(sc)@, pid, id, xy, wh, col),
{
    match find_drawable(sc, pid, id) {
        None => -1,
        Some(i) => {
            let mut p = take_canvas(sc, i);
            p.fill_rect(
                sign16(xy),
                sign16(xy / 0x1_0000),
                (wh % 0x1_0000) as i32,
                (wh / 0x1_0000 % 0x1_0000) as i32,
                col,
            );
            put_canvas(sc, i, p);
            assert(sc@ =~= rect_call(old(sc)@, pid, id, xy, wh, col).0);
            0
        },
    }
}

/// rect(id, place, size, color) by a task: 0, or -1 if it may not draw there.
pub fn sys_rect(d: &mut Option<Desk>, f: &Option<Format>, pid: u64, id: u64, xy: u64, wh: u64, rgb: u32) -> (r: i64)
    requires
        desk_ok(*old(d)),
        *f matches Some(x) ==> x.wf(),
    ensures
        desk_ok(*final(d)),
        back_of(*final(d)) == back_of(*old(d)),
        match scene_of(*old(d)) {
            None => r == -1 && scene_of(*final(d)) is None,
            Some(sc) => {
                let (s, x) = rect_call(sc, pid, id, xy, wh, call_color(*f, rgb));
                scene_of(*final(d)) == Some(s) && r == x
            },
        },
{
    let col: u32 = pack_rgb_col(f, rgb);
    match d {
        None => -1,
        Some(x) => rect_user(&mut x.sc, pid, id, xy, wh, col),
    }
}

pub open spec fn text_call(sc: SceneV, font: Font, pid: u64, id: u64, xy: u64, b: Seq<u8>, col: u32) -> (SceneV, int) {
    match drawable(sc, pid, id) {
        None => (sc, -1),
        Some(i) => (
            drawn(
                sc,
                i,
                canvas(sc.wins[i]).text(
                    font,
                    clean(b),
                    signed16(xy as int),
                    signed16((xy / 0x1_0000) as int),
                    col,
                    None,
                    1,
                ),
            ),
            b.len() as int,
        ),
    }
}

fn text_user(sc: &mut Scene, font: &Font, pid: u64, id: u64, xy: u64, b: &Vec<u8>, col: u32) -> (r: i64)
    requires
        old(sc)@.wf(),
        font.wf(),
        b@.len() <= 200,
    ensures
        final(sc)@.wf(),
        (final(sc)@, r as int) == text_call(old(sc)@, *font, pid, id, xy, b@, col),
{
    match find_drawable(sc, pid, id) {
        None => -1,
        Some(i) => {
            let s: String = sanitize(b);
            let mut p = take_canvas(sc, i);
            p.str8(font, s.as_str(), sign16(xy), sign16(xy / 0x1_0000), col, None, 1);
            put_canvas(sc, i, p);
            assert(sc@ =~= text_call(old(sc)@, *font, pid, id, xy, b@, col).0);
            b.len() as i64
        },
    }
}

/// text(id, place, text, color) by a task: how many characters, or -1.
pub fn sys_text(
    d: &mut Option<Desk>,
    f: &Option<Format>,
    font: &Font,
    m: &Memory,
    cr3: u64,
    pid: u64,
    id: u64,
    xy: u64,
    ptr: u64,
    len: u64,
    rgb: u32,
) -> (r: i64)
    requires
        desk_ok(*old(d)),
        *f matches Some(x) ==> x.wf(),
        font.wf(),
        m.wf(),
    ensures
        desk_ok(*final(d)),
        back_of(*final(d)) == back_of(*old(d)),
        match (text_at(m@, cr3, ptr, len, 200), scene_of(*old(d))) {
            (Some(b), Some(sc)) => {
                let (s, x) = text_call(sc, *font, pid, id, xy, b, call_color(*f, rgb));
                scene_of(*final(d)) == Some(s) && r == x
            },
            _ => r == -1 && scene_of(*final(d)) == scene_of(*old(d)),
        },
{
    let b: Vec<u8> = match copy_user_bytes(m, cr3, ptr, len, 200) {
        None => {
            return -1;
        },
        Some(b) => b,
    };
    let col: u32 = pack_rgb_col(f, rgb);
    match d {
        None => -1,
        Some(x) => text_user(&mut x.sc, font, pid, id, xy, &b, col),
    }
}

/// The next event of a task's window; 0 if there is none, -1 if the window is
/// gone or another's.
pub open spec fn event_call(sc: SceneV, pid: u64, id: u64) -> (SceneV, u64) {
    match win_at(sc, id) {
        Some(i) if sc.wins[i].owner == pid => if sc.wins[i].ev.len() == 0 {
            (sc, EV_NONE)
        } else {
            (sc.with_win(i, WinV { ev: sc.wins[i].ev.skip(1), ..sc.wins[i] }), sc.wins[i].ev[0])
        },
        _ => (sc, u64::MAX),
    }
}

fn event_user(sc: &mut Scene, pid: u64, id: u64) -> (r: u64)
    requires
        old(sc)@.wf(),
    ensures
        final(sc)@.wf(),
        (final(sc)@, r) == event_call(old(sc)@, pid, id),
{
    let i: usize = match sc.find_by_id((id % 0x1_0000_0000) as u32) {
        None => {
            return 0xFFFF_FFFF_FFFF_FFFF;
        },
        Some(i) => i,
    };
    assert(sc@.wins[i as int] == sc.wins@[i as int]@);
    assert(sc@.wins[i as int].wf());
    if sc.wins[i].owner != pid {
        return 0xFFFF_FFFF_FFFF_FFFF;
    }
    if sc.wins[i].ev.len() == 0 {
        return EV_NONE;
    }
    let e: u64 = sc.wins[i].ev.remove(0);
    assert(sc.wins@[i as int].ev@ =~= old(sc).wins@[i as int].ev@.skip(1));
    assert(sc@ =~= event_call(old(sc)@, pid, id).0);
    e
}

/// event(id) by a task: its next event.
pub fn sys_event(d: &mut Option<Desk>, pid: u64, id: u64) -> (r: u64)
    requires
        desk_ok(*old(d)),
    ensures
        desk_ok(*final(d)),
        back_of(*final(d)) == back_of(*old(d)),
        match scene_of(*old(d)) {
            None => r == u64::MAX && scene_of(*final(d)) is None,
            Some(sc) => scene_of(*final(d)) == Some(event_call(sc, pid, id).0) && r == event_call(sc, pid, id).1,
        },
{
    match d {
        None => 0xFFFF_FFFF_FFFF_FFFF,
        Some(x) => event_user(&mut x.sc, pid, id),
    }
}

/// geo(id) by a task: the size of its window, the width above the height, or
/// -1.
pub fn sys_geo(d: &Option<Desk>, pid: u64, id: u64) -> (r: i64)
    requires
        desk_ok(*d),
    ensures
        match scene_of(*d) {
            None => r == -1,
            Some(sc) => match win_at(sc, id) {
                Some(i) if sc.wins[i].owner == pid && sc.wins[i].open => r == ((sc.wins[i].w as i64) << 16u64) | (
                sc.wins[i].h as i64),
                _ => r == -1,
            },
        },
{
    match d {
        None => -1,
        Some(x) => {
            let i: usize = match x.sc.find_by_id((id % 0x1_0000_0000) as u32) {
                None => {
                    return -1;
                },
                Some(i) => i,
            };
            assert(x.sc@.wins[i as int] == x.sc.wins@[i as int]@);
            if x.sc.wins[i].owner != pid || !x.sc.wins[i].open {
                return -1;
            }
            ((x.sc.wins[i].w as i64) << 16u64) | (x.sc.wins[i].h as i64)
        },
    }
}

} // verus!
