//! What terminals show and what windows programs may open.

use vstd::prelude::*;

use crate::gui::scene::{Kind, SceneV, WinV};
use crate::gui::term_state::TermV;

verus! {

/// A character goes to the end of the line, in the color of the moment; one
/// that cannot be shown as a question mark. A line that is as wide as the
/// terminal is done.
pub proof fn law_letter_in_a_terminal(t: TermV, b: u8)
    requires
        t.lines.len() < 400,
        b >= 32,
    ensures
        ({
            let c: u8 = if b <= 126 {
                b
            } else {
                0x3F
            };
            let u = t.fed(b);
            &&& t.cur.len() + 1 < t.cols ==> u.cur == t.cur.push((c, t.fg)) && u.lines == t.lines
            &&& t.cur.len() + 1 >= t.cols ==> u.cur.len() == 0 && u.lines == t.lines.push(t.cur.push((c, t.fg)))
            &&& u.fg == t.fg && u.input == t.input && u.cols == t.cols
        }),
{
}

/// A line end puts the line behind the others, of which the last 400 are kept;
/// backspace takes the last character of the line; a carriage return does
/// nothing; a tab is four blanks.
pub proof fn law_terminal_controls(t: TermV)
    ensures
        t.fed(10).cur.len() == 0,
        t.lines.len() < 400 ==> t.fed(10).lines == t.lines.push(t.cur),
        t.lines.len() == 400 ==> t.fed(10).lines == t.lines.push(t.cur).subrange(1, 401),
        t.cur.len() > 0 ==> t.fed(8) == (TermV { cur: t.cur.subrange(0, t.cur.len() - 1), ..t }),
        t.cur.len() == 0 ==> t.fed(8) == t,
        t.fed(13) == t,
        t.fed(9) == t.fed(32).fed(32).fed(32).fed(32),
{
    if t.cur.len() > 0 {
        assert(t.cur.drop_last() =~= t.cur.subrange(0, t.cur.len() - 1));
    }
    let l = t.lines.push(t.cur);
    assert(l.skip(1) =~= l.subrange(1, l.len() as int));
}

/// Text is fed byte by byte, in order.
pub proof fn law_terminal_text(t: TermV, a: Seq<u8>, b: u8)
    ensures
        t.fed_all(a.push(b), 0) == t.fed_all(a, 0).fed(b),
{
    lemma_fed(t, a, b, 0);
}

proof fn lemma_fed(t: TermV, a: Seq<u8>, b: u8, i: int)
    requires
        0 <= i <= a.len(),
    ensures
        t.fed_all(a.push(b), i) == t.fed_all(a, i).fed(b),
    decreases a.len() - i,
{
    reveal_with_fuel(TermV::fed_all, 2);
    if i < a.len() {
        lemma_fed(t.fed(a[i]), a, b, i + 1);
    }
}

/// What a terminal is told goes to the terminal of that number that is open,
/// and to nothing else; its next key is the oldest of its input.
pub proof fn law_terminal_is_reached(sc: SceneV, id: u32, f: spec_fn(TermV) -> TermV, show: bool, i: int)
    requires
        0 <= i < sc.wins.len(),
        sc.wins[i].id == id,
        forall|j: int| 0 <= j < i ==> (#[trigger] sc.wins[j]).id != id,
    ensures
        ({
            let w = sc.wins[i];
            let r = crate::gui::terms::termed(sc, id, f, show);
            &&& r.wins.len() == sc.wins.len()
            &&& forall|j: int| 0 <= j < sc.wins.len() && j != i ==> #[trigger] r.wins[j] == sc.wins[j]
            &&& w.kind == Kind::Term && w.open ==> r.wins[i] == (WinV { term: f(w.term), ..w })
            &&& w.kind != Kind::Term || !w.open ==> r == sc
            &&& crate::gui::terms::next_key(sc, id) == if w.kind == Kind::Term && w.open && w.term.input.len() > 0 {
                Some(w.term.input[0])
            } else {
                None
            }
        }),
{
    let q = SceneV::has_id(id);
    assert(q(sc.wins[i]));
    assert forall|j: int| 0 <= j < i implies !q(#[trigger] sc.wins[j]) by {
        assert(sc.wins[j].id != id);
    }
    crate::seqs::lemma_first_is(sc.wins, q, 0, i);
}

// ---------------------------------------------------------------------------
// Windows of programs
// ---------------------------------------------------------------------------
/// A program opens a window: in front of the others, its own, with the title
/// and the size that it asked for (within 140 by 90 and 1200 by 800 and the
/// screen), an empty canvas and no events. It gets the next number.
#[verifier::spinoff_prover]
pub proof fn law_program_opens_a_window(sc: SceneV, pid: u64, title: Seq<char>, x: int, y: int, w: int, h: int)
    requires
        sc.wf(),
        sc.wins.len() < 10,
        forall|j: int| 0 <= j < sc.wins.len() ==> !((#[trigger] sc.wins[j]).kind == Kind::User && !sc.wins[j].open),
        0 <= x < 0x8000,
        0 <= y < 0x8000,
        140 <= w <= 1200 && w <= sc.w - 8,
        90 <= h <= 800 && h <= sc.h - 36,
        sc.s.next_id < u32::MAX,
    ensures
        ({
            let n = sc.wins.len() as int;
            let (r, id) = crate::gui::calls::open_call(
                sc,
                pid,
                title,
                (y * 0x1_0000 + x) as u64,
                (h * 0x1_0000 + w) as u64,
            );
            let v = r.wins[n];
            &&& id == sc.s.next_id + 1
            &&& r.wins.len() == n + 1
            &&& r.z.last() == n
            &&& v.id == id && v.owner == pid && v.title == title && v.kind == Kind::User
            &&& v.x == x && v.y == y && v.w == w && v.h == h
            &&& v.open && !v.minimized
            &&& v.buf.len() == (w - 4) * (h - 24)
            &&& forall|i: int| 0 <= i < v.buf.len() ==> #[trigger] v.buf[i] == 0
            &&& v.ev.len() == 0
            &&& forall|j: int| 0 <= j < n ==> #[trigger] r.wins[j] == sc.wins[j]
        }),
{
    let q = crate::gui::calls::reusable(Kind::User);
    assert forall|j: int| 0 <= j < sc.wins.len() implies !q(#[trigger] sc.wins[j]) by {
        assert(!(sc.wins[j].kind == Kind::User && !sc.wins[j].open));
    }
    crate::seqs::lemma_first_none(sc.wins, q, 0);
    let xy = (y * 0x1_0000 + x) as u64;
    let wh = (h * 0x1_0000 + w) as u64;
    assert(wh % 0x1_0000 == w && wh / 0x1_0000 % 0x1_0000 == h);
    assert(xy as int % 0x1_0000 == x && (xy / 0x1_0000) as int % 0x1_0000 == y);
    assert((w - 4) * (h - 24) >= 0) by (nonlinear_arith)
        requires
            w >= 140,
            h >= 90,
    ;
}

/// A program closes its own window and no other.
pub proof fn law_program_closes_its_window(sc: SceneV, pid: u64, id: u64, i: int)
    requires
        id < 0x1_0000_0000,
        0 <= i < sc.wins.len(),
        sc.wins[i].id == id,
        forall|j: int| 0 <= j < i ==> (#[trigger] sc.wins[j]).id != id,
    ensures
        ({
            let w = sc.wins[i];
            let (r, c) = crate::gui::calls::close_call(sc, pid, id);
            if w.owner == pid && w.kind == Kind::User {
                &&& c == 0
                &&& !r.wins[i].open
                &&& forall|j: int| 0 <= j < sc.wins.len() && j != i ==> #[trigger] r.wins[j] == sc.wins[j]
            } else {
                c == -1 && r == sc
            }
        }),
{
    let q = SceneV::has_id((id % 0x1_0000_0000) as u32);
    assert(q(sc.wins[i]));
    assert forall|j: int| 0 <= j < i implies !q(#[trigger] sc.wins[j]) by {
        assert(sc.wins[j].id != id);
    }
    crate::seqs::lemma_first_is(sc.wins, q, 0, i);
}

/// When a task ends its windows close, and nobody else's do.
pub proof fn law_windows_end_with_their_task(sc: SceneV, pid: u64, j: int)
    requires
        0 <= j < sc.wins.len(),
    ensures
        ({
            let r = crate::gui::terms::exit_spec(sc, pid);
            &&& r.wins.len() == sc.wins.len()
            &&& sc.wins[j].owner == pid && (sc.wins[j].kind == Kind::User || sc.wins[j].kind == Kind::Term)
                ==> !r.wins[j].open
            &&& sc.wins[j].owner != pid || (sc.wins[j].kind != Kind::User && sc.wins[j].kind != Kind::Term)
                ==> r.wins[j] == sc.wins[j]
        }),
{
    lemma_exit(sc, pid, 0, false, j);
}

#[verifier::spinoff_prover]
proof fn lemma_exit(sc: SceneV, pid: u64, i: int, any: bool, j: int)
    requires
        0 <= j < sc.wins.len(),
        0 <= i <= sc.wins.len(),
    ensures
        ({
            let r = crate::gui::terms::exit_closes(sc, pid, i, any).0;
            &&& r.wins.len() == sc.wins.len()
            &&& j < i ==> r.wins[j] == sc.wins[j]
            &&& j >= i && sc.wins[j].owner == pid && (sc.wins[j].kind == Kind::User || sc.wins[j].kind == Kind::Term)
                ==> !r.wins[j].open
            &&& sc.wins[j].owner != pid || (sc.wins[j].kind != Kind::User && sc.wins[j].kind != Kind::Term)
                ==> r.wins[j] == sc.wins[j]
        }),
    decreases sc.wins.len() - i,
{
    if i < sc.wins.len() {
        let w = sc.wins[i];
        if w.kind == Kind::User && w.open && w.owner == pid {
            lemma_exit(
                sc.with_win(i, WinV { open: false, buf: Seq::empty(), ..w }).with_dirty_win(i),
                pid,
                i + 1,
                true,
                j,
            );
        } else if w.kind == Kind::Term && w.open && w.owner == pid {
            lemma_exit(
                sc.with_win(i, WinV { open: false, term: TermV { input: Seq::empty(), ..w.term }, ..w }).with_dirty_win(
                    i,
                ),
                pid,
                i + 1,
                true,
                j,
            );
        } else {
            lemma_exit(sc, pid, i + 1, any, j);
        }
    }
}

} // verus!
