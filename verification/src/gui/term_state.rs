//! What a terminal window shows: the lines that are closed, and the one that
//! is still being written.

use vstd::prelude::*;

use crate::console::GLM_GRAY;

verus! {

/// How many closed lines are kept.
pub const SCROLL_CAP: usize = 400;

/// How many keystrokes can wait.
pub const TERM_IN_CAP: usize = 128;

/// The state of a terminal: lines of characters with their colors, the color
/// of new ones, the keystrokes that wait, and whether the caret shows.
pub struct TermState {
    pub lines: Vec<Vec<(u8, u8)>>,
    pub cur: Vec<(u8, u8)>,
    pub fg: u8,
    pub input: Vec<u8>,
    pub caret: bool,
    /// Where a line is wrapped.
    pub cols: usize,
}

#[verifier::ext_equal]
pub struct TermV {
    pub lines: Seq<Seq<(u8, u8)>>,
    pub cur: Seq<(u8, u8)>,
    pub fg: u8,
    pub input: Seq<u8>,
    pub caret: bool,
    pub cols: int,
}

pub open spec fn line_views(v: Seq<Vec<(u8, u8)>>) -> Seq<Seq<(u8, u8)>> {
    v.map_values(|l: Vec<(u8, u8)>| l@)
}

pub open spec fn empty_term() -> TermV {
    TermV { lines: Seq::empty(), cur: Seq::empty(), fg: GLM_GRAY, input: Seq::empty(), caret: true, cols: 40 }
}

impl TermV {
    pub open spec fn wf(self) -> bool {
        &&& self.lines.len() <= SCROLL_CAP
        &&& self.input.len() <= TERM_IN_CAP
    }

    /// The line is closed; the oldest goes if there are too many.
    pub open spec fn flushed(self) -> TermV {
        let l = self.lines.push(self.cur);
        TermV {
            lines: if l.len() > SCROLL_CAP {
                l.skip(1)
            } else {
                l
            },
            cur: Seq::empty(),
            ..self
        }
    }

    /// A character is added; a full line is closed.
    pub open spec fn celled(self, ch: u8) -> TermV {
        let t = TermV { cur: self.cur.push((ch, self.fg)), ..self };
        if t.cur.len() >= self.cols {
            t.flushed()
        } else {
            t
        }
    }

    pub open spec fn popped(self) -> TermV {
        if self.cur.len() == 0 {
            self
        } else {
            TermV { cur: self.cur.drop_last(), ..self }
        }
    }

    /// One byte of output: a line end closes the line, a backspace takes the
    /// last character away, a tab is four blanks, and what cannot be shown is
    /// a question mark.
    pub open spec fn fed(self, b: u8) -> TermV {
        if b == 0x0A {
            self.flushed()
        } else if b == 0x0D {
            self
        } else if b == 0x08 {
            self.popped()
        } else if b == 0x09 {
            self.celled(0x20).celled(0x20).celled(0x20).celled(0x20)
        } else if 0x20 <= b && b <= 0x7E {
            self.celled(b)
        } else {
            self.celled(0x3F)
        }
    }

    /// The bytes from `i` on.
    pub open spec fn fed_all(self, b: Seq<u8>, i: int) -> TermV
        decreases b.len() - i,
    {
        if i < 0 || i >= b.len() {
            self
        } else {
            self.fed(b[i]).fed_all(b, i + 1)
        }
    }
}

impl TermState {
    pub open spec fn view(&self) -> TermV {
        TermV {
            lines: line_views(self.lines@),
            cur: self.cur@,
            fg: self.fg,
            input: self.input@,
            caret: self.caret,
            cols: self.cols as int,
        }
    }

    pub fn empty() -> (t: TermState)
        ensures
            t@ == empty_term(),
            t@.wf(),
    {
        let t = TermState {
            lines: Vec::new(),
            cur: Vec::new(),
            fg: GLM_GRAY,
            input: Vec::new(),
            caret: true,
            cols: 40,
        };
        assert(t@ =~= empty_term());
        t
    }

    fn flush_cur(&mut self)
        requires
            old(self)@.wf(),
        ensures
            final(self)@.wf(),
            final(self)@ == old(self)@.flushed(),
    {
        let mut l: Vec<(u8, u8)> = Vec::new();
        core::mem::swap(&mut l, &mut self.cur);
        let ghost lv = l@;
        self.lines.push(l);
        assert(line_views(self.lines@) =~= old(self)@.lines.push(lv));
        if self.lines.len() > SCROLL_CAP {
            let ghost before = self.lines@;
            let _gone = self.lines.remove(0);
            assert(line_views(self.lines@) =~= line_views(before).skip(1));
        }
        assert(self@ =~= old(self)@.flushed());
    }

    fn push_cell(&mut self, ch: u8)
        requires
            old(self)@.wf(),
        ensures
            final(self)@.wf(),
            final(self)@ == old(self)@.celled(ch),
    {
        self.cur.push((ch, self.fg));
        if self.cur.len() >= self.cols {
            self.flush_cur();
        }
    }

    /// Takes the last character of the line away.
    pub fn backspace(&mut self)
        requires
            old(self)@.wf(),
        ensures
            final(self)@.wf(),
            final(self)@ == old(self)@.popped(),
    {
        let _c = self.cur.pop();
        assert(self@ =~= old(self)@.popped());
    }

    fn feed_byte(&mut self, b: u8)
        requires
            old(self)@.wf(),
        ensures
            final(self)@.wf(),
            final(self)@ == old(self)@.fed(b),
    {
        if b == 0x0A {
            self.flush_cur();
        } else if b == 0x0D {
        } else if b == 0x08 {
            self.backspace();
        } else if b == 0x09 {
            self.push_cell(0x20);
            self.push_cell(0x20);
            self.push_cell(0x20);
            self.push_cell(0x20);
        } else if b >= 0x20 && b <= 0x7E {
            self.push_cell(b);
        } else {
            self.push_cell(0x3F);
        }
    }

    /// Writes a text.
    pub fn feed(&mut self, s: &str)
        requires
            old(self)@.wf(),
        ensures
            final(self)@.wf(),
            final(self)@ == old(self)@.fed_all(vstd::utf8::encode_utf8(s@), 0),
    {
        let b: &[u8] = s.as_bytes();
        let n: usize = b.len();
        let mut i: usize = 0;
        while i < n
            invariant
                i <= n,
                n == b@.len(),
                self@.wf(),
                self@.fed_all(b@, i as int) == old(self)@.fed_all(b@, 0),
            decreases n - i,
        {
            self.feed_byte(b[i]);
            i = i + 1;
        }
    }
}

/// The erase that a shell prints, back, blank, back, takes one character away.
pub proof fn law_erase_takes_one_away(t: TermV)
    requires
        t.wf(),
        t.cur.len() > 0,
        t.cur.len() < t.cols,
    ensures
        t.fed(0x08).fed(0x20).fed(0x08) == t.popped(),
{
    let a = t.popped();
    assert(t.fed(0x08).fed(0x20).fed(0x08) =~= a);
}

} // verus!
