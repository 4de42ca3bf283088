//! The bitmap font: a glyph of eight rows for each printable character.

use vstd::prelude::*;

verus! {

/// How many glyphs there are.
pub const FONT_COUNT: usize = 95;

/// A font: its first character, and the glyphs from there on. In each row the
/// lowest bit is the leftmost pixel.
pub struct Font {
    pub first: u8,
    pub glyphs: Vec<[u8; 8]>,
}

impl Font {
    pub open spec fn wf(&self) -> bool {
        &&& self.glyphs@.len() == FONT_COUNT
        &&& self.first <= 63
        &&& 63 < self.first + FONT_COUNT
    }

    /// The rows of a character; those of a question mark, if it has none.
    pub open spec fn rows(&self, ch: u8) -> Seq<u8> {
        if self.first <= ch && ch < self.first + FONT_COUNT {
            self.glyphs@[ch - self.first]@
        } else {
            self.glyphs@[63 - self.first]@
        }
    }

    pub fn glyph_for(&self, ch: u8) -> (g: [u8; 8])
        requires
            self.wf(),
        ensures
            g@ == self.rows(ch),
    {
        if ch >= self.first && ((ch - self.first) as usize) < FONT_COUNT {
            self.glyphs[(ch - self.first) as usize]
        } else {
            self.glyphs[(63 - self.first) as usize]
        }
    }
}

} // verus!
