//! The line that is being typed.

use vstd::prelude::*;
use vstd::string::StringExecFns;

use crate::console::{nothing, say, say_color, Out, OutV, GLM_CYAN, GLM_GRAY, GLM_GREEN, GLM_MAGENTA, GLM_WHITE};
use crate::text::{latin1, push_char};

verus! {

/// The longest line.
pub const LINE_MAX: usize = 128;

pub open spec fn prompt_lines() -> Seq<OutV> {
    seq![crate::console::colored("glm"@, GLM_CYAN), crate::console::colored("> "@, GLM_MAGENTA)]
}

pub fn prompt() -> (v: Vec<Out>)
    ensures
        crate::console::outs(v@) == prompt_lines(),
{
    let mut v = nothing();
    say_color(&mut v, "glm".to_owned(), GLM_CYAN);
    say_color(&mut v, "> ".to_owned(), GLM_MAGENTA);
    assert(crate::console::outs(v@) =~= prompt_lines());
    v
}

pub open spec fn welcome_lines() -> Seq<OutV> {
    seq![
        crate::console::plain("\n"@),
        crate::console::colored("  Welcome to the GLM OS shell (glmsh 1.6). Type 'help'."@, GLM_GREEN),
        crate::console::colored("\n\n"@, GLM_GRAY),
    ]
}

/// What the shell says when it starts.
pub fn welcome() -> (v: Vec<Out>)
    ensures
        crate::console::outs(v@) == welcome_lines(),
{
    let mut v = nothing();
    say(&mut v, "\n".to_owned());
    say_color(&mut v, "  Welcome to the GLM OS shell (glmsh 1.6). Type 'help'.".to_owned(), GLM_GREEN);
    say_color(&mut v, "\n\n".to_owned(), GLM_GRAY);
    assert(crate::console::outs(v@) =~= welcome_lines());
    v
}

pub open spec fn banner_lines() -> Seq<OutV> {
    seq![
        crate::console::colored("GLM OS 1.4 terminal\n"@, GLM_GREEN),
        crate::console::plain("type 'help' for commands, 'exit' closes the window\n"@),
    ]
}

/// What a terminal session says when it starts.
pub fn banner() -> (v: Vec<Out>)
    ensures
        crate::console::outs(v@) == banner_lines(),
{
    let mut v = nothing();
    say_color(&mut v, "GLM OS 1.4 terminal\n".to_owned(), GLM_GREEN);
    say(&mut v, "type 'help' for commands, 'exit' closes the window\n".to_owned());
    assert(crate::console::outs(v@) =~= banner_lines());
    v
}

/// What a key does to the line.
#[derive(Clone, Copy, PartialEq, Eq, Structural, Debug)]
pub enum Typed {
    /// The line is done: it is to be executed.
    Done,
    /// The last character went.
    Erased,
    /// A character came.
    Added,
    /// The key does nothing.
    Ignored,
}

/// A key that can be in a line.
pub open spec fn is_typable(k: u8) -> bool {
    0x20 <= k <= 0x7E
}

pub open spec fn typed_spec(line: Seq<u8>, k: u8) -> (Seq<u8>, Typed) {
    if k == 10 {
        (line, Typed::Done)
    } else if k == 8 {
        if line.len() > 0 {
            (line.drop_last(), Typed::Erased)
        } else {
            (line, Typed::Ignored)
        }
    } else if is_typable(k) && line.len() < LINE_MAX {
        (line.push(k), Typed::Added)
    } else {
        (line, Typed::Ignored)
    }
}

/// What is printed for a key.
pub open spec fn echo_lines(k: u8, t: Typed) -> Seq<OutV> {
    match t {
        Typed::Done => seq![crate::console::plain("\n"@)],
        Typed::Erased => seq![crate::console::plain("\x08 \x08"@)],
        Typed::Added => seq![crate::console::colored(seq![k as char], GLM_WHITE)],
        Typed::Ignored => Seq::empty(),
    }
}

/// Takes a key into the line, and prints it.
pub fn type_key(line: &mut Vec<u8>, k: u8) -> (r: (Typed, Vec<Out>))
    requires
        old(line)@.len() <= LINE_MAX,
    ensures
        final(line)@.len() <= LINE_MAX,
        (final(line)@, r.0) == typed_spec(old(line)@, k),
        crate::console::outs(r.1@) == echo_lines(k, r.0),
{
    let mut v = nothing();
    if k == 10 {
        say(&mut v, "\n".to_owned());
        assert(crate::console::outs(v@) =~= echo_lines(k, Typed::Done));
        return (Typed::Done, v);
    }
    if k == 8 {
        if line.len() > 0 {
            let _last: Option<u8> = line.pop();
            say(&mut v, "\x08 \x08".to_owned());
            assert(crate::console::outs(v@) =~= echo_lines(k, Typed::Erased));
            return (Typed::Erased, v);
        }
        return (Typed::Ignored, v);
    }
    if k >= 0x20 && k <= 0x7E && line.len() < LINE_MAX {
        line.push(k);
        let mut t: String = String::new();
        push_char(&mut t, latin1(k));
        assert(t@ =~= seq![k as char]);
        say_color(&mut v, t, GLM_WHITE);
        assert(crate::console::outs(v@) =~= echo_lines(k, Typed::Added));
        return (Typed::Added, v);
    }
    (Typed::Ignored, v)
}

// ---------------------------------------------------------------------------
// The caret
// ---------------------------------------------------------------------------
/// Ticks between two changes of the caret on the text screen.
pub const BLINK_TICKS: u64 = 25;

/// Those in a terminal window.
pub const CARET_TICKS: u64 = 15;

/// The caret changes: enough ticks have passed since it last did.
pub open spec fn due(now: u64, last: u64, every: u64) -> bool {
    now >= last && now - last >= every
}

/// The caret of the text screen: whether it shows, and since when.
#[derive(Clone, Copy, PartialEq, Eq, Structural, Debug)]
pub struct Caret {
    pub on: bool,
    pub last: u64,
}

/// What happens to the caret.
#[derive(Clone, Copy, PartialEq, Eq, Structural, Debug)]
pub enum Blink {
    Draw,
    Erase,
    Stay,
}

pub open spec fn blink_spec(c: Caret, now: u64) -> (Caret, Blink) {
    if due(now, c.last, BLINK_TICKS) {
        (
            Caret { on: !c.on, last: now },
            if c.on {
                Blink::Erase
            } else {
                Blink::Draw
            },
        )
    } else {
        (c, Blink::Stay)
    }
}

/// Lets the caret blink while no key comes.
pub fn blink(c: &mut Caret, now: u64) -> (b: Blink)
    ensures
        (*final(c), b) == blink_spec(*old(c), now),
{
    if now >= c.last && now - c.last >= BLINK_TICKS {
        let was: bool = c.on;
        c.on = !was;
        c.last = now;
        if was {
            Blink::Erase
        } else {
            Blink::Draw
        }
    } else {
        Blink::Stay
    }
}

} // verus!
