//! The shell: lines of text, and what they ask for.

use vstd::prelude::*;
use vstd::string::StringExecFns;

use crate::text::{chars_of, same_text, text_of, utf8_text};
use crate::words::trim;

pub mod about;
pub mod edit;
pub mod line_laws;
pub mod files;
pub mod programs;
pub mod status;
pub mod system;

verus! {

/// What a command line asks for.
#[derive(Clone, Copy, PartialEq, Eq, Structural, Debug)]
pub enum Verb {
    Help,
    Clear,
    Echo,
    /// In a terminal session: opens the system monitor.
    Monitor,
    /// In a terminal session: closes its window.
    Leave,
    Uptime,
    Halt,
    Reboot,
    About,
    Mem,
    Paging,
    Vmm,
    Run,
    Spawn,
    Ps,
    Kill,
    Ipc,
    Sleep,
    Cpu,
    Ls,
    Cat,
    Neofetch,
    Desktop,
    Mouse,
    Net,
    Arp,
    Ping,
    Dstat,
    Dls,
    Dcat,
    Dsave,
    Ddel,
    Drun,
    Quote,
    Unknown,
}

/// A command: what it asks for, and the rest of its line. Of an unknown one
/// its name.
pub struct Command {
    pub verb: Verb,
    pub rest: String,
}

/// The command of a name.
pub open spec fn verb_of(name: Seq<char>, session: bool) -> Verb {
    if name == "help"@ {
        Verb::Help
    } else if name == "clear"@ {
        Verb::Clear
    } else if name == "echo"@ {
        Verb::Echo
    } else if name == "gui"@ {
        if session {
            Verb::Monitor
        } else {
            Verb::Desktop
        }
    } else if name == "exit"@ && session {
        Verb::Leave
    } else if name == "uptime"@ {
        Verb::Uptime
    } else if name == "halt"@ {
        Verb::Halt
    } else if name == "reboot"@ {
        Verb::Reboot
    } else if name == "about"@ {
        Verb::About
    } else if name == "mem"@ {
        Verb::Mem
    } else if name == "paging"@ {
        Verb::Paging
    } else if name == "vmm"@ {
        Verb::Vmm
    } else if name == "run"@ {
        Verb::Run
    } else if name == "spawn"@ {
        Verb::Spawn
    } else if name == "ps"@ || name == "tasks"@ {
        Verb::Ps
    } else {
        more_verbs(name)
    }
}

pub open spec fn more_verbs(name: Seq<char>) -> Verb {
    if name == "kill"@ {
        Verb::Kill
    } else if name == "ipc"@ {
        Verb::Ipc
    } else if name == "sleep"@ {
        Verb::Sleep
    } else if name == "cpu"@ {
        Verb::Cpu
    } else if name == "ls"@ {
        Verb::Ls
    } else if name == "cat"@ {
        Verb::Cat
    } else if name == "neofetch"@ {
        Verb::Neofetch
    } else if name == "mouse"@ {
        Verb::Mouse
    } else if name == "net"@ {
        Verb::Net
    } else if name == "arp"@ {
        Verb::Arp
    } else if name == "ping"@ {
        Verb::Ping
    } else if name == "dstat"@ {
        Verb::Dstat
    } else if name == "dls"@ {
        Verb::Dls
    } else if name == "dcat"@ {
        Verb::Dcat
    } else if name == "dsave"@ {
        Verb::Dsave
    } else if name == "ddel"@ {
        Verb::Ddel
    } else if name == "drun"@ {
        Verb::Drun
    } else if name == "glm"@ {
        Verb::Quote
    } else {
        Verb::Unknown
    }
}

fn verb(name: &str, session: bool) -> (v: Verb)
    ensures
        v == verb_of(name@, session),
{
    if same_text(name, "help") {
        Verb::Help
    } else if same_text(name, "clear") {
        Verb::Clear
    } else if same_text(name, "echo") {
        Verb::Echo
    } else if same_text(name, "gui") {
        if session {
            Verb::Monitor
        } else {
            Verb::Desktop
        }
    } else if same_text(name, "exit") && session {
        Verb::Leave
    } else if same_text(name, "uptime") {
        Verb::Uptime
    } else if same_text(name, "halt") {
        Verb::Halt
    } else if same_text(name, "reboot") {
        Verb::Reboot
    } else if same_text(name, "about") {
        Verb::About
    } else if same_text(name, "mem") {
        Verb::Mem
    } else if same_text(name, "paging") {
        Verb::Paging
    } else if same_text(name, "vmm") {
        Verb::Vmm
    } else if same_text(name, "run") {
        Verb::Run
    } else if same_text(name, "spawn") {
        Verb::Spawn
    } else if same_text(name, "ps") || same_text(name, "tasks") {
        Verb::Ps
    } else {
        other_verb(name)
    }
}

fn other_verb(name: &str) -> (v: Verb)
    ensures
        v == more_verbs(name@),
{
    if same_text(name, "kill") {
        Verb::Kill
    } else if same_text(name, "ipc") {
        Verb::Ipc
    } else if same_text(name, "sleep") {
        Verb::Sleep
    } else if same_text(name, "cpu") {
        Verb::Cpu
    } else if same_text(name, "ls") {
        Verb::Ls
    } else if same_text(name, "cat") {
        Verb::Cat
    } else if same_text(name, "neofetch") {
        Verb::Neofetch
    } else if same_text(name, "mouse") {
        Verb::Mouse
    } else if same_text(name, "net") {
        Verb::Net
    } else if same_text(name, "arp") {
        Verb::Arp
    } else if same_text(name, "ping") {
        Verb::Ping
    } else if same_text(name, "dstat") {
        Verb::Dstat
    } else if same_text(name, "dls") {
        Verb::Dls
    } else if same_text(name, "dcat") {
        Verb::Dcat
    } else if same_text(name, "dsave") {
        Verb::Dsave
    } else if same_text(name, "ddel") {
        Verb::Ddel
    } else if same_text(name, "drun") {
        Verb::Drun
    } else if same_text(name, "glm") {
        Verb::Quote
    } else {
        Verb::Unknown
    }
}

/// The place of the first byte from `i` on that is a blank, or is not.
pub open spec fn blank_from(b: Seq<u8>, i: int, blank: bool) -> int
    decreases b.len() - i,
{
    if i < 0 || i >= b.len() || (b[i] == 32) == blank {
        i
    } else {
        blank_from(b, i + 1, blank)
    }
}

/// The place behind the last byte below `j` that is no blank.
pub open spec fn end_before(b: Seq<u8>, j: int) -> int
    decreases j,
{
    if j <= 0 || b[j - 1] != 32 {
        j
    } else {
        end_before(b, j - 1)
    }
}

/// A line without the blanks at its ends.
pub open spec fn stripped(line: Seq<u8>) -> Seq<u8> {
    let a = blank_from(line, 0, false);
    line.subrange(a, end_before(line, line.len() as int))
}

/// The text of some bytes; nothing, if they are none.
pub open spec fn text_or_nothing(b: Seq<u8>) -> Seq<char> {
    if vstd::utf8::valid_utf8(b) {
        vstd::utf8::decode_utf8(b)
    } else {
        Seq::empty()
    }
}

/// The name of a command, and the rest of its line.
pub open spec fn parts(line: Seq<u8>) -> (Seq<char>, Seq<char>) {
    let s = stripped(line);
    let k = blank_from(s, 0, true);
    if k < s.len() {
        (text_or_nothing(s.take(k)), crate::words::trimmed(text_or_nothing(s.skip(k + 1))))
    } else {
        (text_or_nothing(s), Seq::empty())
    }
}

/// A line with nothing but blanks.
pub open spec fn is_blank(line: Seq<u8>) -> bool {
    forall|i: int| 0 <= i < line.len() ==> line[i] == 32
}

fn find_blank(b: &[u8], from: usize, blank: bool) -> (r: usize)
    requires
        from <= b@.len(),
    ensures
        r == blank_from(b@, from as int, blank),
        from <= r <= b@.len(),
        r < b@.len() ==> (b@[r as int] == 32) == blank,
        forall|j: int| from <= j < r ==> (b@[j] == 32) != blank,
{
    let mut i: usize = from;
    while i < b.len()
        invariant
            from <= i <= b@.len(),
            blank_from(b@, i as int, blank) == blank_from(b@, from as int, blank),
            forall|j: int| from <= j < i ==> (b@[j] == 32) != blank,
        decreases b@.len() - i,
    {
        if (b[i] == 32) == blank {
            return i;
        }
        i = i + 1;
    }
    i
}

fn string_or_nothing(b: &[u8]) -> (s: String)
    ensures
        s@ == text_or_nothing(b@),
{
    match utf8_text(b) {
        Some(s) => s,
        None => {
            let s: String = String::new();
            assert(s@ =~= Seq::empty());
            s
        },
    }
}

/// Reads a command line: the command, unless the line is blank. In the
/// session of a terminal window `gui` and `exit` are for the window.
pub fn execute(line: &[u8], session: bool) -> (r: Option<Command>)
    ensures
        r is None <==> is_blank(line@),
        r matches Some(c) ==> ({
            let (name, rest) = parts(line@);
            &&& c.verb == verb_of(name, session)
            &&& c.rest@ == if c.verb == Verb::Unknown {
                name
            } else {
                rest
            }
        }),
{
    let a: usize = find_blank(line, 0, false);
    if a == line.len() {
        return None;
    }
    assert(line@[a as int] != 32);
    let mut z: usize = line.len();
    while z > a && line[z - 1] == 32
        invariant
            a < z <= line@.len(),
            a < line@.len(),
            line@[a as int] != 32,
            end_before(line@, z as int) == end_before(line@, line@.len() as int),
        decreases z,
    {
        z = z - 1;
    }
    let s: &[u8] = vstd::slice::slice_subrange(line, a, z);
    assert(s@ == stripped(line@));
    let k: usize = find_blank(s, 0, true);
    if k < s.len() {
        let name: String = string_or_nothing(vstd::slice::slice_subrange(s, 0, k));
        assert(s@.subrange(0, k as int) =~= s@.take(k as int));
        let tail: String = string_or_nothing(vstd::slice::slice_subrange(s, k + 1, s.len()));
        assert(s@.subrange(k + 1, s@.len() as int) =~= s@.skip(k + 1));
        let rest: String = text_of(trim(chars_of(tail.as_str()).as_slice()).as_slice());
        let v: Verb = verb(name.as_str(), session);
        match v {
            Verb::Unknown => Some(Command { verb: v, rest: name }),
            _ => Some(Command { verb: v, rest }),
        }
    } else {
        let name: String = string_or_nothing(s);
        let v: Verb = verb(name.as_str(), session);
        let none: String = String::new();
        assert(none@ =~= Seq::empty());
        match v {
            Verb::Unknown => Some(Command { verb: v, rest: name }),
            _ => Some(Command { verb: v, rest: none }),
        }
    }
}

} // verus!
