//! The PS/2 keyboard: scancode set 1, decoded into a queue of key events.

use vstd::prelude::*;
use vstd::string::StrSliceExecFns;

use crate::ring::ByteRing;

verus! {

/// Key events that the queue holds at most.
pub const RING_SIZE: usize = 511;

/// The keyboard: the queue, and what the scancodes so far left behind.
pub struct Keyboard {
    pub ring: ByteRing,
    /// The last scancode was the prefix of an extended key.
    pub ext: bool,
    pub shift: bool,
}

#[verifier::ext_equal]
pub struct KeyV {
    pub queue: Seq<u8>,
    pub ext: bool,
    pub shift: bool,
}

impl Keyboard {
    pub open spec fn view(&self) -> KeyV {
        KeyV { queue: self.ring@, ext: self.ext, shift: self.shift }
    }

    pub open spec fn wf(&self) -> bool {
        self.ring.wf() && self.ring.cap() == RING_SIZE
    }

    pub fn new() -> (k: Keyboard)
        ensures
            k.wf(),
            k@ == (KeyV { queue: Seq::empty(), ext: false, shift: false }),
    {
        Keyboard { ring: ByteRing::new(RING_SIZE), ext: false, shift: false }
    }
}

pub open spec fn init_writes() -> Seq<(u16, u8)> {
    seq![(0x64u16, 0xAEu8)]
}

/// The port write that enables the keyboard's port.
pub fn init() -> (w: Vec<(u16, u8)>)
    ensures
        w@ == init_writes(),
{
    let mut w: Vec<(u16, u8)> = Vec::new();
    w.push((0x64, 0xAE));
    assert(w@ =~= init_writes());
    w
}

/// The characters of the scancodes from 0 on; a question mark is no key.
pub open spec fn normal_keys() -> Seq<char> {
    "??1234567890-=??qwertyuiop[]??asdfghjkl;'`??zxcvbnm,./"@
}

/// The same with a shift key down.
pub open spec fn shifted_keys() -> Seq<char> {
    "??!@#$%^&*()_+??QWERTYUIOP{}??ASDFGHJKL:\"~??ZXCVBNM<>?"@
}

/// The character that a key gives.
pub open spec fn translate_spec(sc: u8, shift: bool) -> Option<u8> {
    if sc < 54 {
        if normal_keys()[sc as int] == '?' {
            None
        } else if shift {
            Some(shifted_keys()[sc as int] as u8)
        } else {
            Some(normal_keys()[sc as int] as u8)
        }
    } else if sc == 0x39 {
        Some(32u8)
    } else {
        None
    }
}

fn translate(sc: u8, shift: bool) -> (r: Option<u8>)
    ensures
        r == translate_spec(sc, shift),
{
    proof {
        reveal_strlit("??1234567890-=??qwertyuiop[]??asdfghjkl;'`??zxcvbnm,./");
        reveal_strlit("??!@#$%^&*()_+??QWERTYUIOP{}??ASDFGHJKL:\"~??ZXCVBNM<>?");
    }
    if sc < 54 {
        let c: char = "??1234567890-=??qwertyuiop[]??asdfghjkl;'`??zxcvbnm,./".get_char(sc as usize);
        if c == '?' {
            None
        } else if shift {
            Some("??!@#$%^&*()_+??QWERTYUIOP{}??ASDFGHJKL:\"~??ZXCVBNM<>?".get_char(sc as usize) as u8)
        } else {
            Some(c as u8)
        }
    } else if sc == 0x39 {
        Some(32)
    } else {
        None
    }
}

/// The queue with an event at its end; a full queue drops it.
pub open spec fn queued(k: KeyV, c: u8) -> KeyV {
    if k.queue.len() < RING_SIZE {
        KeyV { queue: k.queue.push(c), ..k }
    } else {
        k
    }
}

fn push(k: &mut Keyboard, c: u8)
    requires
        old(k).wf(),
    ensures
        final(k).wf(),
        final(k)@ == queued(old(k)@, c),
{
    let one: [u8; 1] = [c];
    let n: usize = k.ring.push(&one);
    assert(one@.take(1) =~= seq![c]);
    assert(k@.queue =~= queued(old(k)@, c).queue);
}

/// What a scancode does.
pub open spec fn decode_spec(k: KeyV, sc: u8) -> KeyV {
    if sc == 0xE0 {
        KeyV { ext: true, ..k }
    } else if k.ext {
        // an extended key: ignored
        KeyV { ext: false, ..k }
    } else if sc >= 0x80 {
        // a key is released
        if sc == 0xAA || sc == 0xB6 {
            KeyV { shift: false, ..k }
        } else {
            k
        }
    } else if sc == 0x2A || sc == 0x36 {
        KeyV { shift: true, ..k }
    } else if sc == 0x1C {
        queued(k, 10)
    } else if sc == 0x0E {
        queued(k, 8)
    } else if sc == 0x01 {
        queued(k, 27)
    } else {
        match translate_spec(sc, k.shift) {
            Some(c) => queued(k, c),
            None => k,
        }
    }
}

/// The keyboard's interrupt: takes the scancode in.
pub fn on_irq(k: &mut Keyboard, sc: u8)
    requires
        old(k).wf(),
    ensures
        final(k).wf(),
        final(k)@ == decode_spec(old(k)@, sc),
{
    if sc == 0xE0 {
        k.ext = true;
        return;
    }
    if k.ext {
        k.ext = false;
        return;
    }
    if sc >= 0x80 {
        if sc == 0xAA || sc == 0xB6 {
            k.shift = false;
        }
        return;
    }
    if sc == 0x2A || sc == 0x36 {
        k.shift = true;
    } else if sc == 0x1C {
        push(k, 10);
    } else if sc == 0x0E {
        push(k, 8);
    } else if sc == 0x01 {
        push(k, 27);
    } else {
        match translate(sc, k.shift) {
            Some(c) => {
                push(k, c);
            },
            None => {},
        }
    }
}

/// The oldest key event, if any.
pub fn pop(k: &mut Keyboard) -> (r: Option<u8>)
    requires
        old(k).wf(),
    ensures
        final(k).wf(),
        old(k)@.queue.len() == 0 ==> r is None && final(k)@ == old(k)@,
        old(k)@.queue.len() > 0 ==> r == Some(old(k)@.queue[0]) && final(k)@ == (KeyV {
            queue: old(k)@.queue.skip(1),
            ..old(k)@
        }),
{
    let one: Vec<u8> = k.ring.pop(1);
    if one.len() == 0 {
        assert(k@.queue =~= old(k)@.queue);
        None
    } else {
        Some(one[0])
    }
}

/// Drops every key event.
pub fn drain(k: &mut Keyboard)
    requires
        old(k).wf(),
    ensures
        final(k).wf(),
        final(k)@ == (KeyV { queue: Seq::empty(), ..old(k)@ }),
{
    let _gone: Vec<u8> = k.ring.pop(RING_SIZE);
    assert(k@.queue =~= Seq::empty());
}

/// Key events come out in the order in which they went in.
pub proof fn law_keys_in_order(k: KeyV, a: u8, b: u8)
    requires
        k.queue.len() == 0,
    ensures
        queued(queued(k, a), b).queue == seq![a, b],
{
    assert(queued(queued(k, a), b).queue =~= seq![a, b]);
}

} // verus!
