//! What keys and the mouse come to.

use vstd::prelude::*;

use crate::cpu::keyboard::KeyV;
use crate::cpu::mouse::Mouse;

verus! {

/// The letter on a key, by its scancode, row by row.
pub open spec fn letter(sc: u8) -> Option<char> {
    if sc == 0x10 {
        Some('q')
    } else if sc == 0x11 {
        Some('w')
    } else if sc == 0x12 {
        Some('e')
    } else if sc == 0x13 {
        Some('r')
    } else if sc == 0x14 {
        Some('t')
    } else if sc == 0x15 {
        Some('y')
    } else if sc == 0x16 {
        Some('u')
    } else if sc == 0x17 {
        Some('i')
    } else if sc == 0x18 {
        Some('o')
    } else if sc == 0x19 {
        Some('p')
    } else if sc == 0x1E {
        Some('a')
    } else if sc == 0x1F {
        Some('s')
    } else if sc == 0x20 {
        Some('d')
    } else if sc == 0x21 {
        Some('f')
    } else if sc == 0x22 {
        Some('g')
    } else if sc == 0x23 {
        Some('h')
    } else if sc == 0x24 {
        Some('j')
    } else if sc == 0x25 {
        Some('k')
    } else if sc == 0x26 {
        Some('l')
    } else if sc == 0x2C {
        Some('z')
    } else if sc == 0x2D {
        Some('x')
    } else if sc == 0x2E {
        Some('c')
    } else if sc == 0x2F {
        Some('v')
    } else if sc == 0x30 {
        Some('b')
    } else if sc == 0x31 {
        Some('n')
    } else if sc == 0x32 {
        Some('m')
    } else {
        None
    }
}

/// What waits after a key: the byte behind the others, of which 511 are kept.
pub open spec fn typed(k: KeyV, n: KeyV, b: u8) -> bool {
    &&& k.queue.len() < 511 ==> n.queue == k.queue.push(b)
    &&& k.queue.len() >= 511 ==> n.queue == k.queue
    &&& n.shift == k.shift && !n.ext
}

/// A letter key types its letter, with shift the capital.
pub proof fn law_letters(k: KeyV, sc: u8)
    requires
        !k.ext,
        letter(sc) is Some,
    ensures
        typed(
            k,
            crate::cpu::keyboard::decode_spec(k, sc),
            if k.shift {
                (letter(sc)->Some_0 as u8 - 32) as u8
            } else {
                letter(sc)->Some_0 as u8
            },
        ),
{
    reveal_strlit("??1234567890-=??qwertyuiop[]??asdfghjkl;'`??zxcvbnm,./");
    reveal_strlit("??!@#$%^&*()_+??QWERTYUIOP{}??ASDFGHJKL:\"~??ZXCVBNM<>?");
}

/// The digit keys, 1 to 9 and then 0, and the keys that are the same with and
/// without shift: blank, line end, backspace and escape.
pub proof fn law_other_keys(k: KeyV, sc: u8)
    requires
        !k.ext,
    ensures
        ({
            let n = crate::cpu::keyboard::decode_spec(k, sc);
            &&& 2 <= sc <= 10 && !k.shift ==> typed(k, n, (0x30 + sc - 1) as u8)
            &&& sc == 11 && !k.shift ==> typed(k, n, 0x30)
            &&& sc == 2 && k.shift ==> typed(k, n, 0x21)
            &&& sc == 0x35 ==> typed(k, n, if k.shift {
                0x3F
            } else {
                0x2F
            })
            &&& sc == 0x34 && !k.shift ==> typed(k, n, 0x2E)
            &&& sc == 0x39 ==> typed(k, n, 0x20)
            &&& sc == 0x1C ==> typed(k, n, 0x0A)
            &&& sc == 0x0E ==> typed(k, n, 0x08)
            &&& sc == 0x01 ==> typed(k, n, 0x1B)
        }),
{
    reveal_strlit("??1234567890-=??qwertyuiop[]??asdfghjkl;'`??zxcvbnm,./");
    reveal_strlit("??!@#$%^&*()_+??QWERTYUIOP{}??ASDFGHJKL:\"~??ZXCVBNM<>?");
}

/// Shift holds from the press of one of its keys to the release; letting go of
/// any other key types nothing, and a key behind the extended prefix is passed
/// over.
pub proof fn law_shift_and_prefix(k: KeyV, sc: u8)
    requires
        !k.ext,
    ensures
        crate::cpu::keyboard::decode_spec(k, 0x2A) == (KeyV { shift: true, ..k }),
        crate::cpu::keyboard::decode_spec(k, 0x36) == (KeyV { shift: true, ..k }),
        crate::cpu::keyboard::decode_spec(k, 0xAA) == (KeyV { shift: false, ..k }),
        crate::cpu::keyboard::decode_spec(k, 0xB6) == (KeyV { shift: false, ..k }),
        sc >= 0x80 && sc != 0xE0 ==> crate::cpu::keyboard::decode_spec(k, sc).queue == k.queue,
        sc != 0xE0 ==> crate::cpu::keyboard::decode_spec(crate::cpu::keyboard::decode_spec(k, 0xE0), sc) == k,
{
}

/// A packet of the mouse: three bytes. The first has the buttons in its three
/// low bits and the signs in bits 4 and 5, the others the distance to the right
/// and upwards; what waits moves by it, and downwards counts on the screen.
pub proof fn law_mouse_packet(m: Mouse, b0: u8, b1: u8, b2: u8)
    requires
        m.idx == 0,
        b0 / 8 % 2 == 1,
        b0 / 64 == 0,
        b1 != 0xFE,
        b2 != 0xFE,
        -0x4000_0000 <= m.mx <= 0x4000_0000,
        -0x4000_0000 <= m.my <= 0x4000_0000,
    ensures
        ({
            let w = crate::cpu::mouse::on_byte(
                crate::cpu::mouse::on_byte(crate::cpu::mouse::on_byte(m, b0), b1),
                b2,
            );
            &&& w.mx == m.mx + b1 - 256 * (b0 / 16 % 2)
            &&& w.my == m.my - (b2 - 256 * (b0 / 32 % 2))
            &&& w.buttons == b0 % 8
            &&& w.idx == 0
        }),
{
    assert((b0 & 0x08 == 0) == (b0 / 8 % 2 == 0) && (b0 & 0xC0 != 0) == (b0 / 64 != 0) && (b0 & 0x10 != 0) == (b0 / 16 % 2
        == 1) && (b0 & 0x20 != 0) == (b0 / 32 % 2 == 1) && b0 & 0x07 == b0 % 8) by (bit_vector);
}

/// Bytes out of step are skipped until one that can start a packet, and a
/// request to repeat starts over.
pub proof fn law_mouse_resyncs(m: Mouse, b: u8)
    ensures
        m.idx == 0 && b / 8 % 2 == 0 && b != 0xFE ==> crate::cpu::mouse::on_byte(m, b) == m,
        b == 0xFE ==> crate::cpu::mouse::on_byte(m, b).idx == 0 && crate::cpu::mouse::on_byte(m, b).mx == m.mx
            && crate::cpu::mouse::on_byte(m, b).my == m.my,
{
    assert((b & 0x08 == 0) == (b / 8 % 2 == 0)) by (bit_vector);
}

} // verus!
