//! The processors and the legacy devices around them.

pub mod apic;
pub mod gdt;
pub mod idt;
pub mod input_laws;
pub mod keyboard;
pub mod mouse;
pub mod pic;
pub mod pit;
pub mod smp;
pub mod smp_laws;

use vstd::prelude::*;

verus! {

/// Appends the writes `b` to `a`.
pub fn then_write(a: &mut Vec<(u16, u8)>, b: Vec<(u16, u8)>)
    ensures
        final(a)@ == old(a)@ + b@,
{
    let n: usize = b.len();
    let mut i: usize = 0;
    while i < n
        invariant
            n == b@.len(),
            i <= n,
            a@ == old(a)@ + b@.take(i as int),
        decreases n - i,
    {
        a.push(b[i]);
        i = i + 1;
        assert(a@ =~= old(a)@ + b@.take(i as int));
    }
    assert(b@.take(n as int) =~= b@);
}

/// The port writes that bring the interrupt controller, the timer and the
/// keyboard up, once the descriptor tables are loaded. Interrupts may be
/// enabled after them.
pub fn init() -> (w: Vec<(u16, u8)>)
    ensures
        w@ == crate::cpu::pic::init_writes() + crate::cpu::pit::init_writes() + crate::cpu::keyboard::init_writes(),
{
    let mut w = pic::init();
    then_write(&mut w, pit::init());
    then_write(&mut w, keyboard::init());
    w
}

/// The next port write of a machine reset: the reset register of the chipset
/// first, then the pulse of the keyboard controller, as soon as its status
/// says that it takes commands.
pub fn reboot(first: bool, status: u8) -> (r: Option<(u16, u8)>)
    ensures
        r == (if first {
            Some((0x0CF9u16, 0x0Eu8))
        } else if status & 0x02 == 0 {
            Some((0x64u16, 0xFEu8))
        } else {
            None
        }),
{
    if first {
        Some((0x0CF9, 0x0E))
    } else if status & 0x02 == 0 {
        Some((0x64, 0xFE))
    } else {
        None
    }
}

} // verus!
