//! The 8259 interrupt controllers, remapped to the vectors 0x20 and 0x28.

use vstd::prelude::*;

verus! {

pub const MASTER_BASE: u8 = 0x20;

pub const SLAVE_BASE: u8 = 0x28;

const CMD_MASTER: u16 = 0x20;

const CMD_SLAVE: u16 = 0xA0;

const DATA_MASTER: u16 = 0x21;

const DATA_SLAVE: u16 = 0xA1;

/// A write, and the short delay that legacy devices need.
pub open spec fn slow(port: u16, value: u8) -> Seq<(u16, u8)> {
    seq![(port, value), (0x80u16, 0u8)]
}

/// The initialisation words of both controllers, then the masks: the timer,
/// the keyboard and the cascade line are open.
pub open spec fn init_writes() -> Seq<(u16, u8)> {
    slow(0x20, 0x11) + slow(0xA0, 0x11) + slow(0x21, MASTER_BASE) + slow(0xA1, SLAVE_BASE) + slow(0x21, 0x04) + slow(
        0xA1,
        0x02,
    ) + slow(0x21, 0x01) + slow(0xA1, 0x01) + seq![(0x21u16, 0xF8u8), (0xA1u16, 0xFFu8)]
}

fn push_slow(w: &mut Vec<(u16, u8)>, port: u16, value: u8)
    ensures
        final(w)@ == old(w)@ + slow(port, value),
{
    w.push((port, value));
    w.push(crate::io::ports::io_wait());
    assert(w@ =~= old(w)@ + slow(port, value));
}

/// The port writes that set the controllers up.
pub fn init() -> (w: Vec<(u16, u8)>)
    ensures
        w@ == init_writes(),
{
    let mut w: Vec<(u16, u8)> = Vec::new();
    push_slow(&mut w, CMD_MASTER, 0x11);
    push_slow(&mut w, CMD_SLAVE, 0x11);
    push_slow(&mut w, DATA_MASTER, MASTER_BASE);
    push_slow(&mut w, DATA_SLAVE, SLAVE_BASE);
    push_slow(&mut w, DATA_MASTER, 0x04);
    push_slow(&mut w, DATA_SLAVE, 0x02);
    push_slow(&mut w, DATA_MASTER, 0x01);
    push_slow(&mut w, DATA_SLAVE, 0x01);
    w.push((DATA_MASTER, 0xF8));
    w.push((DATA_SLAVE, 0xFF));
    assert(w@ =~= init_writes());
    w
}

/// The end-of-interrupt write to the master.
pub fn eoi_master() -> (w: (u16, u8))
    ensures
        w == (0x20u16, 0x20u8),
{
    (CMD_MASTER, 0x20)
}

/// The end-of-interrupt write to the slave.
pub fn eoi_slave() -> (w: (u16, u8))
    ensures
        w == (0xA0u16, 0x20u8),
{
    (CMD_SLAVE, 0x20)
}

/// Whether the in-service register of the master, read after the command 0x0B,
/// has bit 7 set; a line-7 interrupt without it is spurious.
pub fn isr_master_bit7(isr: u8) -> (r: bool)
    ensures
        r == (isr & 0x80 != 0),
{
    isr & 0x80 != 0
}

/// The same for the slave.
pub fn isr_slave_bit7(isr: u8) -> (r: bool)
    ensures
        r == (isr & 0x80 != 0),
{
    isr & 0x80 != 0
}

} // verus!
