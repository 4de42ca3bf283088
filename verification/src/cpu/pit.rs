//! The interval timer: channel 0 in mode 3, 100 ticks a second.

use vstd::prelude::*;

verus! {

const CH0: u16 = 0x40;

const CMD: u16 = 0x43;

pub const FREQ_HZ: u64 = 100;

pub const BASE_HZ: u64 = 1_193_182;

/// The ticks since boot.
pub struct Pit {
    pub ticks: u64,
}

/// The divisor that gives the tick rate.
pub open spec fn divisor() -> u16 {
    (BASE_HZ / FREQ_HZ) as u16
}

pub open spec fn init_writes() -> Seq<(u16, u8)> {
    seq![(0x43u16, 0x36u8), (0x40u16, (divisor() % 256) as u8), (0x40u16, (divisor() / 256) as u8)]
}

/// The port writes that start the timer.
pub fn init() -> (w: Vec<(u16, u8)>)
    ensures
        w@ == init_writes(),
{
    let d: u16 = (BASE_HZ / FREQ_HZ) as u16;
    let mut w: Vec<(u16, u8)> = Vec::new();
    w.push((CMD, 0x36));
    w.push((CH0, (d % 256) as u8));
    w.push((CH0, (d / 256) as u8));
    assert(w@ =~= init_writes());
    w
}

/// Counts one tick.
pub fn tick(p: &mut Pit)
    ensures
        final(p).ticks == old(p).ticks.wrapping_add(1),
{
    p.ticks = p.ticks.wrapping_add(1);
}

/// The ticks since boot.
pub fn ticks(p: &Pit) -> (r: u64)
    ensures
        r == p.ticks,
{
    p.ticks
}

/// The time since boot in milliseconds: a tick is ten.
pub fn uptime_ms(p: &Pit) -> (r: u64)
    ensures
        r == p.ticks.wrapping_mul(10),
        p.ticks * 10 <= u64::MAX ==> r == p.ticks * 10,
{
    p.ticks.wrapping_mul(10)
}

} // verus!
