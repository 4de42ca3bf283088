//! The local APIC: set-up, end of interrupt, and the timer that drives the
//! scheduler of each processor.
//!
//! The legacy interrupt controllers keep the interval timer and the keyboard,
//! routed through the first local interrupt line.

use vstd::prelude::*;

use crate::mem::vmm::{map_kernel_page, Memory, LAPIC_VIRT};

verus! {

/// The vector of the timer.
pub const TIMER_VECTOR: u8 = 0x60;

/// The vector of spurious interrupts.
pub const SPURIOUS_VECTOR: u8 = 0xFF;

/// Scheduler ticks a second.
pub const SCHED_HZ: u64 = 250;

pub const REG_ID: u64 = 0x020;

pub const REG_EOI: u64 = 0x0B0;

pub const REG_SPURIOUS: u64 = 0x0F0;

pub const REG_LVT_TIMER: u64 = 0x320;

pub const REG_LVT_LINT0: u64 = 0x350;

pub const REG_LVT_LINT1: u64 = 0x360;

pub const REG_TIMER_ICR: u64 = 0x380;

pub const REG_TIMER_CCR: u64 = 0x390;

pub const REG_TIMER_DCR: u64 = 0x3E0;

pub const LVT_MASK: u32 = 0x1_0000;

pub const LVT_PERIODIC: u32 = 0x2_0000;

/// Flags of the page that the registers are mapped with: present, writable,
/// not cached.
pub const MMIO_FLAGS: u64 = 0x13;

/// The local APIC.
pub struct Apic {
    /// Physical address of the registers.
    pub base: u64,
    pub online: bool,
}

impl Apic {
    pub fn new() -> (a: Apic)
        ensures
            a == (Apic { base: 0, online: false }),
    {
        Apic { base: 0, online: false }
    }
}

/// Whether the APIC was enabled.
pub fn online(a: &Apic) -> (r: bool)
    ensures
        r == a.online,
{
    a.online
}

/// The register write that ends an interrupt, once the APIC is on.
pub fn eoi(a: &Apic) -> (w: Option<(u64, u32)>)
    ensures
        w == (if a.online {
            Some((REG_EOI, 0u32))
        } else {
            None
        }),
{
    if a.online {
        Some((REG_EOI, 0))
    } else {
        None
    }
}

/// The address of the registers that the base register names, if the APIC is
/// there; the architectural default if it names none.
pub open spec fn base_of(msr: u64) -> Option<u64> {
    if msr & 0x800 == 0 {
        None
    } else if msr & 0x000F_FFFF_FFF0_0000 == 0 {
        Some(0xFEE0_0000u64)
    } else {
        Some(msr & 0x000F_FFFF_FFF0_0000)
    }
}

/// Finds the APIC by the value of its base register and maps its registers
/// into the kernel half. True if the set-up goes on; false leaves the kernel
/// on the legacy controllers.
pub fn init(a: &mut Apic, m: &mut Memory, msr: u64) -> (r: bool)
    requires
        old(m).wf(),
    ensures
        final(m).wf(),
        final(a).online == old(a).online,
        match base_of(msr) {
            None => !r && *final(a) == *old(a) && final(m)@ == old(m)@,
            Some(b) => {
                let (m1, x) = crate::mem::vmm::map_kernel_spec(old(m)@, LAPIC_VIRT, b, MMIO_FLAGS);
                final(a).base == b && final(m)@ == m1 && r == (x is Ok)
            },
        },
{
    if msr & 0x800 == 0 {
        return false;
    }
    let mut base: u64 = msr & 0x000F_FFFF_FFF0_0000;
    if base == 0 {
        base = 0xFEE0_0000;
    }
    a.base = base;
    match map_kernel_page(m, LAPIC_VIRT, base, MMIO_FLAGS) {
        Ok(_) => true,
        Err(_) => false,
    }
}

/// The identifier in the identifier register.
pub fn id_of(reg: u32) -> (r: u32)
    ensures
        r == reg / 0x100_0000,
{
    reg / 0x100_0000
}

/// The register writes that enable the APIC, route the legacy controllers to
/// the processor and start the count by which the timer is calibrated; `spr`
/// is what the spurious-vector register held.
pub fn enable(spr: u32) -> (w: Vec<(u64, u32)>)
    ensures
        w@ == seq![
            (REG_SPURIOUS, (spr & !0xFFu32) | 0xFF | 0x100),
            (REG_LVT_LINT0, 0x700u32),
            (REG_LVT_LINT1, LVT_MASK),
            (REG_TIMER_DCR, 0x3u32),
            (REG_LVT_TIMER, 0x1_0060u32),
            (REG_TIMER_ICR, 0xFFFF_FFFFu32),
        ],
{
    let mut w: Vec<(u64, u32)> = Vec::new();
    w.push((REG_SPURIOUS, (spr & !0xFFu32) | 0xFF | 0x100));
    w.push((REG_LVT_LINT0, 0x700));
    w.push((REG_LVT_LINT1, LVT_MASK));
    w.push((REG_TIMER_DCR, 0x3));
    w.push((REG_LVT_TIMER, 0x1_0060));
    w.push((REG_TIMER_ICR, 0xFFFF_FFFF));
    assert(w@ =~= seq![
        (REG_SPURIOUS, (spr & !0xFFu32) | 0xFF | 0x100),
        (REG_LVT_LINT0, 0x700u32),
        (REG_LVT_LINT1, LVT_MASK),
        (REG_TIMER_DCR, 0x3u32),
        (REG_LVT_TIMER, 0x1_0060u32),
        (REG_TIMER_ICR, 0xFFFF_FFFFu32),
    ]);
    w
}

/// Whether the calibration has run its ten ticks of the interval timer.
pub fn calibrated(t0: u64, now: u64) -> (r: bool)
    ensures
        r == (now >= t0 + 10),
{
    now >= t0 && now - t0 >= 10
}

/// The counts of a scheduler tick, from those that drained in a tenth of a
/// second; never fewer than sixteen.
pub open spec fn counts_per_tick(counts: u32) -> u32 {
    let n = counts as int * 10 / (SCHED_HZ as int);
    if n < 16 {
        16
    } else {
        n as u32
    }
}

/// Ends the calibration, with the count that was left, and gives the register
/// writes that stop the count and start the periodic timer. The APIC is on.
pub fn start_timer(a: &mut Apic, ccr: u32) -> (w: Vec<(u64, u32)>)
    ensures
        *final(a) == (Apic { online: true, ..*old(a) }),
        w@ == seq![
            (REG_TIMER_ICR, 0u32),
            (REG_LVT_TIMER, 0x2_0060u32),
            (REG_TIMER_ICR, counts_per_tick((0xFFFF_FFFF - ccr) as u32)),
        ],
{
    let counts: u32 = 0xFFFF_FFFF - ccr;
    let n: u64 = counts as u64 * 10 / SCHED_HZ;
    let per_tick: u32 = if n < 16 {
        16
    } else {
        n as u32
    };
    a.online = true;
    let mut w: Vec<(u64, u32)> = Vec::new();
    w.push((REG_TIMER_ICR, 0));
    w.push((REG_LVT_TIMER, 0x2_0060));
    w.push((REG_TIMER_ICR, per_tick));
    assert(w@ =~= seq![
        (REG_TIMER_ICR, 0u32),
        (REG_LVT_TIMER, 0x2_0060u32),
        (REG_TIMER_ICR, counts_per_tick((0xFFFF_FFFF - ccr) as u32)),
    ]);
    w
}

} // verus!
