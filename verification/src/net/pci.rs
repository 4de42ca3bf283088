//! PCI configuration space probe: find the NIC, wire it up.
//!
//! The 82540EM sits on bus 0. The probe walks device/function 0, matches
//! vendor:device against 8086:100e, captures BAR0 and the firmware-routed IRQ
//! line, and says how the command register has to be set to enable memory
//! decoding and bus mastering.

use vstd::prelude::*;

verus! {

pub const CFG_ADDR: u16 = 0xCF8;

pub const CFG_DATA: u16 = 0xCFC;

pub const VENDOR_INTEL: u16 = 0x8086;

/// 82540EM.
pub const DEVICE_E1000: u16 = 0x100E;

/// Everything the rest of the stack needs to know about the NIC slot.
#[derive(Clone, Copy, PartialEq, Eq, Structural)]
pub struct PciDev {
    pub bus: u8,
    pub dev: u8,
    pub fun: u8,
    pub vendor: u16,
    pub device: u16,
    /// BAR0: 32-bit MMIO base (physical).
    pub bar0_phys: u32,
    /// ISA IRQ the firmware routed this device to (config 0x3C).
    pub irq: u8,
}

/// The words of one slot's configuration header that the probe reads:
/// offsets 0x00, 0x04, 0x10 and 0x3C.
#[derive(Clone, Copy, PartialEq, Eq, Structural)]
pub struct SlotHeader {
    pub id: u32,
    pub command: u32,
    pub bar0: u32,
    pub int_line: u32,
}

/// The CONFIG_ADDRESS word of the dword at `off` of a function: the enable
/// bit, then bus, device, function and the dword-aligned offset.
pub fn cfg_address(bus: u8, dev: u8, fun: u8, off: u8) -> (r: u32)
    requires
        dev < 32,
        fun < 8,
    ensures
        r == 0x8000_0000 + bus * 0x1_0000 + dev * 0x800 + fun * 0x100 + (off / 4) * 4,
{
    0x8000_0000u32 + bus as u32 * 0x1_0000 + dev as u32 * 0x800 + fun as u32 * 0x100 + (off / 4) as u32 * 4
}

/// Whether a slot holds an e1000 with a memory BAR0.
pub open spec fn is_e1000(h: SlotHeader) -> bool {
    &&& h.id % 0x1_0000 == VENDOR_INTEL
    &&& h.id / 0x1_0000 == DEVICE_E1000
    &&& h.bar0 % 2 == 0
}

pub open spec fn e1000_slot() -> spec_fn(SlotHeader) -> bool {
    |h: SlotHeader| is_e1000(h)
}

/// What the probe takes from slot `dev`.
pub open spec fn e1000_at(dev: int, h: SlotHeader) -> PciDev {
    PciDev {
        bus: 0,
        dev: dev as u8,
        fun: 0,
        vendor: VENDOR_INTEL,
        device: DEVICE_E1000,
        bar0_phys: (h.bar0 / 16 * 16) as u32,
        irq: (h.int_line % 256) as u8,
    }
}

/// The command register with memory decoding and bus mastering enabled.
pub open spec fn enabled_command(command: u32) -> u32 {
    (command % 0x1_0000) as u32 | 6u32
}

/// Scan the 32 slots of bus 0 for the e1000: the device and the command
/// register value to write back to it.
pub fn probe(slots: &[SlotHeader]) -> (r: Option<(PciDev, u32)>)
    requires
        slots@.len() == 32,
    ensures
        match crate::seqs::first(slots@, e1000_slot()) {
            Some(i) => r == Some((e1000_at(i, slots@[i]), enabled_command(slots@[i].command))),
            None => r is None,
        },
{
    let mut dev: usize = 0;
    while dev < 32
        invariant
            dev <= 32,
            slots@.len() == 32,
            crate::seqs::first_from(slots@, e1000_slot(), dev as int) == crate::seqs::first(slots@, e1000_slot()),
        decreases 32 - dev,
    {
        let h: SlotHeader = slots[dev];
        let vendor: u16 = (h.id % 0x1_0000) as u16;
        let device: u16 = (h.id / 0x1_0000) as u16;
        if vendor == VENDOR_INTEL && device == DEVICE_E1000 && h.bar0 % 2 == 0 {
            let d = PciDev {
                bus: 0,
                dev: dev as u8,
                fun: 0,
                vendor,
                device,
                bar0_phys: h.bar0 / 16 * 16,
                irq: (h.int_line % 256) as u8,
            };
            return Some((d, (h.command % 0x1_0000) | 6));
        }
        dev = dev + 1;
    }
    None
}

} // verus!
