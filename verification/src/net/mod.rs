//! Networking: protocol codecs, sockets and the network daemon's rules.
//!
//!   pci    find 8086:100e in the configuration space, enable it
//!   e1000  register values, RX/TX bookkeeping, the inbound frame queue
//!   proto  Ethernet II / ARP / IPv4 / UDP / ICMP / TCP build + parse
//!   sock   UDP sockets for ring 3
//!   tcp    stream sockets for ring 3
//!   netd   ARP cache, demultiplexing, the ping engine

use vstd::prelude::*;
use vstd::string::StringExecFns;

use crate::net::e1000::Nic;
use crate::net::pci::PciDev;
use crate::text::{push_dec, push_hex2};

pub mod e1000;
pub mod netd;
pub mod nic_laws;
pub mod pci;
pub mod proto;
pub mod sock;
pub mod tcp;
pub mod tcp_laws;
pub mod wire_laws;

verus! {

/// 10.0.2.15
pub const OUR_IP: u32 = 0x0A00_020F;

/// /24
pub const OUR_MASK: u32 = 0xFFFF_FF00;

/// 10.0.2.2
pub const GW_IP: u32 = 0x0A00_0202;

/// An address as a dotted quad.
pub open spec fn ip_text(ip: u32) -> Seq<char> {
    crate::text::dec_text((ip / 0x100_0000) as nat) + "."@ + crate::text::dec_text((ip / 0x1_0000 % 256) as nat) + "."@
        + crate::text::dec_text((ip / 256 % 256) as nat) + "."@ + crate::text::dec_text((ip % 256) as nat)
}

pub fn ip_str(ip: u32) -> (s: String)
    ensures
        s@ == ip_text(ip),
{
    let mut s = String::new();
    push_dec(&mut s, (ip / 0x100_0000) as u64);
    assert(s@ =~= crate::text::dec_text((ip / 0x100_0000) as nat));
    s.append(".");
    push_dec(&mut s, (ip / 0x1_0000 % 256) as u64);
    s.append(".");
    push_dec(&mut s, (ip / 256 % 256) as u64);
    s.append(".");
    push_dec(&mut s, (ip % 256) as u64);
    s
}

/// Did the probe find and initialize a NIC?
pub fn online(n: &Nic) -> (r: bool)
    ensures
        r == n.online,
{
    n.online
}

/// Boot facts for the console.
pub struct BootInfo {
    pub pci_slot: String,
    pub bar0_phys: u32,
    pub irq: u8,
    pub vector: u8,
}

/// Whole-subsystem bring-up, given what the probe found and whether the NIC
/// then initialized: the boot facts, or `None` when there is no working NIC.
pub fn init(dev: &Option<PciDev>, nic_up: bool) -> (r: Option<BootInfo>)
    ensures
        r is Some <==> dev is Some && nic_up,
        r matches Some(b) ==> {
            let d = dev->Some_0;
            &&& b.pci_slot@ == "00:"@ + crate::text::hex2_text(d.dev as nat, false) + "."@ + crate::text::dec_text(
                d.fun as nat,
            )
            &&& b.bar0_phys == d.bar0_phys
            &&& b.irq == d.irq
            &&& b.vector == (32 + d.irq) % 256
        },
{
    match dev {
        None => None,
        Some(d) => {
            if !nic_up {
                return None;
            }
            let mut s: String = "00:".to_owned();
            push_hex2(&mut s, d.dev as u64, false);
            s.append(".");
            push_dec(&mut s, d.fun as u64);
            Some(BootInfo { pci_slot: s, bar0_phys: d.bar0_phys, irq: d.irq, vector: d.irq.wrapping_add(32) })
        },
    }
}

} // verus!
