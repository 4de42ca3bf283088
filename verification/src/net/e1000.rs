//! Intel 82540EM driver logic: register values, ring bookkeeping, counters
//! and the inbound frame queue. The register file itself is read and written
//! by the caller; values come in and go out as plain words.

use std::collections::VecDeque;

use vstd::prelude::*;
use vstd::slice::{slice_subrange, slice_to_vec};
use vstd::string::StringExecFns;

use crate::net::pci::PciDev;
use crate::text::push_hex2;

verus! {

/// Fixed kernel address of the 128 KiB BAR0 window.
pub const E1000_VIRT: u64 = 0xFFFF_FFFF_FE00_0000;

pub const MMIO_PAGES: usize = 32;

pub const REG_CTRL: u32 = 0x0000;

pub const REG_STATUS: u32 = 0x0008;

pub const REG_ICR: u32 = 0x00C0;

pub const REG_IMS: u32 = 0x00D0;

pub const REG_RCTL: u32 = 0x0100;

pub const REG_TCTL: u32 = 0x0400;

pub const REG_RDBAL: u32 = 0x2800;

pub const REG_RDBAH: u32 = 0x2804;

pub const REG_RDLEN: u32 = 0x2808;

pub const REG_RDH: u32 = 0x2810;

pub const REG_RDT: u32 = 0x2818;

pub const REG_TDBAL: u32 = 0x3800;

pub const REG_TDBAH: u32 = 0x3804;

pub const REG_TDLEN: u32 = 0x3808;

pub const REG_TDH: u32 = 0x3810;

pub const REG_TDT: u32 = 0x3818;

pub const REG_MTA: u32 = 0x5200;

pub const REG_RAL: u32 = 0x5400;

pub const REG_RAH: u32 = 0x5404;

/// CTRL.RST
pub const CTRL_RST: u32 = 0x400_0000;

/// CTRL.SLU
pub const CTRL_SLU: u32 = 0x40;

/// ICR/IMS bits: link status change, receive.
pub const ICR_LSC: u32 = 0x04;

pub const ICR_RXDW: u32 = 0x80;

pub const RING_RX: usize = 32;

pub const RING_TX: usize = 16;

/// RX buffer size fixed by RCTL.BSIZE=00.
pub const RX_BUF: usize = 2048;

/// Frames that the inbound queue holds at most.
pub const RXQ_CAP: usize = 31;

/// EOP | IFCS | RS
pub const TX_CMD: u8 = 0x0B;

/// The driver's state outside the register file.
pub struct Nic {
    pub online: bool,
    pub irq_n: u64,
    pub irq_kicks: u64,
    pub rx_total: u64,
    pub tx_total: u64,
    pub dropped: u64,
    pub next_rx: usize,
    pub rxq: VecDeque<Vec<u8>>,
}

/// The frames in a queue.
pub open spec fn frames_of(q: Seq<Vec<u8>>) -> Seq<Seq<u8>> {
    q.map_values(|f: Vec<u8>| f@)
}

impl Nic {
    pub open spec fn wf(&self) -> bool {
        &&& self.next_rx < RING_RX
        &&& self.rxq@.len() <= RXQ_CAP
        &&& forall|i: int| 0 <= i < self.rxq@.len() ==> (#[trigger] self.rxq@[i])@.len() <= RX_BUF
    }

    /// The driver before the NIC is brought up.
    pub fn new() -> (n: Nic)
        ensures
            n.wf(),
            !n.online,
            frames_of(n.rxq@) == Seq::<Seq<u8>>::empty(),
            n.irq_n == 0 && n.irq_kicks == 0 && n.rx_total == 0 && n.tx_total == 0 && n.dropped == 0,
    {
        let n = Nic {
            online: false,
            irq_n: 0,
            irq_kicks: 0,
            rx_total: 0,
            tx_total: 0,
            dropped: 0,
            next_rx: 0,
            rxq: VecDeque::new(),
        };
        assert(frames_of(n.rxq@) =~= Seq::<Seq<u8>>::empty());
        n
    }
}

/// Interrupts, frames received, frames sent, frames dropped, RX kicks.
pub fn counters(n: &Nic) -> (r: (u64, u64, u64, u64, u64))
    ensures
        r == (n.irq_n, n.rx_total, n.tx_total, n.dropped, n.irq_kicks),
{
    (n.irq_n, n.rx_total, n.tx_total, n.dropped, n.irq_kicks)
}

pub fn online(n: &Nic) -> (r: bool)
    ensures
        r == n.online,
{
    n.online
}

/// The station address held in the RAL/RAH registers.
pub open spec fn mac_of(ral: u32, rah: u32) -> Seq<u8> {
    seq![
        (ral % 256) as u8,
        (ral / 256 % 256) as u8,
        (ral / 0x1_0000 % 256) as u8,
        (ral / 0x100_0000) as u8,
        (rah % 256) as u8,
        (rah / 256 % 256) as u8,
    ]
}

pub fn mac(ral: u32, rah: u32) -> (m: [u8; 6])
    ensures
        m@ == mac_of(ral, rah),
{
    let m: [u8; 6] = [
        (ral % 256) as u8,
        (ral / 256 % 256) as u8,
        (ral / 0x1_0000 % 256) as u8,
        (ral / 0x100_0000) as u8,
        (rah % 256) as u8,
        (rah / 256 % 256) as u8,
    ];
    assert(m@ =~= mac_of(ral, rah));
    m
}

/// An address as six upper-case hexadecimal pairs between colons.
pub open spec fn mac_text(m: Seq<u8>) -> Seq<char> {
    crate::text::hex2_text(m[0] as nat, true) + ":"@ + crate::text::hex2_text(m[1] as nat, true) + ":"@
        + crate::text::hex2_text(m[2] as nat, true) + ":"@ + crate::text::hex2_text(m[3] as nat, true) + ":"@
        + crate::text::hex2_text(m[4] as nat, true) + ":"@ + crate::text::hex2_text(m[5] as nat, true)
}

pub fn mac_str(m: &[u8; 6]) -> (s: String)
    ensures
        s@ == mac_text(m@),
{
    let mut s = String::new();
    push_hex2(&mut s, m[0] as u64, true);
    assert(s@ =~= crate::text::hex2_text(m@[0] as nat, true));
    s.append(":");
    push_hex2(&mut s, m[1] as u64, true);
    s.append(":");
    push_hex2(&mut s, m[2] as u64, true);
    s.append(":");
    push_hex2(&mut s, m[3] as u64, true);
    s.append(":");
    push_hex2(&mut s, m[4] as u64, true);
    s.append(":");
    push_hex2(&mut s, m[5] as u64, true);
    s
}

/// STATUS.LU
pub fn link_up(status: u32) -> (r: bool)
    ensures
        r == (status / 2 % 2 == 1),
{
    status / 2 % 2 == 1
}

/// The interrupt vector of a NIC: 32 plus its line; 0 without one.
pub open spec fn vector_of(dev: Option<PciDev>) -> u8 {
    match dev {
        Some(d) => ((32 + d.irq) % 256) as u8,
        None => 0,
    }
}

pub fn nic_vector(dev: &Option<PciDev>) -> (v: u8)
    ensures
        v == vector_of(*dev),
{
    match dev {
        Some(d) => d.irq.wrapping_add(32),
        None => 0,
    }
}

/// Is vector `v` the NIC's?
pub fn is_our_vector(n: &Nic, dev: &Option<PciDev>, v: u64) -> (r: bool)
    ensures
        r == (n.online && v == vector_of(*dev)),
{
    n.online && v == nic_vector(dev) as u64
}

/// Interrupt bookkeeping for the cause word that the NIC gave: only counts,
/// the ring is drained elsewhere.
pub fn on_irq(n: &mut Nic, icr: u32)
    ensures
        *final(n) == (Nic {
            irq_n: ((old(n).irq_n + 1) % 0x1_0000_0000_0000_0000) as u64,
            irq_kicks: if icr / ICR_RXDW % 2 == 1 {
                ((old(n).irq_kicks + 1) % 0x1_0000_0000_0000_0000) as u64
            } else {
                old(n).irq_kicks
            },
            ..*old(n)
        }),
{
    n.irq_n = n.irq_n.wrapping_add(1);
    if icr / ICR_RXDW % 2 == 1 {
        n.irq_kicks = n.irq_kicks.wrapping_add(1);
    }
}

// ---------------------------------------------------------------------------
// Bring-up
// ---------------------------------------------------------------------------
/// The virtual and physical address of the `i`-th page of the BAR0 window.
pub open spec fn window_page(bar0: u32, i: int) -> (u64, u64) {
    ((E1000_VIRT + i * 4096) as u64, (bar0 + i * 4096) as u64)
}

/// The page mappings that the BAR0 window needs.
pub fn window_pages(bar0: u32) -> (v: Vec<(u64, u64)>)
    ensures
        v@ == Seq::new(MMIO_PAGES as nat, |i: int| window_page(bar0, i)),
{
    let mut v: Vec<(u64, u64)> = Vec::new();
    let mut i: usize = 0;
    while i < MMIO_PAGES
        invariant
            i <= MMIO_PAGES,
            v@ == Seq::new(i as nat, |j: int| window_page(bar0, j)),
        decreases MMIO_PAGES - i,
    {
        v.push((E1000_VIRT + i as u64 * 4096, bar0 as u64 + i as u64 * 4096));
        i = i + 1;
        assert(v@ =~= Seq::new(i as nat, |j: int| window_page(bar0, j)));
    }
    v
}

/// CTRL with a reset requested.
pub fn ctrl_reset(ctrl: u32) -> (r: u32)
    ensures
        r == ctrl | CTRL_RST,
{
    ctrl | CTRL_RST
}

/// Whether the reset bit has cleared itself.
pub fn reset_done(ctrl: u32) -> (r: bool)
    ensures
        r == (ctrl / CTRL_RST % 2 == 0),
{
    ctrl / CTRL_RST % 2 == 0
}

/// CTRL with the link forced up.
pub fn ctrl_link(ctrl: u32) -> (r: u32)
    ensures
        r == ctrl | CTRL_SLU,
{
    ctrl | CTRL_SLU
}

/// A NIC without an address of its own gets 47:4C:4D:00:00:01, with the
/// address-valid bit, in RAL/RAH.
pub open spec fn mac_writes(m: Seq<u8>) -> Seq<(u32, u32)> {
    if m[0] == 0 && m[1] == 0 && m[2] == 0 {
        seq![(REG_RAL, 0x004D_4C47u32), (REG_RAH, 0x8000_0100u32)]
    } else {
        Seq::empty()
    }
}

/// The multicast filter is cleared.
pub open spec fn mta_writes(n: nat) -> Seq<(u32, u32)> {
    Seq::new(n, |i: int| ((REG_MTA + i * 4) as u32, 0u32))
}

/// The register writes that set up the transmit ring at `tx_ring`.
pub open spec fn tx_writes(tx_ring: u64) -> Seq<(u32, u32)> {
    seq![
        (REG_TDBAL, (tx_ring % 0x1_0000_0000) as u32),
        (REG_TDBAH, (tx_ring / 0x1_0000_0000) as u32),
        (REG_TDLEN, 256u32),
        (REG_TDH, 0u32),
        (REG_TDT, 0u32),
        (REG_TCTL, 0x0400_00FAu32),
    ]
}

/// The register writes that set up the receive ring at `rx_ring` and enable
/// receiving.
pub open spec fn rx_writes(rx_ring: u64) -> Seq<(u32, u32)> {
    seq![
        (REG_RDBAL, (rx_ring % 0x1_0000_0000) as u32),
        (REG_RDBAH, (rx_ring / 0x1_0000_0000) as u32),
        (REG_RDLEN, 512u32),
        (REG_RDH, 0u32),
        (REG_RDT, 31u32),
        (REG_RCTL, 0x06u32),
    ]
}

/// Everything that is written to the register file after the reset, in order.
pub open spec fn program_writes(m: Seq<u8>, rx_ring: u64, tx_ring: u64) -> Seq<(u32, u32)> {
    mac_writes(m) + mta_writes(128) + tx_writes(tx_ring) + rx_writes(rx_ring)
}

/// Bring-up after the reset, with the address `m` that the NIC came up with
/// and the physical addresses of the two rings: the register writes in order.
pub fn init(m: &[u8; 6], rx_ring: u64, tx_ring: u64) -> (w: Vec<(u32, u32)>)
    ensures
        w@ == program_writes(m@, rx_ring, tx_ring),
{
    let mut w: Vec<(u32, u32)> = Vec::new();
    if m[0] == 0 && m[1] == 0 && m[2] == 0 {
        w.push((REG_RAL, 0x004D_4C47));
        w.push((REG_RAH, 0x8000_0100));
    }
    assert(w@ =~= mac_writes(m@));
    let mut i: u32 = 0;
    while i < 128
        invariant
            i <= 128,
            w@ == mac_writes(m@) + mta_writes(i as nat),
        decreases 128 - i,
    {
        w.push((REG_MTA + i * 4, 0));
        i = i + 1;
        assert(w@ =~= mac_writes(m@) + mta_writes(i as nat));
    }
    w.push((REG_TDBAL, (tx_ring % 0x1_0000_0000) as u32));
    w.push((REG_TDBAH, (tx_ring / 0x1_0000_0000) as u32));
    w.push((REG_TDLEN, 256));
    w.push((REG_TDH, 0));
    w.push((REG_TDT, 0));
    // EN | PSP | CT = 0x0F | COLD = 0x40
    w.push((REG_TCTL, 0x0400_00FA));
    w.push((REG_RDBAL, (rx_ring % 0x1_0000_0000) as u32));
    w.push((REG_RDBAH, (rx_ring / 0x1_0000_0000) as u32));
    w.push((REG_RDLEN, 512));
    w.push((REG_RDH, 0));
    w.push((REG_RDT, 31));
    // EN | SBP, BSIZE = 00: 2048-byte buffers
    w.push((REG_RCTL, 0x06));
    assert(w@ =~= program_writes(m@, rx_ring, tx_ring));
    w
}

/// The buffer address of each receive descriptor.
pub fn rx_buffers(rxb: u64) -> (v: Vec<u64>)
    requires
        rxb <= 0x000F_FFFF_FFFF_F000,
    ensures
        v@ == Seq::new(RING_RX as nat, |i: int| (rxb + i * RX_BUF) as u64),
{
    let mut v: Vec<u64> = Vec::new();
    let mut i: usize = 0;
    while i < RING_RX
        invariant
            i <= RING_RX,
            rxb <= 0x000F_FFFF_FFFF_F000,
            v@ == Seq::new(i as nat, |j: int| (rxb + j * RX_BUF) as u64),
        decreases RING_RX - i,
    {
        v.push(rxb + i as u64 * RX_BUF as u64);
        i = i + 1;
        assert(v@ =~= Seq::new(i as nat, |j: int| (rxb + j * RX_BUF) as u64));
    }
    v
}

/// Whether an IRQ line can be unmasked for the NIC.
pub fn irq_usable(irq: u8) -> (r: bool)
    ensures
        r == (3 <= irq <= 15),
{
    3 <= irq && irq <= 15
}

// ---------------------------------------------------------------------------
// TX
// ---------------------------------------------------------------------------
/// How a frame goes out: the descriptor slot, the buffer address and length,
/// and the tail register value that hands it over.
#[derive(Clone, Copy, PartialEq, Eq, Structural)]
pub struct TxPlan {
    pub slot: usize,
    pub addr: u64,
    pub len: u16,
    pub next_tail: u32,
}

/// Send one ethernet frame: the descriptor to fill given the tail register,
/// or `None` when the NIC is down or the frame is empty or too long.
pub fn send_frame(n: &Nic, frame: &[u8], tdt: u32, tx_buf: u64) -> (r: Option<TxPlan>)
    requires
        tx_buf <= 0x000F_FFFF_FFFF_F000,
    ensures
        r is Some <==> n.online && 0 < frame@.len() <= RX_BUF,
        r matches Some(p) ==> {
            &&& p.slot == tdt % 16
            &&& p.addr == tx_buf + (tdt % 16) * 2048
            &&& p.len == frame@.len()
            &&& p.next_tail == (tdt % 16 + 1) % 16
        },
{
    if !n.online || frame.len() == 0 || frame.len() > RX_BUF {
        return None;
    }
    let slot: usize = (tdt % 16) as usize;
    Some(
        TxPlan {
            slot,
            addr: tx_buf + slot as u64 * RX_BUF as u64,
            len: frame.len() as u16,
            next_tail: (tdt % 16 + 1) % 16,
        },
    )
}

/// The end of a transmission: a descriptor that reports done is counted.
pub fn send_done(n: &mut Nic, status: u8) -> (r: bool)
    ensures
        r == (status % 2 == 1),
        *final(n) == (Nic {
            tx_total: if status % 2 == 1 {
                ((old(n).tx_total + 1) % 0x1_0000_0000_0000_0000) as u64
            } else {
                old(n).tx_total
            },
            ..*old(n)
        }),
{
    if status % 2 == 1 {
        n.tx_total = n.tx_total.wrapping_add(1);
        return true;
    }
    false
}

// ---------------------------------------------------------------------------
// RX
// ---------------------------------------------------------------------------
/// A receive descriptor with its buffer.
pub struct RxDesc {
    pub status: u8,
    pub len: u16,
    pub data: Vec<u8>,
}

/// The bytes that a completed descriptor holds.
pub open spec fn desc_frame(d: RxDesc) -> Seq<u8> {
    d.data@.take(if d.len < RX_BUF { d.len as int } else { RX_BUF as int })
}

/// Where the ring stands after `k` descriptors from `next`.
pub open spec fn ring_pos(next: int, k: int) -> int {
    if next + k < RING_RX {
        next + k
    } else {
        next + k - RING_RX
    }
}

/// How many descriptors from position `next + k` on are completed without a
/// gap, at most up to a full round.
pub open spec fn done_run(ring: Seq<RxDesc>, next: int, k: int) -> int
    decreases RING_RX - k,
{
    if k < 0 || k >= RING_RX || ring[ring_pos(next, k)].status % 2 == 0 {
        0
    } else {
        1 + done_run(ring, next, k + 1)
    }
}

/// The queue after `k` completed descriptors went in: full means dropped.
pub open spec fn queued(q: Seq<Seq<u8>>, ring: Seq<RxDesc>, next: int, k: int) -> Seq<Seq<u8>>
    decreases k,
{
    if k <= 0 {
        q
    } else {
        let p = queued(q, ring, next, k - 1);
        if p.len() < RXQ_CAP {
            p.push(desc_frame(ring[ring_pos(next, k - 1)]))
        } else {
            p
        }
    }
}

/// Walk the RX ring, move every completed frame into the queue, hand each
/// descriptor back. Returns the number of frames moved.
pub fn poll_drain(n: &mut Nic, ring: &mut Vec<RxDesc>) -> (moved: usize)
    requires
        old(n).wf(),
        old(ring)@.len() == RING_RX,
        forall|i: int| 0 <= i < RING_RX ==> (#[trigger] old(ring)@[i]).data@.len() == RX_BUF,
    ensures
        final(n).wf(),
        final(ring)@.len() == RING_RX,
        ({
            let run = done_run(old(ring)@, old(n).next_rx as int, 0);
            let q = queued(frames_of(old(n).rxq@), old(ring)@, old(n).next_rx as int, run);
            &&& frames_of(final(n).rxq@) == q
            &&& moved == q.len() - old(n).rxq@.len()
            &&& final(n).next_rx == ring_pos(old(n).next_rx as int, run)
            &&& final(n).rx_total == (old(n).rx_total + moved) % 0x1_0000_0000_0000_0000
            &&& final(n).dropped == (old(n).dropped + (run - moved)) % 0x1_0000_0000_0000_0000
            &&& final(n).online == old(n).online
            &&& final(n).irq_n == old(n).irq_n
            &&& final(n).irq_kicks == old(n).irq_kicks
            &&& final(n).tx_total == old(n).tx_total
            &&& forall|k: int|
                0 <= k < RING_RX ==> (#[trigger] final(ring)@[ring_pos(old(n).next_rx as int, k)]).status == if k < run {
                    0u8
                } else {
                    old(ring)@[ring_pos(old(n).next_rx as int, k)].status
                }
        }),
{
    let ghost q0 = frames_of(n.rxq@);
    let ghost r0 = ring@;
    let ghost next0 = n.next_rx as int;
    let ghost run = done_run(r0, next0, 0);
    let ghost len0 = n.rxq@.len();
    let mut moved: usize = 0;
    let mut k: usize = 0;
    let mut going = true;
    while k < RING_RX && going
        invariant
            k <= RING_RX,
            n.wf(),
            next0 == old(n).next_rx,
            old(n).wf(),
            r0 == old(ring)@,
            r0.len() == RING_RX,
            ring@.len() == RING_RX,
            forall|i: int| 0 <= i < RING_RX ==> (#[trigger] r0[i]).data@.len() == RX_BUF,
            forall|i: int| 0 <= i < RING_RX ==> (#[trigger] ring@[i]).data@ == r0[i].data@ && ring@[i].len == r0[i].len,
            forall|j: int|
                0 <= j < RING_RX ==> (#[trigger] ring@[ring_pos(next0, j)]).status == if j < k {
                    0u8
                } else {
                    r0[ring_pos(next0, j)].status
                },
            n.next_rx == ring_pos(next0, k as int),
            run == k + done_run(r0, next0, k as int),
            q0 == frames_of(old(n).rxq@),
            len0 == old(n).rxq@.len(),
            frames_of(n.rxq@) == queued(q0, r0, next0, k as int),
            moved == n.rxq@.len() - len0,
            moved <= k,
            n.dropped == (old(n).dropped + (k - moved)) % 0x1_0000_0000_0000_0000,
            n.rx_total == old(n).rx_total,
            n.online == old(n).online,
            n.irq_n == old(n).irq_n,
            n.irq_kicks == old(n).irq_kicks,
            n.tx_total == old(n).tx_total,
            !going ==> done_run(r0, next0, k as int) == 0,
        decreases RING_RX - k, (if going { 1int } else { 0int }),
    {
        let at: usize = n.next_rx;
        assert(ring@[ring_pos(next0, k as int)].status == r0[ring_pos(next0, k as int)].status);
        if ring[at].status % 2 == 0 {
            going = false;
        } else {
            let len: usize = if (ring[at].len as usize) < RX_BUF {
                ring[at].len as usize
            } else {
                RX_BUF
            };
            let ghost before = n.rxq@;
            if n.rxq.len() < RXQ_CAP {
                let frame: Vec<u8> = slice_to_vec(slice_subrange(ring[at].data.as_slice(), 0, len));
                assert(frame@ =~= desc_frame(r0[at as int]));
                let ghost fv = frame@;
                n.rxq.push_back(frame);
                assert(frames_of(n.rxq@) =~= frames_of(before).push(fv));
                moved = moved + 1;
            } else {
                n.dropped = n.dropped.wrapping_add(1);
            }
            ring[at].status = 0;
            n.next_rx = if at + 1 < RING_RX {
                at + 1
            } else {
                0
            };
            k = k + 1;
        }
    }
    n.rx_total = n.rx_total.wrapping_add(moved as u64);
    moved
}

/// Pop one frame; empty when there is none.
pub fn pop_rx(n: &mut Nic) -> (f: Vec<u8>)
    requires
        old(n).wf(),
    ensures
        final(n).wf(),
        f@.len() <= RX_BUF,
        old(n).rxq@.len() == 0 ==> f@.len() == 0 && *final(n) == *old(n),
        old(n).rxq@.len() > 0 ==> f@ == frames_of(old(n).rxq@)[0] && frames_of(final(n).rxq@) == frames_of(
            old(n).rxq@,
        ).skip(1),
        final(n).next_rx == old(n).next_rx,
        final(n).online == old(n).online,
{
    if n.rxq.len() == 0 {
        return Vec::new();
    }
    let ghost before = n.rxq@;
    match n.rxq.pop_front() {
        Some(f) => {
            assert(frames_of(n.rxq@) =~= frames_of(before).skip(1));
            f
        },
        None => Vec::new(),
    }
}

} // verus!
