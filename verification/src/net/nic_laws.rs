//! What the network card hands over.

use vstd::prelude::*;

use crate::net::e1000::RxDesc;
use crate::net::pci::{PciDev, SlotHeader};

verus! {

/// The frames that the card has finished come in the order in which they came,
/// from the slot that is next, around the ring of 32, each with the bytes that
/// the card wrote for it, behind those that wait.
pub proof fn law_frames_come_in_order(q: Seq<Seq<u8>>, ring: Seq<RxDesc>, next: int, n: int)
    requires
        ring.len() == 32,
        0 <= next < 32,
        0 <= n <= 32,
        q.len() + n <= 31,
        forall|i: int| 0 <= i < 32 ==> (#[trigger] ring[i]).len <= 2048 && ring[i].data@.len() == 2048,
    ensures
        ({
            let r = crate::net::e1000::queued(q, ring, next, n);
            &&& r.len() == q.len() + n
            &&& forall|i: int| 0 <= i < q.len() ==> #[trigger] r[i] == q[i]
            &&& forall|i: int|
                0 <= i < n ==> #[trigger] r[q.len() + i] == ring[(next + i) % 32].data@.subrange(
                    0,
                    ring[(next + i) % 32].len as int,
                )
        }),
    decreases n,
{
    if n > 0 {
        law_frames_come_in_order(q, ring, next, n - 1);
        let p = crate::net::e1000::queued(q, ring, next, n - 1);
        let r = crate::net::e1000::queued(q, ring, next, n);
        let at = crate::net::e1000::ring_pos(next, n - 1);
        assert(at == (next + (n - 1)) % 32);
        let d = ring[at];
        assert(crate::net::e1000::desc_frame(d) =~= d.data@.subrange(0, d.len as int));
        assert(r == p.push(crate::net::e1000::desc_frame(d)));
    }
}

/// A full queue of 31 takes no more.
pub proof fn law_full_queue_takes_no_more(q: Seq<Seq<u8>>, ring: Seq<RxDesc>, next: int, n: int)
    requires
        q.len() >= 31,
    ensures
        crate::net::e1000::queued(q, ring, next, n) == q,
    decreases n,
{
    if n > 0 {
        law_full_queue_takes_no_more(q, ring, next, n - 1);
    }
}

/// What the card has finished is the run of slots from the next one on whose
/// status has its low bit.
pub proof fn law_finished_slots(ring: Seq<RxDesc>, next: int, n: int)
    requires
        ring.len() == 32,
        0 <= next < 32,
        0 <= n < 32,
        forall|i: int| 0 <= i < n ==> (#[trigger] ring[(next + i) % 32]).status % 2 == 1,
        ring[(next + n) % 32].status % 2 == 0,
    ensures
        crate::net::e1000::done_run(ring, next, 0) == n,
{
    lemma_run(ring, next, n, 0);
}

proof fn lemma_run(ring: Seq<RxDesc>, next: int, n: int, k: int)
    requires
        ring.len() == 32,
        0 <= next < 32,
        0 <= k <= n < 32,
        forall|i: int| 0 <= i < n ==> (#[trigger] ring[(next + i) % 32]).status % 2 == 1,
        ring[(next + n) % 32].status % 2 == 0,
    ensures
        crate::net::e1000::done_run(ring, next, k) == n - k,
    decreases n - k,
{
    assert(crate::net::e1000::ring_pos(next, k) == (next + k) % 32);
    if k < n {
        assert(ring[(next + k) % 32].status % 2 == 1);
        lemma_run(ring, next, n, k + 1);
    }
}

/// The card's address: six bytes of two registers, the low one first.
pub proof fn law_address_of_the_card(ral: u32, rah: u32)
    ensures
        ({
            let m = crate::net::e1000::mac_of(ral, rah);
            &&& m.len() == 6
            &&& m[0] + 256 * m[1] + 0x1_0000 * m[2] + 0x100_0000 * m[3] == ral
            &&& m[4] + 256 * m[5] == rah % 0x1_0000
        }),
{
}

/// The card is the first Intel 82540EM with memory-mapped registers: where its
/// registers are and which interrupt it has is what its slot says.
pub proof fn law_card_in_a_slot(h: SlotHeader, dev: int)
    requires
        0 <= dev < 32,
    ensures
        crate::net::pci::is_e1000(h) == (h.id == 0x100E_8086 && h.bar0 % 2 == 0),
        ({
            let d = crate::net::pci::e1000_at(dev, h);
            &&& d.dev == dev && d.bus == 0 && d.fun == 0
            &&& d.bar0_phys + h.bar0 % 16 == h.bar0
            &&& d.irq == h.int_line % 256
        }),
{
}

} // verus!
