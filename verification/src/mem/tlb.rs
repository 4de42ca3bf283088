//! Dropping stale translations on the other processors. The sender interrupts
//! each of them and waits, for a bounded time, until all have answered.

use vstd::prelude::*;

use crate::cpu::gdt::MAX_CPUS;
use crate::cpu::smp::Smp;

verus! {

/// The vector of the interrupt.
pub const SHOOTDOWN_VECTOR: u8 = 0x71;

/// Turns of the wait before the sender gives up.
pub const PATIENCE: u32 = 50_000_000;

/// The answers so far.
pub struct Tlb {
    pub acks: u32,
}

/// A processor answers, after it has flushed its translations. It must end
/// the interrupt afterwards.
pub fn on_ipi(t: &mut Tlb)
    ensures
        final(t).acks == old(t).acks.wrapping_add(1),
{
    t.acks = t.acks.wrapping_add(1);
}

/// The identifiers of the first `n` processors that run, without `me`.
pub open spec fn targets(s: Smp, me: int, n: int) -> Seq<u32>
    decreases n,
{
    if n <= 0 {
        Seq::empty()
    } else if n - 1 != me && s.up@[n - 1] {
        targets(s, me, n - 1).push(s.cpus@[n - 1].lapic_id)
    } else {
        targets(s, me, n - 1)
    }
}

/// The processors to interrupt, by identifier: every other one that runs, and
/// none before the APIC is on. If there is any, the answers are counted anew.
pub fn shootdown_all_others(t: &mut Tlb, s: &Smp, apic_on: bool, me: usize) -> (r: Vec<u32>)
    requires
        s.wf(),
    ensures
        r@ == (if apic_on {
            targets(*s, me as int, MAX_CPUS as int)
        } else {
            Seq::empty()
        }),
        final(t).acks == (if r@.len() == 0 {
            old(t).acks
        } else {
            0
        }),
{
    let mut r: Vec<u32> = Vec::new();
    if !apic_on {
        assert(r@ =~= Seq::empty());
        return r;
    }
    let mut i: usize = 0;
    while i < MAX_CPUS
        invariant
            i <= MAX_CPUS,
            s.wf(),
            r@ == targets(*s, me as int, i as int),
        decreases MAX_CPUS - i,
    {
        if i != me && s.up[i] {
            r.push(s.cpus[i].lapic_id);
        }
        i = i + 1;
    }
    if r.len() > 0 {
        t.acks = 0;
    }
    r
}

/// What the sender does next.
#[derive(Clone, Copy, PartialEq, Eq, Structural, Debug)]
pub enum Wait {
    Done,
    Again,
    GiveUp,
}

/// One turn of the wait: `spins` turns went before it.
pub fn wait_step(t: &Tlb, want: u32, spins: u32) -> (w: Wait)
    ensures
        w == (if t.acks >= want {
            Wait::Done
        } else if spins >= PATIENCE {
            Wait::GiveUp
        } else {
            Wait::Again
        }),
{
    if t.acks >= want {
        Wait::Done
    } else if spins >= PATIENCE {
        Wait::GiveUp
    } else {
        Wait::Again
    }
}

} // verus!
