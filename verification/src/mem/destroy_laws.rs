//! What is given back when a space is taken down.

use vstd::prelude::*;

use crate::mem::frames::FramesV;
use crate::mem::vmm::MemV;

verus! {

/// Frames that were given back stay so, and none gains a share.
pub open spec fn only_less(a: FramesV, b: FramesV) -> bool {
    &&& a.wf() && b.wf()
    &&& forall|g: int| 0 <= g < 0x4_0000 && !a.taken[g] ==> !(#[trigger] b.taken[g])
    &&& forall|g: int| 0 <= g < 0x4_0000 && a.refs[g] == 0 ==> (#[trigger] b.refs[g]) == 0
}

proof fn lemma_release(f: FramesV, pa: u64)
    requires
        f.wf(),
    ensures
        only_less(f, crate::mem::frames::release_spec(f, pa).0),
        only_less(f, crate::mem::frames::free_spec(f, pa)),
        pa / 4096 < 0x4_0000 ==> !crate::mem::frames::free_spec(f, pa).taken[(pa / 4096) as int],
        pa / 4096 < 0x4_0000 && f.refs[(pa / 4096) as int] == 0 ==> !crate::mem::frames::release_spec(
            f,
            pa,
        ).0.taken[(pa / 4096) as int],
{
}

proof fn lemma_chain(a: FramesV, b: FramesV, c: FramesV)
    requires
        only_less(a, b),
        only_less(b, c),
    ensures
        only_less(a, c),
{
    assert forall|g: int| 0 <= g < 0x4_0000 && !a.taken[g] implies !(#[trigger] c.taken[g]) by {
        assert(!b.taken[g]);
    }
    assert forall|g: int| 0 <= g < 0x4_0000 && a.refs[g] == 0 implies (#[trigger] c.refs[g]) == 0 by {
        assert(b.refs[g] == 0);
    }
}

proof fn lemma_leaves(m: MemV, p: u64, i: int, n: nat, k: int)
    requires
        m.frames.wf(),
        0 <= i <= 512,
        0 <= k < 512,
    ensures
        ({
            let r = crate::mem::vmm::free_leaves(m, p, i, n).0;
            let e = m.entry(p, k);
            let g = (crate::mem::vmm::frame_of(e) / 4096) as int;
            &&& r.ram == m.ram
            &&& only_less(m.frames, r.frames)
            &&& k >= i && crate::mem::vmm::present(e) && g < 0x4_0000 && m.frames.refs[g] == 0 ==> !r.frames.taken[g]
        }),
    decreases 512 - i,
{
    if i < 512 {
        let e = m.entry(p, i);
        let x = crate::mem::vmm::frame_of(e);
        if crate::mem::vmm::present(e) {
            let m1 = MemV { frames: crate::mem::frames::release_spec(m.frames, x).0, ..m };
            lemma_release(m.frames, x);
            lemma_leaves(m1, p, i + 1, n + 1, k);
            lemma_chain(m.frames, m1.frames, crate::mem::vmm::free_leaves(m, p, i, n).0.frames);
            let g = (crate::mem::vmm::frame_of(m.entry(p, k)) / 4096) as int;
            if k == i && g < 0x4_0000 && m.frames.refs[g] == 0 {
                assert(!m1.frames.taken[g]);
            }
        } else {
            lemma_leaves(m, p, i + 1, n, k);
        }
    }
}

/// The entry of an address in the table of a level, 4 at the top.
pub open spec fn slot(level: int, va: u64) -> int {
    crate::mem::fork_laws::index_in(level, va)
}

/// The way of an address down from a table is whole, and ends in frame `g`.
pub open spec fn leads(level: int, m: MemV, p: u64, va: u64, g: int) -> bool
    decreases level,
{
    let e = m.entry(p, slot(level, va));
    &&& crate::mem::vmm::present(e)
    &&& level > 1 && level < 4 ==> !crate::mem::vmm::is_huge(e)
    &&& if level <= 1 {
        crate::mem::vmm::frame_of(e) / 4096 == g
    } else {
        leads(level - 1, m, crate::mem::vmm::frame_of(e), va, g)
    }
}

proof fn lemma_leads_on(level: int, m: MemV, n: MemV, p: u64, va: u64, g: int)
    requires
        n.ram == m.ram,
        leads(level, m, p, va, g),
    ensures
        leads(level, n, p, va, g),
    decreases level,
{
    if level > 1 {
        lemma_leads_on(level - 1, m, n, crate::mem::vmm::frame_of(m.entry(p, slot(level, va))), va, g);
    }
}

#[verifier::spinoff_prover]
proof fn lemma_tables(level: int, m: MemV, p: u64, i: int, n: nat, va: u64, g: int)
    requires
        2 <= level <= 4,
        m.frames.wf(),
        0 <= i <= (if level == 4 {
            256int
        } else {
            512int
        }),
        0 <= g < 0x4_0000,
    ensures
        ({
            let r = crate::mem::vmm::free_tables(level, m, p, i, n).0;
            &&& r.ram == m.ram
            &&& only_less(m.frames, r.frames)
            &&& slot(level, va) >= i && slot(level, va) < (if level == 4 {
                256int
            } else {
                512int
            }) && leads(level, m, p, va, g) && m.frames.refs[g] == 0 ==> !r.frames.taken[g]
        }),
    decreases level, 512 - i,
{
    let end: int = if level == 4 {
        256
    } else {
        512
    };
    let r = crate::mem::vmm::free_tables(level, m, p, i, n).0;
    reveal_with_fuel(leads, 3);
    if i < end {
        let e = m.entry(p, i);
        let t = crate::mem::vmm::frame_of(e);
        if !crate::mem::vmm::present(e) || (level < 4 && crate::mem::vmm::is_huge(e)) {
            lemma_tables(level, m, p, i + 1, n, va, g);
        } else {
            let (m1, n1) = if level == 2 {
                crate::mem::vmm::free_leaves(m, t, 0, n)
            } else {
                crate::mem::vmm::free_tables(level - 1, m, t, 0, n)
            };
            crate::mem::vmm_laws::lemma_index(va, 12);
            crate::mem::vmm_laws::lemma_index(va, 21);
            crate::mem::vmm_laws::lemma_index(va, 30);
            if level == 2 {
                lemma_leaves(m, t, 0, n, slot(1, va));
            } else {
                lemma_tables(level - 1, m, t, 0, n, va, g);
            }
            let m2 = MemV { frames: crate::mem::frames::free_spec(m1.frames, t), ..m1 };
            lemma_release(m1.frames, t);
            lemma_chain(m.frames, m1.frames, m2.frames);
            lemma_tables(level, m2, p, i + 1, n1, va, g);
            lemma_chain(m.frames, m2.frames, r.frames);
            if leads(level, m, p, va, g) && slot(level, va) >= i && m.frames.refs[g] == 0 {
                if slot(level, va) == i {
                    assert(!m1.frames.taken[g]);
                    assert(!m2.frames.taken[g]);
                } else {
                    lemma_leads_on(level, m, m2, p, va, g);
                    assert(m1.frames.refs[g] == 0);
                    assert(m2.frames.refs[g] == 0);
                }
            }
        }
    }
}

/// Taking a space down gives back every frame that it maps in the lower half
/// and shares with nobody, and its root unless that is kept; no frame is taken
/// by it, and the contents of memory stay.
pub proof fn law_destroy_gives_the_frames_back(m: MemV, pml4: u64, keep_root: bool, va: u64, g: int)
    requires
        m.frames.wf(),
        pml4 != 0,
        pml4 / 4096 < 0x4_0000,
        va < 0x0000_8000_0000_0000,
        0 <= g < 0x4_0000,
        leads(4, m, pml4, va, g),
        m.frames.refs[g] == 0,
    ensures
        ({
            let r = crate::mem::vmm::free_all_spec(m, pml4, true, keep_root).0;
            &&& !r.frames.taken[g]
            &&& !keep_root ==> !r.frames.taken[(pml4 / 4096) as int]
            &&& forall|f: int| 0 <= f < 0x4_0000 && !m.frames.taken[f] ==> !(#[trigger] r.frames.taken[f])
            &&& r.ram == m.ram
        }),
{
    assert((va >> 39) & 0x1FF < 256) by (bit_vector)
        requires
            va < 0x0000_8000_0000_0000,
    ;
    crate::mem::vmm_laws::lemma_index(va, 39);
    lemma_tables(4, m, pml4, 0, 0, va, g);
    let m1 = crate::mem::vmm::free_tables(4, m, pml4, 0, 0).0;
    lemma_release(m1.frames, pml4);
    lemma_chain(m.frames, m1.frames, crate::mem::frames::free_spec(m1.frames, pml4));
}

} // verus!
