//! What making a space and tearing one down leave of the others.

use vstd::prelude::*;

use crate::mem::frames::{FramesV, MAX_FRAMES};
use crate::mem::vmm::MemV;

verus! {

// ---------------------------------------------------------------------------
// The kernel's half
// ---------------------------------------------------------------------------
/// What the upper half of a new root holds.
pub proof fn lemma_shared_half(m: MemV, t: u64, i: int)
    requires
        crate::mem::vmm_laws::sound(m),
        256 <= i <= 512,
        m.kernel / 4096 != t / 4096,
    ensures
        ({
            let n = crate::mem::vmm::upper_shared(m, t, i);
            &&& forall|u: u64, j: int|
                #![trigger n.entry(u, j)]
                0 <= j < 512 && u / 4096 != t / 4096 ==> n.entry(u, j) == m.entry(u, j)
            &&& forall|j: int| i <= j < 512 ==> #[trigger] n.entry(t, j) == m.entry(m.kernel, j)
            &&& forall|j: int| 0 <= j < i ==> #[trigger] n.entry(t, j) == m.entry(t, j)
        }),
    decreases 512 - i,
{
    if i < 512 {
        let e = m.entry(m.kernel, i);
        let m1 = m.with_entry(t, i, e);
        crate::mem::vmm_laws::lemma_entry_set(m, t, i, e, t, i);
        lemma_shared_half(m1, t, i + 1);
        let n = crate::mem::vmm::upper_shared(m, t, i);
        assert(n == crate::mem::vmm::upper_shared(m1, t, i + 1));
        assert forall|u: u64, j: int|
            #![trigger n.entry(u, j)]
            0 <= j < 512 && u / 4096 != t / 4096 implies n.entry(u, j) == m.entry(u, j) by {
            crate::mem::vmm_laws::lemma_entry_set(m, t, i, e, u, j);
            assert(n.entry(u, j) == m1.entry(u, j));
        }
        assert forall|j: int| i <= j < 512 implies #[trigger] n.entry(t, j) == m.entry(m.kernel, j) by {
            crate::mem::vmm_laws::lemma_entry_set(m, t, i, e, m.kernel, j);
            crate::mem::vmm_laws::lemma_entry_set(m, t, i, e, t, j);
            if j > i {
                assert(n.entry(t, j) == m1.entry(m1.kernel, j));
            } else {
                assert(n.entry(t, j) == m1.entry(t, j));
            }
        }
        assert forall|j: int| 0 <= j < i implies #[trigger] n.entry(t, j) == m.entry(t, j) by {
            crate::mem::vmm_laws::lemma_entry_set(m, t, i, e, t, j);
        }
    }
}

/// A new space finds the kernel where the kernel's own finds it: every
/// address of the upper half translates alike in both.
pub proof fn law_new_space_shares_the_kernel(m: MemV, va: u64)
    requires
        crate::mem::vmm_laws::sound(m),
        va >= crate::mem::vmm::KERNEL_HALF_BASE,
        crate::mem::vmm_laws::walk_reserved(m, m.kernel, va),
        crate::mem::vmm::new_root_spec(m).1 is Some,
    ensures
        ({
            let n = crate::mem::vmm::new_root_spec(m).0;
            let root = crate::mem::vmm::new_root_spec(m).1->Some_0;
            crate::mem::vmm::translate_spec(n, root, va) == crate::mem::vmm::translate_spec(m, m.kernel, va)
        }),
{
    let (i4, i3) = (crate::mem::vmm::index_at(va, 39), crate::mem::vmm::index_at(va, 30));
    let (i2, i1) = (crate::mem::vmm::index_at(va, 21), crate::mem::vmm::index_at(va, 12));
    crate::mem::vmm_laws::lemma_index(va, 39);
    crate::mem::vmm_laws::lemma_index(va, 30);
    crate::mem::vmm_laws::lemma_index(va, 21);
    crate::mem::vmm_laws::lemma_index(va, 12);
    assert((va >> 39) & 0x1FF >= 256) by (bit_vector)
        requires
            va >= 0xFFFF_8000_0000_0000,
    ;
    crate::mem::fork_laws::lemma_fresh(m);
    let (m0, r) = crate::mem::vmm::new_table_spec(m);
    let t = r->Some_0;
    assert(m0.kernel == m.kernel);
    assert(m.kernel / 4096 != t / 4096);
    lemma_shared_half(m0, t, 256);
    let n = crate::mem::vmm::new_root_spec(m).0;
    let e4 = m.entry(m.kernel, i4);
    assert(m0.entry(m.kernel, i4) == e4);
    assert(n.entry(t, i4) == e4);
    let t3 = crate::mem::vmm::frame_of(e4);
    let e3 = m.entry(t3, i3);
    let t2 = crate::mem::vmm::frame_of(e3);
    let e2 = m.entry(t2, i2);
    let t1 = crate::mem::vmm::frame_of(e2);
    if crate::mem::vmm::present(e4) {
        assert(m0.entry(t3, i3) == e3 && n.entry(t3, i3) == e3);
        if crate::mem::vmm::present(e3) && !crate::mem::vmm::is_huge(e3) {
            assert(m0.entry(t2, i2) == e2 && n.entry(t2, i2) == e2);
            if crate::mem::vmm::present(e2) && !crate::mem::vmm::is_huge(e2) {
                assert(m0.entry(t1, i1) == m.entry(t1, i1) && n.entry(t1, i1) == m.entry(t1, i1));
            }
        }
    }
}

// ---------------------------------------------------------------------------
// Tearing down
// ---------------------------------------------------------------------------
/// How often the leaf entries from `i` on of a table map frame `g`.
pub open spec fn leaf_uses(ram: Map<u64, Seq<u64>>, p: u64, i: int, g: int) -> int
    decreases 512 - i,
{
    if i < 0 || i >= 512 {
        0
    } else {
        let e = crate::mem::phys::word_at(ram, p, i);
        leaf_uses(ram, p, i + 1, g) + if crate::mem::vmm::present(e) && crate::mem::vmm::frame_of(e) / 4096 == g {
            1int
        } else {
            0int
        }
    }
}

/// Whether an entry of a table above the leaves leads to another table.
pub open spec fn leads_on(level: int, e: u64) -> bool {
    crate::mem::vmm::present(e) && !(level < 4 && crate::mem::vmm::is_huge(e))
}

/// How often the pages under the entries from `i` on are frame `g`. Level 4
/// is that of a root, whose lower half alone counts.
pub open spec fn uses(level: int, ram: Map<u64, Seq<u64>>, p: u64, i: int, g: int) -> int
    decreases level, 512 - i,
{
    if level < 2 || level > 4 || i < 0 || i >= (if level == 4 {
        256int
    } else {
        512int
    }) {
        0
    } else {
        let e = crate::mem::phys::word_at(ram, p, i);
        uses(level, ram, p, i + 1, g) + if !leads_on(level, e) {
            0
        } else if level == 2 {
            leaf_uses(ram, crate::mem::vmm::frame_of(e), 0, g)
        } else {
            uses(level - 1, ram, crate::mem::vmm::frame_of(e), 0, g)
        }
    }
}

/// No table under the entries from `i` on is frame `g`.
pub open spec fn tables_elsewhere(level: int, ram: Map<u64, Seq<u64>>, p: u64, i: int, g: int) -> bool
    decreases level, 512 - i,
{
    level < 2 || level > 4 || i < 0 || i >= (if level == 4 {
        256int
    } else {
        512int
    }) || {
        let e = crate::mem::phys::word_at(ram, p, i);
        &&& tables_elsewhere(level, ram, p, i + 1, g)
        &&& leads_on(level, e) ==> {
            &&& crate::mem::vmm::frame_of(e) / 4096 != g
            &&& tables_elsewhere(level - 1, ram, crate::mem::vmm::frame_of(e), 0, g)
        }
    }
}

/// Frame `g` lost `n` shares and is still there.
pub open spec fn lost_shares(f: FramesV, x: FramesV, g: int, n: int) -> bool {
    &&& x.wf()
    &&& x.taken[g] == f.taken[g]
    &&& x.refs[g] == f.refs[g] - n
}

proof fn lemma_uses(level: int, ram: Map<u64, Seq<u64>>, p: u64, i: int, g: int)
    ensures
        uses(level, ram, p, i, g) >= 0,
        leaf_uses(ram, p, i, g) >= 0,
    decreases level, 512 - i,
{
    if 0 <= i < 512 {
        let e = crate::mem::phys::word_at(ram, p, i);
        lemma_uses(level, ram, p, i + 1, g);
        if 2 <= level <= 4 {
            lemma_uses(level - 1, ram, crate::mem::vmm::frame_of(e), 0, g);
        }
    }
}

proof fn lemma_free_leaves(m: MemV, p: u64, i: int, n: nat, g: int)
    requires
        m.frames.wf(),
        0 <= g < MAX_FRAMES,
        0 <= i <= 512,
        m.frames.refs[g] >= leaf_uses(m.ram, p, i, g),
    ensures
        ({
            let x = crate::mem::vmm::free_leaves(m, p, i, n).0;
            x.ram == m.ram && lost_shares(m.frames, x.frames, g, leaf_uses(m.ram, p, i, g))
        }),
    decreases 512 - i,
{
    if i < 512 {
        let e = m.entry(p, i);
        lemma_uses(2, m.ram, p, i + 1, g);
        if crate::mem::vmm::present(e) {
            let m1 = MemV {
                frames: crate::mem::frames::release_spec(m.frames, crate::mem::vmm::frame_of(e)).0,
                ..m
            };
            lemma_free_leaves(m1, p, i + 1, n + 1, g);
        } else {
            lemma_free_leaves(m, p, i + 1, n, g);
        }
    }
}

proof fn lemma_free_tables(level: int, m: MemV, p: u64, i: int, n: nat, g: int)
    requires
        m.frames.wf(),
        2 <= level <= 4,
        0 <= g < MAX_FRAMES,
        0 <= i <= 512,
        tables_elsewhere(level, m.ram, p, i, g),
        m.frames.refs[g] >= uses(level, m.ram, p, i, g),
    ensures
        ({
            let x = crate::mem::vmm::free_tables(level, m, p, i, n).0;
            x.ram == m.ram && lost_shares(m.frames, x.frames, g, uses(level, m.ram, p, i, g))
        }),
    decreases level, 512 - i,
{
    let end: int = if level == 4 {
        256
    } else {
        512
    };
    if i < end {
        let e = m.entry(p, i);
        lemma_uses(level, m.ram, p, i + 1, g);
        if !leads_on(level, e) {
            lemma_free_tables(level, m, p, i + 1, n, g);
        } else {
            let t = crate::mem::vmm::frame_of(e);
            lemma_uses(level - 1, m.ram, t, 0, g);
            let (m1, n1) = if level == 2 {
                crate::mem::vmm::free_leaves(m, t, 0, n)
            } else {
                crate::mem::vmm::free_tables(level - 1, m, t, 0, n)
            };
            if level == 2 {
                lemma_free_leaves(m, t, 0, n, g);
            } else {
                lemma_free_tables(level - 1, m, t, 0, n, g);
            }
            let m2 = MemV { frames: crate::mem::frames::free_spec(m1.frames, t), ..m1 };
            lemma_free_tables(level, m2, p, i + 1, n1, g);
        }
    }
}

/// Tearing a space down frees no frame that somebody else still maps: a page
/// with a share left over stays, and loses one share for each place where the
/// space had it.
pub proof fn law_destroy_keeps_shared_frames(m: MemV, pml4: u64, keep_root: bool, page: u64)
    requires
        m.frames.wf(),
        page / 4096 < MAX_FRAMES,
        pml4 / 4096 != page / 4096,
        tables_elsewhere(4, m.ram, pml4, 0, (page / 4096) as int),
        crate::mem::frames::ref_spec(m.frames, page) >= uses(4, m.ram, pml4, 0, (page / 4096) as int),
    ensures
        ({
            let n = crate::mem::vmm::free_all_spec(m, pml4, true, keep_root).0;
            let g = (page / 4096) as int;
            &&& n.frames.taken[g] == m.frames.taken[g]
            &&& pml4 != 0 ==> crate::mem::frames::ref_spec(n.frames, page) == crate::mem::frames::ref_spec(
                m.frames,
                page,
            ) - uses(4, m.ram, pml4, 0, g)
        }),
{
    lemma_free_tables(4, m, pml4, 0, 0, (page / 4096) as int);
}

} // verus!
