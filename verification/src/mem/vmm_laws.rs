//! What holds of address spaces whatever is mapped.

use vstd::prelude::*;

use crate::mem::frames::MAX_FRAMES;
use crate::mem::vmm::{MemV, KERNEL_DIR, PTE_COW, USER_DIR, WRITABLE};

verus! {

/// Memory as it is in a running system: every frame that was written has its
/// words, and the allocator is in order.
pub open spec fn sound(m: MemV) -> bool {
    &&& m.frames.wf()
    &&& forall|f: u64| m.ram.dom().contains(f) ==> (#[trigger] m.ram[f]).len() == 512
}

/// The allocator will not hand the frame at `pa` out.
pub open spec fn reserved(m: MemV, pa: u64) -> bool {
    pa / 4096 < MAX_FRAMES ==> m.frames.taken[(pa / 4096) as int]
}

/// The tables that the walk to an address reads are reserved.
pub open spec fn walk_reserved(m: MemV, pml4: u64, va: u64) -> bool {
    let e4 = m.entry(pml4, crate::mem::vmm::index_at(va, 39));
    let t3 = crate::mem::vmm::frame_of(e4);
    let e3 = m.entry(t3, crate::mem::vmm::index_at(va, 30));
    let t2 = crate::mem::vmm::frame_of(e3);
    let e2 = m.entry(t2, crate::mem::vmm::index_at(va, 21));
    let t1 = crate::mem::vmm::frame_of(e2);
    &&& reserved(m, pml4)
    &&& crate::mem::vmm::present(e4) ==> reserved(m, t3)
    &&& crate::mem::vmm::present(e4) && crate::mem::vmm::present(e3) && !crate::mem::vmm::is_huge(e3) ==> reserved(m, t2)
    &&& crate::mem::vmm::present(e4) && crate::mem::vmm::present(e3) && !crate::mem::vmm::is_huge(e3)
        && crate::mem::vmm::present(e2) && !crate::mem::vmm::is_huge(e2) ==> reserved(m, t1)
}

/// The walk to an address meets a table on the second level, not a 2 MiB page.
pub open spec fn no_large_page(m: MemV, pml4: u64, va: u64) -> bool {
    let e4 = m.entry(pml4, crate::mem::vmm::index_at(va, 39));
    let e3 = m.entry(crate::mem::vmm::frame_of(e4), crate::mem::vmm::index_at(va, 30));
    let e2 = m.entry(crate::mem::vmm::frame_of(e3), crate::mem::vmm::index_at(va, 21));
    crate::mem::vmm::present(e4) && crate::mem::vmm::present(e3) && crate::mem::vmm::present(e2)
        ==> !crate::mem::vmm::is_huge(e2)
}

/// An empty entry is not present.
pub proof fn lemma_nothing()
    ensures
        0u64 & 1 == 0,
        !crate::mem::vmm::present(0),
{
    assert(0u64 & 1 == 0) by (bit_vector);
}

pub proof fn lemma_index(va: u64, s: u64)
    ensures
        0 <= crate::mem::vmm::index_at(va, s) < 512,
{
    let x = va >> s;
    assert(x & 0x1FF < 512) by (bit_vector);
}

/// The indices of an address in a page are those of the page.
proof fn lemma_same_page(va: u64, off: u64)
    requires
        va % 4096 == 0,
        off < 4096,
    ensures
        va + off <= u64::MAX,
        crate::mem::vmm::index_at((va + off) as u64, 39) == crate::mem::vmm::index_at(va, 39),
        crate::mem::vmm::index_at((va + off) as u64, 30) == crate::mem::vmm::index_at(va, 30),
        crate::mem::vmm::index_at((va + off) as u64, 21) == crate::mem::vmm::index_at(va, 21),
        crate::mem::vmm::index_at((va + off) as u64, 12) == crate::mem::vmm::index_at(va, 12),
        ((va + off) as u64) & 0xFFF == off,
{
    let w = (va + off) as u64;
    assert(va <= 0xFFFF_FFFF_FFFF_F000) by (bit_vector)
        requires
            va % 4096 == 0,
    ;
    assert(w == va + off);
    assert((w >> 39) == (va >> 39) && (w >> 30) == (va >> 30) && (w >> 21) == (va >> 21) && (w >> 12) == (va >> 12)
        && w & 0xFFF == off) by (bit_vector)
        requires
            va % 4096 == 0,
            off < 4096,
            w == va + off,
    ;
}

/// A word that is set reads as it was set; all others stay.
pub proof fn lemma_entry_set(m: MemV, t: u64, i: int, e: u64, u: u64, j: int)
    requires
        sound(m),
        0 <= i < 512,
        0 <= j < 512,
    ensures
        sound(m.with_entry(t, i, e)),
        m.with_entry(t, i, e).entry(u, j) == if u / 4096 == t / 4096 && j == i {
            e
        } else {
            m.entry(u, j)
        },
{
    let n = m.with_entry(t, i, e);
    assert(crate::mem::phys::frame_at(m.ram, t / 4096).len() == 512);
    assert forall|f: u64| n.ram.dom().contains(f) implies (#[trigger] n.ram[f]).len() == 512 by {
        if f != t / 4096 {
            assert(m.ram.dom().contains(f));
        }
    }
}

/// A table entry made from a frame gives the frame back.
pub proof fn lemma_dir(n: u64, dir: u64)
    requires
        n % 4096 == 0,
        n < 0x4000_0000,
        dir == USER_DIR || dir == KERNEL_DIR,
    ensures
        crate::mem::vmm::frame_of(n | dir) == n,
        crate::mem::vmm::present(n | dir),
        !crate::mem::vmm::is_huge(n | dir),
{
    assert((n | dir) & 0x000F_FFFF_FFFF_F000 == n && (n | dir) & 1 != 0 && (n | dir) & 0x80 == 0) by (bit_vector)
        requires
            n % 4096 == 0,
            n < 0x4000_0000,
            dir == 7 || dir == 0x8000_0000_0000_0003,
    ;
}

/// What a descent leaves as it was: everything in reserved frames but the
/// entry itself, and that only changes if it was empty.
pub proof fn lemma_descend(m: MemV, t: u64, i: int, dir: u64)
    requires
        sound(m),
        0 <= i < 512,
        reserved(m, t),
        dir == USER_DIR || dir == KERNEL_DIR,
    ensures
        ({
            let (n, r) = crate::mem::vmm::descend_spec(m, t, i, dir);
            &&& sound(n)
            &&& forall|u: u64| reserved(m, u) ==> #[trigger] reserved(n, u)
            &&& forall|u: u64, j: int|
                #![trigger n.entry(u, j)]
                reserved(m, u) && 0 <= j < 512 && (crate::mem::vmm::present(m.entry(u, j)) || u / 4096 != t / 4096 || j
                    != i) ==> n.entry(u, j) == m.entry(u, j)
            &&& r matches Some(e) ==> {
                &&& crate::mem::vmm::present(e)
                &&& n.entry(t, i) == e
                &&& crate::mem::vmm::present(m.entry(t, i)) ==> n == m && e == m.entry(t, i)
                &&& !crate::mem::vmm::present(m.entry(t, i)) ==> {
                    &&& !crate::mem::vmm::is_huge(e)
                    &&& !reserved(m, crate::mem::vmm::frame_of(e))
                    &&& reserved(n, crate::mem::vmm::frame_of(e))
                    &&& forall|j: int| 0 <= j < 512 ==> #[trigger] n.entry(crate::mem::vmm::frame_of(e), j) == 0
                }
            }
        }),
{
    let (n, r) = crate::mem::vmm::descend_spec(m, t, i, dir);
    if !crate::mem::vmm::present(m.entry(t, i)) {
        crate::mem::frames::law_alloc_hands_out_a_free_frame(m.frames);
        let (m1, x) = crate::mem::vmm::new_table_spec(m);
        match x {
            None => {
                assert(crate::mem::frames::alloc_spec(m.frames).0 == m.frames);
                assert(n =~= m);
            },
            Some(f) => {
                assert(f % 4096 == 0 && f / 4096 < MAX_FRAMES);
                assert(f < 0x4000_0000);
                lemma_dir(f, dir);
                assert(sound(m1)) by {
                    assert forall|g: u64| m1.ram.dom().contains(g) implies (#[trigger] m1.ram[g]).len() == 512 by {
                        if g != f / 4096 {
                            assert(m.ram.dom().contains(g));
                        }
                    }
                }
                assert(t / 4096 != f / 4096);
                lemma_entry_set(m1, t, i, f | dir, t, i);
                assert forall|u: u64, j: int|
                    #![trigger n.entry(u, j)]
                    reserved(m, u) && 0 <= j < 512 && (crate::mem::vmm::present(m.entry(u, j)) || u / 4096 != t / 4096
                        || j != i) implies n.entry(u, j) == m.entry(u, j) by {
                    lemma_entry_set(m1, t, i, f | dir, u, j);
                    assert(u / 4096 != f / 4096);
                    assert(m1.entry(u, j) == m.entry(u, j));
                }
                assert forall|j: int| 0 <= j < 512 implies #[trigger] n.entry(f, j) == 0 by {
                    lemma_entry_set(m1, t, i, f | dir, f, j);
                    assert(m1.entry(f, j) == 0);
                }
            },
        }
    }
}

/// The walk after a page was mapped: the three tables, and the entry.
proof fn lemma_mapped_walk(m: MemV, pml4: u64, va: u64, phys: u64, flags: u64)
    requires
        sound(m),
        walk_reserved(m, pml4, va),
        no_large_page(m, pml4, va),
        crate::mem::vmm::map_spec(m, pml4, va, phys, flags).1 is Ok,
    ensures
        ({
            let n = crate::mem::vmm::map_spec(m, pml4, va, phys, flags).0;
            let e4 = n.entry(pml4, crate::mem::vmm::index_at(va, 39));
            let e3 = n.entry(crate::mem::vmm::frame_of(e4), crate::mem::vmm::index_at(va, 30));
            let e2 = n.entry(crate::mem::vmm::frame_of(e3), crate::mem::vmm::index_at(va, 21));
            &&& sound(n)
            &&& crate::mem::vmm::present(e4)
            &&& crate::mem::vmm::present(e3)
            &&& !crate::mem::vmm::is_huge(e3)
            &&& crate::mem::vmm::present(e2)
            &&& !crate::mem::vmm::is_huge(e2)
            &&& n.entry(crate::mem::vmm::frame_of(e2), crate::mem::vmm::index_at(va, 12)) == phys | flags
        }),
{
    let (i4, i3, i2, i1) = (
        crate::mem::vmm::index_at(va, 39),
        crate::mem::vmm::index_at(va, 30),
        crate::mem::vmm::index_at(va, 21),
        crate::mem::vmm::index_at(va, 12),
    );
    lemma_index(va, 39);
    lemma_index(va, 30);
    lemma_index(va, 21);
    lemma_index(va, 12);
    lemma_descend(m, pml4, i4, USER_DIR);
    let (m1, r4) = crate::mem::vmm::descend_spec(m, pml4, i4, USER_DIR);
    let e4 = r4->Some_0;
    let t3 = crate::mem::vmm::frame_of(e4);
    assert(reserved(m1, t3));
    lemma_descend(m1, t3, i3, USER_DIR);
    let (m2, r3) = crate::mem::vmm::descend_spec(m1, t3, i3, USER_DIR);
    let e3 = r3->Some_0;
    let t2 = crate::mem::vmm::frame_of(e3);
    assert(m1.entry(pml4, i4) == e4);
    assert(m2.entry(pml4, i4) == e4);
    assert(reserved(m2, t3));
    assert(reserved(m2, t2)) by {
        if crate::mem::vmm::present(m1.entry(t3, i3)) {
            if crate::mem::vmm::present(m.entry(pml4, i4)) {
                assert(m1 == m);
            } else {
                assert(m1.entry(t3, i3) == 0);
                lemma_nothing();
            }
        }
    }
    lemma_descend(m2, t2, i2, USER_DIR);
    let (m3, r2) = crate::mem::vmm::descend_spec(m2, t2, i2, USER_DIR);
    let e2 = r2->Some_0;
    let t1 = crate::mem::vmm::frame_of(e2);
    assert(m3.entry(pml4, i4) == e4);
    assert(m2.entry(t3, i3) == e3);
    assert(m3.entry(t3, i3) == e3);
    assert(m3.entry(t2, i2) == e2);
    assert(!crate::mem::vmm::is_huge(e2)) by {
        if crate::mem::vmm::present(m2.entry(t2, i2)) {
            lemma_nothing();
            if crate::mem::vmm::present(m1.entry(t3, i3)) {
                assert(m2 == m1);
                if crate::mem::vmm::present(m.entry(pml4, i4)) {
                    assert(m1 == m);
                } else {
                    assert(m1.entry(t3, i3) == 0);
                }
            } else {
                assert(m2.entry(t2, i2) == 0);
            }
        }
    }
    lemma_entry_set(m3, t1, i1, phys | flags, pml4, i4);
    lemma_entry_set(m3, t1, i1, phys | flags, t3, i3);
    lemma_entry_set(m3, t1, i1, phys | flags, t2, i2);
    lemma_entry_set(m3, t1, i1, phys | flags, t1, i1);
    // the entry was empty, so it is none of those above it
    assert(pml4 / 4096 == t1 / 4096 ==> m3.entry(pml4, i4) == m3.entry(t1, i4));
    assert(t3 / 4096 == t1 / 4096 ==> m3.entry(t3, i3) == m3.entry(t1, i3));
    assert(t2 / 4096 == t1 / 4096 ==> m3.entry(t2, i2) == m3.entry(t1, i2));
}

/// A page that was mapped is found where it was mapped to, with every address
/// in it.
pub proof fn law_mapped_page_translates(m: MemV, pml4: u64, va: u64, phys: u64, flags: u64, off: u64)
    requires
        sound(m),
        walk_reserved(m, pml4, va),
        no_large_page(m, pml4, va),
        crate::mem::vmm::map_spec(m, pml4, va, phys, flags).1 is Ok,
        crate::mem::vmm::present(flags),
        crate::mem::vmm::frame_of(flags) == 0,
        crate::mem::vmm::frame_of(phys) == phys,
        off < 4096,
    ensures
        crate::mem::vmm::translate_spec(
            crate::mem::vmm::map_spec(m, pml4, va, phys, flags).0,
            pml4,
            (va + off) as u64,
        ) == Some((phys + off) as u64),
{
    lemma_mapped_walk(m, pml4, va, phys, flags);
    lemma_same_page(va, off);
    let e = phys | flags;
    assert(e & 1 != 0 && e & 0x000F_FFFF_FFFF_F000 == phys && phys | off == phys + off) by (bit_vector)
        requires
            e == phys | flags,
            flags & 1 != 0,
            flags & 0x000F_FFFF_FFFF_F000 == 0,
            phys & 0x000F_FFFF_FFFF_F000 == phys,
            off < 4096,
    ;
}

/// A page that is mapped cannot be mapped again: the second map is refused and
/// changes nothing.
pub proof fn law_map_refuses_a_mapped_page(
    m: MemV,
    pml4: u64,
    va: u64,
    phys: u64,
    flags: u64,
    phys2: u64,
    flags2: u64,
)
    requires
        sound(m),
        walk_reserved(m, pml4, va),
        no_large_page(m, pml4, va),
        crate::mem::vmm::map_spec(m, pml4, va, phys, flags).1 is Ok,
        crate::mem::vmm::present(flags),
        phys2 % 4096 == 0,
    ensures
        ({
            let n = crate::mem::vmm::map_spec(m, pml4, va, phys, flags).0;
            crate::mem::vmm::map_spec(n, pml4, va, phys2, flags2) == (
                n,
                Err::<(), Seq<char>>("map: page already mapped"@),
            )
        }),
{
    lemma_mapped_walk(m, pml4, va, phys, flags);
    assert((phys | flags) & 1 != 0) by (bit_vector)
        requires
            flags & 1 != 0,
    ;
}

/// Unmapping a page that was mapped gives its frame back.
pub proof fn law_unmap_undoes_map(m: MemV, pml4: u64, va: u64, phys: u64, flags: u64)
    requires
        sound(m),
        walk_reserved(m, pml4, va),
        no_large_page(m, pml4, va),
        crate::mem::vmm::map_spec(m, pml4, va, phys, flags).1 is Ok,
        crate::mem::vmm::present(flags),
        crate::mem::vmm::frame_of(flags) == 0,
        crate::mem::vmm::frame_of(phys) == phys,
    ensures
        crate::mem::vmm::unmap_spec(crate::mem::vmm::map_spec(m, pml4, va, phys, flags).0, pml4, va).1 == Some(phys),
{
    lemma_mapped_walk(m, pml4, va, phys, flags);
    let e = phys | flags;
    assert(e & 1 != 0 && e & 0x000F_FFFF_FFFF_F000 == phys) by (bit_vector)
        requires
            e == phys | flags,
            flags & 1 != 0,
            flags & 0x000F_FFFF_FFFF_F000 == 0,
            phys & 0x000F_FFFF_FFFF_F000 == phys,
    ;
}

/// A page that was unmapped is found nowhere; the frame that came back is
/// where it was.
pub proof fn law_unmapped_page_is_gone(m: MemV, pml4: u64, va: u64)
    requires
        sound(m),
        crate::mem::vmm::unmap_spec(m, pml4, va).1 is Some,
    ensures
        crate::mem::vmm::translate_spec(crate::mem::vmm::unmap_spec(m, pml4, va).0, pml4, va) is None,
        crate::mem::vmm::translate_spec(m, pml4, va) == Some(
            crate::mem::vmm::unmap_spec(m, pml4, va).1->Some_0 | (va & 0xFFF),
        ),
{
    let (i4, i3, i2, i1) = (
        crate::mem::vmm::index_at(va, 39),
        crate::mem::vmm::index_at(va, 30),
        crate::mem::vmm::index_at(va, 21),
        crate::mem::vmm::index_at(va, 12),
    );
    lemma_index(va, 39);
    lemma_index(va, 30);
    lemma_index(va, 21);
    lemma_index(va, 12);
    let t1 = crate::mem::vmm::leaf_table(m, pml4, va)->Some_0;
    let t3 = crate::mem::vmm::frame_of(m.entry(pml4, i4));
    let t2 = crate::mem::vmm::frame_of(m.entry(t3, i3));
    lemma_entry_set(m, t1, i1, 0, pml4, i4);
    lemma_entry_set(m, t1, i1, 0, t3, i3);
    lemma_entry_set(m, t1, i1, 0, t2, i2);
    lemma_entry_set(m, t1, i1, 0, t1, i1);
    lemma_nothing();
}

/// Mapping a page, whether that succeeds or not, changes no translation that
/// was there before, in this address space or another.
pub proof fn law_map_keeps_translations(m: MemV, pml4: u64, va: u64, phys: u64, flags: u64, other: u64, at: u64)
    requires
        sound(m),
        walk_reserved(m, pml4, va),
        walk_reserved(m, other, at),
        crate::mem::vmm::translate_spec(m, other, at) is Some,
    ensures
        crate::mem::vmm::translate_spec(crate::mem::vmm::map_spec(m, pml4, va, phys, flags).0, other, at)
            == crate::mem::vmm::translate_spec(m, other, at),
{
    let n = crate::mem::vmm::map_spec(m, pml4, va, phys, flags).0;
    lemma_index(at, 39);
    lemma_index(at, 30);
    lemma_index(at, 21);
    lemma_index(at, 12);
    lemma_map_keeps_present(m, pml4, va, phys, flags);
    let t3 = crate::mem::vmm::frame_of(m.entry(other, crate::mem::vmm::index_at(at, 39)));
    let t2 = crate::mem::vmm::frame_of(m.entry(t3, crate::mem::vmm::index_at(at, 30)));
    let t1 = crate::mem::vmm::frame_of(m.entry(t2, crate::mem::vmm::index_at(at, 21)));
    assert(n.entry(other, crate::mem::vmm::index_at(at, 39)) == m.entry(other, crate::mem::vmm::index_at(at, 39)));
    assert(n.entry(t3, crate::mem::vmm::index_at(at, 30)) == m.entry(t3, crate::mem::vmm::index_at(at, 30)));
    if !crate::mem::vmm::is_huge(m.entry(t3, crate::mem::vmm::index_at(at, 30))) {
        assert(n.entry(t2, crate::mem::vmm::index_at(at, 21)) == m.entry(t2, crate::mem::vmm::index_at(at, 21)));
        if !crate::mem::vmm::is_huge(m.entry(t2, crate::mem::vmm::index_at(at, 21))) {
            assert(n.entry(t1, crate::mem::vmm::index_at(at, 12)) == m.entry(t1, crate::mem::vmm::index_at(at, 12)));
        }
    }
}

proof fn lemma_map_keeps_present(m: MemV, pml4: u64, va: u64, phys: u64, flags: u64)
    requires
        sound(m),
        walk_reserved(m, pml4, va),
    ensures
        ({
            let n = crate::mem::vmm::map_spec(m, pml4, va, phys, flags).0;
            forall|u: u64, j: int|
                #![trigger n.entry(u, j)]
                reserved(m, u) && 0 <= j < 512 && crate::mem::vmm::present(m.entry(u, j)) ==> n.entry(u, j) == m.entry(
                    u,
                    j,
                )
        }),
{
    let n = crate::mem::vmm::map_spec(m, pml4, va, phys, flags).0;
    let (i4, i3, i2, i1) = (
        crate::mem::vmm::index_at(va, 39),
        crate::mem::vmm::index_at(va, 30),
        crate::mem::vmm::index_at(va, 21),
        crate::mem::vmm::index_at(va, 12),
    );
    lemma_index(va, 39);
    lemma_index(va, 30);
    lemma_index(va, 21);
    lemma_index(va, 12);
    lemma_nothing();
    lemma_descend(m, pml4, i4, USER_DIR);
    let (m1, r4) = crate::mem::vmm::descend_spec(m, pml4, i4, USER_DIR);
    if r4 is Some {
        let t3 = crate::mem::vmm::frame_of(r4->Some_0);
        lemma_descend(m1, t3, i3, USER_DIR);
        let (m2, r3) = crate::mem::vmm::descend_spec(m1, t3, i3, USER_DIR);
        if r3 is Some && !crate::mem::vmm::is_huge(r3->Some_0) {
            let t2 = crate::mem::vmm::frame_of(r3->Some_0);
            assert(reserved(m2, t2)) by {
                if crate::mem::vmm::present(m1.entry(t3, i3)) {
                    if crate::mem::vmm::present(m.entry(pml4, i4)) {
                        assert(m1 == m);
                    } else {
                        assert(m1.entry(t3, i3) == 0);
                    }
                }
            }
            lemma_descend(m2, t2, i2, USER_DIR);
            let (m3, r2) = crate::mem::vmm::descend_spec(m2, t2, i2, USER_DIR);
            assert forall|u: u64, j: int|
                #![trigger n.entry(u, j)]
                reserved(m, u) && 0 <= j < 512 && crate::mem::vmm::present(m.entry(u, j)) implies n.entry(u, j)
                == m.entry(u, j) by {
                assert(m1.entry(u, j) == m.entry(u, j));
                assert(reserved(m1, u));
                assert(m2.entry(u, j) == m.entry(u, j));
                assert(reserved(m2, u));
                assert(m3.entry(u, j) == m.entry(u, j));
                if r2 is Some {
                    let t1 = crate::mem::vmm::frame_of(r2->Some_0);
                    lemma_entry_set(m3, t1, i1, phys | flags, u, j);
                    assert(u / 4096 == t1 / 4096 ==> m3.entry(u, j) == m3.entry(t1, j));
                }
            }
        } else {
            assert forall|u: u64, j: int|
                #![trigger n.entry(u, j)]
                reserved(m, u) && 0 <= j < 512 && crate::mem::vmm::present(m.entry(u, j)) implies n.entry(u, j)
                == m.entry(u, j) by {
                assert(m1.entry(u, j) == m.entry(u, j));
                assert(reserved(m1, u));
                assert(m2.entry(u, j) == m.entry(u, j));
            }
        }
    }
}

// ---------------------------------------------------------------------------
// Copy-on-write
// ---------------------------------------------------------------------------
/// The entry of a page is none of those that lead to it, and its table is not
/// the page.
pub open spec fn leaf_apart(m: MemV, pml4: u64, va: u64) -> bool {
    let i4 = crate::mem::vmm::index_at(va, 39);
    let i3 = crate::mem::vmm::index_at(va, 30);
    let i2 = crate::mem::vmm::index_at(va, 21);
    let i1 = crate::mem::vmm::index_at(va, 12);
    let t3 = crate::mem::vmm::frame_of(m.entry(pml4, i4));
    let t2 = crate::mem::vmm::frame_of(m.entry(t3, i3));
    let t1 = crate::mem::vmm::frame_of(m.entry(t2, i2));
    &&& !(pml4 / 4096 == t1 / 4096 && i4 == i1)
    &&& !(t3 / 4096 == t1 / 4096 && i3 == i1)
    &&& !(t2 / 4096 == t1 / 4096 && i2 == i1)
    &&& crate::mem::vmm::frame_of(m.entry(t1, i1)) / 4096 != t1 / 4096
}

/// The leaf entry of an address.
pub open spec fn leaf_of(m: MemV, pml4: u64, va: u64) -> u64 {
    m.entry(crate::mem::vmm::leaf_table(m, pml4, va)->Some_0, crate::mem::vmm::index_at(va, 12))
}

/// Words of other frames than a fresh one are not changed by a copy to it.
proof fn lemma_copied(m: MemV, from: u64, to: u64, u: u64, j: int)
    requires
        sound(m),
    ensures
        ({
            let n = MemV { ram: crate::mem::phys::copied(m.ram, from, to), ..m };
            &&& sound(n)
            &&& u / 4096 != to / 4096 ==> n.entry(u, j) == m.entry(u, j)
        }),
{
    let n = MemV { ram: crate::mem::phys::copied(m.ram, from, to), ..m };
    assert forall|f: u64| n.ram.dom().contains(f) implies (#[trigger] n.ram[f]).len() == 512 by {
        if f != to / 4096 {
            assert(m.ram.dom().contains(f));
        }
    }
}

/// A write fault on a shared page leaves the writer with a page of its own:
/// it may be written, is not shared, and holds what the shared page held. If
/// others had a share, it is another frame, and theirs is as it was.
pub proof fn law_cow_gives_a_private_page(m: MemV, cr3: u64, va: u64)
    requires
        sound(m),
        walk_reserved(m, crate::mem::vmm::frame_of(cr3), va),
        leaf_apart(m, crate::mem::vmm::frame_of(cr3), va),
        crate::mem::vmm::cow_resolve_spec(m, cr3, va).1,
    ensures
        ({
            let n = crate::mem::vmm::cow_resolve_spec(m, cr3, va).0;
            let pml4 = crate::mem::vmm::frame_of(cr3);
            let before = crate::mem::vmm::frame_of(leaf_of(m, pml4, va));
            let after = crate::mem::vmm::frame_of(leaf_of(n, pml4, va));
            &&& crate::mem::vmm::translate_spec(n, pml4, va) == Some(after | (va & 0xFFF))
            &&& leaf_of(n, pml4, va) & WRITABLE != 0
            &&& leaf_of(n, pml4, va) & PTE_COW == 0
            &&& crate::mem::phys::frame_at(n.ram, after / 4096) == crate::mem::phys::frame_at(m.ram, before / 4096)
            &&& crate::mem::phys::frame_at(n.ram, before / 4096) == crate::mem::phys::frame_at(m.ram, before / 4096)
            &&& crate::mem::frames::ref_spec(m.frames, before) > 0 && reserved(m, before) ==> after / 4096 != before
                / 4096
        }),
{
    let pml4 = crate::mem::vmm::frame_of(cr3);
    let n = crate::mem::vmm::cow_resolve_spec(m, cr3, va).0;
    let (i4, i3, i2, i1) = (
        crate::mem::vmm::index_at(va, 39),
        crate::mem::vmm::index_at(va, 30),
        crate::mem::vmm::index_at(va, 21),
        crate::mem::vmm::index_at(va, 12),
    );
    lemma_index(va, 39);
    lemma_index(va, 30);
    lemma_index(va, 21);
    lemma_index(va, 12);
    let t1 = crate::mem::vmm::leaf_table(m, pml4, va)->Some_0;
    let t3 = crate::mem::vmm::frame_of(m.entry(pml4, i4));
    let t2 = crate::mem::vmm::frame_of(m.entry(t3, i3));
    let e = m.entry(t1, i1);
    let phys = crate::mem::vmm::frame_of(e);
    if crate::mem::frames::ref_spec(m.frames, phys) == 0 {
        assert((e & 0x000F_FFFF_FFFF_F000) & 0x000F_FFFF_FFFF_F000 == e & 0x000F_FFFF_FFFF_F000) by (bit_vector);
        lemma_private(e, phys);
        let x = crate::mem::vmm::private_entry(e, phys);
        lemma_entry_set(m, t1, i1, x, pml4, i4);
        lemma_entry_set(m, t1, i1, x, t3, i3);
        lemma_entry_set(m, t1, i1, x, t2, i2);
        lemma_entry_set(m, t1, i1, x, t1, i1);
        let k = m.with_entry(t1, i1, x);
        assert(n.ram == k.ram);
        assert(n.entry(pml4, i4) == k.entry(pml4, i4));
        assert(n.entry(t3, i3) == k.entry(t3, i3));
        assert(n.entry(t2, i2) == k.entry(t2, i2));
        assert(n.entry(t1, i1) == k.entry(t1, i1));
    } else {
        crate::mem::frames::law_alloc_hands_out_a_free_frame(m.frames);
        let (f, r) = crate::mem::frames::alloc_spec(m.frames);
        let to = r->Some_0;
        assert(to < 0x4000_0000 && to % 4096 == 0);
        assert(to & 0x000F_FFFF_FFFF_F000 == to) by (bit_vector)
            requires
                to < 0x4000_0000,
                to % 4096 == 0,
        ;
        lemma_private(e, to);
        let x = crate::mem::vmm::private_entry(e, to);
        let m0 = MemV { frames: f, ..m };
        let m1 = MemV { frames: f, ram: crate::mem::phys::copied(m.ram, phys, to), ..m };
        assert(sound(m0));
        lemma_copied(m0, phys, to, pml4, i4);
        lemma_copied(m0, phys, to, t3, i3);
        lemma_copied(m0, phys, to, t2, i2);
        lemma_copied(m0, phys, to, t1, i1);
        assert(m1 == MemV { ram: crate::mem::phys::copied(m0.ram, phys, to), ..m0 });
        assert(to / 4096 != pml4 / 4096 && to / 4096 != t3 / 4096 && to / 4096 != t2 / 4096 && to / 4096 != t1 / 4096);
        lemma_entry_set(m1, t1, i1, x, pml4, i4);
        lemma_entry_set(m1, t1, i1, x, t3, i3);
        lemma_entry_set(m1, t1, i1, x, t2, i2);
        lemma_entry_set(m1, t1, i1, x, t1, i1);
        let k = m1.with_entry(t1, i1, x);
        assert(n.ram == k.ram);
        assert(n.entry(pml4, i4) == m.entry(pml4, i4));
        assert(n.entry(t3, i3) == m.entry(t3, i3));
        assert(n.entry(t2, i2) == m.entry(t2, i2));
        assert(n.entry(t1, i1) == x);
        assert(crate::mem::phys::frame_at(m1.ram, to / 4096) == crate::mem::phys::frame_at(m.ram, phys / 4096));
        assert(crate::mem::phys::frame_at(k.ram, to / 4096) == crate::mem::phys::frame_at(m1.ram, to / 4096));
    }
}

/// The bits of an entry that may be written again.
proof fn lemma_private(e: u64, frame: u64)
    requires
        crate::mem::vmm::present(e),
        crate::mem::vmm::frame_of(frame) == frame,
    ensures
        crate::mem::vmm::present(crate::mem::vmm::private_entry(e, frame)),
        crate::mem::vmm::frame_of(crate::mem::vmm::private_entry(e, frame)) == frame,
        crate::mem::vmm::private_entry(e, frame) & WRITABLE != 0,
        crate::mem::vmm::private_entry(e, frame) & PTE_COW == 0,
{
    let x = frame | ((e & !0x000F_FFFF_FFFF_F000u64) & !0x200u64) | 2;
    assert(x & 1 != 0 && x & 0x000F_FFFF_FFFF_F000 == frame && x & 2 != 0 && x & 0x200 == 0) by (bit_vector)
        requires
            x == frame | ((e & !0x000F_FFFF_FFFF_F000u64) & !0x200u64) | 2,
            e & 1 != 0,
            frame & 0x000F_FFFF_FFFF_F000 == frame,
    ;
}

} // verus!
