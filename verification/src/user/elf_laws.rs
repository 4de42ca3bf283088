//! What a loaded program finds in its memory: the bytes of its file where the
//! headers put them, and zeroes behind them.

use vstd::prelude::*;

use crate::mem::frames::MAX_FRAMES;
use crate::mem::vmm::MemV;
use crate::user::elf::Segment;

verus! {

/// What the space holds at an address.
pub open spec fn held(m: MemV, pml4: u64, va: int) -> Option<u8> {
    match crate::mem::vmm::translate_spec(m, pml4, va as u64) {
        None => None,
        Some(pa) => Some(crate::mem::phys::byte_at(m.ram, pa)),
    }
}

/// Where page `q` of the lower half is.
pub open spec fn page_at(m: MemV, pml4: u64, q: int) -> Option<u64> {
    crate::mem::vmm::translate_spec(m, pml4, (q * 4096) as u64)
}

/// Where byte `off` of page `q` is.
pub open spec fn spot(m: MemV, pml4: u64, q: int, off: int) -> Option<u64> {
    crate::mem::vmm::translate_spec(m, pml4, (q * 4096 + off) as u64)
}

/// The pages of the lower half, each in a frame of its own that no table uses.
pub open spec fn pages_apart(m: MemV, pml4: u64) -> bool {
    &&& crate::mem::vmm_laws::sound(m)
    &&& crate::mem::tree_laws::tree(m, pml4)
    &&& forall|q: int, off: int|
        0 <= q < 0x8_0000_0000 && 0 <= off < 4096 ==> #[trigger] spot(m, pml4, q, off) == (match page_at(m, pml4, q) {
            None => None::<u64>,
            Some(p) => Some((p + off) as u64),
        })
    &&& forall|q: int|
        0 <= q < 0x8_0000_0000 ==> (#[trigger] page_at(m, pml4, q) matches Some(p) ==> p % 4096 == 0 && p / 4096
            < MAX_FRAMES && crate::mem::tree_laws::off_tree(m, pml4, p))
    &&& forall|q: int, r: int|
        0 <= q < 0x8_0000_0000 && 0 <= r < 0x8_0000_0000 && q != r && #[trigger] page_at(m, pml4, q) is Some
            && #[trigger] page_at(m, pml4, r) is Some ==> page_at(m, pml4, q)->Some_0 / 4096 != page_at(
            m,
            pml4,
            r,
        )->Some_0 / 4096
}

/// Page `r` is where it was, and holds what it held.
pub open spec fn page_kept(m: MemV, n: MemV, pml4: u64, r: int) -> bool {
    &&& page_at(n, pml4, r) == page_at(m, pml4, r)
    &&& page_at(m, pml4, r) matches Some(p) ==> crate::mem::fork_laws::same_page(m, n, p)
}

/// Page `q` is there, all zero.
pub open spec fn page_blank(n: MemV, pml4: u64, q: int) -> bool {
    page_at(n, pml4, q) matches Some(p) && forall|j: int| 0 <= j < 512 ==> #[trigger] n.entry(p, j) == 0
}

pub proof fn lemma_held(m: MemV, pml4: u64, va: int)
    requires
        pages_apart(m, pml4),
        0 <= va < 0x8000_0000_0000,
    ensures
        page_at(m, pml4, va / 4096) is None ==> held(m, pml4, va) is None,
        page_at(m, pml4, va / 4096) matches Some(p) ==> {
            let pa = (p + va % 4096) as u64;
            &&& crate::mem::vmm::translate_spec(m, pml4, va as u64) == Some(pa)
            &&& pa == p + va % 4096
            &&& pa / 4096 == p / 4096
            &&& pa % 4096 == va % 4096
        },
{
    let q = va / 4096;
    let off = va % 4096;
    assert(q * 4096 + off == va);
    assert(spot(m, pml4, q, off) == (match page_at(m, pml4, q) {
        None => None::<u64>,
        Some(p) => Some((p + off) as u64),
    }));
}

pub proof fn lemma_kept_byte(m: MemV, n: MemV, pml4: u64, va: int)
    requires
        pages_apart(m, pml4),
        pages_apart(n, pml4),
        0 <= va < 0x8000_0000_0000,
        page_kept(m, n, pml4, va / 4096),
    ensures
        held(n, pml4, va) == held(m, pml4, va),
{
    lemma_held(m, pml4, va);
    lemma_held(n, pml4, va);
    if let Some(p) = page_at(m, pml4, va / 4096) {
        let pa = (p + va % 4096) as u64;
        let j = (pa % 4096 / 8) as int;
        assert(n.entry(p, j) == m.entry(p, j));
        assert(crate::mem::phys::word_at(n.ram, pa, j) == crate::mem::phys::word_at(m.ram, pa, j));
    }
}

pub proof fn lemma_blank_byte(n: MemV, pml4: u64, va: int)
    requires
        pages_apart(n, pml4),
        0 <= va < 0x8000_0000_0000,
        page_blank(n, pml4, va / 4096),
    ensures
        held(n, pml4, va) == Some(0u8),
{
    lemma_held(n, pml4, va);
    let p = page_at(n, pml4, va / 4096)->Some_0;
    let pa = (p + va % 4096) as u64;
    let j = (pa % 4096 / 8) as int;
    assert(n.entry(p, j) == 0);
    assert(crate::mem::phys::word_at(n.ram, pa, j) == 0);
    let s = (8 * (pa % 8)) as u64;
    assert(((0u64 >> s) & 0xFF) as u8 == 0) by (bit_vector);
}

/// A new page: a fresh frame, mapped.
#[verifier::spinoff_prover]
pub proof fn lemma_mapped(m: MemV, pml4: u64, q: int, flags: u64)
    requires
        pages_apart(m, pml4),
        0 <= q < 0x8_0000_0000,
        page_at(m, pml4, q) is None,
        crate::mem::frames::alloc_spec(m.frames).1 is Some,
        crate::mem::vmm::present(flags),
        crate::mem::vmm::frame_of(flags) == 0,
        crate::mem::vmm::map_spec(
            MemV { frames: crate::mem::frames::alloc_spec(m.frames).0, ..m },
            pml4,
            (q * 4096) as u64,
            crate::mem::frames::alloc_spec(m.frames).1->Some_0,
            flags,
        ).1 is Ok,
    ensures
        ({
            let f = crate::mem::frames::alloc_spec(m.frames).1->Some_0;
            let n = crate::mem::vmm::map_spec(
                MemV { frames: crate::mem::frames::alloc_spec(m.frames).0, ..m },
                pml4,
                (q * 4096) as u64,
                f,
                flags,
            ).0;
            &&& f % 4096 == 0 && f / 4096 < MAX_FRAMES
            &&& pages_apart(n, pml4)
            &&& page_at(n, pml4, q) == Some(f)
            &&& forall|r: int| 0 <= r < 0x8_0000_0000 && r != q ==> #[trigger] page_kept(m, n, pml4, r)
        }),
{
    let va = (q * 4096) as u64;
    let f = crate::mem::frames::alloc_spec(m.frames).1->Some_0;
    let m0 = MemV { frames: crate::mem::frames::alloc_spec(m.frames).0, ..m };
    crate::mem::frames::law_alloc_hands_out_a_free_frame(m.frames);
    lemma_taken(m, pml4, f);
    assert(crate::mem::vmm_laws::no_large_page(m0, pml4, va));
    crate::mem::tree_laws::law_map_keeps_other_pages(m0, pml4, va, f, flags);
    crate::mem::tree_laws::lemma_walk_reserved(m0, pml4, va);
    lemma_frame(f);
    let n = crate::mem::vmm::map_spec(m0, pml4, va, f, flags).0;
    assert(crate::mem::tree_laws::off_tree(n, pml4, f));
    assert forall|off: int| 0 <= off < 4096 implies #[trigger] spot(n, pml4, q, off) == Some((f + off) as u64) by {
        crate::mem::vmm_laws::law_mapped_page_translates(m0, pml4, va, f, flags, off as u64);
    }
    assert(spot(n, pml4, q, 0) == page_at(n, pml4, q));
    assert forall|r: int, off: int| 0 <= r < 0x8_0000_0000 && r != q && 0 <= off < 4096 implies #[trigger] spot(
        n,
        pml4,
        r,
        off,
    ) == spot(m, pml4, r, off) by {
        let at = (r * 4096 + off) as u64;
        assert(at / 4096 == r);
        assert(crate::mem::tree_laws::other_page(va, at));
    }
    assert forall|r: int| 0 <= r < 0x8_0000_0000 && r != q implies #[trigger] page_kept(m, n, pml4, r) by {
        assert(spot(n, pml4, r, 0) == spot(m, pml4, r, 0));
        assert(page_at(n, pml4, r) == page_at(m, pml4, r));
        if let Some(p) = page_at(m, pml4, r) {
            assert(crate::mem::tree_laws::off_tree(m, pml4, p));
            assert(crate::mem::tree_laws::off_tree(m0, pml4, p));
            assert(crate::mem::tree_laws::off_tree(n, pml4, p));
            assert forall|j: int| 0 <= j < 512 implies #[trigger] n.entry(p, j) == m.entry(p, j) by {
                assert(n.entry(p, j) == m0.entry(p, j));
            }
        }
    }
    assert forall|r: int| 0 <= r < 0x8_0000_0000 implies (#[trigger] page_at(n, pml4, r) matches Some(p) ==> p % 4096
        == 0 && p / 4096 < MAX_FRAMES && crate::mem::tree_laws::off_tree(n, pml4, p)) by {
        if r != q {
            assert(page_kept(m, n, pml4, r));
            if let Some(p) = page_at(m, pml4, r) {
                assert(crate::mem::tree_laws::off_tree(m0, pml4, p));
            }
        }
    }
    assert forall|r: int, off: int| 0 <= r < 0x8_0000_0000 && 0 <= off < 4096 implies #[trigger] spot(
        n,
        pml4,
        r,
        off,
    ) == (match page_at(n, pml4, r) {
        None => None::<u64>,
        Some(p) => Some((p + off) as u64),
    }) by {
        if r != q {
            assert(page_kept(m, n, pml4, r));
        }
    }
    assert forall|r: int, t: int|
        0 <= r < 0x8_0000_0000 && 0 <= t < 0x8_0000_0000 && r != t && #[trigger] page_at(n, pml4, r) is Some
            && #[trigger] page_at(n, pml4, t) is Some implies page_at(n, pml4, r)->Some_0 / 4096 != page_at(
        n,
        pml4,
        t,
    )->Some_0 / 4096 by {
        if r != q {
            assert(page_kept(m, n, pml4, r));
            assert(crate::mem::tree_laws::off_tree(m, pml4, page_at(m, pml4, r)->Some_0));
        }
        if t != q {
            assert(page_kept(m, n, pml4, t));
            assert(crate::mem::tree_laws::off_tree(m, pml4, page_at(m, pml4, t)->Some_0));
        }
    }
}

/// New bytes in the frame of a page: every page stays where it is, and every
/// other page holds what it held.
#[verifier::spinoff_prover]
pub proof fn lemma_refilled(m: MemV, n: MemV, pml4: u64, q: int)
    requires
        pages_apart(m, pml4),
        crate::mem::vmm_laws::sound(n),
        0 <= q < 0x8_0000_0000,
        page_at(m, pml4, q) is Some,
        n.frames == m.frames,
        forall|u: u64, j: int|
            #![trigger n.entry(u, j)]
            u / 4096 != page_at(m, pml4, q)->Some_0 / 4096 && 0 <= j < 512 ==> n.entry(u, j) == m.entry(u, j),
    ensures
        pages_apart(n, pml4),
        forall|r: int| 0 <= r < 0x8_0000_0000 ==> #[trigger] page_at(n, pml4, r) == page_at(m, pml4, r),
        forall|r: int| 0 <= r < 0x8_0000_0000 && r != q ==> #[trigger] page_kept(m, n, pml4, r),
{
    let f = page_at(m, pml4, q)->Some_0;
    assert(crate::mem::tree_laws::off_tree(m, pml4, f));
    lemma_written_beside(m, n, pml4, f);
    assert forall|r: int| #[trigger] page_at(n, pml4, r) == page_at(m, pml4, r) by {}
    assert forall|r: int, off: int| #[trigger] spot(n, pml4, r, off) == spot(m, pml4, r, off) by {}
    assert forall|r: int| 0 <= r < 0x8_0000_0000 implies (#[trigger] page_at(n, pml4, r) matches Some(p) ==> p % 4096
        == 0 && p / 4096 < MAX_FRAMES && crate::mem::tree_laws::off_tree(n, pml4, p)) by {
        if let Some(p) = page_at(m, pml4, r) {
            assert(crate::mem::tree_laws::off_tree(m, pml4, p));
        }
    }
    assert forall|r: int, t: int|
        0 <= r < 0x8_0000_0000 && 0 <= t < 0x8_0000_0000 && r != t && #[trigger] page_at(n, pml4, r) is Some
            && #[trigger] page_at(n, pml4, t) is Some implies page_at(n, pml4, r)->Some_0 / 4096 != page_at(
        n,
        pml4,
        t,
    )->Some_0 / 4096 by {
        assert(page_at(m, pml4, r) is Some && page_at(m, pml4, t) is Some);
    }
    assert forall|r: int| 0 <= r < 0x8_0000_0000 && r != q implies #[trigger] page_kept(m, n, pml4, r) by {
        assert(page_at(n, pml4, r) == page_at(m, pml4, r));
        if let Some(p) = page_at(m, pml4, r) {
            assert(p / 4096 != f / 4096);
            assert forall|j: int| 0 <= j < 512 implies #[trigger] n.entry(p, j) == m.entry(p, j) by {}
        }
    }
}

/// A new page: a fresh frame, mapped and cleared.
#[verifier::spinoff_prover]
pub proof fn lemma_new_page(m: MemV, pml4: u64, q: int, flags: u64)
    requires
        pages_apart(m, pml4),
        0 <= q < 0x8_0000_0000,
        page_at(m, pml4, q) is None,
        crate::mem::frames::alloc_spec(m.frames).1 is Some,
        crate::mem::vmm::present(flags),
        crate::mem::vmm::frame_of(flags) == 0,
        crate::mem::vmm::map_spec(
            MemV { frames: crate::mem::frames::alloc_spec(m.frames).0, ..m },
            pml4,
            (q * 4096) as u64,
            crate::mem::frames::alloc_spec(m.frames).1->Some_0,
            flags,
        ).1 is Ok,
    ensures
        ({
            let f = crate::mem::frames::alloc_spec(m.frames).1->Some_0;
            let m1 = crate::mem::vmm::map_spec(
                MemV { frames: crate::mem::frames::alloc_spec(m.frames).0, ..m },
                pml4,
                (q * 4096) as u64,
                f,
                flags,
            ).0;
            let n = MemV { ram: crate::mem::phys::cleared(m1.ram, f), ..m1 };
            &&& pages_apart(n, pml4)
            &&& page_blank(n, pml4, q)
            &&& forall|r: int| 0 <= r < 0x8_0000_0000 && r != q ==> #[trigger] page_kept(m, n, pml4, r)
        }),
{
    let f = crate::mem::frames::alloc_spec(m.frames).1->Some_0;
    lemma_mapped(m, pml4, q, flags);
    let m1 = crate::mem::vmm::map_spec(
        MemV { frames: crate::mem::frames::alloc_spec(m.frames).0, ..m },
        pml4,
        (q * 4096) as u64,
        f,
        flags,
    ).0;
    let n = MemV { ram: crate::mem::phys::cleared(m1.ram, f), ..m1 };
    assert(crate::mem::tree_laws::off_tree(m1, pml4, f));
    lemma_cleared(m1, pml4, f);
    lemma_refilled(m1, n, pml4, q);
    assert(page_at(n, pml4, q) == page_at(m1, pml4, q));
    assert forall|r: int| 0 <= r < 0x8_0000_0000 && r != q implies #[trigger] page_kept(m, n, pml4, r) by {
        assert(page_kept(m, m1, pml4, r));
        assert(page_kept(m1, n, pml4, r));
    }
}

/// A frame address is one for the tables too.
pub proof fn lemma_frame(f: u64)
    requires
        f % 4096 == 0,
        f / 4096 < MAX_FRAMES,
    ensures
        crate::mem::vmm::frame_of(f) == f,
{
    assert(f & 0x000F_FFFF_FFFF_F000 == f) by (bit_vector)
        requires
            f % 4096 == 0,
            f / 4096 < 0x4_0000,
    ;
}

/// Taking a free frame changes no table, and the frame is none.
#[verifier::spinoff_prover]
pub proof fn lemma_taken(m: MemV, pml4: u64, f: u64)
    requires
        crate::mem::vmm_laws::sound(m),
        crate::mem::tree_laws::tree(m, pml4),
        crate::mem::frames::alloc_spec(m.frames).1 == Some(f),
    ensures
        ({
            let m0 = MemV { frames: crate::mem::frames::alloc_spec(m.frames).0, ..m };
            &&& crate::mem::vmm_laws::sound(m0)
            &&& crate::mem::tree_laws::tree(m0, pml4)
            &&& crate::mem::tree_laws::off_tree(m0, pml4, f)
            &&& forall|u: u64| #[trigger]
                crate::mem::tree_laws::off_tree(m, pml4, u) ==> crate::mem::tree_laws::off_tree(m0, pml4, u)
        }),
{
    crate::mem::frames::law_alloc_hands_out_a_free_frame(m.frames);
    let m0 = MemV { frames: crate::mem::frames::alloc_spec(m.frames).0, ..m };
    assert forall|a: u64, k: int| #[trigger]
        crate::mem::tree_laws::table_at(m0, pml4, a, k) == crate::mem::tree_laws::table_at(m, pml4, a, k) by {
        crate::mem::tree_laws::lemma_same_tables(m, m0, pml4, a, k);
    }
    assert forall|u: u64| #[trigger]
        crate::mem::vmm_laws::reserved(m, u) implies crate::mem::vmm_laws::reserved(m0, u) by {}
    assert forall|a: u64, k: int|
        #![trigger crate::mem::tree_laws::table_at(m0, pml4, a, k)]
        0 <= k <= 3 && crate::mem::tree_laws::table_at(m0, pml4, a, k) is Some implies {
        &&& crate::mem::vmm_laws::reserved(m0, crate::mem::tree_laws::table_at(m0, pml4, a, k)->Some_0)
        &&& crate::mem::tree_laws::table_at(m0, pml4, a, k)->Some_0 / 4096 != f / 4096
    } by {
        assert(crate::mem::tree_laws::table_at(m, pml4, a, k) is Some);
        assert(crate::mem::vmm_laws::reserved(m, crate::mem::tree_laws::table_at(m, pml4, a, k)->Some_0));
    }
    assert forall|a: u64, b: u64, k: int, l: int|
        #![trigger crate::mem::tree_laws::table_at(m0, pml4, a, k), crate::mem::tree_laws::table_at(m0, pml4, b, l)]
        0 <= k <= 3 && 0 <= l <= 3 && crate::mem::tree_laws::table_at(m0, pml4, a, k) is Some
            && crate::mem::tree_laws::table_at(m0, pml4, b, l) is Some && crate::mem::tree_laws::table_at(
            m0,
            pml4,
            a,
            k,
        )->Some_0 / 4096 == crate::mem::tree_laws::table_at(m0, pml4, b, l)->Some_0 / 4096 implies k == l
        && crate::mem::tree_laws::agree(a, b, k) by {
        assert(crate::mem::tree_laws::table_at(m, pml4, a, k) is Some);
        assert(crate::mem::tree_laws::table_at(m, pml4, b, l) is Some);
    }
}

/// Writing to a frame that is no table: the tables and the translations stay,
/// and so do the other frames.
#[verifier::spinoff_prover]
pub proof fn lemma_written_beside(m: MemV, n: MemV, pml4: u64, f: u64)
    requires
        crate::mem::vmm_laws::sound(m),
        crate::mem::vmm_laws::sound(n),
        crate::mem::tree_laws::tree(m, pml4),
        crate::mem::tree_laws::off_tree(m, pml4, f),
        n.frames == m.frames,
        forall|u: u64, j: int|
            #![trigger n.entry(u, j)]
            u / 4096 != f / 4096 && 0 <= j < 512 ==> n.entry(u, j) == m.entry(u, j),
    ensures
        crate::mem::tree_laws::tree(n, pml4),
        forall|at: u64| #[trigger]
            crate::mem::vmm::translate_spec(n, pml4, at) == crate::mem::vmm::translate_spec(m, pml4, at),
        forall|u: u64| #[trigger]
            crate::mem::tree_laws::off_tree(m, pml4, u) ==> crate::mem::tree_laws::off_tree(n, pml4, u),
{
    assert forall|a: u64, l: int|
        #![trigger crate::mem::tree_laws::table_at(m, pml4, a, l)]
        0 <= l <= 3 && crate::mem::tree_laws::table_at(m, pml4, a, l) is Some implies crate::mem::tree_laws::entry_at(
        n,
        crate::mem::tree_laws::table_at(m, pml4, a, l)->Some_0,
        a,
        l,
    ) == crate::mem::tree_laws::entry_at(m, crate::mem::tree_laws::table_at(m, pml4, a, l)->Some_0, a, l) by {
        crate::mem::tree_laws::lemma_shift(a, l);
    }
    assert forall|a: u64, k: int| 0 <= k <= 3 implies #[trigger] crate::mem::tree_laws::table_at(n, pml4, a, k)
        == crate::mem::tree_laws::table_at(m, pml4, a, k) by {
        crate::mem::tree_laws::lemma_same_tables(m, n, pml4, a, k);
    }
    assert forall|a: u64, k: int|
        #![trigger crate::mem::tree_laws::table_at(n, pml4, a, k)]
        0 <= k <= 3 && crate::mem::tree_laws::table_at(n, pml4, a, k) is Some implies crate::mem::vmm_laws::reserved(
        n,
        crate::mem::tree_laws::table_at(n, pml4, a, k)->Some_0,
    ) by {
        assert(crate::mem::tree_laws::table_at(m, pml4, a, k) is Some);
        assert(crate::mem::vmm_laws::reserved(m, crate::mem::tree_laws::table_at(m, pml4, a, k)->Some_0));
    }
    assert forall|a: u64, b: u64, k: int, l: int|
        #![trigger crate::mem::tree_laws::table_at(n, pml4, a, k), crate::mem::tree_laws::table_at(n, pml4, b, l)]
        0 <= k <= 3 && 0 <= l <= 3 && crate::mem::tree_laws::table_at(n, pml4, a, k) is Some
            && crate::mem::tree_laws::table_at(n, pml4, b, l) is Some && crate::mem::tree_laws::table_at(
            n,
            pml4,
            a,
            k,
        )->Some_0 / 4096 == crate::mem::tree_laws::table_at(n, pml4, b, l)->Some_0 / 4096 implies k == l
        && crate::mem::tree_laws::agree(a, b, k) by {
        assert(crate::mem::tree_laws::table_at(m, pml4, a, k) is Some);
        assert(crate::mem::tree_laws::table_at(m, pml4, b, l) is Some);
    }
    assert forall|at: u64| #[trigger]
        crate::mem::vmm::translate_spec(n, pml4, at) == crate::mem::vmm::translate_spec(m, pml4, at) by {
        crate::mem::tree_laws::lemma_same_place(m, n, pml4, at);
    }
    assert forall|u: u64| #[trigger] crate::mem::tree_laws::off_tree(m, pml4, u) implies crate::mem::tree_laws::off_tree(
        n,
        pml4,
        u,
    ) by {
        assert forall|a: u64, k: int|
            #![trigger crate::mem::tree_laws::table_at(n, pml4, a, k)]
            0 <= k <= 3 && crate::mem::tree_laws::table_at(n, pml4, a, k) is Some implies crate::mem::tree_laws::table_at(
            n,
            pml4,
            a,
            k,
        )->Some_0 / 4096 != u / 4096 by {
            assert(crate::mem::tree_laws::table_at(m, pml4, a, k) is Some);
        }
    }
}

/// Clearing a frame that is no table.
proof fn lemma_cleared(m: MemV, pml4: u64, f: u64)
    requires
        crate::mem::vmm_laws::sound(m),
        crate::mem::tree_laws::tree(m, pml4),
        crate::mem::tree_laws::off_tree(m, pml4, f),
    ensures
        ({
            let n = MemV { ram: crate::mem::phys::cleared(m.ram, f), ..m };
            &&& crate::mem::vmm_laws::sound(n)
            &&& crate::mem::tree_laws::tree(n, pml4)
            &&& forall|at: u64| #[trigger]
                crate::mem::vmm::translate_spec(n, pml4, at) == crate::mem::vmm::translate_spec(m, pml4, at)
            &&& forall|u: u64| #[trigger]
                crate::mem::tree_laws::off_tree(m, pml4, u) ==> crate::mem::tree_laws::off_tree(n, pml4, u)
            &&& forall|j: int| 0 <= j < 512 ==> #[trigger] n.entry(f, j) == 0
            &&& forall|u: u64, j: int|
                #![trigger n.entry(u, j)]
                u / 4096 != f / 4096 && 0 <= j < 512 ==> n.entry(u, j) == m.entry(u, j)
        }),
{
    let n = MemV { ram: crate::mem::phys::cleared(m.ram, f), ..m };
    assert forall|g: u64| n.ram.dom().contains(g) implies (#[trigger] n.ram[g]).len() == 512 by {
        if g != f / 4096 {
            assert(m.ram.dom().contains(g));
        }
    }
    assert(crate::mem::vmm_laws::sound(n));
    lemma_written_beside(m, n, pml4, f);
}

/// The flags of a segment's pages: present, for the program, writable exactly
/// where the segment is, and executable exactly where the segment is.
#[verifier::spinoff_prover]
pub proof fn law_page_flags(f: u32)
    ensures
        ({
            let r = crate::user::elf::seg_flags(f);
            &&& r & 1 == 1
            &&& r & 4 == 4
            &&& (r & 2 == 2) == (f & 2 == 2)
            &&& (r >> 63 == 0) == (f & 1 == 1)
            &&& r & 0x7FFF_FFFF_FFFF_FFF8 == 0
        }),
        crate::mem::vmm::present(crate::user::elf::seg_flags(f)),
        crate::mem::vmm::frame_of(crate::user::elf::seg_flags(f)) == 0,
{
    let w: u64 = if f & 2 != 0 {
        (1u64 | 4) | 2
    } else {
        1u64 | 4
    };
    let r: u64 = if f & 1 == 0 {
        w | 0x8000_0000_0000_0000
    } else {
        w
    };
    assert(r & 1 == 1 && r & 1 != 0 && r & 4 == 4 && (r & 2 == 2) == (f & 2 == 2) && (r >> 63 == 0) == (f & 1 == 1) && r
        & 0x7FFF_FFFF_FFFF_FFF8 == 0 && r & 0x000F_FFFF_FFFF_F000 == 0) by (bit_vector)
        requires
            w == (if f & 2 != 0 {
                (1u64 | 4) | 2
            } else {
                1u64 | 4
            }),
            r == (if f & 1 == 0 {
                w | 0x8000_0000_0000_0000
            } else {
                w
            }),
    ;
}

/// The pages of a segment are there, all zero, and no other page has changed.
#[verifier::spinoff_prover]
proof fn lemma_pages(m: MemV, pml4: u64, page: int, end: int, flags: u64)
    requires
        pages_apart(m, pml4),
        0 <= page,
        page % 4096 == 0,
        end % 4096 == 0,
        end <= 0x8000_0000_0000,
        crate::mem::vmm::present(flags),
        crate::mem::vmm::frame_of(flags) == 0,
        crate::user::elf::map_pages(m, pml4, page, end, flags).1 is Ok,
    ensures
        ({
            let n = crate::user::elf::map_pages(m, pml4, page, end, flags).0;
            &&& pages_apart(n, pml4)
            &&& forall|r: int|
                0 <= r < 0x8_0000_0000 && !(page <= r * 4096 < end) ==> #[trigger] page_kept(m, n, pml4, r)
            &&& forall|r: int|
                0 <= r < 0x8_0000_0000 && page <= r * 4096 < end ==> #[trigger] page_blank(n, pml4, r) && page_at(
                    m,
                    pml4,
                    r,
                ) is None
        }),
    decreases end + 4096 - page,
{
    let n = crate::user::elf::map_pages(m, pml4, page, end, flags).0;
    if page < end {
        let q = page / 4096;
        assert(q * 4096 == page);
        assert(page_at(m, pml4, q) == crate::mem::vmm::translate_spec(m, pml4, page as u64));
        lemma_new_page(m, pml4, q, flags);
        let f = crate::mem::frames::alloc_spec(m.frames).1->Some_0;
        let m1 = crate::mem::vmm::map_spec(
            MemV { frames: crate::mem::frames::alloc_spec(m.frames).0, ..m },
            pml4,
            page as u64,
            f,
            flags,
        ).0;
        let m2 = MemV { ram: crate::mem::phys::cleared(m1.ram, f), ..m1 };
        lemma_pages(m2, pml4, page + 4096, end, flags);
        assert forall|r: int| 0 <= r < 0x8_0000_0000 && !(page <= r * 4096 < end) implies #[trigger] page_kept(
            m,
            n,
            pml4,
            r,
        ) by {
            assert(page_kept(m, m2, pml4, r));
            assert(page_kept(m2, n, pml4, r));
        }
        assert forall|r: int| 0 <= r < 0x8_0000_0000 && page <= r * 4096 < end implies #[trigger] page_blank(
            n,
            pml4,
            r,
        ) && page_at(m, pml4, r) is None by {
            if r == q {
                assert(page_blank(m2, pml4, q));
                assert(page_kept(m2, n, pml4, q));
            } else {
                assert(r * 4096 >= page + 4096);
                assert(page_blank(n, pml4, r));
                assert(page_kept(m, m2, pml4, r));
            }
        }
    } else {
        assert forall|r: int| 0 <= r < 0x8_0000_0000 implies #[trigger] page_kept(m, n, pml4, r) by {}
    }
}

/// A byte written to a page of the space changes that byte and nothing else.
#[verifier::spinoff_prover]
pub proof fn lemma_byte(m: MemV, pml4: u64, va: int, b: u8)
    requires
        pages_apart(m, pml4),
        0 <= va < 0x8000_0000_0000,
        page_at(m, pml4, va / 4096) is Some,
    ensures
        ({
            let pa = crate::mem::vmm::translate_spec(m, pml4, va as u64)->Some_0;
            let n = MemV { ram: crate::mem::phys::with_byte_at(m.ram, pa, b), ..m };
            &&& crate::mem::vmm::translate_spec(m, pml4, va as u64) is Some
            &&& pages_apart(n, pml4)
            &&& forall|q: int| 0 <= q < 0x8_0000_0000 ==> #[trigger] page_at(n, pml4, q) == page_at(m, pml4, q)
            &&& held(n, pml4, va) == Some(b)
            &&& forall|at: int|
                0 <= at < 0x8000_0000_0000 && at != va ==> #[trigger] held(n, pml4, at) == held(m, pml4, at)
        }),
{
    lemma_held(m, pml4, va);
    let p = page_at(m, pml4, va / 4096)->Some_0;
    let pa = crate::mem::vmm::translate_spec(m, pml4, va as u64)->Some_0;
    let i = (pa % 4096 / 8) as int;
    let w = crate::mem::phys::with_byte(crate::mem::phys::word_at(m.ram, pa, i), pa % 8, b);
    let n = MemV { ram: crate::mem::phys::with_byte_at(m.ram, pa, b), ..m };
    assert(n == m.with_entry(pa, i, w));
    crate::mem::vmm_laws::lemma_entry_set(m, pa, i, w, pa, i);
    assert forall|u: u64, j: int|
        #![trigger n.entry(u, j)]
        u / 4096 != pa / 4096 && 0 <= j < 512 implies n.entry(u, j) == m.entry(u, j) by {
        crate::mem::vmm_laws::lemma_entry_set(m, pa, i, w, u, j);
    }
    assert(crate::mem::tree_laws::off_tree(m, pml4, p));
    assert(crate::mem::tree_laws::off_tree(m, pml4, pa));
    lemma_written_beside(m, n, pml4, pa);
    assert forall|q: int| #[trigger] page_at(n, pml4, q) == page_at(m, pml4, q) by {}
    assert forall|q: int, off: int| #[trigger] spot(n, pml4, q, off) == spot(m, pml4, q, off) by {}
    assert forall|q: int| 0 <= q < 0x8_0000_0000 implies (#[trigger] page_at(n, pml4, q) matches Some(x) ==> x % 4096
        == 0 && x / 4096 < MAX_FRAMES && crate::mem::tree_laws::off_tree(n, pml4, x)) by {
        if let Some(x) = page_at(m, pml4, q) {
            assert(crate::mem::tree_laws::off_tree(m, pml4, x));
        }
    }
    assert forall|q: int, r: int|
        0 <= q < 0x8_0000_0000 && 0 <= r < 0x8_0000_0000 && q != r && #[trigger] page_at(n, pml4, q) is Some
            && #[trigger] page_at(n, pml4, r) is Some implies page_at(n, pml4, q)->Some_0 / 4096 != page_at(
        n,
        pml4,
        r,
    )->Some_0 / 4096 by {
        assert(page_at(m, pml4, q) is Some && page_at(m, pml4, r) is Some);
    }
    crate::mem::phys::lemma_byte_write(m.ram, pa, b, pa);
    assert forall|at: int| 0 <= at < 0x8000_0000_0000 && at != va implies #[trigger] held(n, pml4, at) == held(
        m,
        pml4,
        at,
    ) by {
        lemma_held(m, pml4, at);
        if let Some(x) = page_at(m, pml4, at / 4096) {
            let y = crate::mem::vmm::translate_spec(m, pml4, at as u64)->Some_0;
            if at / 4096 != va / 4096 {
                assert(x / 4096 != p / 4096);
            }
            assert(y != pa);
            crate::mem::phys::lemma_byte_write(m.ram, pa, b, y);
        }
    }
}

/// Bytes copied into pages that are there.
#[verifier::spinoff_prover]
proof fn lemma_copied(m: MemV, pml4: u64, vaddr: u64, b: Seq<u8>, off: int, n: int, k: int)
    requires
        pages_apart(m, pml4),
        0 <= k <= n,
        vaddr + n <= 0x8000_0000_0000,
        forall|q: int| vaddr / 4096 <= q && q * 4096 < vaddr + n ==> #[trigger] page_at(m, pml4, q) is Some,
    ensures
        ({
            let (x, r) = crate::user::elf::copy_in(m, pml4, vaddr, b, off, n, k);
            &&& r is Ok
            &&& pages_apart(x, pml4)
            &&& forall|q: int| 0 <= q < 0x8_0000_0000 ==> #[trigger] page_at(x, pml4, q) == page_at(m, pml4, q)
            &&& forall|at: int|
                0 <= at < 0x8000_0000_0000 ==> #[trigger] held(x, pml4, at) == if vaddr + k <= at < vaddr + n {
                    Some(b[off + at - vaddr])
                } else {
                    held(m, pml4, at)
                }
        }),
    decreases n - k,
{
    if k < n {
        let va = vaddr + k;
        assert(page_at(m, pml4, va / 4096) is Some);
        lemma_byte(m, pml4, va, b[off + k]);
        let pa = crate::mem::vmm::translate_spec(m, pml4, va as u64)->Some_0;
        let m1 = MemV { ram: crate::mem::phys::with_byte_at(m.ram, pa, b[off + k]), ..m };
        lemma_copied(m1, pml4, vaddr, b, off, n, k + 1);
        let x = crate::user::elf::copy_in(m, pml4, vaddr, b, off, n, k).0;
        assert forall|at: int| 0 <= at < 0x8000_0000_0000 implies #[trigger] held(x, pml4, at) == (if vaddr + k <= at
            < vaddr + n {
            Some(b[off + at - vaddr])
        } else {
            held(m, pml4, at)
        }) by {
            if at != va {
                assert(held(m1, pml4, at) == held(m, pml4, at));
            }
        }
    }
}

/// A segment that was loaded: `filesz` bytes of the image from `offset` on, up
/// to `memsz`, then zeroes up to `memsz`, and everything else as it was.
#[verifier::spinoff_prover]
#[verifier::rlimit(60)]
proof fn lemma_segment(m: MemV, pml4: u64, b: Seq<u8>, s: Segment)
    requires
        pages_apart(m, pml4),
        s.memsz > 0,
        s.vaddr + s.memsz <= 0x8000_0000_0000,
        crate::user::elf::load_segment(m, pml4, b, s).1 is Ok,
    ensures
        ({
            let n = crate::user::elf::load_segment(m, pml4, b, s).0;
            &&& pages_apart(n, pml4)
            &&& s.offset + s.filesz <= b.len()
            &&& forall|q: int|
                s.vaddr + s.memsz <= q * 4096 && q < 0x8_0000_0000 ==> #[trigger] page_at(n, pml4, q) == page_at(
                    m,
                    pml4,
                    q,
                )
            &&& forall|k: int|
                0 <= k < s.memsz ==> #[trigger] held(n, pml4, s.vaddr + k) == Some(
                    if k < s.filesz {
                        b[s.offset + k]
                    } else {
                        0u8
                    },
                )
            &&& forall|at: int|
                0 <= at < 0x8000_0000_0000 && held(m, pml4, at) is Some ==> #[trigger] held(n, pml4, at) == held(
                    m,
                    pml4,
                    at,
                )
        }),
{
    let page = crate::mem::vmm::down(s.vaddr);
    let end = crate::mem::vmm::up((s.vaddr + s.memsz) as u64);
    let flags = crate::user::elf::seg_flags(s.flags);
    let len = crate::user::elf::copy_len(s);
    law_page_flags(s.flags);
    assert(page % 4096 == 0 && end % 4096 == 0 && end <= 0x8000_0000_0000 && page <= s.vaddr && s.vaddr + s.memsz <= end);
    lemma_pages(m, pml4, page, end, flags);
    let m1 = crate::user::elf::map_pages(m, pml4, page, end, flags).0;
    assert forall|q: int| s.vaddr / 4096 <= q && q * 4096 < s.vaddr + len implies #[trigger] page_at(
        m1,
        pml4,
        q,
    ) is Some by {
        assert(page_blank(m1, pml4, q));
    }
    lemma_copied(m1, pml4, s.vaddr, b, s.offset as int, len, 0);
    let n = crate::user::elf::load_segment(m, pml4, b, s).0;
    assert forall|q: int| s.vaddr + s.memsz <= q * 4096 && q < 0x8_0000_0000 implies #[trigger] page_at(n, pml4, q)
        == page_at(m, pml4, q) by {
        assert(q * 4096 >= end);
        assert(page_kept(m, m1, pml4, q));
        assert(page_at(n, pml4, q) == page_at(m1, pml4, q));
    }
    assert forall|k: int| 0 <= k < s.memsz implies #[trigger] held(n, pml4, s.vaddr + k) == Some(
        if k < s.filesz {
            b[s.offset + k]
        } else {
            0u8
        },
    ) by {
        let at = s.vaddr + k;
        if k >= s.filesz {
            assert(page_blank(m1, pml4, at / 4096));
            lemma_blank_byte(m1, pml4, at);
        } else {
            assert(s.offset + at - s.vaddr == s.offset + k);
        }
    }
    assert forall|at: int| 0 <= at < 0x8000_0000_0000 && held(m, pml4, at) is Some implies #[trigger] held(n, pml4, at)
        == held(m, pml4, at) by {
        let q = at / 4096;
        lemma_held(m, pml4, at);
        if page <= q * 4096 < end {
            assert(page_blank(m1, pml4, q));
        } else {
            assert(page_kept(m, m1, pml4, q));
            lemma_kept_byte(m, m1, pml4, at);
        }
    }
}

/// All segments from the `i`-th header on.
#[verifier::spinoff_prover]
proof fn lemma_segments(m: MemV, pml4: u64, b: Seq<u8>, i: int, count: usize, bytes: u64, top: int)
    requires
        pages_apart(m, pml4),
        0 <= i,
        forall|j: int|
            0 <= j < crate::bytes::rd_le2(b, 56) && #[trigger] crate::user::elf::loads(b, j) ==> ends_below(b, j, top),
        top <= 0x8000_0000_0000,
        crate::user::elf::load_segments(m, pml4, b, i, count, bytes).1 is Ok,
    ensures
        ({
            let n = crate::user::elf::load_segments(m, pml4, b, i, count, bytes).0;
            &&& pages_apart(n, pml4)
            &&& forall|q: int|
                top <= q * 4096 && 0 <= q < 0x8_0000_0000 ==> #[trigger] page_at(n, pml4, q) == page_at(m, pml4, q)
            &&& forall|j: int, k: int|
                #![trigger crate::user::elf::loads(b, j), held(n, pml4, crate::user::elf::seg_at(b, j).vaddr + k)]
                i <= j < crate::bytes::rd_le2(b, 56) && crate::user::elf::loads(b, j) && 0 <= k
                    < crate::user::elf::seg_at(b, j).memsz ==> held(
                    n,
                    pml4,
                    crate::user::elf::seg_at(b, j).vaddr + k,
                ) == Some(
                    if k < crate::user::elf::seg_at(b, j).filesz {
                        b[crate::user::elf::seg_at(b, j).offset + k]
                    } else {
                        0u8
                    },
                )
            &&& forall|at: int|
                0 <= at < 0x8000_0000_0000 && held(m, pml4, at) is Some ==> #[trigger] held(n, pml4, at) == held(
                    m,
                    pml4,
                    at,
                )
        }),
    decreases crate::bytes::rd_le2(b, 56) - i,
{
    let n = crate::user::elf::load_segments(m, pml4, b, i, count, bytes).0;
    if i < crate::bytes::rd_le2(b, 56) {
        if crate::user::elf::loads(b, i) {
            let s = crate::user::elf::seg_at(b, i);
            assert(ends_below(b, i, top));
            let m1 = crate::user::elf::load_segment(m, pml4, b, s).0;
            lemma_segment(m, pml4, b, s);
            lemma_segments(
                m1,
                pml4,
                b,
                i + 1,
                count.wrapping_add(1),
                bytes.wrapping_add(crate::user::elf::seg_span(s) as u64),
                top,
            );
            assert forall|q: int| top <= q * 4096 && 0 <= q < 0x8_0000_0000 implies #[trigger] page_at(n, pml4, q)
                == page_at(m, pml4, q) by {
                assert(page_at(m1, pml4, q) == page_at(m, pml4, q));
            }
            assert forall|j: int, k: int|
                #![trigger crate::user::elf::loads(b, j), held(n, pml4, crate::user::elf::seg_at(b, j).vaddr + k)]
                i <= j < crate::bytes::rd_le2(b, 56) && crate::user::elf::loads(b, j) && 0 <= k
                    < crate::user::elf::seg_at(b, j).memsz implies held(
                n,
                pml4,
                crate::user::elf::seg_at(b, j).vaddr + k,
            ) == Some(
                if k < crate::user::elf::seg_at(b, j).filesz {
                    b[crate::user::elf::seg_at(b, j).offset + k]
                } else {
                    0u8
                },
            ) by {
                if j == i {
                    assert(held(m1, pml4, s.vaddr + k) is Some);
                }
            }
            assert forall|at: int| 0 <= at < 0x8000_0000_0000 && held(m, pml4, at) is Some implies #[trigger] held(
                n,
                pml4,
                at,
            ) == held(m, pml4, at) by {
                assert(held(m1, pml4, at) == held(m, pml4, at));
            }
        } else {
            lemma_segments(m, pml4, b, i + 1, count, bytes, top);
        }
    }
}

/// The segment of the `j`-th header ends at `top` or below.
pub open spec fn ends_below(b: Seq<u8>, j: int, top: int) -> bool {
    crate::user::elf::seg_at(b, j).vaddr + crate::user::elf::seg_at(b, j).memsz <= top
}

/// A program that was loaded into a new space finds its image there. Take any
/// of its loadable headers (type 1): the space holds at `vaddr + k` the byte
/// of the image at `offset + k` while `k` is below the size in the file, and 0
/// from there up to the size in memory. It starts at the entry point that the
/// image names.
#[verifier::spinoff_prover]
pub proof fn law_loaded_program_is_its_image(m0: MemV, b: Seq<u8>, i: int, k: int)
    requires
        crate::mem::vmm_laws::sound(m0),
        crate::mem::tree_laws::tree(m0, m0.kernel),
        crate::mem::vmm::new_root_spec(m0).1 is Some,
        crate::user::elf::load_spec(
            crate::mem::vmm::new_root_spec(m0).0,
            crate::mem::vmm::new_root_spec(m0).1->Some_0,
            b,
        ).1 is Ok,
        forall|j: int|
            0 <= j < crate::bytes::rd_le2(b, 56) && #[trigger] crate::user::elf::loads(b, j) ==> ends_below(
                b,
                j,
                0x8000_0000_0000,
            ),
        0 <= i < crate::bytes::rd_le2(b, 56),
        crate::bytes::rd_le4(b, header(b, i)) == 1,
        0 <= k < crate::bytes::rd_le8(b, header(b, i) + 40),
    ensures
        ({
            let root = crate::mem::vmm::new_root_spec(m0).1->Some_0;
            let (n, r) = crate::user::elf::load_spec(crate::mem::vmm::new_root_spec(m0).0, root, b);
            let offset = crate::bytes::rd_le8(b, header(b, i) + 8);
            let vaddr = crate::bytes::rd_le8(b, header(b, i) + 16);
            let filesz = crate::bytes::rd_le8(b, header(b, i) + 32);
            &&& k < filesz ==> offset + k < b.len() && held(n, root, vaddr + k) == Some(b[offset + k])
            &&& k >= filesz ==> held(n, root, vaddr + k) == Some(0u8)
            &&& r->Ok_0.entry == crate::bytes::rd_le8(b, 24)
        }),
{
    lemma_loaded(m0, b, 0x8000_0000_0000);
    let m = crate::mem::vmm::new_root_spec(m0).0;
    let root = crate::mem::vmm::new_root_spec(m0).1->Some_0;
    let n = crate::user::elf::load_spec(m, root, b).0;
    assert(crate::user::elf::loads(b, i));
    assert(held(n, root, crate::user::elf::seg_at(b, i).vaddr + k) is Some);
    lemma_in_image(m, root, b, 0, i, 0, 0);
}

/// A program in a new space.
#[verifier::spinoff_prover]
pub proof fn lemma_loaded(m0: MemV, b: Seq<u8>, top: int)
    requires
        crate::mem::vmm_laws::sound(m0),
        crate::mem::tree_laws::tree(m0, m0.kernel),
        crate::mem::vmm::new_root_spec(m0).1 is Some,
        crate::user::elf::load_spec(
            crate::mem::vmm::new_root_spec(m0).0,
            crate::mem::vmm::new_root_spec(m0).1->Some_0,
            b,
        ).1 is Ok,
        forall|j: int|
            0 <= j < crate::bytes::rd_le2(b, 56) && #[trigger] crate::user::elf::loads(b, j) ==> ends_below(b, j, top),
        top <= 0x8000_0000_0000,
    ensures
        ({
            let root = crate::mem::vmm::new_root_spec(m0).1->Some_0;
            let n = crate::user::elf::load_spec(crate::mem::vmm::new_root_spec(m0).0, root, b).0;
            &&& pages_apart(n, root)
            &&& forall|q: int| top <= q * 4096 && 0 <= q < 0x8_0000_0000 ==> #[trigger] page_at(n, root, q) is None
            &&& forall|j: int, k: int|
                #![trigger crate::user::elf::loads(b, j), held(n, root, crate::user::elf::seg_at(b, j).vaddr + k)]
                0 <= j < crate::bytes::rd_le2(b, 56) && crate::user::elf::loads(b, j) && 0 <= k
                    < crate::user::elf::seg_at(b, j).memsz ==> held(
                    n,
                    root,
                    crate::user::elf::seg_at(b, j).vaddr + k,
                ) == Some(
                    if k < crate::user::elf::seg_at(b, j).filesz {
                        b[crate::user::elf::seg_at(b, j).offset + k]
                    } else {
                        0u8
                    },
                )
        }),
{
    let m = crate::mem::vmm::new_root_spec(m0).0;
    let root = crate::mem::vmm::new_root_spec(m0).1->Some_0;
    crate::mem::tree_laws::law_new_space_is_a_tree(m0);
    assert forall|q: int| 0 <= q < 0x8_0000_0000 implies #[trigger] page_at(m, root, q) is None by {
        assert(((q * 4096) as u64) < 0x0000_8000_0000_0000);
    }
    assert forall|q: int, off: int| 0 <= q < 0x8_0000_0000 && 0 <= off < 4096 implies #[trigger] spot(
        m,
        root,
        q,
        off,
    ) is None by {
        assert(((q * 4096 + off) as u64) < 0x0000_8000_0000_0000);
    }
    assert(pages_apart(m, root));
    lemma_segments(m, root, b, 0, 0, 0, top);
}

/// Where the `i`-th header starts: the table's offset is at byte 32 of the
/// image, the size of a header at byte 54.
pub open spec fn header(b: Seq<u8>, i: int) -> int {
    crate::bytes::rd_le8(b, 32) + i * crate::bytes::rd_le2(b, 54)
}

/// The bytes of a segment that was loaded are in the image.
#[verifier::spinoff_prover]
pub proof fn lemma_in_image(m: MemV, pml4: u64, b: Seq<u8>, i: int, j: int, count: usize, bytes: u64)
    requires
        0 <= i <= j < crate::bytes::rd_le2(b, 56),
        crate::user::elf::loads(b, j),
        crate::user::elf::load_segments(m, pml4, b, i, count, bytes).1 is Ok,
    ensures
        crate::user::elf::seg_at(b, j).offset + crate::user::elf::seg_at(b, j).filesz <= b.len(),
    decreases j - i,
{
    if i < j {
        if crate::user::elf::loads(b, i) {
            let s = crate::user::elf::seg_at(b, i);
            lemma_in_image(
                crate::user::elf::load_segment(m, pml4, b, s).0,
                pml4,
                b,
                i + 1,
                j,
                count.wrapping_add(1),
                bytes.wrapping_add(crate::user::elf::seg_span(s) as u64),
            );
        } else {
            lemma_in_image(m, pml4, b, i + 1, j, count, bytes);
        }
    }
}

} // verus!
