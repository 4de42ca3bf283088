//! What a fork promises: parent and child see the same pages, and neither
//! can write one without getting a copy of its own.

use vstd::prelude::*;

use crate::mem::frames::MAX_FRAMES;
use crate::mem::vmm::{ForkV, MemV, USER_DIR};

verus! {

/// An entry that leads where another led, and allows no write that the other
/// did not.
pub open spec fn alike(e: u64, x: u64) -> bool {
    &&& crate::mem::vmm::present(x) == crate::mem::vmm::present(e)
    &&& crate::mem::vmm::is_huge(x) == crate::mem::vmm::is_huge(e)
    &&& crate::mem::vmm::frame_of(x) == crate::mem::vmm::frame_of(e)
    &&& crate::mem::vmm::is_user_writable(x) ==> crate::mem::vmm::is_user_writable(e)
}

/// The frames that were reserved still are, and all but the one at `c` hold
/// entries like those they held.
pub open spec fn settled(m: MemV, n: MemV, c: u64) -> bool {
    &&& crate::mem::vmm_laws::sound(m)
    &&& crate::mem::vmm_laws::sound(n)
    &&& forall|u: u64| crate::mem::vmm_laws::reserved(m, u) ==> #[trigger] crate::mem::vmm_laws::reserved(n, u)
    &&& forall|u: u64, j: int|
        #![trigger n.entry(u, j)]
        crate::mem::vmm_laws::reserved(m, u) && u / 4096 != c / 4096 && 0 <= j < 512 ==> alike(
            m.entry(u, j),
            n.entry(u, j),
        )
}

pub proof fn lemma_cow_bits(e: u64)
    ensures
        alike(e, crate::mem::vmm::cow_entry(e)),
        !crate::mem::vmm::is_user_writable(crate::mem::vmm::cow_entry(e)),
        crate::mem::vmm::frame_of(e) | crate::mem::vmm::flags_of(e) == e,
{
    let x = (e & 0x000F_FFFF_FFFF_F000u64) | (((e & !0x000F_FFFF_FFFF_F000u64) & !2u64) | 0x200u64);
    assert((x & 1 != 0) == (e & 1 != 0) && (x & 0x80 != 0) == (e & 0x80 != 0) && x & 0x000F_FFFF_FFFF_F000 == e
        & 0x000F_FFFF_FFFF_F000 && (x & !0x000F_FFFF_FFFF_F000u64) & 6 != 6 && ((e & 0x000F_FFFF_FFFF_F000) | (e
        & !0x000F_FFFF_FFFF_F000u64)) == e) by (bit_vector)
        requires
            x == (e & 0x000F_FFFF_FFFF_F000u64) | (((e & !0x000F_FFFF_FFFF_F000u64) & !2u64) | 0x200u64),
    ;
    assert(4u64 | 2u64 == 6) by (bit_vector);
}

/// What sharing a leaf table leaves alike: everything but the child's table,
/// and that up to where the sharing starts.
proof fn lemma_leaves(f: ForkV, p: u64, c: u64, va: int, i: int)
    requires
        crate::mem::vmm_laws::sound(f.m),
        0 <= i <= 512,
    ensures
        ({
            let g = crate::mem::vmm::fork_leaves(f, p, c, va, i);
            &&& crate::mem::vmm_laws::sound(g.m)
            &&& g.m.frames.taken == f.m.frames.taken
            &&& forall|u: u64, j: int|
                #![trigger g.m.entry(u, j)]
                0 <= j < 512 && (u / 4096 != c / 4096 || j < i) ==> alike(f.m.entry(u, j), g.m.entry(u, j))
        }),
    decreases 512 - i,
{
    if i < 512 {
        let e = f.m.entry(p, i);
        let cow = crate::mem::vmm::cow_entry(e);
        if !crate::mem::vmm::present(e) {
            lemma_leaves(f, p, c, va, i + 1);
        } else {
            lemma_cow_bits(e);
            let writable = crate::mem::vmm::is_user_writable(e);
            let a = if writable {
                f.m.with_entry(p, i, cow)
            } else {
                f.m
            };
            let x = if writable {
                cow
            } else {
                crate::mem::vmm::frame_of(e) | crate::mem::vmm::flags_of(e)
            };
            let m1 = a.with_entry(c, i, x);
            let m2 = MemV {
                frames: crate::mem::frames::add_ref_spec(m1.frames, crate::mem::vmm::frame_of(e)),
                ..m1
            };
            let f1 = if writable {
                ForkV { m: m2, stale: f.stale.push((va + i * 4096) as u64) }
            } else {
                ForkV { m: m2, ..f }
            };
            crate::mem::vmm_laws::lemma_entry_set(f.m, p, i, cow, p, i);
            crate::mem::vmm_laws::lemma_entry_set(a, c, i, x, c, i);
            lemma_leaves(f1, p, c, va, i + 1);
            let g = crate::mem::vmm::fork_leaves(f, p, c, va, i);
            assert(g == crate::mem::vmm::fork_leaves(f1, p, c, va, i + 1));
            assert forall|u: u64, j: int|
                #![trigger g.m.entry(u, j)]
                0 <= j < 512 && (u / 4096 != c / 4096 || j < i) implies alike(f.m.entry(u, j), g.m.entry(u, j)) by {
                crate::mem::vmm_laws::lemma_entry_set(f.m, p, i, cow, u, j);
                crate::mem::vmm_laws::lemma_entry_set(a, c, i, x, u, j);
                assert(m2.entry(u, j) == m1.entry(u, j));
                assert(alike(f1.m.entry(u, j), g.m.entry(u, j)));
            }
        }
    }
}

/// What sharing a leaf table puts in the child's: the parent's pages, none of
/// which either can write.
proof fn lemma_leaf_shared(f: ForkV, p: u64, c: u64, va: int, i: int, k: int)
    requires
        crate::mem::vmm_laws::sound(f.m),
        0 <= i <= k < 512,
        p / 4096 != c / 4096,
        !crate::mem::vmm::present(f.m.entry(c, k)),
    ensures
        leaf_same(f.m.entry(p, k), crate::mem::vmm::fork_leaves(f, p, c, va, i).m, p, c, k),
    decreases 512 - i,
{
    let e = f.m.entry(p, i);
    let g = crate::mem::vmm::fork_leaves(f, p, c, va, i);
    if !crate::mem::vmm::present(e) {
        if i < k {
            lemma_leaf_shared(f, p, c, va, i + 1, k);
        } else {
            lemma_leaves(f, p, c, va, i + 1);
            assert(alike(f.m.entry(c, k), g.m.entry(c, k)));
        }
    } else {
        lemma_cow_bits(e);
        let cow = crate::mem::vmm::cow_entry(e);
        let writable = crate::mem::vmm::is_user_writable(e);
        let a = if writable {
            f.m.with_entry(p, i, cow)
        } else {
            f.m
        };
        let x = if writable {
            cow
        } else {
            crate::mem::vmm::frame_of(e) | crate::mem::vmm::flags_of(e)
        };
        let m1 = a.with_entry(c, i, x);
        let m2 = MemV {
            frames: crate::mem::frames::add_ref_spec(m1.frames, crate::mem::vmm::frame_of(e)),
            ..m1
        };
        let f1 = if writable {
            ForkV { m: m2, stale: f.stale.push((va + i * 4096) as u64) }
        } else {
            ForkV { m: m2, ..f }
        };
        assert(g == crate::mem::vmm::fork_leaves(f1, p, c, va, i + 1));
        crate::mem::vmm_laws::lemma_entry_set(f.m, p, i, cow, p, k);
        crate::mem::vmm_laws::lemma_entry_set(f.m, p, i, cow, c, k);
        crate::mem::vmm_laws::lemma_entry_set(a, c, i, x, p, k);
        crate::mem::vmm_laws::lemma_entry_set(a, c, i, x, c, k);
        assert(m2.entry(p, k) == m1.entry(p, k));
        assert(m2.entry(c, k) == m1.entry(c, k));
        if i < k {
            lemma_leaf_shared(f1, p, c, va, i + 1, k);
        } else {
            lemma_leaves(f1, p, c, va, i + 1);
            assert(alike(f1.m.entry(p, k), g.m.entry(p, k)));
            assert(alike(f1.m.entry(c, k), g.m.entry(c, k)));
        }
    }
}

/// Entry `k` of two leaf tables after a fork, where the parent's was `e`.
pub open spec fn leaf_same(e: u64, n: MemV, p: u64, c: u64, k: int) -> bool {
    let x = n.entry(c, k);
    if !crate::mem::vmm::present(e) {
        !crate::mem::vmm::present(x)
    } else {
        &&& crate::mem::vmm::present(x)
        &&& crate::mem::vmm::frame_of(x) == crate::mem::vmm::frame_of(e)
        &&& !crate::mem::vmm::is_user_writable(x)
        &&& !crate::mem::vmm::is_user_writable(n.entry(p, k))
    }
}

/// A fresh table is empty, was free, and is no other's.
pub proof fn lemma_fresh(m: MemV)
    requires
        crate::mem::vmm_laws::sound(m),
    ensures
        ({
            let (n, r) = crate::mem::vmm::new_table_spec(m);
            &&& settled(m, n, 0xFFFF_FFFF_FFFF_F000)
            &&& forall|u: u64, j: int|
                #![trigger n.entry(u, j)]
                crate::mem::vmm_laws::reserved(m, u) && 0 <= j < 512 ==> n.entry(u, j) == m.entry(u, j)
            &&& r matches Some(t) ==> {
                &&& !crate::mem::vmm_laws::reserved(m, t)
                &&& crate::mem::vmm_laws::reserved(n, t)
                &&& t % 4096 == 0 && t < 0x4000_0000
                &&& crate::mem::vmm::frame_of(t | USER_DIR) == t
                &&& crate::mem::vmm::present(t | USER_DIR)
                &&& !crate::mem::vmm::is_huge(t | USER_DIR)
                &&& forall|j: int| 0 <= j < 512 ==> !crate::mem::vmm::present(#[trigger] n.entry(t, j))
            }
        }),
{
    crate::mem::frames::law_alloc_hands_out_a_free_frame(m.frames);
    let (n, r) = crate::mem::vmm::new_table_spec(m);
    match r {
        None => {
            assert(crate::mem::frames::alloc_spec(m.frames).0 == m.frames);
            assert(n =~= m);
        },
        Some(t) => {
            assert(t % 4096 == 0 && t / 4096 < MAX_FRAMES);
            crate::mem::vmm_laws::lemma_dir(t, USER_DIR);
            assert forall|g: u64| n.ram.dom().contains(g) implies (#[trigger] n.ram[g]).len() == 512 by {
                if g != t / 4096 {
                    assert(m.ram.dom().contains(g));
                }
            }
            assert forall|u: u64, j: int|
                #![trigger n.entry(u, j)]
                crate::mem::vmm_laws::reserved(m, u) && 0 <= j < 512 implies n.entry(u, j) == m.entry(u, j) by {
                assert(u / 4096 != t / 4096);
            }
            assert forall|j: int| 0 <= j < 512 implies !crate::mem::vmm::present(#[trigger] n.entry(t, j)) by {
                assert(n.entry(t, j) == 0);
                crate::mem::vmm_laws::lemma_nothing();
            }
        },
    }
}

/// What cloning tables leaves alike: what was reserved before, but for the
/// child's table, and that up to where the cloning starts.
proof fn lemma_tables(level: int, f: ForkV, p: u64, c: u64, va: int, i: int)
    requires
        crate::mem::vmm_laws::sound(f.m),
        crate::mem::vmm_laws::reserved(f.m, c),
        2 <= level <= 4,
        0 <= i <= 512,
    ensures
        ({
            let g = crate::mem::vmm::fork_tables(level, f, p, c, va, i).0;
            &&& settled(f.m, g.m, c)
            &&& forall|j: int| 0 <= j < i ==> alike(f.m.entry(c, j), #[trigger] g.m.entry(c, j))
        }),
    decreases level, 512 - i,
{
    let end: int = if level == 4 {
        256
    } else {
        512
    };
    if i < end {
        let e = f.m.entry(p, i);
        if !crate::mem::vmm::present(e) || (level < 4 && crate::mem::vmm::is_huge(e)) {
            lemma_tables(level, f, p, c, va, i + 1);
        } else {
            let (m1, r) = crate::mem::vmm::new_table_spec(f.m);
            lemma_fresh(f.m);
            match r {
                None => {},
                Some(t) => {
                    let f1 = ForkV { m: m1.with_entry(c, i, t | USER_DIR), ..f };
                    lemma_linked(f.m, c, i);
                    let f2 = below(level, f1, e, t, va, i).0;
                    lemma_below(level, f, p, c, va, i);
                    lemma_tables(level, f2, p, c, va, i + 1);
                    let g = crate::mem::vmm::fork_tables(level, f, p, c, va, i).0;
                    lemma_then(f.m, f2.m, g.m, c);
                    assert forall|j: int| 0 <= j < i implies alike(f.m.entry(c, j), #[trigger] g.m.entry(c, j)) by {
                        assert(alike(f2.m.entry(c, j), g.m.entry(c, j)));
                    }
                },
            }
        }
    }
}

/// The part of a fork that lies under one entry.
pub open spec fn below(level: int, f1: ForkV, e: u64, t: u64, va: int, i: int) -> (ForkV, bool) {
    if level == 2 {
        (crate::mem::vmm::fork_leaves(f1, crate::mem::vmm::frame_of(e), t, va + i * 0x20_0000, 0), true)
    } else {
        crate::mem::vmm::fork_tables(
            level - 1,
            f1,
            crate::mem::vmm::frame_of(e),
            t,
            va + i * (if level == 3 {
                0x4000_0000int
            } else {
                0x80_0000_0000int
            }),
            0,
        )
    }
}

/// A fresh table is entered at `i` of the table at `c`.
proof fn lemma_linked(m: MemV, c: u64, i: int)
    requires
        crate::mem::vmm_laws::sound(m),
        crate::mem::vmm_laws::reserved(m, c),
        0 <= i < 512,
    ensures
        crate::mem::vmm::new_table_spec(m).1 matches Some(t) ==> ({
            let n = crate::mem::vmm::new_table_spec(m).0.with_entry(c, i, t | USER_DIR);
            &&& settled(m, n, c)
            &&& t / 4096 != c / 4096
            &&& crate::mem::vmm_laws::reserved(n, t)
            &&& n.entry(c, i) == t | USER_DIR
            &&& forall|j: int| 0 <= j < 512 && j != i ==> #[trigger] n.entry(c, j) == m.entry(c, j)
            &&& forall|j: int| 0 <= j < 512 ==> !crate::mem::vmm::present(#[trigger] n.entry(t, j))
        }),
{
    lemma_fresh(m);
    let (m1, r) = crate::mem::vmm::new_table_spec(m);
    if let Some(t) = r {
        let n = m1.with_entry(c, i, t | USER_DIR);
        crate::mem::vmm_laws::lemma_entry_set(m1, c, i, t | USER_DIR, c, i);
        assert forall|u: u64, j: int|
            #![trigger n.entry(u, j)]
            crate::mem::vmm_laws::reserved(m, u) && u / 4096 != c / 4096 && 0 <= j < 512 implies alike(
            m.entry(u, j),
            n.entry(u, j),
        ) by {
            crate::mem::vmm_laws::lemma_entry_set(m1, c, i, t | USER_DIR, u, j);
            assert(m1.entry(u, j) == m.entry(u, j));
        }
        assert forall|u: u64| crate::mem::vmm_laws::reserved(m, u) implies #[trigger] crate::mem::vmm_laws::reserved(
            n,
            u,
        ) by {
            assert(crate::mem::vmm_laws::reserved(m1, u));
        }
        assert forall|j: int| 0 <= j < 512 && j != i implies #[trigger] n.entry(c, j) == m.entry(c, j) by {
            crate::mem::vmm_laws::lemma_entry_set(m1, c, i, t | USER_DIR, c, j);
            assert(m1.entry(c, j) == m.entry(c, j));
        }
        assert forall|j: int| 0 <= j < 512 implies !crate::mem::vmm::present(#[trigger] n.entry(t, j)) by {
            crate::mem::vmm_laws::lemma_entry_set(m1, c, i, t | USER_DIR, t, j);
            assert(!crate::mem::vmm::present(m1.entry(t, j)));
        }
    }
}

/// What happens under a fresh entry leaves the table above it alone.
proof fn lemma_below(level: int, f: ForkV, p: u64, c: u64, va: int, i: int)
    requires
        crate::mem::vmm_laws::sound(f.m),
        crate::mem::vmm_laws::reserved(f.m, c),
        2 <= level <= 4,
        0 <= i < 512,
    ensures
        crate::mem::vmm::new_table_spec(f.m).1 matches Some(t) ==> ({
            let n = crate::mem::vmm::new_table_spec(f.m).0.with_entry(c, i, t | USER_DIR);
            let g = below(level, ForkV { m: n, ..f }, f.m.entry(p, i), t, va, i).0;
            &&& settled(f.m, g.m, c)
            &&& settled(n, g.m, t)
            &&& forall|j: int| 0 <= j < 512 ==> alike(n.entry(c, j), #[trigger] g.m.entry(c, j))
            &&& forall|j: int| 0 <= j < 512 && j != i ==> alike(f.m.entry(c, j), #[trigger] g.m.entry(c, j))
        }),
    decreases level, 0int,
{
    lemma_fresh(f.m);
    lemma_linked(f.m, c, i);
    let (m1, r) = crate::mem::vmm::new_table_spec(f.m);
    if let Some(t) = r {
        let n = m1.with_entry(c, i, t | USER_DIR);
        let f1 = ForkV { m: n, ..f };
        let e = f.m.entry(p, i);
        let g = below(level, f1, e, t, va, i).0;
        if level == 2 {
            lemma_leaves(f1, crate::mem::vmm::frame_of(e), t, va + i * 0x20_0000, 0);
        } else {
            lemma_tables(
                level - 1,
                f1,
                crate::mem::vmm::frame_of(e),
                t,
                va + i * (if level == 3 {
                    0x4000_0000int
                } else {
                    0x80_0000_0000int
                }),
                0,
            );
        }
        assert(settled(n, g.m, t));
        assert(crate::mem::vmm_laws::reserved(n, c));
        assert forall|u: u64, j: int|
            #![trigger g.m.entry(u, j)]
            crate::mem::vmm_laws::reserved(f.m, u) && u / 4096 != c / 4096 && 0 <= j < 512 implies alike(
            f.m.entry(u, j),
            g.m.entry(u, j),
        ) by {
            assert(crate::mem::vmm_laws::reserved(n, u));
            assert(u / 4096 != t / 4096);
            assert(alike(n.entry(u, j), g.m.entry(u, j)));
        }
        assert forall|u: u64| crate::mem::vmm_laws::reserved(f.m, u) implies #[trigger] crate::mem::vmm_laws::reserved(
            g.m,
            u,
        ) by {
            assert(crate::mem::vmm_laws::reserved(n, u));
        }
        assert forall|j: int| 0 <= j < 512 && j != i implies alike(f.m.entry(c, j), #[trigger] g.m.entry(c, j)) by {
            assert(alike(n.entry(c, j), g.m.entry(c, j)));
            assert(n.entry(c, j) == f.m.entry(c, j));
        }
    }
}

proof fn lemma_then(m: MemV, n: MemV, k: MemV, c: u64)
    requires
        settled(m, n, c),
        settled(n, k, c),
    ensures
        settled(m, k, c),
{
    assert forall|u: u64, j: int|
        #![trigger k.entry(u, j)]
        crate::mem::vmm_laws::reserved(m, u) && u / 4096 != c / 4096 && 0 <= j < 512 implies alike(
        m.entry(u, j),
        k.entry(u, j),
    ) by {
        assert(crate::mem::vmm_laws::reserved(n, u));
        assert(alike(m.entry(u, j), n.entry(u, j)));
    }
    assert forall|u: u64| crate::mem::vmm_laws::reserved(m, u) implies #[trigger] crate::mem::vmm_laws::reserved(
        k,
        u,
    ) by {
        assert(crate::mem::vmm_laws::reserved(n, u));
    }
}

// ---------------------------------------------------------------------------
// The walk to one address
// ---------------------------------------------------------------------------
/// The index of an address in the tables of a level; level 1 holds pages.
pub open spec fn index_in(level: int, va: u64) -> int {
    if level == 1 {
        crate::mem::vmm::index_at(va, 12)
    } else if level == 2 {
        crate::mem::vmm::index_at(va, 21)
    } else if level == 3 {
        crate::mem::vmm::index_at(va, 30)
    } else {
        crate::mem::vmm::index_at(va, 39)
    }
}

/// The tables on the way to an address from the one at `p` are reserved, and
/// no large page lies on it.
pub open spec fn way(level: int, m: MemV, p: u64, va: u64) -> bool
    decreases level,
{
    let e = m.entry(p, index_in(level, va));
    &&& crate::mem::vmm_laws::reserved(m, p)
    &&& level > 1 && crate::mem::vmm::present(e) ==> (level < 4 ==> !crate::mem::vmm::is_huge(e)) && way(
        level - 1,
        m,
        crate::mem::vmm::frame_of(e),
        va,
    )
}

/// The way to an address from the table at `c`, after a fork, leads where
/// that from the table at `p` led before.
pub open spec fn same_way(level: int, m: MemV, p: u64, n: MemV, c: u64, va: u64) -> bool
    decreases level,
{
    let k = index_in(level, va);
    let (e, x) = (m.entry(p, k), n.entry(c, k));
    if level <= 1 {
        leaf_same(e, n, p, c, k)
    } else if !crate::mem::vmm::present(e) {
        !crate::mem::vmm::present(x)
    } else {
        &&& crate::mem::vmm::present(x)
        &&& !crate::mem::vmm::is_huge(x)
        &&& same_way(level - 1, m, crate::mem::vmm::frame_of(e), n, crate::mem::vmm::frame_of(x), va)
    }
}

/// The tables on the way to an address from the one at `c` are reserved, and
/// those below it were free in `b`.
pub open spec fn new_way(level: int, n: MemV, c: u64, va: u64, b: MemV) -> bool
    decreases level,
{
    let x = n.entry(c, index_in(level, va));
    &&& crate::mem::vmm_laws::reserved(n, c)
    &&& level > 1 && crate::mem::vmm::present(x) ==> !crate::mem::vmm_laws::reserved(
        b,
        crate::mem::vmm::frame_of(x),
    ) && new_way(level - 1, n, crate::mem::vmm::frame_of(x), va, b)
}

proof fn lemma_index_in(level: int, va: u64)
    ensures
        0 <= index_in(level, va) < 512,
{
    crate::mem::vmm_laws::lemma_index(va, 12);
    crate::mem::vmm_laws::lemma_index(va, 21);
    crate::mem::vmm_laws::lemma_index(va, 30);
    crate::mem::vmm_laws::lemma_index(va, 39);
}

/// A way through new tables survives what leaves reserved frames alone.
proof fn lemma_way_kept(level: int, m: MemV, p: u64, n: MemV, t: u64, va: u64, b: MemV, k: MemV, c: u64)
    requires
        1 <= level <= 4,
        way(level, m, p, va),
        same_way(level, m, p, n, t, va),
        new_way(level, n, t, va, b),
        settled(m, n, c),
        settled(n, k, c),
        crate::mem::vmm_laws::reserved(b, c),
        t / 4096 != c / 4096,
        !crate::mem::vmm_laws::reserved(m, c),
    ensures
        same_way(level, m, p, k, t, va),
        new_way(level, k, t, va, b),
    decreases level,
{
    lemma_index_in(level, va);
    let j = index_in(level, va);
    assert(p / 4096 != c / 4096);
    assert(alike(n.entry(t, j), k.entry(t, j)));
    assert(crate::mem::vmm_laws::reserved(k, t));
    let e = m.entry(p, j);
    if level == 1 {
        assert(crate::mem::vmm_laws::reserved(n, p));
        assert(alike(n.entry(p, j), k.entry(p, j)));
    } else if crate::mem::vmm::present(e) {
        lemma_way_kept(
            level - 1,
            m,
            crate::mem::vmm::frame_of(e),
            n,
            crate::mem::vmm::frame_of(n.entry(t, j)),
            va,
            b,
            k,
            c,
        );
    }
}

/// New tables are new with respect to any earlier time.
proof fn lemma_new_before(level: int, n: MemV, t: u64, va: u64, b: MemV, a: MemV)
    requires
        1 <= level <= 4,
        new_way(level, n, t, va, b),
        forall|u: u64| crate::mem::vmm_laws::reserved(a, u) ==> #[trigger] crate::mem::vmm_laws::reserved(b, u),
    ensures
        new_way(level, n, t, va, a),
    decreases level,
{
    let x = n.entry(t, index_in(level, va));
    if level > 1 && crate::mem::vmm::present(x) {
        lemma_new_before(level - 1, n, crate::mem::vmm::frame_of(x), va, b, a);
    }
}

/// Cloning gives the child a way of its own to whatever the parent's way led
/// to in `m`, the memory at some earlier time.
proof fn lemma_same_way(level: int, m: MemV, f: ForkV, p: u64, c: u64, base: int, i: int, va: u64)
    requires
        2 <= level <= 4,
        settled(m, f.m, c),
        !crate::mem::vmm_laws::reserved(m, c),
        crate::mem::vmm_laws::reserved(f.m, c),
        way(level, m, p, va),
        0 <= i <= index_in(level, va),
        level == 4 ==> index_in(level, va) < 256,
        !crate::mem::vmm::present(f.m.entry(c, index_in(level, va))),
        crate::mem::vmm::fork_tables(level, f, p, c, base, i).1,
    ensures
        ({
            let g = crate::mem::vmm::fork_tables(level, f, p, c, base, i).0;
            &&& same_way(level, m, p, g.m, c, va)
            &&& new_way(level, g.m, c, va, f.m)
        }),
    decreases level, 512 - i,
{
    lemma_index_in(level, va);
    let j = index_in(level, va);
    let e = f.m.entry(p, i);
    let g = crate::mem::vmm::fork_tables(level, f, p, c, base, i).0;
    assert(p / 4096 != c / 4096);
    assert(alike(m.entry(p, j), f.m.entry(p, j)));
    lemma_tables(level, f, p, c, base, i);
    assert(crate::mem::vmm_laws::reserved(g.m, c));
    if !crate::mem::vmm::present(e) || (level < 4 && crate::mem::vmm::is_huge(e)) {
        if i < j {
            lemma_same_way(level, m, f, p, c, base, i + 1, va);
        } else {
            lemma_tables(level, f, p, c, base, i + 1);
            assert(alike(f.m.entry(c, j), g.m.entry(c, j)));
        }
    } else {
        lemma_fresh(f.m);
        lemma_linked(f.m, c, i);
        lemma_below(level, f, p, c, base, i);
        let (m1, r) = crate::mem::vmm::new_table_spec(f.m);
        if let Some(t) = r {
            let n = m1.with_entry(c, i, t | USER_DIR);
            let f1 = ForkV { m: n, ..f };
            let (f2, ok) = below(level, f1, e, t, base, i);
            assert(ok);
            assert(g == crate::mem::vmm::fork_tables(level, f2, p, c, base, i + 1).0);
            lemma_then(m, f.m, f2.m, c);
            assert(crate::mem::vmm_laws::reserved(f2.m, c));
            if i < j {
                assert(alike(f.m.entry(c, j), f2.m.entry(c, j)));
                lemma_same_way(level, m, f2, p, c, base, i + 1, va);
                assert forall|u: u64| crate::mem::vmm_laws::reserved(f.m, u) implies
                    #[trigger] crate::mem::vmm_laws::reserved(f2.m, u) by {
                }
                lemma_new_before(level, g.m, c, va, f2.m, f.m);
            } else {
                lemma_under(level, m, f, p, c, base, va);
                lemma_tables(level, f2, p, c, base, i + 1);
                assert(alike(f2.m.entry(c, j), g.m.entry(c, j)));
                assert(alike(n.entry(c, j), f2.m.entry(c, j)));
                let q = crate::mem::vmm::frame_of(m.entry(p, j));
                lemma_way_kept(level - 1, m, q, f2.m, t, va, n, g.m, c);
                lemma_new_before(level - 1, g.m, t, va, n, f.m);
            }
        }
    }
}

/// The part of that under the entry of the address.
proof fn lemma_under(level: int, m: MemV, f: ForkV, p: u64, c: u64, base: int, va: u64)
    requires
        2 <= level <= 4,
        settled(m, f.m, c),
        !crate::mem::vmm_laws::reserved(m, c),
        crate::mem::vmm_laws::reserved(f.m, c),
        way(level, m, p, va),
        crate::mem::vmm::present(f.m.entry(p, index_in(level, va))),
        ({
            let i = index_in(level, va);
            crate::mem::vmm::new_table_spec(f.m).1 matches Some(t) && below(
                level,
                ForkV { m: crate::mem::vmm::new_table_spec(f.m).0.with_entry(c, i, t | USER_DIR), ..f },
                f.m.entry(p, i),
                t,
                base,
                i,
            ).1
        }),
    ensures
        ({
            let i = index_in(level, va);
            let t = crate::mem::vmm::new_table_spec(f.m).1->Some_0;
            let n = crate::mem::vmm::new_table_spec(f.m).0.with_entry(c, i, t | USER_DIR);
            let g = below(level, ForkV { m: n, ..f }, f.m.entry(p, i), t, base, i).0;
            let q = crate::mem::vmm::frame_of(m.entry(p, i));
            &&& same_way(level - 1, m, q, g.m, t, va)
            &&& new_way(level - 1, g.m, t, va, n)
        }),
    decreases level, 0int,
{
    let i = index_in(level, va);
    lemma_index_in(level, va);
    lemma_index_in(level - 1, va);
    let j = index_in(level - 1, va);
    lemma_fresh(f.m);
    lemma_linked(f.m, c, i);
    let t = crate::mem::vmm::new_table_spec(f.m).1->Some_0;
    let n = crate::mem::vmm::new_table_spec(f.m).0.with_entry(c, i, t | USER_DIR);
    let f1 = ForkV { m: n, ..f };
    let e = f.m.entry(p, i);
    let q = crate::mem::vmm::frame_of(e);
    assert(p / 4096 != c / 4096);
    assert(alike(m.entry(p, i), e));
    assert(way(level - 1, m, q, va));
    lemma_then(m, f.m, n, c);
    assert(!crate::mem::vmm_laws::reserved(m, t)) by {
        if crate::mem::vmm_laws::reserved(m, t) {
            assert(crate::mem::vmm_laws::reserved(f.m, t));
        }
    }
    assert forall|u: u64, k: int|
        #![trigger n.entry(u, k)]
        crate::mem::vmm_laws::reserved(m, u) && u / 4096 != t / 4096 && 0 <= k < 512 implies alike(
        m.entry(u, k),
        n.entry(u, k),
    ) by {
        assert(u / 4096 != c / 4096);
    }
    assert(settled(m, n, t));
    if level == 2 {
        let at = base + i * 0x20_0000;
        assert(q / 4096 != t / 4096);
        assert(crate::mem::vmm_laws::reserved(m, q));
        assert(alike(m.entry(q, j), n.entry(q, j)));
        lemma_leaves(f1, q, t, at, 0);
        lemma_leaf_shared(f1, q, t, at, 0, j);
        assert(crate::mem::vmm_laws::reserved(crate::mem::vmm::fork_leaves(f1, q, t, at, 0).m, t));
    } else {
        if level == 4 {
            assert(level - 1 == 3);
        }
        lemma_same_way(
            level - 1,
            m,
            f1,
            q,
            t,
            base + i * (if level == 3 {
                0x4000_0000int
            } else {
                0x80_0000_0000int
            }),
            0,
            va,
        );
    }
}

/// The kernel's half goes into the new root only.
pub proof fn lemma_upper(m: MemV, t: u64, i: int)
    requires
        crate::mem::vmm_laws::sound(m),
        256 <= i <= 512,
    ensures
        ({
            let n = crate::mem::vmm::upper_shared(m, t, i);
            &&& crate::mem::vmm_laws::sound(n)
            &&& n.frames == m.frames
            &&& forall|u: u64, j: int|
                #![trigger n.entry(u, j)]
                0 <= j < 512 && (u / 4096 != t / 4096 || j < i) ==> n.entry(u, j) == m.entry(u, j)
        }),
    decreases 512 - i,
{
    if i < 512 {
        let e = m.entry(m.kernel, i);
        let m1 = m.with_entry(t, i, e);
        crate::mem::vmm_laws::lemma_entry_set(m, t, i, e, t, i);
        lemma_upper(m1, t, i + 1);
        let n = crate::mem::vmm::upper_shared(m, t, i);
        assert forall|u: u64, j: int|
            #![trigger n.entry(u, j)]
            0 <= j < 512 && (u / 4096 != t / 4096 || j < i) implies n.entry(u, j) == m.entry(u, j) by {
            crate::mem::vmm_laws::lemma_entry_set(m, t, i, e, u, j);
            assert(n.entry(u, j) == m1.entry(u, j));
        }
    }
}

/// A new root leaves what was reserved as it was.
proof fn lemma_root_made(m: MemV, t: u64)
    requires
        crate::mem::vmm_laws::sound(m),
        crate::mem::vmm::new_table_spec(m).1 == Some(t),
    ensures
        settled(m, crate::mem::vmm::upper_shared(crate::mem::vmm::new_table_spec(m).0, t, 256), t),
        crate::mem::vmm_laws::reserved(
            crate::mem::vmm::upper_shared(crate::mem::vmm::new_table_spec(m).0, t, 256),
            t,
        ),
{
    lemma_fresh(m);
    let m0 = crate::mem::vmm::new_table_spec(m).0;
    lemma_upper(m0, t, 256);
    let m1 = crate::mem::vmm::upper_shared(m0, t, 256);
    assert forall|u: u64, j: int|
        #![trigger m1.entry(u, j)]
        crate::mem::vmm_laws::reserved(m, u) && u / 4096 != t / 4096 && 0 <= j < 512 implies alike(
        m.entry(u, j),
        m1.entry(u, j),
    ) by {
        assert(m0.entry(u, j) == m.entry(u, j));
    }
    assert forall|u: u64| crate::mem::vmm_laws::reserved(m, u) implies #[trigger] crate::mem::vmm_laws::reserved(
        m1,
        u,
    ) by {
        assert(crate::mem::vmm_laws::reserved(m0, u));
    }
}

/// After a fork, parent and child both find every page of the parent at the
/// address where it was, in the frame where it was, and neither may write it:
/// the first write by either gets a copy. This is of the user half, as far as
/// it is mapped in pages of 4 KiB.
pub proof fn law_fork_shares_every_page(m: MemV, pml4: u64, va: u64)
    requires
        crate::mem::vmm_laws::sound(m),
        way(4, m, pml4, va),
        va < 0x0000_8000_0000_0000,
        crate::mem::vmm::fork_spec(m, pml4).1 is Some,
    ensures
        ({
            let n = crate::mem::vmm::fork_spec(m, pml4).0;
            let child = crate::mem::vmm::fork_spec(m, pml4).1->Some_0;
            let pa = crate::mem::vmm::translate_spec(m, pml4, va);
            &&& crate::mem::vmm::translate_spec(n, child, va) == pa
            &&& crate::mem::vmm::translate_spec(n, pml4, va) == pa
            &&& pa is Some ==> !crate::mem::vmm::is_user_writable(crate::mem::vmm_laws::leaf_of(n, child, va))
                && !crate::mem::vmm::is_user_writable(crate::mem::vmm_laws::leaf_of(n, pml4, va))
        }),
{
    let (i4, i3, i2, i1) = (index_in(4, va), index_in(3, va), index_in(2, va), index_in(1, va));
    lemma_index_in(4, va);
    lemma_index_in(3, va);
    lemma_index_in(2, va);
    lemma_index_in(1, va);
    assert((va >> 39) & 0x1FF < 256) by (bit_vector)
        requires
            va < 0x0000_8000_0000_0000,
    ;
    lemma_fresh(m);
    let (m0, r) = crate::mem::vmm::new_table_spec(m);
    let t = r->Some_0;
    lemma_upper(m0, t, 256);
    let m1 = crate::mem::vmm::upper_shared(m0, t, 256);
    lemma_root_made(m, t);
    assert(!crate::mem::vmm::present(m1.entry(t, i4))) by {
        assert(!crate::mem::vmm::present(m0.entry(t, i4)));
    }
    let f = ForkV { m: m1, stale: Seq::empty() };
    lemma_same_way(4, m, f, pml4, t, 0, 0, va);
    lemma_tables(4, f, pml4, t, 0, 0);
    let g = crate::mem::vmm::fork_tables(4, f, pml4, t, 0, 0).0.m;
    let n = crate::mem::vmm::fork_spec(m, pml4).0;
    lemma_then(m, m1, g, t);
    assert forall|u: u64, j: int| #[trigger] n.entry(u, j) == g.entry(u, j) by {
    }
    reveal_with_fuel(way, 4);
    reveal_with_fuel(same_way, 4);
    let e4 = m.entry(pml4, i4);
    let t3 = crate::mem::vmm::frame_of(e4);
    assert(alike(e4, g.entry(pml4, i4)));
    if crate::mem::vmm::present(e4) {
        let e3 = m.entry(t3, i3);
        let t2 = crate::mem::vmm::frame_of(e3);
        assert(alike(e3, g.entry(t3, i3)));
        if crate::mem::vmm::present(e3) {
            let e2 = m.entry(t2, i2);
            let t1 = crate::mem::vmm::frame_of(e2);
            assert(alike(e2, g.entry(t2, i2)));
            if crate::mem::vmm::present(e2) {
                assert(alike(m.entry(t1, i1), g.entry(t1, i1)));
            }
        }
    }
}

// ---------------------------------------------------------------------------
// What the pages hold
// ---------------------------------------------------------------------------
/// The tables under the entries from `i` on are reserved, and none is the
/// frame of `page`.
pub open spec fn tables_apart(level: int, m: MemV, p: u64, i: int, page: u64) -> bool
    decreases level, 512 - i,
{
    level < 2 || level > 4 || i < 0 || i >= (if level == 4 {
        256int
    } else {
        512int
    }) || {
        let e = m.entry(p, i);
        &&& tables_apart(level, m, p, i + 1, page)
        &&& crate::mem::space_laws::leads_on(level, e) ==> {
            &&& crate::mem::vmm::frame_of(e) / 4096 != page / 4096
            &&& crate::mem::vmm_laws::reserved(m, crate::mem::vmm::frame_of(e))
            &&& tables_apart(level - 1, m, crate::mem::vmm::frame_of(e), 0, page)
        }
    }
}

/// The words of a page are the same in two memories.
pub open spec fn same_page(m: MemV, n: MemV, page: u64) -> bool {
    forall|j: int| 0 <= j < 512 ==> #[trigger] n.entry(page, j) == m.entry(page, j)
}

proof fn lemma_leaves_write_elsewhere(f: ForkV, p: u64, c: u64, va: int, i: int, page: u64)
    requires
        crate::mem::vmm_laws::sound(f.m),
        0 <= i <= 512,
        p / 4096 != page / 4096,
        c / 4096 != page / 4096,
    ensures
        same_page(f.m, crate::mem::vmm::fork_leaves(f, p, c, va, i).m, page),
    decreases 512 - i,
{
    if i < 512 {
        let e = f.m.entry(p, i);
        let cow = crate::mem::vmm::cow_entry(e);
        if !crate::mem::vmm::present(e) {
            lemma_leaves_write_elsewhere(f, p, c, va, i + 1, page);
        } else {
            let writable = crate::mem::vmm::is_user_writable(e);
            let a = if writable {
                f.m.with_entry(p, i, cow)
            } else {
                f.m
            };
            let x = if writable {
                cow
            } else {
                crate::mem::vmm::frame_of(e) | crate::mem::vmm::flags_of(e)
            };
            let m1 = a.with_entry(c, i, x);
            let m2 = MemV {
                frames: crate::mem::frames::add_ref_spec(m1.frames, crate::mem::vmm::frame_of(e)),
                ..m1
            };
            let f1 = if writable {
                ForkV { m: m2, stale: f.stale.push((va + i * 4096) as u64) }
            } else {
                ForkV { m: m2, ..f }
            };
            crate::mem::vmm_laws::lemma_entry_set(f.m, p, i, cow, p, i);
            crate::mem::vmm_laws::lemma_entry_set(a, c, i, x, c, i);
            lemma_leaves_write_elsewhere(f1, p, c, va, i + 1, page);
            let g = crate::mem::vmm::fork_leaves(f, p, c, va, i);
            assert(g == crate::mem::vmm::fork_leaves(f1, p, c, va, i + 1));
            assert forall|j: int| 0 <= j < 512 implies #[trigger] g.m.entry(page, j) == f.m.entry(page, j) by {
                crate::mem::vmm_laws::lemma_entry_set(f.m, p, i, cow, page, j);
                crate::mem::vmm_laws::lemma_entry_set(a, c, i, x, page, j);
                assert(m2.entry(page, j) == m1.entry(page, j));
                assert(g.m.entry(page, j) == f1.m.entry(page, j));
            }
        }
    }
}

/// Cloning tables writes no page that is no table; `m` is the memory at some
/// earlier time.
proof fn lemma_tables_write_elsewhere(level: int, m: MemV, f: ForkV, p: u64, c: u64, base: int, i: int, page: u64)
    requires
        2 <= level <= 4,
        0 <= i <= 512,
        settled(m, f.m, c),
        !crate::mem::vmm_laws::reserved(m, c),
        crate::mem::vmm_laws::reserved(f.m, c),
        crate::mem::vmm_laws::reserved(m, p),
        crate::mem::vmm_laws::reserved(m, page),
        tables_apart(level, m, p, i, page),
    ensures
        same_page(f.m, crate::mem::vmm::fork_tables(level, f, p, c, base, i).0.m, page),
    decreases level, 512 - i,
{
    let end: int = if level == 4 {
        256
    } else {
        512
    };
    if i < end {
        let e = f.m.entry(p, i);
        let g = crate::mem::vmm::fork_tables(level, f, p, c, base, i).0;
        assert(p / 4096 != c / 4096);
        assert(page / 4096 != c / 4096);
        assert(alike(m.entry(p, i), e));
        assert(crate::mem::vmm_laws::reserved(f.m, page));
        if !crate::mem::space_laws::leads_on(level, e) {
            lemma_tables_write_elsewhere(level, m, f, p, c, base, i + 1, page);
        } else {
            lemma_fresh(f.m);
            lemma_linked(f.m, c, i);
            lemma_below(level, f, p, c, base, i);
            let (m1, r) = crate::mem::vmm::new_table_spec(f.m);
            match r {
                None => {
                    assert forall|j: int| 0 <= j < 512 implies #[trigger] g.m.entry(page, j) == f.m.entry(
                        page,
                        j,
                    ) by {
                        assert(m1.entry(page, j) == f.m.entry(page, j));
                    }
                },
                Some(t) => {
                    let n = m1.with_entry(c, i, t | USER_DIR);
                    let f1 = ForkV { m: n, ..f };
                    let q = crate::mem::vmm::frame_of(e);
                    let (f2, ok) = below(level, f1, e, t, base, i);
                    assert(page / 4096 != t / 4096);
                    assert(same_page(f.m, n, page)) by {
                        assert forall|j: int| 0 <= j < 512 implies #[trigger] n.entry(page, j) == f.m.entry(
                            page,
                            j,
                        ) by {
                            crate::mem::vmm_laws::lemma_entry_set(m1, c, i, t | USER_DIR, page, j);
                            assert(m1.entry(page, j) == f.m.entry(page, j));
                        }
                    }
                    lemma_then(m, f.m, n, c);
                    assert(!crate::mem::vmm_laws::reserved(m, t)) by {
                        if crate::mem::vmm_laws::reserved(m, t) {
                            assert(crate::mem::vmm_laws::reserved(f.m, t));
                        }
                    }
                    assert(settled(m, n, t)) by {
                        assert forall|u: u64, k: int|
                            #![trigger n.entry(u, k)]
                            crate::mem::vmm_laws::reserved(m, u) && u / 4096 != t / 4096 && 0 <= k < 512 implies alike(
                            m.entry(u, k),
                            n.entry(u, k),
                        ) by {
                            assert(u / 4096 != c / 4096);
                        }
                    }
                    if level == 2 {
                        lemma_leaves_write_elsewhere(f1, q, t, base + i * 0x20_0000, 0, page);
                    } else {
                        lemma_tables_write_elsewhere(
                            level - 1,
                            m,
                            f1,
                            q,
                            t,
                            base + i * (if level == 3 {
                                0x4000_0000int
                            } else {
                                0x80_0000_0000int
                            }),
                            0,
                            page,
                        );
                    }
                    assert(same_page(n, f2.m, page));
                    if ok {
                        lemma_then(m, f.m, f2.m, c);
                        assert(crate::mem::vmm_laws::reserved(f2.m, c));
                        lemma_tables_write_elsewhere(level, m, f2, p, c, base, i + 1, page);
                        assert(g == crate::mem::vmm::fork_tables(level, f2, p, c, base, i + 1).0);
                    } else {
                        assert(g == f2);
                    }
                    assert forall|j: int| 0 <= j < 512 implies #[trigger] g.m.entry(page, j) == f.m.entry(
                        page,
                        j,
                    ) by {
                        assert(g.m.entry(page, j) == f2.m.entry(page, j));
                        assert(f2.m.entry(page, j) == n.entry(page, j));
                        assert(n.entry(page, j) == f.m.entry(page, j));
                    }
                },
            }
        }
    }
}

/// A fork changes no page: every frame that is in use and is none of the
/// parent's tables holds what it held.
pub proof fn law_fork_keeps_the_contents(m: MemV, pml4: u64, page: u64)
    requires
        crate::mem::vmm_laws::sound(m),
        crate::mem::vmm_laws::reserved(m, pml4),
        crate::mem::vmm_laws::reserved(m, page),
        tables_apart(4, m, pml4, 0, page),
    ensures
        same_page(m, crate::mem::vmm::fork_spec(m, pml4).0, page),
{
    lemma_fresh(m);
    let (m0, r) = crate::mem::vmm::new_table_spec(m);
    let n = crate::mem::vmm::fork_spec(m, pml4).0;
    match r {
        None => {
            assert forall|j: int| 0 <= j < 512 implies #[trigger] n.entry(page, j) == m.entry(page, j) by {
                assert(m0.entry(page, j) == m.entry(page, j));
            }
        },
        Some(t) => {
            lemma_upper(m0, t, 256);
            let m1 = crate::mem::vmm::upper_shared(m0, t, 256);
            lemma_root_made(m, t);
            let f = ForkV { m: m1, stale: Seq::empty() };
            lemma_tables_write_elsewhere(4, m, f, pml4, t, 0, 0, page);
            let g = crate::mem::vmm::fork_tables(4, f, pml4, t, 0, 0).0.m;
            assert forall|j: int| 0 <= j < 512 implies #[trigger] n.entry(page, j) == m.entry(page, j) by {
                assert(page / 4096 != t / 4096);
                assert(m0.entry(page, j) == m.entry(page, j));
                assert(m1.entry(page, j) == m0.entry(page, j));
                assert(g.entry(page, j) == m1.entry(page, j));
            }
        },
    }
}

} // verus!
