//! What a fork says it marked: the pages whose translations must be dropped
//! are all named, whether the fork succeeds or not.

use vstd::prelude::*;

use crate::mem::vmm::{ForkV, MemV, USER_DIR};

verus! {

/// The entry of the page at `va` is entry `j` of the table at `u`.
pub open spec fn leads_to(m: MemV, pml4: u64, va: u64, u: u64, j: int) -> bool {
    match crate::mem::tree_laws::table_at(m, pml4, va, 3) {
        Some(t) => t / 4096 == u / 4096 && crate::mem::vmm::index_at(va, 12) == j,
        None => false,
    }
}

/// A page of the list has its entry there.
pub open spec fn named(m: MemV, pml4: u64, stale: Seq<u64>, u: u64, j: int) -> bool {
    exists|k: int| 0 <= k < stale.len() && leads_to(m, pml4, #[trigger] stale[k], u, j)
}

/// A fork on its way: what was reserved still is, every table of that time
/// has entries like those it had, and where one differs the list names the
/// page. The list has pages of the lower half.
pub open spec fn on_its_way(m: MemV, pml4: u64, f: ForkV) -> bool {
    &&& crate::mem::vmm_laws::sound(f.m)
    &&& forall|u: u64| crate::mem::vmm_laws::reserved(m, u) ==> #[trigger] crate::mem::vmm_laws::reserved(f.m, u)
    &&& forall|u: u64, j: int|
        #![trigger f.m.entry(u, j)]
        crate::mem::vmm_laws::reserved(m, u) && 0 <= j < 512 ==> {
            &&& crate::mem::fork_laws::alike(m.entry(u, j), f.m.entry(u, j))
            &&& f.m.entry(u, j) != m.entry(u, j) ==> named(m, pml4, f.stale, u, j)
        }
    &&& forall|k: int|
        0 <= k < f.stale.len() ==> (#[trigger] f.stale[k]) < 0x0000_8000_0000_0000 && f.stale[k] % 4096 == 0
}

/// How far apart the entries of the tables of a level are.
pub open spec fn span(level: int) -> int {
    if level == 4 {
        0x80_0000_0000
    } else if level == 3 {
        0x4000_0000
    } else if level == 2 {
        0x20_0000
    } else {
        4096
    }
}

/// A place in the lower half where a table of a level can start.
pub open spec fn starts(level: int, va: int) -> bool {
    &&& 0 <= va < 0x8000_0000_0000
    &&& va % (span(level) * 512) == 0
}

/// What lies under entry `i` of a table that starts at `va` goes the same way
/// down to it, and on through that entry.
proof fn lemma_under_entry(level: int, va: int, i: int)
    requires
        1 <= level <= 4,
        starts(level, va),
        0 <= i < if level == 4 {
            256int
        } else {
            512
        },
    ensures
        0 <= va + i * span(level) < 0x8000_0000_0000,
        (va + i * span(level)) % span(level) == 0,
        crate::mem::tree_laws::agree(va as u64, (va + i * span(level)) as u64, 4 - level),
        crate::mem::vmm::index_at((va + i * span(level)) as u64, crate::mem::tree_laws::shift(4 - level)) == i,
{
    let (a, k) = (va as u64, i as u64);
    let w = (va + i * span(level)) as u64;
    if level == 4 {
        assert(va % 0x1_0000_0000_0000 == 0);
        assert(a == 0);
        assert((w >> 39) & 0x1FF == k && w < 0x8000_0000_0000) by (bit_vector)
            requires
                k < 256,
                w == k * 0x80_0000_0000,
        ;
    } else if level == 3 {
        assert((w >> 39) & 0x1FF == (a >> 39) & 0x1FF && (w >> 30) & 0x1FF == k && w < 0x8000_0000_0000) by (bit_vector)
            requires
                k < 512,
                a < 0x8000_0000_0000,
                a % 0x80_0000_0000 == 0,
                w == a + k * 0x4000_0000,
        ;
    } else if level == 2 {
        assert((w >> 39) & 0x1FF == (a >> 39) & 0x1FF && (w >> 30) & 0x1FF == (a >> 30) & 0x1FF && (w >> 21) & 0x1FF
            == k && w < 0x8000_0000_0000) by (bit_vector)
            requires
                k < 512,
                a < 0x8000_0000_0000,
                a % 0x4000_0000 == 0,
                w == a + k * 0x20_0000,
        ;
    } else {
        assert((w >> 39) & 0x1FF == (a >> 39) & 0x1FF && (w >> 30) & 0x1FF == (a >> 30) & 0x1FF && (w >> 21) & 0x1FF
            == (a >> 21) & 0x1FF && (w >> 12) & 0x1FF == k && w < 0x8000_0000_0000) by (bit_vector)
            requires
                k < 512,
                a < 0x8000_0000_0000,
                a % 0x20_0000 == 0,
                w == a + k * 0x1000,
        ;
    }
    assert forall|j: int| 0 <= j < 4 - level implies #[trigger] crate::mem::vmm::index_at(
        a,
        crate::mem::tree_laws::shift(j),
    ) == crate::mem::vmm::index_at(w, crate::mem::tree_laws::shift(j)) by {
    }
}

/// A list that grew names what it named.
proof fn lemma_named_more(m: MemV, pml4: u64, stale: Seq<u64>, va: u64)
    ensures
        forall|u: u64, j: int| #[trigger]
            named(m, pml4, stale, u, j) ==> named(m, pml4, stale.push(va), u, j),
        forall|u: u64, j: int|
            leads_to(m, pml4, va, u, j) ==> #[trigger] named(m, pml4, stale.push(va), u, j),
{
    let more = stale.push(va);
    assert forall|u: u64, j: int| #[trigger] named(m, pml4, stale, u, j) implies named(m, pml4, more, u, j) by {
        let k = choose|k: int| 0 <= k < stale.len() && leads_to(m, pml4, #[trigger] stale[k], u, j);
        assert(more[k] == stale[k]);
    }
    assert forall|u: u64, j: int| leads_to(m, pml4, va, u, j) implies #[trigger] named(m, pml4, more, u, j) by {
        assert(more[stale.len() as int] == va);
    }
}

/// Sharing a leaf table names each page that it marks.
#[verifier::spinoff_prover]
proof fn lemma_leaves_named(m: MemV, pml4: u64, f: ForkV, p: u64, c: u64, va: int, i: int)
    requires
        on_its_way(m, pml4, f),
        starts(1, va),
        crate::mem::tree_laws::table_at(m, pml4, va as u64, 3) == Some(p),
        !crate::mem::vmm_laws::reserved(m, c),
        0 <= i <= 512,
    ensures
        on_its_way(m, pml4, crate::mem::vmm::fork_leaves(f, p, c, va, i)),
    decreases 512 - i,
{
    if i < 512 {
        let e = f.m.entry(p, i);
        let cow = crate::mem::vmm::cow_entry(e);
        if !crate::mem::vmm::present(e) {
            lemma_leaves_named(m, pml4, f, p, c, va, i + 1);
        } else {
            crate::mem::fork_laws::lemma_cow_bits(e);
            let writable = crate::mem::vmm::is_user_writable(e);
            let w = (va + i * 4096) as u64;
            let a = if writable {
                f.m.with_entry(p, i, cow)
            } else {
                f.m
            };
            let x = if writable {
                cow
            } else {
                crate::mem::vmm::frame_of(e) | crate::mem::vmm::flags_of(e)
            };
            let m1 = a.with_entry(c, i, x);
            let m2 = MemV {
                frames: crate::mem::frames::add_ref_spec(m1.frames, crate::mem::vmm::frame_of(e)),
                ..m1
            };
            let f1 = if writable {
                ForkV { m: m2, stale: f.stale.push(w) }
            } else {
                ForkV { m: m2, ..f }
            };
            crate::mem::vmm_laws::lemma_entry_set(f.m, p, i, cow, p, i);
            crate::mem::vmm_laws::lemma_entry_set(a, c, i, x, c, i);
            lemma_under_entry(1, va, i);
            crate::mem::tree_laws::lemma_same_way(m, pml4, va as u64, w, 3);
            lemma_named_more(m, pml4, f.stale, w);
            assert forall|u: u64, j: int|
                #![trigger f1.m.entry(u, j)]
                crate::mem::vmm_laws::reserved(m, u) && 0 <= j < 512 implies {
                &&& crate::mem::fork_laws::alike(m.entry(u, j), f1.m.entry(u, j))
                &&& f1.m.entry(u, j) != m.entry(u, j) ==> named(m, pml4, f1.stale, u, j)
            } by {
                crate::mem::vmm_laws::lemma_entry_set(f.m, p, i, cow, u, j);
                crate::mem::vmm_laws::lemma_entry_set(a, c, i, x, u, j);
                assert(m2.entry(u, j) == m1.entry(u, j));
                assert(u / 4096 != c / 4096);
                assert(m1.entry(u, j) == a.entry(u, j));
                assert(crate::mem::fork_laws::alike(m.entry(u, j), f.m.entry(u, j)));
                if writable && u / 4096 == p / 4096 && j == i {
                    assert(f.m.entry(u, j) == e);
                    assert(leads_to(m, pml4, w, u, j));
                    assert(named(m, pml4, f.stale.push(w), u, j));
                } else {
                    assert(f1.m.entry(u, j) == f.m.entry(u, j));
                    assert(f.m.entry(u, j) != m.entry(u, j) ==> named(m, pml4, f.stale, u, j));
                }
            }
            assert forall|u: u64| crate::mem::vmm_laws::reserved(m, u) implies #[trigger] crate::mem::vmm_laws::reserved(
                f1.m,
                u,
            ) by {
                assert(crate::mem::vmm_laws::reserved(f.m, u));
            }
            assert(w % 4096 == 0 && w < 0x0000_8000_0000_0000);
            lemma_leaves_named(m, pml4, f1, p, c, va, i + 1);
        }
    }
}

/// A fresh table that is entered in the child's leaves the fork on its way.
#[verifier::spinoff_prover]
proof fn lemma_linked_named(m: MemV, pml4: u64, f: ForkV, c: u64, i: int)
    requires
        on_its_way(m, pml4, f),
        !crate::mem::vmm_laws::reserved(m, c),
        0 <= i < 512,
    ensures
        ({
            let (m1, r) = crate::mem::vmm::new_table_spec(f.m);
            &&& on_its_way(m, pml4, ForkV { m: m1, ..f })
            &&& r matches Some(t) ==> !crate::mem::vmm_laws::reserved(m, t) && on_its_way(
                m,
                pml4,
                ForkV { m: m1.with_entry(c, i, t | USER_DIR), ..f },
            )
        }),
{
    let (m1, r) = crate::mem::vmm::new_table_spec(f.m);
    crate::mem::fork_laws::lemma_fresh(f.m);
    let f1 = ForkV { m: m1, ..f };
    assert forall|u: u64| crate::mem::vmm_laws::reserved(m, u) implies #[trigger] crate::mem::vmm_laws::reserved(
        m1,
        u,
    ) by {
        assert(crate::mem::vmm_laws::reserved(f.m, u));
    }
    assert forall|u: u64, j: int|
        #![trigger m1.entry(u, j)]
        crate::mem::vmm_laws::reserved(m, u) && 0 <= j < 512 implies m1.entry(u, j) == f.m.entry(u, j) by {
        assert(crate::mem::vmm_laws::reserved(f.m, u));
    }
    assert(on_its_way(m, pml4, f1));
    if let Some(t) = r {
        let n = m1.with_entry(c, i, t | USER_DIR);
        crate::mem::vmm_laws::lemma_entry_set(m1, c, i, t | USER_DIR, c, i);
        assert forall|u: u64, j: int|
            #![trigger n.entry(u, j)]
            crate::mem::vmm_laws::reserved(m, u) && 0 <= j < 512 implies n.entry(u, j) == f.m.entry(u, j) by {
            crate::mem::vmm_laws::lemma_entry_set(m1, c, i, t | USER_DIR, u, j);
            assert(u / 4096 != c / 4096);
            assert(m1.entry(u, j) == f.m.entry(u, j));
        }
        assert forall|u: u64| crate::mem::vmm_laws::reserved(m, u) implies #[trigger] crate::mem::vmm_laws::reserved(
            n,
            u,
        ) by {
            assert(crate::mem::vmm_laws::reserved(m1, u));
        }
        assert(on_its_way(m, pml4, ForkV { m: n, ..f }));
    }
}

/// Cloning tables names each page that it marks, as far as it gets.
#[verifier::spinoff_prover]
proof fn lemma_tables_named(level: int, m: MemV, pml4: u64, f: ForkV, p: u64, c: u64, va: int, i: int)
    requires
        on_its_way(m, pml4, f),
        crate::mem::tree_laws::tree(m, pml4),
        2 <= level <= 4,
        starts(level, va),
        crate::mem::tree_laws::table_at(m, pml4, va as u64, 4 - level) == Some(p),
        !crate::mem::vmm_laws::reserved(m, c),
        0 <= i <= 512,
    ensures
        on_its_way(m, pml4, crate::mem::vmm::fork_tables(level, f, p, c, va, i).0),
    decreases level, 512 - i,
{
    let end: int = if level == 4 {
        256
    } else {
        512
    };
    if i < end {
        let e = f.m.entry(p, i);
        assert(crate::mem::vmm_laws::reserved(m, p));
        assert(crate::mem::fork_laws::alike(m.entry(p, i), e));
        if !crate::mem::vmm::present(e) || (level < 4 && crate::mem::vmm::is_huge(e)) {
            lemma_tables_named(level, m, pml4, f, p, c, va, i + 1);
        } else {
            lemma_linked_named(m, pml4, f, c, i);
            let (m1, r) = crate::mem::vmm::new_table_spec(f.m);
            if let Some(t) = r {
                let f1 = ForkV { m: m1.with_entry(c, i, t | USER_DIR), ..f };
                let sub = va + i * span(level);
                let q = crate::mem::vmm::frame_of(e);
                lemma_under_entry(level, va, i);
                crate::mem::tree_laws::lemma_same_way(m, pml4, va as u64, sub as u64, 4 - level);
                assert(crate::mem::tree_laws::entry_at(m, p, sub as u64, 4 - level) == m.entry(p, i));
                assert(crate::mem::tree_laws::table_at(m, pml4, sub as u64, 4 - level + 1) == Some(q));
                assert(starts(level - 1, sub));
                if level == 2 {
                    lemma_leaves_named(m, pml4, f1, q, t, sub, 0);
                    let f2 = crate::mem::vmm::fork_leaves(f1, q, t, sub, 0);
                    lemma_tables_named(level, m, pml4, f2, p, c, va, i + 1);
                } else {
                    lemma_tables_named(level - 1, m, pml4, f1, q, t, sub, 0);
                    let (f2, ok) = crate::mem::vmm::fork_tables(level - 1, f1, q, t, sub, 0);
                    if ok {
                        lemma_tables_named(level, m, pml4, f2, p, c, va, i + 1);
                    }
                }
            }
        }
    }
}

/// The way to a page stays where the entries of the tables are alike.
proof fn lemma_leaf_kept(m: MemV, pml4: u64, va: u64, n: MemV)
    requires
        crate::mem::tree_laws::tree(m, pml4),
        crate::mem::vmm::leaf_table(m, pml4, va) is Some,
        forall|u: u64, j: int|
            #![trigger n.entry(u, j)]
            crate::mem::vmm_laws::reserved(m, u) && 0 <= j < 512 ==> crate::mem::fork_laws::alike(
                m.entry(u, j),
                n.entry(u, j),
            ),
    ensures
        crate::mem::vmm::leaf_table(n, pml4, va) == crate::mem::vmm::leaf_table(m, pml4, va),
        crate::mem::fork_laws::way(4, m, pml4, va),
{
    reveal_with_fuel(crate::mem::tree_laws::table_at, 4);
    reveal_with_fuel(crate::mem::fork_laws::way, 4);
    crate::mem::vmm_laws::lemma_index(va, 39);
    crate::mem::vmm_laws::lemma_index(va, 30);
    crate::mem::vmm_laws::lemma_index(va, 21);
    let e4 = m.entry(pml4, crate::mem::vmm::index_at(va, 39));
    let t3 = crate::mem::vmm::frame_of(e4);
    let e3 = m.entry(t3, crate::mem::vmm::index_at(va, 30));
    let t2 = crate::mem::vmm::frame_of(e3);
    let e2 = m.entry(t2, crate::mem::vmm::index_at(va, 21));
    let t1 = crate::mem::vmm::frame_of(e2);
    assert(crate::mem::tree_laws::table_at(m, pml4, va, 0) == Some(pml4));
    assert(crate::mem::tree_laws::table_at(m, pml4, va, 1) == Some(t3));
    assert(crate::mem::tree_laws::table_at(m, pml4, va, 2) == Some(t2));
    assert(crate::mem::tree_laws::table_at(m, pml4, va, 3) == Some(t1));
    assert(crate::mem::fork_laws::alike(e4, n.entry(pml4, crate::mem::vmm::index_at(va, 39))));
    assert(crate::mem::fork_laws::alike(e3, n.entry(t3, crate::mem::vmm::index_at(va, 30))));
    assert(crate::mem::fork_laws::alike(e2, n.entry(t2, crate::mem::vmm::index_at(va, 21))));
}

/// A fork names every page of the parent that it marked: where the entry of a
/// page is not what it was, the page is in the list. That is so whether the
/// fork succeeds or runs out of frames halfway.
#[verifier::spinoff_prover]
pub proof fn law_fork_names_what_it_marks(m: MemV, pml4: u64, va: u64)
    requires
        crate::mem::vmm_laws::sound(m),
        crate::mem::tree_laws::tree(m, pml4),
        va < 0x0000_8000_0000_0000,
        va % 4096 == 0,
        crate::mem::vmm::leaf_table(m, pml4, va) is Some,
    ensures
        ({
            let (n, _, stale) = crate::mem::vmm::fork_spec(m, pml4);
            &&& crate::mem::vmm::leaf_table(n, pml4, va) == crate::mem::vmm::leaf_table(m, pml4, va)
            &&& crate::mem::vmm_laws::leaf_of(n, pml4, va) != crate::mem::vmm_laws::leaf_of(m, pml4, va)
                ==> stale.contains(va)
        }),
{
    let (n, _, stale) = crate::mem::vmm::fork_spec(m, pml4);
    let t = crate::mem::vmm::leaf_table(m, pml4, va)->Some_0;
    let i = crate::mem::vmm::index_at(va, 12);
    crate::mem::vmm_laws::lemma_index(va, 12);
    assert(crate::mem::tree_laws::table_at(m, pml4, va, 3) == Some(t)) by {
        reveal_with_fuel(crate::mem::tree_laws::table_at, 4);
    }
    crate::mem::fork_laws::lemma_fresh(m);
    let (m0, r) = crate::mem::vmm::new_table_spec(m);
    lemma_leaf_kept(m, pml4, va, m0);
    assert(m0.entry(t, i) == m.entry(t, i));
    if let Some(root) = r {
        crate::mem::fork_laws::lemma_upper(m0, root, 256);
        let m1 = crate::mem::vmm::upper_shared(m0, root, 256);
        let f = ForkV { m: m1, stale: Seq::empty() };
        assert forall|u: u64| crate::mem::vmm_laws::reserved(m, u) implies #[trigger] crate::mem::vmm_laws::reserved(
            m1,
            u,
        ) by {
            assert(crate::mem::vmm_laws::reserved(m0, u));
        }
        assert forall|u: u64, j: int|
            #![trigger m1.entry(u, j)]
            crate::mem::vmm_laws::reserved(m, u) && 0 <= j < 512 implies m1.entry(u, j) == m.entry(u, j) by {
            assert(u / 4096 != root / 4096);
            assert(m0.entry(u, j) == m.entry(u, j));
        }
        assert(on_its_way(m, pml4, f));
        assert(crate::mem::tree_laws::table_at(m, pml4, 0, 0) == Some(pml4));
        lemma_tables_named(4, m, pml4, f, pml4, root, 0, 0);
        let g = crate::mem::vmm::fork_tables(4, f, pml4, root, 0, 0).0;
        assert forall|u: u64, j: int| #[trigger] n.entry(u, j) == g.m.entry(u, j) by {
        }
        lemma_leaf_kept(m, pml4, va, n);
        assert(stale == g.stale);
        if n.entry(t, i) != m.entry(t, i) {
            assert(named(m, pml4, stale, t, i));
            let k = choose|k: int| 0 <= k < stale.len() && leads_to(m, pml4, #[trigger] stale[k], t, i);
            let w = stale[k];
            assert(crate::mem::tree_laws::agree(va, w, 3));
            assert(crate::mem::tree_laws::agree(va, w, 4));
            if w / 4096 != va / 4096 {
                crate::mem::tree_laws::lemma_other_page(va, w);
            }
            assert(w == va);
        }
    }
}

/// A fork that succeeds names every page that the parent could write.
pub proof fn law_fork_names_every_writable_page(m: MemV, pml4: u64, va: u64)
    requires
        crate::mem::vmm_laws::sound(m),
        crate::mem::tree_laws::tree(m, pml4),
        va < 0x0000_8000_0000_0000,
        va % 4096 == 0,
        crate::mem::vmm::leaf_table(m, pml4, va) is Some,
        crate::mem::vmm::present(crate::mem::vmm_laws::leaf_of(m, pml4, va)),
        crate::mem::vmm::is_user_writable(crate::mem::vmm_laws::leaf_of(m, pml4, va)),
        crate::mem::vmm::fork_spec(m, pml4).1 is Some,
    ensures
        crate::mem::vmm::fork_spec(m, pml4).2.contains(va),
{
    lemma_leaf_kept(m, pml4, va, m);
    crate::mem::fork_laws::law_fork_shares_every_page(m, pml4, va);
    law_fork_names_what_it_marks(m, pml4, va);
}

} // verus!
