//! What mapping and unmapping leave alone.
//!
//! The tables of an address space are a tree: every table is reserved, and is
//! reached in one way only. Mapping and unmapping keep it so, and on such a
//! space they touch the page that they are asked for and no other.

use vstd::prelude::*;

use crate::mem::vmm::{MemV, USER_DIR};

verus! {

/// The shift of the index that addresses have in the tables of depth `k`.
pub open spec fn shift(k: int) -> u64 {
    if k == 0 {
        39
    } else if k == 1 {
        30
    } else if k == 2 {
        21
    } else {
        12
    }
}

/// The entry for an address in a table of depth `k`.
pub open spec fn entry_at(m: MemV, t: u64, va: u64, k: int) -> u64 {
    m.entry(t, crate::mem::vmm::index_at(va, shift(k)))
}

/// The table of depth `k` on the way to an address: the PML4 at 0, the table
/// of the page's entry at 3. None if the way ends before.
pub open spec fn table_at(m: MemV, pml4: u64, va: u64, k: int) -> Option<u64>
    decreases k,
{
    if k <= 0 {
        Some(pml4)
    } else {
        match table_at(m, pml4, va, k - 1) {
            None => None,
            Some(t) => {
                let e = entry_at(m, t, va, k - 1);
                if crate::mem::vmm::present(e) && (k == 1 || !crate::mem::vmm::is_huge(e)) {
                    Some(crate::mem::vmm::frame_of(e))
                } else {
                    None
                }
            },
        }
    }
}

/// Two addresses go the same way through the first `k` tables.
pub open spec fn agree(a: u64, b: u64, k: int) -> bool {
    forall|j: int|
        0 <= j < k ==> #[trigger] crate::mem::vmm::index_at(a, shift(j)) == crate::mem::vmm::index_at(b, shift(j))
}

/// The tables of an address space are reserved, and each is reached in one
/// way only.
pub open spec fn tree(m: MemV, pml4: u64) -> bool {
    &&& forall|a: u64, k: int|
        #![trigger table_at(m, pml4, a, k)]
        0 <= k <= 3 && table_at(m, pml4, a, k) is Some ==> crate::mem::vmm_laws::reserved(
            m,
            table_at(m, pml4, a, k)->Some_0,
        )
    &&& forall|a: u64, b: u64, k: int, l: int|
        #![trigger table_at(m, pml4, a, k), table_at(m, pml4, b, l)]
        0 <= k <= 3 && 0 <= l <= 3 && table_at(m, pml4, a, k) is Some && table_at(m, pml4, b, l) is Some && table_at(
            m,
            pml4,
            a,
            k,
        )->Some_0 / 4096 == table_at(m, pml4, b, l)->Some_0 / 4096 ==> k == l && agree(a, b, k)
}

/// The two addresses are in different pages, both in the lower half or one in
/// the upper.
pub open spec fn other_page(va: u64, at: u64) -> bool {
    &&& va < 0x0000_8000_0000_0000
    &&& at < 0x0000_8000_0000_0000 || at >= 0xFFFF_8000_0000_0000
    &&& at / 4096 != va / 4096
}

/// A reserved frame that is none of the tables of a space.
pub open spec fn off_tree(m: MemV, pml4: u64, u: u64) -> bool {
    &&& crate::mem::vmm_laws::reserved(m, u)
    &&& forall|a: u64, k: int|
        #![trigger table_at(m, pml4, a, k)]
        0 <= k <= 3 && table_at(m, pml4, a, k) is Some ==> table_at(m, pml4, a, k)->Some_0 / 4096 != u / 4096
}

/// The frames that are no tables of the space hold what they held, and are
/// none now.
pub open spec fn beside(m: MemV, n: MemV, pml4: u64) -> bool {
    forall|u: u64| #[trigger]
        off_tree(m, pml4, u) ==> off_tree(n, pml4, u) && crate::mem::fork_laws::same_page(m, n, u)
}

pub proof fn lemma_shift(va: u64, k: int)
    ensures
        0 <= crate::mem::vmm::index_at(va, shift(k)) < 512,
{
    crate::mem::vmm_laws::lemma_index(va, shift(k));
}

/// Addresses in different pages part somewhere.
pub proof fn lemma_other_page(va: u64, at: u64)
    requires
        other_page(va, at),
    ensures
        !agree(va, at, 4),
{
    if agree(va, at, 4) {
        assert(crate::mem::vmm::index_at(va, shift(0)) == crate::mem::vmm::index_at(at, shift(0)));
        assert(crate::mem::vmm::index_at(va, shift(1)) == crate::mem::vmm::index_at(at, shift(1)));
        assert(crate::mem::vmm::index_at(va, shift(2)) == crate::mem::vmm::index_at(at, shift(2)));
        assert(crate::mem::vmm::index_at(va, shift(3)) == crate::mem::vmm::index_at(at, shift(3)));
        assert(va / 4096 == at / 4096) by (bit_vector)
            requires
                va < 0x0000_8000_0000_0000,
                at < 0x0000_8000_0000_0000 || at >= 0xFFFF_8000_0000_0000,
                (va >> 39) & 0x1FF == (at >> 39) & 0x1FF,
                (va >> 30) & 0x1FF == (at >> 30) & 0x1FF,
                (va >> 21) & 0x1FF == (at >> 21) & 0x1FF,
                (va >> 12) & 0x1FF == (at >> 12) & 0x1FF,
        ;
    }
}

/// Addresses that go the way of a third go the same way.
proof fn lemma_agree_both(va: u64, a: u64, b: u64, k: int)
    requires
        agree(va, a, k),
        agree(va, b, k),
    ensures
        agree(a, b, k),
{
    assert forall|j: int| 0 <= j < k implies #[trigger] crate::mem::vmm::index_at(a, shift(j))
        == crate::mem::vmm::index_at(b, shift(j)) by {
        assert(crate::mem::vmm::index_at(va, shift(j)) == crate::mem::vmm::index_at(a, shift(j)));
    }
}

/// The way ends for good where it ends.
proof fn lemma_deeper(m: MemV, pml4: u64, va: u64, k: int, l: int)
    requires
        0 <= k <= l,
        table_at(m, pml4, va, k) is None,
    ensures
        table_at(m, pml4, va, l) is None,
    decreases l - k,
{
    if k < l {
        lemma_deeper(m, pml4, va, k, l - 1);
    }
}

/// Where the tables on the way and their entries are the same, the address is
/// found in the same place.
pub proof fn lemma_same_place(m: MemV, n: MemV, pml4: u64, at: u64)
    requires
        forall|l: int|
            #![trigger table_at(m, pml4, at, l)]
            0 <= l <= 3 && table_at(m, pml4, at, l) is Some ==> entry_at(
                n,
                table_at(m, pml4, at, l)->Some_0,
                at,
                l,
            ) == entry_at(m, table_at(m, pml4, at, l)->Some_0, at, l),
    ensures
        crate::mem::vmm::translate_spec(n, pml4, at) == crate::mem::vmm::translate_spec(m, pml4, at),
{
    reveal_with_fuel(table_at, 4);
    assert(table_at(m, pml4, at, 0) is Some);
    let e4 = entry_at(m, pml4, at, 0);
    if crate::mem::vmm::present(e4) {
        let t3 = crate::mem::vmm::frame_of(e4);
        assert(table_at(m, pml4, at, 1) == Some(t3));
        let e3 = entry_at(m, t3, at, 1);
        if crate::mem::vmm::present(e3) && !crate::mem::vmm::is_huge(e3) {
            let t2 = crate::mem::vmm::frame_of(e3);
            assert(table_at(m, pml4, at, 2) == Some(t2));
            let e2 = entry_at(m, t2, at, 2);
            if crate::mem::vmm::present(e2) && !crate::mem::vmm::is_huge(e2) {
                assert(table_at(m, pml4, at, 3) == Some(crate::mem::vmm::frame_of(e2)));
            }
        }
    }
}

/// An entry that was set in the last table changes no other page, and the
/// tables stay a tree.
#[verifier::spinoff_prover]
proof fn lemma_leaf_set(m: MemV, pml4: u64, va: u64, e: u64)
    requires
        crate::mem::vmm_laws::sound(m),
        tree(m, pml4),
        table_at(m, pml4, va, 3) is Some,
    ensures
        ({
            let n = m.with_entry(table_at(m, pml4, va, 3)->Some_0, crate::mem::vmm::index_at(va, 12), e);
            &&& crate::mem::vmm_laws::sound(n)
            &&& tree(n, pml4)
            &&& beside(m, n, pml4)
            &&& forall|a: u64, k: int| 0 <= k <= 3 ==> #[trigger] table_at(n, pml4, a, k) == table_at(m, pml4, a, k)
            &&& forall|at: u64|
                other_page(va, at) ==> #[trigger] crate::mem::vmm::translate_spec(n, pml4, at)
                    == crate::mem::vmm::translate_spec(m, pml4, at)
        }),
{
    let t = table_at(m, pml4, va, 3)->Some_0;
    let i = crate::mem::vmm::index_at(va, 12);
    let n = m.with_entry(t, i, e);
    lemma_shift(va, 3);
    crate::mem::vmm_laws::lemma_entry_set(m, t, i, e, t, i);
    assert forall|a: u64, l: int| 0 <= l <= 3 && (l < 3 || !agree(va, a, 4)) && table_at(m, pml4, a, l) is Some implies entry_at(
        n,
        (#[trigger] table_at(m, pml4, a, l))->Some_0,
        a,
        l,
    ) == entry_at(m, table_at(m, pml4, a, l)->Some_0, a, l) by {
        let u = table_at(m, pml4, a, l)->Some_0;
        lemma_shift(a, l);
        crate::mem::vmm_laws::lemma_entry_set(m, t, i, e, u, crate::mem::vmm::index_at(a, shift(l)));
        if u / 4096 == t / 4096 && crate::mem::vmm::index_at(a, shift(l)) == i {
            assert(l == 3 && agree(va, a, 3));
            assert(agree(va, a, 4));
        }
    }
    assert forall|a: u64, k: int| 0 <= k <= 3 implies #[trigger] table_at(n, pml4, a, k) == table_at(
        m,
        pml4,
        a,
        k,
    ) by {
        lemma_same_tables(m, n, pml4, a, k);
    }
    assert forall|a: u64, k: int|
        #![trigger table_at(n, pml4, a, k)]
        0 <= k <= 3 && table_at(n, pml4, a, k) is Some implies crate::mem::vmm_laws::reserved(
        n,
        table_at(n, pml4, a, k)->Some_0,
    ) by {
        assert(table_at(m, pml4, a, k) is Some);
    }
    assert forall|u: u64| #[trigger] off_tree(m, pml4, u) implies off_tree(n, pml4, u)
        && crate::mem::fork_laws::same_page(m, n, u) by {
        assert forall|j: int| 0 <= j < 512 implies #[trigger] n.entry(u, j) == m.entry(u, j) by {
            crate::mem::vmm_laws::lemma_entry_set(m, t, i, e, u, j);
        }
    }
    assert forall|at: u64| other_page(va, at) implies #[trigger] crate::mem::vmm::translate_spec(n, pml4, at)
        == crate::mem::vmm::translate_spec(m, pml4, at) by {
        lemma_other_page(va, at);
        lemma_same_place(m, n, pml4, at);
    }
}

/// Where the entries above are the same, so are the tables.
pub proof fn lemma_same_tables(m: MemV, n: MemV, pml4: u64, a: u64, k: int)
    requires
        forall|l: int|
            #![trigger table_at(m, pml4, a, l)]
            0 <= l < k && table_at(m, pml4, a, l) is Some ==> entry_at(n, table_at(m, pml4, a, l)->Some_0, a, l)
                == entry_at(m, table_at(m, pml4, a, l)->Some_0, a, l),
    ensures
        table_at(n, pml4, a, k) == table_at(m, pml4, a, k),
    decreases k,
{
    if k > 0 {
        lemma_same_tables(m, n, pml4, a, k - 1);
        assert(table_at(m, pml4, a, k - 1) is Some ==> entry_at(
            n,
            table_at(m, pml4, a, k - 1)->Some_0,
            a,
            k - 1,
        ) == entry_at(m, table_at(m, pml4, a, k - 1)->Some_0, a, k - 1));
    }
}

/// Going down one table, made on demand, changes no translation, and the
/// tables stay a tree.
proof fn lemma_down(m: MemV, pml4: u64, va: u64, k: int)
    requires
        crate::mem::vmm_laws::sound(m),
        tree(m, pml4),
        0 <= k <= 2,
        table_at(m, pml4, va, k) is Some,
    ensures
        ({
            let t = table_at(m, pml4, va, k)->Some_0;
            let (n, r) = crate::mem::vmm::descend_spec(m, t, crate::mem::vmm::index_at(va, shift(k)), USER_DIR);
            &&& crate::mem::vmm_laws::sound(n)
            &&& tree(n, pml4)
            &&& beside(m, n, pml4)
            &&& forall|at: u64| #[trigger]
                crate::mem::vmm::translate_spec(n, pml4, at) == crate::mem::vmm::translate_spec(m, pml4, at)
            &&& r matches Some(e) ==> {
                &&& k == 0 || !crate::mem::vmm::is_huge(e) ==> table_at(n, pml4, va, k + 1) == Some(
                    crate::mem::vmm::frame_of(e),
                )
                &&& crate::mem::vmm::present(entry_at(m, t, va, k)) ==> n == m && e == entry_at(m, t, va, k)
                &&& !crate::mem::vmm::present(entry_at(m, t, va, k)) ==> !crate::mem::vmm::is_huge(e) && (forall|j: int|
                    0 <= j < 512 ==> #[trigger] n.entry(crate::mem::vmm::frame_of(e), j) == 0)
            }
        }),
{
    let t = table_at(m, pml4, va, k)->Some_0;
    let i = crate::mem::vmm::index_at(va, shift(k));
    let (n, r) = crate::mem::vmm::descend_spec(m, t, i, USER_DIR);
    lemma_shift(va, k);
    crate::mem::vmm_laws::lemma_descend(m, t, i, USER_DIR);
    if !crate::mem::vmm::present(m.entry(t, i)) {
        match r {
            None => {
                crate::mem::frames::law_alloc_hands_out_a_free_frame(m.frames);
                assert(n =~= m);
            },
            Some(e) => {
                lemma_fresh_table(m, n, pml4, va, k, e);
                assert forall|u: u64| #[trigger] off_tree(m, pml4, u) implies off_tree(n, pml4, u)
                    && crate::mem::fork_laws::same_page(m, n, u) by {
                    assert(u / 4096 != t / 4096);
                    assert forall|a: u64, l: int|
                        #![trigger table_at(n, pml4, a, l)]
                        0 <= l <= 3 && table_at(n, pml4, a, l) is Some implies table_at(n, pml4, a, l)->Some_0 / 4096
                        != u / 4096 by {
                        assert(table_at(m, pml4, a, l) is Some ==> table_at(m, pml4, a, l)->Some_0 / 4096 != u / 4096);
                    }
                }
            },
        }
    }
}

/// Addresses that go the same way meet the same table.
pub proof fn lemma_same_way(m: MemV, pml4: u64, a: u64, b: u64, k: int)
    requires
        agree(a, b, k),
    ensures
        table_at(m, pml4, a, k) == table_at(m, pml4, b, k),
    decreases k,
{
    if k > 0 {
        lemma_same_way(m, pml4, a, b, k - 1);
        assert(crate::mem::vmm::index_at(a, shift(k - 1)) == crate::mem::vmm::index_at(b, shift(k - 1)));
    }
}

/// An address whose way ends at an empty entry is found nowhere.
proof fn lemma_no_place(m: MemV, pml4: u64, at: u64, l: int)
    requires
        0 <= l <= 3,
        table_at(m, pml4, at, l) is Some,
        !crate::mem::vmm::present(entry_at(m, table_at(m, pml4, at, l)->Some_0, at, l)),
    ensures
        crate::mem::vmm::translate_spec(m, pml4, at) is None,
{
    reveal_with_fuel(table_at, 4);
}

/// A fresh table in the place of an empty entry changes no translation, and
/// the tables stay a tree.
#[verifier::spinoff_prover]
proof fn lemma_fresh_table(m: MemV, n: MemV, pml4: u64, va: u64, k: int, e: u64)
    requires
        tree(m, pml4),
        0 <= k <= 2,
        table_at(m, pml4, va, k) is Some,
        !crate::mem::vmm::present(entry_at(m, table_at(m, pml4, va, k)->Some_0, va, k)),
        entry_at(n, table_at(m, pml4, va, k)->Some_0, va, k) == e,
        crate::mem::vmm::present(e),
        !crate::mem::vmm::is_huge(e),
        !crate::mem::vmm_laws::reserved(m, crate::mem::vmm::frame_of(e)),
        crate::mem::vmm_laws::reserved(n, crate::mem::vmm::frame_of(e)),
        forall|j: int| 0 <= j < 512 ==> #[trigger] n.entry(crate::mem::vmm::frame_of(e), j) == 0,
        forall|u: u64| crate::mem::vmm_laws::reserved(m, u) ==> #[trigger] crate::mem::vmm_laws::reserved(n, u),
        forall|u: u64, j: int|
            #![trigger n.entry(u, j)]
            crate::mem::vmm_laws::reserved(m, u) && 0 <= j < 512 && (u / 4096 != table_at(
                m,
                pml4,
                va,
                k,
            )->Some_0 / 4096 || j != crate::mem::vmm::index_at(va, shift(k))) ==> n.entry(u, j) == m.entry(u, j),
    ensures
        tree(n, pml4),
        forall|at: u64| #[trigger]
            crate::mem::vmm::translate_spec(n, pml4, at) == crate::mem::vmm::translate_spec(m, pml4, at),
        table_at(n, pml4, va, k + 1) == Some(crate::mem::vmm::frame_of(e)),
        forall|a: u64, l: int|
            #![trigger table_at(n, pml4, a, l)]
            0 <= l <= 3 && table_at(n, pml4, a, l) is Some ==> table_at(n, pml4, a, l) == table_at(m, pml4, a, l)
                || table_at(n, pml4, a, l) == Some(crate::mem::vmm::frame_of(e)),
{
    let t = table_at(m, pml4, va, k)->Some_0;
    let f = crate::mem::vmm::frame_of(e);
    crate::mem::vmm_laws::lemma_nothing();
    assert forall|a: u64, l: int|
        #![trigger table_at(m, pml4, a, l)]
        0 <= l <= 3 && table_at(m, pml4, a, l) is Some && !(l == k && agree(va, a, k + 1)) implies entry_at(
        n,
        table_at(m, pml4, a, l)->Some_0,
        a,
        l,
    ) == entry_at(m, table_at(m, pml4, a, l)->Some_0, a, l) by {
        let u = table_at(m, pml4, a, l)->Some_0;
        lemma_shift(a, l);
        if u / 4096 == t / 4096 && crate::mem::vmm::index_at(a, shift(l)) == crate::mem::vmm::index_at(va, shift(k)) {
            assert(l == k && agree(va, a, k));
            assert(agree(va, a, k + 1));
        }
    }
    // the way of an address that goes through the new entry, and of all others
    assert forall|a: u64, l: int| 0 <= l <= 3 implies #[trigger] table_at(n, pml4, a, l) == (if l > k && agree(
        va,
        a,
        k + 1,
    ) {
        if l == k + 1 {
            Some(f)
        } else {
            None
        }
    } else {
        table_at(m, pml4, a, l)
    }) by {
        if l <= k || !agree(va, a, k + 1) {
            lemma_same_tables(m, n, pml4, a, l);
        } else {
            lemma_same_tables(m, n, pml4, a, k);
            lemma_same_way(m, pml4, va, a, k);
            assert(crate::mem::vmm::index_at(va, shift(k)) == crate::mem::vmm::index_at(a, shift(k)));
            assert(table_at(n, pml4, a, k + 1) == Some(f));
            if l > k + 1 {
                lemma_shift(a, k + 1);
                assert(entry_at(n, f, a, k + 1) == 0);
                assert(table_at(n, pml4, a, k + 2) is None);
                lemma_deeper(n, pml4, a, k + 2, l);
            }
        }
    }
    assert(agree(va, va, k + 1));
    assert forall|a: u64, l: int|
        #![trigger table_at(n, pml4, a, l)]
        0 <= l <= 3 && table_at(n, pml4, a, l) is Some implies crate::mem::vmm_laws::reserved(
        n,
        table_at(n, pml4, a, l)->Some_0,
    ) by {
        if !(l > k && agree(va, a, k + 1)) {
            assert(table_at(m, pml4, a, l) is Some);
        }
    }
    assert forall|a: u64, b: u64, j: int, l: int|
        #![trigger table_at(n, pml4, a, j), table_at(n, pml4, b, l)]
        0 <= j <= 3 && 0 <= l <= 3 && table_at(n, pml4, a, j) is Some && table_at(n, pml4, b, l) is Some && table_at(
            n,
            pml4,
            a,
            j,
        )->Some_0 / 4096 == table_at(n, pml4, b, l)->Some_0 / 4096 implies j == l && agree(a, b, j) by {
        if j > k && agree(va, a, k + 1) {
            if l > k && agree(va, b, k + 1) {
                lemma_agree_both(va, a, b, k + 1);
            } else {
                assert(crate::mem::vmm_laws::reserved(m, table_at(m, pml4, b, l)->Some_0));
            }
        } else if l > k && agree(va, b, k + 1) {
            assert(crate::mem::vmm_laws::reserved(m, table_at(m, pml4, a, j)->Some_0));
        } else {
            assert(table_at(m, pml4, a, j) == table_at(n, pml4, a, j));
            assert(table_at(m, pml4, b, l) == table_at(n, pml4, b, l));
        }
    }
    assert forall|at: u64| #[trigger]
        crate::mem::vmm::translate_spec(n, pml4, at) == crate::mem::vmm::translate_spec(m, pml4, at) by {
        if agree(va, at, k + 1) {
            lemma_same_way(m, pml4, va, at, k);
            assert(crate::mem::vmm::index_at(va, shift(k)) == crate::mem::vmm::index_at(at, shift(k)));
            lemma_no_place(m, pml4, at, k);
            assert(table_at(n, pml4, at, k + 1) == Some(f));
            lemma_shift(at, k + 1);
            assert(entry_at(n, f, at, k + 1) == 0);
            lemma_no_place(n, pml4, at, k + 1);
        } else {
            lemma_same_place(m, n, pml4, at);
        }
    }
}

// ---------------------------------------------------------------------------
// Laws
// ---------------------------------------------------------------------------
/// A new space is a tree if the kernel's is, and maps nothing in the lower
/// half.
#[verifier::spinoff_prover]
pub proof fn law_new_space_is_a_tree(m: MemV)
    requires
        crate::mem::vmm_laws::sound(m),
        tree(m, m.kernel),
        crate::mem::vmm::new_root_spec(m).1 is Some,
    ensures
        ({
            let n = crate::mem::vmm::new_root_spec(m).0;
            let root = crate::mem::vmm::new_root_spec(m).1->Some_0;
            &&& crate::mem::vmm_laws::sound(n)
            &&& tree(n, root)
            &&& forall|at: u64|
                at < 0x0000_8000_0000_0000 ==> #[trigger] crate::mem::vmm::translate_spec(n, root, at) is None
        }),
{
    crate::mem::fork_laws::lemma_fresh(m);
    let (m0, r) = crate::mem::vmm::new_table_spec(m);
    let t = r->Some_0;
    let n = crate::mem::vmm::new_root_spec(m).0;
    assert(table_at(m, m.kernel, 0, 0) == Some(m.kernel));
    assert(m.kernel / 4096 != t / 4096);
    crate::mem::fork_laws::lemma_upper(m0, t, 256);
    crate::mem::space_laws::lemma_shared_half(m0, t, 256);
    assert forall|u: u64, j: int|
        #![trigger n.entry(u, j)]
        crate::mem::vmm_laws::reserved(m, u) && 0 <= j < 512 implies n.entry(u, j) == m.entry(u, j) by {
        assert(u / 4096 != t / 4096);
        assert(m0.entry(u, j) == m.entry(u, j));
    }
    assert forall|j: int| 256 <= j < 512 implies #[trigger] n.entry(t, j) == m.entry(m.kernel, j) by {
        assert(m0.entry(m.kernel, j) == m.entry(m.kernel, j));
    }
    assert forall|j: int| 0 <= j < 256 implies !crate::mem::vmm::present(#[trigger] n.entry(t, j)) by {
        assert(!crate::mem::vmm::present(m0.entry(t, j)));
    }
    assert forall|u: u64| crate::mem::vmm_laws::reserved(m, u) implies #[trigger] crate::mem::vmm_laws::reserved(
        n,
        u,
    ) by {
        assert(crate::mem::vmm_laws::reserved(m0, u));
    }
    assert forall|a: u64, k: int| 1 <= k <= 3 implies #[trigger] table_at(n, t, a, k) == (if crate::mem::vmm::index_at(
        a,
        39,
    ) < 256 {
        None
    } else {
        table_at(m, m.kernel, a, k)
    }) by {
        lemma_upper_way(m, n, t, a, k);
    }
    assert forall|a: u64, k: int|
        #![trigger table_at(n, t, a, k)]
        0 <= k <= 3 && table_at(n, t, a, k) is Some implies crate::mem::vmm_laws::reserved(
        n,
        table_at(n, t, a, k)->Some_0,
    ) by {
        if k > 0 {
            assert(table_at(m, m.kernel, a, k) is Some);
        }
    }
    assert forall|a: u64, b: u64, k: int, l: int|
        #![trigger table_at(n, t, a, k), table_at(n, t, b, l)]
        0 <= k <= 3 && 0 <= l <= 3 && table_at(n, t, a, k) is Some && table_at(n, t, b, l) is Some && table_at(
            n,
            t,
            a,
            k,
        )->Some_0 / 4096 == table_at(n, t, b, l)->Some_0 / 4096 implies k == l && agree(a, b, k) by {
        if k > 0 {
            assert(crate::mem::vmm_laws::reserved(m, table_at(m, m.kernel, a, k)->Some_0));
        }
        if l > 0 {
            assert(crate::mem::vmm_laws::reserved(m, table_at(m, m.kernel, b, l)->Some_0));
        }
    }
    assert forall|at: u64| at < 0x0000_8000_0000_0000 implies #[trigger] crate::mem::vmm::translate_spec(
        n,
        t,
        at,
    ) is None by {
        assert((at >> 39) & 0x1FF < 256) by (bit_vector)
            requires
                at < 0x0000_8000_0000_0000,
        ;
        crate::mem::vmm_laws::lemma_index(at, 39);
    }
}

/// The ways of a root that has the kernel's upper half and nothing else.
proof fn lemma_upper_way(m: MemV, n: MemV, t: u64, a: u64, k: int)
    requires
        tree(m, m.kernel),
        1 <= k <= 3,
        forall|u: u64, j: int|
            #![trigger n.entry(u, j)]
            crate::mem::vmm_laws::reserved(m, u) && 0 <= j < 512 ==> n.entry(u, j) == m.entry(u, j),
        forall|j: int| 256 <= j < 512 ==> #[trigger] n.entry(t, j) == m.entry(m.kernel, j),
        forall|j: int| 0 <= j < 256 ==> !crate::mem::vmm::present(#[trigger] n.entry(t, j)),
    ensures
        table_at(n, t, a, k) == (if crate::mem::vmm::index_at(a, 39) < 256 {
            None
        } else {
            table_at(m, m.kernel, a, k)
        }),
    decreases k,
{
    lemma_shift(a, k - 1);
    if k == 1 {
        assert(table_at(n, t, a, 0) == Some(t));
        assert(table_at(m, m.kernel, a, 0) == Some(m.kernel));
    } else {
        lemma_upper_way(m, n, t, a, k - 1);
        assert(table_at(m, m.kernel, a, k - 1) is Some ==> crate::mem::vmm_laws::reserved(
            m,
            table_at(m, m.kernel, a, k - 1)->Some_0,
        ));
    }
}

/// Mapping a page, whether that succeeds or not, leaves every other page where
/// it was, and a page that was nowhere is still nowhere; a map that fails
/// moves no page at all. The tables stay a tree.
#[verifier::spinoff_prover]
pub proof fn law_map_keeps_other_pages(m: MemV, pml4: u64, va: u64, phys: u64, flags: u64)
    requires
        crate::mem::vmm_laws::sound(m),
        tree(m, pml4),
        crate::mem::vmm_laws::no_large_page(m, pml4, va),
    ensures
        ({
            let (n, r) = crate::mem::vmm::map_spec(m, pml4, va, phys, flags);
            &&& crate::mem::vmm_laws::sound(n)
            &&& tree(n, pml4)
            &&& beside(m, n, pml4)
            &&& forall|at: u64|
                other_page(va, at) || r is Err ==> #[trigger] crate::mem::vmm::translate_spec(n, pml4, at)
                    == crate::mem::vmm::translate_spec(m, pml4, at)
        }),
{
    let (n, r) = crate::mem::vmm::map_spec(m, pml4, va, phys, flags);
    if va % 4096 == 0 && phys % 4096 == 0 && va < crate::mem::vmm::KERNEL_HALF_BASE {
        crate::mem::vmm_laws::lemma_nothing();
        assert(table_at(m, pml4, va, 0) == Some(pml4));
        lemma_down(m, pml4, va, 0);
        let (m1, r4) = crate::mem::vmm::descend_spec(m, pml4, crate::mem::vmm::index_at(va, 39), USER_DIR);
        if r4 is Some {
            let t3 = crate::mem::vmm::frame_of(r4->Some_0);
            assert(table_at(m1, pml4, va, 1) == Some(t3));
            lemma_down(m1, pml4, va, 1);
            let (m2, r3) = crate::mem::vmm::descend_spec(m1, t3, crate::mem::vmm::index_at(va, 30), USER_DIR);
            if r3 is Some && !crate::mem::vmm::is_huge(r3->Some_0) {
                let t2 = crate::mem::vmm::frame_of(r3->Some_0);
                assert(table_at(m2, pml4, va, 2) == Some(t2));
                lemma_down(m2, pml4, va, 2);
                let (m3, r2) = crate::mem::vmm::descend_spec(m2, t2, crate::mem::vmm::index_at(va, 21), USER_DIR);
                if r2 is Some {
                    let e2 = r2->Some_0;
                    assert(!crate::mem::vmm::is_huge(e2)) by {
                        lemma_shift(va, 1);
                        lemma_shift(va, 2);
                        if crate::mem::vmm::present(entry_at(m2, t2, va, 2)) {
                            assert(crate::mem::vmm::present(entry_at(m1, t3, va, 1)));
                            assert(crate::mem::vmm::present(entry_at(m, pml4, va, 0)));
                        }
                    }
                    assert(table_at(m3, pml4, va, 3) == Some(crate::mem::vmm::frame_of(e2)));
                    lemma_leaf_set(m3, pml4, va, phys | flags);
                }
            }
        }
    }
}

/// Unmapping a page leaves every other page where it was; an unmap that finds
/// nothing changes nothing. The tables stay a tree.
pub proof fn law_unmap_keeps_other_pages(m: MemV, pml4: u64, va: u64)
    requires
        crate::mem::vmm_laws::sound(m),
        tree(m, pml4),
    ensures
        ({
            let (n, r) = crate::mem::vmm::unmap_spec(m, pml4, va);
            &&& crate::mem::vmm_laws::sound(n)
            &&& tree(n, pml4)
            &&& r is None ==> n == m
            &&& forall|at: u64|
                other_page(va, at) ==> #[trigger] crate::mem::vmm::translate_spec(n, pml4, at)
                    == crate::mem::vmm::translate_spec(m, pml4, at)
        }),
{
    reveal_with_fuel(table_at, 4);
    assert(table_at(m, pml4, va, 3) == crate::mem::vmm::leaf_table(m, pml4, va));
    if crate::mem::vmm::leaf_table(m, pml4, va) is Some {
        lemma_leaf_set(m, pml4, va, 0);
    }
}

/// A page that was mapped stays what it is until it is unmapped: it is found
/// where it was mapped to, a second map of it is refused and changes nothing,
/// unmapping gives its frame back, and after that it is found nowhere and
/// cannot be unmapped again. No other page moves at any point.
#[verifier::spinoff_prover]
pub proof fn law_map_lasts_until_unmap(
    m: MemV,
    pml4: u64,
    va: u64,
    phys: u64,
    flags: u64,
    phys2: u64,
    flags2: u64,
)
    requires
        crate::mem::vmm_laws::sound(m),
        tree(m, pml4),
        crate::mem::vmm_laws::no_large_page(m, pml4, va),
        crate::mem::vmm::map_spec(m, pml4, va, phys, flags).1 is Ok,
        crate::mem::vmm::present(flags),
        crate::mem::vmm::frame_of(flags) == 0,
        crate::mem::vmm::frame_of(phys) == phys,
        phys2 % 4096 == 0,
    ensures
        ({
            let n = crate::mem::vmm::map_spec(m, pml4, va, phys, flags).0;
            let (u, r) = crate::mem::vmm::unmap_spec(n, pml4, va);
            &&& forall|off: u64|
                off < 4096 ==> #[trigger] crate::mem::vmm::translate_spec(n, pml4, (va + off) as u64) == Some(
                    (phys + off) as u64,
                )
            &&& crate::mem::vmm::map_spec(n, pml4, va, phys2, flags2) == (
                n,
                Err::<(), Seq<char>>("map: page already mapped"@),
            )
            &&& r == Some(phys)
            &&& crate::mem::vmm::translate_spec(u, pml4, va) is None
            &&& crate::mem::vmm::unmap_spec(u, pml4, va) == (u, None::<u64>)
            &&& forall|at: u64|
                other_page(va, at) ==> #[trigger] crate::mem::vmm::translate_spec(n, pml4, at)
                    == crate::mem::vmm::translate_spec(m, pml4, at)
            &&& forall|at: u64|
                other_page(va, at) ==> #[trigger] crate::mem::vmm::translate_spec(u, pml4, at)
                    == crate::mem::vmm::translate_spec(m, pml4, at)
        }),
{
    let n = crate::mem::vmm::map_spec(m, pml4, va, phys, flags).0;
    let (u, r) = crate::mem::vmm::unmap_spec(n, pml4, va);
    lemma_walk_reserved(m, pml4, va);
    assert forall|off: u64| off < 4096 implies #[trigger] crate::mem::vmm::translate_spec(
        n,
        pml4,
        (va + off) as u64,
    ) == Some((phys + off) as u64) by {
        crate::mem::vmm_laws::law_mapped_page_translates(m, pml4, va, phys, flags, off);
    }
    crate::mem::vmm_laws::law_map_refuses_a_mapped_page(m, pml4, va, phys, flags, phys2, flags2);
    crate::mem::vmm_laws::law_unmap_undoes_map(m, pml4, va, phys, flags);
    law_map_keeps_other_pages(m, pml4, va, phys, flags);
    law_unmap_keeps_other_pages(n, pml4, va);
    crate::mem::vmm_laws::law_unmapped_page_is_gone(n, pml4, va);
    law_unmap_keeps_other_pages(u, pml4, va);
}

/// The tables of a tree are reserved on every way.
pub proof fn lemma_walk_reserved(m: MemV, pml4: u64, va: u64)
    requires
        tree(m, pml4),
    ensures
        crate::mem::vmm_laws::walk_reserved(m, pml4, va),
{
    reveal_with_fuel(table_at, 4);
    assert(table_at(m, pml4, va, 0) is Some);
    let e4 = entry_at(m, pml4, va, 0);
    let t3 = crate::mem::vmm::frame_of(e4);
    let e3 = entry_at(m, t3, va, 1);
    let t2 = crate::mem::vmm::frame_of(e3);
    let e2 = entry_at(m, t2, va, 2);
    assert(crate::mem::vmm::present(e4) ==> table_at(m, pml4, va, 1) == Some(t3));
    assert(crate::mem::vmm::present(e4) && crate::mem::vmm::present(e3) && !crate::mem::vmm::is_huge(e3)
        ==> table_at(m, pml4, va, 2) == Some(t2));
    assert(crate::mem::vmm::present(e4) && crate::mem::vmm::present(e3) && !crate::mem::vmm::is_huge(e3)
        && crate::mem::vmm::present(e2) && !crate::mem::vmm::is_huge(e2) ==> table_at(m, pml4, va, 3) == Some(
        crate::mem::vmm::frame_of(e2),
    ));
}

} // verus!
