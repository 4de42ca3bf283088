//! What a program finds in its memory when it starts: its image, its stack,
//! the return code for its handlers, and its arguments.

use vstd::prelude::*;

use crate::mem::vmm::MemV;

verus! {

/// The space is as it was but for the bytes from `lo` to `hi`.
#[verifier::opaque]
pub open spec fn same_but(m: MemV, x: MemV, pml4: u64, lo: int, hi: int) -> bool {
    &&& crate::user::elf_laws::pages_apart(x, pml4)
    &&& forall|q: int|
        0 <= q < 0x8_0000_0000 ==> #[trigger] crate::user::elf_laws::page_at(x, pml4, q)
            == crate::user::elf_laws::page_at(m, pml4, q)
    &&& forall|at: int|
        0 <= at < 0x8000_0000_0000 && !(lo <= at < hi) ==> #[trigger] crate::user::elf_laws::held(x, pml4, at)
            == crate::user::elf_laws::held(m, pml4, at)
}

/// The bytes `s` are in the space from `at` on.
#[verifier::opaque]
pub open spec fn finds(x: MemV, pml4: u64, at: int, s: Seq<u8>) -> bool {
    forall|c: int| 0 <= c < s.len() ==> #[trigger] crate::user::elf_laws::held(x, pml4, at + c) == Some(s[c])
}

proof fn lemma_still_found(m: MemV, x: MemV, pml4: u64, lo: int, hi: int, at: int, s: Seq<u8>)
    requires
        same_but(m, x, pml4, lo, hi),
        finds(m, pml4, at, s),
        0 <= at,
        at + s.len() <= 0x8000_0000_0000,
        at + s.len() <= lo || hi <= at,
    ensures
        finds(x, pml4, at, s),
{
    reveal(same_but);
    reveal(finds);
    assert forall|c: int| 0 <= c < s.len() implies #[trigger] crate::user::elf_laws::held(x, pml4, at + c) == Some(
        s[c],
    ) by {
        assert(crate::user::elf_laws::held(m, pml4, at + c) == Some(s[c]));
    }
}

/// Bytes written inside a page.
#[verifier::spinoff_prover]
proof fn lemma_bytes(m: MemV, pml4: u64, va: u64, s: Seq<u8>, i: int, q: int)
    requires
        crate::user::elf_laws::pages_apart(m, pml4),
        0 <= q < 0x8_0000_0000,
        crate::user::elf_laws::page_at(m, pml4, q) is Some,
        q * 4096 <= va,
        va + s.len() <= (q + 1) * 4096,
        0 <= i <= s.len(),
    ensures
        ({
            let (x, ok) = crate::user::uaccess::written(m, pml4, va, s, i);
            &&& ok
            &&& same_but(m, x, pml4, va + i, va + s.len())
            &&& forall|at: int|
                va + i <= at < va + s.len() ==> #[trigger] crate::user::elf_laws::held(x, pml4, at) == Some(s[at - va])
        }),
    decreases s.len() - i,
{
    reveal(same_but);
    if i < s.len() {
        let at = va + i;
        assert(at / 4096 == q);
        assert(crate::user::uaccess::user_at(va, i) == at);
        crate::user::elf_laws::lemma_byte(m, pml4, at, s[i]);
        let pa = crate::mem::vmm::translate_spec(m, pml4, at as u64)->Some_0;
        let n = MemV { ram: crate::mem::phys::with_byte_at(m.ram, pa, s[i]), ..m };
        assert(crate::user::elf_laws::page_at(n, pml4, q) is Some);
        lemma_bytes(n, pml4, va, s, i + 1, q);
        let x = crate::user::uaccess::written(m, pml4, va, s, i).0;
        assert(x == crate::user::uaccess::written(n, pml4, va, s, i + 1).0);
        assert forall|p: int| 0 <= p < 0x8_0000_0000 implies #[trigger] crate::user::elf_laws::page_at(x, pml4, p)
            == crate::user::elf_laws::page_at(m, pml4, p) by {
            assert(crate::user::elf_laws::page_at(n, pml4, p) == crate::user::elf_laws::page_at(m, pml4, p));
        }
        assert forall|p: int| 0 <= p < 0x8000_0000_0000 && !(va + i <= p < va + s.len()) implies #[trigger] crate::user::elf_laws::held(
            x,
            pml4,
            p,
        ) == crate::user::elf_laws::held(m, pml4, p) by {
            assert(crate::user::elf_laws::held(n, pml4, p) == crate::user::elf_laws::held(m, pml4, p));
        }
        assert(crate::user::elf_laws::held(x, pml4, at) == crate::user::elf_laws::held(n, pml4, at));
    }
}

/// The strings, the last below `sp`, the one before it below that.
#[verifier::spinoff_prover]
proof fn lemma_strings(m: MemV, pml4: u64, all: Seq<Seq<u8>>, n: int, sp: int, addrs: Seq<u64>, q: int)
    requires
        crate::user::elf_laws::pages_apart(m, pml4),
        0 <= q < 0x8_0000_0000,
        crate::user::elf_laws::page_at(m, pml4, q) is Some,
        0 <= n <= all.len(),
        q * 4096 <= sp - crate::user::task::args_size(all, n),
        sp <= (q + 1) * 4096,
    ensures
        ({
            let (x, r) = crate::user::task::lay_strings(m, pml4, all, n, sp, addrs);
            &&& r is Some
            &&& r->Some_0.0 == sp - crate::user::task::args_size(all, n)
            &&& r->Some_0.1.len() == n + addrs.len()
            &&& forall|j: int| 0 <= j < addrs.len() ==> r->Some_0.1[n + j] == #[trigger] addrs[j]
            &&& same_but(m, x, pml4, sp - crate::user::task::args_size(all, n), sp)
            &&& forall|j: int|
                0 <= j < n ==> {
                    let at = (#[trigger] r->Some_0.1[j]) as int;
                    &&& sp - crate::user::task::args_size(all, n) <= at
                    &&& at + all[j].len() + 1 <= sp
                    &&& finds(x, pml4, at, all[j].push(0))
                }
        }),
    decreases n,
{
    reveal(same_but);
    reveal(finds);
    if n > 0 {
        let s = all[n - 1].push(0);
        let at = sp - all[n - 1].len() - 1;
        lemma_bytes(m, pml4, at as u64, s, 0, q);
        let m1 = crate::user::uaccess::written(m, pml4, at as u64, s, 0).0;
        assert(crate::user::elf_laws::page_at(m1, pml4, q) is Some);
        let more = seq![at as u64] + addrs;
        lemma_strings(m1, pml4, all, n - 1, at, more, q);
        let (x, r) = crate::user::task::lay_strings(m, pml4, all, n, sp, addrs);
        assert((x, r) == crate::user::task::lay_strings(m1, pml4, all, n - 1, at, more));
        let lo = sp - crate::user::task::args_size(all, n);
        assert(lo == at - crate::user::task::args_size(all, n - 1));
        assert forall|j: int| 0 <= j < addrs.len() implies r->Some_0.1[n + j] == #[trigger] addrs[j] by {
            assert(more[j + 1] == addrs[j]);
        }
        assert(finds(m1, pml4, at, s));
        lemma_still_found(m1, x, pml4, lo, at, at, s);
        assert(more[0] == at);
        assert(r->Some_0.1[n - 1 + 0] == more[0]);
        assert forall|p: int| 0 <= p < 0x8_0000_0000 implies #[trigger] crate::user::elf_laws::page_at(x, pml4, p)
            == crate::user::elf_laws::page_at(m, pml4, p) by {
            assert(crate::user::elf_laws::page_at(m1, pml4, p) == crate::user::elf_laws::page_at(m, pml4, p));
        }
        assert forall|p: int| 0 <= p < 0x8000_0000_0000 && !(lo <= p < sp) implies #[trigger] crate::user::elf_laws::held(
            x,
            pml4,
            p,
        ) == crate::user::elf_laws::held(m, pml4, p) by {
            assert(crate::user::elf_laws::held(m1, pml4, p) == crate::user::elf_laws::held(m, pml4, p));
        }
    }
}

/// Words, one after the other.
#[verifier::spinoff_prover]
proof fn lemma_row(m: MemV, pml4: u64, at: int, words: Seq<u64>, i: int, q: int)
    requires
        crate::user::elf_laws::pages_apart(m, pml4),
        0 <= q < 0x8_0000_0000,
        crate::user::elf_laws::page_at(m, pml4, q) is Some,
        0 <= i <= words.len(),
        q * 4096 <= at,
        at + 8 * words.len() <= (q + 1) * 4096,
    ensures
        ({
            let (x, ok) = crate::user::task::lay_words(m, pml4, at, words, i);
            &&& ok
            &&& same_but(m, x, pml4, at + 8 * i, at + 8 * words.len())
            &&& forall|j: int|
                i <= j < words.len() ==> finds(x, pml4, at + 8 * j, crate::bytes::le8(#[trigger] words[j]))
        }),
    decreases words.len() - i,
{
    reveal(same_but);
    reveal(finds);
    if i < words.len() {
        let s = crate::bytes::le8(words[i]);
        let va = (at + 8 * i) as u64;
        assert(s.len() == 8);
        lemma_bytes(m, pml4, va, s, 0, q);
        let m1 = crate::user::uaccess::written(m, pml4, va, s, 0).0;
        assert(crate::user::elf_laws::page_at(m1, pml4, q) is Some);
        lemma_row(m1, pml4, at, words, i + 1, q);
        let x = crate::user::task::lay_words(m, pml4, at, words, i).0;
        assert(x == crate::user::task::lay_words(m1, pml4, at, words, i + 1).0);
        assert(finds(m1, pml4, at + 8 * i, s));
        lemma_still_found(m1, x, pml4, at + 8 * (i + 1), at + 8 * words.len(), at + 8 * i, s);
        assert forall|p: int| 0 <= p < 0x8_0000_0000 implies #[trigger] crate::user::elf_laws::page_at(x, pml4, p)
            == crate::user::elf_laws::page_at(m, pml4, p) by {
            assert(crate::user::elf_laws::page_at(m1, pml4, p) == crate::user::elf_laws::page_at(m, pml4, p));
        }
        assert forall|p: int| 0 <= p < 0x8000_0000_0000 && !(at + 8 * i <= p < at + 8 * words.len()) implies #[trigger] crate::user::elf_laws::held(
            x,
            pml4,
            p,
        ) == crate::user::elf_laws::held(m, pml4, p) by {
            assert(crate::user::elf_laws::held(m1, pml4, p) == crate::user::elf_laws::held(m, pml4, p));
        }
    }
}

/// A page that was there is there.
proof fn lemma_still_there(m: MemV, x: MemV, pml4: u64, lo: int, hi: int, q: int)
    requires
        same_but(m, x, pml4, lo, hi),
        0 <= q < 0x8_0000_0000,
    ensures
        crate::user::elf_laws::pages_apart(x, pml4),
        crate::user::elf_laws::page_at(x, pml4, q) == crate::user::elf_laws::page_at(m, pml4, q),
{
    reveal(same_but);
}

/// A change inside a wider range.
proof fn lemma_wider(m: MemV, x: MemV, pml4: u64, lo: int, hi: int, a: int, b: int)
    requires
        same_but(m, x, pml4, lo, hi),
        a <= lo,
        hi <= b,
    ensures
        same_but(m, x, pml4, a, b),
{
    reveal(same_but);
}

/// One change after the other.
proof fn lemma_both(m: MemV, x: MemV, y: MemV, pml4: u64, lo: int, mid: int, hi: int)
    requires
        lo <= mid <= hi,
        same_but(m, x, pml4, mid, hi),
        same_but(x, y, pml4, lo, mid),
    ensures
        same_but(m, y, pml4, lo, hi),
{
    reveal(same_but);
    assert forall|p: int| 0 <= p < 0x8_0000_0000 implies #[trigger] crate::user::elf_laws::page_at(y, pml4, p)
        == crate::user::elf_laws::page_at(m, pml4, p) by {
        assert(crate::user::elf_laws::page_at(x, pml4, p) == crate::user::elf_laws::page_at(m, pml4, p));
    }
    assert forall|p: int| 0 <= p < 0x8000_0000_0000 && !(lo <= p < hi) implies #[trigger] crate::user::elf_laws::held(
        y,
        pml4,
        p,
    ) == crate::user::elf_laws::held(m, pml4, p) by {
        assert(crate::user::elf_laws::held(x, pml4, p) == crate::user::elf_laws::held(m, pml4, p));
    }
}

/// What a program finds of the arguments `all` where its stack pointer is
/// `rsp`: their number there, from the next word on their addresses with a
/// zero behind them, and at each address the argument with a zero behind it.
pub open spec fn finds_arguments(x: MemV, pml4: u64, rsp: u64, all: Seq<Seq<u8>>) -> bool {
    exists|addrs: Seq<u64>| #[trigger] finds_block(x, pml4, rsp as int, all, addrs)
}

/// The same, with the addresses `addrs`.
pub open spec fn finds_block(x: MemV, pml4: u64, rsp: int, all: Seq<Seq<u8>>, addrs: Seq<u64>) -> bool {
    &&& addrs.len() == all.len()
    &&& finds(x, pml4, rsp, crate::bytes::le8(all.len() as u64))
    &&& finds(x, pml4, rsp + 8 + 8 * all.len(), seq![0u8, 0, 0, 0, 0, 0, 0, 0])
    &&& forall|j: int|
        0 <= j < all.len() ==> finds(x, pml4, rsp + 8 + 8 * j, crate::bytes::le8(#[trigger] addrs[j])) && finds(
            x,
            pml4,
            addrs[j] as int,
            all[j].push(0),
        )
}

/// The words of the block, below the strings.
#[verifier::spinoff_prover]
proof fn lemma_words_below(m1: MemV, pml4: u64, all: Seq<Seq<u8>>, addrs: Seq<u64>, end: int, q: int)
    requires
        crate::user::elf_laws::pages_apart(m1, pml4),
        0 <= q < 0x8_0000_0000,
        crate::user::elf_laws::page_at(m1, pml4, q) is Some,
        addrs.len() == all.len(),
        all.len() <= 16,
        q * 4096 <= end - 8 * all.len() - 8,
        end + 8 <= (q + 1) * 4096,
        forall|j: int|
            0 <= j < all.len() ==> end + 8 <= (#[trigger] addrs[j]) && addrs[j] + all[j].len() + 1 <= (q + 1) * 4096
                && finds(m1, pml4, addrs[j] as int, all[j].push(0)),
    ensures
        ({
            let argv = end - 8 * all.len();
            let (m2, ok2) = crate::user::task::lay_words(m1, pml4, end, seq![0u64], 0);
            let (m3, ok3) = crate::user::task::lay_words(m2, pml4, argv, addrs, 0);
            let (m4, ok4) = crate::user::task::lay_words(m3, pml4, argv - 8, seq![all.len() as u64], 0);
            &&& ok2 && ok3 && ok4
            &&& same_but(m1, m4, pml4, argv - 8, end + 8)
            &&& finds_block(m4, pml4, argv - 8, all, addrs)
        }),
{
    let n = all.len() as int;
    let argv = end - 8 * n;
    let zero = seq![0u64];
    let count = seq![n as u64];
    lemma_row(m1, pml4, end, zero, 0, q);
    let m2 = crate::user::task::lay_words(m1, pml4, end, zero, 0).0;
    lemma_still_there(m1, m2, pml4, end, end + 8, q);
    lemma_row(m2, pml4, argv, addrs, 0, q);
    let m3 = crate::user::task::lay_words(m2, pml4, argv, addrs, 0).0;
    lemma_still_there(m2, m3, pml4, argv, end, q);
    lemma_row(m3, pml4, argv - 8, count, 0, q);
    let m4 = crate::user::task::lay_words(m3, pml4, argv - 8, count, 0).0;
    let none = seq![0u8, 0, 0, 0, 0, 0, 0, 0];
    assert(crate::bytes::le8(0) =~= none);
    assert(zero[0] == 0 && count[0] == n);
    assert(finds(m2, pml4, end + 8 * 0, none));
    assert(finds(m4, pml4, argv - 8 + 8 * 0, crate::bytes::le8(n as u64)));
    lemma_still_found(m2, m3, pml4, argv, end, end, none);
    lemma_still_found(m3, m4, pml4, argv - 8, argv, end, none);
    assert forall|j: int| 0 <= j < all.len() implies finds(
        m4,
        pml4,
        argv - 8 + 8 + 8 * j,
        crate::bytes::le8(#[trigger] addrs[j]),
    ) && finds(m4, pml4, addrs[j] as int, all[j].push(0)) by {
        let s = crate::bytes::le8(addrs[j]);
        assert(s.len() == 8);
        assert(finds(m3, pml4, argv + 8 * j, s));
        lemma_still_found(m3, m4, pml4, argv - 8, argv, argv + 8 * j, s);
        let at = addrs[j] as int;
        let t = all[j].push(0);
        lemma_still_found(m1, m2, pml4, end, end + 8, at, t);
        lemma_still_found(m2, m3, pml4, argv, end, at, t);
        lemma_still_found(m3, m4, pml4, argv - 8, argv, at, t);
    }
    lemma_both(m1, m2, m3, pml4, argv, end, end + 8);
    lemma_both(m1, m3, m4, pml4, argv - 8, argv, end + 8);
}

/// The strings and the words of a block, in page `q`.
#[verifier::spinoff_prover]
proof fn lemma_block(m: MemV, pml4: u64, all: Seq<Seq<u8>>, q: int, sp: int, m1: MemV, addrs: Seq<u64>)
    requires
        crate::user::elf_laws::pages_apart(m, pml4),
        0 <= q < 0x8_0000_0000,
        crate::user::elf_laws::page_at(m, pml4, q) is Some,
        all.len() <= 16,
        sp == (q + 1) * 4096 - crate::user::task::args_size(all, all.len() as int),
        q * 4096 + 2048 <= sp,
        m1 == crate::user::task::lay_strings(m, pml4, all, all.len() as int, (q + 1) * 4096, Seq::empty()).0,
        addrs == crate::user::task::lay_strings(
            m,
            pml4,
            all,
            all.len() as int,
            (q + 1) * 4096,
            Seq::empty(),
        ).1->Some_0.1,
    ensures
        ({
            let r = crate::user::task::lay_strings(m, pml4, all, all.len() as int, (q + 1) * 4096, Seq::empty()).1;
            let end = sp - sp % 8 - 8;
            let argv = end - 8 * all.len();
            let (m2, ok2) = crate::user::task::lay_words(m1, pml4, end, seq![0u64], 0);
            let (m3, ok3) = crate::user::task::lay_words(m2, pml4, argv, addrs, 0);
            let (m4, ok4) = crate::user::task::lay_words(m3, pml4, argv - 8, seq![all.len() as u64], 0);
            &&& r is Some && r->Some_0.0 == sp
            &&& ok2 && ok3 && ok4
            &&& same_but(m, m4, pml4, q * 4096, (q + 1) * 4096)
            &&& finds_block(m4, pml4, argv - 8, all, addrs)
        }),
{
    let base = (q + 1) * 4096;
    let n = all.len() as int;
    lemma_strings(m, pml4, all, n, base, Seq::empty(), q);
    let end = sp - sp % 8 - 8;
    let argv = end - 8 * n;
    lemma_still_there(m, m1, pml4, sp, base, q);
    assert forall|j: int| 0 <= j < all.len() implies end + 8 <= (#[trigger] addrs[j]) && addrs[j] + all[j].len() + 1
        <= base && finds(m1, pml4, addrs[j] as int, all[j].push(0)) by {}
    lemma_words_below(m1, pml4, all, addrs, end, q);
    let m2 = crate::user::task::lay_words(m1, pml4, end, seq![0u64], 0).0;
    let m3 = crate::user::task::lay_words(m2, pml4, argv, addrs, 0).0;
    let m4 = crate::user::task::lay_words(m3, pml4, argv - 8, seq![n as u64], 0).0;
    lemma_wider(m1, m4, pml4, argv - 8, end + 8, argv - 8, sp);
    lemma_both(m, m1, m4, pml4, argv - 8, sp, base);
    lemma_wider(m, m4, pml4, argv - 8, base, q * 4096, base);
}

/// The arguments of a program, in page `q`.
#[verifier::spinoff_prover]
proof fn lemma_arguments(m: MemV, pml4: u64, all: Seq<Seq<u8>>, q: int)
    requires
        crate::user::elf_laws::pages_apart(m, pml4),
        0 <= q < 0x8_0000_0000,
        crate::user::elf_laws::page_at(m, pml4, q) is Some,
        crate::user::task::argv_spec(m, pml4, all, (q + 1) * 4096).1 is Ok,
    ensures
        ({
            let (x, r) = crate::user::task::argv_spec(m, pml4, all, (q + 1) * 4096);
            &&& same_but(m, x, pml4, q * 4096, (q + 1) * 4096)
            &&& r->Ok_0.2 == all.len()
            &&& r->Ok_0.1 == r->Ok_0.0 + 8
            &&& r->Ok_0.0 % 8 == 0
            &&& q * 4096 <= r->Ok_0.0 < (q + 1) * 4096
            &&& finds_arguments(x, pml4, r->Ok_0.0, all)
        }),
{
    let base = (q + 1) * 4096;
    let n = all.len() as int;
    let (m1, laid) = crate::user::task::lay_strings(m, pml4, all, n, base, Seq::empty());
    let sp = base - crate::user::task::args_size(all, n);
    let addrs = laid->Some_0.1;
    lemma_block(m, pml4, all, q, sp, m1, addrs);
    let (x, r) = crate::user::task::argv_spec(m, pml4, all, base);
    assert(finds_block(x, pml4, r->Ok_0.0 as int, all, addrs));
}

/// The return page, in a frame of its own.
#[verifier::spinoff_prover]
proof fn lemma_return_page(m: MemV, pml4: u64)
    requires
        crate::user::elf_laws::pages_apart(m, pml4),
        crate::user::elf_laws::page_at(m, pml4, 0x7_FFFF) is None,
        crate::user::signal::map_trampoline_spec(m, pml4).1 is Ok,
    ensures
        ({
            let n = crate::user::signal::map_trampoline_spec(m, pml4).0;
            &&& crate::user::elf_laws::pages_apart(n, pml4)
            &&& forall|r: int|
                0 <= r < 0x8_0000_0000 && r != 0x7_FFFF ==> #[trigger] crate::user::elf_laws::page_kept(m, n, pml4, r)
        }),
{
    assert(0x7_FFFF * 4096 == 0x7FFF_F000);
    crate::user::signal_laws::lemma_return_flags();
    crate::user::elf_laws::lemma_mapped(m, pml4, 0x7_FFFF, 5);
    let f = crate::mem::frames::alloc_spec(m.frames).1->Some_0;
    let m0 = MemV { frames: crate::mem::frames::alloc_spec(m.frames).0, ..m };
    let m1 = crate::mem::vmm::map_spec(m0, pml4, 0x7FFF_F000, f, 5).0;
    let code = crate::user::signal::trampoline();
    let n = MemV { ram: crate::user::signal::laid(m1.ram, f, code, 0), ..m1 };
    crate::user::signal_laws::lemma_code(m1.ram, f, code, 0, f);
    assert(crate::mem::vmm_laws::sound(n));
    assert forall|u: u64, j: int|
        #![trigger n.entry(u, j)]
        u / 4096 != f / 4096 && 0 <= j < 512 implies n.entry(u, j) == m1.entry(u, j) by {
        crate::user::signal_laws::lemma_beside(m1.ram, f, code, 0, u, j);
    }
    crate::user::elf_laws::lemma_refilled(m1, n, pml4, 0x7_FFFF);
    assert forall|r: int| 0 <= r < 0x8_0000_0000 && r != 0x7_FFFF implies #[trigger] crate::user::elf_laws::page_kept(
        m,
        n,
        pml4,
        r,
    ) by {
        assert(crate::user::elf_laws::page_kept(m, m1, pml4, r));
        assert(crate::user::elf_laws::page_kept(m1, n, pml4, r));
    }
}

/// A program that was built, whose segments end below the return page: it
/// starts at the entry of its image with the stack pointer at its arguments;
/// each segment is where its header puts it, the bytes of the file first and
/// zeroes behind them; the 64 KiB below 0x7FFF_FFFF_F000 are its stack, all
/// zero but for the page with the arguments; and the return page holds
/// `mov eax, 10; int 0x80`.
#[verifier::spinoff_prover]
#[verifier::rlimit(40)]
pub proof fn law_started_program_is_complete(m0: MemV, b: Seq<u8>, all: Seq<Seq<u8>>)
    requires
        crate::mem::vmm_laws::sound(m0),
        crate::mem::tree_laws::tree(m0, m0.kernel),
        crate::user::task::build_spec(m0, b, all).1 is Ok,
        forall|j: int|
            0 <= j < crate::bytes::rd_le2(b, 56) && #[trigger] crate::user::elf::loads(b, j)
                ==> crate::user::elf_laws::ends_below(b, j, 0x7FFF_F000),
    ensures
        ({
            let (n, r) = crate::user::task::build_spec(m0, b, all);
            let img = r->Ok_0;
            let root = img.space.pml4;
            &&& img.entry == crate::bytes::rd_le8(b, 24)
            &&& img.argc == all.len()
            &&& img.argv == img.rsp + 8
            &&& img.rsp % 8 == 0
            &&& 0x7FFF_FFFF_D000 <= img.rsp < 0x7FFF_FFFF_E000
            &&& finds_arguments(n, root, img.rsp, all)
            &&& finds(n, root, 0x7FFF_F000, seq![0xB8u8, 10, 0, 0, 0, 0xCD, 0x80])
            &&& forall|at: int|
                0x7FFF_FFFE_F000 <= at < 0x7FFF_FFFF_F000 && !(0x7FFF_FFFF_D000 <= at < 0x7FFF_FFFF_E000)
                    ==> #[trigger] crate::user::elf_laws::held(n, root, at) == Some(0u8)
            &&& forall|j: int, k: int|
                #![trigger crate::user::elf::loads(b, j), crate::user::elf_laws::held(n, root, crate::user::elf::seg_at(b, j).vaddr + k)]
                0 <= j < crate::bytes::rd_le2(b, 56) && crate::user::elf::loads(b, j) && 0 <= k
                    < crate::user::elf::seg_at(b, j).memsz ==> crate::user::elf_laws::held(
                    n,
                    root,
                    crate::user::elf::seg_at(b, j).vaddr + k,
                ) == Some(
                    if k < crate::user::elf::seg_at(b, j).filesz {
                        b[crate::user::elf::seg_at(b, j).offset + k]
                    } else {
                        0u8
                    },
                )
        }),
{
    reveal(same_but);
    reveal(finds);
    let m1 = crate::mem::vmm::new_root_spec(m0).0;
    let root = crate::mem::vmm::new_root_spec(m0).1->Some_0;
    let m2 = crate::user::elf::load_spec(m1, root, b).0;
    let m3 = crate::user::task::map_stack(m2, root, 0).0;
    let m4 = crate::user::signal::map_trampoline_spec(m3, root).0;
    let n = crate::user::task::argv_spec(m4, root, all, 0x7FFF_FFFF_E000).0;
    crate::user::elf_laws::lemma_loaded(m0, b, 0x7FFF_F000);
    assert forall|i: int| 0 <= i < 16 implies #[trigger] crate::user::elf_laws::page_at(
        m2,
        root,
        crate::user::build_laws::stack_page(i),
    ) is None by {}
    crate::user::build_laws::law_program_has_a_stack(m2, root);
    assert(crate::user::elf_laws::page_at(m2, root, 0x7_FFFF) is None);
    assert(crate::user::elf_laws::page_kept(m2, m3, root, 0x7_FFFF));
    lemma_return_page(m3, root);
    let q = crate::user::build_laws::stack_page(1);
    assert(q == 0x7_FFFF_FFFD && (q + 1) * 4096 == 0x7FFF_FFFF_E000 && q * 4096 == 0x7FFF_FFFF_D000);
    assert(crate::user::elf_laws::page_blank(m3, root, q));
    assert(crate::user::elf_laws::page_kept(m3, m4, root, q));
    lemma_arguments(m4, root, all, q);
    let code = seq![0xB8u8, 10, 0, 0, 0, 0xCD, 0x80];
    assert forall|c: int| 0 <= c < code.len() implies #[trigger] crate::user::elf_laws::held(n, root, 0x7FFF_F000 + c)
        == Some(code[c]) by {
        crate::user::signal_laws::law_return_code(m3, root, c);
        assert(crate::user::elf_laws::held(n, root, 0x7FFF_F000 + c) == crate::user::elf_laws::held(
            m4,
            root,
            0x7FFF_F000 + c,
        ));
    }
    assert forall|at: int|
        0x7FFF_FFFE_F000 <= at < 0x7FFF_FFFF_F000 && !(0x7FFF_FFFF_D000 <= at < 0x7FFF_FFFF_E000) implies #[trigger] crate::user::elf_laws::held(
        n,
        root,
        at,
    ) == Some(0u8) by {
        let i = 0x7_FFFF_FFFE - at / 4096;
        assert(crate::user::build_laws::stack_page(i) == at / 4096);
        assert(crate::user::elf_laws::page_blank(m3, root, at / 4096));
        crate::user::elf_laws::lemma_blank_byte(m3, root, at);
        assert(crate::user::elf_laws::page_kept(m3, m4, root, at / 4096));
        crate::user::elf_laws::lemma_kept_byte(m3, m4, root, at);
        assert(crate::user::elf_laws::held(n, root, at) == crate::user::elf_laws::held(m4, root, at));
    }
    assert forall|j: int, k: int|
        #![trigger crate::user::elf::loads(b, j), crate::user::elf_laws::held(n, root, crate::user::elf::seg_at(b, j).vaddr + k)]
        0 <= j < crate::bytes::rd_le2(b, 56) && crate::user::elf::loads(b, j) && 0 <= k
            < crate::user::elf::seg_at(b, j).memsz implies crate::user::elf_laws::held(
        n,
        root,
        crate::user::elf::seg_at(b, j).vaddr + k,
    ) == Some(
        if k < crate::user::elf::seg_at(b, j).filesz {
            b[crate::user::elf::seg_at(b, j).offset + k]
        } else {
            0u8
        },
    ) by {
        let at = crate::user::elf::seg_at(b, j).vaddr + k;
        assert(crate::user::elf_laws::ends_below(b, j, 0x7FFF_F000));
        assert(crate::user::elf_laws::held(m2, root, at) is Some);
        assert(crate::user::elf_laws::page_kept(m2, m3, root, at / 4096));
        crate::user::elf_laws::lemma_kept_byte(m2, m3, root, at);
        assert(crate::user::elf_laws::page_kept(m3, m4, root, at / 4096));
        crate::user::elf_laws::lemma_kept_byte(m3, m4, root, at);
        assert(crate::user::elf_laws::held(n, root, at) == crate::user::elf_laws::held(m4, root, at));
    }
}

/// A program that was spawned: a new task, ready, in user mode, at the entry of
/// the image with the stack pointer at its arguments, their number and where
/// their addresses are in its first two registers. Without arguments it gets
/// its own name as the only one.
#[verifier::spinoff_prover]
pub proof fn law_spawned_program(
    k: crate::sched::SchedV,
    m: MemV,
    cpus: Seq<crate::cpu::smp::Cpu>,
    cpu: int,
    image: Seq<u8>,
    short: &str,
    args: Seq<Seq<u8>>,
    i: int,
)
    requires
        crate::mem::vmm_laws::sound(m),
        crate::mem::tree_laws::tree(m, m.kernel),
        k.wf(),
        k.on,
        0 <= cpu < cpus.len(),
        cpus[cpu].current < 16,
        crate::sched::life_laws::free_slot(k.tasks, i),
        forall|j: int|
            0 <= j < crate::bytes::rd_le2(image, 56) && #[trigger] crate::user::elf::loads(image, j)
                ==> crate::user::elf_laws::ends_below(image, j, 0x7FFF_F000),
        crate::user::task::spawn_image_spec(k, m, cpus, cpu, image, short, args).2 is Ok,
        crate::user::task::build_spec(m, image, crate::user::task::all_args(short@, args)).0.frames.wf(),
    ensures
        ({
            let (k1, m1, r) = crate::user::task::spawn_image_spec(k, m, cpus, cpu, image, short, args);
            let all = if args.len() == 0 {
                seq![vstd::utf8::encode_utf8(short@)]
            } else {
                args
            };
            let t = k1.tasks[i];
            &&& r == Ok::<u64, Seq<char>>(k.next_pid)
            &&& t.pid == k.next_pid
            &&& t.state == crate::sched::State::Ready
            &&& t.is_user
            &&& t.saved matches Some(f) && {
                &&& f.rip == crate::bytes::rd_le8(image, 24)
                &&& f.cs % 4 == 3
                &&& f.rdi == all.len()
                &&& f.rsi == f.rsp + 8
                &&& finds_arguments(m1, t.pml4, f.rsp, all)
            }
            &&& forall|j: int| 0 <= j < 16 && j != i ==> #[trigger] k1.tasks[j] == k.tasks[j]
        }),
{
    let all = crate::user::task::all_args(short@, args);
    let (m1, built) = crate::user::task::build_spec(m, image, all);
    let img = built->Ok_0;
    law_started_program_is_complete(m, image, all);
    let new = crate::user::task::image_task(img, short);
    crate::sched::life_laws::lemma_free_slot(k.tasks, i);
    crate::sched::life_laws::law_spawned_task_starts_at_its_entry(k, m1, cpus, cpu, new, i);
    let m2 = crate::sched::spawn_spec(k, m1, cpus, cpu, new).1;
    assert(m2.ram == m1.ram);
    reveal(finds);
    let root = img.space.pml4;
    assert forall|at: int| #[trigger] crate::user::elf_laws::held(m2, root, at) == crate::user::elf_laws::held(
        m1,
        root,
        at,
    ) by {
        lemma_same_memory(m1, m2, root, at);
    }
    let addrs = choose|addrs: Seq<u64>| #[trigger] finds_block(m1, root, img.rsp as int, all, addrs);
    assert(finds_block(m2, root, img.rsp as int, all, addrs));
}

/// What a space holds is in the memory alone.
proof fn lemma_same_memory(m: MemV, n: MemV, pml4: u64, at: int)
    requires
        n.ram == m.ram,
    ensures
        crate::user::elf_laws::held(n, pml4, at) == crate::user::elf_laws::held(m, pml4, at),
{
    assert forall|u: u64, j: int| #[trigger] n.entry(u, j) == m.entry(u, j) by {}
}

} // verus!
