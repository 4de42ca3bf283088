//! What a program finds on its stack when it starts.

use vstd::prelude::*;

use crate::mem::vmm::MemV;
use crate::user::task::spawn_limits::{MAX_ARGC, MAX_ARGV_BYTES};

verus! {

/// How much of the stack is enough for any list of arguments.
pub const BLOCK: u64 = 4096;

/// The bytes `d` are in memory, `off` bytes after `lo`.
#[verifier::opaque]
spec fn has_bytes(m: MemV, pml4: u64, lo: u64, off: int, d: Seq<u8>) -> bool {
    forall|x: int|
        0 <= x < d.len() ==> crate::user::uaccess::user_byte(m, pml4, crate::user::uaccess::user_at(lo, off + x))
            == #[trigger] d[x]
}

/// The bytes of a range outside `from .. to` are the same in both memories.
#[verifier::opaque]
spec fn same_outside(m: MemV, w: MemV, pml4: u64, lo: u64, n: int, from: int, to: int) -> bool {
    forall|j: int|
        0 <= j < n && !(from <= j < to) ==> #[trigger] crate::user::uaccess::user_byte(
            w,
            pml4,
            crate::user::uaccess::user_at(lo, j),
        ) == crate::user::uaccess::user_byte(m, pml4, crate::user::uaccess::user_at(lo, j))
}

/// A range that can be written to.
#[verifier::opaque]
spec fn usable(m: MemV, pml4: u64, lo: u64, n: int) -> bool {
    &&& crate::mem::vmm_laws::sound(m)
    &&& crate::user::uaccess::own_range(m, pml4, lo, n)
    &&& lo + n <= 0x1_0000_0000_0000_0000
}

proof fn lemma_kept(m: MemV, w: MemV, pml4: u64, lo: u64, n: int, from: int, to: int, off: int, d: Seq<u8>)
    requires
        same_outside(m, w, pml4, lo, n, from, to),
        has_bytes(m, pml4, lo, off, d),
        0 <= off,
        off + d.len() <= n,
        off + d.len() <= from || to <= off,
    ensures
        has_bytes(w, pml4, lo, off, d),
{
    reveal(has_bytes);
    reveal(same_outside);
    assert forall|x: int| 0 <= x < d.len() implies crate::user::uaccess::user_byte(
        w,
        pml4,
        crate::user::uaccess::user_at(lo, off + x),
    ) == #[trigger] d[x] by {
        let j = off + x;
        assert(crate::user::uaccess::user_byte(w, pml4, crate::user::uaccess::user_at(lo, j))
            == crate::user::uaccess::user_byte(m, pml4, crate::user::uaccess::user_at(lo, j)));
    }
}

proof fn lemma_same(m: MemV, a: MemV, w: MemV, pml4: u64, lo: u64, n: int, from: int, mid: int, to: int)
    requires
        same_outside(m, a, pml4, lo, n, mid, to),
        same_outside(a, w, pml4, lo, n, from, mid),
        from <= mid <= to,
    ensures
        same_outside(m, w, pml4, lo, n, from, to),
{
    reveal(same_outside);
    assert forall|j: int| 0 <= j < n && !(from <= j < to) implies #[trigger] crate::user::uaccess::user_byte(
        w,
        pml4,
        crate::user::uaccess::user_at(lo, j),
    ) == crate::user::uaccess::user_byte(m, pml4, crate::user::uaccess::user_at(lo, j)) by {
        assert(crate::user::uaccess::user_byte(a, pml4, crate::user::uaccess::user_at(lo, j))
            == crate::user::uaccess::user_byte(m, pml4, crate::user::uaccess::user_at(lo, j)));
    }
}

proof fn lemma_same_up(m: MemV, a: MemV, w: MemV, pml4: u64, lo: u64, n: int, from: int, mid: int, to: int)
    requires
        same_outside(m, a, pml4, lo, n, from, mid),
        same_outside(a, w, pml4, lo, n, mid, to),
        from <= mid <= to,
    ensures
        same_outside(m, w, pml4, lo, n, from, to),
{
    reveal(same_outside);
    assert forall|j: int| 0 <= j < n && !(from <= j < to) implies #[trigger] crate::user::uaccess::user_byte(
        w,
        pml4,
        crate::user::uaccess::user_at(lo, j),
    ) == crate::user::uaccess::user_byte(m, pml4, crate::user::uaccess::user_at(lo, j)) by {
        assert(crate::user::uaccess::user_byte(a, pml4, crate::user::uaccess::user_at(lo, j))
            == crate::user::uaccess::user_byte(m, pml4, crate::user::uaccess::user_at(lo, j)));
    }
}

proof fn lemma_put(m: MemV, pml4: u64, lo: u64, n: int, off: int, d: Seq<u8>)
    requires
        usable(m, pml4, lo, n),
        0 <= off,
        off + d.len() <= n,
    ensures
        ({
            let (w, ok) = crate::user::uaccess::written(m, pml4, (lo + off) as u64, d, 0);
            &&& ok
            &&& usable(w, pml4, lo, n)
            &&& has_bytes(w, pml4, lo, off, d)
            &&& same_outside(m, w, pml4, lo, n, off, off + d.len())
        }),
{
    reveal(usable);
    reveal(has_bytes);
    reveal(same_outside);
    crate::user::uaccess::lemma_written_inside(m, pml4, lo, n, off, d, 0);
    let w = crate::user::uaccess::written(m, pml4, (lo + off) as u64, d, 0).0;
    assert forall|x: int| 0 <= x < d.len() implies crate::user::uaccess::user_byte(
        w,
        pml4,
        crate::user::uaccess::user_at(lo, off + x),
    ) == #[trigger] d[x] by {
        let j = off + x;
        assert(crate::user::uaccess::user_byte(w, pml4, crate::user::uaccess::user_at(lo, j)) == d[j - off]);
    }
}

/// Where the string `i` of `n` is that end at `sp`.
pub open spec fn string_at(all: Seq<Seq<u8>>, n: int, sp: int, i: int) -> int {
    sp - crate::user::task::args_size(all, n) + crate::user::task::args_size(all, i)
}

proof fn lemma_sizes(all: Seq<Seq<u8>>, a: int, b: int)
    requires
        0 <= a < b <= all.len(),
    ensures
        crate::user::task::args_size(all, a) + all[a].len() + 1 <= crate::user::task::args_size(all, b),
    decreases b,
{
    if a + 1 < b {
        lemma_sizes(all, a, b - 1);
    }
}

#[verifier::spinoff_prover]
proof fn lemma_strings(m: MemV, pml4: u64, all: Seq<Seq<u8>>, n: int, sp: int, addrs: Seq<u64>, lo: u64, len: int)
    requires
        usable(m, pml4, lo, len),
        0 <= n <= all.len(),
        lo + crate::user::task::args_size(all, n) <= sp <= lo + len,
    ensures
        ({
            let (w, r) = crate::user::task::lay_strings(m, pml4, all, n, sp, addrs);
            let low = sp - crate::user::task::args_size(all, n);
            &&& usable(w, pml4, lo, len)
            &&& r == Some((low, Seq::new(n as nat, |i: int| string_at(all, n, sp, i) as u64) + addrs))
            &&& same_outside(m, w, pml4, lo, len, low - lo, sp - lo)
            &&& forall|i: int|
                0 <= i < n ==> has_bytes(w, pml4, lo, #[trigger] string_at(all, n, sp, i) - lo, all[i].push(0))
        }),
    decreases n,
{
    let (w, r) = crate::user::task::lay_strings(m, pml4, all, n, sp, addrs);
    if n == 0 {
        reveal(same_outside);
        assert(Seq::new(0, |i: int| string_at(all, n, sp, i) as u64) + addrs =~= addrs);
    } else {
        let s = all[n - 1].push(0);
        let at = sp - all[n - 1].len() - 1;
        lemma_put(m, pml4, lo, len, at - lo, s);
        let m1 = crate::user::uaccess::written(m, pml4, at as u64, s, 0).0;
        assert((lo + (at - lo)) as u64 == at as u64);
        lemma_strings(m1, pml4, all, n - 1, at, seq![at as u64] + addrs, lo, len);
        assert(Seq::new((n - 1) as nat, |i: int| string_at(all, n - 1, at, i) as u64) + (seq![at as u64] + addrs)
            =~= Seq::new(n as nat, |i: int| string_at(all, n, sp, i) as u64) + addrs);
        let low = sp - crate::user::task::args_size(all, n);
        lemma_same(m, m1, w, pml4, lo, len, low - lo, at - lo, sp - lo);
        assert forall|i: int| 0 <= i < n implies has_bytes(
            w,
            pml4,
            lo,
            #[trigger] string_at(all, n, sp, i) - lo,
            all[i].push(0),
        ) by {
            if i == n - 1 {
                lemma_kept(m1, w, pml4, lo, len, low - lo, at - lo, at - lo, s);
            } else {
                assert(string_at(all, n - 1, at, i) == string_at(all, n, sp, i));
            }
        }
    }
}

#[verifier::spinoff_prover]
proof fn lemma_words(m: MemV, pml4: u64, at: int, words: Seq<u64>, i: int, lo: u64, len: int)
    requires
        usable(m, pml4, lo, len),
        0 <= i <= words.len(),
        lo <= at,
        at + 8 * words.len() <= lo + len,
    ensures
        ({
            let (w, ok) = crate::user::task::lay_words(m, pml4, at, words, i);
            &&& ok
            &&& usable(w, pml4, lo, len)
            &&& same_outside(m, w, pml4, lo, len, at + 8 * i - lo, at + 8 * words.len() - lo)
            &&& forall|k: int|
                i <= k < words.len() ==> has_bytes(
                    w,
                    pml4,
                    lo,
                    at + 8 * k - lo,
                    crate::bytes::le8(#[trigger] words[k]),
                )
        }),
    decreases words.len() - i,
{
    if i >= words.len() {
        reveal(same_outside);
    } else {
        let d = crate::bytes::le8(words[i]);
        assert(d.len() == 8);
        let off = at + 8 * i - lo;
        lemma_put(m, pml4, lo, len, off, d);
        assert((lo + off) as u64 == (at + 8 * i) as u64);
        let m1 = crate::user::uaccess::written(m, pml4, (at + 8 * i) as u64, d, 0).0;
        let w = crate::user::task::lay_words(m1, pml4, at, words, i + 1).0;
        lemma_words(m1, pml4, at, words, i + 1, lo, len);
        lemma_same_up(m, m1, w, pml4, lo, len, off, off + 8, at + 8 * words.len() - lo);
        lemma_kept(m1, w, pml4, lo, len, off + 8, at + 8 * words.len() - lo, off, d);
    }
}

proof fn lemma_read(m: MemV, pml4: u64, lo: u64, off: int, d: Seq<u8>)
    requires
        has_bytes(m, pml4, lo, off, d),
        0 <= off,
        lo + off < 0x1_0000_0000_0000_0000,
    ensures
        crate::user::uaccess::user_bytes(m, pml4, (lo + off) as u64, d.len() as int) == d,
{
    reveal(has_bytes);
    assert forall|x: int| 0 <= x < d.len() implies crate::user::uaccess::user_bytes(
        m,
        pml4,
        (lo + off) as u64,
        d.len() as int,
    )[x] == d[x] by {
        assert(crate::user::uaccess::user_at((lo + off) as u64, x) == crate::user::uaccess::user_at(lo, off + x));
    }
    assert(crate::user::uaccess::user_bytes(m, pml4, (lo + off) as u64, d.len() as int) =~= d);
}

/// A program finds its arguments: within the limits, and with a stack of its
/// own below `base`, they are written; where the stack pointer will be is
/// their number, from the next word on are their addresses with a zero behind
/// them, and at each address are the bytes of the argument with a zero behind
/// them.
#[verifier::spinoff_prover]
#[verifier::rlimit(40)]
pub proof fn law_program_finds_its_arguments(m: MemV, pml4: u64, all: Seq<Seq<u8>>, base: u64)
    requires
        crate::mem::vmm_laws::sound(m),
        BLOCK <= base,
        crate::user::uaccess::own_range(m, pml4, (base - BLOCK) as u64, BLOCK as int),
        all.len() <= MAX_ARGC,
        crate::user::task::args_size(all, all.len() as int) <= MAX_ARGV_BYTES,
    ensures
        ({
            let (w, r) = crate::user::task::argv_spec(m, pml4, all, base as int);
            let n = all.len() as int;
            &&& r is Ok
            &&& r->Ok_0.2 == n
            &&& r->Ok_0.1 == r->Ok_0.0 + 8
            &&& r->Ok_0.0 % 8 == 0
            &&& crate::user::uaccess::user_bytes(w, pml4, r->Ok_0.0, 8) == crate::bytes::le8(n as u64)
            &&& crate::user::uaccess::user_bytes(w, pml4, (r->Ok_0.1 + 8 * n) as u64, 8) == crate::bytes::le8(0)
            &&& forall|i: int|
                0 <= i < n ==> {
                    let a = #[trigger] string_at(all, n, base as int, i) as u64;
                    &&& crate::user::uaccess::user_bytes(w, pml4, (r->Ok_0.1 + 8 * i) as u64, 8) == crate::bytes::le8(a)
                    &&& crate::user::uaccess::user_bytes(w, pml4, a, all[i].len() as int + 1) == all[i].push(0)
                }
        }),
{
    let n = all.len() as int;
    let lo = (base - BLOCK) as u64;
    let len = BLOCK as int;
    let size = crate::user::task::args_size(all, n);
    assert(usable(m, pml4, lo, len)) by {
        reveal(usable);
    }
    lemma_strings(m, pml4, all, n, base as int, Seq::empty(), lo, len);
    let m1 = crate::user::task::lay_strings(m, pml4, all, n, base as int, Seq::empty()).0;
    let addrs = Seq::new(n as nat, |i: int| string_at(all, n, base as int, i) as u64);
    assert(addrs + Seq::<u64>::empty() =~= addrs);
    let sp = base - size;
    let end = sp - sp % 8 - 8;
    let argv = end - 8 * n;
    let zero = seq![0u64];
    let count = seq![n as u64];
    lemma_words(m1, pml4, end, zero, 0, lo, len);
    let m2 = crate::user::task::lay_words(m1, pml4, end, zero, 0).0;
    lemma_words(m2, pml4, argv, addrs, 0, lo, len);
    let m3 = crate::user::task::lay_words(m2, pml4, argv, addrs, 0).0;
    lemma_words(m3, pml4, argv - 8, count, 0, lo, len);
    let m4 = crate::user::task::lay_words(m3, pml4, argv - 8, count, 0).0;
    assert((crate::user::task::argv_spec(m, pml4, all, base as int)) == (
        m4,
        Ok::<(u64, u64, u64), Seq<char>>(((argv - 8) as u64, argv as u64, n as u64)),
    ));
    // the number
    assert(count[0] == n as u64);
    lemma_read(m4, pml4, lo, argv - 8 - lo, crate::bytes::le8(n as u64));
    // the zero behind the addresses
    assert(zero[0] == 0u64);
    let z = crate::bytes::le8(0);
    assert(z.len() == 8);
    lemma_kept(m2, m3, pml4, lo, len, argv - lo, end - lo, end - lo, z);
    lemma_kept(m3, m4, pml4, lo, len, argv - 8 - lo, argv - lo, end - lo, z);
    lemma_read(m4, pml4, lo, end - lo, z);
    assert forall|i: int| 0 <= i < n implies {
        let a = #[trigger] string_at(all, n, base as int, i) as u64;
        &&& crate::user::uaccess::user_bytes(m4, pml4, (argv + 8 * i) as u64, 8) == crate::bytes::le8(a)
        &&& crate::user::uaccess::user_bytes(m4, pml4, a, all[i].len() as int + 1) == all[i].push(0)
    } by {
        let a = string_at(all, n, base as int, i);
        let d = crate::bytes::le8(addrs[i]);
        assert(d.len() == 8);
        lemma_kept(m3, m4, pml4, lo, len, argv - 8 - lo, argv - lo, argv + 8 * i - lo, d);
        lemma_read(m4, pml4, lo, argv + 8 * i - lo, d);
        let s = all[i].push(0);
        lemma_sizes(all, i, n);
        lemma_kept(m1, m2, pml4, lo, len, end - lo, end + 8 - lo, a - lo, s);
        lemma_kept(m2, m3, pml4, lo, len, argv - lo, end - lo, a - lo, s);
        lemma_kept(m3, m4, pml4, lo, len, argv - 8 - lo, argv - lo, a - lo, s);
        lemma_read(m4, pml4, lo, a - lo, s);
    }
}

} // verus!
