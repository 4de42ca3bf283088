//! Access to user memory. A user address is never used as it is: each byte
//! goes through the translation of the address space it belongs to, and a
//! missing mapping is an error.

use vstd::prelude::*;

use crate::mem::vmm::{AddressSpace, MemV, Memory};

verus! {

/// The address `i` bytes after `uva`, wrapping at the end of the space.
pub open spec fn user_at(uva: u64, i: int) -> u64 {
    ((uva + i) % 0x1_0000_0000_0000_0000) as u64
}

/// The `n` bytes from `uva` on are all mapped.
pub open spec fn readable(m: MemV, pml4: u64, uva: u64, n: int) -> bool {
    forall|i: int|
        0 <= i < n ==> crate::mem::vmm::translate_spec(m, pml4, #[trigger] user_at(uva, i)) is Some
}

/// The byte at `va`.
pub open spec fn user_byte(m: MemV, pml4: u64, va: u64) -> u8 {
    crate::mem::phys::byte_at(m.ram, crate::mem::vmm::translate_spec(m, pml4, va)->Some_0)
}

/// The `n` bytes from `uva` on.
pub open spec fn user_bytes(m: MemV, pml4: u64, uva: u64, n: int) -> Seq<u8> {
    Seq::new(n as nat, |i: int| user_byte(m, pml4, user_at(uva, i)))
}

/// Copies `n` bytes from user memory.
pub fn read_user_bytes(m: &Memory, space: &AddressSpace, uva: u64, n: usize) -> (r: Result<Vec<u8>, ()>)
    requires
        m.wf(),
    ensures
        match r {
            Ok(v) => readable(m@, space.pml4, uva, n as int) && v@ == user_bytes(m@, space.pml4, uva, n as int),
            Err(_) => !readable(m@, space.pml4, uva, n as int),
        },
{
    let mut v: Vec<u8> = Vec::new();
    let mut va: u64 = uva;
    let mut i: usize = 0;
    while i < n
        invariant
            i <= n,
            m.wf(),
            va == user_at(uva, i as int),
            v@.len() == i,
            forall|j: int|
                0 <= j < i ==> crate::mem::vmm::translate_spec(m@, space.pml4, #[trigger] user_at(uva, j)) is Some,
            forall|j: int| 0 <= j < i ==> #[trigger] v@[j] == user_byte(m@, space.pml4, user_at(uva, j)),
        decreases n - i,
    {
        match space.translate(m, va) {
            None => {
                assert(crate::mem::vmm::translate_spec(m@, space.pml4, user_at(uva, i as int)) is None);
                return Err(());
            },
            Some(pa) => {
                v.push(m.ram.byte(pa));
            },
        }
        va = va.wrapping_add(1);
        i = i + 1;
    }
    assert(v@ =~= user_bytes(m@, space.pml4, uva, n as int));
    Ok(v)
}

/// Memory after the bytes of `data` from `i` on were written at `uva`, and
/// whether all of them were: the write stops at the first address that is not
/// mapped.
pub open spec fn written(m: MemV, pml4: u64, uva: u64, data: Seq<u8>, i: int) -> (MemV, bool)
    decreases data.len() - i,
{
    if i < 0 || i >= data.len() {
        (m, true)
    } else {
        match crate::mem::vmm::translate_spec(m, pml4, user_at(uva, i)) {
            None => (m, false),
            Some(pa) => written(
                MemV { ram: crate::mem::phys::with_byte_at(m.ram, pa, data[i]), ..m },
                pml4,
                uva,
                data,
                i + 1,
            ),
        }
    }
}

/// Copies `src` into user memory.
pub fn write_user_bytes(m: &mut Memory, space: &AddressSpace, uva: u64, src: &[u8]) -> (r: Result<(), ()>)
    requires
        old(m).wf(),
    ensures
        final(m).wf(),
        (final(m)@, r is Ok) == written(old(m)@, space.pml4, uva, src@, 0),
{
    let n: usize = src.len();
    let mut va: u64 = uva;
    let mut i: usize = 0;
    while i < n
        invariant
            n == src@.len(),
            i <= n,
            m.wf(),
            va == user_at(uva, i as int),
            written(m@, space.pml4, uva, src@, i as int) == written(old(m)@, space.pml4, uva, src@, 0),
        decreases n - i,
    {
        match space.translate(m, va) {
            None => {
                return Err(());
            },
            Some(pa) => {
                m.ram.set_byte(pa, src[i]);
            },
        }
        va = va.wrapping_add(1);
        i = i + 1;
    }
    Ok(())
}

// ---------------------------------------------------------------------------
// What was written is read back
// ---------------------------------------------------------------------------
/// The frames of the tables that the walk to an address reads.
pub open spec fn walk_frames(m: MemV, pml4: u64, va: u64) -> Seq<u64> {
    let t3 = crate::mem::vmm::frame_of(m.entry(pml4, crate::mem::vmm::index_at(va, 39)));
    let t2 = crate::mem::vmm::frame_of(m.entry(t3, crate::mem::vmm::index_at(va, 30)));
    let t1 = crate::mem::vmm::frame_of(m.entry(t2, crate::mem::vmm::index_at(va, 21)));
    seq![pml4 / 4096, t3 / 4096, t2 / 4096, t1 / 4096]
}

/// Where the byte `i` after `uva` is.
pub open spec fn place(m: MemV, pml4: u64, uva: u64, i: int) -> u64 {
    crate::mem::vmm::translate_spec(m, pml4, user_at(uva, i))->Some_0
}

/// A range of a program's own memory: it is mapped, no two of its bytes are
/// the same, and none of it is in the tables that lead to it.
pub open spec fn own_range(m: MemV, pml4: u64, uva: u64, n: int) -> bool {
    &&& readable(m, pml4, uva, n)
    &&& forall|i: int, j: int|
        0 <= i < n && 0 <= j < n && i != j ==> #[trigger] place(m, pml4, uva, i) != #[trigger] place(m, pml4, uva, j)
    &&& forall|i: int, j: int, k: int|
        #![trigger place(m, pml4, uva, i), walk_frames(m, pml4, user_at(uva, j))[k]]
        0 <= i < n && 0 <= j < n && 0 <= k < 4 ==> place(m, pml4, uva, i) / 4096 != walk_frames(
            m,
            pml4,
            user_at(uva, j),
        )[k]
}

/// Memory that differs in a frame that a walk does not read translates the
/// same.
proof fn lemma_walk_kept(m: MemV, pml4: u64, va: u64, pa: u64, b: u8)
    requires
        forall|k: int| 0 <= k < 4 ==> pa / 4096 != #[trigger] walk_frames(m, pml4, va)[k],
    ensures
        ({
            let n = MemV { ram: crate::mem::phys::with_byte_at(m.ram, pa, b), ..m };
            &&& crate::mem::vmm::translate_spec(n, pml4, va) == crate::mem::vmm::translate_spec(m, pml4, va)
            &&& walk_frames(n, pml4, va) == walk_frames(m, pml4, va)
        }),
{
    let n = MemV { ram: crate::mem::phys::with_byte_at(m.ram, pa, b), ..m };
    let w = walk_frames(m, pml4, va);
    assert(w[0] != pa / 4096 && w[1] != pa / 4096 && w[2] != pa / 4096 && w[3] != pa / 4096);
    let t3 = crate::mem::vmm::frame_of(m.entry(pml4, crate::mem::vmm::index_at(va, 39)));
    let t2 = crate::mem::vmm::frame_of(m.entry(t3, crate::mem::vmm::index_at(va, 30)));
    let t1 = crate::mem::vmm::frame_of(m.entry(t2, crate::mem::vmm::index_at(va, 21)));
    assert(n.entry(pml4, crate::mem::vmm::index_at(va, 39)) == m.entry(pml4, crate::mem::vmm::index_at(va, 39)));
    assert(n.entry(t3, crate::mem::vmm::index_at(va, 30)) == m.entry(t3, crate::mem::vmm::index_at(va, 30)));
    assert(n.entry(t2, crate::mem::vmm::index_at(va, 21)) == m.entry(t2, crate::mem::vmm::index_at(va, 21)));
    assert(n.entry(t1, crate::mem::vmm::index_at(va, 12)) == m.entry(t1, crate::mem::vmm::index_at(va, 12)));
}

/// A byte written into a range of a program's own memory changes that byte of
/// the range and nothing of how the range is reached.
pub proof fn lemma_byte_step(m: MemV, pml4: u64, uva: u64, n: int, i: int, b: u8)
    requires
        crate::mem::vmm_laws::sound(m),
        own_range(m, pml4, uva, n),
        0 <= i < n,
    ensures
        ({
            let m1 = MemV { ram: crate::mem::phys::with_byte_at(m.ram, place(m, pml4, uva, i), b), ..m };
            &&& crate::mem::vmm_laws::sound(m1)
            &&& own_range(m1, pml4, uva, n)
            &&& forall|j: int|
                0 <= j < n ==> crate::mem::vmm::translate_spec(m1, pml4, #[trigger] user_at(uva, j))
                    == crate::mem::vmm::translate_spec(m, pml4, user_at(uva, j))
            &&& forall|j: int|
                0 <= j < n ==> #[trigger] user_byte(m1, pml4, user_at(uva, j)) == if j == i {
                    b
                } else {
                    user_byte(m, pml4, user_at(uva, j))
                }
        }),
{
    let pa = place(m, pml4, uva, i);
    let m1 = MemV { ram: crate::mem::phys::with_byte_at(m.ram, pa, b), ..m };
    assert(crate::mem::vmm::translate_spec(m, pml4, user_at(uva, i)) == Some(pa));
    assert forall|j: int| 0 <= j < n implies crate::mem::vmm::translate_spec(m1, pml4, #[trigger] user_at(uva, j))
        == crate::mem::vmm::translate_spec(m, pml4, user_at(uva, j)) && walk_frames(m1, pml4, user_at(uva, j))
        == walk_frames(m, pml4, user_at(uva, j)) by {
        assert forall|k: int| 0 <= k < 4 implies pa / 4096 != #[trigger] walk_frames(m, pml4, user_at(uva, j))[k] by {
            assert(place(m, pml4, uva, i) / 4096 != walk_frames(m, pml4, user_at(uva, j))[k]);
        }
        lemma_walk_kept(m, pml4, user_at(uva, j), pa, b);
    }
    assert(crate::mem::vmm_laws::sound(m1)) by {
        assert forall|f: u64| m1.ram.dom().contains(f) implies (#[trigger] m1.ram[f]).len() == 512 by {
            if f != pa / 4096 {
                assert(m.ram.dom().contains(f));
            } else {
                assert(crate::mem::phys::frame_at(m.ram, f).len() == 512);
            }
        }
    }
    assert(own_range(m1, pml4, uva, n)) by {
        assert forall|a: int, c: int| 0 <= a < n && 0 <= c < n && a != c implies #[trigger] place(m1, pml4, uva, a)
            != #[trigger] place(m1, pml4, uva, c) by {
            assert(place(m1, pml4, uva, a) == place(m, pml4, uva, a));
            assert(place(m1, pml4, uva, c) == place(m, pml4, uva, c));
        }
        assert forall|a: int, c: int, k: int|
            #![trigger place(m1, pml4, uva, a), walk_frames(m1, pml4, user_at(uva, c))[k]]
            0 <= a < n && 0 <= c < n && 0 <= k < 4 implies place(m1, pml4, uva, a) / 4096 != walk_frames(
            m1,
            pml4,
            user_at(uva, c),
        )[k] by {
            assert(place(m1, pml4, uva, a) == place(m, pml4, uva, a));
            assert(place(m, pml4, uva, a) / 4096 != walk_frames(m, pml4, user_at(uva, c))[k]);
        }
    }
    assert forall|j: int| 0 <= j < n implies #[trigger] user_byte(m1, pml4, user_at(uva, j)) == if j == i {
        b
    } else {
        user_byte(m, pml4, user_at(uva, j))
    } by {
        crate::mem::phys::lemma_byte_write(m.ram, pa, b, place(m, pml4, uva, j));
        if j != i {
            assert(place(m, pml4, uva, j) != place(m, pml4, uva, i));
        }
        assert(place(m1, pml4, uva, j) == place(m, pml4, uva, j));
    }
}

proof fn lemma_written_from(m: MemV, pml4: u64, uva: u64, data: Seq<u8>, i: int)
    requires
        crate::mem::vmm_laws::sound(m),
        0 <= i <= data.len(),
        own_range(m, pml4, uva, data.len() as int),
    ensures
        ({
            let (n, ok) = written(m, pml4, uva, data, i);
            &&& ok
            &&& forall|j: int|
                0 <= j < data.len() ==> crate::mem::vmm::translate_spec(n, pml4, #[trigger] user_at(uva, j))
                    == crate::mem::vmm::translate_spec(m, pml4, user_at(uva, j))
            &&& forall|j: int|
                0 <= j < data.len() ==> #[trigger] user_byte(n, pml4, user_at(uva, j)) == if j >= i {
                    data[j]
                } else {
                    user_byte(m, pml4, user_at(uva, j))
                }
        }),
    decreases data.len() - i,
{
    if i < data.len() {
        let pa = place(m, pml4, uva, i);
        let m1 = MemV { ram: crate::mem::phys::with_byte_at(m.ram, pa, data[i]), ..m };
        assert(crate::mem::vmm::translate_spec(m, pml4, user_at(uva, i)) == Some(pa));
        lemma_byte_step(m, pml4, uva, data.len() as int, i, data[i]);
        lemma_written_from(m1, pml4, uva, data, i + 1);
    }
}

/// Bytes written into a part of a range of a program's own memory change that
/// part and no other.
pub proof fn lemma_written_inside(m: MemV, pml4: u64, lo: u64, n: int, off: int, data: Seq<u8>, i: int)
    requires
        crate::mem::vmm_laws::sound(m),
        own_range(m, pml4, lo, n),
        lo + n <= 0x1_0000_0000_0000_0000,
        0 <= off,
        off + data.len() <= n,
        0 <= i <= data.len(),
    ensures
        ({
            let (w, ok) = written(m, pml4, (lo + off) as u64, data, i);
            &&& ok
            &&& crate::mem::vmm_laws::sound(w)
            &&& own_range(w, pml4, lo, n)
            &&& forall|j: int|
                0 <= j < n ==> #[trigger] user_byte(w, pml4, user_at(lo, j)) == if off + i <= j < off + data.len() {
                    data[j - off]
                } else {
                    user_byte(m, pml4, user_at(lo, j))
                }
        }),
    decreases data.len() - i,
{
    if i < data.len() {
        assert(user_at((lo + off) as u64, i) == user_at(lo, off + i));
        let pa = place(m, pml4, lo, off + i);
        let m1 = MemV { ram: crate::mem::phys::with_byte_at(m.ram, pa, data[i]), ..m };
        assert(crate::mem::vmm::translate_spec(m, pml4, user_at(lo, off + i)) == Some(pa));
        lemma_byte_step(m, pml4, lo, n, off + i, data[i]);
        lemma_written_inside(m1, pml4, lo, n, off, data, i + 1);
    }
}

/// Bytes that were written into a range of a program's own memory are read
/// back from it.
pub proof fn law_written_bytes_read_back(m: MemV, pml4: u64, uva: u64, data: Seq<u8>)
    requires
        crate::mem::vmm_laws::sound(m),
        own_range(m, pml4, uva, data.len() as int),
    ensures
        ({
            let (n, ok) = written(m, pml4, uva, data, 0);
            ok && readable(n, pml4, uva, data.len() as int) && user_bytes(n, pml4, uva, data.len() as int) == data
        }),
{
    lemma_written_from(m, pml4, uva, data, 0);
    let n = written(m, pml4, uva, data, 0).0;
    assert(user_bytes(n, pml4, uva, data.len() as int) =~= data);
}

} // verus!
