//! What a program may rely on when it reads and writes a file through its
//! descriptor.

use vstd::prelude::*;

use crate::fs::dir::EntV;
use crate::fs::fat32::FatV;
use crate::fs::sysfile::FileV;
use crate::mem::vmm::MemV;

verus! {

/// The file behind a descriptor.
pub open spec fn opened(t: Seq<Option<FileV>>, fd: u64) -> bool {
    fd < 16 && t.len() == 16 && t[fd as int] is Some
}

/// How many bytes a call may move: at most 8 KiB of what it asks for.
pub open spec fn asked(len: u64) -> int {
    if len < 8192 {
        len as int
    } else {
        8192
    }
}

/// A read that succeeds moves the cursor by exactly what it returns, and
/// changes nothing else of any file; one that fails moves nothing.
pub proof fn law_read_moves_by_what_it_returns(t: Seq<Option<FileV>>, m: MemV, cr3: u64, fd: u64, va: u64, len: u64)
    requires
        opened(t, fd),
        t[fd as int]->Some_0.wf(),
    ensures
        ({
            let f = t[fd as int]->Some_0;
            let (t1, m1, n) = crate::fs::sysfile::read_spec(t, m, cr3, fd, va, len);
            &&& n >= 0 ==> t1 == t.update(fd as int, Some(FileV { pos: f.pos + n, ..f }))
            &&& n < 0 ==> n == -1 && t1 == t
            &&& n <= asked(len)
            &&& f.pos <= f.buf.len() ==> f.pos + n <= f.buf.len()
        }),
{
    let f = t[fd as int]->Some_0;
    assert(FileV { pos: f.pos + 0, ..f } == f);
    assert(t =~= t.update(fd as int, Some(FileV { pos: f.pos + 0, ..f })));
}

/// A read hands out the bytes of the file from the cursor on: as many as were
/// asked for, as a call moves, and as are left.
pub proof fn law_read_gives_the_bytes_at_the_cursor(
    t: Seq<Option<FileV>>,
    m: MemV,
    cr3: u64,
    fd: u64,
    va: u64,
    len: u64,
)
    requires
        opened(t, fd),
        t[fd as int]->Some_0.wf(),
        crate::mem::vmm_laws::sound(m),
        crate::user::uaccess::own_range(m, crate::mem::vmm::frame_of(cr3), va, asked(len)),
        va + asked(len) <= 0x1_0000_0000_0000_0000,
    ensures
        ({
            let f = t[fd as int]->Some_0;
            let (t1, m1, n) = crate::fs::sysfile::read_spec(t, m, cr3, fd, va, len);
            &&& f.pos >= f.buf.len() ==> n == 0
            &&& f.pos < f.buf.len() && asked(len) <= f.buf.len() - f.pos ==> n == asked(len)
            &&& f.pos < f.buf.len() && asked(len) > f.buf.len() - f.pos ==> n == f.buf.len() - f.pos
            &&& forall|i: int|
                0 <= i < n ==> #[trigger] crate::user::uaccess::user_byte(
                    m1,
                    crate::mem::vmm::frame_of(cr3),
                    crate::user::uaccess::user_at(va, i),
                ) == f.buf[f.pos + i]
            &&& forall|i: int|
                n <= i < asked(len) ==> #[trigger] crate::user::uaccess::user_byte(
                    m1,
                    crate::mem::vmm::frame_of(cr3),
                    crate::user::uaccess::user_at(va, i),
                ) == crate::user::uaccess::user_byte(
                    m,
                    crate::mem::vmm::frame_of(cr3),
                    crate::user::uaccess::user_at(va, i),
                )
            &&& crate::mem::vmm_laws::sound(m1)
            &&& crate::user::uaccess::own_range(m1, crate::mem::vmm::frame_of(cr3), va, asked(len))
        }),
{
    let f = t[fd as int]->Some_0;
    let d = crate::fs::sysfile::ahead(f, crate::fs::sysfile::transfer(len));
    crate::user::uaccess::lemma_written_inside(m, crate::mem::vmm::frame_of(cr3), va, asked(len), 0, d, 0);
}

/// Two reads in a row are one: `a` bytes and then `b` bytes into the memory
/// right behind them leave the same cursor and the same bytes as a read of
/// `a + b`.
#[verifier::spinoff_prover]
pub proof fn law_two_reads_are_one(
    t: Seq<Option<FileV>>,
    m: MemV,
    cr3: u64,
    fd: u64,
    va: u64,
    a: u64,
    b: u64,
)
    requires
        opened(t, fd),
        t[fd as int]->Some_0.wf(),
        crate::mem::vmm_laws::sound(m),
        0 < a,
        0 < b,
        a + b <= 8192,
        crate::user::uaccess::own_range(m, crate::mem::vmm::frame_of(cr3), va, a + b),
        va + a + b < 0x1_0000_0000_0000_0000,
    ensures
        ({
            let pml4 = crate::mem::vmm::frame_of(cr3);
            let (t1, m1, n1) = crate::fs::sysfile::read_spec(t, m, cr3, fd, va, a);
            let (t2, m2, n2) = crate::fs::sysfile::read_spec(t1, m1, cr3, fd, (va + n1) as u64, b);
            let (t3, m3, n3) = crate::fs::sysfile::read_spec(t, m, cr3, fd, va, (a + b) as u64);
            &&& n1 >= 0 && n2 >= 0 && n1 + n2 == n3
            &&& t2 == t3
            &&& forall|i: int|
                0 <= i < n3 ==> #[trigger] crate::user::uaccess::user_byte(
                    m2,
                    pml4,
                    crate::user::uaccess::user_at(va, i),
                ) == crate::user::uaccess::user_byte(m3, pml4, crate::user::uaccess::user_at(va, i))
        }),
{
    let pml4 = crate::mem::vmm::frame_of(cr3);
    let f = t[fd as int]->Some_0;
    let all = a + b;
    let d1 = crate::fs::sysfile::ahead(f, a as int);
    let d3 = crate::fs::sysfile::ahead(f, all);
    crate::user::uaccess::lemma_written_inside(m, pml4, va, all, 0, d1, 0);
    crate::user::uaccess::lemma_written_inside(m, pml4, va, all, 0, d3, 0);
    let (t1, m1, n1) = crate::fs::sysfile::read_spec(t, m, cr3, fd, va, a);
    assert(n1 == d1.len());
    let g = t1[fd as int]->Some_0;
    let d2 = crate::fs::sysfile::ahead(g, b as int);
    assert(d1 + d2 =~= d3);
    crate::user::uaccess::lemma_written_inside(m1, pml4, va, all, n1, d2, 0);
    let (t2, m2, n2) = crate::fs::sysfile::read_spec(t1, m1, cr3, fd, (va + n1) as u64, b);
    let (t3, m3, n3) = crate::fs::sysfile::read_spec(t, m, cr3, fd, va, (a + b) as u64);
    assert(t2 =~= t3);
    assert forall|i: int| 0 <= i < n3 implies #[trigger] crate::user::uaccess::user_byte(
        m2,
        pml4,
        crate::user::uaccess::user_at(va, i),
    ) == crate::user::uaccess::user_byte(m3, pml4, crate::user::uaccess::user_at(va, i)) by {
        assert(crate::user::uaccess::user_byte(m3, pml4, crate::user::uaccess::user_at(va, i)) == d3[i]);
        assert(crate::user::uaccess::user_byte(m1, pml4, crate::user::uaccess::user_at(va, i)) == if i < n1 {
            d1[i]
        } else {
            crate::user::uaccess::user_byte(m, pml4, crate::user::uaccess::user_at(va, i))
        });
    }
}

/// A write puts the program's bytes at the cursor and moves the cursor behind
/// them: the file grows as far as it must, with zeroes where nothing was
/// written, and every other byte stays. A file opened for reading refuses it,
/// and so does one that would grow over 256 KiB.
#[verifier::spinoff_prover]
pub proof fn law_write_puts_the_bytes_at_the_cursor(
    t: Seq<Option<FileV>>,
    m: MemV,
    cr3: u64,
    fd: u64,
    va: u64,
    len: u64,
)
    requires
        opened(t, fd),
        t[fd as int]->Some_0.wf(),
        crate::user::uaccess::readable(m, crate::mem::vmm::frame_of(cr3), va, asked(len)),
        len > 0,
    ensures
        ({
            let f = t[fd as int]->Some_0;
            let n = asked(len);
            let end = f.pos + n;
            let (t1, r) = crate::fs::sysfile::write_spec(t, m, cr3, fd, va, len);
            if !f.writable || end > 0x4_0000 {
                t1 == t && r == -1
            } else {
                let g = t1[fd as int]->Some_0;
                &&& r == n
                &&& t1 == t.update(fd as int, t1[fd as int])
                &&& t1[fd as int] is Some
                &&& g.pos == end
                &&& g.dirty
                &&& g.writable
                &&& g.name == f.name
                &&& g.owner == f.owner
                &&& g.buf.len() >= f.buf.len()
                &&& g.buf.len() >= end
                &&& g.buf.len() == f.buf.len() || g.buf.len() == end
                &&& forall|i: int|
                    0 <= i < n ==> g.buf[f.pos + i] == #[trigger] crate::user::uaccess::user_byte(
                        m,
                        crate::mem::vmm::frame_of(cr3),
                        crate::user::uaccess::user_at(va, i),
                    )
                &&& forall|i: int|
                    0 <= i < f.buf.len() && !(f.pos <= i < end) ==> #[trigger] g.buf[i] == f.buf[i]
                &&& forall|i: int| f.buf.len() <= i < f.pos ==> #[trigger] g.buf[i] == 0
            }
        }),
{
    let f = t[fd as int]->Some_0;
    let d = crate::user::uaccess::user_bytes(m, crate::mem::vmm::frame_of(cr3), va, asked(len));
    let t1 = crate::fs::sysfile::write_spec(t, m, cr3, fd, va, len).0;
    if f.writable && f.pos + asked(len) <= 0x4_0000 {
        let g = t1[fd as int]->Some_0;
        assert forall|i: int| 0 <= i < asked(len) implies g.buf[f.pos + i] == #[trigger] crate::user::uaccess::user_byte(
            m,
            crate::mem::vmm::frame_of(cr3),
            crate::user::uaccess::user_at(va, i),
        ) by {
            assert(d[i] == crate::user::uaccess::user_byte(
                m,
                crate::mem::vmm::frame_of(cr3),
                crate::user::uaccess::user_at(va, i),
            ));
        }
    }
}

/// Seeking sets the cursor from the start (0), from the cursor (1) or from the
/// end (2) and returns where it is now; it refuses to leave the range of a
/// file, and touches no byte.
pub proof fn law_seek(t: Seq<Option<FileV>>, fd: u64, off: i64, whence: u64)
    requires
        opened(t, fd),
    ensures
        ({
            let f = t[fd as int]->Some_0;
            let (t1, r) = crate::fs::sysfile::seek_spec(t, fd, off, whence);
            let p: int = if whence == 0 {
                off as int
            } else if whence == 1 {
                f.pos + off
            } else {
                f.buf.len() + off
            };
            if whence <= 2 && 0 <= p <= 0x4_0000 {
                r == p && t1 == t.update(fd as int, Some(FileV { pos: p, ..f }))
            } else {
                r == -1 && t1 == t
            }
        }),
{
}

/// What was written is what is read: after a write, a seek back to where it
/// started and a read of as many bytes give the same bytes in other memory of
/// the program.
#[verifier::spinoff_prover]
pub proof fn law_write_seek_read(
    t: Seq<Option<FileV>>,
    m: MemV,
    cr3: u64,
    fd: u64,
    from: u64,
    to: u64,
    len: u64,
)
    requires
        opened(t, fd),
        t[fd as int]->Some_0.wf(),
        t[fd as int]->Some_0.writable,
        0 < len <= 8192,
        t[fd as int]->Some_0.pos + len <= 0x4_0000,
        crate::mem::vmm_laws::sound(m),
        crate::user::uaccess::readable(m, crate::mem::vmm::frame_of(cr3), from, len as int),
        crate::user::uaccess::own_range(m, crate::mem::vmm::frame_of(cr3), to, len as int),
        to + len <= 0x1_0000_0000_0000_0000,
    ensures
        ({
            let pml4 = crate::mem::vmm::frame_of(cr3);
            let start = t[fd as int]->Some_0.pos;
            let (t1, n1) = crate::fs::sysfile::write_spec(t, m, cr3, fd, from, len);
            let (t2, p) = crate::fs::sysfile::seek_spec(t1, fd, start as i64, 0);
            let (t3, m3, n3) = crate::fs::sysfile::read_spec(t2, m, cr3, fd, to, len);
            &&& n1 == len && p == start && n3 == len
            &&& forall|i: int|
                0 <= i < len ==> #[trigger] crate::user::uaccess::user_byte(
                    m3,
                    pml4,
                    crate::user::uaccess::user_at(to, i),
                ) == crate::user::uaccess::user_byte(m, pml4, crate::user::uaccess::user_at(from, i))
        }),
{
    let start = t[fd as int]->Some_0.pos;
    law_write_puts_the_bytes_at_the_cursor(t, m, cr3, fd, from, len);
    let (t1, n1) = crate::fs::sysfile::write_spec(t, m, cr3, fd, from, len);
    let g = t1[fd as int]->Some_0;
    assert(asked(len) == len);
    law_seek(t1, fd, start as i64, 0);
    let (t2, p) = crate::fs::sysfile::seek_spec(t1, fd, start as i64, 0);
    law_read_gives_the_bytes_at_the_cursor(t2, m, cr3, fd, to, len);
    let pml4 = crate::mem::vmm::frame_of(cr3);
    let m3 = crate::fs::sysfile::read_spec(t2, m, cr3, fd, to, len).1;
    assert forall|i: int| 0 <= i < len implies #[trigger] crate::user::uaccess::user_byte(
        m3,
        pml4,
        crate::user::uaccess::user_at(to, i),
    ) == crate::user::uaccess::user_byte(m, pml4, crate::user::uaccess::user_at(from, i)) by {
        assert(g.buf[start + i] == crate::user::uaccess::user_byte(m, pml4, crate::user::uaccess::user_at(from, i)));
    }
}

/// Opening takes the first free descriptor, with a file of the caller's under
/// that name, its cursor at the start or, for appending (4), at the end. It
/// holds what the disk has, but creating (1) without reading (2) or appending
/// starts empty, to be written out even if nothing is written to it. A file
/// that is not there is made by any of the flags but reading alone, and only a
/// file opened with no flag is read-only.
pub proof fn law_open(
    t: Seq<Option<FileV>>,
    pid: u64,
    name: Seq<char>,
    flags: u64,
    there: bool,
    got: Option<Seq<u8>>,
    i: int,
)
    requires
        t.len() == 16,
        flags <= 7,
        0 <= i < 16,
        t[i] is None,
        forall|j: int| 0 <= j < i ==> #[trigger] t[j] is Some,
        got matches Some(b) ==> b.len() <= 0x4_0000,
    ensures
        ({
            let (t1, fd) = crate::fs::sysfile::open_with(t, pid, name, flags, there, got);
            let f = t1[i]->Some_0;
            &&& fd >= 0 ==> {
                &&& fd == i
                &&& t1 == t.update(i, t1[i])
                &&& t1[i] is Some
                &&& f.owner == pid
                &&& f.name == name
                &&& f.writable == (flags != 0)
                &&& f.pos == if flags >= 4 {
                    f.buf.len() as int
                } else {
                    0
                }
                &&& flags == 1 ==> f.buf.len() == 0 && f.dirty
                &&& flags != 1 && got is Some ==> f.buf == got->Some_0 && !f.dirty
                &&& flags != 1 && got is None ==> f.buf.len() == 0
                &&& !there && got is None ==> f.dirty
            }
            &&& fd < 0 ==> fd == -1 && t1 == t
            &&& flags == 0 && !there ==> fd < 0
            &&& flags == 0 && there ==> (fd >= 0 <==> got is Some)
            &&& flags % 2 == 1 || (flags != 0 && got is Some) ==> fd >= 0
            &&& flags == 2 && got is None ==> fd < 0
            &&& (flags == 4 || flags == 6) && got is None ==> (fd >= 0 <==> !there)
        }),
{
    let q = crate::fs::sysfile::slot_free();
    assert(q(t[i]));
    assert forall|j: int| 0 <= j < i implies !q(#[trigger] t[j]) by {
        assert(t[j] is Some);
    }
    crate::seqs::lemma_first_is(t, q, 0, i);
    assert((flags & 1 != 0) == (flags % 2 == 1) && (flags & 4 != 0) == (flags >= 4) && (flags & (2u64 | 4) == 0) == (flags
        < 2) && (flags & ((1u64 | 2) | 4) == 0) == (flags == 0)) by (bit_vector)
        requires
            flags <= 7,
    ;
}

/// A full table opens nothing.
pub proof fn law_full_table_opens_nothing(
    t: Seq<Option<FileV>>,
    pid: u64,
    name: Seq<char>,
    flags: u64,
    there: bool,
    got: Option<Seq<u8>>,
)
    requires
        forall|j: int| 0 <= j < t.len() ==> #[trigger] t[j] is Some,
    ensures
        crate::fs::sysfile::open_with(t, pid, name, flags, there, got) == (t, -1int),
{
    crate::seqs::lemma_first_none(t, crate::fs::sysfile::slot_free(), 0);
}

/// Closing frees the descriptor of its owner and of nobody else; a file that
/// was not written to leaves the disk alone.
pub proof fn law_close(t: Seq<Option<FileV>>, disk: Option<FatV>, pid: u64, fd: u64)
    requires
        t.len() == 16,
    ensures
        ({
            let (t1, d1, r) = crate::fs::sysfile::close_spec(t, disk, pid, fd);
            if fd < 16 && (t[fd as int] matches Some(f) && f.owner == pid) {
                &&& r == 0
                &&& t1 == t.update(fd as int, None)
                &&& !t[fd as int]->Some_0.dirty ==> d1 == disk
                &&& d1 is Some == disk is Some
            } else {
                r == -1 && t1 == t && d1 == disk
            }
        }),
{
}

/// One entry as a listing writes it: whether it is a directory, the length of
/// its name, the name, and its size, least significant byte first.
pub open spec fn row(e: EntV) -> Seq<u8> {
    let name = vstd::utf8::encode_utf8(e.name);
    seq![
        if e.is_dir {
            1u8
        } else {
            0u8
        },
        name.len() as u8,
    ] + name + seq![
        (e.size % 256) as u8,
        (e.size / 256 % 256) as u8,
        (e.size / 0x1_0000 % 256) as u8,
        (e.size / 0x100_0000) as u8,
    ]
}

/// The first `k` entries, one after the other.
pub open spec fn rows(l: Seq<EntV>, k: int) -> Seq<u8>
    decreases k,
{
    if k <= 0 {
        Seq::empty()
    } else {
        rows(l, k - 1) + row(l[k - 1])
    }
}

proof fn lemma_packed(l: Seq<EntV>, i: int, n: int)
    requires
        0 <= i <= n <= l.len(),
        forall|j: int| 0 <= j < n ==> vstd::utf8::encode_utf8((#[trigger] l[j]).name).len() <= 255,
    ensures
        ({
            let (b, count) = crate::fs::sysfile::pack(l, i, n, rows(l, i), i);
            &&& i <= count <= n
            &&& b == rows(l, count)
            &&& count < n ==> b.len() + row(l[count]).len() > 8192
        }),
    decreases n - i,
{
    if i < n {
        assert(vstd::utf8::encode_utf8(l[i].name).len() <= 255);
        assert(crate::fs::sysfile::record(l[i]) =~= row(l[i]));
        assert(rows(l, i + 1) == rows(l, i) + row(l[i]));
        if rows(l, i).len() + row(l[i]).len() <= 8192 {
            lemma_packed(l, i + 1, n);
        }
    }
}

/// A listing hands out the entries in the order of the directory, as many as
/// were asked for, as there are, as 32, and as fit in 8 KiB, and returns how
/// many these are.
pub proof fn law_listing_hands_out_the_entries(m: MemV, cr3: u64, va: u64, max: u64, l: Seq<EntV>)
    requires
        forall|j: int| 0 <= j < l.len() ==> vstd::utf8::encode_utf8((#[trigger] l[j]).name).len() <= 255,
        crate::fs::sysfile::list_with(m, cr3, va, max, l).1 >= 0,
    ensures
        ({
            let (m1, count) = crate::fs::sysfile::list_with(m, cr3, va, max, l);
            &&& count <= l.len() && count <= max && count <= 32
            &&& count == l.len() || count == max || count == 32 || rows(l, count).len() + row(l[count]).len() > 8192
            &&& crate::mem::vmm_laws::sound(m) && crate::user::uaccess::own_range(
                m,
                crate::mem::vmm::frame_of(cr3),
                va,
                rows(l, count).len() as int,
            ) ==> crate::user::uaccess::user_bytes(
                m1,
                crate::mem::vmm::frame_of(cr3),
                va,
                rows(l, count).len() as int,
            ) == rows(l, count)
        }),
{
    let n = crate::fs::sysfile::listed(l.len(), max);
    lemma_packed(l, 0, n);
    let count = crate::fs::sysfile::list_with(m, cr3, va, max, l).1;
    assert(rows(l, 0) =~= Seq::<u8>::empty());
    if crate::mem::vmm_laws::sound(m) && crate::user::uaccess::own_range(
        m,
        crate::mem::vmm::frame_of(cr3),
        va,
        rows(l, count).len() as int,
    ) {
        crate::user::uaccess::law_written_bytes_read_back(m, crate::mem::vmm::frame_of(cr3), va, rows(l, count));
    }
}

} // verus!
