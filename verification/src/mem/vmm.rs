//! Virtual memory: 4-level page tables (PML4, PML3, PML2, PML1) in physical
//! memory. A user address space shares the kernel's upper-half PML4 entries,
//! so the kernel survives a switch between spaces; its lower half is its own.
//!
//! A fork clones the lower half copy-on-write: every frame is shared, writable
//! pages become read-only in both spaces and carry a software mark, and the
//! first write to one takes a fault that gives the writer a copy of its own.

use vstd::prelude::*;
use vstd::string::StringExecFns;

use crate::console::{nothing, say, Out, OutV};
use crate::mem::frames::{self, FrameTable, FramesV};
use crate::mem::phys::PhysMem;
use crate::text::push_hexp;

verus! {

// ---------------------------------------------------------------------------
// Entries
// ---------------------------------------------------------------------------
pub const PRESENT: u64 = 1;

pub const WRITABLE: u64 = 2;

pub const USER: u64 = 4;

pub const NO_CACHE: u64 = 0x10;

/// The page-size bit: 1 GiB in a PML3, 2 MiB in a PML2.
pub const HUGE: u64 = 0x80;

pub const NO_EXECUTE: u64 = 0x8000_0000_0000_0000;

/// Software mark of a page that is shared copy-on-write.
pub const PTE_COW: u64 = 0x200;

pub const PTE_FRAME_MASK: u64 = 0x000F_FFFF_FFFF_F000;

pub const PAGE: u64 = 4096;

pub const KERNEL_HALF_BASE: u64 = 0xFFFF_8000_0000_0000;

pub const USER_IMG_BASE: u64 = 0x0040_0000;

pub const USER_STACK_TOP: u64 = 0x0000_7FFF_FFFF_F000;

pub const USER_STACK_PAGES: u64 = 16;

/// The window of the local APIC in the kernel half.
pub const LAPIC_VIRT: u64 = 0xFFFF_FFFF_FEE0_0000;

/// Flags of a user-half table entry: user code must reach the leaf, and the
/// kernel must be able to patch it.
pub const USER_DIR: u64 = 7;

/// Flags of a kernel-half table entry.
pub const KERNEL_DIR: u64 = 0x8000_0000_0000_0003;

pub open spec fn present(e: u64) -> bool {
    e & PRESENT != 0
}

pub open spec fn is_huge(e: u64) -> bool {
    e & HUGE != 0
}

/// The frame that an entry points at.
pub open spec fn frame_of(e: u64) -> u64 {
    e & PTE_FRAME_MASK
}

/// The flags of an entry.
pub open spec fn flags_of(e: u64) -> u64 {
    e & !PTE_FRAME_MASK
}

/// The table index that the address has at the level with shift `s`.
pub open spec fn index_at(virt: u64, s: u64) -> int {
    ((virt >> s) & 0x1FF) as int
}

fn index_of(virt: u64, s: u64) -> (i: usize)
    requires
        s < 64,
    ensures
        i == index_at(virt, s),
        i < 512,
{
    let x: u64 = (virt >> s) & 0x1FF;
    assert(x < 512) by (bit_vector)
        requires
            x == (virt >> s) & 0x1FF,
    ;
    x as usize
}

pub open spec fn down(v: u64) -> int {
    v - v % 4096
}

/// `v` rounded down to a page.
pub fn align_down(v: u64) -> (r: u64)
    ensures
        r == down(v),
{
    v - v % PAGE
}

pub open spec fn up(v: u64) -> int {
    if v % 4096 == 0 {
        v as int
    } else {
        v - v % 4096 + 4096
    }
}

/// `v` rounded up to a page.
pub fn align_up(v: u64) -> (r: u64)
    requires
        v + 4095 <= u64::MAX,
    ensures
        r == up(v),
{
    let w: u64 = v + (PAGE - 1);
    w - w % PAGE
}

// ---------------------------------------------------------------------------
// Memory
// ---------------------------------------------------------------------------
/// Physical memory, its allocator, and what the memory manager remembers.
pub struct Memory {
    pub ram: PhysMem,
    pub frames: FrameTable,
    /// The PML4 of the kernel.
    pub kernel: u64,
    /// Forks so far.
    pub forks: u64,
    /// Pages that the last fork marked copy-on-write.
    pub marked: u64,
    /// Copy-on-write faults resolved so far.
    pub faults: u64,
}

#[verifier::ext_equal]
pub struct MemV {
    pub ram: Map<u64, Seq<u64>>,
    pub frames: FramesV,
    pub kernel: u64,
    pub forks: u64,
    pub marked: u64,
    pub faults: u64,
}

impl Memory {
    pub open spec fn view(&self) -> MemV {
        MemV {
            ram: self.ram@,
            frames: self.frames@,
            kernel: self.kernel,
            forks: self.forks,
            marked: self.marked,
            faults: self.faults,
        }
    }

    pub open spec fn wf(&self) -> bool {
        self.ram.wf() && self.frames.wf()
    }

    /// Memory with every frame reserved and nothing written.
    pub fn new() -> (m: Memory)
        ensures
            m.wf(),
            m.ram@ == Map::<u64, Seq<u64>>::empty(),
            m@.kernel == 0,
            m@.forks == 0,
            m@.marked == 0,
            m@.faults == 0,
            m@.frames == (FramesV {
                taken: Seq::new(frames::MAX_FRAMES as nat, |i: int| true),
                refs: Seq::new(frames::MAX_FRAMES as nat, |i: int| 0u32),
                total: 0,
                used: 0,
                regions: 0,
                hint: 0,
            }),
    {
        Memory { ram: PhysMem::new(), frames: FrameTable::new(), kernel: 0, forks: 0, marked: 0, faults: 0 }
    }
}

impl MemV {
    /// Entry `i` of the table at `t`.
    pub open spec fn entry(self, t: u64, i: int) -> u64 {
        crate::mem::phys::word_at(self.ram, t, i)
    }

    pub open spec fn with_entry(self, t: u64, i: int, e: u64) -> MemV {
        MemV { ram: crate::mem::phys::with_word(self.ram, t, i, e), ..self }
    }
}

/// Forks, pages marked by the last fork, faults resolved.
pub fn cow_stats(m: &Memory) -> (r: (u64, u64, u64))
    ensures
        r == (m@.forks, m@.marked, m@.faults),
{
    (m.forks, m.marked, m.faults)
}

/// Remembers the kernel's PML4, from the value that CR3 had at boot.
pub fn init(m: &mut Memory, cr3: u64)
    ensures
        final(m)@ == (MemV { kernel: frame_of(cr3), ..old(m)@ }),
        final(m).wf() == old(m).wf(),
{
    m.kernel = cr3 & PTE_FRAME_MASK;
}

/// The kernel's PML4.
pub fn kernel_cr3(m: &Memory) -> (r: u64)
    ensures
        r == m@.kernel,
{
    m.kernel
}

/// A fresh table: an allocated frame, cleared.
pub open spec fn new_table_spec(m: MemV) -> (MemV, Option<u64>) {
    let (f, r) = crate::mem::frames::alloc_spec(m.frames);
    match r {
        None => (MemV { frames: f, ..m }, None),
        Some(t) => (MemV { frames: f, ram: crate::mem::phys::cleared(m.ram, t), ..m }, Some(t)),
    }
}

fn new_table(m: &mut Memory) -> (r: Option<u64>)
    requires
        old(m).wf(),
    ensures
        final(m).wf(),
        (final(m)@, r) == new_table_spec(old(m)@),
{
    match frames::alloc_frame(&mut m.frames) {
        None => None,
        Some(t) => {
            m.ram.clear(t);
            Some(t)
        },
    }
}

/// Descends through entry `i` of the table at `t`, putting a fresh table with
/// the flags `dir` there if nothing is present. Gives the entry.
pub open spec fn descend_spec(m: MemV, t: u64, i: int, dir: u64) -> (MemV, Option<u64>) {
    let e = m.entry(t, i);
    if present(e) {
        (m, Some(e))
    } else {
        let (m1, r) = new_table_spec(m);
        match r {
            None => (m1, None),
            Some(n) => (m1.with_entry(t, i, n | dir), Some(n | dir)),
        }
    }
}

fn descend(m: &mut Memory, t: u64, i: usize, dir: u64) -> (r: Option<u64>)
    requires
        old(m).wf(),
        i < 512,
    ensures
        final(m).wf(),
        (final(m)@, r) == descend_spec(old(m)@, t, i as int, dir),
{
    let e: u64 = m.ram.word(t, i);
    if e & PRESENT != 0 {
        return Some(e);
    }
    match new_table(m) {
        None => None,
        Some(n) => {
            m.ram.set_word(t, i, n | dir);
            Some(n | dir)
        },
    }
}

// ---------------------------------------------------------------------------
// Kernel mappings
// ---------------------------------------------------------------------------
pub open spec fn map_kernel_spec(m: MemV, virt: u64, phys: u64, flags: u64) -> (MemV, Result<(), Seq<char>>) {
    if virt % 4096 != 0 || phys % 4096 != 0 {
        (m, Err("map_kernel: addresses must be page-aligned"@))
    } else if virt < KERNEL_HALF_BASE {
        (m, Err("map_kernel: refusing to touch the user half"@))
    } else {
        let (m1, e4) = descend_spec(m, m.kernel, index_at(virt, 39), KERNEL_DIR);
        match e4 {
            None => (m1, Err("map_kernel: out of frames (pml3)"@)),
            Some(e4) => {
                let (m2, e3) = descend_spec(m1, frame_of(e4), index_at(virt, 30), KERNEL_DIR);
                match e3 {
                    None => (m2, Err("map_kernel: out of frames (pml2)"@)),
                    Some(e3) => if is_huge(e3) {
                        (m2, Err("map_kernel: huge page where a table was expected"@))
                    } else {
                        let (m3, e2) = descend_spec(m2, frame_of(e3), index_at(virt, 21), KERNEL_DIR);
                        match e2 {
                            None => (m3, Err("map_kernel: out of frames (pml1)"@)),
                            Some(e2) => if is_huge(e2) {
                                (m3, Err("map_kernel: huge page where a table was expected"@))
                            } else {
                                (m3.with_entry(frame_of(e2), index_at(virt, 12), phys | flags), Ok(()))
                            },
                        }
                    },
                }
            },
        }
    }
}

/// Maps one page into the kernel half, which every address space shares. The
/// page at `virt` must be dropped from the translation cache afterwards.
pub fn map_kernel_page(m: &mut Memory, virt: u64, phys: u64, flags: u64) -> (r: Result<(), &'static str>)
    requires
        old(m).wf(),
    ensures
        final(m).wf(),
        final(m)@ == map_kernel_spec(old(m)@, virt, phys, flags).0,
        crate::text::told(r, map_kernel_spec(old(m)@, virt, phys, flags).1),
{
    if virt % PAGE != 0 || phys % PAGE != 0 {
        return Err("map_kernel: addresses must be page-aligned");
    }
    if virt < KERNEL_HALF_BASE {
        return Err("map_kernel: refusing to touch the user half");
    }
    let pml4: u64 = m.kernel;
    let e4: u64 = match descend(m, pml4, index_of(virt, 39), KERNEL_DIR) {
        None => {
            return Err("map_kernel: out of frames (pml3)");
        },
        Some(e) => e,
    };
    let e3: u64 = match descend(m, e4 & PTE_FRAME_MASK, index_of(virt, 30), KERNEL_DIR) {
        None => {
            return Err("map_kernel: out of frames (pml2)");
        },
        Some(e) => e,
    };
    if e3 & HUGE != 0 {
        return Err("map_kernel: huge page where a table was expected");
    }
    let e2: u64 = match descend(m, e3 & PTE_FRAME_MASK, index_of(virt, 21), KERNEL_DIR) {
        None => {
            return Err("map_kernel: out of frames (pml1)");
        },
        Some(e) => e,
    };
    if e2 & HUGE != 0 {
        return Err("map_kernel: huge page where a table was expected");
    }
    m.ram.set_word(e2 & PTE_FRAME_MASK, index_of(virt, 12), phys | flags);
    Ok(())
}

// ---------------------------------------------------------------------------
// The address space
// ---------------------------------------------------------------------------
/// A PML4. The lower half of one that owns it is exclusively its own.
#[derive(Clone, Copy)]
pub struct AddressSpace {
    pub pml4: u64,
    pub owns_lower_half: bool,
}

/// The table of the leaf entries of `virt`, if every level above is there and
/// none is a huge page.
pub open spec fn leaf_table(m: MemV, pml4: u64, virt: u64) -> Option<u64> {
    let e4 = m.entry(pml4, index_at(virt, 39));
    let e3 = m.entry(frame_of(e4), index_at(virt, 30));
    let e2 = m.entry(frame_of(e3), index_at(virt, 21));
    if !present(e4) || !present(e3) || is_huge(e3) || !present(e2) || is_huge(e2) {
        None
    } else {
        Some(frame_of(e2))
    }
}

/// Where `virt` lies in physical memory: in a 1 GiB page, a 2 MiB page or a
/// 4 KiB page.
pub open spec fn translate_spec(m: MemV, pml4: u64, virt: u64) -> Option<u64> {
    let e4 = m.entry(pml4, index_at(virt, 39));
    let e3 = m.entry(frame_of(e4), index_at(virt, 30));
    let e2 = m.entry(frame_of(e3), index_at(virt, 21));
    let e1 = m.entry(frame_of(e2), index_at(virt, 12));
    if !present(e4) || !present(e3) {
        None
    } else if is_huge(e3) {
        Some((e3 & 0x000F_FFFF_C000_0000) | (virt & 0x3FFF_FFFF))
    } else if !present(e2) {
        None
    } else if is_huge(e2) {
        Some((e2 & 0x000F_FFFF_FFE0_0000) | (virt & 0x1F_FFFF))
    } else if !present(e1) {
        None
    } else {
        Some(frame_of(e1) | (virt & 0xFFF))
    }
}

pub open spec fn map_spec(m: MemV, pml4: u64, virt: u64, phys: u64, flags: u64) -> (MemV, Result<(), Seq<char>>) {
    if virt % 4096 != 0 || phys % 4096 != 0 {
        (m, Err("map: addresses must be page-aligned"@))
    } else if virt >= KERNEL_HALF_BASE {
        (m, Err("map: refusing to touch the kernel half"@))
    } else {
        let (m1, e4) = descend_spec(m, pml4, index_at(virt, 39), USER_DIR);
        match e4 {
            None => (m1, Err("map: out of frames (pml3)"@)),
            Some(e4) => {
                let (m2, e3) = descend_spec(m1, frame_of(e4), index_at(virt, 30), USER_DIR);
                match e3 {
                    None => (m2, Err("map: out of frames (pml2)"@)),
                    Some(e3) => if is_huge(e3) {
                        (m2, Err("map: huge page where a table was expected"@))
                    } else {
                        let (m3, e2) = descend_spec(m2, frame_of(e3), index_at(virt, 21), USER_DIR);
                        match e2 {
                            None => (m3, Err("map: out of frames (pml1)"@)),
                            Some(e2) => if present(m3.entry(frame_of(e2), index_at(virt, 12))) {
                                (m3, Err("map: page already mapped"@))
                            } else {
                                (m3.with_entry(frame_of(e2), index_at(virt, 12), phys | flags), Ok(()))
                            },
                        }
                    },
                }
            },
        }
    }
}

pub open spec fn unmap_spec(m: MemV, pml4: u64, virt: u64) -> (MemV, Option<u64>) {
    match leaf_table(m, pml4, virt) {
        None => (m, None),
        Some(t) => {
            let e = m.entry(t, index_at(virt, 12));
            if present(e) {
                (m.with_entry(t, index_at(virt, 12), 0), Some(frame_of(e)))
            } else {
                (m, None)
            }
        },
    }
}

/// Memory with the kernel's upper-half entries from `i` on in the PML4 `to`.
pub open spec fn upper_shared(m: MemV, to: u64, i: int) -> MemV
    decreases 512 - i,
{
    if i < 0 || i >= 512 {
        m
    } else {
        upper_shared(m.with_entry(to, i, m.entry(m.kernel, i)), to, i + 1)
    }
}

/// A fresh PML4 with the kernel's upper half.
pub open spec fn new_root_spec(m: MemV) -> (MemV, Option<u64>) {
    let (m1, r) = new_table_spec(m);
    match r {
        None => (m1, None),
        Some(t) => (upper_shared(m1, t, 256), Some(t)),
    }
}

fn new_root(m: &mut Memory) -> (r: Option<u64>)
    requires
        old(m).wf(),
    ensures
        final(m).wf(),
        (final(m)@, r) == new_root_spec(old(m)@),
{
    match new_table(m) {
        None => None,
        Some(t) => {
            let ghost m1 = m@;
            let kernel: u64 = m.kernel;
            let mut i: usize = 256;
            while i < 512
                invariant
                    256 <= i <= 512,
                    m.wf(),
                    kernel == m@.kernel,
                    upper_shared(m@, t, i as int) == upper_shared(m1, t, 256),
                decreases 512 - i,
            {
                let e: u64 = m.ram.word(kernel, i);
                m.ram.set_word(t, i, e);
                i = i + 1;
            }
            Some(t)
        },
    }
}

// ---------------------------------------------------------------------------
// Forking
// ---------------------------------------------------------------------------
/// Memory during a fork, and the pages whose entries were downgraded so far.
#[verifier::ext_equal]
pub struct ForkV {
    pub m: MemV,
    pub stale: Seq<u64>,
}

/// A leaf entry made read-only and marked copy-on-write.
pub open spec fn cow_entry(e: u64) -> u64 {
    frame_of(e) | ((flags_of(e) & !WRITABLE) | PTE_COW)
}

/// A leaf entry of a user page that may be written.
pub open spec fn is_user_writable(e: u64) -> bool {
    flags_of(e) & (USER | WRITABLE) == (USER | WRITABLE)
}

/// Shares the leaf entries from `i` on of the table at `p` with the one at
/// `c`; `va` is where the table's pages start.
pub open spec fn fork_leaves(f: ForkV, p: u64, c: u64, va: int, i: int) -> ForkV
    decreases 512 - i,
{
    if i < 0 || i >= 512 {
        f
    } else {
        let e = f.m.entry(p, i);
        if !present(e) {
            fork_leaves(f, p, c, va, i + 1)
        } else if is_user_writable(e) {
            let m1 = f.m.with_entry(p, i, cow_entry(e)).with_entry(c, i, cow_entry(e));
            let m2 = MemV { frames: crate::mem::frames::add_ref_spec(m1.frames, frame_of(e)), ..m1 };
            fork_leaves(ForkV { m: m2, stale: f.stale.push((va + i * 4096) as u64) }, p, c, va, i + 1)
        } else {
            let m1 = f.m.with_entry(c, i, frame_of(e) | flags_of(e));
            let m2 = MemV { frames: crate::mem::frames::add_ref_spec(m1.frames, frame_of(e)), ..m1 };
            fork_leaves(ForkV { m: m2, ..f }, p, c, va, i + 1)
        }
    }
}

/// Clones the entries from `i` on of a table above the leaves: level 2 holds
/// leaf tables, level 3 tables of those, level 4 is the PML4. A fresh table
/// is made for each present one. False once the frames ran out.
pub open spec fn fork_tables(level: int, f: ForkV, p: u64, c: u64, va: int, i: int) -> (ForkV, bool)
    decreases level, 512 - i,
{
    let end: int = if level == 4 {
        256
    } else {
        512
    };
    if level < 2 || level > 4 || i < 0 || i >= end {
        (f, true)
    } else {
        let e = f.m.entry(p, i);
        if !present(e) || (level < 4 && is_huge(e)) {
            fork_tables(level, f, p, c, va, i + 1)
        } else {
            let (m1, r) = new_table_spec(f.m);
            match r {
                None => (ForkV { m: m1, ..f }, false),
                Some(t) => {
                    let f1 = ForkV { m: m1.with_entry(c, i, t | USER_DIR), ..f };
                    if level == 2 {
                        let f2 = fork_leaves(f1, frame_of(e), t, va + i * 0x20_0000, 0);
                        fork_tables(level, f2, p, c, va, i + 1)
                    } else {
                        let (f2, ok) = fork_tables(
                            level - 1,
                            f1,
                            frame_of(e),
                            t,
                            va + i * (if level == 3 {
                                0x4000_0000int
                            } else {
                                0x80_0000_0000int
                            }),
                            0,
                        );
                        if ok {
                            fork_tables(level, f2, p, c, va, i + 1)
                        } else {
                            (f2, false)
                        }
                    }
                },
            }
        }
    }
}

/// A fork: the child's PML4, if there were frames for all its tables, and the
/// pages of the parent that were downgraded, to the end or up to where the
/// frames ran out: their old translations must be dropped.
pub open spec fn fork_spec(m: MemV, pml4: u64) -> (MemV, Option<u64>, Seq<u64>) {
    let (m1, r) = new_root_spec(m);
    match r {
        None => (m1, None, Seq::empty()),
        Some(t) => {
            let (f, ok) = fork_tables(4, ForkV { m: m1, stale: Seq::empty() }, pml4, t, 0, 0);
            if ok {
                (
                    MemV { forks: f.m.forks.wrapping_add(1), marked: f.stale.len() as u64, ..f.m },
                    Some(t),
                    f.stale,
                )
            } else {
                (f.m, None, f.stale)
            }
        },
    }
}

fn share_leaves(m: &mut Memory, stale: &mut Vec<u64>, p: u64, c: u64, va: u64)
    requires
        old(m).wf(),
        va + 0x20_0000 <= u64::MAX,
    ensures
        final(m).wf(),
        (ForkV { m: final(m)@, stale: final(stale)@ }) == fork_leaves(
            ForkV { m: old(m)@, stale: old(stale)@ },
            p,
            c,
            va as int,
            0,
        ),
{
    let mut i: usize = 0;
    while i < 512
        invariant
            i <= 512,
            m.wf(),
            va + 0x20_0000 <= u64::MAX,
            fork_leaves(ForkV { m: m@, stale: stale@ }, p, c, va as int, i as int) == fork_leaves(
                ForkV { m: old(m)@, stale: old(stale)@ },
                p,
                c,
                va as int,
                0,
            ),
        decreases 512 - i,
    {
        let e: u64 = m.ram.word(p, i);
        if e & PRESENT != 0 {
            let phys: u64 = e & PTE_FRAME_MASK;
            let flags: u64 = e & !PTE_FRAME_MASK;
            if flags & (USER | WRITABLE) == (USER | WRITABLE) {
                let ro: u64 = phys | ((flags & !WRITABLE) | PTE_COW);
                m.ram.set_word(p, i, ro);
                m.ram.set_word(c, i, ro);
                stale.push(va + i as u64 * 4096);
            } else {
                m.ram.set_word(c, i, phys | flags);
            }
            frames::add_ref(&mut m.frames, phys);
        }
        i = i + 1;
    }
}

fn share_tables(level: u64, m: &mut Memory, stale: &mut Vec<u64>, p: u64, c: u64, va: u64) -> (ok: bool)
    requires
        old(m).wf(),
        2 <= level <= 4,
        level == 2 ==> va + 0x4000_0000 <= u64::MAX,
        level == 3 ==> va + 0x80_0000_0000 <= u64::MAX,
        level == 4 ==> va == 0,
    ensures
        final(m).wf(),
        (ForkV { m: final(m)@, stale: final(stale)@ }, ok) == fork_tables(
            level as int,
            ForkV { m: old(m)@, stale: old(stale)@ },
            p,
            c,
            va as int,
            0,
        ),
    decreases level,
{
    let end: usize = if level == 4 {
        256
    } else {
        512
    };
    let mut i: usize = 0;
    while i < end
        invariant
            i <= end,
            end == (if level == 4 {
                256int
            } else {
                512int
            }),
            m.wf(),
            2 <= level <= 4,
            level == 2 ==> va + 0x4000_0000 <= u64::MAX,
            level == 3 ==> va + 0x80_0000_0000 <= u64::MAX,
            level == 4 ==> va == 0,
            fork_tables(level as int, ForkV { m: m@, stale: stale@ }, p, c, va as int, i as int) == fork_tables(
                level as int,
                ForkV { m: old(m)@, stale: old(stale)@ },
                p,
                c,
                va as int,
                0,
            ),
        decreases end - i,
    {
        let e: u64 = m.ram.word(p, i);
        if !(e & PRESENT == 0 || (level < 4 && e & HUGE != 0)) {
            match new_table(m) {
                None => {
                    return false;
                },
                Some(t) => {
                    m.ram.set_word(c, i, t | USER_DIR);
                    if level == 2 {
                        share_leaves(m, stale, e & PTE_FRAME_MASK, t, va + i as u64 * 0x20_0000);
                    } else {
                        let step: u64 = if level == 3 {
                            0x4000_0000
                        } else {
                            0x80_0000_0000
                        };
                        assert(i * step <= 512 * 0x4000_0000 || level == 4);
                        if !share_tables(level - 1, m, stale, e & PTE_FRAME_MASK, t, va + i as u64 * step) {
                            return false;
                        }
                    }
                },
            }
        }
        i = i + 1;
    }
    true
}

// ---------------------------------------------------------------------------
// Tearing down
// ---------------------------------------------------------------------------
/// Releases the data frames of the leaf entries from `i` on; `n` counts them.
pub open spec fn free_leaves(m: MemV, p: u64, i: int, n: nat) -> (MemV, nat)
    decreases 512 - i,
{
    if i < 0 || i >= 512 {
        (m, n)
    } else {
        let e = m.entry(p, i);
        if present(e) {
            free_leaves(
                MemV { frames: crate::mem::frames::release_spec(m.frames, frame_of(e)).0, ..m },
                p,
                i + 1,
                n + 1,
            )
        } else {
            free_leaves(m, p, i + 1, n)
        }
    }
}

/// Releases what the table entries from `i` on lead to, and the tables.
pub open spec fn free_tables(level: int, m: MemV, p: u64, i: int, n: nat) -> (MemV, nat)
    decreases level, 512 - i,
{
    let end: int = if level == 4 {
        256
    } else {
        512
    };
    if level < 2 || level > 4 || i < 0 || i >= end {
        (m, n)
    } else {
        let e = m.entry(p, i);
        if !present(e) || (level < 4 && is_huge(e)) {
            free_tables(level, m, p, i + 1, n)
        } else {
            let (m1, n1) = if level == 2 {
                free_leaves(m, frame_of(e), 0, n)
            } else {
                free_tables(level - 1, m, frame_of(e), 0, n)
            };
            free_tables(
                level,
                MemV { frames: crate::mem::frames::free_spec(m1.frames, frame_of(e)), ..m1 },
                p,
                i + 1,
                n1,
            )
        }
    }
}

/// Frees an owned lower half, and the PML4 unless it is kept.
pub open spec fn free_all_spec(m: MemV, pml4: u64, owned: bool, keep_root: bool) -> (MemV, nat) {
    if !owned || pml4 == 0 {
        (m, 0)
    } else {
        let (m1, n) = free_tables(4, m, pml4, 0, 0);
        if keep_root {
            (m1, n)
        } else {
            (MemV { frames: crate::mem::frames::free_spec(m1.frames, pml4), ..m1 }, n)
        }
    }
}

fn drop_leaves(m: &mut Memory, p: u64, n: u64) -> (r: u64)
    requires
        old(m).wf(),
        n + 512 <= u64::MAX,
    ensures
        final(m).wf(),
        (final(m)@, r as nat) == free_leaves(old(m)@, p, 0, n as nat),
        r <= n + 512,
{
    let mut r: u64 = n;
    let mut i: usize = 0;
    while i < 512
        invariant
            i <= 512,
            n + 512 <= u64::MAX,
            r <= n + i,
            m.wf(),
            free_leaves(m@, p, i as int, r as nat) == free_leaves(old(m)@, p, 0, n as nat),
        decreases 512 - i,
    {
        let e: u64 = m.ram.word(p, i);
        if e & PRESENT != 0 {
            frames::release(&mut m.frames, e & PTE_FRAME_MASK);
            r = r + 1;
        }
        i = i + 1;
    }
    r
}

/// The most pages that a table of a level leads to.
pub open spec fn span(level: int) -> int {
    if level == 2 {
        0x4_0000
    } else if level == 3 {
        0x800_0000
    } else {
        0x8_0000_0000
    }
}

fn drop_tables(level: u64, m: &mut Memory, p: u64, n: u64) -> (r: u64)
    requires
        old(m).wf(),
        2 <= level <= 4,
        n + span(level as int) <= u64::MAX,
    ensures
        final(m).wf(),
        (final(m)@, r as nat) == free_tables(level as int, old(m)@, p, 0, n as nat),
        r <= n + span(level as int),
    decreases level,
{
    let end: usize = if level == 4 {
        256
    } else {
        512
    };
    let mut r: u64 = n;
    let mut i: usize = 0;
    while i < end
        invariant
            i <= end,
            end == (if level == 4 {
                256int
            } else {
                512int
            }),
            2 <= level <= 4,
            n + span(level as int) <= u64::MAX,
            level == 2 ==> r <= n + i * 512,
            level == 3 ==> r <= n + i * 0x4_0000,
            level == 4 ==> r <= n + i * 0x800_0000,
            m.wf(),
            free_tables(level as int, m@, p, i as int, r as nat) == free_tables(
                level as int,
                old(m)@,
                p,
                0,
                n as nat,
            ),
        decreases end - i,
    {
        let e: u64 = m.ram.word(p, i);
        if !(e & PRESENT == 0 || (level < 4 && e & HUGE != 0)) {
            if level == 2 {
                r = drop_leaves(m, e & PTE_FRAME_MASK, r);
            } else {
                r = drop_tables(level - 1, m, e & PTE_FRAME_MASK, r);
            }
            frames::free(&mut m.frames, e & PTE_FRAME_MASK);
        }
        i = i + 1;
    }
    r
}

impl AddressSpace {
    /// Wraps a PML4 without owning its lower half.
    pub fn from_pml4(pml4: u64) -> (s: AddressSpace)
        ensures
            s == (AddressSpace { pml4: frame_of(pml4), owns_lower_half: false }),
    {
        AddressSpace { pml4: pml4 & PTE_FRAME_MASK, owns_lower_half: false }
    }

    /// A fresh user address space: an empty lower half, the kernel's upper.
    pub fn new_user(m: &mut Memory) -> (r: Option<AddressSpace>)
        requires
            old(m).wf(),
        ensures
            final(m).wf(),
            final(m)@ == new_root_spec(old(m)@).0,
            r == (match new_root_spec(old(m)@).1 {
                Some(t) => Some(AddressSpace { pml4: t, owns_lower_half: true }),
                None => None,
            }),
    {
        match new_root(m) {
            None => None,
            Some(t) => Some(AddressSpace { pml4: t, owns_lower_half: true }),
        }
    }

    /// Clones the address space copy-on-write. Gives the child, none if the
    /// frames ran out, and either way the pages of the parent whose entries
    /// were downgraded: their translations must be dropped here, and on the
    /// other processors by a shootdown.
    pub fn fork_cow(&self, m: &mut Memory) -> (r: (Option<AddressSpace>, Vec<u64>))
        requires
            old(m).wf(),
        ensures
            final(m).wf(),
            final(m)@ == fork_spec(old(m)@, self.pml4).0,
            r.0 == (match fork_spec(old(m)@, self.pml4).1 {
                Some(t) => Some(AddressSpace { pml4: t, owns_lower_half: true }),
                None => None,
            }),
            r.1@ == fork_spec(old(m)@, self.pml4).2,
    {
        let mut stale: Vec<u64> = Vec::new();
        assert(stale@ =~= Seq::empty());
        match new_root(m) {
            None => (None, stale),
            Some(t) => {
                if !share_tables(4, m, &mut stale, self.pml4, t, 0) {
                    return (None, stale);
                }
                m.forks = m.forks.wrapping_add(1);
                m.marked = stale.len() as u64;
                (Some(AddressSpace { pml4: t, owns_lower_half: true }), stale)
            },
        }
    }

    /// Maps one page in the lower half, with tables made on demand.
    pub fn map(&self, m: &mut Memory, virt: u64, phys: u64, flags: u64) -> (r: Result<(), &'static str>)
        requires
            old(m).wf(),
        ensures
            final(m).wf(),
            final(m)@ == map_spec(old(m)@, self.pml4, virt, phys, flags).0,
            crate::text::told(r, map_spec(old(m)@, self.pml4, virt, phys, flags).1),
    {
        if virt % PAGE != 0 || phys % PAGE != 0 {
            return Err("map: addresses must be page-aligned");
        }
        if virt >= KERNEL_HALF_BASE {
            return Err("map: refusing to touch the kernel half");
        }
        let e4: u64 = match descend(m, self.pml4, index_of(virt, 39), USER_DIR) {
            None => {
                return Err("map: out of frames (pml3)");
            },
            Some(e) => e,
        };
        let e3: u64 = match descend(m, e4 & PTE_FRAME_MASK, index_of(virt, 30), USER_DIR) {
            None => {
                return Err("map: out of frames (pml2)");
            },
            Some(e) => e,
        };
        if e3 & HUGE != 0 {
            return Err("map: huge page where a table was expected");
        }
        let e2: u64 = match descend(m, e3 & PTE_FRAME_MASK, index_of(virt, 21), USER_DIR) {
            None => {
                return Err("map: out of frames (pml1)");
            },
            Some(e) => e,
        };
        let t: u64 = e2 & PTE_FRAME_MASK;
        let i: usize = index_of(virt, 12);
        if m.ram.word(t, i) & PRESENT != 0 {
            return Err("map: page already mapped");
        }
        m.ram.set_word(t, i, phys | flags);
        Ok(())
    }

    /// The physical address of a virtual one, by walking the tables.
    pub fn translate(&self, m: &Memory, virt: u64) -> (r: Option<u64>)
        requires
            m.wf(),
        ensures
            r == translate_spec(m@, self.pml4, virt),
    {
        let e4: u64 = m.ram.word(self.pml4, index_of(virt, 39));
        if e4 & PRESENT == 0 {
            return None;
        }
        let e3: u64 = m.ram.word(e4 & PTE_FRAME_MASK, index_of(virt, 30));
        if e3 & PRESENT == 0 {
            return None;
        }
        if e3 & HUGE != 0 {
            return Some((e3 & 0x000F_FFFF_C000_0000) | (virt & 0x3FFF_FFFF));
        }
        let e2: u64 = m.ram.word(e3 & PTE_FRAME_MASK, index_of(virt, 21));
        if e2 & PRESENT == 0 {
            return None;
        }
        if e2 & HUGE != 0 {
            return Some((e2 & 0x000F_FFFF_FFE0_0000) | (virt & 0x1F_FFFF));
        }
        let e1: u64 = m.ram.word(e2 & PTE_FRAME_MASK, index_of(virt, 12));
        if e1 & PRESENT == 0 {
            return None;
        }
        Some((e1 & PTE_FRAME_MASK) | (virt & 0xFFF))
    }

    /// The table of the leaf entries of `virt`, if it is reached.
    fn walk_leaf(&self, m: &Memory, virt: u64) -> (r: Option<u64>)
        requires
            m.wf(),
        ensures
            r == leaf_table(m@, self.pml4, virt),
    {
        let e4: u64 = m.ram.word(self.pml4, index_of(virt, 39));
        if e4 & PRESENT == 0 {
            return None;
        }
        let e3: u64 = m.ram.word(e4 & PTE_FRAME_MASK, index_of(virt, 30));
        if e3 & PRESENT == 0 || e3 & HUGE != 0 {
            return None;
        }
        let e2: u64 = m.ram.word(e3 & PTE_FRAME_MASK, index_of(virt, 21));
        if e2 & PRESENT == 0 || e2 & HUGE != 0 {
            return None;
        }
        Some(e2 & PTE_FRAME_MASK)
    }

    /// Unmaps one page and gives the frame it pointed at. The page must be
    /// dropped from the translation cache afterwards.
    pub fn unmap(&self, m: &mut Memory, virt: u64) -> (r: Option<u64>)
        requires
            old(m).wf(),
        ensures
            final(m).wf(),
            (final(m)@, r) == unmap_spec(old(m)@, self.pml4, virt),
    {
        match self.walk_leaf(m, virt) {
            None => None,
            Some(t) => {
                let i: usize = index_of(virt, 12);
                let e: u64 = m.ram.word(t, i);
                if e & PRESENT == 0 {
                    return None;
                }
                m.ram.set_word(t, i, 0);
                Some(e & PTE_FRAME_MASK)
            },
        }
    }

    fn free_all(&self, m: &mut Memory, keep_root: bool) -> (freed: u64)
        requires
            old(m).wf(),
        ensures
            final(m).wf(),
            (final(m)@, freed as nat) == free_all_spec(old(m)@, self.pml4, self.owns_lower_half, keep_root),
    {
        if !self.owns_lower_half || self.pml4 == 0 {
            return 0;
        }
        let freed: u64 = drop_tables(4, m, self.pml4, 0);
        if !keep_root {
            frames::free(&mut m.frames, self.pml4);
        }
        freed
    }

    /// Frees every user-half table and data frame, then the PML4. Gives the
    /// number of data frames reclaimed.
    pub fn destroy(self, m: &mut Memory) -> (freed: u64)
        requires
            old(m).wf(),
        ensures
            final(m).wf(),
            (final(m)@, freed as nat) == free_all_spec(old(m)@, self.pml4, self.owns_lower_half, false),
    {
        self.free_all(m, false)
    }

    /// Like `destroy`, but leaves the PML4 alone: on the exit path it may
    /// still be loaded.
    pub fn destroy_keep_root(self, m: &mut Memory) -> (freed: u64)
        requires
            old(m).wf(),
        ensures
            final(m).wf(),
            (final(m)@, freed as nat) == free_all_spec(old(m)@, self.pml4, self.owns_lower_half, true),
    {
        self.free_all(m, true)
    }
}

// ---------------------------------------------------------------------------
// Copy-on-write faults
// ---------------------------------------------------------------------------
/// A leaf entry that may be written again, pointing at `frame`.
pub open spec fn private_entry(e: u64, frame: u64) -> u64 {
    frame | (flags_of(e) & !PTE_COW) | WRITABLE
}

pub open spec fn cow_resolve_spec(m: MemV, cr3: u64, va: u64) -> (MemV, bool) {
    match leaf_table(m, frame_of(cr3), va) {
        None => (m, false),
        Some(t) => {
            let i = index_at(va, 12);
            let e = m.entry(t, i);
            let phys = frame_of(e);
            if !present(e) || e & PTE_COW == 0 {
                (m, false)
            } else if crate::mem::frames::ref_spec(m.frames, phys) == 0 {
                let m1 = m.with_entry(t, i, private_entry(e, phys));
                (MemV { faults: m.faults.wrapping_add(1), ..m1 }, true)
            } else {
                let (f, r) = crate::mem::frames::alloc_spec(m.frames);
                match r {
                    None => (MemV { frames: f, ..m }, false),
                    Some(n) => {
                        let m1 = MemV { frames: f, ram: crate::mem::phys::copied(m.ram, phys, n), ..m };
                        let m2 = m1.with_entry(t, i, private_entry(e, n));
                        (
                            MemV {
                                frames: crate::mem::frames::release_spec(f, phys).0,
                                faults: m.faults.wrapping_add(1),
                                ..m2
                            },
                            true,
                        )
                    },
                }
            }
        },
    }
}

/// Resolves a write fault at `va` in the space that `cr3` names. True if the
/// page was shared copy-on-write: the writer now has it to itself, either the
/// frame as it was, if nobody else owned it any more, or a copy. The page
/// must be dropped from the translation cache, and the store is tried again.
pub fn cow_resolve(m: &mut Memory, cr3: u64, va: u64) -> (r: bool)
    requires
        old(m).wf(),
    ensures
        final(m).wf(),
        (final(m)@, r) == cow_resolve_spec(old(m)@, cr3, va),
{
    let space = AddressSpace::from_pml4(cr3);
    match space.walk_leaf(m, va) {
        None => false,
        Some(t) => {
            let i: usize = index_of(va, 12);
            let e: u64 = m.ram.word(t, i);
            if e & PRESENT == 0 || e & PTE_COW == 0 {
                return false;
            }
            let phys: u64 = e & PTE_FRAME_MASK;
            let flags: u64 = e & !PTE_FRAME_MASK;
            if frames::ref_of(&m.frames, phys) == 0 {
                m.ram.set_word(t, i, phys | (flags & !PTE_COW) | WRITABLE);
            } else {
                match frames::alloc_frame(&mut m.frames) {
                    None => {
                        return false;
                    },
                    Some(n) => {
                        m.ram.copy_frame(phys, n);
                        m.ram.set_word(t, i, n | (flags & !PTE_COW) | WRITABLE);
                        frames::release(&mut m.frames, phys);
                    },
                }
            }
            m.faults = m.faults.wrapping_add(1);
            true
        },
    }
}

// ---------------------------------------------------------------------------
// Boot-time self-test
// ---------------------------------------------------------------------------
/// "GLM_OS_2".
pub const MAGIC: u64 = 0x474C_4D5F_4F53_5F32;

/// A space with one test page, whose frame holds the magic number.
pub struct TestRig {
    pub space: AddressSpace,
    pub frame: u64,
}

pub open spec fn verdict(ok: bool) -> Seq<char> {
    if ok {
        "ok"@
    } else {
        "FAIL"@
    }
}

fn push_verdict(s: &mut String, ok: bool)
    ensures
        final(s)@ == old(s)@ + verdict(ok),
{
    if ok {
        s.append("ok");
    } else {
        s.append("FAIL");
    }
}

pub open spec fn map_line(frame: u64, ok: bool) -> OutV {
    crate::console::plain(
        "      "@ + "map   "@ + crate::text::hexp_text(USER_IMG_BASE as nat) + " -> frame "@ + crate::text::hexp_text(
            frame as nat,
        ) + " (P|W|U)          "@ + verdict(ok) + "\n"@,
    )
}

pub open spec fn magic_line() -> OutV {
    crate::console::plain("      "@ + "write magic via hhdm                     ok\n"@)
}

pub open spec fn translate_line(pa: u64, ok: bool) -> OutV {
    crate::console::plain(
        "      "@ + "translate "@ + crate::text::hexp_text((USER_IMG_BASE + 0x123) as nat) + " -> "@
            + crate::text::hexp_text(pa as nat) + "       "@ + verdict(ok) + "\n"@,
    )
}

pub open spec fn cpu_line(kernel: u64, pml4: u64, ok: bool) -> OutV {
    crate::console::plain(
        "      "@ + "cr3 "@ + crate::text::hexp_text(kernel as nat) + " -> "@ + crate::text::hexp_text(pml4 as nat)
            + ", cpu read   "@ + verdict(ok) + "\n"@,
    )
}

pub open spec fn unmap_line(ok: bool) -> OutV {
    crate::console::plain("      "@ + "unmap + frame reclaim                    "@ + verdict(ok) + "\n"@)
}

/// Whether `t` is the frame with the offset that was asked for.
pub open spec fn lands_in(t: Option<u64>, frame: u64) -> bool {
    match t {
        Some(p) => p & 0xFFF == 0x123 && p & !0xFFF == frame,
        None => false,
    }
}

/// The first half of the self-test: what it leaves in memory, prints, and the
/// PML4 and frame that the processor is to read through, if it got so far.
pub open spec fn self_test_spec(m: MemV) -> (MemV, Seq<OutV>, Option<(u64, u64)>) {
    let (m1, root) = new_root_spec(m);
    match root {
        None => (m1, Seq::empty(), None),
        Some(pml4) => {
            let (f, got) = crate::mem::frames::alloc_spec(m1.frames);
            match got {
                None => (MemV { frames: f, ..m1 }, Seq::empty(), None),
                Some(frame) => {
                    let (m2, r) = map_spec(MemV { frames: f, ..m1 }, pml4, USER_IMG_BASE, frame, USER_DIR);
                    if r is Err {
                        (m2, seq![map_line(frame, false)], None)
                    } else {
                        let m3 = m2.with_entry(frame, 0, MAGIC);
                        let t = translate_spec(m3, pml4, (USER_IMG_BASE + 0x123) as u64);
                        let ok = lands_in(t, frame);
                        (
                            m3,
                            seq![
                                map_line(frame, true),
                                magic_line(),
                                translate_line(
                                    match t {
                                        Some(p) => p,
                                        None => 0,
                                    },
                                    ok,
                                ),
                            ],
                            if ok {
                                Some((pml4, frame))
                            } else {
                                None
                            },
                        )
                    }
                },
            }
        },
    }
}

/// Builds a user address space, maps a page, writes the magic number to its
/// frame and checks the translation. Gives what is printed and, if all is
/// well, the rig: the caller loads its PML4, reads the word at the start of
/// the user image, restores the kernel's PML4 and finishes the test.
pub fn self_test(m: &mut Memory) -> (r: (Vec<Out>, Option<TestRig>))
    requires
        old(m).wf(),
    ensures
        final(m).wf(),
        final(m)@ == self_test_spec(old(m)@).0,
        crate::console::outs(r.0@) == self_test_spec(old(m)@).1,
        r.1 == (match self_test_spec(old(m)@).2 {
            Some((pml4, frame)) => Some(
                TestRig { space: AddressSpace { pml4, owns_lower_half: true }, frame },
            ),
            None => None,
        }),
{
    let mut v = nothing();
    let space = match AddressSpace::new_user(m) {
        None => {
            return (v, None);
        },
        Some(s) => s,
    };
    let frame: u64 = match frames::alloc_frame(&mut m.frames) {
        None => {
            return (v, None);
        },
        Some(f) => f,
    };
    let mapped = match space.map(m, USER_IMG_BASE, frame, USER_DIR) {
        Ok(_) => true,
        Err(_) => false,
    };
    let mut s: String = "      ".to_owned();
    s.append("map   ");
    push_hexp(&mut s, USER_IMG_BASE);
    s.append(" -> frame ");
    push_hexp(&mut s, frame);
    s.append(" (P|W|U)          ");
    push_verdict(&mut s, mapped);
    s.append("\n");
    say(&mut v, s);
    if !mapped {
        assert(crate::console::outs(v@) =~= self_test_spec(old(m)@).1);
        return (v, None);
    }
    m.ram.set_word(frame, 0, MAGIC);
    let mut s: String = "      ".to_owned();
    s.append("write magic via hhdm                     ok\n");
    say(&mut v, s);
    let t: Option<u64> = space.translate(m, USER_IMG_BASE + 0x123);
    let (pa, ok): (u64, bool) = match t {
        Some(p) => (p, p & 0xFFF == 0x123 && p & !0xFFF == frame),
        None => (0, false),
    };
    let mut s: String = "      ".to_owned();
    s.append("translate ");
    push_hexp(&mut s, USER_IMG_BASE + 0x123);
    s.append(" -> ");
    push_hexp(&mut s, pa);
    s.append("       ");
    push_verdict(&mut s, ok);
    s.append("\n");
    say(&mut v, s);
    assert(crate::console::outs(v@) =~= self_test_spec(old(m)@).1);
    if !ok {
        return (v, None);
    }
    (v, Some(TestRig { space, frame }))
}

/// The second half of the self-test, with what the processor read.
pub open spec fn self_test_finish_spec(m: MemV, pml4: u64, owned: bool, frame: u64, seen: u64) -> (
    MemV,
    Seq<OutV>,
    bool,
) {
    let cpu_ok = seen == MAGIC;
    let (m1, got) = unmap_spec(m, pml4, USER_IMG_BASE);
    let m2 = MemV { frames: crate::mem::frames::free_spec(m1.frames, frame), ..m1 };
    (
        free_all_spec(m2, pml4, owned, false).0,
        seq![cpu_line(m.kernel, pml4, cpu_ok), unmap_line(got is Some)],
        cpu_ok && got is Some,
    )
}

/// Finishes the self-test: `seen` is what the processor read through the
/// rig's mapping. Takes the page and the space down; true if all was well.
pub fn self_test_finish(m: &mut Memory, rig: TestRig, seen: u64) -> (r: (Vec<Out>, bool))
    requires
        old(m).wf(),
    ensures
        final(m).wf(),
        (final(m)@, crate::console::outs(r.0@), r.1) == self_test_finish_spec(
            old(m)@,
            rig.space.pml4,
            rig.space.owns_lower_half,
            rig.frame,
            seen,
        ),
{
    let mut v = nothing();
    let cpu_ok = seen == MAGIC;
    let mut s: String = "      ".to_owned();
    s.append("cr3 ");
    push_hexp(&mut s, m.kernel);
    s.append(" -> ");
    push_hexp(&mut s, rig.space.pml4);
    s.append(", cpu read   ");
    push_verdict(&mut s, cpu_ok);
    s.append("\n");
    say(&mut v, s);
    let unmapped = rig.space.unmap(m, USER_IMG_BASE).is_some();
    frames::free(&mut m.frames, rig.frame);
    let mut s: String = "      ".to_owned();
    s.append("unmap + frame reclaim                    ");
    push_verdict(&mut s, unmapped);
    s.append("\n");
    say(&mut v, s);
    let _freed: u64 = rig.space.destroy(m);
    assert(crate::console::outs(v@) =~= seq![
        cpu_line(old(m)@.kernel, rig.space.pml4, cpu_ok),
        unmap_line(unmapped),
    ]);
    (v, cpu_ok && unmapped)
}

} // verus!
