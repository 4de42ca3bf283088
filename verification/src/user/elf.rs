//! Program images: static 64-bit ELF executables, whose loadable segments are
//! mapped into a user address space.

use vstd::prelude::*;

use crate::bytes::{get_le2, get_le4, get_le8};
use crate::disk::BlockDev;
use crate::fs::fat32::Fat32;
use crate::mem::frames;
use crate::mem::vmm::{
    align_down, align_up, AddressSpace, MemV, Memory, KERNEL_HALF_BASE, NO_EXECUTE, PAGE, PRESENT, USER, USER_IMG_BASE,
    WRITABLE,
};

verus! {

/// What was loaded.
pub struct LoadedImage {
    pub entry: u64,
    pub seg_count: usize,
    pub mapped_bytes: u64,
}

/// A loadable segment, as its program header gives it.
#[derive(Clone, Copy)]
pub struct Segment {
    pub offset: u64,
    pub vaddr: u64,
    pub filesz: u64,
    pub memsz: u64,
    pub flags: u32,
}

/// What is wrong with the header of an image, if anything is.
pub open spec fn header_fault(b: Seq<u8>) -> Option<Seq<char>> {
    if b.len() < 64 || b[0] != 0x7F || b[1] != 0x45 || b[2] != 0x4C || b[3] != 0x46 {
        Some("not an ELF file (bad magic)"@)
    } else if b[4] != 2 {
        Some("not a 64-bit ELF (class != ELF64)"@)
    } else if b[5] != 1 {
        Some("not little-endian"@)
    } else if crate::bytes::rd_le2(b, 16) != 2 {
        Some("not a static executable (e_type != ET_EXEC)"@)
    } else if crate::bytes::rd_le2(b, 18) != 0x3E {
        Some("not x86_64 (e_machine != EM_X86_64)"@)
    } else if crate::bytes::rd_le2(b, 54) < 56 || crate::bytes::rd_le2(b, 56) == 0 {
        Some("no program headers"@)
    } else if crate::bytes::rd_le8(b, 32) + crate::bytes::rd_le2(b, 56) * crate::bytes::rd_le2(b, 54) > b.len() {
        Some("program header table out of bounds"@)
    } else {
        None
    }
}

/// Where program header `i` stands.
pub open spec fn header_at(b: Seq<u8>, i: int) -> int {
    crate::bytes::rd_le8(b, 32) + i * crate::bytes::rd_le2(b, 54)
}

pub open spec fn seg_at(b: Seq<u8>, i: int) -> Segment {
    let p = header_at(b, i);
    Segment {
        offset: crate::bytes::rd_le8(b, p + 8),
        vaddr: crate::bytes::rd_le8(b, p + 16),
        filesz: crate::bytes::rd_le8(b, p + 32),
        memsz: crate::bytes::rd_le8(b, p + 40),
        flags: crate::bytes::rd_le4(b, p + 4),
    }
}

/// Whether program header `i` asks for something to be mapped.
pub open spec fn loads(b: Seq<u8>, i: int) -> bool {
    crate::bytes::rd_le4(b, header_at(b, i)) == 1 && seg_at(b, i).memsz != 0
}

/// Page flags of a segment: readable always, writable and executable as its
/// header says.
pub open spec fn seg_flags(f: u32) -> u64 {
    let w = if f & 2 != 0 {
        PRESENT | USER | WRITABLE
    } else {
        PRESENT | USER
    };
    if f & 1 == 0 {
        w | NO_EXECUTE
    } else {
        w
    }
}

/// Maps zero-filled pages from `page` up to `end`.
pub open spec fn map_pages(m: MemV, pml4: u64, page: int, end: int, flags: u64) -> (MemV, Result<(), Seq<char>>)
    decreases end + 4096 - page,
{
    if page >= end {
        (m, Ok(()))
    } else if crate::mem::vmm::translate_spec(m, pml4, page as u64) is Some {
        (m, Err("segment overlaps already-mapped memory"@))
    } else {
        let (f, got) = crate::mem::frames::alloc_spec(m.frames);
        match got {
            None => (MemV { frames: f, ..m }, Err("out of frames loading ELF"@)),
            Some(frame) => {
                let (m1, r) = crate::mem::vmm::map_spec(MemV { frames: f, ..m }, pml4, page as u64, frame, flags);
                match r {
                    Err(e) => (m1, Err(e)),
                    Ok(_) => map_pages(
                        MemV { ram: crate::mem::phys::cleared(m1.ram, frame), ..m1 },
                        pml4,
                        page + 4096,
                        end,
                        flags,
                    ),
                }
            },
        }
    }
}

/// Copies the bytes `k .. n` of a segment to their places.
pub open spec fn copy_in(m: MemV, pml4: u64, vaddr: u64, b: Seq<u8>, off: int, n: int, k: int) -> (
    MemV,
    Result<(), Seq<char>>,
)
    decreases n - k,
{
    if k < 0 || k >= n {
        (m, Ok(()))
    } else {
        match crate::mem::vmm::translate_spec(m, pml4, (vaddr + k) as u64) {
            None => (m, Err("translate failed while copying"@)),
            Some(pa) => copy_in(
                MemV { ram: crate::mem::phys::with_byte_at(m.ram, pa, b[off + k]), ..m },
                pml4,
                vaddr,
                b,
                off,
                n,
                k + 1,
            ),
        }
    }
}

/// How many bytes of the file a segment takes.
pub open spec fn copy_len(s: Segment) -> int {
    if s.filesz < s.memsz {
        s.filesz as int
    } else {
        s.memsz as int
    }
}

/// One segment: its pages are mapped, then its bytes are copied.
pub open spec fn load_segment(m: MemV, pml4: u64, b: Seq<u8>, s: Segment) -> (MemV, Result<(), Seq<char>>) {
    if s.vaddr + s.memsz > u64::MAX - 4095 || s.vaddr >= KERNEL_HALF_BASE {
        (m, Err("segment outside the user half"@))
    } else if s.offset + s.filesz > b.len() {
        (m, Err("segment data out of bounds"@))
    } else {
        let (m1, r) = map_pages(
            m,
            pml4,
            crate::mem::vmm::down(s.vaddr),
            crate::mem::vmm::up((s.vaddr + s.memsz) as u64),
            seg_flags(s.flags),
        );
        match r {
            Err(e) => (m1, Err(e)),
            Ok(_) => copy_in(m1, pml4, s.vaddr, b, s.offset as int, copy_len(s), 0),
        }
    }
}

/// The bytes that a segment's pages span.
pub open spec fn seg_span(s: Segment) -> int {
    crate::mem::vmm::up((s.vaddr + s.memsz) as u64) - crate::mem::vmm::down(s.vaddr)
}

/// The segments from program header `i` on; `count` and `bytes` are those of
/// the ones before.
pub open spec fn load_segments(m: MemV, pml4: u64, b: Seq<u8>, i: int, count: usize, bytes: u64) -> (
    MemV,
    Result<(usize, u64), Seq<char>>,
)
    decreases crate::bytes::rd_le2(b, 56) - i,
{
    if i < 0 || i >= crate::bytes::rd_le2(b, 56) {
        (m, Ok((count, bytes)))
    } else if !loads(b, i) {
        load_segments(m, pml4, b, i + 1, count, bytes)
    } else {
        let s = seg_at(b, i);
        let (m1, r) = load_segment(m, pml4, b, s);
        match r {
            Err(e) => (m1, Err(e)),
            Ok(_) => load_segments(
                m1,
                pml4,
                b,
                i + 1,
                count.wrapping_add(1),
                bytes.wrapping_add(seg_span(s) as u64),
            ),
        }
    }
}

pub open spec fn load_spec(m: MemV, pml4: u64, b: Seq<u8>) -> (MemV, Result<LoadedImage, Seq<char>>) {
    match header_fault(b) {
        Some(e) => (m, Err(e)),
        None => {
            let entry = crate::bytes::rd_le8(b, 24);
            let (m1, r) = load_segments(m, pml4, b, 0, 0, 0);
            match r {
                Err(e) => (m1, Err(e)),
                Ok((count, bytes)) => if count == 0 {
                    (m1, Err("no PT_LOAD segments"@))
                } else if entry < USER_IMG_BASE || entry >= KERNEL_HALF_BASE {
                    (m1, Err("entry point outside the user half"@))
                } else {
                    (m1, Ok(LoadedImage { entry, seg_count: count, mapped_bytes: bytes }))
                },
            }
        },
    }
}

fn check_header(image: &[u8]) -> (r: Result<(), &'static str>)
    ensures
        match (r, header_fault(image@)) {
            (Ok(_), None) => true,
            (Err(e), Some(t)) => e@ == t,
            _ => false,
        },
{
    let n: usize = image.len();
    if n < 64 || image[0] != 0x7F || image[1] != 0x45 || image[2] != 0x4C || image[3] != 0x46 {
        return Err("not an ELF file (bad magic)");
    }
    if image[4] != 2 {
        return Err("not a 64-bit ELF (class != ELF64)");
    }
    if image[5] != 1 {
        return Err("not little-endian");
    }
    if get_le2(image, 16) != 2 {
        return Err("not a static executable (e_type != ET_EXEC)");
    }
    if get_le2(image, 18) != 0x3E {
        return Err("not x86_64 (e_machine != EM_X86_64)");
    }
    let size: u64 = get_le2(image, 54) as u64;
    let num: u64 = get_le2(image, 56) as u64;
    if size < 56 || num == 0 {
        return Err("no program headers");
    }
    let off: u64 = get_le8(image, 32);
    assert(num * size <= 0xFFFF * 0xFFFF) by (nonlinear_arith)
        requires
            num <= 0xFFFF,
            size <= 0xFFFF,
    ;
    if off > n as u64 || num * size > n as u64 - off {
        return Err("program header table out of bounds");
    }
    Ok(())
}

fn map_zeroed(m: &mut Memory, space: &AddressSpace, start: u64, end: u64, flags: u64) -> (r: Result<(), &'static str>)
    requires
        old(m).wf(),
        start % 4096 == 0,
        end % 4096 == 0,
    ensures
        final(m).wf(),
        final(m)@ == map_pages(old(m)@, space.pml4, start as int, end as int, flags).0,
        crate::text::told(r, map_pages(old(m)@, space.pml4, start as int, end as int, flags).1),
{
    let mut page: u64 = start;
    while page < end
        invariant
            m.wf(),
            page % 4096 == 0,
            end % 4096 == 0,
            page <= end || page == start,
            map_pages(m@, space.pml4, page as int, end as int, flags) == map_pages(
                old(m)@,
                space.pml4,
                start as int,
                end as int,
                flags,
            ),
        decreases end - page,
    {
        if space.translate(m, page).is_some() {
            return Err("segment overlaps already-mapped memory");
        }
        let frame: u64 = match frames::alloc_frame(&mut m.frames) {
            None => {
                return Err("out of frames loading ELF");
            },
            Some(f) => f,
        };
        match space.map(m, page, frame, flags) {
            Err(e) => {
                return Err(e);
            },
            Ok(_) => {},
        }
        m.ram.clear(frame);
        page = page + PAGE;
    }
    Ok(())
}

fn copy_bytes(m: &mut Memory, space: &AddressSpace, vaddr: u64, image: &[u8], off: usize, n: usize) -> (r: Result<
    (),
    &'static str,
>)
    requires
        old(m).wf(),
        vaddr + n <= u64::MAX,
        off + n <= image@.len(),
    ensures
        final(m).wf(),
        final(m)@ == copy_in(old(m)@, space.pml4, vaddr, image@, off as int, n as int, 0).0,
        crate::text::told(r, copy_in(old(m)@, space.pml4, vaddr, image@, off as int, n as int, 0).1),
{
    let _len: usize = image.len();
    let mut k: usize = 0;
    while k < n
        invariant
            k <= n,
            m.wf(),
            vaddr + n <= u64::MAX,
            off + n <= image@.len(),
            image@.len() <= usize::MAX,
            copy_in(m@, space.pml4, vaddr, image@, off as int, n as int, k as int) == copy_in(
                old(m)@,
                space.pml4,
                vaddr,
                image@,
                off as int,
                n as int,
                0,
            ),
        decreases n - k,
    {
        match space.translate(m, vaddr + k as u64) {
            None => {
                return Err("translate failed while copying");
            },
            Some(pa) => {
                m.ram.set_byte(pa, image[off + k]);
            },
        }
        k = k + 1;
    }
    Ok(())
}

fn page_flags(f: u32) -> (r: u64)
    ensures
        r == seg_flags(f),
{
    let w: u64 = if f & 2 != 0 {
        PRESENT | USER | WRITABLE
    } else {
        PRESENT | USER
    };
    if f & 1 == 0 {
        w | NO_EXECUTE
    } else {
        w
    }
}

/// Maps a segment and copies its bytes; gives the bytes that its pages span.
fn load_one(m: &mut Memory, space: &AddressSpace, image: &[u8], s: Segment) -> (r: Result<u64, &'static str>)
    requires
        old(m).wf(),
        s.memsz > 0,
    ensures
        final(m).wf(),
        final(m)@ == load_segment(old(m)@, space.pml4, image@, s).0,
        match (r, load_segment(old(m)@, space.pml4, image@, s).1) {
            (Ok(n), Ok(_)) => n == seg_span(s),
            (Err(e), Err(t)) => e@ == t,
            _ => false,
        },
{
    let n: usize = image.len();
    if s.vaddr >= KERNEL_HALF_BASE || s.memsz > u64::MAX - 4095 - s.vaddr {
        return Err("segment outside the user half");
    }
    if s.offset > n as u64 || s.filesz > n as u64 - s.offset {
        return Err("segment data out of bounds");
    }
    let start: u64 = align_down(s.vaddr);
    let end: u64 = align_up(s.vaddr + s.memsz);
    match map_zeroed(m, space, start, end, page_flags(s.flags)) {
        Err(e) => {
            return Err(e);
        },
        Ok(_) => {},
    }
    let len: u64 = if s.filesz < s.memsz {
        s.filesz
    } else {
        s.memsz
    };
    match copy_bytes(m, space, s.vaddr, image, s.offset as usize, len as usize) {
        Err(e) => {
            return Err(e);
        },
        Ok(_) => {},
    }
    Ok(end - start)
}

proof fn lemma_header_in(b: Seq<u8>, i: int)
    requires
        header_fault(b) is None,
        0 <= i < crate::bytes::rd_le2(b, 56),
    ensures
        0 <= header_at(b, i),
        header_at(b, i) + 56 <= b.len(),
        0 <= i * crate::bytes::rd_le2(b, 54) <= 0xFFFF * 0xFFFF,
{
    let size = crate::bytes::rd_le2(b, 54) as int;
    let num = crate::bytes::rd_le2(b, 56) as int;
    assert(i * size + size <= num * size && 0 <= i * size && i * size <= 0xFFFF * 0xFFFF) by (nonlinear_arith)
        requires
            0 <= i < num,
            num <= 0xFFFF,
            0 <= size <= 0xFFFF,
    ;
}

fn read_segment(image: &[u8], i: u64) -> (r: (u32, Segment))
    requires
        header_fault(image@) is None,
        i < crate::bytes::rd_le2(image@, 56),
    ensures
        r.0 == crate::bytes::rd_le4(image@, header_at(image@, i as int)),
        r.1 == seg_at(image@, i as int),
{
    let _n: usize = image.len();
    let off: u64 = get_le8(image, 32);
    let size: u64 = get_le2(image, 54) as u64;
    proof {
        lemma_header_in(image@, i as int);
    }
    let p: usize = (off + i * size) as usize;
    let s = Segment {
        offset: get_le8(image, p + 8),
        vaddr: get_le8(image, p + 16),
        filesz: get_le8(image, p + 32),
        memsz: get_le8(image, p + 40),
        flags: get_le4(image, p + 4),
    };
    (get_le4(image, p), s)
}

/// Loads an image into an address space.
pub fn load(m: &mut Memory, space: &AddressSpace, image: &[u8]) -> (r: Result<LoadedImage, &'static str>)
    requires
        old(m).wf(),
    ensures
        final(m).wf(),
        final(m)@ == load_spec(old(m)@, space.pml4, image@).0,
        crate::text::told(r, load_spec(old(m)@, space.pml4, image@).1),
{
    match check_header(image) {
        Err(e) => {
            return Err(e);
        },
        Ok(_) => {},
    }
    let _n: usize = image.len();
    let entry: u64 = get_le8(image, 24);
    let num: u64 = get_le2(image, 56) as u64;
    let mut count: usize = 0;
    let mut bytes: u64 = 0;
    let mut i: u64 = 0;
    while i < num
        invariant
            i <= num,
            header_fault(image@) is None,
            num == crate::bytes::rd_le2(image@, 56),
            m.wf(),
            load_segments(m@, space.pml4, image@, i as int, count, bytes) == load_segments(
                old(m)@,
                space.pml4,
                image@,
                0,
                0,
                0,
            ),
        decreases num - i,
    {
        let (kind, s) = read_segment(image, i);
        if kind == 1 && s.memsz != 0 {
            match load_one(m, space, image, s) {
                Err(e) => {
                    return Err(e);
                },
                Ok(span) => {
                    count = count.wrapping_add(1);
                    bytes = bytes.wrapping_add(span);
                },
            }
        }
        i = i + 1;
    }
    if count == 0 {
        return Err("no PT_LOAD segments");
    }
    if entry < USER_IMG_BASE || entry >= KERNEL_HALF_BASE {
        return Err("entry point outside the user half");
    }
    Ok(LoadedImage { entry, seg_count: count, mapped_bytes: bytes })
}

/// Reads a whole file of the ramdisk, if it is mounted.
pub fn read_from_ramdisk<D: BlockDev>(fat: &mut Option<Fat32<D>>, path: &str) -> (r: Result<Vec<u8>, &'static str>)
    requires
        *old(fat) matches Some(f) ==> f.wf(),
    ensures
        match (*old(fat), *final(fat)) {
            (None, None) => r matches Err(e) && e@ == "ramdisk not mounted"@,
            (Some(f), Some(g)) => g.keeps(&f) && g@ == f@ && (r matches Ok(v) ==> crate::fs::fat32::cat_spec(
                f@,
                path@,
            ) matches Ok(b) && v@.is_prefix_of(b)) && (f.dev.faultless() ==> match (
                r,
                crate::fs::fat32::cat_spec(f@, path@),
            ) {
                (Ok(v), Ok(b)) => v@ == b,
                (Err(e), Err(x)) => crate::fs::fat32::says(e, x),
                _ => false,
            }),
            _ => false,
        },
{
    match fat {
        None => Err("ramdisk not mounted"),
        Some(f) => f.cat(path),
    }
}

} // verus!
