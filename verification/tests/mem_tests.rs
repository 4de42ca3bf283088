use glm_os::cpu::smp::{self, Smp};
use glm_os::mem::frames::{self, FrameTable, Region};
use glm_os::mem::heap::{self, GlmAlloc};
use glm_os::mem::paging::{self, DirectMap};
use glm_os::mem::phys::PhysMem;
use glm_os::mem::tlb::{self, Tlb, Wait};
use glm_os::mem::vmm::{self, AddressSpace, Memory, HUGE, NO_EXECUTE, PRESENT, PTE_COW, USER, WRITABLE};
use glm_os::user::uaccess::{read_user_bytes, write_user_bytes};

fn table() -> FrameTable {
    let mut f = FrameTable::new();
    frames::init(
        &mut f,
        &vec![
            Region { base: 0x10_0000, length: 0x1_0000, usable: true },
            Region { base: 0x20_0000, length: 0x1_0000, usable: false },
        ],
    );
    f
}

fn memory() -> Memory {
    let mut m = Memory::new();
    frames::init(&mut m.frames, &vec![Region { base: 0x10_0000, length: 0x100_0000, usable: true }]);
    m
}

#[test]
fn frames_are_handed_out_once() {
    let mut f = table();
    assert_eq!(frames::stats(&f).total, 16);
    assert_eq!(frames::stats(&f).regions, 1);
    let mut got = Vec::new();
    while let Some(p) = frames::alloc_frame(&mut f) {
        assert_eq!(p % 4096, 0);
        assert!(!got.contains(&p));
        got.push(p);
    }
    assert_eq!(got.len(), 16);
    assert_eq!(got[0], 0x10_0000);
    frames::free(&mut f, got[5]);
    assert_eq!(frames::alloc_frame(&mut f), Some(got[5]));
    assert_eq!(frames::alloc_contig(&mut f, 1), None);
}

#[test]
fn shared_frames_are_released_last() {
    let mut f = table();
    let p = frames::alloc_frame(&mut f).unwrap();
    assert_eq!(frames::ref_of(&f, p), 0);
    frames::add_ref(&mut f, p);
    assert_eq!(frames::ref_of(&f, p), 1);
    assert_eq!(frames::shared_count(&f), 1);
    assert!(!frames::release(&mut f, p));
    assert!(frames::release(&mut f, p));
    assert_eq!(frames::stats(&f).used, 0);
    assert_eq!(frames::alloc_contig(&mut f, 4), Some(0x10_0000));
}

#[test]
fn the_heap() {
    let mut a = GlmAlloc::new();
    assert!(a.allocate(16, 8).is_none());
    let mut f = FrameTable::new();
    frames::init(&mut f, &vec![Region { base: 0x10_0000, length: 0x500_0000, usable: true }]);
    assert!(heap::stats(&a).is_none());
    assert!(heap::init(&mut a, &mut f, 0xFFFF_8000_0000_0000));
    let p = a.allocate(100, 16).unwrap();
    let q = a.allocate(5000, 4096).unwrap();
    let r = a.allocate(1, 1).unwrap();
    assert_eq!(p % 16, 0);
    assert_eq!(q % 4096, 0);
    assert!(q >= p + 100 || p >= q + 5000);
    assert!(r >= p + 100 || p > r);
    let s = heap::stats(&a).unwrap();
    assert_eq!((s.allocs, s.frees, s.fails), (3, 0, 1));
    a.dealloc(q);
    a.dealloc(p);
    a.dealloc(r);
    let s = heap::stats(&a).unwrap();
    assert_eq!((s.allocs, s.frees, s.allocated), (3, 3, 0));
    // nothing is at 0
    a.dealloc(0);
    let s = heap::stats(&a).unwrap();
    assert_eq!((s.allocs, s.frees, s.allocated), (3, 3, 0));
    assert_eq!(a.allocate(100, 16), Some(p));
    assert!(a.allocate(0x8000_0000, 16).is_none());
}

#[test]
fn mapped_pages_translate() {
    let mut m = memory();
    let s = AddressSpace::new_user(&mut m).unwrap();
    assert_eq!(s.translate(&m, 0x40_0000), None);
    let p = frames::alloc_frame(&mut m.frames).unwrap();
    let q = frames::alloc_frame(&mut m.frames).unwrap();
    assert_eq!(s.map(&mut m, 0x40_0000, p, PRESENT | WRITABLE | USER), Ok(()));
    assert_eq!(s.translate(&m, 0x40_0000), Some(p));
    assert_eq!(s.translate(&m, 0x40_0ABC), Some(p + 0xABC));
    assert_eq!(s.map(&mut m, 0x7FFF_0000_0000, q, PRESENT | USER), Ok(()));
    assert_eq!(s.translate(&m, 0x40_0ABC), Some(p + 0xABC));
    assert_eq!(s.map(&mut m, 0x40_0000, q, PRESENT), Err("map: page already mapped"));
    assert_eq!(s.map(&mut m, 0x40_0001, q, PRESENT), Err("map: addresses must be page-aligned"));
    assert_eq!(s.map(&mut m, vmm::KERNEL_HALF_BASE, q, PRESENT), Err("map: refusing to touch the kernel half"));
    assert_eq!(s.unmap(&mut m, 0x40_0000), Some(p));
    assert_eq!(s.translate(&m, 0x40_0000), None);
    assert_eq!(s.unmap(&mut m, 0x40_0000), None);
    assert_eq!(s.translate(&m, 0x7FFF_0000_0000), Some(q));
}

#[test]
fn large_pages_translate() {
    let mut m = memory();
    let s = AddressSpace::new_user(&mut m).unwrap();
    let t3 = frames::alloc_frame(&mut m.frames).unwrap();
    m.ram.set_word(s.pml4, 0, t3 | 7);
    m.ram.set_word(t3, 1, 0x4000_0000 | HUGE | 7);
    assert_eq!(s.translate(&m, 0x4123_4567), Some(0x4123_4567));
    let t2 = frames::alloc_frame(&mut m.frames).unwrap();
    m.ram.set_word(t3, 0, t2 | 7);
    m.ram.set_word(t2, 1, 0x60_0000 | HUGE | 7);
    assert_eq!(s.translate(&m, 0x20_1234), Some(0x60_1234));
    assert_eq!(s.map(&mut m, 0x4000_0000, 0x1000, 7), Err("map: huge page where a table was expected"));
}

#[test]
fn a_fork_shares_until_it_is_written() {
    let mut m = memory();
    let s = AddressSpace::new_user(&mut m).unwrap();
    let p = frames::alloc_frame(&mut m.frames).unwrap();
    s.map(&mut m, 0x40_0000, p, PRESENT | WRITABLE | USER).unwrap();
    write_user_bytes(&mut m, &s, 0x40_0010, b"shared").unwrap();
    let (c, stale) = s.fork_cow(&mut m);
    let c = c.unwrap();
    assert_eq!(stale, vec![0x40_0000]);
    assert_eq!(c.translate(&m, 0x40_0000), Some(p));
    assert_eq!(s.translate(&m, 0x40_0000), Some(p));
    assert_eq!(frames::ref_of(&m.frames, p), 1);
    // the child writes: it gets a copy
    assert!(vmm::cow_resolve(&mut m, c.pml4, 0x40_0010));
    let q = c.translate(&m, 0x40_0000).unwrap();
    assert!(q != p);
    assert_eq!(read_user_bytes(&m, &c, 0x40_0010, 6), Ok(b"shared".to_vec()));
    write_user_bytes(&mut m, &c, 0x40_0010, b"child!").unwrap();
    assert_eq!(read_user_bytes(&m, &s, 0x40_0010, 6), Ok(b"shared".to_vec()));
    // the parent writes: nobody else has the frame any more
    assert!(vmm::cow_resolve(&mut m, s.pml4, 0x40_0010));
    assert_eq!(s.translate(&m, 0x40_0000), Some(p));
    assert!(!vmm::cow_resolve(&mut m, s.pml4, 0x40_0010));
    assert!(!vmm::cow_resolve(&mut m, s.pml4, 0x50_0000));
    assert_eq!(vmm::cow_stats(&m), (1, 1, 2));
    let before = frames::stats(&m.frames).used;
    assert_eq!(c.destroy(&mut m), 1);
    assert!(frames::stats(&m.frames).used < before);
    let _ = PTE_COW;
}

#[test]
fn a_fork_that_fails_names_the_pages_it_marked() {
    let mut m = memory();
    let s = AddressSpace::new_user(&mut m).unwrap();
    let p = frames::alloc_frame(&mut m.frames).unwrap();
    let q = frames::alloc_frame(&mut m.frames).unwrap();
    s.map(&mut m, 0x40_0000, p, PRESENT | WRITABLE | USER).unwrap();
    s.map(&mut m, 0x7FFF_0000_0000, q, PRESENT | WRITABLE | USER).unwrap();
    // room for a root and the tables of the first page
    let mut taken = Vec::new();
    while let Some(f) = frames::alloc_frame(&mut m.frames) {
        taken.push(f);
    }
    for _ in 0..4 {
        frames::free(&mut m.frames, taken.pop().unwrap());
    }
    let (c, stale) = s.fork_cow(&mut m);
    assert!(c.is_none());
    assert_eq!(stale, vec![0x40_0000]);
    assert_eq!(s.translate(&m, 0x40_0000), Some(p));
    // without room for a root nothing is marked
    let (c, stale) = s.fork_cow(&mut m);
    assert!(c.is_none());
    assert!(stale.is_empty());
}

#[test]
fn mapping_and_unmapping_touch_one_page() {
    let mut m = memory();
    let s = AddressSpace::new_user(&mut m).unwrap();
    let p = frames::alloc_frame(&mut m.frames).unwrap();
    let q = frames::alloc_frame(&mut m.frames).unwrap();
    s.map(&mut m, 0x40_0000, p, PRESENT | USER).unwrap();
    s.map(&mut m, 0x40_1000, q, PRESENT | USER).unwrap();
    assert_eq!(s.translate(&m, 0x40_2000), None);
    assert_eq!(s.translate(&m, 0x60_0000), None);
    assert_eq!(s.translate(&m, 0x4040_0000), None);
    let before = m.ram.word(s.pml4, 0);
    assert_eq!(s.map(&mut m, 0x40_0000, q, PRESENT | USER), Err("map: page already mapped"));
    assert_eq!(m.ram.word(s.pml4, 0), before);
    assert_eq!(s.translate(&m, 0x40_0FFF), Some(p + 0xFFF));
    assert_eq!(s.unmap(&mut m, 0x40_0000), Some(p));
    assert_eq!(s.translate(&m, 0x40_0000), None);
    assert_eq!(s.unmap(&mut m, 0x40_0000), None);
    assert_eq!(s.translate(&m, 0x40_1234), Some(q + 0x234));
}

#[test]
fn memory_at_boot() {
    let m = Memory::new();
    let st = frames::stats(&m.frames);
    assert_eq!((st.total, st.used, st.regions), (0, 0, 0));
    assert_eq!(vmm::cow_stats(&m), (0, 0, 0));
}

#[test]
fn user_memory_reads_back() {
    let mut m = memory();
    let s = AddressSpace::new_user(&mut m).unwrap();
    let p = frames::alloc_frame(&mut m.frames).unwrap();
    let q = frames::alloc_frame(&mut m.frames).unwrap();
    s.map(&mut m, 0x40_0000, q, 7).unwrap();
    s.map(&mut m, 0x40_1000, p, 7).unwrap();
    let data: Vec<u8> = (0..100).collect();
    assert_eq!(write_user_bytes(&mut m, &s, 0x40_0FC0, &data), Ok(()));
    assert_eq!(read_user_bytes(&m, &s, 0x40_0FC0, 100), Ok(data));
    assert_eq!(m.ram.byte(p), 64);
    assert_eq!(read_user_bytes(&m, &s, 0x40_1FFF, 2), Err(()));
    assert_eq!(write_user_bytes(&mut m, &s, 0x40_2000, b"x"), Err(()));
}

#[test]
fn physical_memory() {
    let mut r = PhysMem::new();
    assert_eq!(r.word(0x5000, 3), 0);
    r.set_word(0x5000, 3, 0x1122334455667788);
    assert_eq!(r.byte(0x5018), 0x88);
    assert_eq!(r.byte(0x501F), 0x11);
    r.set_byte(0x5019, 0xFF);
    assert_eq!(r.word(0x5000, 3), 0x112233445566FF88);
    r.copy_frame(0x5000, 0x6000);
    assert_eq!(r.word(0x6000, 3), 0x112233445566FF88);
    r.clear(0x5000);
    assert_eq!(r.word(0x5000, 3), 0);
}

#[test]
fn the_kernel_half() {
    let mut m = memory();
    let k = AddressSpace::new_user(&mut m).unwrap();
    vmm::init(&mut m, k.pml4 | 0xFFF);
    assert_eq!(vmm::kernel_cr3(&m), k.pml4);
    assert_eq!(vmm::map_kernel_page(&mut m, vmm::LAPIC_VIRT, 0xFEE0_0000, 0x13), Ok(()));
    assert_eq!(k.translate(&m, vmm::LAPIC_VIRT + 0x20), Some(0xFEE0_0020));
    assert_eq!(
        vmm::map_kernel_page(&mut m, 0x1000, 0x1000, 3),
        Err("map_kernel: refusing to touch the user half")
    );
    // spaces made later share it
    let u = AddressSpace::new_user(&mut m).unwrap();
    assert_eq!(u.translate(&m, vmm::LAPIC_VIRT), Some(0xFEE0_0000));
    assert_eq!((vmm::align_down(0x1FFF), vmm::align_up(0x1001)), (0x1000, 0x2000));
}

#[test]
fn the_self_test_passes() {
    let mut m = memory();
    let (_, rig) = vmm::self_test(&mut m);
    let rig = rig.unwrap();
    let (_, ok) = vmm::self_test_finish(&mut m, rig, vmm::MAGIC);
    assert!(ok);
    let (_, rig) = vmm::self_test(&mut m);
    let (_, ok) = vmm::self_test_finish(&mut m, rig.unwrap(), 0);
    assert!(!ok);
}

#[test]
fn the_direct_map() {
    let mut d = DirectMap { offset: 0 };
    paging::init(&mut d, 0xFFFF_8000_0000_0000);
    assert_eq!(paging::hhdm_offset(&d), 0xFFFF_8000_0000_0000);
    assert_eq!(paging::phys_to_virt(&d, 0x1000), 0xFFFF_8000_0000_1000);
    let (s, n) = paging::flags_str(PRESENT | WRITABLE | USER | NO_EXECUTE);
    assert!(n <= 4);
    assert!(s[..n].contains(&b'W'));
    let mut m = memory();
    let u = AddressSpace::new_user(&mut m).unwrap();
    m.ram.set_word(u.pml4, 5, 0x7007);
    let d0 = DirectMap { offset: 0 };
    assert_eq!(paging::describe(&d0, &m, u.pml4), (u.pml4, 1));
    assert_eq!(paging::dump(&m, u.pml4, 6).len(), 2);
}

#[test]
fn shootdowns_wait_for_all() {
    let mut s = Smp::new();
    smp::init(&mut s, 7, &Some(vec![7, 9]));
    smp::report_in(&mut s, 0);
    smp::report_in(&mut s, 1);
    let mut t = Tlb { acks: 5 };
    let ids = tlb::shootdown_all_others(&mut t, &s, true, 0);
    assert_eq!(ids, vec![9]);
    assert!(matches!(tlb::wait_step(&t, 1, 0), Wait::Again));
    tlb::on_ipi(&mut t);
    assert!(matches!(tlb::wait_step(&t, 1, 0), Wait::Done));
    assert!(tlb::shootdown_all_others(&mut t, &s, false, 0).is_empty());
}

#[test]
fn a_torn_down_child_leaves_the_parent_its_pages() {
    let mut m = memory();
    let s = AddressSpace::new_user(&mut m).unwrap();
    let p = frames::alloc_frame(&mut m.frames).unwrap();
    s.map(&mut m, 0x40_0000, p, PRESENT | WRITABLE | USER).unwrap();
    let used = frames::stats(&m.frames).used;
    let c = s.fork_cow(&mut m).0.unwrap();
    assert_eq!(frames::ref_of(&m.frames, p), 1);
    assert_eq!(c.destroy(&mut m), 1);
    assert_eq!(frames::ref_of(&m.frames, p), 0);
    assert_eq!(s.translate(&m, 0x40_0000), Some(p));
    assert_eq!(frames::stats(&m.frames).used, used);
}

#[test]
fn the_frame_at_zero_is_never_handed_out() {
    let mut f = FrameTable::new();
    frames::init(&mut f, &vec![Region { base: 0, length: 0x4000, usable: true }]);
    assert_eq!(frames::stats(&f).total, 3);
    assert_eq!(frames::alloc_frame(&mut f), Some(0x1000));
    assert_eq!(frames::alloc_frame(&mut f), Some(0x2000));
    assert_eq!(frames::alloc_frame(&mut f), Some(0x3000));
    assert_eq!(frames::alloc_frame(&mut f), None);
}
