//! What a program may rely on when a signal interrupts it.

use vstd::prelude::*;

use crate::cpu::idt::Regs;
use crate::mem::vmm::MemV;
use crate::sched::TaskV;
use crate::user::signal::SigFrame;

verus! {

proof fn lemma_first_word(f: SigFrame)
    requires
        f.restorer == 0x7FFF_F000,
    ensures
        crate::user::signal::frame_bytes(f).subrange(0, 8) == seq![
            0x00u8,
            0xF0,
            0xFF,
            0x7F,
            0x00,
            0x00,
            0x00,
            0x00,
        ],
{
    let w = crate::user::signal::frame_words(f);
    assert(w.len() == 21 && w[0] == 0x7FFF_F000);
    crate::user::signal::lemma_words(w, 21, 0);
    assert(crate::bytes::le8(0x7FFF_F000) =~= seq![0x00u8, 0xF0, 0xFF, 0x7F, 0x00, 0x00, 0x00, 0x00]);
}

/// A handler starts with the number of the signal as its argument, on the
/// stack of the program below what may be in use there, with the address of
/// the code that returns from it on top.
#[verifier::spinoff_prover]
pub proof fn law_handler_starts(t: TaskV, m: MemV, sig: u64, handler: u64)
    requires
        crate::mem::vmm_laws::sound(m),
        t.user_space is Some,
        t.saved is Some,
        t.sig_depth < 255,
        t.saved->Some_0.rsp >= 0x200,
        crate::user::uaccess::own_range(
            m,
            t.user_space->Some_0.pml4,
            crate::user::signal::frame_va(t.saved->Some_0.rsp),
            168,
        ),
    ensures
        ({
            let r = t.saved->Some_0;
            let (u, n, ok) = crate::user::signal::enter_spec(t, m, sig, handler);
            let sp = u.saved->Some_0.rsp;
            &&& ok
            &&& u.saved == Some(Regs { rip: handler, rdi: sig, rsi: 0, rdx: 0, rax: 0, rsp: sp, ..r })
            &&& sp + 168 + 128 <= r.rsp
            &&& sp % 16 == 8
            &&& crate::user::uaccess::user_bytes(n, t.user_space->Some_0.pml4, sp, 168).subrange(0, 8) == seq![
                0x00u8,
                0xF0,
                0xFF,
                0x7F,
                0x00,
                0x00,
                0x00,
                0x00,
            ]
            &&& u.sig_depth == t.sig_depth + 1
            &&& u.pid == t.pid && u.state == t.state && u.user_space == t.user_space
        }),
{
    let r = t.saved->Some_0;
    let f = crate::user::signal::frame_for(r, sig);
    let b = crate::user::signal::frame_bytes(f);
    let va = crate::user::signal::frame_va(r.rsp);
    crate::user::signal::law_frame_round_trip(f);
    crate::user::signal::law_handler_stack(r.rsp);
    crate::user::uaccess::law_written_bytes_read_back(m, t.user_space->Some_0.pml4, va, b);
    lemma_first_word(f);
}

/// A handler that returns puts its program back where it was: every register
/// of the program has the value that it had when the signal came.
#[verifier::spinoff_prover]
pub proof fn law_program_goes_on(t: TaskV, m: MemV, sig: u64, handler: u64, cr3: u64, now: Regs)
    requires
        crate::mem::vmm_laws::sound(m),
        t.user_space is Some,
        t.user_space->Some_0.pml4 == crate::mem::vmm::frame_of(cr3),
        t.saved is Some,
        t.sig_depth < 255,
        t.saved->Some_0.rsp >= 0x200,
        crate::user::signal::frame_va(t.saved->Some_0.rsp) != 0,
        crate::user::uaccess::own_range(
            m,
            crate::mem::vmm::frame_of(cr3),
            crate::user::signal::frame_va(t.saved->Some_0.rsp),
            168,
        ),
    ensures
        ({
            let (u, n, _) = crate::user::signal::enter_spec(t, m, sig, handler);
            let back = crate::user::signal::sigreturn_spec(u, n, cr3, now);
            &&& back is Some
            &&& back->Some_0.1 == Regs { cs: now.cs, ss: now.ss, ..t.saved->Some_0 }
            &&& back->Some_0.0.sig_depth == t.sig_depth
        }),
{
    let r = t.saved->Some_0;
    let f = crate::user::signal::frame_for(r, sig);
    let b = crate::user::signal::frame_bytes(f);
    crate::user::signal::law_frame_round_trip(f);
    crate::user::uaccess::law_written_bytes_read_back(
        m,
        crate::mem::vmm::frame_of(cr3),
        crate::user::signal::frame_va(r.rsp),
        b,
    );
}

/// Without a handler that runs there is nothing to return from.
pub proof fn law_no_handler_no_return(t: TaskV, m: MemV, cr3: u64, now: Regs)
    requires
        t.sig_frame_va == 0 || t.sig_depth == 0,
    ensures
        crate::user::signal::sigreturn_spec(t, m, cr3, now) is None,
{
}

pub proof fn lemma_code(ram: Map<u64, Seq<u64>>, pa: u64, b: Seq<u8>, i: int, at: u64)
    requires
        forall|f: u64| ram.dom().contains(f) ==> (#[trigger] ram[f]).len() == 512,
        0 <= i <= b.len(),
        pa % 4096 == 0,
        b.len() <= 4096,
        pa + 4096 <= u64::MAX,
    ensures
        ({
            let n = crate::user::signal::laid(ram, pa, b, i);
            &&& forall|f: u64| n.dom().contains(f) ==> (#[trigger] n[f]).len() == 512
            &&& crate::mem::phys::byte_at(n, at) == if pa + i <= at < pa + b.len() {
                b[at - pa]
            } else {
                crate::mem::phys::byte_at(ram, at)
            }
        }),
    decreases b.len() - i,
{
    if i < b.len() {
        let at1 = (pa + i) as u64;
        let m = crate::mem::phys::with_byte_at(ram, at1, b[i]);
        crate::mem::phys::lemma_byte_write(ram, at1, b[i], at);
        assert(crate::mem::phys::frame_at(ram, at1 / 4096).len() == 512);
        assert forall|f: u64| m.dom().contains(f) implies (#[trigger] m[f]).len() == 512 by {
            if f != at1 / 4096 {
                assert(ram.dom().contains(f));
            }
        }
        lemma_code(m, pa, b, i + 1, at);
    }
}

pub proof fn lemma_beside(ram: Map<u64, Seq<u64>>, pa: u64, b: Seq<u8>, i: int, u: u64, j: int)
    requires
        0 <= i <= b.len(),
        pa % 4096 == 0,
        b.len() <= 4096,
        pa + 4096 <= u64::MAX,
        u / 4096 != pa / 4096,
    ensures
        crate::mem::phys::word_at(crate::user::signal::laid(ram, pa, b, i), u, j) == crate::mem::phys::word_at(ram, u, j),
    decreases b.len() - i,
{
    if i < b.len() {
        let at1 = (pa + i) as u64;
        assert(at1 / 4096 == pa / 4096);
        lemma_beside(crate::mem::phys::with_byte_at(ram, at1, b[i]), pa, b, i + 1, u, j);
    }
}

/// The flags of the return page: present, and no part of an address.
pub proof fn lemma_return_flags()
    ensures
        crate::mem::vmm::present(5),
        crate::mem::vmm::frame_of(5) == 0,
{
    assert(5u64 & 1 != 0 && 5u64 & 0x000F_FFFF_FFFF_F000 == 0) by (bit_vector);
}

/// The code that a handler returns to, in every program at 0x7FFF_F000: it
/// puts 10, the number of the call that ends a handler, into `eax` and makes
/// the call.
#[verifier::spinoff_prover]
pub proof fn law_return_code(m: MemV, pml4: u64, i: int)
    requires
        crate::user::elf_laws::pages_apart(m, pml4),
        crate::user::elf_laws::page_at(m, pml4, 0x7_FFFF) is None,
        crate::user::signal::map_trampoline_spec(m, pml4).1 is Ok,
        0 <= i < 7,
    ensures
        crate::user::elf_laws::held(crate::user::signal::map_trampoline_spec(m, pml4).0, pml4, 0x7FFF_F000 + i) == Some(
            seq![0xB8u8, 10, 0, 0, 0, 0xCD, 0x80][i],
        ),
{
    let va = 0x7FFF_F000u64;
    let f = crate::mem::frames::alloc_spec(m.frames).1->Some_0;
    let m0 = MemV { frames: crate::mem::frames::alloc_spec(m.frames).0, ..m };
    crate::mem::frames::law_alloc_hands_out_a_free_frame(m.frames);
    crate::user::elf_laws::lemma_taken(m, pml4, f);
    assert(0x7_FFFF * 4096 == va);
    assert(crate::mem::vmm_laws::no_large_page(m0, pml4, va));
    crate::mem::tree_laws::law_map_keeps_other_pages(m0, pml4, va, f, 5);
    crate::mem::tree_laws::lemma_walk_reserved(m0, pml4, va);
    crate::user::elf_laws::lemma_frame(f);
    lemma_return_flags();
    let m1 = crate::mem::vmm::map_spec(m0, pml4, va, f, 5).0;
    assert(crate::mem::tree_laws::off_tree(m1, pml4, f));
    let code = crate::user::signal::trampoline();
    let n = MemV { ram: crate::user::signal::laid(m1.ram, f, code, 0), ..m1 };
    let at = (f + i) as u64;
    lemma_code(m1.ram, f, code, 0, at);
    assert(crate::mem::vmm_laws::sound(n));
    assert forall|u: u64, j: int|
        #![trigger n.entry(u, j)]
        u / 4096 != f / 4096 && 0 <= j < 512 implies n.entry(u, j) == m1.entry(u, j) by {
        lemma_beside(m1.ram, f, code, 0, u, j);
    }
    crate::user::elf_laws::lemma_written_beside(m1, n, pml4, f);
    crate::mem::vmm_laws::law_mapped_page_translates(m0, pml4, va, f, 5, i as u64);
}

} // verus!
