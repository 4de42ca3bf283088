//! What a program finds when it starts: its stack, and the arguments that it
//! was called with.

use vstd::prelude::*;

use crate::mem::vmm::MemV;

verus! {

/// Page `i` below the top of the stack.
pub open spec fn stack_page(i: int) -> int {
    0x7_FFFF_FFFE - i
}

/// The stack of a program: the 16 pages below 0x7FFF_FFFF_F000, each in a frame
/// of its own, all zero; no other page of the space moves or changes.
pub proof fn law_program_has_a_stack(m: MemV, pml4: u64)
    requires
        crate::user::elf_laws::pages_apart(m, pml4),
        forall|i: int| 0 <= i < 16 ==> #[trigger] crate::user::elf_laws::page_at(m, pml4, stack_page(i)) is None,
        crate::user::task::map_stack(m, pml4, 0).1 is Ok,
    ensures
        ({
            let n = crate::user::task::map_stack(m, pml4, 0).0;
            &&& crate::user::elf_laws::pages_apart(n, pml4)
            &&& forall|i: int| 0 <= i < 16 ==> crate::user::elf_laws::page_blank(n, pml4, #[trigger] stack_page(i))
            &&& forall|r: int|
                0 <= r < 0x7_FFFF_FFEF ==> #[trigger] crate::user::elf_laws::page_kept(m, n, pml4, r)
        }),
{
    lemma_stack(m, pml4, 0);
}

#[verifier::spinoff_prover]
proof fn lemma_stack(m: MemV, pml4: u64, i: int)
    requires
        crate::user::elf_laws::pages_apart(m, pml4),
        0 <= i <= 16,
        forall|j: int| i <= j < 16 ==> #[trigger] crate::user::elf_laws::page_at(m, pml4, stack_page(j)) is None,
        crate::user::task::map_stack(m, pml4, i).1 is Ok,
    ensures
        ({
            let n = crate::user::task::map_stack(m, pml4, i).0;
            &&& crate::user::elf_laws::pages_apart(n, pml4)
            &&& forall|j: int| i <= j < 16 ==> crate::user::elf_laws::page_blank(n, pml4, #[trigger] stack_page(j))
            &&& forall|r: int|
                0 <= r < 0x8_0000_0000 && !(0x7_FFFF_FFEF <= r <= stack_page(i)) ==> #[trigger] crate::user::elf_laws::page_kept(
                    m,
                    n,
                    pml4,
                    r,
                )
        }),
    decreases 16 - i,
{
    let n = crate::user::task::map_stack(m, pml4, i).0;
    if i < 16 {
        let q = stack_page(i);
        assert(crate::user::elf_laws::page_at(m, pml4, q) is None);
        let flags = crate::user::task::stack_flags();
        assert(((1u64 | 2) | 4) | 0x8000_0000_0000_0000 == 0x8000_0000_0000_0007 && 0x8000_0000_0000_0007u64 & 1 != 0
            && 0x8000_0000_0000_0007u64 & 0x000F_FFFF_FFFF_F000 == 0) by (bit_vector);
        assert(0x0000_7FFF_FFFF_F000 - (i + 1) * 4096 == q * 4096);
        crate::user::elf_laws::lemma_new_page(m, pml4, q, flags);
        let f = crate::mem::frames::alloc_spec(m.frames).1->Some_0;
        let m1 = crate::mem::vmm::map_spec(
            MemV { frames: crate::mem::frames::alloc_spec(m.frames).0, ..m },
            pml4,
            (q * 4096) as u64,
            f,
            flags,
        ).0;
        let m2 = MemV { ram: crate::mem::phys::cleared(m1.ram, f), ..m1 };
        assert forall|j: int| i + 1 <= j < 16 implies #[trigger] crate::user::elf_laws::page_at(
            m2,
            pml4,
            stack_page(j),
        ) is None by {
            assert(crate::user::elf_laws::page_kept(m, m2, pml4, stack_page(j)));
            assert(crate::user::elf_laws::page_at(m, pml4, stack_page(j)) is None);
        }
        lemma_stack(m2, pml4, i + 1);
        assert forall|j: int| i <= j < 16 implies crate::user::elf_laws::page_blank(n, pml4, #[trigger] stack_page(j)) by {
            if j == i {
                assert(crate::user::elf_laws::page_blank(m2, pml4, q));
                assert(crate::user::elf_laws::page_kept(m2, n, pml4, q));
            }
        }
        assert forall|r: int|
            0 <= r < 0x8_0000_0000 && !(0x7_FFFF_FFEF <= r <= stack_page(i)) implies #[trigger] crate::user::elf_laws::page_kept(
            m,
            n,
            pml4,
            r,
        ) by {
            assert(crate::user::elf_laws::page_kept(m, m2, pml4, r));
            assert(crate::user::elf_laws::page_kept(m2, n, pml4, r));
        }
    } else {
        assert forall|r: int| 0 <= r < 0x8_0000_0000 implies #[trigger] crate::user::elf_laws::page_kept(m, n, pml4, r) by {}
    }
}

// ---------------------------------------------------------------------------
// Arguments in a block
// ---------------------------------------------------------------------------
/// Arguments as a program hands them to the kernel: each with its length
/// before it, four bytes, low byte first.
pub open spec fn packed(args: Seq<Seq<u8>>, i: int) -> Seq<u8>
    decreases args.len() - i,
{
    if i < 0 || i >= args.len() {
        Seq::empty()
    } else {
        seq![
            (args[i].len() % 256) as u8,
            (args[i].len() / 256 % 256) as u8,
            (args[i].len() / 0x1_0000 % 256) as u8,
            (args[i].len() / 0x100_0000 % 256) as u8,
        ] + args[i] + packed(args, i + 1)
    }
}

/// The kernel reads from a block the arguments that were packed into it: their
/// number first, then one after the other.
pub proof fn law_packed_arguments_are_read(args: Seq<Seq<u8>>)
    requires
        0 < args.len() <= crate::user::task::spawn_limits::MAX_ARGC,
        forall|i: int|
            0 <= i < args.len() ==> (#[trigger] args[i]).len() <= crate::user::task::spawn_limits::MAX_ARG
                && vstd::utf8::valid_utf8(args[i]),
    ensures
        crate::user::exec::block_spec(seq![args.len() as u8, 0u8, 0u8, 0u8] + packed(args, 0)) == Some(args),
{
    let head = seq![args.len() as u8, 0u8, 0u8, 0u8];
    let b = head + packed(args, 0);
    assert(args.take(0) =~= Seq::<Seq<u8>>::empty());
    lemma_block(args, 0, head, Seq::empty());
    assert(b[0] == args.len() && b[1] == 0 && b[2] == 0 && b[3] == 0);
}

#[verifier::spinoff_prover]
proof fn lemma_block(args: Seq<Seq<u8>>, i: int, before: Seq<u8>, got: Seq<Seq<u8>>)
    requires
        args.len() <= crate::user::task::spawn_limits::MAX_ARGC,
        forall|j: int|
            0 <= j < args.len() ==> (#[trigger] args[j]).len() <= crate::user::task::spawn_limits::MAX_ARG
                && vstd::utf8::valid_utf8(args[j]),
        0 <= i <= args.len(),
        got == args.take(i),
    ensures
        crate::user::exec::block_args(before + packed(args, i), before.len() as int, args.len() - i, got) == Some(args),
    decreases args.len() - i,
{
    let b = before + packed(args, i);
    if i < args.len() {
        let a = args[i];
        let l = a.len() as int;
        let size = seq![
            (l % 256) as u8,
            (l / 256 % 256) as u8,
            (l / 0x1_0000 % 256) as u8,
            (l / 0x100_0000 % 256) as u8,
        ];
        let off = before.len() as int;
        assert(packed(args, i) =~= size + a + packed(args, i + 1));
        assert(b[off] == size[0] && b[off + 1] == size[1] && b[off + 2] == size[2] && b[off + 3] == size[3]);
        assert(crate::bytes::rd_le4(b, off) == l);
        assert(b.subrange(off + 4, off + 4 + l) =~= a);
        let next = before + size + a;
        assert(next + packed(args, i + 1) =~= b);
        assert(got.push(a) =~= args.take(i + 1));
        lemma_block(args, i + 1, next, got.push(a));
    } else {
        assert(args.take(i) =~= args);
    }
}

} // verus!
