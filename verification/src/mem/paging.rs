//! Paging introspection: the direct map, and what the PML4 holds.

use vstd::prelude::*;
use vstd::string::StringExecFns;

use crate::console::{nothing, say, Out, OutV};
use crate::mem::vmm::{MemV, Memory, NO_EXECUTE, PRESENT, PTE_FRAME_MASK, USER, WRITABLE};
use crate::text::{push_dec_zeros, push_hex_zeros};

verus! {

/// The direct map: physical address plus offset is the virtual address.
pub struct DirectMap {
    pub offset: u64,
}

/// Remembers the offset of the direct map.
pub fn init(d: &mut DirectMap, hhdm_offset: u64)
    ensures
        final(d).offset == hhdm_offset,
{
    d.offset = hhdm_offset;
}

/// The offset of the direct map.
pub fn hhdm_offset(d: &DirectMap) -> (r: u64)
    ensures
        r == d.offset,
{
    d.offset
}

/// Where a physical address is seen.
pub fn phys_to_virt(d: &DirectMap, phys: u64) -> (r: u64)
    requires
        phys + d.offset <= u64::MAX,
    ensures
        r == phys + d.offset,
{
    phys + d.offset
}

/// The letters of an entry's flags: present, writable, user, no-execute.
pub open spec fn flag_letters(e: u64) -> Seq<u8> {
    (if e & PRESENT != 0 {
        seq![80u8]
    } else {
        Seq::empty()
    }) + (if e & WRITABLE != 0 {
        seq![87u8]
    } else {
        Seq::empty()
    }) + (if e & USER != 0 {
        seq![85u8]
    } else {
        Seq::empty()
    }) + (if e & NO_EXECUTE != 0 {
        seq![78u8]
    } else {
        Seq::empty()
    })
}

/// The flags of an entry as letters at the start of a buffer that is dashes
/// otherwise, and how many there are.
pub fn flags_str(e: u64) -> (r: ([u8; 5], usize))
    ensures
        r.1 == flag_letters(e).len(),
        r.1 <= 4,
        r.0@.take(r.1 as int) == flag_letters(e),
        forall|i: int| r.1 <= i < 5 ==> #[trigger] r.0@[i] == 45,
{
    let mut buf: [u8; 5] = [45u8; 5];
    let mut n: usize = 0;
    if e & PRESENT != 0 {
        buf[n] = 80;
        n = n + 1;
    }
    if e & WRITABLE != 0 {
        buf[n] = 87;
        n = n + 1;
    }
    if e & USER != 0 {
        buf[n] = 85;
        n = n + 1;
    }
    if e & NO_EXECUTE != 0 {
        buf[n] = 78;
        n = n + 1;
    }
    assert(buf@.take(n as int) =~= flag_letters(e));
    (buf, n)
}

/// How many of the first `n` entries of the table at `t` are present.
pub open spec fn present_in(m: MemV, t: u64, n: int) -> nat
    decreases n,
{
    if n <= 0 {
        0
    } else {
        present_in(m, t, n - 1) + if crate::mem::vmm::present(m.entry(t, n - 1)) {
            1nat
        } else {
            0nat
        }
    }
}

/// Where the PML4 that `cr3` names is seen, and how many of its entries are
/// present.
pub fn describe(d: &DirectMap, m: &Memory, cr3: u64) -> (r: (u64, usize))
    requires
        m.wf(),
        crate::mem::vmm::frame_of(cr3) + d.offset <= u64::MAX,
    ensures
        r.0 == crate::mem::vmm::frame_of(cr3) + d.offset,
        r.1 == present_in(m@, crate::mem::vmm::frame_of(cr3), 512),
{
    let t: u64 = cr3 & PTE_FRAME_MASK;
    let mut mapped: usize = 0;
    let mut i: usize = 0;
    while i < 512
        invariant
            i <= 512,
            m.wf(),
            mapped <= i,
            mapped == present_in(m@, t, i as int),
        decreases 512 - i,
    {
        if m.ram.word(t, i) & PRESENT != 0 {
            mapped = mapped + 1;
        }
        i = i + 1;
    }
    (phys_to_virt(d, t), mapped)
}

/// The line of entry `i` with the value `e`.
pub open spec fn entry_line(i: int, e: u64) -> OutV {
    crate::console::plain(
        "      ["@ + crate::text::zeros_in(crate::text::dec_text(i as nat), 3) + "]       0x"@ + crate::text::zeros_in(
            crate::text::hex_text(crate::mem::vmm::frame_of(e) as nat, false),
            16,
        ) + "  "@ + flag_letters(e).map_values(|b: u8| b as char) + "\n"@,
    )
}

/// The lines of the first `n` present entries from `i` on.
pub open spec fn entry_lines(m: MemV, t: u64, i: int, n: nat) -> Seq<OutV>
    decreases 512 - i,
{
    if i < 0 || i >= 512 || n == 0 {
        Seq::empty()
    } else if crate::mem::vmm::present(m.entry(t, i)) {
        seq![entry_line(i, m.entry(t, i))] + entry_lines(m, t, i + 1, (n - 1) as nat)
    } else {
        entry_lines(m, t, i + 1, n)
    }
}

fn say_entry(v: &mut Vec<Out>, i: usize, e: u64)
    ensures
        crate::console::outs(final(v)@) == crate::console::outs(old(v)@).push(entry_line(i as int, e)),
{
    let mut s: String = "      [".to_owned();
    push_dec_zeros(&mut s, i as u64, 3);
    s.append("]       0x");
    push_hex_zeros(&mut s, e & PTE_FRAME_MASK, 16);
    s.append("  ");
    let (buf, n) = flags_str(e);
    let ghost s0 = s@;
    let mut k: usize = 0;
    while k < n
        invariant
            k <= n,
            n <= 4,
            n == flag_letters(e).len(),
            buf@.take(n as int) == flag_letters(e),
            s@ == s0 + flag_letters(e).map_values(|b: u8| b as char).take(k as int),
        decreases n - k,
    {
        assert(buf@[k as int] == buf@.take(n as int)[k as int]);
        crate::text::push_char(&mut s, crate::text::latin1(buf[k]));
        k = k + 1;
        assert(s@ =~= s0 + flag_letters(e).map_values(|b: u8| b as char).take(k as int));
    }
    assert(flag_letters(e).map_values(|b: u8| b as char).take(n as int) =~= flag_letters(e).map_values(
        |b: u8| b as char,
    ));
    s.append("\n");
    say(v, s);
}

/// The first `limit` present entries of the PML4 that `cr3` names; at least
/// one, if there is any.
pub fn dump(m: &Memory, cr3: u64, limit: usize) -> (v: Vec<Out>)
    requires
        m.wf(),
    ensures
        crate::console::outs(v@) == seq![
            crate::console::plain("      pml4 entry  address            flags\n"@),
        ] + entry_lines(
            m@,
            crate::mem::vmm::frame_of(cr3),
            0,
            if limit == 0 {
                1
            } else {
                limit as nat
            },
        ),
{
    let t: u64 = cr3 & PTE_FRAME_MASK;
    let mut v = nothing();
    say(&mut v, "      pml4 entry  address            flags\n".to_owned());
    let mut left: usize = if limit == 0 {
        1
    } else {
        limit
    };
    let ghost all = crate::console::outs(v@) + entry_lines(m@, t, 0, left as nat);
    let mut i: usize = 0;
    while i < 512 && left > 0
        invariant
            i <= 512,
            m.wf(),
            crate::console::outs(v@) + entry_lines(m@, t, i as int, left as nat) == all,
        decreases 512 - i,
    {
        let e: u64 = m.ram.word(t, i);
        let ghost before = crate::console::outs(v@);
        if e & PRESENT != 0 {
            say_entry(&mut v, i, e);
            left = left - 1;
            assert(crate::console::outs(v@) + entry_lines(m@, t, i + 1, left as nat) =~= before + (seq![
                entry_line(i as int, e),
            ] + entry_lines(m@, t, i + 1, left as nat)));
        }
        i = i + 1;
    }
    assert(crate::console::outs(v@) + Seq::<OutV>::empty() =~= crate::console::outs(v@));
    assert(all =~= seq![crate::console::plain("      pml4 entry  address            flags\n"@)] + entry_lines(
        m@,
        t,
        0,
        if limit == 0 {
            1
        } else {
            limit as nat
        },
    ));
    v
}

} // verus!
