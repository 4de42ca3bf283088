//! Descriptor tables, one set for each processor. Every processor has a task
//! state segment of its own: the stack for entries from user mode and the
//! double-fault stack differ.

use vstd::prelude::*;

verus! {

pub const MAX_CPUS: usize = 8;

pub const KERNEL_CODE: u16 = 0x08;

pub const KERNEL_DATA: u16 = 0x10;

pub const USER_CODE: u16 = 0x18;

pub const USER_DATA: u16 = 0x20;

pub const TSS_SEL: u16 = 0x28;

/// The user selectors with the privilege level of user mode.
pub const USER_CODE_RPL3: u16 = 0x1B;

pub const USER_DATA_RPL3: u16 = 0x23;

/// Bytes of the stack for entries from user mode before tasks run.
pub const RSP0_STACK_SIZE: u64 = 0x4000;

/// Bytes of the double-fault stack.
pub const DF_STACK_SIZE: u64 = 0x4000;

/// Bytes of a task state segment.
pub const TSS_SIZE: u64 = 104;

/// Bytes of a descriptor table.
pub const GDT_SIZE: u64 = 56;

/// What the kernel sets in a task state segment.
#[derive(Clone, Copy)]
pub struct Tss {
    pub rsp0: u64,
    pub ist1: u64,
    pub iopb: u16,
}

/// A descriptor table.
#[derive(Clone, Copy)]
pub struct Gdt {
    pub null: u64,
    pub code: u64,
    pub data: u64,
    pub ucode: u64,
    pub udata: u64,
    pub tss_lo: u64,
    pub tss_hi: u64,
}

/// The tables of all processors.
pub struct Tables {
    pub tss: Vec<Tss>,
    pub gdt: Vec<Gdt>,
}

/// A table with the flat segments and no task state segment.
pub open spec fn flat_gdt() -> Gdt {
    Gdt {
        null: 0,
        code: 0x00AF_9A00_0000_FFFF,
        data: 0x00CF_9200_0000_FFFF,
        ucode: 0x00AF_FA00_0000_FFFF,
        udata: 0x00CF_F200_0000_FFFF,
        tss_lo: 0,
        tss_hi: 0,
    }
}

impl Tables {
    pub open spec fn wf(&self) -> bool {
        self.tss@.len() == MAX_CPUS && self.gdt@.len() == MAX_CPUS
    }

    pub fn new() -> (t: Tables)
        ensures
            t.wf(),
            forall|i: int| 0 <= i < MAX_CPUS ==> #[trigger] t.tss@[i] == (Tss { rsp0: 0, ist1: 0, iopb: 104 }),
            forall|i: int| 0 <= i < MAX_CPUS ==> #[trigger] t.gdt@[i] == flat_gdt(),
    {
        let mut tss: Vec<Tss> = Vec::new();
        let mut gdt: Vec<Gdt> = Vec::new();
        let mut i: usize = 0;
        while i < MAX_CPUS
            invariant
                i <= MAX_CPUS,
                tss@.len() == i,
                gdt@.len() == i,
                forall|j: int| 0 <= j < i ==> #[trigger] tss@[j] == (Tss { rsp0: 0, ist1: 0, iopb: 104 }),
                forall|j: int| 0 <= j < i ==> #[trigger] gdt@[j] == flat_gdt(),
            decreases MAX_CPUS - i,
        {
            tss.push(Tss { rsp0: 0, ist1: 0, iopb: 104 });
            gdt.push(
                Gdt {
                    null: 0,
                    code: 0x00AF_9A00_0000_FFFF,
                    data: 0x00CF_9200_0000_FFFF,
                    ucode: 0x00AF_FA00_0000_FFFF,
                    udata: 0x00CF_F200_0000_FFFF,
                    tss_lo: 0,
                    tss_hi: 0,
                },
            );
            i = i + 1;
        }
        Tables { tss, gdt }
    }
}

/// The low half of a system descriptor of an available 64-bit task state
/// segment.
pub open spec fn tss_low(base: u64, limit: u64) -> u64 {
    (limit & 0xFFFF) | ((base & 0xFFFF) << 16) | (((base >> 16) & 0xFF) << 32) | (0x89u64 << 40) | (((limit >> 16) & 0xF)
        << 48) | (((base >> 24) & 0xFF) << 56)
}

/// The high half of the descriptor.
pub open spec fn tss_high(base: u64) -> u64 {
    (base >> 32) & 0xFFFF_FFFF
}

fn build_tss_descriptor(base: u64, limit: u64) -> (r: (u64, u64))
    ensures
        r == (tss_low(base, limit), tss_high(base)),
{
    let lo: u64 = (limit & 0xFFFF) | ((base & 0xFFFF) << 16) | (((base >> 16) & 0xFF) << 32) | (0x89u64 << 40) | (((limit
        >> 16) & 0xF) << 48) | (((base >> 24) & 0xFF) << 56);
    let hi: u64 = (base >> 32) & 0xFFFF_FFFF;
    (lo, hi)
}

/// The base address that a system descriptor names, from its four parts.
pub open spec fn described_base(lo: u64, hi: u64) -> u64 {
    ((lo >> 16) & 0xFFFF) | (((lo >> 32) & 0xFF) << 16) | (((lo >> 56) & 0xFF) << 24) | ((hi & 0xFFFF_FFFF) << 32)
}

/// The limit that a system descriptor names, from its two parts.
pub open spec fn described_limit(lo: u64) -> u64 {
    (lo & 0xFFFF) | (((lo >> 48) & 0xF) << 16)
}

/// A descriptor names the base and the limit that it was built from, and is
/// that of a present task state segment.
pub proof fn law_descriptor_names_base_and_limit(base: u64, limit: u64)
    requires
        limit < 0x10_0000,
    ensures
        described_base(tss_low(base, limit), tss_high(base)) == base,
        described_limit(tss_low(base, limit)) == limit,
        (tss_low(base, limit) >> 40) & 0xFF == 0x89,
{
    let lo = (limit & 0xFFFF) | ((base & 0xFFFF) << 16) | (((base >> 16) & 0xFF) << 32) | (0x89u64 << 40) | (((limit
        >> 16) & 0xF) << 48) | (((base >> 24) & 0xFF) << 56);
    let hi = (base >> 32) & 0xFFFF_FFFF;
    assert(((lo >> 16) & 0xFFFF) | (((lo >> 32) & 0xFF) << 16) | (((lo >> 56) & 0xFF) << 24) | ((hi & 0xFFFF_FFFF)
        << 32) == base && (lo & 0xFFFF) | (((lo >> 48) & 0xF) << 16) == limit && (lo >> 40) & 0xFF == 0x89)
        by (bit_vector)
        requires
            lo == (limit & 0xFFFF) | ((base & 0xFFFF) << 16) | (((base >> 16) & 0xFF) << 32) | (0x89u64 << 40) | (((limit
                >> 16) & 0xF) << 48) | (((base >> 24) & 0xFF) << 56),
            hi == (base >> 32) & 0xFFFF_FFFF,
            limit < 0x10_0000,
    ;
}

/// Points the stack for entries from user mode of a processor at the running
/// task's kernel stack.
pub fn set_rsp0(t: &mut Tables, cpu: usize, top: u64)
    requires
        old(t).wf(),
        cpu < MAX_CPUS,
    ensures
        final(t).wf(),
        final(t).gdt == old(t).gdt,
        final(t).tss@ == old(t).tss@.update(cpu as int, Tss { rsp0: top, ..old(t).tss@[cpu as int] }),
{
    let mut x = t.tss[cpu];
    x.rsp0 = top;
    t.tss.set(cpu, x);
}

/// Fills the tables of a processor in: `tss_base` is where its task state
/// segment lies, `stack` and `df_stack` where its two stacks start. Gives the
/// limit to load the descriptor table with.
pub fn init_cpu(t: &mut Tables, cpu: usize, tss_base: u64, stack: u64, df_stack: u64) -> (limit: u16)
    requires
        old(t).wf(),
        cpu < MAX_CPUS,
        stack + RSP0_STACK_SIZE <= u64::MAX,
        df_stack + DF_STACK_SIZE <= u64::MAX,
    ensures
        final(t).wf(),
        limit == GDT_SIZE - 1,
        final(t).tss@ == old(t).tss@.update(
            cpu as int,
            Tss { rsp0: (stack + RSP0_STACK_SIZE) as u64, ist1: (df_stack + DF_STACK_SIZE) as u64, iopb: 104 },
        ),
        final(t).gdt@ == old(t).gdt@.update(
            cpu as int,
            Gdt {
                tss_lo: tss_low(tss_base, (TSS_SIZE - 1) as u64),
                tss_hi: tss_high(tss_base),
                ..old(t).gdt@[cpu as int]
            },
        ),
{
    let (lo, hi) = build_tss_descriptor(tss_base, TSS_SIZE - 1);
    let mut x = t.tss[cpu];
    x.rsp0 = stack + RSP0_STACK_SIZE;
    x.ist1 = df_stack + DF_STACK_SIZE;
    x.iopb = 104;
    t.tss.set(cpu, x);
    let mut g = t.gdt[cpu];
    g.tss_lo = lo;
    g.tss_hi = hi;
    t.gdt.set(cpu, g);
    (GDT_SIZE - 1) as u16
}

/// Fills the tables of the boot processor in.
pub fn init(t: &mut Tables, tss_base: u64, stack: u64, df_stack: u64) -> (limit: u16)
    requires
        old(t).wf(),
        stack + RSP0_STACK_SIZE <= u64::MAX,
        df_stack + DF_STACK_SIZE <= u64::MAX,
    ensures
        final(t).wf(),
        limit == GDT_SIZE - 1,
        final(t).tss@ == old(t).tss@.update(
            0,
            Tss { rsp0: (stack + RSP0_STACK_SIZE) as u64, ist1: (df_stack + DF_STACK_SIZE) as u64, iopb: 104 },
        ),
        final(t).gdt@ == old(t).gdt@.update(
            0,
            Gdt {
                tss_lo: tss_low(tss_base, (TSS_SIZE - 1) as u64),
                tss_hi: tss_high(tss_base),
                ..old(t).gdt@[0]
            },
        ),
{
    init_cpu(t, 0, tss_base, stack, df_stack)
}

} // verus!
