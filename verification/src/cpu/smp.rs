//! Several processors. Each is known by an index: the boot processor is 0,
//! the others follow in the order in which the bootloader lists them. The
//! state of a processor stands under its index.

use vstd::prelude::*;

use crate::cpu::gdt::MAX_CPUS;

verus! {

/// The identifier of a processor that is not there.
pub const NO_LAPIC: u32 = 0xFFFF_FFFF;

/// The vector of the test interrupt between processors.
pub const TEST_VECTOR: u8 = 0x70;

/// How many ticks a released processor has to report in.
pub const AP_PATIENCE: u64 = 300;

/// One processor.
#[derive(Clone, Copy)]
pub struct Cpu {
    pub lapic_id: u32,
    /// Slot of the running task.
    pub current: usize,
    pub switch_requested: bool,
    pub switches: u64,
    /// Slot of the idle task that is pinned here.
    pub kidle: usize,
    pub ipis: u64,
}

/// All processors.
pub struct Smp {
    pub cpus: Vec<Cpu>,
    pub count: usize,
    /// Whether each processor is running.
    pub up: Vec<bool>,
}

pub open spec fn absent() -> Cpu {
    Cpu {
        lapic_id: NO_LAPIC,
        current: usize::MAX,
        switch_requested: false,
        switches: 0,
        kidle: usize::MAX,
        ipis: 0,
    }
}

#[verifier::ext_equal]
pub struct SmpV {
    pub cpus: Seq<Cpu>,
    pub count: usize,
    pub up: Seq<bool>,
}

impl SmpV {
    /// The processors with one of them changed.
    pub open spec fn with_cpu(self, i: int, c: Cpu) -> SmpV {
        SmpV { cpus: self.cpus.update(i, c), ..self }
    }
}

/// The processors with a switch requested on one.
pub open spec fn asked(p: SmpV, cpu: int) -> SmpV {
    p.with_cpu(cpu, Cpu { switch_requested: true, ..p.cpus[cpu] })
}

impl Smp {
    pub open spec fn view(&self) -> SmpV {
        SmpV { cpus: self.cpus@, count: self.count, up: self.up@ }
    }

    pub open spec fn wf(&self) -> bool {
        self.cpus@.len() == MAX_CPUS && self.up@.len() == MAX_CPUS
    }

    pub fn new() -> (s: Smp)
        ensures
            s.wf(),
            s.count == 0,
            forall|i: int| 0 <= i < MAX_CPUS ==> #[trigger] s.cpus@[i] == absent(),
            forall|i: int| 0 <= i < MAX_CPUS ==> !#[trigger] s.up@[i],
    {
        let mut cpus: Vec<Cpu> = Vec::new();
        let mut up: Vec<bool> = Vec::new();
        let mut i: usize = 0;
        while i < MAX_CPUS
            invariant
                i <= MAX_CPUS,
                cpus@.len() == i,
                up@.len() == i,
                forall|j: int| 0 <= j < i ==> #[trigger] cpus@[j] == absent(),
                forall|j: int| 0 <= j < i ==> !#[trigger] up@[j],
            decreases MAX_CPUS - i,
        {
            cpus.push(
                Cpu {
                    lapic_id: NO_LAPIC,
                    current: usize::MAX,
                    switch_requested: false,
                    switches: 0,
                    kidle: usize::MAX,
                    ipis: 0,
                },
            );
            up.push(false);
            i = i + 1;
        }
        Smp { cpus, count: 0, up }
    }
}

/// How many processors there are.
pub fn cpu_count(s: &Smp) -> (r: usize)
    ensures
        r == s.count,
{
    s.count
}

/// The bits of the first `n` processors that run.
pub open spec fn mask_of(up: Seq<bool>, n: int) -> int
    decreases n,
{
    if n <= 0 {
        0
    } else {
        mask_of(up, n - 1) + if up[n - 1] {
            vstd::arithmetic::power2::pow2((n - 1) as nat) as int
        } else {
            0
        }
    }
}

/// The running processors as a bit mask.
pub fn online_mask(s: &Smp) -> (r: usize)
    requires
        s.wf(),
    ensures
        r == mask_of(s.up@, MAX_CPUS as int),
{
    let mut r: usize = 0;
    let mut bit: usize = 1;
    let mut i: usize = 0;
    proof {
        vstd::arithmetic::power2::lemma2_to64();
    }
    while i < MAX_CPUS
        invariant
            i <= MAX_CPUS,
            s.wf(),
            bit == vstd::arithmetic::power2::pow2(i as nat),
            bit <= 256,
            r < bit,
            r == mask_of(s.up@, i as int),
        decreases MAX_CPUS - i,
    {
        proof {
            vstd::arithmetic::power2::lemma2_to64();
            vstd::arithmetic::power2::lemma_pow2_unfold((i + 1) as nat);
        }
        if s.up[i] {
            r = r + bit;
        }
        bit = bit * 2;
        i = i + 1;
        assert(i == 1 ==> bit == 2);
        assert(bit <= 256) by {
            assert(i <= 8);
            if i < 8 {
                vstd::arithmetic::power2::lemma_pow2_strictly_increases(i as nat, 8);
            }
        }
    }
    r
}

/// The task switches of a processor.
pub fn cpu_switches(s: &Smp, cpu: usize) -> (r: u64)
    requires
        s.wf(),
        cpu < MAX_CPUS,
    ensures
        r == s.cpus@[cpu as int].switches,
{
    s.cpus[cpu].switches
}

/// The test interrupts that a processor received.
pub fn ipi_recv(s: &Smp, cpu: usize) -> (r: u64)
    requires
        s.wf(),
        cpu < MAX_CPUS,
    ensures
        r == s.cpus@[cpu as int].ipis,
{
    s.cpus[cpu].ipis
}

/// The identifier of a processor.
pub fn lapic_id_of(s: &Smp, cpu: usize) -> (r: u32)
    requires
        s.wf(),
        cpu < MAX_CPUS,
    ensures
        r == s.cpus@[cpu as int].lapic_id,
{
    s.cpus[cpu].lapic_id
}

/// The slot of the task that runs on a processor.
pub fn current_task_idx(s: &Smp, cpu: usize) -> (r: usize)
    requires
        s.wf(),
        cpu < MAX_CPUS,
    ensures
        r == s.cpus@[cpu as int].current,
{
    s.cpus[cpu].current
}

pub open spec fn has_id(id: u32) -> spec_fn(Cpu) -> bool {
    |c: Cpu| c.lapic_id == id
}

/// The index of the processor with an identifier, if there is one.
pub fn index_of(s: &Smp, id: u32) -> (r: Option<usize>)
    requires
        s.wf(),
    ensures
        match (r, crate::seqs::first(s.cpus@, has_id(id))) {
            (Some(i), Some(j)) => i == j && i < MAX_CPUS,
            (None, None) => true,
            _ => false,
        },
{
    let mut i: usize = 0;
    while i < MAX_CPUS
        invariant
            i <= MAX_CPUS,
            s.wf(),
            crate::seqs::first_from(s.cpus@, has_id(id), i as int) == crate::seqs::first(s.cpus@, has_id(id)),
        decreases MAX_CPUS - i,
    {
        if s.cpus[i].lapic_id == id {
            return Some(i);
        }
        i = i + 1;
    }
    None
}

/// The index of the processor that asks: 0 before the APIC is on, else the
/// one with the identifier that it read, else 0.
pub open spec fn cpu_index_spec(cpus: Seq<Cpu>, apic_on: bool, id: u32) -> int {
    if !apic_on {
        0
    } else {
        match crate::seqs::first(cpus, has_id(id)) {
            Some(i) => i,
            None => 0,
        }
    }
}

pub fn cpu_index(s: &Smp, apic_on: bool, id: u32) -> (r: usize)
    requires
        s.wf(),
    ensures
        r == cpu_index_spec(s.cpus@, apic_on, id),
        r < MAX_CPUS,
{
    if !apic_on {
        return 0;
    }
    match index_of(s, id) {
        Some(i) => i,
        None => 0,
    }
}

/// Asks a processor to switch tasks.
pub fn request_switch(s: &mut Smp, cpu: usize)
    requires
        old(s).wf(),
        cpu < MAX_CPUS,
    ensures
        final(s).wf(),
        final(s)@ == asked(old(s)@, cpu as int),
{
    let mut c = s.cpus[cpu];
    c.switch_requested = true;
    s.cpus.set(cpu, c);
}

/// Takes the request of a processor, if there is one.
pub fn take_switch_request(s: &mut Smp, cpu: usize) -> (r: bool)
    requires
        old(s).wf(),
        cpu < MAX_CPUS,
    ensures
        final(s).wf(),
        r == old(s)@.cpus[cpu as int].switch_requested,
        final(s)@ == old(s)@.with_cpu(
            cpu as int,
            Cpu { switch_requested: false, ..old(s)@.cpus[cpu as int] },
        ),
{
    let mut c = s.cpus[cpu];
    let r = c.switch_requested;
    c.switch_requested = false;
    s.cpus.set(cpu, c);
    r
}

/// Notes which task runs on a processor.
pub fn set_current_task(s: &mut Smp, cpu: usize, slot: usize)
    requires
        old(s).wf(),
        cpu < MAX_CPUS,
    ensures
        final(s).wf(),
        final(s)@ == old(s)@.with_cpu(cpu as int, Cpu { current: slot, ..old(s)@.cpus[cpu as int] }),
{
    let mut c = s.cpus[cpu];
    c.current = slot;
    s.cpus.set(cpu, c);
}

/// Counts a task switch.
pub fn count_switch(s: &mut Smp, cpu: usize)
    requires
        old(s).wf(),
        cpu < MAX_CPUS,
    ensures
        final(s).wf(),
        final(s)@ == old(s)@.with_cpu(
            cpu as int,
            Cpu { switches: old(s)@.cpus[cpu as int].switches.wrapping_add(1), ..old(s)@.cpus[cpu as int] },
        ),
{
    let mut c = s.cpus[cpu];
    c.switches = c.switches.wrapping_add(1);
    s.cpus.set(cpu, c);
}

/// Counts a test interrupt on the processor that received it.
pub fn on_ipi_received(s: &mut Smp, apic_on: bool, id: u32)
    requires
        old(s).wf(),
    ensures
        final(s).wf(),
        ({
            let i = cpu_index_spec(old(s).cpus@, apic_on, id);
            final(s)@ == old(s)@.with_cpu(
                i,
                Cpu { ipis: old(s)@.cpus[i].ipis.wrapping_add(1), ..old(s)@.cpus[i] },
            )
        }),
{
    let cpu: usize = cpu_index(s, apic_on, id);
    let mut c = s.cpus[cpu];
    c.ipis = c.ipis.wrapping_add(1);
    s.cpus.set(cpu, c);
}

pub open spec fn test_ipi_spec(s: Smp, to: usize) -> Result<(u32, u8), Seq<char>> {
    if to >= MAX_CPUS || s.cpus@[to as int].lapic_id == NO_LAPIC {
        Err("no such cpu"@)
    } else if !s.up@[to as int] {
        Err("cpu not online"@)
    } else {
        Ok((s.cpus@[to as int].lapic_id, TEST_VECTOR))
    }
}

/// Where the test interrupt to a processor goes, and its vector.
pub fn send_test_ipi(s: &Smp, to: usize) -> (r: Result<(u32, u8), &'static str>)
    requires
        s.wf(),
    ensures
        crate::text::told(r, test_ipi_spec(*s, to)),
{
    if to >= MAX_CPUS || s.cpus[to].lapic_id == NO_LAPIC {
        return Err("no such cpu");
    }
    if !s.up[to] {
        return Err("cpu not online");
    }
    Ok((s.cpus[to].lapic_id, TEST_VECTOR))
}

/// How many of the first `k` identifiers are not the boot processor's.
pub open spec fn others(ids: Seq<u32>, bsp: u32, k: int) -> int
    decreases k,
{
    if k <= 0 {
        0
    } else {
        others(ids, bsp, k - 1) + if ids[k - 1] != bsp {
            1int
        } else {
            0int
        }
    }
}

/// The index of the `k`-th identifier of the list.
pub open spec fn assigned(ids: Seq<u32>, bsp: u32, k: int) -> int {
    if ids[k] == bsp {
        0
    } else {
        others(ids, bsp, k) + 1
    }
}

/// The processors once the first `k` of the list were entered.
pub open spec fn entered(cpus: Seq<Cpu>, ids: Seq<u32>, bsp: u32, k: int) -> Seq<Cpu>
    decreases k,
{
    if k <= 0 {
        cpus
    } else {
        let c = entered(cpus, ids, bsp, k - 1);
        let i = assigned(ids, bsp, k - 1);
        c.update(i, Cpu { lapic_id: ids[k - 1], ..c[i] })
    }
}

proof fn lemma_others(ids: Seq<u32>, bsp: u32, k: int, n: int)
    requires
        0 <= k <= n,
    ensures
        0 <= others(ids, bsp, k) <= others(ids, bsp, n),
    decreases n,
{
    if k < n {
        lemma_others(ids, bsp, k, n - 1);
    } else if k > 0 {
        lemma_others(ids, bsp, k - 1, k - 1);
    }
}

/// Enters the processors that the bootloader lists: the boot processor's
/// identifier and those of all of them. Without an answer there is one.
pub fn init(s: &mut Smp, bsp: u32, ids: &Option<Vec<u32>>)
    requires
        old(s).wf(),
        ids matches Some(v) ==> others(v@, bsp, v@.len() as int) < MAX_CPUS,
    ensures
        final(s).wf(),
        match *ids {
            None => *final(s) == (Smp { count: 1, ..*old(s) }),
            Some(v) => {
                &&& final(s).cpus@ == entered(old(s).cpus@, v@, bsp, v@.len() as int)
                &&& final(s).count == (if v@.len() < MAX_CPUS {
                    v@.len()
                } else {
                    MAX_CPUS as nat
                })
                &&& final(s).up@ == Seq::new(MAX_CPUS as nat, |i: int| i == 0)
            },
        },
{
    match ids {
        None => {
            s.count = 1;
        },
        Some(v) => {
            let n: usize = v.len();
            let mut next: usize = 0;
            let mut k: usize = 0;
            while k < n
                invariant
                    n == v@.len(),
                    k <= n,
                    s.wf(),
                    others(v@, bsp, n as int) < MAX_CPUS,
                    next == others(v@, bsp, k as int),
                    next < MAX_CPUS,
                    s.cpus@ == entered(old(s).cpus@, v@, bsp, k as int),
                    s.up == old(s).up,
                decreases n - k,
            {
                let id: u32 = v[k];
                proof {
                    lemma_others(v@, bsp, k + 1, n as int);
                }
                let idx: usize = if id == bsp {
                    0
                } else {
                    next + 1
                };
                let mut c = s.cpus[idx];
                c.lapic_id = id;
                s.cpus.set(idx, c);
                if id != bsp {
                    next = next + 1;
                }
                k = k + 1;
            }
            s.count = if n < MAX_CPUS {
                n
            } else {
                MAX_CPUS
            };
            let mut up: Vec<bool> = Vec::new();
            let mut i: usize = 0;
            while i < MAX_CPUS
                invariant
                    i <= MAX_CPUS,
                    up@.len() == i,
                    forall|j: int| 0 <= j < i ==> #[trigger] up@[j] == (j == 0),
                decreases MAX_CPUS - i,
            {
                up.push(i == 0);
                i = i + 1;
            }
            assert(up@ =~= Seq::new(MAX_CPUS as nat, |i: int| i == 0));
            s.up = up;
        },
    }
}

/// The processors to release, with their identifiers, of the first `k` of the
/// list: all but the boot processor that have an index.
pub open spec fn to_release(cpus: Seq<Cpu>, ids: Seq<u32>, bsp: u32, k: int) -> Seq<(usize, u32)>
    decreases k,
{
    if k <= 0 {
        Seq::empty()
    } else {
        let v = to_release(cpus, ids, bsp, k - 1);
        match crate::seqs::first(cpus, has_id(ids[k - 1])) {
            Some(i) if ids[k - 1] != bsp => v.push((i as usize, ids[k - 1])),
            _ => v,
        }
    }
}

/// The processors to release, in order. Each gets an idle task pinned to it
/// before it is let go; one for which there is no task stays where it is.
pub fn start_aps(s: &Smp, bsp: u32, ids: &Vec<u32>) -> (r: Vec<(usize, u32)>)
    requires
        s.wf(),
    ensures
        r@ == to_release(s.cpus@, ids@, bsp, ids@.len() as int),
{
    let n: usize = ids.len();
    let mut r: Vec<(usize, u32)> = Vec::new();
    let mut k: usize = 0;
    while k < n
        invariant
            n == ids@.len(),
            k <= n,
            s.wf(),
            r@ == to_release(s.cpus@, ids@, bsp, k as int),
        decreases n - k,
    {
        let id: u32 = ids[k];
        if id != bsp {
            match index_of(s, id) {
                Some(i) => {
                    r.push((i, id));
                },
                None => {},
            }
        }
        k = k + 1;
    }
    r
}

/// Notes the idle task that is pinned to a processor.
pub fn stage_kidle(s: &mut Smp, cpu: usize, slot: usize)
    requires
        old(s).wf(),
        cpu < MAX_CPUS,
    ensures
        final(s).wf(),
        final(s)@ == old(s)@.with_cpu(cpu as int, Cpu { kidle: slot, ..old(s)@.cpus[cpu as int] }),
{
    let mut c = s.cpus[cpu];
    c.kidle = slot;
    s.cpus.set(cpu, c);
}

/// Whether to wait on for a released processor: it has not reported in, and
/// its time is not up.
pub fn keep_waiting(s: &Smp, cpu: usize, t0: u64, now: u64) -> (r: bool)
    requires
        s.wf(),
        cpu < MAX_CPUS,
    ensures
        r == (!s.up@[cpu as int] && now < t0 + AP_PATIENCE),
{
    let gone: u64 = if now >= t0 {
        now - t0
    } else {
        0
    };
    !s.up[cpu] && gone < AP_PATIENCE
}

/// Where a released processor begins: its index, 0 if it has none, and the
/// slot of its idle task, if one was staged. Without one it halts.
pub fn ap_entry(s: &Smp, id: u32) -> (r: (usize, Option<usize>))
    requires
        s.wf(),
    ensures
        r.0 == cpu_index_spec(s.cpus@, true, id),
        r.0 < MAX_CPUS,
        r.1 == (if s.cpus@[r.0 as int].kidle == usize::MAX {
            None
        } else {
            Some(s.cpus@[r.0 as int].kidle)
        }),
{
    let idx: usize = cpu_index(s, true, id);
    let slot: usize = s.cpus[idx].kidle;
    if slot == usize::MAX {
        (idx, None)
    } else {
        (idx, Some(slot))
    }
}

/// A processor reports in.
pub fn report_in(s: &mut Smp, cpu: usize)
    requires
        old(s).wf(),
        cpu < MAX_CPUS,
    ensures
        final(s).wf(),
        final(s)@ == (SmpV { up: old(s)@.up.update(cpu as int, true), ..old(s)@ }),
{
    s.up.set(cpu, true);
}

/// A processor finds its own index by its identifier, if no processor before
/// it has the same one.
pub proof fn law_index_is_the_processors(cpus: Seq<Cpu>, i: int)
    requires
        cpus.len() == MAX_CPUS,
        0 <= i < MAX_CPUS,
        forall|j: int| 0 <= j < i ==> (#[trigger] cpus[j]).lapic_id != cpus[i].lapic_id,
    ensures
        cpu_index_spec(cpus, true, cpus[i].lapic_id) == i,
{
    crate::seqs::lemma_first_is(cpus, has_id(cpus[i].lapic_id), 0, i);
}

} // verus!
