//! Physical frame allocator: a bitmap over the memory map, one bit per frame
//! of 4 KiB, set where the frame is reserved. A rotating hint keeps single
//! allocations cheap.
//!
//! Beside the bitmap stands a counter per frame for copy-on-write sharing. It
//! holds the owners minus one: zero is a private frame, which a release frees
//! at once; from one on the frame is shared, and a release only drops a share.

use vstd::prelude::*;

verus! {

/// Bytes in a frame.
pub const FRAME: usize = 4096;

/// Frames that the bitmap covers: 1 GiB of physical memory.
pub const MAX_FRAMES: usize = 0x4_0000;

/// Words of the bitmap.
pub const WORDS: usize = 0x1000;

/// A range of the firmware's memory map.
#[derive(Clone, Copy)]
pub struct Region {
    pub base: u64,
    pub length: u64,
    pub usable: bool,
}

/// Figures for the shell and the monitor.
pub struct Stats {
    pub total: usize,
    pub used: usize,
    pub regions: usize,
}

/// The frame allocator.
pub struct FrameTable {
    bits: Vec<u64>,
    refs: Vec<u32>,
    total: usize,
    used: usize,
    regions: usize,
    hint: usize,
}

/// What the allocator holds.
#[verifier::ext_equal]
pub struct FramesV {
    /// Whether each frame is reserved.
    pub taken: Seq<bool>,
    /// The shares of each frame beyond the first.
    pub refs: Seq<u32>,
    pub total: usize,
    pub used: usize,
    pub regions: usize,
    /// The bitmap word where the next search starts.
    pub hint: usize,
}

impl FramesV {
    pub open spec fn wf(self) -> bool {
        &&& self.taken.len() == MAX_FRAMES
        &&& self.refs.len() == MAX_FRAMES
        &&& self.hint < WORDS
    }
}

/// Bit `b` of a bitmap word.
pub open spec fn bit(w: u64, b: u64) -> bool {
    (w >> b) & 1 == 1
}

proof fn lemma_bit_set(w: u64, b: u64, j: u64)
    requires
        b < 64,
        j < 64,
    ensures
        bit(w | (1u64 << b), j) == (j == b || bit(w, j)),
{
    assert((((w | (1u64 << b)) >> j) & 1 == 1) == (j == b || (w >> j) & 1 == 1)) by (bit_vector)
        requires
            b < 64,
            j < 64,
    ;
}

proof fn lemma_bit_clear(w: u64, b: u64, j: u64)
    requires
        b < 64,
        j < 64,
    ensures
        bit(w & !(1u64 << b), j) == (j != b && bit(w, j)),
{
    assert((((w & !(1u64 << b)) >> j) & 1 == 1) == (j != b && (w >> j) & 1 == 1)) by (bit_vector)
        requires
            b < 64,
            j < 64,
    ;
}

proof fn lemma_bits_full(b: u64)
    requires
        b < 64,
    ensures
        bit(0xFFFF_FFFF_FFFF_FFFF, b),
{
    assert((0xFFFF_FFFF_FFFF_FFFFu64 >> b) & 1 == 1) by (bit_vector)
        requires
            b < 64,
    ;
}

/// The first free frame at distance `j` or more after `start`, wrapping round.
pub open spec fn next_free(taken: Seq<bool>, start: int, j: int) -> Option<int>
    decreases MAX_FRAMES - j,
{
    if j < 0 || j >= MAX_FRAMES {
        None
    } else if !taken[(start + j) % (MAX_FRAMES as int)] {
        Some((start + j) % (MAX_FRAMES as int))
    } else {
        next_free(taken, start, j + 1)
    }
}

proof fn lemma_wrapped(start: int, off: int, b: int)
    requires
        0 <= start < 0x1000,
        0 <= off < 0x1000,
        0 <= b < 64,
    ensures
        ((start + off) % 0x1000) * 64 + b == (start * 64 + (off * 64 + b)) % 0x4_0000,
{
    if start + off < 0x1000 {
        vstd::arithmetic::div_mod::lemma_small_mod((start + off) as nat, 0x1000);
        vstd::arithmetic::div_mod::lemma_small_mod((start * 64 + (off * 64 + b)) as nat, 0x4_0000);
    } else {
        vstd::arithmetic::div_mod::lemma_fundamental_div_mod_converse(start + off, 0x1000, 1, start + off - 0x1000);
        vstd::arithmetic::div_mod::lemma_fundamental_div_mod_converse(
            start * 64 + (off * 64 + b),
            0x4_0000,
            1,
            start * 64 + (off * 64 + b) - 0x4_0000,
        );
    }
}

/// One frame is taken: the first free one from the hint on.
pub open spec fn alloc_spec(f: FramesV) -> (FramesV, Option<u64>) {
    match next_free(f.taken, f.hint * 64, 0) {
        None => (f, None),
        Some(i) => (
            FramesV {
                taken: f.taken.update(i, true),
                used: f.used.wrapping_add(1),
                hint: (i / 64) as usize,
                ..f
            },
            Some((i * 4096) as u64),
        ),
    }
}

/// The frames `b .. b + n` are there and free.
pub open spec fn run_free(taken: Seq<bool>, b: int, n: int) -> bool {
    &&& 0 <= b
    &&& b + n <= taken.len()
    &&& forall|i: int| b <= i < b + n ==> !#[trigger] taken[i]
}

/// The lowest run of `n` free frames is at `b`.
pub open spec fn lowest_run(taken: Seq<bool>, b: int, n: int) -> bool {
    &&& run_free(taken, b, n)
    &&& forall|c: int| 0 <= c < b ==> !#[trigger] run_free(taken, c, n)
}

/// The lowest run of `n` free frames from `b` on.
pub open spec fn first_run(taken: Seq<bool>, b: int, n: int) -> Option<int>
    decreases taken.len() - b,
{
    if b < 0 || n < 0 || b >= taken.len() || b + n > taken.len() {
        None
    } else if run_free(taken, b, n) {
        Some(b)
    } else {
        first_run(taken, b + 1, n)
    }
}

proof fn lemma_first_run(taken: Seq<bool>, b: int, n: int, at: int)
    requires
        0 <= b <= at,
        n > 0,
        lowest_run(taken, at, n),
    ensures
        first_run(taken, b, n) == Some(at),
    decreases at - b,
{
    if b < at {
        assert(!run_free(taken, b, n));
        lemma_first_run(taken, b + 1, n, at);
    }
}

proof fn lemma_no_run(taken: Seq<bool>, b: int, n: int)
    requires
        0 <= b,
        n > 0,
        forall|c: int| !#[trigger] run_free(taken, c, n),
    ensures
        first_run(taken, b, n) is None,
    decreases taken.len() - b,
{
    if b < taken.len() && b + n <= taken.len() {
        assert(!run_free(taken, b, n));
        lemma_no_run(taken, b + 1, n);
    }
}

/// `n` contiguous frames are taken: the lowest run there is.
pub open spec fn contig_spec(f: FramesV, n: usize) -> (FramesV, Option<u64>) {
    if n == 0 {
        (f, None)
    } else {
        match first_run(f.taken, 0, n as int) {
            None => (f, None),
            Some(b) => (
                FramesV { taken: with_run(f.taken, b, n as int), used: f.used.wrapping_add(n), ..f },
                Some((b * 4096) as u64),
            ),
        }
    }
}

/// The bitmap with the frames `b .. b + n` taken.
pub open spec fn with_run(taken: Seq<bool>, b: int, n: int) -> Seq<bool> {
    Seq::new(taken.len(), |i: int| b <= i < b + n || taken[i])
}

/// A frame is given back.
pub open spec fn free_spec(f: FramesV, phys: u64) -> FramesV {
    let i = (phys / 4096) as int;
    if i < MAX_FRAMES {
        FramesV { taken: f.taken.update(i, false), used: f.used.wrapping_sub(1), ..f }
    } else {
        f
    }
}

/// The shares of a frame beyond the first.
pub open spec fn ref_spec(f: FramesV, phys: u64) -> u32 {
    let i = (phys / 4096) as int;
    if i < MAX_FRAMES {
        f.refs[i]
    } else {
        0
    }
}

/// A share of a frame is added.
pub open spec fn add_ref_spec(f: FramesV, phys: u64) -> FramesV {
    let i = (phys / 4096) as int;
    if i < MAX_FRAMES {
        FramesV { refs: f.refs.update(i, f.refs[i].wrapping_add(1)), ..f }
    } else {
        f
    }
}

/// A share of a frame is dropped, and with the last one the frame.
pub open spec fn release_spec(f: FramesV, phys: u64) -> (FramesV, bool) {
    let i = (phys / 4096) as int;
    if i >= MAX_FRAMES {
        (f, false)
    } else if f.refs[i] == 0 {
        (free_spec(f, phys), true)
    } else {
        (FramesV { refs: f.refs.update(i, (f.refs[i] - 1) as u32), ..f }, false)
    }
}

/// The first frame that lies whole in a region. Frame 0 is never handed out.
pub open spec fn region_start(r: Region) -> int {
    if r.base == 0 {
        1
    } else {
        (r.base + 4095) / 4096
    }
}

/// The end of the frames that lie whole in a region and under the bitmap.
pub open spec fn region_end(r: Region) -> int {
    let e = (r.base + r.length) / 4096;
    if e < MAX_FRAMES {
        e
    } else {
        MAX_FRAMES as int
    }
}

/// The allocator after the first `k` regions of the map were taken in, `t`
/// frames and `n` usable regions so far.
pub open spec fn taken_in(taken: Seq<bool>, map: Seq<Region>, k: int) -> (Seq<bool>, usize, usize)
    decreases k,
{
    if k <= 0 {
        (taken, 0, 0)
    } else {
        let (u, t, n) = taken_in(taken, map, k - 1);
        let r = map[k - 1];
        if !r.usable {
            (u, t, n)
        } else {
            let s = region_start(r);
            let e = region_end(r);
            (
                Seq::new(u.len(), |i: int| u[i] && !(s <= i < e)),
                if s < e {
                    t.wrapping_add((e - s) as usize)
                } else {
                    t
                },
                n.wrapping_add(1),
            )
        }
    }
}

/// How many of the first `n` frames are shared.
pub open spec fn shared_in(refs: Seq<u32>, n: int) -> nat
    decreases n,
{
    if n <= 0 {
        0
    } else {
        shared_in(refs, n - 1) + if refs[n - 1] >= 1 {
            1nat
        } else {
            0nat
        }
    }
}

impl FrameTable {
    /// Whether frame `i` is reserved.
    spec fn is_taken(&self, i: int) -> bool {
        bit(self.bits@[i / 64], (i % 64) as u64)
    }

    pub closed spec fn view(&self) -> FramesV {
        FramesV {
            taken: Seq::new(MAX_FRAMES as nat, |i: int| self.is_taken(i)),
            refs: self.refs@,
            total: self.total,
            used: self.used,
            regions: self.regions,
            hint: self.hint,
        }
    }

    pub closed spec fn wf(&self) -> bool {
        &&& self.bits@.len() == WORDS
        &&& self.refs@.len() == MAX_FRAMES
        &&& self.hint < WORDS
    }

    /// Well-formedness over the view.
    pub proof fn lemma_wf(&self)
        requires
            self.wf(),
        ensures
            self@.wf(),
    {
    }

    /// An allocator in which every frame is reserved.
    pub fn new() -> (f: FrameTable)
        ensures
            f.wf(),
            f@ == (FramesV {
                taken: Seq::new(MAX_FRAMES as nat, |i: int| true),
                refs: Seq::new(MAX_FRAMES as nat, |i: int| 0u32),
                total: 0,
                used: 0,
                regions: 0,
                hint: 0,
            }),
    {
        let bits: Vec<u64> = vec![0xFFFF_FFFF_FFFF_FFFFu64; WORDS];
        let refs: Vec<u32> = vec![0u32; MAX_FRAMES];
        let f = FrameTable { bits, refs, total: 0, used: 0, regions: 0, hint: 0 };
        proof {
            assert forall|i: int| 0 <= i < MAX_FRAMES implies #[trigger] f.is_taken(i) by {
                lemma_bits_full((i % 64) as u64);
            }
            assert(f@.taken =~= Seq::new(MAX_FRAMES as nat, |i: int| true));
            assert(f@.refs =~= Seq::new(MAX_FRAMES as nat, |i: int| 0u32));
        }
        f
    }

    fn mark_free(&mut self, idx: usize)
        requires
            old(self).wf(),
            idx < MAX_FRAMES,
        ensures
            final(self).wf(),
            final(self)@ == (FramesV { taken: old(self)@.taken.update(idx as int, false), ..old(self)@ }),
    {
        let w: usize = idx / 64;
        let b: u64 = (idx % 64) as u64;
        let v: u64 = self.bits[w] & !(1u64 << b);
        self.bits.set(w, v);
        proof {
            assert forall|i: int| 0 <= i < MAX_FRAMES implies self.is_taken(i) == old(self)@.taken.update(
                idx as int,
                false,
            )[i] by {
                if i / 64 == w {
                    lemma_bit_clear(old(self).bits@[w as int], b, (i % 64) as u64);
                }
                assert(old(self)@.taken[i] == old(self).is_taken(i));
            }
            assert(self@.taken =~= old(self)@.taken.update(idx as int, false));
        }
    }

    fn mark_used(&mut self, idx: usize)
        requires
            old(self).wf(),
            idx < MAX_FRAMES,
        ensures
            final(self).wf(),
            final(self)@ == (FramesV { taken: old(self)@.taken.update(idx as int, true), ..old(self)@ }),
    {
        let w: usize = idx / 64;
        let b: u64 = (idx % 64) as u64;
        let v: u64 = self.bits[w] | (1u64 << b);
        self.bits.set(w, v);
        proof {
            assert forall|i: int| 0 <= i < MAX_FRAMES implies self.is_taken(i) == old(self)@.taken.update(
                idx as int,
                true,
            )[i] by {
                if i / 64 == w {
                    lemma_bit_set(old(self).bits@[w as int], b, (i % 64) as u64);
                }
                assert(old(self)@.taken[i] == old(self).is_taken(i));
            }
            assert(self@.taken =~= old(self)@.taken.update(idx as int, true));
        }
    }

    fn is_free(&self, idx: usize) -> (r: bool)
        requires
            self.wf(),
            idx < MAX_FRAMES,
        ensures
            r == !self@.taken[idx as int],
    {
        let b: u64 = (idx % 64) as u64;
        assert(self@.taken[idx as int] == self.is_taken(idx as int));
        !((self.bits[idx / 64] >> b) & 1 == 1)
    }
}

/// Takes in the memory map: every frame that lies whole in a usable
/// region becomes free.
pub fn init(f: &mut FrameTable, entries: &Vec<Region>)
    requires
        old(f).wf(),
        forall|i: int| 0 <= i < entries@.len() ==> (#[trigger] entries@[i]).base + entries@[i].length + 4096 <= u64::MAX,
    ensures
        final(f).wf(),
        final(f)@ == ({
            let (u, t, n) = taken_in(old(f)@.taken, entries@, entries@.len() as int);
            FramesV { taken: u, total: t, used: 0, regions: n, ..old(f)@ }
        }),
{
    let mut total: usize = 0;
    let mut regions: usize = 0;
    let mut k: usize = 0;
    while k < entries.len()
        invariant
            k <= entries@.len(),
            forall|i: int|
                0 <= i < entries@.len() ==> (#[trigger] entries@[i]).base + entries@[i].length + 4096 <= u64::MAX,
            old(f).wf(),
            f.wf(),
            (f@.taken, total, regions) == taken_in(old(f)@.taken, entries@, k as int),
            f@ == (FramesV { taken: f@.taken, ..old(f)@ }),
        decreases entries@.len() - k,
    {
        let e = entries[k];
        assert(entries@[k as int].base + entries@[k as int].length + 4096 <= u64::MAX);
        if e.usable {
            regions = regions.wrapping_add(1);
            let start: u64 = if e.base == 0 {
                1
            } else {
                (e.base + 4095) / 4096
            };
            let end0: u64 = (e.base + e.length) / 4096;
            let end: u64 = if end0 < MAX_FRAMES as u64 {
                end0
            } else {
                MAX_FRAMES as u64
            };
            let ghost u0 = f@.taken;
            let ghost t0 = total;
            let mut idx: u64 = start;
            while idx < end
                invariant
                    start <= idx,
                    idx <= end || idx == start,
                    end <= MAX_FRAMES,
                    f.wf(),
                    u0.len() == MAX_FRAMES,
                    f@ == (FramesV { taken: f@.taken, ..old(f)@ }),
                    f@.taken =~= Seq::new(u0.len(), |i: int| u0[i] && !(start <= i < idx)),
                    total == t0.wrapping_add((idx - start) as usize),
                decreases end - idx,
            {
                f.mark_free(idx as usize);
                total = total.wrapping_add(1);
                idx = idx + 1;
            }
            assert(f@.taken =~= Seq::new(u0.len(), |i: int| u0[i] && !(start <= i < region_end(e))));
        }
        k = k + 1;
    }
    f.total = total;
    f.used = 0;
    f.regions = regions;
    assert(f@.taken =~= taken_in(old(f)@.taken, entries@, entries@.len() as int).0);
}

/// Allocates one frame and gives its physical address.
pub fn alloc_frame(f: &mut FrameTable) -> (r: Option<u64>)
    requires
        old(f).wf(),
    ensures
        final(f).wf(),
        (final(f)@, r) == alloc_spec(old(f)@),
{
    let start: usize = f.hint;
    let mut off: usize = 0;
    while off < WORDS
        invariant
            off <= WORDS,
            start == f.hint,
            f.wf(),
            *f == *old(f),
            next_free(f@.taken, start * 64, off * 64) == next_free(f@.taken, start * 64, 0),
        decreases WORDS - off,
    {
        let w: usize = (start + off) % WORDS;
        let cur: u64 = f.bits[w];
        let mut bitno: usize = 0;
        while bitno < 64
            invariant
                bitno <= 64,
                off < WORDS,
                start == f.hint,
                w == (start + off) % WORDS as int,
                f.wf(),
                *f == *old(f),
                cur == f.bits@[w as int],
                next_free(f@.taken, start * 64, off * 64 + bitno) == next_free(f@.taken, start * 64, 0),
            decreases 64 - bitno,
        {
            let idx: usize = w * 64 + bitno;
            proof {
                lemma_wrapped(start as int, off as int, bitno as int);
            }
            if f.is_free(idx) {
                f.mark_used(idx);
                f.hint = w;
                f.used = f.used.wrapping_add(1);
                assert(f@.taken =~= old(f)@.taken.update(idx as int, true));
                return Some((idx * 4096) as u64);
            }
            bitno = bitno + 1;
        }
        off = off + 1;
    }
    None
}

/// Allocates `n` physically contiguous frames: the lowest run there is.
pub fn alloc_contig(f: &mut FrameTable, n: usize) -> (r: Option<u64>)
    requires
        old(f).wf(),
    ensures
        final(f).wf(),
        (final(f)@, r) == contig_spec(old(f)@, n),
        match r {
            Some(pa) => ({
                let b = (pa / 4096) as int;
                &&& n > 0
                &&& pa % 4096 == 0
                &&& lowest_run(old(f)@.taken, b, n as int)
                &&& final(f)@ == (FramesV {
                    taken: with_run(old(f)@.taken, b, n as int),
                    used: old(f)@.used.wrapping_add(n),
                    ..old(f)@
                })
            }),
            None => final(f)@ == old(f)@ && (n == 0 || forall|b: int|
                !#[trigger] run_free(old(f)@.taken, b, n as int)),
        },
{
    let mut run: usize = 0;
    let mut idx: usize = 0;
    while idx < MAX_FRAMES
        invariant
            idx <= MAX_FRAMES,
            run <= idx,
            run < n || n == 0,
            f.wf(),
            *f == *old(f),
            forall|i: int| idx - run <= i < idx ==> !#[trigger] f@.taken[i],
            idx - run > 0 ==> f@.taken[idx - run - 1],
            n > 0 ==> forall|c: int| 0 <= c && c + n <= idx ==> !#[trigger] run_free(f@.taken, c, n as int),
        decreases MAX_FRAMES - idx,
    {
        if f.is_free(idx) {
            run = run + 1;
            if run == n {
                let base: usize = idx + 1 - run;
                proof {
                    assert(run_free(f@.taken, base as int, n as int));
                    assert forall|c: int| 0 <= c < base implies !#[trigger] run_free(f@.taken, c, n as int) by {
                        assert(c + n <= idx);
                    }
                }
                let mut i: usize = base;
                let ghost u0 = f@.taken;
                while i < base + n
                    invariant
                        base <= i <= base + n,
                        base + n <= MAX_FRAMES,
                        f.wf(),
                        u0 == old(f)@.taken,
                        u0.len() == MAX_FRAMES,
                        f@ == (FramesV { taken: f@.taken, ..old(f)@ }),
                        f@.taken =~= with_run(u0, base as int, i - base),
                    decreases base + n - i,
                {
                    f.mark_used(i);
                    i = i + 1;
                }
                f.used = f.used.wrapping_add(n);
                proof {
                    lemma_first_run(u0, 0, n as int, base as int);
                }
                return Some((base * 4096) as u64);
            }
            proof {
                if n > 0 {
                    assert forall|c: int| 0 <= c && c + n <= idx + 1 implies !#[trigger] run_free(
                        f@.taken,
                        c,
                        n as int,
                    ) by {
                        if c + n == idx + 1 {
                            assert(f@.taken[idx - (run - 1) - 1]);
                        }
                    }
                }
            }
        } else {
            run = 0;
            proof {
                if n > 0 {
                    assert forall|c: int| 0 <= c && c + n <= idx + 1 implies !#[trigger] run_free(
                        f@.taken,
                        c,
                        n as int,
                    ) by {
                        if c + n == idx + 1 {
                            assert(f@.taken[idx as int]);
                        }
                    }
                }
            }
        }
        idx = idx + 1;
    }
    proof {
        if n > 0 {
            assert forall|b: int| !#[trigger] run_free(f@.taken, b, n as int) by {
                if 0 <= b && b + n <= MAX_FRAMES {
                }
            }
            lemma_no_run(f@.taken, 0, n as int);
        }
    }
    None
}

/// Gives a frame back.
pub fn free(f: &mut FrameTable, phys: u64)
    requires
        old(f).wf(),
    ensures
        final(f).wf(),
        final(f)@ == free_spec(old(f)@, phys),
{
    let idx: u64 = phys / 4096;
    if idx < MAX_FRAMES as u64 {
        f.mark_free(idx as usize);
        f.used = f.used.wrapping_sub(1);
        assert(f@.taken =~= old(f)@.taken.update(idx as int, false));
    }
}

/// The shares of a frame beyond the first.
pub fn ref_of(f: &FrameTable, phys: u64) -> (r: u32)
    requires
        f.wf(),
    ensures
        r == ref_spec(f@, phys),
{
    let idx: u64 = phys / 4096;
    if idx < MAX_FRAMES as u64 {
        f.refs[idx as usize]
    } else {
        0
    }
}

/// Registers one more sharer of a frame.
pub fn add_ref(f: &mut FrameTable, phys: u64)
    requires
        old(f).wf(),
    ensures
        final(f).wf(),
        final(f)@ == add_ref_spec(old(f)@, phys),
{
    let idx: u64 = phys / 4096;
    if idx < MAX_FRAMES as u64 {
        let n: u32 = f.refs[idx as usize].wrapping_add(1);
        f.refs.set(idx as usize, n);
        assert(f@.taken =~= old(f)@.taken);
    }
}

/// Drops one share of a frame; frees it, and says so, when its last owner
/// leaves.
pub fn release(f: &mut FrameTable, phys: u64) -> (r: bool)
    requires
        old(f).wf(),
    ensures
        final(f).wf(),
        (final(f)@, r) == release_spec(old(f)@, phys),
{
    let idx: u64 = phys / 4096;
    if idx >= MAX_FRAMES as u64 {
        return false;
    }
    let cur: u32 = f.refs[idx as usize];
    if cur == 0 {
        free(f, phys);
        true
    } else {
        f.refs.set(idx as usize, cur - 1);
        assert(f@.taken =~= old(f)@.taken);
        false
    }
}

/// Frames that more than one address space shares.
pub fn shared_count(f: &FrameTable) -> (n: usize)
    requires
        f.wf(),
    ensures
        n == shared_in(f@.refs, MAX_FRAMES as int),
{
    let mut n: usize = 0;
    let mut i: usize = 0;
    while i < MAX_FRAMES
        invariant
            i <= MAX_FRAMES,
            f.wf(),
            n <= i,
            n == shared_in(f@.refs, i as int),
        decreases MAX_FRAMES - i,
    {
        if f.refs[i] >= 1 {
            n = n + 1;
        }
        i = i + 1;
    }
    n
}

/// The figures of the allocator.
pub fn stats(f: &FrameTable) -> (s: Stats)
    ensures
        s.total == f@.total,
        s.used == f@.used,
        s.regions == f@.regions,
{
    Stats { total: f.total, used: f.used, regions: f.regions }
}

proof fn lemma_next_free(taken: Seq<bool>, start: int, j: int)
    requires
        taken.len() == MAX_FRAMES,
        0 <= j,
    ensures
        next_free(taken, start, j) matches Some(i) ==> 0 <= i < MAX_FRAMES && !taken[i],
        next_free(taken, start, j) is None ==> forall|k: int|
            j <= k < MAX_FRAMES ==> taken[#[trigger] ((start + k) % (MAX_FRAMES as int))],
    decreases MAX_FRAMES - j,
{
    if j < MAX_FRAMES && taken[(start + j) % (MAX_FRAMES as int)] {
        lemma_next_free(taken, start, j + 1);
    }
}

/// An allocated frame was free, is aligned, and is taken afterwards; no other
/// frame changes hands. Allocation fails only when no frame is free.
pub proof fn law_alloc_hands_out_a_free_frame(f: FramesV)
    requires
        f.wf(),
    ensures
        ({
            let (g, r) = alloc_spec(f);
            &&& g.wf()
            &&& r matches Some(pa) ==> {
                &&& pa % 4096 == 0
                &&& pa / 4096 < MAX_FRAMES
                &&& !f.taken[(pa / 4096) as int]
                &&& g.taken[(pa / 4096) as int]
                &&& forall|i: int| 0 <= i < MAX_FRAMES && i != pa / 4096 ==> #[trigger] g.taken[i] == f.taken[i]
                &&& g.refs == f.refs
            }
            &&& r is None ==> forall|i: int| 0 <= i < MAX_FRAMES ==> #[trigger] f.taken[i]
        }),
{
    lemma_next_free(f.taken, f.hint * 64, 0);
    if next_free(f.taken, f.hint * 64, 0) is None {
        assert forall|i: int| 0 <= i < MAX_FRAMES implies #[trigger] f.taken[i] by {
            let s = f.hint * 64;
            let k = if i >= s {
                i - s
            } else {
                i - s + MAX_FRAMES
            };
            assert((s + k) % (MAX_FRAMES as int) == i);
        }
    }
}

/// Two allocations with no free between them give two frames.
pub proof fn law_allocs_are_distinct(f: FramesV)
    requires
        f.wf(),
    ensures
        ({
            let (g, a) = alloc_spec(f);
            let (h, b) = alloc_spec(g);
            a is Some && b is Some ==> a != b
        }),
{
    law_alloc_hands_out_a_free_frame(f);
    law_alloc_hands_out_a_free_frame(alloc_spec(f).0);
}

/// Freeing the frame that was just allocated gives back the same bitmap and
/// the same figures.
pub proof fn law_free_undoes_alloc(f: FramesV)
    requires
        f.wf(),
        alloc_spec(f).1 is Some,
    ensures
        ({
            let (g, a) = alloc_spec(f);
            free_spec(g, a->Some_0) == (FramesV { hint: g.hint, ..f })
        }),
{
    law_alloc_hands_out_a_free_frame(f);
    let (g, a) = alloc_spec(f);
    let h = free_spec(g, a->Some_0);
    assert(h.taken =~= f.taken);
    assert(f.used.wrapping_add(1).wrapping_sub(1) == f.used);
}

/// A share that was added is dropped again without freeing the frame; a frame
/// with no share beyond the first is freed by its release.
pub proof fn law_release(f: FramesV, phys: u64)
    requires
        f.wf(),
        phys / 4096 < MAX_FRAMES,
        f.refs[(phys / 4096) as int] < u32::MAX,
    ensures
        release_spec(add_ref_spec(f, phys), phys) == (f, false),
        ref_spec(f, phys) == 0 ==> release_spec(f, phys) == (free_spec(f, phys), true),
{
    let g = add_ref_spec(f, phys);
    let h = release_spec(g, phys).0;
    assert(h.refs =~= f.refs);
}

} // verus!
