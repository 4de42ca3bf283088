//! Kernel heap: an address-ordered first-fit free list with coalescing.
//!
//! A block that is handed out carries a header just below its payload, which
//! says where the block starts, how long it is and how long the payload is.

use vstd::prelude::*;

use crate::mem::frames::{self, FrameTable};

verus! {

/// Bytes of the header below a payload.
pub const HEADER: u64 = 32;

/// The shortest tail that is split off a block.
pub const MIN_BLOCK: u64 = 48;

/// The largest request.
pub const MAX_REQUEST: u64 = 0x4000_0000;

/// Frames of the heap: 64 MiB.
pub const HEAP_FRAMES: usize = 0x4000;

/// The longest free list that the walk accepts.
pub const MAX_NODES: usize = 4096;

/// A free block.
#[derive(Clone, Copy)]
pub struct Block {
    pub addr: u64,
    pub size: u64,
}

/// The header of a block that is in use.
#[derive(Clone, Copy)]
pub struct Header {
    pub payload: u64,
    pub block: u64,
    pub block_size: u64,
    pub payload_size: u64,
}

/// The heap.
pub struct HeapState {
    pub base: u64,
    pub size: u64,
    pub free: Vec<Block>,
    pub live: Vec<Header>,
    pub allocated: u64,
    pub allocs: usize,
    pub frees: usize,
}

#[verifier::ext_equal]
pub struct HeapV {
    pub base: u64,
    pub size: u64,
    pub free: Seq<Block>,
    pub live: Seq<Header>,
    pub allocated: u64,
    pub allocs: usize,
    pub frees: usize,
}

/// Figures of the heap.
pub struct HeapStats {
    pub size: usize,
    pub allocated: usize,
    pub allocs: usize,
    pub frees: usize,
    pub fails: usize,
}

/// The bytes of all free blocks.
pub open spec fn free_bytes(s: Seq<Block>) -> int
    decreases s.len(),
{
    if s.len() == 0 {
        0
    } else {
        free_bytes(s.drop_last()) + s.last().size
    }
}

/// The bytes of all blocks in use.
pub open spec fn live_bytes(s: Seq<Header>) -> int
    decreases s.len(),
{
    if s.len() == 0 {
        0
    } else {
        live_bytes(s.drop_last()) + s.last().block_size
    }
}

/// The bytes of all payloads.
pub open spec fn payload_bytes(s: Seq<Header>) -> int
    decreases s.len(),
{
    if s.len() == 0 {
        0
    } else {
        payload_bytes(s.drop_last()) + s.last().payload_size
    }
}

/// Two ranges of addresses have nothing in common.
pub open spec fn apart(a: int, n: int, b: int, m: int) -> bool {
    a + n <= b || b + m <= a
}

/// A free list is sound: address-ordered, in bounds, with gaps between its
/// blocks.
pub open spec fn list_ok(base: int, size: int, free: Seq<Block>) -> bool {
    &&& forall|i: int|
        0 <= i < free.len() ==> base <= (#[trigger] free[i]).addr && free[i].addr + free[i].size <= base + size
            && free[i].size > HEADER
    &&& forall|i: int, j: int|
        0 <= i < j < free.len() ==> (#[trigger] free[i]).addr + free[i].size < (#[trigger] free[j]).addr
}

/// A header is sound: the block lies in the heap, and the header and the
/// payload lie in the block.
pub open spec fn header_ok(base: int, size: int, h: Header) -> bool {
    &&& base <= h.block
    &&& h.block + h.block_size <= base + size
    &&& h.block + HEADER <= h.payload
    &&& h.payload_size > 0
    &&& h.payload + h.payload_size <= h.block + h.block_size
}

impl HeapV {
    /// The free blocks and the blocks in use tile the heap.
    pub open spec fn wf(self) -> bool {
        &&& self.base + self.size <= u64::MAX
        &&& list_ok(self.base as int, self.size as int, self.free)
        &&& forall|k: int| 0 <= k < self.live.len() ==> header_ok(self.base as int, self.size as int, #[trigger] self.live[k])
        &&& forall|k: int, l: int|
            0 <= k < l < self.live.len() ==> apart(
                (#[trigger] self.live[k]).block as int,
                self.live[k].block_size as int,
                (#[trigger] self.live[l]).block as int,
                self.live[l].block_size as int,
            )
        &&& forall|i: int, k: int|
            0 <= i < self.free.len() && 0 <= k < self.live.len() ==> apart(
                (#[trigger] self.free[i]).addr as int,
                self.free[i].size as int,
                (#[trigger] self.live[k]).block as int,
                self.live[k].block_size as int,
            )
        &&& free_bytes(self.free) + live_bytes(self.live) == self.size
        &&& payload_bytes(self.live) == self.allocated
    }
}

impl HeapState {
    pub open spec fn view(&self) -> HeapV {
        HeapV {
            base: self.base,
            size: self.size,
            free: self.free@,
            live: self.live@,
            allocated: self.allocated,
            allocs: self.allocs,
            frees: self.frees,
        }
    }
}

// ---------------------------------------------------------------------------
// Sums
// ---------------------------------------------------------------------------
proof fn lemma_free_bytes_update(s: Seq<Block>, i: int, b: Block)
    requires
        0 <= i < s.len(),
    ensures
        free_bytes(s.update(i, b)) == free_bytes(s) - s[i].size + b.size,
    decreases s.len(),
{
    let t = s.update(i, b);
    if i < s.len() - 1 {
        lemma_free_bytes_update(s.drop_last(), i, b);
        assert(t.drop_last() =~= s.drop_last().update(i, b));
    } else {
        assert(t.drop_last() =~= s.drop_last());
    }
}

proof fn lemma_free_bytes_remove(s: Seq<Block>, i: int)
    requires
        0 <= i < s.len(),
    ensures
        free_bytes(s.remove(i)) == free_bytes(s) - s[i].size,
    decreases s.len(),
{
    let t = s.remove(i);
    if i < s.len() - 1 {
        lemma_free_bytes_remove(s.drop_last(), i);
        assert(t.drop_last() =~= s.drop_last().remove(i));
        assert(t.last() == s.last());
    } else {
        assert(t =~= s.drop_last());
    }
}

proof fn lemma_free_bytes_insert(s: Seq<Block>, i: int, b: Block)
    requires
        0 <= i <= s.len(),
    ensures
        free_bytes(s.insert(i, b)) == free_bytes(s) + b.size,
{
    let t = s.insert(i, b);
    lemma_free_bytes_remove(t, i);
    assert(t.remove(i) =~= s);
}

proof fn lemma_live_remove(s: Seq<Header>, i: int)
    requires
        0 <= i < s.len(),
    ensures
        live_bytes(s.remove(i)) == live_bytes(s) - s[i].block_size,
        payload_bytes(s.remove(i)) == payload_bytes(s) - s[i].payload_size,
    decreases s.len(),
{
    let t = s.remove(i);
    if i < s.len() - 1 {
        lemma_live_remove(s.drop_last(), i);
        assert(t.drop_last() =~= s.drop_last().remove(i));
        assert(t.last() == s.last());
    } else {
        assert(t =~= s.drop_last());
    }
}

proof fn lemma_live_bound(s: Seq<Header>, base: int, size: int)
    requires
        forall|k: int| 0 <= k < s.len() ==> header_ok(base, size, #[trigger] s[k]),
    ensures
        0 <= payload_bytes(s) <= live_bytes(s),
    decreases s.len(),
{
    if s.len() > 0 {
        lemma_live_bound(s.drop_last(), base, size);
        assert(header_ok(base, size, s[s.len() - 1]));
    }
}

proof fn lemma_free_bound(s: Seq<Block>)
    ensures
        0 <= free_bytes(s),
        forall|i: int| 0 <= i < s.len() ==> (#[trigger] s[i]).size <= free_bytes(s),
    decreases s.len(),
{
    if s.len() > 0 {
        lemma_free_bound(s.drop_last());
        assert forall|i: int| 0 <= i < s.len() implies (#[trigger] s[i]).size <= free_bytes(s) by {
            if i < s.len() - 1 {
                assert(s.drop_last()[i] == s[i]);
            }
        }
    }
}

// ---------------------------------------------------------------------------
// Allocation
// ---------------------------------------------------------------------------
/// `v` rounded up to a multiple of `a`.
pub open spec fn round_up(v: int, a: int) -> int {
    if v % a == 0 {
        v
    } else {
        v - v % a + a
    }
}

/// What a request needs at most: the payload, the header and the shift that
/// the alignment may cost.
pub open spec fn need(size: int, align: int) -> int {
    size + HEADER + align - 1
}

pub open spec fn fits(n: int) -> spec_fn(Block) -> bool {
    |b: Block| b.size >= n
}

/// The header of a payload of `size` bytes in the block `b`.
pub open spec fn placed(b: Block, size: u64, align: u64) -> Header {
    let payload = round_up(b.addr + HEADER, align as int);
    let end = payload + size;
    Header {
        payload: payload as u64,
        block: b.addr,
        block_size: if b.addr + b.size - end >= MIN_BLOCK {
            (end - b.addr) as u64
        } else {
            b.size
        },
        payload_size: size,
    }
}

/// The free list once `h` was taken from the front of block `i`.
pub open spec fn carved(free: Seq<Block>, i: int, h: Header) -> Seq<Block> {
    if h.block_size < free[i].size {
        free.update(
            i,
            Block { addr: (h.block + h.block_size) as u64, size: (free[i].size - h.block_size) as u64 },
        )
    } else {
        free.remove(i)
    }
}

/// The first block that is long enough is used; what is left over of it stays
/// free if it is worth keeping.
pub open spec fn alloc_spec(h: HeapV, size: u64, align: u64) -> (HeapV, Option<u64>) {
    if size == 0 || size > MAX_REQUEST {
        (h, None)
    } else {
        match crate::seqs::first(h.free, fits(need(size as int, align as int))) {
            None => (h, None),
            Some(i) => {
                let p = placed(h.free[i], size, align);
                (
                    HeapV {
                        free: carved(h.free, i, p),
                        live: h.live.push(p),
                        allocated: (h.allocated + size) as u64,
                        allocs: h.allocs.wrapping_add(1),
                        ..h
                    },
                    Some(p.payload),
                )
            },
        }
    }
}

proof fn lemma_round_up(v: int, a: int)
    requires
        a > 0,
        v >= 0,
    ensures
        v <= round_up(v, a) < v + a,
        round_up(v, a) % a == 0,
{
    vstd::arithmetic::div_mod::lemma_mod_bound(v, a);
    vstd::arithmetic::div_mod::lemma_fundamental_div_mod(v, a);
    let q = v / a;
    assert(a * q == q * a) by (nonlinear_arith);
    if v % a != 0 {
        assert((q + 1) * a == q * a + a) by (nonlinear_arith);
        vstd::arithmetic::div_mod::lemma_mod_multiples_basic(q + 1, a);
    }
}

/// What holds of the place found for a payload.
proof fn lemma_placed(b: Block, size: u64, align: u64)
    requires
        align > 0,
        size > 0,
        b.size >= need(size as int, align as int),
        b.addr + b.size <= u64::MAX,
    ensures
        ({
            let p = placed(b, size, align);
            let payload = round_up(b.addr + HEADER, align as int);
            &&& b.addr + HEADER <= payload
            &&& payload + size <= b.addr + b.size
            &&& p.payload == payload
            &&& p.payload % align == 0
            &&& p.payload + size <= b.addr + p.block_size
            &&& HEADER < p.block_size <= b.size
            &&& p.block_size < b.size ==> b.size - p.block_size >= MIN_BLOCK
        }),
{
    lemma_round_up(b.addr + HEADER, align as int);
}

/// Allocation keeps the heap tiled.
proof fn lemma_alloc_wf(h: HeapV, size: u64, align: u64)
    requires
        h.wf(),
        align > 0,
    ensures
        alloc_spec(h, size, align).0.wf(),
{
    let n = need(size as int, align as int);
    crate::seqs::lemma_first_from(h.free, fits(n), 0);
    if !(size == 0 || size > MAX_REQUEST) {
        match crate::seqs::first(h.free, fits(n)) {
            None => {},
            Some(i) => {
                let b = h.free[i];
                let p = placed(b, size, align);
                lemma_placed(b, size, align);
                let g = alloc_spec(h, size, align).0;
                assert(p.block_size < b.size || p.block_size == b.size);
                assert(g.live.drop_last() =~= h.live);
                lemma_live_bound(h.live, h.base as int, h.size as int);
                lemma_free_bound(h.free);
                if p.block_size < b.size {
                    let t = Block { addr: (p.block + p.block_size) as u64, size: (b.size - p.block_size) as u64 };
                    lemma_free_bytes_update(h.free, i, t);
                    assert(g.free == h.free.update(i, t));
                } else {
                    lemma_free_bytes_remove(h.free, i);
                    assert(g.free == h.free.remove(i));
                }
                assert forall|k: int, l: int| 0 <= k < l < g.live.len() implies apart(
                    (#[trigger] g.live[k]).block as int,
                    g.live[k].block_size as int,
                    (#[trigger] g.live[l]).block as int,
                    g.live[l].block_size as int,
                ) by {
                    assert(g.live[k] == h.live[k]);
                    if l == h.live.len() {
                        assert(apart(
                            h.free[i].addr as int,
                            h.free[i].size as int,
                            h.live[k].block as int,
                            h.live[k].block_size as int,
                        ));
                    } else {
                        assert(g.live[l] == h.live[l]);
                    }
                }
                assert forall|j: int, k: int| 0 <= j < g.free.len() && 0 <= k < g.live.len() implies apart(
                    (#[trigger] g.free[j]).addr as int,
                    g.free[j].size as int,
                    (#[trigger] g.live[k]).block as int,
                    g.live[k].block_size as int,
                ) by {
                    let o = if p.block_size < b.size || j < i {
                        j
                    } else {
                        j + 1
                    };
                    if k < h.live.len() {
                        assert(g.live[k] == h.live[k]);
                        assert(apart(
                            h.free[o].addr as int,
                            h.free[o].size as int,
                            h.live[k].block as int,
                            h.live[k].block_size as int,
                        ));
                    } else {
                        if o < i {
                            assert(h.free[o].addr + h.free[o].size < h.free[i].addr);
                        } else if o > i {
                            assert(h.free[i].addr + h.free[i].size < h.free[o].addr);
                        }
                    }
                }
                assert forall|k: int| 0 <= k < g.live.len() implies header_ok(
                    g.base as int,
                    g.size as int,
                    #[trigger] g.live[k],
                ) by {
                    if k < h.live.len() {
                        assert(g.live[k] == h.live[k]);
                    }
                }
                assert(list_ok(g.base as int, g.size as int, g.free)) by {
                    assert forall|j: int| 0 <= j < g.free.len() implies g.base <= (#[trigger] g.free[j]).addr
                        && g.free[j].addr + g.free[j].size <= g.base + g.size && g.free[j].size > HEADER by {
                        let o = if p.block_size < b.size || j < i {
                            j
                        } else {
                            j + 1
                        };
                        assert(h.base <= h.free[o].addr);
                    }
                    assert forall|j: int, l: int| 0 <= j < l < g.free.len() implies (#[trigger] g.free[j]).addr
                        + g.free[j].size < (#[trigger] g.free[l]).addr by {
                        let oj = if p.block_size < b.size || j < i {
                            j
                        } else {
                            j + 1
                        };
                        let ol = if p.block_size < b.size || l < i {
                            l
                        } else {
                            l + 1
                        };
                        assert(h.free[oj].addr + h.free[oj].size < h.free[ol].addr);
                    }
                }
            },
        }
    }
}

/// Allocates `size` bytes at a multiple of `align`: the address, or nothing
/// if no free block is long enough.
pub fn alloc_inner(st: &mut HeapState, size: u64, align: u64) -> (r: Option<u64>)
    requires
        old(st)@.wf(),
        0 < align <= 0x8000_0000_0000_0000,
    ensures
        final(st)@.wf(),
        (final(st)@, r) == alloc_spec(old(st)@, size, align),
{
    proof {
        lemma_alloc_wf(st@, size, align);
    }
    if size == 0 || size > MAX_REQUEST {
        return None;
    }
    let want: u64 = size + HEADER + (align - 1);
    let mut i: usize = 0;
    while i < st.free.len()
        invariant
            i <= st.free@.len(),
            *st == *old(st),
            old(st)@.wf(),
            alloc_spec(old(st)@, size, align).0.wf(),
            0 < align <= 0x8000_0000_0000_0000,
            0 < size <= MAX_REQUEST,
            want == need(size as int, align as int),
            crate::seqs::first_from(st.free@, fits(want as int), i as int) == crate::seqs::first(
                st.free@,
                fits(want as int),
            ),
        decreases st.free@.len() - i,
    {
        let b = st.free[i];
        if b.size >= want {
            proof {
                lemma_placed(b, size, align);
                lemma_round_up(b.addr + HEADER, align as int);
                assert(st@.free[i as int].addr + st@.free[i as int].size <= st@.base + st@.size);
            }
            let low: u64 = b.addr + HEADER;
            proof {
                vstd::arithmetic::div_mod::lemma_mod_decreases(low as nat, align as nat);
            }
            let payload: u64 = if low % align == 0 {
                low
            } else {
                low - low % align + align
            };
            let end: u64 = payload + size;
            let rest: u64 = b.addr + b.size - end;
            let block_size: u64 = if rest >= MIN_BLOCK {
                end - b.addr
            } else {
                b.size
            };
            if rest >= MIN_BLOCK {
                st.free.set(i, Block { addr: end, size: rest });
            } else {
                st.free.remove(i);
            }
            let h = Header { payload, block: b.addr, block_size, payload_size: size };
            st.live.push(h);
            proof {
                lemma_live_bound(alloc_spec(old(st)@, size, align).0.live, old(st)@.base as int, old(st)@.size as int);
                lemma_free_bound(alloc_spec(old(st)@, size, align).0.free);
                assert(st.live@ == old(st)@.live.push(h));
                assert(h == placed(b, size, align));
                assert(st.live@.drop_last() =~= old(st)@.live);
                assert(payload_bytes(st.live@) == payload_bytes(old(st)@.live) + size);
            }
            st.allocated = st.allocated + size;
            st.allocs = st.allocs.wrapping_add(1);
            return Some(payload);
        }
        i = i + 1;
    }
    None
}

// ---------------------------------------------------------------------------
// Giving back
// ---------------------------------------------------------------------------
pub open spec fn has_payload(p: u64) -> spec_fn(Header) -> bool {
    |h: Header| h.payload == p
}

pub open spec fn lies_above(a: u64) -> spec_fn(Block) -> bool {
    |b: Block| b.addr > a
}

/// The place in the free list of a block at `a`.
pub open spec fn place_of(free: Seq<Block>, a: u64) -> int {
    match crate::seqs::first(free, lies_above(a)) {
        Some(i) => i,
        None => free.len() as int,
    }
}

/// The free list with a block put back at its place and coalesced with what
/// touches it on either side.
pub open spec fn put_back(free: Seq<Block>, b: Block) -> Seq<Block> {
    let p = place_of(free, b.addr);
    let below = p > 0 && free[p - 1].addr + free[p - 1].size == b.addr;
    let above = p < free.len() && b.addr + b.size == free[p].addr;
    if below && above {
        free.update(
            p - 1,
            Block { addr: free[p - 1].addr, size: (free[p - 1].size + b.size + free[p].size) as u64 },
        ).remove(p)
    } else if below {
        free.update(p - 1, Block { addr: free[p - 1].addr, size: (free[p - 1].size + b.size) as u64 })
    } else if above {
        free.update(p, Block { addr: b.addr, size: (b.size + free[p].size) as u64 })
    } else {
        free.insert(p, b)
    }
}

/// The heap after the payload at `p` was given back. Nothing is at 0.
pub open spec fn free_spec(h: HeapV, p: u64) -> HeapV {
    match crate::seqs::first(h.live, has_payload(p)) {
        Some(k) if p != 0 => {
            let d = h.live[k];
            HeapV {
                free: put_back(h.free, Block { addr: d.block, size: d.block_size }),
                live: h.live.remove(k),
                allocated: (h.allocated - d.payload_size) as u64,
                frees: h.frees.wrapping_add(1),
                ..h
            }
        },
        _ => h,
    }
}

/// What may be given back: 0, and a payload that is in use, if the free list
/// is in order before and after.
pub open spec fn may_free(h: HeapV, p: u64) -> bool {
    p != 0 ==> {
        &&& crate::seqs::first(h.live, has_payload(p)) is Some
        &&& h.free.len() <= MAX_NODES
        &&& free_spec(h, p).free.len() <= MAX_NODES
    }
}

/// A block that is apart from all free ones goes back into the list.
#[verifier::rlimit(60)]
proof fn lemma_put_back(base: int, size: int, free: Seq<Block>, b: Block)
    requires
        0 <= base,
        base + size <= u64::MAX,
        list_ok(base, size, free),
        base <= b.addr,
        b.addr + b.size <= base + size,
        b.size > HEADER,
        forall|i: int| 0 <= i < free.len() ==> apart((#[trigger] free[i]).addr as int, free[i].size as int, b.addr as int, b.size as int),
    ensures
        list_ok(base, size, put_back(free, b)),
        free_bytes(put_back(free, b)) == free_bytes(free) + b.size,
        forall|a: int, n: int|
            n > 0 && apart(a, n, b.addr as int, b.size as int) && (forall|i: int|
                0 <= i < free.len() ==> #[trigger] apart(free[i].addr as int, free[i].size as int, a, n)) ==> forall|i: int|
                0 <= i < put_back(free, b).len() ==> #[trigger] apart(
                    put_back(free, b)[i].addr as int,
                    put_back(free, b)[i].size as int,
                    a,
                    n,
                ),
{
    let p = place_of(free, b.addr);
    crate::seqs::lemma_first_from(free, lies_above(b.addr), 0);
    assert(0 <= p <= free.len());
    let below = p > 0 && free[p - 1].addr + free[p - 1].size == b.addr;
    let above = p < free.len() && b.addr + b.size == free[p].addr;
    let g = put_back(free, b);
    assert forall|i: int| 0 <= i < p implies (#[trigger] free[i]).addr + free[i].size <= b.addr by {
        assert(!lies_above(b.addr)(free[i]));
    }
    assert forall|i: int| p <= i < free.len() implies b.addr + b.size <= (#[trigger] free[i]).addr by {
        assert(lies_above(b.addr)(free[p]));
        if i > p {
            assert(free[p].addr + free[p].size < free[i].addr);
        }
    }
    assert forall|i: int| 0 <= i < p - 1 implies (#[trigger] free[i]).addr + free[i].size < b.addr by {
        assert(free[i].addr + free[i].size < free[p - 1].addr);
    }
    assert forall|i: int| p < i < free.len() implies b.addr + b.size < (#[trigger] free[i]).addr by {
        assert(free[p].addr + free[p].size < free[i].addr);
    }
    if below && above {
        let w = Block { addr: free[p - 1].addr, size: (free[p - 1].size + b.size + free[p].size) as u64 };
        assert(w.addr + w.size == free[p].addr + free[p].size);
        let u = free.update(p - 1, w);
        lemma_free_bytes_update(free, p - 1, w);
        lemma_free_bytes_remove(u, p);
        assert forall|i: int| 0 <= i < g.len() implies #[trigger] g[i] == if i < p - 1 {
            free[i]
        } else if i == p - 1 {
            w
        } else {
            free[i + 1]
        } by {}
    } else if below {
        let w = Block { addr: free[p - 1].addr, size: (free[p - 1].size + b.size) as u64 };
        lemma_free_bytes_update(free, p - 1, w);
    } else if above {
        let w = Block { addr: b.addr, size: (b.size + free[p].size) as u64 };
        lemma_free_bytes_update(free, p, w);
    } else {
        lemma_free_bytes_insert(free, p, b);
        assert forall|i: int| 0 <= i < g.len() implies #[trigger] g[i] == if i < p {
            free[i]
        } else if i == p {
            b
        } else {
            free[i - 1]
        } by {}
    }
    lemma_put_back_order(base, size, free, b, p, below, above, g);
    assert forall|a: int, n: int|
        n > 0 && apart(a, n, b.addr as int, b.size as int) && (forall|i: int|
            0 <= i < free.len() ==> #[trigger] apart(free[i].addr as int, free[i].size as int, a, n)) implies forall|i: int|
        0 <= i < g.len() ==> #[trigger] apart(g[i].addr as int, g[i].size as int, a, n) by {
        assert forall|i: int| 0 <= i < g.len() implies #[trigger] apart(g[i].addr as int, g[i].size as int, a, n) by {
            if below {
                assert(apart(free[p - 1].addr as int, free[p - 1].size as int, a, n));
            }
            if above {
                assert(apart(free[p].addr as int, free[p].size as int, a, n));
            }
            if i < free.len() {
                assert(apart(free[i].addr as int, free[i].size as int, a, n));
            }
            if i + 1 < free.len() {
                assert(apart(free[i + 1].addr as int, free[i + 1].size as int, a, n));
            }
            if 0 < i <= free.len() {
                assert(apart(free[i - 1].addr as int, free[i - 1].size as int, a, n));
            }
        }
    }
}

proof fn lemma_put_back_order(
    base: int,
    size: int,
    free: Seq<Block>,
    b: Block,
    p: int,
    below: bool,
    above: bool,
    g: Seq<Block>,
)
    requires
        0 <= base,
        base + size <= u64::MAX,
        list_ok(base, size, free),
        base <= b.addr,
        b.addr + b.size <= base + size,
        b.size > HEADER,
        0 <= p <= free.len(),
        below == (p > 0 && free[p - 1].addr + free[p - 1].size == b.addr),
        above == (p < free.len() && b.addr + b.size == free[p].addr),
        forall|i: int| 0 <= i < p ==> (#[trigger] free[i]).addr + free[i].size <= b.addr,
        forall|i: int| p <= i < free.len() ==> b.addr + b.size <= (#[trigger] free[i]).addr,
        forall|i: int| 0 <= i < p - 1 ==> (#[trigger] free[i]).addr + free[i].size < b.addr,
        forall|i: int| p < i < free.len() ==> b.addr + b.size < (#[trigger] free[i]).addr,
        g.len() == free.len() + 1 - (if below {
            1int
        } else {
            0int
        }) - (if above {
            1int
        } else {
            0int
        }),
        forall|i: int|
            0 <= i < g.len() ==> {
                let at = if below {
                    p - 1
                } else {
                    p
                };
                let shift = free.len() - g.len();
                &&& i < at ==> #[trigger] g[i] == free[i]
                &&& i > at ==> g[i] == free[i + shift]
                &&& i == at ==> g[i].addr == (if below {
                    free[p - 1].addr
                } else {
                    b.addr
                }) && g[i].addr + g[i].size == (if above {
                    free[p].addr + free[p].size
                } else {
                    b.addr + b.size
                })
            },
    ensures
        list_ok(base, size, g),
{
    let at = if below {
        p - 1
    } else {
        p
    };
    let shift = free.len() - g.len();
    assert forall|i: int| 0 <= i < g.len() implies base <= (#[trigger] g[i]).addr && g[i].addr + g[i].size <= base
        + size && g[i].size > HEADER by {
        if i < at {
            assert(base <= free[i].addr);
        } else if i > at {
            assert(base <= free[i + shift].addr);
        } else {
            if below {
                assert(base <= free[p - 1].addr);
            }
            if above {
                assert(base <= free[p].addr);
            }
        }
    }
    assert forall|i: int, j: int| 0 <= i < j < g.len() implies (#[trigger] g[i]).addr + g[i].size < (
    #[trigger] g[j]).addr by {
        if i < at && j < at {
            assert(free[i].addr + free[i].size < free[j].addr);
        } else if i < at && j == at {
            if below {
                assert(free[i].addr + free[i].size < free[p - 1].addr);
            } else if i < p - 1 {
                assert(free[i].addr + free[i].size < b.addr);
            } else {
                assert(free[p - 1].addr + free[p - 1].size <= b.addr);
            }
        } else if i < at {
            assert(free[i].addr + free[i].size < free[j + shift].addr);
        } else if i == at {
            if above {
                assert(free[p].addr + free[p].size < free[j + shift].addr);
            } else if j + shift > p {
                assert(b.addr + b.size < free[j + shift].addr);
            } else {
                assert(b.addr + b.size <= free[p].addr);
            }
        } else {
            assert(free[i + shift].addr + free[i + shift].size < free[j + shift].addr);
        }
    }
}

/// Giving back keeps the heap tiled.
proof fn lemma_free_wf(h: HeapV, p: u64)
    requires
        h.wf(),
        crate::seqs::first(h.live, has_payload(p)) is Some,
    ensures
        free_spec(h, p).wf(),
        h.allocated >= h.live[crate::seqs::first(h.live, has_payload(p))->Some_0].payload_size,
        0 <= crate::seqs::first(h.live, has_payload(p))->Some_0 < h.live.len(),
{
    crate::seqs::lemma_first_from(h.live, has_payload(p), 0);
    let k = crate::seqs::first(h.live, has_payload(p))->Some_0;
    let d = h.live[k];
    let b = Block { addr: d.block, size: d.block_size };
    let g = free_spec(h, p);
    assert(header_ok(h.base as int, h.size as int, d));
    assert forall|i: int| 0 <= i < h.free.len() implies apart(
        (#[trigger] h.free[i]).addr as int,
        h.free[i].size as int,
        b.addr as int,
        b.size as int,
    ) by {
        assert(apart(h.free[i].addr as int, h.free[i].size as int, h.live[k].block as int, h.live[k].block_size as int));
    }
    lemma_put_back(h.base as int, h.size as int, h.free, b);
    lemma_live_remove(h.live, k);
    assert forall|l: int| 0 <= l < g.live.len() implies header_ok(h.base as int, h.size as int, #[trigger] g.live[l]) by {
        let o = if l < k {
            l
        } else {
            l + 1
        };
        assert(g.live[l] == h.live[o]);
    }
    lemma_live_bound(g.live, h.base as int, h.size as int);
    assert forall|l: int, n: int| 0 <= l < n < g.live.len() implies apart(
        (#[trigger] g.live[l]).block as int,
        g.live[l].block_size as int,
        (#[trigger] g.live[n]).block as int,
        g.live[n].block_size as int,
    ) by {
        let o = if l < k {
            l
        } else {
            l + 1
        };
        let q = if n < k {
            n
        } else {
            n + 1
        };
        assert(apart(
            h.live[o].block as int,
            h.live[o].block_size as int,
            h.live[q].block as int,
            h.live[q].block_size as int,
        ));
    }
    assert forall|i: int, l: int| 0 <= i < g.free.len() && 0 <= l < g.live.len() implies apart(
        (#[trigger] g.free[i]).addr as int,
        g.free[i].size as int,
        (#[trigger] g.live[l]).block as int,
        g.live[l].block_size as int,
    ) by {
        let o = if l < k {
            l
        } else {
            l + 1
        };
        let x = h.live[o];
        assert(header_ok(h.base as int, h.size as int, x));
        assert(g.live[l] == x);
        if o < k {
            assert(apart(h.live[o].block as int, h.live[o].block_size as int, h.live[k].block as int, h.live[k].block_size as int));
        } else {
            assert(apart(h.live[k].block as int, h.live[k].block_size as int, h.live[o].block as int, h.live[o].block_size as int));
        }
        assert forall|j: int| 0 <= j < h.free.len() implies #[trigger] apart(
            h.free[j].addr as int,
            h.free[j].size as int,
            x.block as int,
            x.block_size as int,
        ) by {
            assert(apart(h.free[j].addr as int, h.free[j].size as int, h.live[o].block as int, h.live[o].block_size as int));
        }
        assert(apart(x.block as int, x.block_size as int, b.addr as int, b.size as int));
        assert(apart(put_back(h.free, b)[i].addr as int, put_back(h.free, b)[i].size as int, x.block as int, x.block_size as int));
    }
}

/// Whether the free list passes the walk: in bounds, not too short to hold a
/// node, without overlaps, and not longer than a list of this kernel gets.
pub open spec fn walk_ok(h: HeapV) -> bool {
    &&& forall|i: int|
        0 <= i < h.free.len() ==> h.base <= (#[trigger] h.free[i]).addr < h.base + h.size && h.free[i].size >= 16
            && h.free[i].addr + h.free[i].size <= h.base + h.size
    &&& forall|i: int|
        1 <= i < h.free.len() ==> h.free[i - 1].addr + h.free[i - 1].size <= (#[trigger] h.free[i]).addr
    &&& h.free.len() <= MAX_NODES
}

/// Walks the whole free list and says whether it is sound.
pub fn validate_walk(st: &HeapState) -> (r: bool)
    requires
        st.base + st.size <= u64::MAX,
    ensures
        r == walk_ok(st@),
{
    let n: usize = st.free.len();
    let mut i: usize = 0;
    while i < n
        invariant
            n == st.free@.len(),
            i <= n,
            st.base + st.size <= u64::MAX,
            forall|j: int|
                0 <= j < i ==> st.base <= (#[trigger] st.free@[j]).addr < st.base + st.size && st.free@[j].size >= 16
                    && st.free@[j].addr + st.free@[j].size <= st.base + st.size,
            forall|j: int|
                1 <= j < i ==> st.free@[j - 1].addr + st.free@[j - 1].size <= (#[trigger] st.free@[j]).addr,
        decreases n - i,
    {
        let b = st.free[i];
        if b.addr < st.base || b.addr >= st.base + st.size {
            return false;
        }
        if b.size < 16 || b.size > st.base + st.size - b.addr {
            return false;
        }
        if i > 0 {
            let a = st.free[i - 1];
            assert(st.free@[i - 1].addr + st.free@[i - 1].size <= st.base + st.size);
            if a.addr + a.size > b.addr {
                assert(!(st@.free[i as int - 1].addr + st@.free[i as int - 1].size <= st@.free[i as int].addr));
                return false;
            }
        }
        i = i + 1;
    }
    n <= MAX_NODES
}

/// Gives back the payload at `p`, which must be in use; 0 is no payload, and
/// nothing happens. The free list must stay within the length that the walk
/// accepts.
pub fn free_inner(st: &mut HeapState, p: u64)
    requires
        old(st)@.wf(),
        may_free(old(st)@, p),
    ensures
        final(st)@.wf(),
        final(st)@ == free_spec(old(st)@, p),
{
    if p == 0 {
        return;
    }
    proof {
        lemma_free_wf(st@, p);
    }
    let k: usize = find_live(st, p);
    let d = st.live[k];
    let b = Block { addr: d.block, size: d.block_size };
    let at: usize = find_place(st, b.addr);
    proof {
        assert(header_ok(st@.base as int, st@.size as int, st@.live[k as int]));
        crate::seqs::lemma_first_from(st@.free, lies_above(b.addr), 0);
    }
    let below: bool = if at > 0 {
        let a = st.free[at - 1];
        assert(st@.free[at - 1].addr + st@.free[at - 1].size <= st@.base + st@.size);
        a.addr + a.size == b.addr
    } else {
        false
    };
    let above: bool = if at < st.free.len() {
        b.addr + b.size == st.free[at].addr
    } else {
        false
    };
    if below && above {
        let a = st.free[at - 1];
        let c = st.free[at];
        assert(st@.free[at as int].addr + st@.free[at as int].size <= st@.base + st@.size);
        st.free.set(at - 1, Block { addr: a.addr, size: a.size + b.size + c.size });
        st.free.remove(at);
    } else if below {
        let a = st.free[at - 1];
        st.free.set(at - 1, Block { addr: a.addr, size: a.size + b.size });
    } else if above {
        let c = st.free[at];
        assert(st@.free[at as int].addr + st@.free[at as int].size <= st@.base + st@.size);
        st.free.set(at, Block { addr: b.addr, size: b.size + c.size });
    } else {
        st.free.insert(at, b);
    }
    st.live.remove(k);
    st.allocated = st.allocated - d.payload_size;
    st.frees = st.frees.wrapping_add(1);
}

/// The place of the header of the payload at `p`.
fn find_live(st: &HeapState, p: u64) -> (k: usize)
    requires
        crate::seqs::first(st@.live, has_payload(p)) is Some,
    ensures
        Some(k as int) == crate::seqs::first(st@.live, has_payload(p)),
        k < st@.live.len(),
{
    let n: usize = st.live.len();
    let mut i: usize = 0;
    while i < n && st.live[i].payload != p
        invariant
            n == st.live@.len(),
            i <= n,
            crate::seqs::first(st@.live, has_payload(p)) is Some,
            crate::seqs::first_from(st@.live, has_payload(p), i as int) == crate::seqs::first(
                st@.live,
                has_payload(p),
            ),
        decreases n - i,
    {
        i = i + 1;
    }
    i
}

/// The place in the free list of a block at `a`.
fn find_place(st: &HeapState, a: u64) -> (p: usize)
    ensures
        p == place_of(st@.free, a),
        p <= st@.free.len(),
{
    let n: usize = st.free.len();
    let mut i: usize = 0;
    while i < n && st.free[i].addr <= a
        invariant
            n == st.free@.len(),
            i <= n,
            crate::seqs::first_from(st@.free, lies_above(a), i as int) == crate::seqs::first(st@.free, lies_above(a)),
        decreases n - i,
    {
        i = i + 1;
    }
    i
}

// ---------------------------------------------------------------------------
// The allocator
// ---------------------------------------------------------------------------
/// The kernel's allocator: the heap, once it is there, and the requests that
/// came before.
pub struct GlmAlloc {
    pub state: Option<HeapState>,
    pub fails: usize,
}

impl GlmAlloc {
    pub open spec fn wf(&self) -> bool {
        match self.state {
            Some(h) => h@.wf(),
            None => true,
        }
    }

    /// An allocator without a heap.
    pub fn new() -> (a: GlmAlloc)
        ensures
            a.wf(),
            a == (GlmAlloc { state: None, fails: 0 }),
    {
        GlmAlloc { state: None, fails: 0 }
    }

    /// Allocates memory; without a heap the request fails and is counted.
    pub fn allocate(&mut self, size: u64, align: u64) -> (r: Option<u64>)
        requires
            old(self).wf(),
            0 < align <= 0x8000_0000_0000_0000,
        ensures
            final(self).wf(),
            match (old(self).state, final(self).state) {
                (Some(h), Some(g)) => (g@, r) == alloc_spec(h@, size, align) && final(self).fails == old(self).fails,
                (None, None) => r is None && final(self).fails == old(self).fails.wrapping_add(1),
                _ => false,
            },
    {
        let mut st: Option<HeapState> = None;
        core::mem::swap(&mut st, &mut self.state);
        match st {
            Some(mut h) => {
                let r = alloc_inner(&mut h, size, align);
                self.state = Some(h);
                r
            },
            None => {
                self.fails = self.fails.wrapping_add(1);
                None
            },
        }
    }

    /// Gives memory back, which must be in use; for 0, or without a heap,
    /// nothing happens.
    pub fn dealloc(&mut self, p: u64)
        requires
            old(self).wf(),
            old(self).state matches Some(h) ==> may_free(h@, p),
        ensures
            final(self).wf(),
            final(self).fails == old(self).fails,
            match (old(self).state, final(self).state) {
                (Some(h), Some(g)) => g@ == free_spec(h@, p),
                (None, None) => true,
                _ => false,
            },
    {
        let mut st: Option<HeapState> = None;
        core::mem::swap(&mut st, &mut self.state);
        match st {
            Some(mut h) => {
                free_inner(&mut h, p);
                self.state = Some(h);
            },
            None => {},
        }
    }
}

/// Sets the heap up in 64 MiB of contiguous frames, seen through the direct
/// map at `hhdm`. False if there is no such run of frames.
pub fn init(a: &mut GlmAlloc, f: &mut FrameTable, hhdm: u64) -> (r: bool)
    requires
        old(f).wf(),
        old(a).wf(),
        hhdm <= 0xFFFF_FFFF_8000_0000,
    ensures
        final(f).wf(),
        final(a).wf(),
        r == (exists|b: int| crate::mem::frames::run_free(old(f)@.taken, b, HEAP_FRAMES as int)),
        !r ==> *final(a) == *old(a) && final(f)@ == old(f)@,
        r ==> exists|b: int|
            {
                &&& #[trigger] crate::mem::frames::lowest_run(old(f)@.taken, b, HEAP_FRAMES as int)
                &&& final(f)@.taken == crate::mem::frames::with_run(old(f)@.taken, b, HEAP_FRAMES as int)
                &&& final(a).fails == old(a).fails
                &&& final(a).state matches Some(h) && h@ == (HeapV {
                    base: (b * 4096 + hhdm) as u64,
                    size: 0x400_0000,
                    free: seq![Block { addr: (b * 4096 + hhdm) as u64, size: 0x400_0000 }],
                    live: Seq::empty(),
                    allocated: 0,
                    allocs: 0,
                    frees: 0,
                })
            },
{
    match frames::alloc_contig(f, HEAP_FRAMES) {
        None => false,
        Some(phys) => {
            let ghost b = (phys / 4096) as int;
            assert(crate::mem::frames::run_free(old(f)@.taken, b, HEAP_FRAMES as int));
            proof {
                old(f).lemma_wf();
            }
            let base: u64 = phys + hhdm;
            let mut free: Vec<Block> = Vec::new();
            free.push(Block { addr: base, size: 0x400_0000 });
            let h = HeapState {
                base,
                size: 0x400_0000,
                free,
                live: Vec::new(),
                allocated: 0,
                allocs: 0,
                frees: 0,
            };
            proof {
                assert(h.free@ =~= seq![Block { addr: base, size: 0x400_0000 }]);
                assert(h.live@ =~= Seq::empty());
                assert(free_bytes(h.free@.drop_last()) == 0);
                assert(phys == b * 4096);
                assert(crate::mem::frames::lowest_run(old(f)@.taken, b, HEAP_FRAMES as int));
            }
            a.state = Some(h);
            true
        },
    }
}

/// The figures of the heap, if it is there.
pub fn stats(a: &GlmAlloc) -> (r: Option<HeapStats>)
    requires
        a.state matches Some(h) ==> h@.size <= usize::MAX && h@.allocated <= usize::MAX,
    ensures
        match (a.state, r) {
            (Some(h), Some(s)) => s.size == h@.size && s.allocated == h@.allocated && s.allocs == h@.allocs && s.frees
                == h@.frees && s.fails == a.fails,
            (None, None) => true,
            _ => false,
        },
{
    match &a.state {
        Some(h) => Some(
            HeapStats {
                size: h.size as usize,
                allocated: h.allocated as usize,
                allocs: h.allocs,
                frees: h.frees,
                fails: a.fails,
            },
        ),
        None => None,
    }
}

// ---------------------------------------------------------------------------
// Laws
// ---------------------------------------------------------------------------
/// What is handed out is aligned, lies in the heap, and overlaps no payload
/// that was in use before.
pub proof fn law_payloads_do_not_overlap(h: HeapV, size: u64, align: u64)
    requires
        h.wf(),
        align > 0,
        alloc_spec(h, size, align).1 is Some,
    ensures
        ({
            let p = alloc_spec(h, size, align).1->Some_0;
            &&& p % align == 0
            &&& h.base <= p
            &&& p + size <= h.base + h.size
            &&& forall|k: int|
                0 <= k < h.live.len() ==> apart(
                    p as int,
                    size as int,
                    (#[trigger] h.live[k]).payload as int,
                    h.live[k].payload_size as int,
                )
        }),
{
    let n = need(size as int, align as int);
    crate::seqs::lemma_first_from(h.free, fits(n), 0);
    let i = crate::seqs::first(h.free, fits(n))->Some_0;
    lemma_placed(h.free[i], size, align);
    assert forall|k: int| 0 <= k < h.live.len() implies apart(
        alloc_spec(h, size, align).1->Some_0 as int,
        size as int,
        (#[trigger] h.live[k]).payload as int,
        h.live[k].payload_size as int,
    ) by {
        assert(apart(h.free[i].addr as int, h.free[i].size as int, h.live[k].block as int, h.live[k].block_size as int));
        assert(header_ok(h.base as int, h.size as int, h.live[k]));
    }
}

/// A request fails only if it is empty, too large, or no free block is as
/// long as the payload, its header and the alignment may need.
pub proof fn law_allocation_owed(h: HeapV, size: u64, align: u64, i: int)
    requires
        0 < size <= MAX_REQUEST,
        0 <= i < h.free.len(),
        h.free[i].size >= need(size as int, align as int),
    ensures
        alloc_spec(h, size, align).1 is Some,
{
    let n = need(size as int, align as int);
    crate::seqs::lemma_first_from(h.free, fits(n), 0);
    assert(fits(n)(h.free[i]));
}

/// Giving back what was just handed out restores the free list and the figure
/// of allocated bytes.
#[verifier::rlimit(40)]
pub proof fn law_free_undoes_alloc(h: HeapV, size: u64, align: u64)
    requires
        h.wf(),
        align > 0,
        alloc_spec(h, size, align).1 is Some,
    ensures
        ({
            let (g, p) = alloc_spec(h, size, align);
            let f = free_spec(g, p->Some_0);
            &&& f.free == h.free
            &&& f.live == h.live
            &&& f.allocated == h.allocated
        }),
{
    let n = need(size as int, align as int);
    crate::seqs::lemma_first_from(h.free, fits(n), 0);
    let i = crate::seqs::first(h.free, fits(n))->Some_0;
    let b = h.free[i];
    lemma_placed(b, size, align);
    lemma_alloc_wf(h, size, align);
    law_payloads_do_not_overlap(h, size, align);
    let (g, r) = alloc_spec(h, size, align);
    let p = r->Some_0;
    let d = placed(b, size, align);
    let k = h.live.len() as int;
    assert(g.live[k] == d);
    assert forall|l: int| 0 <= l < k implies !has_payload(p)(#[trigger] g.live[l]) by {
        assert(g.live[l] == h.live[l]);
        assert(header_ok(h.base as int, h.size as int, h.live[l]));
        assert(apart(p as int, size as int, h.live[l].payload as int, h.live[l].payload_size as int));
    }
    crate::seqs::lemma_first_is(g.live, has_payload(p), 0, k);
    let f = free_spec(g, p);
    assert(f.live =~= h.live);
    assert(payload_bytes(g.live) == payload_bytes(h.live) + size) by {
        assert(g.live.drop_last() =~= h.live);
    }
    let back = Block { addr: d.block, size: d.block_size };
    if d.block_size < b.size {
        // the tail lies right above the block: they merge
        assert forall|j: int| 0 <= j < i implies !lies_above(back.addr)(#[trigger] g.free[j]) by {
            assert(g.free[j] == h.free[j]);
            assert(h.free[j].addr + h.free[j].size < h.free[i].addr);
        }
        assert(lies_above(back.addr)(g.free[i]));
        crate::seqs::lemma_first_is(g.free, lies_above(back.addr), 0, i);
        if i > 0 {
            assert(h.free[i - 1].addr + h.free[i - 1].size < h.free[i].addr);
            assert(g.free[i - 1] == h.free[i - 1]);
        }
        assert(put_back(g.free, back) =~= h.free);
    } else {
        assert(g.free == h.free.remove(i));
        assert forall|j: int| 0 <= j < i implies !lies_above(back.addr)(#[trigger] g.free[j]) by {
            assert(g.free[j] == h.free[j]);
            assert(h.free[j].addr + h.free[j].size < h.free[i].addr);
        }
        if i < g.free.len() {
            assert(g.free[i] == h.free[i + 1]);
            assert(h.free[i].addr + h.free[i].size < h.free[i + 1].addr);
            assert(lies_above(back.addr)(g.free[i]));
            crate::seqs::lemma_first_is(g.free, lies_above(back.addr), 0, i);
        } else {
            crate::seqs::lemma_first_none(g.free, lies_above(back.addr), 0);
        }
        if i > 0 {
            assert(h.free[i - 1].addr + h.free[i - 1].size < h.free[i].addr);
            assert(g.free[i - 1] == h.free[i - 1]);
        }
        assert(put_back(g.free, back) =~= h.free);
    }
}

/// A sound heap passes the walk as long as its free list is not too long.
pub proof fn law_sound_heap_passes_the_walk(h: HeapV)
    requires
        h.wf(),
        h.free.len() <= MAX_NODES,
    ensures
        walk_ok(h),
{
    assert forall|i: int| 1 <= i < h.free.len() implies h.free[i - 1].addr + h.free[i - 1].size <= (
    #[trigger] h.free[i]).addr by {
        assert(h.free[i - 1].addr + h.free[i - 1].size < h.free[i].addr);
    }
}

} // verus!
