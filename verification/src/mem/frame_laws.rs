//! What the table of frames knows of the machine's memory.

use vstd::prelude::*;

use crate::mem::frames::{FramesV, Region};

verus! {

/// All of frame `i` lies in a region that may be used, and it is not the first
/// of the machine.
pub open spec fn usable_in(r: Region, i: int) -> bool {
    &&& r.usable
    &&& r.base <= i * 4096
    &&& (i + 1) * 4096 <= r.base + r.length
    &&& i > 0
}

/// The table is made from the map of the machine's memory: exactly the frames
/// that lie whole in a region that may be used are free.
#[verifier::spinoff_prover]
pub proof fn law_free_memory_is_usable_memory(taken: Seq<bool>, map: Seq<Region>, k: int, i: int)
    requires
        taken.len() == 0x4_0000,
        0 <= k <= map.len(),
        0 <= i < 0x4_0000,
    ensures
        crate::mem::frames::taken_in(taken, map, k).0.len() == 0x4_0000,
        crate::mem::frames::taken_in(taken, map, k).0[i] == (taken[i] && forall|j: int|
            0 <= j < k ==> !usable_in(#[trigger] map[j], i)),
    decreases k,
{
    if k > 0 {
        law_free_memory_is_usable_memory(taken, map, k - 1, i);
        let r = map[k - 1];
        let (u, _, _) = crate::mem::frames::taken_in(taken, map, k - 1);
        let (s, e) = (crate::mem::frames::region_start(r), crate::mem::frames::region_end(r));
        assert(s <= i < e <==> r.base <= i * 4096 && (i + 1) * 4096 <= r.base + r.length && i > 0);
        let v = crate::mem::frames::taken_in(taken, map, k).0;
        assert(v[i] == (u[i] && !usable_in(r, i)));
        if v[i] {
            assert forall|j: int| 0 <= j < k implies !usable_in(#[trigger] map[j], i) by {
                if j < k - 1 {
                    assert(!usable_in(map[j], i));
                }
            }
        } else if u[i] {
            assert(usable_in(map[k - 1], i));
        } else if taken[i] {
            let j = choose|j: int| 0 <= j < k - 1 && usable_in(#[trigger] map[j], i);
            assert(usable_in(map[j], i));
        }
    }
}

/// A run of frames: all free before and taken after, one behind the other from
/// the address that is returned, with all others as they were; and the first
/// such run. Without one nothing is taken.
pub proof fn law_contiguous_frames(f: FramesV, n: usize)
    requires
        f.wf(),
        n > 0,
    ensures
        ({
            let (g, r) = crate::mem::frames::contig_spec(f, n);
            &&& r matches Some(pa) ==> {
                let b = (pa / 4096) as int;
                &&& pa % 4096 == 0
                &&& b + n <= 0x4_0000
                &&& forall|i: int| b <= i < b + n ==> !(#[trigger] f.taken[i])
                &&& forall|i: int| b <= i < b + n ==> #[trigger] g.taken[i]
                &&& forall|i: int| 0 <= i < 0x4_0000 && !(b <= i < b + n) ==> #[trigger] g.taken[i] == f.taken[i]
                &&& g.refs == f.refs
            }
            &&& r is None ==> g == f
        }),
{
    lemma_run(f.taken, 0, n as int);
    let (g, r) = crate::mem::frames::contig_spec(f, n);
    if r is Some {
        let b = crate::mem::frames::first_run(f.taken, 0, n as int)->Some_0;
        assert((b * 4096) / 4096 == b);
        assert forall|i: int| b <= i < b + n implies !(#[trigger] f.taken[i]) by {
            assert(crate::mem::frames::run_free(f.taken, b, n as int));
        }
    }
}

proof fn lemma_run(taken: Seq<bool>, b: int, n: int)
    requires
        taken.len() == 0x4_0000,
        0 <= b,
        n > 0,
    ensures
        crate::mem::frames::first_run(taken, b, n) matches Some(x) ==> b <= x && crate::mem::frames::run_free(taken, x, n),
    decreases taken.len() - b,
{
    if b < taken.len() && b + n <= taken.len() && !crate::mem::frames::run_free(taken, b, n) {
        lemma_run(taken, b + 1, n);
    }
}

/// A frame that two share is given back when the second of them lets it go,
/// and not before.
pub proof fn law_shared_frame_is_freed_by_the_last(f: FramesV, pa: u64)
    requires
        f.wf(),
        pa / 4096 < 0x4_0000,
        f.taken[(pa / 4096) as int],
        f.refs[(pa / 4096) as int] == 0,
    ensures
        ({
            let i = (pa / 4096) as int;
            let a = crate::mem::frames::add_ref_spec(f, pa);
            let (b, freed) = crate::mem::frames::release_spec(a, pa);
            let (c, freed2) = crate::mem::frames::release_spec(b, pa);
            &&& !freed && b.taken[i]
            &&& freed2 && !c.taken[i]
            &&& forall|j: int| 0 <= j < 0x4_0000 && j != i ==> #[trigger] c.taken[j] == f.taken[j]
        }),
{
}

} // verus!
