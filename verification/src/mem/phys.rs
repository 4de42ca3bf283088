//! Physical memory as the kernel sees it through its direct map: frames of
//! 512 words, of which those never written hold zeros.

use std::collections::HashMap;

use vstd::prelude::*;

verus! {

/// Words in a frame.
pub const FRAME_WORDS: usize = 512;

/// Physical memory.
pub struct PhysMem {
    frames: HashMap<u64, Vec<u64>>,
}

/// A frame full of zeros.
pub open spec fn zero_frame() -> Seq<u64> {
    Seq::new(512, |i: int| 0u64)
}

/// The words of frame number `f`.
pub open spec fn frame_at(m: Map<u64, Seq<u64>>, f: u64) -> Seq<u64> {
    if m.dom().contains(f) {
        m[f]
    } else {
        zero_frame()
    }
}

/// Word `i` of the frame at physical address `pa`.
pub open spec fn word_at(m: Map<u64, Seq<u64>>, pa: u64, i: int) -> u64 {
    frame_at(m, pa / 4096)[i]
}

/// Memory with word `i` of the frame at `pa` set.
pub open spec fn with_word(m: Map<u64, Seq<u64>>, pa: u64, i: int, v: u64) -> Map<u64, Seq<u64>> {
    m.insert(pa / 4096, frame_at(m, pa / 4096).update(i, v))
}

/// Memory with the frame at `pa` cleared.
pub open spec fn cleared(m: Map<u64, Seq<u64>>, pa: u64) -> Map<u64, Seq<u64>> {
    m.insert(pa / 4096, zero_frame())
}

/// Memory with the frame at `from` copied to the one at `to`.
pub open spec fn copied(m: Map<u64, Seq<u64>>, from: u64, to: u64) -> Map<u64, Seq<u64>> {
    m.insert(to / 4096, frame_at(m, from / 4096))
}

/// Byte `k` of a word, the lowest first.
pub open spec fn byte_of(w: u64, k: u64) -> u8 {
    ((w >> (8 * k) as u64) & 0xFF) as u8
}

/// A word with its byte `k` set.
pub open spec fn with_byte(w: u64, k: u64, b: u8) -> u64 {
    (w & !(0xFFu64 << (8 * k) as u64)) | ((b as u64) << (8 * k) as u64)
}

/// The byte at physical address `pa`.
pub open spec fn byte_at(m: Map<u64, Seq<u64>>, pa: u64) -> u8 {
    byte_of(word_at(m, pa, (pa % 4096 / 8) as int), pa % 8)
}

/// Memory with the byte at `pa` set.
pub open spec fn with_byte_at(m: Map<u64, Seq<u64>>, pa: u64, b: u8) -> Map<u64, Seq<u64>> {
    let i = (pa % 4096 / 8) as int;
    with_word(m, pa, i, with_byte(word_at(m, pa, i), pa % 8, b))
}

/// Setting a byte of a word sets that byte and no other.
pub proof fn lemma_with_byte(w: u64, k: u64, b: u8, j: u64)
    requires
        k < 8,
        j < 8,
    ensures
        byte_of(with_byte(w, k, b), j) == if j == k {
            b
        } else {
            byte_of(w, j)
        },
{
    let bw = b as u64;
    let p = (8 * k) as u64;
    let q = (8 * j) as u64;
    let x = (w & !(0xFFu64 << p)) | (bw << p);
    assert(p == q ==> (x >> q) & 0xFF == bw) by (bit_vector)
        requires
            x == (w & !(0xFFu64 << p)) | (bw << p),
            p % 8 == 0 && p < 64,
            q % 8 == 0 && q < 64,
            bw <= 0xFF,
    ;
    assert(p != q ==> (x >> q) & 0xFF == (w >> q) & 0xFF) by (bit_vector)
        requires
            x == (w & !(0xFFu64 << p)) | (bw << p),
            p % 8 == 0 && p < 64,
            q % 8 == 0 && q < 64,
            bw <= 0xFF,
    ;
}

/// What a byte write does to a byte read.
pub proof fn lemma_byte_write(m: Map<u64, Seq<u64>>, pa: u64, b: u8, at: u64)
    requires
        forall|f: u64| m.dom().contains(f) ==> (#[trigger] m[f]).len() == 512,
    ensures
        byte_at(with_byte_at(m, pa, b), at) == if at == pa {
            b
        } else {
            byte_at(m, at)
        },
{
    let i = (pa % 4096 / 8) as int;
    let j = (at % 4096 / 8) as int;
    if pa / 4096 == at / 4096 && i == j {
        lemma_with_byte(word_at(m, pa, i), pa % 8, b, at % 8);
        assert(pa % 8 == at % 8 ==> pa == at);
    }
}

impl PhysMem {
    pub closed spec fn view(&self) -> Map<u64, Seq<u64>> {
        self.frames@.map_values(|v: Vec<u64>| v@)
    }

    /// Every frame that was written has its 512 words.
    pub closed spec fn wf(&self) -> bool {
        forall|f: u64| self.frames@.dom().contains(f) ==> (#[trigger] self.frames@[f])@.len() == 512
    }

    /// Well-formedness over the view.
    pub proof fn lemma_wf(&self)
        requires
            self.wf(),
        ensures
            forall|f: u64| self@.dom().contains(f) ==> (#[trigger] self@[f]).len() == 512,
    {
    }

    /// Memory that was never written.
    pub fn new() -> (m: PhysMem)
        ensures
            m.wf(),
            m@ == Map::<u64, Seq<u64>>::empty(),
    {
        broadcast use vstd::std_specs::hash::group_hash_axioms;

        let m = PhysMem { frames: HashMap::new() };
        assert(m@ =~= Map::<u64, Seq<u64>>::empty());
        m
    }

    /// Word `i` of the frame at physical address `pa`.
    pub fn word(&self, pa: u64, i: usize) -> (w: u64)
        requires
            self.wf(),
            i < 512,
        ensures
            w == word_at(self@, pa, i as int),
    {
        broadcast use vstd::std_specs::hash::group_hash_axioms;

        match self.frames.get(&(pa / 4096)) {
            Some(f) => f[i],
            None => 0,
        }
    }

    /// Takes the words of a frame out, zeros if it was never written.
    fn take_frame(&mut self, f: u64) -> (v: Vec<u64>)
        requires
            old(self).wf(),
        ensures
            final(self).wf(),
            v@ == frame_at(old(self)@, f),
            v@.len() == 512,
            final(self)@ == old(self)@.remove(f),
    {
        broadcast use vstd::std_specs::hash::group_hash_axioms;

        let r = match self.frames.remove(&f) {
            Some(v) => v,
            None => {
                let z: Vec<u64> = vec![0u64; 512];
                assert(z@ =~= zero_frame());
                z
            },
        };
        assert(self@ =~= old(self)@.remove(f));
        r
    }

    /// Puts a frame back.
    fn put_frame(&mut self, f: u64, v: Vec<u64>)
        requires
            old(self).wf(),
            v@.len() == 512,
        ensures
            final(self).wf(),
            final(self)@ == old(self)@.insert(f, v@),
    {
        broadcast use vstd::std_specs::hash::group_hash_axioms;

        self.frames.insert(f, v);
        assert(self@ =~= old(self)@.insert(f, v@));
    }

    /// Sets word `i` of the frame at physical address `pa`.
    pub fn set_word(&mut self, pa: u64, i: usize, w: u64)
        requires
            old(self).wf(),
            i < 512,
        ensures
            final(self).wf(),
            final(self)@ == with_word(old(self)@, pa, i as int, w),
    {
        let mut v = self.take_frame(pa / 4096);
        v[i] = w;
        self.put_frame(pa / 4096, v);
        assert(self@ =~= with_word(old(self)@, pa, i as int, w));
    }

    /// Clears the frame at physical address `pa`.
    pub fn clear(&mut self, pa: u64)
        requires
            old(self).wf(),
        ensures
            final(self).wf(),
            final(self)@ == cleared(old(self)@, pa),
    {
        let z: Vec<u64> = vec![0u64; 512];
        assert(z@ =~= zero_frame());
        self.put_frame(pa / 4096, z);
    }

    /// Copies the frame at `from` to the one at `to`.
    pub fn copy_frame(&mut self, from: u64, to: u64)
        requires
            old(self).wf(),
        ensures
            final(self).wf(),
            final(self)@ == copied(old(self)@, from, to),
    {
        let mut v: Vec<u64> = Vec::new();
        let mut i: usize = 0;
        while i < 512
            invariant
                i <= 512,
                self.wf(),
                *self == *old(self),
                v@.len() == i,
                forall|j: int| 0 <= j < i ==> #[trigger] v@[j] == frame_at(self@, from / 4096)[j],
            decreases 512 - i,
        {
            v.push(self.word(from, i));
            i = i + 1;
        }
        proof {
            self.lemma_wf();
        }
        assert(v@ =~= frame_at(self@, from / 4096));
        self.put_frame(to / 4096, v);
    }

    /// The byte at physical address `pa`.
    pub fn byte(&self, pa: u64) -> (b: u8)
        requires
            self.wf(),
        ensures
            b == byte_at(self@, pa),
    {
        let w: u64 = self.word(pa, (pa % 4096 / 8) as usize);
        let k: u64 = pa % 8;
        ((w >> (8 * k)) & 0xFF) as u8
    }

    /// Sets the byte at physical address `pa`.
    pub fn set_byte(&mut self, pa: u64, b: u8)
        requires
            old(self).wf(),
        ensures
            final(self).wf(),
            final(self)@ == with_byte_at(old(self)@, pa, b),
    {
        let i: usize = (pa % 4096 / 8) as usize;
        let w: u64 = self.word(pa, i);
        let k: u64 = pa % 8;
        let v: u64 = (w & !(0xFFu64 << (8 * k))) | ((b as u64) << (8 * k));
        self.set_word(pa, i, v);
    }
}

} // verus!
