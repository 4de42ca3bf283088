//! FAT32 write support: FAT updates, cluster allocation, files in the root
//! directory.

use vstd::prelude::*;
use vstd::slice::{slice_subrange, slice_to_vec};

use crate::bytes::get_le2;
use crate::disk::{BlockDev, SECTOR};
use crate::fs::dir::{find_group, find_slot, make_dirent, short_name_taken, slot_fields, to_83};
use crate::fs::fat32::{trim_path, Fat32, FatV, FsErr, EOC, EOC_MIN, GUARD};

verus! {

// ---------------------------------------------------------------------------
// Sectors and the FAT
// ---------------------------------------------------------------------------
/// Writing one sector: what becomes of the volume, and whether it worked.
pub open spec fn write_one(v: FatV, lba: int, sec: Seq<u8>) -> (FatV, bool) {
    if v.writable && lba < v.disk.len() {
        (FatV { disk: v.disk.update(lba, sec), ..v }, true)
    } else {
        (v, false)
    }
}

/// Byte `i` of the FAT sector that starts at entry `base`.
pub open spec fn fat_byte(fat: Seq<u32>, base: int, i: int) -> u8 {
    crate::bytes::le4(fat[base + i / 4])[i % 4]
}

/// The bytes of FAT sector `so`.
pub open spec fn fat_sector(fat: Seq<u32>, so: int) -> Seq<u8> {
    Seq::new(512, |i: int| fat_byte(fat, so * 128, i))
}

/// Writing FAT sector `so` into the copies from the `f`-th on.
pub open spec fn put_copies(v: FatV, so: int, f: int) -> (FatV, bool)
    decreases v.num_fats - f,
{
    if f < 0 || f >= v.num_fats {
        (v, true)
    } else {
        let (v1, ok) = write_one(v, v.fat_begin + f * v.fat_size + so, fat_sector(v.fat, so));
        if ok {
            put_copies(v1, so, f + 1)
        } else {
            (v1, false)
        }
    }
}

pub open spec fn fat_set_spec(v: FatV, c: u32, val: u32) -> (FatV, Result<(), FsErr>) {
    if c >= v.fat.len() {
        (v, Err(FsErr::Msg("fat index out of range"@)))
    } else {
        let (v1, ok) = put_copies(FatV { fat: v.fat.update(c as int, val), ..v }, (c / 128) as int, 0);
        (
            v1,
            if ok {
                Ok(())
            } else {
                Err(FsErr::Dev)
            },
        )
    }
}

pub open spec fn is_zero() -> spec_fn(u32) -> bool {
    |x: u32| x == 0
}

/// The first free cluster.
pub open spec fn first_free(v: FatV) -> Option<int> {
    crate::seqs::first_from(v.fat, is_zero(), 2)
}

pub open spec fn alloc_spec(v: FatV) -> (FatV, Option<u32>) {
    match first_free(v) {
        None => (v, None),
        Some(i) => {
            let (v1, r) = fat_set_spec(v, i as u32, EOC);
            if r is Ok {
                (v1, Some(i as u32))
            } else {
                (FatV { fat: v1.fat.update(i, 0u32), ..v1 }, None)
            }
        },
    }
}

pub open spec fn free_spec(v: FatV, c: u32, fuel: nat) -> (FatV, Result<(), FsErr>)
    decreases fuel,
{
    if c < 2 || c >= v.fat.len() || fuel == 0 {
        (v, Ok(()))
    } else {
        let next = v.fat[c as int];
        let (v1, r) = fat_set_spec(v, c, 0);
        if r is Err {
            (v1, r)
        } else if next >= EOC_MIN || next < 2 {
            (v1, Ok(()))
        } else {
            free_spec(v1, next, (fuel - 1) as nat)
        }
    }
}

// ---------------------------------------------------------------------------
// Chains
// ---------------------------------------------------------------------------
/// What allocating a chain gives: its clusters, or why not.
pub open spec fn alloc_chain(v: FatV, chain: Seq<u32>, need: nat) -> (FatV, Seq<u32>, Result<(), FsErr>)
    decreases need - chain.len(),
{
    if chain.len() >= need {
        (v, chain, Ok(()))
    } else {
        let (v1, got) = alloc_spec(v);
        match got {
            None => (rolled_back(v1, chain, 0), chain, Err(FsErr::Msg("disk full"@))),
            Some(c) => if chain.len() > 0 {
                let (v2, r) = fat_set_spec(v1, chain.last(), c);
                if r is Err {
                    (v2, chain, r)
                } else {
                    alloc_chain(v2, chain.push(c), need)
                }
            } else {
                alloc_chain(v1, chain.push(c), need)
            },
        }
    }
}

/// The volume after everything taken so far has been given back.
pub open spec fn rolled_back(v: FatV, chain: Seq<u32>, i: int) -> FatV
    decreases chain.len() - i,
{
    if i < 0 || i >= chain.len() {
        v
    } else {
        rolled_back(free_spec(v, chain[i], GUARD as nat).0, chain, i + 1)
    }
}

/// The 512 bytes of `data` from `off` on, zero-padded.
pub open spec fn data_sector(data: Seq<u8>, off: int) -> Seq<u8> {
    Seq::new(
        512,
        |j: int|
            if off + j < data.len() {
                data[off + j]
            } else {
                0u8
            },
    )
}

/// Writing `data` into the clusters of `chain`, from sector `s` of the `i`-th
/// cluster on.
pub open spec fn put_data(v: FatV, chain: Seq<u32>, data: Seq<u8>, i: int, s: int) -> (FatV, bool)
    decreases chain.len() - i, v.spc - s,
{
    if i < 0 || i >= chain.len() {
        (v, true)
    } else if s < 0 || s >= v.spc {
        put_data(v, chain, data, i + 1, 0)
    } else {
        let (v1, ok) = write_one(v, v.lba(chain[i]) + s, data_sector(data, (i * v.spc + s) * 512));
        if ok {
            put_data(v1, chain, data, i, s + 1)
        } else {
            (v1, false)
        }
    }
}

/// How many clusters `len` bytes need.
pub open spec fn clusters_for(v: FatV, len: nat) -> nat {
    let cs = (v.spc * 512) as nat;
    if len % cs == 0 {
        len / cs
    } else {
        len / cs + 1
    }
}

pub open spec fn write_chain_spec(v: FatV, data: Seq<u8>) -> (FatV, Result<u32, FsErr>) {
    let need = clusters_for(v, data.len());
    if need == 0 {
        (v, Ok(0u32))
    } else {
        let (v1, chain, r) = alloc_chain(v, Seq::empty(), need);
        match r {
            Err(e) => (v1, Err(e)),
            Ok(_) => {
                let (v2, ok) = put_data(v1, chain, data, 0, 0);
                (
                    v2,
                    if ok {
                        Ok(chain[0])
                    } else {
                        Err(FsErr::Dev)
                    },
                )
            },
        }
    }
}

/// Replacing slot `idx` of the directory whose clusters are `dir`.
pub open spec fn patch_spec(v: FatV, dir: Seq<u32>, idx: int, e: Seq<u8>) -> (FatV, Result<(), FsErr>) {
    let sec = idx / 16;
    let lba = v.lba(dir[sec / v.spc]) + sec % v.spc;
    if sec / v.spc >= dir.len() {
        (v, Err(FsErr::Msg("dir slot beyond chain"@)))
    } else if lba >= v.disk.len() {
        (v, Err(FsErr::Dev))
    } else {
        let (v1, ok) = write_one(v, lba, crate::bytes::overlay(v.disk[lba], (idx % 16) * 32, e));
        (
            v1,
            if ok {
                Ok(())
            } else {
                Err(FsErr::Dev)
            },
        )
    }
}

impl<D: BlockDev> Fat32<D> {
    fn put_sector(&mut self, lba: u64, sec: &Vec<u8>) -> (r: Result<(), &'static str>)
        requires
            old(self).wf(),
            sec@.len() == 512,
        ensures
            final(self).keeps(old(self)),
            final(self)@.fat == old(self)@.fat,
            old(self).dev.faultless() || r is Ok ==> (final(self)@, r is Ok) == write_one(old(self)@, lba as int, sec@),
            r matches Err(e) ==> old(self).refuses(e@),
    {
        let r: Result<(), &'static str> = self.dev.write_sectors(lba, 1, sec.as_slice());
        proof {
            self.dev.sectors_ok();
            if r is Ok {
                assert(sec@.subrange(0, 512) =~= sec@);
                assert(self@.disk =~= old(self)@.disk.update(lba as int, sec@));
            }
        }
        r
    }

    /// Rewrite one FAT sector in the cache and in every FAT copy on disk.
    pub(crate) fn fat_set(&mut self, cluster: u32, val: u32) -> (r: Result<(), &'static str>)
        requires
            old(self).wf(),
        ensures
            final(self).keeps(old(self)),
            old(self).did(final(self), r, fat_set_spec(old(self)@, cluster, val)),
            r matches Err(e) ==> old(self).refuses(e@) || own_message(e@),
            cluster < old(self)@.fat.len() ==> final(self)@.fat == old(self)@.fat.update(cluster as int, val),
            cluster >= old(self)@.fat.len() ==> *final(self) == *old(self),
    {
        let idx: usize = cluster as usize;
        if idx >= self.fat.len() {
            return Err("fat index out of range");
        }
        let ghost v0 = self@;
        let ghost fine = self.dev.faultless();
        self.fat[idx] = val;
        let ghost v1 = FatV { fat: v0.fat.update(cluster as int, val), ..v0 };
        assert(self@ == v1);
        let so: usize = idx / 128;
        let base: usize = so * 128;
        let mut sec: Vec<u8> = Vec::new();
        let mut k: usize = 0;
        while k < 512
            invariant
                k <= 512,
                base + 128 <= self.fat@.len(),
                base == so * 128,
                sec@.len() == k,
                forall|i: int| 0 <= i < k ==> #[trigger] sec@[i] == fat_byte(self.fat@, base as int, i),
            decreases 512 - k,
        {
            let x: u32 = self.fat[base + k / 4];
            let b: u32 = if k % 4 == 0 {
                x % 256
            } else if k % 4 == 1 {
                x / 256 % 256
            } else if k % 4 == 2 {
                x / 0x1_0000 % 256
            } else {
                x / 0x100_0000
            };
            sec.push(b as u8);
            k = k + 1;
        }
        assert(sec@ =~= fat_sector(self@.fat, so as int));
        let n: u64 = self.num_fats;
        let mut f: u64 = 0;
        while f < n
            invariant
                f <= n,
                n == self.num_fats,
                self.keeps(old(self)),
                fine == old(self).dev.faultless(),
                self@.fat == v1.fat,
                v1.fat == old(self)@.fat.update(cluster as int, val),
                cluster < old(self)@.fat.len(),
                v1 == (FatV { fat: old(self)@.fat.update(cluster as int, val), ..old(self)@ }),
                so == cluster / 128,
                so < self.fat_size,
                sec@ == fat_sector(v1.fat, so as int),
                put_copies(v1, so as int, 0) == put_copies(self@, so as int, f as int),
            decreases n - f,
        {
            assert(f * self.fat_size <= 255 * 8192) by (nonlinear_arith)
                requires
                    f <= 255,
                    self.fat_size <= 8192,
            ;
            let lba: u64 = self.fat_begin + f * self.fat_size + so as u64;
            let ghost before = self@;
            match self.put_sector(lba, &sec) {
                Err(e) => {
                    return Err(e);
                },
                Ok(_) => {},
            }
            f = f + 1;
        }
        Ok(())
    }

    /// Allocate one free cluster (marked end-of-chain in cache + on disk).
    pub(crate) fn alloc_cluster(&mut self) -> (r: Option<u32>)
        requires
            old(self).wf(),
        ensures
            final(self).keeps(old(self)),
            old(self).dev.faultless() || r is Some ==> (final(self)@, r) == alloc_spec(old(self)@),
            r matches Some(c) ==> 2 <= c < old(self)@.fat.len(),
    {
        let n: usize = self.fat.len();
        let mut i: usize = 2;
        while i < n
            invariant
                *self == *old(self),
                self.wf(),
                n == self.fat@.len(),
                n <= 1_048_576,
                2 <= i,
                i <= n || n < 2,
                crate::seqs::first_from(self@.fat, is_zero(), i as int) == first_free(self@),
            decreases n - i,
        {
            if self.fat[i] == 0 {
                match self.fat_set(i as u32, EOC) {
                    Err(_) => {
                        self.fat[i] = 0;
                        return None;
                    },
                    Ok(_) => {
                        return Some(i as u32);
                    },
                }
            }
            i = i + 1;
        }
        None
    }

    /// Free a cluster chain (marks every member 0).
    pub(crate) fn free_chain(&mut self, start: u32) -> (r: Result<(), &'static str>)
        requires
            old(self).wf(),
        ensures
            final(self).keeps(old(self)),
            old(self).did(final(self), r, free_spec(old(self)@, start, GUARD as nat)),
            r matches Err(e) ==> old(self).refuses(e@) || own_message(e@),
    {
        let ghost v0 = self@;
        let ghost fine = self.dev.faultless();
        let mut c: u32 = start;
        let mut guard: usize = 0;
        while c >= 2 && (c as usize) < self.fat.len() && guard < GUARD
            invariant
                guard <= GUARD,
                self.keeps(old(self)),
                fine == old(self).dev.faultless(),
                v0 == old(self)@,
                free_spec(self@, c, (GUARD - guard) as nat) == free_spec(v0, start, GUARD as nat),
            decreases GUARD - guard,
        {
            let next: u32 = self.fat[c as usize];
            match self.fat_set(c, 0) {
                Err(e) => {
                    return Err(e);
                },
                Ok(_) => {},
            }
            if next >= EOC_MIN || next < 2 {
                return Ok(());
            }
            c = next;
            guard = guard + 1;
        }
        Ok(())
    }

    /// Give back every cluster of `chain`.
    fn roll_back(&mut self, chain: &Vec<u32>)
        requires
            old(self).wf(),
        ensures
            final(self).keeps(old(self)),
            old(self).dev.faultless() ==> final(self)@ == rolled_back(old(self)@, chain@, 0),
    {
        let ghost v0 = self@;
        let ghost fine = self.dev.faultless();
        let mut i: usize = 0;
        while i < chain.len()
            invariant
                i <= chain@.len(),
                self.keeps(old(self)),
                fine == old(self).dev.faultless(),
                v0 == old(self)@,
                fine ==> rolled_back(self@, chain@, i as int) == rolled_back(v0, chain@, 0),
            decreases chain@.len() - i,
        {
            let _r: Result<(), &'static str> = self.free_chain(chain[i]);
            i = i + 1;
        }
    }

    /// Allocate a fresh chain of `n` clusters and fill it with `data`
    /// (zero-padded to the last sector). Returns the first cluster (0 for
    /// empty data).
    fn write_chain(&mut self, data: &[u8]) -> (r: Result<u32, &'static str>)
        requires
            old(self).wf(),
        ensures
            final(self).keeps(old(self)),
            old(self).did(final(self), r, write_chain_spec(old(self)@, data@)),
            r matches Err(e) ==> old(self).refuses(e@) || own_message(e@),
    {
        let ghost v0 = self@;
        let ghost fine = self.dev.faultless();
        let spc: usize = self.sectors_per_cluster as usize;
        let cs: usize = spc * SECTOR;
        let whole: usize = data.len() / cs;
        assert(whole * 512 <= data@.len()) by {
            vstd::arithmetic::div_mod::lemma_fundamental_div_mod(data@.len() as int, cs as int);
            vstd::arithmetic::mul::lemma_mul_inequality(512, cs as int, whole as int);
            vstd::arithmetic::mul::lemma_mul_is_commutative(512, whole as int);
        }
        let need: usize = if data.len() % cs == 0 {
            whole
        } else {
            whole + 1
        };
        assert(need == clusters_for(v0, data@.len()));
        if need == 0 {
            return Ok(0);
        }
        let mut chain: Vec<u32> = Vec::new();
        assert(chain@ =~= Seq::<u32>::empty());
        while chain.len() < need
            invariant
                chain@.len() <= need,
                self.keeps(old(self)),
                fine == old(self).dev.faultless(),
                v0 == old(self)@,
                need == clusters_for(v0, data@.len()),
                need > 0,
                alloc_chain(self@, chain@, need as nat) == alloc_chain(v0, Seq::empty(), need as nat),
                forall|i: int| 0 <= i < chain@.len() ==> 2 <= #[trigger] chain@[i],
            decreases need - chain@.len(),
        {
            match self.alloc_cluster() {
                None => {
                    // rollback: free what was taken
                    self.roll_back(&chain);
                    return Err("disk full");
                },
                Some(c) => {
                    if chain.len() > 0 {
                        let last: u32 = chain[chain.len() - 1];
                        match self.fat_set(last, c) {
                            Err(e) => {
                                return Err(e);
                            },
                            Ok(_) => {},
                        }
                    }
                    chain.push(c);
                },
            }
        }
        let ghost v1 = self@;
        let ghost ch = chain@;
        // write content, zero-padding every partial sector
        let mut i: usize = 0;
        while i < chain.len()
            invariant
                i <= chain@.len(),
                chain@.len() == need,
                ch == chain@,
                self.keeps(old(self)),
                fine == old(self).dev.faultless(),
                v0 == old(self)@,
                need == clusters_for(v0, data@.len()),
                need > 0,
                spc == v0.spc,
                v1.same_volume(v0),
                alloc_chain(v0, Seq::empty(), need as nat) == (v1, ch, Ok::<(), FsErr>(())),
                put_data(self@, ch, data@, i as int, 0) == put_data(v1, ch, data@, 0, 0),
                forall|j: int| 0 <= j < chain@.len() ==> 2 <= #[trigger] chain@[j],
            decreases chain@.len() - i,
        {
            let lba: u64 = self.cluster_lba(chain[i]);
            let mut s: usize = 0;
            while s < spc
                invariant
                    s <= spc,
                    i < chain@.len(),
                    chain@.len() == need,
                    ch == chain@,
                    self.keeps(old(self)),
                    fine == old(self).dev.faultless(),
                    v0 == old(self)@,
                    need == clusters_for(v0, data@.len()),
                    need > 0,
                    spc == v0.spc,
                    lba == v0.lba(ch[i as int]),
                    lba <= 0x200_0000_0000,
                    v1.same_volume(v0),
                    alloc_chain(v0, Seq::empty(), need as nat) == (v1, ch, Ok::<(), FsErr>(())),
                    put_data(self@, ch, data@, i as int, s as int) == put_data(v1, ch, data@, 0, 0),
                decreases spc - s,
            {
                let sec: Vec<u8> = build_sector(data, i, s, spc);
                match self.put_sector(lba + s as u64, &sec) {
                    Err(e) => {
                        return Err(e);
                    },
                    Ok(_) => {},
                }
                s = s + 1;
            }
            i = i + 1;
        }
        Ok(chain[0])
    }

    /// Patch one 32-byte directory slot on disk.
    fn patch_slot(&mut self, dir: &Vec<u32>, idx: usize, entry: &Vec<u8>) -> (r: Result<(), &'static str>)
        requires
            old(self).wf(),
            entry@.len() == 32,
            forall|i: int| 0 <= i < dir@.len() ==> 2 <= #[trigger] dir@[i],
        ensures
            final(self).keeps(old(self)),
            final(self)@.fat == old(self)@.fat,
            old(self).did(final(self), r, patch_spec(old(self)@, dir@, idx as int, entry@)),
            r matches Err(e) ==> old(self).refuses(e@) || own_message(e@),
    {
        let spc: usize = self.sectors_per_cluster as usize;
        let sec_i: usize = idx / 16;
        let ci: usize = sec_i / spc;
        if ci >= dir.len() {
            return Err("dir slot beyond chain");
        }
        let lba: u64 = self.cluster_lba(dir[ci]) + (sec_i % spc) as u64;
        let mut sec: Vec<u8> = vec![0u8; SECTOR];
        let got: Result<(), &'static str> = self.dev.read_sectors(lba, 1, &mut sec);
        match got {
            Err(e) => {
                return Err(e);
            },
            Ok(_) => {},
        }
        proof {
            reveal_with_fuel(crate::disk::flat, 2);
            assert(sec@ =~= old(self)@.disk[lba as int]);
        }
        crate::bytes::put_bytes(&mut sec, (idx % 16) * 32, entry.as_slice());
        self.put_sector(lba, &sec)
    }
}

/// The sector of `data` that goes to sector `s` of the `i`-th cluster.
fn build_sector(data: &[u8], i: usize, s: usize, spc: usize) -> (sec: Vec<u8>)
    requires
        s < spc <= 255,
        i <= data@.len() / (spc * 512) as nat,
    ensures
        sec@ == data_sector(data@, (i * spc + s) * 512),
        sec@.len() == 512,
{
    let n: usize = data.len();
    let whole: usize = n / (spc * 512);
    assert(i * (spc * 512) <= n) by {
        let d = (spc * 512) as int;
        vstd::arithmetic::div_mod::lemma_fundamental_div_mod(n as int, d);
        vstd::arithmetic::mul::lemma_mul_inequality(i as int, n as int / d, d);
        vstd::arithmetic::mul::lemma_mul_is_commutative(d, n as int / d);
    }
    assert((i * spc + s) * 512 == i * (spc * 512) + s * 512) by (nonlinear_arith);
    let start: usize = i * (spc * 512);
    let left: usize = n - start;
    let skip: usize = s * 512;
    let mut sec: Vec<u8> = Vec::new();
    let mut j: usize = 0;
    while j < 512
        invariant
            j <= 512,
            n == data@.len(),
            start + left == n,
            skip == s * 512,
            s < 255,
            start + skip == (i * spc + s) * 512,
            sec@.len() == j,
            forall|k: int| 0 <= k < j ==> #[trigger] sec@[k] == data_sector(data@, (i * spc + s) * 512)[k],
        decreases 512 - j,
    {
        if skip + j < left {
            sec.push(data[start + skip + j]);
        } else {
            sec.push(0);
        }
        j = j + 1;
    }
    assert(sec@ =~= data_sector(data@, (i * spc + s) * 512));
    sec
}

// ---------------------------------------------------------------------------
// Files in the root directory
// ---------------------------------------------------------------------------
/// `stem`~`n`
pub open spec fn suffixed(stem: Seq<u8>, n: int) -> Seq<u8> {
    stem + seq![0x7Eu8, (48 + n) as u8]
}

/// The first of the names `stem`~n, n from `n` to 9, that is not taken.
pub open spec fn free_suffix(s: Seq<Seq<u8>>, stem: Seq<u8>, ext: Seq<u8>, n: int) -> Option<int>
    decreases 10 - n,
{
    if n > 9 {
        None
    } else if !crate::fs::dir::taken(s, suffixed(stem, n), ext) {
        Some(n)
    } else {
        free_suffix(s, stem, ext, n + 1)
    }
}

/// The base name of a new entry: the short name itself, or one with a free
/// suffix.
pub open spec fn new_base(s: Seq<Seq<u8>>, base: Seq<u8>, ext: Seq<u8>) -> Option<Seq<u8>> {
    if !crate::fs::dir::taken(s, base, ext) {
        Some(base)
    } else {
        let stem = base.take(
            if base.len() < 6 {
                base.len() as int
            } else {
                6
            },
        );
        match free_suffix(s, stem, ext, 1) {
            Some(n) => Some(suffixed(stem, n)),
            None => None,
        }
    }
}

/// A slot that a new entry can take: deleted, or behind the end.
pub open spec fn is_vacant() -> spec_fn(Seq<u8>) -> bool {
    |e: Seq<u8>| e[0] == 0xE5 || e[0] == 0
}

/// Zeroing the sectors of cluster `c` from the `s`-th on.
pub open spec fn zeroed(v: FatV, c: u32, s: int) -> (FatV, bool)
    decreases v.spc - s,
{
    if s < 0 || s >= v.spc {
        (v, true)
    } else {
        let (v1, ok) = write_one(v, v.lba(c) + s, Seq::new(512, |i: int| 0u8));
        if ok {
            zeroed(v1, c, s + 1)
        } else {
            (v1, false)
        }
    }
}

/// Extending the directory whose clusters are `dir` by one zeroed cluster.
pub open spec fn extend_spec(v: FatV, dir: Seq<u32>) -> (FatV, Result<u32, FsErr>) {
    let (v1, got) = alloc_spec(v);
    match got {
        None => (v1, Err(FsErr::Msg("disk full"@))),
        Some(c) => {
            let (v2, ok) = zeroed(v1, c, 0);
            if !ok {
                (v2, Err(FsErr::Dev))
            } else if dir.len() == 0 {
                (v2, Err(FsErr::Msg("bad root chain"@)))
            } else {
                let (v3, r) = fat_set_spec(v2, dir.last(), c);
                match r {
                    Err(e) => (v3, Err(e)),
                    Ok(_) => (v3, Ok(c)),
                }
            }
        },
    }
}

/// Putting a file's entry into an existing slot: the old chain is freed, then
/// cluster and size are replaced.
pub open spec fn replace_spec(v: FatV, s: Seq<Seq<u8>>, dir: Seq<u32>, idx: int, first: u32, size: u32) -> (
    FatV,
    Result<(), FsErr>,
) {
    let e = s[idx];
    let was = crate::fs::dir::slot_cluster(e);
    let (v1, r) = if was >= 2 {
        free_spec(v, was, GUARD as nat)
    } else {
        (v, Ok(()))
    };
    if r is Err {
        (v1, r)
    } else {
        patch_spec(
            v1,
            dir,
            idx,
            crate::fs::dir::dirent(crate::fs::dir::base_text(e), crate::fs::dir::ext_text(e), first, size),
        )
    }
}

/// Putting a new file's entry into the directory.
pub open spec fn create_spec(v: FatV, s: Seq<Seq<u8>>, dir: Seq<u32>, name: Seq<char>, first: u32, size: u32) -> (
    FatV,
    Result<(), FsErr>,
) {
    let (base0, ext) = crate::fs::dir::short_of(name);
    match new_base(s, base0, ext) {
        None => {
            let (v1, r) = if first >= 2 {
                free_spec(v, first, GUARD as nat)
            } else {
                (v, Ok(()))
            };
            if r is Err {
                (v1, r)
            } else {
                (v1, Err(FsErr::Msg("write: name collision, no free 8.3 name"@)))
            }
        },
        Some(base) => {
            let e = crate::fs::dir::dirent(base, ext, first, size);
            match crate::seqs::first(s, is_vacant()) {
                Some(i) => patch_spec(v, dir, i, e),
                None => {
                    let (v1, r) = extend_spec(v, dir);
                    match r {
                        Err(x) => (v1, Err(x)),
                        Ok(c) => patch_spec(v1, dir.push(c), s.len() as int, e),
                    }
                },
            }
        },
    }
}

/// Whether a path names an entry of the root directory.
pub open spec fn in_root(path: Seq<char>) -> bool {
    let p = crate::fs::fat32::trim_slashes(path);
    p.len() > 0 && !p.contains('/')
}

/// Writing a file into the root directory, of which the slots `s` were read.
pub open spec fn write_file_from(v: FatV, s: Seq<Seq<u8>>, path: Seq<char>, data: Seq<u8>) -> (
    FatV,
    Result<(), FsErr>,
) {
    let p = crate::fs::fat32::trim_slashes(path);
    let dir = v.chain(v.root, GUARD as nat);
    let size = (data.len() % 0x1_0000_0000) as u32;
    if !v.writable {
        (v, Err(FsErr::Msg("media is read-only"@)))
    } else if !in_root(path) {
        (v, Err(FsErr::Msg("write: only root-directory paths are supported"@)))
    } else {
        let (v1, r) = write_chain_spec(v, data);
        match r {
            Err(e) => (v1, Err(e)),
            Ok(first) => match crate::fs::dir::find_short(s, vstd::utf8::encode_utf8(p), 0) {
                Some(idx) => replace_spec(v1, s, dir, idx, first, size),
                None => create_spec(v1, s, dir, p, first, size),
            },
        }
    }
}

pub open spec fn write_file_spec(v: FatV, path: Seq<char>, data: Seq<u8>) -> (FatV, Result<(), FsErr>) {
    write_file_from(v, v.dir(v.root), path, data)
}

/// Marking the slots from the `k`-th to the `end`-th deleted.
pub open spec fn tombstones(v: FatV, s: Seq<Seq<u8>>, dir: Seq<u32>, k: int, end: int) -> (FatV, Result<(), FsErr>)
    decreases end + 1 - k,
{
    if k > end {
        (v, Ok(()))
    } else {
        let (v1, r) = patch_spec(v, dir, k, s[k].update(0, 0xE5u8));
        if r is Err {
            (v1, r)
        } else {
            tombstones(v1, s, dir, k + 1, end)
        }
    }
}

/// Deleting a file of the root directory, of which the slots `s` were read.
pub open spec fn delete_from(v: FatV, s: Seq<Seq<u8>>, path: Seq<char>) -> (FatV, Result<(), FsErr>) {
    let p = crate::fs::fat32::trim_slashes(path);
    let dir = v.chain(v.root, GUARD as nat);
    if !v.writable {
        (v, Err(FsErr::Msg("media is read-only"@)))
    } else if !in_root(path) {
        (v, Err(FsErr::Msg("delete: only root-directory paths are supported"@)))
    } else {
        match crate::fs::dir::find_short(s, vstd::utf8::encode_utf8(p), 0) {
            None => (v, Err(FsErr::Msg("no such file"@))),
            Some(i) => {
                let was = crate::fs::dir::slot_cluster(s[i]);
                let (v1, r) = if was >= 2 {
                    free_spec(v, was, GUARD as nat)
                } else {
                    (v, Ok(()))
                };
                if r is Err {
                    (v1, r)
                } else {
                    tombstones(v1, s, dir, crate::fs::dir::group_start(s, i), i)
                }
            },
        }
    }
}

pub open spec fn delete_spec(v: FatV, path: Seq<char>) -> (FatV, Result<(), FsErr>) {
    delete_from(v, v.dir(v.root), path)
}

/// The messages of the driver itself, once it has begun to write.
pub open spec fn own_message(e: Seq<char>) -> bool {
    ||| e == "fat index out of range"@
    ||| e == "disk full"@
    ||| e == "dir slot beyond chain"@
    ||| e == "bad root chain"@
    ||| e == "write: name collision, no free 8.3 name"@
    ||| e == "no such file"@
}

/// None of them is what a refused request is answered.
proof fn lemma_own_message(e: Seq<char>)
    requires
        own_message(e),
    ensures
        e != "media is read-only"@,
        e != "write: only root-directory paths are supported"@,
        e != "delete: only root-directory paths are supported"@,
{
    reveal_strlit("fat index out of range");
    reveal_strlit("disk full");
    reveal_strlit("dir slot beyond chain");
    reveal_strlit("bad root chain");
    reveal_strlit("write: name collision, no free 8.3 name");
    reveal_strlit("no such file");
    reveal_strlit("media is read-only");
    reveal_strlit("write: only root-directory paths are supported");
    reveal_strlit("delete: only root-directory paths are supported");
    assert("fat index out of range"@.len() == 22);
    assert("disk full"@.len() == 9);
    assert("dir slot beyond chain"@.len() == 21);
    assert("bad root chain"@.len() == 14);
    assert("write: name collision, no free 8.3 name"@.len() == 39);
    assert("no such file"@.len() == 12);
    assert("media is read-only"@.len() == 18);
    assert("write: only root-directory paths are supported"@.len() == 46);
    assert("delete: only root-directory paths are supported"@.len() == 47);
}

/// The three answers to a refused request differ.
proof fn lemma_refused_messages()
    ensures
        "media is read-only"@ != "write: only root-directory paths are supported"@,
        "media is read-only"@ != "delete: only root-directory paths are supported"@,
{
    reveal_strlit("media is read-only");
    reveal_strlit("write: only root-directory paths are supported");
    reveal_strlit("delete: only root-directory paths are supported");
    assert("media is read-only"@.len() == 18);
}

/// A copy of the bytes from `from` to `end`.
fn sub_vec(raw: &Vec<u8>, from: usize, end: usize) -> (r: Vec<u8>)
    requires
        from <= end <= raw@.len(),
    ensures
        r@ == raw@.subrange(from as int, end as int),
{
    slice_to_vec(slice_subrange(raw.as_slice(), from, end))
}

fn has_slash(p: &Vec<char>) -> (r: bool)
    ensures
        r == p@.contains('/'),
{
    let mut i: usize = 0;
    while i < p.len()
        invariant
            i <= p@.len(),
            forall|j: int| 0 <= j < i ==> #[trigger] p@[j] != '/',
        decreases p@.len() - i,
    {
        if p[i] == '/' {
            assert(p@[i as int] == '/');
            return true;
        }
        i = i + 1;
    }
    false
}

/// The UTF-8 bytes of a path without its leading slashes.
fn path_bytes(path: &str, p: &Vec<char>) -> (b: Vec<u8>)
    requires
        p@ == crate::fs::fat32::trim_slashes(path@),
    ensures
        b@ == vstd::utf8::encode_utf8(p@),
{
    let mut s = String::new();
    let mut i: usize = 0;
    while i < p.len()
        invariant
            i <= p@.len(),
            s@ == p@.take(i as int),
        decreases p@.len() - i,
    {
        crate::text::push_char(&mut s, p[i]);
        i = i + 1;
        assert(s@ =~= p@.take(i as int));
    }
    assert(p@.take(p@.len() as int) =~= p@);
    slice_to_vec(s.as_str().as_bytes())
}

/// Picks the base name of a new entry.
fn pick_base(raw: &Vec<u8>, base: Vec<u8>, ext: &Vec<u8>) -> (r: Option<Vec<u8>>)
    requires
        base@.len() <= 8,
    ensures
        r matches Some(b) ==> new_base(crate::fs::dir::slots(raw@), base@, ext@) == Some(b@) && b@.len() <= 8,
        r is None ==> new_base(crate::fs::dir::slots(raw@), base@, ext@) is None,
{
    if !short_name_taken(raw, &base, ext) {
        return Some(base);
    }
    let ghost s = crate::fs::dir::slots(raw@);
    let stem_len: usize = if base.len() < 6 {
        base.len()
    } else {
        6
    };
    let stem: Vec<u8> = sub_vec(&base, 0, stem_len);
    assert(stem@ =~= base@.take(stem_len as int));
    let mut n: u8 = 1;
    while n <= 9
        invariant
            1 <= n <= 10,
            s == crate::fs::dir::slots(raw@),
            stem@.len() <= 6,
            free_suffix(s, stem@, ext@, n as int) == free_suffix(s, stem@, ext@, 1),
            stem@ == base@.take(stem_len as int),
            stem_len == if base@.len() < 6 {
                base@.len()
            } else {
                6
            },
            crate::fs::dir::taken(s, base@, ext@),
        decreases 10 - n,
    {
        let mut cand: Vec<u8> = sub_vec(&stem, 0, stem.len());
        cand.push(0x7E);
        cand.push(48 + n);
        assert(cand@ =~= suffixed(stem@, n as int));
        if !short_name_taken(raw, &cand, ext) {
            return Some(cand);
        }
        n = n + 1;
    }
    None
}

/// The first slot that a new entry can take.
fn find_vacant(raw: &Vec<u8>) -> (r: Option<usize>)
    ensures
        r matches Some(i) ==> crate::seqs::first(crate::fs::dir::slots(raw@), is_vacant()) == Some(i as int),
        r is None ==> crate::seqs::first(crate::fs::dir::slots(raw@), is_vacant()) is None,
{
    let ghost s = crate::fs::dir::slots(raw@);
    let total: usize = raw.len();
    let n: usize = total / 32;
    let mut k: usize = 0;
    while k < n
        invariant
            total == raw@.len(),
            n == total / 32,
            s == crate::fs::dir::slots(raw@),
            k <= n,
            crate::seqs::first_from(s, is_vacant(), k as int) == crate::seqs::first(s, is_vacant()),
        decreases n - k,
    {
        assert(s[k as int][0] == raw@[32 * k]);
        if raw[32 * k] == 0xE5 || raw[32 * k] == 0 {
            return Some(k);
        }
        k = k + 1;
    }
    None
}

/// The slots in the first part of a directory's bytes are the first of its
/// slots.
proof fn lemma_read_slots(raw: Seq<u8>, all: Seq<u8>)
    requires
        raw.is_prefix_of(all),
    ensures
        crate::fs::dir::slots(raw).len() <= crate::fs::dir::slots(all).len(),
        crate::fs::dir::slots(raw) == crate::fs::dir::slots(all).take(crate::fs::dir::slots(raw).len() as int),
{
    let (a, b) = (crate::fs::dir::slots(raw), crate::fs::dir::slots(all));
    assert(raw == all.subrange(0, raw.len() as int));
    assert forall|i: int| 0 <= i < a.len() implies a[i] == b.take(a.len() as int)[i] by {
        assert(raw.subrange(32 * i, 32 * i + 32) =~= all.subrange(32 * i, 32 * i + 32));
    }
    assert(a =~= b.take(a.len() as int));
}

impl<D: BlockDev> Fat32<D> {
    /// Extend the directory chain with one fresh zeroed cluster.
    fn extend_dir(&mut self, dir: &Vec<u32>) -> (r: Result<u32, &'static str>)
        requires
            old(self).wf(),
        ensures
            final(self).keeps(old(self)),
            old(self).did(final(self), r, extend_spec(old(self)@, dir@)),
            r matches Err(e) ==> old(self).refuses(e@) || own_message(e@),
            r matches Ok(c) ==> c >= 2,
    {
        let ghost v0 = self@;
        let ghost fine = self.dev.faultless();
        let c: u32 = match self.alloc_cluster() {
            None => {
                return Err("disk full");
            },
            Some(c) => c,
        };
        let ghost v1 = self@;
        let lba: u64 = self.cluster_lba(c);
        let zero: Vec<u8> = vec![0u8; SECTOR];
        assert(zero@ =~= Seq::new(512, |i: int| 0u8));
        let spc: usize = self.sectors_per_cluster as usize;
        let mut s: usize = 0;
        while s < spc
            invariant
                s <= spc,
                self.keeps(old(self)),
                fine == old(self).dev.faultless(),
                v0 == old(self)@,
                alloc_spec(v0) == (v1, Some(c)),
                spc == v0.spc,
                spc <= 255,
                c >= 2,
                lba == v0.lba(c),
                lba <= 0x200_0000_0000,
                zero@ == Seq::new(512, |i: int| 0u8),
                zeroed(self@, c, s as int) == zeroed(v1, c, 0),
            decreases spc - s,
        {
            match self.put_sector(lba + s as u64, &zero) {
                Err(e) => {
                    return Err(e);
                },
                Ok(_) => {},
            }
            s = s + 1;
        }
        if dir.len() == 0 {
            return Err("bad root chain");
        }
        let tail: u32 = dir[dir.len() - 1];
        match self.fat_set(tail, c) {
            Err(e) => {
                return Err(e);
            },
            Ok(_) => {},
        }
        Ok(c)
    }

    fn free_old(&mut self, was: u32) -> (r: Result<(), &'static str>)
        requires
            old(self).wf(),
        ensures
            final(self).keeps(old(self)),
            old(self).did(
                final(self),
                r,
                if was >= 2 {
                    free_spec(old(self)@, was, GUARD as nat)
                } else {
                    (old(self)@, Ok(()))
                },
            ),
            r matches Err(e) ==> old(self).refuses(e@) || own_message(e@),
    {
        if was >= 2 {
            return self.free_chain(was);
        }
        Ok(())
    }

    fn create_entry(&mut self, raw: &Vec<u8>, dir: Vec<u32>, p: &Vec<char>, first: u32, size: u32) -> (r: Result<
        (),
        &'static str,
    >)
        requires
            old(self).wf(),
            forall|i: int| 0 <= i < dir@.len() ==> 2 <= #[trigger] dir@[i],
        ensures
            final(self).keeps(old(self)),
            old(self).did(final(self), r, create_spec(old(self)@, crate::fs::dir::slots(raw@), dir@, p@, first, size)),
            r matches Err(e) ==> old(self).refuses(e@) || own_message(e@),
    {
        let mut dir = dir;
        let (base0, ext) = to_83(p.as_slice());
        let base: Vec<u8> = match pick_base(raw, base0, &ext) {
            None => {
                match self.free_old(first) {
                    Err(e) => {
                        return Err(e);
                    },
                    Ok(_) => {},
                }
                return Err("write: name collision, no free 8.3 name");
            },
            Some(b) => b,
        };
        let ent: Vec<u8> = make_dirent(&base, &ext, first, size);
        match find_vacant(raw) {
            Some(i) => self.patch_slot(&dir, i, &ent),
            None => {
                match self.extend_dir(&dir) {
                    Err(e) => Err(e),
                    Ok(c) => {
                        dir.push(c);
                        // first slot of the fresh cluster
                        self.patch_slot(&dir, raw.len() / 32, &ent)
                    },
                }
            },
        }
    }

    fn write_root(&mut self, raw: &Vec<u8>, path: &str, p: Vec<char>, data: &[u8]) -> (r: Result<(), &'static str>)
        requires
            old(self).wf(),
            old(self)@.writable,
            in_root(path@),
            p@ == crate::fs::fat32::trim_slashes(path@),
        ensures
            final(self).keeps(old(self)),
            old(self).did(final(self), r, write_file_from(old(self)@, crate::fs::dir::slots(raw@), path@, data@)),
            r matches Err(e) ==> old(self).refuses(e@) || own_message(e@),
    {
        let root: u32 = self.root_cluster;
        let dir: Vec<u32> = self.dir_chain(root);
        // existing entry with this name: replace in place
        let wanted: Vec<u8> = path_bytes(path, &p);
        let existing: Option<usize> = find_slot(raw, &wanted);
        let first: u32 = match self.write_chain(data) {
            Err(e) => {
                return Err(e);
            },
            Ok(f) => f,
        };
        let size: u32 = (data.len() as u64 % 0x1_0000_0000) as u32;
        match existing {
            Some(idx) => {
                let _total: usize = raw.len();
                let e: Vec<u8> = sub_vec(raw, 32 * idx, 32 * idx + 32);
                assert(e@ == crate::fs::dir::slots(raw@)[idx as int]);
                let hi: u32 = get_le2(e.as_slice(), 20) as u32;
                let lo: u32 = get_le2(e.as_slice(), 26) as u32;
                match self.free_old(hi * 0x1_0000 + lo) {
                    Err(x) => {
                        return Err(x);
                    },
                    Ok(_) => {},
                }
                let (base, ext) = slot_fields(e.as_slice());
                let ent: Vec<u8> = make_dirent(&base, &ext, first, size);
                self.patch_slot(&dir, idx, &ent)
            },
            None => self.create_entry(raw, dir, &p, first, size),
        }
    }

    /// Create or replace a file in the ROOT directory. `data` may have any
    /// length; empty files get a 0-size entry with no cluster chain.
    pub fn write_file(&mut self, path: &str, data: &[u8]) -> (r: Result<(), &'static str>)
        requires
            old(self).wf(),
        ensures
            final(self).keeps(old(self)),
            !old(self)@.writable ==> *final(self) == *old(self) && (r matches Err(e) && e@ == "media is read-only"@),
            old(self)@.writable && !in_root(path@) ==> *final(self) == *old(self) && (r matches Err(e) && e@
                == "write: only root-directory paths are supported"@),
            r matches Err(e) ==> old(self).refuses(e@) || {
                &&& e@ == "media is read-only"@ <==> !old(self)@.writable
                &&& e@ == "write: only root-directory paths are supported"@ <==> old(self)@.writable && !in_root(path@)
            },
            old(self).dev.faultless() ==> final(self)@ == write_file_spec(old(self)@, path@, data@).0 && old(self).agrees(
                r,
                write_file_spec(old(self)@, path@, data@).1,
            ),
            r is Ok ==> exists|n: int|
                0 <= n <= old(self)@.dir(old(self)@.root).len() && #[trigger] write_file_from(
                    old(self)@,
                    old(self)@.dir(old(self)@.root).take(n),
                    path@,
                    data@,
                ) == (final(self)@, Ok::<(), FsErr>(())),
    {
        proof {
            lemma_refused_messages();
        }
        if !self.dev.writable() {
            return Err("media is read-only");
        }
        let p: Vec<char> = trim_path(path);
        if p.len() == 0 || has_slash(&p) {
            return Err("write: only root-directory paths are supported");
        }
        let root: u32 = self.root_cluster;
        let raw: Vec<u8> = self.read_chain(root);
        proof {
            lemma_read_slots(raw@, old(self)@.contents(root));
        }
        let r: Result<(), &'static str> = self.write_root(&raw, path, p, data);
        proof {
            if let Err(e) = r {
                if own_message(e@) {
                    lemma_own_message(e@);
                }
            }
        }
        r
    }

    fn delete_root(&mut self, raw: &Vec<u8>, path: &str, p: Vec<char>) -> (r: Result<(), &'static str>)
        requires
            old(self).wf(),
            old(self)@.writable,
            in_root(path@),
            p@ == crate::fs::fat32::trim_slashes(path@),
        ensures
            final(self).keeps(old(self)),
            old(self).did(final(self), r, delete_from(old(self)@, crate::fs::dir::slots(raw@), path@)),
            r matches Err(e) ==> old(self).refuses(e@) || own_message(e@),
    {
        let root: u32 = self.root_cluster;
        let ghost fine = self.dev.faultless();
        let dir: Vec<u32> = self.dir_chain(root);
        let wanted: Vec<u8> = path_bytes(path, &p);
        let i: usize = match find_slot(raw, &wanted) {
            None => {
                return Err("no such file");
            },
            Some(i) => i,
        };
        let ghost s = crate::fs::dir::slots(raw@);
        let total: usize = raw.len();
        let e: Vec<u8> = sub_vec(raw, 32 * i, 32 * i + 32);
        assert(e@ == s[i as int]);
        let hi: u32 = get_le2(e.as_slice(), 20) as u32;
        let lo: u32 = get_le2(e.as_slice(), 26) as u32;
        match self.free_old(hi * 0x1_0000 + lo) {
            Err(x) => {
                return Err(x);
            },
            Ok(_) => {},
        }
        let ghost v1 = self@;
        let from: usize = find_group(raw, i);
        let mut k: usize = from;
        while k <= i
            invariant
                from <= k <= i + 1,
                total == raw@.len(),
                i < total / 32,
                s == crate::fs::dir::slots(raw@),
                self.keeps(old(self)),
                fine == old(self).dev.faultless(),
                forall|j: int| 0 <= j < dir@.len() ==> 2 <= #[trigger] dir@[j],
                tombstones(self@, s, dir@, k as int, i as int) == tombstones(
                    v1,
                    s,
                    dir@,
                    from as int,
                    i as int,
                ),
                delete_from(old(self)@, s, path@) == tombstones(v1, s, dir@, from as int, i as int),
                old(self)@.writable,
            decreases i + 1 - k,
        {
            let mut tomb: Vec<u8> = sub_vec(raw, 32 * k, 32 * k + 32);
            assert(tomb@ == s[k as int]);
            tomb[0] = 0xE5;
            match self.patch_slot(&dir, k, &tomb) {
                Err(x) => {
                    return Err(x);
                },
                Ok(_) => {},
            }
            k = k + 1;
        }
        Ok(())
    }

    /// Delete a root-directory file: free its chain, mark its slots deleted
    /// (including any long-name group in front of it).
    pub fn delete(&mut self, path: &str) -> (r: Result<(), &'static str>)
        requires
            old(self).wf(),
        ensures
            final(self).keeps(old(self)),
            !old(self)@.writable ==> *final(self) == *old(self) && (r matches Err(e) && e@ == "media is read-only"@),
            old(self)@.writable && !in_root(path@) ==> *final(self) == *old(self) && (r matches Err(e) && e@
                == "delete: only root-directory paths are supported"@),
            r matches Err(e) ==> old(self).refuses(e@) || {
                &&& e@ == "media is read-only"@ <==> !old(self)@.writable
                &&& e@ == "delete: only root-directory paths are supported"@ <==> old(self)@.writable && !in_root(path@)
            },
            old(self).dev.faultless() ==> final(self)@ == delete_spec(old(self)@, path@).0 && old(self).agrees(
                r,
                delete_spec(old(self)@, path@).1,
            ),
            r is Ok ==> exists|n: int|
                0 <= n <= old(self)@.dir(old(self)@.root).len() && #[trigger] delete_from(
                    old(self)@,
                    old(self)@.dir(old(self)@.root).take(n),
                    path@,
                ) == (final(self)@, Ok::<(), FsErr>(())),
    {
        proof {
            lemma_refused_messages();
        }
        if !self.dev.writable() {
            return Err("media is read-only");
        }
        let p: Vec<char> = trim_path(path);
        if p.len() == 0 || has_slash(&p) {
            return Err("delete: only root-directory paths are supported");
        }
        let root: u32 = self.root_cluster;
        let raw: Vec<u8> = self.read_chain(root);
        proof {
            lemma_read_slots(raw@, old(self)@.contents(root));
        }
        let r: Result<(), &'static str> = self.delete_root(&raw, path, p);
        proof {
            if let Err(e) = r {
                if own_message(e@) {
                    lemma_own_message(e@);
                }
            }
        }
        r
    }
}

} // verus!
