//! FAT32 driver: block-device backed, read-write.
//!
//!   - The BPB is parsed from sector 0; only 512-byte sectors are supported.
//!   - The whole FAT is cached at mount time. All chain walks hit the cache;
//!     every mutation rewrites the affected sector in all FAT copies.
//!   - Directory reads know long names; writes create classic 8.3 entries.
//!   - Writes, creates and deletes work in the root directory only; the
//!     directory's own chain is extended when it is full.

use vstd::prelude::*;
use vstd::slice::{slice_subrange, slice_to_vec};
use vstd::string::StrSliceExecFns;

use crate::bytes::{get_le2, get_le4};
use crate::disk::{BlockDev, Refusals, SECTOR};
use crate::fs::dir::{parse_dir, same_upper, DirEntry, EntV};
use crate::text::{chars_of, split};

verus! {

pub const EOC: u32 = 0x0FFF_FFFF;

pub const EOC_MIN: u32 = 0x0FFF_FFF8;

pub const BAD: u32 = 0x0FFF_FFF7;

/// FAT cache hard cap in entries.
pub const FAT_CACHE_MAX: usize = 1_048_576;

/// No chain is walked further than this.
pub const GUARD: usize = 1_000_000;

pub struct Fat32<D: BlockDev> {
    pub dev: D,
    pub sectors_per_cluster: u32,
    pub fat_begin: u64,  // in sectors
    pub num_fats: u64,
    pub fat_size: u64,  // sectors per FAT copy
    pub data_begin: u64,  // in sectors
    pub root_cluster: u32,
    /// Whole-FAT cache; index = cluster number.
    pub fat: Vec<u32>,
}

/// A mounted volume as the contracts see it.
pub struct FatV {
    pub disk: Seq<Seq<u8>>,
    pub writable: bool,
    pub spc: int,
    pub fat_begin: int,
    pub num_fats: int,
    pub fat_size: int,
    pub data_begin: int,
    pub root: u32,
    pub fat: Seq<u32>,
}

/// Why a call failed: the device refused, or the driver's own message.
pub enum FsErr {
    Dev,
    Msg(Seq<char>),
}

/// Whether the message `e` is the one for `x`.
pub open spec fn says(e: &'static str, x: FsErr) -> bool {
    match x {
        FsErr::Dev => true,
        FsErr::Msg(m) => e@ == m,
    }
}

/// Whether the message `e` is the one for `x`, on a device that refuses with
/// the messages `dev`.
pub open spec fn says_on(dev: Refusals, e: &'static str, x: FsErr) -> bool {
    match x {
        FsErr::Dev => dev.contains(e@),
        FsErr::Msg(m) => e@ == m,
    }
}

impl FatV {
    pub open spec fn geometry_ok(self) -> bool {
        &&& 1 <= self.spc <= 255
        &&& 0 <= self.fat_begin <= 65535
        &&& 1 <= self.num_fats <= 255
        &&& 1 <= self.fat_size <= 8192
        &&& self.data_begin == self.fat_begin + self.num_fats * self.fat_size
        &&& self.fat.len() == self.fat_size * 128
        &&& self.disk.len() <= u64::MAX
        &&& forall|i: int| 0 <= i < self.disk.len() ==> (#[trigger] self.disk[i]).len() == SECTOR
    }

    /// The same volume, but for the contents of disk and FAT.
    pub open spec fn same_volume(self, o: FatV) -> bool {
        &&& self.disk.len() == o.disk.len()
        &&& self.fat.len() == o.fat.len()
        &&& self.writable == o.writable
        &&& self.spc == o.spc
        &&& self.fat_begin == o.fat_begin
        &&& self.num_fats == o.num_fats
        &&& self.fat_size == o.fat_size
        &&& self.data_begin == o.data_begin
        &&& self.root == o.root
    }

    /// The first sector of cluster `c`.
    pub open spec fn lba(self, c: u32) -> int {
        self.data_begin + (c - 2) * self.spc
    }

    /// Whether cluster `c` lies on the device.
    pub open spec fn on_disk(self, c: u32) -> bool {
        self.lba(c) + self.spc <= self.disk.len()
    }

    /// The bytes of cluster `c`.
    pub open spec fn cluster(self, c: u32) -> Seq<u8> {
        crate::disk::flat(self.disk, self.lba(c), self.spc as nat)
    }

    /// The next cluster in a chain: none at its end, and none behind a bad or
    /// free one.
    pub open spec fn next(self, c: u32) -> Option<u32> {
        if c >= self.fat.len() {
            None
        } else {
            let x = self.fat[c as int];
            if x >= EOC_MIN || x == BAD || x < 2 {
                None
            } else {
                Some(x)
            }
        }
    }

    /// The clusters of the chain from `c` on.
    pub open spec fn chain(self, c: u32, fuel: nat) -> Seq<u32>
        decreases fuel,
    {
        if c < 2 || fuel == 0 {
            Seq::empty()
        } else {
            match self.next(c) {
                Some(n) => seq![c] + self.chain(n, (fuel - 1) as nat),
                None => seq![c],
            }
        }
    }

    /// The bytes of the chain from `c` on, as far as it lies on the device.
    pub open spec fn chain_data(self, c: u32, fuel: nat) -> Seq<u8>
        decreases fuel,
    {
        if c < 2 || fuel == 0 || !self.on_disk(c) {
            Seq::empty()
        } else {
            match self.next(c) {
                Some(n) => self.cluster(c) + self.chain_data(n, (fuel - 1) as nat),
                None => self.cluster(c),
            }
        }
    }

    /// The bytes of the file or directory that starts at `c`.
    pub open spec fn contents(self, c: u32) -> Seq<u8> {
        self.chain_data(c, GUARD as nat)
    }

    /// The slots of the directory that starts at `c`.
    pub open spec fn dir(self, c: u32) -> Seq<Seq<u8>> {
        crate::fs::dir::slots(self.contents(c))
    }
}

impl<D: BlockDev> Fat32<D> {
    pub open spec fn view(&self) -> FatV {
        FatV {
            disk: self.dev.disk(),
            writable: self.dev.can_write(),
            spc: self.sectors_per_cluster as int,
            fat_begin: self.fat_begin as int,
            num_fats: self.num_fats as int,
            fat_size: self.fat_size as int,
            data_begin: self.data_begin as int,
            root: self.root_cluster,
            fat: self.fat@,
        }
    }

    pub open spec fn wf(&self) -> bool {
        self@.geometry_ok()
    }

    /// What every operation keeps, on any device.
    pub open spec fn keeps(&self, o: &Fat32<D>) -> bool {
        &&& self.wf()
        &&& self@.same_volume(o@)
        &&& self.dev.faultless() == o.dev.faultless()
        &&& self.dev.info() == o.dev.info()
        &&& self.dev.read_refusals() == o.dev.read_refusals()
        &&& self.dev.write_refusals() == o.dev.write_refusals()
    }

    /// Whether `e` is a message of the device.
    pub open spec fn refuses(&self, e: Seq<char>) -> bool {
        self.dev.read_refusals().contains(e) || self.dev.write_refusals().contains(e)
    }

    /// Whether a result is the stated one.
    pub open spec fn agrees<T>(&self, r: Result<T, &'static str>, x: Result<T, FsErr>) -> bool {
        match (r, x) {
            (Ok(a), Ok(b)) => a == b,
            (Err(e), Err(FsErr::Dev)) => self.refuses(e@),
            (Err(e), Err(FsErr::Msg(m))) => e@ == m,
            _ => false,
        }
    }

    /// Whether a call on this volume that left `f` and returned `r` has done
    /// what `want` says: on any device if it succeeded, and always on one
    /// that fails no transfer.
    pub open spec fn did<T>(&self, f: &Fat32<D>, r: Result<T, &'static str>, want: (FatV, Result<T, FsErr>)) -> bool {
        self.dev.faultless() || r is Ok ==> f@ == want.0 && self.agrees(r, want.1)
    }
}

// ---------------------------------------------------------------------------
// Mounting
// ---------------------------------------------------------------------------
/// What mounting a device with these sectors gives.
pub open spec fn mount_spec(disk: Seq<Seq<u8>>, writable: bool) -> Result<FatV, FsErr> {
    let b = disk[0];
    let spc = b[0x0D] as int;
    let reserved = crate::bytes::rd_le2(b, 0x0E) as int;
    let num_fats = b[0x10] as int;
    let fat_size = crate::bytes::rd_le4(b, 0x24) as int;
    if disk.len() < 1 {
        Err(FsErr::Dev)
    } else if crate::bytes::rd_le2(b, 0x0B) != SECTOR {
        Err(FsErr::Msg("unsupported sector size (want 512)"@))
    } else if spc == 0 || num_fats == 0 || fat_size == 0 {
        Err(FsErr::Msg("bad BPB"@))
    } else if fat_size * 128 > FAT_CACHE_MAX {
        Err(FsErr::Msg("FAT too large to cache"@))
    } else if reserved + fat_size > disk.len() {
        Err(FsErr::Dev)
    } else {
        Ok(
            FatV {
                disk,
                writable,
                spc,
                fat_begin: reserved,
                num_fats,
                fat_size,
                data_begin: reserved + num_fats * fat_size,
                root: crate::bytes::rd_le4(b, 0x2C),
                fat: fat_entries(crate::disk::flat(disk, reserved, fat_size as nat), (fat_size * 128) as nat),
            },
        )
    }
}

/// The first `n` FAT entries that `raw` holds.
pub open spec fn fat_entries(raw: Seq<u8>, n: nat) -> Seq<u32> {
    Seq::new(n, |i: int| crate::bytes::rd_le4(raw, 4 * i))
}

pub proof fn lemma_flat_len(disk: Seq<Seq<u8>>, lba: int, n: nat)
    requires
        forall|i: int| 0 <= i < disk.len() ==> (#[trigger] disk[i]).len() == SECTOR,
        0 <= lba,
        lba + n <= disk.len(),
    ensures
        crate::disk::flat(disk, lba, n).len() == n * SECTOR,
    decreases n,
{
    if n > 0 {
        lemma_flat_len(disk, lba, (n - 1) as nat);
    }
}

pub proof fn lemma_flat_split(disk: Seq<Seq<u8>>, lba: int, a: nat, b: nat)
    ensures
        crate::disk::flat(disk, lba, a + b) == crate::disk::flat(disk, lba, a) + crate::disk::flat(disk, lba + a, b),
    decreases b,
{
    if b == 0 {
        assert(crate::disk::flat(disk, lba, a) + crate::disk::flat(disk, lba + a, b) =~= crate::disk::flat(
            disk,
            lba,
            a,
        ));
    } else {
        lemma_flat_split(disk, lba, a, (b - 1) as nat);
        let x = crate::disk::flat(disk, lba, a);
        let y = crate::disk::flat(disk, lba + a, (b - 1) as nat);
        assert(x + y + disk[lba + a + b - 1] =~= x + (y + disk[lba + a + b - 1]));
    }
}

impl<D: BlockDev> Fat32<D> {
    /// Mount a block device as FAT32: parse BPB, cache the FAT.
    pub fn new(dev: D) -> (r: Result<Fat32<D>, &'static str>)
        ensures
            r matches Ok(f) ==> f.wf() && f.dev.disk() == dev.disk() && f.dev.faultless() == dev.faultless()
                && f.dev.can_write() == dev.can_write() && f.dev.info() == dev.info() && mount_spec(
                dev.disk(),
                dev.can_write(),
            ) == Ok::<FatV, FsErr>(f@),
            r matches Ok(f) ==> f.dev.read_refusals() == dev.read_refusals() && f.dev.write_refusals()
                == dev.write_refusals(),
            r matches Err(e) ==> dev.read_refusals().contains(e@) || mount_spec(dev.disk(), dev.can_write()) == Err::<
                FatV,
                FsErr,
            >(FsErr::Msg(e@)),
            dev.faultless() ==> match (r, mount_spec(dev.disk(), dev.can_write())) {
                (Ok(f), Ok(x)) => f@ == x,
                (Err(e), Err(x)) => says_on(dev.read_refusals(), e, x),
                _ => false,
            },
    {
        let mut d = dev;
        proof {
            dev.sectors_ok();
        }
        let ghost disk = dev.disk();
        let ghost want = mount_spec(disk, dev.can_write());
        let mut bpb: Vec<u8> = vec![0u8; SECTOR];
        match d.read_sectors(0, 1, &mut bpb) {
            Err(e) => {
                return Err(e);
            },
            Ok(_) => {},
        }
        proof {
            reveal_with_fuel(crate::disk::flat, 2);
            assert(bpb@ =~= disk[0]);
        }
        let bytes_per_sector: u16 = get_le2(bpb.as_slice(), 0x0B);
        let spc: u32 = bpb[0x0D] as u32;
        let reserved: u64 = get_le2(bpb.as_slice(), 0x0E) as u64;
        let num_fats: u64 = bpb[0x10] as u64;
        let fat_size: u64 = get_le4(bpb.as_slice(), 0x24) as u64;
        let root_cluster: u32 = get_le4(bpb.as_slice(), 0x2C);
        if bytes_per_sector as usize != SECTOR {
            return Err("unsupported sector size (want 512)");
        }
        if spc == 0 || num_fats == 0 || fat_size == 0 {
            return Err("bad BPB");
        }
        if fat_size * 128 > FAT_CACHE_MAX as u64 {
            return Err("FAT too large to cache");
        }
        // read the whole first FAT, in chunks of 128 sectors
        let mut raw: Vec<u8> = Vec::new();
        let mut done: u64 = 0;
        assert(raw@ =~= crate::disk::flat(disk, reserved as int, 0));
        while done < fat_size
            invariant
                done <= fat_size <= 8192,
                reserved <= 65535,
                d.disk() == disk,
                disk == dev.disk(),
                want == mount_spec(disk, dev.can_write()),
                d.faultless() == dev.faultless(),
                d.can_write() == dev.can_write(),
                d.info() == dev.info(),
                d.read_refusals() == dev.read_refusals(),
                d.write_refusals() == dev.write_refusals(),
                forall|i: int| 0 <= i < disk.len() ==> (#[trigger] disk[i]).len() == SECTOR,
                reserved + done <= disk.len() || done == 0,
                raw@ == crate::disk::flat(disk, reserved as int, done as nat),
                reserved + fat_size > disk.len() ==> want == Err::<FatV, FsErr>(FsErr::Dev),
            decreases fat_size - done,
        {
            let left: u64 = fat_size - done;
            let n: u64 = if left < 128 {
                left
            } else {
                128
            };
            let mut buf: Vec<u8> = vec![0u8; n as usize * SECTOR];
            match d.read_sectors(reserved + done, n as u32, &mut buf) {
                Err(e) => {
                    return Err(e);
                },
                Ok(_) => {},
            }
            proof {
                lemma_flat_split(disk, reserved as int, done as nat, n as nat);
            }
            raw.append(&mut buf);
            done = done + n;
        }
        proof {
            lemma_flat_len(disk, reserved as int, fat_size as nat);
        }
        let total: usize = fat_size as usize * 128;
        let mut fat: Vec<u32> = Vec::new();
        let mut i: usize = 0;
        while i < total
            invariant
                i <= total <= 1_048_576,
                raw@.len() == total * 4,
                fat@ == fat_entries(raw@, i as nat),
            decreases total - i,
        {
            fat.push(get_le4(raw.as_slice(), 4 * i));
            i = i + 1;
            assert(fat@ =~= fat_entries(raw@, i as nat));
        }
        assert(num_fats * fat_size <= 255 * 8192) by (nonlinear_arith)
            requires
                num_fats <= 255,
                fat_size <= 8192,
        ;
        Ok(
            Fat32 {
                dev: d,
                sectors_per_cluster: spc,
                fat_begin: reserved,
                num_fats,
                fat_size,
                data_begin: reserved + num_fats * fat_size,
                root_cluster,
                fat,
            },
        )
    }

    // -----------------------------------------------------------------------
    // Reading
    // -----------------------------------------------------------------------
    pub(crate) fn cluster_lba(&self, c: u32) -> (r: u64)
        requires
            self.wf(),
            c >= 2,
        ensures
            r == self@.lba(c),
            r <= 0x200_0000_0000,
    {
        let k: u64 = (c - 2) as u64;
        let spc: u64 = self.sectors_per_cluster as u64;
        assert(k * spc <= 0xFFFF_FFFF * 255) by (nonlinear_arith)
            requires
                k <= 0xFFFF_FFFF,
                spc <= 255,
        ;
        assert(self@.num_fats * self@.fat_size <= 255 * 8192) by (nonlinear_arith)
            requires
                0 <= self@.num_fats <= 255,
                0 <= self@.fat_size <= 8192,
        ;
        self.data_begin + k * spc
    }

    pub(crate) fn next_cluster(&self, c: u32) -> (r: Option<u32>)
        ensures
            r == self@.next(c),
    {
        if c as usize >= self.fat.len() {
            return None;
        }
        let v: u32 = self.fat[c as usize];
        if v >= EOC_MIN || v == BAD || v < 2 {
            None
        } else {
            Some(v)
        }
    }

    /// Read a full cluster chain, up to the first cluster that the device
    /// fails to read.
    pub(crate) fn read_chain(&mut self, start: u32) -> (out: Vec<u8>)
        requires
            old(self).wf(),
        ensures
            final(self).keeps(old(self)),
            final(self)@ == old(self)@,
            out@.is_prefix_of(old(self)@.contents(start)),
            old(self).dev.faultless() ==> out@ == old(self)@.contents(start),
    {
        let ghost v = self@;
        let ghost fine = self.dev.faultless();
        let ghost want = v.contents(start);
        let mut out: Vec<u8> = Vec::new();
        let mut c: u32 = start;
        let mut guard: usize = 0;
        let mut going = true;
        assert(out@ + v.chain_data(c, GUARD as nat) =~= want);
        while going && c >= 2 && guard < GUARD
            invariant
                self.keeps(old(self)),
                self@ == v,
                v == old(self)@,
                fine == old(self).dev.faultless(),
                want == v.contents(start),
                guard <= GUARD,
                going ==> out@ + v.chain_data(c, (GUARD - guard) as nat) == want,
                !going ==> out@.is_prefix_of(want),
                fine && !going ==> out@ == want,
            decreases GUARD - guard, (if going { 1int } else { 0int }),
        {
            let lba: u64 = self.cluster_lba(c);
            let ghost done = out@;
            let ghost fuel = (GUARD - guard) as nat;
            let mut buf: Vec<u8> = vec![0u8; self.sectors_per_cluster as usize * SECTOR];
            let got: Result<(), &'static str> = self.dev.read_sectors(lba, self.sectors_per_cluster, &mut buf);
            match got {
                Err(_) => {
                    going = false;
                    assert(fine ==> !v.on_disk(c));
                    assert(fine ==> done + v.chain_data(c, fuel) =~= done);
                    assert(done =~= want.subrange(0, done.len() as int));
                },
                Ok(_) => {
                    assert(buf@ == v.cluster(c));
                    assert(v.on_disk(c));
                    out.append(&mut buf);
                    match self.next_cluster(c) {
                        Some(n) => {
                            let ghost rest = v.chain_data(n, (fuel - 1) as nat);
                            assert(done + (v.cluster(c) + rest) =~= out@ + rest);
                            c = n;
                        },
                        None => {
                            going = false;
                        },
                    }
                    guard = guard + 1;
                },
            }
        }
        if going {
            assert(out@ + v.chain_data(c, (GUARD - guard) as nat) =~= out@);
        }
        out
    }

    /// The clusters of a directory chain (for slot patching).
    pub(crate) fn dir_chain(&self, start: u32) -> (out: Vec<u32>)
        requires
            self.wf(),
        ensures
            out@ == self@.chain(start, GUARD as nat),
            forall|i: int| 0 <= i < out@.len() ==> #[trigger] out@[i] >= 2,
            out@.len() <= GUARD,
    {
        let ghost v = self@;
        let mut out: Vec<u32> = Vec::new();
        let mut c: u32 = start;
        let mut guard: usize = 0;
        let mut going = true;
        assert(out@ + v.chain(c, GUARD as nat) =~= v.chain(start, GUARD as nat));
        while going && c >= 2 && guard < GUARD
            invariant
                v == self@,
                guard <= GUARD,
                out@.len() == guard,
                going ==> out@ + v.chain(c, (GUARD - guard) as nat) == v.chain(start, GUARD as nat),
                !going ==> out@ == v.chain(start, GUARD as nat),
                forall|i: int| 0 <= i < out@.len() ==> #[trigger] out@[i] >= 2,
            decreases GUARD - guard, (if going { 1int } else { 0int }),
        {
            let ghost done = out@;
            out.push(c);
            match self.next_cluster(c) {
                Some(n) => {
                    let ghost rest = v.chain(n, (GUARD - guard - 1) as nat);
                    assert(done + (seq![c] + rest) =~= out@ + rest);
                    c = n;
                },
                None => {
                    going = false;
                    assert(done + seq![c] =~= out@);
                },
            }
            guard = guard + 1;
        }
        if going {
            assert(out@ + v.chain(c, (GUARD - guard) as nat) =~= out@);
        }
        out
    }
}

/// The root directory's own entry.
pub open spec fn root_entry(v: FatV) -> EntV {
    EntV { name: "/"@, first_cluster: v.root, size: 0, is_dir: true }
}

/// `s` without leading slashes.
pub open spec fn trim_slashes(s: Seq<char>) -> Seq<char>
    decreases s.len(),
{
    if s.len() > 0 && s[0] == '/' {
        trim_slashes(s.skip(1))
    } else {
        s
    }
}

pub open spec fn named(wanted: Seq<char>) -> spec_fn(EntV) -> bool {
    |e: EntV| crate::fs::dir::upper_chars(e.name) == crate::fs::dir::upper_chars(wanted)
}

/// The entry that the components from the `i`-th on lead to.
pub open spec fn resolve(v: FatV, cur: EntV, comps: Seq<Seq<char>>, i: int) -> Option<EntV>
    decreases comps.len() - i,
{
    if i < 0 || i >= comps.len() {
        Some(cur)
    } else if comps[i].len() == 0 {
        resolve(v, cur, comps, i + 1)
    } else if !cur.is_dir {
        None
    } else {
        let list = crate::fs::dir::parsed(v.dir(cur.first_cluster));
        match crate::seqs::first(list, named(comps[i])) {
            Some(k) => resolve(v, list[k], comps, i + 1),
            None => None,
        }
    }
}

/// The entry that a path names.
pub open spec fn lookup_spec(v: FatV, path: Seq<char>) -> Option<EntV> {
    resolve(v, root_entry(v), crate::text::pieces(trim_slashes(path), '/'), 0)
}

pub open spec fn ls_spec(v: FatV, path: Seq<char>) -> Result<Seq<EntV>, FsErr> {
    match lookup_spec(v, path) {
        None => Err(FsErr::Msg("no such file or directory"@)),
        Some(e) => if !e.is_dir {
            Err(FsErr::Msg("not a directory"@))
        } else {
            Ok(crate::fs::dir::parsed(v.dir(e.first_cluster)))
        },
    }
}

/// `s` cut to at most `n` bytes.
pub open spec fn cut(s: Seq<u8>, n: int) -> Seq<u8> {
    if s.len() <= n {
        s
    } else {
        s.take(n)
    }
}

pub open spec fn cat_spec(v: FatV, path: Seq<char>) -> Result<Seq<u8>, FsErr> {
    match lookup_spec(v, path) {
        None => Err(FsErr::Msg("no such file or directory"@)),
        Some(e) => if e.is_dir {
            Err(FsErr::Msg("is a directory"@))
        } else {
            Ok(cut(v.contents(e.first_cluster), e.size as int))
        },
    }
}

/// How many files are in the root.
pub open spec fn root_count(v: FatV) -> nat {
    crate::fs::dir::parsed(v.dir(v.root)).filter(|e: EntV| !e.is_dir).len()
}

/// Cuts the leading slashes off.
pub(crate) fn trim_path(path: &str) -> (r: Vec<char>)
    ensures
        r@ == trim_slashes(path@),
{
    let all: Vec<char> = chars_of(path);
    let n: usize = all.len();
    let mut i: usize = 0;
    assert(all@.skip(0) =~= all@);
    while i < n && all[i] == '/'
        invariant
            n == all@.len(),
            i <= n,
            trim_slashes(all@.skip(i as int)) == trim_slashes(all@),
        decreases n - i,
    {
        assert(all@.skip(i as int).skip(1) =~= all@.skip(i + 1));
        i = i + 1;
    }
    assert(i < n ==> all@.skip(i as int)[0] == all@[i as int]);
    let r: Vec<char> = slice_to_vec(slice_subrange(all.as_slice(), i, n));
    assert(r@ =~= all@.skip(i as int));
    r
}

/// The position of the entry that is named `wanted` (in upper case).
fn find_named(list: &Vec<DirEntry>, wanted: &Vec<char>) -> (r: Option<usize>)
    ensures
        r matches Some(k) ==> k < list@.len() && crate::seqs::first(crate::fs::dir::entries(list@), named(wanted@)) == Some(k as int),
        r is None ==> crate::seqs::first(crate::fs::dir::entries(list@), named(wanted@)) is None,
{
    let ghost l = crate::fs::dir::entries(list@);
    let ghost p = named(wanted@);
    let mut i: usize = 0;
    while i < list.len()
        invariant
            l == crate::fs::dir::entries(list@),
            p == named(wanted@),
            i <= list@.len(),
            crate::seqs::first_from(l, p, i as int) == crate::seqs::first(l, p),
        decreases list@.len() - i,
    {
        assert(l[i as int] == list@[i as int]@);
        let name: Vec<char> = chars_of(list[i].name.as_str());
        if same_upper(name.as_slice(), wanted.as_slice()) {
            return Some(i);
        }
        i = i + 1;
    }
    None
}

pub proof fn lemma_cut_parse(a: Seq<Seq<u8>>, b: Seq<Seq<u8>>, k: int, lfn: Seq<Seq<char>>)
    requires
        a.is_prefix_of(b),
        0 <= k <= a.len(),
    ensures
        crate::fs::dir::parse_from(a, k, lfn).is_prefix_of(crate::fs::dir::parse_from(b, k, lfn)),
    decreases a.len() - k,
{
    if k < a.len() {
        assert(a[k] == b.subrange(0, a.len() as int)[k]);
        if a[k][0] != 0 {
            if a[k][0] != 0xE5 && crate::fs::dir::is_lfn(a[k]) {
                lemma_cut_parse(a, b, k + 1, lfn.push(crate::fs::dir::lfn_from(a[k], 0)));
            } else {
                lemma_cut_parse(a, b, k + 1, Seq::empty());
                let x = crate::fs::dir::parse_from(a, k + 1, Seq::empty());
                let y = crate::fs::dir::parse_from(b, k + 1, Seq::empty());
                let e = crate::fs::dir::slot_entry(a[k], lfn);
                assert(seq![e] + x =~= (seq![e] + y).subrange(0, (seq![e] + x).len() as int)) by {
                    assert forall|i: int| 0 <= i < x.len() implies x[i] == y[i] by {
                        assert(x[i] == y.subrange(0, x.len() as int)[i]);
                    }
                }
            }
        }
    }
}

/// The first part of a directory's bytes lists the first of its entries, and
/// what is found there is what all of it shows.
proof fn lemma_cut_listing(raw: Seq<u8>, all: Seq<u8>, name: Seq<char>)
    requires
        raw.is_prefix_of(all),
    ensures
        ({
            let x = crate::fs::dir::parsed(crate::fs::dir::slots(raw));
            let y = crate::fs::dir::parsed(crate::fs::dir::slots(all));
            &&& x.is_prefix_of(y)
            &&& forall|i: int| 0 <= i < x.len() ==> #[trigger] x[i] == y[i]
            &&& crate::seqs::first(x, named(name)) matches Some(k) ==> crate::seqs::first(y, named(name)) == Some(k)
        }),
{
    let (a, b) = (crate::fs::dir::slots(raw), crate::fs::dir::slots(all));
    assert(a =~= b.subrange(0, a.len() as int)) by {
        assert forall|i: int| 0 <= i < a.len() implies a[i] == b[i] by {
            assert(raw == all.subrange(0, raw.len() as int));
            assert(raw.subrange(32 * i, 32 * i + 32) =~= all.subrange(32 * i, 32 * i + 32));
        }
    }
    lemma_cut_parse(a, b, 0, Seq::empty());
    let (x, y) = (crate::fs::dir::parsed(a), crate::fs::dir::parsed(b));
    assert forall|i: int| 0 <= i < x.len() implies #[trigger] x[i] == y[i] by {
        assert(x[i] == y.subrange(0, x.len() as int)[i]);
    }
    crate::seqs::lemma_first_from(x, named(name), 0);
    if let Some(k) = crate::seqs::first(x, named(name)) {
        assert forall|i: int| 0 <= i < k implies !named(name)(#[trigger] y[i]) by {
            assert(x[i] == y[i]);
        }
        crate::seqs::lemma_first_is(y, named(name), 0, k);
    }
}

/// A copy of an entry.
fn copy_entry(e: &DirEntry) -> (r: DirEntry)
    ensures
        r@ == e@,
{
    DirEntry {
        name: e.name.clone(),
        first_cluster: e.first_cluster,
        size: e.size,
        is_dir: e.is_dir,
    }
}

impl<D: BlockDev> Fat32<D> {
    /// Resolve a path like "/README.TXT" or "/DOCS/GLM.TXT" to an entry.
    pub fn lookup(&mut self, path: &str) -> (r: Option<DirEntry>)
        requires
            old(self).wf(),
        ensures
            final(self).keeps(old(self)),
            final(self)@ == old(self)@,
            r matches Some(e) ==> lookup_spec(old(self)@, path@) == Some(e@),
            old(self).dev.faultless() && r is None ==> lookup_spec(old(self)@, path@) is None,
    {
        let ghost v = self@;
        let ghost fine = self.dev.faultless();
        let trimmed: Vec<char> = trim_path(path);
        let comps: Vec<Vec<char>> = split(trimmed.as_slice(), '/');
        let ghost cs = crate::text::pieces(trim_slashes(path@), '/');
        let ghost want = lookup_spec(v, path@);
        let mut cur = DirEntry { name: "/".to_owned(), first_cluster: self.root_cluster, size: 0, is_dir: true };
        let mut i: usize = 0;
        while i < comps.len()
            invariant
                self.keeps(old(self)),
                self@ == v,
                v == old(self)@,
                fine == old(self).dev.faultless(),
                cs == crate::text::texts(comps@),
                cs == crate::text::pieces(trim_slashes(path@), '/'),
                want == lookup_spec(v, path@),
                i <= comps@.len(),
                resolve(v, cur@, cs, i as int) == want,
            decreases comps@.len() - i,
        {
            assert(cs[i as int] == comps@[i as int]@);
            if comps[i].len() > 0 {
                if !cur.is_dir {
                    return None;
                }
                let raw: Vec<u8> = self.read_chain(cur.first_cluster);
                let list: Vec<DirEntry> = parse_dir(&raw);
                proof {
                    lemma_cut_listing(raw@, v.contents(cur.first_cluster), cs[i as int]);
                }
                match find_named(&list, &comps[i]) {
                    None => {
                        return None;
                    },
                    Some(k) => {
                        assert(crate::fs::dir::entries(list@)[k as int] == list@[k as int]@);
                        cur = copy_entry(&list[k]);
                    },
                }
            }
            i = i + 1;
        }
        Some(cur)
    }

    /// Does this path exist (file or directory)?
    pub fn path_exists(&mut self, path: &str) -> (r: bool)
        requires
            old(self).wf(),
        ensures
            final(self).keeps(old(self)),
            final(self)@ == old(self)@,
            r ==> lookup_spec(old(self)@, path@) is Some,
            old(self).dev.faultless() ==> r == (lookup_spec(old(self)@, path@) is Some),
    {
        self.lookup(path).is_some()
    }

    /// List a directory path.
    pub fn ls(&mut self, path: &str) -> (r: Result<Vec<DirEntry>, &'static str>)
        requires
            old(self).wf(),
        ensures
            final(self).keeps(old(self)),
            final(self)@ == old(self)@,
            r matches Ok(l) ==> ls_spec(old(self)@, path@) matches Ok(x) && crate::fs::dir::entries(l@).is_prefix_of(x),
            old(self).dev.faultless() ==> match (r, ls_spec(old(self)@, path@)) {
                (Ok(l), Ok(x)) => crate::fs::dir::entries(l@) == x,
                (Err(e), Err(x)) => says(e, x),
                _ => false,
            },
    {
        match self.lookup(path) {
            None => Err("no such file or directory"),
            Some(e) => {
                if !e.is_dir {
                    return Err("not a directory");
                }
                let raw: Vec<u8> = self.read_chain(e.first_cluster);
                proof {
                    lemma_cut_listing(raw@, self@.contents(e.first_cluster), Seq::empty());
                }
                Ok(parse_dir(&raw))
            },
        }
    }

    /// Read a file (contents trimmed to the reported size).
    pub fn cat(&mut self, path: &str) -> (r: Result<Vec<u8>, &'static str>)
        requires
            old(self).wf(),
        ensures
            final(self).keeps(old(self)),
            final(self)@ == old(self)@,
            r matches Ok(d) ==> cat_spec(old(self)@, path@) matches Ok(x) && d@.is_prefix_of(x),
            old(self).dev.faultless() ==> match (r, cat_spec(old(self)@, path@)) {
                (Ok(d), Ok(x)) => d@ == x,
                (Err(e), Err(x)) => says(e, x),
                _ => false,
            },
    {
        match self.lookup(path) {
            None => Err("no such file or directory"),
            Some(e) => {
                if e.is_dir {
                    return Err("is a directory");
                }
                let mut data: Vec<u8> = self.read_chain(e.first_cluster);
                let n: usize = e.size as usize;
                if data.len() > n {
                    data.truncate(n);
                }
                Ok(data)
            },
        }
    }

    /// Count files in root (stats display).
    pub fn root_file_count(&mut self) -> (n: usize)
        requires
            old(self).wf(),
        ensures
            final(self).keeps(old(self)),
            final(self)@ == old(self)@,
            n <= root_count(old(self)@),
            old(self).dev.faultless() ==> n == root_count(old(self)@),
    {
        let root: u32 = self.root_cluster;
        let raw: Vec<u8> = self.read_chain(root);
        let list: Vec<DirEntry> = parse_dir(&raw);
        let ghost l = crate::fs::dir::entries(list@);
        let mut n: usize = 0;
        let mut i: usize = 0;
        proof {
            reveal(Seq::filter);
            assert(l.take(0).filter(|e: EntV| !e.is_dir).len() == 0);
        }
        while i < list.len()
            invariant
                l == crate::fs::dir::entries(list@),
                i <= list@.len(),
                n <= i,
                n == l.take(i as int).filter(|e: EntV| !e.is_dir).len(),
            decreases list@.len() - i,
        {
            proof {
                reveal(Seq::filter);
                let t = l.take(i + 1);
                assert(t.drop_last() =~= l.take(i as int));
                assert(t.last() == list@[i as int]@);
            }
            if !list[i].is_dir {
                n = n + 1;
            }
            i = i + 1;
        }
        assert(l.take(list@.len() as int) =~= l);
        proof {
            let all = crate::fs::dir::parsed(self@.dir(root));
            lemma_cut_listing(raw@, self@.contents(root), Seq::empty());
            assert(all =~= l + all.skip(l.len() as int));
            Seq::filter_distributes_over_add(l, all.skip(l.len() as int), |e: EntV| !e.is_dir);
        }
        n
    }

    pub fn total_bytes(&self) -> (n: usize)
        requires
            self@.disk.len() * SECTOR <= usize::MAX,
        ensures
            n == self@.disk.len() * SECTOR,
    {
        self.dev.sector_count() as usize * SECTOR
    }

    pub fn is_writable(&self) -> (r: bool)
        ensures
            r == self@.writable,
    {
        self.dev.writable()
    }

    pub fn device_info(&self) -> (s: String)
        ensures
            s@ == self.dev.info(),
    {
        self.dev.describe()
    }
}

} // verus!
