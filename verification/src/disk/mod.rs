//! Block device layer: the storage abstraction under the file system.
//!
//! A `BlockDev` is a fixed-granularity (512-byte sector) store that the FAT32
//! driver reads and writes through: the ramdisk (here), or a SATA disk.

pub mod ahci;
pub mod ahci_laws;

use vstd::prelude::*;
use vstd::slice::slice_subrange;
use vstd::string::StringExecFns;

use crate::bytes::put_bytes;
use crate::text::push_dec;

verus! {

/// Sector size every device speaks.
pub const SECTOR: usize = 512;

/// The contents of a device, sector by sector.
pub type Sectors = Seq<Seq<u8>>;

/// The text of a device line.
pub type Line = Seq<char>;

/// The messages with which a device refuses a transfer.
pub type Refusals = Set<Seq<char>>;

/// The bytes of `count` consecutive sectors from `lba` on.
pub open spec fn flat(disk: Seq<Seq<u8>>, lba: int, count: nat) -> Seq<u8>
    decreases count,
{
    if count == 0 {
        Seq::empty()
    } else {
        flat(disk, lba, (count - 1) as nat) + disk[lba + count - 1]
    }
}

/// A store of 512-byte sectors. A device may fail a transfer; one that is
/// `faultless` fails only what lies beyond its end, or a write to read-only
/// media.
pub trait BlockDev: Sized {
    /// The sectors of the device.
    spec fn disk(&self) -> Sectors;

    spec fn faultless(&self) -> bool;

    /// Whether a write can ever succeed.
    spec fn can_write(&self) -> bool;

    /// The device line.
    spec fn info(&self) -> Line;

    /// What the device says when it fails a read.
    spec fn read_refusals(&self) -> Refusals;

    /// What the device says when it fails a write.
    spec fn write_refusals(&self) -> Refusals;

    /// Every sector has 512 bytes, and there are at most 2^64 of them.
    proof fn sectors_ok(&self)
        ensures
            self.disk().len() <= u64::MAX,
            forall|i: int| 0 <= i < self.disk().len() ==> (#[trigger] self.disk()[i]).len() == SECTOR,
    ;

    /// Read `count` consecutive sectors starting at `lba` into `out` (which
    /// must be exactly count * 512 bytes).
    fn read_sectors(&mut self, lba: u64, count: u32, out: &mut [u8]) -> (r: Result<(), &'static str>)
        ensures
            final(self).disk() == old(self).disk(),
            final(self).faultless() == old(self).faultless(),
            final(self).can_write() == old(self).can_write(),
            final(self).info() == old(self).info(),
            final(self).read_refusals() == old(self).read_refusals(),
            final(self).write_refusals() == old(self).write_refusals(),
            r matches Err(e) ==> old(self).read_refusals().contains(e@),
            final(out)@.len() == old(out)@.len(),
            r is Ok ==> lba + count <= old(self).disk().len() && final(out)@ == flat(
                old(self).disk(),
                lba as int,
                count as nat,
            ),
            old(self).faultless() && old(out)@.len() == count * SECTOR && lba + count <= old(self).disk().len()
                ==> r is Ok,
    ;

    /// Write `count` consecutive sectors from `data`.
    fn write_sectors(&mut self, lba: u64, count: u32, data: &[u8]) -> (r: Result<(), &'static str>)
        ensures
            final(self).disk().len() == old(self).disk().len(),
            final(self).faultless() == old(self).faultless(),
            final(self).can_write() == old(self).can_write(),
            final(self).info() == old(self).info(),
            final(self).read_refusals() == old(self).read_refusals(),
            final(self).write_refusals() == old(self).write_refusals(),
            r matches Err(e) ==> old(self).write_refusals().contains(e@),
            r is Ok ==> old(self).can_write() && lba + count <= old(self).disk().len() && data@.len() == count * SECTOR
                && forall|i: int|
                0 <= i < old(self).disk().len() ==> #[trigger] final(self).disk()[i] == if lba <= i < lba + count {
                    data@.subrange((i - lba) * SECTOR, (i - lba) * SECTOR + SECTOR)
                } else {
                    old(self).disk()[i]
                },
            old(self).faultless() && r is Err ==> final(self).disk() == old(self).disk(),
            old(self).faultless() && old(self).can_write() && data@.len() == count * SECTOR && lba + count <= old(
                self,
            ).disk().len() ==> r is Ok,
    ;

    /// Total addressable 512-byte sectors.
    fn sector_count(&self) -> (n: u64)
        ensures
            n == self.disk().len(),
    ;

    /// Whether write_sectors can ever succeed.
    fn writable(&self) -> (r: bool)
        ensures
            r == self.can_write(),
    ;

    /// Human-readable device line.
    fn describe(&self) -> (s: String)
        ensures
            s@ == self.info(),
    ;
}

/// The ramdisk as a block device: plain slice reads, no writes.
pub struct RamBlock {
    pub data: &'static [u8],
}

/// The whole sectors of a byte image.
pub open spec fn image_sectors(data: Seq<u8>) -> Seq<Seq<u8>> {
    Seq::new(data.len() / 512, |i: int| data.subrange(i * 512, i * 512 + 512))
}

proof fn lemma_flat_image(data: Seq<u8>, lba: int, count: nat)
    requires
        0 <= lba,
        lba + count <= data.len() / 512,
    ensures
        flat(image_sectors(data), lba, count) == data.subrange(lba * 512, (lba + count) * 512),
    decreases count,
{
    if count == 0 {
        assert(data.subrange(lba * 512, (lba + count) * 512) =~= Seq::<u8>::empty());
    } else {
        lemma_flat_image(data, lba, (count - 1) as nat);
        let k = lba + count - 1;
        assert(data.subrange(lba * 512, (lba + count) * 512) =~= data.subrange(lba * 512, k * 512) + data.subrange(
            k * 512,
            k * 512 + 512,
        ));
    }
}

impl BlockDev for RamBlock {
    open spec fn disk(&self) -> Sectors {
        image_sectors(self.data@)
    }

    open spec fn faultless(&self) -> bool {
        true
    }

    open spec fn can_write(&self) -> bool {
        false
    }

    open spec fn info(&self) -> Line {
        "ramdisk (Limine module), "@ + crate::text::dec_text((self.data@.len() / 1024) as nat) + " KiB, read-only"@
    }

    open spec fn read_refusals(&self) -> Refusals {
        set!["ramdisk: read out of range"@]
    }

    open spec fn write_refusals(&self) -> Refusals {
        set!["ramdisk is read-only"@]
    }

    proof fn sectors_ok(&self) {
        vstd::slice::axiom_spec_len(self.data);
    }

    fn read_sectors(&mut self, lba: u64, count: u32, out: &mut [u8]) -> (r: Result<(), &'static str>)
        ensures
            final(self).data == old(self).data,
            r is Ok <==> lba + count <= old(self).disk().len() && old(out)@.len() == count * SECTOR,
            r matches Err(e) ==> e@ == "ramdisk: read out of range"@,
    {
        let sectors: u64 = (self.data.len() / SECTOR) as u64;
        if lba > sectors || count as u64 > sectors - lba || out.len() as u64 != count as u64 * 512 {
            return Err("ramdisk: read out of range");
        }
        let start: usize = lba as usize * SECTOR;
        let end: usize = start + out.len();
        proof {
            lemma_flat_image(self.data@, lba as int, count as nat);
        }
        put_bytes(out, 0, slice_subrange(self.data, start, end));
        assert(out@ =~= self.data@.subrange(start as int, end as int));
        Ok(())
    }

    fn write_sectors(&mut self, _lba: u64, _count: u32, _data: &[u8]) -> (r: Result<(), &'static str>)
        ensures
            *final(self) == *old(self),
            r matches Err(e) && e@ == "ramdisk is read-only"@,
    {
        Err("ramdisk is read-only")
    }

    fn sector_count(&self) -> (n: u64) {
        (self.data.len() / SECTOR) as u64
    }

    fn writable(&self) -> (r: bool) {
        false
    }

    fn describe(&self) -> (s: String) {
        let mut s: String = "ramdisk (Limine module), ".to_owned();
        push_dec(&mut s, (self.data.len() / 1024) as u64);
        s.append(" KiB, read-only");
        s
    }
}

} // verus!
