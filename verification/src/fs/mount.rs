//! The file systems that may be mounted: the ramdisk, and a disk that keeps
//! what is written.

use vstd::prelude::*;

use crate::disk::{BlockDev, RamBlock};
use crate::fs::fat32::{Fat32, FatV};

verus! {

/// A mounted file system is in order.
pub open spec fn sane<D: BlockDev>(f: Option<Fat32<D>>) -> bool {
    f matches Some(x) ==> x.wf()
}

/// No transfer of the device fails.
pub open spec fn reliable<D: BlockDev>(f: Option<Fat32<D>>) -> bool {
    f matches Some(x) ==> x.dev.faultless()
}

/// What is mounted.
pub open spec fn mounted<D: BlockDev>(f: Option<Fat32<D>>) -> Option<FatV> {
    match f {
        None => None,
        Some(x) => Some(x@),
    }
}

/// What every operation keeps of a mount.
pub open spec fn kept<D: BlockDev>(a: Option<Fat32<D>>, b: Option<Fat32<D>>) -> bool {
    match (a, b) {
        (None, None) => true,
        (Some(x), Some(y)) => y.keeps(&x),
        _ => false,
    }
}

/// Mounts the first boot module as the ramdisk: the file system, and how many
/// files are in its root. `modules` is what the boot loader gave.
pub fn mount_from_limine(modules: &Option<Vec<&'static [u8]>>) -> (r: Result<(Fat32<RamBlock>, usize), &'static str>)
    ensures
        *modules is None ==> (r matches Err(e) && e@ == "bootloader provided no modules"@),
        *modules matches Some(v) ==> {
            &&& v@.len() == 0 ==> (r matches Err(e) && e@ == "no ramdisk module"@)
            &&& v@.len() > 0 && v@[0]@.len() == 0 ==> (r matches Err(e) && e@ == "ramdisk module is empty"@)
            &&& v@.len() > 0 && v@[0]@.len() > 0 ==> match (
                r,
                crate::fs::fat32::mount_spec(crate::disk::image_sectors(v@[0]@), false),
            ) {
                (Ok((f, n)), Ok(x)) => f.wf() && f@ == x && n == crate::fs::fat32::root_count(x),
                (Err(e), Err(x)) => crate::fs::fat32::says_on(set!["ramdisk: read out of range"@], e, x),
                _ => false,
            }
        },
{
    let v = match modules {
        None => {
            return Err("bootloader provided no modules");
        },
        Some(v) => v,
    };
    if v.len() == 0 {
        return Err("no ramdisk module");
    }
    let data: &'static [u8] = v[0];
    if data.len() == 0 {
        return Err("ramdisk module is empty");
    }
    match Fat32::new(RamBlock { data }) {
        Err(e) => Err(e),
        Ok(f) => {
            let mut f = f;
            let n: usize = f.root_file_count();
            Ok((f, n))
        },
    }
}

/// Mounts a disk, if there is one with a file system on it. Without one the
/// system runs all the same.
pub fn mount_ahci_disk<D: BlockDev>(dev: Option<D>) -> (r: Option<Fat32<D>>)
    ensures
        dev is None ==> r is None,
        r matches Some(f) ==> f.wf() && (dev matches Some(d) && crate::fs::fat32::mount_spec(
            d.disk(),
            d.can_write(),
        ) == Ok::<FatV, crate::fs::fat32::FsErr>(f@)),
        dev matches Some(d) ==> (d.faultless() && crate::fs::fat32::mount_spec(d.disk(), d.can_write()) is Ok
            ==> r is Some),
{
    match dev {
        None => None,
        Some(d) => match Fat32::new(d) {
            Err(_) => None,
            Ok(f) => Some(f),
        },
    }
}

} // verus!
