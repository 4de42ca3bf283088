use glm_os::console::{Out, GLM_CYAN, GLM_YELLOW};
use glm_os::disk::{BlockDev, Line, RamBlock, Refusals, Sectors};
use glm_os::fs::dir;
use glm_os::fs::fat32::Fat32;
use glm_os::fs::mount::{mount_ahci_disk, mount_from_limine};
use glm_os::fs::sysfile::{self, Files};
use glm_os::mem::frames::{self, Region};
use glm_os::mem::vmm::{AddressSpace, Memory, PRESENT, USER, WRITABLE};
use glm_os::shell::files;
use glm_os::shell::programs;
use glm_os::user::exec;
use glm_os::user::uaccess::{read_user_bytes, write_user_bytes};

struct MemDisk {
    data: Vec<u8>,
    writable: bool,
    /// The first sector that cannot be read, if there is one.
    broken: Option<u64>,
    /// The first sector that cannot be written, if there is one.
    stuck: Option<u64>,
}

impl BlockDev for MemDisk {
    // The model of the device, of which contracts speak; none of it runs.
    fn disk(&self) -> Sectors {
        unreachable!()
    }

    fn faultless(&self) -> bool {
        self.broken.is_none() && self.stuck.is_none()
    }

    fn can_write(&self) -> bool {
        self.writable
    }

    fn info(&self) -> Line {
        unreachable!()
    }

    fn read_refusals(&self) -> Refusals {
        unreachable!()
    }

    fn write_refusals(&self) -> Refusals {
        unreachable!()
    }

    fn sectors_ok(&self) {
    }

    fn read_sectors(&mut self, lba: u64, count: u32, out: &mut [u8]) -> Result<(), &'static str> {
        let (a, n) = (lba as usize * 512, count as usize * 512);
        if out.len() != n || a + n > self.data.len() {
            return Err("read beyond the end");
        }
        if self.broken.is_some_and(|b| lba + count as u64 > b) {
            return Err("unreadable");
        }
        out.copy_from_slice(&self.data[a..a + n]);
        Ok(())
    }

    fn write_sectors(&mut self, lba: u64, count: u32, data: &[u8]) -> Result<(), &'static str> {
        let (a, n) = (lba as usize * 512, count as usize * 512);
        if !self.writable || data.len() != n || a + n > self.data.len() {
            return Err("cannot write");
        }
        if self.stuck.is_some_and(|b| lba + count as u64 > b) {
            return Err("unwritable");
        }
        self.data[a..a + n].copy_from_slice(data);
        Ok(())
    }

    fn sector_count(&self) -> u64 {
        (self.data.len() / 512) as u64
    }

    fn writable(&self) -> bool {
        self.writable
    }

    fn describe(&self) -> String {
        "memory disk".to_string()
    }
}

fn image() -> Vec<u8> {
    let mut d = vec![0u8; 129 * 512];
    d[0x0B] = 0;
    d[0x0C] = 2;
    d[0x0D] = 1;
    d[0x0E] = 1;
    d[0x10] = 2;
    d[0x24] = 1;
    d[0x2C] = 2;
    for f in 1..3 {
        let b = f * 512;
        d[b..b + 12].copy_from_slice(&[0xF8, 0xFF, 0xFF, 0x0F, 0xFF, 0xFF, 0xFF, 0x0F, 0xFF, 0xFF, 0xFF, 0x0F]);
    }
    d
}

fn fresh() -> Fat32<MemDisk> {
    match Fat32::new(MemDisk { data: image(), writable: true, broken: None, stuck: None }) {
        Ok(f) => f,
        Err(e) => panic!("{}", e),
    }
}

fn said(v: &Vec<Out>) -> String {
    let mut s = String::new();
    for o in v {
        s.push_str(&o.text);
    }
    s
}

#[test]
fn written_files_are_read_back() {
    let mut f = fresh();
    assert_eq!(f.write_file("/HELLO.TXT", b"hello"), Ok(()));
    assert_eq!(f.cat("/HELLO.TXT"), Ok(b"hello".to_vec()));
    assert_eq!(f.cat("hello.txt"), Ok(b"hello".to_vec()));
    let big: Vec<u8> = (0..2000u32).map(|i| (i % 251) as u8).collect();
    assert_eq!(f.write_file("BIG.BIN", &big), Ok(()));
    assert_eq!(f.cat("/BIG.BIN"), Ok(big.clone()));
    // replacing keeps the others
    assert_eq!(f.write_file("HELLO.TXT", &big[..700]), Ok(()));
    assert_eq!(f.cat("HELLO.TXT"), Ok(big[..700].to_vec()));
    assert_eq!(f.cat("/BIG.BIN"), Ok(big));
    assert_eq!(f.write_file("EMPTY", b""), Ok(()));
    assert_eq!(f.cat("EMPTY"), Ok(Vec::new()));
    assert_eq!(f.root_file_count(), 3);
    let l = f.ls("/").unwrap();
    assert_eq!(l[0].name, "HELLO.TXT");
    assert_eq!((l[0].size, l[0].is_dir), (700, false));
}

#[test]
fn both_tables_are_kept_alike() {
    let mut f = fresh();
    f.write_file("A.TXT", &[1; 1500]).unwrap();
    f.delete("A.TXT").unwrap();
    f.write_file("B.TXT", &[2; 600]).unwrap();
    assert_eq!(f.dev.data[512..1024], f.dev.data[1024..1536]);
    // and a fresh mount sees the same
    let copy = MemDisk { data: f.dev.data.clone(), writable: true, broken: None, stuck: None };
    let mut g = Fat32::new(copy).ok().unwrap();
    assert_eq!(g.cat("B.TXT"), Ok(vec![2; 600]));
}

#[test]
fn a_failing_disk_gives_the_first_part() {
    let mut f = fresh();
    let big: Vec<u8> = (0..2000u32).map(|i| (i % 251) as u8).collect();
    f.write_file("BIG.BIN", &big).unwrap();
    f.write_file("LATER.TXT", b"late").unwrap();
    // the root is sector 3, the file starts at sector 4
    f.dev.broken = Some(6);
    assert_eq!(f.cat("BIG.BIN"), Ok(big[..1024].to_vec()));
    assert_eq!(f.cat("LATER.TXT"), Ok(Vec::new()));
    assert_eq!(f.root_file_count(), 2);
    f.dev.broken = Some(3);
    assert!(!f.path_exists("BIG.BIN"));
    assert_eq!(f.cat("BIG.BIN"), Err("no such file or directory"));
    assert_eq!(f.root_file_count(), 0);
}

#[test]
fn deleted_files_are_gone() {
    let mut f = fresh();
    f.write_file("A.TXT", b"a").unwrap();
    f.write_file("B.TXT", b"b").unwrap();
    assert_eq!(f.delete("A.TXT"), Ok(()));
    assert_eq!(f.cat("A.TXT"), Err("no such file or directory"));
    assert_eq!(f.cat("B.TXT"), Ok(b"b".to_vec()));
    assert_eq!(f.delete("A.TXT"), Err("no such file"));
    assert!(!f.path_exists("A.TXT"));
}

#[test]
fn what_the_file_system_refuses() {
    let mut f = fresh();
    f.write_file("A.TXT", b"a").unwrap();
    assert_eq!(f.cat("/"), Err("is a directory"));
    assert_eq!(f.ls("A.TXT").err(), Some("not a directory"));
    assert_eq!(f.ls("/NONE").err(), Some("no such file or directory"));
    assert_eq!(f.write_file("/D/A.TXT", b"x"), Err("write: only root-directory paths are supported"));
    assert_eq!(f.delete("/D/A.TXT"), Err("delete: only root-directory paths are supported"));
    assert_eq!(f.write_file("", b"x"), Err("write: only root-directory paths are supported"));
    assert!(f.write_file("HUGE", &vec![0; 200 * 512]).is_err());
    let mut r = Fat32::new(MemDisk { data: image(), writable: false, broken: None, stuck: None }).ok().unwrap();
    assert_eq!(r.write_file("A", b"x"), Err("media is read-only"));
    assert_eq!(r.delete("A"), Err("media is read-only"));
}

#[test]
fn what_cannot_be_mounted() {
    let bad = |i: usize, v: u8| {
        let mut d = image();
        d[i] = v;
        Fat32::new(MemDisk { data: d, writable: true, broken: None, stuck: None }).err()
    };
    assert_eq!(bad(0x0C, 4), Some("unsupported sector size (want 512)"));
    assert_eq!(bad(0x0D, 0), Some("bad BPB"));
    assert_eq!(bad(0x10, 0), Some("bad BPB"));
    assert_eq!(bad(0x26, 1), Some("FAT too large to cache"));
    assert!(Fat32::new(MemDisk { data: vec![], writable: true, broken: None, stuck: None }).is_err());
    assert!(mount_from_limine(&None).is_err());
    assert!(mount_ahci_disk::<MemDisk>(None).is_none());
    assert!(mount_ahci_disk(Some(MemDisk { data: image(), writable: true, broken: None, stuck: None })).is_some());
}

#[test]
fn the_ramdisk() {
    let mut f = fresh();
    f.write_file("README.TXT", b"read me").unwrap();
    let bytes: &'static [u8] = Box::leak(f.dev.data.clone().into_boxed_slice());
    let (mut r, n) = mount_from_limine(&Some(vec![bytes])).ok().unwrap();
    assert_eq!(n, 1);
    assert_eq!(r.cat("README.TXT"), Ok(b"read me".to_vec()));
    assert_eq!(r.write_file("X", b"x"), Err("media is read-only"));
    let ram = RamBlock { data: bytes };
    assert_eq!(ram.sector_count(), 129);
}

fn user_memory() -> (Memory, AddressSpace) {
    let mut m = Memory::new();
    frames::init(&mut m.frames, &vec![Region { base: 0x10_0000, length: 0x80_0000, usable: true }]);
    let s = AddressSpace::new_user(&mut m).unwrap();
    for i in 0..8u64 {
        let p = frames::alloc_frame(&mut m.frames).unwrap();
        assert_eq!(s.map(&mut m, 0x40_0000 + i * 4096, p, PRESENT | WRITABLE | USER), Ok(()));
    }
    (m, s)
}

#[test]
fn programs_use_files() {
    let (mut m, s) = user_memory();
    let mut disk = Some(fresh());
    let mut t = Files::new();
    write_user_bytes(&mut m, &s, 0x40_0000, b"NOTE.TXThello world").unwrap();
    let cr3 = s.pml4;
    // not there, and not to be made
    assert_eq!(sysfile::file_open(&mut t, &mut disk, &m, cr3, 5, 0x40_0000, 8, 0), -1);
    assert_eq!(sysfile::file_open(&mut t, &mut disk, &m, cr3, 5, 0x40_0000, 8, sysfile::O_RDWR), -1);
    assert_eq!(sysfile::file_open(&mut t, &mut disk, &m, cr3, 5, 0x40_0000, 0, 1), -1);
    assert_eq!(sysfile::file_open(&mut t, &mut disk, &m, cr3, 5, 0x90_0000, 8, 1), -1);
    let fd = sysfile::file_open(&mut t, &mut disk, &m, cr3, 5, 0x40_0000, 8, sysfile::O_CREATE);
    assert_eq!(fd, 0);
    assert_eq!(sysfile::open_count(&t), 1);
    assert_eq!(sysfile::file_write(&mut t, &m, cr3, 5, 0, 0x40_0008, 11), 11);
    assert_eq!(sysfile::file_seek(&mut t, 5, 0, 6, 0), 6);
    assert_eq!(sysfile::file_read(&mut t, &mut m, cr3, 5, 0, 0x40_1000, 100), 5);
    assert_eq!(read_user_bytes(&m, &s, 0x40_1000, 5), Ok(b"world".to_vec()));
    assert_eq!(sysfile::file_read(&mut t, &mut m, cr3, 5, 0, 0x40_1000, 100), 0);
    // past the end there is nothing, and the cursor stays
    assert_eq!(sysfile::file_seek(&mut t, 5, 0, 40, 0), 40);
    assert_eq!(sysfile::file_read(&mut t, &mut m, cr3, 5, 0, 0x40_1000, 100), 0);
    assert_eq!(sysfile::file_seek(&mut t, 5, 0, 0, 1), 40);
    assert_eq!(sysfile::file_close(&mut t, &mut disk, 5, 0), 0);
    assert_eq!(disk.as_mut().unwrap().cat("NOTE.TXT"), Ok(b"hello world".to_vec()));
    // what was opened for reading only cannot be written
    assert_eq!(sysfile::file_open(&mut t, &mut disk, &m, cr3, 5, 0x40_0000, 8, 0), 0);
    assert_eq!(sysfile::file_write(&mut t, &m, cr3, 5, 0, 0x40_0008, 5), -1);
    // a task that ends closes its files
    assert_eq!(sysfile::file_open(&mut t, &mut disk, &m, cr3, 5, 0x40_0000, 8, sysfile::O_APPEND), 1);
    assert_eq!(sysfile::file_write(&mut t, &m, cr3, 5, 1, 0x40_0008, 5), 5);
    sysfile::on_task_exit(&mut t, &mut disk, 5);
    assert_eq!(sysfile::open_count(&t), 0);
    assert_eq!(disk.as_mut().unwrap().cat("NOTE.TXT"), Ok(b"hello worldhello".to_vec()));
    assert_eq!(sysfile::file_close(&mut t, &mut disk, 5, 0), -1);
    assert_eq!(sysfile::file_list(&mut disk, &mut m, cr3, 5, 0x40_2000, 4), 1);
    assert_eq!(sysfile::file_unlink(&t, &mut disk, &m, cr3, 5, 0x40_0000, 8), 0);
    assert_eq!(sysfile::file_unlink(&t, &mut disk, &m, cr3, 5, 0x40_0000, 8), -1);
}

#[test]
fn appending_alone_makes_a_file() {
    let mut t = Files::new();
    assert_eq!(sysfile::open_loaded(&mut t, 1, "A".to_string(), sysfile::O_APPEND, false, None), 0);
    assert_eq!(sysfile::open_loaded(&mut t, 1, "B".to_string(), sysfile::O_APPEND, true, Some(vec![1, 2])), 1);
    assert_eq!(sysfile::file_seek(&mut t, 1, 1, 0, 1), 2);
    assert_eq!(sysfile::open_loaded(&mut t, 1, "C".to_string(), 0, false, None), -1);
    for i in 2..16 {
        assert_eq!(sysfile::open_loaded(&mut t, 1, "D".to_string(), 1, false, None), i);
    }
    assert_eq!(sysfile::open_loaded(&mut t, 1, "E".to_string(), 1, false, None), -1);
}

#[test]
fn shell_lists_and_prints() {
    let mut d = Some(fresh());
    d.as_mut().unwrap().write_file("A.TXT", b"one\ntwo\x01").unwrap();
    let v = files::cmd_dls(&mut d, "");
    assert_eq!(said(&v), "listing of DISK:/\n       5  A.TXT\n".replace("5", "8"));
    assert_eq!(v[2].color, Some(GLM_CYAN));
    let v = files::cmd_ls(&mut d, "/X");
    assert_eq!(said(&v), "ls: no such file or directory\n");
    assert_eq!(said(&files::cmd_dcat(&mut d, "A.TXT")), "\none\ntwo.\n");
    assert_eq!(said(&files::cmd_cat(&mut d, "")), "usage: cat <file>\n");
    let mut none: Option<Fat32<MemDisk>> = None;
    let v = files::cmd_cat(&mut none, "A");
    assert_eq!(said(&v), "fat32: ramdisk not mounted\n");
    assert_eq!(v[0].color, Some(GLM_YELLOW));
    assert_eq!(said(&files::cmd_dls(&mut none, "")), "disk: no persistent disk mounted (ahci probe found nothing)\n");
    assert_eq!(said(&files::cmd_dstat(&mut none, 0)), "\n  disk: not present - OS runs from the ramdisk only\n");
    let s = said(&files::cmd_dstat(&mut d, 3));
    assert!(s.contains("  device: memory disk\n"));
    assert!(s.contains("fat32, 0 MiB, 1 files in root, read-write writes\n"));
    assert!(s.contains("  fds:    3 / 16 open slot(s) by ring-3 tasks\n"));
}

#[test]
fn shell_copies_and_deletes() {
    let mut ram = Some(fresh());
    let mut d = Some(fresh());
    ram.as_mut().unwrap().write_file("SRC.TXT", b"data").unwrap();
    assert_eq!(said(&files::cmd_dsave(&mut ram, &mut d, "SRC.TXT")), "usage: dsave <ramdisk-src> <disk-dst>\n");
    assert_eq!(
        said(&files::cmd_dsave(&mut ram, &mut d, "NO.TXT X.TXT")),
        "dsave: no such file or directory: NO.TXT\n"
    );
    assert_eq!(
        said(&files::cmd_dsave(&mut ram, &mut d, "SRC.TXT  DST.TXT")),
        "  [ disk  ] saved SRC.TXT -> DISK:/DST.TXT (4 bytes, persistent)\n"
    );
    assert_eq!(d.as_mut().unwrap().cat("DST.TXT"), Ok(b"data".to_vec()));
    assert_eq!(said(&files::cmd_ddel(&mut d, "DST.TXT")), "ddel: DISK:/DST.TXT deleted\n");
    assert_eq!(said(&files::cmd_ddel(&mut d, "DST.TXT")), "ddel: no such file\n");
    assert_eq!(said(&files::cmd_ddel(&mut d, "")), "usage: ddel <disk-file>\n");
}

#[test]
fn programs_are_found() {
    let mut d = Some(fresh());
    assert_eq!(programs::resolve_prog(&mut d, "a/b"), "a/b");
    assert_eq!(programs::resolve_prog(&mut d, "hello"), "hello");
    let (p, a) = programs::split_prog_args(" prog  one two ");
    assert_eq!(p, "prog");
    assert_eq!(a, vec!["one", "two"]);
    assert!(programs::find_program(&mut d, "  ").is_none());
    let p = programs::find_program(&mut d, "x y").unwrap();
    assert_eq!(programs::build_argv(&p), vec!["x", "y"]);
    assert!(programs::fits(&p));
    let long = programs::Program { path: "p".to_string(), args: vec!["a".repeat(129)] };
    assert!(!programs::fits(&long));
    d.as_mut().unwrap().write_file("RUN.ELF", b"elf").unwrap();
    let (found, out) = programs::find_on_disk(&mut d, "run.elf q");
    let (p, b) = found.unwrap();
    assert_eq!((p.path.as_str(), b), ("/RUN.ELF", b"elf".to_vec()));
    assert_eq!(said(&out), "\n");
    let (found, out) = programs::find_on_disk(&mut d, "gone");
    assert!(found.is_none());
    assert_eq!(said(&out), "\ndrun: no such file on disk (tried /GONE, /BIN/GONE)\n");
    let mut none: Option<Fat32<MemDisk>> = None;
    assert_eq!(exec::read_image(&mut d, &mut none, "run.elf"), Ok(b"elf".to_vec()));
    assert_eq!(exec::read_image(&mut none, &mut d, "RUN.ELF"), Ok(b"elf".to_vec()));
    assert_eq!(exec::read_image(&mut d, &mut none, "zip"), Err("no such file on disk or ramdisk"));
}

fn ram(data: Vec<u8>) -> RamBlock {
    RamBlock { data: Box::leak(data.into_boxed_slice()) }
}

#[test]
fn what_a_ramdisk_says_when_it_cannot_be_mounted() {
    assert_eq!(Fat32::new(ram(vec![])).err(), Some("ramdisk: read out of range"));
    assert_eq!(Fat32::new(ram(vec![0; 512])).err(), Some("unsupported sector size (want 512)"));
    let mut d = vec![0; 512];
    d[0x0C] = 2;
    assert_eq!(Fat32::new(ram(d)).err(), Some("bad BPB"));
    // the table does not lie on the disk
    let mut d = image();
    d.truncate(512);
    assert_eq!(Fat32::new(ram(d)).err(), Some("ramdisk: read out of range"));
    let mut r = ram(image());
    let mut buf = [0u8; 512];
    assert_eq!(r.read_sectors(129, 1, &mut buf), Err("ramdisk: read out of range"));
    assert_eq!(r.write_sectors(0, 1, &buf), Err("ramdisk is read-only"));
}

#[test]
fn short_names() {
    let short = |s: &str| {
        let c: Vec<char> = s.chars().collect();
        let (b, x) = dir::to_83(&c);
        (String::from_utf8(b).unwrap(), String::from_utf8(x).unwrap())
    };
    let pair = |a: &str, b: &str| (a.to_string(), b.to_string());
    assert_eq!(short("/readme.text"), pair("README", "TEX"));
    assert_eq!(short("///a.b"), pair("A", "B"));
    assert_eq!(short(".hidden"), pair("_HIDDEN", ""));
    assert_eq!(short("/.hidden"), pair("_HIDDEN", ""));
    assert_eq!(short("my file.tar.gz"), pair("MY_FILE_", "GZ"));
    assert_eq!(short("noext"), pair("NOEXT", ""));
    assert_eq!(short("a/b.c"), pair("A_B", "C"));
}

#[test]
fn made_entries_are_listed() {
    let one = |base: &[u8], ext: &[u8]| {
        let mut raw = dir::make_dirent(&base.to_vec(), &ext.to_vec(), 0x0012_3456, 0x89AB_CDEF);
        raw.extend([0u8; 32]);
        let l = dir::parse_dir(&raw);
        assert_eq!(l.len(), 1);
        assert_eq!((l[0].first_cluster, l[0].size, l[0].is_dir), (0x0012_3456, 0x89AB_CDEF, false));
        l[0].name.clone()
    };
    assert_eq!(one(b"README", b"TXT"), "README.TXT");
    assert_eq!(one(b"a", b""), "a");
    assert_eq!(one(b"~!8CHARS", b"}"), "~!8CHARS.}");
}

#[test]
fn a_write_that_succeeds_is_on_the_disk() {
    let mut f = fresh();
    f.write_file("KEEP.TXT", b"keep").unwrap();
    // the tables are sectors 1 and 2, the root sector 3, KEEP.TXT sector 4
    f.dev.stuck = Some(6);
    let before = f.dev.data.clone();
    assert_eq!(f.write_file("/A/B", b"x"), Err("write: only root-directory paths are supported"));
    assert_eq!(f.delete("//"), Err("delete: only root-directory paths are supported"));
    assert!(f.dev.data == before);
    assert_eq!(f.write_file("ONE.TXT", b"one"), Ok(()));
    assert_eq!(f.cat("ONE.TXT"), Ok(b"one".to_vec()));
    assert_eq!(f.dev.data[5 * 512..5 * 512 + 3], *b"one");
    assert_eq!(f.write_file("TWO.TXT", b"two"), Err("unwritable"));
    assert_eq!(f.cat("TWO.TXT"), Err("no such file or directory"));
    assert_eq!(f.cat("ONE.TXT"), Ok(b"one".to_vec()));
    // the second table cannot be written: no cluster can be had
    f.dev.stuck = Some(2);
    assert_eq!(f.write_file("TWO.TXT", b"two"), Err("disk full"));
    assert_eq!(f.delete("ONE.TXT"), Err("unwritable"));
    assert_eq!(f.write_file("EMPTY", b""), Err("unwritable"));
    f.dev.stuck = None;
    f.dev.writable = false;
    assert_eq!(f.write_file("/A/B", b"x"), Err("media is read-only"));
    assert_eq!(f.delete("KEEP.TXT"), Err("media is read-only"));
    assert_eq!(f.cat("KEEP.TXT"), Ok(b"keep".to_vec()));
}

#[test]
fn deleting_marks_the_long_name_too() {
    let mut f = fresh();
    f.write_file("A.TXT", &[7; 1500]).unwrap();
    f.write_file("B.TXT", b"b").unwrap();
    // a long-name slot in front of A.TXT: the entries move on by one
    let root = 3 * 512;
    let old: Vec<u8> = f.dev.data[root..root + 64].to_vec();
    f.dev.data[root + 32..root + 96].copy_from_slice(&old);
    let mut long = [0xFFu8; 32];
    long[0] = 0x41;
    long[11] = 0x0F;
    for (i, b) in b"alpha".iter().enumerate() {
        long[1 + 2 * i] = *b;
        long[2 + 2 * i] = 0;
    }
    f.dev.data[root..root + 32].copy_from_slice(&long);
    let mut g = Fat32::new(MemDisk { data: f.dev.data.clone(), writable: true, broken: None, stuck: None }).ok().unwrap();
    assert_eq!(g.cat("Alpha"), Ok(vec![7; 1500]));
    let before = g.dev.data.clone();
    assert_eq!(g.delete("/a.txt"), Ok(()));
    let mut want = before[root..root + 512].to_vec();
    want[0] = 0xE5;
    want[32] = 0xE5;
    assert_eq!(g.dev.data[root..root + 512], want[..]);
    for t in [512, 1024] {
        let mut fat = before[t..t + 512].to_vec();
        fat[12..24].fill(0);
        assert_eq!(g.dev.data[t..t + 512], fat[..]);
    }
    assert_eq!(g.delete("A.TXT"), Err("no such file"));
    assert_eq!(g.cat("B.TXT"), Ok(b"b".to_vec()));
}

#[test]
fn paths_ignore_case_and_extra_slashes() {
    let mut f = fresh();
    f.write_file("FILE.TXT", b"one").unwrap();
    // a directory in cluster 10 that holds a copy of FILE.TXT's entry
    let root = 3 * 512;
    let mut d = f.dev.data.clone();
    let entry: Vec<u8> = d[root..root + 32].to_vec();
    let mut sub = entry.clone();
    sub[..11].copy_from_slice(b"SUB        ");
    sub[11] = 0x10;
    sub[26] = 10;
    d[root + 32..root + 64].copy_from_slice(&sub);
    d[11 * 512..11 * 512 + 32].copy_from_slice(&entry);
    for t in [512, 1024] {
        d[t + 40..t + 44].copy_from_slice(&[0xFF, 0xFF, 0xFF, 0x0F]);
    }
    let mut g = Fat32::new(MemDisk { data: d, writable: true, broken: None, stuck: None }).ok().unwrap();
    for p in ["", "/", "//"] {
        let e = g.lookup(p).unwrap();
        assert_eq!((e.name.as_str(), e.is_dir, e.size), ("/", true, 0));
    }
    for p in ["/SUB/FILE.TXT", "sub/file.txt", "//sUb///File.txt//"] {
        assert_eq!(g.cat(p), Ok(b"one".to_vec()));
    }
    assert!(g.lookup("/FILE.TXT/X").is_none());
    assert!(g.lookup("/SUB/NONE").is_none());
    // a write to the root leaves what is below it alone, in any letter case
    assert_eq!(g.write_file("/new.txt", b"new"), Ok(()));
    assert_eq!(g.cat("NEW.txt"), Ok(b"new".to_vec()));
    assert_eq!(g.cat("/SUB/FILE.TXT"), Ok(b"one".to_vec()));
    assert_eq!(g.write_file("NEW.TXT", b""), Ok(()));
    assert_eq!(g.cat("/new.txt"), Ok(Vec::new()));
    assert_eq!(g.cat("file.txt"), Ok(b"one".to_vec()));
}

#[test]
fn creating_alone_truncates_or_makes_the_file() {
    let (mut m, s) = user_memory();
    let cr3 = s.pml4;
    let mut disk = Some(fresh());
    let mut t = Files::new();
    write_user_bytes(&mut m, &s, 0x40_0000, b"FNEWAPP").unwrap();
    disk.as_mut().unwrap().write_file("F", b"0123456789").unwrap();
    assert_eq!(sysfile::file_open(&mut t, &mut disk, &m, cr3, 5, 0x40_0000, 1, sysfile::O_CREATE), 0);
    assert_eq!(sysfile::file_close(&mut t, &mut disk, 6, 0), -1);
    assert_eq!(sysfile::open_count(&t), 1);
    assert_eq!(disk.as_mut().unwrap().cat("F"), Ok(b"0123456789".to_vec()));
    assert_eq!(sysfile::file_close(&mut t, &mut disk, 5, 0), 0);
    assert_eq!(sysfile::file_close(&mut t, &mut disk, 5, 0), -1);
    assert_eq!(disk.as_mut().unwrap().cat("F"), Ok(Vec::new()));
    assert_eq!(sysfile::file_open(&mut t, &mut disk, &m, cr3, 5, 0x40_0001, 3, sysfile::O_CREATE), 0);
    assert_eq!(sysfile::file_open(&mut t, &mut disk, &m, cr3, 5, 0x40_0004, 3, sysfile::O_APPEND), 1);
    sysfile::on_task_exit(&mut t, &mut disk, 5);
    let e = disk.as_mut().unwrap().lookup("NEW").unwrap();
    assert_eq!((e.size, e.is_dir), (0, false));
    assert!(disk.as_mut().unwrap().path_exists("APP"));
    // keeping what is there is no change
    disk.as_mut().unwrap().write_file("F", b"kept").unwrap();
    let both = sysfile::O_CREATE | sysfile::O_RDWR;
    assert_eq!(sysfile::file_open(&mut t, &mut disk, &m, cr3, 5, 0x40_0000, 1, both), 0);
    assert_eq!(sysfile::file_close(&mut t, &mut disk, 5, 0), 0);
    assert_eq!(disk.as_mut().unwrap().cat("F"), Ok(b"kept".to_vec()));
}
