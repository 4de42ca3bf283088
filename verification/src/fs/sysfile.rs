//! Files for user programs. The file system reads and writes whole files, so
//! an open file is a buffer with a cursor: opening loads the contents, and
//! closing writes a buffer that was changed back to the disk. A file that was
//! created or truncated counts as changed. A process that ends has its files
//! closed for it.

use vstd::prelude::*;
use vstd::string::{StrSliceExecFns, StringExecFns};

use crate::disk::BlockDev;
use crate::fs::dir::{DirEntry, EntV};
use crate::fs::fat32::{Fat32, FatV};
use crate::mem::vmm::{AddressSpace, MemV, Memory};
use crate::text::{latin1, push_char, same_text};
use crate::user::uaccess::{read_user_bytes, write_user_bytes};

verus! {

pub const SYS_FILE_OPEN: u64 = 36;

pub const SYS_FILE_READ: u64 = 37;

pub const SYS_FILE_WRITE: u64 = 38;

pub const SYS_FILE_CLOSE: u64 = 39;

pub const SYS_FILE_SEEK: u64 = 40;

pub const SYS_FILE_UNLINK: u64 = 41;

pub const SYS_FILE_LIST: u64 = 42;

/// Create the file, or start with it empty.
pub const O_CREATE: u64 = 1;

/// Load the contents, with the cursor at the start.
pub const O_RDWR: u64 = 2;

/// Open or create, with the cursor at the end.
pub const O_APPEND: u64 = 4;

/// How many files can be open.
pub const NFILES: usize = 16;

/// The longest name.
pub const MAX_NAME: usize = 32;

/// The longest open file.
pub const MAX_FILE: usize = 0x4_0000;

/// The most that one call transfers.
pub const MAX_RW: usize = 8192;

/// The most entries that one call lists.
pub const MAX_LIST: usize = 32;

pub struct OpenFile {
    pub owner: u64,
    pub name: String,
    pub buf: Vec<u8>,
    pub pos: usize,
    pub dirty: bool,
    pub writable: bool,
}

#[verifier::ext_equal]
pub struct FileV {
    pub owner: u64,
    pub name: Seq<char>,
    pub buf: Seq<u8>,
    pub pos: int,
    pub dirty: bool,
    pub writable: bool,
}

impl OpenFile {
    pub open spec fn view(&self) -> FileV {
        FileV {
            owner: self.owner,
            name: self.name@,
            buf: self.buf@,
            pos: self.pos as int,
            dirty: self.dirty,
            writable: self.writable,
        }
    }
}

impl FileV {
    pub open spec fn wf(self) -> bool {
        &&& self.buf.len() <= MAX_FILE
        &&& 0 <= self.pos <= MAX_FILE
    }
}

/// The table of open files.
pub struct Files {
    pub files: Vec<Option<OpenFile>>,
}

pub open spec fn slot_view(f: Option<OpenFile>) -> Option<FileV> {
    match f {
        None => None,
        Some(x) => Some(x@),
    }
}

pub open spec fn slot_ok(f: Option<FileV>) -> bool {
    f matches Some(x) ==> x.wf()
}

impl Files {
    pub open spec fn view(&self) -> Seq<Option<FileV>> {
        self.files@.map_values(|f: Option<OpenFile>| slot_view(f))
    }

    pub open spec fn wf(&self) -> bool {
        &&& self.files@.len() == NFILES
        &&& forall|i: int| 0 <= i < NFILES ==> slot_ok(#[trigger] self@[i])
    }

    /// The table at boot: nothing is open.
    pub fn new() -> (t: Files)
        ensures
            t.wf(),
            t@ == Seq::new(NFILES as nat, |i: int| None::<FileV>),
    {
        let mut files: Vec<Option<OpenFile>> = Vec::new();
        let mut i: usize = 0;
        while i < NFILES
            invariant
                i <= NFILES,
                files@.len() == i,
                forall|j: int| 0 <= j < i ==> (#[trigger] files@[j]) is None,
            decreases NFILES - i,
        {
            files.push(None);
            i = i + 1;
        }
        let t = Files { files };
        assert(t@ =~= Seq::new(NFILES as nat, |i: int| None::<FileV>));
        t
    }
}

// ---------------------------------------------------------------------------
// Names
// ---------------------------------------------------------------------------
/// A byte of a name: printable, no blank, no slash.
pub open spec fn name_byte(b: u8) -> bool {
    0x21 <= b && b <= 0x7E && b != 0x2F
}

pub open spec fn all_name_bytes(b: Seq<u8>) -> bool {
    forall|i: int| 0 <= i < b.len() ==> name_byte(#[trigger] b[i])
}

pub open spec fn name_text(b: Seq<u8>) -> Seq<char> {
    b.map_values(|x: u8| x as char)
}

/// The name at an address, if it is one.
pub open spec fn name_at(m: MemV, cr3: u64, va: u64, len: u64) -> Option<Seq<char>> {
    let pml4 = crate::mem::vmm::frame_of(cr3);
    let b = crate::user::uaccess::user_bytes(m, pml4, va, len as int);
    if len == 0 || len > MAX_NAME || !crate::user::uaccess::readable(m, pml4, va, len as int) || !all_name_bytes(b) {
        None
    } else {
        Some(name_text(b))
    }
}

fn text_of_name(b: &Vec<u8>) -> (r: Option<String>)
    ensures
        match r {
            Some(s) => s@ == name_text(b@) && all_name_bytes(b@),
            None => !all_name_bytes(b@),
        },
{
    let mut s: String = String::new();
    let n: usize = b.len();
    let mut i: usize = 0;
    assert(s@ =~= name_text(b@.take(0)));
    while i < n
        invariant
            n == b@.len(),
            i <= n,
            s@ == name_text(b@.take(i as int)),
            forall|j: int| 0 <= j < i ==> name_byte(#[trigger] b@[j]),
        decreases n - i,
    {
        let x: u8 = b[i];
        if x < 0x21 || x > 0x7E || x == 0x2F {
            assert(!name_byte(b@[i as int]));
            return None;
        }
        push_char(&mut s, latin1(x));
        i = i + 1;
        assert(s@ =~= name_text(b@.take(i as int)));
    }
    assert(b@.take(n as int) =~= b@);
    Some(s)
}

fn read_name(m: &Memory, cr3: u64, va: u64, len: u64) -> (r: Option<String>)
    requires
        m.wf(),
    ensures
        match (r, name_at(m@, cr3, va, len)) {
            (Some(s), Some(t)) => s@ == t,
            (None, None) => true,
            _ => false,
        },
{
    if len == 0 || len > MAX_NAME as u64 {
        return None;
    }
    let space = AddressSpace::from_pml4(cr3);
    match read_user_bytes(m, &space, va, len as usize) {
        Err(_) => None,
        Ok(b) => text_of_name(&b),
    }
}

/// The path of a name: in the root directory.
pub open spec fn root_path(name: Seq<char>) -> Seq<char> {
    "/"@ + name
}

fn path_of(name: &str) -> (r: String)
    ensures
        r@ == root_path(name@),
{
    let mut s: String = "/".to_owned();
    s.append(name);
    s
}

// ---------------------------------------------------------------------------
// Opening
// ---------------------------------------------------------------------------
pub open spec fn slot_free() -> spec_fn(Option<FileV>) -> bool {
    |f: Option<FileV>| f is None
}

/// What the file holds when it is opened; nothing, if it cannot be. `there`
/// says whether the name is there, `got` what reading it gives.
pub open spec fn loaded(flags: u64, there: bool, got: Option<Seq<u8>>) -> Option<Seq<u8>> {
    let create = flags & O_CREATE != 0;
    let append = flags & O_APPEND != 0;
    if !there && flags & (O_CREATE | O_RDWR | O_APPEND) == 0 {
        None
    } else if create && flags & (O_RDWR | O_APPEND) == 0 {
        Some(Seq::empty())
    } else {
        match got {
            Some(b) => Some(b),
            None => if create || (append && !there) {
                Some(Seq::empty())
            } else {
                None
            },
        }
    }
}

/// Whether an open that succeeds leaves something to write back: the file was
/// truncated, or created.
pub open spec fn opens_changed(flags: u64, there: bool, got: Option<Seq<u8>>) -> bool {
    (flags & O_CREATE != 0 && flags & (O_RDWR | O_APPEND) == 0) || (!there && got is None)
}

/// The outcome of an open, for what the disk says of the name.
pub open spec fn open_with(
    t: Seq<Option<FileV>>,
    pid: u64,
    name: Seq<char>,
    flags: u64,
    there: bool,
    got: Option<Seq<u8>>,
) -> (Seq<Option<FileV>>, int) {
    match (crate::seqs::first(t, slot_free()), loaded(flags, there, got)) {
        (Some(i), Some(b)) if b.len() <= MAX_FILE => (
            t.update(
                i,
                Some(
                    FileV {
                        owner: pid,
                        name,
                        buf: b,
                        pos: if flags & O_APPEND != 0 {
                            b.len() as int
                        } else {
                            0
                        },
                        dirty: opens_changed(flags, there, got),
                        writable: flags != 0,
                    },
                ),
            ),
            i,
        ),
        _ => (t, -1),
    }
}

/// The readable contents of a path.
pub open spec fn contents(v: FatV, path: Seq<char>) -> Option<Seq<u8>> {
    match crate::fs::fat32::cat_spec(v, path) {
        Ok(b) => Some(b),
        Err(_) => None,
    }
}

fn find_free(t: &Files) -> (r: Option<usize>)
    requires
        t.wf(),
    ensures
        match (r, crate::seqs::first(t@, slot_free())) {
            (Some(i), Some(j)) => i == j && i < NFILES,
            (None, None) => true,
            _ => false,
        },
{
    let mut i: usize = 0;
    while i < NFILES
        invariant
            i <= NFILES,
            t.wf(),
            crate::seqs::first_from(t@, slot_free(), i as int) == crate::seqs::first(t@, slot_free()),
        decreases NFILES - i,
    {
        assert(t@[i as int] == slot_view(t.files@[i as int]));
        if t.files[i].is_none() {
            return Some(i);
        }
        i = i + 1;
    }
    None
}

/// Opens a file for what the disk says of its name: whether it is there, and
/// what reading it gave.
pub fn open_loaded(t: &mut Files, pid: u64, name: String, flags: u64, there: bool, got: Option<Vec<u8>>) -> (fd: i64)
    requires
        old(t).wf(),
    ensures
        final(t).wf(),
        (final(t)@, fd as int) == open_with(
            old(t)@,
            pid,
            name@,
            flags,
            there,
            crate::user::exec::bytes_of(got),
        ),
{
    let slot: usize = match find_free(t) {
        None => {
            return -1;
        },
        Some(i) => i,
    };
    let create: bool = flags & O_CREATE != 0;
    let append: bool = flags & O_APPEND != 0;
    if !there && flags & (O_CREATE | O_RDWR | O_APPEND) == 0 {
        return -1;
    }
    let ghost gv = crate::user::exec::bytes_of(got);
    let dirty: bool = (create && flags & (O_RDWR | O_APPEND) == 0) || (!there && got.is_none());
    let buf: Vec<u8> = if create && flags & (O_RDWR | O_APPEND) == 0 {
        Vec::new()
    } else {
        match got {
            Some(b) => b,
            None => {
                if create || (append && !there) {
                    Vec::new()
                } else {
                    return -1;
                }
            },
        }
    };
    assert(loaded(flags, there, gv) matches Some(b) && b =~= buf@);
    if buf.len() > MAX_FILE {
        return -1;
    }
    let pos: usize = if append {
        buf.len()
    } else {
        0
    };
    let f = OpenFile { owner: pid, name, buf, pos, dirty, writable: flags != 0 };
    let ghost fv = f@;
    t.files.set(slot, Some(f));
    assert(t@ =~= old(t)@.update(slot as int, Some(fv)));
    slot as i64
}

/// open(name, flags) by `pid`: the descriptor, or -1.
pub fn file_open<D: BlockDev>(
    t: &mut Files,
    disk: &mut Option<Fat32<D>>,
    m: &Memory,
    cr3: u64,
    pid: u64,
    uptr: u64,
    name_len: u64,
    flags: u64,
) -> (fd: i64)
    requires
        old(t).wf(),
        m.wf(),
        crate::fs::mount::sane(*old(disk)),
    ensures
        final(t).wf(),
        crate::fs::mount::kept(*old(disk), *final(disk)),
        crate::fs::mount::mounted(*final(disk)) == crate::fs::mount::mounted(*old(disk)),
        match (name_at(m@, cr3, uptr, name_len), crate::fs::mount::mounted(*old(disk))) {
            (Some(name), Some(v)) if flags <= 7 => exists|there: bool, got: Option<Seq<u8>>| #[trigger]
                open_with(old(t)@, pid, name, flags, there, got) == (final(t)@, fd as int) && (there
                    ==> crate::fs::fat32::lookup_spec(v, root_path(name)) is Some) && (got matches Some(b)
                    ==> contents(v, root_path(name)) matches Some(x) && b.is_prefix_of(x)) && (
                crate::fs::mount::reliable(*old(disk)) ==> there == (crate::fs::fat32::lookup_spec(
                    v,
                    root_path(name),
                ) is Some) && got == contents(v, root_path(name))),
            _ => fd == -1 && final(t)@ == old(t)@,
        },
{
    let name: String = match read_name(m, cr3, uptr, name_len) {
        None => {
            return -1;
        },
        Some(s) => s,
    };
    if flags > 7 {
        return -1;
    }
    let path: String = path_of(name.as_str());
    let (there, got): (bool, Option<Vec<u8>>) = match disk {
        None => {
            return -1;
        },
        Some(fs) => {
            let there: bool = fs.lookup(path.as_str()).is_some();
            match fs.cat(path.as_str()) {
                Ok(b) => (there, Some(b)),
                Err(_) => (there, None),
            }
        },
    };
    let ghost gv = crate::user::exec::bytes_of(got);
    let fd: i64 = open_loaded(t, pid, name, flags, there, got);
    assert(open_with(old(t)@, pid, name@, flags, there, gv) == (t@, fd as int));
    fd
}

// ---------------------------------------------------------------------------
// Reading and writing
// ---------------------------------------------------------------------------
/// The descriptor's file.
pub open spec fn file_at(t: Seq<Option<FileV>>, fd: u64) -> Option<FileV> {
    if fd < NFILES {
        t[fd as int]
    } else {
        None
    }
}

/// What one call transfers.
pub open spec fn transfer(len: u64) -> int {
    if len < MAX_RW {
        len as int
    } else {
        MAX_RW as int
    }
}

/// The bytes that a read of `n` gives: none with the cursor at the end of the
/// file or past it.
pub open spec fn ahead(f: FileV, n: int) -> Seq<u8> {
    let left = f.buf.len() - f.pos;
    if left <= 0 {
        Seq::empty()
    } else {
        f.buf.subrange(f.pos, f.pos + if left < n {
            left
        } else {
            n
        })
    }
}

pub open spec fn moved(f: FileV, pos: int) -> FileV {
    FileV { pos, ..f }
}

pub open spec fn read_spec(t: Seq<Option<FileV>>, m: MemV, cr3: u64, fd: u64, va: u64, len: u64) -> (
    Seq<Option<FileV>>,
    MemV,
    int,
) {
    match file_at(t, fd) {
        _ if len == 0 => (t, m, 0),
        None => (t, m, -1),
        Some(f) => {
            let d = ahead(f, transfer(len));
            let (m1, ok) = crate::user::uaccess::written(m, crate::mem::vmm::frame_of(cr3), va, d, 0);
            if ok {
                (t.update(fd as int, Some(moved(f, f.pos + d.len()))), m1, d.len() as int)
            } else {
                (t, m1, -1)
            }
        },
    }
}

/// read(fd, buf, len): how many bytes were read, 0 at the end of the file or
/// past it, or -1.
pub fn file_read(t: &mut Files, m: &mut Memory, cr3: u64, _pid: u64, fd: u64, uptr: u64, len: u64) -> (r: i64)
    requires
        old(t).wf(),
        old(m).wf(),
    ensures
        final(t).wf(),
        final(m).wf(),
        (final(t)@, final(m)@, r as int) == read_spec(old(t)@, old(m)@, cr3, fd, uptr, len),
{
    if len == 0 {
        return 0;
    }
    let want: usize = if len < MAX_RW as u64 {
        len as usize
    } else {
        MAX_RW
    };
    if fd >= NFILES as u64 {
        return -1;
    }
    let i: usize = fd as usize;
    let space = AddressSpace::from_pml4(cr3);
    assert(t@[i as int] == slot_view(t.files@[i as int]));
    let mut slot: Option<OpenFile> = None;
    core::mem::swap(&mut slot, &mut t.files[i]);
    match slot {
        None => {
            assert(t@ =~= old(t)@);
            -1
        },
        Some(f) => {
            let mut f = f;
            let ghost fv = f@;
            assert(slot_ok(old(t)@[i as int]));
            let at: usize = if f.pos < f.buf.len() {
                f.pos
            } else {
                f.buf.len()
            };
            let left: usize = f.buf.len() - at;
            let n: usize = if left < want {
                left
            } else {
                want
            };
            let out = vstd::slice::slice_subrange(f.buf.as_slice(), at, at + n);
            assert(out@ =~= ahead(fv, transfer(len)));
            let r: i64 = match write_user_bytes(m, &space, uptr, out) {
                Ok(_) => n as i64,
                Err(_) => -1,
            };
            if r >= 0 {
                f.pos = f.pos + n;
            }
            let ghost gv = f@;
            t.files.set(i, Some(f));
            assert(t@ =~= old(t)@.update(i as int, Some(gv)));
            assert(t@ =~= read_spec(old(t)@, old(m)@, cr3, fd, uptr, len).0);
            r
        },
    }
}

/// The buffer after `d` was put at `pos`; a gap is filled with zeros.
pub open spec fn patched(b: Seq<u8>, pos: int, d: Seq<u8>) -> Seq<u8> {
    let end = pos + d.len();
    Seq::new(
        (if end < b.len() {
            b.len() as int
        } else {
            end
        }) as nat,
        |i: int|
            if pos <= i < end {
                d[i - pos]
            } else if i < b.len() {
                b[i]
            } else {
                0
            },
    )
}

/// The file after a write at its cursor; nothing, if it may not be written or
/// would be too long.
pub open spec fn written_file(f: FileV, d: Seq<u8>) -> Option<FileV> {
    if !f.writable || f.pos + d.len() > MAX_FILE {
        None
    } else {
        Some(FileV { buf: patched(f.buf, f.pos, d), pos: f.pos + d.len(), dirty: true, ..f })
    }
}

pub open spec fn write_spec(t: Seq<Option<FileV>>, m: MemV, cr3: u64, fd: u64, va: u64, len: u64) -> (
    Seq<Option<FileV>>,
    int,
) {
    let pml4 = crate::mem::vmm::frame_of(cr3);
    let n = transfer(len);
    if len == 0 {
        (t, 0)
    } else if !crate::user::uaccess::readable(m, pml4, va, n) {
        (t, -1)
    } else {
        match file_at(t, fd) {
            None => (t, -1),
            Some(f) => match written_file(f, crate::user::uaccess::user_bytes(m, pml4, va, n)) {
                None => (t, -1),
                Some(g) => (t.update(fd as int, Some(g)), n),
            },
        }
    }
}

/// Puts `d` at `pos`.
fn patch(buf: &mut Vec<u8>, pos: usize, d: &Vec<u8>)
    requires
        pos + d@.len() <= MAX_FILE,
    ensures
        final(buf)@ == patched(old(buf)@, pos as int, d@),
{
    let n: usize = d.len();
    let end: usize = pos + n;
    while buf.len() < end
        invariant
            end <= MAX_FILE,
            old(buf)@.len() <= buf@.len(),
            buf@.len() <= end || buf@.len() == old(buf)@.len(),
            forall|i: int|
                0 <= i < buf@.len() ==> #[trigger] buf@[i] == if i < old(buf)@.len() {
                    old(buf)@[i]
                } else {
                    0
                },
        decreases end - buf@.len(),
    {
        buf.push(0);
    }
    let ghost b1 = buf@;
    let mut i: usize = 0;
    while i < n
        invariant
            i <= n,
            n == d@.len(),
            end == pos + n,
            end <= MAX_FILE,
            end <= buf@.len(),
            buf@.len() == b1.len(),
            forall|j: int|
                0 <= j < b1.len() ==> #[trigger] buf@[j] == if pos <= j < pos + i {
                    d@[j - pos]
                } else {
                    b1[j]
                },
        decreases n - i,
    {
        buf.set(pos + i, d[i]);
        i = i + 1;
    }
    assert(buf@ =~= patched(old(buf)@, pos as int, d@));
}

/// write(fd, buf, len): how many bytes were written, or -1.
pub fn file_write(t: &mut Files, m: &Memory, cr3: u64, _pid: u64, fd: u64, uptr: u64, len: u64) -> (r: i64)
    requires
        old(t).wf(),
        m.wf(),
    ensures
        final(t).wf(),
        (final(t)@, r as int) == write_spec(old(t)@, m@, cr3, fd, uptr, len),
{
    if len == 0 {
        return 0;
    }
    let n: usize = if len < MAX_RW as u64 {
        len as usize
    } else {
        MAX_RW
    };
    let space = AddressSpace::from_pml4(cr3);
    let chunk: Vec<u8> = match read_user_bytes(m, &space, uptr, n) {
        Err(_) => {
            return -1;
        },
        Ok(v) => v,
    };
    if fd >= NFILES as u64 {
        return -1;
    }
    let i: usize = fd as usize;
    assert(t@[i as int] == slot_view(t.files@[i as int]));
    let mut slot: Option<OpenFile> = None;
    core::mem::swap(&mut slot, &mut t.files[i]);
    match slot {
        None => {
            assert(t@ =~= old(t)@);
            -1
        },
        Some(f) => {
            let mut f = f;
            let ghost fv = f@;
            assert(slot_ok(old(t)@[i as int]));
            let mut r: i64 = -1;
            if f.writable && f.pos + n <= MAX_FILE {
                patch(&mut f.buf, f.pos, &chunk);
                f.pos = f.pos + n;
                f.dirty = true;
                r = n as i64;
                assert(written_file(fv, chunk@) == Some(f@));
            }
            let ghost gv = f@;
            t.files.set(i, Some(f));
            assert(t@ =~= old(t)@.update(i as int, Some(gv)));
            assert(t@ =~= write_spec(old(t)@, m@, cr3, fd, uptr, len).0);
            r
        },
    }
}

/// Where a seek leads; nothing, if it leads nowhere.
pub open spec fn seek_target(f: FileV, off: i64, whence: u64) -> Option<int> {
    let base = if whence == 0 {
        0
    } else if whence == 1 {
        f.pos
    } else {
        f.buf.len() as int
    };
    if whence > 2 || base + off < 0 || base + off > MAX_FILE {
        None
    } else {
        Some(base + off)
    }
}

pub open spec fn seek_spec(t: Seq<Option<FileV>>, fd: u64, off: i64, whence: u64) -> (Seq<Option<FileV>>, int) {
    match file_at(t, fd) {
        None => (t, -1),
        Some(f) => match seek_target(f, off, whence) {
            None => (t, -1),
            Some(p) => (t.update(fd as int, Some(moved(f, p))), p),
        },
    }
}

/// seek(fd, off, whence): the new cursor, or -1. The cursor counts from the
/// start (0), from where it is (1) or from the end (2).
pub fn file_seek(t: &mut Files, _pid: u64, fd: u64, off: i64, whence: u64) -> (r: i64)
    requires
        old(t).wf(),
    ensures
        final(t).wf(),
        (final(t)@, r as int) == seek_spec(old(t)@, fd, off, whence),
{
    if fd >= NFILES as u64 {
        return -1;
    }
    let i: usize = fd as usize;
    assert(t@[i as int] == slot_view(t.files@[i as int]));
    let mut slot: Option<OpenFile> = None;
    core::mem::swap(&mut slot, &mut t.files[i]);
    match slot {
        None => {
            assert(t@ =~= old(t)@);
            -1
        },
        Some(f) => {
            let mut f = f;
            assert(slot_ok(old(t)@[i as int]));
            let base: i64 = if whence == 0 {
                0
            } else if whence == 1 {
                f.pos as i64
            } else {
                f.buf.len() as i64
            };
            let mut r: i64 = -1;
            if whence <= 2 && off >= -base && off <= MAX_FILE as i64 - base {
                f.pos = (base + off) as usize;
                r = base + off;
            }
            let ghost gv = f@;
            t.files.set(i, Some(f));
            assert(t@ =~= old(t)@.update(i as int, Some(gv)));
            assert(t@ =~= seek_spec(old(t)@, fd, off, whence).0);
            r
        },
    }
}

// ---------------------------------------------------------------------------
// Closing
// ---------------------------------------------------------------------------
/// The disk after a file was written back, if it was changed.
pub open spec fn flushed(f: FileV, disk: Option<FatV>) -> Option<FatV> {
    match disk {
        Some(v) if f.dirty => Some(crate::fs::fat_write::write_file_spec(v, root_path(f.name), f.buf).0),
        _ => disk,
    }
}

/// Writes a changed file back. A write that fails loses the bytes.
fn write_back<D: BlockDev>(f: OpenFile, disk: &mut Option<Fat32<D>>)
    requires
        crate::fs::mount::sane(*old(disk)),
    ensures
        crate::fs::mount::kept(*old(disk), *final(disk)),
        !f.dirty ==> crate::fs::mount::mounted(*final(disk)) == crate::fs::mount::mounted(*old(disk)),
        crate::fs::mount::reliable(*old(disk)) ==> crate::fs::mount::mounted(*final(disk)) == flushed(
            f@,
            crate::fs::mount::mounted(*old(disk)),
        ),
{
    if !f.dirty {
        return;
    }
    match disk {
        None => {},
        Some(fs) => {
            let path: String = path_of(f.name.as_str());
            let _r = fs.write_file(path.as_str(), f.buf.as_slice());
        },
    }
}

pub open spec fn close_spec(t: Seq<Option<FileV>>, disk: Option<FatV>, pid: u64, fd: u64) -> (
    Seq<Option<FileV>>,
    Option<FatV>,
    int,
) {
    match file_at(t, fd) {
        Some(f) if f.owner == pid => (t.update(fd as int, None), flushed(f, disk), 0),
        _ => (t, disk, -1),
    }
}

/// close(fd) by `pid`: 0, or -1 if it is not open or another's. A file that
/// was changed is written to the disk.
pub fn file_close<D: BlockDev>(t: &mut Files, disk: &mut Option<Fat32<D>>, pid: u64, fd: u64) -> (r: i64)
    requires
        old(t).wf(),
        crate::fs::mount::sane(*old(disk)),
    ensures
        final(t).wf(),
        crate::fs::mount::kept(*old(disk), *final(disk)),
        ({
            let (t1, d1, x) = close_spec(old(t)@, crate::fs::mount::mounted(*old(disk)), pid, fd);
            &&& final(t)@ == t1
            &&& r == x
            &&& crate::fs::mount::reliable(*old(disk)) || r == -1 ==> crate::fs::mount::mounted(*final(disk)) == d1
        }),
{
    if fd >= NFILES as u64 {
        return -1;
    }
    let i: usize = fd as usize;
    assert(t@[i as int] == slot_view(t.files@[i as int]));
    let mut slot: Option<OpenFile> = None;
    core::mem::swap(&mut slot, &mut t.files[i]);
    match slot {
        None => {
            assert(t@ =~= old(t)@);
            -1
        },
        Some(f) => {
            assert(slot_ok(old(t)@[i as int]));
            if f.owner != pid {
                t.files.set(i, Some(f));
                assert(t@ =~= old(t)@);
                return -1;
            }
            write_back(f, disk);
            assert(t@ =~= old(t)@.update(i as int, None));
            0
        },
    }
}

/// The table and the disk after the files of `pid`, from slot `i` on, were
/// closed.
pub open spec fn exit_closes(t: Seq<Option<FileV>>, disk: Option<FatV>, pid: u64, i: int) -> (
    Seq<Option<FileV>>,
    Option<FatV>,
)
    decreases NFILES - i,
{
    if i < 0 || i >= NFILES {
        (t, disk)
    } else {
        match t[i] {
            Some(f) if f.owner == pid => exit_closes(t.update(i, None), flushed(f, disk), pid, i + 1),
            _ => exit_closes(t, disk, pid, i + 1),
        }
    }
}

/// Closes what a task that ended left open.
pub fn on_task_exit<D: BlockDev>(t: &mut Files, disk: &mut Option<Fat32<D>>, pid: u64)
    requires
        old(t).wf(),
        crate::fs::mount::sane(*old(disk)),
    ensures
        final(t).wf(),
        crate::fs::mount::kept(*old(disk), *final(disk)),
        final(t)@ == exit_closes(old(t)@, crate::fs::mount::mounted(*old(disk)), pid, 0).0,
        crate::fs::mount::reliable(*old(disk)) ==> crate::fs::mount::mounted(*final(disk)) == exit_closes(
            old(t)@,
            crate::fs::mount::mounted(*old(disk)),
            pid,
            0,
        ).1,
{
    let ghost d0 = crate::fs::mount::mounted(*disk);
    let ghost d = d0;
    let mut i: usize = 0;
    while i < NFILES
        invariant
            i <= NFILES,
            t.wf(),
            d0 == crate::fs::mount::mounted(*old(disk)),
            crate::fs::mount::sane(*disk),
            crate::fs::mount::kept(*old(disk), *disk),
            exit_closes(t@, d, pid, i as int) == exit_closes(old(t)@, d0, pid, 0),
            crate::fs::mount::reliable(*old(disk)) ==> crate::fs::mount::mounted(*disk) == d,
        decreases NFILES - i,
    {
        assert(t@[i as int] == slot_view(t.files@[i as int]));
        let ghost t0 = t@;
        let mut slot: Option<OpenFile> = None;
        core::mem::swap(&mut slot, &mut t.files[i]);
        match slot {
            None => {
                assert(t@ =~= t0);
            },
            Some(f) => {
                assert(slot_ok(t0[i as int]));
                if f.owner == pid {
                    let ghost fv = f@;
                    write_back(f, disk);
                    proof {
                        d = flushed(fv, d);
                    }
                    assert(t@ =~= t0.update(i as int, None));
                } else {
                    t.files.set(i, Some(f));
                    assert(t@ =~= t0);
                }
            },
        }
        i = i + 1;
    }
}

// ---------------------------------------------------------------------------
// Unlinking and listing
// ---------------------------------------------------------------------------
/// A name is open somewhere.
pub open spec fn name_open(t: Seq<Option<FileV>>, name: Seq<char>) -> bool {
    exists|i: int| 0 <= i < t.len() && (#[trigger] t[i] matches Some(f) && f.name == name)
}

fn is_open(t: &Files, name: &str) -> (r: bool)
    requires
        t.wf(),
    ensures
        r == name_open(t@, name@),
{
    let mut i: usize = 0;
    while i < NFILES
        invariant
            i <= NFILES,
            t.wf(),
            forall|j: int| 0 <= j < i ==> !(#[trigger] t@[j] matches Some(f) && f.name == name@),
        decreases NFILES - i,
    {
        assert(t@[i as int] == slot_view(t.files@[i as int]));
        match &t.files[i] {
            None => {},
            Some(f) => {
                if same_text(f.name.as_str(), name) {
                    return true;
                }
            },
        }
        i = i + 1;
    }
    false
}

/// unlink(name): 0, or -1 if the name is bad, open, or cannot be deleted.
pub fn file_unlink<D: BlockDev>(
    t: &Files,
    disk: &mut Option<Fat32<D>>,
    m: &Memory,
    cr3: u64,
    _pid: u64,
    uptr: u64,
    name_len: u64,
) -> (r: i64)
    requires
        t.wf(),
        m.wf(),
        crate::fs::mount::sane(*old(disk)),
    ensures
        crate::fs::mount::kept(*old(disk), *final(disk)),
        r == 0 || r == -1,
        match (name_at(m@, cr3, uptr, name_len), crate::fs::mount::mounted(*old(disk))) {
            (Some(name), Some(v)) if !name_open(t@, name) => {
                &&& crate::fs::mount::reliable(*old(disk)) ==> ({
                    let (v1, x) = crate::fs::fat_write::delete_spec(v, root_path(name));
                    &&& crate::fs::mount::mounted(*final(disk)) == Some(v1)
                    &&& (r == 0 <==> x is Ok)
                })
                &&& r == 0 ==> (crate::fs::mount::mounted(*final(disk)) matches Some(v1) && exists|n: int|
                    0 <= n <= v.dir(v.root).len() && #[trigger] crate::fs::fat_write::delete_from(
                        v,
                        v.dir(v.root).take(n),
                        root_path(name),
                    ) == (v1, Ok::<(), crate::fs::fat32::FsErr>(())))
            },
            _ => r == -1 && crate::fs::mount::mounted(*final(disk)) == crate::fs::mount::mounted(*old(disk)),
        },
{
    let name: String = match read_name(m, cr3, uptr, name_len) {
        None => {
            return -1;
        },
        Some(s) => s,
    };
    if is_open(t, name.as_str()) {
        return -1;
    }
    match disk {
        None => -1,
        Some(fs) => {
            let path: String = path_of(name.as_str());
            match fs.delete(path.as_str()) {
                Ok(_) => 0,
                Err(_) => -1,
            }
        },
    }
}

/// A record of a listing: whether it is a directory, the length of the name,
/// the name, and the size.
pub open spec fn record(e: EntV) -> Seq<u8> {
    let name = vstd::utf8::encode_utf8(e.name);
    seq![if e.is_dir { 1u8 } else { 0u8 }, name.len() as u8] + name + crate::bytes::le4(e.size)
}

/// The records of the entries `i .. n`, after those in `got`, and how many
/// records that makes: a name that is too long is left out, and a record that
/// does not fit any more ends the listing.
pub open spec fn pack(l: Seq<EntV>, i: int, n: int, got: Seq<u8>, count: int) -> (Seq<u8>, int)
    decreases n - i,
{
    if i < 0 || i >= n {
        (got, count)
    } else if vstd::utf8::encode_utf8(l[i].name).len() > 255 {
        pack(l, i + 1, n, got, count)
    } else if got.len() + record(l[i]).len() > MAX_RW {
        (got, count)
    } else {
        pack(l, i + 1, n, got + record(l[i]), count + 1)
    }
}

/// How many entries are looked at.
pub open spec fn listed(l: nat, max: u64) -> int {
    let m = if max < MAX_LIST {
        max as int
    } else {
        MAX_LIST as int
    };
    if l < m {
        l as int
    } else {
        m
    }
}

/// The outcome of a listing, for the entries of the directory.
pub open spec fn list_with(m: MemV, cr3: u64, va: u64, max: u64, l: Seq<EntV>) -> (MemV, int) {
    let (b, count) = pack(l, 0, listed(l.len(), max), Seq::empty(), 0);
    let (m1, ok) = crate::user::uaccess::written(m, crate::mem::vmm::frame_of(cr3), va, b, 0);
    if ok {
        (m1, count)
    } else {
        (m1, -1)
    }
}

fn push_record(out: &mut Vec<u8>, e: &DirEntry, name: &[u8])
    requires
        name@ == vstd::utf8::encode_utf8(e@.name),
        name@.len() <= 255,
    ensures
        final(out)@ == old(out)@ + record(e@),
{
    let len: usize = name.len();
    out.push(if e.is_dir {
        1
    } else {
        0
    });
    out.push(len as u8);
    let ghost o1 = out@;
    let mut k: usize = 0;
    while k < len
        invariant
            k <= len,
            len == name@.len(),
            out@ == o1 + name@.take(k as int),
        decreases len - k,
    {
        out.push(name[k]);
        k = k + 1;
        assert(out@ =~= o1 + name@.take(k as int));
    }
    assert(name@.take(len as int) =~= name@);
    let s: u32 = e.size;
    out.push((s % 0x100) as u8);
    out.push((s / 0x100 % 0x100) as u8);
    out.push((s / 0x1_0000 % 0x100) as u8);
    out.push((s / 0x100_0000) as u8);
    assert(out@ =~= old(out)@ + record(e@));
}

/// Lists the entries of a directory into user memory.
pub fn list_entries(m: &mut Memory, cr3: u64, uptr: u64, max_entries: u64, l: &Vec<DirEntry>) -> (r: i64)
    requires
        old(m).wf(),
    ensures
        final(m).wf(),
        (final(m)@, r as int) == list_with(old(m)@, cr3, uptr, max_entries, crate::fs::dir::entries(l@)),
{
    let ghost es = crate::fs::dir::entries(l@);
    let max: usize = if max_entries < MAX_LIST as u64 {
        max_entries as usize
    } else {
        MAX_LIST
    };
    let n: usize = if l.len() < max {
        l.len()
    } else {
        max
    };
    let mut packed: Vec<u8> = Vec::new();
    let mut count: usize = 0;
    let mut i: usize = 0;
    let mut full: bool = false;
    while i < n && !full
        invariant
            i <= n <= l@.len(),
            n <= MAX_LIST,
            count <= i,
            es == crate::fs::dir::entries(l@),
            packed@.len() <= MAX_RW,
            !full ==> pack(es, i as int, n as int, packed@, count as int) == pack(es, 0, n as int, Seq::empty(), 0),
            full ==> (packed@, count as int) == pack(es, 0, n as int, Seq::empty(), 0),
        decreases n - i,
    {
        assert(es[i as int] == l@[i as int]@);
        let name: &[u8] = l[i].name.as_str().as_bytes();
        assert(name@ == vstd::utf8::encode_utf8(es[i as int].name));
        let len: usize = name.len();
        if len <= 255 {
            assert(record(es[i as int]).len() == len + 6);
            if packed.len() + (len + 6) > MAX_RW {
                full = true;
            } else {
                push_record(&mut packed, &l[i], name);
                count = count + 1;
            }
        }
        i = i + 1;
    }
    let space = AddressSpace::from_pml4(cr3);
    match write_user_bytes(m, &space, uptr, packed.as_slice()) {
        Ok(_) => count as i64,
        Err(_) => -1,
    }
}

/// list(buf, max): lists the root of the disk; the number of records, or -1.
pub fn file_list<D: BlockDev>(
    disk: &mut Option<Fat32<D>>,
    m: &mut Memory,
    cr3: u64,
    _pid: u64,
    uptr: u64,
    max_entries: u64,
) -> (r: i64)
    requires
        old(m).wf(),
        crate::fs::mount::sane(*old(disk)),
    ensures
        final(m).wf(),
        crate::fs::mount::kept(*old(disk), *final(disk)),
        crate::fs::mount::mounted(*final(disk)) == crate::fs::mount::mounted(*old(disk)),
        max_entries == 0 ==> r == 0 && final(m)@ == old(m)@,
        max_entries != 0 ==> match crate::fs::mount::mounted(*old(disk)) {
            None => r == -1 && final(m)@ == old(m)@,
            Some(v) => exists|l: Result<Seq<EntV>, crate::fs::fat32::FsErr>| #[trigger]
                listing_outcome(old(m)@, cr3, uptr, max_entries, l) == (final(m)@, r as int) && (l matches Ok(e)
                    ==> crate::fs::fat32::ls_spec(v, "/"@) matches Ok(x) && e.is_prefix_of(x)) && (
                crate::fs::mount::reliable(*old(disk)) ==> l == crate::fs::fat32::ls_spec(v, "/"@)),
        },
{
    if max_entries == 0 {
        return 0;
    }
    let got = match disk {
        None => {
            return -1;
        },
        Some(fs) => fs.ls("/"),
    };
    let ghost g = got;
    match got {
        Err(_) => {
            let ghost l: Result<Seq<EntV>, crate::fs::fat32::FsErr> = if crate::fs::mount::reliable(*old(disk)) {
                crate::fs::fat32::ls_spec(crate::fs::mount::mounted(*old(disk))->Some_0, "/"@)
            } else {
                Err(crate::fs::fat32::FsErr::Dev)
            };
            assert(listing_outcome(old(m)@, cr3, uptr, max_entries, l) == (m@, -1int));
            -1
        },
        Ok(l) => {
            let r: i64 = list_entries(m, cr3, uptr, max_entries, &l);
            let ghost x: Result<Seq<EntV>, crate::fs::fat32::FsErr> = Ok(crate::fs::dir::entries(l@));
            assert(listing_outcome(old(m)@, cr3, uptr, max_entries, x) == (m@, r as int));
            r
        },
    }
}

/// The outcome of a listing, for what the disk gave.
pub open spec fn listing_outcome(
    m: MemV,
    cr3: u64,
    va: u64,
    max: u64,
    l: Result<Seq<EntV>, crate::fs::fat32::FsErr>,
) -> (MemV, int) {
    match l {
        Err(_) => (m, -1),
        Ok(es) => list_with(m, cr3, va, max, es),
    }
}

/// How many of the first `n` slots are open.
pub open spec fn open_in(t: Seq<Option<FileV>>, n: int) -> nat
    decreases n,
{
    if n <= 0 {
        0
    } else {
        open_in(t, n - 1) + if t[n - 1] is Some {
            1nat
        } else {
            0nat
        }
    }
}

/// How many files are open.
pub fn open_count(t: &Files) -> (n: usize)
    requires
        t.wf(),
    ensures
        n == open_in(t@, NFILES as int),
{
    let mut n: usize = 0;
    let mut i: usize = 0;
    while i < NFILES
        invariant
            i <= NFILES,
            t.wf(),
            n <= i,
            n == open_in(t@, i as int),
        decreases NFILES - i,
    {
        assert(t@[i as int] == slot_view(t.files@[i as int]));
        if t.files[i].is_some() {
            n = n + 1;
        }
        i = i + 1;
    }
    n
}

// ---------------------------------------------------------------------------
// Laws
// ---------------------------------------------------------------------------
/// What a program writes at a place it reads back from that place.
pub proof fn law_written_bytes_read_back(f: FileV, d: Seq<u8>)
    requires
        f.wf(),
        written_file(f, d) is Some,
    ensures
        ahead(moved(written_file(f, d)->Some_0, f.pos), d.len() as int) == d,
{
    let g = written_file(f, d)->Some_0;
    assert(ahead(moved(g, f.pos), d.len() as int) =~= d);
}

/// A write changes no byte of the file outside the place that it is for, and
/// bytes between the old end and the place are zero.
pub proof fn law_write_keeps_other_bytes(f: FileV, d: Seq<u8>, i: int)
    requires
        f.wf(),
        written_file(f, d) is Some,
        0 <= i < written_file(f, d)->Some_0.buf.len(),
        i < f.pos || i >= f.pos + d.len(),
    ensures
        written_file(f, d)->Some_0.buf[i] == if i < f.buf.len() {
            f.buf[i]
        } else {
            0
        },
{
}

/// A process that ended leaves no file open.
pub proof fn law_exit_closes_all(t: Seq<Option<FileV>>, disk: Option<FatV>, pid: u64, i: int, j: int)
    requires
        t.len() == NFILES,
        0 <= i <= NFILES,
        0 <= j < NFILES,
    ensures
        exit_closes(t, disk, pid, i).0.len() == NFILES,
        j < i ==> exit_closes(t, disk, pid, i).0[j] == t[j],
        j >= i ==> exit_closes(t, disk, pid, i).0[j] == match t[j] {
            Some(f) if f.owner == pid => None,
            x => x,
        },
    decreases NFILES - i,
{
    if i < NFILES {
        match t[i] {
            Some(f) if f.owner == pid => {
                law_exit_closes_all(t.update(i, None), flushed(f, disk), pid, i + 1, j);
            },
            _ => {
                law_exit_closes_all(t, disk, pid, i + 1, j);
            },
        }
    }
}

/// Closing a file that was changed puts its bytes on the disk: reading the
/// name then gives them.
pub proof fn law_closed_file_is_on_the_disk(t: Seq<Option<FileV>>, v: FatV, pid: u64, fd: u64)
    requires
        fd < NFILES,
        file_at(t, fd) matches Some(f) && f.wf() && f.owner == pid && f.dirty,
        ({
            let f = file_at(t, fd)->Some_0;
            let path = root_path(f.name);
            &&& crate::fs::fat_laws::sound_root(v)
            &&& crate::fs::fat_laws::sound_file(v, crate::fs::fat_laws::replaced_cluster(v, path))
            &&& crate::fs::fat_write::clusters_for(v, f.buf.len()) <= crate::fs::fat32::GUARD
            &&& crate::fs::fat_write::write_file_spec(v, path, f.buf).1 is Ok
            &&& crate::fs::file_laws::shown_at(
                crate::fs::fat_write::write_file_spec(v, path, f.buf).0.dir(v.root),
                crate::fs::fat32::trim_slashes(path),
                crate::fs::fat_laws::target_slot(v, path),
            )
        }),
    ensures
        ({
            let f = file_at(t, fd)->Some_0;
            let (_, disk, r) = close_spec(t, Some(v), pid, fd);
            r == 0 && disk is Some && contents(disk->Some_0, root_path(f.name)) == Some(f.buf)
        }),
{
    let f = file_at(t, fd)->Some_0;
    crate::fs::file_laws::law_write_then_read(v, root_path(f.name), f.buf);
}

/// Opening with `O_CREATE` alone and closing at once leaves an empty file,
/// whether or not there was one: the close gives 0 and frees the descriptor,
/// so that a second one gives -1, and a close by another process gives -1 and
/// changes nothing.
pub proof fn law_create_and_close_leaves_an_empty_file(
    t: Seq<Option<FileV>>,
    v: FatV,
    pid: u64,
    other: u64,
    name: Seq<char>,
    there: bool,
    got: Option<Seq<u8>>,
)
    requires
        t.len() == NFILES,
        open_with(t, pid, name, O_CREATE, there, got).1 >= 0,
        other != pid,
        ({
            let path = root_path(name);
            &&& crate::fs::fat_laws::sound_root(v)
            &&& crate::fs::fat_laws::sound_file(v, crate::fs::fat_laws::replaced_cluster(v, path))
            &&& crate::fs::fat_write::write_file_spec(v, path, Seq::empty()).1 is Ok
            &&& crate::fs::file_laws::shown_at(
                crate::fs::fat_write::write_file_spec(v, path, Seq::empty()).0.dir(v.root),
                crate::fs::fat32::trim_slashes(path),
                crate::fs::fat_laws::target_slot(v, path),
            )
        }),
    ensures
        ({
            let (t1, fd) = open_with(t, pid, name, O_CREATE, there, got);
            let (t2, disk, r) = close_spec(t1, Some(v), pid, fd as u64);
            &&& 0 <= fd < NFILES
            &&& r == 0
            &&& disk is Some
            &&& contents(disk->Some_0, root_path(name)) == Some(Seq::<u8>::empty())
            &&& t2 == t
            &&& close_spec(t2, disk, pid, fd as u64) == (t2, disk, -1int)
            &&& close_spec(t1, Some(v), other, fd as u64) == (t1, Some(v), -1int)
        }),
{
    assert(O_CREATE & O_CREATE != 0 && O_CREATE & (O_RDWR | O_APPEND) == 0 && O_CREATE & (O_CREATE | O_RDWR
        | O_APPEND) != 0 && O_CREATE & O_APPEND == 0) by (bit_vector);
    crate::seqs::lemma_first_from(t, slot_free(), 0);
    let (t1, fd) = open_with(t, pid, name, O_CREATE, there, got);
    assert(t1.update(fd, None) =~= t);
    assert(crate::fs::fat_write::clusters_for(v, 0) == 0) by {
        vstd::arithmetic::div_mod::lemma_div_of0(v.spc * 512);
        vstd::arithmetic::div_mod::lemma_small_mod(0, (v.spc * 512) as nat);
    }
    crate::fs::file_laws::law_write_then_read(v, root_path(name), Seq::empty());
}

} // verus!
