//! Replacing the image of the running process by a program that it names.

use vstd::prelude::*;
use vstd::slice::slice_subrange;
use vstd::string::{StrSliceExecFns, StringExecFns};

use crate::bytes::get_le4;
use crate::cpu::idt::Regs;
use crate::cpu::smp::Smp;
use crate::disk::BlockDev;
use crate::fs::dir::to_upper;
use crate::fs::fat32::{trim_path, Fat32, FatV};
use crate::mem::vmm::{AddressSpace, MemV, Memory};
use crate::sched::process::exec_replace_image;
use crate::sched::{Sched, SchedV};
use crate::text::{chars_of, last_piece, latin1, push_char, text_of, utf8_text};
use crate::user::task::build_user_image;
use crate::user::task::spawn_limits::{MAX_ARG, MAX_ARGC};
use crate::user::uaccess::read_user_bytes;

verus! {

pub const SYS_EXEC: u64 = 43;

/// The longest path.
pub const MAX_PATH: usize = 64;

/// The longest argument block.
pub const MAX_BLOCK: usize = 2048;

// ---------------------------------------------------------------------------
// The argument block
// ---------------------------------------------------------------------------
/// The arguments of a block from the one at `off` on, `left` of them, each a
/// length and its bytes. `got` are those before.
pub open spec fn block_args(b: Seq<u8>, off: int, left: int, got: Seq<Seq<u8>>) -> Option<Seq<Seq<u8>>>
    decreases left,
{
    if left <= 0 {
        Some(got)
    } else if off + 4 > b.len() {
        None
    } else {
        let l = crate::bytes::rd_le4(b, off) as int;
        if l > MAX_ARG || off + 4 + l > b.len() || !vstd::utf8::valid_utf8(b.subrange(off + 4, off + 4 + l)) {
            None
        } else {
            block_args(b, off + 4 + l, left - 1, got.push(b.subrange(off + 4, off + 4 + l)))
        }
    }
}

/// The arguments of a block: their number, at least one, and then each.
pub open spec fn block_spec(b: Seq<u8>) -> Option<Seq<Seq<u8>>> {
    let argc = crate::bytes::rd_le4(b, 0) as int;
    if b.len() < 4 || argc == 0 || argc > MAX_ARGC {
        None
    } else {
        block_args(b, 4, argc, Seq::empty())
    }
}

/// Texts as bytes.
pub open spec fn text_bytes(v: Seq<String>) -> Seq<Seq<u8>> {
    v.map_values(|s: String| vstd::utf8::encode_utf8(s@))
}

fn parse_block(block: &[u8]) -> (r: Option<Vec<String>>)
    ensures
        match (r, block_spec(block@)) {
            (Some(v), Some(x)) => text_bytes(v@) == x && 1 <= v@.len() <= MAX_ARGC && forall|i: int|
                0 <= i < x.len() ==> (#[trigger] x[i]).len() <= MAX_ARG,
            (None, None) => true,
            _ => false,
        },
{
    if block.len() < 4 {
        return None;
    }
    let argc: u32 = get_le4(block, 0);
    if argc == 0 || argc > MAX_ARGC as u32 {
        return None;
    }
    let mut out: Vec<String> = Vec::new();
    let mut off: usize = 4;
    let mut left: u32 = argc;
    assert(text_bytes(out@) =~= Seq::<Seq<u8>>::empty());
    while left > 0
        invariant
            left <= argc <= MAX_ARGC,
            out@.len() == argc - left,
            4 <= off <= block@.len(),
            block@.len() <= usize::MAX,
            argc > 0,
            block_args(block@, off as int, left as int, text_bytes(out@)) == block_spec(block@),
            forall|i: int| 0 <= i < out@.len() ==> (#[trigger] text_bytes(out@)[i]).len() <= MAX_ARG,
        decreases left,
    {
        let n: usize = block.len();
        if n - off < 4 {
            return None;
        }
        let l: usize = get_le4(block, off) as usize;
        off = off + 4;
        if l > MAX_ARG || l > n - off {
            return None;
        }
        let part = slice_subrange(block, off, off + l);
        match utf8_text(part) {
            None => {
                return None;
            },
            Some(s) => {
                proof {
                    vstd::utf8::decode_utf8_encode_utf8(part@);
                }
                let ghost before = out@;
                let ghost sv = s@;
                out.push(s);
                assert(text_bytes(out@) =~= text_bytes(before).push(part@));
            },
        }
        off = off + l;
        left = left - 1;
    }
    Some(out)
}

// ---------------------------------------------------------------------------
// The image
// ---------------------------------------------------------------------------
/// The paths under which a program is looked up: a path as it is, a bare name
/// in the root and under /BIN, in upper case.
pub open spec fn candidates(path: Seq<char>) -> Seq<Seq<char>> {
    if path.contains('/') {
        seq!["/"@ + crate::fs::fat32::trim_slashes(path)]
    } else {
        seq!["/"@ + crate::fs::dir::upper_chars(path), "/BIN/"@ + crate::fs::dir::upper_chars(path)]
    }
}

/// The first of the paths from `i` on that can be read.
pub open spec fn first_file(v: FatV, tried: Seq<Seq<char>>, i: int) -> Option<Seq<u8>>
    decreases tried.len() - i,
{
    if i < 0 || i >= tried.len() {
        None
    } else {
        match crate::fs::fat32::cat_spec(v, tried[i]) {
            Ok(b) => Some(b),
            Err(_) => first_file(v, tried, i + 1),
        }
    }
}

/// The program: from the disk if it is there, else from the ramdisk.
pub open spec fn image_spec(disk: Option<FatV>, ram: Option<FatV>, path: Seq<char>) -> Option<Seq<u8>> {
    let c = candidates(path);
    match disk {
        Some(v) if first_file(v, c, 0) is Some => first_file(v, c, 0),
        _ => match ram {
            Some(v) => first_file(v, c, 0),
            None => None,
        },
    }
}

pub open spec fn strings(v: Seq<String>) -> Seq<Seq<char>> {
    v.map_values(|s: String| s@)
}

pub fn upper_text(s: &[char], prefix: &str) -> (r: String)
    ensures
        r@ == prefix@ + crate::fs::dir::upper_chars(s@),
{
    let mut r: String = prefix.to_owned();
    let n: usize = s.len();
    let mut i: usize = 0;
    assert(r@ =~= prefix@ + crate::fs::dir::upper_chars(s@.take(0)));
    while i < n
        invariant
            n == s@.len(),
            i <= n,
            r@ == prefix@ + crate::fs::dir::upper_chars(s@.take(i as int)),
        decreases n - i,
    {
        push_char(&mut r, to_upper(s[i]));
        i = i + 1;
        assert(r@ =~= prefix@ + crate::fs::dir::upper_chars(s@.take(i as int)));
    }
    assert(s@.take(n as int) =~= s@);
    r
}

fn has_slash(s: &[char]) -> (r: bool)
    ensures
        r == s@.contains('/'),
{
    let n: usize = s.len();
    let mut i: usize = 0;
    while i < n
        invariant
            n == s@.len(),
            i <= n,
            forall|j: int| 0 <= j < i ==> s@[j] != '/',
        decreases n - i,
    {
        if s[i] == '/' {
            assert(s@[i as int] == '/');
            return true;
        }
        i = i + 1;
    }
    false
}

fn paths_to_try(path: &str) -> (v: Vec<String>)
    ensures
        strings(v@) == candidates(path@),
{
    let c = chars_of(path);
    let mut v: Vec<String> = Vec::new();
    if has_slash(c.as_slice()) {
        let rest = trim_path(path);
        let mut s: String = "/".to_owned();
        s.append(text_of(rest.as_slice()).as_str());
        v.push(s);
    } else {
        v.push(upper_text(c.as_slice(), "/"));
        v.push(upper_text(c.as_slice(), "/BIN/"));
    }
    assert(strings(v@) =~= candidates(path@));
    v
}

/// `b` is what a file at one of the paths holds, or the first part of it.
pub open spec fn read_in_part(f: Option<FatV>, tried: Seq<Seq<char>>, b: Seq<u8>) -> bool {
    f matches Some(v) && exists|j: int|
        0 <= j < tried.len() && (crate::fs::fat32::cat_spec(v, #[trigger] tried[j]) matches Ok(x) && b.is_prefix_of(x))
}

fn first_readable<D: BlockDev>(fs: &mut Fat32<D>, tried: &Vec<String>) -> (r: Option<Vec<u8>>)
    requires
        old(fs).wf(),
    ensures
        final(fs).keeps(old(fs)),
        final(fs)@ == old(fs)@,
        r matches Some(v) ==> read_in_part(Some(old(fs)@), strings(tried@), v@),
        old(fs).dev.faultless() ==> match (r, first_file(old(fs)@, strings(tried@), 0)) {
            (Some(v), Some(b)) => v@ == b,
            (None, None) => true,
            _ => false,
        },
{
    let ghost v = fs@;
    let ghost want = first_file(v, strings(tried@), 0);
    let mut i: usize = 0;
    while i < tried.len()
        invariant
            i <= tried@.len(),
            fs.keeps(old(fs)),
            fs@ == v,
            v == old(fs)@,
            want == first_file(v, strings(tried@), 0),
            old(fs).dev.faultless() ==> first_file(v, strings(tried@), i as int) == want,
        decreases tried@.len() - i,
    {
        assert(strings(tried@)[i as int] == tried@[i as int]@);
        match fs.cat(tried[i].as_str()) {
            Ok(b) => {
                return Some(b);
            },
            Err(_) => {},
        }
        i = i + 1;
    }
    None
}

/// Reads a program: on the disk first, on the ramdisk second.
pub fn read_image<D: BlockDev, E: BlockDev>(disk: &mut Option<Fat32<D>>, ram: &mut Option<Fat32<E>>, path: &str) -> (r:
    Result<Vec<u8>, &'static str>)
    requires
        crate::fs::mount::sane(*old(disk)),
        crate::fs::mount::sane(*old(ram)),
    ensures
        crate::fs::mount::kept(*old(disk), *final(disk)),
        crate::fs::mount::kept(*old(ram), *final(ram)),
        crate::fs::mount::mounted(*final(disk)) == crate::fs::mount::mounted(*old(disk)),
        crate::fs::mount::mounted(*final(ram)) == crate::fs::mount::mounted(*old(ram)),
        r matches Err(e) ==> e@ == "no such file on disk or ramdisk"@,
        r matches Ok(v) ==> read_in_part(crate::fs::mount::mounted(*old(disk)), candidates(path@), v@) || read_in_part(
            crate::fs::mount::mounted(*old(ram)),
            candidates(path@),
            v@,
        ),
        crate::fs::mount::reliable(*old(disk)) && crate::fs::mount::reliable(*old(ram)) ==> match (
            r,
            image_spec(crate::fs::mount::mounted(*old(disk)), crate::fs::mount::mounted(*old(ram)), path@),
        ) {
            (Ok(v), Some(b)) => v@ == b,
            (Err(_), None) => true,
            _ => false,
        },
{
    let tried = paths_to_try(path);
    let a: Option<Vec<u8>> = match disk {
        None => None,
        Some(fs) => first_readable(fs, &tried),
    };
    match a {
        Some(b) => {
            return Ok(b);
        },
        None => {},
    }
    let b: Option<Vec<u8>> = match ram {
        None => None,
        Some(fs) => first_readable(fs, &tried),
    };
    match b {
        Some(v) => Ok(v),
        None => Err("no such file on disk or ramdisk"),
    }
}

// ---------------------------------------------------------------------------
// The call
// ---------------------------------------------------------------------------
/// A byte that a path may hold: printable, and no blank.
pub open spec fn is_graphic(b: u8) -> bool {
    0x21 <= b && b <= 0x7E
}

pub open spec fn path_text(b: Seq<u8>) -> Seq<char> {
    b.map_values(|x: u8| x as char)
}

/// The path at an address; nothing, if it cannot be read or holds a byte that
/// it may not.
pub open spec fn path_at(m: MemV, cr3: u64, va: u64, n: int) -> Option<Seq<char>> {
    let pml4 = crate::mem::vmm::frame_of(cr3);
    let path = crate::user::uaccess::user_bytes(m, pml4, va, n);
    if !crate::user::uaccess::readable(m, pml4, va, n) || !all_graphic(path) {
        None
    } else {
        Some(path_text(path))
    }
}

/// The arguments of the block at an address.
pub open spec fn args_at(m: MemV, cr3: u64, va: u64, n: int) -> Option<Seq<Seq<u8>>> {
    let pml4 = crate::mem::vmm::frame_of(cr3);
    if !crate::user::uaccess::readable(m, pml4, va, n) {
        None
    } else {
        block_spec(crate::user::uaccess::user_bytes(m, pml4, va, n))
    }
}

pub open spec fn all_graphic(b: Seq<u8>) -> bool {
    forall|i: int| 0 <= i < b.len() ==> is_graphic(#[trigger] b[i])
}

/// What a call asks for: the path and the arguments. Nothing, if a length is
/// out of bounds, or either is not to be had.
pub open spec fn request_spec(m: MemV, cr3: u64, r: Regs) -> Option<(Seq<char>, Seq<Seq<u8>>)> {
    if r.rsi == 0 || r.rsi > MAX_PATH || r.rcx == 0 || r.rcx > MAX_BLOCK {
        None
    } else {
        match (path_at(m, cr3, r.rdi, r.rsi as int), args_at(m, cr3, r.rdx, r.rcx as int)) {
            (Some(path), Some(args)) => Some((path, args)),
            _ => None,
        }
    }
}

fn graphic_text(b: &Vec<u8>) -> (r: Option<String>)
    ensures
        match r {
            Some(s) => s@ == path_text(b@) && all_graphic(b@),
            None => !all_graphic(b@),
        },
{
    let mut s: String = String::new();
    let n: usize = b.len();
    let mut i: usize = 0;
    assert(s@ =~= path_text(b@.take(0)));
    while i < n
        invariant
            n == b@.len(),
            i <= n,
            s@ == path_text(b@.take(i as int)),
            forall|j: int| 0 <= j < i ==> is_graphic(#[trigger] b@[j]),
        decreases n - i,
    {
        let x: u8 = b[i];
        if x < 0x21 || x > 0x7E {
            assert(!is_graphic(b@[i as int]));
            return None;
        }
        push_char(&mut s, latin1(x));
        i = i + 1;
        assert(s@ =~= path_text(b@.take(i as int)));
    }
    assert(b@.take(n as int) =~= b@);
    Some(s)
}

fn read_path(m: &Memory, cr3: u64, va: u64, n: usize) -> (r: Option<String>)
    requires
        m.wf(),
    ensures
        match (r, path_at(m@, cr3, va, n as int)) {
            (Some(p), Some(q)) => p@ == q,
            (None, None) => true,
            _ => false,
        },
{
    let space = AddressSpace::from_pml4(cr3);
    match read_user_bytes(m, &space, va, n) {
        Err(_) => None,
        Ok(v) => graphic_text(&v),
    }
}

fn read_args(m: &Memory, cr3: u64, va: u64, n: usize) -> (r: Option<Vec<String>>)
    requires
        m.wf(),
    ensures
        match (r, args_at(m@, cr3, va, n as int)) {
            (Some(a), Some(b)) => text_bytes(a@) == b && 1 <= a@.len() <= MAX_ARGC && forall|i: int|
                0 <= i < b.len() ==> (#[trigger] b[i]).len() <= MAX_ARG,
            (None, None) => true,
            _ => false,
        },
{
    let space = AddressSpace::from_pml4(cr3);
    match read_user_bytes(m, &space, va, n) {
        Err(_) => None,
        Ok(v) => parse_block(v.as_slice()),
    }
}

fn read_request(m: &Memory, cr3: u64, regs: &Regs) -> (r: Option<(String, Vec<String>)>)
    requires
        m.wf(),
    ensures
        match (r, request_spec(m@, cr3, *regs)) {
            (Some((p, a)), Some((q, b))) => p@ == q && text_bytes(a@) == b && 1 <= a@.len() <= MAX_ARGC && forall|i: int|
                0 <= i < b.len() ==> (#[trigger] b[i]).len() <= MAX_ARG,
            (None, None) => true,
            _ => false,
        },
{
    if regs.rsi == 0 || regs.rsi > MAX_PATH as u64 || regs.rcx == 0 || regs.rcx > MAX_BLOCK as u64 {
        return None;
    }
    match read_path(m, cr3, regs.rdi, regs.rsi as usize) {
        None => None,
        Some(path) => match read_args(m, cr3, regs.rdx, regs.rcx as usize) {
            None => None,
            Some(args) => Some((path, args)),
        },
    }
}

pub open spec fn bytes_of(b: Option<Vec<u8>>) -> Option<Seq<u8>> {
    match b {
        None => None,
        Some(v) => Some(v@),
    }
}

/// The caller's frame when the call fails.
pub open spec fn refused(r: Regs) -> Regs {
    Regs { rax: u64::MAX, ..r }
}

/// What becomes of the caller once the program was read (or not): the new
/// image is built in full before anything of the old one is touched.
pub open spec fn replace_spec(
    k: SchedV,
    m: MemV,
    me: int,
    path: Seq<char>,
    args: Seq<Seq<u8>>,
    image: Option<Seq<u8>>,
    r: Regs,
) -> (SchedV, MemV, Regs) {
    match image {
        None => (k, m, refused(r)),
        Some(b) => {
            let short = crate::text::pieces(path, '/').last();
            let (m1, built) = crate::user::task::build_spec(m, b, args);
            match built {
                Err(_) => (k, m1, refused(r)),
                Ok(img) => {
                    let (k2, m2, r2, _) = crate::sched::process::exec_spec(
                        k,
                        m1,
                        me,
                        img.space,
                        img.entry,
                        img.rsp,
                        (img.argc, img.argv),
                        short,
                        refused(r),
                    );
                    (k2, m2, r2)
                },
            }
        },
    }
}

fn refs_to(args: &Vec<String>) -> (refs: Vec<&str>)
    ensures
        crate::user::task::arg_bytes(refs@) == text_bytes(args@),
{
    let mut refs: Vec<&str> = Vec::new();
    let mut i: usize = 0;
    assert(crate::user::task::arg_bytes(refs@) =~= text_bytes(args@).take(0));
    while i < args.len()
        invariant
            i <= args@.len(),
            refs@.len() == i,
            crate::user::task::arg_bytes(refs@) == text_bytes(args@).take(i as int),
        decreases args@.len() - i,
    {
        let ghost before = refs@;
        let a = args[i].as_str();
        refs.push(a);
        assert(crate::user::task::arg_bytes(refs@) =~= crate::user::task::arg_bytes(before).push(
            vstd::utf8::encode_utf8(a@),
        ));
        assert(text_bytes(args@)[i as int] == vstd::utf8::encode_utf8(args@[i as int]@));
        i = i + 1;
        assert(text_bytes(args@).take(i as int) =~= text_bytes(args@).take(i - 1).push(text_bytes(args@)[i - 1]));
    }
    assert(text_bytes(args@).take(args@.len() as int) =~= text_bytes(args@));
    refs
}

/// Replaces the image of the running task by a program that was read.
pub fn replace_image(
    s: &mut Sched,
    m: &mut Memory,
    p: &Smp,
    cpu: usize,
    path: &str,
    args: &Vec<String>,
    image: Option<Vec<u8>>,
    regs: &mut Regs,
)
    requires
        old(s).wf(),
        old(m).wf(),
        crate::sched::runs_task(*p, cpu),
        1 <= args@.len(),
        crate::user::task::args_fit(text_bytes(args@)),
    ensures
        final(s).wf(),
        final(m).wf(),
        (final(s)@, final(m)@, *final(regs)) == replace_spec(
            old(s)@,
            old(m)@,
            crate::sched::slot_on(p.cpus@, cpu as int),
            path@,
            text_bytes(args@),
            bytes_of(image),
            *old(regs),
        ),
{
    regs.rax = 0xFFFF_FFFF_FFFF_FFFF;
    let bytes: Vec<u8> = match image {
        None => {
            return;
        },
        Some(b) => b,
    };
    let short: String = last_piece(path, '/');
    let refs = refs_to(args);
    match build_user_image(m, bytes.as_slice(), short.as_str(), refs.as_slice()) {
        Err(_) => {},
        Ok(img) => {
            let _r = exec_replace_image(
                s,
                m,
                p,
                cpu,
                img.space,
                img.entry,
                img.rsp,
                (img.argc, img.argv),
                short.as_str(),
                regs,
            );
        },
    }
}

/// The call: rdi and rsi are the path and its length, rdx and rcx the
/// argument block and its length. On failure rax is -1 and the caller goes on
/// with its image; on success the frame enters the new one.
pub fn sys_exec<D: BlockDev, E: BlockDev>(
    s: &mut Sched,
    m: &mut Memory,
    p: &Smp,
    cpu: usize,
    cr3: u64,
    disk: &mut Option<Fat32<D>>,
    ram: &mut Option<Fat32<E>>,
    regs: &mut Regs,
)
    requires
        old(s).wf(),
        old(m).wf(),
        crate::sched::runs_task(*p, cpu),
        crate::fs::mount::sane(*old(disk)),
        crate::fs::mount::sane(*old(ram)),
    ensures
        final(s).wf(),
        final(m).wf(),
        crate::fs::mount::kept(*old(disk), *final(disk)),
        crate::fs::mount::kept(*old(ram), *final(ram)),
        crate::fs::mount::mounted(*final(disk)) == crate::fs::mount::mounted(*old(disk)),
        crate::fs::mount::mounted(*final(ram)) == crate::fs::mount::mounted(*old(ram)),
        match request_spec(old(m)@, cr3, *old(regs)) {
            None => final(s)@ == old(s)@ && final(m)@ == old(m)@ && *final(regs) == refused(*old(regs)),
            Some((path, args)) => exists|image: Option<Seq<u8>>| #[trigger]
                replace_spec(
                    old(s)@,
                    old(m)@,
                    crate::sched::slot_on(p.cpus@, cpu as int),
                    path,
                    args,
                    image,
                    *old(regs),
                ) == (final(s)@, final(m)@, *final(regs)) && (crate::fs::mount::reliable(*old(disk))
                    && crate::fs::mount::reliable(*old(ram)) ==> image == image_spec(
                    crate::fs::mount::mounted(*old(disk)),
                    crate::fs::mount::mounted(*old(ram)),
                    path,
                )),
        },
{
    let (path, args) = match read_request(m, cr3, regs) {
        None => {
            regs.rax = 0xFFFF_FFFF_FFFF_FFFF;
            return;
        },
        Some(x) => x,
    };
    let image: Option<Vec<u8>> = match read_image(disk, ram, path.as_str()) {
        Err(_) => None,
        Ok(b) => Some(b),
    };
    let ghost iv = bytes_of(image);
    replace_image(s, m, p, cpu, path.as_str(), &args, image, regs);
    assert(replace_spec(
        old(s)@,
        old(m)@,
        crate::sched::slot_on(p.cpus@, cpu as int),
        path@,
        text_bytes(args@),
        iv,
        *old(regs),
    ) == (s@, m@, *regs));
}

/// A replacement that fails leaves every task as it was, and of the frame it
/// changes the result alone.
pub proof fn law_failed_exec_keeps_the_caller(
    k: SchedV,
    m: MemV,
    me: int,
    path: Seq<char>,
    args: Seq<Seq<u8>>,
    image: Option<Seq<u8>>,
    r: Regs,
)
    requires
        replace_spec(k, m, me, path, args, image, r).2.rax == u64::MAX,
    ensures
        replace_spec(k, m, me, path, args, image, r).0 == k,
        replace_spec(k, m, me, path, args, image, r).2 == refused(r),
{
}

} // verus!
