//! User tasks: a program image becomes an address space with a stack and an
//! argument block, and the address space becomes a task.

pub mod spawn_limits;

use vstd::prelude::*;
use vstd::string::StringExecFns;

use crate::console::{nothing, say, say_color, Out, OutV, GLM_CYAN, GLM_GRAY, GLM_RED};
use crate::cpu::gdt::MAX_CPUS;
use crate::cpu::smp::{Cpu, Smp};
use crate::disk::BlockDev;
use crate::fs::fat32::{Fat32, FatV};
use crate::mem::frames;
use crate::mem::vmm::{
    AddressSpace, MemV, Memory, NO_EXECUTE, PAGE, PRESENT, USER, USER_STACK_PAGES, USER_STACK_TOP, WRITABLE,
};
use crate::sched::{spawn, NewTask, Sched, SchedV, CPU_ANY};
use crate::text::push_dec;
use crate::user::elf;
use crate::user::signal::map_trampoline;
use crate::user::task::spawn_limits::{MAX_ARG, MAX_ARGC, MAX_ARGV_BYTES};
use crate::user::uaccess::write_user_bytes;

verus! {

/// The exit code of a task that the kernel stopped.
pub const KILL_EXIT_CODE: i64 = 139;

/// A program that is ready to become a task, or to replace one.
pub struct UserImage {
    pub space: AddressSpace,
    pub entry: u64,
    /// The stack at entry: argc is there, with the argument array above it.
    pub rsp: u64,
    /// Number of arguments, the program name among them.
    pub argc: u64,
    /// Where the argument array is; a zero ends it.
    pub argv: u64,
}

// ---------------------------------------------------------------------------
// The argument block
// ---------------------------------------------------------------------------
/// The arguments as bytes.
pub open spec fn arg_bytes(args: Seq<&str>) -> Seq<Seq<u8>> {
    args.map_values(|a: &str| vstd::utf8::encode_utf8(a@))
}

/// What the program gets: its name, if no argument is given.
pub open spec fn all_args(name: Seq<char>, args: Seq<Seq<u8>>) -> Seq<Seq<u8>> {
    if args.len() == 0 {
        seq![vstd::utf8::encode_utf8(name)]
    } else {
        args
    }
}

/// The bytes that the first `n` arguments take, each with its terminator.
pub open spec fn args_size(all: Seq<Seq<u8>>, n: int) -> nat
    decreases n,
{
    if n <= 0 {
        0
    } else {
        args_size(all, n - 1) + all[n - 1].len() + 1
    }
}

/// No argument of a list within the limits is too long.
pub open spec fn args_fit(all: Seq<Seq<u8>>) -> bool {
    all.len() <= MAX_ARGC && args_size(all, all.len() as int) <= MAX_ARGV_BYTES ==> forall|i: int|
        0 <= i < all.len() ==> (#[trigger] all[i]).len() <= MAX_ARG
}

/// Lays the strings `0 .. n` down from `sp`, the last one highest. `addrs`
/// are the addresses of those from `n` on.
pub open spec fn lay_strings(m: MemV, pml4: u64, all: Seq<Seq<u8>>, n: int, sp: int, addrs: Seq<u64>) -> (
    MemV,
    Option<(int, Seq<u64>)>,
)
    decreases n,
{
    if n <= 0 {
        (m, Some((sp, addrs)))
    } else {
        let at = sp - all[n - 1].len() - 1;
        let (m1, ok) = crate::user::uaccess::written(m, pml4, at as u64, all[n - 1].push(0), 0);
        if !ok {
            (m1, None)
        } else {
            lay_strings(m1, pml4, all, n - 1, at, seq![at as u64] + addrs)
        }
    }
}

/// Lays down the words from `i` on, eight bytes each, from `at` upwards.
pub open spec fn lay_words(m: MemV, pml4: u64, at: int, words: Seq<u64>, i: int) -> (MemV, bool)
    decreases words.len() - i,
{
    if i < 0 || i >= words.len() {
        (m, true)
    } else {
        let (m1, ok) = crate::user::uaccess::written(m, pml4, (at + 8 * i) as u64, crate::bytes::le8(words[i]), 0);
        if !ok {
            (m1, false)
        } else {
            lay_words(m1, pml4, at, words, i + 1)
        }
    }
}

/// The argument block below `base`: the strings, then, eight-byte aligned
/// and downwards, a zero, the addresses of the strings, and their number.
/// Gives where the number is, where the addresses are, and the number.
pub open spec fn argv_spec(m: MemV, pml4: u64, all: Seq<Seq<u8>>, base: int) -> (
    MemV,
    Result<(u64, u64, u64), Seq<char>>,
) {
    let n = all.len() as int;
    if n > MAX_ARGC {
        (m, Err("too many arguments"@))
    } else if args_size(all, n) > MAX_ARGV_BYTES {
        (m, Err("argument list too long"@))
    } else {
        let (m1, laid) = lay_strings(m, pml4, all, n, base, Seq::empty());
        match laid {
            None => (m1, Err("argv string did not land in mapped stack"@)),
            Some((sp, addrs)) => {
                let end = sp - sp % 8 - 8;
                let argv = end - 8 * n;
                let (m2, ok2) = lay_words(m1, pml4, end, seq![0u64], 0);
                let (m3, ok3) = lay_words(m2, pml4, argv, addrs, 0);
                let (m4, ok4) = lay_words(m3, pml4, argv - 8, seq![n as u64], 0);
                let lost: Result<(u64, u64, u64), Seq<char>> = Err("argv block did not land in mapped stack"@);
                if !ok2 {
                    (m2, lost)
                } else if !ok3 {
                    (m3, lost)
                } else if !ok4 {
                    (m4, lost)
                } else {
                    (m4, Ok(((argv - 8) as u64, argv as u64, n as u64)))
                }
            },
        }
    }
}

proof fn lemma_args_size(all: Seq<Seq<u8>>, a: int, b: int)
    requires
        0 <= a <= b <= all.len(),
    ensures
        args_size(all, a) <= args_size(all, b),
    decreases b,
{
    if a < b {
        lemma_args_size(all, a, b - 1);
    }
}

proof fn lemma_arg_bytes(args: Seq<&str>, i: int)
    requires
        0 <= i < args.len(),
    ensures
        arg_bytes(args)[i] == vstd::utf8::encode_utf8(args[i]@),
{
}

/// Whether the arguments are within the limit on all of them together.
fn size_fits(all: &Vec<&str>) -> (r: bool)
    ensures
        r == (args_size(arg_bytes(all@), all@.len() as int) <= MAX_ARGV_BYTES),
{
    let ghost b = arg_bytes(all@);
    let mut total: usize = 0;
    let mut i: usize = 0;
    while i < all.len()
        invariant
            i <= all@.len(),
            b == arg_bytes(all@),
            total == args_size(b, i as int),
            total <= MAX_ARGV_BYTES,
        decreases all@.len() - i,
    {
        proof {
            lemma_arg_bytes(all@, i as int);
            lemma_args_size(b, i as int + 1, all@.len() as int);
        }
        let len: usize = all[i].as_bytes().len();
        if len >= MAX_ARGV_BYTES || total + len + 1 > MAX_ARGV_BYTES {
            return false;
        }
        total = total + len + 1;
        i = i + 1;
    }
    true
}

fn put_strings(m: &mut Memory, space: &AddressSpace, all: &Vec<&str>, base: u64) -> (r: Option<(u64, Vec<u64>)>)
    requires
        old(m).wf(),
        base >= 8192,
        all@.len() <= MAX_ARGC,
        args_size(arg_bytes(all@), all@.len() as int) <= MAX_ARGV_BYTES,
        forall|i: int| 0 <= i < all@.len() ==> (#[trigger] arg_bytes(all@)[i]).len() <= MAX_ARG,
    ensures
        final(m).wf(),
        ({
            let (m1, x) = lay_strings(
                old(m)@,
                space.pml4,
                arg_bytes(all@),
                all@.len() as int,
                base as int,
                Seq::empty(),
            );
            &&& final(m)@ == m1
            &&& match (r, x) {
                (Some((sp, addrs)), Some((sq, bddrs))) => sp == sq && addrs@.reverse() == bddrs && addrs@.len()
                    == all@.len() && base - MAX_ARGV_BYTES <= sp <= base,
                (None, None) => true,
                _ => false,
            }
        }),
{
    let ghost b = arg_bytes(all@);
    let mut addrs: Vec<u64> = Vec::new();
    let mut sp: u64 = base;
    let mut n: usize = all.len();
    assert(addrs@.reverse() =~= Seq::<u64>::empty());
    while n > 0
        invariant
            n <= all@.len(),
            m.wf(),
            base >= 8192,
            all@.len() <= MAX_ARGC,
            b == arg_bytes(all@),
            addrs@.len() == all@.len() - n,
            args_size(b, all@.len() as int) <= MAX_ARGV_BYTES,
            base - sp == args_size(b, all@.len() as int) - args_size(b, n as int),
            lay_strings(m@, space.pml4, b, n as int, sp as int, addrs@.reverse()) == lay_strings(
                old(m)@,
                space.pml4,
                b,
                all@.len() as int,
                base as int,
                Seq::empty(),
            ),
        decreases n,
    {
        proof {
            lemma_arg_bytes(all@, n - 1);
            lemma_args_size(b, 0, n - 1);
        }
        let mut buf: Vec<u8> = vstd::slice::slice_to_vec(all[n - 1].as_bytes());
        let len: u64 = buf.len() as u64;
        buf.push(0);
        assert(args_size(b, n as int) == args_size(b, n - 1) + b[n - 1].len() + 1);
        let at: u64 = sp - (len + 1);
        match write_user_bytes(m, space, at, buf.as_slice()) {
            Err(_) => {
                return None;
            },
            Ok(_) => {},
        }
        let ghost before = addrs@;
        addrs.push(at);
        assert(addrs@.reverse() =~= seq![at] + before.reverse());
        sp = at;
        n = n - 1;
    }
    Some((sp, addrs))
}

fn put_u64(m: &mut Memory, space: &AddressSpace, at: u64, v: u64) -> (ok: bool)
    requires
        old(m).wf(),
    ensures
        final(m).wf(),
        (final(m)@, ok) == crate::user::uaccess::written(old(m)@, space.pml4, at, crate::bytes::le8(v), 0),
        (final(m)@, ok) == lay_words(old(m)@, space.pml4, at as int, seq![v], 0),
{
    let mut b: Vec<u8> = Vec::new();
    crate::bytes::push_le8(&mut b, v);
    assert(b@ =~= crate::bytes::le8(v));
    reveal_with_fuel(lay_words, 2);
    match write_user_bytes(m, space, at, b.as_slice()) {
        Err(_) => false,
        Ok(_) => true,
    }
}

/// Writes the words of `addrs`, from its last to its first, upwards.
fn put_array(m: &mut Memory, space: &AddressSpace, at: u64, addrs: &Vec<u64>) -> (ok: bool)
    requires
        old(m).wf(),
        addrs@.len() <= MAX_ARGC,
        at + 8 * addrs@.len() <= u64::MAX,
    ensures
        final(m).wf(),
        (final(m)@, ok) == lay_words(old(m)@, space.pml4, at as int, addrs@.reverse(), 0),
{
    let n: usize = addrs.len();
    let ghost w = addrs@.reverse();
    let mut i: usize = 0;
    while i < n
        invariant
            i <= n,
            n == addrs@.len(),
            n <= MAX_ARGC,
            w == addrs@.reverse(),
            at + 8 * n <= u64::MAX,
            m.wf(),
            lay_words(m@, space.pml4, at as int, w, i as int) == lay_words(old(m)@, space.pml4, at as int, w, 0),
        decreases n - i,
    {
        assert(w[i as int] == addrs@[n - 1 - i]);
        if !put_u64(m, space, at + 8 * (i as u64), addrs[n - 1 - i]) {
            return false;
        }
        i = i + 1;
    }
    true
}

fn write_argv(m: &mut Memory, space: &AddressSpace, name: &str, args: &[&str], base: u64) -> (r: Result<
    (u64, u64, u64),
    &'static str,
>)
    requires
        old(m).wf(),
        base >= 8192,
        args_fit(all_args(name@, arg_bytes(args@))),
    ensures
        final(m).wf(),
        final(m)@ == argv_spec(old(m)@, space.pml4, all_args(name@, arg_bytes(args@)), base as int).0,
        crate::text::told(r, argv_spec(old(m)@, space.pml4, all_args(name@, arg_bytes(args@)), base as int).1),
{
    let mut all: Vec<&str> = Vec::new();
    if args.len() == 0 {
        all.push(name);
        assert(arg_bytes(all@) =~= all_args(name@, arg_bytes(args@)));
    } else if args.len() > MAX_ARGC {
        return Err("too many arguments");
    } else {
        let mut i: usize = 0;
        while i < args.len()
            invariant
                i <= args@.len(),
                args@.len() <= MAX_ARGC,
                all@ == args@.take(i as int),
            decreases args@.len() - i,
        {
            all.push(args[i]);
            i = i + 1;
            assert(all@ =~= args@.take(i as int));
        }
        assert(all@ =~= args@);
        assert(arg_bytes(all@) == all_args(name@, arg_bytes(args@)));
    }
    if !size_fits(&all) {
        return Err("argument list too long");
    }
    let (sp, addrs) = match put_strings(m, space, &all, base) {
        None => {
            return Err("argv string did not land in mapped stack");
        },
        Some(x) => x,
    };
    let n: u64 = all.len() as u64;
    let end: u64 = sp - sp % 8 - 8;
    if !put_u64(m, space, end, 0) {
        return Err("argv block did not land in mapped stack");
    }
    let argv: u64 = end - 8 * n;
    if !put_array(m, space, argv, &addrs) {
        return Err("argv block did not land in mapped stack");
    }
    if !put_u64(m, space, argv - 8, n) {
        return Err("argv block did not land in mapped stack");
    }
    Ok((argv - 8, argv, n))
}

// ---------------------------------------------------------------------------
// Images
// ---------------------------------------------------------------------------
/// The flags of a stack page.
pub open spec fn stack_flags() -> u64 {
    PRESENT | WRITABLE | USER | NO_EXECUTE
}

/// Maps the stack pages from the `i`-th below the top on, zeroed.
pub open spec fn map_stack(m: MemV, pml4: u64, i: int) -> (MemV, Result<(), Seq<char>>)
    decreases USER_STACK_PAGES - i,
{
    if i < 0 || i >= USER_STACK_PAGES {
        (m, Ok(()))
    } else {
        let (f, got) = crate::mem::frames::alloc_spec(m.frames);
        match got {
            None => (MemV { frames: f, ..m }, Err("out of frames for user stack"@)),
            Some(frame) => {
                let (m1, r) = crate::mem::vmm::map_spec(
                    MemV { frames: f, ..m },
                    pml4,
                    (USER_STACK_TOP - (i + 1) * 4096) as u64,
                    frame,
                    stack_flags(),
                );
                match r {
                    Err(e) => (m1, Err(e)),
                    Ok(_) => map_stack(MemV { ram: crate::mem::phys::cleared(m1.ram, frame), ..m1 }, pml4, i + 1),
                }
            },
        }
    }
}

/// A program image in an address space of its own: the segments, a stack, the
/// return page for signal handlers, and the arguments one page below the top
/// of the stack.
pub open spec fn build_spec(m: MemV, image: Seq<u8>, all: Seq<Seq<u8>>) -> (MemV, Result<UserImage, Seq<char>>) {
    let (m1, root) = crate::mem::vmm::new_root_spec(m);
    match root {
        None => (m1, Err("cannot allocate a PML4"@)),
        Some(pml4) => {
            let (m2, loaded) = crate::user::elf::load_spec(m1, pml4, image);
            match loaded {
                Err(e) => (m2, Err(e)),
                Ok(l) => {
                    let (m3, r3) = map_stack(m2, pml4, 0);
                    match r3 {
                        Err(e) => (m3, Err(e)),
                        Ok(_) => {
                            let (m4, r4) = crate::user::signal::map_trampoline_spec(m3, pml4);
                            match r4 {
                                Err(e) => (m4, Err(e)),
                                Ok(_) => {
                                    let (m5, r5) = argv_spec(m4, pml4, all, USER_STACK_TOP - 4096);
                                    match r5 {
                                        Err(e) => (m5, Err(e)),
                                        Ok((rsp, argv, argc)) => (
                                            m5,
                                            Ok(
                                                UserImage {
                                                    space: AddressSpace { pml4, owns_lower_half: true },
                                                    entry: l.entry,
                                                    rsp,
                                                    argc,
                                                    argv,
                                                },
                                            ),
                                        ),
                                    }
                                },
                            }
                        },
                    }
                },
            }
        },
    }
}

fn put_stack(m: &mut Memory, space: &AddressSpace) -> (r: Result<(), &'static str>)
    requires
        old(m).wf(),
    ensures
        final(m).wf(),
        final(m)@ == map_stack(old(m)@, space.pml4, 0).0,
        crate::text::told(r, map_stack(old(m)@, space.pml4, 0).1),
{
    let mut i: u64 = 0;
    while i < USER_STACK_PAGES
        invariant
            i <= USER_STACK_PAGES,
            m.wf(),
            map_stack(m@, space.pml4, i as int) == map_stack(old(m)@, space.pml4, 0),
        decreases USER_STACK_PAGES - i,
    {
        let page: u64 = USER_STACK_TOP - (i + 1) * PAGE;
        let frame: u64 = match frames::alloc_frame(&mut m.frames) {
            None => {
                return Err("out of frames for user stack");
            },
            Some(f) => f,
        };
        match space.map(m, page, frame, PRESENT | WRITABLE | USER | NO_EXECUTE) {
            Err(e) => {
                return Err(e);
            },
            Ok(_) => {},
        }
        m.ram.clear(frame);
        i = i + 1;
    }
    Ok(())
}

/// Builds a complete image, for a new task and for one that is replaced.
pub fn build_user_image(m: &mut Memory, image: &[u8], name: &str, args: &[&str]) -> (r: Result<UserImage, &'static str>)
    requires
        old(m).wf(),
        args_fit(all_args(name@, arg_bytes(args@))),
    ensures
        final(m).wf(),
        final(m)@ == build_spec(old(m)@, image@, all_args(name@, arg_bytes(args@))).0,
        crate::text::told(r, build_spec(old(m)@, image@, all_args(name@, arg_bytes(args@))).1),
{
    let space: AddressSpace = match AddressSpace::new_user(m) {
        None => {
            return Err("cannot allocate a PML4");
        },
        Some(s) => s,
    };
    let loaded = match elf::load(m, &space, image) {
        Err(e) => {
            return Err(e);
        },
        Ok(l) => l,
    };
    match put_stack(m, &space) {
        Err(e) => {
            return Err(e);
        },
        Ok(_) => {},
    }
    match map_trampoline(m, &space) {
        Err(e) => {
            return Err(e);
        },
        Ok(_) => {},
    }
    match write_argv(m, &space, name, args, USER_STACK_TOP - PAGE) {
        Err(e) => Err(e),
        Ok((rsp, argv, argc)) => Ok(UserImage { space, entry: loaded.entry, rsp, argc, argv }),
    }
}

// ---------------------------------------------------------------------------
// Tasks
// ---------------------------------------------------------------------------
/// The task that an image becomes.
pub open spec fn image_task<'a>(img: UserImage, short: &'a str) -> NewTask<'a> {
    NewTask {
        name: short,
        entry: img.entry,
        user_rsp: Some(img.rsp),
        pml4: img.space.pml4,
        is_user: true,
        user_space: Some(img.space),
        pinned_cpu: CPU_ANY,
        entry_regs: (img.argc, img.argv),
    }
}

/// A task of its own for an image; `short` is its name.
pub open spec fn spawn_image_spec(
    k: SchedV,
    m: MemV,
    cpus: Seq<Cpu>,
    cpu: int,
    image: Seq<u8>,
    short: &str,
    args: Seq<Seq<u8>>,
) -> (SchedV, MemV, Result<u64, Seq<char>>) {
    let (m1, built) = build_spec(m, image, all_args(short@, args));
    match built {
        Err(e) => (k, m1, Err(e)),
        Ok(img) => {
            let (k2, m2, pid) = crate::sched::spawn_spec(k, m1, cpus, cpu, image_task(img, short));
            match pid {
                None => (k2, m2, Err("task table full"@)),
                Some(p) => (k2, m2, Ok(p)),
            }
        },
    }
}

/// What is printed of a new task.
pub open spec fn spawned_lines(pid: u64, name: Seq<char>, bytes: nat, args: nat) -> Seq<OutV> {
    seq![
        crate::console::colored("  [ "@, GLM_GRAY),
        crate::console::colored("run "@, GLM_CYAN),
        crate::console::colored(" ] "@, GLM_GRAY),
        crate::console::plain(
            "spawned pid "@ + crate::text::dec_text(pid as nat) + " ("@ + name + ", "@ + crate::text::dec_text(bytes)
                + " bytes, "@ + crate::text::dec_text(args) + " args) - scheduler will run it\n"@,
        ),
    ]
}

/// A name whose last component names the task.
pub open spec fn args_fit_for(name: Seq<char>, args: Seq<Seq<u8>>) -> bool {
    args_fit(all_args(crate::text::pieces(name, '/').last(), args))
}

fn say_spawned(pid: u64, name: &str, bytes: usize, args: usize) -> (v: Vec<Out>)
    ensures
        crate::console::outs(v@) == spawned_lines(pid, name@, bytes as nat, args as nat),
{
    let mut v = nothing();
    say_color(&mut v, "  [ ".to_owned(), GLM_GRAY);
    say_color(&mut v, "run ".to_owned(), GLM_CYAN);
    say_color(&mut v, " ] ".to_owned(), GLM_GRAY);
    let mut t: String = "spawned pid ".to_owned();
    push_dec(&mut t, pid);
    t.append(" (");
    t.append(name);
    t.append(", ");
    push_dec(&mut t, bytes as u64);
    t.append(" bytes, ");
    push_dec(&mut t, args as u64);
    t.append(" args) - scheduler will run it\n");
    say(&mut v, t);
    assert(crate::console::outs(v@) =~= spawned_lines(pid, name@, bytes as nat, args as nat));
    v
}

/// Spawns an image that is in memory as a user task: its pid, and what is
/// printed. Nothing is while the desktop owns the screen, unless the output
/// of the running task goes to a window.
pub fn spawn_user_elf_bytes(
    s: &mut Sched,
    m: &mut Memory,
    p: &Smp,
    cpu: usize,
    gui_active: bool,
    bytes: &[u8],
    name: &str,
    args: &[&str],
) -> (r: (Result<u64, &'static str>, Vec<Out>))
    requires
        old(s).wf(),
        old(m).wf(),
        p.wf(),
        cpu < MAX_CPUS,
        args_fit_for(name@, arg_bytes(args@)),
    ensures
        final(s).wf(),
        final(m).wf(),
        exists|short: &str|
            #![trigger short@]
            short@ == crate::text::pieces(name@, '/').last() && ({
                let (k, n, x) = spawn_image_spec(
                    old(s)@,
                    old(m)@,
                    p.cpus@,
                    cpu as int,
                    bytes@,
                    short,
                    arg_bytes(args@),
                );
                final(s)@ == k && final(m)@ == n && crate::text::told(r.0, x)
            }),
        crate::console::outs(r.1@) == match r.0 {
            Ok(pid) if !gui_active || crate::sched::current_out_spec(old(s)@, p.cpus@, cpu as int) != 0 => spawned_lines(
                pid,
                name@,
                bytes@.len(),
                args@.len(),
            ),
            _ => Seq::empty(),
        },
{
    let quiet: bool = gui_active && crate::sched::current_out_win(s, p, cpu) == 0;
    let short: String = crate::text::last_piece(name, '/');
    let sh: &str = short.as_str();
    assert(sh@ == crate::text::pieces(name@, '/').last());
    let img = match build_user_image(m, bytes, sh, args) {
        Err(e) => {
            return (Err(e), nothing());
        },
        Ok(i) => i,
    };
    let got = spawn(
        s,
        m,
        p,
        cpu,
        NewTask {
            name: sh,
            entry: img.entry,
            user_rsp: Some(img.rsp),
            pml4: img.space.pml4,
            is_user: true,
            user_space: Some(img.space),
            pinned_cpu: CPU_ANY,
            entry_regs: (img.argc, img.argv),
        },
    );
    match got {
        None => (Err("task table full"), nothing()),
        Some(pid) => {
            let v = if quiet {
                nothing()
            } else {
                say_spawned(pid, name, bytes.len(), args.len())
            };
            (Ok(pid), v)
        },
    }
}

/// A program of the ramdisk spawned: `k1` and `m1` are what is left, `x` the
/// pid or what went wrong, and `o` what is printed.
#[verifier::opaque]
pub open spec fn spawn_made(
    fat: Option<FatV>,
    k: SchedV,
    m: MemV,
    cpus: Seq<Cpu>,
    cpu: int,
    gui_active: bool,
    path: Seq<char>,
    args: Seq<Seq<u8>>,
    k1: SchedV,
    m1: MemV,
    x: Result<u64, &'static str>,
    o: Seq<OutV>,
) -> bool {
    match fat {
        None => x matches Err(e) && e@ == "ramdisk not mounted"@ && o.len() == 0 && k1 == k && m1 == m,
        Some(v) => match crate::fs::fat32::cat_spec(v, path) {
            Err(y) => x matches Err(e) && crate::fs::fat32::says(e, y) && o.len() == 0 && k1 == k && m1 == m,
            Ok(b) => exists|short: &str|
                #![trigger short@]
                short@ == crate::text::pieces(path, '/').last() && ({
                    let (k2, m2, y) = spawn_image_spec(k, m, cpus, cpu, b, short, args);
                    &&& k1 == k2
                    &&& m1 == m2
                    &&& crate::text::told(x, y)
                    &&& o == match y {
                        Ok(pid) if !gui_active || crate::sched::current_out_spec(k, cpus, cpu) != 0 => spawned_lines(
                            pid,
                            path,
                            b.len(),
                            args.len(),
                        ),
                        _ => Seq::empty(),
                    }
                }),
        },
    }
}

/// Loads a program from the ramdisk and spawns it: the pid, and what is
/// printed.
pub fn spawn_user_elf<D: BlockDev>(
    fat: &mut Option<Fat32<D>>,
    s: &mut Sched,
    m: &mut Memory,
    p: &Smp,
    cpu: usize,
    gui_active: bool,
    path: &str,
    args: &[&str],
) -> (r: (Result<u64, &'static str>, Vec<Out>))
    requires
        crate::fs::mount::sane(*old(fat)),
        old(s).wf(),
        old(m).wf(),
        p.wf(),
        cpu < MAX_CPUS,
        args_fit_for(path@, arg_bytes(args@)),
    ensures
        final(s).wf(),
        final(m).wf(),
        crate::fs::mount::kept(*old(fat), *final(fat)),
        crate::fs::mount::mounted(*final(fat)) == crate::fs::mount::mounted(*old(fat)),
        crate::fs::mount::reliable(*old(fat)) ==> spawn_made(
            crate::fs::mount::mounted(*old(fat)),
            old(s)@,
            old(m)@,
            p.cpus@,
            cpu as int,
            gui_active,
            path@,
            arg_bytes(args@),
            final(s)@,
            final(m)@,
            r.0,
            crate::console::outs(r.1@),
        ),
{
    proof {
        reveal(spawn_made);
    }
    let bytes: Vec<u8> = match elf::read_from_ramdisk(fat, path) {
        Err(e) => {
            let v = nothing();
            assert(crate::console::outs(v@).len() == v@.len());
            return (Err(e), v);
        },
        Ok(b) => b,
    };
    spawn_user_elf_bytes(s, m, p, cpu, gui_active, bytes.as_slice(), path, args)
}

/// What is printed of a task that faulted.
pub open spec fn fault_lines(kind: Seq<char>, detail: Seq<char>) -> Seq<OutV> {
    seq![
        crate::console::plain("\n"@),
        crate::console::colored("  [ "@, GLM_GRAY),
        crate::console::colored("kill"@, GLM_RED),
        crate::console::colored(" ] "@, GLM_GRAY),
        crate::console::plain("task terminated: "@ + kind + " ("@ + detail + ")\n"@),
    ]
}

/// Ends the running task because of an exception in user code: what is
/// printed, the pid, and those of the threads that ended with it.
pub fn fault_and_terminate(s: &mut Sched, m: &mut Memory, p: &mut Smp, cpu: usize, kind: &str, detail: &str) -> (r: (
    Vec<Out>,
    (u64, Vec<u64>),
))
    requires
        old(s).wf(),
        old(m).wf(),
        crate::sched::runs_task(*old(p), cpu),
    ensures
        final(s).wf(),
        final(m).wf(),
        final(p).wf(),
        final(p)@ == crate::cpu::smp::asked(old(p)@, cpu as int),
        crate::console::outs(r.0@) == fault_lines(kind@, detail@),
        ({
            let me = crate::sched::slot_on(old(p)@.cpus, cpu as int);
            &&& (final(s)@, final(m)@, r.1.1@) == crate::sched::process::exit_spec(
                old(s)@,
                old(m)@,
                me,
                KILL_EXIT_CODE,
            )
            &&& r.1.0 == final(s)@.tasks[me].pid
        }),
{
    let mut v = nothing();
    say(&mut v, "\n".to_owned());
    say_color(&mut v, "  [ ".to_owned(), GLM_GRAY);
    say_color(&mut v, "kill".to_owned(), GLM_RED);
    say_color(&mut v, " ] ".to_owned(), GLM_GRAY);
    let mut t: String = "task terminated: ".to_owned();
    t.append(kind);
    t.append(" (");
    t.append(detail);
    t.append(")\n");
    say(&mut v, t);
    assert(crate::console::outs(v@) =~= fault_lines(kind@, detail@));
    let x = crate::sched::process::exit_current(s, m, p, cpu, KILL_EXIT_CODE);
    (v, x)
}

/// A system call from kernel code: its number and its arguments.
#[derive(Clone, Copy, PartialEq, Eq, Debug)]
pub struct KernelCall {
    pub number: u64,
    pub args: (u64, u64, u64),
}

/// The call that waits for a child to exit; its result is the exit code.
pub fn wait_for_child(pid: u64) -> (c: KernelCall)
    ensures
        c == (KernelCall { number: 7, args: (pid, 0, 0) }),
{
    KernelCall { number: 7, args: (pid, 0, 0) }
}

pub open spec fn exit_text(code: i64) -> Seq<char> {
    if code == 0 {
        "clean exit"@
    } else if code == KILL_EXIT_CODE {
        "killed by the kernel"@
    } else {
        "non-zero exit"@
    }
}

/// An exit code in words.
pub fn describe_exit(code: i64) -> (r: &'static str)
    ensures
        r@ == exit_text(code),
{
    if code == 0 {
        "clean exit"
    } else if code == KILL_EXIT_CODE {
        "killed by the kernel"
    } else {
        "non-zero exit"
    }
}

} // verus!
