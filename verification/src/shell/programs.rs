//! The shell's commands that start programs.

use vstd::prelude::*;
use vstd::string::StringExecFns;

use crate::console::{nothing, say, say_color, Out, OutV, GLM_CYAN, GLM_GRAY, GLM_YELLOW};
use crate::cpu::gdt::MAX_CPUS;
use crate::cpu::smp::Smp;
use crate::disk::BlockDev;
use crate::fs::fat32::{Fat32, FatV};
use crate::mem::vmm::Memory;
use crate::sched::Sched;
use crate::shell::system::push_signed;
use crate::text::{chars_of, push_dec, text_of};
use crate::user::exec::upper_text;
use crate::user::task::spawn_limits::{MAX_ARG, MAX_ARGC, MAX_ARGV_BYTES};
use crate::user::task::{describe_exit, spawn_user_elf, spawn_user_elf_bytes};
use crate::words::{has_char, split_words};

verus! {

/// A program to start: its path, and the arguments after it.
pub struct Program {
    pub path: String,
    pub args: Vec<String>,
}

/// The name of a program and its arguments.
pub open spec fn prog_args(rest: Seq<char>) -> (Seq<char>, Seq<Seq<char>>) {
    let w = crate::words::words(rest);
    if w.len() == 0 {
        (Seq::empty(), Seq::empty())
    } else {
        (w[0], w.skip(1))
    }
}

/// Cuts a line into the name of a program and its arguments.
pub fn split_prog_args(rest: &str) -> (r: (String, Vec<String>))
    ensures
        (r.0@, crate::user::exec::strings(r.1@)) == prog_args(rest@),
{
    let c: Vec<char> = chars_of(rest);
    let w: Vec<Vec<char>> = split_words(c.as_slice());
    let ghost all = crate::words::words(rest@);
    let mut args: Vec<String> = Vec::new();
    if w.len() == 0 {
        let name: String = String::new();
        assert(name@ =~= Seq::empty());
        assert(crate::user::exec::strings(args@) =~= Seq::empty());
        return (name, args);
    }
    assert(all[0] == w@[0]@);
    let name: String = text_of(w[0].as_slice());
    let mut i: usize = 1;
    assert(crate::user::exec::strings(args@) =~= all.subrange(1, 1));
    while i < w.len()
        invariant
            1 <= i <= w@.len(),
            all == crate::text::texts(w@),
            crate::user::exec::strings(args@) == all.subrange(1, i as int),
        decreases w@.len() - i,
    {
        assert(all[i as int] == w@[i as int]@);
        let s: String = text_of(w[i].as_slice());
        let ghost before = crate::user::exec::strings(args@);
        let ghost sv = s@;
        args.push(s);
        assert(crate::user::exec::strings(args@) =~= before.push(sv));
        i = i + 1;
        assert(crate::user::exec::strings(args@) =~= all.subrange(1, i as int));
    }
    assert(all.subrange(1, all.len() as int) =~= all.skip(1));
    (name, args)
}

// ---------------------------------------------------------------------------
// Where a program is
// ---------------------------------------------------------------------------
/// A name with a slash is a path. Any other is looked for under /BIN in upper
/// case, and, if it has no dot, there with an extension.
pub open spec fn resolved(f: Option<FatV>, path: Seq<char>) -> Seq<char> {
    let plain = "/BIN/"@ + crate::fs::dir::upper_chars(path);
    let elf = plain + ".ELF"@;
    if path.contains('/') {
        path
    } else {
        match f {
            None => path,
            Some(v) => if crate::fs::fat32::lookup_spec(v, plain) is Some {
                plain
            } else if !crate::fs::dir::upper_chars(path).contains('.') && crate::fs::fat32::lookup_spec(v, elf) is Some {
                elf
            } else {
                path
            },
        }
    }
}

/// The path of a program of the ramdisk.
pub fn resolve_prog<D: BlockDev>(fat: &mut Option<Fat32<D>>, path: &str) -> (r: String)
    requires
        crate::fs::mount::sane(*old(fat)),
    ensures
        crate::fs::mount::kept(*old(fat), *final(fat)),
        crate::fs::mount::mounted(*final(fat)) == crate::fs::mount::mounted(*old(fat)),
        crate::fs::mount::reliable(*old(fat)) ==> r@ == resolved(crate::fs::mount::mounted(*old(fat)), path@),
{
    let c: Vec<char> = chars_of(path);
    if has_char(c.as_slice(), '/') {
        return path.to_owned();
    }
    let plain: String = upper_text(c.as_slice(), "/BIN/");
    proof {
        reveal_strlit("");
    }
    let up: Vec<char> = chars_of(upper_text(c.as_slice(), "").as_str());
    assert(up@ =~= crate::fs::dir::upper_chars(path@));
    let dot: bool = has_char(up.as_slice(), '.');
    match fat {
        None => path.to_owned(),
        Some(fs) => {
            if fs.path_exists(plain.as_str()) {
                return plain;
            }
            if !dot {
                let mut elf: String = plain.as_str().to_owned();
                elf.append(".ELF");
                if fs.path_exists(elf.as_str()) {
                    return elf;
                }
            }
            path.to_owned()
        },
    }
}

/// What a program gets as its arguments: its path, and those of the line.
pub open spec fn argv_of(p: Program) -> Seq<Seq<char>> {
    seq![p.path@] + crate::user::exec::strings(p.args@)
}

pub open spec fn argv_bytes(p: Program) -> Seq<Seq<u8>> {
    argv_of(p).map_values(|s: Seq<char>| vstd::utf8::encode_utf8(s))
}

/// The arguments of a program as they are handed over.
pub fn build_argv<'a>(p: &'a Program) -> (v: Vec<&'a str>)
    ensures
        crate::user::task::arg_bytes(v@) == argv_bytes(*p),
        v@.len() == p.args@.len() + 1,
{
    let mut v: Vec<&'a str> = Vec::new();
    v.push(p.path.as_str());
    let mut i: usize = 0;
    while i < p.args.len()
        invariant
            i <= p.args@.len(),
            v@.len() == i + 1,
            v@[0]@ == p.path@,
            forall|j: int| 0 <= j < i ==> (#[trigger] v@[j + 1])@ == p.args@[j]@,
        decreases p.args@.len() - i,
    {
        v.push(p.args[i].as_str());
        i = i + 1;
    }
    assert(crate::user::task::arg_bytes(v@) =~= argv_bytes(*p)) by {
        assert forall|j: int| 0 <= j < v@.len() implies (#[trigger] v@[j])@ == argv_of(*p)[j] by {
            if j > 0 {
                assert(v@[(j - 1) + 1]@ == p.args@[j - 1]@);
            }
        }
    }
    v
}

/// No argument is too long to be handed over.
pub open spec fn program_fits(p: Program) -> bool {
    crate::user::task::args_fit_for(p.path@, argv_bytes(p))
}

/// Whether all arguments of a program can be handed over.
pub fn fits(p: &Program) -> (r: bool)
    ensures
        r == program_fits(*p),
{
    let argv = build_argv(p);
    let ghost all = argv_bytes(*p);
    let n: usize = argv.len();
    assert(crate::user::task::arg_bytes(argv@) == all);
    let mut size: usize = 0;
    let mut short: bool = true;
    let mut i: usize = 0;
    while i < n
        invariant
            i <= n,
            n == argv@.len(),
            all == crate::user::task::arg_bytes(argv@),
            all == argv_bytes(*p),
            size == crate::user::task::args_size(all, i as int),
            size <= MAX_ARGV_BYTES,
            short == (forall|j: int| 0 <= j < i ==> (#[trigger] all[j]).len() <= MAX_ARG),
        decreases n - i,
    {
        assert(all[i as int] == vstd::utf8::encode_utf8(argv@[i as int]@));
        let k: usize = argv[i].as_bytes().len();
        if k >= MAX_ARGV_BYTES || size + k + 1 > MAX_ARGV_BYTES {
            proof {
                lemma_args_size(all, i + 1, n as int);
            }
            return true;
        }
        size = size + k + 1;
        if k > MAX_ARG {
            short = false;
        }
        i = i + 1;
    }
    n > MAX_ARGC || short
}

proof fn lemma_args_size(all: Seq<Seq<u8>>, i: int, n: int)
    requires
        i <= n,
    ensures
        crate::user::task::args_size(all, i) <= crate::user::task::args_size(all, n),
    decreases n - i,
{
    if i < n {
        lemma_args_size(all, i, n - 1);
    }
}

/// The program of a line, on the ramdisk; nothing, if the line is blank.
pub fn find_program<D: BlockDev>(fat: &mut Option<Fat32<D>>, rest: &str) -> (r: Option<Program>)
    requires
        crate::fs::mount::sane(*old(fat)),
    ensures
        crate::fs::mount::kept(*old(fat), *final(fat)),
        crate::fs::mount::mounted(*final(fat)) == crate::fs::mount::mounted(*old(fat)),
        r is None <==> prog_args(rest@).0.len() == 0,
        r matches Some(p) ==> crate::user::exec::strings(p.args@) == prog_args(rest@).1,
        crate::fs::mount::reliable(*old(fat)) ==> (r matches Some(p) ==> p.path@ == resolved(
            crate::fs::mount::mounted(*old(fat)),
            prog_args(rest@).0,
        )),
{
    let (name, args) = split_prog_args(rest);
    if chars_of(name.as_str()).len() == 0 {
        return None;
    }
    let path: String = resolve_prog(fat, name.as_str());
    Some(Program { path, args })
}

// ---------------------------------------------------------------------------
// Starting
// ---------------------------------------------------------------------------
/// How a program is started.
#[derive(Clone, Copy, PartialEq, Eq, Structural, Debug)]
pub enum How {
    /// The shell waits for it.
    Run,
    /// The shell goes on.
    Spawn,
}

pub open spec fn tag(h: How) -> Seq<char> {
    match h {
        How::Run => "run "@,
        How::Spawn => "spawn "@,
    }
}

pub open spec fn usage_of(h: How) -> Seq<char> {
    match h {
        How::Run => "usage: run <elf> [args...]  (try 'ls /BIN')\n"@,
        How::Spawn => "usage: spawn <elf> [args...]  (background; try 'ps')\n"@,
    }
}

pub fn say_usage(h: How) -> (v: Vec<Out>)
    ensures
        crate::console::outs(v@) == seq![crate::console::colored(usage_of(h), GLM_YELLOW)],
{
    let mut v = nothing();
    match h {
        How::Run => say_color(&mut v, "usage: run <elf> [args...]  (try 'ls /BIN')\n".to_owned(), GLM_YELLOW),
        How::Spawn => say_color(
            &mut v,
            "usage: spawn <elf> [args...]  (background; try 'ps')\n".to_owned(),
            GLM_YELLOW,
        ),
    }
    assert(crate::console::outs(v@) =~= seq![crate::console::colored(usage_of(h), GLM_YELLOW)]);
    v
}

/// What follows the spawning: nothing yet of a program that is waited for, a
/// word on one in the background, or why there is none.
pub open spec fn started_lines(h: How, r: Result<u64, &'static str>) -> Seq<OutV> {
    match r {
        Ok(pid) => match h {
            How::Run => Seq::empty(),
            How::Spawn => seq![
                crate::console::colored("  [ "@, GLM_GRAY),
                crate::console::colored("spawn "@, GLM_CYAN),
                crate::console::colored(" ] "@, GLM_GRAY),
                crate::console::plain(
                    "pid "@ + crate::text::dec_text(pid as nat)
                        + " runs in the background - shell stays interactive\n"@,
                ),
            ],
        },
        Err(e) => seq![
            crate::console::colored("  [ "@, GLM_GRAY),
            crate::console::colored(tag(h), GLM_YELLOW),
            crate::console::colored(" ] "@, GLM_GRAY),
            crate::console::colored(e@, GLM_YELLOW),
            crate::console::plain("\n"@),
        ],
    }
}

fn say_started(v: &mut Vec<Out>, h: How, r: &Result<u64, &'static str>)
    ensures
        crate::console::outs(final(v)@) == crate::console::outs(old(v)@) + started_lines(h, *r),
{
    match r {
        Ok(pid) => match h {
            How::Run => {},
            How::Spawn => {
                say_color(v, "  [ ".to_owned(), GLM_GRAY);
                say_color(v, "spawn ".to_owned(), GLM_CYAN);
                say_color(v, " ] ".to_owned(), GLM_GRAY);
                let mut s: String = "pid ".to_owned();
                push_dec(&mut s, *pid);
                s.append(" runs in the background - shell stays interactive\n");
                say(v, s);
            },
        },
        Err(e) => {
            say_color(v, "  [ ".to_owned(), GLM_GRAY);
            match h {
                How::Run => say_color(v, "run ".to_owned(), GLM_YELLOW),
                How::Spawn => say_color(v, "spawn ".to_owned(), GLM_YELLOW),
            }
            say_color(v, " ] ".to_owned(), GLM_GRAY);
            say_color(v, (*e).to_owned(), GLM_YELLOW);
            say(v, "\n".to_owned());
        },
    }
    assert(crate::console::outs(v@) =~= crate::console::outs(old(v)@) + started_lines(h, *r));
}

/// All that is printed when a program is started; `o` is what the spawning
/// prints.
pub open spec fn said_of_start(o: Seq<OutV>, h: How, r: Result<u64, &'static str>) -> Seq<OutV> {
    seq![crate::console::plain("\n"@)] + o + started_lines(h, r)
}

/// Starts a program of the ramdisk: its pid, and what is printed.
pub fn start_program<D: BlockDev>(
    fat: &mut Option<Fat32<D>>,
    s: &mut Sched,
    m: &mut Memory,
    p: &Smp,
    cpu: usize,
    gui_active: bool,
    prog: &Program,
    h: How,
) -> (r: (Result<u64, &'static str>, Vec<Out>))
    requires
        crate::fs::mount::sane(*old(fat)),
        old(s).wf(),
        old(m).wf(),
        p.wf(),
        cpu < MAX_CPUS,
        program_fits(*prog),
    ensures
        final(s).wf(),
        final(m).wf(),
        crate::fs::mount::kept(*old(fat), *final(fat)),
        crate::fs::mount::mounted(*final(fat)) == crate::fs::mount::mounted(*old(fat)),
        crate::fs::mount::reliable(*old(fat)) ==> exists|o: Seq<OutV>|
            #![trigger o.len()]
            crate::console::outs(r.1@) == said_of_start(o, h, r.0) && crate::user::task::spawn_made(
                crate::fs::mount::mounted(*old(fat)),
                old(s)@,
                old(m)@,
                p.cpus@,
                cpu as int,
                gui_active,
                prog.path@,
                argv_bytes(*prog),
                final(s)@,
                final(m)@,
                r.0,
                o,
            ),
{
    let argv = build_argv(prog);
    let mut v = nothing();
    say(&mut v, "\n".to_owned());
    let (x, mut o) = spawn_user_elf(fat, s, m, p, cpu, gui_active, prog.path.as_str(), argv.as_slice());
    let ghost ov = crate::console::outs(o@);
    assert(ov.len() >= 0);
    let ghost a = v@;
    let ghost b = o@;
    v.append(&mut o);
    assert(crate::console::outs(v@) =~= crate::console::outs(a) + crate::console::outs(b));
    say_started(&mut v, h, &x);
    assert(crate::console::outs(v@) =~= said_of_start(ov, h, x));
    assert(crate::fs::mount::reliable(*old(fat)) ==> crate::user::task::spawn_made(
        crate::fs::mount::mounted(*old(fat)),
        old(s)@,
        old(m)@,
        p.cpus@,
        cpu as int,
        gui_active,
        prog.path@,
        argv_bytes(*prog),
        s@,
        m@,
        x,
        ov,
    ));
    (x, v)
}

/// How a program ended that was waited for.
pub open spec fn ended_lines(who: Seq<char>, pid: u64, code: i64) -> Seq<OutV> {
    seq![
        crate::console::colored("  [ "@, GLM_GRAY),
        crate::console::colored(who, GLM_CYAN),
        crate::console::colored(" ] "@, GLM_GRAY),
        crate::console::plain(
            "task "@ + crate::text::dec_text(pid as nat) + " exited with code "@ + crate::shell::system::signed_num(code)
                + " ("@ + crate::user::task::exit_text(code) + ")\n"@,
        ),
    ]
}

/// Tells how a program ended; `who` started it.
pub fn say_ended(who: &str, pid: u64, code: i64) -> (v: Vec<Out>)
    ensures
        crate::console::outs(v@) == ended_lines(who@, pid, code),
{
    let mut v = nothing();
    say_color(&mut v, "  [ ".to_owned(), GLM_GRAY);
    say_color(&mut v, who.to_owned(), GLM_CYAN);
    say_color(&mut v, " ] ".to_owned(), GLM_GRAY);
    let mut s: String = "task ".to_owned();
    push_dec(&mut s, pid);
    s.append(" exited with code ");
    push_signed(&mut s, code);
    s.append(" (");
    s.append(describe_exit(code));
    s.append(")\n");
    say(&mut v, s);
    assert(crate::console::outs(v@) =~= ended_lines(who@, pid, code));
    v
}

// ---------------------------------------------------------------------------
// Programs of the disk
// ---------------------------------------------------------------------------
/// Where a program of the disk is looked for: a path as it is, a bare name in
/// upper case in the root and under /BIN.
pub open spec fn disk_paths(path: Seq<char>) -> Seq<Seq<char>> {
    if path.contains('/') {
        seq!["/"@ + path, "/"@ + path]
    } else {
        seq!["/"@ + crate::fs::dir::upper_chars(path), "/BIN/"@ + crate::fs::dir::upper_chars(path)]
    }
}

/// The first of the paths that can be read, and what is there.
pub open spec fn on_disk(v: FatV, path: Seq<char>) -> Option<(Seq<char>, Seq<u8>)> {
    let c = disk_paths(path);
    match crate::fs::fat32::cat_spec(v, c[0]) {
        Ok(b) => Some((c[0], b)),
        Err(_) => match crate::fs::fat32::cat_spec(v, c[1]) {
            Ok(b) => Some((c[1], b)),
            Err(_) => None,
        },
    }
}

pub open spec fn missing_lines(path: Seq<char>) -> Seq<OutV> {
    seq![
        crate::console::plain("\n"@),
        crate::console::colored("drun: "@, GLM_YELLOW),
        crate::console::plain("no such file on disk (tried "@),
        crate::console::plain(disk_paths(path)[0]),
        crate::console::plain(", "@),
        crate::console::plain(disk_paths(path)[1]),
        crate::console::plain(")\n"@),
    ]
}

/// A program looked for on the disk: which, and what is printed.
pub open spec fn disk_program(f: Option<FatV>, rest: Seq<char>) -> (Option<(Seq<char>, Seq<u8>)>, Seq<OutV>) {
    let name = prog_args(rest).0;
    if name.len() == 0 {
        (
            None,
            seq![crate::console::colored("usage: drun <elf-on-disk> [args...]  (try 'dls')\n"@, GLM_YELLOW)],
        )
    } else {
        match f {
            None => (
                None,
                seq![
                    crate::console::plain("\n"@),
                    crate::console::colored(crate::shell::files::no_disk(), GLM_YELLOW),
                ],
            ),
            Some(v) => match on_disk(v, name) {
                Some(x) => (Some(x), seq![crate::console::plain("\n"@)]),
                None => (None, missing_lines(name)),
            },
        }
    }
}

fn disk_path_list(path: &str) -> (v: (String, String))
    ensures
        seq![v.0@, v.1@] == disk_paths(path@),
{
    let c: Vec<char> = chars_of(path);
    if has_char(c.as_slice(), '/') {
        let mut a: String = "/".to_owned();
        a.append(path);
        let b: String = a.as_str().to_owned();
        assert(seq![a@, b@] =~= disk_paths(path@));
        (a, b)
    } else {
        let a: String = upper_text(c.as_slice(), "/");
        let b: String = upper_text(c.as_slice(), "/BIN/");
        assert(seq![a@, b@] =~= disk_paths(path@));
        (a, b)
    }
}

fn say_missing(name: &str) -> (v: Vec<Out>)
    ensures
        crate::console::outs(v@) == missing_lines(name@),
{
    let (a, b) = disk_path_list(name);
    assert(a@ == disk_paths(name@)[0] && b@ == disk_paths(name@)[1]);
    let mut v = nothing();
    say(&mut v, "\n".to_owned());
    say_color(&mut v, "drun: ".to_owned(), GLM_YELLOW);
    say(&mut v, "no such file on disk (tried ".to_owned());
    say(&mut v, a);
    say(&mut v, ", ".to_owned());
    say(&mut v, b);
    say(&mut v, ")\n".to_owned());
    assert(crate::console::outs(v@) =~= missing_lines(name@));
    v
}

fn read_on_disk<D: BlockDev>(fs: &mut Fat32<D>, name: &str) -> (r: Option<(String, Vec<u8>)>)
    requires
        old(fs).wf(),
    ensures
        final(fs).keeps(old(fs)),
        final(fs)@ == old(fs)@,
        r matches Some((p, b)) ==> disk_paths(name@).contains(p@) && (crate::fs::fat32::cat_spec(old(fs)@, p@) matches Ok(x)
            && b@.is_prefix_of(x)),
        old(fs).dev.faultless() ==> match (r, on_disk(old(fs)@, name@)) {
            (Some((p, b)), Some((q, c))) => p@ == q && b@ == c,
            (None, None) => true,
            _ => false,
        },
{
    let (a, b) = disk_path_list(name);
    assert(a@ == disk_paths(name@)[0] && b@ == disk_paths(name@)[1]);
    match fs.cat(a.as_str()) {
        Ok(x) => Some((a, x)),
        Err(_) => match fs.cat(b.as_str()) {
            Ok(x) => Some((b, x)),
            Err(_) => None,
        },
    }
}

/// Looks for the program of a line on the disk: the program and its image, or
/// why there is none.
pub fn find_on_disk<D: BlockDev>(disk: &mut Option<Fat32<D>>, rest: &str) -> (r: (Option<(Program, Vec<u8>)>, Vec<Out>))
    requires
        crate::fs::mount::sane(*old(disk)),
    ensures
        crate::fs::mount::kept(*old(disk), *final(disk)),
        crate::fs::mount::mounted(*final(disk)) == crate::fs::mount::mounted(*old(disk)),
        r.0 matches Some((p, b)) ==> crate::user::exec::strings(p.args@) == prog_args(rest@).1,
        r.0 matches Some((p, b)) ==> disk_paths(prog_args(rest@).0).contains(p.path@) && (
        crate::fs::mount::mounted(*old(disk)) matches Some(v) && (crate::fs::fat32::cat_spec(v, p.path@) matches Ok(x)
            && b@.is_prefix_of(x))),
        crate::fs::mount::reliable(*old(disk)) ==> ({
            let (x, lines) = disk_program(crate::fs::mount::mounted(*old(disk)), rest@);
            &&& crate::console::outs(r.1@) == lines
            &&& match (r.0, x) {
                (Some((p, b)), Some((q, c))) => p.path@ == q && b@ == c,
                (None, None) => true,
                _ => false,
            }
        }),
{
    let (name, args) = split_prog_args(rest);
    let mut v = nothing();
    if chars_of(name.as_str()).len() == 0 {
        say_color(&mut v, "usage: drun <elf-on-disk> [args...]  (try 'dls')\n".to_owned(), GLM_YELLOW);
        assert(crate::console::outs(v@) =~= disk_program(crate::fs::mount::mounted(*old(disk)), rest@).1);
        return (None, v);
    }
    say(&mut v, "\n".to_owned());
    assert(crate::console::outs(v@) =~= seq![crate::console::plain("\n"@)]);
    match disk {
        None => {
            say_color(
                &mut v,
                "disk: no persistent disk mounted (ahci probe found nothing)\n".to_owned(),
                GLM_YELLOW,
            );
            assert(crate::console::outs(v@) =~= seq![
                crate::console::plain("\n"@),
                crate::console::colored(crate::shell::files::no_disk(), GLM_YELLOW),
            ]);
            (None, v)
        },
        Some(fs) => match read_on_disk(fs, name.as_str()) {
            Some((path, b)) => (Some((Program { path, args }, b)), v),
            None => (None, say_missing(name.as_str())),
        },
    }
}

/// Why a program of the disk was not started.
pub open spec fn not_started(r: Result<u64, &'static str>) -> Seq<OutV> {
    match r {
        Ok(_) => Seq::empty(),
        Err(e) => seq![
            crate::console::colored("drun: "@, GLM_YELLOW),
            crate::console::plain(e@),
            crate::console::plain("\n"@),
        ],
    }
}

/// Starts a program whose image was read from the disk: its pid, and what is
/// printed.
pub fn start_image(
    s: &mut Sched,
    m: &mut Memory,
    p: &Smp,
    cpu: usize,
    gui_active: bool,
    prog: &Program,
    image: &Vec<u8>,
) -> (r: (Result<u64, &'static str>, Vec<Out>))
    requires
        old(s).wf(),
        old(m).wf(),
        p.wf(),
        cpu < MAX_CPUS,
        program_fits(*prog),
    ensures
        final(s).wf(),
        final(m).wf(),
        exists|short: &str|
            #![trigger short@]
            short@ == crate::text::pieces(prog.path@, '/').last() && ({
                let (k, n, x) = crate::user::task::spawn_image_spec(
                    old(s)@,
                    old(m)@,
                    p.cpus@,
                    cpu as int,
                    image@,
                    short,
                    argv_bytes(*prog),
                );
                final(s)@ == k && final(m)@ == n && crate::text::told(r.0, x)
            }),
        crate::console::outs(r.1@) == match r.0 {
            Ok(pid) if !gui_active || crate::sched::current_out_spec(old(s)@, p.cpus@, cpu as int) != 0
                => crate::user::task::spawned_lines(pid, prog.path@, image@.len(), argv_of(*prog).len()),
            _ => not_started(r.0),
        },
{
    let argv = build_argv(prog);
    let (x, mut v) = spawn_user_elf_bytes(
        s,
        m,
        p,
        cpu,
        gui_active,
        image.as_slice(),
        prog.path.as_str(),
        argv.as_slice(),
    );
    match x {
        Ok(_) => {},
        Err(e) => {
            say_color(&mut v, "drun: ".to_owned(), GLM_YELLOW);
            say(&mut v, e.to_owned());
            say(&mut v, "\n".to_owned());
            assert(crate::console::outs(v@) =~= not_started(x));
        },
    }
    (x, v)
}

} // verus!
