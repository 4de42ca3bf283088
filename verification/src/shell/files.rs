//! The shell's commands on files.

use vstd::prelude::*;
use vstd::string::StringExecFns;

use crate::console::{nothing, say, say_color, Out, OutV, GLM_CYAN, GLM_GRAY, GLM_GREEN, GLM_MAGENTA, GLM_YELLOW};
use crate::disk::BlockDev;
use crate::fs::dir::{DirEntry, EntV};
use crate::fs::fat32::{Fat32, FatV, FsErr};
use crate::text::{chars_of, latin1, push_char, push_dec, push_dec_right, text_of};
use crate::words::{trim, white};

verus! {

/// The text of an error of the file system. Nothing is said of what a device
/// reports.
pub open spec fn fs_says(o: OutV, x: FsErr) -> bool {
    o.color is None && match x {
        FsErr::Dev => true,
        FsErr::Msg(m) => o.text == m,
    }
}

/// A failure: the command, why, and the end of the line.
pub open spec fn failed(lines: Seq<OutV>, who: Seq<char>, x: FsErr) -> bool {
    lines.len() == 3 && lines[0] == crate::console::colored(who, GLM_YELLOW) && fs_says(lines[1], x) && lines[2]
        == crate::console::plain("\n"@)
}

/// The lines of a failure for the reason `why`.
pub open spec fn failure(who: Seq<char>, why: Seq<char>) -> Seq<OutV> {
    seq![crate::console::colored(who, GLM_YELLOW), crate::console::plain(why), crate::console::plain("\n"@)]
}

fn say_failed(who: &str, why: &str) -> (v: Vec<Out>)
    ensures
        crate::console::outs(v@) == failure(who@, why@),
{
    let mut v = nothing();
    say_color(&mut v, who.to_owned(), GLM_YELLOW);
    say(&mut v, why.to_owned());
    say(&mut v, "\n".to_owned());
    assert(crate::console::outs(v@) =~= seq![
        crate::console::colored(who@, GLM_YELLOW),
        crate::console::plain(why@),
        crate::console::plain("\n"@),
    ]);
    v
}

pub open spec fn warning(text: Seq<char>) -> Seq<OutV> {
    seq![crate::console::colored(text, GLM_YELLOW)]
}

fn say_warning(text: &str) -> (v: Vec<Out>)
    ensures
        crate::console::outs(v@) == warning(text@),
{
    let mut v = nothing();
    say_color(&mut v, text.to_owned(), GLM_YELLOW);
    assert(crate::console::outs(v@) =~= warning(text@));
    v
}

// ---------------------------------------------------------------------------
// Listing
// ---------------------------------------------------------------------------
pub open spec fn entry_row(e: EntV) -> Seq<OutV> {
    if e.is_dir {
        seq![
            crate::console::colored("  <DIR>  "@, GLM_MAGENTA),
            crate::console::colored(e.name, GLM_MAGENTA),
            crate::console::plain("\n"@),
        ]
    } else {
        seq![
            crate::console::plain(
                "  "@ + crate::text::right_in(crate::text::dec_text(e.size as nat), 6) + "  "@,
            ),
            crate::console::colored(e.name, GLM_CYAN),
            crate::console::plain("\n"@),
        ]
    }
}

pub open spec fn entry_rows(v: Seq<EntV>, n: int) -> Seq<OutV>
    decreases n,
{
    if n <= 0 {
        Seq::empty()
    } else {
        entry_rows(v, n - 1) + entry_row(v[n - 1])
    }
}

pub open spec fn shown_path(path: Seq<char>) -> Seq<char> {
    if path.len() == 0 {
        "/"@
    } else {
        path
    }
}

pub open spec fn listing(title: Seq<char>, path: Seq<char>, v: Seq<EntV>) -> Seq<OutV> {
    seq![crate::console::plain(title + shown_path(path) + "\n"@)] + entry_rows(v, v.len() as int)
}

fn say_listing(title: &str, path: &str, l: &Vec<DirEntry>) -> (v: Vec<Out>)
    ensures
        crate::console::outs(v@) == listing(title@, path@, crate::fs::dir::entries(l@)),
{
    let mut v = nothing();
    let mut s: String = title.to_owned();
    if chars_of(path).len() == 0 {
        s.append("/");
    } else {
        s.append(path);
    }
    s.append("\n");
    assert(s@ =~= title@ + shown_path(path@) + "\n"@);
    say(&mut v, s);
    let ghost head = crate::console::outs(v@);
    let ghost all = crate::fs::dir::entries(l@);
    let mut i: usize = 0;
    assert(crate::console::outs(v@) =~= head + entry_rows(all, 0));
    while i < l.len()
        invariant
            i <= l@.len(),
            all == crate::fs::dir::entries(l@),
            crate::console::outs(v@) == head + entry_rows(all, i as int),
        decreases l@.len() - i,
    {
        assert(all[i as int] == l@[i as int]@);
        let ghost before = crate::console::outs(v@);
        if l[i].is_dir {
            say_color(&mut v, "  <DIR>  ".to_owned(), GLM_MAGENTA);
            say_color(&mut v, l[i].name.as_str().to_owned(), GLM_MAGENTA);
        } else {
            let mut t: String = "  ".to_owned();
            push_dec_right(&mut t, l[i].size as u64, 6);
            t.append("  ");
            say(&mut v, t);
            say_color(&mut v, l[i].name.as_str().to_owned(), GLM_CYAN);
        }
        say(&mut v, "\n".to_owned());
        assert(crate::console::outs(v@) =~= before + entry_row(all[i as int]));
        i = i + 1;
        assert(crate::console::outs(v@) =~= head + entry_rows(all, i as int));
    }
    assert(crate::console::outs(v@) =~= listing(title@, path@, all));
    v
}

/// What a listing prints.
pub open spec fn ls_said(lines: Seq<OutV>, f: Option<FatV>, absent: Seq<char>, who: Seq<char>, title: Seq<char>, path: Seq<char>) -> bool {
    match f {
        None => lines == warning(absent),
        Some(v) => match crate::fs::fat32::ls_spec(v, path) {
            Ok(l) => lines == listing(title, path, l),
            Err(x) => failed(lines, who, x),
        },
    }
}

/// What a listing prints on any device: the first of the entries, as far as
/// they could be read, or a failure.
pub open spec fn ls_outcome(
    lines: Seq<OutV>,
    f: Option<FatV>,
    absent: Seq<char>,
    who: Seq<char>,
    title: Seq<char>,
    path: Seq<char>,
) -> bool {
    match f {
        None => lines == warning(absent),
        Some(v) => {
            ||| exists|l: Seq<EntV>|
                lines == #[trigger] listing(title, path, l) && (crate::fs::fat32::ls_spec(v, path) matches Ok(x)
                    && l.is_prefix_of(x))
            ||| exists|why: Seq<char>| lines == #[trigger] failure(who, why)
        },
    }
}

fn list<D: BlockDev>(fat: &mut Option<Fat32<D>>, absent: &str, who: &str, title: &str, path: &str) -> (v: Vec<Out>)
    requires
        crate::fs::mount::sane(*old(fat)),
    ensures
        crate::fs::mount::kept(*old(fat), *final(fat)),
        crate::fs::mount::mounted(*final(fat)) == crate::fs::mount::mounted(*old(fat)),
        crate::fs::mount::reliable(*old(fat)) ==> ls_said(
            crate::console::outs(v@),
            crate::fs::mount::mounted(*old(fat)),
            absent@,
            who@,
            title@,
            path@,
        ),
        ls_outcome(
            crate::console::outs(v@),
            crate::fs::mount::mounted(*old(fat)),
            absent@,
            who@,
            title@,
            path@,
        ),
{
    match fat {
        None => say_warning(absent),
        Some(fs) => match fs.ls(path) {
            Ok(l) => say_listing(title, path, &l),
            Err(e) => say_failed(who, e),
        },
    }
}

/// Lists a directory of the ramdisk.
pub fn cmd_ls<D: BlockDev>(fat: &mut Option<Fat32<D>>, path: &str) -> (v: Vec<Out>)
    requires
        crate::fs::mount::sane(*old(fat)),
    ensures
        crate::fs::mount::kept(*old(fat), *final(fat)),
        crate::fs::mount::mounted(*final(fat)) == crate::fs::mount::mounted(*old(fat)),
        crate::fs::mount::reliable(*old(fat)) ==> ls_said(
            crate::console::outs(v@),
            crate::fs::mount::mounted(*old(fat)),
            "fat32: ramdisk not mounted\n"@,
            "ls: "@,
            "listing of "@,
            path@,
        ),
        ls_outcome(
            crate::console::outs(v@),
            crate::fs::mount::mounted(*old(fat)),
            "fat32: ramdisk not mounted\n"@,
            "ls: "@,
            "listing of "@,
            path@,
        ),
{
    list(fat, "fat32: ramdisk not mounted\n", "ls: ", "listing of ", path)
}

/// Lists a directory of the disk.
pub fn cmd_dls<D: BlockDev>(disk: &mut Option<Fat32<D>>, path: &str) -> (v: Vec<Out>)
    requires
        crate::fs::mount::sane(*old(disk)),
    ensures
        crate::fs::mount::kept(*old(disk), *final(disk)),
        crate::fs::mount::mounted(*final(disk)) == crate::fs::mount::mounted(*old(disk)),
        crate::fs::mount::reliable(*old(disk)) ==> ls_said(
            crate::console::outs(v@),
            crate::fs::mount::mounted(*old(disk)),
            no_disk(),
            "dls: "@,
            "listing of DISK:"@,
            path@,
        ),
        ls_outcome(
            crate::console::outs(v@),
            crate::fs::mount::mounted(*old(disk)),
            no_disk(),
            "dls: "@,
            "listing of DISK:"@,
            path@,
        ),
{
    list(
        disk,
        "disk: no persistent disk mounted (ahci probe found nothing)\n",
        "dls: ",
        "listing of DISK:",
        path,
    )
}

pub open spec fn no_disk() -> Seq<char> {
    "disk: no persistent disk mounted (ahci probe found nothing)\n"@
}

// ---------------------------------------------------------------------------
// Contents
// ---------------------------------------------------------------------------
/// A byte as it is printed: what cannot be shown is a dot.
pub open spec fn shown_char(b: u8) -> char {
    if (0x20 <= b && b <= 0x7E) || b == 10 || b == 9 || b == 13 {
        b as char
    } else {
        '.'
    }
}

pub open spec fn shown_text(b: Seq<u8>) -> Seq<char> {
    b.map_values(|x: u8| shown_char(x))
}

/// The contents in pieces of 256 bytes, from `i` on.
pub open spec fn chunks(b: Seq<u8>, i: int) -> Seq<OutV>
    decreases b.len() - i,
{
    if i < 0 || i >= b.len() {
        Seq::empty()
    } else {
        let e = crate::pixels::min(i + 256, b.len() as int);
        seq![crate::console::plain(shown_text(b.subrange(i, e)))] + chunks(b, e)
    }
}

pub open spec fn contents(b: Seq<u8>) -> Seq<OutV> {
    seq![crate::console::colored("\n"@, GLM_GRAY)] + chunks(b, 0) + seq![crate::console::plain("\n"@)]
}

fn chunk_string(b: &Vec<u8>, from: usize, to: usize) -> (s: String)
    requires
        from <= to <= b@.len(),
    ensures
        s@ == shown_text(b@.subrange(from as int, to as int)),
{
    let mut s: String = String::new();
    let mut i: usize = from;
    assert(s@ =~= shown_text(b@.subrange(from as int, from as int)));
    while i < to
        invariant
            from <= i <= to <= b@.len(),
            s@ == shown_text(b@.subrange(from as int, i as int)),
        decreases to - i,
    {
        let x: u8 = b[i];
        push_char(
            &mut s,
            if (x >= 0x20 && x <= 0x7E) || x == 10 || x == 9 || x == 13 {
                latin1(x)
            } else {
                '.'
            },
        );
        i = i + 1;
        assert(s@ =~= shown_text(b@.subrange(from as int, i as int)));
    }
    s
}

fn say_contents(b: &Vec<u8>) -> (v: Vec<Out>)
    ensures
        crate::console::outs(v@) == contents(b@),
{
    let mut v = nothing();
    say_color(&mut v, "\n".to_owned(), GLM_GRAY);
    let ghost head = crate::console::outs(v@);
    let n: usize = b.len();
    let mut i: usize = 0;
    assert(crate::console::outs(v@) + chunks(b@, 0) =~= head + chunks(b@, 0));
    while i < n
        invariant
            i <= n,
            n == b@.len(),
            crate::console::outs(v@) + chunks(b@, i as int) == head + chunks(b@, 0),
        decreases n - i,
    {
        let e: usize = if n - i > 256 {
            i + 256
        } else {
            n
        };
        let t: String = chunk_string(b, i, e);
        let ghost before = crate::console::outs(v@);
        let ghost piece = crate::console::plain(t@);
        say(&mut v, t);
        assert(crate::console::outs(v@) + chunks(b@, e as int) =~= before + (seq![piece] + chunks(b@, e as int)));
        i = e;
    }
    assert(chunks(b@, n as int) =~= Seq::empty());
    assert(crate::console::outs(v@) =~= head + chunks(b@, 0));
    say(&mut v, "\n".to_owned());
    assert(crate::console::outs(v@) =~= contents(b@));
    v
}

/// What is printed of a file.
pub open spec fn cat_said(lines: Seq<OutV>, f: Option<FatV>, absent: Seq<char>, usage: Seq<char>, who: Seq<char>, path: Seq<char>) -> bool {
    if path.len() == 0 {
        lines == warning(usage)
    } else {
        match f {
            None => lines == warning(absent),
            Some(v) => match crate::fs::fat32::cat_spec(v, path) {
                Ok(b) => lines == contents(b),
                Err(x) => failed(lines, who, x),
            },
        }
    }
}

/// What is printed of a file on any device: the first of its bytes, as far as
/// they could be read, or a failure.
pub open spec fn cat_outcome(
    lines: Seq<OutV>,
    f: Option<FatV>,
    absent: Seq<char>,
    usage: Seq<char>,
    who: Seq<char>,
    path: Seq<char>,
) -> bool {
    if path.len() == 0 {
        lines == warning(usage)
    } else {
        match f {
            None => lines == warning(absent),
            Some(v) => {
                ||| exists|b: Seq<u8>|
                    lines == #[trigger] contents(b) && (crate::fs::fat32::cat_spec(v, path) matches Ok(x)
                        && b.is_prefix_of(x))
                ||| exists|why: Seq<char>| lines == #[trigger] failure(who, why)
            },
        }
    }
}

fn print_file<D: BlockDev>(fat: &mut Option<Fat32<D>>, absent: &str, usage: &str, who: &str, path: &str) -> (v: Vec<Out>)
    requires
        crate::fs::mount::sane(*old(fat)),
    ensures
        crate::fs::mount::kept(*old(fat), *final(fat)),
        crate::fs::mount::mounted(*final(fat)) == crate::fs::mount::mounted(*old(fat)),
        crate::fs::mount::reliable(*old(fat)) ==> cat_said(
            crate::console::outs(v@),
            crate::fs::mount::mounted(*old(fat)),
            absent@,
            usage@,
            who@,
            path@,
        ),
        cat_outcome(
            crate::console::outs(v@),
            crate::fs::mount::mounted(*old(fat)),
            absent@,
            usage@,
            who@,
            path@,
        ),
{
    if chars_of(path).len() == 0 {
        return say_warning(usage);
    }
    match fat {
        None => say_warning(absent),
        Some(fs) => match fs.cat(path) {
            Ok(b) => say_contents(&b),
            Err(e) => say_failed(who, e),
        },
    }
}

/// Prints a file of the ramdisk.
pub fn cmd_cat<D: BlockDev>(fat: &mut Option<Fat32<D>>, path: &str) -> (v: Vec<Out>)
    requires
        crate::fs::mount::sane(*old(fat)),
    ensures
        crate::fs::mount::kept(*old(fat), *final(fat)),
        crate::fs::mount::mounted(*final(fat)) == crate::fs::mount::mounted(*old(fat)),
        crate::fs::mount::reliable(*old(fat)) ==> cat_said(
            crate::console::outs(v@),
            crate::fs::mount::mounted(*old(fat)),
            "fat32: ramdisk not mounted\n"@,
            "usage: cat <file>\n"@,
            "cat: "@,
            path@,
        ),
        cat_outcome(
            crate::console::outs(v@),
            crate::fs::mount::mounted(*old(fat)),
            "fat32: ramdisk not mounted\n"@,
            "usage: cat <file>\n"@,
            "cat: "@,
            path@,
        ),
{
    print_file(fat, "fat32: ramdisk not mounted\n", "usage: cat <file>\n", "cat: ", path)
}

/// Prints a file of the disk.
pub fn cmd_dcat<D: BlockDev>(disk: &mut Option<Fat32<D>>, path: &str) -> (v: Vec<Out>)
    requires
        crate::fs::mount::sane(*old(disk)),
    ensures
        crate::fs::mount::kept(*old(disk), *final(disk)),
        crate::fs::mount::mounted(*final(disk)) == crate::fs::mount::mounted(*old(disk)),
        crate::fs::mount::reliable(*old(disk)) ==> cat_said(
            crate::console::outs(v@),
            crate::fs::mount::mounted(*old(disk)),
            no_disk(),
            "usage: dcat <file>\n"@,
            "dcat: "@,
            path@,
        ),
        cat_outcome(
            crate::console::outs(v@),
            crate::fs::mount::mounted(*old(disk)),
            no_disk(),
            "usage: dcat <file>\n"@,
            "dcat: "@,
            path@,
        ),
{
    print_file(
        disk,
        "disk: no persistent disk mounted (ahci probe found nothing)\n",
        "usage: dcat <file>\n",
        "dcat: ",
        path,
    )
}

// ---------------------------------------------------------------------------
// Changes
// ---------------------------------------------------------------------------
/// What a copy is told: from where, and to where.
pub open spec fn save_args(rest: Seq<char>) -> (Seq<char>, Seq<char>) {
    let k = white_from(rest, 0);
    if k < rest.len() {
        (crate::words::trimmed(rest.take(k)), crate::words::trimmed(rest.skip(k + 1)))
    } else {
        (Seq::empty(), Seq::empty())
    }
}

/// The place of the first white space from `i` on.
pub open spec fn white_from(s: Seq<char>, i: int) -> int
    decreases s.len() - i,
{
    if i < 0 || i >= s.len() || crate::words::is_white(s[i]) {
        i
    } else {
        white_from(s, i + 1)
    }
}

fn split_save(rest: &str) -> (r: (String, String))
    ensures
        (r.0@, r.1@) == save_args(rest@),
{
    let c: Vec<char> = chars_of(rest);
    let n: usize = c.len();
    let mut k: usize = 0;
    while k < n && !white(c[k])
        invariant
            k <= n,
            n == c@.len(),
            white_from(c@, k as int) == white_from(c@, 0),
        decreases n - k,
    {
        k = k + 1;
    }
    if k < n {
        let a: &[char] = vstd::slice::slice_subrange(c.as_slice(), 0, k);
        let b: &[char] = vstd::slice::slice_subrange(c.as_slice(), k + 1, n);
        assert(a@ =~= rest@.take(k as int));
        assert(b@ =~= rest@.skip(k + 1));
        (text_of(trim(a).as_slice()), text_of(trim(b).as_slice()))
    } else {
        let (a, b) = (String::new(), String::new());
        assert(a@ =~= Seq::empty() && b@ =~= Seq::empty());
        (a, b)
    }
}

pub open spec fn saved_lines(src: Seq<char>, dst: Seq<char>, n: nat) -> Seq<OutV> {
    seq![
        crate::console::colored("  [ "@, GLM_GRAY),
        crate::console::colored("disk "@, GLM_CYAN),
        crate::console::colored(" ] "@, GLM_GRAY),
        crate::console::plain(
            "saved "@ + src + " -> DISK:/"@ + dst + " ("@ + crate::text::dec_text(n) + " bytes, persistent)\n"@,
        ),
    ]
}

/// A source that cannot be read.
pub open spec fn unread(lines: Seq<OutV>, x: FsErr, src: Seq<char>) -> bool {
    &&& lines.len() == 5
    &&& lines[0] == crate::console::colored("dsave: "@, GLM_YELLOW)
    &&& fs_says(lines[1], x)
    &&& lines[2] == crate::console::colored(": "@, GLM_YELLOW)
    &&& lines[3] == crate::console::plain(src)
    &&& lines[4] == crate::console::plain("\n"@)
}

/// A copy from the ramdisk to the disk: what is on the disk then, and what is
/// printed.
pub open spec fn save_said(ram: Option<FatV>, disk: Option<FatV>, rest: Seq<char>, after: Option<FatV>, lines: Seq<OutV>) -> bool {
    let (src, dst) = save_args(rest);
    if src.len() == 0 || dst.len() == 0 {
        after == disk && lines == warning("usage: dsave <ramdisk-src> <disk-dst>\n"@)
    } else {
        match ram {
            None => after == disk && lines == warning("dsave: ramdisk not mounted\n"@),
            Some(v) => match crate::fs::fat32::cat_spec(v, src) {
                Err(x) => after == disk && unread(lines, x, src),
                Ok(b) => match disk {
                    None => after is None && lines == warning(no_disk()),
                    Some(d) => {
                        let (e, r) = crate::fs::fat_write::write_file_spec(d, dst, b);
                        after == Some(e) && match r {
                            Ok(_) => lines == saved_lines(src, dst, b.len()),
                            Err(x) => failed(lines, "dsave: "@, x),
                        }
                    },
                },
            },
        }
    }
}

/// A copy of the bytes `b` to the disk, on any device: a copy that is said to
/// be saved is on the disk.
pub open spec fn put_outcome(disk: Option<FatV>, src: Seq<char>, dst: Seq<char>, b: Seq<u8>, after: Option<FatV>, lines: Seq<OutV>) -> bool {
    match (disk, after) {
        (None, None) => lines == warning(no_disk()),
        (Some(d), Some(e)) => {
            ||| lines == saved_lines(src, dst, b.len()) && exists|n: int|
                0 <= n <= d.dir(d.root).len() && #[trigger] crate::fs::fat_write::write_file_from(
                    d,
                    d.dir(d.root).take(n),
                    dst,
                    b,
                ) == (e, Ok::<(), FsErr>(()))
            ||| exists|why: Seq<char>| lines == #[trigger] failure("dsave: "@, why)
        },
        _ => false,
    }
}

/// The lines of a source that cannot be read for the reason `why`.
pub open spec fn unread_lines(why: Seq<char>, src: Seq<char>) -> Seq<OutV> {
    seq![
        crate::console::colored("dsave: "@, GLM_YELLOW),
        crate::console::plain(why),
        crate::console::colored(": "@, GLM_YELLOW),
        crate::console::plain(src),
        crate::console::plain("\n"@),
    ]
}

/// What a copy from the ramdisk to the disk comes to on any devices.
pub open spec fn save_outcome(ram: Option<FatV>, disk: Option<FatV>, rest: Seq<char>, after: Option<FatV>, lines: Seq<OutV>) -> bool {
    let (src, dst) = save_args(rest);
    if src.len() == 0 || dst.len() == 0 {
        after == disk && lines == warning("usage: dsave <ramdisk-src> <disk-dst>\n"@)
    } else {
        match ram {
            None => after == disk && lines == warning("dsave: ramdisk not mounted\n"@),
            Some(v) => {
                ||| after == disk && exists|why: Seq<char>| lines == #[trigger] unread_lines(why, src)
                ||| exists|b: Seq<u8>| #[trigger]
                    put_outcome(disk, src, dst, b, after, lines) && (crate::fs::fat32::cat_spec(v, src) matches Ok(x)
                        && b.is_prefix_of(x))
            },
        }
    }
}

fn say_saved(src: &str, dst: &str, n: usize) -> (v: Vec<Out>)
    ensures
        crate::console::outs(v@) == saved_lines(src@, dst@, n as nat),
{
    let mut v = nothing();
    say_color(&mut v, "  [ ".to_owned(), GLM_GRAY);
    say_color(&mut v, "disk ".to_owned(), GLM_CYAN);
    say_color(&mut v, " ] ".to_owned(), GLM_GRAY);
    let mut s: String = "saved ".to_owned();
    s.append(src);
    s.append(" -> DISK:/");
    s.append(dst);
    s.append(" (");
    push_dec(&mut s, n as u64);
    s.append(" bytes, persistent)\n");
    say(&mut v, s);
    assert(crate::console::outs(v@) =~= saved_lines(src@, dst@, n as nat));
    v
}

fn say_unread(why: &str, src: &str) -> (v: Vec<Out>)
    ensures
        crate::console::outs(v@) == unread_lines(why@, src@),
{
    let mut v = nothing();
    say_color(&mut v, "dsave: ".to_owned(), GLM_YELLOW);
    say(&mut v, why.to_owned());
    say_color(&mut v, ": ".to_owned(), GLM_YELLOW);
    say(&mut v, src.to_owned());
    say(&mut v, "\n".to_owned());
    assert(crate::console::outs(v@) =~= seq![
        crate::console::colored("dsave: "@, GLM_YELLOW),
        crate::console::plain(why@),
        crate::console::colored(": "@, GLM_YELLOW),
        crate::console::plain(src@),
        crate::console::plain("\n"@),
    ]);
    v
}

/// Copies a file from the ramdisk to the disk.
pub fn cmd_dsave<E: BlockDev, D: BlockDev>(ram: &mut Option<Fat32<E>>, disk: &mut Option<Fat32<D>>, rest: &str) -> (v: Vec<Out>)
    requires
        crate::fs::mount::sane(*old(ram)),
        crate::fs::mount::sane(*old(disk)),
    ensures
        crate::fs::mount::kept(*old(ram), *final(ram)),
        crate::fs::mount::kept(*old(disk), *final(disk)),
        crate::fs::mount::mounted(*final(ram)) == crate::fs::mount::mounted(*old(ram)),
        crate::fs::mount::reliable(*old(ram)) && crate::fs::mount::reliable(*old(disk)) ==> save_said(
            crate::fs::mount::mounted(*old(ram)),
            crate::fs::mount::mounted(*old(disk)),
            rest@,
            crate::fs::mount::mounted(*final(disk)),
            crate::console::outs(v@),
        ),
        save_outcome(
            crate::fs::mount::mounted(*old(ram)),
            crate::fs::mount::mounted(*old(disk)),
            rest@,
            crate::fs::mount::mounted(*final(disk)),
            crate::console::outs(v@),
        ),
{
    let (src, dst) = split_save(rest);
    if chars_of(src.as_str()).len() == 0 || chars_of(dst.as_str()).len() == 0 {
        return say_warning("usage: dsave <ramdisk-src> <disk-dst>\n");
    }
    let b: Vec<u8> = match ram {
        None => {
            return say_warning("dsave: ramdisk not mounted\n");
        },
        Some(fs) => match fs.cat(src.as_str()) {
            Ok(b) => b,
            Err(e) => {
                return say_unread(e, src.as_str());
            },
        },
    };
    match disk {
        None => {
            let v: Vec<Out> = say_warning("disk: no persistent disk mounted (ahci probe found nothing)\n");
            assert(put_outcome(
                crate::fs::mount::mounted(*old(disk)),
                src@,
                dst@,
                b@,
                None,
                crate::console::outs(v@),
            ));
            v
        },
        Some(fs) => match fs.write_file(dst.as_str(), b.as_slice()) {
            Ok(()) => {
                let v: Vec<Out> = say_saved(src.as_str(), dst.as_str(), b.len());
                assert(put_outcome(
                    crate::fs::mount::mounted(*old(disk)),
                    src@,
                    dst@,
                    b@,
                    Some(fs@),
                    crate::console::outs(v@),
                ));
                v
            },
            Err(e) => {
                let v: Vec<Out> = say_failed("dsave: ", e);
                assert(put_outcome(
                    crate::fs::mount::mounted(*old(disk)),
                    src@,
                    dst@,
                    b@,
                    Some(fs@),
                    crate::console::outs(v@),
                ));
                v
            },
        },
    }
}

/// A file deleted from the disk: what is on it then, and what is printed.
pub open spec fn del_said(disk: Option<FatV>, path: Seq<char>, after: Option<FatV>, lines: Seq<OutV>) -> bool {
    if path.len() == 0 {
        after == disk && lines == warning("usage: ddel <disk-file>\n"@)
    } else {
        match disk {
            None => after is None && lines == warning(no_disk()),
            Some(d) => {
                let (e, r) = crate::fs::fat_write::delete_spec(d, path);
                after == Some(e) && match r {
                    Ok(_) => lines == seq![crate::console::plain("ddel: DISK:/"@ + path + " deleted\n"@)],
                    Err(x) => failed(lines, "ddel: "@, x),
                }
            },
        }
    }
}

/// What a deletion comes to on any device: a file that is said to be deleted
/// is.
pub open spec fn del_outcome(disk: Option<FatV>, path: Seq<char>, after: Option<FatV>, lines: Seq<OutV>) -> bool {
    if path.len() == 0 {
        after == disk && lines == warning("usage: ddel <disk-file>\n"@)
    } else {
        match (disk, after) {
            (None, None) => lines == warning(no_disk()),
            (Some(d), Some(e)) => {
                ||| lines == seq![crate::console::plain("ddel: DISK:/"@ + path + " deleted\n"@)] && exists|n: int|
                    0 <= n <= d.dir(d.root).len() && #[trigger] crate::fs::fat_write::delete_from(
                        d,
                        d.dir(d.root).take(n),
                        path,
                    ) == (e, Ok::<(), FsErr>(()))
                ||| exists|why: Seq<char>| lines == #[trigger] failure("ddel: "@, why)
            },
            _ => false,
        }
    }
}

/// Deletes a file from the disk.
pub fn cmd_ddel<D: BlockDev>(disk: &mut Option<Fat32<D>>, path: &str) -> (v: Vec<Out>)
    requires
        crate::fs::mount::sane(*old(disk)),
    ensures
        crate::fs::mount::kept(*old(disk), *final(disk)),
        crate::fs::mount::reliable(*old(disk)) ==> del_said(
            crate::fs::mount::mounted(*old(disk)),
            path@,
            crate::fs::mount::mounted(*final(disk)),
            crate::console::outs(v@),
        ),
        del_outcome(
            crate::fs::mount::mounted(*old(disk)),
            path@,
            crate::fs::mount::mounted(*final(disk)),
            crate::console::outs(v@),
        ),
{
    if chars_of(path).len() == 0 {
        return say_warning("usage: ddel <disk-file>\n");
    }
    match disk {
        None => say_warning("disk: no persistent disk mounted (ahci probe found nothing)\n"),
        Some(fs) => match fs.delete(path) {
            Ok(()) => {
                let mut v = nothing();
                let mut s: String = "ddel: DISK:/".to_owned();
                s.append(path);
                s.append(" deleted\n");
                say(&mut v, s);
                assert(crate::console::outs(v@) =~= seq![
                    crate::console::plain("ddel: DISK:/"@ + path@ + " deleted\n"@),
                ]);
                v
            },
            Err(e) => say_failed("ddel: ", e),
        },
    }
}

// ---------------------------------------------------------------------------
// The disk
// ---------------------------------------------------------------------------
pub open spec fn dstat_lines(info: Seq<char>, v: FatV, fds: nat) -> Seq<OutV> {
    seq![
        crate::console::plain("\n"@),
        crate::console::colored("  device: "@, GLM_GRAY),
        crate::console::colored(info, GLM_CYAN),
        crate::console::plain("\n"@),
        crate::console::plain(
            "  fs:     fat32, "@ + crate::text::dec_text((v.disk.len() * 512 / 1_048_576) as nat) + " MiB, "@
                + crate::text::dec_text(crate::fs::fat32::root_count(v) as nat) + " files in root, "@ + if v.writable {
                "read-write"@
            } else {
                "read-only"@
            } + " writes\n"@,
        ),
        crate::console::colored("  status: "@, GLM_GRAY),
        if crate::fs::fat32::lookup_spec(v, "/"@) is Some {
            crate::console::colored("online\n"@, GLM_GREEN)
        } else {
            crate::console::colored("unreadable\n"@, GLM_YELLOW)
        },
        crate::console::plain("  fds:    "@ + crate::text::dec_text(fds) + " / 16 open slot(s) by ring-3 tasks\n"@),
    ]
}

pub open spec fn no_dstat_lines() -> Seq<OutV> {
    seq![
        crate::console::plain("\n"@),
        crate::console::colored("  disk: "@, GLM_GRAY),
        crate::console::colored("not present"@, GLM_YELLOW),
        crate::console::plain(" - OS runs from the ramdisk only\n"@),
    ]
}

fn say_disk<D: BlockDev>(fs: &mut Fat32<D>, fds: usize) -> (v: Vec<Out>)
    requires
        old(fs).wf(),
        old(fs)@.disk.len() * 512 <= usize::MAX,
    ensures
        final(fs).keeps(old(fs)),
        final(fs)@ == old(fs)@,
        old(fs).dev.faultless() ==> crate::console::outs(v@) == dstat_lines(old(fs).dev.info(), old(fs)@, fds as nat),
{
    let mut v = nothing();
    say(&mut v, "\n".to_owned());
    say_color(&mut v, "  device: ".to_owned(), GLM_GRAY);
    say_color(&mut v, fs.device_info(), GLM_CYAN);
    say(&mut v, "\n".to_owned());
    let mut s: String = "  fs:     fat32, ".to_owned();
    push_dec(&mut s, (fs.total_bytes() / 1_048_576) as u64);
    s.append(" MiB, ");
    push_dec(&mut s, fs.root_file_count() as u64);
    s.append(" files in root, ");
    if fs.is_writable() {
        s.append("read-write");
    } else {
        s.append("read-only");
    }
    s.append(" writes\n");
    say(&mut v, s);
    say_color(&mut v, "  status: ".to_owned(), GLM_GRAY);
    match fs.lookup("/") {
        Some(_) => say_color(&mut v, "online\n".to_owned(), GLM_GREEN),
        None => say_color(&mut v, "unreadable\n".to_owned(), GLM_YELLOW),
    }
    let mut t: String = "  fds:    ".to_owned();
    push_dec(&mut t, fds as u64);
    t.append(" / 16 open slot(s) by ring-3 tasks\n");
    say(&mut v, t);
    assert(old(fs).dev.faultless() ==> crate::console::outs(v@) =~= dstat_lines(
        old(fs).dev.info(),
        old(fs)@,
        fds as nat,
    ));
    v
}

/// Tells about the disk. `fds` files are open.
pub fn cmd_dstat<D: BlockDev>(disk: &mut Option<Fat32<D>>, fds: usize) -> (v: Vec<Out>)
    requires
        crate::fs::mount::sane(*old(disk)),
        *old(disk) matches Some(f) ==> f@.disk.len() * 512 <= usize::MAX,
    ensures
        crate::fs::mount::kept(*old(disk), *final(disk)),
        crate::fs::mount::mounted(*final(disk)) == crate::fs::mount::mounted(*old(disk)),
        *old(disk) is None ==> crate::console::outs(v@) == no_dstat_lines(),
        *old(disk) matches Some(f) ==> (f.dev.faultless() ==> crate::console::outs(v@) == dstat_lines(
            f.dev.info(),
            f@,
            fds as nat,
        )),
{
    match disk {
        None => {
            let mut v = nothing();
            say(&mut v, "\n".to_owned());
            say_color(&mut v, "  disk: ".to_owned(), GLM_GRAY);
            say_color(&mut v, "not present".to_owned(), GLM_YELLOW);
            say(&mut v, " - OS runs from the ramdisk only\n".to_owned());
            assert(crate::console::outs(v@) =~= no_dstat_lines());
            v
        },
        Some(fs) => say_disk(fs, fds),
    }
}

} // verus!
