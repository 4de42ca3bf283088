//! What is printed while the system starts.

use vstd::prelude::*;
use vstd::string::StringExecFns;

use crate::console::{nothing, say, say_color, Out, OutV, GLM_CYAN, GLM_GRAY, GLM_GREEN, GLM_MAGENTA, GLM_WHITE, GLM_YELLOW};
use crate::text::{push_dec, push_hexp};

verus! {

/// The name of the system in large letters, and what it is.
pub open spec fn banner_lines() -> Seq<OutV> {
    seq![
        crate::console::colored("  ____   _       __  __       ___    ____   \n"@, GLM_CYAN),
        crate::console::colored(" / ___| | |     |  \\/  |     / _ \\  / ___|  \n"@, GLM_CYAN),
        crate::console::colored("| |  _  | |     | |\\/| |    | | | | \\___ \\  \n"@, GLM_MAGENTA),
        crate::console::colored("| |_| | | |___  | |  | |    | |_| |  ___) | \n"@, GLM_CYAN),
        crate::console::colored(" \\____| |_____| |_|  |_|     \\___/  |____/  \n"@, GLM_CYAN),
        crate::console::colored("   the operating system designed, written and tested by GLM\n"@, GLM_MAGENTA),
        crate::console::colored("   v0.1.0  x86_64 long mode  written in Rust  boots via Limine\n\n"@, GLM_GRAY),
    ]
}

pub fn banner() -> (v: Vec<Out>)
    ensures
        crate::console::outs(v@) == banner_lines(),
{
    let mut v = nothing();
    say_color(&mut v, "  ____   _       __  __       ___    ____   \n".to_owned(), GLM_CYAN);
    say_color(&mut v, " / ___| | |     |  \\/  |     / _ \\  / ___|  \n".to_owned(), GLM_CYAN);
    say_color(&mut v, "| |  _  | |     | |\\/| |    | | | | \\___ \\  \n".to_owned(), GLM_MAGENTA);
    say_color(&mut v, "| |_| | | |___  | |  | |    | |_| |  ___) | \n".to_owned(), GLM_CYAN);
    say_color(&mut v, " \\____| |_____| |_|  |_|     \\___/  |____/  \n".to_owned(), GLM_CYAN);
    say_color(&mut v, "   the operating system designed, written and tested by GLM\n".to_owned(), GLM_MAGENTA);
    say_color(&mut v, "   v0.1.0  x86_64 long mode  written in Rust  boots via Limine\n\n".to_owned(), GLM_GRAY);
    assert(crate::console::outs(v@) =~= banner_lines());
    v
}

/// A step of the start, with what is known of it.
#[derive(Clone, Copy)]
pub enum Stage<'a> {
    Cpu,
    Serial,
    Console,
    Gdt,
    Idt,
    Pic,
    Pit,
    Keyboard,
    Interrupts,
    /// Width, height and bits of a pixel, if there is a screen.
    Framebuffer(Option<(usize, usize, usize)>),
    /// Name and version.
    Bootloader(&'a str, &'a str),
    /// Usable frames and regions, if there is a memory map.
    Frames(Option<(usize, usize)>),
    Heap(bool),
    /// The address of the top table, and how many of its entries are used.
    Paging(u64, usize),
    /// Files in the root, or why there is no ramdisk.
    Ramdisk(Result<usize, &'a str>),
}

pub open spec fn num(n: int) -> Seq<char> {
    crate::text::dec_text(n as nat)
}

/// Whether a step went well, and what is told of it.
pub open spec fn stage_text(g: Stage) -> (bool, Seq<char>) {
    match g {
        Stage::Cpu => (true, "cpu: long mode (x86_64) entered via Limine"@),
        Stage::Serial => (true, "serial: COM1 115200 8N1 (kernel debug log)"@),
        Stage::Console => (true, "console: 8x8 bitmap font, 2x scale, direct framebuffer writes"@),
        Stage::Gdt => (true, "gdt: null / code64 (0x08) / data64 (0x10) loaded"@),
        Stage::Idt => (true, "idt: 256 gates, exceptions + pic irqs hooked"@),
        Stage::Pic => (true, "pic: 8259 remapped to vectors 0x20-0x2f"@),
        Stage::Pit => (true, "pit: channel 0 @ 100 hz (uptime + cursor blink)"@),
        Stage::Keyboard => (true, "keyboard: ps/2 port 1, scancode set 1, irq1"@),
        Stage::Interrupts => (true, "interrupts: enabled (rflags.if = 1)"@),
        Stage::Framebuffer(Some((w, h, bpp))) => (
            true,
            "framebuffer: "@ + num(w as int) + "x"@ + num(h as int) + "x"@ + num(bpp as int) + " BGRA"@,
        ),
        Stage::Framebuffer(None) => (false, "framebuffer: unavailable, console disabled (serial only)"@),
        Stage::Bootloader(name, version) => (true, "bootloader: "@ + name@ + " "@ + version@),
        Stage::Frames(Some((total, regions))) => (
            true,
            "pmm: "@ + num(total * 4 / 1024) + " MiB usable in "@ + num(regions as int) + " regions (bitmap allocator)"@,
        ),
        Stage::Frames(None) => (false, "pmm: no memory map from bootloader"@),
        Stage::Heap(true) => (true, "heap: 64 MiB free-list allocator online (own impl)"@),
        Stage::Heap(false) => (false, "heap: init failed"@),
        Stage::Paging(pml4, mapped) => (
            true,
            "paging: cr3="@ + crate::text::hexp_text(pml4 as nat) + ", "@ + num(mapped as int) + "/512 pml4 entries mapped"@,
        ),
        Stage::Ramdisk(Ok(n)) => (true, "fat32: ramdisk mounted, "@ + num(n as int) + " files in root"@),
        Stage::Ramdisk(Err(e)) => (false, "fat32: ramdisk not mounted ("@ + e@ + ")"@),
    }
}

/// A line of the boot log.
pub open spec fn log_lines(ok: bool, text: Seq<char>) -> Seq<OutV> {
    seq![
        crate::console::plain("  [ "@),
        if ok {
            crate::console::colored(" ok "@, GLM_GREEN)
        } else {
            crate::console::colored("warn"@, GLM_YELLOW)
        },
        crate::console::plain(" ] "@),
        crate::console::plain(text),
        crate::console::plain("\n"@),
    ]
}

/// The frames can be counted in kilobytes.
pub open spec fn countable(g: Stage) -> bool {
    g matches Stage::Frames(Some((total, _))) ==> total <= 0x3FFF_FFFF
}

fn stage_string(g: &Stage) -> (r: (bool, String))
    requires
        countable(*g),
    ensures
        (r.0, r.1@) == stage_text(*g),
{
    let mut s: String = String::new();
    let mut ok: bool = true;
    match g {
        Stage::Cpu => {
            s.append("cpu: long mode (x86_64) entered via Limine");
        },
        Stage::Serial => {
            s.append("serial: COM1 115200 8N1 (kernel debug log)");
        },
        Stage::Console => {
            s.append("console: 8x8 bitmap font, 2x scale, direct framebuffer writes");
        },
        Stage::Gdt => {
            s.append("gdt: null / code64 (0x08) / data64 (0x10) loaded");
        },
        Stage::Idt => {
            s.append("idt: 256 gates, exceptions + pic irqs hooked");
        },
        Stage::Pic => {
            s.append("pic: 8259 remapped to vectors 0x20-0x2f");
        },
        Stage::Pit => {
            s.append("pit: channel 0 @ 100 hz (uptime + cursor blink)");
        },
        Stage::Keyboard => {
            s.append("keyboard: ps/2 port 1, scancode set 1, irq1");
        },
        Stage::Interrupts => {
            s.append("interrupts: enabled (rflags.if = 1)");
        },
        Stage::Framebuffer(Some((w, h, bpp))) => {
            s.append("framebuffer: ");
            push_dec(&mut s, *w as u64);
            s.append("x");
            push_dec(&mut s, *h as u64);
            s.append("x");
            push_dec(&mut s, *bpp as u64);
            s.append(" BGRA");
        },
        Stage::Framebuffer(None) => {
            ok = false;
            s.append("framebuffer: unavailable, console disabled (serial only)");
        },
        Stage::Bootloader(name, version) => {
            s.append("bootloader: ");
            s.append(name);
            s.append(" ");
            s.append(version);
        },
        Stage::Frames(Some((total, regions))) => {
            s.append("pmm: ");
            push_dec(&mut s, (*total * 4 / 1024) as u64);
            s.append(" MiB usable in ");
            push_dec(&mut s, *regions as u64);
            s.append(" regions (bitmap allocator)");
        },
        Stage::Frames(None) => {
            ok = false;
            s.append("pmm: no memory map from bootloader");
        },
        Stage::Heap(up) => {
            if *up {
                s.append("heap: 64 MiB free-list allocator online (own impl)");
            } else {
                ok = false;
                s.append("heap: init failed");
            }
        },
        Stage::Paging(pml4, mapped) => {
            s.append("paging: cr3=");
            push_hexp(&mut s, *pml4);
            s.append(", ");
            push_dec(&mut s, *mapped as u64);
            s.append("/512 pml4 entries mapped");
        },
        Stage::Ramdisk(Ok(n)) => {
            s.append("fat32: ramdisk mounted, ");
            push_dec(&mut s, *n as u64);
            s.append(" files in root");
        },
        Stage::Ramdisk(Err(e)) => {
            ok = false;
            s.append("fat32: ramdisk not mounted (");
            s.append(e);
            s.append(")");
        },
    }
    assert(s@ =~= stage_text(*g).1);
    (ok, s)
}

/// Tells of a step of the start.
pub fn log_stage(g: &Stage) -> (v: Vec<Out>)
    requires
        countable(*g),
    ensures
        crate::console::outs(v@) == log_lines(stage_text(*g).0, stage_text(*g).1),
{
    let (ok, s) = stage_string(g);
    let mut v = nothing();
    say(&mut v, "  [ ".to_owned());
    if ok {
        say_color(&mut v, " ok ".to_owned(), GLM_GREEN);
    } else {
        say_color(&mut v, "warn".to_owned(), GLM_YELLOW);
    }
    say(&mut v, " ] ".to_owned());
    say(&mut v, s);
    say(&mut v, "\n".to_owned());
    assert(crate::console::outs(v@) =~= log_lines(stage_text(*g).0, stage_text(*g).1));
    v
}

/// The system has started.
pub fn say_ready() -> (v: Vec<Out>)
    ensures
        crate::console::outs(v@) == seq![
            crate::console::colored("  GLM OS v0.1.0 ready."@, GLM_WHITE),
            crate::console::colored("\n"@, GLM_GRAY),
        ],
{
    let mut v = nothing();
    say_color(&mut v, "  GLM OS v0.1.0 ready.".to_owned(), GLM_WHITE);
    say_color(&mut v, "\n".to_owned(), GLM_GRAY);
    assert(crate::console::outs(v@) =~= seq![
        crate::console::colored("  GLM OS v0.1.0 ready."@, GLM_WHITE),
        crate::console::colored("\n"@, GLM_GRAY),
    ]);
    v
}

} // verus!
