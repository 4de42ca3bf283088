//! What the shell tells about itself and the system.

use vstd::prelude::*;
use vstd::string::StringExecFns;

use crate::console::{nothing, say, say_color, Out, OutV, GLM_CYAN, GLM_GRAY, GLM_MAGENTA, GLM_WHITE, GLM_YELLOW};
use crate::text::push_dec;

verus! {

pub const HELP_COUNT: usize = 34;

/// The commands and what they do.
pub open spec fn help_row(i: int) -> (Seq<char>, Seq<char>) {
    if i == 0 {
        ("help"@, "show this help"@)
    } else if i == 1 {
        ("clear"@, "clear the screen"@)
    } else if i == 2 {
        ("echo <text>"@, "print text back"@)
    } else if i == 3 {
        ("uptime"@, "time since boot (PIT @ 100 Hz)"@)
    } else if i == 4 {
        ("mem"@, "physical frames + heap statistics"@)
    } else if i == 5 {
        ("paging"@, "CR3 and PML4 map introspection"@)
    } else if i == 6 {
        ("vmm"@, "own page-table manager self-test"@)
    } else if i == 7 {
        ("ls [path]"@, "list FAT32 ramdisk directory"@)
    } else if i == 8 {
        ("cat <file>"@, "print a file from the ramdisk"@)
    } else if i == 9 {
        ("dstat"@, "persistent disk: ahci device + fat32 stats (v1.5)"@)
    } else if i == 10 {
        ("dls [path]"@, "list the DISK (persistent) directory"@)
    } else if i == 11 {
        ("dcat <file>"@, "print a file from the disk"@)
    } else if i == 12 {
        ("dsave <ram> <disk>"@, "copy a ramdisk file onto the disk"@)
    } else if i == 13 {
        ("ddel <file>"@, "delete a file from the disk"@)
    } else if i == 14 {
        ("drun <elf>"@, "run an ELF loaded FROM THE DISK (persistent)"@)
    } else if i == 15 {
        ("run <elf>"@, "load ELF64 and wait for it (foreground)"@)
    } else if i == 16 {
        ("spawn <elf>"@, "load ELF64 in the background, keep typing"@)
    } else if i == 17 {
        ("ps"@, "task table (pid, name, state, cpu)"@)
    } else if i == 18 {
        ("kill [-9|-u] <pid>"@, "signal a task: TERM (default), KILL (-9), USR1 (-u)"@)
    } else if i == 19 {
        ("ipc"@, "named channel table (bytes in ring, msg counters)"@)
    } else if i == 20 {
        ("sleep <ms>"@, "block the shell for a while"@)
    } else if i == 21 {
        ("cpu"@, "per-cpu state; 'cpu ipi <n>' pings cpu n"@)
    } else if i == 22 {
        ("neofetch"@, "system summary with logo"@)
    } else if i == 23 {
        ("gui"@, "desktop: taskbar, start menu, resizable windows, ring-3 apps (esc exits)"@)
    } else if i == 24 {
        ("mouse"@, "ps/2 mouse status (packets, resyncs)"@)
    } else if i == 25 {
        ("net"@, "nic, ip config, link state, irq counters"@)
    } else if i == 26 {
        ("arp"@, "show the arp cache"@)
    } else if i == 27 {
        ("ping <ip>"@, "icmp echo x4 (empty = gateway 10.0.2.2)"@)
    } else if i == 28 {
        ("term"@, "terminal windows on the desktop (v1.4): run commands in a GUI window"@)
    } else if i == 29 {
        ("tcp"@, "tcp is exercised by TCPSERV.ELF / TCPCLI.ELF (v1.3)"@)
    } else if i == 30 {
        ("glm"@, "wisdom of the machine"@)
    } else if i == 31 {
        ("about"@, "what is GLM OS"@)
    } else if i == 32 {
        ("reboot"@, "reset the machine (8042)"@)
    } else {
        ("halt"@, "stop the CPU forever"@)
    }
}

fn help_text(i: usize) -> (r: (&'static str, &'static str))
    ensures
        (r.0@, r.1@) == help_row(i as int),
{
    if i == 0 {
        ("help", "show this help")
    } else if i == 1 {
        ("clear", "clear the screen")
    } else if i == 2 {
        ("echo <text>", "print text back")
    } else if i == 3 {
        ("uptime", "time since boot (PIT @ 100 Hz)")
    } else if i == 4 {
        ("mem", "physical frames + heap statistics")
    } else if i == 5 {
        ("paging", "CR3 and PML4 map introspection")
    } else if i == 6 {
        ("vmm", "own page-table manager self-test")
    } else if i == 7 {
        ("ls [path]", "list FAT32 ramdisk directory")
    } else if i == 8 {
        ("cat <file>", "print a file from the ramdisk")
    } else if i == 9 {
        ("dstat", "persistent disk: ahci device + fat32 stats (v1.5)")
    } else if i == 10 {
        ("dls [path]", "list the DISK (persistent) directory")
    } else if i == 11 {
        ("dcat <file>", "print a file from the disk")
    } else if i == 12 {
        ("dsave <ram> <disk>", "copy a ramdisk file onto the disk")
    } else if i == 13 {
        ("ddel <file>", "delete a file from the disk")
    } else if i == 14 {
        ("drun <elf>", "run an ELF loaded FROM THE DISK (persistent)")
    } else if i == 15 {
        ("run <elf>", "load ELF64 and wait for it (foreground)")
    } else if i == 16 {
        ("spawn <elf>", "load ELF64 in the background, keep typing")
    } else if i == 17 {
        ("ps", "task table (pid, name, state, cpu)")
    } else if i == 18 {
        ("kill [-9|-u] <pid>", "signal a task: TERM (default), KILL (-9), USR1 (-u)")
    } else if i == 19 {
        ("ipc", "named channel table (bytes in ring, msg counters)")
    } else if i == 20 {
        ("sleep <ms>", "block the shell for a while")
    } else if i == 21 {
        ("cpu", "per-cpu state; 'cpu ipi <n>' pings cpu n")
    } else if i == 22 {
        ("neofetch", "system summary with logo")
    } else if i == 23 {
        ("gui", "desktop: taskbar, start menu, resizable windows, ring-3 apps (esc exits)")
    } else if i == 24 {
        ("mouse", "ps/2 mouse status (packets, resyncs)")
    } else if i == 25 {
        ("net", "nic, ip config, link state, irq counters")
    } else if i == 26 {
        ("arp", "show the arp cache")
    } else if i == 27 {
        ("ping <ip>", "icmp echo x4 (empty = gateway 10.0.2.2)")
    } else if i == 28 {
        ("term", "terminal windows on the desktop (v1.4): run commands in a GUI window")
    } else if i == 29 {
        ("tcp", "tcp is exercised by TCPSERV.ELF / TCPCLI.ELF (v1.3)")
    } else if i == 30 {
        ("glm", "wisdom of the machine")
    } else if i == 31 {
        ("about", "what is GLM OS")
    } else if i == 32 {
        ("reboot", "reset the machine (8042)")
    } else {
        ("halt", "stop the CPU forever")
    }
}

/// The first `n` rows of the help, below its title.
pub open spec fn help_lines(n: int) -> Seq<OutV>
    decreases n,
{
    if n <= 0 {
        seq![crate::console::colored("GLM OS shell commands:\n"@, GLM_CYAN)]
    } else {
        help_lines(n - 1).push(crate::console::colored("  "@, GLM_GRAY)).push(
            crate::console::colored(help_row(n - 1).0, GLM_WHITE),
        ).push(crate::console::plain(" - "@)).push(crate::console::plain(help_row(n - 1).1)).push(
            crate::console::plain("\n"@),
        )
    }
}

pub fn cmd_help() -> (v: Vec<Out>)
    ensures
        crate::console::outs(v@) == help_lines(HELP_COUNT as int),
{
    let mut v = nothing();
    say_color(&mut v, "GLM OS shell commands:\n".to_owned(), GLM_CYAN);
    assert(crate::console::outs(v@) =~= help_lines(0));
    let mut i: usize = 0;
    while i < HELP_COUNT
        invariant
            i <= HELP_COUNT,
            crate::console::outs(v@) == help_lines(i as int),
        decreases HELP_COUNT - i,
    {
        let (name, what) = help_text(i);
        say_color(&mut v, "  ".to_owned(), GLM_GRAY);
        say_color(&mut v, name.to_owned(), GLM_WHITE);
        say(&mut v, " - ".to_owned());
        say(&mut v, what.to_owned());
        say(&mut v, "\n".to_owned());
        i = i + 1;
    }
    v
}

/// What the system is.
pub open spec fn about_lines() -> Seq<OutV> {
    seq![
        crate::console::colored("GLM OS v1.7.0\n"@, GLM_CYAN),
        crate::console::plain("  a 64-bit hobby operating system for x86_64\n"@),
        crate::console::plain("  designed, written and tested by GLM (Z.ai)\n"@),
        crate::console::plain("  kernel: pure Rust, no_std, zero runtime dependencies\n"@),
        crate::console::plain("  boot:   Limine 12 (long mode entry), framebuffer console\n"@),
        crate::console::plain("  memory: own 4-level page tables, per-task address spaces\n"@),
        crate::console::plain("  user:   ring 3, ELF64 loader, int 0x80 syscall gate\n"@),
        crate::console::plain("  sched:  preemptive round-robin, per-cpu LAPIC timer\n"@),
        crate::console::plain("  smp:    limine mp bringup, per-cpu gdt/tss, pinned kidles, ipi\n"@),
        crate::console::plain("  ipc:    signals (sigaction/frame surgery/sigreturn) + byte channels\n"@),
        crate::console::plain("  gui:    double buffered compositor, resize grips, int 0x80 window API\n"@),
        crate::console::plain("  stack:  own GDT/IDT/TSS, 8259 PIC + LAPIC, PIT, PS/2 keyboard\n"@),
    ]
}

pub fn cmd_about() -> (v: Vec<Out>)
    ensures
        crate::console::outs(v@) == about_lines(),
{
    let mut v = nothing();
    say_color(&mut v, "GLM OS v1.7.0\n".to_owned(), GLM_CYAN);
    say(&mut v, "  a 64-bit hobby operating system for x86_64\n".to_owned());
    say(&mut v, "  designed, written and tested by GLM (Z.ai)\n".to_owned());
    say(&mut v, "  kernel: pure Rust, no_std, zero runtime dependencies\n".to_owned());
    say(&mut v, "  boot:   Limine 12 (long mode entry), framebuffer console\n".to_owned());
    say(&mut v, "  memory: own 4-level page tables, per-task address spaces\n".to_owned());
    say(&mut v, "  user:   ring 3, ELF64 loader, int 0x80 syscall gate\n".to_owned());
    say(&mut v, "  sched:  preemptive round-robin, per-cpu LAPIC timer\n".to_owned());
    say(&mut v, "  smp:    limine mp bringup, per-cpu gdt/tss, pinned kidles, ipi\n".to_owned());
    say(&mut v, "  ipc:    signals (sigaction/frame surgery/sigreturn) + byte channels\n".to_owned());
    say(&mut v, "  gui:    double buffered compositor, resize grips, int 0x80 window API\n".to_owned());
    say(&mut v, "  stack:  own GDT/IDT/TSS, 8259 PIC + LAPIC, PIT, PS/2 keyboard\n".to_owned());
    assert(crate::console::outs(v@) =~= about_lines());
    v
}

// ---------------------------------------------------------------------------
// Time
// ---------------------------------------------------------------------------
/// A span of time as hours, minutes and seconds.
pub open spec fn hms(ms: u64) -> Seq<char> {
    crate::text::dec_text((ms / 3_600_000) as nat) + "h "@ + crate::text::dec_text((ms / 60_000 % 60) as nat) + "m "@
        + crate::text::dec_text((ms / 1000 % 60) as nat) + "s"@
}

fn push_hms(s: &mut String, ms: u64)
    ensures
        final(s)@ == old(s)@ + hms(ms),
{
    push_dec(s, ms / 3_600_000);
    s.append("h ");
    push_dec(s, ms / 60_000 % 60);
    s.append("m ");
    push_dec(s, ms / 1000 % 60);
    s.append("s");
    assert(s@ =~= old(s)@ + hms(ms));
}

pub open spec fn uptime_text(ms: u64, ticks: u64) -> Seq<char> {
    "up "@ + hms(ms) + " ("@ + crate::text::dec_text(ticks as nat) + " ticks)\n"@
}

pub fn cmd_uptime(ms: u64, ticks: u64) -> (v: Vec<Out>)
    ensures
        crate::console::outs(v@) == seq![crate::console::plain(uptime_text(ms, ticks))],
{
    let mut s: String = "up ".to_owned();
    push_hms(&mut s, ms);
    s.append(" (");
    push_dec(&mut s, ticks);
    s.append(" ticks)\n");
    let mut v = nothing();
    say(&mut v, s);
    assert(crate::console::outs(v@) =~= seq![crate::console::plain(uptime_text(ms, ticks))]);
    v
}

// ---------------------------------------------------------------------------
// Wisdom
// ---------------------------------------------------------------------------
pub open spec fn quote(i: int) -> Seq<char> {
    if i == 0 {
        "I am the kernel and the userland. There is no distinction."@
    } else if i == 1 {
        "Written by a model, executed by a CPU. Hello!"@
    } else if i == 2 {
        "Every byte of this OS passed through a neural network."@
    } else if i == 3 {
        "sleep() is just hlt() with ambition."@
    } else {
        "There are two kinds of kernels: mine, and the rest."@
    }
}

fn quote_text(i: u64) -> (r: &'static str)
    ensures
        r@ == quote(i as int),
{
    if i == 0 {
        "I am the kernel and the userland. There is no distinction."
    } else if i == 1 {
        "Written by a model, executed by a CPU. Hello!"
    } else if i == 2 {
        "Every byte of this OS passed through a neural network."
    } else if i == 3 {
        "sleep() is just hlt() with ambition."
    } else {
        "There are two kinds of kernels: mine, and the rest."
    }
}

pub open spec fn quote_lines(ticks: u64) -> Seq<OutV> {
    seq![
        crate::console::colored("glm says: "@, GLM_MAGENTA),
        crate::console::colored(quote((ticks % 5) as int), GLM_CYAN),
        crate::console::plain("\n"@),
    ]
}

/// One of five sayings, by the clock.
pub fn cmd_glm_quote(ticks: u64) -> (v: Vec<Out>)
    ensures
        crate::console::outs(v@) == quote_lines(ticks),
{
    let mut v = nothing();
    say_color(&mut v, "glm says: ".to_owned(), GLM_MAGENTA);
    say_color(&mut v, quote_text(ticks % 5).to_owned(), GLM_CYAN);
    say(&mut v, "\n".to_owned());
    assert(crate::console::outs(v@) =~= quote_lines(ticks));
    v
}

// ---------------------------------------------------------------------------
// The summary
// ---------------------------------------------------------------------------
/// What the summary tells of the system.
#[derive(Clone, Copy)]
pub struct Facts<'a> {
    pub boot_version: Option<&'a str>,
    pub uptime_ms: u64,
    pub cpus: usize,
    pub cpus_online: usize,
    pub timer_hz: u64,
    pub switches: u64,
    /// Files in the root of the ramdisk.
    pub files: usize,
}

pub open spec fn logo(i: int) -> Seq<char> {
    if i == 0 {
        "      /\\      "@
    } else if i == 1 {
        "     /  \\     "@
    } else if i == 2 {
        "    / /\\ \\    "@
    } else if i == 3 {
        "   / /__\\ \\   "@
    } else if i == 4 {
        "  / /    \\ \\  "@
    } else if i == 5 {
        " / /      \\ \\ "@
    } else if i == 6 {
        "/_/        \\_\\"@
    } else if i == 7 {
        "               "@
    } else {
        "               "@
    }
}

fn logo_text(i: usize) -> (r: &'static str)
    ensures
        r@ == logo(i as int),
{
    if i == 0 {
        "      /\\      "
    } else if i == 1 {
        "     /  \\     "
    } else if i == 2 {
        "    / /\\ \\    "
    } else if i == 3 {
        "   / /__\\ \\   "
    } else if i == 4 {
        "  / /    \\ \\  "
    } else if i == 5 {
        " / /      \\ \\ "
    } else if i == 6 {
        "/_/        \\_\\"
    } else if i == 7 {
        "               "
    } else {
        "               "
    }
}

pub open spec fn version_text(v: Option<&str>) -> Seq<char> {
    match v {
        Some(s) => s@,
        None => "?"@,
    }
}

pub open spec fn fact(f: Facts, i: int) -> Seq<char> {
    let d = |n: int| crate::text::dec_text(n as nat);
    if i == 0 {
        "glm@glm-os"@
    } else if i == 1 {
        "-----------"@
    } else if i == 2 {
        "OS:        GLM OS 1.7.0 (x86_64 long mode, SMP)"@
    } else if i == 3 {
        "Kernel:    glm 1.7.0, pure Rust no_std"@
    } else if i == 4 {
        "Boot:      Limine "@ + version_text(f.boot_version)
    } else if i == 5 {
        "Uptime:    "@ + hms(f.uptime_ms)
    } else if i == 6 {
        "CPUs:      "@ + d(f.cpus as int) + " ("@ + d(f.cpus_online as int) + " online), LAPIC "@ + d(f.timer_hz as int)
            + " Hz"@
    } else if i == 7 {
        "Sched:     preemptive RR, "@ + d(f.switches as int) + " sw"@
    } else if i == 8 {
        "Userland:  ring 3, ELF64, signals, IPC, COW fork"@
    } else if i == 9 {
        "GUI:       desktop, taskbar, resizable windows, terminal windows (v1.4)"@
    } else if i == 10 {
        "Net:       e1000, 10.0.2.15/24, arp+icmp+udp"@
    } else {
        "Ramdisk:   FAT32, "@ + d(f.files as int) + " files"@
    }
}

fn fact_text(f: &Facts, i: usize) -> (s: String)
    ensures
        s@ == fact(*f, i as int),
{
    let mut s: String = String::new();
    if i == 0 {
        s = "glm@glm-os".to_owned();
    } else if i == 1 {
        s = "-----------".to_owned();
    } else if i == 2 {
        s = "OS:        GLM OS 1.7.0 (x86_64 long mode, SMP)".to_owned();
    } else if i == 3 {
        s = "Kernel:    glm 1.7.0, pure Rust no_std".to_owned();
    } else if i == 4 {
        s = "Boot:      Limine ".to_owned();
        match f.boot_version {
            Some(v) => s.append(v),
            None => s.append("?"),
        }
    } else if i == 5 {
        s = "Uptime:    ".to_owned();
        push_hms(&mut s, f.uptime_ms);
    } else if i == 6 {
        s = "CPUs:      ".to_owned();
        push_dec(&mut s, f.cpus as u64);
        s.append(" (");
        push_dec(&mut s, f.cpus_online as u64);
        s.append(" online), LAPIC ");
        push_dec(&mut s, f.timer_hz);
        s.append(" Hz");
    } else if i == 7 {
        s = "Sched:     preemptive RR, ".to_owned();
        push_dec(&mut s, f.switches);
        s.append(" sw");
    } else if i == 8 {
        s = "Userland:  ring 3, ELF64, signals, IPC, COW fork".to_owned();
    } else if i == 9 {
        s = "GUI:       desktop, taskbar, resizable windows, terminal windows (v1.4)".to_owned();
    } else if i == 10 {
        s = "Net:       e1000, 10.0.2.15/24, arp+icmp+udp".to_owned();
    } else {
        s = "Ramdisk:   FAT32, ".to_owned();
        push_dec(&mut s, f.files as u64);
        s.append(" files");
    }
    s
}

/// The first `n` rows: the logo and, beside it, the facts.
pub open spec fn summary(f: Facts, n: int) -> Seq<OutV>
    decreases n,
{
    if n <= 0 {
        Seq::empty()
    } else {
        let i = n - 1;
        summary(f, i).push(
            if i < 9 {
                crate::console::colored(logo(i), GLM_CYAN)
            } else {
                crate::console::plain("                "@)
            },
        ).push(crate::console::plain("  "@)).push(
            crate::console::colored(
                fact(f, i),
                if i == 0 {
                    GLM_MAGENTA
                } else if i == 1 {
                    GLM_GRAY
                } else {
                    GLM_WHITE
                },
            ),
        ).push(crate::console::plain("\n"@))
    }
}

pub fn cmd_neofetch(f: &Facts) -> (v: Vec<Out>)
    ensures
        crate::console::outs(v@) == summary(*f, 12),
{
    let mut v = nothing();
    let mut i: usize = 0;
    while i < 12
        invariant
            i <= 12,
            crate::console::outs(v@) == summary(*f, i as int),
        decreases 12 - i,
    {
        if i < 9 {
            say_color(&mut v, logo_text(i).to_owned(), GLM_CYAN);
        } else {
            say(&mut v, "                ".to_owned());
        }
        say(&mut v, "  ".to_owned());
        let color: u8 = if i == 0 {
            GLM_MAGENTA
        } else if i == 1 {
            GLM_GRAY
        } else {
            GLM_WHITE
        };
        say_color(&mut v, fact_text(f, i), color);
        say(&mut v, "\n".to_owned());
        i = i + 1;
    }
    v
}

// ---------------------------------------------------------------------------
// Short answers
// ---------------------------------------------------------------------------
pub open spec fn unknown_lines(name: Seq<char>) -> Seq<OutV> {
    seq![
        crate::console::colored("glmsh: unknown command: "@, GLM_YELLOW),
        crate::console::plain(name),
        crate::console::colored(" (try 'help')\n"@, GLM_GRAY),
    ]
}

/// There is no such command.
pub fn say_unknown(name: &str) -> (v: Vec<Out>)
    ensures
        crate::console::outs(v@) == unknown_lines(name@),
{
    let mut v = nothing();
    say_color(&mut v, "glmsh: unknown command: ".to_owned(), GLM_YELLOW);
    say(&mut v, name.to_owned());
    say_color(&mut v, " (try 'help')\n".to_owned(), GLM_GRAY);
    assert(crate::console::outs(v@) =~= unknown_lines(name@));
    v
}

/// A text and the end of its line.
pub fn cmd_echo(text: &str) -> (v: Vec<Out>)
    ensures
        crate::console::outs(v@) == seq![crate::console::plain(text@), crate::console::plain("\n"@)],
{
    let mut v = nothing();
    say(&mut v, text.to_owned());
    say(&mut v, "\n".to_owned());
    assert(crate::console::outs(v@) =~= seq![crate::console::plain(text@), crate::console::plain("\n"@)]);
    v
}

/// What is printed before the machine stops.
pub fn say_halted() -> (v: Vec<Out>)
    ensures
        crate::console::outs(v@) == seq![
            crate::console::colored("It's now safe to turn off your computer. (halted)\n"@, GLM_YELLOW),
        ],
{
    let mut v = nothing();
    say_color(&mut v, "It's now safe to turn off your computer. (halted)\n".to_owned(), GLM_YELLOW);
    assert(crate::console::outs(v@) =~= seq![
        crate::console::colored("It's now safe to turn off your computer. (halted)\n"@, GLM_YELLOW),
    ]);
    v
}

/// What a session prints when it opens the monitor.
pub fn say_monitor() -> (v: Vec<Out>)
    ensures
        crate::console::outs(v@) == seq![crate::console::plain("  desktop: system monitor opened\n"@)],
{
    let mut v = nothing();
    say(&mut v, "  desktop: system monitor opened\n".to_owned());
    assert(crate::console::outs(v@) =~= seq![crate::console::plain("  desktop: system monitor opened\n"@)]);
    v
}

/// What a session prints when it ends.
pub fn say_bye() -> (v: Vec<Out>)
    ensures
        crate::console::outs(v@) == seq![crate::console::colored("bye\n"@, GLM_GRAY)],
{
    let mut v = nothing();
    say_color(&mut v, "bye\n".to_owned(), GLM_GRAY);
    assert(crate::console::outs(v@) =~= seq![crate::console::colored("bye\n"@, GLM_GRAY)]);
    v
}

} // verus!
