use glm_os::cpu::idt::Regs;
use glm_os::cpu::keyboard::{self, Keyboard};
use glm_os::cpu::smp::{self, Smp};
use glm_os::fs::fat32::Fat32;
use glm_os::disk::RamBlock;
use glm_os::ipc::{self, ChanTable, Recv};
use glm_os::kernel::Kernel;
use glm_os::mem::frames::{self, Region};
use glm_os::mem::vmm::{self, AddressSpace, Memory};
use glm_os::net::netd::NetState;
use glm_os::net::OUR_IP;
use glm_os::sched::process;
use glm_os::sched::switch;
use glm_os::sched::{self, Sched, State};
use glm_os::shell::status;
use glm_os::shell::system;
use glm_os::term;
use glm_os::user::elf;
use glm_os::user::exec;
use glm_os::user::signal;
use glm_os::user::syscall;
use glm_os::user::task;
use glm_os::user::uaccess::{read_user_bytes, write_user_bytes};

fn kernel() -> Kernel {
    let mut mem = Memory::new();
    frames::init(&mut mem.frames, &vec![Region { base: 0x10_0000, length: 0x200_0000, usable: true }]);
    let k = AddressSpace::new_user(&mut mem).unwrap();
    vmm::init(&mut mem, k.pml4);
    let mut smp = Smp::new();
    smp::init(&mut smp, 0, &Some(vec![0, 1]));
    let mut sched = Sched::new(0xFFFF_8000_0000_0000);
    sched::init(&mut sched, &mut mem, &mut smp, 0xFFFF_8000_0008_0000, 0x1111, 0x2222);
    Kernel {
        sched,
        mem,
        smp,
        keys: Keyboard::new(),
        chans: ChanTable::new(),
        net: NetState::new([2, 0, 0, 0, 0, 1]),
    }
}

fn image() -> Vec<u8> {
    let mut v = vec![0u8; 0x80];
    v[0..4].copy_from_slice(&[0x7F, b'E', b'L', b'F']);
    v[4] = 2;
    v[5] = 1;
    v[16] = 2;
    v[18] = 62;
    v[24..32].copy_from_slice(&0x40_0000u64.to_le_bytes());
    v[32..40].copy_from_slice(&64u64.to_le_bytes());
    v[54] = 56;
    v[56] = 1;
    let p = 64;
    v[p] = 1;
    v[p + 4] = 7;
    v[p + 8..p + 16].copy_from_slice(&0x78u64.to_le_bytes());
    v[p + 16..p + 24].copy_from_slice(&0x40_0000u64.to_le_bytes());
    v[p + 32..p + 40].copy_from_slice(&4u64.to_le_bytes());
    v[p + 40..p + 48].copy_from_slice(&0x1000u64.to_le_bytes());
    v[0x78..0x7C].copy_from_slice(&[1, 2, 3, 4]);
    v
}

fn start(k: &mut Kernel, args: &[&str]) -> u64 {
    let (r, _) = task::spawn_user_elf_bytes(
        &mut k.sched,
        &mut k.mem,
        &k.smp,
        0,
        false,
        &image(),
        "/BIN/PROG",
        args,
    );
    r.unwrap()
}

/// Makes the task with this pid the one that runs.
fn run(k: &mut Kernel, pid: u64) -> (usize, Regs, u64) {
    let old = sched::current_slot(&k.smp, 0);
    if k.sched.tasks[old].state == State::Running {
        k.sched.tasks[old].state = State::Ready;
    }
    let i = sched::find_pid(&k.sched, pid).unwrap();
    k.sched.tasks[i].state = State::Running;
    smp::set_current_task(&mut k.smp, 0, i);
    let r = k.sched.tasks[i].saved.unwrap_or(Regs::zero());
    (i, r, k.sched.tasks[i].pml4)
}

fn call(k: &mut Kernel, cr3: u64, n: u64, a: u64, b: u64, c: u64) -> u64 {
    let mut r = Regs::zero();
    r.rax = n;
    r.rdi = a;
    r.rsi = b;
    r.rdx = c;
    let _ = syscall::dispatch(k, 0, cr3, 1234, &mut r);
    r.rax
}

#[test]
fn the_first_tasks() {
    let k = kernel();
    let names: Vec<&[u8]> = (0..3).map(|i| k.sched.tasks[i].name.as_slice()).collect();
    assert_eq!(names, vec![b"glmsh".as_slice(), b"kidle", b"kstat"]);
    assert_eq!(sched::for_each_task(&k.sched), vec![0, 1, 2]);
    assert_eq!(sched::current_pid(&k.sched, &k.smp, 0), 1);
    assert_eq!(sched::task_state(&k.sched, 2), Some((State::Ready, false)));
    assert_eq!(sched::task_state(&k.sched, 9), None);
    assert!(sched::online(&k.sched));
    let mut text = String::new();
    for o in system::cmd_ps(&k.sched) {
        text.push_str(&o.text);
    }
    assert!(text.contains("glmsh"));
    assert!(text.contains("READY"));
}

#[test]
fn a_program_is_loaded() {
    let mut k = kernel();
    let pid = start(&mut k, &["prog", "one"]);
    assert_eq!(pid, 4);
    let (i, r, cr3) = run(&mut k, pid);
    assert_eq!(r.rip, 0x40_0000);
    assert_eq!((r.rdi, r.cs, r.ss), (2, 0x1B, 0x23));
    assert_eq!(k.sched.tasks[i].name, b"PROG".to_vec());
    let s = AddressSpace::from_pml4(cr3);
    assert_eq!(read_user_bytes(&k.mem, &s, 0x40_0000, 5), Ok(vec![1, 2, 3, 4, 0]));
    // the arguments
    let at = |v: Vec<u8>| u64::from_le_bytes([v[0], v[1], v[2], v[3], v[4], v[5], v[6], v[7]]);
    let a1 = at(read_user_bytes(&k.mem, &s, r.rsi + 8, 8).unwrap());
    assert_eq!(read_user_bytes(&k.mem, &s, a1, 4), Ok(b"one\0".to_vec()));
    assert_eq!(at(read_user_bytes(&k.mem, &s, r.rsi + 16, 8).unwrap()), 0);
    assert_eq!((r.rsp % 8, r.rsp + 8), (0, r.rsi));
    assert_eq!(at(read_user_bytes(&k.mem, &s, r.rsp, 8).unwrap()), 2);
    let a0 = at(read_user_bytes(&k.mem, &s, r.rsi, 8).unwrap());
    assert_eq!(read_user_bytes(&k.mem, &s, a0, 5), Ok(b"prog\0".to_vec()));
}

#[test]
fn what_is_not_a_program() {
    let mut m = kernel().mem;
    let s = AddressSpace::new_user(&mut m).unwrap();
    let mut bad = |f: fn(&mut Vec<u8>)| {
        let mut v = image();
        f(&mut v);
        elf::load(&mut m, &s, &v).err()
    };
    assert_eq!(bad(|v| v[0] = 0), Some("not an ELF file (bad magic)"));
    assert_eq!(bad(|v| v[4] = 1), Some("not a 64-bit ELF (class != ELF64)"));
    assert_eq!(bad(|v| v[5] = 2), Some("not little-endian"));
    assert_eq!(bad(|v| v[16] = 3), Some("not a static executable (e_type != ET_EXEC)"));
    assert_eq!(bad(|v| v[18] = 3), Some("not x86_64 (e_machine != EM_X86_64)"));
    assert_eq!(bad(|v| v[56] = 0), Some("no program headers"));
    assert_eq!(bad(|v| v[56] = 9), Some("program header table out of bounds"));
    assert_eq!(bad(|v| v[64] = 2), Some("no PT_LOAD segments"));
    assert_eq!(bad(|v| v[64 + 32 + 1] = 9), Some("segment data out of bounds"));
    assert_eq!(bad(|v| v[85..88].copy_from_slice(&[0x80, 0xFF, 0xFF])), Some("segment outside the user half"));
    let mut m = kernel().mem;
    let s = AddressSpace::new_user(&mut m).unwrap();
    let ok = elf::load(&mut m, &s, &image()).unwrap();
    assert_eq!((ok.entry, ok.seg_count, ok.mapped_bytes), (0x40_0000, 1, 0x1000));
    assert_eq!(elf::load(&mut m, &s, &image()).err(), Some("segment overlaps already-mapped memory"));
    let mut v = image();
    v[29..32].copy_from_slice(&[0x80, 0xFF, 0xFF]);
    let s = AddressSpace::new_user(&mut m).unwrap();
    assert_eq!(elf::load(&mut m, &s, &v).err(), Some("entry point outside the user half"));
    let mut none: Option<Fat32<RamBlock>> = None;
    assert_eq!(elf::read_from_ramdisk(&mut none, "x").err(), Some("ramdisk not mounted"));
}

#[test]
fn too_many_arguments() {
    let mut k = kernel();
    let many = vec!["a"; 17];
    let (r, _) = task::spawn_user_elf_bytes(&mut k.sched, &mut k.mem, &k.smp, 0, false, &image(), "x", &many);
    assert_eq!(r, Err("too many arguments"));
    let long = "b".repeat(128);
    let lots = vec![long.as_str(); 16];
    let (r, _) = task::spawn_user_elf_bytes(&mut k.sched, &mut k.mem, &k.smp, 0, false, &image(), "x", &lots);
    assert_eq!(r, Err("argument list too long"));
}

#[test]
fn the_task_table_fills() {
    let mut k = kernel();
    for i in 0..13 {
        assert_eq!(start(&mut k, &["p"]), 4 + i);
    }
    let (r, _) = task::spawn_user_elf_bytes(&mut k.sched, &mut k.mem, &k.smp, 0, false, &image(), "x", &["x"]);
    assert_eq!(r, Err("task table full"));
    assert!(!term::launch(&mut k.sched, &mut k.mem, &k.smp, 0, 0x3333, 0));
}

#[test]
fn plain_calls() {
    let mut k = kernel();
    let pid = start(&mut k, &["prog"]);
    let (_, _, cr3) = run(&mut k, pid);
    assert_eq!(call(&mut k, cr3, syscall::SYS_GETPID, 0, 0, 0), pid);
    assert_eq!(call(&mut k, cr3, syscall::SYS_UPTIME, 0, 0, 0), 1234);
    assert_eq!(call(&mut k, cr3, 24, 1, 2, 3), syscall::FAIL);
    assert_eq!(call(&mut k, cr3, 1 << 40, 1, 2, 3), syscall::FAIL);
    let s = AddressSpace::from_pml4(cr3);
    write_user_bytes(&mut k.mem, &s, 0x40_0100, b"hi!").unwrap();
    let mut r = Regs::zero();
    r.rax = syscall::SYS_WRITE;
    r.rdi = 0x40_0100;
    r.rsi = 3;
    let e = syscall::dispatch(&mut k, 0, cr3, 0, &mut r);
    assert_eq!(r.rax, 3);
    assert_eq!(e.out[0].text, "hi!");
    r.rax = syscall::SYS_READCHAR;
    keyboard::on_irq(&mut k.keys, 0x1E);
    let _ = syscall::dispatch(&mut k, 0, cr3, 0, &mut r);
    assert_eq!(r.rax, b'a' as u64);
}

#[test]
fn a_parent_waits_for_its_child() {
    let mut k = kernel();
    let pid = start(&mut k, &["prog"]);
    let (i, _, cr3) = run(&mut k, pid);
    let child = call(&mut k, cr3, syscall::SYS_FORK, 0, 0, 0);
    assert_eq!(child, pid + 1);
    assert_eq!(call(&mut k, cr3, syscall::SYS_WAIT, child, 0, 0), 0);
    assert_eq!(k.sched.tasks[i].state, State::WaitingChild);
    let (j, r, ccr3) = run(&mut k, child);
    assert_eq!(r.rax, 0);
    assert!(ccr3 != cr3);
    assert_eq!(call(&mut k, ccr3, syscall::SYS_GETPID, 0, 0, 0), child);
    let mut r = Regs::zero();
    r.rax = syscall::SYS_EXIT;
    r.rdi = 7;
    let e = syscall::dispatch(&mut k, 0, ccr3, 0, &mut r);
    let e = e.ended.unwrap();
    assert_eq!((e.pid, e.process), (child, true));
    assert_eq!(k.sched.tasks[j].state, State::Zombie);
    // the parent goes on with the exit code
    assert_eq!(k.sched.tasks[i].state, State::Ready);
    assert_eq!(k.sched.tasks[i].saved.unwrap().rax, 7);
}

#[test]
fn a_sender_waits_for_room() {
    let mut k = kernel();
    let pid = start(&mut k, &["prog"]);
    let (i, _, cr3) = run(&mut k, pid);
    assert_eq!(call(&mut k, cr3, syscall::SYS_NET_BIND, 7000, 0, 0), 0);
    assert_eq!(call(&mut k, cr3, syscall::SYS_NET_BIND, 7001, 0, 0), 1);
    let send = |k: &mut Kernel, cr3: u64| -> u64 {
        let mut r = Regs::zero();
        r.rax = syscall::SYS_NET_SENDTO;
        r.rdi = 1;
        r.rsi = OUR_IP as u64;
        r.rdx = 7000;
        r.rcx = 0x40_0000;
        r.r8 = 4;
        let e = syscall::dispatch(k, 0, cr3, 0, &mut r);
        assert!(e.wire.is_none());
        r.rax
    };
    for _ in 0..8 {
        assert_eq!(send(&mut k, cr3), 4);
    }
    assert_eq!(send(&mut k, cr3), (-2i64) as u64);
    assert_eq!(k.sched.tasks[i].state, State::BlockedSock);
    // another task takes one out, and the sender may go on
    let other = start(&mut k, &["prog"]);
    let (_, _, ocr3) = run(&mut k, other);
    assert_eq!(call(&mut k, ocr3, syscall::SYS_NET_RECVFROM, 0, 0x40_0100, 64), 4);
    assert_eq!(k.sched.tasks[i].state, State::Ready);
    let _ = run(&mut k, pid);
    assert_eq!(send(&mut k, cr3), 4);
}

#[test]
fn a_zombie_is_waited_for() {
    let mut k = kernel();
    let pid = start(&mut k, &["prog"]);
    let (_, _, cr3) = run(&mut k, pid);
    let child = call(&mut k, cr3, syscall::SYS_FORK, 0, 0, 0);
    let (_, _, ccr3) = run(&mut k, child);
    let _ = call(&mut k, ccr3, syscall::SYS_EXIT, 9, 0, 0);
    let _ = run(&mut k, pid);
    assert_eq!(call(&mut k, cr3, syscall::SYS_WAIT, 0, 0, 0), 9);
    assert_eq!(task::describe_exit(0), "clean exit");
    assert_eq!(task::describe_exit(139), "killed by the kernel");
    assert_eq!(task::describe_exit(1), "non-zero exit");
}

#[test]
fn threads_are_joined() {
    let mut k = kernel();
    let pid = start(&mut k, &["prog"]);
    let (i, _, cr3) = run(&mut k, pid);
    assert_eq!(call(&mut k, cr3, syscall::SYS_CLONE, 0, 0x50_0000, 0), syscall::FAIL);
    assert_eq!(call(&mut k, cr3, syscall::SYS_JOIN, 0, 0, 0), syscall::FAIL);
    let t = call(&mut k, cr3, syscall::SYS_CLONE, 0x40_0010, 0x50_0000, 77);
    assert_eq!(t, pid + 1);
    let (j, r, tcr3) = run(&mut k, t);
    assert_eq!((tcr3, r.rip, r.rdi), (cr3, 0x40_0010, 77));
    assert_eq!(k.sched.tasks[j].tgid, pid);
    let _ = call(&mut k, cr3, syscall::SYS_TEXIT, 5, 0, 0);
    let _ = run(&mut k, pid);
    assert_eq!(call(&mut k, cr3, syscall::SYS_JOIN, t, 0, 0), 5);
    assert_eq!(k.sched.tasks[j].state, State::Dead);
    assert_eq!(k.sched.tasks[i].state, State::Running);
}

#[test]
fn a_thread_is_joined_once() {
    let mut k = kernel();
    let pid = start(&mut k, &["prog"]);
    let (i, _, cr3) = run(&mut k, pid);
    // it ended before the join
    let t = call(&mut k, cr3, syscall::SYS_CLONE, 0x40_0010, 0x50_0000, 0);
    let _ = run(&mut k, t);
    let _ = call(&mut k, cr3, syscall::SYS_TEXIT, 5, 0, 0);
    let _ = run(&mut k, pid);
    assert_eq!(call(&mut k, cr3, syscall::SYS_JOIN, t, 0, 0), 5);
    assert_eq!(call(&mut k, cr3, syscall::SYS_JOIN, t, 0, 0), syscall::FAIL);
    // it ends while it is waited for
    let t = call(&mut k, cr3, syscall::SYS_CLONE, 0x40_0010, 0x50_0000, 0);
    assert_eq!(call(&mut k, cr3, syscall::SYS_JOIN, t, 0, 0), 0);
    assert_eq!(k.sched.tasks[i].state, State::BlockedJoin);
    let (j, _, _) = run(&mut k, t);
    let _ = call(&mut k, cr3, syscall::SYS_TEXIT, 6, 0, 0);
    assert_eq!(k.sched.tasks[i].state, State::Ready);
    assert_eq!(k.sched.tasks[i].saved.unwrap().rax, 6);
    let _ = run(&mut k, pid);
    assert_eq!(call(&mut k, cr3, syscall::SYS_JOIN, t, 0, 0), syscall::FAIL);
    assert_eq!(call(&mut k, cr3, syscall::SYS_JOIN, 0, 0, 0), syscall::FAIL);
    process::reap_zombie(&mut k.sched, &mut k.mem, j);
    assert_eq!(call(&mut k, cr3, syscall::SYS_JOIN, t, 0, 0), syscall::FAIL);
    // one that was reclaimed before anyone asked is still there, once
    let t = call(&mut k, cr3, syscall::SYS_CLONE, 0x40_0010, 0x50_0000, 0);
    let (j, _, _) = run(&mut k, t);
    let _ = call(&mut k, cr3, syscall::SYS_TEXIT, 7, 0, 0);
    process::reap_zombie(&mut k.sched, &mut k.mem, j);
    let _ = run(&mut k, pid);
    assert_eq!(call(&mut k, cr3, syscall::SYS_JOIN, t, 0, 0), 7);
    assert_eq!(call(&mut k, cr3, syscall::SYS_JOIN, t, 0, 0), syscall::FAIL);
    // nor is a process a thread of another one
    let other = start(&mut k, &["other"]);
    let _ = run(&mut k, pid);
    assert_eq!(call(&mut k, cr3, syscall::SYS_JOIN, other, 0, 0), syscall::FAIL);
}

#[test]
fn what_kill_says() {
    let mut k = kernel();
    let pid = start(&mut k, &["prog"]);
    let mut kill = |n: u64| process::kill(&mut k.sched, &mut k.mem, &k.smp, 0, n);
    assert_eq!(kill(1), Err("cannot kill the running task"));
    assert_eq!(kill(99), Err("no such task"));
    assert_eq!(kill(pid), Ok("terminated"));
    assert_eq!(kill(pid), Err("no such task"));
    k.sched.tasks[2].state = State::Running;
    assert_eq!(process::kill(&mut k.sched, &mut k.mem, &k.smp, 0, 3), Err("cannot kill a running task"));
    let mut off = Sched::new(0);
    assert_eq!(process::kill(&mut off, &mut k.mem, &k.smp, 0, 3), Err("scheduler offline"));
}

#[test]
fn signals_are_handled_and_left() {
    let mut k = kernel();
    let pid = start(&mut k, &["prog"]);
    let (i, r, cr3) = run(&mut k, pid);
    assert_eq!(call(&mut k, cr3, syscall::SYS_SIGACTION, signal::SIGUSR1, 0x40_0020, 0), 0);
    assert_eq!(call(&mut k, cr3, syscall::SYS_SIGACTION, signal::SIGUSR1, 0x40_0024, 0), 0x40_0020);
    assert_eq!(call(&mut k, cr3, syscall::SYS_SIGACTION, signal::SIGKILL, 0x40_0024, 0), syscall::FAIL);
    let _ = run(&mut k, 1);
    let mut send = |n: u64, s: u64| switch::send_signal(&mut k.sched, &k.smp, 0, n, s);
    assert_eq!(send(pid, 16), Err("bad signal number"));
    assert_eq!(send(1, 10), Err("cannot signal the calling task"));
    assert_eq!(send(50, 10), Err("no such task"));
    assert_eq!(send(2, 10), Err("not a user task"));
    assert_eq!(send(pid, 10), Ok("signal queued (delivers on resume)"));
    // delivered: the handler runs, then the program goes on where it was
    k.sched.tasks[i].sig_pending = 0;
    assert_eq!(signal::enter_handler(&mut k.mem, &mut k.sched.tasks[i], 10, 0x40_0024), Ok(()));
    let h = k.sched.tasks[i].saved.unwrap();
    assert_eq!((h.rip, h.rdi), (0x40_0024, 10));
    // as after a call: the return address lies on an aligned stack
    assert_eq!(h.rsp % 16, 8);
    let _ = run(&mut k, pid);
    let mut now = h;
    now.rax = syscall::SYS_SIGRETURN;
    now.rbx = 0x77;
    assert_eq!(signal::sys_sigreturn(&mut k.sched, &k.mem, &k.smp, 0, cr3, &mut now), 0);
    assert_eq!((now.rip, now.rsp, now.rbx), (r.rip, r.rsp, r.rbx));
    assert_eq!(signal::sys_sigreturn(&mut k.sched, &k.mem, &k.smp, 0, cr3, &mut now), -1);
    assert!(signal::catchable(15) && !signal::catchable(9));
}

fn switch_now(k: &mut Kernel) -> u64 {
    sched::request_switch(&mut k.smp, 0);
    let _ = switch::post_dispatch(
        &mut k.sched,
        &mut k.mem,
        &mut k.smp,
        &mut k.keys,
        0,
        0,
        0x80,
        true,
        &Regs::zero(),
    );
    sched::current_pid(&k.sched, &k.smp, 0)
}

#[test]
fn an_unhandled_signal_ends_the_task() {
    let mut k = kernel();
    let pid = start(&mut k, &["prog"]);
    let i = sched::find_pid(&k.sched, pid).unwrap();
    assert!(switch::send_signal(&mut k.sched, &k.smp, 0, pid, signal::SIGTERM).is_ok());
    assert_eq!(switch_now(&mut k), 3);
    assert_eq!(switch_now(&mut k), 1);
    assert_eq!(k.sched.tasks[i].state, State::Zombie);
    assert_eq!(k.sched.tasks[i].exit_code, 143);
}

#[test]
fn a_kill_ends_even_a_task_with_handlers() {
    let mut k = kernel();
    let pid = start(&mut k, &["prog"]);
    let i = sched::find_pid(&k.sched, pid).unwrap();
    k.sched.tasks[i].sig_handlers[9] = 0x40_0020;
    assert!(switch::send_signal(&mut k.sched, &k.smp, 0, pid, signal::SIGKILL).is_ok());
    assert_eq!(switch_now(&mut k), 3);
    assert_eq!(switch_now(&mut k), 1);
    assert_eq!(k.sched.tasks[i].state, State::Zombie);
    assert_eq!(k.sched.tasks[i].exit_code, 137);
}

#[test]
fn no_task_is_taken_up_twice() {
    let mut k = kernel();
    assert_eq!(switch_now(&mut k), 3);
    assert_eq!(k.sched.tasks[2].state, State::Running);
    assert_eq!(k.sched.tasks[2].on_cpu, 0);
    // processor 1 idles with a task of its own
    let slot = sched::spawn_ap_kidle(&mut k.sched, &mut k.mem, &k.smp, 0, 1, 0x1111).unwrap();
    sched::ap_go(&mut k.sched, &mut k.smp, 1, slot);
    sched::request_switch(&mut k.smp, 1);
    let _ = switch::post_dispatch(
        &mut k.sched,
        &mut k.mem,
        &mut k.smp,
        &mut k.keys,
        1,
        0,
        0x80,
        true,
        &Regs::zero(),
    );
    assert_ne!(sched::current_pid(&k.sched, &k.smp, 1), 3);
}

#[test]
fn tasks_take_turns() {
    let mut k = kernel();
    let mut seen = Vec::new();
    for _ in 0..4 {
        seen.push(switch_now(&mut k));
    }
    // the idle task runs only when nothing else can
    assert_eq!(seen, vec![3, 1, 3, 1]);
    // only the task that runs is on a processor
    assert_eq!((k.sched.tasks[0].on_cpu, k.sched.tasks[2].on_cpu), (0, sched::CPU_ANY));
    // without a request nothing changes
    let (_, r) = switch::post_dispatch(
        &mut k.sched,
        &mut k.mem,
        &mut k.smp,
        &mut k.keys,
        0,
        0,
        0x80,
        true,
        &Regs::zero(),
    );
    assert!(r.is_none());
    assert_eq!(status::online_count(&k.smp), 1);
}

#[test]
fn sleepers_wake_in_time() {
    let mut k = kernel();
    switch::sys_sleep(&mut k.sched, &mut k.smp, 0, 100, 50);
    assert_eq!(k.sched.tasks[0].state, State::Sleeping);
    let mut tick = |now: u64| {
        let _ = switch::post_dispatch(
            &mut k.sched,
            &mut k.mem,
            &mut k.smp,
            &mut k.keys,
            0,
            now,
            0x60,
            true,
            &Regs::zero(),
        );
        k.sched.tasks[0].state
    };
    assert_eq!(tick(149), State::Sleeping);
    assert_ne!(tick(150), State::Sleeping);
}

#[test]
fn another_program_takes_over() {
    let mut k = kernel();
    let pid = start(&mut k, &["prog"]);
    let (i, mut r, cr3) = run(&mut k, pid);
    let used = frames::stats(&k.mem.frames).used;
    exec::replace_image(
        &mut k.sched,
        &mut k.mem,
        &k.smp,
        0,
        "/BIN/OTHER",
        &vec!["other".to_string()],
        Some(image()),
        &mut r,
    );
    assert_eq!(k.sched.tasks[i].name, b"OTHER".to_vec());
    assert_eq!((r.rip, r.rdi), (0x40_0000, 1));
    assert_ne!(k.sched.tasks[i].pml4, cr3);
    assert_eq!(frames::stats(&k.mem.frames).used, used);
    let mut r2 = r;
    exec::replace_image(&mut k.sched, &mut k.mem, &k.smp, 0, "/NONE", &vec![], None, &mut r2);
    assert_eq!(r2.rax, syscall::FAIL);
}

#[test]
fn a_fault_ends_the_program() {
    let mut k = kernel();
    let pid = start(&mut k, &["prog"]);
    let (i, _, _) = run(&mut k, pid);
    let (out, (p, swept)) = task::fault_and_terminate(&mut k.sched, &mut k.mem, &mut k.smp, 0, "page fault", "at 0x0");
    assert_eq!((p, swept.len()), (pid, 0));
    assert!(!out.is_empty());
    assert_eq!(k.sched.tasks[i].state, State::Zombie);
    assert_eq!(k.sched.tasks[i].exit_code, 139);
    let c = task::wait_for_child(4);
    assert_eq!((c.number, c.args.0), (7, 4));
}

#[test]
fn channels_carry_bytes() {
    let mut t = ChanTable::new();
    assert_eq!(ipc::open(&mut t, 5), 0);
    assert_eq!(ipc::open(&mut t, 5), 0);
    assert_eq!(ipc::open(&mut t, 0), 1);
    assert_eq!(ipc::send(&mut t, 0, b"hello", 3).ret, 5);
    assert_eq!(ipc::send(&mut t, 9, b"hello", 3).ret, -1);
    match ipc::recv(&mut t, 0, 3, 2) {
        Recv::Data(d) => assert_eq!(d, b"hel".to_vec()),
        Recv::Ret(_) => panic!(),
    }
    match ipc::recv(&mut t, 0, 64, 2) {
        Recv::Data(d) => assert_eq!(d, b"lo".to_vec()),
        Recv::Ret(_) => panic!(),
    }
    match ipc::recv(&mut t, 0, 64, 2) {
        Recv::Data(_) => panic!(),
        Recv::Ret(o) => assert_eq!((o.ret, o.park), (-2, true)),
    }
    // the next message wakes the reader
    assert_eq!(ipc::send(&mut t, 0, b"x", 3).wake, 3);
    for _ in 0..3 {
        assert_eq!(ipc::send(&mut t, 1, &[7; 64], 3).ret, 64);
    }
    assert_eq!(ipc::send(&mut t, 1, &[7; 64], 3).ret, 64);
    let o = ipc::send(&mut t, 1, &[7; 1], 3);
    assert_eq!((o.ret, o.park), (-2, true));
    assert_eq!(ipc::recv_delivered(&mut t, 1), 4);
    assert_eq!(ipc::for_each(&t).len(), 2);
    let text: String = status::cmd_ipc(&t).iter().map(|o| o.text.as_str()).collect();
    assert!(text.contains("256"));
}
