use std::collections::HashMap;

use glm_os::boot::{self, Stage};
use glm_os::console::Out;
use glm_os::cpu;
use glm_os::cpu::apic::{self, Apic};
use glm_os::cpu::gdt::{self, Tables};
use glm_os::cpu::keyboard::{self, Keyboard};
use glm_os::cpu::mouse::{self, Mouse};
use glm_os::cpu::pic;
use glm_os::cpu::pit::{self, Pit};
use glm_os::cpu::smp::{self, Smp};
use glm_os::disk::ahci::{self, Ahci, Io, ProbeNext, Reg, Started, TransferNext};
use glm_os::io::serial::SerialPort;
use glm_os::mem::frames::{self, Region};
use glm_os::mem::vmm::{self, AddressSpace, Memory};
use glm_os::shell::about::{self, Facts};
use glm_os::shell::status::{self, Answer, CpuAsk};
use glm_os::shell::system;
use glm_os::shell::{self, Verb};
use glm_os::sync::Spinlock;

fn said(v: &Vec<Out>) -> String {
    v.iter().map(|o| o.text.as_str()).collect()
}

#[test]
fn keys_are_decoded() {
    let mut k = Keyboard::new();
    for sc in [0x1E, 0x9E, 0x2A, 0x1E, 0xAA, 0x30, 0xE0, 0x1E, 0x1C, 0x0E] {
        keyboard::on_irq(&mut k, sc);
    }
    let mut got = Vec::new();
    while let Some(c) = keyboard::pop(&mut k) {
        got.push(c);
    }
    assert_eq!(got, b"aAb\n\x08".to_vec());
    // what does not fit is lost
    for _ in 0..600 {
        keyboard::on_irq(&mut k, 0x1E);
    }
    let mut n = 0;
    while keyboard::pop(&mut k).is_some() {
        n += 1;
    }
    assert_eq!(n, 511);
    keyboard::on_irq(&mut k, 0x1E);
    keyboard::drain(&mut k);
    assert_eq!(keyboard::pop(&mut k), None);
}

#[test]
fn mouse_packets_add_up() {
    let mut m = Mouse::new();
    for b in [0x08, 5, 3, 0x39, 0xFF, 0xFE] {
        mouse::on_irq(&mut m, b);
    }
    // the last byte asked for a resend: that packet is dropped
    assert_eq!((mouse::packets(&m), mouse::resyncs(&m)), (1, 1));
    assert_eq!(mouse::take(&mut m), (5, -3, 0));
    for b in [0x00, 0x39, 0xFF, 0xFD] {
        mouse::on_irq(&mut m, b);
    }
    assert_eq!(mouse::take(&mut m), (-1, 3, 1));
    assert_eq!(mouse::take(&mut m), (0, 0, 1));
    assert_eq!(mouse::buttons(&m), 1);
    assert!(!mouse::online(&m));
    assert!(mouse::init(&mut m, Some(0), true, true));
    assert!(mouse::online(&m));
    assert!(said(&system::cmd_mouse(&m)).contains("2"));
}

#[test]
fn the_timer_ticks() {
    let mut p = Pit { ticks: 0 };
    for _ in 0..123 {
        pit::tick(&mut p);
    }
    assert_eq!((pit::ticks(&p), pit::uptime_ms(&p)), (123, 1230));
    assert_eq!(pit::init(), vec![(0x43, 0x36), (0x40, 0x9B), (0x40, 0x2E)]);
    assert!(said(&about::cmd_uptime(1230, 123)).contains("123"));
}

#[test]
fn the_interrupt_controllers() {
    let w = pic::init();
    assert_eq!(w[0], (0x20, 0x11));
    assert_eq!(w[w.len() - 2..], [(0x21, 0xF8), (0xA1, 0xFF)]);
    assert_eq!((pic::eoi_master(), pic::eoi_slave()), ((0x20, 0x20), (0xA0, 0x20)));
    assert!(pic::isr_master_bit7(0x80) && !pic::isr_slave_bit7(0x7F));
    assert!(cpu::init().len() >= w.len());
    assert_eq!(cpu::reboot(true, 0), Some((0xCF9, 0x0E)));
    assert_eq!(cpu::reboot(false, 0), Some((0x64, 0xFE)));
    assert_eq!(cpu::reboot(false, 2), None);
}

#[test]
fn the_local_controller() {
    let mut m = Memory::new();
    frames::init(&mut m.frames, &vec![Region { base: 0x10_0000, length: 0x10_0000, usable: true }]);
    let k = AddressSpace::new_user(&mut m).unwrap();
    vmm::init(&mut m, k.pml4);
    let mut a = Apic::new();
    assert!(apic::eoi(&a).is_none());
    assert!(!apic::init(&mut a, &mut m, 0));
    assert!(apic::init(&mut a, &mut m, 0xFEE0_0900));
    assert_eq!(k.translate(&m, vmm::LAPIC_VIRT), Some(0xFEE0_0000));
    let w = apic::start_timer(&mut a, 0xFFFF_FFFF - 1_000_000);
    assert!(apic::online(&a));
    assert!(w.iter().any(|x| x.0 == apic::REG_TIMER_ICR));
    assert_eq!(apic::eoi(&a).map(|x| x.1), Some(0));
    assert_eq!(apic::id_of(0x0500_0000), 5);
}

#[test]
fn the_segment_tables() {
    let mut t = Tables::new();
    assert_eq!(gdt::init(&mut t, 0x1000, 0x8000, 0x9000), 55);
    gdt::set_rsp0(&mut t, 0, 0x7777);
    assert_eq!(t.tss[0].rsp0, 0x7777);
    assert_eq!(t.gdt[0].null, 0);
    assert_eq!(gdt::init_cpu(&mut t, 3, 0x2000, 0x8000, 0x9000), 55);
    assert_eq!(t.tss[3].iopb, 104);
}

#[test]
fn processors_report_in() {
    let mut s = Smp::new();
    smp::init(&mut s, 7, &Some(vec![3, 7, 9]));
    assert_eq!(smp::cpu_count(&s), 3);
    assert_eq!(smp::lapic_id_of(&s, 0), 7);
    assert_eq!(smp::index_of(&s, 9), Some(2));
    assert_eq!(smp::index_of(&s, 4), None);
    assert_eq!(smp::start_aps(&s, 7, &vec![3, 7, 9]), vec![(1, 3), (2, 9)]);
    assert!(smp::keep_waiting(&s, 1, 0, 10));
    smp::report_in(&mut s, 1);
    assert!(!smp::keep_waiting(&s, 1, 0, 10));
    assert!(!smp::keep_waiting(&s, 2, 0, 1000));
    assert_eq!(smp::online_mask(&s), 3);
    assert!(smp::send_test_ipi(&s, 2).is_err());
    assert_eq!(smp::send_test_ipi(&s, 1), Ok((3, 0x70)));
    smp::on_ipi_received(&mut s, true, 3);
    assert_eq!(smp::ipi_recv(&s, 1), 1);
    smp::request_switch(&mut s, 1);
    assert!(smp::take_switch_request(&mut s, 1));
    assert!(!smp::take_switch_request(&mut s, 1));
}

#[test]
fn the_serial_line() {
    let p = SerialPort::new(0x3F8);
    assert_eq!(p.init()[0], (0x3F9, 0));
    assert_eq!(p.write_bytes(b"a\nb"), b"a\r\nb".to_vec());
    assert!(p.transmit_empty(0x20) && !p.transmit_empty(0x40));
}

#[test]
fn a_lock_is_held_once() {
    let mut l = Spinlock::new(5);
    let g = l.lock(0x202).unwrap();
    assert!(l.lock(0x46).is_none());
    assert_eq!(l.unlock(g), 0x202);
    assert!(l.lock(0x46).is_some());
}

/// A controller with one disk on port 0 of slot 3.
struct Controller {
    regs: HashMap<u32, u32>,
    disk: Vec<u8>,
    fail: bool,
}

impl Controller {
    fn new() -> Controller {
        let mut disk = vec![0u8; 200 * 512];
        for i in 0..disk.len() {
            disk[i] = (i / 512) as u8;
        }
        Controller { regs: HashMap::new(), disk, fail: false }
    }

    fn command(&mut self, m: &mut Memory) {
        let b = |m: &Memory, a: u64, n: u64| (0..n).fold(0u64, |x, i| x | (m.ram.byte(a + i) as u64) << (8 * i));
        let clb = self.regs[&ahci::P_CLB] as u64;
        let ct = b(m, clb + 8, 8);
        let dba = b(m, ct + 0x80, 8);
        let lba = (b(m, ct + 4, 3) | b(m, ct + 8, 3) << 24) as usize;
        let n = b(m, ct + 12, 2) as usize;
        match b(m, ct + 2, 1) as u8 {
            ahci::ATA_IDENTIFY => {
                let mut id = vec![0u8; 512];
                id[200] = 200;
                id[54..58].copy_from_slice(b"EQUM");
                for i in 58..94 {
                    id[i] = b' ';
                }
                for i in 0..512 {
                    m.ram.set_byte(dba + i, id[i as usize]);
                }
            },
            ahci::ATA_READ_DMA_EXT => for i in 0..n * 512 {
                m.ram.set_byte(dba + i as u64, self.disk[lba * 512 + i]);
            },
            ahci::ATA_WRITE_DMA_EXT => for i in 0..n * 512 {
                self.disk[lba * 512 + i] = m.ram.byte(dba + i as u64);
            },
            _ => panic!(),
        }
    }

    fn answer(&mut self, m: &mut Memory, io: &Io) -> u32 {
        for (r, v) in &io.writes {
            if let Reg::Port { off, .. } = r {
                self.regs.insert(*off, *v);
                if *off == ahci::P_CI && *v == 1 && !self.fail {
                    self.command(m);
                }
            }
        }
        match io.read {
            Reg::Config { dev: 3, fun: 0, off: 0 } => 0x2922_8086,
            Reg::Config { dev: 3, fun: 0, off: 8 } => 0x0106_0102,
            Reg::Config { dev: 3, fun: 0, off: 0x24 } => 0xFEBF_1000,
            Reg::Config { dev: 3, fun: 0, .. } => 0,
            Reg::Config { .. } => 0xFFFF_FFFF,
            Reg::Host { off } if off == ahci::PI => 1,
            Reg::Port { off, .. } if off == ahci::P_SSTS => 0x123,
            Reg::Port { off, .. } if off == ahci::P_SIG => ahci::SIG_ATA,
            Reg::Port { off, .. } if off == ahci::P_CMD => *self.regs.get(&off).unwrap_or(&0),
            Reg::Port { off, .. } if off == ahci::P_TFD => if self.fail { 1 } else { 0x50 },
            _ => 0,
        }
    }
}

fn machine() -> Memory {
    let mut m = Memory::new();
    frames::init(&mut m.frames, &vec![Region { base: 0x10_0000, length: 0x40_0000, usable: true }]);
    let k = AddressSpace::new_user(&mut m).unwrap();
    vmm::init(&mut m, k.pml4);
    m
}

fn find(m: &mut Memory, c: &mut Controller) -> Option<Ahci> {
    let (mut s, mut io) = ahci::probe();
    loop {
        let v = c.answer(m, &io);
        match ahci::probe_step(m, s, v) {
            ProbeNext::More(t, n) => {
                s = t;
                io = n;
            },
            ProbeNext::Over(r) => return r,
        }
    }
}

fn transfer(m: &mut Memory, c: &mut Controller, d: &Ahci, s: Started) -> Result<Vec<u8>, &'static str> {
    match s {
        Started::Nothing => Ok(vec![]),
        Started::Io(mut t, mut io) => loop {
            let v = c.answer(m, &io);
            match ahci::transfer_step(&d.hba, m, &mut t, v) {
                TransferNext::More(n) => io = n,
                TransferNext::Over(Ok(())) => return Ok(t.data),
                TransferNext::Over(Err(e)) => return Err(e),
            }
        },
    }
}

#[test]
fn a_disk_is_found_and_used() {
    let mut m = machine();
    let mut c = Controller::new();
    let d = find(&mut m, &mut c).unwrap();
    assert_eq!(d.sectors, 200);
    assert!(d.describe().contains("QEMU"));
    let s = d.start_read(&mut m, 100, 70, 70 * 512).ok().unwrap();
    let data = transfer(&mut m, &mut c, &d, s).unwrap();
    assert_eq!(data.len(), 70 * 512);
    assert_eq!((data[0], data[69 * 512]), (100, 169));
    let s = d.start_write(&mut m, 5, 2, &[9; 1024]).ok().unwrap();
    assert!(transfer(&mut m, &mut c, &d, s).is_ok());
    assert_eq!((c.disk[4 * 512], c.disk[5 * 512], c.disk[7 * 512 - 1], c.disk[7 * 512]), (4, 9, 9, 7));
    assert_eq!(d.start_read(&mut m, 199, 2, 1024).err(), Some("ahci: read past end of disk"));
    assert_eq!(d.start_read(&mut m, 0, 2, 1023).err(), Some("ahci: buffer too small"));
    assert_eq!(d.start_write(&mut m, 199, 2, &[0; 1024]).err(), Some("ahci: write past end of disk"));
    assert_eq!(d.start_write(&mut m, 0, 2, &[0; 1023]).err(), Some("ahci: write buffer size mismatch"));
    let s = d.start_read(&mut m, 3, 0, 0).ok().unwrap();
    assert_eq!(transfer(&mut m, &mut c, &d, s), Ok(vec![]));
    c.fail = true;
    let s = d.start_read(&mut m, 0, 1, 512).ok().unwrap();
    assert_eq!(transfer(&mut m, &mut c, &d, s), Err("ahci: command failed (timeout or TFES/ERR)"));
}

#[test]
fn commands_are_told_apart() {
    assert!(shell::execute(b"   ", false).is_none());
    let c = shell::execute(b"  echo  hello  world ", false).unwrap();
    assert_eq!((c.verb, c.rest.as_str()), (Verb::Echo, "hello  world"));
    let c = shell::execute(b"bogus x", false).unwrap();
    assert_eq!((c.verb, c.rest.as_str()), (Verb::Unknown, "bogus"));
    assert_eq!(said(&about::say_unknown("bogus")), "glmsh: unknown command: bogus (try 'help')\n");
    assert_eq!(shell::execute(b"help", false).unwrap().verb, Verb::Help);
    assert_eq!(shell::execute(b"exit", true).unwrap().verb, Verb::Leave);
    assert_eq!(shell::execute(b"exit", false).unwrap().verb, Verb::Unknown);
    assert_eq!(shell::execute(b"drun x y", false).unwrap().rest, "x y");
    // names are text; bytes that are not count as none
    let c = shell::execute("\u{e9}cho x".as_bytes(), false).unwrap();
    assert_eq!((c.verb, c.rest.as_str()), (Verb::Unknown, "\u{e9}cho"));
    let c = shell::execute(b"\xFF\xFE x", false).unwrap();
    assert_eq!((c.verb, c.rest.as_str()), (Verb::Unknown, ""));
}

#[test]
fn what_commands_print() {
    assert!(about::cmd_help().len() >= about::HELP_COUNT);
    assert_eq!(said(&about::cmd_echo("a b")), "a b\n");
    let f = Facts {
        boot_version: Some("10.3"),
        uptime_ms: 61_000,
        cpus: 4,
        cpus_online: 2,
        timer_hz: 250,
        switches: 99,
        files: 3,
    };
    let s = said(&about::cmd_neofetch(&f));
    assert!(s.contains("10.3") && s.contains("99"));
    assert_eq!(status::parse_cpu(""), CpuAsk::Table);
    assert_eq!(status::parse_cpu("ipi 3"), CpuAsk::Ipi(3));
    assert_eq!(status::parse_cpu("ipi x"), CpuAsk::IpiUsage);
    assert_eq!(status::parse_cpu("what"), CpuAsk::Usage);
    assert_eq!(status::ipi_answer(3, 4), Answer::Taken(4));
    assert_eq!(status::ipi_answer(3, 3), Answer::Silence);
    assert!(status::ipi_waits(3, 3, 0, 19));
    assert!(!status::ipi_waits(3, 3, 0, 20));
    assert!(!status::ipi_waits(3, 4, 0, 0));
    assert_eq!(status::cmd_sleep("250").0, Some(250));
    assert_eq!(status::cmd_sleep("soon").0, None);
    let mut m = machine();
    assert!(said(&system::cmd_mem(&frames::stats(&m.frames), &None)).contains("frames"));
    let (_, rig) = vmm::self_test(&mut m);
    assert!(rig.is_some());
}

#[test]
fn the_boot_log() {
    assert!(!boot::banner().is_empty());
    assert!(!boot::say_ready().is_empty());
    let s = said(&boot::log_stage(&Stage::Framebuffer(Some((1024, 768, 4096)))));
    assert!(s.contains("1024") && s.contains("768"));
    let s = said(&boot::log_stage(&Stage::Ramdisk(Err("bad BPB"))));
    assert!(s.contains("bad BPB"));
}
