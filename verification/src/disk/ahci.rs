//! A SATA disk behind an AHCI controller. Commands go through slot 0 of one
//! port and are polled. The registers themselves are the caller's: a step
//! says what to write and what to read, and the next one takes what was read.

use vstd::prelude::*;
use vstd::string::StringExecFns;

use crate::bytes::get_le8;
use crate::disk::SECTOR;
use crate::mem::frames::alloc_contig;
use crate::mem::vmm::{map_kernel_page, MemV, Memory, NO_CACHE, NO_EXECUTE, PRESENT, WRITABLE};
use crate::text::{latin1, push_char, push_dec};

verus! {

/// Where the registers of the controller are mapped.
pub const AHCI_VIRT: u64 = 0xFFFF_FFFF_FE80_0000;

/// Global host control.
pub const GHC: u32 = 0x04;

/// AHCI enable.
pub const GHC_AE: u32 = 0x8000_0000;

/// Ports implemented.
pub const PI: u32 = 0x0C;

pub const P_CLB: u32 = 0x00;

pub const P_CLBU: u32 = 0x04;

pub const P_FB: u32 = 0x08;

pub const P_FBU: u32 = 0x0C;

pub const P_IS: u32 = 0x10;

pub const P_IE: u32 = 0x14;

pub const P_CMD: u32 = 0x18;

pub const P_TFD: u32 = 0x20;

pub const P_SIG: u32 = 0x24;

pub const P_SSTS: u32 = 0x28;

pub const P_CI: u32 = 0x38;

/// Start.
pub const CMD_ST: u32 = 1;

/// FIS receive enable.
pub const CMD_FRE: u32 = 4;

/// Spin the device up.
pub const CMD_SUD: u32 = 0x10;

/// FIS receive running.
pub const CMD_FR: u32 = 0x4000;

/// Command list running.
pub const CMD_CR: u32 = 0x8000;

pub const SSTS_DET: u32 = 0xF;

/// A device is there.
pub const DET_PRESENT: u32 = 3;

/// The signature of a disk.
pub const SIG_ATA: u32 = 0x0000_0101;

/// Every status bit that a write clears.
pub const IS_ERR_MASK: u32 = 0x7FFF_FFFF;

/// Task file error.
pub const IS_TFES: u32 = 0x4000_0000;

pub const FIS_H2D: u8 = 0x27;

pub const ATA_IDENTIFY: u8 = 0xEC;

pub const ATA_READ_DMA_EXT: u8 = 0x25;

pub const ATA_WRITE_DMA_EXT: u8 = 0x35;

/// Sectors that one command moves.
pub const CHUNK_SECTORS: usize = 64;

/// Bytes that one command moves.
pub const CHUNK: usize = 0x8000;

/// How often a command is polled before it has failed.
pub const CMD_POLLS: u64 = 20_000_000;

/// How often the port is polled before it counts as stopped.
pub const STOP_POLLS: u32 = 1_000_000;

/// A register: in the configuration space of a function on bus 0, of the
/// host, or of a port; or none, of which nothing is read.
#[derive(Clone, Copy, PartialEq, Eq, Structural, Debug)]
pub enum Reg {
    Nothing,
    Config { dev: u8, fun: u8, off: u32 },
    Host { off: u32 },
    Port { port: u32, off: u32 },
}

/// What a step asks for: the writes in order, then one read.
pub struct Io {
    pub writes: Vec<(Reg, u32)>,
    pub read: Reg,
}

pub struct IoV {
    pub writes: Seq<(Reg, u32)>,
    pub read: Reg,
}

impl Io {
    pub open spec fn view(&self) -> IoV {
        IoV { writes: self.writes@, read: self.read }
    }
}

/// The port of a disk and its memory: command list, received FIS, command
/// table, and the buffer that transfers go through.
#[derive(Clone, Copy, PartialEq, Eq, Structural, Debug)]
pub struct Hba {
    pub port: u32,
    pub clb_phys: u64,
    pub fb_phys: u64,
    pub ct_phys: u64,
    pub scratch_phys: u64,
}

/// A disk.
pub struct Ahci {
    pub hba: Hba,
    pub sectors: u64,
    pub model: String,
}

pub struct AhciV {
    pub hba: Hba,
    pub sectors: u64,
    pub model: Seq<char>,
}

impl Ahci {
    pub open spec fn view(&self) -> AhciV {
        AhciV { hba: self.hba, sectors: self.sectors, model: self.model@ }
    }
}

fn read_of(r: Reg) -> (io: Io)
    ensures
        io@ == (IoV { writes: Seq::empty(), read: r }),
{
    let io = Io { writes: Vec::new(), read: r };
    assert(io@.writes =~= Seq::<(Reg, u32)>::empty());
    io
}

fn write_of(r: Reg, v: u32, then_read: Reg) -> (io: Io)
    ensures
        io@ == (IoV { writes: seq![(r, v)], read: then_read }),
{
    let mut w: Vec<(Reg, u32)> = Vec::new();
    w.push((r, v));
    let io = Io { writes: w, read: then_read };
    assert(io@.writes =~= seq![(r, v)]);
    io
}

// ---------------------------------------------------------------------------
// One command
// ---------------------------------------------------------------------------
/// Byte `k` of a number.
pub open spec fn byte_k(x: u64, k: u64) -> u8 {
    ((x >> (8 * k) as u64) & 0xFF) as u8
}

/// The command FIS, to a host device register, padded to two words: command,
/// 48-bit sector number, count.
pub open spec fn fis_bytes(cmd: u8, lba: u64, count: u16) -> Seq<u8> {
    seq![
        FIS_H2D,
        0x80u8,
        cmd,
        0u8,
        byte_k(lba, 0),
        byte_k(lba, 1),
        byte_k(lba, 2),
        0x40u8 | (((lba >> 24u64) & 0x0F) as u8),
        0u8,
        byte_k(lba, 3),
        byte_k(lba, 4),
        byte_k(lba, 5),
        (count & 0xFF) as u8,
        (count >> 8u16) as u8,
        0u8,
        0u8,
    ]
}

/// The command table: the FIS, zeros up to the descriptor, and the one
/// descriptor of the buffer.
pub open spec fn table_words(cmd: u8, lba: u64, count: u16, buf: u64, bytes: u32) -> Seq<u64> {
    let f = fis_bytes(cmd, lba, count);
    Seq::new(
        18,
        |i: int|
            if i == 0 {
                crate::bytes::rd_le8(f, 0)
            } else if i == 1 {
                crate::bytes::rd_le8(f, 8)
            } else if i == 16 {
                buf
            } else if i == 17 {
                ((((bytes - 1) as u32) & 0x3F_FFFF) as u64) << 32u64
            } else {
                0
            },
    )
}

/// The entry of slot 0 in the command list: a FIS of five dwords, the
/// direction, one descriptor, and where the table is.
pub open spec fn list_words(write: bool, ct: u64) -> Seq<u64> {
    seq![
        if write {
            0x1_0045u64
        } else {
            0x1_0005u64
        },
        ct,
    ]
}

/// Memory with the words from `i` on at the start of the frame at `pa`.
pub open spec fn words_laid(ram: Map<u64, Seq<u64>>, pa: u64, w: Seq<u64>, i: int) -> Map<u64, Seq<u64>>
    decreases w.len() - i,
{
    if i < 0 || i >= w.len() {
        ram
    } else {
        words_laid(crate::mem::phys::with_word(ram, pa, i, w[i]), pa, w, i + 1)
    }
}

/// Memory with a command in slot 0.
pub open spec fn command_laid(
    ram: Map<u64, Seq<u64>>,
    h: Hba,
    cmd: u8,
    write: bool,
    lba: u64,
    count: u16,
    bytes: u32,
) -> Map<u64, Seq<u64>> {
    let t = words_laid(ram, h.ct_phys, table_words(cmd, lba, count, h.scratch_phys, bytes), 0);
    words_laid(t, h.clb_phys, list_words(write, h.ct_phys), 0)
}

fn put_words(m: &mut Memory, pa: u64, w: &Vec<u64>)
    requires
        old(m).wf(),
        w@.len() <= 512,
    ensures
        final(m).wf(),
        final(m)@ == (MemV { ram: words_laid(old(m)@.ram, pa, w@, 0), ..old(m)@ }),
{
    let n: usize = w.len();
    let mut i: usize = 0;
    while i < n
        invariant
            i <= n,
            n == w@.len(),
            n <= 512,
            m.wf(),
            m@ == (MemV { ram: m@.ram, ..old(m)@ }),
            words_laid(m@.ram, pa, w@, i as int) == words_laid(old(m)@.ram, pa, w@, 0),
        decreases n - i,
    {
        m.ram.set_word(pa, i, w[i]);
        i = i + 1;
    }
}

fn fis(cmd: u8, lba: u64, count: u16) -> (v: Vec<u8>)
    ensures
        v@ == fis_bytes(cmd, lba, count),
{
    let mut v: Vec<u8> = Vec::new();
    v.push(FIS_H2D);
    v.push(0x80);
    v.push(cmd);
    v.push(0);
    v.push(((lba >> 0u64) & 0xFF) as u8);
    v.push(((lba >> 8u64) & 0xFF) as u8);
    v.push(((lba >> 16u64) & 0xFF) as u8);
    v.push(0x40u8 | ((lba >> 24u64) & 0x0F) as u8);
    v.push(0);
    v.push(((lba >> 24u64) & 0xFF) as u8);
    v.push(((lba >> 32u64) & 0xFF) as u8);
    v.push(((lba >> 40u64) & 0xFF) as u8);
    v.push((count & 0xFF) as u8);
    v.push((count >> 8u16) as u8);
    v.push(0);
    v.push(0);
    assert(v@ =~= fis_bytes(cmd, lba, count));
    v
}

fn lay_command(m: &mut Memory, h: &Hba, cmd: u8, write: bool, lba: u64, count: u16, bytes: u32)
    requires
        old(m).wf(),
        bytes > 0,
    ensures
        final(m).wf(),
        final(m)@ == (MemV { ram: command_laid(old(m)@.ram, *h, cmd, write, lba, count, bytes), ..old(m)@ }),
{
    let f = fis(cmd, lba, count);
    let mut t: Vec<u64> = Vec::new();
    t.push(get_le8(f.as_slice(), 0));
    t.push(get_le8(f.as_slice(), 8));
    while t.len() < 16
        invariant
            2 <= t@.len() <= 16,
            t@[0] == crate::bytes::rd_le8(f@, 0),
            t@[1] == crate::bytes::rd_le8(f@, 8),
            forall|i: int| 2 <= i < t@.len() ==> t@[i] == 0,
        decreases 16 - t@.len(),
    {
        t.push(0);
    }
    t.push(h.scratch_phys);
    t.push((((bytes - 1) & 0x3F_FFFF) as u64) << 32u64);
    assert(t@ =~= table_words(cmd, lba, count, h.scratch_phys, bytes));
    put_words(m, h.ct_phys, &t);
    let mut l: Vec<u64> = Vec::new();
    l.push(if write {
        0x1_0045
    } else {
        0x1_0005
    });
    l.push(h.ct_phys);
    assert(l@ =~= list_words(write, h.ct_phys));
    put_words(m, h.clb_phys, &l);
}

/// How far a command is: it waits for the command register, polls, or reads
/// its status.
#[derive(Clone, Copy, PartialEq, Eq, Structural, Debug)]
pub enum Issue {
    Go,
    Poll { n: u64 },
    Status { done: bool },
    Task { good: bool },
}

/// The registers that start a command.
pub open spec fn issue_start(h: Hba) -> IoV {
    IoV {
        writes: seq![(Reg::Port { port: h.port, off: P_IS }, IS_ERR_MASK)],
        read: Reg::Port { port: h.port, off: P_CMD },
    }
}

/// One step of a command; `v` is what was read. It is over when the answer
/// is given: whether it succeeded.
pub enum IssueNext {
    More(Issue, Io),
    Over(bool),
}

pub enum IssueNextV {
    More(Issue, IoV),
    Over(bool),
}

impl IssueNext {
    pub open spec fn view(&self) -> IssueNextV {
        match *self {
            IssueNext::More(s, io) => IssueNextV::More(s, io@),
            IssueNext::Over(b) => IssueNextV::Over(b),
        }
    }
}

pub open spec fn issue_spec(h: Hba, s: Issue, v: u32) -> IssueNextV {
    let ci = Reg::Port { port: h.port, off: P_CI };
    let is = Reg::Port { port: h.port, off: P_IS };
    match s {
        Issue::Go => IssueNextV::More(
            Issue::Poll { n: 0 },
            IoV { writes: seq![(Reg::Port { port: h.port, off: P_CMD }, v | CMD_ST), (ci, 1u32)], read: ci },
        ),
        Issue::Poll { n } => if v & 1 == 0 {
            IssueNextV::More(Issue::Status { done: true }, IoV { writes: Seq::empty(), read: is })
        } else if n + 1 < CMD_POLLS {
            IssueNextV::More(Issue::Poll { n: (n + 1) as u64 }, IoV { writes: Seq::empty(), read: ci })
        } else {
            IssueNextV::More(Issue::Status { done: false }, IoV { writes: Seq::empty(), read: is })
        },
        Issue::Status { done } => IssueNextV::More(
            Issue::Task { good: done && v & IS_TFES == 0 },
            IoV { writes: seq![(is, v & IS_ERR_MASK)], read: Reg::Port { port: h.port, off: P_TFD } },
        ),
        Issue::Task { good } => IssueNextV::Over(good && v & 1 == 0),
    }
}

/// Goes on with a command.
pub fn issue_step(h: &Hba, s: Issue, v: u32) -> (r: IssueNext)
    ensures
        r@ == issue_spec(*h, s, v),
{
    let ci = Reg::Port { port: h.port, off: P_CI };
    let is = Reg::Port { port: h.port, off: P_IS };
    match s {
        Issue::Go => {
            let mut w: Vec<(Reg, u32)> = Vec::new();
            w.push((Reg::Port { port: h.port, off: P_CMD }, v | CMD_ST));
            w.push((ci, 1));
            assert(w@ =~= seq![(Reg::Port { port: h.port, off: P_CMD }, v | CMD_ST), (ci, 1u32)]);
            IssueNext::More(Issue::Poll { n: 0 }, Io { writes: w, read: ci })
        },
        Issue::Poll { n } => {
            if v & 1 == 0 {
                IssueNext::More(Issue::Status { done: true }, read_of(is))
            } else if n < CMD_POLLS - 1 {
                IssueNext::More(Issue::Poll { n: n + 1 }, read_of(ci))
            } else {
                IssueNext::More(Issue::Status { done: false }, read_of(is))
            }
        },
        Issue::Status { done } => IssueNext::More(
            Issue::Task { good: done && v & IS_TFES == 0 },
            write_of(is, v & IS_ERR_MASK, Reg::Port { port: h.port, off: P_TFD }),
        ),
        Issue::Task { good } => IssueNext::Over(good && v & 1 == 0),
    }
}

// ---------------------------------------------------------------------------
// Transfers
// ---------------------------------------------------------------------------
/// A transfer under way: the bytes that are to be written, or those that were
/// read so far, and the command that moves the next ones.
pub struct Transfer {
    pub write: bool,
    pub lba: u64,
    pub total: usize,
    pub done: usize,
    pub data: Vec<u8>,
    pub at: Issue,
}

#[verifier::ext_equal]
pub struct TransferV {
    pub write: bool,
    pub lba: u64,
    pub total: nat,
    pub done: nat,
    pub data: Seq<u8>,
    pub at: Issue,
}

impl Transfer {
    pub open spec fn view(&self) -> TransferV {
        TransferV {
            write: self.write,
            lba: self.lba,
            total: self.total as nat,
            done: self.done as nat,
            data: self.data@,
            at: self.at,
        }
    }
}

impl TransferV {
    pub open spec fn wf(self) -> bool {
        &&& self.done < self.total
        &&& self.total % 512 == 0
        &&& self.lba + self.total / 512 <= u64::MAX
        &&& self.write ==> self.data.len() == self.total
        &&& !self.write ==> self.data.len() == self.done
    }

    /// How many bytes the next command moves.
    pub open spec fn chunk(self) -> int {
        if self.total - self.done < CHUNK {
            self.total - self.done
        } else {
            CHUNK as int
        }
    }

    /// The sector at which the next command starts.
    pub open spec fn chunk_lba(self) -> int {
        self.lba + self.done / 512
    }
}

/// Memory with bytes from `i` on at a physical address.
pub open spec fn bytes_laid(ram: Map<u64, Seq<u64>>, pa: u64, b: Seq<u8>, i: int) -> Map<u64, Seq<u64>>
    decreases b.len() - i,
{
    if i < 0 || i >= b.len() {
        ram
    } else {
        bytes_laid(crate::mem::phys::with_byte_at(ram, pa.wrapping_add(i as u64), b[i]), pa, b, i + 1)
    }
}

/// The `n` bytes at a physical address.
pub open spec fn bytes_at(ram: Map<u64, Seq<u64>>, pa: u64, n: int) -> Seq<u8> {
    Seq::new(n as nat, |i: int| crate::mem::phys::byte_at(ram, pa.wrapping_add(i as u64)))
}

/// Memory once the next command of a transfer is laid down: for a write the
/// bytes are in the buffer.
pub open spec fn chunk_laid(m: MemV, h: Hba, t: TransferV) -> MemV {
    let n = t.chunk();
    let ram = if t.write {
        bytes_laid(m.ram, h.scratch_phys, t.data.subrange(t.done as int, t.done + n), 0)
    } else {
        m.ram
    };
    MemV {
        ram: command_laid(
            ram,
            h,
            if t.write {
                ATA_WRITE_DMA_EXT
            } else {
                ATA_READ_DMA_EXT
            },
            t.write,
            t.chunk_lba() as u64,
            (n / 512) as u16,
            n as u32,
        ),
        ..m
    }
}

/// The transfer after its command succeeded; what was read is in the buffer.
pub open spec fn chunk_over(m: MemV, h: Hba, t: TransferV) -> TransferV {
    TransferV {
        done: (t.done + t.chunk()) as nat,
        data: if t.write {
            t.data
        } else {
            t.data + bytes_at(m.ram, h.scratch_phys, t.chunk())
        },
        at: Issue::Go,
        ..t
    }
}

pub enum TransferNext {
    More(Io),
    Over(Result<(), &'static str>),
}

pub enum TransferNextV {
    More(IoV),
    Over(Result<(), Seq<char>>),
}

pub open spec fn transfer_next_is(r: TransferNext, x: TransferNextV) -> bool {
    match (r, x) {
        (TransferNext::More(io), TransferNextV::More(y)) => io@ == y,
        (TransferNext::Over(a), TransferNextV::Over(b)) => crate::text::told(a, b),
        _ => false,
    }
}

/// One step of a transfer: its command goes on; when it is done, the next one
/// starts, or the transfer is over.
pub open spec fn transfer_spec(m: MemV, h: Hba, t: TransferV, v: u32) -> (MemV, TransferV, TransferNextV) {
    match issue_spec(h, t.at, v) {
        IssueNextV::More(at, io) => (m, TransferV { at, ..t }, TransferNextV::More(io)),
        IssueNextV::Over(good) => if !good {
            (m, t, TransferNextV::Over(Err("ahci: command failed (timeout or TFES/ERR)"@)))
        } else {
            let u = chunk_over(m, h, t);
            if u.done < u.total {
                (chunk_laid(m, h, u), u, TransferNextV::More(issue_start(h)))
            } else {
                (m, u, TransferNextV::Over(Ok(())))
            }
        },
    }
}

fn put_bytes_at(m: &mut Memory, pa: u64, data: &Vec<u8>, from: usize, n: usize)
    requires
        old(m).wf(),
        from + n <= data@.len(),
    ensures
        final(m).wf(),
        final(m)@ == (MemV {
            ram: bytes_laid(old(m)@.ram, pa, data@.subrange(from as int, from + n), 0),
            ..old(m)@
        }),
{
    let ghost b = data@.subrange(from as int, from + n);
    let len: usize = data.len();
    let mut i: usize = 0;
    while i < n
        invariant
            i <= n,
            from + n <= len,
            len == data@.len(),
            b == data@.subrange(from as int, from + n),
            m.wf(),
            m@ == (MemV { ram: m@.ram, ..old(m)@ }),
            bytes_laid(m@.ram, pa, b, i as int) == bytes_laid(old(m)@.ram, pa, b, 0),
        decreases n - i,
    {
        m.ram.set_byte(pa.wrapping_add(i as u64), data[from + i]);
        i = i + 1;
    }
}

fn take_bytes_at(m: &Memory, pa: u64, out: &mut Vec<u8>, n: usize)
    requires
        m.wf(),
    ensures
        final(out)@ == old(out)@ + bytes_at(m@.ram, pa, n as int),
{
    let mut i: usize = 0;
    assert(out@ =~= old(out)@ + bytes_at(m@.ram, pa, 0));
    while i < n
        invariant
            i <= n,
            m.wf(),
            out@ == old(out)@ + bytes_at(m@.ram, pa, i as int),
        decreases n - i,
    {
        out.push(m.ram.byte(pa.wrapping_add(i as u64)));
        i = i + 1;
        assert(out@ =~= old(out)@ + bytes_at(m@.ram, pa, i as int));
    }
}

fn chunk_len(t: &Transfer) -> (n: usize)
    requires
        t@.wf(),
    ensures
        n == t@.chunk(),
        0 < n <= CHUNK,
{
    let left: usize = t.total - t.done;
    if left < CHUNK {
        left
    } else {
        CHUNK
    }
}

fn lay_chunk(m: &mut Memory, h: &Hba, t: &Transfer)
    requires
        old(m).wf(),
        t@.wf(),
    ensures
        final(m).wf(),
        final(m)@ == chunk_laid(old(m)@, *h, t@),
{
    let n: usize = chunk_len(t);
    if t.write {
        put_bytes_at(m, h.scratch_phys, &t.data, t.done, n);
    }
    let cmd: u8 = if t.write {
        ATA_WRITE_DMA_EXT
    } else {
        ATA_READ_DMA_EXT
    };
    lay_command(m, h, cmd, t.write, t.lba + (t.done / SECTOR) as u64, (n / SECTOR) as u16, n as u32);
}

/// Goes on with a transfer; `v` is what was read.
pub fn transfer_step(h: &Hba, m: &mut Memory, t: &mut Transfer, v: u32) -> (r: TransferNext)
    requires
        old(m).wf(),
        old(t)@.wf(),
    ensures
        final(m).wf(),
        ({
            let (m1, u, x) = transfer_spec(old(m)@, *h, old(t)@, v);
            final(m)@ == m1 && final(t)@ == u && transfer_next_is(r, x)
        }),
        r is More ==> final(t)@.wf(),
{
    match issue_step(h, t.at, v) {
        IssueNext::More(at, io) => {
            t.at = at;
            TransferNext::More(io)
        },
        IssueNext::Over(good) => {
            if !good {
                return TransferNext::Over(Err("ahci: command failed (timeout or TFES/ERR)"));
            }
            let n: usize = chunk_len(t);
            if !t.write {
                take_bytes_at(m, h.scratch_phys, &mut t.data, n);
            }
            t.done = t.done + n;
            t.at = Issue::Go;
            assert(t@ =~= chunk_over(old(m)@, *h, old(t)@));
            if t.done < t.total {
                lay_chunk(m, h, t);
                TransferNext::More(
                    write_of(
                        Reg::Port { port: h.port, off: P_IS },
                        IS_ERR_MASK,
                        Reg::Port { port: h.port, off: P_CMD },
                    ),
                )
            } else {
                TransferNext::Over(Ok(()))
            }
        },
    }
}

/// A transfer that was started: the first registers, or nothing if there is
/// nothing to move.
pub enum Started {
    Nothing,
    Io(Transfer, Io),
}

impl Ahci {
    /// Starts to read `count` sectors into a buffer of `room` bytes.
    pub fn start_read(&self, m: &mut Memory, lba: u64, count: u32, room: usize) -> (r: Result<Started, &'static str>)
        requires
            old(m).wf(),
            count * SECTOR <= usize::MAX,
        ensures
            final(m).wf(),
            lba + count > self.sectors ==> (r matches Err(e) && e@ == "ahci: read past end of disk"@),
            lba + count <= self.sectors && room < count * SECTOR ==> (r matches Err(e) && e@ == "ahci: buffer too small"@),
            lba + count <= self.sectors && room >= count * SECTOR && count == 0 ==> r matches Ok(Started::Nothing),
            lba + count <= self.sectors && room >= count * SECTOR && count > 0 ==> (r matches Ok(Started::Io(t, io))
                && t@.wf() && t@ == (TransferV {
                write: false,
                lba,
                total: (count * SECTOR) as nat,
                done: 0,
                data: Seq::empty(),
                at: Issue::Go,
            }) && io@ == issue_start(self.hba) && final(m)@ == chunk_laid(old(m)@, self.hba, t@)),
            !(r matches Ok(Started::Io(_, _))) ==> final(m)@ == old(m)@,
    {
        if lba > self.sectors || count as u64 > self.sectors - lba {
            return Err("ahci: read past end of disk");
        }
        let total: usize = count as usize * SECTOR;
        if room < total {
            return Err("ahci: buffer too small");
        }
        if total == 0 {
            return Ok(Started::Nothing);
        }
        let t = Transfer { write: false, lba, total, done: 0, data: Vec::new(), at: Issue::Go };
        assert(t@.data =~= Seq::<u8>::empty());
        assert(total / 512 == count && total % 512 == 0) by (nonlinear_arith)
            requires
                total == count * 512,
        ;
        lay_chunk(m, &self.hba, &t);
        let io = write_of(
            Reg::Port { port: self.hba.port, off: P_IS },
            IS_ERR_MASK,
            Reg::Port { port: self.hba.port, off: P_CMD },
        );
        Ok(Started::Io(t, io))
    }

    /// Starts to write `count` sectors.
    pub fn start_write(&self, m: &mut Memory, lba: u64, count: u32, data: &[u8]) -> (r: Result<Started, &'static str>)
        requires
            old(m).wf(),
            count * SECTOR <= usize::MAX,
        ensures
            final(m).wf(),
            lba + count > self.sectors ==> (r matches Err(e) && e@ == "ahci: write past end of disk"@),
            lba + count <= self.sectors && data@.len() != count * SECTOR ==> (r matches Err(e) && e@
                == "ahci: write buffer size mismatch"@),
            lba + count <= self.sectors && data@.len() == count * SECTOR && count == 0 ==> r matches Ok(
                Started::Nothing,
            ),
            lba + count <= self.sectors && data@.len() == count * SECTOR && count > 0 ==> (r matches Ok(
                Started::Io(t, io),
            ) && t@.wf() && t@ == (TransferV {
                write: true,
                lba,
                total: (count * SECTOR) as nat,
                done: 0,
                data: data@,
                at: Issue::Go,
            }) && io@ == issue_start(self.hba) && final(m)@ == chunk_laid(old(m)@, self.hba, t@)),
            !(r matches Ok(Started::Io(_, _))) ==> final(m)@ == old(m)@,
    {
        if lba > self.sectors || count as u64 > self.sectors - lba {
            return Err("ahci: write past end of disk");
        }
        let total: usize = count as usize * SECTOR;
        if data.len() != total {
            return Err("ahci: write buffer size mismatch");
        }
        if total == 0 {
            return Ok(Started::Nothing);
        }
        let t = Transfer {
            write: true,
            lba,
            total,
            done: 0,
            data: vstd::slice::slice_to_vec(data),
            at: Issue::Go,
        };
        assert(total / 512 == count && total % 512 == 0) by (nonlinear_arith)
            requires
                total == count * 512,
        ;
        lay_chunk(m, &self.hba, &t);
        let io = write_of(
            Reg::Port { port: self.hba.port, off: P_IS },
            IS_ERR_MASK,
            Reg::Port { port: self.hba.port, off: P_CMD },
        );
        Ok(Started::Io(t, io))
    }

    /// The device line.
    pub fn describe(&self) -> (s: String)
        ensures
            s@ == "sata disk, port "@ + crate::text::dec_text(self.hba.port as nat) + ", \""@ + self.model@ + "\", "@
                + crate::text::dec_text(self.sectors as nat) + " sectors ("@ + crate::text::dec_text(
                (self.sectors / 2048) as nat,
            ) + " MiB), read-write"@,
    {
        let mut s: String = "sata disk, port ".to_owned();
        push_dec(&mut s, self.hba.port as u64);
        s.append(", \"");
        s.append(self.model.as_str());
        s.append("\", ");
        push_dec(&mut s, self.sectors);
        s.append(" sectors (");
        push_dec(&mut s, self.sectors / 2048);
        s.append(" MiB), read-write");
        s
    }
}

// ---------------------------------------------------------------------------
// Identification
// ---------------------------------------------------------------------------
/// A character of the model that is shown.
pub open spec fn model_char(b: u8) -> Seq<char> {
    if b != 0 && b != 0x20 {
        seq![b as char]
    } else {
        Seq::empty()
    }
}

/// The model: words 27 to 46, the high byte of each first, up to word `w`.
pub open spec fn model_text(id: Seq<u8>, w: int) -> Seq<char>
    decreases w,
{
    if w <= 27 {
        Seq::empty()
    } else {
        model_text(id, w - 1) + model_char(id[2 * w - 1]) + model_char(id[2 * w - 2])
    }
}

/// The capacity: words 100 to 103.
pub open spec fn capacity(id: Seq<u8>) -> u64 {
    crate::bytes::rd_le8(id, 200)
}

fn push_model(s: &mut String, b: u8)
    ensures
        final(s)@ == old(s)@ + model_char(b),
{
    if b != 0 && b != 0x20 {
        push_char(s, latin1(b));
        assert(s@ =~= old(s)@ + model_char(b));
    } else {
        assert(s@ =~= old(s)@ + model_char(b));
    }
}

fn read_model(id: &Vec<u8>) -> (s: String)
    requires
        id@.len() == 512,
    ensures
        s@ == model_text(id@, 47),
{
    let mut s: String = String::new();
    let mut w: usize = 27;
    assert(s@ =~= model_text(id@, 27));
    while w < 47
        invariant
            27 <= w <= 47,
            id@.len() == 512,
            s@ == model_text(id@, w as int),
        decreases 47 - w,
    {
        push_model(&mut s, id[2 * w + 1]);
        push_model(&mut s, id[2 * w]);
        w = w + 1;
    }
    s
}

// ---------------------------------------------------------------------------
// Finding the disk
// ---------------------------------------------------------------------------
/// How far the search for a disk is. Each state waits for one value.
#[derive(Clone, Copy, PartialEq, Eq, Structural, Debug)]
pub enum Probe {
    /// The identity of a function.
    Id { dev: u8, fun: u8 },
    /// Its class.
    Class { dev: u8, fun: u8 },
    /// The base address of the controller.
    Bar { dev: u8, fun: u8 },
    /// Its command word.
    Command { dev: u8, fun: u8, bar: u32 },
    /// The window has to be mapped.
    Window { bar: u32 },
    /// The host control word.
    Control,
    /// The ports that there are.
    Ports,
    /// Whether a device is at a port.
    Present { ports: u32, port: u32 },
    /// What device it is.
    Signature { ports: u32, port: u32 },
    /// Whether the port runs.
    Running { hba: Hba },
    /// Whether it still does.
    Stopping { hba: Hba, guard: u32 },
    /// Whether it receives.
    Receiving { hba: Hba },
    /// The command word, to stop that.
    StopReceive { hba: Hba },
    /// Whether it still does.
    ReceiveStopping { hba: Hba, guard: u32 },
    /// The command word, to start the port.
    Start { hba: Hba },
    /// The identification of the disk.
    Identify { hba: Hba, at: Issue },
}

pub enum ProbeNext {
    More(Probe, Io),
    Over(Option<Ahci>),
}

pub enum ProbeNextV {
    More(Probe, IoV),
    Over(Option<AhciV>),
}

pub open spec fn disk_view(d: Option<Ahci>) -> Option<AhciV> {
    match d {
        None => None,
        Some(x) => Some(x@),
    }
}

impl ProbeNext {
    pub open spec fn view(&self) -> ProbeNextV {
        match *self {
            ProbeNext::More(s, io) => ProbeNextV::More(s, io@),
            ProbeNext::Over(d) => ProbeNextV::Over(disk_view(d)),
        }
    }
}

pub open spec fn ask(s: Probe, r: Reg) -> ProbeNextV {
    ProbeNextV::More(s, IoV { writes: Seq::empty(), read: r })
}

pub open spec fn tell(s: Probe, r: Reg, v: u32, then_read: Reg) -> ProbeNextV {
    ProbeNextV::More(s, IoV { writes: seq![(r, v)], read: then_read })
}

/// A function that is looked at, if there is one left: all functions of a
/// device, then the next device.
pub open spec fn look_at(dev: int, fun: int) -> ProbeNextV {
    let d = if fun >= 8 {
        dev + 1
    } else {
        dev
    };
    let f = if fun >= 8 {
        0
    } else {
        fun
    };
    if d >= 32 {
        ProbeNextV::Over(None)
    } else {
        ask(Probe::Id { dev: d as u8, fun: f as u8 }, Reg::Config { dev: d as u8, fun: f as u8, off: 0 })
    }
}

/// The first of the six ports from `p` on that there is.
pub open spec fn look_at_port(ports: u32, p: int) -> ProbeNextV
    decreases 6 - p,
{
    if p < 0 || p >= 6 {
        ProbeNextV::Over(None)
    } else if (ports >> p as u32) & 1 == 1 {
        ask(Probe::Present { ports, port: p as u32 }, Reg::Port { port: p as u32, off: P_SSTS })
    } else {
        look_at_port(ports, p + 1)
    }
}

/// The memory that a port needs; nothing, if it is not to be had.
pub open spec fn areas_spec(m: MemV, port: u32) -> (MemV, Option<Hba>) {
    let (f1, clb) = crate::mem::frames::contig_spec(m.frames, 1);
    let (f2, fb) = crate::mem::frames::contig_spec(f1, 1);
    let (f3, ct) = crate::mem::frames::contig_spec(f2, 1);
    let (f4, sc) = crate::mem::frames::contig_spec(f3, 8);
    if clb is None {
        (MemV { frames: f1, ..m }, None)
    } else if fb is None {
        (MemV { frames: f2, ..m }, None)
    } else if ct is None {
        (MemV { frames: f3, ..m }, None)
    } else if sc is None {
        (MemV { frames: f4, ..m }, None)
    } else {
        (
            MemV { frames: f4, ..m },
            Some(
                Hba {
                    port,
                    clb_phys: clb->Some_0,
                    fb_phys: fb->Some_0,
                    ct_phys: ct->Some_0,
                    scratch_phys: sc->Some_0,
                },
            ),
        )
    }
}

pub open spec fn zeros(n: nat) -> Seq<u64> {
    Seq::new(n, |i: int| 0u64)
}

/// The writes that tell a port where its memory is.
pub open spec fn area_writes(h: Hba) -> Seq<(Reg, u32)> {
    seq![
        (Reg::Port { port: h.port, off: P_IE }, 0u32),
        (Reg::Port { port: h.port, off: P_CLB }, h.clb_phys as u32),
        (Reg::Port { port: h.port, off: P_CLBU }, (h.clb_phys >> 32u64) as u32),
        (Reg::Port { port: h.port, off: P_FB }, h.fb_phys as u32),
        (Reg::Port { port: h.port, off: P_FBU }, (h.fb_phys >> 32u64) as u32),
    ]
}

/// A stopped port gets its memory: the command list and the receive area are
/// cleared.
pub open spec fn publish_spec(m: MemV, h: Hba) -> (MemV, ProbeNextV) {
    let ram = words_laid(words_laid(m.ram, h.clb_phys, zeros(128), 0), h.fb_phys, zeros(32), 0);
    (
        MemV { ram, ..m },
        ProbeNextV::More(
            Probe::Start { hba: h },
            IoV { writes: area_writes(h), read: Reg::Port { port: h.port, off: P_CMD } },
        ),
    )
}

/// The outcome of the identification.
pub open spec fn identified(m: MemV, h: Hba) -> Option<AhciV> {
    let id = bytes_at(m.ram, h.scratch_phys, 512);
    if capacity(id) == 0 {
        None
    } else {
        Some(AhciV { hba: h, sectors: capacity(id), model: model_text(id, 47) })
    }
}

/// One step of the search up to the port; `v` is what was read.
pub open spec fn search_spec(m: MemV, s: Probe, v: u32) -> (MemV, ProbeNextV) {
    match s {
        Probe::Id { dev, fun } => (
            m,
            if v & 0xFFFF == 0xFFFF {
                look_at(dev as int, fun + 1)
            } else {
                ask(Probe::Class { dev, fun }, Reg::Config { dev, fun, off: 0x08 })
            },
        ),
        Probe::Class { dev, fun } => (
            m,
            if v >> 16u32 == 0x0106 {
                ask(Probe::Bar { dev, fun }, Reg::Config { dev, fun, off: 0x24 })
            } else {
                look_at(dev as int, fun + 1)
            },
        ),
        Probe::Bar { dev, fun } => (
            m,
            if v & 1 != 0 {
                ProbeNextV::Over(None)
            } else {
                ask(Probe::Command { dev, fun, bar: v & 0xFFFF_FFF0 }, Reg::Config { dev, fun, off: 0x04 })
            },
        ),
        Probe::Command { dev, fun, bar } => (
            m,
            tell(Probe::Window { bar }, Reg::Config { dev, fun, off: 0x04 }, (v & 0xFFFF) | 0x6, Reg::Nothing),
        ),
        Probe::Window { bar } => {
            let (m1, r) = crate::mem::vmm::map_kernel_spec(
                m,
                AHCI_VIRT,
                bar as u64,
                PRESENT | WRITABLE | NO_CACHE | NO_EXECUTE,
            );
            (
                m1,
                if r is Err {
                    ProbeNextV::Over(None)
                } else {
                    ask(Probe::Control, Reg::Host { off: GHC })
                },
            )
        },
        Probe::Control => (
            m,
            if v & GHC_AE == 0 {
                tell(Probe::Ports, Reg::Host { off: GHC }, GHC_AE, Reg::Host { off: PI })
            } else {
                ask(Probe::Ports, Reg::Host { off: PI })
            },
        ),
        Probe::Ports => (m, look_at_port(v, 0)),
        Probe::Present { ports, port } => (
            m,
            if v & SSTS_DET != DET_PRESENT {
                look_at_port(ports, port + 1)
            } else {
                ask(Probe::Signature { ports, port }, Reg::Port { port, off: P_SIG })
            },
        ),
        Probe::Signature { ports, port } => if v != SIG_ATA {
            (m, look_at_port(ports, port + 1))
        } else {
            let (m1, a) = areas_spec(m, port);
            (
                m1,
                match a {
                    None => ProbeNextV::Over(None),
                    Some(h) => ask(Probe::Running { hba: h }, Reg::Port { port, off: P_CMD }),
                },
            )
        },
        _ => (m, ProbeNextV::Over(None)),
    }
}

/// One step of setting the port up.
pub open spec fn setup_spec(m: MemV, s: Probe, v: u32) -> (MemV, ProbeNextV) {
    match s {
        Probe::Running { hba } => {
            let cmd = Reg::Port { port: hba.port, off: P_CMD };
            (
                m,
                if v & CMD_ST != 0 {
                    tell(Probe::Stopping { hba, guard: 0 }, cmd, v & !CMD_ST, cmd)
                } else {
                    ask(Probe::Receiving { hba }, cmd)
                },
            )
        },
        Probe::Stopping { hba, guard } => {
            let cmd = Reg::Port { port: hba.port, off: P_CMD };
            (
                m,
                if v & CMD_CR != 0 && guard < STOP_POLLS {
                    ask(Probe::Stopping { hba, guard: (guard + 1) as u32 }, cmd)
                } else {
                    ask(Probe::Receiving { hba }, cmd)
                },
            )
        },
        Probe::Receiving { hba } => if v & CMD_FRE != 0 {
            (m, ask(Probe::StopReceive { hba }, Reg::Port { port: hba.port, off: P_CMD }))
        } else {
            publish_spec(m, hba)
        },
        Probe::StopReceive { hba } => {
            let cmd = Reg::Port { port: hba.port, off: P_CMD };
            (m, tell(Probe::ReceiveStopping { hba, guard: 0 }, cmd, v & !CMD_FRE, cmd))
        },
        Probe::ReceiveStopping { hba, guard } => if v & CMD_FR != 0 && guard < STOP_POLLS {
            (
                m,
                ask(
                    Probe::ReceiveStopping { hba, guard: (guard + 1) as u32 },
                    Reg::Port { port: hba.port, off: P_CMD },
                ),
            )
        } else {
            publish_spec(m, hba)
        },
        Probe::Start { hba } => {
            let cmd = Reg::Port { port: hba.port, off: P_CMD };
            (
                MemV { ram: command_laid(m.ram, hba, ATA_IDENTIFY, false, 0, 0, 512), ..m },
                ProbeNextV::More(
                    Probe::Identify { hba, at: Issue::Go },
                    IoV {
                        writes: seq![
                            (cmd, v | CMD_SUD | CMD_FRE | CMD_ST),
                            (Reg::Port { port: hba.port, off: P_IS }, IS_ERR_MASK),
                        ],
                        read: cmd,
                    },
                ),
            )
        },
        Probe::Identify { hba, at } => (
            m,
            match issue_spec(hba, at, v) {
                IssueNextV::More(a, io) => ProbeNextV::More(Probe::Identify { hba, at: a }, io),
                IssueNextV::Over(good) => if good {
                    ProbeNextV::Over(identified(m, hba))
                } else {
                    ProbeNextV::Over(None)
                },
            },
        ),
        _ => (m, ProbeNextV::Over(None)),
    }
}

/// Whether the port is found.
pub open spec fn has_port(s: Probe) -> bool {
    s is Running || s is Stopping || s is Receiving || s is StopReceive || s is ReceiveStopping || s is Start
        || s is Identify
}

/// One step of the search; `v` is what was read.
pub open spec fn probe_spec(m: MemV, s: Probe, v: u32) -> (MemV, ProbeNextV) {
    if has_port(s) {
        setup_spec(m, s, v)
    } else {
        search_spec(m, s, v)
    }
}

fn next_function(dev: u8, fun: u8) -> (r: ProbeNext)
    requires
        dev < 32,
        fun < 8,
    ensures
        r@ == look_at(dev as int, fun + 1),
        r matches ProbeNext::More(t, _) ==> probe_ok(t),
{
    let d: u8 = if fun == 7 {
        dev + 1
    } else {
        dev
    };
    let f: u8 = if fun == 7 {
        0
    } else {
        fun + 1
    };
    if d >= 32 {
        ProbeNext::Over(None)
    } else {
        ProbeNext::More(Probe::Id { dev: d, fun: f }, read_of(Reg::Config { dev: d, fun: f, off: 0 }))
    }
}

fn next_port(ports: u32, from: u32) -> (r: ProbeNext)
    requires
        from <= 6,
    ensures
        r@ == look_at_port(ports, from as int),
        r matches ProbeNext::More(t, _) ==> probe_ok(t),
{
    let mut p: u32 = from;
    while p < 6
        invariant
            p <= 6,
            look_at_port(ports, p as int) == look_at_port(ports, from as int),
        decreases 6 - p,
    {
        if (ports >> p) & 1 == 1 {
            return ProbeNext::More(Probe::Present { ports, port: p }, read_of(Reg::Port { port: p, off: P_SSTS }));
        }
        p = p + 1;
    }
    ProbeNext::Over(None)
}

fn take_areas(m: &mut Memory, port: u32) -> (r: Option<Hba>)
    requires
        old(m).wf(),
    ensures
        final(m).wf(),
        (final(m)@, r) == areas_spec(old(m)@, port),
{
    let clb_phys: u64 = match alloc_contig(&mut m.frames, 1) {
        None => {
            return None;
        },
        Some(x) => x,
    };
    let fb_phys: u64 = match alloc_contig(&mut m.frames, 1) {
        None => {
            return None;
        },
        Some(x) => x,
    };
    let ct_phys: u64 = match alloc_contig(&mut m.frames, 1) {
        None => {
            return None;
        },
        Some(x) => x,
    };
    let scratch_phys: u64 = match alloc_contig(&mut m.frames, 8) {
        None => {
            return None;
        },
        Some(x) => x,
    };
    Some(Hba { port, clb_phys, fb_phys, ct_phys, scratch_phys })
}

fn publish(m: &mut Memory, h: Hba) -> (r: ProbeNext)
    requires
        old(m).wf(),
    ensures
        final(m).wf(),
        (final(m)@, r@) == publish_spec(old(m)@, h),
{
    let z1: Vec<u64> = vec![0u64; 128];
    assert(z1@ =~= zeros(128));
    put_words(m, h.clb_phys, &z1);
    let z2: Vec<u64> = vec![0u64; 32];
    assert(z2@ =~= zeros(32));
    put_words(m, h.fb_phys, &z2);
    let mut w: Vec<(Reg, u32)> = Vec::new();
    w.push((Reg::Port { port: h.port, off: P_IE }, 0));
    w.push((Reg::Port { port: h.port, off: P_CLB }, h.clb_phys as u32));
    w.push((Reg::Port { port: h.port, off: P_CLBU }, (h.clb_phys >> 32u64) as u32));
    w.push((Reg::Port { port: h.port, off: P_FB }, h.fb_phys as u32));
    w.push((Reg::Port { port: h.port, off: P_FBU }, (h.fb_phys >> 32u64) as u32));
    assert(w@ =~= area_writes(h));
    ProbeNext::More(Probe::Start { hba: h }, Io { writes: w, read: Reg::Port { port: h.port, off: P_CMD } })
}

fn start_identify(m: &mut Memory, hba: Hba, v: u32) -> (r: ProbeNext)
    requires
        old(m).wf(),
    ensures
        final(m).wf(),
        (final(m)@, r@) == setup_spec(old(m)@, Probe::Start { hba }, v),
{
    let cmd = Reg::Port { port: hba.port, off: P_CMD };
    lay_command(m, &hba, ATA_IDENTIFY, false, 0, 0, 512);
    let mut w: Vec<(Reg, u32)> = Vec::new();
    w.push((cmd, v | CMD_SUD | CMD_FRE | CMD_ST));
    w.push((Reg::Port { port: hba.port, off: P_IS }, IS_ERR_MASK));
    assert(w@ =~= seq![
        (cmd, v | CMD_SUD | CMD_FRE | CMD_ST),
        (Reg::Port { port: hba.port, off: P_IS }, IS_ERR_MASK),
    ]);
    ProbeNext::More(Probe::Identify { hba, at: Issue::Go }, Io { writes: w, read: cmd })
}

fn identify(m: &Memory, hba: Hba) -> (r: Option<Ahci>)
    requires
        m.wf(),
    ensures
        disk_view(r) == identified(m@, hba),
{
    let mut id: Vec<u8> = Vec::new();
    take_bytes_at(m, hba.scratch_phys, &mut id, 512);
    assert(id@ =~= bytes_at(m@.ram, hba.scratch_phys, 512));
    let sectors: u64 = get_le8(id.as_slice(), 200);
    if sectors == 0 {
        None
    } else {
        Some(Ahci { hba, sectors, model: read_model(&id) })
    }
}

/// A state that the search can be in.
pub open spec fn probe_ok(s: Probe) -> bool {
    match s {
        Probe::Id { dev, fun } => dev < 32 && fun < 8,
        Probe::Class { dev, fun } => dev < 32 && fun < 8,
        Probe::Present { ports, port } => port < 6,
        Probe::Signature { ports, port } => port < 6,
        _ => true,
    }
}

/// Starts the search for a controller on bus 0 with a disk behind it.
pub fn probe() -> (r: (Probe, Io))
    ensures
        probe_ok(r.0),
        ProbeNextV::More(r.0, r.1@) == look_at(0, 0),
{
    (Probe::Id { dev: 0, fun: 0 }, read_of(Reg::Config { dev: 0, fun: 0, off: 0 }))
}

fn search_step(m: &mut Memory, s: Probe, v: u32) -> (r: ProbeNext)
    requires
        old(m).wf(),
        probe_ok(s),
    ensures
        final(m).wf(),
        (final(m)@, r@) == search_spec(old(m)@, s, v),
        r matches ProbeNext::More(t, _) ==> probe_ok(t),
{
    match s {
        Probe::Id { dev, fun } => {
            if v & 0xFFFF == 0xFFFF {
                next_function(dev, fun)
            } else {
                ProbeNext::More(Probe::Class { dev, fun }, read_of(Reg::Config { dev, fun, off: 0x08 }))
            }
        },
        Probe::Class { dev, fun } => {
            if v >> 16u32 == 0x0106 {
                ProbeNext::More(Probe::Bar { dev, fun }, read_of(Reg::Config { dev, fun, off: 0x24 }))
            } else {
                next_function(dev, fun)
            }
        },
        Probe::Bar { dev, fun } => {
            if v & 1 != 0 {
                ProbeNext::Over(None)
            } else {
                ProbeNext::More(
                    Probe::Command { dev, fun, bar: v & 0xFFFF_FFF0 },
                    read_of(Reg::Config { dev, fun, off: 0x04 }),
                )
            }
        },
        Probe::Command { dev, fun, bar } => ProbeNext::More(
            Probe::Window { bar },
            write_of(Reg::Config { dev, fun, off: 0x04 }, (v & 0xFFFF) | 0x6, Reg::Nothing),
        ),
        Probe::Window { bar } => {
            match map_kernel_page(m, AHCI_VIRT, bar as u64, PRESENT | WRITABLE | NO_CACHE | NO_EXECUTE) {
                Err(_) => ProbeNext::Over(None),
                Ok(_) => ProbeNext::More(Probe::Control, read_of(Reg::Host { off: GHC })),
            }
        },
        Probe::Control => {
            if v & GHC_AE == 0 {
                ProbeNext::More(Probe::Ports, write_of(Reg::Host { off: GHC }, GHC_AE, Reg::Host { off: PI }))
            } else {
                ProbeNext::More(Probe::Ports, read_of(Reg::Host { off: PI }))
            }
        },
        Probe::Ports => next_port(v, 0),
        Probe::Present { ports, port } => {
            if v & SSTS_DET != DET_PRESENT {
                next_port(ports, port + 1)
            } else {
                ProbeNext::More(Probe::Signature { ports, port }, read_of(Reg::Port { port, off: P_SIG }))
            }
        },
        Probe::Signature { ports, port } => {
            if v != SIG_ATA {
                next_port(ports, port + 1)
            } else {
                match take_areas(m, port) {
                    None => ProbeNext::Over(None),
                    Some(hba) => ProbeNext::More(Probe::Running { hba }, read_of(Reg::Port { port, off: P_CMD })),
                }
            }
        },
        _ => ProbeNext::Over(None),
    }
}

fn setup_step(m: &mut Memory, s: Probe, v: u32) -> (r: ProbeNext)
    requires
        old(m).wf(),
    ensures
        final(m).wf(),
        (final(m)@, r@) == setup_spec(old(m)@, s, v),
        r matches ProbeNext::More(t, _) ==> probe_ok(t),
{
    match s {
        Probe::Running { hba } => {
            let cmd = Reg::Port { port: hba.port, off: P_CMD };
            if v & CMD_ST != 0 {
                ProbeNext::More(Probe::Stopping { hba, guard: 0 }, write_of(cmd, v & !CMD_ST, cmd))
            } else {
                ProbeNext::More(Probe::Receiving { hba }, read_of(cmd))
            }
        },
        Probe::Stopping { hba, guard } => {
            let cmd = Reg::Port { port: hba.port, off: P_CMD };
            if v & CMD_CR != 0 && guard < STOP_POLLS {
                ProbeNext::More(Probe::Stopping { hba, guard: guard + 1 }, read_of(cmd))
            } else {
                ProbeNext::More(Probe::Receiving { hba }, read_of(cmd))
            }
        },
        Probe::Receiving { hba } => {
            if v & CMD_FRE != 0 {
                ProbeNext::More(Probe::StopReceive { hba }, read_of(Reg::Port { port: hba.port, off: P_CMD }))
            } else {
                publish(m, hba)
            }
        },
        Probe::StopReceive { hba } => {
            let cmd = Reg::Port { port: hba.port, off: P_CMD };
            ProbeNext::More(Probe::ReceiveStopping { hba, guard: 0 }, write_of(cmd, v & !CMD_FRE, cmd))
        },
        Probe::ReceiveStopping { hba, guard } => {
            if v & CMD_FR != 0 && guard < STOP_POLLS {
                ProbeNext::More(
                    Probe::ReceiveStopping { hba, guard: guard + 1 },
                    read_of(Reg::Port { port: hba.port, off: P_CMD }),
                )
            } else {
                publish(m, hba)
            }
        },
        Probe::Start { hba } => start_identify(m, hba, v),
        Probe::Identify { hba, at } => {
            match issue_step(&hba, at, v) {
                IssueNext::More(a, io) => ProbeNext::More(Probe::Identify { hba, at: a }, io),
                IssueNext::Over(good) => {
                    if good {
                        ProbeNext::Over(identify(m, hba))
                    } else {
                        ProbeNext::Over(None)
                    }
                },
            }
        },
        _ => ProbeNext::Over(None),
    }
}

/// Goes on with the search; `v` is what was read. It ends with the disk, if
/// there is one that can be used.
pub fn probe_step(m: &mut Memory, s: Probe, v: u32) -> (r: ProbeNext)
    requires
        old(m).wf(),
        probe_ok(s),
    ensures
        final(m).wf(),
        (final(m)@, r@) == probe_spec(old(m)@, s, v),
        r matches ProbeNext::More(t, _) ==> probe_ok(t),
{
    match s {
        Probe::Running { .. }
        | Probe::Stopping { .. }
        | Probe::Receiving { .. }
        | Probe::StopReceive { .. }
        | Probe::ReceiveStopping { .. }
        | Probe::Start { .. }
        | Probe::Identify { .. } => setup_step(m, s, v),
        _ => search_step(m, s, v),
    }
}

// ---------------------------------------------------------------------------
// Laws
// ---------------------------------------------------------------------------
proof fn lemma_port_found(ports: u32, p: int)
    requires
        0 <= p,
    ensures
        match look_at_port(ports, p) {
            ProbeNextV::More(s, io) => (s matches Probe::Present { ports: q, port } && q == ports && p <= port < 6 && (
            ports >> port) & 1 == 1),
            ProbeNextV::Over(d) => d is None,
        },
    decreases 6 - p,
{
    if p < 6 && (ports >> p as u32) & 1 != 1 {
        lemma_port_found(ports, p + 1);
    }
}

/// Only a disk is ever brought up: a port is set up only after its device
/// has shown the signature of one.
pub proof fn law_only_disks_are_brought_up(m: MemV, s: Probe, v: u32)
    ensures
        probe_spec(m, s, v).1 matches ProbeNextV::More(Probe::Running { hba }, _) ==> s is Signature && v == SIG_ATA,
{
    match s {
        Probe::Ports => {
            lemma_port_found(v, 0);
        },
        Probe::Present { ports, port } => {
            lemma_port_found(ports, port + 1);
        },
        Probe::Signature { ports, port } => {
            lemma_port_found(ports, port + 1);
        },
        _ => {},
    }
}

/// The commands of a transfer cover it without gap or overlap: each starts at
/// the sector where the one before it ended, moves whole sectors, at most as
/// many as fit the buffer, and the last one ends the transfer.
pub proof fn law_chunks_cover_the_transfer(m: MemV, h: Hba, t: TransferV)
    requires
        t.wf(),
        t.done % 512 == 0,
    ensures
        ({
            let u = chunk_over(m, h, t);
            &&& u.done % 512 == 0
            &&& t.done < u.done <= t.total
            &&& t.chunk() % 512 == 0
            &&& t.chunk() <= CHUNK_SECTORS * 512
            &&& u.chunk_lba() == t.chunk_lba() + t.chunk() / 512
            &&& u.done < u.total ==> u.wf()
        }),
{
}

/// What a read gives is what the buffer held after each command, in order.
pub proof fn law_read_keeps_order(m: MemV, h: Hba, t: TransferV)
    requires
        t.wf(),
        !t.write,
    ensures
        chunk_over(m, h, t).data.take(t.done as int) == t.data,
        chunk_over(m, h, t).data.skip(t.done as int) == bytes_at(m.ram, h.scratch_phys, t.chunk()),
{
    assert(chunk_over(m, h, t).data.take(t.done as int) =~= t.data);
    assert(chunk_over(m, h, t).data.skip(t.done as int) =~= bytes_at(m.ram, h.scratch_phys, t.chunk()));
}

} // verus!
