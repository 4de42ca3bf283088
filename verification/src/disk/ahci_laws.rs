//! What the disk controller is told, and when a transfer counts as done.

use vstd::prelude::*;

use crate::disk::ahci::{Hba, Issue, IssueNextV, Reg, TransferNextV, TransferV};
use crate::mem::vmm::MemV;

verus! {

/// A command names its sectors: the first one in bytes 4 to 6 and 9 to 11, low
/// byte first, how many in bytes 12 and 13, with the command in byte 2.
#[verifier::spinoff_prover]
pub proof fn law_command_names_its_sectors(cmd: u8, lba: u64, count: u16)
    requires
        lba < 0x1_0000_0000_0000,
    ensures
        ({
            let f = crate::disk::ahci::fis_bytes(cmd, lba, count);
            &&& f.len() == 16
            &&& f[0] == 0x27 && f[1] == 0x80 && f[2] == cmd
            &&& f[4] + 256 * f[5] + 0x1_0000 * f[6] + 0x100_0000 * f[9] + 0x1_0000_0000 * f[10] + 0x100_0000_0000 * f[11]
                == lba
            &&& f[12] + 256 * f[13] == count
        }),
{
    let (s0, s1, s2) = ((8 * 0u64) as u64, (8 * 1u64) as u64, (8 * 2u64) as u64);
    let (s3, s4, s5) = ((8 * 3u64) as u64, (8 * 4u64) as u64, (8 * 5u64) as u64);
    assert(((lba >> s0) & 0xFF) as u8 + 256 * (((lba >> s1) & 0xFF) as u8) + 0x1_0000 * (((lba >> s2) & 0xFF) as u8)
        + 0x100_0000 * (((lba >> s3) & 0xFF) as u8) + 0x1_0000_0000 * (((lba >> s4) & 0xFF) as u8) + 0x100_0000_0000 * (((
    lba >> s5) & 0xFF) as u8) == lba && ((count & 0xFF) as u8) + 256 * ((count >> 8u16) as u8) == count) by (bit_vector)
        requires
            lba < 0x1_0000_0000_0000,
            s0 == 0,
            s1 == 8,
            s2 == 16,
            s3 == 24,
            s4 == 32,
            s5 == 40,
    ;
}

proof fn lemma_laid(ram: Map<u64, Seq<u64>>, pa: u64, w: Seq<u64>, i: int, u: u64, j: int)
    requires
        forall|f: u64| ram.dom().contains(f) ==> (#[trigger] ram[f]).len() == 512,
        0 <= i <= w.len() <= 512,
        0 <= j < 512,
    ensures
        forall|f: u64|
            crate::disk::ahci::words_laid(ram, pa, w, i).dom().contains(f) ==> (#[trigger] crate::disk::ahci::words_laid(
                ram,
                pa,
                w,
                i,
            )[f]).len() == 512,
        crate::mem::phys::word_at(crate::disk::ahci::words_laid(ram, pa, w, i), u, j) == if u / 4096 == pa / 4096 && i
            <= j < w.len() {
            w[j]
        } else {
            crate::mem::phys::word_at(ram, u, j)
        },
    decreases w.len() - i,
{
    if i < w.len() {
        let m = crate::mem::phys::with_word(ram, pa, i, w[i]);
        assert(crate::mem::phys::frame_at(ram, pa / 4096).len() == 512);
        assert forall|f: u64| m.dom().contains(f) implies (#[trigger] m[f]).len() == 512 by {
            if f != pa / 4096 {
                assert(ram.dom().contains(f));
            }
        }
        lemma_laid(m, pa, w, i + 1, u, j);
    }
}

/// The command stands in memory where the controller looks for it: the list
/// names the table, one entry, and the direction; the table has the command
/// and, at byte 128, where the data go.
pub proof fn law_command_in_memory(
    ram: Map<u64, Seq<u64>>,
    h: Hba,
    cmd: u8,
    write: bool,
    lba: u64,
    count: u16,
    bytes: u32,
)
    requires
        forall|f: u64| ram.dom().contains(f) ==> (#[trigger] ram[f]).len() == 512,
        h.ct_phys / 4096 != h.clb_phys / 4096,
    ensures
        ({
            let n = crate::disk::ahci::command_laid(ram, h, cmd, write, lba, count, bytes);
            let f = crate::disk::ahci::fis_bytes(cmd, lba, count);
            &&& crate::mem::phys::word_at(n, h.clb_phys, 0) == 0x1_0005 + if write {
                0x40int
            } else {
                0
            }
            &&& crate::mem::phys::word_at(n, h.clb_phys, 1) == h.ct_phys
            &&& crate::mem::phys::word_at(n, h.ct_phys, 0) == crate::bytes::rd_le8(f, 0)
            &&& crate::mem::phys::word_at(n, h.ct_phys, 1) == crate::bytes::rd_le8(f, 8)
            &&& crate::mem::phys::word_at(n, h.ct_phys, 16) == h.scratch_phys
        }),
{
    let w = crate::disk::ahci::table_words(cmd, lba, count, h.scratch_phys, bytes);
    let t = crate::disk::ahci::words_laid(ram, h.ct_phys, w, 0);
    let l = crate::disk::ahci::list_words(write, h.ct_phys);
    lemma_laid(ram, h.ct_phys, w, 0, h.ct_phys, 0);
    lemma_laid(ram, h.ct_phys, w, 0, h.ct_phys, 1);
    lemma_laid(ram, h.ct_phys, w, 0, h.ct_phys, 16);
    lemma_laid(t, h.clb_phys, l, 0, h.clb_phys, 0);
    lemma_laid(t, h.clb_phys, l, 0, h.clb_phys, 1);
    lemma_laid(t, h.clb_phys, l, 0, h.ct_phys, 0);
    lemma_laid(t, h.clb_phys, l, 0, h.ct_phys, 1);
    lemma_laid(t, h.clb_phys, l, 0, h.ct_phys, 16);
}

/// A command is issued, watched until the controller takes its bit away, and
/// counts as done only then, without an error in its status or in that of the
/// disk.
pub proof fn law_command_is_watched(h: Hba, n: u64, done: bool, good: bool, v: u32)
    requires
        n < 20_000_000,
    ensures
        crate::disk::ahci::issue_spec(h, Issue::Go, v) matches IssueNextV::More(s, io) && s == (Issue::Poll { n: 0 })
            && io.writes.len() == 2 && io.writes[1] == (Reg::Port { port: h.port, off: 0x38 }, 1u32) && io.read
            == (Reg::Port { port: h.port, off: 0x38 }),
        crate::disk::ahci::issue_spec(h, Issue::Poll { n }, v) matches IssueNextV::More(s, io) && {
            &&& v & 1 == 0 ==> s == (Issue::Status { done: true })
            &&& v & 1 != 0 && n + 1 < 20_000_000 ==> s == (Issue::Poll { n: (n + 1) as u64 })
            &&& v & 1 != 0 && n + 1 >= 20_000_000 ==> s == (Issue::Status { done: false })
        },
        crate::disk::ahci::issue_spec(h, Issue::Status { done }, v) matches IssueNextV::More(s, io) && s
            == (Issue::Task { good: done && v & 0x4000_0000 == 0 }),
        crate::disk::ahci::issue_spec(h, Issue::Task { good }, v) == IssueNextV::Over(good && v & 1 == 0),
{
}

/// A transfer goes on chunk by chunk of up to 32 KiB: when a command is done,
/// a read has the bytes of the buffer behind those it had, and the next command
/// is for the sector behind the last; a command that failed ends it.
pub proof fn law_transfer_goes_on(m: MemV, h: Hba, t: TransferV, v: u32)
    requires
        t.wf(),
        t.done % 512 == 0,
        t.at == (Issue::Task { good: true }),
    ensures
        ({
            let n: int = if t.total - t.done < 0x8000 {
                t.total - t.done
            } else {
                0x8000
            };
            let (m1, u, r) = crate::disk::ahci::transfer_spec(m, h, t, v);
            &&& v & 1 != 0 ==> (r matches TransferNextV::Over(x) && x is Err)
            &&& v & 1 == 0 ==> {
                &&& u.done == t.done + n
                &&& u.lba == t.lba && u.total == t.total
                &&& !t.write ==> u.data.len() == u.done && u.data.subrange(0, t.done as int) == t.data && forall|i: int|
                    0 <= i < n ==> #[trigger] crate::mem::phys::byte_at(m.ram, h.scratch_phys.wrapping_add(i as u64))
                        == u.data[t.done + i]
                &&& t.done + n == t.total ==> (r matches TransferNextV::Over(x) && x is Ok)
                &&& t.done + n < t.total ==> r is More && m1 == crate::disk::ahci::chunk_laid(m, h, u)
            }
        }),
{
    if !t.write {
        crate::disk::ahci::law_read_keeps_order(m, h, t);
        let u = crate::disk::ahci::chunk_over(m, h, t);
        assert(u.data.subrange(0, t.done as int) =~= t.data);
    }
}

/// The commands that move data: 0x25 reads, 0x35 writes, for the sectors from
/// the start of the transfer on, as many as the chunk has.
pub proof fn law_chunk_is_laid(m: MemV, h: Hba, t: TransferV)
    requires
        t.wf(),
        !t.write,
    ensures
        crate::disk::ahci::chunk_laid(m, h, t).ram == crate::disk::ahci::command_laid(
            m.ram,
            h,
            0x25,
            false,
            (t.lba + t.done / 512) as u64,
            (t.chunk() / 512) as u16,
            t.chunk() as u32,
        ),
{
}

/// A disk says how many sectors it has in the eight bytes from 200 on, low
/// byte first, and its name in those from 54 on, two by two in reverse.
pub proof fn law_identification(id: Seq<u8>)
    requires
        id.len() == 512,
        forall|i: int| 54 <= i < 94 ==> (#[trigger] id[i]) != 0 && id[i] != 0x20,
    ensures
        crate::disk::ahci::capacity(id) == id[200] + 256 * id[201] + 0x1_0000 * id[202] + 0x100_0000 * id[203]
            + 0x1_0000_0000 * (id[204] + 256 * id[205] + 0x1_0000 * id[206] + 0x100_0000 * id[207]),
        ({
            let t = crate::disk::ahci::model_text(id, 47);
            &&& t.len() == 40
            &&& forall|k: int| 0 <= k < 20 ==> #[trigger] t[2 * k] == id[54 + 2 * k + 1] as char
            &&& forall|k: int| 0 <= k < 20 ==> #[trigger] t[2 * k + 1] == id[54 + 2 * k] as char
        }),
{
    lemma_model(id, 47);
}

#[verifier::spinoff_prover]
proof fn lemma_model(id: Seq<u8>, w: int)
    requires
        id.len() == 512,
        forall|i: int| 54 <= i < 94 ==> (#[trigger] id[i]) != 0 && id[i] != 0x20,
        27 <= w <= 47,
    ensures
        ({
            let t = crate::disk::ahci::model_text(id, w);
            &&& t.len() == 2 * (w - 27)
            &&& forall|k: int| 0 <= k < w - 27 ==> #[trigger] t[2 * k] == id[54 + 2 * k + 1] as char
            &&& forall|k: int| 0 <= k < w - 27 ==> #[trigger] t[2 * k + 1] == id[54 + 2 * k] as char
        }),
    decreases w,
{
    if w > 27 {
        lemma_model(id, w - 1);
        let p = crate::disk::ahci::model_text(id, w - 1);
        let t = crate::disk::ahci::model_text(id, w);
        let (a, b) = (id[2 * w - 1], id[2 * w - 2]);
        assert(t =~= p + seq![a as char] + seq![b as char]);
        assert forall|k: int| 0 <= k < w - 27 implies #[trigger] t[2 * k] == id[54 + 2 * k + 1] as char by {
            if k < w - 28 {
                assert(t[2 * k] == p[2 * k]);
            }
        }
        assert forall|k: int| 0 <= k < w - 27 implies #[trigger] t[2 * k + 1] == id[54 + 2 * k] as char by {
            if k < w - 28 {
                assert(t[2 * k + 1] == p[2 * k + 1]);
            }
        }
    }
}

} // verus!
