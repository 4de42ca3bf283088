//! Where the bytes of a volume stand on its disk.

use vstd::prelude::*;

use crate::fs::fat32::FatV;

verus! {

/// Sectors one behind the other: byte `i` is byte `i % 512` of sector
/// `i / 512`.
#[verifier::spinoff_prover]
pub proof fn law_sectors_in_a_row(disk: Seq<Seq<u8>>, lba: int, count: nat)
    requires
        0 <= lba,
        lba + count <= disk.len(),
        forall|i: int| 0 <= i < disk.len() ==> (#[trigger] disk[i]).len() == 512,
    ensures
        crate::disk::flat(disk, lba, count).len() == 512 * count,
        forall|i: int|
            0 <= i < 512 * count ==> #[trigger] crate::disk::flat(disk, lba, count)[i] == disk[lba + i / 512][i % 512],
    decreases count,
{
    if count > 0 {
        law_sectors_in_a_row(disk, lba, (count - 1) as nat);
        assert(disk[lba + count - 1].len() == 512);
        let p = crate::disk::flat(disk, lba, (count - 1) as nat);
        let q = crate::disk::flat(disk, lba, count);
        assert forall|i: int| 0 <= i < 512 * count implies #[trigger] q[i] == disk[lba + i / 512][i % 512] by {
            if i < 512 * (count - 1) {
                assert(q[i] == p[i]);
            } else {
                assert(i / 512 == count - 1);
            }
        }
    }
}

/// Mounting reads the geometry from the first sector: sectors per cluster at
/// byte 13, reserved sectors at 14, copies of the table at 16, their size at
/// 36, the cluster of the root at 44; the data start behind the copies.
pub proof fn law_mount_reads_the_geometry(disk: Seq<Seq<u8>>, writable: bool)
    requires
        crate::fs::fat32::mount_spec(disk, writable) is Ok,
        disk.len() > 0,
        disk[0].len() == 512,
    ensures
        ({
            let b = disk[0];
            let v = crate::fs::fat32::mount_spec(disk, writable)->Ok_0;
            let reserved = b[14] + 256 * b[15];
            let size = b[36] + 256 * b[37] + 0x1_0000 * b[38] + 0x100_0000 * b[39];
            &&& v.disk == disk
            &&& v.spc == b[13]
            &&& v.fat_begin == reserved
            &&& v.num_fats == b[16]
            &&& v.fat_size == size
            &&& v.data_begin == reserved + b[16] * size
            &&& v.root == b[44] + 256 * b[45] + 0x1_0000 * b[46] + 0x100_0000 * b[47]
            &&& b[11] + 256 * b[12] == 512
        }),
{
}

/// Entry `c` of the table that was read: four bytes, the low one first, at
/// byte `4 * c` of the first copy.
pub proof fn law_table_entries(disk: Seq<Seq<u8>>, writable: bool, c: int)
    requires
        crate::fs::fat32::mount_spec(disk, writable) is Ok,
        disk.len() > 0,
        forall|i: int| 0 <= i < disk.len() ==> (#[trigger] disk[i]).len() == 512,
        0 <= c < crate::fs::fat32::mount_spec(disk, writable)->Ok_0.fat.len(),
    ensures
        ({
            let v = crate::fs::fat32::mount_spec(disk, writable)->Ok_0;
            let s = disk[v.fat_begin + c / 128];
            let o = 4 * (c % 128);
            v.fat[c] == s[o] + 256 * s[o + 1] + 0x1_0000 * s[o + 2] + 0x100_0000 * s[o + 3]
        }),
{
    let v = crate::fs::fat32::mount_spec(disk, writable)->Ok_0;
    law_sectors_in_a_row(disk, v.fat_begin, v.fat_size as nat);
    let raw = crate::disk::flat(disk, v.fat_begin, v.fat_size as nat);
    let k = 4 * c;
    assert(raw[k] == disk[v.fat_begin + k / 512][k % 512]);
    assert(raw[k + 1] == disk[v.fat_begin + (k + 1) / 512][(k + 1) % 512]);
    assert(raw[k + 2] == disk[v.fat_begin + (k + 2) / 512][(k + 2) % 512]);
    assert(raw[k + 3] == disk[v.fat_begin + (k + 3) / 512][(k + 3) % 512]);
}

/// The bytes of cluster `c`: the first cluster of the data is number 2.
pub proof fn law_cluster_bytes(v: FatV, c: u32, i: int)
    requires
        v.geometry_ok(),
        c >= 2,
        v.data_begin + (c - 2) * v.spc + v.spc <= v.disk.len(),
        0 <= i < 512 * v.spc,
    ensures
        v.cluster(c).len() == 512 * v.spc,
        v.cluster(c)[i] == v.disk[v.data_begin + (c - 2) * v.spc + i / 512][i % 512],
{
    assert((c - 2) * v.spc >= 0) by (nonlinear_arith)
        requires
            c >= 2,
            v.spc >= 1,
    ;
    assert(v.num_fats * v.fat_size >= 0) by (nonlinear_arith)
        requires
            v.num_fats >= 1,
            v.fat_size >= 1,
    ;
    law_sectors_in_a_row(v.disk, v.lba(c), v.spc as nat);
}

/// Clusters that the table links, from one to the next, the last with an end
/// mark.
pub open spec fn linked(v: FatV, cs: Seq<u32>) -> bool {
    &&& cs.len() > 0
    &&& forall|i: int|
        0 <= i < cs.len() ==> 2 <= (#[trigger] cs[i]) < v.fat.len() && v.data_begin + (cs[i] - 2) * v.spc + v.spc
            <= v.disk.len()
    &&& forall|i: int| 0 <= i < cs.len() - 1 ==> v.fat[(#[trigger] cs[i]) as int] == cs[i + 1] && cs[i + 1] < 0x0FFF_FFF7
    &&& v.fat[cs.last() as int] >= 0x0FFF_FFF8
}

#[verifier::spinoff_prover]
proof fn lemma_linked(v: FatV, cs: Seq<u32>, fuel: nat)
    requires
        v.geometry_ok(),
        linked(v, cs),
        fuel >= cs.len(),
    ensures
        v.chain_data(cs[0], fuel).len() == 512 * v.spc * cs.len(),
        forall|k: int, i: int|
            #![trigger cs[k], v.chain_data(cs[0], fuel)[512 * v.spc * k + i]]
            0 <= k < cs.len() && 0 <= i < 512 * v.spc ==> v.chain_data(cs[0], fuel)[512 * v.spc * k + i] == v.cluster(
                cs[k],
            )[i],
    decreases cs.len(),
{
    let n = 512 * v.spc;
    law_cluster_bytes(v, cs[0], 0);
    let d = v.chain_data(cs[0], fuel);
    if cs.len() == 1 {
        assert(v.next(cs[0]) is None);
        assert(n * 1 == n);
        assert forall|k: int, i: int|
            #![trigger cs[k], d[n * k + i]]
            0 <= k < cs.len() && 0 <= i < n implies d[n * k + i] == v.cluster(cs[k])[i] by {
            assert(n * 0 == 0);
        }
    } else {
        let t = cs.skip(1);
        assert(v.fat[cs[0] as int] == cs[1]);
        assert(v.next(cs[0]) == Some(cs[1]));
        assert forall|i: int| 0 <= i < t.len() implies 2 <= (#[trigger] t[i]) < v.fat.len() && v.data_begin + (t[i] - 2)
            * v.spc + v.spc <= v.disk.len() by {
            assert(t[i] == cs[i + 1]);
        }
        assert forall|i: int| 0 <= i < t.len() - 1 implies v.fat[(#[trigger] t[i]) as int] == t[i + 1] && t[i + 1]
            < 0x0FFF_FFF7 by {
            assert(t[i] == cs[i + 1] && t[i + 1] == cs[i + 2]);
            assert(v.fat[cs[i + 1] as int] == cs[i + 1 + 1]);
        }
        assert(t.last() == cs.last());
        lemma_linked(v, t, (fuel - 1) as nat);
        let e = v.chain_data(cs[1], (fuel - 1) as nat);
        assert(d == v.cluster(cs[0]) + e);
        let c = cs.len() as int;
        assert(n + n * (c - 1) == n * c) by (nonlinear_arith);
        assert forall|k: int, i: int|
            #![trigger cs[k], d[n * k + i]]
            0 <= k < cs.len() && 0 <= i < n implies d[n * k + i] == v.cluster(cs[k])[i] by {
            if k == 0 {
                assert(n * 0 == 0);
            } else {
                assert(n * k + i == n + (n * (k - 1) + i)) by (nonlinear_arith);
                assert(n * (k - 1) + i < n * (c - 1)) by (nonlinear_arith)
                    requires
                        0 <= i < n,
                        k <= c - 1,
                ;
                assert(n * (k - 1) >= 0) by (nonlinear_arith)
                    requires
                        n >= 0,
                        k >= 1,
                ;
                assert(t[k - 1] == cs[k]);
                assert(e[n * (k - 1) + i] == v.cluster(t[k - 1])[i]);
            }
        }
    }
}

/// What a file holds: its clusters in the order in which the table links them.
/// Byte `i` of the `k`-th of them is byte `512 * spc * k + i` of the whole.
pub proof fn law_file_follows_its_links(v: FatV, cs: Seq<u32>, k: int, i: int)
    requires
        v.geometry_ok(),
        linked(v, cs),
        cs.len() <= 1_000_000,
        0 <= k < cs.len(),
        0 <= i < 512 * v.spc,
    ensures
        v.contents(cs[0]).len() == 512 * v.spc * cs.len(),
        v.contents(cs[0])[512 * v.spc * k + i] == v.disk[v.data_begin + (cs[k] - 2) * v.spc + i / 512][i % 512],
{
    lemma_linked(v, cs, 1_000_000);
    law_cluster_bytes(v, cs[k], i);
    assert(v.chain_data(cs[0], 1_000_000)[512 * v.spc * k + i] == v.cluster(cs[k])[i]);
}

/// Reading a path gives the bytes of the entry that it names, as many as its
/// size says and its clusters have.
pub proof fn law_reading_a_path(v: FatV, path: Seq<char>)
    ensures
        match (crate::fs::fat32::lookup_spec(v, path), crate::fs::fat32::cat_spec(v, path)) {
            (Some(e), Ok(b)) => {
                let d = v.contents(e.first_cluster);
                &&& !e.is_dir
                &&& b.len() <= e.size && b.len() <= d.len()
                &&& b.len() == e.size || b.len() == d.len()
                &&& forall|i: int| 0 <= i < b.len() ==> #[trigger] b[i] == d[i]
            },
            (Some(e), Err(_)) => e.is_dir,
            (None, r) => r is Err,
        },
{
}

/// An entry of a directory, byte by byte: its cluster at 20 (high) and 26
/// (low), its size at 28, bit 4 of byte 11 for a directory.
pub proof fn law_directory_entry(e: Seq<u8>)
    requires
        e.len() == 32,
        e[0] != 0,
        e[0] != 0xE5,
        e[11] % 64 != 15,
        e[11] / 8 % 2 == 0,
    ensures
        ({
            let l = crate::fs::dir::parsed(seq![e]);
            &&& l.len() == 1
            &&& l[0].first_cluster == e[26] + 256 * e[27] + 0x1_0000 * (e[20] + 256 * e[21])
            &&& l[0].size == e[28] + 256 * e[29] + 0x1_0000 * e[30] + 0x100_0000 * e[31]
            &&& l[0].is_dir == (e[11] / 16 % 2 == 1)
        }),
{
    reveal_with_fuel(crate::fs::dir::parse_from, 3);
}

proof fn lemma_parse_later(a: Seq<Seq<u8>>, s: Seq<Seq<u8>>, k: int, lfn: Seq<Seq<char>>)
    requires
        0 <= k <= s.len(),
    ensures
        crate::fs::dir::parse_from(a + s, a.len() + k, lfn) == crate::fs::dir::parse_from(s, k, lfn),
    decreases s.len() - k,
{
    if k < s.len() {
        assert((a + s)[a.len() + k] == s[k]);
        lemma_parse_later(a, s, k + 1, Seq::empty());
        lemma_parse_later(a, s, k + 1, lfn.push(crate::fs::dir::lfn_from(s[k], 0)));
    }
}

/// A listing passes over what was deleted and the volume's own name, and ends
/// where the directory does; an entry stands before those behind it.
pub proof fn law_listing(e: Seq<u8>, s: Seq<Seq<u8>>)
    requires
        e.len() == 32,
    ensures
        e[0] == 0 ==> crate::fs::dir::parsed(seq![e] + s).len() == 0,
        e[0] == 0xE5 ==> crate::fs::dir::parsed(seq![e] + s) == crate::fs::dir::parsed(s),
        e[0] != 0 && e[0] != 0xE5 && e[11] % 64 != 15 && e[11] / 8 % 2 == 1 ==> crate::fs::dir::parsed(seq![e] + s)
            == crate::fs::dir::parsed(s),
        e[0] != 0 && e[0] != 0xE5 && e[11] % 64 != 15 && e[11] / 8 % 2 == 0 ==> crate::fs::dir::parsed(seq![e] + s)
            == crate::fs::dir::parsed(seq![e]) + crate::fs::dir::parsed(s),
{
    let a = seq![e];
    assert((a + s)[0] == e);
    lemma_parse_later(a, s, 0, Seq::empty());
    reveal_with_fuel(crate::fs::dir::parse_from, 3);
}

/// The entry that is written for a file: the name in capitals with blanks
/// behind it, an archived file, the cluster and the size where they are read.
pub proof fn law_written_entry(base: Seq<u8>, ext: Seq<u8>, first: u32, size: u32)
    requires
        base.len() <= 8,
        ext.len() <= 3,
    ensures
        ({
            let e = crate::fs::dir::dirent(base, ext, first, size);
            &&& e.len() == 32
            &&& forall|i: int| 0 <= i < 8 ==> #[trigger] e[i] == if i < base.len() {
                base[i]
            } else {
                0x20u8
            }
            &&& forall|i: int| 8 <= i < 11 ==> #[trigger] e[i] == if i - 8 < ext.len() {
                ext[i - 8]
            } else {
                0x20u8
            }
            &&& e[11] == 0x20
            &&& e[26] + 256 * e[27] + 0x1_0000 * (e[20] + 256 * e[21]) == first
            &&& e[28] + 256 * e[29] + 0x1_0000 * e[30] + 0x100_0000 * e[31] == size
        }),
{
    reveal(crate::fs::dir::dirent);
}

// ---------------------------------------------------------------------------
// Long names
// ---------------------------------------------------------------------------
/// Where letter `j` of a part of a long name stands: five letters, six, two.
pub open spec fn letter_at(j: int) -> int {
    if j < 5 {
        1 + 2 * j
    } else if j < 11 {
        4 + 2 * j
    } else {
        6 + 2 * j
    }
}

/// A slot that holds a part of a long name: two bytes for each letter, a zero
/// behind the last where there is room.
pub open spec fn holds_part(e: Seq<u8>, part: Seq<char>) -> bool {
    &&& e.len() == 32
    &&& e[0] != 0 && e[0] != 0xE5
    &&& e[11] == 0x0F
    &&& part.len() <= 13
    &&& forall|j: int|
        0 <= j < part.len() ==> 0 < #[trigger] part[j] as int && (part[j] as int) < 128 && e[letter_at(j)] == part[j] as int
            && e[letter_at(j) + 1] == 0
    &&& part.len() < 13 ==> e[letter_at(part.len() as int)] == 0 && e[letter_at(part.len() as int) + 1] == 0
}

/// The parts of a name up to the `k`-th, one behind the other.
pub open spec fn whole(parts: Seq<Seq<char>>, k: int) -> Seq<char>
    decreases k,
{
    if k <= 0 {
        Seq::empty()
    } else {
        whole(parts, k - 1) + parts[k - 1]
    }
}

proof fn lemma_part(e: Seq<u8>, part: Seq<char>, j: int)
    requires
        holds_part(e, part),
        0 <= j <= part.len(),
    ensures
        crate::fs::dir::lfn_from(e, j) == part.subrange(j, part.len() as int),
    decreases part.len() - j,
{
    assert(crate::fs::dir::lfn_pos(j) == letter_at(j));
    let n = part.len() as int;
    if j < n {
        assert(0 < part[j] as int);
        assert(crate::bytes::rd_le2(e, letter_at(j)) == part[j] as int);
        lemma_part(e, part, j + 1);
        assert(seq![part[j]] + part.subrange(j + 1, n) =~= part.subrange(j, n));
    } else {
        assert(part.subrange(j, n) =~= Seq::<char>::empty());
    }
}

/// The last parts of a name, the last one first.
spec fn last_parts(parts: Seq<Seq<char>>, k: int) -> Seq<Seq<char>> {
    Seq::new(k as nat, |i: int| parts[parts.len() - 1 - i])
}

/// The parts from the `k`-th on, one behind the other.
spec fn tail(parts: Seq<Seq<char>>, k: int) -> Seq<char>
    decreases parts.len() - k,
{
    if k < 0 || k >= parts.len() {
        Seq::empty()
    } else {
        parts[k] + tail(parts, k + 1)
    }
}

proof fn lemma_tail(parts: Seq<Seq<char>>, k: int)
    requires
        0 <= k <= parts.len(),
    ensures
        whole(parts, k) + tail(parts, k) == whole(parts, parts.len() as int),
    decreases parts.len() - k,
{
    if k < parts.len() {
        lemma_tail(parts, k + 1);
        assert(whole(parts, k) + (parts[k] + tail(parts, k + 1)) =~= (whole(parts, k) + parts[k]) + tail(parts, k + 1));
    } else {
        assert(whole(parts, k) + Seq::<char>::empty() =~= whole(parts, k));
    }
}

proof fn lemma_joined(parts: Seq<Seq<char>>, k: int)
    requires
        0 <= k <= parts.len(),
    ensures
        crate::fs::dir::joined(last_parts(parts, k)) == tail(parts, parts.len() - k),
    decreases k,
{
    let v = last_parts(parts, k);
    if k > 0 {
        assert(v.drop_last() =~= last_parts(parts, k - 1));
        lemma_joined(parts, k - 1);
    }
}

#[verifier::spinoff_prover]
proof fn lemma_long_parse(s: Seq<Seq<u8>>, parts: Seq<Seq<char>>, e: Seq<u8>, k: int)
    requires
        s.len() == parts.len() + 1,
        0 <= k <= parts.len(),
        forall|i: int| 0 <= i < parts.len() ==> holds_part(#[trigger] s[i], parts[parts.len() - 1 - i]),
        s[parts.len() as int] == e,
        e[0] != 0 && e[0] != 0xE5 && e[11] % 64 != 15 && e[11] / 8 % 2 == 0,
    ensures
        crate::fs::dir::parse_from(s, k, last_parts(parts, k)) == seq![
            crate::fs::dir::slot_entry(e, last_parts(parts, parts.len() as int)),
        ],
    decreases parts.len() - k,
{
    if k < parts.len() {
        let part = parts[parts.len() - 1 - k];
        assert(holds_part(s[k], part));
        lemma_part(s[k], part, 0);
        assert(part.subrange(0, part.len() as int) =~= part);
        assert(last_parts(parts, k).push(part) =~= last_parts(parts, k + 1));
        lemma_long_parse(s, parts, e, k + 1);
    } else {
        reveal_with_fuel(crate::fs::dir::parse_from, 2);
        assert(crate::fs::dir::parse_from(s, k + 1, Seq::empty()) =~= Seq::empty());
        assert(crate::fs::dir::parse_from(s, k, last_parts(parts, k)) =~= seq![
            crate::fs::dir::slot_entry(e, last_parts(parts, k)),
        ]);
    }
}

/// A file with a long name: the parts of the name stand before its entry, the
/// last part first, and the listing shows the name whole, with the cluster,
/// the size and the kind of the entry itself.
pub proof fn law_long_name_is_shown(s: Seq<Seq<u8>>, parts: Seq<Seq<char>>, e: Seq<u8>)
    requires
        parts.len() > 0,
        s.len() == parts.len() + 1,
        forall|i: int| 0 <= i < parts.len() ==> holds_part(#[trigger] s[i], parts[parts.len() - 1 - i]),
        s[parts.len() as int] == e,
        e.len() == 32,
        e[0] != 0 && e[0] != 0xE5 && e[11] % 64 != 15 && e[11] / 8 % 2 == 0,
    ensures
        ({
            let l = crate::fs::dir::parsed(s);
            &&& l.len() == 1
            &&& l[0].name == whole(parts, parts.len() as int)
            &&& l[0].first_cluster == e[26] + 256 * e[27] + 0x1_0000 * (e[20] + 256 * e[21])
            &&& l[0].size == e[28] + 256 * e[29] + 0x1_0000 * e[30] + 0x100_0000 * e[31]
            &&& l[0].is_dir == (e[11] / 16 % 2 == 1)
        }),
{
    assert(last_parts(parts, 0) =~= Seq::<Seq<char>>::empty());
    lemma_long_parse(s, parts, e, 0);
    lemma_joined(parts, parts.len() as int);
    lemma_tail(parts, 0);
    assert(whole(parts, 0) + tail(parts, 0) =~= tail(parts, 0));
    law_directory_entry(e);
    reveal_with_fuel(crate::fs::dir::parse_from, 3);
}

} // verus!
