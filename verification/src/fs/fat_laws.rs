//! What the FAT32 driver promises: the FAT copies stay mirrored, and what is
//! written is what is read back.

use vstd::prelude::*;

use crate::fs::fat32::{FatV, FsErr, BAD, EOC, EOC_MIN, GUARD};

verus! {

// ---------------------------------------------------------------------------
// Arithmetic
// ---------------------------------------------------------------------------
/// A number has one quotient and one remainder.
proof fn lemma_radix(a: int, s: int, b: int, t: int, n: int)
    requires
        0 <= s < n,
        0 <= t < n,
        a * n + s == b * n + t,
    ensures
        a == b,
        s == t,
{
    vstd::arithmetic::div_mod::lemma_fundamental_div_mod_converse(a * n + s, n, a, s);
    vstd::arithmetic::div_mod::lemma_fundamental_div_mod_converse(b * n + t, n, b, t);
}

/// Sectors of different clusters, and different sectors of one, are different.
proof fn lemma_sector_unique(v: FatV, c: u32, s: int, d: u32, t: int)
    requires
        0 <= s < v.spc,
        0 <= t < v.spc,
        v.lba(c) + s == v.lba(d) + t,
    ensures
        c == d,
        s == t,
{
    lemma_radix(c - 2, s, d - 2, t, v.spc);
}

pub proof fn lemma_lba_in_data(v: FatV, c: u32)
    requires
        v.geometry_ok(),
        c >= 2,
    ensures
        v.lba(c) >= v.data_begin,
{
    assert((c - 2) * v.spc >= 0) by (nonlinear_arith)
        requires
            c >= 2,
            v.spc >= 1,
    ;
}

/// Sector `t` of cluster `c`.
pub open spec fn sec_lba(v: FatV, c: u32, t: int) -> int {
    v.lba(c) + t
}

/// The sector of FAT sector `so` in copy `f`.
pub open spec fn fat_lba(v: FatV, f: int, so: int) -> int {
    v.fat_begin + f * v.fat_size + so
}

pub proof fn lemma_fat_lba_bound(v: FatV, f: int, so: int)
    requires
        v.geometry_ok(),
        0 <= f < v.num_fats,
        0 <= so < v.fat_size,
    ensures
        0 <= fat_lba(v, f, so) < v.data_begin,
{
    assert(f * v.fat_size + v.fat_size <= v.num_fats * v.fat_size) by (nonlinear_arith)
        requires
            f + 1 <= v.num_fats,
            v.fat_size >= 1,
    ;
    assert(0 <= f * v.fat_size) by (nonlinear_arith)
        requires
            0 <= f,
            v.fat_size >= 1,
    ;
}

// ---------------------------------------------------------------------------
// The FAT copies
// ---------------------------------------------------------------------------
/// Every copy of the FAT on disk holds what the cache holds.
pub open spec fn mirrored(v: FatV) -> bool {
    forall|f: int, so: int|
        0 <= f < v.num_fats && 0 <= so < v.fat_size ==> v.disk[#[trigger] fat_lba(v, f, so)] == crate::fs::fat_write::fat_sector(v.fat, so)
}

/// Whether the data area is untouched between two states of a volume.
pub open spec fn same_data(a: FatV, b: FatV) -> bool {
    forall|j: int| a.data_begin <= j < a.disk.len() ==> #[trigger] b.disk[j] == a.disk[j]
}

proof fn lemma_put_copies(v: FatV, so: int, f: int)
    requires
        v.geometry_ok(),
        v.writable,
        v.data_begin <= v.disk.len(),
        0 <= so < v.fat_size,
        0 <= f <= v.num_fats,
    ensures
        ({
            let (v1, ok) = crate::fs::fat_write::put_copies(v, so, f);
            &&& ok
            &&& v1.geometry_ok()
            &&& v1.same_volume(v)
            &&& v1.fat == v.fat
            &&& same_data(v, v1)
            &&& forall|g: int, t: int|
                0 <= g < v.num_fats && 0 <= t < v.fat_size ==> v1.disk[#[trigger] fat_lba(v, g, t)] == if t == so && g
                    >= f {
                    crate::fs::fat_write::fat_sector(v.fat, so)
                } else {
                    v.disk[fat_lba(v, g, t)]
                }
        }),
    decreases v.num_fats - f,
{
    if f < v.num_fats {
        lemma_fat_lba_bound(v, f, so);
        let at = fat_lba(v, f, so);
        let v1 = FatV { disk: v.disk.update(at, crate::fs::fat_write::fat_sector(v.fat, so)), ..v };
        assert(v1.geometry_ok());
        lemma_put_copies(v1, so, f + 1);
        let v2 = crate::fs::fat_write::put_copies(v1, so, f + 1).0;
        assert(crate::fs::fat_write::put_copies(v, so, f) == crate::fs::fat_write::put_copies(v1, so, f + 1));
        assert forall|g: int, t: int| 0 <= g < v.num_fats && 0 <= t < v.fat_size implies v2.disk[#[trigger] fat_lba(
            v,
            g,
            t,
        )] == if t == so && g >= f {
            crate::fs::fat_write::fat_sector(v.fat, so)
        } else {
            v.disk[fat_lba(v, g, t)]
        } by {
            lemma_fat_lba_bound(v, g, t);
            assert(fat_lba(v1, g, t) == fat_lba(v, g, t));
            if fat_lba(v, g, t) == at {
                lemma_radix(g, t, f, so, v.fat_size);
            }
        }
        assert forall|j: int| v.data_begin <= j < v.disk.len() implies #[trigger] v2.disk[j] == v.disk[j] by {
            assert(v2.disk[j] == v1.disk[j]);
        }
    }
}

/// What setting a FAT entry does on a writable volume that its FAT area fits:
/// it succeeds, changes that entry, leaves the data area alone and keeps the
/// copies mirrored.
pub proof fn lemma_fat_set(v: FatV, c: u32, val: u32)
    requires
        v.geometry_ok(),
        v.writable,
        v.data_begin <= v.disk.len(),
        c < v.fat.len(),
    ensures
        ({
            let (v1, r) = crate::fs::fat_write::fat_set_spec(v, c, val);
            &&& r is Ok
            &&& v1.geometry_ok()
            &&& v1.same_volume(v)
            &&& v1.fat == v.fat.update(c as int, val)
            &&& same_data(v, v1)
            &&& mirrored(v) ==> mirrored(v1)
        }),
{
    let w = FatV { fat: v.fat.update(c as int, val), ..v };
    let so = (c / 128) as int;
    lemma_put_copies(w, so, 0);
    let v1 = crate::fs::fat_write::put_copies(w, so, 0).0;
    if mirrored(v) {
        assert forall|f: int, t: int| 0 <= f < v1.num_fats && 0 <= t < v1.fat_size implies v1.disk[#[trigger] fat_lba(
            v1,
            f,
            t,
        )] == crate::fs::fat_write::fat_sector(v1.fat, t) by {
            assert(fat_lba(v1, f, t) == fat_lba(w, f, t));
            assert(fat_lba(w, f, t) == fat_lba(v, f, t));
            if t != so {
                assert(crate::fs::fat_write::fat_sector(v1.fat, t) =~= crate::fs::fat_write::fat_sector(v.fat, t));
            }
        }
    }
}

pub proof fn lemma_alloc(v: FatV)
    requires
        v.geometry_ok(),
        v.writable,
        v.data_begin <= v.disk.len(),
        crate::fs::fat_write::alloc_spec(v).1 is Some,
    ensures
        ({
            let (v1, r) = crate::fs::fat_write::alloc_spec(v);
            let c = r->Some_0;
            &&& 2 <= c < v.fat.len()
            &&& v.fat[c as int] == 0
            &&& v1.geometry_ok()
            &&& v1.same_volume(v)
            &&& v1.fat == v.fat.update(c as int, EOC)
            &&& same_data(v, v1)
            &&& mirrored(v) ==> mirrored(v1)
        }),
{
    crate::seqs::lemma_first_from(v.fat, crate::fs::fat_write::is_zero(), 2);
    let i = crate::fs::fat_write::first_free(v)->Some_0;
    lemma_fat_set(v, i as u32, EOC);
}

/// A set of clusters that the FAT's links do not lead out of.
pub open spec fn closed(v: FatV, s: Set<u32>) -> bool {
    forall|c: u32|
        s.contains(c) && c < v.fat.len() && 2 <= #[trigger] v.fat[c as int] < EOC_MIN && v.fat[c as int] < v.fat.len()
            ==> s.contains(v.fat[c as int])
}

/// Freeing a chain succeeds, changes only FAT entries of the clusters that
/// the links from its start reach, and leaves the data area alone.
pub proof fn lemma_free(v: FatV, c: u32, fuel: nat, s: Set<u32>)
    requires
        v.geometry_ok(),
        v.writable,
        v.data_begin <= v.disk.len(),
        closed(v, s),
        s.contains(c),
    ensures
        ({
            let (v1, r) = crate::fs::fat_write::free_spec(v, c, fuel);
            &&& r is Ok
            &&& v1.geometry_ok()
            &&& v1.same_volume(v)
            &&& same_data(v, v1)
            &&& mirrored(v) ==> mirrored(v1)
            &&& forall|x: u32| !s.contains(x) && x < v.fat.len() ==> #[trigger] v1.fat[x as int] == v.fat[x as int]
        }),
    decreases fuel,
{
    if c >= 2 && c < v.fat.len() && fuel > 0 {
        let next = v.fat[c as int];
        lemma_fat_set(v, c, 0);
        let v1 = crate::fs::fat_write::fat_set_spec(v, c, 0).0;
        if !(next >= EOC_MIN || next < 2) {
            assert(closed(v1, s)) by {
                assert forall|d: u32|
                    s.contains(d) && d < v1.fat.len() && 2 <= #[trigger] v1.fat[d as int] < EOC_MIN && v1.fat[d as int]
                        < v1.fat.len() implies s.contains(v1.fat[d as int]) by {
                    assert(v1.fat[d as int] == if d == c { 0 } else { v.fat[d as int] });
                }
            }
            if next < v.fat.len() {
                lemma_free(v1, next, (fuel - 1) as nat, s);
                let v2 = crate::fs::fat_write::free_spec(v1, next, (fuel - 1) as nat).0;
                assert forall|j: int| v.data_begin <= j < v.disk.len() implies #[trigger] v2.disk[j] == v.disk[j] by {
                    assert(v2.disk[j] == v1.disk[j]);
                }
                assert forall|x: u32| !s.contains(x) && x < v.fat.len() implies #[trigger] v2.fat[x as int]
                    == v.fat[x as int] by {
                    assert(v2.fat[x as int] == v1.fat[x as int]);
                }
            }
        }
    }
}

// ---------------------------------------------------------------------------
// Chains
// ---------------------------------------------------------------------------
/// `ch` is a whole chain: each cluster is followed by the next, the last by
/// none.
pub open spec fn is_chain(v: FatV, ch: Seq<u32>) -> bool {
    &&& ch.len() > 0
    &&& forall|i: int| 0 <= i < ch.len() ==> 2 <= #[trigger] ch[i] < v.fat.len()
    &&& forall|i: int| 0 <= i < ch.len() - 1 ==> v.next(#[trigger] ch[i]) == Some(ch[i + 1])
    &&& v.next(ch.last()) is None
}

/// The bytes of the clusters of `ch` from the `i`-th on.
pub open spec fn joined(v: FatV, ch: Seq<u32>, i: int) -> Seq<u8>
    decreases ch.len() - i,
{
    if i < 0 || i >= ch.len() {
        Seq::empty()
    } else {
        v.cluster(ch[i]) + joined(v, ch, i + 1)
    }
}

pub open spec fn all_on_disk(v: FatV, ch: Seq<u32>) -> bool {
    forall|i: int| 0 <= i < ch.len() ==> v.on_disk(#[trigger] ch[i])
}

proof fn lemma_chain_walk(v: FatV, ch: Seq<u32>, i: int, fuel: nat)
    requires
        is_chain(v, ch),
        0 <= i < ch.len(),
        ch.len() - i <= fuel,
    ensures
        v.chain(ch[i], fuel) == ch.skip(i),
        all_on_disk(v, ch) ==> v.chain_data(ch[i], fuel) == joined(v, ch, i),
    decreases ch.len() - i,
{
    if i + 1 < ch.len() {
        lemma_chain_walk(v, ch, i + 1, (fuel - 1) as nat);
        assert(v.next(ch[i]) == Some(ch[i + 1]));
        assert(seq![ch[i]] + ch.skip(i + 1) =~= ch.skip(i));
    } else {
        assert(ch[i] == ch.last());
        assert(seq![ch[i]] =~= ch.skip(i));
        assert(joined(v, ch, i + 1) =~= Seq::<u8>::empty());
        assert(v.cluster(ch[i]) + joined(v, ch, i + 1) =~= v.cluster(ch[i]));
    }
}

/// A walk that ends before its fuel does is a whole chain.
pub proof fn lemma_chain_is_chain(v: FatV, c: u32, fuel: nat)
    requires
        c >= 2,
        v.chain(c, fuel).len() < fuel,
        forall|i: int| 0 <= i < v.chain(c, fuel).len() ==> #[trigger] v.chain(c, fuel)[i] < v.fat.len(),
    ensures
        is_chain(v, v.chain(c, fuel)),
        v.chain(c, fuel)[0] == c,
    decreases fuel,
{
    let ch = v.chain(c, fuel);
    assert(ch[0] == c);
    match v.next(c) {
        None => {},
        Some(n) => {
            let rest = v.chain(n, (fuel - 1) as nat);
            assert(ch =~= seq![c] + rest);
            assert forall|i: int| 0 <= i < rest.len() implies #[trigger] rest[i] < v.fat.len() by {
                assert(ch[i + 1] == rest[i]);
            }
            lemma_chain_is_chain(v, n, (fuel - 1) as nat);
            assert(rest[0] == n);
            assert forall|i: int| 0 <= i < ch.len() implies 2 <= #[trigger] ch[i] < v.fat.len() by {
                if i > 0 {
                    assert(ch[i] == rest[i - 1]);
                }
            }
            assert forall|i: int| 0 <= i < ch.len() - 1 implies v.next(#[trigger] ch[i]) == Some(ch[i + 1]) by {
                if i > 0 {
                    assert(ch[i] == rest[i - 1]);
                    assert(v.next(rest[i - 1]) == Some(rest[i]));
                }
            }
            assert(ch.last() == rest.last());
        },
    }
}

/// The `q`-th sector of the clusters of `ch`.
pub open spec fn sector_at(v: FatV, ch: Seq<u32>, q: int) -> Seq<u8> {
    v.disk[v.lba(ch[q / v.spc]) + q % v.spc]
}

proof fn lemma_flat_index(disk: Seq<Seq<u8>>, lba: int, n: nat, k: int)
    requires
        forall|i: int| lba <= i < lba + n ==> (#[trigger] disk[i]).len() == 512,
        0 <= k < n * 512,
    ensures
        crate::disk::flat(disk, lba, n).len() == n * 512,
        crate::disk::flat(disk, lba, n)[k] == disk[lba + k / 512][k % 512],
    decreases n,
{
    if n > 1 {
        lemma_flat_index(disk, lba, (n - 1) as nat, 0);
        if k < (n - 1) * 512 {
            lemma_flat_index(disk, lba, (n - 1) as nat, k);
        } else {
            assert(k / 512 == n - 1);
        }
    } else {
        assert(crate::disk::flat(disk, lba, 0) =~= Seq::<u8>::empty());
        assert(k / 512 == 0);
    }
}

/// The bytes of a run of clusters, sector by sector.
proof fn lemma_joined_index(v: FatV, ch: Seq<u32>, i: int, k: int)
    requires
        v.geometry_ok(),
        all_on_disk(v, ch),
        forall|j: int| 0 <= j < ch.len() ==> 2 <= #[trigger] ch[j],
        0 <= i < ch.len(),
        0 <= k < (ch.len() - i) * (v.spc * 512),
    ensures
        joined(v, ch, i).len() == (ch.len() - i) * (v.spc * 512),
        joined(v, ch, i)[k] == sector_at(v, ch, i * v.spc + k / 512)[k % 512],
    decreases ch.len() - i,
{
    let cs = v.spc * 512;
    let c = ch[i];
    lemma_lba_in_data(v, c);
    assert(v.on_disk(c));
    lemma_flat_index(v.disk, v.lba(c), v.spc as nat, 0);
    let m = ch.len() - i;
    if i + 1 < ch.len() {
        assert((m - 1) * cs > 0) by (nonlinear_arith)
            requires
                m >= 2,
                cs >= 1,
        ;
        lemma_joined_index(v, ch, i + 1, 0);
    } else {
        assert(joined(v, ch, i + 1) =~= Seq::<u8>::empty());
        assert((m - 1) * cs == 0) by (nonlinear_arith)
            requires
                m == 1,
        ;
    }
    assert(m * cs == cs + (m - 1) * cs) by (nonlinear_arith);
    if k < cs {
        lemma_flat_index(v.disk, v.lba(c), v.spc as nat, k);
        let s = k / 512;
        vstd::arithmetic::div_mod::lemma_fundamental_div_mod_converse(i * v.spc + s, v.spc, i, s);
    } else {
        let k2 = k - cs;
        lemma_joined_index(v, ch, i + 1, k2);
        assert(k / 512 == v.spc + k2 / 512);
        assert(k % 512 == k2 % 512);
        assert((i + 1) * v.spc == i * v.spc + v.spc) by (nonlinear_arith);
    }
}

// ---------------------------------------------------------------------------
// Writing a chain
// ---------------------------------------------------------------------------
/// `ch` has been taken out of the free clusters of `v0` and linked up in `v`,
/// which is otherwise as it was.
pub open spec fn taken_from(v0: FatV, v: FatV, ch: Seq<u32>) -> bool {
    &&& v.geometry_ok()
    &&& v.same_volume(v0)
    &&& same_data(v0, v)
    &&& ch.no_duplicates()
    &&& forall|i: int| 0 <= i < ch.len() ==> 2 <= #[trigger] ch[i] < v0.fat.len() && v0.fat[ch[i] as int] == 0
    &&& forall|i: int| 0 <= i < ch.len() - 1 ==> v.fat[#[trigger] ch[i] as int] == ch[i + 1]
    &&& ch.len() > 0 ==> v.fat[ch.last() as int] == EOC
    &&& forall|x: u32| x < v0.fat.len() && !ch.contains(x) ==> #[trigger] v.fat[x as int] == v0.fat[x as int]
    &&& mirrored(v0) ==> mirrored(v)
}

#[verifier::rlimit(40)]
proof fn lemma_alloc_chain(v0: FatV, v: FatV, ch: Seq<u32>, need: nat)
    requires
        v0.geometry_ok(),
        v0.writable,
        v0.data_begin <= v0.disk.len(),
        taken_from(v0, v, ch),
        ch.len() <= need,
        crate::fs::fat_write::alloc_chain(v, ch, need).2 is Ok,
    ensures
        ({
            let (v1, ch1, r) = crate::fs::fat_write::alloc_chain(v, ch, need);
            &&& ch1.len() == need
            &&& taken_from(v0, v1, ch1)
        }),
    decreases need - ch.len(),
{
    if ch.len() < need {
        let (v1, got) = crate::fs::fat_write::alloc_spec(v);
        assert(got is Some);
        let c = got->Some_0;
        lemma_alloc(v);
        assert(!ch.contains(c)) by {
            if ch.contains(c) {
                let i = choose|i: int| 0 <= i < ch.len() && ch[i] == c;
                if i < ch.len() - 1 {
                    assert(v.fat[ch[i] as int] == ch[i + 1]);
                    assert(2 <= ch[i + 1]);
                } else {
                    assert(ch[i] == ch.last());
                }
            }
        }
        assert(v0.fat[c as int] == 0);
        let ch1 = ch.push(c);
        assert(ch1.no_duplicates());
        let w = if ch.len() > 0 {
            lemma_fat_set(v1, ch.last(), c);
            crate::fs::fat_write::fat_set_spec(v1, ch.last(), c).0
        } else {
            v1
        };
        assert(taken_from(v0, w, ch1)) by {
            assert forall|j: int| v0.data_begin <= j < v0.disk.len() implies #[trigger] w.disk[j] == v0.disk[j] by {
                assert(v.disk[j] == v0.disk[j]);
                assert(v1.disk[j] == v.disk[j]);
                if ch.len() > 0 {
                    assert(w.disk[j] == v1.disk[j]);
                }
            }
            assert forall|i: int| 0 <= i < ch1.len() - 1 implies w.fat[#[trigger] ch1[i] as int] == ch1[i + 1] by {
                if i < ch.len() - 1 {
                    assert(v.fat[ch[i] as int] == ch[i + 1]);
                    assert(ch[i] != c);
                    assert(ch[i] != ch.last());
                } else {
                    assert(ch1[i] == ch.last());
                }
            }
            assert forall|x: u32| x < v0.fat.len() && !ch1.contains(x) implies #[trigger] w.fat[x as int]
                == v0.fat[x as int] by {
                assert(ch1[ch1.len() - 1] == c);
                assert(x != c);
                assert(!ch.contains(x)) by {
                    if ch.contains(x) {
                        let i = choose|i: int| 0 <= i < ch.len() && ch[i] == x;
                        assert(ch1[i] == x);
                    }
                }
                if ch.len() > 0 {
                    assert(ch.contains(ch.last()));
                }
                assert(v.fat[x as int] == v0.fat[x as int]);
            }
            assert forall|i: int| 0 <= i < ch1.len() implies 2 <= #[trigger] ch1[i] < v0.fat.len() && v0.fat[ch1[i] as int]
                == 0 by {
                if i < ch.len() {
                    assert(ch1[i] == ch[i]);
                }
            }
            assert(ch1.last() == c);
            assert(w.fat[c as int] == EOC) by {
                if ch.len() > 0 {
                    assert(ch.contains(ch.last()));
                }
            }
        }
        assert(crate::fs::fat_write::alloc_chain(v, ch, need) == crate::fs::fat_write::alloc_chain(w, ch1, need));
        lemma_alloc_chain(v0, w, ch1, need);
    }
}

/// Writing data into clusters fills exactly their sectors.
#[verifier::rlimit(40)]
proof fn lemma_put_data(v: FatV, ch: Seq<u32>, data: Seq<u8>, i: int, s: int)
    requires
        v.geometry_ok(),
        ch.no_duplicates(),
        forall|j: int| 0 <= j < ch.len() ==> 2 <= #[trigger] ch[j],
        0 <= i <= ch.len(),
        0 <= s <= v.spc,
        crate::fs::fat_write::put_data(v, ch, data, i, s).1,
    ensures
        ({
            let v1 = crate::fs::fat_write::put_data(v, ch, data, i, s).0;
            &&& v1.geometry_ok()
            &&& v1.same_volume(v)
            &&& v1.fat == v.fat
            &&& i < ch.len() && s < v.spc ==> v.writable
            &&& forall|a: int, t: int|
                (i < a < ch.len() && 0 <= t < v.spc || a == i && a < ch.len() && s <= t < v.spc) ==> (#[trigger] sec_lba(
                    v,
                    ch[a],
                    t,
                )) < v.disk.len() && v1.disk[sec_lba(v, ch[a], t)] == crate::fs::fat_write::data_sector(data, (a * v.spc + t) * 512)
            &&& forall|a: int, t: int|
                (0 <= a < i && a < ch.len() && 0 <= t < v.spc || a == i && a < ch.len() && 0 <= t < s) && (
                #[trigger] sec_lba(v, ch[a], t)) < v.disk.len() ==> v1.disk[sec_lba(v, ch[a], t)] == v.disk[sec_lba(
                    v,
                    ch[a],
                    t,
                )]
            &&& forall|c: u32, t: int|
                c >= 2 && !ch.contains(c) && 0 <= t < v.spc && (#[trigger] sec_lba(v, c, t)) < v.disk.len()
                    ==> v1.disk[sec_lba(v, c, t)] == v.disk[sec_lba(v, c, t)]
            &&& forall|j: int| 0 <= j < v.data_begin ==> #[trigger] v1.disk[j] == v.disk[j]
        }),
    decreases ch.len() - i, v.spc - s,
{
    if i >= ch.len() {
    } else if s >= v.spc {
        lemma_put_data(v, ch, data, i + 1, 0);
    } else {
        let at = v.lba(ch[i]) + s;
        let sec = crate::fs::fat_write::data_sector(data, (i * v.spc + s) * 512);
        lemma_lba_in_data(v, ch[i]);
        let w = FatV { disk: v.disk.update(at, sec), ..v };
        assert(crate::fs::fat_write::write_one(v, at, sec) == (w, true));
        assert(sec.len() == 512);
        assert(w.geometry_ok());
        lemma_put_data(w, ch, data, i, s + 1);
        let v1 = crate::fs::fat_write::put_data(w, ch, data, i, s + 1).0;
        assert(crate::fs::fat_write::put_data(v, ch, data, i, s).0 == v1);
        assert forall|a: int, t: int|
            (i < a < ch.len() && 0 <= t < v.spc || a == i && a < ch.len() && s <= t < v.spc) implies (#[trigger] sec_lba(
            v,
            ch[a],
            t,
        )) < v.disk.len() && v1.disk[sec_lba(v, ch[a], t)] == crate::fs::fat_write::data_sector(data, (a * v.spc + t) * 512) by {
            assert(sec_lba(w, ch[a], t) == sec_lba(v, ch[a], t));
        }
        assert forall|a: int, t: int|
            (0 <= a < i && a < ch.len() && 0 <= t < v.spc || a == i && a < ch.len() && 0 <= t < s) && (
            #[trigger] sec_lba(v, ch[a], t)) < v.disk.len() implies v1.disk[sec_lba(v, ch[a], t)] == v.disk[sec_lba(
            v,
            ch[a],
            t,
        )] by {
            assert(sec_lba(w, ch[a], t) == sec_lba(v, ch[a], t));
            lemma_lba_in_data(v, ch[a]);
            if sec_lba(v, ch[a], t) == at {
                lemma_sector_unique(v, ch[a], t, ch[i], s);
                assert(ch[a] == ch[i]);
            }
        }
        assert forall|c: u32, t: int|
            c >= 2 && !ch.contains(c) && 0 <= t < v.spc && (#[trigger] sec_lba(v, c, t)) < v.disk.len() implies v1.disk[sec_lba(
            v,
            c,
            t,
        )] == v.disk[sec_lba(v, c, t)] by {
            assert(sec_lba(w, c, t) == sec_lba(v, c, t));
            lemma_lba_in_data(v, c);
            if sec_lba(v, c, t) == at {
                lemma_sector_unique(v, c, t, ch[i], s);
                assert(ch.contains(ch[i]));
            }
        }
    }
}

// ---------------------------------------------------------------------------
// What stays as it was
// ---------------------------------------------------------------------------
/// The clusters of `ch` and their FAT entries are the same in both states.
pub open spec fn keeps_chain(v: FatV, w: FatV, ch: Seq<u32>) -> bool {
    &&& w.geometry_ok()
    &&& w.same_volume(v)
    &&& forall|i: int| 0 <= i < ch.len() ==> w.fat[#[trigger] ch[i] as int] == v.fat[ch[i] as int]
    &&& forall|i: int, t: int|
        0 <= i < ch.len() && 0 <= t < v.spc ==> w.disk[#[trigger] sec_lba(v, ch[i], t)] == v.disk[sec_lba(v, ch[i], t)]
}

proof fn lemma_flat_same(a: Seq<Seq<u8>>, b: Seq<Seq<u8>>, lba: int, n: nat)
    requires
        forall|t: int| 0 <= t < n ==> a[#[trigger] (lba + t)] == b[lba + t],
    ensures
        crate::disk::flat(a, lba, n) == crate::disk::flat(b, lba, n),
    decreases n,
{
    if n > 0 {
        lemma_flat_same(a, b, lba, (n - 1) as nat);
        assert(a[lba + (n - 1)] == b[lba + (n - 1)]);
    }
}

proof fn lemma_joined_same(v: FatV, w: FatV, ch: Seq<u32>, i: int)
    requires
        keeps_chain(v, w, ch),
        0 <= i,
    ensures
        joined(v, ch, i) == joined(w, ch, i),
    decreases ch.len() - i,
{
    if i < ch.len() {
        lemma_joined_same(v, w, ch, i + 1);
        assert forall|t: int| 0 <= t < v.spc implies v.disk[#[trigger] (v.lba(ch[i]) + t)] == w.disk[v.lba(ch[i])
            + t] by {
            assert(sec_lba(v, ch[i], t) == v.lba(ch[i]) + t);
        }
        lemma_flat_same(v.disk, w.disk, v.lba(ch[i]), v.spc as nat);
    }
}

/// A chain that is kept reads the same.
pub proof fn lemma_kept_contents(v: FatV, w: FatV, ch: Seq<u32>)
    requires
        is_chain(v, ch),
        all_on_disk(v, ch),
        ch.len() <= GUARD,
        keeps_chain(v, w, ch),
    ensures
        is_chain(w, ch),
        all_on_disk(w, ch),
        w.chain(ch[0], GUARD as nat) == ch,
        w.contents(ch[0]) == v.contents(ch[0]),
        w.contents(ch[0]) == joined(w, ch, 0),
{
    assert(is_chain(w, ch)) by {
        assert forall|i: int| 0 <= i < ch.len() - 1 implies w.next(#[trigger] ch[i]) == Some(ch[i + 1]) by {
            assert(v.next(ch[i]) == Some(ch[i + 1]));
        }
        assert(ch.last() == ch[ch.len() - 1]);
    }
    assert(all_on_disk(w, ch)) by {
        assert forall|i: int| 0 <= i < ch.len() implies w.on_disk(#[trigger] ch[i]) by {
            assert(v.on_disk(ch[i]));
        }
    }
    lemma_chain_walk(v, ch, 0, GUARD as nat);
    lemma_chain_walk(w, ch, 0, GUARD as nat);
    lemma_joined_same(v, w, ch, 0);
    assert(ch.skip(0) =~= ch);
}

// ---------------------------------------------------------------------------
// A written chain holds the data
// ---------------------------------------------------------------------------
/// `ch` holds `data`, zero-padded, in clusters that were free in `v0`; every
/// other cluster and FAT entry is as it was there.
pub open spec fn holds(v0: FatV, v: FatV, ch: Seq<u32>, data: Seq<u8>) -> bool {
    &&& v.geometry_ok()
    &&& v.same_volume(v0)
    &&& is_chain(v, ch)
    &&& all_on_disk(v, ch)
    &&& ch.len() == crate::fs::fat_write::clusters_for(v0, data.len())
    &&& forall|i: int| 0 <= i < ch.len() ==> v0.fat[#[trigger] ch[i] as int] == 0
    &&& forall|i: int| 0 <= i < ch.len() ==> v.fat[#[trigger] ch[i] as int] != 0
    &&& forall|q: int| 0 <= q < ch.len() * v.spc ==> #[trigger] sector_at(v, ch, q) == crate::fs::fat_write::data_sector(data, q * 512)
    &&& forall|x: u32| x < v0.fat.len() && v0.fat[x as int] != 0 ==> #[trigger] v.fat[x as int] == v0.fat[x as int]
    &&& forall|c: u32, t: int|
        2 <= c < v0.fat.len() && v0.fat[c as int] != 0 && 0 <= t < v0.spc && (#[trigger] sec_lba(v0, c, t))
            < v0.disk.len() ==> v.disk[sec_lba(v0, c, t)] == v0.disk[sec_lba(v0, c, t)]
    &&& mirrored(v0) ==> mirrored(v)
}

#[verifier::rlimit(40)]
proof fn lemma_write_chain(v: FatV, data: Seq<u8>) -> (ch: Seq<u32>)
    requires
        v.geometry_ok(),
        v.writable,
        v.data_begin <= v.disk.len(),
        data.len() > 0,
        crate::fs::fat_write::write_chain_spec(v, data).1 is Ok,
    ensures
        holds(v, crate::fs::fat_write::write_chain_spec(v, data).0, ch, data),
        crate::fs::fat_write::write_chain_spec(v, data).1 == Ok::<u32, FsErr>(ch[0]),
{
    let need = crate::fs::fat_write::clusters_for(v, data.len());
    let cs = (v.spc * 512) as int;
    assert(need > 0) by {
        let q = data.len() as int / cs;
        vstd::arithmetic::div_mod::lemma_fundamental_div_mod(data.len() as int, cs);
        vstd::arithmetic::div_mod::lemma_div_pos_is_pos(data.len() as int, cs);
        if q == 0 {
            assert(cs * q == 0) by (nonlinear_arith)
                requires
                    q == 0,
            ;
        }
    }
    let empty = Seq::<u32>::empty();
    assert(taken_from(v, v, empty));
    lemma_alloc_chain(v, v, empty, need);
    let (v1, ch, r) = crate::fs::fat_write::alloc_chain(v, empty, need);
    assert(forall|j: int| 0 <= j < ch.len() ==> 2 <= #[trigger] ch[j]);
    lemma_put_data(v1, ch, data, 0, 0);
    let v2 = crate::fs::fat_write::put_data(v1, ch, data, 0, 0).0;
    assert(is_chain(v2, ch)) by {
        assert forall|i: int| 0 <= i < ch.len() - 1 implies v2.next(#[trigger] ch[i]) == Some(ch[i + 1]) by {
            assert(v1.fat[ch[i] as int] == ch[i + 1]);
            assert(2 <= ch[i + 1] < v.fat.len());
        }
    }
    assert(all_on_disk(v2, ch)) by {
        assert forall|i: int| 0 <= i < ch.len() implies v2.on_disk(#[trigger] ch[i]) by {
            assert(sec_lba(v1, ch[i], v.spc - 1) < v1.disk.len());
        }
    }
    assert forall|q: int| 0 <= q < ch.len() * v2.spc implies #[trigger] sector_at(v2, ch, q) == crate::fs::fat_write::data_sector(
        data,
        q * 512,
    ) by {
        let a = q / v2.spc;
        let t = q % v2.spc;
        vstd::arithmetic::div_mod::lemma_fundamental_div_mod(q, v2.spc);
        vstd::arithmetic::mul::lemma_mul_is_commutative(v2.spc, a);
        assert(0 <= a < ch.len()) by {
            vstd::arithmetic::div_mod::lemma_div_pos_is_pos(q, v2.spc);
            if a >= ch.len() {
                vstd::arithmetic::mul::lemma_mul_inequality(ch.len() as int, a, v2.spc);
            }
        }
        assert(sec_lba(v1, ch[a], t) == v2.lba(ch[a]) + t);
        assert(a * v1.spc + t == q);
    }
    assert forall|x: u32| x < v.fat.len() && v.fat[x as int] != 0 implies #[trigger] v2.fat[x as int] == v.fat[x as int] by {
        assert(!ch.contains(x));
        assert(v1.fat[x as int] == v.fat[x as int]);
    }
    assert forall|c: u32, t: int|
        2 <= c < v.fat.len() && v.fat[c as int] != 0 && 0 <= t < v.spc && (#[trigger] sec_lba(v, c, t))
            < v.disk.len() implies v2.disk[sec_lba(v, c, t)] == v.disk[sec_lba(v, c, t)] by {
        assert(!ch.contains(c));
        lemma_lba_in_data(v, c);
        assert(sec_lba(v1, c, t) == sec_lba(v, c, t));
        assert(v1.disk[sec_lba(v, c, t)] == v.disk[sec_lba(v, c, t)]);
    }
    assert forall|i: int| 0 <= i < ch.len() implies v2.fat[#[trigger] ch[i] as int] != 0 by {
        if i < ch.len() - 1 {
            assert(v1.fat[ch[i] as int] == ch[i + 1]);
        } else {
            assert(ch[i] == ch.last());
        }
    }
    assert(mirrored(v) ==> mirrored(v2)) by {
        if mirrored(v) {
            assert forall|f: int, so: int| 0 <= f < v2.num_fats && 0 <= so < v2.fat_size implies v2.disk[#[trigger] fat_lba(
                v2,
                f,
                so,
            )] == crate::fs::fat_write::fat_sector(v2.fat, so) by {
                lemma_fat_lba_bound(v1, f, so);
                assert(fat_lba(v2, f, so) == fat_lba(v1, f, so));
            }
        }
    }
    ch
}

/// Sectors that hold zero-padded data read back, cut to length, as the data.
proof fn lemma_holds_reads(v: FatV, ch: Seq<u32>, data: Seq<u8>)
    requires
        v.geometry_ok(),
        is_chain(v, ch),
        all_on_disk(v, ch),
        ch.len() <= GUARD,
        ch.len() == crate::fs::fat_write::clusters_for(v, data.len()),
        forall|q: int| 0 <= q < ch.len() * v.spc ==> #[trigger] sector_at(v, ch, q) == crate::fs::fat_write::data_sector(data, q * 512),
    ensures
        crate::fs::fat32::cut(v.contents(ch[0]), data.len() as int) == data,
{
    let cs = v.spc * 512;
    let n = ch.len() as int;
    lemma_chain_walk(v, ch, 0, GUARD as nat);
    let all = v.contents(ch[0]);
    assert(all == joined(v, ch, 0));
    assert(n * cs > 0) by (nonlinear_arith)
        requires
            n >= 1,
            cs >= 1,
    ;
    lemma_joined_index(v, ch, 0, 0);
    assert(data.len() <= n * cs) by {
        vstd::arithmetic::div_mod::lemma_fundamental_div_mod(data.len() as int, cs);
        let q = data.len() as int / cs;
        vstd::arithmetic::mul::lemma_mul_is_commutative(cs, q);
        assert((q + 1) * cs == q * cs + cs) by (nonlinear_arith);
    }
    assert(n * cs == n * v.spc * 512) by (nonlinear_arith)
        requires
            cs == v.spc * 512,
    ;
    assert forall|k: int| 0 <= k < data.len() implies #[trigger] all[k] == data[k] by {
        lemma_joined_index(v, ch, 0, k);
        let q = k / 512;
        assert(0 <= q < n * v.spc);
        assert(sector_at(v, ch, q) == crate::fs::fat_write::data_sector(data, q * 512));
        assert(q * 512 + k % 512 == k);
    }
    assert(crate::fs::fat32::cut(all, data.len() as int) =~= data);
}

// ---------------------------------------------------------------------------
// The directory
// ---------------------------------------------------------------------------
/// A chain that can be read and written as a directory.
pub open spec fn is_dir_chain(v: FatV, ch: Seq<u32>) -> bool {
    &&& is_chain(v, ch)
    &&& all_on_disk(v, ch)
    &&& ch.no_duplicates()
    &&& ch.len() <= GUARD
    &&& ch[0] == v.root
}

proof fn lemma_slots_overlay(raw: Seq<u8>, idx: int, e: Seq<u8>)
    requires
        e.len() == 32,
        0 <= idx < raw.len() / 32,
    ensures
        crate::fs::dir::slots(crate::bytes::overlay(raw, 32 * idx, e)) == crate::fs::dir::slots(raw).update(idx, e),
{
    let a = crate::fs::dir::slots(crate::bytes::overlay(raw, 32 * idx, e));
    let b = crate::fs::dir::slots(raw).update(idx, e);
    assert forall|k: int| 0 <= k < a.len() implies a[k] == b[k] by {
        assert(a[k] =~= b[k]);
    }
    assert(a =~= b);
}

/// Patching a slot replaces that slot of the directory, and nothing outside
/// the directory's clusters.
#[verifier::rlimit(40)]
pub proof fn lemma_patch(v: FatV, ch: Seq<u32>, idx: int, e: Seq<u8>)
    requires
        v.geometry_ok(),
        is_dir_chain(v, ch),
        e.len() == 32,
        0 <= idx,
        crate::fs::fat_write::patch_spec(v, ch, idx, e).1 is Ok,
    ensures
        ({
            let w = crate::fs::fat_write::patch_spec(v, ch, idx, e).0;
            &&& w.geometry_ok()
            &&& w.same_volume(v)
            &&& w.fat == v.fat
            &&& is_dir_chain(w, ch)
            &&& idx < v.dir(v.root).len()
            &&& w.dir(v.root) == v.dir(v.root).update(idx, e)
            &&& forall|c: u32, t: int|
                c >= 2 && !ch.contains(c) && 0 <= t < v.spc && (#[trigger] sec_lba(v, c, t)) < v.disk.len()
                    ==> w.disk[sec_lba(v, c, t)] == v.disk[sec_lba(v, c, t)]
            &&& mirrored(v) ==> mirrored(w)
        }),
{
    let w = crate::fs::fat_write::patch_spec(v, ch, idx, e).0;
    let q0 = idx / 16;
    let a0 = q0 / v.spc;
    let t0 = q0 % v.spc;
    let n = ch.len() as int;
    vstd::arithmetic::div_mod::lemma_fundamental_div_mod(q0, v.spc);
    vstd::arithmetic::div_mod::lemma_div_pos_is_pos(q0, v.spc);
    vstd::arithmetic::mul::lemma_mul_is_commutative(v.spc, a0);
    let at = v.lba(ch[a0]) + t0;
    lemma_lba_in_data(v, ch[a0]);
    assert(v.disk[at].len() == 512);
    let sec = crate::bytes::overlay(v.disk[at], (idx % 16) * 32, e);
    assert(w.disk == v.disk.update(at, sec));
    assert(w.geometry_ok());
    assert(is_chain(w, ch)) by {
        assert forall|i: int| 0 <= i < ch.len() - 1 implies w.next(#[trigger] ch[i]) == Some(ch[i + 1]) by {
            assert(v.next(ch[i]) == Some(ch[i + 1]));
        }
        assert(w.next(ch.last()) == v.next(ch.last()));
    }
    assert forall|i: int| 0 <= i < ch.len() implies w.on_disk(#[trigger] ch[i]) by {
        assert(v.on_disk(ch[i]));
    }
    lemma_chain_walk(v, ch, 0, GUARD as nat);
    lemma_chain_walk(w, ch, 0, GUARD as nat);
    let cs = v.spc * 512;
    assert(n * cs > 0) by (nonlinear_arith)
        requires
            n >= 1,
            cs >= 1,
    ;
    lemma_joined_index(v, ch, 0, 0);
    lemma_joined_index(w, ch, 0, 0);
    let x = v.contents(v.root);
    let y = w.contents(v.root);
    assert((a0 + 1) * v.spc <= n * v.spc) by (nonlinear_arith)
        requires
            a0 + 1 <= n,
            v.spc >= 1,
    ;
    assert((a0 + 1) * v.spc == a0 * v.spc + v.spc) by (nonlinear_arith);
    assert(n * cs == n * v.spc * 512) by (nonlinear_arith)
        requires
            cs == v.spc * 512,
    ;
    assert(idx < x.len() / 32);
    assert forall|k: int| 0 <= k < x.len() implies #[trigger] y[k] == crate::bytes::overlay(x, 32 * idx, e)[k] by {
        lemma_joined_index(v, ch, 0, k);
        lemma_joined_index(w, ch, 0, k);
        let q = k / 512;
        let a = q / v.spc;
        let t = q % v.spc;
        vstd::arithmetic::div_mod::lemma_fundamental_div_mod(q, v.spc);
        vstd::arithmetic::div_mod::lemma_div_pos_is_pos(q, v.spc);
        vstd::arithmetic::mul::lemma_mul_is_commutative(v.spc, a);
        assert(a < n) by {
            if a >= n {
                vstd::arithmetic::mul::lemma_mul_inequality(n, a, v.spc);
            }
        }
        lemma_lba_in_data(v, ch[a]);
        assert(v.on_disk(ch[a]));
        if v.lba(ch[a]) + t == at {
            lemma_sector_unique(v, ch[a], t, ch[a0], t0);
            assert(a == a0);
            assert(q == q0);
        } else {
            assert(q != q0);
        }
    }
    assert(y =~= crate::bytes::overlay(x, 32 * idx, e));
    lemma_slots_overlay(x, idx, e);
    assert forall|c: u32, t: int|
        c >= 2 && !ch.contains(c) && 0 <= t < v.spc && (#[trigger] sec_lba(v, c, t)) < v.disk.len() implies w.disk[sec_lba(
        v,
        c,
        t,
    )] == v.disk[sec_lba(v, c, t)] by {
        lemma_lba_in_data(v, c);
        if sec_lba(v, c, t) == at {
            lemma_sector_unique(v, c, t, ch[a0], t0);
            assert(ch.contains(ch[a0]));
        }
    }
    if mirrored(v) {
        assert forall|f: int, so: int| 0 <= f < w.num_fats && 0 <= so < w.fat_size implies w.disk[#[trigger] fat_lba(
            w,
            f,
            so,
        )] == crate::fs::fat_write::fat_sector(w.fat, so) by {
            lemma_fat_lba_bound(v, f, so);
            assert(fat_lba(w, f, so) == fat_lba(v, f, so));
        }
    }
}

/// Patching a slot that the directory has succeeds.
pub proof fn lemma_patch_succeeds(v: FatV, ch: Seq<u32>, idx: int, e: Seq<u8>)
    requires
        v.geometry_ok(),
        v.writable,
        is_dir_chain(v, ch),
        0 <= idx < v.dir(v.root).len(),
    ensures
        crate::fs::fat_write::patch_spec(v, ch, idx, e).1 is Ok,
{
    let q0 = idx / 16;
    let a0 = q0 / v.spc;
    let n = ch.len() as int;
    let cs = v.spc * 512;
    lemma_chain_walk(v, ch, 0, GUARD as nat);
    assert(n * cs > 0) by (nonlinear_arith)
        requires
            n >= 1,
            cs >= 1,
    ;
    lemma_joined_index(v, ch, 0, 0);
    assert(n * cs == n * v.spc * 512) by (nonlinear_arith)
        requires
            cs == v.spc * 512,
    ;
    assert(v.dir(v.root).len() == n * v.spc * 16);
    vstd::arithmetic::div_mod::lemma_fundamental_div_mod(q0, v.spc);
    vstd::arithmetic::div_mod::lemma_mod_bound(q0, v.spc);
    vstd::arithmetic::div_mod::lemma_div_pos_is_pos(q0, v.spc);
    vstd::arithmetic::mul::lemma_mul_is_commutative(v.spc, a0);
    assert(q0 < n * v.spc);
    assert(a0 < n) by {
        if a0 >= n {
            vstd::arithmetic::mul::lemma_mul_inequality(n, a0, v.spc);
        }
    }
    assert(v.on_disk(ch[a0]));
}

/// Zeroing a cluster fills its sectors with zeros and touches nothing else.
proof fn lemma_zeroed(v: FatV, c: u32, s: int)
    requires
        v.geometry_ok(),
        c >= 2,
        0 <= s <= v.spc,
        crate::fs::fat_write::zeroed(v, c, s).1,
    ensures
        ({
            let w = crate::fs::fat_write::zeroed(v, c, s).0;
            &&& w.geometry_ok()
            &&& w.same_volume(v)
            &&& w.fat == v.fat
            &&& forall|t: int|
                s <= t < v.spc ==> (#[trigger] sec_lba(v, c, t)) < v.disk.len() && w.disk[sec_lba(v, c, t)] == Seq::new(
                    512,
                    |i: int| 0u8,
                )
            &&& forall|j: int|
                0 <= j < v.disk.len() && !(v.lba(c) + s <= j < v.lba(c) + v.spc) ==> #[trigger] w.disk[j] == v.disk[j]
        }),
    decreases v.spc - s,
{
    if s < v.spc {
        let at = v.lba(c) + s;
        lemma_lba_in_data(v, c);
        let z = Seq::new(512, |i: int| 0u8);
        let w1 = FatV { disk: v.disk.update(at, z), ..v };
        assert(crate::fs::fat_write::write_one(v, at, z) == (w1, true));
        assert(w1.geometry_ok());
        lemma_zeroed(w1, c, s + 1);
        let w = crate::fs::fat_write::zeroed(w1, c, s + 1).0;
        assert(crate::fs::fat_write::zeroed(v, c, s).0 == w);
        assert forall|t: int| s <= t < v.spc implies (#[trigger] sec_lba(v, c, t)) < v.disk.len() && w.disk[sec_lba(
            v,
            c,
            t,
        )] == Seq::new(512, |i: int| 0u8) by {
            assert(sec_lba(w1, c, t) == sec_lba(v, c, t));
        }
    }
}

/// The slots of a directory whose chain `ch` was extended by the cluster `c`
/// of zeros.
#[verifier::spinoff_prover]
#[verifier::rlimit(60)]
proof fn lemma_extended_slots(v: FatV, w: FatV, ch: Seq<u32>, c: u32)
    requires
        v.geometry_ok(),
        w.geometry_ok(),
        w.same_volume(v),
        is_dir_chain(v, ch),
        is_dir_chain(w, ch.push(c)),
        !ch.contains(c),
        forall|i: int, t: int|
            0 <= i < ch.len() && 0 <= t < v.spc ==> w.disk[#[trigger] sec_lba(v, ch[i], t)] == v.disk[sec_lba(
                v,
                ch[i],
                t,
            )],
        forall|t: int| 0 <= t < v.spc ==> w.disk[#[trigger] sec_lba(v, c, t)] == Seq::new(512, |i: int| 0u8),
    ensures
        ({
            &&& w.dir(v.root).len() == v.dir(v.root).len() + v.spc * 16
            &&& forall|k: int| 0 <= k < v.dir(v.root).len() ==> #[trigger] w.dir(v.root)[k] == v.dir(v.root)[k]
            &&& forall|k: int|
                v.dir(v.root).len() <= k < w.dir(v.root).len() ==> #[trigger] w.dir(v.root)[k] == Seq::new(
                    32,
                    |i: int| 0u8,
                )
        }),
{
    let ch1 = ch.push(c);
    lemma_chain_walk(v, ch, 0, GUARD as nat);
    lemma_chain_walk(w, ch1, 0, GUARD as nat);
    let x = v.contents(v.root);
    let y = w.contents(v.root);
    let n = ch.len() as int;
    let cs = v.spc * 512;
    assert(n * cs > 0 && (n + 1) * cs == n * cs + cs) by (nonlinear_arith)
        requires
            n >= 1,
            cs >= 1,
    ;
    lemma_joined_index(v, ch, 0, 0);
    lemma_joined_index(w, ch1, 0, 0);
    assert(n * cs == n * v.spc * 512) by (nonlinear_arith)
        requires
            cs == v.spc * 512,
    ;
    assert forall|k: int| 0 <= k < y.len() implies #[trigger] y[k] == if k < x.len() {
        x[k]
    } else {
        0u8
    } by {
        lemma_joined_index(w, ch1, 0, k);
        let q = k / 512;
        let a = q / v.spc;
        let t = q % v.spc;
        vstd::arithmetic::div_mod::lemma_fundamental_div_mod(q, v.spc);
        vstd::arithmetic::div_mod::lemma_div_pos_is_pos(q, v.spc);
        vstd::arithmetic::mul::lemma_mul_is_commutative(v.spc, a);
        if k < x.len() {
            lemma_joined_index(v, ch, 0, k);
            assert(a < n) by {
                if a >= n {
                    vstd::arithmetic::mul::lemma_mul_inequality(n, a, v.spc);
                }
            }
            assert(ch1[a] == ch[a]);
            assert(v.on_disk(ch[a]));
            assert(w.disk[sec_lba(v, ch[a], t)] == v.disk[sec_lba(v, ch[a], t)]);
        } else {
            assert(a == n) by {
                assert(n * v.spc <= q < (n + 1) * v.spc) by {
                    assert((n + 1) * v.spc == n * v.spc + v.spc) by (nonlinear_arith);
                }
                if a > n {
                    vstd::arithmetic::mul::lemma_mul_inequality(n + 1, a, v.spc);
                }
                if a < n {
                    vstd::arithmetic::mul::lemma_mul_inequality(a + 1, n, v.spc);
                    assert((a + 1) * v.spc == a * v.spc + v.spc) by (nonlinear_arith);
                }
            }
            assert(ch1[a] == c);
            assert(w.disk[sec_lba(v, c, t)] == Seq::new(512, |i: int| 0u8));
        }
    }
    let sx = v.dir(v.root);
    let sy = w.dir(v.root);
    assert forall|k: int| 0 <= k < sx.len() implies #[trigger] sy[k] == sx[k] by {
        assert(sy[k] =~= sx[k]);
    }
    assert forall|k: int| sx.len() <= k < sy.len() implies #[trigger] sy[k] == Seq::new(32, |i: int| 0u8) by {
        assert(sy[k] =~= Seq::new(32, |i: int| 0u8));
    }
}

/// A directory chain extended by one zeroed cluster: the slots are the old
/// ones and a cluster's worth of empty ones.
#[verifier::spinoff_prover]
#[verifier::rlimit(60)]
proof fn lemma_extend(v: FatV, ch: Seq<u32>)
    requires
        v.geometry_ok(),
        v.writable,
        v.data_begin <= v.disk.len(),
        is_dir_chain(v, ch),
        ch.len() < GUARD,
        forall|i: int| 0 <= i < ch.len() ==> v.fat[#[trigger] ch[i] as int] != 0,
        crate::fs::fat_write::extend_spec(v, ch).1 is Ok,
    ensures
        ({
            let (w, r) = crate::fs::fat_write::extend_spec(v, ch);
            let c = r->Ok_0;
            &&& w.geometry_ok()
            &&& w.same_volume(v)
            &&& 2 <= c < v.fat.len()
            &&& v.fat[c as int] == 0
            &&& is_dir_chain(w, ch.push(c))
            &&& w.dir(v.root).len() == v.dir(v.root).len() + v.spc * 16
            &&& forall|k: int| 0 <= k < v.dir(v.root).len() ==> #[trigger] w.dir(v.root)[k] == v.dir(v.root)[k]
            &&& forall|k: int|
                v.dir(v.root).len() <= k < w.dir(v.root).len() ==> #[trigger] w.dir(v.root)[k] == Seq::new(
                    32,
                    |i: int| 0u8,
                )
            &&& forall|x: u32|
                x < v.fat.len() && x != c && x != ch.last() ==> #[trigger] w.fat[x as int] == v.fat[x as int]
            &&& forall|d: u32, t: int|
                d >= 2 && d != c && 0 <= t < v.spc && (#[trigger] sec_lba(v, d, t)) < v.disk.len() ==> w.disk[sec_lba(
                    v,
                    d,
                    t,
                )] == v.disk[sec_lba(v, d, t)]
            &&& mirrored(v) ==> mirrored(w)
        }),
{
    let (v1, got) = crate::fs::fat_write::alloc_spec(v);
    let c = got->Some_0;
    lemma_alloc(v);
    let v2 = crate::fs::fat_write::zeroed(v1, c, 0).0;
    lemma_zeroed(v1, c, 0);
    lemma_lba_in_data(v, c);
    let last = ch.last();
    assert(ch[ch.len() - 1] == last);
    lemma_fat_set(v2, last, c);
    let w = crate::fs::fat_write::fat_set_spec(v2, last, c).0;
    let ch1 = ch.push(c);
    assert(!ch.contains(c));
    assert(ch1.no_duplicates());
    assert forall|d: u32, t: int|
        d >= 2 && d != c && 0 <= t < v.spc && (#[trigger] sec_lba(v, d, t)) < v.disk.len() implies w.disk[sec_lba(
        v,
        d,
        t,
    )] == v.disk[sec_lba(v, d, t)] by {
        lemma_lba_in_data(v, d);
        let j = sec_lba(v, d, t);
        assert(v1.disk[j] == v.disk[j]);
        if v1.lba(c) <= j < v1.lba(c) + v1.spc {
            lemma_sector_unique(v, d, t, c, j - v.lba(c));
        }
        assert(v2.disk[j] == v1.disk[j]);
        assert(w.disk[j] == v2.disk[j]);
    }
    assert(is_chain(w, ch1)) by {
        assert forall|i: int| 0 <= i < ch1.len() implies 2 <= #[trigger] ch1[i] < w.fat.len() by {
            if i < ch.len() {
                assert(ch1[i] == ch[i]);
            }
        }
        assert forall|i: int| 0 <= i < ch1.len() - 1 implies w.next(#[trigger] ch1[i]) == Some(ch1[i + 1]) by {
            if i < ch.len() - 1 {
                assert(v.next(ch[i]) == Some(ch[i + 1]));
                assert(ch[i] != last);
                assert(ch[i] != c);
            }
        }
        assert(w.fat[c as int] == EOC);
        assert(ch1.last() == c);
    }
    assert(all_on_disk(w, ch1)) by {
        assert forall|i: int| 0 <= i < ch1.len() implies w.on_disk(#[trigger] ch1[i]) by {
            if i < ch.len() {
                assert(v.on_disk(ch[i]));
            } else {
                assert(sec_lba(v1, c, v.spc - 1) < v.disk.len());
            }
        }
    }
    assert forall|i: int, t: int| 0 <= i < ch.len() && 0 <= t < v.spc implies w.disk[#[trigger] sec_lba(v, ch[i], t)]
        == v.disk[sec_lba(v, ch[i], t)] by {
        assert(v.on_disk(ch[i]));
        assert(ch[i] != c);
    }
    assert forall|t: int| 0 <= t < v.spc implies w.disk[#[trigger] sec_lba(v, c, t)] == Seq::new(512, |i: int| 0u8) by {
        let j = sec_lba(v1, c, t);
        assert(v2.disk[j] == Seq::new(512, |i: int| 0u8));
        assert(w.disk[j] == v2.disk[j]);
    }
    lemma_extended_slots(v, w, ch, c);
    if mirrored(v) {
        assert(mirrored(v2)) by {
            assert forall|f: int, so: int| 0 <= f < v2.num_fats && 0 <= so < v2.fat_size implies v2.disk[#[trigger] fat_lba(
                v2,
                f,
                so,
            )] == crate::fs::fat_write::fat_sector(v2.fat, so) by {
                lemma_fat_lba_bound(v1, f, so);
                assert(fat_lba(v2, f, so) == fat_lba(v1, f, so));
            }
        }
    }
}

// ---------------------------------------------------------------------------
// The laws
// ---------------------------------------------------------------------------
/// A volume whose root directory is sound: its chain ends, lies on the disk
/// in allocated clusters, and holds no cluster twice.
pub open spec fn sound_root(v: FatV) -> bool {
    let rc = v.chain(v.root, GUARD as nat);
    &&& v.geometry_ok()
    &&& v.data_begin <= v.disk.len()
    &&& v.root >= 2
    &&& rc.len() < GUARD
    &&& rc.no_duplicates()
    &&& forall|i: int|
        0 <= i < rc.len() ==> (#[trigger] rc[i]) < v.fat.len() && v.fat[rc[i] as int] != 0 && v.on_disk(rc[i])
}

/// The chain of a file from cluster `first` on is sound: it ends, lies in
/// allocated clusters, and shares none with the root directory.
pub open spec fn sound_file(v: FatV, first: u32) -> bool {
    let fc = v.chain(first, GUARD as nat);
    &&& fc.len() < GUARD
    &&& forall|i: int|
        0 <= i < fc.len() ==> (#[trigger] fc[i]) < v.fat.len() && v.fat[fc[i] as int] != 0 && !v.chain(
            v.root,
            GUARD as nat,
        ).contains(fc[i])
}

/// The slot that a write of `path` uses: the existing entry's, else the first
/// vacant one, else the first of a fresh cluster.
pub open spec fn target_slot(v: FatV, path: Seq<char>) -> int {
    let s = v.dir(v.root);
    match crate::fs::dir::find_short(s, vstd::utf8::encode_utf8(crate::fs::fat32::trim_slashes(path)), 0) {
        Some(i) => i,
        None => match crate::seqs::first(s, crate::fs::fat_write::is_vacant()) {
            Some(i) => i,
            None => s.len() as int,
        },
    }
}

pub proof fn lemma_sound_root_chain(v: FatV)
    requires
        sound_root(v),
    ensures
        is_dir_chain(v, v.chain(v.root, GUARD as nat)),
{
    lemma_chain_is_chain(v, v.root, GUARD as nat);
}

pub proof fn lemma_find_short_bound(s: Seq<Seq<u8>>, w: Seq<u8>, k: int)
    ensures
        crate::fs::dir::find_short(s, w, k) matches Some(i) ==> 0 <= k <= i < s.len(),
    decreases s.len() - k,
{
    if 0 <= k < s.len() {
        lemma_find_short_bound(s, w, k + 1);
    }
}

pub proof fn lemma_dirent_len(base: Seq<u8>, ext: Seq<u8>, first: u32, size: u32)
    ensures
        crate::fs::dir::dirent(base, ext, first, size).len() == 32,
        crate::fs::dir::slot_cluster(crate::fs::dir::dirent(base, ext, first, size)) == first,
        crate::bytes::rd_le4(crate::fs::dir::dirent(base, ext, first, size), 28) == size,
        crate::fs::dir::dirent(base, ext, first, size)[11] == 0x20,
        crate::fs::dir::dirent(base, ext, first, size).subrange(0, 8) == crate::fs::dir::blank_padded(base, 8),
        crate::fs::dir::dirent(base, ext, first, size).subrange(8, 11) == crate::fs::dir::blank_padded(ext, 3),
{
    reveal(crate::fs::dir::dirent);
    let e = crate::fs::dir::dirent(base, ext, first, size);
    let head = crate::fs::dir::blank_padded(base, 8) + crate::fs::dir::blank_padded(ext, 3);
    let stamp = seq![0x20u8, 0, 0, 0x00, 0x60, 0x21, 0x5C, 0x21, 0x5C];
    let hi = crate::fs::dir::le2((first / 0x1_0000) as int);
    let gap = seq![0x00u8, 0x60, 0, 0];
    let lo = crate::fs::dir::le2((first % 0x1_0000) as int);
    let sz = crate::bytes::le4(size);
    assert(e == head + stamp + hi + gap + lo + sz);
    lemma_six(head, stamp, hi, gap, lo, sz);
    assert(e.subrange(0, 8) =~= crate::fs::dir::blank_padded(base, 8)) by {
        assert(e.subrange(0, 11) == head);
        assert forall|i: int| 0 <= i < 8 implies e.subrange(0, 8)[i] == crate::fs::dir::blank_padded(base, 8)[i] by {
            assert(e.subrange(0, 11)[i] == head[i]);
        }
    }
    assert(e.subrange(8, 11) =~= crate::fs::dir::blank_padded(ext, 3)) by {
        assert(e.subrange(0, 11) == head);
        assert forall|i: int| 0 <= i < 3 implies e.subrange(8, 11)[i] == crate::fs::dir::blank_padded(ext, 3)[i] by {
            assert(e.subrange(0, 11)[8 + i] == head[8 + i]);
        }
    }
    assert(e[11] == e.subrange(11, 20)[0]);
    assert(e[20] == e.subrange(20, 22)[0] && e[21] == e.subrange(20, 22)[1]);
    assert(e[26] == e.subrange(26, 28)[0] && e[27] == e.subrange(26, 28)[1]);
    assert(e[28] == e.subrange(28, 32)[0] && e[29] == e.subrange(28, 32)[1]);
    assert(e[30] == e.subrange(28, 32)[2] && e[31] == e.subrange(28, 32)[3]);
    crate::bytes::lemma_rd_le4_at(e, 28, size);
    let (h, l) = (first / 0x1_0000, first % 0x1_0000);
    assert(h % 256 + (h / 256 % 256) * 256 == h && l % 256 + (l / 256 % 256) * 256 == l && h * 0x1_0000 + l == first);
    assert(crate::bytes::rd_le2(e, 20) == h);
    assert(crate::bytes::rd_le2(e, 26) == l);
}

/// The parts of a concatenation that the fields of a directory entry are.
proof fn lemma_six(a: Seq<u8>, b: Seq<u8>, c: Seq<u8>, d: Seq<u8>, e: Seq<u8>, f: Seq<u8>)
    requires
        a.len() == 11,
        b.len() == 9,
        c.len() == 2,
        d.len() == 4,
        e.len() == 2,
        f.len() == 4,
    ensures
        (a + b + c + d + e + f).len() == 32,
        (a + b + c + d + e + f).subrange(0, 11) == a,
        (a + b + c + d + e + f).subrange(11, 20) == b,
        (a + b + c + d + e + f).subrange(20, 22) == c,
        (a + b + c + d + e + f).subrange(26, 28) == e,
        (a + b + c + d + e + f).subrange(28, 32) == f,
{
    let t = a + b + c + d + e + f;
    assert(t.subrange(0, 11) =~= a);
    assert(t.subrange(11, 20) =~= b);
    assert(t.subrange(20, 22) =~= c);
    assert(t.subrange(26, 28) =~= e);
    assert(t.subrange(28, 32) =~= f);
}

/// From `v` to `w`, every allocated cluster outside the chains `rc` and `oc`
/// keeps its FAT entry and its data.
pub open spec fn spares(v: FatV, w: FatV, rc: Seq<u32>, oc: Seq<u32>) -> bool {
    &&& w.geometry_ok()
    &&& w.same_volume(v)
    &&& forall|x: u32|
        2 <= x < v.fat.len() && v.fat[x as int] != 0 && !rc.contains(x) && !oc.contains(x)
            ==> #[trigger] w.fat[x as int] == v.fat[x as int]
    &&& forall|x: u32, t: int|
        2 <= x < v.fat.len() && v.fat[x as int] != 0 && !rc.contains(x) && !oc.contains(x) && 0 <= t < v.spc && (
        #[trigger] sec_lba(v, x, t)) < v.disk.len() ==> w.disk[sec_lba(v, x, t)] == v.disk[sec_lba(v, x, t)]
    &&& mirrored(v) ==> mirrored(w)
}

/// Freeing a chain that shares no cluster with the directory.
pub proof fn lemma_free_chain(v: FatV, rc: Seq<u32>, oc: Seq<u32>, was: u32)
    requires
        v.geometry_ok(),
        v.writable,
        v.data_begin <= v.disk.len(),
        is_dir_chain(v, rc),
        is_chain(v, oc),
        oc[0] == was,
        forall|i: int| 0 <= i < oc.len() ==> !rc.contains(#[trigger] oc[i]),
    ensures
        ({
            let (w, r) = crate::fs::fat_write::free_spec(v, was, GUARD as nat);
            &&& r is Ok
            &&& spares(v, w, rc, oc)
            &&& forall|x: u32| x < v.fat.len() && !oc.contains(x) ==> #[trigger] w.fat[x as int] == v.fat[x as int]
            &&& is_dir_chain(w, rc)
            &&& w.dir(v.root) == v.dir(v.root)
        }),
{
    let s = Set::new(|x: u32| oc.contains(x));
    assert(s.contains(was)) by {
        assert(oc.contains(oc[0]));
    }
    assert(closed(v, s)) by {
        assert forall|c: u32|
            s.contains(c) && c < v.fat.len() && 2 <= #[trigger] v.fat[c as int] < EOC_MIN && v.fat[c as int]
                < v.fat.len() implies s.contains(v.fat[c as int]) by {
            let i = choose|i: int| 0 <= i < oc.len() && oc[i] == c;
            assert(v.fat[c as int] != BAD);
            assert(v.next(c) == Some(v.fat[c as int]));
            if i == oc.len() - 1 {
                assert(oc.last() == c);
            } else {
                assert(v.next(oc[i]) == Some(oc[i + 1]));
                assert(oc.contains(oc[i + 1]));
            }
        }
    }
    lemma_free(v, was, GUARD as nat, s);
    let w = crate::fs::fat_write::free_spec(v, was, GUARD as nat).0;
    assert(keeps_chain(v, w, rc)) by {
        assert forall|i: int| 0 <= i < rc.len() implies w.fat[#[trigger] rc[i] as int] == v.fat[rc[i] as int] by {
            assert(rc.contains(rc[i]));
            assert(!s.contains(rc[i]));
        }
        assert forall|i: int, t: int| 0 <= i < rc.len() && 0 <= t < v.spc implies w.disk[#[trigger] sec_lba(
            v,
            rc[i],
            t,
        )] == v.disk[sec_lba(v, rc[i], t)] by {
            lemma_lba_in_data(v, rc[i]);
            assert(v.on_disk(rc[i]));
        }
    }
    lemma_kept_contents(v, w, rc);
    assert forall|x: u32, t: int|
        2 <= x < v.fat.len() && v.fat[x as int] != 0 && !rc.contains(x) && !oc.contains(x) && 0 <= t < v.spc && (
        #[trigger] sec_lba(v, x, t)) < v.disk.len() implies w.disk[sec_lba(v, x, t)] == v.disk[sec_lba(v, x, t)] by {
        lemma_lba_in_data(v, x);
    }
}

/// Replacing the entry in slot `idx`, whose file occupied the chain `oc`.
proof fn lemma_replace(v: FatV, rc: Seq<u32>, oc: Seq<u32>, idx: int, first: u32, size: u32)
    requires
        v.geometry_ok(),
        v.writable,
        v.data_begin <= v.disk.len(),
        is_dir_chain(v, rc),
        0 <= idx < v.dir(v.root).len(),
        crate::fs::dir::slot_cluster(v.dir(v.root)[idx]) >= 2 ==> is_chain(v, oc) && oc[0]
            == crate::fs::dir::slot_cluster(v.dir(v.root)[idx]) && forall|i: int|
            0 <= i < oc.len() ==> !rc.contains(#[trigger] oc[i]),
        crate::fs::fat_write::replace_spec(v, v.dir(v.root), rc, idx, first, size).1 is Ok,
    ensures
        ({
            let w = crate::fs::fat_write::replace_spec(v, v.dir(v.root), rc, idx, first, size).0;
            let e = v.dir(v.root)[idx];
            &&& spares(v, w, rc, oc)
            &&& w.dir(v.root) == v.dir(v.root).update(
                idx,
                crate::fs::dir::dirent(crate::fs::dir::base_text(e), crate::fs::dir::ext_text(e), first, size),
            )
        }),
{
    let e = v.dir(v.root)[idx];
    let was = crate::fs::dir::slot_cluster(e);
    let d = crate::fs::dir::dirent(crate::fs::dir::base_text(e), crate::fs::dir::ext_text(e), first, size);
    lemma_dirent_len(crate::fs::dir::base_text(e), crate::fs::dir::ext_text(e), first, size);
    if was >= 2 {
        lemma_free_chain(v, rc, oc, was);
        let v1 = crate::fs::fat_write::free_spec(v, was, GUARD as nat).0;
        lemma_patch(v1, rc, idx, d);
        let w = crate::fs::fat_write::patch_spec(v1, rc, idx, d).0;
        assert forall|x: u32, t: int|
            2 <= x < v.fat.len() && v.fat[x as int] != 0 && !rc.contains(x) && !oc.contains(x) && 0 <= t < v.spc && (
            #[trigger] sec_lba(v, x, t)) < v.disk.len() implies w.disk[sec_lba(v, x, t)] == v.disk[sec_lba(
            v,
            x,
            t,
        )] by {
            assert(sec_lba(v1, x, t) == sec_lba(v, x, t));
        }
    } else {
        lemma_patch(v, rc, idx, d);
    }
}

/// The slot that a new entry of a directory with the slots `s` takes.
pub open spec fn vacant_slot(s: Seq<Seq<u8>>) -> int {
    match crate::seqs::first(s, crate::fs::fat_write::is_vacant()) {
        Some(i) => i,
        None => s.len() as int,
    }
}

/// Adding an entry for the name `p`.
proof fn lemma_create(v: FatV, rc: Seq<u32>, p: Seq<char>, first: u32, size: u32)
    requires
        v.geometry_ok(),
        v.writable,
        v.data_begin <= v.disk.len(),
        is_dir_chain(v, rc),
        rc.len() < GUARD,
        forall|i: int| 0 <= i < rc.len() ==> v.fat[#[trigger] rc[i] as int] != 0,
        crate::fs::fat_write::create_spec(v, v.dir(v.root), rc, p, first, size).1 is Ok,
    ensures
        ({
            let w = crate::fs::fat_write::create_spec(v, v.dir(v.root), rc, p, first, size).0;
            let s = v.dir(v.root);
            let t = w.dir(v.root);
            let (base0, ext) = crate::fs::dir::short_of(p);
            let base = crate::fs::fat_write::new_base(s, base0, ext);
            let k = vacant_slot(s);
            &&& base is Some
            &&& spares(v, w, rc, Seq::empty())
            &&& 0 <= k < t.len()
            &&& s.len() <= t.len()
            &&& t[k] == crate::fs::dir::dirent(base->Some_0, ext, first, size)
            &&& forall|j: int| 0 <= j < s.len() && j != k ==> #[trigger] t[j] == s[j]
            &&& forall|j: int| s.len() <= j < t.len() && j != k ==> #[trigger] t[j] == Seq::new(32, |i: int| 0u8)
        }),
{
    let s = v.dir(v.root);
    let (base0, ext) = crate::fs::dir::short_of(p);
    let base = crate::fs::fat_write::new_base(s, base0, ext)->Some_0;
    let d = crate::fs::dir::dirent(base, ext, first, size);
    lemma_dirent_len(base, ext, first, size);
    crate::seqs::lemma_first_from(s, crate::fs::fat_write::is_vacant(), 0);
    match crate::seqs::first(s, crate::fs::fat_write::is_vacant()) {
        Some(i) => {
            lemma_patch(v, rc, i, d);
        },
        None => {
            lemma_extend(v, rc);
            let (v1, r) = crate::fs::fat_write::extend_spec(v, rc);
            let c = r->Ok_0;
            lemma_patch(v1, rc.push(c), s.len() as int, d);
            let w = crate::fs::fat_write::patch_spec(v1, rc.push(c), s.len() as int, d).0;
            assert(rc.contains(rc.last())) by {
                assert(rc[rc.len() - 1] == rc.last());
            }
            assert(spares(v, w, rc, Seq::empty())) by {
                assert forall|x: u32|
                    2 <= x < v.fat.len() && v.fat[x as int] != 0 && !rc.contains(x) implies #[trigger] w.fat[x as int]
                    == v.fat[x as int] by {
                    assert(v1.fat[x as int] == v.fat[x as int]);
                }
                assert forall|x: u32, t: int|
                    2 <= x < v.fat.len() && v.fat[x as int] != 0 && !rc.contains(x) && 0 <= t < v.spc && (
                    #[trigger] sec_lba(v, x, t)) < v.disk.len() implies w.disk[sec_lba(v, x, t)] == v.disk[sec_lba(
                    v,
                    x,
                    t,
                )] by {
                    assert(x != c);
                    assert(sec_lba(v1, x, t) == sec_lba(v, x, t));
                    assert(!rc.push(c).contains(x)) by {
                        if rc.push(c).contains(x) {
                            let i = choose|i: int| 0 <= i < rc.push(c).len() && rc.push(c)[i] == x;
                            if i < rc.len() {
                                assert(rc[i] == x);
                            }
                        }
                    }
                }
            }
        },
    }
}

/// What a successful write leaves: the data chain `ch` with the data in it,
/// and slot `k` of the root directory naming it.
pub open spec fn written(v: FatV, w: FatV, ch: Seq<u32>, k: int, data: Seq<u8>) -> bool {
    let s = v.dir(v.root);
    let t = w.dir(v.root);
    &&& w.geometry_ok()
    &&& w.same_volume(v)
    &&& 0 <= k < t.len()
    &&& s.len() <= t.len()
    &&& t[k].len() == 32
    &&& t[k][11] == 0x20
    &&& crate::fs::dir::slot_cluster(t[k]) == if data.len() == 0 {
        0
    } else {
        ch[0]
    }
    &&& crate::bytes::rd_le4(t[k], 28) == data.len()
    &&& forall|j: int| 0 <= j < s.len() && j != k ==> #[trigger] t[j] == s[j]
    &&& forall|j: int| s.len() <= j < t.len() && j != k ==> #[trigger] t[j] == Seq::new(32, |i: int| 0u8)
    &&& data.len() > 0 ==> crate::fs::fat32::cut(w.contents(ch[0]), data.len() as int) == data
    &&& mirrored(v) ==> mirrored(w)
}

/// The bytes that the entry in slot `k` of a written volume names: what the
/// short name of the slot is.
pub open spec fn entry_bytes(v: FatV, path: Seq<char>) -> (Seq<u8>, Seq<u8>) {
    let s = v.dir(v.root);
    let p = crate::fs::fat32::trim_slashes(path);
    match crate::fs::dir::find_short(s, vstd::utf8::encode_utf8(p), 0) {
        Some(i) => (crate::fs::dir::base_text(s[i]), crate::fs::dir::ext_text(s[i])),
        None => (
            crate::fs::fat_write::new_base(s, crate::fs::dir::short_of(p).0, crate::fs::dir::short_of(p).1)->Some_0,
            crate::fs::dir::short_of(p).1,
        ),
    }
}

/// The first cluster of the file that a write of `path` replaces, 0 if none.
pub open spec fn replaced_cluster(v: FatV, path: Seq<char>) -> u32 {
    let s = v.dir(v.root);
    match crate::fs::dir::find_short(s, vstd::utf8::encode_utf8(crate::fs::fat32::trim_slashes(path)), 0) {
        Some(i) => crate::fs::dir::slot_cluster(s[i]),
        None => 0,
    }
}

/// The chain of the replaced file is still there once the data chain is written.
pub proof fn lemma_old_chain(v: FatV, v1: FatV, first: u32)
    requires
        sound_root(v),
        first >= 2,
        sound_file(v, first),
        v1.geometry_ok(),
        v1.same_volume(v),
        forall|x: u32| x < v.fat.len() && v.fat[x as int] != 0 ==> #[trigger] v1.fat[x as int] == v.fat[x as int],
    ensures
        is_chain(v1, v.chain(first, GUARD as nat)),
        v.chain(first, GUARD as nat)[0] == first,
{
    let oc = v.chain(first, GUARD as nat);
    lemma_chain_is_chain(v, first, GUARD as nat);
    assert forall|i: int| 0 <= i < oc.len() - 1 implies v1.next(#[trigger] oc[i]) == Some(oc[i + 1]) by {
        assert(v.next(oc[i]) == Some(oc[i + 1]));
    }
    assert(oc.last() == oc[oc.len() - 1]);
}

/// From `v` to `v1` the allocated clusters keep their entries and their data.
pub open spec fn adds_only(v: FatV, v1: FatV) -> bool {
    &&& v1.geometry_ok()
    &&& v1.same_volume(v)
    &&& forall|x: u32| x < v.fat.len() && v.fat[x as int] != 0 ==> #[trigger] v1.fat[x as int] == v.fat[x as int]
    &&& forall|x: u32, t: int|
        2 <= x < v.fat.len() && v.fat[x as int] != 0 && 0 <= t < v.spc && (#[trigger] sec_lba(v, x, t)) < v.disk.len()
            ==> v1.disk[sec_lba(v, x, t)] == v.disk[sec_lba(v, x, t)]
    &&& mirrored(v) ==> mirrored(v1)
}

proof fn lemma_write_chain_adds(v: FatV, data: Seq<u8>) -> (ch: Seq<u32>)
    requires
        v.geometry_ok(),
        v.writable,
        v.data_begin <= v.disk.len(),
        crate::fs::fat_write::write_chain_spec(v, data).1 is Ok,
    ensures
        adds_only(v, crate::fs::fat_write::write_chain_spec(v, data).0),
        data.len() > 0 ==> holds(v, crate::fs::fat_write::write_chain_spec(v, data).0, ch, data),
        crate::fs::fat_write::write_chain_spec(v, data).1 == Ok::<u32, FsErr>(
            if data.len() == 0 {
                0
            } else {
                ch[0]
            },
        ),
{
    if data.len() == 0 {
        let cs = (v.spc * 512) as nat;
        assert(0nat % cs == 0 && 0nat / cs == 0) by (nonlinear_arith)
            requires
                cs > 0,
        ;
        assert(crate::fs::fat_write::clusters_for(v, 0) == 0);
        Seq::empty()
    } else {
        lemma_write_chain(v, data)
    }
}

/// A sound root directory is kept by what adds only.
proof fn lemma_root_kept(v: FatV, v1: FatV)
    requires
        sound_root(v),
        adds_only(v, v1),
    ensures
        is_dir_chain(v1, v.chain(v.root, GUARD as nat)),
        v1.dir(v.root) == v.dir(v.root),
        forall|i: int|
            0 <= i < v.chain(v.root, GUARD as nat).len() ==> v1.fat[#[trigger] v.chain(v.root, GUARD as nat)[i] as int]
                != 0,
{
    let rc = v.chain(v.root, GUARD as nat);
    lemma_sound_root_chain(v);
    assert(keeps_chain(v, v1, rc)) by {
        assert forall|i: int, t: int| 0 <= i < rc.len() && 0 <= t < v.spc implies v1.disk[#[trigger] sec_lba(
            v,
            rc[i],
            t,
        )] == v.disk[sec_lba(v, rc[i], t)] by {
            assert(v.on_disk(rc[i]));
            assert(2 <= rc[i] < v.fat.len());
        }
    }
    lemma_kept_contents(v, v1, rc);
}

proof fn lemma_spares_after(v: FatV, v1: FatV, w: FatV, rc: Seq<u32>, oc: Seq<u32>)
    requires
        adds_only(v, v1),
        spares(v1, w, rc, oc),
    ensures
        spares(v, w, rc, oc),
{
    assert forall|x: u32, t: int|
        2 <= x < v.fat.len() && v.fat[x as int] != 0 && !rc.contains(x) && !oc.contains(x) && 0 <= t < v.spc && (
        #[trigger] sec_lba(v, x, t)) < v.disk.len() implies w.disk[sec_lba(v, x, t)] == v.disk[sec_lba(v, x, t)] by {
        assert(v1.fat[x as int] == v.fat[x as int]);
        assert(sec_lba(v1, x, t) == sec_lba(v, x, t));
    }
    assert forall|x: u32|
        2 <= x < v.fat.len() && v.fat[x as int] != 0 && !rc.contains(x) && !oc.contains(x) implies #[trigger] w.fat[x as int]
        == v.fat[x as int] by {
        assert(v1.fat[x as int] == v.fat[x as int]);
    }
}

/// The data chain survives the change of the directory.
proof fn lemma_data_kept(v: FatV, v1: FatV, w: FatV, rc: Seq<u32>, oc: Seq<u32>, ch: Seq<u32>, data: Seq<u8>)
    requires
        v.geometry_ok(),
        holds(v, v1, ch, data),
        spares(v1, w, rc, oc),
        ch.len() <= GUARD,
        forall|i: int| 0 <= i < rc.len() ==> v.fat[#[trigger] rc[i] as int] != 0,
        forall|i: int| 0 <= i < oc.len() ==> v.fat[#[trigger] oc[i] as int] != 0,
    ensures
        crate::fs::fat32::cut(w.contents(ch[0]), data.len() as int) == data,
{
    assert(keeps_chain(v1, w, ch)) by {
        assert forall|i: int| 0 <= i < ch.len() implies !rc.contains(#[trigger] ch[i]) && !oc.contains(ch[i]) by {
            assert(v.fat[ch[i] as int] == 0);
        }
        assert forall|i: int, t: int| 0 <= i < ch.len() && 0 <= t < v1.spc implies w.disk[#[trigger] sec_lba(
            v1,
            ch[i],
            t,
        )] == v1.disk[sec_lba(v1, ch[i], t)] by {
            assert(v1.on_disk(ch[i]));
            assert(v1.fat[ch[i] as int] != 0);
        }
        assert forall|i: int| 0 <= i < ch.len() implies w.fat[#[trigger] ch[i] as int] == v1.fat[ch[i] as int] by {
            assert(v1.fat[ch[i] as int] != 0);
        }
    }
    lemma_kept_contents(v1, w, ch);
    lemma_holds_reads(v1, ch, data);
}

/// What a successful write does to the volume.
#[verifier::spinoff_prover]
pub proof fn lemma_write(v: FatV, path: Seq<char>, data: Seq<u8>) -> (ch: Seq<u32>)
    requires
        sound_root(v),
        sound_file(v, replaced_cluster(v, path)),
        data.len() < 0x1_0000_0000,
        crate::fs::fat_write::clusters_for(v, data.len()) <= GUARD,
        crate::fs::fat_write::write_file_spec(v, path, data).1 is Ok,
    ensures
        written(v, crate::fs::fat_write::write_file_spec(v, path, data).0, ch, target_slot(v, path), data),
        crate::fs::fat_write::write_file_spec(v, path, data).0.dir(v.root)[target_slot(v, path)] == crate::fs::dir::dirent(
            entry_bytes(v, path).0,
            entry_bytes(v, path).1,
            if data.len() == 0 {
                0
            } else {
                ch[0]
            },
            data.len() as u32,
        ),
        spares(
            v,
            crate::fs::fat_write::write_file_spec(v, path, data).0,
            v.chain(v.root, GUARD as nat),
            v.chain(replaced_cluster(v, path), GUARD as nat),
        ),
{
    let p = crate::fs::fat32::trim_slashes(path);
    let s = v.dir(v.root);
    let rc = v.chain(v.root, GUARD as nat);
    let size = data.len() as u32;
    let (v1, r) = crate::fs::fat_write::write_chain_spec(v, data);
    let first = r->Ok_0;
    let was = replaced_cluster(v, path);
    let oc = v.chain(was, GUARD as nat);
    let w = crate::fs::fat_write::write_file_spec(v, path, data).0;
    let ch = lemma_write_chain_adds(v, data);
    lemma_root_kept(v, v1);
    lemma_find_short_bound(s, vstd::utf8::encode_utf8(p), 0);
    let (base, ext) = entry_bytes(v, path);
    lemma_dirent_len(base, ext, first, size);
    match crate::fs::dir::find_short(s, vstd::utf8::encode_utf8(p), 0) {
        Some(i) => {
            if was >= 2 {
                lemma_old_chain(v, v1, was);
            }
            lemma_replace(v1, rc, oc, i, first, size);
        },
        None => {
            lemma_create(v1, rc, p, first, size);
            assert(oc =~= Seq::empty());
        },
    }
    assert(spares(v1, w, rc, oc));
    lemma_spares_after(v, v1, w, rc, oc);
    if data.len() > 0 {
        lemma_data_kept(v, v1, w, rc, oc, ch, data);
    }
    ch
}

} // verus!
