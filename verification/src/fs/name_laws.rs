//! Names in the root directory: what a written name shows, which names a
//! write leaves alone, and what a deleted name answers.

use vstd::prelude::*;

use crate::fs::dir::EntV;
use crate::fs::fat32::{FatV, GUARD};

verus! {

/// An entry that was made from a base and an extension of visible ASCII
/// characters is listed as just that file.
pub proof fn law_made_entry_is_listed(base: Seq<u8>, ext: Seq<u8>, first: u32, size: u32)
    requires
        1 <= base.len() <= 8,
        ext.len() <= 3,
        forall|i: int| 0 <= i < base.len() ==> 0x21 <= #[trigger] base[i] <= 0x7E,
        forall|i: int| 0 <= i < ext.len() ==> 0x21 <= #[trigger] ext[i] <= 0x7E,
    ensures
        crate::fs::dir::parsed(
            crate::fs::dir::slots(crate::fs::dir::dirent(base, ext, first, size) + Seq::new(32, |i: int| 0u8)),
        ) == seq![
            EntV {
                name: crate::fs::file_laws::short_text(base, ext),
                first_cluster: first,
                size,
                is_dir: false,
            },
        ],
{
    let e = crate::fs::dir::dirent(base, ext, first, size);
    let zero = Seq::new(32, |i: int| 0u8);
    let s = crate::fs::dir::slots(e + zero);
    crate::fs::fat_laws::lemma_dirent_len(base, ext, first, size);
    crate::fs::file_laws::lemma_short_name_of(base, ext, first, size);
    assert(s.len() == 2);
    assert(s[0] =~= e);
    assert(s[1] =~= zero);
    assert(e[0] == e.subrange(0, 8)[0]);
    assert(e[0] == base[0]);
    assert(crate::fs::dir::parse_from(s, 1, Seq::empty()) =~= Seq::<EntV>::empty());
    assert(crate::fs::dir::parsed(s) =~= seq![crate::fs::dir::slot_entry(e, Seq::empty())]);
}

// ---------------------------------------------------------------------------
// Listings
// ---------------------------------------------------------------------------
/// A slot that holds a part of a long name.
pub open spec fn long_slot(e: Seq<u8>) -> bool {
    e[0] != 0 && e[0] != 0xE5 && crate::fs::dir::is_lfn(e)
}

/// A directory in good order: nothing is in use behind its end, and a long
/// name stands directly before the slot that it belongs to.
pub open spec fn tidy(s: Seq<Seq<u8>>) -> bool {
    &&& forall|j: int, k: int| 0 <= j < k < s.len() && #[trigger] s[j][0] == 0 ==> #[trigger] s[k][0] == 0
    &&& forall|k: int|
        0 <= k < s.len() && #[trigger] long_slot(s[k]) ==> k + 1 < s.len() && s[k + 1][0] != 0 && s[k + 1][0] != 0xE5
}

/// The name `p` belongs to a plain file of the directory that has no long
/// name, or to nothing in it.
pub open spec fn plain_name(s: Seq<Seq<u8>>, p: Seq<char>) -> bool {
    match crate::fs::dir::find_short(s, vstd::utf8::encode_utf8(p), 0) {
        Some(k) => {
            &&& crate::fs::file_laws::gathered(s.take(k), 0, Seq::empty()).len() == 0
            &&& s[k][11] / 16 % 2 == 0
            &&& crate::fs::file_laws::shown_at(s, p, k)
        },
        None => {
            &&& !crate::fs::dir::taken(s, crate::fs::dir::short_of(p).0, crate::fs::dir::short_of(p).1)
            &&& crate::fs::path_laws::found(crate::fs::dir::parsed(s), p) is None
        },
    }
}

/// A directory lists what its first slots list, and then what the others do.
proof fn lemma_parse_cut(t: Seq<Seq<u8>>, k: int, j: int, lfn: Seq<Seq<char>>)
    requires
        0 <= j <= k <= t.len(),
        forall|i: int| j <= i < k ==> #[trigger] t[i][0] != 0,
    ensures
        crate::fs::dir::parse_from(t, j, lfn) == crate::fs::dir::parse_from(t.take(k), j, lfn)
            + crate::fs::dir::parse_from(t, k, crate::fs::file_laws::gathered(t.take(k), j, lfn)),
    decreases k - j,
{
    let a = crate::fs::dir::parse_from(t.take(k), j, lfn);
    let b = crate::fs::dir::parse_from(t, k, crate::fs::file_laws::gathered(t.take(k), j, lfn));
    if j == k {
        assert(a + b =~= b);
    } else {
        assert(t.take(k)[j] == t[j]);
        assert(t[j][0] != 0);
        if t[j][0] != 0xE5 && crate::fs::dir::is_lfn(t[j]) {
            lemma_parse_cut(t, k, j + 1, lfn.push(crate::fs::dir::lfn_from(t[j], 0)));
        } else {
            lemma_parse_cut(t, k, j + 1, Seq::empty());
            if t[j][0] != 0xE5 && !crate::fs::dir::is_volume(t[j]) {
                let e = seq![crate::fs::dir::slot_entry(t[j], lfn)];
                let a1 = crate::fs::dir::parse_from(t.take(k), j + 1, Seq::empty());
                assert(e + (a1 + b) =~= (e + a1) + b);
            }
        }
    }
}

/// Slots that end alike, but for free ones, list alike.
proof fn lemma_parse_alike(s: Seq<Seq<u8>>, t: Seq<Seq<u8>>, j: int, lfn: Seq<Seq<char>>)
    requires
        0 <= j,
        s.len() <= t.len(),
        forall|i: int| j <= i < s.len() ==> #[trigger] t[i] == s[i],
        forall|i: int| s.len() <= i < t.len() && j <= i ==> #[trigger] t[i][0] == 0,
    ensures
        crate::fs::dir::parse_from(t, j, lfn) == crate::fs::dir::parse_from(s, j, lfn),
    decreases s.len() - j,
{
    if j < s.len() {
        assert(t[j] == s[j]);
        if s[j][0] != 0 {
            if s[j][0] != 0xE5 && crate::fs::dir::is_lfn(s[j]) {
                lemma_parse_alike(s, t, j + 1, lfn.push(crate::fs::dir::lfn_from(s[j], 0)));
            } else {
                lemma_parse_alike(s, t, j + 1, Seq::empty());
            }
        }
    } else if j < t.len() {
        assert(t[j][0] == 0);
    }
}

/// Behind a slot that holds no part of a long name nothing is gathered.
proof fn lemma_nothing_gathered(t: Seq<Seq<u8>>, j: int, lfn: Seq<Seq<char>>)
    requires
        0 <= j < t.len(),
        t.last()[0] == 0xE5 || !crate::fs::dir::is_lfn(t.last()),
    ensures
        crate::fs::file_laws::gathered(t, j, lfn) == Seq::<Seq<char>>::empty(),
    decreases t.len() - j,
{
    if j == t.len() - 1 {
        assert(t[j] == t.last());
        reveal_with_fuel(crate::fs::file_laws::gathered, 2);
    } else if t[j][0] == 0xE5 || !crate::fs::dir::is_lfn(t[j]) {
        lemma_nothing_gathered(t, j + 1, Seq::empty());
    } else {
        lemma_nothing_gathered(t, j + 1, lfn.push(crate::fs::dir::lfn_from(t[j], 0)));
    }
}

/// Before a free slot of a tidy directory, or its end, nothing is gathered.
proof fn lemma_tidy_gathers_nothing(s: Seq<Seq<u8>>, k: int)
    requires
        tidy(s),
        0 <= k <= s.len(),
        forall|i: int| 0 <= i < k ==> #[trigger] s[i][0] != 0,
        k < s.len() ==> s[k][0] == 0 || s[k][0] == 0xE5,
    ensures
        crate::fs::file_laws::gathered(s.take(k), 0, Seq::empty()) == Seq::<Seq<char>>::empty(),
{
    let t = s.take(k);
    if k > 0 {
        assert(t.last() == s[k - 1]);
        assert(s[k - 1][0] != 0);
        assert(!long_slot(s[k - 1]));
        lemma_nothing_gathered(t, 0, Seq::empty());
    }
}

/// An entry with another name does not matter to a search.
proof fn lemma_found_without(a: Seq<EntV>, x: EntV, c: Seq<EntV>, q: Seq<char>)
    requires
        !crate::fs::fat32::named(q)(x),
    ensures
        crate::fs::path_laws::found(a + seq![x] + c, q) == crate::fs::path_laws::found(a + c, q),
{
    let n = crate::fs::fat32::named(q);
    let l1 = a + seq![x] + c;
    let l2 = a + c;
    let m = a.len() as int;
    crate::seqs::lemma_first_from(l2, n, 0);
    assert forall|j: int| 0 <= j < l1.len() implies #[trigger] l1[j] == if j < m {
        l2[j]
    } else if j == m {
        x
    } else {
        l2[j - 1]
    } by {}
    match crate::seqs::first(l2, n) {
        Some(k) => {
            let k1 = if k < m {
                k
            } else {
                k + 1
            };
            assert(l1[k1] == l2[k]);
            assert forall|j: int| 0 <= j < k1 implies !n(#[trigger] l1[j]) by {
                if j < m {
                    assert(!n(l2[j]));
                } else if j > m {
                    assert(!n(l2[j - 1]));
                }
            }
            crate::seqs::lemma_first_is(l1, n, 0, k1);
        },
        None => {
            assert forall|j: int| 0 <= j < l1.len() implies !n(#[trigger] l1[j]) by {
                if j < m {
                    assert(!n(l2[j]));
                } else if j > m {
                    assert(!n(l2[j - 1]));
                }
            }
            crate::seqs::lemma_first_none(l1, n, 0);
        },
    }
}

// ---------------------------------------------------------------------------
// Writing
// ---------------------------------------------------------------------------
/// A write of `data` to `path` that can be relied on: the volume is sound, the
/// directory in good order, the name an 8.3 name that belongs to a plain file
/// or to nothing, the data of a size that a file can have, and the write
/// succeeds.
pub open spec fn good_write(v: FatV, path: Seq<char>, data: Seq<u8>) -> bool {
    &&& crate::fs::fat_laws::sound_root(v)
    &&& crate::fs::fat_laws::sound_file(v, crate::fs::fat_laws::replaced_cluster(v, path))
    &&& data.len() < 0x1_0000_0000
    &&& crate::fs::fat_write::clusters_for(v, data.len()) <= GUARD
    &&& crate::fs::fat_write::write_file_spec(v, path, data).1 is Ok
    &&& crate::fs::file_laws::is_short(crate::fs::fat32::trim_slashes(path))
    &&& tidy(v.dir(v.root))
    &&& plain_name(v.dir(v.root), crate::fs::fat32::trim_slashes(path))
}

/// No long name stands before the slot that a good write uses, and no slot
/// before it ends the directory.
proof fn lemma_target(v: FatV, path: Seq<char>, data: Seq<u8>)
    requires
        good_write(v, path, data),
    ensures
        ({
            let k = crate::fs::fat_laws::target_slot(v, path);
            let s = v.dir(v.root);
            &&& 0 <= k <= s.len()
            &&& forall|i: int| 0 <= i < k ==> #[trigger] s[i][0] != 0
            &&& crate::fs::file_laws::gathered(s.take(k), 0, Seq::empty()) == Seq::<Seq<char>>::empty()
        }),
{
    let s = v.dir(v.root);
    let p = crate::fs::fat32::trim_slashes(path);
    let k = crate::fs::fat_laws::target_slot(v, path);
    let w = vstd::utf8::encode_utf8(p);
    match crate::fs::dir::find_short(s, w, 0) {
        Some(i) => {
            crate::fs::file_laws::lemma_find_short_hit(s, w, 0);
            assert(crate::fs::file_laws::gathered(s.take(k), 0, Seq::empty()) =~= Seq::<Seq<char>>::empty());
        },
        None => {
            crate::seqs::lemma_first_from(s, crate::fs::fat_write::is_vacant(), 0);
            assert forall|i: int| 0 <= i < k implies #[trigger] s[i][0] != 0 by {
                assert(!crate::fs::fat_write::is_vacant()(s[i]));
            }
            if k < s.len() {
                assert(crate::fs::fat_write::is_vacant()(s[k]));
            }
            lemma_tidy_gathers_nothing(s, k);
        },
    }
}

/// A file that was written reads back as the data, whatever the letter case of
/// the path.
pub proof fn law_written_file_reads_back(v: FatV, path: Seq<char>, again: Seq<char>, data: Seq<u8>)
    requires
        good_write(v, path, data),
        crate::fs::dir::upper_chars(again) == crate::fs::dir::upper_chars(path),
    ensures
        crate::fs::fat32::cat_spec(crate::fs::fat_write::write_file_spec(v, path, data).0, again) == Ok::<
            Seq<u8>,
            crate::fs::fat32::FsErr,
        >(data),
{
    let s = v.dir(v.root);
    let p = crate::fs::fat32::trim_slashes(path);
    let k = crate::fs::fat_laws::target_slot(v, path);
    let before = s.take(k);
    let n = crate::fs::fat32::named(p);
    let w = vstd::utf8::encode_utf8(p);
    lemma_target(v, path, data);
    let a = crate::fs::dir::parsed(before);
    let all = crate::fs::dir::parsed(s);
    lemma_parse_cut(s, k, 0, Seq::empty());
    crate::seqs::lemma_first_from(all, n, 0);
    assert forall|i: int| 0 <= i < a.len() implies !n(#[trigger] a[i]) by {
        assert(a[i] == all[i]);
    }
    crate::fs::file_laws::law_short_name_reads_back(v, path, data);
    crate::fs::path_laws::law_lookup_letter_case(
        crate::fs::fat_write::write_file_spec(v, path, data).0,
        again,
        path,
    );
}

/// After a good write a search of the root directory for another name finds
/// what it found before.
proof fn lemma_other_name_found(v: FatV, path: Seq<char>, data: Seq<u8>, q: Seq<char>)
    requires
        good_write(v, path, data),
        crate::fs::dir::upper_chars(q) != crate::fs::dir::upper_chars(crate::fs::fat32::trim_slashes(path)),
    ensures
        crate::fs::path_laws::found(
            crate::fs::dir::parsed(crate::fs::fat_write::write_file_spec(v, path, data).0.dir(v.root)),
            q,
        ) == crate::fs::path_laws::found(crate::fs::dir::parsed(v.dir(v.root)), q),
{
    let s = v.dir(v.root);
    let p = crate::fs::fat32::trim_slashes(path);
    let t = crate::fs::fat_write::write_file_spec(v, path, data).0.dir(v.root);
    let k = crate::fs::fat_laws::target_slot(v, path);
    let none = Seq::<Seq<char>>::empty();
    let ch = crate::fs::fat_laws::lemma_write(v, path, data);
    lemma_target(v, path, data);
    crate::fs::file_laws::lemma_written_slot(v, path, data);
    crate::fs::file_laws::lemma_written_name(v, path, data);
    assert(t.take(k) =~= s.take(k)) by {
        assert forall|i: int| 0 <= i < k implies t.take(k)[i] == s.take(k)[i] by {
            assert(t[i] == s[i]);
        }
    }
    let a = crate::fs::dir::parsed(s.take(k));
    lemma_parse_cut(s, k, 0, none);
    lemma_parse_cut(t, k, 0, none);
    let x = crate::fs::dir::slot_entry(t[k], none);
    let c = crate::fs::dir::parse_from(t, k + 1, none);
    assert(crate::fs::dir::parse_from(t, k, none) == seq![x] + c);
    assert(a + (seq![x] + c) =~= a + seq![x] + c);
    assert(!crate::fs::fat32::named(q)(x));
    lemma_found_without(a, x, c, q);
    assert forall|i: int| s.len() <= i < t.len() && k + 1 <= i implies #[trigger] t[i][0] == 0 by {
        assert(t[i] == Seq::new(32, |z: int| 0u8));
    }
    assert forall|i: int| k + 1 <= i < s.len() implies #[trigger] t[i] == s[i] by {}
    lemma_parse_alike(s, t, k + 1, none);
    let w = vstd::utf8::encode_utf8(p);
    match crate::fs::dir::find_short(s, w, 0) {
        Some(i) => {
            crate::fs::file_laws::lemma_find_short_hit(s, w, 0);
            let y = crate::fs::dir::slot_entry(s[k], none);
            assert(crate::fs::dir::parse_from(s, k, none) == seq![y] + c);
            assert(a + (seq![y] + c) =~= a + seq![y] + c);
            let all = crate::fs::dir::parsed(s);
            crate::seqs::lemma_first_from(all, crate::fs::fat32::named(p), 0);
            assert(all[a.len() as int] == y);
            assert(crate::fs::fat32::named(p)(y));
            lemma_found_without(a, y, c, q);
        },
        None => {
            crate::seqs::lemma_first_from(s, crate::fs::fat_write::is_vacant(), 0);
            if k < s.len() {
                assert(crate::fs::fat_write::is_vacant()(s[k]));
                if s[k][0] == 0 {
                    if k + 1 < s.len() {
                        assert(s[k + 1][0] == 0);
                    }
                    assert(c =~= Seq::<EntV>::empty());
                } else {
                    assert(crate::fs::dir::parse_from(s, k, none) == c);
                }
            } else {
                assert(c =~= Seq::<EntV>::empty());
            }
            assert(crate::fs::dir::parse_from(s, k, none) =~= c);
        },
    }
}

/// The file or directory from cluster `first` on is empty, or its chain is
/// sound, lies on the disk and shares no cluster with the chain `oc`.
pub open spec fn clear_of(v: FatV, oc: Seq<u32>, first: u32) -> bool {
    first >= 2 ==> {
        &&& crate::fs::fat_laws::sound_file(v, first)
        &&& forall|i: int|
            0 <= i < v.chain(first, GUARD as nat).len() ==> v.on_disk(#[trigger] v.chain(first, GUARD as nat)[i])
                && !oc.contains(v.chain(first, GUARD as nat)[i])
    }
}

/// Whatever else the volume holds shares no cluster with the file at `path`.
pub open spec fn apart(v: FatV, path: Seq<char>) -> bool {
    forall|cs: Seq<Seq<char>>|
        cs.len() > 0 && crate::fs::dir::upper_chars(cs[0]) != crate::fs::dir::upper_chars(
            crate::fs::fat32::trim_slashes(path),
        ) && (#[trigger] crate::fs::path_laws::walk(v, crate::fs::fat32::root_entry(v), cs)) is Some ==> clear_of(
            v,
            v.chain(crate::fs::fat_laws::replaced_cluster(v, path), GUARD as nat),
            crate::fs::path_laws::walk(v, crate::fs::fat32::root_entry(v), cs)->Some_0.first_cluster,
        )
}

/// What is clear of the file that a change concerns reads as before.
proof fn lemma_clear_contents(v: FatV, w: FatV, oc: Seq<u32>, first: u32)
    requires
        crate::fs::fat_laws::sound_root(v),
        crate::fs::fat_laws::spares(v, w, v.chain(v.root, GUARD as nat), oc),
        clear_of(v, oc, first),
    ensures
        w.contents(first) == v.contents(first),
{
    if first >= 2 {
        crate::fs::file_laws::lemma_spared(v, w, first, oc);
    }
}

/// From an entry that the names `pre` lead to, a walk goes as before.
proof fn lemma_walk_kept(v: FatV, w: FatV, path: Seq<char>, pre: Seq<Seq<char>>, e: EntV, cs: Seq<Seq<char>>)
    requires
        crate::fs::fat_laws::sound_root(v),
        crate::fs::fat_laws::spares(
            v,
            w,
            v.chain(v.root, GUARD as nat),
            v.chain(crate::fs::fat_laws::replaced_cluster(v, path), GUARD as nat),
        ),
        apart(v, path),
        pre.len() > 0,
        crate::fs::dir::upper_chars(pre[0]) != crate::fs::dir::upper_chars(crate::fs::fat32::trim_slashes(path)),
        crate::fs::path_laws::walk(v, crate::fs::fat32::root_entry(v), pre) == Some(e),
    ensures
        crate::fs::path_laws::walk(w, e, cs) == crate::fs::path_laws::walk(v, e, cs),
        crate::fs::path_laws::walk(v, e, cs) matches Some(f) ==> w.contents(f.first_cluster) == v.contents(
            f.first_cluster,
        ),
    decreases cs.len(),
{
    let oc = v.chain(crate::fs::fat_laws::replaced_cluster(v, path), GUARD as nat);
    lemma_clear_contents(v, w, oc, e.first_cluster);
    if cs.len() > 0 && e.is_dir {
        let list = crate::fs::dir::parsed(v.dir(e.first_cluster));
        if let Some(f) = crate::fs::path_laws::found(list, cs[0]) {
            let one = seq![cs[0]];
            let next = pre + one;
            crate::fs::path_laws::lemma_walk_concat(v, crate::fs::fat32::root_entry(v), pre, one);
            assert(one.skip(1) =~= Seq::<Seq<char>>::empty());
            assert(crate::fs::path_laws::walk(v, f, one.skip(1)) == Some(f));
            assert(crate::fs::path_laws::walk(v, e, one) == Some(f));
            assert(next[0] == pre[0]);
            lemma_walk_kept(v, w, path, next, f, cs.skip(1));
        }
    }
}

/// Writing a file leaves every other path as it was: it leads to the same
/// entry, and a file there reads as the same bytes.
pub proof fn law_write_keeps_other_paths(v: FatV, path: Seq<char>, data: Seq<u8>, other: Seq<char>)
    requires
        good_write(v, path, data),
        apart(v, path),
        crate::fs::path_laws::components(other).len() > 0,
        crate::fs::dir::upper_chars(crate::fs::path_laws::components(other)[0]) != crate::fs::dir::upper_chars(
            crate::fs::fat32::trim_slashes(path),
        ),
    ensures
        ({
            let w = crate::fs::fat_write::write_file_spec(v, path, data).0;
            &&& crate::fs::fat32::lookup_spec(w, other) == crate::fs::fat32::lookup_spec(v, other)
            &&& crate::fs::fat32::cat_spec(w, other) == crate::fs::fat32::cat_spec(v, other)
        }),
{
    let w = crate::fs::fat_write::write_file_spec(v, path, data).0;
    let cs = crate::fs::path_laws::components(other);
    let root = crate::fs::fat32::root_entry(v);
    let ch = crate::fs::fat_laws::lemma_write(v, path, data);
    crate::fs::path_laws::law_lookup_walks(v, other);
    crate::fs::path_laws::law_lookup_walks(w, other);
    lemma_other_name_found(v, path, data, cs[0]);
    let list = crate::fs::dir::parsed(v.dir(v.root));
    if let Some(e) = crate::fs::path_laws::found(list, cs[0]) {
        let one = seq![cs[0]];
        assert(one.skip(1) =~= Seq::<Seq<char>>::empty());
        assert(crate::fs::path_laws::walk(v, e, one.skip(1)) == Some(e));
        assert(crate::fs::path_laws::walk(v, root, one) == Some(e));
        lemma_walk_kept(v, w, path, one, e, cs.skip(1));
    }
}

// ---------------------------------------------------------------------------
// Deleting
// ---------------------------------------------------------------------------
proof fn lemma_not_found(s: Seq<Seq<u8>>, t: Seq<Seq<u8>>, w: Seq<u8>, from: int, i: int, k: int)
    requires
        0 <= from <= i < s.len(),
        0 <= k,
        t.len() == s.len(),
        crate::fs::dir::find_short(s, w, 0) == Some(i),
        crate::fs::dir::find_short(s, w, i + 1) is None,
        k <= i ==> crate::fs::dir::find_short(s, w, k) == Some(i),
        k > i ==> crate::fs::dir::find_short(s, w, k) is None,
        forall|j: int| 0 <= j < s.len() ==> s[j].len() == 32,
        forall|j: int|
            0 <= j < s.len() ==> #[trigger] t[j] == if from <= j <= i {
                s[j].update(0, 0xE5u8)
            } else {
                s[j]
            },
    ensures
        crate::fs::dir::find_short(t, w, k) is None,
    decreases s.len() - k,
{
    if k < s.len() {
        assert(t[k] == if from <= k <= i {
            s[k].update(0, 0xE5u8)
        } else {
            s[k]
        });
        assert(s[k].len() == 32);
        if t[k][0] != 0 {
            lemma_not_found(s, t, w, from, i, k + 1);
        }
    }
}

/// A deleted file is gone: deleting it again answers that there is no such
/// file and changes nothing, where no second slot carried its name.
pub proof fn law_delete_twice(v: FatV, path: Seq<char>)
    requires
        crate::fs::fat_laws::sound_root(v),
        crate::fs::fat_laws::sound_file(v, crate::fs::fat_laws::replaced_cluster(v, path)),
        v.writable,
        crate::fs::fat_write::in_root(path),
        ({
            let w = vstd::utf8::encode_utf8(crate::fs::fat32::trim_slashes(path));
            crate::fs::dir::find_short(v.dir(v.root), w, 0) matches Some(i) && crate::fs::dir::find_short(
                v.dir(v.root),
                w,
                i + 1,
            ) is None
        }),
    ensures
        ({
            let w = crate::fs::fat_write::delete_spec(v, path).0;
            crate::fs::fat_write::delete_spec(w, path) == (w, Err::<(), crate::fs::fat32::FsErr>(
                crate::fs::fat32::FsErr::Msg("no such file"@),
            ))
        }),
{
    let s = v.dir(v.root);
    let wanted = vstd::utf8::encode_utf8(crate::fs::fat32::trim_slashes(path));
    crate::fs::file_laws::law_delete(v, path);
    crate::fs::file_laws::lemma_find_short_hit(s, wanted, 0);
    let w = crate::fs::fat_write::delete_spec(v, path).0;
    let i = crate::fs::dir::find_short(s, wanted, 0)->Some_0;
    crate::fs::file_laws::lemma_group_start(s, i);
    lemma_not_found(s, w.dir(v.root), wanted, crate::fs::dir::group_start(s, i), i, 0);
}

} // verus!
