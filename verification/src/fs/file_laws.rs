//! What a user of the file system may rely on: a file reads back as it was
//! written, writing and deleting leave the other files alone, and the copies
//! of the FAT agree.

use vstd::prelude::*;

use crate::fs::fat32::{FatV, GUARD};

verus! {

/// Among the entries of a directory with the slots `t`, the first one named
/// `p` is the one in slot `k`.
pub open spec fn shown_at(t: Seq<Seq<u8>>, p: Seq<char>, k: int) -> bool {
    crate::seqs::first(crate::fs::dir::parsed(t), crate::fs::fat32::named(p)) == Some(crate::fs::dir::parsed(t.take(k)).len() as int)
}

/// The long-name parts that the slots from the `j`-th on leave gathered,
/// behind the parts `lfn`.
pub open spec fn gathered(t: Seq<Seq<u8>>, j: int, lfn: Seq<Seq<char>>) -> Seq<Seq<char>>
    decreases t.len() - j,
{
    if j < 0 || j >= t.len() {
        lfn
    } else if t[j][0] == 0xE5 || !crate::fs::dir::is_lfn(t[j]) {
        gathered(t, j + 1, Seq::empty())
    } else {
        gathered(t, j + 1, lfn.push(crate::fs::dir::lfn_from(t[j], 0)))
    }
}

/// Parsing a directory reaches a live slot that no end marker precedes: its
/// entry comes after those of the slots before it.
pub proof fn lemma_parse_reaches(t: Seq<Seq<u8>>, k: int, j: int, lfn: Seq<Seq<char>>) -> (acc: Seq<Seq<char>>)
    requires
        0 <= j <= k < t.len(),
        forall|i: int| j <= i < k ==> #[trigger] t[i][0] != 0,
        t[k][0] != 0,
        crate::fs::dir::is_live(t[k]),
    ensures
        ({
            let a = crate::fs::dir::parse_from(t.take(k), j, lfn);
            let b = crate::fs::dir::parse_from(t, j, lfn);
            &&& a.len() < b.len()
            &&& b.take(a.len() as int) == a
            &&& b[a.len() as int] == crate::fs::dir::slot_entry(t[k], acc)
        }),
        acc == gathered(t.take(k), j, lfn),
    decreases k - j,
{
    let a = crate::fs::dir::parse_from(t.take(k), j, lfn);
    let b = crate::fs::dir::parse_from(t, j, lfn);
    if j == k {
        assert(a =~= Seq::empty());
        assert(b.take(0) =~= a);
        lfn
    } else {
        assert(t.take(k)[j] == t[j]);
        assert(t[j][0] != 0);
        if t[j][0] == 0xE5 || (!crate::fs::dir::is_lfn(t[j]) && crate::fs::dir::is_volume(t[j])) {
            lemma_parse_reaches(t, k, j + 1, Seq::empty())
        } else if crate::fs::dir::is_lfn(t[j]) {
            lemma_parse_reaches(t, k, j + 1, lfn.push(crate::fs::dir::lfn_from(t[j], 0)))
        } else {
            let acc = lemma_parse_reaches(t, k, j + 1, Seq::empty());
            let a1 = crate::fs::dir::parse_from(t.take(k), j + 1, Seq::empty());
            let b1 = crate::fs::dir::parse_from(t, j + 1, Seq::empty());
            let e = crate::fs::dir::slot_entry(t[j], lfn);
            assert(a == seq![e] + a1);
            assert(b == seq![e] + b1);
            assert(b[a.len() as int] == b1[a1.len() as int]);
            assert(b.take(a.len() as int) =~= a) by {
                assert forall|i: int| 0 <= i < a.len() implies b.take(a.len() as int)[i] == a[i] by {
                    if i > 0 {
                        assert(b1.take(a1.len() as int)[i - 1] == a1[i - 1]);
                    }
                }
            }
            acc
        }
    }
}

/// The entry that a write makes is live.
proof fn lemma_new_entry_live(v: FatV, path: Seq<char>, first: u32, size: u32)
    requires
        crate::fs::fat32::trim_slashes(path).len() > 0,
        crate::fs::dir::find_short(v.dir(v.root), vstd::utf8::encode_utf8(crate::fs::fat32::trim_slashes(path)), 0) is None
            ==> crate::fs::fat_write::new_base(
            v.dir(v.root),
            crate::fs::dir::short_of(crate::fs::fat32::trim_slashes(path)).0,
            crate::fs::dir::short_of(crate::fs::fat32::trim_slashes(path)).1,
        ) is Some,
    ensures
        ({
            let (b, x) = crate::fs::fat_laws::entry_bytes(v, path);
            let e = crate::fs::dir::dirent(b, x, first, size);
            crate::fs::dir::is_live(e) && e[0] != 0
        }),
{
    let s = v.dir(v.root);
    let p = crate::fs::fat32::trim_slashes(path);
    let w = vstd::utf8::encode_utf8(p);
    let (b, x) = crate::fs::fat_laws::entry_bytes(v, path);
    let e = crate::fs::dir::dirent(b, x, first, size);
    crate::fs::fat_laws::lemma_dirent_len(b, x, first, size);
    assert(e[0] == e.subrange(0, 8)[0]);
    match crate::fs::dir::find_short(s, w, 0) {
        Some(i) => {
            lemma_find_short_hit(s, w, 0);
            lemma_trimmed(s[i].subrange(0, 8));
            if b.len() > 0 {
                assert(b[0] == s[i].subrange(0, 8)[0]);
            }
        },
        None => {
            let base0 = crate::fs::dir::short_of(p).0;
            lemma_trim_twice(path);
            lemma_last_dot(p);
            assert(base0.len() > 0);
            assert(b.len() > 0 && b[0] == base0[0]);
        },
    }
}

/// What `find_short` finds is a live slot with the wanted name, and no end
/// marker stands before it.
pub proof fn lemma_find_short_hit(s: Seq<Seq<u8>>, w: Seq<u8>, k: int)
    requires
        0 <= k,
        crate::fs::dir::find_short(s, w, k) is Some,
    ensures
        ({
            let i = crate::fs::dir::find_short(s, w, k)->Some_0;
            &&& k <= i < s.len()
            &&& crate::fs::dir::is_live(s[i])
            &&& s[i][0] != 0
            &&& crate::fs::dir::upper_bytes(crate::fs::dir::full_text(s[i])) == crate::fs::dir::upper_bytes(w)
            &&& forall|j: int| k <= j < i ==> #[trigger] s[j][0] != 0
        }),
    decreases s.len() - k,
{
    if !(crate::fs::dir::is_live(s[k]) && crate::fs::dir::upper_bytes(crate::fs::dir::full_text(s[k])) == crate::fs::dir::upper_bytes(w)) {
        lemma_find_short_hit(s, w, k + 1);
    }
}

proof fn lemma_trimmed(b: Seq<u8>)
    ensures
        crate::fs::dir::trim_blanks(b).len() <= b.len(),
        forall|i: int|
            0 <= i < crate::fs::dir::trim_blanks(b).len() ==> #[trigger] crate::fs::dir::trim_blanks(b)[i] == b[i],
    decreases b.len(),
{
    if b.len() > 0 && b.last() == 0x20 {
        lemma_trimmed(b.drop_last());
    }
}

/// Without leading slashes there are none to cut off.
proof fn lemma_trim_twice(s: Seq<char>)
    ensures
        crate::fs::fat32::trim_slashes(crate::fs::fat32::trim_slashes(s)) == crate::fs::fat32::trim_slashes(s),
    decreases s.len(),
{
    if s.len() > 0 && s[0] == '/' {
        lemma_trim_twice(s.skip(1));
    }
}

proof fn lemma_last_dot(s: Seq<char>)
    ensures
        crate::fs::dir::last_dot(s) matches Some(i) ==> 0 <= i < s.len(),
    decreases s.len(),
{
    if s.len() > 0 && s.last() != '.' {
        lemma_last_dot(s.drop_last());
    }
}

/// Reading the path of a file that stands in slot `k` of the root directory.
proof fn lemma_cat_at(w: FatV, path: Seq<char>, k: int)
    requires
        crate::fs::fat32::trim_slashes(path).len() > 0,
        !crate::fs::fat32::trim_slashes(path).contains('/'),
        0 <= k < w.dir(w.root).len(),
        forall|i: int| 0 <= i < k ==> #[trigger] w.dir(w.root)[i][0] != 0,
        w.dir(w.root)[k][0] != 0,
        crate::fs::dir::is_live(w.dir(w.root)[k]),
        w.dir(w.root)[k][11] == 0x20,
        shown_at(w.dir(w.root), crate::fs::fat32::trim_slashes(path), k),
    ensures
        crate::fs::fat32::cat_spec(w, path) == Ok::<Seq<u8>, crate::fs::fat32::FsErr>(
            crate::fs::fat32::cut(
                w.contents(crate::fs::dir::slot_cluster(w.dir(w.root)[k])),
                crate::bytes::rd_le4(w.dir(w.root)[k], 28) as int,
            ),
        ),
{
    let p = crate::fs::fat32::trim_slashes(path);
    let t = w.dir(w.root);
    let acc = lemma_parse_reaches(t, k, 0, Seq::empty());
    crate::text::lemma_pieces_one(p, '/');
    let comps = crate::text::pieces(p, '/');
    let list = crate::fs::dir::parsed(t);
    let m = crate::fs::dir::parsed(t.take(k)).len() as int;
    let root = crate::fs::fat32::root_entry(w);
    assert(comps[0] == p);
    assert(crate::fs::fat32::resolve(w, list[m], comps, 1) == Some(list[m]));
    assert(crate::fs::fat32::resolve(w, root, comps, 0) == Some(list[m]));
}

/// The slot of a written file is reached when the directory is read.
pub proof fn lemma_written_slot(v: FatV, path: Seq<char>, data: Seq<u8>)
    requires
        crate::fs::fat_laws::sound_root(v),
        crate::fs::fat_laws::sound_file(v, crate::fs::fat_laws::replaced_cluster(v, path)),
        data.len() < 0x1_0000_0000,
        crate::fs::fat_write::clusters_for(v, data.len()) <= GUARD,
        crate::fs::fat_write::write_file_spec(v, path, data).1 is Ok,
    ensures
        ({
            let t = crate::fs::fat_write::write_file_spec(v, path, data).0.dir(v.root);
            let k = crate::fs::fat_laws::target_slot(v, path);
            &&& 0 <= k < t.len()
            &&& forall|i: int| 0 <= i < k ==> i < v.dir(v.root).len() && #[trigger] t[i] == v.dir(v.root)[i]
            &&& forall|i: int| 0 <= i < k ==> #[trigger] t[i][0] != 0
            &&& t[k][0] != 0
            &&& t[k][11] == 0x20
            &&& crate::fs::dir::is_live(t[k])
        }),
{
    let s = v.dir(v.root);
    let p = crate::fs::fat32::trim_slashes(path);
    let k = crate::fs::fat_laws::target_slot(v, path);
    let ch = crate::fs::fat_laws::lemma_write(v, path, data);
    let first = if data.len() == 0 {
        0u32
    } else {
        ch[0]
    };
    lemma_new_entry_live(v, path, first, data.len() as u32);
    let t = crate::fs::fat_write::write_file_spec(v, path, data).0.dir(v.root);
    crate::seqs::lemma_first_from(s, crate::fs::fat_write::is_vacant(), 0);
    match crate::fs::dir::find_short(s, vstd::utf8::encode_utf8(p), 0) {
        Some(i) => {
            lemma_find_short_hit(s, vstd::utf8::encode_utf8(p), 0);
        },
        None => {},
    }
    assert forall|i: int| 0 <= i < k implies #[trigger] t[i][0] != 0 by {
        assert(t[i] == s[i]);
        if crate::fs::dir::find_short(s, vstd::utf8::encode_utf8(p), 0) is None {
            assert(!crate::fs::fat_write::is_vacant()(s[i]));
        }
    }
}

/// What is written is what is read: after a successful write of `data` to
/// `path`, reading `path` gives `data`, wherever the directory then shows the
/// written slot under that name.
pub proof fn law_write_then_read(v: FatV, path: Seq<char>, data: Seq<u8>)
    requires
        crate::fs::fat_laws::sound_root(v),
        crate::fs::fat_laws::sound_file(v, crate::fs::fat_laws::replaced_cluster(v, path)),
        data.len() < 0x1_0000_0000,
        crate::fs::fat_write::clusters_for(v, data.len()) <= GUARD,
        crate::fs::fat_write::write_file_spec(v, path, data).1 is Ok,
        shown_at(crate::fs::fat_write::write_file_spec(v, path, data).0.dir(v.root), crate::fs::fat32::trim_slashes(path), crate::fs::fat_laws::target_slot(v, path)),
    ensures
        crate::fs::fat32::cat_spec(crate::fs::fat_write::write_file_spec(v, path, data).0, path) == Ok::<Seq<u8>, crate::fs::fat32::FsErr>(data),
{
    let w = crate::fs::fat_write::write_file_spec(v, path, data).0;
    let ch = crate::fs::fat_laws::lemma_write(v, path, data);
    lemma_written_slot(v, path, data);
    lemma_cat_at(w, path, crate::fs::fat_laws::target_slot(v, path));
    if data.len() == 0 {
        assert(w.contents(0) =~= Seq::empty());
        assert(data =~= Seq::empty());
    }
}

/// The bytes of an 8.3 name as text, with a dot before a present extension.
pub open spec fn short_text(b: Seq<u8>, x: Seq<u8>) -> Seq<char> {
    if x.len() == 0 {
        b.map_values(|c: u8| c as char)
    } else {
        b.map_values(|c: u8| c as char).push('.') + x.map_values(|c: u8| c as char)
    }
}

/// `p` is an 8.3 name: in upper case it is its own short form.
pub open spec fn is_short(p: Seq<char>) -> bool {
    short_text(crate::fs::dir::short_of(p).0, crate::fs::dir::short_of(p).1) == crate::fs::dir::upper_chars(p)
}

proof fn lemma_until_blank(e: Seq<u8>, b: Seq<u8>, from: int, i: int, end: int)
    requires
        0 <= from <= i <= end <= e.len(),
        b.len() <= end - from,
        i - from <= b.len(),
        e.subrange(from, end) == crate::fs::dir::blank_padded(b, end - from),
        forall|j: int| 0 <= j < b.len() ==> #[trigger] b[j] != 0x20,
    ensures
        crate::fs::dir::until_blank(e, i, end) == b.skip(i - from).map_values(|c: u8| c as char),
    decreases end - i,
{
    let r = b.skip(i - from).map_values(|c: u8| c as char);
    if i < end {
        assert(e[i] == e.subrange(from, end)[i - from]);
        if i - from < b.len() {
            assert(b[i - from] != 0x20);
            lemma_until_blank(e, b, from, i + 1, end);
            assert(r =~= seq![e[i] as char] + b.skip(i + 1 - from).map_values(|c: u8| c as char));
        } else {
            assert(r =~= Seq::empty());
        }
    } else {
        assert(r =~= Seq::empty());
    }
}

/// An entry made from a base and an extension without blanks shows them.
pub proof fn lemma_short_name_of(b: Seq<u8>, x: Seq<u8>, first: u32, size: u32)
    requires
        b.len() <= 8,
        x.len() <= 3,
        forall|j: int| 0 <= j < b.len() ==> #[trigger] b[j] != 0x20,
        forall|j: int| 0 <= j < x.len() ==> #[trigger] x[j] != 0x20,
    ensures
        crate::fs::dir::short_name(crate::fs::dir::dirent(b, x, first, size)) == short_text(b, x),
{
    let e = crate::fs::dir::dirent(b, x, first, size);
    crate::fs::fat_laws::lemma_dirent_len(b, x, first, size);
    lemma_until_blank(e, b, 0, 0, 8);
    lemma_until_blank(e, x, 8, 8, 11);
    assert(b.skip(0) =~= b);
    assert(x.skip(0) =~= x);
    assert(x.map_values(|c: u8| c as char).len() == x.len());
}

/// The parts of an existing entry whose name is the 8.3 name `p` spell `p`.
proof fn lemma_found_text(e: Seq<u8>, p: Seq<char>)
    requires
        e.len() == 32,
        is_short(p),
        crate::fs::dir::upper_bytes(crate::fs::dir::full_text(e)) == crate::fs::dir::upper_bytes(
            vstd::utf8::encode_utf8(p),
        ),
    ensures
        ({
            let b = crate::fs::dir::base_text(e);
            let x = crate::fs::dir::ext_text(e);
            &&& b.len() <= 8
            &&& x.len() <= 3
            &&& forall|j: int| 0 <= j < b.len() ==> #[trigger] b[j] != 0x20
            &&& forall|j: int| 0 <= j < x.len() ==> #[trigger] x[j] != 0x20
            &&& crate::fs::dir::upper_chars(short_text(b, x)) == crate::fs::dir::upper_chars(p)
        }),
{
    let b = crate::fs::dir::base_text(e);
    let x = crate::fs::dir::ext_text(e);
    let f = crate::fs::dir::full_text(e);
    let w = vstd::utf8::encode_utf8(p);
    lemma_trimmed(e.subrange(0, 8));
    lemma_trimmed(e.subrange(8, 11));
    lemma_short_chars(p);
    vstd::utf8::is_ascii_chars_encode_utf8(p);
    assert(w.len() == p.len());
    assert(f.len() == w.len()) by {
        assert(crate::fs::dir::upper_bytes(f).len() == f.len());
        assert(crate::fs::dir::upper_bytes(w).len() == w.len());
    }
    assert forall|j: int| 0 <= j < f.len() implies crate::fs::dir::upper_byte(#[trigger] f[j])
        == crate::fs::dir::upper_char(p[j]) as u8 && crate::fs::dir::upper_char(f[j] as char)
        == crate::fs::dir::upper_char(p[j]) && f[j] != 0x20 by {
        assert(crate::fs::dir::upper_bytes(f)[j] == crate::fs::dir::upper_byte(f[j]));
        assert(crate::fs::dir::upper_bytes(w)[j] == crate::fs::dir::upper_byte(w[j]));
        assert(w[j] == p[j] as u8);
        assert(crate::fs::dir::upper_chars(p)[j] == crate::fs::dir::upper_char(p[j]));
    }
    assert forall|j: int| 0 <= j < b.len() implies #[trigger] b[j] != 0x20 by {
        assert(f[j] == b[j]);
    }
    assert forall|j: int| 0 <= j < x.len() implies #[trigger] x[j] != 0x20 by {
        assert(f[b.len() + 1 + j] == x[j]);
    }
    let t = short_text(b, x);
    assert(t.len() == f.len());
    assert forall|j: int| 0 <= j < t.len() implies #[trigger] crate::fs::dir::upper_chars(t)[j]
        == crate::fs::dir::upper_chars(p)[j] by {
        assert(t[j] == f[j] as char);
    }
    assert(crate::fs::dir::upper_chars(t) =~= crate::fs::dir::upper_chars(p));
}

/// The characters of an 8.3 name: ASCII, none of them blank.
proof fn lemma_short_chars(p: Seq<char>)
    requires
        is_short(p),
    ensures
        vstd::utf8::is_ascii_chars(p),
        forall|j: int| 0 <= j < p.len() ==> crate::fs::dir::upper_char(#[trigger] p[j]) != ' ',
        crate::fs::dir::short_of(p).0.len() <= 8,
        crate::fs::dir::short_of(p).1.len() <= 3,
        forall|j: int|
            0 <= j < crate::fs::dir::short_of(p).0.len() ==> #[trigger] crate::fs::dir::short_of(p).0[j] != 0x20,
        forall|j: int|
            0 <= j < crate::fs::dir::short_of(p).1.len() ==> #[trigger] crate::fs::dir::short_of(p).1[j] != 0x20,
{
    let (b, x) = crate::fs::dir::short_of(p);
    let q = crate::fs::fat32::trim_slashes(p);
    let t = short_text(b, x);
    assert(crate::fs::dir::upper_chars(p).len() == p.len());
    assert(t.len() == p.len());
    assert forall|j: int| 0 <= j < b.len() implies 0x20 < #[trigger] b[j] < 128 by {
        match crate::fs::dir::last_dot(q) {
            Some(i) if i > 0 => {
                assert(b[j] == crate::fs::dir::short_byte(q.take(i)[j]));
            },
            _ => {
                assert(b[j] == crate::fs::dir::short_byte(q[j]));
            },
        }
    }
    assert forall|j: int| 0 <= j < x.len() implies 0x20 < #[trigger] x[j] < 128 by {
        let i = crate::fs::dir::last_dot(q)->Some_0;
        assert(x[j] == crate::fs::dir::short_byte(q.skip(i + 1)[j]));
    }
    assert forall|j: int| 0 <= j < p.len() implies 0x20 < #[trigger] crate::fs::dir::upper_char(p[j]) as int && (
    crate::fs::dir::upper_char(p[j]) as int) < 128 by {
        assert(t[j] == crate::fs::dir::upper_chars(p)[j]);
        if j < b.len() {
            assert(t[j] == b[j] as char);
        } else if j > b.len() {
            assert(t[j] == x[j - b.len() - 1] as char);
        }
    }
    assert(vstd::utf8::is_ascii_chars(p)) by {
        assert forall|j: int| 0 <= j < p.len() implies '\0' <= #[trigger] p[j] <= '\u{7f}' by {
            assert((crate::fs::dir::upper_char(p[j]) as int) < 128);
        }
    }
}

/// The slot of a written file whose name is an 8.3 name that no other entry
/// carries shows that name.
pub proof fn lemma_written_name(v: FatV, path: Seq<char>, data: Seq<u8>)
    requires
        crate::fs::fat_laws::sound_root(v),
        crate::fs::fat_laws::sound_file(v, crate::fs::fat_laws::replaced_cluster(v, path)),
        data.len() < 0x1_0000_0000,
        crate::fs::fat_write::clusters_for(v, data.len()) <= GUARD,
        crate::fs::fat_write::write_file_spec(v, path, data).1 is Ok,
        is_short(crate::fs::fat32::trim_slashes(path)),
        crate::fs::dir::find_short(v.dir(v.root), vstd::utf8::encode_utf8(crate::fs::fat32::trim_slashes(path)), 0) is Some || !crate::fs::dir::taken(
            v.dir(v.root),
            crate::fs::dir::short_of(crate::fs::fat32::trim_slashes(path)).0,
            crate::fs::dir::short_of(crate::fs::fat32::trim_slashes(path)).1,
        ),
    ensures
        crate::fs::dir::upper_chars(
            crate::fs::dir::short_name(
                crate::fs::fat_write::write_file_spec(v, path, data).0.dir(v.root)[crate::fs::fat_laws::target_slot(v, path)],
            ),
        ) == crate::fs::dir::upper_chars(crate::fs::fat32::trim_slashes(path)),
{
    let s = v.dir(v.root);
    let p = crate::fs::fat32::trim_slashes(path);
    let t = crate::fs::fat_write::write_file_spec(v, path, data).0.dir(v.root);
    let k = crate::fs::fat_laws::target_slot(v, path);
    let ch = crate::fs::fat_laws::lemma_write(v, path, data);
    let first = if data.len() == 0 {
        0u32
    } else {
        ch[0]
    };
    lemma_written_slot(v, path, data);
    let (b, x) = crate::fs::fat_laws::entry_bytes(v, path);
    lemma_short_chars(p);
    assert(b.len() <= 8 && x.len() <= 3 && (forall|j: int| 0 <= j < b.len() ==> #[trigger] b[j] != 0x20) && (forall|
        j: int,
    |
        0 <= j < x.len() ==> #[trigger] x[j] != 0x20) && crate::fs::dir::upper_chars(short_text(b, x))
        == crate::fs::dir::upper_chars(p)) by {
        match crate::fs::dir::find_short(s, vstd::utf8::encode_utf8(p), 0) {
            Some(i) => {
                lemma_find_short_hit(s, vstd::utf8::encode_utf8(p), 0);
                assert(s[i].len() == 32);
                lemma_found_text(s[i], p);
            },
            None => {
                let u = crate::fs::dir::upper_chars(p);
                assert(crate::fs::dir::upper_chars(u) =~= u) by {
                    assert forall|j: int| 0 <= j < u.len() implies crate::fs::dir::upper_chars(u)[j] == u[j] by {
                        assert(u[j] == crate::fs::dir::upper_char(p[j]));
                    }
                }
            },
        }
    }
    lemma_short_name_of(b, x, first, data.len() as u32);
    assert(crate::fs::dir::upper_chars(crate::fs::dir::short_name(t[k])) == crate::fs::dir::upper_chars(p));
}

/// A file with an 8.3 name reads back as it was written, in a directory that
/// shows no other entry under that name before its slot, where the name is
/// either in use by the file that is replaced or by none, and any long name
/// that stands before the slot spells it too.
pub proof fn law_short_name_reads_back(v: FatV, path: Seq<char>, data: Seq<u8>)
    requires
        crate::fs::fat_laws::sound_root(v),
        crate::fs::fat_laws::sound_file(v, crate::fs::fat_laws::replaced_cluster(v, path)),
        data.len() < 0x1_0000_0000,
        crate::fs::fat_write::clusters_for(v, data.len()) <= GUARD,
        crate::fs::fat_write::write_file_spec(v, path, data).1 is Ok,
        is_short(crate::fs::fat32::trim_slashes(path)),
        crate::fs::dir::find_short(v.dir(v.root), vstd::utf8::encode_utf8(crate::fs::fat32::trim_slashes(path)), 0) is Some || !crate::fs::dir::taken(
            v.dir(v.root),
            crate::fs::dir::short_of(crate::fs::fat32::trim_slashes(path)).0,
            crate::fs::dir::short_of(crate::fs::fat32::trim_slashes(path)).1,
        ),
        ({
            let before = v.dir(v.root).take(crate::fs::fat_laws::target_slot(v, path));
            let p = crate::fs::fat32::trim_slashes(path);
            let long = gathered(before, 0, Seq::empty());
            &&& long.len() > 0 ==> crate::fs::dir::upper_chars(crate::fs::dir::joined(long))
                == crate::fs::dir::upper_chars(p)
            &&& forall|i: int|
                0 <= i < crate::fs::dir::parsed(before).len() ==> !crate::fs::fat32::named(p)(
                    #[trigger] crate::fs::dir::parsed(before)[i],
                )
        }),
    ensures
        crate::fs::fat32::cat_spec(crate::fs::fat_write::write_file_spec(v, path, data).0, path) == Ok::<Seq<u8>, crate::fs::fat32::FsErr>(data),
{
    let s = v.dir(v.root);
    let p = crate::fs::fat32::trim_slashes(path);
    let w = crate::fs::fat_write::write_file_spec(v, path, data).0;
    let t = w.dir(v.root);
    let k = crate::fs::fat_laws::target_slot(v, path);
    lemma_written_slot(v, path, data);
    lemma_written_name(v, path, data);
    assert(k <= s.len()) by {
        if k > 0 {
            assert(t[k - 1] == s[k - 1]);
        }
    }
    assert(t.take(k) =~= s.take(k)) by {
        assert forall|i: int| 0 <= i < k implies t.take(k)[i] == s.take(k)[i] by {
            assert(t[i] == s[i]);
        }
    }
    let acc = lemma_parse_reaches(t, k, 0, Seq::empty());
    let list = crate::fs::dir::parsed(t);
    let a = crate::fs::dir::parsed(t.take(k));
    let m = a.len() as int;
    assert(crate::fs::fat32::named(p)(list[m]));
    assert forall|i: int| 0 <= i < m implies !crate::fs::fat32::named(p)(#[trigger] list[i]) by {
        assert(list[i] == list.take(m)[i]);
        assert(!crate::fs::fat32::named(p)(a[i]));
    }
    crate::seqs::lemma_first_is(list, crate::fs::fat32::named(p), 0, m);
    law_write_then_read(v, path, data);
}

/// Writing a file leaves every other file as it was: one whose chain shares
/// no cluster with the root directory or with the file that is replaced.
pub proof fn law_write_keeps_other_files(v: FatV, path: Seq<char>, data: Seq<u8>, first: u32)
    requires
        crate::fs::fat_laws::sound_root(v),
        crate::fs::fat_laws::sound_file(v, crate::fs::fat_laws::replaced_cluster(v, path)),
        data.len() < 0x1_0000_0000,
        crate::fs::fat_write::clusters_for(v, data.len()) <= GUARD,
        crate::fs::fat_write::write_file_spec(v, path, data).1 is Ok,
        first >= 2,
        crate::fs::fat_laws::sound_file(v, first),
        forall|i: int|
            0 <= i < v.chain(first, GUARD as nat).len() ==> v.on_disk(#[trigger] v.chain(first, GUARD as nat)[i])
                && !v.chain(crate::fs::fat_laws::replaced_cluster(v, path), GUARD as nat).contains(v.chain(first, GUARD as nat)[i]),
    ensures
        crate::fs::fat_write::write_file_spec(v, path, data).0.contents(first) == v.contents(first),
{
    let ch = crate::fs::fat_laws::lemma_write(v, path, data);
    let w = crate::fs::fat_write::write_file_spec(v, path, data).0;
    lemma_spared(v, w, first, v.chain(crate::fs::fat_laws::replaced_cluster(v, path), GUARD as nat));
}

/// A file that a change spares reads as before.
pub proof fn lemma_spared(v: FatV, w: FatV, first: u32, oc: Seq<u32>)
    requires
        crate::fs::fat_laws::sound_root(v),
        first >= 2,
        crate::fs::fat_laws::sound_file(v, first),
        crate::fs::fat_laws::spares(v, w, v.chain(v.root, GUARD as nat), oc),
        forall|i: int|
            0 <= i < v.chain(first, GUARD as nat).len() ==> v.on_disk(#[trigger] v.chain(first, GUARD as nat)[i])
                && !oc.contains(v.chain(first, GUARD as nat)[i]),
    ensures
        w.contents(first) == v.contents(first),
{
    let fc = v.chain(first, GUARD as nat);
    crate::fs::fat_laws::lemma_old_chain(v, v, first);
    assert(crate::fs::fat_laws::keeps_chain(v, w, fc)) by {
        assert forall|i: int, t: int| 0 <= i < fc.len() && 0 <= t < v.spc implies w.disk[#[trigger] crate::fs::fat_laws::sec_lba(
            v,
            fc[i],
            t,
        )] == v.disk[crate::fs::fat_laws::sec_lba(v, fc[i], t)] by {
            assert(v.on_disk(fc[i]));
            assert(v.fat[fc[i] as int] != 0);
        }
        assert forall|i: int| 0 <= i < fc.len() implies w.fat[#[trigger] fc[i] as int] == v.fat[fc[i] as int] by {
            assert(v.fat[fc[i] as int] != 0);
        }
    }
    crate::fs::fat_laws::lemma_kept_contents(v, w, fc);
}

// ---------------------------------------------------------------------------
// Deleting
// ---------------------------------------------------------------------------
/// A chain that ends holds no cluster twice.
proof fn lemma_chain_distinct(v: FatV, ch: Seq<u32>, i: int, j: int)
    requires
        crate::fs::fat_laws::is_chain(v, ch),
        0 <= i < j < ch.len(),
    ensures
        ch[i] != ch[j],
    decreases ch.len() - j,
{
    if ch[i] == ch[j] {
        assert(v.next(ch[i]) == Some(ch[i + 1]));
        if j == ch.len() - 1 {
            assert(ch.last() == ch[j]);
        } else {
            assert(v.next(ch[j]) == Some(ch[j + 1]));
            lemma_chain_distinct(v, ch, i + 1, j + 1);
        }
    }
}

/// Freeing a chain clears the FAT entry of each of its clusters.
proof fn lemma_freed(v: FatV, ch: Seq<u32>, fuel: nat)
    requires
        v.geometry_ok(),
        v.writable,
        v.data_begin <= v.disk.len(),
        crate::fs::fat_laws::is_chain(v, ch),
        ch.len() <= fuel,
    ensures
        forall|i: int|
            0 <= i < ch.len() ==> crate::fs::fat_write::free_spec(v, ch[0], fuel).0.fat[#[trigger] ch[i] as int] == 0,
    decreases fuel,
{
    let c = ch[0];
    let next = v.fat[c as int];
    crate::fs::fat_laws::lemma_fat_set(v, c, 0);
    let v1 = crate::fs::fat_write::fat_set_spec(v, c, 0).0;
    let w = crate::fs::fat_write::free_spec(v, c, fuel).0;
    if ch.len() == 1 {
        assert(ch.last() == c);
        if !(next >= crate::fs::fat32::EOC_MIN || next < 2) {
            assert(next == crate::fs::fat32::BAD);
            assert(crate::fs::fat_write::free_spec(v1, next, (fuel - 1) as nat).0 == v1);
        }
    } else {
        let t = ch.skip(1);
        assert(v.next(ch[0]) == Some(ch[1]));
        assert(next == ch[1]);
        assert forall|i: int| 1 <= i < ch.len() implies v1.fat[#[trigger] ch[i] as int] == v.fat[ch[i] as int] by {
            lemma_chain_distinct(v, ch, 0, i);
        }
        assert(crate::fs::fat_laws::is_chain(v1, t)) by {
            assert forall|i: int| 0 <= i < t.len() implies 2 <= #[trigger] t[i] < v1.fat.len() by {
                assert(t[i] == ch[i + 1]);
            }
            assert forall|i: int| 0 <= i < t.len() - 1 implies v1.next(#[trigger] t[i]) == Some(t[i + 1]) by {
                assert(t[i] == ch[i + 1]);
                assert(v.next(ch[i + 1]) == Some(ch[i + 2]));
            }
            assert(t.last() == ch[ch.len() - 1]);
            assert(ch.last() == ch[ch.len() - 1]);
        }
        lemma_freed(v1, t, (fuel - 1) as nat);
        let all = Set::new(|x: u32| t.contains(x));
        lemma_closed_chain(v1, t);
        assert(all.contains(t[0]));
        crate::fs::fat_laws::lemma_free(v1, t[0], (fuel - 1) as nat, all);
        assert(w == crate::fs::fat_write::free_spec(v1, t[0], (fuel - 1) as nat).0);
        assert(!all.contains(c)) by {
            if t.contains(c) {
                let i = choose|i: int| 0 <= i < t.len() && t[i] == c;
                lemma_chain_distinct(v, ch, 0, i + 1);
            }
        }
        assert(w.fat[c as int] == v1.fat[c as int]);
        assert forall|i: int| 0 <= i < ch.len() implies w.fat[#[trigger] ch[i] as int] == 0 by {
            if i > 0 {
                assert(t[i - 1] == ch[i]);
            }
        }
    }
}

proof fn lemma_closed_chain(v: FatV, ch: Seq<u32>)
    requires
        v.geometry_ok(),
        crate::fs::fat_laws::is_chain(v, ch),
    ensures
        crate::fs::fat_laws::closed(v, Set::new(|x: u32| ch.contains(x))),
{
    let s = Set::new(|x: u32| ch.contains(x));
    assert forall|c: u32|
        s.contains(c) && c < v.fat.len() && 2 <= #[trigger] v.fat[c as int] < crate::fs::fat32::EOC_MIN
            && v.fat[c as int] < v.fat.len() implies s.contains(v.fat[c as int]) by {
        let i = choose|i: int| 0 <= i < ch.len() && ch[i] == c;
        assert(v.next(c) == Some(v.fat[c as int]));
        if i == ch.len() - 1 {
            assert(ch.last() == c);
        } else {
            assert(v.next(ch[i]) == Some(ch[i + 1]));
            assert(ch.contains(ch[i + 1]));
        }
    }
}

/// Marking a run of slots as deleted.
proof fn lemma_tombstones(v: FatV, s: Seq<Seq<u8>>, rc: Seq<u32>, k: int, end: int)
    requires
        v.geometry_ok(),
        v.writable,
        crate::fs::fat_laws::is_dir_chain(v, rc),
        0 <= k,
        end < s.len(),
        end < v.dir(v.root).len(),
        forall|i: int| 0 <= i < s.len() ==> (#[trigger] s[i]).len() == 32,
    ensures
        crate::fs::fat_write::tombstones(v, s, rc, k, end).1 is Ok,
        ({
            let w = crate::fs::fat_write::tombstones(v, s, rc, k, end).0;
            &&& crate::fs::fat_laws::spares(v, w, rc, Seq::empty())
            &&& w.fat == v.fat
            &&& w.dir(v.root).len() == v.dir(v.root).len()
            &&& forall|i: int|
                0 <= i < v.dir(v.root).len() ==> #[trigger] w.dir(v.root)[i] == if k <= i <= end {
                    s[i].update(0, 0xE5u8)
                } else {
                    v.dir(v.root)[i]
                }
        }),
    decreases end + 1 - k,
{
    if k <= end {
        let e = s[k].update(0, 0xE5u8);
        crate::fs::fat_laws::lemma_patch_succeeds(v, rc, k, e);
        crate::fs::fat_laws::lemma_patch(v, rc, k, e);
        let v1 = crate::fs::fat_write::patch_spec(v, rc, k, e).0;
        lemma_tombstones(v1, s, rc, k + 1, end);
        let w = crate::fs::fat_write::tombstones(v1, s, rc, k + 1, end).0;
        assert forall|x: u32, t: int|
            2 <= x < v.fat.len() && v.fat[x as int] != 0 && !rc.contains(x) && 0 <= t < v.spc && (
            #[trigger] crate::fs::fat_laws::sec_lba(v, x, t)) < v.disk.len() implies w.disk[crate::fs::fat_laws::sec_lba(
            v,
            x,
            t,
        )] == v.disk[crate::fs::fat_laws::sec_lba(v, x, t)] by {
            assert(crate::fs::fat_laws::sec_lba(v1, x, t) == crate::fs::fat_laws::sec_lba(v, x, t));
        }
    }
}

pub proof fn lemma_group_start(s: Seq<Seq<u8>>, k: int)
    requires
        0 <= k,
    ensures
        0 <= crate::fs::dir::group_start(s, k) <= k,
    decreases k,
{
    if !(k <= 0 || s[k - 1][0] == 0xE5 || !crate::fs::dir::is_lfn(s[k - 1])) {
        lemma_group_start(s, k - 1);
    }
}

/// Deleting a file that is there succeeds: it marks its slot and the long-name
/// slots before it as deleted and changes no other byte of the directory,
/// clears the FAT entry of every cluster of its chain and no other, in all
/// copies, and leaves the data of all other clusters alone.
pub proof fn law_delete(v: FatV, path: Seq<char>)
    requires
        crate::fs::fat_laws::sound_root(v),
        crate::fs::fat_laws::sound_file(v, crate::fs::fat_laws::replaced_cluster(v, path)),
        v.writable,
        crate::fs::fat_write::in_root(path),
        crate::fs::dir::find_short(
            v.dir(v.root),
            vstd::utf8::encode_utf8(crate::fs::fat32::trim_slashes(path)),
            0,
        ) is Some,
    ensures
        crate::fs::fat_write::delete_spec(v, path).1 is Ok,
        ({
            let w = crate::fs::fat_write::delete_spec(v, path).0;
            let s = v.dir(v.root);
            let found = crate::fs::dir::find_short(
                s,
                vstd::utf8::encode_utf8(crate::fs::fat32::trim_slashes(path)),
                0,
            );
            let i = found->Some_0;
            let from = crate::fs::dir::group_start(s, i);
            let rc = v.chain(v.root, GUARD as nat);
            let oc = v.chain(crate::fs::fat_laws::replaced_cluster(v, path), GUARD as nat);
            &&& w.dir(v.root).len() == s.len()
            &&& forall|k: int|
                0 <= k < s.len() ==> #[trigger] w.dir(v.root)[k] == if from <= k <= i {
                    s[k].update(0, 0xE5u8)
                } else {
                    s[k]
                }
            &&& forall|k: int| 0 <= k < oc.len() ==> w.fat[#[trigger] oc[k] as int] == 0
            &&& forall|x: u32| x < v.fat.len() && !oc.contains(x) ==> #[trigger] w.fat[x as int] == v.fat[x as int]
            &&& crate::fs::fat_laws::mirrored(v) ==> crate::fs::fat_laws::mirrored(w)
            &&& crate::fs::fat_laws::spares(v, w, rc, oc)
        }),
{
    let s = v.dir(v.root);
    let w = crate::fs::fat_write::delete_spec(v, path).0;
    let wanted = vstd::utf8::encode_utf8(crate::fs::fat32::trim_slashes(path));
    let rc = v.chain(v.root, GUARD as nat);
    let was = crate::fs::fat_laws::replaced_cluster(v, path);
    let oc = v.chain(was, GUARD as nat);
    crate::fs::fat_laws::lemma_sound_root_chain(v);
    lemma_find_short_hit(s, wanted, 0);
    let i = crate::fs::dir::find_short(s, wanted, 0)->Some_0;
    lemma_group_start(s, i);
    let from = crate::fs::dir::group_start(s, i);
    if was >= 2 {
        crate::fs::fat_laws::lemma_old_chain(v, v, was);
        crate::fs::fat_laws::lemma_free_chain(v, rc, oc, was);
        lemma_freed(v, oc, GUARD as nat);
        let v1 = crate::fs::fat_write::free_spec(v, was, GUARD as nat).0;
        lemma_tombstones(v1, s, rc, from, i);
        assert(crate::fs::fat_laws::spares(v, w, rc, oc)) by {
            assert forall|x: u32, t: int|
                2 <= x < v.fat.len() && v.fat[x as int] != 0 && !rc.contains(x) && !oc.contains(x) && 0 <= t < v.spc && (
                #[trigger] crate::fs::fat_laws::sec_lba(v, x, t))
                    < v.disk.len() implies w.disk[crate::fs::fat_laws::sec_lba(v, x, t)]
                == v.disk[crate::fs::fat_laws::sec_lba(v, x, t)] by {
                assert(crate::fs::fat_laws::sec_lba(v1, x, t) == crate::fs::fat_laws::sec_lba(v, x, t));
                assert(v1.fat[x as int] == v.fat[x as int]);
            }
        }
    } else {
        lemma_tombstones(v, s, rc, from, i);
        assert(oc =~= Seq::empty());
    }
}

/// Deleting a file leaves every other file as it was: one whose chain shares
/// no cluster with the root directory or with the deleted file.
pub proof fn law_delete_keeps_other_files(v: FatV, path: Seq<char>, first: u32)
    requires
        crate::fs::fat_laws::sound_root(v),
        crate::fs::fat_laws::sound_file(v, crate::fs::fat_laws::replaced_cluster(v, path)),
        crate::fs::fat_write::delete_spec(v, path).1 is Ok,
        first >= 2,
        crate::fs::fat_laws::sound_file(v, first),
        forall|i: int|
            0 <= i < v.chain(first, GUARD as nat).len() ==> v.on_disk(#[trigger] v.chain(first, GUARD as nat)[i])
                && !v.chain(crate::fs::fat_laws::replaced_cluster(v, path), GUARD as nat).contains(
                v.chain(first, GUARD as nat)[i],
            ),
    ensures
        crate::fs::fat_write::delete_spec(v, path).0.contents(first) == v.contents(first),
{
    law_delete(v, path);
    lemma_spared(
        v,
        crate::fs::fat_write::delete_spec(v, path).0,
        first,
        v.chain(crate::fs::fat_laws::replaced_cluster(v, path), GUARD as nat),
    );
}

// ---------------------------------------------------------------------------
// The copies of the FAT
// ---------------------------------------------------------------------------
/// A volume whose FAT copies lie on the disk and agree with the cached FAT.
pub open spec fn in_step(v: FatV) -> bool {
    &&& v.geometry_ok()
    &&& v.data_begin <= v.disk.len()
    &&& crate::fs::fat_laws::mirrored(v)
}

/// Writing a sector of the data area leaves the FAT copies alone.
proof fn lemma_data_write(v: FatV, lba: int, sec: Seq<u8>)
    requires
        in_step(v),
        v.data_begin <= lba,
        sec.len() == 512,
    ensures
        in_step(crate::fs::fat_write::write_one(v, lba, sec).0),
        crate::fs::fat_write::write_one(v, lba, sec).0.same_volume(v),
        crate::fs::fat_write::write_one(v, lba, sec).0.fat == v.fat,
{
    let w = crate::fs::fat_write::write_one(v, lba, sec).0;
    assert forall|f: int, so: int|
        0 <= f < w.num_fats && 0 <= so < w.fat_size implies w.disk[#[trigger] crate::fs::fat_laws::fat_lba(w, f, so)]
        == crate::fs::fat_write::fat_sector(w.fat, so) by {
        crate::fs::fat_laws::lemma_fat_lba_bound(v, f, so);
        assert(crate::fs::fat_laws::fat_lba(w, f, so) == crate::fs::fat_laws::fat_lba(v, f, so));
    }
}

proof fn lemma_step_free(v: FatV, c: u32, fuel: nat)
    requires
        in_step(v),
        v.writable,
    ensures
        in_step(crate::fs::fat_write::free_spec(v, c, fuel).0),
        crate::fs::fat_write::free_spec(v, c, fuel).0.same_volume(v),
{
    crate::fs::fat_laws::lemma_free(v, c, fuel, Set::full());
}

proof fn lemma_step_alloc(v: FatV)
    requires
        in_step(v),
        v.writable,
    ensures
        in_step(crate::fs::fat_write::alloc_spec(v).0),
        crate::fs::fat_write::alloc_spec(v).0.same_volume(v),
        crate::fs::fat_write::alloc_spec(v).1 matches Some(c) ==> 2 <= c < v.fat.len(),
{
    crate::seqs::lemma_first_from(v.fat, crate::fs::fat_write::is_zero(), 2);
    match crate::fs::fat_write::first_free(v) {
        None => {},
        Some(i) => {
            crate::fs::fat_laws::lemma_fat_set(v, i as u32, crate::fs::fat32::EOC);
        },
    }
}

proof fn lemma_step_roll_back(v: FatV, ch: Seq<u32>, i: int)
    requires
        in_step(v),
        v.writable,
    ensures
        in_step(crate::fs::fat_write::rolled_back(v, ch, i)),
        crate::fs::fat_write::rolled_back(v, ch, i).same_volume(v),
    decreases ch.len() - i,
{
    if 0 <= i < ch.len() {
        lemma_step_free(v, ch[i], GUARD as nat);
        lemma_step_roll_back(crate::fs::fat_write::free_spec(v, ch[i], GUARD as nat).0, ch, i + 1);
    }
}

proof fn lemma_step_alloc_chain(v: FatV, ch: Seq<u32>, need: nat)
    requires
        in_step(v),
        v.writable,
        forall|i: int| 0 <= i < ch.len() ==> 2 <= #[trigger] ch[i] < v.fat.len(),
    ensures
        in_step(crate::fs::fat_write::alloc_chain(v, ch, need).0),
        crate::fs::fat_write::alloc_chain(v, ch, need).0.same_volume(v),
        forall|i: int|
            0 <= i < crate::fs::fat_write::alloc_chain(v, ch, need).1.len() ==> 2
                <= #[trigger] crate::fs::fat_write::alloc_chain(v, ch, need).1[i],
    decreases need - ch.len(),
{
    if ch.len() < need {
        lemma_step_alloc(v);
        let (v1, got) = crate::fs::fat_write::alloc_spec(v);
        match got {
            None => {
                lemma_step_roll_back(v1, ch, 0);
            },
            Some(c) => {
                let ch1 = ch.push(c);
                assert forall|i: int| 0 <= i < ch1.len() implies 2 <= #[trigger] ch1[i] < v.fat.len() by {
                    if i < ch.len() {
                        assert(ch1[i] == ch[i]);
                    }
                }
                if ch.len() > 0 {
                    assert(ch.last() == ch[ch.len() - 1]);
                    crate::fs::fat_laws::lemma_fat_set(v1, ch.last(), c);
                    let v2 = crate::fs::fat_write::fat_set_spec(v1, ch.last(), c).0;
                    lemma_step_alloc_chain(v2, ch1, need);
                } else {
                    lemma_step_alloc_chain(v1, ch1, need);
                }
            },
        }
    }
}

proof fn lemma_step_put_data(v: FatV, ch: Seq<u32>, data: Seq<u8>, i: int, s: int)
    requires
        in_step(v),
        forall|j: int| 0 <= j < ch.len() ==> 2 <= #[trigger] ch[j],
    ensures
        in_step(crate::fs::fat_write::put_data(v, ch, data, i, s).0),
        crate::fs::fat_write::put_data(v, ch, data, i, s).0.same_volume(v),
    decreases ch.len() - i, v.spc - s,
{
    if 0 <= i < ch.len() {
        if s < 0 || s >= v.spc {
            lemma_step_put_data(v, ch, data, i + 1, 0);
        } else {
            let at = v.lba(ch[i]) + s;
            let sec = crate::fs::fat_write::data_sector(data, (i * v.spc + s) * 512);
            crate::fs::fat_laws::lemma_lba_in_data(v, ch[i]);
            lemma_data_write(v, at, sec);
            let (v1, ok) = crate::fs::fat_write::write_one(v, at, sec);
            if ok {
                lemma_step_put_data(v1, ch, data, i, s + 1);
            }
        }
    }
}

proof fn lemma_step_zeroed(v: FatV, c: u32, s: int)
    requires
        in_step(v),
        c >= 2,
    ensures
        in_step(crate::fs::fat_write::zeroed(v, c, s).0),
        crate::fs::fat_write::zeroed(v, c, s).0.same_volume(v),
    decreases v.spc - s,
{
    if 0 <= s < v.spc {
        let z = Seq::new(512, |i: int| 0u8);
        crate::fs::fat_laws::lemma_lba_in_data(v, c);
        lemma_data_write(v, v.lba(c) + s, z);
        let (v1, ok) = crate::fs::fat_write::write_one(v, v.lba(c) + s, z);
        if ok {
            lemma_step_zeroed(v1, c, s + 1);
        }
    }
}

proof fn lemma_step_patch(v: FatV, dir: Seq<u32>, idx: int, e: Seq<u8>)
    requires
        in_step(v),
        0 <= idx,
        e.len() == 32,
        forall|j: int| 0 <= j < dir.len() ==> 2 <= #[trigger] dir[j],
    ensures
        in_step(crate::fs::fat_write::patch_spec(v, dir, idx, e).0),
        crate::fs::fat_write::patch_spec(v, dir, idx, e).0.same_volume(v),
{
    let sec = idx / 16;
    let q = sec / v.spc;
    vstd::arithmetic::div_mod::lemma_div_pos_is_pos(sec, v.spc);
    vstd::arithmetic::div_mod::lemma_mod_bound(sec, v.spc);
    if q < dir.len() {
        let lba = v.lba(dir[q]) + sec % v.spc;
        crate::fs::fat_laws::lemma_lba_in_data(v, dir[q]);
        if lba < v.disk.len() {
            lemma_data_write(v, lba, crate::bytes::overlay(v.disk[lba], (idx % 16) * 32, e));
        }
    }
}

proof fn lemma_chain_from_two(v: FatV, c: u32, fuel: nat)
    ensures
        forall|i: int| 0 <= i < v.chain(c, fuel).len() ==> 2 <= #[trigger] v.chain(c, fuel)[i],
    decreases fuel,
{
    if c >= 2 && fuel > 0 {
        match v.next(c) {
            Some(n) => {
                lemma_chain_from_two(v, n, (fuel - 1) as nat);
                let t = v.chain(n, (fuel - 1) as nat);
                assert forall|i: int| 0 <= i < v.chain(c, fuel).len() implies 2 <= #[trigger] v.chain(c, fuel)[i] by {
                    if i > 0 {
                        assert(v.chain(c, fuel)[i] == t[i - 1]);
                    }
                }
            },
            None => {},
        }
    }
}

proof fn lemma_step_entry(v: FatV, s: Seq<Seq<u8>>, dir: Seq<u32>, p: Seq<char>, found: Option<int>, first: u32, size: u32)
    requires
        in_step(v),
        v.writable,
        forall|j: int| 0 <= j < dir.len() ==> 2 <= #[trigger] dir[j],
        found matches Some(i) ==> 0 <= i < s.len(),
    ensures
        ({
            let w = match found {
                Some(i) => crate::fs::fat_write::replace_spec(v, s, dir, i, first, size).0,
                None => crate::fs::fat_write::create_spec(v, s, dir, p, first, size).0,
            };
            in_step(w) && w.same_volume(v)
        }),
{
    match found {
        Some(i) => {
            let e = s[i];
            let was = crate::fs::dir::slot_cluster(e);
            let d = crate::fs::dir::dirent(crate::fs::dir::base_text(e), crate::fs::dir::ext_text(e), first, size);
            crate::fs::fat_laws::lemma_dirent_len(
                crate::fs::dir::base_text(e),
                crate::fs::dir::ext_text(e),
                first,
                size,
            );
            lemma_step_free(v, was, GUARD as nat);
            lemma_step_patch(v, dir, i, d);
            lemma_step_patch(crate::fs::fat_write::free_spec(v, was, GUARD as nat).0, dir, i, d);
        },
        None => {
            let (base0, ext) = crate::fs::dir::short_of(p);
            lemma_step_free(v, first, GUARD as nat);
            match crate::fs::fat_write::new_base(s, base0, ext) {
                None => {},
                Some(base) => {
                    let d = crate::fs::dir::dirent(base, ext, first, size);
                    crate::fs::fat_laws::lemma_dirent_len(base, ext, first, size);
                    crate::seqs::lemma_first_from(s, crate::fs::fat_write::is_vacant(), 0);
                    match crate::seqs::first(s, crate::fs::fat_write::is_vacant()) {
                        Some(i) => {
                            lemma_step_patch(v, dir, i, d);
                        },
                        None => {
                            lemma_step_extend(v, dir);
                            let (v1, r) = crate::fs::fat_write::extend_spec(v, dir);
                            if r is Ok {
                                let c = r->Ok_0;
                                let dir1 = dir.push(c);
                                assert forall|j: int| 0 <= j < dir1.len() implies 2 <= #[trigger] dir1[j] by {
                                    if j < dir.len() {
                                        assert(dir1[j] == dir[j]);
                                    }
                                }
                                lemma_step_patch(v1, dir1, s.len() as int, d);
                            }
                        },
                    }
                },
            }
        },
    }
}

proof fn lemma_step_extend(v: FatV, dir: Seq<u32>)
    requires
        in_step(v),
        v.writable,
    ensures
        in_step(crate::fs::fat_write::extend_spec(v, dir).0),
        crate::fs::fat_write::extend_spec(v, dir).0.same_volume(v),
        crate::fs::fat_write::extend_spec(v, dir).1 matches Ok(c) ==> c >= 2,
{
    lemma_step_alloc(v);
    let (v1, got) = crate::fs::fat_write::alloc_spec(v);
    if got is Some {
        let c = got->Some_0;
        lemma_step_zeroed(v1, c, 0);
        let (v2, ok) = crate::fs::fat_write::zeroed(v1, c, 0);
        if ok && dir.len() > 0 && dir.last() < v.fat.len() {
            crate::fs::fat_laws::lemma_fat_set(v2, dir.last(), c);
        }
    }
}

/// Whatever a write comes to, the copies of the FAT on the disk stay equal to
/// the cached FAT.
pub proof fn law_write_keeps_copies(v: FatV, path: Seq<char>, data: Seq<u8>)
    requires
        in_step(v),
    ensures
        in_step(crate::fs::fat_write::write_file_spec(v, path, data).0),
{
    let p = crate::fs::fat32::trim_slashes(path);
    let s = v.dir(v.root);
    let dir = v.chain(v.root, GUARD as nat);
    let size = (data.len() % 0x1_0000_0000) as u32;
    if v.writable {
        lemma_chain_from_two(v, v.root, GUARD as nat);
        let need = crate::fs::fat_write::clusters_for(v, data.len());
        lemma_step_alloc_chain(v, Seq::empty(), need);
        let (v0, chain, r0) = crate::fs::fat_write::alloc_chain(v, Seq::empty(), need);
        lemma_step_put_data(v0, chain, data, 0, 0);
        let (v1, r) = crate::fs::fat_write::write_chain_spec(v, data);
        assert(in_step(v1) && v1.same_volume(v));
        if r is Ok {
            let found = crate::fs::dir::find_short(s, vstd::utf8::encode_utf8(p), 0);
            crate::fs::fat_laws::lemma_find_short_bound(s, vstd::utf8::encode_utf8(p), 0);
            lemma_step_entry(v1, s, dir, p, found, r->Ok_0, size);
        }
    }
}

proof fn lemma_step_tombstones(v: FatV, s: Seq<Seq<u8>>, dir: Seq<u32>, k: int, end: int)
    requires
        in_step(v),
        0 <= k,
        end < s.len(),
        forall|i: int| 0 <= i < s.len() ==> (#[trigger] s[i]).len() == 32,
        forall|j: int| 0 <= j < dir.len() ==> 2 <= #[trigger] dir[j],
    ensures
        in_step(crate::fs::fat_write::tombstones(v, s, dir, k, end).0),
    decreases end + 1 - k,
{
    if k <= end {
        let e = s[k].update(0, 0xE5u8);
        lemma_step_patch(v, dir, k, e);
        let (v1, r) = crate::fs::fat_write::patch_spec(v, dir, k, e);
        if r is Ok {
            lemma_step_tombstones(v1, s, dir, k + 1, end);
        }
    }
}

/// Whatever a delete comes to, the copies of the FAT on the disk stay equal
/// to the cached FAT.
pub proof fn law_delete_keeps_copies(v: FatV, path: Seq<char>)
    requires
        in_step(v),
    ensures
        in_step(crate::fs::fat_write::delete_spec(v, path).0),
{
    let p = crate::fs::fat32::trim_slashes(path);
    let s = v.dir(v.root);
    let dir = v.chain(v.root, GUARD as nat);
    let wanted = vstd::utf8::encode_utf8(p);
    if v.writable {
        lemma_chain_from_two(v, v.root, GUARD as nat);
        crate::fs::fat_laws::lemma_find_short_bound(s, wanted, 0);
        match crate::fs::dir::find_short(s, wanted, 0) {
            None => {},
            Some(i) => {
                let was = crate::fs::dir::slot_cluster(s[i]);
                lemma_step_free(v, was, GUARD as nat);
                lemma_group_start(s, i);
                lemma_step_tombstones(v, s, dir, crate::fs::dir::group_start(s, i), i);
                lemma_step_tombstones(
                    crate::fs::fat_write::free_spec(v, was, GUARD as nat).0,
                    s,
                    dir,
                    crate::fs::dir::group_start(s, i),
                    i,
                );
            },
        }
    }
}

} // verus!
