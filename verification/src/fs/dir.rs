//! FAT directories: 32-byte slots, short and long names.

use vstd::prelude::*;
use vstd::slice::slice_subrange;

use crate::bytes::{get_le2, get_le4};
use crate::text::{latin1, push_char, utf8_text};

verus! {

pub struct DirEntry {
    pub name: String,
    pub first_cluster: u32,
    pub size: u32,
    pub is_dir: bool,
}

pub struct EntV {
    pub name: Seq<char>,
    pub first_cluster: u32,
    pub size: u32,
    pub is_dir: bool,
}

impl DirEntry {
    pub open spec fn view(&self) -> EntV {
        EntV { name: self.name@, first_cluster: self.first_cluster, size: self.size, is_dir: self.is_dir }
    }
}

/// The entries of a list.
pub open spec fn entries(v: Seq<DirEntry>) -> Seq<EntV> {
    v.map_values(|e: DirEntry| e@)
}

/// The 32-byte slots of a directory's bytes.
pub open spec fn slots(raw: Seq<u8>) -> Seq<Seq<u8>> {
    Seq::new(raw.len() / 32, |k: int| raw.subrange(32 * k, 32 * k + 32))
}

/// A long-name slot.
pub open spec fn is_lfn(e: Seq<u8>) -> bool {
    e[11] % 64 == 15
}

/// A volume label (long-name slots carry this bit too).
pub open spec fn is_volume(e: Seq<u8>) -> bool {
    e[11] / 8 % 2 == 1
}

/// Where the `j`-th of the 13 characters of a long-name slot stands.
pub open spec fn lfn_pos(j: int) -> int {
    if j < 5 {
        1 + 2 * j
    } else if j < 11 {
        14 + 2 * (j - 5)
    } else {
        28 + 2 * (j - 11)
    }
}

/// The characters of a long-name slot from the `j`-th on: up to a terminator,
/// ASCII only.
pub open spec fn lfn_from(e: Seq<u8>, j: int) -> Seq<char>
    decreases 13 - j,
{
    if j < 0 || j >= 13 {
        Seq::empty()
    } else {
        let ch = crate::bytes::rd_le2(e, lfn_pos(j));
        if ch == 0 || ch == 0xFFFF {
            Seq::empty()
        } else if ch < 128 {
            seq![ch as char] + lfn_from(e, j + 1)
        } else {
            lfn_from(e, j + 1)
        }
    }
}

/// A long name from its parts: they are stored in reverse order.
pub open spec fn joined(parts: Seq<Seq<char>>) -> Seq<char>
    decreases parts.len(),
{
    if parts.len() == 0 {
        Seq::empty()
    } else {
        parts.last() + joined(parts.drop_last())
    }
}

/// The bytes of `s` from `i` up to `end` or a blank, as characters.
pub open spec fn until_blank(s: Seq<u8>, i: int, end: int) -> Seq<char>
    decreases end - i,
{
    if i >= end || s[i] == 0x20 {
        Seq::empty()
    } else {
        seq![s[i] as char] + until_blank(s, i + 1, end)
    }
}

/// The name that an 8.3 slot shows.
pub open spec fn short_name(e: Seq<u8>) -> Seq<char> {
    let ext = until_blank(e, 8, 11);
    if ext.len() == 0 {
        until_blank(e, 0, 8)
    } else {
        until_blank(e, 0, 8).push('.') + ext
    }
}

/// The first cluster that a slot names.
pub open spec fn slot_cluster(e: Seq<u8>) -> u32 {
    (crate::bytes::rd_le2(e, 20) * 0x1_0000 + crate::bytes::rd_le2(e, 26)) as u32
}

/// The entry that a file or directory slot makes, behind the long-name parts
/// `lfn`.
pub open spec fn slot_entry(e: Seq<u8>, lfn: Seq<Seq<char>>) -> EntV {
    EntV {
        name: if lfn.len() > 0 {
            joined(lfn)
        } else {
            short_name(e)
        },
        first_cluster: slot_cluster(e),
        size: crate::bytes::rd_le4(e, 28),
        is_dir: e[11] / 16 % 2 == 1,
    }
}

/// The entries of the slots from the `k`-th on, behind the long-name parts
/// `lfn`: a zero byte ends the directory, deleted slots and labels are
/// skipped, long-name slots are gathered.
pub open spec fn parse_from(s: Seq<Seq<u8>>, k: int, lfn: Seq<Seq<char>>) -> Seq<EntV>
    decreases s.len() - k,
{
    if k < 0 || k >= s.len() || s[k][0] == 0 {
        Seq::empty()
    } else if s[k][0] == 0xE5 {
        parse_from(s, k + 1, Seq::empty())
    } else if is_lfn(s[k]) {
        parse_from(s, k + 1, lfn.push(lfn_from(s[k], 0)))
    } else if is_volume(s[k]) {
        parse_from(s, k + 1, Seq::empty())
    } else {
        seq![slot_entry(s[k], lfn)] + parse_from(s, k + 1, Seq::empty())
    }
}

/// The entries of a directory.
pub open spec fn parsed(s: Seq<Seq<u8>>) -> Seq<EntV> {
    parse_from(s, 0, Seq::empty())
}

fn lfn_part(e: &[u8]) -> (part: String)
    requires
        e@.len() == 32,
    ensures
        part@ == lfn_from(e@, 0),
{
    let mut part = String::new();
    assert(part@ + lfn_from(e@, 0) =~= lfn_from(e@, 0));
    let mut j: usize = 0;
    let mut going = true;
    while j < 13 && going
        invariant
            e@.len() == 32,
            j <= 13,
            going ==> part@ + lfn_from(e@, j as int) == lfn_from(e@, 0),
            !going ==> part@ == lfn_from(e@, 0),
        decreases 13 - j, (if going { 1int } else { 0int }),
    {
        let at: usize = if j < 5 {
            1 + 2 * j
        } else if j < 11 {
            14 + 2 * (j - 5)
        } else {
            28 + 2 * (j - 11)
        };
        let ch: u16 = get_le2(e, at);
        let ghost before = part@;
        let ghost rest = lfn_from(e@, j + 1);
        if ch == 0 || ch == 0xFFFF {
            going = false;
            assert(part@ + lfn_from(e@, j as int) =~= part@);
        } else {
            if ch < 128 {
                push_char(&mut part, latin1(ch as u8));
                assert(part@ + rest =~= before + (seq![ch as char] + rest));
            }
            j = j + 1;
        }
    }
    if going {
        assert(part@ + lfn_from(e@, 13) =~= part@);
    }
    part
}

/// Appends the bytes of `e` from `from` up to `end` or a blank; says whether
/// there was any.
fn push_until_blank(s: &mut String, e: &[u8], from: usize, end: usize) -> (any: bool)
    requires
        from <= end <= e@.len(),
    ensures
        final(s)@ == old(s)@ + until_blank(e@, from as int, end as int),
        any == (until_blank(e@, from as int, end as int).len() > 0),
{
    let mut i: usize = from;
    assert(s@ + until_blank(e@, from as int, end as int) == old(s)@ + until_blank(e@, from as int, end as int));
    while i < end && e[i] != 0x20
        invariant
            from <= i <= end <= e@.len(),
            s@ + until_blank(e@, i as int, end as int) == old(s)@ + until_blank(e@, from as int, end as int),
            s@.len() == old(s)@.len() + (i - from),
        decreases end - i,
    {
        let ghost before = s@;
        let ghost rest = until_blank(e@, i + 1, end as int);
        push_char(s, latin1(e[i]));
        assert(s@ + rest =~= before + (seq![e@[i as int] as char] + rest));
        i = i + 1;
    }
    assert(s@ + until_blank(e@, i as int, end as int) =~= s@);
    i > from
}

fn show_short_name(e: &[u8]) -> (name: String)
    requires
        e@.len() == 32,
    ensures
        name@ == short_name(e@),
{
    let mut name = String::new();
    let _b: bool = push_until_blank(&mut name, e, 0, 8);
    assert(name@ =~= until_blank(e@, 0, 8));
    let mut ext = String::new();
    let any: bool = push_until_blank(&mut ext, e, 8, 11);
    if any {
        push_char(&mut name, '.');
        let _c: bool = push_until_blank(&mut name, e, 8, 11);
    }
    name
}

/// The parts that have been gathered.
pub open spec fn part_texts(v: Seq<String>) -> Seq<Seq<char>> {
    v.map_values(|s: String| s@)
}

fn join_parts(parts: &Vec<String>) -> (name: String)
    ensures
        name@ == joined(part_texts(parts@)),
{
    let mut name = String::new();
    let ghost all = part_texts(parts@);
    let mut k: usize = parts.len();
    assert(all.take(k as int) =~= all);
    assert(name@ + joined(all.take(k as int)) =~= joined(all));
    while k > 0
        invariant
            k <= parts@.len(),
            all == part_texts(parts@),
            name@ + joined(all.take(k as int)) == joined(all),
        decreases k,
    {
        let ghost before = name@;
        let ghost t = all.take(k as int);
        assert(t.drop_last() =~= all.take(k - 1));
        assert(t.last() == parts@[k - 1]@);
        vstd::string::StringExecFns::append(&mut name, parts[k - 1].as_str());
        assert(before + (t.last() + joined(t.drop_last())) =~= name@ + joined(t.drop_last()));
        k = k - 1;
    }
    assert(name@ + joined(all.take(0)) =~= name@);
    name
}

/// Parse a directory's bytes into entries (long names included).
pub fn parse_dir(raw: &Vec<u8>) -> (out: Vec<DirEntry>)
    ensures
        entries(out@) == parsed(slots(raw@)),
{
    let mut out: Vec<DirEntry> = Vec::new();
    let mut lfn: Vec<String> = Vec::new();
    let ghost s = slots(raw@);
    let total: usize = raw.len();
    let n: usize = total / 32;
    let mut k: usize = 0;
    let mut going = true;
    assert(part_texts(lfn@) =~= Seq::<Seq<char>>::empty());
    assert(entries(out@) + parsed(s) =~= parsed(s));
    while k < n && going
        invariant
            total == raw@.len(),
            n == total / 32,
            s == slots(raw@),
            k <= n,
            going ==> entries(out@) + parse_from(s, k as int, part_texts(lfn@)) == parsed(s),
            !going ==> entries(out@) == parsed(s),
        decreases n - k, (if going { 1int } else { 0int }),
    {
        let e: &[u8] = slice_subrange(raw.as_slice(), 32 * k, 32 * k + 32);
        assert(e@ == s[k as int]);
        let ghost done = entries(out@);
        let ghost parts = part_texts(lfn@);
        if e[0] == 0x00 {
            going = false;  // end of directory
            assert(done + parse_from(s, k as int, parts) =~= done);
        } else if e[0] == 0xE5 {
            lfn = Vec::new();  // deleted
            assert(part_texts(lfn@) =~= Seq::<Seq<char>>::empty());
            k = k + 1;
        } else if e[11] % 64 == 15 {
            let part: String = lfn_part(e);
            let ghost pv = part@;
            lfn.push(part);
            assert(part_texts(lfn@) =~= parts.push(pv));
            k = k + 1;
        } else if e[11] / 8 % 2 == 1 {
            lfn = Vec::new();  // volume label
            assert(part_texts(lfn@) =~= Seq::<Seq<char>>::empty());
            k = k + 1;
        } else {
            let name: String = if lfn.len() > 0 {
                join_parts(&lfn)
            } else {
                show_short_name(e)
            };
            let hi: u32 = get_le2(e, 20) as u32;
            let lo: u32 = get_le2(e, 26) as u32;
            let d = DirEntry {
                name,
                first_cluster: hi * 0x1_0000 + lo,
                size: get_le4(e, 28),
                is_dir: e[11] / 16 % 2 == 1,
            };
            let ghost dv = d@;
            assert(dv == slot_entry(e@, parts));
            out.push(d);
            lfn = Vec::new();
            assert(part_texts(lfn@) =~= Seq::<Seq<char>>::empty());
            assert(entries(out@) =~= done.push(dv));
            let ghost rest = parse_from(s, k + 1, Seq::empty());
            assert(done + (seq![dv] + rest) =~= done.push(dv) + rest);
            k = k + 1;
        }
    }
    if going {
        assert(entries(out@) + parse_from(s, n as int, part_texts(lfn@)) =~= entries(out@));
    }
    out
}

// ---------------------------------------------------------------------------
// Names for writing
// ---------------------------------------------------------------------------
/// `s` without trailing blanks.
pub open spec fn trim_blanks(s: Seq<u8>) -> Seq<u8>
    decreases s.len(),
{
    if s.len() > 0 && s.last() == 0x20 {
        trim_blanks(s.drop_last())
    } else {
        s
    }
}

/// A name field as text: what is not text counts as empty.
pub open spec fn field_text(b: Seq<u8>) -> Seq<u8> {
    if vstd::utf8::valid_utf8(b) {
        trim_blanks(b)
    } else {
        Seq::empty()
    }
}

pub open spec fn base_text(e: Seq<u8>) -> Seq<u8> {
    field_text(e.subrange(0, 8))
}

pub open spec fn ext_text(e: Seq<u8>) -> Seq<u8> {
    field_text(e.subrange(8, 11))
}

/// The full short name of a slot: `BASE` or `BASE.EXT`.
pub open spec fn full_text(e: Seq<u8>) -> Seq<u8> {
    if ext_text(e).len() == 0 {
        base_text(e)
    } else {
        base_text(e).push(0x2E) + ext_text(e)
    }
}

pub open spec fn upper_byte(b: u8) -> u8 {
    if 97 <= b <= 122 {
        (b - 32) as u8
    } else {
        b
    }
}

/// `s` in ASCII upper case.
pub open spec fn upper_bytes(s: Seq<u8>) -> Seq<u8> {
    s.map_values(|b: u8| upper_byte(b))
}

pub open spec fn upper_char(c: char) -> char {
    if 'a' <= c && c <= 'z' {
        (c as int - 32) as char
    } else {
        c
    }
}

/// `s` in ASCII upper case.
pub open spec fn upper_chars(s: Seq<char>) -> Seq<char> {
    s.map_values(|c: char| upper_char(c))
}

pub fn to_upper(c: char) -> (r: char)
    ensures
        r == upper_char(c),
{
    if c >= 'a' && c <= 'z' {
        let b: u8 = c as u8;
        latin1(b - 32)
    } else {
        c
    }
}

/// Whether two texts are equal in upper case.
pub fn same_upper(a: &[char], b: &[char]) -> (r: bool)
    ensures
        r == (upper_chars(a@) == upper_chars(b@)),
{
    if a.len() != b.len() {
        assert(upper_chars(a@).len() != upper_chars(b@).len());
        return false;
    }
    let mut i: usize = 0;
    while i < a.len()
        invariant
            a@.len() == b@.len(),
            i <= a@.len(),
            forall|j: int| 0 <= j < i ==> upper_char(#[trigger] a@[j]) == upper_char(b@[j]),
        decreases a@.len() - i,
    {
        if to_upper(a[i]) != to_upper(b[i]) {
            assert(upper_chars(a@)[i as int] != upper_chars(b@)[i as int]);
            return false;
        }
        i = i + 1;
    }
    assert(upper_chars(a@) =~= upper_chars(b@));
    true
}

fn up(b: u8) -> (r: u8)
    ensures
        r == upper_byte(b),
{
    if 97 <= b && b <= 122 {
        b - 32
    } else {
        b
    }
}

/// Whether two names are equal in upper case.
pub fn same_upper_bytes(a: &Vec<u8>, b: &Vec<u8>) -> (r: bool)
    ensures
        r == (upper_bytes(a@) == upper_bytes(b@)),
{
    if a.len() != b.len() {
        assert(upper_bytes(a@).len() != upper_bytes(b@).len());
        return false;
    }
    let mut i: usize = 0;
    while i < a.len()
        invariant
            a@.len() == b@.len(),
            i <= a@.len(),
            forall|j: int| 0 <= j < i ==> upper_byte(#[trigger] a@[j]) == upper_byte(b@[j]),
        decreases a@.len() - i,
    {
        if up(a[i]) != up(b[i]) {
            assert(upper_bytes(a@)[i as int] != upper_bytes(b@)[i as int]);
            return false;
        }
        i = i + 1;
    }
    assert(upper_bytes(a@) =~= upper_bytes(b@));
    true
}

fn get_field(e: &[u8], from: usize, end: usize) -> (r: Vec<u8>)
    requires
        from <= end <= e@.len(),
    ensures
        r@ == field_text(e@.subrange(from as int, end as int)),
        r@.len() <= end - from,
{
    let part: &[u8] = slice_subrange(e, from, end);
    if utf8_text(part).is_none() {
        return Vec::new();
    }
    let mut r: Vec<u8> = vstd::slice::slice_to_vec(part);
    while r.len() > 0 && r[r.len() - 1] == 0x20
        invariant
            trim_blanks(r@) == trim_blanks(part@),
            r@.len() <= part@.len(),
        decreases r@.len(),
    {
        let ghost before = r@;
        let _x: Option<u8> = r.pop();
        assert(r@ =~= before.drop_last());
    }
    r
}

/// The base and extension fields of a slot as text.
pub fn slot_fields(e: &[u8]) -> (r: (Vec<u8>, Vec<u8>))
    requires
        e@.len() == 32,
    ensures
        r.0@ == base_text(e@),
        r.1@ == ext_text(e@),
        r.0@.len() <= 8,
        r.1@.len() <= 3,
{
    (get_field(e, 0, 8), get_field(e, 8, 11))
}

/// The full short name of a slot.
pub fn slot_full(e: &[u8]) -> (r: Vec<u8>)
    requires
        e@.len() == 32,
    ensures
        r@ == full_text(e@),
{
    let (base, mut ext) = slot_fields(e);
    let mut r: Vec<u8> = base;
    if ext.len() > 0 {
        r.push(0x2E);
        r.append(&mut ext);
    }
    r
}

/// Whether a slot holds a live file or directory.
pub open spec fn is_live(e: Seq<u8>) -> bool {
    e[0] != 0xE5 && !is_lfn(e) && !is_volume(e)
}

/// The first slot from the `k`-th on, before the end of the directory, whose
/// short name is `wanted` in upper case.
pub open spec fn find_short(s: Seq<Seq<u8>>, wanted: Seq<u8>, k: int) -> Option<int>
    decreases s.len() - k,
{
    if k < 0 || k >= s.len() || s[k][0] == 0 {
        None
    } else if is_live(s[k]) && upper_bytes(full_text(s[k])) == upper_bytes(wanted) {
        Some(k)
    } else {
        find_short(s, wanted, k + 1)
    }
}

/// Looks for a live slot by its short name.
pub fn find_slot(raw: &Vec<u8>, wanted: &Vec<u8>) -> (r: Option<usize>)
    ensures
        r matches Some(i) ==> i < raw@.len() / 32 && find_short(slots(raw@), wanted@, 0) == Some(i as int),
        r is None ==> find_short(slots(raw@), wanted@, 0) is None,
{
    let ghost s = slots(raw@);
    let total: usize = raw.len();
    let n: usize = total / 32;
    let mut k: usize = 0;
    while k < n
        invariant
            total == raw@.len(),
            n == total / 32,
            s == slots(raw@),
            k <= n,
            find_short(s, wanted@, k as int) == find_short(s, wanted@, 0),
        decreases n - k,
    {
        let e: &[u8] = slice_subrange(raw.as_slice(), 32 * k, 32 * k + 32);
        assert(e@ == s[k as int]);
        if e[0] == 0 {
            return None;
        }
        if e[0] != 0xE5 && e[11] % 64 != 15 && e[11] / 8 % 2 != 1 {
            let full: Vec<u8> = slot_full(e);
            if same_upper_bytes(&full, wanted) {
                return Some(k);
            }
        }
        k = k + 1;
    }
    None
}

/// The start of the run of long-name slots that ends just before slot `k`.
pub open spec fn group_start(s: Seq<Seq<u8>>, k: int) -> int
    decreases k,
{
    if k <= 0 || s[k - 1][0] == 0xE5 || !is_lfn(s[k - 1]) {
        k
    } else {
        group_start(s, k - 1)
    }
}

/// Finds where the long-name group in front of slot `k` starts.
pub fn find_group(raw: &Vec<u8>, k: usize) -> (g: usize)
    requires
        k < raw@.len() / 32,
    ensures
        g == group_start(slots(raw@), k as int),
        g <= k,
{
    let ghost s = slots(raw@);
    let total: usize = raw.len();
    let mut g: usize = k;
    while g > 0 && raw[32 * (g - 1)] != 0xE5 && raw[32 * (g - 1) + 11] % 64 == 15
        invariant
            total == raw@.len(),
            g <= k < total / 32,
            s == slots(raw@),
            group_start(s, g as int) == group_start(s, k as int),
        decreases g,
    {
        assert(s[g - 1][0] == raw@[32 * (g - 1)]);
        assert(s[g - 1][11] == raw@[32 * (g - 1) + 11]);
        g = g - 1;
    }
    assert(g > 0 ==> s[g - 1][0] == raw@[32 * (g - 1)] && s[g - 1][11] == raw@[32 * (g - 1) + 11]);
    g
}

/// Whether a slot's short name collides with `base`.`ext`.
pub open spec fn collides(e: Seq<u8>, base: Seq<u8>, ext: Seq<u8>) -> bool {
    &&& e[0] != 0
    &&& e[0] != 0xE5
    &&& !is_lfn(e)
    &&& upper_bytes(base_text(e)) == upper_bytes(base)
    &&& upper_bytes(ext_text(e)) == upper_bytes(ext)
}

/// Whether any slot's short name collides.
pub open spec fn taken(s: Seq<Seq<u8>>, base: Seq<u8>, ext: Seq<u8>) -> bool {
    exists|k: int| 0 <= k < s.len() && collides(#[trigger] s[k], base, ext)
}

/// Does `base.ext` collide with any short name in the directory?
pub fn short_name_taken(raw: &Vec<u8>, base: &Vec<u8>, ext: &Vec<u8>) -> (r: bool)
    ensures
        r == taken(slots(raw@), base@, ext@),
{
    let ghost s = slots(raw@);
    let total: usize = raw.len();
    let n: usize = total / 32;
    let mut k: usize = 0;
    while k < n
        invariant
            total == raw@.len(),
            n == total / 32,
            s == slots(raw@),
            k <= n,
            forall|j: int| 0 <= j < k ==> !collides(#[trigger] s[j], base@, ext@),
        decreases n - k,
    {
        let e: &[u8] = slice_subrange(raw.as_slice(), 32 * k, 32 * k + 32);
        assert(e@ == s[k as int]);
        if e[0] != 0 && e[0] != 0xE5 && e[11] % 64 != 15 {
            let (eb, ee) = slot_fields(e);
            if same_upper_bytes(&eb, base) && same_upper_bytes(&ee, ext) {
                assert(collides(s[k as int], base@, ext@));
                return true;
            }
        }
        k = k + 1;
    }
    false
}

/// A character that a short name may hold.
pub open spec fn short_ok(c: char) -> bool {
    ||| '0' <= c && c <= '9'
    ||| 'A' <= c && c <= 'Z'
    ||| c == '!' || c == '#' || c == '$' || c == '%' || c == '&' || c == '\'' || c == '(' || c == ')' || c == '-'
    ||| c == '@' || c == '^' || c == '_' || c == '`' || c == '{' || c == '}' || c == '~'
}

/// A character made fit for a short name.
pub open spec fn short_byte(c: char) -> u8 {
    if short_ok(upper_char(c)) {
        upper_char(c) as u8
    } else {
        0x5F
    }
}

/// The first `max` characters of `s`, made fit.
pub open spec fn fitted(s: Seq<char>, max: int) -> Seq<u8> {
    Seq::new(
        (if s.len() < max {
            s.len() as int
        } else {
            max
        }) as nat,
        |i: int| short_byte(s[i]),
    )
}

/// The position of the last dot.
pub open spec fn last_dot(s: Seq<char>) -> Option<int>
    decreases s.len(),
{
    if s.len() == 0 {
        None
    } else if s.last() == '.' {
        Some(s.len() - 1)
    } else {
        last_dot(s.drop_last())
    }
}

/// 8.3 short name of a file name without leading slashes: upper case, made
/// fit, base of at most 8 and extension of at most 3 characters.
pub open spec fn short_parts(name: Seq<char>) -> (Seq<u8>, Seq<u8>) {
    match last_dot(name) {
        Some(i) if i > 0 => (fitted(name.take(i), 8), fitted(name.skip(i + 1), 3)),
        _ => (fitted(name, 8), Seq::empty()),
    }
}

/// 8.3 short name of a file name; leading slashes do not count.
pub open spec fn short_of(name: Seq<char>) -> (Seq<u8>, Seq<u8>) {
    short_parts(crate::fs::fat32::trim_slashes(name))
}

fn fit(c: char) -> (b: u8)
    ensures
        b == short_byte(c),
{
    let u: char = to_upper(c);
    let ok = (u >= '0' && u <= '9') || (u >= 'A' && u <= 'Z') || u == '!' || u == '#' || u == '$' || u == '%' || u
        == '&' || u == '\'' || u == '(' || u == ')' || u == '-' || u == '@' || u == '^' || u == '_' || u == '`' || u
        == '{' || u == '}' || u == '~';
    if ok {
        u as u8
    } else {
        0x5F
    }
}

fn fit_all(s: &[char], from: usize, end: usize, max: usize) -> (r: Vec<u8>)
    requires
        from <= end <= s@.len(),
    ensures
        r@ == fitted(s@.subrange(from as int, end as int), max as int),
        r@.len() <= max,
{
    let mut r: Vec<u8> = Vec::new();
    let ghost t = s@.subrange(from as int, end as int);
    let mut i: usize = from;
    while i < end && r.len() < max
        invariant
            from <= i <= end <= s@.len(),
            t == s@.subrange(from as int, end as int),
            r@.len() == i - from,
            r@.len() <= max,
            forall|j: int| 0 <= j < r@.len() ==> #[trigger] r@[j] == short_byte(t[j]),
        decreases end - i,
    {
        r.push(fit(s[i]));
        i = i + 1;
    }
    assert(r@ =~= fitted(t, max as int));
    r
}

fn parts_83(name: &[char]) -> (r: (Vec<u8>, Vec<u8>))
    ensures
        (r.0@, r.1@) == short_parts(name@),
        r.0@.len() <= 8,
        r.1@.len() <= 3,
{
    let n: usize = name.len();
    let mut k: usize = n;
    assert(name@.take(n as int) =~= name@);
    while k > 0 && name[k - 1] != '.'
        invariant
            k <= n,
            n == name@.len(),
            last_dot(name@.take(k as int)) == last_dot(name@),
        decreases k,
    {
        assert(name@.take(k as int).drop_last() =~= name@.take(k - 1));
        k = k - 1;
    }
    proof {
        if k > 0 {
            assert(name@.take(k as int).last() == '.');
            assert(last_dot(name@) == Some(k - 1));
        } else {
            assert(last_dot(name@) is None);
        }
    }
    if k > 1 {
        assert(name@.subrange(0, k - 1) =~= name@.take(k - 1));
        assert(name@.subrange(k as int, n as int) =~= name@.skip(k as int));
        (fit_all(name, 0, k - 1, 8), fit_all(name, k, n, 3))
    } else {
        assert(name@.subrange(0, n as int) =~= name@);
        (fit_all(name, 0, n, 8), Vec::new())
    }
}

/// 8.3 short name from a file name.
pub fn to_83(name: &[char]) -> (r: (Vec<u8>, Vec<u8>))
    ensures
        (r.0@, r.1@) == short_of(name@),
        r.0@.len() <= 8,
        r.1@.len() <= 3,
{
    let n: usize = name.len();
    let mut i: usize = 0;
    assert(name@.skip(0) =~= name@);
    while i < n && name[i] == '/'
        invariant
            n == name@.len(),
            i <= n,
            crate::fs::fat32::trim_slashes(name@.skip(i as int)) == crate::fs::fat32::trim_slashes(name@),
        decreases n - i,
    {
        assert(name@.skip(i as int).skip(1) =~= name@.skip(i + 1));
        i = i + 1;
    }
    assert(i < n ==> name@.skip(i as int)[0] == name@[i as int]);
    assert(name@.subrange(i as int, n as int) =~= name@.skip(i as int));
    parts_83(slice_subrange(name, i, n))
}

/// `s` filled with blanks to `n` bytes.
pub open spec fn blank_padded(s: Seq<u8>, n: int) -> Seq<u8> {
    Seq::new(
        n as nat,
        |i: int|
            if i < s.len() {
                s[i]
            } else {
                0x20u8
            },
    )
}

/// The two little-endian bytes of `x`.
pub open spec fn le2(x: int) -> Seq<u8> {
    seq![(x % 256) as u8, (x / 256 % 256) as u8]
}

/// A classic 8.3 slot: attribute archive, noon of 2026-01-01.
#[verifier::opaque]
pub open spec fn dirent(base: Seq<u8>, ext: Seq<u8>, first: u32, size: u32) -> Seq<u8> {
    blank_padded(base, 8) + blank_padded(ext, 3) + seq![
        0x20u8,
        0,
        0,
        0x00,
        0x60,
        0x21,
        0x5C,
        0x21,
        0x5C,
    ] + le2((first / 0x1_0000) as int) + seq![0x00u8, 0x60, 0, 0] + le2((first % 0x1_0000) as int) + crate::bytes::le4(size)
}

/// Build a classic 8.3 slot.
pub fn make_dirent(base: &Vec<u8>, ext: &Vec<u8>, first: u32, size: u32) -> (e: Vec<u8>)
    requires
        base@.len() <= 8,
        ext@.len() <= 3,
    ensures
        e@ == dirent(base@, ext@, first, size),
        e@.len() == 32,
{
    let mut e: Vec<u8> = Vec::new();
    let mut i: usize = 0;
    while i < 8
        invariant
            i <= 8,
            e@.len() == i,
            forall|j: int| 0 <= j < i ==> #[trigger] e@[j] == blank_padded(base@, 8)[j],
        decreases 8 - i,
    {
        e.push(
            if i < base.len() {
                base[i]
            } else {
                0x20
            },
        );
        i = i + 1;
    }
    assert(e@ =~= blank_padded(base@, 8));
    let mut k: usize = 0;
    while k < 3
        invariant
            k <= 3,
            e@.len() == 8 + k,
            forall|j: int| 0 <= j < 8 ==> #[trigger] e@[j] == blank_padded(base@, 8)[j],
            forall|j: int| 0 <= j < k ==> e@[8 + j] == #[trigger] blank_padded(ext@, 3)[j],
        decreases 3 - k,
    {
        e.push(
            if k < ext.len() {
                ext[k]
            } else {
                0x20
            },
        );
        k = k + 1;
    }
    assert(e@ =~= blank_padded(base@, 8) + blank_padded(ext@, 3));
    let ghost names = e@;
    e.push(0x20);
    e.push(0);
    e.push(0);
    // creation time and date, access date
    e.push(0x00);
    e.push(0x60);
    e.push(0x21);
    e.push(0x5C);
    e.push(0x21);
    e.push(0x5C);
    let hi: u32 = first / 0x1_0000;
    e.push((hi % 256) as u8);
    e.push((hi / 256 % 256) as u8);
    // last write
    e.push(0x00);
    e.push(0x60);
    e.push(0);
    e.push(0);
    let lo: u32 = first % 0x1_0000;
    e.push((lo % 256) as u8);
    e.push((lo / 256 % 256) as u8);
    e.push((size % 256) as u8);
    e.push((size / 256 % 256) as u8);
    e.push((size / 0x1_0000 % 256) as u8);
    e.push((size / 0x100_0000) as u8);
    proof {
        reveal(dirent);
    }
    assert(e@ =~= dirent(base@, ext@, first, size));
    e
}

} // verus!
