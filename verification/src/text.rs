//! Text: rendering and reading numbers, splitting, padding.

use vstd::prelude::*;
use vstd::string::{StrSliceExecFns, StringExecFns};

verus! {

// --- rendering ---
/// The digit character for `d` in base 16 or below.
pub open spec fn digit_char(d: nat, upper: bool) -> char {
    if d < 10 {
        (48 + d) as char
    } else if upper {
        (55 + d) as char
    } else {
        (87 + d) as char
    }
}

/// `n` in decimal.
pub open spec fn dec_text(n: nat) -> Seq<char>
    decreases n,
{
    if n < 10 {
        seq![digit_char(n, false)]
    } else {
        dec_text(n / 10).push(digit_char(n % 10, false))
    }
}

/// `n` in hexadecimal, without a prefix.
pub open spec fn hex_text(n: nat, upper: bool) -> Seq<char>
    decreases n,
{
    if n < 16 {
        seq![digit_char(n, upper)]
    } else {
        hex_text(n / 16, upper).push(digit_char(n % 16, upper))
    }
}

/// `n` in hexadecimal with at least two digits.
pub open spec fn hex2_text(n: nat, upper: bool) -> Seq<char> {
    if n < 16 {
        seq!['0', digit_char(n, upper)]
    } else {
        hex_text(n, upper)
    }
}

/// `n` blanks.
pub open spec fn blanks(n: nat) -> Seq<char> {
    Seq::new(n, |i: int| ' ')
}

/// `s` set right in a field of `width`.
pub open spec fn right_in(s: Seq<char>, width: nat) -> Seq<char> {
    if s.len() >= width {
        s
    } else {
        blanks((width - s.len()) as nat) + s
    }
}

/// `s` set left in a field of `width`.
pub open spec fn left_in(s: Seq<char>, width: nat) -> Seq<char> {
    if s.len() >= width {
        s
    } else {
        s + blanks((width - s.len()) as nat)
    }
}

fn digit_str(d: u64, upper: bool) -> (r: &'static str)
    requires
        d < 16,
    ensures
        r@ == seq![digit_char(d as nat, upper)],
{
    proof {
        reveal_strlit("0");
        reveal_strlit("1");
        reveal_strlit("2");
        reveal_strlit("3");
        reveal_strlit("4");
        reveal_strlit("5");
        reveal_strlit("6");
        reveal_strlit("7");
        reveal_strlit("8");
        reveal_strlit("9");
        reveal_strlit("a");
        reveal_strlit("b");
        reveal_strlit("c");
        reveal_strlit("d");
        reveal_strlit("e");
        reveal_strlit("f");
        reveal_strlit("A");
        reveal_strlit("B");
        reveal_strlit("C");
        reveal_strlit("D");
        reveal_strlit("E");
        reveal_strlit("F");
    }
    let r: &'static str = if d == 0 {
        "0"
    } else if d == 1 {
        "1"
    } else if d == 2 {
        "2"
    } else if d == 3 {
        "3"
    } else if d == 4 {
        "4"
    } else if d == 5 {
        "5"
    } else if d == 6 {
        "6"
    } else if d == 7 {
        "7"
    } else if d == 8 {
        "8"
    } else if d == 9 {
        "9"
    } else if d == 10 {
        if upper {
            "A"
        } else {
            "a"
        }
    } else if d == 11 {
        if upper {
            "B"
        } else {
            "b"
        }
    } else if d == 12 {
        if upper {
            "C"
        } else {
            "c"
        }
    } else if d == 13 {
        if upper {
            "D"
        } else {
            "d"
        }
    } else if d == 14 {
        if upper {
            "E"
        } else {
            "e"
        }
    } else {
        if upper {
            "F"
        } else {
            "f"
        }
    };
    assert(r@ =~= seq![digit_char(d as nat, upper)]);
    r
}

/// Appends `n` in decimal.
pub fn push_dec(s: &mut String, n: u64)
    ensures
        final(s)@ == old(s)@ + dec_text(n as nat),
    decreases n,
{
    if n >= 10 {
        push_dec(s, n / 10);
    }
    s.append(digit_str(n % 10, false));
    assert(s@ =~= old(s)@ + dec_text(n as nat));
}

/// Appends `n` in hexadecimal.
pub fn push_hex(s: &mut String, n: u64, upper: bool)
    ensures
        final(s)@ == old(s)@ + hex_text(n as nat, upper),
    decreases n,
{
    if n >= 16 {
        push_hex(s, n / 16, upper);
    }
    s.append(digit_str(n % 16, upper));
    assert(s@ =~= old(s)@ + hex_text(n as nat, upper));
}

/// Appends `n` in hexadecimal with at least two digits.
pub fn push_hex2(s: &mut String, n: u64, upper: bool)
    ensures
        final(s)@ == old(s)@ + hex2_text(n as nat, upper),
{
    if n < 16 {
        proof {
            reveal_strlit("0");
        }
        s.append("0");
        s.append(digit_str(n, upper));
        assert(s@ =~= old(s)@ + hex2_text(n as nat, upper));
    } else {
        push_hex(s, n, upper);
    }
}

/// Appends `n` blanks.
pub fn push_blanks(s: &mut String, n: usize)
    ensures
        final(s)@ == old(s)@ + blanks(n as nat),
    decreases n,
{
    proof {
        reveal_strlit(" ");
    }
    if n > 0 {
        push_blanks(s, n - 1);
        s.append(" ");
    }
    assert(s@ =~= old(s)@ + blanks(n as nat));
}

/// Appends `t` set right in a field of `width`.
pub fn push_right(s: &mut String, t: &str, width: usize)
    ensures
        final(s)@ == old(s)@ + right_in(t@, width as nat),
{
    let n: usize = t.unicode_len();
    if n < width {
        push_blanks(s, width - n);
    }
    s.append(t);
    assert(s@ =~= old(s)@ + right_in(t@, width as nat));
}

/// Appends `t` set left in a field of `width`.
pub fn push_left(s: &mut String, t: &str, width: usize)
    ensures
        final(s)@ == old(s)@ + left_in(t@, width as nat),
{
    let n: usize = t.unicode_len();
    s.append(t);
    if n < width {
        push_blanks(s, width - n);
    }
    assert(s@ =~= old(s)@ + left_in(t@, width as nat));
}

/// Appends `n` in decimal, set right in a field of `width`.
pub fn push_dec_right(s: &mut String, n: u64, width: usize)
    ensures
        final(s)@ == old(s)@ + right_in(dec_text(n as nat), width as nat),
{
    let mut t = String::new();
    push_dec(&mut t, n);
    assert(t@ =~= dec_text(n as nat));
    push_right(s, t.as_str(), width);
}

/// `String::push`: appends one character to the string.
#[verifier::external_body]
pub(crate) fn push_char(s: &mut String, c: char)
    ensures
        final(s)@ == old(s)@.push(c),
{
    s.push(c);
}

/// `n` in hexadecimal with the prefix `0x`.
pub open spec fn hexp_text(n: nat) -> Seq<char> {
    "0x"@ + hex_text(n, false)
}

/// Appends `n` in hexadecimal with the prefix `0x`.
pub fn push_hexp(s: &mut String, n: u64)
    ensures
        final(s)@ == old(s)@ + hexp_text(n as nat),
{
    s.append("0x");
    push_hex(s, n, false);
    assert(s@ =~= old(s)@ + hexp_text(n as nat));
}

/// `s` set right in a field of `width`, with zeros before it.
pub open spec fn zeros_in(s: Seq<char>, width: nat) -> Seq<char> {
    if s.len() >= width {
        s
    } else {
        Seq::new((width - s.len()) as nat, |i: int| '0') + s
    }
}

fn push_zeros(s: &mut String, n: usize)
    ensures
        final(s)@ == old(s)@ + Seq::new(n as nat, |i: int| '0'),
    decreases n,
{
    proof {
        reveal_strlit("0");
    }
    if n > 0 {
        push_zeros(s, n - 1);
        s.append("0");
    }
    assert(s@ =~= old(s)@ + Seq::new(n as nat, |i: int| '0'));
}

/// Appends `n` in decimal with zeros before it, at least `width` digits.
pub fn push_dec_zeros(s: &mut String, n: u64, width: usize)
    ensures
        final(s)@ == old(s)@ + zeros_in(dec_text(n as nat), width as nat),
{
    let mut t = String::new();
    push_dec(&mut t, n);
    assert(t@ =~= dec_text(n as nat));
    let k: usize = t.as_str().unicode_len();
    if k < width {
        push_zeros(s, width - k);
    }
    s.append(t.as_str());
    assert(s@ =~= old(s)@ + zeros_in(dec_text(n as nat), width as nat));
}

/// Appends `n` in hexadecimal with zeros before it, at least `width` digits.
pub fn push_hex_zeros(s: &mut String, n: u64, width: usize)
    ensures
        final(s)@ == old(s)@ + zeros_in(hex_text(n as nat, false), width as nat),
{
    let mut t = String::new();
    push_hex(&mut t, n, false);
    assert(t@ =~= hex_text(n as nat, false));
    let k: usize = t.as_str().unicode_len();
    if k < width {
        push_zeros(s, width - k);
    }
    s.append(t.as_str());
    assert(s@ =~= old(s)@ + zeros_in(hex_text(n as nat, false), width as nat));
}

/// A result whose error is the text that `x` gives.
pub open spec fn told<T>(r: Result<T, &'static str>, x: Result<T, Seq<char>>) -> bool {
    match (r, x) {
        (Ok(a), Ok(b)) => a == b,
        (Err(e), Err(t)) => e@ == t,
        _ => false,
    }
}

// --- reading ---
/// `core::str::from_utf8`: succeeds exactly on well-formed UTF-8, with the
/// characters that it encodes.
#[verifier::external_body]
pub(crate) fn utf8_text(b: &[u8]) -> (r: Option<String>)
    ensures
        r is Some <==> vstd::utf8::valid_utf8(b@),
        r matches Some(s) ==> s@ == vstd::utf8::decode_utf8(b@),
{
    match core::str::from_utf8(b) {
        Ok(s) => Some(s.to_owned()),
        Err(_) => None,
    }
}

/// The character with the code `b`.
pub fn latin1(b: u8) -> (c: char)
    ensures
        c == b as char,
{
    b as char
}

/// The characters of `s`.
pub fn chars_of(s: &str) -> (r: Vec<char>)
    ensures
        r@ == s@,
{
    let n: usize = s.unicode_len();
    let mut r: Vec<char> = Vec::new();
    let mut i: usize = 0;
    while i < n
        invariant
            n == s@.len(),
            i <= n,
            r@ == s@.take(i as int),
        decreases n - i,
    {
        r.push(s.get_char(i));
        i = i + 1;
        assert(r@ =~= s@.take(i as int));
    }
    assert(s@.take(n as int) =~= s@);
    r
}

/// Whether two texts are equal.
pub fn same_text(a: &str, b: &str) -> (r: bool)
    ensures
        r == (a@ == b@),
{
    let n: usize = a.unicode_len();
    if n != b.unicode_len() {
        return false;
    }
    let mut i: usize = 0;
    while i < n
        invariant
            n == a@.len(),
            n == b@.len(),
            i <= n,
            forall|j: int| 0 <= j < i ==> a@[j] == b@[j],
        decreases n - i,
    {
        if a.get_char(i) != b.get_char(i) {
            return false;
        }
        i = i + 1;
    }
    assert(a@ =~= b@);
    true
}

/// The text of some characters.
pub fn text_of(c: &[char]) -> (s: String)
    ensures
        s@ == c@,
{
    let n: usize = c.len();
    let mut s: String = String::new();
    let mut i: usize = 0;
    assert(s@ =~= c@.take(0));
    while i < n
        invariant
            n == c@.len(),
            i <= n,
            s@ == c@.take(i as int),
        decreases n - i,
    {
        push_char(&mut s, c[i]);
        i = i + 1;
        assert(s@ =~= c@.take(i as int));
    }
    assert(c@.take(n as int) =~= c@);
    s
}

pub open spec fn is_digit(c: char) -> bool {
    '0' <= c && c <= '9'
}

pub open spec fn digit_value(c: char) -> nat {
    (c as int - 48) as nat
}

/// Whether `s` is digits throughout.
pub open spec fn all_digits(s: Seq<char>) -> bool {
    forall|i: int| 0 <= i < s.len() ==> is_digit(#[trigger] s[i])
}

/// The number that a run of decimal digits names.
pub open spec fn dec_value(s: Seq<char>) -> nat
    decreases s.len(),
{
    if s.len() == 0 {
        0
    } else {
        dec_value(s.drop_last()) * 10 + digit_value(s.last())
    }
}

/// `s` without a leading plus sign.
pub open spec fn unsigned_part(s: Seq<char>) -> Seq<char> {
    if s.len() > 0 && s[0] == '+' {
        s.skip(1)
    } else {
        s
    }
}

/// The unsigned number that `s` reads as, if it does: an optional plus sign
/// and at least one digit, with a value of at most `max`.
pub open spec fn uint_of(s: Seq<char>, max: nat) -> Option<nat> {
    let d = unsigned_part(s);
    if d.len() > 0 && all_digits(d) && dec_value(d) <= max {
        Some(dec_value(d))
    } else {
        None
    }
}

proof fn lemma_dec_value_prefix(s: Seq<char>, k: int)
    requires
        0 <= k <= s.len(),
    ensures
        dec_value(s.take(k)) <= dec_value(s),
    decreases s.len() - k,
{
    if k < s.len() {
        lemma_dec_value_prefix(s, k + 1);
        let t = s.take(k + 1);
        assert(t.drop_last() =~= s.take(k));
    } else {
        assert(s.take(k) =~= s);
    }
}

/// Reads an unsigned number of at most `max`.
pub fn parse_uint(s: &[char], max: u64) -> (r: Option<u64>)
    ensures
        r matches Some(v) ==> uint_of(s@, max as nat) == Some(v as nat),
        r is None ==> uint_of(s@, max as nat) is None,
{
    let n: usize = s.len();
    let from: usize = if n > 0 && s[0] == '+' {
        1
    } else {
        0
    };
    let ghost d = unsigned_part(s@);
    assert(d =~= s@.skip(from as int));
    if n == from {
        return None;
    }
    let mut v: u64 = 0;
    let mut i: usize = from;
    while i < n
        invariant
            n == s@.len(),
            from <= i <= n,
            from <= 1,
            d == s@.skip(from as int),
            d == unsigned_part(s@),
            all_digits(d.take(i - from)),
            v == dec_value(d.take(i - from)),
            v <= max,
        decreases n - i,
    {
        let c: char = s[i];
        let ghost k = i - from;
        assert(d[k] == c);
        if !(c >= '0' && c <= '9') {
            assert(!is_digit(d[k]));
            return None;
        }
        let x: u64 = c as u64 - 48;
        assert(d.take(k + 1).drop_last() =~= d.take(k));
        assert(dec_value(d.take(k + 1)) == v * 10 + x);
        if v > (u64::MAX - x) / 10 || v * 10 + x > max {
            proof {
                lemma_dec_value_prefix(d, k + 1);
            }
            return None;
        }
        v = v * 10 + x;
        i = i + 1;
        assert(all_digits(d.take(i - from)));
    }
    assert(d.take(n - from) =~= d);
    Some(v)
}

/// `s` cut at every occurrence of `sep`.
pub open spec fn pieces(s: Seq<char>, sep: char) -> Seq<Seq<char>>
    decreases s.len(),
{
    if s.len() == 0 {
        seq![Seq::<char>::empty()]
    } else {
        let p = pieces(s.drop_last(), sep);
        if s.last() == sep {
            p.push(Seq::empty())
        } else {
            p.update(p.len() - 1, p.last().push(s.last()))
        }
    }
}

/// A list of texts as the sequences that they hold.
pub open spec fn texts(v: Seq<Vec<char>>) -> Seq<Seq<char>> {
    v.map_values(|p: Vec<char>| p@)
}

/// Cuts `s` at every occurrence of `sep`.
pub fn split(s: &[char], sep: char) -> (r: Vec<Vec<char>>)
    ensures
        texts(r@) == pieces(s@, sep),
        r@.len() >= 1,
{
    let mut r: Vec<Vec<char>> = Vec::new();
    let mut cur: Vec<char> = Vec::new();
    let mut i: usize = 0;
    let n: usize = s.len();
    assert(texts(r@).push(cur@) =~= pieces(s@.take(0), sep));
    while i < n
        invariant
            n == s@.len(),
            i <= n,
            texts(r@).push(cur@) == pieces(s@.take(i as int), sep),
        decreases n - i,
    {
        let c: char = s[i];
        let ghost t = s@.take(i + 1);
        assert(t.drop_last() =~= s@.take(i as int));
        assert(t.last() == c);
        let ghost before = texts(r@);
        if c == sep {
            let ghost cv = cur@;
            r.push(cur);
            cur = Vec::new();
            assert(texts(r@) =~= before.push(cv));
        } else {
            cur.push(c);
        }
        i = i + 1;
        assert(texts(r@).push(cur@) =~= pieces(s@.take(i as int), sep));
    }
    assert(s@.take(n as int) =~= s@);
    let ghost before = texts(r@);
    let ghost cv = cur@;
    r.push(cur);
    assert(texts(r@) =~= before.push(cv));
    r
}

/// What follows the last `sep` of `s`; all of it, if there is none.
pub fn last_piece(s: &str, sep: char) -> (r: String)
    ensures
        r@ == pieces(s@, sep).last(),
{
    let c = chars_of(s);
    let v = split(c.as_slice(), sep);
    let last: usize = v.len() - 1;
    assert(texts(v@)[last as int] == v@[last as int]@);
    text_of(v[last].as_slice())
}

// --- laws ---
/// Decimal text is never empty, is digits throughout, and reads back as the
/// number it was made from.
pub proof fn law_dec_round_trip(n: nat)
    ensures
        dec_text(n).len() > 0,
        all_digits(dec_text(n)),
        dec_value(dec_text(n)) == n,
        uint_of(dec_text(n), n) == Some(n),
    decreases n,
{
    if n >= 10 {
        law_dec_round_trip(n / 10);
        let t = dec_text(n);
        assert(t.drop_last() =~= dec_text(n / 10));
    } else {
        let t = dec_text(n);
        assert(t.drop_last() =~= Seq::<char>::empty());
        reveal_with_fuel(dec_value, 2);
    }
    assert(is_digit(dec_text(n)[0]));
}

/// Text without the separator only lengthens the last piece.
pub proof fn lemma_pieces_extend(s: Seq<char>, t: Seq<char>, sep: char)
    requires
        forall|i: int| 0 <= i < t.len() ==> #[trigger] t[i] != sep,
    ensures
        pieces(s, sep).len() >= 1,
        pieces(s + t, sep) == pieces(s, sep).update(pieces(s, sep).len() - 1, pieces(s, sep).last() + t),
    decreases t.len(),
{
    lemma_pieces_nonempty(s, sep);
    if t.len() == 0 {
        assert(s + t =~= s);
        assert(pieces(s, sep).last() + t =~= pieces(s, sep).last());
        assert(pieces(s, sep).update(pieces(s, sep).len() - 1, pieces(s, sep).last()) =~= pieces(s, sep));
    } else {
        lemma_pieces_extend(s, t.drop_last(), sep);
        assert((s + t).drop_last() =~= s + t.drop_last());
        assert((s + t).last() == t.last());
        assert(pieces(s, sep).last() + t =~= (pieces(s, sep).last() + t.drop_last()).push(t.last()));
        assert(pieces(s + t, sep) =~= pieces(s, sep).update(
            pieces(s, sep).len() - 1,
            pieces(s, sep).last() + t,
        ));
    }
}

pub proof fn lemma_pieces_nonempty(s: Seq<char>, sep: char)
    ensures
        pieces(s, sep).len() >= 1,
    decreases s.len(),
{
    if s.len() > 0 {
        lemma_pieces_nonempty(s.drop_last(), sep);
    }
}

/// The separator opens a new, empty piece.
pub proof fn lemma_pieces_sep(s: Seq<char>, sep: char)
    ensures
        pieces(s.push(sep), sep) == pieces(s, sep).push(Seq::empty()),
{
    assert(s.push(sep).drop_last() =~= s);
}

/// A text without a separator is one piece.
pub proof fn lemma_pieces_one(s: Seq<char>, sep: char)
    requires
        !s.contains(sep),
    ensures
        pieces(s, sep) == seq![s],
    decreases s.len(),
{
    if s.len() > 0 {
        let t = s.drop_last();
        assert(!t.contains(sep)) by {
            if t.contains(sep) {
                let i = choose|i: int| 0 <= i < t.len() && t[i] == sep;
                assert(s[i] == sep);
            }
        }
        lemma_pieces_one(t, sep);
        assert(s.last() == s[s.len() - 1]);
        assert(t.push(s.last()) =~= s);
        assert(pieces(s, sep) =~= seq![s]);
    } else {
        assert(s =~= Seq::empty());
    }
}

} // verus!
