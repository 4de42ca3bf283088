//! What the shell makes of a line, and how numbers and words are written.

use vstd::prelude::*;

use crate::shell::edit::Typed;

verus! {

// ---------------------------------------------------------------------------
// Typing a line
// ---------------------------------------------------------------------------
/// A line grows by what is typed, up to 128 characters, shrinks by backspace
/// and is done at its end; nothing else changes it.
pub proof fn law_typing(line: Seq<u8>, k: u8)
    ensures
        ({
            let (l, t) = crate::shell::edit::typed_spec(line, k);
            &&& k == 10 ==> l == line && t == Typed::Done
            &&& k == 8 && line.len() > 0 ==> l == line.subrange(0, line.len() - 1) && t == Typed::Erased
            &&& k == 8 && line.len() == 0 ==> l == line && t == Typed::Ignored
            &&& 32 <= k <= 126 && line.len() < 128 ==> l == line.push(k) && t == Typed::Added
            &&& 32 <= k <= 126 && line.len() >= 128 ==> l == line && t == Typed::Ignored
            &&& (k < 32 || k > 126) && k != 10 && k != 8 ==> l == line && t == Typed::Ignored
        }),
{
    if line.len() > 0 {
        assert(line.drop_last() =~= line.subrange(0, line.len() - 1));
    }
}

/// Backspace takes back what was typed.
pub proof fn law_backspace_takes_back(line: Seq<u8>, k: u8)
    requires
        32 <= k <= 126,
        line.len() < 128,
    ensures
        crate::shell::edit::typed_spec(crate::shell::edit::typed_spec(line, k).0, 8).0 == line,
{
    assert(line.push(k).drop_last() =~= line);
}

// ---------------------------------------------------------------------------
// The parts of a line
// ---------------------------------------------------------------------------
proof fn lemma_run(b: Seq<u8>, i: int, j: int, blank: bool)
    requires
        0 <= i <= j <= b.len(),
        forall|k: int| i <= k < j ==> ((#[trigger] b[k]) == 32) != blank,
        j < b.len() ==> (b[j] == 32) == blank,
    ensures
        crate::shell::blank_from(b, i, blank) == j,
    decreases j - i,
{
    if i < j {
        lemma_run(b, i + 1, j, blank);
    }
}

proof fn lemma_end(b: Seq<u8>, i: int, j: int)
    requires
        0 <= i <= j <= b.len(),
        forall|k: int| i <= k < j ==> (#[trigger] b[k]) == 32,
        i > 0 ==> b[i - 1] != 32,
    ensures
        crate::shell::end_before(b, j) == i,
    decreases j,
{
    if i < j {
        lemma_end(b, i, j - 1);
    }
}

/// A command line is a name, a blank and the rest, whatever blanks stand
/// around it: the name is what comes before the first blank, the rest what
/// comes behind it, without the white space at its ends.
#[verifier::spinoff_prover]
pub proof fn law_line_is_a_name_and_a_rest(before: nat, name: Seq<u8>, rest: Seq<u8>, after: nat)
    requires
        name.len() > 0,
        forall|i: int| 0 <= i < name.len() ==> (#[trigger] name[i]) != 32,
        rest.len() > 0,
        rest.last() != 32,
    ensures
        crate::shell::parts(
            Seq::new(before, |i: int| 32u8) + name + seq![32u8] + rest + Seq::new(after, |i: int| 32u8),
        ) == (crate::shell::text_or_nothing(name), crate::words::trimmed(crate::shell::text_or_nothing(rest))),
{
    let line = Seq::new(before, |i: int| 32u8) + name + seq![32u8] + rest + Seq::new(after, |i: int| 32u8);
    let core = name + seq![32u8] + rest;
    let (a, e) = (before as int, (before + core.len()) as int);
    assert(line[a] == name[0]);
    lemma_run(line, 0, a, false);
    assert(line[e - 1] == rest.last());
    lemma_end(line, e, line.len() as int);
    assert(line.subrange(a, e) =~= core);
    let k = name.len() as int;
    assert forall|i: int| 0 <= i < k implies ((#[trigger] core[i]) == 32) != true by {
        assert(core[i] == name[i]);
    }
    lemma_run(core, 0, k, true);
    assert(core.take(k) =~= name);
    assert(core.skip(k + 1) =~= rest);
}

/// A line without a blank inside is a name alone.
pub proof fn law_line_is_a_name(before: nat, name: Seq<u8>, after: nat)
    requires
        name.len() > 0,
        forall|i: int| 0 <= i < name.len() ==> (#[trigger] name[i]) != 32,
    ensures
        crate::shell::parts(Seq::new(before, |i: int| 32u8) + name + Seq::new(after, |i: int| 32u8)) == (
            crate::shell::text_or_nothing(name),
            Seq::<char>::empty(),
        ),
{
    let line = Seq::new(before, |i: int| 32u8) + name + Seq::new(after, |i: int| 32u8);
    let (a, e) = (before as int, (before + name.len()) as int);
    assert(line[a] == name[0]);
    lemma_run(line, 0, a, false);
    assert(line[e - 1] == name.last());
    lemma_end(line, e, line.len() as int);
    assert(line.subrange(a, e) =~= name);
    lemma_run(name, 0, name.len() as int, true);
}

// ---------------------------------------------------------------------------
// Words
// ---------------------------------------------------------------------------
/// The words of two texts with white space between them are the words of the
/// one and then of the other.
#[verifier::spinoff_prover]
pub proof fn law_words_of_two(a: Seq<char>, w: char, b: Seq<char>)
    requires
        crate::words::is_white(w),
    ensures
        crate::words::words(a.push(w) + b) == crate::words::words(a) + crate::words::words(b),
    decreases b.len(),
{
    let s = a.push(w) + b;
    if b.len() == 0 {
        assert(s =~= a.push(w));
        assert(s.drop_last() =~= a);
        assert(crate::words::words(a) + crate::words::words(b) =~= crate::words::words(a));
    } else {
        law_words_of_two(a, w, b.drop_last());
        assert(s.drop_last() =~= a.push(w) + b.drop_last());
        let (p, q) = (crate::words::words(a), crate::words::words(b.drop_last()));
        let c = b.last();
        assert(s.last() == c);
        if crate::words::is_white(c) {
        } else if b.len() == 1 {
            assert(s[s.len() - 2] == w);
            assert(q.len() == 0);
            assert((p + q).push(seq![c]) =~= p + crate::words::words(b));
        } else {
            assert(s[s.len() - 2] == b[b.len() - 2]);
            if crate::words::is_white(b[b.len() - 2]) {
                assert((p + q).push(seq![c]) =~= p + q.push(seq![c]));
            } else {
                lemma_some_word(b.drop_last());
                assert((p + q).update((p + q).len() - 1, (p + q).last().push(c)) =~= p + q.update(
                    q.len() - 1,
                    q.last().push(c),
                ));
            }
        }
    }
}

proof fn lemma_some_word(s: Seq<char>)
    requires
        s.len() > 0,
        !crate::words::is_white(s.last()),
    ensures
        crate::words::words(s).len() > 0,
    decreases s.len(),
{
    if s.len() > 1 && !crate::words::is_white(s[s.len() - 2]) {
        lemma_some_word(s.drop_last());
    }
}

/// A text without white space is one word.
pub proof fn law_one_word(s: Seq<char>)
    requires
        s.len() > 0,
        forall|i: int| 0 <= i < s.len() ==> !crate::words::is_white(#[trigger] s[i]),
    ensures
        crate::words::words(s) == seq![s],
    decreases s.len(),
{
    if s.len() == 1 {
        assert(crate::words::words(s.drop_last()) =~= Seq::empty());
        assert(s =~= seq![s.last()]);
        assert(crate::words::words(s) =~= seq![s]);
    } else {
        law_one_word(s.drop_last());
        assert(s.drop_last().push(s.last()) =~= s);
        assert(crate::words::words(s) =~= seq![s]);
    }
}

/// Trimming takes the white space at both ends and nothing else.
pub proof fn law_trimmed(before: Seq<char>, s: Seq<char>, after: Seq<char>)
    requires
        forall|i: int| 0 <= i < before.len() ==> crate::words::is_white(#[trigger] before[i]),
        forall|i: int| 0 <= i < after.len() ==> crate::words::is_white(#[trigger] after[i]),
        s.len() > 0,
        !crate::words::is_white(s[0]),
        !crate::words::is_white(s.last()),
    ensures
        crate::words::trimmed(before + s + after) == s,
{
    lemma_front(before, s + after);
    assert(before + s + after =~= before + (s + after));
    lemma_back(s, after);
}

proof fn lemma_front(before: Seq<char>, s: Seq<char>)
    requires
        forall|i: int| 0 <= i < before.len() ==> crate::words::is_white(#[trigger] before[i]),
        s.len() > 0,
        !crate::words::is_white(s[0]),
    ensures
        crate::words::front_trimmed(before + s) == s,
    decreases before.len(),
{
    if before.len() == 0 {
        assert(before + s =~= s);
    } else {
        assert((before + s)[0] == before[0]);
        assert((before + s).skip(1) =~= before.skip(1) + s);
        lemma_front(before.skip(1), s);
    }
}

proof fn lemma_back(s: Seq<char>, after: Seq<char>)
    requires
        forall|i: int| 0 <= i < after.len() ==> crate::words::is_white(#[trigger] after[i]),
        s.len() > 0,
        !crate::words::is_white(s.last()),
    ensures
        crate::words::back_trimmed(s + after) == s,
    decreases after.len(),
{
    if after.len() == 0 {
        assert(s + after =~= s);
    } else {
        assert((s + after).last() == after.last());
        assert((s + after).drop_last() =~= s + after.drop_last());
        lemma_back(s, after.drop_last());
    }
}

/// A program's name and arguments are the words of what stands behind the
/// command.
pub proof fn law_program_and_arguments(name: Seq<char>, w: char, args: Seq<char>)
    requires
        name.len() > 0,
        forall|i: int| 0 <= i < name.len() ==> !crate::words::is_white(#[trigger] name[i]),
        crate::words::is_white(w),
    ensures
        crate::shell::programs::prog_args(name.push(w) + args) == (name, crate::words::words(args)),
{
    law_words_of_two(name, w, args);
    law_one_word(name);
    let r = crate::words::words(name.push(w) + args);
    assert(r.skip(1) =~= crate::words::words(args));
}

// ---------------------------------------------------------------------------
// Numbers
// ---------------------------------------------------------------------------
/// The value of a hexadecimal digit.
pub open spec fn hex_digit(c: char) -> int {
    if c <= '9' {
        c as int - 48
    } else if c >= 'a' {
        c as int - 87
    } else {
        c as int - 55
    }
}

/// The value of hexadecimal digits.
pub open spec fn hex_value(s: Seq<char>) -> int
    decreases s.len(),
{
    if s.len() == 0 {
        0
    } else {
        16 * hex_value(s.drop_last()) + hex_digit(s.last())
    }
}

/// The value of decimal digits, each from '0' to '9'.
pub open spec fn ten_value(s: Seq<char>) -> int
    decreases s.len(),
{
    if s.len() == 0 {
        0
    } else {
        10 * ten_value(s.drop_last()) + (s.last() as int - 48)
    }
}

/// A number in decimal: its digits give it back, and it starts with a 0 only
/// if it is 0.
pub proof fn law_decimal(n: nat)
    ensures
        ({
            let t = crate::text::dec_text(n);
            &&& t.len() > 0
            &&& ten_value(t) == n
            &&& forall|i: int| 0 <= i < t.len() ==> '0' <= (#[trigger] t[i]) && t[i] <= '9'
            &&& n > 0 ==> t[0] != '0'
        }),
    decreases n,
{
    let t = crate::text::dec_text(n);
    if n < 10 {
        reveal_with_fuel(ten_value, 2);
        assert(t.drop_last() =~= Seq::empty());
    } else {
        law_decimal(n / 10);
        assert(t.drop_last() =~= crate::text::dec_text(n / 10));
    }
}

/// A number in hexadecimal: its digits, in small letters or capitals, give it
/// back.
pub proof fn law_hexadecimal(n: nat, upper: bool)
    ensures
        crate::text::hex_text(n, upper).len() > 0,
        hex_value(crate::text::hex_text(n, upper)) == n,
    decreases n,
{
    let t = crate::text::hex_text(n, upper);
    if n < 16 {
        reveal_with_fuel(hex_value, 2);
        assert(t.drop_last() =~= Seq::empty());
    } else {
        law_hexadecimal(n / 16, upper);
        assert(t.drop_last() =~= crate::text::hex_text(n / 16, upper));
    }
}

/// A number is read from its digits alone: what has another character is none,
/// and neither is one that is too large.
pub proof fn law_read_number(s: Seq<char>, max: nat)
    requires
        s.len() > 0,
        s[0] != '+',
    ensures
        ({
            let r = crate::text::uint_of(s, max);
            &&& r matches Some(n) ==> n == ten_value(s) && n <= max
            &&& r is Some <==> (forall|i: int| 0 <= i < s.len() ==> '0' <= (#[trigger] s[i]) && s[i] <= '9') && ten_value(s)
                <= max
        }),
{
    if forall|i: int| 0 <= i < s.len() ==> '0' <= (#[trigger] s[i]) && s[i] <= '9' {
        lemma_ten(s);
        assert(crate::text::all_digits(s));
    } else {
        let i = choose|i: int| 0 <= i < s.len() && !('0' <= (#[trigger] s[i]) && s[i] <= '9');
        assert(!crate::text::is_digit(s[i]));
    }
}

proof fn lemma_ten(s: Seq<char>)
    requires
        forall|i: int| 0 <= i < s.len() ==> '0' <= (#[trigger] s[i]) && s[i] <= '9',
    ensures
        crate::text::dec_value(s) == ten_value(s),
    decreases s.len(),
{
    if s.len() > 0 {
        lemma_ten(s.drop_last());
    }
}

/// A text in a column: as wide as asked for, filled with blanks on the left or
/// on the right, and never cut.
pub proof fn law_columns(s: Seq<char>, width: nat)
    ensures
        ({
            let (r, l) = (crate::text::right_in(s, width), crate::text::left_in(s, width));
            let n: int = if s.len() < width {
                width as int
            } else {
                s.len() as int
            };
            &&& r.len() == n && l.len() == n
            &&& r.subrange(n - s.len(), n) == s
            &&& l.subrange(0, s.len() as int) == s
            &&& forall|i: int| 0 <= i < n - s.len() ==> #[trigger] r[i] == ' '
            &&& forall|i: int| s.len() <= i < n ==> #[trigger] l[i] == ' '
        }),
{
    let (r, l) = (crate::text::right_in(s, width), crate::text::left_in(s, width));
    assert(r.subrange(r.len() - s.len(), r.len() as int) =~= s);
    assert(l.subrange(0, s.len() as int) =~= s);
}

/// A text cut at every separator: the pieces of two texts with one between
/// them are the pieces of the one and then of the other.
#[verifier::spinoff_prover]
pub proof fn law_pieces_of_two(a: Seq<char>, sep: char, b: Seq<char>)
    ensures
        crate::text::pieces(a.push(sep) + b, sep) == crate::text::pieces(a, sep) + crate::text::pieces(b, sep),
    decreases b.len(),
{
    let s = a.push(sep) + b;
    let p = crate::text::pieces(a, sep);
    if b.len() == 0 {
        assert(s =~= a.push(sep));
        assert(s.drop_last() =~= a);
        assert(p.push(Seq::empty()) =~= p + crate::text::pieces(b, sep));
    } else {
        law_pieces_of_two(a, sep, b.drop_last());
        crate::text::lemma_pieces_nonempty(b.drop_last(), sep);
        assert(s.drop_last() =~= a.push(sep) + b.drop_last());
        let q = crate::text::pieces(b.drop_last(), sep);
        if b.last() == sep {
            assert((p + q).push(Seq::empty()) =~= p + q.push(Seq::empty()));
        } else {
            assert((p + q).update((p + q).len() - 1, (p + q).last().push(b.last())) =~= p + q.update(
                q.len() - 1,
                q.last().push(b.last()),
            ));
        }
    }
}

// ---------------------------------------------------------------------------
// The caret
// ---------------------------------------------------------------------------
/// The caret changes once 25 ticks have gone by since it last did, and not
/// before: drawn where it was not, erased where it was. After two changes it
/// is as it was.
pub proof fn law_caret_blinks(c: crate::shell::edit::Caret, now: u64, later: u64)
    ensures
        ({
            let (d, b) = crate::shell::edit::blink_spec(c, now);
            let (e, _) = crate::shell::edit::blink_spec(d, later);
            &&& now < c.last + 25 ==> d == c && b == crate::shell::edit::Blink::Stay
            &&& now >= c.last + 25 ==> d.on != c.on && d.last == now
            &&& b == crate::shell::edit::Blink::Draw <==> !c.on && d.on
            &&& b == crate::shell::edit::Blink::Erase <==> c.on && !d.on
            &&& now >= c.last + 25 && later >= now + 25 ==> e.on == c.on && e.last == later
        }),
{
}

// ---------------------------------------------------------------------------
// The contents of a file
// ---------------------------------------------------------------------------
/// What pieces of output say together.
pub open spec fn said(v: Seq<crate::console::OutV>) -> Seq<char>
    decreases v.len(),
{
    if v.len() == 0 {
        Seq::empty()
    } else {
        v[0].text + said(v.subrange(1, v.len() as int))
    }
}

proof fn lemma_said(a: Seq<crate::console::OutV>, b: Seq<crate::console::OutV>)
    ensures
        said(a + b) == said(a) + said(b),
    decreases a.len(),
{
    if a.len() == 0 {
        assert(a + b =~= b);
        assert(said(a) + said(b) =~= said(b));
    } else {
        let t = a.subrange(1, a.len() as int);
        assert((a + b).subrange(1, (a + b).len() as int) =~= t + b);
        lemma_said(t, b);
        assert(a[0].text + (said(t) + said(b)) =~= (a[0].text + said(t)) + said(b));
    }
}

proof fn lemma_chunks(b: Seq<u8>, i: int)
    requires
        0 <= i <= b.len(),
    ensures
        said(crate::shell::files::chunks(b, i)) == crate::shell::files::shown_text(b.subrange(i, b.len() as int)),
    decreases b.len() - i,
{
    let n = b.len() as int;
    if i < n {
        let e = crate::pixels::min(i + 256, n);
        lemma_chunks(b, e);
        let v = crate::shell::files::chunks(b, i);
        let t = crate::shell::files::chunks(b, e);
        assert(v.subrange(1, v.len() as int) =~= t);
        assert(crate::shell::files::shown_text(b.subrange(i, e)) + crate::shell::files::shown_text(b.subrange(e, n))
            =~= crate::shell::files::shown_text(b.subrange(i, n)));
    } else {
        assert(crate::shell::files::shown_text(b.subrange(i, n)) =~= Seq::<char>::empty());
    }
}

/// A file on the console: between two line ends, every byte of it in order,
/// as the letter that it is, or as a dot where it is none.
#[verifier::spinoff_prover]
pub proof fn law_contents_are_shown(b: Seq<u8>, k: int)
    requires
        0 <= k < b.len(),
    ensures
        ({
            let s = said(crate::shell::files::contents(b));
            &&& s.len() == b.len() + 2
            &&& s[0] == '\n' && s[b.len() as int + 1] == '\n'
            &&& s[k + 1] == if (0x20 <= b[k] && b[k] <= 0x7E) || b[k] == 10 || b[k] == 9 || b[k] == 13 {
                b[k] as char
            } else {
                '.'
            }
        }),
{
    reveal_strlit("\n");
    let a = seq![crate::console::colored("\n"@, crate::console::GLM_GRAY)];
    let c = crate::shell::files::chunks(b, 0);
    let z = seq![crate::console::plain("\n"@)];
    assert(crate::shell::files::contents(b) =~= a + c + z);
    lemma_said(a + c, z);
    lemma_said(a, c);
    lemma_chunks(b, 0);
    assert(b.subrange(0, b.len() as int) =~= b);
    assert(a.subrange(1, 1) =~= Seq::<crate::console::OutV>::empty());
    assert(z.subrange(1, 1) =~= Seq::<crate::console::OutV>::empty());
    assert(said(a.subrange(1, 1)) =~= Seq::<char>::empty());
    assert(said(z.subrange(1, 1)) =~= Seq::<char>::empty());
    assert(said(a) =~= "\n"@);
    assert(said(z) =~= "\n"@);
}

} // verus!
