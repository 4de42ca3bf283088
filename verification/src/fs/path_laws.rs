//! Paths: where a lookup leads depends on the parts between the slashes alone,
//! and not on their letter case.

use vstd::prelude::*;

use crate::fs::dir::EntV;
use crate::fs::fat32::FatV;

verus! {

/// Those of the texts that are not empty.
pub open spec fn filled(p: Seq<Seq<char>>) -> Seq<Seq<char>>
    decreases p.len(),
{
    if p.len() == 0 {
        Seq::empty()
    } else if p.last().len() == 0 {
        filled(p.drop_last())
    } else {
        filled(p.drop_last()).push(p.last())
    }
}

/// The parts of a path between its slashes, without the empty ones.
pub open spec fn components(path: Seq<char>) -> Seq<Seq<char>> {
    filled(crate::text::pieces(path, '/'))
}

/// The first entry of a listing with a name, ignoring ASCII letter case.
pub open spec fn found(list: Seq<EntV>, name: Seq<char>) -> Option<EntV> {
    match crate::seqs::first(list, crate::fs::fat32::named(name)) {
        Some(k) => Some(list[k]),
        None => None,
    }
}

/// The entry that the names `cs` lead to from `cur`: each is looked for in the
/// listing of the directory that was reached before it.
pub open spec fn walk(v: FatV, cur: EntV, cs: Seq<Seq<char>>) -> Option<EntV>
    decreases cs.len(),
{
    if cs.len() == 0 {
        Some(cur)
    } else if !cur.is_dir {
        None
    } else {
        match found(crate::fs::dir::parsed(v.dir(cur.first_cluster)), cs[0]) {
            Some(e) => walk(v, e, cs.skip(1)),
            None => None,
        }
    }
}

proof fn lemma_filled_concat(a: Seq<Seq<char>>, b: Seq<Seq<char>>)
    ensures
        filled(a + b) == filled(a) + filled(b),
    decreases b.len(),
{
    if b.len() == 0 {
        assert(a + b =~= a);
        assert(filled(a) + filled(b) =~= filled(a));
    } else {
        lemma_filled_concat(a, b.drop_last());
        assert((a + b).drop_last() =~= a + b.drop_last());
        assert((a + b).last() == b.last());
        assert(filled(a) + filled(b.drop_last()).push(b.last()) =~= (filled(a) + filled(b.drop_last())).push(b.last()));
    }
}

/// A slash parts the pieces before it from those behind it.
proof fn lemma_pieces_slash(a: Seq<char>, b: Seq<char>)
    ensures
        crate::text::pieces(a.push('/') + b, '/') == crate::text::pieces(a, '/') + crate::text::pieces(b, '/'),
    decreases b.len(),
{
    let x = crate::text::pieces(a, '/');
    if b.len() == 0 {
        assert(a.push('/') + b =~= a.push('/'));
        crate::text::lemma_pieces_sep(a, '/');
        assert(x.push(Seq::empty()) =~= x + crate::text::pieces(b, '/'));
    } else {
        let t = b.drop_last();
        lemma_pieces_slash(a, t);
        crate::text::lemma_pieces_nonempty(t, '/');
        assert((a.push('/') + b).drop_last() =~= a.push('/') + t);
        assert((a.push('/') + b).last() == b.last());
        let y = crate::text::pieces(t, '/');
        if b.last() == '/' {
            assert((x + y).push(Seq::empty()) =~= x + y.push(Seq::empty()));
        } else {
            assert((x + y).last() == y.last());
            assert((x + y).update((x + y).len() - 1, y.last().push(b.last())) =~= x + y.update(
                y.len() - 1,
                y.last().push(b.last()),
            ));
        }
    }
}

/// The components of two paths with a slash between them are those of the one
/// and then those of the other.
pub proof fn law_components_join(a: Seq<char>, b: Seq<char>)
    ensures
        components(a.push('/') + b) == components(a) + components(b),
{
    lemma_pieces_slash(a, b);
    lemma_filled_concat(crate::text::pieces(a, '/'), crate::text::pieces(b, '/'));
}

proof fn lemma_no_components(path: Seq<char>)
    requires
        path.len() == 0,
    ensures
        components(path) == Seq::<Seq<char>>::empty(),
{
    reveal_with_fuel(filled, 2);
    let p = crate::text::pieces(path, '/');
    assert(p.last().len() == 0);
    assert(p.drop_last() =~= Seq::empty());
}

proof fn lemma_components_trim(path: Seq<char>)
    ensures
        components(crate::fs::fat32::trim_slashes(path)) == components(path),
    decreases path.len(),
{
    if path.len() > 0 && path[0] == '/' {
        let rest = path.skip(1);
        lemma_components_trim(rest);
        law_components_join(Seq::empty(), rest);
        lemma_no_components(Seq::empty());
        assert(Seq::<char>::empty().push('/') + rest =~= path);
        assert(Seq::<Seq<char>>::empty() + components(rest) =~= components(rest));
    }
}

proof fn lemma_resolve_walks(v: FatV, cur: EntV, comps: Seq<Seq<char>>, i: int)
    requires
        0 <= i <= comps.len(),
    ensures
        crate::fs::fat32::resolve(v, cur, comps, i) == walk(v, cur, filled(comps.skip(i))),
    decreases comps.len() - i,
{
    let rest = comps.skip(i);
    if i < comps.len() {
        let one = seq![comps[i]];
        let tail = comps.skip(i + 1);
        assert(rest =~= one + tail);
        lemma_filled_concat(one, tail);
        assert(one.drop_last() =~= Seq::<Seq<char>>::empty());
        assert(one.last() == comps[i]);
        reveal_with_fuel(filled, 2);
        if comps[i].len() == 0 {
            assert(filled(one) + filled(tail) =~= filled(tail));
            lemma_resolve_walks(v, cur, comps, i + 1);
        } else {
            assert(filled(one) =~= one);
            let cs = filled(rest);
            assert(cs[0] == comps[i]);
            assert(cs.skip(1) =~= filled(tail));
            if cur.is_dir {
                let list = crate::fs::dir::parsed(v.dir(cur.first_cluster));
                if let Some(k) = crate::seqs::first(list, crate::fs::fat32::named(comps[i])) {
                    lemma_resolve_walks(v, list[k], comps, i + 1);
                }
            }
        }
    } else {
        assert(rest =~= Seq::<Seq<char>>::empty());
    }
}

/// A lookup walks the components of the path from the root on: it finds an
/// entry just if each component is found in the listing of a directory.
pub proof fn law_lookup_walks(v: FatV, path: Seq<char>)
    ensures
        crate::fs::fat32::lookup_spec(v, path) == walk(v, crate::fs::fat32::root_entry(v), components(path)),
{
    let p = crate::text::pieces(crate::fs::fat32::trim_slashes(path), '/');
    lemma_resolve_walks(v, crate::fs::fat32::root_entry(v), p, 0);
    assert(p.skip(0) =~= p);
    lemma_components_trim(path);
}

/// The empty path and a lone slash lead to the root.
pub proof fn law_lookup_root(v: FatV)
    ensures
        crate::fs::fat32::lookup_spec(v, ""@) == Some(crate::fs::fat32::root_entry(v)),
        crate::fs::fat32::lookup_spec(v, "/"@) == Some(crate::fs::fat32::root_entry(v)),
{
    reveal_strlit("");
    reveal_strlit("/");
    law_lookup_walks(v, ""@);
    law_lookup_walks(v, "/"@);
    lemma_no_components(""@);
    law_components_join(Seq::empty(), Seq::empty());
    lemma_no_components(Seq::empty());
    assert(Seq::<char>::empty().push('/') + Seq::<char>::empty() =~= "/"@);
}

/// An extra slash, beside another one or at either end, changes nothing.
pub proof fn law_lookup_extra_slash(v: FatV, a: Seq<char>, b: Seq<char>)
    ensures
        crate::fs::fat32::lookup_spec(v, a.push('/').push('/') + b) == crate::fs::fat32::lookup_spec(
            v,
            a.push('/') + b,
        ),
        crate::fs::fat32::lookup_spec(v, a.push('/')) == crate::fs::fat32::lookup_spec(v, a),
        crate::fs::fat32::lookup_spec(v, seq!['/'] + a) == crate::fs::fat32::lookup_spec(v, a),
{
    let none = Seq::<char>::empty();
    lemma_no_components(none);
    law_lookup_walks(v, a.push('/').push('/') + b);
    law_lookup_walks(v, a.push('/') + b);
    law_lookup_walks(v, a.push('/'));
    law_lookup_walks(v, seq!['/'] + a);
    law_lookup_walks(v, a);
    law_components_join(a.push('/'), b);
    law_components_join(a, b);
    law_components_join(a, none);
    law_components_join(none, a);
    assert(a.push('/') + none =~= a.push('/'));
    assert(none.push('/') + a =~= seq!['/'] + a);
    assert(components(a) + components(none) =~= components(a));
    assert(components(none) + components(a) =~= components(a));
}

/// Texts that differ in letter case at most, one by one.
spec fn alike(a: Seq<Seq<char>>, b: Seq<Seq<char>>) -> bool {
    &&& a.len() == b.len()
    &&& forall|i: int|
        0 <= i < a.len() ==> crate::fs::dir::upper_chars(#[trigger] a[i]) == crate::fs::dir::upper_chars(b[i])
}

proof fn lemma_upper_len(a: Seq<char>, b: Seq<char>)
    requires
        crate::fs::dir::upper_chars(a) == crate::fs::dir::upper_chars(b),
    ensures
        a.len() == b.len(),
        forall|i: int|
            0 <= i < a.len() ==> crate::fs::dir::upper_char(#[trigger] a[i]) == crate::fs::dir::upper_char(b[i]),
{
    assert(crate::fs::dir::upper_chars(a).len() == a.len());
    assert(crate::fs::dir::upper_chars(b).len() == b.len());
    assert forall|i: int| 0 <= i < a.len() implies crate::fs::dir::upper_char(#[trigger] a[i])
        == crate::fs::dir::upper_char(b[i]) by {
        assert(crate::fs::dir::upper_chars(a)[i] == crate::fs::dir::upper_char(a[i]));
        assert(crate::fs::dir::upper_chars(b)[i] == crate::fs::dir::upper_char(b[i]));
    }
}

proof fn lemma_upper_push(a: Seq<char>, c: char)
    ensures
        crate::fs::dir::upper_chars(a.push(c)) == crate::fs::dir::upper_chars(a).push(crate::fs::dir::upper_char(c)),
{
    assert(crate::fs::dir::upper_chars(a.push(c)) =~= crate::fs::dir::upper_chars(a).push(
        crate::fs::dir::upper_char(c),
    ));
}

proof fn lemma_pieces_alike(a: Seq<char>, b: Seq<char>)
    requires
        crate::fs::dir::upper_chars(a) == crate::fs::dir::upper_chars(b),
    ensures
        alike(crate::text::pieces(a, '/'), crate::text::pieces(b, '/')),
    decreases a.len(),
{
    lemma_upper_len(a, b);
    if a.len() > 0 {
        let (s, t) = (a.drop_last(), b.drop_last());
        assert(crate::fs::dir::upper_chars(s) =~= crate::fs::dir::upper_chars(t)) by {
            assert forall|i: int| 0 <= i < s.len() implies crate::fs::dir::upper_chars(s)[i]
                == crate::fs::dir::upper_chars(t)[i] by {
                assert(a[i] == s[i] && b[i] == t[i]);
            }
        }
        lemma_pieces_alike(s, t);
        crate::text::lemma_pieces_nonempty(s, '/');
        let (x, y) = (crate::text::pieces(s, '/'), crate::text::pieces(t, '/'));
        let (c, d) = (a.last(), b.last());
        assert(a[a.len() - 1] == c && b[b.len() - 1] == d);
        assert(crate::fs::dir::upper_char(c) == crate::fs::dir::upper_char(d));
        assert(c == '/' <==> d == '/');
        assert(x[x.len() - 1] == x.last() && y[y.len() - 1] == y.last());
        lemma_upper_push(x.last(), c);
        lemma_upper_push(y.last(), d);
        let (x1, y1) = (crate::text::pieces(a, '/'), crate::text::pieces(b, '/'));
        assert forall|i: int| 0 <= i < x1.len() implies crate::fs::dir::upper_chars(#[trigger] x1[i])
            == crate::fs::dir::upper_chars(y1[i]) by {
            if i < x.len() {
                assert(crate::fs::dir::upper_chars(x[i]) == crate::fs::dir::upper_chars(y[i]));
            }
        }
    }
}

proof fn lemma_filled_alike(a: Seq<Seq<char>>, b: Seq<Seq<char>>)
    requires
        alike(a, b),
    ensures
        alike(filled(a), filled(b)),
    decreases a.len(),
{
    if a.len() > 0 {
        let (s, t) = (a.drop_last(), b.drop_last());
        assert forall|i: int| 0 <= i < s.len() implies crate::fs::dir::upper_chars(#[trigger] s[i])
            == crate::fs::dir::upper_chars(t[i]) by {
            assert(a[i] == s[i] && b[i] == t[i]);
        }
        lemma_filled_alike(s, t);
        assert(a[a.len() - 1] == a.last() && b[b.len() - 1] == b.last());
        lemma_upper_len(a.last(), b.last());
        let (x, y) = (filled(a), filled(b));
        assert forall|i: int| 0 <= i < x.len() implies crate::fs::dir::upper_chars(#[trigger] x[i])
            == crate::fs::dir::upper_chars(y[i]) by {
            if i < filled(s).len() {
                assert(x[i] == filled(s)[i] && y[i] == filled(t)[i]);
            }
        }
    }
}

proof fn lemma_walk_alike(v: FatV, cur: EntV, a: Seq<Seq<char>>, b: Seq<Seq<char>>)
    requires
        alike(a, b),
    ensures
        walk(v, cur, a) == walk(v, cur, b),
    decreases a.len(),
{
    if a.len() > 0 && cur.is_dir {
        let list = crate::fs::dir::parsed(v.dir(cur.first_cluster));
        assert(crate::fs::dir::upper_chars(a[0]) == crate::fs::dir::upper_chars(b[0]));
        assert(crate::fs::fat32::named(a[0]) =~= crate::fs::fat32::named(b[0]));
        if let Some(e) = found(list, a[0]) {
            let (s, t) = (a.skip(1), b.skip(1));
            assert forall|i: int| 0 <= i < s.len() implies crate::fs::dir::upper_chars(#[trigger] s[i])
                == crate::fs::dir::upper_chars(t[i]) by {
                assert(a[i + 1] == s[i] && b[i + 1] == t[i]);
            }
            lemma_walk_alike(v, e, s, t);
        }
    }
}

/// Letter case does not change where a path leads.
pub proof fn law_lookup_letter_case(v: FatV, p: Seq<char>, q: Seq<char>)
    requires
        crate::fs::dir::upper_chars(p) == crate::fs::dir::upper_chars(q),
    ensures
        crate::fs::fat32::lookup_spec(v, p) == crate::fs::fat32::lookup_spec(v, q),
{
    law_lookup_walks(v, p);
    law_lookup_walks(v, q);
    lemma_pieces_alike(p, q);
    lemma_filled_alike(crate::text::pieces(p, '/'), crate::text::pieces(q, '/'));
    lemma_walk_alike(v, crate::fs::fat32::root_entry(v), components(p), components(q));
}

pub proof fn lemma_walk_concat(v: FatV, cur: EntV, a: Seq<Seq<char>>, b: Seq<Seq<char>>)
    ensures
        walk(v, cur, a + b) == match walk(v, cur, a) {
            Some(e) => walk(v, e, b),
            None => None,
        },
    decreases a.len(),
{
    if a.len() == 0 {
        assert(a + b =~= b);
    } else if cur.is_dir {
        let list = crate::fs::dir::parsed(v.dir(cur.first_cluster));
        assert((a + b)[0] == a[0]);
        assert((a + b).skip(1) =~= a.skip(1) + b);
        if let Some(e) = found(list, a[0]) {
            lemma_walk_concat(v, e, a.skip(1), b);
        }
    }
}

/// Where two paths with a slash between them lead: on from where the first one
/// leads.
pub proof fn law_lookup_goes_on(v: FatV, a: Seq<char>, b: Seq<char>)
    ensures
        crate::fs::fat32::lookup_spec(v, a.push('/') + b) == match crate::fs::fat32::lookup_spec(v, a) {
            Some(e) => walk(v, e, components(b)),
            None => None,
        },
{
    law_lookup_walks(v, a.push('/') + b);
    law_lookup_walks(v, a);
    law_components_join(a, b);
    lemma_walk_concat(v, crate::fs::fat32::root_entry(v), components(a), components(b));
}

/// Nothing is below a plain file.
pub proof fn law_nothing_below_a_file(v: FatV, a: Seq<char>, b: Seq<char>)
    requires
        crate::fs::fat32::lookup_spec(v, a) matches Some(e) && !e.is_dir,
        components(b).len() > 0,
    ensures
        crate::fs::fat32::lookup_spec(v, a.push('/') + b) is None,
{
    law_lookup_goes_on(v, a, b);
}

} // verus!
