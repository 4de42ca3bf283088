//! Searching and collecting over sequences.

use vstd::prelude::*;

verus! {

/// The first index at or after `i` whose element satisfies `p`.
pub open spec fn first_from<T>(s: Seq<T>, p: spec_fn(T) -> bool, i: int) -> Option<int>
    decreases s.len() - i,
{
    if i < 0 || i >= s.len() {
        None
    } else if p(s[i]) {
        Some(i)
    } else {
        first_from(s, p, i + 1)
    }
}

/// The first index whose element satisfies `p`.
pub open spec fn first<T>(s: Seq<T>, p: spec_fn(T) -> bool) -> Option<int> {
    first_from(s, p, 0)
}

/// What `first_from` finds: the element satisfies `p` and none before it does.
pub proof fn lemma_first_from<T>(s: Seq<T>, p: spec_fn(T) -> bool, i: int)
    requires
        0 <= i,
    ensures
        first_from(s, p, i) matches Some(k) ==> i <= k < s.len() && p(s[k]) && (forall|j: int|
            i <= j < k ==> !p(#[trigger] s[j])),
        first_from(s, p, i) is None ==> (forall|j: int| i <= j < s.len() ==> !p(#[trigger] s[j])),
    decreases s.len() - i,
{
    if i < s.len() && !p(s[i]) {
        lemma_first_from(s, p, i + 1);
    }
}

/// The first index is the one that satisfies `p` with none before it.
pub proof fn lemma_first_is<T>(s: Seq<T>, p: spec_fn(T) -> bool, i: int, k: int)
    requires
        0 <= i <= k < s.len(),
        p(s[k]),
        forall|j: int| i <= j < k ==> !p(#[trigger] s[j]),
    ensures
        first_from(s, p, i) == Some(k),
    decreases k - i,
{
    if i < k {
        assert(!p(s[i]));
        lemma_first_is(s, p, i + 1, k);
    }
}

/// Nothing is found where no element satisfies `p`.
pub proof fn lemma_first_none<T>(s: Seq<T>, p: spec_fn(T) -> bool, i: int)
    requires
        0 <= i,
        forall|j: int| i <= j < s.len() ==> !p(#[trigger] s[j]),
    ensures
        first_from(s, p, i) is None,
    decreases s.len() - i,
{
    if i < s.len() {
        assert(!p(s[i]));
        lemma_first_none(s, p, i + 1);
    }
}

/// The images under `f` of the first `n` elements that have one, in order.
pub open spec fn collect_some<T, U>(s: Seq<T>, f: spec_fn(int, T) -> Option<U>, n: int) -> Seq<U>
    decreases n,
{
    if n <= 0 {
        Seq::empty()
    } else {
        match f(n - 1, s[n - 1]) {
            Some(u) => collect_some(s, f, n - 1).push(u),
            None => collect_some(s, f, n - 1),
        }
    }
}

} // verus!
