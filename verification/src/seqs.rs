//! Items of a sequence that pass a test: the first one, the last one, and changing them.

use vstd::prelude::*;

verus! {

/// The index of the first item that passes the test, or the length where none does.
pub open spec fn first_where<T>(s: Seq<T>, p: spec_fn(T) -> bool) -> int
    decreases s.len(),
{
    if s.len() == 0 || p(s[0]) {
        0
    } else {
        1 + first_where(s.drop_first(), p)
    }
}

/// What `first_where` means.
pub proof fn lemma_first_where<T>(s: Seq<T>, p: spec_fn(T) -> bool)
    ensures
        0 <= first_where(s, p) <= s.len(),
        forall|j: int| 0 <= j < first_where(s, p) ==> !p(#[trigger] s[j]),
        first_where(s, p) < s.len() ==> p(s[first_where(s, p)]),
    decreases s.len(),
{
    if s.len() > 0 && !p(s[0]) {
        let t = s.drop_first();
        lemma_first_where(t, p);
        assert forall|j: int| 0 <= j < first_where(s, p) implies !p(#[trigger] s[j]) by {
            if j > 0 {
                assert(s[j] == t[j - 1]);
            }
        }
    }
}

/// An index whose item passes the test while none before it does is that of the first one.
pub proof fn lemma_first_where_is<T>(s: Seq<T>, p: spec_fn(T) -> bool, i: int)
    requires
        0 <= i <= s.len(),
        forall|j: int| 0 <= j < i ==> !p(#[trigger] s[j]),
        i < s.len() ==> p(s[i]),
    ensures
        first_where(s, p) == i,
{
    lemma_first_where(s, p);
    let k = first_where(s, p);
    if k < i {
        assert(!p(s[k]));
    }
}

/// The first item that passes the test.
pub open spec fn first_item<T>(s: Seq<T>, p: spec_fn(T) -> bool) -> Option<T> {
    if first_where(s, p) < s.len() {
        Some(s[first_where(s, p)])
    } else {
        None
    }
}

/// The index of the last item that passes the test, or `-1` where none does.
pub open spec fn last_where<T>(s: Seq<T>, p: spec_fn(T) -> bool) -> int
    decreases s.len(),
{
    if s.len() == 0 {
        -1
    } else if p(s.last()) {
        s.len() - 1
    } else {
        last_where(s.drop_last(), p)
    }
}

/// What `last_where` means.
pub proof fn lemma_last_where<T>(s: Seq<T>, p: spec_fn(T) -> bool)
    ensures
        -1 <= last_where(s, p) < s.len(),
        forall|j: int| last_where(s, p) < j < s.len() ==> !p(#[trigger] s[j]),
        last_where(s, p) >= 0 ==> p(s[last_where(s, p)]),
    decreases s.len(),
{
    if s.len() > 0 && !p(s.last()) {
        let t = s.drop_last();
        lemma_last_where(t, p);
        assert forall|j: int| last_where(s, p) < j < s.len() implies !p(#[trigger] s[j]) by {
            if j < s.len() - 1 {
                assert(s[j] == t[j]);
            }
        }
    }
}

/// An index whose item passes the test while none behind it does is that of the last one.
pub proof fn lemma_last_where_is<T>(s: Seq<T>, p: spec_fn(T) -> bool, i: int)
    requires
        -1 <= i < s.len(),
        forall|j: int| i < j < s.len() ==> !p(#[trigger] s[j]),
        i >= 0 ==> p(s[i]),
    ensures
        last_where(s, p) == i,
{
    lemma_last_where(s, p);
    let k = last_where(s, p);
    if k > i {
        assert(!p(s[k]));
    }
}

/// The last item that passes the test.
pub open spec fn last_item<T>(s: Seq<T>, p: spec_fn(T) -> bool) -> Option<T> {
    if last_where(s, p) >= 0 {
        Some(s[last_where(s, p)])
    } else {
        None
    }
}

/// The items, with a change made to those that pass the test.
pub open spec fn changed_where<T>(s: Seq<T>, p: spec_fn(T) -> bool, f: spec_fn(T) -> T) -> Seq<T> {
    Seq::new(
        s.len(),
        |i: int|
            if p(s[i]) {
                f(s[i])
            } else {
                s[i]
            },
    )
}

/// What an item is mapped to is among the mapped items.
pub proof fn lemma_filter_map_holds<A, B>(s: Seq<A>, f: spec_fn(A) -> Option<B>, i: int)
    requires
        0 <= i < s.len(),
        f(s[i]) is Some,
    ensures
        s.filter_map(f).contains(f(s[i])->0),
    decreases s.len(),
{
    let t = s.drop_last();
    let out = s.filter_map(f);
    let before = t.filter_map(f);
    if i < t.len() {
        assert(t[i] == s[i]);
        lemma_filter_map_holds(t, f, i);
        let k = choose|k: int| 0 <= k < before.len() && before[k] == f(s[i])->0;
        assert(out[k] == before[k]);
    } else {
        assert(out[before.len() as int] == f(s[i])->0);
    }
}

/// Where two items pass the test, at least two are left.
pub proof fn lemma_two_pass<T>(s: Seq<T>, p: spec_fn(T) -> bool, i: int, j: int)
    requires
        0 <= i < j < s.len(),
        p(s[i]),
        p(s[j]),
    ensures
        s.filter(p).len() >= 2,
    decreases s.len(),
{
    let t = s.drop_last();
    assert(t.push(s.last()) =~= s);
    t.lemma_filter_push(s.last(), p);
    if j < t.len() {
        lemma_two_pass(t, p, i, j);
    } else {
        t.lemma_filter_contains(p, i);
        assert(t.filter(p).len() >= 1);
    }
}

} // verus!
