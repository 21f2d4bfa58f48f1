//! Sorted lists of texts without repeats.

use crate::text::{comes_before, is_before, same, views};
use vstd::prelude::*;

verus! {

/// A sorted list with one more text in its place; a text that is there already is not repeated.
pub open spec fn inserted(s: Seq<Seq<char>>, x: Seq<char>) -> Seq<Seq<char>>
    decreases s.len(),
{
    if s.len() == 0 {
        seq![x]
    } else if s.last() == x {
        s
    } else if comes_before(s.last(), x) {
        s.push(x)
    } else {
        inserted(s.drop_last(), x).push(s.last())
    }
}

/// The texts of a list, sorted and without repeats.
pub open spec fn sorted_set(s: Seq<Seq<char>>) -> Seq<Seq<char>>
    decreases s.len(),
{
    if s.len() == 0 {
        Seq::empty()
    } else {
        inserted(sorted_set(s.drop_last()), s.last())
    }
}

/// Whether a list is in strictly ascending order.
pub open spec fn ascending(s: Seq<Seq<char>>) -> bool {
    forall|i: int, j: int| 0 <= i < j < s.len() ==> comes_before(#[trigger] s[i], #[trigger] s[j])
}

/// Different characters have different codes.
proof fn lemma_codes_differ(c: char, d: char)
    requires
        c != d,
    ensures
        c as u32 != d as u32,
{
}

/// Texts are in a strict total order.
pub proof fn comes_before_is_total(a: Seq<char>, b: Seq<char>)
    ensures
        !comes_before(a, a),
        comes_before(a, b) ==> !comes_before(b, a),
        comes_before(a, b) || a == b || comes_before(b, a),
    decreases a.len() + b.len(),
{
    if a.len() > 0 && b.len() > 0 && a[0] == b[0] {
        comes_before_is_total(a.drop_first(), b.drop_first());
        if a.drop_first() == b.drop_first() {
            assert(a =~= seq![a[0]] + a.drop_first());
            assert(b =~= seq![b[0]] + b.drop_first());
            assert(a == b);
        }
    } else if a.len() > 0 && b.len() > 0 {
        lemma_codes_differ(a[0], b[0]);
    }
    if a.len() > 0 {
        comes_before_is_irreflexive(a);
    } else if b.len() == 0 {
        assert(a =~= b);
    }
}

/// No text comes before itself.
pub proof fn comes_before_is_irreflexive(a: Seq<char>)
    ensures
        !comes_before(a, a),
    decreases a.len(),
{
    if a.len() > 0 {
        comes_before_is_irreflexive(a.drop_first());
    }
}

/// The order of texts is transitive.
pub proof fn comes_before_is_transitive(a: Seq<char>, b: Seq<char>, c: Seq<char>)
    requires
        comes_before(a, b),
        comes_before(b, c),
    ensures
        comes_before(a, c),
    decreases a.len(),
{
    if a.len() > 0 && b.len() > 0 && c.len() > 0 && a[0] == b[0] && b[0] == c[0] {
        comes_before_is_transitive(a.drop_first(), b.drop_first(), c.drop_first());
    }
}

/// Inserting keeps a list ascending and adds exactly the one text.
proof fn lemma_inserted(s: Seq<Seq<char>>, x: Seq<char>)
    requires
        ascending(s),
    ensures
        ascending(inserted(s, x)),
        forall|y: Seq<char>| #[trigger] inserted(s, x).contains(y) <==> s.contains(y) || y == x,
    decreases s.len(),
{
    if s.len() == 0 {
        assert(inserted(s, x)[0] == x);
    } else if s.last() == x {
        assert(s[s.len() - 1] == x);
    } else if comes_before(s.last(), x) {
        let r = s.push(x);
        assert forall|i: int, j: int| 0 <= i < j < r.len() implies comes_before(
            #[trigger] r[i],
            #[trigger] r[j],
        ) by {
            if j == s.len() && i < s.len() - 1 {
                comes_before_is_transitive(s[i], s[s.len() - 1], x);
            }
        }
        assert forall|y: Seq<char>| #[trigger] r.contains(y) <==> s.contains(y) || y == x by {
            if s.contains(y) {
                let k = choose|k: int| 0 <= k < s.len() && s[k] == y;
                assert(r[k] == y);
            }
            if y == x {
                assert(r[s.len() as int] == y);
            }
        }
    } else {
        let t = s.drop_last();
        let last = s.last();
        assert forall|i: int, j: int| 0 <= i < j < t.len() implies comes_before(
            #[trigger] t[i],
            #[trigger] t[j],
        ) by {
            assert(comes_before(s[i], s[j]));
        }
        lemma_inserted(t, x);
        let u = inserted(t, x);
        let r = u.push(last);
        comes_before_is_total(x, last);
        assert forall|i: int, j: int| 0 <= i < j < r.len() implies comes_before(
            #[trigger] r[i],
            #[trigger] r[j],
        ) by {
            if j == u.len() {
                assert(u.contains(u[i]));
                if u[i] != x {
                    let k = choose|k: int| 0 <= k < t.len() && t[k] == u[i];
                    assert(comes_before(s[k], s[s.len() - 1]));
                }
            }
        }
        assert forall|y: Seq<char>| #[trigger] r.contains(y) <==> s.contains(y) || y == x by {
            if s.contains(y) {
                let k = choose|k: int| 0 <= k < s.len() && s[k] == y;
                if k < t.len() {
                    assert(t[k] == y);
                    assert(u.contains(y));
                    let m = choose|m: int| 0 <= m < u.len() && u[m] == y;
                    assert(r[m] == y);
                } else {
                    assert(r[u.len() as int] == y);
                }
            }
            if y == x {
                assert(u.contains(y));
                let m = choose|m: int| 0 <= m < u.len() && u[m] == y;
                assert(r[m] == y);
            }
            if r.contains(y) {
                let m = choose|m: int| 0 <= m < r.len() && r[m] == y;
                if m < u.len() {
                    assert(u.contains(y));
                    if y != x {
                        let k = choose|k: int| 0 <= k < t.len() && t[k] == y;
                        assert(s[k] == y);
                    }
                } else {
                    assert(s[s.len() - 1] == y);
                }
            }
        }
    }
}

/// A sorted set is strictly ascending and holds exactly the texts of the list.
pub proof fn sorted_set_is_sorted_and_complete(s: Seq<Seq<char>>)
    ensures
        ascending(sorted_set(s)),
        forall|y: Seq<char>| #[trigger] sorted_set(s).contains(y) <==> s.contains(y),
    decreases s.len(),
{
    if s.len() > 0 {
        let t = s.drop_last();
        sorted_set_is_sorted_and_complete(t);
        lemma_inserted(sorted_set(t), s.last());
        assert forall|y: Seq<char>| #[trigger] sorted_set(s).contains(y) <==> s.contains(y) by {
            if s.contains(y) {
                let k = choose|k: int| 0 <= k < s.len() && s[k] == y;
                if k < t.len() {
                    assert(t[k] == y);
                }
            }
            if t.contains(y) {
                let k = choose|k: int| 0 <= k < t.len() && t[k] == y;
                assert(s[k] == y);
            }
            if y == s.last() {
                assert(s[s.len() - 1] == y);
            }
        }
    }
}

/// Inserts a text into a sorted list.
pub fn insert_sorted(list: &mut Vec<String>, x: String)
    ensures
        views(final(list)@) == inserted(views(old(list)@), x@),
{
    let ghost s = views(list@);
    let mut i: usize = list.len();
    proof {
        assert(s.take(i as int) =~= s);
        assert(inserted(s, x@) =~= inserted(s.take(i as int), x@) + s.skip(i as int));
    }
    while i > 0
        invariant
            i <= list.len(),
            s == views(list@),
            list@ == old(list)@,
            inserted(s, x@) == inserted(s.take(i as int), x@) + s.skip(i as int),
        decreases i,
    {
        proof {
            assert(s.take(i as int).last() == list@[i - 1]@);
            assert(s.take(i as int).drop_last() =~= s.take(i - 1));
        }
        if same(list[i - 1].as_str(), x.as_str()) {
            proof {
                assert(s.take(i as int) + s.skip(i as int) =~= s);
            }
            return;
        }
        if is_before(list[i - 1].as_str(), x.as_str()) {
            let ghost xv = x@;
            list.insert(i, x);
            proof {
                assert(views(list@) =~= s.take(i as int).push(xv) + s.skip(i as int));
            }
            return;
        }
        proof {
            assert(inserted(s.take(i - 1), x@).push(s[i - 1]) + s.skip(i as int) =~= inserted(
                s.take(i - 1),
                x@,
            ) + s.skip(i - 1));
        }
        i = i - 1;
    }
    let ghost xv = x@;
    list.insert(0, x);
    proof {
        assert(s.take(0) =~= Seq::<Seq<char>>::empty());
        assert(views(list@) =~= seq![xv] + s.skip(0));
    }
}

/// The texts of a list, sorted and without repeats.
pub fn sort_set(list: &Vec<String>) -> (out: Vec<String>)
    ensures
        views(out@) == sorted_set(views(list@)),
{
    let ghost all = views(list@);
    let mut out: Vec<String> = Vec::new();
    proof {
        assert(views(out@) =~= sorted_set(all.take(0)));
    }
    for i in 0..list.len()
        invariant
            all == views(list@),
            views(out@) == sorted_set(all.take(i as int)),
    {
        proof {
            assert(all.take(i + 1).drop_last() =~= all.take(i as int));
            assert(all.take(i + 1).last() == list@[i as int]@);
        }
        insert_sorted(&mut out, list[i].clone());
    }
    proof {
        assert(all.take(all.len() as int) =~= all);
    }
    out
}

} // verus!
