//! File paths as text, read the way Unix reads them.
//!
//! A path is modelled by its components: the root `/`, a leading `.`, and the names between
//! separators. Repeated separators and inner `.` components carry no meaning.

use crate::text::{
    chars_of, is_blank, join_then_split, joined, leading_separator_gives_an_empty_piece, same,
    split, split_parts, views,
};
use vstd::prelude::*;

verus! {

/// Whether a path starts at the root.
pub open spec fn absolute(p: Seq<char>) -> bool {
    p.len() > 0 && p[0] == '/'
}

/// Whether a piece between separators is a component wherever it stands.
pub open spec fn is_component(piece: Seq<char>) -> bool {
    piece.len() > 0 && piece != seq!['.']
}

/// The test for pieces that are components wherever they stand.
pub open spec fn keeps_piece() -> spec_fn(Seq<char>) -> bool {
    |piece: Seq<char>| is_component(piece)
}

/// The components of a path.
pub open spec fn components(p: Seq<char>) -> Seq<Seq<char>> {
    let pieces = split_parts(p, '/');
    let lead = if absolute(p) {
        seq![seq!['/']]
    } else if pieces[0] == seq!['.'] {
        seq![seq!['.']]
    } else {
        Seq::empty()
    };
    lead + pieces.filter(keeps_piece())
}

/// The text of a path with the given components.
pub open spec fn path_text(parts: Seq<Seq<char>>) -> Seq<char> {
    if parts.len() > 0 && parts[0] == seq!['/'] {
        seq!['/'] + joined(parts.drop_first(), seq!['/'])
    } else {
        joined(parts, seq!['/'])
    }
}

/// A path without repeated separators, trailing separators and inner `.` components.
pub open spec fn normalized(p: Seq<char>) -> Seq<char> {
    path_text(components(p))
}

/// Whether `p` is `prefix` or lies under it.
pub open spec fn at_or_under(p: Seq<char>, prefix: Seq<char>) -> bool {
    components(prefix).is_prefix_of(components(p))
}

/// Whether `p` lies under `prefix` without being it.
pub open spec fn strictly_under(p: Seq<char>, prefix: Seq<char>) -> bool {
    at_or_under(p, prefix) && components(p) != components(prefix)
}

/// A text of one character.
fn single(c: char) -> (r: String)
    ensures
        r@ == seq![c],
{
    let mut r = String::new();
    r.push(c);
    proof {
        assert(r@ =~= seq![c]);
    }
    r
}

/// Whether a path starts at the root.
pub fn is_absolute(p: &str) -> (r: bool)
    ensures
        r == absolute(p@),
{
    let chars = chars_of(p);
    chars.len() > 0 && chars[0] == '/'
}

/// The components of a path.
pub fn components_of(p: &str) -> (out: Vec<String>)
    ensures
        views(out@) == components(p@),
{
    let pieces = split(p, '/');
    let ghost all = views(pieces@);
    let dot = single('.');
    let mut out: Vec<String> = Vec::new();
    proof {
        assert(all[0] == pieces@[0]@);
    }
    if is_absolute(p) {
        out.push(single('/'));
    } else if same(pieces[0].as_str(), dot.as_str()) {
        out.push(single('.'));
    }
    let ghost lead = views(out@);
    proof {
        if absolute(p@) {
            assert(lead =~= seq![seq!['/']]);
        } else if all[0] == seq!['.'] {
            assert(lead =~= seq![seq!['.']]);
        } else {
            assert(lead =~= Seq::<Seq<char>>::empty());
        }
        assert(all.take(0).filter(keeps_piece()) =~= Seq::<Seq<char>>::empty());
        assert(lead =~= lead + all.take(0).filter(keeps_piece()));
    }
    for i in 0..pieces.len()
        invariant
            all == views(pieces@),
            dot@ == seq!['.'],
            views(out@) == lead + all.take(i as int).filter(keeps_piece()),
    {
        let piece = pieces[i].as_str();
        let ghost was = views(out@);
        proof {
            assert(all.take(i + 1) =~= all.take(i as int).push(all[i as int]));
            all.take(i as int).lemma_filter_push(all[i as int], keeps_piece());
            assert(all[i as int] == piece@);
        }
        if !is_blank(piece) && !same(piece, dot.as_str()) {
            let item = pieces[i].clone();
            out.push(item);
            proof {
                assert(views(out@) =~= was.push(piece@));
                assert(views(out@) =~= lead + all.take(i + 1).filter(keeps_piece()));
            }
        }
    }
    proof {
        assert(all.take(all.len() as int) =~= all);
    }
    out
}

/// The text of a path with the given components.
pub fn text_of_components(parts: &Vec<String>) -> (r: String)
    ensures
        r@ == path_text(views(parts@)),
{
    let root = single('/');
    let ghost all = views(parts@);
    if parts.len() > 0 && same(parts[0].as_str(), root.as_str()) {
        let mut rest: Vec<String> = Vec::new();
        for i in 1..parts.len()
            invariant
                parts.len() >= 1,
                rest.len() == i - 1,
                forall|j: int| 0 <= j < i - 1 ==> (#[trigger] rest@[j])@ == parts@[j + 1]@,
        {
            let item = parts[i].clone();
            rest.push(item);
        }
        proof {
            assert(all[0] == parts@[0]@);
            assert(views(rest@) =~= all.drop_first());
        }
        let mut r = single('/');
        r.append(crate::text::join(&rest, root.as_str()).as_str());
        r
    } else {
        proof {
            if all.len() > 0 {
                assert(all[0] == parts@[0]@);
            }
        }
        crate::text::join(parts, root.as_str())
    }
}

/// The path without repeated separators, trailing separators and inner `.` components.
pub fn normalize_lossy(p: &str) -> (r: String)
    ensures
        r@ == normalized(p@),
{
    text_of_components(&components_of(p))
}

/// Whether two lists of texts are equal.
pub fn same_list(a: &Vec<String>, b: &Vec<String>) -> (r: bool)
    ensures
        r == (views(a@) == views(b@)),
{
    if a.len() != b.len() {
        proof {
            assert(views(a@).len() != views(b@).len());
        }
        return false;
    }
    for i in 0..a.len()
        invariant
            a.len() == b.len(),
            forall|j: int| 0 <= j < i ==> views(a@)[j] == views(b@)[j],
    {
        if !same(a[i].as_str(), b[i].as_str()) {
            proof {
                assert(views(a@)[i as int] != views(b@)[i as int]);
            }
            return false;
        }
    }
    proof {
        assert(views(a@) =~= views(b@));
    }
    true
}

/// Whether the list `a` begins with the list `prefix`.
pub fn begins_with(a: &Vec<String>, prefix: &Vec<String>) -> (r: bool)
    ensures
        r == views(prefix@).is_prefix_of(views(a@)),
{
    if prefix.len() > a.len() {
        return false;
    }
    for i in 0..prefix.len()
        invariant
            prefix.len() <= a.len(),
            forall|j: int| 0 <= j < i ==> views(a@)[j] == views(prefix@)[j],
    {
        if !same(a[i].as_str(), prefix[i].as_str()) {
            proof {
                assert(views(prefix@)[i as int] != views(a@).subrange(
                    0,
                    prefix@.len() as int,
                )[i as int]);
            }
            return false;
        }
    }
    proof {
        assert(views(prefix@) =~= views(a@).subrange(0, prefix@.len() as int));
    }
    true
}

/// Whether `p` is `prefix` or lies under it.
pub fn path_starts_with(p: &str, prefix: &str) -> (r: bool)
    ensures
        r == at_or_under(p@, prefix@),
{
    begins_with(&components_of(p), &components_of(prefix))
}

/// Whether `p` lies under `prefix` without being it.
pub fn path_has_prefix(p: &str, prefix: &str) -> (r: bool)
    ensures
        r == strictly_under(p@, prefix@),
{
    let a = components_of(p);
    let b = components_of(prefix);
    begins_with(&a, &b) && !same_list(&a, &b)
}

/// A path followed by a relative one; an absolute second path replaces the first.
pub open spec fn joined_path(base: Seq<char>, rel: Seq<char>) -> Seq<char> {
    if absolute(rel) || base.len() == 0 {
        rel
    } else if base.last() == '/' {
        base + rel
    } else {
        base.push('/') + rel
    }
}

/// A path followed by a relative one.
pub fn join_path(base: &str, rel: &str) -> (r: String)
    ensures
        r@ == joined_path(base@, rel@),
{
    let b = chars_of(base);
    if is_absolute(rel) || b.len() == 0 {
        return rel.to_string();
    }
    let mut r = base.to_string();
    if b[b.len() - 1] != '/' {
        r.push('/');
    }
    r.append(rel);
    r
}

/// Lying at or under a path is transitive.
pub proof fn at_or_under_is_transitive(a: Seq<char>, b: Seq<char>, c: Seq<char>)
    requires
        at_or_under(a, b),
        at_or_under(b, c),
    ensures
        at_or_under(a, c),
{
    let x = components(a);
    let y = components(b);
    let z = components(c);
    assert(y == x.subrange(0, y.len() as int));
    assert(z == y.subrange(0, z.len() as int));
    assert(z =~= x.subrange(0, z.len() as int));
}

/// No path lies strictly under itself, nor two paths under each other.
pub proof fn strictly_under_is_a_strict_order(a: Seq<char>, b: Seq<char>)
    ensures
        !strictly_under(a, a),
        strictly_under(a, b) ==> !strictly_under(b, a),
{
    if strictly_under(a, b) && at_or_under(b, a) {
        let x = components(a);
        let y = components(b);
        assert(y == x.subrange(0, y.len() as int));
        assert(x == y.subrange(0, x.len() as int));
        assert(x =~= y);
    }
}

/// Whether texts are names in a path: none is empty, stands for the same place, or holds a separator.
pub open spec fn are_names(parts: Seq<Seq<char>>) -> bool {
    forall|i: int|
        0 <= i < parts.len() ==> (#[trigger] parts[i]).len() > 0 && parts[i] != seq!['.']
            && !parts[i].contains('/')
}

/// Where all items pass the test, all are left.
proof fn lemma_filter_keeps_all<T>(items: Seq<T>, keep: spec_fn(T) -> bool)
    requires
        forall|i: int| 0 <= i < items.len() ==> keep(#[trigger] items[i]),
    ensures
        items.filter(keep) == items,
    decreases items.len(),
{
    reveal(Seq::filter);
    if items.len() > 0 {
        let fewer = items.drop_last();
        assert forall|i: int| 0 <= i < fewer.len() implies keep(#[trigger] fewer[i]) by {
            assert(fewer[i] == items[i]);
        }
        lemma_filter_keeps_all(fewer, keep);
        assert(keep(items[items.len() - 1]));
        assert(fewer.push(items.last()) =~= items);
    } else {
        assert(items.filter(keep) =~= items);
    }
}

/// The components of a path that is written with a separator before each of its names are the root
/// and these names.
pub proof fn written_paths_have_their_names_as_components(parts: Seq<Seq<char>>)
    requires
        parts.len() > 0,
        are_names(parts),
    ensures
        components(seq!['/'] + joined(parts, seq!['/'])) == seq![seq!['/']] + parts,
{
    let text = joined(parts, seq!['/']);
    let p = seq!['/'] + text;
    let keep = keeps_piece();
    assert forall|i: int| 0 <= i < parts.len() implies !(#[trigger] parts[i]).contains('/') by {}
    join_then_split(parts, '/');
    leading_separator_gives_an_empty_piece(text, '/');
    assert forall|i: int| 0 <= i < parts.len() implies keep(#[trigger] parts[i]) by {}
    lemma_filter_keeps_all(parts, keep);
    parts.lemma_filter_prepend(Seq::<char>::empty(), keep);
    assert(Seq::<Seq<char>>::empty() + parts =~= parts);
    assert(absolute(p));
}

/// Of two paths that are written with a separator before each of their names, one is the other or
/// lies under it exactly when its names begin with the other's.
pub proof fn written_paths_lie_under_their_beginnings(a: Seq<Seq<char>>, b: Seq<Seq<char>>)
    requires
        a.len() > 0,
        b.len() > 0,
        are_names(a),
        are_names(b),
    ensures
        at_or_under(
            seq!['/'] + joined(a, seq!['/']),
            seq!['/'] + joined(b, seq!['/']),
        ) == (b.len() <= a.len() && a.take(b.len() as int) == b),
        strictly_under(
            seq!['/'] + joined(a, seq!['/']),
            seq!['/'] + joined(b, seq!['/']),
        ) == (b.len() < a.len() && a.take(b.len() as int) == b),
{
    written_paths_have_their_names_as_components(a);
    written_paths_have_their_names_as_components(b);
    let root = seq![seq!['/']];
    let x = root + a;
    let y = root + b;
    if b.len() <= a.len() {
        assert(x.subrange(0, y.len() as int) =~= root + a.take(b.len() as int));
        if a.take(b.len() as int) == b {
            assert(y.is_prefix_of(x));
        }
        if y.is_prefix_of(x) {
            assert(a.take(b.len() as int) =~= b) by {
                assert forall|i: int| 0 <= i < b.len() implies a[i] == b[i] by {
                    assert(y[i + 1] == b[i]);
                    assert(x[i + 1] == a[i]);
                    assert(x.subrange(0, y.len() as int)[i + 1] == y[i + 1]);
                }
            }
        }
        if a.len() == b.len() {
            assert(a.take(b.len() as int) =~= a);
        } else {
            assert(x.len() != y.len());
        }
    }
}

} // verus!
