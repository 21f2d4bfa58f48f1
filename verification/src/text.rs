//! Text primitives over sequences of characters.
//!
//! The model of a `&str` or a `String` is its `Seq<char>`. Each function states its result as a
//! specification function over that model, so callers can reason about text without looking at
//! loops.

use vstd::prelude::*;

verus! {

/// `String::push`: appends the given character to the end of the string.
pub assume_specification[ String::push ](s: &mut String, ch: char)
    ensures
        final(s)@ == old(s)@.push(ch),
;

/// The models of a sequence of values, one for one.
pub open spec fn views<T: View>(s: Seq<T>) -> Seq<T::V> {
    Seq::new(s.len(), |i: int| s[i]@)
}

/// The model of an optional value.
pub open spec fn opt_view<T: View>(o: Option<T>) -> Option<T::V> {
    match o {
        Some(v) => Some(v@),
        None => None,
    }
}

/// The characters of a string, in order.
pub fn chars_of(s: &str) -> (out: Vec<char>)
    ensures
        out@ == s@,
{
    let mut out: Vec<char> = Vec::new();
    for c in it: s.chars()
        invariant
            it.seq() == s@,
            out@ == s@.take(it.index() as int),
    {
        out.push(c);
    }
    out
}

/// The string made of the characters `chars[from..to]`.
pub fn string_of_range(chars: &Vec<char>, from: usize, to: usize) -> (out: String)
    requires
        from <= to <= chars.len(),
    ensures
        out@ == chars@.subrange(from as int, to as int),
{
    let mut out: String = String::new();
    proof {
        assert(out@ =~= chars@.subrange(from as int, from as int));
    }
    for i in from..to
        invariant
            from <= to <= chars.len(),
            out@ == chars@.subrange(from as int, i as int),
    {
        out.push(chars[i]);
    }
    out
}

/// Whether the text is empty.
pub fn is_blank(s: &str) -> (r: bool)
    ensures
        r == (s@.len() == 0),
{
    chars_of(s).len() == 0
}

/// An owned copy of a string slice.
pub fn owned(s: &str) -> (out: String)
    ensures
        out@ == s@,
{
    s.to_string()
}

/// Whether two strings hold the same characters.
pub fn same(a: &str, b: &str) -> (r: bool)
    ensures
        r == (a@ == b@),
{
    let x = chars_of(a);
    let y = chars_of(b);
    if x.len() != y.len() {
        return false;
    }
    for i in 0..x.len()
        invariant
            x@ == a@,
            y@ == b@,
            x.len() == y.len(),
            forall|j: int| 0 <= j < i ==> x@[j] == y@[j],
    {
        if x[i] != y[i] {
            return false;
        }
    }
    proof {
        assert(a@ =~= b@);
    }
    true
}

/// The characters that Unicode gives the White_Space property.
pub open spec fn is_space(c: char) -> bool {
    let u = c as u32;
    ||| 9 <= u <= 13
    ||| u == 32
    ||| u == 0x85
    ||| u == 0xA0
    ||| u == 0x1680
    ||| 0x2000 <= u <= 0x200A
    ||| u == 0x2028
    ||| u == 0x2029
    ||| u == 0x202F
    ||| u == 0x205F
    ||| u == 0x3000
}

/// Whether a character is white space.
pub fn is_whitespace(c: char) -> (r: bool)
    ensures
        r == is_space(c),
{
    let u: u32 = c as u32;
    (9 <= u && u <= 13) || u == 32 || u == 0x85 || u == 0xA0 || u == 0x1680 || (0x2000 <= u && u
        <= 0x200A) || u == 0x2028 || u == 0x2029 || u == 0x202F || u == 0x205F || u == 0x3000
}

/// A text without its leading white space.
pub open spec fn trimmed_start(s: Seq<char>) -> Seq<char>
    decreases s.len(),
{
    if s.len() == 0 || !is_space(s[0]) {
        s
    } else {
        trimmed_start(s.drop_first())
    }
}

/// A text without its trailing white space.
pub open spec fn trimmed_end(s: Seq<char>) -> Seq<char>
    decreases s.len(),
{
    if s.len() == 0 || !is_space(s.last()) {
        s
    } else {
        trimmed_end(s.drop_last())
    }
}

/// A text without white space at either end.
pub open spec fn trimmed(s: Seq<char>) -> Seq<char> {
    trimmed_end(trimmed_start(s))
}

/// A text whose ends are no white space is not trimmed further.
pub proof fn trimming_is_idempotent(s: Seq<char>)
    ensures
        trimmed(trimmed(s)) == trimmed(s),
{
    let t = trimmed_start(s);
    lemma_trimmed_start(s);
    lemma_trimmed_end(t);
    let u = trimmed_end(t);
    if u.len() > 0 {
        assert(u[0] == t[0]);
    }
    assert(trimmed_start(u) == u);
    assert(trimmed_end(u) == u);
}

/// A text without its leading white space does not start with any.
proof fn lemma_trimmed_start(s: Seq<char>)
    ensures
        trimmed_start(s).len() > 0 ==> !is_space(trimmed_start(s)[0]),
    decreases s.len(),
{
    if s.len() > 0 && is_space(s[0]) {
        lemma_trimmed_start(s.drop_first());
    }
}

/// A text without its trailing white space does not end with any, and starts as before.
proof fn lemma_trimmed_end(s: Seq<char>)
    ensures
        trimmed_end(s).len() > 0 ==> !is_space(trimmed_end(s).last()) && trimmed_end(s)[0] == s[0],
        trimmed_end(s).len() <= s.len(),
    decreases s.len(),
{
    if s.len() > 0 && is_space(s.last()) {
        lemma_trimmed_end(s.drop_last());
    }
}

/// The text without white space at either end.
pub fn trim(s: &str) -> (out: String)
    ensures
        out@ == trimmed(s@),
{
    let chars = chars_of(s);
    let n = chars.len();
    let mut from: usize = 0;
    proof {
        assert(s@.subrange(0, n as int) =~= s@);
    }
    while from < n && is_whitespace(chars[from])
        invariant
            from <= n == chars.len(),
            chars@ == s@,
            trimmed_start(s@) == trimmed_start(s@.subrange(from as int, n as int)),
        decreases n - from,
    {
        proof {
            assert(s@.subrange(from as int, n as int).drop_first() =~= s@.subrange(
                from + 1,
                n as int,
            ));
        }
        from = from + 1;
    }
    let mut to: usize = n;
    while from < to && is_whitespace(chars[to - 1])
        invariant
            from <= to <= n == chars.len(),
            chars@ == s@,
            trimmed(s@) == trimmed_end(s@.subrange(from as int, to as int)),
        decreases to,
    {
        proof {
            assert(s@.subrange(from as int, to as int).drop_last() =~= s@.subrange(
                from as int,
                to - 1,
            ));
        }
        to = to - 1;
    }
    string_of_range(&chars, from, to)
}

/// The ASCII lower case of a character.
pub open spec fn lower_char(c: char) -> char {
    if 65 <= c as u32 <= 90 {
        ((c as u8 + 32) as u8) as char
    } else {
        c
    }
}

/// The ASCII lower case of a text.
pub open spec fn lowered(s: Seq<char>) -> Seq<char> {
    s.map_values(|c: char| lower_char(c))
}

/// The ASCII lower case of a character.
pub fn lowercase_char(c: char) -> (r: char)
    ensures
        r == lower_char(c),
{
    if c as u32 >= 65 && c as u32 <= 90 {
        ((c as u8) + 32) as char
    } else {
        c
    }
}

/// The text with its ASCII letters in lower case.
pub fn to_ascii_lowercase(s: &str) -> (out: String)
    ensures
        out@ == lowered(s@),
{
    let chars = chars_of(s);
    let mut out: String = String::new();
    for i in 0..chars.len()
        invariant
            chars@ == s@,
            out@ == lowered(s@.take(i as int)),
    {
        proof {
            assert(s@.take(i + 1) =~= s@.take(i as int).push(s@[i as int]));
        }
        out.push(lowercase_char(chars[i]));
    }
    proof {
        assert(s@.take(s@.len() as int) =~= s@);
    }
    out
}

/// Whether two texts are equal when ASCII letters are compared without case.
pub open spec fn same_ignoring_case(a: Seq<char>, b: Seq<char>) -> bool {
    lowered(a) == lowered(b)
}

/// Whether two texts are equal when ASCII letters are compared without case.
pub fn eq_ignore_ascii_case(a: &str, b: &str) -> (r: bool)
    ensures
        r == same_ignoring_case(a@, b@),
{
    let x = to_ascii_lowercase(a);
    let y = to_ascii_lowercase(b);
    x == y
}

/// The index of the first `c` in `s`, or the length of `s` where there is none.
pub open spec fn first_at(s: Seq<char>, c: char) -> int
    decreases s.len(),
{
    if s.len() == 0 || s[0] == c {
        0
    } else {
        1 + first_at(s.drop_first(), c)
    }
}

/// The index of the last `c` in `s`, or `-1` where there is none.
pub open spec fn last_at(s: Seq<char>, c: char) -> int
    decreases s.len(),
{
    if s.len() == 0 {
        -1
    } else if s.last() == c {
        s.len() - 1
    } else {
        last_at(s.drop_last(), c)
    }
}

/// What `first_at` means: everything before the index differs from `c`, and the index is either
/// the end or holds `c`.
pub proof fn lemma_first_at(s: Seq<char>, c: char)
    ensures
        0 <= first_at(s, c) <= s.len(),
        forall|j: int| 0 <= j < first_at(s, c) ==> s[j] != c,
        first_at(s, c) < s.len() ==> s[first_at(s, c)] == c,
        (first_at(s, c) < s.len()) == s.contains(c),
    decreases s.len(),
{
    if s.len() > 0 && s[0] != c {
        let t = s.drop_first();
        lemma_first_at(t, c);
        assert forall|j: int| 0 <= j < first_at(s, c) implies s[j] != c by {
            if j > 0 {
                assert(s[j] == t[j - 1]);
            }
        }
        if s.contains(c) {
            let k = choose|k: int| 0 <= k < s.len() && s[k] == c;
            assert(t[k - 1] == c);
        }
    } else if s.len() > 0 {
        assert(s[0] == c);
    }
}

/// What `last_at` means.
pub proof fn lemma_last_at(s: Seq<char>, c: char)
    ensures
        -1 <= last_at(s, c) < s.len(),
        forall|j: int| last_at(s, c) < j < s.len() ==> s[j] != c,
        last_at(s, c) >= 0 ==> s[last_at(s, c)] == c,
        (last_at(s, c) >= 0) == s.contains(c),
    decreases s.len(),
{
    if s.len() > 0 && s.last() != c {
        let t = s.drop_last();
        lemma_last_at(t, c);
        assert forall|j: int| last_at(s, c) < j < s.len() implies s[j] != c by {
            if j < s.len() - 1 {
                assert(s[j] == t[j]);
            }
        }
        if s.contains(c) {
            let k = choose|k: int| 0 <= k < s.len() && s[k] == c;
            assert(t[k] == c);
        }
        if t.contains(c) {
            let k = choose|k: int| 0 <= k < t.len() && t[k] == c;
            assert(s[k] == c);
        }
    } else if s.len() > 0 {
        assert(s[s.len() - 1] == c);
    }
}

/// The index of the first `c` in a vector of characters, or its length where there is none.
pub fn find_first(s: &Vec<char>, c: char) -> (r: usize)
    ensures
        r == first_at(s@, c),
{
    let mut i: usize = 0;
    while i < s.len() && s[i] != c
        invariant
            i <= s.len(),
            forall|j: int| 0 <= j < i ==> s@[j] != c,
        decreases s.len() - i,
    {
        i = i + 1;
    }
    proof {
        lemma_first_at(s@, c);
    }
    i
}

/// The index of the last `c` in a vector of characters, where there is one.
pub fn find_last(s: &Vec<char>, c: char) -> (r: Option<usize>)
    ensures
        r == (if last_at(s@, c) >= 0 {
            Some(last_at(s@, c) as usize)
        } else {
            None
        }),
        r is Some ==> r->0 < s.len() && r->0 == last_at(s@, c),
{
    let mut i: usize = s.len();
    proof {
        lemma_last_at(s@, c);
    }
    while i > 0
        invariant
            i <= s.len(),
            last_at(s@, c) < s@.len(),
            last_at(s@, c) >= 0 ==> s@[last_at(s@, c)] == c,
            forall|j: int| last_at(s@, c) < j < s@.len() ==> s@[j] != c,
            forall|j: int| i <= j < s@.len() ==> s@[j] != c,
        decreases i,
    {
        if s[i - 1] == c {
            return Some(i - 1);
        }
        i = i - 1;
    }
    None
}

/// The text before and the text after the first `c`, where there is one.
pub open spec fn cut_first(s: Seq<char>, c: char) -> Option<(Seq<char>, Seq<char>)> {
    if s.contains(c) {
        Some((s.take(first_at(s, c)), s.skip(first_at(s, c) + 1)))
    } else {
        None
    }
}

/// The text before and the text after the last `c`, where there is one.
pub open spec fn cut_last(s: Seq<char>, c: char) -> Option<(Seq<char>, Seq<char>)> {
    if s.contains(c) {
        Some((s.take(last_at(s, c)), s.skip(last_at(s, c) + 1)))
    } else {
        None
    }
}

/// The model of an optional pair of strings.
pub open spec fn pair_view(o: Option<(String, String)>) -> Option<(Seq<char>, Seq<char>)> {
    match o {
        Some(p) => Some((p.0@, p.1@)),
        None => None,
    }
}

/// Splits at the first `c`.
pub fn split_once(s: &str, c: char) -> (r: Option<(String, String)>)
    ensures
        pair_view(r) == cut_first(s@, c),
{
    let chars = chars_of(s);
    let i = find_first(&chars, c);
    proof {
        lemma_first_at(s@, c);
    }
    if i == chars.len() {
        None
    } else {
        let a = string_of_range(&chars, 0, i);
        let b = string_of_range(&chars, i + 1, chars.len());
        Some((a, b))
    }
}

/// Splits at the last `c`.
pub fn rsplit_once(s: &str, c: char) -> (r: Option<(String, String)>)
    ensures
        pair_view(r) == cut_last(s@, c),
{
    let chars = chars_of(s);
    proof {
        lemma_last_at(s@, c);
    }
    match find_last(&chars, c) {
        None => None,
        Some(i) => {
            let a = string_of_range(&chars, 0, i);
            let b = string_of_range(&chars, i + 1, chars.len());
            Some((a, b))
        },
    }
}

/// The index of the first white space in `s`, or the length of `s` where there is none.
pub open spec fn first_space(s: Seq<char>) -> int
    decreases s.len(),
{
    if s.len() == 0 || is_space(s[0]) {
        0
    } else {
        1 + first_space(s.drop_first())
    }
}

/// The text before and the text after the first white space, where there is some.
pub open spec fn cut_space(s: Seq<char>) -> Option<(Seq<char>, Seq<char>)> {
    if first_space(s) < s.len() {
        Some((s.take(first_space(s)), s.skip(first_space(s) + 1)))
    } else {
        None
    }
}

/// Splits at the first white space.
pub fn split_once_space(s: &str) -> (r: Option<(String, String)>)
    ensures
        pair_view(r) == cut_space(s@),
{
    let chars = chars_of(s);
    let mut i: usize = 0;
    proof {
        assert(s@.skip(0) =~= s@);
    }
    while i < chars.len() && !is_whitespace(chars[i])
        invariant
            chars@ == s@,
            i <= chars.len(),
            first_space(s@) == i + first_space(s@.skip(i as int)),
        decreases chars.len() - i,
    {
        proof {
            assert(s@.skip(i as int).drop_first() =~= s@.skip(i + 1));
        }
        i = i + 1;
    }
    if i == chars.len() {
        None
    } else {
        proof {
            assert(s@.skip(i as int)[0] == s@[i as int]);
        }
        let a = string_of_range(&chars, 0, i);
        let b = string_of_range(&chars, i + 1, chars.len());
        Some((a, b))
    }
}

/// The pieces of a text between the characters that `f` accepts, empty pieces too.
pub open spec fn split_where(s: Seq<char>, f: spec_fn(char) -> bool) -> Seq<Seq<char>>
    decreases s.len(),
{
    if s.len() == 0 {
        seq![Seq::<char>::empty()]
    } else {
        let before = split_where(s.drop_last(), f);
        if f(s.last()) {
            before.push(Seq::<char>::empty())
        } else {
            before.drop_last().push(before.last().push(s.last()))
        }
    }
}

/// The test for being the character `c`.
pub open spec fn is_char(c: char) -> spec_fn(char) -> bool {
    |x: char| x == c
}

/// The pieces of a text between occurrences of `c`, empty pieces too.
pub open spec fn split_parts(s: Seq<char>, c: char) -> Seq<Seq<char>> {
    split_where(s, is_char(c))
}

/// A text behind another one and a separator, without separators of its own, is one more piece.
proof fn lemma_split_append(a: Seq<char>, b: Seq<char>, c: char)
    requires
        !b.contains(c),
    ensures
        split_parts(a + seq![c] + b, c) == split_parts(a, c).push(b),
    decreases b.len(),
{
    let f = is_char(c);
    let s = a + seq![c] + b;
    if b.len() == 0 {
        assert(s.drop_last() =~= a);
        assert(s.last() == c);
        assert(b =~= Seq::<char>::empty());
    } else {
        let t = b.drop_last();
        assert(!t.contains(c)) by {
            if t.contains(c) {
                let i = choose|i: int| 0 <= i < t.len() && t[i] == c;
                assert(b[i] == c);
            }
        }
        lemma_split_append(a, t, c);
        assert(s.drop_last() =~= a + seq![c] + t);
        assert(s.last() == b.last());
        assert(b.contains(b.last())) by {
            assert(b[b.len() - 1] == b.last());
        }
        let before = split_parts(a, c).push(t);
        assert(before.drop_last() =~= split_parts(a, c));
        assert(before.last() == t);
        assert(t.push(b.last()) =~= b);
    }
}

/// A text without separators is one piece.
proof fn lemma_split_one(s: Seq<char>, c: char)
    requires
        !s.contains(c),
    ensures
        split_parts(s, c) == seq![s],
    decreases s.len(),
{
    if s.len() > 0 {
        let t = s.drop_last();
        assert(!t.contains(c)) by {
            if t.contains(c) {
                let i = choose|i: int| 0 <= i < t.len() && t[i] == c;
                assert(s[i] == c);
            }
        }
        lemma_split_one(t, c);
        assert(s.contains(s.last())) by {
            assert(s[s.len() - 1] == s.last());
        }
        assert(seq![t].drop_last() =~= Seq::empty());
        assert(t.push(s.last()) =~= s);
        assert(split_parts(s, c) =~= seq![s]);
    } else {
        assert(s =~= Seq::<char>::empty());
        assert(split_parts(s, c) =~= seq![s]);
    }
}

/// Texts without separators that are joined are split into the same texts.
pub proof fn join_then_split(parts: Seq<Seq<char>>, c: char)
    requires
        parts.len() > 0,
        forall|i: int| 0 <= i < parts.len() ==> !(#[trigger] parts[i]).contains(c),
    ensures
        split_parts(joined(parts, seq![c]), c) == parts,
    decreases parts.len(),
{
    if parts.len() == 1 {
        assert(!parts[0].contains(c));
        lemma_split_one(parts[0], c);
        assert(seq![parts[0]] =~= parts);
    } else {
        let fewer = parts.drop_last();
        assert forall|i: int| 0 <= i < fewer.len() implies !(#[trigger] fewer[i]).contains(c) by {
            assert(fewer[i] == parts[i]);
        }
        join_then_split(fewer, c);
        assert(!parts[parts.len() - 1].contains(c));
        lemma_split_append(joined(fewer, seq![c]), parts.last(), c);
        assert(fewer.push(parts.last()) =~= parts);
    }
}

/// A text behind a separator has an empty piece before its own.
pub proof fn leading_separator_gives_an_empty_piece(s: Seq<char>, c: char)
    ensures
        split_parts(seq![c] + s, c) == seq![Seq::<char>::empty()] + split_parts(s, c),
    decreases s.len(),
{
    let f = is_char(c);
    let all = seq![c] + s;
    if s.len() == 0 {
        assert(all.drop_last() =~= Seq::<char>::empty());
        assert(all.last() == c);
        assert(split_parts(all.drop_last(), c) =~= seq![Seq::<char>::empty()]);
        assert(split_parts(all, c) =~= seq![Seq::<char>::empty()] + split_parts(s, c));
    } else {
        let t = s.drop_last();
        leading_separator_gives_an_empty_piece(t, c);
        lemma_split_nonempty(t, f);
        assert(all.drop_last() =~= seq![c] + t);
        assert(all.last() == s.last());
        let before = seq![Seq::<char>::empty()] + split_parts(t, c);
        assert(before.last() == split_parts(t, c).last());
        assert(before.drop_last() =~= seq![Seq::<char>::empty()] + split_parts(t, c).drop_last());
        assert(split_parts(all, c) =~= seq![Seq::<char>::empty()] + split_parts(s, c));
    }
}

/// Joined texts start with the first ones joined and a separator.
pub proof fn joined_starts_with_its_first_parts(parts: Seq<Seq<char>>, sep: Seq<char>, r: int)
    requires
        1 <= r < parts.len(),
    ensures
        (joined(parts.take(r), sep) + sep).is_prefix_of(joined(parts, sep)),
    decreases parts.len(),
{
    let fewer = parts.drop_last();
    let whole = joined(parts, sep);
    if r == parts.len() - 1 {
        assert(parts.take(r) =~= fewer);
        let p = joined(fewer, sep) + sep;
        assert(whole.subrange(0, p.len() as int) =~= p);
    } else {
        joined_starts_with_its_first_parts(fewer, sep, r);
        assert(fewer.take(r) =~= parts.take(r));
        let p = joined(parts.take(r), sep) + sep;
        let q = joined(fewer, sep);
        assert(p == q.subrange(0, p.len() as int));
        assert(whole.subrange(0, p.len() as int) =~= p);
    }
}

/// The white-space separated words of a text.
pub open spec fn word_parts(s: Seq<char>) -> Seq<Seq<char>> {
    split_where(s, |x: char| is_space(x)).filter(|p: Seq<char>| p.len() > 0)
}

/// The parts joined with `sep` between them.
pub open spec fn joined(parts: Seq<Seq<char>>, sep: Seq<char>) -> Seq<char>
    decreases parts.len(),
{
    if parts.len() == 0 {
        Seq::empty()
    } else if parts.len() == 1 {
        parts[0]
    } else {
        joined(parts.drop_last(), sep) + sep + parts.last()
    }
}

/// A split has at least one piece.
pub proof fn lemma_split_nonempty(s: Seq<char>, f: spec_fn(char) -> bool)
    ensures
        split_where(s, f).len() >= 1,
    decreases s.len(),
{
    if s.len() > 0 {
        lemma_split_nonempty(s.drop_last(), f);
    }
}

/// Joining the pieces of a split with the separator gives the text back.
pub proof fn split_then_join(s: Seq<char>, c: char)
    ensures
        joined(split_parts(s, c), seq![c]) == s,
    decreases s.len(),
{
    let f = is_char(c);
    lemma_split_nonempty(s, f);
    if s.len() > 0 {
        let t = s.drop_last();
        split_then_join(t, c);
        lemma_split_nonempty(t, f);
        let before = split_where(t, f);
        let now = split_where(s, f);
        if s.last() == c {
            assert(now.drop_last() =~= before);
            assert(joined(now, seq![c]) =~= t.push(c));
        } else {
            let last = before.last().push(s.last());
            assert(now =~= before.drop_last().push(last));
            assert(now.drop_last() =~= before.drop_last());
            if before.len() == 1 {
                assert(joined(now, seq![c]) =~= t.push(s.last()));
            } else {
                assert(joined(now, seq![c]) =~= joined(before.drop_last(), seq![c]) + seq![c]
                    + last);
                assert(joined(before, seq![c]) == joined(before.drop_last(), seq![c]) + seq![c]
                    + before.last());
                assert(joined(now, seq![c]) =~= t.push(s.last()));
            }
        }
        assert(t.push(s.last()) =~= s);
    }
}

/// No piece of a split holds the separator.
pub proof fn split_pieces_are_free_of_separator(s: Seq<char>, c: char)
    ensures
        forall|i: int| 0 <= i < split_parts(s, c).len() ==> !(#[trigger] split_parts(
            s,
            c,
        )[i]).contains(c),
    decreases s.len(),
{
    let f = is_char(c);
    if s.len() > 0 {
        let t = s.drop_last();
        split_pieces_are_free_of_separator(t, c);
        lemma_split_nonempty(t, f);
        let before = split_where(t, f);
        assert(before == split_parts(t, c));
        let last = before.last();
        assert(!before[before.len() - 1].contains(c));
        if s.last() != c {
            assert forall|k: int| 0 <= k < last.push(s.last()).len() implies last.push(s.last())[k]
                != c by {
                if k < last.len() {
                    assert(last[k] == last.push(s.last())[k]);
                    assert(last.contains(last[k]));
                }
            }
        }
    }
}

/// The pieces of `s` between occurrences of `c`, empty pieces too.
pub fn split(s: &str, c: char) -> (out: Vec<String>)
    ensures
        views(out@) == split_parts(s@, c),
        out@.len() >= 1,
{
    let chars = chars_of(s);
    let ghost f = is_char(c);
    let mut out: Vec<String> = Vec::new();
    let mut piece: String = String::new();
    proof {
        assert(views(out@).push(piece@) =~= split_where(s@.take(0), f));
    }
    for i in 0..chars.len()
        invariant
            chars@ == s@,
            f == is_char(c),
            views(out@).push(piece@) == split_where(s@.take(i as int), f),
    {
        let ch = chars[i];
        let ghost before = views(out@).push(piece@);
        proof {
            assert(s@.take(i + 1).drop_last() =~= s@.take(i as int));
            assert(before.drop_last() =~= views(out@));
        }
        if ch == c {
            out.push(piece);
            piece = String::new();
            proof {
                assert(views(out@) =~= before);
                assert(piece@ =~= Seq::<char>::empty());
            }
        } else {
            piece.push(ch);
        }
    }
    out.push(piece);
    proof {
        assert(s@.take(s@.len() as int) =~= s@);
        assert(views(out@) =~= split_parts(s@, c));
    }
    out
}

/// The white-space separated words of `s`.
pub fn words(s: &str) -> (out: Vec<String>)
    ensures
        views(out@) == word_parts(s@),
{
    let chars = chars_of(s);
    let ghost f = |x: char| is_space(x);
    let ghost keep = |p: Seq<char>| p.len() > 0;
    let ghost mut done: Seq<Seq<char>> = Seq::empty();
    let mut out: Vec<String> = Vec::new();
    let mut piece: String = String::new();
    let mut empty: bool = true;
    proof {
        assert(done.push(piece@) =~= split_where(s@.take(0), f));
        assert(views(out@) =~= done.filter(keep));
    }
    for i in 0..chars.len()
        invariant
            chars@ == s@,
            f == (|x: char| is_space(x)),
            keep == (|p: Seq<char>| p.len() > 0),
            empty == (piece@.len() == 0),
            views(out@) == done.filter(keep),
            done.push(piece@) == split_where(s@.take(i as int), f),
    {
        let ch = chars[i];
        let ghost before = done.push(piece@);
        proof {
            assert(s@.take(i + 1).drop_last() =~= s@.take(i as int));
            assert(before.drop_last() =~= done);
            done.lemma_filter_push(piece@, keep);
        }
        if is_whitespace(ch) {
            proof {
                done = before;
            }
            if !empty {
                let ghost was = views(out@);
                let ghost p = piece@;
                out.push(piece);
                proof {
                    assert(views(out@) =~= was.push(p));
                }
            }
            piece = String::new();
            empty = true;
        } else {
            piece.push(ch);
            empty = false;
        }
    }
    proof {
        assert(s@.take(s@.len() as int) =~= s@);
        done.lemma_filter_push(piece@, keep);
    }
    if !empty {
        let ghost was = views(out@);
        let ghost p = piece@;
        out.push(piece);
        proof {
            assert(views(out@) =~= was.push(p));
        }
    }
    out
}

/// Joins the parts with `sep` between them.
pub fn join(parts: &Vec<String>, sep: &str) -> (out: String)
    ensures
        out@ == joined(views(parts@), sep@),
{
    let mut out: String = String::new();
    let ghost all = views(parts@);
    for i in 0..parts.len()
        invariant
            all == views(parts@),
            out@ == joined(all.take(i as int), sep@),
    {
        proof {
            assert(all.take(i + 1).drop_last() =~= all.take(i as int));
            assert(all.take(i + 1).last() == parts@[i as int]@);
        }
        if i > 0 {
            out.append(sep);
        }
        out.append(parts[i].as_str());
        proof {
            assert(out@ =~= joined(all.take(i + 1), sep@));
        }
    }
    proof {
        assert(all.take(all.len() as int) =~= all);
    }
    out
}

/// Whether `s` begins with `prefix`.
pub fn starts_with(s: &str, prefix: &str) -> (r: bool)
    ensures
        r == prefix@.is_prefix_of(s@),
{
    let a = chars_of(s);
    let b = chars_of(prefix);
    if b.len() > a.len() {
        return false;
    }
    for i in 0..b.len()
        invariant
            a@ == s@,
            b@ == prefix@,
            b.len() <= a.len(),
            forall|j: int| 0 <= j < i ==> a@[j] == b@[j],
    {
        if a[i] != b[i] {
            proof {
                assert(prefix@[i as int] != s@.subrange(0, prefix@.len() as int)[i as int]);
            }
            return false;
        }
    }
    proof {
        assert(prefix@ =~= s@.subrange(0, prefix@.len() as int));
    }
    true
}

/// Whether `s` ends with `suffix`.
pub fn ends_with(s: &str, suffix: &str) -> (r: bool)
    ensures
        r == suffix@.is_suffix_of(s@),
{
    let a = chars_of(s);
    let b = chars_of(suffix);
    if b.len() > a.len() {
        return false;
    }
    let d: usize = a.len() - b.len();
    for i in 0..b.len()
        invariant
            a@ == s@,
            b@ == suffix@,
            b.len() <= a.len(),
            d == a.len() - b.len(),
            forall|j: int| 0 <= j < i ==> a@[d + j] == b@[j],
    {
        if a[d + i] != b[i] {
            proof {
                assert(suffix@[i as int] != s@.subrange(d as int, s@.len() as int)[i as int]);
            }
            return false;
        }
    }
    proof {
        assert(suffix@ =~= s@.subrange(d as int, s@.len() as int));
    }
    true
}

/// What follows `prefix` in `s`, where `s` begins with it.
pub open spec fn after_prefix(s: Seq<char>, prefix: Seq<char>) -> Option<Seq<char>> {
    if prefix.is_prefix_of(s) {
        Some(s.skip(prefix.len() as int))
    } else {
        None
    }
}

/// What follows `prefix` in `s`, where `s` begins with it.
pub fn strip_prefix(s: &str, prefix: &str) -> (r: Option<String>)
    ensures
        opt_view(r) == after_prefix(s@, prefix@),
{
    if starts_with(s, prefix) {
        let a = chars_of(s);
        let n = chars_of(prefix).len();
        Some(string_of_range(&a, n, a.len()))
    } else {
        None
    }
}

/// Whether `part` stands in `s` at index `i`.
pub open spec fn stands_at(s: Seq<char>, part: Seq<char>, i: int) -> bool {
    0 <= i && i + part.len() <= s.len() && s.subrange(i, i + part.len()) == part
}

/// Whether `part` stands somewhere in `s`.
pub open spec fn holds_text(s: Seq<char>, part: Seq<char>) -> bool {
    exists|i: int| stands_at(s, part, i)
}

/// Whether `part` stands in `s` at index `i`.
pub fn matches_at(s: &Vec<char>, part: &Vec<char>, i: usize) -> (r: bool)
    requires
        i + part.len() <= s.len(),
    ensures
        r == stands_at(s@, part@, i as int),
{
    for j in 0..part.len()
        invariant
            i + part.len() <= s.len(),
            forall|k: int| 0 <= k < j ==> s@[i + k] == part@[k],
    {
        if s[i + j] != part[j] {
            proof {
                assert(s@.subrange(i as int, i + part@.len())[j as int] != part@[j as int]);
            }
            return false;
        }
    }
    proof {
        assert(s@.subrange(i as int, i + part@.len()) =~= part@);
    }
    true
}

/// Whether `part` stands somewhere in `s`.
pub fn contains(s: &str, part: &str) -> (r: bool)
    ensures
        r == holds_text(s@, part@),
{
    let a = chars_of(s);
    let b = chars_of(part);
    if b.len() > a.len() {
        return false;
    }
    let last: usize = a.len() - b.len();
    let mut i: usize = 0;
    while i <= last
        invariant
            a@ == s@,
            b@ == part@,
            last == a.len() - b.len(),
            b.len() <= a.len(),
            i <= last + 1,
            forall|k: int| 0 <= k < i ==> !stands_at(s@, part@, k),
        decreases last + 1 - i,
    {
        if matches_at(&a, &b, i) {
            return true;
        }
        if i == last {
            proof {
                assert forall|k: int| !stands_at(s@, part@, k) by {}
            }
            return false;
        }
        i = i + 1;
    }
    false
}

/// A text without the trailing occurrences of `c`.
pub open spec fn without_trailing(s: Seq<char>, c: char) -> Seq<char>
    decreases s.len(),
{
    if s.len() == 0 || s.last() != c {
        s
    } else {
        without_trailing(s.drop_last(), c)
    }
}

/// A text without the leading occurrences of `c`.
pub open spec fn without_leading(s: Seq<char>, c: char) -> Seq<char>
    decreases s.len(),
{
    if s.len() == 0 || s[0] != c {
        s
    } else {
        without_leading(s.drop_first(), c)
    }
}

/// The text without the trailing occurrences of `c`.
pub fn trim_end_matches(s: &str, c: char) -> (out: String)
    ensures
        out@ == without_trailing(s@, c),
{
    let chars = chars_of(s);
    let mut to: usize = chars.len();
    proof {
        assert(s@.take(to as int) =~= s@);
    }
    while to > 0 && chars[to - 1] == c
        invariant
            to <= chars.len(),
            chars@ == s@,
            without_trailing(s@, c) == without_trailing(s@.take(to as int), c),
        decreases to,
    {
        proof {
            assert(s@.take(to as int).drop_last() =~= s@.take(to - 1));
        }
        to = to - 1;
    }
    string_of_range(&chars, 0, to)
}

/// The text without the leading occurrences of `c`.
pub fn trim_start_matches(s: &str, c: char) -> (out: String)
    ensures
        out@ == without_leading(s@, c),
{
    let chars = chars_of(s);
    let n: usize = chars.len();
    let mut from: usize = 0;
    proof {
        assert(s@.skip(0) =~= s@);
    }
    while from < n && chars[from] == c
        invariant
            from <= n == chars.len(),
            chars@ == s@,
            without_leading(s@, c) == without_leading(s@.skip(from as int), c),
        decreases n - from,
    {
        proof {
            assert(s@.skip(from as int).drop_first() =~= s@.skip(from + 1));
        }
        from = from + 1;
    }
    string_of_range(&chars, from, n)
}

/// A text with every `c` replaced by `with`.
pub open spec fn replaced(s: Seq<char>, c: char, with: Seq<char>) -> Seq<char>
    decreases s.len(),
{
    if s.len() == 0 {
        s
    } else {
        replaced(s.drop_last(), c, with) + (if s.last() == c {
            with
        } else {
            seq![s.last()]
        })
    }
}

/// The text with every `c` replaced by `with`.
pub fn replace_char(s: &str, c: char, with: &str) -> (out: String)
    ensures
        out@ == replaced(s@, c, with@),
{
    let chars = chars_of(s);
    let mut out: String = String::new();
    for i in 0..chars.len()
        invariant
            chars@ == s@,
            out@ == replaced(s@.take(i as int), c, with@),
    {
        proof {
            assert(s@.take(i + 1).drop_last() =~= s@.take(i as int));
        }
        if chars[i] == c {
            out.append(with);
        } else {
            out.push(chars[i]);
        }
        proof {
            assert(out@ =~= replaced(s@.take(i + 1), c, with@));
        }
    }
    proof {
        assert(s@.take(s@.len() as int) =~= s@);
    }
    out
}

/// A line without the carriage return that ends it.
pub open spec fn without_return(s: Seq<char>) -> Seq<char> {
    if s.len() > 0 && s.last() == '\r' {
        s.drop_last()
    } else {
        s
    }
}

/// The lines of a text: each ends at a line feed, which is dropped together with a carriage
/// return before it; what follows the last line feed is a line unless it is empty.
pub open spec fn line_parts(s: Seq<char>) -> Seq<Seq<char>> {
    let parts = split_parts(s, '\n');
    let ended = parts.drop_last().map_values(|p: Seq<char>| without_return(p));
    if parts.last().len() == 0 {
        ended
    } else {
        ended.push(parts.last())
    }
}

/// The lines of a text.
pub fn lines(s: &str) -> (out: Vec<String>)
    ensures
        views(out@) == line_parts(s@),
{
    let parts = split(s, '\n');
    let ghost all = views(parts@);
    let ghost f = |p: Seq<char>| without_return(p);
    let n: usize = parts.len();
    let mut out: Vec<String> = Vec::new();
    for i in 0..(n - 1)
        invariant
            n == parts.len() >= 1,
            all == views(parts@),
            f == (|p: Seq<char>| without_return(p)),
            views(out@) == all.take(i as int).map_values(f),
    {
        let chars = chars_of(parts[i].as_str());
        let k: usize = if chars.len() > 0 && chars[chars.len() - 1] == '\r' {
            chars.len() - 1
        } else {
            chars.len()
        };
        let line = string_of_range(&chars, 0, k);
        let ghost was = views(out@);
        proof {
            assert(all[i as int] == chars@);
            assert(line@ =~= without_return(all[i as int]));
        }
        out.push(line);
        proof {
            assert(views(out@) =~= was.push(f(all[i as int])));
            assert(views(out@) =~= all.take(i + 1).map_values(f));
        }
    }
    let last = parts[n - 1].as_str();
    let rest = chars_of(last);
    proof {
        assert(all.drop_last() =~= all.take(n - 1));
        assert(all.last() == last@);
    }
    if rest.len() > 0 {
        out.push(owned(last));
    }
    proof {
        assert(views(out@) =~= line_parts(s@));
    }
    out
}

/// The digit with the value `d`, in bases up to ten.
pub open spec fn digit_char(d: int) -> char {
    ((48 + d) as u8) as char
}

/// A number written in base `base`, without leading zeros.
pub open spec fn number_text(n: nat, base: nat) -> Seq<char>
    decreases n,
    via number_text_decreases
{
    if base < 2 || n < base {
        seq![digit_char(n as int)]
    } else {
        number_text(n / base, base).push(digit_char((n % base) as int))
    }
}

#[via_fn]
proof fn number_text_decreases(n: nat, base: nat) {
    if base >= 2 && n >= base {
        lemma_quotient_smaller(n, base);
    }
}

proof fn lemma_quotient_smaller(n: nat, base: nat)
    requires
        base >= 2,
        n >= base,
    ensures
        n / base < n,
{
    assert(n / base < n) by (nonlinear_arith)
        requires
            base >= 2,
            n >= base,
    ;
}

/// A number written in decimal.
pub open spec fn decimal_text(n: nat) -> Seq<char> {
    number_text(n, 10)
}

/// A number written in base `base`.
pub fn number(n: u128, base: u128) -> (out: String)
    requires
        2 <= base <= 10,
    ensures
        out@ == number_text(n as nat, base as nat),
    decreases n,
{
    if n < base {
        let mut out: String = String::new();
        out.push((48 + (n as u8)) as char);
        proof {
            assert(out@ =~= seq![digit_char(n as int)]);
        }
        out
    } else {
        proof {
            lemma_quotient_smaller(n as nat, base as nat);
        }
        let mut out = number(n / base, base);
        out.push((48 + ((n % base) as u8)) as char);
        out
    }
}

/// A number written in decimal.
pub fn decimal(n: u64) -> (out: String)
    ensures
        out@ == decimal_text(n as nat),
{
    number(n as u128, 10)
}

/// Different numbers have different texts.
pub proof fn decimal_text_is_injective(a: nat, b: nat)
    requires
        decimal_text(a) == decimal_text(b),
    ensures
        a == b,
    decreases a,
{
    let x = decimal_text(a);
    let y = decimal_text(b);
    lemma_number_len(a);
    lemma_number_len(b);
    if a >= 10 && b >= 10 {
        assert(x.drop_last() =~= number_text(a / 10, 10));
        assert(y.drop_last() =~= number_text(b / 10, 10));
        decimal_text_is_injective(a / 10, b / 10);
        assert(x.last() == digit_char((a % 10) as int));
        assert(y.last() == digit_char((b % 10) as int));
    } else if a < 10 && b < 10 {
        assert(x[0] == digit_char(a as int));
        assert(y[0] == digit_char(b as int));
    }
}

/// A number is written in digits.
pub proof fn lemma_decimal_digits(n: nat)
    ensures
        forall|k: int|
            0 <= k < decimal_text(n).len() ==> '0' <= #[trigger] decimal_text(n)[k] <= '9',
    decreases n,
{
    if n >= 10 {
        lemma_decimal_digits(n / 10);
        let high = decimal_text(n / 10);
        assert forall|k: int| 0 <= k < decimal_text(n).len() implies '0' <= #[trigger] decimal_text(
            n,
        )[k] <= '9' by {
            if k < high.len() {
                assert(decimal_text(n)[k] == high[k]);
            }
        }
    }
}

/// A number below ten has one digit, any other more.
proof fn lemma_number_len(n: nat)
    ensures
        n < 10 ==> decimal_text(n).len() == 1,
        n >= 10 ==> decimal_text(n).len() >= 2,
    decreases n,
{
    if n >= 10 {
        lemma_number_len(n / 10);
    }
}

/// The value of a digit in bases up to sixteen, where the character is one.
pub open spec fn digit_value(c: char, base: int) -> Option<int> {
    let u = c as u32 as int;
    let v = if 48 <= u <= 57 {
        u - 48
    } else if 65 <= u <= 70 {
        u - 55
    } else if 97 <= u <= 102 {
        u - 87
    } else {
        base
    };
    if v < base {
        Some(v)
    } else {
        None
    }
}

/// The value of a row of digits, where it is one; the empty row has the value zero.
pub open spec fn digits_value(s: Seq<char>, base: int) -> Option<int>
    decreases s.len(),
{
    if s.len() == 0 {
        Some(0int)
    } else {
        match (digits_value(s.drop_last(), base), digit_value(s.last(), base)) {
            (Some(high), Some(low)) => Some(high * base + low),
            _ => None,
        }
    }
}

/// The number that a text writes in base `base`: an optional plus sign and at least one digit,
/// with a value of at most `max`.
pub open spec fn parsed_number(s: Seq<char>, base: int, max: int) -> Option<int> {
    let digits = if s.len() > 0 && s[0] == '+' {
        s.drop_first()
    } else {
        s
    };
    if digits.len() == 0 {
        None
    } else {
        match digits_value(digits, base) {
            Some(v) => if v <= max {
                Some(v)
            } else {
                None
            },
            None => None,
        }
    }
}

/// A longer row of digits has no smaller value, and a bad digit spoils every longer row.
pub proof fn lemma_digits_monotone(s: Seq<char>, k: int, base: int)
    requires
        0 <= k <= s.len(),
        base >= 2,
    ensures
        digits_value(s, base) is Some ==> digits_value(s.take(k), base) is Some && 0
            <= digits_value(s.take(k), base)->0 <= digits_value(s, base)->0,
    decreases s.len(),
{
    if k < s.len() {
        let t = s.drop_last();
        lemma_digits_monotone(t, k, base);
        assert(t.take(k) =~= s.take(k));
        if digits_value(s, base) is Some {
            let high = digits_value(t, base)->0;
            assert(high * base >= high) by (nonlinear_arith)
                requires
                    high >= 0,
                    base >= 2,
            ;
        }
    } else {
        assert(s.take(k) =~= s);
        if s.len() > 0 {
            lemma_digits_monotone(s.drop_last(), s.len() - 1, base);
            assert(s.drop_last().take(s.len() - 1) =~= s.drop_last());
            if digits_value(s, base) is Some {
                let high = digits_value(s.drop_last(), base)->0;
                assert(high * base >= 0) by (nonlinear_arith)
                    requires
                        high >= 0,
                        base >= 2,
                ;
            }
        }
    }
}

/// The value of a digit in base `base`, where the character is one.
pub fn digit(c: char, base: u64) -> (r: Option<u64>)
    requires
        2 <= base <= 16,
    ensures
        r is Some == digit_value(c, base as int) is Some,
        r is Some ==> r->0 == digit_value(c, base as int)->0 && r->0 < base,
{
    let u: u32 = c as u32;
    let v: u64 = if 48 <= u && u <= 57 {
        (u - 48) as u64
    } else if 65 <= u && u <= 70 {
        (u - 55) as u64
    } else if 97 <= u && u <= 102 {
        (u - 87) as u64
    } else {
        base
    };
    if v < base {
        Some(v)
    } else {
        None
    }
}

/// The number that `s` writes in base `base`, where it is at most `max`.
pub fn parse_number(s: &str, base: u64, max: u64) -> (r: Option<u64>)
    requires
        2 <= base <= 16,
    ensures
        r is Some == parsed_number(s@, base as int, max as int) is Some,
        r is Some ==> r->0 == parsed_number(s@, base as int, max as int)->0,
{
    let chars = chars_of(s);
    let from: usize = if chars.len() > 0 && chars[0] == '+' {
        1
    } else {
        0
    };
    let ghost digits = s@.skip(from as int);
    proof {
        assert(from == 0 ==> digits =~= s@);
        assert(from == 1 ==> digits =~= s@.drop_first());
    }
    if chars.len() == from {
        return None;
    }
    let mut value: u64 = 0;
    for i in from..chars.len()
        invariant
            chars@ == s@,
            from <= chars.len(),
            digits == s@.skip(from as int),
            2 <= base <= 16,
            value <= max,
            digits_value(digits.take(i - from), base as int) == Some(value as int),
            parsed_number(s@, base as int, max as int) == (match digits_value(digits, base as int) {
                Some(v) => if v <= max {
                    Some(v)
                } else {
                    None
                },
                None => None::<int>,
            }),
    {
        let ghost now = digits.take(i - from + 1);
        proof {
            assert(now.drop_last() =~= digits.take(i - from));
            assert(now.last() == s@[i as int]);
            lemma_digits_monotone(digits, i - from + 1, base as int);
        }
        match digit(chars[i], base) {
            None => {
                return None;
            },
            Some(d) => {
                proof {
                    assert(0 <= value * base <= 0xffff_ffff_ffff_ffff * 16) by (nonlinear_arith)
                        requires
                            0 <= value <= 0xffff_ffff_ffff_ffff,
                            2 <= base <= 16,
                    ;
                }
                let wide: u128 = (value as u128) * (base as u128) + (d as u128);
                if wide > max as u128 {
                    return None;
                }
                value = wide as u64;
            },
        }
    }
    proof {
        assert(digits.take(digits.len() as int) =~= digits);
    }
    Some(value)
}

/// Whether `a` comes before `b` in the order of their characters.
pub open spec fn comes_before(a: Seq<char>, b: Seq<char>) -> bool
    decreases a.len(),
{
    if b.len() == 0 {
        false
    } else if a.len() == 0 {
        true
    } else if a[0] != b[0] {
        (a[0] as u32) < (b[0] as u32)
    } else {
        comes_before(a.drop_first(), b.drop_first())
    }
}

/// Whether `a` comes before `b` in the order of their characters.
pub fn is_before(a: &str, b: &str) -> (r: bool)
    ensures
        r == comes_before(a@, b@),
{
    let x = chars_of(a);
    let y = chars_of(b);
    let mut i: usize = 0;
    proof {
        assert(a@.skip(0) =~= a@);
        assert(b@.skip(0) =~= b@);
    }
    while i < x.len() && i < y.len()
        invariant
            x@ == a@,
            y@ == b@,
            i <= x.len(),
            i <= y.len(),
            comes_before(a@, b@) == comes_before(a@.skip(i as int), b@.skip(i as int)),
        decreases x.len() - i,
    {
        if x[i] != y[i] {
            return (x[i] as u32) < (y[i] as u32);
        }
        proof {
            assert(a@.skip(i as int).drop_first() =~= a@.skip(i + 1));
            assert(b@.skip(i as int).drop_first() =~= b@.skip(i + 1));
        }
        i = i + 1;
    }
    i < y.len()
}

/// A number that is written in decimal is read back, with or without a zero before it, where it is
/// not too large.
pub proof fn decimal_is_read_back(n: nat, max: int)
    ensures
        parsed_number(decimal_text(n), 10, max) == (if n <= max {
            Some(n as int)
        } else {
            None
        }),
        parsed_number(seq!['0'] + decimal_text(n), 10, max) == (if n <= max {
            Some(n as int)
        } else {
            None
        }),
{
    let t = decimal_text(n);
    let z = seq!['0'] + t;
    lemma_decimal_digits(n);
    lemma_decimal_value(n);
    lemma_number_len(n);
    assert(t[0] != '+') by {
        assert('0' <= t[0] <= '9');
    }
    assert(z[0] == '0');
    lemma_leading_zero(t);
}

/// The value of the digits of a number is that number.
proof fn lemma_decimal_value(n: nat)
    ensures
        digits_value(decimal_text(n), 10) == Some(n as int),
    decreases n,
{
    let t = decimal_text(n);
    if n < 10 {
        assert(t =~= seq![digit_char(n as int)]);
        assert(t.drop_last() =~= Seq::<char>::empty());
        assert(t.last() == digit_char(n as int));
        assert(digits_value(t.drop_last(), 10) == Some(0int));
        assert(digit_value(t.last(), 10) == Some(n as int));
    } else {
        lemma_decimal_value(n / 10);
        let high = decimal_text(n / 10);
        let d = digit_char((n % 10) as int);
        assert(t == high.push(d));
        assert(t.drop_last() =~= high);
        assert(t.last() == d);
        assert(digit_value(d, 10) == Some((n % 10) as int));
    }
}

/// A zero before digits does not change their value.
proof fn lemma_leading_zero(t: Seq<char>)
    requires
        digits_value(t, 10) is Some,
    ensures
        digits_value(seq!['0'] + t, 10) == digits_value(t, 10),
    decreases t.len(),
{
    let z = seq!['0'] + t;
    if t.len() == 0 {
        assert(z.drop_last() =~= Seq::<char>::empty());
        assert(z.last() == '0');
        assert(digits_value(z.drop_last(), 10) == Some(0int));
    } else {
        lemma_leading_zero(t.drop_last());
        assert(z.drop_last() =~= seq!['0'] + t.drop_last());
        assert(z.last() == t.last());
    }
}

} // verus!
