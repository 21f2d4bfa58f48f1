//! Byte sequences: searching, cutting, and the two ways of reading bytes as text.

use crate::text::{opt_view, views};
use vstd::prelude::*;
use vstd::utf8::{decode_utf8, encode_utf8, valid_utf8};

verus! {

/// The text that `String::from_utf8_lossy` makes of a byte sequence.
pub uninterp spec fn utf8_lossy(bytes: Seq<u8>) -> Seq<char>;

/// `String::from_utf8_lossy`: the bytes as text, with U+FFFD in place of what is not UTF-8. Bytes
/// that are UTF-8 come back as the text that they encode; how ill-formed bytes are grouped into
/// replacement characters is left to the name.
#[verifier::external_body]
pub(crate) fn from_utf8_lossy(bytes: &[u8]) -> (r: String)
    ensures
        r@ == utf8_lossy(bytes@),
        valid_utf8(bytes@) ==> encode_utf8(r@) == bytes@,
{
    String::from_utf8_lossy(bytes).into_owned()
}

/// `String::from_utf8`: the text that the bytes encode, where they are UTF-8.
#[verifier::external_body]
pub(crate) fn from_utf8(bytes: Vec<u8>) -> (r: Option<String>)
    ensures
        r is Some == valid_utf8(bytes@),
        r is Some ==> encode_utf8(r->0@) == bytes@,
{
    String::from_utf8(bytes).ok()
}

/// The text that UTF-8 bytes encode, where they are UTF-8.
pub open spec fn utf8_strict(bytes: Seq<u8>) -> Option<Seq<char>> {
    if valid_utf8(bytes) {
        Some(decode_utf8(bytes))
    } else {
        None
    }
}

/// The text that the bytes encode, where they are UTF-8.
pub fn text_of(bytes: Vec<u8>) -> (r: Option<String>)
    ensures
        opt_view(r) == utf8_strict(bytes@),
{
    let ghost b = bytes@;
    let r = from_utf8(bytes);
    proof {
        if r is Some {
            vstd::utf8::encode_utf8_decode_utf8(r->0@);
        }
    }
    r
}

/// The text of bytes: what they encode where they are UTF-8, else what `String::from_utf8_lossy`
/// makes of them.
pub open spec fn lossy_text(bytes: Seq<u8>) -> Seq<char> {
    if valid_utf8(bytes) {
        decode_utf8(bytes)
    } else {
        utf8_lossy(bytes)
    }
}

/// The text of the bytes, with replacement characters for what is not UTF-8.
pub fn lossy_text_of(bytes: &Vec<u8>) -> (r: String)
    ensures
        r@ == lossy_text(bytes@),
{
    let r = from_utf8_lossy(bytes.as_slice());
    proof {
        if valid_utf8(bytes@) {
            vstd::utf8::encode_utf8_decode_utf8(r@);
        }
    }
    r
}

/// The bytes that a text is encoded as are read as that text.
pub proof fn encoded_text_is_read_back(text: Seq<char>)
    ensures
        lossy_text(encode_utf8(text)) == text,
        utf8_strict(encode_utf8(text)) == Some(text),
{
    vstd::utf8::encode_utf8_valid_utf8(text);
    vstd::utf8::encode_utf8_decode_utf8(text);
}

/// The first index at or after `from` where `pat` stands in `data`.
pub open spec fn found_from(data: Seq<u8>, pat: Seq<u8>, from: int) -> Option<int>
    decreases data.len() - from,
{
    if from < 0 || from + pat.len() > data.len() || from >= data.len() {
        None
    } else if data.subrange(from, from + pat.len()) == pat {
        Some(from)
    } else {
        found_from(data, pat, from + 1)
    }
}

/// The first index where `pat` stands in `data`.
pub open spec fn found(data: Seq<u8>, pat: Seq<u8>) -> Option<int> {
    found_from(data, pat, 0)
}

/// A found index lies in the data, holds the pattern, and is the first one that does.
pub proof fn lemma_found_from(data: Seq<u8>, pat: Seq<u8>, from: int)
    requires
        0 <= from,
        pat.len() > 0,
    ensures
        found_from(data, pat, from) is Some ==> {
            let i = found_from(data, pat, from)->0;
            &&& from <= i
            &&& i + pat.len() <= data.len()
            &&& data.subrange(i, i + pat.len()) == pat
        },
    decreases data.len() - from,
{
    if from + pat.len() <= data.len() && data.subrange(from, from + pat.len()) != pat {
        lemma_found_from(data, pat, from + 1);
    }
}

/// What was found stays found when more bytes arrive.
pub proof fn found_survives_append(data: Seq<u8>, more: Seq<u8>, pat: Seq<u8>, from: int)
    requires
        0 <= from,
        pat.len() > 0,
        found_from(data, pat, from) is Some,
    ensures
        found_from(data + more, pat, from) == found_from(data, pat, from),
    decreases data.len() - from,
{
    assert((data + more).subrange(from, from + pat.len()) =~= data.subrange(
        from,
        from + pat.len(),
    ));
    if data.subrange(from, from + pat.len()) != pat {
        found_survives_append(data, more, pat, from + 1);
    }
}

/// Whether `pat` stands in `data` at index `i`.
fn stands(data: &Vec<u8>, pat: &Vec<u8>, i: usize) -> (r: bool)
    requires
        i + pat.len() <= data.len(),
    ensures
        r == (data@.subrange(i as int, i + pat.len()) == pat@),
{
    for j in 0..pat.len()
        invariant
            i + pat.len() <= data.len(),
            forall|k: int| 0 <= k < j ==> data@[i + k] == pat@[k],
    {
        if data[i + j] != pat[j] {
            proof {
                assert(data@.subrange(i as int, i + pat.len())[j as int] != pat@[j as int]);
            }
            return false;
        }
    }
    proof {
        assert(data@.subrange(i as int, i + pat.len()) =~= pat@);
    }
    true
}

/// The first index where `pat` stands in `data`.
pub fn find(data: &Vec<u8>, pat: &Vec<u8>) -> (r: Option<usize>)
    requires
        pat.len() > 0,
    ensures
        r is Some == found(data@, pat@) is Some,
        r is Some ==> r->0 == found(data@, pat@)->0 && r->0 + pat.len() <= data.len(),
{
    let mut i: usize = 0;
    while i < data.len() && pat.len() <= data.len() - i
        invariant
            pat.len() > 0,
            i <= data.len(),
            found(data@, pat@) == found_from(data@, pat@, i as int),
        decreases data.len() - i,
    {
        if stands(data, pat, i) {
            return Some(i);
        }
        i = i + 1;
    }
    None
}

/// Appends `src[from..to]` to `out`.
pub fn append_range(out: &mut Vec<u8>, src: &Vec<u8>, from: usize, to: usize)
    requires
        from <= to <= src.len(),
    ensures
        final(out)@ == old(out)@ + src@.subrange(from as int, to as int),
{
    proof {
        assert(out@ =~= out@ + src@.subrange(from as int, from as int));
    }
    for i in from..to
        invariant
            from <= to <= src.len(),
            out@ == old(out)@ + src@.subrange(from as int, i as int),
    {
        out.push(src[i]);
        proof {
            assert(out@ =~= old(out)@ + src@.subrange(from as int, i + 1));
        }
    }
}

/// Appends all of `src` to `out`.
pub fn append_all(out: &mut Vec<u8>, src: &Vec<u8>)
    ensures
        final(out)@ == old(out)@ + src@,
{
    proof {
        assert(src@.subrange(0, src@.len() as int) =~= src@);
    }
    append_range(out, src, 0, src.len());
}

/// A copy of `src[from..to]`.
pub fn range_of(src: &Vec<u8>, from: usize, to: usize) -> (out: Vec<u8>)
    requires
        from <= to <= src.len(),
    ensures
        out@ == src@.subrange(from as int, to as int),
{
    let mut out: Vec<u8> = Vec::new();
    append_range(&mut out, src, from, to);
    proof {
        assert(Seq::<u8>::empty() + src@.subrange(from as int, to as int) =~= src@.subrange(
            from as int,
            to as int,
        ));
    }
    out
}

/// Removes the first `n` bytes.
pub fn drop_front(v: &mut Vec<u8>, n: usize)
    requires
        n <= old(v).len(),
    ensures
        final(v)@ == old(v)@.skip(n as int),
{
    let rest = v.split_off(n);
    *v = rest;
    proof {
        assert(v@ =~= old(v)@.skip(n as int));
    }
}

/// The bytes that encode a text.
pub fn bytes_of(s: &str) -> (out: Vec<u8>)
    ensures
        out@ == encode_utf8(s@),
{
    let b = s.as_bytes();
    let mut out: Vec<u8> = Vec::new();
    for i in 0..b.len()
        invariant
            out@ == b@.take(i as int),
    {
        out.push(b[i]);
    }
    proof {
        assert(b@.take(b@.len() as int) =~= b@);
    }
    out
}

/// The pieces between occurrences of a byte, empty pieces too.
pub open spec fn byte_split(s: Seq<u8>, sep: u8) -> Seq<Seq<u8>>
    decreases s.len(),
{
    if s.len() == 0 {
        seq![Seq::<u8>::empty()]
    } else {
        let before = byte_split(s.drop_last(), sep);
        if s.last() == sep {
            before.push(Seq::<u8>::empty())
        } else {
            before.drop_last().push(before.last().push(s.last()))
        }
    }
}

/// The pieces between occurrences of a byte, empty pieces too.
pub fn split_bytes(s: &Vec<u8>, sep: u8) -> (out: Vec<Vec<u8>>)
    ensures
        views(out@) == byte_split(s@, sep),
{
    let mut out: Vec<Vec<u8>> = Vec::new();
    let mut piece: Vec<u8> = Vec::new();
    proof {
        assert(views(out@).push(piece@) =~= byte_split(s@.take(0), sep));
    }
    for i in 0..s.len()
        invariant
            views(out@).push(piece@) == byte_split(s@.take(i as int), sep),
    {
        let byte: u8 = s[i];
        let ghost before = views(out@).push(piece@);
        proof {
            assert(s@.take(i + 1).drop_last() =~= s@.take(i as int));
            assert(before.drop_last() =~= views(out@));
        }
        if byte == sep {
            out.push(piece);
            piece = Vec::new();
            proof {
                assert(views(out@) =~= before);
                assert(piece@ =~= Seq::<u8>::empty());
            }
        } else {
            piece.push(byte);
        }
    }
    out.push(piece);
    proof {
        assert(s@.take(s@.len() as int) =~= s@);
        assert(views(out@) =~= byte_split(s@, sep));
    }
    out
}

} // verus!
