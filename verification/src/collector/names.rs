//! Names of remote files on a local file system that cannot hold all of them.
//!
//! A component that would not be safe locally is stored under a directory of its own, named by a
//! hash, and a manifest records the bytes that it stands for.

use crate::bytes::{byte_split, bytes_of, split_bytes, text_of, utf8_strict};
use crate::collector::remote::{is_within_any, within_any};
use crate::text::{
    chars_of, is_char, join, joined, lower_char, lowered, opt_view, same, split, split_parts, split_where,
    string_of_range, views,
};
use vstd::prelude::*;
use vstd::utf8::{encode_utf8, is_ascii_chars};

verus! {

/// The text that `blake3::hash` and `to_hex` make of the given bytes.
pub uninterp spec fn blake3_text(data: Seq<u8>) -> Seq<char>;

/// A digit of a hexadecimal number, in lower case.
pub open spec fn hex_char(n: int) -> char {
    if n < 10 {
        ((48 + n) as u8) as char
    } else {
        ((87 + n) as u8) as char
    }
}

/// Whether a text holds only hexadecimal digits in lower case.
pub open spec fn lower_hex(s: Seq<char>) -> bool {
    forall|i: int|
        0 <= i < s.len() ==> 48 <= (#[trigger] s[i]) as u32 <= 57 || 97 <= s[i] as u32 <= 102
}

/// `blake3::hash` followed by `to_hex`: the hash of the bytes as text, which has two hexadecimal
/// digits in lower case for each of its 32 bytes.
#[verifier::external_body]
pub(crate) fn blake3_hex(data: &[u8]) -> (r: String)
    ensures
        r@ == blake3_text(data@),
        r@.len() == 64,
        lower_hex(r@),
{
    blake3::hash(data).to_hex().to_string()
}

/// The directory that holds what is stored under a hash.
pub const ENCODED_NAME_DIR: &'static str = ".auto_sync_name";

/// How many digits of a hash name a stored component.
pub const STORED_HASH_LEN: usize = 32;

/// The ASCII upper case of a character.
pub open spec fn upper_char(c: char) -> char {
    if 97 <= c as u32 <= 122 {
        ((c as u8 - 32) as u8) as char
    } else {
        c
    }
}

/// The ASCII upper case of a text.
pub open spec fn uppered(s: Seq<char>) -> Seq<char> {
    s.map_values(|c: char| upper_char(c))
}

/// The ASCII upper case of a character.
pub fn uppercase_char(c: char) -> (r: char)
    ensures
        r == upper_char(c),
{
    if c as u32 >= 97 && c as u32 <= 122 {
        ((c as u8) - 32) as char
    } else {
        c
    }
}

/// The text with its ASCII letters in upper case.
pub fn to_ascii_uppercase(s: &str) -> (out: String)
    ensures
        out@ == uppered(s@),
{
    let chars = chars_of(s);
    let mut out: String = String::new();
    for i in 0..chars.len()
        invariant
            chars@ == s@,
            out@ == uppered(s@.take(i as int)),
    {
        proof {
            assert(s@.take(i + 1) =~= s@.take(i as int).push(s@[i as int]));
        }
        out.push(uppercase_char(chars[i]));
    }
    proof {
        assert(s@.take(s@.len() as int) =~= s@);
    }
    out
}

/// Whether a name, in upper case and without what follows its first dot, belongs to a device.
pub open spec fn device_name(u: Seq<char>) -> bool {
    ||| u == "CON"@
    ||| u == "PRN"@
    ||| u == "AUX"@
    ||| u == "NUL"@
    ||| u.len() == 4 && (u.take(3) == "COM"@ || u.take(3) == "LPT"@) && 49 <= u[3] as u32 <= 57
}

/// Whether a name, in upper case and without what follows its first dot, belongs to a device.
fn is_device_name(u: &str) -> (r: bool)
    ensures
        r == device_name(u@),
{
    if same(u, "CON") || same(u, "PRN") || same(u, "AUX") || same(u, "NUL") {
        return true;
    }
    let chars = chars_of(u);
    if chars.len() != 4 {
        return false;
    }
    let stem = string_of_range(&chars, 0, 3);
    proof {
        assert(stem@ =~= u@.take(3));
    }
    (same(stem.as_str(), "COM") || same(stem.as_str(), "LPT")) && chars[3] as u32 >= 49
        && chars[3] as u32 <= 57
}

/// Whether a character may not stand in a local name.
pub open spec fn bad_char(c: char) -> bool {
    (c as u32) < 32 || c == '<' || c == '>' || c == ':' || c == '"' || c == '\\' || c == '|' || c
        == '?' || c == '*'
}

/// Whether a text can be a local name as it is.
pub open spec fn safe_name(t: Seq<char>) -> bool {
    &&& t.len() > 0
    &&& t != "."@
    &&& t != ".."@
    &&& t.last() != ' '
    &&& t.last() != '.'
    &&& forall|i: int| 0 <= i < t.len() ==> !bad_char(#[trigger] t[i])
    &&& !device_name(uppered(split_parts(t, '.')[0]))
}

/// The local name of a component, where it can keep its own.
pub open spec fn safe_component(raw: Seq<u8>) -> Option<Seq<char>> {
    match utf8_strict(raw) {
        Some(t) => if safe_name(t) {
            Some(t)
        } else {
            None
        },
        None => None,
    }
}

/// Whether a text can be a local name as it is.
fn is_safe_name(t: &str) -> (r: bool)
    ensures
        r == safe_name(t@),
{
    let chars = chars_of(t);
    let n: usize = chars.len();
    if n == 0 || same(t, ".") || same(t, "..") {
        return false;
    }
    if chars[n - 1] == ' ' || chars[n - 1] == '.' {
        return false;
    }
    for i in 0..n
        invariant
            n == chars.len(),
            chars@ == t@,
            forall|j: int| 0 <= j < i ==> !bad_char(#[trigger] t@[j]),
    {
        let c = chars[i];
        if (c as u32) < 32 || c == '<' || c == '>' || c == ':' || c == '"' || c == '\\' || c == '|'
            || c == '?' || c == '*' {
            proof {
                assert(bad_char(t@[i as int]));
            }
            return false;
        }
    }
    let parts = split(t, '.');
    proof {
        assert(views(parts@)[0] == parts@[0]@);
    }
    !is_device_name(to_ascii_uppercase(parts[0].as_str()).as_str())
}

/// The local name of a component, where it can keep its own.
pub fn safe_windows_component(raw: &Vec<u8>) -> (r: Option<String>)
    ensures
        opt_view(r) == safe_component(raw@),
{
    let copy = crate::bytes::range_of(raw, 0, raw.len());
    proof {
        assert(copy@ =~= raw@);
    }
    match text_of(copy) {
        Some(t) => {
            if is_safe_name(t.as_str()) {
                Some(t)
            } else {
                None
            }
        },
        None => None,
    }
}

/// Bytes as hexadecimal text, two digits in lower case each.
pub open spec fn hex_text(bytes: Seq<u8>) -> Seq<char>
    decreases bytes.len(),
{
    if bytes.len() == 0 {
        Seq::empty()
    } else {
        hex_text(bytes.drop_last()).push(hex_char((bytes.last() / 16) as int)).push(
            hex_char((bytes.last() % 16) as int),
        )
    }
}

/// A digit of a hexadecimal number, in lower case.
fn hex_digit(n: u8) -> (r: char)
    requires
        n < 16,
    ensures
        r == hex_char(n as int),
{
    if n < 10 {
        (48 + n) as char
    } else {
        (87 + n) as char
    }
}

/// Bytes as hexadecimal text.
pub fn hex_encode(bytes: &Vec<u8>) -> (out: String)
    ensures
        out@ == hex_text(bytes@),
{
    let mut out = String::new();
    for i in 0..bytes.len()
        invariant
            out@ == hex_text(bytes@.take(i as int)),
    {
        let b: u8 = bytes[i];
        proof {
            assert(bytes@.take(i + 1).drop_last() =~= bytes@.take(i as int));
        }
        out.push(hex_digit(b / 16));
        out.push(hex_digit(b % 16));
    }
    proof {
        assert(bytes@.take(bytes@.len() as int) =~= bytes@);
    }
    out
}

/// Why a hexadecimal text was refused.
#[derive(Debug, Clone, Copy, PartialEq, Eq, Structural)]
pub enum HexError {
    OddLength,
    BadDigit,
}

/// The value of a hexadecimal digit in either case.
pub open spec fn nibble(b: u8) -> Option<int> {
    if 48 <= b <= 57 {
        Some(b - 48)
    } else if 97 <= b <= 102 {
        Some(b - 87)
    } else if 65 <= b <= 70 {
        Some(b - 55)
    } else {
        None
    }
}

/// The bytes that pairs of digits stand for, unless one is no digit.
pub open spec fn nibble_pairs(digits: Seq<u8>) -> Option<Seq<u8>>
    decreases digits.len(),
{
    if digits.len() < 2 {
        Some(Seq::empty())
    } else {
        let n = digits.len() as int;
        match (
            nibble_pairs(digits.take(n - 2)),
            nibble(digits[n - 2]),
            nibble(digits[n - 1]),
        ) {
            (Some(before), Some(hi), Some(lo)) => Some(before.push((hi * 16 + lo) as u8)),
            _ => None,
        }
    }
}

/// The bytes that a hexadecimal text stands for.
pub open spec fn hex_bytes(text: Seq<char>) -> Result<Seq<u8>, HexError> {
    let digits = encode_utf8(text);
    if digits.len() % 2 != 0 {
        Err(HexError::OddLength)
    } else {
        match nibble_pairs(digits) {
            Some(bytes) => Ok(bytes),
            None => Err(HexError::BadDigit),
        }
    }
}

/// The value of a hexadecimal digit in either case.
fn hex_nibble(b: u8) -> (r: Option<u8>)
    ensures
        r is Some == nibble(b) is Some,
        r is Some ==> r->0 == nibble(b)->0 && r->0 < 16,
{
    if 48 <= b && b <= 57 {
        Some(b - 48)
    } else if 97 <= b && b <= 102 {
        Some(b - 87)
    } else if 65 <= b && b <= 70 {
        Some(b - 55)
    } else {
        None
    }
}

/// A bad digit spoils every longer row of digits.
proof fn lemma_pairs_prefix(digits: Seq<u8>, k: int)
    requires
        0 <= k <= digits.len(),
        k % 2 == 0,
        digits.len() % 2 == 0,
    ensures
        nibble_pairs(digits) is Some ==> nibble_pairs(digits.take(k)) is Some,
    decreases digits.len(),
{
    if k < digits.len() {
        let n = digits.len() as int;
        lemma_pairs_prefix(digits.take(n - 2), k);
        assert(digits.take(n - 2).take(k) =~= digits.take(k));
    } else {
        assert(digits.take(k) =~= digits);
    }
}

/// The bytes that a hexadecimal text stands for.
pub fn hex_decode(text: &str) -> (r: Result<Vec<u8>, HexError>)
    ensures
        (match r {
            Ok(v) => Ok::<Seq<u8>, HexError>(v@),
            Err(e) => Err(e),
        }) == hex_bytes(text@),
{
    let digits = bytes_of(text);
    let n: usize = digits.len();
    if n % 2 != 0 {
        return Err(HexError::OddLength);
    }
    let mut out: Vec<u8> = Vec::new();
    let mut i: usize = 0;
    proof {
        assert(out@ =~= Seq::<u8>::empty());
    }
    while i < n
        invariant
            n == digits.len(),
            n % 2 == 0,
            i % 2 == 0,
            i <= n,
            digits@ == encode_utf8(text@),
            nibble_pairs(digits@.take(i as int)) == Some(out@),
        decreases n - i,
    {
        proof {
            let now = digits@.take(i + 2);
            assert(now.take(i as int) =~= digits@.take(i as int));
            lemma_pairs_prefix(digits@, i + 2);
        }
        match (hex_nibble(digits[i]), hex_nibble(digits[i + 1])) {
            (Some(hi), Some(lo)) => {
                out.push(hi * 16 + lo);
            },
            _ => {
                return Err(HexError::BadDigit);
            },
        }
        i = i + 2;
    }
    proof {
        assert(digits@.take(n as int) =~= digits@);
    }
    Ok(out)
}

/// Decoding what was encoded gives the bytes back.
pub proof fn hex_round_trip(bytes: Seq<u8>)
    ensures
        hex_bytes(hex_text(bytes)) == Ok::<Seq<u8>, HexError>(bytes),
{
    lemma_hex_ascii(bytes);
    let t = hex_text(bytes);
    let digits = encode_utf8(t);
    vstd::utf8::is_ascii_chars_encode_utf8(t);
    lemma_hex_pairs(bytes, digits);
}

proof fn lemma_hex_ascii(bytes: Seq<u8>)
    ensures
        is_ascii_chars(hex_text(bytes)),
        hex_text(bytes).len() == 2 * bytes.len(),
    decreases bytes.len(),
{
    if bytes.len() > 0 {
        lemma_hex_ascii(bytes.drop_last());
    }
}

proof fn lemma_hex_pairs(bytes: Seq<u8>, digits: Seq<u8>)
    requires
        digits.len() == hex_text(bytes).len(),
        hex_text(bytes).len() == 2 * bytes.len(),
        is_ascii_chars(hex_text(bytes)),
        forall|i: int| 0 <= i < digits.len() ==> hex_text(bytes)[i] as u8 == #[trigger] digits[i],
    ensures
        nibble_pairs(digits) == Some(bytes),
    decreases bytes.len(),
{
    if bytes.len() == 0 {
        assert(bytes =~= Seq::<u8>::empty());
    } else {
        let before = bytes.drop_last();
        let b = bytes.last();
        let n = digits.len() as int;
        lemma_hex_ascii(before);
        assert forall|i: int| 0 <= i < n - 2 implies hex_text(before)[i] as u8
            == #[trigger] digits.take(n - 2)[i] by {
            assert(hex_text(bytes)[i] == hex_text(before)[i]);
        }
        lemma_hex_pairs(before, digits.take(n - 2));
        assert(hex_text(bytes)[n - 2] == hex_char((b / 16) as int));
        assert(hex_text(bytes)[n - 1] == hex_char((b % 16) as int));
        assert(nibble(digits[n - 2]) == Some((b / 16) as int));
        assert(nibble(digits[n - 1]) == Some((b % 16) as int));
        assert((b / 16) * 16 + (b % 16) == b);
        assert(before.push(b) =~= bytes);
    }
}

/// What a stored path stands for.
#[derive(Debug)]
pub struct NameManifestEntry {
    pub stored_rel: String,
    pub original_rel_hex: String,
}

impl View for NameManifestEntry {
    type V = (Seq<char>, Seq<char>);

    open spec fn view(&self) -> (Seq<char>, Seq<char>) {
        (self.stored_rel@, self.original_rel_hex@)
    }
}

/// What the stored paths of a host stand for.
#[derive(Debug)]
pub struct NameManifest {
    pub version: u32,
    pub entries: Vec<NameManifestEntry>,
}

/// A path of an archive leads upwards.
#[derive(Debug, Clone, Copy, PartialEq, Eq, Structural)]
pub struct UpwardEntry;

impl UpwardEntry {
    /// The error as shown to users.
    pub fn message(&self) -> (r: String)
        ensures
            r@ == "tar entry contains '..'"@,
    {
        "tar entry contains '..'".to_string()
    }
}

/// The storing of one path as far as it has come.
pub struct Storing {
    /// The components under which the path is stored.
    pub stored: Seq<Seq<char>>,
    /// The components of the path.
    pub raw: Seq<Seq<u8>>,
    /// The entries of the manifest.
    pub entries: Seq<(Seq<char>, Seq<char>)>,
    /// Whether a component leads upwards.
    pub upwards: bool,
}

/// Components of a path of bytes with separators between them.
pub open spec fn raw_joined(parts: Seq<Seq<u8>>) -> Seq<u8>
    decreases parts.len(),
{
    if parts.len() == 0 {
        Seq::empty()
    } else if parts.len() == 1 {
        parts[0]
    } else {
        raw_joined(parts.drop_last()).push(47u8) + parts.last()
    }
}

/// Whether the manifest has an entry for a stored path.
pub open spec fn has_stored(entries: Seq<(Seq<char>, Seq<char>)>, stored: Seq<char>) -> bool {
    exists|i: int| 0 <= i < entries.len() && (#[trigger] entries[i]).0 == stored
}

/// The name under which an unsafe component is stored.
pub open spec fn hashed_name(part: Seq<u8>) -> Seq<char> {
    blake3_text(part).take(STORED_HASH_LEN as int)
}

/// The storing of a path after one more component.
pub open spec fn with_part(s: Storing, part: Seq<u8>) -> Storing {
    if s.upwards || part.len() == 0 || part == seq![46u8] {
        s
    } else if part == seq![46u8, 46u8] {
        Storing { upwards: true, ..s }
    } else {
        let raw = s.raw.push(part);
        match safe_component(part) {
            Some(t) => Storing { stored: s.stored.push(t), raw, ..s },
            None => {
                let stored = s.stored.push(ENCODED_NAME_DIR@).push(hashed_name(part));
                let path = joined(stored, "/"@);
                Storing {
                    stored,
                    raw,
                    entries: if has_stored(s.entries, path) {
                        s.entries
                    } else {
                        s.entries.push((path, hex_text(raw_joined(raw))))
                    },
                    ..s
                }
            },
        }
    }
}

/// The storing of a path after all the given components.
pub open spec fn with_parts(s: Storing, parts: Seq<Seq<u8>>) -> Storing
    decreases parts.len(),
{
    if parts.len() == 0 {
        s
    } else {
        with_part(with_parts(s, parts.drop_last()), parts.last())
    }
}

/// The storing of a path of bytes, from the entries that the manifest has.
pub open spec fn storing_of(
    raw_path: Seq<u8>,
    entries: Seq<(Seq<char>, Seq<char>)>,
) -> Storing {
    with_parts(
        Storing { stored: Seq::empty(), raw: Seq::empty(), entries, upwards: false },
        byte_split(raw_path, 47),
    )
}

/// The path that something is stored under, where there is anything to store.
pub open spec fn joined_storing(s: Storing) -> Option<Seq<char>> {
    if s.stored.len() == 0 {
        None
    } else {
        Some(joined(s.stored, "/"@))
    }
}

/// Components of a path of bytes with separators between them.
fn join_raw_path(parts: &Vec<Vec<u8>>) -> (out: Vec<u8>)
    ensures
        out@ == raw_joined(views(parts@)),
{
    let ghost all = views(parts@);
    let mut out: Vec<u8> = Vec::new();
    proof {
        assert(out@ =~= raw_joined(all.take(0)));
    }
    for i in 0..parts.len()
        invariant
            all == views(parts@),
            out@ == raw_joined(all.take(i as int)),
    {
        let ghost was = out@;
        proof {
            assert(all.take(i + 1).drop_last() =~= all.take(i as int));
            assert(all.take(i + 1).last() == parts@[i as int]@);
        }
        if i > 0 {
            out.push(47);
        }
        crate::bytes::append_all(&mut out, &parts[i]);
        proof {
            if i == 0 {
                assert(out@ =~= parts@[0]@);
            }
        }
    }
    proof {
        assert(all.take(all.len() as int) =~= all);
    }
    out
}

/// Whether the manifest has an entry for a stored path.
fn is_recorded(entries: &Vec<NameManifestEntry>, stored: &str) -> (r: bool)
    ensures
        r == has_stored(views(entries@), stored@),
{
    for i in 0..entries.len()
        invariant
            forall|j: int| 0 <= j < i ==> (#[trigger] views(entries@)[j]).0 != stored@,
    {
        if same(entries[i].stored_rel.as_str(), stored) {
            proof {
                assert(views(entries@)[i as int].0 == stored@);
            }
            return true;
        }
    }
    false
}

/// Whether bytes are those of the text `.` or of the text `..`.
fn is_dots(part: &Vec<u8>, count: usize) -> (r: bool)
    requires
        count == 1 || count == 2,
    ensures
        count == 1 ==> r == (part@ == seq![46u8]),
        count == 2 ==> r == (part@ == seq![46u8, 46u8]),
{
    if part.len() != count {
        return false;
    }
    if count == 1 {
        proof {
            if part@[0] == 46 {
                assert(part@ =~= seq![46u8]);
            }
        }
        part[0] == 46
    } else {
        proof {
            if part@[0] == 46 && part@[1] == 46 {
                assert(part@ =~= seq![46u8, 46u8]);
            }
        }
        part[0] == 46 && part[1] == 46
    }
}

/// Stores one component that cannot keep its name.
fn store_hashed(
    stored: &mut Vec<String>,
    raw: &Vec<Vec<u8>>,
    part: &Vec<u8>,
    manifest: &mut NameManifest,
)
    ensures
        final(manifest).version == old(manifest).version,
        views(final(stored)@) == views(old(stored)@).push(ENCODED_NAME_DIR@).push(
            hashed_name(part@),
        ),
        safe_name(ENCODED_NAME_DIR@),
        safe_name(hashed_name(part@)),
        views(final(manifest).entries@) == (if has_stored(
            views(old(manifest).entries@),
            joined(views(final(stored)@), "/"@),
        ) {
            views(old(manifest).entries@)
        } else {
            views(old(manifest).entries@).push(
                (joined(views(final(stored)@), "/"@), hex_text(raw_joined(views(raw@)))),
            )
        }),
{
    let hash = blake3_hex(part.as_slice());
    let digits = chars_of(hash.as_str());
    let name = string_of_range(&digits, 0, STORED_HASH_LEN);
    proof {
        assert(name@ =~= hashed_name(part@));
        lemma_hex_is_safe(name@);
        lemma_name_dir_is_safe();
    }
    let ghost was = views(stored@);
    stored.push(ENCODED_NAME_DIR.to_string());
    stored.push(name);
    proof {
        assert(views(stored@) =~= was.push(ENCODED_NAME_DIR@).push(hashed_name(part@)));
    }
    let path = join(stored, "/");
    if !is_recorded(&manifest.entries, path.as_str()) {
        let original_rel_hex = hex_encode(&join_raw_path(raw));
        let ghost before = views(manifest.entries@);
        let entry = NameManifestEntry { stored_rel: path, original_rel_hex };
        let ghost ev = entry@;
        manifest.entries.push(entry);
        proof {
            assert(views(manifest.entries@) =~= before.push(ev));
        }
    }
}

/// Whether all components can be local names.
pub open spec fn all_safe(stored: Seq<Seq<char>>) -> bool {
    forall|i: int| 0 <= i < stored.len() ==> safe_name(#[trigger] stored[i])
}

/// Hexadecimal digits, more than a device name has, can be a local name.
proof fn lemma_hex_is_safe(t: Seq<char>)
    requires
        lower_hex(t),
        t.len() > 4,
    ensures
        safe_name(t),
{
    assert forall|i: int| 0 <= i < t.len() implies !bad_char(#[trigger] t[i]) && t[i] != '.' && t[i]
        != ' ' by {
        assert(48 <= t[i] as u32 <= 57 || 97 <= t[i] as u32 <= 102);
    }
    reveal_strlit(".");
    reveal_strlit("..");
    lemma_whole_first_piece(t);
    lemma_long_is_no_device(uppered(split_parts(t, '.')[0]));
}

proof fn lemma_long_is_no_device(u: Seq<char>)
    requires
        u.len() > 4 || u.len() == 0,
    ensures
        !device_name(u),
{
    reveal_strlit("CON");
    reveal_strlit("PRN");
    reveal_strlit("AUX");
    reveal_strlit("NUL");
}

/// A text without a dot is its own first piece.
proof fn lemma_whole_first_piece(t: Seq<char>)
    requires
        forall|i: int| 0 <= i < t.len() ==> t[i] != '.',
    ensures
        split_parts(t, '.').len() >= 1,
        split_parts(t, '.')[0] == t,
{
    lemma_split_without(t, is_char('.'));
}

proof fn lemma_split_without(t: Seq<char>, f: spec_fn(char) -> bool)
    requires
        forall|i: int| 0 <= i < t.len() ==> !f(#[trigger] t[i]),
    ensures
        split_where(t, f) == seq![t],
    decreases t.len(),
{
    if t.len() == 0 {
        assert(t =~= Seq::<char>::empty());
    } else {
        let u = t.drop_last();
        assert forall|i: int| 0 <= i < u.len() implies !f(#[trigger] u[i]) by {
            assert(u[i] == t[i]);
        }
        lemma_split_without(u, f);
        assert(!f(t[t.len() - 1]));
        assert(u.push(t.last()) =~= t);
        assert(split_where(t, f) =~= seq![t]);
    }
}

/// Where a text begins with a separator, its first piece is empty.
proof fn lemma_split_at_start(t: Seq<char>, f: spec_fn(char) -> bool)
    requires
        t.len() > 0,
        f(t[0]),
    ensures
        split_where(t, f).len() >= 2,
        split_where(t, f)[0] == Seq::<char>::empty(),
    decreases t.len(),
{
    let u = t.drop_last();
    if u.len() == 0 {
        assert(split_where(u, f) == seq![Seq::<char>::empty()]);
    } else {
        assert(u[0] == t[0]);
        lemma_split_at_start(u, f);
    }
}

/// The name of the directory for hashed names can be a local name.
proof fn lemma_name_dir_is_safe()
    ensures
        safe_name(ENCODED_NAME_DIR@),
{
    reveal_strlit(".auto_sync_name");
    reveal_strlit(".");
    reveal_strlit("..");
    let t = ".auto_sync_name"@;
    assert(t.len() == 15);
    assert(t[0] == '.' && t[1] == 'a' && t[2] == 'u' && t[3] == 't' && t[4] == 'o' && t[5] == '_'
        && t[6] == 's' && t[7] == 'y' && t[8] == 'n' && t[9] == 'c' && t[10] == '_' && t[11] == 'n'
        && t[12] == 'a' && t[13] == 'm' && t[14] == 'e');
    lemma_split_at_start(t, is_char('.'));
    lemma_long_is_no_device(uppered(split_parts(t, '.')[0]));
}

/// Where a remote path, given by its bytes, is stored locally: none where it names nothing. A path
/// that leads upwards is refused. The manifest gains an entry for each component that cannot keep
/// its name, unless it has one.
pub fn stored_rel_for_linux_path(raw_path: &Vec<u8>, manifest: &mut NameManifest) -> (r: Result<
    Option<String>,
    UpwardEntry,
>)
    ensures
        final(manifest).version == old(manifest).version,
        ({
            let s = storing_of(raw_path@, views(old(manifest).entries@));
            &&& views(final(manifest).entries@) == s.entries
            &&& r is Err == s.upwards
            &&& r is Ok ==> opt_view(r->Ok_0) == joined_storing(s)
            &&& r is Ok ==> all_safe(s.stored)
        }),
{
    let parts = split_bytes(raw_path, 47);
    let ghost all = views(parts@);
    let mut stored: Vec<String> = Vec::new();
    let mut raw: Vec<Vec<u8>> = Vec::new();
    let ghost start = Storing {
        stored: Seq::empty(),
        raw: Seq::empty(),
        entries: views(manifest.entries@),
        upwards: false,
    };
    proof {
        assert(views(stored@) =~= start.stored);
        assert(views(raw@) =~= start.raw);
        assert(all.take(0) =~= Seq::<Seq<u8>>::empty());
    }
    for i in 0..parts.len()
        invariant
            all == views(parts@),
            all == byte_split(raw_path@, 47),
            start.stored == Seq::<Seq<char>>::empty(),
            start.raw == Seq::<Seq<u8>>::empty(),
            !start.upwards,
            start.entries == views(old(manifest).entries@),
            manifest.version == old(manifest).version,
            ({
                let s = with_parts(start, all.take(i as int));
                &&& views(stored@) == s.stored
                &&& all_safe(s.stored)
                &&& views(raw@) == s.raw
                &&& views(manifest.entries@) == s.entries
                &&& !s.upwards
            }),
    {
        let part = &parts[i];
        let ghost before = with_parts(start, all.take(i as int));
        let ghost now = with_parts(start, all.take(i + 1));
        proof {
            assert(all.take(i + 1).drop_last() =~= all.take(i as int));
            assert(all.take(i + 1).last() == part@);
            assert(now == with_part(before, part@));
        }
        if is_dots(part, 2) {
            proof {
                lemma_upwards_stays(start, all, i + 1);
            }
            return Err(UpwardEntry);
        }
        if part.len() > 0 && !is_dots(part, 1) {
            let ghost raw_before = views(raw@);
            raw.push(crate::bytes::range_of(part, 0, part.len()));
            proof {
                assert(part@.subrange(0, part@.len() as int) =~= part@);
                assert(views(raw@) =~= raw_before.push(part@));
            }
            match safe_windows_component(part) {
                Some(t) => {
                    let ghost was = views(stored@);
                    let ghost tv = t@;
                    stored.push(t);
                    proof {
                        assert(views(stored@) =~= was.push(tv));
                    }
                },
                None => {
                    store_hashed(&mut stored, &raw, part, manifest);
                },
            }
        }
    }
    proof {
        assert(all.take(all.len() as int) =~= all);
    }
    if stored.len() == 0 {
        return Ok(None);
    }
    Ok(Some(join(&stored, "/")))
}

/// A component that cannot keep its name can be traced back: the manifest gains an entry for the
/// path that it is stored under, from which the bytes of its original path are decoded.
pub proof fn encoded_name_is_traced_back(s: Storing, part: Seq<u8>)
    requires
        !s.upwards,
        part.len() > 0,
        part != seq![46u8],
        part != seq![46u8, 46u8],
        safe_component(part) is None,
        !has_stored(s.entries, joined(with_part(s, part).stored, "/"@)),
    ensures
        with_part(s, part).entries.len() == s.entries.len() + 1,
        with_part(s, part).entries.last().0 == joined(with_part(s, part).stored, "/"@),
        hex_bytes(with_part(s, part).entries.last().1) == Ok::<Seq<u8>, HexError>(
            raw_joined(s.raw.push(part)),
        ),
{
    hex_round_trip(raw_joined(s.raw.push(part)));
}

/// Once a component leads upwards, nothing changes any more.
proof fn lemma_upwards_stays(s: Storing, parts: Seq<Seq<u8>>, k: int)
    requires
        0 <= k <= parts.len(),
        with_parts(s, parts.take(k)).upwards,
    ensures
        with_parts(s, parts) == with_parts(s, parts.take(k)),
    decreases parts.len(),
{
    if k < parts.len() {
        assert(parts.drop_last().take(k) =~= parts.take(k));
        lemma_upwards_stays(s, parts.drop_last(), k);
    } else {
        assert(parts.take(k) =~= parts);
    }
}

/// A path whose components can all keep their names is stored as it is, and leaves the manifest
/// alone.
pub proof fn safe_paths_are_stored_plain(
    raw_path: Seq<u8>,
    entries: Seq<(Seq<char>, Seq<char>)>,
)
    requires
        forall|i: int|
            0 <= i < byte_split(raw_path, 47).len() ==> safe_component(
                #[trigger] byte_split(raw_path, 47)[i],
            ) is Some,
    ensures
        storing_of(raw_path, entries).entries == entries,
        !storing_of(raw_path, entries).upwards,
        storing_of(raw_path, entries).stored.len() == byte_split(raw_path, 47).len(),
        forall|i: int|
            0 <= i < byte_split(raw_path, 47).len() ==> Some(
                #[trigger] storing_of(raw_path, entries).stored[i],
            ) == safe_component(byte_split(raw_path, 47)[i]),
{
    let start = Storing { stored: Seq::empty(), raw: Seq::empty(), entries, upwards: false };
    lemma_safe_parts(start, byte_split(raw_path, 47));
}

proof fn lemma_safe_parts(s: Storing, parts: Seq<Seq<u8>>)
    requires
        !s.upwards,
        s.stored.len() == 0,
        forall|i: int| 0 <= i < parts.len() ==> safe_component(#[trigger] parts[i]) is Some,
    ensures
        with_parts(s, parts).entries == s.entries,
        !with_parts(s, parts).upwards,
        with_parts(s, parts).stored.len() == parts.len(),
        forall|i: int|
            0 <= i < parts.len() ==> Some(#[trigger] with_parts(s, parts).stored[i])
                == safe_component(parts[i]),
    decreases parts.len(),
{
    if parts.len() > 0 {
        let t = parts.drop_last();
        assert forall|i: int| 0 <= i < t.len() implies safe_component(#[trigger] t[i]) is Some by {
            assert(t[i] == parts[i]);
        }
        lemma_safe_parts(s, t);
        let last = parts.last();
        assert(safe_component(parts[parts.len() - 1]) is Some);
        lemma_dots_unsafe();
        assert(last.len() > 0) by {
            if last.len() == 0 {
                assert(last =~= Seq::<u8>::empty());
            }
        }
        assert forall|i: int| 0 <= i < parts.len() implies Some(
            #[trigger] with_parts(s, parts).stored[i],
        ) == safe_component(parts[i]) by {
            if i < t.len() {
                assert(with_parts(s, parts).stored[i] == with_parts(s, t).stored[i]);
            }
        }
    }
}

/// Neither nothing nor dots can be a local name.
proof fn lemma_dots_unsafe()
    ensures
        safe_component(Seq::empty()) is None,
        safe_component(seq![46u8]) is None,
        safe_component(seq![46u8, 46u8]) is None,
{
    let none = Seq::<char>::empty();
    let one = seq!['.'];
    let two = seq!['.', '.'];
    reveal_strlit(".");
    reveal_strlit("..");
    assert(one =~= "."@);
    assert(two =~= ".."@);
    assert(is_ascii_chars(none) && is_ascii_chars(one) && is_ascii_chars(two));
    vstd::utf8::is_ascii_chars_encode_utf8(none);
    vstd::utf8::is_ascii_chars_encode_utf8(one);
    vstd::utf8::is_ascii_chars_encode_utf8(two);
    assert(encode_utf8(none) =~= Seq::<u8>::empty());
    assert(encode_utf8(one) =~= seq![46u8]) by {
        assert(one[0] as u8 == 46u8);
    }
    assert(encode_utf8(two) =~= seq![46u8, 46u8]) by {
        assert(two[0] as u8 == 46u8 && two[1] as u8 == 46u8);
    }
    vstd::utf8::encode_utf8_decode_utf8(none);
    vstd::utf8::encode_utf8_decode_utf8(one);
    vstd::utf8::encode_utf8_decode_utf8(two);
}

/// Whether the path that an entry stands for lies under one of the roots.
pub open spec fn original_within(hex: Seq<char>, roots: Seq<Seq<char>>) -> bool {
    match hex_bytes(hex) {
        Ok(bytes) => match utf8_strict(bytes) {
            Some(t) => within_any(t, roots),
            None => false,
        },
        Err(_) => false,
    }
}

/// The test for entries that lie under none of the roots, neither as stored nor as they were.
pub open spec fn outside_roots(roots: Seq<Seq<char>>) -> spec_fn((Seq<char>, Seq<char>)) -> bool {
    |e: (Seq<char>, Seq<char>)| !(within_any(e.0, roots) || original_within(e.1, roots))
}

/// Whether the path that an entry stands for lies under one of the roots.
fn is_original_within(hex: &str, roots: &Vec<String>) -> (r: bool)
    ensures
        r == original_within(hex@, views(roots@)),
{
    match hex_decode(hex) {
        Ok(bytes) => match text_of(bytes) {
            Some(t) => is_within_any(t.as_str(), roots),
            None => false,
        },
        Err(_) => false,
    }
}

/// Drops the entries that lie under one of the roots, which are about to be collected anew.
pub fn prune_name_manifest_roots(manifest: &mut NameManifest, rel_roots: &Vec<String>)
    ensures
        final(manifest).version == old(manifest).version,
        views(final(manifest).entries@) == views(old(manifest).entries@).filter(
            outside_roots(views(rel_roots@)),
        ),
{
    let ghost all = views(manifest.entries@);
    let ghost keep = outside_roots(views(rel_roots@));
    let mut kept: Vec<NameManifestEntry> = Vec::new();
    proof {
        assert(views(kept@) =~= all.take(0).filter(keep));
    }
    for i in 0..manifest.entries.len()
        invariant
            manifest.version == old(manifest).version,
            all == views(manifest.entries@),
            all == views(old(manifest).entries@),
            keep == outside_roots(views(rel_roots@)),
            views(kept@) == all.take(i as int).filter(keep),
    {
        let e = &manifest.entries[i];
        let ghost was = views(kept@);
        proof {
            assert(all[i as int] == e@);
            assert(all.take(i + 1) =~= all.take(i as int).push(e@));
            all.take(i as int).lemma_filter_push(e@, keep);
        }
        if !is_within_any(e.stored_rel.as_str(), rel_roots) && !is_original_within(
            e.original_rel_hex.as_str(),
            rel_roots,
        ) {
            let copy = NameManifestEntry {
                stored_rel: e.stored_rel.clone(),
                original_rel_hex: e.original_rel_hex.clone(),
            };
            kept.push(copy);
            proof {
                assert(views(kept@) =~= was.push(e@));
            }
        }
    }
    proof {
        assert(all.take(all.len() as int) =~= all);
    }
    manifest.entries = kept;
}

/// Whether a name is one that devices have on Windows, whatever the case of its letters.
pub open spec fn spells_device(name: Seq<char>) -> bool {
    let t = lowered(name);
    ||| t == "con"@
    ||| t == "prn"@
    ||| t == "aux"@
    ||| t == "nul"@
    ||| t.len() == 4 && (t.take(3) == "com"@ || t.take(3) == "lpt"@) && 49 <= t[3] as u32 <= 57
}

proof fn lemma_letter_cases(c: char)
    ensures
        lower_char(c) == 'a' <==> upper_char(c) == 'A',
        lower_char(c) == 'c' <==> upper_char(c) == 'C',
        lower_char(c) == 'l' <==> upper_char(c) == 'L',
        lower_char(c) == 'm' <==> upper_char(c) == 'M',
        lower_char(c) == 'n' <==> upper_char(c) == 'N',
        lower_char(c) == 'o' <==> upper_char(c) == 'O',
        lower_char(c) == 'p' <==> upper_char(c) == 'P',
        lower_char(c) == 'r' <==> upper_char(c) == 'R',
        lower_char(c) == 't' <==> upper_char(c) == 'T',
        lower_char(c) == 'u' <==> upper_char(c) == 'U',
        lower_char(c) == 'x' <==> upper_char(c) == 'X',
{
}

proof fn lemma_cases(name: Seq<char>, lower: Seq<char>, upper: Seq<char>)
    requires
        lower.len() == 3,
        upper.len() == 3,
        forall|c: char, i: int|
            0 <= i < 3 ==> (lower_char(c) == #[trigger] lower[i] <==> #[trigger] upper_char(c)
                == upper[i]),
    ensures
        lowered(name) == lower <==> uppered(name) == upper,
{
    assert(lowered(name).len() == name.len());
    assert(uppered(name).len() == name.len());
    if lowered(name) == lower {
        assert forall|i: int| 0 <= i < 3 implies uppered(name)[i] == upper[i] by {
            assert(lower_char(name[i]) == lowered(name)[i]);
            assert(upper_char(name[i]) == uppered(name)[i]);
            assert(lower_char(name[i]) == lower[i] <==> upper_char(name[i]) == upper[i]);
        }
        assert(uppered(name) =~= upper);
    }
    if uppered(name) == upper {
        assert forall|i: int| 0 <= i < 3 implies lowered(name)[i] == lower[i] by {
            assert(lower_char(name[i]) == lowered(name)[i]);
            assert(upper_char(name[i]) == uppered(name)[i]);
            assert(lower_char(name[i]) == lower[i] <==> upper_char(name[i]) == upper[i]);
        }
        assert(lowered(name) =~= lower);
    }
}

proof fn lemma_device_names(name: Seq<char>)
    ensures
        device_name(uppered(name)) <==> spells_device(name),
{
    reveal_strlit("con");
    reveal_strlit("CON");
    reveal_strlit("prn");
    reveal_strlit("PRN");
    reveal_strlit("aux");
    reveal_strlit("AUX");
    reveal_strlit("nul");
    reveal_strlit("NUL");
    reveal_strlit("com");
    reveal_strlit("COM");
    reveal_strlit("lpt");
    reveal_strlit("LPT");
    assert forall|c: char| (lower_char(c) == 'a' <==> #[trigger] upper_char(c) == 'A') && (
    lower_char(c) == 'c' <==> upper_char(c) == 'C') && (lower_char(c) == 'l' <==> upper_char(c)
        == 'L') && (lower_char(c) == 'm' <==> upper_char(c) == 'M') && (lower_char(c) == 'n'
        <==> upper_char(c) == 'N') && (lower_char(c) == 'o' <==> upper_char(c) == 'O') && (
    lower_char(c) == 'p' <==> upper_char(c) == 'P') && (lower_char(c) == 'r' <==> upper_char(c)
        == 'R') && (lower_char(c) == 't' <==> upper_char(c) == 'T') && (lower_char(c) == 'u'
        <==> upper_char(c) == 'U') && (lower_char(c) == 'x' <==> upper_char(c) == 'X') by {
        lemma_letter_cases(c);
    }
    lemma_cases(name, "con"@, "CON"@);
    lemma_cases(name, "prn"@, "PRN"@);
    lemma_cases(name, "aux"@, "AUX"@);
    lemma_cases(name, "nul"@, "NUL"@);
    if name.len() == 4 {
        let stem = name.take(3);
        lemma_cases(stem, "com"@, "COM"@);
        lemma_cases(stem, "lpt"@, "LPT"@);
        assert(lowered(name).take(3) =~= lowered(stem));
        assert(uppered(name).take(3) =~= uppered(stem));
        assert(lowered(name)[3] == lower_char(name[3]));
        assert(uppered(name)[3] == upper_char(name[3]));
    }
}

/// A name keeps its text exactly where it is not empty, is no step to another directory, ends with
/// neither a blank nor a dot, holds no control character and none of `<>:"\\|?*`, and what stands
/// before its first dot is not the name of a device.
pub proof fn names_are_kept_where_windows_can_hold_them(raw: Seq<u8>)
    ensures
        safe_component(raw) == (match utf8_strict(raw) {
            Some(t) => if t.len() > 0 && t != seq!['.'] && t != seq!['.', '.'] && t.last() != ' '
                && t.last() != '.' && (forall|i: int|
                0 <= i < t.len() ==> 32 <= (#[trigger] t[i]) as u32 && !seq![
                    '<',
                    '>',
                    ':',
                    '"',
                    '\\',
                    '|',
                    '?',
                    '*',
                ].contains(t[i])) && !spells_device(split_parts(t, '.')[0]) {
                Some(t)
            } else {
                None
            },
            None => None,
        }),
{
    if let Some(t) = utf8_strict(raw) {
        reveal_strlit(".");
        reveal_strlit("..");
        assert("."@ =~= seq!['.']);
        assert(".."@ =~= seq!['.', '.']);
        lemma_device_names(split_parts(t, '.')[0]);
        let bad = seq!['<', '>', ':', '"', '\\', '|', '?', '*'];
        assert forall|c: char| #[trigger] bad_char(c) == ((c as u32) < 32 || bad.contains(c)) by {
            assert(bad[0] == '<' && bad[1] == '>' && bad[2] == ':' && bad[3] == '"' && bad[4]
                == '\\' && bad[5] == '|' && bad[6] == '?' && bad[7] == '*');
        }
    }
}

} // verus!
