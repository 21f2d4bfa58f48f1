//! File modes and symbolic links of collected files, kept beside the files because the local file
//! system may not hold them.

use crate::bytes::bytes_of;
use crate::collector::remote::{
    excluded, find_prune_clause, is_excluded, prune_clause, quoted, shell_quote, within,
};
use crate::sorted::{sort_set, sorted_set};
use crate::text::{
    after_prefix, chars_of, cut_space, join, joined, line_parts, lines, number, number_text,
    opt_view, pair_view, split_once_space, starts_with, strip_prefix, trim, trimmed, views,
    without_trailing, word_parts, words,
};
use vstd::prelude::*;
use vstd::utf8::encode_utf8;

verus! {

/// The file under a host's local root that keeps modes and links.
pub const PERMS_FILE: &'static str = ".auto_sync_perms";

/// Whether a text holds only decimal digits.
pub open spec fn all_digits(s: Seq<char>) -> bool {
    forall|i: int| 0 <= i < s.len() ==> 48 <= (#[trigger] s[i]) as u32 <= 57
}

/// Whether a text holds only decimal digits.
fn only_digits(s: &Vec<char>) -> (r: bool)
    ensures
        r == all_digits(s@),
{
    for i in 0..s.len()
        invariant
            forall|j: int| 0 <= j < i ==> 48 <= (#[trigger] s@[j]) as u32 <= 57,
    {
        let u: u32 = s[i] as u32;
        if u < 48 || u > 57 {
            return false;
        }
    }
    true
}

/// The value of a read, write or plain execute letter.
pub open spec fn letter(found: u8, wanted: u8, value: int) -> int {
    if found == wanted {
        value
    } else {
        0
    }
}

/// The value of an execute letter, which may carry a special bit: with execution in lower case,
/// without it in upper case.
pub open spec fn execute(found: u8, both: u8, special_only: u8, value: int, special: int) -> int {
    if found == 120 {
        value
    } else if found == both {
        value + special
    } else if found == special_only {
        special
    } else {
        0
    }
}

/// The mode that the nine letters after the type letter stand for.
pub open spec fn symbolic_mode(s: Seq<u8>) -> int {
    letter(s[1], 114, 0o400) + letter(s[2], 119, 0o200) + execute(s[3], 115, 83, 0o100, 0o4000)
        + letter(s[4], 114, 0o40) + letter(s[5], 119, 0o20) + execute(s[6], 115, 83, 0o10, 0o2000)
        + letter(s[7], 114, 0o4) + letter(s[8], 119, 0o2) + execute(s[9], 116, 84, 0o1, 0o1000)
}

/// Whether a text starts at the root.
pub open spec fn rooted(s: Seq<char>) -> bool {
    "/"@.is_prefix_of(s)
}

/// Mode and path of a line of the form `mode path`.
pub open spec fn stat_line(t: Seq<char>) -> Option<(Seq<char>, Seq<char>)> {
    match cut_space(t) {
        Some(cut) => if 0 < cut.0.len() <= 5 && all_digits(cut.0) && rooted(trimmed(cut.1)) {
            Some((cut.0, trimmed(cut.1)))
        } else {
            None
        },
        None => None,
    }
}

/// Mode and path of a line of a long listing: at least nine words, the symbolic mode first and an
/// absolute path last.
pub open spec fn listing_line(t: Seq<char>) -> Option<(Seq<char>, Seq<char>)> {
    let parts = word_parts(t);
    if parts.len() >= 9 && encode_utf8(parts[0]).len() >= 10 && rooted(parts.last()) {
        Some((number_text(symbolic_mode(encode_utf8(parts[0])) as nat, 8), parts.last()))
    } else {
        None
    }
}

/// Mode, in octal, and path of a line in either form.
pub open spec fn perm_line(line: Seq<char>) -> Option<(Seq<char>, Seq<char>)> {
    match stat_line(trimmed(line)) {
        Some(r) => Some(r),
        None => listing_line(trimmed(line)),
    }
}

/// The value of a read, write or plain execute letter.
fn letter_value(found: u8, wanted: u8, value: u64) -> (r: u64)
    ensures
        r == letter(found, wanted, value as int),
        r <= value,
{
    if found == wanted {
        value
    } else {
        0
    }
}

/// The value of an execute letter.
fn execute_value(found: u8, both: u8, special_only: u8, value: u64, special: u64) -> (r: u64)
    requires
        value + special <= 0xffff,
    ensures
        r == execute(found, both, special_only, value as int, special as int),
        r <= value + special,
{
    if found == 120 {
        value
    } else if found == both {
        value + special
    } else if found == special_only {
        special
    } else {
        0
    }
}

/// The mode that the nine letters after the type letter stand for.
fn mode_of(s: &Vec<u8>) -> (r: u64)
    requires
        s.len() >= 10,
    ensures
        r == symbolic_mode(s@),
{
    letter_value(s[1], 114, 0o400) + letter_value(s[2], 119, 0o200) + execute_value(
        s[3],
        115,
        83,
        0o100,
        0o4000,
    ) + letter_value(s[4], 114, 0o40) + letter_value(s[5], 119, 0o20) + execute_value(
        s[6],
        115,
        83,
        0o10,
        0o2000,
    ) + letter_value(s[7], 114, 0o4) + letter_value(s[8], 119, 0o2) + execute_value(
        s[9],
        116,
        84,
        0o1,
        0o1000,
    )
}

/// Reads a line of the form `mode path`.
fn parse_stat_line(t: &str) -> (r: Option<(String, String)>)
    ensures
        pair_view(r) == stat_line(t@),
{
    match split_once_space(t) {
        Some(cut) => {
            let first = chars_of(cut.0.as_str());
            let rest = trim(cut.1.as_str());
            if first.len() > 0 && first.len() <= 5 && only_digits(&first) && starts_with(
                rest.as_str(),
                "/",
            ) {
                Some((cut.0, rest))
            } else {
                None
            }
        },
        None => None,
    }
}

/// Reads a line of `stat` or of a long listing: the mode in octal and the path.
pub fn parse_perm_line(line: &str) -> (r: Option<(String, String)>)
    ensures
        pair_view(r) == perm_line(line@),
{
    let t = trim(line);
    match parse_stat_line(t.as_str()) {
        Some(found) => {
            return Some(found);
        },
        None => {},
    }
    let parts = words(t.as_str());
    let ghost ps = views(parts@);
    let n: usize = parts.len();
    if n < 9 {
        return None;
    }
    let sym = bytes_of(parts[0].as_str());
    proof {
        assert(ps[0] == parts@[0]@);
        assert(ps.last() == parts@[n - 1]@);
    }
    if sym.len() < 10 || !starts_with(parts[n - 1].as_str(), "/") {
        return None;
    }
    Some((number(mode_of(&sym) as u128, 8), parts[n - 1].clone()))
}

/// The path of a recorded line: a link, or a mode in either form.
pub open spec fn record_path(line: Seq<char>) -> Option<Seq<char>> {
    match after_prefix(trimmed(line), "symlink "@) {
        Some(rest) => match cut_space(rest) {
            Some(cut) => if rooted(trimmed(cut.1)) {
                Some(trimmed(cut.1))
            } else {
                None
            },
            None => None,
        },
        None => match perm_line(trimmed(line)) {
            Some(r) => Some(r.1),
            None => None,
        },
    }
}

/// The path of a recorded line.
pub fn perm_record_path(line: &str) -> (r: Option<String>)
    ensures
        opt_view(r) == record_path(line@),
{
    let t = trim(line);
    match strip_prefix(t.as_str(), "symlink ") {
        Some(rest) => {
            match split_once_space(rest.as_str()) {
                Some(cut) => {
                    let path = trim(cut.1.as_str());
                    if starts_with(path.as_str(), "/") {
                        Some(path)
                    } else {
                        None
                    }
                },
                None => None,
            }
        },
        None => match parse_perm_line(t.as_str()) {
            Some(found) => Some(found.1),
            None => None,
        },
    }
}

/// The recorded form of a line: the line trimmed, where it is a record of a path that is not
/// excluded.
pub open spec fn kept_record(line: Seq<char>, excludes: Seq<Seq<char>>) -> Option<Seq<char>> {
    match record_path(line) {
        Some(path) => if excluded(path, excludes) {
            None
        } else {
            Some(trimmed(line))
        },
        None => None,
    }
}

/// `kept_record` as a function.
pub open spec fn record_keeper(excludes: Seq<Seq<char>>) -> spec_fn(Seq<char>) -> Option<Seq<char>> {
    |line: Seq<char>| kept_record(line, excludes)
}

/// The records in the output of a listing command.
pub fn records_in(output: &str, excludes: &Vec<String>) -> (out: Vec<String>)
    ensures
        views(out@) == line_parts(output@).filter_map(record_keeper(views(excludes@))),
{
    let all = lines(output);
    let ghost ls = views(all@);
    let ghost f = record_keeper(views(excludes@));
    let mut out: Vec<String> = Vec::new();
    proof {
        assert(ls.take(0) =~= Seq::empty());
        assert(views(out@) =~= ls.take(0).filter_map(f));
    }
    for i in 0..all.len()
        invariant
            ls == views(all@),
            f == record_keeper(views(excludes@)),
            views(out@) == ls.take(i as int).filter_map(f),
    {
        let line = all[i].as_str();
        let ghost was = views(out@);
        proof {
            assert(ls[i as int] == line@);
            ls.lemma_filter_map_take_succ(f, i as int);
        }
        let mut kept: Option<String> = None;
        match perm_record_path(line) {
            Some(path) => {
                if !is_excluded(path.as_str(), excludes) {
                    kept = Some(trim(line));
                }
            },
            None => {},
        }
        proof {
            assert(opt_view(kept) == f(ls[i as int]));
        }
        match kept {
            Some(record) => {
                let ghost rv = record@;
                out.push(record);
                proof {
                    assert(views(out@) =~= was.push(rv));
                    assert(ls.take(i + 1).filter_map(f) =~= was.push(rv));
                }
            },
            None => {
                proof {
                    assert(ls.take(i + 1).filter_map(f) =~= was);
                }
            },
        }
    }
    proof {
        assert(ls.take(ls.len() as int) =~= ls);
    }
    out
}

/// The contents of the file of records: sorted, without repeats, one a line.
pub open spec fn perms_text(records: Seq<Seq<char>>) -> Seq<char> {
    joined(sorted_set(records), "\n"@) + "\n"@
}

/// The contents of the file of records, and how many there are.
pub fn perms_body(records: &Vec<String>) -> (r: (String, usize))
    ensures
        r.0@ == perms_text(views(records@)),
        r.1 == sorted_set(views(records@)).len(),
{
    let sorted = sort_set(records);
    let n: usize = sorted.len();
    proof {
        assert(views(sorted@).len() == n);
    }
    let mut body = join(&sorted, "\n");
    body.append("\n");
    (body, n)
}

/// The command that lists modes and links under a remote path, without what is excluded.
pub open spec fn listing_command(path: Seq<char>, excludes: Seq<Seq<char>>) -> Seq<char> {
    let q = quoted(path);
    let prune = prune_clause(path, excludes);
    "if command -v stat >/dev/null 2>&1; then find -H "@ + q + " "@ + prune
        + "\\( -type f -o -type d \\) -exec stat -c '%a %n' {} \\; 2>/dev/null; else find -H "@ + q
        + " "@ + prune
        + "\\( -type f -o -type d \\) -exec ls -ldn {} \\; 2>/dev/null; fi; if [ -L "@ + q
        + " ]; then t=$(readlink "@ + q
        + ") && b=$(printf %s \"$t\" | base64 | tr -d \"\\n\") && printf \"symlink %s %s\\n\" \"$b\" "@
        + q + "; fi; find -H "@ + q + " -mindepth 1 "@ + prune
        + "-type l -exec sh -c 'for p do t=$(readlink \"$p\") || continue; b=$(printf %s \"$t\" | base64 | tr -d \"\\n\"); printf \"symlink %s %s\\n\" \"$b\" \"$p\"; done' sh {} + 2>/dev/null"@
}

/// The command that lists modes and links under a remote path, without what is excluded.
pub fn perms_command(path: &str, excludes: &Vec<String>) -> (r: String)
    ensures
        r@ == listing_command(path@, views(excludes@)),
{
    let q = shell_quote(path);
    let q = q.as_str();
    let prune = find_prune_clause(path, excludes);
    let prune = prune.as_str();
    let mut r = "if command -v stat >/dev/null 2>&1; then find -H ".to_string();
    r.append(q);
    r.append(" ");
    r.append(prune);
    r.append(
        "\\( -type f -o -type d \\) -exec stat -c '%a %n' {} \\; 2>/dev/null; else find -H ",
    );
    r.append(q);
    r.append(" ");
    r.append(prune);
    r.append("\\( -type f -o -type d \\) -exec ls -ldn {} \\; 2>/dev/null; fi; if [ -L ");
    r.append(q);
    r.append(" ]; then t=$(readlink ");
    r.append(q);
    r.append(
        ") && b=$(printf %s \"$t\" | base64 | tr -d \"\\n\") && printf \"symlink %s %s\\n\" \"$b\" ",
    );
    r.append(q);
    r.append("; fi; find -H ");
    r.append(q);
    r.append(" -mindepth 1 ");
    r.append(prune);
    r.append(
        "-type l -exec sh -c 'for p do t=$(readlink \"$p\") || continue; b=$(printf %s \"$t\" | base64 | tr -d \"\\n\"); printf \"symlink %s %s\\n\" \"$b\" \"$p\"; done' sh {} + 2>/dev/null",
    );
    r
}

/// No mode is recorded of a path that is excluded or lies under an excluded one.
pub proof fn excluded_paths_are_not_recorded(
    line: Seq<char>,
    excludes: Seq<Seq<char>>,
    i: int,
)
    requires
        0 <= i < excludes.len(),
        record_path(line) is Some,
        ({
            let p = without_trailing(record_path(line)->0, '/');
            p == excludes[i] || (excludes[i] + "/"@).is_prefix_of(p)
        }),
    ensures
        kept_record(line, excludes) is None,
{
    let p = without_trailing(record_path(line)->0, '/');
    assert(within(p, excludes[i]));
}

/// In the mode that letters stand for, each of the nine permissions is set exactly where its letter
/// says so, and each special bit where the letter of its execute permission does.
pub proof fn modes_are_what_their_letters_say(s: Seq<u8>)
    requires
        s.len() >= 10,
    ensures
        ({
            let m = symbolic_mode(s);
            &&& 0 <= m <= 0o7777
            &&& (m / 0o400) % 2 == 1 <==> s[1] == 114
            &&& (m / 0o200) % 2 == 1 <==> s[2] == 119
            &&& (m / 0o100) % 2 == 1 <==> s[3] == 120 || s[3] == 115
            &&& (m / 0o40) % 2 == 1 <==> s[4] == 114
            &&& (m / 0o20) % 2 == 1 <==> s[5] == 119
            &&& (m / 0o10) % 2 == 1 <==> s[6] == 120 || s[6] == 115
            &&& (m / 0o4) % 2 == 1 <==> s[7] == 114
            &&& (m / 0o2) % 2 == 1 <==> s[8] == 119
            &&& m % 2 == 1 <==> s[9] == 120 || s[9] == 116
            &&& (m / 0o4000) % 2 == 1 <==> s[3] == 115 || s[3] == 83
            &&& (m / 0o2000) % 2 == 1 <==> s[6] == 115 || s[6] == 83
            &&& (m / 0o1000) % 2 == 1 <==> s[9] == 116 || s[9] == 84
        }),
{
}

} // verus!
