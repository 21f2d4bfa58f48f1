//! The repository that collected files are committed into: large files, ignored files, and the
//! commit itself.

use crate::text::{
    contains, holds_text, is_blank, join, joined, line_parts, lines, opt_view, replace_char,
    replaced, same, starts_with, trim, trimmed, views,
};
use vstd::prelude::*;

verus! {

/// Marks a part of a file that an older version split.
pub const AUTOSPLIT_MARKER: &'static str = ".autosplit.";

/// Bytes in a mebibyte.
pub const MEBIBYTE: u64 = 1048576;

/// The size in bytes from which on a file is large; the largest number where it would be larger.
pub open spec fn large_from(threshold_mb: u64) -> u64 {
    if threshold_mb * MEBIBYTE > u64::MAX {
        u64::MAX
    } else {
        (threshold_mb * MEBIBYTE) as u64
    }
}

/// The size in bytes from which on a file is large.
pub fn large_file_size(threshold_mb: u64) -> (r: u64)
    ensures
        r == large_from(threshold_mb),
{
    if threshold_mb > u64::MAX / MEBIBYTE {
        u64::MAX
    } else {
        threshold_mb * MEBIBYTE
    }
}

/// What is done with an entry of the repository.
#[derive(Debug, Clone, Copy, PartialEq, Eq, Structural)]
pub enum EntryPlan {
    /// Nothing.
    Leave,
    /// It is a part of a file that an older version split: it is removed.
    RemovePart,
    /// It is large: it is tracked separately.
    Track,
}

/// What is done with an entry of the repository. Only files count; files at or above the threshold
/// are tracked separately, and a threshold of zero tracks none.
pub open spec fn entry_plan(name: Seq<char>, is_file: bool, len: u64, threshold_mb: u64) -> EntryPlan {
    if !is_file || threshold_mb == 0 {
        EntryPlan::Leave
    } else if holds_text(name, AUTOSPLIT_MARKER@) {
        EntryPlan::RemovePart
    } else if len >= large_from(threshold_mb) {
        EntryPlan::Track
    } else {
        EntryPlan::Leave
    }
}

/// What is done with an entry of the repository.
pub fn track_large_files_with_lfs(name: &str, is_file: bool, len: u64, threshold_mb: u64) -> (r:
    EntryPlan)
    ensures
        r == entry_plan(name@, is_file, len, threshold_mb),
{
    if !is_file || threshold_mb == 0 {
        EntryPlan::Leave
    } else if contains(name, AUTOSPLIT_MARKER) {
        EntryPlan::RemovePart
    } else if len >= large_file_size(threshold_mb) {
        EntryPlan::Track
    } else {
        EntryPlan::Leave
    }
}

/// Whether a name is that of a part of the file `file_name`.
pub fn is_part_of(name: &str, file_name: &str) -> (r: bool)
    ensures
        r == (file_name@ + AUTOSPLIT_MARKER@).is_prefix_of(name@),
{
    let mut prefix = file_name.to_string();
    prefix.append(AUTOSPLIT_MARKER);
    starts_with(name, prefix.as_str())
}

/// The rules of an ignore file, and whether they were changed.
#[derive(Debug)]
pub struct GitignoreEditor {
    pub lines: Vec<String>,
    pub dirty: bool,
}

/// The rule that ignores one path of the repository.
pub open spec fn anchored(rel: Seq<char>) -> Seq<char> {
    "/"@ + replaced(rel, '\\', "/"@)
}

/// The test for rules other than that of one path.
pub open spec fn other_rule(rule: Seq<char>) -> spec_fn(Seq<char>) -> bool {
    |line: Seq<char>| trimmed(line) != rule
}

impl GitignoreEditor {
    /// Reads the rules from the text of an ignore file, where there is one.
    pub fn load(text: Option<&str>) -> (r: GitignoreEditor)
        ensures
            views(r.lines@) == (match text {
                Some(t) => line_parts(t@),
                None => Seq::empty(),
            }),
            !r.dirty,
    {
        let all: Vec<String> = match text {
            Some(t) => lines(t),
            None => {
                let none: Vec<String> = Vec::new();
                proof {
                    assert(views(none@) =~= Seq::<Seq<char>>::empty());
                }
                none
            },
        };
        GitignoreEditor { lines: all, dirty: false }
    }

    /// Removes the rule of one path.
    pub fn remove(&mut self, rel: &str)
        ensures
            views(final(self).lines@) == views(old(self).lines@).filter(
                other_rule(anchored(rel@)),
            ),
            final(self).dirty == (old(self).dirty || final(self).lines.len()
                != old(self).lines.len()),
    {
        let mut rule = "/".to_string();
        rule.append(replace_char(rel, '\\', "/").as_str());
        let ghost keep = other_rule(anchored(rel@));
        let ghost all = views(self.lines@);
        let n: usize = self.lines.len();
        let mut kept: Vec<String> = Vec::new();
        proof {
            assert(views(kept@) =~= all.take(0).filter(keep));
        }
        for i in 0..n
            invariant
                n == self.lines.len(),
                self.dirty == old(self).dirty,
                self.lines == old(self).lines,
                all == views(self.lines@),
                rule@ == anchored(rel@),
                keep == other_rule(anchored(rel@)),
                views(kept@) == all.take(i as int).filter(keep),
        {
            let ghost was = views(kept@);
            proof {
                assert(all[i as int] == self.lines@[i as int]@);
                assert(all.take(i + 1) =~= all.take(i as int).push(all[i as int]));
                all.take(i as int).lemma_filter_push(all[i as int], keep);
            }
            if !same(trim(self.lines[i].as_str()).as_str(), rule.as_str()) {
                kept.push(self.lines[i].clone());
                proof {
                    assert(views(kept@) =~= was.push(all[i as int]));
                }
            }
        }
        proof {
            assert(all.take(all.len() as int) =~= all);
        }
        if kept.len() != n {
            self.dirty = true;
        }
        self.lines = kept;
    }

    /// The text to store, where the rules were changed.
    pub fn save(&self) -> (r: Option<String>)
        ensures
            opt_view(r) == (if self.dirty {
                Some(joined(views(self.lines@), "\n"@) + "\n"@)
            } else {
                None
            }),
    {
        if !self.dirty {
            return None;
        }
        let mut body = join(&self.lines, "\n");
        body.append("\n");
        Some(body)
    }
}

/// After the rule of a path was removed, no line is that rule.
pub proof fn removed_rule_is_gone(lines: Seq<Seq<char>>, rel: Seq<char>)
    ensures
        forall|i: int|
            0 <= i < lines.filter(other_rule(anchored(rel))).len() ==> trimmed(
                #[trigger] lines.filter(other_rule(anchored(rel)))[i],
            ) != anchored(rel),
{
    assert forall|i: int| 0 <= i < lines.filter(other_rule(anchored(rel))).len() implies trimmed(
        #[trigger] lines.filter(other_rule(anchored(rel)))[i],
    ) != anchored(rel) by {
        lines.lemma_filter_pred(other_rule(anchored(rel)), i);
    }
}

/// Whether there is something to commit, by the output of `git status --porcelain`.
pub fn has_changes(status: &str) -> (r: bool)
    ensures
        r == (trimmed(status@).len() > 0),
{
    !is_blank(trim(status).as_str())
}

/// The identity that a commit has where none is configured.
pub open spec fn fallback_identity() -> Seq<Seq<char>> {
    seq!["-c"@, "user.email=collector@auto_sync"@, "-c"@, "user.name=auto_sync collector"@]
}

/// The arguments of the commit: an identity is supplied only where none is configured.
pub fn commit_args(configured_email: &str, message: &str) -> (out: Vec<String>)
    ensures
        views(out@) == (if trimmed(configured_email@).len() == 0 {
            fallback_identity()
        } else {
            Seq::empty()
        }) + seq!["commit"@, "-m"@, message@],
{
    let mut out: Vec<String> = Vec::new();
    if is_blank(trim(configured_email).as_str()) {
        out.push("-c".to_string());
        out.push("user.email=collector@auto_sync".to_string());
        out.push("-c".to_string());
        out.push("user.name=auto_sync collector".to_string());
        proof {
            assert(views(out@) =~= fallback_identity());
        }
    }
    let ghost first = views(out@);
    proof {
        if trimmed(configured_email@).len() != 0 {
            assert(first =~= Seq::<Seq<char>>::empty());
        }
    }
    out.push("commit".to_string());
    out.push("-m".to_string());
    out.push(message.to_string());
    proof {
        assert(views(out@) =~= first + seq!["commit"@, "-m"@, message@]);
    }
    out
}

/// A line with a prefix, as a function.
pub open spec fn prefixed(prefix: Seq<char>) -> spec_fn(Seq<char>) -> Seq<char> {
    |line: Seq<char>| prefix + line
}

/// The first `limit` lines of an output, each with a prefix.
pub fn prefixed_lines(output: &str, prefix: &str, limit: usize) -> (out: Vec<String>)
    ensures
        views(out@) == (if line_parts(output@).len() <= limit {
            line_parts(output@)
        } else {
            line_parts(output@).take(limit as int)
        }).map_values(prefixed(prefix@)),
{
    let all = lines(output);
    let ghost ls = views(all@);
    let n: usize = if all.len() <= limit {
        all.len()
    } else {
        limit
    };
    let mut out: Vec<String> = Vec::new();
    for i in 0..n
        invariant
            n <= all.len(),
            ls == views(all@),
            out.len() == i,
            forall|j: int| 0 <= j < i ==> (#[trigger] out@[j])@ == prefix@ + ls[j],
    {
        let mut line = prefix.to_string();
        line.append(all[i].as_str());
        proof {
            assert(ls[i as int] == all@[i as int]@);
        }
        out.push(line);
    }
    proof {
        assert(ls.take(ls.len() as int) =~= ls);
        assert(views(out@) =~= ls.take(n as int).map_values(prefixed(prefix@)));
    }
    out
}

/// A file of so many mebibytes or more is tracked separately, and a smaller one is not; a part of a
/// file that was split is removed. Without a threshold nothing is done, and nothing is ever done
/// with what is not a file.
pub proof fn large_files_are_tracked(name: Seq<char>, len: u64, threshold_mb: u64)
    requires
        threshold_mb * 1048576 <= u64::MAX,
    ensures
        entry_plan(name, false, len, threshold_mb) is Leave,
        entry_plan(name, true, len, 0) is Leave,
        threshold_mb > 0 && holds_text(name, ".autosplit."@) ==> entry_plan(
            name,
            true,
            len,
            threshold_mb,
        ) is RemovePart,
        threshold_mb > 0 && !holds_text(name, ".autosplit."@) ==> (entry_plan(
            name,
            true,
            len,
            threshold_mb,
        ) is Track <==> len >= threshold_mb * 1024 * 1024),
{
}

/// Removing the rule of a path keeps every line that is another rule.
pub proof fn other_rules_stay(lines: Seq<Seq<char>>, rel: Seq<char>, line: Seq<char>)
    ensures
        lines.contains(line) && trimmed(line) != "/"@ + replaced(rel, '\\', "/"@)
            ==> lines.filter(other_rule(anchored(rel))).contains(line),
        lines.filter(other_rule(anchored(rel))).contains(line) ==> lines.contains(line) && trimmed(
            line,
        ) != "/"@ + replaced(rel, '\\', "/"@),
{
    let keep = other_rule(anchored(rel));
    let kept = lines.filter(keep);
    if lines.contains(line) && keep(line) {
        let i = choose|i: int| 0 <= i < lines.len() && lines[i] == line;
        lines.lemma_filter_contains(keep, i);
    }
    if kept.contains(line) {
        let k = choose|k: int| 0 <= k < kept.len() && kept[k] == line;
        lines.lemma_filter_pred(keep, k);
        lines.lemma_filter_contains_rev(keep, line);
    }
}

} // verus!
