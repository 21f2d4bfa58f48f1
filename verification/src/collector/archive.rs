//! Pulling through archives and copies: the commands that are run on the remote host, what their
//! output says, and which parts of a directory are copied.

use crate::collector::remote::{
    all_exclude_patterns, archive_path, excluded, excluded_under, has_exclude_under, is_excluded,
    join_remote, quoted, remote_child, remote_fault, remote_tar_path, shell_quote,
    remote_parts, tar_exclude_patterns, within, within_any, RemotePathError,
};
use crate::paths::keeps_piece;
use crate::sorted::{sort_set, sorted_set};
use crate::text::{
    is_space, join_then_split, joined_starts_with_its_first_parts,
    leading_separator_gives_an_empty_piece, split_parts,
    after_prefix, cut_last, is_blank, join, joined, line_parts, lines, opt_view, rsplit_once, same,
    strip_prefix, trim, trim_end_matches, trim_start_matches, trimmed, views, without_leading,
    without_trailing,
};
use vstd::prelude::*;

verus! {

/// What is wrong with the first bad path from index `i` on.
pub open spec fn first_fault(paths: Seq<Seq<char>>, i: int) -> Option<RemotePathError>
    decreases paths.len() - i,
{
    if i < 0 || i >= paths.len() {
        None
    } else if remote_fault(paths[i]) is Some {
        remote_fault(paths[i])
    } else {
        first_fault(paths, i + 1)
    }
}

/// `archive_path` as a function.
pub open spec fn to_archive_path() -> spec_fn(Seq<char>) -> Seq<char> {
    |p: Seq<char>| archive_path(p)
}

/// The paths as they stand in an archive, unless one is refused.
pub fn archive_paths(paths: &Vec<String>) -> (r: Result<Vec<String>, RemotePathError>)
    ensures
        (match r {
            Ok(_) => None,
            Err(e) => Some(e),
        }) == first_fault(views(paths@), 0),
        r is Ok ==> views(r->Ok_0@) == views(paths@).map_values(to_archive_path()),
{
    let ghost ps = views(paths@);
    let mut out: Vec<String> = Vec::new();
    for i in 0..paths.len()
        invariant
            ps == views(paths@),
            out.len() == i,
            forall|j: int| 0 <= j < i ==> (#[trigger] out@[j])@ == archive_path(ps[j]),
            first_fault(ps, 0) == first_fault(ps, i as int),
    {
        proof {
            assert(ps[i as int] == paths@[i as int]@);
        }
        match remote_tar_path(paths[i].as_str()) {
            Ok(rel) => {
                out.push(rel);
            },
            Err(e) => {
                return Err(e);
            },
        }
    }
    proof {
        assert(views(out@) =~= ps.map_values(to_archive_path()));
    }
    Ok(out)
}

/// A database that is archived through a snapshot of it.
#[derive(Debug)]
pub struct SqliteSnapshot {
    /// Its path as it stands in the archive.
    pub source_rel: String,
    /// The snapshot on the remote host.
    pub remote_tmp: String,
}

impl View for SqliteSnapshot {
    type V = (Seq<char>, Seq<char>);

    open spec fn view(&self) -> (Seq<char>, Seq<char>) {
        (self.source_rel@, self.remote_tmp@)
    }
}

/// How paths are archived.
#[derive(Debug)]
pub struct ArchivePlan {
    /// The command to run on the remote host.
    pub command: String,
    /// What the command reads, where it reads something.
    pub input: Option<String>,
}

/// Quoted words, each followed by a blank.
pub open spec fn quoted_words(words: Seq<Seq<char>>) -> Seq<char>
    decreases words.len(),
{
    if words.len() == 0 {
        Seq::empty()
    } else {
        quoted_words(words.drop_last()) + quoted(words.last()) + " "@
    }
}

/// Appends quoted words, each followed by a blank.
fn append_quoted(out: &mut String, words: &Vec<String>)
    ensures
        final(out)@ == old(out)@ + quoted_words(views(words@)),
{
    let ghost ws = views(words@);
    let ghost start = out@;
    proof {
        assert(start + quoted_words(ws.take(0)) =~= start);
    }
    for i in 0..words.len()
        invariant
            ws == views(words@),
            out@ == start + quoted_words(ws.take(i as int)),
    {
        proof {
            assert(ws.take(i + 1).drop_last() =~= ws.take(i as int));
            assert(ws.take(i + 1).last() == words@[i as int]@);
        }
        out.append(shell_quote(words[i].as_str()).as_str());
        out.append(" ");
        proof {
            assert(out@ =~= start + quoted_words(ws.take(i + 1)));
        }
    }
    proof {
        assert(ws.take(ws.len() as int) =~= ws);
    }
}

/// The first of a pair, as a function.
pub open spec fn to_source() -> spec_fn((Seq<char>, Seq<char>)) -> Seq<char> {
    |s: (Seq<char>, Seq<char>)| s.0
}

/// What an archive leaves out: the excluded paths under its roots, and the databases of which
/// there are snapshots.
pub open spec fn left_out(
    rels: Seq<Seq<char>>,
    excludes: Seq<Seq<char>>,
    snapshots: Seq<(Seq<char>, Seq<char>)>,
) -> Seq<Seq<char>> {
    all_exclude_patterns(rels, excludes) + snapshots.map_values(to_source())
}

/// The command that archives paths, and what it reads.
pub open spec fn planned(
    rels: Seq<Seq<char>>,
    excludes: Seq<Seq<char>>,
    snapshots: Seq<(Seq<char>, Seq<char>)>,
) -> (Seq<char>, Option<Seq<char>>) {
    let patterns = left_out(rels, excludes, snapshots);
    (
        "cd / && tar -chf - "@ + (if patterns.len() > 0 {
            "-X - "@
        } else {
            Seq::empty()
        }) + quoted_words(rels),
        if patterns.len() > 0 {
            Some(joined(patterns, "\n"@) + "\n"@)
        } else {
            None
        },
    )
}

/// Whether a text has a line.
pub open spec fn has_line(text: Seq<char>, line: Seq<char>) -> bool {
    exists|a: Seq<char>, b: Seq<char>|
        text == #[trigger] (a + line + "\n"@ + b) && (a.len() == 0 || a.last() == '\n')
}

/// Whether texts are the components of a path: none is empty, leads upwards or stays in place, holds
/// a separator, and the last one does not end with white space.
pub open spec fn names_path(parts: Seq<Seq<char>>) -> bool {
    &&& parts.len() > 0
    &&& forall|i: int|
        0 <= i < parts.len() ==> (#[trigger] parts[i]).len() > 0 && parts[i] != seq!['.']
            && parts[i] != ".."@ && !parts[i].contains('/')
    &&& !is_space(parts.last().last())
}

/// Whether a command with what it reads leaves out what is excluded: every excluded path that is one
/// of the archived paths or lies under one stands among the patterns that the command reads, with
/// all that lies under it.
pub open spec fn leaves_out(
    command: Seq<char>,
    input: Option<Seq<char>>,
    rels: Seq<Seq<char>>,
    excludes: Seq<Seq<char>>,
) -> bool {
    forall|parts: Seq<Seq<char>>, r: int|
        names_path(parts) && 1 <= r <= parts.len() && rels.contains(
            #[trigger] joined(parts.take(r), "/"@),
        ) && excludes.contains("/"@ + joined(parts, "/"@)) ==> {
            &&& "cd / && tar -chf - -X - "@.is_prefix_of(command)
            &&& input is Some
            &&& has_line(input->0, joined(parts, "/"@))
            &&& has_line(input->0, joined(parts, "/"@) + "/*"@)
        }
}

/// Plans the archiving of paths: patterns of what is left out are read by the command.
pub fn plan_archive(
    rels: &Vec<String>,
    excludes: &Vec<String>,
    snapshots: &Vec<SqliteSnapshot>,
) -> (r: ArchivePlan)
    ensures
        ({
            let patterns = left_out(views(rels@), views(excludes@), views(snapshots@));
            &&& r.command@ == "cd / && tar -chf - "@ + (if patterns.len() > 0 {
                "-X - "@
            } else {
                Seq::empty()
            }) + quoted_words(views(rels@))
            &&& opt_view(r.input) == (if patterns.len() > 0 {
                Some(joined(patterns, "\n"@) + "\n"@)
            } else {
                None
            })
        }),
        leaves_out(r.command@, opt_view(r.input), views(rels@), views(excludes@)),
{
    proof {
        excluded_paths_are_left_out(views(rels@), views(excludes@), views(snapshots@));
    }
    let mut patterns = tar_exclude_patterns(rels, excludes);
    let ghost base = views(patterns@);
    let ghost ss = views(snapshots@);
    proof {
        assert(views(patterns@) =~= base + ss.take(0).map_values(to_source()));
    }
    for i in 0..snapshots.len()
        invariant
            ss == views(snapshots@),
            views(patterns@) == base + ss.take(i as int).map_values(to_source()),
    {
        let ghost was = views(patterns@);
        proof {
            assert(ss[i as int] == snapshots@[i as int]@);
            assert(ss.take(i + 1) =~= ss.take(i as int).push(ss[i as int]));
        }
        patterns.push(snapshots[i].source_rel.clone());
        proof {
            assert(views(patterns@) =~= was.push(ss[i as int].0));
            assert(views(patterns@) =~= base + ss.take(i + 1).map_values(to_source()));
        }
    }
    proof {
        assert(ss.take(ss.len() as int) =~= ss);
    }
    let mut command = "cd / && tar -chf - ".to_string();
    let ghost start = command@;
    let mut input: Option<String> = None;
    if patterns.len() > 0 {
        command.append("-X - ");
        let mut text = join(&patterns, "\n");
        text.append("\n");
        input = Some(text);
    } else {
        proof {
            assert(command@ =~= start + Seq::<char>::empty());
        }
    }
    append_quoted(&mut command, rels);
    ArchivePlan { command, input }
}

/// The command that finds the databases under one directory.
pub open spec fn find_command(root: Seq<char>) -> Seq<char> {
    "if [ -d "@ + quoted(root) + " ]; then find "@ + quoted(root)
        + " -type f -path '*/data/auto_sync.sqlite' -print; fi\n"@
}

/// The commands that find the databases under the given directories.
pub open spec fn find_commands(roots: Seq<Seq<char>>) -> Seq<char>
    decreases roots.len(),
{
    if roots.len() == 0 {
        Seq::empty()
    } else {
        find_commands(roots.drop_last()) + find_command(roots.last())
    }
}

/// The snapshot script before the commands that find the databases.
pub const SNAPSHOT_SCRIPT_START: &'static str = "
set -e
work=\"${TMPDIR:-/tmp}/auto_sync_collector_sqlite_snap.$$\"
mkdir -p \"$work\"
cd /
{
";

/// The snapshot script after the commands that find the databases.
pub const SNAPSHOT_SCRIPT_END: &'static str = "
} | sort -u | while IFS= read -r db; do
    [ -n \"$db\" ] || continue
    hash=\"$(printf '%s' \"$db\" | sha256sum | awk '{print $1}')\"
    snap=\"$work/$hash.sqlite\"
    if command -v python3 >/dev/null 2>&1; then
        python3 - \"$db\" \"$snap\" <<'PY_SQLITE_BACKUP'
import sqlite3
import sys

src, dst = sys.argv[1], sys.argv[2]
source = sqlite3.connect(f\"file:{src}?mode=ro\", uri=True, timeout=30)
target = sqlite3.connect(dst)
try:
    with target:
        source.backup(target)
finally:
    target.close()
    source.close()
PY_SQLITE_BACKUP
    elif command -v sqlite3 >/dev/null 2>&1; then
        sqlite3 \"$db\" \".backup '$snap'\"
    else
        cp -f -- \"$db\" \"$snap\"
    fi
    chmod 600 \"$snap\" 2>/dev/null || true
    printf 'SQLITE_SNAPSHOT %s %s\\n' \"$db\" \"$snap\"
done
";

/// The command that takes a snapshot of each database under the given directories.
pub fn snapshot_command(dir_roots: &Vec<String>) -> (r: String)
    ensures
        r@ == "sh -c "@ + quoted(
            SNAPSHOT_SCRIPT_START@ + find_commands(views(dir_roots@)) + SNAPSHOT_SCRIPT_END@,
        ),
{
    let ghost rs = views(dir_roots@);
    let mut script = SNAPSHOT_SCRIPT_START.to_string();
    let ghost start = script@;
    proof {
        assert(script@ =~= start + find_commands(rs.take(0)));
    }
    for i in 0..dir_roots.len()
        invariant
            rs == views(dir_roots@),
            script@ == start + find_commands(rs.take(i as int)),
    {
        proof {
            assert(rs.take(i + 1).drop_last() =~= rs.take(i as int));
            assert(rs.take(i + 1).last() == dir_roots@[i as int]@);
        }
        let q = shell_quote(dir_roots[i].as_str());
        script.append("if [ -d ");
        script.append(q.as_str());
        script.append(" ]; then find ");
        script.append(q.as_str());
        script.append(" -type f -path '*/data/auto_sync.sqlite' -print; fi\n");
        proof {
            assert(script@ =~= start + find_commands(rs.take(i + 1)));
        }
    }
    proof {
        assert(rs.take(rs.len() as int) =~= rs);
    }
    script.append(SNAPSHOT_SCRIPT_END);
    let mut r = "sh -c ".to_string();
    r.append(shell_quote(script.as_str()).as_str());
    r
}

/// The snapshot that a line of the script's output reports.
pub open spec fn snapshot_line(line: Seq<char>) -> Option<(Seq<char>, Seq<char>)> {
    match after_prefix(trimmed(line), "SQLITE_SNAPSHOT "@) {
        Some(rest) => match cut_last(rest, ' ') {
            Some(cut) => Some((without_leading(cut.0, '/'), cut.1)),
            None => None,
        },
        None => None,
    }
}

/// `snapshot_line` as a function.
pub open spec fn to_snapshot() -> spec_fn(Seq<char>) -> Option<(Seq<char>, Seq<char>)> {
    |line: Seq<char>| snapshot_line(line)
}

/// The snapshot that a line of the script's output reports.
fn parse_snapshot_line(line: &str) -> (r: Option<SqliteSnapshot>)
    ensures
        opt_view(r) == snapshot_line(line@),
{
    match strip_prefix(trim(line).as_str(), "SQLITE_SNAPSHOT ") {
        Some(rest) => match rsplit_once(rest.as_str(), ' ') {
            Some(cut) => Some(
                SqliteSnapshot {
                    source_rel: trim_start_matches(cut.0.as_str(), '/'),
                    remote_tmp: cut.1,
                },
            ),
            None => None,
        },
        None => None,
    }
}

/// The snapshots that the script's output reports.
pub fn parse_snapshots(output: &str) -> (out: Vec<SqliteSnapshot>)
    ensures
        views(out@) == line_parts(output@).filter_map(to_snapshot()),
{
    let all = lines(output);
    let ghost ls = views(all@);
    let ghost f = to_snapshot();
    let mut out: Vec<SqliteSnapshot> = Vec::new();
    proof {
        assert(ls.take(0) =~= Seq::empty());
        assert(views(out@) =~= ls.take(0).filter_map(f));
    }
    for i in 0..all.len()
        invariant
            ls == views(all@),
            f == to_snapshot(),
            views(out@) == ls.take(i as int).filter_map(f),
    {
        let ghost was = views(out@);
        proof {
            assert(ls[i as int] == all@[i as int]@);
            ls.lemma_filter_map_take_succ(f, i as int);
        }
        match parse_snapshot_line(all[i].as_str()) {
            Some(s) => {
                let ghost sv = s@;
                out.push(s);
                proof {
                    assert(f(ls[i as int]) == Some(sv));
                    assert(views(out@) =~= was.push(sv));
                    assert(ls.take(i + 1).filter_map(f) =~= was.push(sv));
                }
            },
            None => {
                proof {
                    assert(f(ls[i as int]) is None);
                    assert(ls.take(i + 1).filter_map(f) =~= was);
                }
            },
        }
    }
    proof {
        assert(ls.take(ls.len() as int) =~= ls);
    }
    out
}

/// The directory of a snapshot on the remote host.
pub open spec fn snapshot_dir() -> spec_fn((Seq<char>, Seq<char>)) -> Option<Seq<char>> {
    |s: (Seq<char>, Seq<char>)|
        match cut_last(s.1, '/') {
            Some(cut) => Some(cut.0),
            None => None,
        }
}

/// The directories of the snapshots, sorted and without repeats.
pub open spec fn snapshot_dirs(ss: Seq<(Seq<char>, Seq<char>)>) -> Seq<Seq<char>> {
    sorted_set(ss.filter_map(snapshot_dir()))
}

/// The command that removes the snapshots from the remote host, where there are some.
pub fn cleanup_command(snapshots: &Vec<SqliteSnapshot>) -> (r: Option<String>)
    ensures
        opt_view(r) == (if snapshot_dirs(views(snapshots@)).len() == 0 {
            None
        } else {
            Some("rm -rf -- "@ + quoted_words(snapshot_dirs(views(snapshots@))))
        }),
{
    let ghost ss = views(snapshots@);
    let ghost f = snapshot_dir();
    let mut list: Vec<String> = Vec::new();
    proof {
        assert(ss.take(0) =~= Seq::empty());
        assert(views(list@) =~= ss.take(0).filter_map(f));
    }
    for i in 0..snapshots.len()
        invariant
            ss == views(snapshots@),
            f == snapshot_dir(),
            views(list@) == ss.take(i as int).filter_map(f),
    {
        let ghost was = views(list@);
        proof {
            assert(ss[i as int] == snapshots@[i as int]@);
            ss.lemma_filter_map_take_succ(f, i as int);
        }
        match rsplit_once(snapshots[i].remote_tmp.as_str(), '/') {
            Some(cut) => {
                let ghost dv = cut.0@;
                list.push(cut.0);
                proof {
                    assert(f(ss[i as int]) == Some(dv));
                    assert(views(list@) =~= was.push(dv));
                    assert(ss.take(i + 1).filter_map(f) =~= was.push(dv));
                }
            },
            None => {
                proof {
                    assert(f(ss[i as int]) is None);
                    assert(ss.take(i + 1).filter_map(f) =~= was);
                }
            },
        }
    }
    proof {
        assert(ss.take(ss.len() as int) =~= ss);
    }
    let dirs = sort_set(&list);
    if dirs.len() == 0 {
        proof {
            assert(views(dirs@).len() == 0);
        }
        return None;
    }
    let mut cmd = "rm -rf -- ".to_string();
    append_quoted(&mut cmd, &dirs);
    Some(cmd)
}

/// Whether a name of a listing names something.
pub open spec fn listed(name: Seq<char>) -> Option<Seq<char>> {
    let n = without_trailing(name, '\r');
    if n.len() == 0 || n == "."@ || n == ".."@ {
        None
    } else {
        Some(n)
    }
}

/// `listed` as a function.
pub open spec fn to_listed() -> spec_fn(Seq<char>) -> Option<Seq<char>> {
    |name: Seq<char>| listed(name)
}

/// The names in the output of a listing.
pub fn listed_names(output: &str) -> (out: Vec<String>)
    ensures
        views(out@) == line_parts(output@).filter_map(to_listed()),
{
    let all = lines(output);
    let ghost ls = views(all@);
    let ghost f = to_listed();
    let mut out: Vec<String> = Vec::new();
    proof {
        assert(ls.take(0) =~= Seq::empty());
        assert(views(out@) =~= ls.take(0).filter_map(f));
    }
    for i in 0..all.len()
        invariant
            ls == views(all@),
            f == to_listed(),
            views(out@) == ls.take(i as int).filter_map(f),
    {
        let ghost was = views(out@);
        proof {
            assert(ls[i as int] == all@[i as int]@);
            ls.lemma_filter_map_take_succ(f, i as int);
        }
        let name = trim_end_matches(all[i].as_str(), '\r');
        if is_blank(name.as_str()) || same(name.as_str(), ".") || same(name.as_str(), "..") {
            proof {
                assert(f(ls[i as int]) is None);
                assert(ls.take(i + 1).filter_map(f) =~= was);
            }
        } else {
            let ghost nv = name@;
            out.push(name);
            proof {
                assert(f(ls[i as int]) == Some(nv));
                assert(views(out@) =~= was.push(nv));
                assert(ls.take(i + 1).filter_map(f) =~= was.push(nv));
            }
        }
    }
    proof {
        assert(ls.take(ls.len() as int) =~= ls);
    }
    out
}

/// What is done with a child of a directory that holds something excluded.
#[derive(Debug, Clone, Copy, PartialEq, Eq, Structural)]
pub enum ChildPlan {
    /// It is excluded.
    Skip,
    /// Something under it is excluded: it is pulled piece by piece.
    Descend,
    /// It is copied as a whole.
    Copy,
}

/// What is done with a child of a directory that holds something excluded.
pub open spec fn child_plan(child: Seq<char>, excludes: Seq<Seq<char>>) -> ChildPlan {
    if excluded(child, excludes) {
        ChildPlan::Skip
    } else if excluded_under(child, excludes) {
        ChildPlan::Descend
    } else {
        ChildPlan::Copy
    }
}

/// The remote path of a child of a directory, and what is done with it.
pub fn plan_child(dir: &str, name: &str, excludes: &Vec<String>) -> (r: (String, ChildPlan))
    ensures
        r.0@ == remote_child(dir@, name@),
        r.1 == child_plan(remote_child(dir@, name@), views(excludes@)),
{
    let child = join_remote(dir, name);
    let plan: ChildPlan = if is_excluded(child.as_str(), excludes) {
        ChildPlan::Skip
    } else if has_exclude_under(child.as_str(), excludes) {
        ChildPlan::Descend
    } else {
        ChildPlan::Copy
    };
    (child, plan)
}

/// A child that is copied as a whole neither is excluded nor holds anything excluded.
pub proof fn copied_children_hold_nothing_excluded(
    child: Seq<char>,
    excludes: Seq<Seq<char>>,
    below: Seq<char>,
)
    requires
        child_plan(child, excludes) == ChildPlan::Copy,
        excludes.contains(below),
    ensures
        below != without_trailing(child, '/'),
        !(without_trailing(child, '/') + "/"@).is_prefix_of(below),
{
    let i = choose|i: int| 0 <= i < excludes.len() && excludes[i] == below;
    assert(excludes[i] == below);
    if below == without_trailing(child, '/') {
        assert(crate::collector::remote::within(without_trailing(child, '/'), excludes[i]));
    }
}

/// A text that is joined from lines has each of them.
proof fn lemma_joined_lines(lines: Seq<Seq<char>>, i: int)
    requires
        0 <= i < lines.len(),
    ensures
        has_line(joined(lines, "\n"@) + "\n"@, lines[i]),
    decreases lines.len(),
{
    reveal_strlit("\n");
    let nl = "\n"@;
    let text = joined(lines, nl) + nl;
    if lines.len() == 1 {
        let a = Seq::<char>::empty();
        assert(text =~= a + lines[i] + nl + a);
    } else {
        let fewer = lines.drop_last();
        if i == lines.len() - 1 {
            let a = joined(fewer, nl) + nl;
            let b = Seq::<char>::empty();
            assert(text =~= a + lines[i] + nl + b);
            assert(a.last() == '\n');
        } else {
            lemma_joined_lines(fewer, i);
            let before = joined(fewer, nl) + nl;
            let (a, b) = choose|a: Seq<char>, b: Seq<char>|
                before == #[trigger] (a + fewer[i] + nl + b) && (a.len() == 0 || a.last()
                    == '\n');
            let c = b + lines.last() + nl;
            assert(text =~= before + lines.last() + nl);
            assert(text =~= a + lines[i] + nl + c);
        }
    }
}

/// A path that is written with a separator before its components is accepted, and stands in an
/// archive as these components.
pub proof fn absolute_paths_are_archived_without_the_root(parts: Seq<Seq<char>>)
    requires
        names_path(parts),
    ensures
        remote_fault("/"@ + joined(parts, "/"@)) is None,
        archive_path("/"@ + joined(parts, "/"@)) == joined(parts, "/"@),
{
    reveal_strlit("/");
    reveal_strlit("..");
    assert("/"@ =~= seq!['/']);
    let text = joined(parts, "/"@);
    let path = "/"@ + text;
    let last = parts.last();
    assert(parts[parts.len() - 1] == last);
    lemma_joined_ends(parts, "/"@);
    assert(path.last() == last.last());
    assert(last.last() != '/') by {
        assert(last[last.len() - 1] == last.last());
    }
    assert(trimmed(path) == path) by {
        assert(!is_space(path[0]));
    }
    assert(without_trailing(path, '/') == path);
    assert forall|i: int| 0 <= i < parts.len() implies !(#[trigger] parts[i]).contains('/') by {}
    join_then_split(parts, '/');
    leading_separator_gives_an_empty_piece(text, '/');
    let pieces = seq![Seq::<char>::empty()] + parts;
    assert(split_parts(path, '/') == pieces);
    lemma_keep_named(parts);
    let kept = remote_parts(path);
    assert(kept == parts);
    if parts.contains(".."@) {
        let i = choose|i: int| 0 <= i < parts.len() && parts[i] == ".."@;
        assert(parts[i] != ".."@);
    }
}

/// Joined texts end as the last one does, where that is not empty.
proof fn lemma_joined_ends(parts: Seq<Seq<char>>, sep: Seq<char>)
    requires
        parts.len() > 0,
        parts.last().len() > 0,
    ensures
        joined(parts, sep).len() > 0,
        joined(parts, sep).last() == parts.last().last(),
{
}

/// All components of a path are kept, and an empty piece before them is not.
proof fn lemma_keep_named(parts: Seq<Seq<char>>)
    requires
        names_path(parts),
    ensures
        (seq![Seq::<char>::empty()] + parts).filter(keeps_piece()) == parts,
{
    let keep = keeps_piece();
    assert forall|i: int| 0 <= i < parts.len() implies keep(#[trigger] parts[i]) by {}
    lemma_filter_keeps_all(parts, keep);
    parts.lemma_filter_prepend(Seq::<char>::empty(), keep);
    assert(Seq::<Seq<char>>::empty() + parts =~= parts);
}

/// Where all items pass the test, all are left.
proof fn lemma_filter_keeps_all<T>(items: Seq<T>, keep: spec_fn(T) -> bool)
    requires
        forall|i: int| 0 <= i < items.len() ==> keep(#[trigger] items[i]),
    ensures
        items.filter(keep) == items,
    decreases items.len(),
{
    reveal(Seq::filter);
    if items.len() > 0 {
        let fewer = items.drop_last();
        assert forall|i: int| 0 <= i < fewer.len() implies keep(#[trigger] fewer[i]) by {
            assert(fewer[i] == items[i]);
        }
        lemma_filter_keeps_all(fewer, keep);
        assert(keep(items[items.len() - 1]));
        assert(fewer.push(items.last()) =~= items);
    } else {
        assert(items.filter(keep) =~= items);
    }
}

/// The patterns of an excluded path that lies at or under an archived one are among all patterns.
proof fn lemma_patterns_listed(rels: Seq<Seq<char>>, excludes: Seq<Seq<char>>, e: Seq<char>)
    requires
        excludes.contains(e),
        remote_fault(e) is None,
        within_any(archive_path(e), rels),
    ensures
        all_exclude_patterns(rels, excludes).contains(archive_path(e)),
        all_exclude_patterns(rels, excludes).contains(archive_path(e) + "/*"@),
    decreases excludes.len(),
{
    let all = all_exclude_patterns(rels, excludes);
    let before = all_exclude_patterns(rels, excludes.drop_last());
    if excludes.last() == e {
        assert(all[before.len() as int] == archive_path(e));
        assert(all[before.len() as int + 1] == archive_path(e) + "/*"@);
    } else {
        let k = choose|k: int| 0 <= k < excludes.len() && excludes[k] == e;
        assert(excludes.drop_last()[k] == e);
        lemma_patterns_listed(rels, excludes.drop_last(), e);
        let a = choose|a: int| 0 <= a < before.len() && before[a] == archive_path(e);
        let b = choose|b: int| 0 <= b < before.len() && before[b] == archive_path(e) + "/*"@;
        assert(all[a] == before[a]);
        assert(all[b] == before[b]);
    }
}

/// Every excluded path that is one of the archived paths or lies under one is left out of the
/// archive, with all that lies under it: both patterns are lines of what the command reads.
pub proof fn excluded_paths_are_left_out(
    rels: Seq<Seq<char>>,
    excludes: Seq<Seq<char>>,
    snapshots: Seq<(Seq<char>, Seq<char>)>,
)
    ensures
        leaves_out(
            planned(rels, excludes, snapshots).0,
            planned(rels, excludes, snapshots).1,
            rels,
            excludes,
        ),
{
    let (command, input) = planned(rels, excludes, snapshots);
    assert forall|parts: Seq<Seq<char>>, r: int|
        names_path(parts) && 1 <= r <= parts.len() && rels.contains(
            #[trigger] joined(parts.take(r), "/"@),
        ) && excludes.contains("/"@ + joined(parts, "/"@)) implies {
        &&& "cd / && tar -chf - -X - "@.is_prefix_of(command)
        &&& input is Some
        &&& has_line(input->0, joined(parts, "/"@))
        &&& has_line(input->0, joined(parts, "/"@) + "/*"@)
    } by {
        let p = joined(parts, "/"@);
        let e = "/"@ + p;
        absolute_paths_are_archived_without_the_root(parts);
        let root = joined(parts.take(r), "/"@);
        let m = choose|m: int| 0 <= m < rels.len() && rels[m] == root;
        assert(within(p, rels[m])) by {
            if r == parts.len() {
                assert(parts.take(r) =~= parts);
            } else {
                joined_starts_with_its_first_parts(parts, "/"@, r);
            }
        }
        lemma_patterns_listed(rels, excludes, e);
        lemma_left_out_lines(rels, excludes, snapshots, p);
        lemma_left_out_lines(rels, excludes, snapshots, p + "/*"@);
    }
}

/// What is left out makes the command read it, as one line each.
proof fn lemma_left_out_lines(
    rels: Seq<Seq<char>>,
    excludes: Seq<Seq<char>>,
    snapshots: Seq<(Seq<char>, Seq<char>)>,
    pattern: Seq<char>,
)
    requires
        all_exclude_patterns(rels, excludes).contains(pattern) || snapshots.map_values(
            to_source(),
        ).contains(pattern),
    ensures
        planned(rels, excludes, snapshots).1 is Some,
        has_line(planned(rels, excludes, snapshots).1->0, pattern),
        "cd / && tar -chf - -X - "@.is_prefix_of(planned(rels, excludes, snapshots).0),
{
    let base = all_exclude_patterns(rels, excludes);
    let more = snapshots.map_values(to_source());
    let patterns = left_out(rels, excludes, snapshots);
    let k = if base.contains(pattern) {
        let k = choose|k: int| 0 <= k < base.len() && base[k] == pattern;
        assert(patterns[k] == pattern);
        k
    } else {
        let k = choose|k: int| 0 <= k < more.len() && more[k] == pattern;
        assert(patterns[base.len() + k] == pattern);
        base.len() + k
    };
    lemma_joined_lines(patterns, k);
    reveal_strlit("cd / && tar -chf - ");
    reveal_strlit("-X - ");
    reveal_strlit("cd / && tar -chf - -X - ");
    let head = "cd / && tar -chf - "@ + "-X - "@;
    assert(head =~= "cd / && tar -chf - -X - "@);
    let command = planned(rels, excludes, snapshots).0;
    assert(command.subrange(0, head.len() as int) =~= head);
}

/// Databases of which there are snapshots are left out of the archive.
pub proof fn databases_with_snapshots_are_left_out(
    rels: Seq<Seq<char>>,
    excludes: Seq<Seq<char>>,
    snapshots: Seq<(Seq<char>, Seq<char>)>,
    i: int,
)
    requires
        0 <= i < snapshots.len(),
    ensures
        planned(rels, excludes, snapshots).1 is Some,
        has_line(planned(rels, excludes, snapshots).1->0, snapshots[i].0),
        "cd / && tar -chf - -X - "@.is_prefix_of(planned(rels, excludes, snapshots).0),
{
    let more = snapshots.map_values(to_source());
    assert(more[i] == snapshots[i].0);
    lemma_left_out_lines(rels, excludes, snapshots, snapshots[i].0);
}

/// Nothing else is left out of an archive: each pattern is an excluded path at or under an archived
/// one, or what lies under such a path, or a database of which there is a snapshot. Without any of
/// these the command reads nothing.
pub proof fn nothing_else_is_left_out(
    rels: Seq<Seq<char>>,
    excludes: Seq<Seq<char>>,
    snapshots: Seq<(Seq<char>, Seq<char>)>,
    i: int,
)
    requires
        0 <= i < left_out(rels, excludes, snapshots).len(),
    ensures
        ({
            let p = left_out(rels, excludes, snapshots)[i];
            ||| exists|e: int, r: int|
                #![trigger excludes[e], rels[r]]
                0 <= e < excludes.len() && 0 <= r < rels.len() && remote_fault(excludes[e]) is None
                    && (archive_path(excludes[e]) == rels[r] || (rels[r] + "/"@).is_prefix_of(
                    archive_path(excludes[e]),
                )) && (p == archive_path(excludes[e]) || p == archive_path(excludes[e]) + "/*"@)
            ||| exists|k: int| 0 <= k < snapshots.len() && (#[trigger] snapshots[k]).0 == p
        }),
{
    let base = all_exclude_patterns(rels, excludes);
    if i < base.len() {
        lemma_pattern_source(rels, excludes, i);
    } else {
        let k = i - base.len();
        assert(snapshots[k].0 == left_out(rels, excludes, snapshots)[i]);
    }
}

proof fn lemma_pattern_source(rels: Seq<Seq<char>>, excludes: Seq<Seq<char>>, i: int)
    requires
        0 <= i < all_exclude_patterns(rels, excludes).len(),
    ensures
        ({
            let p = all_exclude_patterns(rels, excludes)[i];
            exists|e: int, r: int|
                #![trigger excludes[e], rels[r]]
                0 <= e < excludes.len() && 0 <= r < rels.len() && remote_fault(excludes[e]) is None
                    && (archive_path(excludes[e]) == rels[r] || (rels[r] + "/"@).is_prefix_of(
                    archive_path(excludes[e]),
                )) && (p == archive_path(excludes[e]) || p == archive_path(excludes[e]) + "/*"@)
        }),
    decreases excludes.len(),
{
    let fewer = excludes.drop_last();
    let before = all_exclude_patterns(rels, fewer);
    if i < before.len() {
        lemma_pattern_source(rels, fewer, i);
        let p = before[i];
        let (e, r) = choose|e: int, r: int|
            #![trigger fewer[e], rels[r]]
            0 <= e < fewer.len() && 0 <= r < rels.len() && remote_fault(fewer[e]) is None && (
            archive_path(fewer[e]) == rels[r] || (rels[r] + "/"@).is_prefix_of(
                archive_path(fewer[e]),
            )) && (p == archive_path(fewer[e]) || p == archive_path(fewer[e]) + "/*"@);
        assert(excludes[e] == fewer[e]);
        assert(rels[r] == rels[r]);
    } else {
        let e = excludes.len() - 1;
        let path = archive_path(excludes[e]);
        let r = choose|r: int| 0 <= r < rels.len() && within(path, #[trigger] rels[r]);
        assert(within(path, rels[r]));
    }
}

/// Every path that is to be archived is a word of the command.
pub proof fn archived_paths_are_words_of_the_command(
    rels: Seq<Seq<char>>,
    excludes: Seq<Seq<char>>,
    snapshots: Seq<(Seq<char>, Seq<char>)>,
    i: int,
)
    requires
        0 <= i < rels.len(),
    ensures
        exists|a: Seq<char>, b: Seq<char>|
            planned(rels, excludes, snapshots).0 == #[trigger] (a + quoted(rels[i]) + " "@ + b)
                && a.len() > 0 && a.last() == ' ',
{
    let (a, b) = lemma_quoted_word(rels, i);
    let patterns = left_out(rels, excludes, snapshots);
    let head = "cd / && tar -chf - "@ + (if patterns.len() > 0 {
        "-X - "@
    } else {
        Seq::empty()
    });
    reveal_strlit("cd / && tar -chf - ");
    reveal_strlit("-X - ");
    reveal_strlit(" ");
    let start = head + a;
    assert(start.last() == ' ') by {
        if a.len() > 0 {
            assert(start.last() == a.last());
        } else {
            assert(start =~= head);
        }
    }
    assert(planned(rels, excludes, snapshots).0 =~= start + quoted(rels[i]) + " "@ + b);
}

proof fn lemma_quoted_word(words: Seq<Seq<char>>, i: int) -> (r: (Seq<char>, Seq<char>))
    requires
        0 <= i < words.len(),
    ensures
        quoted_words(words) == r.0 + quoted(words[i]) + " "@ + r.1,
        r.0.len() == 0 || r.0.last() == ' ',
    decreases words.len(),
{
    reveal_strlit(" ");
    let fewer = words.drop_last();
    if i == words.len() - 1 {
        let a = quoted_words(fewer);
        lemma_words_end(fewer);
        assert(quoted_words(words) =~= a + quoted(words[i]) + " "@ + Seq::<char>::empty());
        (a, Seq::empty())
    } else {
        let (a, b) = lemma_quoted_word(fewer, i);
        let c = b + quoted(words.last()) + " "@;
        assert(quoted_words(words) =~= a + quoted(words[i]) + " "@ + c);
        (a, c)
    }
}

proof fn lemma_words_end(words: Seq<Seq<char>>)
    ensures
        quoted_words(words).len() == 0 || quoted_words(words).last() == ' ',
{
    reveal_strlit(" ");
}

} // verus!
